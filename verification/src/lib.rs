//! Build-script orchestration core: parses the line protocol a custom build
//! script prints, keeps a per-package registry of the parsed outputs, prepares
//! the deterministic environment for a script invocation, and computes which
//! ancestor packages' script outputs must be visible to each compilation unit.

use vstd::prelude::*;

pub mod graph;
pub mod output;
pub mod registry;
pub mod runner;
pub mod text;

verus! {

/// One side of a cross-compilation: build scripts and their outputs are kept
/// separately for the machine the build runs on (`Host`) and the machine the
/// artifacts are built for (`Target`).
#[derive(Clone, Copy, Debug, PartialEq, Eq, Structural)]
pub enum Kind {
    Host,
    Target,
}

/// For which platform roles a package's build output is required: the target
/// side only, the host side only (a "plugin"), or both sides at once.
#[derive(Clone, Copy, Debug, PartialEq, Eq, Structural)]
pub enum Platform {
    Target,
    Plugin,
    PluginAndTarget,
}

impl Kind {
    /// The opposite role.
    pub open spec fn spec_flip(self) -> Kind {
        match self {
            Kind::Host => Kind::Target,
            Kind::Target => Kind::Host,
        }
    }

    #[verifier::when_used_as_spec(spec_flip)]
    pub fn flip(self) -> (r: Kind)
        ensures
            r == self.spec_flip(),
    {
        match self {
            Kind::Host => Kind::Target,
            Kind::Target => Kind::Host,
        }
    }
}

impl Platform {
    /// Whether this requirement covers compilations of role `kind`.
    pub open spec fn spec_includes(self, kind: Kind) -> bool {
        match self {
            Platform::Target => kind is Target,
            Platform::Plugin => kind is Host,
            Platform::PluginAndTarget => true,
        }
    }

    #[verifier::when_used_as_spec(spec_includes)]
    pub fn includes(self, kind: Kind) -> (r: bool)
        ensures
            r == self.spec_includes(kind),
    {
        match self {
            Platform::Target => kind == Kind::Target,
            Platform::Plugin => kind == Kind::Host,
            Platform::PluginAndTarget => true,
        }
    }
}

/// A fatal condition raised while handling one build script: a protocol
/// violation in its printed output, or a dependency output missing from the
/// registry when the script's environment is assembled.
#[derive(Debug)]
pub enum BuildScriptError {
    /// A line began with the protocol prefix but had no `=` separator.
    MalformedLine { script: String, line: String },
    /// A flags directive used a flag other than `-l` or `-L`.
    DisallowedFlag { script: String, value: String },
    /// A flags directive ended with a flag that has no following argument.
    MissingFlagValue { script: String, value: String },
    /// A linkable dependency's output was not in the registry: the external
    /// executor scheduled this script before its dependency finished.
    MissingDependencyOutput { links_name: String, package: u64 },
}

} // verus!
