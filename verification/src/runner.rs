//! The eager, computable part of running one package's build script: resolving
//! the platform role, building the deterministic invocation environment,
//! collecting the link-dependency pairs whose outputs must be re-exposed, and
//! — at execution or replay time — synthesizing the `DEP_*` variables and
//! recording a captured output text into the registry.
//!
//! Process spawning, directory creation and cache-file reading and writing are
//! outside collaborators; they hand this module plain strings and take plain
//! (name, value) environment lists back.

use vstd::prelude::*;

use crate::output::{parse_output_spec, BuildOutput, ParseStep, RecordModel};
use crate::registry::{roles_after_insert, BuildState};
use crate::text::{envify, envify_spec};
use crate::{BuildScriptError, Kind, Platform};

verus! {

/// The statically known ingredients of one script invocation, already
/// rendered as strings by the caller's layout and profile computation.
pub struct ScriptConfig {
    /// The role-specific artifact output directory.
    pub out_dir: String,
    /// The directory of the package's manifest.
    pub manifest_dir: String,
    /// The parallelism hint.
    pub jobs: String,
    /// The triple of the machine the build runs on.
    pub host_triple: String,
    /// The triple the artifacts are built for.
    pub target_triple: String,
    /// Whether debug info is enabled in the library profile.
    pub debug: bool,
    /// The optimization level of the library profile.
    pub opt_level: String,
    /// Whether this is a release build.
    pub release: bool,
    /// The enabled features of the package.
    pub features: Vec<String>,
}

/// One immediate dependency target, as the link-dependency closure sees it.
pub struct DepTarget {
    pub pkg_id: u64,
    pub linkable: bool,
    pub links: Option<String>,
}

/// The eagerly computed plan for one script invocation.
pub struct PreparedScript {
    /// The role the script runs under.
    pub kind: Kind,
    /// The deterministic part of the invocation environment, in order.
    pub env: Vec<(String, String)>,
    /// The (links name, package) pairs whose outputs are read at run time.
    pub lib_deps: Vec<(String, u64)>,
}

/// The role a script runs under: host side for a plugin-only requirement,
/// target side otherwise.
pub open spec fn script_kind(req: Platform) -> Kind {
    match req {
        Platform::Plugin => Kind::Host,
        _ => Kind::Target,
    }
}

pub open spec fn bool_str(b: bool) -> Seq<char> {
    if b {
        "true"@
    } else {
        "false"@
    }
}

/// One `CARGO_FEATURE_*` flag variable per enabled feature, in order.
pub open spec fn feature_env_spec(feats: Seq<Seq<char>>) -> Seq<(Seq<char>, Seq<char>)> {
    Seq::new(feats.len(), |i: int| ("CARGO_FEATURE_"@.add(envify_spec(feats[i])), "1"@))
}

/// The deterministic invocation environment: the eight fixed variables, then
/// the feature flags.
pub open spec fn base_env_spec(cfg: ScriptConfig, kind: Kind) -> Seq<(Seq<char>, Seq<char>)> {
    seq![
        ("OUT_DIR"@, cfg.out_dir@),
        ("CARGO_MANIFEST_DIR"@, cfg.manifest_dir@),
        ("NUM_JOBS"@, cfg.jobs@),
        (
            "TARGET"@,
            match kind {
                Kind::Host => cfg.host_triple@,
                Kind::Target => cfg.target_triple@,
            },
        ),
        ("DEBUG"@, bool_str(cfg.debug)),
        ("OPT_LEVEL"@, cfg.opt_level@),
        ("PROFILE"@, if cfg.release { "release"@ } else { "debug"@ }),
        ("HOST"@, cfg.host_triple@),
    ].add(feature_env_spec(cfg.features.deep_view()))
}

/// The link-dependency closure: each linkable immediate dependency that
/// declares a links name, in order.
pub open spec fn link_deps_spec(deps: Seq<DepTarget>) -> Seq<(Seq<char>, u64)>
    decreases deps.len(),
{
    if deps.len() == 0 {
        Seq::empty()
    } else {
        let p = link_deps_spec(deps.drop_last());
        let d = deps.last();
        if d.linkable {
            match d.links {
                Some(l) => p.push((l@, d.pkg_id)),
                None => p,
            }
        } else {
            p
        }
    }
}

/// Prepares one script invocation: resolves the role, assembles the
/// deterministic environment, and captures the link-dependency pairs for the
/// deferred work to resolve against the registry later.
pub fn prepare(req: Platform, cfg: &ScriptConfig, deps: &Vec<DepTarget>) -> (r: PreparedScript)
    ensures
        r.kind == script_kind(req),
        r.env.deep_view() == base_env_spec(*cfg, script_kind(req)),
        r.lib_deps.deep_view() == link_deps_spec(deps@),
{
    let kind = match req {
        Platform::Plugin => Kind::Host,
        _ => Kind::Target,
    };
    let mut env: Vec<(String, String)> = Vec::new();
    env.push(("OUT_DIR".to_owned(), cfg.out_dir.clone()));
    env.push(("CARGO_MANIFEST_DIR".to_owned(), cfg.manifest_dir.clone()));
    env.push(("NUM_JOBS".to_owned(), cfg.jobs.clone()));
    env.push((
        "TARGET".to_owned(),
        match kind {
            Kind::Host => cfg.host_triple.clone(),
            Kind::Target => cfg.target_triple.clone(),
        },
    ));
    env.push(("DEBUG".to_owned(), if cfg.debug { "true".to_owned() } else { "false".to_owned() }));
    env.push(("OPT_LEVEL".to_owned(), cfg.opt_level.clone()));
    env.push((
        "PROFILE".to_owned(),
        if cfg.release {
            "release".to_owned()
        } else {
            "debug".to_owned()
        },
    ));
    env.push(("HOST".to_owned(), cfg.host_triple.clone()));
    let ghost fixed = env.deep_view();
    proof {
        assert(fixed =~= base_env_spec(*cfg, kind).take(8));
    }
    let mut i: usize = 0;
    while i < cfg.features.len()
        invariant
            i <= cfg.features.len(),
            env.deep_view() == base_env_spec(*cfg, kind).take(8 + i as int),
            base_env_spec(*cfg, kind).len() == 8 + cfg.features@.len(),
        decreases cfg.features.len() - i,
    {
        let mut name = String::new();
        name.append("CARGO_FEATURE_");
        let upper = envify(cfg.features[i].as_str());
        name.append(upper.as_str());
        let ghost namev = name@;
        let ghost olde = env.deep_view();
        env.push((name, "1".to_owned()));
        proof {
            assert(env.deep_view() =~= olde.push((namev, "1"@)));
            assert(cfg.features.deep_view()[i as int] == cfg.features@[i as int]@);
            assert(namev == "CARGO_FEATURE_"@.add(envify_spec(cfg.features.deep_view()[i as int])));
            assert(base_env_spec(*cfg, kind)[8 + i as int] == feature_env_spec(
                cfg.features.deep_view(),
            )[i as int]);
            assert(env.deep_view() =~= base_env_spec(*cfg, kind).take(8 + (i + 1)));
        }
        i = i + 1;
    }
    proof {
        assert(base_env_spec(*cfg, kind).take(8 + cfg.features@.len() as int) =~= base_env_spec(
            *cfg,
            kind,
        ));
    }

    let mut lib_deps: Vec<(String, u64)> = Vec::new();
    let mut j: usize = 0;
    while j < deps.len()
        invariant
            j <= deps.len(),
            lib_deps.deep_view() == link_deps_spec(deps@.take(j as int)),
        decreases deps.len() - j,
    {
        proof {
            assert(deps@.take(j + 1).drop_last() =~= deps@.take(j as int));
            assert(deps@.take(j + 1).last() == deps@[j as int]);
        }
        if deps[j].linkable {
            match &deps[j].links {
                Some(l) => {
                    let ghost oldd = lib_deps.deep_view();
                    lib_deps.push((l.clone(), deps[j].pkg_id));
                    proof {
                        assert(lib_deps.deep_view() =~= oldd.push((l@, deps@[j as int].pkg_id)));
                    }
                },
                None => {},
            }
        }
        j = j + 1;
    }
    proof {
        assert(deps@.take(deps@.len() as int) =~= deps@);
    }
    PreparedScript { kind, env, lib_deps }
}

/// The name of one `DEP_*` variable.
pub open spec fn dep_var_name(links: Seq<char>, key: Seq<char>) -> Seq<char> {
    "DEP_"@.add(envify_spec(links)).add("_"@).add(envify_spec(key))
}

/// The variables one dependency's metadata contributes, in order.
pub open spec fn dep_vars_of(links: Seq<char>, rec: RecordModel) -> Seq<(Seq<char>, Seq<char>)> {
    Seq::new(
        rec.metadata.len(),
        |i: int| (dep_var_name(links, rec.metadata[i].0), rec.metadata[i].1),
    )
}

/// Whether every link dependency has a recorded output under `m`.
pub open spec fn all_deps_recorded(m: Map<u64, RecordModel>, pairs: Seq<(Seq<char>, u64)>) -> bool {
    forall|i: int| 0 <= i < pairs.len() ==> m.contains_key(pairs[i].1)
}

/// The `DEP_*` environment all link dependencies contribute, in order; a
/// dependency without a recorded output contributes nothing here.
pub open spec fn dep_env_spec(
    m: Map<u64, RecordModel>,
    pairs: Seq<(Seq<char>, u64)>,
) -> Seq<(Seq<char>, Seq<char>)>
    decreases pairs.len(),
{
    if pairs.len() == 0 {
        Seq::empty()
    } else {
        let p = dep_env_spec(m, pairs.drop_last());
        let last = pairs.last();
        if m.contains_key(last.1) {
            p.add(dep_vars_of(last.0, m[last.1]))
        } else {
            p
        }
    }
}

/// Synthesizes the `DEP_<LINKSNAME>_<METAKEY>` variables from the registry,
/// for the same platform role the script runs under. A missing entry is a
/// scheduling-order violation and fatal.
pub fn dep_env(state: &BuildState, kind: Kind, lib_deps: &Vec<(String, u64)>) -> (r: Result<
    Vec<(String, String)>,
    BuildScriptError,
>)
    ensures
        r is Ok <==> all_deps_recorded(state.role_map(kind), lib_deps.deep_view()),
        match r {
            Ok(env) => env.deep_view() == dep_env_spec(
                state.role_map(kind),
                lib_deps.deep_view(),
            ),
            Err(e) => match e {
                BuildScriptError::MissingDependencyOutput { links_name, package } => exists|i: int|
                    {
                        &&& 0 <= i < lib_deps.deep_view().len()
                        &&& !state.role_map(kind).contains_key(lib_deps.deep_view()[i].1)
                        &&& forall|j: int|
                            0 <= j < i ==> state.role_map(kind).contains_key(
                                (#[trigger] lib_deps.deep_view()[j]).1,
                            )
                        &&& links_name@ == lib_deps.deep_view()[i].0
                        &&& package == lib_deps.deep_view()[i].1
                    },
                _ => false,
            },
        },
{
    let ghost m = state.role_map(kind);
    let ghost pairsv = lib_deps.deep_view();
    let mut env: Vec<(String, String)> = Vec::new();
    let mut i: usize = 0;
    while i < lib_deps.len()
        invariant
            i <= lib_deps.len(),
            m == state.role_map(kind),
            pairsv == lib_deps.deep_view(),
            pairsv.len() == lib_deps@.len(),
            env.deep_view() == dep_env_spec(m, pairsv.take(i as int)),
            all_deps_recorded(m, pairsv.take(i as int)),
        decreases lib_deps.len() - i,
    {
        proof {
            assert(pairsv.take(i + 1).drop_last() =~= pairsv.take(i as int));
            assert(pairsv.take(i + 1).last() == pairsv[i as int]);
            assert(pairsv[i as int] == (lib_deps@[i as int].0@, lib_deps@[i as int].1));
        }
        let name = &lib_deps[i].0;
        let id = lib_deps[i].1;
        match state.get(id, kind) {
            None => {
                proof {
                    assert forall|j: int| 0 <= j < i implies m.contains_key(
                        (#[trigger] pairsv[j]).1,
                    ) by {
                        assert(pairsv.take(i as int)[j] == pairsv[j]);
                    }
                }
                return Err(
                    BuildScriptError::MissingDependencyOutput {
                        links_name: name.clone(),
                        package: id,
                    },
                );
            },
            Some(out) => {
                let ghost rec = m[id];
                let upper_links = envify(name.as_str());
                let mut k: usize = 0;
                while k < out.metadata.len()
                    invariant
                        k <= out.metadata.len(),
                        out@ == rec,
                        rec.metadata.len() == out.metadata@.len(),
                        upper_links@ == envify_spec(name@),
                        name@ == pairsv[i as int].0,
                        env.deep_view() == dep_env_spec(m, pairsv.take(i as int)).add(
                            dep_vars_of(pairsv[i as int].0, rec).take(k as int),
                        ),
                    decreases out.metadata.len() - k,
                {
                    let mut var = String::new();
                    var.append("DEP_");
                    var.append(upper_links.as_str());
                    var.append("_");
                    let upper_key = envify(out.metadata[k].0.as_str());
                    var.append(upper_key.as_str());
                    let ghost olde = env.deep_view();
                    env.push((var, out.metadata[k].1.clone()));
                    proof {
                        assert(out.metadata.deep_view()[k as int] == (
                            out.metadata@[k as int].0@,
                            out.metadata@[k as int].1@,
                        ));
                        assert(rec.metadata[k as int] == (
                            out.metadata@[k as int].0@,
                            out.metadata@[k as int].1@,
                        ));
                        assert(env.deep_view() =~= olde.push(
                            (
                                dep_var_name(pairsv[i as int].0, rec.metadata[k as int].0),
                                rec.metadata[k as int].1,
                            ),
                        ));
                        assert(dep_vars_of(pairsv[i as int].0, rec).take(k + 1) =~= dep_vars_of(
                            pairsv[i as int].0,
                            rec,
                        ).take(k as int).push(
                            (
                                dep_var_name(pairsv[i as int].0, rec.metadata[k as int].0),
                                rec.metadata[k as int].1,
                            ),
                        ));
                        assert(env.deep_view() =~= dep_env_spec(m, pairsv.take(i as int)).add(
                            dep_vars_of(pairsv[i as int].0, rec).take(k + 1),
                        ));
                    }
                    k = k + 1;
                }
                proof {
                    assert(dep_vars_of(pairsv[i as int].0, rec).take(rec.metadata.len() as int)
                        =~= dep_vars_of(pairsv[i as int].0, rec));
                    assert(env.deep_view() =~= dep_env_spec(m, pairsv.take(i + 1)));
                }
            },
        }
        i = i + 1;
    }
    proof {
        assert(pairsv.take(pairsv.len() as int) =~= pairsv);
    }
    Ok(env)
}

/// Parses a captured output text and records it in the registry under the
/// requirement's role slots. Both the just-run and the replayed-from-cache
/// paths go through this one function, so a cached text leaves the registry
/// exactly as the run that produced the text did.
pub fn record_output(
    state: &mut BuildState,
    id: u64,
    req: Platform,
    text: &str,
    pkg_name: &str,
) -> (r: Result<(), BuildScriptError>)
    ensures
        match r {
            Ok(_) => match parse_output_spec(text@) {
                ParseStep::Complete(rec) => (
                    final(state).role_map(Kind::Host),
                    final(state).role_map(Kind::Target),
                ) == roles_after_insert(
                    old(state).role_map(Kind::Host),
                    old(state).role_map(Kind::Target),
                    id,
                    req,
                    rec,
                ),
                _ => false,
            },
            Err(e) => {
                &&& final(state).role_map(Kind::Host) == old(state).role_map(Kind::Host)
                &&& final(state).role_map(Kind::Target) == old(state).role_map(Kind::Target)
                &&& match e {
                    BuildScriptError::MalformedLine { script, line } => parse_output_spec(text@)
                        == ParseStep::Malformed(line@) && script@ == crate::output::whence_spec(
                        pkg_name@,
                    ),
                    BuildScriptError::DisallowedFlag { script, value } => parse_output_spec(text@)
                        == ParseStep::Disallowed(value@) && script@ == crate::output::whence_spec(
                        pkg_name@,
                    ),
                    BuildScriptError::MissingFlagValue { script, value } => parse_output_spec(
                        text@,
                    ) == ParseStep::MissingValue(value@) && script@ == crate::output::whence_spec(
                        pkg_name@,
                    ),
                    BuildScriptError::MissingDependencyOutput { .. } => false,
                }
            },
        },
{
    match BuildOutput::parse(text, pkg_name) {
        Ok(out) => {
            state.insert(id, req, out);
            Ok(())
        },
        Err(e) => Err(e),
    }
}

} // verus!
