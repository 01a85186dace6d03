//! The output registry: the shared mapping from (package, platform role) to
//! the most recently recorded build-script output. It is seeded from
//! user-supplied overrides, keyed through each package's declared links name,
//! and thereafter updated by `insert`, last write wins.

use vstd::prelude::*;

use std::collections::HashMap;

use crate::output::{BuildOutput, RecordModel};
use crate::text::str_eq;
use crate::{Kind, Platform};

verus! {

broadcast use vstd::std_specs::hash::group_hash_axioms;

/// What the registry needs to know of one package: its identity and the
/// links name its manifest declares, if any.
pub struct PackageDesc {
    pub id: u64,
    pub links: Option<String>,
}

/// The user-supplied overrides: for either role, a pre-built output record
/// per links name. An override whose links name no package declares is
/// silently dropped.
pub struct BuildConfig {
    pub host_overrides: Vec<(String, BuildOutput)>,
    pub target_overrides: Vec<(String, BuildOutput)>,
}

/// The mapping from each declared links name to the package that declares
/// it; a name declared twice resolves to the later package.
pub open spec fn links_index(pkgs: Seq<PackageDesc>) -> Map<Seq<char>, u64>
    decreases pkgs.len(),
{
    if pkgs.len() == 0 {
        Map::empty()
    } else {
        let m = links_index(pkgs.drop_last());
        match pkgs.last().links {
            Some(l) => m.insert(l@, pkgs.last().id),
            None => m,
        }
    }
}

/// The role slots an override list seeds, resolved through `idx`; a later
/// override for the same package wins.
pub open spec fn seeded(
    idx: Map<Seq<char>, u64>,
    ovr: Seq<(String, BuildOutput)>,
) -> Map<u64, RecordModel>
    decreases ovr.len(),
{
    if ovr.len() == 0 {
        Map::empty()
    } else {
        let m = seeded(idx, ovr.drop_last());
        let name = ovr.last().0;
        if idx.contains_key(name@) {
            m.insert(idx[name@], ovr.last().1@)
        } else {
            m
        }
    }
}

/// Both role maps after one `insert` call.
pub open spec fn roles_after_insert(
    host: Map<u64, RecordModel>,
    target: Map<u64, RecordModel>,
    id: u64,
    req: Platform,
    rec: RecordModel,
) -> (Map<u64, RecordModel>, Map<u64, RecordModel>) {
    match req {
        Platform::Target => (host, target.insert(id, rec)),
        Platform::Plugin => (host.insert(id, rec), target),
        Platform::PluginAndTarget => (host.insert(id, rec), target.insert(id, rec)),
    }
}

/// The registry of build-script outputs, one slot per (package, role).
pub struct BuildState {
    host: HashMap<u64, BuildOutput>,
    target: HashMap<u64, BuildOutput>,
}

impl BuildState {
    /// The recorded outputs of one role, as a map to record models.
    pub closed spec fn role_map(&self, kind: Kind) -> Map<u64, RecordModel> {
        match kind {
            Kind::Host => self.host@.map_values(|o: BuildOutput| o@),
            Kind::Target => self.target@.map_values(|o: BuildOutput| o@),
        }
    }

    /// Builds the links-name lookup from every package's declaration, then
    /// seeds a slot for every override whose links name resolves to a known
    /// package.
    pub fn new(config: &BuildConfig, packages: &Vec<PackageDesc>) -> (r: BuildState)
        ensures
            r.role_map(Kind::Host) == seeded(links_index(packages@), config.host_overrides@),
            r.role_map(Kind::Target) == seeded(links_index(packages@), config.target_overrides@),
    {
        let host = seed_role(&config.host_overrides, packages);
        let target = seed_role(&config.target_overrides, packages);
        BuildState { host, target }
    }

    /// Writes `output` into the slot of each role the requirement covers,
    /// as independently stored copies, fully replacing prior content there
    /// and leaving the other role's slot untouched.
    pub fn insert(&mut self, id: u64, req: Platform, output: BuildOutput)
        ensures
            (final(self).role_map(Kind::Host), final(self).role_map(Kind::Target))
                == roles_after_insert(
                old(self).role_map(Kind::Host),
                old(self).role_map(Kind::Target),
                id,
                req,
                output@,
            ),
    {
        match req {
            Platform::Target => {
                let ghost oldm = self.target@.map_values(|o: BuildOutput| o@);
                let ghost outv = output@;
                self.target.insert(id, output);
                proof {
                    assert(self.target@.map_values(|o: BuildOutput| o@) =~= oldm.insert(id, outv));
                }
            },
            Platform::Plugin => {
                let ghost oldm = self.host@.map_values(|o: BuildOutput| o@);
                let ghost outv = output@;
                self.host.insert(id, output);
                proof {
                    assert(self.host@.map_values(|o: BuildOutput| o@) =~= oldm.insert(id, outv));
                }
            },
            Platform::PluginAndTarget => {
                let ghost oldh = self.host@.map_values(|o: BuildOutput| o@);
                let ghost oldt = self.target@.map_values(|o: BuildOutput| o@);
                let ghost outv = output@;
                let copy = output.clone();
                self.host.insert(id, copy);
                self.target.insert(id, output);
                proof {
                    assert(self.host@.map_values(|o: BuildOutput| o@) =~= oldh.insert(id, outv));
                    assert(self.target@.map_values(|o: BuildOutput| o@) =~= oldt.insert(id, outv));
                }
            },
        }
    }

    /// The recorded output of one package under one role, if any.
    pub fn get(&self, id: u64, kind: Kind) -> (r: Option<&BuildOutput>)
        ensures
            match r {
                Some(o) => self.role_map(kind).contains_key(id) && self.role_map(kind)[id] == o@,
                None => !self.role_map(kind).contains_key(id),
            },
    {
        let slot = match kind {
            Kind::Host => self.host.get(&id),
            Kind::Target => self.target.get(&id),
        };
        slot
    }
}

/// The last package declaring `name` as its links name, if any.
fn lookup_links(packages: &Vec<PackageDesc>, name: &str) -> (r: Option<u64>)
    ensures
        match r {
            Some(id) => links_index(packages@).contains_key(name@) && links_index(packages@)[name@]
                == id,
            None => !links_index(packages@).contains_key(name@),
        },
{
    let mut found: Option<u64> = None;
    let mut k: usize = 0;
    while k < packages.len()
        invariant
            k <= packages.len(),
            match found {
                Some(id) => links_index(packages@.take(k as int)).contains_key(name@)
                    && links_index(packages@.take(k as int))[name@] == id,
                None => !links_index(packages@.take(k as int)).contains_key(name@),
            },
        decreases packages.len() - k,
    {
        proof {
            assert(packages@.take(k + 1).drop_last() =~= packages@.take(k as int));
            assert(packages@.take(k + 1).last() == packages@[k as int]);
        }
        match &packages[k].links {
            Some(l) => {
                if str_eq(l.as_str(), name) {
                    found = Some(packages[k].id);
                }
            },
            None => {},
        }
        k = k + 1;
    }
    proof {
        assert(packages@.take(packages@.len() as int) =~= packages@);
    }
    found
}

/// Seeds one role's slots from its override list, in order.
fn seed_role(overrides: &Vec<(String, BuildOutput)>, packages: &Vec<PackageDesc>) -> (r: HashMap<
    u64,
    BuildOutput,
>)
    ensures
        r@.map_values(|o: BuildOutput| o@) == seeded(links_index(packages@), overrides@),
{
    let ghost idx = links_index(packages@);
    let mut m: HashMap<u64, BuildOutput> = HashMap::new();
    proof {
        assert(m@.map_values(|o: BuildOutput| o@) =~= seeded(idx, overrides@.take(0)));
    }
    let mut i: usize = 0;
    while i < overrides.len()
        invariant
            i <= overrides.len(),
            idx == links_index(packages@),
            m@.map_values(|o: BuildOutput| o@) == seeded(idx, overrides@.take(i as int)),
        decreases overrides.len() - i,
    {
        proof {
            assert(overrides@.take(i + 1).drop_last() =~= overrides@.take(i as int));
            assert(overrides@.take(i + 1).last() == overrides@[i as int]);
        }
        match lookup_links(packages, overrides[i].0.as_str()) {
            Some(id) => {
                let ghost oldm = m@.map_values(|o: BuildOutput| o@);
                let out = overrides[i].1.clone();
                let ghost outv = out@;
                m.insert(id, out);
                proof {
                    assert(m@.map_values(|o: BuildOutput| o@) =~= oldm.insert(id, outv));
                }
            },
            None => {},
        }
        i = i + 1;
    }
    proof {
        assert(overrides@.take(overrides@.len() as int) =~= overrides@);
    }
    m
}

/// A dual-role insert stores equal copies in both role slots; a later
/// single-role insert replaces only its own slot and leaves the other
/// slot's earlier copy untouched.
pub proof fn lemma_dual_then_single_keeps_other_slot(
    host: Map<u64, RecordModel>,
    target: Map<u64, RecordModel>,
    id: u64,
    first: RecordModel,
    second: RecordModel,
)
    ensures
        ({
            let (h1, t1) = roles_after_insert(host, target, id, Platform::PluginAndTarget, first);
            let (h2, t2) = roles_after_insert(h1, t1, id, Platform::Target, second);
            h1[id] == first && t1[id] == first && h2[id] == first && t2[id] == second
        }),
{
}

} // verus!
