//! The script-dependency graph builder: for every (compilation unit, platform
//! role), the deduplicated, sorted list of ancestor packages whose build
//! script outputs must be visible to that compilation.
//!
//! The dependency graph arrives as an arena of nodes addressed by index, each
//! node one already-resolved (package, target, profile) unit. The resolver
//! guarantees acyclicity; here that arrives as the well-formedness condition
//! that every dependency edge points to a smaller index, which any topological
//! numbering of an acyclic graph can provide.

use vstd::prelude::*;

use crate::{Kind, Platform};

verus! {

/// One (package, target, profile) unit of the dependency graph.
pub struct GraphNode {
    /// The package this unit belongs to.
    pub pkg: u64,
    /// Whether the unit's target is linkable (a library, not a binary).
    pub linkable: bool,
    /// Whether the owning package has a build script.
    pub has_custom_build: bool,
    /// For which roles consumers require this unit.
    pub requirement: Platform,
    /// Indices of the unit's immediate dependencies, each smaller than the
    /// unit's own index.
    pub deps: Vec<usize>,
}

/// The dependency graph, children-first: an edge may only point to an
/// earlier node.
pub struct Graph {
    pub nodes: Vec<GraphNode>,
}

impl Graph {
    pub open spec fn n(&self) -> int {
        self.nodes@.len() as int
    }

    pub open spec fn node(&self, i: int) -> GraphNode {
        self.nodes@[i]
    }

    pub open spec fn wf(&self) -> bool {
        forall|i: int, j: int|
            0 <= i < self.n() && 0 <= j < self.node(i).deps@.len() ==> (#[trigger] self.node(
                i,
            ).deps@[j] as int) < i
    }
}

/// The role an edge to `d` is followed under when the consumer's role is
/// `kind`: unchanged when `d`'s requirement covers `kind`, flipped otherwise.
pub open spec fn edge_role(g: Graph, d: int, kind: Kind) -> Kind {
    if g.node(d).requirement.spec_includes(kind) {
        kind
    } else {
        kind.spec_flip()
    }
}

/// The visibility list accumulated from the first `j` dependency edges of
/// node `i` under role `kind`: a non-flipped edge to a linkable unit
/// contributes the dependency's own package (when it owns a build script)
/// followed by the dependency's whole visibility list; flipped or
/// non-linkable edges contribute nothing.
pub open spec fn vis_upto(g: Graph, i: int, kind: Kind, j: int) -> Seq<u64>
    decreases i, j,
    when 0 <= i && 0 <= j
{
    if j <= 0 {
        Seq::empty()
    } else {
        let prior = vis_upto(g, i, kind, j - 1);
        let d = g.node(i).deps@[j - 1] as int;
        if 0 <= d < i && g.node(d).requirement.spec_includes(kind) && g.node(d).linkable {
            let own: Seq<u64> = if g.node(d).has_custom_build {
                seq![g.node(d).pkg]
            } else {
                Seq::empty()
            };
            prior.add(own.add(visibility(g, d, kind)))
        } else {
            prior
        }
    }
}

/// The raw (unsorted, undeduplicated) visibility list of node `i` under
/// role `kind`.
pub open spec fn visibility(g: Graph, i: int, kind: Kind) -> Seq<u64>
    decreases i, g.node(i).deps@.len() + 1,
    when 0 <= i
{
    vis_upto(g, i, kind, g.node(i).deps@.len() as int)
}

/// The (node, role) pairs the first `j` edges of node `i` lead the traversal
/// into, each under its (possibly flipped) role.
pub open spec fn visited_upto(g: Graph, i: int, kind: Kind, j: int) -> Set<(int, Kind)>
    decreases i, j,
    when 0 <= i && 0 <= j
{
    if j <= 0 {
        Set::empty()
    } else {
        let prev = visited_upto(g, i, kind, j - 1);
        let d = g.node(i).deps@[j - 1] as int;
        if 0 <= d < i {
            prev.union(visited(g, d, edge_role(g, d, kind)))
        } else {
            prev
        }
    }
}

/// All (node, role) pairs the traversal from `(i, kind)` computes an entry
/// for, the start itself included.
pub open spec fn visited(g: Graph, i: int, kind: Kind) -> Set<(int, Kind)>
    decreases i, g.node(i).deps@.len() + 1,
    when 0 <= i
{
    visited_upto(g, i, kind, g.node(i).deps@.len() as int).insert((i, kind))
}

/// All pairs visited from the initial units, each under both roles.
pub open spec fn visited_all(g: Graph, roots: Seq<usize>) -> Set<(int, Kind)>
    decreases roots.len(),
{
    if roots.len() == 0 {
        Set::empty()
    } else {
        visited_all(g, roots.drop_last()).union(
            visited(g, roots.last() as int, Kind::Target),
        ).union(visited(g, roots.last() as int, Kind::Host))
    }
}

/// The slot a role occupies inside one node's pair of entries.
pub open spec fn role_slot(kind: Kind) -> int {
    match kind {
        Kind::Host => 0,
        Kind::Target => 1,
    }
}

/// The entry for `(i, kind)` in a memo model.
pub open spec fn entry_of(m: Seq<Option<Seq<u64>>>, i: int, kind: Kind) -> Option<Seq<u64>> {
    m[2 * i + role_slot(kind)]
}

pub open spec fn has_entry(m: Seq<Option<Seq<u64>>>, i: int, kind: Kind) -> bool {
    0 <= i && 2 * i + role_slot(kind) < m.len() && entry_of(m, i, kind) is Some
}

/// The set of pairs a memo model holds entries for.
pub open spec fn entry_dom(m: Seq<Option<Seq<u64>>>) -> Set<(int, Kind)> {
    Set::new(|p: (int, Kind)| has_entry(m, p.0, p.1))
}

/// The memo invariant: right length, every present entry holds exactly the
/// raw visibility list of its pair, and the traversal below any present
/// entry is itself fully present.
pub open spec fn memo_ok(g: Graph, m: Seq<Option<Seq<u64>>>) -> bool {
    &&& m.len() == 2 * g.n()
    &&& forall|i: int, kind: Kind|
        0 <= i < g.n() && #[trigger] has_entry(m, i, kind) ==> entry_of(m, i, kind) == Some(
            visibility(g, i, kind),
        )
    &&& forall|i: int, kind: Kind|
        0 <= i < g.n() && #[trigger] has_entry(m, i, kind) ==> visited(g, i, kind).subset_of(
            entry_dom(m),
        )
}

/// `x` inserted into an ascending duplicate-free sequence, kept ascending
/// and duplicate-free.
pub open spec fn insert_sorted(x: u64, s: Seq<u64>) -> Seq<u64>
    decreases s.len(),
{
    if s.len() == 0 {
        seq![x]
    } else if x < s[0] {
        seq![x].add(s)
    } else if x == s[0] {
        s
    } else {
        seq![s[0]].add(insert_sorted(x, s.drop_first()))
    }
}

/// The ascending, duplicate-free arrangement of a sequence's elements.
pub open spec fn sorted_dedup(s: Seq<u64>) -> Seq<u64>
    decreases s.len(),
{
    if s.len() == 0 {
        Seq::empty()
    } else {
        insert_sorted(s.last(), sorted_dedup(s.drop_last()))
    }
}

/// What `build_map` returns, as a whole: one slot per (node, role), holding
/// the canonical visibility list for every visited pair and nothing for the
/// rest.
pub open spec fn build_map_model(g: Graph, roots: Seq<usize>) -> Seq<Option<Seq<u64>>> {
    Seq::new(
        (2 * g.n()) as nat,
        |x: int|
            {
                let kind = if x % 2 == 0 {
                    Kind::Host
                } else {
                    Kind::Target
                };
                if visited_all(g, roots).contains((x / 2, kind)) {
                    Some(sorted_dedup(visibility(g, x / 2, kind)))
                } else {
                    None
                }
            },
    )
}

/// The computed visibility lists, one optional entry per (node, role).
pub struct VisibilityMap {
    entries: Vec<Option<Vec<u64>>>,
}

impl VisibilityMap {
    pub closed spec fn model(&self) -> Seq<Option<Seq<u64>>> {
        self.entries.deep_view()
    }

    /// The canonical visibility list of one (node, role), if the traversal
    /// reached it.
    pub fn get(&self, node: usize, kind: Kind) -> (r: Option<&Vec<u64>>)
        ensures
            match r {
                Some(v) => has_entry(self.model(), node as int, kind) && entry_of(
                    self.model(),
                    node as int,
                    kind,
                ) == Some(v@),
                None => !has_entry(self.model(), node as int, kind),
            },
    {
        let slot: usize = match kind {
            Kind::Host => 0,
            Kind::Target => 1,
        };
        let len = self.entries.len();
        proof {
            assert(self.model().len() == self.entries@.len());
        }
        if node <= (usize::MAX - slot) / 2 && 2 * node + slot < len {
            proof {
                assert(self.model()[2 * (node as int) + role_slot(kind)] == self.entries@[2 * (
                node as int) + role_slot(kind)].deep_view());
            }
            match &self.entries[2 * node + slot] {
                Some(v) => {
                    proof {
                        assert(v.deep_view() =~= v@);
                    }
                    Some(v)
                },
                None => None,
            }
        } else {
            proof {
                assert(2 * (node as int) + role_slot(kind) >= self.model().len());
            }
            None
        }
    }
}

fn role_index(kind: Kind) -> (r: usize)
    ensures
        r as int == role_slot(kind),
{
    match kind {
        Kind::Host => 0,
        Kind::Target => 1,
    }
}

/// The recursive, memoizing traversal of one (node, role) pair.
fn visit(g: &Graph, memo: &mut Vec<Option<Vec<u64>>>, node: usize, kind: Kind)
    requires
        g.wf(),
        (node as int) < g.n(),
        memo_ok(*g, old(memo).deep_view()),
    ensures
        memo_ok(*g, final(memo).deep_view()),
        has_entry(final(memo).deep_view(), node as int, kind),
        entry_dom(final(memo).deep_view()) == entry_dom(old(memo).deep_view()).union(
            visited(*g, node as int, kind),
        ),
    decreases node,
{
    let slot = role_index(kind);
    let m_len = memo.len();
    proof {
        assert(memo.deep_view().len() == memo@.len());
        assert(2 * (node as int) + (slot as int) < m_len as int);
    }
    let idx = 2 * node + slot;
    if memo[idx].is_some() {
        proof {
            assert(has_entry(memo.deep_view(), node as int, kind));
            assert(visited(*g, node as int, kind).subset_of(entry_dom(memo.deep_view())));
            assert(entry_dom(memo.deep_view()).union(visited(*g, node as int, kind))
                =~= entry_dom(memo.deep_view()));
        }
        return ;
    }
    let deps_len = g.nodes[node].deps.len();
    let mut ret: Vec<u64> = Vec::new();
    let mut j: usize = 0;
    while j < deps_len
        invariant
            j <= deps_len,
            g.wf(),
            (node as int) < g.n(),
            deps_len == g.node(node as int).deps@.len(),
            memo_ok(*g, memo.deep_view()),
            ret@ == vis_upto(*g, node as int, kind, j as int),
            entry_dom(memo.deep_view()) == entry_dom(old(memo).deep_view()).union(
                visited_upto(*g, node as int, kind, j as int),
            ),
        decreases deps_len - j,
    {
        let d = g.nodes[node].deps[j];
        proof {
            assert((d as int) < (node as int));
        }
        let req = g.nodes[d].requirement;
        let drole = if req.includes(kind) {
            kind
        } else {
            kind.flip()
        };
        proof {
            assert(drole == edge_role(*g, d as int, kind));
        }
        visit(g, memo, d, drole);
        proof {
            assert(entry_dom(memo.deep_view()) =~= entry_dom(old(memo).deep_view()).union(
                visited_upto(*g, node as int, kind, j + 1),
            ));
        }
        if g.nodes[d].linkable && drole == kind {
            proof {
                assert(g.node(d as int).requirement.spec_includes(kind));
            }
            if g.nodes[d].has_custom_build {
                ret.push(g.nodes[d].pkg);
            }
            let dslot = role_index(drole);
            let dm_len = memo.len();
            proof {
                assert(has_entry(memo.deep_view(), d as int, drole));
                assert(memo.deep_view().len() == memo@.len());
                assert(2 * (d as int) + (dslot as int) < dm_len as int);
            }
            let didx = 2 * d + dslot;
            let ghost base = ret@;
            match &memo[didx] {
                Some(sub) => {
                    proof {
                        assert(memo.deep_view()[didx as int] == memo@[didx as int].deep_view());
                        assert(sub.deep_view() == visibility(*g, d as int, kind));
                        assert(sub.deep_view() =~= sub@);
                    }
                    let mut t: usize = 0;
                    while t < sub.len()
                        invariant
                            t <= sub.len(),
                            ret@ == base.add(sub@.take(t as int)),
                        decreases sub.len() - t,
                    {
                        ret.push(sub[t]);
                        proof {
                            assert(ret@ =~= base.add(sub@.take(t + 1)));
                        }
                        t = t + 1;
                    }
                    proof {
                        assert(sub@.take(sub@.len() as int) =~= sub@);
                        assert(ret@ =~= base.add(sub@));
                    }
                },
                None => {
                    proof {
                        assert(false);
                    }
                },
            }
            proof {
                assert(ret@ =~= vis_upto(*g, node as int, kind, j + 1));
            }
        } else {
            proof {
                if drole == kind {
                    assert(ret@ =~= vis_upto(*g, node as int, kind, j + 1));
                } else {
                    assert(!g.node(d as int).requirement.spec_includes(kind));
                    assert(ret@ =~= vis_upto(*g, node as int, kind, j + 1));
                }
            }
        }
        j = j + 1;
    }
    let ghost predom = entry_dom(memo.deep_view());
    let ghost prememo = memo.deep_view();
    let ghost retv = ret@;
    proof {
        assert(ret.deep_view() =~= ret@);
    }
    memo.set(idx, Some(ret));
    proof {
        assert(memo.deep_view() =~= prememo.update(idx as int, Some(retv)));
        assert(entry_dom(memo.deep_view()) =~= predom.insert((node as int, kind)));
        assert(visibility(*g, node as int, kind) == vis_upto(
            *g,
            node as int,
            kind,
            g.node(node as int).deps@.len() as int,
        ));
        assert(entry_of(memo.deep_view(), node as int, kind) == Some(
            visibility(*g, node as int, kind),
        ));
        assert forall|i: int, k: Kind|
            0 <= i < g.n() && #[trigger] has_entry(memo.deep_view(), i, k) implies entry_of(
            memo.deep_view(),
            i,
            k,
        ) == Some(visibility(*g, i, k)) && visited(*g, i, k).subset_of(
            entry_dom(memo.deep_view()),
        ) by {
            if i == node as int && k == kind {
                assert(visited_upto(*g, node as int, kind, g.node(node as int).deps@.len() as int)
                    .subset_of(predom));
            } else {
                assert(has_entry(prememo, i, k));
            }
        }
        assert(entry_dom(memo.deep_view()) =~= entry_dom(old(memo).deep_view()).union(
            visited(*g, node as int, kind),
        ));
    }
}

/// Computes, for every initial unit and both roles, the sorted,
/// deduplicated visibility list of every (node, role) pair the traversal
/// reaches. Two runs over the same graph and units yield identical maps.
pub fn build_map(g: &Graph, roots: &Vec<usize>) -> (r: VisibilityMap)
    requires
        g.wf(),
        forall|k: int| 0 <= k < roots@.len() ==> (#[trigger] roots@[k] as int) < g.n(),
        2 * g.n() <= usize::MAX,
    ensures
        r.model() == build_map_model(*g, roots@),
{
    let n = g.nodes.len();
    let mut memo: Vec<Option<Vec<u64>>> = Vec::new();
    let mut z: usize = 0;
    while z < 2 * n
        invariant
            z <= 2 * n,
            2 * (n as int) <= usize::MAX,
            memo.deep_view().len() == z,
            forall|x: int| 0 <= x < z ==> memo.deep_view()[x] is None,
        decreases 2 * n - z,
    {
        let ghost olddv = memo.deep_view();
        memo.push(None);
        proof {
            assert(memo.deep_view() =~= olddv.push(None));
        }
        z = z + 1;
    }
    proof {
        assert(forall|i: int, k: Kind| !has_entry(memo.deep_view(), i, k));
        assert(entry_dom(memo.deep_view()) =~= Set::<(int, Kind)>::empty());
        assert(entry_dom(memo.deep_view()) =~= visited_all(*g, roots@.take(0)));
        assert(memo_ok(*g, memo.deep_view()));
    }
    let mut r: usize = 0;
    while r < roots.len()
        invariant
            r <= roots.len(),
            g.wf(),
            forall|k: int| 0 <= k < roots@.len() ==> (#[trigger] roots@[k] as int) < g.n(),
            memo_ok(*g, memo.deep_view()),
            entry_dom(memo.deep_view()) == visited_all(*g, roots@.take(r as int)),
        decreases roots.len() - r,
    {
        let root = roots[r];
        visit(g, &mut memo, root, Kind::Target);
        visit(g, &mut memo, root, Kind::Host);
        proof {
            assert(roots@.take(r + 1).drop_last() =~= roots@.take(r as int));
            assert(roots@.take(r + 1).last() == roots@[r as int]);
            assert(entry_dom(memo.deep_view()) =~= visited_all(*g, roots@.take(r + 1)));
        }
        r = r + 1;
    }
    proof {
        assert(roots@.take(roots@.len() as int) =~= roots@);
    }

    // Canonicalize every stored list: deduplicate and sort.
    let mut entries: Vec<Option<Vec<u64>>> = Vec::new();
    let mut x: usize = 0;
    let total = memo.len();
    proof {
        assert(total == 2 * g.n());
    }
    while x < total
        invariant
            x <= total,
            total == memo.deep_view().len(),
            total == 2 * g.n(),
            memo_ok(*g, memo.deep_view()),
            entry_dom(memo.deep_view()) == visited_all(*g, roots@),
            entries.deep_view().len() == x,
            forall|y: int|
                0 <= y < x ==> entries.deep_view()[y] == build_map_model(*g, roots@)[y],
        decreases total - x,
    {
        let ghost kind = if x % 2 == 0 {
            Kind::Host
        } else {
            Kind::Target
        };
        let ghost oldent = entries.deep_view();
        proof {
            assert(2 * ((x as int) / 2) + role_slot(kind) == x as int);
        }
        match &memo[x] {
            Some(v) => {
                let sorted = sorted_dedup_vec(v);
                proof {
                    assert(sorted.deep_view() =~= sorted@);
                    assert(memo.deep_view()[x as int] == memo@[x as int].deep_view());
                    assert(v.deep_view() =~= v@);
                    assert(has_entry(memo.deep_view(), (x as int) / 2, kind));
                    assert(v@ == visibility(*g, (x as int) / 2, kind));
                }
                let ghost sortedv = sorted@;
                entries.push(Some(sorted));
                proof {
                    assert(entries.deep_view() =~= oldent.push(Some(sortedv)));
                    assert(entry_dom(memo.deep_view()).contains((((x as int) / 2), kind)));
                    assert(entries.deep_view()[x as int] == Some(
                        sorted_dedup(visibility(*g, (x as int) / 2, kind)),
                    ));
                }
            },
            None => {
                entries.push(None);
                proof {
                    assert(entries.deep_view() =~= oldent.push(None));
                    assert(memo.deep_view()[x as int] == memo@[x as int].deep_view());
                    assert(!has_entry(memo.deep_view(), (x as int) / 2, kind));
                    assert(!entry_dom(memo.deep_view()).contains((((x as int) / 2), kind)));
                    assert(entries.deep_view()[x as int] is None);
                }
            },
        }
        proof {
            assert(forall|y: int|
                0 <= y < x + 1 ==> entries.deep_view()[y] == build_map_model(*g, roots@)[y]);
        }
        x = x + 1;
    }
    let result = VisibilityMap { entries };
    proof {
        assert(result.model() =~= build_map_model(*g, roots@));
    }
    result
}

/// Copies the suffix of `v` starting at `from`.
fn copy_suffix(v: &Vec<u64>, from: usize) -> (r: Vec<u64>)
    requires
        from <= v.len(),
    ensures
        r@ == v@.skip(from as int),
{
    let mut r: Vec<u64> = Vec::new();
    let mut t = from;
    while t < v.len()
        invariant
            from <= t <= v@.len(),
            r@ == v@.subrange(from as int, t as int),
        decreases v.len() - t,
    {
        r.push(v[t]);
        proof {
            assert(r@ =~= v@.subrange(from as int, t + 1));
        }
        t = t + 1;
    }
    proof {
        assert(v@.subrange(from as int, v@.len() as int) =~= v@.skip(from as int));
    }
    r
}

/// Inserts `x` into the ascending suffix of `v` starting at `from`.
fn insert_sorted_vec(x: u64, v: &Vec<u64>, from: usize) -> (r: Vec<u64>)
    requires
        from <= v.len(),
    ensures
        r@ == insert_sorted(x, v@.skip(from as int)),
    decreases v.len() - from,
{
    let ghost s = v@.skip(from as int);
    if from == v.len() {
        let mut r: Vec<u64> = Vec::new();
        r.push(x);
        proof {
            assert(s.len() == 0);
            assert(r@ =~= seq![x]);
        }
        r
    } else {
        proof {
            assert(s[0] == v@[from as int]);
            assert(s.drop_first() =~= v@.skip(from + 1));
        }
        let h = v[from];
        if x < h {
            let mut r: Vec<u64> = Vec::new();
            r.push(x);
            let mut tail = copy_suffix(v, from);
            r.append(&mut tail);
            proof {
                assert(r@ =~= seq![x].add(s));
            }
            r
        } else if x == h {
            let r = copy_suffix(v, from);
            r
        } else {
            let mut rest = insert_sorted_vec(x, v, from + 1);
            rest.insert(0, h);
            proof {
                assert(rest@ =~= seq![h].add(insert_sorted(x, v@.skip(from + 1))));
            }
            rest
        }
    }
}

/// The canonical (ascending, duplicate-free) arrangement of `v`'s elements.
fn sorted_dedup_vec(v: &Vec<u64>) -> (r: Vec<u64>)
    ensures
        r@ == sorted_dedup(v@),
{
    let mut acc: Vec<u64> = Vec::new();
    let mut i: usize = 0;
    proof {
        assert(acc@ =~= sorted_dedup(v@.take(0)));
    }
    while i < v.len()
        invariant
            i <= v.len(),
            acc@ == sorted_dedup(v@.take(i as int)),
        decreases v.len() - i,
    {
        proof {
            assert(v@.take(i + 1).drop_last() =~= v@.take(i as int));
            assert(v@.take(i + 1).last() == v@[i as int]);
        }
        let next = insert_sorted_vec(v[i], &acc, 0);
        proof {
            assert(acc@.skip(0) =~= acc@);
        }
        acc = next;
        i = i + 1;
    }
    proof {
        assert(v@.take(v@.len() as int) =~= v@);
    }
    acc
}

/// Two computations over the same graph and the same initial units produce
/// identical visibility maps: the result is a function of its inputs alone.
pub proof fn lemma_build_map_deterministic(
    g: Graph,
    roots: Seq<usize>,
    m1: Seq<Option<Seq<u64>>>,
    m2: Seq<Option<Seq<u64>>>,
)
    requires
        m1 == build_map_model(g, roots),
        m2 == build_map_model(g, roots),
    ensures
        m1 == m2,
{
}

/// An edge whose requirement does not cover the consumer's role is followed
/// under the flipped role and contributes nothing to the consumer's own
/// visibility list.
pub proof fn lemma_flipped_edge_invisible(g: Graph, i: int, kind: Kind, j: int)
    requires
        0 <= i,
        0 <= j < g.node(i).deps@.len(),
        !g.node(g.node(i).deps@[j] as int).requirement.spec_includes(kind),
    ensures
        edge_role(g, g.node(i).deps@[j] as int, kind) == kind.spec_flip(),
        vis_upto(g, i, kind, j + 1) == vis_upto(g, i, kind, j),
{
}

/// Membership in the accumulated list only grows with the number of edges
/// taken in.
proof fn lemma_vis_upto_monotone(g: Graph, i: int, kind: Kind, j1: int, j2: int, x: u64)
    requires
        0 <= i,
        0 <= j1 <= j2,
        vis_upto(g, i, kind, j1).contains(x),
    ensures
        vis_upto(g, i, kind, j2).contains(x),
    decreases j2 - j1,
{
    if j2 > j1 {
        lemma_vis_upto_monotone(g, i, kind, j1, j2 - 1, x);
        let prior = vis_upto(g, i, kind, j2 - 1);
        let k = choose|k: int| 0 <= k < prior.len() && prior[k] == x;
        assert(vis_upto(g, i, kind, j2).len() >= prior.len());
        assert(vis_upto(g, i, kind, j2)[k] == x);
    }
}

/// A linkable dependency that owns a build script and is required for the
/// consumer's own role appears in the consumer's visibility list.
pub proof fn lemma_included_script_visible(g: Graph, i: int, kind: Kind, j: int)
    requires
        g.wf(),
        0 <= i < g.n(),
        0 <= j < g.node(i).deps@.len(),
        ({
            let d = g.node(i).deps@[j] as int;
            &&& g.node(d).requirement.spec_includes(kind)
            &&& g.node(d).linkable
            &&& g.node(d).has_custom_build
        }),
    ensures
        visibility(g, i, kind).contains(g.node(g.node(i).deps@[j] as int).pkg),
{
    let d = g.node(i).deps@[j] as int;
    let prior = vis_upto(g, i, kind, j);
    assert(vis_upto(g, i, kind, j + 1)[prior.len() as int] == g.node(d).pkg);
    assert(vis_upto(g, i, kind, j + 1).contains(g.node(d).pkg));
    lemma_vis_upto_monotone(g, i, kind, j + 1, g.node(i).deps@.len() as int, g.node(d).pkg);
}

} // verus!
