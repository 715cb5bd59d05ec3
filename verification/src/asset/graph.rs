//! [`DependencyGraph`]: a directed graph of asset-to-asset dependencies, used
//! to cascade releases (releasing a composite releases what it references)
//! and to answer "what depends on this?".
//!
//! The graph is kept twice, forwards (parent to the children it depends on)
//! and backwards (child to the parents that depend on it); the two always
//! describe the same set of edges.

use std::collections::{HashMap, HashSet};
use vstd::prelude::*;
use vstd::std_specs::hash::spec_hash_keys_iter;
use vstd::std_specs::iter::IteratorSpec;

use super::AssetId;

verus! {

broadcast use vstd::std_specs::hash::group_hash_axioms;

/// The raw ids of a sequence of asset ids.
pub open spec fn ids(s: Seq<AssetId>) -> Seq<u64> {
    s.map_values(|a: AssetId| a.0)
}

/// The children of `p`: what `p` depends on directly.
pub open spec fn children(edges: Set<(u64, u64)>, p: u64) -> Set<u64> {
    Set::new(|c: u64| edges.contains((p, c)))
}

/// The parents of `c`: what depends on `c` directly.
pub open spec fn parents(edges: Set<(u64, u64)>, c: u64) -> Set<u64> {
    Set::new(|p: u64| edges.contains((p, c)))
}

/// `path` follows edges from its first node to its last.
pub open spec fn is_path(edges: Set<(u64, u64)>, path: Seq<u64>) -> bool {
    forall|i: int| 0 <= i < path.len() - 1 ==> #[trigger] edges.contains((path[i], path[i + 1]))
}

/// `to` can be reached from `from` along one edge or more.
pub open spec fn reachable(edges: Set<(u64, u64)>, from: u64, to: u64) -> bool {
    exists|path: Seq<u64>|
        #![trigger is_path(edges, path), path.last()]
        path.len() >= 2 && path[0] == from && path.last() == to && is_path(edges, path)
}

/// The edges that a parent-to-children map describes.
pub open spec fn edges_of(m: Map<u64, HashSet<u64>>) -> Set<(u64, u64)> {
    Set::new(|e: (u64, u64)| m.contains_key(e.0) && m[e.0]@.contains(e.1))
}

/// The edges that a child-to-parents map describes, turned parent first.
pub open spec fn edges_back(m: Map<u64, HashSet<u64>>) -> Set<(u64, u64)> {
    Set::new(|e: (u64, u64)| m.contains_key(e.1) && m[e.1]@.contains(e.0))
}

/// One edge is a path.
proof fn lemma_reach_edge(e: Set<(u64, u64)>, from: u64, c: u64)
    requires
        e.contains((from, c)),
    ensures
        reachable(e, from, c),
{
    let path = seq![from, c];
    assert(is_path(e, path));
    assert(path.last() == c);
}

/// A path extends along an edge.
proof fn lemma_reach_step(e: Set<(u64, u64)>, from: u64, n: u64, c: u64)
    requires
        reachable(e, from, n),
        e.contains((n, c)),
    ensures
        reachable(e, from, c),
{
    let path = choose|path: Seq<u64>|
        #![trigger is_path(e, path), path.last()]
        path.len() >= 2 && path[0] == from && path.last() == n && is_path(e, path);
    let longer = path.push(c);
    assert forall|i: int| 0 <= i < longer.len() - 1 implies #[trigger] e.contains(
        (longer[i], longer[i + 1]),
    ) by {
        if i < path.len() - 1 {
            assert(longer[i] == path[i] && longer[i + 1] == path[i + 1]);
            assert(e.contains((path[i], path[i + 1])));
        } else {
            assert(longer[i] == n && longer[i + 1] == c);
        }
    }
    assert(is_path(e, longer));
    assert(longer.last() == c);
}

/// Every node past the start of a path from `from` lies in a set that holds
/// the children of `from` and is closed under taking children.
proof fn lemma_path_in_closed(e: Set<(u64, u64)>, from: u64, out: Set<u64>, path: Seq<u64>, k: int)
    requires
        forall|c: u64| #[trigger] e.contains((from, c)) ==> out.contains(c),
        forall|m: u64, c: u64| out.contains(m) && #[trigger] e.contains((m, c)) ==> out.contains(c),
        path.len() >= 2,
        path[0] == from,
        is_path(e, path),
        1 <= k < path.len(),
    ensures
        out.contains(path[k]),
    decreases k,
{
    let i = k - 1;
    assert(e.contains((path[i], path[i + 1])));
    if k > 1 {
        lemma_path_in_closed(e, from, out, path, k - 1);
    }
}

/// A directed dependency graph between assets.
pub struct DependencyGraph {
    /// parent -> children it depends on.
    deps: HashMap<u64, HashSet<u64>>,
    /// child -> parents that depend on it.
    dependents: HashMap<u64, HashSet<u64>>,
}

/// The raw ids of a set, as asset ids, each once.
fn set_ids(s: &HashSet<u64>) -> (r: Vec<AssetId>)
    ensures
        ids(r@).to_set() == s@,
        ids(r@).no_duplicates(),
{
    let ghost items = spec_hash_keys_iter(s).remaining();
    let mut out: Vec<AssetId> = Vec::new();
    for x in it: s.iter()
        invariant
            it.seq() == items,
            out.len() == it.index(),
            forall|i: int| 0 <= i < out.len() ==> out@[i].0 == *items[i],
        ensures
            out.len() == items.len(),
    {
        out.push(AssetId(*x));
    }
    proof {
        assert(ids(out@) =~= items.unref());
    }
    out
}

/// Take `x` out of the set under each key of `keys` that `m` holds.
fn strip_from_sets(m: &mut HashMap<u64, HashSet<u64>>, keys: &HashSet<u64>, x: u64)
    ensures
        final(m)@.dom() == old(m)@.dom(),
        forall|k: u64| #[trigger]
            final(m)@.contains_key(k) ==> final(m)@[k]@ == (if keys@.contains(k) {
                old(m)@[k]@.remove(x)
            } else {
                old(m)@[k]@
            }),
{
    let ghost m0 = m@;
    let ghost items = spec_hash_keys_iter(keys).remaining();
    for k in it: keys.iter()
        invariant
            it.seq() == items,
            items.unref().to_set() == keys@,
            m@.dom() == m0.dom(),
            forall|j: u64| #[trigger]
                m@.contains_key(j) ==> m@[j]@ == (if items.unref().take(it.index() as int).contains(
                    j,
                ) {
                    m0[j]@.remove(x)
                } else {
                    m0[j]@
                }),
        ensures
            it.index() == items.len(),
    {
        let ghost before = m@;
        let ghost done = items.unref().take(it.index() as int);
        let ghost next = items.unref().take(it.index() + 1);
        proof {
            assert(next =~= done.push(*k));
            assert forall|j: u64| next.contains(j) <==> done.contains(j) || j == *k by {
                if next.contains(j) {
                    let w = choose|w: int| 0 <= w < next.len() && next[w] == j;
                    if w < done.len() {
                        assert(done[w] == j);
                    }
                }
                if done.contains(j) {
                    let w = choose|w: int| 0 <= w < done.len() && done[w] == j;
                    assert(next[w] == j);
                }
                if j == *k {
                    assert(next[next.len() - 1] == j);
                }
            }
        }
        match m.remove(k) {
            Some(mut set) => {
                set.remove(&x);
                m.insert(*k, set);
                proof {
                    assert(m@.dom() =~= m0.dom());
                }
            },
            None => {},
        }
    }
    proof {
        assert(items.unref().take(items.len() as int) =~= items.unref());
        assert forall|j: u64| items.unref().contains(j) <==> #[trigger] keys@.contains(j) by {
            assert(items.unref().to_set().contains(j) <==> items.unref().contains(j));
        }
    }
}

impl DependencyGraph {
    /// The dependency edges, parent first.
    pub closed spec fn edges(&self) -> Set<(u64, u64)> {
        edges_of(self.deps@)
    }

    /// The graph's invariant: the backward map describes the same edges.
    pub closed spec fn wf(&self) -> bool {
        edges_of(self.deps@) == edges_back(self.dependents@)
    }

    pub fn new() -> (r: Self)
        ensures
            r.wf(),
            r.edges() == Set::<(u64, u64)>::empty(),
    {
        let r = DependencyGraph { deps: HashMap::new(), dependents: HashMap::new() };
        assert(edges_of(r.deps@) =~= Set::<(u64, u64)>::empty());
        assert(edges_back(r.dependents@) =~= Set::<(u64, u64)>::empty());
        r
    }

    /// Record that `parent` depends on `child`.
    pub fn add_dependency(&mut self, parent: AssetId, child: AssetId)
        requires
            old(self).wf(),
        ensures
            final(self).wf(),
            final(self).edges() == old(self).edges().insert((parent.0, child.0)),
    {
        let p = parent.0;
        let c = child.0;
        let ghost d0 = self.deps@;
        let ghost b0 = self.dependents@;
        let mut fwd = match self.deps.remove(&p) {
            Some(s) => s,
            None => HashSet::new(),
        };
        fwd.insert(c);
        self.deps.insert(p, fwd);
        let mut back = match self.dependents.remove(&c) {
            Some(s) => s,
            None => HashSet::new(),
        };
        back.insert(p);
        self.dependents.insert(c, back);
        proof {
            assert(edges_of(self.deps@) =~= edges_of(d0).insert((p, c)));
            assert(edges_back(self.dependents@) =~= edges_back(b0).insert((p, c)));
        }
    }

    /// Remove an asset and all edges touching it.
    pub fn remove(&mut self, id: AssetId)
        requires
            old(self).wf(),
        ensures
            final(self).wf(),
            final(self).edges() == old(self).edges().filter(
                |e: (u64, u64)| e.0 != id.0 && e.1 != id.0,
            ),
    {
        let i = id.0;
        let ghost e0 = edges_of(self.deps@);
        let ghost d0 = self.deps@;
        let ghost b0 = self.dependents@;
        match self.deps.remove(&i) {
            Some(kids) => {
                strip_from_sets(&mut self.dependents, &kids, i);
                proof {
                    assert(kids@ == d0[i]@);
                }
            },
            None => {},
        }
        let ghost e1 = e0.filter(|e: (u64, u64)| e.0 != i);
        proof {
            assert(edges_of(self.deps@) =~= e1);
            assert forall|e: (u64, u64)| #[trigger] edges_back(self.dependents@).contains(e) <==> e1.contains(e) by {
                if e1.contains(e) {
                    assert(edges_back(b0).contains(e));
                }
                if edges_back(self.dependents@).contains(e) {
                    assert(b0.contains_key(e.1));
                    if e.0 == i {
                        assert(d0.contains_key(i) && d0[i]@.contains(e.1)) by {
                            assert(edges_back(b0).contains(e));
                        }
                    }
                    assert(edges_back(b0).contains(e));
                }
            }
            assert(edges_back(self.dependents@) =~= e1);
        }
        let ghost d1 = self.deps@;
        let ghost b1 = self.dependents@;
        match self.dependents.remove(&i) {
            Some(folks) => {
                strip_from_sets(&mut self.deps, &folks, i);
                proof {
                    assert(folks@ == b1[i]@);
                }
            },
            None => {},
        }
        let ghost e2 = e0.filter(|e: (u64, u64)| e.0 != i && e.1 != i);
        proof {
            assert(self.dependents@ == b1.remove(i));
            assert forall|e: (u64, u64)| #[trigger] edges_back(self.dependents@).contains(e) <==> e2.contains(e) by {
                if e2.contains(e) {
                    assert(e1.contains(e));
                    assert(edges_back(b1).contains(e));
                }
                if edges_back(self.dependents@).contains(e) {
                    assert(edges_back(b1).contains(e));
                }
            }
            assert(edges_back(self.dependents@) =~= e2);
            assert forall|e: (u64, u64)| #[trigger] edges_of(self.deps@).contains(e) <==> e2.contains(e) by {
                if e2.contains(e) {
                    assert(edges_of(d1).contains(e));
                }
                if edges_of(self.deps@).contains(e) {
                    assert(d1.contains_key(e.0));
                    if e.1 == i {
                        assert(b1.contains_key(i) && b1[i]@.contains(e.0)) by {
                            assert(edges_of(d1).contains(e));
                        }
                    }
                    assert(edges_of(d1).contains(e));
                }
            }
            assert(edges_of(self.deps@) =~= e2);
        }
    }

    /// Direct dependencies of `id`, each once.
    pub fn dependencies(&self, id: AssetId) -> (r: Vec<AssetId>)
        ensures
            ids(r@).to_set() == children(self.edges(), id.0),
            ids(r@).no_duplicates(),
    {
        match self.deps.get(&id.0) {
            Some(s) => {
                let r = set_ids(s);
                assert(ids(r@).to_set() =~= children(self.edges(), id.0));
                r
            },
            None => {
                let r: Vec<AssetId> = Vec::new();
                assert(ids(r@).to_set() =~= children(self.edges(), id.0));
                r
            },
        }
    }

    /// Direct dependents of `id` (what depends on it), each once.
    pub fn dependents(&self, id: AssetId) -> (r: Vec<AssetId>)
        requires
            self.wf(),
        ensures
            ids(r@).to_set() == parents(self.edges(), id.0),
            ids(r@).no_duplicates(),
    {
        match self.dependents.get(&id.0) {
            Some(s) => {
                let r = set_ids(s);
                assert(ids(r@).to_set() =~= parents(edges_back(self.dependents@), id.0));
                r
            },
            None => {
                let r: Vec<AssetId> = Vec::new();
                assert(ids(r@).to_set() =~= parents(edges_back(self.dependents@), id.0));
                r
            },
        }
    }

    /// All transitive dependencies of `id`, each once (depth-first; safe on
    /// cycles).
    pub fn transitive_dependencies(&self, id: AssetId) -> (r: Vec<AssetId>)
        requires
            self.wf(),
        ensures
            ids(r@).no_duplicates(),
            forall|n: u64| ids(r@).contains(n) <==> reachable(self.edges(), id.0, n),
    {
        let ghost e = self.edges();
        let ghost nodes = self.dependents@.dom();
        let mut seen: HashSet<u64> = HashSet::new();
        let mut stack: Vec<AssetId> = self.dependencies(id);
        let mut out: Vec<AssetId> = Vec::new();
        proof {
            assert forall|n: u64| #[trigger] ids(stack@).contains(n) implies reachable(e, id.0, n)
                && nodes.contains(n) by {
                assert(ids(stack@).to_set().contains(n));
                lemma_reach_edge(e, id.0, n);
                assert(edges_back(self.dependents@).contains((id.0, n)));
            }
            assert forall|c: u64| #[trigger] e.contains((id.0, c)) implies ids(out@).contains(c) || ids(
                stack@,
            ).contains(c) by {
                assert(children(e, id.0).contains(c));
                assert(ids(stack@).to_set().contains(c));
            }
            assert(seen@ =~= ids(out@).to_set());
        }
        while stack.len() > 0
            invariant
                self.wf(),
                e == self.edges(),
                nodes == self.dependents@.dom(),
                nodes.finite(),
                seen@ == ids(out@).to_set(),
                ids(out@).no_duplicates(),
                seen@.subset_of(nodes),
                forall|n: u64| #[trigger] ids(out@).contains(n) ==> reachable(e, id.0, n),
                forall|n: u64| #[trigger] ids(stack@).contains(n) ==> reachable(e, id.0, n) && nodes.contains(n),
                forall|c: u64| #[trigger]
                    e.contains((id.0, c)) ==> ids(out@).contains(c) || ids(stack@).contains(c),
                forall|m: u64, c: u64|
                    ids(out@).contains(m) && #[trigger] e.contains((m, c)) ==> ids(out@).contains(c)
                        || ids(stack@).contains(c),
            decreases nodes.difference(seen@).len(), stack@.len(),
        {
            let ghost s0 = stack@;
            let ghost o0 = out@;
            let ghost seen0 = seen@;
            match stack.pop() {
                Some(n) => {
                    proof {
                        assert(s0 =~= stack@.push(n));
                        assert(ids(s0) =~= ids(stack@).push(n.0));
                        assert(ids(s0)[s0.len() - 1] == n.0);
                        assert(ids(s0).contains(n.0));
                        assert forall|x: u64| ids(s0).contains(x) implies ids(stack@).contains(x) || x
                            == n.0 by {
                            let j = choose|j: int| 0 <= j < ids(s0).len() && ids(s0)[j] == x;
                            if j < stack@.len() {
                                assert(ids(stack@)[j] == x);
                            }
                        }
                        assert forall|x: u64| ids(stack@).contains(x) implies ids(s0).contains(x) by {
                            let j = choose|j: int| 0 <= j < ids(stack@).len() && ids(stack@)[j] == x;
                            assert(ids(s0)[j] == x);
                        }
                    }
                    if seen.insert(n.0) {
                        out.push(n);
                        let mut more = self.dependencies(n);
                        let ghost extra = more@;
                        let ghost s1 = stack@;
                        stack.append(&mut more);
                        proof {
                            assert(ids(out@) =~= ids(o0).push(n.0));
                            assert(ids(stack@) =~= ids(s1) + ids(extra));
                            assert forall|x: u64| #[trigger] ids(out@).contains(x) <==> ids(o0).contains(x)
                                || x == n.0 by {
                                if ids(out@).contains(x) {
                                    let j = choose|j: int| 0 <= j < ids(out@).len() && ids(out@)[j] == x;
                                    if j < o0.len() {
                                        assert(ids(o0)[j] == x);
                                    }
                                }
                                if ids(o0).contains(x) {
                                    let j = choose|j: int| 0 <= j < ids(o0).len() && ids(o0)[j] == x;
                                    assert(ids(out@)[j] == x);
                                }
                                if x == n.0 {
                                    assert(ids(out@)[o0.len() as int] == x);
                                }
                            }
                            assert forall|x: u64| #[trigger] ids(stack@).contains(x) <==> ids(s1).contains(x)
                                || ids(extra).contains(x) by {
                                if ids(stack@).contains(x) {
                                    let j = choose|j: int| 0 <= j < ids(stack@).len() && ids(stack@)[j] == x;
                                    if j < s1.len() {
                                        assert(ids(s1)[j] == x);
                                    } else {
                                        assert(ids(extra)[j - s1.len()] == x);
                                    }
                                }
                                if ids(s1).contains(x) {
                                    let j = choose|j: int| 0 <= j < ids(s1).len() && ids(s1)[j] == x;
                                    assert(ids(stack@)[j] == x);
                                }
                                if ids(extra).contains(x) {
                                    let j = choose|j: int| 0 <= j < ids(extra).len() && ids(extra)[j] == x;
                                    assert(ids(stack@)[s1.len() + j] == x);
                                }
                            }
                            assert forall|x: u64| ids(extra).contains(x) <==> #[trigger] e.contains((n.0, x)) by {
                                assert(ids(extra).to_set().contains(x) <==> ids(extra).contains(x));
                                assert(children(e, n.0).contains(x) <==> e.contains((n.0, x)));
                            }
                            assert(seen@ =~= ids(out@).to_set());
                            assert(ids(out@).no_duplicates()) by {
                                assert(!ids(o0).contains(n.0)) by {
                                    assert(!seen0.contains(n.0));
                                    assert(ids(o0).to_set().contains(n.0) <==> ids(o0).contains(n.0));
                                }
                                assert forall|a: int, b: int| 0 <= a < b < ids(out@).len() implies ids(
                                    out@,
                                )[a] != ids(out@)[b] by {
                                    if b == o0.len() {
                                        assert(ids(out@)[a] == ids(o0)[a]);
                                        assert(ids(o0).contains(ids(o0)[a]));
                                    } else {
                                        assert(ids(out@)[a] == ids(o0)[a] && ids(out@)[b] == ids(o0)[b]);
                                    }
                                }
                            }
                            assert forall|x: u64| ids(extra).contains(x) implies reachable(e, id.0, x)
                                && nodes.contains(x) by {
                                lemma_reach_step(e, id.0, n.0, x);
                                assert(edges_back(self.dependents@).contains((n.0, x)));
                            }
                            assert forall|x: u64| #[trigger] ids(stack@).contains(x) implies reachable(
                                e,
                                id.0,
                                x,
                            ) && nodes.contains(x) by {
                                if ids(s1).contains(x) {
                                    assert(ids(s0).contains(x));
                                } else {
                                    assert(ids(extra).contains(x));
                                    lemma_reach_step(e, id.0, n.0, x);
                                    assert(edges_back(self.dependents@).contains((n.0, x)));
                                }
                            }
                            assert(nodes.difference(seen@) =~= nodes.difference(seen0).remove(n.0));
                            assert(nodes.difference(seen0).contains(n.0));
                        }
                    } else {
                        proof {
                            assert(seen0.contains(n.0));
                            assert(ids(o0).to_set().contains(n.0));
                            assert forall|x: u64| #[trigger] ids(stack@).contains(x) implies reachable(
                                e,
                                id.0,
                                x,
                            ) && nodes.contains(x) by {
                                assert(ids(s0).contains(x));
                            }
                        }
                    }
                },
                None => {},
            }
        }
        proof {
            let outs = ids(out@).to_set();
            assert forall|c: u64| #[trigger] e.contains((id.0, c)) implies outs.contains(c) by {
                assert(ids(out@).contains(c));
            }
            assert forall|m: u64, c: u64| outs.contains(m) && #[trigger] e.contains((m, c)) implies outs.contains(
                c,
            ) by {
                assert(ids(out@).contains(m));
                assert(ids(out@).contains(c));
            }
            assert forall|n: u64| reachable(e, id.0, n) implies ids(out@).contains(n) by {
                let path = choose|path: Seq<u64>|
                    #![trigger is_path(e, path), path.last()]
                    path.len() >= 2 && path[0] == id.0 && path.last() == n && is_path(e, path);
                lemma_path_in_closed(e, id.0, outs, path, path.len() - 1);
            }
        }
        out
    }
}

// ---------------------------------------------------------------------------
// Laws.

/// A recorded dependency is visible both ways: the child is among the
/// parent's dependencies and the parent among the child's dependents.
pub proof fn law_add_dependency_visible(edges: Set<(u64, u64)>, parent: u64, child: u64)
    ensures
        children(edges.insert((parent, child)), parent).contains(child),
        parents(edges.insert((parent, child)), child).contains(parent),
{
}

/// Removing an asset leaves no edge touching it and keeps every other edge.
pub proof fn law_remove_isolates(edges: Set<(u64, u64)>, id: u64)
    ensures
        ({
            let kept = edges.filter(|e: (u64, u64)| e.0 != id && e.1 != id);
            &&& children(kept, id) == Set::<u64>::empty()
            &&& parents(kept, id) == Set::<u64>::empty()
            &&& forall|p: u64, c: u64|
                p != id && c != id ==> (kept.contains((p, c)) <==> edges.contains((p, c)))
        }),
{
    let kept = edges.filter(|e: (u64, u64)| e.0 != id && e.1 != id);
    assert(children(kept, id) =~= Set::<u64>::empty());
    assert(parents(kept, id) =~= Set::<u64>::empty());
}

/// Transitive dependencies contain the direct ones and are closed under
/// taking dependencies.
pub proof fn law_transitive_closed(edges: Set<(u64, u64)>, a: u64, b: u64, c: u64)
    ensures
        edges.contains((a, b)) ==> reachable(edges, a, b),
        reachable(edges, a, b) && edges.contains((b, c)) ==> reachable(edges, a, c),
{
    if edges.contains((a, b)) {
        lemma_reach_edge(edges, a, b);
    }
    if reachable(edges, a, b) && edges.contains((b, c)) {
        lemma_reach_step(edges, a, b, c);
    }
}

} // verus!
