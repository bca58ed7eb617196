//! The relation graph of a definition: outgoing and incoming relations per source and,
//! for every source reachable from the root, the relation path that leads to it.
use vstd::prelude::*;

use crate::analysis::index::{source_index, spec_root, spec_source};
use crate::definition::GraphDefinition;

verus! {

/// The source that relation `r` starts from.
pub open spec fn from_of(d: GraphDefinition, r: int) -> Option<int> {
    spec_source(d, d.relations@[r].from@)
}

/// The source that relation `r` leads to.
pub open spec fn to_of(d: GraphDefinition, r: int) -> Option<int> {
    spec_source(d, d.relations@[r].to@)
}

/// A relation whose two ends name defined sources.
pub open spec fn is_edge(d: GraphDefinition, r: int) -> bool {
    0 <= r < d.relations@.len() && from_of(d, r) is Some && to_of(d, r) is Some
}

/// The relations among the first `m` that leave source `s`, in definition order.
pub open spec fn edges_from(d: GraphDefinition, s: int, m: int) -> Seq<usize>
    decreases m,
{
    if m <= 0 {
        seq![]
    } else {
        edges_from(d, s, m - 1) + if is_edge(d, m - 1) && from_of(d, m - 1) == Some(s) {
            seq![(m - 1) as usize]
        } else {
            seq![]
        }
    }
}

/// The relations among the first `m` that enter source `s`, in definition order.
pub open spec fn edges_to(d: GraphDefinition, s: int, m: int) -> Seq<usize>
    decreases m,
{
    if m <= 0 {
        seq![]
    } else {
        edges_to(d, s, m - 1) + if is_edge(d, m - 1) && to_of(d, m - 1) == Some(s) {
            seq![(m - 1) as usize]
        } else {
            seq![]
        }
    }
}

/// Source `s` can be reached from the root by following at most `k` relations.
pub open spec fn reachable_in(d: GraphDefinition, s: int, k: nat) -> bool
    decreases k,
{
    spec_root(d) == Some(s) || (k > 0 && exists|r: int|
        #![trigger to_of(d, r)]
        is_edge(d, r) && to_of(d, r) == Some(s) && reachable_in(
            d,
            from_of(d, r)->0,
            (k - 1) as nat,
        ))
}

pub open spec fn spec_reachable(d: GraphDefinition, s: int) -> bool {
    exists|k: nat| reachable_in(d, s, k)
}

/// The recorded path of `s` ends with a relation into `s` whose start has the
/// recorded path without that last relation; an empty path belongs to the root.
pub open spec fn path_step_ok(d: GraphDefinition, paths: Seq<Option<Vec<usize>>>, s: int, p: Seq<usize>) -> bool {
    if p.len() == 0 {
        spec_root(d) == Some(s)
    } else {
        let r = p.last() as int;
        &&& is_edge(d, r)
        &&& to_of(d, r) == Some(s)
        &&& paths[from_of(d, r)->0] matches Some(q) && q@ == p.drop_last()
    }
}

pub open spec fn paths_tree(d: GraphDefinition, paths: Seq<Option<Vec<usize>>>) -> bool {
    forall|s: int|
        0 <= s < paths.len() ==> match #[trigger] paths[s] {
            Some(p) => path_step_ok(d, paths, s, p@) && forall|i: int|
                0 <= i < p@.len() ==> (#[trigger] p@[i]) < d.relations@.len(),
            None => true,
        }
}

pub open spec fn path_has_optional(d: GraphDefinition, p: Seq<usize>) -> bool {
    exists|i: int| 0 <= i < p.len() && !d.relations@[#[trigger] p[i] as int].required
}

pub open spec fn path_all_required(d: GraphDefinition, p: Seq<usize>) -> bool {
    forall|i: int| 0 <= i < p.len() ==> d.relations@[#[trigger] p[i] as int].required
}

/// A source is nullable when its relation path crosses an optional relation.
pub open spec fn spec_source_nullable(d: GraphDefinition, path: Option<Vec<usize>>) -> bool {
    match path {
        Some(p) => path_has_optional(d, p@),
        None => false,
    }
}

/// A relation is effectively required when every relation on the path to its
/// target is required.
pub open spec fn spec_effectively_required(d: GraphDefinition, paths: Seq<Option<Vec<usize>>>, r: int) -> bool {
    match to_of(d, r) {
        Some(t) => match paths[t] {
            Some(p) => path_all_required(d, p@),
            None => false,
        },
        None => false,
    }
}

#[derive(Debug)]
pub struct GraphTopology {
    pub outgoing_relations: Vec<Vec<usize>>,
    pub incoming_relations: Vec<Vec<usize>>,
    pub relation_paths: Vec<Option<Vec<usize>>>,
    pub source_nullable: Vec<bool>,
    pub effective_relation_required: Vec<bool>,
}

impl GraphTopology {
    pub open spec fn wf(self, d: GraphDefinition) -> bool {
        let n = d.sources@.len();
        let m = d.relations@.len() as int;
        &&& self.outgoing_relations@.len() == n
        &&& forall|s: int|
            0 <= s < n ==> (#[trigger] self.outgoing_relations@[s])@ == edges_from(d, s, m)
        &&& self.incoming_relations@.len() == n
        &&& forall|s: int|
            0 <= s < n ==> (#[trigger] self.incoming_relations@[s])@ == edges_to(d, s, m)
        &&& self.relation_paths@.len() == n
        &&& paths_tree(d, self.relation_paths@)
        &&& spec_root(d) matches Some(root) ==> self.relation_paths@[root] matches Some(p)
            && p@.len() == 0
        &&& forall|s: int|
            0 <= s < n ==> ((#[trigger] self.relation_paths@[s]) is Some <==> spec_reachable(
                d,
                s,
            ))
        &&& self.source_nullable@.len() == n
        &&& forall|s: int|
            0 <= s < n ==> #[trigger] self.source_nullable@[s] == spec_source_nullable(
                d,
                self.relation_paths@[s],
            )
        &&& self.effective_relation_required@.len() == m
        &&& forall|r: int|
            0 <= r < m ==> #[trigger] self.effective_relation_required@[r]
                == spec_effectively_required(d, self.relation_paths@, r)
    }

    pub open spec fn spec_path(self, s: int) -> Option<Seq<usize>> {
        match self.relation_paths@[s] {
            Some(p) => Some(p@),
            None => None,
        }
    }
}

pub proof fn lemma_edges_from(d: GraphDefinition, s: int, m: int)
    requires
        m <= usize::MAX,
    ensures
        forall|j: int|
            0 <= j < edges_from(d, s, m).len() ==> {
                let r = #[trigger] edges_from(d, s, m)[j] as int;
                r < m && is_edge(d, r) && from_of(d, r) == Some(s)
            },
        forall|r: int|
            0 <= r < m && is_edge(d, r) && from_of(d, r) == Some(s) ==> #[trigger] edges_from(
                d,
                s,
                m,
            ).contains(r as usize),
    decreases m,
{
    if m > 0 {
        lemma_edges_from(d, s, m - 1);
        let prev = edges_from(d, s, m - 1);
        let cur = edges_from(d, s, m);
        assert forall|j: int| 0 <= j < cur.len() implies {
            let r = #[trigger] cur[j] as int;
            r < m && is_edge(d, r) && from_of(d, r) == Some(s)
        } by {
            if j < prev.len() {
                assert(cur[j] == prev[j]);
            } else {
                assert(cur[j] == (m - 1) as usize);
            }
        }
        assert forall|r: int| 0 <= r < m && is_edge(d, r) && from_of(d, r) == Some(s) implies #[trigger] cur.contains(r as usize) by {
            if r < m - 1 {
                assert(prev.contains(r as usize));
                let j = choose|j: int| 0 <= j < prev.len() && prev[j] == r as usize;
                assert(cur[j] == prev[j]);
            } else {
                assert(cur[prev.len() as int] == r as usize);
            }
        }
    }
}

pub proof fn lemma_edges_to(d: GraphDefinition, s: int, m: int)
    requires
        m <= usize::MAX,
    ensures
        forall|j: int|
            0 <= j < edges_to(d, s, m).len() ==> {
                let r = #[trigger] edges_to(d, s, m)[j] as int;
                r < m && is_edge(d, r) && to_of(d, r) == Some(s)
            },
    decreases m,
{
    if m > 0 {
        lemma_edges_to(d, s, m - 1);
        let prev = edges_to(d, s, m - 1);
        let cur = edges_to(d, s, m);
        assert forall|j: int| 0 <= j < cur.len() implies {
            let r = #[trigger] cur[j] as int;
            r < m && is_edge(d, r) && to_of(d, r) == Some(s)
        } by {
            if j < prev.len() {
                assert(cur[j] == prev[j]);
            } else {
                assert(cur[j] == (m - 1) as usize);
            }
        }
    }
}

/// A recorded path witnesses that its source is reachable.
proof fn lemma_path_reachable(d: GraphDefinition, paths: Seq<Option<Vec<usize>>>, s: int, k: nat)
    requires
        paths_tree(d, paths),
        0 <= s < paths.len(),
        paths[s] matches Some(p) && p@.len() == k,
        paths.len() == d.sources@.len(),
    ensures
        reachable_in(d, s, k),
    decreases k,
{
    let p = paths[s]->0@;
    if k > 0 {
        let r = p.last() as int;
        assert(path_step_ok(d, paths, s, p));
        let f = from_of(d, r)->0;
        crate::analysis::index::lemma_first_key_range(
            crate::analysis::index::source_keys(d),
            d.relations@[r].from@,
        );
        assert(paths[f] matches Some(q) && q@ == p.drop_last());
        lemma_path_reachable(d, paths, f, (k - 1) as nat);
        assert(is_edge(d, r) && to_of(d, r) == Some(s) && reachable_in(d, f, (k - 1) as nat));
    }
}

/// When the recorded sources contain the root and are closed under relations, every
/// reachable source is recorded.
proof fn lemma_closed_complete(d: GraphDefinition, paths: Seq<Option<Vec<usize>>>, s: int, k: nat)
    requires
        paths.len() == d.sources@.len(),
        spec_root(d) matches Some(root) ==> paths[root] is Some,
        forall|r: int|
            #![trigger to_of(d, r)]
            is_edge(d, r) && paths[from_of(d, r)->0] is Some ==> paths[to_of(d, r)->0] is Some,
        reachable_in(d, s, k),
    ensures
        paths[s] is Some,
    decreases k,
{
    if spec_root(d) == Some(s) {
    } else {
        let r = choose|r: int|
            #![trigger to_of(d, r)]
            is_edge(d, r) && to_of(d, r) == Some(s) && reachable_in(
                d,
                from_of(d, r)->0,
                (k - 1) as nat,
            );
        lemma_closed_complete(d, paths, from_of(d, r)->0, (k - 1) as nat);
    }
}

/// The number of relations on the recorded path of `x`.
pub open spec fn plen(paths: Seq<Option<Vec<usize>>>, x: int) -> int {
    paths[x]->0@.len() as int
}

/// No chain of fewer relations than its recorded path reaches a recorded source.
pub open spec fn shortest_paths(d: GraphDefinition, paths: Seq<Option<Vec<usize>>>) -> bool {
    forall|x: int|
        0 <= x < paths.len() && paths[x] is Some ==> forall|k: nat| k < plen(paths, x) ==> !#[trigger] reachable_in(d, x, k)
}

/// What the breadth-first walk keeps while it works through `queue` from position `h`:
/// the queue is ordered by path length, spans at most one more relation than its
/// current source, every recorded path is shortest, and every source that is reachable
/// in fewer relations than the current one was taken from the queue before it.
pub open spec fn bfs_order(d: GraphDefinition, paths: Seq<Option<Vec<usize>>>, queue: Seq<usize>, h: int) -> bool {
    &&& forall|i: int, j: int|
        #![trigger queue[i], queue[j]]
        0 <= i < j < queue.len() ==> plen(paths, queue[i] as int) <= plen(paths, queue[j] as int)
    &&& (0 <= h < queue.len() ==> forall|i: int|
        0 <= i < queue.len() ==> plen(paths, #[trigger] queue[i] as int) <= plen(paths, queue[h] as int) + 1)
    &&& shortest_paths(d, paths)
    &&& (0 <= h < queue.len() ==> forall|y: int, k: nat|
        0 <= y < paths.len() && #[trigger] reachable_in(d, y, k) && k < plen(paths, queue[h] as int) ==> exists|i: int|
            0 <= i < h && queue[i] == y)
}

proof fn lemma_bfs_assign(
    d: GraphDefinition,
    old_paths: Seq<Option<Vec<usize>>>,
    old_queue: Seq<usize>,
    paths: Seq<Option<Vec<usize>>>,
    queue: Seq<usize>,
    h: int,
    t: int,
    p: Vec<usize>,
)
    requires
        bfs_order(d, old_paths, old_queue, h),
        0 <= h < old_queue.len(),
        old_paths.len() == d.sources@.len(),
        old_paths.len() <= usize::MAX,
        0 <= t < old_paths.len(),
        old_paths[t] is None,
        forall|i: int| 0 <= i < old_queue.len() ==> (#[trigger] old_queue[i]) < old_paths.len() && old_paths[old_queue[i] as int] is Some,
        spec_root(d) matches Some(x) ==> 0 <= x < old_paths.len() && old_paths[x] is Some,
        forall|i: int, r: int|
            #![trigger old_queue[i], to_of(d, r)]
            0 <= i < h && is_edge(d, r) && from_of(d, r) == Some(old_queue[i] as int) ==> old_paths[to_of(d, r)->0] is Some,
        p@.len() == plen(old_paths, old_queue[h] as int) + 1,
        paths == old_paths.update(t, Some(p)),
        queue == old_queue.push(t as usize),
    ensures
        bfs_order(d, paths, queue, h),
{
    let u = old_queue[h] as int;
    assert forall|i: int| 0 <= i < old_queue.len() implies plen(paths, #[trigger] old_queue[i] as int) == plen(old_paths, old_queue[i] as int) by {
        assert(old_queue[i] as int != t);
    }
    assert forall|i: int, j: int|
        #![trigger queue[i], queue[j]]
        0 <= i < j < queue.len() implies plen(paths, queue[i] as int) <= plen(paths, queue[j] as int) by {
        assert(queue[i] == old_queue[i]);
        if j < old_queue.len() {
            assert(queue[j] == old_queue[j]);
            assert(plen(old_paths, old_queue[i] as int) <= plen(old_paths, old_queue[j] as int));
        } else {
            assert(queue[j] as int == t);
            assert(plen(old_paths, old_queue[i] as int) <= plen(old_paths, u) + 1);
        }
    }
    assert forall|i: int| 0 <= i < queue.len() implies plen(paths, #[trigger] queue[i] as int) <= plen(paths, queue[h] as int) + 1 by {
        assert(queue[h] == old_queue[h]);
        if i < old_queue.len() {
            assert(queue[i] == old_queue[i]);
            assert(plen(old_paths, old_queue[i] as int) <= plen(old_paths, u) + 1);
        }
    }
    assert forall|x: int| 0 <= x < paths.len() && paths[x] is Some implies forall|k: nat|
        k < plen(paths, x) ==> !#[trigger] reachable_in(d, x, k) by {
        if x != t {
            assert(paths[x] == old_paths[x]);
        } else {
            assert forall|k: nat| k < plen(paths, x) implies !#[trigger] reachable_in(d, x, k) by {
                if reachable_in(d, x, k) {
                    if spec_root(d) == Some(x) {
                    } else {
                        let r = choose|r: int|
                            #![trigger to_of(d, r)]
                            is_edge(d, r) && to_of(d, r) == Some(x) && reachable_in(d, from_of(d, r)->0, (k - 1) as nat);
                        let y = from_of(d, r)->0;
                        crate::analysis::index::lemma_first_key_range(crate::analysis::index::source_keys(d), d.relations@[r].from@);
                        assert(reachable_in(d, y, (k - 1) as nat));
                        let i = choose|i: int| 0 <= i < h && old_queue[i] == y;
                        assert(old_paths[to_of(d, r)->0] is Some);
                    }
                }
            }
        }
    }
    assert forall|y: int, k: nat|
        0 <= y < paths.len() && #[trigger] reachable_in(d, y, k) && k < plen(paths, queue[h] as int) implies exists|i: int|
            0 <= i < h && queue[i] == y by {
        assert(queue[h] == old_queue[h]);
        let i = choose|i: int| 0 <= i < h && old_queue[i] == y;
        assert(queue[i] == old_queue[i]);
    }
}

proof fn lemma_bfs_advance(d: GraphDefinition, paths: Seq<Option<Vec<usize>>>, queue: Seq<usize>, h: int)
    requires
        bfs_order(d, paths, queue, h),
        0 <= h < queue.len(),
        paths.len() == d.sources@.len(),
        paths.len() <= usize::MAX,
        forall|i: int| 0 <= i < queue.len() ==> (#[trigger] queue[i]) < paths.len() && paths[queue[i] as int] is Some,
        forall|x: int| 0 <= x < paths.len() && (#[trigger] paths[x]) is Some ==> queue.contains(x as usize),
        spec_root(d) matches Some(x) ==> queue[0] as int == x,
        forall|i: int, r: int|
            #![trigger queue[i], to_of(d, r)]
            0 <= i < h + 1 && is_edge(d, r) && from_of(d, r) == Some(queue[i] as int) ==> paths[to_of(d, r)->0] is Some,
    ensures
        bfs_order(d, paths, queue, h + 1),
{
    if h + 1 < queue.len() {
        let qh = queue[h] as int;
        let qn = queue[h + 1] as int;
        assert(plen(paths, qh) <= plen(paths, qn));
        assert(plen(paths, qn) <= plen(paths, qh) + 1);
        assert forall|i: int| 0 <= i < queue.len() implies plen(paths, #[trigger] queue[i] as int) <= plen(paths, queue[h + 1] as int) + 1 by {
            assert(plen(paths, queue[i] as int) <= plen(paths, qh) + 1);
        }
        assert forall|y: int, k: nat|
            0 <= y < paths.len() && #[trigger] reachable_in(d, y, k) && k < plen(paths, queue[h + 1] as int) implies exists|i: int|
                0 <= i < h + 1 && queue[i] == y by {
            if k < plen(paths, qh) {
                let i = choose|i: int| 0 <= i < h && queue[i] == y;
                assert(0 <= i < h + 1 && queue[i] == y);
            } else if spec_root(d) == Some(y) {
                assert(queue[0] as int == y);
            } else {
                let r = choose|r: int|
                    #![trigger to_of(d, r)]
                    is_edge(d, r) && to_of(d, r) == Some(y) && reachable_in(d, from_of(d, r)->0, (k - 1) as nat);
                let y1 = from_of(d, r)->0;
                crate::analysis::index::lemma_first_key_range(crate::analysis::index::source_keys(d), d.relations@[r].from@);
                crate::analysis::index::lemma_first_key_range(crate::analysis::index::source_keys(d), d.relations@[r].to@);
                assert(reachable_in(d, y1, (k - 1) as nat));
                let i1 = choose|i: int| 0 <= i < h && queue[i] == y1;
                assert(queue[i1] as int == y1);
                assert(paths[to_of(d, r)->0] is Some);
                assert(paths[y] is Some);
                assert(queue.contains(y as usize));
                let iy = choose|i: int| 0 <= i < queue.len() && queue[i] == y as usize;
                assert(queue[iy] as int == y);
                assert(!(k < plen(paths, y)));
                if iy >= h + 1 {
                    if iy > h + 1 {
                        assert(plen(paths, queue[h + 1] as int) <= plen(paths, queue[iy] as int));
                    }
                    assert(false);
                }
                assert(0 <= iy < h + 1 && queue[iy] == y);
            }
        }
    }
}

pub proof fn lemma_distinct_bounded(q: Seq<usize>, n: int)
    requires
        q.no_duplicates(),
        forall|i: int| 0 <= i < q.len() ==> (#[trigger] q[i]) < n,
        n >= 0,
    ensures
        q.len() <= n,
{
    let qi = q.map_values(|x: usize| x as int);
    assert forall|i: int, j: int| 0 <= i < qi.len() && 0 <= j < qi.len() && i != j implies qi[i]
        != qi[j] by {
        assert(q[i] != q[j]);
    }
    assert(qi.no_duplicates());
    qi.unique_seq_to_set();
    vstd::set_lib::lemma_int_range(0, n);
    assert forall|x: int| qi.to_set().contains(x) implies vstd::set_lib::set_int_range(
        0,
        n,
    ).contains(x) by {
        let i = choose|i: int| 0 <= i < qi.len() && qi[i] == x;
        assert(q[i] < n);
    }
    vstd::set_lib::lemma_len_subset(qi.to_set(), vstd::set_lib::set_int_range(0, n));
}

fn relation_endpoints(d: &GraphDefinition) -> (r: (Vec<Option<usize>>, Vec<Option<usize>>))
    ensures
        r.0@.len() == d.relations@.len(),
        r.1@.len() == d.relations@.len(),
        forall|i: int|
            0 <= i < d.relations@.len() ==> match #[trigger] r.0@[i] {
                Some(s) => from_of(*d, i) == Some(s as int),
                None => from_of(*d, i) is None,
            },
        forall|i: int|
            0 <= i < d.relations@.len() ==> match #[trigger] r.1@[i] {
                Some(s) => to_of(*d, i) == Some(s as int),
                None => to_of(*d, i) is None,
            },
{
    let mut froms: Vec<Option<usize>> = Vec::new();
    let mut tos: Vec<Option<usize>> = Vec::new();
    let mut i: usize = 0;
    while i < d.relations.len()
        invariant
            i <= d.relations@.len(),
            froms@.len() == i,
            tos@.len() == i,
            forall|j: int|
                0 <= j < i ==> match #[trigger] froms@[j] {
                    Some(s) => from_of(*d, j) == Some(s as int),
                    None => from_of(*d, j) is None,
                },
            forall|j: int|
                0 <= j < i ==> match #[trigger] tos@[j] {
                    Some(s) => to_of(*d, j) == Some(s as int),
                    None => to_of(*d, j) is None,
                },
        decreases d.relations.len() - i,
    {
        let f = source_index(d, d.relations[i].from.as_str());
        let t = source_index(d, d.relations[i].to.as_str());
        froms.push(f);
        tos.push(t);
        i = i + 1;
    }
    (froms, tos)
}

impl GraphTopology {
    pub fn build(d: &GraphDefinition) -> (t: GraphTopology)
        ensures
            t.wf(*d),
            shortest_paths(*d, t.relation_paths@),
    {
        let n = d.sources.len();
        let m = d.relations.len();
        let (froms, tos) = relation_endpoints(d);
        proof {
            assert forall|r: int| 0 <= r < m implies (#[trigger] froms@[r] matches Some(s) ==> s
                < n) by {
                if let Some(s) = froms@[r] {
                    crate::analysis::index::lemma_first_key_range(
                        crate::analysis::index::source_keys(*d),
                        d.relations@[r].from@,
                    );
                }
            }
            assert forall|r: int| 0 <= r < m implies (#[trigger] tos@[r] matches Some(s) ==> s
                < n) by {
                if let Some(s) = tos@[r] {
                    crate::analysis::index::lemma_first_key_range(
                        crate::analysis::index::source_keys(*d),
                        d.relations@[r].to@,
                    );
                }
            }
        }
        let mut outgoing: Vec<Vec<usize>> = Vec::new();
        let mut incoming: Vec<Vec<usize>> = Vec::new();
        let mut s: usize = 0;
        while s < n
            invariant
                n == d.sources@.len(),
                m == d.relations@.len(),
                s <= n,
                froms@.len() == m,
                tos@.len() == m,
                forall|i: int|
                    0 <= i < m ==> match #[trigger] froms@[i] {
                        Some(x) => from_of(*d, i) == Some(x as int),
                        None => from_of(*d, i) is None,
                    },
                forall|i: int|
                    0 <= i < m ==> match #[trigger] tos@[i] {
                        Some(x) => to_of(*d, i) == Some(x as int),
                        None => to_of(*d, i) is None,
                    },
                outgoing@.len() == s,
                incoming@.len() == s,
                forall|x: int|
                    0 <= x < s ==> (#[trigger] outgoing@[x])@ == edges_from(*d, x, m as int),
                forall|x: int|
                    0 <= x < s ==> (#[trigger] incoming@[x])@ == edges_to(*d, x, m as int),
            decreases n - s,
        {
            let mut out: Vec<usize> = Vec::new();
            let mut inc: Vec<usize> = Vec::new();
            let mut r: usize = 0;
            while r < m
                invariant
                    m == d.relations@.len(),
                    r <= m,
                    froms@.len() == m,
                    tos@.len() == m,
                    forall|i: int|
                        0 <= i < m ==> match #[trigger] froms@[i] {
                            Some(x) => from_of(*d, i) == Some(x as int),
                            None => from_of(*d, i) is None,
                        },
                    forall|i: int|
                        0 <= i < m ==> match #[trigger] tos@[i] {
                            Some(x) => to_of(*d, i) == Some(x as int),
                            None => to_of(*d, i) is None,
                        },
                    out@ == edges_from(*d, s as int, r as int),
                    inc@ == edges_to(*d, s as int, r as int),
                decreases m - r,
            {
                let both = froms[r].is_some() && tos[r].is_some();
                if both && froms[r] == Some(s) {
                    out.push(r);
                }
                if both && tos[r] == Some(s) {
                    inc.push(r);
                }
                r = r + 1;
            }
            outgoing.push(out);
            incoming.push(inc);
            s = s + 1;
        }
        let mut paths: Vec<Option<Vec<usize>>> = Vec::new();
        let mut k: usize = 0;
        while k < n
            invariant
                k <= n,
                paths@.len() == k,
                forall|x: int| 0 <= x < k ==> (#[trigger] paths@[x]) is None,
            decreases n - k,
        {
            paths.push(None);
            k = k + 1;
        }
        let mut queue: Vec<usize> = Vec::new();
        let root = root_of(d);
        match root {
            Some(root) => {
                paths.set(root, Some(Vec::new()));
                queue.push(root);
            },
            None => {},
        }
        let mut head: usize = 0;
        proof {
            assert forall|x: int| 0 <= x < paths@.len() && paths@[x] is Some implies forall|k: nat|
                k < plen(paths@, x) ==> !#[trigger] reachable_in(*d, x, k) by {
                assert(root matches Some(rt) && x == rt as int);
            }
            assert(bfs_order(*d, paths@, queue@, 0));
            assert(queue@.no_duplicates());
            assert forall|x: int| 0 <= x < n && paths@[x] is Some implies queue@.contains(
                x as usize,
            ) by {
                assert(queue@[0] == x as usize);
            }
        }
        while head < queue.len()
            invariant
                n == d.sources@.len(),
                m == d.relations@.len(),
                froms@.len() == m,
                tos@.len() == m,
                forall|i: int|
                    0 <= i < m ==> match #[trigger] froms@[i] {
                        Some(x) => from_of(*d, i) == Some(x as int) && x < n,
                        None => from_of(*d, i) is None,
                    },
                forall|i: int|
                    0 <= i < m ==> match #[trigger] tos@[i] {
                        Some(x) => to_of(*d, i) == Some(x as int) && x < n,
                        None => to_of(*d, i) is None,
                    },
                outgoing@.len() == n,
                forall|x: int|
                    0 <= x < n ==> (#[trigger] outgoing@[x])@ == edges_from(*d, x, m as int),
                paths@.len() == n,
                paths_tree(*d, paths@),
                root matches Some(rt) ==> (spec_root(*d) == Some(rt as int) && (paths@[rt as int] matches Some(p) && p@.len() == 0)),
                root is None ==> spec_root(*d) is None,
                root matches Some(rt) ==> queue@.len() > 0 && queue@[0] == rt,
                n <= usize::MAX,
                bfs_order(*d, paths@, queue@, head as int),
                head <= queue@.len(),
                queue@.no_duplicates(),
                forall|i: int|
                    0 <= i < queue@.len() ==> (#[trigger] queue@[i]) < n && paths@[queue@[i] as int] is Some,
                forall|x: int| 0 <= x < n && (#[trigger] paths@[x]) is Some ==> queue@.contains(x as usize),
                forall|i: int, r: int|
                    #![trigger queue@[i], to_of(*d, r)]
                    0 <= i < head && is_edge(*d, r) && from_of(*d, r) == Some(queue@[i] as int)
                        ==> paths@[to_of(*d, r)->0] is Some,
            decreases n - head,
        {
            proof {
                lemma_distinct_bounded(queue@, n as int);
            }
            let source = queue[head];
            let parent_path: Vec<usize> = match &paths[source] {
                Some(p) => p.clone(),
                None => Vec::new(),
            };
            assert(paths@[source as int] matches Some(p) && parent_path@ == p@);
            let ghost before_head = head;
            head = head + 1;
            let outs = &outgoing[source];
            proof {
                lemma_edges_from(*d, source as int, m as int);
            }
            let mut j: usize = 0;
            while j < outs.len()
                invariant
                    n == d.sources@.len(),
                    m == d.relations@.len(),
                    froms@.len() == m,
                    tos@.len() == m,
                    forall|i: int|
                        0 <= i < m ==> match #[trigger] froms@[i] {
                            Some(x) => from_of(*d, i) == Some(x as int) && x < n,
                            None => from_of(*d, i) is None,
                        },
                    forall|i: int|
                        0 <= i < m ==> match #[trigger] tos@[i] {
                            Some(x) => to_of(*d, i) == Some(x as int) && x < n,
                            None => to_of(*d, i) is None,
                        },
                    outs@ == edges_from(*d, source as int, m as int),
                    forall|jj: int|
                        0 <= jj < outs@.len() ==> {
                            let r = #[trigger] outs@[jj] as int;
                            r < m && is_edge(*d, r) && from_of(*d, r) == Some(source as int)
                        },
                    forall|r: int|
                        0 <= r < m && is_edge(*d, r) && from_of(*d, r) == Some(source as int)
                            ==> #[trigger] outs@.contains(r as usize),
                    source < n,
                    paths@[source as int] matches Some(p) && parent_path@ == p@,
                    path_step_ok(*d, paths@, source as int, parent_path@),
                    forall|i: int| 0 <= i < parent_path@.len() ==> (#[trigger] parent_path@[i]) < m,
                    j <= outs@.len(),
                    paths@.len() == n,
                    paths_tree(*d, paths@),
                    root matches Some(rt) ==> (spec_root(*d) == Some(rt as int) && (paths@[rt as int] matches Some(p) && p@.len() == 0)),
                    root is None ==> spec_root(*d) is None,
                    root matches Some(rt) ==> queue@.len() > 0 && queue@[0] == rt,
                    n <= usize::MAX,
                    bfs_order(*d, paths@, queue@, before_head as int),
                    head == before_head + 1,
                    head <= queue@.len(),
                    queue@[before_head as int] == source,
                    queue@.no_duplicates(),
                    forall|i: int|
                        0 <= i < queue@.len() ==> (#[trigger] queue@[i]) < n && paths@[queue@[i] as int] is Some,
                    forall|x: int| 0 <= x < n && (#[trigger] paths@[x]) is Some ==> queue@.contains(x as usize),
                    forall|i: int, r: int|
                        #![trigger queue@[i], to_of(*d, r)]
                        0 <= i < before_head && is_edge(*d, r) && from_of(*d, r) == Some(queue@[i] as int)
                            ==> paths@[to_of(*d, r)->0] is Some,
                    forall|jj: int|
                        0 <= jj < j ==> paths@[to_of(*d, #[trigger] outs@[jj] as int)->0] is Some,
                decreases outs.len() - j,
            {
                let r = outs[j];
                let target = match tos[r] {
                    Some(t) => t,
                    None => {
                        assert(false);
                        0
                    },
                };
                if paths[target].is_none() {
                    let ghost old_paths = paths@;
                    let ghost old_queue = queue@;
                    let mut p = parent_path.clone();
                    p.push(r);
                    paths.set(target, Some(p));
                    queue.push(target);
                    proof {
                        assert(p@.len() == parent_path@.len() + 1);
                        assert(plen(old_paths, old_queue[before_head as int] as int) == parent_path@.len());
                        if let Some(rt) = root {
                            assert(old_queue[0] == rt);
                        }
                        lemma_bfs_assign(*d, old_paths, old_queue, paths@, queue@, before_head as int, target as int, p);
                        if let Some(rt) = root {
                            crate::analysis::index::lemma_first_key_range(
                                crate::analysis::index::source_keys(*d),
                                d.root@,
                            );
                            assert(old_paths[rt as int] is Some);
                            assert(rt != target);
                            assert(paths@[rt as int] == old_paths[rt as int]);
                        }
                        assert(p@.drop_last() =~= parent_path@);
                        assert forall|x: int| 0 <= x < n implies match #[trigger] paths@[x] {
                            Some(q) => path_step_ok(*d, paths@, x, q@) && forall|i: int|
                                0 <= i < q@.len() ==> (#[trigger] q@[i]) < m,
                            None => true,
                        } by {
                            if x != target as int {
                                if let Some(q) = old_paths[x] {
                                    assert(path_step_ok(*d, old_paths, x, q@));
                                    if q@.len() > 0 {
                                        let rr = q@.last() as int;
                                        let f = from_of(*d, rr)->0;
                                        crate::analysis::index::lemma_first_key_range(
                                            crate::analysis::index::source_keys(*d),
                                            d.relations@[rr].from@,
                                        );
                                        assert(old_paths[f] is Some);
                                        assert(f != target as int);
                                        assert(paths@[f] == old_paths[f]);
                                    }
                                }
                            } else {
                                assert(from_of(*d, r as int) == Some(source as int));
                                assert(source != target);
                                assert(paths@[source as int] == old_paths[source as int]);
                                if parent_path@.len() == 0 {
                                } else {
                                }
                                assert(path_step_ok(*d, paths@, x, p@));
                            }
                        }
                        assert(paths_tree(*d, paths@));
                        assert forall|i: int|
                            0 <= i < queue@.len() implies (#[trigger] queue@[i]) < n
                            && paths@[queue@[i] as int] is Some by {
                            if i < old_queue.len() {
                                assert(queue@[i] == old_queue[i]);
                            }
                        }
                        assert forall|x: int| 0 <= x < n && (#[trigger] paths@[x]) is Some implies queue@.contains(x as usize) by {
                            if x == target as int {
                                assert(queue@[old_queue.len() as int] == target);
                            } else {
                                assert(old_queue.contains(x as usize));
                                let i = choose|i: int| 0 <= i < old_queue.len() && old_queue[i] == x as usize;
                                assert(queue@[i] == x as usize);
                            }
                        }
                        assert(queue@.no_duplicates()) by {
                            assert(!old_queue.contains(target)) by {
                                if old_queue.contains(target) {
                                    let i = choose|i: int| 0 <= i < old_queue.len() && old_queue[i] == target;
                                    assert(old_paths[target as int] is Some);
                                }
                            }
                            assert forall|a: int, b: int| 0 <= a < queue@.len() && 0 <= b < queue@.len() && a != b implies queue@[a] != queue@[b] by {
                                if a < old_queue.len() && b < old_queue.len() {
                                } else if a < old_queue.len() {
                                    assert(queue@[a] == old_queue[a]);
                                } else if b < old_queue.len() {
                                    assert(queue@[b] == old_queue[b]);
                                }
                            }
                        }
                        assert forall|i: int, rr: int|
                            #![trigger queue@[i], to_of(*d, rr)]
                            0 <= i < before_head && is_edge(*d, rr) && from_of(*d, rr) == Some(queue@[i] as int)
                                implies paths@[to_of(*d, rr)->0] is Some by {
                            assert(queue@[i] == old_queue[i]);
                            assert(old_paths[to_of(*d, rr)->0] is Some);
                            crate::analysis::index::lemma_first_key_range(
                                crate::analysis::index::source_keys(*d),
                                d.relations@[rr].to@,
                            );
                            if to_of(*d, rr)->0 != target as int {
                                assert(paths@[to_of(*d, rr)->0] == old_paths[to_of(*d, rr)->0]);
                            }
                        }
                        assert forall|jj: int|
                            0 <= jj < j + 1 implies paths@[to_of(*d, #[trigger] outs@[jj] as int)->0] is Some by {
                            if jj < j {
                                assert(old_paths[to_of(*d, outs@[jj] as int)->0] is Some);
                                crate::analysis::index::lemma_first_key_range(
                                    crate::analysis::index::source_keys(*d),
                                    d.relations@[outs@[jj] as int].to@,
                                );
                                if to_of(*d, outs@[jj] as int)->0 != target as int {
                                    assert(paths@[to_of(*d, outs@[jj] as int)->0] == old_paths[to_of(*d, outs@[jj] as int)->0]);
                                }
                            } else {
                                assert(to_of(*d, r as int) == Some(target as int));
                            }
                        }
                    }
                } else {
                    proof {
                        assert(to_of(*d, r as int) == Some(target as int));
                        assert(paths@[to_of(*d, outs@[j as int] as int)->0] is Some);
                    }
                }
                j = j + 1;
            }
            proof {
                assert forall|i: int, r: int|
                    #![trigger queue@[i], to_of(*d, r)]
                    0 <= i < head && is_edge(*d, r) && from_of(*d, r) == Some(queue@[i] as int)
                        implies paths@[to_of(*d, r)->0] is Some by {
                    if i == before_head {
                        assert(outs@.contains(r as usize));
                        let jj = choose|jj: int| 0 <= jj < outs@.len() && outs@[jj] == r as usize;
                        assert(paths@[to_of(*d, outs@[jj] as int)->0] is Some);
                    }
                }
                if let Some(rt) = root {
                    assert(spec_root(*d) == Some(rt as int));
                }
                lemma_bfs_advance(*d, paths@, queue@, before_head as int);
            }
        }
        proof {
            assert forall|s: int| 0 <= s < n implies ((#[trigger] paths@[s]) is Some <==> spec_reachable(*d, s)) by {
                if paths@[s] is Some {
                    let k = paths@[s]->0@.len();
                    lemma_path_reachable(*d, paths@, s, k);
                } else {
                    assert forall|r: int|
                        #![trigger to_of(*d, r)]
                        is_edge(*d, r) && paths@[from_of(*d, r)->0] is Some implies paths@[to_of(*d, r)->0] is Some by {
                        let f = from_of(*d, r)->0;
                        crate::analysis::index::lemma_first_key_range(
                            crate::analysis::index::source_keys(*d),
                            d.relations@[r].from@,
                        );
                        assert(queue@.contains(f as usize));
                        let i = choose|i: int| 0 <= i < queue@.len() && queue@[i] == f as usize;
                        assert(queue@[i] == f as usize);
                    }
                    if spec_reachable(*d, s) {
                        let k = choose|k: nat| reachable_in(*d, s, k);
                        lemma_closed_complete(*d, paths@, s, k);
                    }
                }
            }
        }
        let nullable = nullable_sources(d, &paths);
        let required = effective_required(d, &paths, &tos);
        GraphTopology {
            outgoing_relations: outgoing,
            incoming_relations: incoming,
            relation_paths: paths,
            source_nullable: nullable,
            effective_relation_required: required,
        }
    }

    pub fn outgoing(&self, source: usize) -> (r: &Vec<usize>)
        requires
            source < self.outgoing_relations@.len(),
        ensures
            r == self.outgoing_relations@[source as int],
    {
        &self.outgoing_relations[source]
    }

    pub fn incoming(&self, source: usize) -> (r: &Vec<usize>)
        requires
            source < self.incoming_relations@.len(),
        ensures
            r == self.incoming_relations@[source as int],
    {
        &self.incoming_relations[source]
    }

    pub fn relation_path(&self, source: usize) -> (r: Option<&Vec<usize>>)
        requires
            source < self.relation_paths@.len(),
        ensures
            match self.relation_paths@[source as int] {
                Some(p) => r == Some(&p),
                None => r is None,
            },
    {
        match &self.relation_paths[source] {
            Some(p) => Some(p),
            None => None,
        }
    }

    /// The relations from `from` to `to` when the path of `to` extends the path of `from`.
    pub fn relation_path_between(&self, from: usize, to: usize) -> (r: Option<Vec<usize>>)
        requires
            from < self.relation_paths@.len(),
            to < self.relation_paths@.len(),
        ensures
            match r {
                Some(v) => crate::validation::expression::path_between(*self, from as int, to as int) == Some(v@),
                None => crate::validation::expression::path_between(*self, from as int, to as int) is None,
            },
    {
        let fp = match &self.relation_paths[from] {
            Some(p) => p,
            None => {
                return None;
            },
        };
        let tp = match &self.relation_paths[to] {
            Some(p) => p,
            None => {
                return None;
            },
        };
        if fp.len() > tp.len() {
            return None;
        }
        let mut i: usize = 0;
        while i < fp.len()
            invariant
                self.relation_paths@[from as int] == Some(*fp),
                self.relation_paths@[to as int] == Some(*tp),
                fp@.len() <= tp@.len(),
                i <= fp@.len(),
                forall|j: int| 0 <= j < i ==> fp@[j] == tp@[j],
            decreases fp.len() - i,
        {
            if fp[i] != tp[i] {
                assert(tp@.take(fp@.len() as int)[i as int] != fp@[i as int]);
                assert(tp@.take(fp@.len() as int) != fp@);
                return None;
            }
            i = i + 1;
        }
        assert(tp@.take(fp@.len() as int) =~= fp@);
        let mut rest: Vec<usize> = Vec::new();
        let mut k: usize = fp.len();
        while k < tp.len()
            invariant
                self.relation_paths@[from as int] == Some(*fp),
                self.relation_paths@[to as int] == Some(*tp),
                fp@.len() <= k <= tp@.len(),
                rest@ == tp@.subrange(fp@.len() as int, k as int),
            decreases tp.len() - k,
        {
            rest.push(tp[k]);
            assert(rest@ =~= tp@.subrange(fp@.len() as int, k + 1));
            k = k + 1;
        }
        assert(rest@ =~= tp@.skip(fp@.len() as int));
        Some(rest)
    }

    pub fn source_is_reachable(&self, source: usize) -> (r: bool)
        requires
            source < self.relation_paths@.len(),
        ensures
            r == self.relation_paths@[source as int] is Some,
    {
        self.relation_paths[source].is_some()
    }

    pub fn source_is_nullable(&self, source: usize) -> (r: bool)
        requires
            source < self.source_nullable@.len(),
        ensures
            r == self.source_nullable@[source as int],
    {
        self.source_nullable[source]
    }

    pub fn relation_is_effectively_required(&self, relation: usize) -> (r: bool)
        requires
            relation < self.effective_relation_required@.len(),
        ensures
            r == self.effective_relation_required@[relation as int],
    {
        self.effective_relation_required[relation]
    }
}

fn root_of(d: &GraphDefinition) -> (r: Option<usize>)
    ensures
        r matches Some(i) ==> spec_root(*d) == Some(i as int) && i < d.sources@.len(),
        r is None ==> spec_root(*d) is None,
{
    let r = crate::analysis::index::root_index(d);
    proof {
        crate::analysis::index::lemma_first_key_range(
            crate::analysis::index::source_keys(*d),
            d.root@,
        );
    }
    r
}

fn nullable_sources(d: &GraphDefinition, paths: &Vec<Option<Vec<usize>>>) -> (r: Vec<bool>)
    requires
        forall|s: int|
            0 <= s < paths@.len() ==> match #[trigger] paths@[s] {
                Some(p) => forall|i: int| 0 <= i < p@.len() ==> (#[trigger] p@[i]) < d.relations@.len(),
                None => true,
            },
    ensures
        r@.len() == paths@.len(),
        forall|s: int| 0 <= s < paths@.len() ==> #[trigger] r@[s] == spec_source_nullable(*d, paths@[s]),
{
    let mut r: Vec<bool> = Vec::new();
    let mut s: usize = 0;
    while s < paths.len()
        invariant
            s <= paths@.len(),
            r@.len() == s,
            forall|x: int|
                0 <= x < paths@.len() ==> match #[trigger] paths@[x] {
                    Some(p) => forall|i: int| 0 <= i < p@.len() ==> (#[trigger] p@[i]) < d.relations@.len(),
                    None => true,
                },
            forall|x: int| 0 <= x < s ==> #[trigger] r@[x] == spec_source_nullable(*d, paths@[x]),
        decreases paths.len() - s,
    {
        let mut value = false;
        match &paths[s] {
            Some(p) => {
                let mut i: usize = 0;
                while i < p.len()
                    invariant
                        paths@[s as int] == Some(*p),
                        forall|k: int| 0 <= k < p@.len() ==> (#[trigger] p@[k]) < d.relations@.len(),
                        i <= p@.len(),
                        value == exists|k: int| 0 <= k < i && !d.relations@[#[trigger] p@[k] as int].required,
                    decreases p.len() - i,
                {
                    if !d.relations[p[i]].required {
                        value = true;
                    }
                    i = i + 1;
                }
            },
            None => {},
        }
        r.push(value);
        s = s + 1;
    }
    r
}

fn effective_required(d: &GraphDefinition, paths: &Vec<Option<Vec<usize>>>, tos: &Vec<Option<usize>>) -> (r: Vec<bool>)
    requires
        tos@.len() == d.relations@.len(),
        paths@.len() == d.sources@.len(),
        forall|i: int|
            0 <= i < d.relations@.len() ==> match #[trigger] tos@[i] {
                Some(x) => to_of(*d, i) == Some(x as int) && x < d.sources@.len(),
                None => to_of(*d, i) is None,
            },
        forall|s: int|
            0 <= s < paths@.len() ==> match #[trigger] paths@[s] {
                Some(p) => forall|i: int| 0 <= i < p@.len() ==> (#[trigger] p@[i]) < d.relations@.len(),
                None => true,
            },
    ensures
        r@.len() == d.relations@.len(),
        forall|x: int| 0 <= x < d.relations@.len() ==> #[trigger] r@[x] == spec_effectively_required(*d, paths@, x),
{
    let mut r: Vec<bool> = Vec::new();
    let mut x: usize = 0;
    while x < d.relations.len()
        invariant
            x <= d.relations@.len(),
            r@.len() == x,
            tos@.len() == d.relations@.len(),
            paths@.len() == d.sources@.len(),
            forall|i: int|
                0 <= i < d.relations@.len() ==> match #[trigger] tos@[i] {
                    Some(y) => to_of(*d, i) == Some(y as int) && y < d.sources@.len(),
                    None => to_of(*d, i) is None,
                },
            forall|s: int|
                0 <= s < paths@.len() ==> match #[trigger] paths@[s] {
                    Some(p) => forall|i: int| 0 <= i < p@.len() ==> (#[trigger] p@[i]) < d.relations@.len(),
                    None => true,
                },
            forall|y: int| 0 <= y < x ==> #[trigger] r@[y] == spec_effectively_required(*d, paths@, y),
        decreases d.relations.len() - x,
    {
        let mut value = false;
        match tos[x] {
            Some(t) => match &paths[t] {
                Some(p) => {
                    value = true;
                    let mut i: usize = 0;
                    while i < p.len()
                        invariant
                            paths@[t as int] == Some(*p),
                            forall|k: int| 0 <= k < p@.len() ==> (#[trigger] p@[k]) < d.relations@.len(),
                            i <= p@.len(),
                            value == forall|k: int| 0 <= k < i ==> d.relations@[#[trigger] p@[k] as int].required,
                        decreases p.len() - i,
                    {
                        if !d.relations[p[i]].required {
                            value = false;
                        }
                        i = i + 1;
                    }
                },
                None => {},
            },
            None => {},
        }
        r.push(value);
        x = x + 1;
    }
    r
}

} // verus!
