//! Connectivity of an undirected graph given by its edge list.
//!
//! The specification speaks of walks; the executable check joins the two
//! ends of every edge in a disjoint-set structure and then compares roots.

use crate::disjoint::{join, root_of, set_roots, singletons};
use itertools::Itertools;
use union_find::{QuickUnionUf, UnionBySize};
use vstd::prelude::*;
use vstd::seq_lib::seq_to_set_is_finite;
use vstd::set::axiom_set_remove_len;
use vstd::set_lib::lemma_len_subset;

verus! {

/// `edge` links `a` and `b`, in either direction.
pub open spec fn touches(edge: (usize, usize), a: int, b: int) -> bool {
    (edge.0 == a && edge.1 == b) || (edge.0 == b && edge.1 == a)
}

/// Some edge links `a` and `b`.
pub open spec fn adjacent(edges: Seq<(usize, usize)>, a: int, b: int) -> bool {
    exists|k: int| 0 <= k < edges.len() && touches(#[trigger] edges[k], a, b)
}

/// `walk` is a non-empty list of nodes, each adjacent to the next.
pub open spec fn is_walk(edges: Seq<(usize, usize)>, walk: Seq<int>) -> bool {
    &&& walk.len() > 0
    &&& forall|t: int| 0 <= t < walk.len() - 1 ==> adjacent(edges, #[trigger] walk[t], walk[t + 1])
}

/// A walk leads from `a` to `b`.
pub open spec fn reachable(edges: Seq<(usize, usize)>, a: int, b: int) -> bool {
    exists|walk: Seq<int>| #[trigger] is_walk(edges, walk) && walk[0] == a && walk.last() == b
}

/// The nodes `0..n` form a single component: each reaches every other.
pub open spec fn connected(n: nat, edges: Seq<(usize, usize)>) -> bool {
    forall|a: int, b: int| 0 <= a < n && 0 <= b < n ==> #[trigger] reachable(edges, a, b)
}

/// Every end of every edge is one of the nodes `0..n`.
pub open spec fn edges_within(n: nat, edges: Seq<(usize, usize)>) -> bool {
    forall|k: int| 0 <= k < edges.len() ==> (#[trigger] edges[k]).0 < n && edges[k].1 < n
}

/// Every node reaches itself.
pub proof fn lemma_reachable_refl(edges: Seq<(usize, usize)>, a: int)
    ensures
        reachable(edges, a, a),
{
    let walk = seq![a];
    assert(is_walk(edges, walk));
}

/// The two ends of an edge reach each other.
pub proof fn lemma_reachable_edge(edges: Seq<(usize, usize)>, k: int)
    requires
        0 <= k < edges.len(),
    ensures
        reachable(edges, edges[k].0 as int, edges[k].1 as int),
{
    let a = edges[k].0 as int;
    let b = edges[k].1 as int;
    let walk = seq![a, b];
    assert(is_walk(edges, walk));
}

/// A walk read backwards is a walk.
pub proof fn lemma_reachable_sym(edges: Seq<(usize, usize)>, a: int, b: int)
    requires
        reachable(edges, a, b),
    ensures
        reachable(edges, b, a),
{
    let walk = choose|walk: Seq<int>| #[trigger] is_walk(edges, walk) && walk[0] == a && walk.last() == b;
    let back = walk.reverse();
    assert(is_walk(edges, back));
}

/// Two walks that meet make one walk.
pub proof fn lemma_reachable_trans(edges: Seq<(usize, usize)>, a: int, b: int, c: int)
    requires
        reachable(edges, a, b),
        reachable(edges, b, c),
    ensures
        reachable(edges, a, c),
{
    let first = choose|walk: Seq<int>| #[trigger] is_walk(edges, walk) && walk[0] == a && walk.last() == b;
    let second = choose|walk: Seq<int>| #[trigger] is_walk(edges, walk) && walk[0] == b && walk.last() == c;
    let whole = first + second.subrange(1, second.len() as int);
    assert(is_walk(edges, whole));
}

/// One more edge takes no walk away.
pub proof fn lemma_reachable_grows(edges: Seq<(usize, usize)>, edge: (usize, usize), a: int, b: int)
    requires
        reachable(edges, a, b),
    ensures
        reachable(edges.push(edge), a, b),
{
    let walk = choose|walk: Seq<int>| #[trigger] is_walk(edges, walk) && walk[0] == a && walk.last() == b;
    let more = edges.push(edge);
    assert forall|t: int| 0 <= t < walk.len() - 1 implies adjacent(more, #[trigger] walk[t], walk[t + 1]) by {
        let k = choose|k: int| 0 <= k < edges.len() && touches(#[trigger] edges[k], walk[t], walk[t + 1]);
        assert(more[k] == edges[k]);
    }
    assert(is_walk(more, walk));
}

/// Where the two ends of every edge share a root, so do the two ends of
/// every walk.
pub proof fn lemma_walk_keeps_root(edges: Seq<(usize, usize)>, roots: Seq<usize>, walk: Seq<int>)
    requires
        is_walk(edges, walk),
        forall|k: int| 0 <= k < edges.len() ==> roots[(#[trigger] edges[k]).0 as int] == roots[edges[k].1 as int],
    ensures
        roots[walk[0]] == roots[walk.last()],
    decreases walk.len(),
{
    if walk.len() > 1 {
        let shorter = walk.drop_last();
        lemma_walk_keeps_root(edges, roots, shorter);
        assert(adjacent(edges, walk[walk.len() - 2], walk[walk.len() - 1]));
    }
}

/// A label for every node, such that nodes that the edges link have the same
/// label: each node starts with itself for a label, and each edge in turn
/// gives all nodes with the label of its one end the label of its other.
pub open spec fn labels(edges: Seq<(usize, usize)>) -> spec_fn(int) -> int
    decreases edges.len(),
{
    if edges.len() == 0 {
        |node: int| node
    } else {
        let before = labels(edges.drop_last());
        let from = before(edges.last().0 as int);
        let to = before(edges.last().1 as int);
        |node: int|
            if before(node) == from {
                to
            } else {
                before(node)
            }
    }
}

/// The labels that the nodes `0..n` have.
pub open spec fn labels_used(n: nat, edges: Seq<(usize, usize)>) -> Set<int> {
    Seq::new(n, |node: int| labels(edges)(node)).to_set()
}

proof fn lemma_edge_ends_share_label(edges: Seq<(usize, usize)>, k: int)
    requires
        0 <= k < edges.len(),
    ensures
        labels(edges)(edges[k].0 as int) == labels(edges)(edges[k].1 as int),
    decreases edges.len(),
{
    if k < edges.len() - 1 {
        lemma_edge_ends_share_label(edges.drop_last(), k);
    }
}

proof fn lemma_walk_keeps_label(edges: Seq<(usize, usize)>, walk: Seq<int>)
    requires
        is_walk(edges, walk),
    ensures
        labels(edges)(walk[0]) == labels(edges)(walk.last()),
    decreases walk.len(),
{
    if walk.len() > 1 {
        let shorter = walk.drop_last();
        assert(is_walk(edges, shorter)) by {
            assert forall|t: int| 0 <= t < shorter.len() - 1 implies adjacent(edges, #[trigger] shorter[t], shorter[t + 1]) by {
                assert(shorter[t] == walk[t]);
                assert(shorter[t + 1] == walk[t + 1]);
            }
        }
        lemma_walk_keeps_label(edges, shorter);
        let last = walk.len() - 2;
        assert(adjacent(edges, walk[last], walk[last + 1]));
        let k = choose|k: int| 0 <= k < edges.len() && touches(#[trigger] edges[k], walk[last], walk[last + 1]);
        lemma_edge_ends_share_label(edges, k);
    }
}

/// Each edge takes at most one label away from the nodes.
proof fn lemma_labels_left(n: nat, edges: Seq<(usize, usize)>)
    ensures
        labels_used(n, edges).finite(),
        labels_used(n, edges).len() + edges.len() >= n,
    decreases edges.len(),
{
    let now = Seq::new(n, |node: int| labels(edges)(node));
    seq_to_set_is_finite(now);
    if edges.len() == 0 {
        assert(now.no_duplicates());
        now.unique_seq_to_set();
    } else {
        let front = edges.drop_last();
        lemma_labels_left(n, front);
        let before = Seq::new(n, |node: int| labels(front)(node));
        let from = labels(front)(edges.last().0 as int);
        let rest = labels_used(n, front).remove(from);
        assert forall|label: int| rest.contains(label) implies labels_used(n, edges).contains(label) by {
            let node = choose|node: int| 0 <= node < before.len() && before[node] == label;
            assert(now[node] == label);
        }
        lemma_len_subset(rest, labels_used(n, edges));
        axiom_set_remove_len(labels_used(n, front), from);
    }
}

/// Nodes that form a single component are linked by at least one edge less
/// than there are nodes.
pub proof fn law_component_needs_edges(n: nat, edges: Seq<(usize, usize)>)
    requires
        connected(n, edges),
    ensures
        edges.len() + 1 >= n,
{
    lemma_labels_left(n, edges);
    let now = Seq::new(n, |node: int| labels(edges)(node));
    if n > 0 {
        let only = set![labels(edges)(0)];
        assert forall|label: int| labels_used(n, edges).contains(label) implies only.contains(label) by {
            let node = choose|node: int| 0 <= node < now.len() && now[node] == label;
            assert(reachable(edges, 0, node));
            let walk = choose|walk: Seq<int>| #[trigger] is_walk(edges, walk) && walk[0] == 0 && walk.last() == node;
            lemma_walk_keeps_label(edges, walk);
        }
        lemma_len_subset(labels_used(n, edges), only);
        assert(only.len() == 1);
    }
}

/// `Itertools::all_equal` over the items of a vector: whether no two of
/// them differ. An empty vector has no two items.
#[verifier::external_body]
fn all_equal(items: &Vec<usize>) -> (same: bool)
    ensures
        same == (forall|i: int, j: int| 0 <= i < items.len() && 0 <= j < items.len() ==> items[i] == items[j]),
{
    items.iter().all_equal()
}

/// Whether the nodes `0..n` form a single component under `edges`.
pub fn single_component(n: usize, edges: &Vec<(usize, usize)>) -> (whole: bool)
    requires
        edges_within(n as nat, edges@),
    ensures
        whole == connected(n as nat, edges@),
{
    let mut sets: QuickUnionUf<UnionBySize> = singletons(n);
    proof {
        assert forall|i: int, j: int|
            0 <= i < n && 0 <= j < n && set_roots(sets)[i] == set_roots(sets)[j] implies #[trigger] reachable(
            edges@.take(0),
            i,
            j,
        ) by {
            lemma_reachable_refl(edges@.take(0), i);
        }
    }
    let mut k: usize = 0;
    while k < edges.len()
        invariant
            k <= edges.len(),
            edges_within(n as nat, edges@),
            set_roots(sets).len() == n,
            forall|i: int, j: int|
                0 <= i < n && 0 <= j < n && set_roots(sets)[i] == set_roots(sets)[j] ==> #[trigger] reachable(
                    edges@.take(k as int),
                    i,
                    j,
                ),
            forall|t: int|
                0 <= t < k ==> set_roots(sets)[(#[trigger] edges@[t]).0 as int] == set_roots(sets)[edges@[t].1 as int],
        decreases edges.len() - k,
    {
        let (a, b) = edges[k];
        let ghost before = set_roots(sets);
        let ghost seen = edges@.take(k as int);
        let _ = join(&mut sets, a, b);
        proof {
            let after = set_roots(sets);
            let grown = edges@.take(k + 1);
            assert(grown == seen.push((a, b)));
            lemma_reachable_edge(grown, k as int);
            assert forall|i: int, j: int|
                0 <= i < n && 0 <= j < n && after[i] == after[j] implies #[trigger] reachable(grown, i, j) by {
                if before[i] == before[j] {
                    lemma_reachable_grows(seen, (a, b), i, j);
                } else {
                    // Both sit in one of the two joined sets.
                    let via_i = if before[i] == before[a as int] { a as int } else { b as int };
                    let via_j = if before[j] == before[a as int] { a as int } else { b as int };
                    lemma_reachable_grows(seen, (a, b), i, via_i);
                    lemma_reachable_grows(seen, (a, b), via_j, j);
                    lemma_reachable_sym(grown, a as int, b as int);
                    lemma_reachable_refl(grown, via_i);
                    if via_i == via_j {
                        lemma_reachable_trans(grown, i, via_i, j);
                    } else {
                        lemma_reachable_trans(grown, i, via_i, via_j);
                        lemma_reachable_trans(grown, i, via_j, j);
                    }
                }
            }
        }
        k = k + 1;
    }
    assert(edges@.take(k as int) == edges@);
    let ghost ends = set_roots(sets);
    let mut roots: Vec<usize> = Vec::new();
    let mut node: usize = 0;
    while node < n
        invariant
            node <= n,
            roots.len() == node,
            ends.len() == n,
            set_roots(sets) == ends,
            forall|i: int| 0 <= i < node ==> roots[i] == ends[i],
        decreases n - node,
    {
        let root = root_of(&mut sets, node);
        roots.push(root);
        node = node + 1;
    }
    let whole = all_equal(&roots);
    proof {
        if connected(n as nat, edges@) {
            assert forall|i: int, j: int| 0 <= i < roots.len() && 0 <= j < roots.len() implies roots[i] == roots[j] by {
                assert(reachable(edges@, i, j));
                let walk = choose|walk: Seq<int>| #[trigger] is_walk(edges@, walk) && walk[0] == i && walk.last() == j;
                lemma_walk_keeps_root(edges@, ends, walk);
            }
        }
    }
    whole
}

} // verus!
