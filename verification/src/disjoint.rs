//! Disjoint sets over `0..n`, kept by the `union_find` crate.
//!
//! The verifier cannot look inside the structure. What it knows of it is
//! the root of every key, and what the crate's operations do to those
//! roots.

use union_find::{QuickUnionUf, UnionBySize, UnionFind};
use vstd::prelude::*;

verus! {

/// `union_find::QuickUnionUf`, the structure itself. Nothing of its inside
/// is known here.
#[verifier::external_type_specification]
#[verifier::external_body]
#[verifier::reject_recursive_types(V)]
pub struct ExQuickUnionUf<V>(QuickUnionUf<V>);

/// `union_find::UnionBySize`, what the structure keeps for each set.
#[verifier::external_type_specification]
#[verifier::external_body]
pub struct ExUnionBySize(UnionBySize);

/// The root of every key of `sets`: `set_roots(sets)[k]` is the identifier of
/// the set that holds `k`, which is one of that set's keys.
pub uninterp spec fn set_roots(sets: QuickUnionUf<UnionBySize>) -> Seq<usize>;

/// The roots after the sets rooted at `r0` and `r1` became one set rooted at
/// `joined`: every key of either set moves to `joined`, all others stay.
pub open spec fn merged_roots(roots: Seq<usize>, r0: usize, r1: usize, joined: usize) -> Seq<usize> {
    Seq::new(
        roots.len(),
        |k: int|
            if roots[k] == r0 || roots[k] == r1 {
                joined
            } else {
                roots[k]
            },
    )
}

/// `UnionFind::new` for `QuickUnionUf<UnionBySize>`: `len` sets of one key
/// each, so every key is its own root.
#[verifier::external_body]
pub(crate) fn singletons(len: usize) -> (sets: QuickUnionUf<UnionBySize>)
    ensures
        set_roots(sets) == Seq::new(len as nat, |k: int| k as usize),
{
    QuickUnionUf::<UnionBySize>::new(len)
}

/// `UnionFind::union`: joins the sets of the two keys. The joined set keeps
/// the root of one of the two (the crate picks the larger set's); keys of
/// other sets keep theirs. The result tells whether the two were apart.
/// The crate indexes by key, so both keys must exist.
#[verifier::external_body]
pub(crate) fn join(sets: &mut QuickUnionUf<UnionBySize>, key0: usize, key1: usize) -> (apart: bool)
    requires
        key0 < set_roots(*old(sets)).len(),
        key1 < set_roots(*old(sets)).len(),
    ensures
        apart == (set_roots(*old(sets))[key0 as int] != set_roots(*old(sets))[key1 as int]),
        exists|joined: usize|
            (joined == set_roots(*old(sets))[key0 as int] || joined == set_roots(*old(sets))[key1 as int])
            && set_roots(*final(sets)) == merged_roots(
                set_roots(*old(sets)),
                set_roots(*old(sets))[key0 as int],
                set_roots(*old(sets))[key1 as int],
                joined,
            ),
{
    sets.union(key0, key1)
}

/// `UnionFind::find`: the root of the key's set. The crate shortens paths
/// on the way, which moves no key to another set.
#[verifier::external_body]
pub(crate) fn root_of(sets: &mut QuickUnionUf<UnionBySize>, key: usize) -> (root: usize)
    requires
        key < set_roots(*old(sets)).len(),
    ensures
        root == set_roots(*old(sets))[key as int],
        set_roots(*final(sets)) == set_roots(*old(sets)),
{
    sets.find(key)
}

} // verus!
