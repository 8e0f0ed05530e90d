//! Stable ordering of integer keys.

use itertools::Itertools;
use vstd::prelude::*;

verus! {

/// A key by which nodes are ordered: a stake or weight, then the two halves
/// of a public key. Keys compare lexicographically.
pub type SortKey = (u64, u128, u128);

/// Whether `a` comes strictly before `b`.
pub open spec fn key_lt(a: SortKey, b: SortKey) -> bool {
    a.0 < b.0 || (a.0 == b.0 && (a.1 < b.1 || (a.1 == b.1 && a.2 < b.2)))
}

/// Whether `order` lists the positions of `keys` in ascending order of key,
/// positions of equal keys in ascending order of position.
pub open spec fn is_stable_argsort(keys: Seq<SortKey>, order: Seq<usize>) -> bool {
    &&& order.len() == keys.len()
    &&& forall|i: int| 0 <= i < order.len() ==> (#[trigger] order[i]) < keys.len()
    &&& forall|k: usize| k < keys.len() ==> #[trigger] order.contains(k)
    &&& forall|i: int, j: int|
        0 <= i < j < order.len() ==> !key_lt(
            keys[#[trigger] order[j] as int],
            keys[#[trigger] order[i] as int],
        )
    &&& forall|i: int, j: int|
        0 <= i < j < order.len() && keys[#[trigger] order[i] as int] == keys[#[trigger] order[j] as int]
            ==> order[i] < order[j]
}

/// `Itertools::sorted_by_key` over the positions of `keys`: the positions in
/// ascending order of their keys. The sort is stable, so positions with equal
/// keys keep their order, and every position comes out exactly once.
#[verifier::external_body]
pub(crate) fn stable_argsort(keys: &Vec<SortKey>) -> (order: Vec<usize>)
    ensures
        is_stable_argsort(keys@, order@),
{
    keys.iter().enumerate().sorted_by_key(|(_, key)| **key).map(|(i, _)| i).collect()
}

} // verus!
