//! Trusted interface to `rangemap::RangeMap`, the ordered interval map that
//! backs the generation registry.
//!
//! The map is modelled by `rm_seq`: the sequence of `(start, end, value)`
//! triples of its stored ranges, in ascending key order, exactly as
//! `RangeMap::iter` yields them. Each wrapper states over that model what the
//! crate's source shows of one method.

use vstd::prelude::*;

verus! {

#[verifier::external_type_specification]
#[verifier::external_body]
#[verifier::reject_recursive_types(K)]
#[verifier::reject_recursive_types(V)]
pub struct ExRangeMap<K, V>(rangemap::RangeMap<K, V>);

/// The stored ranges of the map as `(start, end, value)` triples in ascending
/// key order, as `RangeMap::iter` yields them.
pub uninterp spec fn rm_seq(m: rangemap::RangeMap<u32, u64>) -> Seq<(u32, u32, u64)>;

/// The triples are non-empty ranges in ascending, pairwise disjoint order.
pub open spec fn rm_sorted(s: Seq<(u32, u32, u64)>) -> bool {
    &&& forall|i: int| 0 <= i < s.len() ==> (#[trigger] s[i]).0 < s[i].1
    &&& forall|i: int| 0 <= i < s.len() - 1 ==> (#[trigger] s[i]).1 <= s[i + 1].0
}

/// The value of the first triple whose range contains `key`.
pub open spec fn spec_range_find(s: Seq<(u32, u32, u64)>, key: int) -> Option<u64>
    decreases s.len(),
{
    if s.len() == 0 {
        None
    } else if s[0].0 <= key < s[0].1 {
        Some(s[0].2)
    } else {
        spec_range_find(s.drop_first(), key)
    }
}

/// In a sorted triple sequence every earlier range ends at or before a later
/// range's start.
pub proof fn lemma_sorted_pair(s: Seq<(u32, u32, u64)>, i: int, j: int)
    requires
        rm_sorted(s),
        0 <= i < j < s.len(),
    ensures
        s[i].1 <= s[j].0,
    decreases j - i,
{
    if i + 1 < j {
        lemma_sorted_pair(s, i, j - 1);
    }
}

/// Relies on `RangeMap::new`: makes an empty map.
#[verifier::external_body]
pub(crate) fn rm_new() -> (m: rangemap::RangeMap<u32, u64>)
    ensures
        rm_seq(m) == Seq::<(u32, u32, u64)>::empty(),
{
    rangemap::RangeMap::new()
}

/// Relies on `Clone` of `RangeMap`: the copy stores the same ranges.
#[verifier::external_body]
pub(crate) fn rm_clone(m: &rangemap::RangeMap<u32, u64>) -> (r: rangemap::RangeMap<u32, u64>)
    ensures
        rm_seq(r) == rm_seq(*m),
{
    m.clone()
}

/// Relies on `RangeMap::insert`: a range inserted after every stored range is
/// appended; one covering exactly the last stored range replaces it. The
/// preconditions keep the call away from `insert`'s panic on an empty range
/// and from its coalescing of touching equal-valued ranges.
#[verifier::external_body]
pub(crate) fn rm_insert(m: &mut rangemap::RangeMap<u32, u64>, start: u32, end: u32, value: u64)
    requires
        start < end,
        rm_sorted(rm_seq(*old(m))),
        rm_seq(*old(m)).len() > 0 ==> {
            let last = rm_seq(*old(m)).last();
            ||| (last.1 <= start && (last.1 == start ==> last.2 != value))
            ||| {
                &&& last.0 == start
                &&& start < last.1 <= end
                &&& (rm_seq(*old(m)).len() > 1 ==> {
                    let prev = rm_seq(*old(m))[rm_seq(*old(m)).len() - 2];
                    prev.1 == start ==> prev.2 != value
                })
            }
        },
    ensures
        (rm_seq(*old(m)).len() == 0 || rm_seq(*old(m)).last().1 <= start) ==> rm_seq(*final(m))
            == rm_seq(*old(m)).push((start, end, value)),
        (rm_seq(*old(m)).len() > 0 && rm_seq(*old(m)).last().0 == start && start < rm_seq(
            *old(m),
        ).last().1) ==> rm_seq(*final(m)) == rm_seq(*old(m)).update(
            rm_seq(*old(m)).len() - 1,
            (start, end, value),
        ),
{
    m.insert(start..end, value);
}

/// Relies on `RangeMap::remove`: removing exactly the last stored range drops
/// it and leaves the others untouched. The preconditions keep the call away
/// from `remove`'s panic on an empty range.
#[verifier::external_body]
pub(crate) fn rm_remove(m: &mut rangemap::RangeMap<u32, u64>, start: u32, end: u32)
    requires
        start < end,
        rm_sorted(rm_seq(*old(m))),
        rm_seq(*old(m)).len() > 0,
        rm_seq(*old(m)).last().0 == start,
        rm_seq(*old(m)).last().1 == end,
    ensures
        rm_seq(*final(m)) == rm_seq(*old(m)).drop_last(),
{
    m.remove(start..end);
}

/// Relies on `RangeMap::get`: the value of the stored range containing the
/// key, or nothing.
#[verifier::external_body]
pub(crate) fn rm_get(m: &rangemap::RangeMap<u32, u64>, key: u32) -> (r: Option<u64>)
    requires
        rm_sorted(rm_seq(*m)),
    ensures
        r == spec_range_find(rm_seq(*m), key as int),
{
    m.get(&key).copied()
}

/// Relies on `RangeMap::last_range_value`: the stored range with the maximum
/// key, which is the last triple of the model.
#[verifier::external_body]
pub(crate) fn rm_last(m: &rangemap::RangeMap<u32, u64>) -> (r: Option<(u32, u32, u64)>)
    ensures
        rm_seq(*m).len() == 0 ==> r is None,
        rm_seq(*m).len() > 0 ==> r == Some(rm_seq(*m).last()),
{
    m.last_range_value().map(|(range, value)| (range.start, range.end, *value))
}

/// Relies on `RangeMap::iter`: all stored ranges in ascending key order.
#[verifier::external_body]
pub(crate) fn rm_to_vec(m: &rangemap::RangeMap<u32, u64>) -> (r: Vec<(u32, u32, u64)>)
    ensures
        r@ == rm_seq(*m),
{
    m.iter().map(|(range, value)| (range.start, range.end, *value)).collect()
}

} // verus!
