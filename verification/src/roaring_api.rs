//! Trusted interface to `roaring::RoaringBitmap`, the compressed bitmap that
//! class chains materialize into.
//!
//! The bitmap is modelled by `rb_set`: the set of 32-bit values it stores.

use vstd::prelude::*;

verus! {

#[verifier::external_type_specification]
#[verifier::external_body]
pub struct ExRoaringBitmap(roaring::RoaringBitmap);

/// The set of values the bitmap stores.
pub uninterp spec fn rb_set(bm: roaring::RoaringBitmap) -> Set<u32>;

/// Relies on `RoaringBitmap::new`: makes an empty bitmap.
#[verifier::external_body]
pub(crate) fn rb_new() -> (r: roaring::RoaringBitmap)
    ensures
        rb_set(r) == Set::<u32>::empty(),
{
    roaring::RoaringBitmap::new()
}

/// Relies on `RoaringBitmap::insert`: stores the value, and tells whether it
/// was absent before.
#[verifier::external_body]
pub(crate) fn rb_insert(bm: &mut roaring::RoaringBitmap, value: u32) -> (r: bool)
    ensures
        rb_set(*final(bm)) == rb_set(*old(bm)).insert(value),
        r == !rb_set(*old(bm)).contains(value),
{
    bm.insert(value)
}

} // verus!
