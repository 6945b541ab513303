use vstd::bytes::*;
use vstd::prelude::*;
use vstd::slice::slice_subrange;

verus! {

/// The index of a color fragment in the color table.
///
/// The fragment at index 0 is reserved: it holds the magic header record and
/// acts as the "no parent" sentinel in parent pointers. Real fragment indexes
/// start at 1.
#[derive(Clone, Copy, Debug, Hash, PartialEq, Eq, Structural)]
pub struct ColorFragmentIndex(pub u32);

impl ColorFragmentIndex {
    /// The index advanced by `other` slots.
    pub fn plus(self, other: u32) -> (r: Self)
        requires
            self.0 + other <= u32::MAX,
        ensures
            r.0 == self.0 + other,
    {
        ColorFragmentIndex(self.0 + other)
    }

    /// The color id aliasing this index.
    pub fn to_color_id(self) -> (r: ColorId)
        ensures
            r.0 == self.0,
    {
        ColorId(self.0)
    }
}

/// An identifier for a color class.
///
/// Each color class has a unique, immutable identifier: the index of the
/// class's current head fragment. The color class with id `0` is reserved as
/// the null color class, and is empty.
#[derive(Clone, Copy, Debug, Hash, PartialEq, Eq, Structural)]
pub struct ColorId(pub u32);

impl ColorId {
    /// Create a new `ColorId` from the given u32 value.
    pub fn new(id: u32) -> (r: Self)
        ensures
            r.0 == id,
    {
        ColorId(id)
    }

    /// Get the underlying u32 value (file offset) of the color id.
    pub fn as_u32(&self) -> (r: u32)
        ensures
            r == self.0,
    {
        self.0
    }

    /// The fragment index aliasing this id.
    pub fn to_index(self) -> (r: ColorFragmentIndex)
        ensures
            r.0 == self.0,
    {
        ColorFragmentIndex(self.0)
    }
}

/// A color fragment in the color table.
///
/// Each fragment contributes a "partial color" (32 bits of sample membership
/// for one generation's window) and points to the fragment immediately
/// preceding it in the same class's chain, or to 0 if it is the chain's root.
#[derive(Clone, Copy, Debug, PartialEq, Eq, Structural)]
pub struct ColorFragment {
    pub parent_pointer: ColorFragmentIndex,
    pub color: u32,
}

/// The size in bytes of one fragment record on disk.
pub const FRAGMENT_SIZE: usize = 8;

/// The on-disk bytes of one record: parent pointer then partial color, both
/// little-endian.
pub open spec fn spec_fragment_bytes(f: ColorFragment) -> Seq<u8> {
    spec_u32_to_le_bytes(f.parent_pointer.0) + spec_u32_to_le_bytes(f.color)
}

/// The record decoded from 8 on-disk bytes.
pub open spec fn spec_fragment_of(s: Seq<u8>) -> ColorFragment
    recommends
        s.len() == 8,
{
    ColorFragment {
        parent_pointer: ColorFragmentIndex(spec_u32_from_le_bytes(s.subrange(0, 4))),
        color: spec_u32_from_le_bytes(s.subrange(4, 8)),
    }
}

/// Every record encodes to exactly 8 bytes.
pub proof fn lemma_fragment_bytes_len(f: ColorFragment)
    ensures
        spec_fragment_bytes(f).len() == 8,
{
    lemma_auto_spec_u32_to_from_le_bytes();
}

/// A record survives the trip through its on-disk encoding, and 8 arbitrary
/// bytes survive the trip through the record they decode to.
pub proof fn lemma_fragment_round_trip(f: ColorFragment, s: Seq<u8>)
    requires
        s.len() == 8,
    ensures
        spec_fragment_bytes(f).len() == 8,
        spec_fragment_of(spec_fragment_bytes(f)) == f,
        spec_fragment_bytes(spec_fragment_of(s)) == s,
{
    lemma_auto_spec_u32_to_from_le_bytes();
    let b = spec_fragment_bytes(f);
    assert(b.subrange(0, 4) =~= spec_u32_to_le_bytes(f.parent_pointer.0));
    assert(b.subrange(4, 8) =~= spec_u32_to_le_bytes(f.color));
    let g = spec_fragment_of(s);
    assert(spec_fragment_bytes(g) =~= s);
}

/// Encode one record as its 8 on-disk bytes.
pub fn fragment_to_bytes(f: &ColorFragment) -> (r: Vec<u8>)
    ensures
        r@ == spec_fragment_bytes(*f),
        r@.len() == 8,
{
    let mut out = u32_to_le_bytes(f.parent_pointer.0);
    let mut tail = u32_to_le_bytes(f.color);
    out.append(&mut tail);
    out
}

/// Decode one record from its 8 on-disk bytes.
pub fn fragment_from_bytes(s: &[u8]) -> (r: ColorFragment)
    requires
        s@.len() == 8,
    ensures
        r == spec_fragment_of(s@),
{
    let parent = u32_from_le_bytes(slice_subrange(s, 0, 4));
    let color = u32_from_le_bytes(slice_subrange(s, 4, 8));
    ColorFragment { parent_pointer: ColorFragmentIndex(parent), color }
}

/// The magic header record stored at index 0 of every table file: the ASCII
/// tag "CTBL", a zero byte, and a format version field, read as one record.
pub open spec fn spec_magic_fragment() -> ColorFragment {
    ColorFragment { parent_pointer: ColorFragmentIndex(0x4C425443u32), color: 0x01000000u32 }
}

/// The magic header record.
pub fn magic_fragment() -> (r: ColorFragment)
    ensures
        r == spec_magic_fragment(),
{
    ColorFragment { parent_pointer: ColorFragmentIndex(0x4C425443u32), color: 0x01000000u32 }
}

} // verus!
