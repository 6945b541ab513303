//! Materializing a class chain: turning `(partial color, generation)` pairs
//! into sample indices, and sample indices into a compressed bitmap.

use crate::roaring_api::{rb_insert, rb_new, rb_set};
use vstd::prelude::*;

verus! {

/// The sample indices contributed by bits `b..32` of one partial color:
/// `generation * 32 + bit` for every set bit.
pub open spec fn spec_bit_indices(color: u32, g: u64, b: int) -> Seq<u64>
    decreases 32 - b,
{
    if b < 0 || b >= 32 {
        Seq::<u64>::empty()
    } else {
        let rest = spec_bit_indices(color, g, b + 1);
        if (color >> (b as u32)) & 1 == 1 {
            seq![(g * 32 + b) as u64] + rest
        } else {
            rest
        }
    }
}

/// The sample indices of a whole chain, pair by pair.
pub open spec fn spec_class_indices(pairs: Seq<(u32, u64)>) -> Seq<u64>
    decreases pairs.len(),
{
    if pairs.len() == 0 {
        Seq::<u64>::empty()
    } else {
        spec_bit_indices(pairs[0].0, pairs[0].1, 0) + spec_class_indices(pairs.drop_first())
    }
}

/// Appending one pair appends its indices.
proof fn lemma_class_indices_push(pairs: Seq<(u32, u64)>, x: (u32, u64))
    ensures
        spec_class_indices(pairs.push(x)) == spec_class_indices(pairs) + spec_bit_indices(
            x.0,
            x.1,
            0,
        ),
    decreases pairs.len(),
{
    if pairs.len() == 0 {
        let e = Seq::<(u32, u64)>::empty();
        assert(pairs =~= e);
        assert(pairs.push(x)[0] == x);
        assert(pairs.push(x).drop_first() =~= e);
        assert(spec_class_indices(e) == Seq::<u64>::empty());
        assert(spec_class_indices(pairs.push(x)) == spec_bit_indices(x.0, x.1, 0)
            + spec_class_indices(e));
        assert(spec_class_indices(pairs.push(x)) =~= spec_class_indices(pairs)
            + spec_bit_indices(x.0, x.1, 0));
    } else {
        assert(pairs.push(x).drop_first() =~= pairs.drop_first().push(x));
        lemma_class_indices_push(pairs.drop_first(), x);
        assert(pairs.push(x)[0] == pairs[0]);
        assert(spec_class_indices(pairs.push(x)) == spec_bit_indices(pairs[0].0, pairs[0].1, 0)
            + spec_class_indices(pairs.drop_first().push(x)));
        assert(spec_class_indices(pairs.push(x)) == spec_bit_indices(pairs[0].0, pairs[0].1, 0) + (
        spec_class_indices(pairs.drop_first()) + spec_bit_indices(x.0, x.1, 0)));
        assert(spec_class_indices(pairs) == spec_bit_indices(pairs[0].0, pairs[0].1, 0)
            + spec_class_indices(pairs.drop_first()));
        assert(spec_class_indices(pairs.push(x)) =~= spec_class_indices(pairs)
            + spec_bit_indices(x.0, x.1, 0));
    }
}

/// Convert chain pairs into a vector of sample indices.
///
/// For each pair, bit `b` of the partial color contributes sample index
/// `generation * 32 + b`. Indices are NOT sorted: they come most recent
/// generation first, ascending bit order within a generation.
pub fn into_indices(pairs: &Vec<(u32, u64)>) -> (r: Vec<u64>)
    requires
        forall|k: int|
            0 <= k < pairs@.len() ==> (#[trigger] pairs@[k]).1 <= (u64::MAX - 31) / 32,
    ensures
        r@ == spec_class_indices(pairs@),
{
    let mut out: Vec<u64> = Vec::new();
    let mut i: usize = 0;
    while i < pairs.len()
        invariant
            i <= pairs@.len(),
            forall|k: int|
                0 <= k < pairs@.len() ==> (#[trigger] pairs@[k]).1 <= (u64::MAX - 31) / 32,
            out@ == spec_class_indices(pairs@.take(i as int)),
        decreases pairs@.len() - i,
    {
        let (color, g) = pairs[i];
        let ghost base = out@;
        let mut b: u32 = 0;
        while b < 32
            invariant
                b <= 32,
                g <= (u64::MAX - 31) / 32,
                out@ + spec_bit_indices(color, g, b as int) == base + spec_bit_indices(
                    color,
                    g,
                    0,
                ),
            decreases 32 - b,
        {
            let ghost prev = out@;
            let ghost bprev = b as int;
            if (color >> b) & 1 == 1 {
                out.push(g * 32 + (b as u64));
            }
            b += 1;
            proof {
                if (color >> (bprev as u32)) & 1 == 1 {
                    assert(spec_bit_indices(color, g, bprev) == seq![(g * 32 + bprev) as u64]
                        + spec_bit_indices(color, g, bprev + 1));
                    assert(out@ + spec_bit_indices(color, g, b as int) =~= prev
                        + spec_bit_indices(color, g, bprev));
                } else {
                    assert(spec_bit_indices(color, g, bprev) == spec_bit_indices(
                        color,
                        g,
                        bprev + 1,
                    ));
                }
            }
        }
        proof {
            assert(spec_bit_indices(color, g, 32) == Seq::<u64>::empty());
            assert(out@ =~= base + spec_bit_indices(color, g, 0));
        }
        i += 1;
        proof {
            assert(pairs@.take(i as int) =~= pairs@.take(i - 1).push((color, g)));
            lemma_class_indices_push(pairs@.take(i - 1), (color, g));
            assert(out@ =~= spec_class_indices(pairs@.take(i as int)));
        }
    }
    proof {
        assert(pairs@.take(pairs@.len() as int) =~= pairs@);
    }
    out
}

/// The stored values of a bitmap built from the given indices, each taken
/// modulo the 32-bit space.
pub open spec fn spec_index_set(s: Seq<u64>) -> Set<u32>
    decreases s.len(),
{
    if s.len() == 0 {
        Set::<u32>::empty()
    } else {
        spec_index_set(s.drop_last()).insert(s.last() as u32)
    }
}

/// A bitmap built from finitely many inserts stays finite.
proof fn lemma_index_set_finite(s: Seq<u64>)
    ensures
        spec_index_set(s).finite(),
    decreases s.len(),
{
    if s.len() > 0 {
        lemma_index_set_finite(s.drop_last());
    }
}

/// Convert a vector of sample indices into a compressed bitmap.
pub fn into_bitmap(indices: &Vec<u64>) -> (r: roaring::RoaringBitmap)
    ensures
        rb_set(r) == spec_index_set(indices@),
        rb_set(r).finite(),
{
    let mut bm = rb_new();
    let mut i: usize = 0;
    while i < indices.len()
        invariant
            i <= indices@.len(),
            rb_set(bm) == spec_index_set(indices@.take(i as int)),
        decreases indices@.len() - i,
    {
        let idx = indices[i];
        rb_insert(&mut bm, #[verifier::truncate] (idx as u32));
        i += 1;
        proof {
            assert(indices@.take(i as int).drop_last() =~= indices@.take(i - 1));
            assert(indices@.take(i as int).last() == idx);
        }
    }
    proof {
        assert(indices@.take(indices@.len() as int) =~= indices@);
        lemma_index_set_finite(indices@);
    }
    bm
}

} // verus!
