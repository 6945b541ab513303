//! The reader: a backward chain walk over a fragment table image, yielding
//! `(partial color, generation)` pairs for a color class.
//!
//! The walk takes the raw bytes of the table (the embedding program hands in
//! its memory map) together with a registry snapshot, so readers never block
//! writers; ids at or past the mapped length simply read as empty.

use crate::errors::ColorTableError;
use crate::fragment::{
    fragment_from_bytes, spec_fragment_of, ColorFragment, ColorFragmentIndex, ColorId,
};
use crate::rangemap_api::spec_range_find;
use crate::registry::{lemma_find_monotone, wf_triples, GenerationState, Generations};
use crate::table::{spec_frags_of, ColorTable};
use vstd::prelude::*;
use vstd::slice::slice_subrange;

verus! {

/// The chain read from `idx` backward: each visited fragment contributes its
/// partial color and its registered generation. An index outside the table
/// reads as the empty chain; a fragment outside every registered generation
/// is a registry corruption; a parent pointer that does not precede its
/// fragment is an invalid reference.
pub open spec fn spec_chain(
    frags: Seq<ColorFragment>,
    tr: Seq<(u32, u32, u64)>,
    idx: int,
) -> Result<Seq<(u32, u64)>, ColorTableError>
    decreases idx,
{
    if idx <= 0 || idx >= frags.len() {
        Ok(Seq::<(u32, u64)>::empty())
    } else {
        match spec_range_find(tr, idx) {
            None => Err(ColorTableError::CorruptRegistry),
            Some(g) => {
                let f = frags[idx];
                if f.parent_pointer.0 >= idx {
                    Err(ColorTableError::InvalidColorId(f.parent_pointer.0))
                } else {
                    match spec_chain(frags, tr, f.parent_pointer.0 as int) {
                        Ok(rest) => Ok(seq![(f.color, g)] + rest),
                        Err(e) => Err(e),
                    }
                }
            },
        }
    }
}

/// Get the pairs of the color class referred to by the given color id, most
/// recent fragment first.
///
/// `data` is the byte image of the fragment table (or any mapped prefix of
/// it); `generations` is a registry snapshot. The null class and any id at
/// or past the mapped length read as empty. Results may be stale if a
/// generation is in progress; a fragment with no registered generation is
/// reported as registry corruption.
pub fn color_class(data: &[u8], generations: &Generations, color_id: &ColorId) -> (r: Result<
    Vec<(u32, u64)>,
    ColorTableError,
>)
    requires
        generations.wf(),
    ensures
        ({
            let chain = spec_chain(
                spec_frags_of(data@),
                generations.triples(),
                color_id.0 as int,
            );
            match r {
                Ok(pairs) => chain == Result::<Seq<(u32, u64)>, ColorTableError>::Ok(pairs@),
                Err(e) => chain == Result::<Seq<(u32, u64)>, ColorTableError>::Err(e),
            }
        }),
{
    let ghost frags = spec_frags_of(data@);
    let ghost tr = generations.triples();
    let ghost id0 = color_id.0 as int;
    let n = data.len() / 8;
    let start = color_id.as_u32() as usize;
    if start == 0 || start >= n {
        return Ok(Vec::new());
    }
    let mut idx: usize = start;
    let mut pairs: Vec<(u32, u64)> = Vec::new();
    while idx != 0
        invariant
            generations.wf(),
            tr == generations.triples(),
            frags == spec_frags_of(data@),
            id0 == color_id.0 as int,
            n == data@.len() / 8,
            n == frags.len(),
            data@.len() <= usize::MAX,
            idx < n,
            idx <= u32::MAX,
            ({
                match spec_chain(frags, tr, idx as int) {
                    Ok(rest) => spec_chain(frags, tr, id0) == Result::<
                        Seq<(u32, u64)>,
                        ColorTableError,
                    >::Ok(pairs@ + rest),
                    Err(e) => spec_chain(frags, tr, id0) == Result::<
                        Seq<(u32, u64)>,
                        ColorTableError,
                    >::Err(e),
                }
            }),
        decreases idx,
    {
        proof {
            assert(8 * (idx as int) + 8 <= 8 * (n as int));
            vstd::arithmetic::div_mod::lemma_fundamental_div_mod(data@.len() as int, 8);
        }
        let f = fragment_from_bytes(slice_subrange(data, 8 * idx, 8 * idx + 8));
        assert(f == frags[idx as int]);
        let g = match generations.find(&ColorFragmentIndex(idx as u32)) {
            Some(g) => g,
            None => {
                proof {
                    assert(spec_range_find(tr, idx as int) is None);
                    assert(spec_chain(frags, tr, idx as int) == Result::<
                        Seq<(u32, u64)>,
                        ColorTableError,
                    >::Err(ColorTableError::CorruptRegistry));
                }
                return Err(ColorTableError::CorruptRegistry);
            },
        };
        if f.parent_pointer.0 as usize >= idx {
            proof {
                assert(spec_range_find(tr, idx as int) == Some(g));
                assert(frags[idx as int].parent_pointer.0 >= idx);
                assert(spec_chain(frags, tr, idx as int) == Result::<
                    Seq<(u32, u64)>,
                    ColorTableError,
                >::Err(ColorTableError::InvalidColorId(frags[idx as int].parent_pointer.0)));
            }
            return Err(ColorTableError::InvalidColorId(f.parent_pointer.0));
        }
        let ghost before = pairs@;
        pairs.push((f.color, g));
        proof {
            match spec_chain(frags, tr, f.parent_pointer.0 as int) {
                Ok(rest2) => {
                    assert(before + (seq![(f.color, g)] + rest2) =~= pairs@ + rest2);
                },
                Err(_) => {},
            }
        }
        idx = f.parent_pointer.0 as usize;
    }
    proof {
        assert(spec_chain(frags, tr, 0) == Result::<Seq<(u32, u64)>, ColorTableError>::Ok(
            Seq::<(u32, u64)>::empty(),
        ));
        assert(pairs@ + Seq::<(u32, u64)>::empty() =~= pairs@);
    }
    Ok(pairs)
}

/// Bounds on the number of pairs a walk from `idx` can yield, without
/// walking: at least one pair unless the id is null, and at most one pair
/// per generation number up to the current fragment's, since generations
/// never increase along a chain.
pub fn size_hint(generations: &Generations, idx: ColorFragmentIndex) -> (r: (usize, Option<usize>))
    requires
        generations.wf(),
    ensures
        r.0 == if idx.0 == 0 {
            0int
        } else {
            1int
        },
        r.1 == match spec_range_find(generations.triples(), idx.0 as int) {
            Some(g) => if g < usize::MAX as u64 {
                Some((g + 1) as usize)
            } else {
                Option::<usize>::None
            },
            None => Option::<usize>::None,
        },
{
    let lower: usize = if idx.0 == 0 {
        0
    } else {
        1
    };
    let upper = match generations.find(&idx) {
        Some(g) => {
            if g < usize::MAX as u64 {
                Some((g + 1) as usize)
            } else {
                None
            }
        },
        None => None,
    };
    (lower, upper)
}

/// Get the parent fragment of the given fragment out of a table image, or
/// nothing if the fragment is a chain root or the parent lies past the
/// mapped length.
pub fn parent_of(data: &[u8], fragment: &ColorFragment) -> (r: Option<ColorFragment>)
    ensures
        r == ({
            let p = fragment.parent_pointer.0 as int;
            if p == 0 || p >= data@.len() / 8 {
                Option::<ColorFragment>::None
            } else {
                Some(spec_fragment_of(data@.subrange(8 * p, 8 * p + 8)))
            }
        }),
{
    let p = fragment.parent_pointer.0 as usize;
    let n = data.len() / 8;
    if p == 0 || p >= n {
        None
    } else {
        proof {
            assert(8 * (p as int) + 8 <= 8 * (n as int));
            vstd::arithmetic::div_mod::lemma_fundamental_div_mod(data@.len() as int, 8);
        }
        Some(fragment_from_bytes(slice_subrange(data, 8 * p, 8 * p + 8)))
    }
}

/// The null class reads as the empty chain, and so does any id at or past
/// the table head: an invalid id is not an error on the read path.
pub proof fn lemma_out_of_range_reads_empty(
    frags: Seq<ColorFragment>,
    tr: Seq<(u32, u32, u64)>,
    idx: int,
)
    requires
        idx == 0 || idx >= frags.len(),
    ensures
        spec_chain(frags, tr, idx) == Result::<Seq<(u32, u64)>, ColorTableError>::Ok(
            Seq::<(u32, u64)>::empty(),
        ),
{
}

/// Every fragment of a well-formed table either is a chain root or points at
/// a fragment that strictly precedes it.
pub proof fn lemma_parent_precedes(ct: ColorTable, i: int)
    requires
        ct.inv(),
        1 <= i < ct.frags().len(),
    ensures
        ct.frags()[i].parent_pointer.0 == 0 || ct.frags()[i].parent_pointer.0 < i,
{
}

/// With no generation in progress on a covered table, every fragment index
/// in `[1, head)` has a registered generation.
pub proof fn lemma_closed_find_total(ct: ColorTable, i: int)
    requires
        ct.inv(),
        ct.covers(),
        !(ct.registry().gen_state() is Open),
        1 <= i < ct.frags().len(),
    ensures
        spec_range_find(ct.registry().triples(), i) is Some,
{
    let tr = ct.registry().triples();
    match ct.registry().gen_state() {
        GenerationState::Fresh => {
            assert(false);
        },
        GenerationState::Closed(_) => {
            assert(tr.len() > 0);
            crate::registry::lemma_tiles_covered(tr, 1, i);
        },
        GenerationState::Open(_, _) => {
            assert(false);
        },
    }
}

/// On a covered table with no generation in progress, every class chain
/// reads back without error.
pub proof fn lemma_chain_total(ct: ColorTable, idx: int)
    requires
        ct.inv(),
        ct.covers(),
        !(ct.registry().gen_state() is Open),
        0 <= idx,
    ensures
        spec_chain(ct.frags(), ct.registry().triples(), idx) is Ok,
    decreases idx,
{
    let frags = ct.frags();
    let tr = ct.registry().triples();
    if idx <= 0 || idx >= frags.len() {
    } else {
        lemma_closed_find_total(ct, idx);
        lemma_chain_total(ct, frags[idx].parent_pointer.0 as int);
    }
}

/// After serializing a store's two byte images and loading them back,
/// iterating any class yields the same `(color, generation)` pairs as
/// before.
pub proof fn lemma_round_trip_preserves_chains(ct: ColorTable, id: int)
    requires
        ct.inv(),
    ensures
        ({
            let loaded = crate::table::spec_load(
                crate::table::spec_table_bytes(ct.frags()),
                crate::sidecar::spec_registry_bytes(
                    ct.registry().gen_state(),
                    ct.registry().triples(),
                ),
            );
            &&& loaded is Ok
            &&& spec_chain(loaded.unwrap().0, loaded.unwrap().2, id) == spec_chain(
                ct.frags(),
                ct.registry().triples(),
                id,
            )
        }),
{
    crate::table::lemma_store_round_trip(ct);
}

/// Generation numbers along any successfully read chain are non-increasing
/// when walked from head to root.
pub proof fn lemma_chain_generations_monotone(
    frags: Seq<ColorFragment>,
    tr: Seq<(u32, u32, u64)>,
    idx: int,
    pairs: Seq<(u32, u64)>,
)
    requires
        wf_triples(tr),
        spec_chain(frags, tr, idx) == Result::<Seq<(u32, u64)>, ColorTableError>::Ok(pairs),
    ensures
        forall|k: int| 0 <= k < pairs.len() - 1 ==> (#[trigger] pairs[k]).1 >= pairs[k + 1].1,
    decreases idx,
{
    if idx <= 0 || idx >= frags.len() {
    } else {
        let g = spec_range_find(tr, idx).unwrap();
        let p = frags[idx].parent_pointer.0 as int;
        let rest = spec_chain(frags, tr, p).unwrap();
        lemma_chain_generations_monotone(frags, tr, p, rest);
        assert(pairs == seq![(frags[idx].color, g)] + rest);
        if rest.len() > 0 {
            assert(0 < p < frags.len());
            assert(rest[0].1 == spec_range_find(tr, p).unwrap());
            lemma_find_monotone(tr, p, idx);
        }
        assert forall|k: int| 0 <= k < pairs.len() - 1 implies (#[trigger] pairs[k]).1 >= pairs[k
            + 1].1 by {
            if k == 0 {
                assert(pairs[0].1 == g);
                if rest.len() > 0 {
                    assert(pairs[1] == rest[0]);
                }
            } else {
                assert(pairs[k] == rest[k - 1]);
                assert(pairs[k + 1] == rest[k]);
            }
        }
    }
}

} // verus!
