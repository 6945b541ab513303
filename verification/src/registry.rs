//! The generation registry: a non-crossing partition of fragment indices into
//! contiguous generations, plus the state of the write protocol.

use crate::errors::ColorTableError;
use crate::fragment::ColorFragmentIndex;
use crate::rangemap_api::{
    lemma_sorted_pair, rm_clone, rm_get, rm_insert, rm_last, rm_new, rm_remove, rm_seq, rm_sorted,
    rm_to_vec, spec_range_find,
};
use vstd::prelude::*;

verus! {

/// The state of the generation write protocol.
#[derive(Clone, Copy, Debug, PartialEq, Eq, Structural)]
pub enum GenerationState {
    /// No generation has ever been started.
    Fresh,
    /// The last generation ended; the payload is its generation number.
    Closed(u64),
    /// A generation is in progress: its number and its first fragment index.
    Open(u64, u32),
}

/// The generation registry: an ordered, non-overlapping interval map from
/// fragment index ranges to generation numbers, plus the protocol state.
#[derive(Debug)]
pub struct Generations {
    ranges: rangemap::RangeMap<u32, u64>,
    state: GenerationState,
}

/// The registered ranges are sorted non-empty intervals with strictly
/// increasing generation numbers.
pub open spec fn wf_triples(s: Seq<(u32, u32, u64)>) -> bool {
    &&& rm_sorted(s)
    &&& forall|i: int| 0 <= i < s.len() - 1 ==> (#[trigger] s[i]).2 < s[i + 1].2
}

/// Well-formedness of a registry's ranges together with its protocol state:
/// a fresh registry has no ranges; a closed one has no generation above the
/// last number; an open one ends in the placeholder range of the open
/// generation.
pub open spec fn wf_registry(s: Seq<(u32, u32, u64)>, st: GenerationState) -> bool {
    &&& wf_triples(s)
    &&& match st {
        GenerationState::Fresh => s.len() == 0,
        GenerationState::Closed(last) => forall|i: int|
            0 <= i < s.len() ==> (#[trigger] s[i]).2 <= last,
        GenerationState::Open(g, start) => {
            &&& s.len() > 0
            &&& start < u32::MAX
            &&& s.last() == (start, (start + 1) as u32, g)
            &&& forall|i: int| 0 <= i < s.len() ==> (#[trigger] s[i]).2 <= g
        },
    }
}

/// `start(head, g)` succeeds exactly on a fresh registry at head 1, or on a
/// closed registry with a larger generation number and a head at or past the
/// last registered range.
pub open spec fn spec_can_start(
    s: Seq<(u32, u32, u64)>,
    st: GenerationState,
    head: u32,
    g: u64,
) -> bool {
    match st {
        GenerationState::Fresh => head == 1,
        GenerationState::Closed(last) => g > last && (s.len() == 0 || s.last().1 <= head),
        GenerationState::Open(_, _) => false,
    }
}

/// The error a failing `start(head, g)` reports.
pub open spec fn spec_start_err(st: GenerationState, g: u64) -> ColorTableError {
    match st {
        GenerationState::Closed(last) => if g <= last {
            ColorTableError::InvalidGeneration(g)
        } else {
            ColorTableError::BadGenerationState
        },
        _ => ColorTableError::BadGenerationState,
    }
}

/// The ranges after a successful `start(head, g)`: the placeholder singleton
/// range of the new generation is appended.
pub open spec fn spec_after_start(s: Seq<(u32, u32, u64)>, head: u32, g: u64) -> Seq<
    (u32, u32, u64),
> {
    s.push((head, (head + 1) as u32, g))
}

/// The ranges after `end(head)` of a generation opened at `start`: the
/// placeholder widens to `[start, head)`, or vanishes if nothing was
/// appended.
pub open spec fn spec_after_end(s: Seq<(u32, u32, u64)>, start: u32, head: u32, g: u64) -> Seq<
    (u32, u32, u64),
> {
    if head > start {
        s.update(s.len() - 1, (start, head, g))
    } else {
        s.drop_last()
    }
}

/// In a sorted triple sequence the `i`th start is at least `i`: each earlier
/// range takes up at least one index.
pub proof fn lemma_sorted_start_ge(s: Seq<(u32, u32, u64)>, i: int)
    requires
        rm_sorted(s),
        0 <= i < s.len(),
    ensures
        s[i].0 >= i,
    decreases i,
{
    if i > 0 {
        lemma_sorted_start_ge(s, i - 1);
    }
}

/// A sorted triple sequence over 32-bit indices cannot hold more ranges than
/// there are indices.
pub proof fn lemma_sorted_len_bound(s: Seq<(u32, u32, u64)>)
    requires
        rm_sorted(s),
    ensures
        s.len() <= 0x1_0000_0000,
{
    if s.len() > 0x1_0000_0000 {
        lemma_sorted_start_ge(s, 0x1_0000_0000);
    }
}

/// In a well-formed triple sequence the generation numbers never decrease
/// with the position.
pub proof fn lemma_values_pair(s: Seq<(u32, u32, u64)>, i: int, j: int)
    requires
        wf_triples(s),
        0 <= i <= j < s.len(),
    ensures
        s[i].2 <= s[j].2,
    decreases j - i,
{
    if i < j {
        lemma_values_pair(s, i, j - 1);
    }
}

/// Dropping the first triple keeps a triple sequence well-formed.
proof fn lemma_wf_tail(s: Seq<(u32, u32, u64)>)
    requires
        wf_triples(s),
        s.len() > 0,
    ensures
        wf_triples(s.drop_first()),
{
    let t = s.drop_first();
    assert(forall|k: int| 0 <= k < t.len() ==> (#[trigger] t[k]) == s[k + 1]);
}

/// Starting a generation keeps the registry well-formed.
proof fn lemma_wf_after_start(s: Seq<(u32, u32, u64)>, st: GenerationState, head: u32, g: u64)
    requires
        wf_registry(s, st),
        spec_can_start(s, st, head, g),
        head < u32::MAX,
    ensures
        wf_registry(spec_after_start(s, head, g), GenerationState::Open(g, head)),
{
    let s2 = spec_after_start(s, head, g);
    assert(forall|i: int| 0 <= i < s.len() ==> s2[i] == s[i]);
    assert(s2.last() == (head, (head + 1) as u32, g));
}

/// Ending a generation keeps the registry well-formed.
proof fn lemma_wf_after_end(s: Seq<(u32, u32, u64)>, start: u32, head: u32, g: u64)
    requires
        wf_registry(s, GenerationState::Open(g, start)),
    ensures
        wf_registry(spec_after_end(s, start, head, g), GenerationState::Closed(g)),
{
    let s2 = spec_after_end(s, start, head, g);
    if head > start {
        assert(forall|i: int| 0 <= i < s.len() - 1 ==> s2[i] == s[i]);
        assert(s2.last() == (start, head, g));
    } else {
        assert(forall|i: int| 0 <= i < s2.len() ==> s2[i] == s[i]);
    }
}

impl Generations {
    /// The registered ranges as `(start, end, generation)` triples in
    /// ascending order.
    pub closed spec fn triples(self) -> Seq<(u32, u32, u64)> {
        rm_seq(self.ranges)
    }

    /// The protocol state.
    pub closed spec fn gen_state(self) -> GenerationState {
        self.state
    }

    /// Well-formedness: every registry this library hands out satisfies it.
    pub open spec fn wf(self) -> bool {
        wf_registry(self.triples(), self.gen_state())
    }

    /// A fresh registry: no ranges, no generation ever started.
    pub fn new() -> (r: Generations)
        ensures
            r.triples() == Seq::<(u32, u32, u64)>::empty(),
            r.gen_state() == GenerationState::Fresh,
            r.wf(),
    {
        Generations { ranges: rm_new(), state: GenerationState::Fresh }
    }

    /// Build a registry from parts already known to be well-formed.
    pub(crate) fn from_parts(ranges: rangemap::RangeMap<u32, u64>, state: GenerationState) -> (r:
        Generations)
        requires
            wf_registry(rm_seq(ranges), state),
        ensures
            r.triples() == rm_seq(ranges),
            r.gen_state() == state,
            r.wf(),
    {
        Generations { ranges, state }
    }

    /// The protocol state, readable from outside.
    pub fn generation_state(&self) -> (r: GenerationState)
        ensures
            r == self.gen_state(),
    {
        self.state
    }

    /// The registered ranges as a vector of `(start, end, generation)`
    /// triples in ascending order.
    pub fn to_triples(&self) -> (r: Vec<(u32, u32, u64)>)
        ensures
            r@ == self.triples(),
    {
        rm_to_vec(&self.ranges)
    }

    /// An independent copy of this registry.
    pub fn snapshot(&self) -> (r: Generations)
        ensures
            r.triples() == self.triples(),
            r.gen_state() == self.gen_state(),
    {
        Generations { ranges: rm_clone(&self.ranges), state: self.state }
    }

    /// Get the current in-progress generation.
    pub fn current_generation(&self) -> (r: Option<u64>)
        ensures
            r == match self.gen_state() {
                GenerationState::Open(g, _) => Some(g),
                _ => None,
            },
    {
        match self.state {
            GenerationState::Open(g, _) => Some(g),
            _ => None,
        }
    }

    /// Start a new generation at the given head fragment.
    ///
    /// On success the placeholder range `[head, head + 1)` is registered for
    /// the new generation, so every concurrently visible fragment of the
    /// generation has a registry hit from the instant it is written.
    pub fn start_new_generation_at(
        &mut self,
        head: ColorFragmentIndex,
        generation: u64,
    ) -> (r: Result<(), ColorTableError>)
        requires
            old(self).wf(),
            head.0 < u32::MAX,
        ensures
            final(self).wf(),
            spec_can_start(old(self).triples(), old(self).gen_state(), head.0, generation) ==> {
                &&& r is Ok
                &&& final(self).triples() == spec_after_start(
                    old(self).triples(),
                    head.0,
                    generation,
                )
                &&& final(self).gen_state() == GenerationState::Open(generation, head.0)
            },
            !spec_can_start(old(self).triples(), old(self).gen_state(), head.0, generation) ==> {
                &&& r == Result::<(), ColorTableError>::Err(
                    spec_start_err(old(self).gen_state(), generation),
                )
                &&& final(self).triples() == old(self).triples()
                &&& final(self).gen_state() == old(self).gen_state()
            },
    {
        let ghost s = self.triples();
        match self.state {
            GenerationState::Fresh => {
                if head.0 != 1 {
                    return Err(ColorTableError::BadGenerationState);
                }
                rm_insert(&mut self.ranges, head.0, head.0 + 1, generation);
                self.state = GenerationState::Open(generation, head.0);
                proof {
                    lemma_wf_after_start(s, old(self).gen_state(), head.0, generation);
                }
                Ok(())
            },
            GenerationState::Closed(last) => {
                if generation <= last {
                    return Err(ColorTableError::InvalidGeneration(generation));
                }
                let tail = rm_last(&self.ranges);
                match tail {
                    Some((_, end, _)) => {
                        if end > head.0 {
                            return Err(ColorTableError::BadGenerationState);
                        }
                    },
                    None => {},
                }
                proof {
                    if s.len() > 0 {
                        assert forall|i: int| 0 <= i < s.len() - 1 implies (#[trigger] s[i]).1
                            <= head.0 by {
                            lemma_sorted_pair(s, i, s.len() - 1);
                        }
                    }
                }
                rm_insert(&mut self.ranges, head.0, head.0 + 1, generation);
                self.state = GenerationState::Open(generation, head.0);
                proof {
                    lemma_wf_after_start(s, old(self).gen_state(), head.0, generation);
                }
                Ok(())
            },
            GenerationState::Open(_, _) => Err(ColorTableError::BadGenerationState),
        }
    }

    /// End the current generation at the given head fragment.
    ///
    /// If fragments were appended, the placeholder range widens to
    /// `[start, head)`; an empty generation's placeholder is removed, and the
    /// next generation may reuse the same start.
    pub fn end_current_generation_at(&mut self, head: ColorFragmentIndex) -> (r: Result<
        (),
        ColorTableError,
    >)
        requires
            old(self).wf(),
        ensures
            final(self).wf(),
            match old(self).gen_state() {
                GenerationState::Open(g, start) => {
                    &&& r is Ok
                    &&& final(self).triples() == spec_after_end(
                        old(self).triples(),
                        start,
                        head.0,
                        g,
                    )
                    &&& final(self).gen_state() == GenerationState::Closed(g)
                },
                _ => {
                    &&& r == Result::<(), ColorTableError>::Err(
                        ColorTableError::BadGenerationState,
                    )
                    &&& final(self).triples() == old(self).triples()
                    &&& final(self).gen_state() == old(self).gen_state()
                },
            },
    {
        let ghost s = self.triples();
        match self.state {
            GenerationState::Open(generation, start) => {
                proof {
                    assert forall|i: int| 0 <= i < s.len() - 1 implies (#[trigger] s[i]).1
                        <= start by {
                        lemma_sorted_pair(s, i, s.len() - 1);
                    }
                }
                if head.0 > start {
                    rm_insert(&mut self.ranges, start, head.0, generation);
                } else {
                    rm_remove(&mut self.ranges, start, start + 1);
                }
                self.state = GenerationState::Closed(generation);
                proof {
                    lemma_wf_after_end(s, start, head.0, generation);
                }
                Ok(())
            },
            _ => Err(ColorTableError::BadGenerationState),
        }
    }

    /// Find the generation a fragment belongs to.
    pub fn find(&self, idx: &ColorFragmentIndex) -> (r: Option<u64>)
        requires
            self.wf(),
        ensures
            r == spec_range_find(self.triples(), idx.0 as int),
    {
        rm_get(&self.ranges, idx.0)
    }
}

/// Generation numbers found in a well-formed registry never decrease with the
/// fragment index: the number found at `i` is at most the number found at any
/// `j` past `i`.
#[verifier::rlimit(50)]
pub proof fn lemma_find_monotone(s: Seq<(u32, u32, u64)>, i: int, j: int)
    requires
        wf_triples(s),
        i <= j,
        spec_range_find(s, i) is Some,
        spec_range_find(s, j) is Some,
    ensures
        spec_range_find(s, i).unwrap() <= spec_range_find(s, j).unwrap(),
    decreases s.len(),
{
    if s.len() > 0 {
        let tail = s.drop_first();
        lemma_wf_tail(s);
        assert(forall|k: int| 0 <= k < tail.len() ==> (#[trigger] tail[k]) == s[k + 1]);
        if s[0].0 <= i < s[0].1 {
            if s[0].0 <= j < s[0].1 {
            } else {
                assert(j >= s[0].1);
                lemma_find_value_low(tail, j);
            }
        } else {
            if i < s[0].0 {
                assert forall|k: int| 0 <= k < tail.len() implies (#[trigger] tail[k]).0
                    >= s[0].1 by {
                    lemma_sorted_pair(s, 0, k + 1);
                }
                lemma_find_below_all(tail, i, s[0].1 as int);
                assert(false);
            } else {
                assert(i >= s[0].1);
                lemma_find_monotone(tail, i, j);
            }
        }
    }
}

/// A generation found anywhere in a well-formed triple sequence is at least
/// the first triple's generation number.
proof fn lemma_find_value_low(s: Seq<(u32, u32, u64)>, x: int)
    requires
        wf_triples(s),
        spec_range_find(s, x) is Some,
        s.len() > 0,
    ensures
        spec_range_find(s, x).unwrap() >= s[0].2,
    decreases s.len(),
{
    if s[0].0 <= x < s[0].1 {
    } else {
        let tail = s.drop_first();
        lemma_wf_tail(s);
        assert(forall|k: int| 0 <= k < tail.len() ==> (#[trigger] tail[k]) == s[k + 1]);
        lemma_find_value_low(tail, x);
    }
}

/// Nothing is found below the least start of a sorted triple sequence.
proof fn lemma_find_below_all(s: Seq<(u32, u32, u64)>, x: int, lo: int)
    requires
        rm_sorted(s),
        x < lo,
        forall|i: int| 0 <= i < s.len() ==> (#[trigger] s[i]).0 >= lo,
    ensures
        spec_range_find(s, x) is None,
    decreases s.len(),
{
    if s.len() > 0 {
        let tail = s.drop_first();
        assert(forall|k: int| 0 <= k < tail.len() ==> (#[trigger] tail[k]) == s[k + 1]);
        lemma_find_below_all(tail, x, lo);
    }
}

/// Ending a generation that had no appends is legal and removes its
/// placeholder range, leaving the registry exactly as before; a later
/// generation number may then start again at the very same head.
pub proof fn lemma_empty_generation_reuse(
    s: Seq<(u32, u32, u64)>,
    st: GenerationState,
    head: u32,
    g: u64,
    g2: u64,
)
    requires
        wf_registry(s, st),
        spec_can_start(s, st, head, g),
        head < u32::MAX,
        g2 > g,
    ensures
        spec_after_end(spec_after_start(s, head, g), head, head, g) == s,
        spec_can_start(
            spec_after_end(spec_after_start(s, head, g), head, head, g),
            GenerationState::Closed(g),
            head,
            g2,
        ),
{
    let opened = spec_after_start(s, head, g);
    assert(opened.drop_last() =~= s);
}

/// The registered ranges tile the index space contiguously from `lo`.
pub open spec fn tiles_from(s: Seq<(u32, u32, u64)>, lo: u32) -> bool {
    &&& s.len() > 0 ==> s[0].0 == lo
    &&& forall|i: int| 0 <= i < s.len() - 1 ==> (#[trigger] s[i]).1 == s[i + 1].0
}

/// Every index inside a contiguous tiling is found.
pub proof fn lemma_tiles_covered(s: Seq<(u32, u32, u64)>, lo: u32, k: int)
    requires
        rm_sorted(s),
        tiles_from(s, lo),
        s.len() > 0,
        lo <= k < s.last().1,
    ensures
        spec_range_find(s, k) is Some,
    decreases s.len(),
{
    if s[0].0 <= k < s[0].1 {
    } else {
        let tail = s.drop_first();
        assert(forall|i: int| 0 <= i < tail.len() ==> (#[trigger] tail[i]) == s[i + 1]);
        assert(s.len() > 1);
        assert(tail.last() == s.last());
        lemma_tiles_covered(tail, s[0].1, k);
    }
}

} // verus!
