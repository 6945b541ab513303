//! A single generation as a value: a range of color fragments that are all
//! part of the same epoch.

use crate::fragment::ColorFragmentIndex;
use vstd::prelude::*;

verus! {

/// A generation: the closed-open fragment index range `[start, end)` tagged
/// with its strictly increasing generation number.
#[derive(Clone, Copy, Debug, PartialEq, Eq, Structural)]
pub struct Generation {
    pub start: ColorFragmentIndex,
    pub end: ColorFragmentIndex,
    pub generation: u64,
}

impl Generation {
    /// A new generation opening at `start`: initially empty, its end at its
    /// start.
    pub fn new(start: ColorFragmentIndex, generation: u64) -> (r: Generation)
        ensures
            r.start == start,
            r.end == start,
            r.generation == generation,
    {
        Generation { start, end: start, generation }
    }

    /// This generation with its end replaced.
    pub fn with_end(self, end: ColorFragmentIndex) -> (r: Generation)
        ensures
            r.start == self.start,
            r.end == end,
            r.generation == self.generation,
    {
        Generation { end, ..self }
    }

    /// Replace the end in place.
    pub fn set_end(&mut self, end: ColorFragmentIndex)
        ensures
            final(self).start == old(self).start,
            final(self).end == end,
            final(self).generation == old(self).generation,
    {
        self.end = end;
    }

    /// The first fragment index of the generation.
    pub fn start(&self) -> (r: ColorFragmentIndex)
        ensures
            r == self.start,
    {
        self.start
    }

    /// The fragment index just past the generation.
    pub fn end(&self) -> (r: ColorFragmentIndex)
        ensures
            r == self.end,
    {
        self.end
    }

    /// The generation number.
    pub fn generation(&self) -> (r: u64)
        ensures
            r == self.generation,
    {
        self.generation
    }
}

} // verus!
