//! The color table core: the in-memory image of the fragment file together
//! with the generation registry, and the write protocol over both.
//!
//! The embedding program persists the byte images this core produces
//! (`table_bytes`, `record_bytes`, `sidecar_bytes`) and feeds them back
//! through `load`; every rule about what the bytes mean lives here.

use crate::errors::ColorTableError;
use crate::fragment::{
    fragment_from_bytes, fragment_to_bytes, lemma_fragment_bytes_len, lemma_fragment_round_trip,
    magic_fragment, spec_fragment_bytes, spec_fragment_of, spec_magic_fragment, ColorFragment,
    ColorFragmentIndex, ColorId,
};
use crate::registry::{
    spec_after_end, spec_after_start, spec_can_start, spec_start_err, tiles_from, GenerationState,
    Generations,
};
use crate::sidecar::{spec_parse_registry, spec_registry_bytes};
use vstd::prelude::*;
use vstd::slice::slice_subrange;

verus! {

/// The byte image of a fragment table: the records in order, 8 bytes each.
pub open spec fn spec_table_bytes(frags: Seq<ColorFragment>) -> Seq<u8>
    decreases frags.len(),
{
    if frags.len() == 0 {
        Seq::<u8>::empty()
    } else {
        spec_fragment_bytes(frags[0]) + spec_table_bytes(frags.drop_first())
    }
}

/// The records decoded from a byte image, one per full 8-byte block.
pub open spec fn spec_frags_of(data: Seq<u8>) -> Seq<ColorFragment> {
    Seq::new((data.len() / 8) as nat, |i: int| spec_fragment_of(data.subrange(8 * i, 8 * i + 8)))
}

/// The table image is always exactly 8 bytes per record: after `n` appends
/// to a fresh table it is `8 * (n + 1)` bytes, magic record included.
pub proof fn lemma_table_bytes_len(frags: Seq<ColorFragment>)
    ensures
        spec_table_bytes(frags).len() == 8 * frags.len(),
    decreases frags.len(),
{
    if frags.len() > 0 {
        lemma_fragment_bytes_len(frags[0]);
        lemma_table_bytes_len(frags.drop_first());
    }
}

/// Appending one record to the table appends its bytes to the image.
pub proof fn lemma_table_bytes_push(frags: Seq<ColorFragment>, f: ColorFragment)
    ensures
        spec_table_bytes(frags.push(f)) == spec_table_bytes(frags) + spec_fragment_bytes(f),
    decreases frags.len(),
{
    if frags.len() == 0 {
        let e = Seq::<ColorFragment>::empty();
        assert(frags =~= e);
        assert(frags.push(f)[0] == f);
        assert(frags.push(f).drop_first() =~= e);
        assert(spec_table_bytes(e) == Seq::<u8>::empty());
        assert(spec_table_bytes(frags.push(f)) == spec_fragment_bytes(f) + spec_table_bytes(e));
        assert(spec_table_bytes(frags.push(f)) =~= spec_table_bytes(frags) + spec_fragment_bytes(
            f,
        ));
    } else {
        assert(frags.push(f).drop_first() =~= frags.drop_first().push(f));
        lemma_table_bytes_push(frags.drop_first(), f);
        assert(frags.push(f)[0] == frags[0]);
        assert(spec_table_bytes(frags.push(f)) == spec_fragment_bytes(frags[0])
            + spec_table_bytes(frags.drop_first().push(f)));
        assert(spec_table_bytes(frags.push(f)) == spec_fragment_bytes(frags[0]) + (
        spec_table_bytes(frags.drop_first()) + spec_fragment_bytes(f)));
        assert(spec_table_bytes(frags) == spec_fragment_bytes(frags[0]) + spec_table_bytes(
            frags.drop_first(),
        ));
        assert(spec_table_bytes(frags.push(f)) =~= spec_table_bytes(frags) + spec_fragment_bytes(
            f,
        ));
    }
}

/// The `i`th 8-byte block of the table image is the `i`th record's bytes.
proof fn lemma_table_bytes_index(frags: Seq<ColorFragment>, i: int)
    requires
        0 <= i < frags.len(),
    ensures
        spec_table_bytes(frags).subrange(8 * i, 8 * i + 8) == spec_fragment_bytes(frags[i]),
    decreases i,
{
    lemma_table_bytes_len(frags);
    lemma_fragment_bytes_len(frags[0]);
    let whole = spec_table_bytes(frags);
    let head = spec_fragment_bytes(frags[0]);
    let rest = spec_table_bytes(frags.drop_first());
    if i == 0 {
        assert(whole.subrange(0, 8) =~= head);
    } else {
        lemma_table_bytes_index(frags.drop_first(), i - 1);
        lemma_table_bytes_len(frags.drop_first());
        assert(frags.drop_first()[i - 1] == frags[i]);
        assert forall|k: int| 0 <= k < 8 implies whole[8 * i + k] == #[trigger] rest[8 * (i - 1)
            + k] by {
            assert(whole[8 + (8 * (i - 1) + k)] == rest[8 * (i - 1) + k]);
        }
        assert(whole.subrange(8 * i, 8 * i + 8) =~= rest.subrange(8 * (i - 1), 8 * (i - 1) + 8));
    }
}

/// Decoding the table image yields the records back: the table format
/// round-trips.
pub proof fn lemma_table_round_trip(frags: Seq<ColorFragment>)
    ensures
        spec_frags_of(spec_table_bytes(frags)) == frags,
{
    lemma_table_bytes_len(frags);
    let data = spec_table_bytes(frags);
    assert forall|i: int| 0 <= i < frags.len() implies spec_frags_of(data)[i] == frags[i] by {
        lemma_table_bytes_index(frags, i);
        lemma_fragment_bytes_len(frags[i]);
        lemma_fragment_round_trip(frags[i], spec_fragment_bytes(frags[i]));
    }
    assert(spec_frags_of(data) =~= frags);
}

/// The first slot at or past `i` whose parent pointer does not precede it,
/// if any; reported as the offending parent value.
pub open spec fn spec_first_bad_parent(frags: Seq<ColorFragment>, i: int) -> Option<u32>
    decreases frags.len() - i,
{
    if i < 1 || i >= frags.len() {
        None
    } else if frags[i].parent_pointer.0 >= i {
        Some(frags[i].parent_pointer.0)
    } else {
        spec_first_bad_parent(frags, i + 1)
    }
}

/// What `load` accepts and what it reports, as a function of the two byte
/// images.
pub open spec fn spec_load(table: Seq<u8>, sidecar: Seq<u8>) -> Result<
    (Seq<ColorFragment>, GenerationState, Seq<(u32, u32, u64)>),
    ColorTableError,
> {
    if table.len() % 8 != 0 || table.len() < 8 || table.len() > 8 * (u32::MAX as int) {
        Err(ColorTableError::CorruptLength)
    } else {
        let frags = spec_frags_of(table);
        if frags[0] != spec_magic_fragment() {
            Err(ColorTableError::CorruptMagic)
        } else {
            match spec_first_bad_parent(frags, 1) {
                Some(p) => Err(ColorTableError::InvalidColorId(p)),
                None => match spec_parse_registry(sidecar) {
                    None => Err(ColorTableError::CorruptRegistry),
                    Some((st, tr)) => if crate::registry::wf_registry(tr, st) {
                        Ok((frags, st, tr))
                    } else {
                        Err(ColorTableError::CorruptRegistry)
                    },
                },
            }
        }
    }
}

/// Compact on-disk bitmap storage: the fragment table image and the
/// generation registry, under the write protocol.
#[derive(Debug)]
pub struct ColorTable {
    fragments: Vec<ColorFragment>,
    generations: Generations,
}

impl ColorTable {
    /// The fragment records, magic record at slot 0 included. The length of
    /// this sequence is the table head: the index of the next free slot.
    pub closed spec fn frags(self) -> Seq<ColorFragment> {
        self.fragments@
    }

    /// The generation registry.
    pub closed spec fn registry(self) -> Generations {
        self.generations
    }

    /// Basic well-formedness: the magic record sits at slot 0, every parent
    /// pointer precedes its fragment, the head fits an index, and the
    /// registry is well-formed.
    pub open spec fn inv(self) -> bool {
        &&& 1 <= self.frags().len() <= u32::MAX
        &&& self.frags()[0] == spec_magic_fragment()
        &&& forall|i: int|
            1 <= i < self.frags().len() ==> (#[trigger] self.frags()[i]).parent_pointer.0 < i
        &&& self.registry().wf()
    }

    /// The registry covers the table: the registered ranges tile `[1, head)`
    /// contiguously, up to the open generation's placeholder. This holds of
    /// every table built through the write protocol; a freshly loaded pair
    /// of files from an interrupted sitting may cover less.
    pub open spec fn covers(self) -> bool {
        let tr = self.registry().triples();
        match self.registry().gen_state() {
            GenerationState::Fresh => tr.len() == 0 && self.frags().len() == 1,
            GenerationState::Closed(_) => {
                &&& tiles_from(tr, 1)
                &&& (tr.len() == 0 ==> self.frags().len() == 1)
                &&& (tr.len() > 0 ==> tr.last().1 == self.frags().len())
            },
            GenerationState::Open(_, start) => {
                &&& tr.len() > 0
                &&& tiles_from(tr, 1)
                &&& start <= self.frags().len()
            },
        }
    }

    /// A fresh, empty color table: only the magic record, no generation ever
    /// started.
    pub fn new() -> (r: ColorTable)
        ensures
            r.inv(),
            r.covers(),
            r.frags().len() == 1,
            r.registry().gen_state() == GenerationState::Fresh,
            r.registry().triples() == Seq::<(u32, u32, u64)>::empty(),
    {
        let mut fragments: Vec<ColorFragment> = Vec::new();
        fragments.push(magic_fragment());
        ColorTable { fragments, generations: Generations::new() }
    }

    /// The index of the next free slot.
    pub fn head(&self) -> (r: ColorFragmentIndex)
        requires
            self.inv(),
        ensures
            r.0 == self.frags().len(),
    {
        ColorFragmentIndex(self.fragments.len() as u32)
    }

    /// The head fragment index of a color class, or nothing if the id does
    /// not refer to an existing fragment.
    pub fn head_fragment_index(&self, color_id: &ColorId) -> (r: Option<ColorFragmentIndex>)
        requires
            self.inv(),
        ensures
            r == if color_id.0 < self.frags().len() {
                Some(ColorFragmentIndex(color_id.0))
            } else {
                Option::<ColorFragmentIndex>::None
            },
    {
        if (color_id.0 as usize) < self.fragments.len() {
            Some(ColorFragmentIndex(color_id.0))
        } else {
            None
        }
    }

    /// An independent copy of the registry, for readers that look up
    /// generations while the table moves on.
    pub fn generations(&self) -> (r: Generations)
        requires
            self.inv(),
        ensures
            r.triples() == self.registry().triples(),
            r.gen_state() == self.registry().gen_state(),
            r.wf(),
    {
        self.generations.snapshot()
    }

    /// The generation currently in progress, if any.
    pub fn current_generation(&self) -> (r: Option<u64>)
        ensures
            r == match self.registry().gen_state() {
                GenerationState::Open(g, _) => Some(g),
                _ => Option::<u64>::None,
            },
    {
        self.generations.current_generation()
    }

    /// Append one record; the caller has already checked the protocol state.
    fn write_fragment(&mut self, fragment: ColorFragment) -> (r: ColorFragmentIndex)
        requires
            old(self).inv(),
            old(self).frags().len() < u32::MAX,
            fragment.parent_pointer.0 < old(self).frags().len(),
            old(self).registry().gen_state() is Open,
        ensures
            final(self).inv(),
            r.0 == old(self).frags().len(),
            final(self).frags() == old(self).frags().push(fragment),
            final(self).registry() == old(self).registry(),
            old(self).covers() ==> final(self).covers(),
    {
        let index = ColorFragmentIndex(self.fragments.len() as u32);
        self.fragments.push(fragment);
        index
    }

    /// Creates a new color class.
    ///
    /// Returns the id of the new color class. The new class must not be
    /// forked or extended until the next generation.
    pub fn new_color_class(&mut self, color: u32) -> (r: Result<ColorId, ColorTableError>)
        requires
            old(self).inv(),
            old(self).frags().len() < u32::MAX,
        ensures
            final(self).inv(),
            old(self).covers() ==> final(self).covers(),
            match old(self).registry().gen_state() {
                GenerationState::Open(_, _) => {
                    &&& r == Result::<ColorId, ColorTableError>::Ok(
                        ColorId((old(self).frags().len()) as u32),
                    )
                    &&& final(self).frags() == old(self).frags().push(
                        ColorFragment { parent_pointer: ColorFragmentIndex(0), color },
                    )
                    &&& final(self).registry() == old(self).registry()
                },
                _ => {
                    &&& r == Result::<ColorId, ColorTableError>::Err(
                        ColorTableError::BadGenerationState,
                    )
                    &&& *final(self) == *old(self)
                },
            },
    {
        match self.generations.current_generation() {
            Some(_) => {
                let fragment = ColorFragment { parent_pointer: ColorFragmentIndex(0), color };
                let index = self.write_fragment(fragment);
                Ok(index.to_color_id())
            },
            None => Err(ColorTableError::BadGenerationState),
        }
    }

    /// Fork a color class.
    ///
    /// Returns the id of the new color class, which shares every fragment up
    /// to the fork point with `parent`. The parent class is unaffected and
    /// may still be extended in this generation; the new class must not be
    /// forked or extended until the next generation.
    pub fn fork_color_class(&mut self, parent: ColorId, color: u32) -> (r: Result<
        ColorId,
        ColorTableError,
    >)
        requires
            old(self).inv(),
            old(self).frags().len() < u32::MAX,
        ensures
            final(self).inv(),
            old(self).covers() ==> final(self).covers(),
            match old(self).registry().gen_state() {
                GenerationState::Open(_, _) => {
                    if parent.0 < old(self).frags().len() {
                        &&& r == Result::<ColorId, ColorTableError>::Ok(
                            ColorId((old(self).frags().len()) as u32),
                        )
                        &&& final(self).frags() == old(self).frags().push(
                            ColorFragment { parent_pointer: ColorFragmentIndex(parent.0), color },
                        )
                        &&& final(self).registry() == old(self).registry()
                    } else {
                        &&& r == Result::<ColorId, ColorTableError>::Err(
                            ColorTableError::InvalidColorId(parent.0),
                        )
                        &&& *final(self) == *old(self)
                    }
                },
                _ => {
                    &&& r == Result::<ColorId, ColorTableError>::Err(
                        ColorTableError::BadGenerationState,
                    )
                    &&& *final(self) == *old(self)
                },
            },
    {
        match self.generations.current_generation() {
            Some(_) => {
                match self.head_fragment_index(&parent) {
                    Some(parent_idx) => {
                        let fragment = ColorFragment { parent_pointer: parent_idx, color };
                        let index = self.write_fragment(fragment);
                        Ok(index.to_color_id())
                    },
                    None => Err(ColorTableError::InvalidColorId(parent.as_u32())),
                }
            },
            None => Err(ColorTableError::BadGenerationState),
        }
    }

    /// Extend a color class.
    ///
    /// Append semantics are identical to `fork_color_class`; the returned id
    /// is the class's new head, and the caller must replace its handle with
    /// it. The old id keeps addressing the chain prefix, which may still be
    /// forked; the extended class must not be extended again until the next
    /// generation.
    pub fn extend_color_class(&mut self, parent: ColorId, color: u32) -> (r: Result<
        ColorId,
        ColorTableError,
    >)
        requires
            old(self).inv(),
            old(self).frags().len() < u32::MAX,
        ensures
            final(self).inv(),
            old(self).covers() ==> final(self).covers(),
            match old(self).registry().gen_state() {
                GenerationState::Open(_, _) => {
                    if parent.0 < old(self).frags().len() {
                        &&& r == Result::<ColorId, ColorTableError>::Ok(
                            ColorId((old(self).frags().len()) as u32),
                        )
                        &&& final(self).frags() == old(self).frags().push(
                            ColorFragment { parent_pointer: ColorFragmentIndex(parent.0), color },
                        )
                        &&& final(self).registry() == old(self).registry()
                    } else {
                        &&& r == Result::<ColorId, ColorTableError>::Err(
                            ColorTableError::InvalidColorId(parent.0),
                        )
                        &&& *final(self) == *old(self)
                    }
                },
                _ => {
                    &&& r == Result::<ColorId, ColorTableError>::Err(
                        ColorTableError::BadGenerationState,
                    )
                    &&& *final(self) == *old(self)
                },
            },
    {
        self.fork_color_class(parent, color)
    }

    /// Start a new generation at the current head.
    ///
    /// The generation number must be above the last one; the registry
    /// records the placeholder range before any append of the generation.
    pub fn start_generation(&mut self, generation: u64) -> (r: Result<(), ColorTableError>)
        requires
            old(self).inv(),
            old(self).frags().len() < u32::MAX,
        ensures
            final(self).inv(),
            final(self).frags() == old(self).frags(),
            old(self).covers() ==> final(self).covers(),
            ({
                let tr = old(self).registry().triples();
                let st = old(self).registry().gen_state();
                let head = (old(self).frags().len()) as u32;
                if spec_can_start(tr, st, head, generation) {
                    &&& r is Ok
                    &&& final(self).registry().triples() == spec_after_start(tr, head, generation)
                    &&& final(self).registry().gen_state() == GenerationState::Open(
                        generation,
                        head,
                    )
                } else {
                    &&& r == Result::<(), ColorTableError>::Err(spec_start_err(st, generation))
                    &&& final(self).registry().triples() == tr
                    &&& final(self).registry().gen_state() == st
                }
            }),
    {
        let head = self.head();
        self.generations.start_new_generation_at(head, generation)
    }

    /// End the current generation at the current head.
    ///
    /// The placeholder range widens to the fragments actually appended; an
    /// empty generation leaves no range behind.
    pub fn end_generation(&mut self) -> (r: Result<(), ColorTableError>)
        requires
            old(self).inv(),
        ensures
            final(self).inv(),
            final(self).frags() == old(self).frags(),
            old(self).covers() ==> final(self).covers(),
            ({
                let tr = old(self).registry().triples();
                let head = (old(self).frags().len()) as u32;
                match old(self).registry().gen_state() {
                    GenerationState::Open(g, start) => {
                        &&& r is Ok
                        &&& final(self).registry().triples() == spec_after_end(tr, start, head, g)
                        &&& final(self).registry().gen_state() == GenerationState::Closed(g)
                    },
                    _ => {
                        &&& r == Result::<(), ColorTableError>::Err(
                            ColorTableError::BadGenerationState,
                        )
                        &&& final(self).registry().triples() == tr
                        &&& final(self).registry().gen_state() == old(
                            self,
                        ).registry().gen_state()
                    },
                }
            }),
    {
        let head = self.head();
        self.generations.end_current_generation_at(head)
    }

    /// Find the generation a fragment belongs to.
    pub fn find(&self, idx: &ColorFragmentIndex) -> (r: Option<u64>)
        requires
            self.inv(),
        ensures
            r == crate::rangemap_api::spec_range_find(self.registry().triples(), idx.0 as int),
    {
        self.generations.find(idx)
    }

    /// The full byte image of the fragment table, magic record first.
    pub fn table_bytes(&self) -> (r: Vec<u8>)
        ensures
            r@ == spec_table_bytes(self.frags()),
            r@.len() == 8 * self.frags().len(),
    {
        let mut out: Vec<u8> = Vec::new();
        let mut i: usize = 0;
        while i < self.fragments.len()
            invariant
                i <= self.frags().len(),
                out@ == spec_table_bytes(self.frags().take(i as int)),
            decreases self.frags().len() - i,
        {
            let mut rec = fragment_to_bytes(&self.fragments[i]);
            out.append(&mut rec);
            i += 1;
            proof {
                assert(self.frags().take(i as int) =~= self.frags().take(i - 1).push(
                    self.frags()[i - 1],
                ));
                lemma_table_bytes_push(self.frags().take(i - 1), self.frags()[i - 1]);
            }
        }
        proof {
            assert(self.frags().take(self.frags().len() as int) =~= self.frags());
            lemma_table_bytes_len(self.frags());
        }
        out
    }

    /// The 8 bytes of one record, for incremental appends to the table file.
    pub fn record_bytes(&self, idx: ColorFragmentIndex) -> (r: Vec<u8>)
        requires
            self.inv(),
            idx.0 < self.frags().len(),
        ensures
            r@ == spec_fragment_bytes(self.frags()[idx.0 as int]),
            r@.len() == 8,
    {
        let f = self.fragments[idx.0 as usize];
        fragment_to_bytes(&f)
    }

    /// The byte image of the registry, for the sidecar file. A function of
    /// the registry alone: serializing twice with no mutation in between
    /// gives byte-identical output.
    pub fn sidecar_bytes(&self) -> (r: Vec<u8>)
        ensures
            r@ == spec_registry_bytes(
                self.registry().gen_state(),
                self.registry().triples(),
            ),
    {
        self.generations.to_bytes()
    }

    /// Load a color table from the two byte images, exactly as `spec_load`
    /// describes: the table image must be whole records led by the magic
    /// record, parent pointers must precede their fragments, and the sidecar
    /// must parse to a well-formed registry.
    pub fn load(table: &[u8], sidecar: &[u8]) -> (r: Result<ColorTable, ColorTableError>)
        ensures
            match r {
                Ok(ct) => {
                    &&& ct.inv()
                    &&& spec_load(table@, sidecar@) == Result::<
                        (Seq<ColorFragment>, GenerationState, Seq<(u32, u32, u64)>),
                        ColorTableError,
                    >::Ok((ct.frags(), ct.registry().gen_state(), ct.registry().triples()))
                },
                Err(e) => spec_load(table@, sidecar@) == Result::<
                    (Seq<ColorFragment>, GenerationState, Seq<(u32, u32, u64)>),
                    ColorTableError,
                >::Err(e),
            },
    {
        let len = table.len();
        if len % 8 != 0 || len < 8 {
            return Err(ColorTableError::CorruptLength);
        }
        let n = len / 8;
        if n > (u32::MAX as usize) {
            return Err(ColorTableError::CorruptLength);
        }
        let ghost gfrags = spec_frags_of(table@);
        assert(gfrags.len() == n);
        let mut fragments: Vec<ColorFragment> = Vec::new();
        let mut i: usize = 0;
        while i < n
            invariant
                i <= n,
                n == table@.len() / 8,
                8 * n == table@.len(),
                table@.len() <= usize::MAX,
                n <= u32::MAX,
                gfrags == spec_frags_of(table@),
                gfrags.len() == n,
                fragments@ == gfrags.take(i as int),
                i > 0 ==> gfrags[0] == spec_magic_fragment(),
                forall|k: int| 1 <= k < i ==> (#[trigger] gfrags[k]).parent_pointer.0 < k,
            decreases n - i,
        {
            assert(8 * i + 8 <= 8 * n);
            let f = fragment_from_bytes(slice_subrange(table, 8 * i, 8 * i + 8));
            assert(f == gfrags[i as int]);
            if i == 0 {
                let m = magic_fragment();
                if f != m {
                    assert(spec_load(table@, sidecar@) == Result::<
                        (Seq<ColorFragment>, GenerationState, Seq<(u32, u32, u64)>),
                        ColorTableError,
                    >::Err(ColorTableError::CorruptMagic));
                    return Err(ColorTableError::CorruptMagic);
                }
            } else {
                if f.parent_pointer.0 >= i as u32 {
                    proof {
                        lemma_first_bad_parent_found(gfrags, 1, i as int);
                    }
                    return Err(ColorTableError::InvalidColorId(f.parent_pointer.0));
                }
            }
            fragments.push(f);
            proof {
                assert(gfrags.take(i + 1 as int) =~= gfrags.take(i as int).push(f));
            }
            i += 1;
        }
        proof {
            assert(gfrags.take(n as int) =~= gfrags);
            lemma_first_bad_parent_none(gfrags, 1);
        }
        let generations = match Generations::from_bytes(sidecar) {
            Ok(g) => g,
            Err(e) => { return Err(e) },
        };
        Ok(ColorTable { fragments, generations })
    }
}

/// If every slot before `i` is fine and slot `i` is offending, the scan from
/// `j` reports slot `i`'s parent.
proof fn lemma_first_bad_parent_found(frags: Seq<ColorFragment>, j: int, i: int)
    requires
        1 <= j <= i < frags.len(),
        forall|k: int| j <= k < i ==> (#[trigger] frags[k]).parent_pointer.0 < k,
        frags[i].parent_pointer.0 >= i,
    ensures
        spec_first_bad_parent(frags, j) == Some(frags[i].parent_pointer.0),
    decreases i - j,
{
    if j < i {
        lemma_first_bad_parent_found(frags, j + 1, i);
    }
}

/// If every slot from `j` on is fine, the scan from `j` reports nothing.
proof fn lemma_first_bad_parent_none(frags: Seq<ColorFragment>, j: int)
    requires
        j >= 1,
        forall|k: int| j <= k < frags.len() ==> (#[trigger] frags[k]).parent_pointer.0 < k,
    ensures
        spec_first_bad_parent(frags, j) is None,
    decreases frags.len() - j,
{
    if 1 <= j && j < frags.len() {
        lemma_first_bad_parent_none(frags, j + 1);
    }
}

/// Writing both byte images and loading them back yields the same store:
/// every class chain read afterwards is the chain read before.
pub proof fn lemma_store_round_trip(ct: ColorTable)
    requires
        ct.inv(),
    ensures
        spec_load(
            spec_table_bytes(ct.frags()),
            spec_registry_bytes(ct.registry().gen_state(), ct.registry().triples()),
        ) == Result::<
            (Seq<ColorFragment>, GenerationState, Seq<(u32, u32, u64)>),
            ColorTableError,
        >::Ok((ct.frags(), ct.registry().gen_state(), ct.registry().triples())),
{
    let frags = ct.frags();
    let st = ct.registry().gen_state();
    let tr = ct.registry().triples();
    lemma_table_bytes_len(frags);
    lemma_table_round_trip(frags);
    crate::registry::lemma_sorted_len_bound(tr);
    crate::sidecar::lemma_registry_round_trip(st, tr);
    lemma_first_bad_parent_none(frags, 1);
}

} // verus!
