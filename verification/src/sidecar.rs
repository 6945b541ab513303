//! The generation sidecar format: the registry serialized as the protocol
//! state followed by the registered ranges, all integers in the
//! variable-length encoding of `codec`.
//!
//! Layout: a state tag (0 fresh; 1 closed, then the last generation number;
//! 2 open, then the generation number and its start index), the range count,
//! and for each range its start, end and generation number.

use crate::codec::{
    decode_u32, decode_u64, encode_u64, lemma_parse_varint_encoded, spec_parse_varint,
    spec_parse_varint_u32, spec_varint,
};
use crate::errors::ColorTableError;
use crate::rangemap_api::{rm_insert, rm_new, rm_seq, rm_sorted};
use crate::registry::{wf_registry, wf_triples, GenerationState, Generations};
use vstd::prelude::*;

verus! {

/// The bytes of one registered range: start, end, generation number.
pub open spec fn spec_triple_bytes(t: (u32, u32, u64)) -> Seq<u8> {
    spec_varint(t.0 as u64) + spec_varint(t.1 as u64) + spec_varint(t.2)
}

/// The bytes of the registered ranges, in order.
pub open spec fn spec_triples_bytes(tr: Seq<(u32, u32, u64)>) -> Seq<u8>
    decreases tr.len(),
{
    if tr.len() == 0 {
        Seq::<u8>::empty()
    } else {
        spec_triple_bytes(tr[0]) + spec_triples_bytes(tr.drop_first())
    }
}

/// The bytes of the protocol state.
pub open spec fn spec_state_bytes(st: GenerationState) -> Seq<u8> {
    match st {
        GenerationState::Fresh => spec_varint(0),
        GenerationState::Closed(last) => spec_varint(1) + spec_varint(last),
        GenerationState::Open(g, start) => spec_varint(2) + spec_varint(g) + spec_varint(
            start as u64,
        ),
    }
}

/// The bytes of a whole registry: state, range count, ranges.
pub open spec fn spec_registry_bytes(st: GenerationState, tr: Seq<(u32, u32, u64)>) -> Seq<u8> {
    spec_state_bytes(st) + spec_varint(tr.len() as u64) + spec_triples_bytes(tr)
}

/// The strict parse of the protocol state at `pos`.
pub open spec fn spec_parse_state(s: Seq<u8>, pos: int) -> Option<(GenerationState, int)> {
    match spec_parse_varint(s, pos) {
        None => None,
        Some((tag, p1)) => if tag == 0 {
            Some((GenerationState::Fresh, p1))
        } else if tag == 1 {
            match spec_parse_varint(s, p1) {
                None => None,
                Some((last, p2)) => Some((GenerationState::Closed(last), p2)),
            }
        } else if tag == 2 {
            match spec_parse_varint(s, p1) {
                None => None,
                Some((g, p2)) => match spec_parse_varint_u32(s, p2) {
                    None => None,
                    Some((start, p3)) => Some((GenerationState::Open(g, start), p3)),
                },
            }
        } else {
            None
        },
    }
}

/// The strict parse of `n` registered ranges at `pos`.
pub open spec fn spec_parse_triples(s: Seq<u8>, pos: int, n: nat) -> Option<
    (Seq<(u32, u32, u64)>, int),
>
    decreases n,
{
    if n == 0 {
        Some((Seq::<(u32, u32, u64)>::empty(), pos))
    } else {
        match spec_parse_varint_u32(s, pos) {
            None => None,
            Some((start, p1)) => match spec_parse_varint_u32(s, p1) {
                None => None,
                Some((end, p2)) => match spec_parse_varint(s, p2) {
                    None => None,
                    Some((g, p3)) => match spec_parse_triples(s, p3, (n - 1) as nat) {
                        None => None,
                        Some((rest, p4)) => Some((seq![(start, end, g)] + rest, p4)),
                    },
                },
            },
        }
    }
}

/// The strict parse of a whole sidecar buffer, demanding full consumption.
pub open spec fn spec_parse_registry(s: Seq<u8>) -> Option<
    (GenerationState, Seq<(u32, u32, u64)>),
> {
    match spec_parse_state(s, 0) {
        None => None,
        Some((st, p1)) => match spec_parse_varint(s, p1) {
            None => None,
            Some((count, p2)) => match spec_parse_triples(s, p2, count as nat) {
                None => None,
                Some((tr, p3)) => if p3 == s.len() {
                    Some((st, tr))
                } else {
                    None
                },
            },
        },
    }
}

/// Splitting a known window of a buffer splits its two halves.
proof fn lemma_subrange_split(s: Seq<u8>, pos: int, a: Seq<u8>, b: Seq<u8>)
    requires
        0 <= pos,
        pos + a.len() + b.len() <= s.len(),
        s.subrange(pos, pos + a.len() + b.len()) == a + b,
    ensures
        s.subrange(pos, pos + a.len() as int) == a,
        s.subrange(pos + a.len() as int, pos + a.len() + b.len()) == b,
{
    assert forall|k: int| 0 <= k < a.len() implies s[pos + k] == a[k] by {
        assert(s[pos + k] == s.subrange(pos, pos + a.len() + b.len())[k]);
    }
    assert forall|k: int| 0 <= k < b.len() implies s[pos + a.len() + k] == b[k] by {
        assert(s[pos + a.len() + k] == s.subrange(pos, pos + a.len() + b.len())[a.len() + k]);
    }
    assert(s.subrange(pos, pos + a.len() as int) =~= a);
    assert(s.subrange(pos + a.len() as int, pos + a.len() + b.len()) =~= b);
}

/// Appending one range to the sequence appends its bytes.
pub proof fn lemma_triples_bytes_push(tr: Seq<(u32, u32, u64)>, x: (u32, u32, u64))
    ensures
        spec_triples_bytes(tr.push(x)) == spec_triples_bytes(tr) + spec_triple_bytes(x),
    decreases tr.len(),
{
    if tr.len() == 0 {
        let e = Seq::<(u32, u32, u64)>::empty();
        assert(tr =~= e);
        assert(tr.push(x)[0] == x);
        assert(tr.push(x).drop_first() =~= e);
        assert(spec_triples_bytes(e) == Seq::<u8>::empty());
        assert(spec_triples_bytes(tr.push(x)) == spec_triple_bytes(x) + spec_triples_bytes(e));
        assert(spec_triples_bytes(tr.push(x)) =~= spec_triples_bytes(tr) + spec_triple_bytes(x));
    } else {
        assert(tr.push(x).drop_first() =~= tr.drop_first().push(x));
        lemma_triples_bytes_push(tr.drop_first(), x);
        assert(tr.push(x)[0] == tr[0]);
        assert(spec_triples_bytes(tr.push(x)) == spec_triple_bytes(tr[0]) + spec_triples_bytes(
            tr.drop_first().push(x),
        ));
        assert(spec_triples_bytes(tr.push(x)) == spec_triple_bytes(tr[0]) + (spec_triples_bytes(
            tr.drop_first(),
        ) + spec_triple_bytes(x)));
        assert(spec_triples_bytes(tr) == spec_triple_bytes(tr[0]) + spec_triples_bytes(
            tr.drop_first(),
        ));
        assert(spec_triples_bytes(tr.push(x)) =~= spec_triples_bytes(tr) + spec_triple_bytes(x));
    }
}

/// Wherever the encoded ranges sit in a buffer, parsing at their start
/// yields them back and stops just past them.
proof fn lemma_parse_triples_encoded(s: Seq<u8>, pos: int, tr: Seq<(u32, u32, u64)>)
    requires
        0 <= pos,
        pos + spec_triples_bytes(tr).len() <= s.len(),
        s.subrange(pos, pos + spec_triples_bytes(tr).len() as int) == spec_triples_bytes(tr),
    ensures
        spec_parse_triples(s, pos, tr.len()) == Some(
            (tr, pos + spec_triples_bytes(tr).len() as int),
        ),
    decreases tr.len(),
{
    if tr.len() == 0 {
        assert(spec_parse_triples(s, pos, 0) == Some((Seq::<(u32, u32, u64)>::empty(), pos)));
        assert(tr =~= Seq::<(u32, u32, u64)>::empty());
    } else {
        let t = tr[0];
        let v1 = spec_varint(t.0 as u64);
        let v2 = spec_varint(t.1 as u64);
        let v3 = spec_varint(t.2);
        let rest = spec_triples_bytes(tr.drop_first());
        let whole = spec_triples_bytes(tr);
        assert(whole == (v1 + v2 + v3) + rest);
        assert(whole =~= v1 + (v2 + (v3 + rest)));
        lemma_subrange_split(s, pos, v1, v2 + (v3 + rest));
        let p1 = pos + v1.len() as int;
        lemma_subrange_split(s, p1, v2, v3 + rest);
        let p2 = p1 + v2.len() as int;
        lemma_subrange_split(s, p2, v3, rest);
        let p3 = p2 + v3.len() as int;
        lemma_parse_varint_encoded(s, pos, t.0 as u64);
        lemma_parse_varint_encoded(s, p1, t.1 as u64);
        lemma_parse_varint_encoded(s, p2, t.2);
        lemma_parse_triples_encoded(s, p3, tr.drop_first());
        assert(seq![(t.0, t.1, t.2)] + tr.drop_first() =~= tr);
    }
}

/// Wherever the encoded state sits at the front of a buffer, parsing yields
/// it back and stops just past it.
proof fn lemma_parse_state_encoded(s: Seq<u8>, st: GenerationState)
    requires
        spec_state_bytes(st).len() <= s.len(),
        s.subrange(0, spec_state_bytes(st).len() as int) == spec_state_bytes(st),
    ensures
        spec_parse_state(s, 0) == Some((st, spec_state_bytes(st).len() as int)),
{
    let sb = spec_state_bytes(st);
    let p1 = sb.len() as int;
    match st {
        GenerationState::Fresh => {
            lemma_parse_varint_encoded(s, 0, 0);
        },
        GenerationState::Closed(last) => {
            assert(sb == spec_varint(1) + spec_varint(last));
            lemma_subrange_split(s, 0, spec_varint(1), spec_varint(last));
            lemma_parse_varint_encoded(s, 0, 1);
            lemma_parse_varint_encoded(s, spec_varint(1).len() as int, last);
        },
        GenerationState::Open(g, start) => {
            assert(sb =~= spec_varint(2) + (spec_varint(g) + spec_varint(start as u64)));
            assert(s.subrange(0, p1) == sb);
            lemma_subrange_split(s, 0, spec_varint(2), spec_varint(g) + spec_varint(start as u64));
            let q1 = spec_varint(2).len() as int;
            lemma_subrange_split(s, q1, spec_varint(g), spec_varint(start as u64));
            lemma_parse_varint_encoded(s, 0, 2);
            lemma_parse_varint_encoded(s, q1, g);
            lemma_parse_varint_encoded(s, q1 + spec_varint(g).len() as int, start as u64);
        },
    }
}

/// Parsing the bytes of a registry yields exactly that registry: the format
/// round-trips.
pub proof fn lemma_registry_round_trip(st: GenerationState, tr: Seq<(u32, u32, u64)>)
    requires
        tr.len() <= u64::MAX,
    ensures
        spec_parse_registry(spec_registry_bytes(st, tr)) == Some((st, tr)),
{
    let sb = spec_state_bytes(st);
    let cb = spec_varint(tr.len() as u64);
    let tb = spec_triples_bytes(tr);
    let s = spec_registry_bytes(st, tr);
    assert(s =~= sb + (cb + tb));
    assert(s.subrange(0, (sb.len() + (cb + tb).len()) as int) =~= sb + (cb + tb));
    lemma_subrange_split(s, 0, sb, cb + tb);
    let p1 = sb.len() as int;
    lemma_subrange_split(s, p1, cb, tb);
    let p2 = p1 + cb.len() as int;
    lemma_parse_state_encoded(s, st);
    lemma_parse_varint_encoded(s, p1, tr.len() as u64);
    lemma_parse_triples_encoded(s, p2, tr);
}

/// The sidecar is a pure function of the registry: serializing the same
/// state and ranges twice, with no mutation in between, gives byte-identical
/// output.
pub proof fn lemma_sidecar_deterministic(
    b1: Seq<u8>,
    b2: Seq<u8>,
    st: GenerationState,
    tr: Seq<(u32, u32, u64)>,
)
    requires
        b1 == spec_registry_bytes(st, tr),
        b2 == spec_registry_bytes(st, tr),
    ensures
        b1 == b2,
{
}

/// Check a parsed registry for well-formedness, exactly as `wf_registry`
/// describes it.
/// Check the sorted-and-increasing shape of parsed ranges, exactly as
/// `wf_triples` describes it.
fn triples_are_wf(triples: &Vec<(u32, u32, u64)>) -> (r: bool)
    ensures
        r == wf_triples(triples@),
{
    let n = triples.len();
    let mut i: usize = 0;
    while i < n
        invariant
            i <= n,
            n == triples@.len(),
            forall|k: int| 0 <= k < i ==> (#[trigger] triples@[k]).0 < triples@[k].1,
            forall|k: int|
                0 <= k < i && k + 1 < n ==> (#[trigger] triples@[k]).1 <= triples@[k + 1].0,
            forall|k: int|
                0 <= k < i && k + 1 < n ==> (#[trigger] triples@[k]).2 < triples@[k + 1].2,
        decreases n - i,
    {
        let t = triples[i];
        if t.0 >= t.1 {
            return false;
        }
        if i + 1 < n {
            let u = triples[i + 1];
            if t.1 > u.0 || t.2 >= u.2 {
                return false;
            }
        }
        i += 1;
    }
    true
}

fn registry_is_wf(triples: &Vec<(u32, u32, u64)>, st: GenerationState) -> (r: bool)
    ensures
        r == wf_registry(triples@, st),
{
    let n = triples.len();
    if !triples_are_wf(triples) {
        return false;
    }
    match st {
        GenerationState::Fresh => n == 0,
        GenerationState::Closed(last) => {
            if n == 0 {
                true
            } else {
                let t = triples[n - 1];
                if t.2 <= last {
                    proof {
                        assert forall|k: int| 0 <= k < triples@.len() implies (
                        #[trigger] triples@[k]).2 <= last by {
                            crate::registry::lemma_values_pair(triples@, k, n - 1);
                        }
                    }
                    true
                } else {
                    false
                }
            }
        },
        GenerationState::Open(g, start) => {
            if n == 0 || start == u32::MAX {
                false
            } else {
                let t = triples[n - 1];
                if t.0 == start && t.1 == start + 1 && t.2 == g {
                    proof {
                        assert forall|k: int| 0 <= k < triples@.len() implies (
                        #[trigger] triples@[k]).2 <= g by {
                            crate::registry::lemma_values_pair(triples@, k, n - 1);
                        }
                    }
                    true
                } else {
                    false
                }
            }
        },
    }
}

impl Generations {
    /// Serialize this registry for the sidecar file.
    pub fn to_bytes(&self) -> (r: Vec<u8>)
        ensures
            r@ == spec_registry_bytes(self.gen_state(), self.triples()),
    {
        let ghost st = self.gen_state();
        let ghost tr = self.triples();
        let mut out: Vec<u8> = Vec::new();
        match self.generation_state() {
            GenerationState::Fresh => {
                encode_u64(&mut out, 0);
            },
            GenerationState::Closed(last) => {
                encode_u64(&mut out, 1);
                encode_u64(&mut out, last);
            },
            GenerationState::Open(g, start) => {
                encode_u64(&mut out, 2);
                encode_u64(&mut out, g);
                encode_u64(&mut out, start as u64);
            },
        }
        proof {
            assert(out@ =~= spec_state_bytes(st));
        }
        let triples = self.to_triples();
        encode_u64(&mut out, triples.len() as u64);
        proof {
            assert(out@ =~= spec_state_bytes(st) + spec_varint(tr.len() as u64));
        }
        let ghost base = out@;
        let mut i: usize = 0;
        while i < triples.len()
            invariant
                triples@ == tr,
                i <= tr.len(),
                base == spec_state_bytes(st) + spec_varint(tr.len() as u64),
                out@ == base + spec_triples_bytes(tr.take(i as int)),
            decreases tr.len() - i,
        {
            let t = triples[i];
            encode_u64(&mut out, t.0 as u64);
            encode_u64(&mut out, t.1 as u64);
            encode_u64(&mut out, t.2);
            i += 1;
            proof {
                assert(tr.take(i as int) =~= tr.take(i - 1).push(t));
                lemma_triples_bytes_push(tr.take(i - 1), t);
                assert(out@ =~= base + spec_triples_bytes(tr.take(i as int)));
            }
        }
        proof {
            assert(tr.take(tr.len() as int) =~= tr);
            assert(out@ =~= spec_registry_bytes(st, tr));
        }
        out
    }

    /// Deserialize a sidecar buffer, accepting exactly the encodings of
    /// well-formed registries and reporting everything else as corrupt.
    pub fn from_bytes(data: &[u8]) -> (r: Result<Generations, ColorTableError>)
        ensures
            ({
                let p = spec_parse_registry(data@);
                match r {
                    Ok(g) => {
                        &&& p == Some((g.gen_state(), g.triples()))
                        &&& g.wf()
                    },
                    Err(e) => {
                        &&& e == ColorTableError::CorruptRegistry
                        &&& (p is None || !wf_registry(p.unwrap().1, p.unwrap().0))
                    },
                }
            }),
    {
        let (tag, p1) = match decode_u64(data, 0) {
            Ok(v) => v,
            Err(e) => { return Err(e) },
        };
        let (st, p2) = if tag == 0 {
            (GenerationState::Fresh, p1)
        } else if tag == 1 {
            let (last, q) = match decode_u64(data, p1) {
                Ok(v) => v,
                Err(e) => { return Err(e) },
            };
            (GenerationState::Closed(last), q)
        } else if tag == 2 {
            let (g, q) = match decode_u64(data, p1) {
                Ok(v) => v,
                Err(e) => { return Err(e) },
            };
            let (start, q2) = match decode_u32(data, q) {
                Ok(v) => v,
                Err(e) => { return Err(e) },
            };
            (GenerationState::Open(g, start), q2)
        } else {
            return Err(ColorTableError::CorruptRegistry);
        };
        assert(spec_parse_state(data@, 0) == Some((st, p2 as int)));
        let (count, p3) = match decode_u64(data, p2) {
            Ok(v) => v,
            Err(e) => { return Err(e) },
        };
        let mut triples: Vec<(u32, u32, u64)> = Vec::new();
        let mut pos: usize = p3;
        let mut i: u64 = 0;
        while i < count
            invariant
                pos <= data@.len(),
                i <= count,
                spec_parse_state(data@, 0) == Some((st, p2 as int)),
                spec_parse_varint(data@, p2 as int) == Some((count, p3 as int)),
                ({
                    match spec_parse_triples(data@, pos as int, (count - i) as nat) {
                        Some((rest, e)) => spec_parse_triples(data@, p3 as int, count as nat)
                            == Some((triples@ + rest, e)),
                        None => spec_parse_triples(data@, p3 as int, count as nat) is None,
                    }
                }),
            decreases count - i,
        {
            let ghost before = triples@;
            let (a, q1) = match decode_u32(data, pos) {
                Ok(v) => v,
                Err(_) => { return Err(ColorTableError::CorruptRegistry) },
            };
            let (b, q2) = match decode_u32(data, q1) {
                Ok(v) => v,
                Err(_) => { return Err(ColorTableError::CorruptRegistry) },
            };
            let (g, q3) = match decode_u64(data, q2) {
                Ok(v) => v,
                Err(_) => { return Err(ColorTableError::CorruptRegistry) },
            };
            triples.push((a, b, g));
            proof {
                match spec_parse_triples(data@, q3 as int, (count - i - 1) as nat) {
                    Some((rest2, e2)) => {
                        assert(before + (seq![(a, b, g)] + rest2) =~= triples@ + rest2);
                    },
                    None => {},
                }
            }
            pos = q3;
            i = i + 1;
        }
        proof {
            assert(spec_parse_triples(data@, pos as int, 0) == Some(
                (Seq::<(u32, u32, u64)>::empty(), pos as int),
            ));
            assert(triples@ + Seq::<(u32, u32, u64)>::empty() =~= triples@);
        }
        if pos != data.len() {
            return Err(ColorTableError::CorruptRegistry);
        }
        if !registry_is_wf(&triples, st) {
            return Err(ColorTableError::CorruptRegistry);
        }
        let mut m = rm_new();
        let n = triples.len();
        let mut k: usize = 0;
        while k < n
            invariant
                k <= n,
                n == triples@.len(),
                wf_registry(triples@, st),
                rm_seq(m) == triples@.take(k as int),
            decreases n - k,
        {
            let t = triples[k];
            proof {
                assert(forall|j: int|
                    0 <= j < k ==> (#[trigger] triples@.take(k as int)[j]) == triples@[j]);
                assert(rm_sorted(triples@.take(k as int)));
            }
            rm_insert(&mut m, t.0, t.1, t.2);
            proof {
                assert(triples@.take(k + 1 as int) =~= triples@.take(k as int).push(t));
            }
            k = k + 1;
        }
        proof {
            assert(triples@.take(n as int) =~= triples@);
        }
        Ok(Generations::from_parts(m, st))
    }
}

} // verus!
