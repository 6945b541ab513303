//! Variable-length integer codec used by the generation sidecar: seven low
//! bits per byte, least significant group first, continuation bit `0x80` on
//! every byte but the last.

use crate::errors::ColorTableError;
use vstd::prelude::*;
use vstd::slice::slice_index_get;

verus! {

/// The encoding of `x`: base-128 digits, least significant first, each but
/// the last carrying the continuation bit.
pub open spec fn spec_varint(x: u64) -> Seq<u8>
    decreases x,
{
    if x < 128 {
        seq![x as u8]
    } else {
        seq![(128 + x % 128) as u8] + spec_varint((x / 128) as u64)
    }
}

/// The strict parse of an encoded integer at `pos`: the value and the
/// position just past it, or nothing if no canonical encoding starts there.
pub open spec fn spec_parse_varint(s: Seq<u8>, pos: int) -> Option<(u64, int)>
    decreases s.len() - pos,
{
    if pos < 0 || pos >= s.len() {
        None
    } else {
        let b = s[pos];
        if b < 128 {
            Some((b as u64, pos + 1))
        } else {
            match spec_parse_varint(s, pos + 1) {
                None => None,
                Some((hi, end)) => {
                    if hi == 0 || hi > (u64::MAX - (b - 128)) / 128 {
                        None
                    } else {
                        Some(((hi * 128 + (b - 128)) as u64, end))
                    }
                },
            }
        }
    }
}

/// The parse of an encoded integer that must fit 32 bits.
pub open spec fn spec_parse_varint_u32(s: Seq<u8>, pos: int) -> Option<(u32, int)> {
    match spec_parse_varint(s, pos) {
        None => None,
        Some((x, end)) => if x <= u32::MAX as u64 {
            Some((x as u32, end))
        } else {
            None
        },
    }
}

/// Wherever the encoding of `x` sits in a buffer, parsing at its start
/// yields `x` and stops just past it.
pub proof fn lemma_parse_varint_encoded(s: Seq<u8>, pos: int, x: u64)
    requires
        0 <= pos,
        pos + spec_varint(x).len() <= s.len(),
        s.subrange(pos, pos + spec_varint(x).len() as int) == spec_varint(x),
    ensures
        spec_parse_varint(s, pos) == Some((x, pos + spec_varint(x).len() as int)),
    decreases x,
{
    let v = spec_varint(x);
    assert(s[pos] == s.subrange(pos, pos + v.len() as int)[0]);
    if x < 128 {
    } else {
        let x2 = (x / 128) as u64;
        let v2 = spec_varint(x2);
        assert(v == seq![(128 + x % 128) as u8] + v2);
        assert forall|k: int| 0 <= k < v2.len() implies s[pos + 1 + k] == v2[k] by {
            assert(s[pos + 1 + k] == s.subrange(pos, pos + v.len() as int)[1 + k]);
        }
        assert(s.subrange(pos + 1, pos + 1 + v2.len() as int) =~= v2);
        lemma_parse_varint_encoded(s, pos + 1, x2);
        let b = s[pos];
        assert(b == (128 + x % 128) as u8);
        assert(x2 >= 1);
        assert(x2 * 128 + x % 128 == x);
        assert(x2 <= (u64::MAX - (b - 128)) / 128);
    }
}

/// Encode `x`, appending its bytes to `out`.
pub fn encode_u64(out: &mut Vec<u8>, x: u64)
    ensures
        final(out)@ == old(out)@ + spec_varint(x),
{
    let mut v: u64 = x;
    while v >= 128
        invariant
            out@ + spec_varint(v) == old(out)@ + spec_varint(x),
        decreases v,
    {
        let ghost prev = out@;
        let ghost vprev = v;
        out.push((v % 128 + 128) as u8);
        v = v / 128;
        proof {
            assert(spec_varint(vprev) == seq![(128 + vprev % 128) as u8] + spec_varint(v));
            assert(out@ + spec_varint(v) =~= prev + spec_varint(vprev));
        }
    }
    let ghost prev = out@;
    out.push(v as u8);
    proof {
        assert(spec_varint(v) == seq![v as u8]);
        assert(out@ =~= prev + spec_varint(v));
        assert(out@ =~= old(out)@ + spec_varint(x));
    }
}

/// Decode one integer at `pos`, exactly as `spec_parse_varint` describes.
pub fn decode_u64(data: &[u8], pos: usize) -> (r: Result<(u64, usize), ColorTableError>)
    requires
        pos <= data@.len(),
    ensures
        match r {
            Ok((x, end)) => {
                &&& spec_parse_varint(data@, pos as int) == Some((x, end as int))
                &&& pos < end <= data@.len()
            },
            Err(e) => {
                &&& spec_parse_varint(data@, pos as int) is None
                &&& e == ColorTableError::CorruptRegistry
            },
        },
    decreases data@.len() - pos,
{
    if pos >= data.len() {
        return Err(ColorTableError::CorruptRegistry);
    }
    let b = *slice_index_get(data, pos);
    if b < 128 {
        Ok((b as u64, pos + 1))
    } else {
        match decode_u64(data, pos + 1) {
            Ok((hi, end)) => {
                let low = (b - 128) as u64;
                if hi == 0 || hi > (u64::MAX - low) / 128 {
                    Err(ColorTableError::CorruptRegistry)
                } else {
                    Ok((hi * 128 + low, end))
                }
            },
            Err(e) => Err(e),
        }
    }
}

/// Decode one integer that must fit 32 bits.
pub fn decode_u32(data: &[u8], pos: usize) -> (r: Result<(u32, usize), ColorTableError>)
    requires
        pos <= data@.len(),
    ensures
        match r {
            Ok((x, end)) => {
                &&& spec_parse_varint_u32(data@, pos as int) == Some((x, end as int))
                &&& pos < end <= data@.len()
            },
            Err(e) => {
                &&& spec_parse_varint_u32(data@, pos as int) is None
                &&& e == ColorTableError::CorruptRegistry
            },
        },
{
    match decode_u64(data, pos) {
        Ok((x, end)) => {
            if x <= 0xFFFF_FFFFu64 {
                Ok((x as u32, end))
            } else {
                Err(ColorTableError::CorruptRegistry)
            }
        },
        Err(e) => Err(e),
    }
}

} // verus!
