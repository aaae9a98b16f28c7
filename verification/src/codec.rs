//! Byte encodings used on the wire and inside Merkle leaves: unsigned
//! 64-bit values in little-endian order, and flat encodings of value
//! sequences. Every encoder and decoder is specified against a spec-level
//! byte sequence and proved exact.

use vstd::prelude::*;

verus! {

/// The eight little-endian bytes of a 64-bit value.
pub open spec fn u64_le_bytes(v: u64) -> Seq<u8> {
    seq![
        (v as int % 256) as u8,
        (v as int / 256 % 256) as u8,
        (v as int / 65536 % 256) as u8,
        (v as int / 16777216 % 256) as u8,
        (v as int / 4294967296 % 256) as u8,
        (v as int / 1099511627776 % 256) as u8,
        (v as int / 281474976710656 % 256) as u8,
        (v as int / 72057594037927936 % 256) as u8,
    ]
}

/// The little-endian value of the eight bytes of `s` starting at `pos`.
pub open spec fn u64_from_le_at(s: Seq<u8>, pos: int) -> int {
    s[pos] + 256 * (s[pos + 1] + 256 * (s[pos + 2] + 256 * (s[pos + 3] + 256 * (s[pos + 4] + 256
        * (s[pos + 5] + 256 * (s[pos + 6] + 256 * s[pos + 7]))))))
}

/// The flat little-endian encoding of a sequence of 64-bit values.
pub open spec fn u64s_le_bytes(s: Seq<u64>) -> Seq<u8>
    decreases s.len(),
{
    if s.len() == 0 {
        Seq::empty()
    } else {
        u64s_le_bytes(s.drop_last()) + u64_le_bytes(s.last())
    }
}

/// Appending one value to a sequence appends its eight bytes to the encoding.
pub proof fn lemma_u64s_le_bytes_push(s: Seq<u64>, v: u64)
    ensures
        u64s_le_bytes(s.push(v)) == u64s_le_bytes(s) + u64_le_bytes(v),
{
    assert(s.push(v).drop_last() =~= s);
}

/// Appends the eight little-endian bytes of `v` to `out`.
pub fn encode_u64_le(v: u64, out: &mut Vec<u8>)
    ensures
        final(out)@ == old(out)@ + u64_le_bytes(v),
{
    out.push((v % 256) as u8);
    out.push((v / 256 % 256) as u8);
    out.push((v / 65536 % 256) as u8);
    out.push((v / 16777216 % 256) as u8);
    out.push((v / 4294967296 % 256) as u8);
    out.push((v / 1099511627776 % 256) as u8);
    out.push((v / 281474976710656 % 256) as u8);
    out.push((v / 72057594037927936 % 256) as u8);
    proof {
        assert(out@ =~= old(out)@ + u64_le_bytes(v));
    }
}

/// Appends the flat encoding of `vals` to `out`.
pub fn encode_u64s_le(vals: &Vec<u64>, out: &mut Vec<u8>)
    ensures
        final(out)@ == old(out)@ + u64s_le_bytes(vals@),
{
    let mut i: usize = 0;
    while i < vals.len()
        invariant
            i <= vals@.len(),
            out@ == old(out)@ + u64s_le_bytes(vals@.subrange(0, i as int)),
        decreases vals@.len() - i,
    {
        proof {
            assert(vals@.subrange(0, i as int).push(vals@[i as int]) =~= vals@.subrange(
                0,
                i as int + 1,
            ));
            lemma_u64s_le_bytes_push(vals@.subrange(0, i as int), vals@[i as int]);
        }
        encode_u64_le(vals[i], out);
        i = i + 1;
    }
    proof {
        assert(vals@.subrange(0, vals@.len() as int) =~= vals@);
    }
}

/// Appends all bytes of `src` to `out`.
pub fn extend_bytes(out: &mut Vec<u8>, src: &Vec<u8>)
    ensures
        final(out)@ == old(out)@ + src@,
{
    let mut i: usize = 0;
    while i < src.len()
        invariant
            i <= src@.len(),
            out@ == old(out)@ + src@.subrange(0, i as int),
        decreases src@.len() - i,
    {
        proof {
            assert(src@.subrange(0, i as int).push(src@[i as int]) =~= src@.subrange(
                0,
                i as int + 1,
            ));
        }
        out.push(src[i]);
        i = i + 1;
    }
    proof {
        assert(src@.subrange(0, src@.len() as int) =~= src@);
    }
}

/// Appends all values of `src` to `out`.
pub fn extend_u64s(out: &mut Vec<u64>, src: &Vec<u64>)
    ensures
        final(out)@ == old(out)@ + src@,
{
    let mut i: usize = 0;
    while i < src.len()
        invariant
            i <= src@.len(),
            out@ == old(out)@ + src@.subrange(0, i as int),
        decreases src@.len() - i,
    {
        proof {
            assert(src@.subrange(0, i as int).push(src@[i as int]) =~= src@.subrange(
                0,
                i as int + 1,
            ));
        }
        out.push(src[i]);
        i = i + 1;
    }
    proof {
        assert(src@.subrange(0, src@.len() as int) =~= src@);
    }
}

/// Copies a value vector.
pub fn clone_u64s(src: &Vec<u64>) -> (r: Vec<u64>)
    ensures
        r@ == src@,
{
    let mut v: Vec<u64> = Vec::new();
    extend_u64s(&mut v, src);
    proof {
        assert(v@ =~= src@);
    }
    v
}

/// Reads the 64-bit little-endian value at `pos`.
pub fn decode_u64_le(bytes: &Vec<u8>, pos: usize) -> (r: u64)
    requires
        pos + 8 <= bytes@.len(),
    ensures
        r as int == u64_from_le_at(bytes@, pos as int),
{
    let n = bytes.len();
    let b0 = bytes[pos] as u64;
    let b1 = bytes[pos + 1] as u64;
    let b2 = bytes[pos + 2] as u64;
    let b3 = bytes[pos + 3] as u64;
    let b4 = bytes[pos + 4] as u64;
    let b5 = bytes[pos + 5] as u64;
    let b6 = bytes[pos + 6] as u64;
    let b7 = bytes[pos + 7] as u64;
    b0 + 256 * (b1 + 256 * (b2 + 256 * (b3 + 256 * (b4 + 256 * (b5 + 256 * (b6 + 256 * b7))))))
}

} // verus!
