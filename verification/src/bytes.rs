//! Little-endian fixed-width integers and the null-terminator scan, as spec
//! functions over byte sequences, with the lemmas that relate the two
//! directions.

use vstd::prelude::*;

verus! {

/// True when no byte of `b` is zero.
pub open spec fn zero_free(b: Seq<u8>) -> bool {
    forall|i: int| 0 <= i < b.len() ==> b[i] != 0
}

/// The little-endian reading of four bytes.
pub open spec fn le_u32(b: Seq<u8>) -> u32
    recommends
        b.len() == 4,
{
    (b[0] as u32) | ((b[1] as u32) << 8) | ((b[2] as u32) << 16) | ((b[3] as u32) << 24)
}

/// The little-endian reading of eight bytes.
pub open spec fn le_u64(b: Seq<u8>) -> u64
    recommends
        b.len() == 8,
{
    (b[0] as u64) | ((b[1] as u64) << 8) | ((b[2] as u64) << 16) | ((b[3] as u64) << 24)
        | ((b[4] as u64) << 32) | ((b[5] as u64) << 40) | ((b[6] as u64) << 48)
        | ((b[7] as u64) << 56)
}

/// The little-endian reading of eight bytes as a two's-complement integer.
pub open spec fn le_i64(b: Seq<u8>) -> i64
    recommends
        b.len() == 8,
{
    le_u64(b) as i64
}

/// The four little-endian bytes of `v`.
pub open spec fn enc_u32(v: u32) -> Seq<u8> {
    seq![
        (v & 0xff) as u8,
        ((v >> 8) & 0xff) as u8,
        ((v >> 16) & 0xff) as u8,
        ((v >> 24) & 0xff) as u8,
    ]
}

/// The eight little-endian bytes of `v`.
pub open spec fn enc_u64(v: u64) -> Seq<u8> {
    seq![
        (v & 0xff) as u8,
        ((v >> 8) & 0xff) as u8,
        ((v >> 16) & 0xff) as u8,
        ((v >> 24) & 0xff) as u8,
        ((v >> 32) & 0xff) as u8,
        ((v >> 40) & 0xff) as u8,
        ((v >> 48) & 0xff) as u8,
        ((v >> 56) & 0xff) as u8,
    ]
}

/// The eight little-endian bytes of a two's-complement integer.
pub open spec fn enc_i64(v: i64) -> Seq<u8> {
    enc_u64(v as u64)
}

/// Reading back the four encoded bytes yields the value.
pub proof fn lemma_le_enc_u32(v: u32)
    ensures
        le_u32(enc_u32(v)) == v,
        enc_u32(v).len() == 4,
{
    let b = enc_u32(v);
    assert(b[0] == (v & 0xff) as u8 && b[1] == ((v >> 8) & 0xff) as u8 && b[2] == ((v >> 16)
        & 0xff) as u8 && b[3] == ((v >> 24) & 0xff) as u8);
    assert((((v & 0xff) as u8) as u32) | (((((v >> 8) & 0xff) as u8) as u32) << 8) | (((((v >> 16)
        & 0xff) as u8) as u32) << 16) | (((((v >> 24) & 0xff) as u8) as u32) << 24) == v)
        by (bit_vector);
}

/// Reading back the eight encoded bytes yields the value.
pub proof fn lemma_le_enc_u64(v: u64)
    ensures
        le_u64(enc_u64(v)) == v,
        enc_u64(v).len() == 8,
{
    let b = enc_u64(v);
    assert(b[0] == (v & 0xff) as u8 && b[1] == ((v >> 8) & 0xff) as u8 && b[2] == ((v >> 16)
        & 0xff) as u8 && b[3] == ((v >> 24) & 0xff) as u8 && b[4] == ((v >> 32) & 0xff) as u8
        && b[5] == ((v >> 40) & 0xff) as u8 && b[6] == ((v >> 48) & 0xff) as u8 && b[7] == ((v
        >> 56) & 0xff) as u8);
    assert((((v & 0xff) as u8) as u64) | (((((v >> 8) & 0xff) as u8) as u64) << 8) | (((((v >> 16)
        & 0xff) as u8) as u64) << 16) | (((((v >> 24) & 0xff) as u8) as u64) << 24) | (((((v >> 32)
        & 0xff) as u8) as u64) << 32) | (((((v >> 40) & 0xff) as u8) as u64) << 40) | (((((v >> 48)
        & 0xff) as u8) as u64) << 48) | (((((v >> 56) & 0xff) as u8) as u64) << 56) == v)
        by (bit_vector);
}

/// Reading back the eight encoded bytes of a signed value yields the value.
pub proof fn lemma_le_enc_i64(v: i64)
    ensures
        le_i64(enc_i64(v)) == v,
        enc_i64(v).len() == 8,
{
    lemma_le_enc_u64(v as u64);
    assert(((v as u64) as i64) == v) by (bit_vector);
}

/// The masked bytes of a shifted value fit in a byte.
pub proof fn lemma_byte_masks_u32(v: u32)
    ensures
        v & 0xff < 256,
        (v >> 8) & 0xff < 256,
        (v >> 16) & 0xff < 256,
        (v >> 24) & 0xff < 256,
{
    assert(v & 0xff < 256 && (v >> 8) & 0xff < 256 && (v >> 16) & 0xff < 256 && (v >> 24) & 0xff
        < 256) by (bit_vector);
}

/// The masked bytes of a shifted value fit in a byte.
pub proof fn lemma_byte_masks_u64(v: u64)
    ensures
        v & 0xff < 256,
        (v >> 8) & 0xff < 256,
        (v >> 16) & 0xff < 256,
        (v >> 24) & 0xff < 256,
        (v >> 32) & 0xff < 256,
        (v >> 40) & 0xff < 256,
        (v >> 48) & 0xff < 256,
        (v >> 56) & 0xff < 256,
{
    assert(v & 0xff < 256 && (v >> 8) & 0xff < 256 && (v >> 16) & 0xff < 256 && (v >> 24) & 0xff
        < 256 && (v >> 32) & 0xff < 256 && (v >> 40) & 0xff < 256 && (v >> 48) & 0xff < 256 && (v
        >> 56) & 0xff < 256) by (bit_vector);
}

/// Index of the first zero byte of `s` at or after `pos`; `s.len()` when
/// there is none.
pub open spec fn index_of_nul(s: Seq<u8>, pos: int) -> int
    recommends
        0 <= pos <= s.len(),
    decreases s.len() - pos,
{
    if pos < 0 || pos >= s.len() {
        s.len() as int
    } else if s[pos] == 0 {
        pos
    } else {
        index_of_nul(s, pos + 1)
    }
}

/// The scan stays within bounds, stops on a zero byte, and skips no zero.
pub proof fn lemma_index_of_nul_props(s: Seq<u8>, pos: int)
    requires
        0 <= pos <= s.len(),
    ensures
        pos <= index_of_nul(s, pos) <= s.len(),
        index_of_nul(s, pos) < s.len() ==> s[index_of_nul(s, pos)] == 0,
        forall|j: int| pos <= j < index_of_nul(s, pos) ==> s[j] != 0,
    decreases s.len() - pos,
{
    if pos < s.len() && s[pos] != 0 {
        lemma_index_of_nul_props(s, pos + 1);
    }
}

/// Over a zero-free block followed by a zero byte, the scan stops exactly at
/// that zero byte.
pub proof fn lemma_index_of_nul_at(s: Seq<u8>, pos: int, n: int)
    requires
        0 <= pos,
        0 <= n,
        pos + n < s.len(),
        zero_free(s.subrange(pos, pos + n)),
        s[pos + n] == 0,
    ensures
        index_of_nul(s, pos) == pos + n,
    decreases n,
{
    if n == 0 {
    } else {
        assert(s[pos] == s.subrange(pos, pos + n)[0]);
        assert(zero_free(s.subrange(pos + 1, pos + n))) by {
            assert forall|i: int| 0 <= i < n - 1 implies (#[trigger] s.subrange(
                pos + 1,
                pos + n,
            )[i]) != 0 by {
                assert(s.subrange(pos + 1, pos + n)[i] == s.subrange(pos, pos + n)[i + 1]);
            }
        }
        lemma_index_of_nul_at(s, pos + 1, n - 1);
    }
}

} // verus!
