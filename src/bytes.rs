//! Little-endian integer encodings inside byte sequences.
use vstd::prelude::*;

verus! {

/// The unsigned 16-bit little-endian number stored at `p`.
pub open spec fn u16_at(b: Seq<u8>, p: int) -> int {
    b[p] as int + 256 * (b[p + 1] as int)
}

/// The unsigned 32-bit little-endian number stored at `p`.
pub open spec fn u32_at(b: Seq<u8>, p: int) -> int {
    u16_at(b, p) + 65536 * u16_at(b, p + 2)
}

/// The unsigned 64-bit little-endian number stored at `p`.
pub open spec fn u64_at(b: Seq<u8>, p: int) -> int {
    u32_at(b, p) + 4294967296 * u32_at(b, p + 4)
}

/// `b` with the two bytes at `p` holding `v` in little-endian order.
pub open spec fn put_u16(b: Seq<u8>, p: int, v: int) -> Seq<u8> {
    b.update(p, (v % 256) as u8).update(p + 1, (v / 256) as u8)
}

/// `b` with the four bytes at `p` holding `v` in little-endian order.
pub open spec fn put_u32(b: Seq<u8>, p: int, v: int) -> Seq<u8> {
    put_u16(put_u16(b, p, v % 65536), p + 2, v / 65536)
}

/// `b` with the eight bytes at `p` holding `v` in little-endian order.
pub open spec fn put_u64(b: Seq<u8>, p: int, v: int) -> Seq<u8> {
    put_u32(put_u32(b, p, v % 4294967296), p + 4, v / 4294967296)
}

/// Writing a 16-bit number changes exactly its two bytes, and reads back.
pub proof fn lemma_put_u16(b: Seq<u8>, p: int, v: int)
    requires
        0 <= p,
        p + 2 <= b.len(),
        0 <= v < 65536,
    ensures
        put_u16(b, p, v).len() == b.len(),
        u16_at(put_u16(b, p, v), p) == v,
        forall|j: int| 0 <= j < b.len() && !(p <= j < p + 2) ==> put_u16(b, p, v)[j] == b[j],
{
}

/// Writing a 32-bit number changes exactly its four bytes, and reads back.
pub proof fn lemma_put_u32(b: Seq<u8>, p: int, v: int)
    requires
        0 <= p,
        p + 4 <= b.len(),
        0 <= v < 4294967296,
    ensures
        put_u32(b, p, v).len() == b.len(),
        u32_at(put_u32(b, p, v), p) == v,
        forall|j: int| 0 <= j < b.len() && !(p <= j < p + 4) ==> put_u32(b, p, v)[j] == b[j],
{
    lemma_put_u16(b, p, v % 65536);
    let b1 = put_u16(b, p, v % 65536);
    lemma_put_u16(b1, p + 2, v / 65536);
}

/// Writing a 64-bit number changes exactly its eight bytes, and reads back.
pub proof fn lemma_put_u64(b: Seq<u8>, p: int, v: int)
    requires
        0 <= p,
        p + 8 <= b.len(),
        0 <= v < 18446744073709551616,
    ensures
        put_u64(b, p, v).len() == b.len(),
        u64_at(put_u64(b, p, v), p) == v,
        forall|j: int| 0 <= j < b.len() && !(p <= j < p + 8) ==> put_u64(b, p, v)[j] == b[j],
{
    lemma_put_u32(b, p, v % 4294967296);
    let b1 = put_u32(b, p, v % 4294967296);
    lemma_put_u32(b1, p + 4, v / 4294967296);
}

/// Reads the 16-bit little-endian number at `p`.
pub fn read_u16_le(b: &[u8], p: usize) -> (r: u16)
    requires
        p + 2 <= b@.len(),
    ensures
        r as int == u16_at(b@, p as int),
{
    b[p] as u16 + 256 * (b[p + 1] as u16)
}

/// Reads the 32-bit little-endian number at `p`.
pub fn read_u32_le(b: &[u8], p: usize) -> (r: u32)
    requires
        p + 4 <= b@.len(),
    ensures
        r as int == u32_at(b@, p as int),
{
    let n = b.len();
    read_u16_le(b, p) as u32 + 65536 * (read_u16_le(b, p + 2) as u32)
}

/// Reads the 64-bit little-endian number at `p`.
pub fn read_u64_le(b: &[u8], p: usize) -> (r: u64)
    requires
        p + 8 <= b@.len(),
    ensures
        r as int == u64_at(b@, p as int),
{
    let n = b.len();
    read_u32_le(b, p) as u64 + 4294967296 * (read_u32_le(b, p + 4) as u64)
}

/// Writes `v` as two little-endian bytes at `p`.
pub fn write_u16_le(b: &mut Vec<u8>, p: usize, v: u16)
    requires
        p + 2 <= old(b)@.len(),
    ensures
        final(b)@ == put_u16(old(b)@, p as int, v as int),
{
    let n = b.len();
    b.set(p, (v % 256) as u8);
    b.set(p + 1, (v / 256) as u8);
}

/// Writes `v` as four little-endian bytes at `p`.
pub fn write_u32_le(b: &mut Vec<u8>, p: usize, v: u32)
    requires
        p + 4 <= old(b)@.len(),
    ensures
        final(b)@ == put_u32(old(b)@, p as int, v as int),
{
    let n = b.len();
    write_u16_le(b, p, (v % 65536) as u16);
    write_u16_le(b, p + 2, (v / 65536) as u16);
}

/// Writes `v` as eight little-endian bytes at `p`.
pub fn write_u64_le(b: &mut Vec<u8>, p: usize, v: u64)
    requires
        p + 8 <= old(b)@.len(),
    ensures
        final(b)@ == put_u64(old(b)@, p as int, v as int),
{
    let n = b.len();
    write_u32_le(b, p, (v % 4294967296) as u32);
    write_u32_le(b, p + 4, (v / 4294967296) as u32);
}

} // verus!
