use vstd::prelude::*;

use crate::error::IcoError;

verus! {

/// The little-endian `u16` stored at `b[o..o + 2]`.
pub open spec fn le_u16(b: Seq<u8>, o: int) -> u16 {
    (b[o] as int + 256 * b[o + 1] as int) as u16
}

/// The little-endian `u32` stored at `b[o..o + 4]`.
pub open spec fn le_u32(b: Seq<u8>, o: int) -> u32 {
    (b[o] as int + 0x100 * b[o + 1] as int + 0x1_0000 * b[o + 2] as int + 0x100_0000
        * b[o + 3] as int) as u32
}

/// Reading a `u16` at offset `o`: its value when two bytes are there, else the
/// out-of-bounds error naming `o`.
pub open spec fn spec_u16_at(b: Seq<u8>, o: int) -> Result<u16, IcoError> {
    if 0 <= o && o + 2 <= b.len() {
        Ok(le_u16(b, o))
    } else {
        Err(IcoError::U16OutOfBounds { offset: o as u64 })
    }
}

/// Reading a `u32` at offset `o`: its value when four bytes are there, else the
/// out-of-bounds error naming `o`.
pub open spec fn spec_u32_at(b: Seq<u8>, o: int) -> Result<u32, IcoError> {
    if 0 <= o && o + 4 <= b.len() {
        Ok(le_u32(b, o))
    } else {
        Err(IcoError::U32OutOfBounds { offset: o as u64 })
    }
}

/// The two little-endian bytes of `v` (taken modulo 2^16).
pub open spec fn le16_bytes(v: int) -> Seq<u8> {
    seq![(v % 0x100) as u8, ((v / 0x100) % 0x100) as u8]
}

/// The four little-endian bytes of `v` (taken modulo 2^32).
pub open spec fn le32_bytes(v: int) -> Seq<u8> {
    seq![
        (v % 0x100) as u8,
        ((v / 0x100) % 0x100) as u8,
        ((v / 0x1_0000) % 0x100) as u8,
        ((v / 0x100_0000) % 0x100) as u8,
    ]
}

/// Reads the little-endian `u16` at a 64-bit offset.
pub fn read_u16(b: &[u8], o: u64) -> (r: Result<u16, IcoError>)
    ensures
        r == spec_u16_at(b@, o as int),
{
    let len = b.len() as u64;
    if o <= len && len - o >= 2 {
        let i = o as usize;
        let v: u16 = b[i] as u16 + 256 * (b[i + 1] as u16);
        Ok(v)
    } else {
        Err(IcoError::U16OutOfBounds { offset: o })
    }
}

/// Reads the little-endian `u32` at a 64-bit offset.
pub fn read_u32(b: &[u8], o: u64) -> (r: Result<u32, IcoError>)
    ensures
        r == spec_u32_at(b@, o as int),
{
    let len = b.len() as u64;
    if o <= len && len - o >= 4 {
        let i = o as usize;
        let v: u32 = b[i] as u32 + 0x100 * (b[i + 1] as u32) + 0x1_0000 * (b[i + 2] as u32)
            + 0x100_0000 * (b[i + 3] as u32);
        Ok(v)
    } else {
        Err(IcoError::U32OutOfBounds { offset: o })
    }
}

/// Reads the little-endian `u16` at `b[o..o + 2]`, or fails when those bytes
/// are not all inside `b`.
pub fn u16_at(b: &[u8], o: usize) -> (r: Result<u16, IcoError>)
    ensures
        r == spec_u16_at(b@, o as int),
        r is Ok <==> o + 2 <= b@.len(),
{
    read_u16(b, o as u64)
}

/// Reads the little-endian `u32` at `b[o..o + 4]`, or fails when those bytes
/// are not all inside `b`.
pub fn u32_at(b: &[u8], o: usize) -> (r: Result<u32, IcoError>)
    ensures
        r == spec_u32_at(b@, o as int),
        r is Ok <==> o + 4 <= b@.len(),
{
    read_u32(b, o as u64)
}

/// Writing `v` as two little-endian bytes and reading them back gives `v`.
pub proof fn lemma_le16_roundtrip(b: Seq<u8>, o: int, v: u16)
    requires
        0 <= o,
        o + 2 <= b.len(),
        b.subrange(o, o + 2) == le16_bytes(v as int),
    ensures
        spec_u16_at(b, o) == Ok::<u16, IcoError>(v),
{
    assert(b[o] == b.subrange(o, o + 2)[0]);
    assert(b[o + 1] == b.subrange(o, o + 2)[1]);
}

/// Writing `v` as four little-endian bytes and reading them back gives `v`.
pub proof fn lemma_le32_roundtrip(b: Seq<u8>, o: int, v: u32)
    requires
        0 <= o,
        o + 4 <= b.len(),
        b.subrange(o, o + 4) == le32_bytes(v as int),
    ensures
        spec_u32_at(b, o) == Ok::<u32, IcoError>(v),
{
    assert(b[o] == b.subrange(o, o + 4)[0]);
    assert(b[o + 1] == b.subrange(o, o + 4)[1]);
    assert(b[o + 2] == b.subrange(o, o + 4)[2]);
    assert(b[o + 3] == b.subrange(o, o + 4)[3]);
}

} // verus!
