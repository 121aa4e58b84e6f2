//! Little-endian field access on byte slices.
use vstd::prelude::*;

verus! {

/// Unsigned 16-bit little-endian value stored at `off`.
pub open spec fn u16_at(s: Seq<u8>, off: int) -> u16 {
    (s[off] as int + 256 * (s[off + 1] as int)) as u16
}

/// Unsigned 32-bit little-endian value stored at `off`.
pub open spec fn u32_at(s: Seq<u8>, off: int) -> u32 {
    (s[off] as int + 256 * (s[off + 1] as int) + 65536 * (s[off + 2] as int) + 16777216 * (
    s[off + 3] as int)) as u32
}

/// Two's-complement reading of a 32-bit pattern.
pub open spec fn i32_of(v: u32) -> i32 {
    if v < 0x8000_0000 {
        v as i32
    } else {
        (v - 0x1_0000_0000) as i32
    }
}

/// Two's-complement reading of a 16-bit pattern.
pub open spec fn i16_of(v: u16) -> i16 {
    if v < 0x8000 {
        v as i16
    } else {
        (v - 0x1_0000) as i16
    }
}

/// Signed 32-bit little-endian value stored at `off`.
pub open spec fn i32_at(s: Seq<u8>, off: int) -> i32 {
    i32_of(u32_at(s, off))
}

/// Signed 16-bit little-endian value stored at `off`.
pub open spec fn i16_at(s: Seq<u8>, off: int) -> i16 {
    i16_of(u16_at(s, off))
}

/// `n` bytes starting at `off` lie inside `s`.
pub open spec fn fits(s: Seq<u8>, off: int, n: int) -> bool {
    0 <= off && off + n <= s.len()
}

/// Reads a 16-bit value, `None` when the two bytes are not all inside `data`.
pub fn le_u16(data: &[u8], offset: usize) -> (r: Option<u16>)
    ensures
        r == (if fits(data@, offset as int, 2) {
            Some(u16_at(data@, offset as int))
        } else {
            None::<u16>
        }),
{
    if offset < data.len() && data.len() - offset >= 2 {
        let v: u16 = data[offset] as u16 + (data[offset + 1] as u16) * 256;
        Some(v)
    } else {
        None
    }
}

/// Reads a 32-bit value, `None` when the four bytes are not all inside `data`.
pub fn le_u32(data: &[u8], offset: usize) -> (r: Option<u32>)
    ensures
        r == (if fits(data@, offset as int, 4) {
            Some(u32_at(data@, offset as int))
        } else {
            None::<u32>
        }),
{
    if offset < data.len() && data.len() - offset >= 4 {
        let v: u32 = data[offset] as u32 + (data[offset + 1] as u32) * 256 + (data[offset
            + 2] as u32) * 65536 + (data[offset + 3] as u32) * 16777216;
        Some(v)
    } else {
        None
    }
}

/// Reinterprets a 32-bit pattern as a signed value.
pub fn to_i32(v: u32) -> (r: i32)
    ensures
        r == i32_of(v),
{
    if v < 0x8000_0000 {
        v as i32
    } else {
        let w: i64 = v as i64 - 0x1_0000_0000i64;
        w as i32
    }
}

/// Reinterprets a 16-bit pattern as a signed value.
pub fn to_i16(v: u16) -> (r: i16)
    ensures
        r == i16_of(v),
{
    if v < 0x8000 {
        v as i16
    } else {
        let w: i32 = v as i32 - 0x1_0000i32;
        w as i16
    }
}

/// First two bytes of `bytes` as an unsigned 16-bit value.
pub fn u16_from(bytes: &[u8]) -> (r: u16)
    requires
        bytes.len() >= 2,
    ensures
        r == u16_at(bytes@, 0),
{
    bytes[0] as u16 + (bytes[1] as u16) * 256
}

/// First two bytes of `bytes` as a signed 16-bit value.
pub fn i16_from(bytes: &[u8]) -> (r: i16)
    requires
        bytes.len() >= 2,
    ensures
        r == i16_at(bytes@, 0),
{
    to_i16(u16_from(bytes))
}

/// First four bytes of `bytes` as an unsigned 32-bit value.
pub fn u32_from(bytes: &[u8]) -> (r: u32)
    requires
        bytes.len() >= 4,
    ensures
        r == u32_at(bytes@, 0),
{
    bytes[0] as u32 + (bytes[1] as u32) * 256 + (bytes[2] as u32) * 65536 + (bytes[3] as u32)
        * 16777216
}

/// First four bytes of `bytes` as a signed 32-bit value.
pub fn i32_from(bytes: &[u8]) -> (r: i32)
    requires
        bytes.len() >= 4,
    ensures
        r == i32_at(bytes@, 0),
{
    to_i32(u32_from(bytes))
}

/// `data[start..start + len]` when it lies inside `data`.
pub fn sub_slice(data: &[u8], start: usize, len: usize) -> (r: Option<&[u8]>)
    ensures
        r matches Some(x) ==> x@ == data@.subrange(start as int, start + len),
        r is Some <==> start + len <= data.len(),
{
    if start <= data.len() && data.len() - start >= len {
        Some(slice_range(data, start, start + len))
    } else {
        None
    }
}

/// `data[start..end]`.
pub fn slice_range(data: &[u8], start: usize, end: usize) -> (r: &[u8])
    requires
        start <= end <= data.len(),
    ensures
        r@ == data@.subrange(start as int, end as int),
{
    let r = vstd::slice::slice_subrange(data, start, end);
    r
}

} // verus!
