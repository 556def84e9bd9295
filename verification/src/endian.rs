//! Little-endian integers as they lie in a byte sequence.
//!
//! Every integer field of the file format is stored least significant byte
//! first. The spec functions here say what value a run of bytes stands for
//! and which bytes a value is written as; the executable functions read a
//! value at a cursor or append one to a buffer.

use vstd::prelude::*;
use crate::error::WavError;

verus! {

/// `n` bytes can be read from `s` starting at `at`.
pub open spec fn has_bytes(s: Seq<u8>, at: int, n: int) -> bool {
    0 <= at && at + n <= s.len()
}

/// The unsigned 16-bit value stored at `at`.
pub open spec fn u16_le(s: Seq<u8>, at: int) -> u16 {
    (s[at] as int + 256 * (s[at + 1] as int)) as u16
}

/// The unsigned 32-bit value stored at `at`.
pub open spec fn u32_le(s: Seq<u8>, at: int) -> u32 {
    (s[at] as int + 256 * (s[at + 1] as int) + 65536 * (s[at + 2] as int) + 16777216 * (s[at
        + 3] as int)) as u32
}

/// The signed 16-bit value stored at `at`, in two's complement.
pub open spec fn i16_le(s: Seq<u8>, at: int) -> i16 {
    let raw = u16_le(s, at);
    if raw >= 32768 {
        (raw - 65536) as i16
    } else {
        raw as i16
    }
}

/// The two bytes that store `x`.
pub open spec fn u16_bytes(x: u16) -> Seq<u8> {
    seq![(x % 256) as u8, (x / 256) as u8]
}

/// The four bytes that store `x`.
pub open spec fn u32_bytes(x: u32) -> Seq<u8> {
    seq![
        (x % 256) as u8,
        (x / 256 % 256) as u8,
        (x / 65536 % 256) as u8,
        (x / 16777216) as u8,
    ]
}

/// The two bytes that store `x` in two's complement.
pub open spec fn i16_bytes(x: i16) -> Seq<u8> {
    if x < 0 {
        u16_bytes((x + 65536) as u16)
    } else {
        u16_bytes(x as u16)
    }
}

/// Reading back the bytes of a `u16` gives the value, wherever they lie.
pub proof fn lemma_u16_le_of_bytes(s: Seq<u8>, at: int, x: u16)
    requires
        has_bytes(s, at, 2),
        s.subrange(at, at + 2) == u16_bytes(x),
    ensures
        u16_le(s, at) == x,
{
    let part = s.subrange(at, at + 2);
    assert(s[at] == part[0]);
    assert(s[at + 1] == part[1]);
}

/// Reading back the bytes of a `u32` gives the value, wherever they lie.
pub proof fn lemma_u32_le_of_bytes(s: Seq<u8>, at: int, x: u32)
    requires
        has_bytes(s, at, 4),
        s.subrange(at, at + 4) == u32_bytes(x),
    ensures
        u32_le(s, at) == x,
{
    let part = s.subrange(at, at + 4);
    assert(s[at] == part[0]);
    assert(s[at + 1] == part[1]);
    assert(s[at + 2] == part[2]);
    assert(s[at + 3] == part[3]);
}

/// Reading back the bytes of an `i16` gives the value, wherever they lie.
pub proof fn lemma_i16_le_of_bytes(s: Seq<u8>, at: int, x: i16)
    requires
        has_bytes(s, at, 2),
        s.subrange(at, at + 2) == i16_bytes(x),
    ensures
        i16_le(s, at) == x,
{
    let part = s.subrange(at, at + 2);
    assert(s[at] == part[0]);
    assert(s[at + 1] == part[1]);
}

/// Reads an unsigned 32-bit integer at the cursor and moves the cursor past
/// it. Where fewer than four bytes are left, nothing is read and the cursor
/// stays.
pub fn parse_u32(buf: &[u8], offset: &mut usize) -> (r: Result<u32, WavError>)
    ensures
        match r {
            Ok(v) => {
                &&& has_bytes(buf@, *old(offset) as int, 4)
                &&& v == u32_le(buf@, *old(offset) as int)
                &&& *final(offset) == *old(offset) + 4
            },
            Err(e) => {
                &&& !has_bytes(buf@, *old(offset) as int, 4)
                &&& e == WavError::UnexpectedEof
                &&& *final(offset) == *old(offset)
            },
        },
{
    let at: usize = *offset;
    if at > buf.len() || buf.len() - at < 4 {
        return Err(WavError::UnexpectedEof);
    }
    let num: u32 = buf[at] as u32 + 256 * (buf[at + 1] as u32) + 65536 * (buf[at + 2] as u32)
        + 16777216 * (buf[at + 3] as u32);
    *offset = at + 4;
    Ok(num)
}

/// Reads an unsigned 16-bit integer at the cursor and moves the cursor past
/// it. Where fewer than two bytes are left, nothing is read and the cursor
/// stays.
pub fn parse_u16(buf: &[u8], offset: &mut usize) -> (r: Result<u16, WavError>)
    ensures
        match r {
            Ok(v) => {
                &&& has_bytes(buf@, *old(offset) as int, 2)
                &&& v == u16_le(buf@, *old(offset) as int)
                &&& *final(offset) == *old(offset) + 2
            },
            Err(e) => {
                &&& !has_bytes(buf@, *old(offset) as int, 2)
                &&& e == WavError::UnexpectedEof
                &&& *final(offset) == *old(offset)
            },
        },
{
    let at: usize = *offset;
    if at > buf.len() || buf.len() - at < 2 {
        return Err(WavError::UnexpectedEof);
    }
    let num: u16 = buf[at] as u16 + 256 * (buf[at + 1] as u16);
    *offset = at + 2;
    Ok(num)
}

/// Reads a signed 16-bit integer at the cursor and moves the cursor past it.
/// Where fewer than two bytes are left, nothing is read and the cursor stays.
pub fn parse_i16(buf: &[u8], offset: &mut usize) -> (r: Result<i16, WavError>)
    ensures
        match r {
            Ok(v) => {
                &&& has_bytes(buf@, *old(offset) as int, 2)
                &&& v == i16_le(buf@, *old(offset) as int)
                &&& *final(offset) == *old(offset) + 2
            },
            Err(e) => {
                &&& !has_bytes(buf@, *old(offset) as int, 2)
                &&& e == WavError::UnexpectedEof
                &&& *final(offset) == *old(offset)
            },
        },
{
    let raw: u16 = parse_u16(buf, offset)?;
    if raw >= 32768 {
        Ok((raw as i32 - 65536) as i16)
    } else {
        Ok(raw as i16)
    }
}

/// Appends the two bytes of `x`.
pub fn write_u16(buf: &mut Vec<u8>, x: u16)
    ensures
        final(buf)@ == old(buf)@ + u16_bytes(x),
{
    buf.push((x % 256) as u8);
    buf.push((x / 256) as u8);
}

/// Appends the four bytes of `x`.
pub fn write_u32(buf: &mut Vec<u8>, x: u32)
    ensures
        final(buf)@ == old(buf)@ + u32_bytes(x),
{
    buf.push((x % 256) as u8);
    buf.push((x / 256 % 256) as u8);
    buf.push((x / 65536 % 256) as u8);
    buf.push((x / 16777216) as u8);
}

/// Appends the two bytes of `x`.
pub fn write_i16(buf: &mut Vec<u8>, x: i16)
    ensures
        final(buf)@ == old(buf)@ + i16_bytes(x),
{
    if x < 0 {
        write_u16(buf, (x as i32 + 65536) as u16);
    } else {
        write_u16(buf, x as u16);
    }
}

} // verus!
