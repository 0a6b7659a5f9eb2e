//! Big-endian integer fields of the broker's binary payloads.
//!
//! The member-assignment payload stores its version, counts, lengths and
//! partition ids as big-endian two's-complement integers.  This module
//! defines what those byte groups mean as mathematical integers, the
//! executable readers and writers, and the proofs that writing and then
//! reading a value gives it back.

use vstd::prelude::*;
use vstd::arithmetic::div_mod::lemma_fundamental_div_mod;

verus! {

/// The unsigned value of two big-endian bytes.
pub open spec fn be_u16(b0: u8, b1: u8) -> int {
    b0 * 0x100 + b1
}

/// The signed (two's-complement) value of two big-endian bytes.
pub open spec fn be_i16(b0: u8, b1: u8) -> int {
    let u = be_u16(b0, b1);
    if u >= 0x8000 {
        u - 0x10000
    } else {
        u
    }
}

/// The unsigned value of four big-endian bytes.
pub open spec fn be_u32(b0: u8, b1: u8, b2: u8, b3: u8) -> int {
    b0 * 0x1000000 + b1 * 0x10000 + b2 * 0x100 + b3
}

/// The signed (two's-complement) value of four big-endian bytes.
pub open spec fn be_i32(b0: u8, b1: u8, b2: u8, b3: u8) -> int {
    let u = be_u32(b0, b1, b2, b3);
    if u >= 0x8000_0000 {
        u - 0x1_0000_0000
    } else {
        u
    }
}

/// The signed value of the two bytes of `data` starting at `pos`.
pub open spec fn be_i16_at(data: Seq<u8>, pos: int) -> int {
    be_i16(data[pos], data[pos + 1])
}

/// The signed value of the four bytes of `data` starting at `pos`.
pub open spec fn be_i32_at(data: Seq<u8>, pos: int) -> int {
    be_i32(data[pos], data[pos + 1], data[pos + 2], data[pos + 3])
}

/// Reads the big-endian `int16` at `pos`.
pub fn read_i16_be(data: &Vec<u8>, pos: usize) -> (v: i16)
    requires
        pos + 2 <= data.len(),
    ensures
        v as int == be_i16_at(data@, pos as int),
{
    let u: u32 = (data[pos] as u32) * 0x100 + (data[pos + 1] as u32);
    if u >= 0x8000 {
        ((u as i32) - 0x10000) as i16
    } else {
        u as i16
    }
}

/// Reads the big-endian `int32` at `pos`.
pub fn read_i32_be(data: &Vec<u8>, pos: usize) -> (v: i32)
    requires
        pos + 4 <= data.len(),
    ensures
        v as int == be_i32_at(data@, pos as int),
{
    let u: u64 = (data[pos] as u64) * 0x1000000 + (data[pos + 1] as u64) * 0x10000 + (data[pos
        + 2] as u64) * 0x100 + (data[pos + 3] as u64);
    if u >= 0x8000_0000 {
        ((u as i64) - 0x1_0000_0000) as i32
    } else {
        u as i32
    }
}

/// The two big-endian bytes of an unsigned 16-bit value.
pub open spec fn u16_be_bytes(v: int) -> Seq<u8>
    recommends
        0 <= v < 0x10000,
{
    seq![(v / 0x100) as u8, (v % 0x100) as u8]
}

/// The two big-endian bytes of a signed 16-bit value, in two's complement.
pub open spec fn i16_be_bytes(v: int) -> Seq<u8>
    recommends
        -0x8000 <= v < 0x8000,
{
    u16_be_bytes(if v < 0 { v + 0x10000 } else { v })
}

/// The four big-endian bytes of an unsigned 32-bit value.
pub open spec fn u32_be_bytes(v: int) -> Seq<u8>
    recommends
        0 <= v < 0x1_0000_0000,
{
    let r0 = v % 0x1000000;
    let r1 = r0 % 0x10000;
    seq![(v / 0x1000000) as u8, (r0 / 0x10000) as u8, (r1 / 0x100) as u8, (r1 % 0x100) as u8]
}

/// The four big-endian bytes of a signed 32-bit value, in two's complement.
pub open spec fn i32_be_bytes(v: int) -> Seq<u8>
    recommends
        -0x8000_0000 <= v < 0x8000_0000,
{
    u32_be_bytes(if v < 0 { v + 0x1_0000_0000 } else { v })
}

/// Writing an `int16` and reading it back yields the same value.
pub proof fn lemma_i16_be_roundtrip(v: int)
    requires
        -0x8000 <= v < 0x8000,
    ensures
        i16_be_bytes(v).len() == 2,
        be_i16(i16_be_bytes(v)[0], i16_be_bytes(v)[1]) == v,
{
    let u = if v < 0 { v + 0x10000 } else { v };
    lemma_fundamental_div_mod(u, 0x100);
}

/// Writing an `int32` and reading it back yields the same value.
pub proof fn lemma_i32_be_roundtrip(v: int)
    requires
        -0x8000_0000 <= v < 0x8000_0000,
    ensures
        i32_be_bytes(v).len() == 4,
        be_i32(
            i32_be_bytes(v)[0],
            i32_be_bytes(v)[1],
            i32_be_bytes(v)[2],
            i32_be_bytes(v)[3],
        ) == v,
{
    let u = if v < 0 { v + 0x1_0000_0000 } else { v };
    let r0 = u % 0x1000000;
    let r1 = r0 % 0x10000;
    lemma_fundamental_div_mod(u, 0x1000000);
    lemma_fundamental_div_mod(r0, 0x10000);
    lemma_fundamental_div_mod(r1, 0x100);
}

/// Appends the two big-endian bytes of `v` to `out`.
pub fn push_i16_be(out: &mut Vec<u8>, v: i16)
    ensures
        final(out)@ == old(out)@ + i16_be_bytes(v as int),
{
    let u: u16 = if v < 0 { ((v as i32) + 0x10000) as u16 } else { v as u16 };
    out.push((u / 0x100) as u8);
    out.push((u % 0x100) as u8);
    proof {
        assert(out@ =~= old(out)@ + i16_be_bytes(v as int));
    }
}

/// Appends the four big-endian bytes of `v` to `out`.
pub fn push_i32_be(out: &mut Vec<u8>, v: i32)
    ensures
        final(out)@ == old(out)@ + i32_be_bytes(v as int),
{
    let u: u32 = if v < 0 { ((v as i64) + 0x1_0000_0000) as u32 } else { v as u32 };
    let r0: u32 = u % 0x1000000;
    let r1: u32 = r0 % 0x10000;
    out.push((u / 0x1000000) as u8);
    out.push((r0 / 0x10000) as u8);
    out.push((r1 / 0x100) as u8);
    out.push((r1 % 0x100) as u8);
    proof {
        assert(out@ =~= old(out)@ + i32_be_bytes(v as int));
    }
}

} // verus!
