//! Little-endian codec for the fixed-width integer fields of the archive
//! format: spec-level readers over byte sequences, executable readers and
//! writers proved against them.

use vstd::prelude::*;

verus! {

/// The unsigned 16-bit value stored little-endian at offset `i`.
pub open spec fn le_u16(b: Seq<u8>, i: int) -> u16 {
    (b[i] + b[i + 1] * 0x100) as u16
}

/// The unsigned 32-bit value stored little-endian at offset `i`.
pub open spec fn le_u32(b: Seq<u8>, i: int) -> u32 {
    (le_u16(b, i) + le_u16(b, i + 2) * 0x10000) as u32
}

/// The unsigned 64-bit value stored little-endian at offset `i`.
pub open spec fn le_u64(b: Seq<u8>, i: int) -> u64 {
    (le_u32(b, i) + le_u32(b, i + 4) * 0x1_0000_0000) as u64
}

/// The signed 16-bit value stored little-endian (two's complement) at
/// offset `i`.
pub open spec fn le_i16(b: Seq<u8>, i: int) -> i16 {
    if le_u16(b, i) < 0x8000 {
        le_u16(b, i) as i16
    } else {
        (le_u16(b, i) - 0x10000) as i16
    }
}

pub fn read_u16(b: &Vec<u8>, i: usize) -> (r: u16)
    requires
        i + 2 <= b@.len(),
    ensures
        r == le_u16(b@, i as int),
{
    let _n: usize = b.len();
    let lo: u16 = b[i] as u16;
    let hi: u16 = b[i + 1] as u16;
    lo + hi * 0x100
}

pub fn read_u32(b: &Vec<u8>, i: usize) -> (r: u32)
    requires
        i + 4 <= b@.len(),
    ensures
        r == le_u32(b@, i as int),
{
    let _n: usize = b.len();
    let lo: u32 = read_u16(b, i) as u32;
    let hi: u32 = read_u16(b, i + 2) as u32;
    lo + hi * 0x10000
}

pub fn read_u64(b: &Vec<u8>, i: usize) -> (r: u64)
    requires
        i + 8 <= b@.len(),
    ensures
        r == le_u64(b@, i as int),
{
    let _n: usize = b.len();
    let lo: u64 = read_u32(b, i) as u64;
    let hi: u64 = read_u32(b, i + 4) as u64;
    lo + hi * 0x1_0000_0000
}

pub fn read_i16(b: &Vec<u8>, i: usize) -> (r: i16)
    requires
        i + 2 <= b@.len(),
    ensures
        r == le_i16(b@, i as int),
{
    let u: u16 = read_u16(b, i);
    if u < 0x8000 {
        u as i16
    } else {
        ((u as i32) - 0x10000) as i16
    }
}

pub fn push_u16(out: &mut Vec<u8>, x: u16)
    ensures
        final(out)@.len() == old(out)@.len() + 2,
        forall|j: int| 0 <= j < old(out)@.len() ==> final(out)@[j] == old(out)@[j],
        le_u16(final(out)@, old(out)@.len() as int) == x,
{
    out.push((x % 0x100) as u8);
    out.push((x / 0x100) as u8);
}

pub fn push_u32(out: &mut Vec<u8>, x: u32)
    ensures
        final(out)@.len() == old(out)@.len() + 4,
        forall|j: int| 0 <= j < old(out)@.len() ==> final(out)@[j] == old(out)@[j],
        le_u32(final(out)@, old(out)@.len() as int) == x,
{
    push_u16(out, (x % 0x10000) as u16);
    push_u16(out, (x / 0x10000) as u16);
}

pub fn push_u64(out: &mut Vec<u8>, x: u64)
    ensures
        final(out)@.len() == old(out)@.len() + 8,
        forall|j: int| 0 <= j < old(out)@.len() ==> final(out)@[j] == old(out)@[j],
        le_u64(final(out)@, old(out)@.len() as int) == x,
{
    push_u32(out, (x % 0x1_0000_0000) as u32);
    push_u32(out, (x / 0x1_0000_0000) as u32);
}

pub fn push_i16(out: &mut Vec<u8>, x: i16)
    ensures
        final(out)@.len() == old(out)@.len() + 2,
        forall|j: int| 0 <= j < old(out)@.len() ==> final(out)@[j] == old(out)@[j],
        le_i16(final(out)@, old(out)@.len() as int) == x,
{
    let u: u16 = if x >= 0 {
        x as u16
    } else {
        ((x as i32) + 0x10000) as u16
    };
    push_u16(out, u);
}

/// Reading a 16-bit value out of a subrange sees the same bytes as reading
/// it from the enclosing sequence.
pub proof fn lemma_le_u16_subrange(b: Seq<u8>, lo: int, hi: int, i: int)
    requires
        0 <= lo <= hi <= b.len(),
        0 <= i,
        lo + i + 2 <= hi,
    ensures
        le_u16(b.subrange(lo, hi), i) == le_u16(b, lo + i),
{
    assert(b.subrange(lo, hi)[i] == b[lo + i]);
    assert(b.subrange(lo, hi)[i + 1] == b[lo + i + 1]);
}

pub proof fn lemma_le_u32_subrange(b: Seq<u8>, lo: int, hi: int, i: int)
    requires
        0 <= lo <= hi <= b.len(),
        0 <= i,
        lo + i + 4 <= hi,
    ensures
        le_u32(b.subrange(lo, hi), i) == le_u32(b, lo + i),
{
    lemma_le_u16_subrange(b, lo, hi, i);
    lemma_le_u16_subrange(b, lo, hi, i + 2);
}

pub proof fn lemma_le_u64_subrange(b: Seq<u8>, lo: int, hi: int, i: int)
    requires
        0 <= lo <= hi <= b.len(),
        0 <= i,
        lo + i + 8 <= hi,
    ensures
        le_u64(b.subrange(lo, hi), i) == le_u64(b, lo + i),
{
    lemma_le_u32_subrange(b, lo, hi, i);
    lemma_le_u32_subrange(b, lo, hi, i + 4);
}

pub proof fn lemma_le_i16_subrange(b: Seq<u8>, lo: int, hi: int, i: int)
    requires
        0 <= lo <= hi <= b.len(),
        0 <= i,
        lo + i + 2 <= hi,
    ensures
        le_i16(b.subrange(lo, hi), i) == le_i16(b, lo + i),
{
    lemma_le_u16_subrange(b, lo, hi, i);
}

} // verus!
