//! Little-endian primitive readers and writers over byte slices.
use vstd::bytes::*;
use vstd::prelude::*;
use vstd::slice::slice_subrange;

use crate::error::{SudachiError, SudachiResult};

verus! {

/// The value of a little-endian `u16` stored in the first two bytes of `s`.
pub open spec fn spec_le_u16(s: Seq<u8>) -> u16 {
    spec_u16_from_le_bytes(s.take(2))
}

/// The value of a little-endian `u32` stored in the first four bytes of `s`.
pub open spec fn spec_le_u32(s: Seq<u8>) -> u32 {
    spec_u32_from_le_bytes(s.take(4))
}

/// The value of a little-endian `u64` stored in the first eight bytes of `s`.
pub open spec fn spec_le_u64(s: Seq<u8>) -> u64 {
    spec_u64_from_le_bytes(s.take(8))
}

/// The little-endian bytes of an `i16`.
pub open spec fn spec_i16_bytes(v: i16) -> Seq<u8> {
    spec_u16_to_le_bytes(v as u16)
}

/// The little-endian bytes of an `i32`.
pub open spec fn spec_i32_bytes(v: i32) -> Seq<u8> {
    spec_u32_to_le_bytes(v as u32)
}

pub proof fn lemma_i16_cast_round_trip(v: i16)
    ensures
        ((v as u16) as i16) == v,
{
    assert(((v as u16) as i16) == v) by (bit_vector);
}

pub proof fn lemma_i32_cast_round_trip(v: i32)
    ensures
        ((v as u32) as i32) == v,
{
    assert(((v as u32) as i32) == v) by (bit_vector);
}

pub proof fn lemma_i8_cast_round_trip(v: i8)
    ensures
        ((v as u8) as i8) == v,
{
    assert(((v as u8) as i8) == v) by (bit_vector);
}

/// Reading the bytes of a `u16` gives the `u16` back, whatever follows it.
pub proof fn lemma_le_u16_round_trip(v: u16, rest: Seq<u8>)
    ensures
        spec_u16_to_le_bytes(v).len() == 2,
        spec_le_u16(spec_u16_to_le_bytes(v) + rest) == v,
{
    lemma_auto_spec_u16_to_from_le_bytes();
    assert((spec_u16_to_le_bytes(v) + rest).take(2) =~= spec_u16_to_le_bytes(v));
}

/// Reading the bytes of a `u32` gives the `u32` back, whatever follows it.
pub proof fn lemma_le_u32_round_trip(v: u32, rest: Seq<u8>)
    ensures
        spec_u32_to_le_bytes(v).len() == 4,
        spec_le_u32(spec_u32_to_le_bytes(v) + rest) == v,
{
    lemma_auto_spec_u32_to_from_le_bytes();
    assert((spec_u32_to_le_bytes(v) + rest).take(4) =~= spec_u32_to_le_bytes(v));
}

/// Reading the bytes of a `u64` gives the `u64` back, whatever follows it.
pub proof fn lemma_le_u64_round_trip(v: u64, rest: Seq<u8>)
    ensures
        spec_u64_to_le_bytes(v).len() == 8,
        spec_le_u64(spec_u64_to_le_bytes(v) + rest) == v,
{
    lemma_auto_spec_u64_to_from_le_bytes();
    assert((spec_u64_to_le_bytes(v) + rest).take(8) =~= spec_u64_to_le_bytes(v));
}

/// Splits off the first `n` bytes of `input`.
pub fn take(input: &[u8], n: usize) -> (r: SudachiResult<(&[u8], &[u8])>)
    ensures
        r is Ok <==> n <= input@.len(),
        r matches Ok((rest, taken)) ==> rest@ == input@.skip(n as int) && taken@ == input@.take(
            n as int,
        ),
        r matches Err(e) ==> e == SudachiError::UnexpectedEndOfInput,
{
    if n > input.len() {
        return Err(SudachiError::UnexpectedEndOfInput);
    }
    let taken = slice_subrange(input, 0, n);
    let rest = slice_subrange(input, n, input.len());
    proof {
        assert(taken@ =~= input@.take(n as int));
        assert(rest@ =~= input@.skip(n as int));
    }
    Ok((rest, taken))
}

/// Reads one byte as an `i8`.
pub fn le_i8(input: &[u8]) -> (r: SudachiResult<(&[u8], i8)>)
    ensures
        r is Ok <==> 1 <= input@.len(),
        r matches Ok((rest, v)) ==> rest@ == input@.skip(1) && v == input@[0] as i8,
        r matches Err(e) ==> e == SudachiError::UnexpectedEndOfInput,
{
    let (rest, taken) = take(input, 1)?;
    Ok((rest, taken[0] as i8))
}

/// Reads a little-endian `u16`.
pub fn le_u16(input: &[u8]) -> (r: SudachiResult<(&[u8], u16)>)
    ensures
        r is Ok <==> 2 <= input@.len(),
        r matches Ok((rest, v)) ==> rest@ == input@.skip(2) && v == spec_le_u16(input@),
        r matches Err(e) ==> e == SudachiError::UnexpectedEndOfInput,
{
    let (rest, taken) = take(input, 2)?;
    Ok((rest, u16_from_le_bytes(taken)))
}

/// Reads a little-endian `i16`.
pub fn le_i16(input: &[u8]) -> (r: SudachiResult<(&[u8], i16)>)
    ensures
        r is Ok <==> 2 <= input@.len(),
        r matches Ok((rest, v)) ==> rest@ == input@.skip(2) && v == spec_le_u16(input@) as i16,
        r matches Err(e) ==> e == SudachiError::UnexpectedEndOfInput,
{
    let (rest, v) = le_u16(input)?;
    Ok((rest, v as i16))
}

/// Reads a little-endian `u32`.
pub fn le_u32(input: &[u8]) -> (r: SudachiResult<(&[u8], u32)>)
    ensures
        r is Ok <==> 4 <= input@.len(),
        r matches Ok((rest, v)) ==> rest@ == input@.skip(4) && v == spec_le_u32(input@),
        r matches Err(e) ==> e == SudachiError::UnexpectedEndOfInput,
{
    let (rest, taken) = take(input, 4)?;
    Ok((rest, u32_from_le_bytes(taken)))
}

/// Reads a little-endian `i32`.
pub fn le_i32(input: &[u8]) -> (r: SudachiResult<(&[u8], i32)>)
    ensures
        r is Ok <==> 4 <= input@.len(),
        r matches Ok((rest, v)) ==> rest@ == input@.skip(4) && v == spec_le_u32(input@) as i32,
        r matches Err(e) ==> e == SudachiError::UnexpectedEndOfInput,
{
    let (rest, v) = le_u32(input)?;
    Ok((rest, v as i32))
}

/// Reads a little-endian `u64`.
pub fn le_u64(input: &[u8]) -> (r: SudachiResult<(&[u8], u64)>)
    ensures
        r is Ok <==> 8 <= input@.len(),
        r matches Ok((rest, v)) ==> rest@ == input@.skip(8) && v == spec_le_u64(input@),
        r matches Err(e) ==> e == SudachiError::UnexpectedEndOfInput,
{
    let (rest, taken) = take(input, 8)?;
    Ok((rest, u64_from_le_bytes(taken)))
}

/// The `n` little-endian `u32` values at the start of `s`.
pub open spec fn spec_le_u32s(s: Seq<u8>, n: nat) -> Seq<u32> {
    Seq::new(n, |i: int| spec_le_u32(s.skip(4 * i)))
}

/// The `n` little-endian `i32` values at the start of `s`.
pub open spec fn spec_le_i32s(s: Seq<u8>, n: nat) -> Seq<i32> {
    Seq::new(n, |i: int| spec_le_u32(s.skip(4 * i)) as i32)
}

/// Reads `n` little-endian `u32` values.
pub fn count_le_u32(input: &[u8], n: usize) -> (r: SudachiResult<(&[u8], Vec<u32>)>)
    ensures
        r is Ok <==> 4 * n <= input@.len(),
        r matches Ok((rest, v)) ==> rest@ == input@.skip(4 * n) && v@ == spec_le_u32s(input@, n as nat),
        r matches Err(e) ==> e == SudachiError::UnexpectedEndOfInput,
{
    if n > input.len() / 4 {
        return Err(SudachiError::UnexpectedEndOfInput);
    }
    let mut out: Vec<u32> = Vec::with_capacity(n);
    let mut cur = input;
    let mut i: usize = 0;
    while i < n
        invariant
            0 <= i <= n,
            4 * n <= input@.len(),
            cur@ == input@.skip(4 * i),
            out@ =~= spec_le_u32s(input@, i as nat),
        decreases n - i,
    {
        let (rest, v) = le_u32(cur)?;
        proof {
            assert(rest@ =~= input@.skip(4 * (i + 1)));
        }
        out.push(v);
        cur = rest;
        i = i + 1;
    }
    Ok((cur, out))
}

/// Reads `n` little-endian `i32` values.
pub fn count_le_i32(input: &[u8], n: usize) -> (r: SudachiResult<(&[u8], Vec<i32>)>)
    ensures
        r is Ok <==> 4 * n <= input@.len(),
        r matches Ok((rest, v)) ==> rest@ == input@.skip(4 * n) && v@ == spec_le_i32s(input@, n as nat),
        r matches Err(e) ==> e == SudachiError::UnexpectedEndOfInput,
{
    if n > input.len() / 4 {
        return Err(SudachiError::UnexpectedEndOfInput);
    }
    let mut out: Vec<i32> = Vec::with_capacity(n);
    let mut cur = input;
    let mut i: usize = 0;
    while i < n
        invariant
            0 <= i <= n,
            4 * n <= input@.len(),
            cur@ == input@.skip(4 * i),
            out@ =~= spec_le_i32s(input@, i as nat),
        decreases n - i,
    {
        let (rest, v) = le_i32(cur)?;
        proof {
            assert(rest@ =~= input@.skip(4 * (i + 1)));
        }
        out.push(v);
        cur = rest;
        i = i + 1;
    }
    Ok((cur, out))
}

/// Appends the little-endian bytes of a `u16`.
pub fn write_u16(w: &mut Vec<u8>, v: u16)
    ensures
        final(w)@ == old(w)@ + spec_u16_to_le_bytes(v),
{
    let mut b = u16_to_le_bytes(v);
    w.append(&mut b);
}

/// Appends the little-endian bytes of an `i16`.
pub fn write_i16(w: &mut Vec<u8>, v: i16)
    ensures
        final(w)@ == old(w)@ + spec_i16_bytes(v),
{
    write_u16(w, v as u16);
}

/// Appends the little-endian bytes of a `u32`.
pub fn write_u32(w: &mut Vec<u8>, v: u32)
    ensures
        final(w)@ == old(w)@ + spec_u32_to_le_bytes(v),
{
    let mut b = u32_to_le_bytes(v);
    w.append(&mut b);
}

/// Appends the little-endian bytes of an `i32`.
pub fn write_i32(w: &mut Vec<u8>, v: i32)
    ensures
        final(w)@ == old(w)@ + spec_i32_bytes(v),
{
    write_u32(w, v as u32);
}

/// Appends one byte holding an `i8`.
pub fn write_i8(w: &mut Vec<u8>, v: i8)
    ensures
        final(w)@ == old(w)@.push(v as u8),
{
    w.push(v as u8);
}

} // verus!

verus! {

/// Skipping the first part of a concatenation leaves the second part.
pub proof fn lemma_skip_concat(a: Seq<u8>, b: Seq<u8>)
    ensures
        (a + b).skip(a.len() as int) == b,
{
    assert((a + b).skip(a.len() as int) =~= b);
}

} // verus!

verus! {

/// Skipping twice is skipping the sum.
pub proof fn lemma_skip_skip(s: Seq<u8>, i: int, j: int)
    requires
        0 <= i,
        0 <= j,
        i + j <= s.len(),
    ensures
        s.skip(i).skip(j) == s.skip(i + j),
{
    assert(s.skip(i).skip(j) =~= s.skip(i + j));
}

} // verus!
