//! Reading and writing the variable-length arrays of a word entry.
use vstd::bytes::{spec_u16_to_le_bytes, spec_u32_to_le_bytes};
use vstd::prelude::*;

use vstd::bytes::{lemma_auto_spec_u16_to_from_le_bytes, lemma_auto_spec_u32_to_from_le_bytes};

use crate::dic::read::primitives::{
    count_le_i32, count_le_u32, lemma_i16_cast_round_trip, lemma_i32_cast_round_trip,
    lemma_le_u16_round_trip, lemma_le_u32_round_trip, spec_i16_bytes, spec_i32_bytes, spec_le_i32s,
    spec_le_u16, spec_le_u32, spec_le_u32s, take, write_i16, write_i32, write_u16, write_u32,
};
use crate::dic::read::utf16_string::{
    encode_utf16, skip_utf16_string, spec_le_u16s, spec_utf16_encode, spec_utf16_string,
    utf16_round_trip, utf16_string,
};
use crate::error::{SudachiError, SudachiResult};

verus! {

/// The bytes of a sequence of `u32` values.
pub open spec fn spec_u32s_bytes(data: Seq<u32>) -> Seq<u8>
    decreases data.len(),
{
    if data.len() == 0 {
        seq![]
    } else {
        spec_u32s_bytes(data.drop_last()) + spec_u32_to_le_bytes(data.last())
    }
}

/// The bytes of a sequence of `i32` values.
pub open spec fn spec_i32s_bytes(data: Seq<i32>) -> Seq<u8>
    decreases data.len(),
{
    if data.len() == 0 {
        seq![]
    } else {
        spec_i32s_bytes(data.drop_last()) + spec_i32_bytes(data.last())
    }
}

/// The bytes of a sequence of UTF-16 code units.
pub open spec fn spec_u16s_bytes(data: Seq<u16>) -> Seq<u8>
    decreases data.len(),
{
    if data.len() == 0 {
        seq![]
    } else {
        spec_u16s_bytes(data.drop_last()) + spec_u16_to_le_bytes(data.last())
    }
}

/// The bytes of a length-prefixed UTF-16 string (the length is cut to 16 bits).
pub open spec fn spec_utf16_string_bytes(s: Seq<char>) -> Seq<u8> {
    spec_i16_bytes(spec_utf16_encode(s).len() as i16) + spec_u16s_bytes(spec_utf16_encode(s))
}

/// Reads `length` `u32` values, or skips their bytes when `keep` is false.
pub fn parse_u32_array(input: &[u8], length: usize, keep: bool) -> (r: SudachiResult<
    (&[u8], Vec<u32>),
>)
    ensures
        r is Ok <==> 4 * length <= input@.len(),
        r matches Ok((rest, v)) ==> rest@ == input@.skip(4 * length) && v@ == (if keep {
            spec_le_u32s(input@, length as nat)
        } else {
            Seq::empty()
        }),
{
    if keep {
        count_le_u32(input, length)
    } else {
        if length > input.len() / 4 {
            return Err(SudachiError::UnexpectedEndOfInput);
        }
        let (rest, _) = take(input, length * 4)?;
        Ok((rest, Vec::new()))
    }
}

/// Reads `length` `i32` values, or skips their bytes when `keep` is false.
pub fn parse_i32_array(input: &[u8], length: usize, keep: bool) -> (r: SudachiResult<
    (&[u8], Vec<i32>),
>)
    ensures
        r is Ok <==> 4 * length <= input@.len(),
        r matches Ok((rest, v)) ==> rest@ == input@.skip(4 * length) && v@ == (if keep {
            spec_le_i32s(input@, length as nat)
        } else {
            Seq::empty()
        }),
{
    if keep {
        count_le_i32(input, length)
    } else {
        if length > input.len() / 4 {
            return Err(SudachiError::UnexpectedEndOfInput);
        }
        let (rest, _) = take(input, length * 4)?;
        Ok((rest, Vec::new()))
    }
}

/// Reads the user data string, or skips it (giving an empty string) when `keep` is false.
pub fn parse_user_data(input: &[u8], keep: bool) -> (r: SudachiResult<(&[u8], String)>)
    ensures
        keep ==> (r is Ok <==> spec_utf16_string(input@) is Some),
        keep ==> (r matches Ok((rest, s)) ==> spec_utf16_string(input@) == Some((rest@, s@))),
        !keep ==> (r matches Ok((rest, s)) ==> s@.len() == 0),
{
    if keep {
        utf16_string(input)
    } else {
        skip_utf16_string(input)
    }
}

/// Appends the bytes of `u32` values and returns their count of bytes.
pub fn write_u32_slice(w: &mut Vec<u8>, data: &[u32]) -> (r: usize)
    requires
        4 * data@.len() <= usize::MAX,
    ensures
        final(w)@ == old(w)@ + spec_u32s_bytes(data@),
        r == 4 * data@.len(),
{
    let ghost w0 = w@;
    let mut size: usize = 0;
    let mut i: usize = 0;
    while i < data.len()
        invariant
            0 <= i <= data@.len(),
            4 * data@.len() <= usize::MAX,
            size == 4 * i,
            w@ == w0 + spec_u32s_bytes(data@.take(i as int)),
        decreases data@.len() - i,
    {
        write_u32(w, data[i]);
        proof {
            assert(data@.take(i + 1).drop_last() =~= data@.take(i as int));
            assert(w@ =~= w0 + spec_u32s_bytes(data@.take(i + 1)));
        }
        size = size + 4;
        i = i + 1;
    }
    proof {
        assert(data@.take(data@.len() as int) =~= data@);
    }
    size
}

/// Appends the bytes of `i32` values and returns their count of bytes.
pub fn write_i32_slice(w: &mut Vec<u8>, data: &[i32]) -> (r: usize)
    requires
        4 * data@.len() <= usize::MAX,
    ensures
        final(w)@ == old(w)@ + spec_i32s_bytes(data@),
        r == 4 * data@.len(),
{
    let ghost w0 = w@;
    let mut size: usize = 0;
    let mut i: usize = 0;
    while i < data.len()
        invariant
            0 <= i <= data@.len(),
            4 * data@.len() <= usize::MAX,
            size == 4 * i,
            w@ == w0 + spec_i32s_bytes(data@.take(i as int)),
        decreases data@.len() - i,
    {
        write_i32(w, data[i]);
        proof {
            assert(data@.take(i + 1).drop_last() =~= data@.take(i as int));
            assert(w@ =~= w0 + spec_i32s_bytes(data@.take(i + 1)));
        }
        size = size + 4;
        i = i + 1;
    }
    proof {
        assert(data@.take(data@.len() as int) =~= data@);
    }
    size
}

/// Appends the bytes of UTF-16 code units.
pub fn write_u16_slice(w: &mut Vec<u8>, data: &[u16]) -> (r: usize)
    requires
        2 * data@.len() <= usize::MAX,
    ensures
        final(w)@ == old(w)@ + spec_u16s_bytes(data@),
        r == 2 * data@.len(),
{
    let ghost w0 = w@;
    let mut size: usize = 0;
    let mut i: usize = 0;
    while i < data.len()
        invariant
            0 <= i <= data@.len(),
            2 * data@.len() <= usize::MAX,
            size == 2 * i,
            w@ == w0 + spec_u16s_bytes(data@.take(i as int)),
        decreases data@.len() - i,
    {
        write_u16(w, data[i]);
        proof {
            assert(data@.take(i + 1).drop_last() =~= data@.take(i as int));
            assert(w@ =~= w0 + spec_u16s_bytes(data@.take(i + 1)));
        }
        size = size + 2;
        i = i + 1;
    }
    proof {
        assert(data@.take(data@.len() as int) =~= data@);
    }
    size
}

/// Appends a length-prefixed UTF-16 string and returns its count of bytes.
/// The length prefix is the number of code units cut to 16 bits.
pub fn write_utf16_string(w: &mut Vec<u8>, data: &str) -> (r: usize)
    requires
        2 + 2 * spec_utf16_encode(data@).len() <= usize::MAX,
    ensures
        final(w)@ == old(w)@ + spec_utf16_string_bytes(data@),
        r == 2 + 2 * spec_utf16_encode(data@).len(),
{
    let utf16 = encode_utf16(data);
    let ghost w0 = w@;
    write_i16(w, utf16.len() as i16);
    let n = write_u16_slice(w, utf16.as_slice());
    proof {
        assert(w@ =~= w0 + spec_utf16_string_bytes(data@));
    }
    2 + n
}


/// The bytes of `u32` values read back give the values.
pub proof fn lemma_u32s_round_trip(d: Seq<u32>, rest: Seq<u8>)
    ensures
        spec_u32s_bytes(d).len() == 4 * d.len(),
        spec_le_u32s(spec_u32s_bytes(d) + rest, d.len()) == d,
        (spec_u32s_bytes(d) + rest).skip(4 * d.len() as int) == rest,
    decreases d.len(),
{
    lemma_auto_spec_u32_to_from_le_bytes();
    if d.len() > 0 {
        let d0 = d.drop_last();
        lemma_u32s_round_trip(d0, spec_u32_to_le_bytes(d.last()) + rest);
        assert(spec_u32s_bytes(d) + rest =~= spec_u32s_bytes(d0) + (spec_u32_to_le_bytes(d.last())
            + rest));
        let x = spec_u32s_bytes(d) + rest;
        assert forall|i: int| 0 <= i < d.len() implies spec_le_u32(x.skip(4 * i)) == d[i] by {
            if i < d0.len() {
                assert(spec_le_u32s(x, d0.len())[i] == d0[i]);
            } else {
                assert(x.skip(4 * i) =~= spec_u32_to_le_bytes(d.last()) + rest);
                lemma_le_u32_round_trip(d.last(), rest);
            }
        }
        assert(spec_le_u32s(x, d.len()) =~= d);
        assert(x.skip(4 * d.len() as int) =~= rest);
    } else {
        assert(spec_le_u32s(spec_u32s_bytes(d) + rest, 0) =~= d);
        assert((spec_u32s_bytes(d) + rest).skip(0) =~= rest);
    }
}

/// The bytes of `i32` values read back give the values.
pub proof fn lemma_i32s_round_trip(d: Seq<i32>, rest: Seq<u8>)
    ensures
        spec_i32s_bytes(d).len() == 4 * d.len(),
        spec_le_i32s(spec_i32s_bytes(d) + rest, d.len()) == d,
        (spec_i32s_bytes(d) + rest).skip(4 * d.len() as int) == rest,
    decreases d.len(),
{
    lemma_auto_spec_u32_to_from_le_bytes();
    if d.len() > 0 {
        let d0 = d.drop_last();
        lemma_i32s_round_trip(d0, spec_i32_bytes(d.last()) + rest);
        assert(spec_i32s_bytes(d) + rest =~= spec_i32s_bytes(d0) + (spec_i32_bytes(d.last())
            + rest));
        let x = spec_i32s_bytes(d) + rest;
        assert forall|i: int| 0 <= i < d.len() implies spec_le_u32(x.skip(4 * i)) as i32 == d[i] by {
            if i < d0.len() {
                assert(spec_le_i32s(x, d0.len())[i] == d0[i]);
            } else {
                assert(x.skip(4 * i) =~= spec_i32_bytes(d.last()) + rest);
                lemma_le_u32_round_trip(d.last() as u32, rest);
                lemma_i32_cast_round_trip(d.last());
            }
        }
        assert(spec_le_i32s(x, d.len()) =~= d);
        assert(x.skip(4 * d.len() as int) =~= rest);
    } else {
        assert(spec_le_i32s(spec_i32s_bytes(d) + rest, 0) =~= d);
        assert((spec_i32s_bytes(d) + rest).skip(0) =~= rest);
    }
}

/// The bytes of UTF-16 code units read back give the units.
pub proof fn lemma_u16s_round_trip(d: Seq<u16>, rest: Seq<u8>)
    ensures
        spec_u16s_bytes(d).len() == 2 * d.len(),
        spec_le_u16s(spec_u16s_bytes(d) + rest, d.len()) == d,
        (spec_u16s_bytes(d) + rest).skip(2 * d.len() as int) == rest,
    decreases d.len(),
{
    lemma_auto_spec_u16_to_from_le_bytes();
    if d.len() > 0 {
        let d0 = d.drop_last();
        lemma_u16s_round_trip(d0, spec_u16_to_le_bytes(d.last()) + rest);
        assert(spec_u16s_bytes(d) + rest =~= spec_u16s_bytes(d0) + (spec_u16_to_le_bytes(d.last())
            + rest));
        let x = spec_u16s_bytes(d) + rest;
        assert forall|i: int| 0 <= i < d.len() implies spec_le_u16(x.skip(2 * i)) == d[i] by {
            if i < d0.len() {
                assert(spec_le_u16s(x, d0.len())[i] == d0[i]);
            } else {
                assert(x.skip(2 * i) =~= spec_u16_to_le_bytes(d.last()) + rest);
                lemma_le_u16_round_trip(d.last(), rest);
            }
        }
        assert(spec_le_u16s(x, d.len()) =~= d);
        assert(x.skip(2 * d.len() as int) =~= rest);
    } else {
        assert(spec_le_u16s(spec_u16s_bytes(d) + rest, 0) =~= d);
        assert((spec_u16s_bytes(d) + rest).skip(0) =~= rest);
    }
}

/// A written length-prefixed UTF-16 string reads back as the same string
/// (when its code units fit the 16-bit length).
pub proof fn lemma_utf16_string_round_trip(s: Seq<char>, rest: Seq<u8>)
    requires
        spec_utf16_encode(s).len() <= 0x7fff,
    ensures
        spec_utf16_string(spec_utf16_string_bytes(s) + rest) == Some((rest, s)),
        spec_utf16_string_bytes(s).len() == 2 + 2 * spec_utf16_encode(s).len(),
{
    let u = spec_utf16_encode(s);
    let n = u.len();
    let x = spec_utf16_string_bytes(s) + rest;
    lemma_u16s_round_trip(u, rest);
    assert(x =~= spec_i16_bytes(n as i16) + (spec_u16s_bytes(u) + rest));
    lemma_le_u16_round_trip(n as i16 as u16, spec_u16s_bytes(u) + rest);
    lemma_i16_cast_round_trip(n as i16);
    assert(spec_le_u16(x) as i16 == n as i16);
    assert(x.skip(2) =~= spec_u16s_bytes(u) + rest);
    assert(x.skip(2 + 2 * n as int) =~= rest);
    utf16_round_trip(s);
}

/// The size of the bytes of a length-prefixed UTF-16 string.
pub proof fn lemma_utf16_string_bytes_len(s: Seq<char>)
    ensures
        spec_utf16_string_bytes(s).len() == 2 + 2 * spec_utf16_encode(s).len(),
{
    lemma_u16s_round_trip(spec_utf16_encode(s), seq![]);
    lemma_auto_spec_u16_to_from_le_bytes();
}

} // verus!
