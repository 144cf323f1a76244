//! UTF-16 strings stored in the binary dictionary.
use vstd::prelude::*;
use vstd::string::StrSliceExecFns;
use vstd::utf8::{char_is_scalar, char_u32_cast, is_scalar};

use crate::dic::read::primitives::{le_i16, le_u16, spec_le_u16, take};
use crate::error::{SudachiError, SudachiResult};
use crate::util::{char_from_u32, string_from_chars};

verus! {

/// A high (leading) surrogate code unit.
pub open spec fn is_high_surrogate(u: u16) -> bool {
    0xD800 <= u <= 0xDBFF
}

/// A low (trailing) surrogate code unit.
pub open spec fn is_low_surrogate(u: u16) -> bool {
    0xDC00 <= u <= 0xDFFF
}

/// The scalar value a surrogate pair encodes.
pub open spec fn spec_pair_value(hi: u16, lo: u16) -> u32 {
    (0x10000 + (hi - 0xD800) * 0x400 + (lo - 0xDC00)) as u32
}

/// The UTF-16 code units of one char.
pub open spec fn spec_utf16_encode_char(c: char) -> Seq<u16> {
    let v = c as u32;
    if v < 0x10000 {
        seq![v as u16]
    } else {
        seq![(0xD800 + (v - 0x10000) / 0x400) as u16, (0xDC00 + (v - 0x10000) % 0x400) as u16]
    }
}

/// The UTF-16 code units of a char sequence.
pub open spec fn spec_utf16_encode(s: Seq<char>) -> Seq<u16>
    decreases s.len(),
{
    if s.len() == 0 {
        seq![]
    } else {
        spec_utf16_encode_char(s[0]) + spec_utf16_encode(s.drop_first())
    }
}

/// The chars that UTF-16 code units decode to, or `None` when the units hold an
/// unpaired surrogate.
pub open spec fn spec_utf16_decode(u: Seq<u16>) -> Option<Seq<char>>
    decreases u.len(),
{
    if u.len() == 0 {
        Some(seq![])
    } else if is_high_surrogate(u[0]) {
        if u.len() >= 2 && is_low_surrogate(u[1]) {
            match spec_utf16_decode(u.skip(2)) {
                Some(r) => Some(seq![spec_pair_value(u[0], u[1]) as char] + r),
                None => None,
            }
        } else {
            None
        }
    } else if is_low_surrogate(u[0]) {
        None
    } else {
        match spec_utf16_decode(u.skip(1)) {
            Some(r) => Some(seq![(u[0] as u32) as char] + r),
            None => None,
        }
    }
}

/// The `n` little-endian code units at the start of `s`.
pub open spec fn spec_le_u16s(s: Seq<u8>, n: nat) -> Seq<u16> {
    Seq::new(n, |i: int| spec_le_u16(s.skip(2 * i)))
}

/// Decoding the UTF-16 encoding of a char sequence gives the sequence back.
pub proof fn utf16_round_trip(s: Seq<char>)
    ensures
        spec_utf16_decode(spec_utf16_encode(s)) == Some(s),
    decreases s.len(),
{
    if s.len() > 0 {
        let c = s[0];
        let v = c as u32;
        let rest = s.drop_first();
        let e = spec_utf16_encode(s);
        let ec = spec_utf16_encode_char(c);
        char_is_scalar(c);
        char_u32_cast(c, v);
        utf16_round_trip(rest);
        assert(e =~= ec + spec_utf16_encode(rest));
        if v < 0x10000 {
            assert(e.skip(1) =~= spec_utf16_encode(rest));
            assert(e[0] == v as u16);
            assert((e[0] as u32) == v);
        } else {
            let hi = (0xD800 + (v - 0x10000) / 0x400) as u16;
            let lo = (0xDC00 + (v - 0x10000) % 0x400) as u16;
            assert(e.skip(2) =~= spec_utf16_encode(rest));
            assert(e[0] == hi && e[1] == lo);
            assert(spec_pair_value(hi, lo) == v);
        }
        assert(seq![c] + rest =~= s);
    }
}

/// Decodes UTF-16 code units into chars, or returns `None` on an unpaired surrogate.
pub fn decode_utf16(units: &[u16]) -> (r: Option<Vec<char>>)
    ensures
        r is Some <==> spec_utf16_decode(units@) is Some,
        r matches Some(v) ==> spec_utf16_decode(units@) == Some(v@),
{
    let mut out: Vec<char> = Vec::new();
    let mut i: usize = 0;
    let n = units.len();
    proof {
        assert(units@.skip(0) =~= units@);
        match spec_utf16_decode(units@) {
            Some(r) => {
                assert(out@ + r =~= r);
            },
            None => {},
        }
    }
    while i < n
        invariant
            0 <= i <= n,
            n == units@.len(),
            spec_utf16_decode(units@) == match spec_utf16_decode(units@.skip(i as int)) {
                Some(r) => Some(out@ + r),
                None => None,
            },
        decreases n - i,
    {
        let ghost tail = units@.skip(i as int);
        let u = units[i];
        if 0xD800 <= u && u <= 0xDBFF {
            if i + 1 < n && 0xDC00 <= units[i + 1] && units[i + 1] <= 0xDFFF {
                let lo = units[i + 1];
                let v: u32 = 0x10000 + ((u - 0xD800) as u32) * 0x400 + ((lo - 0xDC00) as u32);
                let c = match char_from_u32(v) {
                    Some(c) => c,
                    None => {
                        proof {
                            assert(is_scalar(v));
                        }
                        return None;
                    },
                };
                proof {
                    char_u32_cast(c, v);
                    assert(tail.skip(2) =~= units@.skip(i + 2));
                    assert(v == spec_pair_value(tail[0], tail[1]));
                    match spec_utf16_decode(units@.skip(i + 2)) {
                        Some(r) => {
                            assert(out@.push(c) + r =~= out@ + (seq![c] + r));
                        },
                        None => {},
                    }
                }
                out.push(c);
                i = i + 2;
            } else {
                return None;
            }
        } else if 0xDC00 <= u && u <= 0xDFFF {
            return None;
        } else {
            let v = u as u32;
            let c = match char_from_u32(v) {
                Some(c) => c,
                None => {
                    proof {
                        assert(is_scalar(v));
                    }
                    return None;
                },
            };
            proof {
                char_u32_cast(c, v);
                assert(tail.skip(1) =~= units@.skip(i + 1));
                match spec_utf16_decode(units@.skip(i + 1)) {
                    Some(r) => {
                        assert(out@.push(c) + r =~= out@ + (seq![c] + r));
                    },
                    None => {},
                }
            }
            out.push(c);
            i = i + 1;
        }
    }
    proof {
        assert(units@.skip(n as int) =~= Seq::<u16>::empty());
        assert(out@ + Seq::<char>::empty() =~= out@);
    }
    Some(out)
}

/// The UTF-16 code units of a string.
pub fn encode_utf16(s: &str) -> (r: Vec<u16>)
    ensures
        r@ == spec_utf16_encode(s@),
{
    let n = s.unicode_len();
    let mut out: Vec<u16> = Vec::new();
    let mut i: usize = 0;
    proof {
        assert(s@.skip(0) =~= s@);
        assert(out@ + spec_utf16_encode(s@) =~= spec_utf16_encode(s@));
    }
    while i < n
        invariant
            0 <= i <= n,
            n == s@.len(),
            spec_utf16_encode(s@) == out@ + spec_utf16_encode(s@.skip(i as int)),
        decreases n - i,
    {
        let c = s.get_char(i);
        let ghost tail = s@.skip(i as int);
        proof {
            assert(tail[0] == c);
            assert(tail.drop_first() =~= s@.skip(i + 1));
            char_is_scalar(c);
        }
        let v = c as u32;
        if v < 0x10000 {
            out.push(v as u16);
            proof {
                assert(out@ + spec_utf16_encode(s@.skip(i + 1)) =~= out@.drop_last() + (
                spec_utf16_encode_char(c) + spec_utf16_encode(tail.drop_first())));
            }
        } else {
            let hi = (0xD800 + (v - 0x10000) / 0x400) as u16;
            let lo = (0xDC00 + (v - 0x10000) % 0x400) as u16;
            let ghost before = out@;
            out.push(hi);
            out.push(lo);
            proof {
                assert(out@ + spec_utf16_encode(s@.skip(i + 1)) =~= before + (
                spec_utf16_encode_char(c) + spec_utf16_encode(tail.drop_first())));
            }
        }
        i = i + 1;
    }
    proof {
        assert(s@.skip(n as int) =~= Seq::<char>::empty());
        assert(out@ + Seq::<u16>::empty() =~= out@);
    }
    out
}

/// Reads `n` little-endian code units.
pub fn read_u16s(input: &[u8], n: usize) -> (r: SudachiResult<(&[u8], Vec<u16>)>)
    ensures
        r is Ok <==> 2 * n <= input@.len(),
        r matches Ok((rest, v)) ==> rest@ == input@.skip(2 * n) && v@ == spec_le_u16s(input@, n as nat),
        r matches Err(e) ==> e == SudachiError::UnexpectedEndOfInput,
{
    if n > input.len() / 2 {
        return Err(SudachiError::UnexpectedEndOfInput);
    }
    let mut out: Vec<u16> = Vec::with_capacity(n);
    let mut cur = input;
    let mut i: usize = 0;
    while i < n
        invariant
            0 <= i <= n,
            2 * n <= input@.len(),
            cur@ == input@.skip(2 * i),
            out@ =~= spec_le_u16s(input@, i as nat),
        decreases n - i,
    {
        let (rest, v) = le_u16(cur)?;
        proof {
            assert(rest@ =~= input@.skip(2 * (i + 1)));
        }
        out.push(v);
        cur = rest;
        i = i + 1;
    }
    Ok((cur, out))
}

/// The string of `char_length` UTF-16 code units at the start of `s` and the number
/// of bytes it takes, or `None` when the bytes run out or do not decode.
pub open spec fn spec_utf16_string_of_length(s: Seq<u8>, char_length: nat) -> Option<
    Seq<char>,
> {
    if 2 * char_length > s.len() {
        None
    } else {
        spec_utf16_decode(spec_le_u16s(s, char_length))
    }
}

/// Reads a UTF-16 string of `char_length` code units.
pub fn utf16_string_of_length(input: &[u8], char_length: usize) -> (r: SudachiResult<
    (&[u8], String),
>)
    ensures
        r is Ok <==> spec_utf16_string_of_length(input@, char_length as nat) is Some,
        r matches Ok((rest, s)) ==> rest@ == input@.skip(2 * char_length) && Some(s@)
            == spec_utf16_string_of_length(input@, char_length as nat),
        r matches Err(e) ==> e == SudachiError::InvalidUtf16,
{
    let (rest, units) = match read_u16s(input, char_length) {
        Ok(v) => v,
        Err(_) => return Err(SudachiError::InvalidUtf16),
    };
    match decode_utf16(units.as_slice()) {
        Some(chars) => Ok((rest, string_from_chars(chars.as_slice()))),
        None => Err(SudachiError::InvalidUtf16),
    }
}

/// The string stored as a little-endian `i16` length followed by that many code units,
/// and the bytes after it.
pub open spec fn spec_utf16_string(s: Seq<u8>) -> Option<(Seq<u8>, Seq<char>)> {
    if s.len() < 2 {
        None
    } else {
        let len = spec_le_u16(s) as i16;
        if len < 0 {
            None
        } else {
            match spec_utf16_string_of_length(s.skip(2), len as nat) {
                Some(chars) => Some((s.skip(2 + 2 * len), chars)),
                None => None,
            }
        }
    }
}

/// Reads a length-prefixed UTF-16 string.
pub fn utf16_string(input: &[u8]) -> (r: SudachiResult<(&[u8], String)>)
    ensures
        r is Ok <==> spec_utf16_string(input@) is Some,
        r matches Ok((rest, s)) ==> spec_utf16_string(input@) == Some((rest@, s@)),
{
    let (rest, char_length) = le_i16(input)?;
    if char_length < 0 {
        return Err(SudachiError::InvalidUtf16);
    }
    let (rest2, s) = utf16_string_of_length(rest, char_length as usize)?;
    proof {
        assert(rest2@ =~= input@.skip(2 + 2 * char_length));
    }
    Ok((rest2, s))
}

/// Skips a length-prefixed UTF-16 string without decoding it, giving an empty string.
pub fn skip_utf16_string(input: &[u8]) -> (r: SudachiResult<(&[u8], String)>)
    ensures
        r is Ok <==> (input@.len() >= 2 && spec_le_u16(input@) as i16 >= 0 && 2 + 2 * (spec_le_u16(
            input@,
        ) as i16) <= input@.len()),
        r matches Ok((rest, s)) ==> rest@ == input@.skip(2 + 2 * (spec_le_u16(input@) as i16))
            && s@.len() == 0,
{
    let (rest, length) = le_i16(input)?;
    if length < 0 {
        return Err(SudachiError::InvalidUtf16);
    }
    let (rest2, _) = take(rest, 2 * (length as usize))?;
    proof {
        assert(rest2@ =~= input@.skip(2 + 2 * length));
    }
    Ok((rest2, String::new()))
}

} // verus!
