//! Parsing of single fields of the dictionary sources: numbers and unicode escapes.
use vstd::prelude::*;

use crate::dic::build::error::BuildFailure;
use crate::util::{char_from_u32, chars_of, string_from_chars};

verus! {

/// Whether `c` is an ASCII decimal digit.
pub open spec fn is_dec_digit(c: char) -> bool {
    '0' <= c && c <= '9'
}

/// The value of a decimal digit.
pub open spec fn digit_value(c: char) -> int {
    (c as int) - ('0' as int)
}

/// Whether every char of `s` is a decimal digit.
pub open spec fn all_dec_digits(s: Seq<char>) -> bool {
    forall|i: int| 0 <= i < s.len() ==> #[trigger] is_dec_digit(s[i])
}

/// The value of a sequence of decimal digits.
pub open spec fn dec_value(s: Seq<char>) -> int
    decreases s.len(),
{
    if s.len() == 0 {
        0
    } else {
        dec_value(s.drop_last()) * 10 + digit_value(s.last())
    }
}

/// The number of sign chars at the start of `s`: one for a leading `+` or `-`.
pub open spec fn sign_len(s: Seq<char>) -> int {
    if s.len() > 0 && (s[0] == '-' || s[0] == '+') {
        1
    } else {
        0
    }
}

/// What `i16::from_str` gives: an optional `+` or `-`, then one or more decimal
/// digits, whose value must fit in `i16`.
pub open spec fn spec_parse_i16(s: Seq<char>) -> Option<i16> {
    let digits = s.skip(sign_len(s));
    let v: int = if s.len() > 0 && s[0] == '-' {
        -dec_value(digits)
    } else {
        dec_value(digits)
    };
    if digits.len() == 0 || !all_dec_digits(digits) {
        None
    } else if -32768 <= v <= 32767 {
        Some(v as i16)
    } else {
        None
    }
}

pub proof fn lemma_dec_value_step(s: Seq<char>, i: int)
    requires
        0 <= i < s.len(),
    ensures
        dec_value(s.take(i + 1)) == dec_value(s.take(i)) * 10 + digit_value(s[i]),
{
    assert(s.take(i + 1).drop_last() =~= s.take(i));
}

pub proof fn lemma_dec_value_grows(s: Seq<char>, i: int, j: int)
    requires
        0 <= i <= j <= s.len(),
        all_dec_digits(s),
    ensures
        0 <= dec_value(s.take(i)) <= dec_value(s.take(j)),
    decreases j,
{
    if j == 0 {
        assert(s.take(0).len() == 0);
    } else {
        lemma_dec_value_grows(s, if i == j { j - 1 } else { i }, j - 1);
        lemma_dec_value_step(s, j - 1);
        assert(is_dec_digit(s[j - 1]));
    }
}

/// A number of type `i16` written in decimal, as `i16::from_str` reads it.
pub fn parse_i16(data: &str) -> (r: Result<i16, BuildFailure>)
    ensures
        r matches Ok(v) ==> spec_parse_i16(data@) == Some(v),
        r is Err ==> spec_parse_i16(data@) is None && (r matches Err(
            BuildFailure::InvalidI16Literal(m),
        ) && m@ == data@),
{
    let cs = chars_of(data);
    let n = cs.len();
    let neg = n > 0 && cs[0] == '-';
    let start: usize = if n > 0 && (cs[0] == '-' || cs[0] == '+') {
        1
    } else {
        0
    };
    let ghost digits = data@.skip(sign_len(data@));
    assert(digits =~= cs@.skip(start as int));
    if start >= n {
        return Err(BuildFailure::InvalidI16Literal(data.to_owned()));
    }
    let limit: u32 = if neg {
        32768
    } else {
        32767
    };
    let mut acc: u32 = 0;
    let mut i = start;
    while i < n
        invariant
            start <= i <= n,
            n == cs@.len(),
            digits == cs@.skip(start as int),
            acc == dec_value(digits.take(i - start)),
            acc <= limit,
            limit == (if neg { 32768u32 } else { 32767u32 }),
            neg == (data@.len() > 0 && data@[0] == '-'),
            digits == data@.skip(sign_len(data@)),
            cs@ == data@,
            forall|k: int| 0 <= k < i - start ==> is_dec_digit(#[trigger] digits[k]),
        decreases n - i,
    {
        let c = cs[i];
        if !('0' <= c && c <= '9') {
            assert(!is_dec_digit(digits[i - start]));
            assert(!all_dec_digits(digits));
            assert(spec_parse_i16(data@) is None);
            return Err(BuildFailure::InvalidI16Literal(data.to_owned()));
        }
        proof {
            lemma_dec_value_step(digits, i - start);
        }
        let d = (c as u32) - ('0' as u32);
        let next = acc * 10 + d;
        if next > limit {
            proof {
                assert(digits[i - start] == c);
                assert(dec_value(digits.take(i - start + 1)) == next);
                if all_dec_digits(digits) {
                    lemma_dec_value_grows(digits, i - start + 1, digits.len() as int);
                    assert(digits.take(digits.len() as int) =~= digits);
                    assert(dec_value(digits) > limit);
                }
                assert(spec_parse_i16(data@) is None);
            }
            return Err(BuildFailure::InvalidI16Literal(data.to_owned()));
        }
        acc = next;
        i = i + 1;
    }
    assert(digits.take(n - start) =~= digits);
    if neg {
        Ok((0 - (acc as i32)) as i16)
    } else {
        Ok(acc as i16)
    }
}


/// The value of a hexadecimal digit, if `c` is one.
pub open spec fn hex_digit(c: char) -> Option<int> {
    if '0' <= c && c <= '9' {
        Some((c as int) - ('0' as int))
    } else if 'a' <= c && c <= 'f' {
        Some((c as int) - ('a' as int) + 10)
    } else if 'A' <= c && c <= 'F' {
        Some((c as int) - ('A' as int) + 10)
    } else {
        None
    }
}

/// The value of a sequence of hexadecimal digits.
pub open spec fn hex_value(s: Seq<char>) -> int
    decreases s.len(),
{
    if s.len() == 0 {
        0
    } else {
        hex_value(s.drop_last()) * 16 + hex_digit(s.last()).unwrap()
    }
}

/// The number of hexadecimal digits in a row from index `i` of `s`.
pub open spec fn hex_run(s: Seq<char>, i: int) -> nat
    decreases s.len() - i,
{
    if 0 <= i < s.len() && hex_digit(s[i]) is Some {
        1 + hex_run(s, i + 1)
    } else {
        0
    }
}

/// Whether `n` is a Unicode scalar value: a code point that is no surrogate.
pub open spec fn is_scalar_value(n: int) -> bool {
    (0 <= n <= 0xD7FF) || (0xE000 <= n <= 0x10FFFF)
}

/// The unicode escape starting at index `i` of `s`, if one does: `\u` and four
/// hexadecimal digits, or `\u{`, one or more hexadecimal digits and `}`. It gives
/// the code written and the index just after the escape.
pub open spec fn escape_at(s: Seq<char>, i: int) -> Option<(int, int)> {
    if 0 <= i && i + 2 <= s.len() && s[i] == '\\' && s[i + 1] == 'u' {
        if hex_run(s, i + 2) >= 4 {
            Some((hex_value(s.subrange(i + 2, i + 6)), i + 6))
        } else if i + 2 < s.len() && s[i + 2] == '{' && hex_run(s, i + 3) >= 1 && i + 3 + hex_run(
            s,
            i + 3,
        ) < s.len() && s[i + 3 + hex_run(s, i + 3)] == '}' {
            Some((hex_value(s.subrange(i + 3, i + 3 + hex_run(s, i + 3))), i + 4 + hex_run(s, i + 3)))
        } else {
            None
        }
    } else {
        None
    }
}

/// The text of `s` from index `i` with each unicode escape replaced by the char it
/// names; `None` when an escape names no char.
pub open spec fn unescape_from(s: Seq<char>, i: int) -> Option<Seq<char>>
    decreases s.len() - i,
{
    if i < 0 || i >= s.len() {
        Some(Seq::empty())
    } else {
        match escape_at(s, i) {
            Some((code, end)) => if is_scalar_value(code) && i < end <= s.len() {
                match unescape_from(s, end) {
                    Some(rest) => Some(seq![code as char] + rest),
                    None => None,
                }
            } else {
                None
            },
            None => match unescape_from(s, i + 1) {
                Some(rest) => Some(seq![s[i]] + rest),
                None => None,
            },
        }
    }
}

/// Replaces each unicode escape (`\uXXXX` or `\u{X..}`) by the char it names.
pub fn unescape(data: &str) -> (r: Result<String, BuildFailure>)
    ensures
        r matches Ok(v) ==> unescape_from(data@, 0) == Some(v@),
        r is Err ==> unescape_from(data@, 0) is None && r matches Err(
            BuildFailure::InvalidCharLiteral(_),
        ),
{
    let cs = chars_of(data);
    let n = cs.len();
    let mut out: Vec<char> = Vec::new();
    let mut i: usize = 0;
    while i < n
        invariant
            i <= n,
            n == cs@.len(),
            cs@ == data@,
            unescape_from(cs@, 0) == match unescape_from(cs@, i as int) {
                Some(rest) => Some(out@ + rest),
                None => None,
            },
        decreases n - i,
    {
        match escape_code(&cs, i) {
            Some((code, end)) => {
                match char_from_u32(code) {
                    Some(c) => {
                        proof {
                            lemma_unescape_escape(cs@, i as int, code, c);
                        }
                        out.push(c);
                        i = end;
                    },
                    None => {
                        return Err(BuildFailure::InvalidCharLiteral(data.to_owned()));
                    },
                }
            },
            None => {
                out.push(cs[i]);
                i = i + 1;
            },
        }
    }
    Ok(string_from_chars(out.as_slice()))
}

/// The value of a hexadecimal digit.
fn hex_digit_of(c: char) -> (r: Option<u32>)
    ensures
        r matches Some(v) ==> hex_digit(c) == Some(v as int) && v < 16,
        r is None ==> hex_digit(c) is None,
{
    if '0' <= c && c <= '9' {
        Some((c as u32) - ('0' as u32))
    } else if 'a' <= c && c <= 'f' {
        Some((c as u32) - ('a' as u32) + 10)
    } else if 'A' <= c && c <= 'F' {
        Some((c as u32) - ('A' as u32) + 10)
    } else {
        None
    }
}

/// The number of hexadecimal digits in a row from index `j`.
fn hex_run_at(cs: &Vec<char>, j: usize) -> (r: usize)
    requires
        j <= cs.len(),
    ensures
        r == hex_run(cs@, j as int),
        j + r <= cs.len(),
{
    let mut k = j;
    while k < cs.len() && hex_digit_of(cs[k]).is_some()
        invariant
            j <= k <= cs.len(),
            hex_run(cs@, j as int) == (k - j) + hex_run(cs@, k as int),
        decreases cs.len() - k,
    {
        k = k + 1;
    }
    k - j
}

proof fn lemma_hex_value_step(s: Seq<char>, a: int, b: int)
    requires
        0 <= a <= b < s.len(),
    ensures
        hex_value(s.subrange(a, b + 1)) == hex_value(s.subrange(a, b)) * 16 + hex_digit(
            s[b],
        ).unwrap(),
{
    assert(s.subrange(a, b + 1).drop_last() =~= s.subrange(a, b));
}

proof fn lemma_hex_value_grows(s: Seq<char>, a: int, b: int, c: int)
    requires
        0 <= a <= b <= c <= s.len(),
        forall|k: int| a <= k < c ==> hex_digit(#[trigger] s[k]) is Some,
    ensures
        0 <= hex_value(s.subrange(a, b)) <= hex_value(s.subrange(a, c)),
    decreases c,
{
    if c == a {
        assert(s.subrange(a, a).len() == 0);
    } else {
        lemma_hex_value_grows(s, a, if b == c { c - 1 } else { b }, c - 1);
        lemma_hex_value_step(s, a, c - 1);
        assert(hex_digit(s[c - 1]) is Some);
    }
}

/// The value of the hexadecimal digits at `a..b` when it is a scalar value; a value
/// that is no scalar value otherwise.
fn hex_code(cs: &Vec<char>, a: usize, b: usize) -> (r: u32)
    requires
        a <= b <= cs.len(),
        forall|k: int| a <= k < b ==> hex_digit(#[trigger] cs@[k]) is Some,
    ensures
        is_scalar_value(hex_value(cs@.subrange(a as int, b as int))) <==> vstd::utf8::is_scalar(r),
        is_scalar_value(hex_value(cs@.subrange(a as int, b as int))) ==> r as int == hex_value(
            cs@.subrange(a as int, b as int),
        ),
{
    let mut acc: u32 = 0;
    let mut k = a;
    assert(cs@.subrange(a as int, a as int).len() == 0);
    while k < b
        invariant
            a <= k <= b <= cs.len(),
            forall|j: int| a <= j < b ==> hex_digit(#[trigger] cs@[j]) is Some,
            acc as int == hex_value(cs@.subrange(a as int, k as int)),
            acc <= 0x10FFFF,
        decreases b - k,
    {
        let d = hex_digit_of(cs[k]).unwrap();
        proof {
            lemma_hex_value_step(cs@, a as int, k as int);
        }
        let next = acc * 16 + d;
        if next > 0x10FFFF {
            proof {
                lemma_hex_value_grows(cs@, a as int, k + 1, b as int);
            }
            return 0x110000;
        }
        acc = next;
        k = k + 1;
    }
    acc
}

/// The unicode escape starting at index `i`: the code it writes (a value that is no
/// scalar value when the code is none) and the index after it.
fn escape_code(cs: &Vec<char>, i: usize) -> (r: Option<(u32, usize)>)
    requires
        i < cs.len(),
    ensures
        r is None <==> escape_at(cs@, i as int) is None,
        r matches Some((v, e)) ==> escape_at(cs@, i as int) matches Some((code, end)) && e == end
            && i < e <= cs.len() && (is_scalar_value(code) <==> vstd::utf8::is_scalar(v)) && (
        is_scalar_value(code) ==> v as int == code),
{
    let n = cs.len();
    if !(n - i >= 2 && cs[i] == '\\' && cs[i + 1] == 'u') {
        return None;
    }
    let run = hex_run_at(cs, i + 2);
    if run >= 4 {
        proof {
            assert forall|k: int| i + 2 <= k < i + 6 implies hex_digit(#[trigger] cs@[k]) is Some by {
                lemma_hex_run_prefix(cs@, i + 2, k);
            }
        }
        return Some((hex_code(cs, i + 2, i + 6), i + 6));
    }
    if i + 2 < n && cs[i + 2] == '{' {
        let run = hex_run_at(cs, i + 3);
        if run >= 1 && i + 3 + run < n && cs[i + 3 + run] == '}' {
            proof {
                assert forall|k: int| i + 3 <= k < i + 3 + run implies hex_digit(
                    #[trigger] cs@[k],
                ) is Some by {
                    lemma_hex_run_prefix(cs@, i + 3, k);
                }
            }
            return Some((hex_code(cs, i + 3, i + 3 + run), i + 4 + run));
        }
    }
    None
}

proof fn lemma_hex_run_prefix(s: Seq<char>, j: int, k: int)
    requires
        0 <= j <= k < j + hex_run(s, j),
    ensures
        hex_digit(s[k]) is Some,
    decreases k - j,
{
    if j < k {
        lemma_hex_run_prefix(s, j + 1, k);
    }
}

proof fn lemma_unescape_escape(s: Seq<char>, i: int, v: u32, c: char)
    requires
        0 <= i < s.len(),
        c as u32 == v,
        escape_at(s, i) matches Some((code, end)) && i < end <= s.len() && code == v as int,
    ensures
        unescape_from(s, i) == match unescape_from(s, escape_at(s, i).unwrap().1) {
            Some(rest) => Some(seq![c] + rest),
            None => None,
        },
{
    let code = escape_at(s, i).unwrap().0;
    assert(is_scalar_value(code));
    assert(code as char == c);
}

} // verus!
