//! Splitting the fields of a lexicon row into parts, and the small parsers of its
//! fields: numbers, splitting modes and word id literals.
use vstd::prelude::*;

use crate::analysis::Mode;
use crate::dic::build::error::BuildFailure;
use crate::dic::build::parse::{
    all_dec_digits, dec_value, digit_value, is_dec_digit, lemma_dec_value_grows,
    lemma_dec_value_step,
};
use crate::util::{chars_of, string_from_chars};

verus! {

/// The index of the first `sep` in `s`, or the length of `s` when there is none.
pub open spec fn sep_index(s: Seq<char>, sep: char) -> int
    decreases s.len(),
{
    if s.len() == 0 {
        0
    } else if s[0] == sep {
        0
    } else {
        1 + sep_index(s.skip(1), sep)
    }
}

/// The parts of `s` between the separators `sep`, at most `n` of them: the last part
/// keeps the rest of the text, separators included, as `str::splitn` gives them.
pub open spec fn split_n(s: Seq<char>, sep: char, n: nat) -> Seq<Seq<char>>
    decreases n,
{
    if n <= 1 || sep_index(s, sep) >= s.len() {
        seq![s]
    } else {
        let i = sep_index(s, sep);
        seq![s.take(i)] + split_n(s.skip(i + 1), sep, (n - 1) as nat)
    }
}

/// All the parts of `s` between the separators `sep`, as `str::split` gives them.
pub open spec fn split_all(s: Seq<char>, sep: char) -> Seq<Seq<char>> {
    split_n(s, sep, s.len() + 1)
}

/// How many times `c` occurs in `s`.
pub open spec fn count_char(s: Seq<char>, c: char) -> nat
    decreases s.len(),
{
    if s.len() == 0 {
        0
    } else {
        count_char(s.drop_last(), c) + if s.last() == c {
            1nat
        } else {
            0nat
        }
    }
}

/// The chars of each part.
pub open spec fn parts_view(parts: Seq<Vec<char>>) -> Seq<Seq<char>> {
    parts.map_values(|p: Vec<char>| p@)
}

proof fn lemma_sep_index(s: Seq<char>, sep: char, m: int)
    requires
        0 <= m <= s.len(),
        forall|k: int| 0 <= k < m ==> s[k] != sep,
        m == s.len() || s[m] == sep,
    ensures
        sep_index(s, sep) == m,
    decreases m,
{
    if m > 0 {
        assert forall|k: int| 0 <= k < m - 1 implies s.skip(1)[k] != sep by {
            assert(s.skip(1)[k] == s[k + 1]);
        }
        if m < s.len() {
            assert(s.skip(1)[m - 1] == s[m]);
        }
        lemma_sep_index(s.skip(1), sep, m - 1);
    }
}

/// The chars of `cs` from `a` up to `b`.
fn sub_chars(cs: &Vec<char>, a: usize, b: usize) -> (r: Vec<char>)
    requires
        a <= b <= cs@.len(),
    ensures
        r@ == cs@.subrange(a as int, b as int),
{
    let mut out: Vec<char> = Vec::new();
    let mut i = a;
    while i < b
        invariant
            a <= i <= b,
            b <= cs@.len(),
            out@ == cs@.subrange(a as int, i as int),
        decreases b - i,
    {
        out.push(cs[i]);
        i = i + 1;
    }
    out
}

/// The first index from `start` on where `sep` stands, or the length of `cs`.
fn find_sep(cs: &Vec<char>, start: usize, sep: char) -> (j: usize)
    requires
        start <= cs@.len(),
    ensures
        start <= j <= cs@.len(),
        sep_index(cs@.skip(start as int), sep) == j - start,
{
    let mut j = start;
    while j < cs.len() && cs[j] != sep
        invariant
            start <= j <= cs@.len(),
            forall|k: int| start <= k < j ==> cs@[k] != sep,
        decreases cs@.len() - j,
    {
        j = j + 1;
    }
    proof {
        let t = cs@.skip(start as int);
        assert forall|k: int| 0 <= k < j - start implies t[k] != sep by {
            assert(t[k] == cs@[start + k]);
        }
        if j < cs@.len() {
            assert(t[j - start] == cs@[j as int]);
        }
        lemma_sep_index(t, sep, j - start);
    }
    j
}

/// Splits `cs` at `sep` into at most `n` parts, as `str::splitn` does.
pub fn split_chars(cs: &Vec<char>, sep: char, n: usize) -> (r: Vec<Vec<char>>)
    requires
        n >= 1,
    ensures
        parts_view(r@) == split_n(cs@, sep, n as nat),
{
    let mut parts: Vec<Vec<char>> = Vec::new();
    let mut start: usize = 0;
    let mut done = false;
    proof {
        assert(cs@.skip(0) =~= cs@);
        assert(parts_view(parts@) =~= Seq::<Seq<char>>::empty());
    }
    while !done && parts.len() + 1 < n
        invariant
            start <= cs@.len(),
            parts@.len() < n,
            split_n(cs@, sep, n as nat) == parts_view(parts@) + split_n(
                cs@.skip(start as int),
                sep,
                (n - parts@.len()) as nat,
            ),
            done ==> sep_index(cs@.skip(start as int), sep) >= cs@.len() - start,
        decreases n - parts@.len() + (if done { 0int } else { 1int }),
    {
        let j = find_sep(cs, start, sep);
        if j >= cs.len() {
            done = true;
        } else {
            let part = sub_chars(cs, start, j);
            proof {
                let t = cs@.skip(start as int);
                let i = j - start;
                assert(t.take(i) =~= part@);
                assert(t.skip(i + 1) =~= cs@.skip(j + 1));
                assert(parts_view(parts@.push(part)) =~= parts_view(parts@).push(part@));
            }
            parts.push(part);
            start = j + 1;
        }
    }
    let last = sub_chars(cs, start, cs.len());
    proof {
        let t = cs@.skip(start as int);
        assert(last@ =~= t);
        assert(split_n(t, sep, (n - parts@.len()) as nat) == seq![t]);
        assert(parts_view(parts@.push(last)) =~= parts_view(parts@).push(last@));
    }
    parts.push(last);
    parts
}

/// The number of times `c` occurs in `cs`.
pub fn count_chars(cs: &Vec<char>, c: char) -> (r: usize)
    ensures
        r == count_char(cs@, c),
{
    let mut n: usize = 0;
    let mut i: usize = 0;
    while i < cs.len()
        invariant
            0 <= i <= cs@.len(),
            n == count_char(cs@.take(i as int), c),
            n <= i,
        decreases cs@.len() - i,
    {
        if cs[i] == c {
            n = n + 1;
        }
        i = i + 1;
        proof {
            assert(cs@.take(i as int).drop_last() =~= cs@.take(i - 1));
        }
    }
    proof {
        assert(cs@.take(i as int) =~= cs@);
    }
    n
}

/// The value of the decimal digits of `cs` from `a` up to `b`, when they are all
/// digits, there is at least one, and the value is at most `limit`.
fn digits_value(cs: &Vec<char>, a: usize, b: usize, limit: u32) -> (r: Option<u32>)
    requires
        a <= b <= cs@.len(),
    ensures
        ({
            let d = cs@.subrange(a as int, b as int);
            r == if d.len() > 0 && all_dec_digits(d) && dec_value(d) <= limit {
                Some(dec_value(d) as u32)
            } else {
                None::<u32>
            }
        }),
{
    let ghost d = cs@.subrange(a as int, b as int);
    if a >= b {
        return None;
    }
    let mut acc: u64 = 0;
    let mut i = a;
    while i < b
        invariant
            a <= i <= b,
            b <= cs@.len(),
            d == cs@.subrange(a as int, b as int),
            acc == dec_value(d.take(i - a)),
            acc <= limit,
            forall|k: int| 0 <= k < i - a ==> is_dec_digit(#[trigger] d[k]),
        decreases b - i,
    {
        let c = cs[i];
        assert(d[i - a] == c);
        if !('0' <= c && c <= '9') {
            assert(!is_dec_digit(d[i - a]));
            return None;
        }
        proof {
            lemma_dec_value_step(d, i - a);
        }
        let next: u64 = acc * 10 + ((c as u32) - ('0' as u32)) as u64;
        if next > limit as u64 {
            proof {
                if all_dec_digits(d) {
                    lemma_dec_value_grows(d, i - a + 1, d.len() as int);
                    assert(d.take(d.len() as int) =~= d);
                }
            }
            return None;
        }
        acc = next;
        i = i + 1;
    }
    assert(d.take(b - a) =~= d);
    Some(acc as u32)
}

/// What `u32::from_str` gives: an optional `+`, then one or more decimal digits,
/// whose value must fit in `u32`.
pub open spec fn spec_parse_u32(s: Seq<char>) -> Option<u32> {
    let d = if s.len() > 0 && s[0] == '+' {
        s.skip(1)
    } else {
        s
    };
    if d.len() > 0 && all_dec_digits(d) && dec_value(d) <= u32::MAX {
        Some(dec_value(d) as u32)
    } else {
        None
    }
}

/// A number of type `u32` written in decimal, as `u32::from_str` reads it.
pub fn parse_u32(data: &str) -> (r: Result<u32, BuildFailure>)
    ensures
        match spec_parse_u32(data@) {
            Some(v) => r == Ok::<u32, BuildFailure>(v),
            None => r matches Err(BuildFailure::InvalidU32Literal(m)) && m@ == data@,
        },
{
    let cs = chars_of(data);
    let start: usize = if cs.len() > 0 && cs[0] == '+' {
        1
    } else {
        0
    };
    proof {
        assert(cs@.subrange(start as int, cs@.len() as int) =~= if cs@.len() > 0 && cs@[0] == '+' {
            cs@.skip(1)
        } else {
            cs@
        });
    }
    match digits_value(&cs, start, cs.len(), u32::MAX) {
        Some(v) => Ok(v),
        None => Err(BuildFailure::InvalidU32Literal(data.to_owned())),
    }
}

/// The splitting mode a field names: `A`, `B` or `C` in either case, and `*` for `C`.
pub open spec fn spec_parse_mode(s: Seq<char>) -> Option<Mode> {
    if s == seq!['A'] || s == seq!['a'] {
        Some(Mode::A)
    } else if s == seq!['B'] || s == seq!['b'] {
        Some(Mode::B)
    } else if s == seq!['C'] || s == seq!['c'] || s == seq!['*'] {
        Some(Mode::C)
    } else {
        None
    }
}

/// Whether `c` names splitting mode `m`: its letter in either case, and `*` for C.
pub open spec fn names_mode(c: char, m: Mode) -> bool {
    match m {
        Mode::A => c == 'A' || c == 'a',
        Mode::B => c == 'B' || c == 'b',
        Mode::C => c == 'C' || c == 'c' || c == '*',
    }
}

/// A splitting mode field reads as mode `m` exactly when it is one char that names
/// `m`; so `A`, `B` and `C` read as three different modes, each the one it names.
pub proof fn mode_field_reads_the_mode_it_names(s: Seq<char>, m: Mode)
    ensures
        spec_parse_mode(s) == Some(m) <==> (s.len() == 1 && names_mode(s[0], m)),
{
    if s.len() == 1 {
        assert(s =~= seq![s[0]]);
    }
    assert(seq!['A'].len() == 1 && seq!['A'][0] == 'A');
    assert(seq!['a'].len() == 1 && seq!['a'][0] == 'a');
    assert(seq!['B'].len() == 1 && seq!['B'][0] == 'B');
    assert(seq!['b'].len() == 1 && seq!['b'][0] == 'b');
    assert(seq!['C'].len() == 1 && seq!['C'][0] == 'C');
    assert(seq!['c'].len() == 1 && seq!['c'][0] == 'c');
    assert(seq!['*'].len() == 1 && seq!['*'][0] == '*');
}

/// Reads a splitting mode.
pub fn parse_mode(data: &str) -> (r: Result<Mode, BuildFailure>)
    ensures
        match spec_parse_mode(data@) {
            Some(m) => r == Ok::<Mode, BuildFailure>(m),
            None => r matches Err(BuildFailure::InvalidSplit(m)) && m@ == data@,
        },
{
    let cs = chars_of(data);
    if cs.len() == 1 {
        let c = cs[0];
        proof {
            assert(data@ =~= seq![c]);
        }
        if c == 'A' || c == 'a' {
            return Ok(Mode::A);
        } else if c == 'B' || c == 'b' {
            return Ok(Mode::B);
        } else if c == 'C' || c == 'c' || c == '*' {
            return Ok(Mode::C);
        }
    }
    proof {
        if cs@.len() != 1 {
            assert(seq!['A'].len() == 1);
        }
    }
    Err(BuildFailure::InvalidSplit(data.to_owned()))
}

/// The digits of a word id literal: the text after a leading `U`, or all of it.
pub open spec fn word_id_digits(s: Seq<char>) -> Seq<char> {
    if s.len() > 0 && s[0] == 'U' {
        s.skip(1)
    } else {
        s
    }
}

/// Whether `s` is a word id literal: an optional `U` and one or more decimal digits.
pub open spec fn is_word_id_literal(s: Seq<char>) -> bool {
    word_id_digits(s).len() > 0 && all_dec_digits(word_id_digits(s))
}

/// Whether a field is a word id literal.
pub fn word_id_literal(cs: &Vec<char>) -> (r: bool)
    ensures
        r == is_word_id_literal(cs@),
{
    let start: usize = if cs.len() > 0 && cs[0] == 'U' {
        1
    } else {
        0
    };
    let ghost d = word_id_digits(cs@);
    assert(d =~= cs@.skip(start as int));
    if start >= cs.len() {
        return false;
    }
    let mut i = start;
    while i < cs.len()
        invariant
            start <= i <= cs@.len(),
            d =~= cs@.skip(start as int),
            d == word_id_digits(cs@),
            forall|k: int| 0 <= k < i - start ==> is_dec_digit(#[trigger] d[k]),
        decreases cs@.len() - i,
    {
        let c = cs[i];
        assert(d[i - start] == c);
        if !('0' <= c && c <= '9') {
            assert(!is_dec_digit(d[i - start]));
            assert(!all_dec_digits(d));
            assert(!is_word_id_literal(cs@));
            return false;
        }
        i = i + 1;
    }
    true
}

/// The raw word id a word id literal names: the number itself, or with a leading `U`
/// the entry of that number in the user dictionary; `None` when the number does not
/// fit in `u32`.
pub open spec fn spec_word_id_value(s: Seq<char>) -> Option<u32> {
    let d = word_id_digits(s);
    if dec_value(d) > u32::MAX {
        None
    } else if s.len() > 0 && s[0] == 'U' {
        Some(crate::dic::word_id::raw_word_id(1, dec_value(d) as nat % 0x1000_0000))
    } else {
        Some(dec_value(d) as u32)
    }
}

/// Reads a word id literal to the word reference it names.
pub fn parse_word_id(data: &Vec<char>) -> (r: Result<crate::dic::word_id::WordRef, BuildFailure>)
    requires
        is_word_id_literal(data@),
    ensures
        match spec_word_id_value(data@) {
            Some(v) => r matches Ok(w) && w@ == v,
            None => r matches Err(BuildFailure::InvalidWordId(m)) && m@ == word_id_digits(data@),
        },
{
    let user = data[0] == 'U';
    let start: usize = if user {
        1
    } else {
        0
    };
    let ghost d = word_id_digits(data@);
    assert(data@.subrange(start as int, data@.len() as int) =~= d);
    proof {
        lemma_dec_value_grows(d, 0, d.len() as int);
        assert(d.take(d.len() as int) =~= d);
    }
    match digits_value(data, start, data.len(), u32::MAX) {
        Some(v) => {
            if user {
                Ok(crate::dic::word_id::WordRef::new(false, v))
            } else {
                Ok(crate::dic::word_id::WordRef::from_raw(v))
            }
        },
        None => {
            let digits = sub_chars(data, start, data.len());
            Err(BuildFailure::InvalidWordId(string_from_chars(digits.as_slice())))
        },
    }
}

} // verus!
