//! Reading lexicon sources: the fields of a CSV row to a lexicon entry, and the
//! references that a row writes in its fields.
use vstd::prelude::*;

use crate::dic::build::error::{BuildFailure, DicBuildError};
use crate::analysis::Mode;
use crate::dic::build::fields::{
    count_char, count_chars, is_word_id_literal, mode_field_reads_the_mode_it_names, names_mode,
    parse_mode, parse_u32, parse_word_id, parts_view, spec_parse_mode, spec_parse_u32, spec_word_id_value, split_chars, split_n, word_id_digits,
    word_id_literal,
};
use crate::dic::build::pos::{csv_lines, csv_records, fields_view, read_csv_records, records_view};
use crate::dic::build::parse::{is_dec_digit, parse_i16, spec_parse_i16, unescape, unescape_from};
use crate::dic::build::pos_map::row_keys;
use crate::dic::word_id::{word_ref_of_raw, word_ref_of_raw_view, word_ref_view_injective};
use crate::util::{chars_of, str_eq, string_from_chars};

use super::entry::RawLexiconEntry;
use super::layout::{
    lex_column_index, lex_column_label, lex_header_failure, lex_layout_map, lex_record_layout, Column,
    ColumnLayout, LexHeaderFailure, COLUMN_COUNT,
};
use super::refs::{
    opt_norm_view, opt_str_view, opt_string_view, refs_view, NormFormValue, NormFormView, WordRef,
    WordRefView,
};
use super::refs::pending_count;
use super::{
    capped_sum, comma_joined, entry_pending, pending_in, pending_of, pending_refs, pos_index, LexiconReader,
    MAX_POS_IDS,
};

verus! {

/// Why reading a lexicon source failed.
pub enum LexFailure {
    /// A reference or a field is not acceptable; the text in question.
    Split(Seq<char>),
    /// A reference written with commas lacks a field: the field's name and the
    /// reference.
    Format(Seq<char>, Seq<char>),
    /// A field is not an `i16` number.
    I16(Seq<char>),
    /// A field is not a `u32` number.
    U32(Seq<char>),
    /// A word id literal does not fit in `u32`; its digits.
    WordId(Seq<char>),
    /// A unicode escape names no char.
    Escape,
    /// A column that an entry needs is missing.
    NoField(Seq<char>),
    /// No part-of-speech id is left for a new row; the row's fields joined by commas.
    PosLimit(Seq<char>),
    /// The index form is empty.
    EmptySurface,
    /// The header row is refused.
    Header(LexHeaderFailure),
    /// The CSV text could not be read.
    Csv,
}

/// Whether `e` is the error that the failure `f` is reported with.
pub open spec fn lex_failure(f: LexFailure, e: BuildFailure) -> bool {
    match f {
        LexFailure::Split(s) => e matches BuildFailure::InvalidSplit(m) && m@ == s,
        LexFailure::Format(field, orig) => e matches BuildFailure::SplitFormatError {
            field: a,
            original: b,
        } && a@ == field && b@ == orig,
        LexFailure::I16(s) => e matches BuildFailure::InvalidI16Literal(m) && m@ == s,
        LexFailure::U32(s) => e matches BuildFailure::InvalidU32Literal(m) && m@ == s,
        LexFailure::WordId(s) => e matches BuildFailure::InvalidWordId(m) && m@ == s,
        LexFailure::Escape => e matches BuildFailure::InvalidCharLiteral(_),
        LexFailure::NoField(s) => e matches BuildFailure::NoRawField(m) && m@ == s,
        LexFailure::PosLimit(s) => e matches BuildFailure::PosLimitExceeded(m) && m@ == s,
        LexFailure::EmptySurface => e matches BuildFailure::EmptySurface,
        LexFailure::Header(h) => lex_header_failure(h, e),
        LexFailure::Csv => e matches BuildFailure::CsvError,
    }
}

/// The id of a part-of-speech row and the rows afterwards: the id of an equal row that
/// is there, else the next id for a new row while ids remain.
pub open spec fn pos_step(rows: Seq<(Seq<Seq<char>>, u16)>, row: Seq<Seq<char>>) -> (
    Result<u16, LexFailure>,
    Seq<(Seq<Seq<char>>, u16)>,
) {
    match pos_index(row_keys(rows), row, 0) {
        Some(k) => (Ok(rows[k as int].1), rows),
        None => if rows.len() > MAX_POS_IDS {
            (Err(LexFailure::PosLimit(comma_joined(row))), rows)
        } else {
            (Ok(rows.len() as u16), rows.push((row, rows.len() as u16)))
        },
    }
}

/// `None` when `b` is `a`, else `b`.
pub open spec fn none_if_same(a: Seq<char>, b: Seq<char>) -> Option<Seq<char>> {
    if a == b {
        None
    } else {
        Some(b)
    }
}

/// The part at `k`, if there is one.
pub open spec fn part_of(p: Seq<Seq<char>>, k: int) -> Option<Seq<char>> {
    if 0 <= k < p.len() {
        Some(p[k])
    } else {
        None
    }
}

/// The part at `k` with its escapes replaced; a missing part is reported with the
/// field's name and the whole reference `orig`.
pub open spec fn unescaped_field(p: Seq<Seq<char>>, k: int, label: Seq<char>, orig: Seq<char>) -> Result<
    Seq<char>,
    LexFailure,
> {
    match part_of(p, k) {
        None => Err(LexFailure::Format(label, orig)),
        Some(x) => match unescape_from(x, 0) {
            None => Err(LexFailure::Escape),
            Some(v) => Ok(v),
        },
    }
}

/// The failure of a result that failed.
pub open spec fn err_of<T>(r: Result<T, LexFailure>) -> LexFailure {
    match r {
        Err(e) => e,
        Ok(_) => LexFailure::Csv,
    }
}

/// The text of a result that succeeded.
pub open spec fn ok_of(r: Result<Seq<char>, LexFailure>) -> Seq<char> {
    match r {
        Ok(v) => v,
        Err(_) => Seq::empty(),
    }
}

/// A reference written as headword, part-of-speech id and reading.
pub open spec fn inline_by_id(p: Seq<Seq<char>>, s: Seq<char>) -> Result<WordRefView, LexFailure> {
    match unescaped_field(p, 0, "(1) headword"@, s) {
        Err(e) => Err(e),
        Ok(h) => match part_of(p, 1) {
            None => Err(LexFailure::Format("(2) pos-id"@, s)),
            Some(x) => match spec_parse_i16(x) {
                None => Err(LexFailure::I16(x)),
                Some(pid) => match unescaped_field(p, 2, "(3) reading"@, s) {
                    Err(e) => Err(e),
                    Ok(r) => Ok(WordRefView::Inline(h, pid as u16, none_if_same(h, r))),
                },
            },
        },
    }
}

/// A reference written as headword, six part-of-speech fields and reading; the
/// part-of-speech row gets an id as [`pos_step`] gives it.
pub open spec fn inline_by_pos(rows: Seq<(Seq<Seq<char>>, u16)>, p: Seq<Seq<char>>, s: Seq<char>) -> (
    Result<WordRefView, LexFailure>,
    Seq<(Seq<Seq<char>>, u16)>,
) {
    let f0 = unescaped_field(p, 0, "(1) headword"@, s);
    let f1 = unescaped_field(p, 1, "(2) pos-1"@, s);
    let f2 = unescaped_field(p, 2, "(3) pos-2"@, s);
    let f3 = unescaped_field(p, 3, "(4) pos-3"@, s);
    let f4 = unescaped_field(p, 4, "(5) pos-4"@, s);
    let f5 = unescaped_field(p, 5, "(6) pos-conj-1"@, s);
    let f6 = unescaped_field(p, 6, "(7) pos-conj-2"@, s);
    let f7 = unescaped_field(p, 7, "(8) reading"@, s);
    if f0 is Err {
        (Err(err_of(f0)), rows)
    } else if f1 is Err {
        (Err(err_of(f1)), rows)
    } else if f2 is Err {
        (Err(err_of(f2)), rows)
    } else if f3 is Err {
        (Err(err_of(f3)), rows)
    } else if f4 is Err {
        (Err(err_of(f4)), rows)
    } else if f5 is Err {
        (Err(err_of(f5)), rows)
    } else if f6 is Err {
        (Err(err_of(f6)), rows)
    } else if f7 is Err {
        (Err(err_of(f7)), rows)
    } else {
        let h = ok_of(f0);
        let row = seq![ok_of(f1), ok_of(f2), ok_of(f3), ok_of(f4), ok_of(f5), ok_of(f6)];
        let (r, rows2) = pos_step(rows, row);
        match r {
            Err(e) => (Err(e), rows2),
            Ok(pid) => (Ok(WordRefView::Inline(h, pid, none_if_same(h, ok_of(f7)))), rows2),
        }
    }
}

/// What one reference `s` reads as, and the part-of-speech rows afterwards: a word id
/// literal is the word it names (refused unless `allow_wid`), text with two commas
/// is headword, part-of-speech id and reading, and any other text is headword, six
/// part-of-speech fields and reading.
pub open spec fn split_outcome(rows: Seq<(Seq<Seq<char>>, u16)>, s: Seq<char>, allow_wid: bool) -> (
    Result<WordRefView, LexFailure>,
    Seq<(Seq<Seq<char>>, u16)>,
) {
    if is_word_id_literal(s) {
        if !allow_wid {
            (Err(LexFailure::Split(s)), rows)
        } else {
            match spec_word_id_value(s) {
                Some(v) => (Ok(WordRefView::Ref(word_ref_of_raw(v))), rows),
                None => (Err(LexFailure::WordId(word_id_digits(s))), rows),
            }
        }
    } else if count_char(s, ',') == 2 {
        (inline_by_id(split_n(s, ',', 3), s), rows)
    } else {
        inline_by_pos(rows, split_n(s, ',', 8), s)
    }
}

/// The references of a list of parts, read in order, and the rows afterwards; the
/// first part that fails ends the list.
pub open spec fn list_outcome(rows: Seq<(Seq<Seq<char>>, u16)>, parts: Seq<Seq<char>>, allow_wid: bool) -> (
    Result<Seq<WordRefView>, LexFailure>,
    Seq<(Seq<Seq<char>>, u16)>,
)
    decreases parts.len(),
{
    if parts.len() == 0 {
        (Ok(Seq::empty()), rows)
    } else {
        let (prev, rows1) = list_outcome(rows, parts.drop_last(), allow_wid);
        match prev {
            Err(e) => (Err(e), rows1),
            Ok(v) => {
                let (x, rows2) = split_outcome(rows1, parts.last(), allow_wid);
                match x {
                    Err(e) => (Err(e), rows2),
                    Ok(w) => (Ok(v.push(w)), rows2),
                }
            },
        }
    }
}

/// What a list of references separated by `/` reads as: none for an empty field or
/// for `*` (refused unless `allow_asterisk`), else each part as [`split_outcome`]
/// reads it.
pub open spec fn splits_outcome(
    rows: Seq<(Seq<Seq<char>>, u16)>,
    s: Seq<char>,
    allow_wid: bool,
    allow_asterisk: bool,
) -> (Result<Seq<WordRefView>, LexFailure>, Seq<(Seq<Seq<char>>, u16)>) {
    if s.len() == 0 || s == seq!['*'] {
        if s == seq!['*'] && !allow_asterisk {
            (Err(LexFailure::Split(s)), rows)
        } else {
            (Ok(Seq::empty()), rows)
        }
    } else {
        list_outcome(rows, split_n(s, '/', usize::MAX as nat), allow_wid)
    }
}

/// What a dictionary form field reads as: the entry itself when it is empty or, in a
/// legacy source, `*`; `*` is refused in a source with a header; any other text is
/// a reference, and an inline reference to the entry's own headword, part of speech
/// and reading is the entry itself.
pub open spec fn dic_form_outcome(
    rows: Seq<(Seq<Seq<char>>, u16)>,
    s: Seq<char>,
    allow_wid: bool,
    headword: Seq<char>,
    pos: u16,
    reading: Seq<char>,
) -> (Result<WordRefView, LexFailure>, Seq<(Seq<Seq<char>>, u16)>) {
    if s.len() == 0 || (allow_wid && s == seq!['*']) {
        (Ok(WordRefView::SelfRef), rows)
    } else if s == seq!['*'] {
        (Err(LexFailure::Split(s)), rows)
    } else {
        let (x, rows1) = split_outcome(rows, s, allow_wid);
        match x {
            Err(e) => (Err(e), rows1),
            Ok(w) => match w {
                WordRefView::Inline(h, p, r) => if h == headword && p == pos && r == none_if_same(
                    headword,
                    reading,
                ) {
                    (Ok(WordRefView::SelfRef), rows1)
                } else {
                    (Ok(w), rows1)
                },
                _ => (Ok(w), rows1),
            },
        }
    }
}

/// What a normalized form field reads as: nothing for an empty field, for `*` and for
/// the headword itself; text with two or seven commas is an inline reference; any
/// other text is a reference by headword.
pub open spec fn norm_form_outcome(rows: Seq<(Seq<Seq<char>>, u16)>, s: Seq<char>, headword: Seq<char>) -> (
    Result<Option<NormFormView>, LexFailure>,
    Seq<(Seq<Seq<char>>, u16)>,
) {
    if s.len() == 0 || s == seq!['*'] {
        (Ok(None), rows)
    } else if count_char(s, ',') == 2 || count_char(s, ',') == 7 {
        let (x, rows1) = split_outcome(rows, s, false);
        match x {
            Err(e) => (Err(e), rows1),
            Ok(w) => (Ok(Some(NormFormView::Ref(w))), rows1),
        }
    } else {
        match unescape_from(s, 0) {
            None => (Err(LexFailure::Escape), rows),
            Some(n) => if n == headword {
                (Ok(None), rows)
            } else {
                (Ok(Some(NormFormView::Ref(WordRefView::Headword(n)))), rows)
            },
        }
    }
}

proof fn lemma_list_outcome_stays_failed(
    rows: Seq<(Seq<Seq<char>>, u16)>,
    parts: Seq<Seq<char>>,
    allow_wid: bool,
    k: int,
)
    requires
        0 <= k <= parts.len(),
        list_outcome(rows, parts.take(k), allow_wid).0 is Err,
    ensures
        list_outcome(rows, parts, allow_wid) == list_outcome(rows, parts.take(k), allow_wid),
    decreases parts.len(),
{
    if k < parts.len() {
        assert(parts.drop_last().take(k) =~= parts.take(k));
        lemma_list_outcome_stays_failed(rows, parts.drop_last(), allow_wid, k);
    } else {
        assert(parts.take(k) =~= parts);
    }
}


/// The field of a row in the place that a mapping gives a column, if the mapping
/// places it and the row is long enough.
pub open spec fn lex_field(fields: Seq<Seq<char>>, map: Seq<int>, c: Column) -> Option<Seq<char>> {
    let i = map[lex_column_index(c)];
    if 0 <= i < fields.len() {
        Some(fields[i])
    } else {
        None
    }
}

/// A field that must be there, with its escapes replaced.
pub open spec fn text_field(fields: Seq<Seq<char>>, map: Seq<int>, c: Column) -> Result<Seq<char>, LexFailure> {
    match lex_field(fields, map, c) {
        None => Err(LexFailure::NoField(lex_column_label(c))),
        Some(x) => match unescape_from(x, 0) {
            None => Err(LexFailure::Escape),
            Some(v) => Ok(v),
        },
    }
}

/// A field that may be missing (then empty), with its escapes replaced.
pub open spec fn text_field_or_empty(fields: Seq<Seq<char>>, map: Seq<int>, c: Column) -> Result<
    Seq<char>,
    LexFailure,
> {
    match lex_field(fields, map, c) {
        None => Ok(Seq::empty()),
        Some(x) => match unescape_from(x, 0) {
            None => Err(LexFailure::Escape),
            Some(v) => Ok(v),
        },
    }
}

/// A field that must be there, as it is written.
pub open spec fn raw_field(fields: Seq<Seq<char>>, map: Seq<int>, c: Column) -> Result<Seq<char>, LexFailure> {
    match lex_field(fields, map, c) {
        None => Err(LexFailure::NoField(lex_column_label(c))),
        Some(x) => Ok(x),
    }
}

/// A number field that must be there.
pub open spec fn i16_field(fields: Seq<Seq<char>>, map: Seq<int>, c: Column) -> Result<i16, LexFailure> {
    match lex_field(fields, map, c) {
        None => Err(LexFailure::NoField(lex_column_label(c))),
        Some(x) => match spec_parse_i16(x) {
            None => Err(LexFailure::I16(x)),
            Some(v) => Ok(v),
        },
    }
}

/// The splitting mode: `C` when the field is missing.
pub open spec fn mode_field(fields: Seq<Seq<char>>, map: Seq<int>) -> Result<Mode, LexFailure> {
    match lex_field(fields, map, Column::Mode) {
        None => Ok(Mode::C),
        Some(x) => match spec_parse_mode(x) {
            None => Err(LexFailure::Split(x)),
            Some(m) => Ok(m),
        },
    }
}

/// The fields of a row that are read before its references.
pub struct RecordHead {
    pub index_form: Seq<char>,
    pub left_id: i16,
    pub right_id: i16,
    pub cost: i16,
    pub headword: Seq<char>,
    pub pos: Seq<Seq<char>>,
    pub reading: Seq<char>,
    pub normalized: Seq<char>,
    pub dic_form: Seq<char>,
    pub mode: Mode,
}

/// The fields of a row that are read before its references, in this order: the index
/// form, the connection ids and cost, the headword, the six part-of-speech fields, the
/// reading, the normalized form, the dictionary form and the splitting mode; the first
/// that fails ends the reading.
pub open spec fn record_head(fields: Seq<Seq<char>>, map: Seq<int>) -> Result<RecordHead, LexFailure> {
    let index_form = text_field(fields, map, Column::IndexForm);
    let left_id = i16_field(fields, map, Column::LeftId);
    let right_id = i16_field(fields, map, Column::RightId);
    let cost = i16_field(fields, map, Column::Cost);
    let headword = text_field_or_empty(fields, map, Column::Headword);
    let p1 = text_field_or_empty(fields, map, Column::Pos1);
    let p2 = text_field_or_empty(fields, map, Column::Pos2);
    let p3 = text_field_or_empty(fields, map, Column::Pos3);
    let p4 = text_field_or_empty(fields, map, Column::Pos4);
    let p5 = text_field_or_empty(fields, map, Column::Pos5);
    let p6 = text_field_or_empty(fields, map, Column::Pos6);
    let reading = text_field(fields, map, Column::ReadingForm);
    let normalized = raw_field(fields, map, Column::NormalizedForm);
    let dic_form = match lex_field(fields, map, Column::DictionaryForm) {
        None => Seq::empty(),
        Some(x) => x,
    };
    let mode = mode_field(fields, map);
    if index_form is Err {
        Err(err_of(index_form))
    } else if left_id is Err {
        Err(err_of(left_id))
    } else if right_id is Err {
        Err(err_of(right_id))
    } else if cost is Err {
        Err(err_of(cost))
    } else if headword is Err {
        Err(err_of(headword))
    } else if p1 is Err {
        Err(err_of(p1))
    } else if p2 is Err {
        Err(err_of(p2))
    } else if p3 is Err {
        Err(err_of(p3))
    } else if p4 is Err {
        Err(err_of(p4))
    } else if p5 is Err {
        Err(err_of(p5))
    } else if p6 is Err {
        Err(err_of(p6))
    } else if reading is Err {
        Err(err_of(reading))
    } else if normalized is Err {
        Err(err_of(normalized))
    } else if mode is Err {
        Err(err_of(mode))
    } else {
        Ok(
            RecordHead {
                index_form: ok_of(index_form),
                left_id: left_id->Ok_0,
                right_id: right_id->Ok_0,
                cost: cost->Ok_0,
                headword: ok_of(headword),
                pos: seq![ok_of(p1), ok_of(p2), ok_of(p3), ok_of(p4), ok_of(p5), ok_of(p6)],
                reading: ok_of(reading),
                normalized: ok_of(normalized),
                dic_form,
                mode: mode->Ok_0,
            },
        )
    }
}

/// A list of references in column `c`: missing, it fails when `required` and is
/// empty otherwise.
pub open spec fn refs_field(
    rows: Seq<(Seq<Seq<char>>, u16)>,
    fields: Seq<Seq<char>>,
    map: Seq<int>,
    c: Column,
    legacy: bool,
    required: bool,
) -> (Result<Seq<WordRefView>, LexFailure>, Seq<(Seq<Seq<char>>, u16)>) {
    match lex_field(fields, map, c) {
        None => if required {
            (Err(LexFailure::NoField(lex_column_label(c))), rows)
        } else {
            (Ok(Seq::empty()), rows)
        },
        Some(x) => splits_outcome(rows, x, legacy, true),
    }
}

/// The reference lists of a row, in this order: splits A and B, split C (which may be
/// missing) and the word structure; `*` stands for an empty list, and word id
/// literals are accepted in legacy sources only.
pub open spec fn record_refs(
    rows: Seq<(Seq<Seq<char>>, u16)>,
    fields: Seq<Seq<char>>,
    map: Seq<int>,
    legacy: bool,
) -> (
    Result<(Seq<WordRefView>, Seq<WordRefView>, Seq<WordRefView>, Seq<WordRefView>), LexFailure>,
    Seq<(Seq<Seq<char>>, u16)>,
) {
    let (a, r1) = refs_field(rows, fields, map, Column::SplitA, legacy, true);
    let (b, r2) = refs_field(r1, fields, map, Column::SplitB, legacy, true);
    let (c, r3) = refs_field(r2, fields, map, Column::SplitC, legacy, false);
    let (w, r4) = refs_field(r3, fields, map, Column::WordStructure, legacy, true);
    if a is Err {
        (Err(err_of(a)), r1)
    } else if b is Err {
        (Err(err_of(b)), r2)
    } else if c is Err {
        (Err(err_of(c)), r3)
    } else if w is Err {
        (Err(err_of(w)), r4)
    } else {
        (Ok((a->Ok_0, b->Ok_0, c->Ok_0, w->Ok_0)), r4)
    }
}

/// The numbers of a list separated by `/`, read in order.
pub open spec fn u32_parts(parts: Seq<Seq<char>>) -> Result<Seq<u32>, LexFailure>
    decreases parts.len(),
{
    if parts.len() == 0 {
        Ok(Seq::empty())
    } else {
        match u32_parts(parts.drop_last()) {
            Err(e) => Err(e),
            Ok(v) => match spec_parse_u32(parts.last()) {
                None => Err(LexFailure::U32(parts.last())),
                Some(x) => Ok(v.push(x)),
            },
        }
    }
}

/// A list of numbers separated by `/`: none for an empty field or for `*` (refused
/// unless `allow_asterisk`).
pub open spec fn u32_list(s: Seq<char>, allow_asterisk: bool) -> Result<Seq<u32>, LexFailure> {
    if s.len() == 0 || s == seq!['*'] {
        if s == seq!['*'] && !allow_asterisk {
            Err(LexFailure::Split(s))
        } else {
            Ok(Seq::empty())
        }
    } else {
        u32_parts(split_n(s, '/', usize::MAX as nat))
    }
}

/// The fields of a row read after its references: the synonym groups and the user
/// data (both may be missing) and the part-of-speech id (-1 when missing or empty).
pub open spec fn record_tail(fields: Seq<Seq<char>>, map: Seq<int>) -> Result<
    (Seq<u32>, Seq<char>, i16),
    LexFailure,
> {
    let synonyms = match lex_field(fields, map, Column::SynonymGroups) {
        None => Ok(Seq::empty()),
        Some(x) => u32_list(x, true),
    };
    let user_data = text_field_or_empty(fields, map, Column::UserData);
    let pos_id = match lex_field(fields, map, Column::PosId) {
        None => Ok(-1i16),
        Some(x) => if x.len() == 0 {
            Ok(-1i16)
        } else {
            match spec_parse_i16(x) {
                None => Err(LexFailure::I16(x)),
                Some(v) => Ok(v),
            }
        },
    };
    if synonyms is Err {
        Err(err_of(synonyms))
    } else if user_data is Err {
        Err(err_of(user_data))
    } else if pos_id is Err {
        Err(err_of(pos_id))
    } else {
        Ok((synonyms->Ok_0, ok_of(user_data), pos_id->Ok_0))
    }
}

/// The part of speech of a row: that of its six fields when the first is not empty
/// (which a given id must equal), else the given id, which must be in the table.
pub open spec fn record_pos(rows: Seq<(Seq<Seq<char>>, u16)>, pos: Seq<Seq<char>>, pos_id: i16) -> (
    Result<u16, LexFailure>,
    Seq<(Seq<Seq<char>>, u16)>,
) {
    if pos[0].len() > 0 {
        let (r, rows1) = pos_step(rows, pos);
        match r {
            Err(e) => (Err(e), rows1),
            Ok(p) => if pos_id >= 0 && pos_id as u16 != p {
                (Err(LexFailure::Split("PosId and Pos1..Pos6 do not match"@)), rows1)
            } else {
                (Ok(p), rows1)
            },
        }
    } else if pos_id >= 0 {
        if pos_id >= rows.len() {
            (Err(LexFailure::Split("POS for id was not present in the table"@)), rows)
        } else {
            (Ok(pos_id as u16), rows)
        }
    } else {
        (Err(LexFailure::Split("Both PosId and Pos1..Pos6 are missing"@)), rows)
    }
}

/// The mathematical value of a lexicon entry.
pub struct EntryView {
    pub left_id: i16,
    pub right_id: i16,
    pub cost: i16,
    pub surface: Seq<char>,
    pub headword: Option<Seq<char>>,
    pub dic_form: WordRefView,
    pub norm_form: Option<NormFormView>,
    pub pos: u16,
    pub splits_a: Seq<WordRefView>,
    pub splits_b: Seq<WordRefView>,
    pub splits_c: Seq<WordRefView>,
    pub reading: Option<Seq<char>>,
    pub splitting: Mode,
    pub word_structure: Seq<WordRefView>,
    pub synonym_groups: Seq<u32>,
    pub user_data: Seq<char>,
}

/// The value of an entry.
pub open spec fn entry_view(e: RawLexiconEntry) -> EntryView {
    EntryView {
        left_id: e.left_id,
        right_id: e.right_id,
        cost: e.cost,
        surface: e.surface@,
        headword: opt_string_view(e.headword),
        dic_form: e.dic_form@,
        norm_form: opt_norm_view(e.norm_form),
        pos: e.pos,
        splits_a: refs_view(e.splits_a@),
        splits_b: refs_view(e.splits_b@),
        splits_c: refs_view(e.splits_c@),
        reading: opt_string_view(e.reading),
        splitting: e.splitting,
        word_structure: refs_view(e.word_structure@),
        synonym_groups: e.synonym_groups@,
        user_data: e.user_data@,
    }
}

/// The fields of one row of a lexicon source, read up to its normalized form, as an
/// entry, and the part-of-speech rows afterwards. The fields are read in the order of
/// [`record_head`], [`record_refs`], [`record_tail`] and [`record_pos`]; an A-mode
/// entry must not have A or B splits; an empty headword means the index form; then
/// the dictionary form and the normalized form are read. The headword is kept only
/// when it differs from the index form, the reading only when it differs from the
/// headword.
#[verifier::opaque]
pub open spec fn record_parts(
    rows: Seq<(Seq<Seq<char>>, u16)>,
    fields: Seq<Seq<char>>,
    map: Seq<int>,
    legacy: bool,
) -> (Result<EntryView, LexFailure>, Seq<(Seq<Seq<char>>, u16)>) {
    match record_head(fields, map) {
        Err(e) => (Err(e), rows),
        Ok(h) => {
            let (refs, r1) = record_refs(rows, fields, map, legacy);
            match refs {
                Err(e) => (Err(e), r1),
                Ok((a, b, c, w)) => match record_tail(fields, map) {
                    Err(e) => (Err(e), r1),
                    Ok((synonyms, user_data, pos_id)) => {
                        let (p, r2) = record_pos(r1, h.pos, pos_id);
                        match p {
                            Err(e) => (Err(e), r2),
                            Ok(pos) => if h.mode == Mode::A && (a.len() > 0 || b.len() > 0) {
                                (Err(LexFailure::Split("A-mode tokens can't have splits"@)), r2)
                            } else {
                                let eh = if h.headword.len() == 0 {
                                    h.index_form
                                } else {
                                    h.headword
                                };
                                let (d, r3) = dic_form_outcome(r2, h.dic_form, legacy, eh, pos, h.reading);
                                match d {
                                    Err(e) => (Err(e), r3),
                                    Ok(dic_form) => {
                                        let (n, r4) = norm_form_outcome(r3, h.normalized, eh);
                                        match n {
                                            Err(e) => (Err(e), r4),
                                            Ok(norm_form) => (
                                                    Ok(
                                                        EntryView {
                                                            left_id: h.left_id,
                                                            right_id: h.right_id,
                                                            cost: h.cost,
                                                            surface: h.index_form,
                                                            headword: none_if_same(h.index_form, eh),
                                                            dic_form,
                                                            norm_form,
                                                            pos,
                                                            splits_a: a,
                                                            splits_b: b,
                                                            splits_c: c,
                                                            reading: none_if_same(eh, h.reading),
                                                            splitting: h.mode,
                                                            word_structure: w,
                                                            synonym_groups: synonyms,
                                                            user_data,
                                                        },
                                                    ),
                                                    r4,
                                                ),
                                        }
                                    },
                                }
                            },
                        }
                    },
                },
            }
        },
    }
}

/// The entry that one row of a lexicon source reads as, and the part-of-speech rows
/// afterwards: the fields as [`record_parts`] reads them, where the index form must
/// not be empty.
pub open spec fn record_outcome(
    rows: Seq<(Seq<Seq<char>>, u16)>,
    fields: Seq<Seq<char>>,
    map: Seq<int>,
    legacy: bool,
) -> (Result<EntryView, LexFailure>, Seq<(Seq<Seq<char>>, u16)>) {
    let (p, r) = record_parts(rows, fields, map, legacy);
    match p {
        Err(e) => (Err(e), r),
        Ok(ev) => if ev.surface.len() == 0 {
            (Err(LexFailure::EmptySurface), r)
        } else {
            (Ok(ev), r)
        },
    }
}

proof fn lemma_parts_keep_head(
    rows: Seq<(Seq<Seq<char>>, u16)>,
    fields: Seq<Seq<char>>,
    map: Seq<int>,
    legacy: bool,
    ev: EntryView,
)
    requires
        record_parts(rows, fields, map, legacy).0 == Ok::<EntryView, LexFailure>(ev),
    ensures
        record_head(fields, map) matches Ok(h) && h.left_id == ev.left_id && h.right_id == ev.right_id
            && h.cost == ev.cost && h.index_form == ev.surface && h.mode == ev.splitting && ({
            let eh = if h.headword.len() == 0 {
                h.index_form
            } else {
                h.headword
            };
            ev.headword == none_if_same(ev.surface, eh) && ev.reading == none_if_same(eh, h.reading)
        }),
        ev.splitting == Mode::A ==> ev.splits_a.len() == 0 && ev.splits_b.len() == 0,
{
    reveal(record_parts);
}

/// An entry read from a row keeps the values of the row's own fields: its left id,
/// right id and cost are the `i16` numbers written in those columns, each in its own;
/// its surface is the index form column with its escapes replaced, and not empty; its
/// splitting mode is the one the mode column names, C where the row has no mode
/// column.
pub proof fn read_row_keeps_its_fields(
    rows: Seq<(Seq<Seq<char>>, u16)>,
    fields: Seq<Seq<char>>,
    map: Seq<int>,
    legacy: bool,
    ev: EntryView,
)
    requires
        record_outcome(rows, fields, map, legacy).0 == Ok::<EntryView, LexFailure>(ev),
    ensures
        lex_field(fields, map, Column::LeftId) matches Some(x) && spec_parse_i16(x) == Some(ev.left_id),
        lex_field(fields, map, Column::RightId) matches Some(x) && spec_parse_i16(x) == Some(ev.right_id),
        lex_field(fields, map, Column::Cost) matches Some(x) && spec_parse_i16(x) == Some(ev.cost),
        lex_field(fields, map, Column::IndexForm) matches Some(x) && unescape_from(x, 0) == Some(ev.surface),
        ev.surface.len() > 0,
        match lex_field(fields, map, Column::Mode) {
            None => ev.splitting == Mode::C,
            Some(x) => x.len() == 1 && names_mode(x[0], ev.splitting),
        },
        ({
            let hw = match lex_field(fields, map, Column::Headword) {
                None => Seq::<char>::empty(),
                Some(x) => unescape_from(x, 0).unwrap(),
            };
            let eh = if hw.len() == 0 {
                ev.surface
            } else {
                hw
            };
            &&& ev.headword == none_if_same(ev.surface, eh)
            &&& lex_field(fields, map, Column::ReadingForm) matches Some(y) && unescape_from(y, 0) matches Some(
                rd,
            ) && ev.reading == none_if_same(eh, rd)
        }),
        ev.splitting == Mode::A ==> ev.splits_a.len() == 0 && ev.splits_b.len() == 0,
{
    lemma_parts_keep_head(rows, fields, map, legacy, ev);
    match lex_field(fields, map, Column::Mode) {
        None => {},
        Some(x) => {
            mode_field_reads_the_mode_it_names(x, ev.splitting);
        },
    }
}

/// Rows that are all read give one entry per row, in the order of the rows: entry `k`
/// is what row `k` reads as, with the part-of-speech rows as the rows before it left
/// them.
pub proof fn read_rows_give_one_entry_per_row(
    rows: Seq<(Seq<Seq<char>>, u16)>,
    recs: Seq<Seq<Seq<char>>>,
    map: Seq<int>,
    legacy: bool,
)
    requires
        records_outcome(rows, recs, map, legacy).1 is None,
    ensures
        records_outcome(rows, recs, map, legacy).0.len() == recs.len(),
        forall|k: int|
            0 <= k < recs.len() ==> record_outcome(
                records_outcome(rows, recs.take(k), map, legacy).2,
                recs[k],
                map,
                legacy,
            ).0 == Ok::<EntryView, LexFailure>(#[trigger] records_outcome(rows, recs, map, legacy).0[k]),
    decreases recs.len(),
{
    if recs.len() > 0 {
        let n = recs.len() - 1;
        let (es0, f0, r1) = records_outcome(rows, recs.drop_last(), map, legacy);
        assert(f0 is None);
        read_rows_give_one_entry_per_row(rows, recs.drop_last(), map, legacy);
        let (o, r2) = record_outcome(r1, recs.last(), map, legacy);
        assert(o is Ok);
        let es = records_outcome(rows, recs, map, legacy).0;
        assert(es == es0.push(o->Ok_0));
        assert forall|k: int| 0 <= k < recs.len() implies record_outcome(
            records_outcome(rows, recs.take(k), map, legacy).2,
            recs[k],
            map,
            legacy,
        ).0 == Ok::<EntryView, LexFailure>(#[trigger] records_outcome(rows, recs, map, legacy).0[k]) by {
            if k == n {
                assert(recs.take(k) =~= recs.drop_last());
            } else {
                assert(recs.take(k) =~= recs.drop_last().take(k));
                assert(recs.drop_last()[k] == recs[k]);
                assert(es[k] == es0[k]);
            }
        }
    }
}

/// A normalized form field with two or seven commas is read as the reference that
/// reading it as a split gives, with the same part-of-speech rows afterwards; where
/// that succeeds it is an inline reference, never a reference by headword to the
/// whole text.
pub proof fn inline_normalized_form_is_read_as_split(
    rows: Seq<(Seq<Seq<char>>, u16)>,
    s: Seq<char>,
    headword: Seq<char>,
)
    requires
        count_char(s, ',') == 2 || count_char(s, ',') == 7,
    ensures
        ({
            let (o, r) = norm_form_outcome(rows, s, headword);
            let (x, r1) = split_outcome(rows, s, false);
            &&& r == r1
            &&& match x {
                Ok(w) => o == Ok::<Option<NormFormView>, LexFailure>(Some(NormFormView::Ref(w))),
                Err(e) => o == Err::<Option<NormFormView>, LexFailure>(e),
            }
            &&& o matches Ok(v) ==> v matches Some(NormFormView::Ref(WordRefView::Inline(_, _, _)))
        }),
{
    lemma_count_char_found(s, ',');
    let i = choose|i: int| 0 <= i < s.len() && s[i] == ',';
    assert(s != seq!['*']) by {
        if s == seq!['*'] {
            assert(s[0] == '*');
        }
    }
    assert(!is_word_id_literal(s)) by {
        let d = word_id_digits(s);
        if s.len() > 0 && s[0] == 'U' {
            assert(i >= 1);
            assert(d[i - 1] == ',');
            assert(!is_dec_digit(d[i - 1]));
        } else {
            assert(d[i] == ',');
            assert(!is_dec_digit(d[i]));
        }
    }
}

/// A normalized form field that is empty, `*` or, with its escapes replaced, the
/// headword itself reads as no normalized form (the entry is its own); a field
/// without two or seven commas whose text differs from the headword reads as a
/// reference by headword to that text.
pub proof fn headword_normalized_form_is_read_by_text(
    rows: Seq<(Seq<Seq<char>>, u16)>,
    s: Seq<char>,
    headword: Seq<char>,
)
    requires
        count_char(s, ',') != 2 && count_char(s, ',') != 7,
        s.len() > 0,
        s != seq!['*'],
        unescape_from(s, 0) is Some,
    ensures
        ({
            let (o, r) = norm_form_outcome(rows, s, headword);
            let text = unescape_from(s, 0).unwrap();
            &&& r == rows
            &&& text == headword ==> o == Ok::<Option<NormFormView>, LexFailure>(None)
            &&& text != headword ==> o == Ok::<Option<NormFormView>, LexFailure>(
                Some(NormFormView::Ref(WordRefView::Headword(text))),
            )
        }),
{
}

/// An empty dictionary form field, and `*` where word ids are allowed (a legacy
/// source), read as the entry itself; `*` elsewhere is refused.
pub proof fn empty_dictionary_form_is_the_entry_itself(
    rows: Seq<(Seq<Seq<char>>, u16)>,
    allow_wid: bool,
    headword: Seq<char>,
    pos: u16,
    reading: Seq<char>,
)
    ensures
        dic_form_outcome(rows, Seq::empty(), allow_wid, headword, pos, reading) == (
            Ok::<WordRefView, LexFailure>(WordRefView::SelfRef),
            rows,
        ),
        allow_wid ==> dic_form_outcome(rows, seq!['*'], allow_wid, headword, pos, reading) == (
            Ok::<WordRefView, LexFailure>(WordRefView::SelfRef),
            rows,
        ),
        !allow_wid ==> dic_form_outcome(rows, seq!['*'], allow_wid, headword, pos, reading).0 is Err,
{
}

proof fn lemma_pos_index_found(keys: Seq<Seq<Seq<char>>>, row: Seq<Seq<char>>, i: nat)
    requires
        pos_index(keys, row, i) is Some,
    ensures
        ({
            let k = pos_index(keys, row, i).unwrap();
            i <= k < keys.len() && keys[k as int] == row
        }),
    decreases keys.len() - i,
{
    if i < keys.len() && keys[i as int] != row {
        lemma_pos_index_found(keys, row, i + 1);
    }
}

/// A part-of-speech row keeps its id: a row that is there gets the id it was given
/// and leaves the rows as they are; a new row, while ids remain, gets the next id
/// and is added at the end with it.
pub proof fn part_of_speech_rows_keep_their_ids(rows: Seq<(Seq<Seq<char>>, u16)>, row: Seq<Seq<char>>)
    ensures
        (exists|k: int| 0 <= k < rows.len() && #[trigger] rows[k].0 == row) ==> {
            let (o, r) = pos_step(rows, row);
            &&& r == rows
            &&& o matches Ok(id) && exists|k: int|
                0 <= k < rows.len() && #[trigger] rows[k].0 == row && rows[k].1 == id
        },
        (forall|k: int| 0 <= k < rows.len() ==> #[trigger] rows[k].0 != row) && rows.len() <= MAX_POS_IDS
            ==> pos_step(rows, row) == (
            Ok::<u16, LexFailure>(rows.len() as u16),
            rows.push((row, rows.len() as u16)),
        ),
{
    let keys = row_keys(rows);
    if exists|k: int| 0 <= k < rows.len() && #[trigger] rows[k].0 == row {
        let k = choose|k: int| 0 <= k < rows.len() && #[trigger] rows[k].0 == row;
        assert(keys[k] == row);
        if pos_index(keys, row, 0) is None {
            lemma_pos_index_none_all(keys, row, 0);
            assert(false);
        }
        lemma_pos_index_found(keys, row, 0);
        let j = pos_index(keys, row, 0).unwrap();
        assert(rows[j as int].0 == keys[j as int]);
    }
    if forall|k: int| 0 <= k < rows.len() ==> #[trigger] rows[k].0 != row {
        assert forall|k: int| 0 <= k < keys.len() implies keys[k] != row by {
            assert(keys[k] == rows[k].0);
        }
        super::lemma_pos_index_absent(keys, row, 0);
    }
}

proof fn lemma_pos_index_none_all(keys: Seq<Seq<Seq<char>>>, row: Seq<Seq<char>>, i: nat)
    requires
        pos_index(keys, row, i) is None,
    ensures
        forall|k: int| i <= k < keys.len() ==> keys[k] != row,
    decreases keys.len() - i,
{
    if i < keys.len() {
        lemma_pos_index_none_all(keys, row, i + 1);
    }
}

/// A list of numbers reads, where it reads, as one number per part, each the value
/// of its part; it reads whenever every part is a number.
pub proof fn number_list_reads_each_part(parts: Seq<Seq<char>>)
    ensures
        u32_parts(parts) matches Ok(v) ==> v.len() == parts.len() && forall|k: int|
            0 <= k < parts.len() ==> spec_parse_u32(parts[k]) == Some(#[trigger] v[k]),
        (forall|k: int| 0 <= k < parts.len() ==> #[trigger] spec_parse_u32(parts[k]) is Some)
            ==> u32_parts(parts) is Ok,
    decreases parts.len(),
{
    if parts.len() > 0 {
        number_list_reads_each_part(parts.drop_last());
        if u32_parts(parts) is Ok {
            let v = u32_parts(parts)->Ok_0;
            let v0 = u32_parts(parts.drop_last())->Ok_0;
            assert forall|k: int| 0 <= k < parts.len() implies spec_parse_u32(parts[k]) == Some(#[trigger] v[k]) by {
                if k < parts.len() - 1 {
                    assert(parts.drop_last()[k] == parts[k]);
                    assert(v[k] == v0[k]);
                }
            }
        }
        if forall|k: int| 0 <= k < parts.len() ==> #[trigger] spec_parse_u32(parts[k]) is Some {
            assert forall|k: int| 0 <= k < parts.drop_last().len() implies #[trigger] spec_parse_u32(
                parts.drop_last()[k],
            ) is Some by {
                assert(parts.drop_last()[k] == parts[k]);
            }
            assert(spec_parse_u32(parts[parts.len() - 1]) is Some);
        }
    }
}

/// A list of references reads, where it reads, as one reference per part, in order:
/// reference `k` is what part `k` reads as, with the part-of-speech rows as the parts
/// before it left them.
pub proof fn reference_list_reads_each_part(
    rows: Seq<(Seq<Seq<char>>, u16)>,
    parts: Seq<Seq<char>>,
    allow_wid: bool,
)
    ensures
        list_outcome(rows, parts, allow_wid).0 matches Ok(v) ==> v.len() == parts.len() && forall|k: int|
            0 <= k < parts.len() ==> split_outcome(
                list_outcome(rows, parts.take(k), allow_wid).1,
                parts[k],
                allow_wid,
            ).0 == Ok::<WordRefView, LexFailure>(#[trigger] v[k]),
    decreases parts.len(),
{
    if parts.len() > 0 {
        reference_list_reads_each_part(rows, parts.drop_last(), allow_wid);
        if list_outcome(rows, parts, allow_wid).0 is Ok {
            let v = list_outcome(rows, parts, allow_wid).0->Ok_0;
            let v0 = list_outcome(rows, parts.drop_last(), allow_wid).0->Ok_0;
            let n = parts.len() - 1;
            assert forall|k: int| 0 <= k < parts.len() implies split_outcome(
                list_outcome(rows, parts.take(k), allow_wid).1,
                parts[k],
                allow_wid,
            ).0 == Ok::<WordRefView, LexFailure>(#[trigger] v[k]) by {
                if k == n {
                    assert(parts.take(k) =~= parts.drop_last());
                } else {
                    assert(parts.take(k) =~= parts.drop_last().take(k));
                    assert(parts.drop_last()[k] == parts[k]);
                    assert(v[k] == v0[k]);
                }
            }
        }
    }
}

proof fn lemma_count_char_found(s: Seq<char>, c: char)
    requires
        count_char(s, c) > 0,
    ensures
        exists|i: int| 0 <= i < s.len() && s[i] == c,
    decreases s.len(),
{
    if s.last() == c {
        assert(s[s.len() - 1] == c);
    } else {
        lemma_count_char_found(s.drop_last(), c);
        let i = choose|i: int| 0 <= i < s.drop_last().len() && s.drop_last()[i] == c;
        assert(s[i] == c);
    }
}

/// The number of references waiting for resolution that reading one row counts: those
/// of its fields once they were read up to the normalized form, also where the index
/// form then turns out empty; none where reading failed before.
pub open spec fn record_counted(
    rows: Seq<(Seq<Seq<char>>, u16)>,
    fields: Seq<Seq<char>>,
    map: Seq<int>,
    legacy: bool,
) -> nat {
    match record_parts(rows, fields, map, legacy).0 {
        Ok(ev) => view_pending(ev),
        Err(_) => 0,
    }
}

/// The references of a list that wait for resolution.
pub open spec fn pending_views(refs: Seq<WordRefView>) -> nat
    decreases refs.len(),
{
    if refs.len() == 0 {
        0
    } else {
        pending_views(refs.drop_last()) + pending_count(refs.last())
    }
}

/// The references of an entry that wait for resolution.
pub open spec fn view_pending(ev: EntryView) -> nat {
    pending_count(ev.dic_form) + (if ev.norm_form matches Some(NormFormView::Ref(_)) {
        1nat
    } else {
        0nat
    }) + pending_views(ev.splits_a) + pending_views(ev.splits_b) + pending_views(ev.splits_c)
        + pending_views(ev.word_structure)
}

proof fn lemma_pending_views(refs: Seq<WordRef>)
    ensures
        pending_views(refs_view(refs)) == pending_refs(refs),
    decreases refs.len(),
{
    if refs.len() > 0 {
        assert(refs_view(refs).drop_last() =~= refs_view(refs.drop_last()));
        lemma_pending_views(refs.drop_last());
    }
}

proof fn lemma_view_pending(e: RawLexiconEntry)
    ensures
        view_pending(entry_view(e)) == entry_pending(e),
{
    lemma_pending_views(e.splits_a@);
    lemma_pending_views(e.splits_b@);
    lemma_pending_views(e.splits_c@);
    lemma_pending_views(e.word_structure@);
}

/// The entries that rows read as, in order, the failure that ended the reading, if
/// one did, and the part-of-speech rows afterwards.
pub open spec fn records_outcome(
    rows: Seq<(Seq<Seq<char>>, u16)>,
    recs: Seq<Seq<Seq<char>>>,
    map: Seq<int>,
    legacy: bool,
) -> (Seq<EntryView>, Option<LexFailure>, Seq<(Seq<Seq<char>>, u16)>)
    decreases recs.len(),
{
    if recs.len() == 0 {
        (Seq::empty(), None, rows)
    } else {
        let (es, f, r1) = records_outcome(rows, recs.drop_last(), map, legacy);
        if f is Some {
            (es, f, r1)
        } else {
            let (o, r2) = record_outcome(r1, recs.last(), map, legacy);
            match o {
                Err(e) => (es, Some(e), r2),
                Ok(ev) => (es.push(ev), None, r2),
            }
        }
    }
}

/// The number of references waiting for resolution that reading rows counts: those of
/// each row read until the reading ends, the row that ended it included.
pub open spec fn records_counted(
    rows: Seq<(Seq<Seq<char>>, u16)>,
    recs: Seq<Seq<Seq<char>>>,
    map: Seq<int>,
    legacy: bool,
) -> nat
    decreases recs.len(),
{
    if recs.len() == 0 {
        0
    } else {
        let (es, f, r1) = records_outcome(rows, recs.drop_last(), map, legacy);
        let c = records_counted(rows, recs.drop_last(), map, legacy);
        if f is Some {
            c
        } else {
            c + record_counted(r1, recs.last(), map, legacy)
        }
    }
}

/// What reading the rows of a lexicon source gives: the entries of its rows, the
/// failure that ended the reading, if one did, with the line where it came, and the
/// part-of-speech rows afterwards. The first row decides the layout
/// ([`lex_record_layout`]) and is skipped when it is a header; `lines` holds the line
/// where each row starts.
pub open spec fn lex_rows_outcome(
    rows: Seq<(Seq<Seq<char>>, u16)>,
    recs: Seq<Seq<Seq<char>>>,
    lines: Seq<u64>,
) -> (Seq<EntryView>, Option<(LexFailure, u64)>, Seq<(Seq<Seq<char>>, u16)>) {
    if recs.len() == 0 {
        (Seq::empty(), None, rows)
    } else {
        match lex_record_layout(recs[0]) {
            Err(h) => (Seq::empty(), Some((LexFailure::Header(h), lines[0])), rows),
            Ok((map, skip)) => {
                let start: int = if skip {
                    1
                } else {
                    0
                };
                let body = if skip {
                    recs.skip(1)
                } else {
                    recs
                };
                let (es, f, r) = records_outcome(rows, body, map, !skip);
                (es, match f {
                    Some(x) => Some((x, lines[es.len() + start])),
                    None => None,
                }, r)
            },
        }
    }
}

/// The number of references waiting for resolution that reading the rows of a lexicon
/// source counts; see [`lex_rows_outcome`] and [`records_counted`].
pub open spec fn lex_rows_counted(rows: Seq<(Seq<Seq<char>>, u16)>, recs: Seq<Seq<Seq<char>>>) -> nat {
    if recs.len() == 0 {
        0
    } else {
        match lex_record_layout(recs[0]) {
            Err(_) => 0,
            Ok((map, skip)) => records_counted(
                rows,
                if skip {
                    recs.skip(1)
                } else {
                    recs
                },
                map,
                !skip,
            ),
        }
    }
}

/// What reading a lexicon source gives: what its rows give ([`lex_rows_outcome`]),
/// the rows being those that the CSV text holds before its first error, if it has
/// one; that error ends the reading where the rows did not fail before.
pub open spec fn read_lex_outcome(rows: Seq<(Seq<Seq<char>>, u16)>, data: Seq<u8>) -> (
    Seq<EntryView>,
    Option<(LexFailure, u64)>,
    Seq<(Seq<Seq<char>>, u16)>,
) {
    let (recs, failed) = csv_records(data);
    let (lines, err_line) = csv_lines(data);
    let (es, f, r) = lex_rows_outcome(rows, recs, lines);
    (es, match f {
        Some(x) => Some(x),
        None => if failed {
            Some((LexFailure::Csv, err_line))
        } else {
            None
        },
    }, r)
}

/// The number of references waiting for resolution that reading a lexicon source
/// counts; see [`lex_rows_counted`].
pub open spec fn read_lex_counted(rows: Seq<(Seq<Seq<char>>, u16)>, data: Seq<u8>) -> nat {
    lex_rows_counted(rows, csv_records(data).0)
}

/// The values of entries.
pub open spec fn entries_view(es: Seq<RawLexiconEntry>) -> Seq<EntryView> {
    es.map_values(|e: RawLexiconEntry| entry_view(e))
}

/// The references of entries that wait for resolution, all together.
pub open spec fn pending_total(es: Seq<RawLexiconEntry>) -> nat
    decreases es.len(),
{
    if es.len() == 0 {
        0
    } else {
        pending_total(es.drop_last()) + entry_pending(es.last())
    }
}


/// Whether a text result is what a text outcome says.
pub open spec fn same_text(o: Result<Seq<char>, LexFailure>, r: Result<String, BuildFailure>) -> bool {
    match o {
        Ok(v) => r matches Ok(x) && x@ == v,
        Err(f) => r matches Err(e) && lex_failure(f, e),
    }
}

/// Whether a result is what an outcome says.
pub open spec fn same_value<T>(o: Result<T, LexFailure>, r: Result<T, BuildFailure>) -> bool {
    match o {
        Ok(v) => r matches Ok(x) && x == v,
        Err(f) => r matches Err(e) && lex_failure(f, e),
    }
}

/// The field of a row in the place of column `c`.
fn field_at<'a>(record: &'a [String], layout: &ColumnLayout, c: Column) -> (r: Option<&'a str>)
    requires
        lex_layout_map(*layout).len() == COLUMN_COUNT,
    ensures
        opt_str_view(r) == lex_field(fields_view(record@), lex_layout_map(*layout), c),
{
    match layout.index(c) {
        None => None,
        Some(i) => if i < record.len() {
            Some(record[i].as_str())
        } else {
            None
        },
    }
}

/// A field that must be there, with its escapes replaced.
fn text_at(record: &[String], layout: &ColumnLayout, c: Column) -> (r: Result<String, BuildFailure>)
    requires
        lex_layout_map(*layout).len() == COLUMN_COUNT,
    ensures
        same_text(text_field(fields_view(record@), lex_layout_map(*layout), c), r),
{
    match field_at(record, layout, c) {
        None => Err(BuildFailure::NoRawField(c.label())),
        Some(x) => unescape(x),
    }
}

/// A field that may be missing, with its escapes replaced.
fn text_or_empty_at(record: &[String], layout: &ColumnLayout, c: Column) -> (r: Result<
    String,
    BuildFailure,
>)
    requires
        lex_layout_map(*layout).len() == COLUMN_COUNT,
    ensures
        same_text(text_field_or_empty(fields_view(record@), lex_layout_map(*layout), c), r),
{
    match field_at(record, layout, c) {
        None => Ok(String::new()),
        Some(x) => unescape(x),
    }
}

/// A number field that must be there.
fn i16_at(record: &[String], layout: &ColumnLayout, c: Column) -> (r: Result<i16, BuildFailure>)
    requires
        lex_layout_map(*layout).len() == COLUMN_COUNT,
    ensures
        same_value(i16_field(fields_view(record@), lex_layout_map(*layout), c), r),
{
    match field_at(record, layout, c) {
        None => Err(BuildFailure::NoRawField(c.label())),
        Some(x) => parse_i16(x),
    }
}

/// A list of numbers separated by `/`; see [`u32_list`].
pub fn parse_u32_list(data: &str, allow_asterisk: bool) -> (r: Result<Vec<u32>, BuildFailure>)
    ensures
        match u32_list(data@, allow_asterisk) {
            Ok(v) => r matches Ok(x) && x@ == v,
            Err(f) => r matches Err(e) && lex_failure(f, e),
        },
{
    let cs = chars_of(data);
    let asterisk = cs.len() == 1 && cs[0] == '*';
    proof {
        if cs@.len() == 1 {
            assert(asterisk == (data@ == seq!['*'])) by {
                if cs@[0] == '*' {
                    assert(data@ =~= seq!['*']);
                }
            }
        } else {
            assert(data@ != seq!['*']) by {
                assert(seq!['*'].len() == 1);
            }
        }
    }
    if cs.len() == 0 || asterisk {
        if asterisk && !allow_asterisk {
            return Err(BuildFailure::InvalidSplit(data.to_owned()));
        }
        return Ok(Vec::new());
    }
    let parts = split_chars(&cs, '/', usize::MAX);
    let ghost p = parts_view(parts@);
    let mut out: Vec<u32> = Vec::new();
    let mut i: usize = 0;
    proof {
        assert(p.take(0) =~= Seq::<Seq<char>>::empty());
    }
    while i < parts.len()
        invariant
            0 <= i <= parts@.len(),
            p == parts_view(parts@),
            p == split_n(data@, '/', usize::MAX as nat),
            !(data@.len() == 0 || data@ == seq!['*']),
            u32_parts(p.take(i as int)) == Ok::<Seq<u32>, LexFailure>(out@),
        decreases parts@.len() - i,
    {
        let part = string_from_chars(parts[i].as_slice());
        proof {
            assert(p.take(i + 1).drop_last() =~= p.take(i as int));
            assert(p.take(i + 1).last() == part@);
        }
        match parse_u32(part.as_str()) {
            Ok(v) => out.push(v),
            Err(e) => {
                proof {
                    lemma_u32_parts_stays_failed(p, i + 1);
                }
                return Err(e);
            },
        }
        i = i + 1;
    }
    proof {
        assert(p.take(i as int) =~= p);
    }
    Ok(out)
}

proof fn lemma_u32_parts_stays_failed(parts: Seq<Seq<char>>, k: int)
    requires
        0 <= k <= parts.len(),
        u32_parts(parts.take(k)) is Err,
    ensures
        u32_parts(parts) == u32_parts(parts.take(k)),
    decreases parts.len(),
{
    if k < parts.len() {
        assert(parts.drop_last().take(k) =~= parts.take(k));
        lemma_u32_parts_stays_failed(parts.drop_last(), k);
    } else {
        assert(parts.take(k) =~= parts);
    }
}

/// The fields of a row that are read before its references.
struct HeadFields {
    index_form: String,
    left_id: i16,
    right_id: i16,
    cost: i16,
    headword: String,
    pos: [String; 6],
    reading: String,
    normalized: String,
    dic_form: String,
    mode: Mode,
}

/// The value of the fields read before the references.
spec fn head_view(h: HeadFields) -> RecordHead {
    RecordHead {
        index_form: h.index_form@,
        left_id: h.left_id,
        right_id: h.right_id,
        cost: h.cost,
        headword: h.headword@,
        pos: h.pos@.map_values(|x: String| x@),
        reading: h.reading@,
        normalized: h.normalized@,
        dic_form: h.dic_form@,
        mode: h.mode,
    }
}

/// Reads the fields of a row that come before its references; see [`record_head`].
fn read_head(record: &[String], layout: &ColumnLayout) -> (r: Result<HeadFields, BuildFailure>)
    requires
        lex_layout_map(*layout).len() == COLUMN_COUNT,
    ensures
        match record_head(fields_view(record@), lex_layout_map(*layout)) {
            Ok(h) => r matches Ok(x) && head_view(x) == h,
            Err(f) => r matches Err(e) && lex_failure(f, e),
        },
{
    let index_form = match text_at(record, layout, Column::IndexForm) {
        Ok(v) => v,
        Err(e) => return Err(e),
    };
    let left_id = match i16_at(record, layout, Column::LeftId) {
        Ok(v) => v,
        Err(e) => return Err(e),
    };
    let right_id = match i16_at(record, layout, Column::RightId) {
        Ok(v) => v,
        Err(e) => return Err(e),
    };
    let cost = match i16_at(record, layout, Column::Cost) {
        Ok(v) => v,
        Err(e) => return Err(e),
    };
    let headword = match text_or_empty_at(record, layout, Column::Headword) {
        Ok(v) => v,
        Err(e) => return Err(e),
    };
    let p1 = match text_or_empty_at(record, layout, Column::Pos1) {
        Ok(v) => v,
        Err(e) => return Err(e),
    };
    let p2 = match text_or_empty_at(record, layout, Column::Pos2) {
        Ok(v) => v,
        Err(e) => return Err(e),
    };
    let p3 = match text_or_empty_at(record, layout, Column::Pos3) {
        Ok(v) => v,
        Err(e) => return Err(e),
    };
    let p4 = match text_or_empty_at(record, layout, Column::Pos4) {
        Ok(v) => v,
        Err(e) => return Err(e),
    };
    let p5 = match text_or_empty_at(record, layout, Column::Pos5) {
        Ok(v) => v,
        Err(e) => return Err(e),
    };
    let p6 = match text_or_empty_at(record, layout, Column::Pos6) {
        Ok(v) => v,
        Err(e) => return Err(e),
    };
    let reading = match text_at(record, layout, Column::ReadingForm) {
        Ok(v) => v,
        Err(e) => return Err(e),
    };
    let normalized = match field_at(record, layout, Column::NormalizedForm) {
        Some(x) => x.to_owned(),
        None => return Err(BuildFailure::NoRawField(Column::NormalizedForm.label())),
    };
    let dic_form = match field_at(record, layout, Column::DictionaryForm) {
        Some(x) => x.to_owned(),
        None => String::new(),
    };
    let mode = match field_at(record, layout, Column::Mode) {
        None => Mode::C,
        Some(x) => match parse_mode(x) {
            Ok(m) => m,
            Err(e) => return Err(e),
        },
    };
    let pos = [p1, p2, p3, p4, p5, p6];
    let h = HeadFields {
        index_form,
        left_id,
        right_id,
        cost,
        headword,
        pos,
        reading,
        normalized,
        dic_form,
        mode,
    };
    proof {
        let want = record_head(fields_view(record@), lex_layout_map(*layout))->Ok_0;
        assert(h.pos@.map_values(|x: String| x@) =~= want.pos);
    }
    Ok(h)
}

/// Reads the synonym groups, the user data and the part-of-speech id of a row; see
/// [`record_tail`].
fn read_tail(record: &[String], layout: &ColumnLayout) -> (r: Result<
    (Vec<u32>, String, i16),
    BuildFailure,
>)
    requires
        lex_layout_map(*layout).len() == COLUMN_COUNT,
    ensures
        match record_tail(fields_view(record@), lex_layout_map(*layout)) {
            Ok((synonyms, user_data, pos_id)) => r matches Ok((x, y, z)) && x@ == synonyms
                && y@ == user_data && z == pos_id,
            Err(f) => r matches Err(e) && lex_failure(f, e),
        },
{
    let synonyms = match field_at(record, layout, Column::SynonymGroups) {
        None => Vec::new(),
        Some(x) => match parse_u32_list(x, true) {
            Ok(v) => v,
            Err(e) => return Err(e),
        },
    };
    let user_data = match text_or_empty_at(record, layout, Column::UserData) {
        Ok(v) => v,
        Err(e) => return Err(e),
    };
    let pos_id: i16 = match field_at(record, layout, Column::PosId) {
        None => -1,
        Some(x) => {
            if chars_of(x).len() == 0 {
                -1
            } else {
                match parse_i16(x) {
                    Ok(v) => v,
                    Err(e) => return Err(e),
                }
            }
        },
    };
    Ok((synonyms, user_data, pos_id))
}

proof fn lemma_records_stays_failed(
    rows: Seq<(Seq<Seq<char>>, u16)>,
    recs: Seq<Seq<Seq<char>>>,
    map: Seq<int>,
    legacy: bool,
    k: int,
)
    requires
        0 <= k <= recs.len(),
        records_outcome(rows, recs.take(k), map, legacy).1 is Some,
    ensures
        records_outcome(rows, recs, map, legacy) == records_outcome(rows, recs.take(k), map, legacy),
        records_counted(rows, recs, map, legacy) == records_counted(rows, recs.take(k), map, legacy),
    decreases recs.len(),
{
    if k < recs.len() {
        assert(recs.drop_last().take(k) =~= recs.take(k));
        lemma_records_stays_failed(rows, recs.drop_last(), map, legacy, k);
    } else {
        assert(recs.take(k) =~= recs);
    }
}

proof fn lemma_capped_sum_step(a: nat, b: nat, c: nat)
    ensures
        capped_sum(capped_sum(a, b) as nat, c) == capped_sum(a, b + c),
{
}

/// Whether two readers differ at most in their part-of-speech rows.
pub open spec fn same_but_pos(a: LexiconReader, b: LexiconReader) -> bool {
    &&& a.spec_entries() == b.spec_entries()
    &&& a.spec_start_pos() == b.spec_start_pos()
    &&& a.spec_unresolved() == b.spec_unresolved()
    &&& a.spec_max_conn() == b.spec_max_conn()
    &&& a.spec_num_system() == b.spec_num_system()
}

/// The part at `k` with its escapes replaced.
fn unescaped_part(parts: &Vec<Vec<char>>, k: usize, label: &'static str, data: &str) -> (r: Result<
    String,
    BuildFailure,
>)
    ensures
        match unescaped_field(parts_view(parts@), k as int, label@, data@) {
            Ok(v) => r matches Ok(x) && x@ == v,
            Err(f) => r matches Err(e) && lex_failure(f, e),
        },
{
    if k >= parts.len() {
        return Err(BuildFailure::SplitFormatError { field: label, original: data.to_owned() });
    }
    let text = string_from_chars(parts[k].as_slice());
    unescape(text.as_str())
}

impl LexiconReader {
    /// Reads one reference; see [`split_outcome`].
    pub fn parse_split(&mut self, data: &str, allow_word_id_ref: bool) -> (r: Result<
        WordRef,
        BuildFailure,
    >)
        ensures
            ({
                let (o, rows) = split_outcome(old(self).spec_pos_rows(), data@, allow_word_id_ref);
                &&& final(self).spec_pos_rows() == rows
                &&& match o {
                    Ok(w) => r matches Ok(x) && x@ == w,
                    Err(f) => r matches Err(e) && lex_failure(f, e),
                }
            }),
            same_but_pos(*old(self), *final(self)),
    {
        let cs = chars_of(data);
        if word_id_literal(&cs) {
            if !allow_word_id_ref {
                return Err(BuildFailure::InvalidSplit(data.to_owned()));
            }
            return match parse_word_id(&cs) {
                Ok(w) => {
                    proof {
                        word_ref_of_raw_view(w@);
                        word_ref_view_injective(w, word_ref_of_raw(w@));
                    }
                    Ok(WordRef::Ref(w))
                },
                Err(e) => Err(e),
            };
        }
        if count_chars(&cs, ',') == 2 {
            let parts = split_chars(&cs, ',', 3);
            let ghost p = parts_view(parts@);
            let headword = match unescaped_part(&parts, 0, "(1) headword", data) {
                Ok(v) => v,
                Err(e) => return Err(e),
            };
            if parts.len() < 2 {
                return Err(
                    BuildFailure::SplitFormatError { field: "(2) pos-id", original: data.to_owned() },
                );
            }
            let pid_text = string_from_chars(parts[1].as_slice());
            let pid = match parse_i16(pid_text.as_str()) {
                Ok(v) => v,
                Err(e) => return Err(e),
            };
            let reading = match unescaped_part(&parts, 2, "(3) reading", data) {
                Ok(v) => v,
                Err(e) => return Err(e),
            };
            let same = str_eq(headword.as_str(), reading.as_str());
            let pos: u16 = pid as u16;
            let rd: Option<String> = if same {
                None
            } else {
                Some(reading)
            };
            assert(p[1] == pid_text@);
            let w = WordRef::Inline { headword, pos, reading: rd };
            return Ok(w);
        }
        let parts = split_chars(&cs, ',', 8);
        let headword = match unescaped_part(&parts, 0, "(1) headword", data) {
            Ok(v) => v,
            Err(e) => return Err(e),
        };
        let p1 = match unescaped_part(&parts, 1, "(2) pos-1", data) {
            Ok(v) => v,
            Err(e) => return Err(e),
        };
        let p2 = match unescaped_part(&parts, 2, "(3) pos-2", data) {
            Ok(v) => v,
            Err(e) => return Err(e),
        };
        let p3 = match unescaped_part(&parts, 3, "(4) pos-3", data) {
            Ok(v) => v,
            Err(e) => return Err(e),
        };
        let p4 = match unescaped_part(&parts, 4, "(5) pos-4", data) {
            Ok(v) => v,
            Err(e) => return Err(e),
        };
        let p5 = match unescaped_part(&parts, 5, "(6) pos-conj-1", data) {
            Ok(v) => v,
            Err(e) => return Err(e),
        };
        let p6 = match unescaped_part(&parts, 6, "(7) pos-conj-2", data) {
            Ok(v) => v,
            Err(e) => return Err(e),
        };
        let reading = match unescaped_part(&parts, 7, "(8) reading", data) {
            Ok(v) => v,
            Err(e) => return Err(e),
        };
        let ghost row = seq![p1@, p2@, p3@, p4@, p5@, p6@];
        let ghost rows0 = self.spec_pos_rows();
        let data6 = [p1, p2, p3, p4, p5, p6];
        assert(data6@.map_values(|s: String| s@) =~= row);
        proof {
            let keys = row_keys(rows0);
            assert(keys.len() == rows0.len());
            if pos_index(keys, row, 0) is Some {
                super::lemma_pos_index_bound(keys, row, 0);
            }
        }
        let pid = match self.pos_id_of(data6) {
            Ok(v) => v,
            Err(e) => return Err(e),
        };
        let same = str_eq(headword.as_str(), reading.as_str());
        Ok(
            WordRef::Inline {
                headword,
                pos: pid,
                reading: if same {
                    None
                } else {
                    Some(reading)
                },
            },
        )
    }

    /// Reads a list of references; see [`splits_outcome`]. Gives the references and
    /// how many of them wait for resolution.
    pub fn parse_splits_with_asterisk(
        &mut self,
        data: &str,
        allow_word_id_ref: bool,
        allow_asterisk: bool,
    ) -> (r: Result<(Vec<WordRef>, usize), BuildFailure>)
        ensures
            ({
                let (o, rows) = splits_outcome(
                    old(self).spec_pos_rows(),
                    data@,
                    allow_word_id_ref,
                    allow_asterisk,
                );
                &&& final(self).spec_pos_rows() == rows
                &&& match o {
                    Ok(v) => r matches Ok((x, n)) && refs_view(x@) == v && n == pending_refs(x@),
                    Err(f) => r matches Err(e) && lex_failure(f, e),
                }
            }),
            same_but_pos(*old(self), *final(self)),
    {
        let cs = chars_of(data);
        let asterisk = cs.len() == 1 && cs[0] == '*';
        proof {
            if cs@.len() == 1 {
                assert(asterisk == (data@ == seq!['*'])) by {
                    if cs@[0] == '*' {
                        assert(data@ =~= seq!['*']);
                    }
                }
            } else {
                assert(data@ != seq!['*']) by {
                    assert(seq!['*'].len() == 1);
                }
            }
        }
        if cs.len() == 0 || asterisk {
            if asterisk && !allow_asterisk {
                return Err(BuildFailure::InvalidSplit(data.to_owned()));
            }
            proof {
                assert(refs_view(Seq::<WordRef>::empty()) =~= Seq::<WordRefView>::empty());
            }
            return Ok((Vec::new(), 0));
        }
        let parts = split_chars(&cs, '/', usize::MAX);
        let ghost p = parts_view(parts@);
        let ghost rows0 = self.spec_pos_rows();
        let mut out: Vec<WordRef> = Vec::new();
        let mut i: usize = 0;
        proof {
            assert(p.take(0) =~= Seq::<Seq<char>>::empty());
            assert(refs_view(out@) =~= Seq::<WordRefView>::empty());
        }
        while i < parts.len()
            invariant
                0 <= i <= parts@.len(),
                p == parts_view(parts@),
                p == split_n(data@, '/', usize::MAX as nat),
                !(data@.len() == 0 || data@ == seq!['*']),
                list_outcome(rows0, p.take(i as int), allow_word_id_ref) == (
                    Ok::<Seq<WordRefView>, LexFailure>(refs_view(out@)),
                    self.spec_pos_rows(),
                ),
                same_but_pos(*old(self), *self),
                rows0 == old(self).spec_pos_rows(),
            decreases parts@.len() - i,
        {
            let part = string_from_chars(parts[i].as_slice());
            let ghost before = self.spec_pos_rows();
            proof {
                assert(p.take(i + 1).drop_last() =~= p.take(i as int));
                assert(p.take(i + 1).last() == part@);
            }
            match self.parse_split(part.as_str(), allow_word_id_ref) {
                Ok(w) => {
                    proof {
                        assert(refs_view(out@.push(w)) =~= refs_view(out@).push(w@));
                    }
                    out.push(w);
                },
                Err(e) => {
                    proof {
                        assert(split_outcome(before, part@, allow_word_id_ref).0 is Err);
                        assert(list_outcome(rows0, p.take(i + 1), allow_word_id_ref).0 is Err);
                        lemma_list_outcome_stays_failed(rows0, p, allow_word_id_ref, i + 1);
                    }
                    return Err(e);
                },
            }
            i = i + 1;
        }
        proof {
            assert(p.take(i as int) =~= p);
        }
        let n = pending_in(&out);
        Ok((out, n))
    }

    /// Reads a list of references, `*` included; see [`splits_outcome`].
    pub fn parse_splits(&mut self, data: &str, allow_word_id_ref: bool) -> (r: Result<
        (Vec<WordRef>, usize),
        BuildFailure,
    >)
        ensures
            ({
                let (o, rows) = splits_outcome(old(self).spec_pos_rows(), data@, allow_word_id_ref, true);
                &&& final(self).spec_pos_rows() == rows
                &&& match o {
                    Ok(v) => r matches Ok((x, n)) && refs_view(x@) == v && n == pending_refs(x@),
                    Err(f) => r matches Err(e) && lex_failure(f, e),
                }
            }),
            same_but_pos(*old(self), *final(self)),
    {
        self.parse_splits_with_asterisk(data, allow_word_id_ref, true)
    }

    /// Reads a dictionary form field; see [`dic_form_outcome`]. Gives the reference and
    /// whether it waits for resolution.
    pub fn parse_dic_form(
        &mut self,
        data: &str,
        allow_word_id_ref: bool,
        headword: &str,
        pos: u16,
        reading: &str,
    ) -> (r: Result<(WordRef, usize), BuildFailure>)
        ensures
            ({
                let (o, rows) = dic_form_outcome(
                    old(self).spec_pos_rows(),
                    data@,
                    allow_word_id_ref,
                    headword@,
                    pos,
                    reading@,
                );
                &&& final(self).spec_pos_rows() == rows
                &&& match o {
                    Ok(w) => r matches Ok((x, n)) && x@ == w && n == pending_count(w),
                    Err(f) => r matches Err(e) && lex_failure(f, e),
                }
            }),
            same_but_pos(*old(self), *final(self)),
    {
        let asterisk = str_eq(data, "*");
        let empty = chars_of(data).len() == 0;
        proof {
            reveal_strlit("*");
            assert("*"@ =~= seq!['*']);
        }
        if empty || (allow_word_id_ref && asterisk) {
            return Ok((WordRef::SelfRef, 0));
        }
        if asterisk {
            return Err(BuildFailure::InvalidSplit(data.to_owned()));
        }
        let parsed = match self.parse_split(data, allow_word_id_ref) {
            Ok(w) => w,
            Err(e) => return Err(e),
        };
        if let WordRef::Inline { headword: h, pos: p, reading: rd } = &parsed {
            let own_same = str_eq(headword, reading);
            let rd_matches = match rd {
                None => own_same,
                Some(x) => !own_same && str_eq(x.as_str(), reading),
            };
            if str_eq(h.as_str(), headword) && *p == pos && rd_matches {
                return Ok((WordRef::SelfRef, 0));
            }
        }
        let n = pending_of(&parsed);
        Ok((parsed, n))
    }

    /// Reads a normalized form field; see [`norm_form_outcome`]. Gives the normalized
    /// form and whether it waits for resolution.
    pub fn parse_norm_form(&mut self, data: &str, headword: &str) -> (r: Result<
        (Option<NormFormValue>, usize),
        BuildFailure,
    >)
        ensures
            ({
                let (o, rows) = norm_form_outcome(old(self).spec_pos_rows(), data@, headword@);
                &&& final(self).spec_pos_rows() == rows
                &&& match o {
                    Ok(v) => r matches Ok((x, n)) && opt_norm_view(x) == v && n == (if v is Some {
                        1usize
                    } else {
                        0usize
                    }),
                    Err(f) => r matches Err(e) && lex_failure(f, e),
                }
            }),
            same_but_pos(*old(self), *final(self)),
    {
        let asterisk = str_eq(data, "*");
        let empty = chars_of(data).len() == 0;
        proof {
            reveal_strlit("*");
            assert("*"@ =~= seq!['*']);
        }
        if empty || asterisk {
            return Ok((None, 0));
        }
        let cs = chars_of(data);
        let commas = count_chars(&cs, ',');
        if commas == 2 || commas == 7 {
            let parsed = match self.parse_split(data, false) {
                Ok(w) => w,
                Err(e) => return Err(e),
            };
            return Ok((Some(NormFormValue::Ref(parsed)), 1));
        }
        let normalized = match unescape(data) {
            Ok(v) => v,
            Err(e) => return Err(e),
        };
        if str_eq(normalized.as_str(), headword) {
            Ok((None, 0))
        } else {
            Ok((Some(NormFormValue::Ref(WordRef::Headword(normalized))), 1))
        }
    }

    /// Reads the list of references in column `c`; see [`refs_field`].
    fn refs_at(&mut self, record: &[String], layout: &ColumnLayout, c: Column, required: bool) -> (r:
        Result<Vec<WordRef>, BuildFailure>)
        requires
            lex_layout_map(*layout).len() == COLUMN_COUNT,
        ensures
            ({
                let (o, rows) = refs_field(
                    old(self).spec_pos_rows(),
                    fields_view(record@),
                    lex_layout_map(*layout),
                    c,
                    *layout is Legacy,
                    required,
                );
                &&& final(self).spec_pos_rows() == rows
                &&& match o {
                    Ok(v) => r matches Ok(x) && refs_view(x@) == v,
                    Err(f) => r matches Err(e) && lex_failure(f, e),
                }
            }),
            same_but_pos(*old(self), *final(self)),
    {
        let legacy = layout.is_legacy();
        match field_at(record, layout, c) {
            None => {
                if required {
                    Err(BuildFailure::NoRawField(c.label()))
                } else {
                    proof {
                        assert(refs_view(Seq::<WordRef>::empty()) =~= Seq::<WordRefView>::empty());
                    }
                    Ok(Vec::new())
                }
            },
            Some(x) => match self.parse_splits_with_asterisk(x, legacy, true) {
                Ok((v, _)) => Ok(v),
                Err(e) => Err(e),
            },
        }
    }

    /// Reads the reference lists of a row; see [`record_refs`].
    fn read_refs(&mut self, record: &[String], layout: &ColumnLayout) -> (r: Result<
        (Vec<WordRef>, Vec<WordRef>, Vec<WordRef>, Vec<WordRef>),
        BuildFailure,
    >)
        requires
            lex_layout_map(*layout).len() == COLUMN_COUNT,
        ensures
            ({
                let (o, rows) = record_refs(
                    old(self).spec_pos_rows(),
                    fields_view(record@),
                    lex_layout_map(*layout),
                    *layout is Legacy,
                );
                &&& final(self).spec_pos_rows() == rows
                &&& match o {
                    Ok((a, b, c, w)) => r matches Ok((x, y, z, u)) && refs_view(x@) == a
                        && refs_view(y@) == b && refs_view(z@) == c && refs_view(u@) == w,
                    Err(f) => r matches Err(e) && lex_failure(f, e),
                }
            }),
            same_but_pos(*old(self), *final(self)),
    {
        let a = match self.refs_at(record, layout, Column::SplitA, true) {
            Ok(v) => v,
            Err(e) => return Err(e),
        };
        let b = match self.refs_at(record, layout, Column::SplitB, true) {
            Ok(v) => v,
            Err(e) => return Err(e),
        };
        let c = match self.refs_at(record, layout, Column::SplitC, false) {
            Ok(v) => v,
            Err(e) => return Err(e),
        };
        let w = match self.refs_at(record, layout, Column::WordStructure, true) {
            Ok(v) => v,
            Err(e) => return Err(e),
        };
        Ok((a, b, c, w))
    }

    /// The part of speech of a row; see [`record_pos`].
    fn choose_pos(&mut self, row: [String; 6], pos_id: i16) -> (r: Result<u16, BuildFailure>)
        ensures
            ({
                let (o, rows) = record_pos(
                    old(self).spec_pos_rows(),
                    row@.map_values(|x: String| x@),
                    pos_id,
                );
                &&& final(self).spec_pos_rows() == rows
                &&& same_value(o, r)
            }),
            same_but_pos(*old(self), *final(self)),
    {
        let ghost rows0 = self.spec_pos_rows();
        let ghost key = row@.map_values(|x: String| x@);
        let first_empty = chars_of(row[0].as_str()).len() == 0;
        assert(key[0] == row@[0]@);
        if !first_empty {
            proof {
                let keys = row_keys(rows0);
                assert(keys.len() == rows0.len());
                if pos_index(keys, key, 0) is Some {
                    super::lemma_pos_index_bound(keys, key, 0);
                }
            }
            let pos = match self.pos_id_of(row) {
                Ok(v) => v,
                Err(e) => return Err(e),
            };
            if pos_id >= 0 && pos_id as u16 != pos {
                return Err(BuildFailure::InvalidSplit("PosId and Pos1..Pos6 do not match".to_owned()));
            }
            Ok(pos)
        } else if pos_id >= 0 {
            if pos_id as usize >= self.pos_len() {
                return Err(
                    BuildFailure::InvalidSplit("POS for id was not present in the table".to_owned()),
                );
            }
            Ok(pos_id as u16)
        } else {
            Err(BuildFailure::InvalidSplit("Both PosId and Pos1..Pos6 are missing".to_owned()))
        }
    }

    /// Reads one row of a lexicon source to an entry; see [`record_outcome`].
    pub fn parse_record(&mut self, record: &[String], layout: &ColumnLayout) -> (r: Result<
        RawLexiconEntry,
        BuildFailure,
    >)
        requires
            lex_layout_map(*layout).len() == COLUMN_COUNT,
        ensures
            ({
                let (o, rows) = record_outcome(
                    old(self).spec_pos_rows(),
                    fields_view(record@),
                    lex_layout_map(*layout),
                    *layout is Legacy,
                );
                &&& final(self).spec_pos_rows() == rows
                &&& match o {
                    Ok(v) => r matches Ok(x) && entry_view(x) == v,
                    Err(f) => r matches Err(e) && lex_failure(f, e),
                }
            }),
            final(self).spec_unresolved() == capped_sum(
                old(self).spec_unresolved() as nat,
                record_counted(
                    old(self).spec_pos_rows(),
                    fields_view(record@),
                    lex_layout_map(*layout),
                    *layout is Legacy,
                ),
            ),
            final(self).spec_entries() == old(self).spec_entries(),
            final(self).spec_start_pos() == old(self).spec_start_pos(),
            final(self).spec_max_conn() == old(self).spec_max_conn(),
            final(self).spec_num_system() == old(self).spec_num_system(),
    {
        reveal(record_parts);
        let legacy = layout.is_legacy();
        let head = match read_head(record, layout) {
            Ok(h) => h,
            Err(e) => return Err(e),
        };
        let (split_a, split_b, split_c, parts) = match self.read_refs(record, layout) {
            Ok(v) => v,
            Err(e) => return Err(e),
        };
        let (synonyms, user_data, pos_id) = match read_tail(record, layout) {
            Ok(v) => v,
            Err(e) => return Err(e),
        };
        let HeadFields {
            index_form,
            left_id,
            right_id,
            cost,
            headword,
            pos: pos_fields,
            reading,
            normalized,
            dic_form: dic_form_ref,
            mode: splitting,
        } = head;
        let pos = match self.choose_pos(pos_fields, pos_id) {
            Ok(v) => v,
            Err(e) => return Err(e),
        };
        if splitting == Mode::A && (split_a.len() > 0 || split_b.len() > 0) {
            return Err(BuildFailure::InvalidSplit("A-mode tokens can't have splits".to_owned()));
        }
        let effective_headword: String = if chars_of(headword.as_str()).len() == 0 {
            index_form.clone()
        } else {
            headword
        };
        assert(effective_headword@ == (if head.headword@.len() == 0 {
            head.index_form@
        } else {
            head.headword@
        }));
        let (dic_form, _) = match self.parse_dic_form(
            dic_form_ref.as_str(),
            legacy,
            effective_headword.as_str(),
            pos,
            reading.as_str(),
        ) {
            Ok(v) => v,
            Err(e) => return Err(e),
        };
        let (norm_form, _) = match self.parse_norm_form(normalized.as_str(), effective_headword.as_str()) {
            Ok(v) => v,
            Err(e) => return Err(e),
        };
        let reading_kept = if str_eq(effective_headword.as_str(), reading.as_str()) {
            None
        } else {
            Some(reading)
        };
        let headword_kept = if str_eq(index_form.as_str(), effective_headword.as_str()) {
            None
        } else {
            Some(effective_headword)
        };
        let entry = RawLexiconEntry {
            left_id,
            right_id,
            cost,
            surface: index_form,
            headword: headword_kept,
            dic_form,
            norm_form,
            pos,
            splits_a: split_a,
            splits_b: split_b,
            splits_c: split_c,
            reading: reading_kept,
            splitting,
            word_structure: parts,
            synonym_groups: synonyms,
            user_data,
        };
        proof {
            lemma_view_pending(entry);
        }
        self.count_pending(&entry);
        if chars_of(entry.surface.as_str()).len() == 0 {
            return Err(BuildFailure::EmptySurface);
        }
        Ok(entry)
    }

    /// Reads the rows of a lexicon source and adds their entries, giving their number;
    /// see [`lex_rows_outcome`]. `lines` holds the line where each row starts. The
    /// entries read before a failure stay added.
    pub fn read_rows(&mut self, records: &[Vec<String>], lines: &[u64]) -> (r: Result<
        usize,
        DicBuildError,
    >)
        requires
            lines@.len() == records@.len(),
        ensures
            ({
                let (es, f, rows) = lex_rows_outcome(
                    old(self).spec_pos_rows(),
                    records_view(records@),
                    lines@,
                );
                let before = old(self).spec_entries();
                let added = final(self).spec_entries().skip(before.len() as int);
                &&& final(self).spec_pos_rows() == rows
                &&& final(self).spec_entries().len() >= before.len()
                &&& final(self).spec_entries().take(before.len() as int) == before
                &&& entries_view(added) == es
                &&& final(self).spec_unresolved() == capped_sum(
                    old(self).spec_unresolved() as nat,
                    lex_rows_counted(old(self).spec_pos_rows(), records_view(records@)),
                )
                &&& (f is None ==> lex_rows_counted(old(self).spec_pos_rows(), records_view(records@))
                    == pending_total(added))
                &&& match f {
                    None => r == Ok::<usize, DicBuildError>(es.len() as usize),
                    Some((x, line)) => r matches Err(e) && lex_failure(x, e.cause) && e.line
                        == line as usize,
                }
            }),
            final(self).spec_start_pos() == old(self).spec_start_pos(),
            final(self).spec_max_conn() == old(self).spec_max_conn(),
            final(self).spec_num_system() == old(self).spec_num_system(),
    {
        let ghost before = self.spec_entries();
        let ghost rows0 = self.spec_pos_rows();
        let ghost recs = records_view(records@);
        proof {
            assert(before.skip(before.len() as int) =~= Seq::<RawLexiconEntry>::empty());
            assert(entries_view(Seq::<RawLexiconEntry>::empty()) =~= Seq::<EntryView>::empty());
            assert(before.take(before.len() as int) =~= before);
        }
        if records.len() == 0 {
            return Ok(0);
        }
        assert(recs[0] == fields_view(records@[0]@));
        let (layout, skip) = match ColumnLayout::from_record(records[0].as_slice()) {
            Ok(v) => v,
            Err(e) => return Err(DicBuildError { cause: e, line: lines[0] as usize }),
        };
        let ghost map = lex_layout_map(layout);
        let ghost body = if skip {
            recs.skip(1)
        } else {
            recs
        };
        let ghost legacy = layout is Legacy;
        assert(lex_record_layout(recs[0]) == Ok::<(Seq<int>, bool), LexHeaderFailure>((map, skip)));
        let start: usize = if skip {
            1
        } else {
            0
        };
        let mut i: usize = start;
        let mut n: usize = 0;
        proof {
            assert(body.take(0) =~= Seq::<Seq<Seq<char>>>::empty());
        }
        while i < records.len()
            invariant
                start <= i <= records@.len(),
                start == (if skip { 1usize } else { 0usize }),
                start <= records@.len(),
                recs == records_view(records@),
                lines@.len() == records@.len(),
                recs.len() > 0,
                lex_record_layout(recs[0]) == Ok::<(Seq<int>, bool), LexHeaderFailure>((map, skip)),
                body == (if skip { recs.skip(1) } else { recs }),
                map == lex_layout_map(layout),
                map.len() == COLUMN_COUNT,
                legacy == (layout is Legacy),
                legacy == !skip,
                n == i - start,
                self.spec_entries().len() == before.len() + n,
                self.spec_entries().take(before.len() as int) == before,
                records_outcome(rows0, body.take(n as int), map, legacy) == (
                    entries_view(self.spec_entries().skip(before.len() as int)),
                    None::<LexFailure>,
                    self.spec_pos_rows(),
                ),
                self.spec_unresolved() == capped_sum(
                    old(self).spec_unresolved() as nat,
                    records_counted(rows0, body.take(n as int), map, legacy),
                ),
                records_counted(rows0, body.take(n as int), map, legacy) == pending_total(
                    self.spec_entries().skip(before.len() as int),
                ),
                before == old(self).spec_entries(),
                rows0 == old(self).spec_pos_rows(),
                self.spec_start_pos() == old(self).spec_start_pos(),
                self.spec_max_conn() == old(self).spec_max_conn(),
                self.spec_num_system() == old(self).spec_num_system(),
            decreases records@.len() - i,
        {
            let ghost prev = self.spec_entries();
            let ghost prev_rows = self.spec_pos_rows();
            let ghost prev_unresolved = self.spec_unresolved();
            proof {
                assert(body.take(n + 1).drop_last() =~= body.take(n as int));
                assert(body[n as int] == recs[i as int]);
                assert(body.take(n + 1).last() == fields_view(records@[i as int]@));
            }
            match self.parse_record(records[i].as_slice(), &layout) {
                Ok(e) => {
                    self.append_entry(e);
                    proof {
                        let added_before = prev.skip(before.len() as int);
                        let added = self.spec_entries().skip(before.len() as int);
                        assert(added =~= added_before.push(e));
                        assert(added.drop_last() =~= added_before);
                        assert(entries_view(added) =~= entries_view(added_before).push(entry_view(e)));
                        lemma_capped_sum_step(
                            old(self).spec_unresolved() as nat,
                            records_counted(rows0, body.take(n as int), map, legacy),
                            record_counted(prev_rows, body.take(n + 1).last(), map, legacy),
                        );
                        lemma_view_pending(e);
                        assert(self.spec_entries().take(before.len() as int) =~= before);
                    }
                    n = n + 1;
                    i = i + 1;
                },
                Err(e) => {
                    proof {
                        let o = record_outcome(prev_rows, body.take(n + 1).last(), map, legacy);
                        assert(o.0 is Err);
                        assert(records_outcome(rows0, body.take(n + 1), map, legacy).1 == Some(o.0->Err_0));
                        lemma_capped_sum_step(
                            old(self).spec_unresolved() as nat,
                            records_counted(rows0, body.take(n as int), map, legacy),
                            record_counted(prev_rows, body.take(n + 1).last(), map, legacy),
                        );
                        lemma_records_stays_failed(rows0, body, map, legacy, n + 1);
                        assert(records_outcome(rows0, body, map, legacy).0.len() == n);
                    }
                    return Err(DicBuildError { cause: e, line: lines[i] as usize });
                },
            }
        }
        proof {
            assert(body.take(n as int) =~= body);
        }
        Ok(n)
    }

    /// Reads a lexicon source from CSV text and adds its entries, giving their number;
    /// see [`read_lex_outcome`]. The entries read before a failure stay added.
    pub fn read_bytes(&mut self, data: &[u8]) -> (r: Result<usize, DicBuildError>)
        ensures
            ({
                let (es, f, rows) = read_lex_outcome(old(self).spec_pos_rows(), data@);
                let before = old(self).spec_entries();
                let added = final(self).spec_entries().skip(before.len() as int);
                &&& final(self).spec_pos_rows() == rows
                &&& final(self).spec_entries().len() >= before.len()
                &&& final(self).spec_entries().take(before.len() as int) == before
                &&& entries_view(added) == es
                &&& final(self).spec_unresolved() == capped_sum(
                    old(self).spec_unresolved() as nat,
                    read_lex_counted(old(self).spec_pos_rows(), data@),
                )
                &&& (f is None ==> read_lex_counted(old(self).spec_pos_rows(), data@) == pending_total(added))
                &&& match f {
                    None => r == Ok::<usize, DicBuildError>(es.len() as usize),
                    Some((x, line)) => r matches Err(e) && lex_failure(x, e.cause) && e.line
                        == line as usize,
                }
            }),
            final(self).spec_start_pos() == old(self).spec_start_pos(),
            final(self).spec_max_conn() == old(self).spec_max_conn(),
            final(self).spec_num_system() == old(self).spec_num_system(),
    {
        let (records, failed, lines, err_line) = read_csv_records(data);
        let n = match self.read_rows(records.as_slice(), lines.as_slice()) {
            Ok(n) => n,
            Err(e) => return Err(e),
        };
        if failed {
            return Err(DicBuildError { cause: BuildFailure::CsvError, line: err_line as usize });
        }
        Ok(n)
    }
}

} // verus!
