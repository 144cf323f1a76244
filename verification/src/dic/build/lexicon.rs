//! The lexicon part of the dictionary builder: part-of-speech rows and the writer of
//! the entries block.
pub mod entry;
pub mod layout;
pub mod parser;
pub mod refs;
pub mod resolution;
pub mod string_store;

use vstd::prelude::*;
use vstd::utf8::encode_utf8;

use crate::dic::build::error::{BuildFailure, DicBuildError};
use crate::dic::build::parse::{parse_i16, spec_parse_i16};
use crate::dic::build::pos::{
    pos_failure_line, pos_rows_failure_line, pos_rows_outcome, pos_table_failure, read_pos_outcome,
    records_view,
};
use crate::dic::build::pos_map::{
    pos_map_get, pos_map_insert, pos_map_len, pos_map_new, pos_map_row_at, pos_map_rows, row_keys,
    rows_after_insert,
};
use indexmap::IndexMap;
use crate::dic::read::primitives::{spec_i16_bytes, write_i16, write_u16};
use vstd::bytes::spec_u16_to_le_bytes;
use crate::dic::read::utf16_string::{encode_utf16, spec_utf16_encode};
use crate::dic::word_id::{raw_dic, raw_entry, raw_word_id, WordId};
use crate::dic::word_info::layout::{spec_layout_user_units, spec_unaligned_size};
use crate::dic::word_info::parse::{spec_parse_word_info, word_info_write_parse_round_trip, WordInfoRawView};
use crate::dic::word_info::raw::{lemma_variable_bytes_len, spec_fixed_bytes, spec_variable_bytes, WordInfoFixedData};
use crate::dic::word_info::variable_io::{
    spec_i32s_bytes, spec_u16s_bytes, spec_u32s_bytes, spec_utf16_string_bytes, write_u16_slice,
};
use crate::dic::word_info::infos::{spec_entry_offsets, spec_entry_size_at};
use crate::dic::word_info::layout::{
    OFFSET_A_UNIT_SPLIT_LENGTH, OFFSET_B_UNIT_SPLIT_LENGTH, OFFSET_C_UNIT_SPLIT_LENGTH,
    OFFSET_SYNONYM_GROUP_IDS_LENGTH, OFFSET_USER_DATA_FLAG, OFFSET_WORD_STRUCTURE_LENGTH,
};
use crate::dic::read::primitives::spec_le_u16;
use crate::dic::grammar::Grammar;
use crate::util::{chars_of, str_eq, string_from_chars};
use self::entry::{lemma_written_consistent, ref_raw_ids, stored_synonyms, RawLexiconEntry};
use self::refs::{pending_count, NormFormValue, WordRef, WordRefView};
use self::string_store::StringStore;

verus! {

/// Number of fields of a part-of-speech row.
pub const POS_DEPTH: usize = 6;

/// The largest part-of-speech id.
pub const MAX_POS_IDS: usize = 0x7fff;

/// Size of the zero header that precedes the entries in the entries block.
pub const ENTRY_INITIAL_OFFSET: usize = 32;

/// A part-of-speech row: its six fields.
#[derive(Hash, Eq, PartialEq, Debug)]
pub struct StrPosEntry {
    data: [String; 6],
}

impl StrPosEntry {
    /// The six fields.
    pub closed spec fn view(&self) -> Seq<Seq<char>> {
        self.data@.map_values(|s: String| s@)
    }

    pub fn new(data: [String; 6]) -> (r: Self)
        ensures
            r@ == data@.map_values(|s: String| s@),
    {
        Self { data }
    }

    /// The row made of the first six fields of a part of speech of a grammar.
    pub fn from_built_pos(data: &Vec<String>) -> (r: Self)
        requires
            data@.len() >= POS_DEPTH,
        ensures
            r@ == data@.take(6).map_values(|s: String| s@),
    {
        let r = Self::new(
            [
                data[0].clone(),
                data[1].clone(),
                data[2].clone(),
                data[3].clone(),
                data[4].clone(),
                data[5].clone(),
            ],
        );
        proof {
            assert(r@ =~= data@.take(6).map_values(|s: String| s@));
        }
        r
    }

    pub fn fields(&self) -> (r: &[String; 6])
        ensures
            r@.map_values(|s: String| s@) == self@,
    {
        &self.data
    }

    /// The six fields joined by commas.
    pub fn to_string(&self) -> (r: String)
        ensures
            r@ == comma_joined(self@),
    {
        let mut out: Vec<char> = Vec::new();
        let mut i: usize = 0;
        let ghost fields = self@;
        proof {
            assert(fields.take(0) =~= Seq::<Seq<char>>::empty());
        }
        while i < 6
            invariant
                i <= 6,
                fields == self@,
                fields.len() == 6,
                i > 0 ==> out@ == comma_joined(fields.take(i as int)),
                i == 0 ==> out@.len() == 0,
            decreases 6 - i,
        {
            if i > 0 {
                out.push(',');
            }
            let cs = chars_of(self.data[i].as_str());
            let mut j: usize = 0;
            let ghost start = out@;
            while j < cs.len()
                invariant
                    j <= cs@.len(),
                    out@ == start + cs@.take(j as int),
                decreases cs@.len() - j,
            {
                out.push(cs[j]);
                j = j + 1;
                proof {
                    assert(start + cs@.take(j as int) =~= (start + cs@.take(j - 1)).push(cs@[j - 1]));
                }
            }
            proof {
                assert(cs@.take(j as int) =~= cs@);
                assert(fields[i as int] == self.data@[i as int]@);
                assert(fields.take(i + 1).drop_last() =~= fields.take(i as int));
                if i == 0 {
                    assert(comma_joined(fields.take(1)) == fields[0]);
                    assert(out@ =~= fields[0]);
                }
            }
            i = i + 1;
        }
        proof {
            assert(fields.take(6) =~= fields);
        }
        string_from_chars(out.as_slice())
    }
}

/// The decimal digits of `n`.
pub open spec fn decimal(n: nat) -> Seq<char>
    decreases n,
{
    if n < 10 {
        seq![((n + 48) as u8) as char]
    } else {
        decimal(n / 10) + seq![((n % 10 + 48) as u8) as char]
    }
}

/// Appends the decimal digits of `n`.
fn push_decimal(out: &mut Vec<char>, n: u32)
    ensures
        final(out)@ == old(out)@ + decimal(n as nat),
    decreases n,
{
    if n >= 10 {
        push_decimal(out, n / 10);
    }
    let d = (n % 10) as u8;
    out.push((d + 48) as char);
    proof {
        if n >= 10 {
            assert(decimal(n as nat) == decimal((n / 10) as nat) + seq![(((n % 10) + 48) as u8) as char]);
        }
    }
}

/// The text a reference is reported with: the raw word id of a reference by id or by
/// line, `<self>`, the headword, or for an inline reference its headword, its
/// part-of-speech row and its reading (the headword when it has none), separated by
/// commas.
pub open spec fn ref_text(w: WordRefView, pos: Seq<Seq<Seq<char>>>) -> Seq<char> {
    match w {
        WordRefView::Ref(id) => decimal(id@ as nat),
        WordRefView::SelfRef => "<self>"@,
        WordRefView::LineRef(id) => decimal(id@ as nat),
        WordRefView::Headword(h) => h,
        WordRefView::Inline(h, p, r) => h + seq![','] + comma_joined(pos[p as int]) + seq![','] + match r {
            Some(x) => x,
            None => h,
        },
    }
}

impl WordRef {
    /// The text the reference is reported with; see [`ref_text`]. The part of speech
    /// of an inline reference must be in the reader's table, at the place of its id.
    pub fn format(&self, lexicon: &LexiconReader) -> (r: String)
        requires
            self@ matches WordRefView::Inline(_, p, _) ==> p < lexicon.spec_pos().len()
                && lexicon.spec_pos_ids()[p as int] == p,
        ensures
            r@ == ref_text(self@, lexicon.spec_pos()),
    {
        let mut out: Vec<char> = Vec::new();
        match self {
            WordRef::Ref(id) => {
                push_decimal(&mut out, id.as_raw());
            },
            WordRef::SelfRef => {
                proof {
                    reveal_strlit("<self>");
                }
                return "<self>".to_owned();
            },
            WordRef::LineRef(id) => {
                push_decimal(&mut out, id.as_raw());
            },
            WordRef::Headword(h) => {
                return h.clone();
            },
            WordRef::Inline { headword, pos, reading } => {
                let row = match lexicon.pos_obj(*pos) {
                    Some(p) => p.to_string(),
                    None => String::new(),
                };
                let tail = match reading {
                    Some(x) => x.as_str(),
                    None => headword.as_str(),
                };
                let a = chars_of(headword.as_str());
                let b = chars_of(row.as_str());
                let c = chars_of(tail);
                push_all(&mut out, &a);
                out.push(',');
                push_all(&mut out, &b);
                out.push(',');
                push_all(&mut out, &c);
                proof {
                    assert(out@ =~= headword@ + seq![','] + row@ + seq![','] + tail@);
                }
            },
        }
        string_from_chars(out.as_slice())
    }
}

/// Appends chars.
fn push_all(out: &mut Vec<char>, cs: &Vec<char>)
    ensures
        final(out)@ == old(out)@ + cs@,
{
    let mut i: usize = 0;
    let ghost start = out@;
    while i < cs.len()
        invariant
            i <= cs@.len(),
            out@ == start + cs@.take(i as int),
            start == old(out)@,
        decreases cs@.len() - i,
    {
        out.push(cs[i]);
        i = i + 1;
        proof {
            assert(start + cs@.take(i as int) =~= (start + cs@.take(i - 1)).push(cs@[i - 1]));
        }
    }
    proof {
        assert(cs@.take(i as int) =~= cs@);
    }
}

/// Fields joined by commas.
pub open spec fn comma_joined(fields: Seq<Seq<char>>) -> Seq<char>
    decreases fields.len(),
{
    if fields.len() == 0 {
        Seq::empty()
    } else if fields.len() == 1 {
        fields[0]
    } else {
        comma_joined(fields.drop_last()) + seq![','] + fields.last()
    }
}

/// Appends a string as its UTF-16 length (an `i16`) and code units, and returns the
/// number of bytes written; a string of more than `i16::MAX` code units is refused.
pub fn write_short_utf16(w: &mut Vec<u8>, data: &str) -> (r: Result<usize, BuildFailure>)
    ensures
        r is Ok <==> spec_utf16_encode(data@).len() <= 0x7fff,
        r matches Ok(n) ==> final(w)@ == old(w)@ + spec_utf16_string_bytes(data@) && n == 2 + 2
            * spec_utf16_encode(data@).len(),
        r matches Err(e) ==> e == (BuildFailure::InvalidSize {
            actual: spec_utf16_encode(data@).len() as usize,
            expected: 0x7fff,
        }) && final(w)@ == old(w)@,
{
    let utf16 = encode_utf16(data);
    if utf16.len() > 0x7fff {
        return Err(BuildFailure::InvalidSize { actual: utf16.len(), expected: 0x7fff });
    }
    let len = utf16.len() as i16;
    write_i16(w, len);
    let written = write_u16_slice(w, utf16.as_slice());
    proof {
        assert(w@ =~= old(w)@ + spec_utf16_string_bytes(data@));
    }
    Ok(2 + written)
}

/// The offset of entry `i` in the entries block: the header, then the padded sizes
/// of the entries before it.
pub open spec fn entry_offset(entries: Seq<RawLexiconEntry>, i: nat) -> int
    decreases i,
{
    if i == 0 {
        ENTRY_INITIAL_OFFSET as int
    } else {
        entry_offset(entries, (i - 1) as nat) + entries[i - 1].size_view()
    }
}

/// The raw word id of entry `i` in dictionary `dic`: its offset divided by 8.
pub open spec fn entry_word_id(entries: Seq<RawLexiconEntry>, i: nat, dic: u8) -> u32 {
    raw_word_id(dic as nat, ((entry_offset(entries, i) / 8) as u32) as nat % 0x1000_0000)
}

/// The last entry before index `n` whose headword is `h`.
pub open spec fn last_with_headword(entries: Seq<RawLexiconEntry>, h: Seq<char>, n: nat) -> Option<
    nat,
>
    decreases n,
{
    if n == 0 || n > entries.len() {
        None
    } else if entries[n - 1].headword_view() == h {
        Some((n - 1) as nat)
    } else {
        last_with_headword(entries, h, (n - 1) as nat)
    }
}

/// The normalized form given as a value (empty when there is none).
pub open spec fn norm_value(e: RawLexiconEntry) -> Seq<char> {
    match e.norm_form {
        Some(NormFormValue::Value(h)) => h@,
        _ => Seq::empty(),
    }
}

/// The raw word id written as the normalized form of entry `i`: its own id when it
/// has none or it is its own headword, else the id of the last entry with that
/// headword; `None` when no entry has it.
pub open spec fn norm_form_id(entries: Seq<RawLexiconEntry>, i: nat, dic: u8) -> Option<u32> {
    let e = entries[i as int];
    let own = entry_word_id(entries, i, dic);
    if e.norm_form is Some && norm_value(e) != e.headword_view() {
        match last_with_headword(entries, norm_value(e), entries.len()) {
            Some(j) => Some(entry_word_id(entries, j, dic)),
            None => None,
        }
    } else {
        Some(own)
    }
}

/// `n` zero bytes.
pub open spec fn zeros(n: nat) -> Seq<u8> {
    Seq::new(n, |j: int| 0u8)
}

/// The bytes of entry `i` before padding: parameters, fixed part and variable part.
pub open spec fn entry_body(
    entries: Seq<RawLexiconEntry>,
    i: nat,
    dic: u8,
    strings: StringStore,
) -> Seq<u8> {
    let e = entries[i as int];
    spec_i16_bytes(e.left_id) + spec_i16_bytes(e.right_id) + spec_i16_bytes(e.cost) + e.rest_bytes(
        entry_word_id(entries, i, dic),
        norm_form_id(entries, i, dic).unwrap(),
        strings.pointer_of(e.headword_view()).unwrap(),
        strings.pointer_of(e.reading_view()).unwrap(),
    )
}

/// The bytes of entry `i`, padded with zeros to its size.
pub open spec fn written_entry(
    entries: Seq<RawLexiconEntry>,
    i: nat,
    dic: u8,
    strings: StringStore,
) -> Seq<u8> {
    let b = entry_body(entries, i, dic, strings);
    b + zeros((entries[i as int].size_view() - b.len()) as nat)
}

/// The header and the first `n` written entries.
pub open spec fn written_entries(
    entries: Seq<RawLexiconEntry>,
    n: nat,
    dic: u8,
    strings: StringStore,
) -> Seq<u8>
    decreases n,
{
    if n == 0 {
        zeros(ENTRY_INITIAL_OFFSET as nat)
    } else {
        written_entries(entries, (n - 1) as nat, dic, strings) + written_entry(
            entries,
            (n - 1) as nat,
            dic,
            strings,
        )
    }
}

/// Whether entry `i` cannot be written: its normalized form names a headword that
/// no entry has, or its surface is longer than an `i16` counts in bytes.
pub open spec fn entry_fails(entries: Seq<RawLexiconEntry>, i: nat, dic: u8) -> bool {
    norm_form_id(entries, i, dic) is None || encode_utf8(entries[i as int].surface@).len() > 0x7fff
}

/// The first entry from index `i` on that cannot be written.
pub open spec fn first_failure(entries: Seq<RawLexiconEntry>, dic: u8, i: nat) -> Option<nat>
    decreases entries.len() - i,
{
    if i >= entries.len() {
        None
    } else if entry_fails(entries, i, dic) {
        Some(i)
    } else {
        first_failure(entries, dic, i + 1)
    }
}

/// What writing needs of the entries and the string store: every entry fits the
/// layout and is resolved, its headword and reading are stored, and the block fits
/// in memory.
pub open spec fn writable(entries: Seq<RawLexiconEntry>, strings: StringStore) -> bool {
    &&& strings.wf()
    &&& forall|i: int|
        0 <= i < entries.len() ==> {
            &&& (#[trigger] entries[i]).layout_view() is Some
            &&& entries[i].is_resolved()
            &&& !(entries[i].norm_form matches Some(NormFormValue::Ref(_)))
            &&& strings.pointer_of(entries[i].headword_view()) is Some
            &&& strings.pointer_of(entries[i].reading_view()) is Some
        }
    &&& entry_offset(entries, entries.len()) <= usize::MAX
}

proof fn lemma_entry_offset_monotone(entries: Seq<RawLexiconEntry>, i: nat, j: nat)
    requires
        i <= j <= entries.len(),
        forall|k: int| 0 <= k < entries.len() ==> (#[trigger] entries[k]).layout_view() is Some,
    ensures
        entry_offset(entries, i) <= entry_offset(entries, j),
    decreases j - i,
{
    if i < j {
        lemma_entry_offset_monotone(entries, i, (j - 1) as nat);
        let e = entries[j - 1];
        lemma_body_fits(e, 0, 0, crate::dic::lexicon::strings::StringPointer { length: 0, offset: 0 }, crate::dic::lexicon::strings::StringPointer { length: 0, offset: 0 });
    }
}

proof fn lemma_body_fits(
    e: RawLexiconEntry,
    sr: u32,
    nr: u32,
    hp: crate::dic::lexicon::strings::StringPointer,
    rp: crate::dic::lexicon::strings::StringPointer,
)
    requires
        e.layout_view() is Some,
    ensures
        6 + e.rest_bytes(sr, nr, hp, rp).len() <= e.size_view(),
        e.size_view() % 8 == 0,
        e.size_view() <= 100008,
{
    let f = e.fixed_view(sr, nr, hp, rp);
    let v = e.layout_view().unwrap();
    lemma_variable_bytes_len(
        ref_raw_ids(e.splits_c@),
        ref_raw_ids(e.splits_b@),
        ref_raw_ids(e.splits_a@),
        ref_raw_ids(e.word_structure@),
        stored_synonyms(e.synonym_groups@),
        e.user_data@,
        f,
    );
    crate::dic::word_info::raw::lemma_fixed_bytes_len(f);
    let u = spec_unaligned_size(
        v.c_unit_split_length,
        v.b_unit_split_length,
        v.a_unit_split_length,
        v.word_structure_length,
        v.synonym_group_ids_length,
        spec_layout_user_units(v),
    ).unwrap();
    assert(u <= 100000);
}

/// The fixed part that entry `i` is written with.
pub open spec fn written_fixed(
    entries: Seq<RawLexiconEntry>,
    i: nat,
    dic: u8,
    strings: StringStore,
) -> WordInfoFixedData {
    let e = entries[i as int];
    e.fixed_view(
        entry_word_id(entries, i, dic),
        norm_form_id(entries, i, dic).unwrap(),
        strings.pointer_of(e.headword_view()).unwrap(),
        strings.pointer_of(e.reading_view()).unwrap(),
    )
}

proof fn lemma_written_entries_len(
    entries: Seq<RawLexiconEntry>,
    n: nat,
    dic: u8,
    strings: StringStore,
)
    requires
        n <= entries.len(),
        forall|k: int| 0 <= k < entries.len() ==> (#[trigger] entries[k]).layout_view() is Some,
    ensures
        written_entries(entries, n, dic, strings).len() == entry_offset(entries, n),
    decreases n,
{
    if n > 0 {
        lemma_written_entries_len(entries, (n - 1) as nat, dic, strings);
        lemma_written_entry_len(entries, (n - 1) as nat, dic, strings);
    }
}

proof fn lemma_written_entry_len(entries: Seq<RawLexiconEntry>, i: nat, dic: u8, strings: StringStore)
    requires
        i < entries.len(),
        entries[i as int].layout_view() is Some,
    ensures
        written_entry(entries, i, dic, strings).len() == entries[i as int].size_view(),
{
    let e = entries[i as int];
    let sr = entry_word_id(entries, i, dic);
    let nr = norm_form_id(entries, i, dic).unwrap();
    let hp = strings.pointer_of(e.headword_view()).unwrap();
    let rp = strings.pointer_of(e.reading_view()).unwrap();
    lemma_body_fits(e, sr, nr, hp, rp);
    crate::dic::read::primitives::lemma_le_u16_round_trip(e.left_id as u16, seq![]);
    crate::dic::read::primitives::lemma_le_u16_round_trip(e.right_id as u16, seq![]);
    crate::dic::read::primitives::lemma_le_u16_round_trip(e.cost as u16, seq![]);
    let body = entry_body(entries, i, dic, strings);
    assert(body.len() == 6 + e.rest_bytes(sr, nr, hp, rp).len());
}

#[verifier::spinoff_prover]
#[verifier::rlimit(40)]
proof fn lemma_written_entries_split(
    entries: Seq<RawLexiconEntry>,
    i: nat,
    n: nat,
    dic: u8,
    strings: StringStore,
)
    requires
        i < n <= entries.len(),
        forall|k: int| 0 <= k < entries.len() ==> (#[trigger] entries[k]).layout_view() is Some,
    ensures
        written_entries(entries, n, dic, strings).skip(entry_offset(entries, i)) == written_entry(
            entries,
            i,
            dic,
            strings,
        ) + written_entries(entries, n, dic, strings).skip(entry_offset(entries, i + 1)),
    decreases n,
{
    lemma_written_entries_len(entries, i, dic, strings);
    lemma_written_entries_len(entries, i + 1, dic, strings);
    lemma_written_entries_len(entries, (n - 1) as nat, dic, strings);
    let w = written_entries(entries, n, dic, strings);
    let prev = written_entries(entries, (n - 1) as nat, dic, strings);
    let last = written_entry(entries, (n - 1) as nat, dic, strings);
    if n == i + 1 {
        assert(w.skip(entry_offset(entries, i)) =~= last);
        assert(w.skip(entry_offset(entries, i + 1)) =~= Seq::<u8>::empty());
        assert(last + Seq::<u8>::empty() =~= last);
    } else {
        lemma_written_entries_split(entries, i, (n - 1) as nat, dic, strings);
        lemma_entry_offset_monotone(entries, i + 1, (n - 1) as nat);
        assert(w.skip(entry_offset(entries, i)) =~= prev.skip(entry_offset(entries, i)) + last);
        assert(w.skip(entry_offset(entries, i + 1)) =~= prev.skip(entry_offset(entries, i + 1))
            + last);
    }
}

/// An entries block that the writer wrote reads back, at the offset of each entry,
/// as the fixed part and the arrays that entry was written with.
pub proof fn written_entry_reads_back(
    entries: Seq<RawLexiconEntry>,
    dic: u8,
    strings: StringStore,
    i: nat,
)
    requires
        writable(entries, strings),
        first_failure(entries, dic, 0) is None,
        i < entries.len(),
    ensures
        spec_parse_word_info(
            written_entries(entries, entries.len(), dic, strings).skip(entry_offset(entries, i)),
        ) == Some(
            WordInfoRawView {
                fixed: written_fixed(entries, i, dic, strings),
                c_unit_split: ref_raw_ids(entries[i as int].splits_c@),
                b_unit_split: ref_raw_ids(entries[i as int].splits_b@),
                a_unit_split: ref_raw_ids(entries[i as int].splits_a@),
                word_structure: ref_raw_ids(entries[i as int].word_structure@),
                synonym_group_ids: stored_synonyms(entries[i as int].synonym_groups@),
                user_data: entries[i as int].user_data@,
            },
        ),
{
    let e = entries[i as int];
    assert(e.layout_view() is Some);
    let sr = entry_word_id(entries, i, dic);
    lemma_first_failure_none(entries, dic, 0, i);
    let nr = norm_form_id(entries, i, dic).unwrap();
    let hp = strings.pointer_of(e.headword_view()).unwrap();
    let rp = strings.pointer_of(e.reading_view()).unwrap();
    strings.lemma_pointer_stored(e.headword_view());
    strings.lemma_pointer_stored(e.reading_view());
    lemma_written_consistent(e, sr, nr, hp, rp);
    lemma_written_entries_split(entries, i, entries.len(), dic, strings);
    let f = e.fixed_view(sr, nr, hp, rp);
    let params = spec_i16_bytes(e.left_id) + spec_i16_bytes(e.right_id) + spec_i16_bytes(e.cost);
    crate::dic::read::primitives::lemma_le_u16_round_trip(e.left_id as u16, seq![]);
    crate::dic::read::primitives::lemma_le_u16_round_trip(e.right_id as u16, seq![]);
    crate::dic::read::primitives::lemma_le_u16_round_trip(e.cost as u16, seq![]);
    let var = spec_variable_bytes(
        ref_raw_ids(e.splits_c@),
        ref_raw_ids(e.splits_b@),
        ref_raw_ids(e.splits_a@),
        ref_raw_ids(e.word_structure@),
        stored_synonyms(e.synonym_groups@),
        e.user_data@,
        f,
    );
    let body = entry_body(entries, i, dic, strings);
    let tail = written_entries(entries, entries.len(), dic, strings).skip(
        entry_offset(entries, i + 1),
    );
    let pad = zeros((e.size_view() - body.len()) as nat) + tail;
    assert(written_entry(entries, i, dic, strings) + tail =~= params + spec_fixed_bytes(f) + var
        + pad);
    word_info_write_parse_round_trip(
        params,
        f,
        ref_raw_ids(e.splits_c@),
        ref_raw_ids(e.splits_b@),
        ref_raw_ids(e.splits_a@),
        ref_raw_ids(e.word_structure@),
        stored_synonyms(e.synonym_groups@),
        e.user_data@,
        pad,
    );
}

/// The length fields of a fixed part stored after six parameter bytes.
proof fn lemma_fixed_at(bytes: Seq<u8>, o: int, params: Seq<u8>, f: WordInfoFixedData, rest: Seq<u8>)
    requires
        0 <= o <= bytes.len(),
        params.len() == 6,
        crate::dic::word_info::raw::spec_fixed_pointers_valid(f),
        bytes.skip(o) == params + spec_fixed_bytes(f) + rest,
    ensures
        o + 32 <= bytes.len(),
        bytes[o + OFFSET_C_UNIT_SPLIT_LENGTH] as i8 == f.c_unit_split_length,
        bytes[o + OFFSET_B_UNIT_SPLIT_LENGTH] as i8 == f.b_unit_split_length,
        bytes[o + OFFSET_A_UNIT_SPLIT_LENGTH] as i8 == f.a_unit_split_length,
        bytes[o + OFFSET_WORD_STRUCTURE_LENGTH] as i8 == f.word_structure_length,
        bytes[o + OFFSET_SYNONYM_GROUP_IDS_LENGTH] as i8 == f.synonym_group_ids_length,
        bytes[o + OFFSET_USER_DATA_FLAG] as i8 == f.user_data_flag,
{
    crate::dic::word_info::raw::fixed_data_round_trip(f, rest);
    let s6 = bytes.skip(o + 6);
    assert(s6 =~= spec_fixed_bytes(f) + rest) by {
        assert(bytes.skip(o).skip(6) =~= s6);
        assert((params + spec_fixed_bytes(f) + rest).skip(6) =~= spec_fixed_bytes(f) + rest);
    }
    assert(bytes[o + 26] == s6[20]);
    assert(bytes[o + 27] == s6[21]);
    assert(bytes[o + 28] == s6[22]);
    assert(bytes[o + 29] == s6[23]);
    assert(bytes[o + 30] == s6[24]);
    assert(bytes[o + 31] == s6[25]);
}

/// The length prefix of a stored user data string is its number of code units.
proof fn lemma_user_prefix(d: Seq<u8>, user: Seq<char>, rest: Seq<u8>)
    requires
        spec_utf16_encode(user).len() <= 0x7fff,
        d == spec_utf16_string_bytes(user) + rest,
    ensures
        d.len() >= 2,
        spec_le_u16(d) as i16 == spec_utf16_encode(user).len() as i16,
{
    let units = spec_utf16_encode(user).len();
    crate::dic::read::primitives::lemma_le_u16_round_trip(
        (units as i16) as u16,
        spec_u16s_bytes(spec_utf16_encode(user)) + rest,
    );
    assert(d =~= spec_u16_to_le_bytes((units as i16) as u16) + (spec_u16s_bytes(
        spec_utf16_encode(user),
    ) + rest));
}

/// What the writer has written of entry `i` when it fails on it: nothing when the
/// normalized form names no entry, the six parameter bytes when the index form is too
/// long.
pub open spec fn failed_entry_bytes(entries: Seq<RawLexiconEntry>, i: nat, dic: u8) -> Seq<u8> {
    if norm_form_id(entries, i, dic) is None {
        Seq::empty()
    } else {
        entry_params(entries[i as int])
    }
}

/// The six parameter bytes of an entry.
pub open spec fn entry_params(e: RawLexiconEntry) -> Seq<u8> {
    spec_i16_bytes(e.left_id) + spec_i16_bytes(e.right_id) + spec_i16_bytes(e.cost)
}

/// The variable part of an entry written with the fixed part `f`.
spec fn entry_var(e: RawLexiconEntry, f: WordInfoFixedData) -> Seq<u8> {
    spec_variable_bytes(
        ref_raw_ids(e.splits_c@),
        ref_raw_ids(e.splits_b@),
        ref_raw_ids(e.splits_a@),
        ref_raw_ids(e.word_structure@),
        stored_synonyms(e.synonym_groups@),
        e.user_data@,
        f,
    )
}

/// Where entry `i` stands in the written block: its parameters, fixed part and
/// variable part, then whatever follows.
#[verifier::spinoff_prover]
proof fn lemma_entry_in_block(entries: Seq<RawLexiconEntry>, i: nat, dic: u8, strings: StringStore) -> (rest: Seq<u8>)
    requires
        writable(entries, strings),
        i < entries.len(),
    ensures
        ({
            let bytes = written_entries(entries, entries.len(), dic, strings);
            let o = entry_offset(entries, i);
            let e = entries[i as int];
            let f = written_fixed(entries, i, dic, strings);
            &&& 0 <= o <= bytes.len()
            &&& o + e.size_view() <= bytes.len()
            &&& bytes.skip(o) == entry_params(e) + spec_fixed_bytes(f) + (entry_var(e, f) + rest)
            &&& crate::dic::word_info::raw::spec_fixed_pointers_valid(f)
            &&& entry_params(e).len() == 6
        }),
{
    let n = entries.len();
    let bytes = written_entries(entries, n, dic, strings);
    let o = entry_offset(entries, i);
    let e = entries[i as int];
    assert(e.layout_view() is Some);
    let sr = entry_word_id(entries, i, dic);
    let nr = norm_form_id(entries, i, dic).unwrap();
    let hp = strings.pointer_of(e.headword_view()).unwrap();
    let rp = strings.pointer_of(e.reading_view()).unwrap();
    strings.lemma_pointer_stored(e.headword_view());
    strings.lemma_pointer_stored(e.reading_view());
    lemma_written_entries_split(entries, i, n, dic, strings);
    lemma_written_entries_len(entries, n, dic, strings);
    lemma_entry_offset_monotone(entries, i + 1, n);
    lemma_entry_offset_monotone(entries, 0, i);
    lemma_body_fits(e, sr, nr, hp, rp);
    crate::dic::read::primitives::lemma_le_u16_round_trip(e.left_id as u16, seq![]);
    crate::dic::read::primitives::lemma_le_u16_round_trip(e.right_id as u16, seq![]);
    crate::dic::read::primitives::lemma_le_u16_round_trip(e.cost as u16, seq![]);
    let f = written_fixed(entries, i, dic, strings);
    let body = entry_body(entries, i, dic, strings);
    let tail = bytes.skip(entry_offset(entries, i + 1));
    let pad = zeros((e.size_view() - body.len()) as nat) + tail;
    assert(bytes.skip(o) =~= entry_params(e) + spec_fixed_bytes(f) + (entry_var(e, f) + pad));
    pad
}

/// The user data length prefix of an entry with user data, where the scan of the
/// block reads it.
#[verifier::spinoff_prover]
proof fn lemma_user_in_block(bytes: Seq<u8>, o: int, e: RawLexiconEntry, f: WordInfoFixedData, rest: Seq<u8>)
    requires
        0 <= o <= bytes.len(),
        e.layout_view() is Some,
        f.user_data_flag == 1,
        f.b_unit_split_length == e.layout_view().unwrap().b_unit_split_length,
        f.a_unit_split_length == e.layout_view().unwrap().a_unit_split_length,
        f.word_structure_length == e.layout_view().unwrap().word_structure_length,
        f.c_unit_split_length == e.layout_view().unwrap().c_unit_split_length,
        f.synonym_group_ids_length == e.layout_view().unwrap().synonym_group_ids_length,
        entry_params(e).len() == 6,
        crate::dic::word_info::raw::spec_fixed_pointers_valid(f),
        bytes.skip(o) == entry_params(e) + spec_fixed_bytes(f) + (entry_var(e, f) + rest),
    ensures
        ({
            let u0 = spec_unaligned_size(
                f.c_unit_split_length,
                f.b_unit_split_length,
                f.a_unit_split_length,
                f.word_structure_length,
                f.synonym_group_ids_length,
                None,
            ).unwrap();
            &&& o + u0 + 2 <= bytes.len()
            &&& spec_le_u16(bytes.skip(o + u0)) as i16 == spec_utf16_encode(e.user_data@).len() as i16
        }),
{
    self::entry::lemma_layout_bounds(e);
    crate::dic::word_info::raw::fixed_data_round_trip(f, entry_var(e, f) + rest);
    let pc = spec_u32s_bytes(ref_raw_ids(e.splits_c@));
    let pb = if f.b_unit_split_length > 0 {
        spec_u32s_bytes(ref_raw_ids(e.splits_b@))
    } else {
        Seq::empty()
    };
    let pa = if f.a_unit_split_length > 0 {
        spec_u32s_bytes(ref_raw_ids(e.splits_a@))
    } else {
        Seq::empty()
    };
    let pw = if f.word_structure_length > 0 {
        spec_u32s_bytes(ref_raw_ids(e.word_structure@))
    } else {
        Seq::empty()
    };
    let ps = spec_i32s_bytes(stored_synonyms(e.synonym_groups@));
    let pu = spec_utf16_string_bytes(e.user_data@);
    assert(entry_var(e, f) == pc + pb + pa + pw + ps + pu);
    crate::dic::word_info::variable_io::lemma_u32s_round_trip(ref_raw_ids(e.splits_c@), seq![]);
    crate::dic::word_info::variable_io::lemma_u32s_round_trip(ref_raw_ids(e.splits_b@), seq![]);
    crate::dic::word_info::variable_io::lemma_u32s_round_trip(ref_raw_ids(e.splits_a@), seq![]);
    crate::dic::word_info::variable_io::lemma_u32s_round_trip(ref_raw_ids(e.word_structure@), seq![]);
    crate::dic::word_info::variable_io::lemma_i32s_round_trip(stored_synonyms(e.synonym_groups@), seq![]);
    crate::dic::word_info::variable_io::lemma_utf16_string_bytes_len(e.user_data@);
    let u0 = spec_unaligned_size(
        f.c_unit_split_length,
        f.b_unit_split_length,
        f.a_unit_split_length,
        f.word_structure_length,
        f.synonym_group_ids_length,
        None,
    ).unwrap();
    assert(u0 == 32 + pc.len() + pb.len() + pa.len() + pw.len() + ps.len());
    assert(bytes.skip(o + u0) =~= pu + rest) by {
        assert(bytes.skip(o + u0) =~= bytes.skip(o).skip(u0));
        assert((entry_params(e) + spec_fixed_bytes(f) + ((pc + pb + pa + pw + ps + pu) + rest)).skip(
            u0,
        ) =~= pu + rest);
    }
    lemma_user_prefix(bytes.skip(o + u0), e.user_data@, rest);
}

/// The size that the scan of an entries block reads at the offset of a written entry
/// is the size the entry was written with.
proof fn lemma_size_at_written(entries: Seq<RawLexiconEntry>, i: nat, dic: u8, strings: StringStore)
    requires
        writable(entries, strings),
        i < entries.len(),
    ensures
        spec_entry_size_at(written_entries(entries, entries.len(), dic, strings), entry_offset(entries, i))
            == Some(entries[i as int].size_view()),
{
    let bytes = written_entries(entries, entries.len(), dic, strings);
    let o = entry_offset(entries, i);
    let e = entries[i as int];
    let f = written_fixed(entries, i, dic, strings);
    assert(e.layout_view() is Some);
    let rest = lemma_entry_in_block(entries, i, dic, strings);
    lemma_fixed_at(bytes, o, entry_params(e), f, entry_var(e, f) + rest);
    self::entry::lemma_layout_bounds(e);
    if f.user_data_flag == 1 {
        lemma_user_in_block(bytes, o, e, f, rest);
    }
}

/// The offsets at which the scan of a written entries block finds its entries, from
/// entry `i` on: the offsets the entries were written at.
proof fn lemma_offsets_from(entries: Seq<RawLexiconEntry>, i: nat, m: nat, dic: u8, strings: StringStore)
    requires
        writable(entries, strings),
        i <= entries.len(),
    ensures
        i + m <= entries.len() ==> spec_entry_offsets(
            written_entries(entries, entries.len(), dic, strings),
            entry_offset(entries, i),
            m,
        ) == Some(Seq::new(m, |j: int| entry_offset(entries, (i + j) as nat))),
        i + m > entries.len() ==> spec_entry_offsets(
            written_entries(entries, entries.len(), dic, strings),
            entry_offset(entries, i),
            m,
        ) is None,
    decreases m,
{
    let n = entries.len();
    lemma_offset_aligned(entries, i);
    if m == 0 {
        assert(Seq::new(0, |j: int| entry_offset(entries, (i + j) as nat)) =~= Seq::<int>::empty());
    } else if i == n {
        lemma_written_entries_len(entries, n, dic, strings);
        assert(spec_entry_size_at(written_entries(entries, n, dic, strings), entry_offset(entries, n))
            is None);
    } else {
        lemma_offsets_from(entries, i + 1, (m - 1) as nat, dic, strings);
        lemma_size_at_written(entries, i, dic, strings);
        assert(entry_offset(entries, i + 1) == entry_offset(entries, i) + entries[i as int].size_view());
        assert(Seq::new(m, |j: int| entry_offset(entries, (i + j) as nat)) =~= seq![
            entry_offset(entries, i),
        ] + Seq::new((m - 1) as nat, |j: int| entry_offset(entries, (i + 1 + j) as nat)));
    }
}

proof fn lemma_offset_aligned(entries: Seq<RawLexiconEntry>, i: nat)
    requires
        i <= entries.len(),
        forall|k: int| 0 <= k < entries.len() ==> (#[trigger] entries[k]).layout_view() is Some,
    ensures
        entry_offset(entries, i) % 8 == 0,
    decreases i,
{
    if i > 0 {
        lemma_offset_aligned(entries, (i - 1) as nat);
        let e = entries[i - 1];
        lemma_body_fits(e, 0, 0, crate::dic::lexicon::strings::StringPointer { length: 0, offset: 0 }, crate::dic::lexicon::strings::StringPointer { length: 0, offset: 0 });
    }
}

/// A written entries block is read back in order: scanning it from its first entry
/// for `n` entries finds, when there are that many, each entry at the offset it was
/// written at, in the order of the entries, so that the entry ids that
/// `WordInfos::entry_ids_in_order` gives are those offsets divided by eight; asking
/// for more entries than were written finds none.
pub proof fn written_entries_read_in_order(entries: Seq<RawLexiconEntry>, dic: u8, strings: StringStore, n: nat)
    requires
        writable(entries, strings),
    ensures
        n <= entries.len() ==> spec_entry_offsets(
            written_entries(entries, entries.len(), dic, strings),
            ENTRY_INITIAL_OFFSET as int,
            n,
        ) == Some(Seq::new(n, |j: int| entry_offset(entries, j as nat))),
        n > entries.len() ==> spec_entry_offsets(
            written_entries(entries, entries.len(), dic, strings),
            ENTRY_INITIAL_OFFSET as int,
            n,
        ) is None,
{
    lemma_offsets_from(entries, 0, n, dic, strings);
    assert(Seq::new(n, |j: int| entry_offset(entries, (0 + j) as nat)) =~= Seq::new(
        n,
        |j: int| entry_offset(entries, j as nat),
    ));
}

proof fn lemma_first_failure_none(entries: Seq<RawLexiconEntry>, dic: u8, j: nat, i: nat)
    requires
        first_failure(entries, dic, j) is None,
        j <= i < entries.len(),
    ensures
        !entry_fails(entries, i, dic),
    decreases i - j,
{
    if j < i {
        lemma_first_failure_none(entries, dic, j + 1, i);
    }
}

/// Writes the entries block of a dictionary.
pub struct LexiconWriter<'a> {
    entries: &'a [RawLexiconEntry],
    strings: &'a StringStore,
    user: bool,
}

impl<'a> LexiconWriter<'a> {
    /// The entries to write.
    pub closed spec fn spec_entries(&self) -> Seq<RawLexiconEntry> {
        self.entries@
    }

    /// The store holding their strings.
    pub closed spec fn spec_strings(&self) -> StringStore {
        *self.strings
    }

    /// The dictionary id of the written words: 1 for a user dictionary, else 0.
    pub closed spec fn spec_dic(&self) -> u8 {
        if self.user {
            1
        } else {
            0
        }
    }

    pub fn new(entries: &'a [RawLexiconEntry], strings: &'a StringStore, user: bool) -> (r: Self)
        ensures
            r.spec_entries() == entries@,
            r.spec_strings() == *strings,
            r.spec_dic() == (if user {
                1u8
            } else {
                0u8
            }),
    {
        Self { entries, strings, user }
    }

    /// Appends the entries block: a zero header, then each entry padded to its size.
    ///
    /// Fails at the first entry whose normalized form names a headword that no entry
    /// has, or whose surface is too long.
    pub fn write(&mut self, w: &mut Vec<u8>) -> (r: Result<usize, BuildFailure>)
        requires
            writable(old(self).spec_entries(), old(self).spec_strings()),
        ensures
            *final(self) == *old(self),
            r is Ok <==> first_failure(old(self).spec_entries(), old(self).spec_dic(), 0) is None,
            r matches Ok(n) ==> final(w)@ == old(w)@ + written_entries(
                old(self).spec_entries(),
                old(self).spec_entries().len(),
                old(self).spec_dic(),
                old(self).spec_strings(),
            ) && n == entry_offset(old(self).spec_entries(), old(self).spec_entries().len()),
            r matches Err(e) ==> first_failure(old(self).spec_entries(), old(self).spec_dic(), 0)
                matches Some(i) && if norm_form_id(old(self).spec_entries(), i, old(self).spec_dic())
                is None {
                e matches BuildFailure::InvalidSplitWordReference(h) && h@ == norm_value(
                    old(self).spec_entries()[i as int],
                )
            } else {
                e matches BuildFailure::InvalidFieldSize { actual, expected, .. } && actual
                    == encode_utf8(old(self).spec_entries()[i as int].surface@).len() && expected
                    == 0x7fff
            },
            r is Err ==> (first_failure(old(self).spec_entries(), old(self).spec_dic(), 0) matches Some(
                i,
            ) && final(w)@ == old(w)@ + written_entries(
                old(self).spec_entries(),
                i,
                old(self).spec_dic(),
                old(self).spec_strings(),
            ) + failed_entry_bytes(old(self).spec_entries(), i, old(self).spec_dic())),
    {
        let ghost entries = self.entries@;
        let ghost strings = *self.strings;
        let dic: u8 = if self.user {
            1
        } else {
            0
        };
        let ghost w0 = w@;
        let mut k: usize = 0;
        while k < ENTRY_INITIAL_OFFSET
            invariant
                0 <= k <= ENTRY_INITIAL_OFFSET,
                w@ == w0 + zeros(k as nat),
            decreases ENTRY_INITIAL_OFFSET - k,
        {
            w.push(0u8);
            k = k + 1;
            proof {
                assert(w@ =~= w0 + zeros(k as nat));
            }
        }
        let mut ids: Vec<u32> = Vec::new();
        let mut offset: usize = ENTRY_INITIAL_OFFSET;
        let mut i: usize = 0;
        while i < self.entries.len()
            invariant
                entries == self.entries@,
                writable(entries, strings),
                0 <= i <= entries.len(),
                offset == entry_offset(entries, i as nat),
                ids@.len() == i,
                forall|j: int| 0 <= j < i ==> ids@[j] == entry_word_id(entries, j as nat, dic),
                dic < 16,
            decreases entries.len() - i,
        {
            proof {
                lemma_entry_offset_monotone(entries, (i + 1) as nat, entries.len());
            }
            let wid = WordId::new(dic, (offset / 8) as u32);
            ids.push(wid.as_raw());
            let e = &self.entries[i];
            assert(entries[i as int].layout_view() is Some);
            offset = offset + e.expected_entry_size();
            i = i + 1;
        }
        let mut total: usize = ENTRY_INITIAL_OFFSET;
        let mut i: usize = 0;
        proof {
            assert(w@ == w0 + written_entries(entries, 0, dic, strings));
        }
        while i < self.entries.len()
            invariant
                entries == self.entries@,
                strings == *self.strings,
                writable(entries, strings),
                0 <= i <= entries.len(),
                total == entry_offset(entries, i as nat),
                ids@.len() == entries.len(),
                forall|j: int| 0 <= j < entries.len() ==> ids@[j] == entry_word_id(entries, j as nat, dic),
                dic == (if self.user {
                    1u8
                } else {
                    0u8
                }),
                w@ == w0 + written_entries(entries, i as nat, dic, strings),
                first_failure(entries, dic, 0) == first_failure(entries, dic, i as nat),
                w0 == old(w)@,
                entries == old(self).spec_entries(),
                strings == old(self).spec_strings(),
                dic == old(self).spec_dic(),
            decreases entries.len() - i,
        {
            let ghost wb = w@;
            total = match self.write_entry(w, &ids, i, total) {
                Ok(t) => t,
                Err(e) => {
                    proof {
                        assert(w@ =~= w0 + written_entries(entries, i as nat, dic, strings)
                            + failed_entry_bytes(entries, i as nat, dic));
                        assert(entry_fails(entries, i as nat, dic));
                        assert(first_failure(entries, dic, i as nat) == Some(i as nat));
                        assert(dic == self.spec_dic());
                    }
                    return Err(e);
                },
            };
            proof {
                assert(w@ =~= w0 + written_entries(entries, (i + 1) as nat, dic, strings));
            }
            i = i + 1;
        }
        Ok(total)
    }

    /// Appends entry `i`, which starts at offset `start`, and returns the offset where
    /// it ends.
    fn write_entry(&self, w: &mut Vec<u8>, ids: &Vec<u32>, i: usize, start: usize) -> (r: Result<
        usize,
        BuildFailure,
    >)
        requires
            writable(self.spec_entries(), self.spec_strings()),
            i < self.spec_entries().len(),
            start == entry_offset(self.spec_entries(), i as nat),
            ids@.len() == self.spec_entries().len(),
            forall|j: int|
                0 <= j < self.spec_entries().len() ==> ids@[j] == entry_word_id(
                    self.spec_entries(),
                    j as nat,
                    self.spec_dic(),
                ),
        ensures
            r is Ok <==> !entry_fails(self.spec_entries(), i as nat, self.spec_dic()),
            r matches Ok(end) ==> final(w)@ == old(w)@ + written_entry(
                self.spec_entries(),
                i as nat,
                self.spec_dic(),
                self.spec_strings(),
            ) && end == entry_offset(self.spec_entries(), (i + 1) as nat),
            r matches Err(e) ==> if norm_form_id(self.spec_entries(), i as nat, self.spec_dic())
                is None {
                e matches BuildFailure::InvalidSplitWordReference(h) && h@ == norm_value(
                    self.spec_entries()[i as int],
                )
            } else {
                e matches BuildFailure::InvalidFieldSize { actual, expected, .. } && actual
                    == encode_utf8(self.spec_entries()[i as int].surface@).len() && expected
                    == 0x7fff
            },
            r is Err ==> final(w)@ == old(w)@ + failed_entry_bytes(
                self.spec_entries(),
                i as nat,
                self.spec_dic(),
            ),
    {
        let ghost entries = self.entries@;
        let ghost strings = *self.strings;
        let ghost dic = self.spec_dic();
        let e = &self.entries[i];
        assert(entries[i as int] == *e);
        let self_word_id = WordId::from_raw(ids[i]);
        let norm_form_word_id = match self.norm_word_id(ids, i) {
            Ok(wid) => wid,
            Err(err) => {
                return Err(err);
            },
        };
        assert(norm_form_id(entries, i as nat, dic) == Some(norm_form_word_id@));
        let headword_strptr = self.strings.resolve(e.headword());
        let reading_strptr = self.strings.resolve(e.reading());
        let ghost wb = w@;
        proof {
            lemma_body_fits(*e, self_word_id@, norm_form_word_id@, headword_strptr, reading_strptr);
            lemma_entry_offset_monotone(entries, (i + 1) as nat, entries.len());
        }
        proof {
            crate::dic::read::primitives::lemma_le_u16_round_trip(e.left_id as u16, seq![]);
            crate::dic::read::primitives::lemma_le_u16_round_trip(e.right_id as u16, seq![]);
            crate::dic::read::primitives::lemma_le_u16_round_trip(e.cost as u16, seq![]);
        }
        let mut total = start + e.write_params(w);
        match e.write_rest(w, self_word_id, norm_form_word_id, headword_strptr, reading_strptr) {
            Ok(n) => {
                total = total + n;
            },
            Err(err) => {
                proof {
                    assert(w@ =~= wb + entry_params(*e));
                }
                return Err(err);
            },
        }
        let ghost body = entry_body(entries, i as nat, dic, strings);
        assert(w@ =~= wb + body);
        let expected_end = start + e.expected_entry_size();
        if total > expected_end {
            return Err(BuildFailure::InvalidSize { actual: total, expected: expected_end });
        }
        while total < expected_end
            invariant
                start <= total <= expected_end,
                total - start >= body.len(),
                w@ == wb + body + zeros((total - start - body.len()) as nat),
            decreases expected_end - total,
        {
            w.push(0u8);
            total = total + 1;
            proof {
                assert(w@ =~= wb + body + zeros((total - start - body.len()) as nat));
            }
        }
        Ok(total)
    }

    /// The word id written as the normalized form of entry `i`, or the error when it
    /// names a headword that no entry has.
    fn norm_word_id(&self, ids: &Vec<u32>, i: usize) -> (r: Result<WordId, BuildFailure>)
        requires
            writable(self.spec_entries(), self.spec_strings()),
            i < self.spec_entries().len(),
            ids@.len() == self.spec_entries().len(),
            forall|j: int|
                0 <= j < self.spec_entries().len() ==> ids@[j] == entry_word_id(
                    self.spec_entries(),
                    j as nat,
                    self.spec_dic(),
                ),
        ensures
            r is Ok <==> norm_form_id(self.spec_entries(), i as nat, self.spec_dic()) is Some,
            r matches Ok(wid) ==> Some(wid@) == norm_form_id(
                self.spec_entries(),
                i as nat,
                self.spec_dic(),
            ),
            r matches Err(e) ==> e matches BuildFailure::InvalidSplitWordReference(h) && h@
                == norm_value(self.spec_entries()[i as int]),
    {
        let e = &self.entries[i];
        let self_word_id = WordId::from_raw(ids[i]);
        match &e.norm_form {
            Some(NormFormValue::Value(headword)) => {
                if str_eq(headword.as_str(), e.headword()) {
                    Ok(self_word_id)
                } else {
                    match Self::last_entry_with_headword(self.entries, headword.as_str()) {
                        Some(j) => Ok(WordId::from_raw(ids[j])),
                        None => Err(BuildFailure::InvalidSplitWordReference(headword.clone())),
                    }
                }
            },
            _ => Ok(self_word_id),
        }
    }

    /// The index of the last entry whose headword is `h`.
    fn last_entry_with_headword(entries: &[RawLexiconEntry], h: &str) -> (r: Option<usize>)
        ensures
            r matches Some(j) ==> j < entries@.len() && last_with_headword(
                entries@,
                h@,
                entries@.len(),
            ) == Some(j as nat),
            r is None ==> last_with_headword(entries@, h@, entries@.len()) is None,
    {
        let mut n: usize = entries.len();
        while n > 0
            invariant
                0 <= n <= entries@.len(),
                last_with_headword(entries@, h@, entries@.len()) == last_with_headword(
                    entries@,
                    h@,
                    n as nat,
                ),
            decreases n,
        {
            if str_eq(entries[n - 1].headword(), h) {
                return Some(n - 1);
            }
            n = n - 1;
        }
        None
    }
}

/// The number of references of a list that still wait for resolution.
pub open spec fn pending_refs(refs: Seq<WordRef>) -> nat
    decreases refs.len(),
{
    if refs.len() == 0 {
        0
    } else {
        pending_refs(refs.drop_last()) + pending_count(refs.last()@)
    }
}

/// `a + b`, or `usize::MAX` when that is smaller.
pub open spec fn capped_sum(a: nat, b: nat) -> usize {
    if a + b > usize::MAX {
        usize::MAX
    } else {
        (a + b) as usize
    }
}

/// The number of references of an entry that still wait for resolution.
pub open spec fn entry_pending(e: RawLexiconEntry) -> nat {
    pending_count(e.dic_form@) + (if e.norm_form matches Some(NormFormValue::Ref(_)) {
        1nat
    } else {
        0nat
    }) + pending_refs(e.splits_a@) + pending_refs(e.splits_b@) + pending_refs(e.splits_c@)
        + pending_refs(e.word_structure@)
}

/// Whether a resolved word id lies inside the dictionary it names: below `max0`
/// entries for the system dictionary, below `max1` for the user dictionary.
pub open spec fn wid_in_range(raw: u32, max0: usize, max1: usize) -> bool {
    raw_entry(raw) < (if raw_dic(raw) == 0 {
        max0
    } else {
        max1
    }) as u32
}

/// Whether a reference is resolved to a word of the system or user dictionary.
pub open spec fn ref_checkable(r: WordRef) -> bool {
    match r {
        WordRef::Ref(w) => raw_dic(w@) == 0 || raw_dic(w@) == 1,
        WordRef::SelfRef => true,
        _ => false,
    }
}

/// Whether a resolved reference points inside its dictionary.
pub open spec fn ref_in_range(r: WordRef, max0: usize, max1: usize) -> bool {
    match r {
        WordRef::Ref(w) => wid_in_range(w@, max0, max1),
        _ => true,
    }
}

/// Whether every reference of a list points inside its dictionary.
pub open spec fn refs_in_range(refs: Seq<WordRef>, max0: usize, max1: usize) -> bool {
    forall|i: int| 0 <= i < refs.len() ==> ref_in_range(#[trigger] refs[i], max0, max1)
}

/// Whether an entry passes validation.
pub open spec fn entry_valid(
    e: RawLexiconEntry,
    max_left: i16,
    max_right: i16,
    max0: usize,
    max1: usize,
) -> bool {
    &&& e.left_id < max_left
    &&& e.right_id < max_right
    &&& ref_in_range(e.dic_form, max0, max1)
    &&& refs_in_range(e.splits_a@, max0, max1)
    &&& refs_in_range(e.splits_b@, max0, max1)
    &&& refs_in_range(e.splits_c@, max0, max1)
    &&& refs_in_range(e.word_structure@, max0, max1)
}

/// Whether every reference of an entry is resolved to a system or user word, as
/// validation needs.
pub open spec fn entry_checkable(e: RawLexiconEntry) -> bool {
    &&& ref_checkable(e.dic_form)
    &&& !(e.norm_form matches Some(NormFormValue::Ref(_)))
    &&& forall|i: int| 0 <= i < e.splits_a@.len() ==> (#[trigger] e.splits_a@[i]) is Ref && ref_checkable(e.splits_a@[i])
    &&& forall|i: int| 0 <= i < e.splits_b@.len() ==> (#[trigger] e.splits_b@[i]) is Ref && ref_checkable(e.splits_b@[i])
    &&& forall|i: int| 0 <= i < e.splits_c@.len() ==> (#[trigger] e.splits_c@[i]) is Ref && ref_checkable(e.splits_c@[i])
    &&& forall|i: int|
        0 <= i < e.word_structure@.len() ==> (#[trigger] e.word_structure@[i]) is Ref && ref_checkable(e.word_structure@[i])
}

/// Whether `e` reports a size check that failed: `actual` against `expected`, in the
/// field named `field`.
pub open spec fn field_size_error(e: BuildFailure, actual: usize, expected: usize, field: Seq<char>) -> bool {
    e matches BuildFailure::InvalidFieldSize { actual: a, expected: x, field: f } && a == actual
        && x == expected && f@ == field
}

/// What a word id that points outside its dictionary is reported with: its entry id,
/// the size of its dictionary and the field.
pub open spec fn wid_failure(raw: u32, max0: usize, max1: usize, field: Seq<char>) -> Option<
    (usize, usize, Seq<char>),
> {
    if wid_in_range(raw, max0, max1) {
        None
    } else {
        Some(
            (
                raw_entry(raw) as usize,
                if raw_dic(raw) == 0 {
                    max0
                } else {
                    max1
                },
                field,
            ),
        )
    }
}

/// What the first reference of a list, from index `i` on, that points outside its
/// dictionary is reported with.
pub open spec fn list_failure(refs: Seq<WordRef>, max0: usize, max1: usize, field: Seq<char>, i: nat) -> Option<
    (usize, usize, Seq<char>),
>
    decreases refs.len() - i,
{
    if i >= refs.len() {
        None
    } else {
        match refs[i as int] {
            WordRef::Ref(w) => match wid_failure(w@, max0, max1, field) {
                Some(f) => Some(f),
                None => list_failure(refs, max0, max1, field, i + 1),
            },
            _ => list_failure(refs, max0, max1, field, i + 1),
        }
    }
}

/// What the first check that an entry fails is reported with, in the order the
/// checks go: left id, right id, dictionary form, A, B and C splits, word structure.
pub open spec fn entry_failure(
    e: RawLexiconEntry,
    max_left: i16,
    max_right: i16,
    max0: usize,
    max1: usize,
) -> Option<(usize, usize, Seq<char>)> {
    let dic = match e.dic_form {
        WordRef::Ref(w) => wid_failure(w@, max0, max1, "dic_form"@),
        _ => None,
    };
    if e.left_id >= max_left {
        Some((e.left_id as usize, max_left as usize, "left_id"@))
    } else if e.right_id >= max_right {
        Some((e.right_id as usize, max_right as usize, "right_id"@))
    } else if dic is Some {
        dic
    } else if list_failure(e.splits_a@, max0, max1, "splits_a"@, 0) is Some {
        list_failure(e.splits_a@, max0, max1, "splits_a"@, 0)
    } else if list_failure(e.splits_b@, max0, max1, "splits_b"@, 0) is Some {
        list_failure(e.splits_b@, max0, max1, "splits_b"@, 0)
    } else if list_failure(e.splits_c@, max0, max1, "splits_c"@, 0) is Some {
        list_failure(e.splits_c@, max0, max1, "splits_c"@, 0)
    } else {
        list_failure(e.word_structure@, max0, max1, "word_structure"@, 0)
    }
}

/// The first entry, from index `i` on, that fails validation.
pub open spec fn first_invalid(
    entries: Seq<RawLexiconEntry>,
    max_left: i16,
    max_right: i16,
    max0: usize,
    max1: usize,
    i: nat,
) -> Option<nat>
    decreases entries.len() - i,
{
    if i >= entries.len() {
        None
    } else if entry_failure(entries[i as int], max_left, max_right, max0, max1) is Some {
        Some(i)
    } else {
        first_invalid(entries, max_left, max_right, max0, max1, i + 1)
    }
}

proof fn lemma_list_failure_none(refs: Seq<WordRef>, max0: usize, max1: usize, field: Seq<char>, i: nat)
    requires
        forall|k: int| 0 <= k < refs.len() ==> (#[trigger] refs[k]) is Ref,
    ensures
        list_failure(refs, max0, max1, field, i) is None <==> forall|k: int|
            i <= k < refs.len() ==> ref_in_range(#[trigger] refs[k], max0, max1),
    decreases refs.len() - i,
{
    if i < refs.len() {
        lemma_list_failure_none(refs, max0, max1, field, i + 1);
    }
}

proof fn lemma_entry_failure_none(e: RawLexiconEntry, max_left: i16, max_right: i16, max0: usize, max1: usize)
    requires
        entry_checkable(e),
    ensures
        entry_failure(e, max_left, max_right, max0, max1) is None <==> entry_valid(
            e,
            max_left,
            max_right,
            max0,
            max1,
        ),
{
    lemma_list_failure_none(e.splits_a@, max0, max1, "splits_a"@, 0);
    lemma_list_failure_none(e.splits_b@, max0, max1, "splits_b"@, 0);
    lemma_list_failure_none(e.splits_c@, max0, max1, "splits_c"@, 0);
    lemma_list_failure_none(e.word_structure@, max0, max1, "word_structure"@, 0);
}

/// The bytes of the rows among the first `n` whose id is at least `start`: the
/// fields of each as short UTF-16 strings.
pub open spec fn pos_rows_bytes(rows: Seq<(Seq<Seq<char>>, u16)>, start: usize, n: nat) -> Seq<u8>
    decreases n,
{
    if n == 0 || n > rows.len() {
        Seq::empty()
    } else if rows[n - 1].1 >= start {
        pos_rows_bytes(rows, start, (n - 1) as nat) + pos_row_bytes(rows[n - 1].0, 6)
    } else {
        pos_rows_bytes(rows, start, (n - 1) as nat)
    }
}

/// The first field of a row, from field `j` on, that is too long for a short string.
pub open spec fn first_long_field(row: Seq<Seq<char>>, j: nat) -> Option<nat>
    decreases 6 - j,
{
    if j >= 6 || j >= row.len() {
        None
    } else if spec_utf16_encode(row[j as int]).len() > 0x7fff {
        Some(j)
    } else {
        first_long_field(row, j + 1)
    }
}

proof fn lemma_no_long_field(row: Seq<Seq<char>>, j: nat)
    requires
        row.len() == 6,
        forall|k: int| 0 <= k < 6 ==> spec_utf16_encode(#[trigger] row[k]).len() <= 0x7fff,
    ensures
        first_long_field(row, j) is None,
    decreases 6 - j,
{
    if j < 6 {
        lemma_no_long_field(row, j + 1);
    }
}

/// The first row, from row `i` on, that is written (its id is at least `start`) and
/// has a field too long for a short string.
pub open spec fn first_long_row(rows: Seq<(Seq<Seq<char>>, u16)>, start: usize, i: nat) -> Option<nat>
    decreases rows.len() - i,
{
    if i >= rows.len() {
        None
    } else if rows[i as int].1 >= start && first_long_field(rows[i as int].0, 0) is Some {
        Some(i)
    } else {
        first_long_row(rows, start, i + 1)
    }
}

/// The bytes of the first `n` fields of a row.
pub open spec fn pos_row_bytes(row: Seq<Seq<char>>, n: nat) -> Seq<u8>
    decreases n,
{
    if n == 0 || n > row.len() {
        Seq::empty()
    } else {
        pos_row_bytes(row, (n - 1) as nat) + spec_utf16_string_bytes(row[n - 1])
    }
}

/// Reads lexicon entries and part-of-speech rows, resolves the references between
/// entries and checks them.
pub struct LexiconReader {
    pos: IndexMap<StrPosEntry, u16>,
    entries: Vec<RawLexiconEntry>,
    unresolved: usize,
    start_pos: usize,
    max_left: i16,
    max_right: i16,
    num_system: usize,
}

impl LexiconReader {
    /// The entries read so far.
    pub closed spec fn spec_entries(&self) -> Seq<RawLexiconEntry> {
        self.entries@
    }

    /// The part-of-speech rows in the order they came, each with its id.
    pub closed spec fn spec_pos_rows(&self) -> Seq<(Seq<Seq<char>>, u16)> {
        pos_map_rows(self.pos)
    }

    /// The part-of-speech rows in the order they came.
    pub open spec fn spec_pos(&self) -> Seq<Seq<Seq<char>>> {
        row_keys(self.spec_pos_rows())
    }

    /// The ids of the part-of-speech rows, in the same order.
    pub open spec fn spec_pos_ids(&self) -> Seq<u16> {
        self.spec_pos_rows().map_values(|r: (Seq<Seq<char>>, u16)| r.1)
    }

    /// The number of rows that came with the grammar rather than from the sources.
    pub closed spec fn spec_start_pos(&self) -> usize {
        self.start_pos
    }

    /// How many references wait for resolution.
    pub closed spec fn spec_unresolved(&self) -> usize {
        self.unresolved
    }

    /// The bounds of the connection ids.
    pub closed spec fn spec_max_conn(&self) -> (i16, i16) {
        (self.max_left, self.max_right)
    }

    /// The number of words of the system dictionary (`usize::MAX` when building one).
    pub closed spec fn spec_num_system(&self) -> usize {
        self.num_system
    }

    pub fn new() -> (r: Self)
        ensures
            r.spec_entries().len() == 0,
            r.spec_pos().len() == 0,
            r.spec_start_pos() == 0,
            r.spec_unresolved() == 0,
            r.spec_max_conn() == (i16::MAX, i16::MAX),
            r.spec_num_system() == usize::MAX,
    {
        Self {
            pos: pos_map_new(),
            entries: Vec::new(),
            unresolved: 0,
            start_pos: 0,
            max_left: i16::MAX,
            max_right: i16::MAX,
            num_system: usize::MAX,
        }
    }

    pub fn entries(&self) -> (r: &[RawLexiconEntry])
        ensures
            r@ == self.spec_entries(),
    {
        self.entries.as_slice()
    }

    /// Adds an entry read from a lexicon source, counting its references that wait
    /// for resolution (the count stops at `usize::MAX`).
    pub fn push_entry(&mut self, entry: RawLexiconEntry)
        ensures
            final(self).spec_entries() == old(self).spec_entries().push(entry),
            final(self).spec_unresolved() == capped_sum(old(self).spec_unresolved() as nat, entry_pending(entry)),
            final(self).spec_pos_rows() == old(self).spec_pos_rows(),
            final(self).spec_start_pos() == old(self).spec_start_pos(),
            final(self).spec_max_conn() == old(self).spec_max_conn(),
            final(self).spec_num_system() == old(self).spec_num_system(),
    {
        self.count_pending(&entry);
        self.append_entry(entry);
    }

    /// Counts the references of an entry that wait for resolution (the count stops at
    /// `usize::MAX`).
    pub(crate) fn count_pending(&mut self, entry: &RawLexiconEntry)
        ensures
            final(self).spec_unresolved() == capped_sum(old(self).spec_unresolved() as nat, entry_pending(*entry)),
            final(self).spec_entries() == old(self).spec_entries(),
            final(self).spec_pos_rows() == old(self).spec_pos_rows(),
            final(self).spec_start_pos() == old(self).spec_start_pos(),
            final(self).spec_max_conn() == old(self).spec_max_conn(),
            final(self).spec_num_system() == old(self).spec_num_system(),
    {
        let mut count: usize = pending_of(&entry.dic_form);
        if let Some(NormFormValue::Ref(_)) = &entry.norm_form {
            count = count + 1;
        }
        count = count.saturating_add(pending_in(&entry.splits_a));
        count = count.saturating_add(pending_in(&entry.splits_b));
        count = count.saturating_add(pending_in(&entry.splits_c));
        count = count.saturating_add(pending_in(&entry.word_structure));
        self.unresolved = self.unresolved.saturating_add(count);
    }

    /// Adds an entry whose references were counted already.
    pub(crate) fn append_entry(&mut self, entry: RawLexiconEntry)
        ensures
            final(self).spec_entries() == old(self).spec_entries().push(entry),
            final(self).spec_unresolved() == old(self).spec_unresolved(),
            final(self).spec_pos_rows() == old(self).spec_pos_rows(),
            final(self).spec_start_pos() == old(self).spec_start_pos(),
            final(self).spec_max_conn() == old(self).spec_max_conn(),
            final(self).spec_num_system() == old(self).spec_num_system(),
    {
        self.entries.push(entry);
    }

    /// Whether some references wait for resolution.
    pub fn needs_split_resolution(&self) -> (r: bool)
        ensures
            r == (self.spec_unresolved() > 0),
    {
        self.unresolved > 0
    }

    pub fn set_max_conn_sizes(&mut self, left: i16, right: i16)
        ensures
            final(self).spec_max_conn() == (left, right),
            final(self).spec_entries() == old(self).spec_entries(),
            final(self).spec_pos_rows() == old(self).spec_pos_rows(),
            final(self).spec_start_pos() == old(self).spec_start_pos(),
            final(self).spec_unresolved() == old(self).spec_unresolved(),
            final(self).spec_num_system() == old(self).spec_num_system(),
    {
        self.max_left = left;
        self.max_right = right;
    }

    pub fn set_num_system_words(&mut self, num: usize)
        ensures
            final(self).spec_num_system() == num,
            final(self).spec_entries() == old(self).spec_entries(),
            final(self).spec_pos_rows() == old(self).spec_pos_rows(),
            final(self).spec_start_pos() == old(self).spec_start_pos(),
            final(self).spec_unresolved() == old(self).spec_unresolved(),
            final(self).spec_max_conn() == old(self).spec_max_conn(),
    {
        self.num_system = num;
    }

    /// Takes the parts of speech of a grammar as the first rows, each with its index
    /// in the grammar as id.
    pub fn preload_pos(&mut self, grammar: &Grammar)
        requires
            old(self).spec_pos_rows().len() == 0,
            forall|i: int| 0 <= i < grammar.pos_list@.len() ==> (#[trigger] grammar.pos_list@[i])@.len() >= POS_DEPTH,
        ensures
            final(self).spec_pos_rows() == preloaded_rows(grammar_rows(grammar), grammar.pos_list@.len()),
            final(self).spec_start_pos() == final(self).spec_pos_rows().len(),
            final(self).spec_entries() == old(self).spec_entries(),
            final(self).spec_unresolved() == old(self).spec_unresolved(),
            final(self).spec_max_conn() == old(self).spec_max_conn(),
            final(self).spec_num_system() == old(self).spec_num_system(),
    {
        let ghost rows = grammar_rows(grammar);
        let mut i: usize = 0;
        while i < grammar.pos_list.len()
            invariant
                0 <= i <= grammar.pos_list@.len(),
                rows == grammar_rows(grammar),
                forall|k: int| 0 <= k < grammar.pos_list@.len() ==> (#[trigger] grammar.pos_list@[k])@.len() >= POS_DEPTH,
                self.spec_pos_rows() == preloaded_rows(rows, i as nat),
                self.entries == old(self).entries,
                self.unresolved == old(self).unresolved,
                self.max_left == old(self).max_left,
                self.max_right == old(self).max_right,
                self.num_system == old(self).num_system,
            decreases grammar.pos_list@.len() - i,
        {
            let key = StrPosEntry::from_built_pos(&grammar.pos_list[i]);
            proof {
                assert(key@ == rows[i as int]);
            }
            pos_map_insert(&mut self.pos, key, i as u16);
            i = i + 1;
        }
        self.start_pos = pos_map_len(&self.pos);
    }

    /// The id of a part-of-speech row: the id it already has, or the next id when it
    /// is new and ids remain.
    pub fn pos_id_of(&mut self, data: [String; 6]) -> (r: Result<u16, BuildFailure>)
        ensures
            ({
                let row = data@.map_values(|s: String| s@);
                match pos_index(old(self).spec_pos(), row, 0) {
                    Some(k) => r == Ok::<u16, BuildFailure>(old(self).spec_pos_ids()[k as int])
                        && final(self).spec_pos_rows() == old(self).spec_pos_rows(),
                    None => if old(self).spec_pos().len() > MAX_POS_IDS {
                        (r matches Err(BuildFailure::PosLimitExceeded(m)) && m@ == comma_joined(row))
                            && final(self).spec_pos_rows() == old(self).spec_pos_rows()
                    } else {
                        r == Ok::<u16, BuildFailure>(old(self).spec_pos().len() as u16)
                            && final(self).spec_pos_rows() == old(self).spec_pos_rows().push(
                            (row, old(self).spec_pos().len() as u16),
                        )
                    },
                }
            }),
            final(self).spec_entries() == old(self).spec_entries(),
            final(self).spec_start_pos() == old(self).spec_start_pos(),
            final(self).spec_unresolved() == old(self).spec_unresolved(),
            final(self).spec_max_conn() == old(self).spec_max_conn(),
            final(self).spec_num_system() == old(self).spec_num_system(),
    {
        let key = StrPosEntry::new(data);
        let ghost rows = self.spec_pos_rows();
        assert(self.spec_pos().len() == rows.len());
        match pos_map_get(&self.pos, &key) {
            Some(v) => {
                proof {
                    let k = pos_index(row_keys(rows), key@, 0).unwrap();
                    lemma_pos_index_bound(row_keys(rows), key@, 0);
                    assert(self.spec_pos_ids()[k as int] == rows[k as int].1);
                }
                Ok(v)
            },
            None => {
                let pos_id = pos_map_len(&self.pos);
                if pos_id > MAX_POS_IDS {
                    Err(BuildFailure::PosLimitExceeded(key.to_string()))
                } else {
                    pos_map_insert(&mut self.pos, key, pos_id as u16);
                    Ok(pos_id as u16)
                }
            },
        }
    }

    /// Reads the part-of-speech table from CSV text and gives the number of rows read;
    /// see [`crate::dic::build::pos::read_pos_bytes`]. The table must be read before
    /// any lexicon entry.
    pub fn read_pos_bytes(&mut self, data: &[u8]) -> (r: Result<usize, DicBuildError>)
        ensures
            ({
                let (t, res) = read_pos_outcome(
                    old(self).spec_pos(),
                    old(self).spec_entries().len() > 0,
                    data@,
                );
                &&& final(self).spec_pos() == t
                &&& match res {
                    Ok(n) => r == Ok::<usize, DicBuildError>(n as usize),
                    Err(f) => r matches Err(e) && pos_table_failure(f, e.cause) && e.line
                        == pos_failure_line(old(self).spec_pos(), old(self).spec_entries().len() > 0, data@)
                        as usize,
                }
            }),
            old(self).spec_entries().len() > 0 || old(self).spec_pos().len() > 0
                ==> final(self).spec_pos_rows() == old(self).spec_pos_rows(),
            old(self).spec_entries().len() == 0 && old(self).spec_pos().len() == 0 ==> forall|i: int|
                0 <= i < final(self).spec_pos().len() ==> #[trigger] final(self).spec_pos_ids()[i]
                    == i as u16,
            final(self).spec_entries() == old(self).spec_entries(),
            final(self).spec_start_pos() == old(self).spec_start_pos(),
            final(self).spec_unresolved() == old(self).spec_unresolved(),
            final(self).spec_max_conn() == old(self).spec_max_conn(),
            final(self).spec_num_system() == old(self).spec_num_system(),
    {
        let loaded = self.entries.len() > 0;
        crate::dic::build::pos::read_pos_bytes(self, loaded, data)
    }

    /// Reads the rows of a part-of-speech table and gives the number of rows read;
    /// `lines` holds the line where each row starts. See
    /// [`crate::dic::build::pos::read_pos_rows`]. The table must be read before any
    /// lexicon entry.
    pub fn read_pos_rows(&mut self, rows: &[Vec<String>], lines: &[u64]) -> (r: Result<
        usize,
        DicBuildError,
    >)
        requires
            lines@.len() == rows@.len(),
        ensures
            ({
                let (t, res) = pos_rows_outcome(
                    old(self).spec_pos(),
                    old(self).spec_entries().len() > 0,
                    records_view(rows@),
                );
                &&& final(self).spec_pos() == t
                &&& match res {
                    Ok(n) => r == Ok::<usize, DicBuildError>(n as usize),
                    Err(f) => r matches Err(e) && pos_table_failure(f, e.cause) && e.line
                        == pos_rows_failure_line(
                        old(self).spec_pos(),
                        old(self).spec_entries().len() > 0,
                        records_view(rows@),
                        lines@,
                    ) as usize,
                }
            }),
            old(self).spec_entries().len() > 0 || old(self).spec_pos().len() > 0
                ==> final(self).spec_pos_rows() == old(self).spec_pos_rows(),
            old(self).spec_entries().len() == 0 && old(self).spec_pos().len() == 0 ==> forall|i: int|
                0 <= i < final(self).spec_pos().len() ==> #[trigger] final(self).spec_pos_ids()[i]
                    == i as u16,
            final(self).spec_entries() == old(self).spec_entries(),
            final(self).spec_start_pos() == old(self).spec_start_pos(),
            final(self).spec_unresolved() == old(self).spec_unresolved(),
            final(self).spec_max_conn() == old(self).spec_max_conn(),
            final(self).spec_num_system() == old(self).spec_num_system(),
    {
        let loaded = self.entries.len() > 0;
        crate::dic::build::pos::read_pos_rows(self, loaded, rows, lines)
    }

    /// The number of rows of the part-of-speech table.
    pub(crate) fn pos_len(&self) -> (r: usize)
        ensures
            r == self.spec_pos().len(),
    {
        pos_map_len(&self.pos)
    }

    /// Adds a row of the part-of-speech table; `raw_id` is the text of its id field,
    /// if the table has one. The row must be new, ids must remain, and an id that is
    /// given must be the next one.
    pub fn add_pos_record(&mut self, fields: [String; 6], raw_id: Option<&str>) -> (r: Result<
        (),
        BuildFailure,
    >)
        ensures
            ({
                let o = pos_row_outcome(
                    old(self).spec_pos(),
                    fields@.map_values(|s: String| s@),
                    opt_text(raw_id),
                );
                &&& o is Added ==> r is Ok && final(self).spec_pos_rows() == old(self).spec_pos_rows().push(
                    (fields@.map_values(|s: String| s@), old(self).spec_pos().len() as u16),
                )
                &&& !(o is Added) ==> final(self).spec_pos_rows() == old(self).spec_pos_rows() && (r matches Err(
                    e,
                ) && pos_row_failure(o, e))
            }),
            final(self).spec_entries() == old(self).spec_entries(),
            final(self).spec_start_pos() == old(self).spec_start_pos(),
            final(self).spec_unresolved() == old(self).spec_unresolved(),
            final(self).spec_max_conn() == old(self).spec_max_conn(),
            final(self).spec_num_system() == old(self).spec_num_system(),
    {
        let key = StrPosEntry::new(fields);
        if pos_map_get(&self.pos, &key).is_some() {
            return Err(BuildFailure::InvalidSplit("POS already exists".to_owned()));
        }
        let expected = pos_map_len(&self.pos);
        if expected > MAX_POS_IDS {
            return Err(BuildFailure::PosLimitExceeded(key.to_string()));
        }
        if let Some(raw) = raw_id {
            if !raw.is_empty() {
                let raw_id = match parse_i16(raw) {
                    Ok(v) => v,
                    Err(e) => return Err(e),
                };
                if raw_id < 0 {
                    return Err(BuildFailure::InvalidSplit("POS_ID must be >= 0".to_owned()));
                }
                if raw_id as usize != expected {
                    return Err(
                        BuildFailure::InvalidSplit(
                            "POS_ID must be contiguous and ordered".to_owned(),
                        ),
                    );
                }
            }
        }
        pos_map_insert(&mut self.pos, key, expected as u16);
        Ok(())
    }

    /// The part-of-speech row with the given id, which is also its place; a row at
    /// that place must have that id.
    pub fn pos_obj(&self, pos_id: u16) -> (r: Option<&StrPosEntry>)
        requires
            pos_id < self.spec_pos().len() ==> self.spec_pos_ids()[pos_id as int] == pos_id,
        ensures
            pos_id < self.spec_pos().len() ==> (r matches Some(p) && p@ == self.spec_pos()[pos_id as int]),
            pos_id >= self.spec_pos().len() ==> r is None,
    {
        match pos_map_row_at(&self.pos, pos_id as usize) {
            Some((row, _)) => Some(row),
            None => None,
        }
    }

    /// The entry id one past the last entry: the end of the entries block divided by 8.
    pub fn max_entry_id_plus_one(&self) -> (r: u32)
        requires
            forall|i: int| 0 <= i < self.spec_entries().len() ==> (#[trigger] self.spec_entries()[i]).layout_view() is Some,
            entry_offset(self.spec_entries(), self.spec_entries().len()) <= usize::MAX,
        ensures
            r == (entry_offset(self.spec_entries(), self.spec_entries().len()) / 8) as u32,
    {
        let mut offset: usize = ENTRY_INITIAL_OFFSET;
        let mut i: usize = 0;
        while i < self.entries.len()
            invariant
                0 <= i <= self.entries@.len(),
                forall|k: int| 0 <= k < self.entries@.len() ==> (#[trigger] self.entries@[k]).layout_view() is Some,
                entry_offset(self.entries@, self.entries@.len()) <= usize::MAX,
                offset == entry_offset(self.entries@, i as nat),
            decreases self.entries@.len() - i,
        {
            proof {
                lemma_entry_offset_monotone(self.entries@, (i + 1) as nat, self.entries@.len());
            }
            offset = offset + self.entries[i].expected_entry_size();
            i = i + 1;
        }
        (offset / 8) as u32
    }

    /// The word id of each entry in dictionary `dic_id`, in entry order.
    pub fn row_word_ids(&self, dic_id: u8) -> (r: Vec<WordId>)
        requires
            dic_id < 16,
            forall|i: int| 0 <= i < self.spec_entries().len() ==> (#[trigger] self.spec_entries()[i]).layout_view() is Some,
            entry_offset(self.spec_entries(), self.spec_entries().len()) <= usize::MAX,
        ensures
            r@.len() == self.spec_entries().len(),
            forall|i: int| 0 <= i < r@.len() ==> (#[trigger] r@[i])@ == entry_word_id(self.spec_entries(), i as nat, dic_id),
    {
        let mut result: Vec<WordId> = Vec::new();
        let mut offset: usize = ENTRY_INITIAL_OFFSET;
        let mut i: usize = 0;
        while i < self.entries.len()
            invariant
                0 <= i <= self.entries@.len(),
                dic_id < 16,
                forall|k: int| 0 <= k < self.entries@.len() ==> (#[trigger] self.entries@[k]).layout_view() is Some,
                entry_offset(self.entries@, self.entries@.len()) <= usize::MAX,
                offset == entry_offset(self.entries@, i as nat),
                result@.len() == i,
                forall|k: int| 0 <= k < i ==> (#[trigger] result@[k])@ == entry_word_id(self.entries@, k as nat, dic_id),
            decreases self.entries@.len() - i,
        {
            proof {
                lemma_entry_offset_monotone(self.entries@, (i + 1) as nat, self.entries@.len());
            }
            result.push(WordId::new(dic_id, (offset / 8) as u32));
            offset = offset + self.entries[i].expected_entry_size();
            i = i + 1;
        }
        result
    }

    /// Checks the connection ids of every entry against their bounds and every
    /// reference against the size of its dictionary, and fails at the first entry
    /// that does not pass.
    pub fn validate_entries(&self) -> (r: Result<(), BuildFailure>)
        requires
            forall|i: int| 0 <= i < self.spec_entries().len() ==> (#[trigger] self.spec_entries()[i]).layout_view() is Some
                && entry_checkable(self.spec_entries()[i]),
            entry_offset(self.spec_entries(), self.spec_entries().len()) <= usize::MAX,
        ensures
            r is Ok <==> forall|i: int|
                0 <= i < self.spec_entries().len() ==> entry_valid(
                    #[trigger] self.spec_entries()[i],
                    self.spec_max_conn().0,
                    self.spec_max_conn().1,
                    validation_bounds(self).0,
                    validation_bounds(self).1,
                ),
            r matches Err(e) ==> first_invalid(
                self.spec_entries(),
                self.spec_max_conn().0,
                self.spec_max_conn().1,
                validation_bounds(self).0,
                validation_bounds(self).1,
                0,
            ) matches Some(i) && entry_failure(
                self.spec_entries()[i as int],
                self.spec_max_conn().0,
                self.spec_max_conn().1,
                validation_bounds(self).0,
                validation_bounds(self).1,
            ) matches Some((a, x, f)) && field_size_error(e, a, x, f),
    {
        let max_current = self.max_entry_id_plus_one() as usize;
        let (max_0, max_1) = if self.num_system == usize::MAX {
            (max_current, 0)
        } else {
            (self.num_system, max_current)
        };
        assert(validation_bounds(self) == (max_0, max_1));
        let ghost entries = self.spec_entries();
        let ghost ml = self.max_left;
        let ghost mr = self.max_right;
        let mut i: usize = 0;
        while i < self.entries.len()
            invariant
                0 <= i <= self.entries@.len(),
                entries == self.spec_entries(),
                ml == self.max_left && mr == self.max_right,
                validation_bounds(self) == (max_0, max_1),
                forall|k: int| 0 <= k < self.entries@.len() ==> entry_checkable(#[trigger] self.entries@[k]),
                forall|k: int|
                    0 <= k < i ==> entry_valid(
                        #[trigger] self.entries@[k],
                        self.max_left,
                        self.max_right,
                        max_0,
                        max_1,
                    ),
                first_invalid(entries, ml, mr, max_0, max_1, 0) == first_invalid(
                    entries,
                    ml,
                    mr,
                    max_0,
                    max_1,
                    i as nat,
                ),
            decreases self.entries@.len() - i,
        {
            let e = &self.entries[i];
            assert(entry_checkable(self.entries@[i as int]));
            proof {
                lemma_entry_failure_none(*e, ml, mr, max_0, max_1);
            }
            if e.left_id >= self.max_left {
                assert(!entry_valid(self.spec_entries()[i as int], self.max_left, self.max_right, max_0, max_1));
                return Err(
                    BuildFailure::InvalidFieldSize {
                        actual: e.left_id as usize,
                        expected: self.max_left as usize,
                        field: "left_id",
                    },
                );
            }
            if e.right_id >= self.max_right {
                assert(!entry_valid(self.spec_entries()[i as int], self.max_left, self.max_right, max_0, max_1));
                return Err(
                    BuildFailure::InvalidFieldSize {
                        actual: e.right_id as usize,
                        expected: self.max_right as usize,
                        field: "right_id",
                    },
                );
            }
            if let WordRef::Ref(wid) = &e.dic_form {
                if let Err(err) = Self::validate_wid(wid.word_id(), max_0, max_1, "dic_form") {
                    assert(!entry_valid(self.spec_entries()[i as int], self.max_left, self.max_right, max_0, max_1));
                    return Err(err);
                }
            }
            if let Err(err) = Self::validate_list(&e.splits_a, max_0, max_1, "splits_a") {
                assert(!entry_valid(self.spec_entries()[i as int], self.max_left, self.max_right, max_0, max_1));
                return Err(err);
            }
            if let Err(err) = Self::validate_list(&e.splits_b, max_0, max_1, "splits_b") {
                assert(!entry_valid(self.spec_entries()[i as int], self.max_left, self.max_right, max_0, max_1));
                return Err(err);
            }
            if let Err(err) = Self::validate_list(&e.splits_c, max_0, max_1, "splits_c") {
                assert(!entry_valid(self.spec_entries()[i as int], self.max_left, self.max_right, max_0, max_1));
                return Err(err);
            }
            if let Err(err) = Self::validate_list(
                &e.word_structure,
                max_0,
                max_1,
                "word_structure",
            ) {
                assert(!entry_valid(self.spec_entries()[i as int], self.max_left, self.max_right, max_0, max_1));
                return Err(err);
            }
            i = i + 1;
        }
        Ok(())
    }

    fn validate_list(refs: &Vec<WordRef>, max_0: usize, max_1: usize, label: &'static str) -> (r: Result<(), BuildFailure>)
        requires
            forall|i: int| 0 <= i < refs@.len() ==> (#[trigger] refs@[i]) is Ref && ref_checkable(refs@[i]),
        ensures
            r is Ok <==> refs_in_range(refs@, max_0, max_1),
            r is Ok <==> list_failure(refs@, max_0, max_1, label@, 0) is None,
            r matches Err(e) ==> list_failure(refs@, max_0, max_1, label@, 0) matches Some((a, x, f))
                && field_size_error(e, a, x, f),
    {
        proof {
            lemma_list_failure_none(refs@, max_0, max_1, label@, 0);
        }
        let mut i: usize = 0;
        while i < refs.len()
            invariant
                0 <= i <= refs@.len(),
                forall|k: int| 0 <= k < refs@.len() ==> (#[trigger] refs@[k]) is Ref && ref_checkable(refs@[k]),
                forall|k: int| 0 <= k < i ==> ref_in_range(#[trigger] refs@[k], max_0, max_1),
                list_failure(refs@, max_0, max_1, label@, 0) == list_failure(refs@, max_0, max_1, label@, i as nat),
            decreases refs@.len() - i,
        {
            assert(refs@[i as int] is Ref && ref_checkable(refs@[i as int]));
            if let WordRef::Ref(wid) = &refs[i] {
                if let Err(err) = Self::validate_wid(wid.word_id(), max_0, max_1, label) {
                    return Err(err);
                }
            }
            i = i + 1;
        }
        Ok(())
    }

    fn validate_wid(wid: WordId, dic0_max: usize, dic1_max: usize, label: &'static str) -> (r: Result<(), BuildFailure>)
        requires
            raw_dic(wid@) == 0 || raw_dic(wid@) == 1,
        ensures
            r is Ok <==> wid_in_range(wid@, dic0_max, dic1_max),
            r matches Err(e) ==> wid_failure(wid@, dic0_max, dic1_max, label@) matches Some(
                (a, x, f),
            ) && field_size_error(e, a, x, f),
    {
        let max = if wid.dict().as_raw() == 0 {
            dic0_max
        } else {
            dic1_max
        };
        if wid.entry().as_raw() >= max as u32 {
            return Err(
                BuildFailure::InvalidFieldSize {
                    actual: wid.entry().as_raw() as usize,
                    expected: max,
                    field: label,
                },
            );
        }
        Ok(())
    }

    /// Appends the part-of-speech rows that did not come with the grammar (those
    /// whose id is past the grammar's rows): their number as a `u16`, then their
    /// fields, and returns the number of bytes written.
    pub fn write_pos_table(&self, w: &mut Vec<u8>) -> (r: Result<usize, BuildFailure>)
        requires
            self.spec_start_pos() <= self.spec_pos().len(),
        ensures
            r matches Ok(n) ==> final(w)@ == old(w)@ + spec_u16_to_le_bytes(
                (self.spec_pos().len() - self.spec_start_pos()) as u16,
            ) + pos_rows_bytes(self.spec_pos_rows(), self.spec_start_pos(), self.spec_pos().len())
                && n == final(w)@.len() - old(w)@.len(),
            r is Ok <==> forall|i: int, j: int|
                0 <= i < self.spec_pos().len() && 0 <= j < 6 && self.spec_pos_ids()[i]
                    >= self.spec_start_pos() ==> spec_utf16_encode(
                    #[trigger] self.spec_pos()[i][j],
                ).len() <= 0x7fff,
            r matches Err(e) ==> ({
                let rows = self.spec_pos_rows();
                &&& first_long_row(rows, self.spec_start_pos(), 0) matches Some(i)
                &&& first_long_field(rows[i as int].0, 0) matches Some(k)
                &&& e == (BuildFailure::InvalidSize {
                    actual: spec_utf16_encode(rows[i as int].0[k as int]).len() as usize,
                    expected: 0x7fff,
                })
                &&& final(w)@ == old(w)@ + spec_u16_to_le_bytes(
                    (self.spec_pos().len() - self.spec_start_pos()) as u16,
                ) + pos_rows_bytes(rows, self.spec_start_pos(), i) + pos_row_bytes(rows[i as int].0, k)
            }),
    {
        let start_len = w.len();
        let len = pos_map_len(&self.pos);
        let real_count = len - self.start_pos;
        write_u16(w, real_count as u16);
        let ghost w0 = old(w)@;
        let ghost rows = self.spec_pos_rows();
        let mut row: usize = 0;
        while row < len
            invariant
                row <= len,
                len == rows.len(),
                rows == self.spec_pos_rows(),
                start_len == w0.len(),
                w@ == w0 + spec_u16_to_le_bytes(real_count as u16) + pos_rows_bytes(
                    rows,
                    self.start_pos,
                    row as nat,
                ),
                forall|i: int, j: int|
                    0 <= i < row && 0 <= j < 6 && rows[i].1 >= self.start_pos ==> spec_utf16_encode(
                        #[trigger] rows[i].0[j],
                    ).len() <= 0x7fff,
                first_long_row(rows, self.start_pos, 0) == first_long_row(rows, self.start_pos, row as nat),
                w0 == old(w)@,
                real_count == len - self.start_pos,
            decreases len - row,
        {
            let (entry, pos_id) = pos_map_row_at(&self.pos, row).unwrap();
            if (pos_id as usize) >= self.start_pos {
                match write_pos_row(w, entry) {
                    Ok(_) => {},
                    Err(e) => {
                        proof {
                            assert(self.spec_pos()[row as int] == rows[row as int].0);
                            assert(self.spec_pos_ids()[row as int] == rows[row as int].1);
                            assert(entry@ == rows[row as int].0);
                            assert(first_long_row(rows, self.start_pos, row as nat) == Some(row as nat));
                        }
                        return Err(e);
                    },
                }
                proof {
                    assert(w@ =~= w0 + spec_u16_to_le_bytes(real_count as u16) + pos_rows_bytes(
                        rows,
                        self.start_pos,
                        (row + 1) as nat,
                    ));
                    assert(entry@ == rows[row as int].0);
                    lemma_no_long_field(entry@, 0);
                }
            } else {
                proof {
                    assert(pos_rows_bytes(rows, self.start_pos, (row + 1) as nat) =~= pos_rows_bytes(
                        rows,
                        self.start_pos,
                        row as nat,
                    ));
                }
            }
            row = row + 1;
        }
        proof {
            assert forall|i: int, j: int|
                0 <= i < self.spec_pos().len() && 0 <= j < 6 && self.spec_pos_ids()[i]
                    >= self.spec_start_pos() implies spec_utf16_encode(
                #[trigger] self.spec_pos()[i][j],
            ).len() <= 0x7fff by {
                assert(self.spec_pos()[i] == rows[i].0);
                assert(self.spec_pos_ids()[i] == rows[i].1);
            }
        }
        Ok(w.len() - start_len)
    }
}

/// Appends the six fields of a part-of-speech row as short UTF-16 strings.
fn write_pos_row(w: &mut Vec<u8>, row: &StrPosEntry) -> (r: Result<usize, BuildFailure>)
    ensures
        row@.len() == 6,
        r is Ok <==> forall|j: int| 0 <= j < 6 ==> spec_utf16_encode(#[trigger] row@[j]).len() <= 0x7fff,
        r matches Ok(_) ==> final(w)@ == old(w)@ + pos_row_bytes(row@, 6),
        r matches Err(e) ==> (first_long_field(row@, 0) matches Some(k) && e == (
        BuildFailure::InvalidSize {
            actual: spec_utf16_encode(row@[k as int]).len() as usize,
            expected: 0x7fff,
        }) && final(w)@ == old(w)@ + pos_row_bytes(row@, k)),
{
    let fields = row.fields();
    proof {
        assert(fields@.map_values(|s: String| s@) == row@);
    }
    let ghost w0 = w@;
    let mut written: usize = 0;
    let mut f: usize = 0;
    while f < 6
        invariant
            0 <= f <= 6,
            fields@.map_values(|s: String| s@) == row@,
            row@.len() == 6,
            w@ == w0 + pos_row_bytes(row@, f as nat),
            w0 == old(w)@,
            forall|j: int| 0 <= j < f ==> spec_utf16_encode(#[trigger] row@[j]).len() <= 0x7fff,
            first_long_field(row@, 0) == first_long_field(row@, f as nat),
            written <= f * 0x10002,
        decreases 6 - f,
    {
        assert(fields@[f as int]@ == row@[f as int]);
        match write_short_utf16(w, fields[f].as_str()) {
            Ok(n) => {
                written = written + n;
            },
            Err(e) => {
                return Err(e);
            },
        }
        f = f + 1;
    }
    Ok(written)
}

/// The first six fields of each part of speech of a grammar.
pub open spec fn grammar_rows(grammar: &Grammar) -> Seq<Seq<Seq<char>>> {
    grammar.pos_list@.map_values(|p: Vec<String>| p@.take(6).map_values(|s: String| s@))
}

/// The table after inserting the first `n` rows, each with its index as id, into
/// an empty table.
pub open spec fn preloaded_rows(rows: Seq<Seq<Seq<char>>>, n: nat) -> Seq<(Seq<Seq<char>>, u16)>
    decreases n,
{
    if n == 0 || n > rows.len() {
        Seq::empty()
    } else {
        rows_after_insert(preloaded_rows(rows, (n - 1) as nat), rows[n - 1], (n - 1) as u16)
    }
}

proof fn lemma_pos_index_absent(rows: Seq<Seq<Seq<char>>>, row: Seq<Seq<char>>, i: nat)
    requires
        forall|k: int| i <= k < rows.len() ==> rows[k] != row,
    ensures
        pos_index(rows, row, i) is None,
    decreases rows.len() - i,
{
    if i < rows.len() {
        lemma_pos_index_absent(rows, row, i + 1);
    }
}

/// Preloading pairwise distinct grammar rows gives them in their order, each with its
/// index as id.
pub proof fn preload_keeps_distinct_rows_in_order(rows: Seq<Seq<Seq<char>>>, n: nat)
    requires
        n <= rows.len(),
        n <= 0x10000,
        forall|i: int, j: int| 0 <= i < j < n ==> rows[i] != rows[j],
    ensures
        preloaded_rows(rows, n).len() == n,
        forall|i: int| 0 <= i < n ==> #[trigger] preloaded_rows(rows, n)[i] == (rows[i], i as u16),
    decreases n,
{
    if n > 0 {
        let m = (n - 1) as nat;
        preload_keeps_distinct_rows_in_order(rows, m);
        let prev = preloaded_rows(rows, m);
        assert forall|k: int| 0 <= k < row_keys(prev).len() implies row_keys(prev)[k] != rows[m as int] by {
            assert(row_keys(prev)[k] == prev[k].0);
            assert(prev[k] == (rows[k], k as u16));
        }
        lemma_pos_index_absent(row_keys(prev), rows[m as int], 0);
    }
}

/// The chars of an optional text.
pub open spec fn opt_text(t: Option<&str>) -> Option<Seq<char>> {
    match t {
        Some(v) => Some(v@),
        None => None,
    }
}

/// What adding a row to the part-of-speech table comes to.
pub enum PosRowOutcome {
    Added,
    Duplicate,
    LimitExceeded,
    BadId(Seq<char>),
    NegativeId,
    IdOutOfOrder,
}

/// What adding `row` to the table `rows` comes to, with `raw_id` the text of its id
/// field if there is one: an empty id field gives no id.
pub open spec fn pos_row_outcome(
    rows: Seq<Seq<Seq<char>>>,
    row: Seq<Seq<char>>,
    raw_id: Option<Seq<char>>,
) -> PosRowOutcome {
    if pos_index(rows, row, 0) is Some {
        PosRowOutcome::Duplicate
    } else if rows.len() > MAX_POS_IDS {
        PosRowOutcome::LimitExceeded
    } else {
        match raw_id {
            Some(t) => if t.len() == 0 {
                PosRowOutcome::Added
            } else {
                match spec_parse_i16(t) {
                    None => PosRowOutcome::BadId(t),
                    Some(v) => if v < 0 {
                        PosRowOutcome::NegativeId
                    } else if v != rows.len() {
                        PosRowOutcome::IdOutOfOrder
                    } else {
                        PosRowOutcome::Added
                    },
                }
            },
            None => PosRowOutcome::Added,
        }
    }
}

/// Whether `e` is the error that the outcome `o` is reported with.
pub open spec fn pos_row_failure(o: PosRowOutcome, e: BuildFailure) -> bool {
    match o {
        PosRowOutcome::Added => false,
        PosRowOutcome::Duplicate => e matches BuildFailure::InvalidSplit(m) && m@
            == "POS already exists"@,
        PosRowOutcome::LimitExceeded => e is PosLimitExceeded,
        PosRowOutcome::BadId(t) => e matches BuildFailure::InvalidI16Literal(m) && m@ == t,
        PosRowOutcome::NegativeId => e matches BuildFailure::InvalidSplit(m) && m@
            == "POS_ID must be >= 0"@,
        PosRowOutcome::IdOutOfOrder => e matches BuildFailure::InvalidSplit(m) && m@
            == "POS_ID must be contiguous and ordered"@,
    }
}

proof fn lemma_pos_index_bound(rows: Seq<Seq<Seq<char>>>, row: Seq<Seq<char>>, i: nat)
    requires
        pos_index(rows, row, i) is Some,
    ensures
        pos_index(rows, row, i).unwrap() < rows.len(),
    decreases rows.len() - i,
{
    if i < rows.len() && rows[i as int] != row {
        lemma_pos_index_bound(rows, row, i + 1);
    }
}

/// The first index from `i` on of a row equal to `row`.
pub open spec fn pos_index(rows: Seq<Seq<Seq<char>>>, row: Seq<Seq<char>>, i: nat) -> Option<nat>
    decreases rows.len() - i,
{
    if i >= rows.len() {
        None
    } else if rows[i as int] == row {
        Some(i)
    } else {
        pos_index(rows, row, i + 1)
    }
}

/// The entry bounds that validation uses: the size of the dictionary being built for
/// the system dictionary, else the number of system words and the size of the one
/// being built.
pub open spec fn validation_bounds(reader: &LexiconReader) -> (usize, usize) {
    let current = (entry_offset(reader.spec_entries(), reader.spec_entries().len()) / 8) as u32 as usize;
    if reader.spec_num_system() == usize::MAX {
        (current, 0)
    } else {
        (reader.spec_num_system(), current)
    }
}

/// The number of pending references of one reference.
fn pending_of(r: &WordRef) -> (n: usize)
    ensures
        n == pending_count(r@),
{
    match r {
        WordRef::Ref(_) => 0,
        WordRef::SelfRef => 0,
        _ => 1,
    }
}

/// The number of pending references of a list.
fn pending_in(refs: &Vec<WordRef>) -> (n: usize)
    ensures
        n == pending_refs(refs@),
{
    let mut n: usize = 0;
    let mut i: usize = 0;
    while i < refs.len()
        invariant
            0 <= i <= refs@.len(),
            n == pending_refs(refs@.take(i as int)),
            n <= i,
        decreases refs@.len() - i,
    {
        n = n + pending_of(&refs[i]);
        i = i + 1;
        proof {
            assert(refs@.take(i as int).drop_last() =~= refs@.take(i - 1));
        }
    }
    proof {
        assert(refs@.take(i as int) =~= refs@);
    }
    n
}

} // verus!
