//! The blocks of a binary dictionary.
use vstd::prelude::*;

use crate::dic::build::lexicon::{pos_row_bytes, pos_rows_bytes};
use crate::dic::build::pos_map::row_keys;
use crate::dic::connect::{spec_le_i16s, spec_matrix_readable, ConnectionMatrix};
use crate::dic::lexicon::strings::CompactedStrings;
use crate::dic::read::primitives::{le_u16, spec_le_u16};
use crate::dic::read::utf16_string::{spec_utf16_encode, spec_utf16_string, utf16_string};
use crate::dic::word_info::variable_io::lemma_utf16_string_round_trip;
use crate::error::SudachiResult;
use vstd::bytes::spec_u16_to_le_bytes;
use crate::dic::lexicon::word_id_table::WordIdTable;
use crate::dic::lexicon::word_params::{spec_params_of_bytes, WordParams};
use crate::dic::word_info::infos::WordInfos;

verus! {

/// The lexicon part of a binary dictionary.
pub struct BinaryLexicon<'a> {
    /// The lists of word ids that share an index form.
    pub word_id_table: WordIdTable<'a>,
    /// The parameters of the words (used during analysis).
    pub word_params: WordParams,
    /// The word infos (used after analysis).
    pub word_infos: WordInfos<'a>,
    /// The strings of the lexicon (headwords, readings and the like).
    pub strings: CompactedStrings<'a>,
    /// The number of entries of the lexicon.
    pub num_total_entries: u32,
}

impl<'a> BinaryLexicon<'a> {
    /// The lexicon made of its blocks: the word id lists, the entries (whose first
    /// bytes are the word parameters) and the strings.
    pub fn load(
        word_pointers: &'a [u8],
        entries: &'a [u8],
        strings: &'a [u8],
        num_total_entries: u32,
    ) -> (r: Self)
        ensures
            r.word_id_table@ == word_pointers@,
            r.word_params@ == spec_params_of_bytes(entries@),
            r.word_infos@ == entries@,
            r.strings@ == strings@,
            r.num_total_entries == num_total_entries,
    {
        BinaryLexicon {
            word_id_table: WordIdTable::from_bytes(word_pointers),
            word_params: WordParams::from_bytes(entries),
            word_infos: WordInfos::from_bytes(entries),
            strings: CompactedStrings::from_bytes(strings),
            num_total_entries,
        }
    }
}

/// The first `n` fields of a part of speech at the start of `s`, each a
/// length-prefixed UTF-16 string, and the bytes after them.
pub open spec fn spec_pos_fields(s: Seq<u8>, n: nat) -> Option<(Seq<u8>, Seq<Seq<char>>)>
    decreases n,
{
    if n == 0 {
        Some((s, Seq::empty()))
    } else {
        match spec_pos_fields(s, (n - 1) as nat) {
            None => None,
            Some((rest, fields)) => match spec_utf16_string(rest) {
                None => None,
                Some((rest2, f)) => Some((rest2, fields.push(f))),
            },
        }
    }
}

/// The first `n` parts of speech at the start of `s`, six fields each, and the bytes
/// after them.
pub open spec fn spec_pos_rows_read(s: Seq<u8>, n: nat) -> Option<(Seq<u8>, Seq<Seq<Seq<char>>>)>
    decreases n,
{
    if n == 0 {
        Some((s, Seq::empty()))
    } else {
        match spec_pos_rows_read(s, (n - 1) as nat) {
            None => None,
            Some((rest, rows)) => match spec_pos_fields(rest, 6) {
                None => None,
                Some((rest2, row)) => Some((rest2, rows.push(row))),
            },
        }
    }
}

/// The part-of-speech table stored at the start of `s`: a `u16` count, then the rows.
pub open spec fn spec_pos_table(s: Seq<u8>) -> Option<Seq<Seq<Seq<char>>>> {
    if s.len() < 2 {
        None
    } else {
        match spec_pos_rows_read(s.skip(2), spec_le_u16(s) as nat) {
            None => None,
            Some((_, rows)) => Some(rows),
        }
    }
}

/// Reads the six fields of a part of speech.
fn read_pos_fields(input: &[u8]) -> (r: SudachiResult<(&[u8], Vec<String>)>)
    ensures
        r is Ok <==> spec_pos_fields(input@, 6) is Some,
        r matches Ok((rest, fields)) ==> spec_pos_fields(input@, 6) == Some(
            (rest@, fields@.map_values(|f: String| f@)),
        ),
{
    let mut rest = input;
    let mut fields: Vec<String> = Vec::new();
    let mut i: usize = 0;
    assert(fields@.map_values(|f: String| f@) =~= Seq::<Seq<char>>::empty());
    while i < 6
        invariant
            i <= 6,
            spec_pos_fields(input@, i as nat) == Some((rest@, fields@.map_values(|f: String| f@))),
        decreases 6 - i,
    {
        match utf16_string(rest) {
            Ok((r2, f)) => {
                proof {
                    assert(fields@.push(f).map_values(|x: String| x@) =~= fields@.map_values(
                        |x: String| x@,
                    ).push(f@));
                }
                fields.push(f);
                rest = r2;
            },
            Err(e) => {
                proof {
                    lemma_pos_fields_fail(input@, i as nat, 6);
                }
                return Err(e);
            },
        }
        i = i + 1;
    }
    Ok((rest, fields))
}

proof fn lemma_pos_fields_fail(s: Seq<u8>, i: nat, n: nat)
    requires
        i < n,
        spec_pos_fields(s, (i + 1) as nat) is None,
    ensures
        spec_pos_fields(s, n) is None,
    decreases n,
{
    if n > i + 1 {
        lemma_pos_fields_fail(s, i, (n - 1) as nat);
    }
}

proof fn lemma_pos_rows_fail(s: Seq<u8>, i: nat, n: nat)
    requires
        i < n,
        spec_pos_rows_read(s, (i + 1) as nat) is None,
    ensures
        spec_pos_rows_read(s, n) is None,
    decreases n,
{
    if n > i + 1 {
        lemma_pos_rows_fail(s, i, (n - 1) as nat);
    }
}

/// Reads the part-of-speech table: a `u16` count, then that many rows of six fields.
pub fn read_pos_table(bytes: &[u8]) -> (r: SudachiResult<Vec<Vec<String>>>)
    ensures
        r is Ok <==> spec_pos_table(bytes@) is Some,
        r matches Ok(rows) ==> spec_pos_table(bytes@) == Some(
            rows@.map_values(|row: Vec<String>| row@.map_values(|f: String| f@)),
        ),
{
    let (mut rest, count) = match le_u16(bytes) {
        Ok(v) => v,
        Err(e) => return Err(e),
    };
    let mut rows: Vec<Vec<String>> = Vec::new();
    let mut i: u16 = 0;
    assert(rows@.map_values(|row: Vec<String>| row@.map_values(|f: String| f@)) =~= Seq::<
        Seq<Seq<char>>,
    >::empty());
    while i < count
        invariant
            i <= count,
            count == spec_le_u16(bytes@),
            bytes@.len() >= 2,
            spec_pos_rows_read(bytes@.skip(2), i as nat) == Some(
                (rest@, rows@.map_values(|row: Vec<String>| row@.map_values(|f: String| f@))),
            ),
        decreases count - i,
    {
        match read_pos_fields(rest) {
            Ok((r2, fields)) => {
                proof {
                    assert(rows@.push(fields).map_values(
                        |row: Vec<String>| row@.map_values(|f: String| f@),
                    ) =~= rows@.map_values(|row: Vec<String>| row@.map_values(|f: String| f@)).push(
                        fields@.map_values(|f: String| f@),
                    ));
                }
                rows.push(fields);
                rest = r2;
            },
            Err(e) => {
                proof {
                    lemma_pos_rows_fail(bytes@.skip(2), i as nat, count as nat);
                }
                return Err(e);
            },
        }
        i = i + 1;
    }
    Ok(rows)
}

/// The grammar part of a binary dictionary.
pub struct BinaryGrammar {
    /// The parts of speech.
    pub pos_list: Vec<Vec<String>>,
    /// The connection cost matrix; only a system dictionary has one.
    pub connection: Option<ConnectionMatrix>,
}

impl BinaryGrammar {
    /// The grammar made of its blocks: the part-of-speech table, and the connection
    /// matrix when there is one (which is read first).
    pub fn load(pos_table: &[u8], connection: Option<&[u8]>) -> (r: SudachiResult<Self>)
        ensures
            r is Ok <==> (connection matches Some(c) ==> spec_matrix_readable(c@)) && spec_pos_table(
                pos_table@,
            ) is Some,
            r matches Ok(g) ==> spec_pos_table(pos_table@) == Some(
                g.pos_list@.map_values(|row: Vec<String>| row@.map_values(|f: String| f@)),
            ) && (g.connection is Some <==> connection is Some),
            r matches Ok(g) ==> (g.connection matches Some(m) ==> connection matches Some(c)
                && m.spec_num_left() == spec_le_u16(c@) as i16 && m.spec_num_right() == spec_le_u16(
                c@.skip(2),
            ) as i16 && m.spec_costs() == spec_le_i16s(
                c@.skip(4),
                m.spec_num_left() * m.spec_num_right(),
            )),
    {
        let connection = match connection {
            Some(bytes) => match ConnectionMatrix::from_bytes(bytes) {
                Ok(m) => Some(m),
                Err(e) => return Err(e),
            },
            None => None,
        };
        let pos_list = match read_pos_table(pos_table) {
            Ok(v) => v,
            Err(e) => return Err(e),
        };
        Ok(BinaryGrammar { pos_list, connection })
    }
}

proof fn lemma_pos_fields_of_written(row: Seq<Seq<char>>, n: nat, rest: Seq<u8>)
    requires
        n <= row.len(),
        forall|j: int| 0 <= j < n ==> spec_utf16_encode(#[trigger] row[j]).len() <= 0x7fff,
    ensures
        spec_pos_fields(pos_row_bytes(row, n) + rest, n) == Some((rest, row.take(n as int))),
    decreases n,
{
    if n > 0 {
        let m = (n - 1) as nat;
        let f = row[m as int];
        let tail = crate::dic::word_info::variable_io::spec_utf16_string_bytes(f) + rest;
        lemma_pos_fields_of_written(row, m, tail);
        assert(pos_row_bytes(row, n) + rest =~= pos_row_bytes(row, m) + tail);
        lemma_utf16_string_round_trip(f, rest);
        assert(row.take(m as int).push(f) =~= row.take(n as int));
    } else {
        assert(row.take(0) =~= Seq::<Seq<char>>::empty());
    }
}

proof fn lemma_pos_rows_of_written(
    rows: Seq<(Seq<Seq<char>>, u16)>,
    start: usize,
    n: nat,
    rest: Seq<u8>,
)
    requires
        start <= n <= rows.len(),
        forall|i: int| 0 <= i < rows.len() ==> #[trigger] rows[i].1 == i,
        forall|i: int| 0 <= i < rows.len() ==> (#[trigger] rows[i].0).len() == 6,
        forall|i: int, j: int|
            0 <= i < rows.len() && 0 <= j < 6 ==> spec_utf16_encode(#[trigger] rows[i].0[j]).len()
                <= 0x7fff,
    ensures
        spec_pos_rows_read(pos_rows_bytes(rows, start, n) + rest, (n - start) as nat) == Some(
            (rest, row_keys(rows).subrange(start as int, n as int)),
        ),
    decreases n,
{
    if n > start {
        let m = (n - 1) as nat;
        let row = rows[m as int].0;
        assert(rows[m as int].1 == m);
        let tail = pos_row_bytes(row, 6) + rest;
        lemma_pos_rows_of_written(rows, start, m, tail);
        assert(pos_rows_bytes(rows, start, n) + rest =~= pos_rows_bytes(rows, start, m) + tail);
        lemma_pos_fields_of_written(row, 6, rest);
        assert(row.take(6) =~= row);
        assert(row_keys(rows).subrange(start as int, m as int).push(row) =~= row_keys(rows).subrange(
            start as int,
            n as int,
        ));
    } else {
        assert(pos_rows_bytes(rows, start, n) == Seq::<u8>::empty()) by {
            lemma_pos_rows_bytes_before(rows, start, n);
        }
        assert(Seq::<u8>::empty() + rest =~= rest);
        assert(row_keys(rows).subrange(start as int, n as int) =~= Seq::<Seq<Seq<char>>>::empty());
    }
}

proof fn lemma_pos_rows_bytes_before(rows: Seq<(Seq<Seq<char>>, u16)>, start: usize, n: nat)
    requires
        n <= start,
        n <= rows.len(),
        forall|i: int| 0 <= i < rows.len() ==> #[trigger] rows[i].1 == i,
    ensures
        pos_rows_bytes(rows, start, n) == Seq::<u8>::empty(),
    decreases n,
{
    if n > 0 {
        assert(rows[n - 1].1 == n - 1);
        lemma_pos_rows_bytes_before(rows, start, (n - 1) as nat);
    }
}

/// A part-of-speech table written from rows whose ids are their places reads back as
/// the rows written: those from `start` on, in order.
pub proof fn pos_table_reads_back(rows: Seq<(Seq<Seq<char>>, u16)>, start: usize)
    requires
        start <= rows.len() <= 0xffff,
        forall|i: int| 0 <= i < rows.len() ==> #[trigger] rows[i].1 == i,
        forall|i: int| 0 <= i < rows.len() ==> (#[trigger] rows[i].0).len() == 6,
        forall|i: int, j: int|
            0 <= i < rows.len() && 0 <= j < 6 ==> spec_utf16_encode(#[trigger] rows[i].0[j]).len()
                <= 0x7fff,
    ensures
        spec_pos_table(
            spec_u16_to_le_bytes((rows.len() - start) as u16) + pos_rows_bytes(rows, start, rows.len()),
        ) == Some(row_keys(rows).skip(start as int)),
{
    let body = pos_rows_bytes(rows, start, rows.len());
    let all = spec_u16_to_le_bytes((rows.len() - start) as u16) + body;
    crate::dic::read::primitives::lemma_le_u16_round_trip((rows.len() - start) as u16, body);
    assert(all.skip(2) =~= body);
    lemma_pos_rows_of_written(rows, start, rows.len(), Seq::empty());
    assert(body + Seq::<u8>::empty() =~= body);
    assert(row_keys(rows).subrange(start as int, rows.len() as int) =~= row_keys(rows).skip(
        start as int,
    ));
}

} // verus!
