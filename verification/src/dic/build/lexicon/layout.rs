//! Where the columns of a lexicon source are: the fixed places of a legacy source,
//! or the places its header row names.
use vstd::prelude::*;

use crate::dic::build::error::BuildFailure;
use crate::dic::build::pos::{ascii_lower, fields_view, normalize_name};
use crate::util::{char_from_u32, chars_of, str_eq, string_from_chars};

verus! {

/// A column of a lexicon source.
#[derive(Clone, Copy, Debug, PartialEq, Eq, Structural)]
pub enum Column {
    IndexForm,
    LeftId,
    RightId,
    Cost,
    Headword,
    Pos1,
    Pos2,
    Pos3,
    Pos4,
    Pos5,
    Pos6,
    PosId,
    ReadingForm,
    NormalizedForm,
    DictionaryForm,
    Mode,
    SplitA,
    SplitB,
    SplitC,
    WordStructure,
    SynonymGroups,
    UserData,
}

/// The number of columns.
pub const COLUMN_COUNT: usize = 22;

/// The place of a column in a column mapping.
pub open spec fn lex_column_index(c: Column) -> int {
    match c {
        Column::IndexForm => 0,
        Column::LeftId => 1,
        Column::RightId => 2,
        Column::Cost => 3,
        Column::Headword => 4,
        Column::Pos1 => 5,
        Column::Pos2 => 6,
        Column::Pos3 => 7,
        Column::Pos4 => 8,
        Column::Pos5 => 9,
        Column::Pos6 => 10,
        Column::PosId => 11,
        Column::ReadingForm => 12,
        Column::NormalizedForm => 13,
        Column::DictionaryForm => 14,
        Column::Mode => 15,
        Column::SplitA => 16,
        Column::SplitB => 17,
        Column::SplitC => 18,
        Column::WordStructure => 19,
        Column::SynonymGroups => 20,
        Column::UserData => 21,
    }
}

/// The name of a column in a header row and in error reports.
pub open spec fn lex_column_label(c: Column) -> Seq<char> {
    match c {
        Column::IndexForm => "index_form"@,
        Column::LeftId => "left_id"@,
        Column::RightId => "right_id"@,
        Column::Cost => "cost"@,
        Column::Headword => "headword"@,
        Column::Pos1 => "pos1"@,
        Column::Pos2 => "pos2"@,
        Column::Pos3 => "pos3"@,
        Column::Pos4 => "pos4"@,
        Column::Pos5 => "pos5"@,
        Column::Pos6 => "pos6"@,
        Column::PosId => "pos_id"@,
        Column::ReadingForm => "reading_form"@,
        Column::NormalizedForm => "normalized_form"@,
        Column::DictionaryForm => "dictionary_form"@,
        Column::Mode => "mode"@,
        Column::SplitA => "split_a"@,
        Column::SplitB => "split_b"@,
        Column::SplitC => "split_c"@,
        Column::WordStructure => "word_structure"@,
        Column::SynonymGroups => "synonym_groups"@,
        Column::UserData => "user_data"@,
    }
}

/// The column a normalized header name names.
pub open spec fn lex_column_named(n: Seq<char>) -> Option<Column> {
    if n == "indexform"@ {
        Some(Column::IndexForm)
    } else if n == "leftid"@ {
        Some(Column::LeftId)
    } else if n == "rightid"@ {
        Some(Column::RightId)
    } else if n == "cost"@ {
        Some(Column::Cost)
    } else if n == "headword"@ {
        Some(Column::Headword)
    } else if n == "pos1"@ {
        Some(Column::Pos1)
    } else if n == "pos2"@ {
        Some(Column::Pos2)
    } else if n == "pos3"@ {
        Some(Column::Pos3)
    } else if n == "pos4"@ {
        Some(Column::Pos4)
    } else if n == "pos5"@ {
        Some(Column::Pos5)
    } else if n == "pos6"@ {
        Some(Column::Pos6)
    } else if n == "posid"@ {
        Some(Column::PosId)
    } else if n == "readingform"@ {
        Some(Column::ReadingForm)
    } else if n == "normalizedform"@ {
        Some(Column::NormalizedForm)
    } else if n == "dictionaryform"@ {
        Some(Column::DictionaryForm)
    } else if n == "mode"@ {
        Some(Column::Mode)
    } else if n == "splita"@ {
        Some(Column::SplitA)
    } else if n == "splitb"@ {
        Some(Column::SplitB)
    } else if n == "splitc"@ {
        Some(Column::SplitC)
    } else if n == "wordstructure"@ {
        Some(Column::WordStructure)
    } else if n == "synonymgroups"@ {
        Some(Column::SynonymGroups)
    } else if n == "userdata"@ {
        Some(Column::UserData)
    } else {
        None
    }
}

/// The places of the columns of a legacy source, -1 for the columns it does not have.
pub open spec fn legacy_lex_map() -> Seq<int> {
    seq![0int, 1, 2, 3, 4, 5, 6, 7, 8, 9, 10, -1, 11, 12, 13, 14, 15, 16, -1, 17, 18, -1]
}

/// A source without a header row has its columns in this order: index form, left
/// id, right id, cost, headword, the six part-of-speech fields, reading form,
/// normalized form, dictionary form, mode, A splits, B splits, word structure and
/// synonym groups; it has no part-of-speech id, C splits or user data.
pub proof fn legacy_rows_place_columns_in_order()
    ensures
        ({
            let m = legacy_lex_map();
            &&& m.len() == COLUMN_COUNT
            &&& m[lex_column_index(Column::IndexForm)] == 0
            &&& m[lex_column_index(Column::LeftId)] == 1
            &&& m[lex_column_index(Column::RightId)] == 2
            &&& m[lex_column_index(Column::Cost)] == 3
            &&& m[lex_column_index(Column::Headword)] == 4
            &&& m[lex_column_index(Column::Pos1)] == 5
            &&& m[lex_column_index(Column::Pos2)] == 6
            &&& m[lex_column_index(Column::Pos3)] == 7
            &&& m[lex_column_index(Column::Pos4)] == 8
            &&& m[lex_column_index(Column::Pos5)] == 9
            &&& m[lex_column_index(Column::Pos6)] == 10
            &&& m[lex_column_index(Column::ReadingForm)] == 11
            &&& m[lex_column_index(Column::NormalizedForm)] == 12
            &&& m[lex_column_index(Column::DictionaryForm)] == 13
            &&& m[lex_column_index(Column::Mode)] == 14
            &&& m[lex_column_index(Column::SplitA)] == 15
            &&& m[lex_column_index(Column::SplitB)] == 16
            &&& m[lex_column_index(Column::WordStructure)] == 17
            &&& m[lex_column_index(Column::SynonymGroups)] == 18
            &&& m[lex_column_index(Column::PosId)] == -1
            &&& m[lex_column_index(Column::SplitC)] == -1
            &&& m[lex_column_index(Column::UserData)] == -1
        }),
{
}

/// A mapping that places no column.
pub open spec fn empty_lex_map() -> Seq<int> {
    Seq::new(22, |i: int| -1int)
}

/// Where the columns of a lexicon source are.
#[derive(Clone, Debug)]
pub enum ColumnLayout {
    /// The fixed places of a source without a header row.
    Legacy,
    /// The place of each column, -1 for a column that is not there, in the order of
    /// [`lex_column_index`].
    Header(Vec<i16>),
}

/// The place of each column of a layout (-1 when it is not there).
pub open spec fn lex_layout_map(l: ColumnLayout) -> Seq<int> {
    match l {
        ColumnLayout::Legacy => legacy_lex_map(),
        ColumnLayout::Header(m) => m@.map_values(|x: i16| x as int),
    }
}

/// Why a header row is refused.
pub enum LexHeaderFailure {
    InvalidName,
    Duplicated,
}

/// The columns that the fields of a header row name.
pub open spec fn lex_header_columns(fields: Seq<Seq<char>>) -> Seq<Option<Column>> {
    fields.map_values(|f: Seq<char>| lex_column_named(normalize_name(f)))
}

/// The mapping that a header row gives, taking its fields in order: each must name a
/// column that no earlier field named.
pub open spec fn lex_scan_header(cols: Seq<Option<Column>>) -> Result<Seq<int>, LexHeaderFailure>
    decreases cols.len(),
{
    if cols.len() == 0 {
        Ok(empty_lex_map())
    } else {
        match lex_scan_header(cols.drop_last()) {
            Err(e) => Err(e),
            Ok(m) => match cols.last() {
                None => Err(LexHeaderFailure::InvalidName),
                Some(c) => if m[lex_column_index(c)] >= 0 {
                    Err(LexHeaderFailure::Duplicated)
                } else {
                    Ok(m.update(lex_column_index(c), cols.len() - 1))
                },
            },
        }
    }
}

/// The layout that the first row of a source gives, and whether that row is a header
/// to skip: a row whose first field names the index form column is a header, any
/// other row is a legacy entry.
pub open spec fn lex_record_layout(fields: Seq<Seq<char>>) -> Result<(Seq<int>, bool), LexHeaderFailure> {
    if fields.len() > 0 && normalize_name(fields[0]) == "indexform"@ {
        match lex_scan_header(lex_header_columns(fields)) {
            Err(e) => Err(e),
            Ok(m) => Ok((m, true)),
        }
    } else {
        Ok((legacy_lex_map(), false))
    }
}

/// Whether `e` is the error that a refused header is reported with.
pub open spec fn lex_header_failure(h: LexHeaderFailure, e: BuildFailure) -> bool {
    match h {
        LexHeaderFailure::InvalidName => e matches BuildFailure::NoRawField(m) && m@
            == "INVALID_COLUMN_NAME"@,
        LexHeaderFailure::Duplicated => e matches BuildFailure::NoRawField(m) && m@
            == "DUPLICATED_COLUMN_NAME"@,
    }
}

proof fn lemma_lex_scan_header_stays_failed(cols: Seq<Option<Column>>, k: int)
    requires
        0 <= k <= cols.len(),
        lex_scan_header(cols.take(k)) is Err,
    ensures
        lex_scan_header(cols) == lex_scan_header(cols.take(k)),
    decreases cols.len(),
{
    if k < cols.len() {
        assert(cols.drop_last().take(k) =~= cols.take(k));
        lemma_lex_scan_header_stays_failed(cols.drop_last(), k);
    } else {
        assert(cols.take(k) =~= cols);
    }
}

proof fn lemma_code_char(c: char, v: int)
    requires
        c as u32 == v,
    ensures
        v as char == c,
{
}

/// A header name with underscores dropped and ASCII letters in lower case.
fn normalized(data: &str) -> (r: String)
    ensures
        r@ == normalize_name(data@),
{
    let cs = chars_of(data);
    let mut out: Vec<char> = Vec::new();
    let mut i: usize = 0;
    while i < cs.len()
        invariant
            i <= cs@.len(),
            cs@ == data@,
            out@ == normalize_name(cs@.take(i as int)),
        decreases cs@.len() - i,
    {
        let c = cs[i];
        proof {
            assert(cs@.take(i + 1).drop_last() =~= cs@.take(i as int));
            assert(cs@.take(i + 1).last() == c);
        }
        if c != '_' {
            if 'A' <= c && c <= 'Z' {
                let lower = char_from_u32((c as u32) + 32).unwrap();
                proof {
                    lemma_code_char(lower, (c as int) + 32);
                }
                out.push(lower);
            } else {
                out.push(c);
            }
        }
        i = i + 1;
    }
    proof {
        assert(cs@.take(cs@.len() as int) =~= cs@);
    }
    string_from_chars(out.as_slice())
}

impl Column {
    /// The place of the column in a column mapping.
    pub fn as_usize(self) -> (r: usize)
        ensures
            r == lex_column_index(self),
            r < COLUMN_COUNT,
    {
        match self {
            Column::IndexForm => 0,
            Column::LeftId => 1,
            Column::RightId => 2,
            Column::Cost => 3,
            Column::Headword => 4,
            Column::Pos1 => 5,
            Column::Pos2 => 6,
            Column::Pos3 => 7,
            Column::Pos4 => 8,
            Column::Pos5 => 9,
            Column::Pos6 => 10,
            Column::PosId => 11,
            Column::ReadingForm => 12,
            Column::NormalizedForm => 13,
            Column::DictionaryForm => 14,
            Column::Mode => 15,
            Column::SplitA => 16,
            Column::SplitB => 17,
            Column::SplitC => 18,
            Column::WordStructure => 19,
            Column::SynonymGroups => 20,
            Column::UserData => 21,
        }
    }

    /// The name of the column.
    pub fn label(self) -> (r: &'static str)
        ensures
            r@ == lex_column_label(self),
    {
        match self {
            Column::IndexForm => "index_form",
            Column::LeftId => "left_id",
            Column::RightId => "right_id",
            Column::Cost => "cost",
            Column::Headword => "headword",
            Column::Pos1 => "pos1",
            Column::Pos2 => "pos2",
            Column::Pos3 => "pos3",
            Column::Pos4 => "pos4",
            Column::Pos5 => "pos5",
            Column::Pos6 => "pos6",
            Column::PosId => "pos_id",
            Column::ReadingForm => "reading_form",
            Column::NormalizedForm => "normalized_form",
            Column::DictionaryForm => "dictionary_form",
            Column::Mode => "mode",
            Column::SplitA => "split_a",
            Column::SplitB => "split_b",
            Column::SplitC => "split_c",
            Column::WordStructure => "word_structure",
            Column::SynonymGroups => "synonym_groups",
            Column::UserData => "user_data",
        }
    }

    /// The column a header field names, ignoring underscores and ASCII case.
    pub fn from_name(data: &str) -> (r: Option<Self>)
        ensures
            r == lex_column_named(normalize_name(data@)),
    {
        let normal = normalized(data);
        let n = normal.as_str();
        if str_eq(n, "indexform") {
            Some(Column::IndexForm)
        } else if str_eq(n, "leftid") {
            Some(Column::LeftId)
        } else if str_eq(n, "rightid") {
            Some(Column::RightId)
        } else if str_eq(n, "cost") {
            Some(Column::Cost)
        } else if str_eq(n, "headword") {
            Some(Column::Headword)
        } else if str_eq(n, "pos1") {
            Some(Column::Pos1)
        } else if str_eq(n, "pos2") {
            Some(Column::Pos2)
        } else if str_eq(n, "pos3") {
            Some(Column::Pos3)
        } else if str_eq(n, "pos4") {
            Some(Column::Pos4)
        } else if str_eq(n, "pos5") {
            Some(Column::Pos5)
        } else if str_eq(n, "pos6") {
            Some(Column::Pos6)
        } else if str_eq(n, "posid") {
            Some(Column::PosId)
        } else if str_eq(n, "readingform") {
            Some(Column::ReadingForm)
        } else if str_eq(n, "normalizedform") {
            Some(Column::NormalizedForm)
        } else if str_eq(n, "dictionaryform") {
            Some(Column::DictionaryForm)
        } else if str_eq(n, "mode") {
            Some(Column::Mode)
        } else if str_eq(n, "splita") {
            Some(Column::SplitA)
        } else if str_eq(n, "splitb") {
            Some(Column::SplitB)
        } else if str_eq(n, "splitc") {
            Some(Column::SplitC)
        } else if str_eq(n, "wordstructure") {
            Some(Column::WordStructure)
        } else if str_eq(n, "synonymgroups") {
            Some(Column::SynonymGroups)
        } else if str_eq(n, "userdata") {
            Some(Column::UserData)
        } else {
            None
        }
    }
}

impl ColumnLayout {
    /// The layout of a source, from its first row, and whether that row is a header.
    pub fn from_record(record: &[String]) -> (r: Result<(ColumnLayout, bool), BuildFailure>)
        ensures
            match lex_record_layout(fields_view(record@)) {
                Ok((m, skip)) => r matches Ok((l, s)) && lex_layout_map(l) == m && s == skip,
                Err(h) => r matches Err(e) && lex_header_failure(h, e),
            },
            r matches Ok((l, _)) ==> lex_layout_map(l).len() == COLUMN_COUNT,
            r matches Ok((l, s)) ==> (l is Legacy <==> !s),
    {
        let ghost fields = fields_view(record@);
        if record.len() == 0 {
            return Ok((ColumnLayout::Legacy, false));
        }
        assert(fields[0] == record@[0]@);
        let first = normalized(record[0].as_str());
        if !str_eq(first.as_str(), "indexform") {
            return Ok((ColumnLayout::Legacy, false));
        }
        let ghost cols = lex_header_columns(fields);
        let mut mapping: Vec<i16> = Vec::new();
        let mut z: usize = 0;
        while z < COLUMN_COUNT
            invariant
                z <= COLUMN_COUNT,
                mapping@.len() == z,
                forall|j: int| 0 <= j < z ==> mapping@[j] == -1,
            decreases COLUMN_COUNT - z,
        {
            mapping.push(-1);
            z = z + 1;
        }
        let mut k: usize = 0;
        assert(cols.take(0) =~= Seq::<Option<Column>>::empty());
        assert(mapping@.map_values(|x: i16| x as int) =~= empty_lex_map());
        proof {
            lemma_placed_none(empty_lex_map());
        }
        while k < record.len()
            invariant
                k <= record@.len(),
                fields == fields_view(record@),
                cols == lex_header_columns(fields),
                fields.len() > 0 && normalize_name(fields[0]) == "indexform"@,
                mapping@.len() == COLUMN_COUNT,
                lex_scan_header(cols.take(k as int)) == Ok::<Seq<int>, LexHeaderFailure>(
                    mapping@.map_values(|x: i16| x as int),
                ),
                forall|j: int| 0 <= j < COLUMN_COUNT ==> -1 <= #[trigger] mapping@[j] < k,
                placed(mapping@.map_values(|x: i16| x as int)) == k,
            decreases record@.len() - k,
        {
            let ghost m = mapping@.map_values(|x: i16| x as int);
            proof {
                assert(cols.take(k + 1).drop_last() =~= cols.take(k as int));
                assert(cols.take(k + 1).last() == cols[k as int]);
                assert(fields[k as int] == record@[k as int]@);
            }
            let col = match Column::from_name(record[k].as_str()) {
                Some(c) => c,
                None => {
                    proof {
                        lemma_lex_scan_header_stays_failed(cols, k + 1);
                    }
                    return Err(BuildFailure::NoRawField("INVALID_COLUMN_NAME"));
                },
            };
            let ci = col.as_usize();
            if mapping[ci] >= 0 {
                proof {
                    lemma_lex_scan_header_stays_failed(cols, k + 1);
                }
                return Err(BuildFailure::NoRawField("DUPLICATED_COLUMN_NAME"));
            }
            proof {
                lemma_placed_update(m, ci as int, k as int);
                lemma_placed_bound(m.update(ci as int, k as int));
            }
            mapping.set(ci, k as i16);
            proof {
                assert(mapping@.map_values(|x: i16| x as int) =~= m.update(ci as int, k as int));
            }
            k = k + 1;
        }
        proof {
            assert(cols.take(k as int) =~= cols);
        }
        Ok((ColumnLayout::Header(mapping), true))
    }

    /// Where a column is in a row, if the layout has it.
    pub fn index(&self, col: Column) -> (r: Option<usize>)
        requires
            lex_layout_map(*self).len() == COLUMN_COUNT,
        ensures
            r is None <==> lex_layout_map(*self)[lex_column_index(col)] < 0,
            r matches Some(i) ==> i == lex_layout_map(*self)[lex_column_index(col)],
    {
        match self {
            ColumnLayout::Legacy => match col {
                Column::IndexForm => Some(0),
                Column::LeftId => Some(1),
                Column::RightId => Some(2),
                Column::Cost => Some(3),
                Column::Headword => Some(4),
                Column::Pos1 => Some(5),
                Column::Pos2 => Some(6),
                Column::Pos3 => Some(7),
                Column::Pos4 => Some(8),
                Column::Pos5 => Some(9),
                Column::Pos6 => Some(10),
                Column::PosId => None,
                Column::ReadingForm => Some(11),
                Column::NormalizedForm => Some(12),
                Column::DictionaryForm => Some(13),
                Column::Mode => Some(14),
                Column::SplitA => Some(15),
                Column::SplitB => Some(16),
                Column::SplitC => None,
                Column::WordStructure => Some(17),
                Column::SynonymGroups => Some(18),
                Column::UserData => None,
            },
            ColumnLayout::Header(mapping) => {
                let idx = mapping[col.as_usize()];
                if idx < 0 {
                    None
                } else {
                    Some(idx as usize)
                }
            },
        }
    }

    /// Whether the layout is that of a source without a header row.
    pub fn is_legacy(&self) -> (r: bool)
        ensures
            r == (*self is Legacy),
    {
        match self {
            ColumnLayout::Legacy => true,
            ColumnLayout::Header(_) => false,
        }
    }
}

/// The number of places of a mapping that hold a column.
pub open spec fn placed(m: Seq<int>) -> nat
    decreases m.len(),
{
    if m.len() == 0 {
        0
    } else {
        placed(m.drop_last()) + if m.last() >= 0 {
            1nat
        } else {
            0nat
        }
    }
}

proof fn lemma_placed_none(m: Seq<int>)
    requires
        forall|j: int| 0 <= j < m.len() ==> m[j] < 0,
    ensures
        placed(m) == 0,
    decreases m.len(),
{
    if m.len() > 0 {
        lemma_placed_none(m.drop_last());
    }
}

proof fn lemma_placed_bound(m: Seq<int>)
    ensures
        placed(m) <= m.len(),
    decreases m.len(),
{
    if m.len() > 0 {
        lemma_placed_bound(m.drop_last());
    }
}

proof fn lemma_placed_update(m: Seq<int>, i: int, v: int)
    requires
        0 <= i < m.len(),
        m[i] < 0,
        v >= 0,
    ensures
        placed(m.update(i, v)) == placed(m) + 1,
    decreases m.len(),
{
    if i == m.len() - 1 {
        assert(m.update(i, v).drop_last() =~= m.drop_last());
    } else {
        assert(m.update(i, v).drop_last() =~= m.drop_last().update(i, v));
        lemma_placed_update(m.drop_last(), i, v);
    }
}

} // verus!
