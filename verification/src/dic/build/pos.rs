//! Reading the part-of-speech table from CSV text.
use vstd::prelude::*;

use crate::dic::build::error::{BuildFailure, DicBuildError};
use crate::dic::build::lexicon::{pos_index, opt_text, pos_row_outcome, pos_row_failure, LexiconReader, PosRowOutcome};
use crate::dic::build::parse::{parse_i16, spec_parse_i16, unescape, unescape_from};
use crate::util::{char_from_u32, chars_of, str_eq, string_from_chars};

verus! {

/// A column of the part-of-speech table.
#[derive(Clone, Copy, Debug, PartialEq, Eq, Structural)]
pub enum PosCsvColumn {
    PosId,
    Pos1,
    Pos2,
    Pos3,
    Pos4,
    Pos5,
    Pos6,
}

/// The place of a column in a column mapping.
pub open spec fn column_index(c: PosCsvColumn) -> int {
    match c {
        PosCsvColumn::PosId => 0,
        PosCsvColumn::Pos1 => 1,
        PosCsvColumn::Pos2 => 2,
        PosCsvColumn::Pos3 => 3,
        PosCsvColumn::Pos4 => 4,
        PosCsvColumn::Pos5 => 5,
        PosCsvColumn::Pos6 => 6,
    }
}

/// The name of a column in error reports.
pub open spec fn column_label(c: PosCsvColumn) -> Seq<char> {
    match c {
        PosCsvColumn::PosId => "POS_ID"@,
        PosCsvColumn::Pos1 => "POS1"@,
        PosCsvColumn::Pos2 => "POS2"@,
        PosCsvColumn::Pos3 => "POS3"@,
        PosCsvColumn::Pos4 => "POS4"@,
        PosCsvColumn::Pos5 => "POS5"@,
        PosCsvColumn::Pos6 => "POS6"@,
    }
}

/// `c` in ASCII lower case.
pub open spec fn ascii_lower(c: char) -> char {
    if 'A' <= c && c <= 'Z' {
        ((c as int) + 32) as char
    } else {
        c
    }
}

/// A header name with underscores dropped and ASCII letters in lower case.
pub open spec fn normalize_name(s: Seq<char>) -> Seq<char>
    decreases s.len(),
{
    if s.len() == 0 {
        Seq::empty()
    } else if s.last() == '_' {
        normalize_name(s.drop_last())
    } else {
        normalize_name(s.drop_last()).push(ascii_lower(s.last()))
    }
}

/// The column a normalized header name names.
pub open spec fn column_named(n: Seq<char>) -> Option<PosCsvColumn> {
    if n == "posid"@ {
        Some(PosCsvColumn::PosId)
    } else if n == "pos1"@ {
        Some(PosCsvColumn::Pos1)
    } else if n == "pos2"@ {
        Some(PosCsvColumn::Pos2)
    } else if n == "pos3"@ {
        Some(PosCsvColumn::Pos3)
    } else if n == "pos4"@ {
        Some(PosCsvColumn::Pos4)
    } else if n == "pos5"@ {
        Some(PosCsvColumn::Pos5)
    } else if n == "pos6"@ {
        Some(PosCsvColumn::Pos6)
    } else {
        None
    }
}

proof fn lemma_char_of_code(c: char, v: int)
    requires
        c as u32 == v,
    ensures
        v as char == c,
{
}

impl PosCsvColumn {
    /// The place of the column in a column mapping.
    pub fn as_usize(self) -> (r: usize)
        ensures
            r == column_index(self),
    {
        match self {
            PosCsvColumn::PosId => 0,
            PosCsvColumn::Pos1 => 1,
            PosCsvColumn::Pos2 => 2,
            PosCsvColumn::Pos3 => 3,
            PosCsvColumn::Pos4 => 4,
            PosCsvColumn::Pos5 => 5,
            PosCsvColumn::Pos6 => 6,
        }
    }

    /// The name of the column in error reports.
    pub fn label(self) -> (r: &'static str)
        ensures
            r@ == column_label(self),
    {
        match self {
            PosCsvColumn::PosId => "POS_ID",
            PosCsvColumn::Pos1 => "POS1",
            PosCsvColumn::Pos2 => "POS2",
            PosCsvColumn::Pos3 => "POS3",
            PosCsvColumn::Pos4 => "POS4",
            PosCsvColumn::Pos5 => "POS5",
            PosCsvColumn::Pos6 => "POS6",
        }
    }

    /// The column a header field names, ignoring underscores and ASCII case.
    pub fn from_str(data: &str) -> (r: Option<Self>)
        ensures
            r == column_named(normalize_name(data@)),
    {
        let cs = chars_of(data);
        let mut out: Vec<char> = Vec::new();
        let mut i: usize = 0;
        while i < cs.len()
            invariant
                i <= cs@.len(),
                cs@ == data@,
                out@ == normalize_name(cs@.take(i as int)),
            decreases cs@.len() - i,
        {
            let c = cs[i];
            proof {
                assert(cs@.take(i + 1).drop_last() =~= cs@.take(i as int));
                assert(cs@.take(i + 1).last() == c);
            }
            if c != '_' {
                if 'A' <= c && c <= 'Z' {
                    let lower = char_from_u32((c as u32) + 32).unwrap();
                    proof {
                        lemma_char_of_code(lower, (c as int) + 32);
                    }
                    out.push(lower);
                } else {
                    out.push(c);
                }
            }
            i = i + 1;
        }
        proof {
            assert(cs@.take(cs@.len() as int) =~= cs@);
        }
        let normalized = string_from_chars(out.as_slice());
        let n = normalized.as_str();
        if str_eq(n, "posid") {
            Some(PosCsvColumn::PosId)
        } else if str_eq(n, "pos1") {
            Some(PosCsvColumn::Pos1)
        } else if str_eq(n, "pos2") {
            Some(PosCsvColumn::Pos2)
        } else if str_eq(n, "pos3") {
            Some(PosCsvColumn::Pos3)
        } else if str_eq(n, "pos4") {
            Some(PosCsvColumn::Pos4)
        } else if str_eq(n, "pos5") {
            Some(PosCsvColumn::Pos5)
        } else if str_eq(n, "pos6") {
            Some(PosCsvColumn::Pos6)
        } else {
            None
        }
    }
}

/// The chars of each field of a record.
pub open spec fn fields_view(record: Seq<String>) -> Seq<Seq<char>> {
    record.map_values(|f: String| f@)
}

/// The chars of each field of each record.
pub open spec fn records_view(records: Seq<Vec<String>>) -> Seq<Seq<Seq<char>>> {
    records.map_values(|r: Vec<String>| fields_view(r@))
}

/// What the `csv` crate reads from `data`, with headers off, no trimming and records
/// of any length: the records read before the first error, and whether an error
/// stopped the reading.
pub uninterp spec fn csv_records(data: Seq<u8>) -> (Seq<Seq<Seq<char>>>, bool);

/// The lines that the `csv` crate reports for what it reads from `data` (with the same
/// settings): the line where each record read starts, and the line of the error that
/// stopped the reading (0 when none did or the error has no position).
pub uninterp spec fn csv_lines(data: Seq<u8>) -> (Seq<u64>, u64);

/// Reads the records of CSV text with `csv::Reader::into_records`, the reader built by
/// `csv::ReaderBuilder` with `has_headers(false)`, `Trim::None` and `flexible(true)`:
/// the fields of the records before the first error, whether an error came, the line
/// of each record (`StringRecord::position`) and the line of the error
/// (`csv::Error::position`). The contract only names these results (functions of the
/// bytes alone); what the crate accepts as CSV is not stated.
#[verifier::external_body]
pub(crate) fn read_csv_records(data: &[u8]) -> (r: (Vec<Vec<String>>, bool, Vec<u64>, u64))
    ensures
        (records_view(r.0@), r.1) == csv_records(data@),
        (r.2@, r.3) == csv_lines(data@),
        r.2@.len() == r.0@.len(),
{
    let (mut rows, mut lines) = (Vec::new(), Vec::new());
    let reader = csv::ReaderBuilder::new().has_headers(false).trim(csv::Trim::None).flexible(
        true,
    ).from_reader(data);
    for record in reader.into_records() {
        match record {
            Ok(r) => {
                lines.push(r.position().map_or(0, |p| p.line()));
                rows.push(r.iter().map(String::from).collect());
            },
            Err(e) => return (rows, true, lines, e.position().map_or(0, |p| p.line())),
        }
    }
    (rows, false, lines, 0)
}

/// Where the columns of the part-of-speech table are.
#[derive(Clone, Debug)]
pub enum PosColumnLayout {
    /// Six part-of-speech fields and no id.
    LegacyNoId,
    /// An id, then six part-of-speech fields.
    LegacyWithId,
    /// The place of each column, -1 for a column that is not there, in the order of
    /// [`column_index`].
    Header(Vec<i16>),
}

/// The mapping of a legacy table without ids.
pub open spec fn legacy_no_id_map() -> Seq<int> {
    seq![-1int, 0, 1, 2, 3, 4, 5]
}

/// The mapping of a legacy table with ids.
pub open spec fn legacy_with_id_map() -> Seq<int> {
    seq![0int, 1, 2, 3, 4, 5, 6]
}

/// The place of each column of a layout (-1 when it is not there), in the order of
/// [`column_index`].
pub open spec fn layout_map(l: PosColumnLayout) -> Seq<int> {
    match l {
        PosColumnLayout::LegacyNoId => legacy_no_id_map(),
        PosColumnLayout::LegacyWithId => legacy_with_id_map(),
        PosColumnLayout::Header(m) => m@.map_values(|x: i16| x as int),
    }
}

/// Why a header row is refused.
pub enum HeaderFailure {
    InvalidName,
    Duplicated,
    Missing(PosCsvColumn),
}

/// The columns that the fields of a header row name.
pub open spec fn header_columns(fields: Seq<Seq<char>>) -> Seq<Option<PosCsvColumn>> {
    fields.map_values(|f: Seq<char>| column_named(normalize_name(f)))
}

/// The mapping that a header row gives, taking its fields in order: each must name a
/// column that no earlier field named.
pub open spec fn scan_header(cols: Seq<Option<PosCsvColumn>>) -> Result<Seq<int>, HeaderFailure>
    decreases cols.len(),
{
    if cols.len() == 0 {
        Ok(seq![-1int, -1, -1, -1, -1, -1, -1])
    } else {
        match scan_header(cols.drop_last()) {
            Err(e) => Err(e),
            Ok(m) => match cols.last() {
                None => Err(HeaderFailure::InvalidName),
                Some(c) => if m[column_index(c)] >= 0 {
                    Err(HeaderFailure::Duplicated)
                } else {
                    Ok(m.update(column_index(c), cols.len() - 1))
                },
            },
        }
    }
}

/// The first of the six part-of-speech columns that a mapping lacks.
pub open spec fn first_missing(m: Seq<int>) -> Option<PosCsvColumn> {
    if m[1] < 0 {
        Some(PosCsvColumn::Pos1)
    } else if m[2] < 0 {
        Some(PosCsvColumn::Pos2)
    } else if m[3] < 0 {
        Some(PosCsvColumn::Pos3)
    } else if m[4] < 0 {
        Some(PosCsvColumn::Pos4)
    } else if m[5] < 0 {
        Some(PosCsvColumn::Pos5)
    } else if m[6] < 0 {
        Some(PosCsvColumn::Pos6)
    } else {
        None
    }
}

/// The layout that the first row of a table gives, and whether that row is a header
/// to skip: a row of six or more fields that starts with a number is a legacy row with
/// ids, a row of six other fields a legacy row without; any other row is a header.
pub open spec fn record_layout(fields: Seq<Seq<char>>) -> Result<(Seq<int>, bool), HeaderFailure> {
    if fields.len() >= 6 && spec_parse_i16(fields[0]) is Some {
        Ok((legacy_with_id_map(), false))
    } else if fields.len() == 6 {
        Ok((legacy_no_id_map(), false))
    } else {
        header_layout(header_columns(fields))
    }
}

/// The layout that a header row naming the columns `cols` gives: it must place each of
/// the six part-of-speech columns.
pub open spec fn header_layout(cols: Seq<Option<PosCsvColumn>>) -> Result<(Seq<int>, bool), HeaderFailure> {
    match scan_header(cols) {
        Err(e) => Err(e),
        Ok(m) => match first_missing(m) {
            Some(c) => Err(HeaderFailure::Missing(c)),
            None => Ok((m, true)),
        },
    }
}

proof fn lemma_scan_header_stays_failed(cols: Seq<Option<PosCsvColumn>>, k: int)
    requires
        0 <= k <= cols.len(),
        scan_header(cols.take(k)) is Err,
    ensures
        scan_header(cols) == scan_header(cols.take(k)),
    decreases cols.len(),
{
    if k < cols.len() {
        assert(cols.drop_last().take(k) =~= cols.take(k));
        lemma_scan_header_stays_failed(cols.drop_last(), k);
    } else {
        assert(cols.take(k) =~= cols);
    }
}

/// Whether `e` is the error that a refused header is reported with.
pub open spec fn header_failure(h: HeaderFailure, e: BuildFailure) -> bool {
    match h {
        HeaderFailure::InvalidName => e matches BuildFailure::NoRawField(m) && m@
            == "INVALID_POS_COLUMN_NAME"@,
        HeaderFailure::Duplicated => e matches BuildFailure::NoRawField(m) && m@
            == "DUPLICATED_POS_COLUMN_NAME"@,
        HeaderFailure::Missing(c) => e matches BuildFailure::NoRawField(m) && m@ == column_label(c),
    }
}

/// The number of columns that a mapping places.
pub open spec fn placed_count(m: Seq<int>) -> int {
    (if m[0] >= 0 { 1int } else { 0int }) + (if m[1] >= 0 { 1int } else { 0int }) + (if m[2] >= 0 {
        1int
    } else {
        0int
    }) + (if m[3] >= 0 { 1int } else { 0int }) + (if m[4] >= 0 { 1int } else { 0int }) + (if m[5]
        >= 0 {
        1int
    } else {
        0int
    }) + (if m[6] >= 0 { 1int } else { 0int })
}

impl PosColumnLayout {
    /// The layout of a table, from its first row, and whether that row is a header.
    pub fn from_record(record: &[String]) -> (r: Result<(PosColumnLayout, bool), BuildFailure>)
        ensures
            match record_layout(fields_view(record@)) {
                Ok((m, skip)) => r matches Ok((l, s)) && layout_map(l) == m && s == skip,
                Err(h) => r matches Err(e) && header_failure(h, e),
            },
            r matches Ok((l, _)) ==> layout_map(l).len() == 7,
    {
        let ghost fields = fields_view(record@);
        if record.len() >= 6 {
            assert(fields[0] == record@[0]@);
            if parse_i16(record[0].as_str()).is_ok() {
                return Ok((PosColumnLayout::LegacyWithId, false));
            }
            if record.len() == 6 {
                return Ok((PosColumnLayout::LegacyNoId, false));
            }
        }
        let ghost cols = header_columns(fields);
        assert(record_layout(fields) == header_layout(cols));
        let mut mapping: Vec<i16> = vec![-1i16, -1, -1, -1, -1, -1, -1];
        let mut k: usize = 0;
        assert(cols.take(0) =~= Seq::<Option<PosCsvColumn>>::empty());
        assert(mapping@.map_values(|x: i16| x as int) =~= seq![-1int, -1, -1, -1, -1, -1, -1]);
        while k < record.len()
            invariant
                k <= record@.len(),
                fields == fields_view(record@),
                cols == header_columns(fields),
                record_layout(fields) == header_layout(cols),
                mapping@.len() == 7,
                scan_header(cols.take(k as int)) == Ok::<Seq<int>, HeaderFailure>(
                    mapping@.map_values(|x: i16| x as int),
                ),
                placed_count(mapping@.map_values(|x: i16| x as int)) == k,
                forall|j: int| 0 <= j < 7 ==> -1 <= #[trigger] mapping@[j] < k,
            decreases record@.len() - k,
        {
            let ghost m = mapping@.map_values(|x: i16| x as int);
            proof {
                assert(cols.take(k + 1).drop_last() =~= cols.take(k as int));
                assert(cols.take(k + 1).last() == cols[k as int]);
                assert(fields[k as int] == record@[k as int]@);
            }
            let col = match PosCsvColumn::from_str(record[k].as_str()) {
                Some(c) => c,
                None => {
                    proof {
                        lemma_scan_header_stays_failed(cols, k + 1);
                    }
                    return Err(BuildFailure::NoRawField("INVALID_POS_COLUMN_NAME"));
                },
            };
            let ci = col.as_usize();
            if mapping[ci] >= 0 {
                proof {
                    lemma_scan_header_stays_failed(cols, k + 1);
                }
                return Err(BuildFailure::NoRawField("DUPLICATED_POS_COLUMN_NAME"));
            }
            assert(k < 7);
            mapping.set(ci, k as i16);
            proof {
                assert(mapping@.map_values(|x: i16| x as int) =~= m.update(ci as int, k as int));
            }
            k = k + 1;
        }
        proof {
            assert(cols.take(k as int) =~= cols);
        }
        if mapping[1] < 0 {
            return Err(BuildFailure::NoRawField("POS1"));
        }
        if mapping[2] < 0 {
            return Err(BuildFailure::NoRawField("POS2"));
        }
        if mapping[3] < 0 {
            return Err(BuildFailure::NoRawField("POS3"));
        }
        if mapping[4] < 0 {
            return Err(BuildFailure::NoRawField("POS4"));
        }
        if mapping[5] < 0 {
            return Err(BuildFailure::NoRawField("POS5"));
        }
        if mapping[6] < 0 {
            return Err(BuildFailure::NoRawField("POS6"));
        }
        Ok((PosColumnLayout::Header(mapping), true))
    }

    /// Where a column is in a row, if the layout has it.
    pub fn index(&self, col: PosCsvColumn) -> (r: Option<usize>)
        requires
            self is Header ==> layout_map(*self).len() == 7,
        ensures
            r is None <==> layout_map(*self)[column_index(col)] < 0,
            r matches Some(i) ==> i == layout_map(*self)[column_index(col)],
    {
        match self {
            PosColumnLayout::LegacyNoId => match col {
                PosCsvColumn::PosId => None,
                PosCsvColumn::Pos1 => Some(0),
                PosCsvColumn::Pos2 => Some(1),
                PosCsvColumn::Pos3 => Some(2),
                PosCsvColumn::Pos4 => Some(3),
                PosCsvColumn::Pos5 => Some(4),
                PosCsvColumn::Pos6 => Some(5),
            },
            PosColumnLayout::LegacyWithId => Some(col.as_usize()),
            PosColumnLayout::Header(mapping) => {
                let idx = mapping[col.as_usize()];
                if idx < 0 {
                    None
                } else {
                    Some(idx as usize)
                }
            },
        }
    }
}

/// Why reading the part-of-speech table failed.
pub enum PosTableFailure {
    /// The table came after lexicon entries or after other rows.
    LoadedTooLate,
    Header(HeaderFailure),
    MissingField(PosCsvColumn),
    BadEscape,
    Row(PosRowOutcome),
    Csv,
}

/// Whether `e` is the error that the failure `f` is reported with.
pub open spec fn pos_table_failure(f: PosTableFailure, e: BuildFailure) -> bool {
    match f {
        PosTableFailure::LoadedTooLate => e matches BuildFailure::InvalidSplit(m) && m@
            == "POS table must be loaded before lexicon"@,
        PosTableFailure::Header(h) => header_failure(h, e),
        PosTableFailure::MissingField(c) => e matches BuildFailure::NoRawField(m) && m@
            == column_label(c),
        PosTableFailure::BadEscape => e is InvalidCharLiteral,
        PosTableFailure::Row(o) => pos_row_failure(o, e),
        PosTableFailure::Csv => e is CsvError,
    }
}

/// The part-of-speech column at place `j` (1 to 6).
pub open spec fn pos_column_at(j: int) -> PosCsvColumn {
    if j == 1 {
        PosCsvColumn::Pos1
    } else if j == 2 {
        PosCsvColumn::Pos2
    } else if j == 3 {
        PosCsvColumn::Pos3
    } else if j == 4 {
        PosCsvColumn::Pos4
    } else if j == 5 {
        PosCsvColumn::Pos5
    } else {
        PosCsvColumn::Pos6
    }
}

/// The value of column `c` in a row, unescaped.
pub open spec fn field_value(fields: Seq<Seq<char>>, map: Seq<int>, c: PosCsvColumn) -> Result<
    Seq<char>,
    PosTableFailure,
> {
    let k = map[column_index(c)];
    if k < 0 || k >= fields.len() {
        Err(PosTableFailure::MissingField(c))
    } else {
        match unescape_from(fields[k], 0) {
            Some(v) => Ok(v),
            None => Err(PosTableFailure::BadEscape),
        }
    }
}

/// The values of the part-of-speech columns `j` to 6 of a row, taken in order.
pub open spec fn row_fields_from(fields: Seq<Seq<char>>, map: Seq<int>, j: int) -> Result<
    Seq<Seq<char>>,
    PosTableFailure,
>
    decreases 7 - j,
{
    if j < 1 || j > 6 {
        Ok(Seq::empty())
    } else {
        match field_value(fields, map, pos_column_at(j)) {
            Err(f) => Err(f),
            Ok(v) => match row_fields_from(fields, map, j + 1) {
                Err(f) => Err(f),
                Ok(rest) => Ok(seq![v] + rest),
            },
        }
    }
}

/// The text of the id field of a row, if the layout has one and the row reaches it.
pub open spec fn raw_id_of(fields: Seq<Seq<char>>, map: Seq<int>) -> Option<Seq<char>> {
    if 0 <= map[0] < fields.len() {
        Some(fields[map[0]])
    } else {
        None
    }
}

/// The table after adding one row.
pub open spec fn row_step(table: Seq<Seq<Seq<char>>>, fields: Seq<Seq<char>>, map: Seq<int>) -> Result<
    Seq<Seq<Seq<char>>>,
    PosTableFailure,
> {
    match row_fields_from(fields, map, 1) {
        Err(f) => Err(f),
        Ok(row) => {
            let o = pos_row_outcome(table, row, raw_id_of(fields, map));
            if o is Added {
                Ok(table.push(row))
            } else {
                Err(PosTableFailure::Row(o))
            }
        },
    }
}

/// The table after adding the rows in order, up to the first that fails, and that
/// failure.
pub open spec fn rows_after(
    table: Seq<Seq<Seq<char>>>,
    rows: Seq<Seq<Seq<char>>>,
    map: Seq<int>,
) -> (Seq<Seq<Seq<char>>>, Option<PosTableFailure>)
    decreases rows.len(),
{
    if rows.len() == 0 {
        (table, None)
    } else {
        let (t, f) = rows_after(table, rows.drop_last(), map);
        if f is Some {
            (t, f)
        } else {
            match row_step(t, rows.last(), map) {
                Ok(t2) => (t2, None),
                Err(g) => (t, Some(g)),
            }
        }
    }
}

/// What reading the rows of a part-of-speech table gives: the table after it, and the
/// number of rows read or the failure. `entries_loaded` tells whether lexicon entries
/// were read before. The first row decides the layout ([`record_layout`]) and is
/// skipped when it is a header.
pub open spec fn pos_rows_outcome(
    table: Seq<Seq<Seq<char>>>,
    entries_loaded: bool,
    rows: Seq<Seq<Seq<char>>>,
) -> (Seq<Seq<Seq<char>>>, Result<nat, PosTableFailure>) {
    if entries_loaded || table.len() > 0 {
        (table, Err(PosTableFailure::LoadedTooLate))
    } else if rows.len() == 0 {
        (table, Ok(0))
    } else {
        match record_layout(rows[0]) {
            Err(h) => (table, Err(PosTableFailure::Header(h))),
            Ok((map, skip)) => {
                let body = if skip { rows.skip(1) } else { rows };
                let (t, f) = rows_after(table, body, map);
                match f {
                    Some(g) => (t, Err(g)),
                    None => (t, Ok(body.len())),
                }
            },
        }
    }
}

/// The line where reading the rows of a part-of-speech table fails, `lines` holding the
/// line where each row starts: none (0) when the table comes too late, the line of the
/// first row when it is a refused header, or the line of the row that fails.
pub open spec fn pos_rows_failure_line(
    table: Seq<Seq<Seq<char>>>,
    entries_loaded: bool,
    rows: Seq<Seq<Seq<char>>>,
    lines: Seq<u64>,
) -> u64 {
    if entries_loaded || table.len() > 0 || rows.len() == 0 {
        0
    } else {
        match record_layout(rows[0]) {
            Err(_) => lines[0],
            Ok((map, skip)) => {
                let start: int = if skip {
                    1
                } else {
                    0
                };
                let body = if skip {
                    rows.skip(1)
                } else {
                    rows
                };
                let (t, f) = rows_after(table, body, map);
                if f is Some {
                    lines[t.len() + start]
                } else {
                    0
                }
            },
        }
    }
}

/// What reading a part-of-speech table from `data` gives: what its rows give
/// ([`pos_rows_outcome`]), the rows being those that the CSV text holds before its
/// first error, if it has one; that error is the failure where the rows gave none.
pub open spec fn read_pos_outcome(
    table: Seq<Seq<Seq<char>>>,
    entries_loaded: bool,
    data: Seq<u8>,
) -> (Seq<Seq<Seq<char>>>, Result<nat, PosTableFailure>) {
    let (rows, csv_failed) = csv_records(data);
    let (t, res) = pos_rows_outcome(table, entries_loaded, rows);
    (t, match res {
        Ok(n) => if csv_failed {
            Err(PosTableFailure::Csv)
        } else {
            Ok(n)
        },
        Err(f) => Err(f),
    })
}

/// The line where reading a part-of-speech table from `data` fails: that of
/// [`pos_rows_failure_line`] where the rows fail, else the line of the CSV error.
pub open spec fn pos_failure_line(table: Seq<Seq<Seq<char>>>, entries_loaded: bool, data: Seq<u8>) -> u64 {
    let (rows, _) = csv_records(data);
    let (lines, err_line) = csv_lines(data);
    if pos_rows_outcome(table, entries_loaded, rows).1 is Err {
        pos_rows_failure_line(table, entries_loaded, rows, lines)
    } else {
        err_line
    }
}

proof fn lemma_rows_after_stays_failed(
    table: Seq<Seq<Seq<char>>>,
    rows: Seq<Seq<Seq<char>>>,
    map: Seq<int>,
    k: int,
)
    requires
        0 <= k <= rows.len(),
        rows_after(table, rows.take(k), map).1 is Some,
    ensures
        rows_after(table, rows, map) == rows_after(table, rows.take(k), map),
    decreases rows.len(),
{
    if k < rows.len() {
        assert(rows.drop_last().take(k) =~= rows.take(k));
        lemma_rows_after_stays_failed(table, rows.drop_last(), map, k);
    } else {
        assert(rows.take(k) =~= rows);
    }
}

/// The value of column `col` of a row, unescaped.
fn pos_field(record: &[String], layout: &PosColumnLayout, col: PosCsvColumn) -> (r: Result<
    String,
    BuildFailure,
>)
    requires
        layout_map(*layout).len() == 7,
    ensures
        match field_value(fields_view(record@), layout_map(*layout), col) {
            Ok(v) => r matches Ok(s) && s@ == v,
            Err(f) => r matches Err(e) && pos_table_failure(f, e),
        },
{
    let idx = match layout.index(col) {
        Some(i) => i,
        None => return Err(BuildFailure::NoRawField(col.label())),
    };
    if idx >= record.len() {
        return Err(BuildFailure::NoRawField(col.label()));
    }
    assert(fields_view(record@)[idx as int] == record@[idx as int]@);
    unescape(record[idx].as_str())
}

/// Adds one row of the table to the reader.
fn read_pos_record(reader: &mut LexiconReader, record: &[String], layout: &PosColumnLayout) -> (r:
    Result<(), BuildFailure>)
    requires
        layout_map(*layout).len() == 7,
    ensures
        match row_step(old(reader).spec_pos(), fields_view(record@), layout_map(*layout)) {
            Ok(t) => r is Ok && final(reader).spec_pos() == t,
            Err(f) => r matches Err(e) && pos_table_failure(f, e) && final(reader).spec_pos_rows()
                == old(reader).spec_pos_rows(),
        },
        r is Ok ==> final(reader).spec_pos_ids() == old(reader).spec_pos_ids().push(
            old(reader).spec_pos().len() as u16,
        ),
        final(reader).spec_entries() == old(reader).spec_entries(),
        final(reader).spec_start_pos() == old(reader).spec_start_pos(),
        final(reader).spec_unresolved() == old(reader).spec_unresolved(),
        final(reader).spec_max_conn() == old(reader).spec_max_conn(),
        final(reader).spec_num_system() == old(reader).spec_num_system(),
{
    let ghost fields = fields_view(record@);
    let ghost map = layout_map(*layout);
    let mut values: Vec<String> = Vec::new();
    let mut j: usize = 1;
    while j <= 6
        invariant
            1 <= j <= 7,
            values@.len() == j - 1,
            fields == fields_view(record@),
            map == layout_map(*layout),
            map.len() == 7,
            row_fields_from(fields, map, 1) == match row_fields_from(fields, map, j as int) {
                Ok(rest) => Ok(values@.map_values(|s: String| s@) + rest),
                Err(f) => Err::<Seq<Seq<char>>, PosTableFailure>(f),
            },
        decreases 7 - j,
    {
        let col = if j == 1 {
            PosCsvColumn::Pos1
        } else if j == 2 {
            PosCsvColumn::Pos2
        } else if j == 3 {
            PosCsvColumn::Pos3
        } else if j == 4 {
            PosCsvColumn::Pos4
        } else if j == 5 {
            PosCsvColumn::Pos5
        } else {
            PosCsvColumn::Pos6
        };
        assert(col == pos_column_at(j as int));
        match pos_field(record, layout, col) {
            Ok(v) => {
                proof {
                    let ghost old_values = values@.map_values(|s: String| s@);
                    assert(values@.push(v).map_values(|s: String| s@) =~= old_values.push(v@));
                    match row_fields_from(fields, map, j + 1) {
                        Ok(rest) => {
                            assert(old_values + (seq![v@] + rest) =~= old_values.push(v@) + rest);
                        },
                        Err(_) => {},
                    }
                }
                values.push(v);
            },
            Err(e) => {
                return Err(e);
            },
        }
        j = j + 1;
    }
    let ghost row = values@.map_values(|s: String| s@);
    assert(row_fields_from(fields, map, 7) == Ok::<Seq<Seq<char>>, PosTableFailure>(Seq::empty()));
    assert(row + Seq::<Seq<char>>::empty() =~= row);
    let raw_id: Option<&str> = match layout.index(PosCsvColumn::PosId) {
        Some(idx) => if idx < record.len() {
            Some(record[idx].as_str())
        } else {
            None
        },
        None => None,
    };
    assert(opt_text(raw_id) == raw_id_of(fields, map));
    let data = [
        values[0].clone(),
        values[1].clone(),
        values[2].clone(),
        values[3].clone(),
        values[4].clone(),
        values[5].clone(),
    ];
    assert(data@.map_values(|s: String| s@) =~= row);
    reader.add_pos_record(data, raw_id)
}

/// Reads the rows of a part-of-speech table into the reader and gives the number of
/// rows read; `lines` holds the line where each row starts. The first row decides the
/// layout: a header naming the columns, or a legacy row with or without an id. The
/// table must come before any lexicon entry and any other row.
pub fn read_pos_rows(
    reader: &mut LexiconReader,
    entries_loaded: bool,
    rows: &[Vec<String>],
    lines: &[u64],
) -> (r: Result<usize, DicBuildError>)
    requires
        lines@.len() == rows@.len(),
    ensures
        ({
            let (t, res) = pos_rows_outcome(old(reader).spec_pos(), entries_loaded, records_view(rows@));
            &&& final(reader).spec_pos() == t
            &&& match res {
                Ok(n) => r == Ok::<usize, DicBuildError>(n as usize),
                Err(f) => r matches Err(e) && pos_table_failure(f, e.cause) && e.line
                    == pos_rows_failure_line(
                    old(reader).spec_pos(),
                    entries_loaded,
                    records_view(rows@),
                    lines@,
                ) as usize,
            }
        }),
        entries_loaded || old(reader).spec_pos().len() > 0
            ==> final(reader).spec_pos_rows() == old(reader).spec_pos_rows(),
        !entries_loaded && old(reader).spec_pos().len() == 0 ==> forall|i: int|
            0 <= i < final(reader).spec_pos().len() ==> #[trigger] final(reader).spec_pos_ids()[i]
                == i as u16,
        final(reader).spec_entries() == old(reader).spec_entries(),
        final(reader).spec_start_pos() == old(reader).spec_start_pos(),
        final(reader).spec_unresolved() == old(reader).spec_unresolved(),
        final(reader).spec_max_conn() == old(reader).spec_max_conn(),
        final(reader).spec_num_system() == old(reader).spec_num_system(),
{
    if entries_loaded || reader.pos_len() > 0 {
        return Err(
            DicBuildError {
                cause: BuildFailure::InvalidSplit("POS table must be loaded before lexicon".to_owned()),
                line: 0,
            },
        );
    }
    let ghost all = records_view(rows@);
    if rows.len() == 0 {
        return Ok(0);
    }
    assert(all[0] == fields_view(rows@[0]@));
    let (layout, skip) = match PosColumnLayout::from_record(rows[0].as_slice()) {
        Ok(v) => v,
        Err(e) => return Err(DicBuildError { cause: e, line: lines[0] as usize }),
    };
    let ghost map = layout_map(layout);
    let start: usize = if skip {
        1
    } else {
        0
    };
    let ghost body = if skip {
        all.skip(1)
    } else {
        all
    };
    let ghost table = old(reader).spec_pos();
    assert(body =~= all.skip(start as int));
    assert(body.take(0) =~= Seq::<Seq<Seq<char>>>::empty());
    let mut i: usize = start;
    while i < rows.len()
        invariant
            start <= i <= rows@.len(),
            all == records_view(rows@),
            body == all.skip(start as int),
            body == (if skip { all.skip(1) } else { all }),
            map == layout_map(layout),
            map.len() == 7,
            !entries_loaded,
            table == old(reader).spec_pos(),
            table.len() == 0,
            lines@.len() == rows@.len(),
            reader.spec_pos().len() == i - start,
            all.len() > 0,
            record_layout(all[0]) == Ok::<(Seq<int>, bool), HeaderFailure>((map, skip)),
            start == (if skip { 1usize } else { 0usize }),
            rows_after(table, body.take(i - start), map) == (reader.spec_pos(), None::<PosTableFailure>),
            forall|k: int|
                0 <= k < reader.spec_pos().len() ==> #[trigger] reader.spec_pos_ids()[k] == k as u16,
            reader.spec_entries() == old(reader).spec_entries(),
            reader.spec_start_pos() == old(reader).spec_start_pos(),
            reader.spec_unresolved() == old(reader).spec_unresolved(),
            reader.spec_max_conn() == old(reader).spec_max_conn(),
            reader.spec_num_system() == old(reader).spec_num_system(),
        decreases rows@.len() - i,
    {
        proof {
            assert(body.take(i - start + 1).drop_last() =~= body.take(i - start));
            assert(body.take(i - start + 1).last() == fields_view(rows@[i as int]@));
        }
        let ghost before = reader.spec_pos_rows();
        let ghost ids_before = reader.spec_pos_ids();
        let ghost pos_before = reader.spec_pos();
        match read_pos_record(reader, rows[i].as_slice(), &layout) {
            Ok(()) => {},
            Err(e) => {
                proof {
                    let k = i - start + 1;
                    lemma_rows_after_stays_failed(table, body, map, k);
                    assert(reader.spec_pos_rows() == before);
                    assert(reader.spec_pos_ids() =~= ids_before);
                    assert(reader.spec_pos() =~= pos_before);
                }
                return Err(DicBuildError { cause: e, line: lines[i] as usize });
            },
        }
        i = i + 1;
    }
    proof {
        assert(body.take(i - start) =~= body);
    }
    Ok(rows.len() - start)
}

/// Reads the part-of-speech table from CSV text into the reader and gives the number
/// of rows read; see [`read_pos_rows`]. An error of the CSV text ends the reading after
/// the rows before it.
pub fn read_pos_bytes(reader: &mut LexiconReader, entries_loaded: bool, data: &[u8]) -> (r: Result<
    usize,
    DicBuildError,
>)
    ensures
        ({
            let (t, res) = read_pos_outcome(old(reader).spec_pos(), entries_loaded, data@);
            &&& final(reader).spec_pos() == t
            &&& match res {
                Ok(n) => r == Ok::<usize, DicBuildError>(n as usize),
                Err(f) => r matches Err(e) && pos_table_failure(f, e.cause) && e.line
                    == pos_failure_line(old(reader).spec_pos(), entries_loaded, data@) as usize,
            }
        }),
        entries_loaded || old(reader).spec_pos().len() > 0
            ==> final(reader).spec_pos_rows() == old(reader).spec_pos_rows(),
        !entries_loaded && old(reader).spec_pos().len() == 0 ==> forall|i: int|
            0 <= i < final(reader).spec_pos().len() ==> #[trigger] final(reader).spec_pos_ids()[i]
                == i as u16,
        final(reader).spec_entries() == old(reader).spec_entries(),
        final(reader).spec_start_pos() == old(reader).spec_start_pos(),
        final(reader).spec_unresolved() == old(reader).spec_unresolved(),
        final(reader).spec_max_conn() == old(reader).spec_max_conn(),
        final(reader).spec_num_system() == old(reader).spec_num_system(),
{
    if entries_loaded || reader.pos_len() > 0 {
        return Err(
            DicBuildError {
                cause: BuildFailure::InvalidSplit("POS table must be loaded before lexicon".to_owned()),
                line: 0,
            },
        );
    }
    let (rows, csv_failed, lines, err_line) = read_csv_records(data);
    let n = match read_pos_rows(reader, entries_loaded, rows.as_slice(), lines.as_slice()) {
        Ok(n) => n,
        Err(e) => return Err(e),
    };
    if csv_failed {
        return Err(DicBuildError { cause: BuildFailure::CsvError, line: err_line as usize });
    }
    Ok(n)
}

/// Whether the rows of a table are pairwise distinct.
pub open spec fn distinct_rows(rows: Seq<Seq<Seq<char>>>) -> bool {
    forall|i: int, j: int| 0 <= i < j < rows.len() ==> rows[i] != rows[j]
}

proof fn lemma_pos_index_none(rows: Seq<Seq<Seq<char>>>, row: Seq<Seq<char>>, i: nat)
    requires
        pos_index(rows, row, i) is None,
    ensures
        forall|k: int| i <= k < rows.len() ==> rows[k] != row,
    decreases rows.len() - i,
{
    if i < rows.len() {
        lemma_pos_index_none(rows, row, i + 1);
    }
}

proof fn lemma_rows_after_distinct(
    table: Seq<Seq<Seq<char>>>,
    rows: Seq<Seq<Seq<char>>>,
    map: Seq<int>,
)
    requires
        distinct_rows(table),
    ensures
        distinct_rows(rows_after(table, rows, map).0),
    decreases rows.len(),
{
    if rows.len() > 0 {
        lemma_rows_after_distinct(table, rows.drop_last(), map);
        let (t, f) = rows_after(table, rows.drop_last(), map);
        if f is None {
            if let Ok(row) = row_fields_from(rows.last(), map, 1) {
                if pos_row_outcome(t, row, raw_id_of(rows.last(), map)) is Added {
                    lemma_pos_index_none(t, row, 0);
                    assert(distinct_rows(t.push(row)));
                }
            }
        }
    }
}

/// Reading a part-of-speech table keeps the rows of the table pairwise distinct:
/// a row that is already there is refused.
pub proof fn read_pos_keeps_rows_distinct(
    table: Seq<Seq<Seq<char>>>,
    entries_loaded: bool,
    data: Seq<u8>,
)
    requires
        distinct_rows(table),
    ensures
        distinct_rows(read_pos_outcome(table, entries_loaded, data).0),
{
    let (rows, csv_failed) = csv_records(data);
    if !(entries_loaded || table.len() > 0) && rows.len() > 0 {
        if let Ok((map, skip)) = record_layout(rows[0]) {
            let body = if skip {
                rows.skip(1)
            } else {
                rows
            };
            lemma_rows_after_distinct(table, body, map);
        }
    }
}

/// Whether the id field of a row, when the row gives one, reads as `k`.
pub open spec fn id_given_is(fields: Seq<Seq<char>>, map: Seq<int>, k: int) -> bool {
    match raw_id_of(fields, map) {
        Some(t) => t.len() > 0 ==> spec_parse_i16(t) == Some(k as i16),
        None => true,
    }
}

proof fn lemma_rows_after_ids(rows: Seq<Seq<Seq<char>>>, map: Seq<int>)
    requires
        rows_after(Seq::empty(), rows, map).1 is None,
    ensures
        rows_after(Seq::empty(), rows, map).0.len() == rows.len(),
        forall|k: int|
            0 <= k < rows.len() ==> id_given_is(#[trigger] rows[k], map, k),
    decreases rows.len(),
{
    if rows.len() > 0 {
        let (t, f) = rows_after(Seq::empty(), rows.drop_last(), map);
        assert(f is None);
        lemma_rows_after_ids(rows.drop_last(), map);
        assert forall|k: int|
            0 <= k < rows.len() implies id_given_is(#[trigger] rows[k], map, k) by {
            if k < rows.len() - 1 {
                assert(rows[k] == rows.drop_last()[k]);
            }
        }
    }
}

/// In a table that reads without failure, each id that a row gives is the id the
/// row gets: ids run from 0 in the order of the rows.
pub proof fn read_pos_ids_follow_rows(entries_loaded: bool, data: Seq<u8>)
    requires
        read_pos_outcome(Seq::empty(), entries_loaded, data).1 is Ok,
        csv_records(data).0.len() > 0,
    ensures
        ({
            let rows = csv_records(data).0;
            let (map, skip) = record_layout(rows[0])->Ok_0;
            let body = if skip {
                rows.skip(1)
            } else {
                rows
            };
            &&& read_pos_outcome(Seq::empty(), entries_loaded, data).0.len() == body.len()
            &&& forall|k: int|
                0 <= k < body.len() ==> id_given_is(#[trigger] body[k], map, k)
        }),
{
    let rows = csv_records(data).0;
    let (map, skip) = record_layout(rows[0])->Ok_0;
    let body = if skip {
        rows.skip(1)
    } else {
        rows
    };
    lemma_rows_after_ids(body, map);
}

} // verus!
