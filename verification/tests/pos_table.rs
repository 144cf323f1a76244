use sudachi::analysis::Mode;
use sudachi::dic::build::error::{BuildFailure, DicBuildError};
use sudachi::dic::build::lexicon::entry::RawLexiconEntry;
use sudachi::dic::build::lexicon::refs::WordRef;
use sudachi::dic::build::lexicon::LexiconReader;
use sudachi::dic::build::parse::{parse_i16, unescape};
use sudachi::dic::build::pos::{PosColumnLayout, PosCsvColumn};

fn row_of(rdr: &LexiconReader, id: u16) -> Vec<String> {
    rdr.pos_obj(id).expect("row exists").fields().to_vec()
}

fn strings(fields: &[&str]) -> Vec<String> {
    fields.iter().map(|f| f.to_string()).collect()
}

#[test]
fn read_pos_table_non_contiguous_id_fails() {
    let mut rdr = LexiconReader::new();
    let pos = "2,名詞,固有名詞,地名,一般,*,*";
    assert!(matches!(
        rdr.read_pos_bytes(pos.as_bytes()),
        Err(DicBuildError {
            cause: BuildFailure::InvalidSplit(_),
            ..
        })
    ));
}

#[test]
fn read_pos_table_with_ids() {
    let mut rdr = LexiconReader::new();
    let pos = "0,名詞,固有名詞,地名,一般,*,*\n1,名詞,一般,*,*,*,*";
    assert_eq!(rdr.read_pos_bytes(pos.as_bytes()), Ok(2));
    assert_eq!(row_of(&rdr, 0), strings(&["名詞", "固有名詞", "地名", "一般", "*", "*"]));
    assert_eq!(row_of(&rdr, 1), strings(&["名詞", "一般", "*", "*", "*", "*"]));
    assert!(rdr.pos_obj(2).is_none());
}

#[test]
fn read_pos_table_without_ids() {
    let mut rdr = LexiconReader::new();
    let pos = "名詞,普通名詞,一般,*,*,*\n動詞,一般,*,*,*,*\n";
    assert_eq!(rdr.read_pos_bytes(pos.as_bytes()), Ok(2));
    assert_eq!(row_of(&rdr, 1), strings(&["動詞", "一般", "*", "*", "*", "*"]));
}

#[test]
fn read_pos_table_with_header_skips_it() {
    let mut rdr = LexiconReader::new();
    let pos = "pos_id,POS1,Pos2,pos3,POS_4,pos5,POS6\n0,a,b,c,d,e,f\n,g,h,i,j,k,l";
    assert_eq!(rdr.read_pos_bytes(pos.as_bytes()), Ok(2));
    assert_eq!(row_of(&rdr, 0), strings(&["a", "b", "c", "d", "e", "f"]));
    assert_eq!(row_of(&rdr, 1), strings(&["g", "h", "i", "j", "k", "l"]));
}

#[test]
fn read_pos_table_header_in_other_order() {
    let mut rdr = LexiconReader::new();
    let pos = "POS6,POS5,POS4,POS3,POS2,POS1,POS_ID\nf,e,d,c,b,a,0";
    assert_eq!(rdr.read_pos_bytes(pos.as_bytes()), Ok(1));
    assert_eq!(row_of(&rdr, 0), strings(&["a", "b", "c", "d", "e", "f"]));
}

#[test]
fn read_pos_table_header_with_unknown_column_fails() {
    let mut rdr = LexiconReader::new();
    let pos = "POS1,POS2,POS3,POS4,POS5,POS6,COLOR\na,b,c,d,e,f,g";
    assert_eq!(
        rdr.read_pos_bytes(pos.as_bytes()),
        Err(DicBuildError { cause: BuildFailure::NoRawField("INVALID_POS_COLUMN_NAME"), line: 1 })
    );
    assert!(rdr.pos_obj(0).is_none());
}

#[test]
fn read_pos_table_header_with_repeated_column_fails() {
    let mut rdr = LexiconReader::new();
    let pos = "POS1,POS2,POS3,POS4,POS5,POS6,pos1\na,b,c,d,e,f,g";
    assert_eq!(
        rdr.read_pos_bytes(pos.as_bytes()),
        Err(DicBuildError { cause: BuildFailure::NoRawField("DUPLICATED_POS_COLUMN_NAME"), line: 1 })
    );
}

#[test]
fn read_pos_table_header_without_a_column_fails() {
    let mut rdr = LexiconReader::new();
    let pos = "POS1,POS2,POS4,POS5,POS6\na,b,d,e,f";
    assert_eq!(
        rdr.read_pos_bytes(pos.as_bytes()),
        Err(DicBuildError { cause: BuildFailure::NoRawField("POS3"), line: 1 })
    );
}

#[test]
fn read_pos_table_short_row_fails() {
    let mut rdr = LexiconReader::new();
    let pos = "0,a,b,c,d,e,f\n1,a,b";
    assert_eq!(
        rdr.read_pos_bytes(pos.as_bytes()),
        Err(DicBuildError { cause: BuildFailure::NoRawField("POS3"), line: 2 })
    );
    // the row read before the failure stays
    assert_eq!(row_of(&rdr, 0), strings(&["a", "b", "c", "d", "e", "f"]));
}

#[test]
fn read_pos_table_repeated_row_fails() {
    let mut rdr = LexiconReader::new();
    let pos = "a,b,c,d,e,f\na,b,c,d,e,f";
    assert_eq!(
        rdr.read_pos_bytes(pos.as_bytes()),
        Err(DicBuildError {
            cause: BuildFailure::InvalidSplit("POS already exists".to_string()),
            line: 2
        })
    );
}

#[test]
fn read_pos_table_negative_id_fails() {
    let mut rdr = LexiconReader::new();
    let pos = "-1,a,b,c,d,e,f";
    assert_eq!(
        rdr.read_pos_bytes(pos.as_bytes()),
        Err(DicBuildError {
            cause: BuildFailure::InvalidSplit("POS_ID must be >= 0".to_string()),
            line: 1
        })
    );
}

#[test]
fn read_pos_table_unreadable_id_fails() {
    let mut rdr = LexiconReader::new();
    let pos = "0,a,b,c,d,e,f\nx1,g,h,i,j,k,l";
    assert_eq!(
        rdr.read_pos_bytes(pos.as_bytes()),
        Err(DicBuildError {
            cause: BuildFailure::InvalidI16Literal("x1".to_string()),
            line: 2
        })
    );
}

#[test]
fn read_pos_table_unescapes_fields() {
    let mut rdr = LexiconReader::new();
    let pos = "\\u0041\\u{3042},b,c,d,e,f";
    assert_eq!(rdr.read_pos_bytes(pos.as_bytes()), Ok(1));
    assert_eq!(row_of(&rdr, 0)[0], "Aあ");
}

#[test]
fn read_pos_table_bad_escape_fails() {
    let mut rdr = LexiconReader::new();
    let pos = "\\u{110000},b,c,d,e,f";
    assert!(matches!(
        rdr.read_pos_bytes(pos.as_bytes()),
        Err(DicBuildError {
            cause: BuildFailure::InvalidCharLiteral(_),
            line: 1
        })
    ));
}

#[test]
fn read_pos_table_invalid_utf8_is_a_csv_error() {
    let mut rdr = LexiconReader::new();
    let pos: &[u8] = b"\xff\xfe,b,c,d,e,f";
    assert!(matches!(
        rdr.read_pos_bytes(pos),
        Err(DicBuildError {
            cause: BuildFailure::CsvError,
            ..
        })
    ));
}

#[test]
fn read_pos_table_twice_fails() {
    let mut rdr = LexiconReader::new();
    assert_eq!(rdr.read_pos_bytes("a,b,c,d,e,f".as_bytes()), Ok(1));
    assert_eq!(
        rdr.read_pos_bytes("g,h,i,j,k,l".as_bytes()),
        Err(DicBuildError {
            cause: BuildFailure::InvalidSplit("POS table must be loaded before lexicon".to_string()),
            line: 0
        })
    );
}

#[test]
fn read_pos_after_entries_fails() {
    let mut rdr = LexiconReader::new();
    rdr.push_entry(RawLexiconEntry {
        left_id: 1,
        right_id: 1,
        cost: 100,
        surface: "京都".to_string(),
        headword: None,
        dic_form: WordRef::SelfRef,
        norm_form: None,
        pos: 0,
        splits_a: vec![],
        splits_b: vec![],
        splits_c: vec![],
        reading: None,
        splitting: Mode::C,
        word_structure: vec![],
        synonym_groups: vec![],
        user_data: String::new(),
    });
    assert_eq!(
        rdr.read_pos_bytes("0,名詞,固有名詞,地名,一般,*,*".as_bytes()),
        Err(DicBuildError {
            cause: BuildFailure::InvalidSplit("POS table must be loaded before lexicon".to_string()),
            line: 0
        })
    );
}

#[test]
fn read_pos_table_empty_text_reads_nothing() {
    let mut rdr = LexiconReader::new();
    assert_eq!(rdr.read_pos_bytes(b""), Ok(0));
}

#[test]
fn pos_column_names() {
    assert_eq!(PosCsvColumn::from_str("Pos_Id"), Some(PosCsvColumn::PosId));
    assert_eq!(PosCsvColumn::from_str("POS_3"), Some(PosCsvColumn::Pos3));
    assert_eq!(PosCsvColumn::from_str("pos7"), None);
    assert_eq!(PosCsvColumn::from_str("posid "), None);
    assert_eq!(PosCsvColumn::Pos6.label(), "POS6");
    assert_eq!(PosCsvColumn::PosId.label(), "POS_ID");
    assert_eq!(PosCsvColumn::Pos4.as_usize(), 4);
}

#[test]
fn pos_layouts_from_first_row() {
    let (l, skip) = PosColumnLayout::from_record(&strings(&["12", "a", "b", "c", "d", "e", "f"])).unwrap();
    assert!(!skip);
    assert_eq!(l.index(PosCsvColumn::PosId), Some(0));
    assert_eq!(l.index(PosCsvColumn::Pos6), Some(6));

    let (l, skip) = PosColumnLayout::from_record(&strings(&["a", "b", "c", "d", "e", "f"])).unwrap();
    assert!(!skip);
    assert_eq!(l.index(PosCsvColumn::PosId), None);
    assert_eq!(l.index(PosCsvColumn::Pos1), Some(0));

    assert!(matches!(
        PosColumnLayout::from_record(&strings(&["POS2", "POS1", "POS3", "POS4", "POS5", "POS6", "X"])),
        Err(BuildFailure::NoRawField("INVALID_POS_COLUMN_NAME"))
    ));
    assert!(matches!(
        PosColumnLayout::from_record(&strings(&["POS2", "POS1", "POS3", "POS4", "POS5"])),
        Err(BuildFailure::NoRawField("POS6"))
    ));
}

#[test]
fn header_layout_places_columns() {
    let (l, skip) =
        PosColumnLayout::from_record(&strings(&["POS2", "POS1", "POS3", "POS4", "POS5", "POS6", "POS_ID"]))
            .unwrap();
    assert!(skip);
    assert_eq!(l.index(PosCsvColumn::Pos1), Some(1));
    assert_eq!(l.index(PosCsvColumn::Pos2), Some(0));
    assert_eq!(l.index(PosCsvColumn::PosId), Some(6));
}

#[test]
fn parse_i16_reads_decimal_numbers() {
    assert_eq!(parse_i16("123"), Ok(123));
    assert_eq!(parse_i16("+5"), Ok(5));
    assert_eq!(parse_i16("-32768"), Ok(-32768));
    assert_eq!(parse_i16("32767"), Ok(32767));
    assert_eq!(parse_i16("007"), Ok(7));
}

#[test]
fn parse_i16_refuses_other_text() {
    for bad in ["32768", "-32769", "", "-", "+", "1a", " 1", "1.0", "99999999999"] {
        assert_eq!(
            parse_i16(bad),
            Err(BuildFailure::InvalidI16Literal(bad.to_string())),
            "{}",
            bad
        );
    }
}

#[test]
fn unescape_replaces_unicode_escapes() {
    assert_eq!(unescape("abc"), Ok("abc".to_string()));
    assert_eq!(unescape("\\u0041"), Ok("A".to_string()));
    assert_eq!(unescape("x\\u00411"), Ok("xA1".to_string()));
    assert_eq!(unescape("\\u{1F600}!"), Ok("\u{1F600}!".to_string()));
    assert_eq!(unescape("\\u{41}\\u{42}"), Ok("AB".to_string()));
    // not escapes: too few digits, empty braces, no closing brace
    assert_eq!(unescape("\\u004"), Ok("\\u004".to_string()));
    assert_eq!(unescape("\\u{}"), Ok("\\u{}".to_string()));
    assert_eq!(unescape("\\u{41"), Ok("\\u{41".to_string()));
    assert_eq!(unescape(""), Ok(String::new()));
}

#[test]
fn unescape_refuses_codes_that_are_no_chars() {
    assert!(matches!(unescape("\\uD800"), Err(BuildFailure::InvalidCharLiteral(_))));
    assert!(matches!(unescape("a\\u{110000}"), Err(BuildFailure::InvalidCharLiteral(_))));
    assert!(matches!(
        unescape("\\u{FFFFFFFFFFFF}"),
        Err(BuildFailure::InvalidCharLiteral(_))
    ));
}

#[test]
fn read_pos_rows_reads_given_rows_and_reports_their_lines() {
    let mut rdr = LexiconReader::new();
    let rows = vec![
        strings(&["0", "名詞", "固有名詞", "地名", "一般", "*", "*"]),
        strings(&["1", "名詞", "普通名詞", "一般", "*", "*", "*"]),
    ];
    assert_eq!(rdr.read_pos_rows(&rows, &[1, 2]), Ok(2));
    assert_eq!(row_of(&rdr, 1), strings(&["名詞", "普通名詞", "一般", "*", "*", "*"]));

    let mut other = LexiconReader::new();
    let bad = vec![
        strings(&["0", "名詞", "固有名詞", "地名", "一般", "*", "*"]),
        strings(&["5", "動詞", "一般", "*", "*", "*", "*"]),
    ];
    assert!(matches!(
        other.read_pos_rows(&bad, &[10, 12]),
        Err(DicBuildError { cause: BuildFailure::InvalidSplit(_), line: 12 })
    ));
}
