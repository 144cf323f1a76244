use sudachi::analysis::Mode;
use sudachi::dic::build::lexicon::entry::RawLexiconEntry;
use sudachi::dic::build::lexicon::refs::{NormFormValue, WordRef};
use sudachi::dic::build::lexicon::string_store::StringStore;
use sudachi::dic::build::lexicon::{LexiconReader, LexiconWriter};
use sudachi::dic::subset::InfoSubset;
use sudachi::dic::lexicon::strings::StringPointer;
use sudachi::dic::word_id::{WordId, WordRef as DicWordRef};
use sudachi::dic::word_info::layout;
use sudachi::dic::word_info::parse::WordInfoParser;
use sudachi::dic::word_info::raw::WordInfoFixedData;

fn sample_fixed() -> WordInfoFixedData {
    WordInfoFixedData {
        pos_id: 123,
        headword_strptr: StringPointer::unchecked(3, 8),
        reading_form_strptr: StringPointer::unchecked(5, 16),
        normalized_form: 42,
        dictionary_form: 84,
        index_form_length: 9,
        c_unit_split_length: 2,
        b_unit_split_length: -1,
        a_unit_split_length: 4,
        word_structure_length: -1,
        synonym_group_ids_length: 3,
        user_data_flag: 1,
    }
}

#[test]
fn fixed_data_write_and_parse_round_trip() {
    let fixed = sample_fixed();
    let mut bytes = Vec::new();
    let written = fixed.write_to(&mut bytes);
    assert_eq!(written, layout::WORD_INFO_FIXED_SIZE);

    let (rest, parsed) = WordInfoFixedData::parse(&bytes).unwrap();
    assert!(rest.is_empty());
    assert_eq!(parsed.pos_id, fixed.pos_id);
    assert_eq!(parsed.headword_strptr, fixed.headword_strptr);
    assert_eq!(parsed.reading_form_strptr, fixed.reading_form_strptr);
    assert_eq!(parsed.normalized_form, fixed.normalized_form);
    assert_eq!(parsed.dictionary_form, fixed.dictionary_form);
    assert_eq!(parsed.index_form_length, fixed.index_form_length);
    assert_eq!(parsed.c_unit_split_length, fixed.c_unit_split_length);
    assert_eq!(parsed.b_unit_split_length, fixed.b_unit_split_length);
    assert_eq!(parsed.a_unit_split_length, fixed.a_unit_split_length);
    assert_eq!(parsed.word_structure_length, fixed.word_structure_length);
    assert_eq!(
        parsed.synonym_group_ids_length,
        fixed.synonym_group_ids_length
    );
    assert_eq!(parsed.user_data_flag, fixed.user_data_flag);
}

#[test]
fn fixed_data_reads_from_entry_bytes_after_params() {
    let fixed = sample_fixed();
    let mut entry = vec![0u8; layout::PARAMS_SIZE];
    fixed.write_to(&mut entry);
    assert_eq!(entry.len(), layout::FIXED_PART_SIZE);

    let scanned = WordInfoFixedData::from_entry_bytes(&entry).unwrap();
    assert_eq!(scanned.pos_id, fixed.pos_id);
    assert_eq!(scanned.headword_strptr, fixed.headword_strptr);
    assert_eq!(scanned.reading_form_strptr, fixed.reading_form_strptr);
    assert_eq!(scanned.normalized_form, fixed.normalized_form);
    assert_eq!(scanned.dictionary_form, fixed.dictionary_form);
    assert_eq!(scanned.index_form_length, fixed.index_form_length);
    assert_eq!(scanned.c_unit_split_length, fixed.c_unit_split_length);
    assert_eq!(scanned.b_unit_split_length, fixed.b_unit_split_length);
    assert_eq!(scanned.a_unit_split_length, fixed.a_unit_split_length);
    assert_eq!(scanned.word_structure_length, fixed.word_structure_length);
    assert_eq!(
        scanned.synonym_group_ids_length,
        fixed.synonym_group_ids_length
    );
    assert_eq!(scanned.user_data_flag, fixed.user_data_flag);
}

fn push_u32s(buf: &mut Vec<u8>, data: &[u32]) {
    for value in data {
        buf.extend_from_slice(&value.to_le_bytes());
    }
}

fn push_i32s(buf: &mut Vec<u8>, data: &[i32]) {
    for value in data {
        buf.extend_from_slice(&value.to_le_bytes());
    }
}

fn push_utf16(buf: &mut Vec<u8>, data: &str) {
    let utf16: Vec<u16> = data.encode_utf16().collect();
    buf.extend_from_slice(&(utf16.len() as i16).to_le_bytes());
    for unit in utf16 {
        buf.extend_from_slice(&unit.to_le_bytes());
    }
}

#[test]
fn parses_embedded_variable_length_fields() {
    let fixed = WordInfoFixedData {
        pos_id: 5,
        headword_strptr: StringPointer::unchecked(2, 4),
        reading_form_strptr: StringPointer::unchecked(3, 8),
        normalized_form: 11,
        dictionary_form: 12,
        index_form_length: 6,
        c_unit_split_length: 2,
        b_unit_split_length: 1,
        a_unit_split_length: 3,
        word_structure_length: 2,
        synonym_group_ids_length: 2,
        user_data_flag: 1,
    };

    let mut bytes = vec![0u8; layout::PARAMS_SIZE];
    fixed.write_to(&mut bytes);
    push_u32s(&mut bytes, &[100, 101]);
    push_u32s(&mut bytes, &[200]);
    push_u32s(&mut bytes, &[300, 301, 302]);
    push_u32s(&mut bytes, &[400, 401]);
    push_i32s(&mut bytes, &[7, 8]);
    push_utf16(&mut bytes, "meta");

    let parsed = WordInfoParser::default().parse(&bytes).unwrap();
    assert_eq!(parsed.pos_id, fixed.pos_id);
    assert_eq!(parsed.c_unit_split, vec![100, 101]);
    assert_eq!(parsed.b_unit_split, vec![200]);
    assert_eq!(parsed.a_unit_split, vec![300, 301, 302]);
    assert_eq!(parsed.word_structure, vec![400, 401]);
    assert_eq!(parsed.synonym_group_ids, vec![7, 8]);
    assert_eq!(parsed.user_data, "meta");
}

#[test]
fn expands_shared_split_arrays() {
    let fixed = WordInfoFixedData {
        pos_id: 9,
        headword_strptr: StringPointer::unchecked(1, 2),
        reading_form_strptr: StringPointer::unchecked(1, 4),
        normalized_form: 21,
        dictionary_form: 22,
        index_form_length: 3,
        c_unit_split_length: 2,
        b_unit_split_length: -1,
        a_unit_split_length: -1,
        word_structure_length: -1,
        synonym_group_ids_length: 1,
        user_data_flag: 0,
    };

    let mut bytes = vec![0u8; layout::PARAMS_SIZE];
    fixed.write_to(&mut bytes);
    push_u32s(&mut bytes, &[10, 11]);
    push_i32s(&mut bytes, &[99]);

    let parsed = WordInfoParser::default().parse(&bytes).unwrap();
    assert_eq!(parsed.c_unit_split, vec![10, 11]);
    assert_eq!(parsed.b_unit_split, vec![10, 11]);
    assert_eq!(parsed.a_unit_split, vec![10, 11]);
    assert_eq!(parsed.word_structure, vec![10, 11]);
    assert_eq!(parsed.synonym_group_ids, vec![99]);
    assert!(parsed.user_data.is_empty());
}

fn word_ref(dic: u8, entry: u32) -> WordRef {
    WordRef::Ref(DicWordRef::from_raw(WordId::new(dic, entry).as_raw()))
}

#[test]
fn writer_output_is_readable_by_parser() {
    let entry = RawLexiconEntry {
        left_id: 1,
        right_id: 2,
        cost: 3,
        surface: "東京".to_string(),
        headword: Some("京都".to_string()),
        dic_form: WordRef::SelfRef,
        norm_form: None,
        pos: 4,
        splits_a: vec![word_ref(0, 1), word_ref(0, 2)],
        splits_b: vec![word_ref(0, 1), word_ref(0, 2)],
        splits_c: vec![word_ref(0, 1), word_ref(0, 2)],
        reading: Some("キョウト".to_string()),
        splitting: Mode::B,
        word_structure: vec![word_ref(0, 3)],
        synonym_groups: vec![7, 8],
        user_data: "meta".to_string(),
    };

    let mut bytes = vec![0u8; layout::PARAMS_SIZE];
    let expected_size = entry.expected_entry_size();
    let written = entry
        .write_rest(
            &mut bytes,
            WordId::new(0, 10),
            WordId::new(0, 11),
            StringPointer::unchecked(2, 4),
            StringPointer::unchecked(4, 8),
        )
        .unwrap();
    assert_eq!(layout::aligned_size(written + layout::PARAMS_SIZE), expected_size);

    let parsed = WordInfoParser::default().parse(&bytes).unwrap();
    assert_eq!(parsed.pos_id, 4);
    assert_eq!(parsed.index_form_length, "東京".len() as i16);
    assert_eq!(parsed.dictionary_form, WordId::new(0, 10).as_raw());
    assert_eq!(parsed.normalized_form, WordId::new(0, 11).as_raw());
    assert_eq!(
        parsed.c_unit_split,
        vec![WordId::new(0, 1).as_raw(), WordId::new(0, 2).as_raw()]
    );
    assert_eq!(parsed.b_unit_split, parsed.c_unit_split);
    assert_eq!(
        parsed.a_unit_split,
        vec![WordId::new(0, 1).as_raw(), WordId::new(0, 2).as_raw()]
    );
    assert_eq!(parsed.word_structure, vec![WordId::new(0, 3).as_raw()]);
    assert_eq!(parsed.synonym_group_ids, vec![7, 8]);
    assert_eq!(parsed.user_data, "meta");
}

#[test]
fn fresh_parser_has_no_user_data_and_no_splits() {
    let p = WordInfoParser::default();
    assert!(!p.has_user_data());
    assert_eq!(p.embedded_c_unit_split_length(), 0);
    assert_eq!(p.embedded_b_unit_split_length(), 0);
    assert_eq!(p.embedded_synonym_group_ids_length(), 0);
}

fn plain_entry(surface: &str) -> RawLexiconEntry {
    RawLexiconEntry {
        left_id: 1,
        right_id: 1,
        cost: 100,
        surface: surface.to_string(),
        headword: None,
        dic_form: WordRef::SelfRef,
        norm_form: None,
        pos: 0,
        splits_a: vec![],
        splits_b: vec![],
        splits_c: vec![],
        reading: None,
        splitting: Mode::C,
        word_structure: vec![],
        synonym_groups: vec![],
        user_data: String::new(),
    }
}

/// The bytes, from its start on, of the entry for 東京 in an entries block whose first
/// entry is 京都: 東京 has part of speech 1, a reading, two A and B splits and two
/// parts, synonym groups 7 and 8, and 京都 as its normalized and dictionary form.
fn make_data() -> Vec<u8> {
    let mut rdr = LexiconReader::new();
    rdr.push_entry(plain_entry("京都"));
    let kyoto = rdr.row_word_ids(0)[0];
    let to_kyoto = || WordRef::Ref(DicWordRef::new(true, kyoto.entry().as_raw()));
    let mut tokyo = plain_entry("東京");
    tokyo.pos = 1;
    tokyo.reading = Some("トウキョウ".to_string());
    tokyo.splits_a = vec![to_kyoto(), to_kyoto()];
    tokyo.splits_b = vec![to_kyoto(), to_kyoto()];
    tokyo.word_structure = vec![to_kyoto(), to_kyoto()];
    tokyo.synonym_groups = vec![7, 8];
    tokyo.dic_form = to_kyoto();
    tokyo.norm_form = Some(NormFormValue::Value("京都".to_string()));
    rdr.push_entry(tokyo);
    let ids = rdr.row_word_ids(0);

    let store = StringStore::from_entries(rdr.entries()).unwrap();
    let mut entries = Vec::new();
    LexiconWriter::new(rdr.entries(), &store, false)
        .write(&mut entries)
        .unwrap();
    let offset = (ids[1].entry().as_raw() as usize) << 3;
    entries[offset..].to_vec()
}

#[test]
fn wordinfo_subset_surface() {
    let data = make_data();
    let wi = WordInfoParser::subset(InfoSubset::headword()).parse(&data).unwrap();
    assert!(wi.headword_strptr.length > 0);
}

#[test]
fn wordinfo_subset_len() {
    let data = make_data();
    let wi = WordInfoParser::subset(InfoSubset::index_form_length()).parse(&data).unwrap();
    assert_eq!(wi.index_form_length, 6);
}

#[test]
fn wordinfo_subset_pos() {
    let data = make_data();
    let wi = WordInfoParser::subset(InfoSubset::pos_id()).parse(&data).unwrap();
    assert_eq!(wi.pos_id, 1);
}

#[test]
fn wordinfo_subset_norm() {
    let data = make_data();
    let wi = WordInfoParser::subset(InfoSubset::normalized_form()).parse(&data).unwrap();
    assert_ne!(wi.normalized_form, 0);
}

#[test]
fn wordinfo_subset_reading() {
    let data = make_data();
    let wi = WordInfoParser::subset(InfoSubset::reading_form()).parse(&data).unwrap();
    assert!(wi.reading_form_strptr.length > 0);
}

#[test]
fn wordinfo_subset_dic_form_id() {
    let data = make_data();
    let wi = WordInfoParser::subset(InfoSubset::dictionary_form()).parse(&data).unwrap();
    assert_ne!(wi.dictionary_form, 0);
}

#[test]
fn wordinfo_subset_dic_split_a() {
    let data = make_data();
    let wi = WordInfoParser::subset(InfoSubset::split_a()).parse(&data).unwrap();
    assert_eq!(wi.a_unit_split.len(), 2);
}

#[test]
fn wordinfo_subset_dic_split_b() {
    let data = make_data();
    let wi = WordInfoParser::subset(InfoSubset::split_b()).parse(&data).unwrap();
    assert_eq!(wi.b_unit_split.len(), 2);
}

#[test]
fn wordinfo_subset_dic_word_structure() {
    let data = make_data();
    let wi = WordInfoParser::subset(InfoSubset::word_structure()).parse(&data).unwrap();
    assert_eq!(wi.word_structure.len(), 2);
}

#[test]
fn wordinfo_subset_dic_synonym() {
    let data = make_data();
    let wi = WordInfoParser::subset(InfoSubset::synonym_group_ids()).parse(&data).unwrap();
    assert_eq!(wi.synonym_group_ids, [7, 8]);
}
