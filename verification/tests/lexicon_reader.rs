use sudachi::analysis::Mode;
use sudachi::dic::build::error::BuildFailure;
use sudachi::dic::build::lexicon::entry::RawLexiconEntry;
use sudachi::dic::build::lexicon::refs::{NormFormValue, WordRef};
use sudachi::dic::build::lexicon::{LexiconReader, StrPosEntry};
use sudachi::dic::binary_loader::{read_pos_table, BinaryGrammar};
use sudachi::dic::build::resolve::RawDictResolver;
use sudachi::dic::grammar::Grammar;
use sudachi::dic::word_id::{WordId, WordRef as DicWordRef};
use sudachi::testing::zero_grammar;

fn entry(surface: &str) -> RawLexiconEntry {
    RawLexiconEntry {
        left_id: 1,
        right_id: 1,
        cost: 10,
        surface: surface.to_string(),
        headword: None,
        dic_form: WordRef::SelfRef,
        norm_form: None,
        pos: 0,
        splits_a: vec![],
        splits_b: vec![],
        splits_c: vec![],
        reading: None,
        splitting: Mode::C,
        word_structure: vec![],
        synonym_groups: vec![],
        user_data: String::new(),
    }
}

fn system_ref(id: WordId) -> DicWordRef {
    DicWordRef::new(true, id.entry().as_raw())
}

fn resolver_of(rdr: &LexiconReader) -> RawDictResolver {
    let refs: Vec<DicWordRef> = rdr.row_word_ids(0).into_iter().map(system_ref).collect();
    RawDictResolver::new(rdr.entries(), refs, false)
}

#[test]
fn resolve_splits_resolves_all_references() {
    let mut rdr = LexiconReader::new();
    rdr.push_entry(entry("東京"));
    let mut e = entry("とうきょう");
    e.splits_a = vec![WordRef::Headword("東京".to_string())];
    e.dic_form = WordRef::LineRef(DicWordRef::new(true, 0));
    e.norm_form = Some(NormFormValue::Ref(WordRef::Headword("東京".to_string())));
    rdr.push_entry(e);
    let ids = rdr.row_word_ids(0);
    let resolver = resolver_of(&rdr);

    assert_eq!(rdr.resolve_splits(&resolver), Ok(3));
    let resolved = &rdr.entries()[1];
    assert_eq!(resolved.splits_a, vec![WordRef::Ref(system_ref(ids[0]))]);
    assert_eq!(resolved.dic_form, WordRef::Ref(system_ref(ids[0])));
    assert_eq!(resolved.norm_form(), "東京");
    assert_eq!(rdr.entries().len(), 2);
}

#[test]
fn resolve_splits_reports_the_first_unknown_reference() {
    let mut rdr = LexiconReader::new();
    rdr.push_entry(entry("東京"));
    let mut e = entry("とうきょう");
    e.splits_a = vec![WordRef::Headword("大阪".to_string())];
    rdr.push_entry(e);
    let resolver = resolver_of(&rdr);
    assert_eq!(
        rdr.resolve_splits(&resolver),
        Err((WordRef::Headword("大阪".to_string()), 1))
    );
}

#[test]
fn validate_entries_checks_connection_ids_and_references() {
    let mut rdr = LexiconReader::new();
    rdr.push_entry(entry("東京"));
    rdr.set_max_conn_sizes(5, 5);
    assert_eq!(rdr.validate_entries(), Ok(()));

    let mut wide = entry("京都");
    wide.left_id = 9;
    rdr.push_entry(wide);
    assert_eq!(
        rdr.validate_entries(),
        Err(BuildFailure::InvalidFieldSize { actual: 9, expected: 5, field: "left_id" })
    );

    let mut rdr = LexiconReader::new();
    let mut far = entry("大阪");
    far.splits_a = vec![WordRef::Ref(DicWordRef::new(true, 1000))];
    rdr.push_entry(far);
    let size = rdr.max_entry_id_plus_one() as usize;
    assert_eq!(
        rdr.validate_entries(),
        Err(BuildFailure::InvalidFieldSize { actual: 1000, expected: size, field: "splits_a" })
    );
}

#[test]
fn entries_get_word_ids_by_their_offsets() {
    let mut rdr = LexiconReader::new();
    assert_eq!(rdr.max_entry_id_plus_one(), 4);
    rdr.push_entry(entry("東京"));
    rdr.push_entry(entry("京都"));
    let ids = rdr.row_word_ids(1);
    assert_eq!(ids[0], WordId::new(1, 4));
    let size = rdr.entries()[0].expected_entry_size() as u32;
    assert_eq!(ids[1], WordId::new(1, 4 + size / 8));
    assert!(!rdr.needs_split_resolution());
}

#[test]
fn pos_ids_are_given_in_order() {
    let mut rdr = LexiconReader::new();
    let row = |a: &str| -> [String; 6] {
        [a.to_string(), "*".to_string(), "*".to_string(), "*".to_string(), "*".to_string(), "*".to_string()]
    };
    assert_eq!(rdr.pos_id_of(row("名詞")), Ok(0));
    assert_eq!(rdr.pos_id_of(row("動詞")), Ok(1));
    assert_eq!(rdr.pos_id_of(row("名詞")), Ok(0));
    assert_eq!(rdr.pos_obj(1).unwrap().fields()[0], "動詞");
}

#[test]
fn preloaded_grammar_rows_are_not_written_again() {
    let pos_list = vec![vec![
        "名詞".to_string(),
        "一般".to_string(),
        "*".to_string(),
        "*".to_string(),
        "*".to_string(),
        "*".to_string(),
    ]];
    let grammar = Grammar::from_parts(pos_list.clone(), zero_grammar().connection);
    assert_eq!(grammar.pos_components(0), &pos_list[0][..]);
    assert_eq!(StrPosEntry::from_built_pos(&pos_list[0]).fields()[1], "一般");

    let mut rdr = LexiconReader::new();
    rdr.preload_pos(&grammar);
    assert_eq!(
        rdr.pos_id_of([
            "名詞".to_string(),
            "一般".to_string(),
            "*".to_string(),
            "*".to_string(),
            "*".to_string(),
            "*".to_string()
        ]),
        Ok(0)
    );
    assert_eq!(
        rdr.pos_id_of([
            "動詞".to_string(),
            "*".to_string(),
            "*".to_string(),
            "*".to_string(),
            "*".to_string(),
            "*".to_string()
        ]),
        Ok(1)
    );
    let mut w = Vec::new();
    let n = rdr.write_pos_table(&mut w).unwrap();
    assert_eq!(n, w.len());
    // one row: its count, then six short UTF-16 strings
    assert_eq!(&w[..2], &[1, 0]);
    assert_eq!(&w[2..8], &[2, 0, 0xD5, 0x52, 0x5E, 0x8A]);
    assert_eq!(w.len(), 2 + 6 + 5 * 4);
}

#[test]
fn entry_strings_and_phantoms() {
    let mut e = entry("東京");
    e.headword = Some("とうきょう".to_string());
    e.reading = Some("トウキョウ".to_string());
    assert_eq!(e.surface(), "東京");
    assert_eq!(e.headword(), "とうきょう");
    assert_eq!(e.reading(), "トウキョウ");
    assert_eq!(e.norm_form(), "とうきょう");
    assert!(e.should_index());

    let p = RawLexiconEntry::make_phantom(&e, "東京都".to_string());
    assert_eq!(p.headword(), "東京都");
    assert!(!p.should_index());
    let mut params = Vec::new();
    assert_eq!(e.write_params(&mut params), 6);
    assert_eq!(params, vec![1, 0, 1, 0, 10, 0]);
}

#[test]
fn written_pos_table_reads_back_as_grammar() {
    let mut rdr = LexiconReader::new();
    let pos = "0,名詞,固有名詞,地名,一般,*,*\n1,動詞,一般,*,*,*,*";
    assert_eq!(rdr.read_pos_bytes(pos.as_bytes()), Ok(2));
    let mut table = Vec::new();
    rdr.write_pos_table(&mut table).unwrap();

    let rows = read_pos_table(&table).unwrap();
    assert_eq!(rows.len(), 2);
    assert_eq!(rows[0], vec!["名詞", "固有名詞", "地名", "一般", "*", "*"]);
    assert_eq!(rows[1], vec!["動詞", "一般", "*", "*", "*", "*"]);

    let connection = [1u8, 0, 2, 0, 5, 0, 0xfb, 0xff];
    let grammar = BinaryGrammar::load(&table, Some(&connection)).unwrap();
    assert_eq!(grammar.pos_list, rows);
    let matrix = grammar.connection.unwrap();
    assert_eq!((matrix.num_left(), matrix.num_right()), (1, 2));
    assert_eq!(matrix.cost(0, 1), -5);

    let user = BinaryGrammar::load(&table, None).unwrap();
    assert!(user.connection.is_none());
}

#[test]
fn broken_grammar_blocks_are_refused() {
    assert!(read_pos_table(&[1]).is_err());
    // one row announced, but only two fields follow
    assert!(read_pos_table(&[1, 0, 1, 0, 0x61, 0, 1, 0, 0x62, 0]).is_err());
    let empty = [0u8, 0];
    assert!(BinaryGrammar::load(&empty, Some(&[1, 0, 1, 0])).is_err());
    assert_eq!(BinaryGrammar::load(&empty, None).unwrap().pos_list.len(), 0);
}

#[test]
fn failed_resolution_leaves_entries_and_count_as_they_were() {
    let mut rdr = LexiconReader::new();
    rdr.push_entry(entry("東京"));
    let mut known = entry("とうきょう");
    known.splits_a = vec![WordRef::Headword("東京".to_string())];
    rdr.push_entry(known);
    let mut unknown = entry("おおさか");
    unknown.splits_a = vec![WordRef::Headword("大阪".to_string())];
    rdr.push_entry(unknown);
    let resolver = resolver_of(&rdr);
    assert_eq!(
        rdr.resolve_splits(&resolver),
        Err((WordRef::Headword("大阪".to_string()), 2))
    );
    assert_eq!(rdr.entries().len(), 3);
    assert_eq!(rdr.entries()[1].splits_a, vec![WordRef::Headword("東京".to_string())]);
    assert_eq!(rdr.entries()[2].splits_a, vec![WordRef::Headword("大阪".to_string())]);
    assert!(rdr.needs_split_resolution());
}
