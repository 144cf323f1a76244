use sudachi::analysis::Mode;
use sudachi::dic::build::error::{BuildFailure, DicBuildError};
use sudachi::dic::build::lexicon::parser::parse_u32_list;
use sudachi::dic::build::lexicon::refs::{NormFormValue, WordRef};
use sudachi::dic::build::lexicon::{LexiconReader, LexiconWriter, MAX_POS_IDS};
use sudachi::dic::build::lexicon::string_store::StringStore;
use sudachi::dic::build::resolve::RawDictResolver;
use sudachi::dic::lexicon::strings::StringPointer;
use sudachi::dic::word_id::{WordId, WordRef as DicWordRef};

fn system_ref(id: WordId) -> DicWordRef {
    DicWordRef::new(true, id.entry().as_raw())
}

fn resolve(rdr: &mut LexiconReader) {
    let refs: Vec<DicWordRef> = rdr.row_word_ids(0).into_iter().map(system_ref).collect();
    let resolver = RawDictResolver::new(rdr.entries(), refs, false);
    rdr.resolve_splits(&resolver).unwrap();
}

#[test]
fn parse_split_empty() {
    let mut rdr = LexiconReader::new();
    assert_eq!(rdr.parse_splits("", true).unwrap().0.len(), 0);
    assert_eq!(rdr.parse_splits("*", true).unwrap().0.len(), 0);
}

#[test]
fn parse_split_disallow_numeric_ref() {
    let mut rdr = LexiconReader::new();
    assert!(matches!(
        rdr.parse_splits("0/1", false),
        Err(BuildFailure::InvalidSplit(_))
    ));
}

#[test]
fn parse_kyoto() {
    let mut rdr = LexiconReader::new();
    let data = "京都,6,6,5293,京都,名詞,固有名詞,地名,一般,*,*,キョウト,京都,*,A,*,*,*,*";
    rdr.read_bytes(data.as_bytes()).unwrap();
    let entries = rdr.entries();
    assert_eq!(entries.len(), 1);
    let kyoto = &entries[0];
    assert_eq!("京都", kyoto.surface);
    assert_eq!(0, kyoto.pos);
    assert_eq!(
        "名詞,固有名詞,地名,一般,*,*",
        rdr.pos_obj(kyoto.pos).unwrap().to_string()
    );
    assert_eq!(6, kyoto.left_id);
    assert_eq!(6, kyoto.right_id);
    assert_eq!(5293, kyoto.cost);
    assert_eq!("キョウト", kyoto.reading());
    assert_eq!(Some("キョウト"), kyoto.reading.as_deref());
    assert_eq!("京都", kyoto.norm_form());
    assert_eq!(None, kyoto.norm_form);
    assert_eq!(Mode::A, kyoto.splitting);
    assert_eq!(0, kyoto.splits_a.len());
    assert_eq!(0, kyoto.splits_b.len());
    assert!(kyoto.should_index());
}

#[test]
fn parse_header_with_pos_id_only() {
    let mut rdr = LexiconReader::new();
    let data = [
        "index_form,left_id,right_id,cost,headword,pos_id,reading_form,normalized_form,dictionary_form,mode,split_a,split_b,word_structure,synonym_groups\n",
        "京都,6,6,5293,京都,0,キョウト,京都,,A,*,*,*,*"
    ]
    .concat();
    // preload one POS to resolve pos_id=0
    let old = "京都,6,6,5293,京都,名詞,固有名詞,地名,一般,*,*,キョウト,京都,*,A,*,*,*,*";
    rdr.read_bytes(old.as_bytes()).unwrap();
    let before = rdr.entries().len();
    rdr.read_bytes(data.as_bytes()).unwrap();
    let kyoto = &rdr.entries()[before];
    assert_eq!(kyoto.surface, "京都");
    assert_eq!(kyoto.pos, 0);
}

#[test]
fn parse_header_word_structure_triple_ref() {
    let mut rdr = LexiconReader::new();
    let data = [
        "index_form,left_id,right_id,cost,pos1,pos2,pos3,pos4,pos5,pos6,reading_form,normalized_form,dictionary_form,mode,split_a,split_b,word_structure\n",
        "東京都,6,8,5320,名詞,固有名詞,地名,一般,*,*,トウキョウト,,,B,\"東京,0,トウキョウ/都,1,ト\",\"東京,0,トウキョウ/都,2,ト\",\"東京,0,トウキョウ/都,3,ト\"\n"
    ]
    .concat();
    rdr.read_bytes(data.as_bytes()).unwrap();
    let e = &rdr.entries()[0];
    assert_eq!(e.splits_a.len(), 2);
    assert_eq!(e.splits_b.len(), 2);
    assert_eq!(e.word_structure.len(), 2);
    assert!(matches!(e.word_structure[0], WordRef::Inline { .. }));
}

#[test]
fn parse_header_dictionary_form_asterisk_fails() {
    let mut rdr = LexiconReader::new();
    let data = [
        "index_form,left_id,right_id,cost,pos1,pos2,pos3,pos4,pos5,pos6,reading_form,normalized_form,dictionary_form,mode,split_a,split_b,word_structure\n",
        "東京都,6,8,5320,名詞,固有名詞,地名,一般,*,*,トウキョウト,,*,B,*,*,*\n"
    ]
    .concat();
    assert!(matches!(
        rdr.read_bytes(data.as_bytes()),
        Err(DicBuildError {
            cause: BuildFailure::InvalidSplit(_),
            ..
        })
    ));
}

#[test]
fn resolve_header_normalized_form_ref() {
    let mut rdr = LexiconReader::new();
    let data = [
        "index_form,left_id,right_id,cost,pos1,pos2,pos3,pos4,pos5,pos6,reading_form,normalized_form,dictionary_form,mode,split_a,split_b,word_structure\n",
        "東京,1,1,2816,名詞,固有名詞,地名,一般,*,*,トウキョウ,,,A,*,*,*\n",
        "トウキョウ,1,1,2816,名詞,固有名詞,地名,一般,*,*,トウキョウ,\"東京,0,トウキョウ\",,A,*,*,*\n"
    ]
    .concat();
    rdr.read_bytes(data.as_bytes()).unwrap();
    resolve(&mut rdr);
    let e = &rdr.entries()[1];
    assert_eq!(e.norm_form(), "東京");
}

#[test]
fn resolve_header_normalized_form_headword_ref() {
    let mut rdr = LexiconReader::new();
    let data = [
        "index_form,left_id,right_id,cost,pos1,pos2,pos3,pos4,pos5,pos6,reading_form,normalized_form,dictionary_form,mode,split_a,split_b,word_structure\n",
        "東京,1,1,2816,名詞,固有名詞,地名,一般,*,*,トウキョウ,,,A,*,*,*\n",
        "トーキョー,1,1,2816,名詞,固有名詞,地名,一般,*,*,トーキョー,東京,,A,*,*,*\n"
    ]
    .concat();
    rdr.read_bytes(data.as_bytes()).unwrap();
    resolve(&mut rdr);
    let e = &rdr.entries()[1];
    assert_eq!(e.norm_form(), "東京");
}

#[test]
fn read_pos_table_and_parse_pos_id_lexicon() {
    let mut rdr = LexiconReader::new();
    let pos = "0,名詞,固有名詞,地名,一般,*,*\n1,名詞,一般,*,*,*,*";
    assert_eq!(rdr.read_pos_bytes(pos.as_bytes()).unwrap(), 2);

    let lex = [
        "index_form,left_id,right_id,cost,headword,pos_id,reading_form,normalized_form,dictionary_form,mode,split_a,split_b,word_structure,synonym_groups\n",
        "京都,6,6,5293,京都,0,キョウト,京都,,A,*,*,*,*"
    ]
    .concat();
    rdr.read_bytes(lex.as_bytes()).unwrap();
    let e = &rdr.entries()[0];
    assert_eq!(e.pos, 0);
}

#[test]
fn parse_header_reads_split_c_and_user_data() {
    let mut rdr = LexiconReader::new();
    let data = [
        "index_form,left_id,right_id,cost,pos1,pos2,pos3,pos4,pos5,pos6,reading_form,normalized_form,dictionary_form,mode,split_a,split_b,word_structure,split_c,user_data\n",
        "東京都,6,8,5320,名詞,固有名詞,地名,一般,*,*,トウキョウト,,,C,\"東京,0,トウキョウ/都,1,ト\",\"東京,0,トウキョウ/都,2,ト\",\"東京,0,トウキョウ/都,3,ト\",\"東京,0,トウキョウ/都,4,ト\",meta"
    ]
    .concat();
    rdr.read_bytes(data.as_bytes()).unwrap();
    let e = &rdr.entries()[0];
    assert_eq!(e.splits_c.len(), 2);
    assert_eq!(e.user_data, "meta");
}

#[test]
fn parse_header_mode_optional() {
    let mut rdr = LexiconReader::new();
    let data = [
        "index_form,left_id,right_id,cost,pos1,pos2,pos3,pos4,pos5,pos6,reading_form,normalized_form,dictionary_form,split_a,split_b,word_structure\n",
        "京都,6,6,5293,名詞,固有名詞,地名,一般,*,*,キョウト,京都,,*,*,*"
    ]
    .concat();
    rdr.read_bytes(data.as_bytes()).unwrap();
    let e = &rdr.entries()[0];
    assert_eq!(e.splitting, Mode::C);
}

#[test]
fn resolve_header_normalized_form_literal_without_target() {
    let mut rdr = LexiconReader::new();
    let data = [
        "index_form,left_id,right_id,cost,pos1,pos2,pos3,pos4,pos5,pos6,reading_form,normalized_form,dictionary_form,mode,split_a,split_b,word_structure\n",
        "舞台藝術,1,1,2816,名詞,普通名詞,一般,*,*,*,ブタイゲイジュツ,舞台芸術,,A,*,*,*"
    ]
    .concat();
    rdr.read_bytes(data.as_bytes()).unwrap();
    resolve(&mut rdr);
    assert_eq!(rdr.entries().len(), 2);
    let e = &rdr.entries()[0];
    assert_eq!(e.norm_form(), "舞台芸術");
    let phantom = &rdr.entries()[1];
    assert_eq!(phantom.headword(), "舞台芸術");
    assert!(!phantom.should_index());
}

#[test]
fn parse_kyoto_ignored() {
    let mut rdr = LexiconReader::new();
    let data = "京都,-1,-1,5293,京都,名詞,固有名詞,地名,一般,*,*,キョウト,京都,*,A,*,*,*,*";
    rdr.read_bytes(data.as_bytes()).unwrap();
    let entries = rdr.entries();
    assert_eq!(entries.len(), 1);
    let kyoto = &entries[0];
    assert!(!kyoto.should_index());
}

#[test]
fn parse_kyoto_synonym_opt() {
    let mut rdr = LexiconReader::new();
    // last field is omitted
    let data = "京都,1,1,5293,京都,名詞,固有名詞,地名,一般,*,*,キョウト,京都,*,A,*,*,*";
    rdr.read_bytes(data.as_bytes()).unwrap();
    let entries = rdr.entries();
    assert_eq!(entries.len(), 1);
    let kyoto = &entries[0];
    assert_eq!(0, kyoto.synonym_groups.len());
}

#[test]
fn parse_kyoto_not_enough_fields() {
    let mut rdr = LexiconReader::new();
    // last field is omitted
    let data = "京都,1,1,5293,京都,名詞,固有名詞,地名,一般,*,*,キョウト,京都,*,A,*,*";
    assert!(matches!(
        rdr.read_bytes(data.as_bytes()),
        Err(DicBuildError {
            cause: BuildFailure::NoRawField(_),
            line: 1,
            ..
        })
    ));
}

#[test]
fn parse_kyoto_ignored_empty_surface() {
    let mut rdr = LexiconReader::new();
    let data = ",-1,-1,5293,京都,名詞,固有名詞,地名,一般,*,*,キョウト,京都,*,A,*,*,*,*";
    assert!(matches!(
        rdr.read_bytes(data.as_bytes()),
        Err(DicBuildError {
            cause: BuildFailure::EmptySurface,
            line: 1,
            ..
        })
    ));
}

#[test]
fn parse_pos_exhausted() {
    let mut rdr = LexiconReader::new();
    let mut data = String::new();
    for i in 0..=MAX_POS_IDS + 1 {
        data.push_str(&format!(
            "x,-1,-1,5293,京都,名詞,固有名詞,地名,一般,*,{},キョウト,京都,*,A,*,*,*,*\n",
            i
        ));
    }
    assert!(matches!(
        rdr.read_bytes(data.as_bytes()),
        Err(DicBuildError {
            cause: BuildFailure::PosLimitExceeded(_),
            ..
        })
    ));
}

#[test]
fn parse_split_sys_ids() {
    let mut rdr = LexiconReader::new();
    let (splits, rel) = rdr.parse_splits("0/1/2", true).unwrap();
    assert_eq!(splits.len(), 3);
    assert_eq!(rel, 0);
    assert_eq!(splits[0], WordRef::Ref(DicWordRef::new(true, 0)));
    assert_eq!(splits[1], WordRef::Ref(DicWordRef::new(true, 1)));
    assert_eq!(splits[2], WordRef::Ref(DicWordRef::new(true, 2)));
}

#[test]
fn parse_split_user_ids() {
    let mut rdr = LexiconReader::new();
    let (splits, rel) = rdr.parse_splits("0/U1/2", true).unwrap();
    assert_eq!(splits.len(), 3);
    assert_eq!(rel, 0);
    assert_eq!(splits[0], WordRef::Ref(DicWordRef::new(true, 0)));
    assert_eq!(splits[1], WordRef::Ref(DicWordRef::new(false, 1)));
    assert_eq!(splits[2], WordRef::Ref(DicWordRef::new(true, 2)));
}

#[test]
fn parse_split_inline() {
    let mut rdr = LexiconReader::new();
    let (splits, rel) = rdr.parse_splits("0/あ,0,1,2,3,4,5,あ/2", true).unwrap();
    assert_eq!(splits.len(), 3);
    assert_eq!(rel, 1);
    assert_eq!(splits[0], WordRef::Ref(DicWordRef::new(true, 0)));
    assert_eq!(
        splits[1],
        WordRef::Inline {
            headword: "あ".to_string(),
            pos: 0,
            reading: None
        }
    );
    assert_eq!(splits[2], WordRef::Ref(DicWordRef::new(true, 2)));
}

#[test]
fn parse_split_inline_pos_id() {
    let mut rdr = LexiconReader::new();
    let (splits, rel) = rdr.parse_splits("0/あ,0,あ/2", true).unwrap();
    assert_eq!(splits.len(), 3);
    assert_eq!(rel, 1);
    assert_eq!(splits[0], WordRef::Ref(DicWordRef::new(true, 0)));
    assert_eq!(
        splits[1],
        WordRef::Inline {
            headword: "あ".to_string(),
            pos: 0,
            reading: None
        }
    );
    assert_eq!(splits[2], WordRef::Ref(DicWordRef::new(true, 2)));
}

#[test]
fn inline_split_by_part_of_speech_fields_adds_the_row() {
    let mut rdr = LexiconReader::new();
    let (splits, pending) = rdr.parse_splits("あ,0,1,2,3,4,5,い/う,7,う", true).unwrap();
    assert_eq!(pending, 2);
    assert_eq!(
        splits[0],
        WordRef::Inline {
            headword: "あ".to_string(),
            pos: 0,
            reading: Some("い".to_string())
        }
    );
    assert_eq!(
        splits[1],
        WordRef::Inline {
            headword: "う".to_string(),
            pos: 7,
            reading: None
        }
    );
    assert_eq!(rdr.pos_obj(0).unwrap().to_string(), "0,1,2,3,4,5");
}

#[test]
fn inline_split_lacking_a_field_names_it() {
    let mut rdr = LexiconReader::new();
    match rdr.parse_split("あ,0,1,2", true) {
        Err(BuildFailure::SplitFormatError { field, original }) => {
            assert_eq!(field, "(5) pos-4");
            assert_eq!(original, "あ,0,1,2");
        }
        other => panic!("unexpected {:?}", other),
    }
}

#[test]
fn word_id_literal_too_large_is_refused() {
    let mut rdr = LexiconReader::new();
    assert_eq!(
        rdr.parse_split("U4294967296", true),
        Err(BuildFailure::InvalidWordId("4294967296".to_string()))
    );
}

#[test]
fn dictionary_form_naming_the_entry_itself_is_a_self_reference() {
    let mut rdr = LexiconReader::new();
    let pos = "0,名詞,固有名詞,地名,一般,*,*";
    rdr.read_pos_bytes(pos.as_bytes()).unwrap();
    let (r, pending) = rdr
        .parse_dic_form("東京,0,トウキョウ", false, "東京", 0, "トウキョウ")
        .unwrap();
    assert_eq!(r, WordRef::SelfRef);
    assert_eq!(pending, 0);
    let (r, pending) = rdr
        .parse_dic_form("東京,1,トウキョウ", false, "東京", 0, "トウキョウ")
        .unwrap();
    assert_eq!(pending, 1);
    assert!(matches!(r, WordRef::Inline { pos: 1, .. }));
}

#[test]
fn normalized_form_equal_to_headword_is_dropped() {
    let mut rdr = LexiconReader::new();
    assert_eq!(rdr.parse_norm_form("東京", "東京").unwrap(), (None, 0));
    assert_eq!(rdr.parse_norm_form("*", "東京").unwrap(), (None, 0));
    assert_eq!(
        rdr.parse_norm_form("とうきょう", "東京").unwrap(),
        (
            Some(NormFormValue::Ref(WordRef::Headword("とうきょう".to_string()))),
            1
        )
    );
}

#[test]
fn synonym_groups_are_numbers_separated_by_slashes() {
    assert_eq!(parse_u32_list("1/+2/30", true).unwrap(), vec![1, 2, 30]);
    assert_eq!(parse_u32_list("*", true).unwrap(), Vec::<u32>::new());
    assert_eq!(
        parse_u32_list("*", false),
        Err(BuildFailure::InvalidSplit("*".to_string()))
    );
    assert_eq!(
        parse_u32_list("1/x", true),
        Err(BuildFailure::InvalidU32Literal("x".to_string()))
    );
}

#[test]
fn unknown_header_column_is_refused() {
    let mut rdr = LexiconReader::new();
    let data = "index_form,left_id,nonsense\n京都,1,1";
    assert_eq!(
        rdr.read_bytes(data.as_bytes()),
        Err(DicBuildError {
            cause: BuildFailure::NoRawField("INVALID_COLUMN_NAME"),
            line: 1
        })
    );
    let data = "IndexForm,left_id,LEFT_ID\n京都,1,1";
    assert_eq!(
        rdr.read_bytes(data.as_bytes()),
        Err(DicBuildError {
            cause: BuildFailure::NoRawField("DUPLICATED_COLUMN_NAME"),
            line: 1
        })
    );
}

#[test]
fn entries_before_a_failing_row_stay_read() {
    let mut rdr = LexiconReader::new();
    let data = [
        "京都,1,1,5293,京都,名詞,固有名詞,地名,一般,*,*,キョウト,京都,*,A,*,*,*,*\n",
        "大阪,x,1,5293,大阪,名詞,固有名詞,地名,一般,*,*,オオサカ,大阪,*,A,*,*,*,*\n"
    ]
    .concat();
    assert_eq!(
        rdr.read_bytes(data.as_bytes()),
        Err(DicBuildError {
            cause: BuildFailure::InvalidI16Literal("x".to_string()),
            line: 2
        })
    );
    assert_eq!(rdr.entries().len(), 1);
    assert!(rdr.needs_split_resolution() == false);
}

#[test]
fn word_refs_are_formatted_for_reports() {
    let mut rdr = LexiconReader::new();
    let pos = "0,名詞,固有名詞,地名,一般,*,*";
    rdr.read_pos_bytes(pos.as_bytes()).unwrap();
    assert_eq!(WordRef::Ref(DicWordRef::from_raw(123)).format(&rdr), "123");
    assert_eq!(WordRef::LineRef(DicWordRef::from_raw(7)).format(&rdr), "7");
    assert_eq!(WordRef::SelfRef.format(&rdr), "<self>");
    assert_eq!(WordRef::Headword("東京".to_string()).format(&rdr), "東京");
    let inline = WordRef::Inline {
        headword: "東京".to_string(),
        pos: 0,
        reading: Some("トウキョウ".to_string()),
    };
    assert_eq!(inline.format(&rdr), "東京,名詞,固有名詞,地名,一般,*,*,トウキョウ");
    let no_reading = WordRef::Inline {
        headword: "東京".to_string(),
        pos: 0,
        reading: None,
    };
    assert_eq!(no_reading.format(&rdr), "東京,名詞,固有名詞,地名,一般,*,*,東京");
}

#[test]
fn expected_entry_size_is_the_written_size_rounded_up() {
    let mut rdr = LexiconReader::new();
    let data = "京都,6,6,5293,京都,名詞,固有名詞,地名,一般,*,*,キョウト,京都,*,A,*,*,*,1/2/3";
    rdr.read_bytes(data.as_bytes()).unwrap();
    let e = &rdr.entries()[0];
    let mut w = Vec::new();
    let n = e
        .write_rest(
            &mut w,
            WordId::new(0, 4),
            WordId::new(0, 4),
            StringPointer::unchecked(2, 0),
            StringPointer::unchecked(4, 2),
        )
        .unwrap();
    assert_eq!(n, 26 + 12);
    assert_eq!(e.expected_entry_size(), (6 + n + 7) / 8 * 8);
}

#[test]
fn string_store_keeps_each_string_once() {
    let mut rdr = LexiconReader::new();
    let data = concat_rows(&[
        "京都,6,6,5293,京都,名詞,固有名詞,地名,一般,*,*,キョウト,京都,*,A,*,*,*,*",
        "きょうと,6,6,5293,京都,名詞,固有名詞,地名,一般,*,*,キョウト,京都,*,A,*,*,*,*",
    ]);
    rdr.read_bytes(data.as_bytes()).unwrap();
    let store = StringStore::from_entries(rdr.entries()).unwrap();
    let kyoto = store.resolve("京都");
    let reading = store.resolve("キョウト");
    assert_eq!(kyoto, StringPointer::unchecked(2, 0));
    assert_eq!(reading, StringPointer::unchecked(4, 2));
    let mut block = Vec::new();
    assert_eq!(store.write(&mut block), 12);
}

fn concat_rows(rows: &[&str]) -> String {
    let mut out = String::new();
    for r in rows {
        out.push_str(r);
        out.push('\n');
    }
    out
}

#[test]
fn read_pos_then_read_lexicon_with_pos_id() {
    let mut rdr = LexiconReader::new();
    let pos = "0,名詞,固有名詞,地名,一般,*,*\n1,名詞,一般,*,*,*,*";
    rdr.read_pos_bytes(pos.as_bytes()).unwrap();

    let lex = [
        "index_form,left_id,right_id,cost,headword,pos_id,reading_form,normalized_form,dictionary_form,mode,split_a,split_b,word_structure,synonym_groups\n",
        "京都,6,6,5293,京都,0,キョウト,京都,,A,,,,",
    ]
    .concat();
    assert_eq!(1, rdr.read_bytes(lex.as_bytes()).unwrap());
    resolve(&mut rdr);
    let store = StringStore::from_entries(rdr.entries()).unwrap();
    let mut out = Vec::new();
    rdr.write_pos_table(&mut out).unwrap();
    let mut writer = LexiconWriter::new(rdr.entries(), &store, false);
    writer.write(&mut out).unwrap();
}

#[test]
fn read_rows_reads_given_rows_and_reports_their_lines() {
    let mut rdr = LexiconReader::new();
    let row = |s: &str| s.split(',').map(String::from).collect::<Vec<String>>();
    let rows = vec![
        row("京都,6,6,5293,京都,名詞,固有名詞,地名,一般,*,*,キョウト,京都,*,A,*,*,*,*"),
        row("大阪,x,6,5293,大阪,名詞,固有名詞,地名,一般,*,*,オオサカ,大阪,*,A,*,*,*,*"),
    ];
    assert_eq!(
        rdr.read_rows(&rows, &[3, 7]),
        Err(DicBuildError {
            cause: BuildFailure::InvalidI16Literal("x".to_string()),
            line: 7
        })
    );
    assert_eq!(rdr.entries().len(), 1);
    assert_eq!(rdr.read_rows(&rows[..1], &[1]), Ok(1));
    assert_eq!(rdr.entries().len(), 2);
}

#[test]
fn empty_surface_row_still_counts_its_pending_references() {
    let mut rdr = LexiconReader::new();
    let data = ",-1,-1,5293,,名詞,固有名詞,地名,一般,*,*,キョウト,京都,*,A,*,*,*,*";
    assert!(matches!(
        rdr.read_bytes(data.as_bytes()),
        Err(DicBuildError {
            cause: BuildFailure::EmptySurface,
            line: 1,
            ..
        })
    ));
    assert_eq!(rdr.entries().len(), 0);
    assert!(rdr.needs_split_resolution());
}

#[test]
fn resolve_inline_same_dict() {
    let mut rdr = LexiconReader::new();
    let data = [
        "京都,6,6,5293,京都,名詞,固有名詞,地名,一般,*,*,キョウト,京都,*,A,*,*,*,*\n",
        "東,7,7,4675,東,名詞,普通名詞,一般,*,*,*,ヒガシ,東,*,A,*,*,*,*\n",
        "東京都,6,8,5320,東京都,名詞,固有名詞,地名,一般,*,*,トウキョウト,東京都,*,B,\"東,1,ヒガシ/京都,0,キョウト\",*,*,*\n",
    ]
    .concat();
    let nread = rdr.read_bytes(data.as_bytes()).unwrap();
    assert_eq!(nread, 3);
    let ids = rdr.row_word_ids(0);
    let refs: Vec<DicWordRef> = ids.iter().map(|id| system_ref(*id)).collect();
    let resolver = RawDictResolver::new(rdr.entries(), refs, false);
    let nresolved = rdr.resolve_splits(&resolver).unwrap();
    assert_eq!(nresolved, 2);
    let e2 = &rdr.entries()[2];
    assert_eq!(e2.splits_a[0], WordRef::Ref(system_ref(ids[1]))); // 東
    assert_eq!(e2.splits_a[1], WordRef::Ref(system_ref(ids[0]))); // 京都
    assert!(!rdr.needs_split_resolution());
}
