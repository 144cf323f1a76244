use sudachi::analysis::strings_cache::StringsCache as WordStrings;
use sudachi::analysis::Mode;
use sudachi::dic::binary_loader::BinaryLexicon;
use sudachi::dic::build::lexicon::entry::RawLexiconEntry;
use sudachi::dic::build::lexicon::refs::{NormFormValue, WordRef, WordRefResolver};
use sudachi::dic::build::resolve::{dictionary_words, BinDictResolver};
use sudachi::dic::build::lexicon::string_store::StringStore;
use sudachi::dic::build::lexicon::{LexiconReader, LexiconWriter};
use sudachi::dic::lexicon::Lexicon;
use sudachi::dic::lexicon_set::LexiconSet;
use sudachi::dic::strings_cache::StringsCache;
use sudachi::dic::subset::InfoSubset;
use sudachi::dic::word_id::{DictId, EntryId, WordId, WordRef as DicWordRef};
use sudachi::dic::word_info::infos::WordInfos;

fn entry(surface: &str, reading: Option<&str>) -> RawLexiconEntry {
    RawLexiconEntry {
        left_id: 5,
        right_id: 6,
        cost: 700,
        surface: surface.to_string(),
        headword: None,
        dic_form: WordRef::SelfRef,
        norm_form: None,
        pos: 0,
        splits_a: vec![],
        splits_b: vec![],
        splits_c: vec![],
        reading: reading.map(|r| r.to_string()),
        splitting: Mode::C,
        word_structure: vec![],
        synonym_groups: vec![],
        user_data: String::new(),
    }
}

/// The blocks of a small system dictionary: word id table, entries and strings, and
/// the word ids of its two entries.
struct Built {
    table: Vec<u8>,
    entries: Vec<u8>,
    strings: Vec<u8>,
    ids: Vec<WordId>,
}

fn build() -> Built {
    let mut rdr = LexiconReader::new();
    rdr.push_entry(entry("東京", Some("トウキョウ")));
    let ids0 = rdr.row_word_ids(0);
    let mut second = entry("とうきょう", None);
    second.norm_form = Some(NormFormValue::Value("東京".to_string()));
    second.dic_form = WordRef::Ref(DicWordRef::new(true, ids0[0].entry().as_raw()));
    rdr.push_entry(second);
    let ids = rdr.row_word_ids(0);
    assert_eq!(ids.len(), 2);

    let store = StringStore::from_entries(rdr.entries()).unwrap();
    let mut strings = Vec::new();
    store.write(&mut strings);

    let mut entries = Vec::new();
    let mut writer = LexiconWriter::new(rdr.entries(), &store, false);
    let n = writer.write(&mut entries).unwrap();
    assert_eq!(n, entries.len());

    let e0 = ids[0].entry().as_raw();
    let e1 = ids[1].entry().as_raw();
    assert!(e0 < 128 && e1 - e0 < 128);
    let table = vec![2u8, e0 as u8, (e1 - e0) as u8];
    Built { table, entries, strings, ids }
}

#[test]
fn written_dictionary_reads_back() {
    let b = build();
    assert_eq!(b.ids[0], WordId::new(0, 4));

    let infos = WordInfos::from_bytes(&b.entries);
    let order = infos.entry_ids_in_order(2).unwrap();
    assert_eq!(order, vec![b.ids[0].entry(), b.ids[1].entry()]);

    let bin = BinaryLexicon::load(&b.table, &b.entries, &b.strings, 2);
    let mut lexicon = Lexicon::from_binary(bin).unwrap();
    lexicon.set_dic_id(0);

    let found = lexicon.lookup(&[(0, 6)]);
    assert_eq!(found.len(), 2);
    assert_eq!(found[0].word_id, b.ids[0]);
    assert_eq!(found[1].word_id, b.ids[1]);
    assert_eq!(found[1].end, 6);

    assert_eq!(lexicon.get_word_param(b.ids[1].entry()), (5, 6, 700));

    let info = lexicon.get_word_info(b.ids[0].entry(), InfoSubset::all()).unwrap();
    assert_eq!(lexicon.get_string(info.headword_strptr).unwrap(), "東京");
    assert_eq!(lexicon.get_string(info.reading_form_strptr).unwrap(), "トウキョウ");
    assert_eq!(info.normalized_form, b.ids[0].as_raw());

    let info1 = lexicon.get_word_info(b.ids[1].entry(), InfoSubset::all()).unwrap();
    assert_eq!(info1.normalized_form, b.ids[0].as_raw());
    assert_eq!(info1.dictionary_form, b.ids[0].as_raw());
    assert_eq!(lexicon.get_string(info1.reading_form_strptr).unwrap(), "とうきょう");
}

#[test]
fn lexicon_set_and_strings_caches_read_the_forms() {
    let b = build();
    let bin = BinaryLexicon::load(&b.table, &b.entries, &b.strings, 2);
    let lexicon = Lexicon::from_binary(bin).unwrap();
    let set = LexiconSet::new(lexicon);

    let info = set.get_word_info_subset(b.ids[1], InfoSubset::headword()).unwrap();
    assert_eq!(set.get_string(DictId::new(0), info.headword_strptr).unwrap(), "とうきょう");

    let mut cache = WordStrings::new(&set, b.ids[1]);
    assert_eq!(cache.surface(), "とうきょう");
    assert_eq!(cache.reading(), "とうきょう");
    assert_eq!(cache.normalized_form(), "東京");
    assert_eq!(cache.dictionary_form(), "東京");
    assert_eq!(cache.word_info().normalized_form, b.ids[0].as_raw());

    let mut cache0 = WordStrings::new_with_info(&set, b.ids[0], set.get_word_info_subset(b.ids[0], InfoSubset::all()).unwrap());
    assert_eq!(cache0.reading(), "トウキョウ");
    assert_eq!(cache0.normalized_form(), "東京");

    let mut given = WordStrings::new_with_single_string(
        &set,
        b.ids[0],
        set.get_word_info_subset(b.ids[0], InfoSubset::all()).unwrap(),
        "x".to_string(),
    );
    assert_eq!(given.surface(), "x");
    assert_eq!(given.dictionary_form(), "x");

    let mut strings = StringsCache::new();
    let info1 = set.get_word_info_subset(b.ids[1], InfoSubset::all()).unwrap();
    assert_eq!(strings.surface(&set, &info1, b.ids[1]), "とうきょう");
    assert_eq!(strings.normalized_form(&set, &info1, b.ids[1]), "東京");
    assert_eq!(strings.dictionary_form(&set, &info1, b.ids[1]), "東京");
    assert_eq!(strings.reading(&set, &info1, b.ids[1]), "とうきょう");

    let mut kept = StringsCache::new_with_strings(
        "a".to_string(),
        "b".to_string(),
        "c".to_string(),
        "d".to_string(),
    );
    assert_eq!(kept.normalized_form(&set, &info1, b.ids[1]), "c");
    assert_eq!(kept.reading(&set, &info1, b.ids[1]), "b");
}

#[test]
fn lexicon_set_takes_at_most_fifteen_lexicons() {
    let b = build();
    let mk = || Lexicon::from_binary(BinaryLexicon::load(&b.table, &b.entries, &b.strings, 2)).unwrap();
    let mut set = LexiconSet::new(mk());
    for _ in 1..15 {
        assert!(set.append(mk()));
    }
    assert!(!set.append(mk()));
    // the user lexicon with id 3 reads its own words
    let info = set.get_word_info_subset(WordId::new(3, b.ids[0].entry().as_raw()), InfoSubset::all()).unwrap();
    assert_eq!(set.get_string(DictId::new(3), info.headword_strptr).unwrap(), "東京");
}

#[test]
fn entry_id_offsets() {
    assert_eq!(WordInfos::entry_id_to_offset(EntryId::new(4)), 32);
    assert_eq!(WordInfos::entry_id_to_offset(EntryId::new(0)), 0);
}

#[test]
fn dictionary_words_feed_a_system_resolver() {
    let b = build();
    let bin = BinaryLexicon::load(&b.table, &b.entries, &b.strings, 2);
    let lexicon = Lexicon::from_binary(bin).unwrap();
    let ids = lexicon.entry_ids_in_order(2).unwrap();
    assert_eq!(ids, vec![b.ids[0].entry(), b.ids[1].entry()]);
    let words = dictionary_words(&lexicon, &ids).unwrap();
    assert_eq!(words.len(), 2);
    assert_eq!(words[0].entry_id, b.ids[0].entry().as_raw());
    assert_eq!(words[0].headword, "東京");
    assert_eq!(words[0].reading, "トウキョウ");
    assert_eq!(words[0].pos_id, 0);
    assert_eq!(words[1].headword, "とうきょう");
    assert_eq!(words[1].reading, "とうきょう");

    let resolver = BinDictResolver::new(&words);
    assert_eq!(
        resolver.resolve(&WordRef::Headword("とうきょう".to_string())),
        Some(DicWordRef::new(true, b.ids[1].entry().as_raw()))
    );
    assert!(dictionary_words(&lexicon, &[EntryId::new(1_000_000)]).is_err());
}

#[test]
fn written_entries_read_in_order_for_any_count() {
    let b = build();
    let infos = WordInfos::from_bytes(&b.entries);
    assert_eq!(infos.entry_ids_in_order(0), Some(vec![]));
    assert_eq!(infos.entry_ids_in_order(1), Some(vec![b.ids[0].entry()]));
    assert_eq!(b.ids[0].entry().as_raw(), 4);
    assert_eq!(infos.entry_ids_in_order(3), None);
}
