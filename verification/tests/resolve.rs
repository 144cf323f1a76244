use sudachi::dic::build::lexicon::refs::{WordRef, WordRefResolver};
use sudachi::dic::build::resolve::{
    BinDictResolver, ChainedResolver, DictionaryWord, RawDictResolver, ResolverEntryView,
};
use sudachi::dic::word_id::WordRef as DicWordRef;

struct TestEntry {
    headword: &'static str,
    reading: &'static str,
    pos_id: u16,
}

impl ResolverEntryView for TestEntry {
    fn headword(&self) -> &str {
        self.headword
    }

    fn reading(&self) -> &str {
        self.reading
    }

    fn pos_id(&self) -> u16 {
        self.pos_id
    }
}

struct StubResolver {
    by_line_ref: Option<DicWordRef>,
    by_headword: Option<DicWordRef>,
    by_inline: Option<DicWordRef>,
}

impl WordRefResolver for StubResolver {
    fn resolve_by_line_ref(&self, _line_ref: DicWordRef) -> Option<DicWordRef> {
        self.by_line_ref
    }

    fn resolve_by_headword(&self, _headword: &str) -> Option<DicWordRef> {
        self.by_headword
    }

    fn resolve_inline(
        &self,
        _headword: &str,
        _pos: u16,
        _reading: Option<&str>,
    ) -> Option<DicWordRef> {
        self.by_inline
    }

    fn resolve_headword(&self, _wref: DicWordRef) -> Option<String> {
        None
    }
}

#[test]
fn chained_resolver_prioritizes_first_resolver() {
    let a = StubResolver {
        by_line_ref: Some(DicWordRef::new(true, 3)),
        by_headword: Some(DicWordRef::new(true, 1)),
        by_inline: Some(DicWordRef::new(true, 2)),
    };
    let b = StubResolver {
        by_line_ref: Some(DicWordRef::new(false, 3)),
        by_headword: Some(DicWordRef::new(false, 1)),
        by_inline: Some(DicWordRef::new(false, 2)),
    };
    let chained = ChainedResolver::new(a, b);
    assert_eq!(
        chained.resolve(&WordRef::LineRef(DicWordRef::new(true, 0))),
        Some(DicWordRef::new(true, 3))
    );
    assert_eq!(
        chained.resolve(&WordRef::Headword("京都".to_string())),
        Some(DicWordRef::new(true, 1))
    );
    assert_eq!(
        chained.resolve(&WordRef::Inline {
            headword: "京都".to_string(),
            pos: 0,
            reading: None,
        }),
        Some(DicWordRef::new(true, 2))
    );
}

#[test]
fn raw_resolver_resolves_inline_to_first_duplicate_in_csv_order() {
    let entries = vec![
        TestEntry {
            headword: "京都",
            reading: "キョウト",
            pos_id: 0,
        },
        TestEntry {
            headword: "京都",
            reading: "キョウト",
            pos_id: 0,
        },
        TestEntry {
            headword: "東京",
            reading: "トウキョウ",
            pos_id: 0,
        },
    ];
    let line_to_wref = vec![
        DicWordRef::new(true, 11),
        DicWordRef::new(true, 27),
        DicWordRef::new(true, 42),
    ];
    let resolver = RawDictResolver::new(&entries, line_to_wref.clone(), false);

    assert_eq!(
        resolver.resolve_inline("京都", 0, Some("キョウト")),
        Some(line_to_wref[0])
    );
}

#[test]
fn raw_resolver_resolves_headword_to_first_duplicate_in_csv_order() {
    let entries = vec![
        TestEntry {
            headword: "京都",
            reading: "キョウト",
            pos_id: 0,
        },
        TestEntry {
            headword: "京都",
            reading: "キョート",
            pos_id: 1,
        },
        TestEntry {
            headword: "東京",
            reading: "トウキョウ",
            pos_id: 0,
        },
    ];
    let line_to_wref = vec![
        DicWordRef::new(true, 11),
        DicWordRef::new(true, 27),
        DicWordRef::new(true, 42),
    ];
    let resolver = RawDictResolver::new(&entries, line_to_wref.clone(), false);

    assert_eq!(resolver.resolve_by_headword("京都"), Some(line_to_wref[0]));
}

#[test]
fn raw_resolver_resolves_line_refs_in_csv_order() {
    let entries = vec![
        TestEntry {
            headword: "京都",
            reading: "キョウト",
            pos_id: 0,
        },
        TestEntry {
            headword: "京都",
            reading: "キョウト",
            pos_id: 0,
        },
        TestEntry {
            headword: "東京",
            reading: "トウキョウ",
            pos_id: 0,
        },
    ];
    let line_to_wref = vec![
        DicWordRef::new(true, 11),
        DicWordRef::new(true, 27),
        DicWordRef::new(true, 42),
    ];
    let resolver = RawDictResolver::new(&entries, line_to_wref.clone(), false);

    assert_eq!(
        resolver.resolve_by_line_ref(DicWordRef::new(true, 0)),
        Some(line_to_wref[0])
    );
    assert_eq!(
        resolver.resolve_by_line_ref(DicWordRef::new(true, 1)),
        Some(line_to_wref[1])
    );
}

fn kyoto_entries() -> Vec<TestEntry> {
    vec![
        TestEntry {
            headword: "京都",
            reading: "キョウト",
            pos_id: 0,
        },
        TestEntry {
            headword: "東京",
            reading: "東京",
            pos_id: 2,
        },
    ]
}

#[test]
fn raw_resolver_refuses_line_refs_of_other_kind_and_out_of_range() {
    let entries = kyoto_entries();
    let lines = vec![DicWordRef::new(false, 5), DicWordRef::new(false, 6)];
    let resolver = RawDictResolver::new(&entries, lines, true);
    assert_eq!(resolver.resolve_by_line_ref(DicWordRef::new(true, 0)), None);
    assert_eq!(
        resolver.resolve_by_line_ref(DicWordRef::new(false, 1)),
        Some(DicWordRef::new(false, 6))
    );
    assert_eq!(resolver.resolve_by_line_ref(DicWordRef::new(false, 2)), None);
}

#[test]
fn raw_resolver_inline_reading_equal_to_headword_is_absent() {
    let entries = kyoto_entries();
    let lines = vec![DicWordRef::new(true, 1), DicWordRef::new(true, 2)];
    let resolver = RawDictResolver::new(&entries, lines, false);
    assert_eq!(
        resolver.resolve_inline("東京", 2, None),
        Some(DicWordRef::new(true, 2))
    );
    assert_eq!(resolver.resolve_inline("東京", 2, Some("東京")), None);
    assert_eq!(resolver.resolve_inline("京都", 1, Some("キョウト")), None);
    assert_eq!(resolver.resolve_by_headword("大阪"), None);
}

#[test]
fn raw_resolver_resolves_headword_of_reference() {
    let entries = kyoto_entries();
    let lines = vec![DicWordRef::new(true, 1), DicWordRef::new(true, 2)];
    let resolver = RawDictResolver::new(&entries, lines, false);
    assert_eq!(
        resolver.resolve_headword(DicWordRef::new(true, 2)),
        Some("東京".to_string())
    );
    assert_eq!(resolver.resolve_headword(DicWordRef::new(true, 3)), None);
    assert_eq!(resolver.resolve_headword(DicWordRef::new(false, 2)), None);
}

#[test]
fn resolve_keeps_resolved_and_refuses_self_references() {
    let entries = kyoto_entries();
    let lines = vec![DicWordRef::new(true, 1), DicWordRef::new(true, 2)];
    let resolver = RawDictResolver::new(&entries, lines, false);
    assert_eq!(
        resolver.resolve(&WordRef::Ref(DicWordRef::new(false, 9))),
        Some(DicWordRef::new(false, 9))
    );
    assert_eq!(resolver.resolve(&WordRef::SelfRef), None);
    assert_eq!(
        resolver.resolve(&WordRef::Inline {
            headword: "京都".to_string(),
            pos: 0,
            reading: Some("キョウト".to_string()),
        }),
        Some(DicWordRef::new(true, 1))
    );
}

fn dictionary_words() -> Vec<DictionaryWord> {
    vec![
        DictionaryWord {
            entry_id: 4,
            headword: "京都".to_string(),
            reading: "キョウト".to_string(),
            pos_id: 0,
        },
        DictionaryWord {
            entry_id: 9,
            headword: "京都".to_string(),
            reading: "".to_string(),
            pos_id: 3,
        },
        DictionaryWord {
            entry_id: 13,
            headword: "東京".to_string(),
            reading: "トウキョウ".to_string(),
            pos_id: 0,
        },
    ]
}

#[test]
fn bin_resolver_resolves_like_the_dictionary() {
    let resolver = BinDictResolver::new(&dictionary_words());
    assert_eq!(
        resolver.resolve_by_line_ref(DicWordRef::new(true, 1)),
        Some(DicWordRef::new(true, 9))
    );
    assert_eq!(resolver.resolve_by_line_ref(DicWordRef::new(false, 1)), None);
    assert_eq!(resolver.resolve_by_line_ref(DicWordRef::new(true, 3)), None);
    assert_eq!(
        resolver.resolve_by_headword("京都"),
        Some(DicWordRef::new(true, 4))
    );
    assert_eq!(
        resolver.resolve_inline("京都", 3, None),
        Some(DicWordRef::new(true, 9))
    );
    assert_eq!(
        resolver.resolve_inline("東京", 0, Some("トウキョウ")),
        Some(DicWordRef::new(true, 13))
    );
    assert_eq!(
        resolver.resolve_headword(DicWordRef::new(true, 13)),
        Some("東京".to_string())
    );
    assert_eq!(resolver.resolve_headword(DicWordRef::new(true, 5)), None);
}

#[test]
fn chained_resolver_falls_back_to_second_resolver() {
    let a = BinDictResolver::new(&dictionary_words());
    let entries = kyoto_entries();
    let lines = vec![DicWordRef::new(false, 1), DicWordRef::new(false, 2)];
    let b = RawDictResolver::new(&entries, lines, true);
    let chained = ChainedResolver::new(a, b);
    assert_eq!(
        chained.resolve(&WordRef::LineRef(DicWordRef::new(false, 0))),
        Some(DicWordRef::new(false, 1))
    );
    assert_eq!(
        chained.resolve(&WordRef::Headword("東京".to_string())),
        Some(DicWordRef::new(true, 13))
    );
    assert_eq!(
        chained.resolve_headword(DicWordRef::new(false, 2)),
        Some("東京".to_string())
    );
}

#[test]
fn chained_resolver_gives_first_known_headword() {
    let a = BinDictResolver::new(&dictionary_words());
    let entries = kyoto_entries();
    let lines = vec![DicWordRef::new(false, 1), DicWordRef::new(false, 2)];
    let b = RawDictResolver::new(&entries, lines, true);
    let chained = ChainedResolver::new(a, b);
    assert_eq!(
        chained.resolve_headword(DicWordRef::new(true, 13)),
        Some("東京".to_string())
    );
    assert_eq!(chained.resolve_headword(DicWordRef::new(true, 99)), None);
}
