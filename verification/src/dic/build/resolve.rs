//! Resolvers of word references: from a lexicon source, from a binary dictionary,
//! and a chain of two.
use vstd::prelude::*;

use crate::dic::build::lexicon::refs::{
    opt_str_view, opt_string_view, resolve_target, WordRefResolver, WordRefView,
};
use crate::dic::word_id::{raw_word_id, word_ref_view_injective, WordRef};
use crate::dic::lexicon::strings::spec_string_at;
use crate::dic::lexicon::Lexicon;
use crate::dic::subset::InfoSubset;
use crate::dic::word_id::EntryId;
use crate::dic::word_info::parse::spec_parse_word_info;
use crate::error::{SudachiError, SudachiResult};
use crate::util::str_eq;
use crate::dic::build::lexicon::parser::none_if_same;

verus! {

/// What a resolver needs to know of a lexicon entry.
///
/// The spec functions say what the methods return; an implementation overrides them.
pub trait ResolverEntryView {
    /// The headword of the entry.
    open spec fn spec_headword(&self) -> Seq<char> {
        Seq::empty()
    }

    /// The reading form of the entry.
    open spec fn spec_reading(&self) -> Seq<char> {
        Seq::empty()
    }

    /// The part-of-speech id of the entry.
    open spec fn spec_pos_id(&self) -> u16 {
        0
    }

    fn headword(&self) -> (r: &str)
        ensures
            r@ == self.spec_headword(),
    ;

    fn reading(&self) -> (r: &str)
        ensures
            r@ == self.spec_reading(),
    ;

    fn pos_id(&self) -> (r: u16)
        ensures
            r == self.spec_pos_id(),
    ;
}

/// A word that a headword may resolve to: its headword, part of speech, reading
/// (absent when it equals the headword) and reference.
pub struct ResolutionCandidate {
    headword: String,
    pos: u16,
    reading: Option<String>,
    wref: WordRef,
}

/// The mathematical value of a [`ResolutionCandidate`].
pub type CandidateView = (Seq<char>, u16, Option<Seq<char>>, WordRef);

impl ResolutionCandidate {
    pub closed spec fn view(&self) -> CandidateView {
        (self.headword@, self.pos, opt_string_view(self.reading), self.wref)
    }
}

/// The views of a sequence of candidates.
pub open spec fn candidates_view(c: Seq<ResolutionCandidate>) -> Seq<CandidateView> {
    c.map_values(|x: ResolutionCandidate| x@)
}

/// The reference of the first candidate from index `i` on with headword `h`.
pub open spec fn first_by_headword(c: Seq<CandidateView>, h: Seq<char>, i: nat) -> Option<WordRef>
    decreases c.len() - i,
{
    if i >= c.len() {
        None
    } else if c[i as int].0 == h {
        Some(c[i as int].3)
    } else {
        first_by_headword(c, h, i + 1)
    }
}

/// The reference of the first candidate from index `i` on with headword `h`, part of
/// speech `pos` and reading `rd`.
pub open spec fn first_inline(
    c: Seq<CandidateView>,
    h: Seq<char>,
    pos: u16,
    rd: Option<Seq<char>>,
    i: nat,
) -> Option<WordRef>
    decreases c.len() - i,
{
    if i >= c.len() {
        None
    } else if c[i as int].0 == h && c[i as int].1 == pos && c[i as int].2 == rd {
        Some(c[i as int].3)
    } else {
        first_inline(c, h, pos, rd, i + 1)
    }
}

/// The first index from `i` on at which `s` holds `w`.
pub open spec fn first_position(s: Seq<WordRef>, w: WordRef, i: nat) -> Option<nat>
    decreases s.len() - i,
{
    if i >= s.len() {
        None
    } else if s[i as int] == w {
        Some(i)
    } else {
        first_position(s, w, i + 1)
    }
}

/// The headword of the last candidate before index `i` whose reference is `w`.
pub open spec fn last_headword_of(c: Seq<CandidateView>, w: WordRef, i: nat) -> Option<Seq<char>>
    decreases i,
{
    if i == 0 || i > c.len() {
        None
    } else if c[i - 1].3 == w {
        Some(c[i - 1].0)
    } else {
        last_headword_of(c, w, (i - 1) as nat)
    }
}

/// The target of a line reference among the references of the lines: the
/// reference on the line, when the line exists.
pub open spec fn line_target(lines: Seq<WordRef>, line_ref: WordRef) -> Option<WordRef> {
    if line_ref.spec_entry() < lines.len() {
        Some(lines[line_ref.spec_entry() as int])
    } else {
        None
    }
}

fn find_by_headword(c: &Vec<ResolutionCandidate>, h: &str) -> (r: Option<WordRef>)
    ensures
        r == first_by_headword(candidates_view(c@), h@, 0),
{
    let ghost cv = candidates_view(c@);
    let mut i: usize = 0;
    while i < c.len()
        invariant
            0 <= i <= c@.len(),
            cv == candidates_view(c@),
            first_by_headword(cv, h@, 0) == first_by_headword(cv, h@, i as nat),
        decreases c@.len() - i,
    {
        assert(cv[i as int] == c@[i as int]@);
        if str_eq(c[i].headword.as_str(), h) {
            return Some(c[i].wref);
        }
        i = i + 1;
    }
    None
}

fn find_inline(c: &Vec<ResolutionCandidate>, h: &str, pos: u16, rd: Option<&str>) -> (r: Option<
    WordRef,
>)
    ensures
        r == first_inline(candidates_view(c@), h@, pos, opt_str_view(rd), 0),
{
    let ghost cv = candidates_view(c@);
    let mut i: usize = 0;
    while i < c.len()
        invariant
            0 <= i <= c@.len(),
            cv == candidates_view(c@),
            first_inline(cv, h@, pos, opt_str_view(rd), 0) == first_inline(
                cv,
                h@,
                pos,
                opt_str_view(rd),
                i as nat,
            ),
        decreases c@.len() - i,
    {
        assert(cv[i as int] == c@[i as int]@);
        let e = &c[i];
        let same_reading = match &e.reading {
            Some(a) => match rd {
                Some(b) => str_eq(a.as_str(), b),
                None => false,
            },
            None => rd.is_none(),
        };
        if str_eq(e.headword.as_str(), h) && e.pos == pos && same_reading {
            return Some(e.wref);
        }
        i = i + 1;
    }
    None
}

/// Among candidates, a headword resolves to the first candidate that has it.
pub proof fn first_headword_candidate_wins(c: Seq<CandidateView>, h: Seq<char>, i: int)
    requires
        0 <= i < c.len(),
        c[i].0 == h,
        forall|j: int| 0 <= j < i ==> (#[trigger] c[j]).0 != h,
    ensures
        first_by_headword(c, h, 0) == Some(c[i].3),
{
    lemma_first_by_headword_from(c, h, 0, i);
}

proof fn lemma_first_by_headword_from(c: Seq<CandidateView>, h: Seq<char>, k: nat, i: int)
    requires
        k <= i < c.len(),
        c[i].0 == h,
        forall|j: int| 0 <= j < i ==> (#[trigger] c[j]).0 != h,
    ensures
        first_by_headword(c, h, k) == Some(c[i].3),
    decreases i - k,
{
    if k < i {
        lemma_first_by_headword_from(c, h, k + 1, i);
    }
}

/// Among candidates, a headword with part of speech and reading resolves to the
/// first candidate that has all three.
pub proof fn first_inline_candidate_wins(
    c: Seq<CandidateView>,
    h: Seq<char>,
    pos: u16,
    rd: Option<Seq<char>>,
    i: int,
)
    requires
        0 <= i < c.len(),
        c[i].0 == h && c[i].1 == pos && c[i].2 == rd,
        forall|j: int| 0 <= j < i ==> !((#[trigger] c[j]).0 == h && c[j].1 == pos && c[j].2 == rd),
    ensures
        first_inline(c, h, pos, rd, 0) == Some(c[i].3),
{
    lemma_first_inline_from(c, h, pos, rd, 0, i);
}

proof fn lemma_first_inline_from(
    c: Seq<CandidateView>,
    h: Seq<char>,
    pos: u16,
    rd: Option<Seq<char>>,
    k: nat,
    i: int,
)
    requires
        k <= i < c.len(),
        c[i].0 == h && c[i].1 == pos && c[i].2 == rd,
        forall|j: int| 0 <= j < i ==> !((#[trigger] c[j]).0 == h && c[j].1 == pos && c[j].2 == rd),
    ensures
        first_inline(c, h, pos, rd, k) == Some(c[i].3),
    decreases i - k,
{
    if k < i {
        lemma_first_inline_from(c, h, pos, rd, k + 1, i);
    }
}

/// Resolver based on a lexicon source, whose lines are given in order.
pub struct RawDictResolver {
    data: Vec<ResolutionCandidate>,
    headwords: Vec<String>,
    line_to_wref: Vec<WordRef>,
    user: bool,
}

impl RawDictResolver {
    /// The candidates, one per line in line order.
    pub closed spec fn spec_candidates(&self) -> Seq<CandidateView> {
        candidates_view(self.data@)
    }

    /// The headwords, one per line in line order.
    pub closed spec fn spec_headwords(&self) -> Seq<Seq<char>> {
        self.headwords@.map_values(|h: String| h@)
    }

    /// The reference that each line stands for.
    pub closed spec fn spec_lines(&self) -> Seq<WordRef> {
        self.line_to_wref@
    }

    /// Whether the lines are those of a user dictionary.
    pub closed spec fn spec_user(&self) -> bool {
        self.user
    }

    /// The headword of the word `w`, when one of the lines stands for it.
    pub open spec fn spec_headword_of(&self, w: WordRef) -> Option<Seq<char>> {
        if w.spec_is_system() == self.spec_user() {
            None
        } else {
            match first_position(self.spec_lines(), w, 0) {
                Some(i) => if i < self.spec_headwords().len() {
                    Some(self.spec_headwords()[i as int])
                } else {
                    None
                },
                None => None,
            }
        }
    }

    /// Whether the resolver holds one candidate per line, in line order: the line's
    /// headword, part of speech and reading (none when it equals the headword), with
    /// the reference the line stands for.
    pub open spec fn built_from_lines(
        &self,
        headwords: Seq<Seq<char>>,
        pos: Seq<u16>,
        readings: Seq<Seq<char>>,
        lines: Seq<WordRef>,
    ) -> bool {
        &&& self.spec_candidates().len() == headwords.len()
        &&& forall|i: int|
            0 <= i < headwords.len() ==> #[trigger] self.spec_candidates()[i] == (
                headwords[i],
                pos[i],
                none_if_same(headwords[i], readings[i]),
                lines[i],
            )
    }

    /// Builds the resolver from the entries of a lexicon source and the reference
    /// that each line stands for.
    pub fn new<T: ResolverEntryView>(entries: &[T], line_to_wref: Vec<WordRef>, user: bool) -> (r:
        Self)
        requires
            entries@.len() <= line_to_wref@.len(),
        ensures
            r.built_from_lines(
                entries@.map_values(|e: T| e.spec_headword()),
                entries@.map_values(|e: T| e.spec_pos_id()),
                entries@.map_values(|e: T| e.spec_reading()),
                line_to_wref@,
            ),
            r.spec_user() == user,
            r.spec_lines() == line_to_wref@,
            r.spec_headwords() == entries@.map_values(|e: T| e.spec_headword()),
            r.spec_candidates() == Seq::new(
                entries@.len(),
                |i: int|
                    (
                        entries@[i].spec_headword(),
                        entries@[i].spec_pos_id(),
                        if entries@[i].spec_headword() == entries@[i].spec_reading() {
                            None::<Seq<char>>
                        } else {
                            Some(entries@[i].spec_reading())
                        },
                        line_to_wref@[i],
                    ),
            ),
    {
        let mut data: Vec<ResolutionCandidate> = Vec::new();
        let mut headwords: Vec<String> = Vec::new();
        let mut i: usize = 0;
        while i < entries.len()
            invariant
                0 <= i <= entries@.len(),
                entries@.len() <= line_to_wref@.len(),
                data@.len() == i,
                headwords@.len() == i,
                forall|j: int|
                    0 <= j < i ==> #[trigger] data@[j]@ == (
                        entries@[j].spec_headword(),
                        entries@[j].spec_pos_id(),
                        if entries@[j].spec_headword() == entries@[j].spec_reading() {
                            None::<Seq<char>>
                        } else {
                            Some(entries@[j].spec_reading())
                        },
                        line_to_wref@[j],
                    ),
                forall|j: int| 0 <= j < i ==> #[trigger] headwords@[j]@ == entries@[j].spec_headword(),
            decreases entries@.len() - i,
        {
            let e = &entries[i];
            let headword = e.headword().to_owned();
            let reading = e.reading().to_owned();
            let wref = line_to_wref[i];
            headwords.push(headword.clone());
            let read_opt = if str_eq(e.headword(), reading.as_str()) {
                None
            } else {
                Some(reading)
            };
            data.push(ResolutionCandidate { headword, pos: e.pos_id(), reading: read_opt, wref });
            i = i + 1;
        }
        let r = RawDictResolver { data, headwords, line_to_wref, user };
        proof {
            assert(r.spec_headwords() =~= entries@.map_values(|e: T| e.spec_headword()));
            let hs = entries@.map_values(|e: T| e.spec_headword());
            let ps = entries@.map_values(|e: T| e.spec_pos_id());
            let rs = entries@.map_values(|e: T| e.spec_reading());
            assert forall|i: int| 0 <= i < hs.len() implies #[trigger] r.spec_candidates()[i] == (
                hs[i],
                ps[i],
                none_if_same(hs[i], rs[i]),
                line_to_wref@[i],
            ) by {
                assert(r.spec_candidates()[i] == data@[i]@);
            }
        }
        r
    }
}

impl WordRefResolver for RawDictResolver {
    open spec fn line_ref_target(&self, line_ref: WordRef) -> Option<WordRef> {
        if line_ref.spec_is_system() == self.spec_user() {
            None
        } else {
            line_target(self.spec_lines(), line_ref)
        }
    }

    open spec fn headword_target(&self, headword: Seq<char>) -> Option<WordRef> {
        first_by_headword(self.spec_candidates(), headword, 0)
    }

    open spec fn inline_target(&self, headword: Seq<char>, pos: u16, reading: Option<Seq<char>>) -> Option<
        WordRef,
    > {
        first_inline(self.spec_candidates(), headword, pos, reading, 0)
    }

    open spec fn has_headword(&self, wref: WordRef, headword: Seq<char>) -> bool {
        self.spec_headword_of(wref) == Some(headword)
    }

    open spec fn headword_answer(&self, wref: WordRef) -> Option<Seq<char>> {
        self.spec_headword_of(wref)
    }

    fn resolve_by_line_ref(&self, line_ref: WordRef) -> (r: Option<WordRef>) {
        if line_ref.is_system() == self.user {
            return None;
        }
        let idx = line_ref.entry().as_raw() as usize;
        if idx < self.line_to_wref.len() {
            Some(self.line_to_wref[idx])
        } else {
            None
        }
    }

    fn resolve_by_headword(&self, headword: &str) -> (r: Option<WordRef>) {
        find_by_headword(&self.data, headword)
    }

    fn resolve_inline(&self, headword: &str, pos: u16, reading: Option<&str>) -> (r: Option<
        WordRef,
    >) {
        find_inline(&self.data, headword, pos, reading)
    }

    fn resolve_headword(&self, wref: WordRef) -> (r: Option<String>)
        ensures
            opt_string_view(r) == self.spec_headword_of(wref),
    {
        if wref.is_system() == self.user {
            return None;
        }
        let mut i: usize = 0;
        while i < self.line_to_wref.len()
            invariant
                0 <= i <= self.line_to_wref@.len(),
                wref.spec_is_system() != self.user,
                first_position(self.line_to_wref@, wref, 0) == first_position(
                    self.line_to_wref@,
                    wref,
                    i as nat,
                ),
            decreases self.line_to_wref@.len() - i,
        {
            let candidate = self.line_to_wref[i];
            proof {
                word_ref_view_injective(candidate, wref);
            }
            if candidate.as_raw() == wref.as_raw() {
                if i < self.headwords.len() {
                    let h = self.headwords[i].clone();
                    proof {
                        assert(first_position(self.line_to_wref@, wref, i as nat) == Some(i as nat));
                        assert(self.spec_headwords()[i as int] == self.headwords@[i as int]@);
                    }
                    return Some(h);
                } else {
                    return None;
                }
            }
            i = i + 1;
        }
        None
    }
}

/// A word of a binary dictionary, as a resolver needs it: its entry id, headword,
/// reading form and part-of-speech id, in the order of the dictionary's entries.
pub struct DictionaryWord {
    pub entry_id: u32,
    pub headword: String,
    pub reading: String,
    pub pos_id: u16,
}

/// The reading a candidate records for a word: none when the reading is empty or
/// equals the headword.
pub open spec fn recorded_reading(headword: Seq<char>, reading: Seq<char>) -> Option<Seq<char>> {
    if reading.len() == 0 || headword == reading {
        None
    } else {
        Some(reading)
    }
}

/// The headword, reading form and part-of-speech id of entry `entry` of a lexicon with
/// the entries block `infos` and the string block `strings`; `None` when the entry or
/// one of its strings cannot be read.
pub open spec fn word_strings(infos: Seq<u8>, strings: Seq<u8>, entry: u32) -> Option<
    (Seq<char>, Seq<char>, i16),
> {
    if entry * 8 > infos.len() {
        None
    } else {
        match spec_parse_word_info(infos.skip(entry * 8)) {
            None => None,
            Some(w) => match (
                spec_string_at(strings, w.fixed.headword_strptr),
                spec_string_at(strings, w.fixed.reading_form_strptr),
            ) {
                (Some(h), Some(r)) => Some((h, r, w.fixed.pos_id)),
                _ => None,
            },
        }
    }
}

/// The words of a lexicon that a resolver needs, one for each of `entry_ids` in that
/// order (the ids of the entries in the order they are stored): each with its entry
/// id, headword, reading form and part-of-speech id. Fails when an entry or one of its
/// strings cannot be read.
pub fn dictionary_words(lex: &Lexicon, entry_ids: &[EntryId]) -> (r: SudachiResult<
    Vec<DictionaryWord>,
>)
    ensures
        r is Ok <==> forall|i: int|
            0 <= i < entry_ids@.len() ==> (#[trigger] word_strings(
                lex.spec_infos(),
                lex.spec_strings(),
                entry_ids@[i]@,
            )) is Some,
        r matches Ok(ws) ==> ws@.len() == entry_ids@.len() && forall|i: int|
            0 <= i < ws@.len() ==> is_word_of(
                #[trigger] ws@[i],
                entry_ids@[i]@,
                word_strings(lex.spec_infos(), lex.spec_strings(), entry_ids@[i]@),
            ),
{
    let mut words: Vec<DictionaryWord> = Vec::new();
    let mut i: usize = 0;
    while i < entry_ids.len()
        invariant
            0 <= i <= entry_ids@.len(),
            words@.len() == i,
            forall|j: int|
                0 <= j < i ==> is_word_of(
                    #[trigger] words@[j],
                    entry_ids@[j]@,
                    word_strings(lex.spec_infos(), lex.spec_strings(), entry_ids@[j]@),
                ),
        decreases entry_ids@.len() - i,
    {
        let id = entry_ids[i];
        let ghost k = entry_ids@[i as int]@;
        let len = lex.entries_len();
        if (id.as_raw() as usize) > len / 8 {
            proof {
                assert(k * 8 > len) by (nonlinear_arith)
                    requires
                        k > len / 8,
                ;
                assert(word_strings(lex.spec_infos(), lex.spec_strings(), k) is None);
            }
            return Err(SudachiError::UnexpectedEndOfInput);
        }
        assert(k * 8 <= len) by (nonlinear_arith)
            requires
                k <= len / 8,
        ;
        let subset = InfoSubset::headword().union(InfoSubset::reading_form()).union(InfoSubset::pos_id());
        let info = match lex.get_word_info(id, subset) {
            Ok(v) => v,
            Err(e) => {
                assert(word_strings(lex.spec_infos(), lex.spec_strings(), k) is None);
                return Err(e);
            },
        };
        let headword = match lex.get_string(info.headword_strptr) {
            Ok(v) => v,
            Err(e) => {
                assert(word_strings(lex.spec_infos(), lex.spec_strings(), k) is None);
                return Err(e);
            },
        };
        let reading = match lex.get_string(info.reading_form_strptr) {
            Ok(v) => v,
            Err(e) => {
                assert(word_strings(lex.spec_infos(), lex.spec_strings(), k) is None);
                return Err(e);
            },
        };
        let w = DictionaryWord { entry_id: id.as_raw(), headword, reading, pos_id: info.pos_id as u16 };
        assert(is_word_of(w, k, word_strings(lex.spec_infos(), lex.spec_strings(), k)));
        words.push(w);
        i = i + 1;
    }
    proof {
        assert forall|i: int|
            0 <= i < entry_ids@.len() implies (#[trigger] word_strings(
            lex.spec_infos(),
            lex.spec_strings(),
            entry_ids@[i]@,
        )) is Some by {
            assert(is_word_of(words@[i], entry_ids@[i]@, word_strings(lex.spec_infos(), lex.spec_strings(), entry_ids@[i]@)));
        }
    }
    Ok(words)
}

/// Whether `w` is the word of entry `entry` whose strings and part of speech are `s`.
pub open spec fn is_word_of(w: DictionaryWord, entry: u32, s: Option<(Seq<char>, Seq<char>, i16)>) -> bool {
    s matches Some((h, rd, p)) && w.entry_id == entry && w.headword@ == h && w.reading@ == rd
        && w.pos_id == p as u16
}

/// Resolver based on the words of a (system) binary dictionary.
pub struct BinDictResolver {
    index: Vec<ResolutionCandidate>,
    line_to_wref: Vec<WordRef>,
}

impl BinDictResolver {
    /// The candidates, one per word in the order of the words.
    pub closed spec fn spec_candidates(&self) -> Seq<CandidateView> {
        candidates_view(self.index@)
    }

    /// The reference of each word, in the order of the words.
    pub closed spec fn spec_lines(&self) -> Seq<WordRef> {
        self.line_to_wref@
    }

    /// Whether the resolver holds, in order, one candidate per word: the word's
    /// headword, part of speech and recorded reading, with the system reference of
    /// its entry.
    pub open spec fn built_from(&self, words: Seq<DictionaryWord>) -> bool {
        &&& self.spec_lines().len() == words.len()
        &&& self.spec_candidates().len() == words.len()
        &&& forall|i: int|
            0 <= i < words.len() ==> {
                &&& (#[trigger] self.spec_lines()[i])@ == raw_word_id(
                    0,
                    words[i].entry_id as nat % 0x1000_0000,
                )
                &&& self.spec_candidates()[i] == (
                    words[i].headword@,
                    words[i].pos_id,
                    recorded_reading(words[i].headword@, words[i].reading@),
                    self.spec_lines()[i],
                )
            }
    }

    /// Builds the resolver from the words of the dictionary, in entry order.
    pub fn new(words: &[DictionaryWord]) -> (r: Self)
        ensures
            r.built_from(words@),
            r.spec_lines().len() == words@.len(),
            r.spec_candidates().len() == words@.len(),
            forall|i: int|
                0 <= i < words@.len() ==> {
                    &&& (#[trigger] r.spec_lines()[i])@ == raw_word_id(
                        0,
                        words@[i].entry_id as nat % 0x1000_0000,
                    )
                    &&& r.spec_candidates()[i] == (
                        words@[i].headword@,
                        words@[i].pos_id,
                        recorded_reading(words@[i].headword@, words@[i].reading@),
                        r.spec_lines()[i],
                    )
                },
    {
        let mut index: Vec<ResolutionCandidate> = Vec::new();
        let mut line_to_wref: Vec<WordRef> = Vec::new();
        let mut i: usize = 0;
        while i < words.len()
            invariant
                0 <= i <= words@.len(),
                index@.len() == i,
                line_to_wref@.len() == i,
                forall|j: int|
                    0 <= j < i ==> {
                        &&& (#[trigger] line_to_wref@[j])@ == raw_word_id(
                            0,
                            words@[j].entry_id as nat % 0x1000_0000,
                        )
                        &&& index@[j]@ == (
                            words@[j].headword@,
                            words@[j].pos_id,
                            recorded_reading(words@[j].headword@, words@[j].reading@),
                            line_to_wref@[j],
                        )
                    },
            decreases words@.len() - i,
        {
            let w = &words[i];
            let wref = WordRef::new(true, w.entry_id);
            let rdfield = if w.reading.as_str().is_empty() || w.headword == w.reading {
                None
            } else {
                Some(w.reading.clone())
            };
            index.push(
                ResolutionCandidate {
                    headword: w.headword.clone(),
                    pos: w.pos_id,
                    reading: rdfield,
                    wref,
                },
            );
            line_to_wref.push(wref);
            i = i + 1;
        }
        BinDictResolver { index, line_to_wref }
    }
}

proof fn lemma_first_inline_reaches(
    c: Seq<CandidateView>,
    h: Seq<char>,
    pos: u16,
    rd: Option<Seq<char>>,
    j: nat,
    i: int,
)
    requires
        j <= i < c.len(),
        c[i].0 == h && c[i].1 == pos && c[i].2 == rd,
    ensures
        first_inline(c, h, pos, rd, j) matches Some(w) && exists|k: int|
            j <= k <= i && (#[trigger] c[k]).0 == h && c[k].1 == pos && c[k].3 == w,
    decreases i - j,
{
    if c[j as int].0 == h && c[j as int].1 == pos && c[j as int].2 == rd {
        assert(c[j as int].3 == first_inline(c, h, pos, rd, j)->Some_0);
    } else {
        lemma_first_inline_reaches(c, h, pos, rd, j + 1, i);
    }
}

/// Every line of a lexicon source is found by an inline reference to its headword,
/// part of speech and reading as a lexicon source writes one (the reading read as
/// none when it equals the headword): the reference resolves, to the reference of a
/// line with that headword and part of speech at or before it.
pub proof fn raw_resolver_finds_each_line_inline(
    r: RawDictResolver,
    headwords: Seq<Seq<char>>,
    pos: Seq<u16>,
    readings: Seq<Seq<char>>,
    lines: Seq<WordRef>,
    i: int,
)
    requires
        r.built_from_lines(headwords, pos, readings, lines),
        0 <= i < headwords.len(),
    ensures
        r.inline_target(headwords[i], pos[i], none_if_same(headwords[i], readings[i])) matches Some(w)
            && exists|k: int|
            0 <= k <= i && headwords[k] == headwords[i] && pos[k] == pos[i] && #[trigger] lines[k] == w,
{
    let c = r.spec_candidates();
    assert(c[i] == (headwords[i], pos[i], none_if_same(headwords[i], readings[i]), lines[i]));
    lemma_first_inline_reaches(c, headwords[i], pos[i], none_if_same(headwords[i], readings[i]), 0, i);
    let w = first_inline(c, headwords[i], pos[i], none_if_same(headwords[i], readings[i]), 0)->Some_0;
    let k = choose|k: int| 0 <= k <= i && (#[trigger] c[k]).0 == headwords[i] && c[k].1 == pos[i] && c[k].3 == w;
    assert(c[k] == (headwords[k], pos[k], none_if_same(headwords[k], readings[k]), lines[k]));
}

/// Every word of a binary dictionary with a reading is found by an inline reference to
/// its headword, part of speech and reading as a lexicon source writes one (the
/// reading read as none when it equals the headword): the reference resolves, to a
/// word with that headword and part of speech at or before it.
pub proof fn bin_resolver_finds_each_word_inline(r: BinDictResolver, words: Seq<DictionaryWord>, i: int)
    requires
        r.built_from(words),
        0 <= i < words.len(),
        words[i].reading@.len() > 0,
    ensures
        ({
            let found = r.inline_target(
                words[i].headword@,
                words[i].pos_id,
                none_if_same(words[i].headword@, words[i].reading@),
            );
            found matches Some(w) && exists|k: int|
                0 <= k <= i && words[k].headword@ == words[i].headword@ && words[k].pos_id
                    == words[i].pos_id && #[trigger] r.spec_lines()[k] == w
        }),
{
    let c = r.spec_candidates();
    let h = words[i].headword@;
    let rd = none_if_same(h, words[i].reading@);
    assert(c[i] == (h, words[i].pos_id, recorded_reading(h, words[i].reading@), r.spec_lines()[i]));
    lemma_first_inline_reaches(c, h, words[i].pos_id, rd, 0, i);
    let w = first_inline(c, h, words[i].pos_id, rd, 0)->Some_0;
    let k = choose|k: int| 0 <= k <= i && (#[trigger] c[k]).0 == h && c[k].1 == words[i].pos_id && c[k].3 == w;
    assert(c[k] == (words[k].headword@, words[k].pos_id, recorded_reading(words[k].headword@, words[k].reading@), r.spec_lines()[k]));
}

impl WordRefResolver for BinDictResolver {
    open spec fn line_ref_target(&self, line_ref: WordRef) -> Option<WordRef> {
        if !line_ref.spec_is_system() {
            None
        } else {
            line_target(self.spec_lines(), line_ref)
        }
    }

    open spec fn headword_target(&self, headword: Seq<char>) -> Option<WordRef> {
        first_by_headword(self.spec_candidates(), headword, 0)
    }

    open spec fn inline_target(&self, headword: Seq<char>, pos: u16, reading: Option<Seq<char>>) -> Option<
        WordRef,
    > {
        first_inline(self.spec_candidates(), headword, pos, reading, 0)
    }

    open spec fn has_headword(&self, wref: WordRef, headword: Seq<char>) -> bool {
        last_headword_of(self.spec_candidates(), wref, self.spec_candidates().len()) == Some(
            headword,
        )
    }

    open spec fn headword_answer(&self, wref: WordRef) -> Option<Seq<char>> {
        last_headword_of(self.spec_candidates(), wref, self.spec_candidates().len())
    }

    fn resolve_by_line_ref(&self, line_ref: WordRef) -> (r: Option<WordRef>) {
        if !line_ref.is_system() {
            return None;
        }
        let idx = line_ref.entry().as_raw() as usize;
        if idx < self.line_to_wref.len() {
            Some(self.line_to_wref[idx])
        } else {
            None
        }
    }

    fn resolve_by_headword(&self, headword: &str) -> (r: Option<WordRef>) {
        find_by_headword(&self.index, headword)
    }

    fn resolve_inline(&self, headword: &str, pos: u16, reading: Option<&str>) -> (r: Option<
        WordRef,
    >) {
        find_inline(&self.index, headword, pos, reading)
    }

    fn resolve_headword(&self, wref: WordRef) -> (r: Option<String>)
        ensures
            opt_string_view(r) == last_headword_of(
                self.spec_candidates(),
                wref,
                self.spec_candidates().len(),
            ),
    {
        let ghost cv = candidates_view(self.index@);
        let mut i: usize = self.index.len();
        while i > 0
            invariant
                0 <= i <= self.index@.len(),
                cv == candidates_view(self.index@),
                last_headword_of(cv, wref, cv.len()) == last_headword_of(cv, wref, i as nat),
            decreases i,
        {
            let c = &self.index[i - 1];
            assert(cv[i - 1] == c@);
            proof {
                word_ref_view_injective(c.wref, wref);
            }
            if c.wref.as_raw() == wref.as_raw() {
                return Some(c.headword.clone());
            }
            i = i - 1;
        }
        None
    }
}

/// A raw resolver resolves a headword to the reference of the first line that has
/// that headword, and a headword with part of speech and reading to the first line
/// that has all three.
pub proof fn raw_resolver_first_line_wins(r: RawDictResolver, i: int)
    requires
        0 <= i < r.spec_candidates().len(),
    ensures
        (forall|j: int|
            0 <= j < i ==> (#[trigger] r.spec_candidates()[j]).0 != r.spec_candidates()[i].0)
            ==> r.headword_target(r.spec_candidates()[i].0) == Some(r.spec_candidates()[i].3),
        (forall|j: int|
            0 <= j < i ==> !((#[trigger] r.spec_candidates()[j]).0 == r.spec_candidates()[i].0
                && r.spec_candidates()[j].1 == r.spec_candidates()[i].1
                && r.spec_candidates()[j].2 == r.spec_candidates()[i].2)) ==> r.inline_target(
            r.spec_candidates()[i].0,
            r.spec_candidates()[i].1,
            r.spec_candidates()[i].2,
        ) == Some(r.spec_candidates()[i].3),
{
    let c = r.spec_candidates();
    if forall|j: int| 0 <= j < i ==> (#[trigger] c[j]).0 != c[i].0 {
        first_headword_candidate_wins(c, c[i].0, i);
    }
    if forall|j: int|
        0 <= j < i ==> !((#[trigger] c[j]).0 == c[i].0 && c[j].1 == c[i].1 && c[j].2 == c[i].2) {
        first_inline_candidate_wins(c, c[i].0, c[i].1, c[i].2, i);
    }
}

/// A raw resolver resolves a line reference of its own kind (system or user) to the
/// reference that line stands for.
pub proof fn raw_resolver_line_refs(r: RawDictResolver, line_ref: WordRef)
    requires
        line_ref.spec_is_system() != r.spec_user(),
        line_ref.spec_entry() < r.spec_lines().len(),
    ensures
        r.line_ref_target(line_ref) == Some(r.spec_lines()[line_ref.spec_entry() as int]),
{
}

/// A binary-dictionary resolver resolves a system line reference to the system
/// word of that line's entry, and never a user line reference.
pub proof fn bin_resolver_line_refs(r: BinDictResolver, words: Seq<DictionaryWord>, line_ref: WordRef)
    requires
        r.built_from(words),
    ensures
        !line_ref.spec_is_system() ==> r.line_ref_target(line_ref) is None,
        line_ref.spec_is_system() && line_ref.spec_entry() < words.len() ==> (r.line_ref_target(line_ref)
            matches Some(w) && w@ == raw_word_id(0, words[line_ref.spec_entry() as int].entry_id as nat % 0x1000_0000)),
        line_ref.spec_entry() >= words.len() ==> r.line_ref_target(line_ref) is None,
{
}

/// Two resolvers asked in turn: the first answer of the first one wins.
pub struct ChainedResolver<A, B> {
    a: A,
    b: B,
}

/// The first of two answers that is there.
pub open spec fn first_answer(x: Option<WordRef>, y: Option<WordRef>) -> Option<WordRef> {
    if x is Some {
        x
    } else {
        y
    }
}

impl<A: WordRefResolver, B: WordRefResolver> ChainedResolver<A, B> {
    /// The resolver asked first.
    pub closed spec fn spec_first(&self) -> A {
        self.a
    }

    /// The resolver asked second.
    pub closed spec fn spec_second(&self) -> B {
        self.b
    }

    pub fn new(a: A, b: B) -> (r: Self)
        ensures
            r.spec_first() == a,
            r.spec_second() == b,
    {
        Self { a, b }
    }
}

/// A chain answers for any reference what its first resolver answers, and what its
/// second answers where the first has no answer.
pub proof fn chained_resolver_prefers_first<A: WordRefResolver, B: WordRefResolver>(
    c: ChainedResolver<A, B>,
    unit: WordRefView,
)
    ensures
        resolve_target(&c, unit) == first_answer(
            resolve_target(&c.spec_first(), unit),
            resolve_target(&c.spec_second(), unit),
        ),
{
}

impl<A: WordRefResolver, B: WordRefResolver> WordRefResolver for ChainedResolver<A, B> {
    open spec fn line_ref_target(&self, line_ref: WordRef) -> Option<WordRef> {
        first_answer(
            self.spec_first().line_ref_target(line_ref),
            self.spec_second().line_ref_target(line_ref),
        )
    }

    open spec fn headword_target(&self, headword: Seq<char>) -> Option<WordRef> {
        first_answer(
            self.spec_first().headword_target(headword),
            self.spec_second().headword_target(headword),
        )
    }

    open spec fn inline_target(&self, headword: Seq<char>, pos: u16, reading: Option<Seq<char>>) -> Option<
        WordRef,
    > {
        first_answer(
            self.spec_first().inline_target(headword, pos, reading),
            self.spec_second().inline_target(headword, pos, reading),
        )
    }

    open spec fn has_headword(&self, wref: WordRef, headword: Seq<char>) -> bool {
        self.spec_first().has_headword(wref, headword) || self.spec_second().has_headword(
            wref,
            headword,
        )
    }

    open spec fn headword_answer(&self, wref: WordRef) -> Option<Seq<char>> {
        if self.spec_first().headword_answer(wref) is Some {
            self.spec_first().headword_answer(wref)
        } else {
            self.spec_second().headword_answer(wref)
        }
    }

    fn resolve_by_line_ref(&self, line_ref: WordRef) -> (r: Option<WordRef>) {
        match self.a.resolve_by_line_ref(line_ref) {
            Some(w) => Some(w),
            None => self.b.resolve_by_line_ref(line_ref),
        }
    }

    fn resolve_by_headword(&self, headword: &str) -> (r: Option<WordRef>) {
        match self.a.resolve_by_headword(headword) {
            Some(w) => Some(w),
            None => self.b.resolve_by_headword(headword),
        }
    }

    fn resolve_inline(&self, headword: &str, pos: u16, reading: Option<&str>) -> (r: Option<
        WordRef,
    >) {
        match self.a.resolve_inline(headword, pos, reading) {
            Some(w) => Some(w),
            None => self.b.resolve_inline(headword, pos, reading),
        }
    }

    fn resolve_headword(&self, wref: WordRef) -> (r: Option<String>) {
        match self.a.resolve_headword(wref) {
            Some(h) => Some(h),
            None => self.b.resolve_headword(wref),
        }
    }
}

} // verus!
