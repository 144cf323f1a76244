//! The strings of one analysed word, read from the lexicons on first use.
use vstd::prelude::*;

use crate::dic::lexicon_set::LexiconSet;
use crate::dic::strings_cache::{cached, referenced_headword};
use crate::dic::subset::InfoSubset;
use crate::dic::word_id::{raw_dic, DictId, WordId};
use crate::dic::word_info::parse::{WordInfoRawData, WordInfoRawView};

verus! {

/// The word info of a word, bound to the lexicons it is read from; the info and
/// the four strings are read at most once.
pub struct StringsCache<'a> {
    pub lexicon_set: &'a LexiconSet<'a>,
    pub word_id: WordId,
    dict_id: DictId,
    word_info: Option<WordInfoRawData>,
    surface: Option<String>,
    reading: Option<String>,
    normalized_form: Option<String>,
    dictionary_form: Option<String>,
}

/// The view of an optional word info.
pub open spec fn cached_info(w: Option<WordInfoRawData>) -> Option<WordInfoRawView> {
    match w {
        Some(i) => Some(i@),
        None => None,
    }
}

impl<'a> StringsCache<'a> {
    /// The dictionary id kept beside the word id is the word id's own.
    pub closed spec fn wf(&self) -> bool {
        self.dict_id@ == raw_dic(self.word_id@)
    }

    pub closed spec fn spec_lexicon_set(&self) -> LexiconSet<'a> {
        *self.lexicon_set
    }

    pub closed spec fn spec_word_id(&self) -> WordId {
        self.word_id
    }

    pub closed spec fn spec_info(&self) -> Option<WordInfoRawView> {
        cached_info(self.word_info)
    }

    pub closed spec fn spec_surface(&self) -> Option<Seq<char>> {
        cached(self.surface)
    }

    pub closed spec fn spec_reading(&self) -> Option<Seq<char>> {
        cached(self.reading)
    }

    pub closed spec fn spec_normalized_form(&self) -> Option<Seq<char>> {
        cached(self.normalized_form)
    }

    pub closed spec fn spec_dictionary_form(&self) -> Option<Seq<char>> {
        cached(self.dictionary_form)
    }

    /// The word info that [`Self::word_info`] gives: the one kept, or the one stored
    /// for the word.
    pub open spec fn current_info(&self) -> WordInfoRawView {
        match self.spec_info() {
            Some(i) => i,
            None => self.spec_lexicon_set().info_of(self.spec_word_id()@).unwrap(),
        }
    }

    /// Whether the word info can be had: kept already, or stored for the word.
    pub open spec fn info_readable(&self) -> bool {
        self.spec_info() is None ==> self.spec_lexicon_set().has_entry(self.spec_word_id()@)
            && self.spec_lexicon_set().info_of(self.spec_word_id()@) is Some
    }

    /// Bound to the same lexicons and word as `other`, and well formed.
    pub open spec fn same_word(&self, other: &Self) -> bool {
        &&& self.spec_lexicon_set() == other.spec_lexicon_set()
        &&& self.spec_word_id() == other.spec_word_id()
        &&& self.wf()
    }

    /// A cache for `word_id` with nothing read yet.
    pub fn new(lexicon_set: &'a LexiconSet<'a>, word_id: WordId) -> (r: Self)
        ensures
            r.wf(),
            r.spec_lexicon_set() == *lexicon_set,
            r.spec_word_id() == word_id,
            r.spec_info() is None,
            r.spec_surface() is None && r.spec_reading() is None,
            r.spec_normalized_form() is None && r.spec_dictionary_form() is None,
    {
        StringsCache {
            lexicon_set,
            word_id,
            dict_id: word_id.dict(),
            word_info: None,
            surface: None,
            reading: None,
            normalized_form: None,
            dictionary_form: None,
        }
    }

    /// A cache for `word_id` whose word info is given.
    pub fn new_with_info(
        lexicon_set: &'a LexiconSet<'a>,
        word_id: WordId,
        word_info: WordInfoRawData,
    ) -> (r: Self)
        ensures
            r.wf(),
            r.spec_lexicon_set() == *lexicon_set,
            r.spec_word_id() == word_id,
            r.spec_info() == Some(word_info@),
            r.spec_surface() is None && r.spec_reading() is None,
            r.spec_normalized_form() is None && r.spec_dictionary_form() is None,
    {
        StringsCache {
            lexicon_set,
            word_id,
            dict_id: word_id.dict(),
            word_info: Some(word_info),
            surface: None,
            reading: None,
            normalized_form: None,
            dictionary_form: None,
        }
    }

    /// A cache for `word_id` whose word info and four strings are given.
    pub fn new_with_strings(
        lexicon_set: &'a LexiconSet<'a>,
        word_id: WordId,
        word_info: WordInfoRawData,
        surface: String,
        reading: String,
        normalized_form: String,
        dictionary_form: String,
    ) -> (r: Self)
        ensures
            r.wf(),
            r.spec_lexicon_set() == *lexicon_set,
            r.spec_word_id() == word_id,
            r.spec_info() == Some(word_info@),
            r.spec_surface() == Some(surface@),
            r.spec_reading() == Some(reading@),
            r.spec_normalized_form() == Some(normalized_form@),
            r.spec_dictionary_form() == Some(dictionary_form@),
    {
        StringsCache {
            lexicon_set,
            word_id,
            dict_id: word_id.dict(),
            word_info: Some(word_info),
            surface: Some(surface),
            reading: Some(reading),
            normalized_form: Some(normalized_form),
            dictionary_form: Some(dictionary_form),
        }
    }

    /// A cache for `word_id` whose word info is given and whose four strings are all
    /// `surface`.
    pub fn new_with_single_string(
        lexicon_set: &'a LexiconSet<'a>,
        word_id: WordId,
        word_info: WordInfoRawData,
        surface: String,
    ) -> (r: Self)
        ensures
            r.wf(),
            r.spec_lexicon_set() == *lexicon_set,
            r.spec_word_id() == word_id,
            r.spec_info() == Some(word_info@),
            r.spec_surface() == Some(surface@),
            r.spec_reading() == Some(surface@),
            r.spec_normalized_form() == Some(surface@),
            r.spec_dictionary_form() == Some(surface@),
    {
        StringsCache::new_with_strings(
            lexicon_set,
            word_id,
            word_info,
            surface.clone(),
            surface.clone(),
            surface.clone(),
            surface,
        )
    }

    /// The word info: the one kept, or else the one stored for the word, which is
    /// then kept.
    pub fn word_info(&mut self) -> (r: &WordInfoRawData)
        requires
            old(self).wf(),
            old(self).info_readable(),
        ensures
            r@ == old(self).current_info(),
            final(self).spec_info() == Some(r@),
            final(self).same_word(old(self)),
            final(self).spec_surface() == old(self).spec_surface(),
            final(self).spec_reading() == old(self).spec_reading(),
            final(self).spec_normalized_form() == old(self).spec_normalized_form(),
            final(self).spec_dictionary_form() == old(self).spec_dictionary_form(),
    {
        if self.word_info.is_none() {
            let subset = InfoSubset::headword().union(InfoSubset::reading_form()).union(
                InfoSubset::normalized_form(),
            ).union(InfoSubset::dictionary_form());
            let info = self.lexicon_set.get_word_info_subset(self.word_id, subset).unwrap();
            self.word_info = Some(info);
        }
        self.word_info.as_ref().unwrap()
    }

    /// The string at `ptr` in the string block of the word's own dictionary.
    pub open spec fn own_string(&self, ptr: crate::dic::lexicon::strings::StringPointer) -> Option<
        Seq<char>,
    > {
        self.spec_lexicon_set().string_of(raw_dic(self.spec_word_id()@), ptr)
    }

    /// The headword of the word `target`, read from the word's own dictionary.
    pub open spec fn own_referenced(&self, target: u32) -> Option<Seq<char>> {
        referenced_headword(self.spec_lexicon_set(), raw_dic(self.spec_word_id()@), target)
    }

    /// The word's own dictionary is one of the lexicons.
    pub open spec fn dic_in_set(&self) -> bool {
        raw_dic(self.spec_word_id()@) < self.spec_lexicon_set().spec_lexicons().len()
    }

    /// After reading one string: the word info is the one that was used, and the
    /// other strings kept stay.
    pub open spec fn read_one(&self, old_cache: &Self) -> bool {
        &&& self.same_word(old_cache)
        &&& self.spec_info() == Some(old_cache.current_info())
    }

    /// The surface: the string kept, or else the headword of the word info, read
    /// from the word's dictionary and kept.
    pub fn surface(&mut self) -> (r: &str)
        requires
            old(self).wf(),
            old(self).spec_surface() is None ==> old(self).info_readable() && old(self).dic_in_set()
                && old(self).own_string(old(self).current_info().fixed.headword_strptr) is Some,
        ensures
            r@ == match old(self).spec_surface() {
                Some(v) => v,
                None => old(self).own_string(old(self).current_info().fixed.headword_strptr).unwrap(),
            },
            final(self).spec_surface() == Some(r@),
            final(self).same_word(old(self)),
            old(self).spec_surface() is None ==> final(self).read_one(old(self)),
            old(self).spec_surface() is Some ==> final(self).spec_info() == old(self).spec_info(),
            final(self).spec_reading() == old(self).spec_reading(),
            final(self).spec_normalized_form() == old(self).spec_normalized_form(),
            final(self).spec_dictionary_form() == old(self).spec_dictionary_form(),
    {
        if self.surface.is_none() {
            let info = self.word_info();
            let ptr = info.headword_strptr;
            let s = self.lexicon_set.get_string(self.dict_id, ptr).unwrap();
            self.surface = Some(s);
        }
        self.surface.as_ref().unwrap().as_str()
    }

    /// The reading form: the string kept, or else the reading form of the word info,
    /// read from the word's dictionary and kept.
    pub fn reading(&mut self) -> (r: &str)
        requires
            old(self).wf(),
            old(self).spec_reading() is None ==> old(self).info_readable() && old(self).dic_in_set()
                && old(self).own_string(old(self).current_info().fixed.reading_form_strptr) is Some,
        ensures
            r@ == match old(self).spec_reading() {
                Some(v) => v,
                None => old(self).own_string(old(self).current_info().fixed.reading_form_strptr).unwrap(),
            },
            final(self).spec_reading() == Some(r@),
            final(self).same_word(old(self)),
            old(self).spec_reading() is None ==> final(self).read_one(old(self)),
            old(self).spec_reading() is Some ==> final(self).spec_info() == old(self).spec_info(),
            final(self).spec_surface() == old(self).spec_surface(),
            final(self).spec_normalized_form() == old(self).spec_normalized_form(),
            final(self).spec_dictionary_form() == old(self).spec_dictionary_form(),
    {
        if self.reading.is_none() {
            let info = self.word_info();
            let ptr = info.reading_form_strptr;
            let s = self.lexicon_set.get_string(self.dict_id, ptr).unwrap();
            self.reading = Some(s);
        }
        self.reading.as_ref().unwrap().as_str()
    }

    /// The normalized form: the string kept, or else the headword of the word that
    /// the word info names as normalized form, read from the word's dictionary and
    /// kept.
    pub fn normalized_form(&mut self) -> (r: &str)
        requires
            old(self).wf(),
            old(self).spec_normalized_form() is None ==> old(self).info_readable() && old(
                self,
            ).dic_in_set() && old(self).spec_lexicon_set().has_entry(
                old(self).current_info().fixed.normalized_form,
            ) && old(self).own_referenced(old(self).current_info().fixed.normalized_form) is Some,
        ensures
            r@ == match old(self).spec_normalized_form() {
                Some(v) => v,
                None => old(self).own_referenced(old(self).current_info().fixed.normalized_form).unwrap(),
            },
            final(self).spec_normalized_form() == Some(r@),
            final(self).same_word(old(self)),
            old(self).spec_normalized_form() is None ==> final(self).read_one(old(self)),
            old(self).spec_normalized_form() is Some ==> final(self).spec_info() == old(
                self,
            ).spec_info(),
            final(self).spec_surface() == old(self).spec_surface(),
            final(self).spec_reading() == old(self).spec_reading(),
            final(self).spec_dictionary_form() == old(self).spec_dictionary_form(),
    {
        if self.normalized_form.is_none() {
            let info = self.word_info();
            let target = info.normalized_form;
            let s = self.read_referenced(target);
            self.normalized_form = Some(s);
        }
        self.normalized_form.as_ref().unwrap().as_str()
    }

    /// The dictionary form (the lemma): the string kept, or else the headword of the
    /// word that the word info names as dictionary form, read from the word's
    /// dictionary and kept.
    pub fn dictionary_form(&mut self) -> (r: &str)
        requires
            old(self).wf(),
            old(self).spec_dictionary_form() is None ==> old(self).info_readable() && old(
                self,
            ).dic_in_set() && old(self).spec_lexicon_set().has_entry(
                old(self).current_info().fixed.dictionary_form,
            ) && old(self).own_referenced(old(self).current_info().fixed.dictionary_form) is Some,
        ensures
            r@ == match old(self).spec_dictionary_form() {
                Some(v) => v,
                None => old(self).own_referenced(old(self).current_info().fixed.dictionary_form).unwrap(),
            },
            final(self).spec_dictionary_form() == Some(r@),
            final(self).same_word(old(self)),
            old(self).spec_dictionary_form() is None ==> final(self).read_one(old(self)),
            old(self).spec_dictionary_form() is Some ==> final(self).spec_info() == old(
                self,
            ).spec_info(),
            final(self).spec_surface() == old(self).spec_surface(),
            final(self).spec_reading() == old(self).spec_reading(),
            final(self).spec_normalized_form() == old(self).spec_normalized_form(),
    {
        if self.dictionary_form.is_none() {
            let info = self.word_info();
            let target = info.dictionary_form;
            let s = self.read_referenced(target);
            self.dictionary_form = Some(s);
        }
        self.dictionary_form.as_ref().unwrap().as_str()
    }

    /// The headword of the word `target`, read from the word's own dictionary.
    fn read_referenced(&self, target: u32) -> (r: String)
        requires
            self.wf(),
            self.dic_in_set(),
            self.spec_lexicon_set().has_entry(target),
            self.own_referenced(target) is Some,
        ensures
            r@ == self.own_referenced(target).unwrap(),
    {
        let ref_word_id = WordId::from_raw(target);
        let ref_info = self.lexicon_set.get_word_info_subset(ref_word_id, InfoSubset::headword()).unwrap();
        self.lexicon_set.get_string(self.dict_id, ref_info.headword_strptr).unwrap()
    }
}

} // verus!
