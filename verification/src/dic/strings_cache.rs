//! Lazily read strings of a word: surface, reading, normalized and dictionary form.
use vstd::prelude::*;

use crate::dic::lexicon_set::LexiconSet;
use crate::dic::subset::InfoSubset;
use crate::dic::word_id::{raw_dic, WordId};
use crate::dic::word_info::parse::WordInfoRawData;

verus! {

/// The strings of a word, read on first use and kept.
#[derive(Clone, Debug)]
pub struct StringsCache {
    surface: Option<String>,
    reading: Option<String>,
    normalized_form: Option<String>,
    dictionary_form: Option<String>,
}

/// The chars of an optional string.
pub open spec fn cached(s: Option<String>) -> Option<Seq<char>> {
    match s {
        Some(v) => Some(v@),
        None => None,
    }
}

/// The headword that the word the raw id `target` names has, read from the string
/// block of dictionary `dic`, if both reads succeed.
pub open spec fn referenced_headword(set: LexiconSet, dic: nat, target: u32) -> Option<Seq<char>> {
    match set.info_of(target) {
        Some(info) => set.string_of(dic, info.fixed.headword_strptr),
        None => None,
    }
}

impl StringsCache {
    pub closed spec fn spec_surface(&self) -> Option<Seq<char>> {
        cached(self.surface)
    }

    pub closed spec fn spec_reading(&self) -> Option<Seq<char>> {
        cached(self.reading)
    }

    pub closed spec fn spec_normalized_form(&self) -> Option<Seq<char>> {
        cached(self.normalized_form)
    }

    pub closed spec fn spec_dictionary_form(&self) -> Option<Seq<char>> {
        cached(self.dictionary_form)
    }

    /// A cache with nothing read yet.
    pub fn new() -> (r: Self)
        ensures
            r.spec_surface() is None && r.spec_reading() is None,
            r.spec_normalized_form() is None && r.spec_dictionary_form() is None,
    {
        StringsCache { surface: None, reading: None, normalized_form: None, dictionary_form: None }
    }

    /// A cache with all strings given.
    pub fn new_with_strings(
        surface: String,
        reading: String,
        normalized_form: String,
        dictionary_form: String,
    ) -> (r: Self)
        ensures
            r.spec_surface() == Some(surface@),
            r.spec_reading() == Some(reading@),
            r.spec_normalized_form() == Some(normalized_form@),
            r.spec_dictionary_form() == Some(dictionary_form@),
    {
        StringsCache {
            surface: Some(surface),
            reading: Some(reading),
            normalized_form: Some(normalized_form),
            dictionary_form: Some(dictionary_form),
        }
    }

    /// A cache whose four strings are all `surface`.
    pub fn new_with_single_string(surface: String) -> (r: Self)
        ensures
            r.spec_surface() == Some(surface@),
            r.spec_reading() == Some(surface@),
            r.spec_normalized_form() == Some(surface@),
            r.spec_dictionary_form() == Some(surface@),
    {
        StringsCache::new_with_strings(surface.clone(), surface.clone(), surface.clone(), surface)
    }

    /// The surface: the headword of `word_info`, read once from the string block of
    /// the dictionary of `word_id`.
    pub fn surface(&mut self, lexicon_set: &LexiconSet, word_info: &WordInfoRawData, word_id: WordId) -> (r: &str)
        requires
            old(self).spec_surface() is None ==> raw_dic(word_id@) < lexicon_set.spec_lexicons().len()
                && lexicon_set.string_of(raw_dic(word_id@), word_info.headword_strptr) is Some,
        ensures
            r@ == match old(self).spec_surface() {
                Some(v) => v,
                None => lexicon_set.string_of(raw_dic(word_id@), word_info.headword_strptr).unwrap(),
            },
            final(self).spec_surface() == Some(r@),
            final(self).spec_reading() == old(self).spec_reading(),
            final(self).spec_normalized_form() == old(self).spec_normalized_form(),
            final(self).spec_dictionary_form() == old(self).spec_dictionary_form(),
    {
        if self.surface.is_none() {
            let s = lexicon_set.get_string(word_id.dict(), word_info.headword_strptr).unwrap();
            self.surface = Some(s);
        }
        self.surface.as_ref().unwrap().as_str()
    }

    /// The reading form, read once from the string block of the dictionary of `word_id`.
    pub fn reading(&mut self, lexicon_set: &LexiconSet, word_info: &WordInfoRawData, word_id: WordId) -> (r: &str)
        requires
            old(self).spec_reading() is None ==> raw_dic(word_id@) < lexicon_set.spec_lexicons().len()
                && lexicon_set.string_of(raw_dic(word_id@), word_info.reading_form_strptr) is Some,
        ensures
            r@ == match old(self).spec_reading() {
                Some(v) => v,
                None => lexicon_set.string_of(raw_dic(word_id@), word_info.reading_form_strptr).unwrap(),
            },
            final(self).spec_reading() == Some(r@),
            final(self).spec_surface() == old(self).spec_surface(),
            final(self).spec_normalized_form() == old(self).spec_normalized_form(),
            final(self).spec_dictionary_form() == old(self).spec_dictionary_form(),
    {
        if self.reading.is_none() {
            let s = lexicon_set.get_string(word_id.dict(), word_info.reading_form_strptr).unwrap();
            self.reading = Some(s);
        }
        self.reading.as_ref().unwrap().as_str()
    }

    /// The normalized form: the headword of the word the normalized form refers to,
    /// read once.
    pub fn normalized_form(
        &mut self,
        lexicon_set: &LexiconSet,
        word_info: &WordInfoRawData,
        word_id: WordId,
    ) -> (r: &str)
        requires
            old(self).spec_normalized_form() is None ==> raw_dic(word_id@)
                < lexicon_set.spec_lexicons().len() && lexicon_set.has_entry(word_info.normalized_form)
                && referenced_headword(*lexicon_set, raw_dic(word_id@), word_info.normalized_form) is Some,
        ensures
            r@ == match old(self).spec_normalized_form() {
                Some(v) => v,
                None => referenced_headword(*lexicon_set, raw_dic(word_id@), word_info.normalized_form).unwrap(),
            },
            final(self).spec_normalized_form() == Some(r@),
            final(self).spec_surface() == old(self).spec_surface(),
            final(self).spec_reading() == old(self).spec_reading(),
            final(self).spec_dictionary_form() == old(self).spec_dictionary_form(),
    {
        if self.normalized_form.is_none() {
            let s = Self::read_referenced(lexicon_set, word_info.normalized_form, word_id);
            self.normalized_form = Some(s);
        }
        self.normalized_form.as_ref().unwrap().as_str()
    }

    /// The dictionary form (the lemma): the headword of the word the dictionary form
    /// refers to, read once.
    pub fn dictionary_form(
        &mut self,
        lexicon_set: &LexiconSet,
        word_info: &WordInfoRawData,
        word_id: WordId,
    ) -> (r: &str)
        requires
            old(self).spec_dictionary_form() is None ==> raw_dic(word_id@)
                < lexicon_set.spec_lexicons().len() && lexicon_set.has_entry(word_info.dictionary_form)
                && referenced_headword(*lexicon_set, raw_dic(word_id@), word_info.dictionary_form) is Some,
        ensures
            r@ == match old(self).spec_dictionary_form() {
                Some(v) => v,
                None => referenced_headword(*lexicon_set, raw_dic(word_id@), word_info.dictionary_form).unwrap(),
            },
            final(self).spec_dictionary_form() == Some(r@),
            final(self).spec_surface() == old(self).spec_surface(),
            final(self).spec_reading() == old(self).spec_reading(),
            final(self).spec_normalized_form() == old(self).spec_normalized_form(),
    {
        if self.dictionary_form.is_none() {
            let s = Self::read_referenced(lexicon_set, word_info.dictionary_form, word_id);
            self.dictionary_form = Some(s);
        }
        self.dictionary_form.as_ref().unwrap().as_str()
    }

    /// The headword of the word `target`, read from the string block of the
    /// dictionary of `word_id`.
    fn read_referenced(lexicon_set: &LexiconSet, target: u32, word_id: WordId) -> (r: String)
        requires
            raw_dic(word_id@) < lexicon_set.spec_lexicons().len(),
            lexicon_set.has_entry(target),
            referenced_headword(*lexicon_set, raw_dic(word_id@), target) is Some,
        ensures
            r@ == referenced_headword(*lexicon_set, raw_dic(word_id@), target).unwrap(),
    {
        let ref_word_id = WordId::from_raw(target);
        let ref_word_info = lexicon_set.get_word_info_subset(ref_word_id, InfoSubset::headword()).unwrap();
        lexicon_set.get_string(word_id.dict(), ref_word_info.headword_strptr).unwrap()
    }
}

impl Default for StringsCache {
    fn default() -> (r: Self)
        ensures
            r.spec_surface() is None && r.spec_reading() is None,
            r.spec_normalized_form() is None && r.spec_dictionary_form() is None,
    {
        StringsCache::new()
    }
}

} // verus!
