//! The lexicons used together: the system lexicon first, then user lexicons.
use vstd::prelude::*;

use crate::dic::lexicon::strings::{spec_string_at, StringPointer};
use crate::dic::lexicon::{Lexicon, MAX_DICTIONARIES};
use crate::dic::subset::InfoSubset;
use crate::dic::word_id::{raw_dic, raw_entry, DictId, WordId};
use crate::dic::word_info::parse::{spec_parse_word_info, WordInfoRawData, WordInfoRawView};
use crate::error::SudachiResult;

verus! {

/// The lexicons used together; the id of a lexicon is its index.
pub struct LexiconSet<'a> {
    lexicons: Vec<Lexicon<'a>>,
}

impl<'a> LexiconSet<'a> {
    pub closed spec fn spec_lexicons(&self) -> Seq<Lexicon<'a>> {
        self.lexicons@
    }

    /// The word info stored for a raw word id, if it reads.
    pub open spec fn info_of(&self, raw: u32) -> Option<WordInfoRawView> {
        spec_parse_word_info(self.spec_lexicons()[raw_dic(raw) as int].spec_infos().skip((raw_entry(raw) * 8) as int))
    }

    /// Whether a raw word id names an entry inside the lexicon it names.
    pub open spec fn has_entry(&self, raw: u32) -> bool {
        raw_dic(raw) < self.spec_lexicons().len() && raw_entry(raw) * 8
            <= self.spec_lexicons()[raw_dic(raw) as int].spec_infos().len()
    }

    /// The string at a pointer of the string block of lexicon `dic`.
    pub open spec fn string_of(&self, dic: nat, ptr: StringPointer) -> Option<Seq<char>> {
        spec_string_at(self.spec_lexicons()[dic as int].spec_strings(), ptr)
    }

    /// The set made of the system lexicon, which gets id 0.
    pub fn new(system: Lexicon<'a>) -> (r: Self)
        ensures
            r.spec_lexicons().len() == 1,
            r.spec_lexicons()[0].spec_lex_id() == 0,
            r.spec_lexicons()[0].spec_infos() == system.spec_infos(),
            r.spec_lexicons()[0].spec_strings() == system.spec_strings(),
            r.spec_lexicons()[0].spec_table() == system.spec_table(),
            r.spec_lexicons()[0].spec_params() == system.spec_params(),
    {
        let mut system = system;
        system.set_dic_id(0);
        let mut lexicons: Vec<Lexicon<'a>> = Vec::new();
        lexicons.push(system);
        LexiconSet { lexicons }
    }

    /// Adds a user lexicon, which gets the next id; at most 15 lexicons are used.
    pub fn append(&mut self, lexicon: Lexicon<'a>) -> (r: bool)
        ensures
            r == (old(self).spec_lexicons().len() < MAX_DICTIONARIES),
            r ==> final(self).spec_lexicons().len() == old(self).spec_lexicons().len() + 1
                && final(self).spec_lexicons().take(old(self).spec_lexicons().len() as int) == old(
                self,
            ).spec_lexicons() && final(self).spec_lexicons().last().spec_lex_id() == old(
                self,
            ).spec_lexicons().len() && final(self).spec_lexicons().last().spec_infos()
                == lexicon.spec_infos() && final(self).spec_lexicons().last().spec_strings()
                == lexicon.spec_strings(),
            !r ==> final(self).spec_lexicons() == old(self).spec_lexicons(),
    {
        let n = self.lexicons.len();
        if n >= MAX_DICTIONARIES {
            return false;
        }
        let mut lexicon = lexicon;
        lexicon.set_dic_id(n as u8);
        self.lexicons.push(lexicon);
        proof {
            assert(self.lexicons@.take(n as int) =~= old(self).lexicons@);
        }
        true
    }

    /// The word info of a word.
    pub fn get_word_info_subset(&self, id: WordId, subset: InfoSubset) -> (r: SudachiResult<
        WordInfoRawData,
    >)
        requires
            self.has_entry(id@),
        ensures
            r is Ok <==> self.info_of(id@) is Some,
            r matches Ok(info) ==> self.info_of(id@) == Some(info@),
    {
        let dic = id.dic() as usize;
        self.lexicons[dic].get_word_info(id.entry(), subset)
    }

    /// The string at a pointer of the string block of a lexicon.
    pub fn get_string(&self, dict_id: DictId, ptr: StringPointer) -> (r: SudachiResult<String>)
        requires
            dict_id@ < self.spec_lexicons().len(),
        ensures
            r is Ok <==> self.string_of(dict_id@ as nat, ptr) is Some,
            r matches Ok(s) ==> self.string_of(dict_id@ as nat, ptr) == Some(s@),
    {
        self.lexicons[dict_id.as_raw() as usize].get_string(ptr)
    }
}

} // verus!
