//! The lexicon of one dictionary: the word id lists of the index, the word
//! parameters, the word infos and the strings.
pub mod strings;
pub mod word_id_table;
pub mod word_params;

use vstd::prelude::*;

use self::strings::{spec_string_at, CompactedStrings, StringPointer};
use self::word_id_table::{spec_word_id_list, WordIdTable};
use self::word_params::{spec_i16_field, WordParams};
use crate::dic::binary_loader::BinaryLexicon;
use crate::dic::subset::InfoSubset;
use crate::dic::word_id::{raw_word_id, EntryId, WordId};
use crate::dic::word_info::infos::{spec_entry_offsets, WordInfos};
use crate::dic::word_info::layout::ENTRY_INITIAL_OFFSET;
use crate::dic::word_info::parse::{spec_parse_word_info, WordInfoRawData};
use crate::error::SudachiResult;

verus! {

/// The top 4 bits of a word id tell which lexicon the word comes from, so at most
/// 15 lexicons are used together; the 16th id marks out-of-vocabulary words.
pub const MAX_DICTIONARIES: usize = 15;

/// A result of a lexicon lookup.
#[derive(Eq, PartialEq, Debug, Clone, Copy, Structural)]
pub struct LexiconEntry {
    /// The id of the word.
    pub word_id: WordId,
    /// The byte index where the word ends.
    pub end: usize,
}

impl LexiconEntry {
    pub fn new(word_id: WordId, end: usize) -> (r: LexiconEntry)
        ensures
            r.word_id == word_id,
            r.end == end,
    {
        LexiconEntry { word_id, end }
    }
}

/// The words that index matches give: for each match (a word id list offset and
/// the end of the match), the raw word id of each word of the list in lexicon
/// `lex`, with the end.
pub open spec fn spec_lookup(table: Seq<u8>, lex: u8, matches: Seq<(u32, usize)>) -> Seq<
    (u32, usize),
>
    decreases matches.len(),
{
    if matches.len() == 0 {
        Seq::empty()
    } else {
        let m = matches.last();
        spec_lookup(table, lex, matches.drop_last()) + spec_word_id_list(
            table.skip(m.0 as int),
        ).unwrap().map_values(|id: u32| (raw_word_id(lex as nat, id as nat % 0x1000_0000), m.1))
    }
}

/// Looking up the matches of `a` and then of `b` gives, one after the other, what
/// looking up each gives: no match is dropped and none is reordered.
pub proof fn lookup_of_joined_matches(table: Seq<u8>, lex: u8, a: Seq<(u32, usize)>, b: Seq<(u32, usize)>)
    ensures
        spec_lookup(table, lex, a + b) == spec_lookup(table, lex, a) + spec_lookup(table, lex, b),
    decreases b.len(),
{
    if b.len() == 0 {
        assert(a + b =~= a);
        assert(spec_lookup(table, lex, a) + spec_lookup(table, lex, b) =~= spec_lookup(table, lex, a));
    } else {
        assert((a + b).drop_last() =~= a + b.drop_last());
        assert((a + b).last() == b.last());
        lookup_of_joined_matches(table, lex, a, b.drop_last());
        let m = b.last();
        let w = spec_word_id_list(table.skip(m.0 as int)).unwrap().map_values(
            |id: u32| (raw_word_id(lex as nat, id as nat % 0x1000_0000), m.1),
        );
        assert(spec_lookup(table, lex, a) + spec_lookup(table, lex, b.drop_last()) + w
            =~= spec_lookup(table, lex, a) + (spec_lookup(table, lex, b.drop_last()) + w));
    }
}

/// Looking up one match gives each word of the word id list at its offset, in the
/// list's order, as a word of lexicon `lex`, with the end of the match.
pub proof fn lookup_of_one_match(table: Seq<u8>, lex: u8, m: (u32, usize))
    requires
        spec_word_id_list(table.skip(m.0 as int)) is Some,
    ensures
        ({
            let list = spec_word_id_list(table.skip(m.0 as int)).unwrap();
            let found = spec_lookup(table, lex, seq![m]);
            &&& found.len() == list.len()
            &&& forall|k: int|
                0 <= k < list.len() ==> #[trigger] found[k] == (
                    raw_word_id(lex as nat, list[k] as nat % 0x1000_0000),
                    m.1,
                )
        }),
{
    assert(seq![m].drop_last() =~= Seq::<(u32, usize)>::empty());
    let list = spec_word_id_list(table.skip(m.0 as int)).unwrap();
    let w = list.map_values(|id: u32| (raw_word_id(lex as nat, id as nat % 0x1000_0000), m.1));
    assert(seq![m].len() == 1 && seq![m].last() == m);
    assert(spec_lookup(table, lex, seq![m].drop_last()) == Seq::<(u32, usize)>::empty());
    assert(spec_lookup(table, lex, seq![m]) == spec_lookup(table, lex, seq![m].drop_last()) + w);
    assert(Seq::<(u32, usize)>::empty() + w =~= w);
    assert forall|k: int| 0 <= k < list.len() implies #[trigger] w[k] == (
        raw_word_id(lex as nat, list[k] as nat % 0x1000_0000),
        m.1,
    ) by {}
}

/// The lexicon of one dictionary.
pub struct Lexicon<'a> {
    lex_id: u8,
    word_id_table: WordIdTable<'a>,
    word_params: WordParams,
    word_infos: WordInfos<'a>,
    strings: CompactedStrings<'a>,
}

impl<'a> Lexicon<'a> {
    /// The id of the lexicon among the lexicons used together.
    pub closed spec fn spec_lex_id(&self) -> u8 {
        self.lex_id
    }

    /// The word id lists block.
    pub closed spec fn spec_table(&self) -> Seq<u8> {
        self.word_id_table@
    }

    /// The word parameters, by entry id.
    pub closed spec fn spec_params(&self) -> Seq<u64> {
        self.word_params@
    }

    /// The entries block.
    pub closed spec fn spec_infos(&self) -> Seq<u8> {
        self.word_infos@
    }

    /// The string block.
    pub closed spec fn spec_strings(&self) -> Seq<u8> {
        self.strings@
    }

    /// The lexicon made of the blocks of a binary dictionary; its id is unset (255).
    pub fn from_binary(binary_lexicon: BinaryLexicon<'a>) -> (r: SudachiResult<Self>)
        ensures
            r matches Ok(l) && l.spec_lex_id() == 255 && l.spec_table() == binary_lexicon.word_id_table@
                && l.spec_params() == binary_lexicon.word_params@ && l.spec_infos()
                == binary_lexicon.word_infos@ && l.spec_strings() == binary_lexicon.strings@,
    {
        Ok(
            Self {
                word_id_table: binary_lexicon.word_id_table,
                word_params: binary_lexicon.word_params,
                word_infos: binary_lexicon.word_infos,
                strings: binary_lexicon.strings,
                lex_id: u8::MAX,
            },
        )
    }

    /// Assigns the id of the lexicon.
    pub fn set_dic_id(&mut self, id: u8)
        requires
            id < MAX_DICTIONARIES,
        ensures
            final(self).spec_lex_id() == id,
            final(self).spec_table() == old(self).spec_table(),
            final(self).spec_params() == old(self).spec_params(),
            final(self).spec_infos() == old(self).spec_infos(),
            final(self).spec_strings() == old(self).spec_strings(),
    {
        self.lex_id = id
    }

    fn word_id(&self, raw_id: u32) -> (r: WordId)
        requires
            self.spec_lex_id() < 16,
        ensures
            r@ == raw_word_id(self.spec_lex_id() as nat, raw_id as nat % 0x1000_0000),
    {
        WordId::new(self.lex_id, raw_id)
    }

    /// The words of the word id lists that index matches point to, each with the
    /// end of its match, in the order of the matches and of the lists.
    pub fn lookup(&self, matches: &[(u32, usize)]) -> (r: Vec<LexiconEntry>)
        requires
            self.spec_lex_id() < MAX_DICTIONARIES,
            forall|k: int|
                0 <= k < matches@.len() ==> (#[trigger] matches@[k]).0 < self.spec_table().len()
                    && spec_word_id_list(self.spec_table().skip(matches@[k].0 as int)) is Some,
        ensures
            r@.map_values(|e: LexiconEntry| (e.word_id@, e.end)) == spec_lookup(
                self.spec_table(),
                self.spec_lex_id(),
                matches@,
            ),
    {
        let mut out: Vec<LexiconEntry> = Vec::new();
        let mut k: usize = 0;
        while k < matches.len()
            invariant
                0 <= k <= matches@.len(),
                self.spec_lex_id() < MAX_DICTIONARIES,
                forall|j: int|
                    0 <= j < matches@.len() ==> (#[trigger] matches@[j]).0 < self.spec_table().len()
                        && spec_word_id_list(self.spec_table().skip(matches@[j].0 as int)) is Some,
                out@.map_values(|e: LexiconEntry| (e.word_id@, e.end)) == spec_lookup(
                    self.spec_table(),
                    self.spec_lex_id(),
                    matches@.take(k as int),
                ),
            decreases matches@.len() - k,
        {
            let (value, end) = matches[k];
            assert(matches@[k as int] == (value, end));
            let ghost before = out@;
            let mut iter = self.word_id_table.entries(value as usize);
            let ids = iter.collect_all();
            let mut j: usize = 0;
            while j < ids.len()
                invariant
                    0 <= j <= ids@.len(),
                    self.spec_lex_id() < MAX_DICTIONARIES,
                    out@.len() == before.len() + j,
                    out@.subrange(0, before.len() as int) == before,
                    forall|t: int|
                        0 <= t < j ==> (#[trigger] out@[before.len() + t]).word_id@ == raw_word_id(
                            self.spec_lex_id() as nat,
                            ids@[t] as nat % 0x1000_0000,
                        ) && out@[before.len() + t].end == end,
                decreases ids@.len() - j,
            {
                out.push(LexiconEntry::new(self.word_id(ids[j]), end));
                j = j + 1;
                proof {
                    assert(out@.subrange(0, before.len() as int) =~= before);
                }
            }
            proof {
                let list = spec_word_id_list(self.spec_table().skip(value as int)).unwrap();
                assert(ids@ == list);
                assert(matches@.take(k + 1).drop_last() =~= matches@.take(k as int));
                assert(matches@.take(k + 1).last() == (value, end));
                let lhs = out@.map_values(|e: LexiconEntry| (e.word_id@, e.end));
                let rhs = before.map_values(|e: LexiconEntry| (e.word_id@, e.end)) + list.map_values(
                    |id: u32| (raw_word_id(self.spec_lex_id() as nat, id as nat % 0x1000_0000), end),
                );
                assert(lhs.len() == rhs.len());
                assert forall|t: int| 0 <= t < lhs.len() implies lhs[t] == rhs[t] by {
                    if t < before.len() {
                        assert(out@[t] == out@.subrange(0, before.len() as int)[t]);
                    } else {
                        let u = t - before.len();
                        assert(out@[before.len() + u].word_id@ == raw_word_id(
                            self.spec_lex_id() as nat,
                            ids@[u] as nat % 0x1000_0000,
                        ));
                    }
                }
                assert(out@.map_values(|e: LexiconEntry| (e.word_id@, e.end)) =~= before.map_values(
                    |e: LexiconEntry| (e.word_id@, e.end),
                ) + list.map_values(
                    |id: u32| (raw_word_id(self.spec_lex_id() as nat, id as nat % 0x1000_0000), end),
                ));
            }
            k = k + 1;
        }
        proof {
            assert(matches@.take(k as int) =~= matches@);
        }
        out
    }

    /// The word info of an entry.
    pub fn get_word_info(&self, entry_id: EntryId, subset: InfoSubset) -> (r: SudachiResult<
        WordInfoRawData,
    >)
        requires
            entry_id@ * 8 <= self.spec_infos().len(),
        ensures
            r is Ok <==> spec_parse_word_info(self.spec_infos().skip(entry_id@ * 8)) is Some,
            r matches Ok(info) ==> spec_parse_word_info(self.spec_infos().skip(entry_id@ * 8))
                == Some(info@),
    {
        self.word_infos.get_word_info(entry_id, subset)
    }

    /// The length of the entries block.
    pub fn entries_len(&self) -> (r: usize)
        ensures
            r == self.spec_infos().len(),
    {
        self.word_infos.len()
    }

    /// The ids of the first `n` entries in the order they are stored; see
    /// [`WordInfos::entry_ids_in_order`].
    pub fn entry_ids_in_order(&self, n: u32) -> (r: Option<Vec<EntryId>>)
        ensures
            r is Some <==> spec_entry_offsets(self.spec_infos(), ENTRY_INITIAL_OFFSET as int, n as nat) is Some,
            r matches Some(ids) ==> ids@.len() == n && forall|i: int|
                0 <= i < ids@.len() ==> #[trigger] ids@[i]@ == (spec_entry_offsets(
                    self.spec_infos(),
                    ENTRY_INITIAL_OFFSET as int,
                    n as nat,
                ).unwrap()[i] / 8) as u32,
    {
        self.word_infos.entry_ids_in_order(n)
    }

    /// The string at a pointer of the string block.
    pub fn get_string(&self, ptr: StringPointer) -> (r: SudachiResult<String>)
        ensures
            r is Ok <==> spec_string_at(self.spec_strings(), ptr) is Some,
            r matches Ok(s) ==> spec_string_at(self.spec_strings(), ptr) == Some(s@),
    {
        self.strings.get(ptr)
    }

    /// The left id, right id and cost of an entry.
    pub fn get_word_param(&self, entry_id: EntryId) -> (r: (i16, i16, i16))
        requires
            entry_id@ < self.spec_params().len(),
        ensures
            r == (
                spec_i16_field(self.spec_params()[entry_id@ as int], 0),
                spec_i16_field(self.spec_params()[entry_id@ as int], 1),
                spec_i16_field(self.spec_params()[entry_id@ as int], 2),
            ),
    {
        let params = self.word_params.get_params(entry_id.as_raw());
        (params.left_id(), params.right_id(), params.cost())
    }
}

} // verus!
