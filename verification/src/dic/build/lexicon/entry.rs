//! A lexicon entry as the builder holds it, and how it is written.
use vstd::prelude::*;
use vstd::utf8::encode_utf8;

use crate::analysis::Mode;
use crate::dic::build::error::BuildFailure;
use crate::dic::build::lexicon::refs::{
    duplicate_refs, refs_view, same_refs, NormFormValue, WordRef,
};
use crate::dic::build::resolve::ResolverEntryView;
use crate::dic::lexicon::strings::StringPointer;
use crate::dic::read::primitives::{spec_i16_bytes, write_i16};
use crate::dic::read::utf16_string::{encode_utf16, spec_utf16_encode};
use crate::dic::word_id::WordId;
use crate::dic::word_info::layout::{
    size_from_variable_layout, spec_aligned, spec_layout_user_units, spec_unaligned_size,
    spec_variable_layout, WordInfoVariableLayout,
};
use crate::dic::word_info::raw::{
    lemma_variable_bytes_len, spec_fixed_bytes, spec_variable_bytes, WordInfoFixedData, WordInfoVariableData,
};

verus! {

/// Whether every reference of a list is resolved to a word.
pub open spec fn refs_resolved(refs: Seq<WordRef>) -> bool {
    forall|i: int| 0 <= i < refs.len() ==> refs[i] is Ref
}

/// The raw word id of a resolved reference (0 for any other).
pub open spec fn ref_raw_id(r: WordRef) -> u32 {
    match r {
        WordRef::Ref(w) => w@,
        _ => 0,
    }
}

/// The raw word ids of a list of resolved references.
pub open spec fn ref_raw_ids(refs: Seq<WordRef>) -> Seq<u32> {
    refs.map_values(|r: WordRef| ref_raw_id(r))
}

/// The synonym group ids as they are stored.
pub open spec fn stored_synonyms(groups: Seq<u32>) -> Seq<i32> {
    groups.map_values(|g: u32| g as i32)
}

/// A lexicon entry as read from a lexicon source.
pub struct RawLexiconEntry {
    pub left_id: i16,
    pub right_id: i16,
    pub cost: i16,
    pub surface: String,
    pub headword: Option<String>,
    pub dic_form: WordRef,
    pub norm_form: Option<NormFormValue>,
    pub pos: u16,
    pub splits_a: Vec<WordRef>,
    pub splits_b: Vec<WordRef>,
    pub splits_c: Vec<WordRef>,
    pub reading: Option<String>,
    pub splitting: Mode,
    pub word_structure: Vec<WordRef>,
    pub synonym_groups: Vec<u32>,
    pub user_data: String,
}

/// Whether two entries hold the same values: equal fields, the lists holding the same
/// items.
pub open spec fn same_entry(a: RawLexiconEntry, b: RawLexiconEntry) -> bool {
    &&& a.left_id == b.left_id
    &&& a.right_id == b.right_id
    &&& a.cost == b.cost
    &&& a.surface == b.surface
    &&& a.headword == b.headword
    &&& a.dic_form == b.dic_form
    &&& a.norm_form == b.norm_form
    &&& a.pos == b.pos
    &&& a.splits_a@ == b.splits_a@
    &&& a.splits_b@ == b.splits_b@
    &&& a.splits_c@ == b.splits_c@
    &&& a.reading == b.reading
    &&& a.splitting == b.splitting
    &&& a.word_structure@ == b.word_structure@
    &&& a.synonym_groups@ == b.synonym_groups@
    &&& a.user_data == b.user_data
}

impl RawLexiconEntry {
    /// A copy of the entry.
    pub fn duplicate(&self) -> (r: RawLexiconEntry)
        ensures
            same_entry(r, *self),
    {
        let mut synonym_groups: Vec<u32> = Vec::new();
        let mut i: usize = 0;
        while i < self.synonym_groups.len()
            invariant
                0 <= i <= self.synonym_groups@.len(),
                synonym_groups@ == self.synonym_groups@.take(i as int),
            decreases self.synonym_groups@.len() - i,
        {
            synonym_groups.push(self.synonym_groups[i]);
            i = i + 1;
            proof {
                assert(synonym_groups@ =~= self.synonym_groups@.take(i as int));
            }
        }
        proof {
            assert(self.synonym_groups@.take(i as int) =~= self.synonym_groups@);
        }
        let r = RawLexiconEntry {
            left_id: self.left_id,
            right_id: self.right_id,
            cost: self.cost,
            surface: self.surface.clone(),
            headword: match &self.headword {
                Some(h) => Some(h.clone()),
                None => None,
            },
            dic_form: self.dic_form.duplicate(),
            norm_form: match &self.norm_form {
                Some(NormFormValue::Value(v)) => Some(NormFormValue::Value(v.clone())),
                Some(NormFormValue::Ref(w)) => Some(NormFormValue::Ref(w.duplicate())),
                None => None,
            },
            pos: self.pos,
            splits_a: duplicate_refs(&self.splits_a),
            splits_b: duplicate_refs(&self.splits_b),
            splits_c: duplicate_refs(&self.splits_c),
            reading: match &self.reading {
                Some(h) => Some(h.clone()),
                None => None,
            },
            splitting: self.splitting,
            word_structure: duplicate_refs(&self.word_structure),
            synonym_groups,
            user_data: self.user_data.clone(),
        };
        proof {
            assert(r.synonym_groups@ =~= self.synonym_groups@);
            assert(r.splits_a@ =~= self.splits_a@);
            assert(r.splits_b@ =~= self.splits_b@);
            assert(r.splits_c@ =~= self.splits_c@);
            assert(r.word_structure@ =~= self.word_structure@);
        }
        r
    }
    /// The headword: the surface when none is given.
    pub open spec fn headword_view(&self) -> Seq<char> {
        match self.headword {
            Some(h) => h@,
            None => self.surface@,
        }
    }

    /// The reading form: the headword when none is given.
    pub open spec fn reading_view(&self) -> Seq<char> {
        match self.reading {
            Some(r) => r@,
            None => self.headword_view(),
        }
    }

    /// The normalized form, once it is no longer a reference.
    pub open spec fn norm_form_view(&self) -> Seq<char> {
        match self.norm_form {
            Some(NormFormValue::Value(s)) => s@,
            _ => self.headword_view(),
        }
    }

    /// The length fields the entry is written with, if its arrays fit them.
    pub open spec fn layout_view(&self) -> Option<WordInfoVariableLayout> {
        spec_variable_layout(
            self.splits_c@.len(),
            refs_view(self.splits_b@) == refs_view(self.splits_c@),
            self.splits_b@.len(),
            refs_view(self.splits_a@) == refs_view(self.splits_b@),
            self.splits_a@.len(),
            refs_view(self.word_structure@) == refs_view(self.splits_a@),
            self.word_structure@.len(),
            self.synonym_groups@.len(),
            spec_utf16_encode(self.user_data@).len(),
        )
    }

    /// The size of the written entry, padded to 8 bytes.
    pub open spec fn size_view(&self) -> int {
        let v = self.layout_view().unwrap();
        spec_aligned(
            spec_unaligned_size(
                v.c_unit_split_length,
                v.b_unit_split_length,
                v.a_unit_split_length,
                v.word_structure_length,
                v.synonym_group_ids_length,
                spec_layout_user_units(v),
            ).unwrap(),
        )
    }

    /// Whether all references of the entry are resolved, as writing needs.
    pub open spec fn is_resolved(&self) -> bool {
        &&& (self.dic_form is Ref || self.dic_form is SelfRef)
        &&& refs_resolved(self.splits_a@)
        &&& refs_resolved(self.splits_b@)
        &&& refs_resolved(self.splits_c@)
        &&& refs_resolved(self.word_structure@)
    }

    /// The fixed part the entry is written with.
    pub open spec fn fixed_view(
        &self,
        self_word_id: u32,
        norm_form_word_id: u32,
        headword_strptr: StringPointer,
        reading_strptr: StringPointer,
    ) -> WordInfoFixedData {
        let v = self.layout_view().unwrap();
        WordInfoFixedData {
            pos_id: self.pos as i16,
            headword_strptr,
            reading_form_strptr: reading_strptr,
            normalized_form: norm_form_word_id,
            dictionary_form: match self.dic_form {
                WordRef::Ref(w) => w@,
                _ => self_word_id,
            },
            index_form_length: encode_utf8(self.surface@).len() as i16,
            c_unit_split_length: v.c_unit_split_length,
            b_unit_split_length: v.b_unit_split_length,
            a_unit_split_length: v.a_unit_split_length,
            word_structure_length: v.word_structure_length,
            synonym_group_ids_length: v.synonym_group_ids_length,
            user_data_flag: v.user_data_flag,
        }
    }

    /// The bytes after the parameters that the entry is written as.
    pub open spec fn rest_bytes(
        &self,
        self_word_id: u32,
        norm_form_word_id: u32,
        headword_strptr: StringPointer,
        reading_strptr: StringPointer,
    ) -> Seq<u8> {
        let f = self.fixed_view(self_word_id, norm_form_word_id, headword_strptr, reading_strptr);
        spec_fixed_bytes(f) + spec_variable_bytes(
            ref_raw_ids(self.splits_c@),
            ref_raw_ids(self.splits_b@),
            ref_raw_ids(self.splits_a@),
            ref_raw_ids(self.word_structure@),
            stored_synonyms(self.synonym_groups@),
            self.user_data@,
            f,
        )
    }

    /// An entry that only stands for `headword`, so that references to it can be
    /// resolved: it has an empty surface (it is not indexed), no connection ids, the
    /// highest cost, and the other fields of `base`.
    pub fn make_phantom(base: &RawLexiconEntry, headword: String) -> (r: Self)
        ensures
            r.surface@.len() == 0,
            r.headword_view() == headword@,
            r.left_id == -1 && r.right_id == -1 && r.cost == i16::MAX,
            r.pos == base.pos,
            r.reading == base.reading,
            r.dic_form@ == base.dic_form@,
            r.norm_form is None,
            r.splitting == base.splitting,
            refs_view(r.splits_a@) == refs_view(base.splits_a@),
            refs_view(r.splits_b@) == refs_view(base.splits_b@),
            refs_view(r.splits_c@) == refs_view(base.splits_c@),
            refs_view(r.word_structure@) == refs_view(base.word_structure@),
            r.synonym_groups@ == base.synonym_groups@,
            r.user_data@ == base.user_data@,
    {
        let reading = match &base.reading {
            Some(s) => Some(s.clone()),
            None => None,
        };
        let mut synonym_groups: Vec<u32> = Vec::new();
        let mut i: usize = 0;
        while i < base.synonym_groups.len()
            invariant
                0 <= i <= base.synonym_groups@.len(),
                synonym_groups@ == base.synonym_groups@.take(i as int),
            decreases base.synonym_groups@.len() - i,
        {
            synonym_groups.push(base.synonym_groups[i]);
            i = i + 1;
            proof {
                assert(synonym_groups@ =~= base.synonym_groups@.take(i as int));
            }
        }
        proof {
            assert(synonym_groups@ =~= base.synonym_groups@);
        }
        RawLexiconEntry {
            surface: String::new(),
            headword: Some(headword),
            left_id: -1,
            right_id: -1,
            cost: i16::MAX,
            pos: base.pos,
            reading,
            dic_form: base.dic_form.duplicate(),
            norm_form: None,
            splitting: base.splitting,
            splits_a: duplicate_refs(&base.splits_a),
            splits_b: duplicate_refs(&base.splits_b),
            splits_c: duplicate_refs(&base.splits_c),
            word_structure: duplicate_refs(&base.word_structure),
            synonym_groups,
            user_data: base.user_data.clone(),
        }
    }

    pub fn surface(&self) -> (r: &str)
        ensures
            r@ == self.surface@,
    {
        self.surface.as_str()
    }

    pub fn headword(&self) -> (r: &str)
        ensures
            r@ == self.headword_view(),
    {
        match &self.headword {
            Some(h) => h.as_str(),
            None => self.surface(),
        }
    }

    /// The normalized form; it must no longer be a reference.
    pub fn norm_form(&self) -> (r: &str)
        requires
            !(self.norm_form matches Some(NormFormValue::Ref(_))),
        ensures
            r@ == self.norm_form_view(),
    {
        match &self.norm_form {
            None => self.headword(),
            Some(NormFormValue::Value(s)) => s.as_str(),
            Some(NormFormValue::Ref(_)) => self.headword(),
        }
    }

    pub fn reading(&self) -> (r: &str)
        ensures
            r@ == self.reading_view(),
    {
        match &self.reading {
            Some(s) => s.as_str(),
            None => self.headword(),
        }
    }

    /// Whether the entry goes into the index (entries with a negative left id do not).
    pub fn should_index(&self) -> (r: bool)
        ensures
            r == (self.left_id >= 0),
    {
        self.left_id >= 0
    }

    /// The size of the written entry, padded to 8 bytes; its arrays must fit the layout.
    pub fn expected_entry_size(&self) -> (r: usize)
        requires
            self.layout_view() is Some,
        ensures
            r == self.size_view(),
            r % 8 == 0,
            r <= 100008,
    {
        let variable = match self.variable_layout() {
            Some(v) => v,
            None => {
                proof {
                    assert(false);
                }
                return 0;
            },
        };
        match size_from_variable_layout(variable) {
            Some(s) => s,
            None => {
                proof {
                    assert(false);
                }
                0
            },
        }
    }

    /// Appends the connection ids and cost (6 bytes) and returns their size.
    pub fn write_params(&self, w: &mut Vec<u8>) -> (r: usize)
        ensures
            final(w)@ == old(w)@ + spec_i16_bytes(self.left_id) + spec_i16_bytes(self.right_id)
                + spec_i16_bytes(self.cost),
            r == 6,
    {
        write_i16(w, self.left_id);
        write_i16(w, self.right_id);
        write_i16(w, self.cost);
        6
    }

    /// Appends the fixed and variable parts of the entry and returns their size.
    ///
    /// Fails, writing nothing, when the surface is longer than an `i16` counts in
    /// bytes or an array does not fit the layout.
    pub fn write_rest(
        &self,
        w: &mut Vec<u8>,
        self_word_id: WordId,
        norm_form_word_id: WordId,
        headword_strptr: StringPointer,
        reading_strptr: StringPointer,
    ) -> (r: Result<usize, BuildFailure>)
        requires
            self.is_resolved(),
        ensures
            r is Ok <==> encode_utf8(self.surface@).len() <= 0x7fff && self.layout_view() is Some,
            encode_utf8(self.surface@).len() > 0x7fff ==> (r matches Err(
                BuildFailure::InvalidFieldSize { actual, expected, .. },
            ) && actual == encode_utf8(self.surface@).len() && expected == 0x7fff),
            encode_utf8(self.surface@).len() <= 0x7fff && self.layout_view() is None ==> (r matches Err(
                BuildFailure::InvalidFieldSize { actual, expected, field },
            ) && layout_failure(*self) == (actual as nat, expected as nat, field@)),
            r is Err ==> final(w)@ == old(w)@,
            r matches Ok(n) ==> final(w)@ == old(w)@ + self.rest_bytes(
                self_word_id@,
                norm_form_word_id@,
                headword_strptr,
                reading_strptr,
            ) && n == self.rest_bytes(
                self_word_id@,
                norm_form_word_id@,
                headword_strptr,
                reading_strptr,
            ).len(),
    {
        let dic_form_word_id: u32 = match &self.dic_form {
            WordRef::Ref(wid) => wid.as_raw(),
            _ => self_word_id.as_raw(),
        };
        let surface_len = self.surface.as_str().as_bytes().len();
        if surface_len > 0x7fff {
            return Err(
                BuildFailure::InvalidFieldSize {
                    actual: surface_len,
                    expected: 0x7fff,
                    field: "index_form_length",
                },
            );
        }
        let variable = match self.variable_layout() {
            Some(v) => v,
            None => return Err(self.layout_error()),
        };
        let fixed = WordInfoFixedData {
            pos_id: self.pos as i16,
            headword_strptr,
            reading_form_strptr: reading_strptr,
            normalized_form: norm_form_word_id.as_raw(),
            dictionary_form: dic_form_word_id,
            index_form_length: surface_len as i16,
            c_unit_split_length: variable.c_unit_split_length,
            b_unit_split_length: variable.b_unit_split_length,
            a_unit_split_length: variable.a_unit_split_length,
            word_structure_length: variable.word_structure_length,
            synonym_group_ids_length: variable.synonym_group_ids_length,
            user_data_flag: variable.user_data_flag,
        };
        let ghost w0 = w@;
        let mut size = fixed.write_to(w);
        let c_refs = Self::word_ref_ids(&self.splits_c);
        let b_refs = Self::word_ref_ids(&self.splits_b);
        let a_refs = Self::word_ref_ids(&self.splits_a);
        let ws_refs = Self::word_ref_ids(&self.word_structure);
        let syns = Self::synonym_ids(&self.synonym_groups);
        let payload = WordInfoVariableData {
            c_unit_split: c_refs.as_slice(),
            b_unit_split: b_refs.as_slice(),
            a_unit_split: a_refs.as_slice(),
            word_structure: ws_refs.as_slice(),
            synonym_group_ids: syns.as_slice(),
            user_data: self.user_data.as_str(),
        };
        proof {
            let fv = self.fixed_view(self_word_id@, norm_form_word_id@, headword_strptr, reading_strptr);
            assert(fixed.dictionary_form == fv.dictionary_form);
            assert(fixed.normalized_form == fv.normalized_form);
            assert(fixed.index_form_length == fv.index_form_length);
            assert(fixed.c_unit_split_length == fv.c_unit_split_length);
            assert(fixed == self.fixed_view(
                self_word_id@,
                norm_form_word_id@,
                headword_strptr,
                reading_strptr,
            ));
            lemma_layout_bounds(*self);
            lemma_variable_bytes_len(
                c_refs@,
                b_refs@,
                a_refs@,
                ws_refs@,
                syns@,
                self.user_data@,
                fixed,
            );
        }
        size = size + payload.write_to(w, &fixed);
        proof {
            assert(w@ =~= w0 + self.rest_bytes(
                self_word_id@,
                norm_form_word_id@,
                headword_strptr,
                reading_strptr,
            ));
        }
        Ok(size)
    }

    /// The raw word ids of resolved references.
    fn word_ref_ids(refs: &Vec<WordRef>) -> (r: Vec<u32>)
        requires
            refs_resolved(refs@),
        ensures
            r@ == ref_raw_ids(refs@),
    {
        let mut result: Vec<u32> = Vec::new();
        let mut i: usize = 0;
        while i < refs.len()
            invariant
                0 <= i <= refs@.len(),
                refs_resolved(refs@),
                result@ == ref_raw_ids(refs@).take(i as int),
            decreases refs@.len() - i,
        {
            match &refs[i] {
                WordRef::Ref(wid) => {
                    result.push(wid.as_raw());
                },
                _ => {
                    proof {
                        assert(refs@[i as int] is Ref);
                    }
                },
            }
            i = i + 1;
            proof {
                assert(result@ =~= ref_raw_ids(refs@).take(i as int));
            }
        }
        proof {
            assert(result@ =~= ref_raw_ids(refs@));
        }
        result
    }

    /// The synonym group ids as they are stored.
    fn synonym_ids(groups: &Vec<u32>) -> (r: Vec<i32>)
        ensures
            r@ == stored_synonyms(groups@),
    {
        let mut result: Vec<i32> = Vec::new();
        let mut i: usize = 0;
        while i < groups.len()
            invariant
                0 <= i <= groups@.len(),
                result@ == stored_synonyms(groups@).take(i as int),
            decreases groups@.len() - i,
        {
            result.push(groups[i] as i32);
            i = i + 1;
            proof {
                assert(result@ =~= stored_synonyms(groups@).take(i as int));
            }
        }
        proof {
            assert(result@ =~= stored_synonyms(groups@));
        }
        result
    }

    /// The error for an entry whose arrays do not fit their length fields: the first
    /// field, in the order of [`layout_failure`], that is too long.
    fn layout_error(&self) -> (r: BuildFailure)
        requires
            self.layout_view() is None,
        ensures
            r matches BuildFailure::InvalidFieldSize { actual, expected, field } && layout_failure(
                *self,
            ) == (actual as nat, expected as nat, field@),
    {
        let b_same = same_refs(self.splits_b.as_slice(), self.splits_c.as_slice());
        let a_same = same_refs(self.splits_a.as_slice(), self.splits_b.as_slice());
        let ws_same = same_refs(self.word_structure.as_slice(), self.splits_a.as_slice());
        let units = encode_utf16(self.user_data.as_str()).len();
        if self.splits_c.len() > 127 {
            BuildFailure::InvalidFieldSize {
                actual: self.splits_c.len(),
                expected: 127,
                field: "c_unit_split_length",
            }
        } else if !b_same && self.splits_b.len() > 127 {
            BuildFailure::InvalidFieldSize {
                actual: self.splits_b.len(),
                expected: 127,
                field: "b_unit_split_length",
            }
        } else if !a_same && self.splits_a.len() > 127 {
            BuildFailure::InvalidFieldSize {
                actual: self.splits_a.len(),
                expected: 127,
                field: "a_unit_split_length",
            }
        } else if !ws_same && self.word_structure.len() > 127 {
            BuildFailure::InvalidFieldSize {
                actual: self.word_structure.len(),
                expected: 127,
                field: "word_structure_length",
            }
        } else if self.synonym_groups.len() > 127 {
            BuildFailure::InvalidFieldSize {
                actual: self.synonym_groups.len(),
                expected: 127,
                field: "synonym_group_ids_length",
            }
        } else {
            BuildFailure::InvalidFieldSize { actual: units, expected: 0x7fff, field: "user_data_length" }
        }
    }

    /// The length fields the entry is written with, or `None` when an array does not
    /// fit its field.
    fn variable_layout(&self) -> (r: Option<WordInfoVariableLayout>)
        ensures
            r == self.layout_view(),
    {
        let units = encode_utf16(self.user_data.as_str());
        WordInfoVariableLayout::new(
            self.splits_c.len(),
            same_refs(self.splits_b.as_slice(), self.splits_c.as_slice()),
            self.splits_b.len(),
            same_refs(self.splits_a.as_slice(), self.splits_b.as_slice()),
            self.splits_a.len(),
            same_refs(self.word_structure.as_slice(), self.splits_a.as_slice()),
            self.word_structure.len(),
            self.synonym_groups.len(),
            units.len(),
        )
    }
}

/// The first length field that an entry's arrays do not fit, as its length, the
/// largest length the field takes and the field's name: the C, B, A splits and the
/// word structure (the last three unless they repeat the list before), the synonym
/// groups, then the user data in UTF-16 units.
pub open spec fn layout_failure(e: RawLexiconEntry) -> (nat, nat, Seq<char>) {
    if e.splits_c@.len() > 127 {
        (e.splits_c@.len(), 127, "c_unit_split_length"@)
    } else if refs_view(e.splits_b@) != refs_view(e.splits_c@) && e.splits_b@.len() > 127 {
        (e.splits_b@.len(), 127, "b_unit_split_length"@)
    } else if refs_view(e.splits_a@) != refs_view(e.splits_b@) && e.splits_a@.len() > 127 {
        (e.splits_a@.len(), 127, "a_unit_split_length"@)
    } else if refs_view(e.word_structure@) != refs_view(e.splits_a@) && e.word_structure@.len() > 127 {
        (e.word_structure@.len(), 127, "word_structure_length"@)
    } else if e.synonym_groups@.len() > 127 {
        (e.synonym_groups@.len(), 127, "synonym_group_ids_length"@)
    } else {
        (spec_utf16_encode(e.user_data@).len(), 0x7fff, "user_data_length"@)
    }
}

/// The arrays of an entry whose layout exists are small enough to write.
pub proof fn lemma_layout_bounds(e: RawLexiconEntry)
    requires
        e.layout_view() is Some,
    ensures
        e.splits_c@.len() <= 127,
        e.splits_b@.len() <= 127,
        e.splits_a@.len() <= 127,
        e.word_structure@.len() <= 127,
        e.synonym_groups@.len() <= 127,
        spec_utf16_encode(e.user_data@).len() <= 0x7fff,
        spec_unaligned_size(
            e.layout_view().unwrap().c_unit_split_length,
            e.layout_view().unwrap().b_unit_split_length,
            e.layout_view().unwrap().a_unit_split_length,
            e.layout_view().unwrap().word_structure_length,
            e.layout_view().unwrap().synonym_group_ids_length,
            spec_layout_user_units(e.layout_view().unwrap()),
        ) is Some,
{
    if refs_view(e.splits_b@) == refs_view(e.splits_c@) {
        assert(refs_view(e.splits_b@).len() == e.splits_b@.len());
    }
    if refs_view(e.splits_a@) == refs_view(e.splits_b@) {
        assert(refs_view(e.splits_a@).len() == e.splits_a@.len());
    }
    if refs_view(e.word_structure@) == refs_view(e.splits_a@) {
        assert(refs_view(e.word_structure@).len() == e.word_structure@.len());
    }
}

/// Lists with the same references hold the same word ids.
proof fn lemma_same_refs_same_ids(x: Seq<WordRef>, y: Seq<WordRef>)
    requires
        refs_view(x) == refs_view(y),
    ensures
        ref_raw_ids(x) == ref_raw_ids(y),
{
    assert(x.len() == refs_view(x).len());
    assert(y.len() == refs_view(y).len());
    assert forall|i: int| 0 <= i < x.len() implies ref_raw_ids(x)[i] == ref_raw_ids(y)[i] by {
        assert(refs_view(x)[i] == x[i]@);
        assert(refs_view(y)[i] == y[i]@);
    }
    assert(ref_raw_ids(x) =~= ref_raw_ids(y));
}

/// A string with no UTF-16 code unit is empty.
proof fn lemma_no_units_empty(s: Seq<char>)
    requires
        spec_utf16_encode(s).len() == 0,
    ensures
        s.len() == 0,
{
    if s.len() > 0 {
        assert(spec_utf16_encode(s) == crate::dic::read::utf16_string::spec_utf16_encode_char(s[0])
            + spec_utf16_encode(s.drop_first()));
    }
}

/// The fixed part an entry is written with agrees with the arrays written after it,
/// as the parser expects.
pub proof fn lemma_written_consistent(
    e: RawLexiconEntry,
    self_word_id: u32,
    norm_form_word_id: u32,
    headword_strptr: StringPointer,
    reading_strptr: StringPointer,
)
    requires
        e.layout_view() is Some,
        crate::dic::lexicon::strings::spec_pointer_valid(headword_strptr),
        crate::dic::lexicon::strings::spec_pointer_valid(reading_strptr),
    ensures
        crate::dic::word_info::parse::spec_entry_consistent(
            e.fixed_view(self_word_id, norm_form_word_id, headword_strptr, reading_strptr),
            ref_raw_ids(e.splits_c@),
            ref_raw_ids(e.splits_b@),
            ref_raw_ids(e.splits_a@),
            ref_raw_ids(e.word_structure@),
            stored_synonyms(e.synonym_groups@),
            e.user_data@,
        ),
{
    lemma_layout_bounds(e);
    if refs_view(e.splits_b@) == refs_view(e.splits_c@) {
        lemma_same_refs_same_ids(e.splits_b@, e.splits_c@);
    }
    if refs_view(e.splits_a@) == refs_view(e.splits_b@) {
        lemma_same_refs_same_ids(e.splits_a@, e.splits_b@);
    }
    if refs_view(e.word_structure@) == refs_view(e.splits_a@) {
        lemma_same_refs_same_ids(e.word_structure@, e.splits_a@);
    }
    if spec_utf16_encode(e.user_data@).len() == 0 {
        lemma_no_units_empty(e.user_data@);
    }
}

/// The size an entry is expected to take is the size it is written with: the six
/// bytes of its parameters and the bytes `write_rest` writes, rounded up to a multiple
/// of eight, whatever word ids and string pointers it is written with.
pub proof fn expected_size_is_written_size(
    e: RawLexiconEntry,
    self_word_id: u32,
    norm_form_word_id: u32,
    headword_strptr: StringPointer,
    reading_strptr: StringPointer,
)
    requires
        e.layout_view() is Some,
    ensures
        e.size_view() == spec_aligned(
            6 + e.rest_bytes(self_word_id, norm_form_word_id, headword_strptr, reading_strptr).len() as int,
        ),
{
    lemma_layout_bounds(e);
    let f = e.fixed_view(self_word_id, norm_form_word_id, headword_strptr, reading_strptr);
    crate::dic::word_info::raw::lemma_fixed_bytes_len(f);
    lemma_variable_bytes_len(
        ref_raw_ids(e.splits_c@),
        ref_raw_ids(e.splits_b@),
        ref_raw_ids(e.splits_a@),
        ref_raw_ids(e.word_structure@),
        stored_synonyms(e.synonym_groups@),
        e.user_data@,
        f,
    );
}

impl ResolverEntryView for RawLexiconEntry {
    open spec fn spec_headword(&self) -> Seq<char> {
        self.headword_view()
    }

    open spec fn spec_reading(&self) -> Seq<char> {
        self.reading_view()
    }

    open spec fn spec_pos_id(&self) -> u16 {
        self.pos
    }

    fn headword(&self) -> (r: &str) {
        RawLexiconEntry::headword(self)
    }

    fn reading(&self) -> (r: &str) {
        RawLexiconEntry::reading(self)
    }

    fn pos_id(&self) -> (r: u16) {
        self.pos
    }
}

} // verus!
