//! The fixed part of a word entry.
use vstd::bytes::*;
use vstd::prelude::*;
use vstd::slice::slice_subrange;

use crate::dic::lexicon::strings::{
    pointer_encode_decode, spec_decode_pointer, spec_encode_pointer, spec_pointer_valid,
    StringPointer,
};
use crate::dic::read::primitives::{
    le_i16, le_i8, le_u32, lemma_i16_cast_round_trip, lemma_i8_cast_round_trip,
    lemma_le_u16_round_trip, lemma_le_u32_round_trip, spec_i16_bytes, spec_le_u16, spec_le_u32,
    write_i16, write_i8, write_u32,
};
use crate::dic::word_info::layout::{
    FIXED_PART_SIZE, OFFSET_A_UNIT_SPLIT_LENGTH, OFFSET_B_UNIT_SPLIT_LENGTH,
    OFFSET_C_UNIT_SPLIT_LENGTH, OFFSET_SYNONYM_GROUP_IDS_LENGTH, OFFSET_USER_DATA_FLAG,
    OFFSET_WORD_STRUCTURE_LENGTH, PARAMS_SIZE, WORD_INFO_FIXED_SIZE,
};
use crate::dic::read::utf16_string::spec_utf16_encode;
use crate::dic::word_info::variable_io::{
    spec_i32s_bytes, spec_u32s_bytes, spec_utf16_string_bytes, write_i32_slice, write_u32_slice,
    write_utf16_string,
};
use crate::error::SudachiResult;

verus! {

/// The 26-byte fixed part of a word entry (after the 6 bytes of parameters).
#[derive(Clone, Copy, Debug, Default)]
pub struct WordInfoFixedData {
    pub pos_id: i16,
    pub headword_strptr: StringPointer,
    pub reading_form_strptr: StringPointer,
    pub normalized_form: u32,
    pub dictionary_form: u32,
    pub index_form_length: i16,
    pub c_unit_split_length: i8,
    pub b_unit_split_length: i8,
    pub a_unit_split_length: i8,
    pub word_structure_length: i8,
    pub synonym_group_ids_length: i8,
    pub user_data_flag: i8,
}

/// The fixed part stored at the start of `s` (which holds at least 26 bytes).
pub open spec fn spec_fixed_of(s: Seq<u8>) -> WordInfoFixedData {
    WordInfoFixedData {
        pos_id: spec_le_u16(s) as i16,
        headword_strptr: spec_decode_pointer(spec_le_u32(s.skip(2))),
        reading_form_strptr: spec_decode_pointer(spec_le_u32(s.skip(6))),
        normalized_form: spec_le_u32(s.skip(10)),
        dictionary_form: spec_le_u32(s.skip(14)),
        index_form_length: spec_le_u16(s.skip(18)) as i16,
        c_unit_split_length: s[20] as i8,
        b_unit_split_length: s[21] as i8,
        a_unit_split_length: s[22] as i8,
        word_structure_length: s[23] as i8,
        synonym_group_ids_length: s[24] as i8,
        user_data_flag: s[25] as i8,
    }
}

/// The 26 bytes that encode a fixed part.
pub open spec fn spec_fixed_bytes(f: WordInfoFixedData) -> Seq<u8> {
    spec_i16_bytes(f.pos_id) + spec_u32_to_le_bytes(spec_encode_pointer(f.headword_strptr))
        + spec_u32_to_le_bytes(spec_encode_pointer(f.reading_form_strptr)) + spec_u32_to_le_bytes(
        f.normalized_form,
    ) + spec_u32_to_le_bytes(f.dictionary_form) + spec_i16_bytes(f.index_form_length) + seq![
        f.c_unit_split_length as u8,
        f.b_unit_split_length as u8,
        f.a_unit_split_length as u8,
        f.word_structure_length as u8,
        f.synonym_group_ids_length as u8,
        f.user_data_flag as u8,
    ]
}

/// Whether both string pointers of a fixed part survive encoding.
pub open spec fn spec_fixed_pointers_valid(f: WordInfoFixedData) -> bool {
    spec_pointer_valid(f.headword_strptr) && spec_pointer_valid(f.reading_form_strptr)
}

impl WordInfoFixedData {
    /// Reads a fixed part from the start of `input`.
    pub fn parse(input: &[u8]) -> (r: SudachiResult<(&[u8], WordInfoFixedData)>)
        ensures
            r is Ok <==> WORD_INFO_FIXED_SIZE <= input@.len(),
            r matches Ok((rest, f)) ==> rest@ == input@.skip(WORD_INFO_FIXED_SIZE as int) && f
                == spec_fixed_of(input@),
    {
        let (i1, pos_id) = le_i16(input)?;
        let (i2, hw) = le_u32(i1)?;
        let (i3, rd) = le_u32(i2)?;
        let (i4, normalized_form) = le_u32(i3)?;
        let (i5, dictionary_form) = le_u32(i4)?;
        let (i6, index_form_length) = le_i16(i5)?;
        let (i7, c_unit_split_length) = le_i8(i6)?;
        let (i8_, b_unit_split_length) = le_i8(i7)?;
        let (i9, a_unit_split_length) = le_i8(i8_)?;
        let (i10, word_structure_length) = le_i8(i9)?;
        let (i11, synonym_group_ids_length) = le_i8(i10)?;
        let (i12, user_data_flag) = le_i8(i11)?;
        let f = WordInfoFixedData {
            pos_id,
            headword_strptr: StringPointer::decode(hw),
            reading_form_strptr: StringPointer::decode(rd),
            normalized_form,
            dictionary_form,
            index_form_length,
            c_unit_split_length,
            b_unit_split_length,
            a_unit_split_length,
            word_structure_length,
            synonym_group_ids_length,
            user_data_flag,
        };
        proof {
            assert(i12@ =~= input@.skip(26));
            assert(i1@ =~= input@.skip(2));
            assert(i2@ =~= input@.skip(6));
            assert(i3@ =~= input@.skip(10));
            assert(i4@ =~= input@.skip(14));
            assert(i5@ =~= input@.skip(18));
        }
        Ok((i12, f))
    }

    /// Reads the fixed part of an entry, skipping the 6 bytes of parameters at its start.
    pub fn from_entry_bytes(data: &[u8]) -> (r: Option<WordInfoFixedData>)
        ensures
            r is Some <==> FIXED_PART_SIZE <= data@.len(),
            r matches Some(f) ==> f == spec_fixed_of(data@.skip(PARAMS_SIZE as int)),
    {
        if data.len() < FIXED_PART_SIZE {
            return None;
        }
        let fixed = slice_subrange(data, 0, FIXED_PART_SIZE);
        let pos_id = u16_from_le_bytes(slice_subrange(fixed, 6, 8)) as i16;
        let hw = u32_from_le_bytes(slice_subrange(fixed, 8, 12));
        let rd = u32_from_le_bytes(slice_subrange(fixed, 12, 16));
        let normalized_form = u32_from_le_bytes(slice_subrange(fixed, 16, 20));
        let dictionary_form = u32_from_le_bytes(slice_subrange(fixed, 20, 24));
        let index_form_length = u16_from_le_bytes(slice_subrange(fixed, 24, 26)) as i16;
        let f = WordInfoFixedData {
            pos_id,
            headword_strptr: StringPointer::decode(hw),
            reading_form_strptr: StringPointer::decode(rd),
            normalized_form,
            dictionary_form,
            index_form_length,
            c_unit_split_length: fixed[OFFSET_C_UNIT_SPLIT_LENGTH] as i8,
            b_unit_split_length: fixed[OFFSET_B_UNIT_SPLIT_LENGTH] as i8,
            a_unit_split_length: fixed[OFFSET_A_UNIT_SPLIT_LENGTH] as i8,
            word_structure_length: fixed[OFFSET_WORD_STRUCTURE_LENGTH] as i8,
            synonym_group_ids_length: fixed[OFFSET_SYNONYM_GROUP_IDS_LENGTH] as i8,
            user_data_flag: fixed[OFFSET_USER_DATA_FLAG] as i8,
        };
        proof {
            let s = data@.skip(6);
            assert(fixed@ =~= data@.subrange(0, 32));
            assert(s.take(2) =~= fixed@.subrange(6, 8));
            assert(s.skip(2).take(4) =~= fixed@.subrange(8, 12));
            assert(s.skip(6).take(4) =~= fixed@.subrange(12, 16));
            assert(s.skip(10).take(4) =~= fixed@.subrange(16, 20));
            assert(s.skip(14).take(4) =~= fixed@.subrange(20, 24));
            assert(s.skip(18).take(2) =~= fixed@.subrange(24, 26));
            assert(s[20] == fixed@[26]);
            assert(s[21] == fixed@[27]);
            assert(s[22] == fixed@[28]);
            assert(s[23] == fixed@[29]);
            assert(s[24] == fixed@[30]);
            assert(s[25] == fixed@[31]);
        }
        Some(f)
    }

    /// Whether user data follows the arrays of the entry.
    pub fn has_user_data(&self) -> (r: bool)
        ensures
            r == (self.user_data_flag == 1),
    {
        self.user_data_flag == 1
    }

    /// Appends the 26-byte encoding and returns its size.
    pub fn write_to(&self, w: &mut Vec<u8>) -> (r: usize)
        ensures
            final(w)@ == old(w)@ + spec_fixed_bytes(*self),
            r == WORD_INFO_FIXED_SIZE,
            spec_fixed_bytes(*self).len() == WORD_INFO_FIXED_SIZE,
    {
        let ghost w0 = w@;
        write_i16(w, self.pos_id);
        write_u32(w, self.headword_strptr.encode());
        write_u32(w, self.reading_form_strptr.encode());
        write_u32(w, self.normalized_form);
        write_u32(w, self.dictionary_form);
        write_i16(w, self.index_form_length);
        write_i8(w, self.c_unit_split_length);
        write_i8(w, self.b_unit_split_length);
        write_i8(w, self.a_unit_split_length);
        write_i8(w, self.word_structure_length);
        write_i8(w, self.synonym_group_ids_length);
        write_i8(w, self.user_data_flag);
        proof {
            lemma_auto_spec_u16_to_from_le_bytes();
            lemma_auto_spec_u32_to_from_le_bytes();
            assert(w@ =~= w0 + spec_fixed_bytes(*self));
        }
        WORD_INFO_FIXED_SIZE
    }
}

/// Writing a fixed part and reading it back gives the same fixed part, whatever
/// bytes follow it (both string pointers must fit their encoding).
pub proof fn fixed_data_round_trip(f: WordInfoFixedData, rest: Seq<u8>)
    requires
        spec_fixed_pointers_valid(f),
    ensures
        spec_fixed_bytes(f).len() == WORD_INFO_FIXED_SIZE,
        spec_fixed_of(spec_fixed_bytes(f) + rest) == f,
        (spec_fixed_bytes(f) + rest).skip(WORD_INFO_FIXED_SIZE as int) == rest,
{
    let s = spec_fixed_bytes(f) + rest;
    let b0 = spec_i16_bytes(f.pos_id);
    let b1 = spec_u32_to_le_bytes(spec_encode_pointer(f.headword_strptr));
    let b2 = spec_u32_to_le_bytes(spec_encode_pointer(f.reading_form_strptr));
    let b3 = spec_u32_to_le_bytes(f.normalized_form);
    let b4 = spec_u32_to_le_bytes(f.dictionary_form);
    let b5 = spec_i16_bytes(f.index_form_length);
    let b6 = seq![
        f.c_unit_split_length as u8,
        f.b_unit_split_length as u8,
        f.a_unit_split_length as u8,
        f.word_structure_length as u8,
        f.synonym_group_ids_length as u8,
        f.user_data_flag as u8,
    ];
    lemma_auto_spec_u16_to_from_le_bytes();
    lemma_auto_spec_u32_to_from_le_bytes();
    assert(s =~= b0 + (b1 + (b2 + (b3 + (b4 + (b5 + (b6 + rest)))))));
    lemma_le_u16_round_trip(f.pos_id as u16, b1 + (b2 + (b3 + (b4 + (b5 + (b6 + rest))))));
    lemma_i16_cast_round_trip(f.pos_id);
    lemma_i16_cast_round_trip(f.index_form_length);
    assert(s.skip(2) =~= b1 + (b2 + (b3 + (b4 + (b5 + (b6 + rest))))));
    lemma_le_u32_round_trip(spec_encode_pointer(f.headword_strptr), b2 + (b3 + (b4 + (b5 + (b6
        + rest)))));
    pointer_encode_decode(f.headword_strptr);
    assert(s.skip(6) =~= b2 + (b3 + (b4 + (b5 + (b6 + rest)))));
    lemma_le_u32_round_trip(spec_encode_pointer(f.reading_form_strptr), b3 + (b4 + (b5 + (b6
        + rest))));
    pointer_encode_decode(f.reading_form_strptr);
    assert(s.skip(10) =~= b3 + (b4 + (b5 + (b6 + rest))));
    lemma_le_u32_round_trip(f.normalized_form, b4 + (b5 + (b6 + rest)));
    assert(s.skip(14) =~= b4 + (b5 + (b6 + rest)));
    lemma_le_u32_round_trip(f.dictionary_form, b5 + (b6 + rest));
    assert(s.skip(18) =~= b5 + (b6 + rest));
    lemma_le_u16_round_trip(f.index_form_length as u16, b6 + rest);
    lemma_i8_cast_round_trip(f.c_unit_split_length);
    lemma_i8_cast_round_trip(f.b_unit_split_length);
    lemma_i8_cast_round_trip(f.a_unit_split_length);
    lemma_i8_cast_round_trip(f.word_structure_length);
    lemma_i8_cast_round_trip(f.synonym_group_ids_length);
    lemma_i8_cast_round_trip(f.user_data_flag);
    assert(s[20] == f.c_unit_split_length as u8);
    assert(s[25] == f.user_data_flag as u8);
    assert(s.skip(26) =~= rest);
}

/// The variable-length arrays and user data of an entry to be written.
pub struct WordInfoVariableData<'a> {
    pub c_unit_split: &'a [u32],
    pub b_unit_split: &'a [u32],
    pub a_unit_split: &'a [u32],
    pub word_structure: &'a [u32],
    pub synonym_group_ids: &'a [i32],
    pub user_data: &'a str,
}

/// The bytes written for the variable part: the C split, the B split, A split and
/// word structure only when their length field is positive, the synonym group ids,
/// and the user data only when the flag is set.
pub open spec fn spec_variable_bytes(
    c: Seq<u32>,
    b: Seq<u32>,
    a: Seq<u32>,
    ws: Seq<u32>,
    syn: Seq<i32>,
    user: Seq<char>,
    fixed: WordInfoFixedData,
) -> Seq<u8> {
    spec_u32s_bytes(c) + (if fixed.b_unit_split_length > 0 {
        spec_u32s_bytes(b)
    } else {
        Seq::empty()
    }) + (if fixed.a_unit_split_length > 0 {
        spec_u32s_bytes(a)
    } else {
        Seq::empty()
    }) + (if fixed.word_structure_length > 0 {
        spec_u32s_bytes(ws)
    } else {
        Seq::empty()
    }) + spec_i32s_bytes(syn) + (if fixed.user_data_flag == 1 {
        spec_utf16_string_bytes(user)
    } else {
        Seq::empty()
    })
}

/// The fixed part is 26 bytes long.
pub proof fn lemma_fixed_bytes_len(f: WordInfoFixedData)
    ensures
        spec_fixed_bytes(f).len() == WORD_INFO_FIXED_SIZE,
{
    lemma_auto_spec_u16_to_from_le_bytes();
    lemma_auto_spec_u32_to_from_le_bytes();
}

/// The size of the variable part: four bytes per written array element, and the
/// length prefix and code units of the user data when it is written.
pub proof fn lemma_variable_bytes_len(
    c: Seq<u32>,
    b: Seq<u32>,
    a: Seq<u32>,
    ws: Seq<u32>,
    syn: Seq<i32>,
    user: Seq<char>,
    fixed: WordInfoFixedData,
)
    ensures
        spec_variable_bytes(c, b, a, ws, syn, user, fixed).len() == 4 * c.len() + (if fixed.b_unit_split_length
            > 0 {
            4 * b.len()
        } else {
            0
        }) + (if fixed.a_unit_split_length > 0 {
            4 * a.len()
        } else {
            0
        }) + (if fixed.word_structure_length > 0 {
            4 * ws.len()
        } else {
            0
        }) + 4 * syn.len() + (if fixed.user_data_flag == 1 {
            2 + 2 * spec_utf16_encode(user).len()
        } else {
            0
        }),
{
    crate::dic::word_info::variable_io::lemma_u32s_round_trip(c, seq![]);
    crate::dic::word_info::variable_io::lemma_u32s_round_trip(b, seq![]);
    crate::dic::word_info::variable_io::lemma_u32s_round_trip(a, seq![]);
    crate::dic::word_info::variable_io::lemma_u32s_round_trip(ws, seq![]);
    crate::dic::word_info::variable_io::lemma_i32s_round_trip(syn, seq![]);
    crate::dic::word_info::variable_io::lemma_utf16_string_bytes_len(user);
}

impl<'a> WordInfoVariableData<'a> {
    /// Appends the variable part of an entry and returns its size in bytes, which must
    /// fit in `usize`.
    #[verifier::rlimit(40)]
    pub fn write_to(&self, w: &mut Vec<u8>, fixed: &WordInfoFixedData) -> (r: usize)
        requires
            spec_variable_bytes(
                self.c_unit_split@,
                self.b_unit_split@,
                self.a_unit_split@,
                self.word_structure@,
                self.synonym_group_ids@,
                self.user_data@,
                *fixed,
            ).len() <= usize::MAX,
        ensures
            final(w)@ == old(w)@ + spec_variable_bytes(
                self.c_unit_split@,
                self.b_unit_split@,
                self.a_unit_split@,
                self.word_structure@,
                self.synonym_group_ids@,
                self.user_data@,
                *fixed,
            ),
            r == spec_variable_bytes(
                self.c_unit_split@,
                self.b_unit_split@,
                self.a_unit_split@,
                self.word_structure@,
                self.synonym_group_ids@,
                self.user_data@,
                *fixed,
            ).len(),
    {
        let ghost w0 = w@;
        let mut size: usize = 0;
        proof {
            lemma_variable_bytes_len(
                self.c_unit_split@,
                self.b_unit_split@,
                self.a_unit_split@,
                self.word_structure@,
                self.synonym_group_ids@,
                self.user_data@,
                *fixed,
            );
            crate::dic::word_info::variable_io::lemma_u32s_round_trip(self.c_unit_split@, seq![]);
        }
        size = size + write_u32_slice(w, self.c_unit_split);
        let ghost w1 = w@;
        if fixed.b_unit_split_length > 0 {
            proof {
                crate::dic::word_info::variable_io::lemma_u32s_round_trip(self.b_unit_split@, seq![]);
            }
            size = size + write_u32_slice(w, self.b_unit_split);
        }
        let ghost w2 = w@;
        if fixed.a_unit_split_length > 0 {
            proof {
                crate::dic::word_info::variable_io::lemma_u32s_round_trip(self.a_unit_split@, seq![]);
            }
            size = size + write_u32_slice(w, self.a_unit_split);
        }
        let ghost w3 = w@;
        if fixed.word_structure_length > 0 {
            proof {
                crate::dic::word_info::variable_io::lemma_u32s_round_trip(self.word_structure@, seq![]);
            }
            size = size + write_u32_slice(w, self.word_structure);
        }
        let ghost w4 = w@;
        proof {
            crate::dic::word_info::variable_io::lemma_i32s_round_trip(self.synonym_group_ids@, seq![]);
        }
        size = size + write_i32_slice(w, self.synonym_group_ids);
        let ghost w5 = w@;
        if fixed.has_user_data() {
            proof {
                crate::dic::word_info::variable_io::lemma_utf16_string_bytes_len(self.user_data@);
            }
            size = size + write_utf16_string(w, self.user_data);
        }
        proof {
            let pc = spec_u32s_bytes(self.c_unit_split@);
            let pb = if fixed.b_unit_split_length > 0 {
                spec_u32s_bytes(self.b_unit_split@)
            } else {
                Seq::empty()
            };
            let pa = if fixed.a_unit_split_length > 0 {
                spec_u32s_bytes(self.a_unit_split@)
            } else {
                Seq::empty()
            };
            let pw = if fixed.word_structure_length > 0 {
                spec_u32s_bytes(self.word_structure@)
            } else {
                Seq::empty()
            };
            let ps = spec_i32s_bytes(self.synonym_group_ids@);
            let pu = if fixed.user_data_flag == 1 {
                spec_utf16_string_bytes(self.user_data@)
            } else {
                Seq::empty()
            };
            assert(w1 == w0 + pc);
            assert(w2 =~= w1 + pb);
            assert(w3 =~= w2 + pa);
            assert(w4 =~= w3 + pw);
            assert(w5 == w4 + ps);
            assert(w@ =~= w5 + pu);
            assert(w@ =~= w0 + (pc + pb + pa + pw + ps + pu));
            assert(size == w@.len() - w0.len());
        }
        size
    }
}

} // verus!
