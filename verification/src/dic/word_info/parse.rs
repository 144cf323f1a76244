//! Reading a whole word entry.
use vstd::prelude::*;

use crate::dic::read::primitives::{
    count_le_i32, count_le_u32, lemma_skip_concat, lemma_skip_skip, spec_le_i32s, spec_le_u32s, take,
};
use crate::dic::read::utf16_string::{spec_utf16_string, utf16_string};
use crate::dic::subset::InfoSubset;
use crate::dic::word_info::layout::{embedded_len, spec_embedded_len, FIXED_PART_SIZE, PARAMS_SIZE};
use crate::dic::read::utf16_string::spec_utf16_encode;
use crate::dic::word_info::raw::{
    fixed_data_round_trip, spec_fixed_bytes, spec_fixed_of, spec_fixed_pointers_valid,
    spec_variable_bytes, WordInfoFixedData,
};
use crate::dic::word_info::variable_io::{
    lemma_i32s_round_trip, lemma_u32s_round_trip, lemma_utf16_string_round_trip, spec_i32s_bytes,
    spec_u32s_bytes, spec_utf16_string_bytes,
};
use crate::error::{SudachiError, SudachiResult};

verus! {

/// The word info of one entry, with the variable-length arrays read.
#[derive(Clone, Debug)]
pub struct WordInfoRawData {
    pub pos_id: i16,
    pub headword_strptr: crate::dic::lexicon::strings::StringPointer,
    pub reading_form_strptr: crate::dic::lexicon::strings::StringPointer,
    pub normalized_form: u32,
    pub dictionary_form: u32,
    /// Length in bytes of the index form in UTF-8.
    pub index_form_length: i16,
    pub c_unit_split_length: i8,
    pub b_unit_split_length: i8,
    pub a_unit_split_length: i8,
    pub word_structure_length: i8,
    pub synonym_group_ids_length: i8,
    pub user_data_flag: i8,
    pub c_unit_split: Vec<u32>,
    pub b_unit_split: Vec<u32>,
    pub a_unit_split: Vec<u32>,
    pub word_structure: Vec<u32>,
    pub synonym_group_ids: Vec<i32>,
    pub user_data: String,
}

/// The mathematical content of a [`WordInfoRawData`].
#[verifier::ext_equal]
pub struct WordInfoRawView {
    pub fixed: WordInfoFixedData,
    pub c_unit_split: Seq<u32>,
    pub b_unit_split: Seq<u32>,
    pub a_unit_split: Seq<u32>,
    pub word_structure: Seq<u32>,
    pub synonym_group_ids: Seq<i32>,
    pub user_data: Seq<char>,
}

impl WordInfoRawData {
    /// The fixed fields of the word info.
    pub open spec fn spec_fixed(&self) -> WordInfoFixedData {
        WordInfoFixedData {
            pos_id: self.pos_id,
            headword_strptr: self.headword_strptr,
            reading_form_strptr: self.reading_form_strptr,
            normalized_form: self.normalized_form,
            dictionary_form: self.dictionary_form,
            index_form_length: self.index_form_length,
            c_unit_split_length: self.c_unit_split_length,
            b_unit_split_length: self.b_unit_split_length,
            a_unit_split_length: self.a_unit_split_length,
            word_structure_length: self.word_structure_length,
            synonym_group_ids_length: self.synonym_group_ids_length,
            user_data_flag: self.user_data_flag,
        }
    }

    pub open spec fn view(&self) -> WordInfoRawView {
        WordInfoRawView {
            fixed: self.spec_fixed(),
            c_unit_split: self.c_unit_split@,
            b_unit_split: self.b_unit_split@,
            a_unit_split: self.a_unit_split@,
            word_structure: self.word_structure@,
            synonym_group_ids: self.synonym_group_ids@,
            user_data: self.user_data@,
        }
    }
}

impl Default for WordInfoRawData {
    fn default() -> (r: WordInfoRawData)
        ensures
            r.pos_id == 0 && r.normalized_form == 0 && r.dictionary_form == 0,
            r.c_unit_split_length == 0 && r.b_unit_split_length == 0 && r.a_unit_split_length == 0,
            r.word_structure_length == 0 && r.synonym_group_ids_length == 0 && r.user_data_flag
                == 0,
            r.index_form_length == 0,
            r.c_unit_split@.len() == 0 && r.b_unit_split@.len() == 0 && r.a_unit_split@.len() == 0,
            r.word_structure@.len() == 0 && r.synonym_group_ids@.len() == 0 && r.user_data@.len()
                == 0,
    {
        WordInfoRawData {
            pos_id: 0,
            headword_strptr: crate::dic::lexicon::strings::StringPointer::unchecked(0, 0),
            reading_form_strptr: crate::dic::lexicon::strings::StringPointer::unchecked(0, 0),
            normalized_form: 0,
            dictionary_form: 0,
            index_form_length: 0,
            c_unit_split_length: 0,
            b_unit_split_length: 0,
            a_unit_split_length: 0,
            word_structure_length: 0,
            synonym_group_ids_length: 0,
            user_data_flag: 0,
            c_unit_split: Vec::new(),
            b_unit_split: Vec::new(),
            a_unit_split: Vec::new(),
            word_structure: Vec::new(),
            synonym_group_ids: Vec::new(),
            user_data: String::new(),
        }
    }
}

/// The word info that the entry at the start of `data` holds, or `None` when the
/// entry is cut short, has a negative C split length or synonym count, or its user
/// data is not a valid UTF-16 string. B, A splits and the word structure with a
/// negative length repeat the next larger unit (C, B, A respectively).
#[verifier::opaque]
pub open spec fn spec_parse_word_info(data: Seq<u8>) -> Option<WordInfoRawView> {
    if data.len() < FIXED_PART_SIZE {
        None
    } else {
        let f = spec_fixed_of(data.skip(PARAMS_SIZE as int));
        if f.c_unit_split_length < 0 || f.synonym_group_ids_length < 0 {
            None
        } else {
            let c = f.c_unit_split_length as nat;
            let b = spec_embedded_len(f.b_unit_split_length);
            let a = spec_embedded_len(f.a_unit_split_length);
            let ws = spec_embedded_len(f.word_structure_length);
            let syn = f.synonym_group_ids_length as nat;
            let off_b: int = FIXED_PART_SIZE + 4 * c;
            let off_a: int = off_b + 4 * b;
            let off_ws: int = off_a + 4 * a;
            let off_syn: int = off_ws + 4 * ws;
            let off_user: int = off_syn + 4 * syn;
            if off_user > data.len() {
                None
            } else {
                let user = if f.user_data_flag == 1 {
                    match spec_utf16_string(data.skip(off_user)) {
                        Some((_, s)) => Some(s),
                        None => None,
                    }
                } else {
                    Some(Seq::<char>::empty())
                };
                match user {
                    None => None,
                    Some(u) => {
                        let cs = spec_le_u32s(data.skip(FIXED_PART_SIZE as int), c);
                        let bs0 = spec_le_u32s(data.skip(off_b), b);
                        let as0 = spec_le_u32s(data.skip(off_a), a);
                        let ws0 = spec_le_u32s(data.skip(off_ws), ws);
                        let bs = if f.b_unit_split_length < 0 {
                            cs
                        } else {
                            bs0
                        };
                        let as_ = if f.a_unit_split_length < 0 {
                            bs
                        } else {
                            as0
                        };
                        let wss = if f.word_structure_length < 0 {
                            as_
                        } else {
                            ws0
                        };
                        Some(
                            WordInfoRawView {
                                fixed: f,
                                c_unit_split: cs,
                                b_unit_split: bs,
                                a_unit_split: as_,
                                word_structure: wss,
                                synonym_group_ids: spec_le_i32s(data.skip(off_syn), syn),
                                user_data: u,
                            },
                        )
                    },
                }
            }
        }
    }
}

/// Reader of word entries.
pub struct WordInfoParser {
    info: WordInfoRawData,
}

impl Default for WordInfoParser {
    fn default() -> (r: WordInfoParser)
        ensures
            r.spec_info().c_unit_split_length == 0,
    {
        Self::subset(InfoSubset::all())
    }
}

impl WordInfoParser {
    pub closed spec fn spec_info(&self) -> WordInfoRawData {
        self.info
    }

    /// Makes a reader. Every field is read, whatever subset is asked for.
    pub fn subset(_flds: InfoSubset) -> (r: WordInfoParser)
        ensures
            r.spec_info().c_unit_split_length == 0,
            r.spec_info().b_unit_split_length == 0,
            r.spec_info().a_unit_split_length == 0,
            r.spec_info().word_structure_length == 0,
            r.spec_info().synonym_group_ids_length == 0,
            r.spec_info().user_data_flag == 0,
    {
        WordInfoParser { info: WordInfoRawData::default() }
    }

    /// Whether the entry read so far has user data (its flag is 1).
    pub fn has_user_data(&self) -> (r: bool)
        ensures
            r == (self.spec_info().user_data_flag == 1),
    {
        self.info.user_data_flag == 1
    }

    /// Number of stored C split elements: the length field reinterpreted as a `usize`.
    pub fn embedded_c_unit_split_length(&self) -> (r: usize)
        ensures
            r == self.spec_info().c_unit_split_length as usize,
    {
        self.info.c_unit_split_length as usize
    }

    /// Number of stored B split elements (0 when it repeats the C split).
    pub fn embedded_b_unit_split_length(&self) -> (r: usize)
        ensures
            r == spec_embedded_len(self.spec_info().b_unit_split_length),
    {
        embedded_len(self.info.b_unit_split_length)
    }

    /// Number of stored A split elements (0 when it repeats the B split).
    pub fn embedded_a_unit_split_length(&self) -> (r: usize)
        ensures
            r == spec_embedded_len(self.spec_info().a_unit_split_length),
    {
        embedded_len(self.info.a_unit_split_length)
    }

    /// Number of stored word structure elements (0 when it repeats the A split).
    pub fn embedded_word_structure_length(&self) -> (r: usize)
        ensures
            r == spec_embedded_len(self.spec_info().word_structure_length),
    {
        embedded_len(self.info.word_structure_length)
    }

    /// Number of stored synonym group ids: the length field reinterpreted as a `usize`.
    pub fn embedded_synonym_group_ids_length(&self) -> (r: usize)
        ensures
            r == self.spec_info().synonym_group_ids_length as usize,
    {
        self.info.synonym_group_ids_length as usize
    }

    /// Reads the entry at the start of `data` (parameters, fixed part, arrays and
    /// user data).
    #[verifier::rlimit(40)]
    pub fn parse(self, data: &[u8]) -> (r: SudachiResult<WordInfoRawData>)
        ensures
            r is Ok <==> spec_parse_word_info(data@) is Some,
            r matches Ok(info) ==> spec_parse_word_info(data@) == Some(info@),
    {
        proof {
            reveal(spec_parse_word_info);
        }
        let (d0, _) = take(data, PARAMS_SIZE)?;
        let (d1, fixed) = WordInfoFixedData::parse(d0)?;
        proof {
            assert(d0@ =~= data@.skip(6));
            assert(d1@ =~= data@.skip(32));
        }
        if fixed.c_unit_split_length < 0 || fixed.synonym_group_ids_length < 0 {
            return Err(SudachiError::UnexpectedEndOfInput);
        }
        let c_len = fixed.c_unit_split_length as usize;
        let b_len = embedded_len(fixed.b_unit_split_length);
        let a_len = embedded_len(fixed.a_unit_split_length);
        let ws_len = embedded_len(fixed.word_structure_length);
        let syn_len = fixed.synonym_group_ids_length as usize;
        let ghost off_b = 32 + 4 * c_len;
        let ghost off_a = off_b + 4 * b_len;
        let ghost off_ws = off_a + 4 * a_len;
        let ghost off_syn = off_ws + 4 * ws_len;
        let ghost off_user = off_syn + 4 * syn_len;
        let (d2, c_unit_split) = count_le_u32(d1, c_len)?;
        proof {
            assert(d2@ =~= data@.skip(off_b));
        }
        let (d3, b0) = count_le_u32(d2, b_len)?;
        proof {
            assert(d3@ =~= data@.skip(off_a));
        }
        let (d4, a0) = count_le_u32(d3, a_len)?;
        proof {
            assert(d4@ =~= data@.skip(off_ws));
        }
        let (d5, ws0) = count_le_u32(d4, ws_len)?;
        proof {
            assert(d5@ =~= data@.skip(off_syn));
        }
        let (d6, synonym_group_ids) = count_le_i32(d5, syn_len)?;
        proof {
            assert(d6@ =~= data@.skip(off_user));
        }
        let user_data = if fixed.has_user_data() {
            let (_, u) = utf16_string(d6)?;
            u
        } else {
            String::new()
        };
        let b_unit_split = if fixed.b_unit_split_length < 0 {
            c_unit_split.clone()
        } else {
            b0
        };
        proof {
            assert(fixed.b_unit_split_length < 0 ==> b_unit_split@ =~= c_unit_split@);
        }
        let a_unit_split = if fixed.a_unit_split_length < 0 {
            b_unit_split.clone()
        } else {
            a0
        };
        proof {
            assert(fixed.a_unit_split_length < 0 ==> a_unit_split@ =~= b_unit_split@);
        }
        let word_structure = if fixed.word_structure_length < 0 {
            a_unit_split.clone()
        } else {
            ws0
        };
        proof {
            assert(fixed.word_structure_length < 0 ==> word_structure@ =~= a_unit_split@);
        }
        let info = WordInfoRawData {
            pos_id: fixed.pos_id,
            headword_strptr: fixed.headword_strptr,
            reading_form_strptr: fixed.reading_form_strptr,
            normalized_form: fixed.normalized_form,
            dictionary_form: fixed.dictionary_form,
            index_form_length: fixed.index_form_length,
            c_unit_split_length: fixed.c_unit_split_length,
            b_unit_split_length: fixed.b_unit_split_length,
            a_unit_split_length: fixed.a_unit_split_length,
            word_structure_length: fixed.word_structure_length,
            synonym_group_ids_length: fixed.synonym_group_ids_length,
            user_data_flag: fixed.user_data_flag,
            c_unit_split,
            b_unit_split,
            a_unit_split,
            word_structure,
            synonym_group_ids,
            user_data,
        };
        proof {
            assert(info.spec_fixed() == fixed);
            reveal(spec_parse_word_info);
        }
        Ok(info)
    }
}

/// Whether the arrays of an entry agree with the length fields of its fixed part.
pub open spec fn spec_entry_consistent(
    f: WordInfoFixedData,
    c: Seq<u32>,
    b: Seq<u32>,
    a: Seq<u32>,
    ws: Seq<u32>,
    syn: Seq<i32>,
    user: Seq<char>,
) -> bool {
    &&& spec_fixed_pointers_valid(f)
    &&& f.c_unit_split_length == c.len()
    &&& f.synonym_group_ids_length == syn.len()
    &&& (f.b_unit_split_length < 0 ==> b == c)
    &&& (f.b_unit_split_length >= 0 ==> f.b_unit_split_length == b.len())
    &&& (f.a_unit_split_length < 0 ==> a == b)
    &&& (f.a_unit_split_length >= 0 ==> f.a_unit_split_length == a.len())
    &&& (f.word_structure_length < 0 ==> ws == a)
    &&& (f.word_structure_length >= 0 ==> f.word_structure_length == ws.len())
    &&& (f.user_data_flag == 1 ==> spec_utf16_encode(user).len() <= 0x7fff)
    &&& (f.user_data_flag != 1 ==> user.len() == 0)
}

/// Unfolds the reading of an entry whose parts are known.
proof fn lemma_parse_from_parts(
    data: Seq<u8>,
    f: WordInfoFixedData,
    c: Seq<u32>,
    b: Seq<u32>,
    a: Seq<u32>,
    ws: Seq<u32>,
    syn: Seq<i32>,
    user: Seq<char>,
)
    requires
        data.len() >= FIXED_PART_SIZE,
        spec_fixed_of(data.skip(PARAMS_SIZE as int)) == f,
        spec_entry_consistent(f, c, b, a, ws, syn, user),
        ({
            let off_b = FIXED_PART_SIZE + 4 * c.len();
            let off_a = off_b + 4 * spec_embedded_len(f.b_unit_split_length);
            let off_ws = off_a + 4 * spec_embedded_len(f.a_unit_split_length);
            let off_syn = off_ws + 4 * spec_embedded_len(f.word_structure_length);
            let off_user = off_syn + 4 * syn.len();
            &&& off_user <= data.len()
            &&& spec_le_u32s(data.skip(FIXED_PART_SIZE as int), c.len()) == c
            &&& (f.b_unit_split_length >= 0 ==> spec_le_u32s(
                data.skip(off_b),
                spec_embedded_len(f.b_unit_split_length),
            ) == b)
            &&& (f.a_unit_split_length >= 0 ==> spec_le_u32s(
                data.skip(off_a),
                spec_embedded_len(f.a_unit_split_length),
            ) == a)
            &&& (f.word_structure_length >= 0 ==> spec_le_u32s(
                data.skip(off_ws),
                spec_embedded_len(f.word_structure_length),
            ) == ws)
            &&& spec_le_i32s(data.skip(off_syn), syn.len()) == syn
            &&& (f.user_data_flag == 1 ==> (spec_utf16_string(data.skip(off_user)) is Some
                && spec_utf16_string(data.skip(off_user)).unwrap().1 == user))
        }),
    ensures
        spec_parse_word_info(data) == Some(
            WordInfoRawView {
                fixed: f,
                c_unit_split: c,
                b_unit_split: b,
                a_unit_split: a,
                word_structure: ws,
                synonym_group_ids: syn,
                user_data: user,
            },
        ),
{
    reveal(spec_parse_word_info);
    assert(spec_parse_word_info(data).unwrap() =~= WordInfoRawView {
        fixed: f,
        c_unit_split: c,
        b_unit_split: b,
        a_unit_split: a,
        word_structure: ws,
        synonym_group_ids: syn,
        user_data: user,
    });
}

/// An entry written as parameters, fixed part and variable part reads back as the
/// same word info, whatever padding follows, when its arrays agree with its length
/// fields.
#[verifier::spinoff_prover]
#[verifier::rlimit(100)]
pub proof fn word_info_write_parse_round_trip(
    params: Seq<u8>,
    f: WordInfoFixedData,
    c: Seq<u32>,
    b: Seq<u32>,
    a: Seq<u32>,
    ws: Seq<u32>,
    syn: Seq<i32>,
    user: Seq<char>,
    pad: Seq<u8>,
)
    requires
        params.len() == PARAMS_SIZE,
        spec_entry_consistent(f, c, b, a, ws, syn, user),
    ensures
        spec_parse_word_info(
            params + spec_fixed_bytes(f) + spec_variable_bytes(c, b, a, ws, syn, user, f) + pad,
        ) == Some(
            WordInfoRawView {
                fixed: f,
                c_unit_split: c,
                b_unit_split: b,
                a_unit_split: a,
                word_structure: ws,
                synonym_group_ids: syn,
                user_data: user,
            },
        ),
{
    let fb = spec_fixed_bytes(f);
    let pc = spec_u32s_bytes(c);
    let pb = if f.b_unit_split_length > 0 {
        spec_u32s_bytes(b)
    } else {
        Seq::empty()
    };
    let pa = if f.a_unit_split_length > 0 {
        spec_u32s_bytes(a)
    } else {
        Seq::empty()
    };
    let pw = if f.word_structure_length > 0 {
        spec_u32s_bytes(ws)
    } else {
        Seq::empty()
    };
    let ps = spec_i32s_bytes(syn);
    let pu = if f.user_data_flag == 1 {
        spec_utf16_string_bytes(user)
    } else {
        Seq::empty()
    };
    let r6 = pu + pad;
    let r5 = ps + r6;
    let r4 = pw + r5;
    let r3 = pa + r4;
    let r2 = pb + r3;
    let r1 = pc + r2;
    let data = params + fb + spec_variable_bytes(c, b, a, ws, syn, user, f) + pad;
    assert(spec_variable_bytes(c, b, a, ws, syn, user, f) == pc + pb + pa + pw + ps + pu);
    assert(data =~= params + (fb + r1));
    fixed_data_round_trip(f, r1);
    assert(data.skip(6) =~= fb + r1);
    lemma_skip_skip(data, 6, 26);
    assert(data.skip(32) == r1);
    lemma_u32s_round_trip(c, r2);
    lemma_u32s_round_trip(b, r3);
    lemma_u32s_round_trip(a, r4);
    lemma_u32s_round_trip(ws, r5);
    lemma_i32s_round_trip(syn, r6);
    let bl = spec_embedded_len(f.b_unit_split_length);
    let al = spec_embedded_len(f.a_unit_split_length);
    let wl = spec_embedded_len(f.word_structure_length);
    assert(pb.len() == 4 * bl);
    assert(pa.len() == 4 * al);
    assert(pw.len() == 4 * wl);
    lemma_skip_concat(pb, r3);
    lemma_skip_concat(pa, r4);
    lemma_skip_concat(pw, r5);
    assert(r1.len() == 4 * c.len() + r2.len());
    let off_b: int = 32 + 4 * c.len() as int;
    lemma_skip_skip(data, 32, 4 * c.len() as int);
    assert(data.skip(off_b) == r2);
    let off_a: int = off_b + 4 * bl;
    lemma_skip_skip(data, off_b, 4 * bl as int);
    assert(data.skip(off_a) == r3);
    let off_ws: int = off_a + 4 * al;
    lemma_skip_skip(data, off_a, 4 * al as int);
    assert(data.skip(off_ws) == r4);
    let off_syn: int = off_ws + 4 * wl;
    lemma_skip_skip(data, off_ws, 4 * wl as int);
    assert(data.skip(off_syn) == r5);
    let off_user: int = off_syn + 4 * syn.len() as int;
    lemma_skip_skip(data, off_syn, 4 * syn.len() as int);
    assert(data.skip(off_user) == r6);
    if f.b_unit_split_length <= 0 {
        assert(spec_le_u32s(r2, bl) =~= Seq::<u32>::empty());
    }
    if f.a_unit_split_length <= 0 {
        assert(spec_le_u32s(r3, al) =~= Seq::<u32>::empty());
    }
    if f.word_structure_length <= 0 {
        assert(spec_le_u32s(r4, wl) =~= Seq::<u32>::empty());
    }
    if f.user_data_flag == 1 {
        lemma_utf16_string_round_trip(user, pad);
    }
    lemma_parse_from_parts(data, f, c, b, a, ws, syn, user);
}

} // verus!
