//! Byte layout of one word entry in the entries block.
//!
//! An entry is: 6 bytes of connection parameters, a 26-byte fixed part, the
//! variable-length arrays (C/B/A splits, word structure, synonym groups), and an
//! optional UTF-16 user data string; the whole entry is padded to 8 bytes.
use vstd::prelude::*;

verus! {

/// Size of the connection parameters (left id, right id, cost) at the entry start.
pub const PARAMS_SIZE: usize = 6;

/// Size of the fixed part of the word info that follows the parameters.
pub const WORD_INFO_FIXED_SIZE: usize = 26;

/// Size of parameters and fixed part together.
pub const FIXED_PART_SIZE: usize = 32;

/// Offset of the first entry inside the entries block.
pub const ENTRY_INITIAL_OFFSET: usize = 32;

/// Entry ids are entry offsets without their low 3 bits.
pub const WORD_ID_ALIGNMENT_BITS: usize = 3;

/// Entries start at multiples of this many bytes.
pub const WORD_INFO_OFFSET_ALIGNMENT: usize = 8;

/// Offsets (from the entry start) of the one-byte length fields.
pub const OFFSET_C_UNIT_SPLIT_LENGTH: usize = 26;

pub const OFFSET_B_UNIT_SPLIT_LENGTH: usize = 27;

pub const OFFSET_A_UNIT_SPLIT_LENGTH: usize = 28;

pub const OFFSET_WORD_STRUCTURE_LENGTH: usize = 29;

pub const OFFSET_SYNONYM_GROUP_IDS_LENGTH: usize = 30;

pub const OFFSET_USER_DATA_FLAG: usize = 31;

/// Number of array elements stored for a length field: a negative length means
/// "same as the larger unit" and stores nothing.
pub open spec fn spec_embedded_len(v: i8) -> nat {
    if v < 0 {
        0
    } else {
        v as nat
    }
}

/// `size` rounded up to a multiple of 8.
pub open spec fn spec_aligned(size: int) -> int {
    ((size + 7) / 8) * 8
}

/// The size of an entry before padding, or `None` when a length field is invalid
/// (negative C split length, negative synonym count, negative user data length).
pub open spec fn spec_unaligned_size(
    c_len: i8,
    b_len: i8,
    a_len: i8,
    ws_len: i8,
    syn_len: i8,
    user_data_units: Option<i16>,
) -> Option<int> {
    if c_len < 0 || syn_len < 0 {
        None
    } else {
        let base = FIXED_PART_SIZE + 4 * c_len + 4 * spec_embedded_len(b_len) + 4
            * spec_embedded_len(a_len) + 4 * spec_embedded_len(ws_len) + 4 * syn_len;
        match user_data_units {
            None => Some(base),
            Some(u) => if u < 0 {
                None
            } else {
                Some(base + 2 + 2 * u)
            },
        }
    }
}

/// Number of stored elements for a length field.
pub fn embedded_len(v: i8) -> (r: usize)
    ensures
        r == spec_embedded_len(v),
{
    if v < 0 {
        0
    } else {
        v as usize
    }
}

/// Only 0 (no user data) and 1 (user data follows) are valid flags.
pub fn is_valid_user_data_flag(flag: i8) -> (r: bool)
    ensures
        r == (flag == 0 || flag == 1),
{
    flag == 0 || flag == 1
}

/// Rounds `size` up to a multiple of 8.
pub fn aligned_size(size: usize) -> (r: usize)
    requires
        size + 7 <= usize::MAX,
    ensures
        r == spec_aligned(size as int),
        r >= size,
        r < size + 8,
        r % 8 == 0,
{
    let r = (size + 7) / 8 * 8;
    r
}

/// The size of an entry before padding.
pub fn unaligned_size_from_lengths(
    c_len: i8,
    b_len: i8,
    a_len: i8,
    ws_len: i8,
    syn_len: i8,
    user_data_units: Option<i16>,
) -> (r: Option<usize>)
    ensures
        r matches Some(s) ==> spec_unaligned_size(c_len, b_len, a_len, ws_len, syn_len, user_data_units) == Some(s as int),
        r is None ==> spec_unaligned_size(c_len, b_len, a_len, ws_len, syn_len, user_data_units) is None,
        r matches Some(s) ==> s <= 100000,
{
    if c_len < 0 || syn_len < 0 {
        return None;
    }
    let mut size: usize = FIXED_PART_SIZE;
    size = size + 4 * (c_len as usize);
    size = size + 4 * embedded_len(b_len);
    size = size + 4 * embedded_len(a_len);
    size = size + 4 * embedded_len(ws_len);
    size = size + 4 * (syn_len as usize);
    match user_data_units {
        None => Some(size),
        Some(u) => {
            if u < 0 {
                None
            } else {
                Some(size + 2 + 2 * (u as usize))
            }
        },
    }
}

/// The size of an entry after padding to 8 bytes.
pub fn size_from_lengths(
    c_len: i8,
    b_len: i8,
    a_len: i8,
    ws_len: i8,
    syn_len: i8,
    user_data_units: Option<i16>,
) -> (r: Option<usize>)
    ensures
        r matches Some(s) ==> spec_unaligned_size(c_len, b_len, a_len, ws_len, syn_len, user_data_units) matches Some(u) && s == spec_aligned(u),
        r is None ==> spec_unaligned_size(c_len, b_len, a_len, ws_len, syn_len, user_data_units) is None,
        r matches Some(s) ==> s % 8 == 0 && s <= 100008,
{
    match unaligned_size_from_lengths(c_len, b_len, a_len, ws_len, syn_len, user_data_units) {
        Some(s) => Some(aligned_size(s)),
        None => None,
    }
}

/// Length fields of an entry that will be written.
#[derive(Debug, Clone, Copy, PartialEq, Eq)]
pub struct WordInfoVariableLayout {
    pub c_unit_split_length: i8,
    pub b_unit_split_length: i8,
    pub a_unit_split_length: i8,
    pub word_structure_length: i8,
    pub synonym_group_ids_length: i8,
    pub user_data_flag: i8,
    pub user_data_units: i16,
}

/// The length field stored for a unit that may share its elements with the larger unit.
pub open spec fn spec_shared_len(same: bool, len: nat) -> Option<i8> {
    if same {
        Some(-1i8)
    } else if len <= 127 {
        Some(len as i8)
    } else {
        None
    }
}

/// The layout of an entry with the given array sizes, or `None` when a size does
/// not fit its field.
pub open spec fn spec_variable_layout(
    c_len: nat,
    b_same: bool,
    b_len: nat,
    a_same: bool,
    a_len: nat,
    ws_same: bool,
    ws_len: nat,
    syn_len: nat,
    user_units: nat,
) -> Option<WordInfoVariableLayout> {
    if c_len > 127 || syn_len > 127 || user_units > 0x7fff || spec_shared_len(b_same, b_len) is None
        || spec_shared_len(a_same, a_len) is None || spec_shared_len(ws_same, ws_len) is None {
        None
    } else {
        Some(
            WordInfoVariableLayout {
                c_unit_split_length: c_len as i8,
                b_unit_split_length: spec_shared_len(b_same, b_len).unwrap(),
                a_unit_split_length: spec_shared_len(a_same, a_len).unwrap(),
                word_structure_length: spec_shared_len(ws_same, ws_len).unwrap(),
                synonym_group_ids_length: syn_len as i8,
                user_data_flag: if user_units > 0 {
                    1
                } else {
                    0
                },
                user_data_units: user_units as i16,
            },
        )
    }
}

fn shared_len(same: bool, len: usize) -> (r: Option<i8>)
    ensures
        r == spec_shared_len(same, len as nat),
{
    if same {
        Some(-1)
    } else if len <= 127 {
        Some(len as i8)
    } else {
        None
    }
}

impl WordInfoVariableLayout {
    /// Chooses the length fields for the given array sizes. A B split equal to the C
    /// split (and likewise A to B, word structure to A) is stored as length -1.
    pub fn new(
        c_len: usize,
        b_same_as_c: bool,
        b_len: usize,
        a_same_as_b: bool,
        a_len: usize,
        ws_same_as_a: bool,
        ws_len: usize,
        syn_len: usize,
        user_units: usize,
    ) -> (r: Option<WordInfoVariableLayout>)
        ensures
            r == spec_variable_layout(
                c_len as nat,
                b_same_as_c,
                b_len as nat,
                a_same_as_b,
                a_len as nat,
                ws_same_as_a,
                ws_len as nat,
                syn_len as nat,
                user_units as nat,
            ),
    {
        if c_len > 127 || syn_len > 127 || user_units > 0x7fff {
            return None;
        }
        let b = match shared_len(b_same_as_c, b_len) {
            Some(v) => v,
            None => return None,
        };
        let a = match shared_len(a_same_as_b, a_len) {
            Some(v) => v,
            None => return None,
        };
        let ws = match shared_len(ws_same_as_a, ws_len) {
            Some(v) => v,
            None => return None,
        };
        Some(
            WordInfoVariableLayout {
                c_unit_split_length: c_len as i8,
                b_unit_split_length: b,
                a_unit_split_length: a,
                word_structure_length: ws,
                synonym_group_ids_length: syn_len as i8,
                user_data_flag: if user_units > 0 {
                    1
                } else {
                    0
                },
                user_data_units: user_units as i16,
            },
        )
    }
}

/// The user data length that an entry size counts for a layout.
pub open spec fn spec_layout_user_units(v: WordInfoVariableLayout) -> Option<i16> {
    if v.user_data_flag == 1 {
        Some(v.user_data_units)
    } else {
        None
    }
}

/// The padded size of an entry with the given layout.
pub fn size_from_variable_layout(v: WordInfoVariableLayout) -> (r: Option<usize>)
    ensures
        r matches Some(s) ==> spec_unaligned_size(
            v.c_unit_split_length,
            v.b_unit_split_length,
            v.a_unit_split_length,
            v.word_structure_length,
            v.synonym_group_ids_length,
            spec_layout_user_units(v),
        ) matches Some(u) && s == spec_aligned(u),
        r is None ==> spec_unaligned_size(
            v.c_unit_split_length,
            v.b_unit_split_length,
            v.a_unit_split_length,
            v.word_structure_length,
            v.synonym_group_ids_length,
            spec_layout_user_units(v),
        ) is None,
        r matches Some(s) ==> s % 8 == 0 && s <= 100008,
{
    let user = if v.user_data_flag == 1 {
        Some(v.user_data_units)
    } else {
        None
    };
    size_from_lengths(
        v.c_unit_split_length,
        v.b_unit_split_length,
        v.a_unit_split_length,
        v.word_structure_length,
        v.synonym_group_ids_length,
        user,
    )
}

} // verus!
