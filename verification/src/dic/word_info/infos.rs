//! Access to the entries block of a lexicon.
use vstd::bytes::u16_from_le_bytes;
use vstd::prelude::*;
use vstd::slice::slice_subrange;

use crate::dic::read::primitives::spec_le_u16;
use crate::dic::subset::InfoSubset;
use crate::dic::word_id::EntryId;
use crate::dic::word_info::layout::{
    is_valid_user_data_flag, size_from_lengths, spec_aligned, spec_unaligned_size,
    unaligned_size_from_lengths, ENTRY_INITIAL_OFFSET, FIXED_PART_SIZE,
    OFFSET_A_UNIT_SPLIT_LENGTH, OFFSET_B_UNIT_SPLIT_LENGTH, OFFSET_C_UNIT_SPLIT_LENGTH,
    OFFSET_SYNONYM_GROUP_IDS_LENGTH, OFFSET_USER_DATA_FLAG, OFFSET_WORD_STRUCTURE_LENGTH,
    WORD_ID_ALIGNMENT_BITS, WORD_INFO_OFFSET_ALIGNMENT,
};
use crate::dic::word_info::parse::{spec_parse_word_info, WordInfoParser, WordInfoRawData};
use crate::error::SudachiResult;

verus! {

/// The padded size of the entry stored at `offset`, or `None` when its fixed part
/// or user data length is cut short, a length field is invalid, or the padded
/// entry runs past the end of the block.
pub open spec fn spec_entry_size_at(bytes: Seq<u8>, offset: int) -> Option<int> {
    if offset + FIXED_PART_SIZE > bytes.len() {
        None
    } else {
        let c = bytes[offset + OFFSET_C_UNIT_SPLIT_LENGTH] as i8;
        let b = bytes[offset + OFFSET_B_UNIT_SPLIT_LENGTH] as i8;
        let a = bytes[offset + OFFSET_A_UNIT_SPLIT_LENGTH] as i8;
        let ws = bytes[offset + OFFSET_WORD_STRUCTURE_LENGTH] as i8;
        let syn = bytes[offset + OFFSET_SYNONYM_GROUP_IDS_LENGTH] as i8;
        let flag = bytes[offset + OFFSET_USER_DATA_FLAG] as i8;
        if !(flag == 0 || flag == 1) {
            None
        } else {
            let user: Option<Option<i16>> = if flag == 1 {
                match spec_unaligned_size(c, b, a, ws, syn, None) {
                    None => None,
                    Some(u) => if offset + u + 2 > bytes.len() {
                        None
                    } else {
                        Some(Some(spec_le_u16(bytes.skip(offset + u)) as i16))
                    },
                }
            } else {
                Some(None)
            };
            match user {
                None => None,
                Some(units) => match spec_unaligned_size(c, b, a, ws, syn, units) {
                    None => None,
                    Some(u) => if offset + spec_aligned(u) > bytes.len() {
                        None
                    } else {
                        Some(spec_aligned(u))
                    },
                },
            }
        }
    }
}

/// The offsets of `n` consecutive entries starting at `offset`, or `None` when one
/// of them is misaligned or invalid.
pub open spec fn spec_entry_offsets(bytes: Seq<u8>, offset: int, n: nat) -> Option<Seq<int>>
    decreases n,
{
    if n == 0 {
        Some(seq![])
    } else if offset % 8 != 0 {
        None
    } else {
        match spec_entry_size_at(bytes, offset) {
            None => None,
            Some(size) => match spec_entry_offsets(bytes, offset + size, (n - 1) as nat) {
                None => None,
                Some(rest) => Some(seq![offset] + rest),
            },
        }
    }
}

/// The entries block of a lexicon.
pub struct WordInfos<'a> {
    bytes: &'a [u8],
}

impl<'a> WordInfos<'a> {
    pub closed spec fn view(&self) -> Seq<u8> {
        self.bytes@
    }

    pub fn from_bytes(bytes: &'a [u8]) -> (r: WordInfos<'a>)
        ensures
            r@ == bytes@,
    {
        WordInfos { bytes }
    }

    /// The byte offset of an entry: its id times 8.
    /// The length of the entries block.
    pub fn len(&self) -> (r: usize)
        ensures
            r == self@.len(),
    {
        self.bytes.len()
    }

    pub fn entry_id_to_offset(entry_id: EntryId) -> (r: usize)
        requires
            entry_id@ * 8 <= usize::MAX,
        ensures
            r == entry_id@ * 8,
    {
        (entry_id.as_raw() as usize) * WORD_INFO_OFFSET_ALIGNMENT
    }

    /// Scans the entries block and returns the ids of the first `num_total_entries`
    /// entries in the order they are stored (the order of the source CSV rows).
    pub fn entry_ids_in_order(&self, num_total_entries: u32) -> (r: Option<Vec<EntryId>>)
        ensures
            r is Some <==> spec_entry_offsets(self@, ENTRY_INITIAL_OFFSET as int, num_total_entries as nat) is Some,
            r matches Some(ids) ==> ids@.len() == num_total_entries && forall|i: int|
                0 <= i < ids@.len() ==> #[trigger] ids@[i]@ == (spec_entry_offsets(
                    self@,
                    ENTRY_INITIAL_OFFSET as int,
                    num_total_entries as nat,
                ).unwrap()[i] / 8) as u32,
    {
        let n = num_total_entries as usize;
        let mut result: Vec<EntryId> = Vec::new();
        let mut offset: usize = ENTRY_INITIAL_OFFSET;
        let ghost all = spec_entry_offsets(self@, 32, n as nat);
        let ghost mut offs: Seq<int> = seq![];
        proof {
            match all {
                Some(rest) => {
                    assert(offs + rest =~= rest);
                },
                None => {},
            }
        }
        while result.len() < n
            invariant
                result@.len() <= n,
                n == num_total_entries,
                offs.len() == result@.len(),
                forall|i: int| 0 <= i < offs.len() ==> #[trigger] result@[i]@ == (offs[i] / 8) as u32,
                all == spec_entry_offsets(self@, 32, n as nat),
                all == match spec_entry_offsets(self@, offset as int, (n - result@.len()) as nat) {
                    None => None,
                    Some(rest) => Some(offs + rest),
                },
            decreases n - result@.len(),
        {
            if offset % WORD_INFO_OFFSET_ALIGNMENT != 0 {
                return None;
            }
            proof {
                assert(offset >> 3 == offset / 8) by (bit_vector);
            }
            let entry_id = EntryId::new((offset >> WORD_ID_ALIGNMENT_BITS) as u32);
            let size = match self.entry_size_at(offset) {
                Some(s) => s,
                None => return None,
            };
            let block_len = self.bytes.len();
            let next = match offset.checked_add(size) {
                Some(o) => o,
                None => {
                    proof {
                        assert(false);
                    }
                    return None;
                },
            };
            proof {
                let k = (n - result@.len()) as nat;
                match spec_entry_offsets(self@, next as int, (k - 1) as nat) {
                    Some(rest) => {
                        assert(offs.push(offset as int) + rest =~= offs + (seq![offset as int]
                            + rest));
                    },
                    None => {},
                }
                offs = offs.push(offset as int);
            }
            result.push(entry_id);
            offset = next;
        }
        proof {
            match all {
                Some(v) => {
                    assert(v =~= offs);
                },
                None => {},
            }
        }
        Some(result)
    }

    fn entry_size_at(&self, offset: usize) -> (r: Option<usize>)
        ensures
            r matches Some(s) ==> spec_entry_size_at(self@, offset as int) == Some(s as int)
                && offset + s <= self@.len(),
            r is None ==> spec_entry_size_at(self@, offset as int) is None,
    {
        if offset > self.bytes.len() || self.bytes.len() - offset < FIXED_PART_SIZE {
            return None;
        }
        let c = self.bytes[offset + OFFSET_C_UNIT_SPLIT_LENGTH] as i8;
        let b = self.bytes[offset + OFFSET_B_UNIT_SPLIT_LENGTH] as i8;
        let a = self.bytes[offset + OFFSET_A_UNIT_SPLIT_LENGTH] as i8;
        let ws = self.bytes[offset + OFFSET_WORD_STRUCTURE_LENGTH] as i8;
        let syn = self.bytes[offset + OFFSET_SYNONYM_GROUP_IDS_LENGTH] as i8;
        let flag = self.bytes[offset + OFFSET_USER_DATA_FLAG] as i8;
        if !is_valid_user_data_flag(flag) {
            return None;
        }
        let mut user_data_units: Option<i16> = None;
        if flag == 1 {
            let u = match unaligned_size_from_lengths(c, b, a, ws, syn, None) {
                Some(u) => u,
                None => return None,
            };
            if self.bytes.len() - offset < u || self.bytes.len() - offset - u < 2 {
                return None;
            }
            let user_data_offset = offset + u;
            let len_bytes = slice_subrange(self.bytes, user_data_offset, user_data_offset + 2);
            proof {
                assert(len_bytes@ =~= self.bytes@.skip(user_data_offset as int).take(2));
            }
            user_data_units = Some(u16_from_le_bytes(len_bytes) as i16);
        }
        let aligned = match size_from_lengths(c, b, a, ws, syn, user_data_units) {
            Some(s) => s,
            None => return None,
        };
        if self.bytes.len() - offset < aligned {
            return None;
        }
        Some(aligned)
    }

    /// Reads the word info of an entry (every field is read, whatever subset is asked for).
    pub fn get_word_info(&self, entry_id: EntryId, subset: InfoSubset) -> (r: SudachiResult<
        WordInfoRawData,
    >)
        requires
            entry_id@ * 8 <= self@.len(),
        ensures
            r is Ok <==> spec_parse_word_info(self@.skip(entry_id@ * 8)) is Some,
            r matches Ok(info) ==> spec_parse_word_info(self@.skip(entry_id@ * 8)) == Some(info@),
    {
        let len = self.bytes.len();
        let offset = Self::entry_id_to_offset(entry_id);
        let parser = WordInfoParser::subset(subset);
        let data = slice_subrange(self.bytes, offset, self.bytes.len());
        proof {
            assert(data@ =~= self@.skip(entry_id@ * 8));
        }
        parser.parse(data)
    }
}

} // verus!
