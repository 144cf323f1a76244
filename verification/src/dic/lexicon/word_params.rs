//! Connection parameters (left id, right id, cost) of the dictionary entries.
use vstd::bytes::*;
use vstd::prelude::*;

use crate::dic::read::primitives::{le_u64, spec_le_u64};

verus! {

/// The 16-bit field number `k` (0 is the lowest) of `v`, read as a signed value.
pub open spec fn spec_i16_field(v: u64, k: nat) -> i16 {
    ((v as int / pow2_16(k)) % 0x10000) as u16 as i16
}

/// `2^(16 k)` for the field numbers used here.
pub open spec fn pow2_16(k: nat) -> int {
    if k == 0 {
        1
    } else if k == 1 {
        0x10000
    } else if k == 2 {
        0x1_0000_0000
    } else {
        0x1_0000_0000_0000
    }
}

/// The packed parameters after replacing the cost: the cost (sign-extended to 64 bits)
/// shifted into bits 32.. and the low 32 bits kept.
pub open spec fn spec_with_cost(v: u64, cost: i16) -> u64 {
    (((cost as u64) as int * 0x1_0000_0000 + v as int % 0x1_0000_0000) % 0x1_0000_0000_0000_0000)
        as u64
}

/// Parameters of one word: left connection id in bits 0..16, right connection id
/// in bits 16..32, cost in bits 32..48, all as signed 16-bit values.
#[derive(Debug, Clone, Copy, PartialEq, Eq)]
pub struct WordParameter(u64);

impl WordParameter {
    pub closed spec fn view(&self) -> u64 {
        self.0
    }

    pub fn from_raw(raw: u64) -> (r: WordParameter)
        ensures
            r@ == raw,
    {
        WordParameter(raw)
    }

    pub fn as_raw(self) -> (r: u64)
        ensures
            r == self@,
    {
        self.0
    }

    /// The left connection cost id.
    pub fn left_id(self) -> (r: i16)
        ensures
            r == spec_i16_field(self@, 0),
    {
        let v = self.0;
        proof {
            assert((v & 0xffff) as i16 == ((v % 0x10000) as u16) as i16) by (bit_vector);
        }
        (v & 0xffff) as i16
    }

    /// The right connection cost id.
    pub fn right_id(self) -> (r: i16)
        ensures
            r == spec_i16_field(self@, 1),
    {
        let v = self.0;
        proof {
            assert(((v >> 16) & 0xffff) as i16 == (((v / 0x10000) % 0x10000) as u16) as i16)
                by (bit_vector);
        }
        ((v >> 16) & 0xffff) as i16
    }

    /// The cost of the word.
    pub fn cost(self) -> (r: i16)
        ensures
            r == spec_i16_field(self@, 2),
    {
        let v = self.0;
        proof {
            assert(((v >> 32) & 0xffff) as i16 == (((v / 0x1_0000_0000) % 0x10000) as u16) as i16)
                by (bit_vector);
        }
        ((v >> 32) & 0xffff) as i16
    }

    /// Returns new parameters with the given cost.
    pub fn with_cost(self, cost: i16) -> (r: WordParameter)
        ensures
            r@ == spec_with_cost(self@, cost),
    {
        let v = self.0;
        let c = cost as u64;
        proof {
            assert((c << 32) | (v & 0xffffffff) == ((c as int * 0x1_0000_0000 + v as int
                % 0x1_0000_0000) % 0x1_0000_0000_0000_0000) as u64) by (bit_vector);
        }
        WordParameter((c << 32) | (v & 0xffffffff))
    }
}

/// Replacing the cost gives that cost back and keeps both connection ids.
pub proof fn with_cost_law(v: u64, cost: i16)
    ensures
        spec_i16_field(spec_with_cost(v, cost), 2) == cost,
        spec_i16_field(spec_with_cost(v, cost), 0) == spec_i16_field(v, 0),
        spec_i16_field(spec_with_cost(v, cost), 1) == spec_i16_field(v, 1),
{
    let c = cost as u64;
    let w = spec_with_cost(v, cost);
    assert(w == (c << 32) | (v & 0xffffffff)) by (bit_vector)
        requires
            w == ((c as int * 0x1_0000_0000 + v as int % 0x1_0000_0000)
                % 0x1_0000_0000_0000_0000) as u64,
    ;
    assert(((((c << 32) | (v & 0xffffffff)) as int / 0x1_0000_0000) % 0x10000) as u16 as i16
        == cost) by (bit_vector)
        requires
            c == cost as u64,
    ;
    assert((((c << 32) | (v & 0xffffffff)) as int % 0x10000) as u16 as i16 == (v as int
        % 0x10000) as u16 as i16) by (bit_vector);
    assert(((((c << 32) | (v & 0xffffffff)) as int / 0x10000) % 0x10000) as u16 as i16 == ((
    v as int / 0x10000) % 0x10000) as u16 as i16) by (bit_vector);
}

/// The parameters of all entries of a lexicon, one packed `u64` per 8-byte slot of
/// the entries block (entry ids index this table directly).
pub struct WordParams {
    data: Vec<u64>,
}

/// The packed values that a byte block holds, one per full 8 bytes.
pub open spec fn spec_params_of_bytes(bytes: Seq<u8>) -> Seq<u64> {
    Seq::new(bytes.len() / 8, |i: int| spec_le_u64(bytes.skip(8 * i)))
}

impl WordParams {
    pub closed spec fn view(&self) -> Seq<u64> {
        self.data@
    }

    /// Reads the parameter table from the entries block.
    pub fn from_bytes(bytes: &[u8]) -> (r: WordParams)
        ensures
            r@ == spec_params_of_bytes(bytes@),
    {
        let n = bytes.len() / 8;
        let mut data: Vec<u64> = Vec::with_capacity(n);
        let mut cur = bytes;
        let mut i: usize = 0;
        while i < n
            invariant
                n == bytes@.len() / 8,
                0 <= i <= n,
                cur@ == bytes@.skip(8 * i),
                data@ =~= spec_params_of_bytes(bytes@).take(i as int),
            decreases n - i,
        {
            match le_u64(cur) {
                Ok((rest, v)) => {
                    proof {
                        assert(rest@ =~= bytes@.skip(8 * (i + 1)));
                    }
                    data.push(v);
                    cur = rest;
                },
                Err(_) => {
                    proof {
                        assert(false);
                    }
                },
            }
            i = i + 1;
        }
        proof {
            assert(data@ =~= spec_params_of_bytes(bytes@));
        }
        WordParams { data }
    }

    /// Number of 8-byte slots.
    pub fn len(&self) -> (r: usize)
        ensures
            r == self@.len(),
    {
        self.data.len()
    }

    /// The parameters of the entry with the given id.
    pub fn get_params(&self, entry_id: u32) -> (r: WordParameter)
        requires
            entry_id < self@.len(),
        ensures
            r@ == self@[entry_id as int],
    {
        WordParameter(self.data[entry_id as usize])
    }

    /// The cost of the entry with the given id.
    pub fn get_cost(&self, entry_id: u32) -> (r: i16)
        requires
            entry_id < self@.len(),
        ensures
            r == spec_i16_field(self@[entry_id as int], 2),
    {
        let params = self.get_params(entry_id);
        params.cost()
    }

    /// Replaces the cost of one entry; all other entries stay as they are.
    pub fn set_cost(&mut self, entry_id: u32, cost: i16)
        requires
            entry_id < old(self)@.len(),
        ensures
            final(self)@ == old(self)@.update(
                entry_id as int,
                spec_with_cost(old(self)@[entry_id as int], cost),
            ),
    {
        let params = self.get_params(entry_id);
        self.data.set(entry_id as usize, params.with_cost(cost).0);
    }
}

/// After `set_cost`, the entry has the new cost and keeps its connection ids,
/// and no other entry changes.
pub proof fn set_cost_law(before: Seq<u64>, entry: int, cost: i16, other: int)
    requires
        0 <= entry < before.len(),
        0 <= other < before.len(),
        other != entry,
    ensures
        ({
            let after = before.update(entry, spec_with_cost(before[entry], cost));
            &&& spec_i16_field(after[entry], 2) == cost
            &&& spec_i16_field(after[entry], 0) == spec_i16_field(before[entry], 0)
            &&& spec_i16_field(after[entry], 1) == spec_i16_field(before[entry], 1)
            &&& after[other] == before[other]
        }),
{
    with_cost_law(before[entry], cost);
}

} // verus!
