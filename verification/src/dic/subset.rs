//! Sets of word info fields that a reader is asked to fill.
use vstd::prelude::*;

verus! {

/// A set of word info fields, one bit per field.
#[derive(Clone, Copy, Debug, PartialEq, Eq)]
pub struct InfoSubset {
    bits: u32,
}

impl InfoSubset {
    pub fn pos_id() -> (r: InfoSubset)
        ensures
            r@ == 1,
    {
        InfoSubset { bits: 1 }
    }

    pub fn headword() -> (r: InfoSubset)
        ensures
            r@ == 2,
    {
        InfoSubset { bits: 2 }
    }

    pub fn reading_form() -> (r: InfoSubset)
        ensures
            r@ == 4,
    {
        InfoSubset { bits: 4 }
    }

    pub fn normalized_form() -> (r: InfoSubset)
        ensures
            r@ == 8,
    {
        InfoSubset { bits: 8 }
    }

    pub fn dictionary_form() -> (r: InfoSubset)
        ensures
            r@ == 16,
    {
        InfoSubset { bits: 16 }
    }

    pub fn index_form_length() -> (r: InfoSubset)
        ensures
            r@ == 32,
    {
        InfoSubset { bits: 32 }
    }

    pub fn split_c() -> (r: InfoSubset)
        ensures
            r@ == 64,
    {
        InfoSubset { bits: 64 }
    }

    pub fn split_b() -> (r: InfoSubset)
        ensures
            r@ == 128,
    {
        InfoSubset { bits: 128 }
    }

    pub fn split_a() -> (r: InfoSubset)
        ensures
            r@ == 256,
    {
        InfoSubset { bits: 256 }
    }

    pub fn word_structure() -> (r: InfoSubset)
        ensures
            r@ == 512,
    {
        InfoSubset { bits: 512 }
    }

    pub fn synonym_group_ids() -> (r: InfoSubset)
        ensures
            r@ == 1024,
    {
        InfoSubset { bits: 1024 }
    }

    pub fn user_data() -> (r: InfoSubset)
        ensures
            r@ == 2048,
    {
        InfoSubset { bits: 2048 }
    }

    pub closed spec fn view(&self) -> u32 {
        self.bits
    }

    /// The set of all fields.
    pub fn all() -> (r: InfoSubset)
        ensures
            r@ == 0xfff,
    {
        InfoSubset { bits: 0xfff }
    }

    /// The empty set.
    pub fn empty() -> (r: InfoSubset)
        ensures
            r@ == 0,
    {
        InfoSubset { bits: 0 }
    }

    pub fn is_empty(&self) -> (r: bool)
        ensures
            r == (self@ == 0),
    {
        self.bits == 0
    }

    /// Whether every field of `other` is in this set.
    pub fn contains(&self, other: InfoSubset) -> (r: bool)
        ensures
            r == (self@ & other@ == other@),
    {
        self.bits & other.bits == other.bits
    }

    /// The fields of either set.
    pub fn union(&self, other: InfoSubset) -> (r: InfoSubset)
        ensures
            r@ == self@ | other@,
    {
        InfoSubset { bits: self.bits | other.bits }
    }

    /// The fields of this set that are not in `other`.
    pub fn difference(&self, other: InfoSubset) -> (r: InfoSubset)
        ensures
            r@ == self@ & !other@,
    {
        InfoSubset { bits: self.bits & !other.bits }
    }
}

} // verus!
