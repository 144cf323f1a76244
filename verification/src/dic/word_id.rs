use vstd::prelude::*;

verus! {

/// Number of bits of a word id that hold the entry id.
pub const WORD_ID_ENTRY_BITS: u32 = 28;

/// Mask selecting the entry id part of a raw word id.
pub const WORD_ID_ENTRY_MASK: u32 = 0x0fff_ffff;

/// Dictionary id reserved for out-of-vocabulary words.
pub const OOV_DIC_ID: u8 = 0xf;

/// The dictionary id held in the top 4 bits of a raw word id.
pub open spec fn raw_dic(raw: u32) -> nat {
    (raw / 0x1000_0000) as nat
}

/// The entry id held in the low 28 bits of a raw word id.
pub open spec fn raw_entry(raw: u32) -> nat {
    (raw % 0x1000_0000) as nat
}

/// The raw word id made of a dictionary id and an entry id.
pub open spec fn raw_word_id(dic: nat, entry: nat) -> u32 {
    (dic * 0x1000_0000 + entry) as u32
}

proof fn lemma_split_raw(raw: u32)
    ensures
        raw >> 28 == raw / 0x1000_0000,
        raw & 0x0fff_ffff == raw % 0x1000_0000,
        raw / 0x1000_0000 < 16,
{
    assert(raw >> 28 == raw / 0x1000_0000) by (bit_vector);
    assert(raw & 0x0fff_ffff == raw % 0x1000_0000) by (bit_vector);
}

proof fn lemma_join_raw(dic: u32, entry: u32)
    requires
        dic < 16,
    ensures
        (dic << 28) | (entry & 0x0fff_ffff) == dic * 0x1000_0000 + entry % 0x1000_0000,
{
    assert((dic < 16) ==> (dic << 28) | (entry & 0x0fff_ffff) == dic * 0x1000_0000 + entry
        % 0x1000_0000) by (bit_vector);
}

/// Id of a word entry inside one dictionary (the entry offset divided by 8).
#[derive(Clone, Copy, Debug, PartialEq, Eq, Hash, Structural)]
pub struct EntryId {
    raw: u32,
}

impl EntryId {
    pub closed spec fn view(&self) -> u32 {
        self.raw
    }

    pub fn new(raw: u32) -> (r: EntryId)
        ensures
            r@ == raw,
    {
        EntryId { raw }
    }

    pub fn as_raw(&self) -> (r: u32)
        ensures
            r == self@,
    {
        self.raw
    }
}

/// Id of a dictionary (0 is the system dictionary, 15 marks out-of-vocabulary words).
#[derive(Clone, Copy, Debug, PartialEq, Eq, Hash, Structural)]
pub struct DictId {
    raw: u8,
}

impl DictId {
    pub closed spec fn view(&self) -> u8 {
        self.raw
    }

    pub fn new(raw: u8) -> (r: DictId)
        ensures
            r@ == raw,
    {
        DictId { raw }
    }

    pub fn as_raw(&self) -> (r: u8)
        ensures
            r == self@,
    {
        self.raw
    }
}

/// Identifier of a word: 4 bits of dictionary id and 28 bits of entry id.
#[derive(Clone, Copy, Debug, PartialEq, Eq, Hash, Structural)]
pub struct WordId {
    raw: u32,
}

impl WordId {
    pub closed spec fn view(&self) -> u32 {
        self.raw
    }

    /// The word id whose raw value is all ones; marks a missing reference.
    pub fn invalid() -> (r: WordId)
        ensures
            r@ == 0xffff_ffffu32,
    {
        WordId { raw: 0xffff_ffff }
    }

    /// Makes a word id from a dictionary id and an entry id.
    /// Entry ids wider than 28 bits are cut to their low 28 bits.
    pub fn new(dic: u8, entry: u32) -> (r: WordId)
        requires
            dic < 16,
        ensures
            r@ == raw_word_id(dic as nat, entry as nat % 0x1000_0000),
            raw_dic(r@) == dic,
            raw_entry(r@) == entry % 0x1000_0000,
    {
        let d = dic as u32;
        proof {
            lemma_join_raw(d, entry);
        }
        WordId { raw: (d << 28) | (entry & WORD_ID_ENTRY_MASK) }
    }

    /// Word id of an out-of-vocabulary word with the given part of speech.
    pub fn oov(pos: u32) -> (r: WordId)
        requires
            pos < 0x1000_0000,
        ensures
            raw_dic(r@) == 15,
            raw_entry(r@) == pos,
    {
        WordId::new(OOV_DIC_ID, pos)
    }

    pub fn from_raw(raw: u32) -> (r: WordId)
        ensures
            r@ == raw,
    {
        WordId { raw }
    }

    pub fn as_raw(&self) -> (r: u32)
        ensures
            r == self@,
    {
        self.raw
    }

    /// The dictionary id of this word.
    pub fn dic(&self) -> (r: u8)
        ensures
            r == raw_dic(self@),
    {
        proof {
            lemma_split_raw(self.raw);
        }
        (self.raw >> 28) as u8
    }

    pub fn dict(&self) -> (r: DictId)
        ensures
            r@ == raw_dic(self@),
    {
        DictId::new(self.dic())
    }

    /// The entry id of this word inside its dictionary.
    pub fn entry(&self) -> (r: EntryId)
        ensures
            r@ == raw_entry(self@),
    {
        proof {
            lemma_split_raw(self.raw);
        }
        EntryId::new(self.raw & WORD_ID_ENTRY_MASK)
    }

    /// True when the word does not come from a dictionary.
    pub fn is_oov(&self) -> (r: bool)
        ensures
            r == (raw_dic(self@) == 15),
    {
        self.dic() == OOV_DIC_ID
    }

    /// True when the word comes from a user dictionary.
    pub fn is_user(&self) -> (r: bool)
        ensures
            r == (raw_dic(self@) != 0 && raw_dic(self@) != 15),
    {
        let d = self.dic();
        d != 0 && d != OOV_DIC_ID
    }
}

/// Reference to a word of the system dictionary or of the user dictionary being built.
/// Its raw value is the raw word id with dictionary id 0 (system) or 1 (user).
#[derive(Clone, Copy, Debug, PartialEq, Eq, Hash, Structural)]
pub struct WordRef {
    raw: u32,
}

impl WordRef {
    pub closed spec fn view(&self) -> u32 {
        self.raw
    }

    /// The entry id a reference made by `new` holds.
    pub closed spec fn spec_entry(&self) -> nat {
        raw_entry(self.raw)
    }

    /// Whether a reference points into the system dictionary.
    pub closed spec fn spec_is_system(&self) -> bool {
        raw_dic(self.raw) == 0
    }

    pub fn new(is_system: bool, entry: u32) -> (r: WordRef)
        ensures
            r@ == raw_word_id(if is_system { 0 } else { 1 }, entry as nat % 0x1000_0000),
            r.spec_is_system() == is_system,
            r.spec_entry() == entry % 0x1000_0000,
    {
        let w = WordId::new(if is_system { 0 } else { 1 }, entry);
        WordRef { raw: w.as_raw() }
    }

    pub fn from_raw(raw: u32) -> (r: WordRef)
        ensures
            r@ == raw,
    {
        WordRef { raw }
    }

    pub fn as_raw(&self) -> (r: u32)
        ensures
            r == self@,
    {
        self.raw
    }

    pub fn is_system(&self) -> (r: bool)
        ensures
            r == self.spec_is_system(),
    {
        WordId::from_raw(self.raw).dic() == 0
    }

    pub fn entry(&self) -> (r: EntryId)
        ensures
            r@ == self.spec_entry(),
    {
        WordId::from_raw(self.raw).entry()
    }

    /// The word id this reference denotes.
    pub fn word_id(&self) -> (r: WordId)
        ensures
            r@ == self@,
    {
        WordId::from_raw(self.raw)
    }
}

/// The word reference whose raw value is `raw`.
pub closed spec fn word_ref_of_raw(raw: u32) -> WordRef {
    WordRef { raw }
}

/// The raw value of the word reference made from a raw value is that value.
pub proof fn word_ref_of_raw_view(raw: u32)
    ensures
        word_ref_of_raw(raw)@ == raw,
{
}

/// Two word references are the same exactly when their raw values are.
pub proof fn word_ref_view_injective(a: WordRef, b: WordRef)
    ensures
        (a@ == b@) == (a == b),
{
}

/// The dictionary id and entry id of a word id are recovered from the word id `new` makes.
pub proof fn word_id_round_trip(dic: u8, entry: u32)
    requires
        dic < 16,
        entry < 0x1000_0000,
    ensures
        raw_dic(raw_word_id(dic as nat, entry as nat)) == dic,
        raw_entry(raw_word_id(dic as nat, entry as nat)) == entry,
{
}

} // verus!
