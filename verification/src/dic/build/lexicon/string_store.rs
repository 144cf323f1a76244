//! The string block of a dictionary being built: each distinct headword and reading
//! stored once as UTF-16, and the pointer at which it is stored.
use vstd::prelude::*;

use crate::dic::build::lexicon::entry::RawLexiconEntry;
use crate::dic::lexicon::strings::{
    spec_pointer_valid, spec_string_at, StringPointer, MAX_STRING_LENGTH, MAX_STRING_OFFSET_EXCL,
};
use crate::dic::read::utf16_string::{encode_utf16, spec_utf16_encode, utf16_round_trip};
use crate::dic::word_info::variable_io::{lemma_u16s_round_trip, spec_u16s_bytes, write_u16_slice};
use crate::error::{SudachiError, SudachiResult};
use crate::util::str_eq;

verus! {

/// Whether `bytes` holds the UTF-16 code units of `s` where `p` points.
pub open spec fn stored_at(bytes: Seq<u8>, s: Seq<char>, p: StringPointer) -> bool {
    &&& spec_pointer_valid(p)
    &&& p.length == spec_utf16_encode(s).len()
    &&& 2 * p.offset + 2 * p.length <= bytes.len()
    &&& bytes.subrange(2 * p.offset, 2 * p.offset + 2 * p.length) == spec_u16s_bytes(
        spec_utf16_encode(s),
    )
}

/// The index of the first stored string equal to `s`, from index `i` on.
pub open spec fn position_of(texts: Seq<Seq<char>>, s: Seq<char>, i: nat) -> Option<nat>
    decreases texts.len() - i,
{
    if i >= texts.len() {
        None
    } else if texts[i as int] == s {
        Some(i)
    } else {
        position_of(texts, s, i + 1)
    }
}

/// The number of UTF-16 code units of `s`.
pub open spec fn units(s: Seq<char>) -> nat {
    spec_utf16_encode(s).len()
}

/// The code units of the headwords and readings of the first `n` entries, counted
/// with repeats.
pub open spec fn total_units(entries: Seq<RawLexiconEntry>, n: nat) -> nat
    decreases n,
{
    if n == 0 || n > entries.len() {
        0
    } else {
        total_units(entries, (n - 1) as nat) + units(entries[n - 1].headword_view()) + units(
            entries[n - 1].reading_view(),
        )
    }
}

/// Whether `s` is the empty string or the headword or reading of one of the first `n`
/// entries.
pub open spec fn entry_text(entries: Seq<RawLexiconEntry>, n: nat, s: Seq<char>) -> bool {
    s == Seq::<char>::empty() || exists|j: int|
        0 <= j < n && j < entries.len() && (s == entries[j].headword_view() || s
            == entries[j].reading_view())
}

/// Whether every headword and reading fits the length a pointer can count.
pub open spec fn all_short(entries: Seq<RawLexiconEntry>) -> bool {
    forall|i: int|
        0 <= i < entries.len() ==> units(#[trigger] entries[i].headword_view()) <= MAX_STRING_LENGTH
            && units(entries[i].reading_view()) <= MAX_STRING_LENGTH
}

struct StoredString {
    text: String,
    ptr: StringPointer,
}

/// The distinct strings of a lexicon and the block that stores them.
pub struct StringStore {
    map: Vec<StoredString>,
    bytes: Vec<u8>,
}

impl StringStore {
    /// The stored strings, in the order they were stored.
    pub closed spec fn spec_texts(&self) -> Seq<Seq<char>> {
        self.map@.map_values(|e: StoredString| e.text@)
    }

    /// The pointer of each stored string.
    pub closed spec fn spec_pointers(&self) -> Seq<StringPointer> {
        self.map@.map_values(|e: StoredString| e.ptr)
    }

    /// The bytes of the block.
    pub closed spec fn spec_block(&self) -> Seq<u8> {
        self.bytes@
    }

    /// The pointer of `s`, if it is stored.
    pub open spec fn pointer_of(&self, s: Seq<char>) -> Option<StringPointer> {
        match position_of(self.spec_texts(), s, 0) {
            Some(i) => Some(self.spec_pointers()[i as int]),
            None => None,
        }
    }

    /// Every string is stored once, in the block, where its pointer points, each after
    /// the ones stored before it.
    pub closed spec fn wf(&self) -> bool {
        &&& self.bytes@.len() % 2 == 0
        &&& forall|i: int|
            0 <= i < self.map@.len() ==> stored_at(
                self.bytes@,
                #[trigger] self.map@[i].text@,
                self.map@[i].ptr,
            )
        &&& forall|a: int, b: int|
            0 <= a < b < self.map@.len() ==> (#[trigger] self.map@[a]).text@ != (
            #[trigger] self.map@[b]).text@ && self.map@[a].ptr.offset + self.map@[a].ptr.length
                <= self.map@[b].ptr.offset
    }

    /// Distinct stored strings lie in disjoint ranges of the block.
    pub proof fn lemma_disjoint(&self, s: Seq<char>, t: Seq<char>)
        requires
            self.wf(),
            self.pointer_of(s) is Some,
            self.pointer_of(t) is Some,
            s != t,
        ensures
            ({
                let p = self.pointer_of(s).unwrap();
                let q = self.pointer_of(t).unwrap();
                p.offset + p.length <= q.offset || q.offset + q.length <= p.offset
            }),
    {
        lemma_position_found(self.spec_texts(), s, 0);
        lemma_position_found(self.spec_texts(), t, 0);
        let a = position_of(self.spec_texts(), s, 0).unwrap() as int;
        let b = position_of(self.spec_texts(), t, 0).unwrap() as int;
        assert(self.spec_texts()[a] == self.map@[a].text@);
        assert(self.spec_texts()[b] == self.map@[b].text@);
        if a < b {
            assert(self.map@[a].ptr.offset + self.map@[a].ptr.length <= self.map@[b].ptr.offset);
        } else {
            assert(self.map@[b].ptr.offset + self.map@[b].ptr.length <= self.map@[a].ptr.offset);
        }
    }

    /// A pointer that the store gives points at the string in the block.
    pub proof fn lemma_pointer_stored(&self, s: Seq<char>)
        requires
            self.wf(),
            self.pointer_of(s) is Some,
        ensures
            stored_at(self.spec_block(), s, self.pointer_of(s).unwrap()),
    {
        lemma_position_found(self.spec_texts(), s, 0);
        let i = position_of(self.spec_texts(), s, 0).unwrap() as int;
        assert(self.spec_texts()[i] == self.map@[i].text@);
    }

    /// Stores the empty string and the headword and reading of every entry, each
    /// distinct string once and each after the ones stored before it; nothing else.
    ///
    /// Fails when a string is longer than a pointer can count or the block grows
    /// past the offsets a pointer can hold.
    pub fn from_entries(entries: &[RawLexiconEntry]) -> (r: SudachiResult<Self>)
        ensures
            r matches Ok(st) ==> st.wf() && st.pointer_of(Seq::empty()) is Some && forall|i: int|
                0 <= i < entries@.len() ==> st.pointer_of(#[trigger] entries@[i].headword_view())
                    is Some && st.pointer_of(entries@[i].reading_view()) is Some,
            r matches Ok(st) ==> forall|t: Seq<char>|
                #[trigger] st.pointer_of(t) is Some ==> entry_text(entries@, entries@.len(), t),
            r matches Ok(st) ==> forall|a: int, b: int|
                0 <= a < b < st.spec_texts().len() ==> #[trigger] st.spec_texts()[a]
                    != #[trigger] st.spec_texts()[b],
            r matches Ok(st) ==> forall|t: Seq<char>, u: Seq<char>|
                t != u && #[trigger] st.pointer_of(t) is Some && #[trigger] st.pointer_of(u) is Some
                    ==> st.pointer_of(t).unwrap().offset + st.pointer_of(t).unwrap().length
                    <= st.pointer_of(u).unwrap().offset || st.pointer_of(u).unwrap().offset
                    + st.pointer_of(u).unwrap().length <= st.pointer_of(t).unwrap().offset,
            r matches Err(e) ==> e == SudachiError::InvalidStringPointer,
            all_short(entries@) && total_units(entries@, entries@.len()) < MAX_STRING_OFFSET_EXCL
                ==> r is Ok,
            r is Err ==> !all_short(entries@) || total_units(entries@, entries@.len())
                >= MAX_STRING_OFFSET_EXCL,
    {
        let mut st = StringStore { map: Vec::new(), bytes: Vec::new() };
        proof {
            reveal_strlit("");
            assert(""@ =~= Seq::<char>::empty());
        }
        match st.insert("") {
            Ok(()) => {},
            Err(e) => {
                return Err(e);
            },
        }
        let mut i: usize = 0;
        while i < entries.len()
            invariant
                0 <= i <= entries@.len(),
                st.wf(),
                st.pointer_of(Seq::empty()) is Some,
                forall|j: int|
                    0 <= j < i ==> st.pointer_of(#[trigger] entries@[j].headword_view()) is Some
                        && st.pointer_of(entries@[j].reading_view()) is Some,
                st.spec_block().len() <= 2 * total_units(entries@, i as nat),
                forall|k: int|
                    0 <= k < st.spec_texts().len() ==> entry_text(
                        entries@,
                        i as nat,
                        #[trigger] st.spec_texts()[k],
                    ),
            decreases entries@.len() - i,
        {
            let e = &entries[i];
            proof {
                lemma_total_units_grows(entries@, i as nat + 1, entries@.len());
            }
            let ghost texts0 = st.spec_texts();
            match st.insert(e.headword()) {
                Ok(()) => {},
                Err(e) => {
                    return Err(e);
                },
            }
            let ghost texts1 = st.spec_texts();
            match st.insert(e.reading()) {
                Ok(()) => {},
                Err(e) => {
                    return Err(e);
                },
            }
            proof {
                assert forall|k: int| 0 <= k < st.spec_texts().len() implies entry_text(
                    entries@,
                    (i + 1) as nat,
                    #[trigger] st.spec_texts()[k],
                ) by {
                    let t = st.spec_texts()[k];
                    if k < texts0.len() {
                        assert(texts1[k] == texts0[k]);
                        assert(entry_text(entries@, i as nat, texts0[k]));
                        if t != Seq::<char>::empty() {
                            let j = choose|j: int|
                                0 <= j < i && (t == entries@[j].headword_view() || t
                                    == entries@[j].reading_view());
                            assert(0 <= j < i + 1);
                        }
                    } else if k < texts1.len() {
                        assert(t == entries@[i as int].headword_view());
                    } else {
                        assert(t == entries@[i as int].reading_view());
                    }
                }
            }
            i = i + 1;
        }
        proof {
            assert forall|t: Seq<char>| #[trigger] st.pointer_of(t) is Some implies entry_text(
                entries@,
                entries@.len(),
                t,
            ) by {
                lemma_position_found(st.spec_texts(), t, 0);
                let k = position_of(st.spec_texts(), t, 0).unwrap() as int;
                assert(entry_text(entries@, entries@.len(), st.spec_texts()[k]));
            }
            assert forall|a: int, b: int| 0 <= a < b < st.spec_texts().len() implies #[trigger] st.spec_texts()[a]
                != #[trigger] st.spec_texts()[b] by {
                assert(st.spec_texts()[a] == st.map@[a].text@);
                assert(st.spec_texts()[b] == st.map@[b].text@);
            }
            assert forall|t: Seq<char>, u: Seq<char>|
                t != u && #[trigger] st.pointer_of(t) is Some && #[trigger] st.pointer_of(u) is Some implies st.pointer_of(t).unwrap().offset + st.pointer_of(t).unwrap().length
                    <= st.pointer_of(u).unwrap().offset || st.pointer_of(u).unwrap().offset
                    + st.pointer_of(u).unwrap().length <= st.pointer_of(t).unwrap().offset by {
                st.lemma_disjoint(t, u);
            }
        }
        Ok(st)
    }

    /// The pointer of a stored string; the string must be stored.
    pub fn resolve(&self, s: &str) -> (r: StringPointer)
        requires
            self.pointer_of(s@) is Some,
        ensures
            r == self.pointer_of(s@).unwrap(),
    {
        match self.find(s) {
            Some(i) => self.map[i].ptr,
            None => {
                proof {
                    assert(false);
                }
                StringPointer::unchecked(0, 0)
            },
        }
    }

    /// Appends the block and returns its size.
    pub fn write(&self, w: &mut Vec<u8>) -> (r: usize)
        ensures
            final(w)@ == old(w)@ + self.spec_block(),
            r == self.spec_block().len(),
    {
        let mut i: usize = 0;
        let ghost w0 = w@;
        while i < self.bytes.len()
            invariant
                0 <= i <= self.bytes@.len(),
                w@ == w0 + self.bytes@.take(i as int),
            decreases self.bytes@.len() - i,
        {
            w.push(self.bytes[i]);
            i = i + 1;
            proof {
                assert(w@ =~= w0 + self.bytes@.take(i as int));
            }
        }
        proof {
            assert(self.bytes@.take(i as int) =~= self.bytes@);
        }
        self.bytes.len()
    }

    /// The index of the stored string equal to `s`.
    fn find(&self, s: &str) -> (r: Option<usize>)
        ensures
            r matches Some(i) ==> position_of(self.spec_texts(), s@, 0) == Some(i as nat) && i
                < self.map@.len(),
            r is None ==> position_of(self.spec_texts(), s@, 0) is None,
    {
        let mut i: usize = 0;
        while i < self.map.len()
            invariant
                0 <= i <= self.map@.len(),
                position_of(self.spec_texts(), s@, 0) == position_of(self.spec_texts(), s@, i as nat),
            decreases self.map@.len() - i,
        {
            assert(self.spec_texts()[i as int] == self.map@[i as int].text@);
            if str_eq(self.map[i].text.as_str(), s) {
                return Some(i);
            }
            i = i + 1;
        }
        None
    }

    /// Stores `s` at the end of the block unless it is stored already.
    fn insert(&mut self, s: &str) -> (r: SudachiResult<()>)
        requires
            old(self).wf(),
        ensures
            r is Ok ==> final(self).wf() && final(self).pointer_of(s@) is Some && forall|t: Seq<char>|
                old(self).pointer_of(t) is Some ==> #[trigger] final(self).pointer_of(t) == old(
                    self,
                ).pointer_of(t),
            r matches Err(e) ==> e == SudachiError::InvalidStringPointer,
            r is Ok ==> final(self).spec_block().len() <= old(self).spec_block().len() + 2 * units(s@),
            r is Ok ==> final(self).spec_texts() == if old(self).pointer_of(s@) is Some {
                old(self).spec_texts()
            } else {
                old(self).spec_texts().push(s@)
            },
            r is Err ==> units(s@) > MAX_STRING_LENGTH || old(self).spec_block().len() / 2
                >= MAX_STRING_OFFSET_EXCL,
    {
        if self.find(s).is_some() {
            return Ok(());
        }
        let utf16 = encode_utf16(s);
        if utf16.len() > MAX_STRING_LENGTH as usize {
            return Err(SudachiError::InvalidStringPointer);
        }
        let half = self.bytes.len() / 2;
        if half >= MAX_STRING_OFFSET_EXCL as usize {
            return Err(SudachiError::InvalidStringPointer);
        }
        let ptr = StringPointer::checked(utf16.len() as u32, half as u32)?;
        let ghost old_bytes = self.bytes@;
        let ghost old_map = self.map@;
        let ghost texts0 = self.spec_texts();
        proof {
            lemma_u16s_round_trip(utf16@, seq![]);
        }
        write_u16_slice(&mut self.bytes, utf16.as_slice());
        self.map.push(StoredString { text: s.to_owned(), ptr });
        proof {
            assert forall|i: int| 0 <= i < self.map@.len() implies stored_at(
                self.bytes@,
                #[trigger] self.map@[i].text@,
                self.map@[i].ptr,
            ) by {
                if i < old_map.len() {
                    let p = old_map[i].ptr;
                    assert(self.map@[i] == old_map[i]);
                    assert(stored_at(old_bytes, old_map[i].text@, p));
                    assert(self.bytes@.subrange(2 * p.offset, 2 * p.offset + 2 * p.length)
                        =~= old_bytes.subrange(2 * p.offset, 2 * p.offset + 2 * p.length));
                } else {
                    assert(self.bytes@.subrange(2 * ptr.offset, 2 * ptr.offset + 2 * ptr.length)
                        =~= spec_u16s_bytes(utf16@));
                }
            }
            assert(self.spec_texts() =~= texts0.push(s@));
            lemma_position_push(texts0, s@);
            assert forall|a: int, b: int| 0 <= a < b < self.map@.len() implies (
            #[trigger] self.map@[a]).text@ != (#[trigger] self.map@[b]).text@
                && self.map@[a].ptr.offset + self.map@[a].ptr.length <= self.map@[b].ptr.offset by {
                if b == old_map.len() {
                    assert(self.map@[a] == old_map[a]);
                    assert(texts0[a] == old_map[a].text@);
                    if old_map[a].text@ == s@ {
                        lemma_position_some(texts0, s@, 0, a);
                    }
                    assert(stored_at(old_bytes, old_map[a].text@, old_map[a].ptr));
                } else {
                    assert(self.map@[a] == old_map[a]);
                    assert(self.map@[b] == old_map[b]);
                }
            }
            assert forall|t: Seq<char>| old(self).pointer_of(t) is Some implies #[trigger] self.pointer_of(
                t,
            ) == old(self).pointer_of(t) by {
                lemma_position_prefix(texts0, s@, t, 0);
                lemma_position_found(texts0, t, 0);
                let k = position_of(texts0, t, 0).unwrap() as int;
                assert(self.map@[k] == old_map[k]);
            }
        }
        Ok(())
    }
}

proof fn lemma_position_some(texts: Seq<Seq<char>>, s: Seq<char>, i: nat, k: int)
    requires
        i <= k < texts.len(),
        texts[k] == s,
    ensures
        position_of(texts, s, i) is Some,
    decreases texts.len() - i,
{
    if i < texts.len() && texts[i as int] != s {
        lemma_position_some(texts, s, i + 1, k);
    }
}

/// A string that the store holds reads back from its block at its pointer.
pub proof fn stored_string_reads_back(store: StringStore, s: Seq<char>)
    requires
        store.wf(),
        store.pointer_of(s) is Some,
    ensures
        spec_string_at(store.spec_block(), store.pointer_of(s).unwrap()) == Some(s),
{
    store.lemma_pointer_stored(s);
    let p = store.pointer_of(s).unwrap();
    let block = store.spec_block();
    let units = spec_utf16_encode(s);
    let start = 2 * p.offset;
    let end = 2 * p.offset + 2 * p.length;
    let rest = block.skip(end as int);
    assert(block.skip(start as int) =~= block.subrange(start as int, end as int) + rest);
    lemma_u16s_round_trip(units, rest);
    utf16_round_trip(s);
}

proof fn lemma_total_units_grows(entries: Seq<RawLexiconEntry>, i: nat, j: nat)
    requires
        i <= j <= entries.len(),
    ensures
        total_units(entries, i) <= total_units(entries, j),
    decreases j - i,
{
    if i < j {
        lemma_total_units_grows(entries, i, (j - 1) as nat);
    }
}

proof fn lemma_position_found(texts: Seq<Seq<char>>, s: Seq<char>, i: nat)
    requires
        position_of(texts, s, i) is Some,
    ensures
        i <= position_of(texts, s, i).unwrap() < texts.len(),
        texts[position_of(texts, s, i).unwrap() as int] == s,
    decreases texts.len() - i,
{
    if i < texts.len() && texts[i as int] != s {
        lemma_position_found(texts, s, i + 1);
    }
}

proof fn lemma_position_prefix(texts: Seq<Seq<char>>, x: Seq<char>, t: Seq<char>, i: nat)
    requires
        position_of(texts, t, i) is Some,
    ensures
        position_of(texts.push(x), t, i) == position_of(texts, t, i),
    decreases texts.len() - i,
{
    if i < texts.len() {
        assert(texts.push(x)[i as int] == texts[i as int]);
        if texts[i as int] != t {
            lemma_position_prefix(texts, x, t, i + 1);
        }
    }
}

proof fn lemma_position_push(texts: Seq<Seq<char>>, s: Seq<char>)
    requires
        position_of(texts, s, 0) is None,
    ensures
        position_of(texts.push(s), s, 0) == Some(texts.len()),
{
    lemma_position_push_from(texts, s, 0);
}

proof fn lemma_position_push_from(texts: Seq<Seq<char>>, s: Seq<char>, i: nat)
    requires
        i <= texts.len(),
        position_of(texts, s, i) is None,
    ensures
        position_of(texts.push(s), s, i) == Some(texts.len()),
    decreases texts.len() - i,
{
    if i < texts.len() {
        assert(texts.push(s)[i as int] == texts[i as int]);
        lemma_position_push_from(texts, s, i + 1);
    } else {
        assert(texts.push(s)[i as int] == s);
    }
}

} // verus!
