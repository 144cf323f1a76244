//! Lists of word ids that share an index form, stored delta-compressed.
use vstd::prelude::*;
use vstd::slice::slice_subrange;

use crate::dic::read::varint::{spec_varint32, varint32};

verus! {

/// The word ids that `count` delta-encoded integers at the start of `s` give,
/// counting from `sum`, or `None` when an integer does not decode or a sum
/// exceeds 32 bits.
pub open spec fn spec_delta_ids(s: Seq<u8>, count: nat, sum: int) -> Option<Seq<u32>>
    decreases count,
{
    if count == 0 {
        Some(seq![])
    } else {
        match spec_varint32(s) {
            None => None,
            Some((k, d)) => if sum + d > u32::MAX {
                None
            } else {
                match spec_delta_ids(s.skip(k as int), (count - 1) as nat, sum + d) {
                    None => None,
                    Some(r) => Some(seq![(sum + d) as u32] + r),
                }
            },
        }
    }
}

/// The word id list stored at the start of `s`: a count, then that many deltas.
pub open spec fn spec_word_id_list(s: Seq<u8>) -> Option<Seq<u32>> {
    match spec_varint32(s) {
        None => None,
        Some((k, n)) => spec_delta_ids(s.skip(k as int), n as nat, 0),
    }
}

proof fn lemma_delta_ids_shape(s: Seq<u8>, count: nat, sum: int)
    requires
        spec_delta_ids(s, count, sum) is Some,
        sum >= 0,
    ensures
        ({
            let r = spec_delta_ids(s, count, sum).unwrap();
            &&& r.len() == count
            &&& forall|i: int| 0 <= i < r.len() ==> #[trigger] r[i] >= sum
            &&& forall|i: int, j: int| 0 <= i <= j < r.len() ==> r[i] <= r[j]
        }),
    decreases count,
{
    if count > 0 {
        let (k, d) = spec_varint32(s).unwrap();
        lemma_delta_ids_shape(s.skip(k as int), (count - 1) as nat, sum + d);
        let rest = spec_delta_ids(s.skip(k as int), (count - 1) as nat, sum + d).unwrap();
        let r = seq![(sum + d) as u32] + rest;
        assert forall|i: int| 0 <= i < r.len() implies #[trigger] r[i] >= sum by {
            if i > 0 {
                assert(r[i] == rest[i - 1]);
                assert(rest[i - 1] >= sum + d);
            }
        }
        assert forall|i: int, j: int| 0 <= i <= j < r.len() implies r[i] <= r[j] by {
            if i > 0 {
                assert(r[i] == rest[i - 1]);
            }
            if j > 0 {
                assert(r[j] == rest[j - 1]);
                assert(rest[j - 1] >= sum + d);
            }
        }
    }
}

/// A word id list holds as many ids as its count says, in ascending order: each id
/// is the one before plus a delta that is never negative.
pub proof fn word_id_list_holds_its_count_in_order(s: Seq<u8>)
    requires
        spec_word_id_list(s) is Some,
    ensures
        spec_varint32(s) matches Some((_, n)) && spec_word_id_list(s).unwrap().len() == n,
        forall|i: int, j: int|
            0 <= i <= j < spec_word_id_list(s).unwrap().len() ==> spec_word_id_list(s).unwrap()[i]
                <= spec_word_id_list(s).unwrap()[j],
{
    let (k, n) = spec_varint32(s).unwrap();
    lemma_delta_ids_shape(s.skip(k as int), n as nat, 0);
}

/// The word id table block.
pub struct WordIdTable<'a> {
    bytes: &'a [u8],
}

impl<'a> WordIdTable<'a> {
    pub closed spec fn view(&self) -> Seq<u8> {
        self.bytes@
    }

    pub fn from_bytes(bytes: &'a [u8]) -> (r: WordIdTable<'a>)
        ensures
            r@ == bytes@,
    {
        WordIdTable { bytes }
    }

    /// The table stored in `size` bytes at `offset` of `bytes`.
    pub fn new(bytes: &'a [u8], size: u32, offset: usize) -> (r: WordIdTable<'a>)
        requires
            offset + size <= bytes@.len(),
        ensures
            r@ == bytes@.subrange(offset as int, offset + size),
    {
        let n = bytes.len();
        let end = offset + size as usize;
        Self::from_bytes(slice_subrange(bytes, offset, end))
    }

    /// The word ids of the list at byte `index`.
    pub fn entries(&self, index: usize) -> (r: DeltaCompressedWordIdIter<'a>)
        requires
            index < self@.len(),
            spec_varint32(self@.skip(index as int)) is Some,
        ensures
            r.spec_remaining() == spec_word_id_list(self@.skip(index as int)),
    {
        let bytes = slice_subrange(self.bytes, index, self.bytes.len());
        proof {
            assert(bytes@ =~= self@.skip(index as int));
        }
        DeltaCompressedWordIdIter::new(bytes)
    }
}

/// Reader of one delta-compressed word id list.
pub struct DeltaCompressedWordIdIter<'a> {
    rest: &'a [u8],
    remaining: u32,
    sum: u32,
}

impl<'a> DeltaCompressedWordIdIter<'a> {
    /// The word ids that are still to come, or `None` if the rest of the list is malformed.
    pub closed spec fn spec_remaining(&self) -> Option<Seq<u32>> {
        spec_delta_ids(self.rest@, self.remaining as nat, self.sum as int)
    }

    /// Starts reading the list at the start of `bytes`.
    pub fn new(bytes: &'a [u8]) -> (r: DeltaCompressedWordIdIter<'a>)
        requires
            spec_varint32(bytes@) is Some,
        ensures
            r.spec_remaining() == spec_word_id_list(bytes@),
    {
        match varint32(bytes) {
            Ok((rest, remaining)) => {
                let r = DeltaCompressedWordIdIter { rest, remaining, sum: 0 };
                proof {
                    let k = (bytes@.len() - rest@.len()) as nat;
                    assert(spec_varint32(bytes@) is Some);
                    assert(spec_varint32(bytes@).unwrap().1 == remaining);
                    assert(spec_varint32(bytes@).unwrap().0 == k);
                    assert(rest@ == bytes@.skip(k as int));
                }
                r
            },
            Err(_) => {
                proof {
                    assert(false);
                }
                DeltaCompressedWordIdIter { rest: bytes, remaining: 0, sum: 0 }
            },
        }
    }

    /// The next word id, or `None` at the end of the list.
    pub fn next(&mut self) -> (r: Option<u32>)
        requires
            old(self).spec_remaining() is Some,
        ensures
            old(self).spec_remaining().unwrap().len() == 0 ==> r is None && final(self).spec_remaining()
                == old(self).spec_remaining(),
            old(self).spec_remaining().unwrap().len() > 0 ==> r == Some(
                old(self).spec_remaining().unwrap()[0],
            ) && final(self).spec_remaining() == Some(
                old(self).spec_remaining().unwrap().drop_first(),
            ),
    {
        if self.remaining == 0 {
            return None;
        }
        match varint32(self.rest) {
            Ok((rest, delta)) => {
                proof {
                    let k = (self.rest@.len() - rest@.len()) as nat;
                    assert(spec_varint32(self.rest@).unwrap().0 == k);
                    assert(spec_varint32(self.rest@).unwrap().1 == delta);
                    let t = spec_delta_ids(rest@, (self.remaining - 1) as nat, self.sum + delta);
                    assert(self.sum + delta <= u32::MAX);
                    assert(t is Some);
                    let s = old(self).spec_remaining().unwrap();
                    assert(s == seq![(self.sum + delta) as u32] + t.unwrap());
                    assert(s.drop_first() =~= t.unwrap());
                }
                self.rest = rest;
                self.remaining = self.remaining - 1;
                self.sum = self.sum + delta;
                Some(self.sum)
            },
            Err(_) => {
                proof {
                    assert(false);
                }
                None
            },
        }
    }

    /// Reads all the remaining word ids.
    pub fn collect_all(&mut self) -> (r: Vec<u32>)
        requires
            old(self).spec_remaining() is Some,
        ensures
            r@ == old(self).spec_remaining().unwrap(),
    {
        let mut out: Vec<u32> = Vec::new();
        let ghost all = self.spec_remaining().unwrap();
        proof {
            assert(out@ + all =~= all);
        }
        while self.remaining > 0
            invariant
                self.spec_remaining() is Some,
                all == out@ + self.spec_remaining().unwrap(),
            decreases self.spec_remaining().unwrap().len(),
        {
            let ghost before = self.spec_remaining().unwrap();
            proof {
                assert(before.len() > 0) by {
                    assert(spec_delta_ids(self.rest@, self.remaining as nat, self.sum as int)
                        == Some(before));
                }
            }
            match self.next() {
                Some(v) => {
                    proof {
                        assert(out@.push(v) + self.spec_remaining().unwrap() =~= out@ + before);
                    }
                    out.push(v);
                },
                None => {},
            }
        }
        proof {
            assert(self.spec_remaining().unwrap() =~= Seq::<u32>::empty());
            assert(out@ + Seq::<u32>::empty() =~= out@);
        }
        out
    }
}

} // verus!
