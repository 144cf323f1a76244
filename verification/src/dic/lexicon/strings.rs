//! Pointers into the string storage block of a dictionary.
use vstd::prelude::*;

use crate::dic::read::utf16_string::{spec_utf16_string_of_length, utf16_string_of_length};
use crate::error::{SudachiError, SudachiResult};
use vstd::slice::slice_subrange;

verus! {

/// Number of bits of an encoded pointer that hold the string length.
pub const STRING_LENGTH_BITS: u32 = 8;

/// Strings longer than this many UTF-16 code units cannot be pointed to.
pub const MAX_STRING_LENGTH: u32 = 0xff;

/// Offsets (in UTF-16 code units) must be below this bound.
pub const MAX_STRING_OFFSET_EXCL: u32 = 0x0100_0000;

/// Location of a string in the string storage: `length` UTF-16 code units
/// starting at code unit `offset`.
///
/// Encoded in a `u32`: the length in the top 8 bits, the offset in the low 24 bits.
#[derive(Clone, Copy, Debug, PartialEq, Eq, Default)]
pub struct StringPointer {
    pub length: u32,
    pub offset: u32,
}

/// Whether a pointer can be encoded without loss.
pub open spec fn spec_pointer_valid(p: StringPointer) -> bool {
    p.length <= MAX_STRING_LENGTH && p.offset < MAX_STRING_OFFSET_EXCL
}

/// The `u32` encoding of a pointer (fields wider than their bit width are cut).
pub open spec fn spec_encode_pointer(p: StringPointer) -> u32 {
    ((p.length % 0x100) * 0x0100_0000 + p.offset % 0x0100_0000) as u32
}

/// The pointer that a `u32` encodes.
pub open spec fn spec_decode_pointer(v: u32) -> StringPointer {
    StringPointer { length: v / 0x0100_0000, offset: v % 0x0100_0000 }
}

impl StringPointer {
    /// Makes a pointer without checking that it can be encoded.
    pub fn unchecked(length: u32, offset: u32) -> (r: StringPointer)
        ensures
            r == (StringPointer { length, offset }),
    {
        StringPointer { length, offset }
    }

    /// Makes a pointer, or fails when it cannot be encoded without loss.
    pub fn checked(length: u32, offset: u32) -> (r: SudachiResult<StringPointer>)
        ensures
            r is Ok <==> spec_pointer_valid(StringPointer { length, offset }),
            r matches Ok(p) ==> p == (StringPointer { length, offset }),
            r matches Err(e) ==> e == SudachiError::InvalidStringPointer,
    {
        if length <= MAX_STRING_LENGTH && offset < MAX_STRING_OFFSET_EXCL {
            Ok(StringPointer { length, offset })
        } else {
            Err(SudachiError::InvalidStringPointer)
        }
    }

    /// Decodes a pointer from its `u32` form.
    pub fn decode(value: u32) -> (r: StringPointer)
        ensures
            r == spec_decode_pointer(value),
            spec_pointer_valid(r),
    {
        proof {
            assert(value >> 24 == value / 0x0100_0000) by (bit_vector);
            assert(value & 0x00ff_ffff == value % 0x0100_0000) by (bit_vector);
        }
        StringPointer { length: value >> 24, offset: value & 0x00ff_ffff }
    }

    /// Encodes the pointer into its `u32` form.
    pub fn encode(&self) -> (r: u32)
        ensures
            r == spec_encode_pointer(*self),
    {
        let l = self.length & 0xff;
        let o = self.offset & 0x00ff_ffff;
        proof {
            let len = self.length;
            let off = self.offset;
            assert(len & 0xff == len % 0x100) by (bit_vector);
            assert(off & 0x00ff_ffff == off % 0x0100_0000) by (bit_vector);
            assert(l < 0x100 && o < 0x0100_0000 ==> (l << 24) | o == l * 0x0100_0000 + o)
                by (bit_vector);
        }
        (l << 24) | o
    }
}

/// The string that `p` points at in the string block `data`, or `None` when it lies
/// outside the block or is not valid UTF-16.
pub open spec fn spec_string_at(data: Seq<u8>, p: StringPointer) -> Option<Seq<char>> {
    if 2 * p.offset > data.len() {
        None
    } else {
        spec_utf16_string_of_length(data.skip(2 * p.offset), p.length as nat)
    }
}

/// The string block of a dictionary: strings stored as UTF-16 code units, found by
/// their pointers.
pub struct CompactedStrings<'a> {
    data: &'a [u8],
}

impl<'a> CompactedStrings<'a> {
    pub closed spec fn view(&self) -> Seq<u8> {
        self.data@
    }

    pub fn from_bytes(data: &'a [u8]) -> (r: Self)
        ensures
            r@ == data@,
    {
        CompactedStrings { data }
    }

    /// The string at pointer `p`.
    pub fn get(&self, p: StringPointer) -> (r: SudachiResult<String>)
        ensures
            r is Ok <==> spec_string_at(self@, p) is Some,
            r matches Ok(s) ==> spec_string_at(self@, p) == Some(s@),
    {
        if p.offset as usize > self.data.len() / 2 {
            return Err(SudachiError::UnexpectedEndOfInput);
        }
        let start = 2 * p.offset as usize;
        let rest = slice_subrange(self.data, start, self.data.len());
        proof {
            assert(rest@ =~= self.data@.skip(2 * p.offset));
        }
        match utf16_string_of_length(rest, p.length as usize) {
            Ok((_, s)) => Ok(s),
            Err(e) => Err(e),
        }
    }
}

/// Decoding the encoding of a valid pointer gives the pointer back.
pub proof fn pointer_encode_decode(p: StringPointer)
    requires
        spec_pointer_valid(p),
    ensures
        spec_decode_pointer(spec_encode_pointer(p)) == p,
{
}

/// Encoding a decoded pointer gives the encoded value back.
pub proof fn pointer_decode_encode(v: u32)
    ensures
        spec_encode_pointer(spec_decode_pointer(v)) == v,
{
}

} // verus!
