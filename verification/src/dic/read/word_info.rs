//! Reading the word references and string pointers of a word info.
use vstd::prelude::*;

use crate::dic::lexicon::strings::{spec_decode_pointer, StringPointer};
use crate::dic::read::primitives::{le_u32, spec_le_u32};
use crate::dic::word_id::WordRef;
use crate::error::{SudachiError, SudachiResult};

verus! {

/// Reads a word reference stored as a little-endian `u32`.
pub fn le_u32_word_ref(input: &[u8]) -> (r: SudachiResult<(&[u8], WordRef)>)
    ensures
        r is Ok <==> 4 <= input@.len(),
        r matches Ok((rest, w)) ==> rest@ == input@.skip(4) && w@ == spec_le_u32(input@),
        r matches Err(e) ==> e == SudachiError::UnexpectedEndOfInput,
{
    let (rest, id) = le_u32(input)?;
    Ok((rest, WordRef::from_raw(id)))
}

/// Reads a string pointer stored as a little-endian `u32`.
pub fn le_u32_string_pointer(input: &[u8]) -> (r: SudachiResult<(&[u8], StringPointer)>)
    ensures
        r is Ok <==> 4 <= input@.len(),
        r matches Ok((rest, p)) ==> rest@ == input@.skip(4) && p == spec_decode_pointer(
            spec_le_u32(input@),
        ),
        r matches Err(e) ==> e == SudachiError::UnexpectedEndOfInput,
{
    let (rest, v) = le_u32(input)?;
    Ok((rest, StringPointer::decode(v)))
}

} // verus!
