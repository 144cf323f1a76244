//! Reading word ids stored in the binary format.
use vstd::prelude::*;

use crate::dic::read::primitives::{le_u32, spec_le_u32};
use crate::dic::word_id::WordId;
use crate::error::{SudachiError, SudachiResult};

verus! {

/// Reads a word id stored as a little-endian `u32`.
pub fn le_u32_word_id(input: &[u8]) -> (r: SudachiResult<(&[u8], WordId)>)
    ensures
        r is Ok <==> 4 <= input@.len(),
        r matches Ok((rest, w)) ==> rest@ == input@.skip(4) && w@ == spec_le_u32(input@),
        r matches Err(e) ==> e == SudachiError::UnexpectedEndOfInput,
{
    let (rest, id) = le_u32(input)?;
    Ok((rest, WordId::from_raw(id)))
}

} // verus!
