//! Grammars for tests.
use vstd::prelude::*;

use crate::dic::connect::ConnectionMatrix;
use crate::dic::grammar::Grammar;
use crate::dic::read::primitives::{lemma_le_u16_round_trip, spec_i16_bytes, write_i16};

verus! {

/// A grammar with no part of speech and an empty connection matrix (zero left ids
/// and zero right ids).
pub fn zero_grammar() -> (r: Grammar)
    ensures
        r.pos_list@.len() == 0,
        r.connection.spec_num_left() == 0,
        r.connection.spec_num_right() == 0,
{
    let mut zero_connection_bytes: Vec<u8> = Vec::new();
    write_i16(&mut zero_connection_bytes, 0);
    write_i16(&mut zero_connection_bytes, 0);
    proof {
        let b = zero_connection_bytes@;
        lemma_le_u16_round_trip(0u16, spec_i16_bytes(0));
        lemma_le_u16_round_trip(0u16, seq![]);
        assert(b.skip(2) =~= spec_i16_bytes(0) + seq![]);
    }
    let connection = ConnectionMatrix::from_bytes(zero_connection_bytes.as_slice()).unwrap();
    Grammar::from_parts(Vec::new(), connection)
}

} // verus!
