//! The grammar of a dictionary: its parts of speech and connection costs.
use vstd::prelude::*;

use crate::dic::connect::ConnectionMatrix;

verus! {

/// The parts of speech and the connection costs of a dictionary.
pub struct Grammar {
    pub pos_list: Vec<Vec<String>>,
    pub connection: ConnectionMatrix,
}

impl Grammar {
    pub fn from_parts(pos_list: Vec<Vec<String>>, connection: ConnectionMatrix) -> (r: Self)
        ensures
            r.pos_list == pos_list,
            r.connection == connection,
    {
        Grammar { pos_list, connection }
    }

    /// The fields of the part of speech with the given id.
    pub fn pos_components(&self, pos_id: u16) -> (r: &[String])
        requires
            pos_id < self.pos_list@.len(),
        ensures
            r@ == self.pos_list@[pos_id as int]@,
    {
        self.pos_list[pos_id as usize].as_slice()
    }
}

} // verus!
