//! The matrix of connection costs between right and left contexts.
use vstd::prelude::*;

use crate::dic::read::primitives::{le_i16, spec_le_u16};
use crate::error::{SudachiError, SudachiResult};
use vstd::slice::slice_subrange;

verus! {

/// The `n` little-endian `i16` values at the start of `s`.
pub open spec fn spec_le_i16s(s: Seq<u8>, n: nat) -> Seq<i16> {
    Seq::new(n, |i: int| spec_le_u16(s.skip(2 * i)) as i16)
}

/// Whether `bytes` hold a matrix: two counts that are not negative, then as many
/// costs as their product.
pub open spec fn spec_matrix_readable(bytes: Seq<u8>) -> bool {
    bytes.len() >= 4 && spec_le_u16(bytes) as i16 >= 0 && spec_le_u16(bytes.skip(2)) as i16 >= 0
        && 4 + 2 * ((spec_le_u16(bytes) as i16) * (spec_le_u16(bytes.skip(2)) as i16)) <= bytes.len()
}

/// Connection costs: a `num_left` by `num_right` table of `i16`.
pub struct ConnectionMatrix {
    data: Vec<i16>,
    num_left: usize,
    num_right: usize,
}

impl ConnectionMatrix {
    pub closed spec fn spec_num_left(&self) -> nat {
        self.num_left as nat
    }

    pub closed spec fn spec_num_right(&self) -> nat {
        self.num_right as nat
    }

    /// The costs, row by row of right ids.
    pub closed spec fn spec_costs(&self) -> Seq<i16> {
        self.data@
    }

    /// Reads the matrix: the number of left ids and of right ids (two `i16`), then
    /// the costs. Fails when a count is negative or the bytes run out.
    pub fn from_bytes(bytes: &[u8]) -> (r: SudachiResult<ConnectionMatrix>)
        ensures
            r matches Ok(m) ==> bytes@.len() >= 4 && m.spec_num_left() == spec_le_u16(bytes@) as i16
                && m.spec_num_right() == spec_le_u16(bytes@.skip(2)) as i16 && m.spec_costs()
                == spec_le_i16s(bytes@.skip(4), m.spec_num_left() * m.spec_num_right()),
            r is Ok <==> spec_matrix_readable(bytes@),
    {
        let (rest, num_left) = match le_i16(bytes) {
            Ok(v) => v,
            Err(e) => return Err(e),
        };
        let (rest, num_right) = match le_i16(rest) {
            Ok(v) => v,
            Err(e) => {
                proof {
                    assert(bytes@.len() < 4);
                }
                return Err(e);
            },
        };
        if num_left < 0 || num_right < 0 {
            return Err(SudachiError::NegativeLength);
        }
        let nl = num_left as usize;
        let nr = num_right as usize;
        proof {
            assert(0 <= nl * nr <= 0x7fff * 0x7fff) by (nonlinear_arith)
                requires
                    nl <= 0x7fff,
                    nr <= 0x7fff,
            ;
            assert(rest@ =~= bytes@.skip(4));
            assert(bytes@.skip(2).skip(2) =~= bytes@.skip(4));
        }
        let size = nl * nr;
        if rest.len() / 2 < size {
            return Err(SudachiError::UnexpectedEndOfInput);
        }
        let mut data: Vec<i16> = Vec::new();
        let mut i: usize = 0;
        while i < size
            invariant
                0 <= i <= size,
                2 * size <= rest@.len(),
                data@ == spec_le_i16s(rest@, i as nat),
            decreases size - i,
        {
            let n = rest.len();
            assert(2 * i < n);
            let cell = slice_subrange(rest, 2 * i, n);
            let (_, v) = match le_i16(cell) {
                Ok(x) => x,
                Err(e) => return Err(e),
            };
            proof {
                assert(cell@ =~= rest@.skip(2 * i));
            }
            data.push(v);
            i = i + 1;
            proof {
                assert(data@ =~= spec_le_i16s(rest@, i as nat));
            }
        }
        Ok(ConnectionMatrix { data, num_left: nl, num_right: nr })
    }

    /// The cost of connecting a word with right id `right` to a word with left id `left`.
    pub fn cost(&self, left: u16, right: u16) -> (r: i16)
        requires
            left < self.spec_num_left(),
            right < self.spec_num_right(),
            self.spec_costs().len() == self.spec_num_left() * self.spec_num_right(),
        ensures
            r == self.spec_costs()[right * self.spec_num_left() + left],
    {
        let l = left as usize;
        let rr = right as usize;
        let len = self.data.len();
        proof {
            assert(rr * self.num_left + l < self.num_left * self.num_right) by (nonlinear_arith)
                requires
                    l < self.num_left,
                    rr < self.num_right,
            ;
            assert(self.num_left * self.num_right == self.data@.len());
            assert(rr * self.num_left + l < self.data@.len());
        }
        let row = rr * self.num_left;
        self.data[row + l]
    }

    /// The number of left ids.
    pub fn num_left(&self) -> (r: usize)
        ensures
            r == self.spec_num_left(),
    {
        self.num_left
    }

    /// The number of right ids.
    pub fn num_right(&self) -> (r: usize)
        ensures
            r == self.spec_num_right(),
    {
        self.num_right
    }
}

} // verus!
