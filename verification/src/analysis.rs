//! Morpheme data produced by analysis.
pub mod owned_morpheme;
pub mod strings_cache;

use vstd::prelude::*;

verus! {

/// Unit of splitting: A is the shortest, C the longest.
#[derive(Clone, Copy, Debug, PartialEq, Eq, Hash, Structural)]
pub enum Mode {
    A,
    B,
    C,
}

} // verus!
