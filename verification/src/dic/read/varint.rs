//! Unsigned 32-bit variable-length integers: 7 bits per byte, least significant
//! group first, the high bit of a byte set when another byte follows.
use vstd::prelude::*;
use vstd::slice::slice_subrange;

use crate::error::{SudachiError, SudachiResult};

verus! {

/// `128^k`.
pub open spec fn pow128(k: nat) -> int
    decreases k,
{
    if k == 0 {
        1
    } else {
        128 * pow128((k - 1) as nat)
    }
}

/// The value of the 7-bit groups of the first `k` bytes of `s`.
pub open spec fn spec_groups_value(s: Seq<u8>, k: nat) -> int
    decreases k,
{
    if k == 0 {
        0
    } else {
        spec_groups_value(s, (k - 1) as nat) + (s[k - 1] % 128) * pow128((k - 1) as nat)
    }
}

/// The number of bytes of the integer at the start of `s`: one more than the index
/// of the first byte below 128 among the first five, or `None` if there is none.
pub open spec fn spec_varint_len(s: Seq<u8>, from: nat) -> Option<nat>
    decreases 5 - from,
{
    if from >= 5 || from >= s.len() {
        None
    } else if s[from as int] < 128 {
        Some(from + 1)
    } else {
        spec_varint_len(s, from + 1)
    }
}

/// The integer at the start of `s` with its size in bytes, or `None` when the bytes
/// run out, five bytes all carry the continuation bit, or the value exceeds 32 bits.
pub open spec fn spec_varint32(s: Seq<u8>) -> Option<(nat, u32)> {
    match spec_varint_len(s, 0) {
        None => None,
        Some(k) => if spec_groups_value(s, k) <= u32::MAX {
            Some((k, spec_groups_value(s, k) as u32))
        } else {
            None
        },
    }
}

proof fn lemma_pow128_bounds(k: nat)
    requires
        k <= 5,
    ensures
        1 <= pow128(k) <= 0x8_0000_0000,
        k <= 4 ==> pow128(k) <= 0x1000_0000,
{
    reveal_with_fuel(pow128, 6);
    if k == 0 {
    } else if k == 1 {
    } else if k == 2 {
    } else if k == 3 {
    } else if k == 4 {
    } else {
    }
}

proof fn lemma_groups_value_bounds(s: Seq<u8>, k: nat)
    requires
        k <= 5,
        k <= s.len(),
    ensures
        0 <= spec_groups_value(s, k) < pow128(k),
    decreases k,
{
    if k > 0 {
        lemma_groups_value_bounds(s, (k - 1) as nat);
        lemma_pow128_bounds((k - 1) as nat);
        assert((s[k - 1] % 128) * pow128((k - 1) as nat) <= 127 * pow128((k - 1) as nat))
            by (nonlinear_arith)
            requires
                0 <= s[k - 1] % 128 <= 127,
                pow128((k - 1) as nat) >= 1,
        ;
    }
}

/// Reads one variable-length integer.
pub fn varint32(input: &[u8]) -> (r: SudachiResult<(&[u8], u32)>)
    ensures
        r is Ok <==> spec_varint32(input@) is Some,
        r matches Ok((rest, v)) ==> rest@.len() < input@.len() && spec_varint32(input@) == Some(
            ((input@.len() - rest@.len()) as nat, v),
        ) && rest@ == input@.skip(input@.len() - rest@.len()),
{
    let mut value: u64 = 0;
    let mut mult: u64 = 1;
    let mut i: usize = 0;
    while i < 5 && i < input.len()
        invariant
            0 <= i <= 5,
            i <= input@.len(),
            mult == pow128(i as nat),
            value == spec_groups_value(input@, i as nat),
            forall|j: int| 0 <= j < i ==> input@[j] >= 128,
            spec_varint_len(input@, 0) == spec_varint_len(input@, i as nat),
        decreases 5 - i,
    {
        proof {
            lemma_pow128_bounds(i as nat);
            lemma_groups_value_bounds(input@, i as nat);
        }
        let b = input[i];
        proof {
            assert(((b % 128) as u64) * mult <= 127 * 0x1000_0000) by (nonlinear_arith)
                requires
                    (b % 128) as u64 <= 127,
                    mult <= 0x1000_0000,
            ;
        }
        value = value + ((b % 128) as u64) * mult;
        if b < 128 {
            proof {
                assert(spec_varint_len(input@, i as nat) == Some((i + 1) as nat));
            }
            if value > 0xffff_ffff {
                return Err(SudachiError::InvalidVarint);
            }
            let rest = slice_subrange(input, i + 1, input.len());
            proof {
                assert(rest@ =~= input@.skip(i + 1));
            }
            return Ok((rest, value as u32));
        }
        mult = mult * 128;
        i = i + 1;
    }
    Err(SudachiError::InvalidVarint)
}

} // verus!
