//! Byte-level helpers for the two-byte big-endian operands that long-form
//! opcodes carry.

use vstd::prelude::*;

verus! {

/// Splits a `u16` into its big-endian byte pair: the high byte first.
pub fn split_u16(x: u16) -> (r: (u8, u8))
    ensures
        r.0 == (x >> 8) as u8,
        r.1 == x as u8,
        join_u8s_spec(r.0, r.1) == x,
{
    proof {
        lemma_split_join(x);
    }
    ((x >> 8) as u8, x as u8)
}

/// Joins a big-endian byte pair back into a `u16`: the first byte is the
/// high one.
pub fn join_u8s(b1: u8, b2: u8) -> (r: u16)
    ensures
        r == join_u8s_spec(b1, b2),
{
    ((b1 as u16) << 8) | (b2 as u16)
}

/// The value encoded by a big-endian byte pair.
pub open spec fn join_u8s_spec(b1: u8, b2: u8) -> u16 {
    (((b1 as u16) << 8) | (b2 as u16)) as u16
}

/// Joining the two halves of a split recovers the original value, and the
/// encoding is injective.
pub proof fn lemma_split_join(x: u16)
    ensures
        join_u8s_spec((x >> 8) as u8, x as u8) == x,
{
    assert((((x >> 8) as u8 as u16) << 8) | (x as u8 as u16) == x) by (bit_vector);
}

} // verus!
