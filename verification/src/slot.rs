//! The shared-memory move slot's binary layout: an optional move packed
//! into one 64-bit word — a presence flag beside the move payload — so a
//! searching process can overwrite the slot with a single hardware-atomic
//! store and a concurrent reader always observes a complete answer, never
//! a torn one. The encoding round-trips losslessly.
use vstd::prelude::*;

verus! {

/// The word a published answer is stored as: zero for "no move", otherwise
/// the payload in the low half with the presence flag just above it.
pub open spec fn spec_encode_slot(m: Option<u32>) -> u64 {
    match m {
        None => 0,
        Some(p) => (1u64 << 32) | (p as u64),
    }
}

/// The answer a slot word holds: the low half as payload when the presence
/// flag is set, nothing otherwise.
pub open spec fn spec_decode_slot(w: u64) -> Option<u32> {
    if (w >> 32) & 1u64 == 1u64 {
        Some((w & 0xffff_ffff) as u32)
    } else {
        None
    }
}

/// Pack an optional move payload into the slot word.
pub fn encode_slot(m: Option<u32>) -> (r: u64)
    ensures
        r == spec_encode_slot(m),
{
    match m {
        None => 0,
        Some(p) => (1u64 << 32) | (p as u64),
    }
}

/// Unpack the slot word into the optional move payload it holds.
pub fn decode_slot(w: u64) -> (r: Option<u32>)
    ensures
        r == spec_decode_slot(w),
{
    if (w >> 32) & 1 == 1 {
        Some((w & 0xffff_ffff) as u32)
    } else {
        None
    }
}

/// Every answer survives the trip through the slot word unchanged.
pub proof fn lemma_slot_round_trip(m: Option<u32>)
    ensures
        spec_decode_slot(spec_encode_slot(m)) == m,
{
    match m {
        None => {
            assert((0u64 >> 32) & 1u64 != 1u64) by (bit_vector);
        },
        Some(p) => {
            let w = (1u64 << 32) | (p as u64);
            assert(((((1u64 << 32) | (p as u64)) >> 32) & 1u64 == 1u64) && (((1u64 << 32) | (p
                as u64)) & 0xffff_ffff == p as u64)) by (bit_vector);
            assert((p as u64) as u32 == p);
        },
    }
}

} // verus!
