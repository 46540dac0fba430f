//! Order keys for power readings.
//!
//! A reading's IEEE-754 single-precision bit pattern is mapped to an unsigned
//! key whose natural order is the total order on readings (negative values
//! below positive ones, larger magnitudes further out). Keys let the decision
//! logic pick the strongest reading by comparing integers.
use vstd::prelude::*;

verus! {

/// The key of the reading with bit pattern `bits`: a negative reading (sign
/// bit set) has all its bits flipped, a non-negative one gets its sign bit set.
pub open spec fn order_key_spec(bits: u32) -> u32 {
    if bits >= 0x8000_0000 {
        (0xFFFF_FFFFu32 - bits) as u32
    } else {
        (bits + 0x8000_0000u32) as u32
    }
}

/// The order key of a reading given by its bit pattern.
pub fn power_order_key(bits: u32) -> (k: u32)
    ensures
        k == order_key_spec(bits),
{
    if bits >= 0x8000_0000 {
        0xFFFF_FFFFu32 - bits
    } else {
        bits + 0x8000_0000u32
    }
}

/// The bit pattern of the reading whose order key is `key`.
pub fn power_bits(key: u32) -> (bits: u32)
    ensures
        order_key_spec(bits) == key,
{
    if key >= 0x8000_0000 {
        key - 0x8000_0000u32
    } else {
        0xFFFF_FFFFu32 - key
    }
}

/// Distinct readings get distinct keys, so a key names exactly one reading.
pub proof fn lemma_order_key_injective(a: u32, b: u32)
    ensures
        order_key_spec(a) == order_key_spec(b) ==> a == b,
{
}

/// Among non-negative readings, and among negative ones, keys keep the order
/// of the bit patterns' magnitudes: a larger positive reading has a larger key,
/// a larger-magnitude negative reading a smaller one.
pub proof fn lemma_order_key_monotone(a: u32, b: u32)
    ensures
        a < 0x8000_0000 && b < 0x8000_0000 && a < b ==> order_key_spec(a) < order_key_spec(b),
        a >= 0x8000_0000 && b >= 0x8000_0000 && a < b ==> order_key_spec(a) > order_key_spec(b),
        a >= 0x8000_0000 && b < 0x8000_0000 ==> order_key_spec(a) < order_key_spec(b),
{
}

} // verus!
