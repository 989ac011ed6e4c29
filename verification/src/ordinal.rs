//! Ordinals of double-precision numbers.
//!
//! A double-precision number is a sign bit followed by a magnitude of 63 bits, and of two
//! numbers of one sign the greater in size has the greater magnitude. So the magnitude,
//! taken negative where the sign bit is set, orders as the numbers do. That integer is the
//! number's ordinal. The two zeros share the ordinal zero, and what is not a number gets
//! the least ordinal of all.

use vstd::prelude::*;

verus! {

/// The sign bit of a bit pattern.
pub const SIGN_BIT: u64 = 0x8000_0000_0000_0000;

/// The magnitude of infinity: every greater magnitude is not a number.
pub const INFINITY_BITS: u64 = 0x7FF0_0000_0000_0000;

/// The bit pattern that stands for what is not a number.
pub const NAN_BITS: u64 = 0x7FF8_0000_0000_0000;

/// The ordinal of what is not a number.
pub const NAN_ORDINAL: i64 = i64::MIN;

/// The bit pattern without its sign bit.
pub open spec fn magnitude(bits: u64) -> u64 {
    if bits >= SIGN_BIT {
        (bits - SIGN_BIT) as u64
    } else {
        bits
    }
}

/// The bit pattern stands for a number, infinity included.
pub open spec fn is_number(bits: u64) -> bool {
    magnitude(bits) <= INFINITY_BITS
}

/// The ordinal of the bit pattern.
pub open spec fn ordinal_of(bits: u64) -> i64 {
    if !is_number(bits) {
        NAN_ORDINAL
    } else if bits >= SIGN_BIT {
        (-magnitude(bits)) as i64
    } else {
        bits as i64
    }
}

/// The bit pattern of the ordinal.
pub open spec fn bits_of(ordinal: i64) -> u64 {
    if ordinal == NAN_ORDINAL {
        NAN_BITS
    } else if ordinal < 0 {
        (SIGN_BIT - ordinal) as u64
    } else {
        ordinal as u64
    }
}

/// The ordinal of the number with the given bit pattern.
pub fn ordinal_of_bits(bits: u64) -> (ordinal: i64)
    ensures
        ordinal == ordinal_of(bits),
{
    let negative = bits >= SIGN_BIT;
    let size: u64 = if negative {
        bits - SIGN_BIT
    } else {
        bits
    };
    if size > INFINITY_BITS {
        NAN_ORDINAL
    } else if negative {
        -(size as i64)
    } else {
        size as i64
    }
}

/// The bit pattern of the number with the given ordinal.
pub fn bits_of_ordinal(ordinal: i64) -> (bits: u64)
    ensures
        bits == bits_of(ordinal),
{
    if ordinal == NAN_ORDINAL {
        NAN_BITS
    } else if ordinal < 0 {
        SIGN_BIT + ((-ordinal) as u64)
    } else {
        ordinal as u64
    }
}

/// Every number but the negative zero is found again from its ordinal, and the negative
/// zero comes back as zero.
pub proof fn lemma_number_found_again(bits: u64)
    requires
        is_number(bits),
    ensures
        bits != SIGN_BIT ==> bits_of(ordinal_of(bits)) == bits,
        bits == SIGN_BIT ==> bits_of(ordinal_of(bits)) == 0,
        -INFINITY_BITS <= ordinal_of(bits) <= INFINITY_BITS,
{
}

/// The ordinal of an ordinal's bit pattern is that ordinal, as far as ordinals of numbers
/// go; and what is not a number stays so.
pub proof fn lemma_ordinal_found_again(ordinal: i64)
    requires
        ordinal == NAN_ORDINAL || -INFINITY_BITS <= ordinal <= INFINITY_BITS,
    ensures
        ordinal_of(bits_of(ordinal)) == ordinal,
        is_number(bits_of(ordinal)) <==> ordinal != NAN_ORDINAL,
{
}

/// An ordinal has the sign of its number: it is above zero exactly for the patterns
/// without a sign bit other than zero, and zero exactly for the two zeros.
pub proof fn lemma_ordinal_sign(bits: u64)
    requires
        is_number(bits),
    ensures
        ordinal_of(bits) > 0 <==> 0 < bits <= INFINITY_BITS,
        ordinal_of(bits) == 0 <==> (bits == 0 || bits == SIGN_BIT),
        ordinal_of(bits) > NAN_ORDINAL,
{
}

/// Ordinals order as the numbers do: of two numbers without a sign bit the one with the
/// greater pattern has the greater ordinal, of two with a sign bit the one with the
/// lesser pattern, and one with a sign bit never has the greater ordinal.
pub proof fn lemma_ordinals_order(a: u64, b: u64)
    requires
        is_number(a),
        is_number(b),
    ensures
        a < SIGN_BIT && b < SIGN_BIT ==> (ordinal_of(a) <= ordinal_of(b) <==> a <= b),
        a >= SIGN_BIT && b >= SIGN_BIT ==> (ordinal_of(a) <= ordinal_of(b) <==> b <= a),
        a >= SIGN_BIT && b < SIGN_BIT ==> ordinal_of(a) <= ordinal_of(b),
{
}

} // verus!
