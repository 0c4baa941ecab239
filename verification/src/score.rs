//! Scores as integers.
//!
//! Candidates are ranked by integer scores. A score that was computed as a
//! single-precision binary floating-point number is handed over as the
//! integer that [`score_key`] gives for its 32 bits: the numbers and their
//! keys are ordered alike.
use vstd::prelude::*;

verus! {

/// The bit that holds the sign of a number.
pub const SIGN_BIT: u32 = 0x8000_0000;

/// The bits of a number, without its sign, beyond which they encode no number.
pub const LARGEST_MAGNITUDE: u32 = 0x7f80_0000;

/// The bits of a number without its sign.
pub open spec fn magnitude(bits: u32) -> int {
    if bits >= SIGN_BIT {
        bits - SIGN_BIT
    } else {
        bits as int
    }
}

/// The bits encode a number, which may be infinite.
pub open spec fn is_number(bits: u32) -> bool {
    magnitude(bits) <= LARGEST_MAGNITUDE
}

/// The key of the 32 bits of a score.
///
/// For bits that encode a number it is the magnitude with the sign of the
/// number, so that both zeros have the key zero. Bits that encode no number
/// have a key below that of every number.
pub open spec fn key_of(bits: u32) -> int {
    if !is_number(bits) {
        i64::MIN as int
    } else if bits >= SIGN_BIT {
        -magnitude(bits)
    } else {
        magnitude(bits)
    }
}

/// Returns the integer that stands for a score with the given bits.
///
/// Of two numbers the greater has the greater key, and equal numbers have
/// equal keys. A score that is not a number gets the lowest key of all: it
/// ranks after every number.
pub fn score_key(bits: u32) -> (key: i64)
    ensures
        key == key_of(bits),
{
    let magnitude: u32 = if bits >= SIGN_BIT {
        bits - SIGN_BIT
    } else {
        bits
    };
    if magnitude > LARGEST_MAGNITUDE {
        i64::MIN
    } else if bits >= SIGN_BIT {
        -(magnitude as i64)
    } else {
        magnitude as i64
    }
}

/// Two numbers have the same key only if they have the same bits or are both
/// zero.
pub proof fn lemma_same_key(a: u32, b: u32)
    requires
        is_number(a),
        is_number(b),
        key_of(a) == key_of(b),
    ensures
        a == b || (magnitude(a) == 0 && magnitude(b) == 0),
{
}

/// A negative number has a lower key than a positive one, of two positive
/// numbers the one with the greater magnitude has the greater key, and of two
/// negative numbers the one with the greater magnitude has the lower key.
pub proof fn lemma_key_order(a: u32, b: u32)
    requires
        is_number(a),
        is_number(b),
    ensures
        a < SIGN_BIT <= b && (magnitude(a) > 0 || magnitude(b) > 0) ==> key_of(b) < key_of(a),
        a < SIGN_BIT && b < SIGN_BIT ==> (key_of(a) < key_of(b) <==> magnitude(a) < magnitude(b)),
        a >= SIGN_BIT && b >= SIGN_BIT ==> (key_of(a) < key_of(b) <==> magnitude(a) > magnitude(
            b,
        )),
{
}

/// A score that is not a number has a lower key than any number.
pub proof fn lemma_no_number_ranks_last(a: u32, b: u32)
    requires
        !is_number(a),
        is_number(b),
    ensures
        key_of(a) < key_of(b),
{
}

} // verus!
