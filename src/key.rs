use vstd::prelude::*;

verus! {

/// The sign bit of an IEEE-754 double.
pub const SIGN_BIT: u64 = 0x8000_0000_0000_0000;

/// The sign-magnitude integer held by a double's bit pattern. For doubles that
/// are not NaN, the real value grows strictly with this integer, and `+0.0` and
/// `-0.0` both give 0.
pub open spec fn sign_magnitude(bits: u64) -> int {
    if bits & SIGN_BIT != 0 {
        -((bits & !SIGN_BIT) as int)
    } else {
        bits as int
    }
}

/// The order key of a double's bit pattern.
pub open spec fn spec_order_key(bits: u64) -> u64 {
    if bits == SIGN_BIT {
        SIGN_BIT
    } else if bits & SIGN_BIT != 0 {
        !bits
    } else {
        bits | SIGN_BIT
    }
}

/// Maps the bit pattern of a double to a `u64` whose unsigned order is the
/// order of the doubles (NaN aside), with `-0.0` and `+0.0` on one key.
pub fn order_key(bits: u64) -> (r: u64)
    ensures
        r == spec_order_key(bits),
{
    if bits == SIGN_BIT {
        SIGN_BIT
    } else if bits & SIGN_BIT != 0 {
        !bits
    } else {
        bits | SIGN_BIT
    }
}

proof fn lemma_order_key_value(bits: u64)
    ensures
        spec_order_key(bits) as int == 0x8000_0000_0000_0000 + sign_magnitude(bits) - (if sign_magnitude(bits) < 0 { 1int } else { 0int }),
{
    let m = bits & !SIGN_BIT;
    if bits == SIGN_BIT {
        assert(bits & !SIGN_BIT == 0) by (bit_vector)
            requires bits == 0x8000_0000_0000_0000u64;
        assert(bits & SIGN_BIT != 0) by (bit_vector)
            requires bits == 0x8000_0000_0000_0000u64;
    } else if bits & SIGN_BIT != 0 {
        assert(!bits == 0x7fff_ffff_ffff_ffffu64 - m && m != 0) by (bit_vector)
            requires
                bits & 0x8000_0000_0000_0000u64 != 0,
                bits != 0x8000_0000_0000_0000u64,
                m == bits & !0x8000_0000_0000_0000u64;
    } else {
        assert((bits | SIGN_BIT) == bits + 0x8000_0000_0000_0000u64 && bits < 0x8000_0000_0000_0000u64) by (bit_vector)
            requires bits & 0x8000_0000_0000_0000u64 == 0;
    }
}

/// Order keys compare as the sign-magnitude integers of the bit patterns do,
/// so sorting by key sorts doubles by value, and equal keys mean equal doubles.
pub proof fn lemma_order_key_monotone(a: u64, b: u64)
    ensures
        sign_magnitude(a) < sign_magnitude(b) <==> spec_order_key(a) < spec_order_key(b),
        sign_magnitude(a) == sign_magnitude(b) <==> spec_order_key(a) == spec_order_key(b),
{
    lemma_order_key_value(a);
    lemma_order_key_value(b);
}

} // verus!
