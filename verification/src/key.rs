//! Ordered integer keys for single-precision numbers.
//!
//! A number enters the library as its 32-bit pattern: a sign bit, eight
//! exponent bits and twenty-three fraction bits. Its key is the integer whose
//! order is the order of the numbers, so the decisions of the tracer compare
//! keys. A pattern that is not a number has no key, and every comparison with
//! it fails.

use vstd::prelude::*;
use vstd::arithmetic::div_mod::{lemma_fundamental_div_mod, lemma_fundamental_div_mod_converse};
use vstd::arithmetic::power2::{
    lemma2_to64, lemma_pow2_adds, lemma_pow2_pos, lemma_pow2_strictly_increases, lemma_pow2_unfold,
    pow2,
};

verus! {

/// The sign bit of a pattern.
pub const SIGN_BIT: u32 = 0x8000_0000;

/// The weight of the lowest exponent bit: two to the number of fraction bits.
pub const FRACTION_RANGE: u32 = 0x0080_0000;

/// The magnitude of infinity; every greater magnitude is not a number.
pub const INFINITY: u32 = 0x7F80_0000;

/// The key of the largest finite number.
pub const FARTHEST: u32 = 0x7F7F_FFFF;

/// The pattern without its sign bit.
pub open spec fn magnitude(bits: u32) -> u32 {
    if bits >= SIGN_BIT {
        (bits - SIGN_BIT) as u32
    } else {
        bits
    }
}

/// Whether the pattern is not a number.
pub open spec fn is_nan(bits: u32) -> bool {
    magnitude(bits) > INFINITY
}

/// The place of a pattern in the order of the numbers: its magnitude, negated
/// when the sign bit is set. Both zeros have rank zero.
pub open spec fn rank(bits: u32) -> int {
    if bits >= SIGN_BIT {
        -(magnitude(bits) as int)
    } else {
        magnitude(bits) as int
    }
}

/// Whether the pattern is a number below zero.
pub open spec fn is_below_zero(bits: u32) -> bool {
    !is_nan(bits) && rank(bits) < 0
}

/// Whether both patterns are numbers and the first is the smaller.
pub open spec fn is_less(a: u32, b: u32) -> bool {
    !is_nan(a) && !is_nan(b) && rank(a) < rank(b)
}

/// The number that a finite magnitude encodes, as a multiple of the smallest
/// positive number: the fraction alone while the exponent is zero, else the
/// fraction with its leading one, doubled once for each step of the exponent
/// above one.
pub open spec fn scaled_magnitude(m: u32) -> nat
    recommends
        m < INFINITY,
{
    let exponent = m / FRACTION_RANGE;
    let fraction = m % FRACTION_RANGE;
    if exponent == 0 {
        fraction as nat
    } else {
        (FRACTION_RANGE + fraction) as nat * pow2((exponent - 1) as nat)
    }
}

/// The number that a finite pattern encodes, as a multiple of the smallest
/// positive number.
pub open spec fn scaled(bits: u32) -> int
    recommends
        magnitude(bits) < INFINITY,
{
    if bits >= SIGN_BIT {
        -(scaled_magnitude(magnitude(bits)) as int)
    } else {
        scaled_magnitude(magnitude(bits)) as int
    }
}

/// The key of a pattern: its rank, or `None` exactly when it is not a number.
pub fn signed_key(bits: u32) -> (key: Option<i32>)
    ensures
        key.is_none() <==> is_nan(bits),
        key.is_some() ==> key.unwrap() == rank(bits),
{
    if bits >= SIGN_BIT {
        let m: u32 = bits - SIGN_BIT;
        if m > INFINITY {
            None
        } else {
            Some(-(m as i32))
        }
    } else if bits > INFINITY {
        None
    } else {
        Some(bits as i32)
    }
}

/// Compares two patterns as numbers. What is not a number is neither less
/// nor more than anything.
pub fn less(a: u32, b: u32) -> (lt: bool)
    ensures
        lt == is_less(a, b),
{
    match (signed_key(a), signed_key(b)) {
        (Some(ka), Some(kb)) => ka < kb,
        _ => false,
    }
}

/// Tells whether a pattern is a number below zero.
pub fn below_zero(bits: u32) -> (negative: bool)
    ensures
        negative == is_below_zero(bits),
{
    match signed_key(bits) {
        Some(k) => k < 0,
        None => false,
    }
}

/// The key of a distance: the rank of a pattern that is zero or more, and
/// `None` exactly when the pattern is negative or not a number.
pub fn distance_key(bits: u32) -> (key: Option<u32>)
    ensures
        key.is_some() <==> !is_nan(bits) && rank(bits) >= 0,
        key.is_some() ==> key.unwrap() == rank(bits),
{
    match signed_key(bits) {
        Some(k) => {
            if k >= 0 {
                Some(k as u32)
            } else {
                None
            }
        },
        None => None,
    }
}

/// The whole part of the number that a pattern encodes, as far as `u32`
/// holds it: zero for a negative number and for what is not a number, the
/// greatest `u32` for a number past it, else the number rounded down.
pub open spec fn whole_part_of(bits: u32) -> int {
    if is_nan(bits) || rank(bits) <= 0 {
        0
    } else if magnitude(bits) >= INFINITY || scaled(bits) / (pow2(149) as int) > u32::MAX {
        u32::MAX as int
    } else {
        scaled(bits) / (pow2(149) as int)
    }
}

/// Two to the power `e`.
fn power_of_two(e: u32) -> (p: u32)
    requires
        e < 32,
    ensures
        p == pow2(e as nat),
{
    let mut p: u32 = 1;
    let mut i: u32 = 0;
    proof {
        lemma2_to64();
    }
    while i < e
        invariant
            i <= e,
            e < 32,
            p == pow2(i as nat),
        decreases e - i,
    {
        proof {
            lemma_pow2_unfold((i + 1) as nat);
            lemma2_to64();
            if i + 1 < 31 {
                lemma_pow2_strictly_increases((i + 1) as nat, 31);
            }
        }
        p = 2 * p;
        i += 1;
    }
    p
}

/// The whole part of a number, by its pattern. This is the number as an
/// unsigned integer: fractions are dropped, and what does not fit is taken to
/// the nearest end of the range.
pub fn whole_part(bits: u32) -> (whole: u32)
    ensures
        whole == whole_part_of(bits),
{
    if bits >= SIGN_BIT || bits > INFINITY {
        return 0;
    }
    if bits == INFINITY {
        return u32::MAX;
    }
    let exponent: u32 = bits / FRACTION_RANGE;
    let fraction: u32 = bits % FRACTION_RANGE;
    let ghost total: int = pow2(149) as int;
    proof {
        lemma2_to64();
        lemma_pow2_pos(149);
    }
    if exponent == 0 {
        proof {
            lemma_pow2_strictly_increases(23, 149);
            lemma_fundamental_div_mod_converse(scaled(bits), total, 0, fraction as int);
        }
        return 0;
    }
    let digits: u32 = FRACTION_RANGE + fraction;
    let ghost unit: int = pow2((exponent - 1) as nat) as int;
    proof {
        lemma_pow2_pos((exponent - 1) as nat);
        assert(scaled(bits) == digits * unit);
    }
    if exponent < 127 {
        proof {
            // Below one: the digits, fewer than two to the 24th, times the
            // unit stay under the total.
            lemma_pow2_adds(24, (exponent - 1) as nat);
            if exponent + 23 < 149 {
                lemma_pow2_strictly_increases((exponent + 23) as nat, 149);
            }
            assert(digits * unit < pow2(24) * unit) by (nonlinear_arith)
                requires
                    digits < pow2(24),
                    unit > 0,
            ;
            lemma_fundamental_div_mod_converse(scaled(bits), total, 0, digits * unit);
        }
        0
    } else if exponent <= 150 {
        let places: u32 = 150 - exponent;
        let span: u32 = power_of_two(places);
        let whole: u32 = digits / span;
        let rest: u32 = digits % span;
        proof {
            lemma_pow2_adds(places as nat, (exponent - 1) as nat);
            lemma_pow2_pos(places as nat);
            lemma_fundamental_div_mod(digits as int, span as int);
            assert(span * whole == whole * span) by (nonlinear_arith);
            let part: int = rest * unit;
            assert(digits * unit == whole * total + part && 0 <= part < total)
                by (nonlinear_arith)
                requires
                    digits == whole * span + rest,
                    0 <= rest < span,
                    unit > 0,
                    span * unit == total,
                    part == rest * unit,
            ;
            lemma_fundamental_div_mod_converse(scaled(bits), total, whole as int, part);
        }
        whole
    } else if exponent < 159 {
        let places: u32 = exponent - 150;
        let span: u32 = power_of_two(places);
        proof {
            lemma_pow2_adds(places as nat, 149);
            if places < 8 {
                lemma_pow2_strictly_increases(places as nat, 8);
            }
            assert(digits * span < 0x1_0000_0000 && digits * unit == (digits * span) * total + 0)
                by (nonlinear_arith)
                requires
                    digits < 0x100_0000,
                    0 < span <= 0x100,
                    span * total == unit,
            ;
            lemma_fundamental_div_mod_converse(scaled(bits), total, digits * span, 0);
        }
        digits * span
    } else {
        proof {
            // From two to the 32nd on: past the range.
            let places = (exponent - 150) as nat;
            lemma_pow2_adds(places, 149);
            if places > 9 {
                lemma_pow2_strictly_increases(9, places);
            }
            let span: int = pow2(places) as int;
            assert(digits * span >= 0x1_0000_0000 && digits * unit == (digits * span) * total + 0)
                by (nonlinear_arith)
                requires
                    digits >= 0x80_0000,
                    span >= 0x200,
                    span * total == unit,
            ;
            lemma_fundamental_div_mod_converse(scaled(bits), total, digits * span, 0);
        }
        u32::MAX
    }
}

/// Comparing patterns is a strict order on the numbers: nothing is less than
/// itself, no two are each less than the other, and less than less is less.
pub proof fn lemma_less_is_strict_order(a: u32, b: u32, c: u32)
    ensures
        !is_less(a, a),
        is_less(a, b) ==> !is_less(b, a),
        is_less(a, b) && is_less(b, c) ==> is_less(a, c),
        !is_nan(a) && !is_nan(b) ==> is_less(a, b) || is_less(b, a) || rank(a) == rank(b),
{
}

/// Among finite magnitudes, the greater pattern encodes the greater number.
pub proof fn lemma_magnitude_order(a: u32, b: u32)
    requires
        a < b,
        b < INFINITY,
    ensures
        scaled_magnitude(a) < scaled_magnitude(b),
{
    let ea = a / FRACTION_RANGE;
    let fa = a % FRACTION_RANGE;
    let eb = b / FRACTION_RANGE;
    let fb = b % FRACTION_RANGE;
    assert(ea <= eb);
    assert(ea == eb ==> fa < fb);
    if eb > 0 {
        let step = pow2((eb - 1) as nat);
        lemma_pow2_pos((eb - 1) as nat);
        if ea == eb {
            assert((FRACTION_RANGE + fa) * step < (FRACTION_RANGE + fb) * step)
                by (nonlinear_arith)
                requires
                    fa < fb,
                    step > 0,
            ;
        } else {
            assert(FRACTION_RANGE as nat * step <= (FRACTION_RANGE + fb) as nat * step)
                by (nonlinear_arith)
                requires
                    fb >= 0,
                    step > 0,
            ;
            if ea == 0 {
                assert(fa < FRACTION_RANGE as nat * step) by (nonlinear_arith)
                    requires
                        fa < FRACTION_RANGE,
                        step > 0,
                ;
            } else {
                let low = pow2((ea - 1) as nat);
                lemma_pow2_pos((ea - 1) as nat);
                lemma_pow2_unfold(ea as nat);
                assert(pow2(ea as nat) <= step) by {
                    if ea < eb - 1 {
                        lemma_pow2_strictly_increases(ea as nat, (eb - 1) as nat);
                    }
                }
                assert((FRACTION_RANGE + fa) as nat * low < FRACTION_RANGE as nat * step)
                    by (nonlinear_arith)
                    requires
                        fa < FRACTION_RANGE,
                        low > 0,
                        2 * low <= step,
                ;
            }
        }
    }
}

/// Keys are ordered as the numbers are: of two finite patterns, one has the
/// smaller rank exactly when it encodes the smaller number, and the same rank
/// exactly when it encodes the same number.
pub proof fn lemma_rank_orders_numbers(a: u32, b: u32)
    requires
        magnitude(a) < INFINITY,
        magnitude(b) < INFINITY,
    ensures
        rank(a) < rank(b) <==> scaled(a) < scaled(b),
        rank(a) == rank(b) <==> scaled(a) == scaled(b),
{
    let ma = magnitude(a);
    let mb = magnitude(b);
    if ma < mb {
        lemma_magnitude_order(ma, mb);
    } else if mb < ma {
        lemma_magnitude_order(mb, ma);
    }
    lemma_zero_is_least(ma);
    lemma_zero_is_least(mb);
}

/// Only the zero magnitude encodes zero.
pub proof fn lemma_zero_is_least(m: u32)
    requires
        m < INFINITY,
    ensures
        scaled_magnitude(m) == 0 <==> m == 0,
{
    if m > 0 {
        lemma_magnitude_order(0, m);
    }
}

} // verus!
