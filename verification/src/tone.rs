//! Tone mapping: a pixel brighter than the output can show is scaled down as
//! a whole, so that its channels keep their proportions.

use vstd::prelude::*;
use crate::key::{is_nan, rank, signed_key};

verus! {

/// The key of one, the brightest value a channel of the output can show.
pub const FULL: u32 = 0x3F80_0000;

/// Whether a channel is brighter than the output can show.
pub open spec fn overflows(channel: u32) -> bool {
    !is_nan(channel) && rank(channel) > FULL
}

/// Whether `divisor` is what a pixel with channels `r`, `g` and `b` is to be
/// divided by: the brightest of its channels, provided that one is brighter
/// than the output can show. A pixel none of whose channels is has no divisor
/// and is left as it is. A channel that is not a number is passed over.
pub open spec fn is_divisor(r: u32, g: u32, b: u32, divisor: Option<u32>) -> bool {
    match divisor {
        Some(d) => {
            &&& d == r || d == g || d == b
            &&& overflows(d)
            &&& !is_nan(r) ==> rank(r) <= rank(d)
            &&& !is_nan(g) ==> rank(g) <= rank(d)
            &&& !is_nan(b) ==> rank(b) <= rank(d)
        },
        None => !overflows(r) && !overflows(g) && !overflows(b),
    }
}

/// The pattern by which to divide all three channels of a pixel before it is
/// clamped, or `None` when the pixel needs no scaling.
pub fn divisor(r: u32, g: u32, b: u32) -> (d: Option<u32>)
    ensures
        is_divisor(r, g, b, d),
{
    let mut best: Option<u32> = None;
    let mut best_key: i32 = FULL as i32;
    match signed_key(r) {
        Some(k) => {
            if k > best_key {
                best = Some(r);
                best_key = k;
            }
        },
        None => {},
    }
    match signed_key(g) {
        Some(k) => {
            if k > best_key {
                best = Some(g);
                best_key = k;
            }
        },
        None => {},
    }
    match signed_key(b) {
        Some(k) => {
            if k > best_key {
                best = Some(b);
                best_key = k;
            }
        },
        None => {},
    }
    best
}

/// A channel brought into the range the output can show: zero for anything
/// below zero, one for anything above one and for what is not a number, and
/// the channel itself in between.
pub open spec fn clamp_of(channel: u32) -> u32 {
    if is_nan(channel) {
        FULL
    } else if rank(channel) <= 0 {
        0
    } else if rank(channel) >= FULL {
        FULL
    } else {
        channel
    }
}

/// Clamps a channel to the range from zero to one.
pub fn clamp(channel: u32) -> (clamped: u32)
    ensures
        clamped == clamp_of(channel),
        !is_nan(clamped),
        0 <= rank(clamped) <= FULL,
{
    match signed_key(channel) {
        Some(k) => {
            if k <= 0 {
                0
            } else if k >= FULL as i32 {
                FULL
            } else {
                channel
            }
        },
        None => FULL,
    }
}

/// After clamping every channel lies between zero and one, a channel that
/// already did is unchanged, and of two channels the brighter stays at least
/// as bright.
pub proof fn lemma_clamp_keeps_range_and_order(a: u32, b: u32)
    ensures
        !is_nan(clamp_of(a)),
        0 <= rank(clamp_of(a)) <= FULL,
        !is_nan(a) && 0 < rank(a) <= FULL ==> clamp_of(a) == a,
        clamp_of(clamp_of(a)) == clamp_of(a),
        !is_nan(a) && !is_nan(b) && rank(a) <= rank(b) ==> rank(clamp_of(a)) <= rank(clamp_of(b)),
{
}

/// The divisor of a pixel is determined by its channels.
pub proof fn lemma_divisor_unique(r: u32, g: u32, b: u32, first: Option<u32>, second: Option<u32>)
    requires
        is_divisor(r, g, b, first),
        is_divisor(r, g, b, second),
    ensures
        first == second,
{
}

/// A pixel is scaled exactly when one of its channels is brighter than the
/// output can show, and then by a channel that none of them exceeds.
pub proof fn lemma_divisor_is_brightest(r: u32, g: u32, b: u32, d: Option<u32>)
    requires
        is_divisor(r, g, b, d),
    ensures
        d.is_some() <==> overflows(r) || overflows(g) || overflows(b),
        d.is_some() ==> (overflows(r) ==> rank(r) <= rank(d.unwrap())) && (overflows(g) ==> rank(g)
            <= rank(d.unwrap())) && (overflows(b) ==> rank(b) <= rank(d.unwrap())),
{
}

} // verus!
