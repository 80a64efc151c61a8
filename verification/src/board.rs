//! The checkerboard: a horizontal plane below the spheres, of which a
//! rectangle is visible, tiled in two shades.

use vstd::prelude::*;
use vstd::arithmetic::div_mod::lemma_fundamental_div_mod_converse;
use vstd::arithmetic::power2::{lemma2_to64, lemma_pow2_adds, lemma_pow2_pos, lemma_pow2_strictly_increases, pow2};
use crate::key::{distance_key, is_nan, magnitude, rank, scaled, scaled_magnitude, signed_key, FRACTION_RANGE, SIGN_BIT};

verus! {

/// The key of a thousandth: a ray whose direction rises or falls less than
/// this for each unit of length runs beside the plane and never meets it.
pub const GRAZING: u32 = 0x3A83_126F;

/// The key of ten: the board reaches this far to either side of the `z` axis,
/// and begins this far down the negative `z` axis.
pub const BOARD_NEAR: u32 = 0x4120_0000;

/// The key of thirty: the board ends this far down the negative `z` axis.
pub const BOARD_FAR: u32 = 0x41F0_0000;

/// Whether the point of the plane with coordinates `x` and `z` lies on the
/// board: strictly within ten units of the `z` axis, and strictly between ten
/// and thirty units down its negative side.
pub open spec fn on_board(x: u32, z: u32) -> bool {
    &&& !is_nan(x)
    &&& magnitude(x) < BOARD_NEAR
    &&& !is_nan(z)
    &&& -(BOARD_FAR as int) < rank(z) < -(BOARD_NEAR as int)
}

/// The key of the distance at which a ray meets the board. `slope` is the
/// vertical component of the ray's direction, `distance` the distance along
/// the ray to the plane, `x` and `z` the coordinates of the point there; all
/// are patterns. The ray meets the board when it does not graze the plane,
/// the plane lies strictly ahead, and the point lies on the board.
pub open spec fn plane_of(slope: u32, distance: u32, x: u32, z: u32) -> Option<u32> {
    if !is_nan(slope) && magnitude(slope) > GRAZING && !is_nan(distance) && rank(distance) > 0
        && on_board(x, z) {
        Some(rank(distance) as u32)
    } else {
        None
    }
}

/// Decides whether the point with coordinates `x` and `z` lies on the board.
pub fn is_on_board(x: u32, z: u32) -> (on: bool)
    ensures
        on == on_board(x, z),
{
    let beside = match signed_key(x) {
        Some(k) => -(BOARD_NEAR as i32) < k && k < BOARD_NEAR as i32,
        None => false,
    };
    let along = match signed_key(z) {
        Some(k) => -(BOARD_FAR as i32) < k && k < -(BOARD_NEAR as i32),
        None => false,
    };
    beside && along
}

/// Decides whether a ray meets the checkerboard, and at which distance.
pub fn plane_reach(slope: u32, distance: u32, x: u32, z: u32) -> (reach: Option<u32>)
    ensures
        reach == plane_of(slope, distance, x, z),
{
    let steep = match signed_key(slope) {
        Some(k) => k > GRAZING as i32 || k < -(GRAZING as i32),
        None => false,
    };
    match distance_key(distance) {
        Some(d) => {
            if steep && d > 0 && is_on_board(x, z) {
                Some(d)
            } else {
                None
            }
        },
        None => None,
    }
}

/// The two shades of the checkerboard.
#[derive(Clone, Copy, Debug, PartialEq, Eq, Structural)]
pub enum Tile {
    /// The shade of the cells whose coordinates sum to an even number.
    Even,
    /// The shade of the cells whose coordinates sum to an odd number.
    Odd,
}

/// The shade of the cell `(cell_x, cell_z)` of the checkerboard.
pub open spec fn tile_of(cell_x: int, cell_z: int) -> Tile {
    if (cell_x + cell_z) % 2 == 0 {
        Tile::Even
    } else {
        Tile::Odd
    }
}

/// Half the number that a finite pattern encodes, rounded down to a whole
/// number: the coordinate of the cell, two units wide, that the number falls
/// in.
pub open spec fn half_floor(bits: u32) -> int
    recommends
        !is_nan(bits),
{
    scaled(bits) / (pow2(150) as int)
}

/// The shade of the board at the point with coordinates `x` and `z`: that of
/// the cell the point falls in, or `None` when the point is not on the board.
pub open spec fn tile_at_of(x: u32, z: u32) -> Option<Tile> {
    if on_board(x, z) {
        Some(tile_of(half_floor(x), half_floor(z)))
    } else {
        None
    }
}

/// The shade of the cell `(cell_x, cell_z)`.
pub fn tile(cell_x: i32, cell_z: i32) -> (t: Tile)
    ensures
        t == tile_of(cell_x as int, cell_z as int),
{
    let sum: i64 = cell_x as i64 + cell_z as i64;
    if sum % 2 == 0 {
        Tile::Even
    } else {
        Tile::Odd
    }
}

/// The magnitude of thirty-two, past which `cell` does not look.
const CELL_REACH: u32 = 0x4200_0000;

/// The cell coordinate of a number of magnitude below thirty-two.
fn cell(bits: u32) -> (c: i32)
    requires
        magnitude(bits) < CELL_REACH,
    ensures
        c == half_floor(bits),
        -16 <= c < 16,
{
    let negative = bits >= SIGN_BIT;
    let m: u32 = if negative {
        bits - SIGN_BIT
    } else {
        bits
    };
    let exponent: u32 = m / FRACTION_RANGE;
    let fraction: u32 = m % FRACTION_RANGE;
    let digits: u32 = if exponent == 0 {
        fraction
    } else {
        FRACTION_RANGE + fraction
    };
    // Halving shifts the digits right by 151 less the exponent; from 24
    // places on nothing is left of them.
    let divisor: u32 = if exponent == 131 {
        0x0010_0000
    } else if exponent == 130 {
        0x0020_0000
    } else if exponent == 129 {
        0x0040_0000
    } else if exponent == 128 {
        0x0080_0000
    } else {
        0x0100_0000
    };
    let whole: u32 = digits / divisor;
    let rest: u32 = digits % divisor;
    let c: i32 = if !negative {
        whole as i32
    } else if rest == 0 {
        -(whole as i32)
    } else {
        -(whole as i32) - 1
    };
    proof {
        lemma2_to64();
        let unit: int = if exponent == 0 {
            1
        } else {
            pow2((exponent - 1) as nat) as int
        };
        let span: int = if exponent == 0 {
            pow2(150) as int
        } else {
            pow2((151 - exponent) as nat) as int
        };
        assert(unit > 0 && span * unit == pow2(150)) by {
            if exponent > 0 {
                lemma_pow2_pos((exponent - 1) as nat);
                lemma_pow2_adds((151 - exponent) as nat, (exponent - 1) as nat);
            }
        }
        assert(scaled_magnitude(m) == digits * unit);
        // Dividing the digits by the span leaves the same whole part and the
        // same rest as dividing by the divisor.
        assert(digits == whole * span + rest && 0 <= rest < span) by {
            if exponent < 128 {
                assert(pow2(24) <= span) by {
                    if exponent == 0 {
                        lemma_pow2_strictly_increases(24, 150);
                    } else if exponent < 127 {
                        lemma_pow2_strictly_increases(24, (151 - exponent) as nat);
                    }
                }
                assert(whole == 0 && rest == digits);
                assert(whole * span == 0);
            } else {
                assert(span == divisor);
                assert(digits == whole * divisor + rest);
            }
        }
        let total: int = pow2(150) as int;
        let part: int = rest * unit;
        assert(digits * unit == whole * total + part && 0 <= part && (rest == 0 ==> part == 0)
            && (rest > 0 ==> part > 0) && part < total) by (nonlinear_arith)
            requires
                digits == whole * span + rest,
                0 <= rest < span,
                unit > 0,
                span * unit == total,
                part == rest * unit,
        ;
        if !negative {
            lemma_fundamental_div_mod_converse(scaled(bits), total, whole as int, part);
        } else if rest == 0 {
            assert(-(digits * unit) == (-(whole as int)) * total + 0) by (nonlinear_arith)
                requires
                    digits * unit == whole * total + part,
                    part == 0,
            ;
            lemma_fundamental_div_mod_converse(scaled(bits), total, -(whole as int), 0);
        } else {
            assert(-(digits * unit) == (-(whole as int) - 1) * total + (total - part))
                by (nonlinear_arith)
                requires
                    digits * unit == whole * total + part,
            ;
            lemma_fundamental_div_mod_converse(
                scaled(bits),
                total,
                -(whole as int) - 1,
                total - part,
            );
        }
    }
    c
}

/// The shade of the board at the point with coordinates `x` and `z`, both
/// patterns, or `None` exactly when the point is not on the board.
pub fn tile_at(x: u32, z: u32) -> (t: Option<Tile>)
    ensures
        t == tile_at_of(x, z),
{
    if is_on_board(x, z) {
        Some(tile(cell(x), cell(z)))
    } else {
        None
    }
}

/// Neighbouring cells differ in shade, along either axis.
pub proof fn lemma_tiles_alternate(cell_x: int, cell_z: int)
    ensures
        tile_of(cell_x + 1, cell_z) != tile_of(cell_x, cell_z),
        tile_of(cell_x, cell_z + 1) != tile_of(cell_x, cell_z),
{
}

} // verus!
