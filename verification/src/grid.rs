//! The pixel grid of a render: a rectangle of pixels stored row by row, top
//! row first, each pixel owning exactly one slot of the frame.

use vstd::prelude::*;
use vstd::arithmetic::div_mod::lemma_fundamental_div_mod;
use vstd::arithmetic::div_mod::lemma_fundamental_div_mod_converse;

verus! {

/// The slot of the pixel in column `col` of row `row`, in a grid `width` pixels wide.
pub open spec fn slot_of(width: nat, col: nat, row: nat) -> nat {
    row * width + col
}

/// The column of the pixel that owns slot `index`.
pub open spec fn column_of(width: nat, index: nat) -> nat
    recommends
        width > 0,
{
    index % width
}

/// The row of the pixel that owns slot `index`.
pub open spec fn row_of(width: nat, index: nat) -> nat
    recommends
        width > 0,
{
    index / width
}

/// The number of byte samples in a frame of `width` by `height` pixels,
/// three to a pixel.
pub open spec fn sample_count(width: nat, height: nat) -> nat {
    3 * (width * height)
}

/// The dimensions of a frame. A grid only exists when its three-byte-per-pixel
/// image fits in memory, so every count taken from it is free of overflow.
#[derive(Clone, Copy, Debug)]
pub struct PixelGrid {
    width: usize,
    height: usize,
}

impl View for PixelGrid {
    type V = (nat, nat);

    /// The width and the height, in pixels.
    closed spec fn view(&self) -> (nat, nat) {
        (self.width as nat, self.height as nat)
    }
}

impl PixelGrid {
    #[verifier::type_invariant]
    closed spec fn fits(self) -> bool {
        sample_count(self.width as nat, self.height as nat) <= usize::MAX
    }

    /// A grid of `width` by `height` pixels, or `None` exactly when the frame's
    /// sample count does not fit in `usize`.
    pub fn new(width: usize, height: usize) -> (grid: Option<PixelGrid>)
        ensures
            grid.is_some() <==> sample_count(width as nat, height as nat) <= usize::MAX,
            grid matches Some(g) ==> g@ == (width as nat, height as nat),
    {
        match width.checked_mul(height) {
            None => {
                assert(sample_count(width as nat, height as nat) >= width * height);
                None
            },
            Some(pixels) => match pixels.checked_mul(3) {
                None => None,
                Some(_) => Some(PixelGrid { width, height }),
            },
        }
    }

    /// The number of pixels in a row.
    pub fn width(&self) -> (w: usize)
        ensures
            w == self@.0,
    {
        self.width
    }

    /// The number of rows.
    pub fn height(&self) -> (h: usize)
        ensures
            h == self@.1,
    {
        self.height
    }

    /// The number of pixels, which is the number of slots in the frame.
    pub fn pixel_count(&self) -> (n: usize)
        ensures
            n == self@.0 * self@.1,
    {
        proof {
            use_type_invariant(self);
        }
        self.width * self.height
    }

    /// The number of byte samples in the finished image.
    pub fn sample_count(&self) -> (n: usize)
        ensures
            n == sample_count(self@.0, self@.1),
    {
        proof {
            use_type_invariant(self);
        }
        3 * (self.width * self.height)
    }

    /// The column and row of the pixel that owns slot `index`, or `None`
    /// exactly when the grid has no such slot.
    pub fn coords(&self, index: usize) -> (at: Option<(usize, usize)>)
        ensures
            at.is_some() <==> index < self@.0 * self@.1,
            at matches Some((col, row)) ==> {
                &&& col == column_of(self@.0, index as nat)
                &&& row == row_of(self@.0, index as nat)
                &&& col < self@.0
                &&& row < self@.1
            },
    {
        if index < self.pixel_count() {
            proof {
                lemma_slot_round_trip(self@.0, self@.1, index as nat);
            }
            Some((index % self.width, index / self.width))
        } else {
            None
        }
    }

    /// The slot of the pixel in column `col` of row `row`, or `None` exactly
    /// when the pixel lies outside the grid.
    pub fn index(&self, col: usize, row: usize) -> (at: Option<usize>)
        ensures
            at.is_some() <==> col < self@.0 && row < self@.1,
            at matches Some(i) ==> i == slot_of(self@.0, col as nat, row as nat) && i < self@.0
                * self@.1,
    {
        if col < self.width && row < self.height {
            proof {
                use_type_invariant(self);
                lemma_coords_round_trip(self@.0, self@.1, col as nat, row as nat);
            }
            Some(row * self.width + col)
        } else {
            None
        }
    }
}

/// Every slot of a grid belongs to one pixel inside the grid, and that pixel's
/// slot is the one started from.
pub proof fn lemma_slot_round_trip(width: nat, height: nat, index: nat)
    requires
        index < width * height,
    ensures
        width > 0,
        column_of(width, index) < width,
        row_of(width, index) < height,
        slot_of(width, column_of(width, index), row_of(width, index)) == index,
{
    assert(width > 0) by (nonlinear_arith)
        requires
            index < width * height,
    ;
    lemma_fundamental_div_mod(index as int, width as int);
    let q = index as int / width as int;
    assert(q < height) by (nonlinear_arith)
        requires
            index < width * height,
            width > 0,
            index == width * q + index as int % width as int,
            0 <= index as int % width as int,
            q >= 0,
    ;
    assert(q * width == width * q) by (nonlinear_arith);
}

/// Every pixel inside a grid owns a slot of the grid, and that slot leads back
/// to the same column and row: two different pixels never share a slot.
pub proof fn lemma_coords_round_trip(width: nat, height: nat, col: nat, row: nat)
    requires
        col < width,
        row < height,
    ensures
        slot_of(width, col, row) < width * height,
        column_of(width, slot_of(width, col, row)) == col,
        row_of(width, slot_of(width, col, row)) == row,
{
    assert(row * width + col < width * height) by (nonlinear_arith)
        requires
            col < width,
            row < height,
    ;
    assert(row * width == width * row) by (nonlinear_arith);
    lemma_fundamental_div_mod_converse(
        (row * width + col) as int,
        width as int,
        row as int,
        col as int,
    );
}

/// Two different pixels of a grid own two different slots: no slot of the
/// frame is written for more than one pixel.
pub proof fn lemma_slots_distinct(
    width: nat,
    height: nat,
    col_a: nat,
    row_a: nat,
    col_b: nat,
    row_b: nat,
)
    requires
        col_a < width,
        row_a < height,
        col_b < width,
        row_b < height,
        col_a != col_b || row_a != row_b,
    ensures
        slot_of(width, col_a, row_a) != slot_of(width, col_b, row_b),
{
    lemma_coords_round_trip(width, height, col_a, row_a);
    lemma_coords_round_trip(width, height, col_b, row_b);
}

} // verus!
