//! The binary portable pixmap a finished frame is written as: an ASCII header
//! naming the dimensions and the channel maximum, then three bytes per pixel,
//! row by row from the top.

use vstd::prelude::*;
use crate::grid::PixelGrid;
use crate::key::{whole_part, whole_part_of};

verus! {

/// One pixel of the finished image: red, green and blue, each already
/// quantised to a byte.
#[derive(Clone, Copy, Debug, PartialEq, Eq, Structural)]
pub struct Rgb8 {
    pub r: u8,
    pub g: u8,
    pub b: u8,
}

/// The byte that a channel quantises to, once it is scaled to the range of a
/// byte: its whole part, and the greatest byte for anything past that.
pub open spec fn byte_of(channel: u32) -> u8 {
    if whole_part_of(channel) > 255 {
        255u8
    } else {
        whole_part_of(channel) as u8
    }
}

/// Quantises a channel, given by the pattern of its value scaled to the range
/// of a byte. Fractions are dropped; a negative value and what is not a number
/// give zero.
pub fn to_byte(channel: u32) -> (byte: u8)
    ensures
        byte == byte_of(channel),
{
    let whole: u32 = whole_part(channel);
    if whole > 255 {
        255
    } else {
        whole as u8
    }
}

impl Rgb8 {
    /// The pixel that three scaled channels quantise to.
    pub fn quantised(r: u32, g: u32, b: u32) -> (pixel: Rgb8)
        ensures
            pixel == (Rgb8 { r: byte_of(r), g: byte_of(g), b: byte_of(b) }),
    {
        Rgb8 { r: to_byte(r), g: to_byte(g), b: to_byte(b) }
    }
}

/// Why a frame could not be encoded.
#[derive(Clone, Copy, Debug, PartialEq, Eq, Structural)]
pub enum PpmError {
    /// The frame does not hold one pixel per slot of the grid.
    PixelCount { expected: usize, found: usize },
}

/// The ASCII digit for `d`.
pub open spec fn digit(d: nat) -> u8
    recommends
        d < 10,
{
    (48 + d) as u8
}

/// `n` in decimal ASCII digits, most significant first, without leading zeros.
pub open spec fn decimal(n: nat) -> Seq<u8>
    decreases n,
{
    if n < 10 {
        seq![digit(n)]
    } else {
        decimal(n / 10).push(digit(n % 10))
    }
}

/// The number that a sequence of ASCII digits denotes.
pub open spec fn decimal_value(digits: Seq<u8>) -> nat
    decreases digits.len(),
{
    if digits.len() == 0 {
        0
    } else {
        10 * decimal_value(digits.drop_last()) + (digits.last() - 48) as nat
    }
}

/// The header of a `width` by `height` image: the magic `P6`, a line feed, the
/// two dimensions separated by a space, a line feed, the channel maximum `255`
/// and a final line feed.
pub open spec fn header(width: nat, height: nat) -> Seq<u8> {
    seq![80u8, 54u8, 10u8] + decimal(width) + seq![32u8] + decimal(height) + seq![
        10u8,
        50u8,
        53u8,
        53u8,
        10u8,
    ]
}

/// The channel bytes of `pixels` in order: red, green, blue of the first
/// pixel, then of the second, and so on.
pub open spec fn samples(pixels: Seq<Rgb8>) -> Seq<u8> {
    Seq::new(
        3 * pixels.len(),
        |i: int|
            if i % 3 == 0 {
                pixels[i / 3].r
            } else if i % 3 == 1 {
                pixels[i / 3].g
            } else {
                pixels[i / 3].b
            },
    )
}

/// The whole file for a frame of `width` by `height` pixels.
pub open spec fn image(width: nat, height: nat, pixels: Seq<Rgb8>) -> Seq<u8> {
    header(width, height) + samples(pixels)
}

/// Appends `n` in decimal to `out`.
pub fn push_decimal(out: &mut Vec<u8>, n: usize)
    ensures
        final(out)@ == old(out)@ + decimal(n as nat),
    decreases n,
{
    if n >= 10 {
        push_decimal(out, n / 10);
    }
    let d: u8 = (n % 10) as u8;
    out.push(48u8 + d);
    assert(out@ =~= old(out)@ + decimal(n as nat));
}

/// The header bytes for a `width` by `height` image.
pub fn encode_header(width: usize, height: usize) -> (bytes: Vec<u8>)
    ensures
        bytes@ == header(width as nat, height as nat),
{
    let mut bytes: Vec<u8> = Vec::new();
    bytes.push(80u8);
    bytes.push(54u8);
    bytes.push(10u8);
    push_decimal(&mut bytes, width);
    bytes.push(32u8);
    push_decimal(&mut bytes, height);
    bytes.push(10u8);
    bytes.push(50u8);
    bytes.push(53u8);
    bytes.push(53u8);
    bytes.push(10u8);
    assert(bytes@ =~= header(width as nat, height as nat));
    bytes
}

/// Encodes a frame. `pixels` holds the grid's pixels in slot order; the result
/// is the header followed by their channel bytes. Fails exactly when the
/// number of pixels is not the number of slots in the grid.
pub fn encode(grid: &PixelGrid, pixels: &Vec<Rgb8>) -> (file: Result<Vec<u8>, PpmError>)
    ensures
        match file {
            Ok(bytes) => pixels.len() == grid@.0 * grid@.1 && bytes@ == image(
                grid@.0,
                grid@.1,
                pixels@,
            ),
            Err(e) => pixels.len() != grid@.0 * grid@.1 && e == (PpmError::PixelCount {
                expected: (grid@.0 * grid@.1) as usize,
                found: pixels.len(),
            }),
        },
{
    let expected: usize = grid.pixel_count();
    if pixels.len() != expected {
        return Err(PpmError::PixelCount { expected, found: pixels.len() });
    }
    let mut bytes: Vec<u8> = encode_header(grid.width(), grid.height());
    let ghost head = bytes@;
    let mut i: usize = 0;
    while i < pixels.len()
        invariant
            i <= pixels.len(),
            bytes@ =~= head + samples(pixels@.take(i as int)),
        decreases pixels.len() - i,
    {
        let p = pixels[i];
        bytes.push(p.r);
        bytes.push(p.g);
        bytes.push(p.b);
        proof {
            let done = samples(pixels@.take(i as int));
            let next = samples(pixels@.take(i as int + 1));
            assert(next =~= done + seq![p.r, p.g, p.b]);
        }
        i += 1;
    }
    assert(pixels@.take(pixels.len() as int) =~= pixels@);
    Ok(bytes)
}

/// The decimal form of a number consists of digits only, begins with a zero
/// only for zero itself, and denotes the number it was made from: a reader of
/// the header finds the dimensions that the writer put there.
pub proof fn lemma_decimal_round_trip(n: nat)
    ensures
        decimal(n).len() >= 1,
        forall|i: int| 0 <= i < decimal(n).len() ==> 48 <= #[trigger] decimal(n)[i] <= 57,
        n > 0 ==> decimal(n)[0] != 48,
        decimal_value(decimal(n)) == n,
    decreases n,
{
    if n < 10 {
        assert(decimal(n) =~= seq![digit(n)]);
        assert(decimal(n).drop_last() =~= Seq::<u8>::empty());
        assert(decimal_value(Seq::<u8>::empty()) == 0);
        assert(decimal(n).last() == digit(n));
    } else {
        lemma_decimal_round_trip(n / 10);
        let front = decimal(n / 10);
        assert(decimal(n).drop_last() =~= front);
        assert(decimal(n).last() == digit(n % 10));
        assert(decimal(n)[0] == front[0]);
        assert(decimal_value(decimal(n)) == 10 * decimal_value(front) + (digit(n % 10) - 48));
    }
}

/// The file of a frame is its header followed by exactly three bytes for each
/// pixel.
pub proof fn lemma_image_layout(width: nat, height: nat, pixels: Seq<Rgb8>, i: int)
    requires
        0 <= i < pixels.len(),
    ensures
        image(width, height, pixels).len() == header(width, height).len() + 3 * pixels.len(),
        image(width, height, pixels).subrange(0, header(width, height).len() as int) == header(
            width,
            height,
        ),
        image(width, height, pixels)[header(width, height).len() + 3 * i] == pixels[i].r,
        image(width, height, pixels)[header(width, height).len() + 3 * i + 1] == pixels[i].g,
        image(width, height, pixels)[header(width, height).len() + 3 * i + 2] == pixels[i].b,
{
    let head = header(width, height);
    let file = image(width, height, pixels);
    assert(file.subrange(0, head.len() as int) =~= head);
    assert(file[head.len() + 3 * i] == samples(pixels)[3 * i]);
    assert(file[head.len() + 3 * i + 1] == samples(pixels)[3 * i + 1]);
    assert(file[head.len() + 3 * i + 2] == samples(pixels)[3 * i + 2]);
}

} // verus!
