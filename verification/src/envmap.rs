//! The background behind the scene: a flat colour, or an environment image
//! looked up by texel. A background shows a colour at every coordinate.

use vstd::prelude::*;
use crate::ppm::Rgb8;

verus! {

/// An environment image: a rectangle of three-channel texels, kept in an
/// `image::RgbImage`. Its contents are known only through `extent` and
/// `texels`.
#[verifier::external_body]
pub struct EnvMap {
    image: image::RgbImage,
}

/// The width and height of an environment image, in texels.
pub uninterp spec fn extent(env: EnvMap) -> (u32, u32);

/// The texels of an environment image, by column and row.
pub uninterp spec fn texels(env: EnvMap) -> Map<(u32, u32), Rgb8>;

/// The number of byte samples in an image of `width` by `height` texels.
pub open spec fn raw_len(width: u32, height: u32) -> nat {
    3 * (width as nat) * (height as nat)
}

/// The texel in column `x` of row `y` of a `width` texels wide image whose
/// samples are `data`: three consecutive bytes, rows following one another.
pub open spec fn raw_texel(data: Seq<u8>, width: u32, x: u32, y: u32) -> Rgb8 {
    let at = (y as int * width as int + x as int) * 3;
    Rgb8 { r: data[at], g: data[at + 1], b: data[at + 2] }
}

/// The texel at which the coordinate `(x, y)` is looked up in an image of the
/// given width and height: the coordinate itself inside the image, and the
/// last column or row for a coordinate past it.
pub open spec fn nearest_texel(size: (u32, u32), x: u32, y: u32) -> (u32, u32)
    recommends
        size.0 > 0,
        size.1 > 0,
{
    (
        if x < size.0 {
            x
        } else {
            (size.0 - 1) as u32
        },
        if y < size.1 {
            y
        } else {
            (size.1 - 1) as u32
        },
    )
}

/// Whether `len` samples are enough for an image of `width` by `height`
/// texels: the samples of one row, and those of all rows, must be countable in
/// `usize`, and `len` must be no less than their number.
pub open spec fn raw_fits(width: u32, height: u32, len: nat) -> bool {
    &&& 3 * (width as nat) <= usize::MAX
    &&& raw_len(width, height) <= usize::MAX
    &&& raw_len(width, height) <= len
}

/// Whether `env` is the image of `width` by `height` texels over the samples
/// `data`.
pub open spec fn is_image_of(env: EnvMap, width: u32, height: u32, data: Seq<u8>) -> bool {
    &&& extent(env) == (width, height)
    &&& forall|x: u32, y: u32|
        x < width && y < height ==> #[trigger] texels(env)[(x, y)] == raw_texel(data, width, x, y)
}

/// Calls `ImageBuffer::from_raw`. It builds the image over `data` when the
/// sample count for the dimensions, multiplied out with overflow checks, is
/// at most the length of `data`, and returns `None` otherwise. The image then
/// has the given dimensions, and its texel at `(x, y)` is the three samples
/// that start at `(y * width + x) * 3`.
#[verifier::external_body]
fn image_from_raw(width: u32, height: u32, data: Vec<u8>) -> (env: Option<EnvMap>)
    ensures
        match env {
            Some(e) => raw_fits(width, height, data@.len()) && is_image_of(e, width, height, data@),
            None => !raw_fits(width, height, data@.len()),
        },
{
    image::RgbImage::from_raw(width, height, data).map(|image| EnvMap { image })
}

/// Calls `ImageBuffer::width`, which returns the image's width.
#[verifier::external_body]
fn image_width(env: &EnvMap) -> (w: u32)
    ensures
        w == extent(*env).0,
{
    env.image.width()
}

/// Calls `ImageBuffer::height`, which returns the image's height.
#[verifier::external_body]
fn image_height(env: &EnvMap) -> (h: u32)
    ensures
        h == extent(*env).1,
{
    env.image.height()
}

/// Calls `ImageBuffer::get_pixel`, which returns the texel in column `x` of
/// row `y` and panics outside the image. The three channels are copied out.
#[verifier::external_body]
fn image_texel(env: &EnvMap, x: u32, y: u32) -> (p: Rgb8)
    requires
        x < extent(*env).0,
        y < extent(*env).1,
    ensures
        p == texels(*env)[(x, y)],
{
    let texel = env.image.get_pixel(x, y);
    Rgb8 { r: texel.0[0], g: texel.0[1], b: texel.0[2] }
}

/// The texel at which `(x, y)` is looked up in an image that is not empty.
fn nearest(width: u32, height: u32, x: u32, y: u32) -> (at: (u32, u32))
    requires
        width > 0,
        height > 0,
    ensures
        at == nearest_texel((width, height), x, y),
        at.0 < width,
        at.1 < height,
{
    let column = if x < width {
        x
    } else {
        width - 1
    };
    let row = if y < height {
        y
    } else {
        height - 1
    };
    (column, row)
}

impl EnvMap {
    /// An environment image of `width` by `height` texels over the samples in
    /// `data`, three bytes to a texel, row by row. `None` exactly when `data`
    /// holds too few samples for the dimensions, or their number cannot be
    /// counted in `usize`.
    pub fn new(width: u32, height: u32, data: Vec<u8>) -> (env: Option<EnvMap>)
        ensures
            match env {
                Some(e) => raw_fits(width, height, data@.len()) && is_image_of(
                    e,
                    width,
                    height,
                    data@,
                ),
                None => !raw_fits(width, height, data@.len()),
            },
    {
        image_from_raw(width, height, data)
    }

    /// The width in texels.
    pub fn width(&self) -> (w: u32)
        ensures
            w == extent(*self).0,
    {
        image_width(self)
    }

    /// The height in texels.
    pub fn height(&self) -> (h: u32)
        ensures
            h == extent(*self).1,
    {
        image_height(self)
    }

    /// The texel in column `x` of row `y`.
    pub fn texel(&self, x: u32, y: u32) -> (p: Rgb8)
        requires
            x < extent(*self).0,
            y < extent(*self).1,
        ensures
            p == texels(*self)[(x, y)],
    {
        image_texel(self, x, y)
    }

    /// The colour of the image at `(x, y)`: the texel there, and past the last
    /// column or row the texel of the last column or row. `None` exactly
    /// when the image has no texel at all.
    pub fn sample(&self, x: u32, y: u32) -> (p: Option<Rgb8>)
        ensures
            p.is_some() <==> extent(*self).0 > 0 && extent(*self).1 > 0,
            p.is_some() ==> p.unwrap() == texels(*self)[nearest_texel(extent(*self), x, y)],
    {
        let width = self.width();
        let height = self.height();
        if width == 0 || height == 0 {
            return None;
        }
        let (column, row) = nearest(width, height, x, y);
        Some(self.texel(column, row))
    }
}

/// An environment image that holds at least one texel, so that it shows a
/// colour at every coordinate.
pub struct Environment {
    map: EnvMap,
}

impl View for Environment {
    type V = EnvMap;

    /// The image.
    closed spec fn view(&self) -> EnvMap {
        self.map
    }
}

impl Environment {
    #[verifier::type_invariant]
    closed spec fn holds_a_texel(self) -> bool {
        extent(self.map).0 > 0 && extent(self.map).1 > 0
    }

    /// The environment over `map`, or `None` exactly when `map` has no texel.
    pub fn new(map: EnvMap) -> (env: Option<Environment>)
        ensures
            env.is_some() <==> extent(map).0 > 0 && extent(map).1 > 0,
            env.is_some() ==> env.unwrap()@ == map,
    {
        if map.width() > 0 && map.height() > 0 {
            Some(Environment { map })
        } else {
            None
        }
    }

    /// The width in texels, which is not zero.
    pub fn width(&self) -> (w: u32)
        ensures
            w == extent(self@).0,
            w > 0,
    {
        proof {
            use_type_invariant(self);
        }
        self.map.width()
    }

    /// The height in texels, which is not zero.
    pub fn height(&self) -> (h: u32)
        ensures
            h == extent(self@).1,
            h > 0,
    {
        proof {
            use_type_invariant(self);
        }
        self.map.height()
    }

    /// The colour of the environment at `(x, y)`, for every `x` and `y`: the
    /// texel there, and past the last column or row the texel of the last
    /// column or row.
    pub fn sample(&self, x: u32, y: u32) -> (p: Rgb8)
        ensures
            p == texels(self@)[nearest_texel(extent(self@), x, y)],
    {
        let (column, row) = nearest(self.width(), self.height(), x, y);
        self.map.texel(column, row)
    }
}

/// The texel that a coordinate is looked up at lies inside the image, and is
/// the coordinate itself wherever that lies inside.
pub proof fn lemma_nearest_texel_is_inside(size: (u32, u32), x: u32, y: u32)
    requires
        size.0 > 0,
        size.1 > 0,
    ensures
        nearest_texel(size, x, y).0 < size.0,
        nearest_texel(size, x, y).1 < size.1,
        x < size.0 && y < size.1 ==> nearest_texel(size, x, y) == (x, y),
        x >= size.0 ==> nearest_texel(size, x, y).0 == size.0 - 1,
        y >= size.1 ==> nearest_texel(size, x, y).1 == size.1 - 1,
{
}

/// What a ray that strikes nothing shows.
pub enum Background {
    /// The same colour in every direction.
    Flat(Rgb8),
    /// The texel of an environment image that the direction maps to.
    Environment(Environment),
}

impl Background {
    /// The colour the background shows at texel `(x, y)`.
    pub open spec fn colour_at(self, x: u32, y: u32) -> Rgb8 {
        match self {
            Background::Flat(colour) => colour,
            Background::Environment(env) => texels(env@)[nearest_texel(extent(env@), x, y)],
        }
    }

    /// The background colour at texel `(x, y)`, for every `x` and `y`: the
    /// flat colour where one is set, else the colour of the environment
    /// there.
    pub fn sample(&self, x: u32, y: u32) -> (p: Rgb8)
        ensures
            p == self.colour_at(x, y),
    {
        match self {
            Background::Flat(colour) => *colour,
            Background::Environment(env) => env.sample(x, y),
        }
    }
}

} // verus!
