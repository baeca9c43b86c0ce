//! The view of an RGB image that the rest of the library works with.
//!
//! `RgbPixels` holds an `image::RgbImage`, which only the `image` crate can
//! read. The library sees it through two names: the `(width, height)` it was
//! made with and the flat sequence of its samples, stored row by row with
//! the red, green and blue sample of each pixel side by side. Every call into
//! the `image` crate is made by one of the small functions at the end of this
//! module, whose contracts say over those two names what the crate's source
//! shows.
use vstd::prelude::*;

verus! {

/// An RGB image with 8-bit samples, as decoded by the `image` crate.
#[verifier::external_body]
pub struct RgbPixels {
    image: image::RgbImage,
}

/// The `(width, height)` that an image was made with.
pub uninterp spec fn rgb_dims(img: RgbPixels) -> (u32, u32);

/// The samples that an image stores: row after row, three per pixel.
pub uninterp spec fn rgb_samples(img: RgbPixels) -> Seq<u8>;

/// The pixel at `(x, y)` of a row-major run of samples `width` pixels wide.
pub open spec fn pixel_at(samples: Seq<u8>, width: int, x: int, y: int) -> (u8, u8, u8) {
    let i = 3 * (y * width + x);
    (samples[i], samples[i + 1], samples[i + 2])
}

/// Sample `c` (0 red, 1 green, 2 blue) of a pixel.
pub open spec fn channel(px: (u8, u8, u8), c: int) -> u8 {
    if c == 0 {
        px.0
    } else if c == 1 {
        px.1
    } else {
        px.2
    }
}

impl RgbPixels {
    /// The width of the image.
    pub open spec fn width_spec(self) -> nat {
        rgb_dims(self).0 as nat
    }

    /// The height of the image.
    pub open spec fn height_spec(self) -> nat {
        rgb_dims(self).1 as nat
    }

    /// The pixel at `(x, y)`.
    pub open spec fn pixel_spec(self, x: int, y: int) -> (u8, u8, u8) {
        pixel_at(rgb_samples(self), rgb_dims(self).0 as int, x, y)
    }

    /// Makes an image `width` pixels wide and `height` pixels high from its
    /// samples, row by row and three per pixel. There is no image where the
    /// samples are fewer than `3 * width * height`, or where `3 * width`
    /// overflows a `usize`; more samples are kept, unused.
    pub fn from_samples(width: u32, height: u32, samples: Vec<u8>) -> (res: Option<RgbPixels>)
        ensures
            res is Some <==> (3 * (width as int) <= usize::MAX && 3 * (width as int) * (
            height as int) <= samples@.len()),
            res matches Some(img) ==> rgb_dims(img) == (width, height) && rgb_samples(img)
                == samples@,
    {
        buffer_from_raw(width, height, samples)
    }

    /// Gives the samples back, row by row and three per pixel.
    pub fn into_samples(self) -> (samples: Vec<u8>)
        ensures
            samples@ == rgb_samples(self),
    {
        buffer_into_raw(self)
    }

    /// The `(width, height)` of the image.
    pub fn dimensions(&self) -> (dims: (u32, u32))
        ensures
            dims == rgb_dims(*self),
            3 * (dims.0 as int) * (dims.1 as int) <= rgb_samples(*self).len() <= isize::MAX,
            3 * (dims.0 as int) <= usize::MAX,
    {
        buffer_dimensions(self)
    }

    /// The `(red, green, blue)` samples of the pixel at `(x, y)`.
    pub fn pixel(&self, x: u32, y: u32) -> (px: (u8, u8, u8))
        requires
            x < rgb_dims(*self).0,
            y < rgb_dims(*self).1,
        ensures
            px == self.pixel_spec(x as int, y as int),
    {
        buffer_get_pixel(self, x, y)
    }

    /// An image `width` by `height` whose every pixel is `colour`.
    pub fn filled(width: u32, height: u32, colour: [u8; 3]) -> (img: RgbPixels)
        requires
            3 * (width as int) <= usize::MAX,
            3 * (width as int) * (height as int) <= isize::MAX,
        ensures
            rgb_dims(img) == (width, height),
            rgb_samples(img).len() == 3 * (width as int) * (height as int),
            forall|i: int|
                0 <= i < rgb_samples(img).len() ==> #[trigger] rgb_samples(img)[i] == colour[i % 3],
            forall|x: int, y: int|
                0 <= x < width && 0 <= y < height ==> #[trigger] img.pixel_spec(x, y) == (
                    colour[0],
                    colour[1],
                    colour[2],
                ),
    {
        let img = buffer_from_pixel(width, height, colour);
        assert forall|x: int, y: int| 0 <= x < width && 0 <= y < height implies #[trigger] img.pixel_spec(x, y) == (colour[0], colour[1], colour[2]) by {
            let i = 3 * (y * width + x);
            assert(0 <= y * width + x < (width as int) * (height as int)) by (nonlinear_arith)
                requires
                    0 <= x < width,
                    0 <= y < height,
            ;
            assert(3 * (width as int) * (height as int) == 3 * ((width as int) * (height as int)))
                by (nonlinear_arith);
            assert(i % 3 == 0 && (i + 1) % 3 == 1 && (i + 2) % 3 == 2);
            assert(rgb_samples(img)[i] == colour[i % 3]);
            assert(rgb_samples(img)[i + 1] == colour[(i + 1) % 3]);
            assert(rgb_samples(img)[i + 2] == colour[(i + 2) % 3]);
        }
        img
    }
}

/// Calls `ImageBuffer::from_raw`, which computes `3 * width` and then
/// `3 * width * height` in `usize`, giving `None` when either overflows or
/// fewer samples are at hand, and otherwise keeps `samples` as the image's
/// data.
#[verifier::external_body]
fn buffer_from_raw(width: u32, height: u32, samples: Vec<u8>) -> (res: Option<RgbPixels>)
    ensures
        res is Some <==> (3 * (width as int) <= usize::MAX && 3 * (width as int) * (height as int)
            <= samples@.len()),
        res matches Some(img) ==> rgb_dims(img) == (width, height) && rgb_samples(img)
            == samples@,
{
    match image::ImageBuffer::from_raw(width, height, samples) {
        Some(image) => Some(RgbPixels { image }),
        None => None,
    }
}

/// Calls `ImageBuffer::into_raw`, which hands back the stored samples.
#[verifier::external_body]
fn buffer_into_raw(img: RgbPixels) -> (samples: Vec<u8>)
    ensures
        samples@ == rgb_samples(img),
{
    img.image.into_raw()
}

/// Calls `ImageBuffer::dimensions`, which returns the stored width and
/// height. Every constructor of an `ImageBuffer` checks, in `usize` and
/// without overflow, that the samples cover `3 * width * height` (computing
/// `3 * width` first), and they are held in a `Vec<u8>`, which never holds
/// more than `isize::MAX` bytes; the contract states these bounds.
#[verifier::external_body]
fn buffer_dimensions(img: &RgbPixels) -> (dims: (u32, u32))
    ensures
        dims == rgb_dims(*img),
        3 * (dims.0 as int) * (dims.1 as int) <= rgb_samples(*img).len() <= isize::MAX,
        3 * (dims.0 as int) <= usize::MAX,
{
    img.image.dimensions()
}

/// Calls `ImageBuffer::get_pixel`, which panics outside `(width, height)`
/// and otherwise reads the three samples that start at
/// `3 * (y * width + x)`; they are handed back as a tuple.
#[verifier::external_body]
fn buffer_get_pixel(img: &RgbPixels, x: u32, y: u32) -> (px: (u8, u8, u8))
    requires
        x < rgb_dims(*img).0,
        y < rgb_dims(*img).1,
    ensures
        px == pixel_at(rgb_samples(*img), rgb_dims(*img).0 as int, x as int, y as int),
{
    let p = img.image.get_pixel(x, y);
    (p.0[0], p.0[1], p.0[2])
}

/// Calls `ImageBuffer::from_pixel`, which makes a `width` by `height` image of
/// `3 * width * height` samples with every pixel set to `colour`. It panics
/// when `3 * width` or `3 * width * height` overflows a `usize`, or when that
/// many samples do not fit in a vector (more than `isize::MAX` bytes); the
/// `requires` leaves those inputs out.
#[verifier::external_body]
fn buffer_from_pixel(width: u32, height: u32, colour: [u8; 3]) -> (img: RgbPixels)
    requires
        3 * (width as int) <= usize::MAX,
        3 * (width as int) * (height as int) <= isize::MAX,
    ensures
        rgb_dims(img) == (width, height),
        rgb_samples(img).len() == 3 * (width as int) * (height as int),
        forall|i: int| 0 <= i < rgb_samples(img).len() ==> #[trigger] rgb_samples(img)[i] == colour[i % 3],
{
    RgbPixels { image: image::ImageBuffer::from_pixel(width, height, image::Rgb(colour)) }
}

} // verus!
