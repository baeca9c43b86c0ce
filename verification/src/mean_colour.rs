//! The mean colour of a whole image: for each channel, the sum of that
//! sample over every pixel divided, rounding down, by the number of pixels.
use vstd::prelude::*;
use crate::rgb_image::{channel, rgb_dims, RgbPixels};

verus! {

/// The sum of sample `c` over the first `cols` pixels of row `y`.
pub open spec fn channel_sum_in_row(img: RgbPixels, c: int, y: int, cols: int) -> nat
    decreases cols,
{
    if cols <= 0 {
        0
    } else {
        channel_sum_in_row(img, c, y, cols - 1) + channel(img.pixel_spec(cols - 1, y), c) as nat
    }
}

/// The sum of sample `c` over the first `rows` rows.
pub open spec fn channel_sum_in_rows(img: RgbPixels, c: int, rows: int) -> nat
    decreases rows,
{
    if rows <= 0 {
        0
    } else {
        channel_sum_in_rows(img, c, rows - 1) + channel_sum_in_row(
            img,
            c,
            rows - 1,
            img.width_spec() as int,
        )
    }
}

/// The sum of sample `c` over every pixel of `img`.
pub open spec fn channel_sum(img: RgbPixels, c: int) -> nat {
    channel_sum_in_rows(img, c, img.height_spec() as int)
}

/// The number of pixels of `img`.
pub open spec fn pixel_count(img: RgbPixels) -> nat {
    img.width_spec() * img.height_spec()
}

proof fn lemma_channel_sum_in_row_bound(img: RgbPixels, c: int, y: int, b: int)
    requires
        0 <= b,
    ensures
        channel_sum_in_row(img, c, y, b) <= 255 * b,
    decreases b,
{
    if b > 0 {
        lemma_channel_sum_in_row_bound(img, c, y, b - 1);
    }
}

proof fn lemma_channel_sum_in_row_monotone(img: RgbPixels, c: int, y: int, a: int, b: int)
    requires
        0 <= a <= b,
    ensures
        channel_sum_in_row(img, c, y, a) <= channel_sum_in_row(img, c, y, b),
    decreases b - a,
{
    if a < b {
        lemma_channel_sum_in_row_monotone(img, c, y, a, b - 1);
    }
}

proof fn lemma_channel_sum_in_rows_bound(img: RgbPixels, c: int, b: int)
    requires
        0 <= b,
    ensures
        channel_sum_in_rows(img, c, b) <= 255 * (b * img.width_spec()),
    decreases b,
{
    let w = img.width_spec() as int;
    if b > 0 {
        lemma_channel_sum_in_rows_bound(img, c, b - 1);
        lemma_channel_sum_in_row_bound(img, c, b - 1, w);
        assert(255 * (b * w) == 255 * ((b - 1) * w) + 255 * w) by (nonlinear_arith);
    } else {
        assert(255 * (0 * w) == 0) by (nonlinear_arith);
    }
}

proof fn lemma_channel_sum_in_rows_monotone(img: RgbPixels, c: int, a: int, b: int)
    requires
        0 <= a <= b,
    ensures
        channel_sum_in_rows(img, c, a) <= channel_sum_in_rows(img, c, b),
    decreases b - a,
{
    if a < b {
        lemma_channel_sum_in_rows_monotone(img, c, a, b - 1);
    }
}

/// No channel sums to more than 255 for each pixel.
pub proof fn lemma_channel_sum_bound(img: RgbPixels, c: int)
    ensures
        channel_sum(img, c) <= 255 * pixel_count(img),
{
    lemma_channel_sum_in_rows_bound(img, c, img.height_spec() as int);
    assert(img.height_spec() * img.width_spec() == pixel_count(img)) by (nonlinear_arith);
}

/// The sum of each sample over every pixel of `img`, in a width that cannot
/// overflow.
fn wide_channel_sums(img: &RgbPixels) -> (sums: [u128; 3])
    ensures
        sums[0] as int == channel_sum(*img, 0),
        sums[1] as int == channel_sum(*img, 1),
        sums[2] as int == channel_sum(*img, 2),
{
    let (width, height) = img.dimensions();
    let ghost w = width as int;
    let ghost h = height as int;
    let mut sums: [u128; 3] = [0, 0, 0];
    assert(w * h <= u64::MAX) by (nonlinear_arith)
        requires
            0 <= w <= u32::MAX,
            0 <= h <= u32::MAX,
    ;
    proof {
        assert(h * w == w * h) by (nonlinear_arith);
        lemma_channel_sum_bound(*img, 0);
        lemma_channel_sum_bound(*img, 1);
        lemma_channel_sum_bound(*img, 2);
    }
    let mut y: u32 = 0;
    while y < height
        invariant
            (width, height) == rgb_dims(*img),
            w == width,
            h == height,
            y <= height,
            w * h <= u64::MAX,
            forall|c: int| 0 <= c < 3 ==> #[trigger] sums@[c] == channel_sum_in_rows(*img, c, y as int),
            forall|c: int| 0 <= c < 3 ==> #[trigger] channel_sum(*img, c) <= 255 * (w * h),
        decreases height - y,
    {
        let mut x: u32 = 0;
        while x < width
            invariant
                (width, height) == rgb_dims(*img),
                w == width,
                h == height,
                y < height,
                x <= width,
                w * h <= u64::MAX,
                forall|c: int|
                    0 <= c < 3 ==> #[trigger] sums@[c] == channel_sum_in_rows(*img, c, y as int)
                        + channel_sum_in_row(*img, c, y as int, x as int),
                forall|c: int| 0 <= c < 3 ==> #[trigger] channel_sum(*img, c) <= 255 * (w * h),
            decreases width - x,
        {
            let (r, g, b) = img.pixel(x, y);
            proof {
                assert forall|c: int| 0 <= c < 3 implies channel_sum_in_rows(*img, c, y as int)
                    + channel_sum_in_row(*img, c, y as int, x + 1) <= channel_sum(*img, c) by {
                    lemma_channel_sum_in_row_monotone(*img, c, y as int, x + 1, w);
                    lemma_channel_sum_in_rows_monotone(*img, c, y + 1, h);
                }
                assert(sums@[0] + r <= channel_sum(*img, 0));
                assert(sums@[1] + g <= channel_sum(*img, 1));
                assert(sums@[2] + b <= channel_sum(*img, 2));
            }
            sums[0] = sums[0] + r as u128;
            sums[1] = sums[1] + g as u128;
            sums[2] = sums[2] + b as u128;
            x = x + 1;
        }
        y = y + 1;
    }
    assert(sums@[0] == channel_sum(*img, 0));
    assert(sums@[1] == channel_sum(*img, 1));
    assert(sums@[2] == channel_sum(*img, 2));
    sums
}

/// The number of pixels of `img`, which is positive, and each channel's sum
/// divided by it, rounding down.
fn divide_sums(img: &RgbPixels, sums: [u128; 3]) -> (colour: [u8; 3])
    requires
        pixel_count(*img) > 0,
        sums[0] as int == channel_sum(*img, 0),
        sums[1] as int == channel_sum(*img, 1),
        sums[2] as int == channel_sum(*img, 2),
    ensures
        colour[0] as int == channel_sum(*img, 0) / pixel_count(*img),
        colour[1] as int == channel_sum(*img, 1) / pixel_count(*img),
        colour[2] as int == channel_sum(*img, 2) / pixel_count(*img),
{
    let (width, height) = img.dimensions();
    assert((width as int) * (height as int) <= u64::MAX) by (nonlinear_arith)
        requires
            width <= u32::MAX,
            height <= u32::MAX,
    ;
    let num_pixels: u128 = width as u128 * height as u128;
    proof {
        assert(num_pixels as int == pixel_count(*img));
        assert forall|c: int| 0 <= c < 3 implies #[trigger] sums[c] / num_pixels <= 255 by {
            lemma_channel_sum_bound(*img, c);
            let s = sums[c] as int;
            let n = num_pixels as int;
            assert(s / n <= 255) by (nonlinear_arith)
                requires
                    0 <= s <= 255 * n,
                    n > 0,
            ;
        }
    }
    [
        (sums[0] / num_pixels) as u8,
        (sums[1] / num_pixels) as u8,
        (sums[2] / num_pixels) as u8,
    ]
}

/// The mean colour of `img`: each sample summed over every pixel and divided,
/// rounding down, by the number of pixels.
///
/// The image must not be empty, and each channel's sum must fit in a `u64`.
pub fn mean_colour(img: &RgbPixels) -> (colour: [u8; 3])
    requires
        pixel_count(*img) > 0,
        channel_sum(*img, 0) <= u64::MAX,
        channel_sum(*img, 1) <= u64::MAX,
        channel_sum(*img, 2) <= u64::MAX,
    ensures
        colour[0] as int == channel_sum(*img, 0) / pixel_count(*img),
        colour[1] as int == channel_sum(*img, 1) / pixel_count(*img),
        colour[2] as int == channel_sum(*img, 2) / pixel_count(*img),
{
    let sums = wide_channel_sums(img);
    divide_sums(img, sums)
}

/// `mean_colour` where the image is not empty and no channel's sum
/// overflows a `u64`, and `None` where not.
pub fn try_mean_colour(img: &RgbPixels) -> (colour: Option<[u8; 3]>)
    ensures
        colour is Some <==> 0 < pixel_count(*img) && channel_sum(*img, 0) <= u64::MAX
            && channel_sum(*img, 1) <= u64::MAX && channel_sum(*img, 2) <= u64::MAX,
        colour matches Some(c) ==> {
            &&& c[0] as int == channel_sum(*img, 0) / pixel_count(*img)
            &&& c[1] as int == channel_sum(*img, 1) / pixel_count(*img)
            &&& c[2] as int == channel_sum(*img, 2) / pixel_count(*img)
        },
{
    let (width, height) = img.dimensions();
    if width == 0 || height == 0 {
        assert(pixel_count(*img) == 0) by (nonlinear_arith)
            requires
                img.width_spec() == 0 || img.height_spec() == 0,
        ;
        return None;
    }
    assert(pixel_count(*img) > 0) by (nonlinear_arith)
        requires
            img.width_spec() > 0,
            img.height_spec() > 0,
    ;
    let sums = wide_channel_sums(img);
    let limit: u128 = u64::MAX as u128;
    if sums[0] <= limit && sums[1] <= limit && sums[2] <= limit {
        Some(divide_sums(img, sums))
    } else {
        None
    }
}

proof fn lemma_uniform_channel_sum_in_row(img: RgbPixels, colour: (u8, u8, u8), c: int, y: int, cols: int)
    requires
        0 <= y < img.height_spec(),
        0 <= cols <= img.width_spec(),
        forall|x: int, yy: int|
            0 <= x < img.width_spec() && 0 <= yy < img.height_spec() ==> #[trigger] img.pixel_spec(x, yy)
                == colour,
    ensures
        channel_sum_in_row(img, c, y, cols) == channel(colour, c) * cols,
    decreases cols,
{
    if cols > 0 {
        lemma_uniform_channel_sum_in_row(img, colour, c, y, cols - 1);
        assert(img.pixel_spec(cols - 1, y) == colour);
        assert(channel(colour, c) * cols == channel(colour, c) * (cols - 1) + channel(colour, c))
            by (nonlinear_arith);
    } else {
        assert(channel(colour, c) * 0 == 0);
    }
}

proof fn lemma_uniform_channel_sum_in_rows(img: RgbPixels, colour: (u8, u8, u8), c: int, rows: int)
    requires
        0 <= rows <= img.height_spec(),
        forall|x: int, yy: int|
            0 <= x < img.width_spec() && 0 <= yy < img.height_spec() ==> #[trigger] img.pixel_spec(x, yy)
                == colour,
    ensures
        channel_sum_in_rows(img, c, rows) == channel(colour, c) * (rows * img.width_spec()),
    decreases rows,
{
    let w = img.width_spec() as int;
    let v = channel(colour, c) as int;
    if rows > 0 {
        lemma_uniform_channel_sum_in_rows(img, colour, c, rows - 1);
        lemma_uniform_channel_sum_in_row(img, colour, c, rows - 1, w);
        assert(v * (rows * w) == v * ((rows - 1) * w) + v * w) by (nonlinear_arith);
    } else {
        assert(v * (0 * w) == 0) by (nonlinear_arith);
    }
}

/// The mean colour of a non-empty image whose every pixel is `colour` is
/// `colour`.
pub proof fn lemma_uniform_image_mean(img: RgbPixels, colour: (u8, u8, u8))
    requires
        pixel_count(img) > 0,
        forall|x: int, y: int|
            0 <= x < img.width_spec() && 0 <= y < img.height_spec() ==> #[trigger] img.pixel_spec(x, y)
                == colour,
    ensures
        channel_sum(img, 0) / pixel_count(img) == colour.0,
        channel_sum(img, 1) / pixel_count(img) == colour.1,
        channel_sum(img, 2) / pixel_count(img) == colour.2,
{
    let n = pixel_count(img) as int;
    assert(img.height_spec() * img.width_spec() == img.width_spec() * img.height_spec())
        by (nonlinear_arith);
    assert forall|c: int| 0 <= c < 3 implies #[trigger] channel_sum(img, c) / pixel_count(img)
        == channel(colour, c) by {
        lemma_uniform_channel_sum_in_rows(img, colour, c, img.height_spec() as int);
        let v = channel(colour, c) as int;
        assert((v * n) / n == v) by (nonlinear_arith)
            requires
                n > 0,
        ;
    }
    assert(channel_sum(img, 0) / pixel_count(img) == channel(colour, 0));
    assert(channel_sum(img, 1) / pixel_count(img) == channel(colour, 1));
    assert(channel_sum(img, 2) / pixel_count(img) == channel(colour, 2));
}


/// `a` and `b` have the same size and the same pixels except perhaps at
/// `(x0, y0)`.
spec fn differ_at_most_at(a: RgbPixels, b: RgbPixels, x0: int, y0: int) -> bool {
    &&& rgb_dims(a) == rgb_dims(b)
    &&& forall|x: int, y: int|
        0 <= x < a.width_spec() && 0 <= y < a.height_spec() && (x != x0 || y != y0)
            ==> #[trigger] a.pixel_spec(x, y) == b.pixel_spec(x, y)
}

proof fn lemma_row_sum_one_pixel(a: RgbPixels, b: RgbPixels, x0: int, y0: int, c: int, y: int, cols: int)
    requires
        differ_at_most_at(a, b, x0, y0),
        0 <= x0,
        0 <= y < a.height_spec(),
        0 <= cols <= a.width_spec(),
    ensures
        channel_sum_in_row(b, c, y, cols) - channel_sum_in_row(a, c, y, cols) == if y == y0 && x0
            < cols {
            channel(b.pixel_spec(x0, y0), c) - channel(a.pixel_spec(x0, y0), c)
        } else {
            0
        },
    decreases cols,
{
    if cols > 0 {
        lemma_row_sum_one_pixel(a, b, x0, y0, c, y, cols - 1);
        if cols - 1 != x0 || y != y0 {
            assert(a.pixel_spec(cols - 1, y) == b.pixel_spec(cols - 1, y));
        }
    }
}

proof fn lemma_rows_sum_one_pixel(a: RgbPixels, b: RgbPixels, x0: int, y0: int, c: int, rows: int)
    requires
        differ_at_most_at(a, b, x0, y0),
        0 <= x0 < a.width_spec(),
        0 <= rows <= a.height_spec(),
    ensures
        channel_sum_in_rows(b, c, rows) - channel_sum_in_rows(a, c, rows) == if y0 < rows && 0
            <= y0 {
            channel(b.pixel_spec(x0, y0), c) - channel(a.pixel_spec(x0, y0), c)
        } else {
            0
        },
    decreases rows,
{
    if rows > 0 {
        lemma_rows_sum_one_pixel(a, b, x0, y0, c, rows - 1);
        lemma_row_sum_one_pixel(a, b, x0, y0, c, rows - 1, a.width_spec() as int);
    }
}

/// Changing one pixel of an image changes each channel's sum by exactly the
/// change of that pixel's sample, and leaves the pixel count alone.
pub proof fn lemma_channel_sum_one_pixel(a: RgbPixels, b: RgbPixels, x0: int, y0: int, c: int)
    requires
        rgb_dims(a) == rgb_dims(b),
        0 <= x0 < a.width_spec(),
        0 <= y0 < a.height_spec(),
        forall|x: int, y: int|
            0 <= x < a.width_spec() && 0 <= y < a.height_spec() && (x != x0 || y != y0)
                ==> #[trigger] a.pixel_spec(x, y) == b.pixel_spec(x, y),
    ensures
        ({
            let (ra, ga, ba) = a.pixel_spec(x0, y0);
            let (rb, gb, bb) = b.pixel_spec(x0, y0);
            let before = if c == 0 {
                ra
            } else if c == 1 {
                ga
            } else {
                ba
            };
            let after = if c == 0 {
                rb
            } else if c == 1 {
                gb
            } else {
                bb
            };
            channel_sum(b, c) == channel_sum(a, c) - before + after
        }),
        pixel_count(b) == pixel_count(a),
{
    lemma_rows_sum_one_pixel(a, b, x0, y0, c, a.height_spec() as int);
}

} // verus!
