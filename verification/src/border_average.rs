//! The colour of an image's border: for each channel, the median sample over
//! the pixels that lie within `border_width` of an edge.
use vstd::prelude::*;
use crate::median::{
    lemma_majority_is_median,
    lemma_median_of_single_value, lemma_prefix_sum_zeros, lemma_total_increment,
    median_bucket, median_from_counts, total,
};
use crate::rgb_image::{channel, rgb_dims, RgbPixels};
use crate::Verbosity;

verus! {

/// Pixel `(x, y)` of a `width` by `height` image lies within `bw` of an edge.
pub open spec fn in_border(x: int, y: int, width: int, height: int, bw: int) -> bool {
    x < bw || x + bw >= width || y < bw || y + bw >= height
}

/// How many of the first `cols` pixels of row `y` are border pixels.
pub open spec fn border_count_in_row(width: int, height: int, bw: int, y: int, cols: int) -> nat
    decreases cols,
{
    if cols <= 0 {
        0
    } else {
        border_count_in_row(width, height, bw, y, cols - 1) + if in_border(
            cols - 1,
            y,
            width,
            height,
            bw,
        ) {
            1nat
        } else {
            0nat
        }
    }
}

/// How many pixels of the first `rows` rows are border pixels.
pub open spec fn border_count_in_rows(width: int, height: int, bw: int, rows: int) -> nat
    decreases rows,
{
    if rows <= 0 {
        0
    } else {
        border_count_in_rows(width, height, bw, rows - 1) + border_count_in_row(
            width,
            height,
            bw,
            rows - 1,
            width,
        )
    }
}

/// How many pixels of a `width` by `height` image lie within `bw` of an edge.
pub open spec fn border_pixel_count(width: int, height: int, bw: int) -> nat {
    border_count_in_rows(width, height, bw, height)
}

/// How many of the first `cols` pixels of row `y` of `img` are border pixels
/// whose sample `c` is `v`.
pub open spec fn value_count_in_row(img: RgbPixels, bw: int, c: int, v: int, y: int, cols: int) -> nat
    decreases cols,
{
    if cols <= 0 {
        0
    } else {
        value_count_in_row(img, bw, c, v, y, cols - 1) + if in_border(
            cols - 1,
            y,
            img.width_spec() as int,
            img.height_spec() as int,
            bw,
        ) && channel(img.pixel_spec(cols - 1, y), c) == v {
            1nat
        } else {
            0nat
        }
    }
}

/// How many pixels of the first `rows` rows of `img` are border pixels whose
/// sample `c` is `v`.
pub open spec fn value_count_in_rows(img: RgbPixels, bw: int, c: int, v: int, rows: int) -> nat
    decreases rows,
{
    if rows <= 0 {
        0
    } else {
        value_count_in_rows(img, bw, c, v, rows - 1) + value_count_in_row(
            img,
            bw,
            c,
            v,
            rows - 1,
            img.width_spec() as int,
        )
    }
}

/// How many border pixels of `img` have sample `c` equal to `v`.
pub open spec fn value_count(img: RgbPixels, bw: int, c: int, v: int) -> nat {
    value_count_in_rows(img, bw, c, v, img.height_spec() as int)
}

/// The distribution of sample `c` over the border pixels of `img`: entry `v`
/// counts the border pixels whose sample `c` is `v`.
pub open spec fn border_histogram(img: RgbPixels, bw: int, c: int) -> Seq<u32> {
    Seq::new(256, |v: int| value_count(img, bw, c, v) as u32)
}

/// Counting one value of a row never goes down as more columns are seen.
proof fn lemma_value_count_in_row_monotone(img: RgbPixels, bw: int, c: int, v: int, y: int, a: int, b: int)
    requires
        a <= b,
    ensures
        value_count_in_row(img, bw, c, v, y, a) <= value_count_in_row(img, bw, c, v, y, b),
    decreases b - a,
{
    if a < b {
        lemma_value_count_in_row_monotone(img, bw, c, v, y, a, b - 1);
    }
}

/// Counting one value never goes down as more rows are seen.
proof fn lemma_value_count_in_rows_monotone(img: RgbPixels, bw: int, c: int, v: int, a: int, b: int)
    requires
        a <= b,
    ensures
        value_count_in_rows(img, bw, c, v, a) <= value_count_in_rows(img, bw, c, v, b),
    decreases b - a,
{
    if a < b {
        lemma_value_count_in_rows_monotone(img, bw, c, v, a, b - 1);
    }
}

/// Part of a scan never counts a value more often than the whole image does.
proof fn lemma_value_scan_bound(img: RgbPixels, bw: int, c: int, v: int, y: int, x: int)
    requires
        0 <= y < img.height_spec(),
        0 <= x <= img.width_spec(),
    ensures
        value_count_in_rows(img, bw, c, v, y) + value_count_in_row(img, bw, c, v, y, x)
            <= value_count(img, bw, c, v),
{
    lemma_value_count_in_row_monotone(img, bw, c, v, y, x, img.width_spec() as int);
    lemma_value_count_in_rows_monotone(img, bw, c, v, y + 1, img.height_spec() as int);
}

proof fn lemma_value_count_in_row_at_most_border(img: RgbPixels, bw: int, c: int, v: int, y: int, cols: int)
    ensures
        value_count_in_row(img, bw, c, v, y, cols) <= border_count_in_row(
            img.width_spec() as int,
            img.height_spec() as int,
            bw,
            y,
            cols,
        ),
    decreases cols,
{
    if cols > 0 {
        lemma_value_count_in_row_at_most_border(img, bw, c, v, y, cols - 1);
    }
}

proof fn lemma_value_count_in_rows_at_most_border(img: RgbPixels, bw: int, c: int, v: int, rows: int)
    ensures
        value_count_in_rows(img, bw, c, v, rows) <= border_count_in_rows(
            img.width_spec() as int,
            img.height_spec() as int,
            bw,
            rows,
        ),
    decreases rows,
{
    if rows > 0 {
        lemma_value_count_in_rows_at_most_border(img, bw, c, v, rows - 1);
        lemma_value_count_in_row_at_most_border(img, bw, c, v, rows - 1, img.width_spec() as int);
    }
}

/// No sample value is held by more border pixels than there are.
pub proof fn lemma_value_count_at_most_border(img: RgbPixels, bw: int, c: int, v: int)
    ensures
        value_count(img, bw, c, v) <= border_pixel_count(
            img.width_spec() as int,
            img.height_spec() as int,
            bw,
        ),
{
    lemma_value_count_in_rows_at_most_border(img, bw, c, v, img.height_spec() as int);
}

/// Every count of a sample value over the border of `img` fits in a `u32`.
pub open spec fn counts_fit(img: RgbPixels, bw: int) -> bool {
    forall|c: int, v: int| 0 <= c < 3 && 0 <= v < 256 ==> #[trigger] value_count(img, bw, c, v) <= u32::MAX
}

/// A border of at most `u32::MAX` pixels has every count fit in a `u32`.
pub proof fn lemma_counts_fit_from_border_bound(img: RgbPixels, bw: int)
    requires
        border_pixel_count(img.width_spec() as int, img.height_spec() as int, bw) <= u32::MAX,
    ensures
        counts_fit(img, bw),
{
    assert forall|c: int, v: int| 0 <= c < 3 && 0 <= v < 256 implies #[trigger] value_count(
        img,
        bw,
        c,
        v,
    ) <= u32::MAX by {
        lemma_value_count_at_most_border(img, bw, c, v);
    }
}

/// A scan of the border of an image, row by row from the top, that counts
/// for each channel how many border pixels hold each sample value.
pub struct BorderScan {
    img: RgbPixels,
    border: u32,
    width: u32,
    height: u32,
    row: u32,
    red: [u32; 256],
    green: [u32; 256],
    blue: [u32; 256],
}

impl BorderScan {
    /// The image being scanned.
    pub closed spec fn image(self) -> RgbPixels {
        self.img
    }

    /// The border width.
    pub closed spec fn border_spec(self) -> int {
        self.border as int
    }

    /// How many rows have been scanned.
    pub closed spec fn rows_done(self) -> int {
        self.row as int
    }

    /// The counts are those of the border pixels of the rows scanned so far.
    pub closed spec fn wf(self) -> bool {
        &&& (self.width, self.height) == rgb_dims(self.img)
        &&& 3 * (self.width as int) * (self.height as int) <= isize::MAX
        &&& 3 * (self.width as int) <= usize::MAX
        &&& self.row <= self.height
        &&& forall|v: int|
            0 <= v < 256 ==> #[trigger] self.red@[v] == value_count_in_rows(
                self.img,
                self.border as int,
                0,
                v,
                self.row as int,
            )
        &&& forall|v: int|
            0 <= v < 256 ==> #[trigger] self.green@[v] == value_count_in_rows(
                self.img,
                self.border as int,
                1,
                v,
                self.row as int,
            )
        &&& forall|v: int|
            0 <= v < 256 ==> #[trigger] self.blue@[v] == value_count_in_rows(
                self.img,
                self.border as int,
                2,
                v,
                self.row as int,
            )
        &&& total(self.red@) == border_count_in_rows(
            self.width as int,
            self.height as int,
            self.border as int,
            self.row as int,
        )
        &&& total(self.green@) == total(self.red@)
        &&& total(self.blue@) == total(self.red@)
    }

    /// Starts a scan of `img` for a border `border` pixels wide, with no row
    /// scanned yet.
    pub fn new(img: RgbPixels, border: u32) -> (scan: BorderScan)
        ensures
            scan.wf(),
            scan.image() == img,
            scan.border_spec() == border,
            scan.rows_done() == 0,
    {
        let red = [0u32; 256];
        let green = [0u32; 256];
        let blue = [0u32; 256];
        let (width, height) = img.dimensions();
        proof {
            assert forall|v: int| 0 <= v < 256 implies red@[v] == 0 && green@[v] == 0 && blue@[v]
                == 0 by {}
            lemma_prefix_sum_zeros(red@, 256);
            lemma_prefix_sum_zeros(green@, 256);
            lemma_prefix_sum_zeros(blue@, 256);
        }
        BorderScan { img, border, width, height, row: 0, red, green, blue }
    }

    /// The `(width, height)` of the image being scanned.
    pub fn dimensions(&self) -> (dims: (u32, u32))
        requires
            self.wf(),
        ensures
            dims == rgb_dims(self.image()),
            3 * (dims.0 as int) * (dims.1 as int) <= isize::MAX,
            3 * (dims.0 as int) <= usize::MAX,
    {
        (self.width, self.height)
    }

    /// Whether every row has been scanned.
    pub fn is_done(&self) -> (done: bool)
        requires
            self.wf(),
        ensures
            done == (self.rows_done() == self.image().height_spec()),
            self.rows_done() <= self.image().height_spec(),
    {
        self.row == self.height
    }

    /// Scans the next row, counting each of its border pixels, and returns
    /// how many pixels it visited (the image's width). Every count of the
    /// whole border must fit in a `u32`.
    pub fn scan_row(&mut self) -> (visited: u32)
        requires
            old(self).wf(),
            old(self).rows_done() < old(self).image().height_spec(),
            counts_fit(old(self).image(), old(self).border_spec()),
        ensures
            final(self).wf(),
            final(self).image() == old(self).image(),
            final(self).border_spec() == old(self).border_spec(),
            final(self).rows_done() == old(self).rows_done() + 1,
            visited == old(self).image().width_spec(),
    {
        let w = self.border;
        let width = self.width;
        let height = self.height;
        let y = self.row;
        let mut r_counts = self.red;
        let mut g_counts = self.green;
        let mut b_counts = self.blue;
        let ghost img = self.img;
        let ghost wi = width as int;
        let ghost hi = height as int;
        let ghost bw = w as int;

        let mut x: u32 = 0;
        while x < width
            invariant
                (width, height) == rgb_dims(img),
                img == self.img,
                wi == width,
                hi == height,
                bw == w,
                y < height,
                x <= width,
                counts_fit(img, bw),
                forall|v: int|
                    0 <= v < 256 ==> #[trigger] r_counts@[v] == value_count_in_rows(img, bw, 0, v, y as int)
                        + value_count_in_row(img, bw, 0, v, y as int, x as int),
                forall|v: int|
                    0 <= v < 256 ==> #[trigger] g_counts@[v] == value_count_in_rows(img, bw, 1, v, y as int)
                        + value_count_in_row(img, bw, 1, v, y as int, x as int),
                forall|v: int|
                    0 <= v < 256 ==> #[trigger] b_counts@[v] == value_count_in_rows(img, bw, 2, v, y as int)
                        + value_count_in_row(img, bw, 2, v, y as int, x as int),
                total(r_counts@) == border_count_in_rows(wi, hi, bw, y as int) + border_count_in_row(wi, hi, bw, y as int, x as int),
                total(g_counts@) == total(r_counts@),
                total(b_counts@) == total(r_counts@),
            decreases width - x,
        {
            let is_border = x < w || x >= (width - w) || y < w || y >= (height - w);
            assert(is_border == in_border(x as int, y as int, wi, hi, bw));

            let (r, g, b) = self.img.pixel(x, y);

            if is_border {
                proof {
                    lemma_value_scan_bound(img, bw, 0, r as int, y as int, x as int + 1);
                    lemma_value_scan_bound(img, bw, 1, g as int, y as int, x as int + 1);
                    lemma_value_scan_bound(img, bw, 2, b as int, y as int, x as int + 1);
                    assert(value_count(img, bw, 0, r as int) <= u32::MAX);
                    assert(value_count(img, bw, 1, g as int) <= u32::MAX);
                    assert(value_count(img, bw, 2, b as int) <= u32::MAX);
                    lemma_total_increment(r_counts@, r as int);
                    lemma_total_increment(g_counts@, g as int);
                    lemma_total_increment(b_counts@, b as int);
                }
                r_counts[r as usize] = r_counts[r as usize] + 1;
                g_counts[g as usize] = g_counts[g as usize] + 1;
                b_counts[b as usize] = b_counts[b as usize] + 1;
            }
            x = x + 1;
        }
        self.red = r_counts;
        self.green = g_counts;
        self.blue = b_counts;
        self.row = y + 1;
        width
    }

    /// The counts of a finished scan: for each channel, entry `v` counts the
    /// border pixels whose sample is `v`; each channel's counts add up to the
    /// number of border pixels.
    pub fn into_counts(self) -> (counts: ([u32; 256], [u32; 256], [u32; 256]))
        requires
            self.wf(),
            self.rows_done() == self.image().height_spec(),
        ensures
            counts.0@ == border_histogram(self.image(), self.border_spec(), 0),
            counts.1@ == border_histogram(self.image(), self.border_spec(), 1),
            counts.2@ == border_histogram(self.image(), self.border_spec(), 2),
            total(counts.0@) == border_pixel_count(
                self.image().width_spec() as int,
                self.image().height_spec() as int,
                self.border_spec(),
            ),
            total(counts.1@) == total(counts.0@),
            total(counts.2@) == total(counts.0@),
    {
        let ghost img = self.img;
        let ghost bw = self.border as int;
        assert(self.red@ =~= border_histogram(img, bw, 0));
        assert(self.green@ =~= border_histogram(img, bw, 1));
        assert(self.blue@ =~= border_histogram(img, bw, 2));
        (self.red, self.green, self.blue)
    }
}

/// Counts, for each channel, how many border pixels of `img` hold each sample
/// value. A pixel is a border pixel when it lies within `w` of an edge; a
/// border wider than the image makes every pixel a border pixel.
///
/// `verbosity` and `label` only choose what is shown while scanning, never
/// what is counted. Each count must fit in a `u32`.
pub fn border_arr(img: RgbPixels, w: u32, verbosity: Verbosity, label: &str) -> (counts: (
    [u32; 256],
    [u32; 256],
    [u32; 256],
))
    requires
        counts_fit(img, w as int),
    ensures
        counts.0@ == border_histogram(img, w as int, 0),
        counts.1@ == border_histogram(img, w as int, 1),
        counts.2@ == border_histogram(img, w as int, 2),
        total(counts.0@) == border_pixel_count(
            img.width_spec() as int,
            img.height_spec() as int,
            w as int,
        ),
        total(counts.1@) == total(counts.0@),
        total(counts.2@) == total(counts.0@),
{
    let mut scan = BorderScan::new(img, w);
    while !scan.is_done()
        invariant
            scan.wf(),
            scan.image() == img,
            scan.border_spec() == w,
            counts_fit(img, w as int),
        decreases img.height_spec() - scan.rows_done(),
    {
        scan.scan_row();
    }
    scan.into_counts()
}

/// The number of pixels of a `width` by `height` image that lie within
/// `border` of an edge.
pub fn count_border_pixels(width: u32, height: u32, border: u32) -> (n: u64)
    ensures
        n == border_pixel_count(width as int, height as int, border as int),
{
    let double: u64 = 2 * (border as u64);
    let iw: u64 = if (width as u64) > double {
        width as u64 - double
    } else {
        0
    };
    let ih: u64 = if (height as u64) > double {
        height as u64 - double
    } else {
        0
    };
    assert((width as int) * (height as int) <= u64::MAX) by (nonlinear_arith)
        requires
            width <= u32::MAX,
            height <= u32::MAX,
    ;
    assert((iw as int) * (ih as int) <= (width as int) * (height as int)) by (nonlinear_arith)
        requires
            iw <= width,
            ih <= height,
    ;
    let all: u64 = width as u64 * height as u64;
    let interior: u64 = iw * ih;
    proof {
        lemma_border_pixel_count_formula(width as int, height as int, border as int);
        assert(iw == interior_len(width as int, border as int));
        assert(ih == interior_len(height as int, border as int));
    }
    all - interior
}

/// How many of the positions `0 .. upto` of a line `len` long lie at least
/// `bw` away from both of its ends.
pub open spec fn interior_span(len: int, bw: int, upto: int) -> int {
    let hi = if upto < len - bw {
        upto
    } else {
        len - bw
    };
    if hi - bw > 0 {
        hi - bw
    } else {
        0
    }
}

/// How many positions of a line `len` long lie at least `bw` away from both
/// of its ends.
pub open spec fn interior_len(len: int, bw: int) -> int {
    if len - 2 * bw > 0 {
        len - 2 * bw
    } else {
        0
    }
}

proof fn lemma_border_count_in_row_closed(width: int, height: int, bw: int, y: int, cols: int)
    requires
        bw >= 0,
        cols >= 0,
    ensures
        border_count_in_row(width, height, bw, y, cols) == if y < bw || y + bw >= height {
            cols
        } else {
            cols - interior_span(width, bw, cols)
        },
    decreases cols,
{
    if cols > 0 {
        lemma_border_count_in_row_closed(width, height, bw, y, cols - 1);
    }
}

proof fn lemma_border_count_in_rows_closed(width: int, height: int, bw: int, rows: int)
    requires
        bw >= 0,
        width >= 0,
        rows >= 0,
    ensures
        border_count_in_rows(width, height, bw, rows) == rows * width - interior_span(
            height,
            bw,
            rows,
        ) * interior_span(width, bw, width),
    decreases rows,
{
    if rows > 0 {
        lemma_border_count_in_rows_closed(width, height, bw, rows - 1);
        lemma_border_count_in_row_closed(width, height, bw, rows - 1, width);
        let iw = interior_span(width, bw, width);
        let s0 = interior_span(height, bw, rows - 1);
        let s1 = interior_span(height, bw, rows);
        assert(rows * width == (rows - 1) * width + width) by (nonlinear_arith);
        assert(border_count_in_rows(width, height, bw, rows) == border_count_in_rows(
            width,
            height,
            bw,
            rows - 1,
        ) + border_count_in_row(width, height, bw, rows - 1, width));
        if rows - 1 < bw || rows - 1 + bw >= height {
            assert(s1 == s0);
            assert(s1 * iw == s0 * iw);
        } else {
            assert(s1 == s0 + 1);
            assert(s1 * iw == s0 * iw + iw) by (nonlinear_arith)
                requires
                    s1 == s0 + 1,
            ;
        }
    } else {
        assert(interior_span(height, bw, 0) == 0);
        assert(0 * width == 0);
        assert(0 * interior_span(width, bw, width) == 0);
    }
}

/// The border of a `width` by `height` image is the whole image less the
/// rectangle of pixels that lie at least `bw` away from every edge.
pub proof fn lemma_border_pixel_count_formula(width: int, height: int, bw: int)
    requires
        width >= 0,
        height >= 0,
        bw >= 0,
    ensures
        border_pixel_count(width, height, bw) == width * height - interior_len(width, bw)
            * interior_len(height, bw),
{
    lemma_border_count_in_rows_closed(width, height, bw, height);
    assert(interior_span(width, bw, width) == interior_len(width, bw));
    assert(interior_span(height, bw, height) == interior_len(height, bw));
    assert(height * width == width * height) by (nonlinear_arith);
    assert(interior_len(height, bw) * interior_len(width, bw) == interior_len(width, bw)
        * interior_len(height, bw)) by (nonlinear_arith);
}

/// A border at least half as wide as the image, in either direction, takes
/// in every pixel.
pub proof fn lemma_wide_border_takes_every_pixel(width: int, height: int, bw: int)
    requires
        width >= 0,
        height >= 0,
        bw >= 0,
        2 * bw >= width || 2 * bw >= height,
    ensures
        border_pixel_count(width, height, bw) == width * height,
{
    lemma_border_pixel_count_formula(width, height, bw);
    assert(interior_len(width, bw) == 0 || interior_len(height, bw) == 0);
    assert(interior_len(width, bw) * interior_len(height, bw) == 0) by (nonlinear_arith)
        requires
            interior_len(width, bw) == 0 || interior_len(height, bw) == 0,
    ;
}

/// An image has border pixels exactly when it is not empty and the border
/// is at least one pixel wide.
pub proof fn lemma_border_nonempty(width: int, height: int, bw: int)
    requires
        width >= 0,
        height >= 0,
        bw >= 0,
    ensures
        border_pixel_count(width, height, bw) > 0 <==> (width > 0 && height > 0 && bw > 0),
{
    lemma_border_pixel_count_formula(width, height, bw);
    let iw = interior_len(width, bw);
    let ih = interior_len(height, bw);
    if width > 0 && height > 0 && bw > 0 {
        assert(0 <= iw < width && 0 <= ih <= height);
        assert(iw * ih < width * height) by (nonlinear_arith)
            requires
                0 <= iw < width,
                0 <= ih <= height,
                height > 0,
        ;
    } else if bw == 0 {
        assert(iw == width && ih == height);
    } else if width == 0 {
        assert(iw == 0);
        assert(width * height == 0);
    } else {
        assert(ih == 0);
        assert(width * height == 0) by (nonlinear_arith)
            requires
                height == 0,
        ;
        assert(iw * ih == 0) by (nonlinear_arith)
            requires
                ih == 0,
        ;
    }
}

/// The colour of the border of `img`: for red, green and blue in turn, the
/// median of that sample over the pixels within `border_width` of an edge.
///
/// There must be border pixels (the image is not empty and the border is at
/// least one pixel wide), and their number must fit in a `u32`.
pub fn calculate_average(img: RgbPixels, border_width: u8, verbosity: Verbosity, label: &str) -> (colour: [u8; 3])
    requires
        0 < border_pixel_count(img.width_spec() as int, img.height_spec() as int, border_width as int)
            <= u32::MAX,
    ensures
        colour[0] as int == median_bucket(border_histogram(img, border_width as int, 0)),
        colour[1] as int == median_bucket(border_histogram(img, border_width as int, 1)),
        colour[2] as int == median_bucket(border_histogram(img, border_width as int, 2)),
{
    proof {
        lemma_counts_fit_from_border_bound(img, border_width as int);
    }
    let (r_counts, g_counts, b_counts) = border_arr(img, border_width as u32, verbosity, label);
    let r = median_from_counts(&r_counts);
    let g = median_from_counts(&g_counts);
    let b = median_from_counts(&b_counts);
    [r, g, b]
}

/// `calculate_average` where the image has border pixels and their number
/// fits in a `u32`, and `None` where it does not.
pub fn try_calculate_average(img: RgbPixels, border_width: u8, verbosity: Verbosity, label: &str) -> (colour: Option<[u8; 3]>)
    ensures
        colour is Some <==> 0 < border_pixel_count(
            img.width_spec() as int,
            img.height_spec() as int,
            border_width as int,
        ) <= u32::MAX,
        colour matches Some(c) ==> {
            &&& c[0] as int == median_bucket(border_histogram(img, border_width as int, 0))
            &&& c[1] as int == median_bucket(border_histogram(img, border_width as int, 1))
            &&& c[2] as int == median_bucket(border_histogram(img, border_width as int, 2))
        },
{
    let (width, height) = img.dimensions();
    let count = count_border_pixels(width, height, border_width as u32);
    if 0 < count && count <= u32::MAX as u64 {
        Some(calculate_average(img, border_width, verbosity, label))
    } else {
        None
    }
}


/// Every border pixel of `img` is `colour`.
pub open spec fn border_is_uniform(img: RgbPixels, bw: int, colour: (u8, u8, u8)) -> bool {
    forall|x: int, y: int|
        0 <= x < img.width_spec() && 0 <= y < img.height_spec() && in_border(
            x,
            y,
            img.width_spec() as int,
            img.height_spec() as int,
            bw,
        ) ==> #[trigger] img.pixel_spec(x, y) == colour
}

proof fn lemma_uniform_value_count_in_row(
    img: RgbPixels,
    bw: int,
    colour: (u8, u8, u8),
    c: int,
    v: int,
    y: int,
    cols: int,
)
    requires
        border_is_uniform(img, bw, colour),
        0 <= y < img.height_spec(),
        0 <= cols <= img.width_spec(),
    ensures
        value_count_in_row(img, bw, c, v, y, cols) == if v == channel(colour, c) as int {
            border_count_in_row(img.width_spec() as int, img.height_spec() as int, bw, y, cols)
        } else {
            0
        },
    decreases cols,
{
    if cols > 0 {
        lemma_uniform_value_count_in_row(img, bw, colour, c, v, y, cols - 1);
        if in_border(cols - 1, y, img.width_spec() as int, img.height_spec() as int, bw) {
            assert(img.pixel_spec(cols - 1, y) == colour);
        }
    }
}

proof fn lemma_uniform_value_count_in_rows(
    img: RgbPixels,
    bw: int,
    colour: (u8, u8, u8),
    c: int,
    v: int,
    rows: int,
)
    requires
        border_is_uniform(img, bw, colour),
        0 <= rows <= img.height_spec(),
    ensures
        value_count_in_rows(img, bw, c, v, rows) == if v == channel(colour, c) as int {
            border_count_in_rows(img.width_spec() as int, img.height_spec() as int, bw, rows)
        } else {
            0
        },
    decreases rows,
{
    if rows > 0 {
        lemma_uniform_value_count_in_rows(img, bw, colour, c, v, rows - 1);
        lemma_uniform_value_count_in_row(img, bw, colour, c, v, rows - 1, img.width_spec() as int);
    }
}

proof fn lemma_uniform_channel_median(img: RgbPixels, bw: int, colour: (u8, u8, u8), c: int)
    requires
        border_is_uniform(img, bw, colour),
        0 < border_pixel_count(img.width_spec() as int, img.height_spec() as int, bw) <= u32::MAX,
    ensures
        median_bucket(border_histogram(img, bw, c)) == channel(colour, c),
{
    let h = border_histogram(img, bw, c);
    let v0 = channel(colour, c) as int;
    assert forall|v: int| 0 <= v < 256 implies h[v] == if v == v0 {
        border_pixel_count(img.width_spec() as int, img.height_spec() as int, bw)
    } else {
        0
    } by {
        lemma_uniform_value_count_in_rows(img, bw, colour, c, v, img.height_spec() as int);
    }
    lemma_median_of_single_value(h, v0);
}

/// When every border pixel has the same colour, that colour is the border's
/// median colour, channel by channel.
pub proof fn lemma_uniform_border_median(img: RgbPixels, bw: int, colour: (u8, u8, u8))
    requires
        border_is_uniform(img, bw, colour),
        0 < border_pixel_count(img.width_spec() as int, img.height_spec() as int, bw) <= u32::MAX,
    ensures
        median_bucket(border_histogram(img, bw, 0)) == colour.0,
        median_bucket(border_histogram(img, bw, 1)) == colour.1,
        median_bucket(border_histogram(img, bw, 2)) == colour.2,
{
    lemma_uniform_channel_median(img, bw, colour, 0);
    lemma_uniform_channel_median(img, bw, colour, 1);
    lemma_uniform_channel_median(img, bw, colour, 2);
}


/// Pixel `(x, y)` of `img` is a border pixel whose sample `c` is `v`.
spec fn counted_pixel(img: RgbPixels, bw: int, c: int, v: int, x: int, y: int) -> bool {
    &&& 0 <= x < img.width_spec()
    &&& 0 <= y < img.height_spec()
    &&& in_border(x, y, img.width_spec() as int, img.height_spec() as int, bw)
    &&& channel(img.pixel_spec(x, y), c) == v
}

spec fn counted_in_row(img: RgbPixels, bw: int, c: int, v: int, y: int, cols: int) -> Set<(int, int)> {
    Set::new(|p: (int, int)| p.1 == y && p.0 < cols && counted_pixel(img, bw, c, v, p.0, p.1))
}

spec fn counted_in_rows(img: RgbPixels, bw: int, c: int, v: int, rows: int) -> Set<(int, int)> {
    Set::new(|p: (int, int)| p.1 < rows && counted_pixel(img, bw, c, v, p.0, p.1))
}

proof fn lemma_counted_in_row(img: RgbPixels, bw: int, c: int, v: int, y: int, cols: int)
    requires
        0 <= y < img.height_spec(),
        0 <= cols <= img.width_spec(),
    ensures
        counted_in_row(img, bw, c, v, y, cols).finite(),
        counted_in_row(img, bw, c, v, y, cols).len() == value_count_in_row(img, bw, c, v, y, cols),
    decreases cols,
{
    broadcast use vstd::set::group_set_axioms;

    if cols == 0 {
        assert(counted_in_row(img, bw, c, v, y, cols) =~= Set::empty());
    } else {
        lemma_counted_in_row(img, bw, c, v, y, cols - 1);
        let prev = counted_in_row(img, bw, c, v, y, cols - 1);
        let p = (cols - 1, y);
        assert(!prev.contains(p));
        if counted_pixel(img, bw, c, v, cols - 1, y) {
            assert(counted_in_row(img, bw, c, v, y, cols) =~= prev.insert(p));
        } else {
            assert(counted_in_row(img, bw, c, v, y, cols) =~= prev);
        }
    }
}

proof fn lemma_counted_in_rows(img: RgbPixels, bw: int, c: int, v: int, rows: int)
    requires
        0 <= rows <= img.height_spec(),
    ensures
        counted_in_rows(img, bw, c, v, rows).finite(),
        counted_in_rows(img, bw, c, v, rows).len() == value_count_in_rows(img, bw, c, v, rows),
    decreases rows,
{
    broadcast use vstd::set::group_set_axioms;

    if rows == 0 {
        assert(counted_in_rows(img, bw, c, v, rows) =~= Set::empty());
    } else {
        lemma_counted_in_rows(img, bw, c, v, rows - 1);
        lemma_counted_in_row(img, bw, c, v, rows - 1, img.width_spec() as int);
        let a = counted_in_rows(img, bw, c, v, rows - 1);
        let b = counted_in_row(img, bw, c, v, rows - 1, img.width_spec() as int);
        assert(counted_in_rows(img, bw, c, v, rows) =~= a + b);
        assert(a.disjoint(b));
        vstd::set_lib::lemma_set_disjoint_lens(a, b);
    }
}

/// The count of sample value `v` in channel `c` over the border of `img` is
/// the number of pixels `(x, y)` of the image that lie within `bw` of an edge
/// and whose own sample `c` is `v`; where it fits in a `u32`, that number is
/// entry `v` of the channel's border histogram.
pub proof fn lemma_border_histogram_counts_each_pixel(img: RgbPixels, bw: int, c: int, v: int)
    requires
        0 <= v < 256,
    ensures
        ({
            let w = img.width_spec() as int;
            let h = img.height_spec() as int;
            let pixels = Set::new(
                |p: (int, int)|
                    {
                        let (x, y) = p;
                        let (r, g, b) = img.pixel_spec(x, y);
                        &&& 0 <= x < w
                        &&& 0 <= y < h
                        &&& (x < bw || x + bw >= w || y < bw || y + bw >= h)
                        &&& (if c == 0 {
                            r
                        } else if c == 1 {
                            g
                        } else {
                            b
                        }) == v
                    },
            );
            &&& pixels.finite()
            &&& value_count(img, bw, c, v) == pixels.len()
            &&& pixels.len() <= u32::MAX ==> border_histogram(img, bw, c)[v] == pixels.len()
        }),
{
    lemma_counted_in_rows(img, bw, c, v, img.height_spec() as int);
    let w = img.width_spec() as int;
    let h = img.height_spec() as int;
    let pixels = Set::new(
        |p: (int, int)|
            {
                let (x, y) = p;
                let (r, g, b) = img.pixel_spec(x, y);
                &&& 0 <= x < w
                &&& 0 <= y < h
                &&& (x < bw || x + bw >= w || y < bw || y + bw >= h)
                &&& (if c == 0 {
                    r
                } else if c == 1 {
                    g
                } else {
                    b
                }) == v
            },
    );
    assert(pixels =~= counted_in_rows(img, bw, c, v, h));
}


spec fn border_in_row(width: int, height: int, bw: int, y: int, cols: int) -> Set<(int, int)> {
    Set::new(
        |p: (int, int)|
            p.1 == y && 0 <= p.0 < cols && 0 <= p.1 < height && in_border(
                p.0,
                p.1,
                width,
                height,
                bw,
            ),
    )
}

spec fn border_in_rows(width: int, height: int, bw: int, rows: int) -> Set<(int, int)> {
    Set::new(
        |p: (int, int)|
            0 <= p.1 < rows && 0 <= p.1 < height && 0 <= p.0 < width && in_border(
                p.0,
                p.1,
                width,
                height,
                bw,
            ),
    )
}

proof fn lemma_border_in_row(width: int, height: int, bw: int, y: int, cols: int)
    requires
        0 <= y < height,
        0 <= cols,
    ensures
        border_in_row(width, height, bw, y, cols).finite(),
        border_in_row(width, height, bw, y, cols).len() == border_count_in_row(
            width,
            height,
            bw,
            y,
            cols,
        ),
    decreases cols,
{
    broadcast use vstd::set::group_set_axioms;

    if cols == 0 {
        assert(border_in_row(width, height, bw, y, cols) =~= Set::empty());
    } else {
        lemma_border_in_row(width, height, bw, y, cols - 1);
        let prev = border_in_row(width, height, bw, y, cols - 1);
        let p = (cols - 1, y);
        assert(!prev.contains(p));
        if in_border(cols - 1, y, width, height, bw) {
            assert(border_in_row(width, height, bw, y, cols) =~= prev.insert(p));
        } else {
            assert(border_in_row(width, height, bw, y, cols) =~= prev);
        }
    }
}

proof fn lemma_border_in_rows(width: int, height: int, bw: int, rows: int)
    requires
        0 <= rows <= height,
        0 <= width,
    ensures
        border_in_rows(width, height, bw, rows).finite(),
        border_in_rows(width, height, bw, rows).len() == border_count_in_rows(
            width,
            height,
            bw,
            rows,
        ),
    decreases rows,
{
    broadcast use vstd::set::group_set_axioms;

    if rows == 0 {
        assert(border_in_rows(width, height, bw, rows) =~= Set::empty());
    } else {
        lemma_border_in_rows(width, height, bw, rows - 1);
        lemma_border_in_row(width, height, bw, rows - 1, width);
        let a = border_in_rows(width, height, bw, rows - 1);
        let b = border_in_row(width, height, bw, rows - 1, width);
        assert(border_in_rows(width, height, bw, rows) =~= a + b);
        assert(a.disjoint(b));
        vstd::set_lib::lemma_set_disjoint_lens(a, b);
    }
}

/// The number of border pixels of a `width` by `height` image is the number
/// of its pixels `(x, y)` that lie within `bw` of an edge.
pub proof fn lemma_border_pixel_count_counts_each_pixel(width: int, height: int, bw: int)
    requires
        0 <= width,
        0 <= height,
    ensures
        ({
            let pixels = Set::new(
                |p: (int, int)|
                    {
                        let (x, y) = p;
                        &&& 0 <= x < width
                        &&& 0 <= y < height
                        &&& (x < bw || x + bw >= width || y < bw || y + bw >= height)
                    },
            );
            &&& pixels.finite()
            &&& border_pixel_count(width, height, bw) == pixels.len()
        }),
{
    lemma_border_in_rows(width, height, bw, height);
    let pixels = Set::new(
        |p: (int, int)|
            {
                let (x, y) = p;
                &&& 0 <= x < width
                &&& 0 <= y < height
                &&& (x < bw || x + bw >= width || y < bw || y + bw >= height)
            },
    );
    assert(pixels =~= border_in_rows(width, height, bw, height));
}

/// The histogram of the border pixels seen so far in a scan, up to column
/// `x` of row `y`.
spec fn partial_histogram(img: RgbPixels, bw: int, c: int, y: int, x: int) -> Seq<u32> {
    Seq::new(
        256,
        |v: int| (value_count_in_rows(img, bw, c, v, y) + value_count_in_row(img, bw, c, v, y, x)) as u32,
    )
}

proof fn lemma_partial_histogram_total(img: RgbPixels, bw: int, c: int, y: int, x: int)
    requires
        0 <= c < 3,
        0 <= y < img.height_spec(),
        0 <= x <= img.width_spec(),
        counts_fit(img, bw),
    ensures
        total(partial_histogram(img, bw, c, y, x)) == border_count_in_rows(
            img.width_spec() as int,
            img.height_spec() as int,
            bw,
            y,
        ) + border_count_in_row(img.width_spec() as int, img.height_spec() as int, bw, y, x),
    decreases y, x,
{
    let w = img.width_spec() as int;
    let h = img.height_spec() as int;
    if x > 0 {
        lemma_partial_histogram_total(img, bw, c, y, x - 1);
        let prev = partial_histogram(img, bw, c, y, x - 1);
        let cur = partial_histogram(img, bw, c, y, x);
        if in_border(x - 1, y, w, h, bw) {
            let k = channel(img.pixel_spec(x - 1, y), c) as int;
            lemma_value_scan_bound(img, bw, c, k, y, x);
            assert(value_count(img, bw, c, k) <= u32::MAX);
            assert(cur =~= prev.update(k, (prev[k] + 1) as u32));
            lemma_total_increment(prev, k);
        } else {
            assert(cur =~= prev);
        }
    } else if y > 0 {
        lemma_partial_histogram_total(img, bw, c, y - 1, w);
        assert(partial_histogram(img, bw, c, y, 0) =~= partial_histogram(img, bw, c, y - 1, w));
    } else {
        let zero = partial_histogram(img, bw, c, 0, 0);
        assert forall|i: int| 0 <= i < 256 implies zero[i] == 0 by {}
        lemma_prefix_sum_zeros(zero, 256);
    }
}

/// Each channel's border histogram adds up to the number of border pixels,
/// whenever every count fits in a `u32`.
pub proof fn lemma_border_histogram_total(img: RgbPixels, bw: int, c: int)
    requires
        0 <= c < 3,
        counts_fit(img, bw),
    ensures
        total(border_histogram(img, bw, c)) == border_pixel_count(
            img.width_spec() as int,
            img.height_spec() as int,
            bw,
        ),
{
    let h = img.height_spec() as int;
    if h == 0 {
        let hist = border_histogram(img, bw, c);
        assert forall|i: int| 0 <= i < 256 implies hist[i] == 0 by {}
        lemma_prefix_sum_zeros(hist, 256);
    } else {
        lemma_partial_histogram_total(img, bw, c, h - 1, img.width_spec() as int);
        assert(border_histogram(img, bw, c) =~= partial_histogram(
            img,
            bw,
            c,
            h - 1,
            img.width_spec() as int,
        ));
    }
}

/// When more than half of the border pixels of `img` hold the sample `v` in
/// channel `c`, the border colour's channel `c` is `v`.
pub proof fn lemma_border_majority_colour(img: RgbPixels, bw: int, c: int, v: int)
    requires
        0 <= c < 3,
        0 <= v < 256,
        ({
            let w = img.width_spec() as int;
            let h = img.height_spec() as int;
            let border = Set::new(
                |p: (int, int)|
                    {
                        let (x, y) = p;
                        &&& 0 <= x < w
                        &&& 0 <= y < h
                        &&& (x < bw || x + bw >= w || y < bw || y + bw >= h)
                    },
            );
            let holding = Set::new(
                |p: (int, int)|
                    {
                        let (x, y) = p;
                        let (r, g, b) = img.pixel_spec(x, y);
                        &&& 0 <= x < w
                        &&& 0 <= y < h
                        &&& (x < bw || x + bw >= w || y < bw || y + bw >= h)
                        &&& (if c == 0 {
                            r
                        } else if c == 1 {
                            g
                        } else {
                            b
                        }) == v
                    },
            );
            &&& border.len() <= u32::MAX
            &&& 2 * holding.len() > border.len()
        }),
    ensures
        median_bucket(border_histogram(img, bw, c)) == v,
{
    let w = img.width_spec() as int;
    let h = img.height_spec() as int;
    lemma_border_pixel_count_counts_each_pixel(w, h, bw);
    lemma_border_histogram_counts_each_pixel(img, bw, c, v);
    lemma_counts_fit_from_border_bound(img, bw);
    lemma_border_histogram_total(img, bw, c);
    lemma_majority_is_median(border_histogram(img, bw, c), v);
}

} // verus!
