//! Border colour estimation for comic pages.
//!
//! The colour of a page's border is taken, channel by channel, as the median
//! sample over the pixels that lie within a given width of an edge. The
//! library also fills an image of the page's size with that colour, and
//! computes a page's mean colour over all of its pixels.
use vstd::prelude::*;

pub mod border_average;
pub mod mean_colour;
pub mod median;
pub mod rgb_image;

use crate::border_average::{
    border_histogram, border_pixel_count, count_border_pixels, counts_fit,
    lemma_counts_fit_from_border_bound, BorderScan,
};
use crate::median::{median_bucket, median_from_counts};
use crate::rgb_image::{rgb_dims, RgbPixels};

verus! {

/// Controls how much a single image's processing prints to stdout.
#[derive(Clone, Copy, PartialEq, Eq)]
pub enum Verbosity {
    /// Nothing is printed at all.
    Quiet,
    /// Nothing extra is printed beyond errors.
    Normal,
    /// A progress bar is shown while scanning border pixels, then the average colour.
    Verbose,
}

/// Finishes a border scan: the border colour, channel by channel the median
/// of the counts (see `border_average::calculate_average`), and, when
/// `with_output` is set, an image of the scanned image's size filled with it.
///
/// The scan must be done, and the border must hold at least one and at most
/// `u32::MAX` pixels.
pub fn finish_average(scan: BorderScan, with_output: bool) -> (res: ([u8; 3], Option<RgbPixels>))
    requires
        scan.wf(),
        scan.rows_done() == scan.image().height_spec(),
        0 < border_pixel_count(
            scan.image().width_spec() as int,
            scan.image().height_spec() as int,
            scan.border_spec(),
        ) <= u32::MAX,
    ensures
        res.0[0] as int == median_bucket(border_histogram(scan.image(), scan.border_spec(), 0)),
        res.0[1] as int == median_bucket(border_histogram(scan.image(), scan.border_spec(), 1)),
        res.0[2] as int == median_bucket(border_histogram(scan.image(), scan.border_spec(), 2)),
        res.1 is Some <==> with_output,
        res.1 matches Some(o) ==> {
            &&& rgb_dims(o) == rgb_dims(scan.image())
            &&& forall|x: int, y: int|
                0 <= x < scan.image().width_spec() && 0 <= y < scan.image().height_spec()
                    ==> #[trigger] o.pixel_spec(x, y) == (res.0[0], res.0[1], res.0[2])
        },
{
    let (width, height) = scan.dimensions();
    let (r_counts, g_counts, b_counts) = scan.into_counts();
    let colour = [
        median_from_counts(&r_counts),
        median_from_counts(&g_counts),
        median_from_counts(&b_counts),
    ];
    if with_output {
        let out = RgbPixels::filled(width, height, colour);
        (colour, Some(out))
    } else {
        (colour, None)
    }
}

/// The border colour of `img` (see `border_average::calculate_average`) and,
/// when `with_output` is set, an image of the same size filled with it.
///
/// `verbosity` and `label` only choose what is shown while scanning.
/// `None` where the image has no border pixels (it is empty or
/// `border_width` is 0) or more of them than a `u32` counts.
pub fn average_image(
    img: RgbPixels,
    border_width: u8,
    verbosity: Verbosity,
    label: &str,
    with_output: bool,
) -> (res: Option<([u8; 3], Option<RgbPixels>)>)
    ensures
        res is Some <==> 0 < border_pixel_count(
            img.width_spec() as int,
            img.height_spec() as int,
            border_width as int,
        ) <= u32::MAX,
        res matches Some((colour, out)) ==> {
            &&& colour[0] as int == median_bucket(border_histogram(img, border_width as int, 0))
            &&& colour[1] as int == median_bucket(border_histogram(img, border_width as int, 1))
            &&& colour[2] as int == median_bucket(border_histogram(img, border_width as int, 2))
            &&& out is Some <==> with_output
            &&& out matches Some(o) ==> {
                &&& rgb_dims(o) == rgb_dims(img)
                &&& forall|x: int, y: int|
                    0 <= x < img.width_spec() && 0 <= y < img.height_spec() ==> #[trigger] o.pixel_spec(
                        x,
                        y,
                    ) == (colour[0], colour[1], colour[2])
            }
        },
{
    let (width, height) = img.dimensions();
    let count = count_border_pixels(width, height, border_width as u32);
    if 0 < count && count <= u32::MAX as u64 {
        proof {
            lemma_counts_fit_from_border_bound(img, border_width as int);
        }
        let mut scan = BorderScan::new(img, border_width as u32);
        while !scan.is_done()
            invariant
                scan.wf(),
                scan.image() == img,
                scan.border_spec() == border_width,
                counts_fit(img, border_width as int),
            decreases img.height_spec() - scan.rows_done(),
        {
            scan.scan_row();
        }
        Some(finish_average(scan, with_output))
    } else {
        None
    }
}

} // verus!
