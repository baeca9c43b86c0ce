use gutter_detection::border_average::{
    border_arr, calculate_average, count_border_pixels, try_calculate_average, BorderScan,
};
use gutter_detection::rgb_image::RgbPixels;
use gutter_detection::Verbosity;
use image::{Rgb, RgbImage};

// Builds a `width` x `height` image where every pixel outside the given
// border width is `interior_colour`, and every pixel within it is
// `border_colour`.
fn bordered_image(
    width: u32,
    height: u32,
    border_width: u32,
    border_colour: Rgb<u8>,
    interior_colour: Rgb<u8>,
) -> RgbPixels {
    let img = RgbImage::from_fn(width, height, |x, y| {
        let is_border = x < border_width
            || x >= width.saturating_sub(border_width)
            || y < border_width
            || y >= height.saturating_sub(border_width);
        if is_border { border_colour } else { interior_colour }
    });
    to_pixels(img)
}

fn to_pixels(img: RgbImage) -> RgbPixels {
    let (width, height) = img.dimensions();
    RgbPixels::from_samples(width, height, img.into_raw()).unwrap()
}

#[test]
// ensures only border pixels are counted and not interior pixels
fn counts_only_border_pixels() {
    let border = Rgb([10, 20, 30]);
    let interior = Rgb([200, 200, 200]);
    let img = bordered_image(4, 4, 1, border, interior);

    let (r, g, b) = border_arr(img, 1, Verbosity::Quiet, "test");

    // 4x4 image, border_width 1 -> interior is the 2x2 centre (4 pixels),
    // so 12 of the 16 pixels are border.
    assert_eq!(r[10], 12);
    assert_eq!(g[20], 12);
    assert_eq!(b[30], 12);
    // interior colour must not be counted at all
    assert_eq!(r[200], 0);
}

#[test]
// ensures correct number of pixels are counted as border
fn boundary_pixels_are_classified_correctly() {
    // 5x5, border_width 2 -> interior is exactly the single centre pixel (2,2).
    let border = Rgb([1, 1, 1]);
    let interior = Rgb([99, 99, 99]);
    let img = bordered_image(5, 5, 2, border, interior);

    let (r, _, _) = border_arr(img, 2, Verbosity::Quiet, "test");

    assert_eq!(r[1], 24); // everything except the one centre pixel
    assert_eq!(r[99], 0);
}

#[test]
// checks correct number of pixels for non-square images
fn non_square_image_does_not_swap_axes() {
    // Wide, short image: 6x3, border_width 1.
    let border = Rgb([5, 5, 5]);
    let interior = Rgb([250, 250, 250]);
    let img = bordered_image(6, 3, 1, border, interior);

    let (r, _, _) = border_arr(img, 1, Verbosity::Quiet, "test");

    // total = 18, interior = 4 -> border = 14
    assert_eq!(r[5], 14);
    assert_eq!(r[250], 0);
}

#[test]
// tests that changing the verbosity has no effect on the outcome
fn verbosity_does_not_affect_the_counts() {
    let border = Rgb([7, 8, 9]);
    let interior = Rgb([100, 100, 100]);

    let quiet = bordered_image(4, 4, 1, border, interior);
    let verbose = bordered_image(4, 4, 1, border, interior);

    let quiet_result = border_arr(quiet, 1, Verbosity::Quiet, "test");
    let verbose_result = border_arr(verbose, 1, Verbosity::Verbose, "test");

    assert_eq!(quiet_result, verbose_result);
}

#[test]
// checks that if the border is wider than the image all pixels are counted as border
fn border_wider_than_image_counts_everything() {
    let colour = Rgb([1, 2, 3]);
    let img = to_pixels(RgbImage::from_pixel(4, 4, colour));

    let (r, _, _) = border_arr(img, 100, Verbosity::Quiet, "test");

    assert_eq!(r[1], 16); // every pixel counted
}

#[test]
// ensures the three channels are averaged independently, not mixed
fn combines_per_channel_medians_into_rgb_array() {
    let border = Rgb([10, 20, 30]);
    let interior = Rgb([200, 200, 200]);
    let img = bordered_image(4, 4, 1, border, interior);

    let result = calculate_average(img, 1, Verbosity::Quiet, "test");

    assert_eq!(result, [10, 20, 30]);
}

#[test]
fn zero_width_border_counts_nothing() {
    let img = bordered_image(4, 4, 1, Rgb([10, 20, 30]), Rgb([200, 200, 200]));
    let (r, g, b) = border_arr(img, 0, Verbosity::Normal, "test");
    assert!(r.iter().chain(g.iter()).chain(b.iter()).all(|&c| c == 0));
}

#[test]
fn counts_sum_to_the_border_pixel_count() {
    // 7x5 with a border of 2: interior is 3x1, border is 35 - 3 = 32
    let img = to_pixels(RgbImage::from_fn(7, 5, |x, y| Rgb([(x * 10) as u8, (y * 10) as u8, ((x + y) % 4) as u8])));
    let (r, g, b) = border_arr(img, 2, Verbosity::Quiet, "test");
    assert_eq!(r.iter().sum::<u32>(), 32);
    assert_eq!(g.iter().sum::<u32>(), 32);
    assert_eq!(b.iter().sum::<u32>(), 32);
    // column 3 sits in the interior only on row 2
    assert_eq!(r[30], 4);
    // row 2 is interior for x in 2..5
    assert_eq!(g[20], 4);
}

#[test]
fn median_of_a_mixed_border() {
    // 3x3 with a border of 1: 8 border pixels around one centre pixel.
    // red samples on the border: 0,10,20 / 30,_,50 / 60,70,80 -> sorted
    // 0,10,20,30,50,60,70,80: half of 8 is 4, the fifth value is 50.
    let img = to_pixels(RgbImage::from_fn(3, 3, |x, y| Rgb([((y * 3 + x) * 10) as u8, 9, 200])));
    assert_eq!(calculate_average(img, 1, Verbosity::Quiet, "test"), [50, 9, 200]);
}

#[test]
fn try_calculate_average_refuses_a_zero_width_border() {
    let img = bordered_image(4, 4, 1, Rgb([10, 20, 30]), Rgb([200, 200, 200]));
    assert_eq!(try_calculate_average(img, 0, Verbosity::Quiet, "test"), None);
}

#[test]
fn try_calculate_average_refuses_an_empty_image() {
    let img = to_pixels(RgbImage::new(0, 5));
    assert_eq!(try_calculate_average(img, 2, Verbosity::Quiet, "test"), None);
}

#[test]
fn try_calculate_average_agrees_with_calculate_average() {
    let img = bordered_image(6, 3, 1, Rgb([5, 6, 7]), Rgb([250, 250, 250]));
    assert_eq!(try_calculate_average(img, 1, Verbosity::Verbose, "test"), Some([5, 6, 7]));
}

#[test]
fn count_border_pixels_matches_the_scans() {
    assert_eq!(count_border_pixels(4, 4, 1), 12);
    assert_eq!(count_border_pixels(5, 5, 2), 24);
    assert_eq!(count_border_pixels(6, 3, 1), 14);
    assert_eq!(count_border_pixels(4, 4, 100), 16);
    assert_eq!(count_border_pixels(4, 4, 0), 0);
    assert_eq!(count_border_pixels(0, 9, 3), 0);
    assert_eq!(count_border_pixels(u32::MAX, u32::MAX, 1), 4 * (u32::MAX as u64) - 4);
}

#[test]
fn scanning_row_by_row_gives_the_border_counts() {
    let make = || bordered_image(6, 3, 1, Rgb([5, 6, 7]), Rgb([250, 250, 250]));
    let mut scan = BorderScan::new(make(), 1);
    assert_eq!(scan.dimensions(), (6, 3));
    let mut rows = 0;
    while !scan.is_done() {
        assert_eq!(scan.scan_row(), 6);
        rows += 1;
    }
    assert_eq!(rows, 3);
    assert_eq!(scan.into_counts(), border_arr(make(), 1, Verbosity::Quiet, "test"));
}
