use gutter_detection::border_average::BorderScan;
use gutter_detection::{average_image, finish_average};
use gutter_detection::mean_colour::{mean_colour, try_mean_colour};
use gutter_detection::rgb_image::RgbPixels;
use gutter_detection::Verbosity;
use image::{Rgb, RgbImage};

fn to_pixels(img: RgbImage) -> RgbPixels {
    let (width, height) = img.dimensions();
    RgbPixels::from_samples(width, height, img.into_raw()).unwrap()
}

// A 6x6 image with a one-pixel border of `border` around `interior`.
fn bordered_fixture(border: Rgb<u8>, interior: Rgb<u8>) -> RgbPixels {
    to_pixels(RgbImage::from_fn(6, 6, |x, y| {
        let is_border = x < 1 || x >= 5 || y < 1 || y >= 5;
        if is_border { border } else { interior }
    }))
}

#[test]
// the output image should be filled with the computed average colour
fn saves_output_file_with_expected_average_colour() {
    let img = bordered_fixture(Rgb([10, 20, 30]), Rgb([200, 200, 200]));
    let (colour, out) = average_image(img, 1, Verbosity::Quiet, "input.png", true).unwrap();
    assert_eq!(colour, [10, 20, 30]);
    let out = out.unwrap();
    assert_eq!(out.pixel(0, 0), (10, 20, 30));
    assert_eq!(out.pixel(3, 3), (10, 20, 30));
}

#[test]
// no output wanted should mean no output image at all
fn does_not_create_output_file_when_none_given() {
    let img = bordered_fixture(Rgb([1, 2, 3]), Rgb([9, 9, 9]));
    let (colour, out) = average_image(img, 1, Verbosity::Quiet, "input.png", false).unwrap();
    assert_eq!(colour, [1, 2, 3]);
    assert!(out.is_none());
}

#[test]
// the output image should match the input's dimensions
fn output_image_matches_input_dimensions() {
    let img = bordered_fixture(Rgb([50, 50, 50]), Rgb([150, 150, 150]));
    let (_, out) = average_image(img, 1, Verbosity::Quiet, "input.png", true).unwrap();
    assert_eq!(out.unwrap().dimensions(), (6, 6));
}

#[test]
// verbosity should have no effect on the output image
fn verbosity_does_not_affect_saved_output() {
    let quiet = average_image(bordered_fixture(Rgb([7, 8, 9]), Rgb([100, 100, 100])), 1, Verbosity::Quiet, "input.png", true)
        .unwrap();
    let verbose = average_image(bordered_fixture(Rgb([7, 8, 9]), Rgb([100, 100, 100])), 1, Verbosity::Verbose, "input.png", true)
        .unwrap();
    assert_eq!(quiet.0, verbose.0);
    assert_eq!(quiet.1.unwrap().into_samples(), verbose.1.unwrap().into_samples());
}

#[test]
fn average_image_refuses_a_zero_width_border() {
    let img = bordered_fixture(Rgb([7, 8, 9]), Rgb([100, 100, 100]));
    assert!(average_image(img, 0, Verbosity::Quiet, "input.png", true).is_none());
}

#[test]
fn filled_image_holds_the_colour_everywhere() {
    let img = RgbPixels::filled(3, 2, [4, 5, 6]);
    assert_eq!(img.dimensions(), (3, 2));
    assert_eq!(img.into_samples(), vec![4, 5, 6, 4, 5, 6, 4, 5, 6, 4, 5, 6, 4, 5, 6, 4, 5, 6]);
}

#[test]
fn from_samples_needs_three_samples_per_pixel() {
    assert!(RgbPixels::from_samples(2, 2, vec![0; 11]).is_none());
    assert!(RgbPixels::from_samples(2, 2, vec![0; 12]).is_some());
    assert!(RgbPixels::from_samples(0, 9, vec![]).is_some());
}

#[test]
fn pixel_reads_row_major_samples() {
    let samples: Vec<u8> = (0..18).collect();
    let img = RgbPixels::from_samples(3, 2, samples.clone()).unwrap();
    assert_eq!(img.pixel(0, 0), (0, 1, 2));
    assert_eq!(img.pixel(2, 0), (6, 7, 8));
    assert_eq!(img.pixel(1, 1), (12, 13, 14));
    assert_eq!(img.into_samples(), samples);
}

#[test]
fn mean_colour_rounds_down() {
    // red 0,1,2,3 -> 6/4 = 1; green all 255; blue 10,20,30,41 -> 101/4 = 25
    let samples = vec![0, 255, 10, 1, 255, 20, 2, 255, 30, 3, 255, 41];
    let img = RgbPixels::from_samples(2, 2, samples).unwrap();
    assert_eq!(mean_colour(&img), [1, 255, 25]);
    assert_eq!(try_mean_colour(&img), Some([1, 255, 25]));
}

#[test]
fn try_mean_colour_refuses_an_empty_image() {
    let img = RgbPixels::from_samples(0, 0, vec![]).unwrap();
    assert_eq!(try_mean_colour(&img), None);
}

#[test]
fn mean_colour_of_a_uniform_image_is_its_colour() {
    let img = RgbPixels::filled(5, 7, [12, 34, 56]);
    assert_eq!(mean_colour(&img), [12, 34, 56]);
}

#[test]
fn finish_average_of_a_scan_matches_average_image() {
    let mut scan = BorderScan::new(bordered_fixture(Rgb([10, 20, 30]), Rgb([200, 200, 200])), 1);
    while !scan.is_done() {
        scan.scan_row();
    }
    let (colour, out) = finish_average(scan, true);
    assert_eq!(colour, [10, 20, 30]);
    assert_eq!(out.unwrap().pixel(5, 5), (10, 20, 30));
}

#[test]
fn try_mean_colour_of_a_bright_image() {
    let img = RgbPixels::filled(3, 3, [255, 0, 128]);
    assert_eq!(try_mean_colour(&img), Some([255, 0, 128]));
}
