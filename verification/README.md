# gutter_detection

Finds the colour of a comic page's border: for red, green and blue in turn,
the median sample over the pixels that lie within a given width of an edge.

- `src/` is the verified library (Verus).
  - `rgb_image.rs`: `RgbPixels`, an RGB image held by the `image` crate and
    seen through its dimensions and its row-major samples.
  - `median.rs`: the median of a distribution given as counts per value.
  - `border_average.rs`: `BorderScan`, which counts the border pixels row by
    row; the per-channel counts, their medians, and the laws on how many
    pixels the border holds.
  - `mean_colour.rs`: the mean colour over every pixel of an image.
  - `lib.rs`: `Verbosity`, `finish_average` and `average_image`, the
    computation behind the command line tool.
- `app/` is the command line tool: argument handling, reading and writing
  image files, the progress bar (ticked after each scanned row) and printing.
- `tests/` runs the library on concrete images and distributions.
