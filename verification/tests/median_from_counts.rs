use gutter_detection::median::median_from_counts;

#[test]
// Tests that if all the values are the same that it returns that value
fn all_same_value() {
    let mut counts = [0u32; 256];
    counts[56] = 10;
    assert_eq!(median_from_counts(&counts), 56);
}

#[test]
// Tests that an odd number of values returns the true median
fn odd_total_picks() {
    let mut counts = [0u32; 256];
    counts[10] = 1;
    counts[20] = 1;
    counts[30] = 1;
    assert_eq!(median_from_counts(&counts), 20);
}

#[test]
// Tests that an even number of values chooses the upper bound
fn even_total_picks() {
    let mut counts = [0u32; 256];
    counts[50] = 5;
    counts[60] = 5;
    assert_eq!(median_from_counts(&counts), 60);
}

#[test]
// values that span the entire range
fn span_full_range() {
    let mut counts = [0u32; 256];
    counts[0] = 1;
    counts[255] = 2;
    assert_eq!(median_from_counts(&counts), 255);
}

#[test]
fn median_of_a_short_distribution() {
    // the running count 1, 3, 6 first passes 6 / 2 = 3 at value 2
    assert_eq!(median_from_counts(&[1, 2, 3]), 2);
}

#[test]
fn median_wraps_values_past_255() {
    let mut counts = vec![0u32; 300];
    counts[260] = 4;
    assert_eq!(median_from_counts(&counts), 4);
}

#[test]
fn median_of_single_count_at_zero() {
    let mut counts = [0u32; 256];
    counts[0] = 7;
    assert_eq!(median_from_counts(&counts), 0);
}

#[test]
fn median_with_uneven_weights() {
    // total 10, half 5: running counts 3, 5, 10 -> value 2 passes 5
    let mut counts = [0u32; 256];
    counts[0] = 3;
    counts[1] = 2;
    counts[2] = 5;
    assert_eq!(median_from_counts(&counts), 2);
}
