use camera_exposure::stats::mean_um;
use camera_exposure::stats::median_um;
use camera_exposure::stats::sorted_copy;

#[test]
fn median_even_list_is_midpoint_of_middle_pair() {
    // Millimeter inputs; the median comes back in micrometers, so the
    // midpoint of 2 and 3 is exact.
    let v: Vec<u64> = vec![1, 2, 3, 4];
    assert_eq!(median_um(&v), 2_500);
}

#[test]
fn median_odd_list_is_middle_value() {
    let v: Vec<u64> = vec![1, 2, 3];
    assert_eq!(median_um(&v), 2_000);
}

#[test]
fn median_sorts_its_input_first() {
    let v: Vec<u64> = vec![4, 1, 3, 2];
    assert_eq!(median_um(&v), 2_500);
    let v2: Vec<u64> = vec![30, 10, 20];
    assert_eq!(median_um(&v2), 20_000);
}

#[test]
fn mean_and_median_agree_on_repeated_value() {
    // Five entries of 10 m (10 000 mm) give 10 m for both statistics.
    let v: Vec<u64> = vec![10_000; 5];
    assert_eq!(mean_um(&v), 10_000_000);
    assert_eq!(median_um(&v), 10_000_000);
}

#[test]
fn mean_is_truncated_average() {
    let v: Vec<u64> = vec![1, 1, 2];
    // (4 * 1000) / 3 = 1333 micrometers.
    assert_eq!(mean_um(&v), 1_333);
}

#[test]
fn stats_on_empty_list_are_zero() {
    let v: Vec<u64> = Vec::new();
    assert_eq!(mean_um(&v), 0);
    assert_eq!(median_um(&v), 0);
}

#[test]
fn sorted_copy_orders_ascending() {
    let v: Vec<u64> = vec![5, 3, 9, 1, 3];
    let s = sorted_copy(&v);
    assert_eq!(s, vec![1, 3, 3, 5, 9]);
}
