use nwb_view::plot::compute_step_size;
use nwb_view::plot::decimated_indices;

#[test]
fn step_size_is_one_below_threshold() {
    assert_eq!(compute_step_size(0), 1);
    assert_eq!(compute_step_size(1), 1);
    assert_eq!(compute_step_size(5000), 1);
    assert_eq!(compute_step_size(10000), 1);
}

#[test]
fn step_size_just_above_threshold() {
    // ceil(log10(10001)) = 5, cubed
    assert_eq!(compute_step_size(10001), 125);
}

#[test]
fn step_size_at_one_million() {
    // ceil(log10(1_000_000)) = 6, cubed
    assert_eq!(compute_step_size(1_000_000), 216);
}

#[test]
fn step_size_at_one_hundred_thousand() {
    // ceil(log10(100_000)) = 5, cubed
    assert_eq!(compute_step_size(100_000), 125);
}

#[test]
fn step_size_is_monotone_on_samples() {
    let samples: [usize; 8] = [1, 100, 10000, 10001, 99999, 100_000, 100_001, 1_000_000];
    let mut last = 0usize;
    for n in samples {
        let s = compute_step_size(n);
        assert!(s >= 1);
        assert!(s >= last);
        last = s;
    }
}

#[test]
fn decimated_indices_step_three() {
    assert_eq!(decimated_indices(10, 3), vec![0, 3, 6, 9]);
}

#[test]
fn decimated_indices_step_one() {
    assert_eq!(decimated_indices(4, 1), vec![0, 1, 2, 3, 4]);
}

#[test]
fn decimated_indices_single_point() {
    assert_eq!(decimated_indices(0, 125), vec![0]);
}
