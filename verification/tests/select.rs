use wham::histogram::Histogram;
use wham::select::is_in_time_boundaries as in_time_boundaries;
use wham::select::select_in_window;
use wham::select::stride_indices;
use wham::select::time_mask;

/// Order-preserving key of a finite time stamp: comparing keys compares
/// times; negative zero maps to the key of zero, as the two compare equal.
fn time_key(x: f64) -> u64 {
    let x = if x == 0.0 { 0.0 } else { x };
    let b = x.to_bits();
    if b & 0x8000_0000_0000_0000 != 0 {
        !b
    } else {
        b | 0x8000_0000_0000_0000
    }
}

#[test]
fn time_key_preserves_order() {
    let samples = [-1.0e20, -50.0, -0.5, 0.0, 1e-12, 0.5, 9.9999999, 10.0, 20.0, 1e20];
    for w in samples.windows(2) {
        assert!(time_key(w[0]) < time_key(w[1]));
    }
    assert_eq!(time_key(0.0), time_key(-0.0));
}

#[test]
fn is_in_time_boundaries() {
    let start = time_key(10.0);
    let end = time_key(20.0);
    assert!(in_time_boundaries(time_key(15.0), start, end));
    assert!(in_time_boundaries(time_key(10.0), start, end));
    assert!(in_time_boundaries(time_key(20.0), start, end));
    assert!(!in_time_boundaries(time_key(9.9999999), start, end));
    assert!(!in_time_boundaries(time_key(20.000001), start, end));
}

#[test]
fn time_mask_marks_interval() {
    let times: Vec<u64> = [0.0, 2.5, 5.0, 7.5, 10.0].iter().map(|t| time_key(*t)).collect();
    let mask = time_mask(&times, time_key(2.5), time_key(7.5));
    assert_eq!(vec![false, true, true, true, false], mask);
}

#[test]
fn window_selection_drops_out_of_interval_samples() {
    let times: Vec<u64> = [0.0, 1.0, 2.0, 3.0, 4.0].iter().map(|t| time_key(*t)).collect();
    let assignments = vec![Some(0usize), Some(1), None, Some(1), Some(2)];
    let selected = select_in_window(&assignments, &times, time_key(1.0), time_key(3.0));
    assert_eq!(vec![None, Some(1usize), None, Some(1), None], selected);
    let h = Histogram::from_assignments(3, &selected);
    assert_eq!(2, h.num_points);
    assert_eq!(vec![0u32, 2, 0], h.bins);
}

#[test]
fn growing_interval_never_loses_datapoints() {
    // the convdt sweep: intervals [0, e] with growing e
    let raw_times = [0.0, 0.7, 1.4, 2.1, 2.8, 3.5, 4.2, 4.9];
    let times: Vec<u64> = raw_times.iter().map(|t| time_key(*t)).collect();
    let assignments: Vec<Option<usize>> =
        (0..times.len()).map(|i| if i == 3 { None } else { Some(i % 4) }).collect();
    let start = time_key(0.0);
    let mut previous = 0u32;
    for e in [1.0, 2.0, 3.0, 4.0, 5.0] {
        let selected = select_in_window(&assignments, &times, start, time_key(e));
        let h = Histogram::from_assignments(4, &selected);
        assert!(h.num_points >= previous);
        previous = h.num_points;
    }
    assert_eq!(7, previous);
}

#[test]
fn stride_indices_subsample() {
    assert_eq!(vec![0usize, 3, 6, 9], stride_indices(10, 3));
    assert_eq!(vec![0usize, 5], stride_indices(10, 5));
    assert_eq!((0..10usize).collect::<Vec<usize>>(), stride_indices(10, 1));
    assert_eq!(vec![0usize], stride_indices(1, 7));
    assert_eq!(0, stride_indices(0, 4).len());
}
