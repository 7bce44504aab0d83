use wham::histogram::total_points;
use wham::histogram::Histogram;

#[test]
fn histogram_new_stores_fields() {
    let h = Histogram::new(22, vec![1, 1, 3, 5, 12]);
    assert_eq!(22, h.num_points);
    assert_eq!(vec![1u32, 1, 3, 5, 12], h.bins);
}

#[test]
fn histogram_counts_assignments() {
    let assignments = vec![
        Some(0usize),
        Some(3),
        None,
        Some(3),
        Some(4),
        None,
        Some(3),
    ];
    let h = Histogram::from_assignments(5, &assignments);
    assert_eq!(vec![1u32, 0, 0, 3, 1], h.bins);
    assert_eq!(5, h.num_points);
}

#[test]
fn histogram_counts_sum_to_num_points() {
    let assignments: Vec<Option<usize>> =
        (0..1000usize).map(|i| if i % 7 == 0 { None } else { Some(i % 10) }).collect();
    let h = Histogram::from_assignments(10, &assignments);
    let total: u32 = h.bins.iter().sum();
    assert_eq!(total, h.num_points);
}

#[test]
fn histogram_empty_assignments() {
    let h = Histogram::from_assignments(4, &Vec::new());
    assert_eq!(0, h.num_points);
    assert_eq!(vec![0u32, 0, 0, 0], h.bins);
}

#[test]
fn total_points_sums_windows() {
    let hs = vec![
        Histogram::new(22, vec![1, 1, 3, 5, 12]),
        Histogram::new(7, vec![0, 0, 7, 0, 0]),
        Histogram::new(0, vec![0, 0, 0, 0, 0]),
    ];
    assert_eq!(29, total_points(&hs));
    assert_eq!(0, total_points(&Vec::new()));
}
