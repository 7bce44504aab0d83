use wham::grid::expand_index;
use wham::grid::flat_index;

#[test]
fn flat_index_one_dimension() {
    let lengths = [5usize];
    for i in 0..5usize {
        assert_eq!(i, flat_index(&[i], &lengths));
    }
}

#[test]
fn flat_index_three_dimensions() {
    // idx = i_N + l_N*i_M + l_N*l_M*i_O for lengths (l_N, l_M, l_O)
    let lengths = [3usize, 4, 5];
    assert_eq!(0, flat_index(&[0, 0, 0], &lengths));
    assert_eq!(1, flat_index(&[1, 0, 0], &lengths));
    assert_eq!(3, flat_index(&[0, 1, 0], &lengths));
    assert_eq!(12, flat_index(&[0, 0, 1], &lengths));
    assert_eq!(2 + 3 * 3 + 12 * 4, flat_index(&[2, 3, 4], &lengths));
}

#[test]
fn flat_index_is_dense() {
    // every cell of a 3x4 grid maps to a distinct index below 12
    let lengths = [3usize, 4];
    let mut seen = vec![false; 12];
    for j in 0..4usize {
        for i in 0..3usize {
            let f = flat_index(&[i, j], &lengths);
            assert!(f < 12);
            assert!(!seen[f]);
            seen[f] = true;
        }
    }
}

#[test]
fn expand_index_round_trip() {
    let lengths = [3usize, 4, 5];
    for bin in 0..60usize {
        let idx = expand_index(bin, &lengths);
        assert_eq!(3, idx.len());
        for d in 0..3 {
            assert!(idx[d] < lengths[d]);
        }
        assert_eq!(bin, flat_index(&idx, &lengths));
    }
}

#[test]
fn expand_index_examples() {
    let lengths = [10usize, 10];
    let idx = expand_index(47, &lengths);
    assert_eq!(vec![7usize, 4], idx);
    let single = [100usize];
    let idx = expand_index(63, &single);
    assert_eq!(vec![63usize], idx);
}
