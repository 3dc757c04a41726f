use square_array::RowSlice;
use square_array::SquareArrayError;
use square_array::from_mapped_array2_fn;
use square_array::mirror_along_diagonal;
use square_array::trapizoid_slices_of_lower_half;

/// The pairwise function of the 10-row scenario: for every row `k` of the
/// prefix, `sum(prefix[k]) * 100 + sum(row)`.
fn row_sums(row: &Vec<usize>, prefix: &[Vec<usize>]) -> Vec<usize> {
    let row_total: usize = row.iter().sum();
    prefix
        .iter()
        .map(|p| p.iter().sum::<usize>() * 100 + row_total)
        .collect()
}

/// A 10-row, 2-column matrix with cell `(i, j)` holding `i*5 + j`.
fn ten_by_two() -> Vec<Vec<usize>> {
    (0..10).map(|i| vec![i * 5, i * 5 + 1]).collect()
}

/// The full expected 10x10 mirrored result of `row_sums` over `ten_by_two`:
/// row sums are `10i + 1`, so cell `(i, j)` with `j <= i` holds
/// `(10j + 1) * 100 + 10i + 1`.
fn expected_mirrored() -> Vec<Vec<usize>> {
    let mut m = vec![vec![0usize; 10]; 10];
    for i in 0..10 {
        for j in 0..10 {
            let (lo, hi) = if j <= i { (j, i) } else { (i, j) };
            m[i][j] = (10 * lo + 1) * 100 + 10 * hi + 1;
        }
    }
    m
}

#[test]
fn partition_of_zero_rows_is_empty() {
    for k in 1..=6 {
        assert!(trapizoid_slices_of_lower_half(0, k).is_empty());
    }
}

#[test]
fn partition_concrete_boundaries() {
    assert_eq!(
        trapizoid_slices_of_lower_half(10, 1),
        vec![RowSlice { start: 0, end: 9 }]
    );
    assert_eq!(
        trapizoid_slices_of_lower_half(10, 2),
        vec![
            RowSlice { start: 0, end: 7 },
            RowSlice { start: 8, end: 9 }
        ]
    );
    assert_eq!(
        trapizoid_slices_of_lower_half(10, 4),
        vec![
            RowSlice { start: 0, end: 5 },
            RowSlice { start: 6, end: 8 },
            RowSlice { start: 9, end: 9 }
        ]
    );
}

#[test]
fn partition_covers_all_rows_without_overlap() {
    for n in [1usize, 2, 3, 7, 10, 50, 137] {
        for k in [1usize, 2, 3, 4, 9, 64] {
            let slices = trapizoid_slices_of_lower_half(n, k);
            assert!(slices.len() <= k);
            assert!(!slices.is_empty());
            assert_eq!(slices[0].start, 0);
            assert_eq!(slices[slices.len() - 1].end, n - 1);
            for w in slices.windows(2) {
                assert_eq!(w[1].start, w[0].end + 1);
            }
            for s in &slices {
                assert!(s.start <= s.end && s.end < n);
            }
        }
    }
}

#[test]
fn partition_balances_triangular_area() {
    // Every slice but the last covers more than the doubled target area
    // n²/count, and exceeds it by at most (3·end + 1)/count rows of area.
    for n in [4usize, 10, 33, 100] {
        for k in [1usize, 2, 3, 5, 8] {
            let slices = trapizoid_slices_of_lower_half(n, k);
            for s in &slices[..slices.len() - 1] {
                let doubled = (s.end + 1) * (s.end + 1) - s.start * s.start;
                assert!(k * doubled > n * n);
                assert!(4 * k * doubled <= 4 * n * n + k * (12 * s.end + 4));
            }
        }
    }
}

#[test]
fn square_scenario_mirrored() {
    let m = ten_by_two();
    let result = from_mapped_array2_fn(&m, row_sums, 4, Some(true)).unwrap();
    assert_eq!(result, expected_mirrored());
    assert_eq!(result[0][0], 101);
    assert_eq!(result[1][1], 1111);
    assert_eq!(result[5][5], 5151);
    assert_eq!(result[9][9], 9191);
}

#[test]
fn square_scenario_worker_count_independent() {
    let m = ten_by_two();
    let one = from_mapped_array2_fn(&m, row_sums, 1, Some(true)).unwrap();
    let four = from_mapped_array2_fn(&m, row_sums, 4, Some(true)).unwrap();
    let seven = from_mapped_array2_fn(&m, row_sums, 7, None).unwrap();
    assert_eq!(one, four);
    assert_eq!(one, seven);
    assert_eq!(one, expected_mirrored());
}

#[test]
fn square_scenario_unmirrored_keeps_zeros_above_diagonal() {
    let m = ten_by_two();
    let result = from_mapped_array2_fn(&m, row_sums, 4, Some(false)).unwrap();
    for i in 0..10 {
        for j in 0..10 {
            if j > i {
                assert_eq!(result[i][j], 0);
            } else {
                assert_eq!(result[i][j], expected_mirrored()[i][j]);
            }
        }
    }
}

#[test]
fn square_result_is_symmetric() {
    let m = ten_by_two();
    let result = from_mapped_array2_fn(&m, row_sums, 3, None).unwrap();
    for i in 0..10 {
        for j in 0..10 {
            assert_eq!(result[i][j], result[j][i]);
        }
    }
}

#[test]
fn square_of_empty_matrix() {
    let m: Vec<Vec<usize>> = Vec::new();
    let result = from_mapped_array2_fn(&m, row_sums, 3, None).unwrap();
    assert!(result.is_empty());
}

#[test]
fn square_of_single_row() {
    let m = vec![vec![2usize, 3]];
    let result = from_mapped_array2_fn(&m, row_sums, 2, None).unwrap();
    assert_eq!(result, vec![vec![505]]);
}

#[test]
fn ragged_input_is_invalid_shape() {
    let m = vec![vec![1usize, 2], vec![3], vec![4, 5]];
    let result = from_mapped_array2_fn(&m, row_sums, 2, None);
    assert_eq!(result, Err(SquareArrayError::InvalidShape));
}

#[test]
fn short_row_vector_is_worker_failure() {
    let m = ten_by_two();
    let bad = |_row: &Vec<usize>, _prefix: &[Vec<usize>]| -> Vec<usize> { Vec::new() };
    let result = from_mapped_array2_fn(&m, bad, 4, None);
    assert_eq!(result, Err(SquareArrayError::WorkerFailure));
}

#[test]
fn mirror_copies_lower_triangle() {
    let mut m = vec![
        vec![1usize, 0, 0],
        vec![2, 3, 0],
        vec![4, 5, 6],
    ];
    mirror_along_diagonal(&mut m);
    assert_eq!(m, vec![vec![1, 2, 4], vec![2, 3, 5], vec![4, 5, 6]]);
}
