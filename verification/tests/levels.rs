use field_qa::edges::edge_strengths;
use field_qa::error::GeometryError;
use field_qa::grid::U16Array;
use field_qa::levels::{
    argmax_range, argmax_vec, bounder_percentile, copy_levels, find_first_reaching,
    find_last_reaching, find_peak, median_by_col, median_of_column, percentile,
};

#[test]
fn median_of_an_odd_column_is_the_middle_level_doubled() {
    let mut column: Vec<u64> = vec![5, 1, 3];
    assert_eq!(median_of_column(&mut column), Ok(6));
    assert_eq!(column, vec![1, 3, 5]);
    let mut one: Vec<u64> = vec![9];
    assert_eq!(median_of_column(&mut one), Ok(18));
}

#[test]
fn median_of_an_even_column_is_the_sum_of_the_middle_levels() {
    let mut column: Vec<u64> = vec![4, 1, 3, 2];
    assert_eq!(median_of_column(&mut column), Ok(5));
    assert_eq!(column, vec![1, 2, 3, 4]);
    let mut pair: Vec<u64> = vec![10, 7];
    assert_eq!(median_of_column(&mut pair), Ok(17));
}

#[test]
fn median_is_limited_to_u64() {
    let mut column: Vec<u64> = vec![u64::MAX, u64::MAX, 1];
    assert_eq!(median_of_column(&mut column), Ok(u64::MAX));
}

#[test]
fn median_of_an_empty_column_is_an_index_range_error() {
    let mut column: Vec<u64> = Vec::new();
    assert_eq!(median_of_column(&mut column), Err(GeometryError::IndexRange));
}

#[test]
fn median_by_col_takes_the_median_across_rows() {
    let rows: Vec<Vec<u64>> = vec![vec![1, 10], vec![3, 20], vec![2, 30]];
    assert_eq!(median_by_col(&rows), Ok(vec![4, 40]));
    let two: Vec<Vec<u64>> = vec![vec![1, 10, 7], vec![4, 20, 7]];
    assert_eq!(median_by_col(&two), Ok(vec![5, 30, 14]));
    let longer: Vec<Vec<u64>> = vec![vec![1], vec![3, 99]];
    assert_eq!(median_by_col(&longer), Ok(vec![4]));
}

#[test]
fn median_by_col_needs_rows_as_long_as_the_first() {
    let none: Vec<Vec<u64>> = Vec::new();
    assert_eq!(median_by_col(&none), Err(GeometryError::IndexRange));
    let short: Vec<Vec<u64>> = vec![vec![1, 2], vec![3]];
    assert_eq!(median_by_col(&short), Err(GeometryError::IndexRange));
    let empty_rows: Vec<Vec<u64>> = vec![vec![], vec![]];
    assert_eq!(median_by_col(&empty_rows), Ok(vec![]));
}

#[test]
fn argmax_vec_finds_the_first_largest() {
    assert_eq!(argmax_vec(&vec![1, 5, 5, 2]), (1, 5));
    assert_eq!(argmax_vec(&vec![]), (0, 0));
    assert_eq!(argmax_vec(&vec![0, 0]), (0, 0));
    assert_eq!(argmax_vec(&vec![3, 2, 1]), (0, 3));
    assert_eq!(argmax_vec(&vec![1, 2, 3]), (2, 3));
}

#[test]
fn argmax_range_counts_from_the_start_of_the_range() {
    let v: Vec<u64> = vec![9, 1, 4, 4, 2, 8];
    assert_eq!(argmax_range(&v, 1, 5), 1);
    assert_eq!(argmax_range(&v, 0, 6), 0);
    assert_eq!(argmax_range(&v, 4, 6), 1);
    assert_eq!(argmax_range(&v, 3, 3), 0);
}

#[test]
fn find_peak_gives_seven_tenths_in_tenths() {
    assert_eq!(find_peak(&vec![1, 5, 5, 2]), (1, 35));
    assert_eq!(find_peak(&vec![]), (0, 0));
    assert_eq!(find_peak(&vec![u64::MAX]), (0, 7 * (u64::MAX as u128)));
}

#[test]
fn copy_levels_copies() {
    assert_eq!(copy_levels(&vec![3, 1, 2]), vec![3, 1, 2]);
}

#[test]
fn reaching_searches_find_first_and_last() {
    let v: Vec<u64> = vec![0, 3, 7, 2, 7, 1];
    assert_eq!(find_first_reaching(&v, 0, 6, 10, 70), Some(2));
    assert_eq!(find_last_reaching(&v, 0, 6, 10, 70), Some(4));
    assert_eq!(find_first_reaching(&v, 3, 6, 10, 70), Some(4));
    assert_eq!(find_last_reaching(&v, 0, 4, 10, 70), Some(2));
    assert_eq!(find_first_reaching(&v, 0, 6, 10, 71), None);
    assert_eq!(find_last_reaching(&v, 0, 6, 10, 71), None);
    assert_eq!(find_first_reaching(&v, 5, 5, 10, 0), None);
    assert_eq!(find_first_reaching(&v, 0, 6, 1000, 7000), Some(2));
    assert_eq!(find_last_reaching(&v, 0, 6, 1u128 << 64, 7u128 << 64), Some(4));
    assert_eq!(find_first_reaching(&v, 0, 6, 10, 0), Some(0));
    assert_eq!(find_last_reaching(&v, 0, 6, 10, 0), Some(5));
}

#[test]
fn percentile_interpolates_between_ranks() {
    let v: Vec<u64> = vec![50, 10, 40, 20, 30];
    assert_eq!(percentile(&v, 0), Ok(1000));
    assert_eq!(percentile(&v, 50), Ok(3000));
    assert_eq!(percentile(&v, 99), Ok(4960));
    assert_eq!(percentile(&v, 100), Ok(5000));
    assert_eq!(percentile(&v, 25), Ok(2000));
    assert_eq!(percentile(&v, 10), Ok(1400));
    assert_eq!(percentile(&vec![7], 99), Ok(700));
}

#[test]
fn percentile_refuses_no_levels_and_more_than_a_hundred() {
    assert_eq!(percentile(&vec![], 50), Err(GeometryError::IndexRange));
    assert_eq!(percentile(&vec![1, 2], 101), Err(GeometryError::IndexRange));
}

#[test]
fn bounder_percentile_finds_first_and_last_above() {
    let v: Vec<u64> = vec![0, 0, 9, 0, 9, 0];
    assert_eq!(bounder_percentile(&v, 99), Ok((2, 4)));
    assert_eq!(bounder_percentile(&v, 0), Ok((0, 5)));
    assert_eq!(bounder_percentile(&vec![], 99), Err(GeometryError::IndexRange));
}

#[test]
fn step_edge_is_found_by_the_percentile_bounds() {
    let h = 10usize;
    let w = 50usize;
    for c in [5usize, 20, 33, 47] {
        let mut data: Vec<u16> = Vec::new();
        for _ in 0..h {
            for j in 0..w {
                data.push(if j >= c { 60000 } else { 0 });
            }
        }
        let grid = U16Array::from_vec(h, w, &data).unwrap();
        let profiles = edge_strengths(&grid, true);
        let curve = median_by_col(&profiles).unwrap();
        assert_eq!(curve.len(), w - 2);
        let (first, last) = bounder_percentile(&curve, 99).unwrap();
        assert_eq!(first, c - 2);
        assert_eq!(last, c - 1);
        let edge = (first + last) / 2 + 1;
        assert!(edge + 1 >= c && edge <= c + 1, "edge {} for step at {}", edge, c);
    }
}
