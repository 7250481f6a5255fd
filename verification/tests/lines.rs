use field_qa::error::GeometryError;
use field_qa::grid::U16Array;
use field_qa::lines::{
    argmax, argmax_1d, argmin, find_center_line, find_common_value, find_vertical_line,
    fint_horizontal_line, line_between, majority_vote, strip_vote, Strip,
};
use field_qa::rotate::Rotation;

fn small() -> U16Array {
    U16Array::from_vec(3, 3, &vec![1, 9, 3, 7, 2, 3, 7, 9, 1]).unwrap()
}

fn frame_grid() -> U16Array {
    let n = 802usize;
    let mut data: Vec<u16> = vec![100; n * n];
    for k in 0..n {
        for line in [156usize, 401, 646] {
            data[line * n + k] = 1000;
        }
        for line in [86usize, 401, 716] {
            data[k * n + line] = 1000;
        }
    }
    U16Array::from_vec(n, n, &data).unwrap()
}

#[test]
fn argmax_by_column_and_by_row() {
    let g = small();
    assert_eq!(argmax(&g, 0), vec![1, 0, 0]);
    assert_eq!(argmax(&g, 1), vec![1, 0, 1]);
    assert_eq!(argmax(&g, 2), Vec::<usize>::new());
}

#[test]
fn argmin_by_column_and_by_row() {
    let g = small();
    assert_eq!(argmin(&g, 0), vec![0, 1, 2]);
    assert_eq!(argmin(&g, 1), vec![0, 1, 2]);
    assert_eq!(argmin(&g, 5), vec![0, 1, 2]);
}

#[test]
fn argmax_of_a_grid_without_rows_is_zero_for_each_column() {
    let g = U16Array::from_vec(0, 4, &vec![]).unwrap();
    assert_eq!(argmax(&g, 0), vec![0, 0, 0, 0]);
    assert_eq!(argmax(&g, 1), Vec::<usize>::new());
    assert_eq!(argmin(&g, 0), vec![0, 0, 0, 0]);
}

#[test]
fn argmax_1d_counts_row_after_row() {
    assert_eq!(argmax_1d(&small()), 1);
    assert_eq!(argmax_1d(&U16Array::from_vec(2, 2, &vec![1, 2, 8, 8]).unwrap()), 2);
    assert_eq!(argmax_1d(&U16Array::from_vec(0, 2, &vec![]).unwrap()), 0);
}

#[test]
fn majority_vote_takes_the_most_common_value() {
    assert_eq!(majority_vote(&vec![3, 1, 3, 2, 1, 3], 5), Some((3, 3)));
    assert_eq!(majority_vote(&vec![4], 5), Some((4, 1)));
    assert_eq!(majority_vote(&vec![], 5), None);
}

#[test]
fn majority_vote_breaks_ties_toward_the_smaller_value() {
    assert_eq!(majority_vote(&vec![2, 1, 2, 1], 3), Some((1, 2)));
    assert_eq!(majority_vote(&vec![7, 0, 3], 8), Some((0, 1)));
}

#[test]
fn sixty_percent_of_the_columns_decide_the_row() {
    let h = 8usize;
    let w = 10usize;
    for r in 0..h {
        let mut data: Vec<u16> = vec![10; h * w];
        for c in 0..w {
            let peak = if c < 6 { r } else { (r + c - 5) % h };
            data[peak * w + c] = 500;
        }
        let g = U16Array::from_vec(h, w, &data).unwrap();
        assert_eq!(find_common_value(&g, 0), Ok(r as i32));
    }
}

#[test]
fn sixty_percent_of_the_rows_decide_the_column() {
    let h = 10usize;
    let w = 7usize;
    let mut data: Vec<u16> = vec![10; h * w];
    for r in 0..h {
        let peak = if r % 5 < 3 { 4 } else { r % 3 };
        data[r * w + peak] = 500;
    }
    let g = U16Array::from_vec(h, w, &data).unwrap();
    assert_eq!(find_common_value(&g, 1), Ok(4));
}

#[test]
fn find_common_value_needs_lines_to_vote() {
    let no_columns = U16Array::from_vec(3, 0, &vec![]).unwrap();
    assert_eq!(find_common_value(&no_columns, 0), Err(GeometryError::IndexRange));
    let no_rows = U16Array::from_vec(0, 3, &vec![]).unwrap();
    assert_eq!(find_common_value(&no_rows, 1), Err(GeometryError::IndexRange));
    assert_eq!(find_common_value(&no_rows, 0), Ok(0));
    assert_eq!(find_common_value(&small(), 2), Err(GeometryError::IndexRange));
}

#[test]
fn strip_vote_reports_the_position_in_the_grid() {
    let g = frame_grid();
    let strip = Strip { r0: 300, r1: 500, c0: 100, c1: 150 };
    assert_eq!(strip_vote(&g, strip, 0), Ok(401));
    let upright = Strip { r0: 200, r1: 300, c0: 350, c1: 450 };
    assert_eq!(strip_vote(&g, upright, 1), Ok(401));
    let outside = Strip { r0: 300, r1: 900, c0: 100, c1: 150 };
    assert_eq!(strip_vote(&g, outside, 0), Err(GeometryError::IndexRange));
    let empty = Strip { r0: 300, r1: 500, c0: 100, c1: 100 };
    assert_eq!(strip_vote(&g, empty, 0), Err(GeometryError::IndexRange));
}

#[test]
fn line_between_is_the_mean_of_two_strips() {
    let h = 40usize;
    let w = 40usize;
    let mut data: Vec<u16> = vec![0; h * w];
    for c in 0..20 {
        data[10 * w + c] = 900;
    }
    for c in 20..40 {
        data[15 * w + c] = 900;
    }
    let g = U16Array::from_vec(h, w, &data).unwrap();
    let left = Strip { r0: 5, r1: 30, c0: 2, c1: 12 };
    let right = Strip { r0: 5, r1: 30, c0: 25, c1: 35 };
    assert_eq!(strip_vote(&g, left, 0), Ok(10));
    assert_eq!(strip_vote(&g, right, 0), Ok(15));
    assert_eq!(line_between(&g, left, right, 0), Ok(12));
}

#[test]
fn centre_line_of_an_upright_frame_is_level() {
    let g = frame_grid();
    let line = find_center_line(&g).unwrap();
    assert_eq!(line.0, 0);
    assert_eq!(line.1, 401);
    assert_eq!(line.2, 801);
    assert_eq!(line.3, 401);
    assert_eq!(line.4, Rotation { cos: 1048576, sin: 0 });
}

#[test]
fn horizontal_lines_of_an_upright_frame() {
    assert_eq!(fint_horizontal_line(&frame_grid()), Ok(vec![156, 401, 646]));
}

#[test]
fn vertical_lines_of_an_upright_frame() {
    assert_eq!(find_vertical_line(&frame_grid()), Ok(vec![86, 401, 716]));
}

#[test]
fn lines_that_coincide_are_degenerate() {
    let flat = U16Array::from_vec(100, 100, &vec![7; 10000]).unwrap();
    assert_eq!(fint_horizontal_line(&flat), Err(GeometryError::DegenerateLines));
    assert_eq!(find_vertical_line(&flat), Ok(vec![14, 40, 76]));
    let taller = U16Array::from_vec(300, 100, &vec![7; 30000]).unwrap();
    assert_eq!(fint_horizontal_line(&taller), Ok(vec![20, 60, 219]));
}

#[test]
fn lines_out_of_order_are_degenerate() {
    let n = 802usize;
    let mut data: Vec<u16> = vec![100; n * n];
    for k in 0..n {
        for line in [210usize, 200, 646] {
            data[line * n + k] = 1000;
        }
        for line in [86usize, 450, 716] {
            data[k * n + line] = 1000;
        }
    }
    let g = U16Array::from_vec(n, n, &data).unwrap();
    assert_eq!(fint_horizontal_line(&g), Err(GeometryError::DegenerateLines));
    assert_eq!(find_vertical_line(&g), Ok(vec![86, 450, 716]));
}

#[test]
fn a_grid_too_small_for_strips_is_an_index_range_error() {
    let g = U16Array::from_vec(10, 10, &vec![5; 100]).unwrap();
    assert_eq!(find_center_line(&g), Err(GeometryError::IndexRange));
    assert_eq!(fint_horizontal_line(&g), Err(GeometryError::IndexRange));
    assert_eq!(find_vertical_line(&g), Err(GeometryError::IndexRange));
}
