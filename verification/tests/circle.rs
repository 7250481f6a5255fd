use field_qa::calibration::distance_pixel;
use field_qa::circle::{
    center_point, farthest_q, find_center_circle_line, find_farthest_white, split_q_circle,
};
use field_qa::error::GeometryError;
use field_qa::grid::U16Array;

fn with_pixels(h: usize, w: usize, bright: &[(usize, usize, u16)]) -> U16Array {
    let mut data: Vec<u16> = vec![0; h * w];
    for (r, c, v) in bright {
        data[r * w + c] = *v;
    }
    U16Array::from_vec(h, w, &data).unwrap()
}

fn target_with_outlier(dx: i64, dy: i64) -> U16Array {
    let n = 21usize;
    let mut data: Vec<u16> = vec![0; n * n];
    for i in 0..n {
        for j in 0..n {
            let y = i as i64 - 10;
            let x = j as i64 - 10;
            if x * x + y * y <= 25 {
                data[i * n + j] = 1000;
            }
        }
    }
    data[((10 + dy) as usize) * n + (10 + dx) as usize] = 2000;
    U16Array::from_vec(n, n, &data).unwrap()
}

fn quadrants_of(target: &U16Array, xc: i64, yc: i64) -> Vec<U16Array> {
    let h = target.nrows() as i64;
    let w = target.ncols() as i64;
    vec![
        target.crop(0, yc, 0, xc).unwrap(),
        target.crop(0, yc, xc + 1, w).unwrap(),
        target.crop(yc + 1, h, 0, xc).unwrap(),
        target.crop(yc + 1, h, xc + 1, w).unwrap(),
    ]
}

fn frame_grid() -> U16Array {
    let n = 802usize;
    let mut data: Vec<u16> = vec![100; n * n];
    for k in 0..n {
        for line in [156usize, 401, 646] {
            data[line * n + k] = 1000;
        }
        for line in [86usize, 401, 716] {
            data[k * n + line] = 1000;
        }
    }
    U16Array::from_vec(n, n, &data).unwrap()
}

#[test]
fn farthest_white_counts_outward() {
    let g = with_pixels(4, 5, &[(1, 3, 100)]);
    assert_eq!(find_farthest_white(&g, true, true, 50), (1, 3));
    assert_eq!(find_farthest_white(&g, false, false, 50), (2, 1));
    assert_eq!(find_farthest_white(&g, true, false, 50), (1, 1));
    assert_eq!(find_farthest_white(&g, false, true, 50), (2, 3));
}

#[test]
fn farthest_white_takes_row_and_column_independently() {
    let g = with_pixels(6, 6, &[(1, 4, 100), (5, 2, 100), (0, 0, 100)]);
    assert_eq!(find_farthest_white(&g, true, true, 50), (5, 4));
    assert_eq!(find_farthest_white(&g, true, true, 100), (5, 4));
    assert_eq!(find_farthest_white(&g, true, true, 101), (0, 0));
}

#[test]
fn farthest_white_without_bright_pixels_is_zero() {
    let g = with_pixels(4, 5, &[]);
    assert_eq!(find_farthest_white(&g, true, true, 1), (0, 0));
    assert_eq!(find_farthest_white(&g, true, true, 0), (3, 4));
    let empty = U16Array::from_vec(0, 3, &vec![]).unwrap();
    assert_eq!(find_farthest_white(&empty, false, false, 0), (0, 0));
}

#[test]
fn the_quadrant_with_the_outlier_is_selected() {
    let cases: [(i64, i64, usize); 4] = [(-8, -7, 0), (8, -7, 1), (-8, 7, 2), (8, 7, 3)];
    for (dx, dy, quadrant) in cases {
        let target = target_with_outlier(dx, dy);
        let quads = quadrants_of(&target, 10, 10);
        let (found, point) = farthest_q(&quads, 500).unwrap();
        assert_eq!(found, quadrant);
        assert_eq!(point, [[6, 7], [6, 7]]);
        let (x, y) = center_point(point, found, 10, 10).unwrap();
        assert_eq!((x as i64, y as i64), (10 + dx, 10 + dy));
        let distance = distance_pixel(x, y, 10, 10);
        assert_eq!(distance, 11);
        let exact = ((dx * dx + dy * dy) as f64).sqrt();
        assert!((distance as f64 - exact).abs() <= 1.0);
    }
}

#[test]
fn the_farthest_point_is_the_brightest_of_the_farthest_row_and_column() {
    let quadrant = with_pixels(8, 8, &[(5, 1, 700), (5, 2, 900), (2, 6, 600), (1, 6, 800)]);
    let blank = with_pixels(8, 8, &[]);
    let quads = vec![with_pixels(8, 8, &[]), with_pixels(8, 8, &[]), blank, quadrant];
    let (found, point) = farthest_q(&quads, 500).unwrap();
    assert_eq!(found, 3);
    assert_eq!(point, [[5, 2], [1, 6]]);
    assert_eq!(center_point(point, found, 20, 30), Ok((23, 32)));
}

#[test]
fn the_last_of_equally_bright_pixels_is_taken() {
    let quadrant = with_pixels(8, 8, &[(5, 1, 900), (5, 2, 900), (2, 6, 800), (1, 6, 800)]);
    let quads = vec![with_pixels(8, 8, &[]), with_pixels(8, 8, &[]), with_pixels(8, 8, &[]), quadrant];
    let (found, point) = farthest_q(&quads, 500).unwrap();
    assert_eq!(found, 3);
    assert_eq!(point, [[5, 2], [2, 6]]);
}

#[test]
fn of_quadrants_with_equal_reach_the_last_is_taken() {
    let quads = vec![
        with_pixels(8, 8, &[(7 - 3, 7 - 4, 900)]),
        with_pixels(8, 8, &[(7 - 4, 3, 900)]),
        with_pixels(8, 8, &[]),
        with_pixels(8, 8, &[]),
    ];
    let (found, point) = farthest_q(&quads, 500).unwrap();
    assert_eq!(found, 1);
    assert_eq!(point, [[4, 3], [4, 3]]);
    let dark = vec![with_pixels(4, 4, &[]), with_pixels(4, 4, &[]), with_pixels(4, 4, &[]), with_pixels(4, 4, &[])];
    let (last, origin) = farthest_q(&dark, 500).unwrap();
    assert_eq!(last, 3);
    assert_eq!(origin, [[0, 0], [0, 0]]);
}

#[test]
fn farthest_q_errors() {
    let three = vec![with_pixels(4, 4, &[]), with_pixels(4, 4, &[]), with_pixels(4, 4, &[])];
    assert_eq!(farthest_q(&three, 500), Err(GeometryError::IndexRange));
    let empty_last = vec![
        with_pixels(4, 4, &[]),
        with_pixels(4, 4, &[]),
        with_pixels(4, 4, &[]),
        U16Array::from_vec(0, 4, &vec![]).unwrap(),
    ];
    assert_eq!(farthest_q(&empty_last, 500), Err(GeometryError::IndexRange));
    let empty_first = vec![
        U16Array::from_vec(0, 4, &vec![]).unwrap(),
        with_pixels(4, 4, &[]),
        with_pixels(4, 4, &[]),
        with_pixels(4, 4, &[(1, 1, 900)]),
    ];
    assert!(farthest_q(&empty_first, 500).is_ok());
}

#[test]
fn center_point_mirrors_by_quadrant() {
    let point = [[9, 3], [4, 8]];
    assert_eq!(center_point(point, 0, 20, 30), Ok((16, 25)));
    assert_eq!(center_point(point, 1, 20, 30), Ok((24, 25)));
    assert_eq!(center_point(point, 2, 20, 30), Ok((16, 35)));
    assert_eq!(center_point(point, 3, 20, 30), Ok((24, 35)));
    assert_eq!(center_point(point, 4, 20, 30), Ok((3, 4)));
    assert_eq!(center_point([[0, 0], [0, 0]], 0, 1, 1), Ok((0, 0)));
}

#[test]
fn center_point_outside_the_target_is_an_index_range_error() {
    let point = [[9, 3], [4, 8]];
    assert_eq!(center_point(point, 0, 3, 30), Err(GeometryError::IndexRange));
    assert_eq!(center_point(point, 0, 20, 4), Err(GeometryError::IndexRange));
    assert_eq!(center_point(point, 3, -5, 30), Err(GeometryError::IndexRange));
    assert_eq!(center_point(point, 1, 20, -30), Err(GeometryError::IndexRange));
    assert_eq!(center_point(point, 3, -4, -5), Ok((0, 0)));
}

#[test]
fn the_centre_of_a_target_is_where_its_lines_cross() {
    let n = 64usize;
    let mut data: Vec<u16> = vec![100; n * n];
    for k in 0..n {
        data[30 * n + k] = 1000;
        data[k * n + 35] = 1000;
    }
    let g = U16Array::from_vec(n, n, &data).unwrap();
    assert_eq!(find_center_circle_line(&g), Ok((35, 30)));
}

#[test]
fn the_centre_is_the_mean_rounded_up() {
    let n = 64usize;
    let mut data: Vec<u16> = vec![100; n * n];
    for k in 0..n {
        let row = if k < 32 { 30 } else { 33 };
        data[row * n + k] = 1000;
        let col = if k < 32 { 20 } else { 21 };
        data[k * n + col] = 1000;
    }
    let g = U16Array::from_vec(n, n, &data).unwrap();
    assert_eq!(find_center_circle_line(&g), Ok((21, 32)));
}

#[test]
fn a_target_too_small_for_strips_is_an_index_range_error() {
    let g = U16Array::from_vec(10, 10, &vec![5; 100]).unwrap();
    assert_eq!(find_center_circle_line(&g), Err(GeometryError::IndexRange));
}

#[test]
fn split_cuts_the_target_into_quadrants() {
    let g = frame_grid();
    let xpoints: Vec<i32> = vec![86, 401, 716];
    let ypoints: Vec<i32> = vec![156, 401, 646];
    let (target, quads, white, center) = split_q_circle(&xpoints, &ypoints, &g).unwrap();
    assert_eq!(target.nrows(), 64);
    assert_eq!(target.ncols(), 64);
    assert_eq!(target.at(0, 0), 100);
    assert_eq!(target.at(32, 0), 1000);
    assert_eq!(target.at(0, 32), 1000);
    assert_eq!(center, (32, 32));
    assert_eq!(white, 1000);
    assert_eq!(quads.len(), 4);
    assert_eq!((quads[0].nrows(), quads[0].ncols()), (32, 32));
    assert_eq!((quads[1].nrows(), quads[1].ncols()), (32, 31));
    assert_eq!((quads[2].nrows(), quads[2].ncols()), (31, 32));
    assert_eq!((quads[3].nrows(), quads[3].ncols()), (31, 31));
    for q in &quads {
        assert_eq!(q.max(), Some(100));
    }
}

#[test]
fn split_errors() {
    let g = frame_grid();
    let xpoints: Vec<i32> = vec![86, 401, 716];
    let ypoints: Vec<i32> = vec![156, 401, 646];
    assert_eq!(
        split_q_circle(&vec![86, 401], &ypoints, &g).err(),
        Some(GeometryError::IndexRange)
    );
    assert_eq!(
        split_q_circle(&xpoints, &vec![156, 401], &g).err(),
        Some(GeometryError::IndexRange)
    );
    assert_eq!(
        split_q_circle(&xpoints, &vec![156, 401, 401], &g).err(),
        Some(GeometryError::Calibration)
    );
    assert_eq!(
        split_q_circle(&vec![86, 790, 716], &ypoints, &g).err(),
        Some(GeometryError::IndexRange)
    );
    assert_eq!(
        split_q_circle(&vec![86, 10, 716], &ypoints, &g).err(),
        Some(GeometryError::IndexRange)
    );
    assert_eq!(
        split_q_circle(&xpoints, &vec![156, 401, 403], &g).err(),
        Some(GeometryError::IndexRange)
    );
}
