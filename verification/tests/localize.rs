use field_qa::error::GeometryError;
use field_qa::grid::U16Array;
use field_qa::localize::{
    arr_correction, band_means, edge_of_profile, find_edge_tool, find_mean, inv_lut, is_inverse,
    reversed, CropRegion,
};

fn step_profile(len: usize, step: usize, low: u128, high: u128) -> Vec<u128> {
    (0..len).map(|i| if i < step { low } else { high }).collect()
}

fn tool_image(n: usize, first: usize, last: usize, outside: u16, inside: u16) -> U16Array {
    let mut data: Vec<u16> = Vec::new();
    for i in 0..n {
        for j in 0..n {
            let in_tool = i >= first && i < last && j >= first && j < last;
            data.push(if in_tool { inside } else { outside });
        }
    }
    U16Array::from_vec(n, n, &data).unwrap()
}

#[test]
fn find_mean_rounds_down() {
    assert_eq!(find_mean(vec![1, 2, 3, 4], 4), 2);
    assert_eq!(find_mean(vec![10, 20, 30], 3), 20);
    assert_eq!(find_mean(vec![10, 20, 30], 2), 30);
    assert_eq!(find_mean(vec![0, 0], 2), 0);
    assert_eq!(find_mean(vec![1], 2), 0);
}

#[test]
fn find_mean_is_limited_to_u16() {
    assert_eq!(find_mean(vec![65535, 65535], 2), 65535);
    assert_eq!(find_mean(vec![65536, 65536], 2), 65535);
    assert_eq!(find_mean(vec![u128::MAX, u128::MAX, 5], 3), 65535);
    assert_eq!(find_mean(vec![u128::MAX, 1], usize::MAX), 65535);
    assert_eq!(find_mean(vec![u128::MAX], usize::MAX), 65535);
}

#[test]
fn find_mean_over_nothing() {
    assert_eq!(find_mean(vec![], 0), 0);
    assert_eq!(find_mean(vec![0, 0], 0), 0);
    assert_eq!(find_mean(vec![3], 0), 65535);
    assert_eq!(find_mean(vec![], 4), 0);
}

#[test]
fn find_edge_tool_reports_the_sample_before_the_run() {
    let rising = step_profile(100, 40, 0, 1000);
    assert_eq!(find_edge_tool(rising.clone(), 100, 30, 500), Ok(39));
    assert_eq!(find_edge_tool(rising.clone(), 50, 30, 500), Ok(39));
    assert_eq!(find_edge_tool(rising.clone(), 49, 30, 500), Ok(0));
    let falling = step_profile(100, 55, 1000, 0);
    assert_eq!(find_edge_tool(falling, 100, 30, 500), Ok(54));
    assert_eq!(find_edge_tool(rising, 100, 40, 500), Ok(39));
}

#[test]
fn find_edge_tool_ignores_short_runs() {
    let mut profile = step_profile(100, 70, 0, 1000);
    for i in 40..49 {
        profile[i] = 1000;
    }
    assert_eq!(find_edge_tool(profile.clone(), 100, 30, 500), Ok(69));
    profile[49] = 1000;
    assert_eq!(find_edge_tool(profile, 100, 30, 500), Ok(39));
}

#[test]
fn find_edge_tool_without_an_edge_is_zero() {
    assert_eq!(find_edge_tool(vec![5; 60], 60, 30, 500), Ok(0));
    assert_eq!(find_edge_tool(vec![900; 60], 60, 30, 500), Ok(0));
    assert_eq!(find_edge_tool(step_profile(100, 40, 0, 1000), 100, 100, 500), Ok(0));
}

#[test]
fn find_edge_tool_takes_a_mixed_start_as_high() {
    let mut profile = step_profile(100, 50, 1000, 0);
    profile[3] = 0;
    assert_eq!(find_edge_tool(profile, 100, 30, 500), Ok(49));
    let mut low = step_profile(100, 50, 0, 1000);
    low[3] = 1000;
    assert_eq!(find_edge_tool(low, 100, 30, 500), Ok(29));
}

#[test]
fn find_edge_tool_counts_a_sample_at_the_threshold_as_low() {
    let profile = step_profile(100, 40, 500, 501);
    assert_eq!(find_edge_tool(profile, 100, 30, 500), Ok(39));
}

#[test]
fn find_edge_tool_errors() {
    let profile = step_profile(100, 40, 0, 1000);
    assert_eq!(find_edge_tool(profile.clone(), 101, 30, 500), Err(GeometryError::IndexRange));
    assert_eq!(find_edge_tool(profile.clone(), 100, 101, 500), Err(GeometryError::IndexRange));
    assert_eq!(find_edge_tool(vec![0; 20], 20, 0, 500), Err(GeometryError::IndexRange));
    assert_eq!(find_edge_tool(vec![900; 20], 20, 0, 500), Ok(0));
}

#[test]
fn band_means_average_columns_or_rows() {
    let g = U16Array::from_vec(3, 4, &vec![1, 2, 3, 4, 5, 6, 7, 8, 10, 11, 12, 14]).unwrap();
    assert_eq!(band_means(&g, 0, 3, 0, 4, false), vec![5, 6, 7, 8]);
    assert_eq!(band_means(&g, 0, 3, 0, 4, true), vec![2, 6, 11]);
    assert_eq!(band_means(&g, 1, 3, 1, 3, false), vec![8, 9]);
    assert_eq!(band_means(&g, 1, 3, 1, 3, true), vec![6, 11]);
    assert_eq!(band_means(&g, 1, 2, 1, 1, false), Vec::<u128>::new());
}

#[test]
fn reversed_turns_the_order() {
    assert_eq!(reversed(&vec![1, 2, 3]), vec![3, 2, 1]);
    assert_eq!(reversed(&vec![]), Vec::<u128>::new());
}

#[test]
fn edge_of_profile_uses_the_mean_as_threshold() {
    assert_eq!(edge_of_profile(&step_profile(470, 70, 0, 1000)), Ok(69));
    assert_eq!(edge_of_profile(&step_profile(470, 70, 3000, 1000)), Ok(69));
    assert_eq!(edge_of_profile(&vec![7; 470]), Ok(0));
    assert_eq!(edge_of_profile(&vec![7; 20]), Err(GeometryError::IndexRange));
}

#[test]
fn arr_correction_finds_a_bright_tool() {
    let g = tool_image(1000, 100, 900, 0, 1000);
    assert_eq!(
        arr_correction(&g),
        Ok(CropRegion { row1: 99, row2: 901, col1: 99, col2: 901 })
    );
}

#[test]
fn arr_correction_finds_a_dark_tool() {
    let g = tool_image(600, 150, 480, 5000, 200);
    assert_eq!(
        arr_correction(&g),
        Ok(CropRegion { row1: 149, row2: 481, col1: 149, col2: 481 })
    );
}

#[test]
fn arr_correction_without_a_tool_gives_the_search_limits() {
    let g = U16Array::from_vec(200, 300, &vec![9; 60000]).unwrap();
    assert_eq!(
        arr_correction(&g),
        Ok(CropRegion { row1: 30, row2: 170, col1: 30, col2: 270 })
    );
    let least = U16Array::from_vec(120, 120, &vec![9; 14400]).unwrap();
    assert_eq!(
        arr_correction(&least),
        Ok(CropRegion { row1: 30, row2: 90, col1: 30, col2: 90 })
    );
}

#[test]
fn arr_correction_needs_room_for_the_bands() {
    let small = U16Array::from_vec(59, 200, &vec![9; 59 * 200]).unwrap();
    assert_eq!(arr_correction(&small), Err(GeometryError::IndexRange));
    let narrow = U16Array::from_vec(200, 59, &vec![9; 59 * 200]).unwrap();
    assert_eq!(arr_correction(&narrow), Err(GeometryError::IndexRange));
    let short_profiles = U16Array::from_vec(60, 60, &vec![9; 3600]).unwrap();
    assert_eq!(arr_correction(&short_profiles), Err(GeometryError::IndexRange));
    let nearly = U16Array::from_vec(119, 119, &vec![9; 119 * 119]).unwrap();
    assert_eq!(arr_correction(&nearly), Err(GeometryError::IndexRange));
    let low = U16Array::from_vec(100, 200, &vec![9; 20000]).unwrap();
    assert_eq!(arr_correction(&low), Err(GeometryError::IndexRange));
}

#[test]
fn inv_lut_mirrors_between_smallest_and_largest() {
    let g = U16Array::from_vec(2, 2, &vec![1, 5, 3, 2]).unwrap();
    let out = inv_lut(&g).unwrap();
    assert_eq!(out.to_vec(), vec![5, 1, 3, 4]);
    assert_eq!(g.to_vec(), vec![1, 5, 3, 2]);
    let again = inv_lut(&out).unwrap();
    assert_eq!(again.to_vec(), g.to_vec());
    let flat = U16Array::from_vec(1, 3, &vec![7, 7, 7]).unwrap();
    assert_eq!(inv_lut(&flat).unwrap().to_vec(), vec![7, 7, 7]);
    let wide = U16Array::from_vec(1, 2, &vec![0, 65535]).unwrap();
    assert_eq!(inv_lut(&wide).unwrap().to_vec(), vec![65535, 0]);
}

#[test]
fn inv_lut_of_a_grid_without_pixels_is_an_index_range_error() {
    let g = U16Array::from_vec(0, 2, &vec![]).unwrap();
    assert_eq!(inv_lut(&g).err(), Some(GeometryError::IndexRange));
}

#[test]
fn a_bright_centre_line_is_not_inverse() {
    let n = 200usize;
    let mut data: Vec<u16> = vec![100; n * n];
    for j in 0..n {
        data[100 * n + j] = 900;
    }
    let g = U16Array::from_vec(n, n, &data).unwrap();
    assert!(!is_inverse(&g));
}

#[test]
fn columns_that_do_not_agree_are_inverse() {
    let n = 200usize;
    let mut data: Vec<u16> = vec![100; n * n];
    for j in 0..n {
        let row = 40 + (j * 7) % 120;
        data[row * n + j] = 900;
    }
    let g = U16Array::from_vec(n, n, &data).unwrap();
    assert!(is_inverse(&g));
}

#[test]
fn thirty_percent_agreement_is_not_inverse() {
    let n = 200usize;
    let mut data: Vec<u16> = vec![100; n * n];
    for j in 0..n {
        let row = if j >= 24 && j < 27 { 100 } else { 41 + (j * 7) % 110 };
        data[row * n + j] = 900;
    }
    let three_of_twelve = U16Array::from_vec(n, n, &data).unwrap();
    assert!(is_inverse(&three_of_twelve));
    let mut more = data.clone();
    for r in 0..n {
        more[r * n + 27] = 100;
    }
    more[100 * n + 27] = 900;
    let four_of_twelve = U16Array::from_vec(n, n, &more).unwrap();
    assert!(!is_inverse(&four_of_twelve));
}

#[test]
fn a_grid_without_a_strip_is_not_inverse() {
    let g = U16Array::from_vec(10, 10, &vec![1; 100]).unwrap();
    assert!(!is_inverse(&g));
    let empty = U16Array::from_vec(0, 0, &vec![]).unwrap();
    assert!(!is_inverse(&empty));
}
