use field_qa::edges::{
    boxs_posision, central_diff, edge_strengths, find_edges_pos, get_crop_area, locate_edge,
    BoundingBox,
};
use field_qa::error::GeometryError;
use field_qa::grid::U16Array;

fn blank(h: usize, w: usize) -> U16Array {
    U16Array::from_vec(h, w, &vec![0; h * w]).unwrap()
}

fn upright_window(h: usize, w: usize, line: Option<(usize, u16)>, field_from: usize) -> U16Array {
    let mut data: Vec<u16> = Vec::new();
    for _ in 0..h {
        for j in 0..w {
            let mut v = if j >= field_from { 2000 } else { 0 };
            if let Some((at, level)) = line {
                if j == at {
                    v = level;
                }
            }
            data.push(v);
        }
    }
    U16Array::from_vec(h, w, &data).unwrap()
}

fn level_window(h: usize, w: usize, field_until: usize) -> U16Array {
    let mut data: Vec<u16> = Vec::new();
    for i in 0..h {
        for _ in 0..w {
            data.push(if i < field_until { 2000 } else { 0 });
        }
    }
    U16Array::from_vec(h, w, &data).unwrap()
}

fn curve_with(len: usize, peaks: &[(usize, u64)]) -> Vec<u64> {
    let mut curve: Vec<u64> = vec![0; len];
    for (at, level) in peaks {
        curve[*at] = *level;
    }
    curve
}

#[test]
fn boxes_around_the_reference_lines() {
    let g = blank(802, 802);
    let xpoints: Vec<i32> = vec![86, 401, 716];
    let ypoints: Vec<i32> = vec![156, 401, 646];
    let boxes = boxs_posision(&xpoints, &ypoints, &g).unwrap();
    assert_eq!(
        boxes,
        vec![
            BoundingBox { left: 8, top: 153, right: 206, bottom: 281 },
            BoundingBox { left: 8, top: 520, right: 206, bottom: 648 },
            BoundingBox { left: 596, top: 153, right: 793, bottom: 281 },
            BoundingBox { left: 596, top: 520, right: 793, bottom: 648 },
            BoundingBox { left: 258, top: 36, right: 386, bottom: 276 },
            BoundingBox { left: 573, top: 36, right: 701, bottom: 276 },
            BoundingBox { left: 140, top: 526, right: 268, bottom: 766 },
            BoundingBox { left: 494, top: 526, right: 622, bottom: 766 },
        ]
    );
    for b in &boxes {
        assert!(b.left < b.right && b.top < b.bottom);
    }
}

#[test]
fn boxes_keep_a_margin_from_the_border() {
    let g = blank(1000, 1000);
    let xpoints: Vec<i32> = vec![100, 500, 900];
    let ypoints: Vec<i32> = vec![100, 500, 900];
    let boxes = boxs_posision(&xpoints, &ypoints, &g).unwrap();
    assert_eq!(boxes[0], BoundingBox { left: 10, top: 120, right: 250, bottom: 280 });
    assert_eq!(boxes[1], BoundingBox { left: 10, top: 720, right: 250, bottom: 880 });
    assert_eq!(boxes[2], BoundingBox { left: 750, top: 120, right: 989, bottom: 280 });
    assert_eq!(boxes[4], BoundingBox { left: 320, top: 10, right: 480, bottom: 250 });
    assert_eq!(boxes[5], BoundingBox { left: 720, top: 10, right: 880, bottom: 250 });
    assert_eq!(boxes[6], BoundingBox { left: 170, top: 750, right: 330, bottom: 989 });
    assert_eq!(boxes[7], BoundingBox { left: 620, top: 750, right: 780, bottom: 989 });
}

#[test]
fn boxes_of_a_frame_off_the_grid_end_at_its_borders() {
    let g = blank(100, 100);
    let xpoints: Vec<i32> = vec![-3, -2, 5];
    let ypoints: Vec<i32> = vec![-1, -2, -5];
    let boxes = boxs_posision(&xpoints, &ypoints, &g).unwrap();
    assert_eq!(boxes[0], BoundingBox { left: 1, top: 0, right: 12, bottom: 7 });
    assert_eq!(boxes[1], BoundingBox { left: 1, top: 0, right: 12, bottom: 4 });
    assert_eq!(boxes[2], BoundingBox { left: 0, top: 0, right: 20, bottom: 7 });
    assert_eq!(boxes[4], BoundingBox { left: 0, top: 1, right: 6, bottom: 14 });
    assert_eq!(boxes[6], BoundingBox { left: 0, top: 0, right: 6, bottom: 10 });
    assert_eq!(boxes[7], BoundingBox { left: 0, top: 0, right: 9, bottom: 10 });
}

#[test]
fn boxes_of_a_frame_near_the_border_stay_inside_the_grid() {
    let g = blank(100, 100);
    let xpoints: Vec<i32> = vec![90, 95, 99];
    let ypoints: Vec<i32> = vec![10, 50, 90];
    let boxes = boxs_posision(&xpoints, &ypoints, &g).unwrap();
    assert_eq!(boxes[0], BoundingBox { left: 75, top: 12, right: 100, bottom: 28 });
    assert_eq!(boxes[3], BoundingBox { left: 84, top: 72, right: 98, bottom: 88 });
    assert_eq!(boxes[7], BoundingBox { left: 89, top: 75, right: 100, bottom: 98 });
    for b in &boxes {
        assert!(0 <= b.left && b.left <= b.right && b.right <= 100);
        assert!(0 <= b.top && b.top <= b.bottom && b.bottom <= 100);
    }
    assert!(get_crop_area(&boxes, &g).is_ok());
}

#[test]
fn boxes_that_would_end_before_they_start_have_no_extent() {
    let g = blank(100, 100);
    let xpoints: Vec<i32> = vec![-50, 200, 300];
    let ypoints: Vec<i32> = vec![500, 600, -700];
    let boxes = boxs_posision(&xpoints, &ypoints, &g).unwrap();
    assert_eq!(boxes[0], BoundingBox { left: 1, top: 100, right: 1, bottom: 100 });
    assert_eq!(boxes[2], BoundingBox { left: 100, top: 100, right: 100, bottom: 100 });
    for b in &boxes {
        assert!(0 <= b.left && b.left <= b.right && b.right <= 100);
        assert!(0 <= b.top && b.top <= b.bottom && b.bottom <= 100);
    }
    assert!(get_crop_area(&boxes, &g).is_ok());
}

#[test]
fn boxes_need_a_whole_frame() {
    let g = blank(100, 100);
    assert_eq!(
        boxs_posision(&vec![1, 2], &vec![1, 2, 3], &g),
        Err(GeometryError::IndexRange)
    );
    assert_eq!(
        boxs_posision(&vec![1, 2, 3], &vec![1, 2], &g),
        Err(GeometryError::IndexRange)
    );
}

#[test]
fn crop_areas_are_the_windows_of_the_grid() {
    let data: Vec<u16> = (0..400).map(|v| v as u16).collect();
    let g = U16Array::from_vec(20, 20, &data).unwrap();
    let mut boxes: Vec<BoundingBox> = Vec::new();
    for k in 0..8 {
        boxes.push(BoundingBox { left: k, top: 2 * k, right: k + 3, bottom: 2 * k + 2 });
    }
    let crops = get_crop_area(&boxes, &g).unwrap();
    assert_eq!(crops.len(), 8);
    for k in 0..8usize {
        assert_eq!(crops[k].nrows(), 2);
        assert_eq!(crops[k].ncols(), 3);
        assert_eq!(crops[k].at(0, 0), (2 * k * 20 + k) as u16);
        assert_eq!(crops[k].at(1, 2), ((2 * k + 1) * 20 + k + 2) as u16);
    }
}

#[test]
fn crop_areas_errors() {
    let g = blank(20, 20);
    let inside = BoundingBox { left: 0, top: 0, right: 5, bottom: 5 };
    let outside = BoundingBox { left: 0, top: 0, right: 21, bottom: 5 };
    let negative = BoundingBox { left: -1, top: 0, right: 5, bottom: 5 };
    assert!(get_crop_area(&vec![inside; 8], &g).is_ok());
    assert_eq!(get_crop_area(&vec![inside; 7], &g).err(), Some(GeometryError::IndexRange));
    assert_eq!(get_crop_area(&vec![inside; 9], &g).err(), Some(GeometryError::IndexRange));
    let mut boxes = vec![inside; 8];
    boxes[7] = outside;
    assert_eq!(get_crop_area(&boxes, &g).err(), Some(GeometryError::IndexRange));
    boxes[7] = negative;
    assert_eq!(get_crop_area(&boxes, &g).err(), Some(GeometryError::IndexRange));
}

#[test]
fn edge_strengths_are_differences_two_pixels_apart() {
    let g = U16Array::from_vec(2, 5, &vec![0, 10, 30, 60, 100, 9, 9, 0, 9, 50]).unwrap();
    assert_eq!(edge_strengths(&g, true), vec![vec![30u64, 50, 70], vec![9, 0, 50]]);
    let t = U16Array::from_vec(4, 2, &vec![0, 5, 10, 5, 30, 1, 60, 9]).unwrap();
    assert_eq!(edge_strengths(&t, false), vec![vec![30u64, 50], vec![4, 4]]);
    let thin = U16Array::from_vec(2, 2, &vec![1, 2, 3, 4]).unwrap();
    assert_eq!(edge_strengths(&thin, true), vec![Vec::<u64>::new(), Vec::new()]);
}

#[test]
fn locate_edge_stays_at_the_peak_without_another_rise() {
    let curve = curve_with(100, &[(20, 100)]);
    assert_eq!(locate_edge(curve, 50, 2, 10), Ok(21));
}

#[test]
fn locate_edge_refines_a_rise_to_the_right() {
    let curve = curve_with(100, &[(20, 100), (35, 80), (37, 90)]);
    assert_eq!(locate_edge(curve, 50, 2, 10), Ok(38));
}

#[test]
fn locate_edge_refines_a_rise_to_the_left() {
    let curve = curve_with(100, &[(60, 100), (40, 75), (38, 95)]);
    assert_eq!(locate_edge(curve, 80, 2, 10), Ok(39));
}

#[test]
fn locate_edge_prefers_the_left_rise() {
    let curve = curve_with(100, &[(50, 100), (65, 80), (30, 70)]);
    assert_eq!(locate_edge(curve, 90, 2, 10), Ok(27));
    let with_a_local_top = curve_with(100, &[(50, 100), (65, 80), (30, 70), (28, 20)]);
    assert_eq!(locate_edge(with_a_local_top, 90, 2, 10), Ok(29));
    let right_only = curve_with(100, &[(50, 100), (65, 80), (30, 69)]);
    assert_eq!(locate_edge(right_only, 90, 2, 10), Ok(66));
}

#[test]
fn locate_edge_ignores_a_rise_below_seventy_percent() {
    let curve = curve_with(100, &[(20, 100), (35, 69)]);
    assert_eq!(locate_edge(curve, 50, 2, 10), Ok(21));
}

#[test]
fn locate_edge_ignores_a_rise_in_the_zone_of_the_line() {
    let curve = curve_with(100, &[(20, 100), (35, 80), (37, 90)]);
    assert_eq!(locate_edge(curve, 38, 2, 10), Ok(21));
}

#[test]
fn locate_edge_blanks_the_reference_line() {
    let curve = curve_with(100, &[(20, 50), (49, 100), (51, 100)]);
    assert_eq!(locate_edge(curve, 50, 2, 10), Ok(21));
}

#[test]
fn locate_edge_errors() {
    let curve = curve_with(100, &[(20, 100)]);
    assert_eq!(locate_edge(curve.clone(), 2, 2, 10), Err(GeometryError::IndexRange));
    assert_eq!(locate_edge(curve.clone(), 3, 2, 10), Err(GeometryError::IndexRange));
    assert_eq!(locate_edge(curve.clone(), 99, 2, 10), Err(GeometryError::IndexRange));
    assert_eq!(locate_edge(curve.clone(), 50, -1, 10), Err(GeometryError::IndexRange));
    assert_eq!(locate_edge(curve.clone(), -5, 0, 10), Err(GeometryError::IndexRange));
    assert_eq!(locate_edge(curve.clone(), 50, 2, -1), Err(GeometryError::IndexRange));
    assert_eq!(locate_edge(curve.clone(), 50, 2, 21), Err(GeometryError::IndexRange));
    assert_eq!(locate_edge(curve.clone(), 50, 2, 20), Ok(21));
    assert_eq!(locate_edge(curve_with(100, &[(95, 100)]), 50, 2, 10), Err(GeometryError::IndexRange));
    assert_eq!(locate_edge(Vec::new(), 1, 0, 0), Err(GeometryError::IndexRange));
    let near_end = curve_with(100, &[(20, 100), (98, 80)]);
    assert_eq!(locate_edge(near_end, 50, 2, 10), Err(GeometryError::IndexRange));
    let near_start = curve_with(100, &[(20, 100), (2, 80)]);
    assert_eq!(locate_edge(near_start, 50, 2, 10), Err(GeometryError::IndexRange));
}

#[test]
fn central_diff_finds_a_step_edge() {
    let ypoints: Vec<i32> = vec![50, 400, 750];
    let window = upright_window(20, 240, None, 140);
    assert_eq!(central_diff(&window, 8, 128, true, &ypoints), Ok(139));
    let near_the_line = upright_window(20, 240, None, 123);
    assert_eq!(central_diff(&near_the_line, 8, 128, true, &ypoints), Ok(123));
}

#[test]
fn central_diff_loses_an_edge_under_the_line() {
    let ypoints: Vec<i32> = vec![50, 400, 750];
    let on_the_line = upright_window(20, 240, None, 120);
    assert_eq!(
        central_diff(&on_the_line, 8, 128, true, &ypoints),
        Err(GeometryError::IndexRange)
    );
}

#[test]
fn central_diff_skips_the_printed_line() {
    let ypoints: Vec<i32> = vec![50, 400, 750];
    let window = upright_window(20, 240, Some((120, 5000)), 140);
    assert_eq!(central_diff(&window, 8, 128, true, &ypoints), Ok(139));
    let before = upright_window(20, 240, Some((120, 5000)), 100);
    assert_eq!(central_diff(&before, 8, 128, true, &ypoints), Ok(99));
}

#[test]
fn central_diff_across_rows() {
    let ypoints: Vec<i32> = vec![50, 400, 750];
    let window = level_window(240, 20, 100);
    assert_eq!(central_diff(&window, 600, 750, false, &ypoints), Ok(99));
}

#[test]
fn central_diff_errors() {
    let ypoints: Vec<i32> = vec![50, 400, 750];
    let window = upright_window(20, 240, None, 140);
    assert_eq!(
        central_diff(&window, 8, 128, true, &vec![50, 400]),
        Err(GeometryError::IndexRange)
    );
    assert_eq!(
        central_diff(&window, 8, 128, true, &vec![50, 400, 400]),
        Err(GeometryError::Calibration)
    );
    assert_eq!(central_diff(&window, 128, 8, true, &ypoints), Err(GeometryError::IndexRange));
    assert_eq!(central_diff(&window, 8, 300, true, &ypoints), Err(GeometryError::IndexRange));
    let no_rows = U16Array::from_vec(0, 240, &vec![]).unwrap();
    assert_eq!(central_diff(&no_rows, 8, 128, true, &ypoints), Err(GeometryError::IndexRange));
    let thin = blank(20, 2);
    assert_eq!(central_diff(&thin, 0, 1, true, &ypoints), Err(GeometryError::IndexRange));
}

#[test]
fn find_edges_pos_adds_the_origin_of_each_window() {
    let ypoints: Vec<i32> = vec![50, 400, 750];
    let mut crops: Vec<U16Array> = Vec::new();
    let mut boxes: Vec<BoundingBox> = Vec::new();
    let mut references: Vec<i32> = Vec::new();
    for k in 0..4 {
        crops.push(upright_window(20, 240, None, 130 + k));
        boxes.push(BoundingBox { left: 8, top: 1000, right: 248, bottom: 1020 });
        references.push(128);
    }
    for k in 0..4 {
        crops.push(level_window(240, 20, 100 + k));
        boxes.push(BoundingBox { left: 2000, top: 600, right: 2020, bottom: 840 });
        references.push(750);
    }
    assert_eq!(
        find_edges_pos(&crops, &boxes, &references, &ypoints),
        Ok(vec![137, 138, 139, 140, 699, 700, 701, 702])
    );
}

#[test]
fn find_edges_pos_errors() {
    let ypoints: Vec<i32> = vec![50, 400, 750];
    let b = BoundingBox { left: 8, top: 8, right: 248, bottom: 28 };
    let mut crops: Vec<U16Array> = Vec::new();
    for _ in 0..8 {
        crops.push(upright_window(20, 240, None, 140));
    }
    let boxes = vec![b; 8];
    let references: Vec<i32> = vec![128; 8];
    assert_eq!(
        find_edges_pos(&crops, &boxes, &references, &ypoints),
        Err(GeometryError::IndexRange)
    );
    assert_eq!(
        find_edges_pos(&crops, &vec![b; 7], &references, &ypoints),
        Err(GeometryError::IndexRange)
    );
    assert_eq!(
        find_edges_pos(&crops, &boxes, &vec![128; 9], &ypoints),
        Err(GeometryError::IndexRange)
    );
    assert_eq!(
        find_edges_pos(&crops, &boxes, &references, &vec![50, 400, 400]),
        Err(GeometryError::Calibration)
    );
    let far = BoundingBox { left: i32::MAX - 130, top: 8, right: 248, bottom: 28 };
    let mut upright = vec![far; 8];
    for k in 4..8 {
        upright[k] = b;
    }
    let mut far_references: Vec<i32> = vec![i32::MAX - 10; 8];
    for k in 4..8 {
        far_references[k] = 128;
    }
    assert_eq!(
        find_edges_pos(&crops, &upright, &far_references, &ypoints),
        Err(GeometryError::IndexRange)
    );
}
