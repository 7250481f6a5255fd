use field_qa::error::GeometryError;
use field_qa::grid::U16Array;
use field_qa::localize::CropRegion;
use field_qa::pipeline::{
    apply_correction, cut_region, find_correction, make_upright, measure_circle, measure_field,
    processing, quarter_turn, Correction,
};
use field_qa::rotate::Rotation;
use field_qa::solver::{CornerName, Point};

const SIZE: usize = 1000;
const FIRST: usize = 100;
const LAST: usize = 900;
const CENTRE: f64 = 401.0;

fn triangle(distance: f64) -> f64 {
    let d = distance.abs();
    if d >= 1.5 {
        0.0
    } else {
        1.0 - d / 1.5
    }
}

fn lines(iu: f64, ju: f64, centre: f64, outer: f64) -> f64 {
    let mut v: f64 = 0.0;
    for (at, level) in [(156.0, outer), (401.0, centre), (646.0, outer)] {
        v = v.max(level * triangle(iu - at));
    }
    for (at, level) in [(86.0, outer), (401.0, centre), (716.0, outer)] {
        v = v.max(level * triangle(ju - at));
    }
    v
}

fn large_scene(iu: f64, ju: f64) -> f64 {
    1000.0 + lines(iu, ju, 2000.0, 1500.0)
}

fn small_scene(iu: f64, ju: f64, inset: f64) -> f64 {
    let dx = ju - (CENTRE + 3.0);
    let dy = iu - (CENTRE - 2.0);
    if dx * dx + dy * dy <= 100.0 {
        return 5000.0;
    }
    let inside = ju >= 86.0 + inset - 0.5
        && ju <= 716.0 - inset + 0.5
        && iu >= 156.0 + inset - 0.5
        && iu <= 646.0 - inset + 0.5;
    let base = if inside { 2000.0 } else { 300.0 };
    base + lines(iu, ju, 400.0, 400.0)
}

fn raw_image(scene: &dyn Fn(f64, f64) -> f64, degrees: f64) -> U16Array {
    let angle = degrees.to_radians();
    let (sin, cos) = angle.sin_cos();
    let mut data: Vec<u16> = Vec::with_capacity(SIZE * SIZE);
    for row in 0..SIZE {
        for col in 0..SIZE {
            let in_tool = row >= FIRST && row < LAST && col >= FIRST && col < LAST;
            if !in_tool {
                data.push(0);
                continue;
            }
            let x = col as f64 - 99.0 - CENTRE;
            let y = row as f64 - 99.0 - CENTRE;
            let ju = x * cos + y * sin + CENTRE;
            let iu = -x * sin + y * cos + CENTRE;
            data.push(scene(iu, ju).round() as u16);
        }
    }
    U16Array::from_vec(SIZE, SIZE, &data).unwrap()
}

fn measure_pair(degrees: f64, inset: f64) {
    let large = raw_image(&large_scene, degrees);
    let small = raw_image(&|iu, ju| small_scene(iu, ju, inset), degrees);
    let report = processing(&large, &small).unwrap();
    let correction = report.correction;
    assert_eq!(correction.region, CropRegion { row1: 99, row2: 901, col1: 99, col2: 901 });
    assert!(!correction.quarter_turn);
    assert!(!correction.inverse);
    let angle = degrees_of(correction.rotation);
    assert!((angle - degrees).abs() < 0.1, "angle {}", angle);
    let expected_x = [86, 401, 716];
    let expected_y = [156, 401, 646];
    for k in 0..3 {
        assert!((report.xpoints[k] - expected_x[k]).abs() <= 1, "x {:?}", report.xpoints);
        assert!((report.ypoints[k] - expected_y[k]).abs() <= 1, "y {:?}", report.ypoints);
    }
    let spacing = (report.ypoints[2] - report.ypoints[1]) as f64;
    let per_pixel = 7000.0 / spacing;
    assert_eq!(report.sides.len(), 4);
    let nominal = [9000.0, 9000.0, 7000.0, 7000.0];
    for k in 0..4 {
        let side = report.sides[k];
        let expected = nominal[k] - inset * per_pixel;
        assert!(
            (side.worst.length as f64 - expected).abs() <= 2.5 * per_pixel,
            "side {} worst {:?}",
            k,
            side
        );
        assert!(
            (side.middle.length as f64 - expected).abs() <= 2.5 * per_pixel,
            "side {} middle {:?}",
            k,
            side
        );
        assert_eq!(side.worst.length - side.worst.error, nominal[k] as i64);
        assert_eq!(side.middle.length - side.middle.error, nominal[k] as i64);
    }
    assert!(matches!(report.sides[0].corner, CornerName::TopLeft | CornerName::BottomLeft));
    assert!(matches!(report.sides[1].corner, CornerName::TopRight | CornerName::BottomRight));
    assert!(matches!(report.sides[2].corner, CornerName::TopLeft | CornerName::TopRight));
    assert!(matches!(report.sides[3].corner, CornerName::BottomLeft | CornerName::BottomRight));
    let corners = report.corners;
    let near = |p: Point, x: f64, y: f64| {
        (p.x as f64 - x).abs() <= 3.0 && (p.y as f64 - y).abs() <= 3.0
    };
    assert!(near(corners.top_left, 86.0 + inset, 156.0 + inset), "{:?}", corners);
    assert!(near(corners.top_right, 716.0 - inset, 156.0 + inset), "{:?}", corners);
    assert!(near(corners.bottom_left, 86.0 + inset, 646.0 - inset), "{:?}", corners);
    assert!(near(corners.bottom_right, 716.0 - inset, 646.0 - inset), "{:?}", corners);
    assert_eq!(report.target.nrows(), 64);
    assert_eq!(report.target.ncols(), 64);
    let circle = report.circle;
    assert!((circle.center_x - 32).abs() <= 1 && (circle.center_y - 32).abs() <= 1, "{:?}", circle);
    assert!(circle.point_x as i32 > circle.center_x, "{:?}", circle);
    assert!((circle.point_y as i32) < circle.center_y, "{:?}", circle);
    assert!(circle.distance > 0 && circle.distance < 500, "{:?}", circle);
    assert_eq!(circle.angle, 2 * circle.distance);
    assert_eq!(report.overlay.len(), 802 * 802);
    assert_eq!(report.overlay.iter().copied().max(), Some(255));
}

fn degrees_of(rotation: Rotation) -> f64 {
    (rotation.sin as f64).atan2(rotation.cos as f64).to_degrees()
}

#[test]
fn quarter_turn_is_the_rotation_by_one_point_five_seven() {
    let q = quarter_turn();
    assert_eq!(q, Rotation { cos: 835, sin: 1048576 });
    assert_eq!(q.cos, (1.57f64.cos() * 1048576.0).round() as i64);
    assert_eq!(q.sin, (1.57f64.sin() * 1048576.0).round() as i64);
}

#[test]
fn cut_region_cuts_rows_and_columns() {
    let data: Vec<u16> = (0..30).collect();
    let g = U16Array::from_vec(5, 6, &data).unwrap();
    let cut = cut_region(&g, CropRegion { row1: 1, row2: 3, col1: 2, col2: 5 }).unwrap();
    assert_eq!(cut.to_vec(), vec![8, 9, 10, 14, 15, 16]);
    let bad = [
        CropRegion { row1: 3, row2: 1, col1: 2, col2: 5 },
        CropRegion { row1: 1, row2: 6, col1: 2, col2: 5 },
        CropRegion { row1: 1, row2: 3, col1: 2, col2: 7 },
        CropRegion { row1: 1, row2: 3, col1: 5, col2: 2 },
        CropRegion { row1: usize::MAX, row2: usize::MAX, col1: 0, col2: 1 },
    ];
    for region in bad {
        assert_eq!(cut_region(&g, region).err(), Some(GeometryError::IndexRange));
    }
}

#[test]
fn make_upright_inverts_when_asked() {
    let g = U16Array::from_vec(2, 3, &vec![1, 2, 3, 4, 5, 6]).unwrap();
    let region = CropRegion { row1: 0, row2: 2, col1: 1, col2: 3 };
    assert_eq!(make_upright(&g, region, false, false).unwrap().to_vec(), vec![2, 3, 5, 6]);
    assert_eq!(make_upright(&g, region, false, true).unwrap().to_vec(), vec![6, 5, 3, 2]);
    let empty = CropRegion { row1: 1, row2: 1, col1: 1, col2: 3 };
    assert_eq!(make_upright(&g, empty, false, false).unwrap().nrows(), 0);
    assert_eq!(make_upright(&g, empty, false, true).err(), Some(GeometryError::IndexRange));
    assert_eq!(make_upright(&g, empty, true, false).err(), Some(GeometryError::IndexRange));
}

#[test]
fn make_upright_turns_when_asked() {
    let mut data: Vec<u16> = vec![0; 25];
    data[1 * 5 + 3] = 900;
    let g = U16Array::from_vec(5, 5, &data).unwrap();
    let region = CropRegion { row1: 0, row2: 5, col1: 0, col2: 5 };
    let turned = make_upright(&g, region, true, false).unwrap();
    assert_eq!(turned.at(2, 1), 899);
    assert_eq!(turned.at(0, 0), 900);
    assert_eq!(turned.at(4, 3), 0);
}

#[test]
fn apply_correction_cuts_and_rotates() {
    let data: Vec<u16> = (0..30).map(|v| 10 * v as u16).collect();
    let g = U16Array::from_vec(5, 6, &data).unwrap();
    let correction = Correction {
        region: CropRegion { row1: 1, row2: 4, col1: 2, col2: 6 },
        quarter_turn: false,
        inverse: false,
        rotation: Rotation { cos: 1048576, sin: 0 },
    };
    let out = apply_correction(&g, correction).unwrap();
    assert_eq!(out.to_vec(), vec![80, 90, 100, 230, 140, 150, 160, 230, 230, 230, 230, 230]);
    let nothing = Correction {
        region: CropRegion { row1: 1, row2: 1, col1: 2, col2: 6 },
        quarter_turn: false,
        inverse: false,
        rotation: Rotation { cos: 1048576, sin: 0 },
    };
    assert_eq!(apply_correction(&g, nothing).err(), Some(GeometryError::IndexRange));
}

#[test]
fn images_too_small_for_the_tool_are_an_index_range_error() {
    let g = U16Array::from_vec(50, 50, &vec![7; 2500]).unwrap();
    assert_eq!(find_correction(&g), Err(GeometryError::IndexRange));
    assert_eq!(processing(&g, &g).err(), Some(GeometryError::IndexRange));
    let flat = U16Array::from_vec(300, 300, &vec![7; 90000]).unwrap();
    assert_eq!(processing(&flat, &flat).err(), Some(GeometryError::IndexRange));
}

#[test]
fn measuring_needs_a_whole_frame() {
    let g = U16Array::from_vec(100, 100, &vec![7; 10000]).unwrap();
    let short: Vec<i32> = vec![10, 50];
    let whole: Vec<i32> = vec![10, 50, 90];
    assert_eq!(measure_field(&g, &short, &whole).err(), Some(GeometryError::IndexRange));
    assert_eq!(measure_field(&g, &whole, &short).err(), Some(GeometryError::IndexRange));
    assert_eq!(measure_circle(&g, &short, &whole).err(), Some(GeometryError::IndexRange));
    assert_eq!(measure_circle(&g, &whole, &short).err(), Some(GeometryError::IndexRange));
    let level: Vec<i32> = vec![10, 50, 50];
    assert_eq!(measure_circle(&g, &whole, &level).err(), Some(GeometryError::Calibration));
}

#[test]
fn a_misaligned_pair_is_measured_against_its_own_frame() {
    measure_pair(2.0, 12.0);
}

#[test]
fn a_field_near_the_reference_lines_has_nearly_nominal_sides() {
    measure_pair(2.0, 3.0);
}

#[test]
fn an_upright_pair_needs_no_rotation() {
    measure_pair(0.0, 12.0);
    let large = raw_image(&large_scene, 0.0);
    let correction = find_correction(&large).unwrap();
    assert_eq!(correction.rotation, Rotation { cos: 1048576, sin: 0 });
}

#[test]
fn a_pair_tilted_the_other_way_is_measured_too() {
    measure_pair(-1.5, 12.0);
}
