use field_qa::edges::BoundingBox;
use field_qa::error::GeometryError;
use field_qa::solver::{
    find_intersection, length_line, linear_equation, measure_deviation, middle_of, position_on,
    rectangle_edge_points, CornerName, Corners, LengthMeasurement, Line, Point, SideMeasurement,
    Sides,
};

fn tall(mid: i32) -> BoundingBox {
    BoundingBox { left: 0, top: mid - 50, right: 10, bottom: mid + 50 }
}

fn wide(mid: i32) -> BoundingBox {
    BoundingBox { left: mid - 50, top: 0, right: mid + 50, bottom: 10 }
}

fn boxes() -> Vec<BoundingBox> {
    vec![tall(200), tall(600), tall(200), tall(600), wide(200), wide(600), wide(200), wide(600)]
}

#[test]
fn linear_equation_through_two_points() {
    assert_eq!(linear_equation(0, 5, 10, 15), Line { rise: 10, run: 10, offset: 50 });
    assert_eq!(linear_equation(2, 3, 4, 9), Line { rise: 6, run: 2, offset: -6 });
    assert_eq!(linear_equation(4, 9, 2, 3), Line { rise: -6, run: -2, offset: 6 });
}

#[test]
fn linear_equation_of_one_column_takes_the_rise_as_slope() {
    assert_eq!(linear_equation(3, 0, 3, 8), Line { rise: 8, run: 1, offset: -24 });
    assert_eq!(linear_equation(3, 5, 3, 5), Line { rise: 0, run: 1, offset: 5 });
}

#[test]
fn lines_through_five_ten_meet_there() {
    let pairs = [
        (linear_equation(0, 5, 10, 15), linear_equation(0, 15, 10, 5)),
        (linear_equation(4, 7, 7, 16), linear_equation(1, 12, 9, 8)),
        (linear_equation(5, 10, 6, 100), linear_equation(-5, 10, 25, 10)),
        (linear_equation(105, -90, 5, 10), linear_equation(5, 10, 1000, 11)),
    ];
    for (a, b) in pairs {
        assert_eq!(find_intersection(a, b), Ok(Point { x: 5, y: 10 }));
        assert_eq!(find_intersection(b, a), Ok(Point { x: 5, y: 10 }));
    }
}

#[test]
fn intersection_rounds_to_the_nearest_pixel() {
    let a = linear_equation(0, 0, 10, 10);
    let b = linear_equation(0, 1, 1, 0);
    assert_eq!(find_intersection(a, b), Ok(Point { x: 1, y: 1 }));
    let c = linear_equation(0, 0, 3, 1);
    let d = linear_equation(0, 10, 1, 9);
    assert_eq!(find_intersection(c, d), Ok(Point { x: 8, y: 3 }));
    let e = linear_equation(0, 0, -10, 10);
    let f = linear_equation(0, 1, -1, 0);
    assert_eq!(find_intersection(e, f), Ok(Point { x: -1, y: 1 }));
}

#[test]
fn parallel_lines_are_degenerate() {
    let a = linear_equation(0, 0, 10, 10);
    let b = linear_equation(0, 5, 4, 9);
    assert_eq!(find_intersection(a, b), Err(GeometryError::DegenerateLines));
    assert_eq!(find_intersection(a, a), Err(GeometryError::DegenerateLines));
}

#[test]
fn middle_of_rounds_toward_zero() {
    assert_eq!(middle_of(150, 250), 200);
    assert_eq!(middle_of(3, 4), 3);
    assert_eq!(middle_of(-3, -4), -3);
    assert_eq!(middle_of(i32::MAX, i32::MAX), i32::MAX);
}

#[test]
fn rectangle_corners_from_eight_samples() {
    let edges: Vec<i32> = vec![100, 102, 700, 698, 100, 100, 700, 700];
    let (corners, sides) = rectangle_edge_points(&boxes(), &edges).unwrap();
    assert_eq!(sides.left, Line { rise: 400, run: 2, offset: -39600 });
    assert_eq!(sides.right, Line { rise: 400, run: -2, offset: -280400 });
    assert_eq!(sides.top, Line { rise: 0, run: 400, offset: 40000 });
    assert_eq!(sides.bottom, Line { rise: 0, run: 400, offset: 280000 });
    assert_eq!(corners.top_left, Point { x: 100, y: 100 });
    assert_eq!(corners.top_right, Point { x: 701, y: 100 });
    assert_eq!(corners.bottom_left, Point { x: 103, y: 700 });
    assert_eq!(corners.bottom_right, Point { x: 698, y: 700 });
}

#[test]
fn rectangle_with_upright_sides() {
    let edges: Vec<i32> = vec![100, 100, 700, 700, 150, 150, 650, 650];
    let (corners, sides) = rectangle_edge_points(&boxes(), &edges).unwrap();
    assert_eq!(sides.left, Line { rise: 400, run: 1, offset: -39800 });
    assert_eq!(corners.top_left, Point { x: 100, y: 150 });
    assert_eq!(corners.top_right, Point { x: 700, y: 150 });
    assert_eq!(corners.bottom_left, Point { x: 101, y: 650 });
    assert_eq!(corners.bottom_right, Point { x: 701, y: 650 });
}

#[test]
fn rectangle_needs_eight_samples() {
    let edges: Vec<i32> = vec![100, 102, 700, 698, 100, 100, 700];
    assert_eq!(rectangle_edge_points(&boxes(), &edges), Err(GeometryError::IndexRange));
    let few: Vec<BoundingBox> = vec![tall(200); 7];
    let eight: Vec<i32> = vec![0; 8];
    assert_eq!(rectangle_edge_points(&few, &eight), Err(GeometryError::IndexRange));
}

#[test]
fn rectangle_with_parallel_sides_is_degenerate() {
    let same: Vec<BoundingBox> = vec![tall(200); 8];
    let edges: Vec<i32> = vec![100, 100, 700, 700, 100, 100, 700, 700];
    assert_eq!(rectangle_edge_points(&same, &edges), Err(GeometryError::DegenerateLines));
}

#[test]
fn position_on_a_line() {
    let left = Line { rise: 400, run: 2, offset: -39600 };
    assert_eq!(position_on(left, true, 100), 100);
    assert_eq!(position_on(left, true, 400), 101);
    assert_eq!(position_on(left, true, 700), 103);
    let top = Line { rise: 1, run: 4, offset: 400 };
    assert_eq!(position_on(top, false, 0), 100);
    assert_eq!(position_on(top, false, 2), 101);
    assert_eq!(position_on(top, false, 1), 100);
    assert_eq!(position_on(top, false, -2), 100);
}

#[test]
fn measure_deviation_converts_pixels_to_length() {
    assert_eq!(measure_deviation(350, 9000, 5), LengthMeasurement { length: 8900, error: -100 });
    assert_eq!(measure_deviation(350, 9000, -5), LengthMeasurement { length: 9100, error: 100 });
    assert_eq!(measure_deviation(350, 7000, 0), LengthMeasurement { length: 7000, error: 0 });
}

#[test]
fn length_line_measures_the_four_sides() {
    let corners = Corners {
        top_left: Point { x: 100, y: 100 },
        top_right: Point { x: 701, y: 100 },
        bottom_left: Point { x: 103, y: 700 },
        bottom_right: Point { x: 698, y: 700 },
    };
    let sides = Sides {
        left: Line { rise: 400, run: 2, offset: -39600 },
        right: Line { rise: 400, run: -2, offset: -280400 },
        top: Line { rise: 0, run: 400, offset: 40000 },
        bottom: Line { rise: 0, run: 400, offset: 280000 },
    };
    let xpoints: Vec<i32> = vec![100, 400, 700];
    let ypoints: Vec<i32> = vec![100, 400, 750];
    let results = length_line(corners, sides, &xpoints, &ypoints).unwrap();
    assert_eq!(results.len(), 4);
    assert_eq!(
        results[0],
        SideMeasurement {
            worst: LengthMeasurement { length: 8940, error: -60 },
            middle: LengthMeasurement { length: 8980, error: -20 },
            corner: CornerName::BottomLeft,
            corner_point: Point { x: 103, y: 700 },
            middle_point: Point { x: 101, y: 400 },
        }
    );
    assert_eq!(
        results[1],
        SideMeasurement {
            worst: LengthMeasurement { length: 8960, error: -40 },
            middle: LengthMeasurement { length: 8980, error: -20 },
            corner: CornerName::BottomRight,
            corner_point: Point { x: 698, y: 700 },
            middle_point: Point { x: 699, y: 400 },
        }
    );
    assert_eq!(
        results[2],
        SideMeasurement {
            worst: LengthMeasurement { length: 7000, error: 0 },
            middle: LengthMeasurement { length: 7000, error: 0 },
            corner: CornerName::TopRight,
            corner_point: Point { x: 701, y: 100 },
            middle_point: Point { x: 400, y: 100 },
        }
    );
    assert_eq!(
        results[3],
        SideMeasurement {
            worst: LengthMeasurement { length: 6000, error: -1000 },
            middle: LengthMeasurement { length: 6000, error: -1000 },
            corner: CornerName::BottomRight,
            corner_point: Point { x: 698, y: 700 },
            middle_point: Point { x: 400, y: 700 },
        }
    );
}

#[test]
fn length_line_picks_the_first_corner_when_it_deviates_more() {
    let corners = Corners {
        top_left: Point { x: 0, y: 700 },
        top_right: Point { x: 0, y: 700 },
        bottom_left: Point { x: 0, y: 100 },
        bottom_right: Point { x: 0, y: 100 },
    };
    let slanted = Line { rise: 400, run: 2, offset: -39600 };
    let level = Line { rise: 0, run: 1, offset: 100 };
    let sides = Sides { left: slanted, right: slanted, top: level, bottom: level };
    let xpoints: Vec<i32> = vec![100, 400, 700];
    let ypoints: Vec<i32> = vec![100, 400, 750];
    let results = length_line(corners, sides, &xpoints, &ypoints).unwrap();
    assert_eq!(results[0].corner, CornerName::TopLeft);
    assert_eq!(results[0].worst, LengthMeasurement { length: 8940, error: -60 });
    assert_eq!(results[1].corner, CornerName::BottomRight);
    assert_eq!(results[1].worst, LengthMeasurement { length: -3000, error: -12000 });
}

#[test]
fn length_line_errors() {
    let p = Point { x: 0, y: 0 };
    let corners = Corners { top_left: p, top_right: p, bottom_left: p, bottom_right: p };
    let slanted = Line { rise: 400, run: 2, offset: -39600 };
    let level = Line { rise: 0, run: 1, offset: 100 };
    let good = Sides { left: slanted, right: slanted, top: level, bottom: level };
    let xpoints: Vec<i32> = vec![100, 400, 700];
    let ypoints: Vec<i32> = vec![100, 400, 750];
    assert!(length_line(corners, good, &xpoints, &ypoints).is_ok());
    assert_eq!(
        length_line(corners, good, &vec![1, 2], &ypoints),
        Err(GeometryError::IndexRange)
    );
    assert_eq!(
        length_line(corners, good, &xpoints, &vec![1, 2]),
        Err(GeometryError::IndexRange)
    );
    assert_eq!(
        length_line(corners, good, &xpoints, &vec![1, 2, 2]),
        Err(GeometryError::Calibration)
    );
    let flat_left = Sides { left: level, right: slanted, top: level, bottom: level };
    assert_eq!(
        length_line(corners, flat_left, &xpoints, &ypoints),
        Err(GeometryError::DegenerateLines)
    );
    let flat_right = Sides { left: slanted, right: level, top: level, bottom: level };
    assert_eq!(
        length_line(corners, flat_right, &xpoints, &ypoints),
        Err(GeometryError::DegenerateLines)
    );
}
