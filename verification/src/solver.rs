//! Lines through detected edge samples, their intersections, and the length
//! of each side of the field.
//!
//! A line `y = m x + b` has a rational slope and intercept with one
//! denominator: `m = rise / run` and `b = offset / run`.
use vstd::prelude::*;
use vstd::arithmetic::mul::{
    lemma_mul_is_associative,
    lemma_mul_is_commutative,
    lemma_mul_is_distributive_sub,
    lemma_mul_is_distributive_sub_other_way,
};
use crate::arith::{abs, div_round, lemma_round_div_exact, round_div};
use crate::calibration::{
    clamp_i32,
    clamp_to_i32,
    frame_spacing,
    frame_spacing_spec,
    pixel_to_length,
    scale_pixels,
};
use crate::edges::BoundingBox;
use crate::error::GeometryError;

verus! {

/// The nominal length of the left and right sides, in thousandths of a
/// centimetre.
pub const NOMINAL_SIDE: i64 = 9000;

/// The nominal length of the top and bottom sides, in thousandths of a
/// centimetre.
pub const NOMINAL_TOP: i64 = 7000;

/// The largest size of a line's rise and run.
pub const SLOPE_LIMIT: i64 = 0x1_0000_0000;

/// The largest size of a line's offset.
pub const OFFSET_LIMIT: i128 = 0x1_0000_0000_0000_0000;

/// A pixel position.
#[derive(Clone, Copy, Debug, PartialEq, Eq, Structural)]
pub struct Point {
    /// The column.
    pub x: i32,
    /// The row.
    pub y: i32,
}

/// The line `y = (rise / run) x + offset / run`.
#[derive(Clone, Copy, Debug, PartialEq, Eq, Structural)]
pub struct Line {
    /// The numerator of the slope.
    pub rise: i64,
    /// The denominator of slope and intercept; not zero.
    pub run: i64,
    /// The numerator of the intercept.
    pub offset: i128,
}

/// The four corners of the field.
#[derive(Clone, Copy, Debug, PartialEq, Eq, Structural)]
pub struct Corners {
    /// Where the left and top sides meet.
    pub top_left: Point,
    /// Where the right and top sides meet.
    pub top_right: Point,
    /// Where the left and bottom sides meet.
    pub bottom_left: Point,
    /// Where the right and bottom sides meet.
    pub bottom_right: Point,
}

/// The four fitted sides of the field.
#[derive(Clone, Copy, Debug, PartialEq, Eq, Structural)]
pub struct Sides {
    /// The left side.
    pub left: Line,
    /// The right side.
    pub right: Line,
    /// The top side.
    pub top: Line,
    /// The bottom side.
    pub bottom: Line,
}

/// One corner of the field, by name.
#[derive(Clone, Copy, Debug, PartialEq, Eq, Structural)]
pub enum CornerName {
    /// Top left.
    TopLeft,
    /// Top right.
    TopRight,
    /// Bottom left.
    BottomLeft,
    /// Bottom right.
    BottomRight,
}

/// A length and its deviation from the nominal length, both in thousandths
/// of a centimetre.
#[derive(Clone, Copy, Debug, PartialEq, Eq, Structural)]
pub struct LengthMeasurement {
    /// The measured length.
    pub length: i64,
    /// The measured length minus the nominal length.
    pub error: i64,
}

/// The measurement of one side of the field.
#[derive(Clone, Copy, Debug, PartialEq, Eq, Structural)]
pub struct SideMeasurement {
    /// The measurement at the corner where the side deviates most.
    pub worst: LengthMeasurement,
    /// The measurement on the centre reference line.
    pub middle: LengthMeasurement,
    /// The corner where the side deviates most.
    pub corner: CornerName,
    /// The position of that corner.
    pub corner_point: Point,
    /// Where the side crosses the centre reference line.
    pub middle_point: Point,
}

impl Line {
    /// The fields are within the limits that lines through pixel positions
    /// keep, and the denominator is not zero.
    pub open spec fn wf(self) -> bool {
        &&& self.run != 0
        &&& -SLOPE_LIMIT <= self.rise <= SLOPE_LIMIT
        &&& -SLOPE_LIMIT <= self.run <= SLOPE_LIMIT
        &&& -OFFSET_LIMIT <= self.offset <= OFFSET_LIMIT
    }

    /// The point `(x, y)` lies on the line.
    pub open spec fn passes_through(self, x: int, y: int) -> bool {
        y * self.run == self.rise * x + self.offset
    }

    /// The two lines have the same slope.
    pub open spec fn parallel(self, other: Line) -> bool {
        self.rise * other.run == other.rise * self.run
    }

    /// The row of the line at column `x`, rounded to the nearest pixel.
    pub open spec fn y_at(self, x: int) -> int {
        round_div(self.rise * x + self.offset, self.run as int)
    }

    /// The column of the line at row `y`, rounded to the nearest pixel,
    /// for a line that is not horizontal.
    pub open spec fn x_at(self, y: int) -> int {
        round_div(y * self.run - self.offset, self.rise as int)
    }
}

/// The line through `(x1, y1)` and `(x2, y2)`. Where the two columns are
/// equal the slope is the rise `y2 - y1` itself.
pub open spec fn line_through(x1: int, y1: int, x2: int, y2: int) -> Line {
    if x1 == x2 {
        Line { rise: (y2 - y1) as i64, run: 1, offset: (y1 - (y2 - y1) * x1) as i128 }
    } else {
        Line {
            rise: (y2 - y1) as i64,
            run: (x2 - x1) as i64,
            offset: (y1 * (x2 - x1) - (y2 - y1) * x1) as i128,
        }
    }
}

/// The numerator of the column where two lines meet.
pub open spec fn crossing_x(l1: Line, l2: Line) -> int {
    l2.offset * l1.run - l1.offset * l2.run
}

/// The numerator of the row where two lines meet.
pub open spec fn crossing_y(l1: Line, l2: Line) -> int {
    l1.rise * l2.offset - l2.rise * l1.offset
}

/// The denominator of the position where two lines meet.
pub open spec fn crossing_scale(l1: Line, l2: Line) -> int {
    l1.rise * l2.run - l2.rise * l1.run
}

/// Where two lines meet, each coordinate rounded to the nearest pixel and
/// limited to the range of `i32`; parallel lines are degenerate.
pub open spec fn intersection(l1: Line, l2: Line) -> Result<Point, GeometryError> {
    if l1.parallel(l2) {
        Err(GeometryError::DegenerateLines)
    } else {
        Ok(
            Point {
                x: clamp_i32(round_div(crossing_x(l1, l2), crossing_scale(l1, l2))) as i32,
                y: clamp_i32(round_div(crossing_y(l1, l2), crossing_scale(l1, l2))) as i32,
            },
        )
    }
}

/// The product of two bounded integers is bounded by the product of the
/// bounds.
pub proof fn lemma_product_bound(a: int, b: int, la: int, lb: int)
    requires
        -la <= a <= la,
        -lb <= b <= lb,
    ensures
        -(la * lb) <= a * b <= la * lb,
{
    assert(-(la * lb) <= a * b <= la * lb) by (nonlinear_arith)
        requires
            -la <= a <= la,
            -lb <= b <= lb,
    ;
}

/// The row where two lines meet is the row of the first line at the
/// column where they meet: `y = m1 x + b1`.
pub proof fn lemma_crossing_on_line(l1: Line, l2: Line)
    ensures
        crossing_y(l1, l2) * l1.run == l1.rise * crossing_x(l1, l2) + l1.offset * crossing_scale(
            l1,
            l2,
        ),
{
    let s1 = l1.rise as int;
    let r1 = l1.run as int;
    let o1 = l1.offset as int;
    let s2 = l2.rise as int;
    let r2 = l2.run as int;
    let o2 = l2.offset as int;
    lemma_mul_is_distributive_sub_other_way(r1, s1 * o2, s2 * o1);
    lemma_mul_is_distributive_sub(s1, o2 * r1, o1 * r2);
    lemma_mul_is_distributive_sub(o1, s1 * r2, s2 * r1);
    lemma_mul_is_associative(s1, o2, r1);
    lemma_swap_first(s1, o1, r2);
    lemma_mul_is_commutative(s2, o1);
    lemma_mul_is_associative(o1, s2, r1);
}

/// `a (b c) == b (a c)`.
pub proof fn lemma_swap_first(a: int, b: int, c: int)
    ensures
        a * (b * c) == b * (a * c),
{
    lemma_mul_is_associative(a, b, c);
    lemma_mul_is_commutative(a, b);
    lemma_mul_is_associative(b, a, c);
}

/// Two lines that are not parallel and pass through one pixel position
/// meet exactly there.
pub proof fn lemma_intersection_exact(l1: Line, l2: Line, x: i32, y: i32)
    requires
        l1.passes_through(x as int, y as int),
        l2.passes_through(x as int, y as int),
        !l1.parallel(l2),
    ensures
        intersection(l1, l2) == Ok::<Point, GeometryError>(Point { x, y }),
{
    let s1 = l1.rise as int;
    let r1 = l1.run as int;
    let o1 = l1.offset as int;
    let s2 = l2.rise as int;
    let r2 = l2.run as int;
    let o2 = l2.offset as int;
    let px = x as int;
    let py = y as int;
    let scale = crossing_scale(l1, l2);
    assert(o1 == py * r1 - s1 * px);
    assert(o2 == py * r2 - s2 * px);
    assert((py * r2 - s2 * px) * r1 - (py * r1 - s1 * px) * r2 == px * (s1 * r2 - s2 * r1)) by {
        lemma_mul_is_distributive_sub_other_way(r1, py * r2, s2 * px);
        lemma_mul_is_distributive_sub_other_way(r2, py * r1, s1 * px);
        lemma_mul_is_distributive_sub(px, s1 * r2, s2 * r1);
        lemma_mul_is_associative(py, r2, r1);
        lemma_mul_is_associative(py, r1, r2);
        lemma_mul_is_commutative(r1, r2);
        lemma_mul_is_commutative(s2, px);
        lemma_mul_is_associative(px, s2, r1);
        lemma_mul_is_commutative(s1, px);
        lemma_mul_is_associative(px, s1, r2);
    }
    assert(s1 * (py * r2 - s2 * px) - s2 * (py * r1 - s1 * px) == py * (s1 * r2 - s2 * r1)) by {
        lemma_mul_is_distributive_sub(s1, py * r2, s2 * px);
        lemma_mul_is_distributive_sub(s2, py * r1, s1 * px);
        lemma_mul_is_distributive_sub(py, s1 * r2, s2 * r1);
        lemma_swap_first(s1, py, r2);
        lemma_swap_first(s2, py, r1);
        lemma_swap_first(s1, s2, px);
    }
    assert(crossing_x(l1, l2) == o2 * r1 - o1 * r2);
    assert(crossing_y(l1, l2) == s1 * o2 - s2 * o1);
    assert(scale == s1 * r2 - s2 * r1);
    assert(crossing_x(l1, l2) == px * scale);
    assert(crossing_y(l1, l2) == py * scale);
    lemma_round_div_exact(px, scale);
    lemma_round_div_exact(py, scale);
}

/// The line through two pixel positions.
pub fn linear_equation(x1: i32, y1: i32, x2: i32, y2: i32) -> (line: Line)
    ensures
        line == line_through(x1 as int, y1 as int, x2 as int, y2 as int),
        line.wf(),
        line.passes_through(x1 as int, y1 as int),
        x1 != x2 ==> line.passes_through(x2 as int, y2 as int),
{
    let rise: i64 = y2 as i64 - y1 as i64;
    let run: i64 = if x2 == x1 {
        1
    } else {
        x2 as i64 - x1 as i64
    };
    proof {
        lemma_product_bound(y1 as int, run as int, 0x8000_0000, 0x1_0000_0000);
        lemma_product_bound(rise as int, x1 as int, 0x1_0000_0000, 0x8000_0000);
        if x1 != x2 {
            assert(y2 as int * run as int == rise as int * x2 as int + (y1 as int * run as int
                - rise as int * x1 as int)) by (nonlinear_arith)
                requires
                    rise == y2 - y1,
                    run == x2 - x1,
            ;
        }
    }
    let offset: i128 = y1 as i128 * run as i128 - rise as i128 * x1 as i128;
    Line { rise, run, offset }
}

/// The position where two lines meet.
pub fn find_intersection(l1: Line, l2: Line) -> (point: Result<Point, GeometryError>)
    requires
        l1.wf(),
        l2.wf(),
    ensures
        point == intersection(l1, l2),
{
    proof {
        lemma_product_bound(l1.rise as int, l2.run as int, SLOPE_LIMIT as int, SLOPE_LIMIT as int);
        lemma_product_bound(l2.rise as int, l1.run as int, SLOPE_LIMIT as int, SLOPE_LIMIT as int);
        lemma_product_bound(l2.offset as int, l1.run as int, OFFSET_LIMIT as int, SLOPE_LIMIT as int);
        lemma_product_bound(l1.offset as int, l2.run as int, OFFSET_LIMIT as int, SLOPE_LIMIT as int);
        lemma_product_bound(l1.rise as int, l2.offset as int, SLOPE_LIMIT as int, OFFSET_LIMIT as int);
        lemma_product_bound(l2.rise as int, l1.offset as int, SLOPE_LIMIT as int, OFFSET_LIMIT as int);
        assert(SLOPE_LIMIT * SLOPE_LIMIT == 0x1_0000_0000_0000_0000) by (nonlinear_arith);
        assert(OFFSET_LIMIT * SLOPE_LIMIT == 0x1_0000_0000_0000_0000_0000_0000) by (nonlinear_arith);
        assert(SLOPE_LIMIT * OFFSET_LIMIT == 0x1_0000_0000_0000_0000_0000_0000) by (nonlinear_arith);
    }
    let scale: i128 = l1.rise as i128 * l2.run as i128 - l2.rise as i128 * l1.run as i128;
    if scale == 0 {
        return Err(GeometryError::DegenerateLines);
    }
    let across: i128 = l2.offset * l1.run as i128 - l1.offset * l2.run as i128;
    let down: i128 = l1.rise as i128 * l2.offset - l2.rise as i128 * l1.offset;
    let x = clamp_to_i32(div_round(across, scale));
    let y = clamp_to_i32(div_round(down, scale));
    Ok(Point { x, y })
}

/// The middle of two coordinates, rounded toward zero.
pub open spec fn midpoint(a: int, b: int) -> int {
    crate::arith::trunc_div(a + b, 2)
}

/// What [`rectangle_edge_points`] returns.
///
/// Boxes and edge positions come in the order left (upper, lower), right
/// (upper, lower), top (left, right), bottom (left, right). Each side is
/// the line through its two samples: the edge position found in a box, at
/// the middle of that box along the side.
pub open spec fn rectangle_spec(boxes: Seq<BoundingBox>, edges: Seq<i32>) -> Result<
    (Corners, Sides),
    GeometryError,
> {
    if boxes.len() < 8 || edges.len() < 8 {
        Err(GeometryError::IndexRange)
    } else {
        let left = line_through(
            edges[0] as int,
            midpoint(boxes[0].top as int, boxes[0].bottom as int),
            edges[1] as int,
            midpoint(boxes[1].top as int, boxes[1].bottom as int),
        );
        let right = line_through(
            edges[2] as int,
            midpoint(boxes[2].top as int, boxes[2].bottom as int),
            edges[3] as int,
            midpoint(boxes[3].top as int, boxes[3].bottom as int),
        );
        let top = line_through(
            midpoint(boxes[4].left as int, boxes[4].right as int),
            edges[4] as int,
            midpoint(boxes[5].left as int, boxes[5].right as int),
            edges[5] as int,
        );
        let bottom = line_through(
            midpoint(boxes[6].left as int, boxes[6].right as int),
            edges[6] as int,
            midpoint(boxes[7].left as int, boxes[7].right as int),
            edges[7] as int,
        );
        if left.parallel(top) || right.parallel(top) || left.parallel(bottom) || right.parallel(
            bottom,
        ) {
            Err(GeometryError::DegenerateLines)
        } else {
            Ok(
                (
                    Corners {
                        top_left: intersection(left, top).unwrap(),
                        top_right: intersection(right, top).unwrap(),
                        bottom_left: intersection(left, bottom).unwrap(),
                        bottom_right: intersection(right, bottom).unwrap(),
                    },
                    Sides { left, right, top, bottom },
                ),
            )
        }
    }
}

/// The middle of two coordinates, rounded toward zero.
pub fn middle_of(a: i32, b: i32) -> (m: i32)
    ensures
        m == midpoint(a as int, b as int),
{
    let sum: i64 = a as i64 + b as i64;
    if sum >= 0 {
        (sum / 2) as i32
    } else {
        (-((-sum) / 2)) as i32
    }
}

/// Fits the four sides of the field and finds its four corners.
///
/// Fewer than eight boxes or edge positions are an index-range error;
/// two adjacent sides that are parallel are degenerate.
pub fn rectangle_edge_points(boxs_pos: &Vec<BoundingBox>, edges_pos: &Vec<i32>) -> (found: Result<
    (Corners, Sides),
    GeometryError,
>)
    ensures
        found == rectangle_spec(boxs_pos@, edges_pos@),
        found matches Ok(f) ==> f.1.left.wf() && f.1.right.wf() && f.1.top.wf() && f.1.bottom.wf(),
{
    if boxs_pos.len() < 8 || edges_pos.len() < 8 {
        return Err(GeometryError::IndexRange);
    }
    let left = linear_equation(
        edges_pos[0],
        middle_of(boxs_pos[0].top, boxs_pos[0].bottom),
        edges_pos[1],
        middle_of(boxs_pos[1].top, boxs_pos[1].bottom),
    );
    let right = linear_equation(
        edges_pos[2],
        middle_of(boxs_pos[2].top, boxs_pos[2].bottom),
        edges_pos[3],
        middle_of(boxs_pos[3].top, boxs_pos[3].bottom),
    );
    let top = linear_equation(
        middle_of(boxs_pos[4].left, boxs_pos[4].right),
        edges_pos[4],
        middle_of(boxs_pos[5].left, boxs_pos[5].right),
        edges_pos[5],
    );
    let bottom = linear_equation(
        middle_of(boxs_pos[6].left, boxs_pos[6].right),
        edges_pos[6],
        middle_of(boxs_pos[7].left, boxs_pos[7].right),
        edges_pos[7],
    );
    let top_left = find_intersection(left, top);
    let top_right = find_intersection(right, top);
    let bottom_left = find_intersection(left, bottom);
    let bottom_right = find_intersection(right, bottom);
    match (top_left, top_right, bottom_left, bottom_right) {
        (Ok(tl), Ok(tr), Ok(bl), Ok(br)) => Ok(
            (
                Corners { top_left: tl, top_right: tr, bottom_left: bl, bottom_right: br },
                Sides { left, right, top, bottom },
            ),
        ),
        _ => Err(GeometryError::DegenerateLines),
    }
}

/// The measurement that a deviation of `deviation` pixels gives: the
/// nominal length less the deviation as a length, and the negated
/// deviation as the error.
pub open spec fn deviation_measurement(d: int, nominal: int, deviation: int) -> LengthMeasurement {
    LengthMeasurement {
        length: (nominal - pixel_to_length(d, deviation)) as i64,
        error: (-pixel_to_length(d, deviation)) as i64,
    }
}

/// Where a side lies at a coordinate along it: the column at a row for an
/// upright side, the row at a column for a level one.
pub open spec fn side_position(line: Line, upright: bool, along: int) -> int {
    if upright {
        clamp_i32(line.x_at(along))
    } else {
        clamp_i32(line.y_at(along))
    }
}

/// The coordinate of a corner along a side.
pub open spec fn along_side(p: Point, upright: bool) -> int {
    if upright {
        p.y as int
    } else {
        p.x as int
    }
}

/// How far inside its reference line a side lies: positive where the field
/// is smaller than nominal. `far_side` holds for the right and bottom
/// sides, whose positions grow outward.
pub open spec fn inward_deviation(position: int, reference: int, far_side: bool) -> int {
    if far_side {
        reference - position
    } else {
        position - reference
    }
}

/// The measurement of one side.
///
/// The side is measured at its two corners and on the centre reference
/// line. The corner with the larger deviation in size is reported, the
/// second corner where they are equal.
pub open spec fn side_spec(
    line: Line,
    upright: bool,
    far_side: bool,
    first: Point,
    second: Point,
    first_name: CornerName,
    second_name: CornerName,
    reference: int,
    middle: int,
    nominal: int,
    d: int,
) -> SideMeasurement {
    let at_first = side_position(line, upright, along_side(first, upright));
    let at_middle = side_position(line, upright, middle);
    let at_second = side_position(line, upright, along_side(second, upright));
    let first_deviation = inward_deviation(at_first, reference, far_side);
    let middle_deviation = inward_deviation(at_middle, reference, far_side);
    let second_deviation = inward_deviation(at_second, reference, far_side);
    let first_worst = abs(first_deviation) > abs(second_deviation);
    SideMeasurement {
        worst: if first_worst {
            deviation_measurement(d, nominal, first_deviation)
        } else {
            deviation_measurement(d, nominal, second_deviation)
        },
        middle: deviation_measurement(d, nominal, middle_deviation),
        corner: if first_worst {
            first_name
        } else {
            second_name
        },
        corner_point: if first_worst {
            first
        } else {
            second
        },
        middle_point: if upright {
            Point { x: at_middle as i32, y: middle as i32 }
        } else {
            Point { x: middle as i32, y: at_middle as i32 }
        },
    }
}

/// What [`length_line`] returns: the measurements of the left, right, top
/// and bottom sides, in that order.
pub open spec fn length_line_spec(
    points: Corners,
    sides: Sides,
    xpoints: Seq<i32>,
    ypoints: Seq<i32>,
) -> Result<Seq<SideMeasurement>, GeometryError> {
    if xpoints.len() < 3 {
        Err(GeometryError::IndexRange)
    } else {
        match frame_spacing_spec(ypoints) {
            Err(e) => Err(e),
            Ok(d) => if sides.left.rise == 0 || sides.right.rise == 0 {
                Err(GeometryError::DegenerateLines)
            } else {
                Ok(
                    seq![
                        side_spec(
                            sides.left,
                            true,
                            false,
                            points.top_left,
                            points.bottom_left,
                            CornerName::TopLeft,
                            CornerName::BottomLeft,
                            xpoints[0] as int,
                            ypoints[1] as int,
                            NOMINAL_SIDE as int,
                            d as int,
                        ),
                        side_spec(
                            sides.right,
                            true,
                            true,
                            points.top_right,
                            points.bottom_right,
                            CornerName::TopRight,
                            CornerName::BottomRight,
                            xpoints[2] as int,
                            ypoints[1] as int,
                            NOMINAL_SIDE as int,
                            d as int,
                        ),
                        side_spec(
                            sides.top,
                            false,
                            false,
                            points.top_left,
                            points.top_right,
                            CornerName::TopLeft,
                            CornerName::TopRight,
                            ypoints[0] as int,
                            xpoints[1] as int,
                            NOMINAL_TOP as int,
                            d as int,
                        ),
                        side_spec(
                            sides.bottom,
                            false,
                            true,
                            points.bottom_left,
                            points.bottom_right,
                            CornerName::BottomLeft,
                            CornerName::BottomRight,
                            ypoints[2] as int,
                            xpoints[1] as int,
                            NOMINAL_TOP as int,
                            d as int,
                        ),
                    ],
                )
            },
        }
    }
}

/// Where a side lies at a coordinate along it.
pub fn position_on(line: Line, upright: bool, along: i32) -> (position: i32)
    requires
        line.wf(),
        upright ==> line.rise != 0,
    ensures
        position == side_position(line, upright, along as int),
{
    proof {
        lemma_product_bound(along as int, line.run as int, 0x8000_0000, SLOPE_LIMIT as int);
        lemma_product_bound(line.rise as int, along as int, SLOPE_LIMIT as int, 0x8000_0000);
        assert(0x8000_0000 * SLOPE_LIMIT == 0x8000_0000_0000_0000) by (nonlinear_arith);
        assert(SLOPE_LIMIT * 0x8000_0000 == 0x8000_0000_0000_0000) by (nonlinear_arith);
    }
    if upright {
        clamp_to_i32(div_round(along as i128 * line.run as i128 - line.offset, line.rise as i128))
    } else {
        clamp_to_i32(div_round(line.rise as i128 * along as i128 + line.offset, line.run as i128))
    }
}

/// The measurement that a deviation gives.
pub fn measure_deviation(d: i64, nominal: i64, deviation: i64) -> (m: LengthMeasurement)
    requires
        d != 0,
        0 <= nominal <= 0x1_0000_0000,
        -0x1_0000_0000 <= deviation <= 0x1_0000_0000,
    ensures
        m == deviation_measurement(d as int, nominal as int, deviation as int),
{
    let error = scale_pixels(d, deviation);
    LengthMeasurement { length: nominal - error, error: -error }
}

/// Measures one side at its two corners and on the centre reference line.
pub fn measure_side(
    line: Line,
    upright: bool,
    far_side: bool,
    first: Point,
    second: Point,
    first_name: CornerName,
    second_name: CornerName,
    reference: i32,
    middle: i32,
    nominal: i64,
    d: i64,
) -> (m: SideMeasurement)
    requires
        line.wf(),
        upright ==> line.rise != 0,
        d != 0,
        0 <= nominal <= 0x1_0000_0000,
    ensures
        m == side_spec(
            line,
            upright,
            far_side,
            first,
            second,
            first_name,
            second_name,
            reference as int,
            middle as int,
            nominal as int,
            d as int,
        ),
{
    let at_first = position_on(
        line,
        upright,
        if upright {
            first.y
        } else {
            first.x
        },
    );
    let at_middle = position_on(line, upright, middle);
    let at_second = position_on(
        line,
        upright,
        if upright {
            second.y
        } else {
            second.x
        },
    );
    let first_deviation: i64 = if far_side {
        reference as i64 - at_first as i64
    } else {
        at_first as i64 - reference as i64
    };
    let middle_deviation: i64 = if far_side {
        reference as i64 - at_middle as i64
    } else {
        at_middle as i64 - reference as i64
    };
    let second_deviation: i64 = if far_side {
        reference as i64 - at_second as i64
    } else {
        at_second as i64 - reference as i64
    };
    let first_size: i64 = if first_deviation < 0 {
        -first_deviation
    } else {
        first_deviation
    };
    let second_size: i64 = if second_deviation < 0 {
        -second_deviation
    } else {
        second_deviation
    };
    let first_worst = first_size > second_size;
    SideMeasurement {
        worst: if first_worst {
            measure_deviation(d, nominal, first_deviation)
        } else {
            measure_deviation(d, nominal, second_deviation)
        },
        middle: measure_deviation(d, nominal, middle_deviation),
        corner: if first_worst {
            first_name
        } else {
            second_name
        },
        corner_point: if first_worst {
            first
        } else {
            second
        },
        middle_point: if upright {
            Point { x: at_middle, y: middle }
        } else {
            Point { x: middle, y: at_middle }
        },
    }
}

/// Measures the four sides of the field against the reference frame.
///
/// A frame that lacks a line is an index-range error, one without a length
/// scale a calibration error, and a left or right side without slope is
/// degenerate.
pub fn length_line(points: Corners, sides: Sides, xpoints: &Vec<i32>, ypoints: &Vec<i32>) -> (results:
    Result<Vec<SideMeasurement>, GeometryError>)
    requires
        sides.left.wf(),
        sides.right.wf(),
        sides.top.wf(),
        sides.bottom.wf(),
    ensures
        results matches Ok(v) ==> length_line_spec(points, sides, xpoints@, ypoints@) == Ok::<
            Seq<SideMeasurement>,
            GeometryError,
        >(v@),
        results matches Err(e) ==> length_line_spec(points, sides, xpoints@, ypoints@) == Err::<
            Seq<SideMeasurement>,
            GeometryError,
        >(e),
{
    if xpoints.len() < 3 {
        return Err(GeometryError::IndexRange);
    }
    let d = frame_spacing(ypoints)?;
    if sides.left.rise == 0 || sides.right.rise == 0 {
        return Err(GeometryError::DegenerateLines);
    }
    let mut results: Vec<SideMeasurement> = Vec::new();
    results.push(
        measure_side(
            sides.left,
            true,
            false,
            points.top_left,
            points.bottom_left,
            CornerName::TopLeft,
            CornerName::BottomLeft,
            xpoints[0],
            ypoints[1],
            NOMINAL_SIDE,
            d,
        ),
    );
    results.push(
        measure_side(
            sides.right,
            true,
            true,
            points.top_right,
            points.bottom_right,
            CornerName::TopRight,
            CornerName::BottomRight,
            xpoints[2],
            ypoints[1],
            NOMINAL_SIDE,
            d,
        ),
    );
    results.push(
        measure_side(
            sides.top,
            false,
            false,
            points.top_left,
            points.top_right,
            CornerName::TopLeft,
            CornerName::TopRight,
            ypoints[0],
            xpoints[1],
            NOMINAL_TOP,
            d,
        ),
    );
    results.push(
        measure_side(
            sides.bottom,
            false,
            true,
            points.bottom_left,
            points.bottom_right,
            CornerName::BottomLeft,
            CornerName::BottomRight,
            ypoints[2],
            xpoints[1],
            NOMINAL_TOP,
            d,
        ),
    );
    proof {
        assert(results@ =~= length_line_spec(points, sides, xpoints@, ypoints@).unwrap());
    }
    Ok(results)
}

} // verus!
