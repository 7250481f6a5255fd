//! The whole measurement on a pair of images.
//!
//! The large-field image shows the reference lines of the test tool. From
//! it come the correction (where the tool lies, whether the image is to be
//! turned or inverted, and by what angle it is rotated) and the reference
//! frame. The same correction is applied to the small-field image, in
//! which the field edges and the circular target are then measured
//! against that frame.
use vstd::prelude::*;
use crate::calibration::{
    calculate_angle,
    clamp_i32,
    clamp_i64,
    distance_pixel,
    nearest_root,
    pixel2cm,
    pixel2cm_spec,
    squared_distance,
};
use crate::circle::{
    center_point,
    farthest_offsets,
    farthest_q,
    farthest_quadrant,
    has_farthest_point,
    split_q_circle,
    split_spec,
    target_point_spec,
};
use crate::edges::{
    before_steps,
    box_pixels,
    boxes_inside,
    boxes_spec,
    boxs_posision,
    find_edges_pos,
    find_edges_spec,
    get_crop_area,
    lemma_step_edges_found,
    step_in_window,
    BoundingBox,
};
use crate::error::GeometryError;
use crate::grid::{pixels_of, Pixels, U16Array};
use crate::lines::{
    center_line_spec,
    find_center_line,
    find_vertical_line,
    fint_horizontal_line,
    horizontal_lines_spec,
    vertical_lines_spec,
};
use crate::localize::{
    arr_correction,
    arr_correction_spec,
    inv_lut,
    inverted_grid,
    is_inverse,
    is_inverse_spec,
    CropRegion,
};
use crate::render::{add_arrays, blend_spec, can_blend};
use crate::rotate::{rotate_array, rotated_grid, Rotation};
use crate::solver::{
    length_line,
    length_line_spec,
    rectangle_edge_points,
    rectangle_spec,
    Corners,
    SideMeasurement,
    Sides,
};

verus! {

/// What is done to a raw image before it is measured.
#[derive(Clone, Copy, Debug, PartialEq, Eq, Structural)]
pub struct Correction {
    /// The region of the raw image that holds the test tool.
    pub region: CropRegion,
    /// Whether the region is turned by a quarter, being taller than wide.
    pub quarter_turn: bool,
    /// Whether the intensities are inverted, the image being dark on
    /// light.
    pub inverse: bool,
    /// The rotation that levels the centre reference line.
    pub rotation: Rotation,
}

/// The offset of the circular target from the centre of the frame.
#[derive(Clone, Copy, Debug, PartialEq, Eq, Structural)]
pub struct CircleOffset {
    /// The column, in the target, of its farthest bright point.
    pub point_x: usize,
    /// The row, in the target, of its farthest bright point.
    pub point_y: usize,
    /// The column of the target's centre, in the target.
    pub center_x: i32,
    /// The row of the target's centre, in the target.
    pub center_y: i32,
    /// The distance of the point from the centre, in thousandths of a
    /// centimetre.
    pub distance: i64,
    /// The angle that stands for that distance.
    pub angle: i64,
}

/// The result of a measurement.
pub struct Report {
    /// The correction found in the large-field image.
    pub correction: Correction,
    /// The columns of the left, centre and right reference lines.
    pub xpoints: Vec<i32>,
    /// The rows of the top, centre and bottom reference lines.
    pub ypoints: Vec<i32>,
    /// The corners of the field.
    pub corners: Corners,
    /// The fitted sides of the field.
    pub lines: Sides,
    /// The measurements of the left, right, top and bottom sides.
    pub sides: Vec<SideMeasurement>,
    /// The offset of the circular target.
    pub circle: CircleOffset,
    /// The square of the small-field image that holds the target.
    pub target: U16Array,
    /// Both corrected images laid over each other, in eight bits, row
    /// after row.
    pub overlay: Vec<u8>,
}

/// The mathematical content of a [`Report`].
pub struct ReportModel {
    /// The correction.
    pub correction: Correction,
    /// The vertical reference lines.
    pub xpoints: Seq<i32>,
    /// The horizontal reference lines.
    pub ypoints: Seq<i32>,
    /// The corners of the field.
    pub corners: Corners,
    /// The fitted sides.
    pub lines: Sides,
    /// The measurements of the sides.
    pub sides: Seq<SideMeasurement>,
    /// The offset of the target.
    pub circle: CircleOffset,
    /// The target.
    pub target: Pixels,
    /// The overlay.
    pub overlay: Seq<u8>,
}

impl View for Report {
    type V = ReportModel;

    open spec fn view(&self) -> ReportModel {
        ReportModel {
            correction: self.correction,
            xpoints: self.xpoints@,
            ypoints: self.ypoints@,
            corners: self.corners,
            lines: self.lines,
            sides: self.sides@,
            circle: self.circle,
            target: self.target@,
            overlay: self.overlay@,
        }
    }
}

/// The rotation by 1.57 radians, a quarter turn counter-clockwise to
/// within a thousandth.
pub open spec fn quarter_turn_spec() -> Rotation {
    Rotation { cos: 835, sin: 0x10_0000 }
}

/// The pixels of a region of the raw image.
pub open spec fn region_pixels(p: Pixels, region: CropRegion) -> Result<Pixels, GeometryError> {
    if !p.has_window(
        region.row1 as int,
        region.row2 as int,
        region.col1 as int,
        region.col2 as int,
    ) {
        Err(GeometryError::IndexRange)
    } else {
        Ok(
            p.window(
                region.row1 as int,
                region.row2 as int,
                region.col1 as int,
                region.col2 as int,
            ),
        )
    }
}

/// The grid rotated; a grid without pixels cannot be rotated.
pub open spec fn rotated_spec(p: Pixels, rotation: Rotation) -> Result<Pixels, GeometryError> {
    if p.is_empty() {
        Err(GeometryError::IndexRange)
    } else {
        Ok(rotated_grid(p, rotation))
    }
}

/// The grid turned by a quarter where that is asked for.
pub open spec fn turned_spec(p: Pixels, quarter_turn: bool) -> Result<Pixels, GeometryError> {
    if quarter_turn {
        rotated_spec(p, quarter_turn_spec())
    } else {
        Ok(p)
    }
}

/// The grid inverted where that is asked for; a grid without pixels
/// cannot be inverted.
pub open spec fn polarised_spec(p: Pixels, inverse: bool) -> Result<Pixels, GeometryError> {
    if !inverse {
        Ok(p)
    } else if p.is_empty() {
        Err(GeometryError::IndexRange)
    } else {
        Ok(inverted_grid(p))
    }
}

/// The region of an image, turned and inverted as the correction says,
/// before it is rotated.
pub open spec fn upright_spec(p: Pixels, region: CropRegion, quarter_turn: bool, inverse: bool) -> Result<
    Pixels,
    GeometryError,
> {
    match region_pixels(p, region) {
        Err(e) => Err(e),
        Ok(cut) => match turned_spec(cut, quarter_turn) {
            Err(e) => Err(e),
            Ok(turned) => polarised_spec(turned, inverse),
        },
    }
}

/// What [`apply_correction`] returns: the region of the image, turned,
/// inverted and rotated as the correction says.
pub open spec fn corrected_spec(p: Pixels, correction: Correction) -> Result<Pixels, GeometryError> {
    match upright_spec(p, correction.region, correction.quarter_turn, correction.inverse) {
        Err(e) => Err(e),
        Ok(upright) => rotated_spec(upright, correction.rotation),
    }
}

/// What [`find_correction`] finds in the large-field image.
///
/// The region is where the test tool lies. It is turned by a quarter
/// where it is taller than wide, then inverted where the polarity test
/// says so, and rotated by the slope of the centre line found after that.
pub open spec fn correction_spec(p: Pixels) -> Result<Correction, GeometryError> {
    match arr_correction_spec(p) {
        Err(e) => Err(e),
        Ok(region) => match region_pixels(p, region) {
            Err(e) => Err(e),
            Ok(cut) => match turned_spec(
                cut,
                region.row2 - region.row1 > region.col2 - region.col1,
            ) {
                Err(e) => Err(e),
                Ok(turned) => match polarised_spec(turned, is_inverse_spec(turned)) {
                    Err(e) => Err(e),
                    Ok(upright) => match center_line_spec(upright) {
                        Err(e) => Err(e),
                        Ok(line) => Ok(
                            Correction {
                                region,
                                quarter_turn: region.row2 - region.row1 > region.col2
                                    - region.col1,
                                inverse: is_inverse_spec(turned),
                                rotation: line.4,
                            },
                        ),
                    },
                },
            },
        },
    }
}

/// The pixels of the grid in each window.
pub open spec fn box_crops(field: Pixels, boxes: Seq<BoundingBox>) -> Seq<Pixels> {
    Seq::new(boxes.len(), |i: int| box_pixels(field, boxes[i]))
}

/// The reference line of the side of each window: the left line for the
/// first two windows, then the right, the top and the bottom line.
pub open spec fn side_references(xpoints: Seq<i32>, ypoints: Seq<i32>) -> Seq<i32> {
    seq![
        xpoints[0],
        xpoints[0],
        xpoints[2],
        xpoints[2],
        ypoints[0],
        ypoints[0],
        ypoints[2],
        ypoints[2],
    ]
}

/// The corners of the field, its fitted sides and their measurements, for
/// the edge positions found in the windows.
pub open spec fn sides_spec(
    boxes: Seq<BoundingBox>,
    edges: Seq<i32>,
    xpoints: Seq<i32>,
    ypoints: Seq<i32>,
) -> Result<(Corners, Sides, Seq<SideMeasurement>), GeometryError> {
    match rectangle_spec(boxes, edges) {
        Err(e) => Err(e),
        Ok(found) => match length_line_spec(found.0, found.1, xpoints, ypoints) {
            Err(e) => Err(e),
            Ok(sides) => Ok((found.0, found.1, sides)),
        },
    }
}

/// What [`measure_field`] returns: the corners of the field, its fitted
/// sides and their measurements.
///
/// The edges are looked for in the eight windows of the frame, which lie
/// inside the grid.
pub open spec fn field_spec(field: Pixels, xpoints: Seq<i32>, ypoints: Seq<i32>) -> Result<
    (Corners, Sides, Seq<SideMeasurement>),
    GeometryError,
> {
    match boxes_spec(xpoints, ypoints, field.height() as int, field.width as int) {
        Err(e) => Err(e),
        Ok(boxes) => match find_edges_spec(
            box_crops(field, boxes),
            boxes,
            side_references(xpoints, ypoints),
            ypoints,
        ) {
            Err(e) => Err(e),
            Ok(edges) => sides_spec(boxes, edges, xpoints, ypoints),
        },
    }
}

/// Where each of the eight windows of the frame shows one clean step
/// edge, the sides of the field are fitted through the pixels just before
/// the steps: every edge is found to within one pixel.
pub proof fn lemma_field_of_steps(
    field: Pixels,
    xpoints: Seq<i32>,
    ypoints: Seq<i32>,
    steps: Seq<int>,
    level: u16,
)
    requires
        steps.len() == 8,
        boxes_spec(xpoints, ypoints, field.height() as int, field.width as int) matches Ok(boxes)
            && forall|q: int|
            0 <= q < 8 ==> step_in_window(
                box_pixels(field, #[trigger] boxes[q]),
                boxes[q],
                q,
                side_references(xpoints, ypoints)[q] as int,
                ypoints,
                steps[q],
                level,
            ),
    ensures
        field_spec(field, xpoints, ypoints) == sides_spec(
            boxes_spec(xpoints, ypoints, field.height() as int, field.width as int).unwrap(),
            before_steps(steps, 8),
            xpoints,
            ypoints,
        ),
{
    let boxes = boxes_spec(xpoints, ypoints, field.height() as int, field.width as int).unwrap();
    let crops = box_crops(field, boxes);
    let references = side_references(xpoints, ypoints);
    assert forall|q: int| 0 <= q < 8 implies step_in_window(
        #[trigger] crops[q],
        boxes[q],
        q,
        references[q] as int,
        ypoints,
        steps[q],
        level,
    ) by {
        assert(crops[q] == box_pixels(field, boxes[q]));
    }
    lemma_step_edges_found(crops, boxes, references, ypoints, steps, level);
}

/// What [`measure_circle`] returns: the offset of the target and the
/// target itself.
///
/// The distance is that of the farthest bright point from the centre of
/// the target, rounded to the nearest pixel and converted to a length.
pub open spec fn circle_spec(field: Pixels, xpoints: Seq<i32>, ypoints: Seq<i32>) -> Result<
    (CircleOffset, Pixels),
    GeometryError,
> {
    match split_spec(xpoints, ypoints, field) {
        Err(e) => Err(e),
        Ok(split) => if !has_farthest_point(split.1, split.2) {
            Err(GeometryError::IndexRange)
        } else {
            match target_point_spec(
                farthest_offsets(split.1, split.2).0,
                farthest_offsets(split.1, split.2).1,
                farthest_quadrant(split.1, split.2),
                split.3.0 as int,
                split.3.1 as int,
            ) {
                Err(e) => Err(e),
                Ok(point) => match pixel2cm_spec(
                    ypoints,
                    clamp_i32(
                        nearest_root(
                            squared_distance(
                                point.0 as int,
                                point.1 as int,
                                split.3.0 as int,
                                split.3.1 as int,
                            ),
                        ),
                    ),
                ) {
                    Err(e) => Err(e),
                    Ok(distance) => Ok(
                        (
                            CircleOffset {
                                point_x: point.0,
                                point_y: point.1,
                                center_x: split.3.0,
                                center_y: split.3.1,
                                distance,
                                angle: clamp_i64(2 * distance) as i64,
                            },
                            split.0,
                        ),
                    ),
                },
            }
        },
    }
}

/// What [`processing`] returns.
///
/// The stages run in this order, and the first error ends the
/// measurement: the correction from the large-field image; the corrected
/// large-field image; its horizontal, then its vertical reference lines;
/// the corrected small-field image; the field; the target; the overlay.
pub open spec fn processing_spec(large: Pixels, small: Pixels) -> Result<ReportModel, GeometryError> {
    match correction_spec(large) {
        Err(e) => Err(e),
        Ok(correction) => match corrected_spec(large, correction) {
            Err(e) => Err(e),
            Ok(frame) => match horizontal_lines_spec(frame) {
                Err(e) => Err(e),
                Ok(ypoints) => match vertical_lines_spec(frame) {
                    Err(e) => Err(e),
                    Ok(xpoints) => match corrected_spec(small, correction) {
                        Err(e) => Err(e),
                        Ok(field) => match field_spec(field, xpoints, ypoints) {
                            Err(e) => Err(e),
                            Ok(measured) => match circle_spec(field, xpoints, ypoints) {
                                Err(e) => Err(e),
                                Ok(circle) => if !can_blend(frame, field) {
                                    Err(GeometryError::IndexRange)
                                } else {
                                    Ok(
                                        ReportModel {
                                            correction,
                                            xpoints,
                                            ypoints,
                                            corners: measured.0,
                                            lines: measured.1,
                                            sides: measured.2,
                                            circle: circle.0,
                                            target: circle.1,
                                            overlay: blend_spec(frame, field),
                                        },
                                    )
                                },
                            },
                        },
                    },
                },
            },
        },
    }
}

/// The rotation by 1.57 radians.
pub fn quarter_turn() -> (rotation: Rotation)
    ensures
        rotation == quarter_turn_spec(),
        rotation.wf(),
{
    Rotation { cos: 835, sin: 0x10_0000 }
}

/// Cuts a region out of the raw image.
pub fn cut_region(arr: &U16Array, region: CropRegion) -> (cut: Result<U16Array, GeometryError>)
    ensures
        cut matches Ok(g) ==> region_pixels(arr@, region) == Ok::<Pixels, GeometryError>(g@)
            && g@.wf(),
        cut matches Err(e) ==> region_pixels(arr@, region) == Err::<Pixels, GeometryError>(e),
{
    let h = arr.nrows();
    let w = arr.ncols();
    if region.row2 > h || region.col2 > w || region.row1 > region.row2 || region.col1
        > region.col2 {
        return Err(GeometryError::IndexRange);
    }
    arr.crop(region.row1 as i64, region.row2 as i64, region.col1 as i64, region.col2 as i64)
}

/// Rotates a grid that holds pixels.
fn rotate(arr: &U16Array, rotation: Rotation) -> (out: Result<U16Array, GeometryError>)
    requires
        rotation.wf(),
    ensures
        out matches Ok(g) ==> rotated_spec(arr@, rotation) == Ok::<Pixels, GeometryError>(g@),
        out matches Err(e) ==> rotated_spec(arr@, rotation) == Err::<Pixels, GeometryError>(e),
{
    match rotate_array(rotation, arr) {
        Ok(g) => Ok(g),
        Err(_) => Err(GeometryError::IndexRange),
    }
}

/// Cuts the region out of an image, and turns and inverts it as asked.
pub fn make_upright(arr: &U16Array, region: CropRegion, quarter: bool, inverse: bool) -> (out: Result<
    U16Array,
    GeometryError,
>)
    ensures
        out matches Ok(g) ==> upright_spec(arr@, region, quarter, inverse) == Ok::<
            Pixels,
            GeometryError,
        >(g@),
        out matches Err(e) ==> upright_spec(arr@, region, quarter, inverse) == Err::<
            Pixels,
            GeometryError,
        >(e),
{
    let cut = cut_region(arr, region)?;
    let turned = if quarter {
        rotate(&cut, quarter_turn())?
    } else {
        cut
    };
    if inverse {
        match inv_lut(&turned) {
            Ok(g) => Ok(g),
            Err(_) => Err(GeometryError::IndexRange),
        }
    } else {
        Ok(turned)
    }
}

/// Applies to an image the correction found in the large-field image.
pub fn apply_correction(arr: &U16Array, correction: Correction) -> (out: Result<
    U16Array,
    GeometryError,
>)
    requires
        correction.rotation.wf(),
    ensures
        out matches Ok(g) ==> corrected_spec(arr@, correction) == Ok::<Pixels, GeometryError>(g@),
        out matches Err(e) ==> corrected_spec(arr@, correction) == Err::<Pixels, GeometryError>(e),
{
    let upright = make_upright(arr, correction.region, correction.quarter_turn, correction.inverse)?;
    rotate(&upright, correction.rotation)
}

/// Finds in the large-field image where the test tool lies and how the
/// image is to be turned, inverted and rotated.
pub fn find_correction(large: &U16Array) -> (found: Result<Correction, GeometryError>)
    ensures
        found == correction_spec(large@),
        found matches Ok(c) ==> c.rotation.wf(),
{
    let region = arr_correction(large)?;
    let cut = cut_region(large, region)?;
    let quarter = region.row2 - region.row1 > region.col2 - region.col1;
    let turned = if quarter {
        rotate(&cut, quarter_turn())?
    } else {
        cut
    };
    let inverse = is_inverse(&turned);
    let upright = if inverse {
        match inv_lut(&turned) {
            Ok(g) => g,
            Err(_) => {
                return Err(GeometryError::IndexRange);
            },
        }
    } else {
        turned
    };
    let line = find_center_line(&upright)?;
    Ok(Correction { region, quarter_turn: quarter, inverse, rotation: line.4 })
}

/// The reference line of the side of each of the eight windows.
fn reference_lines(xpoints: &Vec<i32>, ypoints: &Vec<i32>) -> (lines: Vec<i32>)
    requires
        xpoints@.len() >= 3,
        ypoints@.len() >= 3,
    ensures
        lines@ == side_references(xpoints@, ypoints@),
{
    let mut lines: Vec<i32> = Vec::new();
    lines.push(xpoints[0]);
    lines.push(xpoints[0]);
    lines.push(xpoints[2]);
    lines.push(xpoints[2]);
    lines.push(ypoints[0]);
    lines.push(ypoints[0]);
    lines.push(ypoints[2]);
    lines.push(ypoints[2]);
    proof {
        assert(lines@ =~= side_references(xpoints@, ypoints@));
    }
    lines
}

/// Finds the field edge in each window of the grid.
fn window_edges(
    field: &U16Array,
    boxs_pos: &Vec<BoundingBox>,
    xpoints: &Vec<i32>,
    ypoints: &Vec<i32>,
) -> (edges: Result<Vec<i32>, GeometryError>)
    requires
        xpoints@.len() >= 3,
        ypoints@.len() >= 3,
    ensures
        !boxes_inside(field@, boxs_pos@) ==> edges == Err::<Vec<i32>, GeometryError>(
            GeometryError::IndexRange,
        ),
        boxes_inside(field@, boxs_pos@) ==> (edges matches Ok(v) ==> find_edges_spec(
            box_crops(field@, boxs_pos@),
            boxs_pos@,
            side_references(xpoints@, ypoints@),
            ypoints@,
        ) == Ok::<Seq<i32>, GeometryError>(v@)),
        boxes_inside(field@, boxs_pos@) ==> (edges matches Err(e) ==> find_edges_spec(
            box_crops(field@, boxs_pos@),
            boxs_pos@,
            side_references(xpoints@, ypoints@),
            ypoints@,
        ) == Err::<Seq<i32>, GeometryError>(e)),
{
    let crop_areas = match get_crop_area(boxs_pos, field) {
        Ok(crops) => crops,
        Err(_) => {
            return Err(GeometryError::IndexRange);
        },
    };
    proof {
        assert(pixels_of(crop_areas@) =~= box_crops(field@, boxs_pos@));
    }
    let xypoints = reference_lines(xpoints, ypoints);
    find_edges_pos(&crop_areas, boxs_pos, &xypoints, ypoints)
}

/// Finds the field edges in the corrected small-field image and measures
/// the four sides of the field against the reference frame.
pub fn measure_field(field: &U16Array, xpoints: &Vec<i32>, ypoints: &Vec<i32>) -> (measured: Result<
    (Corners, Sides, Vec<SideMeasurement>),
    GeometryError,
>)
    ensures
        measured matches Ok(m) ==> field_spec(field@, xpoints@, ypoints@) == Ok::<
            (Corners, Sides, Seq<SideMeasurement>),
            GeometryError,
        >((m.0, m.1, m.2@)),
        measured matches Err(e) ==> field_spec(field@, xpoints@, ypoints@) == Err::<
            (Corners, Sides, Seq<SideMeasurement>),
            GeometryError,
        >(e),
{
    let boxs_pos = match boxs_posision(xpoints, ypoints, field) {
        Ok(boxes) => boxes,
        Err(e) => {
            return Err(e);
        },
    };
    let edges_pos = match window_edges(field, &boxs_pos, xpoints, ypoints) {
        Ok(edges) => edges,
        Err(e) => {
            return Err(e);
        },
    };
    let (points, mbs) = match rectangle_edge_points(&boxs_pos, &edges_pos) {
        Ok(found) => found,
        Err(e) => {
            return Err(e);
        },
    };
    match length_line(points, mbs, xpoints, ypoints) {
        Ok(results) => Ok((points, mbs, results)),
        Err(e) => Err(e),
    }
}

/// Measures how far the brightest reach of the circular target lies from
/// the target's centre.
pub fn measure_circle(field: &U16Array, xpoints: &Vec<i32>, ypoints: &Vec<i32>) -> (measured: Result<
    (CircleOffset, U16Array),
    GeometryError,
>)
    ensures
        measured matches Ok(m) ==> circle_spec(field@, xpoints@, ypoints@) == Ok::<
            (CircleOffset, Pixels),
            GeometryError,
        >((m.0, m.1@)),
        measured matches Err(e) ==> circle_spec(field@, xpoints@, ypoints@) == Err::<
            (CircleOffset, Pixels),
            GeometryError,
        >(e),
{
    let (cir_arr, q_arr, white_ts, center) = split_q_circle(xpoints, ypoints, field)?;
    let (quadrant, farthest_point) = match farthest_q(&q_arr, white_ts) {
        Ok(f) => f,
        Err(_) => {
            return Err(GeometryError::IndexRange);
        },
    };
    let point = center_point(farthest_point, quadrant, center.0, center.1)?;
    let pixels = distance_pixel(point.0, point.1, center.0 as usize, center.1 as usize);
    let distance = pixel2cm(ypoints, pixels)?;
    let angle = calculate_angle(distance);
    Ok(
        (
            CircleOffset {
                point_x: point.0,
                point_y: point.1,
                center_x: center.0,
                center_y: center.1,
                distance,
                angle,
            },
            cir_arr,
        ),
    )
}

/// Measures a pair of images: the large-field image that shows the
/// reference lines, and the small-field image that shows the field and
/// the circular target.
///
/// The reference lines of the frame reported rise strictly in either
/// direction.
pub fn processing(large: &U16Array, small: &U16Array) -> (report: Result<Report, GeometryError>)
    ensures
        report matches Ok(r) ==> processing_spec(large@, small@) == Ok::<
            ReportModel,
            GeometryError,
        >(r@),
        report matches Err(e) ==> processing_spec(large@, small@) == Err::<
            ReportModel,
            GeometryError,
        >(e),
        report matches Ok(r) ==> r.xpoints@.len() == 3 && r.xpoints@[0] < r.xpoints@[1]
            < r.xpoints@[2],
        report matches Ok(r) ==> r.ypoints@.len() == 3 && r.ypoints@[0] < r.ypoints@[1]
            < r.ypoints@[2],
{
    let correction = find_correction(large)?;
    let rotated_arr = apply_correction(large, correction)?;
    let ypoints = fint_horizontal_line(&rotated_arr)?;
    let xpoints = find_vertical_line(&rotated_arr)?;
    let rotated_arr2 = apply_correction(small, correction)?;
    let (corners, lines, sides) = measure_field(&rotated_arr2, &xpoints, &ypoints)?;
    let (circle, target) = measure_circle(&rotated_arr2, &xpoints, &ypoints)?;
    let overlay = match add_arrays(&rotated_arr, &rotated_arr2) {
        Ok(v) => v,
        Err(_) => {
            return Err(GeometryError::IndexRange);
        },
    };
    Ok(Report { correction, xpoints, ypoints, corners, lines, sides, circle, target, overlay })
}

} // verus!
