//! The search windows of the field edges and the edge positions in them.
//!
//! Each side of the field is looked for in two windows around the
//! reference line of that side. In a window, the edge strength at a
//! position is the difference of the two pixels beside it, across the
//! side; the median over all lines of the window gives one curve, in
//! which the printed reference line is blanked and the field edge is the
//! strong rise nearest to the highest remaining peak.
use vstd::prelude::*;
use crate::arith::{div_trunc, trunc_div};
use crate::calibration::{clamp_i32, clamp_to_i32, cm2pixel, cm2pixel_spec};
use crate::error::GeometryError;
use crate::grid::{pixels_of, Pixels, U16Array};
use crate::levels::{
    argmax_range,
    ascending,
    bounder_spec,
    column_of,
    doubled_median,
    find_first_reaching,
    find_last_reaching,
    find_peak,
    first_max,
    first_reaching,
    is_ascending,
    is_first_max,
    is_first_reaching,
    is_last_reaching,
    last_reaching,
    lemma_ascending_unique,
    lemma_first_max_unique,
    lemma_first_reaching_unique,
    lemma_last_reaching_unique,
    level_rows,
    max_level,
    median_by_col,
    median_curve,
    percentile_hundredths,
    reaches,
    some_reaching,
};

verus! {

/// Half the width of a printed reference line, in thousandths of a
/// centimetre.
pub const HALF_LINE_WIDTH: i64 = 40;

/// How far from the peak the search for the field edge starts, in
/// thousandths of a centimetre.
pub const EDGE_DISTANCE: i64 = 280;

/// A rectangular search window: its top-left and bottom-right positions.
#[derive(Clone, Copy, Debug, PartialEq, Eq, Structural)]
pub struct BoundingBox {
    /// The first column.
    pub left: i32,
    /// The first row.
    pub top: i32,
    /// The column after the last.
    pub right: i32,
    /// The row after the last.
    pub bottom: i32,
}

/// The margin kept from the border of the grid: a hundredth of its width.
pub open spec fn border_margin(w: int) -> int {
    w / 100
}

/// Half the extent of a window across its side: 15 % of the grid's width.
pub open spec fn across_margin(w: int) -> int {
    15 * w / 100
}

/// Half the extent of a window along its side: 8 % of the grid's height.
pub open spec fn along_margin(h: int) -> int {
    8 * h / 100
}

/// The weighted mean `(wa a + wb b) / (wa + wb)`, rounded toward zero.
pub open spec fn weighted(a: int, wa: int, b: int, wb: int) -> int {
    trunc_div(wa * a + wb * b, wa + wb)
}

/// The smaller of two integers.
pub open spec fn least(a: int, b: int) -> int {
    if a <= b {
        a
    } else {
        b
    }
}

/// The larger of two integers.
pub open spec fn greatest(a: int, b: int) -> int {
    if a >= b {
        a
    } else {
        b
    }
}

/// `v` limited to the positions `0..=n` along an axis of `n` pixels.
pub open spec fn within(v: int, n: int) -> int {
    if v < 0 {
        0
    } else if v > n {
        n
    } else {
        v
    }
}

/// The window with the given sides in a grid of `h` rows and `w` columns.
///
/// Each side is limited to the grid and to the range of `i32`. A window
/// that would end before it starts ends where it starts, and so has no
/// extent.
#[verifier::opaque]
pub open spec fn window_box(left: int, top: int, right: int, bottom: int, h: int, w: int) -> BoundingBox {
    BoundingBox {
        left: clamp_i32(within(left, w)) as i32,
        top: clamp_i32(within(top, h)) as i32,
        right: greatest(clamp_i32(within(right, w)), clamp_i32(within(left, w))) as i32,
        bottom: greatest(clamp_i32(within(bottom, h)), clamp_i32(within(top, h))) as i32,
    }
}

/// A window on the left side, centred on the left reference line at row
/// `y`; it keeps the border margin from the left border and ends at the
/// borders of the grid.
pub open spec fn left_box(x: int, y: int, h: int, w: int) -> BoundingBox {
    window_box(
        greatest(x - across_margin(w), border_margin(w)),
        y - along_margin(h),
        x + across_margin(w),
        y + along_margin(h),
        h,
        w,
    )
}

/// A window on the right side, centred on the right reference line at row
/// `y`; it keeps the border margin from the right border and ends at the
/// borders of the grid.
pub open spec fn right_box(x: int, y: int, h: int, w: int) -> BoundingBox {
    window_box(
        x - across_margin(w),
        y - along_margin(h),
        least(x + across_margin(w), w - border_margin(w) - 1),
        y + along_margin(h),
        h,
        w,
    )
}

/// A window on the top side, centred on the top reference line at column
/// `x`; it keeps the border margin from the top border and ends at the
/// borders of the grid.
pub open spec fn top_box(x: int, y: int, h: int, w: int) -> BoundingBox {
    window_box(
        x - along_margin(h),
        greatest(y - across_margin(w), border_margin(w)),
        x + along_margin(h),
        y + across_margin(w),
        h,
        w,
    )
}

/// A window on the bottom side, centred on the bottom reference line at
/// column `x`; it keeps the border margin from the bottom border and ends
/// at the borders of the grid.
pub open spec fn bottom_box(x: int, y: int, h: int, w: int) -> BoundingBox {
    window_box(
        x - along_margin(h),
        y - across_margin(w),
        x + along_margin(h),
        least(y + across_margin(w), h - border_margin(w) - 1),
        h,
        w,
    )
}

/// What [`boxs_posision`] returns: two windows for each of the left, right,
/// top and bottom sides, in that order, every one inside the grid.
///
/// The windows of the left and right sides lie a quarter of the way from
/// the top and from the bottom reference line to the centre line. Those of
/// the top side lie a quarter of the way from the centre line to the left
/// and to the right line; those of the bottom side lie three eighths of
/// the way from the left line to the centre line, and half-way between the
/// centre and the right line.
pub open spec fn boxes_spec(xpoints: Seq<i32>, ypoints: Seq<i32>, h: int, w: int) -> Result<
    Seq<BoundingBox>,
    GeometryError,
> {
    if xpoints.len() < 3 || ypoints.len() < 3 {
        Err(GeometryError::IndexRange)
    } else {
        let x0 = xpoints[0] as int;
        let x1 = xpoints[1] as int;
        let x2 = xpoints[2] as int;
        let y0 = ypoints[0] as int;
        let y1 = ypoints[1] as int;
        let y2 = ypoints[2] as int;
        Ok(
            seq![
                left_box(x0, weighted(y0, 3, y1, 1), h, w),
                left_box(x0, weighted(y1, 1, y2, 3), h, w),
                right_box(x2, weighted(y0, 3, y1, 1), h, w),
                right_box(x2, weighted(y1, 1, y2, 3), h, w),
                top_box(weighted(x1, 3, x0, 1), y0, h, w),
                top_box(weighted(x1, 1, x2, 3), y0, h, w),
                bottom_box(weighted(x1, 3, x0, 5), y2, h, w),
                bottom_box(weighted(x1, 1, x2, 1), y2, h, w),
            ],
        )
    }
}

/// `v` limited to the positions of an axis of `n` pixels and to the range
/// of `i32`.
fn limit_to_axis(v: i128, n: usize) -> (c: i32)
    ensures
        c == clamp_i32(within(v as int, n as int)),
        0 <= c <= n,
{
    if v < 0 {
        0
    } else if v > n as i128 {
        clamp_to_i32(n as i128)
    } else {
        clamp_to_i32(v)
    }
}

/// The window with the given sides in a grid of `h` rows and `w` columns.
fn make_box(left: i128, top: i128, right: i128, bottom: i128, h: usize, w: usize) -> (b: BoundingBox)
    ensures
        b == window_box(left as int, top as int, right as int, bottom as int, h as int, w as int),
        0 <= b.left <= b.right <= w,
        0 <= b.top <= b.bottom <= h,
{
    proof {
        reveal(window_box);
    }
    let l = limit_to_axis(left, w);
    let t = limit_to_axis(top, h);
    let r = limit_to_axis(right, w);
    let b = limit_to_axis(bottom, h);
    BoundingBox {
        left: l,
        top: t,
        right: if r >= l {
            r
        } else {
            l
        },
        bottom: if b >= t {
            b
        } else {
            t
        },
    }
}

/// The weighted mean of two reference positions.
fn weigh(a: i32, wa: i128, b: i32, wb: i128) -> (m: i128)
    requires
        1 <= wa <= 8,
        1 <= wb <= 8,
    ensures
        m == weighted(a as int, wa as int, b as int, wb as int),
        -0x1_0000_0000_0000 <= m <= 0x1_0000_0000_0000,
{
    assert(-0x8_0000_0000 <= wa * a <= 0x8_0000_0000) by (nonlinear_arith)
        requires
            1 <= wa <= 8,
            -0x8000_0000 <= a <= 0x8000_0000,
    ;
    assert(-0x8_0000_0000 <= wb * b <= 0x8_0000_0000) by (nonlinear_arith)
        requires
            1 <= wb <= 8,
            -0x8000_0000 <= b <= 0x8000_0000,
    ;
    let total = wa * (a as i128) + wb * (b as i128);
    let m = div_trunc(total, wa + wb);
    proof {
        crate::arith::lemma_trunc_div_within(total as int, (wa + wb) as int);
    }
    m
}

/// A window on the left side.
fn make_left_box(x: i32, y: i128, h: usize, w: usize) -> (b: BoundingBox)
    requires
        h <= isize::MAX,
        w <= isize::MAX,
        -0x1_0000_0000_0000 <= y <= 0x1_0000_0000_0000,
    ensures
        b == left_box(x as int, y as int, h as int, w as int),
        0 <= b.left <= b.right <= w,
        0 <= b.top <= b.bottom <= h,
{
    let border = w as i128 / 100;
    let across = 15 * (w as i128) / 100;
    let along = 8 * (h as i128) / 100;
    let limit = if x as i128 - across >= border {
        x as i128 - across
    } else {
        border
    };
    make_box(limit, y - along, x as i128 + across, y + along, h, w)
}

/// A window on the right side.
fn make_right_box(x: i32, y: i128, h: usize, w: usize) -> (b: BoundingBox)
    requires
        h <= isize::MAX,
        w <= isize::MAX,
        -0x1_0000_0000_0000 <= y <= 0x1_0000_0000_0000,
    ensures
        b == right_box(x as int, y as int, h as int, w as int),
        0 <= b.left <= b.right <= w,
        0 <= b.top <= b.bottom <= h,
{
    let border = w as i128 / 100;
    let across = 15 * (w as i128) / 100;
    let along = 8 * (h as i128) / 100;
    let limit = if x as i128 + across <= w as i128 - border - 1 {
        x as i128 + across
    } else {
        w as i128 - border - 1
    };
    make_box(x as i128 - across, y - along, limit, y + along, h, w)
}

/// A window on the top side.
fn make_top_box(x: i128, y: i32, h: usize, w: usize) -> (b: BoundingBox)
    requires
        h <= isize::MAX,
        w <= isize::MAX,
        -0x1_0000_0000_0000 <= x <= 0x1_0000_0000_0000,
    ensures
        b == top_box(x as int, y as int, h as int, w as int),
        0 <= b.left <= b.right <= w,
        0 <= b.top <= b.bottom <= h,
{
    let border = w as i128 / 100;
    let across = 15 * (w as i128) / 100;
    let along = 8 * (h as i128) / 100;
    let limit = if y as i128 - across >= border {
        y as i128 - across
    } else {
        border
    };
    make_box(x - along, limit, x + along, y as i128 + across, h, w)
}

/// A window on the bottom side.
fn make_bottom_box(x: i128, y: i32, h: usize, w: usize) -> (b: BoundingBox)
    requires
        h <= isize::MAX,
        w <= isize::MAX,
        -0x1_0000_0000_0000 <= x <= 0x1_0000_0000_0000,
    ensures
        b == bottom_box(x as int, y as int, h as int, w as int),
        0 <= b.left <= b.right <= w,
        0 <= b.top <= b.bottom <= h,
{
    let border = w as i128 / 100;
    let across = 15 * (w as i128) / 100;
    let along = 8 * (h as i128) / 100;
    let limit = if y as i128 + across <= h as i128 - border - 1 {
        y as i128 + across
    } else {
        h as i128 - border - 1
    };
    make_box(x - along, y as i128 - across, x + along, limit, h, w)
}

/// The search windows of the eight edge samples, each inside the grid.
///
/// A frame that lacks a line is an index-range error.
pub fn boxs_posision(xpoints: &Vec<i32>, ypoints: &Vec<i32>, arr: &U16Array) -> (boxes: Result<
    Vec<BoundingBox>,
    GeometryError,
>)
    ensures
        boxes matches Ok(v) ==> boxes_spec(
            xpoints@,
            ypoints@,
            arr@.height() as int,
            arr@.width as int,
        ) == Ok::<Seq<BoundingBox>, GeometryError>(v@),
        boxes matches Err(e) ==> boxes_spec(
            xpoints@,
            ypoints@,
            arr@.height() as int,
            arr@.width as int,
        ) == Err::<Seq<BoundingBox>, GeometryError>(e),
        boxes matches Ok(v) ==> boxes_inside(arr@, v@),
{
    if xpoints.len() < 3 || ypoints.len() < 3 {
        return Err(GeometryError::IndexRange);
    }
    let h = arr.nrows();
    let w = arr.ncols();
    let upper = weigh(ypoints[0], 3, ypoints[1], 1);
    let lower = weigh(ypoints[1], 1, ypoints[2], 3);
    let b0 = make_left_box(xpoints[0], upper, h, w);
    let b1 = make_left_box(xpoints[0], lower, h, w);
    let b2 = make_right_box(xpoints[2], upper, h, w);
    let b3 = make_right_box(xpoints[2], lower, h, w);
    let b4 = make_top_box(weigh(xpoints[1], 3, xpoints[0], 1), ypoints[0], h, w);
    let b5 = make_top_box(weigh(xpoints[1], 1, xpoints[2], 3), ypoints[0], h, w);
    let b6 = make_bottom_box(weigh(xpoints[1], 3, xpoints[0], 5), ypoints[2], h, w);
    let b7 = make_bottom_box(weigh(xpoints[1], 1, xpoints[2], 1), ypoints[2], h, w);
    let mut pos: Vec<BoundingBox> = Vec::new();
    pos.push(b0);
    pos.push(b1);
    pos.push(b2);
    pos.push(b3);
    pos.push(b4);
    pos.push(b5);
    pos.push(b6);
    pos.push(b7);
    proof {
        assert(pos@ =~= seq![b0, b1, b2, b3, b4, b5, b6, b7]);
    }
    Ok(pos)
}

/// The window `b` lies inside the grid.
pub open spec fn box_inside(p: Pixels, b: BoundingBox) -> bool {
    p.has_window(b.top as int, b.bottom as int, b.left as int, b.right as int)
}

/// The pixels of the grid in the window `b`.
pub open spec fn box_pixels(p: Pixels, b: BoundingBox) -> Pixels {
    p.window(b.top as int, b.bottom as int, b.left as int, b.right as int)
}

/// There are eight windows and each lies inside the grid.
pub open spec fn boxes_inside(p: Pixels, boxes: Seq<BoundingBox>) -> bool {
    &&& boxes.len() == 8
    &&& forall|i: int| 0 <= i < 8 ==> box_inside(p, #[trigger] boxes[i])
}

/// A window made for a grid lies inside it.
pub proof fn lemma_window_box_inside(left: int, top: int, right: int, bottom: int, p: Pixels)
    ensures
        box_inside(
            p,
            window_box(left, top, right, bottom, p.height() as int, p.width as int),
        ),
{
    reveal(window_box);
}

/// The search windows of a frame all lie inside the grid they are made
/// for, wherever the frame lies.
pub proof fn lemma_boxes_inside(xpoints: Seq<i32>, ypoints: Seq<i32>, p: Pixels)
    ensures
        boxes_spec(xpoints, ypoints, p.height() as int, p.width as int) matches Ok(boxes)
            ==> boxes_inside(p, boxes),
{
    let h = p.height() as int;
    let w = p.width as int;
    if xpoints.len() >= 3 && ypoints.len() >= 3 {
        let boxes = boxes_spec(xpoints, ypoints, h, w).unwrap();
        assert forall|i: int| 0 <= i < 8 implies box_inside(p, #[trigger] boxes[i]) by {
            let x0 = xpoints[0] as int;
            let x1 = xpoints[1] as int;
            let x2 = xpoints[2] as int;
            let y0 = ypoints[0] as int;
            let y1 = ypoints[1] as int;
            let y2 = ypoints[2] as int;
            let upper = weighted(y0, 3, y1, 1);
            let lower = weighted(y1, 1, y2, 3);
            lemma_window_box_inside(
                greatest(x0 - across_margin(w), border_margin(w)),
                upper - along_margin(h),
                x0 + across_margin(w),
                upper + along_margin(h),
                p,
            );
            lemma_window_box_inside(
                greatest(x0 - across_margin(w), border_margin(w)),
                lower - along_margin(h),
                x0 + across_margin(w),
                lower + along_margin(h),
                p,
            );
            lemma_window_box_inside(
                x2 - across_margin(w),
                upper - along_margin(h),
                least(x2 + across_margin(w), w - border_margin(w) - 1),
                upper + along_margin(h),
                p,
            );
            lemma_window_box_inside(
                x2 - across_margin(w),
                lower - along_margin(h),
                least(x2 + across_margin(w), w - border_margin(w) - 1),
                lower + along_margin(h),
                p,
            );
            let t1 = weighted(x1, 3, x0, 1);
            let t2 = weighted(x1, 1, x2, 3);
            lemma_window_box_inside(
                t1 - along_margin(h),
                greatest(y0 - across_margin(w), border_margin(w)),
                t1 + along_margin(h),
                y0 + across_margin(w),
                p,
            );
            lemma_window_box_inside(
                t2 - along_margin(h),
                greatest(y0 - across_margin(w), border_margin(w)),
                t2 + along_margin(h),
                y0 + across_margin(w),
                p,
            );
            let b1 = weighted(x1, 3, x0, 5);
            let b2 = weighted(x1, 1, x2, 1);
            lemma_window_box_inside(
                b1 - along_margin(h),
                y2 - across_margin(w),
                b1 + along_margin(h),
                least(y2 + across_margin(w), h - border_margin(w) - 1),
                p,
            );
            lemma_window_box_inside(
                b2 - along_margin(h),
                y2 - across_margin(w),
                b2 + along_margin(h),
                least(y2 + across_margin(w), h - border_margin(w) - 1),
                p,
            );
        }
    }
}

/// The window has rows and columns.
pub open spec fn has_extent(b: BoundingBox) -> bool {
    b.left < b.right && b.top < b.bottom
}

/// The frame lies in a grid of `h` rows and `w` columns: each of its lines
/// is a row or a column of the grid, and the lines rise strictly.
pub open spec fn frame_in_grid(xpoints: Seq<i32>, ypoints: Seq<i32>, h: int, w: int) -> bool {
    &&& xpoints.len() == 3
    &&& ypoints.len() == 3
    &&& 0 <= xpoints[0] < xpoints[1] < xpoints[2] < w
    &&& 0 <= ypoints[0] < ypoints[1] < ypoints[2] < h
}

/// A window whose sides, before they are limited, rise within reach of
/// the grid has extent.
pub proof fn lemma_window_box_extent(left: int, top: int, right: int, bottom: int, h: int, w: int)
    requires
        0 < h <= i32::MAX,
        0 < w <= i32::MAX,
        left < right,
        top < bottom,
        left < w,
        top < h,
        right > 0,
        bottom > 0,
    ensures
        has_extent(window_box(left, top, right, bottom, h, w)),
{
    reveal(window_box);
}

/// In a grid of at least 100 by 100 pixels whose border margin, a
/// hundredth of its width, leaves more than one row, every search window
/// of a frame that lies in the grid has rows and columns.
pub proof fn lemma_boxes_have_extent(xpoints: Seq<i32>, ypoints: Seq<i32>, h: int, w: int)
    requires
        100 <= h <= i32::MAX,
        100 <= w <= i32::MAX,
        border_margin(w) + 1 < h,
        frame_in_grid(xpoints, ypoints, h, w),
    ensures
        boxes_spec(xpoints, ypoints, h, w) matches Ok(boxes) && forall|i: int|
            0 <= i < 8 ==> has_extent(#[trigger] boxes[i]),
{
    let boxes = boxes_spec(xpoints, ypoints, h, w).unwrap();
    let x0 = xpoints[0] as int;
    let x1 = xpoints[1] as int;
    let x2 = xpoints[2] as int;
    let y0 = ypoints[0] as int;
    let y1 = ypoints[1] as int;
    let y2 = ypoints[2] as int;
    let upper = weighted(y0, 3, y1, 1);
    let lower = weighted(y1, 1, y2, 3);
    let t1 = weighted(x1, 3, x0, 1);
    let t2 = weighted(x1, 1, x2, 3);
    let b1 = weighted(x1, 3, x0, 5);
    let b2 = weighted(x1, 1, x2, 1);
    assert(0 <= upper < h && 0 <= lower < h);
    assert(0 <= t1 < w && 0 <= t2 < w && 0 <= b1 < w && 0 <= b2 < w);
    let across = across_margin(w);
    let along = along_margin(h);
    let border = border_margin(w);
    assert(across >= 15 && along >= 8 && border >= 1 && across > border);
    lemma_window_box_extent(greatest(x0 - across, border), upper - along, x0 + across, upper + along, h, w);
    lemma_window_box_extent(greatest(x0 - across, border), lower - along, x0 + across, lower + along, h, w);
    lemma_window_box_extent(x2 - across, upper - along, least(x2 + across, w - border - 1), upper + along, h, w);
    lemma_window_box_extent(x2 - across, lower - along, least(x2 + across, w - border - 1), lower + along, h, w);
    lemma_window_box_extent(t1 - along, greatest(y0 - across, border), t1 + along, y0 + across, h, w);
    lemma_window_box_extent(t2 - along, greatest(y0 - across, border), t2 + along, y0 + across, h, w);
    lemma_window_box_extent(b1 - along, y2 - across, b1 + along, least(y2 + across, h - border - 1), h, w);
    lemma_window_box_extent(b2 - along, y2 - across, b2 + along, least(y2 + across, h - border - 1), h, w);
    assert forall|i: int| 0 <= i < 8 implies has_extent(#[trigger] boxes[i]) by {
        if i == 0 {
        } else if i == 1 {
        } else if i == 2 {
        } else if i == 3 {
        } else if i == 4 {
        } else if i == 5 {
        } else if i == 6 {
        } else {
        }
    }
}

/// Cuts the eight search windows out of the grid.
///
/// Another number of windows than eight, and a window that does not lie
/// inside the grid, are index-range errors.
pub fn get_crop_area(positions: &Vec<BoundingBox>, arr: &U16Array) -> (crops: Result<
    Vec<U16Array>,
    GeometryError,
>)
    ensures
        boxes_inside(arr@, positions@) ==> crops.is_ok(),
        !boxes_inside(arr@, positions@) ==> crops matches Err(GeometryError::IndexRange),
        crops matches Ok(v) ==> {
            &&& v@.len() == 8
            &&& forall|i: int|
                0 <= i < 8 ==> (#[trigger] v@[i])@ == box_pixels(arr@, positions@[i]) && v@[i]@.wf()
        },
{
    if positions.len() != 8 {
        return Err(GeometryError::IndexRange);
    }
    let mut crops: Vec<U16Array> = Vec::new();
    let mut i: usize = 0;
    while i < 8
        invariant
            i <= 8,
            positions@.len() == 8,
            crops@.len() == i,
            forall|k: int| 0 <= k < i ==> box_inside(arr@, #[trigger] positions@[k]),
            forall|k: int|
                0 <= k < i ==> (#[trigger] crops@[k])@ == box_pixels(arr@, positions@[k])
                    && crops@[k]@.wf(),
        decreases 8 - i,
    {
        let b = positions[i];
        match arr.crop(b.top as i64, b.bottom as i64, b.left as i64, b.right as i64) {
            Ok(g) => {
                crops.push(g);
            },
            Err(_) => {
                assert(!box_inside(arr@, positions@[i as int]));
                return Err(GeometryError::IndexRange);
            },
        }
        i = i + 1;
    }
    Ok(crops)
}

/// The number of lines of a window along the side: its rows where the
/// side is upright (`by_x`), its columns where the side is level.
pub open spec fn profile_count(p: Pixels, by_x: bool) -> nat {
    if by_x {
        p.height()
    } else {
        p.width
    }
}

/// The number of positions across the side that have a pixel on either
/// hand.
pub open spec fn profile_length(p: Pixels, by_x: bool) -> nat {
    if by_x {
        if p.width >= 2 {
            (p.width - 2) as nat
        } else {
            0
        }
    } else {
        if p.height() >= 2 {
            (p.height() - 2) as nat
        } else {
            0
        }
    }
}

/// The edge strength on line `j` at position `k`: the difference in size
/// of the pixels at `k` and `k + 2` across the side.
pub open spec fn edge_strength(p: Pixels, by_x: bool, j: int, k: int) -> u64 {
    if by_x {
        if p.at(j, k) >= p.at(j, k + 2) {
            (p.at(j, k) - p.at(j, k + 2)) as u64
        } else {
            (p.at(j, k + 2) - p.at(j, k)) as u64
        }
    } else {
        if p.at(k, j) >= p.at(k + 2, j) {
            (p.at(k, j) - p.at(k + 2, j)) as u64
        } else {
            (p.at(k + 2, j) - p.at(k, j)) as u64
        }
    }
}

/// The edge strengths of a window, line by line.
pub open spec fn edge_profiles(p: Pixels, by_x: bool) -> Seq<Seq<u64>> {
    Seq::new(
        profile_count(p, by_x),
        |j: int| Seq::new(profile_length(p, by_x), |k: int| edge_strength(p, by_x, j, k)),
    )
}

/// The reference line at `a`, of half width `hw`, can be blanked in a
/// curve of `len` positions.
pub open spec fn blanking_fits(len: int, a: int, hw: int) -> bool {
    hw >= 0 && a >= 2 * hw && a >= hw + 1 && a + hw <= len
}

/// The curve with the positions `a - hw .. a + hw` of the reference line
/// set to the level just before them.
pub open spec fn blanked(curve: Seq<u64>, a: int, hw: int) -> Seq<u64> {
    Seq::new(
        curve.len(),
        |i: int|
            if a - hw <= i < a + hw {
                curve[a - hw - 1]
            } else {
                curve[i]
            },
    )
}

/// Both searches can start `far` positions from the peak.
pub open spec fn searches_fit(len: int, peak: int, far: int) -> bool {
    far >= 0 && peak >= far && peak + far <= len && peak - far + 1 < len
}

/// Position `i` lies in the zone of the reference line, twice as wide as
/// the line itself.
pub open spec fn in_line_zone(i: int, a: int, hw: int) -> bool {
    a - 2 * hw <= i < a + 2 * hw
}

/// The pixel position of the first largest level in `from..to`.
pub open spec fn refined(s: Seq<u64>, from: int, to: int) -> int {
    from + first_max(s.subrange(from, to)) + 1
}

/// The edge after the search to the right of the peak.
///
/// The search runs from `far` positions right of the peak to the end. At
/// the first level that reaches 70 % of the peak it stops; where that
/// position lies outside the zone of the reference line, the edge is the
/// first largest level of the next `2 hw` positions. Otherwise the edge
/// stays at the peak.
pub open spec fn edge_after_right(s: Seq<u64>, a: int, hw: int, peak: int, far: int) -> Result<
    int,
    GeometryError,
> {
    match first_reaching(s, peak + far, s.len() as int, 10, 7 * max_level(s)) {
        Some(cur) => if in_line_zone(cur, a, hw) {
            Ok(peak + 1)
        } else if cur + 2 * hw > s.len() {
            Err(GeometryError::IndexRange)
        } else {
            Ok(refined(s, cur, cur + 2 * hw))
        },
        None => Ok(peak + 1),
    }
}

/// The edge after the search to the left of the peak.
///
/// The search runs from just right of `far` positions left of the peak
/// down to position 1. At the first level that reaches 70 % of the peak it
/// stops; where that position lies outside the zone of the reference
/// line, the edge is the first largest level of the `2 hw` positions
/// before it. Otherwise the edge stays as it was.
pub open spec fn edge_after_left(
    s: Seq<u64>,
    a: int,
    hw: int,
    peak: int,
    far: int,
    before: int,
) -> Result<int, GeometryError> {
    match last_reaching(s, 1, peak - far + 2, 10, 7 * max_level(s)) {
        Some(cur) => if in_line_zone(cur, a, hw) {
            Ok(before)
        } else if cur < 2 * hw {
            Err(GeometryError::IndexRange)
        } else {
            Ok(refined(s, cur - 2 * hw, cur))
        },
        None => Ok(before),
    }
}

/// The pixel position of the field edge in a curve of edge strengths.
///
/// `a` is the position of the reference line, `hw` half its width, and
/// `far` the distance from the peak at which the searches start. A
/// reference line or a search that does not fit the curve is an
/// index-range error.
pub open spec fn edge_in_curve(curve: Seq<u64>, a: int, hw: int, far: int) -> Result<
    usize,
    GeometryError,
> {
    if !blanking_fits(curve.len() as int, a, hw) {
        Err(GeometryError::IndexRange)
    } else {
        let s = blanked(curve, a, hw);
        let peak = first_max(s);
        if !searches_fit(s.len() as int, peak, far) {
            Err(GeometryError::IndexRange)
        } else {
            match edge_after_right(s, a, hw, peak, far) {
                Err(e) => Err(e),
                Ok(right) => match edge_after_left(s, a, hw, peak, far, right) {
                    Err(e) => Err(e),
                    Ok(edge) => Ok(edge as usize),
                },
            }
        }
    }
}

/// What [`central_diff`] returns.
pub open spec fn central_diff_spec(
    p: Pixels,
    top_left: int,
    xypoint: int,
    by_x: bool,
    ypoints: Seq<i32>,
) -> Result<usize, GeometryError> {
    match cm2pixel_spec(ypoints, HALF_LINE_WIDTH as int) {
        Err(e) => Err(e),
        Ok(hw) => match cm2pixel_spec(ypoints, EDGE_DISTANCE as int) {
            Err(e) => Err(e),
            Ok(far) => if profile_count(p, by_x) == 0 {
                Err(GeometryError::IndexRange)
            } else {
                edge_in_curve(
                    median_curve(edge_profiles(p, by_x)),
                    xypoint - top_left,
                    hw as int,
                    far as int,
                )
            },
        },
    }
}

/// The edge strength on line `j` at position `k`.
fn strength_at(pixels: &U16Array, by_x: bool, j: usize, k: usize) -> (v: u64)
    requires
        j < profile_count(pixels@, by_x),
        k < profile_length(pixels@, by_x),
    ensures
        v == edge_strength(pixels@, by_x, j as int, k as int),
{
    let nrows = pixels.nrows();
    let ncols = pixels.ncols();
    let (first, second) = if by_x {
        (pixels.at(j, k), pixels.at(j, k + 2))
    } else {
        (pixels.at(k, j), pixels.at(k + 2, j))
    };
    if first >= second {
        (first - second) as u64
    } else {
        (second - first) as u64
    }
}

/// The edge strengths of a window, line by line.
pub fn edge_strengths(pixels: &U16Array, by_x: bool) -> (profiles: Vec<Vec<u64>>)
    ensures
        level_rows(profiles@) == edge_profiles(pixels@, by_x),
{
    let nrows = pixels.nrows();
    let ncols = pixels.ncols();
    let count = if by_x {
        nrows
    } else {
        ncols
    };
    let across = if by_x {
        ncols
    } else {
        nrows
    };
    let length = if across >= 2 {
        across - 2
    } else {
        0
    };
    let mut profiles: Vec<Vec<u64>> = Vec::new();
    let mut j: usize = 0;
    while j < count
        invariant
            j <= count,
            count == profile_count(pixels@, by_x),
            length == profile_length(pixels@, by_x),
            profiles@.len() == j,
            forall|i: int|
                0 <= i < j ==> (#[trigger] profiles@[i])@ == edge_profiles(pixels@, by_x)[i],
        decreases count - j,
    {
        let mut profile: Vec<u64> = Vec::new();
        let mut k: usize = 0;
        while k < length
            invariant
                j < count,
                k <= length,
                count == profile_count(pixels@, by_x),
                length == profile_length(pixels@, by_x),
                profile@.len() == k,
                forall|i: int|
                    0 <= i < k ==> #[trigger] profile@[i] == edge_strength(
                        pixels@,
                        by_x,
                        j as int,
                        i,
                    ),
            decreases length - k,
        {
            profile.push(strength_at(pixels, by_x, j, k));
            k = k + 1;
        }
        proof {
            assert(profile@ =~= edge_profiles(pixels@, by_x)[j as int]);
        }
        profiles.push(profile);
        j = j + 1;
    }
    proof {
        assert(level_rows(profiles@) =~= edge_profiles(pixels@, by_x));
    }
    profiles
}

/// Sets the positions `a - hw .. a + hw` of the curve to the level just
/// before them.
fn blank_line(curve: &mut Vec<u64>, a: usize, hw: usize)
    requires
        blanking_fits(old(curve)@.len() as int, a as int, hw as int),
    ensures
        final(curve)@ == blanked(old(curve)@, a as int, hw as int),
{
    let len = curve.len();
    let level = curve[a - hw - 1];
    let end = a + hw;
    let mut i: usize = a - hw;
    while i < end
        invariant
            a - hw <= i <= end,
            end == a + hw,
            hw + 1 <= a,
            end <= curve@.len(),
            curve@.len() == old(curve)@.len(),
            level == old(curve)@[a - hw - 1],
            forall|k: int|
                0 <= k < curve@.len() ==> #[trigger] curve@[k] == if a - hw <= k < i {
                    level
                } else {
                    old(curve)@[k]
                },
        decreases end - i,
    {
        curve.set(i, level);
        i = i + 1;
    }
    proof {
        assert(curve@ =~= blanked(old(curve)@, a as int, hw as int));
    }
}

/// Position `i` lies in the zone of the reference line.
fn is_in_line_zone(i: usize, a: usize, hw: usize) -> (inside: bool)
    ensures
        inside == in_line_zone(i as int, a as int, hw as int),
{
    a as i128 - 2 * (hw as i128) <= i as i128 && (i as i128) < a as i128 + 2 * (hw as i128)
}

/// The pixel position of the field edge in a curve of edge strengths.
pub fn locate_edge(curve: Vec<u64>, a: i64, hw: i64, far: i64) -> (edge: Result<usize, GeometryError>)
    ensures
        edge == edge_in_curve(curve@, a as int, hw as int, far as int),
{
    let mut s = curve;
    let len = s.len();
    if hw < 0 || a < 0 || (a as i128) < 2 * (hw as i128) || (a as i128) < hw as i128 + 1 || a as i128
        + hw as i128 > len as i128 {
        return Err(GeometryError::IndexRange);
    }
    let at = a as usize;
    let half = hw as usize;
    blank_line(&mut s, at, half);
    let (peak, threshold) = find_peak(&s);
    if far < 0 || (peak as i128) < far as i128 || peak as i128 + far as i128 > len as i128
        || peak as i128 - far as i128 + 1 >= len as i128 {
        return Err(GeometryError::IndexRange);
    }
    let distance = far as usize;
    let mut edge: usize = peak + 1;
    match find_first_reaching(&s, peak + distance, len, 10, threshold) {
        Some(cur) => {
            if !is_in_line_zone(cur, at, half) {
                if cur as i128 + 2 * (half as i128) > len as i128 {
                    return Err(GeometryError::IndexRange);
                }
                edge = cur + argmax_range(&s, cur, cur + 2 * half) + 1;
            }
        },
        None => {},
    }
    match find_last_reaching(&s, 1, peak - distance + 2, 10, threshold) {
        Some(cur) => {
            if !is_in_line_zone(cur, at, half) {
                if (cur as i128) < 2 * (half as i128) {
                    return Err(GeometryError::IndexRange);
                }
                edge = (cur - 2 * half) + argmax_range(&s, cur - 2 * half, cur) + 1;
            }
        },
        None => {},
    }
    Ok(edge)
}

/// Finds the field edge in one search window.
///
/// `top_left` is the window's first position across the side in the whole
/// grid and `xypoint` the reference line of the side, so that their
/// difference is the reference line's position in the window. The result
/// is the edge's position in the window.
pub fn central_diff(pixels: &U16Array, top_left: i32, xypoint: i32, by_x: bool, ypoints: &Vec<i32>) -> (edge:
    Result<usize, GeometryError>)
    ensures
        edge == central_diff_spec(pixels@, top_left as int, xypoint as int, by_x, ypoints@),
{
    let half_line_w = cm2pixel(ypoints, HALF_LINE_WIDTH)?;
    let far_pixel = cm2pixel(ypoints, EDGE_DISTANCE)?;
    let edge_pixels = edge_strengths(pixels, by_x);
    if edge_pixels.len() == 0 {
        return Err(GeometryError::IndexRange);
    }
    proof {
        let p = edge_profiles(pixels@, by_x);
        assert(crate::levels::rows_cover(p)) by {
            assert forall|j: int| 0 <= j < p.len() implies (#[trigger] p[j]).len() >= p[0].len() by {}
        }
    }
    match median_by_col(&edge_pixels) {
        Ok(med_edge) => locate_edge(
            med_edge,
            xypoint as i64 - top_left as i64,
            half_line_w as i64,
            far_pixel as i64,
        ),
        Err(e) => Err(e),
    }
}

/// The position in the whole grid of the edge found in window `q`.
///
/// The first four windows belong to upright sides, the others to level
/// ones. A position that does not fit `i32` is an index-range error.
pub open spec fn edge_position_spec(
    crop: Pixels,
    b: BoundingBox,
    q: int,
    reference: int,
    ypoints: Seq<i32>,
) -> Result<i32, GeometryError> {
    let origin = if q <= 3 {
        b.left as int
    } else {
        b.top as int
    };
    match central_diff_spec(crop, origin, reference, q <= 3, ypoints) {
        Err(e) => Err(e),
        Ok(local) => if local + origin > i32::MAX {
            Err(GeometryError::IndexRange)
        } else {
            Ok((local + origin) as i32)
        },
    }
}

/// The edge positions of the first `n` windows, or the first error among
/// them.
pub open spec fn edges_spec(
    crops: Seq<Pixels>,
    boxes: Seq<BoundingBox>,
    references: Seq<i32>,
    ypoints: Seq<i32>,
    n: nat,
) -> Result<Seq<i32>, GeometryError>
    decreases n,
{
    if n == 0 {
        Ok(Seq::empty())
    } else {
        match edges_spec(crops, boxes, references, ypoints, (n - 1) as nat) {
            Err(e) => Err(e),
            Ok(found) => match edge_position_spec(
                crops[n - 1],
                boxes[n - 1],
                n - 1,
                references[n - 1] as int,
                ypoints,
            ) {
                Err(e) => Err(e),
                Ok(edge) => Ok(found.push(edge)),
            },
        }
    }
}

/// An error among the first windows is the error of all.
pub proof fn lemma_edges_error_stays(
    crops: Seq<Pixels>,
    boxes: Seq<BoundingBox>,
    references: Seq<i32>,
    ypoints: Seq<i32>,
    n: nat,
    m: nat,
)
    requires
        n <= m,
        edges_spec(crops, boxes, references, ypoints, n).is_err(),
    ensures
        edges_spec(crops, boxes, references, ypoints, m) == edges_spec(
            crops,
            boxes,
            references,
            ypoints,
            n,
        ),
    decreases m,
{
    if n < m {
        lemma_edges_error_stays(crops, boxes, references, ypoints, n, (m - 1) as nat);
    }
}

/// What [`find_edges_pos`] returns.
pub open spec fn find_edges_spec(
    crops: Seq<Pixels>,
    boxes: Seq<BoundingBox>,
    references: Seq<i32>,
    ypoints: Seq<i32>,
) -> Result<Seq<i32>, GeometryError> {
    if crops.len() != 8 || boxes.len() != 8 || references.len() != 8 {
        Err(GeometryError::IndexRange)
    } else {
        edges_spec(crops, boxes, references, ypoints, 8)
    }
}

/// Finds the field edge in each of the eight search windows, as positions
/// in the whole grid.
///
/// `xypoints` holds, for each window, the reference line of its side.
/// Another number of windows, boxes or reference lines than eight is an
/// index-range error.
pub fn find_edges_pos(
    crop_areas: &Vec<U16Array>,
    boxs_pos: &Vec<BoundingBox>,
    xypoints: &Vec<i32>,
    ypoints: &Vec<i32>,
) -> (edges: Result<Vec<i32>, GeometryError>)
    ensures
        edges matches Ok(v) ==> find_edges_spec(
            pixels_of(crop_areas@),
            boxs_pos@,
            xypoints@,
            ypoints@,
        ) == Ok::<Seq<i32>, GeometryError>(v@),
        edges matches Err(e) ==> find_edges_spec(
            pixels_of(crop_areas@),
            boxs_pos@,
            xypoints@,
            ypoints@,
        ) == Err::<Seq<i32>, GeometryError>(e),
{
    if crop_areas.len() != 8 || boxs_pos.len() != 8 || xypoints.len() != 8 {
        return Err(GeometryError::IndexRange);
    }
    let ghost crops = pixels_of(crop_areas@);
    let mut edges_pos: Vec<i32> = Vec::new();
    let mut q: usize = 0;
    while q < 8
        invariant
            q <= 8,
            crop_areas@.len() == 8,
            boxs_pos@.len() == 8,
            xypoints@.len() == 8,
            crops == pixels_of(crop_areas@),
            edges_spec(crops, boxs_pos@, xypoints@, ypoints@, q as nat) == Ok::<
                Seq<i32>,
                GeometryError,
            >(edges_pos@),
        decreases 8 - q,
    {
        let by_x = q <= 3;
        let b = boxs_pos[q];
        let top_left = if by_x {
            b.left
        } else {
            b.top
        };
        assert(crops[q as int] == crop_areas@[q as int]@);
        let ghost step = edge_position_spec(
            crops[q as int],
            boxs_pos@[q as int],
            q as int,
            xypoints@[q as int] as int,
            ypoints@,
        );
        let ghost next = edges_spec(crops, boxs_pos@, xypoints@, ypoints@, (q + 1) as nat);
        proof {
            assert(next == match edges_spec(crops, boxs_pos@, xypoints@, ypoints@, q as nat) {
                Err(e) => Err(e),
                Ok(found) => match step {
                    Err(e) => Err(e),
                    Ok(edge) => Ok(found.push(edge)),
                },
            });
        }
        let local = match central_diff(&crop_areas[q], top_left, xypoints[q], by_x, ypoints) {
            Ok(v) => v,
            Err(e) => {
                proof {
                    assert(next == Err::<Seq<i32>, GeometryError>(e));
                    lemma_edges_error_stays(
                        crops,
                        boxs_pos@,
                        xypoints@,
                        ypoints@,
                        (q + 1) as nat,
                        8,
                    );
                }
                return Err(e);
            },
        };
        if local as i128 + top_left as i128 > i32::MAX as i128 {
            proof {
                assert(next == Err::<Seq<i32>, GeometryError>(GeometryError::IndexRange));
                lemma_edges_error_stays(crops, boxs_pos@, xypoints@, ypoints@, (q + 1) as nat, 8);
            }
            return Err(GeometryError::IndexRange);
        }
        let edge_pos = (local as i128 + top_left as i128) as i32;
        edges_pos.push(edge_pos);
        q = q + 1;
    }
    Ok(edges_pos)
}

/// The window shows a step edge at position `c` across the side: every
/// line of the window is dark before `c` and has the intensity `level`
/// from there on. Positions are columns where the side is upright
/// (`by_x`), rows where it is level.
pub open spec fn is_step_edge(p: Pixels, by_x: bool, c: int, level: u16) -> bool {
    forall|r: int, j: int|
        p.contains(r, j) ==> #[trigger] p.at(r, j) == if (if by_x {
            j
        } else {
            r
        }) < c {
            0u16
        } else {
            level
        }
}

/// The curve of edge strengths of a step edge at position `c`: twice the
/// step at the two positions before `c`, and nothing elsewhere.
pub open spec fn step_curve(len: nat, c: int, level: u16) -> Seq<u64> {
    Seq::new(
        len,
        |k: int|
            if c - 2 <= k < c {
                (2 * level) as u64
            } else {
                0u64
            },
    )
}

/// Twice the median of equal levels is twice that level.
pub proof fn lemma_median_of_equal(s: Seq<u64>, v: u64)
    requires
        s.len() > 0,
        forall|i: int| 0 <= i < s.len() ==> s[i] == v,
        2 * v <= u64::MAX,
    ensures
        doubled_median(s) == 2 * v,
{
    assert(is_ascending(s));
    lemma_ascending_unique(s, s);
}

/// The median curve of a window that shows a step edge.
pub proof fn lemma_step_edge_curve(p: Pixels, by_x: bool, c: int, level: u16)
    requires
        p.wf(),
        is_step_edge(p, by_x, c, level),
        profile_count(p, by_x) >= 1,
    ensures
        median_curve(edge_profiles(p, by_x)) == step_curve(profile_length(p, by_x), c, level),
{
    let rows = edge_profiles(p, by_x);
    let n = profile_length(p, by_x);
    let curve = median_curve(rows);
    assert(rows[0].len() == n);
    assert forall|k: int| 0 <= k < n implies curve[k] == step_curve(n, c, level)[k] by {
        let column = column_of(rows, k);
        let strength: u64 = if c - 2 <= k < c {
            level as u64
        } else {
            0u64
        };
        assert forall|j: int| 0 <= j < column.len() implies column[j] == strength by {
            assert(column[j] == rows[j][k]);
            assert(rows[j][k] == edge_strength(p, by_x, j, k));
            let before = if by_x {
                p.at(j, k)
            } else {
                p.at(k, j)
            };
            let after = if by_x {
                p.at(j, k + 2)
            } else {
                p.at(k + 2, j)
            };
            if by_x {
                assert(p.contains(j, k) && p.contains(j, k + 2));
            } else {
                assert(p.contains(k, j) && p.contains(k + 2, j));
            }
            assert(before == if k < c {
                0u16
            } else {
                level
            });
            assert(after == if k + 2 < c {
                0u16
            } else {
                level
            });
        }
        lemma_median_of_equal(column, strength);
        assert(curve[k] == doubled_median(column) as u64);
    }
    assert(curve =~= step_curve(n, c, level));
}

/// The levels of a step curve in ascending order: the two strengths of
/// the step come last.
pub proof fn lemma_step_curve_ascending(len: nat, c: int, level: u16)
    requires
        2 <= c <= len,
    ensures
        ascending(step_curve(len, c, level)) == step_curve(len, len as int, level),
{
    broadcast use vstd::multiset::group_multiset_axioms;

    let curve = step_curve(len, c, level);
    let sorted = step_curve(len, len as int, level);
    let top = (2 * level) as u64;
    let before = Seq::new((c - 2) as nat, |k: int| 0u64);
    let after = Seq::new((len - c) as nat, |k: int| 0u64);
    let step = seq![top, top];
    assert(curve =~= before + step + after);
    assert(sorted =~= before + after + step);
    vstd::seq_lib::lemma_multiset_commutative(before + step, after);
    vstd::seq_lib::lemma_multiset_commutative(before, step);
    vstd::seq_lib::lemma_multiset_commutative(before + after, step);
    vstd::seq_lib::lemma_multiset_commutative(before, after);
    assert(curve.to_multiset() =~= sorted.to_multiset());
    assert(is_ascending(sorted));
    lemma_ascending_unique(curve, sorted);
}

/// A step edge at position `c` is found by the percentile bounds: in a
/// window of at most 102 positions across the side that shows the step
/// away from its first two and its last two positions, the first and the
/// last position of the median curve that reach its 99th percentile are
/// `c - 2` and `c - 1`.
///
/// Their middle, counted in pixels, is `c - 1`: the edge to within one
/// pixel. In a wider window less than a hundredth of the curve belongs to
/// the step, and the percentile no longer marks it.
pub proof fn lemma_step_edge_bounds(p: Pixels, by_x: bool, c: int, level: u16)
    requires
        p.wf(),
        is_step_edge(p, by_x, c, level),
        level > 0,
        profile_count(p, by_x) >= 1,
        profile_length(p, by_x) <= 100,
        2 <= c <= profile_length(p, by_x),
    ensures
        bounder_spec(median_curve(edge_profiles(p, by_x)), 99) == Ok::<
            (usize, usize),
            GeometryError,
        >(((c - 2) as usize, (c - 1) as usize)),
        ((c - 2) + (c - 1)) / 2 + 1 == c - 1,
{
    let n = profile_length(p, by_x);
    let curve = step_curve(n, c, level);
    let top = 2 * level as int;
    lemma_step_edge_curve(p, by_x, c, level);
    lemma_step_curve_ascending(n, c, level);
    let sorted = ascending(curve);
    let place = 99 * (n - 1);
    let lower = place / 100;
    let part = place % 100;
    assert(lower >= n - 2 && lower <= n - 1 && (part != 0 ==> lower == n - 2));
    assert(curve.len() == n);
    assert(sorted[n - 1] == top);
    assert(sorted[n - 2] == top);
    assert(sorted[lower] == top);
    if part != 0 {
        assert(sorted[lower + 1] == top);
        assert((sorted[lower + 1] - sorted[lower]) * part == 0) by (nonlinear_arith)
            requires
                sorted[lower + 1] - sorted[lower] == 0,
        ;
    }
    assert(percentile_hundredths(curve, 99) == 100 * top);
    let t = 100 * top;
    assert(curve[c - 2] == top);
    assert(curve[c - 1] == top);
    assert(reaches(curve[c - 2], 100, t));
    assert(reaches(curve[c - 1], 100, t));
    assert(is_first_reaching(curve, 0, n as int, 100, t, c - 2)) by {
        assert forall|j: int| 0 <= j < c - 2 implies !reaches(#[trigger] curve[j], 100, t) by {
            assert(curve[j] == 0);
        }
    }
    assert(is_last_reaching(curve, 0, n as int, 100, t, c - 1)) by {
        assert forall|j: int| c - 1 < j < n implies !reaches(#[trigger] curve[j], 100, t) by {
            assert(curve[j] == 0);
        }
    }
    assert(some_reaching(curve, 0, n as int, 100, t));
    lemma_first_reaching_unique(
        curve,
        0,
        n as int,
        100,
        t,
        c - 2,
        choose|i: int| is_first_reaching(curve, 0, n as int, 100, t, i),
    );
    lemma_last_reaching_unique(
        curve,
        0,
        n as int,
        100,
        t,
        c - 1,
        choose|i: int| is_last_reaching(curve, 0, n as int, 100, t, i),
    );
}

/// The step at `c` lies clear of the reference line at `a`: neither of
/// its two strengths falls on the blanked positions or on the level
/// copied into them.
pub open spec fn step_clear_of_line(c: int, a: int, hw: int) -> bool {
    c <= a - hw - 1 || c - 2 >= a + hw
}

/// The peak search finds a step edge: in the curve of a step at `c` that
/// lies clear of the reference line, with both searches starting at least
/// two positions from the peak, the edge is the pixel `c - 1`.
pub proof fn lemma_step_edge_in_curve(len: nat, c: int, level: u16, a: int, hw: int, far: int)
    requires
        level > 0,
        2 <= c <= len,
        blanking_fits(len as int, a, hw),
        step_clear_of_line(c, a, hw),
        far >= 2,
        searches_fit(len as int, c - 2, far),
    ensures
        edge_in_curve(step_curve(len, c, level), a, hw, far) == Ok::<usize, GeometryError>(
            (c - 1) as usize,
        ),
{
    let curve = step_curve(len, c, level);
    let s = blanked(curve, a, hw);
    let top = (2 * level) as u64;
    assert(curve[a - hw - 1] == 0);
    assert(s =~= curve);
    assert(is_first_max(s, c - 2)) by {
        assert(s[c - 2] == top);
        assert forall|j: int| 0 <= j < s.len() implies #[trigger] s[j] <= top by {}
        assert forall|j: int| 0 <= j < c - 2 implies #[trigger] s[j] < top by {}
    }
    lemma_first_max_unique(s, c - 2, first_max(s));
    let peak = first_max(s);
    assert(max_level(s) == top);
    let t = 7 * max_level(s);
    assert(!some_reaching(s, peak + far, s.len() as int, 10, t)) by {
        assert forall|i: int| peak + far <= i < s.len() implies !reaches(#[trigger] s[i], 10, t) by {
            assert(s[i] == 0);
        }
    }
    assert(!some_reaching(s, 1, peak - far + 2, 10, t)) by {
        assert forall|i: int| 1 <= i < peak - far + 2 implies !reaches(#[trigger] s[i], 10, t) by {
            assert(s[i] == 0);
        }
    }
    assert(edge_after_right(s, a, hw, peak, far) == Ok::<int, GeometryError>(peak + 1));
    assert(edge_after_left(s, a, hw, peak, far, peak + 1) == Ok::<int, GeometryError>(peak + 1));
}

/// Window `q` shows one clean step edge at the position `c` of the whole
/// grid, clear of the reference line of its side and far enough from the
/// ends of the window for both searches.
#[verifier::opaque]
pub open spec fn step_in_window(
    crop: Pixels,
    b: BoundingBox,
    q: int,
    reference: int,
    ypoints: Seq<i32>,
    c: int,
    level: u16,
) -> bool {
    let by_x = q <= 3;
    let origin = if by_x {
        b.left as int
    } else {
        b.top as int
    };
    let len = profile_length(crop, by_x) as int;
    &&& crop.wf()
    &&& profile_count(crop, by_x) >= 1
    &&& level > 0
    &&& is_step_edge(crop, by_x, c - origin, level)
    &&& 2 <= c - origin <= len
    &&& c - 1 <= i32::MAX
    &&& cm2pixel_spec(ypoints, HALF_LINE_WIDTH as int) matches Ok(hw)
    &&& cm2pixel_spec(ypoints, EDGE_DISTANCE as int) matches Ok(far)
    &&& far >= 2
    &&& blanking_fits(len, reference - origin, hw as int)
    &&& step_clear_of_line(c - origin, reference - origin, hw as int)
    &&& searches_fit(len, c - origin - 2, far as int)
}

/// A clean step edge in a window is found at the pixel before it: within
/// one pixel of the step.
pub proof fn lemma_step_edge_position(
    crop: Pixels,
    b: BoundingBox,
    q: int,
    reference: int,
    ypoints: Seq<i32>,
    c: int,
    level: u16,
)
    requires
        step_in_window(crop, b, q, reference, ypoints, c, level),
    ensures
        edge_position_spec(crop, b, q, reference, ypoints) == Ok::<i32, GeometryError>(
            (c - 1) as i32,
        ),
{
    reveal(step_in_window);
    let by_x = q <= 3;
    let origin = if by_x {
        b.left as int
    } else {
        b.top as int
    };
    let hw = cm2pixel_spec(ypoints, HALF_LINE_WIDTH as int).unwrap();
    let far = cm2pixel_spec(ypoints, EDGE_DISTANCE as int).unwrap();
    lemma_step_edge_curve(crop, by_x, c - origin, level);
    lemma_step_edge_in_curve(
        profile_length(crop, by_x),
        c - origin,
        level,
        reference - origin,
        hw as int,
        far as int,
    );
}

/// The positions just before the steps of the first `n` windows.
pub open spec fn before_steps(steps: Seq<int>, n: nat) -> Seq<i32> {
    Seq::new(n, |q: int| (steps[q] - 1) as i32)
}

/// Clean step edges in the first `n` windows are all found.
pub proof fn lemma_step_edges_first(
    crops: Seq<Pixels>,
    boxes: Seq<BoundingBox>,
    references: Seq<i32>,
    ypoints: Seq<i32>,
    steps: Seq<int>,
    level: u16,
    n: nat,
)
    requires
        n <= 8,
        crops.len() == 8,
        boxes.len() == 8,
        references.len() == 8,
        steps.len() == 8,
        forall|q: int|
            0 <= q < 8 ==> step_in_window(
                #[trigger] crops[q],
                boxes[q],
                q,
                references[q] as int,
                ypoints,
                steps[q],
                level,
            ),
    ensures
        edges_spec(crops, boxes, references, ypoints, n) == Ok::<Seq<i32>, GeometryError>(
            before_steps(steps, n),
        ),
    decreases n,
{
    if n == 0 {
        assert(before_steps(steps, 0) =~= Seq::<i32>::empty());
    } else {
        lemma_step_edges_first(crops, boxes, references, ypoints, steps, level, (n - 1) as nat);
        let q = n - 1;
        assert(step_in_window(crops[q], boxes[q], q, references[q] as int, ypoints, steps[q], level));
        lemma_step_edge_position(
            crops[q],
            boxes[q],
            q,
            references[q] as int,
            ypoints,
            steps[q],
            level,
        );
        assert(before_steps(steps, (n - 1) as nat).push((steps[q] - 1) as i32) =~= before_steps(
            steps,
            n,
        ));
    }
}

/// Where each of the eight windows shows one clean step edge, the edge
/// finder reports every step to within one pixel: the pixel just before
/// it.
pub proof fn lemma_step_edges_found(
    crops: Seq<Pixels>,
    boxes: Seq<BoundingBox>,
    references: Seq<i32>,
    ypoints: Seq<i32>,
    steps: Seq<int>,
    level: u16,
)
    requires
        crops.len() == 8,
        boxes.len() == 8,
        references.len() == 8,
        steps.len() == 8,
        forall|q: int|
            0 <= q < 8 ==> step_in_window(
                #[trigger] crops[q],
                boxes[q],
                q,
                references[q] as int,
                ypoints,
                steps[q],
                level,
            ),
    ensures
        find_edges_spec(crops, boxes, references, ypoints) == Ok::<Seq<i32>, GeometryError>(
            before_steps(steps, 8),
        ),
{
    lemma_step_edges_first(crops, boxes, references, ypoints, steps, level, 8);
}

} // verus!
