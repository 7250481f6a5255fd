//! Conversion between pixel counts and physical lengths.
//!
//! The centre and bottom reference lines of the test tool are 7 cm apart.
//! Lengths are integers in thousandths of a centimetre.
use vstd::prelude::*;
use crate::arith::{
    abs,
    div_round,
    is_nearest_sqrt,
    lemma_nearest_sqrt_unique,
    lemma_round_div_error,
    nearest_sqrt,
    round_div,
};
use crate::error::GeometryError;

verus! {

/// The largest reference spacing, in pixels, below which converting a pixel
/// count to a length and back is exact to one pixel.
pub const ROUND_TRIP_SPACING: i64 = 21000;

/// The largest pixel count, in size, that [`scale_pixels`] converts.
pub const PIXEL_LIMIT: i64 = 0x100_0000_0000;

/// The number of pixels between the centre and bottom reference lines.
pub open spec fn spacing(ypoints: Seq<i32>) -> int {
    ypoints[2] - ypoints[1]
}

/// The length, in thousandths of a centimetre, of `n` pixels where
/// `d` pixels make 7 cm: `7000 n / d`, rounded to the nearest integer.
pub open spec fn pixel_to_length(d: int, n: int) -> int {
    round_div(n * 7000, d)
}

/// The number of pixels in `len` thousandths of a centimetre where `d`
/// pixels make 7 cm: `d len / 7000`, rounded to the nearest integer.
pub open spec fn length_to_pixel(d: int, len: int) -> int {
    round_div(d * len, 7000)
}

/// `v` limited to the range of `i32`.
pub open spec fn clamp_i32(v: int) -> int {
    if v < i32::MIN {
        i32::MIN as int
    } else if v > i32::MAX {
        i32::MAX as int
    } else {
        v
    }
}

/// `v` limited to the range of `i64`.
pub open spec fn clamp_i64(v: int) -> int {
    if v < i64::MIN {
        i64::MIN as int
    } else if v > i64::MAX {
        i64::MAX as int
    } else {
        v
    }
}

/// What [`frame_spacing`] returns.
pub open spec fn frame_spacing_spec(ypoints: Seq<i32>) -> Result<i64, GeometryError> {
    if ypoints.len() < 3 {
        Err(GeometryError::IndexRange)
    } else if spacing(ypoints) == 0 {
        Err(GeometryError::Calibration)
    } else {
        Ok(spacing(ypoints) as i64)
    }
}

/// What [`pixel2cm`] returns.
pub open spec fn pixel2cm_spec(ypoints: Seq<i32>, number_pixels: int) -> Result<
    i64,
    GeometryError,
> {
    match frame_spacing_spec(ypoints) {
        Err(e) => Err(e),
        Ok(d) => Ok(pixel_to_length(d as int, number_pixels) as i64),
    }
}

/// What [`cm2pixel`] returns.
pub open spec fn cm2pixel_spec(ypoints: Seq<i32>, length: int) -> Result<i32, GeometryError> {
    match frame_spacing_spec(ypoints) {
        Err(e) => Err(e),
        Ok(d) => Ok(clamp_i32(length_to_pixel(d as int, length)) as i32),
    }
}

/// The integer nearest to the square root of `n`, for `n >= 0`.
pub open spec fn nearest_root(n: int) -> int {
    choose|r: int| is_nearest_sqrt(n, r)
}

/// The squared distance between two pixel positions.
pub open spec fn squared_distance(x1: int, y1: int, x2: int, y2: int) -> int {
    (x2 - x1) * (x2 - x1) + (y2 - y1) * (y2 - y1)
}

/// Every natural number has a nearest integer square root.
pub proof fn lemma_nearest_root_exists(n: nat)
    ensures
        is_nearest_sqrt(n as int, nearest_root(n as int)),
    decreases n,
{
    if n == 0 {
        assert(is_nearest_sqrt(0, 0));
    } else {
        lemma_nearest_root_exists((n - 1) as nat);
        let r = nearest_root(n - 1);
        let square = r * r;
        assert(is_nearest_sqrt(n - 1, r));
        if n - 1 == 0 && r == 0 {
            assert(is_nearest_sqrt(1, 1));
        } else {
            assert(0 <= r && square - r < n - 1 <= square + r);
            if n <= square + r {
                assert(is_nearest_sqrt(n as int, r));
            } else {
                let next = r + 1;
                assert(next * next == square + 2 * r + 1) by (nonlinear_arith)
                    requires
                        next == r + 1,
                        square == r * r,
                ;
                assert(0 <= next && next * next - next < n <= next * next + next);
                assert(is_nearest_sqrt(n as int, next));
            }
        }
    }
}

/// The nearest square root of a number grows with the number.
pub proof fn lemma_nearest_root_at_least(n: nat, k: nat)
    requires
        k * k <= n,
    ensures
        nearest_root(n as int) >= k,
{
    lemma_nearest_root_exists(n);
    let r = nearest_root(n as int);
    if r < k {
        assert(r * r + r < k * k) by (nonlinear_arith)
            requires
                0 <= r,
                r + 1 <= k,
        ;
    }
}

/// `v` limited to the range of `i32`.
pub fn clamp_to_i32(v: i128) -> (c: i32)
    ensures
        c == clamp_i32(v as int),
{
    if v < i32::MIN as i128 {
        i32::MIN
    } else if v > i32::MAX as i128 {
        i32::MAX
    } else {
        v as i32
    }
}

/// The pixel spacing that sets the scale.
///
/// A frame with fewer than three horizontal lines is an index-range error;
/// one whose centre and bottom lines coincide is a calibration error.
pub fn frame_spacing(ypoints: &Vec<i32>) -> (d: Result<i64, GeometryError>)
    ensures
        d == frame_spacing_spec(ypoints@),
{
    if ypoints.len() < 3 {
        return Err(GeometryError::IndexRange);
    }
    let d: i64 = ypoints[2] as i64 - ypoints[1] as i64;
    if d == 0 {
        Err(GeometryError::Calibration)
    } else {
        Ok(d)
    }
}

/// The length of `n` pixels, in thousandths of a centimetre, where `d`
/// pixels make 7 cm.
pub fn scale_pixels(d: i64, n: i64) -> (length: i64)
    requires
        d != 0,
        -PIXEL_LIMIT <= n <= PIXEL_LIMIT,
    ensures
        length == pixel_to_length(d as int, n as int),
        abs(length as int) <= abs(n as int) * 7000,
{
    let q = div_round(n as i128 * 7000, d as i128);
    proof {
        lemma_quotient_within(n as int * 7000, d as int);
    }
    q as i64
}

/// Converts a number of pixels to a length in thousandths of a centimetre.
pub fn pixel2cm(ypoints: &Vec<i32>, number_pixels: i32) -> (length: Result<i64, GeometryError>)
    ensures
        length == pixel2cm_spec(ypoints@, number_pixels as int),
{
    let d = frame_spacing(ypoints)?;
    Ok(scale_pixels(d, number_pixels as i64))
}

/// Converts a length in thousandths of a centimetre to a number of pixels,
/// limited to the range of `i32`.
pub fn cm2pixel(ypoints: &Vec<i32>, length: i64) -> (pixels: Result<i32, GeometryError>)
    ensures
        pixels == cm2pixel_spec(ypoints@, length as int),
{
    let d = frame_spacing(ypoints)?;
    assert(-0x8000_0000_0000_0000_0000_0000 <= (d as int) * (length as int)
        <= 0x8000_0000_0000_0000_0000_0000) by (nonlinear_arith)
        requires
            -0x1_0000_0000 <= d as int <= 0x1_0000_0000,
            -0x8000_0000_0000_0000 <= length as int <= 0x8000_0000_0000_0000,
    ;
    let q = div_round(d as i128 * length as i128, 7000);
    Ok(clamp_to_i32(q))
}

/// A rounded quotient is no larger in size than the dividend.
pub proof fn lemma_quotient_within(a: int, b: int)
    requires
        b != 0,
    ensures
        abs(round_div(a, b)) <= abs(a),
{
    lemma_round_div_error(a, b);
    let q = round_div(a, b);
    if abs(q) > abs(a) {
        assert(abs(q * b) >= abs(q)) by (nonlinear_arith)
            requires
                b != 0,
        ;
        assert(abs(q * b) == abs(q) * abs(b)) by (nonlinear_arith);
        assert(2 * (abs(q) * abs(b) - abs(a)) <= abs(b));
        assert(abs(q) * abs(b) >= (abs(a) + 1) * abs(b)) by (nonlinear_arith)
            requires
                abs(q) >= abs(a) + 1,
                abs(b) > 0,
        ;
        assert((abs(a) + 1) * abs(b) == abs(a) * abs(b) + abs(b)) by (nonlinear_arith);
        assert(abs(a) * abs(b) >= abs(a)) by (nonlinear_arith)
            requires
                abs(b) >= 1,
                abs(a) >= 0,
        ;
    }
}

/// Converting a length to pixels after converting pixels to that length
/// gives the pixels again, to within one: for a spacing `d` that is not
/// zero and below 21000 pixels in size, and any number `n`.
pub proof fn lemma_round_trip_exact(d: int, n: int)
    requires
        d != 0,
        abs(d) < ROUND_TRIP_SPACING,
    ensures
        abs(length_to_pixel(d, pixel_to_length(d, n)) - n) <= 1,
{
    let len = pixel_to_length(d, n);
    let back = length_to_pixel(d, len);
    lemma_round_div_error(n * 7000, d);
    lemma_round_div_error(d * len, 7000);
    assert(len * d == d * len) by (nonlinear_arith);
    assert(back * 7000 - n * 7000 == (back * 7000 - d * len) + (len * d - n * 7000));
}

/// Converting a pixel count to a length and back gives the count again,
/// to within one pixel, for every frame whose reference spacing is not
/// zero and is below 21000 pixels.
///
/// With a wider spacing one thousandth of a centimetre is more than a
/// pixel, and the round trip can lose more.
pub proof fn lemma_calibration_round_trip(ypoints: Seq<i32>, n: i32)
    requires
        ypoints.len() >= 3,
        spacing(ypoints) != 0,
        abs(spacing(ypoints)) < ROUND_TRIP_SPACING,
    ensures
        pixel2cm_spec(ypoints, n as int) matches Ok(length) && cm2pixel_spec(
            ypoints,
            length as int,
        ) matches Ok(pixels) && abs(pixels - n) <= 1,
{
    let d = spacing(ypoints);
    lemma_round_trip_exact(d, n as int);
    lemma_quotient_within(n * 7000, d);
}

/// The distance between two pixel positions, rounded to the nearest pixel
/// and limited to the range of `i32`.
pub fn distance_pixel(x1: usize, y1: usize, x2: usize, y2: usize) -> (d: i32)
    ensures
        d == clamp_i32(nearest_root(squared_distance(x1 as int, y1 as int, x2 as int, y2 as int))),
{
    let dx: u128 = if x1 <= x2 {
        (x2 - x1) as u128
    } else {
        (x1 - x2) as u128
    };
    let dy: u128 = if y1 <= y2 {
        (y2 - y1) as u128
    } else {
        (y1 - y2) as u128
    };
    let ghost n = squared_distance(x1 as int, y1 as int, x2 as int, y2 as int);
    proof {
        assert(n == dx * dx + dy * dy) by (nonlinear_arith)
            requires
                n == (x2 - x1) * (x2 - x1) + (y2 - y1) * (y2 - y1),
                dx == x2 - x1 || dx == x1 - x2,
                dy == y2 - y1 || dy == y1 - y2,
        ;
        assert(dx * dx >= 0 && dy * dy >= 0) by (nonlinear_arith);
    }
    if dx >= 0x8000_0000 || dy >= 0x8000_0000 {
        proof {
            assert(n >= 0x8000_0000 * 0x8000_0000) by (nonlinear_arith)
                requires
                    n == dx * dx + dy * dy,
                    dx >= 0x8000_0000 || dy >= 0x8000_0000,
                    dx >= 0,
                    dy >= 0,
            ;
            lemma_nearest_root_at_least(n as nat, 0x8000_0000);
        }
        return i32::MAX;
    }
    assert(dx * dx + dy * dy < 0x8000_0000_0000_0000) by (nonlinear_arith)
        requires
            0 <= dx < 0x8000_0000,
            0 <= dy < 0x8000_0000,
    ;
    let r = nearest_sqrt(dx * dx + dy * dy);
    proof {
        lemma_nearest_root_exists(n as nat);
        lemma_nearest_sqrt_unique(n, r as int, nearest_root(n));
    }
    if r > i32::MAX as u128 {
        i32::MAX
    } else {
        r as i32
    }
}

/// The angle that stands for a centre offset: twice the offset, limited to
/// the range of `i64`.
pub fn calculate_angle(distance: i64) -> (angle: i64)
    ensures
        angle == clamp_i64(2 * distance),
{
    if distance > i64::MAX / 2 {
        i64::MAX
    } else if distance < i64::MIN / 2 {
        i64::MIN
    } else {
        2 * distance
    }
}

} // verus!
