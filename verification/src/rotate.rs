//! Rotation of a grid about its centre, with bilinear resampling.
//!
//! A rotation is given by its direction cosines in fixed point: the cosine
//! and the sine of the angle, each multiplied by `ANGLE_SCALE`. A positive
//! sine turns the grid counter-clockwise.
use vstd::prelude::*;
use crate::arith::{floor_sqrt, is_floor_sqrt, lemma_div_bounds, lemma_div_unique};
use crate::error::GeometryError;
use crate::grid::{Pixels, U16Array};

verus! {

/// The fixed-point unit of a direction cosine.
pub const ANGLE_SCALE: i64 = 0x10_0000;

/// The fixed-point unit of a source position: twice that of a cosine,
/// because the centre of a grid may lie between two pixels.
pub const POSITION_SCALE: i64 = 0x20_0000;

/// A rotation, by the cosine and sine of its angle in units of
/// `1 / ANGLE_SCALE`.
#[derive(Clone, Copy, Debug, PartialEq, Eq, Structural)]
pub struct Rotation {
    /// The cosine of the angle.
    pub cos: i64,
    /// The sine of the angle.
    pub sin: i64,
}

impl Rotation {
    /// Neither cosine nor sine exceeds one in size.
    pub open spec fn wf(self) -> bool {
        &&& -ANGLE_SCALE <= self.cos <= ANGLE_SCALE
        &&& -ANGLE_SCALE <= self.sin <= ANGLE_SCALE
    }

    /// The rotation by no angle.
    pub open spec fn identity() -> Rotation {
        Rotation { cos: ANGLE_SCALE, sin: 0 }
    }
}

/// The size of `leg / hypotenuse` in units of `1 / ANGLE_SCALE`, rounded
/// down, where `hypotenuse` is the root of `leg^2 + other^2`: the `c` with
/// `c^2 (leg^2 + other^2) <= ANGLE_SCALE^2 leg^2 < (c + 1)^2 (leg^2 + other^2)`.
pub open spec fn is_direction_cosine(leg: int, other: int, c: int) -> bool {
    is_floor_sqrt(ANGLE_SCALE * ANGLE_SCALE * (leg * leg) / (leg * leg + other * other), c)
}

/// `rotation` turns the horizontal onto the line with the given rise over
/// the given run, for a run that is not zero: its angle is the arc tangent
/// of `rise / run`, so its cosine is not negative and its sine has the
/// sign of `rise / run`.
pub open spec fn is_rotation_of(rise: int, run: int, rotation: Rotation) -> bool {
    &&& rotation.cos >= 0
    &&& is_direction_cosine(run, rise, rotation.cos as int)
    &&& is_direction_cosine(
        rise,
        run,
        if rotation.sin >= 0 {
            rotation.sin as int
        } else {
            -rotation.sin
        },
    )
    &&& (rotation.sin > 0 ==> (rise > 0) == (run > 0))
    &&& (rotation.sin < 0 ==> (rise > 0) != (run > 0))
    &&& (rotation.sin == 0 || rise != 0)
}

/// The rotation that turns the horizontal onto the line with the given
/// rise over the given run.
pub open spec fn rotation_of(rise: int, run: int) -> Rotation {
    choose|rotation: Rotation| is_rotation_of(rise, run, rotation)
}

/// What [`find_theta`] returns.
pub open spec fn find_theta_spec(x1: int, x2: int, y1: int, y2: int) -> Result<
    Rotation,
    GeometryError,
> {
    if x1 == x2 {
        Err(GeometryError::DegenerateLines)
    } else {
        Ok(rotation_of(y2 - y1, x2 - x1))
    }
}

/// A line has at most one rotation.
pub proof fn lemma_rotation_unique(rise: int, run: int, a: Rotation, b: Rotation)
    requires
        is_rotation_of(rise, run, a),
        is_rotation_of(rise, run, b),
    ensures
        a == b,
{
    let s = ANGLE_SCALE as int;
    crate::arith::lemma_floor_sqrt_unique(
        s * s * (run * run) / (run * run + rise * rise),
        a.cos as int,
        b.cos as int,
    );
    let sa = if a.sin >= 0 {
        a.sin as int
    } else {
        -a.sin
    };
    let sb = if b.sin >= 0 {
        b.sin as int
    } else {
        -b.sin
    };
    crate::arith::lemma_floor_sqrt_unique(s * s * (rise * rise) / (rise * rise + run * run), sa, sb);
}

/// Of two roots of comparable squares the smaller one stays smaller under
/// cross multiplication: where `s^2 h <= k a^2` and `c^2 h >= k b^2`, with
/// `h > 0`, there `s b <= c a`.
pub proof fn lemma_root_order(s: int, c: int, a: int, b: int, h: int, k: int)
    requires
        0 <= s,
        0 <= c,
        0 <= a,
        0 <= b,
        0 < h,
        0 <= k,
        (s * s) * h <= k * (a * a),
        (c * c) * h >= k * (b * b),
    ensures
        s * b <= c * a,
{
    let x = s * b;
    let y = c * a;
    assert(0 <= x && 0 <= y) by (nonlinear_arith)
        requires
            x == s * b,
            y == c * a,
            0 <= s,
            0 <= c,
            0 <= a,
            0 <= b,
    ;
    if x > y {
        let a2 = a * a;
        let b2 = b * b;
        let s2 = s * s;
        let c2 = c * c;
        assert(x * x > y * y) by (nonlinear_arith)
            requires
                x > y,
                y >= 0,
        ;
        assert((x * x) * h > (y * y) * h) by (nonlinear_arith)
            requires
                x * x > y * y,
                h > 0,
        ;
        assert(x * x == s2 * b2) by (nonlinear_arith)
            requires
                x == s * b,
                s2 == s * s,
                b2 == b * b,
        ;
        assert(y * y == c2 * a2) by (nonlinear_arith)
            requires
                y == c * a,
                c2 == c * c,
                a2 == a * a,
        ;
        assert(b2 >= 0 && a2 >= 0) by (nonlinear_arith)
            requires
                b2 == b * b,
                a2 == a * a,
        ;
        let left = s2 * h;
        let right = c2 * h;
        assert((s2 * b2) * h == left * b2) by (nonlinear_arith)
            requires
                left == s2 * h,
        ;
        assert((c2 * a2) * h == right * a2) by (nonlinear_arith)
            requires
                right == c2 * h,
        ;
        let ka = k * a2;
        let kb = k * b2;
        assert(left * b2 <= ka * b2) by (nonlinear_arith)
            requires
                left <= ka,
                b2 >= 0,
        ;
        assert(right * a2 >= kb * a2) by (nonlinear_arith)
            requires
                right >= kb,
                a2 >= 0,
        ;
        assert(ka * b2 == kb * a2) by (nonlinear_arith)
            requires
                ka == k * a2,
                kb == k * b2,
        ;
        assert(false);
    }
}

/// The cosine and sine found for a line point along the line: with the
/// sizes of rise and run, `sin run` and `cos rise` differ by no more than
/// the run one way and the rise the other. The slope of the rotation is
/// the slope of the line to within one unit of the fixed point.
pub proof fn lemma_rotation_along_line(rise: int, run: int, rotation: Rotation)
    requires
        run != 0,
        is_rotation_of(rise, run, rotation),
    ensures
        ({
            let sin = if rotation.sin >= 0 {
                rotation.sin as int
            } else {
                -rotation.sin
            };
            let a = if rise >= 0 {
                rise
            } else {
                -rise
            };
            let b = if run >= 0 {
                run
            } else {
                -run
            };
            -b <= sin * b - rotation.cos * a <= a
        }),
{
    let sin = if rotation.sin >= 0 {
        rotation.sin as int
    } else {
        -rotation.sin
    };
    let cos = rotation.cos as int;
    let a = if rise >= 0 {
        rise
    } else {
        -rise
    };
    let b = if run >= 0 {
        run
    } else {
        -run
    };
    let k = ANGLE_SCALE as int * ANGLE_SCALE as int;
    let a2 = a * a;
    let b2 = b * b;
    assert(a2 == rise * rise && b2 == run * run) by (nonlinear_arith)
        requires
            a == rise || a == -rise,
            b == run || b == -run,
            a2 == a * a,
            b2 == b * b,
    ;
    assert(a2 >= 0 && b2 > 0) by (nonlinear_arith)
        requires
            a2 == a * a,
            b2 == b * b,
            b != 0,
    ;
    let h = a2 + b2;
    let qc = (k * b2) / h;
    let qs = (k * a2) / h;
    assert(run * run + rise * rise == h && rise * rise + run * run == h);
    assert(is_floor_sqrt(qc, cos));
    assert(is_floor_sqrt(qs, sin));
    lemma_div_bounds(k * b2, h);
    lemma_div_bounds(k * a2, h);
    let cos1 = cos + 1;
    let sin1 = sin + 1;
    assert((sin * sin) * h <= k * a2) by (nonlinear_arith)
        requires
            sin * sin <= qs,
            h * qs <= k * a2,
            h > 0,
    ;
    assert((cos * cos) * h <= k * b2) by (nonlinear_arith)
        requires
            cos * cos <= qc,
            h * qc <= k * b2,
            h > 0,
    ;
    assert((cos1 * cos1) * h >= k * b2) by (nonlinear_arith)
        requires
            cos1 * cos1 >= qc + 1,
            k * b2 < h * qc + h,
            h > 0,
    ;
    assert((sin1 * sin1) * h >= k * a2) by (nonlinear_arith)
        requires
            sin1 * sin1 >= qs + 1,
            k * a2 < h * qs + h,
            h > 0,
    ;
    assert(k >= 0) by (nonlinear_arith)
        requires
            k == ANGLE_SCALE * ANGLE_SCALE,
    ;
    lemma_root_order(sin, cos1, a, b, h, k);
    lemma_root_order(cos, sin1, b, a, h, k);
    assert(cos1 * a == cos * a + a) by (nonlinear_arith)
        requires
            cos1 == cos + 1,
    ;
    assert(sin1 * b == sin * b + b) by (nonlinear_arith)
        requires
            sin1 == sin + 1,
    ;
}

/// A level line needs no rotation.
pub proof fn lemma_level_line(run: int)
    requires
        run != 0,
    ensures
        rotation_of(0, run) == Rotation::identity(),
{
    let s = ANGLE_SCALE as int;
    assert(run * run > 0) by (nonlinear_arith)
        requires
            run != 0,
    ;
    assert(0int * 0int == 0);
    assert(s * s * (run * run) == (run * run) * (s * s)) by (nonlinear_arith);
    lemma_div_unique(s * s * (run * run), run * run + 0 * 0, s * s);
    assert(s * s * (0int * 0int) == 0) by (nonlinear_arith);
    lemma_div_unique(s * s * (0int * 0int), 0 * 0 + run * run, 0);
    assert(is_floor_sqrt(s * s, s)) by (nonlinear_arith)
        requires
            s == 0x10_0000,
    ;
    assert(is_floor_sqrt(0, 0));
    assert(is_rotation_of(0, run, Rotation::identity()));
    lemma_rotation_unique(0, run, Rotation::identity(), rotation_of(0, run));
}

/// The size of `leg / hypotenuse` in fixed point.
fn direction_cosine(leg: u64, other: u64) -> (c: i64)
    requires
        leg <= 0x1_0000_0000,
        other <= 0x1_0000_0000,
        leg + other > 0,
    ensures
        is_direction_cosine(leg as int, other as int, c as int),
        0 <= c <= ANGLE_SCALE,
        leg == 0 ==> c == 0,
        other == 0 ==> c == ANGLE_SCALE,
{
    assert(leg * leg <= 0x1_0000_0000 * 0x1_0000_0000) by (nonlinear_arith)
        requires
            0 <= leg <= 0x1_0000_0000,
    ;
    assert(other * other <= 0x1_0000_0000 * 0x1_0000_0000) by (nonlinear_arith)
        requires
            0 <= other <= 0x1_0000_0000,
    ;
    assert(leg * leg + other * other > 0) by (nonlinear_arith)
        requires
            leg + other > 0,
            leg >= 0,
            other >= 0,
    ;
    let leg2: u128 = (leg as u128) * (leg as u128);
    let hyp2: u128 = leg2 + (other as u128) * (other as u128);
    let scale2: u128 = 0x100_0000_0000;
    assert(ANGLE_SCALE * ANGLE_SCALE == 0x100_0000_0000) by (nonlinear_arith);
    assert(scale2 * leg2 <= 0x100_0000_0000 * 0x1_0000_0000_0000_0000) by (nonlinear_arith)
        requires
            scale2 == 0x100_0000_0000,
            0 <= leg2 <= 0x1_0000_0000_0000_0000,
    ;
    let q: u128 = scale2 * leg2 / hyp2;
    let c = floor_sqrt(q);
    proof {
        let qi = q as int;
        let ci = c as int;
        assert(ANGLE_SCALE * ANGLE_SCALE * (leg * leg) == scale2 * leg2) by (nonlinear_arith)
            requires
                ANGLE_SCALE * ANGLE_SCALE == scale2,
                leg2 == leg * leg,
        ;
        lemma_div_bounds((scale2 * leg2) as int, hyp2 as int);
        assert(hyp2 * q <= scale2 * hyp2) by (nonlinear_arith)
            requires
                hyp2 * q <= scale2 * leg2,
                leg2 <= hyp2,
                scale2 >= 0,
        ;
        assert(q <= scale2) by (nonlinear_arith)
            requires
                hyp2 * q <= scale2 * hyp2,
                hyp2 > 0,
        ;
        if ci > ANGLE_SCALE {
            assert(ci * ci > ANGLE_SCALE * ANGLE_SCALE) by (nonlinear_arith)
                requires
                    ci > ANGLE_SCALE,
                    ANGLE_SCALE > 0,
            ;
        }
        if leg == 0 {
            assert(scale2 * leg2 == 0) by (nonlinear_arith)
                requires
                    leg2 == 0,
            ;
            assert(q == 0) by (nonlinear_arith)
                requires
                    hyp2 * q <= 0,
                    hyp2 > 0,
                    q >= 0,
            ;
            if ci > 0 {
                assert(ci * ci > 0) by (nonlinear_arith)
                    requires
                        ci > 0,
                ;
            }
        }
        if other == 0 {
            assert(hyp2 * scale2 == scale2 * leg2) by (nonlinear_arith)
                requires
                    hyp2 == leg2,
            ;
            lemma_div_unique((scale2 * leg2) as int, hyp2 as int, scale2 as int);
            assert(q == 0x100_0000_0000);
            assert(is_floor_sqrt(qi, ANGLE_SCALE as int)) by (nonlinear_arith)
                requires
                    qi == 0x100_0000_0000,
                    ANGLE_SCALE == 0x10_0000,
            ;
            crate::arith::lemma_floor_sqrt_unique(qi, ci, ANGLE_SCALE as int);
        }
    }
    c as i64
}

/// The rotation that brings the line through `(x1, y1)` and `(x2, y2)`
/// back to the horizontal when the grid is turned by it.
///
/// Two positions in one column give no slope: a degenerate-lines error.
pub fn find_theta(x1: i32, x2: i32, y1: i32, y2: i32) -> (rotation: Result<Rotation, GeometryError>)
    ensures
        rotation == find_theta_spec(x1 as int, x2 as int, y1 as int, y2 as int),
        rotation matches Ok(r) ==> r.wf() && is_rotation_of(y2 - y1, x2 - x1, r),
{
    if x1 == x2 {
        return Err(GeometryError::DegenerateLines);
    }
    let rise: i64 = y2 as i64 - y1 as i64;
    let run: i64 = x2 as i64 - x1 as i64;
    let rise_size: u64 = if rise < 0 {
        (-rise) as u64
    } else {
        rise as u64
    };
    let run_size: u64 = if run < 0 {
        (-run) as u64
    } else {
        run as u64
    };
    let cos = direction_cosine(run_size, rise_size);
    let sin_size = direction_cosine(rise_size, run_size);
    let sin = if (rise > 0) == (run > 0) {
        sin_size
    } else {
        -sin_size
    };
    let r = Rotation { cos, sin };
    proof {
        assert(run_size * run_size == run * run) by (nonlinear_arith)
            requires
                run_size == run || run_size == -run,
        ;
        assert(rise_size * rise_size == rise * rise) by (nonlinear_arith)
            requires
                rise_size == rise || rise_size == -rise,
        ;
        assert(is_rotation_of(rise as int, run as int, r));
        lemma_rotation_unique(rise as int, run as int, r, rotation_of(rise as int, run as int));
    }
    Ok(r)
}

/// The column of the source position of the pixel `(i, j)` of an `h` by
/// `w` grid, in units of `1 / POSITION_SCALE`.
///
/// With `x = j - w / 2` and `y = i - h / 2`, it is
/// `x cos - y sin + w / 2`.
pub open spec fn source_x(rotation: Rotation, h: int, w: int, i: int, j: int) -> int {
    (2 * j - w) * rotation.cos - (2 * i - h) * rotation.sin + w * ANGLE_SCALE
}

/// The row of the source position of the pixel `(i, j)`, in units of
/// `1 / POSITION_SCALE`: `x sin + y cos + h / 2`.
pub open spec fn source_y(rotation: Rotation, h: int, w: int, i: int, j: int) -> int {
    (2 * j - w) * rotation.sin + (2 * i - h) * rotation.cos + h * ANGLE_SCALE
}

/// The value between four pixels at the fractions `fx` and `fy` (in units
/// of `1 / POSITION_SCALE`) of the way from the first to the second column
/// and row, rounded to the nearest integer, halves up.
pub open spec fn interpolate(v00: int, v10: int, v01: int, v11: int, fx: int, fy: int) -> int {
    ((POSITION_SCALE - fx) * (POSITION_SCALE - fy) * v00 + fx * (POSITION_SCALE - fy) * v10 + (
    POSITION_SCALE - fx) * fy * v01 + fx * fy * v11 + POSITION_SCALE * POSITION_SCALE / 2) / (
    POSITION_SCALE * POSITION_SCALE)
}

/// The four pixels around the source position lie in the grid.
pub open spec fn source_inside(p: Pixels, rotation: Rotation, i: int, j: int) -> bool {
    let nx = source_x(rotation, p.height() as int, p.width as int, i, j);
    let ny = source_y(rotation, p.height() as int, p.width as int, i, j);
    &&& 0 <= nx / POSITION_SCALE as int
    &&& nx / POSITION_SCALE as int + 1 < p.width
    &&& 0 <= ny / POSITION_SCALE as int
    &&& ny / POSITION_SCALE as int + 1 < p.height()
}

/// The pixel `(i, j)` of the rotated grid: interpolated between the four
/// pixels around its source position where these lie in the grid, and
/// `fill` elsewhere.
pub open spec fn rotated_pixel(p: Pixels, rotation: Rotation, fill: u16, i: int, j: int) -> u16 {
    let nx = source_x(rotation, p.height() as int, p.width as int, i, j);
    let ny = source_y(rotation, p.height() as int, p.width as int, i, j);
    let x0 = nx / POSITION_SCALE as int;
    let y0 = ny / POSITION_SCALE as int;
    if source_inside(p, rotation, i, j) {
        interpolate(
            p.at(y0, x0) as int,
            p.at(y0, x0 + 1) as int,
            p.at(y0 + 1, x0) as int,
            p.at(y0 + 1, x0 + 1) as int,
            nx % POSITION_SCALE as int,
            ny % POSITION_SCALE as int,
        ) as u16
    } else {
        fill
    }
}

/// `out` is `p` rotated: a grid of the same shape whose pixels are
/// interpolated from `p`, with the largest intensity of `p` wherever the
/// source position has no four pixels around it.
pub open spec fn is_rotated(p: Pixels, rotation: Rotation, out: Pixels) -> bool {
    &&& out.wf()
    &&& out.height() == p.height()
    &&& out.width == p.width
    &&& forall|i: int, j: int|
        p.contains(i, j) ==> #[trigger] out.at(i, j) == rotated_pixel(
            p,
            rotation,
            p.max_value(),
            i,
            j,
        )
}

/// The grid `p` rotated.
pub open spec fn rotated_grid(p: Pixels, rotation: Rotation) -> Pixels {
    Pixels {
        cells: Seq::new(
            p.height(),
            |i: int| Seq::new(p.width, |j: int| rotated_pixel(p, rotation, p.max_value(), i, j)),
        ),
        width: p.width,
    }
}

/// A grid has one rotated grid.
pub proof fn lemma_rotated_grid(p: Pixels, rotation: Rotation, out: Pixels)
    requires
        is_rotated(p, rotation, out),
    ensures
        out == rotated_grid(p, rotation),
        is_rotated(p, rotation, rotated_grid(p, rotation)),
{
    let r = rotated_grid(p, rotation);
    assert(r.wf());
    out.lemma_equal(r);
}

/// The interpolated value lies between the four pixels, so it is an
/// intensity.
pub proof fn lemma_interpolate_range(v00: int, v10: int, v01: int, v11: int, fx: int, fy: int)
    requires
        0 <= v00 <= u16::MAX,
        0 <= v10 <= u16::MAX,
        0 <= v01 <= u16::MAX,
        0 <= v11 <= u16::MAX,
        0 <= fx < POSITION_SCALE,
        0 <= fy < POSITION_SCALE,
    ensures
        0 <= interpolate(v00, v10, v01, v11, fx, fy) <= u16::MAX,
        0 <= (POSITION_SCALE - fx) * (POSITION_SCALE - fy) * v00 <= 0x400_0000_0000 * 0xffff,
        0 <= fx * (POSITION_SCALE - fy) * v10 <= 0x400_0000_0000 * 0xffff,
        0 <= (POSITION_SCALE - fx) * fy * v01 <= 0x400_0000_0000 * 0xffff,
        0 <= fx * fy * v11 <= 0x400_0000_0000 * 0xffff,
        0 <= (POSITION_SCALE - fx) * (POSITION_SCALE - fy) <= 0x400_0000_0000,
        0 <= fx * (POSITION_SCALE - fy) <= 0x400_0000_0000,
        0 <= (POSITION_SCALE - fx) * fy <= 0x400_0000_0000,
        0 <= fx * fy <= 0x400_0000_0000,
{
    let d = POSITION_SCALE as int;
    let w00 = (d - fx) * (d - fy);
    let w10 = fx * (d - fy);
    let w01 = (d - fx) * fy;
    let w11 = fx * fy;
    assert(d * d == 0x400_0000_0000) by (nonlinear_arith)
        requires
            d == 0x20_0000,
    ;
    assert(w00 >= 0 && w10 >= 0 && w01 >= 0 && w11 >= 0 && w00 + w10 + w01 + w11 == d * d)
        by (nonlinear_arith)
        requires
            0 <= fx < d,
            0 <= fy < d,
            w00 == (d - fx) * (d - fy),
            w10 == fx * (d - fy),
            w01 == (d - fx) * fy,
            w11 == fx * fy,
    ;
    assert(0 <= w00 * v00 <= w00 * 0xffff) by (nonlinear_arith)
        requires
            0 <= w00,
            0 <= v00 <= 0xffff,
    ;
    assert(0 <= w10 * v10 <= w10 * 0xffff) by (nonlinear_arith)
        requires
            0 <= w10,
            0 <= v10 <= 0xffff,
    ;
    assert(0 <= w01 * v01 <= w01 * 0xffff) by (nonlinear_arith)
        requires
            0 <= w01,
            0 <= v01 <= 0xffff,
    ;
    assert(0 <= w11 * v11 <= w11 * 0xffff) by (nonlinear_arith)
        requires
            0 <= w11,
            0 <= v11 <= 0xffff,
    ;
    let total = w00 * v00 + w10 * v10 + w01 * v01 + w11 * v11 + d * d / 2;
    assert(total <= (d * d) * 0xffff + d * d / 2);
    lemma_div_bounds(total, d * d);
    assert(total / (d * d) <= 0xffff) by (nonlinear_arith)
        requires
            (d * d) * (total / (d * d)) <= total,
            total < (d * d) * 0xffff + d * d,
            d * d > 0,
    ;
    assert(total / (d * d) >= 0) by (nonlinear_arith)
        requires
            total < (d * d) * (total / (d * d)) + d * d,
            total >= 0,
            d * d > 0,
    ;
}

/// Turning by no angle leaves a pixel as it is where it has a right and a
/// lower neighbour, and gives the fill value on the last row and column.
pub proof fn lemma_identity_pixel(p: Pixels, fill: u16, i: int, j: int)
    requires
        p.contains(i, j),
    ensures
        rotated_pixel(p, Rotation::identity(), fill, i, j) == if i + 1 < p.height() && j + 1
            < p.width {
            p.at(i, j)
        } else {
            fill
        },
{
    let rotation = Rotation::identity();
    let h = p.height() as int;
    let w = p.width as int;
    let d = POSITION_SCALE as int;
    let nx = source_x(rotation, h, w, i, j);
    let ny = source_y(rotation, h, w, i, j);
    assert(nx == j * d) by (nonlinear_arith)
        requires
            nx == (2 * j - w) * 0x10_0000 - (2 * i - h) * 0 + w * 0x10_0000,
            d == 0x20_0000,
    ;
    assert(ny == i * d) by (nonlinear_arith)
        requires
            ny == (2 * j - w) * 0 + (2 * i - h) * 0x10_0000 + h * 0x10_0000,
            d == 0x20_0000,
    ;
    assert(d * j == j * d && d * i == i * d) by (nonlinear_arith);
    lemma_div_unique(nx, d, j);
    lemma_div_unique(ny, d, i);
    vstd::arithmetic::div_mod::lemma_fundamental_div_mod(nx, d);
    vstd::arithmetic::div_mod::lemma_fundamental_div_mod(ny, d);
    assert(nx % d == 0);
    assert(ny % d == 0);
    if i + 1 < h && j + 1 < w {
        let v = p.at(i, j) as int;
        let a = p.at(i, j + 1) as int;
        let b = p.at(i + 1, j) as int;
        let c = p.at(i + 1, j + 1) as int;
        assert((d - 0) * (d - 0) * v + 0 * (d - 0) * a + (d - 0) * 0 * b + 0 * 0 * c + d * d / 2
            == (d * d) * v + d * d / 2) by (nonlinear_arith);
        assert(d * d == 0x400_0000_0000) by (nonlinear_arith)
            requires
                d == 0x20_0000,
        ;
        lemma_div_unique((d * d) * v + d * d / 2, d * d, v);
        assert(interpolate(v, a, b, c, 0, 0) == v);
    }
}

/// Turning a grid by no angle returns the grid unchanged, provided its
/// last row and last column hold its largest intensity throughout.
///
/// A pixel of the last row or column has no neighbour to interpolate
/// with, so it takes the fill value, the largest intensity of the grid.
pub proof fn lemma_rotation_identity(p: Pixels)
    requires
        p.wf(),
        forall|i: int, j: int|
            p.contains(i, j) && (i + 1 == p.height() || j + 1 == p.width) ==> #[trigger] p.at(i, j)
                == p.max_value(),
    ensures
        rotated_grid(p, Rotation::identity()) == p,
{
    let out = rotated_grid(p, Rotation::identity());
    assert(out.wf());
    assert forall|i: int, j: int| p.contains(i, j) implies #[trigger] out.at(i, j) == p.at(
        i,
        j,
    ) by {
        lemma_identity_pixel(p, p.max_value(), i, j);
    }
    out.lemma_equal(p);
}

/// The pixel `(i, j)` of the rotated grid.
fn rotate_pixel(array: &U16Array, rotation: Rotation, fill: u16, i: usize, j: usize) -> (v: u16)
    requires
        rotation.wf(),
        array@.contains(i as int, j as int),
    ensures
        v == rotated_pixel(array@, rotation, fill, i as int, j as int),
{
    let h = array.nrows() as i128;
    let w = array.ncols() as i128;
    let d: i128 = 0x20_0000;
    let x2: i128 = 2 * (j as i128) - w;
    let y2: i128 = 2 * (i as i128) - h;
    let cos = rotation.cos as i128;
    let sin = rotation.sin as i128;
    proof {
        crate::solver::lemma_product_bound(
            x2 as int,
            cos as int,
            0x8000_0000_0000_0000,
            ANGLE_SCALE as int,
        );
        crate::solver::lemma_product_bound(
            y2 as int,
            sin as int,
            0x8000_0000_0000_0000,
            ANGLE_SCALE as int,
        );
        crate::solver::lemma_product_bound(
            x2 as int,
            sin as int,
            0x8000_0000_0000_0000,
            ANGLE_SCALE as int,
        );
        crate::solver::lemma_product_bound(
            y2 as int,
            cos as int,
            0x8000_0000_0000_0000,
            ANGLE_SCALE as int,
        );
        assert(0x8000_0000_0000_0000 * ANGLE_SCALE == 0x8_0000_0000_0000_0000_0000) by (nonlinear_arith);
    }
    let nx: i128 = x2 * cos - y2 * sin + w * 0x10_0000;
    let ny: i128 = x2 * sin + y2 * cos + h * 0x10_0000;
    proof {
        lemma_div_bounds(nx as int, d as int);
        lemma_div_bounds(ny as int, d as int);
    }
    if nx < 0 || ny < 0 {
        proof {
            if nx < 0 {
                assert(nx as int / (d as int) < 0) by (nonlinear_arith)
                    requires
                        d * (nx as int / (d as int)) <= nx,
                        nx < 0,
                        d > 0,
                ;
            } else {
                assert(ny as int / (d as int) < 0) by (nonlinear_arith)
                    requires
                        d * (ny as int / (d as int)) <= ny,
                        ny < 0,
                        d > 0,
                ;
            }
        }
        return fill;
    }
    let x0: i128 = nx / d;
    let y0: i128 = ny / d;
    if x0 + 1 < w && y0 + 1 < h {
        let fx: i128 = nx % d;
        let fy: i128 = ny % d;
        let v00 = array.at(y0 as usize, x0 as usize) as i128;
        let v10 = array.at(y0 as usize, (x0 + 1) as usize) as i128;
        let v01 = array.at((y0 + 1) as usize, x0 as usize) as i128;
        let v11 = array.at((y0 + 1) as usize, (x0 + 1) as usize) as i128;
        proof {
            lemma_interpolate_range(
                v00 as int,
                v10 as int,
                v01 as int,
                v11 as int,
                fx as int,
                fy as int,
            );
            assert(POSITION_SCALE * POSITION_SCALE == 0x400_0000_0000) by (nonlinear_arith);
        }
        let total: i128 = (d - fx) * (d - fy) * v00 + fx * (d - fy) * v10 + (d - fx) * fy * v01 + fx
            * fy * v11 + 0x200_0000_0000;
        (total / 0x400_0000_0000) as u16
    } else {
        fill
    }
}

/// Rotates the grid about its centre, counter-clockwise for a positive
/// sine, into a grid of the same shape.
///
/// Each pixel is interpolated between the four pixels around its source
/// position. Where these do not all lie in the grid the pixel takes the
/// largest intensity of the grid. A grid without pixels is an index-range
/// error.
pub fn rotate_array(rotation: Rotation, array: &U16Array) -> (rotated: Result<U16Array, GeometryError>)
    requires
        rotation.wf(),
    ensures
        array@.is_empty() ==> rotated matches Err(GeometryError::IndexRange),
        !array@.is_empty() ==> rotated.is_ok(),
        rotated matches Ok(out) ==> is_rotated(array@, rotation, out@) && out@ == rotated_grid(
            array@,
            rotation,
        ),
{
    let h = array.nrows();
    let w = array.ncols();
    let fill = match array.max() {
        Some(m) => m,
        None => {
            return Err(GeometryError::IndexRange);
        },
    };
    let mut out = match U16Array::filled(h, w, fill) {
        Some(g) => g,
        None => {
            return Err(GeometryError::IndexRange);
        },
    };
    let mut i: usize = 0;
    while i < h
        invariant
            i <= h,
            rotation.wf(),
            h == array@.height(),
            w == array@.width,
            fill == array@.max_value(),
            out@.wf(),
            out@.height() == h,
            out@.width == w,
            forall|r: int, c: int|
                0 <= r < i && 0 <= c < w ==> #[trigger] out@.at(r, c) == rotated_pixel(
                    array@,
                    rotation,
                    fill,
                    r,
                    c,
                ),
        decreases h - i,
    {
        let mut j: usize = 0;
        while j < w
            invariant
                i < h,
                j <= w,
                rotation.wf(),
                h == array@.height(),
                w == array@.width,
                fill == array@.max_value(),
                out@.wf(),
                out@.height() == h,
                out@.width == w,
                forall|r: int, c: int|
                    0 <= r < i && 0 <= c < w ==> #[trigger] out@.at(r, c) == rotated_pixel(
                        array@,
                        rotation,
                        fill,
                        r,
                        c,
                    ),
                forall|c: int|
                    0 <= c < j ==> #[trigger] out@.at(i as int, c) == rotated_pixel(
                        array@,
                        rotation,
                        fill,
                        i as int,
                        c,
                    ),
            decreases w - j,
        {
            let v = rotate_pixel(array, rotation, fill, i, j);
            out.set(i, j, v);
            j = j + 1;
        }
        i = i + 1;
    }
    proof {
        lemma_rotated_grid(array@, rotation, out@);
    }
    Ok(out)
}

} // verus!
