//! The printed reference lines of the test tool.
//!
//! A reference line is bright. In a strip across the line, the brightest
//! pixel of each column (or row) votes for a position; the position with
//! the most votes is where the line crosses the strip, and a line is
//! reported at the mean of two strips.
use vstd::prelude::*;
use crate::arith::trunc_div;
use crate::error::GeometryError;
use crate::grid::{Pixels, U16Array};
use crate::levels::{
    argmax_vec,
    first_max,
    first_min,
    is_first_max,
    is_first_min,
    lemma_first_max_unique,
    lemma_first_min_unique,
};
use crate::rotate::{find_theta, find_theta_spec, Rotation};

verus! {

/// The pixels of column `i` (for axis 0) or of row `i` (for another axis),
/// as levels.
pub open spec fn line_levels(p: Pixels, axis: u8, i: int) -> Seq<u64> {
    if axis == 0 {
        Seq::new(p.height(), |r: int| p.at(r, i) as u64)
    } else {
        Seq::new(p.width, |c: int| p.at(i, c) as u64)
    }
}

/// The number of lines along an axis: the columns for axis 0, the rows
/// for another axis.
pub open spec fn line_count(p: Pixels, axis: u8) -> nat {
    if axis == 0 {
        p.width
    } else {
        p.height()
    }
}

/// What [`argmax`] returns: for axis 0 the row of the first largest pixel
/// of each column, for axis 1 the column of the first largest pixel of
/// each row, and nothing for another axis.
pub open spec fn argmax_spec(p: Pixels, axis: u8) -> Seq<usize> {
    if axis == 0 || axis == 1 {
        Seq::new(line_count(p, axis), |i: int| first_max(line_levels(p, axis, i)) as usize)
    } else {
        Seq::empty()
    }
}

/// What [`argmin`] returns: for axis 0 the row of the first smallest pixel
/// of each column, for another axis the column of the first smallest pixel
/// of each row.
pub open spec fn argmin_spec(p: Pixels, axis: u8) -> Seq<usize> {
    Seq::new(line_count(p, axis), |i: int| first_min(line_levels(p, axis, i)) as usize)
}

/// How often `v` occurs in `s`.
pub open spec fn count_of(s: Seq<usize>, v: usize) -> nat
    decreases s.len(),
{
    if s.len() == 0 {
        0
    } else {
        count_of(s.drop_last(), v) + if s.last() == v {
            1nat
        } else {
            0nat
        }
    }
}

/// `m` occurs in `s` at least as often as any value, and more often than
/// any smaller value.
pub open spec fn is_most_common(s: Seq<usize>, m: usize) -> bool {
    &&& forall|v: usize| count_of(s, v) <= count_of(s, m)
    &&& forall|v: usize| v < m ==> count_of(s, v) < count_of(s, m)
}

/// The value that occurs most often in `s`; among several, the smallest.
pub open spec fn most_common(s: Seq<usize>) -> usize {
    choose|m: usize| is_most_common(s, m)
}

/// What [`find_common_value`] returns.
pub open spec fn common_value_spec(p: Pixels, axis: u8) -> Result<i32, GeometryError> {
    if argmax_spec(p, axis).len() == 0 || most_common(argmax_spec(p, axis)) > i32::MAX {
        Err(GeometryError::IndexRange)
    } else {
        Ok(most_common(argmax_spec(p, axis)) as i32)
    }
}

/// A sequence has at most one most common value.
pub proof fn lemma_most_common_unique(s: Seq<usize>, a: usize, b: usize)
    requires
        is_most_common(s, a),
        is_most_common(s, b),
    ensures
        a == b,
{
    if a < b {
        assert(count_of(s, a) < count_of(s, b));
        assert(count_of(s, b) <= count_of(s, a));
    } else if b < a {
        assert(count_of(s, b) < count_of(s, a));
        assert(count_of(s, a) <= count_of(s, b));
    }
}

/// Two different values occur together no more often than the sequence is
/// long.
pub proof fn lemma_counts_disjoint(s: Seq<usize>, a: usize, b: usize)
    requires
        a != b,
    ensures
        count_of(s, a) + count_of(s, b) <= s.len(),
    decreases s.len(),
{
    if s.len() > 0 {
        lemma_counts_disjoint(s.drop_last(), a, b);
    }
}

/// A value that occurs nowhere has count zero, and a count is at most the
/// length.
pub proof fn lemma_count_bounds(s: Seq<usize>, v: usize)
    ensures
        count_of(s, v) <= s.len(),
        (forall|i: int| 0 <= i < s.len() ==> s[i] != v) ==> count_of(s, v) == 0,
    decreases s.len(),
{
    if s.len() > 0 {
        lemma_count_bounds(s.drop_last(), v);
        if forall|i: int| 0 <= i < s.len() ==> s[i] != v {
            assert forall|i: int| 0 <= i < s.drop_last().len() implies s.drop_last()[i] != v by {
                assert(s.drop_last()[i] == s[i]);
            }
            assert(s.last() == s[s.len() - 1]);
        }
    }
}

/// A position that more than half of the lines vote for wins the vote.
///
/// So where at least 60 % of the columns of a strip are brightest in row
/// `r`, the strip's position is `r`.
pub proof fn lemma_majority_wins(s: Seq<usize>, r: usize)
    requires
        2 * count_of(s, r) > s.len(),
    ensures
        most_common(s) == r,
{
    assert forall|v: usize| count_of(s, v) <= count_of(s, r) by {
        if v != r {
            lemma_counts_disjoint(s, v, r);
        }
    }
    assert forall|v: usize| v < r implies count_of(s, v) < count_of(s, r) by {
        lemma_counts_disjoint(s, v, r);
    }
    assert(is_most_common(s, r));
    lemma_most_common_unique(s, r, most_common(s));
}

/// Where more than half of the columns (axis 0) or rows (axis 1) of a
/// grid have their brightest pixel at position `r`, the vote of the grid
/// is `r`.
pub proof fn lemma_majority_decides(p: Pixels, axis: u8, r: usize)
    requires
        2 * count_of(argmax_spec(p, axis), r) > argmax_spec(p, axis).len(),
        r <= i32::MAX,
    ensures
        common_value_spec(p, axis) == Ok::<i32, GeometryError>(r as i32),
{
    lemma_majority_wins(argmax_spec(p, axis), r);
    lemma_count_bounds(argmax_spec(p, axis), r);
}

/// The position of the first largest pixel of column `i` (axis 0) or row
/// `i` (another axis).
fn line_argmax(arr: &U16Array, axis: u8, i: usize) -> (at: usize)
    requires
        i < line_count(arr@, axis),
    ensures
        at == first_max(line_levels(arr@, axis, i as int)),
        at < line_levels(arr@, axis, i as int).len() || at == 0,
{
    let n = if axis == 0 {
        arr.nrows()
    } else {
        arr.ncols()
    };
    let ghost levels = line_levels(arr@, axis, i as int);
    if n == 0 {
        return 0;
    }
    let mut best: usize = 0;
    let mut best_value: u16 = if axis == 0 {
        arr.at(0, i)
    } else {
        arr.at(i, 0)
    };
    let mut k: usize = 1;
    while k < n
        invariant
            1 <= k <= n,
            n == levels.len(),
            levels == line_levels(arr@, axis, i as int),
            i < line_count(arr@, axis),
            best < k,
            best_value == levels[best as int],
            forall|j: int| 0 <= j < k ==> levels[j] <= levels[best as int],
            forall|j: int| 0 <= j < best ==> levels[j] < levels[best as int],
        decreases n - k,
    {
        let value = if axis == 0 {
            arr.at(k, i)
        } else {
            arr.at(i, k)
        };
        assert(value == levels[k as int]);
        if value > best_value {
            best = k;
            best_value = value;
        }
        k = k + 1;
    }
    proof {
        assert(is_first_max(levels, best as int));
        lemma_first_max_unique(levels, best as int, first_max(levels));
    }
    best
}

/// The position of the first smallest pixel of column `i` (axis 0) or row
/// `i` (another axis).
fn line_argmin(arr: &U16Array, axis: u8, i: usize) -> (at: usize)
    requires
        i < line_count(arr@, axis),
    ensures
        at == first_min(line_levels(arr@, axis, i as int)),
{
    let n = if axis == 0 {
        arr.nrows()
    } else {
        arr.ncols()
    };
    let ghost levels = line_levels(arr@, axis, i as int);
    if n == 0 {
        return 0;
    }
    let mut best: usize = 0;
    let mut best_value: u16 = if axis == 0 {
        arr.at(0, i)
    } else {
        arr.at(i, 0)
    };
    let mut k: usize = 1;
    while k < n
        invariant
            1 <= k <= n,
            n == levels.len(),
            levels == line_levels(arr@, axis, i as int),
            i < line_count(arr@, axis),
            best < k,
            best_value == levels[best as int],
            forall|j: int| 0 <= j < k ==> levels[j] >= levels[best as int],
            forall|j: int| 0 <= j < best ==> levels[j] > levels[best as int],
        decreases n - k,
    {
        let value = if axis == 0 {
            arr.at(k, i)
        } else {
            arr.at(i, k)
        };
        assert(value == levels[k as int]);
        if value < best_value {
            best = k;
            best_value = value;
        }
        k = k + 1;
    }
    proof {
        assert(is_first_min(levels, best as int));
        lemma_first_min_unique(levels, best as int, first_min(levels));
    }
    best
}

/// The position of the brightest pixel of each column (axis 0) or of each
/// row (axis 1); the first where several are as bright.
pub fn argmax(arr: &U16Array, axis: u8) -> (positions: Vec<usize>)
    ensures
        positions@ == argmax_spec(arr@, axis),
        forall|k: int|
            0 <= k < positions@.len() ==> #[trigger] positions@[k] == 0 || positions@[k]
                < line_count(arr@, if axis == 0 {
                    1u8
                } else {
                    0u8
                }),
{
    let mut positions: Vec<usize> = Vec::new();
    if axis != 0 && axis != 1 {
        proof {
            assert(positions@ =~= argmax_spec(arr@, axis));
        }
        return positions;
    }
    let n = if axis == 0 {
        arr.ncols()
    } else {
        arr.nrows()
    };
    let mut i: usize = 0;
    while i < n
        invariant
            i <= n,
            n == line_count(arr@, axis),
            axis == 0 || axis == 1,
            positions@.len() == i,
            forall|k: int|
                0 <= k < i ==> positions@[k] == first_max(line_levels(arr@, axis, k)) as usize,
            forall|k: int|
                0 <= k < i ==> #[trigger] positions@[k] == 0 || positions@[k] < line_count(
                    arr@,
                    if axis == 0 {
                        1u8
                    } else {
                        0u8
                    },
                ),
        decreases n - i,
    {
        positions.push(line_argmax(arr, axis, i));
        i = i + 1;
    }
    proof {
        assert(positions@ =~= argmax_spec(arr@, axis));
    }
    positions
}

/// The position of the darkest pixel of each column (axis 0) or of each
/// row (another axis); the first where several are as dark.
pub fn argmin(arr: &U16Array, axis: u8) -> (positions: Vec<usize>)
    ensures
        positions@ == argmin_spec(arr@, axis),
{
    let mut positions: Vec<usize> = Vec::new();
    let n = if axis == 0 {
        arr.ncols()
    } else {
        arr.nrows()
    };
    let mut i: usize = 0;
    while i < n
        invariant
            i <= n,
            n == line_count(arr@, axis),
            positions@.len() == i,
            forall|k: int|
                0 <= k < i ==> positions@[k] == first_min(line_levels(arr@, axis, k)) as usize,
        decreases n - i,
    {
        positions.push(line_argmin(arr, axis, i));
        i = i + 1;
    }
    proof {
        assert(positions@ =~= argmin_spec(arr@, axis));
    }
    positions
}

/// The value that occurs most often among `values`, with the number of
/// its occurrences; among several values, the smallest. `None` for no
/// values.
///
/// The votes are counted in a table with one entry for each value below
/// `bound`.
pub fn majority_vote(values: &Vec<usize>, bound: usize) -> (winner: Option<(usize, usize)>)
    requires
        forall|i: int| 0 <= i < values@.len() ==> #[trigger] values@[i] < bound,
    ensures
        winner.is_none() <==> values@.len() == 0,
        winner matches Some(w) ==> w.0 == most_common(values@) && is_most_common(values@, w.0)
            && w.1 == count_of(values@, w.0) && w.0 < bound,
{
    let n = values.len();
    if n == 0 {
        return None;
    }
    let mut counts: Vec<u64> = Vec::new();
    let mut v: usize = 0;
    while v < bound
        invariant
            v <= bound,
            counts@.len() == v,
            forall|k: int| 0 <= k < v ==> counts@[k] == 0,
        decreases bound - v,
    {
        counts.push(0);
        v = v + 1;
    }
    let mut i: usize = 0;
    proof {
        assert(values@.take(0) =~= Seq::<usize>::empty());
    }
    while i < n
        invariant
            i <= n == values@.len(),
            counts@.len() == bound,
            forall|k: int| 0 <= k < values@.len() ==> #[trigger] values@[k] < bound,
            forall|k: int|
                0 <= k < bound ==> #[trigger] counts@[k] == count_of(
                    values@.take(i as int),
                    k as usize,
                ),
        decreases n - i,
    {
        let at = values[i];
        proof {
            lemma_count_bounds(values@.take(i as int), at);
            assert(values@.take(i + 1).drop_last() =~= values@.take(i as int));
            assert(values@.take(i + 1).last() == values@[i as int]);
        }
        let ghost before = counts@;
        counts.set(at, counts[at] + 1);
        proof {
            assert forall|k: int| 0 <= k < bound implies #[trigger] counts@[k] == count_of(
                values@.take(i + 1),
                k as usize,
            ) by {
                assert(before[k] == count_of(values@.take(i as int), k as usize));
            }
        }
        i = i + 1;
    }
    proof {
        assert(values@.take(n as int) =~= values@);
    }
    let (best, votes) = argmax_vec(&counts);
    proof {
        assert(values@[0] < bound);
        assert forall|x: usize| count_of(values@, x) <= count_of(values@, best) by {
            if x < bound {
                assert(counts@[x as int] <= counts@[best as int]);
            } else {
                lemma_count_bounds(values@, x);
            }
        }
        assert forall|x: usize| x < best implies count_of(values@, x) < count_of(values@, best) by {
            assert(counts@[x as int] < counts@[best as int]);
        }
        assert(is_most_common(values@, best));
        lemma_most_common_unique(values@, best, most_common(values@));
        lemma_count_bounds(values@, best);
    }
    Some((best, votes as usize))
}

/// The position that most columns (axis 0) or rows (axis 1) of the grid
/// vote for with their brightest pixel; among several positions with as
/// many votes, the smallest.
///
/// A grid without lines to vote, another axis, and a position beyond the
/// range of `i32` are index-range errors.
pub fn find_common_value(arr: &U16Array, axis: u8) -> (position: Result<i32, GeometryError>)
    ensures
        position == common_value_spec(arr@, axis),
        position matches Ok(v) ==> 0 <= v && (v == 0 || v < line_count(
            arr@,
            if axis == 0 {
                1u8
            } else {
                0u8
            },
        )),
{
    let values = argmax(arr, axis);
    let extent = if axis == 0 {
        arr.nrows()
    } else {
        arr.ncols()
    };
    let bound = if extent == 0 {
        1
    } else {
        extent
    };
    match majority_vote(&values, bound) {
        Some((at, _)) => {
            if at > i32::MAX as usize {
                Err(GeometryError::IndexRange)
            } else {
                Ok(at as i32)
            }
        },
        None => Err(GeometryError::IndexRange),
    }
}

/// A strip of the grid: the rows `r0..r1` of the columns `c0..c1`.
#[derive(Clone, Copy, Debug, PartialEq, Eq, Structural)]
pub struct Strip {
    /// The first row.
    pub r0: i64,
    /// The row after the last.
    pub r1: i64,
    /// The first column.
    pub c0: i64,
    /// The column after the last.
    pub c1: i64,
}

/// The position in the grid that the lines of a strip vote for: the row
/// for axis 0, the column for axis 1.
///
/// A strip that does not lie in the grid is an index-range error.
pub open spec fn strip_vote_spec(p: Pixels, strip: Strip, axis: u8) -> Result<i64, GeometryError> {
    if !p.has_window(strip.r0 as int, strip.r1 as int, strip.c0 as int, strip.c1 as int) {
        Err(GeometryError::IndexRange)
    } else {
        match common_value_spec(
            p.window(strip.r0 as int, strip.r1 as int, strip.c0 as int, strip.c1 as int),
            axis,
        ) {
            Err(e) => Err(e),
            Ok(v) => Ok(
                (v + if axis == 0 {
                    strip.r0
                } else {
                    strip.c0
                }) as i64,
            ),
        }
    }
}

/// The position of a line: the mean of the positions that two strips
/// vote for, rounded toward zero.
pub open spec fn line_spec(p: Pixels, first: Strip, second: Strip, axis: u8) -> Result<
    i64,
    GeometryError,
> {
    match strip_vote_spec(p, first, axis) {
        Err(e) => Err(e),
        Ok(a) => match strip_vote_spec(p, second, axis) {
            Err(e) => Err(e),
            Ok(b) => Ok(trunc_div(a + b, 2) as i64),
        },
    }
}

/// The position in the grid that the lines of a strip vote for.
pub fn strip_vote(arr: &U16Array, strip: Strip, axis: u8) -> (position: Result<i64, GeometryError>)
    ensures
        position == strip_vote_spec(arr@, strip, axis),
        position matches Ok(v) ==> 0 <= v <= isize::MAX,
        position matches Ok(v) ==> (axis == 0 ==> v <= arr@.height()) && (axis == 1 ==> v
            <= arr@.width),
{
    let h = arr.nrows();
    let w = arr.ncols();
    let focus = arr.crop(strip.r0, strip.r1, strip.c0, strip.c1)?;
    let at = find_common_value(&focus, axis)?;
    proof {
        arr@.lemma_window(strip.r0 as int, strip.r1 as int, strip.c0 as int, strip.c1 as int);
    }
    if axis == 0 {
        Ok(at as i64 + strip.r0)
    } else {
        Ok(at as i64 + strip.c0)
    }
}

/// The position of a line between two strips.
pub fn line_between(arr: &U16Array, first: Strip, second: Strip, axis: u8) -> (position: Result<
    i64,
    GeometryError,
>)
    ensures
        position == line_spec(arr@, first, second, axis),
        position matches Ok(v) ==> 0 <= v <= isize::MAX,
        position matches Ok(v) ==> (axis == 0 ==> v <= arr@.height()) && (axis == 1 ==> v
            <= arr@.width),
{
    let a = strip_vote(arr, first, axis)?;
    let b = strip_vote(arr, second, axis)?;
    Ok(((a as i128 + b as i128) / 2) as i64)
}

/// The three positions rise strictly and lie on an axis of `n` pixels.
pub open spec fn in_order(first: int, second: int, third: int, n: int) -> bool {
    0 <= first < second < third < n
}

/// The three lines of a frame, where they rise strictly within the grid;
/// lines that coincide or lie out of order are degenerate.
pub open spec fn ordered_frame(first: int, second: int, third: int, n: int) -> Result<
    Seq<i32>,
    GeometryError,
> {
    if in_order(first, second, third, n) {
        Ok(seq![first as i32, second as i32, third as i32])
    } else {
        Err(GeometryError::DegenerateLines)
    }
}

/// The three lines of a frame, where they rise strictly within the grid.
fn make_frame(first: i64, second: i64, third: i64, n: i64) -> (frame: Result<Vec<i32>, GeometryError>)
    requires
        0 <= n <= i32::MAX,
    ensures
        frame matches Ok(v) ==> ordered_frame(first as int, second as int, third as int, n as int)
            == Ok::<Seq<i32>, GeometryError>(v@),
        frame matches Err(e) ==> ordered_frame(first as int, second as int, third as int, n as int)
            == Err::<Seq<i32>, GeometryError>(e),
        frame matches Ok(v) ==> v@.len() == 3 && 0 <= v@[0] < v@[1] < v@[2] < n,
{
    if 0 <= first && first < second && second < third && third < n {
        let mut frame: Vec<i32> = Vec::new();
        frame.push(first as i32);
        frame.push(second as i32);
        frame.push(third as i32);
        proof {
            assert(frame@ =~= seq![first as i32, second as i32, third as i32]);
        }
        Ok(frame)
    } else {
        Err(GeometryError::DegenerateLines)
    }
}

/// The grid is small enough for its positions to be `i32` coordinates.
pub open spec fn fits_coordinates(p: Pixels) -> bool {
    p.height() <= i32::MAX && p.width <= i32::MAX
}

/// The left strip of the centre line: columns from 6 % to 12 % of the
/// width, without the upper and the lower fifth of the rows.
pub open spec fn centre_left_strip(h: int, w: int) -> Strip {
    Strip {
        r0: (h / 5) as i64,
        r1: (h - h / 5) as i64,
        c0: (6 * w / 100) as i64,
        c1: (2 * (6 * w / 100)) as i64,
    }
}

/// The right strip of the centre line: the mirror image of the left one.
pub open spec fn centre_right_strip(h: int, w: int) -> Strip {
    Strip {
        r0: (h / 5) as i64,
        r1: (h - h / 5) as i64,
        c0: (w - 2 * (6 * w / 100)) as i64,
        c1: (w - 6 * w / 100) as i64,
    }
}

/// What [`find_center_line`] returns: the ends `(0, y1)` and `(w - 1, y2)`
/// of the centre line, and the rotation that its slope asks for.
///
/// `y1` and `y2` are the rows that the left and the right strip vote for.
/// The slope is taken between the inner borders of the two strips.
pub open spec fn center_line_spec(p: Pixels) -> Result<
    (i32, i32, i32, i32, Rotation),
    GeometryError,
> {
    let h = p.height() as int;
    let w = p.width as int;
    if !fits_coordinates(p) {
        Err(GeometryError::IndexRange)
    } else {
        match strip_vote_spec(p, centre_left_strip(h, w), 0) {
            Err(e) => Err(e),
            Ok(y1) => match strip_vote_spec(p, centre_right_strip(h, w), 0) {
                Err(e) => Err(e),
                Ok(y2) => match find_theta_spec(
                    6 * w / 100,
                    w - 2 * (6 * w / 100),
                    y1 as int,
                    y2 as int,
                ) {
                    Err(e) => Err(e),
                    Ok(rotation) => Ok((0i32, y1 as i32, (w - 1) as i32, y2 as i32, rotation)),
                },
            },
        }
    }
}

/// Finds the horizontal centre line and the rotation that levels it.
pub fn find_center_line(arr: &U16Array) -> (line: Result<
    (i32, i32, i32, i32, Rotation),
    GeometryError,
>)
    ensures
        line == center_line_spec(arr@),
        line matches Ok(l) ==> l.4.wf() && 0 <= l.1 <= arr@.height() && 0 <= l.3 <= arr@.height(),
{
    let h = arr.nrows();
    let w = arr.ncols();
    if h > i32::MAX as usize || w > i32::MAX as usize {
        return Err(GeometryError::IndexRange);
    }
    let hp = (h / 5) as i64;
    let wp: i64 = 6 * (w as i64) / 100;
    let left = Strip { r0: hp, r1: h as i64 - hp, c0: wp, c1: 2 * wp };
    let right = Strip { r0: hp, r1: h as i64 - hp, c0: w as i64 - 2 * wp, c1: w as i64 - wp };
    let y1 = strip_vote(arr, left, 0)?;
    let y2 = strip_vote(arr, right, 0)?;
    let rotation = find_theta(wp as i32, (w as i64 - 2 * wp) as i32, y1 as i32, y2 as i32)?;
    Ok((0, y1 as i32, (w as i64 - 1) as i32, y2 as i32, rotation))
}

/// The two strips of the top line: between row 20 and 27 % of the height,
/// in the columns from 14 % to 21 % of the width and their mirror image.
pub open spec fn top_strips(h: int, w: int) -> (Strip, Strip) {
    (
        Strip {
            r0: 20,
            r1: (27 * h / 100) as i64,
            c0: (2 * (7 * w / 100)) as i64,
            c1: (3 * (7 * w / 100)) as i64,
        },
        Strip {
            r0: 20,
            r1: (27 * h / 100) as i64,
            c0: (w - 3 * (7 * w / 100)) as i64,
            c1: (w - 2 * (7 * w / 100)) as i64,
        },
    )
}

/// The two strips of the bottom line: as far from the lower border as
/// those of the top line from the upper, in the columns from 28 % to 35 %
/// of the width and in the mirror image of the top line's columns.
pub open spec fn bottom_strips(h: int, w: int) -> (Strip, Strip) {
    (
        Strip {
            r0: (h - 27 * h / 100) as i64,
            r1: (h - 20) as i64,
            c0: (4 * (7 * w / 100)) as i64,
            c1: (5 * (7 * w / 100)) as i64,
        },
        Strip {
            r0: (h - 27 * h / 100) as i64,
            r1: (h - 20) as i64,
            c0: (w - 3 * (7 * w / 100)) as i64,
            c1: (w - 2 * (7 * w / 100)) as i64,
        },
    )
}

/// What [`fint_horizontal_line`] returns: the rows of the top, centre and
/// bottom reference lines, which rise strictly; rows that coincide or lie
/// out of order are a degenerate-lines error.
///
/// Each line is the mean of the rows that its two strips vote for.
pub open spec fn horizontal_lines_spec(p: Pixels) -> Result<Seq<i32>, GeometryError> {
    let h = p.height() as int;
    let w = p.width as int;
    if !fits_coordinates(p) {
        Err(GeometryError::IndexRange)
    } else {
        match line_spec(p, top_strips(h, w).0, top_strips(h, w).1, 0) {
            Err(e) => Err(e),
            Ok(top) => match center_line_spec(p) {
                Err(e) => Err(e),
                Ok(centre) => match line_spec(p, bottom_strips(h, w).0, bottom_strips(h, w).1, 0) {
                    Err(e) => Err(e),
                    Ok(bottom) => ordered_frame(
                        top as int,
                        trunc_div(centre.1 + centre.3, 2),
                        bottom as int,
                        h,
                    ),
                },
            },
        }
    }
}

/// Finds the rows of the three horizontal reference lines.
pub fn fint_horizontal_line(arr: &U16Array) -> (ypoints: Result<Vec<i32>, GeometryError>)
    ensures
        ypoints matches Ok(v) ==> horizontal_lines_spec(arr@) == Ok::<Seq<i32>, GeometryError>(v@),
        ypoints matches Err(e) ==> horizontal_lines_spec(arr@) == Err::<Seq<i32>, GeometryError>(e),
        ypoints matches Ok(v) ==> v@.len() == 3 && 0 <= v@[0] < v@[1] < v@[2] < arr@.height(),
{
    let h = arr.nrows();
    let w = arr.ncols();
    if h > i32::MAX as usize || w > i32::MAX as usize {
        return Err(GeometryError::IndexRange);
    }
    let h = h as i64;
    let w = w as i64;
    let hp: i64 = 27 * h / 100;
    let wp: i64 = 7 * w / 100;
    let top = line_between(
        arr,
        Strip { r0: 20, r1: hp, c0: 2 * wp, c1: 3 * wp },
        Strip { r0: 20, r1: hp, c0: w - 3 * wp, c1: w - 2 * wp },
        0,
    )?;
    let centre = find_center_line(arr)?;
    let bottom = line_between(
        arr,
        Strip { r0: h - hp, r1: h - 20, c0: 4 * wp, c1: 5 * wp },
        Strip { r0: h - hp, r1: h - 20, c0: w - 3 * wp, c1: w - 2 * wp },
        0,
    )?;
    make_frame(top, (centre.1 as i64 + centre.3 as i64) / 2, bottom, h)
}

/// The two strips of the left line: the columns from 4 % of the width
/// plus 10 to 24 % of the width, in the rows from 15 % to 35 % of the
/// height and their mirror image.
pub open spec fn left_strips(h: int, w: int) -> (Strip, Strip) {
    (
        Strip {
            r0: (3 * (5 * h / 100)) as i64,
            r1: (7 * (5 * h / 100)) as i64,
            c0: (4 * w / 100 + 10) as i64,
            c1: (6 * (4 * w / 100)) as i64,
        },
        Strip {
            r0: (h - 7 * (5 * h / 100)) as i64,
            r1: (h - 3 * (5 * h / 100)) as i64,
            c0: (4 * w / 100 + 10) as i64,
            c1: (6 * (4 * w / 100)) as i64,
        },
    )
}

/// The two strips of the right line: the mirror image of those of the left
/// line.
pub open spec fn right_strips(h: int, w: int) -> (Strip, Strip) {
    (
        Strip {
            r0: (3 * (5 * h / 100)) as i64,
            r1: (7 * (5 * h / 100)) as i64,
            c0: (w - 6 * (4 * w / 100)) as i64,
            c1: (w - (4 * w / 100 + 10)) as i64,
        },
        Strip {
            r0: (h - 7 * (5 * h / 100)) as i64,
            r1: (h - 3 * (5 * h / 100)) as i64,
            c0: (w - 6 * (4 * w / 100)) as i64,
            c1: (w - (4 * w / 100 + 10)) as i64,
        },
    )
}

/// The two strips of the centre column: the columns from 40 % to 60 % of
/// the width, in the rows from 18 % to 36 % of the height and their mirror
/// image.
pub open spec fn middle_strips(h: int, w: int) -> (Strip, Strip) {
    (
        Strip {
            r0: (18 * h / 100) as i64,
            r1: (2 * (18 * h / 100)) as i64,
            c0: (2 * (20 * w / 100)) as i64,
            c1: (3 * (20 * w / 100)) as i64,
        },
        Strip {
            r0: (h - 2 * (18 * h / 100)) as i64,
            r1: (h - 18 * h / 100) as i64,
            c0: (2 * (20 * w / 100)) as i64,
            c1: (3 * (20 * w / 100)) as i64,
        },
    )
}

/// What [`find_vertical_line`] returns: the columns of the left, centre
/// and right reference lines, which rise strictly; columns that coincide
/// or lie out of order are a degenerate-lines error.
///
/// Each line is the mean of the columns that its two strips vote for.
pub open spec fn vertical_lines_spec(p: Pixels) -> Result<Seq<i32>, GeometryError> {
    let h = p.height() as int;
    let w = p.width as int;
    if !fits_coordinates(p) {
        Err(GeometryError::IndexRange)
    } else {
        match line_spec(p, left_strips(h, w).0, left_strips(h, w).1, 1) {
            Err(e) => Err(e),
            Ok(left) => match line_spec(p, right_strips(h, w).0, right_strips(h, w).1, 1) {
                Err(e) => Err(e),
                Ok(right) => match line_spec(p, middle_strips(h, w).0, middle_strips(h, w).1, 1) {
                    Err(e) => Err(e),
                    Ok(centre) => ordered_frame(left as int, centre as int, right as int, w),
                },
            },
        }
    }
}

/// Finds the columns of the three vertical reference lines.
pub fn find_vertical_line(arr: &U16Array) -> (xpoints: Result<Vec<i32>, GeometryError>)
    ensures
        xpoints matches Ok(v) ==> vertical_lines_spec(arr@) == Ok::<Seq<i32>, GeometryError>(v@),
        xpoints matches Err(e) ==> vertical_lines_spec(arr@) == Err::<Seq<i32>, GeometryError>(e),
        xpoints matches Ok(v) ==> v@.len() == 3 && 0 <= v@[0] < v@[1] < v@[2] < arr@.width,
{
    let h = arr.nrows();
    let w = arr.ncols();
    if h > i32::MAX as usize || w > i32::MAX as usize {
        return Err(GeometryError::IndexRange);
    }
    let h = h as i64;
    let w = w as i64;
    let hp: i64 = 5 * h / 100;
    let wp: i64 = 4 * w / 100;
    let left = line_between(
        arr,
        Strip { r0: 3 * hp, r1: 7 * hp, c0: wp + 10, c1: 6 * wp },
        Strip { r0: h - 7 * hp, r1: h - 3 * hp, c0: wp + 10, c1: 6 * wp },
        1,
    )?;
    let right = line_between(
        arr,
        Strip { r0: 3 * hp, r1: 7 * hp, c0: w - 6 * wp, c1: w - (wp + 10) },
        Strip { r0: h - 7 * hp, r1: h - 3 * hp, c0: w - 6 * wp, c1: w - (wp + 10) },
        1,
    )?;
    let hc: i64 = 18 * h / 100;
    let wc: i64 = 20 * w / 100;
    let centre = line_between(
        arr,
        Strip { r0: hc, r1: 2 * hc, c0: 2 * wc, c1: 3 * wc },
        Strip { r0: h - 2 * hc, r1: h - hc, c0: 2 * wc, c1: 3 * wc },
        1,
    )?;
    make_frame(left, centre, right, w)
}

/// More than half of the columns (axis 0) or rows (axis 1) of the strip
/// have their brightest pixel at the position `at` of the grid.
pub open spec fn strip_agrees(p: Pixels, strip: Strip, axis: u8, at: int) -> bool {
    let window = p.window(strip.r0 as int, strip.r1 as int, strip.c0 as int, strip.c1 as int);
    let base = if axis == 0 {
        strip.r0 as int
    } else {
        strip.c0 as int
    };
    &&& p.has_window(strip.r0 as int, strip.r1 as int, strip.c0 as int, strip.c1 as int)
    &&& 0 <= at - base <= i32::MAX
    &&& at <= i64::MAX
    &&& 2 * count_of(argmax_spec(window, axis), (at - base) as usize) > argmax_spec(
        window,
        axis,
    ).len()
}

/// A strip that agrees on a position votes for it.
pub proof fn lemma_strip_agrees(p: Pixels, strip: Strip, axis: u8, at: int)
    requires
        strip_agrees(p, strip, axis, at),
    ensures
        strip_vote_spec(p, strip, axis) == Ok::<i64, GeometryError>(at as i64),
{
    let window = p.window(strip.r0 as int, strip.r1 as int, strip.c0 as int, strip.c1 as int);
    let base = if axis == 0 {
        strip.r0 as int
    } else {
        strip.c0 as int
    };
    lemma_majority_decides(window, axis, (at - base) as usize);
}

/// Two strips that agree on one position each give the line at the mean
/// of the two, and at the position itself where it is the same.
pub proof fn lemma_line_agrees(p: Pixels, first: Strip, second: Strip, axis: u8, a: int, b: int)
    requires
        strip_agrees(p, first, axis, a),
        strip_agrees(p, second, axis, b),
    ensures
        line_spec(p, first, second, axis) == Ok::<i64, GeometryError>(trunc_div(a + b, 2) as i64),
        a == b ==> trunc_div(a + b, 2) == a,
{
    lemma_strip_agrees(p, first, axis, a);
    lemma_strip_agrees(p, second, axis, b);
}

/// Where the left strip of the centre line agrees on row `y1` and the
/// right strip on row `y2`, the centre line runs from `(0, y1)` to
/// `(w - 1, y2)`, and the rotation found is that of the rise `y2 - y1`
/// over the run between the inner borders of the strips.
pub proof fn lemma_centre_line_agrees(p: Pixels, y1: int, y2: int)
    requires
        fits_coordinates(p),
        strip_agrees(p, centre_left_strip(p.height() as int, p.width as int), 0, y1),
        strip_agrees(p, centre_right_strip(p.height() as int, p.width as int), 0, y2),
    ensures
        p.width - 3 * (6 * p.width / 100) > 0,
        center_line_spec(p) == Ok::<(i32, i32, i32, i32, Rotation), GeometryError>(
            (
                0i32,
                y1 as i32,
                (p.width - 1) as i32,
                y2 as i32,
                crate::rotate::rotation_of(y2 - y1, p.width - 3 * (6 * p.width / 100)),
            ),
        ),
{
    let h = p.height() as int;
    let w = p.width as int;
    let left = centre_left_strip(h, w);
    let right = centre_right_strip(h, w);
    lemma_strip_agrees(p, left, 0, y1);
    lemma_strip_agrees(p, right, 0, y2);
    let window = p.window(left.r0 as int, left.r1 as int, left.c0 as int, left.c1 as int);
    lemma_count_bounds(argmax_spec(window, 0), (y1 - left.r0) as usize);
    assert(argmax_spec(window, 0).len() == left.c1 - left.c0);
    assert(6 * w / 100 > 0);
    assert(w - 3 * (6 * w / 100) > 0);
}

/// Where the two strips of each horizontal line agree on one row, and the
/// three rows rise strictly, these rows are the frame, and the centre
/// line asks for no rotation.
///
/// So where at least 60 % of the columns of every strip are brightest in
/// the row of their line, the three rows are returned exactly.
pub proof fn lemma_frame_rows(p: Pixels, top: int, centre: int, bottom: int)
    requires
        fits_coordinates(p),
        strip_agrees(p, top_strips(p.height() as int, p.width as int).0, 0, top),
        strip_agrees(p, top_strips(p.height() as int, p.width as int).1, 0, top),
        strip_agrees(p, centre_left_strip(p.height() as int, p.width as int), 0, centre),
        strip_agrees(p, centre_right_strip(p.height() as int, p.width as int), 0, centre),
        strip_agrees(p, bottom_strips(p.height() as int, p.width as int).0, 0, bottom),
        strip_agrees(p, bottom_strips(p.height() as int, p.width as int).1, 0, bottom),
        in_order(top, centre, bottom, p.height() as int),
    ensures
        horizontal_lines_spec(p) == Ok::<Seq<i32>, GeometryError>(
            seq![top as i32, centre as i32, bottom as i32],
        ),
        center_line_spec(p) matches Ok(line) && line.4 == Rotation::identity(),
{
    let h = p.height() as int;
    let w = p.width as int;
    lemma_line_agrees(p, top_strips(h, w).0, top_strips(h, w).1, 0, top, top);
    lemma_line_agrees(p, bottom_strips(h, w).0, bottom_strips(h, w).1, 0, bottom, bottom);
    lemma_centre_line_agrees(p, centre, centre);
    crate::rotate::lemma_level_line(w - 3 * (6 * w / 100));
    assert(trunc_div(centre + centre, 2) == centre);
}

/// Where the two strips of each vertical line agree on one column, and the
/// three columns rise strictly, these columns are the frame.
pub proof fn lemma_frame_columns(p: Pixels, left: int, centre: int, right: int)
    requires
        fits_coordinates(p),
        strip_agrees(p, left_strips(p.height() as int, p.width as int).0, 1, left),
        strip_agrees(p, left_strips(p.height() as int, p.width as int).1, 1, left),
        strip_agrees(p, middle_strips(p.height() as int, p.width as int).0, 1, centre),
        strip_agrees(p, middle_strips(p.height() as int, p.width as int).1, 1, centre),
        strip_agrees(p, right_strips(p.height() as int, p.width as int).0, 1, right),
        strip_agrees(p, right_strips(p.height() as int, p.width as int).1, 1, right),
        in_order(left, centre, right, p.width as int),
    ensures
        vertical_lines_spec(p) == Ok::<Seq<i32>, GeometryError>(
            seq![left as i32, centre as i32, right as i32],
        ),
{
    let h = p.height() as int;
    let w = p.width as int;
    lemma_line_agrees(p, left_strips(h, w).0, left_strips(h, w).1, 1, left, left);
    lemma_line_agrees(p, middle_strips(h, w).0, middle_strips(h, w).1, 1, centre, centre);
    lemma_line_agrees(p, right_strips(h, w).0, right_strips(h, w).1, 1, right, right);
}

/// The position, in the pixels taken row after row, of the first largest
/// pixel of the grid; 0 for a grid without pixels.
pub fn argmax_1d(arr: &U16Array) -> (at: usize)
    ensures
        at == first_max(arr@.flat_levels()),
{
    let levels = arr.to_levels();
    argmax_vec(&levels).0
}

} // verus!
