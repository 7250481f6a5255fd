//! Finding the test tool in the raw detector image.
//!
//! On each of the four sides a thin band that runs from the border toward
//! the centre of the image is averaged into a profile. The tool begins
//! where the profile leaves, for ten samples on end, the side of the mean
//! on which it started.
use vstd::prelude::*;
use crate::arith::lemma_div_bounds;
use crate::error::GeometryError;
use crate::grid::{Pixels, U16Array};
use crate::lines::{argmax, argmax_spec, count_of, majority_vote, most_common};

verus! {

/// The width of a band, and the number of samples at the start of a
/// profile that lie outside the tool.
pub const BAND: usize = 30;

/// The sum of the values of `s`.
pub open spec fn sum_of(s: Seq<u128>) -> nat
    decreases s.len(),
{
    if s.len() == 0 {
        0
    } else {
        sum_of(s.drop_last()) + s.last() as nat
    }
}

/// What [`find_mean`] returns: the sum of the values divided by `n`,
/// rounded down and limited to the range of `u16`. Dividing by zero gives
/// 0 for a zero sum and the largest `u16` otherwise.
pub open spec fn mean_spec(s: Seq<u128>, n: int) -> int {
    if n == 0 {
        if sum_of(s) == 0 {
            0
        } else {
            u16::MAX as int
        }
    } else if sum_of(s) / (n as nat) > u16::MAX {
        u16::MAX as int
    } else {
        (sum_of(s) / (n as nat)) as int
    }
}

/// The sum of a longer piece of a sequence is no smaller.
pub proof fn lemma_sum_grows(s: Seq<u128>, i: int)
    requires
        0 <= i < s.len(),
    ensures
        sum_of(s.take(i + 1)) == sum_of(s.take(i)) + s[i],
{
    assert(s.take(i + 1).drop_last() =~= s.take(i));
    assert(s.take(i + 1).last() == s[i]);
}

/// The sum from one position on stays above a sum reached before.
pub proof fn lemma_sum_at_least(s: Seq<u128>, i: int)
    requires
        0 <= i <= s.len(),
    ensures
        sum_of(s.take(i)) <= sum_of(s),
    decreases s.len() - i,
{
    if i < s.len() {
        lemma_sum_grows(s, i);
        lemma_sum_at_least(s, i + 1);
    } else {
        assert(s.take(i) =~= s);
    }
}

/// The mean of the values over `n`, rounded down and limited to the range
/// of `u16`.
pub fn find_mean(vector: Vec<u128>, n: usize) -> (mean: u16)
    ensures
        mean == mean_spec(vector@, n as int),
{
    mean_of(&vector, n)
}

/// The mean of the values over `n`, for values that the caller keeps.
pub fn mean_of(vector: &Vec<u128>, n: usize) -> (mean: u16)
    ensures
        mean == mean_spec(vector@, n as int),
{
    let len = vector.len();
    let mut total: u128 = 0;
    let mut i: usize = 0;
    proof {
        assert(vector@.take(0) =~= Seq::<u128>::empty());
    }
    while i < len
        invariant
            i <= len == vector@.len(),
            total == sum_of(vector@.take(i as int)),
        decreases len - i,
    {
        proof {
            lemma_sum_grows(vector@, i as int);
        }
        match total.checked_add(vector[i]) {
            Some(t) => {
                total = t;
            },
            None => {
                proof {
                    lemma_sum_at_least(vector@, i + 1);
                    let all = sum_of(vector@) as int;
                    assert(all > u128::MAX);
                    if n > 0 {
                        lemma_div_bounds(all, n as int);
                        assert(all / (n as int) > u16::MAX) by (nonlinear_arith)
                            requires
                                all < n * (all / (n as int)) + n,
                                all > 0xffff_ffff_ffff_ffff_ffff_ffff_ffff_ffff,
                                0 < n <= 0xffff_ffff_ffff_ffff,
                        ;
                    }
                }
                return u16::MAX;
            },
        }
        i = i + 1;
    }
    proof {
        assert(vector@.take(len as int) =~= vector@);
    }
    if n == 0 {
        if total == 0 {
            0
        } else {
            u16::MAX
        }
    } else {
        let q = total / (n as u128);
        if q > u16::MAX as u128 {
            u16::MAX
        } else {
            q as u16
        }
    }
}

/// The first `offset` samples all lie at or below the threshold, and
/// there is such a sample.
pub open spec fn starts_low(v: Seq<u128>, offset: int, ts: u128) -> bool {
    offset > 0 && forall|i: int| 0 <= i < offset ==> ts >= #[trigger] v[i]
}

/// Sample `i` lies on the other side of the threshold than the start.
pub open spec fn leaves_start(v: Seq<u128>, offset: int, ts: u128, i: int) -> bool {
    (ts >= v[i]) != starts_low(v, offset, ts)
}

/// The ten samples up to `i`, none before `offset`, all lie on the other
/// side of the threshold than the start.
pub open spec fn run_ends_at(v: Seq<u128>, offset: int, ts: u128, i: int) -> bool {
    &&& offset + 9 <= i
    &&& forall|k: int| i - 9 <= k <= i ==> #[trigger] leaves_start(v, offset, ts, k)
}

/// `i` is the first sample below `n` at which such a run ends.
pub open spec fn is_first_run(v: Seq<u128>, n: int, offset: int, ts: u128, i: int) -> bool {
    &&& i < n
    &&& run_ends_at(v, offset, ts, i)
    &&& forall|j: int| offset + 9 <= j < i ==> !run_ends_at(v, offset, ts, j)
}

/// Such a run ends below `n`.
pub open spec fn has_run(v: Seq<u128>, n: int, offset: int, ts: u128) -> bool {
    exists|i: int| i < n && run_ends_at(v, offset, ts, i)
}

/// What [`find_edge_tool`] returns: the sample just before the first run
/// of ten samples that leave the side of the threshold on which the
/// profile started, or 0 where there is no such run.
///
/// An `offset` or an `n` beyond the profile, and a run that starts at the
/// first sample, are index-range errors.
pub open spec fn edge_tool_spec(v: Seq<u128>, n: int, offset: int, ts: u128) -> Result<
    usize,
    GeometryError,
> {
    if offset > v.len() || n > v.len() {
        Err(GeometryError::IndexRange)
    } else if !has_run(v, n, offset, ts) {
        Ok(0usize)
    } else if (choose|i: int| is_first_run(v, n, offset, ts, i)) < 10 {
        Err(GeometryError::IndexRange)
    } else {
        Ok(((choose|i: int| is_first_run(v, n, offset, ts, i)) - 10) as usize)
    }
}

/// There is one first run.
pub proof fn lemma_first_run_unique(v: Seq<u128>, n: int, offset: int, ts: u128, a: int, b: int)
    requires
        is_first_run(v, n, offset, ts, a),
        is_first_run(v, n, offset, ts, b),
    ensures
        a == b,
{
}

/// Finds where a profile crosses its threshold for good.
///
/// The first `offset` samples decide on which side of the threshold `ts`
/// the profile starts: below, where all of them are at most `ts`. The
/// search covers the samples from `offset` to `n`.
pub fn find_edge_tool(vector: Vec<u128>, n: usize, offset: usize, ts: u128) -> (edge: Result<
    usize,
    GeometryError,
>)
    ensures
        edge == edge_tool_spec(vector@, n as int, offset as int, ts),
{
    edge_of(&vector, n, offset, ts)
}

/// Finds where a profile crosses its threshold for good, in a profile
/// that the caller keeps.
pub fn edge_of(vector: &Vec<u128>, n: usize, offset: usize, ts: u128) -> (edge: Result<
    usize,
    GeometryError,
>)
    ensures
        edge == edge_tool_spec(vector@, n as int, offset as int, ts),
        edge matches Ok(e) ==> e == 0 || e + 10 < n,
{
    if offset > vector.len() || n > vector.len() {
        return Err(GeometryError::IndexRange);
    }
    let mut low = offset > 0;
    let mut i: usize = 0;
    while i < offset
        invariant
            i <= offset <= vector@.len(),
            low == (offset > 0 && forall|k: int| 0 <= k < i ==> ts >= #[trigger] vector@[k]),
        decreases offset - i,
    {
        if ts < vector[i] {
            low = false;
        }
        i = i + 1;
    }
    assert(low == starts_low(vector@, offset as int, ts));
    let mut cur_edge: usize = 0;
    let mut i: usize = offset;
    while i < n
        invariant
            offset <= i || n < offset,
            i <= n || n < offset,
            n <= vector@.len(),
            offset <= vector@.len(),
            low == starts_low(vector@, offset as int, ts),
            cur_edge < 10,
            cur_edge <= i - offset,
            forall|k: int| i - cur_edge <= k < i ==> #[trigger] leaves_start(
                vector@,
                offset as int,
                ts,
                k,
            ),
            cur_edge < i - offset ==> !leaves_start(vector@, offset as int, ts, i - cur_edge - 1),
            forall|j: int| j < i ==> !run_ends_at(vector@, offset as int, ts, j),
        decreases n - i,
    {
        let below = ts >= vector[i];
        if below != low {
            cur_edge = cur_edge + 1;
        } else {
            cur_edge = 0;
        }
        if cur_edge >= 10 {
            proof {
                assert(run_ends_at(vector@, offset as int, ts, i as int));
                assert(is_first_run(vector@, n as int, offset as int, ts, i as int));
                lemma_first_run_unique(
                    vector@,
                    n as int,
                    offset as int,
                    ts,
                    i as int,
                    choose|j: int| is_first_run(vector@, n as int, offset as int, ts, j),
                );
            }
            if i < 10 {
                return Err(GeometryError::IndexRange);
            }
            return Ok(i - 10);
        }
        proof {
            assert(!run_ends_at(vector@, offset as int, ts, i as int)) by {
                if offset + 9 <= i {
                    assert(!leaves_start(vector@, offset as int, ts, i - cur_edge));
                }
            }
        }
        i = i + 1;
    }
    Ok(0)
}

/// The sum of the pixels of column `c` in the rows `r0..r1`.
pub open spec fn column_sum(p: Pixels, c: int, r0: int, r1: int) -> nat
    decreases r1 - r0,
{
    if r1 <= r0 {
        0
    } else {
        column_sum(p, c, r0, r1 - 1) + p.at(r1 - 1, c) as nat
    }
}

/// The sum of the pixels of row `r` in the columns `c0..c1`.
pub open spec fn row_sum(p: Pixels, r: int, c0: int, c1: int) -> nat
    decreases c1 - c0,
{
    if c1 <= c0 {
        0
    } else {
        row_sum(p, r, c0, c1 - 1) + p.at(r, c1 - 1) as nat
    }
}

/// The profile of a band: with `down`, the mean of each row over the
/// columns of the band; else the mean of each column over its rows. Means
/// are rounded down.
pub open spec fn band_profile(p: Pixels, r0: int, r1: int, c0: int, c1: int, down: bool) -> Seq<
    u128,
> {
    if down {
        Seq::new((r1 - r0) as nat, |k: int| (row_sum(p, r0 + k, c0, c1) / ((c1 - c0) as nat)) as u128)
    } else {
        Seq::new(
            (c1 - c0) as nat,
            |k: int| (column_sum(p, c0 + k, r0, r1) / ((r1 - r0) as nat)) as u128,
        )
    }
}

/// Where a profile leaves, for good, the side of its own mean on which
/// its first 30 samples lie.
pub open spec fn profile_edge(profile: Seq<u128>) -> Result<usize, GeometryError> {
    edge_tool_spec(
        profile,
        profile.len() as int,
        BAND as int,
        mean_spec(profile, profile.len() as int) as u128,
    )
}

/// The region of the raw image that holds the test tool.
#[derive(Clone, Copy, Debug, PartialEq, Eq, Structural)]
pub struct CropRegion {
    /// The first row.
    pub row1: usize,
    /// The row after the last.
    pub row2: usize,
    /// The first column.
    pub col1: usize,
    /// The column after the last.
    pub col2: usize,
}

/// The profile toward the left border: the 30 rows above the middle, from
/// column 30 to the middle.
pub open spec fn left_profile(p: Pixels) -> Seq<u128> {
    let h = p.height() as int;
    let w = p.width as int;
    band_profile(p, h / 2 - 30, h / 2, 30, w / 2, false)
}

/// The profile toward the top border: 30 columns from a third of the
/// width, from row 30 to the middle.
pub open spec fn top_profile(p: Pixels) -> Seq<u128> {
    let h = p.height() as int;
    let w = p.width as int;
    band_profile(p, 30, h / 2, w / 3, w / 3 + 30, true)
}

/// The profile toward the right border, from the border inward: the 30
/// rows above the middle, from the middle to 30 columns before the border.
pub open spec fn right_profile(p: Pixels) -> Seq<u128> {
    let h = p.height() as int;
    let w = p.width as int;
    band_profile(p, h / 2 - 30, h / 2, w / 2, w - 30, false).reverse()
}

/// The profile toward the bottom border, from the border inward: 30
/// columns from a third of the width, from the middle to 30 rows before
/// the border.
pub open spec fn bottom_profile(p: Pixels) -> Seq<u128> {
    let h = p.height() as int;
    let w = p.width as int;
    band_profile(p, h / 2, h - 30, w / 3, w / 3 + 30, true).reverse()
}

/// The image is large enough for the four bands.
pub open spec fn bands_fit(p: Pixels) -> bool {
    p.height() >= 60 && p.width >= 60
}

/// What [`arr_correction`] returns.
///
/// An image smaller than 60 by 60 is an index-range error.
pub open spec fn arr_correction_spec(p: Pixels) -> Result<CropRegion, GeometryError> {
    let h = p.height() as int;
    let w = p.width as int;
    if !bands_fit(p) {
        Err(GeometryError::IndexRange)
    } else {
        match profile_edge(left_profile(p)) {
            Err(e) => Err(e),
            Ok(left) => match profile_edge(top_profile(p)) {
                Err(e) => Err(e),
                Ok(top) => match profile_edge(right_profile(p)) {
                    Err(e) => Err(e),
                    Ok(right) => match profile_edge(bottom_profile(p)) {
                        Err(e) => Err(e),
                        Ok(bottom) => Ok(
                            CropRegion {
                                row1: (top + 30) as usize,
                                row2: (bottom_profile(p).len() - bottom + h / 2) as usize,
                                col1: (left + 30) as usize,
                                col2: (right_profile(p).len() - right + w / 2) as usize,
                            },
                        ),
                    },
                },
            },
        }
    }
}

/// The sum of the pixels of a column or a row over a range.
fn line_sum(arr: &U16Array, down: bool, at: usize, from: usize, to: usize) -> (total: u128)
    requires
        from <= to,
        down ==> at < arr@.height() && to <= arr@.width,
        !down ==> at < arr@.width && to <= arr@.height(),
    ensures
        down ==> total == row_sum(arr@, at as int, from as int, to as int),
        !down ==> total == column_sum(arr@, at as int, from as int, to as int),
        total <= (to - from) * 0xffff,
{
    let mut total: u128 = 0;
    let mut k: usize = from;
    while k < to
        invariant
            from <= k <= to,
            down ==> at < arr@.height() && to <= arr@.width,
            !down ==> at < arr@.width && to <= arr@.height(),
            down ==> total == row_sum(arr@, at as int, from as int, k as int),
            !down ==> total == column_sum(arr@, at as int, from as int, k as int),
            total <= (k - from) * 0xffff,
        decreases to - k,
    {
        let v = if down {
            arr.at(at, k)
        } else {
            arr.at(k, at)
        };
        total = total + v as u128;
        k = k + 1;
    }
    total
}

/// The profile of a band of the grid.
pub fn band_means(arr: &U16Array, r0: usize, r1: usize, c0: usize, c1: usize, down: bool) -> (profile:
    Vec<u128>)
    requires
        arr@.has_window(r0 as int, r1 as int, c0 as int, c1 as int),
        down ==> c0 < c1,
        !down ==> r0 < r1,
    ensures
        profile@ == band_profile(arr@, r0 as int, r1 as int, c0 as int, c1 as int, down),
{
    let (first, last, from, to) = if down {
        (r0, r1, c0, c1)
    } else {
        (c0, c1, r0, r1)
    };
    let mut profile: Vec<u128> = Vec::new();
    let mut k: usize = first;
    while k < last
        invariant
            first <= k <= last,
            arr@.has_window(r0 as int, r1 as int, c0 as int, c1 as int),
            from < to,
            down ==> first == r0 && last == r1 && from == c0 && to == c1,
            !down ==> first == c0 && last == c1 && from == r0 && to == r1,
            profile@.len() == k - first,
            forall|i: int|
                0 <= i < k - first ==> #[trigger] profile@[i] == band_profile(
                    arr@,
                    r0 as int,
                    r1 as int,
                    c0 as int,
                    c1 as int,
                    down,
                )[i],
        decreases last - k,
    {
        let total = line_sum(arr, down, k, from, to);
        profile.push(total / ((to - from) as u128));
        k = k + 1;
    }
    proof {
        assert(profile@ =~= band_profile(arr@, r0 as int, r1 as int, c0 as int, c1 as int, down));
    }
    profile
}

/// The values in the opposite order.
pub fn reversed(v: &Vec<u128>) -> (r: Vec<u128>)
    ensures
        r@ == v@.reverse(),
{
    let n = v.len();
    let mut r: Vec<u128> = Vec::new();
    let mut i: usize = 0;
    while i < n
        invariant
            i <= n == v@.len(),
            r@.len() == i,
            forall|k: int| 0 <= k < i ==> r@[k] == v@[n - 1 - k],
        decreases n - i,
    {
        r.push(v[n - 1 - i]);
        i = i + 1;
    }
    proof {
        assert(r@ =~= v@.reverse());
    }
    r
}

/// Where a profile leaves the side of its own mean for good.
pub fn edge_of_profile(profile: &Vec<u128>) -> (edge: Result<usize, GeometryError>)
    ensures
        edge == profile_edge(profile@),
        edge matches Ok(e) ==> e == 0 || e + 10 < profile@.len(),
{
    let n = profile.len();
    let ts = mean_of(profile, n) as u128;
    edge_of(profile, n, BAND, ts)
}

/// Locates the test tool in the raw image.
pub fn arr_correction(arr: &U16Array) -> (region: Result<CropRegion, GeometryError>)
    ensures
        region == arr_correction_spec(arr@),
{
    let h = arr.nrows();
    let w = arr.ncols();
    if h < 60 || w < 60 {
        return Err(GeometryError::IndexRange);
    }
    let focus_x1 = band_means(arr, h / 2 - 30, h / 2, 30, w / 2, false);
    let left = edge_of_profile(&focus_x1)?;
    let focus_y1 = band_means(arr, 30, h / 2, w / 3, w / 3 + 30, true);
    let top = edge_of_profile(&focus_y1)?;
    let focus_x2 = reversed(&band_means(arr, h / 2 - 30, h / 2, w / 2, w - 30, false));
    let right = edge_of_profile(&focus_x2)?;
    let focus_y2 = reversed(&band_means(arr, h / 2, h - 30, w / 3, w / 3 + 30, true));
    let bottom = edge_of_profile(&focus_y2)?;
    Ok(
        CropRegion {
            row1: top + 30,
            row2: focus_y2.len() - bottom + h / 2,
            col1: left + 30,
            col2: focus_x2.len() - right + w / 2,
        },
    )
}

/// What [`inv_lut`] does to a pixel: it mirrors the intensity between the
/// smallest and the largest intensity of the grid.
pub open spec fn inverted_pixel(p: Pixels, r: int, c: int) -> u16 {
    (p.max_value() - p.at(r, c) + p.min_value()) as u16
}

/// `out` is `p` with every intensity mirrored.
pub open spec fn is_inverted_grid(p: Pixels, out: Pixels) -> bool {
    &&& out.wf()
    &&& out.height() == p.height()
    &&& out.width == p.width
    &&& forall|r: int, c: int| p.contains(r, c) ==> #[trigger] out.at(r, c) == inverted_pixel(p, r, c)
}

/// The grid `p` with every intensity mirrored.
pub open spec fn inverted_grid(p: Pixels) -> Pixels {
    Pixels {
        cells: Seq::new(p.height(), |r: int| Seq::new(p.width, |c: int| inverted_pixel(p, r, c))),
        width: p.width,
    }
}

/// Inverts the intensities of the grid, so that dark becomes bright.
///
/// A grid without pixels is an index-range error.
pub fn inv_lut(arr: &U16Array) -> (inverted: Result<U16Array, GeometryError>)
    ensures
        arr@.is_empty() ==> inverted matches Err(GeometryError::IndexRange),
        !arr@.is_empty() ==> inverted.is_ok(),
        inverted matches Ok(out) ==> is_inverted_grid(arr@, out@) && out@ == inverted_grid(arr@),
{
    let max_pixel = match arr.max() {
        Some(m) => m,
        None => {
            return Err(GeometryError::IndexRange);
        },
    };
    let min_pixel = match arr.min() {
        Some(m) => m,
        None => {
            return Err(GeometryError::IndexRange);
        },
    };
    let nrows = arr.nrows();
    let ncols = arr.ncols();
    let mut inv_arr = arr.clone();
    let mut i: usize = 0;
    while i < nrows
        invariant
            i <= nrows == arr@.height(),
            ncols == arr@.width,
            arr@.wf(),
            arr@.has_max(max_pixel),
            arr@.has_min(min_pixel),
            max_pixel == arr@.max_value(),
            min_pixel == arr@.min_value(),
            inv_arr@.wf(),
            inv_arr@.height() == nrows,
            inv_arr@.width == ncols,
            forall|r: int, c: int|
                0 <= r < i && 0 <= c < ncols ==> #[trigger] inv_arr@.at(r, c) == inverted_pixel(
                    arr@,
                    r,
                    c,
                ),
        decreases nrows - i,
    {
        let mut j: usize = 0;
        while j < ncols
            invariant
                i < nrows == arr@.height(),
                j <= ncols == arr@.width,
                arr@.wf(),
                arr@.has_max(max_pixel),
                arr@.has_min(min_pixel),
                max_pixel == arr@.max_value(),
                min_pixel == arr@.min_value(),
                inv_arr@.wf(),
                inv_arr@.height() == nrows,
                inv_arr@.width == ncols,
                forall|r: int, c: int|
                    0 <= r < i && 0 <= c < ncols ==> #[trigger] inv_arr@.at(r, c) == inverted_pixel(
                        arr@,
                        r,
                        c,
                    ),
                forall|c: int|
                    0 <= c < j ==> #[trigger] inv_arr@.at(i as int, c) == inverted_pixel(
                        arr@,
                        i as int,
                        c,
                    ),
            decreases ncols - j,
        {
            let val = arr.at(i, j);
            assert(arr@.contains(i as int, j as int));
            assert(arr@.at(i as int, j as int) <= max_pixel);
            assert(arr@.at(i as int, j as int) >= min_pixel);
            let new_val = max_pixel - val + min_pixel;
            inv_arr.set(i, j, new_val);
            j = j + 1;
        }
        i = i + 1;
    }
    proof {
        let g = inverted_grid(arr@);
        assert(g.wf());
        inv_arr@.lemma_equal(g);
    }
    Ok(inv_arr)
}

/// The strip in which the centre line is looked for when the polarity of
/// the image is tested: columns from 12 % to 18 % of the width, without
/// the upper and the lower fifth of the rows.
pub open spec fn polarity_strip(p: Pixels) -> Pixels {
    let h = p.height() as int;
    let w = p.width as int;
    p.window(h / 5, h - h / 5, 2 * (6 * w / 100), 3 * (6 * w / 100))
}

/// What [`is_inverse`] returns: whether fewer than 30 % of the columns of
/// the polarity strip have their brightest pixel in the row that most of
/// them have it in.
///
/// In an image with a bright centre line nearly all columns agree on its
/// row; where they do not, the line is dark and the image is inverted.
pub open spec fn is_inverse_spec(p: Pixels) -> bool {
    let strip = polarity_strip(p);
    let votes = argmax_spec(strip, 0);
    votes.len() > 0 && 10 * count_of(votes, most_common(votes)) < 3 * strip.width
}

/// Tests whether the image is dark on light.
pub fn is_inverse(arr: &U16Array) -> (inverse: bool)
    ensures
        inverse == is_inverse_spec(arr@),
{
    let h = arr.nrows() as i64;
    let w = arr.ncols() as i64;
    let hp: i64 = h / 5;
    let wp = ((6 * (w as i128)) / 100) as i64;
    proof {
        arr@.lemma_window(hp as int, h - hp, 2 * wp as int, 3 * wp as int);
    }
    let focus = match arr.crop(hp, h - hp, 2 * wp, 3 * wp) {
        Ok(f) => f,
        Err(_) => {
            assert(false);
            return false;
        },
    };
    let values = argmax(&focus, 0);
    let extent = focus.nrows();
    let bound = if extent == 0 {
        1
    } else {
        extent
    };
    match majority_vote(&values, bound) {
        Some((_, votes)) => 10 * (votes as u128) < 3 * (focus.ncols() as u128),
        None => false,
    }
}

} // verus!
