//! The circular target at the centre of the reference frame.
//!
//! The target is cut out of the grid, split into four quadrants at its own
//! centre, and searched for the bright pixel farthest from that centre.
//! In a quadrant, rows and columns are counted outward from the centre.
use vstd::prelude::*;
use crate::calibration::{cm2pixel, cm2pixel_spec};
use crate::error::GeometryError;
use crate::grid::{pixels_of, Pixels, U16Array};
use crate::levels::percentile;
use crate::lines::{strip_vote, strip_vote_spec, Strip};

verus! {

/// Half the side of the square cut out around the target, in thousandths
/// of a centimetre.
pub const TARGET_RADIUS: i64 = 900;

/// The percentile of the target's intensities from which a pixel counts
/// as bright.
pub const BRIGHT_PERCENTILE: u64 = 99;

/// Rows are counted from the first row in the two lower quadrants.
pub open spec fn from_first_row(quadrant: int) -> bool {
    quadrant >= 2
}

/// Columns are counted from the first column in the two right quadrants.
pub open spec fn from_first_col(quadrant: int) -> bool {
    quadrant % 2 == 1
}

/// The pixel of a quadrant at the outward row `r` and outward column `c`.
pub open spec fn outward_at(q: Pixels, first_row: bool, first_col: bool, r: int, c: int) -> u16 {
    q.at(
        if first_row {
            r
        } else {
            q.height() - 1 - r
        },
        if first_col {
            c
        } else {
            q.width - 1 - c
        },
    )
}

/// The outward column `c` holds a bright pixel.
pub open spec fn bright_in_col(q: Pixels, first_row: bool, first_col: bool, ts: u16, c: int) -> bool {
    exists|r: int| 0 <= r < q.height() && #[trigger] outward_at(q, first_row, first_col, r, c) >= ts
}

/// The outward row `r` holds a bright pixel.
pub open spec fn bright_in_row(q: Pixels, first_row: bool, first_col: bool, ts: u16, r: int) -> bool {
    exists|c: int| 0 <= c < q.width && #[trigger] outward_at(q, first_row, first_col, r, c) >= ts
}

/// `c` is the farthest outward column with a bright pixel, or 0 where no
/// column has one.
pub open spec fn is_farthest_col(q: Pixels, first_row: bool, first_col: bool, ts: u16, c: int) -> bool {
    &&& 0 <= c
    &&& (c == 0 || (c < q.width && bright_in_col(q, first_row, first_col, ts, c)))
    &&& forall|k: int| c < k < q.width ==> !bright_in_col(q, first_row, first_col, ts, k)
}

/// `r` is the farthest outward row with a bright pixel, or 0 where no row
/// has one.
pub open spec fn is_farthest_row(q: Pixels, first_row: bool, first_col: bool, ts: u16, r: int) -> bool {
    &&& 0 <= r
    &&& (r == 0 || (r < q.height() && bright_in_row(q, first_row, first_col, ts, r)))
    &&& forall|k: int| r < k < q.height() ==> !bright_in_row(q, first_row, first_col, ts, k)
}

/// The farthest outward column with a bright pixel.
pub open spec fn farthest_col(q: Pixels, first_row: bool, first_col: bool, ts: u16) -> int {
    choose|c: int| is_farthest_col(q, first_row, first_col, ts, c)
}

/// The farthest outward row with a bright pixel.
pub open spec fn farthest_row(q: Pixels, first_row: bool, first_col: bool, ts: u16) -> int {
    choose|r: int| is_farthest_row(q, first_row, first_col, ts, r)
}

/// A quadrant has one farthest bright column.
pub proof fn lemma_farthest_col_unique(
    q: Pixels,
    first_row: bool,
    first_col: bool,
    ts: u16,
    a: int,
    b: int,
)
    requires
        is_farthest_col(q, first_row, first_col, ts, a),
        is_farthest_col(q, first_row, first_col, ts, b),
    ensures
        a == b,
{
}

/// A quadrant has one farthest bright row.
pub proof fn lemma_farthest_row_unique(
    q: Pixels,
    first_row: bool,
    first_col: bool,
    ts: u16,
    a: int,
    b: int,
)
    requires
        is_farthest_row(q, first_row, first_col, ts, a),
        is_farthest_row(q, first_row, first_col, ts, b),
    ensures
        a == b,
{
}

/// The bright pixel at the outward row `r` and outward column `c` of
/// quadrant `k` lies farther out than every other bright pixel, and is
/// brighter than the pixels before it in its row and in its column.
pub open spec fn is_outlier(quads: Seq<Pixels>, ts: u16, k: int, r: int, c: int) -> bool {
    let q = quads[k];
    let fr = from_first_row(k);
    let fc = from_first_col(k);
    &&& quads.len() == 4
    &&& 0 <= k < 4
    &&& q.contains(r, c)
    &&& outward_at(q, fr, fc, r, c) >= ts
    &&& forall|i: int, j: int|
        q.contains(i, j) && (i > r || j > c) ==> #[trigger] outward_at(q, fr, fc, i, j) < ts
    &&& forall|j: int|
        0 <= j < c ==> #[trigger] outward_at(q, fr, fc, r, j) < outward_at(q, fr, fc, r, c)
    &&& forall|i: int|
        0 <= i < r ==> #[trigger] outward_at(q, fr, fc, i, c) < outward_at(q, fr, fc, r, c)
    &&& forall|j: int|
        0 <= j < 4 && j != k ==> #[trigger] squared_reach(quads[j], j, ts) < r * r + c * c
}

/// A single bright pixel that lies farther out than all others decides
/// the search: its quadrant is selected, and the offsets found are its
/// own. Its distance from the centre, rounded to the nearest pixel, is
/// within one pixel of the true distance.
pub proof fn lemma_outlier_selected(quads: Seq<Pixels>, ts: u16, k: int, r: int, c: int)
    requires
        is_outlier(quads, ts, k, r, c),
    ensures
        has_farthest_point(quads, ts),
        farthest_quadrant(quads, ts) == k,
        farthest_offsets(quads, ts) == (c, r),
        ({
            let n = (c + 1) * (c + 1) + (r + 1) * (r + 1);
            let d = crate::calibration::nearest_root(n);
            (d - 1) * (d - 1) < n < (d + 1) * (d + 1)
        }),
{
    let q = quads[k];
    let fr = from_first_row(k);
    let fc = from_first_col(k);
    let level = outward_at(q, fr, fc, r, c);
    assert(bright_in_row(q, fr, fc, ts, r));
    assert(bright_in_col(q, fr, fc, ts, c));
    assert forall|i: int| r < i < q.height() implies !bright_in_row(q, fr, fc, ts, i) by {
        if bright_in_row(q, fr, fc, ts, i) {
            let j = choose|j: int| 0 <= j < q.width && #[trigger] outward_at(q, fr, fc, i, j) >= ts;
            assert(q.contains(i, j));
        }
    }
    assert forall|j: int| c < j < q.width implies !bright_in_col(q, fr, fc, ts, j) by {
        if bright_in_col(q, fr, fc, ts, j) {
            let i = choose|i: int|
                0 <= i < q.height() && #[trigger] outward_at(q, fr, fc, i, j) >= ts;
            assert(q.contains(i, j));
        }
    }
    assert(is_farthest_row(q, fr, fc, ts, r));
    assert(is_farthest_col(q, fr, fc, ts, c));
    lemma_farthest_row_unique(q, fr, fc, ts, r, farthest_row(q, fr, fc, ts));
    lemma_farthest_col_unique(q, fr, fc, ts, c, farthest_col(q, fr, fc, ts));
    assert(squared_reach(q, k, ts) == r * r + c * c);
    assert(is_farthest_quadrant(quads, ts, k));
    lemma_farthest_quadrant_unique(quads, ts, k, farthest_quadrant(quads, ts));
    assert(is_brightest_col(q, fr, fc, r, c + 1, c));
    assert(is_brightest_row(q, fr, fc, c, r + 1, r));
    lemma_brightest_col_unique(q, fr, fc, r, c + 1, c, brightest_col_of(q, fr, fc, r, c + 1));
    lemma_brightest_row_unique(q, fr, fc, c, r + 1, r, brightest_row_of(q, fr, fc, c, r + 1));
    let n = (c + 1) * (c + 1) + (r + 1) * (r + 1);
    assert(n >= 2) by (nonlinear_arith)
        requires
            n == (c + 1) * (c + 1) + (r + 1) * (r + 1),
            c >= 0,
            r >= 0,
    ;
    crate::calibration::lemma_nearest_root_exists(n as nat);
    let d = crate::calibration::nearest_root(n);
    assert((d - 1) * (d - 1) < n < (d + 1) * (d + 1)) by (nonlinear_arith)
        requires
            crate::arith::is_nearest_sqrt(n, d),
            n >= 2,
    ;
}

/// The pixel of a quadrant at an outward position.
fn outward_pixel(arr: &U16Array, first_row: bool, first_col: bool, r: usize, c: usize) -> (v: u16)
    requires
        arr@.contains(r as int, c as int),
    ensures
        v == outward_at(arr@, first_row, first_col, r as int, c as int),
{
    let nrows = arr.nrows();
    let ncols = arr.ncols();
    arr.at(
        if first_row {
            r
        } else {
            nrows - 1 - r
        },
        if first_col {
            c
        } else {
            ncols - 1 - c
        },
    )
}

/// Whether the outward column `c` holds a bright pixel.
fn col_has_bright(arr: &U16Array, first_row: bool, first_col: bool, ts: u16, c: usize) -> (found: bool)
    requires
        c < arr@.width,
    ensures
        found == bright_in_col(arr@, first_row, first_col, ts, c as int),
{
    let nrows = arr.nrows();
    let mut r: usize = 0;
    while r < nrows
        invariant
            r <= nrows == arr@.height(),
            c < arr@.width,
            forall|k: int|
                0 <= k < r ==> #[trigger] outward_at(arr@, first_row, first_col, k, c as int) < ts,
        decreases nrows - r,
    {
        if outward_pixel(arr, first_row, first_col, r, c) >= ts {
            return true;
        }
        r = r + 1;
    }
    false
}

/// Whether the outward row `r` holds a bright pixel.
fn row_has_bright(arr: &U16Array, first_row: bool, first_col: bool, ts: u16, r: usize) -> (found: bool)
    requires
        r < arr@.height(),
    ensures
        found == bright_in_row(arr@, first_row, first_col, ts, r as int),
{
    let ncols = arr.ncols();
    let mut c: usize = 0;
    while c < ncols
        invariant
            c <= ncols == arr@.width,
            r < arr@.height(),
            forall|k: int|
                0 <= k < c ==> #[trigger] outward_at(arr@, first_row, first_col, r as int, k) < ts,
        decreases ncols - c,
    {
        if outward_pixel(arr, first_row, first_col, r, c) >= ts {
            return true;
        }
        c = c + 1;
    }
    false
}

/// The farthest outward row and the farthest outward column that hold a
/// pixel of at least `white_ts`; each is 0 where there is none.
pub fn find_farthest_white(arr: &U16Array, first_row: bool, first_col: bool, white_ts: u16) -> (reach: (
    usize,
    usize,
))
    ensures
        reach.0 == farthest_row(arr@, first_row, first_col, white_ts),
        reach.1 == farthest_col(arr@, first_row, first_col, white_ts),
        is_farthest_row(arr@, first_row, first_col, white_ts, reach.0 as int),
        is_farthest_col(arr@, first_row, first_col, white_ts, reach.1 as int),
        reach.0 == 0 || reach.0 < arr@.height(),
        reach.1 == 0 || reach.1 < arr@.width,
{
    let nrows = arr.nrows();
    let ncols = arr.ncols();
    let mut far_col: usize = 0;
    let mut c: usize = 0;
    while c < ncols
        invariant
            c <= ncols == arr@.width,
            far_col == 0 || (far_col < c && bright_in_col(
                arr@,
                first_row,
                first_col,
                white_ts,
                far_col as int,
            )),
            forall|k: int|
                far_col < k < c ==> !bright_in_col(arr@, first_row, first_col, white_ts, k),
        decreases ncols - c,
    {
        if col_has_bright(arr, first_row, first_col, white_ts, c) {
            far_col = c;
        }
        c = c + 1;
    }
    let mut far_row: usize = 0;
    let mut r: usize = 0;
    while r < nrows
        invariant
            r <= nrows == arr@.height(),
            far_row == 0 || (far_row < r && bright_in_row(
                arr@,
                first_row,
                first_col,
                white_ts,
                far_row as int,
            )),
            forall|k: int|
                far_row < k < r ==> !bright_in_row(arr@, first_row, first_col, white_ts, k),
        decreases nrows - r,
    {
        if row_has_bright(arr, first_row, first_col, white_ts, r) {
            far_row = r;
        }
        r = r + 1;
    }
    proof {
        assert(is_farthest_col(arr@, first_row, first_col, white_ts, far_col as int));
        assert(is_farthest_row(arr@, first_row, first_col, white_ts, far_row as int));
        lemma_farthest_col_unique(
            arr@,
            first_row,
            first_col,
            white_ts,
            far_col as int,
            farthest_col(arr@, first_row, first_col, white_ts),
        );
        lemma_farthest_row_unique(
            arr@,
            first_row,
            first_col,
            white_ts,
            far_row as int,
            farthest_row(arr@, first_row, first_col, white_ts),
        );
    }
    (far_row, far_col)
}

/// The squared reach of a quadrant: the squares of its farthest bright
/// row and of its farthest bright column, added.
pub open spec fn squared_reach(q: Pixels, quadrant: int, ts: u16) -> int {
    let r = farthest_row(q, from_first_row(quadrant), from_first_col(quadrant), ts);
    let c = farthest_col(q, from_first_row(quadrant), from_first_col(quadrant), ts);
    r * r + c * c
}

/// `winner` is the quadrant of the largest squared reach; among several,
/// the last.
pub open spec fn is_farthest_quadrant(quads: Seq<Pixels>, ts: u16, winner: int) -> bool {
    &&& 0 <= winner < 4
    &&& forall|k: int|
        0 <= k < 4 ==> #[trigger] squared_reach(quads[k], k, ts) <= squared_reach(
            quads[winner],
            winner,
            ts,
        )
    &&& forall|k: int|
        winner < k < 4 ==> #[trigger] squared_reach(quads[k], k, ts) < squared_reach(
            quads[winner],
            winner,
            ts,
        )
}

/// The quadrant of the largest squared reach.
pub open spec fn farthest_quadrant(quads: Seq<Pixels>, ts: u16) -> int {
    choose|winner: int| is_farthest_quadrant(quads, ts, winner)
}

/// `i` is the outward column, among the first `n`, of the last largest
/// pixel of the outward row `r`.
pub open spec fn is_brightest_col(q: Pixels, first_row: bool, first_col: bool, r: int, n: int, i: int) -> bool {
    &&& 0 <= i < n
    &&& forall|k: int|
        0 <= k < n ==> #[trigger] outward_at(q, first_row, first_col, r, k) <= outward_at(
            q,
            first_row,
            first_col,
            r,
            i,
        )
    &&& forall|k: int|
        i < k < n ==> #[trigger] outward_at(q, first_row, first_col, r, k) < outward_at(
            q,
            first_row,
            first_col,
            r,
            i,
        )
}

/// `i` is the outward row, among the first `n`, of the last largest pixel
/// of the outward column `c`.
pub open spec fn is_brightest_row(q: Pixels, first_row: bool, first_col: bool, c: int, n: int, i: int) -> bool {
    &&& 0 <= i < n
    &&& forall|k: int|
        0 <= k < n ==> #[trigger] outward_at(q, first_row, first_col, k, c) <= outward_at(
            q,
            first_row,
            first_col,
            i,
            c,
        )
    &&& forall|k: int|
        i < k < n ==> #[trigger] outward_at(q, first_row, first_col, k, c) < outward_at(
            q,
            first_row,
            first_col,
            i,
            c,
        )
}

/// The outward column, among the first `n`, of the last largest pixel of
/// the outward row `r`.
pub open spec fn brightest_col_of(q: Pixels, first_row: bool, first_col: bool, r: int, n: int) -> int {
    choose|i: int| is_brightest_col(q, first_row, first_col, r, n, i)
}

/// The outward row, among the first `n`, of the last largest pixel of the
/// outward column `c`.
pub open spec fn brightest_row_of(q: Pixels, first_row: bool, first_col: bool, c: int, n: int) -> int {
    choose|i: int| is_brightest_row(q, first_row, first_col, c, n, i)
}

/// A row has one last largest pixel.
pub proof fn lemma_brightest_col_unique(
    q: Pixels,
    first_row: bool,
    first_col: bool,
    r: int,
    n: int,
    a: int,
    b: int,
)
    requires
        is_brightest_col(q, first_row, first_col, r, n, a),
        is_brightest_col(q, first_row, first_col, r, n, b),
    ensures
        a == b,
{
    if a < b {
        assert(outward_at(q, first_row, first_col, r, b) < outward_at(q, first_row, first_col, r, a));
        assert(outward_at(q, first_row, first_col, r, a) <= outward_at(q, first_row, first_col, r, b));
    } else if b < a {
        assert(outward_at(q, first_row, first_col, r, a) < outward_at(q, first_row, first_col, r, b));
        assert(outward_at(q, first_row, first_col, r, b) <= outward_at(q, first_row, first_col, r, a));
    }
}

/// A column has one last largest pixel.
pub proof fn lemma_brightest_row_unique(
    q: Pixels,
    first_row: bool,
    first_col: bool,
    c: int,
    n: int,
    a: int,
    b: int,
)
    requires
        is_brightest_row(q, first_row, first_col, c, n, a),
        is_brightest_row(q, first_row, first_col, c, n, b),
    ensures
        a == b,
{
    if a < b {
        assert(outward_at(q, first_row, first_col, b, c) < outward_at(q, first_row, first_col, a, c));
        assert(outward_at(q, first_row, first_col, a, c) <= outward_at(q, first_row, first_col, b, c));
    } else if b < a {
        assert(outward_at(q, first_row, first_col, a, c) < outward_at(q, first_row, first_col, b, c));
        assert(outward_at(q, first_row, first_col, b, c) <= outward_at(q, first_row, first_col, a, c));
    }
}

/// The offsets, from the row and the column next to the centre, of the
/// farthest bright point of the farthest quadrant: the brightest column
/// of its farthest bright row, and the brightest row of its farthest
/// bright column.
pub open spec fn farthest_offsets(quads: Seq<Pixels>, ts: u16) -> (int, int) {
    let winner = farthest_quadrant(quads, ts);
    let q = quads[winner];
    let fr = from_first_row(winner);
    let fc = from_first_col(winner);
    let r = farthest_row(q, fr, fc, ts);
    let c = farthest_col(q, fr, fc, ts);
    (brightest_col_of(q, fr, fc, r, c + 1), brightest_row_of(q, fr, fc, c, r + 1))
}

/// What [`farthest_q`] returns for quadrants that hold pixels: the
/// quadrant of the largest reach and, in outward positions of that
/// quadrant, its farthest bright row with the brightest column of that
/// row, and the brightest row of its farthest bright column with that
/// column.
pub open spec fn is_farthest_point(
    quads: Seq<Pixels>,
    ts: u16,
    winner: int,
    point: [[usize; 2]; 2],
) -> bool {
    let q = quads[winner];
    let fr = from_first_row(winner);
    let fc = from_first_col(winner);
    &&& is_farthest_quadrant(quads, ts, winner)
    &&& winner == farthest_quadrant(quads, ts)
    &&& point[0][0] == farthest_row(q, fr, fc, ts)
    &&& point[1][1] == farthest_col(q, fr, fc, ts)
    &&& is_brightest_col(q, fr, fc, point[0][0] as int, point[1][1] + 1, point[0][1] as int)
    &&& is_brightest_row(q, fr, fc, point[1][1] as int, point[0][0] + 1, point[1][0] as int)
    &&& farthest_offsets(quads, ts) == (point[0][1] as int, point[1][0] as int)
}

/// There are four quadrants, and the one of the largest reach holds
/// pixels.
pub open spec fn has_farthest_point(quads: Seq<Pixels>, ts: u16) -> bool {
    &&& quads.len() == 4
    &&& 0 <= farthest_quadrant(quads, ts) < 4
    &&& !quads[farthest_quadrant(quads, ts)].is_empty()
}

/// There is one farthest quadrant.
pub proof fn lemma_farthest_quadrant_unique(quads: Seq<Pixels>, ts: u16, a: int, b: int)
    requires
        is_farthest_quadrant(quads, ts, a),
        is_farthest_quadrant(quads, ts, b),
    ensures
        a == b,
{
    if a < b {
        assert(squared_reach(quads[b], b, ts) < squared_reach(quads[a], a, ts));
        assert(squared_reach(quads[a], a, ts) <= squared_reach(quads[b], b, ts));
    } else if b < a {
        assert(squared_reach(quads[a], a, ts) < squared_reach(quads[b], b, ts));
        assert(squared_reach(quads[b], b, ts) <= squared_reach(quads[a], a, ts));
    }
}

/// The outward column, among the first `n`, of the last largest pixel of
/// the outward row `r`.
fn brightest_col(arr: &U16Array, first_row: bool, first_col: bool, r: usize, n: usize) -> (at: usize)
    requires
        r < arr@.height(),
        0 < n <= arr@.width,
    ensures
        is_brightest_col(arr@, first_row, first_col, r as int, n as int, at as int),
{
    let mut best: usize = 0;
    let mut best_value = outward_pixel(arr, first_row, first_col, r, 0);
    let mut k: usize = 1;
    while k < n
        invariant
            1 <= k <= n <= arr@.width,
            r < arr@.height(),
            best < k,
            best_value == outward_at(arr@, first_row, first_col, r as int, best as int),
            forall|j: int|
                0 <= j < k ==> #[trigger] outward_at(arr@, first_row, first_col, r as int, j)
                    <= best_value,
            forall|j: int|
                best < j < k ==> #[trigger] outward_at(arr@, first_row, first_col, r as int, j)
                    < best_value,
        decreases n - k,
    {
        let value = outward_pixel(arr, first_row, first_col, r, k);
        if value >= best_value {
            best = k;
            best_value = value;
        }
        k = k + 1;
    }
    best
}

/// The outward row, among the first `n`, of the last largest pixel of the
/// outward column `c`.
fn brightest_row(arr: &U16Array, first_row: bool, first_col: bool, c: usize, n: usize) -> (at: usize)
    requires
        c < arr@.width,
        0 < n <= arr@.height(),
    ensures
        is_brightest_row(arr@, first_row, first_col, c as int, n as int, at as int),
{
    let mut best: usize = 0;
    let mut best_value = outward_pixel(arr, first_row, first_col, 0, c);
    let mut k: usize = 1;
    while k < n
        invariant
            1 <= k <= n <= arr@.height(),
            c < arr@.width,
            best < k,
            best_value == outward_at(arr@, first_row, first_col, best as int, c as int),
            forall|j: int|
                0 <= j < k ==> #[trigger] outward_at(arr@, first_row, first_col, j, c as int)
                    <= best_value,
            forall|j: int|
                best < j < k ==> #[trigger] outward_at(arr@, first_row, first_col, j, c as int)
                    < best_value,
        decreases n - k,
    {
        let value = outward_pixel(arr, first_row, first_col, k, c);
        if value >= best_value {
            best = k;
            best_value = value;
        }
        k = k + 1;
    }
    best
}

/// Picks, among the quadrants top-left, top-right, bottom-left and
/// bottom-right, the one whose bright pixels reach farthest from the
/// centre, and finds in it the farthest bright position.
///
/// The reach of a quadrant is measured by its farthest bright row and its
/// farthest bright column, taken independently; of two quadrants with the
/// same reach the later one is picked. Another number of quadrants than
/// four, and a picked quadrant without pixels, are index-range errors.
pub fn farthest_q(q_arr: &Vec<U16Array>, white_ts: u16) -> (found: Result<
    (usize, [[usize; 2]; 2]),
    GeometryError,
>)
    ensures
        found.is_ok() <==> has_farthest_point(pixels_of(q_arr@), white_ts),
        found matches Err(e) ==> e == GeometryError::IndexRange,
        found matches Ok(f) ==> is_farthest_point(
            pixels_of(q_arr@),
            white_ts,
            f.0 as int,
            f.1,
        ),
{
    if q_arr.len() != 4 {
        return Err(GeometryError::IndexRange);
    }
    let ghost quads = pixels_of(q_arr@);
    let mut winner: usize = 0;
    let mut best: u128 = 0;
    let mut row_idx: usize = 0;
    let mut col_idx: usize = 0;
    let mut i: usize = 0;
    while i < 4
        invariant
            i <= 4,
            q_arr@.len() == 4,
            quads == pixels_of(q_arr@),
            i == 0 ==> winner == 0 && best == 0,
            i > 0 ==> winner < i,
            i > 0 ==> best == squared_reach(quads[winner as int], winner as int, white_ts),
            i > 0 ==> row_idx == farthest_row(
                quads[winner as int],
                from_first_row(winner as int),
                from_first_col(winner as int),
                white_ts,
            ),
            i > 0 ==> col_idx == farthest_col(
                quads[winner as int],
                from_first_row(winner as int),
                from_first_col(winner as int),
                white_ts,
            ),
            i > 0 ==> (row_idx == 0 || row_idx < quads[winner as int].height()),
            i > 0 ==> (col_idx == 0 || col_idx < quads[winner as int].width),
            forall|k: int| 0 <= k < i ==> #[trigger] squared_reach(quads[k], k, white_ts) <= best,
            forall|k: int| winner < k < i ==> #[trigger] squared_reach(quads[k], k, white_ts) < best,
        decreases 4 - i,
    {
        assert(quads[i as int] == q_arr@[i as int]@);
        let h = q_arr[i].nrows();
        let w = q_arr[i].ncols();
        let (r, c) = find_farthest_white(&q_arr[i], i >= 2, i % 2 == 1, white_ts);
        assert(r * r <= 0x8000_0000_0000_0000 * 0x8000_0000_0000_0000) by (nonlinear_arith)
            requires
                0 <= r <= 0x8000_0000_0000_0000,
        ;
        assert(c * c <= 0x8000_0000_0000_0000 * 0x8000_0000_0000_0000) by (nonlinear_arith)
            requires
                0 <= c <= 0x8000_0000_0000_0000,
        ;
        let d: u128 = (r as u128) * (r as u128) + (c as u128) * (c as u128);
        if d >= best {
            best = d;
            winner = i;
            row_idx = r;
            col_idx = c;
        }
        i = i + 1;
    }
    proof {
        assert(is_farthest_quadrant(quads, white_ts, winner as int));
        lemma_farthest_quadrant_unique(
            quads,
            white_ts,
            winner as int,
            farthest_quadrant(quads, white_ts),
        );
        assert(quads[winner as int] == q_arr@[winner as int]@);
    }
    let quadrant = &q_arr[winner];
    if quadrant.nrows() == 0 || quadrant.ncols() == 0 {
        return Err(GeometryError::IndexRange);
    }
    let first_row = winner >= 2;
    let first_col = winner % 2 == 1;
    let along_row = brightest_col(quadrant, first_row, first_col, row_idx, col_idx + 1);
    let along_col = brightest_row(quadrant, first_row, first_col, col_idx, row_idx + 1);
    let point = [[row_idx, along_row], [along_col, col_idx]];
    proof {
        let q = quads[winner as int];
        lemma_brightest_col_unique(
            q,
            first_row,
            first_col,
            row_idx as int,
            col_idx + 1,
            along_row as int,
            brightest_col_of(q, first_row, first_col, row_idx as int, col_idx + 1),
        );
        lemma_brightest_row_unique(
            q,
            first_row,
            first_col,
            col_idx as int,
            row_idx + 1,
            along_col as int,
            brightest_row_of(q, first_row, first_col, col_idx as int, row_idx + 1),
        );
    }
    Ok((winner, point))
}

/// The position `(x, y)` in the target of the point that lies `x_offset`
/// columns and `y_offset` rows outward, in quadrant `q`, from the row and
/// the column next to the centre `(xc, yc)`.
///
/// A quadrant number above 3 leaves the offsets as they are. A negative
/// coordinate is an index-range error.
pub open spec fn target_point_spec(x_offset: int, y_offset: int, q: int, xc: int, yc: int) -> Result<
    (usize, usize),
    GeometryError,
> {
    let px = if q == 0 || q == 2 {
        xc - 1 - x_offset
    } else if q == 1 || q == 3 {
        xc + 1 + x_offset
    } else {
        x_offset
    };
    let py = if q == 0 || q == 1 {
        yc - 1 - y_offset
    } else if q == 2 || q == 3 {
        yc + 1 + y_offset
    } else {
        y_offset
    };
    if px < 0 || py < 0 || px > usize::MAX || py > usize::MAX {
        Err(GeometryError::IndexRange)
    } else {
        Ok((px as usize, py as usize))
    }
}

/// What [`center_point`] returns: the position in the target of the
/// farthest bright point of quadrant `q`, whose column offset is
/// `farthest_point[0][1]` and whose row offset is `farthest_point[1][0]`.
pub open spec fn center_point_spec(farthest_point: [[usize; 2]; 2], q: usize, xc: int, yc: int) -> Result<
    (usize, usize),
    GeometryError,
> {
    target_point_spec(
        farthest_point[0][1] as int,
        farthest_point[1][0] as int,
        q as int,
        xc,
        yc,
    )
}

/// The position in the target of the farthest bright point.
pub fn center_point(farthest_point: [[usize; 2]; 2], q: usize, xc: i32, yc: i32) -> (point: Result<
    (usize, usize),
    GeometryError,
>)
    ensures
        point == center_point_spec(farthest_point, q, xc as int, yc as int),
{
    let x = farthest_point[0][1] as i128;
    let y = farthest_point[1][0] as i128;
    let px: i128 = if q == 0 || q == 2 {
        xc as i128 - 1 - x
    } else if q == 1 || q == 3 {
        xc as i128 + 1 + x
    } else {
        x
    };
    let py: i128 = if q == 0 || q == 1 {
        yc as i128 - 1 - y
    } else if q == 2 || q == 3 {
        yc as i128 + 1 + y
    } else {
        y
    };
    if px < 0 || py < 0 || px > usize::MAX as i128 || py > usize::MAX as i128 {
        Err(GeometryError::IndexRange)
    } else {
        Ok((px as usize, py as usize))
    }
}

/// What [`find_center_circle_line`] returns: the column and the row of
/// the target's centre.
///
/// The row is the mean, rounded up, of the rows that a strip at the left
/// and a strip at the right vote for; the column is the mean, rounded up,
/// of the columns that a strip at the top and a strip at the bottom vote
/// for. The strips leave out a fifth of the target at either end.
pub open spec fn circle_center_spec(p: Pixels) -> Result<(i32, i32), GeometryError> {
    let h = p.height() as int;
    let w = p.width as int;
    let hp = h / 5;
    let wp = 5 * w / 100;
    if h > i32::MAX || w > i32::MAX {
        Err(GeometryError::IndexRange)
    } else {
        match strip_vote_spec(
            p,
            Strip { r0: hp as i64, r1: (h - hp) as i64, c0: wp as i64, c1: (4 * wp) as i64 },
            0,
        ) {
            Err(e) => Err(e),
            Ok(y1) => match strip_vote_spec(
                p,
                Strip {
                    r0: hp as i64,
                    r1: (h - hp) as i64,
                    c0: (w - 2 * wp) as i64,
                    c1: w as i64,
                },
                0,
            ) {
                Err(e) => Err(e),
                Ok(y2) => match strip_vote_spec(
                    p,
                    Strip {
                        r0: wp as i64,
                        r1: (3 * wp) as i64,
                        c0: hp as i64,
                        c1: (h - hp) as i64,
                    },
                    1,
                ) {
                    Err(e) => Err(e),
                    Ok(x1) => match strip_vote_spec(
                        p,
                        Strip {
                            r0: (w - 2 * wp) as i64,
                            r1: w as i64,
                            c0: hp as i64,
                            c1: (h - hp) as i64,
                        },
                        1,
                    ) {
                        Err(e) => Err(e),
                        Ok(x2) => Ok((((x1 + x2 + 1) / 2) as i32, ((y1 + y2 + 1) / 2) as i32)),
                    },
                },
            },
        }
    }
}

/// Finds the centre of the target in the square cut out around it.
pub fn find_center_circle_line(arr: &U16Array) -> (center: Result<(i32, i32), GeometryError>)
    ensures
        center == circle_center_spec(arr@),
        center matches Ok(c) ==> 0 <= c.0 <= arr@.width && 0 <= c.1 <= arr@.height(),
{
    let h = arr.nrows();
    let w = arr.ncols();
    if h > i32::MAX as usize || w > i32::MAX as usize {
        return Err(GeometryError::IndexRange);
    }
    let h = h as i64;
    let w = w as i64;
    let hp: i64 = h / 5;
    let wp: i64 = 5 * w / 100;
    let y1 = strip_vote(arr, Strip { r0: hp, r1: h - hp, c0: wp, c1: 4 * wp }, 0)?;
    let y2 = strip_vote(arr, Strip { r0: hp, r1: h - hp, c0: w - 2 * wp, c1: w }, 0)?;
    let x1 = strip_vote(arr, Strip { r0: wp, r1: 3 * wp, c0: hp, c1: h - hp }, 1)?;
    let x2 = strip_vote(arr, Strip { r0: w - 2 * wp, r1: w, c0: hp, c1: h - hp }, 1)?;
    Ok((((x1 + x2 + 1) / 2) as i32, ((y1 + y2 + 1) / 2) as i32))
}

/// The intensity from which a pixel of the target counts as bright: the
/// 99th percentile of its intensities, rounded down.
pub open spec fn white_threshold(p: Pixels) -> int {
    crate::levels::percentile_hundredths(p.flat_levels(), BRIGHT_PERCENTILE as int) / 100
}

/// The four quadrants of the target around the centre `(xc, yc)`: the
/// pixels above and below the centre's row, left and right of the
/// centre's column, in the order top-left, top-right, bottom-left,
/// bottom-right.
pub open spec fn quadrants_spec(p: Pixels, xc: int, yc: int) -> Seq<Pixels> {
    seq![
        p.window(0, yc, 0, xc),
        p.window(0, yc, xc + 1, p.width as int),
        p.window(yc + 1, p.height() as int, 0, xc),
        p.window(yc + 1, p.height() as int, xc + 1, p.width as int),
    ]
}

/// The square around the centre of the reference frame that holds the
/// target, as a strip of the grid.
pub open spec fn target_strip(xpoints: Seq<i32>, ypoints: Seq<i32>, radius: int) -> Strip {
    Strip {
        r0: (ypoints[1] - radius) as i64,
        r1: (ypoints[1] + radius) as i64,
        c0: (xpoints[1] - radius) as i64,
        c1: (xpoints[1] + radius) as i64,
    }
}

/// What [`split_q_circle`] returns: the target, its four quadrants, the
/// bright threshold and the target's centre.
///
/// The target is the square of 0.9 cm to either side of the frame's
/// centre. A target that does not lie in the grid, one without pixels, and
/// a centre without a row and a column on either side are index-range
/// errors.
pub open spec fn split_spec(xpoints: Seq<i32>, ypoints: Seq<i32>, p: Pixels) -> Result<
    (Pixels, Seq<Pixels>, u16, (i32, i32)),
    GeometryError,
> {
    match cm2pixel_spec(ypoints, TARGET_RADIUS as int) {
        Err(e) => Err(e),
        Ok(radius) => if xpoints.len() < 3 {
            Err(GeometryError::IndexRange)
        } else {
            let strip = target_strip(xpoints, ypoints, radius as int);
            if !p.has_window(strip.r0 as int, strip.r1 as int, strip.c0 as int, strip.c1 as int) {
                Err(GeometryError::IndexRange)
            } else {
                let target = p.window(
                    strip.r0 as int,
                    strip.r1 as int,
                    strip.c0 as int,
                    strip.c1 as int,
                );
                if target.is_empty() {
                    Err(GeometryError::IndexRange)
                } else {
                    match circle_center_spec(target) {
                        Err(e) => Err(e),
                        Ok(center) => if center.0 + 1 > target.width || center.1 + 1
                            > target.height() {
                            Err(GeometryError::IndexRange)
                        } else {
                            Ok(
                                (
                                    target,
                                    quadrants_spec(target, center.0 as int, center.1 as int),
                                    white_threshold(target) as u16,
                                    center,
                                ),
                            )
                        },
                    }
                }
            }
        },
    }
}

/// A percentile of intensities is an intensity.
pub proof fn lemma_percentile_of_pixels(s: Seq<u64>, q: int)
    requires
        s.len() > 0,
        0 <= q <= 100,
        forall|i: int| 0 <= i < s.len() ==> #[trigger] s[i] <= u16::MAX,
    ensures
        0 <= crate::levels::percentile_hundredths(s, q) <= 100 * u16::MAX,
{
    crate::levels::lemma_ascending(s);
    let t = crate::levels::ascending(s);
    assert forall|i: int| 0 <= i < t.len() implies #[trigger] t[i] <= u16::MAX by {
        s.to_multiset_ensures();
        t.to_multiset_ensures();
        assert(t.to_multiset().count(t[i]) > 0);
        assert(s.to_multiset().count(t[i]) > 0);
        assert(s.contains(t[i]));
    }
    let place = q * (s.len() - 1);
    assert(0 <= place <= 100 * (s.len() - 1)) by (nonlinear_arith)
        requires
            place == q * (s.len() - 1),
            0 <= q <= 100,
            s.len() >= 1,
    ;
    let lower = place / 100;
    let part = place % 100;
    if part != 0 {
        assert(lower + 1 < t.len());
        assert(t[lower] <= t[lower + 1]);
        assert((t[lower + 1] - t[lower]) * part <= (t[lower + 1] - t[lower]) * 100)
            by (nonlinear_arith)
            requires
                0 <= part <= 100,
                0 <= t[lower + 1] - t[lower],
        ;
        assert((t[lower + 1] - t[lower]) * part >= 0) by (nonlinear_arith)
            requires
                0 <= part,
                0 <= t[lower + 1] - t[lower],
        ;
    }
}

/// Cuts the target out of the grid and splits it into four quadrants at
/// its own centre.
pub fn split_q_circle(xpoints: &Vec<i32>, ypoints: &Vec<i32>, arr: &U16Array) -> (split: Result<
    (U16Array, Vec<U16Array>, u16, (i32, i32)),
    GeometryError,
>)
    ensures
        split matches Ok(s) ==> split_spec(xpoints@, ypoints@, arr@) == Ok::<
            (Pixels, Seq<Pixels>, u16, (i32, i32)),
            GeometryError,
        >((s.0@, pixels_of(s.1@), s.2, s.3)),
        split matches Err(e) ==> split_spec(xpoints@, ypoints@, arr@) == Err::<
            (Pixels, Seq<Pixels>, u16, (i32, i32)),
            GeometryError,
        >(e),
        split matches Ok(s) ==> s.1@.len() == 4 && s.3.0 >= 0 && s.3.1 >= 0,
{
    let radius = cm2pixel(ypoints, TARGET_RADIUS)?;
    if xpoints.len() < 3 {
        return Err(GeometryError::IndexRange);
    }
    let x = xpoints[1] as i64;
    let y = ypoints[1] as i64;
    let r = radius as i64;
    let circle_arr = arr.crop(y - r, y + r, x - r, x + r)?;
    let levels = circle_arr.to_levels();
    let h = circle_arr.nrows();
    let w = circle_arr.ncols();
    if h == 0 || w == 0 {
        return Err(GeometryError::IndexRange);
    }
    proof {
        assert(h * w > 0) by (nonlinear_arith)
            requires
                h > 0,
                w > 0,
        ;
        lemma_percentile_of_pixels(levels@, BRIGHT_PERCENTILE as int);
    }
    let hundredths = percentile(&levels, BRIGHT_PERCENTILE)?;
    let white_ts = (hundredths / 100) as u16;
    let (xc, yc) = find_center_circle_line(&circle_arr)?;
    if xc as i64 + 1 > w as i64 || yc as i64 + 1 > h as i64 {
        return Err(GeometryError::IndexRange);
    }
    let top_left = circle_arr.crop(0, yc as i64, 0, xc as i64)?;
    let top_right = circle_arr.crop(0, yc as i64, xc as i64 + 1, w as i64)?;
    let bottom_left = circle_arr.crop(yc as i64 + 1, h as i64, 0, xc as i64)?;
    let bottom_right = circle_arr.crop(yc as i64 + 1, h as i64, xc as i64 + 1, w as i64)?;
    let ghost quads = seq![top_left@, top_right@, bottom_left@, bottom_right@];
    let mut quadrants: Vec<U16Array> = Vec::new();
    quadrants.push(top_left);
    quadrants.push(top_right);
    quadrants.push(bottom_left);
    quadrants.push(bottom_right);
    proof {
        assert(pixels_of(quadrants@) =~= quads);
        assert(quads =~= quadrants_spec(circle_arr@, xc as int, yc as int));
    }
    Ok((circle_arr, quadrants, white_ts, (xc, yc)))
}

} // verus!
