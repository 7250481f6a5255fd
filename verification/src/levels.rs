//! Order statistics and searches on sequences of intensity levels.
//!
//! Medians are kept doubled, percentiles in hundredths and peak fractions
//! in tenths, so that every comparison is exact.
use vstd::prelude::*;
use vstd::relations::{sorted_by, total_ordering};
use vstd::seq_lib::lemma_sorted_unique;
use crate::error::GeometryError;

verus! {

/// The order of levels.
pub open spec fn level_leq() -> spec_fn(u64, u64) -> bool {
    |a: u64, b: u64| a <= b
}

/// No level of `s` is followed by a smaller one.
pub open spec fn is_ascending(s: Seq<u64>) -> bool {
    forall|i: int, j: int| 0 <= i < j < s.len() ==> s[i] <= s[j]
}

/// The levels of `s` in ascending order.
pub open spec fn ascending(s: Seq<u64>) -> Seq<u64> {
    s.sort_by(level_leq())
}

/// `v` limited to the range of `u64`.
pub open spec fn clamp_u64(v: int) -> int {
    if v > u64::MAX {
        u64::MAX as int
    } else {
        v
    }
}

/// Twice the median of a sequence that is not empty: twice the middle
/// level where the length is odd, the sum of the two middle levels where
/// it is even; limited to the range of `u64`.
pub open spec fn doubled_median(s: Seq<u64>) -> int {
    let t = ascending(s);
    if s.len() % 2 == 1 {
        clamp_u64(2 * t[s.len() as int / 2])
    } else {
        clamp_u64(t[s.len() as int / 2 - 1] + t[s.len() as int / 2])
    }
}

/// `i` is the position of the first largest level of `s`.
pub open spec fn is_first_max(s: Seq<u64>, i: int) -> bool {
    &&& 0 <= i < s.len()
    &&& forall|j: int| 0 <= j < s.len() ==> s[j] <= s[i]
    &&& forall|j: int| 0 <= j < i ==> s[j] < s[i]
}

/// The position of the first largest level of `s`; 0 for an empty sequence.
pub open spec fn first_max(s: Seq<u64>) -> int {
    if s.len() == 0 {
        0
    } else {
        choose|i: int| is_first_max(s, i)
    }
}

/// The largest level of `s`; 0 for an empty sequence.
pub open spec fn max_level(s: Seq<u64>) -> int {
    if s.len() == 0 {
        0
    } else {
        s[first_max(s)] as int
    }
}

/// `i` is the position of the first smallest level of `s`.
pub open spec fn is_first_min(s: Seq<u64>, i: int) -> bool {
    &&& 0 <= i < s.len()
    &&& forall|j: int| 0 <= j < s.len() ==> s[j] >= s[i]
    &&& forall|j: int| 0 <= j < i ==> s[j] > s[i]
}

/// The position of the first smallest level of `s`; 0 for an empty
/// sequence.
pub open spec fn first_min(s: Seq<u64>) -> int {
    if s.len() == 0 {
        0
    } else {
        choose|i: int| is_first_min(s, i)
    }
}

/// The level `v`, taken `scale` times, reaches the threshold `t`.
pub open spec fn reaches(v: u64, scale: int, t: int) -> bool {
    scale * v >= t
}

/// `i` is the first position in `from..to` whose level reaches `t`.
pub open spec fn is_first_reaching(s: Seq<u64>, from: int, to: int, scale: int, t: int, i: int) -> bool {
    &&& from <= i < to
    &&& reaches(s[i], scale, t)
    &&& forall|j: int| from <= j < i ==> !reaches(#[trigger] s[j], scale, t)
}

/// `i` is the last position in `from..to` whose level reaches `t`.
pub open spec fn is_last_reaching(s: Seq<u64>, from: int, to: int, scale: int, t: int, i: int) -> bool {
    &&& from <= i < to
    &&& reaches(s[i], scale, t)
    &&& forall|j: int| i < j < to ==> !reaches(#[trigger] s[j], scale, t)
}

/// Some level in `from..to` reaches `t`.
pub open spec fn some_reaching(s: Seq<u64>, from: int, to: int, scale: int, t: int) -> bool {
    exists|i: int| from <= i < to && reaches(#[trigger] s[i], scale, t)
}

/// The first position in `from..to` whose level reaches `t`.
pub open spec fn first_reaching(s: Seq<u64>, from: int, to: int, scale: int, t: int) -> Option<int> {
    if some_reaching(s, from, to, scale, t) {
        Some(choose|i: int| is_first_reaching(s, from, to, scale, t, i))
    } else {
        None
    }
}

/// The last position in `from..to` whose level reaches `t`.
pub open spec fn last_reaching(s: Seq<u64>, from: int, to: int, scale: int, t: int) -> Option<int> {
    if some_reaching(s, from, to, scale, t) {
        Some(choose|i: int| is_last_reaching(s, from, to, scale, t, i))
    } else {
        None
    }
}

/// The `q`-th percentile of a sequence that is not empty, in hundredths.
///
/// With the levels in ascending order, the percentile lies at rank
/// `q (n - 1) / 100`; between two ranks it is interpolated linearly.
pub open spec fn percentile_hundredths(s: Seq<u64>, q: int) -> int {
    let t = ascending(s);
    let place = q * (s.len() - 1);
    let lower = place / 100;
    let part = place % 100;
    if part == 0 {
        100 * t[lower]
    } else {
        100 * t[lower] + (t[lower + 1] - t[lower]) * part
    }
}

/// What [`percentile`] returns.
pub open spec fn percentile_spec(s: Seq<u64>, q: int) -> Result<u128, GeometryError> {
    if s.len() == 0 || q > 100 {
        Err(GeometryError::IndexRange)
    } else {
        Ok(percentile_hundredths(s, q) as u128)
    }
}

/// What [`bounder_percentile`] returns: the first and the last position
/// whose level reaches the percentile.
pub open spec fn bounder_spec(s: Seq<u64>, q: int) -> Result<(usize, usize), GeometryError> {
    match percentile_spec(s, q) {
        Err(e) => Err(e),
        Ok(t) => Ok(
            (
                match first_reaching(s, 0, s.len() as int, 100, t as int) {
                    Some(i) => i as usize,
                    None => 0,
                },
                match last_reaching(s, 0, s.len() as int, 100, t as int) {
                    Some(i) => i as usize,
                    None => 0,
                },
            ),
        ),
    }
}

/// The rows of levels that a vector of vectors holds.
pub open spec fn level_rows(rows: Seq<Vec<u64>>) -> Seq<Seq<u64>> {
    Seq::new(rows.len(), |j: int| rows[j]@)
}

/// The levels at position `k` of every row.
pub open spec fn column_of(rows: Seq<Seq<u64>>, k: int) -> Seq<u64> {
    Seq::new(rows.len(), |j: int| rows[j][k])
}

/// There is a row, and no row is shorter than the first.
pub open spec fn rows_cover(rows: Seq<Seq<u64>>) -> bool {
    &&& rows.len() > 0
    &&& forall|j: int| 0 <= j < rows.len() ==> (#[trigger] rows[j]).len() >= rows[0].len()
}

/// Twice the median across the rows at each position of the first row.
pub open spec fn median_curve(rows: Seq<Seq<u64>>) -> Seq<u64> {
    Seq::new(rows[0].len(), |k: int| doubled_median(column_of(rows, k)) as u64)
}

/// The order of levels is a total order.
pub proof fn lemma_level_order()
    ensures
        total_ordering(level_leq()),
{
    let leq = level_leq();
    assert(vstd::relations::reflexive(leq));
    assert(vstd::relations::antisymmetric(leq));
    assert(vstd::relations::transitive(leq));
    assert(vstd::relations::strongly_connected(leq));
}

/// An ascending sequence with the levels of `s` is `ascending(s)`.
pub proof fn lemma_ascending_unique(s: Seq<u64>, t: Seq<u64>)
    requires
        is_ascending(t),
        t.to_multiset() == s.to_multiset(),
    ensures
        t == ascending(s),
{
    lemma_level_order();
    s.lemma_sort_by_ensures(level_leq());
    assert(sorted_by(t, level_leq())) by {
        assert forall|i: int, j: int| 0 <= i < j < t.len() implies #[trigger] level_leq()(
            t[i],
            t[j],
        ) by {}
    }
    lemma_sorted_unique(t, ascending(s), level_leq());
}

/// `ascending(s)` is ascending and as long as `s`.
pub proof fn lemma_ascending(s: Seq<u64>)
    ensures
        is_ascending(ascending(s)),
        ascending(s).len() == s.len(),
        ascending(s).to_multiset() == s.to_multiset(),
{
    lemma_level_order();
    s.lemma_sort_by_ensures(level_leq());
    let t = ascending(s);
    assert forall|i: int, j: int| 0 <= i < j < t.len() implies t[i] <= t[j] by {
        assert(level_leq()(t[i], t[j]));
    }
    s.to_multiset_ensures();
    t.to_multiset_ensures();
}

/// A sequence has at most one first largest level.
pub proof fn lemma_first_max_unique(s: Seq<u64>, i: int, j: int)
    requires
        is_first_max(s, i),
        is_first_max(s, j),
    ensures
        i == j,
{
    if i < j {
        assert(s[i] < s[j]);
        assert(s[j] <= s[i]);
    } else if j < i {
        assert(s[j] < s[i]);
        assert(s[i] <= s[j]);
    }
}

/// A sequence has at most one first smallest level.
pub proof fn lemma_first_min_unique(s: Seq<u64>, i: int, j: int)
    requires
        is_first_min(s, i),
        is_first_min(s, j),
    ensures
        i == j,
{
    if i < j {
        assert(s[i] > s[j]);
        assert(s[j] >= s[i]);
    } else if j < i {
        assert(s[j] > s[i]);
        assert(s[i] >= s[j]);
    }
}

/// A range has at most one first reaching position.
pub proof fn lemma_first_reaching_unique(s: Seq<u64>, from: int, to: int, scale: int, t: int, i: int, j: int)
    requires
        is_first_reaching(s, from, to, scale, t, i),
        is_first_reaching(s, from, to, scale, t, j),
    ensures
        i == j,
{
}

/// A range has at most one last reaching position.
pub proof fn lemma_last_reaching_unique(s: Seq<u64>, from: int, to: int, scale: int, t: int, i: int, j: int)
    requires
        is_last_reaching(s, from, to, scale, t, i),
        is_last_reaching(s, from, to, scale, t, j),
    ensures
        i == j,
{
}

/// `slice::sort` of std, on levels: afterwards the vector holds the same
/// levels as before, each as often, in ascending order. The contract is
/// not proved here.
#[verifier::external_body]
pub(crate) fn sort_levels(v: &mut Vec<u64>)
    ensures
        final(v)@.to_multiset() == old(v)@.to_multiset(),
        is_ascending(final(v)@),
{
    v.sort();
}

/// Sorts the column and returns twice its median.
///
/// An empty column is an index-range error.
pub fn median_of_column(column: &mut Vec<u64>) -> (median: Result<u64, GeometryError>)
    ensures
        final(column)@ == ascending(old(column)@),
        old(column)@.len() == 0 ==> median == Err::<u64, GeometryError>(GeometryError::IndexRange),
        old(column)@.len() > 0 ==> median == Ok::<u64, GeometryError>(
            doubled_median(old(column)@) as u64,
        ),
{
    sort_levels(column);
    proof {
        lemma_ascending_unique(old(column)@, column@);
        lemma_ascending(old(column)@);
    }
    let len = column.len();
    if len == 0 {
        Err(GeometryError::IndexRange)
    } else if len % 2 == 1 {
        Ok(column[len / 2].saturating_add(column[len / 2]))
    } else {
        Ok(column[len / 2 - 1].saturating_add(column[len / 2]))
    }
}

/// The position, counted from `from`, of the first largest level in
/// `from..to`; 0 for an empty range.
pub fn argmax_range(vector: &Vec<u64>, from: usize, to: usize) -> (at: usize)
    requires
        from <= to <= vector@.len(),
    ensures
        at == first_max(vector@.subrange(from as int, to as int)),
        from < to ==> is_first_max(vector@.subrange(from as int, to as int), at as int),
        from < to ==> at < to - from,
        from == to ==> at == 0,
{
    if from == to {
        return 0;
    }
    let ghost part = vector@.subrange(from as int, to as int);
    let mut best: usize = from;
    let mut i: usize = from + 1;
    while i < to
        invariant
            from < i <= to <= vector@.len(),
            from <= best < i,
            part == vector@.subrange(from as int, to as int),
            forall|j: int| 0 <= j < i - from ==> #[trigger] part[j] <= part[best - from],
            forall|j: int| 0 <= j < best - from ==> #[trigger] part[j] < part[best - from],
        decreases to - i,
    {
        assert(part[i - from] == vector@[i as int]);
        assert(part[best - from] == vector@[best as int]);
        if vector[i] > vector[best] {
            best = i;
        }
        i = i + 1;
    }
    proof {
        assert(is_first_max(part, best - from));
        lemma_first_max_unique(part, best - from, first_max(part));
    }
    best - from
}

/// The position and the value of the first largest level; `(0, 0)` for an
/// empty vector.
pub fn argmax_vec(vector: &Vec<u64>) -> (found: (usize, u64))
    ensures
        found.0 == first_max(vector@),
        found.1 == max_level(vector@),
        vector@.len() > 0 ==> is_first_max(vector@, found.0 as int),
{
    let n = vector.len();
    proof {
        assert(vector@.subrange(0, n as int) =~= vector@);
    }
    let at = argmax_range(vector, 0, n);
    if n == 0 {
        (0, 0)
    } else {
        (at, vector[at])
    }
}

/// The position of the first largest level, and seven times that level:
/// the threshold, in tenths, of 70 % of the peak.
pub fn find_peak(arr: &Vec<u64>) -> (found: (usize, u128))
    ensures
        found.0 == first_max(arr@),
        found.1 == 7 * max_level(arr@),
        arr@.len() > 0 ==> is_first_max(arr@, found.0 as int),
{
    let (peak_loc, max_v) = argmax_vec(arr);
    (peak_loc, 7 * (max_v as u128))
}

/// The first position in `from..to` whose level, taken `scale` times,
/// reaches `t`.
pub fn find_first_reaching(curve: &Vec<u64>, from: usize, to: usize, scale: u128, t: u128) -> (found:
    Option<usize>)
    requires
        from <= to <= curve@.len(),
        scale <= 0x1_0000_0000_0000_0000,
    ensures
        first_reaching(curve@, from as int, to as int, scale as int, t as int) == match found {
            Some(i) => Some(i as int),
            None => None,
        },
        found matches Some(i) ==> is_first_reaching(
            curve@,
            from as int,
            to as int,
            scale as int,
            t as int,
            i as int,
        ),
{
    let mut i: usize = from;
    while i < to
        invariant
            from <= i <= to <= curve@.len(),
            scale <= 0x1_0000_0000_0000_0000,
            forall|j: int| from <= j < i ==> !reaches(#[trigger] curve@[j], scale as int, t as int),
        decreases to - i,
    {
        assert(scale * curve@[i as int] <= 0x1_0000_0000_0000_0000 * u64::MAX) by (nonlinear_arith)
            requires
                0 <= scale <= 0x1_0000_0000_0000_0000,
                0 <= curve@[i as int] <= u64::MAX,
        ;
        if scale * (curve[i] as u128) >= t {
            proof {
                assert(reaches(curve@[i as int], scale as int, t as int));
                assert(is_first_reaching(
                    curve@,
                    from as int,
                    to as int,
                    scale as int,
                    t as int,
                    i as int,
                ));
                let c = choose|k: int|
                    is_first_reaching(curve@, from as int, to as int, scale as int, t as int, k);
                lemma_first_reaching_unique(
                    curve@,
                    from as int,
                    to as int,
                    scale as int,
                    t as int,
                    i as int,
                    c,
                );
            }
            return Some(i);
        }
        i = i + 1;
    }
    None
}

/// The last position in `from..to` whose level, taken `scale` times,
/// reaches `t`.
pub fn find_last_reaching(curve: &Vec<u64>, from: usize, to: usize, scale: u128, t: u128) -> (found:
    Option<usize>)
    requires
        from <= to <= curve@.len(),
        scale <= 0x1_0000_0000_0000_0000,
    ensures
        last_reaching(curve@, from as int, to as int, scale as int, t as int) == match found {
            Some(i) => Some(i as int),
            None => None,
        },
        found matches Some(i) ==> is_last_reaching(
            curve@,
            from as int,
            to as int,
            scale as int,
            t as int,
            i as int,
        ),
{
    let mut i: usize = to;
    while i > from
        invariant
            from <= i <= to <= curve@.len(),
            scale <= 0x1_0000_0000_0000_0000,
            forall|j: int| i <= j < to ==> !reaches(#[trigger] curve@[j], scale as int, t as int),
        decreases i - from,
    {
        i = i - 1;
        assert(scale * curve@[i as int] <= 0x1_0000_0000_0000_0000 * u64::MAX) by (nonlinear_arith)
            requires
                0 <= scale <= 0x1_0000_0000_0000_0000,
                0 <= curve@[i as int] <= u64::MAX,
        ;
        if scale * (curve[i] as u128) >= t {
            proof {
                assert(reaches(curve@[i as int], scale as int, t as int));
                assert(is_last_reaching(
                    curve@,
                    from as int,
                    to as int,
                    scale as int,
                    t as int,
                    i as int,
                ));
                let c = choose|k: int|
                    is_last_reaching(curve@, from as int, to as int, scale as int, t as int, k);
                lemma_last_reaching_unique(
                    curve@,
                    from as int,
                    to as int,
                    scale as int,
                    t as int,
                    i as int,
                    c,
                );
            }
            return Some(i);
        }
    }
    None
}

/// A copy of the levels.
pub fn copy_levels(v: &Vec<u64>) -> (copy: Vec<u64>)
    ensures
        copy@ == v@,
{
    let mut copy: Vec<u64> = Vec::new();
    let mut i: usize = 0;
    while i < v.len()
        invariant
            i <= v@.len(),
            copy@ == v@.subrange(0, i as int),
        decreases v@.len() - i,
    {
        copy.push(v[i]);
        proof {
            assert(copy@ =~= v@.subrange(0, i + 1));
        }
        i = i + 1;
    }
    proof {
        assert(copy@ =~= v@);
    }
    copy
}

/// The `q`-th percentile of the levels, in hundredths.
///
/// An empty vector and a `q` above 100 are index-range errors.
pub fn percentile(arr: &Vec<u64>, q: u64) -> (value: Result<u128, GeometryError>)
    ensures
        value == percentile_spec(arr@, q as int),
{
    let n = arr.len();
    if n == 0 || q > 100 {
        return Err(GeometryError::IndexRange);
    }
    let mut sorted = copy_levels(arr);
    sort_levels(&mut sorted);
    proof {
        lemma_ascending_unique(arr@, sorted@);
        lemma_ascending(arr@);
    }
    assert(q * (n - 1) <= 100 * (n - 1)) by (nonlinear_arith)
        requires
            0 <= q <= 100,
            n >= 1,
    ;
    let place: u128 = (q as u128) * ((n - 1) as u128);
    let lower: usize = (place / 100) as usize;
    let part: u128 = place % 100;
    if part == 0 {
        Ok(100 * (sorted[lower] as u128))
    } else {
        let low = sorted[lower] as u128;
        let high = sorted[lower + 1] as u128;
        assert(low <= high);
        assert((high - low) * part <= (high - low) * 100) by (nonlinear_arith)
            requires
                0 <= part <= 100,
                0 <= high - low,
        ;
        Ok(100 * low + (high - low) * part)
    }
}

/// The first and the last position whose level reaches the `q`-th
/// percentile.
pub fn bounder_percentile(arr: &Vec<u64>, q: u64) -> (bounds: Result<(usize, usize), GeometryError>)
    ensures
        bounds == bounder_spec(arr@, q as int),
{
    let ts = percentile(arr, q)?;
    let n = arr.len();
    let first_pos = match find_first_reaching(arr, 0, n, 100, ts) {
        Some(i) => i,
        None => 0,
    };
    let last_pos = match find_last_reaching(arr, 0, n, 100, ts) {
        Some(i) => i,
        None => 0,
    };
    Ok((first_pos, last_pos))
}

/// Twice the median across the rows, at each position of the first row.
///
/// No rows, and a row shorter than the first, are index-range errors.
pub fn median_by_col(arr: &Vec<Vec<u64>>) -> (medians: Result<Vec<u64>, GeometryError>)
    ensures
        rows_cover(level_rows(arr@)) ==> medians.is_ok(),
        !rows_cover(level_rows(arr@)) ==> medians == Err::<Vec<u64>, GeometryError>(
            GeometryError::IndexRange,
        ),
        medians matches Ok(m) ==> m@ == median_curve(level_rows(arr@)),
{
    let ghost rows = level_rows(arr@);
    let n = arr.len();
    if n == 0 {
        return Err(GeometryError::IndexRange);
    }
    let ncols = arr[0].len();
    let mut j: usize = 0;
    while j < n
        invariant
            j <= n == arr@.len(),
            rows == level_rows(arr@),
            ncols == rows[0].len(),
            forall|i: int| 0 <= i < j ==> (#[trigger] rows[i]).len() >= ncols,
        decreases n - j,
    {
        if arr[j].len() < ncols {
            assert(rows[j as int].len() < rows[0].len());
            return Err(GeometryError::IndexRange);
        }
        assert(rows[j as int].len() >= ncols);
        j = j + 1;
    }
    let mut medians: Vec<u64> = Vec::new();
    let mut col: usize = 0;
    while col < ncols
        invariant
            col <= ncols,
            n == arr@.len(),
            n > 0,
            rows == level_rows(arr@),
            ncols == rows[0].len(),
            rows_cover(rows),
            medians@.len() == col,
            forall|k: int| 0 <= k < col ==> medians@[k] == doubled_median(column_of(rows, k)) as u64,
        decreases ncols - col,
    {
        let mut column_values: Vec<u64> = Vec::new();
        let mut row: usize = 0;
        while row < n
            invariant
                row <= n == arr@.len(),
                col < ncols,
                rows == level_rows(arr@),
                ncols == rows[0].len(),
                rows_cover(rows),
                column_values@.len() == row,
                forall|i: int| 0 <= i < row ==> column_values@[i] == (#[trigger] rows[i])[col as int],
            decreases n - row,
        {
            assert(rows[row as int].len() >= ncols);
            column_values.push(arr[row][col]);
            row = row + 1;
        }
        proof {
            assert(column_values@ =~= column_of(rows, col as int));
        }
        match median_of_column(&mut column_values) {
            Ok(m) => {
                medians.push(m);
            },
            Err(e) => {
                return Err(e);
            },
        }
        col = col + 1;
    }
    proof {
        assert(medians@ =~= median_curve(rows));
    }
    Ok(medians)
}

} // verus!
