//! The pixel grid: a two-dimensional array of 16-bit intensities.
//!
//! The grid is stored in an `ndarray` array. Verified code sees it through
//! its view, [`Pixels`], and reaches the array only through the functions
//! named `raw_...`, whose contracts state what `ndarray` does and are not
//! proved here.
use vstd::prelude::*;
use ndarray_stats::QuantileExt;
use ndarray_stats::errors::MinMaxError;
use crate::error::GeometryError;

verus! {

/// A grid of 16-bit intensities, held in an `ndarray::Array2<u16>`.
///
/// Verus does not look inside the array: [`grid_cells`] and [`grid_cols`]
/// name what it holds, and the functions below say what `ndarray` does to
/// it.
#[verifier::external_body]
#[derive(Debug)]
pub struct U16Array {
    inner: ndarray::Array2<u16>,
}

/// `ndarray_stats::errors::MinMaxError`, the error of minimum and maximum.
#[verifier::external_type_specification]
#[verifier::external_body]
pub struct ExMinMaxError(MinMaxError);

/// The rows of a grid, top to bottom, each row left to right.
pub uninterp spec fn grid_cells(a: U16Array) -> Seq<Seq<u16>>;

/// The number of columns of a grid (also where it has no rows).
pub uninterp spec fn grid_cols(a: U16Array) -> nat;

/// The mathematical content of a grid.
pub struct Pixels {
    /// The rows, top to bottom.
    pub cells: Seq<Seq<u16>>,
    /// The number of columns.
    pub width: nat,
}

impl Pixels {
    /// The number of rows.
    pub open spec fn height(self) -> nat {
        self.cells.len()
    }

    /// The intensity at row `r`, column `c`.
    pub open spec fn at(self, r: int, c: int) -> u16 {
        self.cells[r][c]
    }

    /// Every row has `width` columns.
    pub open spec fn wf(self) -> bool {
        forall|r: int| 0 <= r < self.cells.len() ==> (#[trigger] self.cells[r]).len() == self.width
    }

    /// The grid holds no pixel.
    pub open spec fn is_empty(self) -> bool {
        self.height() == 0 || self.width == 0
    }

    /// `(r, c)` is a position of the grid.
    pub open spec fn contains(self, r: int, c: int) -> bool {
        0 <= r < self.height() && 0 <= c < self.width
    }

    /// `r0..r1` by `c0..c1` is a window of the grid (possibly empty).
    pub open spec fn has_window(self, r0: int, r1: int, c0: int, c1: int) -> bool {
        0 <= r0 <= r1 <= self.height() && 0 <= c0 <= c1 <= self.width
    }

    /// The window of rows `r0..r1` and columns `c0..c1`.
    pub open spec fn window(self, r0: int, r1: int, c0: int, c1: int) -> Pixels {
        Pixels {
            cells: Seq::new((r1 - r0) as nat, |i: int| self.cells[r0 + i].subrange(c0, c1)),
            width: (c1 - c0) as nat,
        }
    }

    /// `m` is the largest intensity of the grid.
    pub open spec fn has_max(self, m: u16) -> bool {
        &&& forall|r: int, c: int| self.contains(r, c) ==> #[trigger] self.at(r, c) <= m
        &&& exists|r: int, c: int| self.contains(r, c) && #[trigger] self.at(r, c) == m
    }

    /// `m` is the smallest intensity of the grid.
    pub open spec fn has_min(self, m: u16) -> bool {
        &&& forall|r: int, c: int| self.contains(r, c) ==> #[trigger] self.at(r, c) >= m
        &&& exists|r: int, c: int| self.contains(r, c) && #[trigger] self.at(r, c) == m
    }

    /// The largest intensity of a grid that holds a pixel.
    pub open spec fn max_value(self) -> u16 {
        choose|m: u16| self.has_max(m)
    }

    /// The smallest intensity of a grid that holds a pixel.
    pub open spec fn min_value(self) -> u16 {
        choose|m: u16| self.has_min(m)
    }

    /// The pixels as levels in one sequence, row after row.
    pub open spec fn flat_levels(self) -> Seq<u64> {
        Seq::new(
            self.height() * self.width,
            |i: int| self.at(i / self.width as int, i % self.width as int) as u64,
        )
    }

    /// `flat` holds the pixels in one sequence, row after row.
    pub open spec fn is_flat(self, flat: Seq<u16>) -> bool {
        &&& flat.len() == self.height() * self.width
        &&& forall|r: int, c: int|
            self.contains(r, c) ==> #[trigger] self.at(r, c) == flat[r * self.width + c]
    }

    /// Two well-formed grids of one shape whose pixels agree are equal.
    pub proof fn lemma_equal(self, other: Pixels)
        requires
            self.wf(),
            other.wf(),
            self.height() == other.height(),
            self.width == other.width,
            forall|r: int, c: int| self.contains(r, c) ==> #[trigger] self.at(r, c) == other.at(r, c),
        ensures
            self == other,
    {
        assert forall|i: int| 0 <= i < self.cells.len() implies #[trigger] self.cells[i]
            == other.cells[i] by {
            assert(self.cells[i].len() == self.width);
            assert(other.cells[i].len() == other.width);
            assert forall|j: int| 0 <= j < self.width implies self.cells[i][j]
                == other.cells[i][j] by {
                assert(self.at(i, j) == other.at(i, j));
            }
            assert(self.cells[i] =~= other.cells[i]);
        }
        assert(self.cells =~= other.cells);
    }

    /// A grid has at most one largest intensity.
    pub proof fn lemma_max_unique(self, m1: u16, m2: u16)
        requires
            self.has_max(m1),
            self.has_max(m2),
        ensures
            m1 == m2,
    {
    }

    /// A grid has at most one smallest intensity.
    pub proof fn lemma_min_unique(self, m1: u16, m2: u16)
        requires
            self.has_min(m1),
            self.has_min(m2),
        ensures
            m1 == m2,
    {
    }

    /// A window of a well-formed grid is well formed, and its pixels are
    /// those of the grid at the shifted positions.
    pub proof fn lemma_window(self, r0: int, r1: int, c0: int, c1: int)
        requires
            self.wf(),
            self.has_window(r0, r1, c0, c1),
        ensures
            self.window(r0, r1, c0, c1).wf(),
            self.window(r0, r1, c0, c1).height() == r1 - r0,
            self.window(r0, r1, c0, c1).width == c1 - c0,
            forall|r: int, c: int|
                0 <= r < r1 - r0 && 0 <= c < c1 - c0 ==> #[trigger] self.window(r0, r1, c0, c1).at(
                    r,
                    c,
                ) == self.at(r0 + r, c0 + c),
    {
        let w = self.window(r0, r1, c0, c1);
        assert forall|r: int| 0 <= r < w.cells.len() implies (#[trigger] w.cells[r]).len()
            == w.width by {
            assert(self.cells[r0 + r].len() == self.width);
        }
        assert forall|r: int, c: int| 0 <= r < r1 - r0 && 0 <= c < c1 - c0 implies #[trigger] w.at(
            r,
            c,
        ) == self.at(r0 + r, c0 + c) by {
            assert(self.cells[r0 + r].len() == self.width);
        }
    }
}

/// Position `(r, c)` of an `h` by `w` grid has a place in its row-major
/// sequence.
pub proof fn lemma_flat_index(r: int, c: int, h: int, w: int)
    requires
        0 <= r < h,
        0 <= c < w,
    ensures
        0 <= r * w + c < h * w,
        (r + 1) * w == r * w + w,
{
    assert(0 <= r * w) by (nonlinear_arith)
        requires
            0 <= r,
            0 <= w,
    ;
    assert((r + 1) * w <= h * w) by (nonlinear_arith)
        requires
            r + 1 <= h,
            0 <= w,
    ;
    assert((r + 1) * w == r * w + w) by (nonlinear_arith);
}

/// The contents of each grid of a sequence.
pub open spec fn pixels_of(grids: Seq<U16Array>) -> Seq<Pixels> {
    Seq::new(grids.len(), |i: int| grids[i]@)
}

impl View for U16Array {
    type V = Pixels;

    open spec fn view(&self) -> Pixels {
        Pixels { cells: grid_cells(*self), width: grid_cols(*self) }
    }
}

/// `ndarray::ArrayBase::nrows`: the length of the first axis. `ndarray`
/// keeps every axis length, and the number of elements, within
/// `isize::MAX`.
#[verifier::external_body]
pub(crate) fn raw_nrows(a: &U16Array) -> (n: usize)
    ensures
        n == grid_cells(*a).len(),
        n <= isize::MAX,
        n * grid_cols(*a) <= isize::MAX,
{
    a.inner.nrows()
}

/// `ndarray::ArrayBase::ncols`: the length of the second axis, which every
/// row has.
#[verifier::external_body]
pub(crate) fn raw_ncols(a: &U16Array) -> (n: usize)
    ensures
        n == grid_cols(*a),
        n <= isize::MAX,
        forall|r: int| 0 <= r < grid_cells(*a).len() ==> (#[trigger] grid_cells(*a)[r]).len() == n,
{
    a.inner.ncols()
}

/// `Index::index` of `ndarray::ArrayBase` with a `(row, column)` pair: the
/// element there. It panics outside the array, which `requires` excludes.
#[verifier::external_body]
pub(crate) fn raw_get(a: &U16Array, r: usize, c: usize) -> (v: u16)
    requires
        r < grid_cells(*a).len(),
        c < grid_cols(*a),
    ensures
        v == grid_cells(*a)[r as int][c as int],
{
    a.inner[(r, c)]
}

/// `IndexMut::index_mut` of `ndarray::ArrayBase` with a `(row, column)`
/// pair, assigned through: that element changes and no other, and the
/// shape stays. It panics outside the array, which `requires` excludes.
#[verifier::external_body]
pub(crate) fn raw_set(a: &mut U16Array, r: usize, c: usize, v: u16)
    requires
        r < grid_cells(*old(a)).len(),
        c < grid_cols(*old(a)),
    ensures
        grid_cols(*final(a)) == grid_cols(*old(a)),
        grid_cells(*final(a)) == grid_cells(*old(a)).update(
            r as int,
            grid_cells(*old(a))[r as int].update(c as int, v),
        ),
{
    a.inner[(r, c)] = v;
}

/// `ndarray::ArrayBase::from_elem`: an array of the given shape with every
/// element `v`. It panics where the element count overflows `isize`, which
/// `requires` excludes.
#[verifier::external_body]
pub(crate) fn raw_filled(h: usize, w: usize, v: u16) -> (a: U16Array)
    requires
        h <= isize::MAX,
        w <= isize::MAX,
        h * w <= isize::MAX,
    ensures
        grid_cols(a) == w,
        grid_cells(a) == Seq::new(h as nat, |r: int| Seq::new(w as nat, |c: int| v)),
{
    U16Array { inner: ndarray::Array2::from_elem((h, w), v) }
}

/// `ndarray::ArrayBase::slice_axis` along both axes, then `to_owned`: a new
/// array that holds rows `r0..r1` and columns `c0..c1`. Slicing panics past
/// the end of an axis, which `requires` excludes.
#[verifier::external_body]
pub(crate) fn raw_window(a: &U16Array, r0: usize, r1: usize, c0: usize, c1: usize) -> (b: U16Array)
    requires
        r0 <= r1 <= grid_cells(*a).len(),
        c0 <= c1 <= grid_cols(*a),
    ensures
        grid_cols(b) == c1 - c0,
        grid_cells(b) == Seq::new(
            (r1 - r0) as nat,
            |i: int| grid_cells(*a)[r0 + i].subrange(c0 as int, c1 as int),
        ),
{
    let rows = a.inner.slice_axis(ndarray::Axis(0), ndarray::Slice::from(r0..r1));
    let both = rows.slice_axis(ndarray::Axis(1), ndarray::Slice::from(c0..c1));
    U16Array { inner: both.to_owned() }
}

/// `Clone::clone` of `ndarray::ArrayBase`: an array of the same shape and
/// elements.
#[verifier::external_body]
pub(crate) fn raw_clone(a: &U16Array) -> (b: U16Array)
    ensures
        grid_cols(b) == grid_cols(*a),
        grid_cells(b) == grid_cells(*a),
{
    U16Array { inner: a.inner.clone() }
}

/// `ndarray_stats::QuantileExt::max`: an element that no element exceeds;
/// an error exactly where the array holds no element.
#[verifier::external_body]
pub(crate) fn raw_max(a: &U16Array) -> (m: Result<u16, MinMaxError>)
    ensures
        m.is_ok() <==> (grid_cells(*a).len() > 0 && grid_cols(*a) > 0),
        m matches Ok(v) ==> (Pixels { cells: grid_cells(*a), width: grid_cols(*a) }).has_max(v),
{
    a.inner.max().copied()
}

/// `ndarray_stats::QuantileExt::min`: an element that exceeds no element;
/// an error exactly where the array holds no element.
#[verifier::external_body]
pub(crate) fn raw_min(a: &U16Array) -> (m: Result<u16, MinMaxError>)
    ensures
        m.is_ok() <==> (grid_cells(*a).len() > 0 && grid_cols(*a) > 0),
        m matches Ok(v) ==> (Pixels { cells: grid_cells(*a), width: grid_cols(*a) }).has_min(v),
{
    a.inner.min().copied()
}

impl Clone for U16Array {
    /// A copy of the grid.
    fn clone(&self) -> (b: Self)
        ensures
            b@ == self@,
    {
        raw_clone(self)
    }
}

impl U16Array {
    /// The number of rows.
    pub fn nrows(&self) -> (n: usize)
        ensures
            n == self@.height(),
            n <= isize::MAX,
            n * self@.width <= isize::MAX,
    {
        raw_nrows(self)
    }

    /// The number of columns.
    pub fn ncols(&self) -> (n: usize)
        ensures
            n == self@.width,
            n <= isize::MAX,
            self@.wf(),
    {
        raw_ncols(self)
    }

    /// The intensity at `(r, c)`, for a position of the grid.
    pub fn at(&self, r: usize, c: usize) -> (v: u16)
        requires
            self@.contains(r as int, c as int),
        ensures
            v == self@.at(r as int, c as int),
    {
        raw_get(self, r, c)
    }

    /// The intensity at `(r, c)`, or `None` outside the grid.
    pub fn get(&self, r: usize, c: usize) -> (v: Option<u16>)
        ensures
            v == if self@.contains(r as int, c as int) {
                Some(self@.at(r as int, c as int))
            } else {
                None
            },
    {
        if r < raw_nrows(self) && c < raw_ncols(self) {
            Some(raw_get(self, r, c))
        } else {
            None
        }
    }

    /// A grid of `h` rows and `w` columns with every pixel `v`, or `None`
    /// where a grid cannot have that many pixels.
    pub fn filled(h: usize, w: usize, v: u16) -> (g: Option<U16Array>)
        ensures
            g.is_some() <==> (h <= isize::MAX && w <= isize::MAX && h * w <= isize::MAX),
            g matches Some(a) ==> {
                &&& a@.wf()
                &&& a@.height() == h
                &&& a@.width == w
                &&& forall|r: int, c: int| a@.contains(r, c) ==> #[trigger] a@.at(r, c) == v
            },
    {
        if h > isize::MAX as usize || w > isize::MAX as usize {
            return None;
        }
        match h.checked_mul(w) {
            Some(n) => {
                if n > isize::MAX as usize {
                    return None;
                }
            },
            None => {
                return None;
            },
        }
        Some(raw_filled(h, w, v))
    }

    /// The grid of `h` rows and `w` columns whose pixels are `data`, row
    /// after row; `None` where `data` does not hold `h * w` values.
    pub fn from_vec(h: usize, w: usize, data: &Vec<u16>) -> (g: Option<U16Array>)
        ensures
            g.is_some() <==> (h <= isize::MAX && w <= isize::MAX && h * w <= isize::MAX
                && data@.len() == h * w),
            g matches Some(a) ==> a@.wf() && a@.height() == h && a@.width == w && a@.is_flat(
                data@,
            ),
    {
        if h > isize::MAX as usize || w > isize::MAX as usize {
            return None;
        }
        match h.checked_mul(w) {
            Some(n) => {
                if n > isize::MAX as usize || data.len() != n {
                    return None;
                }
            },
            None => {
                return None;
            },
        }
        let mut a = raw_filled(h, w, 0);
        let mut r: usize = 0;
        while r < h
            invariant
                r <= h,
                data@.len() == h * w,
                h * w <= isize::MAX,
                grid_cols(a) == w,
                grid_cells(a).len() == h,
                forall|i: int| 0 <= i < h ==> (#[trigger] grid_cells(a)[i]).len() == w,
                forall|i: int, j: int|
                    0 <= i < r && 0 <= j < w ==> (#[trigger] grid_cells(a)[i][j]) == data@[i * w
                        + j],
            decreases h - r,
        {
            let mut c: usize = 0;
            while c < w
                invariant
                    r < h,
                    c <= w,
                    data@.len() == h * w,
                    h * w <= isize::MAX,
                    grid_cols(a) == w,
                    grid_cells(a).len() == h,
                    forall|i: int| 0 <= i < h ==> (#[trigger] grid_cells(a)[i]).len() == w,
                    forall|i: int, j: int|
                        0 <= i < r && 0 <= j < w ==> (#[trigger] grid_cells(a)[i][j]) == data@[i
                            * w + j],
                    forall|j: int|
                        0 <= j < c ==> (#[trigger] grid_cells(a)[r as int][j]) == data@[r * w + j],
                decreases w - c,
            {
                proof {
                    lemma_flat_index(r as int, c as int, h as int, w as int);
                }
                let v = data[r * w + c];
                raw_set(&mut a, r, c, v);
                c = c + 1;
            }
            r = r + 1;
        }
        Some(a)
    }

    /// The pixels in one vector, row after row.
    pub fn to_vec(&self) -> (data: Vec<u16>)
        ensures
            self@.is_flat(data@),
    {
        let h = raw_nrows(self);
        let w = raw_ncols(self);
        let mut data: Vec<u16> = Vec::new();
        let mut r: usize = 0;
        while r < h
            invariant
                r <= h,
                h == self@.height(),
                w == self@.width,
                h * w <= isize::MAX,
                data@.len() == r * w,
                forall|i: int, j: int|
                    0 <= i < r && 0 <= j < w ==> #[trigger] self@.at(i, j) == data@[i * w + j],
            decreases h - r,
        {
            let mut c: usize = 0;
            while c < w
                invariant
                    r < h,
                    c <= w,
                    h == self@.height(),
                    w == self@.width,
                    h * w <= isize::MAX,
                    data@.len() == r * w + c,
                    forall|i: int, j: int|
                        0 <= i < r && 0 <= j < w ==> #[trigger] self@.at(i, j) == data@[i * w + j],
                    forall|j: int| 0 <= j < c ==> #[trigger] self@.at(r as int, j) == data@[r * w + j],
                decreases w - c,
            {
                let v = raw_get(self, r, c);
                let ghost before = data@;
                data.push(v);
                proof {
                    assert forall|i: int, j: int| 0 <= i < r && 0 <= j < w implies #[trigger] self@.at(
                        i,
                        j,
                    ) == data@[i * w + j] by {
                        lemma_flat_index(i, j, r as int, w as int);
                        assert(data@[i * w + j] == before[i * w + j]);
                    }
                    assert forall|j: int| 0 <= j < c + 1 implies #[trigger] self@.at(r as int, j)
                        == data@[r * w + j] by {
                        if j < c {
                            assert(data@[r * w + j] == before[r * w + j]);
                        }
                    }
                }
                c = c + 1;
            }
            assert((r + 1) * w == r * w + w) by (nonlinear_arith);
            r = r + 1;
        }
        proof {
            assert forall|i: int, j: int| self@.contains(i, j) implies #[trigger] self@.at(i, j)
                == data@[i * self@.width + j] by {}
        }
        data
    }

    /// Sets the intensity at `(r, c)`, a position of the grid.
    pub fn set(&mut self, r: usize, c: usize, v: u16)
        requires
            old(self)@.contains(r as int, c as int),
            old(self)@.wf(),
        ensures
            final(self)@.wf(),
            final(self)@.height() == old(self)@.height(),
            final(self)@.width == old(self)@.width,
            final(self)@.at(r as int, c as int) == v,
            forall|i: int, j: int|
                old(self)@.contains(i, j) && (i != r || j != c) ==> #[trigger] final(self)@.at(i, j)
                    == old(self)@.at(i, j),
    {
        raw_set(self, r, c, v);
    }

    /// The pixels as levels in one vector, row after row.
    pub fn to_levels(&self) -> (levels: Vec<u64>)
        ensures
            levels@ == self@.flat_levels(),
    {
        let h = raw_nrows(self);
        let w = raw_ncols(self);
        let mut levels: Vec<u64> = Vec::new();
        let mut r: usize = 0;
        while r < h
            invariant
                r <= h,
                h == self@.height(),
                w == self@.width,
                h * w <= isize::MAX,
                levels@.len() == r * w,
                forall|i: int|
                    0 <= i < r * w ==> #[trigger] levels@[i] == self@.at(i / w as int, i % w as int)
                        as u64,
            decreases h - r,
        {
            let mut c: usize = 0;
            while c < w
                invariant
                    r < h,
                    c <= w,
                    h == self@.height(),
                    w == self@.width,
                    h * w <= isize::MAX,
                    levels@.len() == r * w + c,
                    forall|i: int|
                        0 <= i < r * w + c ==> #[trigger] levels@[i] == self@.at(
                            i / w as int,
                            i % w as int,
                        ) as u64,
                decreases w - c,
            {
                let v = raw_get(self, r, c);
                proof {
                    vstd::arithmetic::div_mod::lemma_fundamental_div_mod_converse(
                        r * w + c,
                        w as int,
                        r as int,
                        c as int,
                    );
                }
                levels.push(v as u64);
                c = c + 1;
            }
            assert((r + 1) * w == r * w + w) by (nonlinear_arith);
            r = r + 1;
        }
        proof {
            assert(levels@ =~= self@.flat_levels());
        }
        levels
    }

    /// The largest intensity, or `None` for a grid without pixels.
    pub fn max(&self) -> (m: Option<u16>)
        ensures
            m.is_some() <==> !self@.is_empty(),
            m matches Some(v) ==> self@.has_max(v) && v == self@.max_value(),
    {
        match raw_max(self) {
            Ok(v) => {
                proof {
                    assert(self@.has_max(v));
                    self@.lemma_max_unique(v, self@.max_value());
                }
                Some(v)
            },
            Err(_) => None,
        }
    }

    /// The smallest intensity, or `None` for a grid without pixels.
    pub fn min(&self) -> (m: Option<u16>)
        ensures
            m.is_some() <==> !self@.is_empty(),
            m matches Some(v) ==> self@.has_min(v) && v == self@.min_value(),
    {
        match raw_min(self) {
            Ok(v) => {
                proof {
                    assert(self@.has_min(v));
                    self@.lemma_min_unique(v, self@.min_value());
                }
                Some(v)
            },
            Err(_) => None,
        }
    }

    /// The window of rows `r0..r1` and columns `c0..c1`, as a new grid.
    ///
    /// A window that is not inside the grid, or whose end lies before its
    /// start, is an index-range error.
    pub fn crop(&self, r0: i64, r1: i64, c0: i64, c1: i64) -> (b: Result<U16Array, GeometryError>)
        ensures
            self@.has_window(r0 as int, r1 as int, c0 as int, c1 as int) ==> b.is_ok(),
            !self@.has_window(r0 as int, r1 as int, c0 as int, c1 as int) ==> b == Err::<
                U16Array,
                GeometryError,
            >(GeometryError::IndexRange),
            b matches Ok(g) ==> g@ == self@.window(r0 as int, r1 as int, c0 as int, c1 as int)
                && g@.wf(),
    {
        let h = raw_nrows(self);
        let w = raw_ncols(self);
        if 0 <= r0 && r0 <= r1 && r1 as u64 <= h as u64 && 0 <= c0 && c0 <= c1 && c1 as u64
            <= w as u64 {
            let g = raw_window(self, r0 as usize, r1 as usize, c0 as usize, c1 as usize);
            proof {
                self@.lemma_window(r0 as int, r1 as int, c0 as int, c1 as int);
            }
            Ok(g)
        } else {
            Err(GeometryError::IndexRange)
        }
    }
}

} // verus!
