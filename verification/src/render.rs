//! Scaling of intensities to eight bits for display.
use vstd::prelude::*;
use crate::error::GeometryError;
use crate::grid::{lemma_flat_index, Pixels, U16Array};

verus! {

/// `m` is the largest value of `s`.
pub open spec fn is_largest(s: Seq<u16>, m: u16) -> bool {
    &&& forall|i: int| 0 <= i < s.len() ==> s[i] <= m
    &&& exists|i: int| 0 <= i < s.len() && s[i] == m
}

/// The largest value of a sequence that is not empty.
pub open spec fn largest(s: Seq<u16>) -> u16 {
    choose|m: u16| is_largest(s, m)
}

/// The intensity `v` on the scale from 0 to 255, where `max` is the
/// largest intensity: `255 v / max`, rounded down; 0 where `max` is 0.
pub open spec fn scaled(v: int, max: int) -> int {
    if max == 0 {
        0
    } else {
        255 * v / max
    }
}

/// What [`convert_to_u8`] returns.
pub open spec fn convert_spec(pixels: Seq<u16>) -> Seq<u8> {
    Seq::new(pixels.len(), |i: int| scaled(pixels[i] as int, largest(pixels) as int) as u8)
}

/// The sum `v` of two intensities on the scale from 0 to 255, where
/// `max` is the largest intensity of the first grid: `255 v / (2 max)`,
/// rounded down and limited to 255. Where `max` is 0, a sum of 0 gives 0
/// and any other sum 255.
pub open spec fn blended(v: int, max: int) -> int {
    if max == 0 {
        if v == 0 {
            0
        } else {
            255
        }
    } else if 255 * v / (2 * max) > 255 {
        255
    } else {
        255 * v / (2 * max)
    }
}

/// A sequence has at most one largest value.
pub proof fn lemma_largest_unique(s: Seq<u16>, a: u16, b: u16)
    requires
        is_largest(s, a),
        is_largest(s, b),
    ensures
        a == b,
{
}

/// A scaled intensity fits eight bits.
pub proof fn lemma_scaled_range(v: int, max: int)
    requires
        0 <= v <= max,
    ensures
        0 <= scaled(v, max) <= 255,
{
    if max > 0 {
        crate::arith::lemma_div_bounds(255 * v, max);
        assert(255 * v / max <= 255) by (nonlinear_arith)
            requires
                max * (255 * v / max) <= 255 * v,
                0 <= v <= max,
                max > 0,
        ;
        assert(255 * v / max >= 0) by (nonlinear_arith)
            requires
                255 * v < max * (255 * v / max) + max,
                0 <= v,
                max > 0,
        ;
    }
}

/// Scales the intensities to eight bits, the largest to 255.
///
/// `size` is the expected number of pixels; it does not change the result.
pub fn convert_to_u8(pixel_vec: Vec<u16>, size: usize) -> (res: Vec<u8>)
    ensures
        res@ == convert_spec(pixel_vec@),
{
    let n = pixel_vec.len();
    let mut res: Vec<u8> = Vec::new();
    if n == 0 {
        proof {
            assert(res@ =~= convert_spec(pixel_vec@));
        }
        return res;
    }
    let mut max_value: u16 = pixel_vec[0];
    let mut i: usize = 1;
    while i < n
        invariant
            1 <= i <= n == pixel_vec@.len(),
            forall|k: int| 0 <= k < i ==> pixel_vec@[k] <= max_value,
            exists|k: int| 0 <= k < i && pixel_vec@[k] == max_value,
        decreases n - i,
    {
        if pixel_vec[i] > max_value {
            max_value = pixel_vec[i];
        }
        i = i + 1;
    }
    proof {
        assert(is_largest(pixel_vec@, max_value));
        lemma_largest_unique(pixel_vec@, max_value, largest(pixel_vec@));
    }
    let mut k: usize = 0;
    while k < n
        invariant
            k <= n == pixel_vec@.len(),
            max_value == largest(pixel_vec@),
            is_largest(pixel_vec@, max_value),
            res@.len() == k,
            forall|j: int|
                0 <= j < k ==> res@[j] == scaled(pixel_vec@[j] as int, max_value as int) as u8,
        decreases n - k,
    {
        let value = pixel_vec[k];
        proof {
            lemma_scaled_range(value as int, max_value as int);
        }
        let u8_val: u8 = if max_value == 0 {
            0
        } else {
            (255 * (value as u32) / (max_value as u32)) as u8
        };
        res.push(u8_val);
        k = k + 1;
    }
    proof {
        assert(res@ =~= convert_spec(pixel_vec@));
    }
    res
}

/// The second grid covers the first, and the first holds a pixel.
pub open spec fn can_blend(below: Pixels, above: Pixels) -> bool {
    !below.is_empty() && below.height() <= above.height() && below.width <= above.width
}

/// What [`add_arrays`] returns for grids that can be blended: row after
/// row, the blended sums of the pixels of the two grids at each position
/// of the first.
pub open spec fn blend_spec(below: Pixels, above: Pixels) -> Seq<u8> {
    Seq::new(
        below.height() * below.width,
        |i: int|
            blended(
                below.at(i / below.width as int, i % below.width as int) + above.at(
                    i / below.width as int,
                    i % below.width as int,
                ),
                below.max_value() as int,
            ) as u8,
    )
}

/// Adds two grids pixel by pixel and scales the sums to eight bits, twice
/// the largest intensity of the first grid to 255.
///
/// A first grid without pixels, and a second grid that does not cover the
/// first, are index-range errors.
pub fn add_arrays(arr1: &U16Array, arr2: &U16Array) -> (sum: Result<Vec<u8>, GeometryError>)
    ensures
        can_blend(arr1@, arr2@) ==> sum.is_ok(),
        !can_blend(arr1@, arr2@) ==> sum matches Err(GeometryError::IndexRange),
        sum matches Ok(v) ==> v@ == blend_spec(arr1@, arr2@),
{
    let nrows = arr1.nrows();
    let ncols = arr1.ncols();
    let max_v = match arr1.max() {
        Some(m) => m as u32,
        None => {
            return Err(GeometryError::IndexRange);
        },
    };
    if arr2.nrows() < nrows || arr2.ncols() < ncols {
        return Err(GeometryError::IndexRange);
    }
    let mut add_arr: Vec<u8> = Vec::new();
    let mut r: usize = 0;
    while r < nrows
        invariant
            r <= nrows == arr1@.height(),
            ncols == arr1@.width,
            nrows * ncols <= isize::MAX,
            nrows <= arr2@.height(),
            ncols <= arr2@.width,
            max_v == arr1@.max_value(),
            add_arr@.len() == r * ncols,
            forall|i: int|
                0 <= i < r * ncols ==> #[trigger] add_arr@[i] == blend_spec(arr1@, arr2@)[i],
        decreases nrows - r,
    {
        let mut c: usize = 0;
        while c < ncols
            invariant
                r < nrows == arr1@.height(),
                c <= ncols == arr1@.width,
                nrows * ncols <= isize::MAX,
                nrows <= arr2@.height(),
                ncols <= arr2@.width,
                max_v == arr1@.max_value(),
                add_arr@.len() == r * ncols + c,
                forall|i: int|
                    0 <= i < r * ncols + c ==> #[trigger] add_arr@[i] == blend_spec(
                        arr1@,
                        arr2@,
                    )[i],
            decreases ncols - c,
        {
            let add_v: u32 = arr1.at(r, c) as u32 + arr2.at(r, c) as u32;
            let v_u8: u8 = if max_v == 0 {
                if add_v == 0 {
                    0
                } else {
                    255
                }
            } else {
                let q = 255 * add_v / (2 * max_v);
                if q > 255 {
                    255
                } else {
                    q as u8
                }
            };
            proof {
                lemma_flat_index(r as int, c as int, nrows as int, ncols as int);
                vstd::arithmetic::div_mod::lemma_fundamental_div_mod_converse(
                    r * ncols + c,
                    ncols as int,
                    r as int,
                    c as int,
                );
            }
            add_arr.push(v_u8);
            c = c + 1;
        }
        assert((r + 1) * ncols == r * ncols + ncols) by (nonlinear_arith);
        r = r + 1;
    }
    proof {
        assert(add_arr@ =~= blend_spec(arr1@, arr2@));
    }
    Ok(add_arr)
}

/// What [`to_binary_arr`] returns: 1 for each value above the cut-off and
/// 0 for each other value.
pub open spec fn binary_spec(values: Seq<u128>, cut_off: u128) -> Seq<u8> {
    Seq::new(
        values.len(),
        |i: int|
            if values[i] > cut_off {
                1u8
            } else {
                0u8
            },
    )
}

/// Marks the values above a cut-off.
pub fn to_binary_arr(values: &Vec<u128>, cut_off: u128) -> (marks: Vec<u8>)
    ensures
        marks@ == binary_spec(values@, cut_off),
{
    let n = values.len();
    let mut marks: Vec<u8> = Vec::new();
    let mut i: usize = 0;
    while i < n
        invariant
            i <= n == values@.len(),
            marks@.len() == i,
            forall|k: int| 0 <= k < i ==> marks@[k] == binary_spec(values@, cut_off)[k],
        decreases n - i,
    {
        marks.push(
            if values[i] > cut_off {
                1
            } else {
                0
            },
        );
        i = i + 1;
    }
    proof {
        assert(marks@ =~= binary_spec(values@, cut_off));
    }
    marks
}

/// What [`cast_type_arr`] returns: the pixels, row after row, as 128-bit
/// values.
pub open spec fn wide_spec(p: Pixels) -> Seq<u128> {
    Seq::new(p.flat_levels().len(), |i: int| p.flat_levels()[i] as u128)
}

/// Widens the pixels of a grid to 128 bits, for sums that must not
/// overflow.
pub fn cast_type_arr(arr: &U16Array) -> (wide: Vec<u128>)
    ensures
        wide@ == wide_spec(arr@),
{
    let levels = arr.to_levels();
    let n = levels.len();
    let mut wide: Vec<u128> = Vec::new();
    let mut i: usize = 0;
    while i < n
        invariant
            i <= n == levels@.len(),
            levels@ == arr@.flat_levels(),
            wide@.len() == i,
            forall|k: int| 0 <= k < i ==> wide@[k] == levels@[k] as u128,
        decreases n - i,
    {
        wide.push(levels[i] as u128);
        i = i + 1;
    }
    proof {
        assert(wide@ =~= wide_spec(arr@));
    }
    wide
}

} // verus!
