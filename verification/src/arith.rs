//! Exact integer arithmetic used in place of rounding real numbers.
use vstd::prelude::*;
use vstd::arithmetic::div_mod::{
    lemma_fundamental_div_mod,
    lemma_fundamental_div_mod_converse,
    lemma_mod_bound,
};

verus! {

/// The absolute value of an integer.
pub open spec fn abs(a: int) -> int {
    if a < 0 {
        -a
    } else {
        a
    }
}

/// For a positive divisor, the quotient is the multiple count just below.
pub proof fn lemma_div_bounds(x: int, d: int)
    requires
        d > 0,
    ensures
        d * (x / d) <= x < d * (x / d) + d,
{
    lemma_fundamental_div_mod(x, d);
    lemma_mod_bound(x, d);
}

/// For a positive divisor, a multiple count just below is the quotient.
pub proof fn lemma_div_unique(x: int, d: int, q: int)
    requires
        d > 0,
        d * q <= x < d * q + d,
    ensures
        x / d == q,
{
    assert(q * d == d * q) by (nonlinear_arith);
    lemma_fundamental_div_mod_converse(x, d, q, x - d * q);
}

/// Rounding a quotient moves it by at most half a unit:
/// `|round_div(a, b) * b - a| <= |b| / 2`.
pub proof fn lemma_round_div_error(a: int, b: int)
    requires
        b != 0,
    ensures
        2 * abs(round_div(a, b) * b - a) <= abs(b),
{
    let q = round_div(a, b);
    let aa = abs(a);
    let bb = abs(b);
    let k = (2 * aa + bb) / (2 * bb);
    lemma_div_bounds(2 * aa + bb, 2 * bb);
    assert((2 * bb) * k == 2 * (k * bb)) by (nonlinear_arith);
    assert(2 * abs(k * bb - aa) <= bb);
    if a >= 0 && b > 0 {
        assert(q == k);
    } else if a < 0 && b > 0 {
        assert(q == -k);
        assert((-k) * b == -(k * b)) by (nonlinear_arith);
    } else if a >= 0 && b < 0 {
        assert(q == -k);
        assert((-k) * b == k * (-b)) by (nonlinear_arith);
    } else {
        assert(q == k);
        assert(k * b == -(k * (-b))) by (nonlinear_arith);
    }
}

/// A quotient rounded toward zero is no larger in size than the dividend.
pub proof fn lemma_trunc_div_within(a: int, b: int)
    requires
        b != 0,
    ensures
        abs(trunc_div(a, b)) <= abs(a),
{
    let aa = abs(a);
    let bb = abs(b);
    lemma_div_bounds(aa, bb);
    assert(aa / bb <= aa) by (nonlinear_arith)
        requires
            bb >= 1,
            aa >= 0,
            bb * (aa / bb) <= aa,
    ;
    assert(aa / bb >= 0) by (nonlinear_arith)
        requires
            bb >= 1,
            aa >= 0,
            aa < bb * (aa / bb) + bb,
    ;
}

/// An exact quotient is its own rounding.
pub proof fn lemma_round_div_exact(q: int, b: int)
    requires
        b != 0,
    ensures
        round_div(q * b, b) == q,
        trunc_div(q * b, b) == q,
{
    let bb = abs(b);
    let qq = abs(q);
    assert(abs(q * b) == qq * bb) by (nonlinear_arith)
        requires
            bb == abs(b),
            qq == abs(q),
    ;
    assert((q * b >= 0) == (q == 0 || (q > 0) == (b > 0))) by (nonlinear_arith)
        requires
            b != 0,
    ;
    assert((2 * bb) * qq <= 2 * (qq * bb) + bb < (2 * bb) * qq + 2 * bb) by (nonlinear_arith)
        requires
            bb > 0,
    ;
    lemma_div_unique(2 * (qq * bb) + bb, 2 * bb, qq);
    assert(bb * qq <= qq * bb < bb * qq + bb) by (nonlinear_arith)
        requires
            bb > 0,
    ;
    lemma_div_unique(qq * bb, bb, qq);
}

/// Quotient of `a` by `b` rounded toward zero, for `b != 0`.
pub open spec fn trunc_div(a: int, b: int) -> int {
    if a >= 0 && b > 0 {
        a / b
    } else if a < 0 && b > 0 {
        -((-a) / b)
    } else if a >= 0 && b < 0 {
        -(a / (-b))
    } else {
        (-a) / (-b)
    }
}

/// Quotient of `a` by `b` rounded to the nearest integer, halves away from
/// zero, for `b != 0`.
pub open spec fn round_div(a: int, b: int) -> int {
    if a >= 0 && b > 0 {
        (2 * a + b) / (2 * b)
    } else if a < 0 && b > 0 {
        -((2 * (-a) + b) / (2 * b))
    } else if a >= 0 && b < 0 {
        -((2 * a + (-b)) / (2 * (-b)))
    } else {
        (2 * (-a) + (-b)) / (2 * (-b))
    }
}

/// `r` is the integer square root of `n`, rounded down.
pub open spec fn is_floor_sqrt(n: int, r: int) -> bool {
    0 <= r && r * r <= n < (r + 1) * (r + 1)
}

/// `r` is the integer nearest to the square root of `n`.
///
/// The square root of an integer is never half-way between two integers,
/// so there is exactly one such `r` for each `n >= 0`.
pub open spec fn is_nearest_sqrt(n: int, r: int) -> bool {
    0 <= r && r * r - r < n <= r * r + r || (n == 0 && r == 0)
}

/// Two floor square roots of one number are equal.
pub proof fn lemma_floor_sqrt_unique(n: int, r1: int, r2: int)
    requires
        is_floor_sqrt(n, r1),
        is_floor_sqrt(n, r2),
    ensures
        r1 == r2,
{
    if r1 < r2 {
        assert((r1 + 1) * (r1 + 1) <= r2 * r2) by (nonlinear_arith)
            requires
                0 <= r1,
                r1 + 1 <= r2,
        ;
    } else if r2 < r1 {
        assert((r2 + 1) * (r2 + 1) <= r1 * r1) by (nonlinear_arith)
            requires
                0 <= r2,
                r2 + 1 <= r1,
        ;
    }
}

/// Two nearest square roots of one number are equal.
pub proof fn lemma_nearest_sqrt_unique(n: int, r1: int, r2: int)
    requires
        is_nearest_sqrt(n, r1),
        is_nearest_sqrt(n, r2),
    ensures
        r1 == r2,
{
    if r1 < r2 {
        assert(r1 * r1 + r1 <= r2 * r2 - r2) by (nonlinear_arith)
            requires
                0 <= r1,
                r1 + 1 <= r2,
        ;
    } else if r2 < r1 {
        assert(r2 * r2 + r2 <= r1 * r1 - r1) by (nonlinear_arith)
            requires
                0 <= r2,
                r2 + 1 <= r1,
        ;
    }
}

/// Divides rounding toward zero.
pub fn div_trunc(a: i128, b: i128) -> (q: i128)
    requires
        b != 0,
        a != i128::MIN,
        b != i128::MIN,
    ensures
        q == trunc_div(a as int, b as int),
{
    if a >= 0 && b > 0 {
        a / b
    } else if a < 0 && b > 0 {
        -((-a) / b)
    } else if a >= 0 && b < 0 {
        -(a / (-b))
    } else {
        (-a) / (-b)
    }
}

/// Divides rounding to the nearest integer, halves away from zero.
pub fn div_round(a: i128, b: i128) -> (q: i128)
    requires
        b != 0,
        -(i128::MAX / 4) <= a <= i128::MAX / 4,
        -(i128::MAX / 4) <= b <= i128::MAX / 4,
    ensures
        q == round_div(a as int, b as int),
{
    if a >= 0 && b > 0 {
        (2 * a + b) / (2 * b)
    } else if a < 0 && b > 0 {
        -((2 * (-a) + b) / (2 * b))
    } else if a >= 0 && b < 0 {
        -((2 * a + (-b)) / (2 * (-b)))
    } else {
        (2 * (-a) + (-b)) / (2 * (-b))
    }
}

/// Integer square root, rounded down.
pub fn floor_sqrt(n: u128) -> (r: u128)
    ensures
        is_floor_sqrt(n as int, r as int),
        r < 0x1_0000_0000_0000_0000,
{
    let mut lo: u128 = 0;
    let mut hi: u128 = 0x1_0000_0000_0000_0000;
    assert(0x1_0000_0000_0000_0000 * 0x1_0000_0000_0000_0000 > u128::MAX) by (nonlinear_arith);
    while hi - lo > 1
        invariant
            lo < hi <= 0x1_0000_0000_0000_0000,
            lo * lo <= n,
            n < hi * hi,
        decreases hi - lo,
    {
        let mid: u128 = lo + (hi - lo) / 2;
        assert(mid * mid < 0x1_0000_0000_0000_0000 * 0x1_0000_0000_0000_0000) by (nonlinear_arith)
            requires
                0 <= mid < 0x1_0000_0000_0000_0000,
        ;
        if mid * mid <= n {
            lo = mid;
        } else {
            hi = mid;
        }
    }
    lo
}

/// The integer nearest to the square root of `n`.
pub fn nearest_sqrt(n: u128) -> (r: u128)
    requires
        n <= u128::MAX / 4,
    ensures
        is_nearest_sqrt(n as int, r as int),
{
    let s: u128 = floor_sqrt(4 * n);
    let r: u128 = (s + 1) / 2;
    proof {
        let si = s as int;
        let ri = r as int;
        let ni = n as int;
        assert(si * si <= 4 * ni < (si + 1) * (si + 1));
        if si % 2 == 1 {
            assert(si == 2 * ri - 1);
            assert((2 * ri - 1) * (2 * ri - 1) == 4 * (ri * ri - ri) + 1) by (nonlinear_arith);
            assert((2 * ri) * (2 * ri) == 4 * (ri * ri)) by (nonlinear_arith);
        } else {
            assert(si == 2 * ri);
            assert((2 * ri) * (2 * ri) == 4 * (ri * ri)) by (nonlinear_arith);
            assert((2 * ri + 1) * (2 * ri + 1) == 4 * (ri * ri + ri) + 1) by (nonlinear_arith);
        }
    }
    r
}

} // verus!
