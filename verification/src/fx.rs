//! Saturating fixed-point arithmetic on scaled 64-bit integers.
//!
//! A quantity `q` is represented by the integer `q * SCALE`, so one whole
//! unit is `SCALE`. Every operation saturates at `±FX_MAX`, which keeps the
//! arithmetic total: a tick of the simulation can never panic or overflow.
//! Products and quotients round toward zero, as the corresponding machine
//! division does.

use vstd::prelude::*;

verus! {

/// Number of integer steps per whole unit.
pub const SCALE: i64 = 1_000_000;

/// Saturation bound of the representation; `FX_MAX < 2^62`, so products of
/// two in-range values fit in an `i128`.
pub const FX_MAX: i64 = 4_000_000_000_000_000_000;

/// Half of one whole unit (`SCALE / 2`).
pub const HALF_SCALE: i64 = 500_000;

/// An integer is a valid fixed-point value when it lies within the
/// saturation bounds.
pub open spec fn fx_ok(x: int) -> bool {
    -(FX_MAX as int) <= x <= FX_MAX as int
}

/// Absolute value.
pub open spec fn iabs(x: int) -> int {
    if x >= 0 {
        x
    } else {
        -x
    }
}

/// Saturation to the representable range.
pub open spec fn clip(x: int) -> int {
    if x > FX_MAX as int {
        FX_MAX as int
    } else if x < -(FX_MAX as int) {
        -(FX_MAX as int)
    } else {
        x
    }
}

/// Division rounding toward zero, the rounding of machine division.
/// Meaningful only for `d != 0`.
pub open spec fn tdiv(n: int, d: int) -> int {
    if n == 0 {
        0
    } else if n > 0 && d > 0 {
        n / d
    } else if n < 0 && d < 0 {
        (-n) / (-d)
    } else if n < 0 {
        -((-n) / d)
    } else {
        -(n / (-d))
    }
}

/// Saturating sum.
pub open spec fn fx_add_s(a: int, b: int) -> int {
    clip(a + b)
}

/// Saturating difference.
pub open spec fn fx_sub_s(a: int, b: int) -> int {
    clip(a - b)
}

/// Saturating fixed-point product: the integer product rescaled by `SCALE`,
/// rounding toward zero.
pub open spec fn fx_mul_s(a: int, b: int) -> int {
    clip(tdiv(a * b, SCALE as int))
}

/// Saturating fixed-point quotient (`b != 0`): `a` prescaled by `SCALE`,
/// rounding toward zero.
pub open spec fn fx_div_s(a: int, b: int) -> int {
    clip(tdiv(a * SCALE, b))
}

/// Half of a value, rounding toward zero. Never saturates.
pub open spec fn fx_half_s(a: int) -> int {
    tdiv(a, 2)
}

/// Clamp into `[lo, hi]`.
pub open spec fn fx_clamp_s(x: int, lo: int, hi: int) -> int {
    if x < lo {
        lo
    } else if x > hi {
        hi
    } else {
        x
    }
}

/// Every element of the sequence is a valid fixed-point value.
pub open spec fn all_fx_ok(s: Seq<i64>) -> bool {
    forall|i: int| 0 <= i < s.len() ==> fx_ok(#[trigger] s[i] as int)
}

/// Updating one slot with a valid value keeps a sequence valid.
pub proof fn lemma_all_fx_ok_update(s: Seq<i64>, i: int, v: i64)
    requires
        all_fx_ok(s),
        0 <= i < s.len(),
        fx_ok(v as int),
    ensures
        all_fx_ok(s.update(i, v)),
{
    assert forall|k: int| 0 <= k < s.update(i, v).len() implies fx_ok(
        #[trigger] s.update(i, v)[k] as int,
    ) by {
        if k != i {
            assert(fx_ok(s[k] as int));
        }
    }
}

/// Saturate an `i128` intermediate back into the `i64` range.
fn fx_clip128(x: i128) -> (r: i64)
    ensures
        r as int == clip(x as int),
        fx_ok(r as int),
{
    if x > FX_MAX as i128 {
        FX_MAX
    } else if x < -(FX_MAX as i128) {
        -FX_MAX
    } else {
        x as i64
    }
}

/// Saturating addition of fixed-point values.
pub fn fx_add(a: i64, b: i64) -> (r: i64)
    requires
        fx_ok(a as int),
        fx_ok(b as int),
    ensures
        r as int == fx_add_s(a as int, b as int),
        fx_ok(r as int),
{
    let s: i128 = a as i128 + b as i128;
    fx_clip128(s)
}

/// Saturating subtraction of fixed-point values.
pub fn fx_sub(a: i64, b: i64) -> (r: i64)
    requires
        fx_ok(a as int),
        fx_ok(b as int),
    ensures
        r as int == fx_sub_s(a as int, b as int),
        fx_ok(r as int),
{
    let s: i128 = a as i128 - b as i128;
    fx_clip128(s)
}

/// Negation; the representable range is symmetric, so this is exact.
pub fn fx_neg(a: i64) -> (r: i64)
    requires
        fx_ok(a as int),
    ensures
        r as int == -(a as int),
        fx_ok(r as int),
{
    -a
}

/// Absolute value.
pub fn fx_abs(a: i64) -> (r: i64)
    requires
        fx_ok(a as int),
    ensures
        r as int == iabs(a as int),
        fx_ok(r as int),
{
    if a < 0 {
        -a
    } else {
        a
    }
}

/// Saturating fixed-point multiplication.
pub fn fx_mul(a: i64, b: i64) -> (r: i64)
    requires
        fx_ok(a as int),
        fx_ok(b as int),
    ensures
        r as int == fx_mul_s(a as int, b as int),
        fx_ok(r as int),
{
    proof {
        assert((a as int) * (b as int) <= (FX_MAX as int) * (FX_MAX as int)
            && (a as int) * (b as int) >= -((FX_MAX as int) * (FX_MAX as int))) by (nonlinear_arith)
            requires
                fx_ok(a as int),
                fx_ok(b as int),
        ;
    }
    let p: i128 = (a as i128) * (b as i128);
    proof {
        lemma_tdiv_bound(p as int, SCALE as int);
    }
    let q: i128 = p.checked_div(SCALE as i128).unwrap();
    fx_clip128(q)
}

/// Saturating fixed-point division; `b` must be nonzero.
pub fn fx_div(a: i64, b: i64) -> (r: i64)
    requires
        fx_ok(a as int),
        fx_ok(b as int),
        b != 0,
    ensures
        r as int == fx_div_s(a as int, b as int),
        fx_ok(r as int),
{
    proof {
        assert((a as int) * (SCALE as int) <= (FX_MAX as int) * (SCALE as int)
            && (a as int) * (SCALE as int) >= -((FX_MAX as int) * (SCALE as int))) by (nonlinear_arith)
            requires
                fx_ok(a as int),
        ;
    }
    let p: i128 = (a as i128) * (SCALE as i128);
    proof {
        lemma_tdiv_bound(p as int, b as int);
    }
    let q: i128 = p.checked_div(b as i128).unwrap();
    fx_clip128(q)
}

/// Half of a fixed-point value, rounding toward zero.
pub fn fx_half(a: i64) -> (r: i64)
    requires
        fx_ok(a as int),
    ensures
        r as int == fx_half_s(a as int),
        fx_ok(r as int),
{
    proof {
        lemma_tdiv_bound(a as int, 2);
    }
    a.checked_div(2).unwrap()
}

/// Clamp a fixed-point value into `[lo, hi]`.
pub fn fx_clamp(x: i64, lo: i64, hi: i64) -> (r: i64)
    requires
        lo <= hi,
    ensures
        r as int == fx_clamp_s(x as int, lo as int, hi as int),
        lo <= r <= hi,
{
    if x < lo {
        lo
    } else if x > hi {
        hi
    } else {
        x
    }
}

/// Integer square root: the greatest `r` with `r * r <= n` (0 for `n <= 0`).
pub open spec fn isqrt_s(n: int) -> int
    decreases n,
{
    if n <= 0 {
        0
    } else {
        let r = isqrt_s(n - 1);
        if (r + 1) * (r + 1) <= n {
            r + 1
        } else {
            r
        }
    }
}

/// The integer square root is characterized by `r^2 <= n < (r+1)^2`.
pub proof fn lemma_isqrt_bounds(n: int)
    requires
        n >= 0,
    ensures
        isqrt_s(n) >= 0,
        isqrt_s(n) * isqrt_s(n) <= n,
        n < (isqrt_s(n) + 1) * (isqrt_s(n) + 1),
    decreases n,
{
    if n == 0 {
    } else {
        lemma_isqrt_bounds(n - 1);
        let r = isqrt_s(n - 1);
        if (r + 1) * (r + 1) <= n {
            assert(n - 1 < (r + 1) * (r + 1));
            assert(n < (r + 2) * (r + 2)) by (nonlinear_arith)
                requires
                    r >= 0,
                    n <= (r + 1) * (r + 1),
            ;
        }
    }
}

/// Any `r` in the characteristic window equals the integer square root.
pub proof fn lemma_isqrt_unique(n: int, r: int)
    requires
        n >= 0,
        r >= 0,
        r * r <= n,
        n < (r + 1) * (r + 1),
    ensures
        r == isqrt_s(n),
{
    lemma_isqrt_bounds(n);
    let s = isqrt_s(n);
    if r < s {
        assert((r + 1) * (r + 1) <= s * s) by (nonlinear_arith)
            requires
                0 <= r,
                r + 1 <= s,
        ;
    }
    if s < r {
        assert((s + 1) * (s + 1) <= r * r) by (nonlinear_arith)
            requires
                0 <= s,
                s + 1 <= r,
        ;
    }
}

/// Integer square root of a `u128`, by bisection.
pub fn isqrt_u128(n: u128) -> (r: u128)
    ensures
        r as int == isqrt_s(n as int),
        r as int * r as int <= n as int,
        (n as int) < (r as int + 1) * (r as int + 1),
{
    let mut lo: u128 = 0;
    let mut hi: u128 = 0xffff_ffff_ffff_ffff;
    if n < hi {
        hi = n;
    }
    proof {
        assert((n as int) < (hi as int + 1) * (hi as int + 1)) by (nonlinear_arith)
            requires
                hi as int >= 0xffff_ffff_ffff_ffff || hi as int >= n as int,
                n < 0x1_0000_0000_0000_0000_0000_0000_0000_0000,
        ;
    }
    while lo < hi
        invariant
            0 <= lo <= hi,
            hi <= 0xffff_ffff_ffff_ffff,
            lo as int * lo as int <= n as int,
            (n as int) < (hi as int + 1) * (hi as int + 1),
        decreases hi - lo,
    {
        let mid: u128 = lo + (hi - lo + 1) / 2;
        proof {
            assert(mid as int * mid as int <= 0xffff_ffff_ffff_ffff * 0xffff_ffff_ffff_ffff)
                by (nonlinear_arith)
                requires
                    0 <= mid as int <= 0xffff_ffff_ffff_ffff,
            ;
        }
        let sq: u128 = mid * mid;
        if sq <= n {
            lo = mid;
        } else {
            hi = mid - 1;
        }
    }
    proof {
        lemma_isqrt_unique(n as int, lo as int);
    }
    lo
}

/// Square root of a nonnegative fixed-point value, rounding down to the
/// representation grid: the result is `isqrt_s(x * SCALE)`.
pub open spec fn fx_sqrt_s(x: int) -> int {
    isqrt_s(x * SCALE)
}

/// Square root of a nonnegative fixed-point value.
pub fn fx_sqrt(x: i64) -> (r: i64)
    requires
        0 <= x,
        fx_ok(x as int),
    ensures
        r as int == fx_sqrt_s(x as int),
        0 <= r,
        fx_ok(r as int),
{
    proof {
        assert(x as int * SCALE as int <= FX_MAX as int * SCALE as int) by (nonlinear_arith)
            requires
                0 <= x as int <= FX_MAX as int,
        ;
    }
    let n: u128 = (x as u128) * (SCALE as u128);
    let r: u128 = isqrt_u128(n);
    proof {
        assert(r as int <= 0x4_0000_0000_0000) by (nonlinear_arith)
            requires
                r as int * r as int <= n as int,
                r as int >= 0,
                n as int <= FX_MAX as int * SCALE as int,
        ;
    }
    r as i64
}

/// Rounding toward zero never grows the magnitude: `|n / d| <= |n|` for
/// `|d| >= 1`.
pub proof fn lemma_tdiv_bound(n: int, d: int)
    requires
        d != 0,
    ensures
        iabs(tdiv(n, d)) <= iabs(n),
        n > 0 && d > 0 ==> 0 <= tdiv(n, d) <= n,
{
    let a = iabs(n);
    let b = iabs(d);
    if a > 0 {
        assert(0 <= a / b <= a) by (nonlinear_arith)
            requires
                a > 0,
                b >= 1,
        ;
    }
}

/// Rounding toward zero commutes with negation in the dividend.
pub proof fn lemma_tdiv_neg(n: int, d: int)
    requires
        d > 0,
    ensures
        tdiv(-n, d) == -tdiv(n, d),
{
}

/// Saturation commutes with negation.
pub proof fn lemma_clip_neg(x: int)
    ensures
        clip(-x) == -clip(x),
{
}

/// The fixed-point product of nonnegative factors is nonnegative.
pub proof fn lemma_fx_mul_nonneg(a: int, b: int)
    requires
        0 <= a,
        0 <= b,
    ensures
        0 <= fx_mul_s(a, b),
{
    assert(0 <= a * b) by (nonlinear_arith)
        requires
            0 <= a,
            0 <= b,
    ;
    if a * b > 0 {
        vstd::arithmetic::div_mod::lemma_div_is_ordered(0, a * b, SCALE as int);
    }
}

/// A nonnegative factor of at most one unit never grows the other factor's
/// magnitude: `0 <= fx_mul_s(a, b) <= a` for `0 <= b <= SCALE`.
pub proof fn lemma_fx_mul_shrinks(a: int, b: int)
    requires
        0 <= a,
        0 <= b <= SCALE as int,
    ensures
        0 <= fx_mul_s(a, b) <= a,
{
    let s = SCALE as int;
    lemma_fx_mul_nonneg(a, b);
    assert(a * b <= a * s && 0 <= a * b) by (nonlinear_arith)
        requires
            0 <= a,
            0 <= b <= s,
    ;
    if a * b > 0 {
        vstd::arithmetic::div_mod::lemma_div_is_ordered(a * b, a * s, s);
        vstd::arithmetic::div_mod::lemma_div_multiples_vanish(a, s);
        assert(a * s == s * a) by (nonlinear_arith);
    }
}

/// A fixed-point square is nonnegative.
pub proof fn lemma_fx_square_nonneg(a: int)
    ensures
        0 <= fx_mul_s(a, a),
{
    if a >= 0 {
        lemma_fx_mul_nonneg(a, a);
    } else {
        lemma_fx_mul_neg(a, a);
        lemma_fx_mul_neg(-a, a);
        lemma_fx_mul_nonneg(-a, -a);
    }
}

/// The fixed-point product commutes with negation of either factor.
pub proof fn lemma_fx_mul_neg(a: int, b: int)
    ensures
        fx_mul_s(-a, b) == -fx_mul_s(a, b),
        fx_mul_s(a, -b) == -fx_mul_s(a, b),
    {
    lemma_tdiv_neg(a * b, SCALE as int);
    lemma_clip_neg(tdiv(a * b, SCALE as int));
    assert((-a) * b == -(a * b)) by (nonlinear_arith);
    assert(a * (-b) == -(a * b)) by (nonlinear_arith);
}

} // verus!
