//! Fixed-point arithmetic for the heightfield.
//!
//! Every real quantity of the landscape (coordinates, heights, gradients,
//! interpolation weights) is carried as an `i64` scaled by `SCALE`: the stored
//! value `v` stands for the real number `v / SCALE`.

use vstd::prelude::*;

verus! {

use vstd::arithmetic::div_mod::lemma_fundamental_div_mod;
use vstd::arithmetic::div_mod::lemma_fundamental_div_mod_converse;
use vstd::arithmetic::div_mod::lemma_div_is_ordered;

/// One whole unit: the stored value that stands for the real number 1.
pub const SCALE: i64 = 65536;

/// The largest magnitude a corner dot product, and hence an interpolated
/// noise value, can take: gradients and cell offsets both have magnitude
/// at most one unit, so a dot product stays within two square units.
pub const NOISE_BOUND: i64 = 2 * 65536 * 65536;

/// Floor division as an `int` function. For a positive divisor the ghost
/// `/` is Euclidean division, which is already the floor, so this is only
/// a readable name for it.
pub open spec fn fdiv(a: int, d: int) -> int {
    a / d
}

/// Euclidean (floor) division of `a` by a positive divisor `d`.
///
/// Rust's `/` on signed integers truncates towards zero; the heightfield
/// interpolation needs the floor on negative values too, so the negative
/// case is computed from a ceiling division of the magnitude.
pub fn floor_div(a: i64, d: i64) -> (r: i64)
    requires
        0 < d < 0x2000_0000_0000_0000,
        -0x2000_0000_0000_0000 < a < 0x2000_0000_0000_0000,
    ensures
        r == fdiv(a as int, d as int),
{
    if a >= 0 {
        ((a as u64) / (d as u64)) as i64
    } else {
        let m = (-a) as u64;
        let q = (m + (d as u64) - 1) / (d as u64);
        proof {
            lemma_ceil_div_as_floor(m as int, d as int, q as int);
        }
        -(q as i64)
    }
}

/// For a positive magnitude `m`, the ceiling quotient `q = (m + d - 1) / d`
/// satisfies `(-m) / d == -q` under Euclidean division.
proof fn lemma_ceil_div_as_floor(m: int, d: int, q: int)
    requires
        0 < m,
        0 < d,
        q == (m + d - 1) / d,
    ensures
        (-m) / d == -q,
{
    lemma_fundamental_div_mod(m + d - 1, d);
    let r = (m + d - 1) % d;
    assert(q * d == m + (d - 1 - r));
    assert(0 <= d - 1 - r < d);
    assert((-m) == (-q) * d + (q * d - m)) by (nonlinear_arith)
        requires
            q * d == m + (d - 1 - r),
    ;
    lemma_fundamental_div_mod_converse(-m, d, -q, q * d - m);
}

/// An exact multiple divides back to the factor: `(a * d) / d == a`.
pub proof fn lemma_div_of_multiple(a: int, d: int)
    requires
        0 < d,
    ensures
        (a * d) / d == a,
{
    assert(a * d == a * d + 0);
    lemma_fundamental_div_mod_converse(a * d, d, a, 0);
}

/// Linear interpolation between `a` and `b` with a fixed-point weight `f`
/// in `[0, SCALE]`, as an `int` function.
pub open spec fn lerp_spec(a: int, b: int, f: int) -> int {
    fdiv(a * (SCALE - f) + b * f, SCALE as int)
}

/// Linear interpolation: `a` at weight `0`, `b` at weight `SCALE`.
/// The result stays within the bound that holds of both inputs.
pub fn lerp(a: i64, b: i64, f: i64) -> (r: i64)
    requires
        0 <= f <= SCALE,
        -NOISE_BOUND <= a <= NOISE_BOUND,
        -NOISE_BOUND <= b <= NOISE_BOUND,
    ensures
        r == lerp_spec(a as int, b as int, f as int),
        -NOISE_BOUND <= r <= NOISE_BOUND,
{
    proof {
        lemma_lerp_numerator_bound(a as int, b as int, f as int);
    }
    let left = a * (SCALE - f);
    let n = left + b * f;
    let r = floor_div(n, SCALE);
    proof {
        lemma_div_of_multiple(-(NOISE_BOUND as int), SCALE as int);
        lemma_div_of_multiple(NOISE_BOUND as int, SCALE as int);
        lemma_div_is_ordered(-NOISE_BOUND * SCALE, n as int, SCALE as int);
        lemma_div_is_ordered(n as int, NOISE_BOUND * SCALE, SCALE as int);
    }
    r
}

/// The interpolation numerator is a weighted mean scaled by `SCALE`, so it
/// stays within `NOISE_BOUND * SCALE`.
proof fn lemma_lerp_numerator_bound(a: int, b: int, f: int)
    requires
        0 <= f <= SCALE,
        -NOISE_BOUND <= a <= NOISE_BOUND,
        -NOISE_BOUND <= b <= NOISE_BOUND,
    ensures
        -NOISE_BOUND * SCALE <= a * (SCALE - f) + b * f <= NOISE_BOUND * SCALE,
        -NOISE_BOUND * SCALE <= a * (SCALE - f) <= NOISE_BOUND * SCALE,
        -NOISE_BOUND * SCALE <= b * f <= NOISE_BOUND * SCALE,
{
    assert(-NOISE_BOUND * SCALE <= a * (SCALE - f) + b * f <= NOISE_BOUND * SCALE
        && -NOISE_BOUND * SCALE <= a * (SCALE - f) <= NOISE_BOUND * SCALE
        && -NOISE_BOUND * SCALE <= b * f <= NOISE_BOUND * SCALE)
        by (nonlinear_arith)
        requires
            0 <= f <= SCALE,
            -NOISE_BOUND <= a <= NOISE_BOUND,
            -NOISE_BOUND <= b <= NOISE_BOUND,
    ;
}

/// Interpolating with weight `0` returns the first input exactly.
pub proof fn lemma_lerp_at_zero(a: int, b: int)
    ensures
        lerp_spec(a, b, 0) == a,
{
    assert(a * (SCALE - 0) + b * 0 == a * SCALE) by (nonlinear_arith);
    lemma_div_of_multiple(a, SCALE as int);
}

/// The cubic Hermite ease `t * t * (3 - 2 * t)` in fixed point, as an `int`
/// function: the input and the result both carry scale `SCALE`.
pub open spec fn smooth_spec(t: int) -> int {
    fdiv(t * t * (3 * SCALE - 2 * t), (SCALE * SCALE) as int)
}

/// The ease numerator `t * t * (3 * SCALE - 2 * t)` stays within
/// `[0, SCALE^3]` for `t` in `[0, SCALE]`.
proof fn lemma_smooth_numerator_bound(t: int)
    requires
        0 <= t <= SCALE,
    ensures
        0 <= t * t <= SCALE * SCALE,
        0 <= t * t * (3 * SCALE - 2 * t) <= SCALE * SCALE * SCALE,
{
    let s = SCALE as int;
    assert(0 <= t * t <= s * s) by (nonlinear_arith)
        requires
            0 <= t <= s,
    ;
    assert(s * s * s - t * t * (3 * s - 2 * t) == (s - t) * (s - t) * (s + 2 * t))
        by (nonlinear_arith);
    assert((s - t) * (s - t) * (s + 2 * t) >= 0) by (nonlinear_arith)
        requires
            0 <= t <= s,
    ;
    assert(t * t * (3 * s - 2 * t) >= 0) by (nonlinear_arith)
        requires
            0 <= t <= s,
    ;
}

/// The cubic Hermite ease function. Zero at zero, identity at one unit,
/// and monotone in between (`lemma_smooth_monotonic`).
pub fn smooth(v: i64) -> (r: i64)
    requires
        0 <= v <= SCALE,
    ensures
        r == smooth_spec(v as int),
        0 <= r <= SCALE,
{
    proof {
        lemma_smooth_numerator_bound(v as int);
    }
    let sq = v * v;
    let n = sq * (3 * SCALE - 2 * v);
    let r = floor_div(n, SCALE * SCALE);
    proof {
        let s = SCALE as int;
        lemma_div_of_multiple(0, s * s);
        lemma_div_of_multiple(s, s * s);
        assert(s * (s * s) == s * s * s) by (nonlinear_arith);
        lemma_div_is_ordered(0, n as int, s * s);
        lemma_div_is_ordered(n as int, s * s * s, s * s);
    }
    r
}

/// The ease function vanishes at the start of the unit interval.
pub proof fn lemma_smooth_zero()
    ensures
        smooth_spec(0) == 0,
{
    let d = (SCALE * SCALE) as int;
    assert(0 * 0 * (3 * SCALE - 2 * 0) == 0) by (nonlinear_arith);
    lemma_div_of_multiple(0, d);
    assert(0 * d == 0) by (nonlinear_arith);
}

/// The ease function is the identity at the end of the unit interval.
pub proof fn lemma_smooth_one()
    ensures
        smooth_spec(SCALE as int) == SCALE,
{
    let s = SCALE as int;
    assert(s * s * (3 * s - 2 * s) == s * (s * s)) by (nonlinear_arith);
    lemma_div_of_multiple(s, s * s);
}

/// The ease function fixes the midpoint of the unit interval.
pub proof fn lemma_smooth_half()
    ensures
        smooth_spec((SCALE / 2) as int) == SCALE / 2,
{
    assert(32768int * 32768 * (3 * SCALE - 2 * 32768) == 32768 * ((SCALE * SCALE) as int));
    lemma_div_of_multiple(32768, (SCALE * SCALE) as int);
}

/// The ease function is monotone on the unit interval.
pub proof fn lemma_smooth_monotonic(a: int, b: int)
    requires
        0 <= a <= b <= SCALE,
    ensures
        smooth_spec(a) <= smooth_spec(b),
{
    let s = SCALE as int;
    assert(b * b * (3 * s - 2 * b) - a * a * (3 * s - 2 * a)
        == (b - a) * (3 * s * (a + b) - 2 * (a * a + a * b + b * b)))
        by (nonlinear_arith);
    assert((b - a) * (3 * s * (a + b) - 2 * (a * a + a * b + b * b)) >= 0)
        by (nonlinear_arith)
        requires
            0 <= a <= b <= s,
    ;
    lemma_div_is_ordered(
        a * a * (3 * s - 2 * a),
        b * b * (3 * s - 2 * b),
        s * s,
    );
}

/// Integer square root by binary search: the greatest `r` with `r * r <= n`.
pub fn isqrt(n: u64) -> (r: u64)
    requires
        n <= 0x1_0000_0000,
    ensures
        r * r <= n,
        n < (r + 1) * (r + 1),
        r <= 65536,
{
    let mut lo: u64 = 0;
    let mut hi: u64 = 65537;
    assert(65537 * 65537 > 0x1_0000_0000int);
    while lo + 1 < hi
        invariant
            lo < hi <= 65537,
            lo * lo <= n,
            n < hi * hi,
        decreases hi - lo,
    {
        let mid = lo + (hi - lo) / 2;
        proof {
            assert(mid * mid <= 65537 * 65537) by (nonlinear_arith)
                requires
                    0 <= mid <= 65537,
            ;
        }
        if mid * mid <= n {
            lo = mid;
        } else {
            hi = mid;
        }
    }
    lo
}

} // verus!

