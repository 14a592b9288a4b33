//! Fixed-point arithmetic in hundredth units.
//!
//! A value `v: i64` stands for the real number `v / 100`. Every operation
//! of the expression grammar is defined here as an executable function with
//! an exact specification; an operation whose guard fails or whose result
//! would leave the representable range returns `None`, and the generator
//! silently drops it, mirroring how non-finite results are excluded from
//! the candidate universe.

use vstd::prelude::*;

verus! {

/// Magnitude bound on representable values, in hundredth units.
pub const VAL_LIMIT: i64 = 1_000_000_000_000_000;

/// Hundredths per whole unit.
pub const SCALE: i64 = 100;

/// A value is representable when its magnitude stays within `VAL_LIMIT`.
pub open spec fn fits_val(v: int) -> bool {
    -(VAL_LIMIT as int) <= v <= VAL_LIMIT as int
}

/// Truncating (toward zero) division, the rounding of a quotient of reals.
pub open spec fn tdiv(x: int, d: int) -> int
    recommends
        d != 0,
{
    let m = (vstd::math::abs(x) as int) / (vstd::math::abs(d) as int);
    if (x < 0) == (d < 0) {
        m
    } else {
        -m
    }
}

/// Remainder with the dividend's sign, the rounding of a real `fmod`.
pub open spec fn tmod(x: int, d: int) -> int
    recommends
        d != 0,
{
    let m = (vstd::math::abs(x) as int) % (vstd::math::abs(d) as int);
    if x < 0 {
        -m
    } else {
        m
    }
}

/// Fixed-point product: `(a * b) / SCALE`, truncated toward zero.
pub open spec fn fx_mul(a: int, b: int) -> int {
    tdiv(a * b, SCALE as int)
}

/// Fixed-point quotient: `(a * SCALE) / b`, truncated toward zero.
pub open spec fn fx_div(a: int, b: int) -> int
    recommends
        b != 0,
{
    tdiv(a * (SCALE as int), b)
}

/// Largest multiple of `SCALE` not above `v` (the floor of the value).
pub open spec fn fx_floor(v: int) -> int {
    v - (v % (SCALE as int))
}

/// Smallest multiple of `SCALE` not below `v` (the ceiling of the value).
pub open spec fn fx_ceil(v: int) -> int {
    fx_floor(v + (SCALE as int) - 1)
}

/// Integer square root.
pub open spec fn isqrt_nat(n: nat) -> nat
    decreases n,
{
    if n == 0 {
        0
    } else {
        let r = isqrt_nat((n - 1) as nat);
        if (r + 1) * (r + 1) <= n {
            r + 1
        } else {
            r
        }
    }
}

/// Integer cube root.
pub open spec fn icbrt_nat(n: nat) -> nat
    decreases n,
{
    if n == 0 {
        0
    } else {
        let r = icbrt_nat((n - 1) as nat);
        if (r + 1) * (r + 1) * (r + 1) <= n {
            r + 1
        } else {
            r
        }
    }
}

/// Fixed-point square root of a non-negative value: the root of
/// `v / SCALE` is `sqrt(v * SCALE) / SCALE`.
pub open spec fn fx_sqrt(v: int) -> int
    recommends
        v >= 0,
{
    isqrt_nat((v * (SCALE as int)) as nat) as int
}

/// Fixed-point power with a non-negative whole exponent.
pub open spec fn fx_pow(a: int, n: nat) -> int
    decreases n,
{
    if n == 0 {
        SCALE as int
    } else {
        fx_mul(fx_pow(a, (n - 1) as nat), a)
    }
}

/// Whether every intermediate power stays representable.
pub open spec fn fx_pow_ok(a: int, n: nat) -> bool
    decreases n,
{
    if n == 0 {
        true
    } else {
        fx_pow_ok(a, (n - 1) as nat) && fits_val(fx_pow(a, n))
    }
}

/// Factorial of a small natural number.
pub open spec fn fact_nat(n: nat) -> nat
    decreases n,
{
    if n == 0 {
        1
    } else {
        n * fact_nat((n - 1) as nat)
    }
}

pub proof fn lemma_isqrt_bounds(n: nat)
    ensures
        (isqrt_nat(n) as int) * (isqrt_nat(n) as int) <= n as int,
        (n as int) < ((isqrt_nat(n) as int) + 1) * ((isqrt_nat(n) as int) + 1),
    decreases n,
{
    let s = isqrt_nat(n) as int;
    if n == 0 {
        assert(isqrt_nat(0) == 0);
    } else {
        lemma_isqrt_bounds((n - 1) as nat);
        let rn = isqrt_nat((n - 1) as nat);
        let r = rn as int;
        assert(r * r <= n - 1);
        assert((n as int) - 1 < (r + 1) * (r + 1));
        assert((rn + 1) * (rn + 1) == (r + 1) * (r + 1)) by (nonlinear_arith)
            requires
                r == rn as int,
                r >= 0,
        ;
        if (r + 1) * (r + 1) <= n as int {
            assert(isqrt_nat(n) == rn + 1);
            assert(s == r + 1);
            assert(s * s == (r + 1) * (r + 1)) by (nonlinear_arith)
                requires
                    s == r + 1,
            ;
            assert(s * s <= n as int);
            assert((n as int) < (s + 1) * (s + 1)) by (nonlinear_arith)
                requires
                    n as int <= s * s,
                    s >= 0,
            ;
        } else {
            assert(isqrt_nat(n) == rn);
            assert(s == r);
            assert(s * s == r * r) by (nonlinear_arith)
                requires
                    s == r,
            ;
            assert(s * s <= n as int);
            assert((s + 1) * (s + 1) == (r + 1) * (r + 1)) by (nonlinear_arith)
                requires
                    s == r,
            ;
            assert((n as int) < (s + 1) * (s + 1));
        }
    }
}

pub proof fn lemma_isqrt_unique(n: nat, r: int)
    requires
        0 <= r,
        r * r <= n as int,
        (n as int) < (r + 1) * (r + 1),
    ensures
        r == isqrt_nat(n) as int,
{
    let s = isqrt_nat(n) as int;
    lemma_isqrt_bounds(n);
    if r < s {
        assert((r + 1) * (r + 1) <= s * s) by (nonlinear_arith)
            requires
                0 <= r,
                r + 1 <= s,
        ;
    }
    if s < r {
        assert((s + 1) * (s + 1) <= r * r) by (nonlinear_arith)
            requires
                0 <= s,
                s + 1 <= r,
        ;
    }
}

pub proof fn lemma_icbrt_bounds(n: nat)
    ensures
        (icbrt_nat(n) as int) * (icbrt_nat(n) as int) * (icbrt_nat(n) as int) <= n as int,
        (n as int) < ((icbrt_nat(n) as int) + 1) * ((icbrt_nat(n) as int) + 1) * ((icbrt_nat(
            n,
        ) as int) + 1),
    decreases n,
{
    let s = icbrt_nat(n) as int;
    if n == 0 {
        assert(icbrt_nat(0) == 0);
    } else {
        lemma_icbrt_bounds((n - 1) as nat);
        let rn = icbrt_nat((n - 1) as nat);
        let r = rn as int;
        assert(r * r * r <= n - 1);
        assert((n as int) - 1 < (r + 1) * (r + 1) * (r + 1));
        assert((rn + 1) * (rn + 1) * (rn + 1) == (r + 1) * (r + 1) * (r + 1))
            by (nonlinear_arith)
            requires
                r == rn as int,
                r >= 0,
        ;
        if (r + 1) * (r + 1) * (r + 1) <= n as int {
            assert(icbrt_nat(n) == rn + 1);
            assert(s == r + 1);
            assert(s * s * s == (r + 1) * (r + 1) * (r + 1)) by (nonlinear_arith)
                requires
                    s == r + 1,
            ;
            assert(s * s * s <= n as int);
            assert((n as int) < (s + 1) * (s + 1) * (s + 1)) by (nonlinear_arith)
                requires
                    n as int <= s * s * s,
                    s >= 0,
            ;
        } else {
            assert(icbrt_nat(n) == rn);
            assert(s == r);
            assert(s * s * s == r * r * r) by (nonlinear_arith)
                requires
                    s == r,
            ;
            assert(s * s * s <= n as int);
            assert((s + 1) * (s + 1) * (s + 1) == (r + 1) * (r + 1) * (r + 1))
                by (nonlinear_arith)
                requires
                    s == r,
            ;
            assert((n as int) < (s + 1) * (s + 1) * (s + 1));
        }
    }
}

pub proof fn lemma_icbrt_unique(n: nat, r: int)
    requires
        0 <= r,
        r * r * r <= n as int,
        (n as int) < (r + 1) * (r + 1) * (r + 1),
    ensures
        r == icbrt_nat(n) as int,
{
    let s = icbrt_nat(n) as int;
    lemma_icbrt_bounds(n);
    if r < s {
        assert((r + 1) * (r + 1) * (r + 1) <= s * s * s) by (nonlinear_arith)
            requires
                0 <= r,
                r + 1 <= s,
        ;
    }
    if s < r {
        assert((s + 1) * (s + 1) * (s + 1) <= r * r * r) by (nonlinear_arith)
            requires
                0 <= s,
                s + 1 <= r,
        ;
    }
}

/// Truncating division of a bounded `i128` by a positive divisor.
fn tdiv_i128(x: i128, d: i128) -> (r: i128)
    requires
        d > 0,
        -0x40000000000000000000000000000000 < x < 0x40000000000000000000000000000000,
    ensures
        r == tdiv(x as int, d as int),
        vstd::math::abs(r as int) == (vstd::math::abs(x as int) as int) / (d as int),
        vstd::math::abs(r as int) <= vstd::math::abs(x as int),
{
    if x >= 0 {
        let q: u128 = (x as u128) / (d as u128);
        assert(q <= x as u128) by (nonlinear_arith)
            requires
                q == (x as u128) / (d as u128),
                d as u128 >= 1,
        ;
        q as i128
    } else {
        let m: u128 = ((-x) as u128) / (d as u128);
        assert(m <= (-x) as u128) by (nonlinear_arith)
            requires
                m == ((-x) as u128) / (d as u128),
                d as u128 >= 1,
        ;
        -(m as i128)
    }
}

/// Truncating remainder of a bounded `i128` by a positive divisor.
fn tmod_i128(x: i128, d: i128) -> (r: i128)
    requires
        d > 0,
        -0x40000000000000000000000000000000 < x < 0x40000000000000000000000000000000,
    ensures
        r == tmod(x as int, d as int),
        vstd::math::abs(r as int) < d,
{
    if x >= 0 {
        let m: u128 = (x as u128) % (d as u128);
        m as i128
    } else {
        let m: u128 = ((-x) as u128) % (d as u128);
        -(m as i128)
    }
}

/// Clamps an exactly-computed `i128` into a representable `i64`, or reports
/// that it does not fit.
fn into_val(x: i128) -> (r: Option<i64>)
    ensures
        r matches Some(v) ==> v == x && fits_val(x as int),
        r is None ==> !fits_val(x as int),
{
    if -(VAL_LIMIT as i128) <= x && x <= VAL_LIMIT as i128 {
        Some(x as i64)
    } else {
        None
    }
}

/// Checked fixed-point addition.
pub fn add_fx(a: i64, b: i64) -> (r: Option<i64>)
    requires
        fits_val(a as int),
        fits_val(b as int),
    ensures
        r matches Some(v) ==> v == a + b && fits_val(a + b),
        r is None ==> !fits_val(a + b),
{
    into_val(a as i128 + b as i128)
}

/// Checked fixed-point subtraction.
pub fn sub_fx(a: i64, b: i64) -> (r: Option<i64>)
    requires
        fits_val(a as int),
        fits_val(b as int),
    ensures
        r matches Some(v) ==> v == a - b && fits_val(a - b),
        r is None ==> !fits_val(a - b),
{
    into_val(a as i128 - b as i128)
}

/// Checked fixed-point multiplication.
pub fn mul_fx(a: i64, b: i64) -> (r: Option<i64>)
    requires
        fits_val(a as int),
        fits_val(b as int),
    ensures
        r matches Some(v) ==> v == fx_mul(a as int, b as int) && fits_val(fx_mul(a as int, b as int)),
        r is None ==> !fits_val(fx_mul(a as int, b as int)),
{
    assert(-0x40000000000000000000000000000000 < (a as int) * (b as int)
        && (a as int) * (b as int) < 0x40000000000000000000000000000000) by (nonlinear_arith)
        requires
            fits_val(a as int),
            fits_val(b as int),
    ;
    let p: i128 = (a as i128) * (b as i128);
    let q = tdiv_i128(p, SCALE as i128);
    into_val(q)
}

/// Checked fixed-point division.
pub fn div_fx(a: i64, b: i64) -> (r: Option<i64>)
    requires
        fits_val(a as int),
        fits_val(b as int),
        b != 0,
    ensures
        r matches Some(v) ==> v == fx_div(a as int, b as int) && fits_val(fx_div(a as int, b as int)),
        r is None ==> !fits_val(fx_div(a as int, b as int)),
{
    let p: i128 = (a as i128) * (SCALE as i128);
    let q = if b >= 0 {
        tdiv_i128(p, b as i128)
    } else {
        let q0 = tdiv_i128(p, -(b as i128));
        assert(tdiv(p as int, -(b as int)) == -tdiv(p as int, b as int));
        -q0
    };
    into_val(q)
}

/// Checked fixed-point remainder.
pub fn mod_fx(a: i64, b: i64) -> (r: Option<i64>)
    requires
        fits_val(a as int),
        fits_val(b as int),
        b != 0,
    ensures
        r matches Some(v) ==> v == tmod(a as int, b as int) && fits_val(tmod(a as int, b as int)),
        r is None ==> !fits_val(tmod(a as int, b as int)),
{
    let d: i128 = if b >= 0 {
        b as i128
    } else {
        -(b as i128)
    };
    assert(tmod(a as int, d as int) == tmod(a as int, b as int));
    let m = tmod_i128(a as i128, d);
    into_val(m)
}

/// Fixed-point square root of a non-negative value.
pub fn sqrt_fx(a: i64) -> (r: Option<i64>)
    requires
        fits_val(a as int),
        a >= 0,
    ensures
        r matches Some(v) ==> v == fx_sqrt(a as int) && fits_val(fx_sqrt(a as int)),
        r is None ==> !fits_val(fx_sqrt(a as int)),
{
    let n: u128 = (a as u128) * (SCALE as u128);
    let s = isqrt_u128(n);
    proof {
        lemma_isqrt_bounds(n as nat);
        assert(s as int <= n as int) by (nonlinear_arith)
            requires
                (s as int) * (s as int) <= n as int,
                s as int >= 0,
        ;
    }
    into_val(s as i128)
}

/// Integer square root of a bounded `u128` by bisection.
pub fn isqrt_u128(n: u128) -> (r: u128)
    requires
        n < 0x10000000000000000000000000000,
    ensures
        r as nat == isqrt_nat(n as nat),
{
    let mut lo: u128 = 0;
    let mut hi: u128 = 0x1000000000000000;
    assert((n as int) < ((hi as int) + 1) * ((hi as int) + 1)) by (nonlinear_arith)
        requires
            n < 0x10000000000000000000000000000,
            hi == 0x1000000000000000,
    ;
    while lo < hi
        invariant
            lo <= hi,
            hi <= 0x1000000000000000,
            (lo as int) * (lo as int) <= n as int,
            (n as int) < ((hi as int) + 1) * ((hi as int) + 1),
        decreases hi - lo,
    {
        let mid: u128 = lo + (hi - lo + 1) / 2;
        assert(lo < mid <= hi);
        assert((mid as int) * (mid as int) < 0x100000000000000000000000000000000)
            by (nonlinear_arith)
            requires
                mid <= 0x1000000000000000,
        ;
        let sq: u128 = mid * mid;
        if sq <= n {
            lo = mid;
        } else {
            hi = mid - 1;
        }
    }
    proof {
        lemma_isqrt_unique(n as nat, lo as int);
    }
    lo
}

/// Integer cube root of a bounded `u128` by bisection.
pub fn icbrt_u128(n: u128) -> (r: u128)
    requires
        n < 0x1000000000000000000000000000000,
    ensures
        r as nat == icbrt_nat(n as nat),
{
    let mut lo: u128 = 0;
    let mut hi: u128 = 0x10000000000;
    assert((n as int) < ((hi as int) + 1) * ((hi as int) + 1) * ((hi as int) + 1))
        by (nonlinear_arith)
        requires
            n < 0x1000000000000000000000000000000,
            hi == 0x10000000000,
    ;
    while lo < hi
        invariant
            lo <= hi,
            hi <= 0x10000000000,
            (lo as int) * (lo as int) * (lo as int) <= n as int,
            (n as int) < ((hi as int) + 1) * ((hi as int) + 1) * ((hi as int) + 1),
        decreases hi - lo,
    {
        let mid: u128 = lo + (hi - lo + 1) / 2;
        assert(lo < mid <= hi);
        assert((mid as int) * (mid as int) < 0x100000000000000000000000000000000
            && ((mid as int) * (mid as int)) * (mid as int)
            < 0x100000000000000000000000000000000) by (nonlinear_arith)
            requires
                mid <= 0x10000000000,
        ;
        let cb: u128 = (mid * mid) * mid;
        if cb <= n {
            lo = mid;
        } else {
            hi = mid - 1;
        }
    }
    proof {
        lemma_icbrt_unique(n as nat, lo as int);
    }
    lo
}

/// Largest multiple of `SCALE` not above the value.
pub fn floor_fx(a: i64) -> (r: Option<i64>)
    requires
        fits_val(a as int),
    ensures
        r matches Some(v) ==> v == fx_floor(a as int) && fits_val(fx_floor(a as int)),
        r is None ==> !fits_val(fx_floor(a as int)),
{
    let m = emod_scale(a);
    into_val(a as i128 - m as i128)
}

/// Smallest multiple of `SCALE` not below the value.
pub fn ceil_fx(a: i64) -> (r: Option<i64>)
    requires
        fits_val(a as int),
    ensures
        r matches Some(v) ==> v == fx_ceil(a as int) && fits_val(fx_ceil(a as int)),
        r is None ==> !fits_val(fx_ceil(a as int)),
{
    let m = emod_scale_i128(a as i128 + (SCALE - 1) as i128);
    into_val(a as i128 + (SCALE - 1) as i128 - m as i128)
}

/// Euclidean remainder of a value by `SCALE`.
fn emod_scale(a: i64) -> (r: i64)
    ensures
        r == (a as int) % (SCALE as int),
        0 <= r < SCALE,
{
    emod_scale_i128(a as i128) as i64
}

/// Euclidean remainder of a bounded `i128` by `SCALE`.
fn emod_scale_i128(a: i128) -> (r: i128)
    requires
        -0x40000000000000000000000000000000 < a < 0x40000000000000000000000000000000,
    ensures
        r == (a as int) % (SCALE as int),
        0 <= r < SCALE,
{
    let s: i128 = SCALE as i128;
    if a >= 0 {
        let m: u128 = (a as u128) % (s as u128);
        m as i128
    } else {
        let k: u128 = ((-a) as u128) % (s as u128);
        let r: i128 = if k == 0 {
            0
        } else {
            s - (k as i128)
        };
        proof {
            let ai = a as int;
            let si = s as int;
            let ki = k as int;
            vstd::arithmetic::div_mod::lemma_fundamental_div_mod(-ai, si);
            if ki == 0 {
                vstd::arithmetic::div_mod::lemma_fundamental_div_mod_converse(
                    ai, si, -((-ai) / si), 0);
            } else {
                vstd::arithmetic::div_mod::lemma_fundamental_div_mod_converse(
                    ai, si, -((-ai) / si) - 1, si - ki);
            }
        }
        r
    }
}

/// Factorial of a whole value between 0 and 12, scaled back into
/// hundredth units.
pub fn fact_fx(a: i64) -> (r: i64)
    requires
        0 <= a <= 1200,
        (a as int) % (SCALE as int) == 0,
    ensures
        r == (SCALE as int) * fact_nat((tdiv(a as int, SCALE as int)) as nat),
        fits_val(r as int),
{
    let n: u64 = (a as u64) / 100;
    proof {
        assert(n == tdiv(a as int, SCALE as int));
        assert(n <= 12);
    }
    let mut acc: u64 = 1;
    let mut i: u64 = 0;
    while i < n
        invariant
            i <= n,
            n <= 12,
            acc == fact_nat(i as nat),
        decreases n - i,
    {
        i = i + 1;
        proof {
            lemma_fact_mono((i - 1) as nat, 11);
            lemma_fact12();
            assert((i as int) * (fact_nat((i - 1) as nat) as int) <= 12 * 39916800)
                by (nonlinear_arith)
                requires
                    1 <= i as int <= 12,
                    0 <= fact_nat((i - 1) as nat) as int <= 39916800,
            ;
        }
        acc = acc * i;
        assert(acc == fact_nat(i as nat));
    }
    proof {
        lemma_fact_mono(n as nat, 12);
        lemma_fact12();
    }
    (acc as i64) * 100
}

pub proof fn lemma_fact_mono(n: nat, m: nat)
    requires
        n <= m,
    ensures
        fact_nat(n) <= fact_nat(m),
        fact_nat(n) >= 1,
    decreases m,
{
    if n < m {
        lemma_fact_mono(n, (m - 1) as nat);
        assert(fact_nat(m) == m * fact_nat((m - 1) as nat));
        assert((m as int) * (fact_nat((m - 1) as nat) as int) >= fact_nat(
            (m - 1) as nat,
        ) as int) by (nonlinear_arith)
            requires
                m as int >= 1,
                fact_nat((m - 1) as nat) as int >= 1,
        ;
    } else if n == 0 {
    } else {
        lemma_fact_mono((n - 1) as nat, (n - 1) as nat);
        assert(fact_nat(n) == n * fact_nat((n - 1) as nat));
        assert((n as int) * (fact_nat((n - 1) as nat) as int) >= 1) by (nonlinear_arith)
            requires
                n as int >= 1,
                fact_nat((n - 1) as nat) as int >= 1,
        ;
    }
}

pub proof fn lemma_fact12()
    ensures
        fact_nat(12) == 479001600,
        fact_nat(11) == 39916800,
{
    assert(fact_nat(0) == 1);
    assert(fact_nat(1) == 1);
    assert(fact_nat(2) == 2);
    assert(fact_nat(3) == 6);
    assert(fact_nat(4) == 24);
    assert(fact_nat(5) == 120);
    assert(fact_nat(6) == 720);
    assert(fact_nat(7) == 5040);
    assert(fact_nat(8) == 40320);
    assert(fact_nat(9) == 362880);
    assert(fact_nat(10) == 3628800);
    assert(fact_nat(11) == 39916800);
    assert(fact_nat(12) == 479001600);
}

/// Fixed-point power with a whole exponent given in hundredth units.
pub fn pow_fx(a: i64, e: i64) -> (r: Option<i64>)
    requires
        fits_val(a as int),
        0 <= e <= 1000,
        (e as int) % (SCALE as int) == 0,
    ensures
        r matches Some(v) ==> v == fx_pow(a as int, tdiv(e as int, SCALE as int) as nat)
            && fx_pow_ok(a as int, tdiv(e as int, SCALE as int) as nat),
        r is None ==> !fx_pow_ok(a as int, tdiv(e as int, SCALE as int) as nat),
{
    let n: u64 = (e as u64) / 100;
    assert(n == tdiv(e as int, SCALE as int));
    let mut acc: i64 = SCALE;
    let mut i: u64 = 0;
    while i < n
        invariant
            i <= n,
            n as int == tdiv(e as int, SCALE as int),
            fits_val(a as int),
            acc == fx_pow(a as int, i as nat),
            fx_pow_ok(a as int, i as nat),
            fits_val(acc as int),
        decreases n - i,
    {
        match mul_fx(acc, a) {
            Some(v) => {
                acc = v;
                i = i + 1;
            },
            None => {
                proof {
                    assert(fx_pow(a as int, (i + 1) as nat) == fx_mul(
                        fx_pow(a as int, i as nat),
                        a as int,
                    ));
                    assert(!fx_pow_ok(a as int, (i + 1) as nat));
                    lemma_pow_not_ok(a as int, (i + 1) as nat, n as nat);
                }
                return None;
            },
        }
    }
    Some(acc)
}

proof fn lemma_pow_not_ok(a: int, k: nat, n: nat)
    requires
        k <= n,
        !fx_pow_ok(a, k),
    ensures
        !fx_pow_ok(a, n),
    decreases n,
{
    if k < n {
        lemma_pow_not_ok(a, k, (n - 1) as nat);
    }
}

/// Hypotenuse: the square root of the sum of squares, exact in
/// hundredth units.
pub open spec fn fx_hypot(a: int, b: int) -> int {
    isqrt_nat((a * a + b * b) as nat) as int
}

pub fn hypot_fx(a: i64, b: i64) -> (r: Option<i64>)
    requires
        fits_val(a as int),
        fits_val(b as int),
    ensures
        r matches Some(v) ==> v == fx_hypot(a as int, b as int) && fits_val(fx_hypot(a as int, b as int)),
        r is None ==> !fits_val(fx_hypot(a as int, b as int)),
{
    assert((a as int) * (a as int) + (b as int) * (b as int)
        < 0x10000000000000000000000000000) by (nonlinear_arith)
        requires
            fits_val(a as int),
            fits_val(b as int),
    ;
    assert((a as int) * (a as int) >= 0) by (nonlinear_arith);
    assert((b as int) * (b as int) >= 0) by (nonlinear_arith);
    let aa: i128 = (a as i128) * (a as i128);
    let bb: i128 = (b as i128) * (b as i128);
    let n: u128 = (aa + bb) as u128;
    let s = isqrt_u128(n);
    proof {
        lemma_isqrt_bounds(n as nat);
        assert(s as int <= n as int) by (nonlinear_arith)
            requires
                (s as int) * (s as int) <= n as int,
                s as int >= 0,
        ;
    }
    into_val(s as i128)
}

/// Geometric mean of two positive values: the square root of their
/// product, exact in hundredth units.
pub open spec fn fx_geomean2(a: int, b: int) -> int
    recommends
        a > 0,
        b > 0,
{
    isqrt_nat((a * b) as nat) as int
}

pub fn geomean2_fx(a: i64, b: i64) -> (r: Option<i64>)
    requires
        fits_val(a as int),
        fits_val(b as int),
        a > 0,
        b > 0,
    ensures
        r matches Some(v) ==> v == fx_geomean2(a as int, b as int)
            && fits_val(fx_geomean2(a as int, b as int)),
        r is None ==> !fits_val(fx_geomean2(a as int, b as int)),
{
    assert(0 < (a as int) * (b as int) < 0x10000000000000000000000000000) by (nonlinear_arith)
        requires
            0 < a as int <= VAL_LIMIT as int,
            0 < b as int <= VAL_LIMIT as int,
    ;
    let n: u128 = (a as u128) * (b as u128);
    let s = isqrt_u128(n);
    proof {
        lemma_isqrt_bounds(n as nat);
        assert(s as int <= n as int) by (nonlinear_arith)
            requires
                (s as int) * (s as int) <= n as int,
                s as int >= 0,
        ;
    }
    into_val(s as i128)
}

/// Whether a three-way product of positive values is small enough for the
/// cube root to be computed exactly.
pub open spec fn geo3_in_range(a: int, b: int, c: int) -> bool {
    a * b * c < 0x1000000000000000000000000000000
}

/// Geometric mean of three positive values: the cube root of their
/// product, exact in hundredth units.
pub open spec fn fx_geomean3(a: int, b: int, c: int) -> int
    recommends
        a > 0,
        b > 0,
        c > 0,
{
    icbrt_nat((a * b * c) as nat) as int
}

pub fn geomean3_fx(a: i64, b: i64, c: i64) -> (r: Option<i64>)
    requires
        fits_val(a as int),
        fits_val(b as int),
        fits_val(c as int),
        a > 0,
        b > 0,
        c > 0,
    ensures
        r matches Some(v) ==> geo3_in_range(a as int, b as int, c as int)
            && v == fx_geomean3(a as int, b as int, c as int)
            && fits_val(fx_geomean3(a as int, b as int, c as int)),
        r is None ==> !(geo3_in_range(a as int, b as int, c as int)
            && fits_val(fx_geomean3(a as int, b as int, c as int))),
{
    assert(0 < (a as int) * (b as int) < 0x40000000000000000000000000000000) by (nonlinear_arith)
        requires
            0 < a as int <= VAL_LIMIT as int,
            0 < b as int <= VAL_LIMIT as int,
    ;
    let ab: u128 = (a as u128) * (b as u128);
    let limit: u128 = 0x1000000000000000000000000000000;
    let cu: u128 = c as u128;
    let bound: u128 = (limit - 1) / cu;
    if ab > bound {
        assert((ab as int) * (cu as int) >= limit as int) by (nonlinear_arith)
            requires
                cu as int >= 1,
                ab as int > bound as int,
                bound as int == ((limit as int) - 1) / (cu as int),
                limit as int == 0x1000000000000000000000000000000,
        ;
        assert(!geo3_in_range(a as int, b as int, c as int));
        return None;
    }
    assert((ab as int) * (cu as int) < limit as int) by (nonlinear_arith)
        requires
            cu as int >= 1,
            ab as int <= bound as int,
            bound as int == ((limit as int) - 1) / (cu as int),
            limit as int == 0x1000000000000000000000000000000,
    ;
    let n: u128 = ab * cu;
    let s = icbrt_u128(n);
    proof {
        lemma_icbrt_bounds(n as nat);
        assert(s as int <= n as int) by (nonlinear_arith)
            requires
                (s as int) * (s as int) * (s as int) <= n as int,
                s as int >= 0,
        ;
    }
    into_val(s as i128)
}

/// Average of two values, truncated toward zero.
pub open spec fn fx_avg2(a: int, b: int) -> int {
    tdiv(a + b, 2)
}

pub fn avg2_fx(a: i64, b: i64) -> (r: i64)
    requires
        fits_val(a as int),
        fits_val(b as int),
    ensures
        r == fx_avg2(a as int, b as int),
        fits_val(r as int),
{
    let q = tdiv_i128(a as i128 + b as i128, 2);
    proof {
        vstd::arithmetic::div_mod::lemma_div_is_ordered(
            vstd::math::abs(a as int + b as int) as int,
            2 * (VAL_LIMIT as int),
            2,
        );
    }
    q as i64
}

/// Average of three values, truncated toward zero.
pub open spec fn fx_avg3(a: int, b: int, c: int) -> int {
    tdiv(a + b + c, 3)
}

pub fn avg3_fx(a: i64, b: i64, c: i64) -> (r: i64)
    requires
        fits_val(a as int),
        fits_val(b as int),
        fits_val(c as int),
    ensures
        r == fx_avg3(a as int, b as int, c as int),
        fits_val(r as int),
{
    let q = tdiv_i128(a as i128 + b as i128 + c as i128, 3);
    proof {
        vstd::arithmetic::div_mod::lemma_div_is_ordered(
            vstd::math::abs(a as int + b as int + c as int) as int,
            3 * (VAL_LIMIT as int),
            3,
        );
    }
    q as i64
}

/// Absolute value.
pub fn abs_fx(a: i64) -> (r: i64)
    requires
        fits_val(a as int),
    ensures
        r == vstd::math::abs(a as int),
        fits_val(r as int),
{
    if a < 0 {
        -a
    } else {
        a
    }
}

} // verus!
