//! Rounding as double-precision arithmetic does it, in whole numbers: a
//! count of bytes is shown as the quotient of two double-precision numbers,
//! rounded to one decimal place.

use vstd::prelude::*;

verus! {

/// The greatest unit in which a count of bytes is shown.
pub const LARGEST_UNIT: u64 = 1_000_000_000_000;

/// The integer nearest to `n / d`; of two that are as near, the even one.
pub open spec fn nearest_even(n: nat, d: nat) -> nat {
    let q = n / d;
    let r = n % d;
    if 2 * r > d || (2 * r == d && q % 2 == 1) {
        q + 1
    } else {
        q
    }
}

/// The least power of two by which `b` must be divided to fall below 2^53.
pub open spec fn excess(b: nat) -> nat
    decreases b,
{
    if b < 0x20_0000_0000_0000 {
        1
    } else {
        2 * excess(b / 2)
    }
}

/// The double-precision number nearest to the integer `b`: `b` rounded to 53
/// significant bits.
pub open spec fn nearest_double(b: nat) -> nat {
    nearest_even(b, excess(b)) * excess(b)
}

/// The least power of two by which `x` must be multiplied for `x / u` to
/// reach 2^52.
pub open spec fn scale(x: nat, u: nat) -> nat
    decreases
        (if x < 0x10_0000_0000_0000 * u {
            0x10_0000_0000_0000 * u - x
        } else {
            0
        }),
{
    if x == 0 || x >= 0x10_0000_0000_0000 * u {
        1
    } else {
        2 * scale(2 * x, u)
    }
}

/// The tenths of the unit `u` that are shown of `b` bytes: `b` is taken as a
/// double-precision number and divided by `u` in double precision, and the
/// quotient is rounded to one decimal place, a tie to the even digit.
pub open spec fn shown_tenths(b: nat, u: nat) -> nat {
    let x = nearest_double(b);
    let k = scale(x, u);
    let quotient = nearest_even(x * k, u);
    nearest_even(10 * quotient, k)
}

/// Computes `nearest_even`.
pub(crate) fn round_div(n: u128, d: u128) -> (r: u128)
    requires
        d > 0,
        n / d < u128::MAX,
    ensures
        r == nearest_even(n as nat, d as nat),
{
    let q: u128 = n / d;
    let r: u128 = n % d;
    if r > d - r || (r == d - r && q % 2 == 1) {
        q + 1
    } else {
        q
    }
}

/// Computes `nearest_double`.
pub fn to_double(b: u64) -> (x: u128)
    ensures
        x == nearest_double(b as nat),
        x <= 0x2_0000_0000_0000_0000,
        b >= 1 ==> x >= 1,
{
    let mut y: u64 = b;
    let mut p: u128 = 1;
    while y >= 0x20_0000_0000_0000
        invariant
            1 <= p <= 0x1000,
            p * y <= b,
            p == 1 || b >= 0x20_0000_0000_0000,
            excess(b as nat) == p * excess(y as nat),
        decreases y,
    {
        assert(p < 0x800) by (nonlinear_arith)
            requires
                p * y <= b,
                y >= 0x20_0000_0000_0000,
                b <= 0xFFFF_FFFF_FFFF_FFFF,
        ;
        assert((2 * p) * (y / 2) <= p * y) by (nonlinear_arith)
            requires
                p >= 1,
        ;
        assert(p * (2 * excess((y / 2) as nat)) == (2 * p) * excess((y / 2) as nat))
            by (nonlinear_arith);
        y = y / 2;
        p = p * 2;
    }
    assert(p == excess(b as nat)) by (nonlinear_arith)
        requires
            excess(b as nat) == p * excess(y as nat),
            excess(y as nat) == 1,
    ;
    assert((b as u128) / p <= b);
    let m: u128 = round_div(b as u128, p);
    assert(p == 1 ==> m == b) by {
        if p == 1 {
            assert((b as nat) / 1 == b as nat && (b as nat) % 1 == 0) by (nonlinear_arith);
        }
    }
    assert(m * p <= 0x2_0000_0000_0000_0000 && (b >= 1 ==> m * p >= 1)) by (nonlinear_arith)
        requires
            m <= (b as u128) / p + 1,
            m >= (b as u128) / p,
            1 <= p <= 0x1000,
            b <= 0xFFFF_FFFF_FFFF_FFFF,
            p == 1 || b >= 0x20_0000_0000_0000,
            p == 1 ==> m == b,
    ;
    m * p
}

/// Computes `shown_tenths`.
pub(crate) fn tenths_shown(b: u64, u: u64) -> (t: u128)
    requires
        1 <= u <= LARGEST_UNIT,
        b >= u,
    ensures
        t == shown_tenths(b as nat, u as nat),
{
    let x: u128 = to_double(b);
    let bound: u128 = 0x10_0000_0000_0000 * (u as u128);
    let mut xs: u128 = x;
    let mut k: u128 = 1;
    assert(x * 1 == x) by (nonlinear_arith);
    assert(1 * scale(x as nat, u as nat) == scale(x as nat, u as nat)) by (nonlinear_arith);
    while xs < bound
        invariant
            1 <= u <= LARGEST_UNIT,
            bound == 0x10_0000_0000_0000 * u,
            x >= 1,
            k >= 1,
            xs == x * k,
            xs <= 0x2_0000_0000_0000_0000 || xs < 2 * bound,
            scale(x as nat, u as nat) == k * scale(xs as nat, u as nat),
        decreases
            (if xs < bound {
                bound - xs
            } else {
                0
            }),
    {
        assert(k <= xs) by (nonlinear_arith)
            requires
                xs == x * k,
                x >= 1,
                k >= 1,
        ;
        assert(x * (2 * k) == 2 * (x * k)) by (nonlinear_arith);
        assert(k * (2 * scale((2 * xs) as nat, u as nat)) == (2 * k) * scale(
            (2 * xs) as nat,
            u as nat,
        )) by (nonlinear_arith);
        xs = xs * 2;
        k = k * 2;
    }
    assert(k == scale(x as nat, u as nat)) by (nonlinear_arith)
        requires
            scale(x as nat, u as nat) == k * scale(xs as nat, u as nat),
            scale(xs as nat, u as nat) == 1,
    ;
    assert(xs / (u as u128) <= xs) by (nonlinear_arith)
        requires
            u >= 1,
    ;
    let quotient: u128 = round_div(xs, u as u128);
    let ten: u128 = 10 * quotient;
    assert(ten / k <= ten) by (nonlinear_arith)
        requires
            k >= 1,
    ;
    round_div(ten, k)
}

/// What `nearest_even` gives is within a half of the quotient, and even
/// where the quotient lies just between two integers.
pub proof fn lemma_nearest_even_is_near(n: nat, d: nat)
    requires
        d > 0,
    ensures
        (2 * nearest_even(n, d) - 1) * d <= 2 * n,
        2 * n <= (2 * nearest_even(n, d) + 1) * d,
        (2 * nearest_even(n, d) - 1) * d == 2 * n ==> nearest_even(n, d) % 2 == 0,
        2 * n == (2 * nearest_even(n, d) + 1) * d ==> nearest_even(n, d) % 2 == 0,
{
    let q = n / d;
    let r = n % d;
    assert(n == q * d + r && 0 <= r < d) by (nonlinear_arith)
        requires
            q == n / d,
            r == n % d,
            d > 0,
    ;
    let big = nearest_even(n, d);
    let qd = q * d;
    if 2 * r > d || (2 * r == d && q % 2 == 1) {
        assert(big == q + 1);
        assert((2 * big - 1) * d == 2 * qd + d && (2 * big + 1) * d == 2 * qd + 3 * d)
            by (nonlinear_arith)
            requires
                big == q + 1,
                qd == q * d,
        ;
    } else {
        assert(big == q);
        assert((2 * big - 1) * d == 2 * qd - d && (2 * big + 1) * d == 2 * qd + d)
            by (nonlinear_arith)
            requires
                big == q,
                qd == q * d,
        ;
    }
}

/// A greater quotient is not rounded to a smaller integer.
pub proof fn lemma_nearest_even_monotone(n1: nat, d1: nat, n2: nat, d2: nat)
    requires
        d1 > 0,
        d2 > 0,
        n1 * d2 <= n2 * d1,
    ensures
        nearest_even(n1, d1) <= nearest_even(n2, d2),
{
    let q1 = nearest_even(n1, d1) as int;
    let q2 = nearest_even(n2, d2) as int;
    lemma_nearest_even_is_near(n1, d1);
    lemma_nearest_even_is_near(n2, d2);
    if q1 > q2 {
        let lo = (2 * q1 - 1) * d1;
        let hi = (2 * q2 + 1) * d2;
        // lo <= 2 n1 and 2 n2 <= hi
        assert(lo * d2 <= 2 * n1 * d2) by (nonlinear_arith)
            requires
                lo <= 2 * n1,
                d2 > 0,
        ;
        assert(2 * n2 * d1 <= hi * d1) by (nonlinear_arith)
            requires
                2 * n2 <= hi,
                d1 > 0,
        ;
        assert(2 * n1 * d2 <= 2 * n2 * d1) by (nonlinear_arith)
            requires
                n1 * d2 <= n2 * d1,
        ;
        assert(lo * d2 == (2 * q1 - 1) * (d1 * d2)) by (nonlinear_arith)
            requires
                lo == (2 * q1 - 1) * d1,
        ;
        assert(hi * d1 == (2 * q2 + 1) * (d1 * d2)) by (nonlinear_arith)
            requires
                hi == (2 * q2 + 1) * d2,
        ;
        let dd = d1 * d2;
        assert(dd > 0) by (nonlinear_arith)
            requires
                dd == d1 * d2,
                d1 > 0,
                d2 > 0,
        ;
        assert((2 * q1 - 1) * dd <= (2 * q2 + 1) * dd);
        assert(2 * q1 - 1 <= 2 * q2 + 1) by (nonlinear_arith)
            requires
                (2 * q1 - 1) * dd <= (2 * q2 + 1) * dd,
                dd > 0,
        ;
        assert(q1 == q2 + 1);
        // every step above is an equality, so both quotients lie just
        // between two integers
        assert(lo * d2 == hi * d1);
        assert(lo * d2 == 2 * n1 * d2);
        assert(2 * n2 * d1 == hi * d1);
        assert(lo == 2 * n1) by (nonlinear_arith)
            requires
                lo * d2 == 2 * n1 * d2,
                d2 > 0,
        ;
        assert(2 * n2 == hi) by (nonlinear_arith)
            requires
                2 * n2 * d1 == hi * d1,
                d1 > 0,
        ;
        assert(q1 % 2 == 0);
        assert(q2 % 2 == 0);
        assert(false);
    }
}

/// A quotient of at least `c` is rounded to at least `c`, and one of at most
/// `c` to at most `c`.
pub proof fn lemma_nearest_even_bounds(n: nat, d: nat, c: nat)
    requires
        d > 0,
    ensures
        n >= c * d ==> nearest_even(n, d) >= c,
        n <= c * d ==> nearest_even(n, d) <= c,
{
    assert(nearest_even(c * d, d) == c) by {
        assert((c * d) / d == c && (c * d) % d == 0) by (nonlinear_arith)
            requires
                d > 0,
        ;
    }
    if n >= c * d {
        assert((c * d) * d <= n * d) by (nonlinear_arith)
            requires
                n >= c * d,
        ;
        lemma_nearest_even_monotone(c * d, d, n, d);
    }
    if n <= c * d {
        assert(n * d <= (c * d) * d) by (nonlinear_arith)
            requires
                n <= c * d,
        ;
        lemma_nearest_even_monotone(n, d, c * d, d);
    }
}

/// What `excess` gives divides `b` to a number of 53 bits, and of exactly
/// 53 bits where anything was divided.
pub proof fn lemma_excess(b: nat)
    ensures
        excess(b) >= 1,
        b < 0x20_0000_0000_0000 * excess(b),
        excess(b) > 1 ==> b >= 0x10_0000_0000_0000 * excess(b),
    decreases b,
{
    if b >= 0x20_0000_0000_0000 {
        lemma_excess(b / 2);
    }
}

/// A greater number has the same excess or at least twice as great a one.
pub proof fn lemma_excess_steps(a: nat, b: nat)
    requires
        a <= b,
    ensures
        excess(a) == excess(b) || 2 * excess(a) <= excess(b),
    decreases b,
{
    lemma_excess(a);
    lemma_excess(b);
    if b >= 0x20_0000_0000_0000 && a >= 0x20_0000_0000_0000 {
        lemma_excess_steps(a / 2, b / 2);
    }
}

/// A number of at most 53 bits is a double-precision number.
pub proof fn lemma_nearest_double_exact(b: nat)
    requires
        b < 0x20_0000_0000_0000,
    ensures
        nearest_double(b) == b,
{
    assert(excess(b) == 1);
    assert(b / 1 == b && b % 1 == 0) by (nonlinear_arith);
    assert(nearest_even(b, 1) == b);
    assert(b * 1 == b) by (nonlinear_arith);
}

/// A greater number is not rounded to a smaller double-precision number.
pub proof fn lemma_nearest_double_monotone(a: nat, b: nat)
    requires
        a <= b,
    ensures
        nearest_double(a) <= nearest_double(b),
{
    let pa = excess(a);
    let pb = excess(b);
    lemma_excess(a);
    lemma_excess(b);
    lemma_excess_steps(a, b);
    let ma = nearest_even(a, pa);
    let mb = nearest_even(b, pb);
    if pa == pb {
        assert(a * pb <= b * pa) by (nonlinear_arith)
            requires
                a <= b,
                pa == pb,
        ;
        lemma_nearest_even_monotone(a, pa, b, pb);
        assert(ma * pa <= mb * pb) by (nonlinear_arith)
            requires
                ma <= mb,
                pa == pb,
        ;
    } else {
        lemma_nearest_even_bounds(a, pa, 0x20_0000_0000_0000);
        lemma_nearest_even_bounds(b, pb, 0x10_0000_0000_0000);
        assert(ma * pa <= mb * pb) by (nonlinear_arith)
            requires
                ma <= 0x20_0000_0000_0000,
                mb >= 0x10_0000_0000_0000,
                2 * pa <= pb,
                pa >= 1,
        ;
    }
}

/// What `scale` gives brings the quotient to at least 2^52, and below 2^53
/// where anything was multiplied.
pub proof fn lemma_scale(x: nat, u: nat)
    requires
        x >= 1,
    ensures
        scale(x, u) >= 1,
        x * scale(x, u) >= 0x10_0000_0000_0000 * u,
        scale(x, u) > 1 ==> x * scale(x, u) < 0x20_0000_0000_0000 * u,
    decreases
        (if x < 0x10_0000_0000_0000 * u {
            0x10_0000_0000_0000 * u - x
        } else {
            0
        }),
{
    if x >= 0x10_0000_0000_0000 * u {
        assert(x * 1 == x) by (nonlinear_arith);
    } else {
        lemma_scale(2 * x, u);
        let k = scale(2 * x, u);
        assert(x * (2 * k) == (2 * x) * k) by (nonlinear_arith);
        if k == 1 {
            assert(x * 2 == 2 * x) by (nonlinear_arith);
        }
    }
}

/// A greater number has the same scale or at most half as great a one.
pub proof fn lemma_scale_steps(x1: nat, x2: nat, u: nat)
    requires
        1 <= x1 <= x2,
    ensures
        scale(x1, u) == scale(x2, u) || scale(x1, u) >= 2 * scale(x2, u),
    decreases
        (if x1 < 0x10_0000_0000_0000 * u {
            0x10_0000_0000_0000 * u - x1
        } else {
            0
        }),
{
    lemma_scale(x1, u);
    lemma_scale(x2, u);
    if x1 < 0x10_0000_0000_0000 * u && x2 < 0x10_0000_0000_0000 * u {
        lemma_scale_steps(2 * x1, 2 * x2, u);
    }
}

/// The tenths that are shown of the double-precision number `x` in the unit
/// `u`.
pub open spec fn tenths_of_double(x: nat, u: nat) -> nat {
    nearest_even(10 * nearest_even(x * scale(x, u), u), scale(x, u))
}

/// Of a greater double-precision number no fewer tenths are shown.
pub proof fn lemma_tenths_of_double_monotone(x1: nat, x2: nat, u: nat)
    requires
        1 <= x1 <= x2,
        u >= 1,
    ensures
        tenths_of_double(x1, u) <= tenths_of_double(x2, u),
{
    let k1 = scale(x1, u);
    let k2 = scale(x2, u);
    lemma_scale(x1, u);
    lemma_scale(x2, u);
    lemma_scale_steps(x1, x2, u);
    let m1 = nearest_even(x1 * k1, u);
    let m2 = nearest_even(x2 * k2, u);
    if k1 == k2 {
        assert((x1 * k1) * u <= (x2 * k2) * u) by (nonlinear_arith)
            requires
                x1 <= x2,
                k1 == k2,
        ;
        lemma_nearest_even_monotone(x1 * k1, u, x2 * k2, u);
        assert((10 * m1) * k2 <= (10 * m2) * k1) by (nonlinear_arith)
            requires
                m1 <= m2,
                k1 == k2,
        ;
    } else {
        lemma_nearest_even_bounds(x1 * k1, u, 0x20_0000_0000_0000);
        lemma_nearest_even_bounds(x2 * k2, u, 0x10_0000_0000_0000);
        assert((10 * m1) * k2 <= (10 * m2) * k1) by (nonlinear_arith)
            requires
                m1 <= 0x20_0000_0000_0000,
                m2 >= 0x10_0000_0000_0000,
                k1 >= 2 * k2,
                k2 >= 1,
        ;
    }
    lemma_nearest_even_monotone(10 * m1, k1, 10 * m2, k2);
}

/// Of more bytes no fewer tenths of a unit are shown.
pub proof fn lemma_shown_tenths_monotone(a: nat, b: nat, u: nat)
    requires
        1 <= a <= b,
        u >= 1,
    ensures
        shown_tenths(a, u) <= shown_tenths(b, u),
{
    lemma_nearest_double_monotone(a, b);
    lemma_nearest_double_monotone(1, a);
    lemma_nearest_double_exact(1);
    lemma_tenths_of_double_monotone(nearest_double(a), nearest_double(b), u);
}

/// Of a whole unit at least ten tenths are shown, and of less than a
/// thousand units at most ten thousand.
pub proof fn lemma_shown_tenths_bounds(b: nat, u: nat)
    requires
        1 <= u <= LARGEST_UNIT,
        u <= b,
    ensures
        shown_tenths(b, u) >= 10,
        b <= 1000 * u ==> shown_tenths(b, u) <= 10_000,
{
    let x = nearest_double(b);
    lemma_nearest_double_monotone(u, b);
    lemma_nearest_double_exact(u);
    let k = scale(x, u);
    lemma_scale(x, u);
    let m = nearest_even(x * k, u);
    assert(x * k >= k * u) by (nonlinear_arith)
        requires
            x >= u,
            k >= 1,
    ;
    lemma_nearest_even_bounds(x * k, u, k);
    assert(10 * m >= 10 * k);
    lemma_nearest_even_bounds(10 * m, k, 10);
    if b <= 1000 * u {
        lemma_nearest_double_exact(b);
        assert(x * k <= (1000 * k) * u) by (nonlinear_arith)
            requires
                x <= 1000 * u,
                k >= 1,
        ;
        lemma_nearest_even_bounds(x * k, u, 1000 * k);
        assert(10 * m <= 10_000 * k);
        lemma_nearest_even_bounds(10 * m, k, 10_000);
    }
}

} // verus!
