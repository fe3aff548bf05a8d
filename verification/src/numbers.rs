//! Numbers as they are shown: fractions in the precision of a 64-bit float, rounded to a
//! few decimal places.

use crate::text;
use vstd::prelude::*;

verus! {

/// The whole number nearest to `a / b`; of two that are equally near, the even one.
pub open spec fn nearest(a: nat, b: nat) -> nat {
    let q = a / b;
    let r = a % b;
    if 2 * r < b {
        q
    } else if 2 * r > b {
        q + 1
    } else if q % 2 == 0 {
        q
    } else {
        q + 1
    }
}

/// How often `a / b` can be doubled before it has 53 binary digits before the point.
pub open spec fn doublings(a: nat, b: nat) -> nat
    decreases 0x20_0000_0000_0000 * b - a,
{
    if a == 0 || b == 0 || a / b >= 0x10_0000_0000_0000 {
        0
    } else {
        proof {
            assert(a < 0x10_0000_0000_0000 * b) by (nonlinear_arith)
                requires
                    a / b < 0x10_0000_0000_0000,
                    b > 0,
            ;
        }
        1 + doublings(2 * a, b)
    }
}

/// Two to the power of `n`.
pub open spec fn power(n: nat) -> nat
    decreases n,
{
    if n == 0 {
        1
    } else {
        2 * power((n - 1) as nat)
    }
}

/// `a / b` times `scale`, rounded to a whole number, where `a / b` is first brought to 53
/// binary digits.
pub open spec fn scaled(a: nat, b: nat, scale: nat) -> nat {
    let p = power(doublings(a, b));
    nearest(nearest(a * p, b) * scale, p)
}

/// `a / b`, brought to 53 binary digits and then rounded to a whole number, halves up.
pub open spec fn rounded(a: nat, b: nat) -> nat {
    if a / b >= 0x20_0000_0000_0000 {
        let p = power(excess(a / b));
        nearest(a, b * p) * p
    } else {
        let p = power(doublings(a, b));
        (2 * nearest(a * p, b) + p) / (2 * p)
    }
}

/// `a / b` times `factor`, rounded to a whole number, halves up, where the quotient and the
/// product are each brought to 53 binary digits.
pub open spec fn rounded_product(a: nat, b: nat, factor: nat) -> nat {
    let p = power(doublings(a, b));
    rounded(nearest(a * p, b) * factor, p)
}

/// The whole number nearest to `n` that has at most 53 binary digits before its zeros.
pub open spec fn coarse(n: nat) -> nat
    decreases n,
{
    if n < 0x20_0000_0000_0000 {
        n
    } else {
        let p = power(excess(n));
        nearest(n, p) * p
    }
}

/// How many binary digits `n` has beyond 53.
pub open spec fn excess(n: nat) -> nat
    decreases n,
{
    if n < 0x20_0000_0000_0000 {
        0
    } else {
        1 + excess(n / 2)
    }
}

/// A number of tenths, written with one decimal place.
pub open spec fn tenths_text(n: nat) -> Seq<char> {
    text::decimal(n / 10) + "."@ + text::decimal(n % 10)
}

/// A number of thousandths, written with three decimal places.
pub open spec fn thousandths_text(n: nat) -> Seq<char> {
    text::decimal(n / 1000) + "."@ + text::zero_padded(text::decimal(n % 1000), 3)
}

/// A number of hundredths, written with two decimal places.
pub open spec fn hundredths_text(n: nat) -> Seq<char> {
    text::decimal(n / 100) + "."@ + text::zero_padded(text::decimal(n % 100), 2)
}

/// A quotient, rounded to the nearest; halves go to the even one.
pub fn round_div(a: u128, b: u128) -> (r: u128)
    requires
        b > 0,
        a <= 0x7fff_ffff_ffff_ffff_ffff_ffff_ffff_ffff,
        b <= 0x7fff_ffff_ffff_ffff_ffff_ffff_ffff_ffff,
    ensures
        r == nearest(a as nat, b as nat),
{
    let q: u128 = a / b;
    let rest: u128 = a % b;
    proof {
        assert(q <= a) by (nonlinear_arith)
            requires
                q == a / b,
                b > 0,
        ;
    }
    if 2 * rest < b {
        q
    } else if 2 * rest > b {
        q + 1
    } else if q % 2 == 0 {
        q
    } else {
        q + 1
    }
}

/// `a` doubled until `a / b` has 53 binary digits before the point, and the power of two by
/// which it then is greater.
fn double_up(a: u128, b: u128) -> (r: (u128, u128))
    requires
        0 < b <= 0x200_0000_0000_0000_0000,
    ensures
        r.1 == power(doublings(a as nat, b as nat)),
        r.0 == a * r.1,
        r.0 <= 0x20_0000_0000_0000 * b || r.0 == a,
        a > 0 ==> 1 <= r.1 <= r.0,
        a > 0 ==> r.0 / b >= 0x10_0000_0000_0000,
{
    let mut x: u128 = a;
    let mut p: u128 = 1;
    let ghost mut k: nat = 0;
    assert(a * 1 == a) by (nonlinear_arith);
    while a > 0 && x / b < 0x10_0000_0000_0000
        invariant
            0 < b <= 0x200_0000_0000_0000_0000,
            x == a * p,
            a > 0 ==> p <= x,
            p >= 1,
            x <= 0x20_0000_0000_0000 * b || x == a,
            p == power(k),
            doublings(a as nat, b as nat) == k + doublings(x as nat, b as nat),
        decreases 0x20_0000_0000_0000 * b - x,
    {
        assert(x < 0x10_0000_0000_0000 * b) by (nonlinear_arith)
            requires
                x / b < 0x10_0000_0000_0000,
                b > 0,
        ;
        assert(a * (2 * p) == 2 * (a * p)) by (nonlinear_arith);
        assert(doublings(x as nat, b as nat) == 1 + doublings(2 * x as nat, b as nat));
        x = 2 * x;
        p = 2 * p;
        proof {
            k = k + 1;
            assert(power(k) == 2 * power((k - 1) as nat));
        }
    }
    assert(doublings(x as nat, b as nat) == 0);
    (x, p)
}

/// `a / b` times `scale`, rounded to a whole number, where `a / b` is first brought to 53
/// binary digits.
pub fn scaled_div(a: u64, b: u64, scale: u64) -> (r: u128)
    requires
        0 < b <= 0xffff_ffff,
        scale <= 1000,
    ensures
        r == scaled(a as nat, b as nat, scale as nat),
{
    let d: u128 = b as u128;
    let (x, p) = double_up(a as u128, d);
    proof {
        if a == 0 {
            assert(p == 1);
        }
        assert(x <= 0x20_0000_0000_0000 * 0xffff_ffff) by (nonlinear_arith)
            requires
                x <= 0x20_0000_0000_0000 * d || x == a,
                d <= 0xffff_ffff,
                a <= u64::MAX,
        ;
    }
    let q: u128 = round_div(x, d);
    proof {
        vstd::arithmetic::div_mod::lemma_div_nonincreasing(x as int, d as int);
        assert(q * scale <= 0x2000_0000_0000_0000_0000_0000 * 1000) by (nonlinear_arith)
            requires
                q <= 0x2000_0000_0000_0000_0000_0000,
                scale <= 1000,
        ;
        assert(a as nat * power(doublings(a as nat, b as nat)) == x);
    }
    round_div(q * scale as u128, p)
}

/// The power of two that goes with the binary digits of `n` beyond 53.
fn excess_power(n: u128) -> (r: u128)
    requires
        0x20_0000_0000_0000 <= n,
    ensures
        r == power(excess(n as nat)),
        1 <= r <= n,
{
    let mut x: u128 = n;
    let mut p: u128 = 1;
    let ghost mut k: nat = 0;
    assert(1 * x == x);
    while x >= 0x20_0000_0000_0000
        invariant
            excess(n as nat) == k + excess(x as nat),
            p == power(k),
            1 <= p,
            p * x <= n,
            x > 0,
        decreases x,
    {
        assert(2 * p * (x / 2) <= p * x) by (nonlinear_arith);
        assert(2 * p <= n) by (nonlinear_arith)
            requires
                p * x <= n,
                x >= 2,
        ;
        x = x / 2;
        p = 2 * p;
        proof {
            k = k + 1;
            assert(power(k) == 2 * power((k - 1) as nat));
        }
    }
    assert(p <= n) by (nonlinear_arith)
        requires
            p * x <= n,
            x > 0,
    ;
    p
}

/// `a / b`, brought to 53 binary digits and then rounded to a whole number, halves up.
fn round_quotient(a: u128, b: u128) -> (r: u128)
    requires
        0 < b <= 0x200_0000_0000_0000_0000,
        a <= 0x20_0000_0000_0000_0000_0000,
    ensures
        r == rounded(a as nat, b as nat),
{
    let whole: u128 = a / b;
    proof {
        vstd::arithmetic::div_mod::lemma_fundamental_div_mod(a as int, b as int);
        vstd::arithmetic::div_mod::lemma_div_nonincreasing(a as int, b as int);
    }
    if whole >= 0x20_0000_0000_0000 {
        let e: u128 = excess_power(whole);
        proof {
            assert(1 <= b * e <= a) by (nonlinear_arith)
                requires
                    1 <= e <= whole,
                    b >= 1,
                    b * whole <= a,
            ;
        }
        let n: u128 = round_div(a, b * e);
        proof {
            nearest_error(a as nat, (b * e) as nat);
            assert(n * e <= 2 * a) by (nonlinear_arith)
                requires
                    2 * (n * (b * e) - a) <= b * e,
                    b * e <= a,
                    b >= 1,
                    e >= 1,
                    n >= 0,
            ;
        }
        n * e
    } else {
        let (x, p) = double_up(a, b);
        proof {
            if a == 0 {
                assert(p == 1);
            }
            assert(x <= 0x20_0000_0000_0000 * b) by {
                if x == a {
                    assert(b * (whole + 1) == b * whole + b) by (nonlinear_arith);
                    assert(a < 0x20_0000_0000_0000 * b) by (nonlinear_arith)
                        requires
                            a < b * (whole + 1),
                            whole < 0x20_0000_0000_0000,
                            b > 0,
                    ;
                }
            }
        }
        let n: u128 = round_div(x, b);
        proof {
            nearest_error(x as nat, b as nat);
            assert(n <= 0x20_0000_0000_0001) by (nonlinear_arith)
                requires
                    2 * (n * b - x) <= b,
                    x <= 0x20_0000_0000_0000 * b,
                    b > 0,
            ;
            assert(x <= 0x20_0000_0000_0000 * 0x200_0000_0000_0000_0000) by (nonlinear_arith)
                requires
                    x <= 0x20_0000_0000_0000 * b,
                    b <= 0x200_0000_0000_0000_0000,
            ;
        }
        (2 * n + p) / (2 * p)
    }
}

/// A number of millionths times `factor`, rounded to a whole number, halves up, in the
/// precision of a 64-bit float.
pub fn millionths_times(a: u64, factor: u32) -> (r: u128)
    ensures
        r == rounded_product(a as nat, 1_000_000, factor as nat),
{
    let (x, p) = double_up(a as u128, 1_000_000);
    proof {
        if a == 0 {
            assert(p == 1);
        }
        assert(x <= 0x20_0000_0000_0000 * 1_000_000);
    }
    let q: u128 = round_div(x, 1_000_000);
    proof {
        nearest_error(x as nat, 1_000_000);
        assert(q <= 0x20_0000_0000_0000);
        assert(q * factor <= 0x20_0000_0000_0000 * 0x1_0000_0000) by (nonlinear_arith)
            requires
                q <= 0x20_0000_0000_0000,
                factor <= 0x1_0000_0000,
        ;
        assert(p >= 1);
    }
    round_quotient(q * factor as u128, p)
}

proof fn nearest_error(a: nat, b: nat)
    requires
        b > 0,
    ensures
        2 * (nearest(a, b) * b - a) <= b,
        2 * (a - nearest(a, b) * b) <= b,
{
    let q = a / b;
    let r = a % b;
    vstd::arithmetic::div_mod::lemma_fundamental_div_mod(a as int, b as int);
    assert(b * q == q * b) by (nonlinear_arith);
    assert((q + 1) * b == q * b + b) by (nonlinear_arith);
}

proof fn nearest_is(c: nat, p: nat, m: nat)
    requires
        p > 0,
        2 * (c - m * p) < p,
        2 * (m * p - c) < p,
    ensures
        nearest(c, p) == m,
{
    nearest_error(c, p);
    let n = nearest(c, p);
    if n > m {
        assert(n * p >= m * p + p) by (nonlinear_arith)
            requires
                n >= m + 1,
                p > 0,
        ;
    } else if n < m {
        assert(m * p >= n * p + p) by (nonlinear_arith)
            requires
                m >= n + 1,
                p > 0,
        ;
    }
}

/// A number that has no more decimal places than are shown is shown as it is: fractions in
/// `scale`-ths, as long as there are fewer than two to the power of 42 wholes.
pub proof fn short_fractions_are_exact(m: nat, part: nat, scale: nat)
    requires
        1 <= scale <= 1000,
        1 <= part,
        m < 0x400_0000_0000 * scale,
    ensures
        scaled(m * part, scale * part, scale) == m,
{
    let a = m * part;
    let b = scale * part;
    assert(b >= 1) by (nonlinear_arith)
        requires
            b == scale * part,
            scale >= 1,
            part >= 1,
    ;
    if m == 0 {
        assert(a == 0) by (nonlinear_arith)
            requires
                a == m * part,
                m == 0,
        ;
        assert(power(0) == 1);
        assert(0 * b == 0) by (nonlinear_arith);
        nearest_is(0, b, 0);
        nearest_is(0, 1, 0);
        assert(0 * scale == 0);
        assert(0 * power(0) == 0);
    } else {
        assert(a >= 1) by (nonlinear_arith)
            requires
                a == m * part,
                m >= 1,
                part >= 1,
        ;
        assert(a < 0x400_0000_0000 * b) by (nonlinear_arith)
            requires
                a == m * part,
                b == scale * part,
                m < 0x400_0000_0000 * scale,
                part >= 1,
        ;
        ten_doublings(a, b);
        let p = power(doublings(a, b));
        let n = nearest(a * p, b);
        nearest_error(a * p, b);
        // Both sides are multiples of `part`, which drops out.
        assert(n * b == (n * scale) * part) by (nonlinear_arith)
            requires
                b == scale * part,
        ;
        assert(a * p == (m * p) * part) by (nonlinear_arith)
            requires
                a == m * part,
        ;
        let c = n * scale;
        let e = m * p;
        assert(2 * (c - e) <= scale && 2 * (e - c) <= scale) by (nonlinear_arith)
            requires
                2 * (c * part - e * part) <= scale * part,
                2 * (e * part - c * part) <= scale * part,
                part >= 1,
        ;
        nearest_is(c, p, m);
    }
}

proof fn ten_doublings(a: nat, b: nat)
    requires
        0 < a < 0x400_0000_0000 * b,
        b > 0,
    ensures
        power(doublings(a, b)) >= 1024,
{
    assert(power(10) == 1024) by {
        reveal_with_fuel(power, 11);
    }
    doublings_from(a, b, 10);
    power_grows(10, doublings(a, b));
}

/// While there is room, each doubling counts.
proof fn doublings_from(a: nat, b: nat, k: nat)
    requires
        a > 0,
        b > 0,
        a * power(k) < 0x10_0000_0000_0000 * b,
    ensures
        doublings(a, b) >= k,
    decreases k,
{
    power_positive(k);
    if k > 0 {
        let half = power((k - 1) as nat);
        power_positive((k - 1) as nat);
        assert(power(k) == 2 * half);
        assert(a * (2 * half) == (2 * a) * half) by (nonlinear_arith);
        assert(a <= a * power(k)) by (nonlinear_arith)
            requires
                power(k) >= 1,
        ;
        assert(a / b < 0x10_0000_0000_0000) by (nonlinear_arith)
            requires
                a < 0x10_0000_0000_0000 * b,
                b > 0,
        ;
        doublings_from(2 * a, b, (k - 1) as nat);
    }
}

proof fn power_grows(a: nat, b: nat)
    requires
        a <= b,
    ensures
        power(a) <= power(b),
    decreases b,
{
    if a < b {
        power_grows(a, (b - 1) as nat);
    }
}

proof fn doublings_reach(a: nat, b: nat)
    requires
        a > 0,
        b > 0,
    ensures
        a * power(doublings(a, b)) >= 0x10_0000_0000_0000 * b,
    decreases 0x20_0000_0000_0000 * b - a,
{
    if a / b >= 0x10_0000_0000_0000 {
        assert(a >= 0x10_0000_0000_0000 * b) by (nonlinear_arith)
            requires
                a / b >= 0x10_0000_0000_0000,
                b > 0,
        ;
        assert(power(0) == 1);
        assert(a * 1 == a) by (nonlinear_arith);
    } else {
        assert(a < 0x10_0000_0000_0000 * b) by (nonlinear_arith)
            requires
                a / b < 0x10_0000_0000_0000,
                b > 0,
        ;
        doublings_reach(2 * a, b);
        let half = power(doublings(2 * a, b));
        assert(power(doublings(a, b)) == 2 * half);
        assert(a * (2 * half) == (2 * a) * half) by (nonlinear_arith);
    }
}

/// The precision of a float is enough for a number of millionths times a whole number below
/// two to the power of 31: the product is rounded as it is, unless it lies exactly between
/// two whole numbers.
pub proof fn small_products_are_exact(a: nat, factor: nat)
    requires
        a * factor < 0x8000_0000 * 1_000_000,
        (a * factor) % 1_000_000 != 500_000,
    ensures
        rounded_product(a, 1_000_000, factor) == (a * factor + 500_000) / 1_000_000,
{
    let t: nat = 1_000_000;
    let p = power(doublings(a, t));
    let n = nearest(a * p, t);
    power_positive(doublings(a, t));
    nearest_error(a * p, t);
    if a == 0 || factor == 0 {
        assert(a * factor == 0) by (nonlinear_arith)
            requires
                a == 0 || factor == 0,
        ;
        assert(n * factor == 0) by {
            if a == 0 {
                assert(0 * p == 0);
                assert(n == 0);
            }
            assert(n * factor == 0) by (nonlinear_arith)
                requires
                    n == 0 || factor == 0,
            ;
        }
        assert(power(0) == 1);
        nearest_is(0, p, 0);
        assert(0nat / p == 0) by (nonlinear_arith)
            requires
                p > 0,
        ;
        assert(doublings(0, p) == 0);
        assert(0 * power(0) == 0);
        let one = power(0);
        let none = nearest(0 * one, p);
        assert((2 * none + one) / (2 * one) == 0) by (nonlinear_arith)
            requires
                one == 1,
                none == 0,
        ;
    } else {
        doublings_reach(a, t);
        product_error(a, factor, p, n);
        let c = n * factor;
        let q = power(doublings(c, p));
        power_positive(doublings(c, p));
        doublings_reach(c, p);
        nearest_error(c * q, p);
        product_rounds(a, factor, p, n, q, nearest(c * q, p));
        assert(rounded_product(a, t, factor) == rounded(c, p));
        assert(rounded(c, p) == (2 * nearest(c * q, p) + q) / (2 * q));
    }
}

proof fn product_error(a: nat, f: nat, p: nat, n: nat)
    requires
        a > 0,
        f > 0,
        p > 0,
        a * f < 0x8000_0000 * 1_000_000,
        a * p >= 0x10_0000_0000_0000 * 1_000_000,
        2 * (n * 1_000_000 - a * p) <= 1_000_000,
        2 * (a * p - n * 1_000_000) <= 1_000_000,
    ensures
        2 * f * 1_000_000 < p,
        n > 0,
        n * f > 0,
        (n * f) * 1_000_000 < (a * f + 1) * p,
        (n * f) / p < 0x20_0000_0000_0000,
{
    assert(2 * f * 1_000_000 < p) by (nonlinear_arith)
        requires
            a > 0,
            a * f < 0x8000_0000 * 1_000_000,
            a * p >= 0x10_0000_0000_0000 * 1_000_000,
    ;
    assert(n * f > 0) by (nonlinear_arith)
        requires
            n > 0,
            f > 0,
    ;
    assert(2 * ((n * f) * 1_000_000) <= 2 * ((a * f) * p) + f * 1_000_000) by (nonlinear_arith)
        requires
            2 * (n * 1_000_000 - a * p) <= 1_000_000,
            f > 0,
    ;
    assert((a * f + 1) * p == (a * f) * p + p) by (nonlinear_arith);
    let c = n * f;
    let v = a * f;
    assert(c < 0x20_0000_0000_0000 * p) by (nonlinear_arith)
        requires
            c * 1_000_000 < (v + 1) * p,
            v < 0x8000_0000 * 1_000_000,
            p > 0,
    ;
    assert(c / p < 0x20_0000_0000_0000) by (nonlinear_arith)
        requires
            c < 0x20_0000_0000_0000 * p,
            p > 0,
    ;
}

proof fn product_rounds(a: nat, f: nat, p: nat, n: nat, q: nat, m: nat)
    requires
        p > 0,
        q > 0,
        n * f > 0,
        a * f < 0x8000_0000 * 1_000_000,
        (a * f) % 1_000_000 != 500_000,
        2 * f * 1_000_000 < p,
        (n * f) * 1_000_000 < (a * f + 1) * p,
        (n * f) * q >= 0x10_0000_0000_0000 * p,
        2 * (n * 1_000_000 - a * p) <= 1_000_000,
        2 * (a * p - n * 1_000_000) <= 1_000_000,
        2 * (m * p - (n * f) * q) <= p,
        2 * ((n * f) * q - m * p) <= p,
    ensures
        (2 * m + q) / (2 * q) == (a * f + 500_000) / 1_000_000,
{
    let t: int = 1_000_000;
    let v = (a * f) as int;
    let c = (n * f) as int;
    let w = (v + 500_000) / t;
    let d = v - w * t;
    assert(-500_000 < d < 500_000) by {
        assert(v + 500_000 == t * w + (v + 500_000) % t);
        if (v + 500_000) % t == 0 {
            assert(v % t == 500_000);
        }
    }
    assert(q >= 1_000_000) by (nonlinear_arith)
        requires
            c * 1_000_000 < (v + 1) * p,
            c * q >= 0x10_0000_0000_0000 * p,
            v < 0x8000_0000 * 1_000_000,
            c > 0,
            p > 0,
    ;
    let e1 = 2 * (m * p - c * q);
    let e2 = 2 * (n * t - a * p);
    let s = 2 * (m - w * q);
    // The distance from the whole number, in parts of `p * t`.
    assert(s * (p * t) == e1 * t + (f * q) * e2 + (2 * d) * (q * p)) by {
        assert(s * (p * t) == 2 * ((m * p) * t) - 2 * ((w * q) * (p * t))) by (nonlinear_arith)
            requires
                s == 2 * (m - w * q),
        ;
        assert(e1 * t == 2 * ((m * p) * t) - 2 * ((c * q) * t)) by (nonlinear_arith)
            requires
                e1 == 2 * (m * p - c * q),
        ;
        assert((f * q) * e2 == 2 * ((f * q) * (n * t)) - 2 * ((f * q) * (a * p)))
            by (nonlinear_arith)
            requires
                e2 == 2 * (n * t - a * p),
        ;
        assert((2 * d) * (q * p) == 2 * (v * (q * p)) - 2 * ((w * t) * (q * p)))
            by (nonlinear_arith)
            requires
                d == v - w * t,
        ;
        assert((c * q) * t == (f * q) * (n * t)) by (nonlinear_arith)
            requires
                c == n * f,
        ;
        assert((f * q) * (a * p) == v * (q * p)) by (nonlinear_arith)
            requires
                v == a * f,
        ;
        assert((w * q) * (p * t) == (w * t) * (q * p)) by (nonlinear_arith);
    }
    let fq = (f * q) as int;
    let qp = (q * p) as int;
    assert(-t <= e2 <= t);
    assert(-(fq * t) <= fq * e2 <= fq * t) by (nonlinear_arith)
        requires
            -t <= e2 <= t,
            fq >= 0,
    ;
    assert(-999_998 * qp <= (2 * d) * qp <= 999_998 * qp) by (nonlinear_arith)
        requires
            -500_000 < d < 500_000,
            qp >= 0,
    ;
    assert(2 * (fq * t) < qp) by (nonlinear_arith)
        requires
            2 * f * 1_000_000 < p,
            fq == f * q,
            qp == q * p,
            q > 0,
            t == 1_000_000,
    ;
    assert(p * t <= qp) by (nonlinear_arith)
        requires
            q >= 1_000_000,
            qp == q * p,
            t == 1_000_000,
            p > 0,
    ;
    assert(-(qp * t) < s * (p * t) < qp * t) by {
        assert(-(p * t) <= e1 * t <= p * t);
        assert(qp * t == 1_000_000 * qp);
    }
    assert(-q < s < q) by (nonlinear_arith)
        requires
            -(qp * t) < s * (p * t) < qp * t,
            qp == q * p,
            p > 0,
            t == 1_000_000,
    ;
    assert((2 * m + q) / (2 * q) == w) by (nonlinear_arith)
        requires
            s == 2 * (m - w * q),
            -q < s < q,
            q > 0,
    ;
}

proof fn excess_bounds(n: nat)
    requires
        n >= 0x20_0000_0000_0000,
    ensures
        power(excess(n)) <= n,
    decreases n,
{
    if n / 2 >= 0x20_0000_0000_0000 {
        excess_bounds(n / 2);
    } else {
        assert(excess(n / 2) == 0);
        assert(power(0) == 1);
        assert(power(1) == 2 * power(0));
    }
}

/// The whole number nearest to `n` that a 64-bit float can hold.
pub fn coarse_number(n: u64) -> (r: u64)
    requires
        n <= i64::MAX,
    ensures
        r == coarse(n as nat),
{
    if n < 0x20_0000_0000_0000 {
        return n;
    }
    proof {
        excess_bounds(n as nat);
    }
    let mut x: u64 = n;
    let mut p: u128 = 1;
    let ghost mut k: nat = 0;
    while x >= 0x20_0000_0000_0000
        invariant
            n <= i64::MAX,
            excess(n as nat) == k + excess(x as nat),
            p == power(k),
            p * x <= n,
            x > 0,
        decreases x,
    {
        assert(2 * p * (x / 2) <= p * x) by (nonlinear_arith);
        assert(p <= n) by (nonlinear_arith)
            requires
                p * x <= n,
                x > 0,
        ;
        x = x / 2;
        p = 2 * p;
        proof {
            k = k + 1;
            assert(power(k) == 2 * power((k - 1) as nat));
        }
    }
    assert(p <= n) by (nonlinear_arith)
        requires
            p * x <= n,
            x > 0,
    ;
    assert(k == excess(n as nat));
    assert(p > 0) by {
        power_positive(k);
    }
    let q: u128 = round_div(n as u128, p);
    assert(q * p <= n + p) by (nonlinear_arith)
        requires
            q == nearest(n as nat, p as nat),
            p > 0,
    ;
    (q * p) as u64
}

proof fn power_positive(n: nat)
    ensures
        power(n) > 0,
    decreases n,
{
    if n > 0 {
        power_positive((n - 1) as nat);
    }
}

/// A whole number.
pub fn push_whole(out: &mut String, n: u128)
    ensures
        final(out)@ == old(out)@ + text::decimal(n as nat),
    decreases n,
{
    if n < 10 {
        text::push_u64(out, n as u64);
    } else {
        push_whole(out, n / 10);
        text::push_u64(out, (n % 10) as u64);
        assert(text::decimal((n % 10) as nat) =~= seq![text::digit_char((n % 10) as int)]);
        assert(out@ =~= old(out)@ + text::decimal(n as nat));
    }
}

/// A number of tenths, written with one decimal place.
pub fn push_tenths(out: &mut String, n: u128)
    ensures
        final(out)@ == old(out)@ + tenths_text(n as nat),
{
    push_whole(out, n / 10);
    out.push_str(".");
    text::push_u64(out, (n % 10) as u64);
    assert(out@ =~= old(out)@ + tenths_text(n as nat));
}

/// A number of thousandths, written with three decimal places.
pub fn push_thousandths(out: &mut String, n: u128)
    ensures
        final(out)@ == old(out)@ + thousandths_text(n as nat),
{
    push_whole(out, n / 1000);
    out.push_str(".");
    text::push_u64_padded(out, (n % 1000) as u64, 3);
    assert(out@ =~= old(out)@ + thousandths_text(n as nat));
}

/// A number of hundredths, written with two decimal places.
pub fn push_hundredths(out: &mut String, n: u128)
    ensures
        final(out)@ == old(out)@ + hundredths_text(n as nat),
{
    push_whole(out, n / 100);
    out.push_str(".");
    text::push_u64_padded(out, (n % 100) as u64, 2);
    assert(out@ =~= old(out)@ + hundredths_text(n as nat));
}

// ---- further laws ----

/// The nearest whole number is no more than half away, and of two that are equally near the
/// even one is taken.
pub proof fn nearest_is_no_more_than_half_away(a: nat, b: nat)
    requires
        b > 0,
    ensures
        2 * (nearest(a, b) * b - a) <= b,
        2 * (a - nearest(a, b) * b) <= b,
        2 * (a - nearest(a, b) * b) == b || 2 * (nearest(a, b) * b - a) == b ==> nearest(a, b) % 2
            == 0,
{
    nearest_error(a, b);
    let q = a / b;
    let r = a % b;
    vstd::arithmetic::div_mod::lemma_fundamental_div_mod(a as int, b as int);
    assert(a == b * q + r);
    assert(b * q == q * b) by (nonlinear_arith);
    assert((q + 1) * b == q * b + b) by (nonlinear_arith);
}

/// A number has its wholes in front of the point and its parts behind it, with the zeros that
/// they need.
pub proof fn parts_stand_behind_the_point(whole: nat, part: nat)
    ensures
        part < 10 ==> tenths_text(whole * 10 + part) == text::decimal(whole) + "."@ + text::decimal(
            part,
        ),
        part < 100 ==> hundredths_text(whole * 100 + part) == text::decimal(whole) + "."@
            + text::zero_padded(text::decimal(part), 2),
        part < 1000 ==> thousandths_text(whole * 1000 + part) == text::decimal(whole) + "."@
            + text::zero_padded(text::decimal(part), 3),
{
    if part < 10 {
        parted(whole, part, 10);
    }
    if part < 100 {
        parted(whole, part, 100);
    }
    if part < 1000 {
        parted(whole, part, 1000);
    }
}

proof fn parted(whole: nat, part: nat, unit: nat)
    requires
        part < unit,
    ensures
        (whole * unit + part) / unit == whole,
        (whole * unit + part) % unit == part,
{
    let n = (whole * unit + part) as int;
    vstd::arithmetic::div_mod::lemma_fundamental_div_mod_converse(
        n,
        unit as int,
        whole as int,
        part as int,
    );
}

/// The powers of two are those of the library.
pub proof fn powers_are_those_of_two(n: nat)
    ensures
        power(n) == vstd::arithmetic::power2::pow2(n),
    decreases n,
{
    if n > 0 {
        vstd::arithmetic::power2::lemma_pow2_unfold(n);
        powers_are_those_of_two((n - 1) as nat);
    } else {
        vstd::arithmetic::power2::lemma2_to64();
    }
}

/// A quotient that is whole is its own nearest.
pub proof fn whole_quotients_stay(m: nat, b: nat)
    requires
        b > 0,
    ensures
        nearest(m * b, b) == m,
{
    nearest_is(m * b, b, m);
}

} // verus!
