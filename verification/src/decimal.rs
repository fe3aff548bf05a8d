//! Numbers of seconds as the probe prints them.
//!
//! A number is an optional sign, digits with an optional fraction, and an optional
//! exponent. It is read exactly and rounded to microseconds once.

use crate::text;
use vstd::prelude::*;

verus! {

/// Ten to the power `n`.
pub open spec fn scale(n: nat) -> nat
    decreases n,
{
    if n == 0 {
        1
    } else {
        10 * scale((n - 1) as nat)
    }
}

/// A number in decimal notation: the value of its digits times ten to the power of its
/// exponent.
#[verifier::ext_equal]
pub struct Decimal {
    pub negative: bool,
    pub digits: Seq<char>,
    pub exponent: int,
}

pub open spec fn has_sign(s: Seq<char>) -> bool {
    s.len() > 0 && (s[0] == '-' || s[0] == '+')
}

pub open spec fn is_negative(s: Seq<char>) -> bool {
    s.len() > 0 && s[0] == '-'
}

/// What follows the sign, if there is one.
pub open spec fn without_sign(s: Seq<char>) -> Seq<char> {
    if has_sign(s) {
        s.skip(1)
    } else {
        s
    }
}

/// Where the exponent's letter stands, or the length where there is none.
pub open spec fn letter_at(s: Seq<char>) -> int {
    let small = text::first_index(s, 'e');
    let capital = text::first_index(s, 'E');
    if small < capital {
        small
    } else {
        capital
    }
}

/// What follows the character at `i`; nothing where there is none.
pub open spec fn behind(s: Seq<char>, i: int) -> Seq<char> {
    if i < s.len() {
        s.skip(i + 1)
    } else {
        Seq::empty()
    }
}

/// The exponent that `s` spells.
pub open spec fn exponent_value(s: Seq<char>) -> Option<int> {
    let d = without_sign(s);
    if d.len() == 0 || !text::all_digits(d) {
        None
    } else if is_negative(s) {
        Some(-text::digits_value(d))
    } else {
        Some(text::digits_value(d) as int)
    }
}

/// The digits of a number in front of its exponent, and how many of them stand behind
/// the point; there is at least one.
pub open spec fn mantissa_of(s: Seq<char>) -> Option<(Seq<char>, nat)> {
    let dot = text::first_index(s, '.');
    let whole = s.take(dot);
    let fraction = behind(s, dot);
    if !text::all_digits(whole) || !text::all_digits(fraction) || whole.len() + fraction.len() == 0 {
        None
    } else {
        Some((whole + fraction, fraction.len()))
    }
}

/// The number that `s` spells.
pub open spec fn decimal_of(s: Seq<char>) -> Option<Decimal> {
    let body = without_sign(s);
    let at = letter_at(body);
    let exponent = if at < body.len() {
        exponent_value(behind(body, at))
    } else {
        Some(0)
    };
    match (mantissa_of(body.take(at)), exponent) {
        (Some(m), Some(e)) => Some(
            Decimal { negative: is_negative(s), digits: m.0, exponent: e - m.1 },
        ),
        _ => None,
    }
}

/// `n` divided by ten to the power `k`, rounded to the nearest whole number, or up.
pub open spec fn rounded(n: nat, k: nat, up: bool) -> nat {
    if up {
        (n + scale(k) - 1) as nat / scale(k)
    } else {
        (n + scale(k) / 2) / scale(k)
    }
}

/// A number of seconds in microseconds, without its sign. It is rounded to the nearest
/// microsecond; one below zero is rounded away from zero, so that it stays below.
pub open spec fn magnitude_us(d: Decimal) -> nat {
    let n = text::digits_value(d.digits);
    let p = d.exponent + 6;
    if p >= 0 {
        n * scale(p as nat)
    } else {
        rounded(n, (-p) as nat, d.negative)
    }
}

/// A number of seconds in microseconds, where 63 bits hold it.
pub open spec fn decimal_us(d: Decimal) -> Option<int> {
    if magnitude_us(d) > i64::MAX {
        None
    } else if d.negative {
        Some(-magnitude_us(d))
    } else {
        Some(magnitude_us(d) as int)
    }
}

/// The number of seconds that `s` spells, in microseconds; `None` where `s` is no number
/// or one beyond what 63 bits hold.
pub open spec fn seconds_us(s: Seq<char>) -> Option<int> {
    match decimal_of(s) {
        Some(d) => decimal_us(d),
        None => None,
    }
}

pub open spec fn as_int(v: Option<i64>) -> Option<int> {
    match v {
        Some(n) => Some(n as int),
        None => None,
    }
}

// ---- digits and powers ----

proof fn scale_grows(a: nat, b: nat)
    requires
        a <= b,
    ensures
        1 <= scale(a) <= scale(b),
    decreases b,
{
    if a < b {
        scale_grows(a, (b - 1) as nat);
    } else if b > 0 {
        scale_grows((a - 1) as nat, (b - 1) as nat);
    }
}

proof fn digits_below(s: Seq<char>)
    requires
        text::all_digits(s),
    ensures
        text::digits_value(s) < scale(s.len()),
    decreases s.len(),
{
    if s.len() > 0 {
        assert forall|i: int| 0 <= i < s.drop_last().len() implies text::is_digit(
            #[trigger] s.drop_last()[i],
        ) by {
            assert(s[i] == s.drop_last()[i]);
        }
        digits_below(s.drop_last());
        assert(text::is_digit(s.last()));
    }
}

proof fn digits_split(a: Seq<char>, b: Seq<char>)
    ensures
        text::digits_value(a + b) == text::digits_value(a) * scale(b.len()) + text::digits_value(b),
    decreases b.len(),
{
    if b.len() == 0 {
        assert(a + b =~= a);
        assert(scale(b.len()) == 1);
        let x = text::digits_value(a);
        assert(x * 1 == x) by (nonlinear_arith);
    } else {
        digits_split(a, b.drop_last());
        assert((a + b).drop_last() =~= a + b.drop_last());
        assert((a + b).last() == b.last());
        let x = text::digits_value(a);
        let y = scale(b.drop_last().len());
        assert(scale(b.len()) == 10 * y);
        assert((x * y) * 10 == x * (10 * y)) by (nonlinear_arith);
    }
}

proof fn digits_of_part(s: Seq<char>, a: int, b: int)
    requires
        text::all_digits(s),
        0 <= a <= b <= s.len(),
    ensures
        text::all_digits(s.subrange(a, b)),
{
    assert forall|i: int| 0 <= i < s.subrange(a, b).len() implies text::is_digit(
        #[trigger] s.subrange(a, b)[i],
    ) by {
        assert(s.subrange(a, b)[i] == s[a + i]);
    }
}

// ---- rounding ----

/// Nothing is left of nothing.
proof fn zero_magnitude(d: Decimal)
    requires
        text::digits_value(d.digits) == 0,
    ensures
        magnitude_us(d) == 0,
{
    let p = d.exponent + 6;
    if p >= 0 {
        assert(0 * scale(p as nat) == 0);
    } else {
        let t = scale((-p) as nat);
        scale_grows(0, (-p) as nat);
        assert((t - 1) / (t as int) == 0) by (nonlinear_arith)
            requires
                t >= 1,
        ;
        assert((t / 2) / t == 0) by (nonlinear_arith)
            requires
                t >= 1,
        ;
    }
}

/// A number with so high an exponent does not fit.
proof fn far_above(d: Decimal)
    requires
        text::digits_value(d.digits) > 0,
        d.exponent + 6 >= 19,
    ensures
        magnitude_us(d) > i64::MAX,
{
    let n = text::digits_value(d.digits);
    let t = scale((d.exponent + 6) as nat);
    scale_grows(19, (d.exponent + 6) as nat);
    assert(scale(19) == 10_000_000_000_000_000_000) by {
        reveal_with_fuel(scale, 20);
    }
    assert(n * t >= t) by (nonlinear_arith)
        requires
            n >= 1,
            t >= 1,
    ;
}

/// A number with so low an exponent is next to zero.
proof fn far_below(d: Decimal)
    requires
        text::all_digits(d.digits),
        text::digits_value(d.digits) > 0,
        d.exponent + 6 + d.digits.len() < 0,
    ensures
        magnitude_us(d) == if d.negative {
            1nat
        } else {
            0
        },
{
    let n = text::digits_value(d.digits);
    let k = (-(d.exponent + 6)) as nat;
    let t = scale(k);
    digits_below(d.digits);
    scale_grows(d.digits.len(), (k - 1) as nat);
    assert(t == 10 * scale((k - 1) as nat));
    if d.negative {
        assert((n + t - 1) / (t as int) == 1) by (nonlinear_arith)
            requires
                1 <= n <= t,
                t >= 1,
        ;
    } else {
        assert((n + t / 2) / t == 0) by (nonlinear_arith)
            requires
                10 * n < t,
        ;
    }
}

/// A number that is split in front of its last `k` digits: the rest is rounded away.
proof fn split_magnitude(d: Decimal, head: Seq<char>, tail: Seq<char>)
    requires
        d.digits == head + tail,
        text::all_digits(tail),
        tail.len() > 0,
        d.exponent + 6 + tail.len() == 0,
    ensures
        magnitude_us(d) == text::digits_value(head) + if d.negative {
            if text::digits_value(tail) > 0 {
                1nat
            } else {
                0
            }
        } else if tail[0] >= '5' {
            1
        } else {
            0
        },
{
    let h = text::digits_value(head);
    let r = text::digits_value(tail);
    let k = tail.len();
    let t = scale(k);
    let u = scale((k - 1) as nat);
    digits_split(head, tail);
    digits_below(tail);
    scale_grows(0, (k - 1) as nat);
    assert(t == 10 * u);
    let n = h * t + r;
    if d.negative {
        if r > 0 {
            assert((h * t + r + t - 1) / (t as int) == h + 1) by (nonlinear_arith)
                requires
                    1 <= r < t,
            ;
        } else {
            assert((h * t + t - 1) / (t as int) == h) by (nonlinear_arith)
                requires
                    t >= 1,
            ;
        }
    } else {
        let first = tail.take(1);
        let rest = tail.skip(1);
        assert(tail =~= first + rest);
        digits_split(first, rest);
        digits_of_part(tail, 1, k as int);
        assert(rest =~= tail.subrange(1, k as int));
        digits_below(rest);
        assert(first.drop_last() =~= Seq::<char>::empty());
        assert(text::is_digit(tail[0]));
        let c = text::digit_value(tail[0]);
        assert(text::digits_value(first) == c) by {
            reveal_with_fuel(text::digits_value, 2);
        }
        let q = text::digits_value(rest);
        assert(r == c * u + q);
        assert(t / 2 == 5 * u) by (nonlinear_arith)
            requires
                t == 10 * u,
        ;
        if tail[0] >= '5' {
            assert(c * u >= 5 * u) by (nonlinear_arith)
                requires
                    c >= 5,
                    u >= 1,
            ;
            assert((h * t + r + 5 * u) / t == h + 1) by (nonlinear_arith)
                requires
                    t == 10 * u,
                    5 * u <= r < t,
            ;
        } else {
            assert(c * u <= 4 * u) by (nonlinear_arith)
                requires
                    c <= 4,
                    u >= 1,
            ;
            assert((h * t + r + 5 * u) / t == h) by (nonlinear_arith)
                requires
                    t == 10 * u,
                    0 <= r < 5 * u,
            ;
        }
    }
}

/// A number of seconds below zero stays below zero in microseconds, and any other does not
/// fall below.
pub proof fn sign_is_kept(d: Decimal)
    requires
        decimal_us(d) is Some,
    ensures
        decimal_us(d)->0 < 0 <==> d.negative && text::digits_value(d.digits) > 0,
{
    let n = text::digits_value(d.digits);
    let p = d.exponent + 6;
    if n == 0 {
        zero_magnitude(d);
    } else if d.negative {
        if p >= 0 {
            let t = scale(p as nat);
            scale_grows(0, p as nat);
            assert(n * t >= 1) by (nonlinear_arith)
                requires
                    n >= 1,
                    t >= 1,
            ;
        } else {
            let t = scale((-p) as nat);
            scale_grows(0, (-p) as nat);
            assert((n + t - 1) / (t as int) >= 1) by (nonlinear_arith)
                requires
                    n >= 1,
                    t >= 1,
            ;
        }
    }
}

// ---- reading ----

fn digits_only(v: &Vec<char>, a: usize, b: usize) -> (r: bool)
    requires
        a <= b <= v@.len(),
    ensures
        r == text::all_digits(v@.subrange(a as int, b as int)),
{
    let ghost s = v@.subrange(a as int, b as int);
    let mut k: usize = a;
    while k < b
        invariant
            a <= k <= b <= v@.len(),
            s == v@.subrange(a as int, b as int),
            forall|j: int| 0 <= j < k - a ==> text::is_digit(#[trigger] s[j]),
        decreases b - k,
    {
        assert(s[k - a] == v@[k as int]);
        if !text::digit(v[k]) {
            return false;
        }
        k += 1;
    }
    true
}

fn any_nonzero(v: &Vec<char>, a: usize) -> (r: bool)
    requires
        a <= v@.len(),
        text::all_digits(v@.skip(a as int)),
    ensures
        r == (text::digits_value(v@.skip(a as int)) > 0),
{
    let ghost s = v@.skip(a as int);
    let mut k: usize = a;
    assert(s.take(0) =~= Seq::<char>::empty());
    while k < v.len()
        invariant
            a <= k <= v@.len(),
            s == v@.skip(a as int),
            text::all_digits(s),
            text::digits_value(s.take(k - a)) == 0,
        decreases v@.len() - k,
    {
        proof {
            assert(s[k - a] == v@[k as int]);
            assert(text::is_digit(s[k - a]));
            assert(s.take(k - a + 1).drop_last() =~= s.take(k - a));
            assert(s.take(k - a + 1).last() == s[k - a]);
            text::digits_value_monotonic(s, k - a + 1);
        }
        if v[k] != '0' {
            return true;
        }
        k += 1;
    }
    assert(s.take(k - a) =~= s);
    false
}

/// The first `to` digits as a number of at most 63 bits.
fn head_value(v: &Vec<char>, to: usize) -> (r: Option<u64>)
    requires
        to <= v@.len(),
        text::all_digits(v@),
    ensures
        match r {
            Some(n) => n == text::digits_value(v@.take(to as int)) && n <= i64::MAX,
            None => text::digits_value(v@.take(to as int)) > i64::MAX,
        },
{
    assert(v@.take(to as int) =~= v@.subrange(0, to as int));
    if to == 0 {
        return Some(0);
    }
    proof {
        digits_of_part(v@, 0, to as int);
    }
    text::parse_digits(v, 0, to, 0x7fff_ffff_ffff_ffff)
}

/// `n` times ten to the power `p`, where 63 bits hold it.
fn shifted(n: u64, p: u64) -> (r: Option<u64>)
    requires
        n <= i64::MAX,
    ensures
        match r {
            Some(x) => x == n * scale(p as nat) && x <= i64::MAX,
            None => n * scale(p as nat) > i64::MAX,
        },
{
    let mut x: u64 = n;
    let mut left: u64 = p;
    while left > 0
        invariant
            left <= p,
            x <= i64::MAX,
            x * scale(left as nat) == n * scale(p as nat),
        decreases left,
    {
        proof {
            let t = scale((left - 1) as nat);
            scale_grows(0, (left - 1) as nat);
            assert(scale(left as nat) == 10 * t);
            assert(x * (10 * t) == (x * 10) * t) by (nonlinear_arith);
            assert((x * 10) * t >= x * 10) by (nonlinear_arith)
                requires
                    t >= 1,
                    x >= 0,
            ;
        }
        if x > 922_337_203_685_477_580 {
            return None;
        }
        x = x * 10;
        left -= 1;
    }
    assert(scale(0) == 1);
    assert(x * 1 == x) by (nonlinear_arith);
    Some(x)
}

/// The number of microseconds that digits and an exponent stand for.
fn magnitude(digits: &Vec<char>, exponent: i128, negative: bool) -> (r: Option<u64>)
    requires
        text::all_digits(digits@),
        text::digits_value(digits@) > 0,
        -0x4_0000_0000_0000_0000 <= exponent <= 0x4_0000_0000_0000_0000,
    ensures
        ({
            let d = Decimal { negative, digits: digits@, exponent: exponent as int };
            match r {
                Some(n) => n == magnitude_us(d) && n <= i64::MAX,
                None => magnitude_us(d) > i64::MAX,
            }
        }),
{
    let ghost d = Decimal { negative, digits: digits@, exponent: exponent as int };
    let p: i128 = exponent + 6;
    if p >= 19 {
        proof {
            far_above(d);
        }
        return None;
    }
    if p >= 0 {
        assert(digits@.take(digits@.len() as int) =~= digits@);
        return match head_value(digits, digits.len()) {
            Some(n) => shifted(n, p as u64),
            None => {
                proof {
                    let n = text::digits_value(digits@);
                    let t = scale(p as nat);
                    scale_grows(0, p as nat);
                    assert(n * t >= n) by (nonlinear_arith)
                        requires
                            t >= 1,
                            n >= 0,
                    ;
                }
                None
            },
        };
    }
    let k: i128 = -p;
    if k > digits.len() as i128 {
        proof {
            far_below(d);
        }
        return Some(if negative { 1 } else { 0 });
    }
    let cut: usize = digits.len() - k as usize;
    let ghost head = digits@.take(cut as int);
    let ghost tail = digits@.skip(cut as int);
    proof {
        assert(digits@ =~= head + tail);
        assert(tail =~= digits@.subrange(cut as int, digits@.len() as int));
        digits_of_part(digits@, cut as int, digits@.len() as int);
        split_magnitude(d, head, tail);
        assert(tail[0] == digits@[cut as int]);
    }
    let up: bool = if negative { any_nonzero(digits, cut) } else { digits[cut] >= '5' };
    match head_value(digits, cut) {
        Some(h) => {
            let n: u64 = if up { h + 1 } else { h };
            if n > 0x7fff_ffff_ffff_ffff {
                None
            } else {
                Some(n)
            }
        },
        None => None,
    }
}

/// An exponent beyond 64 bits has more than twelve digits.
proof fn long_exponent(d: Seq<char>)
    requires
        text::all_digits(d),
        text::digits_value(d) > u64::MAX,
    ensures
        d.len() > 12,
{
    digits_below(d);
    if d.len() <= 12 {
        scale_grows(d.len(), 12);
        assert(scale(12) == 1_000_000_000_000) by {
            reveal_with_fuel(scale, 13);
        }
    }
}

/// The characters of `v[a..b]` and then those of `v[c..end]`.
fn join_digits(v: &Vec<char>, a: usize, b: usize, c: usize, end: usize) -> (r: Vec<char>)
    requires
        a <= b <= v@.len(),
        c <= end <= v@.len(),
    ensures
        r@ == v@.subrange(a as int, b as int) + v@.subrange(c as int, end as int),
{
    let mut out: Vec<char> = Vec::new();
    let mut i: usize = a;
    while i < b
        invariant
            a <= i <= b <= v@.len(),
            out@ =~= v@.subrange(a as int, i as int),
        decreases b - i,
    {
        out.push(v[i]);
        i += 1;
    }
    let mut j: usize = c;
    while j < end
        invariant
            c <= j <= end <= v@.len(),
            a <= b <= v@.len(),
            out@ =~= v@.subrange(a as int, b as int) + v@.subrange(c as int, j as int),
        decreases end - j,
    {
        out.push(v[j]);
        j += 1;
    }
    out
}

/// Where a character stands first in `v[from..to]`, or `to` where it does not.
fn find_before(v: &Vec<char>, c: char, from: usize, to: usize) -> (r: usize)
    requires
        from <= to <= v@.len(),
    ensures
        from <= r <= to,
        r - from == text::first_index(v@.subrange(from as int, to as int), c),
{
    let ghost s = v@.subrange(from as int, to as int);
    let mut i: usize = from;
    while i < to && v[i] != c
        invariant
            from <= i <= to <= v@.len(),
            s == v@.subrange(from as int, to as int),
            forall|j: int| 0 <= j < i - from ==> s[j] != c,
        decreases to - i,
    {
        assert(s[i - from] == v@[i as int]);
        i += 1;
    }
    proof {
        if i < to {
            assert(s[i - from] == v@[i as int]);
        }
        text::first_index_is(s, c, i - from);
    }
    i
}

/// The number of microseconds that digits and an exponent stand for, with its sign.
fn signed_us(digits: &Vec<char>, exponent: i128, negative: bool) -> (r: Option<i64>)
    requires
        text::all_digits(digits@),
        -0x2_0000_0000_0000_0000 <= exponent <= 0x2_0000_0000_0000_0000,
    ensures
        as_int(r) == decimal_us(Decimal { negative, digits: digits@, exponent: exponent as int }),
{
    assert(digits@.skip(0) =~= digits@);
    if !any_nonzero(digits, 0) {
        proof {
            zero_magnitude(Decimal { negative, digits: digits@, exponent: exponent as int });
        }
        return Some(0);
    }
    match magnitude(digits, exponent, negative) {
        Some(n) => if negative {
            Some(-(n as i64))
        } else {
            Some(n as i64)
        },
        None => None,
    }
}

/// The same where the exponent is beyond 64 bits.
fn extreme_us(digits: &Vec<char>, down: bool, negative: bool, exponent: Ghost<int>) -> (r: Option<
    i64,
>)
    requires
        text::all_digits(digits@),
        down ==> exponent@ + 6 + digits@.len() < 0,
        !down ==> exponent@ + 6 >= 19,
    ensures
        as_int(r) == decimal_us(Decimal { negative, digits: digits@, exponent: exponent@ }),
{
    let ghost d = Decimal { negative, digits: digits@, exponent: exponent@ };
    assert(digits@.skip(0) =~= digits@);
    if !any_nonzero(digits, 0) {
        proof {
            zero_magnitude(d);
        }
        return Some(0);
    }
    if down {
        proof {
            far_below(d);
        }
        if negative {
            Some(-1)
        } else {
            Some(0)
        }
    } else {
        proof {
            far_above(d);
        }
        None
    }
}

/// The digits of `v[from..at]`, and how many stand behind the point.
fn read_mantissa(v: &Vec<char>, from: usize, at: usize) -> (r: Option<(Vec<char>, usize)>)
    requires
        from <= at <= v@.len(),
    ensures
        match r {
            Some(m) => {
                &&& mantissa_of(v@.subrange(from as int, at as int)) == Some((m.0@, m.1 as nat))
                &&& text::all_digits(m.0@)
                &&& m.1 <= m.0@.len() <= at
            },
            None => mantissa_of(v@.subrange(from as int, at as int)) is None,
        },
{
    let dot: usize = find_before(v, '.', from, at);
    let next: usize = if dot < at { dot + 1 } else { at };
    let ghost s = v@.subrange(from as int, at as int);
    let ghost whole = s.take(dot - from);
    let ghost fraction = behind(s, dot - from);
    proof {
        assert(whole =~= v@.subrange(from as int, dot as int));
        assert(fraction =~= v@.subrange(next as int, at as int));
    }
    if !digits_only(v, from, dot) || !digits_only(v, next, at) {
        return None;
    }
    let digits = join_digits(v, from, dot, next, at);
    if digits.len() == 0 {
        return None;
    }
    assert forall|i: int| 0 <= i < digits@.len() implies text::is_digit(#[trigger] digits@[i]) by {
        if i < whole.len() {
            assert(digits@[i] == whole[i]);
        } else {
            assert(digits@[i] == fraction[i - whole.len()]);
        }
    }
    Some((digits, at - next))
}

/// The number with the exponent that `v` has from `first` on.
fn with_exponent(
    v: &Vec<char>,
    first: usize,
    digits: &Vec<char>,
    places: usize,
    negative: bool,
) -> (r: Option<i64>)
    requires
        first <= v@.len(),
        text::all_digits(digits@),
        places <= digits@.len() < first,
    ensures
        as_int(r) == match exponent_value(v@.skip(first as int)) {
            Some(e) => decimal_us(Decimal { negative, digits: digits@, exponent: e - places }),
            None => None,
        },
{
    let total: usize = v.len();
    let down: bool = first < total && v[first] == '-';
    let from: usize = if first < total && (v[first] == '-' || v[first] == '+') {
        first + 1
    } else {
        first
    };
    let ghost power = without_sign(v@.skip(first as int));
    assert(power =~= v@.subrange(from as int, total as int));
    if from == total || !digits_only(v, from, total) {
        return None;
    }
    match text::parse_digits(v, from, total, 0xffff_ffff_ffff_ffff) {
        Some(n) => {
            let exponent: i128 = if down {
                -(n as i128) - places as i128
            } else {
                n as i128 - places as i128
            };
            signed_us(digits, exponent, negative)
        },
        None => {
            let ghost e: int = if down {
                -text::digits_value(power)
            } else {
                text::digits_value(power) as int
            };
            proof {
                long_exponent(power);
            }
            extreme_us(digits, down, negative, Ghost(e - places))
        },
    }
}

/// Reads a number of seconds as the probe prints it.
pub fn parse_seconds(s: &str) -> (r: Option<i64>)
    ensures
        match r {
            Some(n) => seconds_us(s@) == Some(n as int),
            None => seconds_us(s@) is None,
        },
{
    let v = text::chars_of(s);
    let total: usize = v.len();
    let negative: bool = total > 0 && v[0] == '-';
    let from: usize = if total > 0 && (v[0] == '-' || v[0] == '+') { 1 } else { 0 };
    let ghost body = without_sign(s@);
    assert(body =~= v@.subrange(from as int, total as int));
    let small: usize = find_before(&v, 'e', from, total);
    let capital: usize = find_before(&v, 'E', from, total);
    let at: usize = if small < capital { small } else { capital };
    assert(body.take(at - from) =~= v@.subrange(from as int, at as int));
    match read_mantissa(&v, from, at) {
        Some((digits, places)) => {
            if at == total {
                signed_us(&digits, -(places as i128), negative)
            } else {
                assert(behind(body, at - from) =~= v@.skip(at + 1));
                with_exponent(&v, at + 1, &digits, places, negative)
            }
        },
        None => None,
    }
}

// ---- further laws ----

proof fn first_index_none(s: Seq<char>, c: char)
    requires
        !s.contains(c),
    ensures
        text::first_index(s, c) == s.len(),
    decreases s.len(),
{
    if s.len() > 0 {
        assert(s.contains(s[0]));
        let t = s.skip(1);
        assert(!t.contains(c)) by {
            if t.contains(c) {
                let i = choose|i: int| 0 <= i < t.len() && t[i] == c;
                assert(s[i + 1] == c);
            }
        }
        first_index_none(t, c);
    }
}

proof fn digits_hold_nothing_else(s: Seq<char>, c: char)
    requires
        text::all_digits(s),
        !text::is_digit(c),
    ensures
        !s.contains(c),
{
    if s.contains(c) {
        let i = choose|i: int| 0 <= i < s.len() && s[i] == c;
        assert(text::is_digit(s[i]));
    }
}

/// A number of seconds with up to six decimal places is read exactly: so many millionths as
/// its digits say.
pub proof fn printed_seconds_are_exact(whole: Seq<char>, fraction: Seq<char>)
    requires
        whole.len() > 0 && text::all_digits(whole),
        text::all_digits(fraction),
        fraction.len() <= 6,
        text::digits_value(whole) < 1_000_000_000_000,
    ensures
        seconds_us(whole + seq!['.'] + fraction) == Some(
            (text::digits_value(whole) * 1_000_000 + text::digits_value(fraction) * scale(
                (6 - fraction.len()) as nat,
            )) as int,
        ),
{
    let s = whole + seq!['.'] + fraction;
    assert(s[0] == whole[0]);
    assert(text::is_digit(whole[0]));
    assert(without_sign(s) == s);
    assert forall|c: char| (c == 'e' || c == 'E') implies !#[trigger] s.contains(c) by {
        digits_hold_nothing_else(whole, c);
        digits_hold_nothing_else(fraction, c);
        if s.contains(c) {
            let i = choose|i: int| 0 <= i < s.len() && s[i] == c;
            if i < whole.len() {
                assert(whole[i] == c);
            } else if i > whole.len() {
                assert(fraction[i - whole.len() - 1] == c);
            }
        }
    }
    assert(!s.contains('e') && !s.contains('E'));
    first_index_none(s, 'e');
    first_index_none(s, 'E');
    assert(letter_at(s) == s.len());
    assert(s.take(s.len() as int) =~= s);
    digits_hold_nothing_else(whole, '.');
    assert forall|i: int| 0 <= i < whole.len() implies #[trigger] s[i] != '.' by {
        assert(s[i] == whole[i]);
        assert(whole.contains(whole[i]));
    }
    text::first_index_is(s, '.', whole.len() as int);
    assert(s.take(whole.len() as int) =~= whole);
    assert(s.skip(whole.len() + 1int) =~= fraction);
    let d = Decimal {
        negative: false,
        digits: whole + fraction,
        exponent: 0 - fraction.len() as int,
    };
    assert(decimal_of(s) =~= Some(d));
    digits_split(whole, fraction);
    digits_below(fraction);
    let p = (6 - fraction.len()) as nat;
    scale_adds(fraction.len(), p);
    let w = text::digits_value(whole);
    let f = text::digits_value(fraction);
    let a = scale(fraction.len());
    let b = scale(p);
    assert((w * a + f) * b == w * (a * b) + f * b) by (nonlinear_arith);
    assert(scale(6) == 1_000_000) by {
        reveal_with_fuel(scale, 7);
    }
    assert(a * b == 1_000_000);
    assert(f * b <= a * b) by (nonlinear_arith)
        requires
            f < a,
            0 <= b,
    ;
}

proof fn scale_adds(a: nat, b: nat)
    ensures
        scale(a) * scale(b) == scale(a + b),
    decreases a,
{
    if a > 0 {
        scale_adds((a - 1) as nat, b);
        let x = scale((a - 1) as nat);
        let y = scale(b);
        assert((10 * x) * y == 10 * (x * y)) by (nonlinear_arith);
        assert((a + b - 1) as nat == (a - 1) as nat + b);
        assert(scale(a + b) == 10 * scale((a + b - 1) as nat));
    } else {
        assert(scale(a) == 1);
        assert(1 * scale(b) == scale(b));
    }
}

/// A minus in front makes a number of seconds negative, and a plus changes nothing.
pub proof fn sign_stands_in_front(s: Seq<char>)
    requires
        s.len() > 0,
        s[0] != '-' && s[0] != '+',
        decimal_of(s) is Some,
    ensures
        decimal_of(seq!['+'] + s) == decimal_of(s),
        decimal_of(seq!['-'] + s) == Some(Decimal { negative: true, ..decimal_of(s)->0 }),
        !(decimal_of(s)->0).negative,
{
    assert((seq!['+'] + s).skip(1) =~= s);
    assert((seq!['-'] + s).skip(1) =~= s);
}

} // verus!
