//! Double-precision arithmetic on positive numbers, in integers.
//!
//! Column widths and image sizes are scaled by ratios, and where a ratio does not
//! come out even its rounding decides which column gets the odd cell. The rounding
//! is that of IEEE 754 binary64: every operation gives the representable number
//! nearest to the exact result, and the even one of two that are equally near.
use vstd::prelude::*;

verus! {

/// `2^52`, the smallest mantissa.
pub const LOW: u64 = 0x10_0000_0000_0000;

/// `2^53`, one past the largest mantissa.
pub const HIGH: u64 = 0x20_0000_0000_0000;

/// The positive number `m * 2^e`.
#[derive(Debug, Clone, Copy, PartialEq, Eq, Structural)]
pub struct Binary64 {
    pub m: u64,
    pub e: i32,
}

/// The integer nearest to `n / d`; of two that are equally near, the even one.
pub open spec fn nearest(n: int, d: int) -> int {
    let q = n / d;
    let r = n % d;
    if 2 * r < d || (2 * r == d && q % 2 == 0) {
        q
    } else {
        q + 1
    }
}

/// `2^n`.
pub open spec fn pow2(n: nat) -> int
    decreases n,
{
    if n == 0 {
        1
    } else {
        2 * pow2((n - 1) as nat)
    }
}

/// The number `m * 2^e` with its mantissa in range, for a mantissa that may have been
/// rounded up to `2^53`.
pub open spec fn carried(m: int, e: int) -> Binary64 {
    if m == HIGH {
        Binary64 { m: LOW, e: (e + 1) as i32 }
    } else {
        Binary64 { m: m as u64, e: e as i32 }
    }
}

/// The number `n * 2^e`, rounded, by shifting `n` until it has 53 bits. `n` is
/// divided by `d`, a power of two, where it has more.
pub open spec fn shifted(n: int, d: int, e: int) -> Binary64
    decreases
            if n >= d * HIGH {
                n - d
            } else {
                0
            },
            if n < LOW {
                LOW - n
            } else {
                0
            },
    when n > 0 && d > 0
    via shifted_decreases
{
    if n >= d * HIGH {
        shifted(n, 2 * d, e + 1)
    } else if n < d * LOW {
        if d == 1 {
            shifted(2 * n, d, e - 1)
        } else {
            Binary64 { m: LOW, e: e as i32 }
        }
    } else {
        carried(nearest(n, d), e)
    }
}

#[via_fn]
proof fn shifted_decreases(n: int, d: int, e: int) {
    if n >= d * HIGH {
        assert(d * HIGH >= HIGH) by (nonlinear_arith)
            requires
                d >= 1,
        ;
    }
}

/// The number nearest to a positive integer.
#[verifier::opaque]
pub open spec fn of_int(n: int) -> Binary64 {
    shifted(n, 1, 0)
}

/// The number nearest to `a / b`.
#[verifier::opaque]
pub open spec fn quotient(a: Binary64, b: Binary64) -> Binary64 {
    if a.m >= b.m {
        carried(nearest(a.m * LOW, b.m as int), a.e - b.e - 52)
    } else {
        carried(nearest(a.m * HIGH, b.m as int), a.e - b.e - 53)
    }
}

/// The number nearest to `a * b`.
#[verifier::opaque]
pub open spec fn product(a: Binary64, b: Binary64) -> Binary64 {
    let p = a.m * b.m;
    if p < LOW * HIGH {
        carried(nearest(p, LOW as int), a.e + b.e + 52)
    } else {
        carried(nearest(p, HIGH as int), a.e + b.e + 53)
    }
}

/// Whether `a` is less than `b`.
pub open spec fn less(a: Binary64, b: Binary64) -> bool {
    a.e < b.e || (a.e == b.e && a.m < b.m)
}

/// The smaller of two numbers.
pub open spec fn smaller(a: Binary64, b: Binary64) -> Binary64 {
    if less(b, a) {
        b
    } else {
        a
    }
}

/// A number without a fraction, as far as `max` goes, which is less than `2^64`.
pub open spec fn whole(a: Binary64, max: int) -> int {
    if a.e > 11 || a.m * pow2(a.e as nat) > max {
        max
    } else {
        a.m * pow2(a.e as nat)
    }
}

/// The largest integer that is not above the number, as far as `max` goes.
#[verifier::opaque]
pub open spec fn floored(a: Binary64, max: int) -> int {
    if a.e >= 0 {
        whole(a, max)
    } else if a.e < -62 {
        0
    } else {
        let n = a.m as int / pow2((-a.e) as nat);
        if n > max {
            max
        } else {
            n
        }
    }
}

/// The integer nearest to the number, halves away from zero, as far as `max` goes.
#[verifier::opaque]
pub open spec fn rounded(a: Binary64, max: int) -> int {
    if a.e >= 0 {
        whole(a, max)
    } else if a.e < -62 {
        0
    } else {
        let n = (a.m + pow2((-a.e - 1) as nat)) / pow2((-a.e) as nat);
        if n > max {
            max
        } else {
            n
        }
    }
}

impl Binary64 {
    /// A mantissa of exactly 53 bits, and an exponent far from any limit.
    pub open spec fn wf(self) -> bool {
        LOW <= self.m < HIGH && -9_000 <= self.e <= 9_000
    }

    pub open spec fn within(self, bound: int) -> bool {
        LOW <= self.m < HIGH && -bound <= self.e <= bound
    }
}

fn nearest_of(n: u128, d: u128) -> (r: u128)
    requires
        0 < d <= 0x20_0000_0000_0000,
        n < 0x8000_0000_0000_0000_0000_0000_0000,
    ensures
        r == nearest(n as int, d as int),
        r <= n + 1,
{
    let q = n / d;
    let rest = n % d;
    assert(q <= n) by (nonlinear_arith)
        requires
            q == n / d,
            d >= 1,
            n >= 0,
    ;
    if 2 * rest < d || (2 * rest == d && q % 2 == 0) {
        q
    } else {
        q + 1
    }
}

fn carry(m: u128, e: i32) -> (r: Binary64)
    requires
        LOW <= m <= HIGH,
        -20_000 <= e <= 20_000,
    ensures
        r == carried(m as int, e as int),
        LOW <= r.m < HIGH,
        e <= r.e <= e + 1,
{
    if m == 0x20_0000_0000_0000 {
        Binary64 { m: LOW, e: e + 1 }
    } else {
        Binary64 { m: m as u64, e }
    }
}

/// A quotient between two bounds rounds to an integer between them.
proof fn lemma_nearest_bounds(n: int, d: int, low: int, high: int)
    requires
        d > 0,
        low * d <= n,
        n <= high * d,
        0 <= low,
    ensures
        low <= nearest(n, d) <= high,
{
    let q = n / d;
    let r = n % d;
    assert(n == q * d + r && 0 <= r < d) by (nonlinear_arith)
        requires
            d > 0,
            q == n / d,
            r == n % d,
    ;
    assert(low <= q) by (nonlinear_arith)
        requires
            low * d <= n,
            n == q * d + r,
            r < d,
            d > 0,
    ;
    assert(q < high || (q == high && r == 0)) by (nonlinear_arith)
        requires
            n <= high * d,
            n == q * d + r,
            0 <= r,
            d > 0,
    ;
}

/// The number nearest to a positive integer.
pub fn from_int(n: u64) -> (r: Binary64)
    requires
        n > 0,
    ensures
        r == of_int(n as int),
        r.within(64),
{
    proof {
        reveal(of_int);
    }
    let mut m: u64 = n;
    let mut e: i32 = 0;
    if n >= HIGH {
        let mut d: u64 = 1;
        while n / d >= HIGH
            invariant
                n >= HIGH,
                1 <= d <= 2048,
                0 <= e <= 11,
                d == 1 && e == 0 || d == 2 && e == 1 || d == 4 && e == 2 || d == 8 && e == 3 || d
                    == 16 && e == 4 || d == 32 && e == 5 || d == 64 && e == 6 || d == 128 && e == 7
                    || d == 256 && e == 8 || d == 512 && e == 9 || d == 1024 && e == 10 || d == 2048
                    && e == 11,
                n >= d * LOW,
                shifted(n as int, d as int, e as int) == of_int(n as int),
            decreases 2048 - d,
        {
            assert(n >= d * HIGH) by (nonlinear_arith)
                requires
                    n / d >= HIGH,
                    d >= 1,
            ;
            assert(d < 2048) by (nonlinear_arith)
                requires
                    n >= d * HIGH,
                    n <= 0xffff_ffff_ffff_ffffu64,
                    HIGH == 0x20_0000_0000_0000u64,
            ;
            d = 2 * d;
            e = e + 1;
        }
        assert(n < d * HIGH) by (nonlinear_arith)
            requires
                n / d < HIGH,
                d >= 1,
        ;
        proof {
            lemma_nearest_bounds(n as int, d as int, LOW as int, HIGH as int);
        }
        let k = nearest_of(n as u128, d as u128);
        return carry(k, e);
    }
    while m < LOW
        invariant
            0 < m < HIGH,
            -64 <= e <= 0,
            m < LOW ==> m as int >= pow2((-e) as nat),
            shifted(m as int, 1, e as int) == of_int(n as int),
        decreases HIGH - m,
    {
        proof {
            lemma_pow2_small((-e) as nat, m as int);
        }
        m = 2 * m;
        e = e - 1;
    }
    assert(nearest(m as int, 1) == m) by {
        assert(m as int / 1 == m);
        assert(m as int % 1 == 0);
    }
    Binary64 { m, e }
}

/// A power of two at most `m` is not a high one.
proof fn lemma_pow2_small(k: nat, m: int)
    requires
        pow2(k) <= m,
        m < LOW,
    ensures
        k < 52,
{
    if k >= 52 {
        lemma_pow2_grows(52, k);
        lemma_pow2_52();
    }
}

proof fn lemma_pow2_grows(a: nat, b: nat)
    requires
        a <= b,
    ensures
        0 < pow2(a) <= pow2(b),
    decreases b,
{
    if b > 0 {
        if a < b {
            lemma_pow2_grows(a, (b - 1) as nat);
        } else {
            lemma_pow2_grows((a - 1) as nat, (b - 1) as nat);
        }
    }
}

proof fn lemma_pow2_52()
    ensures
        pow2(52) == LOW,
        pow2(62) == 0x4000_0000_0000_0000,
{
    reveal_with_fuel(pow2, 63);
}

/// The number nearest to `a / b`.
pub fn div(a: Binary64, b: Binary64) -> (r: Binary64)
    requires
        a.wf(),
        b.wf(),
    ensures
        r == quotient(a, b),
        LOW <= r.m < HIGH,
        a.e - b.e - 53 <= r.e <= a.e - b.e - 51,
{
    proof {
        reveal(quotient);
    }
    if a.m >= b.m {
        let n: u128 = a.m as u128 * LOW as u128;
        proof {
            assert(LOW * b.m <= a.m * LOW) by (nonlinear_arith)
                requires
                    b.m <= a.m,
            ;
            assert(a.m * LOW <= HIGH * b.m) by (nonlinear_arith)
                requires
                    a.m <= HIGH,
                    LOW <= b.m,
            ;
            lemma_nearest_bounds(n as int, b.m as int, LOW as int, HIGH as int);
        }
        carry(nearest_of(n, b.m as u128), a.e - b.e - 52)
    } else {
        let n: u128 = a.m as u128 * HIGH as u128;
        proof {
            assert(LOW * b.m <= a.m * HIGH) by (nonlinear_arith)
                requires
                    b.m <= HIGH,
                    LOW <= a.m,
            ;
            assert(a.m * HIGH <= HIGH * b.m) by (nonlinear_arith)
                requires
                    a.m <= b.m,
            ;
            lemma_nearest_bounds(n as int, b.m as int, LOW as int, HIGH as int);
        }
        carry(nearest_of(n, b.m as u128), a.e - b.e - 53)
    }
}

/// The number nearest to `a * b`.
pub fn times(a: Binary64, b: Binary64) -> (r: Binary64)
    requires
        a.wf(),
        b.wf(),
    ensures
        r == product(a, b),
        LOW <= r.m < HIGH,
        a.e + b.e + 52 <= r.e <= a.e + b.e + 54,
{
    proof {
        reveal(product);
    }
    proof {
        assert(a.m * b.m < HIGH * HIGH) by (nonlinear_arith)
            requires
                a.m < HIGH,
                b.m < HIGH,
        ;
        assert(a.m * b.m >= LOW * LOW) by (nonlinear_arith)
            requires
                a.m >= LOW,
                b.m >= LOW,
        ;
    }
    let p: u128 = a.m as u128 * b.m as u128;
    assert(LOW * HIGH == 0x2_0000_0000_0000_0000_0000_0000_00);
    if p < 0x2_0000_0000_0000_0000_0000_0000_00 {
        proof {
            lemma_nearest_bounds(p as int, LOW as int, LOW as int, HIGH as int);
        }
        carry(nearest_of(p, LOW as u128), a.e + b.e + 52)
    } else {
        proof {
            lemma_nearest_bounds(p as int, HIGH as int, LOW as int, HIGH as int);
        }
        carry(nearest_of(p, HIGH as u128), a.e + b.e + 53)
    }
}

/// The smaller of two numbers.
pub fn min(a: Binary64, b: Binary64) -> (r: Binary64)
    ensures
        r == smaller(a, b),
{
    if b.e < a.e || (b.e == a.e && b.m < a.m) {
        b
    } else {
        a
    }
}

fn power(k: u32) -> (r: u64)
    requires
        k <= 62,
    ensures
        r == pow2(k as nat),
        r > 0,
{
    let mut p: u64 = 1;
    let mut i: u32 = 0;
    while i < k
        invariant
            i <= k <= 62,
            p == pow2(i as nat),
            p > 0,
        decreases k - i,
    {
        proof {
            lemma_pow2_grows((i + 1) as nat, 62);
            lemma_pow2_52();
        }
        p = 2 * p;
        i = i + 1;
    }
    p
}

fn shift_up(a: Binary64, max: u64) -> (r: u64)
    requires
        a.m < HIGH,
        a.e >= 0,
    ensures
        r == whole(a, max as int),
{
    if a.e > 11 {
        return max;
    }
    let p = power(a.e as u32);
    proof {
        lemma_pow2_grows(a.e as nat, 11);
        reveal_with_fuel(pow2, 12);
        assert(pow2(11) == 2048);
        assert(a.m * p <= HIGH * 2048) by (nonlinear_arith)
            requires
                a.m < HIGH,
                p <= 2048,
        ;
        assert(a.m * p < 0x1_0000_0000_0000_0000) by (nonlinear_arith)
            requires
                a.m < HIGH,
                p <= 2048,
                HIGH == 0x20_0000_0000_0000u64,
        ;
    }
    let n = a.m * p;
    if n > max {
        max
    } else {
        n
    }
}

/// The largest integer that is not above the number, as far as `max` goes.
pub fn floor(a: Binary64, max: u64) -> (r: u64)
    requires
        a.m < HIGH,
        a.e > i32::MIN,
    ensures
        r == floored(a, max as int),
        r <= max,
{
    proof {
        reveal(floored);
    }
    if a.e >= 0 {
        return shift_up(a, max);
    }
    if a.e < -62 {
        return 0;
    }
    let n = a.m / power((-a.e) as u32);
    if n > max {
        max
    } else {
        n
    }
}

/// The integer nearest to the number, halves away from zero, as far as `max` goes.
pub fn round(a: Binary64, max: u64) -> (r: u64)
    requires
        a.m < HIGH,
        a.e > i32::MIN,
    ensures
        r == rounded(a, max as int),
        r <= max,
{
    proof {
        reveal(rounded);
    }
    if a.e >= 0 {
        return shift_up(a, max);
    }
    if a.e < -62 {
        return 0;
    }
    let half = power((-a.e - 1) as u32);
    proof {
        lemma_pow2_grows((-a.e - 1) as nat, 62);
        lemma_pow2_52();
    }
    let n = (a.m + half) / power((-a.e) as u32);
    if n > max {
        max
    } else {
        n
    }
}

/// The size in units of `unit_w` by `unit_h` of something `w` by `h`, shrunk to fit
/// within `max_w` by `max_h` units without distorting it, and rounded to whole units.
pub open spec fn fitted_size(w: int, h: int, unit_w: int, unit_h: int, max_w: int, max_h: int) -> (
    int,
    int,
) {
    let across = quotient(of_int(w), of_int(unit_w));
    let down = quotient(of_int(h), of_int(unit_h));
    let scale = smaller(
        smaller(quotient(of_int(max_w), across), quotient(of_int(max_h), down)),
        of_int(1),
    );
    (rounded(product(across, scale), 0xffff), rounded(product(down, scale), 0xffff))
}

/// Shrinks a size to fit, and rounds it to whole units.
pub fn fit_size(w: u64, h: u64, unit_w: u64, unit_h: u64, max_w: u64, max_h: u64) -> (r: (
    u64,
    u64,
))
    requires
        w > 0,
        h > 0,
        unit_w > 0,
        unit_h > 0,
        max_w > 0,
        max_h > 0,
    ensures
        (r.0 as int, r.1 as int) == fitted_size(
            w as int,
            h as int,
            unit_w as int,
            unit_h as int,
            max_w as int,
            max_h as int,
        ),
        r.0 <= 0xffff,
        r.1 <= 0xffff,
{
    let across = div(from_int(w), from_int(unit_w));
    let down = div(from_int(h), from_int(unit_h));
    let a = div(from_int(max_w), across);
    let b = div(from_int(max_h), down);
    let scale = min(min(a, b), from_int(1));
    assert(scale.wf());
    (round(times(across, scale), 0xffff), round(times(down, scale), 0xffff))
}

} // verus!
