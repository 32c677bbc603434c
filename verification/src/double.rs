//! Double-precision numbers held by their IEEE 754 bit patterns.
//!
//! Times and scores come from the audio clock, the database and the recognition service as
//! 64-bit floating-point numbers. Here such a number is its bit pattern; its value is a whole
//! number of units of 2^-1074, the spacing of the smallest doubles. Comparison is exact, and
//! arithmetic gives the double nearest to the exact result, ties to the even one.

use vstd::prelude::*;

verus! {

/// 2^52: the weight of the hidden bit of a normal double's significand.
pub const HIDDEN: u64 = 0x10_0000_0000_0000;

/// 2^53: significands lie below it.
pub const LIMIT: u64 = 0x20_0000_0000_0000;

/// 2^63: the weight of the sign bit.
pub const SIGN: u64 = 0x8000_0000_0000_0000;

/// The bit pattern of positive infinity.
pub const INFINITY: u64 = 0x7ff0_0000_0000_0000;

/// The bit pattern of the quiet not-a-number.
pub const NAN: u64 = 0x7ff8_0000_0000_0000;

/// 2 to the power `k`.
pub open spec fn two(k: nat) -> nat
    decreases k,
{
    if k == 0 {
        1
    } else {
        2 * two((k - 1) as nat)
    }
}

/// What a bit pattern stands for: a whole number of units of 2^-1074, an infinity, or no number.
pub enum Real {
    NotANumber,
    Infinite { negative: bool },
    Finite { units: int },
}

/// A double-precision number by its bit pattern.
#[derive(Clone, Copy, PartialEq, Eq, Structural, Debug)]
pub struct Double {
    pub bits: u64,
}

/// The units of 2^-1074 in the non-negative double with the bit pattern `m`.
pub open spec fn magnitude(m: int) -> nat {
    if m < HIDDEN {
        m as nat
    } else {
        ((HIDDEN + m % (HIDDEN as int)) * two((m / (HIDDEN as int) - 1) as nat)) as nat
    }
}

/// The bit pattern without its sign bit.
pub open spec fn unsigned_bits(bits: u64) -> int {
    if bits < SIGN {
        bits as int
    } else {
        bits - SIGN
    }
}

impl View for Double {
    type V = Real;

    open spec fn view(&self) -> Real {
        let m = unsigned_bits(self.bits);
        let negative = self.bits >= SIGN;
        if m > INFINITY {
            Real::NotANumber
        } else if m == INFINITY {
            Real::Infinite { negative }
        } else if negative {
            Real::Finite { units: -(magnitude(m) as int) }
        } else {
            Real::Finite { units: magnitude(m) as int }
        }
    }
}

/// Whether `a` is less than `b`; nothing is less than, or greater than, what is not a number.
pub open spec fn less(a: Real, b: Real) -> bool {
    match (a, b) {
        (Real::Finite { units: x }, Real::Finite { units: y }) => x < y,
        (Real::Finite { .. }, Real::Infinite { negative }) => !negative,
        (Real::Infinite { negative }, Real::Finite { .. }) => negative,
        (Real::Infinite { negative: x }, Real::Infinite { negative: y }) => x && !y,
        _ => false,
    }
}

/// Zero.
pub open spec fn zero() -> Real {
    Real::Finite { units: 0 }
}

/// Whether `a` is less than or equal to `b`; false where one of them is not a number.
pub open spec fn at_most(a: Real, b: Real) -> bool {
    less(a, b) || (a == b && a != Real::NotANumber)
}

/// The number of low bits that `n` has beyond a significand's 53.
pub open spec fn excess(n: nat) -> nat
    decreases n,
{
    if n < LIMIT {
        0
    } else {
        1 + excess(n / 2)
    }
}

/// `q` or `q + 1`, whichever is nearer to `q + r / p`; the even one where both are as near.
pub open spec fn half_even(q: nat, r: nat, p: nat) -> nat {
    if 2 * r > p || (2 * r == p && q % 2 == 1) {
        q + 1
    } else {
        q
    }
}

/// The number with at most 53 significant bits that is nearest to `n`, ties to the even one.
pub open spec fn nearest(n: nat) -> nat {
    let p = two(excess(n));
    half_even(n / p, n % p, p) * p
}

/// The double nearest to `units` units; an infinity beyond the largest finite double.
pub open spec fn rounded(units: int) -> Real {
    if units < 0 {
        signed(true, nearest(-units as nat))
    } else {
        signed(false, nearest(units as nat))
    }
}

/// The number with at most 53 significant bits that is nearest to `n / d`, ties to the even one.
pub open spec fn nearest_quotient(n: nat, d: nat) -> nat {
    let x = excess(n / d);
    let p = d * two(x);
    half_even(n / p, n % p, p) * two(x)
}

/// The double nearest to the whole number `n`.
pub open spec fn whole(n: nat) -> Real {
    rounded((n * two(1074)) as int)
}

/// `n / d` as the doubles nearest to two whole numbers divide.
pub open spec fn ratio(n: nat, d: nat) -> Real {
    Real::Finite { units: nearest_quotient(nearest(n) * two(1074), nearest(d)) as int }
}

/// `a` times the whole number `k`, as doubles multiply.
pub open spec fn multiple(a: Real, k: nat) -> Real {
    match a {
        Real::NotANumber => Real::NotANumber,
        Real::Infinite { negative } => if k == 0 {
            Real::NotANumber
        } else {
            a
        },
        Real::Finite { units } => rounded(units * k),
    }
}

/// `a` rounded to a whole number, halves up, held within 0 and `max`; 0 for what is no number.
pub open spec fn rounded_whole(a: Real, max: nat) -> nat {
    match a {
        Real::NotANumber => 0,
        Real::Infinite { negative } => if negative {
            0
        } else {
            max
        },
        Real::Finite { units } => if units <= 0 {
            0
        } else if (units as nat + two(1073)) / two(1074) > max {
            max
        } else {
            (units as nat + two(1073)) / two(1074)
        },
    }
}

/// `a` without its fraction, held within 0 and `max`; 0 for what is no number.
pub open spec fn truncated_whole(a: Real, max: nat) -> nat {
    match a {
        Real::NotANumber => 0,
        Real::Infinite { negative } => if negative {
            0
        } else {
            max
        },
        Real::Finite { units } => if units <= 0 {
            0
        } else if units as nat / two(1074) > max {
            max
        } else {
            units as nat / two(1074)
        },
    }
}

/// The larger of `a` and `b`; the other one where one of them is no number.
pub open spec fn larger(a: Real, b: Real) -> Real {
    if a == Real::NotANumber || less(a, b) {
        b
    } else {
        a
    }
}

/// The smaller of `a` and `b`; the other one where one of them is no number.
pub open spec fn smaller(a: Real, b: Real) -> Real {
    if a == Real::NotANumber || less(b, a) {
        b
    } else {
        a
    }
}

/// `-a`.
pub open spec fn negated(a: Real) -> Real {
    match a {
        Real::NotANumber => Real::NotANumber,
        Real::Infinite { negative } => Real::Infinite { negative: !negative },
        Real::Finite { units } => Real::Finite { units: -units },
    }
}

/// `a + b` as doubles add.
pub open spec fn sum(a: Real, b: Real) -> Real {
    match (a, b) {
        (Real::Finite { units: x }, Real::Finite { units: y }) => rounded(x + y),
        (Real::Infinite { negative }, Real::Finite { .. }) => a,
        (Real::Finite { .. }, Real::Infinite { negative }) => b,
        (Real::Infinite { negative: x }, Real::Infinite { negative: y }) => if x == y {
            a
        } else {
            Real::NotANumber
        },
        _ => Real::NotANumber,
    }
}

/// `a - b` as doubles subtract.
pub open spec fn difference(a: Real, b: Real) -> Real {
    sum(a, negated(b))
}

proof fn lemma_two_positive(k: nat)
    ensures
        two(k) >= 1,
    decreases k,
{
    if k > 0 {
        lemma_two_positive((k - 1) as nat);
    }
}

proof fn lemma_two_monotone(i: nat, j: nat)
    requires
        i <= j,
    ensures
        two(i) <= two(j),
    decreases j,
{
    lemma_two_positive(i);
    if i < j {
        lemma_two_monotone(i, (j - 1) as nat);
    }
}

proof fn lemma_two_adds(i: nat, j: nat)
    ensures
        two(i + j) == two(i) * two(j),
    decreases i,
{
    if i == 0 {
        assert(two(0) == 1);
        assert(two(0) * two(j) == two(j)) by (nonlinear_arith)
            requires
                two(0) == 1,
        ;
    } else {
        lemma_two_adds((i - 1) as nat, j);
        let a = two((i - 1) as nat);
        let b = two(j);
        assert(two(i) == 2 * a);
        assert(((i - 1) as nat + j) as nat == (i + j - 1) as nat);
        assert(2 * (a * b) == (2 * a) * b) by (nonlinear_arith);
    }
}

/// A larger bit pattern without sign stands for a larger number.
proof fn lemma_magnitude_increases(m: int, n: int)
    requires
        0 <= m < n,
    ensures
        magnitude(m) < magnitude(n),
{
    let h = HIDDEN as int;
    let em = m / h;
    let en = n / h;
    let fm = m % h;
    let fn_ = n % h;
    assert(em <= en);
    if n < h {
    } else if m < h {
        lemma_two_positive((en - 1) as nat);
        let t = two((en - 1) as nat) as int;
        assert((h + fn_) * t >= h) by (nonlinear_arith)
            requires
                t >= 1,
                fn_ >= 0,
                h > 0,
        ;
    } else if em == en {
        lemma_two_positive((en - 1) as nat);
        let t = two((en - 1) as nat) as int;
        assert((h + fm) * t < (h + fn_) * t) by (nonlinear_arith)
            requires
                t >= 1,
                fm < fn_,
        ;
    } else {
        lemma_two_monotone(em as nat, (en - 1) as nat);
        lemma_two_positive((em - 1) as nat);
        let s = two((em - 1) as nat) as int;
        let t = two((en - 1) as nat) as int;
        assert(two(em as nat) == 2 * s);
        assert((h + fm) * s < (h + fn_) * t) by (nonlinear_arith)
            requires
                s >= 1,
                t >= 2 * s,
                0 <= fm < h,
                fn_ >= 0,
        ;
    }
}

/// A number in the binade of significands shifted by `x` has exactly `x` excess bits.
proof fn lemma_excess_in_binade(n: nat, x: nat)
    requires
        HIDDEN * two(x) <= n < LIMIT * two(x),
    ensures
        excess(n) == x,
    decreases x,
{
    if x > 0 {
        let t = two((x - 1) as nat);
        assert(two(x) == 2 * t);
        lemma_two_positive((x - 1) as nat);
        assert(HIDDEN * two(x) == 2 * (HIDDEN * t)) by (nonlinear_arith)
            requires
                two(x) == 2 * t,
        ;
        assert(LIMIT * two(x) == 2 * (LIMIT * t)) by (nonlinear_arith)
            requires
                two(x) == 2 * t,
        ;
        assert(HIDDEN * t >= HIDDEN) by (nonlinear_arith)
            requires
                t >= 1,
        ;
        assert(n >= LIMIT);
        lemma_excess_in_binade(n / 2, (x - 1) as nat);
    } else {
        assert(two(0) == 1);
    }
}

/// Excess bits bring a number below the limit and, where there are any, no further than needed.
proof fn lemma_excess_bounds(n: nat)
    ensures
        n < LIMIT * two(excess(n)),
        excess(n) > 0 ==> HIDDEN * two(excess(n)) <= n,
    decreases n,
{
    if n >= LIMIT {
        lemma_excess_bounds(n / 2);
        let t = two(excess(n / 2));
        assert(two(excess(n)) == 2 * t);
        assert(LIMIT * (2 * t) == 2 * (LIMIT * t)) by (nonlinear_arith);
        assert(HIDDEN * (2 * t) == 2 * (HIDDEN * t)) by (nonlinear_arith);
        if excess(n / 2) == 0 {
            assert(t == 1);
        }
    } else {
        assert(two(0) == 1);
        assert(LIMIT * two(0) == LIMIT) by (nonlinear_arith)
            requires
                two(0) == 1,
        ;
    }
}

/// Rounding commutes with scaling by a power of two.
proof fn lemma_nearest_scales(m: nat, e: nat)
    ensures
        nearest(m * two(e)) == nearest(m) * two(e),
{
    let s = two(e);
    let n = m * s;
    lemma_two_positive(e);
    lemma_excess_bounds(m);
    lemma_excess_bounds(n);
    let k = excess(m);
    let p = two(k);
    lemma_two_positive(k);
    if k > 0 {
        lemma_two_adds(k, e);
        let ps = two(k + e);
        assert(HIDDEN * (p * s) == (HIDDEN * p) * s) by (nonlinear_arith);
        assert(LIMIT * (p * s) == (LIMIT * p) * s) by (nonlinear_arith);
        assert((HIDDEN * p) * s <= m * s) by (nonlinear_arith)
            requires
                HIDDEN * p <= m,
                s >= 1,
        ;
        assert(m * s < (LIMIT * p) * s) by (nonlinear_arith)
            requires
                m < LIMIT * p,
                s >= 1,
        ;
        lemma_excess_in_binade(n, k + e);
        let q = m / p;
        let r = m % p;
        vstd::arithmetic::div_mod::lemma_fundamental_div_mod(m as int, p as int);
        vstd::arithmetic::div_mod::lemma_mod_bound(m as int, p as int);
        assert(n == (p * s) * q + r * s) by (nonlinear_arith)
            requires
                n == m * s,
                m == p * q + r,
        ;
        assert(0 <= r * s < p * s) by (nonlinear_arith)
            requires
                0 <= r < p,
                s >= 1,
        ;
        vstd::arithmetic::div_mod::lemma_fundamental_div_mod_converse(
            n as int,
            (p * s) as int,
            q as int,
            (r * s) as int,
        );
        assert(2 * (r * s) > p * s <==> 2 * r > p) by (nonlinear_arith)
            requires
                s >= 1,
        ;
        assert(2 * (r * s) == p * s <==> 2 * r == p) by (nonlinear_arith)
            requires
                s >= 1,
        ;
        let h = half_even(q, r, p);
        assert(h * (p * s) == (h * p) * s) by (nonlinear_arith);
    } else {
        assert(p == 1);
        vstd::arithmetic::div_mod::lemma_fundamental_div_mod_converse(m as int, 1, m as int, 0);
        assert(nearest(m) == m);
        let x = excess(n);
        if x > e {
            lemma_two_monotone((e + 1) as nat, x);
            assert(two((e + 1) as nat) == 2 * s);
            assert(HIDDEN * two(x) >= LIMIT * s) by (nonlinear_arith)
                requires
                    two(x) >= 2 * s,
                    LIMIT == 2 * HIDDEN,
            ;
            assert(m * s < LIMIT * s) by (nonlinear_arith)
                requires
                    m < LIMIT,
                    s >= 1,
            ;
            assert(false);
        }
        let px = two(x);
        lemma_two_positive(x);
        lemma_two_adds((e - x) as nat, x);
        let w = two((e - x) as nat);
        assert(n == (m * w) * px + 0) by (nonlinear_arith)
            requires
                n == m * s,
                s == w * px,
        ;
        vstd::arithmetic::div_mod::lemma_fundamental_div_mod_converse(
            n as int,
            px as int,
            (m * w) as int,
            0,
        );
        assert((m * w) * px == m * s) by (nonlinear_arith)
            requires
                s == w * px,
        ;
    }
}

/// The signed number of units `m` as a double's value; an infinity beyond the largest one.
pub open spec fn signed(negative: bool, m: nat) -> Real {
    if m >= two(2098) {
        Real::Infinite { negative }
    } else if negative {
        Real::Finite { units: -(m as int) }
    } else {
        Real::Finite { units: m as int }
    }
}

/// The powers of two that bound significands.
proof fn lemma_two_of_significands()
    ensures
        two(52) == HIDDEN,
        two(53) == LIMIT,
{
    reveal_with_fuel(two, 54);
}

/// The powers of two that bound shifts.
proof fn lemma_two_of_shifts()
    ensures
        two(3) == 8,
        two(70) == 0x40_0000_0000_0000_0000,
        two(74) == 0x400_0000_0000_0000_0000,
{
    reveal_with_fuel(two, 75);
}

/// The power of two that bounds wide significands.
proof fn lemma_two_127()
    ensures
        two(127) == 0x8000_0000_0000_0000_0000_0000_0000_0000,
{
    lemma_two_adds(53, 74);
    lemma_two_of_shifts();
    lemma_two_of_significands();
}

/// Where `t * 2^x` units, in lowest terms, leave the range of finite doubles.
proof fn lemma_overflow(t: nat, x: nat)
    requires
        t < LIMIT,
        t >= HIDDEN || x == 0,
    ensures
        t * two(x) >= two(2098) <==> t >= HIDDEN && x > 2045,
        t < HIDDEN ==> t * two(x) == t,
{
    lemma_two_of_significands();
    lemma_two_positive(x);
    let w = two(x);
    if t < HIDDEN {
        assert(w == 1);
        assert(t * w == t) by (nonlinear_arith)
            requires
                w == 1,
        ;
        lemma_two_monotone(52, 2098);
    } else if x > 2045 {
        lemma_two_monotone(2046, x);
        lemma_two_adds(52, 2046);
        assert(t * w >= HIDDEN as nat * two(2046)) by (nonlinear_arith)
            requires
                t >= HIDDEN,
                w >= two(2046),
        ;
    } else {
        lemma_two_monotone(x, 2045);
        lemma_two_adds(53, 2045);
        assert(t * w < LIMIT as nat * two(2045)) by (nonlinear_arith)
            requires
                t < LIMIT,
                1 <= w <= two(2045),
        ;
    }
}

/// The double of value `significand * 2^exponent` units.
fn encode(negative: bool, significand: u64, exponent: u32) -> (r: Double)
    requires
        significand < LIMIT,
    ensures
        r@ == signed(negative, significand as nat * two(exponent as nat)),
{
    let ghost goal = significand as nat * two(exponent as nat);
    let sign: u64 = if negative {
        SIGN
    } else {
        0
    };
    proof {
        lemma_two_positive(2098);
    }
    if significand == 0 {
        assert(goal == 0) by (nonlinear_arith)
            requires
                significand == 0,
                goal == significand as nat * two(exponent as nat),
        ;
        return Double { bits: sign };
    }
    let mut t: u64 = significand;
    let mut x: u32 = exponent;
    while t < HIDDEN && x > 0
        invariant
            0 < t < LIMIT,
            t as nat * two(x as nat) == goal,
        decreases x,
    {
        assert((2 * t) as nat * two((x - 1) as nat) == t as nat * two(x as nat)) by {
            let w = two((x - 1) as nat);
            assert(two(x as nat) == 2 * w);
            assert((2 * t) as nat * w == t as nat * (2 * w)) by (nonlinear_arith);
        }
        t = 2 * t;
        x = x - 1;
    }
    proof {
        lemma_overflow(t as nat, x as nat);
    }
    if t < HIDDEN {
        Double { bits: sign + t }
    } else if x > 2045 {
        Double { bits: sign + INFINITY }
    } else {
        let field: u64 = (x + 1) as u64;
        assert(field * HIDDEN <= 2046 * 0x10_0000_0000_0000) by (nonlinear_arith)
            requires
                field <= 2046,
                HIDDEN == 0x10_0000_0000_0000u64,
        ;
        assert(field * HIDDEN >= HIDDEN) by (nonlinear_arith)
            requires
                field >= 1,
        ;
        let m: u64 = field * HIDDEN + (t - HIDDEN);
        proof {
            vstd::arithmetic::div_mod::lemma_fundamental_div_mod_converse(
                m as int,
                HIDDEN as int,
                field as int,
                t - HIDDEN,
            );
            assert(magnitude(m as int) == goal);
        }
        Double { bits: sign + m }
    }
}

/// The double nearest to `significand * 2^exponent` units.
fn pack(negative: bool, significand: u128, exponent: u32) -> (r: Double)
    requires
        significand < 0x8000_0000_0000_0000_0000_0000_0000_0000,
        exponent <= 0x1000_0000,
    ensures
        r@ == signed(negative, nearest(significand as nat * two(exponent as nat))),
{
    let mut t: u128 = significand;
    let mut p: u128 = 1;
    let mut k: u32 = 0;
    assert(significand as int / 1 == significand);
    while t >= LIMIT as u128
        invariant
            significand < 0x8000_0000_0000_0000_0000_0000_0000_0000,
            k <= 127,
            p == two(k as nat),
            p >= 1,
            t == significand / p,
            t * p <= significand,
            excess(significand as nat) == k + excess(t as nat),
        decreases t,
    {
        assert(p * 0x20_0000_0000_0000 <= significand) by (nonlinear_arith)
            requires
                t * p <= significand,
                t >= 0x20_0000_0000_0000,
        ;
        proof {
            vstd::arithmetic::div_mod::lemma_div_denominator(significand as int, p as int, 2);
            assert(p * 2 == 2 * p);
            if k >= 127 {
                lemma_two_monotone(127, k as nat);
                lemma_two_127();
            }
        }
        t = t / 2;
        p = p * 2;
        k = k + 1;
        assert(t * p <= significand) by {
            vstd::arithmetic::div_mod::lemma_fundamental_div_mod(significand as int, p as int);
            vstd::arithmetic::div_mod::lemma_mod_bound(significand as int, p as int);
            assert(t * p == p * t) by (nonlinear_arith);
        }
    }
    let r: u128 = significand - t * p;
    proof {
        vstd::arithmetic::div_mod::lemma_fundamental_div_mod(significand as int, p as int);
        vstd::arithmetic::div_mod::lemma_mod_bound(significand as int, p as int);
        assert(t * p == p * t) by (nonlinear_arith);
        assert(r == significand % p);
    }
    let mut q: u64 = t as u64;
    if r > p - r || (r == p - r && q % 2 == 1) {
        q = q + 1;
    }
    let ghost h = half_even(t as nat, r as nat, p as nat);
    assert(q == h);
    proof {
        lemma_nearest_scales(significand as nat, exponent as nat);
        lemma_two_adds(k as nat, exponent as nat);
        let s = two(exponent as nat);
        assert((h * p as nat) * s == h * (p as nat * s)) by (nonlinear_arith);
    }
    if q == LIMIT {
        proof {
            let w = two((k + exponent) as nat);
            assert(two((k + exponent + 1) as nat) == 2 * w);
            assert(LIMIT as nat * w == HIDDEN as nat * (2 * w)) by (nonlinear_arith)
                requires
                    LIMIT == 2 * HIDDEN,
            ;
        }
        encode(negative, HIDDEN, k + exponent + 1)
    } else {
        encode(negative, q, k + exponent)
    }
}

/// 2 to the power `d`.
fn power(d: u32) -> (p: u128)
    requires
        d <= 74,
    ensures
        p == two(d as nat),
{
    let mut p: u128 = 1;
    let mut k: u32 = 0;
    while k < d
        invariant
            k <= d <= 74,
            p == two(k as nat),
        decreases d - k,
    {
        proof {
            lemma_two_monotone(k as nat, 74);
            lemma_two_of_shifts();
        }
        p = 2 * p;
        k = k + 1;
    }
    p
}

/// Adding or taking away less than a small part of the last place changes nothing.
proof fn lemma_tiny(m: nat, x: nat, tiny: nat)
    requires
        HIDDEN <= m < LIMIT,
        x >= 1,
        4 * tiny < two(x),
    ensures
        nearest(m * two(x)) == m * two(x),
        nearest(m * two(x) + tiny) == m * two(x),
        tiny <= m * two(x),
        nearest((m * two(x) - tiny) as nat) == m * two(x),
{
    let p = two(x);
    let big = m * p;
    assert(HIDDEN * p <= big) by (nonlinear_arith)
        requires
            HIDDEN <= m,
            big == m * p,
    ;
    assert(big + p <= LIMIT * p) by (nonlinear_arith)
        requires
            m + 1 <= LIMIT,
            big == m * p,
    ;
    assert(p <= HIDDEN * p) by (nonlinear_arith)
        requires
            HIDDEN >= 1,
    ;
    lemma_excess_in_binade(big, x);
    lemma_excess_in_binade(big + tiny, x);
    vstd::arithmetic::div_mod::lemma_fundamental_div_mod_converse(
        big as int,
        p as int,
        m as int,
        0,
    );
    vstd::arithmetic::div_mod::lemma_fundamental_div_mod_converse(
        (big + tiny) as int,
        p as int,
        m as int,
        tiny as int,
    );
    if tiny > 0 {
        let less = (big - tiny) as nat;
        if m > HIDDEN {
            assert(HIDDEN * p + p <= big) by (nonlinear_arith)
                requires
                    HIDDEN + 1 <= m,
                    big == m * p,
            ;
            lemma_excess_in_binade(less, x);
            assert(less == (m - 1) * p + (p - tiny)) by (nonlinear_arith)
                requires
                    less == m * p - tiny,
            ;
            vstd::arithmetic::div_mod::lemma_fundamental_div_mod_converse(
                less as int,
                p as int,
                m - 1,
                p - tiny,
            );
        } else {
            let h = two((x - 1) as nat);
            assert(p == 2 * h);
            assert(big == LIMIT * h) by (nonlinear_arith)
                requires
                    big == m * p,
                    m == HIDDEN,
                    LIMIT == 2 * HIDDEN,
                    p == 2 * h,
            ;
            assert(HIDDEN * h + h <= LIMIT * h) by (nonlinear_arith)
                requires
                    HIDDEN + 1 <= LIMIT,
            ;
            lemma_excess_in_binade(less, (x - 1) as nat);
            assert(less == (LIMIT - 1) * h + (h - tiny)) by (nonlinear_arith)
                requires
                    less == LIMIT * h - tiny,
            ;
            vstd::arithmetic::div_mod::lemma_fundamental_div_mod_converse(
                less as int,
                h as int,
                LIMIT - 1,
                h - tiny,
            );
        }
    }
}

/// The double nearest to the sum of two signed numbers, the first of them of the larger exponent.
fn add_ordered(an: bool, am: u64, ax: u32, bn: bool, bm: u64, bx: u32) -> (r: Double)
    requires
        am < LIMIT,
        bm < LIMIT,
        bx <= ax <= 2045,
        ax > 0 ==> am >= HIDDEN,
    ensures
        r@ == rounded(
            (if an {
                -(am * two(ax as nat))
            } else {
                am * two(ax as nat)
            }) + (if bn {
                -(bm * two(bx as nat))
            } else {
                bm * two(bx as nat)
            }),
        ),
{
    let d: u32 = ax - bx;
    let ghost s = two(bx as nat);
    proof {
        lemma_two_positive(bx as nat);
    }
    if d > 70 {
        proof {
            let big = two(ax as nat);
            lemma_two_adds(d as nat, bx as nat);
            lemma_two_monotone(56, d as nat);
            lemma_two_adds(3, 53);
            lemma_two_of_shifts();
            lemma_two_of_significands();
            assert(4 * (bm * s) < big) by (nonlinear_arith)
                requires
                    big == two(d as nat) * s,
                    two(d as nat) >= 8 * LIMIT,
                    bm < LIMIT,
                    s >= 1,
            ;
            assert(bm * s >= 0) by (nonlinear_arith);
            lemma_tiny(am as nat, ax as nat, (bm * s) as nat);
            assert(am * big >= big) by (nonlinear_arith)
                requires
                    am >= 1,
            ;
        }
        encode(an, am, ax)
    } else {
        let p: u128 = power(d);
        proof {
            lemma_two_monotone(d as nat, 70);
            lemma_two_of_shifts();
            lemma_two_positive(d as nat);
            assert(0 <= am * p < 0x20_0000_0000_0000 * 0x40_0000_0000_0000_0000) by (nonlinear_arith)
                requires
                    am < 0x20_0000_0000_0000,
                    1 <= p <= 0x40_0000_0000_0000_0000,
            ;
            lemma_two_adds(d as nat, bx as nat);
        }
        let big: u128 = am as u128 * p;
        let low: u128 = bm as u128;
        assert(big * s == am * two(ax as nat)) by (nonlinear_arith)
            requires
                big == am * p,
                two(ax as nat) == p * s,
        ;
        if an == bn {
            assert((big + low) * s == big * s + low * s) by (nonlinear_arith);
            assert(big * s >= 0 && low * s >= 0) by (nonlinear_arith);
            proof {
                if big + low == 0 {
                    vstd::arithmetic::div_mod::lemma_fundamental_div_mod_converse(0, 1, 0, 0);
                    assert(nearest(0) == 0);
                    lemma_signed_zero();
                } else {
                    assert((big + low) * s > 0) by (nonlinear_arith)
                        requires
                            big + low > 0,
                            s >= 1,
                    ;
                }
            }
            pack(an, big + low, bx)
        } else if big > low {
            assert((big - low) * s == big * s - low * s) by (nonlinear_arith);
            assert((big - low) * s > 0) by (nonlinear_arith)
                requires
                    big - low > 0,
                    s >= 1,
            ;
            pack(an, big - low, bx)
        } else if big < low {
            assert((low - big) * s == low * s - big * s) by (nonlinear_arith);
            assert((low - big) * s > 0) by (nonlinear_arith)
                requires
                    low - big > 0,
                    s >= 1,
            ;
            pack(bn, low - big, bx)
        } else {
            assert(nearest(0) == 0) by {
                vstd::arithmetic::div_mod::lemma_fundamental_div_mod_converse(0, 1, 0, 0);
            }
            proof {
                lemma_signed_zero();
            }
            Double { bits: 0 }
        }
    }
}

/// Zero is zero with either sign.
proof fn lemma_signed_zero()
    ensures
        signed(true, 0) == (Real::Finite { units: 0 }),
        signed(false, 0) == (Real::Finite { units: 0 }),
{
    lemma_two_positive(2098);
}

/// Rounding a quotient looks only at the ratio of remainder and divisor.
proof fn lemma_half_even_scales(n: nat, p: nat, c: nat)
    requires
        p >= 1,
        c >= 1,
    ensures
        (n * c) / (p * c) == n / p,
        half_even((n * c) / (p * c), (n * c) % (p * c), p * c) == half_even(n / p, n % p, p),
{
    let q = n / p;
    let r = n % p;
    vstd::arithmetic::div_mod::lemma_fundamental_div_mod(n as int, p as int);
    vstd::arithmetic::div_mod::lemma_mod_bound(n as int, p as int);
    assert(n * c == q * (p * c) + r * c) by (nonlinear_arith)
        requires
            n == p * q + r,
    ;
    assert(0 <= r * c < p * c) by (nonlinear_arith)
        requires
            0 <= r < p,
            c >= 1,
    ;
    vstd::arithmetic::div_mod::lemma_fundamental_div_mod_converse(
        (n * c) as int,
        (p * c) as int,
        q as int,
        (r * c) as int,
    );
    assert(2 * (r * c) > p * c <==> 2 * r > p) by (nonlinear_arith)
        requires
            c >= 1,
    ;
    assert(2 * (r * c) == p * c <==> 2 * r == p) by (nonlinear_arith)
        requires
            c >= 1,
    ;
}

/// A quotient is unchanged where both its terms are multiplied by the same number.
proof fn lemma_quotient_cancels(n: nat, d: nat, c: nat)
    requires
        d >= 1,
        c >= 1,
    ensures
        nearest_quotient(n * c, d * c) == nearest_quotient(n, d),
{
    lemma_half_even_scales(n, d, c);
    let x = excess(n / d);
    lemma_two_positive(x);
    let t = two(x);
    assert(d * t >= 1) by (nonlinear_arith)
        requires
            d >= 1,
            t >= 1,
    ;
    assert((d * c) * t == (d * t) * c) by (nonlinear_arith);
    lemma_half_even_scales(n, d * t, c);
}

/// Rounding a large quotient commutes with scaling by a power of two.
proof fn lemma_quotient_scales(n: nat, d: nat, e: nat)
    requires
        d >= 1,
        n / d >= LIMIT,
    ensures
        nearest_quotient(n * two(e), d) == nearest_quotient(n, d) * two(e),
{
    let f = n / d;
    let x = excess(f);
    let t = two(x);
    let s = two(e);
    lemma_two_positive(x);
    lemma_two_positive(e);
    lemma_excess_bounds(f);
    vstd::arithmetic::div_mod::lemma_fundamental_div_mod(n as int, d as int);
    vstd::arithmetic::div_mod::lemma_mod_bound(n as int, d as int);
    lemma_two_adds(x, e);
    let low = HIDDEN * (t * s);
    let high = LIMIT * (t * s);
    assert(low * d <= n * s) by (nonlinear_arith)
        requires
            low == HIDDEN * (t * s),
            HIDDEN * t <= f,
            d * f <= n,
    ;
    assert(n * s < high * d) by (nonlinear_arith)
        requires
            high == LIMIT * (t * s),
            f + 1 <= LIMIT * t,
            n < d * f + d,
            s >= 1,
    ;
    let g = (n * s) / d;
    vstd::arithmetic::div_mod::lemma_fundamental_div_mod((n * s) as int, d as int);
    vstd::arithmetic::div_mod::lemma_mod_bound((n * s) as int, d as int);
    assert(g >= low) by (nonlinear_arith)
        requires
            low * d <= n * s,
            n * s < d * g + d,
            d >= 1,
    ;
    assert(g < high) by (nonlinear_arith)
        requires
            n * s < high * d,
            d * g <= n * s,
            d >= 1,
    ;
    lemma_excess_in_binade(g, x + e);
    assert(d * t >= 1) by (nonlinear_arith)
        requires
            d >= 1,
            t >= 1,
    ;
    lemma_half_even_scales(n, d * t, s);
    assert(d * (t * s) == (d * t) * s) by (nonlinear_arith);
    let h = half_even(n / (d * t), n % (d * t), d * t);
    assert(h * (t * s) == (h * t) * s) by (nonlinear_arith);
}

/// One extra bit that says whether anything was left over stands for the whole rest of a quotient.
proof fn lemma_sticky(f: nat, r: nat, d: nat)
    requires
        d >= 1,
        r < d,
        f >= 4 * LIMIT,
    ensures
        nearest((2 * f + (if r > 0 {
            1nat
        } else {
            0nat
        })) as nat) == nearest_quotient(2 * (f * d + r), d),
{
    let bit: nat = if r > 0 {
        1
    } else {
        0
    };
    let s = (2 * f + bit) as nat;
    let n = 2 * (f * d + r);
    let g = n / d;
    let extra: nat = if 2 * r >= d {
        1
    } else {
        0
    };
    assert(n == (2 * f + extra) * d + (2 * r - extra * d)) by (nonlinear_arith)
        requires
            n == 2 * (f * d + r),
    ;
    vstd::arithmetic::div_mod::lemma_fundamental_div_mod_converse(
        n as int,
        d as int,
        (2 * f + extra) as int,
        2 * r - extra * d,
    );
    assert(g == 2 * f + extra);
    lemma_excess_bounds(s);
    let x = excess(s);
    assert(s / 2 == f);
    assert(g / 2 == f);
    assert(excess(g) == x);
    let p = two(x);
    lemma_excess_bounds(f);
    assert(f / 2 >= 2 * LIMIT);
    assert(excess(f / 2) >= 1);
    assert(x >= 3);
    let w = two((x - 2) as nat);
    assert(two((x - 1) as nat) == 2 * w);
    assert(p == 4 * w);
    lemma_two_positive((x - 2) as nat);
    // The division of `s` by `p`.
    let q = s / p;
    let rs = s % p;
    vstd::arithmetic::div_mod::lemma_fundamental_div_mod(s as int, p as int);
    vstd::arithmetic::div_mod::lemma_mod_bound(s as int, p as int);
    assert(rs % 2 == bit) by {
        assert(p * q == 2 * (2 * w * q)) by (nonlinear_arith)
            requires
                p == 4 * w,
        ;
        assert(rs == 2 * (f - 2 * w * q) + bit);
    }
    let even = (rs - bit) as nat;
    // The division of `n` by `d * p`.
    let dp = d * p;
    let rn = d * even + 2 * r;
    assert(dp >= 1) by (nonlinear_arith)
        requires
            d >= 1,
            p >= 1,
            dp == d * p,
    ;
    assert(n == q * dp + rn) by (nonlinear_arith)
        requires
            n == 2 * (f * d + r),
            dp == d * p,
            rn == d * even + 2 * r,
            2 * f == p * q + even,
    ;
    assert(even + 2 <= p);
    assert(rn < dp) by (nonlinear_arith)
        requires
            dp == d * p,
            rn == d * even + 2 * r,
            even + 2 <= p,
            r < d,
    ;
    vstd::arithmetic::div_mod::lemma_fundamental_div_mod_converse(
        n as int,
        dp as int,
        q as int,
        rn as int,
    );
    if even >= 2 * w {
        assert(2 * rn == dp <==> even == 2 * w && r == 0) by (nonlinear_arith)
            requires
                dp == d * p,
                rn == d * even + 2 * r,
                even >= 2 * w,
                p == 4 * w,
                d >= 1,
        ;
        assert(2 * rn >= dp) by (nonlinear_arith)
            requires
                dp == d * p,
                rn == d * even + 2 * r,
                even >= 2 * w,
                p == 4 * w,
        ;
    } else {
        assert(even + 2 <= 2 * w);
        assert(2 * rn < dp) by (nonlinear_arith)
            requires
                dp == d * p,
                rn == d * even + 2 * r,
                even + 2 <= 2 * w,
                p == 4 * w,
                r < d,
        ;
    }
}

/// Rounding keeps a number within a factor of two, and above zero.
proof fn lemma_nearest_bounds(n: nat)
    ensures
        nearest(n) <= 2 * n,
        n >= 1 ==> nearest(n) >= 1,
{
    let x = excess(n);
    let p = two(x);
    lemma_two_positive(x);
    lemma_excess_bounds(n);
    let q = n / p;
    let r = n % p;
    vstd::arithmetic::div_mod::lemma_fundamental_div_mod(n as int, p as int);
    vstd::arithmetic::div_mod::lemma_mod_bound(n as int, p as int);
    if x == 0 {
        vstd::arithmetic::div_mod::lemma_fundamental_div_mod_converse(n as int, 1, n as int, 0);
    } else {
        let h = half_even(q, r, p);
        assert(q >= 1) by (nonlinear_arith)
            requires
                n == p * q + r,
                r < p,
                HIDDEN * p <= n,
                HIDDEN >= 1,
                p >= 1,
        ;
        assert(h * p <= 2 * n) by (nonlinear_arith)
            requires
                h <= q + 1,
                q >= 1,
                n == p * q + r,
                r >= 0,
        ;
        assert(h * p >= 1) by (nonlinear_arith)
            requires
                h >= 1,
                p >= 1,
        ;
    }
}

/// A difference is positive exactly if the first number is the greater one, and negative exactly
/// if it is the lesser one: rounding never loses or turns the sign.
pub proof fn difference_has_sign(a: Real, b: Real)
    ensures
        less(zero(), difference(a, b)) <==> less(b, a),
        less(difference(a, b), zero()) <==> less(a, b),
{
    if let (Real::Finite { units: x }, Real::Finite { units: y }) = (a, b) {
        if x < y {
            lemma_nearest_bounds((y - x) as nat);
        } else {
            lemma_nearest_bounds((x - y) as nat);
        }
        lemma_signed_zero();
    }
}

/// The double nearest to a machine integer is finite, and is that integer rounded to 53 bits.
proof fn lemma_whole(n: u64)
    ensures
        whole(n as nat) == (Real::Finite { units: (nearest(n as nat) * two(1074)) as int }),
        n >= 1 ==> nearest(n as nat) >= 1,
        nearest(n as nat) <= 0x2_0000_0000_0000_0000,
{
    lemma_nearest_scales(n as nat, 1074);
    lemma_nearest_bounds(n as nat);
    lemma_two_adds(1024, 1074);
    lemma_two_monotone(74, 1024);
    lemma_two_of_shifts();
    lemma_two_positive(1074);
    let s = two(1074);
    let m = nearest(n as nat);
    assert(n as nat * s >= 0) by (nonlinear_arith);
    assert(m * s < two(1024) * s) by (nonlinear_arith)
        requires
            m < two(1024),
            s >= 1,
    ;
}

/// The significand of a whole number's double is normal, and its exponent lies near that of one.
proof fn lemma_units_exponent(n: nat, m: nat, x: nat)
    requires
        1 <= n <= 0x2_0000_0000_0000_0000,
        n * two(1074) == m * two(x),
        m < LIMIT,
        x > 0 ==> m >= HIDDEN,
    ensures
        m >= HIDDEN,
        1021 <= x <= 1140,
{
    lemma_two_of_significands();
    lemma_two_of_shifts();
    lemma_two_positive(x);
    lemma_two_positive(1074);
    let u = two(1074);
    let s = two(x);
    if x < 1021 {
        lemma_two_monotone(x, 1021);
        lemma_two_adds(53, 1021);
        assert(m * s < LIMIT * two(1021)) by (nonlinear_arith)
            requires
                m < LIMIT,
                1 <= s <= two(1021),
        ;
        assert(n * u >= u) by (nonlinear_arith)
            requires
                n >= 1,
        ;
        assert(false);
    }
    if x > 1140 {
        lemma_two_monotone(1141, x);
        lemma_two_adds(67, 1074);
        lemma_two_adds(3, 67);
        assert(m * s >= two(1141)) by (nonlinear_arith)
            requires
                m >= 1,
                s >= two(1141),
        ;
        assert(n * u < two(67) * u) by (nonlinear_arith)
            requires
                n < two(67),
                u >= 1,
        ;
        assert(false);
    }
}

/// Dividing significands with one extra bit gives the rounded quotient of the whole numbers.
proof fn lemma_divide(
    num: nat,
    den: nat,
    am: nat,
    ax: nat,
    bm: nat,
    bx: nat,
    f: nat,
    rest: nat,
)
    requires
        den >= 1,
        num == am * two(ax),
        den * two(1074) == bm * two(bx),
        bm >= 1,
        rest < bm,
        am * two(70) == bm * f + rest,
        f >= 4 * LIMIT,
        ax + 1074 >= bx + 71,
    ensures
        nearest(
            (2 * f + (if rest > 0 {
                1nat
            } else {
                0nat
            })) as nat * two((ax + 1074 - bx - 71) as nat),
        ) == nearest_quotient(num, den),
{
    let x = (ax + 1074 - bx - 71) as nat;
    let unit = two(1074);
    let s = (2 * f + (if rest > 0 {
        1nat
    } else {
        0nat
    })) as nat;
    let n = 2 * (f * bm + rest);
    lemma_two_positive(1074);
    lemma_two_positive(bx);
    lemma_two_positive(x);
    lemma_sticky(f, rest, bm);
    lemma_nearest_scales(s, x);
    assert(n / bm >= LIMIT) by {
        assert(n == (2 * f) * bm + 2 * rest) by (nonlinear_arith)
            requires
                n == 2 * (f * bm + rest),
        ;
        vstd::arithmetic::div_mod::lemma_fundamental_div_mod(n as int, bm as int);
        vstd::arithmetic::div_mod::lemma_mod_bound(n as int, bm as int);
        let g = n / bm;
        assert(g >= LIMIT) by (nonlinear_arith)
            requires
                n == bm * g + n % bm,
                n % bm < bm,
                n >= (2 * f) * bm,
                f >= 4 * LIMIT,
                bm >= 1,
        ;
    }
    lemma_quotient_scales(n, bm, x);
    lemma_quotient_cancels(n * two(x), bm, two(bx));
    lemma_quotient_cancels(num, den, unit);
    // Both pairs of terms are the same.
    lemma_two_adds(ax, 1074);
    lemma_two_adds(x, bx);
    lemma_two_adds(71, (x + bx) as nat);
    assert(two(71) == 2 * two(70));
    assert(71 + (x + bx) == ax + 1074);
    let w = two((x + bx) as nat);
    assert(num * unit == am * two((ax + 1074) as nat)) by (nonlinear_arith)
        requires
            num == am * two(ax),
            two((ax + 1074) as nat) == two(ax) * unit,
    ;
    assert(n == 2 * (am * two(70))) by (nonlinear_arith)
        requires
            n == 2 * (f * bm + rest),
            am * two(70) == bm * f + rest,
    ;
    assert((n * two(x)) * two(bx) == n * w) by (nonlinear_arith)
        requires
            w == two(x) * two(bx),
    ;
    assert(n * w == am * (two(71) * w)) by (nonlinear_arith)
        requires
            n == 2 * (am * two(70)),
            two(71) == 2 * two(70),
    ;
}

/// `significand * 2^shift`, held to at most `max`.
fn shifted(significand: u64, shift: u32, max: u64) -> (r: u64)
    requires
        HIDDEN <= significand < LIMIT,
        shift <= 2045,
    ensures
        r == if significand * two(shift as nat) > max {
            max as int
        } else {
            significand * two(shift as nat)
        },
{
    if shift > 20 {
        proof {
            lemma_two_monotone(20, shift as nat);
            assert(two(20) == 0x10_0000) by {
                reveal_with_fuel(two, 21);
            }
            assert(significand * two(shift as nat) >= 0x10_0000_0000_0000 * 0x10_0000)
                by (nonlinear_arith)
                requires
                    significand >= 0x10_0000_0000_0000,
                    two(shift as nat) >= 0x10_0000,
            ;
        }
        max
    } else {
        let p: u128 = power(shift);
        proof {
            lemma_two_monotone(shift as nat, 70);
            lemma_two_of_shifts();
            assert(significand * p < 0x20_0000_0000_0000 * 0x80_0000_0000_0000_0000)
                by (nonlinear_arith)
                requires
                    significand < 0x20_0000_0000_0000,
                    0 <= p <= 0x40_0000_0000_0000_0000,
            ;
        }
        let v: u128 = significand as u128 * p;
        if v > max as u128 {
            max
        } else {
            v as u64
        }
    }
}

impl Double {
    /// Whether this is not a number.
    pub fn is_nan(&self) -> (r: bool)
        ensures
            r == (self@ == Real::NotANumber),
    {
        let m: u64 = if self.bits < SIGN {
            self.bits
        } else {
            self.bits - SIGN
        };
        m > INFINITY
    }

    /// An integer that orders numbers: the bit pattern without sign, negated for a negative one.
    fn rank(&self) -> (r: i64)
        ensures
            self.bits < SIGN ==> r == unsigned_bits(self.bits),
            self.bits >= SIGN ==> r == -unsigned_bits(self.bits),
    {
        if self.bits < SIGN {
            self.bits as i64
        } else {
            -((self.bits - SIGN) as i64)
        }
    }

    /// The significand and exponent of a finite number's magnitude.
    fn decode(&self) -> (r: (u64, u32))
        requires
            self@ is Finite,
        ensures
            r.0 < LIMIT,
            r.1 <= 2045,
            r.1 > 0 ==> r.0 >= HIDDEN,
            magnitude(unsigned_bits(self.bits)) == r.0 * two(r.1 as nat),
    {
        let m: u64 = if self.bits < SIGN {
            self.bits
        } else {
            self.bits - SIGN
        };
        if m < HIDDEN {
            assert(m * two(0) == m) by (nonlinear_arith)
                requires
                    two(0) == 1,
            ;
            (m, 0)
        } else {
            let field: u64 = m / HIDDEN;
            assert(1 <= field <= 2046);
            (HIDDEN + m % HIDDEN, (field - 1) as u32)
        }
    }

    /// The double nearest to the whole number `n`.
    pub fn from_whole(n: u64) -> (r: Double)
        ensures
            r@ == whole(n as nat),
    {
        proof {
            lemma_two_positive(1074);
            assert(n as nat * two(1074) >= 0) by (nonlinear_arith);
        }
        pack(false, n as u128, 1074)
    }

    /// `n / d`, with both whole numbers taken as the doubles nearest to them.
    pub fn divide(n: u64, d: u64) -> (r: Double)
        requires
            d > 0,
        ensures
            r@ == ratio(n as nat, d as nat),
    {
        proof {
            lemma_whole(n);
            lemma_whole(d);
            lemma_two_positive(1074);
        }
        let ghost unit = two(1074);
        let ghost den = nearest(d as nat);
        let ghost num = nearest(n as nat) * unit;
        if n == 0 {
            proof {
                vstd::arithmetic::div_mod::lemma_fundamental_div_mod_converse(0, 1, 0, 0);
                assert(nearest(0) == 0);
                assert(num == 0) by (nonlinear_arith)
                    requires
                        num == 0 * unit,
                ;
                vstd::arithmetic::div_mod::lemma_fundamental_div_mod_converse(
                    0,
                    den as int,
                    0,
                    0,
                );
                assert(excess(0) == 0);
                assert(two(0) == 1);
                assert(den * two(0) == den) by (nonlinear_arith)
                    requires
                        two(0) == 1,
                ;
                assert(nearest_quotient(0, den) == 0);
            }
            return Double { bits: 0 };
        }
        let a = Double::from_whole(n);
        let b = Double::from_whole(d);
        let (am, ax) = a.decode();
        let (bm, bx) = b.decode();
        proof {
            lemma_units_exponent(nearest(n as nat), am as nat, ax as nat);
            lemma_units_exponent(den, bm as nat, bx as nat);
        }
        let p: u128 = power(70);
        proof {
            lemma_two_of_shifts();
        }
        assert(am * p < 0x20_0000_0000_0000 * 0x40_0000_0000_0000_0000) by (nonlinear_arith)
            requires
                am < 0x20_0000_0000_0000,
                p == 0x40_0000_0000_0000_0000,
        ;
        let dividend: u128 = am as u128 * p;
        let f: u128 = dividend / (bm as u128);
        let rest: u128 = dividend % (bm as u128);
        let x: u32 = ax + 1074 - bx - 71;
        let bit: u128 = if rest > 0 {
            1
        } else {
            0
        };
        proof {
            vstd::arithmetic::div_mod::lemma_fundamental_div_mod(dividend as int, bm as int);
            assert(f < 0x80_0000_0000_0000_0000_0000) by (nonlinear_arith)
                requires
                    dividend < 0x20_0000_0000_0000 * 0x40_0000_0000_0000_0000,
                    dividend == bm * f + rest,
                    rest >= 0,
                    bm >= 0x10_0000_0000_0000,
            ;
            assert(f >= 4 * LIMIT) by (nonlinear_arith)
                requires
                    dividend >= 0x10_0000_0000_0000 * 0x40_0000_0000_0000_0000,
                    dividend == bm * f + rest,
                    rest < bm,
                    bm < 0x20_0000_0000_0000,
                    LIMIT == 0x20_0000_0000_0000u64,
            ;
            lemma_divide(num, den, am as nat, ax as nat, bm as nat, bx as nat, f as nat, rest as nat);
            lemma_nearest_bounds((2 * f + bit) as nat * two(x as nat));
            lemma_two_positive(x as nat);
            lemma_two_127();
            lemma_two_adds(127, x as nat);
            lemma_two_monotone((128 + x) as nat, 2098);
            assert((2 * f + bit) * two(x as nat) < two(127) * two(x as nat)) by (nonlinear_arith)
                requires
                    2 * f + bit < two(127),
                    two(x as nat) >= 1,
            ;
        }
        pack(false, 2 * f + bit, x)
    }

    /// This number times the whole number `k`.
    pub fn times(&self, k: u32) -> (r: Double)
        ensures
            r@ == multiple(self@, k as nat),
    {
        if self.is_nan() {
            return Double { bits: NAN };
        }
        if self.bits == INFINITY || self.bits == SIGN + INFINITY {
            if k == 0 {
                return Double { bits: NAN };
            }
            return *self;
        }
        let (m, x) = self.decode();
        let negative: bool = self.bits >= SIGN;
        assert(m * k < 0x20_0000_0000_0000 * 0x1_0000_0000) by (nonlinear_arith)
            requires
                m < 0x20_0000_0000_0000,
                k < 0x1_0000_0000,
        ;
        let ghost s = two(x as nat);
        proof {
            lemma_two_positive(x as nat);
            let a = (m * s) as int;
            assert((m * k) * s == a * k) by (nonlinear_arith)
                requires
                    a == m * s,
            ;
            assert((-a) * k == -(a * k)) by (nonlinear_arith);
            assert(a * k >= 0) by (nonlinear_arith)
                requires
                    a == m * s,
            ;
            if a * k == 0 {
                vstd::arithmetic::div_mod::lemma_fundamental_div_mod_converse(0, 1, 0, 0);
                assert(nearest(0) == 0);
                lemma_signed_zero();
            }
        }
        pack(negative, m as u128 * k as u128, x)
    }

    /// This number rounded to a whole number, halves up, held within 0 and `max`.
    pub fn round_within(&self, max: u64) -> (r: u64)
        ensures
            r == rounded_whole(self@, max as nat),
    {
        if self.is_nan() || self.bits >= SIGN {
            proof {
                lemma_two_positive(1074);
            }
            return 0;
        }
        if self.bits == INFINITY {
            return max;
        }
        let (m, x) = self.decode();
        let ghost u = m * two(x as nat);
        let ghost unit = two(1074);
        proof {
            lemma_two_positive(1073);
            assert(unit == 2 * two(1073));
        }
        if m == 0 {
            assert(u == 0) by (nonlinear_arith)
                requires
                    u == m * two(x as nat),
                    m == 0,
            ;
            return 0;
        }
        proof {
            lemma_two_positive(x as nat);
            assert(u >= 1) by (nonlinear_arith)
                requires
                    u == m * two(x as nat),
                    m >= 1,
                    two(x as nat) >= 1,
            ;
        }
        if x >= 1074 {
            let ghost v = m * two((x - 1074) as nat);
            proof {
                lemma_two_adds((x - 1074) as nat, 1074);
                assert(u == v * unit) by (nonlinear_arith)
                    requires
                        u == m * two(x as nat),
                        two(x as nat) == two((x - 1074) as nat) * unit,
                        v == m * two((x - 1074) as nat),
                ;
                vstd::arithmetic::div_mod::lemma_fundamental_div_mod_converse(
                    (u + two(1073)) as int,
                    unit as int,
                    v as int,
                    two(1073) as int,
                );
            }
            shifted(m, x - 1074, max)
        } else {
            let s: u32 = 1074 - x;
            let ghost c = two(x as nat);
            proof {
                lemma_two_adds(s as nat, x as nat);
                lemma_two_adds((s - 1) as nat, x as nat);
                assert(two(s as nat) == 2 * two((s - 1) as nat));
                assert(u + two(1073) == (m + two((s - 1) as nat)) * c) by (nonlinear_arith)
                    requires
                        u == m * c,
                        two(1073) == two((s - 1) as nat) * c,
                ;
                lemma_two_positive((s - 1) as nat);
                lemma_half_even_scales((m + two((s - 1) as nat)) as nat, two(s as nat), c);
            }
            if s >= 54 {
                proof {
                    lemma_two_monotone(53, (s - 1) as nat);
                    lemma_two_of_significands();
                    vstd::arithmetic::div_mod::lemma_fundamental_div_mod_converse(
                        m + two((s - 1) as nat),
                        two(s as nat) as int,
                        0,
                        m + two((s - 1) as nat),
                    );
                }
                0
            } else {
                let half: u128 = power(s - 1);
                proof {
                    lemma_two_monotone((s - 1) as nat, 53);
                    lemma_two_of_significands();
                }
                let v: u128 = (m as u128 + half) / (2 * half);
                if v > max as u128 {
                    max
                } else {
                    v as u64
                }
            }
        }
    }

    /// This number without its fraction, held within 0 and `max`.
    pub fn truncate_within(&self, max: u64) -> (r: u64)
        ensures
            r == truncated_whole(self@, max as nat),
    {
        if self.is_nan() || self.bits >= SIGN {
            proof {
                lemma_two_positive(1074);
            }
            return 0;
        }
        if self.bits == INFINITY {
            return max;
        }
        let (m, x) = self.decode();
        let ghost u = m * two(x as nat);
        let ghost unit = two(1074);
        proof {
            lemma_two_positive(1074);
        }
        if m == 0 {
            assert(u == 0) by (nonlinear_arith)
                requires
                    u == m * two(x as nat),
                    m == 0,
            ;
            return 0;
        }
        proof {
            lemma_two_positive(x as nat);
            assert(u >= 1) by (nonlinear_arith)
                requires
                    u == m * two(x as nat),
                    m >= 1,
                    two(x as nat) >= 1,
            ;
        }
        if x >= 1074 {
            let ghost v = m * two((x - 1074) as nat);
            proof {
                lemma_two_adds((x - 1074) as nat, 1074);
                assert(u == v * unit) by (nonlinear_arith)
                    requires
                        u == m * two(x as nat),
                        two(x as nat) == two((x - 1074) as nat) * unit,
                        v == m * two((x - 1074) as nat),
                ;
                vstd::arithmetic::div_mod::lemma_fundamental_div_mod_converse(
                    u as int,
                    unit as int,
                    v as int,
                    0,
                );
            }
            shifted(m, x - 1074, max)
        } else {
            let s: u32 = 1074 - x;
            let ghost c = two(x as nat);
            proof {
                lemma_two_adds(s as nat, x as nat);
                lemma_two_positive(s as nat);
                lemma_half_even_scales(m as nat, two(s as nat), c);
            }
            if s >= 54 {
                proof {
                    lemma_two_monotone(53, s as nat);
                    lemma_two_of_significands();
                    vstd::arithmetic::div_mod::lemma_fundamental_div_mod_converse(
                        m as int,
                        two(s as nat) as int,
                        0,
                        m as int,
                    );
                }
                0
            } else {
                let v: u128 = m as u128 / power(s);
                if v > max as u128 {
                    max
                } else {
                    v as u64
                }
            }
        }
    }

    /// The larger of this number and `other`.
    pub fn max(&self, other: &Double) -> (r: Double)
        ensures
            r@ == larger(self@, other@),
    {
        if self.is_nan() || self.lt(other) {
            *other
        } else {
            *self
        }
    }

    /// The smaller of this number and `other`.
    pub fn min(&self, other: &Double) -> (r: Double)
        ensures
            r@ == smaller(self@, other@),
    {
        if self.is_nan() || other.lt(self) {
            *other
        } else {
            *self
        }
    }

    /// This number plus `other`.
    pub fn plus(&self, other: &Double) -> (r: Double)
        ensures
            r@ == sum(self@, other@),
    {
        if self.is_nan() || other.is_nan() {
            return Double { bits: NAN };
        }
        let an: bool = self.bits >= SIGN;
        let bn: bool = other.bits >= SIGN;
        let a_infinite: bool = self.bits == INFINITY || self.bits == SIGN + INFINITY;
        let b_infinite: bool = other.bits == INFINITY || other.bits == SIGN + INFINITY;
        if a_infinite {
            if b_infinite && an != bn {
                return Double { bits: NAN };
            }
            return *self;
        }
        if b_infinite {
            return *other;
        }
        let (am, ax) = self.decode();
        let (bm, bx) = other.decode();
        if ax >= bx {
            add_ordered(an, am, ax, bn, bm, bx)
        } else {
            add_ordered(bn, bm, bx, an, am, ax)
        }
    }

    /// This number with the other sign.
    pub fn negate(&self) -> (r: Double)
        ensures
            r@ == negated(self@),
    {
        if self.bits < SIGN {
            Double { bits: self.bits + SIGN }
        } else {
            Double { bits: self.bits - SIGN }
        }
    }

    /// This number minus `other`.
    pub fn minus(&self, other: &Double) -> (r: Double)
        ensures
            r@ == difference(self@, other@),
    {
        self.plus(&other.negate())
    }

    /// Whether this number is less than `other`.
    pub fn lt(&self, other: &Double) -> (r: bool)
        ensures
            r == less(self@, other@),
    {
        if self.is_nan() || other.is_nan() {
            return false;
        }
        let a: i64 = self.rank();
        let b: i64 = other.rank();
        proof {
            let m = unsigned_bits(self.bits);
            let n = unsigned_bits(other.bits);
            if m < n {
                lemma_magnitude_increases(m, n);
            }
            if n < m {
                lemma_magnitude_increases(n, m);
            }
            if 0 < m {
                lemma_magnitude_increases(0, m);
            }
            if 0 < n {
                lemma_magnitude_increases(0, n);
            }
        }
        a < b
    }

    /// Whether this number is less than or equal to `other`.
    pub fn le(&self, other: &Double) -> (r: bool)
        ensures
            r == at_most(self@, other@),
    {
        !self.is_nan() && !other.is_nan() && !other.lt(self)
    }
}

/// Of two numbers one is less than the other or they are the same, a number less than another that
/// is less than a third is less than that, infinities lie beyond all finite numbers, and what is
/// no number is neither less than anything nor greater.
pub proof fn numbers_are_ordered(a: Real, b: Real, c: Real, x: int, y: int)
    ensures
        !less(a, a),
        less(a, b) ==> !less(b, a),
        less(a, b) && less(b, c) ==> less(a, c),
        a != Real::NotANumber && b != Real::NotANumber ==> a == b || less(a, b) || less(b, a),
        less(a, b) ==> a != Real::NotANumber && b != Real::NotANumber,
        less(Real::Finite { units: x }, Real::Finite { units: y }) <==> x < y,
        less(Real::Infinite { negative: true }, Real::Finite { units: x }),
        less(Real::Finite { units: x }, Real::Infinite { negative: false }),
        at_most(a, b) <==> a != Real::NotANumber && b != Real::NotANumber && !less(b, a),
{
}

/// The larger and the smaller of two numbers are those two, neither is on the wrong side of the
/// other, and one that is no number gives way.
pub proof fn larger_and_smaller_are_the_two(a: Real, b: Real)
    ensures
        larger(a, b) == a || larger(a, b) == b,
        smaller(a, b) == a || smaller(a, b) == b,
        !less(larger(a, b), a) && !less(larger(a, b), b),
        !less(a, smaller(a, b)) && !less(b, smaller(a, b)),
        a == Real::NotANumber ==> larger(a, b) == b && smaller(a, b) == b,
        b == Real::NotANumber ==> larger(a, b) == a && smaller(a, b) == a,
        larger(a, b) == larger(b, a) && smaller(a, b) == smaller(b, a),
{
}

/// Turning the sign twice gives the number back, and turns the order of numbers around.
pub proof fn signs_turn_the_order(a: Real, b: Real)
    ensures
        negated(negated(a)) == a,
        less(negated(a), negated(b)) <==> less(b, a),
        negated(zero()) == zero(),
{
}

/// Sums do not depend on the order of the two numbers. An infinity swallows finite numbers, two
/// opposite ones give no number, and so does what is no number.
pub proof fn sums_are_the_same_both_ways(a: Real, b: Real, negative: bool)
    ensures
        sum(a, b) == sum(b, a),
        a == Real::NotANumber ==> sum(a, b) == Real::NotANumber,
        a == (Real::Infinite { negative }) && b is Finite ==> sum(a, b) == a,
        a == (Real::Infinite { negative }) && b == a ==> sum(a, b) == a,
        a == (Real::Infinite { negative }) && b == (Real::Infinite { negative: !negative }) ==> sum(
            a,
            b,
        ) == Real::NotANumber,
        difference(a, b) == sum(a, negated(b)),
{
}

/// Sums and differences are exact as long as 53 bits suffice for the result.
#[verifier::spinoff_prover]
pub proof fn sums_within_53_bits_are_exact(m: int, n: int, e: nat)
    requires
        e <= 2045,
        -LIMIT < m + n < LIMIT,
    ensures
        sum(
            Real::Finite { units: m * two(e) },
            Real::Finite { units: n * two(e) },
        ) == (Real::Finite { units: (m + n) * two(e) }),
        difference(
            Real::Finite { units: m * two(e) },
            Real::Finite { units: -(n * two(e)) },
        ) == (Real::Finite { units: (m + n) * two(e) }),
{
    let s = two(e);
    let t = m + n;
    assert(m * s + n * s == t * s) by (nonlinear_arith)
        requires
            t == m + n,
    ;
    lemma_exact(if t < 0 {
        (-t) as nat
    } else {
        t as nat
    }, e);
    lemma_two_positive(e);
    assert(t < 0 ==> t * s < 0) by (nonlinear_arith)
        requires
            s >= 1,
    ;
    assert(t >= 0 ==> t * s >= 0) by (nonlinear_arith)
        requires
            s >= 1,
    ;
    assert((-t) * s == -(t * s)) by (nonlinear_arith);
}

/// Numbers of at most 53 bits are doubles.
#[verifier::spinoff_prover]
proof fn lemma_exact(m: nat, e: nat)
    requires
        m < LIMIT,
        e <= 2045,
    ensures
        nearest(m * two(e)) == m * two(e),
        m * two(e) < two(2098),
{
    lemma_nearest_scales(m, e);
    rounding_goes_to_the_nearest(m);
    lemma_two_of_significands();
    lemma_two_adds(53, 2045);
    lemma_two_monotone(e, 2045);
    lemma_two_positive(e);
    let s = two(e);
    let b = two(2045);
    assert(m * s < LIMIT * b) by (nonlinear_arith)
        requires
            m < LIMIT,
            1 <= s <= b,
    ;
}

/// Rounding leaves numbers of at most 53 bits alone and moves any other by half a place at most,
/// to a multiple of that place.
#[verifier::spinoff_prover]
pub proof fn rounding_goes_to_the_nearest(n: nat)
    ensures
        n < LIMIT ==> nearest(n) == n,
        2 * nearest(n) <= 2 * n + two(excess(n)),
        2 * n <= 2 * nearest(n) + two(excess(n)),
        nearest(n) % two(excess(n)) == 0,
        n < LIMIT * two(excess(n)),
        excess(n) > 0 ==> HIDDEN * two(excess(n)) <= n,
{
    let x = excess(n);
    let p = two(x);
    lemma_two_positive(x);
    lemma_excess_bounds(n);
    let q = n / p;
    let r = n % p;
    vstd::arithmetic::div_mod::lemma_fundamental_div_mod(n as int, p as int);
    vstd::arithmetic::div_mod::lemma_mod_bound(n as int, p as int);
    let h = half_even(q, r, p);
    if n < LIMIT {
        assert(two(0) == 1);
        vstd::arithmetic::div_mod::lemma_fundamental_div_mod_converse(n as int, 1, n as int, 0);
    }
    assert((q + 1) * p == p * q + p) by (nonlinear_arith);
    assert(q * p == p * q) by (nonlinear_arith);
    vstd::arithmetic::div_mod::lemma_mod_multiples_basic(h as int, p as int);
}

/// A whole number below 2^53 is a double as it is; its multiples are those of whole numbers, and a
/// quotient that is whole is that whole number.
#[verifier::spinoff_prover]
pub proof fn whole_numbers_are_exact(n: nat, k: nat)
    requires
        n * k < LIMIT,
        n < LIMIT,
    ensures
        whole(n) == (Real::Finite { units: (n * two(1074)) as int }),
        multiple(whole(n), k) == whole(n * k),
        0 < k < LIMIT ==> ratio(n * k, k) == whole(n),
        rounded_whole(whole(n), u64::MAX as nat) == n,
        truncated_whole(whole(n), u64::MAX as nat) == n,
{
    let u = two(1074);
    lemma_two_positive(1074);
    lemma_exact(n, 1074);
    lemma_exact(n * k, 1074);
    lemma_exact(n * k, 0);
    assert(n as int * u >= 0) by (nonlinear_arith);
    assert((n * k) as int * u >= 0) by (nonlinear_arith);
    assert((n * u) * k == (n * k) * u) by (nonlinear_arith);
    lemma_two_adds(1, 1073);
    assert(two(1) == 2 * two(0) && two(0) == 1);
    assert(u == 2 * two(1073));
    lemma_two_positive(1073);
    assert(n * u == u * n) by (nonlinear_arith);
    vstd::arithmetic::div_mod::lemma_fundamental_div_mod_converse(
        (n * u) as int,
        u as int,
        n as int,
        0,
    );
    vstd::arithmetic::div_mod::lemma_fundamental_div_mod_converse(
        (n * u + two(1073)) as int,
        u as int,
        n as int,
        two(1073) as int,
    );
    if n == 0 {
        assert(n * u == 0) by (nonlinear_arith)
            requires
                n == 0,
        ;
    } else {
        assert(n * u > 0) by (nonlinear_arith)
            requires
                n > 0,
                u >= 1,
        ;
    }
    if 0 < k < LIMIT {
        assert(two(0) == 1);
        vstd::arithmetic::div_mod::lemma_fundamental_div_mod_converse(k as int, 1, k as int, 0);
        vstd::arithmetic::div_mod::lemma_fundamental_div_mod_converse(
            (n * k) as int,
            1,
            (n * k) as int,
            0,
        );
        assert(nearest(k) == k);
        assert(nearest(n * k) == n * k);
        let v = n * u;
        assert((n * k) * u == v * k) by (nonlinear_arith)
            requires
                v == n * u,
        ;
        lemma_exact_quotient(v, k);
    }
}

/// A quotient without a remainder is rounded as it is.
#[verifier::spinoff_prover]
proof fn lemma_exact_quotient(v: nat, d: nat)
    requires
        d > 0,
    ensures
        nearest_quotient(v * d, d) == nearest(v),
{
    vstd::arithmetic::div_mod::lemma_div_by_multiple(v as int, d as int);
    let x = excess(v);
    let t = two(x);
    lemma_two_positive(x);
    let p = d * t;
    let q = v / t;
    let r = v % t;
    vstd::arithmetic::div_mod::lemma_fundamental_div_mod(v as int, t as int);
    vstd::arithmetic::div_mod::lemma_mod_bound(v as int, t as int);
    assert(v * d == p * q + r * d) by (nonlinear_arith)
        requires
            v == t * q + r,
            p == d * t,
    ;
    assert(0 <= r * d < p) by (nonlinear_arith)
        requires
            0 <= r < t,
            d > 0,
            p == d * t,
    ;
    assert(p > 0) by (nonlinear_arith)
        requires
            d > 0,
            t > 0,
            p == d * t,
    ;
    assert(p * q == q * p) by (nonlinear_arith);
    vstd::arithmetic::div_mod::lemma_fundamental_div_mod_converse(
        (v * d) as int,
        p as int,
        q as int,
        (r * d) as int,
    );
    assert(2 * (r * d) > p <==> 2 * r > t) by (nonlinear_arith)
        requires
            d > 0,
            p == d * t,
    ;
    assert(2 * (r * d) == p <==> 2 * r == t) by (nonlinear_arith)
        requires
            d > 0,
            p == d * t,
    ;
}

/// A quotient is rounded by half a place at most.
#[verifier::spinoff_prover]
pub proof fn quotients_go_to_the_nearest(n: nat, d: nat)
    requires
        d > 0,
    ensures
        ({
            let q = nearest_quotient(n, d);
            let place = two(excess(n / d));
            &&& 2 * (q * d) <= 2 * n + d * place
            &&& 2 * n <= 2 * (q * d) + d * place
            &&& q % place == 0
        }),
{
    let x = excess(n / d);
    let t = two(x);
    lemma_two_positive(x);
    let p = d * t;
    assert(p > 0) by (nonlinear_arith)
        requires
            p == d * t,
            d > 0,
            t > 0,
    ;
    let q = n / p;
    let r = n % p;
    vstd::arithmetic::div_mod::lemma_fundamental_div_mod(n as int, p as int);
    vstd::arithmetic::div_mod::lemma_mod_bound(n as int, p as int);
    let h = half_even(q, r, p);
    assert((h * t) * d == h * p) by (nonlinear_arith)
        requires
            p == d * t,
    ;
    assert((q + 1) * p == p * q + p) by (nonlinear_arith);
    assert(q * p == p * q) by (nonlinear_arith);
    vstd::arithmetic::div_mod::lemma_mod_multiples_basic(h as int, t as int);
}

/// Rounding to a whole number goes to the nearest one, halves up, and truncating to the one at or
/// below, both within the bounds; what is not above zero gives zero.
#[verifier::spinoff_prover]
pub proof fn whole_parts_are_near(units: int, max: nat)
    ensures
        ({
            let a = Real::Finite { units };
            let r = rounded_whole(a, max);
            let t = truncated_whole(a, max);
            &&& r <= max && t <= max
            &&& units <= 0 ==> r == 0 && t == 0
            &&& units > 0 && r < max ==> 2 * (r * two(1074)) <= 2 * units + two(1074) && 2 * units
                + two(1074) < 2 * ((r + 1) * two(1074))
            &&& units > 0 && t < max ==> t * two(1074) <= units < (t + 1) * two(1074)
            &&& units > 0 && r == max ==> 2 * (r * two(1074)) <= 2 * units + two(1074)
            &&& units > 0 && t == max ==> t * two(1074) <= units
        }),
        rounded_whole(Real::NotANumber, max) == 0,
        truncated_whole(Real::NotANumber, max) == 0,
        rounded_whole(Real::Infinite { negative: false }, max) == max,
        truncated_whole(Real::Infinite { negative: false }, max) == max,
        rounded_whole(Real::Infinite { negative: true }, max) == 0,
        truncated_whole(Real::Infinite { negative: true }, max) == 0,
{
    let u = two(1074);
    lemma_two_positive(1074);
    lemma_two_adds(1, 1073);
    assert(two(1) == 2 * two(0) && two(0) == 1);
    assert(u == 2 * two(1073));
    if units > 0 {
        let q = (units as nat + two(1073)) / u;
        let v = units as nat / u;
        vstd::arithmetic::div_mod::lemma_fundamental_div_mod(
            (units as nat + two(1073)) as int,
            u as int,
        );
        vstd::arithmetic::div_mod::lemma_mod_bound((units as nat + two(1073)) as int, u as int);
        vstd::arithmetic::div_mod::lemma_fundamental_div_mod(units, u as int);
        vstd::arithmetic::div_mod::lemma_mod_bound(units, u as int);
        assert(q * u == u * q && (q + 1) * u == u * q + u) by (nonlinear_arith);
        assert(v * u == u * v && (v + 1) * u == u * v + u) by (nonlinear_arith);
        if q > max {
            assert(max * u <= u * q) by (nonlinear_arith)
                requires
                    max <= q,
            ;
        }
        if v > max {
            assert(max * u <= u * v) by (nonlinear_arith)
                requires
                    max <= v,
            ;
        }
    }
}

/// Zero stays zero whatever it is multiplied by, as a whole number too.
#[verifier::spinoff_prover]
pub proof fn multiples_of_zero(k: nat)
    ensures
        multiple(zero(), k) == zero(),
{
    lemma_signed_zero();
    rounding_goes_to_the_nearest(0);
    assert(0 * k == 0) by (nonlinear_arith);
}

/// A product is rounded from the exact one; infinities stay what they are.
#[verifier::spinoff_prover]
pub proof fn products_are_rounded(a: Real, k: nat, units: int, negative: bool)
    requires
        k > 0,
    ensures
        a == (Real::Finite { units }) ==> multiple(a, k) == sum(
            Real::Finite { units: units * (k - 1) },
            a,
        ),
        a == (Real::Infinite { negative }) ==> multiple(a, k) == a,
        a == Real::NotANumber ==> multiple(a, k) == a,
        multiple(Real::Infinite { negative }, 0) == Real::NotANumber,
{
    assert(units * (k - 1) + units == units * k) by (nonlinear_arith);
}

/// Turning the sign bit of a double turns its sign; patterns count up with the numbers that they
/// stand for, from zero to infinity, and those beyond stand for no number.
#[verifier::spinoff_prover]
pub proof fn patterns_count_up(d: Double, e: Double)
    ensures
        d.bits < 0x8000_0000_0000_0000 ==> (Double {
            bits: (d.bits + 0x8000_0000_0000_0000) as u64,
        })@ == negated(d@),
        d.bits < e.bits <= 0x7ff0_0000_0000_0000 ==> less(d@, e@),
        (Double { bits: 0 })@ == zero(),
        (Double { bits: 1 })@ == (Real::Finite { units: 1 }),
        (Double { bits: 0x7ff0_0000_0000_0000 })@ == (Real::Infinite { negative: false }),
        0x7ff0_0000_0000_0000 < d.bits < 0x8000_0000_0000_0000 ==> d@ == Real::NotANumber,
{
    if d.bits < e.bits && e.bits < INFINITY {
        lemma_magnitude_increases(d.bits as int, e.bits as int);
    }
}

/// A number half way between two that 53 bits can hold is rounded to the even one.
#[verifier::spinoff_prover]
pub proof fn ties_go_to_the_even_one(n: nat)
    requires
        2 * (n % two(excess(n))) == two(excess(n)),
    ensures
        (nearest(n) / two(excess(n))) % 2 == 0,
{
    let p = two(excess(n));
    lemma_two_positive(excess(n));
    let q = n / p;
    let h = half_even(q, n % p, p);
    vstd::arithmetic::div_mod::lemma_div_by_multiple(h as int, p as int);
    assert(h % 2 == 0);
}

/// Whole numbers are added, subtracted and compared as whole numbers are, as long as they stay
/// below 2^53.
#[verifier::spinoff_prover]
pub proof fn whole_numbers_add_up(m: nat, n: nat)
    requires
        m + n < LIMIT,
    ensures
        sum(whole(m), whole(n)) == whole(m + n),
        difference(whole(m + n), whole(m)) == whole(n),
        less(whole(m), whole(m + n)) <==> n > 0,
        whole(0) == zero(),
{
    let u = two(1074);
    lemma_two_positive(1074);
    whole_numbers_are_exact(m, 1);
    whole_numbers_are_exact(n, 1);
    whole_numbers_are_exact(m + n, 1);
    whole_numbers_are_exact(0, 1);
    sums_within_53_bits_are_exact(m as int, n as int, 1074);
    sums_within_53_bits_are_exact((m + n) as int, -(m as int), 1074);
    assert((m + n) * u == m * u + n * u) by (nonlinear_arith);
    assert(-(m as int) * u == -(m * u)) by (nonlinear_arith);
    assert((m + n - m) * u == n * u) by (nonlinear_arith);
    assert(n > 0 ==> n * u > 0) by (nonlinear_arith)
        requires
            u >= 1,
    ;
    assert(0 * u == 0) by (nonlinear_arith);
}

} // verus!
