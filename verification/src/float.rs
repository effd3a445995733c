//! IEEE 754 single precision on bit patterns.
//!
//! Costs, distances and quantization scales are single precision numbers. A
//! [`Float32`] holds one as its 32 bits, and the operations here are the
//! correctly rounded ones (round to nearest, ties to even), so a result has
//! the same bits as the machine's own arithmetic. The only freedom IEEE 754
//! leaves is the payload of a NaN: an operation whose result is a NaN returns
//! the quiet NaN [`Float32::NAN`].
//!
//! A magnitude (the 31 bits below the sign) stands for a whole number of
//! units, one unit being the smallest positive subnormal, two to the power
//! -149. Magnitudes in increasing order stand for increasing numbers of
//! units, and the pattern of infinity stands for the number that would come
//! next after the largest finite one. Rounding is stated over that.

use vstd::arithmetic::power2::{
    lemma_pow2_adds, lemma_pow2_pos, lemma_pow2_strictly_increases, lemma_pow2_unfold, pow2,
};
use vstd::prelude::*;

verus! {

/// A single precision number, as its bit pattern.
///
/// `==` compares bit patterns: two NaNs of one pattern are equal, and the two
/// zeros differ. The numeric comparison is [`Float32::lt`].
#[derive(Clone, Copy, Debug, PartialEq, Eq, Structural)]
pub struct Float32 {
    pub bits: u32,
}

/// The magnitude of infinity.
pub const INFINITY_MAGNITUDE: u32 = 0x7f80_0000;

/// The bit that holds the sign.
pub const SIGN_BIT: u32 = 0x8000_0000;

/// The number of units that a magnitude stands for.
pub open spec fn units(magnitude: nat) -> nat {
    let exponent = magnitude / 0x80_0000;
    let fraction = magnitude % 0x80_0000;
    if exponent == 0 {
        fraction
    } else {
        (0x80_0000 + fraction) * pow2((exponent - 1) as nat)
    }
}

/// Twice the number halfway between a magnitude and the next one, in units.
pub open spec fn twice_midpoint(magnitude: nat) -> nat {
    units(magnitude) + units(magnitude + 1)
}

/// Whether `magnitude` is the one nearest to `num / den` units, where of two
/// that are equally near the even one counts as nearest.
pub open spec fn nearest(num: nat, den: nat, magnitude: nat) -> bool {
    &&& magnitude <= INFINITY_MAGNITUDE
    &&& magnitude > 0 ==> {
        let low = twice_midpoint((magnitude - 1) as nat) * den;
        2 * num > low || (2 * num == low && magnitude % 2 == 0)
    }
    &&& magnitude < INFINITY_MAGNITUDE ==> {
        let high = twice_midpoint(magnitude) * den;
        2 * num < high || (2 * num == high && magnitude % 2 == 0)
    }
}

/// The magnitude nearest to `num / den` units.
pub open spec fn rounded(num: nat, den: nat) -> nat {
    choose|magnitude: nat| nearest(num, den, magnitude)
}

/// What the magnitude with an exponent and a significand stands for.
pub proof fn lemma_units_at(e: nat, q: nat)
    requires
        e == 0 || 0x80_0000 <= q,
        q <= 0x100_0000,
    ensures
        units(e * 0x80_0000 + q) == q * pow2(e),
{
    let b = (e * 0x80_0000 + q) as nat;
    lemma_pow2_pos(e);
    assert(pow2(0) == 1) by {
        vstd::arithmetic::power2::lemma2_to64();
    }
    if q < 0x80_0000 {
        assert(b / 0x80_0000 == 0);
        assert(q * pow2(e) == q) by (nonlinear_arith)
            requires
                pow2(e) == 1,
        ;
    } else if q < 0x100_0000 {
        assert(b / 0x80_0000 == e + 1);
        assert(b % 0x80_0000 == q - 0x80_0000);
        assert(units(b) == (0x80_0000 + (q - 0x80_0000) as nat) * pow2(e));
    } else {
        assert(b / 0x80_0000 == e + 2);
        assert(b % 0x80_0000 == 0);
        lemma_pow2_unfold((e + 1) as nat);
        assert(0x80_0000 * (2 * pow2(e)) == 0x100_0000 * pow2(e));
    }
}

/// Consecutive magnitudes stand for increasing numbers.
proof fn lemma_units_step(b: nat)
    ensures
        units(b) < units(b + 1),
{
    let e: nat = if b / 0x80_0000 == 0 {
        0
    } else {
        (b / 0x80_0000 - 1) as nat
    };
    let q = (b - e * 0x80_0000) as nat;
    lemma_units_at(e, q);
    lemma_units_at(e, q + 1);
    lemma_pow2_pos(e);
    assert(e * 0x80_0000 + q == b);
    assert(e * 0x80_0000 + (q + 1) == b + 1);
    assert(q * pow2(e) < (q + 1) * pow2(e)) by (nonlinear_arith)
        requires
            pow2(e) > 0,
    ;
}

/// Magnitudes are ordered as the numbers that they stand for.
pub proof fn lemma_units_increase(a: nat, b: nat)
    requires
        a < b,
    ensures
        units(a) < units(b),
    decreases b - a,
{
    lemma_units_step((b - 1) as nat);
    if a < b - 1 {
        lemma_units_increase(a, (b - 1) as nat);
    }
}

/// Rounding has one result: no two magnitudes are both nearest to a number.
pub proof fn lemma_nearest_unique(num: nat, den: nat, a: nat, b: nat)
    requires
        den > 0,
        nearest(num, den, a),
        nearest(num, den, b),
    ensures
        a == b,
{
    lemma_nearest_ordered(num, den, a, b);
    lemma_nearest_ordered(num, den, b, a);
}

proof fn lemma_nearest_ordered(num: nat, den: nat, a: nat, b: nat)
    requires
        den > 0,
        nearest(num, den, a),
        nearest(num, den, b),
    ensures
        a >= b,
{
    if a < b {
        let high = twice_midpoint(a);
        let low = twice_midpoint((b - 1) as nat);
        if a < b - 1 {
            lemma_units_increase(a, (b - 1) as nat);
            lemma_units_increase((a + 1) as nat, b);
            assert(high * den < low * den) by (nonlinear_arith)
                requires
                    high < low,
                    den > 0,
            ;
        }
    }
}

/// The defined result of rounding, where one has been found.
proof fn lemma_rounded_is(num: nat, den: nat, magnitude: nat)
    requires
        den > 0,
        nearest(num, den, magnitude),
    ensures
        rounded(num, den) == magnitude,
{
    lemma_nearest_unique(num, den, rounded(num, den), magnitude);
}

/// Two to the power `n`.
fn power_of_two(n: u32) -> (p: u64)
    requires
        n < 64,
    ensures
        p == pow2(n as nat),
        p > 0,
{
    let mut p: u64 = 1;
    let mut i: u32 = 0;
    proof {
        vstd::arithmetic::power2::lemma2_to64();
    }
    while i < n
        invariant
            i <= n < 64,
            p == pow2(i as nat),
            p > 0,
        decreases n - i,
    {
        proof {
            lemma_pow2_unfold((i + 1) as nat);
            vstd::arithmetic::power2::lemma2_to64_rest();
            if i + 1 < 63 {
                lemma_pow2_strictly_increases((i + 1) as nat, 63);
            }
        }
        p = p * 2;
        i = i + 1;
    }
    p
}

/// The number of binary digits of `m`.
fn bit_length(m: u64) -> (l: u32)
    ensures
        l <= 64,
        m < pow2(l as nat),
        l > 0 ==> pow2((l - 1) as nat) <= m,
{
    let mut r: u64 = m;
    let mut l: u32 = 0;
    proof {
        vstd::arithmetic::power2::lemma2_to64();
    }
    while r > 0
        invariant
            r * pow2(l as nat) <= m < (r + 1) * pow2(l as nat),
            l > 0 ==> pow2((l - 1) as nat) <= m,
            l <= 64,
        decreases r,
    {
        proof {
            let p = pow2(l as nat);
            lemma_pow2_pos(l as nat);
            lemma_pow2_unfold((l + 1) as nat);
            assert(p <= m) by (nonlinear_arith)
                requires
                    r >= 1,
                    r * p <= m,
            ;
            if l == 64 {
                vstd::arithmetic::power2::lemma2_to64();
            }
            let h: int = (r / 2) as int;
            let d: int = (r % 2) as int;
            assert(r == 2 * h + d && 0 <= d <= 1);
            assert(h * (2 * p) <= r * p) by (nonlinear_arith)
                requires
                    r == 2 * h + d,
                    0 <= d,
                    p >= 0,
            ;
            assert((r + 1) * p <= (h + 1) * (2 * p)) by (nonlinear_arith)
                requires
                    r == 2 * h + d,
                    d <= 1,
                    p >= 0,
            ;
        }
        r = r / 2;
        l = l + 1;
    }
    proof {
        assert((r + 1) * pow2(l as nat) == pow2(l as nat)) by (nonlinear_arith)
            requires
                r == 0,
        ;
    }
    l
}

/// The order of a number against the kept bits `q` and the halfway point
/// above them. The number times `t` lies between `m * u` and `(m + 1) * u`,
/// `m` is `q * p + rem`, and a step `w` of the kept bits, times `t`, is
/// `p * u`.
proof fn lemma_kept_bits(num: nat, t: nat, m: nat, u: nat, q: nat, p: nat, rem: nat, w: nat)
    requires
        t > 0,
        u > 0,
        p > 0,
        m == q * p + rem,
        rem < p,
        m * u <= num * t < (m + 1) * u,
        w * t == p * u,
    ensures
        q * w <= num < (q + 1) * w,
        2 * (rem + 1) <= p ==> 2 * num < (2 * q + 1) * w,
        2 * rem > p ==> 2 * num > (2 * q + 1) * w,
        2 * rem == p && num * t == m * u ==> 2 * num == (2 * q + 1) * w,
        2 * rem == p && num * t != m * u ==> 2 * num > (2 * q + 1) * w,
{
    assert((q * w) * t == (q * p) * u) by (nonlinear_arith)
        requires
            w * t == p * u,
    ;
    assert(((q + 1) * w) * t == (q * p + p) * u) by (nonlinear_arith)
        requires
            w * t == p * u,
    ;
    assert(((2 * q + 1) * w) * t == (2 * (q * p) + p) * u) by (nonlinear_arith)
        requires
            w * t == p * u,
    ;
    assert((2 * num) * t == 2 * (num * t)) by (nonlinear_arith);
    let qp: nat = q * p;
    assert(qp * u <= m * u) by (nonlinear_arith)
        requires
            qp <= m,
    ;
    assert((m + 1) * u <= (qp + p) * u) by (nonlinear_arith)
        requires
            m + 1 <= qp + p,
    ;
    lemma_cancel(q * w, num, t);
    lemma_cancel((q + 1) * w, num, t);
    lemma_cancel((2 * q + 1) * w, 2 * num, t);
    if 2 * (rem + 1) <= p {
        assert(2 * ((m + 1) * u) <= (2 * qp + p) * u) by (nonlinear_arith)
            requires
                2 * (m + 1) <= 2 * qp + p,
        ;
    }
    if 2 * rem > p {
        assert(2 * (m * u) > (2 * qp + p) * u) by (nonlinear_arith)
            requires
                2 * m > 2 * qp + p,
                u > 0,
        ;
    }
    if 2 * rem == p {
        assert(2 * (m * u) == (2 * qp + p) * u) by (nonlinear_arith)
            requires
                2 * m == 2 * qp + p,
        ;
    }
}

proof fn lemma_cancel(a: nat, b: nat, t: nat)
    by (nonlinear_arith)
    requires
        t > 0,
    ensures
        a <= b <==> a * t <= b * t,
        a < b <==> a * t < b * t,
        b < a <==> b * t < a * t,
{
}

/// Rounding from the kept bits `q`, which count steps of two to the power
/// `e` units, up or down as the halfway point says.
proof fn lemma_round_step(num: nat, den: nat, e: nat, q: nat, up: bool)
    requires
        den > 0,
        e <= 253,
        e == 0 || 0x80_0000 <= q,
        q < 0x100_0000,
        q * (pow2(e) * den) <= num < (q + 1) * (pow2(e) * den),
        !up ==> 2 * num < (2 * q + 1) * (pow2(e) * den) || (2 * num == (2 * q + 1) * (pow2(e) * den)
            && q % 2 == 0),
        up ==> 2 * num > (2 * q + 1) * (pow2(e) * den) || (2 * num == (2 * q + 1) * (pow2(e) * den)
            && q % 2 == 1),
    ensures
        nearest(num, den, (e * 0x80_0000 + q + if up { 1nat } else { 0nat }) as nat),
{
    let b = (e * 0x80_0000 + q) as nat;
    let p = pow2(e);
    lemma_units_at(e, q);
    lemma_units_at(e, q + 1);
    assert(e * 0x80_0000 + (q + 1) == b + 1);
    assert(units(b) * den == q * (p * den)) by (nonlinear_arith)
        requires
            units(b) == q * p,
    ;
    assert(units(b + 1) * den == (q + 1) * (p * den)) by (nonlinear_arith)
        requires
            units(b + 1) == (q + 1) * p,
    ;
    assert(twice_midpoint(b) * den == (2 * q + 1) * (p * den)) by (nonlinear_arith)
        requires
            twice_midpoint(b) == q * p + (q + 1) * p,
    ;
    assert(b % 2 == q % 2);
    if up {
        lemma_units_step(b + 1);
        let high = twice_midpoint(b + 1);
        assert(2 * num < high * den) by (nonlinear_arith)
            requires
                num < units(b + 1) * den,
                2 * units(b + 1) <= high,
                den > 0,
        ;
    } else if b > 0 {
        lemma_units_step((b - 1) as nat);
        let low = twice_midpoint((b - 1) as nat);
        assert(2 * num > low * den) by (nonlinear_arith)
            requires
                num >= units(b) * den,
                2 * units(b) > low,
                den > 0,
        ;
    }
}

/// Numbers from two to the power 128 on round to infinity.
proof fn lemma_round_overflow(num: nat, den: nat, e: nat, q: nat)
    requires
        den > 0,
        e >= 254,
        0x80_0000 <= q,
        q * (pow2(e) * den) <= num,
    ensures
        nearest(num, den, INFINITY_MAGNITUDE as nat),
{
    let b = INFINITY_MAGNITUDE as nat;
    lemma_units_at(254, 0x80_0000);
    assert(254 * 0x80_0000 + 0x80_0000 == b);
    if e > 254 {
        lemma_pow2_strictly_increases(254, e);
    }
    let top = pow2(254);
    assert(q * (pow2(e) * den) >= (0x80_0000 * top) * den) by (nonlinear_arith)
        requires
            q >= 0x80_0000,
            pow2(e) >= top,
            top >= 0,
            den > 0,
    ;
    lemma_units_step((b - 1) as nat);
    let low = twice_midpoint((b - 1) as nat);
    assert(2 * num > low * den) by (nonlinear_arith)
        requires
            num >= units(b) * den,
            2 * units(b) > low,
            den > 0,
    ;
}

/// The magnitude nearest to `num / den` units, which is `m` times two to the
/// power `k - 300`, or where `inexact` holds, that and less than one more
/// `m`-step.
fn round_magnitude(m: u64, k: u32, inexact: bool, Ghost(num): Ghost<nat>, Ghost(den): Ghost<nat>)
    -> (b: u32)
    requires
        den > 0,
        m < 0x8000_0000_0000_0000,
        k <= 1000,
        m * (pow2(k as nat) * den) <= num * pow2(300) < (m + 1) * (pow2(k as nat) * den),
        inexact <==> num * pow2(300) != m * (pow2(k as nat) * den),
        inexact ==> m >= 0x200_0000,
    ensures
        nearest(num, den, b as nat),
        b == rounded(num, den),
{
    if m == 0 {
        proof {
            lemma_pow2_pos(300);
            assert(num == 0) by (nonlinear_arith)
                requires
                    num * pow2(300) == 0 * (pow2(k as nat) * den),
                    pow2(300) > 0,
            ;
            lemma_round_to_zero(num, den);
        }
        return 0;
    }
    let l: u32 = bit_length(m);
    let ghost u = pow2(k as nat) * den;
    proof {
        vstd::arithmetic::power2::lemma2_to64();
        vstd::arithmetic::power2::lemma2_to64_rest();
        lemma_pow2_pos(k as nat);
        lemma_pow2_pos(300);
        assert(u > 0) by (nonlinear_arith)
            requires
                u == pow2(k as nat) * den,
                pow2(k as nat) > 0,
                den > 0,
        ;
        if l == 64 {
            assert(pow2(63) <= m);
        }
        if inexact && l < 26 {
            if l < 25 {
                lemma_pow2_strictly_increases(l as nat, 25);
            }
        }
    }
    let e: u32 = if l + k > 324 {
        l + k - 324
    } else {
        0
    };
    let ghost w = pow2(e as nat) * den;
    let q: u64;
    let up: bool;
    if e + 300 >= k {
        let s: u32 = e + 300 - k;
        if s >= 64 {
            proof {
                lemma_pow2_adds(k as nat, s as nat);
                if s > 64 {
                    lemma_pow2_strictly_increases(64, s as nat);
                }
                lemma_below_half(num, den, m as nat, pow2(k as nat), pow2(300), pow2(s as nat));
                lemma_round_to_zero(num, den);
            }
            return 0;
        }
        let p: u64 = power_of_two(s);
        q = m / p;
        let rem: u64 = m % p;
        proof {
            vstd::arithmetic::div_mod::lemma_fundamental_div_mod(m as int, p as int);
            assert(m == q * p + rem) by (nonlinear_arith)
                requires
                    m == p * q + rem,
            ;
            lemma_pow2_adds(k as nat, s as nat);
            lemma_pow2_adds(e as nat, 300);
            assert(w * pow2(300) == p * u) by (nonlinear_arith)
                requires
                    w == pow2(e as nat) * den,
                    u == pow2(k as nat) * den,
                    pow2(e as nat) * pow2(300) == pow2(k as nat) * p,
            ;
            lemma_kept_bits(num, pow2(300), m as nat, u, q as nat, p as nat, rem as nat, w);
            lemma_kept_range(m as nat, l as nat, s as nat, q as nat, e as nat);
        }
        if s == 0 {
            up = false;
            assert(p == 1);
            assert(rem == 0 && q == m) by (nonlinear_arith)
                requires
                    p == 1,
                    m == q * p + rem,
                    0 <= rem < p,
            ;
            assert(num * pow2(300) == (q * w) * pow2(300)) by (nonlinear_arith)
                requires
                    num * pow2(300) == m * u,
                    q == m,
                    w * pow2(300) == 1 * u,
            ;
            proof {
                lemma_cancel(num, (q * w) as nat, pow2(300));
                lemma_pow2_pos(e as nat);
                assert(w > 0) by (nonlinear_arith)
                    requires
                        w == pow2(e as nat) * den,
                        pow2(e as nat) > 0,
                        den > 0,
                ;
                assert(2 * (q * w) < (2 * q + 1) * w) by (nonlinear_arith)
                    requires
                        w > 0,
                ;
            }
        } else {
            proof {
                lemma_pow2_unfold(s as nat);
            }
            let half: u64 = p / 2;
            up = rem > half || (rem == half && (inexact || q % 2 == 1));
        }
    } else {
        let t: u32 = k - e - 300;
        proof {
            assert(!inexact);
            assert(l + t <= 24);
            lemma_shifted_range(m as nat, l as nat, t as nat);
            lemma_pow2_adds(e as nat, t as nat);
            lemma_pow2_adds((e + t) as nat, 300);
        }
        let p: u64 = power_of_two(t);
        q = m * p;
        up = false;
        proof {
            let pe = pow2(e as nat);
            let pt = pow2(t as nat);
            assert(u == (pe * pt) * pow2(300) * den);
            assert(num * pow2(300) == (q * w) * pow2(300)) by (nonlinear_arith)
                requires
                    num * pow2(300) == m * u,
                    q == m * p,
                    p == pt,
                    w == pe * den,
                    u == (pe * pt) * pow2(300) * den,
            ;
            lemma_cancel(num, (q * w) as nat, pow2(300));
            lemma_pow2_pos(e as nat);
            assert(w > 0) by (nonlinear_arith)
                requires
                    w == pe * den,
                    pe > 0,
                    den > 0,
            ;
            assert(2 * (q * w) < (2 * q + 1) * w) by (nonlinear_arith)
                requires
                    w > 0,
            ;
            assert(q * w < (q + 1) * w) by (nonlinear_arith)
                requires
                    w > 0,
            ;
            if e > 0 {
                assert(l + t == 24);
                lemma_pow2_adds((l - 1) as nat, t as nat);
                assert(q >= pow2(23)) by (nonlinear_arith)
                    requires
                        q == m * p,
                        p == pt,
                        m >= pow2((l - 1) as nat),
                        pow2((l - 1) as nat) * pt == pow2(23),
                ;
            }
        }
    }
    if e >= 254 {
        proof {
            lemma_round_overflow(num, den, e as nat, q as nat);
            lemma_rounded_is(num, den, INFINITY_MAGNITUDE as nat);
        }
        return INFINITY_MAGNITUDE;
    }
    proof {
        lemma_round_step(num, den, e as nat, q as nat, up);
        lemma_rounded_is(num, den, (e * 0x80_0000 + q + if up { 1nat } else { 0nat }) as nat);
    }
    let b: u32 = e * 0x80_0000 + q as u32;
    if up {
        b + 1
    } else {
        b
    }
}

/// Numbers below half a unit round to zero.
proof fn lemma_round_to_zero(num: nat, den: nat)
    requires
        2 * num < den,
    ensures
        nearest(num, den, 0),
        rounded(num, den) == 0,
{
    vstd::arithmetic::power2::lemma2_to64();
    let w = pow2(0) * den;
    assert(w == den) by (nonlinear_arith)
        requires
            w == pow2(0) * den,
            pow2(0) == 1,
    ;
    assert(0 * w == 0 && (0 + 1) * w == w && (2 * 0 + 1) * w == w) by (nonlinear_arith);
    lemma_round_step(num, den, 0, 0, false);
    lemma_rounded_is(num, den, 0);
}

/// A number below half a unit.
proof fn lemma_below_half(num: nat, den: nat, m: nat, pk: nat, t: nat, ps: nat)
    requires
        den > 0,
        pk * ps == t,
        t > 0,
        pk > 0,
        m < 0x8000_0000_0000_0000,
        ps >= 2 * 0x8000_0000_0000_0000,
        num * t < (m + 1) * (pk * den),
    ensures
        2 * num < den,
{
    assert(2 * (m + 1) <= ps);
    assert((2 * (m + 1)) * (pk * den) <= ps * (pk * den)) by (nonlinear_arith)
        requires
            2 * (m + 1) <= ps,
    ;
    assert(ps * (pk * den) == den * t) by (nonlinear_arith)
        requires
            pk * ps == t,
    ;
    assert((2 * num) * t < den * t) by (nonlinear_arith)
        requires
            num * t < (m + 1) * (pk * den),
            (2 * (m + 1)) * (pk * den) <= den * t,
    ;
    lemma_cancel(2 * num, den, t);
}

/// How many bits are kept when `s` low bits of `m` are dropped.
proof fn lemma_kept_range(m: nat, l: nat, s: nat, q: nat, e: nat)
    requires
        m < pow2(l),
        l > 0 ==> pow2((l - 1) as nat) <= m,
        q == m / pow2(s),
        l <= 24 + s,
        e > 0 ==> l == 24 + s,
    ensures
        q < 0x100_0000,
        e > 0 ==> q >= 0x80_0000,
{
    vstd::arithmetic::power2::lemma2_to64();
    lemma_pow2_pos(s);
    let p = pow2(s);
    lemma_pow2_adds(24, s);
    if l < 24 + s {
        lemma_pow2_strictly_increases(l, (24 + s) as nat);
    }
    vstd::arithmetic::div_mod::lemma_fundamental_div_mod(m as int, p as int);
    assert(q < 0x100_0000) by (nonlinear_arith)
        requires
            m < 0x100_0000 * p,
            m >= p * q,
            p > 0,
    ;
    if e > 0 {
        lemma_pow2_adds(23, s);
        assert((l - 1) as nat == 23 + s);
        assert(q >= 0x80_0000) by (nonlinear_arith)
            requires
                m >= 0x80_0000 * p,
                m < p * q + p,
                p > 0,
        ;
    }
}

/// How large `m` becomes when `t` zero bits are put behind it.
proof fn lemma_shifted_range(m: nat, l: nat, t: nat)
    requires
        m < pow2(l),
        l + t <= 24,
    ensures
        m * pow2(t) < 0x100_0000,
{
    vstd::arithmetic::power2::lemma2_to64();
    lemma_pow2_pos(t);
    lemma_pow2_adds(l, t);
    if l + t < 24 {
        lemma_pow2_strictly_increases((l + t) as nat, 24);
    }
    assert(m * pow2(t) < pow2(l) * pow2(t)) by (nonlinear_arith)
        requires
            m < pow2(l),
            pow2(t) > 0,
    ;
}

/// The number with a sign and a magnitude.
pub open spec fn signed(negative: bool, magnitude: nat) -> Float32 {
    Float32 {
        bits: if negative {
            (magnitude + SIGN_BIT) as u32
        } else {
            magnitude as u32
        },
    }
}

/// The sum of two numbers.
///
/// A NaN among the operands, and infinities of opposite signs, give a NaN. An
/// exact sum of zero is negative zero where both operands are negative, and
/// positive zero elsewhere.
pub open spec fn sum(a: Float32, b: Float32) -> Float32 {
    if a.nan() || b.nan() {
        quiet_nan()
    } else if a.infinite() {
        if b.infinite() && a.negative() != b.negative() {
            quiet_nan()
        } else {
            a
        }
    } else if b.infinite() {
        b
    } else {
        let exact = a.value() + b.value();
        if exact > 0 {
            signed(false, rounded(exact as nat, 1))
        } else if exact < 0 {
            signed(true, rounded((-exact) as nat, 1))
        } else {
            signed(a.negative() && b.negative(), 0)
        }
    }
}

/// The number of the opposite sign.
pub open spec fn negated(a: Float32) -> Float32 {
    signed(!a.negative(), a.magnitude())
}

/// The difference of two numbers.
pub open spec fn difference(a: Float32, b: Float32) -> Float32 {
    sum(a, negated(b))
}

/// The product of two numbers. A NaN among the operands, and zero times
/// infinity, give a NaN.
pub open spec fn product(a: Float32, b: Float32) -> Float32 {
    let negative = a.negative() != b.negative();
    if a.nan() || b.nan() {
        quiet_nan()
    } else if a.infinite() || b.infinite() {
        if a.magnitude() == 0 || b.magnitude() == 0 {
            quiet_nan()
        } else {
            signed(negative, INFINITY_MAGNITUDE as nat)
        }
    } else {
        signed(negative, rounded(units(a.magnitude()) * units(b.magnitude()), pow2(149)))
    }
}

/// The quotient of two numbers. A NaN among the operands, zero over zero and
/// infinity over infinity give a NaN; any other number over zero is infinite.
pub open spec fn quotient(a: Float32, b: Float32) -> Float32 {
    let negative = a.negative() != b.negative();
    if a.nan() || b.nan() {
        quiet_nan()
    } else if a.infinite() {
        if b.infinite() {
            quiet_nan()
        } else {
            signed(negative, INFINITY_MAGNITUDE as nat)
        }
    } else if b.infinite() {
        signed(negative, 0)
    } else if b.magnitude() == 0 {
        if a.magnitude() == 0 {
            quiet_nan()
        } else {
            signed(negative, INFINITY_MAGNITUDE as nat)
        }
    } else {
        signed(negative, rounded(units(a.magnitude()) * pow2(149), units(b.magnitude())))
    }
}

/// The pattern that operations return for a NaN.
pub open spec fn quiet_nan() -> Float32 {
    Float32 { bits: 0x7fc0_0000 }
}

impl Float32 {
    /// Whether the sign bit is set.
    pub open spec fn negative(self) -> bool {
        self.bits >= SIGN_BIT
    }

    /// The bits below the sign.
    pub open spec fn magnitude(self) -> nat {
        if self.negative() {
            (self.bits - SIGN_BIT) as nat
        } else {
            self.bits as nat
        }
    }

    /// Whether this is a NaN.
    pub open spec fn nan(self) -> bool {
        self.magnitude() > INFINITY_MAGNITUDE
    }

    /// Whether this is one of the two infinities.
    pub open spec fn infinite(self) -> bool {
        self.magnitude() == INFINITY_MAGNITUDE
    }

    /// Whether this is a number, and not infinite.
    pub open spec fn finite(self) -> bool {
        self.magnitude() < INFINITY_MAGNITUDE
    }

    /// The number in units. An infinity counts as the number that would come
    /// next after the largest finite one, so that the order is right.
    pub open spec fn value(self) -> int {
        if self.negative() {
            -(units(self.magnitude()) as int)
        } else {
            units(self.magnitude()) as int
        }
    }

    /// The numeric order: no number is less than a NaN, nor a NaN less than
    /// a number, and the two zeros are equal.
    pub open spec fn less(self, other: Float32) -> bool {
        !self.nan() && !other.nan() && self.value() < other.value()
    }

    /// The number with the given bit pattern.
    pub fn from_bits(bits: u32) -> (r: Float32)
        ensures
            r.bits == bits,
    {
        Float32 { bits }
    }

    /// The bit pattern.
    pub fn to_bits(self) -> (bits: u32)
        ensures
            bits == self.bits,
    {
        self.bits
    }

    /// Whether the sign bit is set.
    pub fn is_sign_negative(self) -> (r: bool)
        ensures
            r == self.negative(),
    {
        self.bits >= SIGN_BIT
    }

    fn abs_bits(self) -> (r: u32)
        ensures
            r == self.magnitude(),
            r < SIGN_BIT,
    {
        if self.bits >= SIGN_BIT {
            self.bits - SIGN_BIT
        } else {
            self.bits
        }
    }

    /// Whether this is a NaN.
    pub fn is_nan(self) -> (r: bool)
        ensures
            r == self.nan(),
    {
        self.abs_bits() > INFINITY_MAGNITUDE
    }

    /// Whether `self` is numerically less than `other`.
    pub fn lt(self, other: Float32) -> (r: bool)
        ensures
            r == self.less(other),
    {
        let a: u32 = self.abs_bits();
        let b: u32 = other.abs_bits();
        if a > INFINITY_MAGNITUDE || b > INFINITY_MAGNITUDE {
            return false;
        }
        proof {
            assert(units(0) == 0);
            if a < b {
                lemma_units_increase(a as nat, b as nat);
            }
            if b < a {
                lemma_units_increase(b as nat, a as nat);
            }
            if a > 0 {
                lemma_units_increase(0, a as nat);
            }
            if b > 0 {
                lemma_units_increase(0, b as nat);
            }
        }
        if self.bits >= SIGN_BIT {
            if other.bits >= SIGN_BIT {
                b < a
            } else {
                a > 0 || b > 0
            }
        } else if other.bits >= SIGN_BIT {
            false
        } else {
            a < b
        }
    }

    fn with_sign(negative: bool, magnitude: u32) -> (r: Float32)
        requires
            magnitude < SIGN_BIT,
        ensures
            r == signed(negative, magnitude as nat),
            r.negative() == negative,
            r.magnitude() == magnitude,
    {
        if negative {
            Float32 { bits: magnitude + SIGN_BIT }
        } else {
            Float32 { bits: magnitude }
        }
    }

    /// The sum of two numbers, correctly rounded.
    pub fn plus(self, other: Float32) -> (r: Float32)
        ensures
            r == sum(self, other),
    {
        let a: u32 = self.abs_bits();
        let b: u32 = other.abs_bits();
        let na: bool = self.is_sign_negative();
        let nb: bool = other.is_sign_negative();
        if a > INFINITY_MAGNITUDE || b > INFINITY_MAGNITUDE {
            return Float32 { bits: 0x7fc0_0000 };
        }
        if a == INFINITY_MAGNITUDE {
            if b == INFINITY_MAGNITUDE && na != nb {
                return Float32 { bits: 0x7fc0_0000 };
            }
            return self;
        }
        if b == INFINITY_MAGNITUDE {
            return other;
        }
        proof {
            assert(units(0) == 0);
            if a < b {
                lemma_units_increase(a as nat, b as nat);
            }
            if b < a {
                lemma_units_increase(b as nat, a as nat);
            }
            if a > 0 {
                lemma_units_increase(0, a as nat);
            }
            if b > 0 {
                lemma_units_increase(0, b as nat);
            }
        }
        let (high, low, negative): (u32, u32, bool) = if a >= b {
            (a, b, na)
        } else {
            (b, a, nb)
        };
        if na == nb {
            if high == 0 {
                return Float32::with_sign(na, 0);
            }
            let m: u32 = add_magnitudes(high, low);
            Float32::with_sign(negative, m)
        } else {
            if a == b {
                return Float32::with_sign(false, 0);
            }
            let m: u32 = subtract_magnitudes(high, low);
            Float32::with_sign(negative, m)
        }
    }

    /// The number of the opposite sign.
    pub fn neg(self) -> (r: Float32)
        ensures
            r == negated(self),
    {
        let m: u32 = self.abs_bits();
        Float32::with_sign(!self.is_sign_negative(), m)
    }

    /// The difference of two numbers, correctly rounded.
    pub fn minus(self, other: Float32) -> (r: Float32)
        ensures
            r == difference(self, other),
    {
        self.plus(other.neg())
    }

    /// The product of two numbers, correctly rounded.
    pub fn times(self, other: Float32) -> (r: Float32)
        ensures
            r == product(self, other),
    {
        let a: u32 = self.abs_bits();
        let b: u32 = other.abs_bits();
        let negative: bool = self.is_sign_negative() != other.is_sign_negative();
        if a > INFINITY_MAGNITUDE || b > INFINITY_MAGNITUDE {
            return Float32 { bits: 0x7fc0_0000 };
        }
        if a == INFINITY_MAGNITUDE || b == INFINITY_MAGNITUDE {
            if a == 0 || b == 0 {
                return Float32 { bits: 0x7fc0_0000 };
            }
            return Float32::with_sign(negative, INFINITY_MAGNITUDE);
        }
        let m: u32 = multiply_magnitudes(a, b);
        Float32::with_sign(negative, m)
    }

    /// The quotient of two numbers, correctly rounded.
    pub fn over(self, other: Float32) -> (r: Float32)
        ensures
            r == quotient(self, other),
    {
        let a: u32 = self.abs_bits();
        let b: u32 = other.abs_bits();
        let negative: bool = self.is_sign_negative() != other.is_sign_negative();
        if a > INFINITY_MAGNITUDE || b > INFINITY_MAGNITUDE {
            return Float32 { bits: 0x7fc0_0000 };
        }
        if a == INFINITY_MAGNITUDE {
            if b == INFINITY_MAGNITUDE {
                return Float32 { bits: 0x7fc0_0000 };
            }
            return Float32::with_sign(negative, INFINITY_MAGNITUDE);
        }
        if b == INFINITY_MAGNITUDE {
            return Float32::with_sign(negative, 0);
        }
        if b == 0 {
            if a == 0 {
                return Float32 { bits: 0x7fc0_0000 };
            }
            return Float32::with_sign(negative, INFINITY_MAGNITUDE);
        }
        let m: u32 = divide_magnitudes(a, b);
        Float32::with_sign(negative, m)
    }
}

/// A finite magnitude as a whole number `m` of steps of two to the power `e`
/// units.
fn split_magnitude(b: u32) -> (r: (u64, u32))
    requires
        b < INFINITY_MAGNITUDE,
    ensures
        r.1 <= 253,
        r.0 < 0x100_0000,
        units(b as nat) == r.0 * pow2(r.1 as nat),
        r.1 > 0 ==> r.0 >= 0x80_0000,
        r.1 == if b < 0x80_0000 { 0 } else { b / 0x80_0000 - 1 },
        r.0 == b - r.1 * 0x80_0000,
{
    let field: u32 = b / 0x80_0000;
    let e: u32 = if field == 0 {
        0
    } else {
        field - 1
    };
    let m: u32 = b - e * 0x80_0000;
    proof {
        lemma_units_at(e as nat, m as nat);
    }
    (m as u64, e)
}

/// The sum of two finite magnitudes.
fn add_magnitudes(high: u32, low: u32) -> (r: u32)
    requires
        low <= high < INFINITY_MAGNITUDE,
    ensures
        r == rounded(units(high as nat) + units(low as nat), 1),
        r <= INFINITY_MAGNITUDE,
{
    let (mh, eh): (u64, u32) = split_magnitude(high);
    let (ml, el): (u64, u32) = split_magnitude(low);
    let ghost num = units(high as nat) + units(low as nat);
    let d: u32 = eh - el;
    if d <= 38 {
        let p: u64 = power_of_two(d);
        proof {
            lemma_aligned(mh as nat, ml as nat, eh as nat, el as nat, d as nat);
        }
        let m: u64 = mh * p + ml;
        proof {
            lemma_whole_steps(m as nat, el as nat);
        }
        round_magnitude(m, el + 300, false, Ghost(num), Ghost(1))
    } else {
        proof {
            lemma_far(mh as nat, ml as nat, eh as nat, el as nat);
        }
        let m: u64 = mh * 0x8000;
        round_magnitude(m, eh - 15 + 300, ml > 0, Ghost(num), Ghost(1))
    }
}

/// The difference of two finite magnitudes, the larger one first.
fn subtract_magnitudes(high: u32, low: u32) -> (r: u32)
    requires
        low < high < INFINITY_MAGNITUDE,
    ensures
        r == rounded((units(high as nat) - units(low as nat)) as nat, 1),
        r <= INFINITY_MAGNITUDE,
{
    proof {
        lemma_units_increase(low as nat, high as nat);
    }
    let (mh, eh): (u64, u32) = split_magnitude(high);
    let (ml, el): (u64, u32) = split_magnitude(low);
    let ghost num = (units(high as nat) - units(low as nat)) as nat;
    let d: u32 = eh - el;
    if d <= 38 {
        let p: u64 = power_of_two(d);
        proof {
            lemma_aligned(mh as nat, ml as nat, eh as nat, el as nat, d as nat);
        }
        let m: u64 = mh * p - ml;
        proof {
            lemma_whole_steps(m as nat, el as nat);
        }
        round_magnitude(m, el + 300, false, Ghost(num), Ghost(1))
    } else {
        proof {
            lemma_far(mh as nat, ml as nat, eh as nat, el as nat);
        }
        let m: u64 = if ml > 0 {
            mh * 0x8000 - 1
        } else {
            mh * 0x8000
        };
        round_magnitude(m, eh - 15 + 300, ml > 0, Ghost(num), Ghost(1))
    }
}

/// Operands whose exponents are close: the larger one in steps of the
/// smaller.
proof fn lemma_aligned(mh: nat, ml: nat, eh: nat, el: nat, d: nat)
    requires
        mh < 0x100_0000,
        eh == el + d,
        d <= 38,
    ensures
        mh * pow2(d) < 0x4000_0000_0000_0000,
        mh * pow2(eh) + ml * pow2(el) == (mh * pow2(d) + ml) * pow2(el),
        mh * pow2(eh) - ml * pow2(el) == (mh * pow2(d) - ml) * pow2(el),
        (mh * pow2(eh) - ml * pow2(el) > 0) ==> mh * pow2(d) > ml,
{
    vstd::arithmetic::power2::lemma2_to64();
    vstd::arithmetic::power2::lemma2_to64_rest();
    if d < 38 {
        lemma_pow2_strictly_increases(d, 38);
    }
    lemma_pow2_pos(d);
    assert(mh * pow2(d) < 0x4000_0000_0000_0000) by (nonlinear_arith)
        requires
            mh < 0x100_0000,
            0 < pow2(d) <= 0x40_0000_0000,
    ;
    lemma_pow2_adds(el, d);
    lemma_pow2_pos(el);
    assert(mh * pow2(eh) == (mh * pow2(d)) * pow2(el)) by (nonlinear_arith)
        requires
            pow2(eh) == pow2(el) * pow2(d),
    ;
    let x = mh * pow2(d);
    let p = pow2(el);
    assert(x * p + ml * p == (x + ml) * p) by (nonlinear_arith);
    assert(x * p - ml * p == (x - ml) * p) by (nonlinear_arith);
    if x * p - ml * p > 0 {
        assert(x > ml) by (nonlinear_arith)
            requires
                x * p - ml * p > 0,
                p > 0,
        ;
    }
}

/// A whole number of steps of two to the power `e` units, scaled for
/// rounding.
proof fn lemma_whole_steps(m: nat, e: nat)
    ensures
        (m * pow2(e)) * pow2(300) == m * (pow2((e + 300) as nat) * 1),
        m * (pow2((e + 300) as nat) * 1) < (m + 1) * (pow2((e + 300) as nat) * 1),
{
    let u = pow2((e + 300) as nat) * 1;
    lemma_pow2_adds(e, 300);
    lemma_pow2_pos((e + 300) as nat);
    assert((m * pow2(e)) * pow2(300) == m * u) by (nonlinear_arith)
        requires
            u == pow2(e) * pow2(300),
    ;
    assert(m * u < (m + 1) * u) by (nonlinear_arith)
        requires
            u > 0,
    ;
}

/// Operands whose exponents are far apart: the smaller one lies below one
/// step of two to the power `eh - 15`.
proof fn lemma_far(mh: nat, ml: nat, eh: nat, el: nat)
    requires
        0x80_0000 <= mh < 0x100_0000,
        ml < 0x100_0000,
        eh > el + 38,
    ensures
        ({
            let t = pow2(300);
            let u = pow2((eh - 15 + 300) as nat) * 1;
            let h = mh * pow2(eh);
            let l = ml * pow2(el);
            &&& u > 0
            &&& h * t == (mh * 0x8000) * u
            &&& 0 <= l * t < u
            &&& ml > 0 <==> l * t > 0
            &&& (h + l) * t == h * t + l * t
            &&& (h - l) * t == h * t - l * t
            &&& (mh * 0x8000 + 1) * u == (mh * 0x8000) * u + u
            &&& (mh * 0x8000 - 1) * u == (mh * 0x8000) * u - u
        }),
{
    vstd::arithmetic::power2::lemma2_to64();
    let t = pow2(300);
    let g = (eh - 15) as nat;
    let u = pow2((eh - 15 + 300) as nat) * 1;
    let pg = pow2(g);
    let h = mh * pow2(eh);
    let l = ml * pow2(el);
    lemma_pow2_adds(g, 15);
    lemma_pow2_adds(g, 300);
    lemma_pow2_adds(el, 24);
    lemma_pow2_pos(300);
    lemma_pow2_pos(el);
    lemma_pow2_pos(g);
    assert((eh - 15 + 300) as nat == g + 300);
    assert(u == pg * t);
    assert(u > 0) by (nonlinear_arith)
        requires
            u == pg * t,
            pg > 0,
            t > 0,
    ;
    assert(h * t == (mh * 0x8000) * u) by (nonlinear_arith)
        requires
            h == mh * (pg * 0x8000),
            u == pg * t,
    ;
    if el + 24 < g {
        lemma_pow2_strictly_increases((el + 24) as nat, g);
    }
    assert(l < pg) by (nonlinear_arith)
        requires
            l == ml * pow2(el),
            ml < 0x100_0000,
            pow2(el) * 0x100_0000 <= pg,
            pow2(el) > 0,
    ;
    assert(l * t < pg * t) by (nonlinear_arith)
        requires
            l < pg,
            t > 0,
    ;
    assert(ml > 0 <==> l * t > 0) by (nonlinear_arith)
        requires
            l == ml * pow2(el),
            pow2(el) > 0,
            t > 0,
    ;
    assert(l * t >= 0) by (nonlinear_arith)
        requires
            l >= 0,
            t > 0,
    ;
    assert((h + l) * t == h * t + l * t) by (nonlinear_arith);
    assert((h - l) * t == h * t - l * t) by (nonlinear_arith);
    assert((mh * 0x8000 + 1) * u == (mh * 0x8000) * u + u) by (nonlinear_arith);
    assert((mh * 0x8000 - 1) * u == (mh * 0x8000) * u - u) by (nonlinear_arith);
}

/// The product of two finite magnitudes.
fn multiply_magnitudes(a: u32, b: u32) -> (r: u32)
    requires
        a < INFINITY_MAGNITUDE,
        b < INFINITY_MAGNITUDE,
    ensures
        r == rounded(units(a as nat) * units(b as nat), pow2(149)),
        r <= INFINITY_MAGNITUDE,
{
    let (ma, ea): (u64, u32) = split_magnitude(a);
    let (mb, eb): (u64, u32) = split_magnitude(b);
    let ghost num = units(a as nat) * units(b as nat);
    assert(ma * mb < 0x1_0000_0000_0000) by (nonlinear_arith)
        requires
            ma < 0x100_0000,
            mb < 0x100_0000,
    ;
    let m: u64 = ma * mb;
    let k: u32 = ea + eb + 151;
    proof {
        lemma_pow2_adds(ea as nat, eb as nat);
        lemma_pow2_adds((ea + eb) as nat, 300);
        lemma_pow2_adds(k as nat, 149);
        lemma_pow2_pos(k as nat);
        lemma_pow2_pos(149);
        let pa = pow2(ea as nat);
        let pb = pow2(eb as nat);
        let u = pow2(k as nat) * pow2(149);
        assert(u == (pa * pb) * pow2(300));
        assert(num * pow2(300) == m * u) by (nonlinear_arith)
            requires
                num == (ma * pa) * (mb * pb),
                m == ma * mb,
                u == (pa * pb) * pow2(300),
        ;
        assert(u > 0) by (nonlinear_arith)
            requires
                u == pow2(k as nat) * pow2(149),
                pow2(k as nat) > 0,
                pow2(149) > 0,
        ;
        assert(m * u < (m + 1) * u) by (nonlinear_arith)
            requires
                u > 0,
        ;
    }
    round_magnitude(m, k, false, Ghost(num), Ghost(pow2(149)))
}

/// The quotient of two finite magnitudes.
fn divide_magnitudes(a: u32, b: u32) -> (r: u32)
    requires
        a < INFINITY_MAGNITUDE,
        0 < b < INFINITY_MAGNITUDE,
    ensures
        r == rounded(units(a as nat) * pow2(149), units(b as nat)),
        r <= INFINITY_MAGNITUDE,
{
    let ghost num = units(a as nat) * pow2(149);
    let ghost den = units(b as nat);
    proof {
        lemma_units_increase(0, b as nat);
        assert(units(0) == 0);
    }
    if a == 0 {
        proof {
            assert(num == 0) by (nonlinear_arith)
                requires
                    num == 0 * pow2(149),
            ;
            lemma_round_to_zero(num, den);
        }
        return 0;
    }
    let (ma, ea): (u64, u32) = split_magnitude(a);
    let (mb, eb): (u64, u32) = split_magnitude(b);
    let mut x: u64 = ma;
    let mut t: u32 = 0;
    proof {
        vstd::arithmetic::power2::lemma2_to64();
    }
    while x < 0x80_0000
        invariant
            1 <= x < 0x100_0000,
            x == ma * pow2(t as nat),
            t <= 23,
            x >= pow2(t as nat),
            ma >= 1,
        decreases 0x100_0000 - x,
    {
        proof {
            lemma_pow2_unfold((t + 1) as nat);
            assert(ma * (2 * pow2(t as nat)) == 2 * (ma * pow2(t as nat))) by (nonlinear_arith);
            if t == 23 {
                vstd::arithmetic::power2::lemma2_to64();
            }
        }
        x = x * 2;
        t = t + 1;
    }
    let scaled: u64 = x * 0x80_0000_0000;
    assert(mb > 0) by (nonlinear_arith)
        requires
            den == mb * pow2(eb as nat),
            den > 0,
    ;
    let m: u64 = scaled / mb;
    let rem: u64 = scaled % mb;
    let k: u32 = ea + 410 - t - eb;
    proof {
        vstd::arithmetic::div_mod::lemma_fundamental_div_mod(scaled as int, mb as int);
        assert(m >= 0x200_0000) by (nonlinear_arith)
            requires
                scaled == mb * m + rem,
                rem < mb,
                mb < 0x100_0000,
                scaled >= 0x80_0000 * 0x80_0000_0000,
        ;
        assert(m <= scaled) by (nonlinear_arith)
            requires
                scaled == mb * m + rem,
                mb >= 1,
                rem >= 0,
        ;
        lemma_division_scale(ma as nat, mb as nat, ea as nat, eb as nat, t as nat, k as nat);
        let c = pow2((k + eb) as nat);
        lemma_pow2_pos((k + eb) as nat);
        lemma_pow2_pos(k as nat);
        lemma_pow2_adds(k as nat, eb as nat);
        let u = pow2(k as nat) * den;
        assert(u == mb * c) by (nonlinear_arith)
            requires
                u == pow2(k as nat) * (mb * pow2(eb as nat)),
                c == pow2(k as nat) * pow2(eb as nat),
        ;
        assert(num * pow2(300) == scaled * c) by (nonlinear_arith)
            requires
                num == (ma * pow2(ea as nat)) * pow2(149),
                (ma * pow2(ea as nat)) * pow2(149) * pow2(300) == ((ma * pow2(t as nat))
                    * 0x80_0000_0000) * c,
                scaled == (ma * pow2(t as nat)) * 0x80_0000_0000,
        ;
        assert(m * (mb * c) + rem * c == scaled * c) by (nonlinear_arith)
            requires
                scaled == mb * m + rem,
        ;
        assert((m + 1) * (mb * c) == m * (mb * c) + mb * c) by (nonlinear_arith);
        assert(0 <= rem * c < mb * c) by (nonlinear_arith)
            requires
                0 <= rem < mb,
                c > 0,
        ;
        assert(rem > 0 <==> rem * c > 0) by (nonlinear_arith)
            requires
                rem >= 0,
                c > 0,
        ;
    }
    round_magnitude(m, k, rem > 0, Ghost(num), Ghost(den))
}

proof fn lemma_division_scale(ma: nat, mb: nat, ea: nat, eb: nat, t: nat, k: nat)
    requires
        k + eb + t + 39 == ea + 449,
    ensures
        (ma * pow2(ea)) * pow2(149) * pow2(300) == ((ma * pow2(t)) * 0x80_0000_0000) * pow2(
            (k + eb) as nat,
        ),
{
    vstd::arithmetic::power2::lemma2_to64_rest();
    lemma_pow2_adds(ea, 149);
    lemma_pow2_adds((ea + 149) as nat, 300);
    lemma_pow2_adds(t, 39);
    lemma_pow2_adds((t + 39) as nat, (k + eb) as nat);
    assert(pow2(39) == 0x80_0000_0000);
    let c = pow2((k + eb) as nat);
    let whole = pow2((ea + 449) as nat);
    assert((ma * pow2(ea)) * pow2(149) * pow2(300) == ma * whole) by (nonlinear_arith)
        requires
            whole == pow2(ea) * pow2(149) * pow2(300),
    ;
    assert(((ma * pow2(t)) * 0x80_0000_0000) * c == ma * whole) by (nonlinear_arith)
        requires
            whole == pow2(t) * 0x80_0000_0000 * c,
    ;
}

/// The greater of two numbers; of a NaN and a number, the number. Of two
/// equal numbers it is the first.
pub open spec fn maximum(a: Float32, b: Float32) -> Float32 {
    if a.nan() || a.less(b) {
        b
    } else {
        a
    }
}

/// The smaller of two numbers; of a NaN and a number, the number. Of two
/// equal numbers it is the first.
pub open spec fn minimum(a: Float32, b: Float32) -> Float32 {
    if a.nan() || b.less(a) {
        b
    } else {
        a
    }
}

/// The number of the range from `low` to `high` nearest to `a`; a NaN stays
/// what it is.
pub open spec fn clamped(a: Float32, low: Float32, high: Float32) -> Float32 {
    if a.less(low) {
        low
    } else if high.less(a) {
        high
    } else {
        a
    }
}

impl Float32 {
    /// The greater of two numbers. See [`maximum`].
    pub fn max(self, other: Float32) -> (r: Float32)
        ensures
            r == maximum(self, other),
    {
        if self.is_nan() || self.lt(other) {
            other
        } else {
            self
        }
    }

    /// The smaller of two numbers. See [`minimum`].
    pub fn min(self, other: Float32) -> (r: Float32)
        ensures
            r == minimum(self, other),
    {
        if self.is_nan() || other.lt(self) {
            other
        } else {
            self
        }
    }

    /// The number of the range from `low` to `high` nearest to this one. See
    /// [`clamped`].
    pub fn clamp(self, low: Float32, high: Float32) -> (r: Float32)
        requires
            !low.nan(),
            !high.nan(),
            !high.less(low),
        ensures
            r == clamped(self, low, high),
    {
        if self.lt(low) {
            low
        } else if high.lt(self) {
            high
        } else {
            self
        }
    }
}

/// Every nonnegative number has a nearest magnitude.
pub proof fn lemma_nearest_exists(num: nat, den: nat)
    requires
        den > 0,
    ensures
        nearest(num, den, rounded(num, den)),
{
    assert(units(0) == 0);
    assert(units(0) * den == 0) by (nonlinear_arith)
        requires
            units(0) == 0,
    ;
    lemma_nearest_from(num, den, 0);
}

proof fn lemma_nearest_from(num: nat, den: nat, b: nat)
    requires
        den > 0,
        b <= INFINITY_MAGNITUDE,
        units(b) * den <= num,
    ensures
        nearest(num, den, rounded(num, den)),
    decreases INFINITY_MAGNITUDE - b,
{
    if b > 0 {
        lemma_units_step((b - 1) as nat);
        let low = twice_midpoint((b - 1) as nat);
        assert(2 * num > low * den) by (nonlinear_arith)
            requires
                num >= units(b) * den,
                2 * units(b) > low,
                den > 0,
        ;
    }
    if b == INFINITY_MAGNITUDE {
        assert(nearest(num, den, b));
    } else if units(b + 1) * den <= num {
        lemma_nearest_from(num, den, b + 1);
    } else {
        let mid = twice_midpoint(b);
        lemma_units_step(b + 1);
        let high = twice_midpoint(b + 1);
        assert(2 * num < high * den) by (nonlinear_arith)
            requires
                num < units(b + 1) * den,
                2 * units(b + 1) <= high,
                den > 0,
        ;
        if 2 * num < mid * den || (2 * num == mid * den && b % 2 == 0) {
            assert(nearest(num, den, b));
        } else {
            assert(nearest(num, den, b + 1));
        }
    }
}

/// Rounding keeps the order of numbers.
pub proof fn law_rounding_is_monotone(num1: nat, den1: nat, num2: nat, den2: nat)
    requires
        den1 > 0,
        den2 > 0,
        num1 * den2 <= num2 * den1,
    ensures
        rounded(num1, den1) <= rounded(num2, den2),
{
    let a = rounded(num1, den1);
    let b = rounded(num2, den2);
    lemma_nearest_exists(num1, den1);
    lemma_nearest_exists(num2, den2);
    if b < a {
        let high = twice_midpoint(b);
        let low = twice_midpoint((a - 1) as nat);
        if b < a - 1 {
            lemma_units_increase(b, (a - 1) as nat);
            lemma_units_increase((b + 1) as nat, a);
        }
        assert(high <= low);
        // 2 * num2 / den2 <= high <= low <= 2 * num1 / den1 <= 2 * num2 / den2
        assert((2 * num2) * den1 <= (high * den2) * den1) by (nonlinear_arith)
            requires
                2 * num2 <= high * den2,
        ;
        assert((low * den1) * den2 <= (2 * num1) * den2) by (nonlinear_arith)
            requires
                low * den1 <= 2 * num1,
        ;
        assert((2 * num1) * den2 == 2 * (num1 * den2)) by (nonlinear_arith);
        assert((2 * num2) * den1 == 2 * (num2 * den1)) by (nonlinear_arith);
        assert((high * den2) * den1 == high * (den1 * den2)) by (nonlinear_arith);
        assert((low * den1) * den2 == low * (den1 * den2)) by (nonlinear_arith);
        assert(den1 * den2 > 0) by (nonlinear_arith)
            requires
                den1 > 0,
                den2 > 0,
        ;
        if high < low {
            assert(high * (den1 * den2) < low * (den1 * den2)) by (nonlinear_arith)
                requires
                    high < low,
                    den1 * den2 > 0,
            ;
        } else {
            if b < a - 1 {
                assert(false);
            }
            // Both sides sit on the one midpoint, and both go to its even side.
            assert((2 * num2) * den1 == (high * den2) * den1);
            assert((low * den1) * den2 == (2 * num1) * den2);
            assert(2 * num2 == high * den2) by (nonlinear_arith)
                requires
                    (2 * num2) * den1 == (high * den2) * den1,
                    den1 > 0,
            ;
            assert(2 * num1 == low * den1) by (nonlinear_arith)
                requires
                    (low * den1) * den2 == (2 * num1) * den2,
                    den2 > 0,
            ;
        }
    }
}

/// The order is irreflexive and transitive.
pub proof fn law_less_is_an_order(a: Float32, b: Float32, c: Float32)
    ensures
        !a.less(a),
        a.less(b) && b.less(c) ==> a.less(c),
        a.less(b) ==> !b.less(a),
{
}

/// Sums and products do not depend on the order of their operands.
pub proof fn law_commutative(a: Float32, b: Float32)
    ensures
        product(a, b) == product(b, a),
        sum(a, b) == sum(b, a),
{
    assert(units(a.magnitude()) * units(b.magnitude()) == units(b.magnitude()) * units(
        a.magnitude(),
    )) by (nonlinear_arith);
}

/// The value of a number made of a sign and a magnitude.
pub proof fn lemma_signed_value(negative: bool, magnitude: nat)
    requires
        magnitude <= INFINITY_MAGNITUDE,
    ensures
        signed(negative, magnitude).magnitude() == magnitude,
        signed(negative, magnitude).negative() == negative,
        !signed(negative, magnitude).nan(),
        signed(negative, magnitude).value() == if negative {
            -(units(magnitude) as int)
        } else {
            units(magnitude) as int
        },
{
}

/// The value of a sum of finite numbers.
pub proof fn lemma_finite_sum(a: Float32, b: Float32)
    requires
        a.finite(),
        b.finite(),
    ensures
        ({
            let exact = a.value() + b.value();
            &&& !sum(a, b).nan()
            &&& exact > 0 ==> sum(a, b).value() == units(rounded(exact as nat, 1))
            &&& exact < 0 ==> sum(a, b).value() == -(units(rounded((-exact) as nat, 1)) as int)
            &&& exact == 0 ==> sum(a, b).value() == 0
        }),
{
    let exact = a.value() + b.value();
    assert(units(0) == 0);
    if exact > 0 {
        lemma_nearest_exists(exact as nat, 1);
        lemma_signed_value(false, rounded(exact as nat, 1));
    } else if exact < 0 {
        lemma_nearest_exists((-exact) as nat, 1);
        lemma_signed_value(true, rounded((-exact) as nat, 1));
    } else {
        lemma_signed_value(a.negative() && b.negative(), 0);
    }
}

proof fn lemma_value_bound(a: Float32)
    requires
        !a.nan(),
    ensures
        -(units(INFINITY_MAGNITUDE as nat) as int) <= a.value() <= units(INFINITY_MAGNITUDE as nat),
{
    if a.magnitude() < INFINITY_MAGNITUDE {
        lemma_units_increase(a.magnitude(), INFINITY_MAGNITUDE as nat);
    }
}

proof fn lemma_units_ordered(a: nat, b: nat)
    requires
        a <= b,
    ensures
        units(a) <= units(b),
{
    if a < b {
        lemma_units_increase(a, b);
    }
}

/// A number above the halfway point below a magnitude is rounded to that
/// magnitude at least.
pub proof fn lemma_rounds_up(num: nat, den: nat, magnitude: nat)
    requires
        den > 0,
        0 < magnitude <= INFINITY_MAGNITUDE,
        2 * num > (units((magnitude - 1) as nat) + units(magnitude)) * den,
    ensures
        rounded(num, den) >= magnitude,
{
    let r = rounded(num, den);
    lemma_nearest_exists(num, den);
    if r < magnitude {
        let here = twice_midpoint(r);
        let there = twice_midpoint((magnitude - 1) as nat);
        lemma_units_ordered(r, (magnitude - 1) as nat);
        lemma_units_ordered(r + 1, magnitude);
        assert(here * den <= there * den) by (nonlinear_arith)
            requires
                here <= there,
        ;
    }
}

/// Rounding to a finite number changes a whole number of units by no more than
/// one part in 2 to the power 23.
pub proof fn law_rounding_error(n: nat)
    requires
        rounded(n, 1) < INFINITY_MAGNITUDE,
    ensures
        units(rounded(n, 1)) * 0x80_0000 <= n * 0x80_0001,
        n * 0x7f_ffff <= units(rounded(n, 1)) * 0x80_0000,
{
    let m = rounded(n, 1);
    lemma_nearest_exists(n, 1);
    assert(twice_midpoint(m) * 1 == twice_midpoint(m));
    assert(pow2(0) == 1) by {
        vstd::arithmetic::power2::lemma2_to64();
    }
    if m > 0 {
        assert(twice_midpoint((m - 1) as nat) * 1 == twice_midpoint((m - 1) as nat));
    }
    if m < 0x100_0000 {
        lemma_units_at(0, m);
        lemma_units_at(0, m + 1);
        if m > 0 {
            lemma_units_at(0, (m - 1) as nat);
        }
    } else {
        let e = (m / 0x80_0000 - 1) as nat;
        let q = (m - e * 0x80_0000) as nat;
        let p = pow2(e);
        lemma_pow2_pos(e);
        lemma_units_at(e, q);
        lemma_units_at(e, q + 1);
        assert(e * 0x80_0000 + (q + 1) == m + 1);
        let x = q * p;
        assert((q + 1) * p == x + p) by (nonlinear_arith)
            requires
                x == q * p,
        ;
        assert(x >= 0x80_0000 * p) by (nonlinear_arith)
            requires
                x == q * p,
                q >= 0x80_0000,
        ;
        assert(units((m - 1) as nat) >= x - p) by {
            if q > 0x80_0000 {
                lemma_units_at(e, (q - 1) as nat);
                assert(e * 0x80_0000 + (q - 1) == m - 1);
                assert((q - 1) * p == x - p) by (nonlinear_arith)
                    requires
                        x == q * p,
                ;
            } else {
                let half = pow2((e - 1) as nat);
                lemma_pow2_unfold(e);
                lemma_units_at((e - 1) as nat, 0xff_ffff);
                assert((e - 1) * 0x80_0000 + 0xff_ffff == m - 1);
            }
        }
    }
}

/// A number that can be represented is rounded to itself.
pub proof fn lemma_rounding_keeps(magnitude: nat)
    requires
        magnitude < INFINITY_MAGNITUDE,
    ensures
        rounded(units(magnitude), 1) == magnitude,
{
    lemma_units_step(magnitude);
    if magnitude > 0 {
        lemma_units_step((magnitude - 1) as nat);
    }
    assert(nearest(units(magnitude), 1, magnitude));
    lemma_rounded_is(units(magnitude), 1, magnitude);
}

/// Adding zero changes no number but negative zero, and zero times a finite
/// number is zero.
pub proof fn law_zero(a: Float32)
    requires
        !a.nan(),
    ensures
        sum(a, signed(false, 0)).value() == a.value(),
        a.magnitude() > 0 ==> sum(a, signed(false, 0)) == a,
        a.finite() ==> product(a, signed(false, 0)) == signed(a.negative(), 0),
        a.finite() ==> product(signed(false, 0), a) == signed(a.negative(), 0),
{
    let zero = signed(false, 0);
    let m = a.magnitude();
    assert(units(0) == 0);
    assert(zero.value() == 0);
    if a.finite() {
        lemma_rounding_keeps(m);
        if m > 0 {
            lemma_units_increase(0, m);
        }
        lemma_signed_value(a.negative(), m);
        vstd::arithmetic::power2::lemma_pow2_pos(149);
        lemma_round_to_zero(0, pow2(149));
        assert(units(m) * units(0) == 0 && units(0) * units(m) == 0) by (nonlinear_arith)
            requires
                units(0) == 0,
        ;
    }
}

/// What is not greater, less the other, is negative, or zero without a sign.
pub proof fn law_difference_of_less(a: Float32, b: Float32)
    requires
        !a.nan(),
        b.finite(),
        b.magnitude() > 0,
        !b.less(a),
    ensures
        !difference(a, b).nan(),
        difference(a, b).less(signed(false, 0)) || difference(a, b) == signed(false, 0),
{
    let c = negated(b);
    assert(units(0) == 0);
    lemma_signed_value(!b.negative(), b.magnitude());
    assert(c.value() == -b.value());
    lemma_units_increase(0, b.magnitude());
    if a.finite() {
        let exact = a.value() + c.value();
        if exact < 0 {
            let m = rounded((-exact) as nat, 1);
            lemma_nearest_exists((-exact) as nat, 1);
            lemma_signed_value(true, m);
            if m == 0 {
                lemma_rounding_keeps(1);
                assert(twice_midpoint(0) * 1 == twice_midpoint(0));
                assert(units(1) == 1);
            }
            lemma_units_ordered(if m > 0 { 1 } else { 0 }, m);
            assert(units(1) == 1);
        } else {
            assert(exact == 0);
        }
    } else {
        lemma_below_infinity(b);
        lemma_units_increase(0, INFINITY_MAGNITUDE as nat);
        if !a.negative() {
            assert(b.less(a));
        }
    }
}

/// Sums keep the order of their operands, where no NaN comes up.
pub proof fn law_sum_is_monotone(a: Float32, b: Float32, c: Float32, d: Float32)
    requires
        !sum(a, b).nan(),
        !sum(c, d).nan(),
        a.value() <= c.value(),
        b.value() <= d.value(),
    ensures
        sum(a, b).value() <= sum(c, d).value(),
{
    lemma_value_bound(sum(a, b));
    lemma_value_bound(sum(c, d));
    lemma_value_bound(a);
    lemma_value_bound(b);
    lemma_value_bound(c);
    lemma_value_bound(d);
    lemma_below_infinity(a);
    lemma_below_infinity(b);
    lemma_below_infinity(c);
    lemma_below_infinity(d);
    if a.finite() && b.finite() && c.finite() && d.finite() {
        lemma_finite_sum(a, b);
        lemma_finite_sum(c, d);
        let x = a.value() + b.value();
        let y = c.value() + d.value();
        if 0 < x {
            law_rounding_is_monotone(x as nat, 1, y as nat, 1);
            lemma_units_ordered(rounded(x as nat, 1), rounded(y as nat, 1));
        } else if y < 0 {
            law_rounding_is_monotone((-y) as nat, 1, (-x) as nat, 1);
            lemma_units_ordered(rounded((-y) as nat, 1), rounded((-x) as nat, 1));
        }
    }
}

/// A finite number lies strictly between the infinities.
proof fn lemma_below_infinity(a: Float32)
    ensures
        a.finite() ==> -(units(INFINITY_MAGNITUDE as nat) as int) < a.value() < units(
            INFINITY_MAGNITUDE as nat,
        ),
{
    if a.finite() {
        lemma_units_increase(a.magnitude(), INFINITY_MAGNITUDE as nat);
    }
}

/// The number nearest to a whole number.
pub open spec fn whole(n: nat) -> Float32 {
    signed(false, rounded(n * pow2(149), 1))
}

/// The whole number nearest to a number, halves rounded up, held to the range
/// from one to 255; zero for a NaN.
pub open spec fn nearest_byte(a: Float32) -> int {
    let n = (2 * a.value() + pow2(149)) / (pow2(150) as int);
    if a.nan() {
        0
    } else if n < 1 {
        1
    } else if n > 255 {
        255
    } else {
        n
    }
}

impl Float32 {
    /// The number nearest to `n`.
    pub fn from_u32(n: u32) -> (r: Float32)
        ensures
            r == whole(n as nat),
    {
        let ghost num = (n as nat) * pow2(149);
        proof {
            lemma_pow2_adds(149, 300);
            lemma_pow2_pos(449);
            let u = pow2(449) * 1;
            assert(num * pow2(300) == n * u) by (nonlinear_arith)
                requires
                    num == n * pow2(149),
                    u == pow2(149) * pow2(300),
            ;
            assert(n * u < (n + 1) * u) by (nonlinear_arith)
                requires
                    u > 0,
            ;
        }
        let m: u32 = round_magnitude(n as u64, 449, false, Ghost(num), Ghost(1));
        Float32::with_sign(false, m)
    }

    /// The nearest whole number from one to 255. See [`nearest_byte`].
    pub fn to_byte(self) -> (r: u8)
        ensures
            r == nearest_byte(self),
    {
        let a: u32 = self.abs_bits();
        if a > INFINITY_MAGNITUDE {
            return 0;
        }
        proof {
            vstd::arithmetic::power2::lemma2_to64();
            lemma_pow2_unfold(150);
            lemma_pow2_pos(149);
            assert(units(0) == 0);
        }
        let ghost one = pow2(149) as int;
        if self.is_sign_negative() || a < 0x3f80_0000 {
            proof {
                // Less than one: half a unit more is less than two.
                lemma_units_at(126, 0x80_0000);
                lemma_pow2_adds(126, 23);
                assert(units(0x3f80_0000) == one);
                if a < 0x3f80_0000 {
                    lemma_units_increase(a as nat, 0x3f80_0000);
                }
                let v = self.value();
                assert(v < one || self.negative());
                let n = (2 * v + one) / (2 * one);
                assert(n <= 1) by (nonlinear_arith)
                    requires
                        n == (2 * v + one) / (2 * one),
                        v < one,
                        one > 0,
                ;
            }
            return 1;
        }
        if a >= 0x4380_0000 {
            proof {
                // At least 256.
                lemma_units_at(134, 0x80_0000);
                lemma_pow2_adds(134, 15);
                if a > 0x4380_0000 {
                    lemma_units_increase(0x4380_0000, a as nat);
                }
                let v = self.value();
                assert(units(0x4380_0000) == 256 * one) by {
                    assert(0x80_0000 * pow2(134) == 256 * (pow2(134) * 0x8000));
                }
                let n = (2 * v + one) / (2 * one);
                assert(n >= 256) by (nonlinear_arith)
                    requires
                        n == (2 * v + one) / (2 * one),
                        v >= 256 * one,
                        one > 0,
                ;
            }
            return 255;
        }
        let (m, e): (u64, u32) = split_magnitude(a);
        let s: u32 = 149 - e;
        let p: u64 = power_of_two(s);
        let half: u64 = power_of_two(s - 1);
        proof {
            lemma_pow2_unfold(s as nat);
            if s < 23 {
                lemma_pow2_strictly_increases(s as nat, 23);
            }
            if s > 16 {
                lemma_pow2_strictly_increases(16, s as nat);
            }
        }
        let n: u64 = (m + half) / p;
        proof {
            let v = self.value();
            let step = pow2((e + 1) as nat) as int;
            lemma_pow2_pos((e + 1) as nat);
            lemma_pow2_unfold((e + 1) as nat);
            lemma_pow2_adds((e + 1) as nat, s as nat);
            lemma_pow2_adds((e + 1) as nat, (s - 1) as nat);
            assert(2 * v == m * step) by (nonlinear_arith)
                requires
                    v == m * pow2(e as nat),
                    step == 2 * pow2(e as nat),
            ;
            assert(2 * v + one == (m + half) * step) by (nonlinear_arith)
                requires
                    2 * v == m * step,
                    one == step * half,
            ;
            assert(pow2(150) == p * step) by (nonlinear_arith)
                requires
                    pow2(150) == step * p,
            ;
            vstd::arithmetic::div_mod::lemma_div_denominator(
                (m + half) * step,
                step,
                p as int,
            );
            vstd::arithmetic::div_mod::lemma_div_multiples_vanish((m + half) as int, step);
            assert((m + half) * step == step * (m + half)) by (nonlinear_arith);
            assert(step * p == p * step) by (nonlinear_arith);
            assert(m + half >= p) by {
                assert(p <= 0x80_0000);
            }
            assert(n >= 1) by (nonlinear_arith)
                requires
                    n == (m + half) / p as int,
                    m + half >= p,
                    p > 0,
            ;
            assert(n <= 256) by (nonlinear_arith)
                requires
                    n == (m + half) / p as int,
                    m + half < 257 * p,
                    p > 0,
            ;
        }
        if n > 255 {
            255
        } else {
            n as u8
        }
    }
}

/// The byte nearest to a number from one to 255 is no further from it than one
/// half. A number below stands for one, and a number above for 255.
pub proof fn law_nearest_byte_is_nearest(a: Float32)
    requires
        !a.nan(),
    ensures
        ({
            let one = pow2(149) as int;
            let n = nearest_byte(a);
            &&& 1 <= n <= 255
            &&& one <= a.value() <= 255 * one ==> {
                &&& 2 * (a.value() - n * one) <= one
                &&& 2 * (n * one - a.value()) <= one
            }
            &&& a.value() <= one ==> n == 1
            &&& a.value() >= 255 * one ==> n == 255
        }),
{
    let one = pow2(149) as int;
    let x = 2 * a.value() + one;
    let two = 2 * one;
    lemma_pow2_pos(149);
    lemma_pow2_unfold(150);
    let n = x / two;
    vstd::arithmetic::div_mod::lemma_fundamental_div_mod(x, two);
    let r = x % two;
    assert(two * n == 2 * (n * one)) by (nonlinear_arith)
        requires
            two == 2 * one,
    ;
    if n < 1 {
        assert(n * one <= 0) by (nonlinear_arith)
            requires
                n <= 0,
                one > 0,
        ;
    } else if n > 255 {
        assert(n * one >= 256 * one) by (nonlinear_arith)
            requires
                n >= 256,
                one > 0,
        ;
    } else if a.value() <= one {
        assert(n >= 2 ==> n * one >= 2 * one) by (nonlinear_arith)
            requires
                one > 0,
        ;
    } else if a.value() >= 255 * one {
        assert(n <= 254 ==> n * one <= 254 * one) by (nonlinear_arith)
            requires
                one > 0,
        ;
    }
}

} // verus!
