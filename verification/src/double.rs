//! Double-precision products, in whole numbers.
//!
//! Scale factors of monitors come in double precision. What is worked out from
//! them is a number of pixels, and it is rounded here as the hardware rounds it.

use vstd::arithmetic::power2::{
    lemma2_to64, lemma2_to64_rest, lemma_pow2_adds, lemma_pow2_pos, lemma_pow2_strictly_increases,
    lemma_pow2_unfold, pow2,
};
use vstd::prelude::*;

use crate::rounding::{
    apart, half_even, law_no_value_is_nearer, lemma_nearest_error, lemma_nearest_exact,
    lemma_nearest_monotone, lemma_nearest_scaled, lemma_nearest_shift, nearest,
};

verus! {

/// The units in one: how many times the smallest positive value goes into it.
pub open spec fn one_double() -> nat {
    pow2(1074)
}

/// The value nearest to a product of two values, in units.
pub open spec fn double_mul(a: nat, b: nat) -> nat {
    nearest(0x10_0000_0000_0000, a * b, one_double())
}

/// The whole part of a value.
pub open spec fn double_floor(v: nat) -> nat {
    v / one_double()
}

/// The natural number nearest to a value, a tie going up.
pub open spec fn double_round(v: nat) -> nat {
    (2 * v + one_double()) / (2 * one_double())
}

/// The exponent field of a bit pattern.
pub open spec fn exponent_field(bits: u64) -> nat {
    bits as nat / 0x10_0000_0000_0000 % 0x800
}

/// The fraction field of a bit pattern.
pub open spec fn fraction_field(bits: u64) -> nat {
    bits as nat % 0x10_0000_0000_0000
}

/// A bit pattern has its sign set.
pub open spec fn is_negative(bits: u64) -> bool {
    bits >= 0x8000_0000_0000_0000
}

/// A bit pattern is not one of a number.
pub open spec fn is_nan(bits: u64) -> bool {
    exponent_field(bits) == 0x7ff && fraction_field(bits) != 0
}

/// A bit pattern is one of an infinite value.
pub open spec fn is_infinite(bits: u64) -> bool {
    exponent_field(bits) == 0x7ff && fraction_field(bits) == 0
}

/// The units of a finite value, whatever its sign.
pub open spec fn magnitude(bits: u64) -> nat {
    let e = exponent_field(bits);
    if e == 0 {
        fraction_field(bits)
    } else {
        (fraction_field(bits) + 0x10_0000_0000_0000) * pow2((e - 1) as nat)
    }
}

/// The significand and the places of a finite value: the first times two to the
/// power of the second is its magnitude.
fn split(bits: u64) -> (r: (u64, u32))
    requires
        exponent_field(bits) < 0x7ff,
    ensures
        magnitude(bits) == r.0 * pow2(r.1 as nat),
        r.0 < 0x20_0000_0000_0000,
        r.1 <= 2045,
        r.0 >= 0x10_0000_0000_0000 || r.1 == 0,
{
    let e: u64 = bits / 0x10_0000_0000_0000 % 0x800;
    let f: u64 = bits % 0x10_0000_0000_0000;
    if e == 0 {
        proof {
            lemma2_to64();
            assert(f * 1 == f);
        }
        (f, 0)
    } else {
        (f + 0x10_0000_0000_0000, (e - 1) as u32)
    }
}

/// Two to a power.
fn power(e: u32) -> (r: u128)
    requires
        e < 128,
    ensures
        r == pow2(e as nat),
{
    let mut r: u128 = 1;
    let mut i: u32 = 0;
    proof {
        lemma2_to64();
        lemma_pow2_adds(64, 64);
        assert(0x1_0000_0000_0000_0000 * 0x1_0000_0000_0000_0000
            == 0x1_0000_0000_0000_0000_0000_0000_0000_0000) by (nonlinear_arith);
    }
    while i < e
        invariant
            i <= e < 128,
            r == pow2(i as nat),
            pow2(128) == 0x1_0000_0000_0000_0000_0000_0000_0000_0000,
        decreases e - i,
    {
        proof {
            lemma_pow2_unfold((i + 1) as nat);
            if i + 1 < 128 {
                lemma_pow2_strictly_increases((i + 1) as nat, 128);
            }
        }
        r = r * 2;
        i = i + 1;
    }
    r
}

/// A product of two values, rounded: its significand, and its places counted from
/// those of one. `None` stands for a product of at most a quarter.
fn rounded_product(s1: u64, k1: u32, s2: u64, k2: u32) -> (r: Option<(u64, i32)>)
    requires
        s1 < 0x20_0000_0000_0000,
        s2 < 0x20_0000_0000_0000,
        k1 <= 2045,
        k2 <= 2045,
        s1 * s2 >= 0x10_0000_0000_0000 || k1 + k2 <= 2045,
    ensures
        match r {
            Some((m, f)) => {
                &&& -108 <= f <= 2000
                &&& 0x10_0000_0000_0000 <= m <= 0x20_0000_0000_0000
                &&& double_mul(s1 as nat * pow2(k1 as nat), s2 as nat * pow2(k2 as nat)) == m
                    * pow2((1074 + f) as nat)
            },
            None => 4 * double_mul(s1 as nat * pow2(k1 as nat), s2 as nat * pow2(k2 as nat))
                <= one_double(),
        },
{
    proof {
        assert(s1 * s2 < 0x20_0000_0000_0000 * 0x20_0000_0000_0000) by (nonlinear_arith)
            requires
                0 <= s1 < 0x20_0000_0000_0000,
                0 <= s2 < 0x20_0000_0000_0000,
        ;
    }
    let p: u128 = s1 as u128 * s2 as u128;
    let k: u32 = k1 + k2;
    let ghost a = s1 as nat * pow2(k1 as nat);
    let ghost b = s2 as nat * pow2(k2 as nat);
    proof {
        lemma_product(s1 as nat, k1 as nat, s2 as nat, k2 as nat);
    }
    if k < 2040 || p < 0x10_0000_0000_0000 {
        proof {
            lemma_tiny(p as nat, k as nat);
        }
        return None;
    }
    let mut d: u128 = 1;
    let mut t: u32 = 0;
    proof {
        lemma2_to64();
        lemma_full(p as nat, k as nat);
        assert(nearest(0x10_0000_0000_0000, p as nat, 1) * 1 == nearest(
            0x10_0000_0000_0000,
            p as nat,
            1,
        ));
    }
    let ghost goal = nearest(0x10_0000_0000_0000, p as nat, 1);
    while p >= 2 * (d * 0x10_0000_0000_0000)
        invariant
            p < 0x20_0000_0000_0000 * 0x20_0000_0000_0000,
            0 < d <= 0x40_0000_0000_0000,
            p >= d * 0x10_0000_0000_0000,
            t <= 54,
            d == pow2(t as nat),
            goal == nearest(0x10_0000_0000_0000, p as nat, d as nat) * pow2(t as nat),
        decreases p - d,
    {
        proof {
            lemma_pow2_unfold((t + 1) as nat);
            let q = pow2(t as nat);
            let m = nearest(0x10_0000_0000_0000, p as nat, (2 * d) as nat);
            assert((2 * m) * q == m * (2 * q)) by (nonlinear_arith);
            if t >= 54 {
                lemma2_to64_rest();
            }
        }
        d = d * 2;
        t = t + 1;
    }
    let low: u128 = p / d;
    let rest: u128 = p % d;
    let m: u128 = if 2 * rest < d || (2 * rest == d && low % 2 == 0) {
        low
    } else {
        low + 1
    };
    proof {
        assert(m == half_even(p as nat, d as nat));
        lemma_full_significand(p as nat, d as nat);
        lemma_pow2_adds(t as nat, (k - 1074) as nat);
        let q = pow2(t as nat);
        let w = pow2((k - 1074) as nat);
        assert((m * q) * w == m * (q * w)) by (nonlinear_arith);
    }
    let f: i32 = t as i32 + k as i32 - 2148;
    Some((m as u64, f))
}

proof fn lemma_product(s1: nat, k1: nat, s2: nat, k2: nat)
    ensures
        (s1 * pow2(k1)) * (s2 * pow2(k2)) == (s1 * s2) * pow2(k1 + k2),
{
    lemma_pow2_adds(k1, k2);
    let p = pow2(k1);
    let q = pow2(k2);
    assert((s1 * p) * (s2 * q) == (s1 * s2) * (p * q)) by (nonlinear_arith);
}

proof fn lemma_tiny(p: nat, k: nat)
    requires
        p < 0x20_0000_0000_0000 * 0x20_0000_0000_0000,
        k < 2040 || p < 0x10_0000_0000_0000,
        p >= 0x10_0000_0000_0000 || k <= 2045,
    ensures
        4 * nearest(0x10_0000_0000_0000, p * pow2(k), one_double()) <= one_double(),
{
    lemma2_to64();
    lemma2_to64_rest();
    lemma_pow2_pos(k);
    lemma_pow2_pos(1074);
    lemma_pow2_adds(53, 53);
    lemma_pow2_adds(106, 2039);
    lemma_pow2_adds(52, 2045);
    lemma_pow2_strictly_increases(2097, 2145);
    lemma_pow2_strictly_increases(2145, 2146);
    lemma_pow2_adds(1072, 1074);
    if k < 2040 {
        if k < 2039 {
            lemma_pow2_strictly_increases(k, 2039);
        }
        assert(p * pow2(k) <= pow2(106) * pow2(2039)) by (nonlinear_arith)
            requires
                p <= pow2(106),
                pow2(k) <= pow2(2039),
        ;
    } else {
        if k < 2045 {
            lemma_pow2_strictly_increases(k, 2045);
        }
        assert(p * pow2(k) <= pow2(52) * pow2(2045)) by (nonlinear_arith)
            requires
                p <= pow2(52),
                pow2(k) <= pow2(2045),
        ;
    }
    assert(p * pow2(k) <= pow2(1072) * one_double());
    lemma_nearest_exact(0x10_0000_0000_0000, 1, 1072, one_double());
    lemma_nearest_monotone(
        0x10_0000_0000_0000,
        p * pow2(k),
        pow2(1072) * one_double(),
        one_double(),
    );
    lemma_pow2_unfold(1073);
    lemma_pow2_unfold(1074);
}

proof fn lemma_full(p: nat, k: nat)
    requires
        p >= 0x10_0000_0000_0000,
        k >= 1074,
    ensures
        nearest(0x10_0000_0000_0000, p * pow2(k), one_double()) == nearest(
            0x10_0000_0000_0000,
            p,
            1,
        ) * pow2((k - 1074) as nat),
{
    let up = (k - 1074) as nat;
    let o = one_double();
    lemma_pow2_pos(1074);
    lemma_pow2_adds(up, 1074);
    let n = p * pow2(up);
    assert(p * pow2(k) == o * n) by (nonlinear_arith)
        requires
            pow2(k) == pow2(up) * o,
            n == p * pow2(up),
    ;
    assert(o * 1 == o);
    lemma_nearest_scaled(0x10_0000_0000_0000, n, 1, o);
    lemma_nearest_shift(0x10_0000_0000_0000, p, 1, up);
}

proof fn lemma_full_significand(n: nat, d: nat)
    requires
        d > 0,
        n < 2 * (d * 0x10_0000_0000_0000),
        n >= d * 0x10_0000_0000_0000,
    ensures
        0x10_0000_0000_0000 <= half_even(n, d) <= 0x20_0000_0000_0000,
{
    lemma2_to64();
    lemma_nearest_exact(0x10_0000_0000_0000, 0x10_0000_0000_0000, 0, d);
    lemma_nearest_exact(0x10_0000_0000_0000, 0x10_0000_0000_0000, 1, d);
    assert(0x10_0000_0000_0000 * pow2(0) == 0x10_0000_0000_0000);
    assert(0x10_0000_0000_0000 * pow2(1) == 0x20_0000_0000_0000);
    lemma_nearest_monotone(0x10_0000_0000_0000, n, 0x20_0000_0000_0000 * d, d);
    lemma_nearest_monotone(0x10_0000_0000_0000, 0x10_0000_0000_0000 * d, n, d);
}

/// The whole part of `m` times two to the power of `f`, or the largest `u32`
/// where that is smaller.
fn floor_of(m: u64, f: i32) -> (r: u32)
    requires
        -108 <= f <= 2000,
        0x10_0000_0000_0000 <= m <= 0x20_0000_0000_0000,
    ensures
        r == capped(double_floor(m as nat * pow2((1074 + f) as nat))),
{
    if f >= 0 {
        proof {
            lemma_large(m as nat, f as nat);
        }
        return u32::MAX;
    }
    let drop: u32 = (-f) as u32;
    proof {
        lemma_floor_down(m as nat, drop as nat);
        lemma_pow2_pos(drop as nat);
    }
    let whole: u128 = m as u128 / power(drop);
    if whole <= u32::MAX as u128 {
        whole as u32
    } else {
        u32::MAX
    }
}

/// The natural number nearest to `m` times two to the power of `f`, a tie going
/// up, or the largest `u32` where that is smaller.
fn round_of(m: u64, f: i32) -> (r: u32)
    requires
        -108 <= f <= 2000,
        0x10_0000_0000_0000 <= m <= 0x20_0000_0000_0000,
    ensures
        r == capped(double_round(m as nat * pow2((1074 + f) as nat))),
{
    if f >= 0 {
        proof {
            lemma_large(m as nat, f as nat);
        }
        return u32::MAX;
    }
    let drop: u32 = (-f) as u32;
    proof {
        lemma_round_down(m as nat, drop as nat);
        lemma_pow2_pos(drop as nat);
        lemma2_to64();
        if drop < 108 {
            lemma_pow2_strictly_increases(drop as nat, 108);
        }
        lemma_pow2_adds(64, 44);
        lemma2_to64_rest();
    }
    let half: u128 = power(drop);
    let whole: u128 = (2 * m as u128 + half) / (2 * half);
    if whole <= u32::MAX as u128 {
        whole as u32
    } else {
        u32::MAX
    }
}

/// A natural number, or the largest `u32` where that is smaller.
pub open spec fn capped(n: nat) -> nat {
    if n <= u32::MAX {
        n
    } else {
        u32::MAX as nat
    }
}

proof fn lemma_large(m: nat, f: nat)
    requires
        m >= 0x10_0000_0000_0000,
    ensures
        double_floor(m * pow2(1074 + f)) > u32::MAX,
        double_round(m * pow2(1074 + f)) > u32::MAX,
{
    let o = one_double();
    lemma_pow2_pos(1074);
    lemma_pow2_pos(f);
    lemma_pow2_adds(1074, f);
    let v = m * pow2(1074 + f);
    assert(v >= 0x1_0000_0000 * o) by (nonlinear_arith)
        requires
            v == m * pow2(1074 + f),
            pow2(1074 + f) == o * pow2(f),
            pow2(f) >= 1,
            m >= 0x1_0000_0000,
    ;
    assert(v / o >= 0x1_0000_0000 && (2 * v + o) / (2 * o) >= 0x1_0000_0000) by (nonlinear_arith)
        requires
            v >= 0x1_0000_0000 * o,
            o > 0,
    ;
}

proof fn lemma_floor_down(m: nat, drop: nat)
    requires
        drop <= 1074,
    ensures
        double_floor(m * pow2((1074 - drop) as nat)) == m / pow2(drop),
{
    let p = pow2((1074 - drop) as nat);
    let h = pow2(drop);
    lemma_pow2_pos((1074 - drop) as nat);
    lemma_pow2_pos(drop);
    lemma_pow2_adds((1074 - drop) as nat, drop);
    vstd::arithmetic::div_mod::lemma_div_multiples_vanish_quotient(p as int, m as int, h as int);
    assert(p * m == m * p) by (nonlinear_arith);
}

proof fn lemma_round_down(m: nat, drop: nat)
    requires
        drop <= 1074,
    ensures
        double_round(m * pow2((1074 - drop) as nat)) == (2 * m + pow2(drop)) / (2 * pow2(drop)),
{
    let p = pow2((1074 - drop) as nat);
    let h = pow2(drop);
    lemma_pow2_pos((1074 - drop) as nat);
    lemma_pow2_pos(drop);
    lemma_pow2_adds((1074 - drop) as nat, drop);
    let a = 2 * m + h;
    let d = 2 * h;
    vstd::arithmetic::div_mod::lemma_div_multiples_vanish_quotient(p as int, a as int, d as int);
    assert(p * a == 2 * (m * p) + p * h) by (nonlinear_arith)
        requires
            a == 2 * m + h,
    ;
    assert(p * d == 2 * (p * h)) by (nonlinear_arith)
        requires
            d == 2 * h,
    ;
}

proof fn lemma_quarter(v: nat)
    requires
        4 * v <= one_double(),
    ensures
        double_floor(v) == 0,
        double_round(v) == 0,
{
    let o = one_double();
    lemma_pow2_pos(1074);
    assert(v / o == 0 && (2 * v + o) / (2 * o) == 0) by (nonlinear_arith)
        requires
            4 * v <= o,
            o > 0,
    ;
}

/// A whole number of pixels times a scale factor of the given bits, without its
/// fraction: what does not fit is the nearest `i32`, and what is not a number is
/// zero.
pub open spec fn scaled_pixels(pixels: u32, scale: u64) -> int {
    if pixels == 0 || is_nan(scale) {
        0
    } else if is_infinite(scale) {
        if is_negative(scale) {
            i32::MIN as int
        } else {
            i32::MAX as int
        }
    } else {
        let whole = double_floor(double_mul(pixels as nat * one_double(), magnitude(scale)));
        if is_negative(scale) {
            if whole <= 0x8000_0000 {
                -whole
            } else {
                i32::MIN as int
            }
        } else if whole <= i32::MAX {
            whole as int
        } else {
            i32::MAX as int
        }
    }
}

/// A whole number of pixels times a scale factor, without its fraction. `scale`
/// is the bit pattern of the factor.
pub fn scale_pixels(pixels: u32, scale: u64) -> (r: i32)
    ensures
        r == scaled_pixels(pixels, scale),
{
    let exponent: u64 = scale / 0x10_0000_0000_0000 % 0x800;
    let fraction: u64 = scale % 0x10_0000_0000_0000;
    let negative: bool = scale >= 0x8000_0000_0000_0000;
    if pixels == 0 || (exponent == 0x7ff && fraction != 0) {
        return 0;
    }
    if exponent == 0x7ff {
        return if negative {
            i32::MIN
        } else {
            i32::MAX
        };
    }
    let (sig, places) = split(scale);
    proof {
        if places > 0 {
            assert(pixels * sig >= 0x10_0000_0000_0000) by (nonlinear_arith)
                requires
                    pixels >= 1,
                    sig >= 0x10_0000_0000_0000,
            ;
        }
    }
    let whole: u32 = match rounded_product(pixels as u64, 1074, sig, places) {
        Some((m, f)) => floor_of(m, f),
        None => {
            proof {
                lemma_quarter(double_mul(pixels as nat * one_double(), magnitude(scale)));
            }
            0
        },
    };
    if negative {
        if whole <= 0x7fff_ffff {
            -(whole as i32)
        } else {
            i32::MIN
        }
    } else if whole <= 0x7fff_ffff {
        whole as i32
    } else {
        i32::MAX
    }
}

/// A length in points times the pixels in a point, to the nearest pixel: what
/// does not fit is the nearest `u32`, and what is not a number is zero.
pub open spec fn physical_side(points: u64, scale: u64) -> nat {
    if is_nan(points) || is_nan(scale) || is_negative(points) != is_negative(scale) {
        0
    } else if is_infinite(points) {
        if magnitude(scale) == 0 {
            0
        } else {
            u32::MAX as nat
        }
    } else if is_infinite(scale) {
        if magnitude(points) == 0 {
            0
        } else {
            u32::MAX as nat
        }
    } else {
        capped(double_round(double_mul(magnitude(points), magnitude(scale))))
    }
}

/// A length in points times the pixels in a point, to the nearest pixel, from the
/// bit patterns of both.
pub fn to_physical(points: u64, scale: u64) -> (r: u32)
    ensures
        r == physical_side(points, scale),
{
    let points_field: u64 = points / 0x10_0000_0000_0000 % 0x800;
    let scale_field: u64 = scale / 0x10_0000_0000_0000 % 0x800;
    let points_fraction: u64 = points % 0x10_0000_0000_0000;
    let scale_fraction: u64 = scale % 0x10_0000_0000_0000;
    if (points_field == 0x7ff && points_fraction != 0) || (scale_field == 0x7ff && scale_fraction
        != 0) {
        return 0;
    }
    if (points >= 0x8000_0000_0000_0000) != (scale >= 0x8000_0000_0000_0000) {
        return 0;
    }
    proof {
        lemma_zero(points);
        lemma_zero(scale);
    }
    if points_field == 0x7ff {
        return if scale_field == 0 && scale_fraction == 0 {
            0
        } else {
            u32::MAX
        };
    }
    if scale_field == 0x7ff {
        return if points_field == 0 && points_fraction == 0 {
            0
        } else {
            u32::MAX
        };
    }
    let (s1, k1) = split(points);
    let (s2, k2) = split(scale);
    proof {
        if k1 > 0 && k2 > 0 {
            assert(s1 * s2 >= 0x10_0000_0000_0000) by (nonlinear_arith)
                requires
                    s1 >= 0x10_0000_0000_0000,
                    s2 >= 0x10_0000_0000_0000,
            ;
        }
    }
    match rounded_product(s1, k1, s2, k2) {
        Some((m, f)) => round_of(m, f),
        None => {
            proof {
                lemma_quarter(double_mul(magnitude(points), magnitude(scale)));
            }
            0
        },
    }
}

proof fn lemma_zero(bits: u64)
    ensures
        magnitude(bits) == 0 <==> exponent_field(bits) == 0 && fraction_field(bits) == 0,
{
    let e = exponent_field(bits);
    if e > 0 {
        let p = pow2((e - 1) as nat);
        lemma_pow2_pos((e - 1) as nat);
        assert((fraction_field(bits) + 0x10_0000_0000_0000) * p > 0) by (nonlinear_arith)
            requires
                p > 0,
        ;
    }
}

/// A bit pattern without its sign.
pub open spec fn unsigned(bits: u64) -> u64 {
    if bits >= 0x8000_0000_0000_0000 {
        (bits - 0x8000_0000_0000_0000) as u64
    } else {
        bits
    }
}

/// The sign changes nothing about a magnitude. Without the sign it grows with the
/// pattern: by one unit up to the first full significands, and from there by two to the
/// power of how often the exponent grew. A pattern with an exponent one higher has twice
/// the magnitude.
pub proof fn law_magnitudes_are_in_order(bits: u64)
    requires
        unsigned(bits) < 0x7ff0_0000_0000_0000,
    ensures
        !is_nan(bits) && !is_infinite(bits),
        magnitude(bits) == magnitude(unsigned(bits)),
        magnitude(0) == 0,
        ({
            let plain = unsigned(bits);
            &&& plain + 1 < 0x7ff0_0000_0000_0000 ==> {
                &&& plain < 0x20_0000_0000_0000 ==> magnitude((plain + 1) as u64) == magnitude(
                    plain,
                ) + 1
                &&& plain >= 0x10_0000_0000_0000 ==> magnitude((plain + 1) as u64) == magnitude(
                    plain,
                ) + pow2((plain as nat / 0x10_0000_0000_0000 - 1) as nat)
            }
            &&& 0x10_0000_0000_0000 <= plain && plain + 0x10_0000_0000_0000 < 0x7ff0_0000_0000_0000
                ==> magnitude((plain + 0x10_0000_0000_0000) as u64) == 2 * magnitude(plain)
        }),
{
    lemma2_to64();
    let plain = unsigned(bits);
    let e = plain as nat / 0x10_0000_0000_0000;
    let f = plain as nat % 0x10_0000_0000_0000;
    assert(exponent_field(bits) == e && fraction_field(bits) == f);
    assert(exponent_field(plain) == e && fraction_field(plain) == f);
    if plain >= 0x10_0000_0000_0000 {
        lemma_pow2_unfold(e);
        let p = pow2((e - 1) as nat);
        let m = f + 0x10_0000_0000_0000;
        assert((m + 1) * p == m * p + p && m * (2 * p) == 2 * (m * p)) by (nonlinear_arith);
        if f + 1 == 0x10_0000_0000_0000 {
            assert(0x10_0000_0000_0000 * (2 * p) == (m + 1) * p) by (nonlinear_arith)
                requires
                    m + 1 == 0x20_0000_0000_0000,
            ;
        }
    }
    if plain < 0x10_0000_0000_0000 && f + 1 == 0x10_0000_0000_0000 {
        assert(0x10_0000_0000_0000 * pow2(0) == 0x10_0000_0000_0000);
    }
    if 0x10_0000_0000_0000 <= plain < 0x20_0000_0000_0000 {
        assert(pow2((e - 1) as nat) == 1);
    }
}

/// Beyond the finite patterns there is infinity, and what is not a number lies beyond
/// that.
pub proof fn law_patterns_beyond_the_finite(bits: u64)
    ensures
        is_infinite(bits) <==> unsigned(bits) == 0x7ff0_0000_0000_0000,
        is_nan(bits) <==> unsigned(bits) > 0x7ff0_0000_0000_0000,
        is_negative(bits) <==> bits != unsigned(bits),
{
}

/// A pattern of nothing but an exponent is one of a power of two.
pub proof fn law_powers_of_two_have_no_fraction(exponent: u64)
    requires
        1 <= exponent < 0x7ff,
    ensures
        magnitude((exponent * 0x10_0000_0000_0000) as u64) == pow2((exponent + 51) as nat),
{
    let bits = (exponent * 0x10_0000_0000_0000) as u64;
    assert(exponent_field(bits) == exponent && fraction_field(bits) == 0);
    lemma2_to64_rest();
    lemma_pow2_adds(52, (exponent - 1) as nat);
}

/// A product is taken to the value that is nearest to it: no other one with a 53-bit
/// significand is nearer.
pub proof fn law_double_product_is_nearest(a: nat, b: nat, sig: nat, places: nat)
    requires
        sig < 0x20_0000_0000_0000,
    ensures
        apart((double_mul(a, b) * pow2(1074)) as int, (a * b) as int) <= apart(
            (sig * pow2(places) * pow2(1074)) as int,
            (a * b) as int,
        ),
{
    lemma_pow2_pos(1074);
    law_no_value_is_nearer(0x10_0000_0000_0000, a * b, one_double(), sig, places);
}

proof fn lemma_product_error(a: nat, b: nat)
    requires
        a * b >= one_double() * 0x10_0000_0000_0000,
    ensures
        0x20_0000_0000_0000 * (double_mul(a, b) * one_double()) <= 0x20_0000_0000_0001 * (a * b),
        0x1f_ffff_ffff_ffff * (a * b) <= 0x20_0000_0000_0000 * (double_mul(a, b) * one_double()),
{
    lemma_pow2_pos(1074);
    lemma_nearest_error(0x10_0000_0000_0000, a * b, one_double());
}

/// Pixels without number, or times a factor that is not a number, are none. Times an
/// infinite factor they are as many as can be counted on its side.
pub proof fn law_pixels_times_no_number(pixels: u32, scale: u64)
    ensures
        pixels == 0 || unsigned(scale) > 0x7ff0_0000_0000_0000 ==> scaled_pixels(pixels, scale)
            == 0,
        pixels > 0 && scale == 0x7ff0_0000_0000_0000 ==> scaled_pixels(pixels, scale)
            == 0x7fff_ffff,
        pixels > 0 && scale == 0xfff0_0000_0000_0000 ==> scaled_pixels(pixels, scale)
            == -0x8000_0000,
{
    law_patterns_beyond_the_finite(scale);
}

/// A negative factor gives as many pixels as the positive one, with the sign turned, as
/// far as they can be counted.
pub proof fn law_sign_turns_pixels(pixels: u32, scale: u64)
    requires
        scale < 0x8000_0000_0000_0000,
    ensures
        ({
            let there = scaled_pixels(pixels, scale);
            let back = scaled_pixels(pixels, (scale + 0x8000_0000_0000_0000) as u64);
            &&& 0 <= there <= 0x7fff_ffff
            &&& back == -there || there == 0x7fff_ffff && back == -0x8000_0000
        }),
{
    let turned = (scale + 0x8000_0000_0000_0000) as u64;
    law_patterns_beyond_the_finite(scale);
    law_patterns_beyond_the_finite(turned);
    assert(unsigned(turned) == scale);
    if scale < 0x7ff0_0000_0000_0000 {
        law_magnitudes_are_in_order(turned);
    }
}

/// Pixels times a finite factor that is not negative are the product without its
/// fraction, up to one part in two to the power of 53, as far as they can be counted.
pub proof fn law_scaled_pixels_are_the_product(pixels: u32, scale: u64)
    requires
        0x10_0000_0000_0000 <= scale < 0x7ff0_0000_0000_0000,
        pixels > 0,
    ensures
        ({
            let o = pow2(1074);
            let product = pixels * magnitude(scale);
            let r = scaled_pixels(pixels, scale);
            &&& 0 <= r <= 0x7fff_ffff
            &&& 0x20_0000_0000_0000 * (r * o) <= 0x20_0000_0000_0001 * product
            &&& 0x1f_ffff_ffff_ffff * product < 0x20_0000_0000_0000 * (r * o + o) || r
                == 0x7fff_ffff
        }),
{
    let o = one_double();
    let m = magnitude(scale);
    lemma_pow2_pos(1074);
    law_patterns_beyond_the_finite(scale);
    lemma_normal(scale);
    let a = pixels as nat * o;
    assert(a * m == o * (pixels * m)) by (nonlinear_arith)
        requires
            a == pixels * o,
    ;
    let product = pixels * m;
    assert(product >= 0x10_0000_0000_0000 && a * m >= o * 0x10_0000_0000_0000) by (nonlinear_arith)
        requires
            product == pixels * m,
            a * m == o * product,
            pixels >= 1,
            m >= 0x10_0000_0000_0000,
            o > 0,
    ;
    lemma_product_error(a, m);
    let v = double_mul(a, m);
    let whole = double_floor(v);
    assert(whole * o <= v && v < whole * o + o) by (nonlinear_arith)
        requires
            whole == v / o,
            o > 0,
    ;
    assert(0x20_0000_0000_0000 * v <= 0x20_0000_0000_0001 * product) by (nonlinear_arith)
        requires
            0x20_0000_0000_0000 * (v * o) <= 0x20_0000_0000_0001 * (o * product),
            o > 0,
    ;
    assert(0x1f_ffff_ffff_ffff * product <= 0x20_0000_0000_0000 * v) by (nonlinear_arith)
        requires
            0x1f_ffff_ffff_ffff * (o * product) <= 0x20_0000_0000_0000 * (v * o),
            o > 0,
    ;
    let r = scaled_pixels(pixels, scale);
    assert(r * o <= whole * o) by (nonlinear_arith)
        requires
            r <= whole,
            o > 0,
    ;
}

proof fn lemma_normal(bits: u64)
    requires
        0x10_0000_0000_0000 <= unsigned(bits) < 0x7ff0_0000_0000_0000,
    ensures
        magnitude(bits) >= 0x10_0000_0000_0000,
{
    let e = exponent_field(bits);
    let p = pow2((e - 1) as nat);
    let m = fraction_field(bits) + 0x10_0000_0000_0000;
    lemma_pow2_pos((e - 1) as nat);
    assert(m * p >= 0x10_0000_0000_0000) by (nonlinear_arith)
        requires
            m >= 0x10_0000_0000_0000,
            p >= 1,
    ;
}

proof fn lemma_whole_product(m: nat, k: nat)
    requires
        m * k < 0x20_0000_0000_0000,
    ensures
        double_mul(m * one_double(), k * one_double()) == m * k * one_double(),
        double_floor(m * k * one_double()) == m * k,
        double_round(m * k * one_double()) == m * k,
{
    let o = one_double();
    let x = m * k;
    lemma_pow2_pos(1074);
    assert((m * o) * (k * o) == x * o * o) by (nonlinear_arith)
        requires
            x == m * k,
    ;
    lemma_nearest_exact(0x10_0000_0000_0000, x, 1074, o);
    assert((x * o) / o == x && (2 * (x * o) + o) / (2 * o) == x) by (nonlinear_arith)
        requires
            o > 0,
    ;
}

/// Times a whole factor pixels are multiplied by it, with nothing lost.
pub proof fn law_whole_factor_multiplies_pixels(pixels: u32, scale: u64, k: nat)
    requires
        scale < 0x7ff0_0000_0000_0000,
        magnitude(scale) == k * pow2(1074),
        pixels * k <= 0x7fff_ffff,
    ensures
        scaled_pixels(pixels, scale) == pixels * k,
{
    law_patterns_beyond_the_finite(scale);
    lemma_whole_product(pixels as nat, k);
    if pixels == 0 {
        assert(0 * k == 0);
    }
}

/// A length in points and the pixels in a point can change places.
pub proof fn law_points_and_factor_commute(points: u64, scale: u64)
    ensures
        physical_side(points, scale) == physical_side(scale, points),
{
    lemma_zero(points);
    lemma_zero(scale);
    assert(magnitude(points) * magnitude(scale) == magnitude(scale) * magnitude(points))
        by (nonlinear_arith);
}

/// A length is none where a factor is not a number or the two differ in their sign. Of
/// an infinite one it is as much as can be counted, but for nothing times infinity.
pub proof fn law_length_of_no_number(points: u64, scale: u64)
    ensures
        unsigned(points) > 0x7ff0_0000_0000_0000 || unsigned(scale) > 0x7ff0_0000_0000_0000 || (
        points < 0x8000_0000_0000_0000) != (scale < 0x8000_0000_0000_0000) ==> physical_side(
            points,
            scale,
        ) == 0,
        points < 0x8000_0000_0000_0000 && scale == 0x7ff0_0000_0000_0000 ==> {
            &&& points == 0 ==> physical_side(points, scale) == 0
            &&& 0 < points <= 0x7ff0_0000_0000_0000 ==> physical_side(points, scale) == 0xffff_ffff
        },
{
    law_patterns_beyond_the_finite(points);
    law_patterns_beyond_the_finite(scale);
    lemma_zero(points);
    lemma_zero(scale);
}

/// Two signs that are alike cancel out.
pub proof fn law_like_signs_cancel(points: u64, scale: u64)
    requires
        points < 0x8000_0000_0000_0000,
        scale < 0x8000_0000_0000_0000,
    ensures
        physical_side(
            (points + 0x8000_0000_0000_0000) as u64,
            (scale + 0x8000_0000_0000_0000) as u64,
        ) == physical_side(points, scale),
{
    let p = (points + 0x8000_0000_0000_0000) as u64;
    let s = (scale + 0x8000_0000_0000_0000) as u64;
    assert(exponent_field(p) == exponent_field(points));
    assert(fraction_field(p) == fraction_field(points));
    assert(exponent_field(s) == exponent_field(scale));
    assert(fraction_field(s) == fraction_field(scale));
}

/// A length of finite points is the product to the nearest pixel, up to one part in two
/// to the power of 53, as far as it can be counted.
pub proof fn law_length_is_the_product(points: u64, scale: u64)
    requires
        points < 0x7ff0_0000_0000_0000,
        scale < 0x7ff0_0000_0000_0000,
        magnitude(points) * magnitude(scale) >= pow2(1074) * 0x10_0000_0000_0000,
    ensures
        ({
            let o = pow2(1074);
            let product = magnitude(points) * magnitude(scale);
            let r = physical_side(points, scale);
            &&& r <= 0xffff_ffff
            &&& 0x40_0000_0000_0000 * (r * o * o) <= 0x40_0000_0000_0002 * product
                + 0x20_0000_0000_0000 * (o * o)
            &&& 0x3f_ffff_ffff_fffe * product < 0x40_0000_0000_0000 * (r * o * o)
                + 0x20_0000_0000_0000 * (o * o) || r == 0xffff_ffff
        }),
{
    let o = one_double();
    let product = magnitude(points) * magnitude(scale);
    lemma_pow2_pos(1074);
    law_patterns_beyond_the_finite(points);
    law_patterns_beyond_the_finite(scale);
    lemma_product_error(magnitude(points), magnitude(scale));
    let v = double_mul(magnitude(points), magnitude(scale));
    let whole = double_round(v);
    let r = physical_side(points, scale);
    assert(2 * (whole * o) <= 2 * v + o && 2 * v < 2 * (whole * o) + o) by (nonlinear_arith)
        requires
            whole == (2 * v + o) / (2 * o),
            o > 0,
    ;
    assert(2 * (whole * o * o) <= 2 * (v * o) + o * o && 2 * (v * o) < 2 * (whole * o * o) + o * o)
        by (nonlinear_arith)
        requires
            2 * (whole * o) <= 2 * v + o,
            2 * v < 2 * (whole * o) + o,
            o > 0,
    ;
    assert(r * o * o <= whole * o * o) by (nonlinear_arith)
        requires
            r <= whole,
            o > 0,
    ;
}

/// A length too small to be of full precision is none.
pub proof fn law_tiny_length_is_none(points: u64, scale: u64)
    requires
        points < 0x7ff0_0000_0000_0000,
        scale < 0x7ff0_0000_0000_0000,
        magnitude(points) * magnitude(scale) < pow2(1074) * 0x10_0000_0000_0000,
    ensures
        physical_side(points, scale) == 0,
{
    let o = one_double();
    lemma_pow2_pos(1074);
    law_patterns_beyond_the_finite(points);
    law_patterns_beyond_the_finite(scale);
    lemma2_to64_rest();
    let n = magnitude(points) * magnitude(scale);
    lemma_nearest_exact(0x10_0000_0000_0000, 1, 52, o);
    assert(n <= pow2(52) * o) by (nonlinear_arith)
        requires
            n < o * 0x10_0000_0000_0000,
            pow2(52) == 0x10_0000_0000_0000,
    ;
    lemma_nearest_monotone(0x10_0000_0000_0000, n, pow2(52) * o, o);
    lemma_pow2_strictly_increases(52, 1072);
    lemma_pow2_unfold(1073);
    lemma_pow2_unfold(1074);
    lemma_quarter(double_mul(magnitude(points), magnitude(scale)));
}

/// Whole points times a whole factor are multiplied, with nothing lost.
pub proof fn law_whole_points_are_multiplied(points: u64, scale: u64, m: nat, k: nat)
    requires
        points < 0x7ff0_0000_0000_0000,
        scale < 0x7ff0_0000_0000_0000,
        magnitude(points) == m * pow2(1074),
        magnitude(scale) == k * pow2(1074),
        m * k <= 0xffff_ffff,
    ensures
        physical_side(points, scale) == m * k,
{
    law_patterns_beyond_the_finite(points);
    law_patterns_beyond_the_finite(scale);
    lemma_whole_product(m, k);
}

/// Pixels times a factor too small to be of full precision are none.
pub proof fn law_pixels_times_a_tiny_factor(pixels: u32, scale: u64)
    requires
        unsigned(scale) < 0x10_0000_0000_0000,
    ensures
        scaled_pixels(pixels, scale) == 0,
{
    let o = one_double();
    let m = magnitude(scale);
    lemma_pow2_pos(1074);
    law_patterns_beyond_the_finite(scale);
    lemma2_to64_rest();
    let a = pixels as nat * o;
    lemma2_to64();
    lemma_pow2_adds(32, 52);
    assert(a * m <= pow2(84) * o) by (nonlinear_arith)
        requires
            a == pixels * o,
            pixels <= pow2(32),
            m <= pow2(52),
            pow2(84) == pow2(32) * pow2(52),
    ;
    lemma_nearest_exact(0x10_0000_0000_0000, 1, 84, o);
    lemma_nearest_monotone(0x10_0000_0000_0000, a * m, pow2(84) * o, o);
    lemma_pow2_strictly_increases(84, 1072);
    lemma_pow2_unfold(1073);
    lemma_pow2_unfold(1074);
    lemma_quarter(double_mul(a, m));
}

/// Pixels are multiplied by a whole factor as they are, and change their sign with it.
pub proof fn law_pixels_are_multiplied(
    pixels: u32,
    scale: u64,
    k: nat,
    there: i32,
    back: i32,
)
    requires
        scale < 0x7ff0_0000_0000_0000,
        magnitude(scale) == k * pow2(1074),
        pixels * k <= 0x7fff_ffff,
        call_ensures(scale_pixels, (pixels, scale), there),
        call_ensures(scale_pixels, (pixels, (scale + 0x8000_0000_0000_0000) as u64), back),
    ensures
        there == pixels * k,
        there < 0x7fff_ffff ==> back == -there,
{
    law_whole_factor_multiplies_pixels(pixels, scale, k);
    law_sign_turns_pixels(pixels, scale);
}

/// Whole points are multiplied by a whole factor as they are, in either order.
pub proof fn law_points_are_multiplied(
    points: u64,
    scale: u64,
    m: nat,
    k: nat,
    there: u32,
    back: u32,
)
    requires
        points < 0x7ff0_0000_0000_0000,
        scale < 0x7ff0_0000_0000_0000,
        magnitude(points) == m * pow2(1074),
        magnitude(scale) == k * pow2(1074),
        m * k <= 0xffff_ffff,
        call_ensures(to_physical, (points, scale), there),
        call_ensures(to_physical, (scale, points), back),
    ensures
        there == m * k,
        back == there,
{
    law_whole_points_are_multiplied(points, scale, m, k);
    law_points_and_factor_commute(points, scale);
}

} // verus!
