//! Single-precision arithmetic on non-negative finite values, in whole numbers.
//!
//! The operations round as the hardware's do, so sizes worked out here are the
//! sizes that single-precision arithmetic gives, to the last pixel.

use vstd::arithmetic::power2::{
    lemma2_to64, lemma_pow2_adds, lemma_pow2_pos, lemma_pow2_strictly_increases, lemma_pow2_unfold,
    pow2,
};
use vstd::prelude::*;

use crate::rounding::{
    apart, half_even, law_no_value_is_nearer, lemma_nearest_exact, lemma_nearest_monotone,
    lemma_nearest_scaled, lemma_nearest_shift, nearest,
};

verus! {

/// A quotient rounded to the nearest value with a 24-bit significand, in units.
pub open spec fn to_single(n: nat, d: nat) -> nat {
    nearest(0x80_0000, n, d)
}

/// The units in one: how many times the smallest positive value goes into it.
pub open spec fn one() -> nat {
    pow2(149)
}

/// The largest finite value, in units.
pub open spec fn max_finite() -> nat {
    0xff_ffff * pow2(253)
}

/// The value nearest to a natural number, in units.
pub open spec fn single_of(x: nat) -> nat {
    to_single(x * one(), 1)
}

/// The value nearest to a quotient of two values, in units.
pub open spec fn single_div(a: nat, b: nat) -> nat {
    to_single(a * one(), b)
}

/// The value nearest to a product of two values, in units.
pub open spec fn single_mul(a: nat, b: nat) -> nat {
    to_single(a * b, one())
}

/// The natural number nearest to a value, a tie going up.
pub open spec fn single_round(a: nat) -> nat {
    (2 * a + one()) / (2 * one())
}

/// A non-negative finite single-precision value.
///
/// It stands for `sig` times two to the power of `places`, in units. Below the
/// range of full significands `places` is zero; elsewhere the top bit of the
/// significand is set, so each value has one form.
#[derive(Clone, Copy, Debug, PartialEq, Eq, Structural)]
pub struct Single {
    sig: u32,
    places: u32,
}

impl Single {
    #[verifier::type_invariant]
    spec fn in_range(self) -> bool {
        &&& self.sig < 0x100_0000
        &&& self.places <= 253
        &&& self.places > 0 ==> self.sig >= 0x80_0000
    }

    /// The value, in units.
    pub closed spec fn units(self) -> nat {
        self.sig as nat * pow2(self.places as nat)
    }
}

proof fn lemma_mul_pow2_lt(sig: nat, places: nat, lower: nat, upper: nat)
    requires
        sig * pow2(places) >= pow2(lower),
        sig < pow2(upper),
    ensures
        places + upper > lower,
{
    if places + upper <= lower {
        lemma_pow2_adds(places, upper);
        lemma_pow2_pos(places);
        assert(sig * pow2(places) < pow2(places) * pow2(upper)) by (nonlinear_arith)
            requires
                sig < pow2(upper),
                pow2(places) > 0,
        ;
        if places + upper < lower {
            lemma_pow2_strictly_increases(places + upper, lower);
        }
    }
}

proof fn lemma_full_significand(n: nat, d: nat, k: nat)
    requires
        d > 0,
        n < d * 0x100_0000,
        k > 0 ==> n >= d * 0x80_0000,
    ensures
        half_even(n, d) <= 0x100_0000,
        k > 0 ==> half_even(n, d) >= 0x80_0000,
{
    lemma2_to64();
    lemma_nearest_exact(0x80_0000, 0x80_0000, 0, d);
    lemma_nearest_exact(0x80_0000, 0x80_0000, 1, d);
    assert(0x80_0000 * pow2(0) == 0x80_0000);
    assert(0x80_0000 * pow2(1) == 0x100_0000);
    lemma_nearest_monotone(0x80_0000, n, 0x100_0000 * d, d);
    if k > 0 {
        lemma_nearest_monotone(0x80_0000, 0x80_0000 * d, n, d);
    }
}

proof fn lemma_finite_places(whole: nat, den: nat, up: nat, k: nat)
    requires
        den > 0,
        whole <= den * max_finite(),
        to_single(whole, den) == up * pow2(k),
        up <= 0x100_0000,
        k > 0 ==> up >= 0x80_0000,
    ensures
        k <= 253,
        up == 0x100_0000 ==> k < 253,
{
    lemma2_to64();
    lemma_nearest_exact(0x80_0000, 0xff_ffff, 253, den);
    assert(den * max_finite() == max_finite() * den) by (nonlinear_arith);
    lemma_nearest_monotone(0x80_0000, whole, max_finite() * den, den);
    let top: nat = if up == 0x100_0000 { 24 } else { 23 };
    lemma_pow2_pos(k);
    lemma_pow2_pos(253);
    if k > 0 || up == 0x100_0000 {
        assert(pow2(23) == 0x80_0000 && pow2(24) == 0x100_0000);
        lemma_pow2_adds(top, k);
        lemma_pow2_adds(24, 253);
        assert(pow2(top) * pow2(k) <= up * pow2(k)) by (nonlinear_arith)
            requires
                pow2(top) <= up,
                pow2(k) > 0,
        ;
        if top + k >= 277 {
            if top + k > 277 {
                lemma_pow2_strictly_increases(277, top + k);
            }
        }
    }
}

/// Rounds `num * 2^places / den` units.
fn round_quotient(num: u64, den: u64, places: u32) -> (r: Single)
    requires
        0 < den <= 0x2_0000_0000,
        num < 0x1_0000_0000_0000,
        places <= 1000,
        num * pow2(places as nat) <= den * max_finite(),
    ensures
        r.units() == to_single((num * pow2(places as nat)) as nat, den as nat),
{
    let mut n: u64 = num;
    let mut d: u64 = den;
    let mut k: u32 = places;
    let ghost whole = (num * pow2(places as nat)) as nat;
    let ghost goal = to_single(whole, den as nat);
    while k > 0 && n < d * 0x80_0000
        invariant
            d == den,
            0 < den <= 0x2_0000_0000,
            n < 0x1_0000_0000_0000 || n < d * 0x100_0000,
            k <= 1000,
            n * pow2(k as nat) == whole,
        decreases k,
    {
        proof {
            lemma_pow2_unfold(k as nat);
            let p = pow2((k - 1) as nat);
            assert(n * (2 * p) == (n * 2) * p) by (nonlinear_arith);
        }
        n = n * 2;
        k = k - 1;
    }
    let ghost held = k as nat;
    proof {
        if k > 0 {
            lemma_nearest_shift(0x80_0000, n as nat, d as nat, held);
        } else {
            lemma2_to64();
            assert(n * 1 == n);
            assert(goal * 1 == goal);
        }
        lemma2_to64();
    }
    while n >= d * 0x100_0000
        invariant
            0 < d <= 0x4_0000_0000,
            n < 0x200_0000_0000_0000,
            held <= k <= held + 64,
            held <= 1000,
            k > 0 ==> n >= d * 0x80_0000,
            pow2((k - held) as nat) <= d,
            goal == to_single(n as nat, d as nat) * pow2(k as nat),
        decreases n - d,
    {
        proof {
            lemma_pow2_unfold((k + 1) as nat);
            lemma_pow2_unfold((k + 1 - held) as nat);
            let p = pow2(k as nat);
            let m = to_single(n as nat, (2 * d) as nat);
            assert((2 * m) * p == m * (2 * p)) by (nonlinear_arith);
            if k - held >= 64 {
                lemma2_to64();
                if k - held > 64 {
                    lemma_pow2_strictly_increases(64, (k - held) as nat);
                }
            }
        }
        d = d * 2;
        k = k + 1;
    }
    let low: u64 = n / d;
    let rest: u64 = n % d;
    let up: u64 = if 2 * rest < d || (2 * rest == d && low % 2 == 0) {
        low
    } else {
        low + 1
    };
    proof {
        assert(up == half_even(n as nat, d as nat));
        assert(goal == up * pow2(k as nat));
        lemma_full_significand(n as nat, d as nat, k as nat);
        lemma_finite_places(whole, den as nat, up as nat, k as nat);
    }
    if up == 0x100_0000 {
        proof {
            lemma_pow2_unfold((k + 1) as nat);
            let p = pow2(k as nat);
            assert(0x100_0000 * p == 0x80_0000 * (2 * p));
        }
        Single { sig: 0x80_0000, places: k + 1 }
    } else {
        Single { sig: up as u32, places: k }
    }
}

/// The units of a non-negative finite value from its bit pattern: eight bits of
/// exponent above twenty-three of fraction. Nothing else has units.
pub open spec fn decoded(bits: u32) -> Option<nat> {
    let exponent = bits as nat / 0x80_0000;
    let fraction = bits as nat % 0x80_0000;
    if bits >= 0x7f80_0000 {
        None
    } else if exponent == 0 {
        Some(fraction)
    } else {
        Some((fraction + 0x80_0000) * pow2((exponent - 1) as nat))
    }
}

impl Single {
    /// The value of a bit pattern, if it is one of a non-negative finite value.
    pub fn from_bits(bits: u32) -> (r: Option<Single>)
        ensures
            r is Some <==> decoded(bits) is Some,
            r matches Some(v) ==> decoded(bits) == Some(v.units()),
    {
        if bits >= 0x7f80_0000 {
            return None;
        }
        let exponent: u32 = bits / 0x80_0000;
        let fraction: u32 = bits % 0x80_0000;
        if exponent == 0 {
            proof {
                lemma2_to64();
                assert(fraction as nat * 1 == fraction);
            }
            Some(Single { sig: fraction, places: 0 })
        } else {
            Some(Single { sig: fraction + 0x80_0000, places: exponent - 1 })
        }
    }

    /// The bit pattern of the value.
    pub fn to_bits(self) -> (bits: u32)
        ensures
            decoded(bits) == Some(self.units()),
    {
        proof {
            use_type_invariant(&self);
            lemma2_to64();
        }
        if self.sig < 0x80_0000 {
            proof {
                assert(self.sig as nat * 1 == self.sig);
            }
            self.sig
        } else {
            let exponent: u32 = self.places + 1;
            let fraction: u32 = self.sig - 0x80_0000;
            let bits: u32 = exponent * 0x80_0000 + fraction;
            assert(bits as nat / 0x80_0000 == exponent);
            assert(bits as nat % 0x80_0000 == fraction);
            bits
        }
    }

    /// The value nearest to a whole number.
    pub fn from_whole(x: u32) -> (r: Single)
        ensures
            r.units() == single_of(x as nat),
    {
        proof {
            lemma_whole_finite(x as nat);
        }
        round_quotient(x as u64, 1, 149)
    }

    /// Whether the value is at most another one.
    pub fn at_most(self, other: Single) -> (r: bool)
        ensures
            r == (self.units() <= other.units()),
    {
        proof {
            use_type_invariant(&self);
            use_type_invariant(&other);
            lemma_order(self, other);
        }
        self.places < other.places || (self.places == other.places && self.sig <= other.sig)
    }

    /// The larger of two values.
    pub fn max(self, other: Single) -> (r: Single)
        ensures
            r.units() == if self.units() <= other.units() {
                other.units()
            } else {
                self.units()
            },
    {
        if self.at_most(other) {
            other
        } else {
            self
        }
    }

    /// The smaller of two values.
    pub fn min(self, other: Single) -> (r: Single)
        ensures
            r.units() == if self.units() <= other.units() {
                self.units()
            } else {
                other.units()
            },
    {
        if self.at_most(other) {
            self
        } else {
            other
        }
    }
}

impl Single {
    /// The quotient by a divisor from one to two to the power of 32.
    pub fn over(self, divisor: Single) -> (r: Single)
        requires
            one() <= divisor.units() <= pow2(181),
        ensures
            r.units() == single_div(self.units(), divisor.units()),
    {
        proof {
            use_type_invariant(&self);
            use_type_invariant(&divisor);
            lemma_whole_places(divisor);
        }
        let raised: u32 = self.places + 149;
        if raised >= divisor.places {
            let places: u32 = raised - divisor.places;
            proof {
                lemma_over_up(self, divisor, places as nat);
            }
            round_quotient(self.sig as u64, divisor.sig as u64, places)
        } else {
            let short: u32 = divisor.places - raised;
            proof {
                lemma_over_down(self, divisor, short as nat);
                vstd::bits::lemma_u64_shl_is_mul(divisor.sig as u64, short as u64);
                assert(self.sig as nat * 1 == self.sig);
                lemma2_to64();
            }
            let den: u64 = (divisor.sig as u64) << (short as u64);
            round_quotient(self.sig as u64, den, 0)
        }
    }

    /// The product with a factor, for a value from one to two to the power of
    /// 32 and a factor of at most two to the power of 41.
    pub fn times(self, factor: Single) -> (r: Single)
        requires
            one() <= self.units() <= pow2(181),
            factor.units() <= pow2(190),
        ensures
            r.units() == single_mul(self.units(), factor.units()),
    {
        proof {
            use_type_invariant(&self);
            use_type_invariant(&factor);
            lemma_whole_places(self);
            assert((self.sig as u64) * (factor.sig as u64) < 0x1_0000_0000_0000) by (nonlinear_arith)
                requires
                    self.sig < 0x100_0000,
                    factor.sig < 0x100_0000,
            ;
        }
        let product: u64 = (self.sig as u64) * (factor.sig as u64);
        let sum: u32 = self.places + factor.places;
        if sum >= 149 {
            proof {
                lemma_times_up(self, factor, (sum - 149) as nat);
            }
            round_quotient(product, 1, sum - 149)
        } else {
            let short: u32 = 149 - sum;
            proof {
                lemma_times_down(self, factor, short as nat);
                lemma2_to64();
                vstd::bits::lemma_u64_shl_is_mul(1, short as u64);
                assert(product as nat * 1 == product);
            }
            let den: u64 = 1u64 << (short as u64);
            round_quotient(product, den, 0)
        }
    }

    /// The nearest whole number, a tie going up, or the largest `u32` where
    /// that is smaller.
    pub fn to_whole(self) -> (r: u32)
        ensures
            r == if single_round(self.units()) <= u32::MAX {
                single_round(self.units())
            } else {
                u32::MAX as nat
            },
    {
        proof {
            use_type_invariant(&self);
            lemma2_to64();
        }
        if self.places >= 149 {
            let shift: u32 = self.places - 149;
            proof {
                lemma_round_up(self, shift as nat);
            }
            if shift >= 9 {
                return u32::MAX;
            }
            proof {
                lemma_pow2_pos(shift as nat);
                if shift < 8 {
                    lemma_pow2_strictly_increases(shift as nat, 8);
                }
                assert(self.sig * pow2(shift as nat) <= 0x100_0000 * 256) by (nonlinear_arith)
                    requires
                        self.sig < 0x100_0000,
                        pow2(shift as nat) <= 256,
                ;
                vstd::bits::lemma_u64_shl_is_mul(self.sig as u64, shift as u64);
            }
            let whole: u64 = (self.sig as u64) << (shift as u64);
            if whole <= u32::MAX as u64 {
                whole as u32
            } else {
                u32::MAX
            }
        } else {
            let drop: u32 = 149 - self.places;
            proof {
                lemma_round_down(self, drop as nat);
            }
            if drop >= 25 {
                return 0;
            }
            proof {
                if drop < 24 {
                    lemma_pow2_strictly_increases(drop as nat, 24);
                }
                vstd::bits::lemma_u64_shl_is_mul(1, drop as u64);
            }
            let half: u64 = 1u64 << (drop as u64);
            let doubled: u64 = 2 * (self.sig as u64) + half;
            (doubled / (2 * half)) as u32
        }
    }
}

/// A value from one to two to the power of 32 has its top bit between the two.
proof fn lemma_whole_places(v: Single)
    requires
        v.in_range(),
        one() <= v.units() <= pow2(181),
    ensures
        126 <= v.places <= 158,
{
    lemma2_to64();
    lemma_mul_pow2_lt(v.sig as nat, v.places as nat, 149, 24);
    if v.places > 158 {
        let p = pow2(v.places as nat);
        lemma_pow2_pos(v.places as nat);
        lemma_pow2_adds(23, v.places as nat);
        lemma_pow2_strictly_increases(181, (23 + v.places) as nat);
        assert(pow2(23) * p <= v.sig * p) by (nonlinear_arith)
            requires
                pow2(23) <= v.sig,
                p > 0,
        ;
    }
}

proof fn lemma_units_finite(v: Single)
    requires
        v.in_range(),
    ensures
        v.units() <= max_finite(),
{
    let p = pow2(v.places as nat);
    lemma_pow2_pos(v.places as nat);
    if v.places < 253 {
        lemma_pow2_strictly_increases(v.places as nat, 253);
    }
    assert(v.sig * p <= 0xff_ffff * pow2(253)) by (nonlinear_arith)
        requires
            v.sig <= 0xff_ffff,
            p <= pow2(253),
    ;
}

proof fn lemma_over_up(a: Single, b: Single, places: nat)
    requires
        a.in_range(),
        b.in_range(),
        one() <= b.units(),
        places + b.places == a.places + 149,
    ensures
        b.sig > 0,
        to_single((a.sig * pow2(places)) as nat, b.sig as nat) == single_div(a.units(), b.units()),
        a.sig * pow2(places) <= b.sig * max_finite(),
{
    let c = pow2(b.places as nat);
    let n = (a.sig * pow2(places)) as nat;
    lemma_pow2_pos(149);
    lemma_pow2_pos(b.places as nat);
    if b.sig == 0 {
        assert(0 * c == 0);
    }
    lemma_pow2_adds(places, b.places as nat);
    lemma_pow2_adds(a.places as nat, 149);
    let p = pow2(a.places as nat);
    let o = pow2(149);
    assert(c * n == (a.sig * p) * o) by (nonlinear_arith)
        requires
            n == a.sig * pow2(places),
            pow2(places) * c == p * o,
    ;
    assert(c * b.sig == b.sig * c) by (nonlinear_arith);
    lemma_nearest_scaled(0x80_0000, n, b.sig as nat, c);
    lemma_units_finite(a);
    assert(n <= b.sig * max_finite()) by (nonlinear_arith)
        requires
            c * n == a.units() * o,
            a.units() <= max_finite(),
            o <= b.sig * c,
            c > 0,
            o > 0,
    ;
}

proof fn lemma_over_down(a: Single, b: Single, short: nat)
    requires
        a.in_range(),
        b.in_range(),
        126 <= b.places <= 158,
        short + a.places + 149 == b.places,
    ensures
        0 < b.sig * pow2(short) <= 0x2_0000_0000,
        to_single(a.sig as nat, (b.sig * pow2(short)) as nat) == single_div(a.units(), b.units()),
        a.sig <= b.sig * pow2(short) * max_finite(),
{
    let c = pow2((a.places + 149) as nat);
    let d = (b.sig * pow2(short)) as nat;
    let p = pow2(a.places as nat);
    lemma2_to64();
    lemma_pow2_pos((a.places + 149) as nat);
    lemma_pow2_pos(short);
    if short < 9 {
        lemma_pow2_strictly_increases(short, 9);
    }
    assert(0 < d <= 0x2_0000_0000) by (nonlinear_arith)
        requires
            d == b.sig * pow2(short),
            0 < b.sig < 0x100_0000,
            0 < pow2(short) <= 512,
    ;
    lemma_pow2_adds(short, (a.places + 149) as nat);
    lemma_pow2_adds(a.places as nat, 149);
    assert(c * a.sig == (a.sig * p) * pow2(149)) by (nonlinear_arith)
        requires
            c == p * pow2(149),
    ;
    assert(c * d == b.sig * pow2(b.places as nat)) by (nonlinear_arith)
        requires
            d == b.sig * pow2(short),
            pow2(b.places as nat) == pow2(short) * c,
    ;
    lemma_nearest_scaled(0x80_0000, a.sig as nat, d, c);
    lemma_pow2_pos(253);
    assert(a.sig <= d * max_finite()) by (nonlinear_arith)
        requires
            a.sig <= 0xff_ffff,
            d >= 1,
            max_finite() >= 0xff_ffff,
    ;
}

proof fn lemma_times_up(a: Single, b: Single, places: nat)
    requires
        a.in_range(),
        b.in_range(),
        a.units() <= pow2(181),
        b.units() <= pow2(190),
        places + 149 == a.places + b.places,
    ensures
        to_single((a.sig * b.sig * pow2(places)) as nat, 1) == single_mul(a.units(), b.units()),
        a.sig * b.sig * pow2(places) <= 1 * max_finite(),
{
    let p = pow2(a.places as nat);
    let q = pow2(b.places as nat);
    let o = pow2(149);
    let n = (a.sig * b.sig * pow2(places)) as nat;
    lemma_pow2_pos(149);
    lemma_pow2_adds(places, 149);
    lemma_pow2_adds(a.places as nat, b.places as nat);
    assert(o * n == (a.sig * p) * (b.sig * q)) by (nonlinear_arith)
        requires
            n == a.sig * b.sig * pow2(places),
            pow2(places) * o == p * q,
    ;
    lemma_nearest_scaled(0x80_0000, n, 1, o);
    assert(o * 1 == o);
    lemma_pow2_adds(181, 190);
    lemma_pow2_adds(149, 222);
    lemma_pow2_strictly_increases(222, 253);
    assert(n <= pow2(222)) by (nonlinear_arith)
        requires
            o * n == a.units() * b.units(),
            a.units() <= pow2(181),
            b.units() <= pow2(190),
            pow2(181) * pow2(190) == o * pow2(222),
            o > 0,
    ;
}

proof fn lemma_times_down(a: Single, b: Single, short: nat)
    requires
        a.in_range(),
        b.in_range(),
        126 <= a.places,
        short + a.places + b.places == 149,
    ensures
        1 <= pow2(short) <= 0x2_0000_0000,
        to_single((a.sig * b.sig) as nat, pow2(short)) == single_mul(a.units(), b.units()),
        a.sig * b.sig <= pow2(short) * max_finite(),
{
    let p = pow2(a.places as nat);
    let q = pow2(b.places as nat);
    let c = pow2((a.places + b.places) as nat);
    let n = (a.sig * b.sig) as nat;
    lemma2_to64();
    lemma_pow2_pos(short);
    lemma_pow2_pos((a.places + b.places) as nat);
    if short < 23 {
        lemma_pow2_strictly_increases(short, 23);
    }
    lemma_pow2_adds(short, (a.places + b.places) as nat);
    lemma_pow2_adds(a.places as nat, b.places as nat);
    assert(c * n == (a.sig * p) * (b.sig * q)) by (nonlinear_arith)
        requires
            n == a.sig * b.sig,
            c == p * q,
    ;
    assert(c * pow2(short) == pow2(149)) by (nonlinear_arith)
        requires
            pow2(149) == pow2(short) * c,
    ;
    lemma_nearest_scaled(0x80_0000, n, pow2(short), c);
    lemma_pow2_strictly_increases(24, 253);
    assert(n <= pow2(short) * max_finite()) by (nonlinear_arith)
        requires
            n == a.sig * b.sig,
            a.sig <= 0xff_ffff,
            b.sig <= 0x100_0000,
            pow2(short) >= 1,
            max_finite() >= 0xff_ffff * 0x100_0000,
    ;
}

proof fn lemma_round_up(v: Single, shift: nat)
    requires
        v.in_range(),
        v.places == 149 + shift,
    ensures
        single_round(v.units()) == v.sig * pow2(shift),
        shift >= 9 ==> v.sig * pow2(shift) > u32::MAX,
{
    let o = pow2(149);
    let w = (v.sig * pow2(shift)) as nat;
    lemma2_to64();
    lemma_pow2_pos(149);
    lemma_pow2_pos(shift);
    lemma_pow2_adds(149, shift);
    assert(v.sig * pow2(v.places as nat) == w * o) by (nonlinear_arith)
        requires
            w == v.sig * pow2(shift),
            pow2(v.places as nat) == o * pow2(shift),
    ;
    assert((2 * (w * o) + o) / (2 * o) == w) by (nonlinear_arith)
        requires
            o > 0,
    ;
    if shift >= 9 {
        if shift > 9 {
            lemma_pow2_strictly_increases(9, shift);
        }
        assert(v.sig * pow2(shift) >= 0x80_0000 * 512) by (nonlinear_arith)
            requires
                v.sig >= 0x80_0000,
                pow2(shift) >= 512,
        ;
    }
}

proof fn lemma_round_down(v: Single, drop: nat)
    requires
        v.in_range(),
        v.places + drop == 149,
    ensures
        single_round(v.units()) == (2 * v.sig + pow2(drop)) as nat / (2 * pow2(drop)),
        drop >= 25 ==> single_round(v.units()) == 0,
{
    let p = pow2(v.places as nat);
    let h = pow2(drop);
    lemma2_to64();
    lemma_pow2_pos(v.places as nat);
    lemma_pow2_pos(drop);
    lemma_pow2_adds(v.places as nat, drop);
    let a = (2 * v.sig + h) as int;
    let d = (2 * h) as int;
    vstd::arithmetic::div_mod::lemma_div_multiples_vanish_quotient(p as int, a, d);
    assert(p * a == 2 * (v.sig * p) + p * h) by (nonlinear_arith)
        requires
            a == 2 * v.sig + h,
    ;
    assert(p * d == 2 * (p * h)) by (nonlinear_arith)
        requires
            d == 2 * h,
    ;
    if drop >= 25 {
        if drop > 25 {
            lemma_pow2_strictly_increases(25, drop);
        }
        assert(a / d == 0) by (nonlinear_arith)
            requires
                0 <= a < d,
        ;
    }
}

proof fn lemma_whole_finite(x: nat)
    requires
        x <= u32::MAX,
    ensures
        x * pow2(149) <= 1 * max_finite(),
{
    lemma2_to64();
    lemma_pow2_pos(149);
    lemma_pow2_adds(32, 149);
    lemma_pow2_strictly_increases(181, 253);
    assert(x * pow2(149) <= pow2(32) * pow2(149)) by (nonlinear_arith)
        requires
            x <= pow2(32),
            pow2(149) > 0,
    ;
}

proof fn lemma_order(a: Single, b: Single)
    requires
        a.in_range(),
        b.in_range(),
    ensures
        (a.units() <= b.units()) == (a.places < b.places || (a.places == b.places && a.sig
            <= b.sig)),
{
    lemma_pow2_pos(a.places as nat);
    lemma_pow2_pos(b.places as nat);
    if a.places == b.places {
        let p = pow2(a.places as nat);
        assert((a.sig * p <= b.sig * p) == (a.sig <= b.sig)) by (nonlinear_arith)
            requires
                p > 0,
        ;
    } else if a.places < b.places {
        lemma_order_places(a, b);
    } else {
        lemma_order_places(b, a);
    }
}

proof fn lemma_order_places(a: Single, b: Single)
    requires
        a.in_range(),
        b.in_range(),
        a.places < b.places,
    ensures
        a.units() < b.units(),
{
    let p = pow2(a.places as nat);
    let q = pow2(b.places as nat);
    lemma_pow2_pos(a.places as nat);
    lemma_pow2_unfold((a.places + 1) as nat);
    if a.places + 1 < b.places {
        lemma_pow2_strictly_increases((a.places + 1) as nat, b.places as nat);
    }
    assert(a.sig * p < 0x100_0000 * p) by (nonlinear_arith)
        requires
            a.sig < 0x100_0000,
            p > 0,
    ;
    assert(0x80_0000 * q <= b.sig * q) by (nonlinear_arith)
        requires
            b.sig >= 0x80_0000,
            q > 0,
    ;
}

/// A bit pattern is one of a non-negative finite value just when it is below that of
/// infinity. The value grows with the pattern: by one unit up to the first full
/// significands, and from there by two to the power of how often the exponent grew.
/// A pattern with an exponent one higher has twice the value.
pub proof fn law_patterns_are_in_order(bits: u32)
    ensures
        decoded(bits) is Some <==> bits < 0x7f80_0000,
        decoded(0) == Some(0nat),
        bits + 1 < 0x7f80_0000 ==> {
            &&& bits < 0x100_0000 ==> decoded((bits + 1) as u32)->0 == decoded(bits)->0 + 1
            &&& bits >= 0x80_0000 ==> decoded((bits + 1) as u32)->0 == decoded(bits)->0 + pow2(
                (bits as nat / 0x80_0000 - 1) as nat,
            )
        },
        0x80_0000 <= bits && bits + 0x80_0000 < 0x7f80_0000 ==> decoded(
            (bits + 0x80_0000) as u32,
        )->0 == 2 * decoded(bits)->0,
{
    lemma2_to64();
    let e = bits as nat / 0x80_0000;
    let f = bits as nat % 0x80_0000;
    if bits >= 0x80_0000 {
        lemma_pow2_unfold(e);
        let p = pow2((e - 1) as nat);
        let m = f + 0x80_0000;
        assert((m + 1) * p == m * p + p && m * (2 * p) == 2 * (m * p)) by (nonlinear_arith);
        if f + 1 == 0x80_0000 {
            assert(0x80_0000 * (2 * p) == (m + 1) * p) by (nonlinear_arith)
                requires
                    m + 1 == 0x100_0000,
            ;
        }
    }
    if bits < 0x80_0000 && f + 1 == 0x80_0000 {
        assert(0x80_0000 * pow2(0) == 0x80_0000);
    }
    if 0x80_0000 <= bits < 0x100_0000 {
        assert(pow2((e - 1) as nat) == 1);
    }
}

/// The pattern of a larger number is the larger one, so no two patterns stand for the
/// same value.
pub proof fn law_larger_pattern_is_larger_value(low: u32, high: u32)
    requires
        low < high < 0x7f80_0000,
    ensures
        decoded(low)->0 < decoded(high)->0,
    decreases high - low,
{
    let next = (low + 1) as u32;
    law_patterns_are_in_order(low);
    if low >= 0x80_0000 {
        lemma_pow2_pos((low as nat / 0x80_0000 - 1) as nat);
    }
    if next < high {
        law_larger_pattern_is_larger_value(next, high);
    }
}

/// Reading the pattern of a value gives the value back, and writing the value of a
/// pattern gives the pattern back.
pub proof fn law_patterns_read_back(v: Single, bits: u32, read: Option<Single>, written: u32)
    requires
        call_ensures(Single::from_bits, (bits,), read),
        read == Some(v),
        call_ensures(Single::to_bits, (v,), written),
    ensures
        written == bits,
{
    law_patterns_are_in_order(bits);
    law_patterns_are_in_order(written);
    if written < bits {
        law_larger_pattern_is_larger_value(written, bits);
    } else if bits < written {
        law_larger_pattern_is_larger_value(bits, written);
    }
}

/// A whole number, a quotient and a product are taken to the value that is nearest to
/// them: no other one with a 24-bit significand is nearer.
pub proof fn law_operations_are_nearest(a: nat, b: nat, sig: nat, places: nat)
    requires
        sig < 0x100_0000,
        b > 0,
    ensures
        apart(single_of(a) as int, (a * pow2(149)) as int) <= apart(
            (sig * pow2(places)) as int,
            (a * pow2(149)) as int,
        ),
        apart((single_div(a, b) * b) as int, (a * pow2(149)) as int) <= apart(
            (sig * pow2(places) * b) as int,
            (a * pow2(149)) as int,
        ),
        apart((single_mul(a, b) * pow2(149)) as int, (a * b) as int) <= apart(
            (sig * pow2(places) * pow2(149)) as int,
            (a * b) as int,
        ),
{
    lemma_pow2_pos(149);
    law_no_value_is_nearer(0x80_0000, a * one(), 1, sig, places);
    law_no_value_is_nearer(0x80_0000, a * one(), b, sig, places);
    law_no_value_is_nearer(0x80_0000, a * b, one(), sig, places);
    assert(single_of(a) * 1 == single_of(a));
    assert(sig * pow2(places) * 1 == sig * pow2(places));
}

/// A value is rounded to a whole number at most a half away, and a half goes up.
pub proof fn law_whole_number_is_nearest(a: nat)
    ensures
        2 * (single_round(a) * pow2(149)) <= 2 * a + pow2(149),
        2 * a < 2 * (single_round(a) * pow2(149)) + pow2(149),
{
    let o = one();
    lemma_pow2_pos(149);
    let r = single_round(a);
    assert(2 * (r * o) <= 2 * a + o && 2 * a + o < 2 * (r * o) + 2 * o) by (nonlinear_arith)
        requires
            r == (2 * a + o) / (2 * o),
            o > 0,
    ;
}

/// Of two values the larger and the smaller one are the two values, in order.
pub proof fn law_larger_and_smaller(a: Single, b: Single, high: Single, low: Single, ordered: bool)
    requires
        call_ensures(Single::max, (a, b), high),
        call_ensures(Single::min, (a, b), low),
        call_ensures(Single::at_most, (a, b), ordered),
    ensures
        low.units() <= high.units(),
        low.units() + high.units() == a.units() + b.units(),
        high.units() == a.units() || high.units() == b.units(),
        ordered <==> low.units() == a.units() && high.units() == b.units(),
{
}

/// A value goes to the whole number at most a half away, where a `u32` can count it, and
/// a whole number below two to the power of 24 comes back from its value.
pub proof fn law_whole_numbers_come_back(x: u32, v: Single, back: u32)
    requires
        x < 0x100_0000,
        call_ensures(Single::from_whole, (x,), v),
        call_ensures(Single::to_whole, (v,), back),
    ensures
        v.units() == x * pow2(149),
        back == x,
{
    let o = one();
    lemma_pow2_pos(149);
    lemma_nearest_exact(0x80_0000, x as nat, 149, 1);
    assert(x * o * 1 == x * o) by (nonlinear_arith);
    law_whole_number_is_nearest(v.units());
    let r = single_round(v.units());
    assert(r == x) by (nonlinear_arith)
        requires
            2 * (r * o) <= 2 * (x * o) + o,
            2 * (x * o) < 2 * (r * o) + o,
            o > 0,
    ;
}

/// A quotient and a product come out as the nearest value: no other one is nearer.
pub proof fn law_results_are_nearest(
    a: Single,
    b: Single,
    quotient: Single,
    product: Single,
    sig: nat,
    places: nat,
)
    requires
        call_ensures(Single::over, (a, b), quotient),
        call_ensures(Single::times, (a, b), product),
        b.units() > 0,
        sig < 0x100_0000,
    ensures
        apart((quotient.units() * b.units()) as int, (a.units() * pow2(149)) as int) <= apart(
            (sig * pow2(places) * b.units()) as int,
            (a.units() * pow2(149)) as int,
        ),
        apart((product.units() * pow2(149)) as int, (a.units() * b.units()) as int) <= apart(
            (sig * pow2(places) * pow2(149)) as int,
            (a.units() * b.units()) as int,
        ),
{
    law_operations_are_nearest(a.units(), b.units(), sig, places);
}

} // verus!
