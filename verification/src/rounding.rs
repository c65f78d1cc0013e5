//! Rounding to a binary floating-point format, stated over whole numbers.
//!
//! Every non-negative finite value of such a format is a whole multiple of the
//! smallest positive one, so it is modelled here by that multiple: its number
//! of *units*. A quotient of two naturals is rounded to the nearest value whose
//! significand fits the format, and a tie goes to the even significand.

use vstd::arithmetic::power2::{lemma2_to64, lemma_pow2_pos, lemma_pow2_unfold, pow2};
use vstd::prelude::*;

verus! {

/// `n / d` rounded to the nearest natural, a tie going to the even one.
pub open spec fn half_even(n: nat, d: nat) -> nat {
    let low = n / d;
    let rest = n % d;
    if 2 * rest < d || (2 * rest == d && low % 2 == 0) {
        low
    } else {
        low + 1
    }
}

/// `n / d` units rounded to the nearest value with a significand below
/// `2 * half`.
pub open spec fn nearest(half: nat, n: nat, d: nat) -> nat
    recommends
        d > 0,
        half > 0,
    decreases n - d,
{
    if d == 0 || half == 0 || n < 2 * (d * half) {
        half_even(n, d)
    } else {
        proof {
            assert(d * half >= d) by (nonlinear_arith)
                requires
                    half >= 1,
            ;
        }
        2 * nearest(half, n, 2 * d)
    }
}

proof fn lemma_half_even_bounds(n: nat, d: nat)
    requires
        d > 0,
    ensures
        2 * half_even(n, d) * d <= 2 * n + d,
        2 * n <= 2 * half_even(n, d) * d + d,
{
    let low = n / d;
    let rest = n % d;
    assert(n == low * d + rest && rest < d) by (nonlinear_arith)
        requires
            low == n / d,
            rest == n % d,
            d > 0,
    ;
    let h = half_even(n, d);
    assert((low + 1) * d == low * d + d) by (nonlinear_arith);
    assert(2 * h * d == 2 * (h * d)) by (nonlinear_arith);
}

proof fn lemma_half_even_monotone(n1: nat, n2: nat, d: nat)
    requires
        d > 0,
        n1 <= n2,
    ensures
        half_even(n1, d) <= half_even(n2, d),
{
    let q1 = n1 / d;
    let r1 = n1 % d;
    let q2 = n2 / d;
    let r2 = n2 % d;
    assert(n1 == q1 * d + r1 && r1 < d && n2 == q2 * d + r2 && r2 < d) by (nonlinear_arith)
        requires
            q1 == n1 / d,
            r1 == n1 % d,
            q2 == n2 / d,
            r2 == n2 % d,
            d > 0,
    ;
    assert(q1 <= q2) by (nonlinear_arith)
        requires
            q1 * d + r1 <= q2 * d + r2,
            r2 < d,
            r1 >= 0,
            d > 0,
    ;
}

proof fn lemma_half_even_exact(u: nat, d: nat)
    requires
        d > 0,
    ensures
        half_even(u * d, d) == u,
{
    assert((u * d) / d == u && (u * d) % d == 0) by (nonlinear_arith)
        requires
            d > 0,
    ;
}

proof fn lemma_half_even_scaled(n: nat, d: nat, c: nat)
    requires
        d > 0,
        c > 0,
    ensures
        half_even(c * n, c * d) == half_even(n, d),
{
    let low = n / d;
    let rest = n % d;
    vstd::arithmetic::div_mod::lemma_fundamental_div_mod(n as int, d as int);
    assert(c * d > 0) by (nonlinear_arith)
        requires
            c > 0,
            d > 0,
    ;
    assert(c * n == (c * d) * low + c * rest && 0 <= c * rest < c * d) by (nonlinear_arith)
        requires
            n == d * low + rest,
            0 <= rest < d,
            c > 0,
    ;
    vstd::arithmetic::div_mod::lemma_fundamental_div_mod_converse(
        (c * n) as int,
        (c * d) as int,
        low as int,
        (c * rest) as int,
    );
    assert(2 * (c * rest) < c * d <==> 2 * rest < d) by (nonlinear_arith)
        requires
            c > 0,
    ;
    assert(2 * (c * rest) == c * d <==> 2 * rest == d) by (nonlinear_arith)
        requires
            c > 0,
    ;
}

proof fn lemma_doubled(half: nat, d: nat)
    ensures
        (2 * d) * half == 2 * (d * half),
{
    assert((2 * d) * half == 2 * (d * half)) by (nonlinear_arith);
}

proof fn lemma_room(half: nat, d: nat)
    requires
        half > 0,
    ensures
        d * half >= d,
{
    assert(d * half >= d) by (nonlinear_arith)
        requires
            half >= 1,
    ;
}

/// Rounding looks at the quotient alone.
pub proof fn lemma_nearest_scaled(half: nat, n: nat, d: nat, c: nat)
    requires
        half > 0,
        d > 0,
        c > 0,
    ensures
        nearest(half, c * n, c * d) == nearest(half, n, d),
    decreases n - d,
{
    assert(c * d > 0) by (nonlinear_arith)
        requires
            c > 0,
            d > 0,
    ;
    assert(c * n < 2 * ((c * d) * half) <==> n < 2 * (d * half)) by (nonlinear_arith)
        requires
            c > 0,
    ;
    if n < 2 * (d * half) {
        lemma_half_even_scaled(n, d, c);
    } else {
        lemma_room(half, d);
        lemma_nearest_scaled(half, n, 2 * d, c);
        assert(c * (2 * d) == 2 * (c * d)) by (nonlinear_arith);
    }
}

/// A quotient of at least half the significand range keeps that size.
proof fn lemma_nearest_lower(half: nat, n: nat, d: nat)
    requires
        half > 0,
        d > 0,
        n >= d * half,
    ensures
        nearest(half, n, d) >= half,
    decreases n - d,
{
    lemma_room(half, d);
    if n < 2 * (d * half) {
        lemma_half_even_exact(half, d);
        assert(half * d == d * half) by (nonlinear_arith);
        lemma_half_even_monotone(half * d, n, d);
    } else {
        lemma_doubled(half, d);
        lemma_nearest_lower(half, n, 2 * d);
    }
}

proof fn lemma_nearest_upper_small(half: nat, n: nat, d: nat)
    requires
        half > 0,
        d > 0,
        n < 2 * (d * half),
    ensures
        nearest(half, n, d) <= 2 * half,
{
    lemma_half_even_exact(2 * half, d);
    assert((2 * half) * d == 2 * (d * half)) by (nonlinear_arith);
    lemma_half_even_monotone(n, (2 * half) * d, d);
}

/// Rounding keeps the order of what it rounds.
pub proof fn lemma_nearest_monotone(half: nat, n1: nat, n2: nat, d: nat)
    requires
        half > 0,
        d > 0,
        n1 <= n2,
    ensures
        nearest(half, n1, d) <= nearest(half, n2, d),
    decreases n2 - d,
{
    lemma_room(half, d);
    if n2 < 2 * (d * half) {
        lemma_half_even_monotone(n1, n2, d);
    } else if n1 < 2 * (d * half) {
        lemma_nearest_upper_small(half, n1, d);
        lemma_doubled(half, d);
        lemma_nearest_lower(half, n2, 2 * d);
    } else {
        lemma_nearest_monotone(half, n1, n2, 2 * d);
    }
}

/// Rounding leaves a value that needs no rounding as it is.
pub proof fn lemma_nearest_exact(half: nat, sig: nat, places: nat, d: nat)
    requires
        half > 0,
        d > 0,
        sig < 2 * half,
    ensures
        nearest(half, sig * pow2(places) * d, d) == sig * pow2(places),
    decreases places,
{
    let u = sig * pow2(places);
    if u * d < 2 * (d * half) {
        lemma_half_even_exact(u, d);
    } else if places == 0 {
        lemma2_to64();
        assert(u * d < 2 * (d * half)) by (nonlinear_arith)
            requires
                u == sig * 1,
                sig < 2 * half,
                d > 0,
        ;
    } else {
        let less = (places - 1) as nat;
        lemma_pow2_unfold(places);
        let v = sig * pow2(less);
        assert(u == 2 * v) by (nonlinear_arith)
            requires
                u == sig * pow2(places),
                pow2(places) == 2 * pow2(less),
                v == sig * pow2(less),
        ;
        lemma_nearest_exact(half, sig, less, 2 * d);
        assert(u * d == v * (2 * d)) by (nonlinear_arith)
            requires
                u == 2 * v,
        ;
    }
}

/// Above the first significand range the error is at most one part in as many as
/// a significand has values.
pub proof fn lemma_nearest_error(half: nat, n: nat, d: nat)
    requires
        half > 0,
        d > 0,
        n >= d * half,
    ensures
        (2 * half) * (nearest(half, n, d) * d) <= (2 * half + 1) * n,
        (2 * half - 1) * n <= (2 * half) * (nearest(half, n, d) * d),
    decreases n - d,
{
    lemma_room(half, d);
    if n < 2 * (d * half) {
        lemma_half_even_bounds(n, d);
        let h = half_even(n, d);
        let hd = h * d;
        assert(2 * h * d == 2 * hd) by (nonlinear_arith)
            requires
                hd == h * d,
        ;
        assert((2 * half) * hd <= (2 * half + 1) * n && (2 * half - 1) * n <= (2 * half) * hd)
            by (nonlinear_arith)
            requires
                2 * hd <= 2 * n + d,
                2 * n <= 2 * hd + d,
                d * half <= n,
                half > 0,
        ;
    } else {
        lemma_doubled(half, d);
        lemma_nearest_error(half, n, 2 * d);
        let h = nearest(half, n, 2 * d);
        assert((2 * h) * d == h * (2 * d)) by (nonlinear_arith);
        assert(nearest(half, n, d) == 2 * h);
    }
}

/// Powers of two pass through rounding once the significand is full.
pub proof fn lemma_nearest_shift(half: nat, n: nat, d: nat, places: nat)
    requires
        half > 0,
        d > 0,
        n >= d * half,
    ensures
        nearest(half, n * pow2(places), d) == nearest(half, n, d) * pow2(places),
    decreases places,
{
    if places == 0 {
        lemma2_to64();
        assert(n * 1 == n && nearest(half, n, d) * 1 == nearest(half, n, d));
    } else {
        let less = (places - 1) as nat;
        lemma_pow2_unfold(places);
        lemma_pow2_pos(less);
        lemma_nearest_shift(half, n, d, less);
        let p = pow2(less);
        assert(n * pow2(places) == 2 * (n * p)) by (nonlinear_arith)
            requires
                pow2(places) == 2 * p,
        ;
        assert(n * p >= n) by (nonlinear_arith)
            requires
                p >= 1,
        ;
        lemma_nearest_scaled(half, n * p, d, 2);
        lemma_room(half, d);
        assert(2 * (n * p) >= 2 * (d * half));
        assert(nearest(half, n, d) * pow2(places) == 2 * (nearest(half, n, d) * p))
            by (nonlinear_arith)
            requires
                pow2(places) == 2 * p,
        ;
    }
}

/// How far two whole numbers are apart.
pub open spec fn apart(a: int, b: int) -> int {
    if a <= b {
        b - a
    } else {
        a - b
    }
}

proof fn lemma_half_even_is_nearest(n: nat, d: nat, z: nat)
    requires
        d > 0,
    ensures
        apart((half_even(n, d) * d) as int, n as int) <= apart((z * d) as int, n as int),
{
    let u = half_even(n, d);
    lemma_half_even_bounds(n, d);
    assert(2 * u * d == 2 * (u * d)) by (nonlinear_arith);
    if z > u {
        assert(z * d >= u * d + d) by (nonlinear_arith)
            requires
                z >= u + 1,
        ;
    } else if z < u {
        assert(z * d + d <= u * d) by (nonlinear_arith)
            requires
                z + 1 <= u,
        ;
    }
}

/// No value whose significand fits the format is nearer to a quotient than the one it
/// is rounded to.
pub proof fn law_no_value_is_nearer(half: nat, n: nat, d: nat, sig: nat, places: nat)
    requires
        half > 0,
        d > 0,
        sig < 2 * half,
    ensures
        apart((nearest(half, n, d) * d) as int, n as int) <= apart(
            (sig * pow2(places) * d) as int,
            n as int,
        ),
    decreases n - d,
{
    if n < 2 * (d * half) {
        lemma_half_even_is_nearest(n, d, sig * pow2(places));
    } else {
        lemma_room(half, d);
        let h = nearest(half, n, 2 * d);
        assert((2 * h) * d == h * (2 * d)) by (nonlinear_arith);
        if places > 0 {
            let less = (places - 1) as nat;
            lemma_pow2_unfold(places);
            let p = pow2(less);
            assert(sig * (2 * p) * d == sig * p * (2 * d)) by (nonlinear_arith);
            law_no_value_is_nearer(half, n, 2 * d, sig, less);
        } else {
            lemma2_to64();
            law_no_value_is_nearer(half, n, 2 * d, half, 0);
            assert(half * 1 * (2 * d) == 2 * (d * half)) by (nonlinear_arith);
            assert(sig * 1 * d <= 2 * (d * half)) by (nonlinear_arith)
                requires
                    sig < 2 * half,
            ;
        }
    }
}

/// Rounding gives a value whose significand fits the format.
pub proof fn law_rounding_gives_a_value(half: nat, n: nat, d: nat)
    requires
        half > 0,
        d > 0,
    ensures
        exists|sig: nat, places: nat|
            sig < 2 * half && nearest(half, n, d) == #[trigger] (sig * pow2(places)),
    decreases n - d,
{
    lemma2_to64();
    if n < 2 * (d * half) {
        lemma_nearest_upper_small(half, n, d);
        let u = nearest(half, n, d);
        if u == 2 * half {
            assert(u == half * pow2(1));
        } else {
            assert(u == u * pow2(0));
        }
    } else {
        lemma_room(half, d);
        law_rounding_gives_a_value(half, n, 2 * d);
        let (sig, places): (nat, nat) = choose|sig: nat, places: nat|
            sig < 2 * half && nearest(half, n, 2 * d) == #[trigger] (sig * pow2(places));
        lemma_pow2_unfold(places + 1);
        let p = pow2(places);
        assert(2 * (sig * p) == sig * (2 * p)) by (nonlinear_arith);
        assert(nearest(half, n, d) == sig * pow2(places + 1));
    }
}

/// A quotient halfway between two neighbouring values is rounded to the even one.
/// Doubling a quotient whose significand is full doubles the value.
pub proof fn law_ties_go_to_the_even_value(half: nat, n: nat, d: nat, j: nat)
    requires
        half > 0,
        d > 0,
    ensures
        n < 2 * (d * half) && 2 * n == (2 * j + 1) * d ==> nearest(half, n, d) % 2 == 0 && (nearest(
            half,
            n,
            d,
        ) == j || nearest(half, n, d) == j + 1),
        n >= d * half ==> nearest(half, 2 * n, d) == 2 * nearest(half, n, d),
{
    if n < 2 * (d * half) && 2 * n == (2 * j + 1) * d {
        let low = n / d;
        let rest = n % d;
        vstd::arithmetic::div_mod::lemma_fundamental_div_mod(n as int, d as int);
        assert(low == j && 2 * rest == d) by (nonlinear_arith)
            requires
                n == d * low + rest,
                0 <= rest < d,
                2 * n == (2 * j + 1) * d,
        ;
    }
    if n >= d * half {
        lemma2_to64();
        lemma_nearest_shift(half, n, d, 1);
    }
}

} // verus!
