//! Facts about rounding to 24 significant bits: how far a rounded value
//! lies from the exact one, and which values rounding leaves as they are.

use crate::binary32::{
    aligned, byte_fraction, carried, difference, excess_bits, floor_of, lemma_excess_bound,
    lemma_excess_lower, lemma_pow2_below, lemma_pow2_monotonic, lemma_pow2_values, lower_exp,
    product, quotient_shift, round_half_even, round_sig, small_int, sum, Dyadic,
};
use vstd::arithmetic::div_mod::*;
use vstd::arithmetic::power2::*;
use vstd::prelude::*;

verus! {

/// `d` times `2^c`, for a `c` that makes the exponent non-negative.
pub open spec fn value_at(d: Dyadic, c: int) -> nat {
    d.mant * pow2((d.exp + c) as nat)
}

/// Rounding a quotient to the nearest integer moves it by at most a half.
pub proof fn lemma_round_half_even_error(n: nat, d: nat)
    requires
        d > 0,
    ensures
        2 * (round_half_even(n, d) * d) <= 2 * n + d,
        2 * n <= 2 * (round_half_even(n, d) * d) + d,
{
    let q: nat = n / d;
    let r: nat = n % d;
    lemma_fundamental_div_mod(n as int, d as int);
    assert(n == d * q + r);
    assert(d * q == q * d) by (nonlinear_arith);
    assert((q + 1) * d == q * d + d) by (nonlinear_arith);
}

/// A value with `s >= 1` excess bits is at least `2^23 * 2^s`.
pub proof fn lemma_excess_floor(x: nat, s: nat)
    requires
        s >= 1,
        excess_bits(x) == s,
    ensures
        x >= 0x80_0000 * pow2(s),
{
    lemma_excess_lower(x, s);
    lemma_pow2_unfold(s);
    let p: nat = pow2((s - 1) as nat);
    assert(0x80_0000 * (2 * p) == 0x100_0000 * p) by (nonlinear_arith);
}

/// Carrying a significand of `2^24` over keeps the value.
pub proof fn lemma_carried_value(m: nat, e: int, c: int)
    requires
        e + c >= 0,
    ensures
        value_at(carried(m, e), c) == m * pow2((e + c) as nat),
        carried(m, e).exp >= e,
{
    if m == 0x100_0000 {
        lemma_pow2_unfold((e + c + 1) as nat);
        let p: nat = pow2((e + c) as nat);
        assert(0x80_0000 * (2 * p) == 0x100_0000 * p) by (nonlinear_arith);
    }
}

/// `x` rounded to 24 significant bits, as an integer.
pub open spec fn rounded(x: nat) -> nat {
    round_half_even(x, pow2(excess_bits(x))) * pow2(excess_bits(x))
}

/// The value that `round_sig` gives is `rounded` at the exponent's scale.
pub proof fn lemma_round_sig_value(x: nat, e: int, c: int)
    requires
        e + c >= 0,
    ensures
        value_at(round_sig(x, e), c) == rounded(x) * pow2((e + c) as nat),
        round_sig(x, e).exp + c >= 0,
{
    let s: nat = excess_bits(x);
    let p: nat = pow2(s);
    let m: nat = round_half_even(x, p);
    lemma_carried_value(m, e + s, c);
    lemma_pow2_adds(s, (e + c) as nat);
    let t: nat = pow2((e + c) as nat);
    assert(m * (p * t) == (m * p) * t) by (nonlinear_arith);
}

/// Rounding an integer to 24 significant bits moves it by at most one part
/// in `2^24`.
pub proof fn lemma_round_sig_error(x: nat, e: int, c: int)
    requires
        e + c >= 0,
    ensures
        round_sig(x, e).exp >= e,
        0x100_0000 * value_at(round_sig(x, e), c) <= 0x100_0001 * (x * pow2((e + c) as nat)),
        0xff_ffff * (x * pow2((e + c) as nat)) <= 0x100_0000 * value_at(round_sig(x, e), c),
{
    let s: nat = excess_bits(x);
    let p: nat = pow2(s);
    let m: nat = round_half_even(x, p);
    lemma_pow2_pos(s);
    lemma_round_half_even_error(x, p);
    lemma_carried_value(m, e + s, c);
    lemma_pow2_adds(s, (e + c) as nat);
    let t: nat = pow2((e + c) as nat);
    lemma_pow2_pos((e + c) as nat);
    // the rounded value, at the scale of `x`
    let v: nat = m * p;
    assert(value_at(round_sig(x, e), c) == v * t) by {
        assert(m * (p * t) == (m * p) * t) by (nonlinear_arith);
    }
    if s == 0 {
        lemma2_to64();
        assert(x / 1 == x && x % 1 == 0);
        assert(m == x);
        assert(v == x) by (nonlinear_arith)
            requires
                v == m * p,
                p == 1,
                m == x,
        ;
    } else {
        lemma_excess_floor(x, s);
        // 2 |v - x| <= p and 2^23 p <= x
        assert(0x100_0000 * v <= 0x100_0001 * x);
        assert(0xff_ffff * x <= 0x100_0000 * v);
    }
    assert(0x100_0000 * (v * t) <= 0x100_0001 * (x * t)) by (nonlinear_arith)
        requires
            0x100_0000 * v <= 0x100_0001 * x,
            t > 0,
    ;
    assert(0xff_ffff * (x * t) <= 0x100_0000 * (v * t)) by (nonlinear_arith)
        requires
            0xff_ffff * x <= 0x100_0000 * v,
            t > 0,
    ;
}

/// The shift of a quotient brings the numerator to `2^23` times the
/// denominator at least.
pub proof fn lemma_quotient_shift_reaches(n: nat, d: nat)
    requires
        n > 0,
    ensures
        n * pow2(quotient_shift(n, d)) >= 0x80_0000 * d,
    decreases
        (if n < 0x80_0000 * d {
            0x80_0000 * d - n
        } else {
            0
        }),
{
    lemma2_to64();
    if n >= 0x80_0000 * d {
        assert(n * pow2(0) == n) by (nonlinear_arith)
            requires
                pow2(0) == 1,
        ;
    } else {
        lemma_quotient_shift_reaches(2 * n, d);
        let k: nat = quotient_shift(2 * n, d);
        lemma_pow2_unfold(k + 1);
        assert(n * (2 * pow2(k)) == (2 * n) * pow2(k)) by (nonlinear_arith);
    }
}

/// The integer part of a value is its scaled form over the scale, truncated.
pub proof fn lemma_floor_at(d: Dyadic, c: int)
    requires
        c >= 0,
        d.exp + c >= 0,
    ensures
        floor_of(d) * pow2(c as nat) <= value_at(d, c),
        value_at(d, c) < (floor_of(d) + 1) * pow2(c as nat),
{
    let t: nat = pow2(c as nat);
    lemma_pow2_pos(c as nat);
    if d.exp >= 0 {
        lemma_pow2_adds(d.exp as nat, c as nat);
        let u: nat = pow2(d.exp as nat);
        assert(d.mant * (u * t) == (d.mant * u) * t) by (nonlinear_arith);
        assert((d.mant * u) * t < (d.mant * u + 1) * t) by (nonlinear_arith)
            requires
                t > 0,
        ;
    } else {
        let down: nat = pow2((-d.exp) as nat);
        let up: nat = pow2((d.exp + c) as nat);
        lemma_pow2_pos((-d.exp) as nat);
        lemma_pow2_pos((d.exp + c) as nat);
        lemma_pow2_adds((-d.exp) as nat, (d.exp + c) as nat);
        assert(t == down * up);
        let f: nat = d.mant / down;
        let r: nat = d.mant % down;
        lemma_fundamental_div_mod(d.mant as int, down as int);
        assert(d.mant == down * f + r);
        assert(f * (down * up) <= (down * f + r) * up) by (nonlinear_arith)
            requires
                r >= 0,
                up > 0,
        ;
        assert((down * f + r) * up < (f + 1) * (down * up)) by (nonlinear_arith)
            requires
                r < down,
                up > 0,
        ;
    }
}

/// The shift of a quotient keeps the numerator below `2^24` times the
/// denominator.
pub proof fn lemma_quotient_shift_stays(n: nat, d: nat)
    requires
        0 < n < 0x100_0000 * d,
    ensures
        n * pow2(quotient_shift(n, d)) < 0x100_0000 * d,
    decreases
        (if n < 0x80_0000 * d {
            0x80_0000 * d - n
        } else {
            0
        }),
{
    lemma2_to64();
    if n >= 0x80_0000 * d {
        assert(n * pow2(0) == n) by (nonlinear_arith)
            requires
                pow2(0) == 1,
        ;
    } else {
        lemma_quotient_shift_stays(2 * n, d);
        let k: nat = quotient_shift(2 * n, d);
        lemma_pow2_unfold(k + 1);
        assert(n * (2 * pow2(k)) == (2 * n) * pow2(k)) by (nonlinear_arith);
    }
}

/// A multiple of `2^j` below `2^24 * 2^j` has at most 24 significant bits,
/// and rounding leaves it as it is.
pub proof fn lemma_rounded_exact(x: nat, j: nat)
    requires
        x % pow2(j) == 0,
        x < 0x100_0000 * pow2(j),
    ensures
        rounded(x) == x,
{
    lemma_excess_bound(x, j);
    let s: nat = excess_bits(x);
    let p: nat = pow2(s);
    let w: nat = pow2(j);
    lemma_pow2_pos(s);
    lemma_pow2_pos(j);
    lemma_pow2_adds(s, (j - s) as nat);
    let h: nat = pow2((j - s) as nat);
    let t: nat = x / w;
    lemma_fundamental_div_mod(x as int, w as int);
    assert(x == p * (h * t)) by (nonlinear_arith)
        requires
            x == w * t,
            w == p * h,
    ;
    assert(x == (h * t) * p + 0) by (nonlinear_arith)
        requires
            x == p * (h * t),
    ;
    lemma_fundamental_div_mod_converse(x as int, p as int, (h * t) as int, 0);
    assert(round_half_even(x, p) == h * t);
}

/// The largest 8-bit value is the whole: `255 / 255` is one, `2^23 * 2^-23`.
pub proof fn lemma_full_byte_is_one()
    ensures
        byte_fraction(255) == (Dyadic { mant: 0x80_0000, exp: -23 }),
{
    lemma2_to64();
    lemma_pow2_values();
    lemma_quotient_shift_reaches(255, 255);
    lemma_quotient_shift_stays(255, 255);
    let k: nat = quotient_shift(255, 255);
    let p: nat = pow2(k);
    assert(0x80_0000 <= p < 0x100_0000) by (nonlinear_arith)
        requires
            255 * p >= 0x80_0000 * 255,
            255 * p < 0x100_0000 * 255,
    ;
    if k < 23 {
        lemma_pow2_strictly_increases(k, 23);
    }
    if k > 23 {
        lemma_pow2_monotonic(24, k);
    }
    assert(k == 23);
    assert(255 * p == 0x80_0000 * 255 + 0);
    lemma_fundamental_div_mod_converse((255 * p) as int, 255, 0x80_0000, 0);
}

/// A value written with a lower exponent is the same value.
pub proof fn lemma_aligned_value(d: Dyadic, e: int, c: int)
    requires
        e <= d.exp,
        e + c >= 0,
    ensures
        aligned(d, e) * pow2((e + c) as nat) == value_at(d, c),
{
    lemma_pow2_adds((d.exp - e) as nat, (e + c) as nat);
    let p: nat = pow2((d.exp - e) as nat);
    let t: nat = pow2((e + c) as nat);
    assert((d.mant * p) * t == d.mant * (p * t)) by (nonlinear_arith);
}

/// An integer times a value, rounded, is the exact product within one part
/// in `2^24`.
pub proof fn lemma_scaled_error(f: nat, a: Dyadic, c: int)
    requires
        a.exp + c >= 0,
    ensures
        product(small_int(f), a).exp >= a.exp,
        0x100_0000 * value_at(product(small_int(f), a), c) <= 0x100_0001 * (f * value_at(a, c)),
        0xff_ffff * (f * value_at(a, c)) <= 0x100_0000 * value_at(product(small_int(f), a), c),
{
    lemma_round_sig_error(f * a.mant, a.exp, c);
    let t: nat = pow2((a.exp + c) as nat);
    assert((f * a.mant) * t == f * (a.mant * t)) by (nonlinear_arith);
}

/// The rounded difference of two values is the exact one within one part in
/// `2^24`.
pub proof fn lemma_difference_error(a: Dyadic, b: Dyadic, c: int)
    requires
        a.exp + c >= 0,
        b.exp + c >= 0,
        value_at(a, c) >= value_at(b, c),
    ensures
        difference(a, b).exp >= lower_exp(a, b),
        0x100_0000 * value_at(difference(a, b), c) <= 0x100_0001 * (value_at(a, c) - value_at(
            b,
            c,
        )),
        0xff_ffff * (value_at(a, c) - value_at(b, c)) <= 0x100_0000 * value_at(
            difference(a, b),
            c,
        ),
{
    let e: int = lower_exp(a, b);
    let x: nat = aligned(a, e);
    let y: nat = aligned(b, e);
    let t: nat = pow2((e + c) as nat);
    lemma_pow2_pos((e + c) as nat);
    lemma_aligned_value(a, e, c);
    lemma_aligned_value(b, e, c);
    assert(x >= y) by (nonlinear_arith)
        requires
            x * t >= y * t,
            t > 0,
    ;
    lemma_round_sig_error((x - y) as nat, e, c);
    assert(((x - y) as nat) * t == x * t - y * t) by (nonlinear_arith)
        requires
            x >= y,
    ;
}

/// The rounded sum of two values is the exact one within one part in `2^24`.
pub proof fn lemma_sum_error(a: Dyadic, b: Dyadic, c: int)
    requires
        a.exp + c >= 0,
        b.exp + c >= 0,
    ensures
        sum(a, b).exp + c >= 0,
        0x100_0000 * value_at(sum(a, b), c) <= 0x100_0001 * (value_at(a, c) + value_at(b, c)),
        0xff_ffff * (value_at(a, c) + value_at(b, c)) <= 0x100_0000 * value_at(sum(a, b), c),
{
    if a.mant == 0 {
        assert(value_at(a, c) == 0) by (nonlinear_arith)
            requires
                value_at(a, c) == a.mant * pow2((a.exp + c) as nat),
                a.mant == 0,
        ;
    } else if b.mant == 0 {
        assert(value_at(b, c) == 0) by (nonlinear_arith)
            requires
                value_at(b, c) == b.mant * pow2((b.exp + c) as nat),
                b.mant == 0,
        ;
    } else {
        let e: int = lower_exp(a, b);
        let x: nat = aligned(a, e);
        let y: nat = aligned(b, e);
        let t: nat = pow2((e + c) as nat);
        lemma_aligned_value(a, e, c);
        lemma_aligned_value(b, e, c);
        lemma_round_sig_error(x + y, e, c);
        assert((x + y) * t == x * t + y * t) by (nonlinear_arith);
    }
}

/// An 8-bit value as a fraction is at most one, and its exponent is not
/// below -31.
pub proof fn lemma_fraction_at_most_one(v: u8, c: int)
    requires
        c >= 31,
    ensures
        byte_fraction(v).exp >= -31,
        value_at(byte_fraction(v), c) <= pow2(c as nat),
{
    lemma2_to64();
    lemma_pow2_values();
    lemma_pow2_pos(c as nat);
    if v == 0 {
        assert(0 * pow2(c as nat) == 0) by (nonlinear_arith);
    } else {
        let k: nat = quotient_shift(v as nat, 255);
        let p: nat = pow2(k);
        lemma_quotient_shift_stays(v as nat, 255);
        lemma_pow2_pos(k);
        assert(p < 0x1_0000_0000) by (nonlinear_arith)
            requires
                v * p < 0x100_0000 * 255,
                v >= 1,
        ;
        lemma_pow2_below(k, 32);
        let n: nat = v as nat * p;
        let m: nat = round_half_even(n, 255);
        // the quotient is at most 2^k, since v is at most 255
        lemma_fundamental_div_mod(n as int, 255);
        assert(m <= p) by (nonlinear_arith)
            requires
                n == v * p,
                v <= 255,
                n == 255 * (n / 255) + n % 255,
                0 <= n % 255 < 255,
                m <= n / 255 + 1,
                (n / 255 == p) ==> m == p || n % 255 > 0,
                m >= n / 255,
                2 * (n % 255) < 255 ==> m == n / 255,
        ;
        lemma_carried_value(m, 0 - k, c);
        let t: nat = pow2((c - k) as nat);
        lemma_pow2_adds(k, (c - k) as nat);
        assert(m * t <= p * t) by (nonlinear_arith)
            requires
                m <= p,
        ;
    }
}

} // verus!
