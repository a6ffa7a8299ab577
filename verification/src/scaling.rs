//! How far the sizes that normalising computes can lie from the exact ones.
//!
//! The longest side of an image beyond the limit becomes the limit itself.
//! The other side is computed in single precision, where every rounding to
//! 24 significant bits moves a value by at most one part in `2^24`: it is
//! rounded four times (the two sides, the factor, the product), so it is the
//! exact `side * 4096 / longest` within a few parts in `2^24`, and
//! truncation then makes it an integer.

use crate::binary32::{
    carried, floor_of, lemma_pow2_values, product, quotient_shift, round_half_even, round_sig,
    Dyadic,
};
use crate::rounding::{
    lemma_carried_value, lemma_floor_at, lemma_quotient_shift_reaches,
    lemma_round_half_even_error, lemma_round_sig_error, value_at,
};
use crate::normalizer::{
    downscale_factor, downscaled_side, longest_side, normalized_size, within_limit,
};
use vstd::arithmetic::div_mod::*;
use vstd::arithmetic::power2::*;
use vstd::prelude::*;

verus! {

/// A scaled side against the exact `side * 4096 / longest`: it is at most
/// that times `(1 + 2^-24)^3 / (1 - 2^-24)`, and one more than it is above
/// that times `(1 - 2^-24)^3 / (1 + 2^-24)`.
pub proof fn lemma_downscaled_side_error(side: u32, longest: u32)
    requires
        longest >= 1,
    ensures
        ({
            let n = floor_of(
                product(round_sig(side as nat, 0), downscale_factor(longest)),
            );
            &&& n * longest * (0x1_0000_0000_0000 * 0xff_ffff) <= 4096 * (0x100_0001 * 0x100_0001
                * 0x100_0001) * side
            &&& (n + 1) * longest * (0x1_0000_0000_0000 * 0x100_0001) > 4096 * (0xff_ffff
                * 0xff_ffff * 0xff_ffff) * side
        }),
{
    lemma2_to64();
    lemma_pow2_values();
    let x: nat = side as nat;
    let big: nat = longest as nat;
    let a: Dyadic = round_sig(x, 0);
    let b: Dyadic = round_sig(big, 0);
    // the two sides, rounded
    lemma_round_sig_error(x, 0, 0);
    lemma_round_sig_error(big, 0, 0);
    let va: nat = value_at(a, 0);
    let vb: nat = value_at(b, 0);
    assert(x * pow2(0) == x && big * pow2(0) == big) by (nonlinear_arith)
        requires
            pow2(0) == 1,
    ;
    assert(vb > 0) by {
        assert(0xff_ffff * big <= 0x100_0000 * vb);
    }
    assert(b.mant > 0) by {
        if b.mant == 0 {
            assert(0 * pow2(b.exp as nat) == 0) by (nonlinear_arith);
        }
    }
    // the factor
    let k: nat = quotient_shift(4096, b.mant);
    let num: nat = 4096 * pow2(k);
    let mq: nat = round_half_even(num, b.mant);
    let q: Dyadic = downscale_factor(longest);
    assert(q == carried(mq, 0 - b.exp - k));
    lemma_quotient_shift_reaches(4096, b.mant);
    lemma_round_half_even_error(num, b.mant);
    let c: int = b.exp + k;
    lemma_carried_value(mq, 0 - b.exp - k, c);
    assert(value_at(q, c) == mq) by (nonlinear_arith)
        requires
            value_at(q, c) == mq * pow2(0),
            pow2(0) == 1,
    ;
    // 2^24 |mq b - num| <= num
    let qb: nat = mq * b.mant;
    assert(0x100_0000 * qb <= 0x100_0001 * num);
    assert(0xff_ffff * num <= 0x100_0000 * qb);
    // the product
    let xs: nat = a.mant * q.mant;
    let p: Dyadic = product(a, q);
    assert(p == round_sig(xs, a.exp + q.exp));
    lemma_round_sig_error(xs, a.exp + q.exp, c);
    let y: nat = value_at(p, c);
    // what the product rounds: the rounded side times the factor's significand
    let z: nat = va * mq;
    assert(xs * pow2((a.exp + q.exp + c) as nat) == z) by {
        lemma_pow2_adds(a.exp as nat, (q.exp + c) as nat);
        let ta: nat = pow2(a.exp as nat);
        let tq: nat = pow2((q.exp + c) as nat);
        assert((a.mant * q.mant) * (ta * tq) == (a.mant * ta) * (q.mant * tq)) by (nonlinear_arith);
    }
    assert(0x100_0000 * y <= 0x100_0001 * z);
    assert(0xff_ffff * z <= 0x100_0000 * y);
    // the integer part
    lemma_floor_at(p, c);
    let n: nat = floor_of(p);
    let t: nat = pow2(c as nat);
    lemma_pow2_pos(c as nat);
    lemma_pow2_pos(k);
    lemma_pow2_pos(b.exp as nat);
    let tk: nat = pow2(k);
    assert(t == pow2(b.exp as nat) * tk) by {
        lemma_pow2_adds(b.exp as nat, k);
    }
    // n vb 2^k <= y b, and y b < (n + 1) vb 2^k
    let yb: nat = y * b.mant;
    let te: nat = pow2(b.exp as nat);
    assert(n * vb * tk == (n * t) * b.mant) by (nonlinear_arith)
        requires
            t == te * tk,
            vb == b.mant * te,
    ;
    assert((n + 1) * vb * tk == ((n + 1) * t) * b.mant) by (nonlinear_arith)
        requires
            t == te * tk,
            vb == b.mant * te,
    ;
    assert((n * t) * b.mant <= yb) by (nonlinear_arith)
        requires
            n * t <= y,
            yb == y * b.mant,
    ;
    assert(yb < ((n + 1) * t) * b.mant) by (nonlinear_arith)
        requires
            y < (n + 1) * t,
            yb == y * b.mant,
            b.mant > 0,
    ;
    // y b against va num
    let zb: nat = z * b.mant;
    assert(zb == va * qb) by (nonlinear_arith)
        requires
            zb == (va * mq) * b.mant,
            qb == mq * b.mant,
    ;
    assert(0x100_0000 * yb <= 0x100_0001 * zb) by (nonlinear_arith)
        requires
            0x100_0000 * y <= 0x100_0001 * z,
            yb == y * b.mant,
            zb == z * b.mant,
    ;
    assert(0xff_ffff * zb <= 0x100_0000 * yb) by (nonlinear_arith)
        requires
            0xff_ffff * z <= 0x100_0000 * y,
            yb == y * b.mant,
            zb == z * b.mant,
    ;
    let vn: nat = va * num;
    assert(0x100_0000 * zb <= 0x100_0001 * vn) by (nonlinear_arith)
        requires
            zb == va * qb,
            vn == va * num,
            0x100_0000 * qb <= 0x100_0001 * num,
    ;
    assert(0xff_ffff * vn <= 0x100_0000 * zb) by (nonlinear_arith)
        requires
            zb == va * qb,
            vn == va * num,
            0xff_ffff * num <= 0x100_0000 * qb,
    ;
    // drop 2^k: 2^48 n vb <= (2^24 + 1)^2 4096 va
    let nv: nat = n * vb;
    let nv1: nat = (n + 1) * vb;
    assert(vn == (4096 * va) * tk) by (nonlinear_arith)
        requires
            vn == va * (4096 * tk),
    ;
    assert(0x1_0000_0000_0000 * nv <= (0x100_0001 * 0x100_0001) * (4096 * va)) by (nonlinear_arith)
        requires
            nv * tk <= yb,
            nv == n * vb,
            0x100_0000 * yb <= 0x100_0001 * zb,
            0x100_0000 * zb <= 0x100_0001 * vn,
            vn == (4096 * va) * tk,
            tk > 0,
    ;
    assert(0x1_0000_0000_0000 * nv1 > (0xff_ffff * 0xff_ffff) * (4096 * va)) by (nonlinear_arith)
        requires
            yb < nv1 * tk,
            0xff_ffff * zb <= 0x100_0000 * yb,
            0xff_ffff * vn <= 0x100_0000 * zb,
            vn == (4096 * va) * tk,
            tk > 0,
    ;
    // the two sides against their rounded values
    assert(n * big * (0x1_0000_0000_0000 * 0xff_ffff) <= 4096 * (0x100_0001 * 0x100_0001
        * 0x100_0001) * x) by (nonlinear_arith)
        requires
            nv == n * vb,
            0x1_0000_0000_0000 * nv <= (0x100_0001 * 0x100_0001) * (4096 * va),
            0x100_0000 * va <= 0x100_0001 * x,
            0xff_ffff * big <= 0x100_0000 * vb,
    ;
    assert((n + 1) * big * (0x1_0000_0000_0000 * 0x100_0001) > 4096 * (0xff_ffff * 0xff_ffff
        * 0xff_ffff) * x) by (nonlinear_arith)
        requires
            nv1 == (n + 1) * vb,
            0x1_0000_0000_0000 * nv1 > (0xff_ffff * 0xff_ffff) * (4096 * va),
            0xff_ffff * x <= 0x100_0000 * va,
            0x100_0000 * vb <= 0x100_0001 * big,
    ;
}

/// The exact scaled side: `side * 4096 / longest`, truncated.
pub open spec fn ideal_side(side: u32, longest: u32) -> int {
    4096 * side / (longest as int)
}

/// A side times the factor of a side at least as long comes out at most
/// 4096, and within one pixel of the exact `side * 4096 / longest`.
pub proof fn lemma_downscaled_side_bounds(side: u32, longest: u32)
    requires
        1 <= longest,
        side <= longest,
    ensures
        downscaled_side(side, longest) <= 4096,
        ideal_side(side, longest) - 1 <= downscaled_side(side, longest) <= ideal_side(
            side,
            longest,
        ) + 1,
        longest > 4096 ==> downscaled_side(side, longest) <= side,
{
    lemma_downscaled_side_error(side, longest);
    let n: nat = floor_of(product(round_sig(side as nat, 0), downscale_factor(longest)));
    let x: int = side as int;
    let big: int = longest as int;
    let nm: int = n * big;
    // the constants of the two bounds
    let k1: int = 0x1_0000_0000_0000int * 0xff_ffff;
    let k2: int = 0x100_0001int * 0x100_0001 * 0x100_0001;
    let k3: int = 0x1_0000_0000_0000int * 0x100_0001;
    let k4: int = 0xff_ffffint * 0xff_ffff * 0xff_ffff;
    assert(4096 * (k2 - k1) < k1 && 4096 * (k3 - k4) < k3) by {
        assert(k1 == 0xffffff000000000000);
        assert(k2 == 0x1000003000003000001);
        assert(k3 == 0x1000001000000000000);
        assert(k4 == 0xfffffd000002ffffff);
    }
    assert(nm * k1 <= 4096 * k2 * x);
    assert((nm + big) * k3 > 4096 * k4 * x) by (nonlinear_arith)
        requires
            (n + 1) * big * k3 > 4096 * k4 * x,
            nm == n * big,
    ;
    // n M - 4096 x < M
    let over: int = 4096 * (k2 - k1);
    assert((nm - 4096 * x) * k1 <= over * x) by (nonlinear_arith)
        requires
            nm * k1 <= 4096 * k2 * x,
            over == 4096 * (k2 - k1),
    ;
    assert(over * x <= over * big && over * big < k1 * big) by (nonlinear_arith)
        requires
            0 <= over < k1,
            0 <= x <= big,
            big >= 1,
    ;
    assert(nm - 4096 * x < big) by (nonlinear_arith)
        requires
            (nm - 4096 * x) * k1 < k1 * big,
            k1 > 0,
    ;
    // 4096 x - (n + 1) M < M
    let under: int = 4096 * (k3 - k4);
    assert((4096 * x - (nm + big)) * k3 < under * x) by (nonlinear_arith)
        requires
            (nm + big) * k3 > 4096 * k4 * x,
            under == 4096 * (k3 - k4),
    ;
    assert(under * x <= under * big && under * big < k3 * big) by (nonlinear_arith)
        requires
            0 <= under < k3,
            0 <= x <= big,
            big >= 1,
    ;
    assert(4096 * x - (nm + big) < big) by (nonlinear_arith)
        requires
            (4096 * x - (nm + big)) * k3 < k3 * big,
            k3 > 0,
    ;
    // so n <= 4096, and the integer part is not capped
    assert(n <= 4096) by (nonlinear_arith)
        requires
            nm == n * big,
            nm - 4096 * x < big,
            0 <= x <= big,
            big >= 1,
    ;
    assert(downscaled_side(side, longest) == n);
    let ideal: int = ideal_side(side, longest);
    lemma_fundamental_div_mod(4096 * x, big);
    assert(big * ideal <= 4096 * x < big * ideal + big);
    assert(n <= ideal + 1) by (nonlinear_arith)
        requires
            nm == n * big,
            nm - 4096 * x < big,
            4096 * x < big * ideal + big,
            big >= 1,
    ;
    assert(ideal - 1 <= n) by (nonlinear_arith)
        requires
            nm == n * big,
            4096 * x - (nm + big) < big,
            big * ideal <= 4096 * x,
            big >= 1,
    ;
    if longest > 4096 {
        // the exact share is below the side, so one more is at most the side
        assert(n <= x) by (nonlinear_arith)
            requires
                nm == n * big,
                nm - 4096 * x < big,
                big > 4096,
                0 <= x,
                0 <= n,
        ;
    }
}

/// An image within the limit keeps its size.
pub proof fn law_small_image_keeps_its_size(width: u32, height: u32)
    requires
        width <= 4096,
        height <= 4096,
    ensures
        normalized_size(width, height) == (width as nat, height as nat),
{
}

/// An image beyond the limit is scaled so that its longer side becomes
/// 4096 pixels exactly; no side exceeds 4096 or grows; and each side is
/// within one pixel of its exact share, `side * 4096 / longest`, so that
/// the proportions are kept to the pixel.
pub proof fn law_large_image_is_scaled_to_the_limit(width: u32, height: u32)
    requires
        width > 4096 || height > 4096,
    ensures
        ({
            let size = normalized_size(width, height);
            let longest = longest_side(width, height);
            &&& size.0 <= 4096
            &&& size.1 <= 4096
            &&& size.0 <= width
            &&& size.1 <= height
            &&& width >= height ==> size.0 == 4096
            &&& height >= width ==> size.1 == 4096
            &&& ideal_side(width, longest) - 1 <= size.0 <= ideal_side(width, longest) + 1
            &&& ideal_side(height, longest) - 1 <= size.1 <= ideal_side(height, longest) + 1
        }),
{
    let longest: u32 = longest_side(width, height);
    lemma_downscaled_side_bounds(width, longest);
    lemma_downscaled_side_bounds(height, longest);
    assert(ideal_side(longest, longest) == 4096) by {
        lemma_fundamental_div_mod_converse(4096 * longest, longest as int, 4096, 0);
    }
}

/// Whatever its size, a normalised image has no side beyond the limit.
pub proof fn lemma_normalized_size_within_limit(width: u32, height: u32)
    ensures
        normalized_size(width, height).0 <= 4096,
        normalized_size(width, height).1 <= 4096,
{
    if !within_limit(width, height) {
        law_large_image_is_scaled_to_the_limit(width, height);
    }
}

} // verus!
