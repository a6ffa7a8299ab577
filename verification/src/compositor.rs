//! Edge softening of the mask and alpha compositing over a background.
//!
//! The blend is defined in single-precision arithmetic, each step rounded and
//! the result truncated; `crate::binary32` carries that arithmetic out on
//! integers, so the output is the same on every machine.

use crate::binary32::{
    aligned, byte_fraction, difference, floor_capped, floor_of, fraction_of_byte,
    lemma_excess_bound, lemma_pow2_monotonic, lemma_pow2_values, lower_exp, product, round_sig,
    small_int, sum, Binary32, Dyadic, SIG_LIMIT,
};
use crate::raster::{is_mask, is_rgba, lemma_cell_in_grid, AlphaMask, CanonicalImage, Raster};
use crate::rounding::{
    lemma_difference_error, lemma_floor_at, lemma_fraction_at_most_one, lemma_full_byte_is_one,
    lemma_round_sig_value, lemma_rounded_exact, lemma_scaled_error, lemma_sum_error, rounded,
    value_at,
};
use vstd::arithmetic::power2::*;
use vstd::prelude::*;

verus! {

/// What replaces the removed background.
#[derive(Clone, Copy, Debug, PartialEq, Eq)]
pub enum BackgroundColor {
    Transparent,
    White,
    Black,
    Color { r: u8, g: u8, b: u8 },
}

/// An index held inside `0..n`: the border is replicated.
pub open spec fn clamped(i: int, n: int) -> int {
    if i < 0 {
        0
    } else if i >= n {
        n - 1
    } else {
        i
    }
}

/// The mask value at column `x` of row `y`, or at the nearest cell of the grid.
pub open spec fn tap(m: Raster, x: int, y: int) -> int {
    m.samples[clamped(y, m.height as int) * m.width + clamped(x, m.width as int)] as int
}

/// One row of the kernel, weights 1-2-1, centred on column `x`.
pub open spec fn blur_row(m: Raster, x: int, y: int) -> int {
    tap(m, x - 1, y) + 2 * tap(m, x, y) + tap(m, x + 1, y)
}

/// The whole kernel, 1-2-1 / 2-4-2 / 1-2-1, centred on `(x, y)`.
pub open spec fn blur_total(m: Raster, x: int, y: int) -> int {
    blur_row(m, x, y - 1) + 2 * blur_row(m, x, y) + blur_row(m, x, y + 1)
}

/// The softened mask value: the kernel's total over 16, truncated.
pub open spec fn blurred_value(m: Raster, x: int, y: int) -> u8 {
    (blur_total(m, x, y) / 16) as u8
}

/// The softened mask.
pub open spec fn blurred(m: Raster) -> Raster {
    Raster {
        width: m.width,
        height: m.height,
        samples: Seq::new(
            m.samples.len(),
            |i: int| blurred_value(m, i % (m.width as int), i / (m.width as int)),
        ),
    }
}

/// The mask value as a fraction: `alpha / 255`, rounded.
pub open spec fn opacity(alpha: u8) -> Dyadic {
    byte_fraction(alpha)
}

/// What is left for the background: `1 - alpha / 255`, rounded.
pub open spec fn transparency(alpha: u8) -> Dyadic {
    difference(small_int(1), opacity(alpha))
}

/// `fg * a + bg * (1 - a)` with `a = alpha / 255`, each step rounded.
pub open spec fn blend_value(fg: u8, bg: u8, alpha: u8) -> Dyadic {
    sum(
        product(small_int(fg as nat), opacity(alpha)),
        product(small_int(bg as nat), transparency(alpha)),
    )
}

/// One colour channel of the foreground over the background, truncated.
pub open spec fn blend_channel(fg: u8, bg: u8, alpha: u8) -> u8 {
    floor_capped(blend_value(fg, bg, alpha), 255) as u8
}

/// The background's value in channel `c` (0 red, 1 green, 2 blue).
pub open spec fn background_channel(bg: BackgroundColor, c: int) -> u8 {
    match bg {
        BackgroundColor::Transparent => 0,
        BackgroundColor::White => 255,
        BackgroundColor::Black => 0,
        BackgroundColor::Color { r, g, b } => if c == 0 {
            r
        } else if c == 1 {
            g
        } else {
            b
        },
    }
}

/// Sample `i` of the composite of `img` under the softened mask `soft`.
/// Over no background the colour stays and the mask becomes the alpha; over
/// a colour the channels are blended and the result is opaque.
pub open spec fn composite_sample(img: Raster, soft: Raster, bg: BackgroundColor, i: int) -> u8 {
    let alpha = soft.samples[i / 4];
    let c = i % 4;
    match bg {
        BackgroundColor::Transparent => if c == 3 {
            alpha
        } else {
            img.samples[i]
        },
        _ => if c == 3 {
            255
        } else {
            blend_channel(img.samples[i], background_channel(bg, c), alpha)
        },
    }
}

/// The composite of `img` under the softened mask `soft`.
pub open spec fn composited(img: Raster, soft: Raster, bg: BackgroundColor) -> Raster {
    Raster {
        width: img.width,
        height: img.height,
        samples: Seq::new(img.samples.len(), |i: int| composite_sample(img, soft, bg, i)),
    }
}

/// The two weights of a blend, with the bounds that keep the arithmetic in range.
pub open spec fn weights_ok(alpha: u8, fore: Binary32, back: Binary32) -> bool {
    &&& fore@ == opacity(alpha)
    &&& back@ == transparency(alpha)
    &&& fore.mant < SIG_LIMIT
    &&& back.mant < SIG_LIMIT
    &&& -31 <= fore.exp <= 1
    &&& -31 <= back.exp <= 10
}

/// The weights `alpha / 255` and `1 - alpha / 255`.
fn weights_for(alpha: u8) -> (w: (Binary32, Binary32))
    ensures
        weights_ok(alpha, w.0, w.1),
{
    let fore: Binary32 = fraction_of_byte(alpha);
    let back: Binary32 = Binary32::small(1).minus(fore);
    proof {
        let low: int = lower_exp(small_int(1), fore@);
        let x: nat = aligned(small_int(1), low);
        lemma_pow2_monotonic((0 - low) as nat, 31);
        assert(x == pow2((0 - low) as nat)) by (nonlinear_arith)
            requires
                x == 1 * pow2((0 - low) as nat),
        ;
        lemma2_to64();
        lemma_excess_bound(x, 8);
    }
    (fore, back)
}

/// Blends one channel with weights already computed.
fn blend_with(fg: u8, bg: u8, fore: Binary32, back: Binary32) -> (v: u8)
    requires
        fore.mant < SIG_LIMIT,
        back.mant < SIG_LIMIT,
        -31 <= fore.exp <= 1,
        -31 <= back.exp <= 10,
    ensures
        v == floor_capped(
            sum(product(small_int(fg as nat), fore@), product(small_int(bg as nat), back@)),
            255,
        ),
{
    proof {
        lemma2_to64();
        assert(fg as nat * fore.mant as nat <= 0xff * 0xff_ffff) by (nonlinear_arith)
            requires
                fg <= 0xff,
                fore.mant <= 0xff_ffff,
        ;
        assert(bg as nat * back.mant as nat <= 0xff * 0xff_ffff) by (nonlinear_arith)
            requires
                bg <= 0xff,
                back.mant <= 0xff_ffff,
        ;
        lemma_excess_bound(fg as nat * fore.mant as nat, 8);
        lemma_excess_bound(bg as nat * back.mant as nat, 8);
    }
    let kept: Binary32 = Binary32::small(fg as u32).times(fore);
    let filled: Binary32 = Binary32::small(bg as u32).times(back);
    let total: Binary32 = kept.plus(filled);
    total.floor_to(255) as u8
}

/// One colour channel of the foreground `fg` over the background `bg`
/// where the mask is `alpha`.
pub fn blend(fg: u8, bg: u8, alpha: u8) -> (v: u8)
    ensures
        v == blend_channel(fg, bg, alpha),
{
    let w: (Binary32, Binary32) = weights_for(alpha);
    blend_with(fg, bg, w.0, w.1)
}

/// The clamped coordinate `i + d - 1` for `d` in `0..3`.
fn clamp_step(i: u32, d: u32, n: u32) -> (c: u32)
    requires
        i < n,
        d < 3,
    ensures
        c == clamped(i + d - 1, n as int),
        c < n,
{
    if d == 0 {
        if i == 0 {
            0
        } else {
            i - 1
        }
    } else if d == 1 {
        i
    } else if i + 1 >= n {
        n - 1
    } else {
        i + 1
    }
}

/// One row of the kernel around `(x, y)`: `d` is 0 for the row above, 1 for
/// the row itself, 2 for the row below.
fn blur_row_at(mask: &AlphaMask, x: u32, y: u32, d: u32) -> (s: u32)
    requires
        x < mask@.width,
        y < mask@.height,
        d < 3,
    ensures
        s == blur_row(mask@, x as int, y + d - 1),
        s <= 1020,
{
    let w: u32 = mask.width();
    let h: u32 = mask.height();
    let cy: u32 = clamp_step(y, d, h);
    let left: u8 = mask.get_pixel(clamp_step(x, 0, w), cy);
    let mid: u8 = mask.get_pixel(clamp_step(x, 1, w), cy);
    let right: u8 = mask.get_pixel(clamp_step(x, 2, w), cy);
    left as u32 + 2 * (mid as u32) + right as u32
}

/// The softened value at `(x, y)`.
fn blur_at(mask: &AlphaMask, x: u32, y: u32) -> (v: u8)
    requires
        x < mask@.width,
        y < mask@.height,
    ensures
        v == blurred_value(mask@, x as int, y as int),
{
    let above: u32 = blur_row_at(mask, x, y, 0);
    let here: u32 = blur_row_at(mask, x, y, 1);
    let below: u32 = blur_row_at(mask, x, y, 2);
    ((above + 2 * here + below) / 16) as u8
}

/// Softens the mask with the 3x3 kernel 1-2-1 / 2-4-2 / 1-2-1 over 16,
/// replicating the border.
pub fn blur_mask(mask: &AlphaMask) -> (out: AlphaMask)
    ensures
        out@ == blurred(mask@),
        is_mask(out@),
{
    let w: u32 = mask.width();
    let h: u32 = mask.height();
    let n: usize = mask.values().len();
    let mut out: Vec<u8> = Vec::new();
    let mut y: u32 = 0;
    while y < h
        invariant
            y <= h,
            w == mask@.width,
            h == mask@.height,
            w > 0,
            n == w * h,
            out@.len() == y * w,
            forall|i: int|
                0 <= i < out@.len() ==> out@[i] == blurred_value(
                    mask@,
                    i % (w as int),
                    i / (w as int),
                ),
        decreases h - y,
    {
        let mut x: u32 = 0;
        while x < w
            invariant
                x <= w,
                y < h,
                w == mask@.width,
                h == mask@.height,
                w > 0,
                n == w * h,
                out@.len() == y * w + x,
                forall|i: int|
                    0 <= i < out@.len() ==> out@[i] == blurred_value(
                        mask@,
                        i % (w as int),
                        i / (w as int),
                    ),
            decreases w - x,
        {
            let v: u8 = blur_at(mask, x, y);
            proof {
                lemma_cell_in_grid(x as nat, y as nat, w as nat, h as nat);
            }
            out.push(v);
            x = x + 1;
        }
        proof {
            assert((y + 1) * w == y * w + w) by (nonlinear_arith);
        }
        y = y + 1;
    }
    proof {
        assert(h * w == w * h) by (nonlinear_arith);
        assert(out@ =~= blurred(mask@).samples);
    }
    AlphaMask::assemble(w, h, out)
}

/// Softens the mask's edges, then composites the image over the chosen
/// background: over `Transparent` the colour stays and the softened mask
/// becomes the alpha channel; over a colour each channel is blended and the
/// result is opaque.
///
/// The mask must have the image's dimensions.
pub fn apply_mask(img: &CanonicalImage, mask: &AlphaMask, bg: &BackgroundColor) -> (out:
    CanonicalImage)
    requires
        mask@.width == img@.width,
        mask@.height == img@.height,
    ensures
        out@ == composited(img@, blurred(mask@), *bg),
        is_rgba(out@),
{
    let soft: AlphaMask = blur_mask(mask);
    let alphas: &Vec<u8> = soft.values();
    let src: &Vec<u8> = img.pixels();
    let w: u32 = img.width();
    let h: u32 = img.height();
    let n: usize = alphas.len();
    // the weights of every mask value, computed once
    let mut fore: Vec<Binary32> = Vec::new();
    let mut back: Vec<Binary32> = Vec::new();
    let mut a: u32 = 0;
    while a < 256
        invariant
            a <= 256,
            fore@.len() == a,
            back@.len() == a,
            forall|k: int| 0 <= k < a ==> weights_ok(k as u8, #[trigger] fore@[k], back@[k]),
        decreases 256 - a,
    {
        let pair: (Binary32, Binary32) = weights_for(a as u8);
        fore.push(pair.0);
        back.push(pair.1);
        a = a + 1;
    }
    let mut out: Vec<u8> = Vec::new();
    let mut p: usize = 0;
    while p < n
        invariant
            p <= n,
            n == alphas@.len(),
            src.len() == 4 * n,
            alphas@ == blurred(mask@).samples,
            src@ == img@.samples,
            fore@.len() == 256,
            back@.len() == 256,
            forall|k: int| 0 <= k < 256 ==> weights_ok(k as u8, #[trigger] fore@[k], back@[k]),
            out@.len() == 4 * p,
            forall|i: int|
                0 <= i < out@.len() ==> out@[i] == composite_sample(
                    img@,
                    blurred(mask@),
                    *bg,
                    i,
                ),
        decreases n - p,
    {
        let alpha: u8 = alphas[p];
        let base: usize = 4 * p;
        let red: u8 = src[base];
        let green: u8 = src[base + 1];
        let blue: u8 = src[base + 2];
        let fw: Binary32 = fore[alpha as usize];
        let bw: Binary32 = back[alpha as usize];
        proof {
            assert(weights_ok(alpha, fore@[alpha as int], back@[alpha as int]));
        }
        match bg {
            BackgroundColor::Transparent => {
                out.push(red);
                out.push(green);
                out.push(blue);
                out.push(alpha);
            },
            BackgroundColor::White => {
                out.push(blend_with(red, 255, fw, bw));
                out.push(blend_with(green, 255, fw, bw));
                out.push(blend_with(blue, 255, fw, bw));
                out.push(255);
            },
            BackgroundColor::Black => {
                out.push(blend_with(red, 0, fw, bw));
                out.push(blend_with(green, 0, fw, bw));
                out.push(blend_with(blue, 0, fw, bw));
                out.push(255);
            },
            BackgroundColor::Color { r, g, b } => {
                out.push(blend_with(red, *r, fw, bw));
                out.push(blend_with(green, *g, fw, bw));
                out.push(blend_with(blue, *b, fw, bw));
                out.push(255);
            },
        }
        p = p + 1;
    }
    proof {
        assert(out@ =~= composited(img@, blurred(mask@), *bg).samples);
    }
    CanonicalImage::assemble(w, h, out)
}

/// In a mask that is `v` everywhere, every tap reads `v`.
proof fn lemma_tap_of_uniform(m: Raster, v: u8, x: int, y: int)
    requires
        is_mask(m),
        forall|i: int| 0 <= i < m.samples.len() ==> m.samples[i] == v,
    ensures
        tap(m, x, y) == v,
{
    lemma_cell_in_grid(
        clamped(x, m.width as int) as nat,
        clamped(y, m.height as int) as nat,
        m.width,
        m.height,
    );
}

/// Softening leaves a mask that is `v` everywhere as it is.
pub proof fn lemma_blur_of_uniform(m: Raster, v: u8)
    requires
        is_mask(m),
        forall|i: int| 0 <= i < m.samples.len() ==> m.samples[i] == v,
    ensures
        blurred(m).width == m.width,
        blurred(m).height == m.height,
        blurred(m).samples.len() == m.samples.len(),
        forall|i: int| 0 <= i < m.samples.len() ==> blurred(m).samples[i] == v,
{
    assert forall|i: int| 0 <= i < m.samples.len() implies blurred(m).samples[i] == v by {
        let x: int = i % (m.width as int);
        let y: int = i / (m.width as int);
        lemma_tap_of_uniform(m, v, x - 1, y - 1);
        lemma_tap_of_uniform(m, v, x, y - 1);
        lemma_tap_of_uniform(m, v, x + 1, y - 1);
        lemma_tap_of_uniform(m, v, x - 1, y);
        lemma_tap_of_uniform(m, v, x, y);
        lemma_tap_of_uniform(m, v, x + 1, y);
        lemma_tap_of_uniform(m, v, x - 1, y + 1);
        lemma_tap_of_uniform(m, v, x, y + 1);
        lemma_tap_of_uniform(m, v, x + 1, y + 1);
        assert(blur_total(m, x, y) == 16 * v);
    }
}

/// Where the mask is 0 the blend is the background's value, whatever the
/// foreground.
pub proof fn lemma_blend_at_zero(fg: u8, bg: u8)
    ensures
        blend_channel(fg, bg, 0) == bg,
{
    lemma2_to64();
    let none: Dyadic = opacity(0);
    assert(none == Dyadic { mant: 0, exp: 0 });
    let kept: Dyadic = product(small_int(fg as nat), none);
    assert(fg as nat * 0 == 0) by (nonlinear_arith);
    assert(kept.mant == 0);
    let all: Dyadic = transparency(0);
    assert(aligned(small_int(1), 0) == 1) by (nonlinear_arith)
        requires
            aligned(small_int(1), 0) == 1 * pow2(0),
            pow2(0) == 1,
    ;
    assert(aligned(none, 0) == 0) by (nonlinear_arith)
        requires
            aligned(none, 0) == 0 * pow2(0),
    ;
    assert(all == Dyadic { mant: 1, exp: 0 });
    let filled: Dyadic = product(small_int(bg as nat), all);
    assert(bg as nat * 1 == bg) by (nonlinear_arith);
    assert(filled == Dyadic { mant: bg as nat, exp: 0 });
    assert(blend_value(fg, bg, 0) == filled);
    assert(bg as nat * pow2(0) == bg) by (nonlinear_arith)
        requires
            pow2(0) == 1,
    ;
}

/// Where the mask is 255 the blend is the foreground's value, whatever the
/// background.
pub proof fn lemma_blend_at_full(fg: u8, bg: u8)
    ensures
        blend_channel(fg, bg, 255) == fg,
{
    lemma2_to64();
    lemma_pow2_values();
    lemma_full_byte_is_one();
    let one: Dyadic = opacity(255);
    assert(one == Dyadic { mant: 0x80_0000, exp: -23 });
    // nothing is left for the background
    let none: Dyadic = transparency(255);
    assert(aligned(small_int(1), -23) == 0x80_0000) by (nonlinear_arith)
        requires
            aligned(small_int(1), -23) == 1 * pow2(23),
            pow2(23) == 0x80_0000,
    ;
    assert(aligned(one, -23) == 0x80_0000) by (nonlinear_arith)
        requires
            aligned(one, -23) == 0x80_0000 * pow2(0),
            pow2(0) == 1,
    ;
    assert(none == round_sig(0, -23));
    assert(none.mant == 0);
    let filled: Dyadic = product(small_int(bg as nat), none);
    assert(bg as nat * 0 == 0) by (nonlinear_arith);
    assert(filled == round_sig(0, none.exp));
    assert(filled.mant == 0);
    // the foreground times one is the foreground
    let x: nat = fg as nat * 0x80_0000;
    let kept: Dyadic = product(small_int(fg as nat), one);
    assert(kept == round_sig(x, -23));
    assert(x % pow2(23) == 0) by {
        vstd::arithmetic::div_mod::lemma_fundamental_div_mod_converse(
            x as int,
            0x80_0000,
            fg as int,
            0,
        );
    }
    assert(x < 0x100_0000 * pow2(23)) by (nonlinear_arith)
        requires
            x == fg * 0x80_0000,
            fg < 256,
            pow2(23) == 0x80_0000,
    ;
    lemma_rounded_exact(x, 23);
    lemma_round_sig_value(x, -23, 23);
    assert(value_at(kept, 23) == x) by (nonlinear_arith)
        requires
            value_at(kept, 23) == rounded(x) * pow2(0),
            rounded(x) == x,
            pow2(0) == 1,
    ;
    lemma_floor_at(kept, 23);
    assert(floor_of(kept) == fg) by (nonlinear_arith)
        requires
            floor_of(kept) * pow2(23) <= value_at(kept, 23),
            value_at(kept, 23) < (floor_of(kept) + 1) * pow2(23),
            value_at(kept, 23) == fg * 0x80_0000,
            pow2(23) == 0x80_0000,
    ;
    if kept.mant == 0 {
        assert(value_at(kept, 23) == 0) by (nonlinear_arith)
            requires
                value_at(kept, 23) == kept.mant * pow2((kept.exp + 23) as nat),
                kept.mant == 0,
        ;
        assert(fg == 0);
        lemma_pow2_pos((-filled.exp) as nat);
        assert(floor_of(filled) == 0) by {
            if filled.exp >= 0 {
                assert(0 * pow2(filled.exp as nat) == 0) by (nonlinear_arith);
            } else {
                vstd::arithmetic::div_mod::lemma_basic_div(0, pow2((-filled.exp) as nat) as int);
            }
        }
    }
}

/// A blend does not leave the range of its two colours, but that
/// truncation can take it one below the smaller: whatever the mask, it is
/// at least the smaller of foreground and background less one, and at most
/// the larger.
pub proof fn law_blend_stays_in_range(fg: u8, bg: u8, alpha: u8)
    ensures
        blend_channel(fg, bg, alpha) <= (if fg >= bg {
            fg
        } else {
            bg
        }),
        blend_channel(fg, bg, alpha) + 1 >= (if fg <= bg {
            fg
        } else {
            bg
        }),
{
    lemma2_to64();
    lemma_pow2_values();
    let c: int = 40;
    let one: nat = pow2(40);
    lemma_pow2_pos(40);
    let a: Dyadic = opacity(alpha);
    lemma_fraction_at_most_one(alpha, c);
    let va: nat = value_at(a, c);
    // what is left for the background: one less the fraction, rounded
    let unit: Dyadic = small_int(1);
    assert(value_at(unit, c) == one) by (nonlinear_arith)
        requires
            value_at(unit, c) == 1 * pow2(40),
            one == pow2(40),
    ;
    lemma_difference_error(unit, a, c);
    let b: Dyadic = transparency(alpha);
    let vb: nat = value_at(b, c);
    assert(b.exp >= -31);
    // the two products and their sum
    lemma_scaled_error(fg as nat, a, c);
    lemma_scaled_error(bg as nat, b, c);
    let kept: Dyadic = product(small_int(fg as nat), a);
    let filled: Dyadic = product(small_int(bg as nat), b);
    let v1: nat = value_at(kept, c);
    let v2: nat = value_at(filled, c);
    lemma_sum_error(kept, filled, c);
    let total: Dyadic = blend_value(fg, bg, alpha);
    let vs: nat = value_at(total, c);
    lemma_floor_at(total, c);
    let n: nat = floor_of(total);
    let hi: nat = if fg >= bg {
        fg as nat
    } else {
        bg as nat
    };
    let lo: nat = if fg <= bg {
        fg as nat
    } else {
        bg as nat
    };
    let f: nat = fg as nat;
    let g: nat = bg as nat;
    let fa: nat = f * va;
    let gb: nat = g * vb;
    // the weights add up to one within one part in 2^24
    assert(0x100_0000 * (va + vb) <= 0x100_0001 * one);
    assert(0xff_ffff * one <= 0x100_0000 * (va + vb));
    // the weighted colours lie between the smaller and the larger colour
    assert(fa + gb <= hi * (va + vb)) by (nonlinear_arith)
        requires
            fa == f * va,
            gb == g * vb,
            f <= hi,
            g <= hi,
    ;
    assert(lo * (va + vb) <= fa + gb) by (nonlinear_arith)
        requires
            fa == f * va,
            gb == g * vb,
            lo <= f,
            lo <= g,
    ;
    let w: nat = va + vb;
    let hw: nat = hi * w;
    let lw: nat = lo * w;
    // three roundings above the weighted colours
    assert(0x100_0000 * (v1 + v2) <= 0x100_0001 * (fa + gb));
    assert(0xff_ffff * (fa + gb) <= 0x100_0000 * (v1 + v2));
    let k2: int = 0x100_0000int * 0x100_0000;
    let k3: int = k2 * 0x100_0000;
    let u2: int = 0x100_0001int * 0x100_0001;
    let u3: int = u2 * 0x100_0001;
    let d2: int = 0xff_ffffint * 0xff_ffff;
    let d3: int = d2 * 0xff_ffff;
    assert(k2 * vs <= u2 * (fa + gb)) by (nonlinear_arith)
        requires
            0x100_0000 * vs <= 0x100_0001 * (v1 + v2),
            0x100_0000 * (v1 + v2) <= 0x100_0001 * (fa + gb),
            k2 == 0x100_0000int * 0x100_0000,
            u2 == 0x100_0001int * 0x100_0001,
    ;
    assert(d2 * (fa + gb) <= k2 * vs) by (nonlinear_arith)
        requires
            0xff_ffff * (v1 + v2) <= 0x100_0000 * vs,
            0xff_ffff * (fa + gb) <= 0x100_0000 * (v1 + v2),
            k2 == 0x100_0000int * 0x100_0000,
            d2 == 0xff_ffffint * 0xff_ffff,
    ;
    assert(k3 * vs <= u3 * (hi * one)) by (nonlinear_arith)
        requires
            k2 * vs <= u2 * (fa + gb),
            fa + gb <= hw,
            hw == hi * w,
            0x100_0000 * w <= 0x100_0001 * one,
            k3 == k2 * 0x100_0000,
            u3 == u2 * 0x100_0001,
            u2 >= 0,
    ;
    assert(d3 * (lo * one) <= k3 * vs) by (nonlinear_arith)
        requires
            d2 * (fa + gb) <= k2 * vs,
            lw <= fa + gb,
            lw == lo * w,
            0xff_ffff * one <= 0x100_0000 * w,
            k3 == k2 * 0x100_0000,
            d3 == d2 * 0xff_ffff,
            d2 >= 0,
    ;
    // 255 parts in 2^24, three times over, are less than one
    assert(k3 == 0x1000000000000000000 && u3 == 0x1000003000003000001 && d3
        == 0xfffffd000002ffffff);
    assert(hi * (u3 - k3) < k3 && lo * (k3 - d3) < k3);
    assert(vs < (hi + 1) * one) by (nonlinear_arith)
        requires
            k3 * vs <= u3 * (hi * one),
            hi * (u3 - k3) < k3,
            k3 > 0,
            one > 0,
            hi >= 0,
    ;
    assert(vs + one > lo * one) by (nonlinear_arith)
        requires
            d3 * (lo * one) <= k3 * vs,
            lo * (k3 - d3) < k3,
            k3 > 0,
            one > 0,
            lo >= 0,
    ;
    assert(n <= hi) by (nonlinear_arith)
        requires
            n * one <= vs,
            vs < (hi + 1) * one,
            one > 0,
    ;
    assert(n + 1 >= lo) by (nonlinear_arith)
        requires
            vs < (n + 1) * one,
            vs + one > lo * one,
            one > 0,
    ;
}

/// Over a colour, a mask that is 255 everywhere gives the image's colours
/// everywhere, made opaque.
pub proof fn law_foreground_where_mask_is_full(img: Raster, mask: Raster, bg: BackgroundColor)
    requires
        is_rgba(img),
        is_mask(mask),
        mask.width == img.width,
        mask.height == img.height,
        forall|i: int| 0 <= i < mask.samples.len() ==> mask.samples[i] == 255,
        bg != BackgroundColor::Transparent,
    ensures
        forall|i: int|
            0 <= i < img.samples.len() ==> #[trigger] composited(img, blurred(mask), bg).samples[i]
                == (if i % 4 == 3 {
                255u8
            } else {
                img.samples[i]
            }),
{
    lemma_blur_of_uniform(mask, 255);
    let out: Raster = composited(img, blurred(mask), bg);
    assert forall|i: int| 0 <= i < img.samples.len() implies #[trigger] out.samples[i] == (if i
        % 4 == 3 {
        255u8
    } else {
        img.samples[i]
    }) by {
        assert(0 <= i / 4 < mask.samples.len());
        if i % 4 != 3 {
            lemma_blend_at_full(img.samples[i], background_channel(bg, i % 4));
        }
    }
}

/// Over no background the alpha channel follows a uniform mask: where every
/// mask value is `v`, and so where all are 255 or all are 0, every pixel of
/// the composite has alpha `v`, and its colour is the image's.
pub proof fn law_transparent_alpha_of_uniform_mask(img: Raster, mask: Raster, v: u8)
    requires
        is_rgba(img),
        is_mask(mask),
        mask.width == img.width,
        mask.height == img.height,
        forall|i: int| 0 <= i < mask.samples.len() ==> mask.samples[i] == v,
    ensures
        forall|p: int|
            0 <= p < img.width * img.height ==> #[trigger] composited(
                img,
                blurred(mask),
                BackgroundColor::Transparent,
            ).samples[4 * p + 3] == v,
        forall|i: int|
            0 <= i < img.samples.len() && i % 4 != 3 ==> #[trigger] composited(
                img,
                blurred(mask),
                BackgroundColor::Transparent,
            ).samples[i] == img.samples[i],
{
    lemma_blur_of_uniform(mask, v);
    let out: Raster = composited(img, blurred(mask), BackgroundColor::Transparent);
    assert forall|p: int| 0 <= p < img.width * img.height implies #[trigger] out.samples[4 * p
        + 3] == v by {
        assert((4 * p + 3) / 4 == p);
        assert((4 * p + 3) % 4 == 3);
    }
}

/// Over a colour, a mask that is 0 everywhere gives that colour everywhere:
/// white gives (255, 255, 255), black (0, 0, 0), and the result is opaque.
pub proof fn law_background_where_mask_is_zero(img: Raster, mask: Raster, bg: BackgroundColor)
    requires
        is_rgba(img),
        is_mask(mask),
        mask.width == img.width,
        mask.height == img.height,
        forall|i: int| 0 <= i < mask.samples.len() ==> mask.samples[i] == 0,
        bg != BackgroundColor::Transparent,
    ensures
        forall|i: int|
            0 <= i < img.samples.len() ==> #[trigger] composited(img, blurred(mask), bg).samples[i]
                == (if i % 4 == 3 {
                255u8
            } else {
                background_channel(bg, i % 4)
            }),
        background_channel(BackgroundColor::White, 0) == 255,
        background_channel(BackgroundColor::White, 1) == 255,
        background_channel(BackgroundColor::White, 2) == 255,
        background_channel(BackgroundColor::Black, 0) == 0,
        background_channel(BackgroundColor::Black, 1) == 0,
        background_channel(BackgroundColor::Black, 2) == 0,
{
    lemma_blur_of_uniform(mask, 0);
    let out: Raster = composited(img, blurred(mask), bg);
    assert forall|i: int| 0 <= i < img.samples.len() implies #[trigger] out.samples[i] == (if i
        % 4 == 3 {
        255u8
    } else {
        background_channel(bg, i % 4)
    }) by {
        assert(0 <= i / 4 < mask.samples.len());
        if i % 4 != 3 {
            lemma_blend_at_zero(img.samples[i], background_channel(bg, i % 4));
        }
    }
}

} // verus!
