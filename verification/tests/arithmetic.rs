//! The integer arithmetic of the library against the machine's own
//! single-precision arithmetic.

use bg_remover::compositor::blend;
use bg_remover::ml_engine::{input_value_of, mask_value_of};
use bg_remover::normalizer::{normalized_size_of, plan_svg, unpremultiply, SvgPlan};

fn blend_reference(fg: u8, bg: u8, alpha: u8) -> u8 {
    let a = alpha as f32 / 255.0;
    (fg as f32 * a + bg as f32 * (1.0 - a)) as u8
}

fn check_blend_for_backgrounds(backgrounds: &[u8]) {
    for alpha in 0..=255u8 {
        for fg in 0..=255u8 {
            for &bg in backgrounds {
                assert_eq!(
                    blend(fg, bg, alpha),
                    blend_reference(fg, bg, alpha),
                    "fg {fg} bg {bg} alpha {alpha}"
                );
            }
        }
    }
}

#[test]
fn blend_matches_single_precision_over_white_and_black() {
    check_blend_for_backgrounds(&[255, 0]);
}

#[test]
fn blend_matches_single_precision_over_dark_colours() {
    check_blend_for_backgrounds(&[1, 2, 17, 64]);
}

#[test]
fn blend_matches_single_precision_over_light_colours() {
    check_blend_for_backgrounds(&[127, 128, 200, 254]);
}

#[test]
fn blend_matches_single_precision_where_background_is_foreground() {
    for alpha in 0..=255u8 {
        for v in 0..=255u8 {
            assert_eq!(blend(v, v, alpha), blend_reference(v, v, alpha));
        }
    }
}

#[test]
fn blend_truncates_instead_of_rounding() {
    // 3 * a + 3 * (1 - a) is 3 in exact arithmetic; in single precision with
    // a = 65/255 the sum falls just short of it
    assert_eq!(blend(3, 3, 65), 2);
    assert_eq!(blend(0, 255, 65), 189);
    assert_eq!(blend(255, 255, 128), 255);
    assert_eq!(blend(200, 200, 77), 200);
}

#[test]
fn blend_exact_values() {
    assert_eq!(blend(10, 250, 0), 250);
    assert_eq!(blend(10, 250, 255), 10);
    // 100 * 0.5019608 + 50 * 0.4980392 = 75.098
    assert_eq!(blend(100, 50, 128), 75);
    // 255 * (51/255) = 51
    assert_eq!(blend(255, 0, 51), 51);
}

#[test]
fn unpremultiply_matches_single_precision() {
    for alpha in 0..=255u8 {
        let mut premul = Vec::new();
        for c in 0..=255u8 {
            premul.extend_from_slice(&[c, c / 2, 255 - c, alpha]);
        }
        let straight = unpremultiply(&premul);
        assert_eq!(straight.len(), premul.len());
        for (got, px) in straight.chunks(4).zip(premul.chunks(4)) {
            let a = px[3] as f32 / 255.0;
            let want = if a > 0.0 {
                [(px[0] as f32 / a) as u8, (px[1] as f32 / a) as u8, (px[2] as f32 / a) as u8, px[3]]
            } else {
                [0, 0, 0, 0]
            };
            assert_eq!(got, want, "pixel {px:?}");
        }
    }
}

#[test]
fn unpremultiply_exact_values() {
    // half-transparent grey: 64 / (128/255) = 127.5
    assert_eq!(unpremultiply(&vec![64, 64, 64, 128]), vec![127, 127, 127, 128]);
    // fully transparent pixels are zero
    assert_eq!(unpremultiply(&vec![9, 8, 7, 0]), vec![0, 0, 0, 0]);
    // opaque pixels keep their colour
    assert_eq!(unpremultiply(&vec![9, 8, 7, 255]), vec![9, 8, 7, 255]);
    // a colour above its alpha saturates
    assert_eq!(unpremultiply(&vec![200, 0, 0, 100]), vec![255, 0, 0, 100]);
}

#[test]
fn input_values_match_single_precision() {
    for p in 0..=255u8 {
        let want = (p as f32 / 255.0 - 0.5).to_bits();
        assert_eq!(input_value_of(p), want, "pixel {p}");
    }
    assert_eq!(input_value_of(0), (-0.5f32).to_bits());
    assert_eq!(input_value_of(255), 0.5f32.to_bits());
}

fn mask_reference(bits: u32) -> u8 {
    (f32::from_bits(bits).clamp(0.0, 1.0) * 255.0) as u8
}

#[test]
fn mask_values_match_single_precision_on_probabilities() {
    // every 97th pattern between 2^-10 and 1.0
    let mut bits = 0x3a80_0000u32;
    while bits <= 0x3f80_0000 {
        assert_eq!(mask_value_of(bits), mask_reference(bits), "bits {bits:#x}");
        bits += 97;
    }
}

#[test]
fn mask_values_match_single_precision_on_all_kinds() {
    let mut bits = 0u32;
    loop {
        assert_eq!(mask_value_of(bits), mask_reference(bits), "bits {bits:#x}");
        match bits.checked_add(10_007) {
            Some(next) => bits = next,
            None => break,
        }
    }
    for bits in [
        0u32, 1, 0x007f_ffff, 0x0080_0000, 0x3b80_8080, 0x3b80_8081, 0x3f7f_ffff, 0x3f80_0000,
        0x3f80_0001, 0x7f7f_ffff, 0x7f80_0000, 0x7fc0_0000, 0x8000_0000, 0xbf80_0000, 0xff80_0000,
        0xffc0_0000,
    ] {
        assert_eq!(mask_value_of(bits), mask_reference(bits), "bits {bits:#x}");
    }
}

#[test]
fn mask_exact_values() {
    assert_eq!(mask_value_of(0.0f32.to_bits()), 0);
    assert_eq!(mask_value_of(1.0f32.to_bits()), 255);
    assert_eq!(mask_value_of(0.5f32.to_bits()), 127);
    assert_eq!(mask_value_of(2.5f32.to_bits()), 255);
    assert_eq!(mask_value_of((-0.25f32).to_bits()), 0);
    assert_eq!(mask_value_of(f32::NAN.to_bits()), 0);
}

fn size_reference(w: u32, h: u32) -> (u32, u32) {
    if w <= 4096 && h <= 4096 {
        return (w, h);
    }
    let longest = w.max(h);
    let scale = 4096 as f32 / longest as f32;
    // the longest side is brought to the limit itself, the other follows
    // the factor in single precision
    let side = |s: u32| if s == longest { 4096 } else { (s as f32 * scale) as u32 };
    (side(w), side(h))
}

#[test]
fn normalized_sizes_match_single_precision() {
    let mut state = 0x2545_f491_4f6c_dd1du64;
    let mut next = move || {
        state ^= state << 13;
        state ^= state >> 7;
        state ^= state << 17;
        state
    };
    for round in 0..200_000u32 {
        let (w, h) = match round % 3 {
            0 => ((next() % 20_000) as u32 + 1, (next() % 20_000) as u32 + 1),
            1 => (next() as u32 | 1, next() as u32 | 1),
            _ => (next() as u32 | 1, (next() % 5000) as u32 + 1),
        };
        assert_eq!(normalized_size_of(w, h), size_reference(w, h), "{w} x {h}");
    }
}

#[test]
fn normalized_size_exact_values() {
    assert_eq!(normalized_size_of(4096, 4096), (4096, 4096));
    assert_eq!(normalized_size_of(1, 1), (1, 1));
    assert_eq!(normalized_size_of(8192, 4096), (4096, 2048));
    assert_eq!(normalized_size_of(4097, 100), (4096, 99));
    assert_eq!(normalized_size_of(6000, 3000), (4096, 2048));
    // also where the product in single precision would fall short of it
    assert_eq!(normalized_size_of(4231, 4231), (4096, 4096));
    assert_eq!(normalized_size_of(4231, 4230), (4096, 4095));
    assert_eq!(normalized_size_of(13_809, 5212), (4096, 1545));
    // a very thin image loses its area
    assert_eq!(normalized_size_of(5_000_000, 1000), (4096, 0));
}

fn plan_reference(width: f32, height: f32) -> Option<SvgPlan> {
    if width <= 0.0 || height <= 0.0 {
        return None;
    }
    let scale = (2048.0 / width).max(1.0);
    // a canvas that is enlarged by a finite factor gets the minimum width
    // itself; everything else follows the factor in single precision
    let enlarged = width < 2048.0 && scale.is_finite();
    Some(SvgPlan {
        scale_bits: scale.to_bits(),
        width: if enlarged { 2048 } else { ((width * scale) as u32).min(8192) },
        height: ((height * scale) as u32).min(8192),
    })
}

#[test]
fn svg_plans_match_single_precision() {
    let mut state = 0x9e37_79b9_7f4a_7c15u64;
    let mut next = move || {
        state ^= state << 13;
        state ^= state >> 7;
        state ^= state << 17;
        state
    };
    let special = [
        0u32, 1, 2, 0x007f_ffff, 0x0080_0000, 0x0280_0000, 0x0300_0000, 0x0300_0001, 0x037f_ffff,
        0x0380_0000, 0x0380_0001, 0x0400_0000, 0x3f80_0000, 0x44ff_ffff, 0x4500_0000, 0x4600_0000,
        0x7f7f_ffff, 0x7f80_0000, 0x7fc0_0000, 0x8000_0000, 0xbf80_0000, 0xffc0_0000,
    ];
    for round in 0..300_000u32 {
        let mut pick = |r: u64| -> u32 {
            match r % 4 {
                0 => next() as u32,
                1 => ((next() % 20_000_000) as f32 / 1000.0).to_bits(),
                2 => (next() % 0x7f80_0001) as u32,
                _ => special[(next() % special.len() as u64) as usize],
            }
        };
        let wb = pick(round as u64);
        let hb = pick((round / 4) as u64);
        let got = plan_svg(wb, hb).ok();
        let want = plan_reference(f32::from_bits(wb), f32::from_bits(hb));
        assert_eq!(got, want, "width {wb:#x} height {hb:#x}");
    }
}

#[test]
fn svg_plan_exact_values() {
    // a small canvas is enlarged to a width of 2048
    let plan = plan_svg(100.0f32.to_bits(), 50.0f32.to_bits()).unwrap();
    assert_eq!(plan.scale_bits, 20.48f32.to_bits());
    assert_eq!((plan.width, plan.height), (2048, 1024));
    // a large canvas is never reduced, only clamped
    let plan = plan_svg(3000.0f32.to_bits(), 1000.5f32.to_bits()).unwrap();
    assert_eq!(plan.scale_bits, 1.0f32.to_bits());
    assert_eq!((plan.width, plan.height), (3000, 1000));
    let plan = plan_svg(1.0e9f32.to_bits(), 1.0e30f32.to_bits()).unwrap();
    assert_eq!((plan.width, plan.height), (8192, 8192));
    // also where the product in single precision would fall short of 2048
    let plan = plan_svg(41.0f32.to_bits(), 41.0f32.to_bits()).unwrap();
    assert_eq!(plan.scale_bits, (2048.0f32 / 41.0).to_bits());
    assert_eq!(plan.width, 2048);
    // a tall canvas is clamped after the enlargement
    let plan = plan_svg(10.0f32.to_bits(), 1000.0f32.to_bits()).unwrap();
    assert_eq!((plan.width, plan.height), (2048, 8192));
}
