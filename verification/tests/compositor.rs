//! Edge softening and compositing on concrete images.

use bg_remover::compositor::{apply_mask, blend, blur_mask, BackgroundColor};
use bg_remover::raster::{AlphaMask, CanonicalImage};

fn pseudo_random(seed: u64, len: usize) -> Vec<u8> {
    let mut state = seed;
    (0..len)
        .map(|_| {
            state ^= state << 13;
            state ^= state >> 7;
            state ^= state << 17;
            (state >> 24) as u8
        })
        .collect()
}

/// The blur as the formula gives it in single precision.
fn blur_reference(values: &[u8], w: u32, h: u32) -> Vec<u8> {
    let kernel: [f32; 9] = [
        1.0 / 16.0, 2.0 / 16.0, 1.0 / 16.0,
        2.0 / 16.0, 4.0 / 16.0, 2.0 / 16.0,
        1.0 / 16.0, 2.0 / 16.0, 1.0 / 16.0,
    ];
    let mut out = Vec::new();
    for y in 0..h {
        for x in 0..w {
            let mut sum = 0.0f32;
            for ky in 0..3i32 {
                for kx in 0..3i32 {
                    let px = (x as i32 + kx - 1).clamp(0, w as i32 - 1) as u32;
                    let py = (y as i32 + ky - 1).clamp(0, h as i32 - 1) as u32;
                    sum += values[(py * w + px) as usize] as f32 * kernel[(ky * 3 + kx) as usize];
                }
            }
            out.push(sum as u8);
        }
    }
    out
}

#[test]
fn blur_matches_single_precision_kernel() {
    for (w, h, seed) in [(17u32, 13u32, 1u64), (1, 1, 2), (1, 9, 3), (9, 1, 4), (2, 2, 5), (64, 3, 6)] {
        let values = pseudo_random(seed, (w * h) as usize);
        let mask = AlphaMask::from_raw(w, h, values.clone()).unwrap();
        let soft = blur_mask(&mask);
        assert_eq!((soft.width(), soft.height()), (w, h));
        assert_eq!(soft.values(), &blur_reference(&values, w, h));
    }
}

#[test]
fn blur_exact_values() {
    // a single bright pixel in the middle of a 3x3 mask spreads by the kernel
    let mask = AlphaMask::from_raw(3, 3, vec![0, 0, 0, 0, 160, 0, 0, 0, 0]).unwrap();
    assert_eq!(blur_mask(&mask).values(), &vec![10, 20, 10, 20, 40, 20, 10, 20, 10]);
    // the border is replicated: a bright corner counts nine sixteenths
    let mask = AlphaMask::from_raw(2, 2, vec![160, 0, 0, 0]).unwrap();
    assert_eq!(blur_mask(&mask).values(), &vec![90, 30, 30, 10]);
    // sums are truncated: 255 * 15 / 16 = 239.06
    let mask = AlphaMask::from_raw(3, 1, vec![255, 255, 0]).unwrap();
    assert_eq!(blur_mask(&mask).values(), &vec![255, 191, 63]);
}

#[test]
fn blur_keeps_uniform_masks() {
    for v in [0u8, 1, 127, 254, 255] {
        let mask = AlphaMask::from_raw(5, 4, vec![v; 20]).unwrap();
        assert_eq!(blur_mask(&mask).values(), &vec![v; 20]);
    }
}

/// The composite as the formula gives it in single precision.
fn composite_reference(pixels: &[u8], soft: &[u8], bg: &BackgroundColor) -> Vec<u8> {
    let mut out = Vec::new();
    for (src, &alpha) in pixels.chunks(4).zip(soft) {
        let alpha_f = alpha as f32 / 255.0;
        let blend = |fg: u8, bg_c: u8| -> u8 {
            (fg as f32 * alpha_f + bg_c as f32 * (1.0 - alpha_f)) as u8
        };
        let px = match bg {
            BackgroundColor::Transparent => [src[0], src[1], src[2], alpha],
            BackgroundColor::White => [blend(src[0], 255), blend(src[1], 255), blend(src[2], 255), 255],
            BackgroundColor::Black => {
                let fade = |fg: u8| -> u8 { (fg as f32 * alpha_f) as u8 };
                [fade(src[0]), fade(src[1]), fade(src[2]), 255]
            }
            BackgroundColor::Color { r, g, b } => {
                [blend(src[0], *r), blend(src[1], *g), blend(src[2], *b), 255]
            }
        };
        out.extend_from_slice(&px);
    }
    out
}

#[test]
fn composite_matches_single_precision_blend() {
    let (w, h) = (31u32, 23u32);
    let pixels = pseudo_random(11, (w * h * 4) as usize);
    let values = pseudo_random(12, (w * h) as usize);
    let img = CanonicalImage::from_raw(w, h, pixels.clone()).unwrap();
    let mask = AlphaMask::from_raw(w, h, values.clone()).unwrap();
    let soft = blur_reference(&values, w, h);
    for bg in [
        BackgroundColor::Transparent,
        BackgroundColor::White,
        BackgroundColor::Black,
        BackgroundColor::Color { r: 12, g: 200, b: 77 },
    ] {
        let out = apply_mask(&img, &mask, &bg);
        assert_eq!((out.width(), out.height()), (w, h));
        assert_eq!(out.pixels(), &composite_reference(&pixels, &soft, &bg), "{bg:?}");
    }
}

#[test]
fn transparent_alpha_is_255_under_full_mask_and_0_under_empty_mask() {
    let pixels = pseudo_random(21, 6 * 5 * 4);
    let img = CanonicalImage::from_raw(6, 5, pixels.clone()).unwrap();
    for v in [255u8, 0] {
        let mask = AlphaMask::from_raw(6, 5, vec![v; 30]).unwrap();
        let out = apply_mask(&img, &mask, &BackgroundColor::Transparent);
        for (got, src) in out.pixels().chunks(4).zip(pixels.chunks(4)) {
            assert_eq!(got, [src[0], src[1], src[2], v]);
        }
    }
}

#[test]
fn background_shows_everywhere_under_empty_mask() {
    let img = CanonicalImage::from_raw(4, 3, pseudo_random(31, 48)).unwrap();
    let mask = AlphaMask::from_raw(4, 3, vec![0; 12]).unwrap();
    for (bg, want) in [
        (BackgroundColor::White, [255u8, 255, 255, 255]),
        (BackgroundColor::Black, [0, 0, 0, 255]),
        (BackgroundColor::Color { r: 1, g: 2, b: 3 }, [1, 2, 3, 255]),
    ] {
        let out = apply_mask(&img, &mask, &bg);
        for px in out.pixels().chunks(4) {
            assert_eq!(px, want);
        }
    }
}

#[test]
fn foreground_stays_under_full_mask() {
    let pixels = vec![10, 20, 30, 40, 250, 0, 128, 255];
    let img = CanonicalImage::from_raw(2, 1, pixels).unwrap();
    let mask = AlphaMask::from_raw(2, 1, vec![255, 255]).unwrap();
    let out = apply_mask(&img, &mask, &BackgroundColor::Color { r: 9, g: 9, b: 9 });
    assert_eq!(out.pixels(), &vec![10, 20, 30, 255, 250, 0, 128, 255]);
}

#[test]
fn composite_exact_values_at_half_mask() {
    // a uniform mask of 128 stays 128 after softening; a = 128/255
    let img = CanonicalImage::from_raw(1, 1, vec![100, 200, 0, 255]).unwrap();
    let mask = AlphaMask::from_raw(1, 1, vec![128]).unwrap();
    let out = apply_mask(&img, &mask, &BackgroundColor::White);
    // 100 * 0.50196 + 255 * 0.49804 = 177.19; 200 * 0.50196 + 127.0 = 227.39; 127.0
    assert_eq!(out.pixels(), &vec![177, 227, 126, 255]);
    let out = apply_mask(&img, &mask, &BackgroundColor::Black);
    assert_eq!(out.pixels(), &vec![50, 100, 0, 255]);
    let out = apply_mask(&img, &mask, &BackgroundColor::Transparent);
    assert_eq!(out.pixels(), &vec![100, 200, 0, 128]);
}

#[test]
fn images_and_masks_need_their_full_grid() {
    assert!(CanonicalImage::from_raw(2, 2, vec![0; 16]).is_some());
    assert!(CanonicalImage::from_raw(2, 2, vec![0; 15]).is_none());
    assert!(CanonicalImage::from_raw(2, 2, vec![0; 17]).is_none());
    assert!(CanonicalImage::from_raw(0, 2, vec![]).is_none());
    assert!(CanonicalImage::from_raw(2, 0, vec![]).is_none());
    assert!(AlphaMask::from_raw(3, 2, vec![0; 6]).is_some());
    assert!(AlphaMask::from_raw(3, 2, vec![0; 5]).is_none());
    assert!(AlphaMask::from_raw(0, 0, vec![]).is_none());
    let img = CanonicalImage::from_raw(2, 1, vec![1, 2, 3, 4, 5, 6, 7, 8]).unwrap();
    assert_eq!(img.get_pixel(1, 0), [5, 6, 7, 8]);
    assert_eq!(img.into_raw(), vec![1, 2, 3, 4, 5, 6, 7, 8]);
    let mask = AlphaMask::from_raw(2, 2, vec![1, 2, 3, 4]).unwrap();
    assert_eq!(mask.get_pixel(0, 1), 3);
    assert_eq!(mask.into_raw(), vec![1, 2, 3, 4]);
}

#[test]
fn blend_stays_in_the_range_of_its_colours() {
    for alpha in 0..=255u8 {
        for fg in (0..=255u8).step_by(5) {
            for bg in (0..=255u8).step_by(3) {
                let v = blend(fg, bg, alpha) as i32;
                let (lo, hi) = (fg.min(bg) as i32, fg.max(bg) as i32);
                assert!(lo - 1 <= v && v <= hi, "fg {fg} bg {bg} alpha {alpha}: {v}");
            }
        }
    }
    // one below the smaller is reached
    assert_eq!(blend(3, 3, 65), 2);
}
