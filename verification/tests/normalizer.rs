//! Format dispatch, decoding, rasterising and the resolution limits.

use bg_remover::encoder::encode_png;
use bg_remover::error::AppError;
use bg_remover::normalizer::{
    extension_is_supported, is_supported, load_image, load_image_from_bytes, normalize_decoded,
    normalized_size_of, plan_svg, rasterize_svg, smart_downscale,
};
use bg_remover::raster::CanonicalImage;

/// Draws a parsed document as the application does.
fn draw(tree: resvg::usvg::Tree, scale_bits: u32, width: u32, height: u32) -> Option<Vec<u8>> {
    let mut pixmap = resvg::tiny_skia::Pixmap::new(width, height)?;
    let scale = f32::from_bits(scale_bits);
    let transform = resvg::tiny_skia::Transform::from_scale(scale, scale);
    resvg::render(&tree, transform, &mut pixmap.as_mut());
    Some(pixmap.take())
}

fn gradient(w: u32, h: u32) -> CanonicalImage {
    let mut pixels = Vec::new();
    for y in 0..h {
        for x in 0..w {
            pixels.extend_from_slice(&[(x * 7) as u8, (y * 13) as u8, (x + y) as u8, 255 - (x as u8)]);
        }
    }
    CanonicalImage::from_raw(w, h, pixels).unwrap()
}

#[test]
fn supported_formats_go_by_extension_whatever_its_case() {
    for ext in [
        "png", "jpg", "jpeg", "webp", "svg", "bmp", "gif", "tif", "tiff", "ico", "tga", "pnm",
        "pbm", "pgm", "ppm", "hdr", "ff", "qoi",
    ] {
        assert!(extension_is_supported(ext), "{ext}");
        assert!(is_supported(&format!("dir/photo.{ext}")), "{ext}");
        assert!(is_supported(&format!("photo.{}", ext.to_uppercase())), "{ext}");
    }
    assert!(is_supported("a.b/c.d.PnG"));
    for path in ["photo.txt", "photo", "photo.", ".png", "dir.png/photo", "photo.avif", "photo.exr", ""] {
        assert!(!is_supported(path), "{path}");
    }
    assert!(!extension_is_supported("PNG"));
    assert!(!extension_is_supported(""));
    assert!(!extension_is_supported("pn"));
}

#[test]
fn unsupported_extension_is_rejected_before_decoding() {
    let png = encode_png(&gradient(3, 2)).unwrap();
    match load_image("photo.txt", &png, draw) {
        Err(AppError::UnsupportedFormat(path)) => assert_eq!(path, "photo.txt"),
        other => panic!("{other:?}"),
    }
    assert!(matches!(load_image("photo", &png, draw), Err(AppError::UnsupportedFormat(_))));
}

#[test]
fn small_images_keep_their_size_and_pixels() {
    let img = gradient(5, 3);
    let png = encode_png(&img).unwrap();
    let loaded = load_image("photo.png", &png, draw).unwrap();
    assert_eq!((loaded.width(), loaded.height()), (5, 3));
    assert_eq!(loaded.pixels(), img.pixels());
    let sniffed = load_image_from_bytes(&png).unwrap();
    assert_eq!((sniffed.width(), sniffed.height()), (5, 3));
    assert_eq!(sniffed.pixels(), img.pixels());
}

#[test]
fn format_goes_by_the_path_not_by_the_content() {
    let png = encode_png(&gradient(2, 2)).unwrap();
    // PNG data under a JPEG name does not decode
    assert!(matches!(load_image("photo.jpg", &png, draw), Err(AppError::InvalidInput(_))));
    // the content sniffer does not care
    assert!(load_image_from_bytes(&png).is_ok());
}

#[test]
fn corrupt_data_is_invalid_input() {
    match load_image("photo.png", b"not a png at all", draw) {
        Err(AppError::InvalidInput(m)) => assert!(m.starts_with("Impossible d'ouvrir photo.png : "), "{m}"),
        other => panic!("{other:?}"),
    }
    match load_image_from_bytes(b"nothing") {
        Err(AppError::InvalidInput(m)) => assert!(m.starts_with("Décodage image : "), "{m}"),
        other => panic!("{other:?}"),
    }
    assert!(matches!(load_image_from_bytes(&[]), Err(AppError::InvalidInput(_))));
}

#[test]
fn images_within_the_limit_are_not_resampled() {
    let img = gradient(64, 2);
    let pixels = img.pixels().clone();
    let out = smart_downscale(img).unwrap();
    assert_eq!((out.width(), out.height()), (64, 2));
    assert_eq!(out.pixels(), &pixels);
    let wide = CanonicalImage::from_raw(4096, 1, vec![9; 4096 * 4]).unwrap();
    let out = smart_downscale(wide).unwrap();
    assert_eq!((out.width(), out.height()), (4096, 1));
}

#[test]
fn wide_images_are_scaled_down_to_the_limit() {
    let wide = CanonicalImage::from_raw(8192, 4, vec![200; 8192 * 4 * 4]).unwrap();
    let out = smart_downscale(wide).unwrap();
    assert_eq!((out.width(), out.height()), (4096, 2));
    assert_eq!(out.pixels().len(), 4096 * 2 * 4);
    // a uniform image stays uniform
    assert!(out.pixels().iter().all(|&v| v == 200));
    let tall = CanonicalImage::from_raw(3, 6000, vec![7; 3 * 6000 * 4]).unwrap();
    let out = smart_downscale(tall).unwrap();
    assert_eq!((out.width(), out.height()), (2, 4096));
}

#[test]
fn images_scaled_down_to_nothing_are_invalid_input() {
    assert_eq!(normalized_size_of(10_000, 1), (4096, 0));
    let thin = CanonicalImage::from_raw(10_000, 1, vec![0; 40_000]).unwrap();
    assert!(matches!(smart_downscale(thin), Err(AppError::InvalidInput(_))));
}

#[test]
fn decoded_images_without_area_are_invalid_input() {
    assert!(matches!(normalize_decoded(0, 0, vec![]), Err(AppError::InvalidInput(_))));
    assert!(matches!(normalize_decoded(0, 5, vec![]), Err(AppError::InvalidInput(_))));
    assert!(matches!(normalize_decoded(2, 2, vec![0; 3]), Err(AppError::InvalidInput(_))));
    let img = normalize_decoded(2, 1, vec![1, 2, 3, 4, 5, 6, 7, 8]).unwrap();
    assert_eq!(img.pixels(), &vec![1, 2, 3, 4, 5, 6, 7, 8]);
}

#[test]
fn larger_side_is_4096_after_downscaling() {
    for longest in [4097u32, 4231, 4331, 5000, 8192, 12_345, 1 << 20, (1 << 24) + 1, u32::MAX] {
        let (w, h) = normalized_size_of(longest, longest / 2 + 1);
        assert_eq!(w, 4096, "{longest}");
        assert_eq!(normalized_size_of(longest / 2 + 1, longest), (h, 4096));
        assert_eq!(normalized_size_of(longest, longest), (4096, 4096));
        assert!(h <= w);
        let ideal = (4096u64 * (longest as u64 / 2 + 1) / longest as u64) as i64;
        assert!((h as i64 - ideal).abs() <= 1, "{longest}: {h} against {ideal}");
    }
}

const RED_RECT: &str = r##"<svg xmlns="http://www.w3.org/2000/svg" width="8" height="1"><rect width="8" height="1" fill="#ff0000"/></svg>"##;

#[test]
fn small_svg_is_enlarged_to_2048_wide() {
    let img = rasterize_svg(RED_RECT.as_bytes(), draw).unwrap();
    assert_eq!((img.width(), img.height()), (2048, 256));
    for px in img.pixels().chunks(4) {
        assert_eq!(px, [255, 0, 0, 255]);
    }
    let by_path = load_image("drawing.SVG", RED_RECT.as_bytes(), draw).unwrap();
    assert_eq!((by_path.width(), by_path.height()), (2048, 256));
}

#[test]
fn svg_colours_are_not_premultiplied() {
    let svg = r##"<svg xmlns="http://www.w3.org/2000/svg" width="2048" height="2"><rect width="2048" height="2" fill="#ff8000" fill-opacity="0.5"/></svg>"##;
    let img = rasterize_svg(svg.as_bytes(), draw).unwrap();
    assert_eq!((img.width(), img.height()), (2048, 2));
    let px = img.get_pixel(1000, 1);
    // half-transparent orange: the colour is the fill's, not the fill's times alpha
    assert!(px[3] == 127 || px[3] == 128, "{px:?}");
    assert!(px[0] >= 253, "{px:?}");
    assert!((126..=130).contains(&px[1]), "{px:?}");
    assert_eq!(px[2], 0);
    // nothing drawn: fully transparent pixels are zero
    let empty = r##"<svg xmlns="http://www.w3.org/2000/svg" width="2048" height="1"></svg>"##;
    let img = rasterize_svg(empty.as_bytes(), draw).unwrap();
    assert!(img.pixels().iter().all(|&v| v == 0));
}

#[test]
fn large_svg_is_clamped_then_held_to_the_limit() {
    let svg = r##"<svg xmlns="http://www.w3.org/2000/svg" width="100000" height="20"><rect width="100000" height="20" fill="#00ff00"/></svg>"##;
    // the canvas is 8192 by 20, which normalising halves
    let plan = plan_svg(100000.0f32.to_bits(), 20.0f32.to_bits()).unwrap();
    assert_eq!((plan.width, plan.height), (8192, 20));
    let img = rasterize_svg(svg.as_bytes(), draw).unwrap();
    assert_eq!((img.width(), img.height()), (4096, 10));
}

#[test]
fn enlarged_svg_canvas_is_2048_wide() {
    for w in 1..2048u32 {
        let plan = plan_svg((w as f32).to_bits(), 1.0f32.to_bits()).unwrap();
        assert_eq!(plan.width, 2048, "{w}");
    }
    for w in [2048.0f32, 2048.5, 3000.9, 8191.9] {
        let plan = plan_svg(w.to_bits(), 1.0f32.to_bits()).unwrap();
        assert_eq!(plan.width, w as u32);
    }
}

#[test]
fn renderer_is_handed_the_plan() {
    let mut seen = (0u32, 0u32, 0u32);
    let r = rasterize_svg(RED_RECT.as_bytes(), |_tree, scale_bits, width, height| {
        seen = (scale_bits, width, height);
        Some(vec![0; (width * height * 4) as usize])
    });
    assert_eq!(seen, (256.0f32.to_bits(), 2048, 256));
    assert!(r.unwrap().pixels().iter().all(|&v| v == 0));
}

#[test]
fn renderer_without_a_canvas_is_invalid_input() {
    assert_eq!(
        rasterize_svg(RED_RECT.as_bytes(), |_, _, _, _| None).unwrap_err(),
        AppError::InvalidInput("Impossible de créer le Pixmap SVG".to_string())
    );
    // samples that do not fill the planned canvas
    assert_eq!(
        rasterize_svg(RED_RECT.as_bytes(), |_, _, _, _| Some(vec![0; 7])).unwrap_err(),
        AppError::InvalidInput("Conversion SVG→RgbaImage échouée".to_string())
    );
}

#[test]
fn svg_canvas_never_exceeds_8192() {
    for (w, h) in [(1.0f32, 1.0f32), (1.0, 1.0e6), (1.0e9, 1.0e9), (8193.0, 9000.0), (3.0e38, 1.0), (1.0, 3.0e38), (1.0e-30, 1.0e-30)] {
        let plan = plan_svg(w.to_bits(), h.to_bits()).unwrap();
        assert!(plan.width <= 8192 && plan.height <= 8192, "{w} x {h}");
    }
    let plan = plan_svg(1.0e9f32.to_bits(), 1.0e9f32.to_bits()).unwrap();
    assert_eq!((plan.width, plan.height), (8192, 8192));
}

#[test]
fn degenerate_svg_canvas_is_invalid_input() {
    for (w, h) in [(0.0f32, 10.0f32), (10.0, 0.0), (-1.0, 10.0), (10.0, -5.0), (-0.0, 1.0), (f32::NEG_INFINITY, 1.0)] {
        match plan_svg(w.to_bits(), h.to_bits()) {
            Err(AppError::InvalidInput(m)) => assert_eq!(m, "SVG invalide : dimensions nulles ou négatives"),
            other => panic!("{w} x {h}: {other:?}"),
        }
    }
    let svg = r##"<svg xmlns="http://www.w3.org/2000/svg" width="0" height="10"></svg>"##;
    assert!(matches!(rasterize_svg(svg.as_bytes(), draw), Err(AppError::InvalidInput(_))));
    let svg = r##"<svg xmlns="http://www.w3.org/2000/svg" width="10" height="-3"></svg>"##;
    assert!(matches!(rasterize_svg(svg.as_bytes(), draw), Err(AppError::InvalidInput(_))));
}

#[test]
fn broken_svg_is_invalid_input() {
    match rasterize_svg(b"<svg", draw) {
        Err(AppError::InvalidInput(m)) => assert!(m.starts_with("SVG parse error : "), "{m}"),
        other => panic!("{other:?}"),
    }
    assert!(matches!(load_image("x.svg", b"\xff\xfe", draw), Err(AppError::InvalidInput(_))));
}
