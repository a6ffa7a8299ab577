//! The image normaliser: from a file's bytes to a canonical RGBA bitmap.
//!
//! Raster formats are decoded by the `image` crate, SVG is rasterised by
//! `resvg`; either way the result is held to the resolution limits here.

use crate::binary32::{
    byte_fraction, floor_capped, floor_of, fraction_of_byte, is_infinite, is_nan,
    is_positive_finite,
    lemma_pow2_monotonic, lemma_pow2_values, magnitude_of, pack, packed, product, quotient,
    quotient_shift, round_half_even, round_sig, sign_bit, small_int, unpack, Binary32, Dyadic,
};
use crate::codec::{
    allocatable, decode_at_path, decode_guessed, decoding_at_path, extension_of, lowercase,
    parse_svg, path_extension, resize_rgba, room_for, same_text, to_lowercase,
};
use crate::error::{prefixed, AppError};
use crate::raster::{fills, is_rgba, CanonicalImage, Raster};
use crate::rounding::{
    lemma_full_byte_is_one, lemma_quotient_shift_reaches, lemma_quotient_shift_stays,
};
use crate::scaling::lemma_normalized_size_within_limit;
use vstd::arithmetic::div_mod::*;
use vstd::arithmetic::power2::*;
use vstd::prelude::*;
use vstd::string::*;

verus! {

/// No side of a normalised image is longer than this.
pub const MAX_DIMENSION: u32 = 4096;

/// No side of a rasterised vector image is longer than this.
pub const MAX_SVG_PIXELS: u32 = 8192;

/// Whether `ext`, in lower case and without its dot, is the extension of a
/// supported format.
pub open spec fn is_supported_extension(ext: Seq<char>) -> bool {
    ||| ext == "png"@
    ||| ext == "jpg"@
    ||| ext == "jpeg"@
    ||| ext == "webp"@
    ||| ext == "svg"@
    ||| ext == "bmp"@
    ||| ext == "gif"@
    ||| ext == "tif"@
    ||| ext == "tiff"@
    ||| ext == "ico"@
    ||| ext == "tga"@
    ||| ext == "pnm"@
    ||| ext == "pbm"@
    ||| ext == "pgm"@
    ||| ext == "ppm"@
    ||| ext == "hdr"@
    ||| ext == "ff"@
    ||| ext == "qoi"@
}

/// Whether `ext`, in lower case and without its dot, is the extension of a
/// supported format.
pub fn extension_is_supported(ext: &str) -> (r: bool)
    ensures
        r == is_supported_extension(ext@),
{
    same_text(ext, "png") || same_text(ext, "jpg") || same_text(ext, "jpeg") || same_text(
        ext,
        "webp",
    ) || same_text(ext, "svg") || same_text(ext, "bmp") || same_text(ext, "gif") || same_text(
        ext,
        "tif",
    ) || same_text(ext, "tiff") || same_text(ext, "ico") || same_text(ext, "tga") || same_text(
        ext,
        "pnm",
    ) || same_text(ext, "pbm") || same_text(ext, "pgm") || same_text(ext, "ppm") || same_text(
        ext,
        "hdr",
    ) || same_text(ext, "ff") || same_text(ext, "qoi")
}

/// The extension of `path` in lower case, where it has one.
pub open spec fn format_key(path: Seq<char>) -> Option<Seq<char>> {
    match path_extension(path) {
        Some(ext) => Some(lowercase(ext)),
        None => None,
    }
}

/// Whether the file at `path` is in a supported format, going by its
/// extension, whatever its case.
pub open spec fn supported_path(path: Seq<char>) -> bool {
    match format_key(path) {
        Some(key) => is_supported_extension(key),
        None => false,
    }
}

/// The extension of `path` in lower case, where it has one.
pub fn format_key_of(path: &str) -> (r: Option<String>)
    ensures
        match r {
            Some(key) => format_key(path@) == Some(key@),
            None => format_key(path@) is None,
        },
{
    match extension_of(path) {
        Some(ext) => Some(to_lowercase(ext.as_str())),
        None => None,
    }
}

/// Whether the file at `path` is in a supported format, going by its
/// extension, whatever its case.
pub fn is_supported(path: &str) -> (r: bool)
    ensures
        r == supported_path(path@),
{
    match format_key_of(path) {
        Some(key) => extension_is_supported(key.as_str()),
        None => false,
    }
}

/// Whether an image of this size needs no downscaling.
pub open spec fn within_limit(width: u32, height: u32) -> bool {
    width <= MAX_DIMENSION && height <= MAX_DIMENSION
}

/// The factor that brings the longest side to the limit: `4096 / longest`
/// in single precision.
pub open spec fn downscale_factor(longest: u32) -> Dyadic {
    quotient(small_int(4096), round_sig(longest as nat, 0))
}

/// A side times the factor, in single precision, truncated.
pub open spec fn downscaled_side(side: u32, longest: u32) -> nat {
    floor_capped(product(round_sig(side as nat, 0), downscale_factor(longest)), u32::MAX as nat)
}

/// One side of an image after downscaling. The longest side becomes the
/// limit itself; a shorter one is the side times the factor, truncated.
pub open spec fn scaled_side(side: u32, longest: u32) -> nat {
    if side == longest {
        MAX_DIMENSION as nat
    } else {
        downscaled_side(side, longest)
    }
}

pub open spec fn longest_side(width: u32, height: u32) -> u32 {
    if width >= height {
        width
    } else {
        height
    }
}

/// The size that normalising gives an image of `width` by `height`: its own
/// where neither side exceeds the limit; else the longest side becomes 4096
/// and the other is scaled by the factor that brings the longest there.
pub open spec fn normalized_size(width: u32, height: u32) -> (nat, nat) {
    if within_limit(width, height) {
        (width as nat, height as nat)
    } else {
        (
            scaled_side(width, longest_side(width, height)),
            scaled_side(height, longest_side(width, height)),
        )
    }
}

/// One side after downscaling by the factor for `longest`.
fn scale_side(side: u32, longest: u32) -> (r: u32)
    requires
        longest > 0,
    ensures
        r == scaled_side(side, longest),
{
    if side == longest {
        return MAX_DIMENSION;
    }
    let factor: Binary32 = Binary32::small(4096).over(Binary32::nearest(longest));
    Binary32::nearest(side).times(factor).floor_to(u32::MAX)
}

/// The size that normalising gives an image of `width` by `height`.
pub fn normalized_size_of(width: u32, height: u32) -> (r: (u32, u32))
    ensures
        (r.0 as nat, r.1 as nat) == normalized_size(width, height),
{
    if width <= MAX_DIMENSION && height <= MAX_DIMENSION {
        return (width, height);
    }
    let longest: u32 = if width >= height {
        width
    } else {
        height
    };
    (scale_side(width, longest), scale_side(height, longest))
}

/// Whether no side of a grid exceeds the limit.
pub open spec fn holds_limit(r: Raster) -> bool {
    r.width <= MAX_DIMENSION && r.height <= MAX_DIMENSION
}

/// Whether an image can be resampled to the size that normalising gives it:
/// the new size has area, and the machine has room for the resampler.
pub open spec fn can_downscale(width: u32, height: u32) -> bool {
    let size = normalized_size(width, height);
    &&& size.0 > 0
    &&& size.1 > 0
    &&& allocatable(16 * (width as nat * size.1))
    &&& allocatable(16 * (size.0 * size.1))
}

/// Whether `out` is what normalising makes of the image `raw`: the image
/// itself where it is within the limit, else an RGBA image of the
/// normalised size. (The samples of a scaled image are the resampler's.)
pub open spec fn normalized_from(raw: Raster, out: Raster) -> bool {
    if within_limit(raw.width as u32, raw.height as u32) {
        out == raw
    } else {
        let size = normalized_size(raw.width as u32, raw.height as u32);
        &&& out.width == size.0
        &&& out.height == size.1
        &&& is_rgba(out)
    }
}

/// Whether `text` is what normalising says where it fails: the image has
/// no area, has none left after scaling, or is too large to resample.
pub open spec fn normalizing_failure(text: Seq<char>) -> bool {
    ||| text == "Image invalide : dimensions 0×0"@
    ||| text == "Image invalide : dimensions 0×0 après réduction"@
    ||| text == "Image trop grande pour être rééchantillonnée"@
}

/// Scales an image down, keeping its proportions, so that neither side
/// exceeds 4096 pixels; an image within the limit is returned as it is.
/// Fails with `InvalidInput` where the scaled image would have no area or
/// the machine has no room to resample it.
pub fn smart_downscale(img: CanonicalImage) -> (r: Result<CanonicalImage, AppError>)
    ensures
        within_limit(img@.width as u32, img@.height as u32) ==> r is Ok && r.unwrap()@ == img@,
        !within_limit(img@.width as u32, img@.height as u32) ==> (r is Ok <==> can_downscale(
            img@.width as u32,
            img@.height as u32,
        )),
        r matches Ok(out) ==> normalized_from(img@, out@) && is_rgba(out@) && holds_limit(out@),
        r matches Err(e) ==> (e matches AppError::InvalidInput(d) && normalizing_failure(d@)),
{
    let width: u32 = img.width();
    let height: u32 = img.height();
    let samples: usize = img.pixels().len();
    if width <= MAX_DIMENSION && height <= MAX_DIMENSION {
        return Ok(img);
    }
    let size: (u32, u32) = normalized_size_of(width, height);
    proof {
        lemma_normalized_size_within_limit(width, height);
    }
    if size.0 == 0 || size.1 == 0 {
        return Err(
            AppError::InvalidInput(String::from_str("Image invalide : dimensions 0×0 après réduction")),
        );
    }
    if !room_for(width, size.1) || !room_for(size.0, size.1) {
        return Err(
            AppError::InvalidInput(String::from_str("Image trop grande pour être rééchantillonnée")),
        );
    }
    let pixels: Vec<u8> = img.into_raw();
    let resized: Vec<u8> = resize_rgba(width, height, &pixels, size.0, size.1);
    Ok(CanonicalImage::assemble(size.0, size.1, resized))
}

/// Whether a decoded image can be normalised: its samples fill a grid that
/// is not empty, and it is within the limit or can be scaled down to it.
pub open spec fn normalizes(width: u32, height: u32, len: nat) -> bool {
    &&& fills(width, height, 4, len)
    &&& within_limit(width, height) || can_downscale(width, height)
}

/// Makes a canonical image of decoded RGBA samples: rejects an image without
/// area, and scales down one that exceeds the limit.
pub fn normalize_decoded(width: u32, height: u32, pixels: Vec<u8>) -> (r: Result<
    CanonicalImage,
    AppError,
>)
    ensures
        r is Ok <==> normalizes(width, height, pixels@.len()),
        r matches Ok(img) ==> (normalized_from(
            Raster { width: width as nat, height: height as nat, samples: pixels@ },
            img@,
        ) && is_rgba(img@) && holds_limit(img@)),
        r matches Err(e) ==> (e matches AppError::InvalidInput(d) && normalizing_failure(d@)),
{
    match CanonicalImage::from_raw(width, height, pixels) {
        Some(img) => smart_downscale(img),
        None => Err(AppError::InvalidInput(String::from_str("Image invalide : dimensions 0×0"))),
    }
}

/// A text starts with what was put before it.
pub proof fn lemma_prefix_stays(prefix: Seq<char>, rest: Seq<char>)
    ensures
        prefix.is_prefix_of(prefix + rest),
{
    assert((prefix + rest).subrange(0, prefix.len() as int) =~= prefix);
}

/// Decodes an image held in memory, in the format that its first bytes
/// show, and normalises it.
///
/// Whatever the decoder makes of the bytes: a failure to decode is
/// `InvalidInput`, and an image that comes out is a decoded image normalised.
pub fn load_image_from_bytes(bytes: &[u8]) -> (r: Result<CanonicalImage, AppError>)
    ensures
        r matches Ok(img) ==> (is_rgba(img@) && holds_limit(img@) && exists|
            w: u32,
            h: u32,
            p: Seq<u8>,
        |
            normalizes(w, h, p.len()) && #[trigger] normalized_from(
                Raster { width: w as nat, height: h as nat, samples: p },
                img@,
            )),
        r matches Err(e) ==> (e matches AppError::InvalidInput(d) && (normalizing_failure(d@)
            || "Décodage image : "@.is_prefix_of(d@))),
{
    match decode_guessed(bytes) {
        Ok(raw) => {
            let ghost w: u32 = raw.0;
            let ghost h: u32 = raw.1;
            let ghost p: Seq<u8> = raw.2@;
            let r = normalize_decoded(raw.0, raw.1, raw.2);
            proof {
                if r is Ok {
                    assert(normalizes(w, h, p.len()) && normalized_from(
                        Raster { width: w as nat, height: h as nat, samples: p },
                        r->Ok_0@,
                    ));
                }
            }
            r
        },
        Err(e) => {
            let d: String = prefixed("Décodage image : ", e.as_str());
            proof {
                lemma_prefix_stays("Décodage image : "@, e@);
            }
            Err(AppError::InvalidInput(d))
        },
    }
}

/// Whether a canvas side is rejected: zero or negative. (A NaN is neither.)
pub open spec fn is_degenerate(bits: u32) -> bool {
    !is_nan(bits) && (sign_bit(bits) || bits == 0)
}

/// The factor by which a vector image is enlarged.
pub enum Upscale {
    /// A finite factor.
    By(Dyadic),
    /// The factor overflowed to infinity.
    Unbounded,
}

/// The factor for a canvas of the given width: `2048 / width` in single
/// precision, but never below 1. A width of 2048 or more, and a NaN, give 1;
/// a width so small that the quotient leaves the range of binary32 gives
/// infinity.
pub open spec fn svg_upscale(width_bits: u32) -> Upscale {
    if is_nan(width_bits) || width_bits >= 0x4500_0000 {
        Upscale::By(small_int(1))
    } else {
        let q = quotient(Dyadic { mant: 1, exp: 11 }, magnitude_of(width_bits));
        if q.exp >= 105 {
            Upscale::Unbounded
        } else {
            Upscale::By(q)
        }
    }
}

/// One side of the rendered canvas in pixels: the side times the factor in
/// single precision, truncated, and at most 8192. A NaN gives 0.
pub open spec fn svg_side(bits: u32, up: Upscale) -> nat {
    if is_nan(bits) {
        0
    } else if is_infinite(bits) {
        8192
    } else {
        match up {
            Upscale::Unbounded => 8192,
            Upscale::By(q) => floor_capped(product(magnitude_of(bits), q), 8192),
        }
    }
}

/// The width of the rendered canvas in pixels. A canvas narrower than 2048
/// is enlarged to 2048 exactly, or to the most, 8192, where the factor is
/// infinite; a wider one keeps its width, truncated, and at most 8192.
pub open spec fn svg_width(width_bits: u32) -> nat {
    if is_nan(width_bits) || width_bits >= 0x4500_0000 {
        svg_side(width_bits, svg_upscale(width_bits))
    } else {
        match svg_upscale(width_bits) {
            Upscale::Unbounded => 8192,
            Upscale::By(_) => 2048,
        }
    }
}

/// A width of 2048 or more keeps at least 2048 pixels.
proof fn lemma_wide_canvas_stays_wide(width_bits: u32)
    requires
        0x4500_0000 <= width_bits < 0x7f80_0000,
    ensures
        floor_capped(product(magnitude_of(width_bits), small_int(1)), 8192) >= 2048,
{
    lemma2_to64();
    lemma_pow2_values();
    let w: Dyadic = magnitude_of(width_bits);
    assert(0x80_0000 <= w.mant < 0x100_0000);
    assert(-12 <= w.exp <= 104);
    assert(w.mant * 1 == w.mant) by (nonlinear_arith);
    assert(w.mant / 1 == w.mant && w.mant % 1 == 0);
    let p: Dyadic = product(w, small_int(1));
    assert(p == w);
    if w.exp >= 0 {
        lemma_pow2_pos(w.exp as nat);
        assert(w.mant * pow2(w.exp as nat) >= w.mant) by (nonlinear_arith)
            requires
                pow2(w.exp as nat) >= 1,
        ;
    } else {
        let d: nat = pow2((-w.exp) as nat);
        lemma_pow2_monotonic((-w.exp) as nat, 12);
        lemma_fundamental_div_mod(w.mant as int, d as int);
        assert(w.mant / d >= 2048) by (nonlinear_arith)
            requires
                w.mant >= 0x80_0000,
                0 < d <= 4096,
                w.mant == d * (w.mant / d) + w.mant % d,
                w.mant % d < d,
        ;
    }
}

/// The bit pattern of the factor.
pub open spec fn svg_scale_bits(width_bits: u32) -> int {
    match svg_upscale(width_bits) {
        Upscale::Unbounded => 0x7f80_0000,
        Upscale::By(q) => packed(false, q),
    }
}

/// How a vector image is to be rendered.
#[derive(Clone, Copy, Debug, PartialEq, Eq)]
pub struct SvgPlan {
    /// The bit pattern of the binary32 scale factor.
    pub scale_bits: u32,
    /// The canvas width in pixels.
    pub width: u32,
    /// The canvas height in pixels.
    pub height: u32,
}

/// Whether a plan has a canvas with area.
pub open spec fn has_canvas(plan: SvgPlan) -> bool {
    plan.width > 0 && plan.height > 0
}

/// The plan for a canvas of the given size, which is not degenerate.
pub open spec fn svg_plan(width_bits: u32, height_bits: u32) -> SvgPlan {
    SvgPlan {
        scale_bits: svg_scale_bits(width_bits) as u32,
        width: svg_width(width_bits) as u32,
        height: svg_side(height_bits, svg_upscale(width_bits)) as u32,
    }
}


/// One side of the canvas.
fn svg_side_of(bits: u32, factor: Option<Binary32>) -> (r: u32)
    requires
        !is_degenerate(bits),
        factor matches Some(q) ==> q.within(200),
    ensures
        r == svg_side(
            bits,
            match factor {
                Some(q) => Upscale::By(q@),
                None => Upscale::Unbounded,
            },
        ),
        r <= MAX_SVG_PIXELS,
{
    if bits > 0x7f80_0000 {
        0
    } else if bits == 0x7f80_0000 {
        MAX_SVG_PIXELS
    } else {
        match factor {
            None => MAX_SVG_PIXELS,
            Some(q) => unpack(bits).times(q).floor_to(MAX_SVG_PIXELS),
        }
    }
}

/// Plans the rendering of a vector image from the width and the height of
/// its canvas, each given as the bit pattern of a binary32 value.
///
/// A canvas with a zero or negative side is rejected. Otherwise an image
/// narrower than 2048 is enlarged to that width exactly, its height by the
/// same factor in single precision; nothing is ever reduced; and no side of
/// the canvas exceeds 8192 pixels, whatever the declared size.
pub fn plan_svg(width_bits: u32, height_bits: u32) -> (r: Result<SvgPlan, AppError>)
    ensures
        r is Err <==> is_degenerate(width_bits) || is_degenerate(height_bits),
        r matches Err(e) ==> (e matches AppError::InvalidInput(m) && m@
            == "SVG invalide : dimensions nulles ou négatives"@),
        r matches Ok(plan) ==> {
            &&& plan == svg_plan(width_bits, height_bits)
            &&& plan.width <= MAX_SVG_PIXELS
            &&& plan.height <= MAX_SVG_PIXELS
            &&& is_positive_finite(width_bits) ==> plan.width >= 2048
        },
{
    let width_is_nan: bool = width_bits % 0x8000_0000 > 0x7f80_0000;
    let height_is_nan: bool = height_bits % 0x8000_0000 > 0x7f80_0000;
    if (!width_is_nan && (width_bits >= 0x8000_0000 || width_bits == 0)) || (!height_is_nan && (
    height_bits >= 0x8000_0000 || height_bits == 0)) {
        return Err(
            AppError::InvalidInput(String::from_str("SVG invalide : dimensions nulles ou négatives")),
        );
    }
    let factor: Option<Binary32> = if width_is_nan || width_bits >= 0x4500_0000 {
        Some(Binary32::small(1))
    } else {
        let q: Binary32 = (Binary32 { mant: 1, exp: 11 }).over(unpack(width_bits));
        if q.exp >= 105 {
            None
        } else {
            Some(q)
        }
    };
    let scale_bits: u32 = match factor {
        None => 0x7f80_0000,
        Some(q) => pack(false, q),
    };
    let width: u32 = if width_is_nan || width_bits >= 0x4500_0000 {
        proof {
            if width_bits < 0x7f80_0000 {
                lemma_wide_canvas_stays_wide(width_bits);
            }
        }
        svg_side_of(width_bits, factor)
    } else {
        match factor {
            None => MAX_SVG_PIXELS,
            Some(_) => 2048,
        }
    };
    Ok(SvgPlan { scale_bits, width, height: svg_side_of(height_bits, factor) })
}

/// A colour channel without the alpha it was multiplied by: `c / (alpha /
/// 255)` in single precision, truncated, at most 255; 0 where alpha is 0.
pub open spec fn straight_channel(c: u8, alpha: u8) -> u8 {
    if alpha == 0 {
        0
    } else {
        floor_capped(quotient(small_int(c as nat), byte_fraction(alpha)), 255) as u8
    }
}

/// Sample `i` of the straight-alpha form of premultiplied RGBA samples.
pub open spec fn straight_sample(premul: Seq<u8>, i: int) -> u8 {
    let alpha = premul[i - i % 4 + 3];
    if i % 4 == 3 {
        alpha
    } else {
        straight_channel(premul[i], alpha)
    }
}

/// The straight-alpha form of premultiplied RGBA samples.
pub open spec fn straightened(premul: Seq<u8>) -> Seq<u8> {
    Seq::new(premul.len(), |i: int| straight_sample(premul, i))
}

/// Under full alpha a colour channel is what it was.
pub proof fn lemma_straight_at_full(c: u8)
    ensures
        straight_channel(c, 255) == c,
{
    lemma2_to64();
    lemma_pow2_values();
    lemma_full_byte_is_one();
    let one: Dyadic = byte_fraction(255);
    let q: Dyadic = quotient(small_int(c as nat), one);
    if c == 0 {
        assert(0 * pow2(0) == 0) by (nonlinear_arith);
    } else {
        let k: nat = quotient_shift(c as nat, 0x80_0000);
        let p: nat = pow2(k);
        let n: nat = c as nat * p;
        lemma_quotient_shift_reaches(c as nat, 0x80_0000);
        lemma_quotient_shift_stays(c as nat, 0x80_0000);
        lemma_pow2_pos(k);
        // c 2^k is at least 2^46 with c below 2^8: k is above 23
        assert(p > 0x80_0000) by (nonlinear_arith)
            requires
                c * p >= 0x80_0000 * 0x80_0000,
                c < 256,
        ;
        if k <= 23 {
            lemma_pow2_monotonic(k, 23);
        }
        let h: nat = pow2((k - 23) as nat);
        lemma_pow2_adds(23, (k - 23) as nat);
        lemma_pow2_pos((k - 23) as nat);
        assert(n == (c * h) * 0x80_0000 + 0) by (nonlinear_arith)
            requires
                n == c * p,
                p == 0x80_0000 * h,
        ;
        lemma_fundamental_div_mod_converse(n as int, 0x80_0000, (c * h) as int, 0);
        let m: nat = round_half_even(n, 0x80_0000);
        assert(m == c * h);
        assert(m < 0x100_0000) by (nonlinear_arith)
            requires
                n < 0x100_0000 * 0x80_0000,
                n == m * 0x80_0000,
        ;
        assert(q == Dyadic { mant: m, exp: 23 - k });
        // the integer part of c h / h
        assert(m == h * c + 0) by (nonlinear_arith)
            requires
                m == c * h,
        ;
        lemma_fundamental_div_mod_converse(m as int, h as int, c as int, 0);
        assert(floor_of(q) == c);
    }
}

/// Opaque pixels keep their colour when the premultiplication is removed.
pub proof fn law_opaque_pixels_stay(premul: Seq<u8>)
    requires
        premul.len() % 4 == 0,
        forall|i: int| 0 <= i < premul.len() && i % 4 == 3 ==> premul[i] == 255,
    ensures
        straightened(premul) == premul,
{
    assert forall|i: int| 0 <= i < premul.len() implies straight_sample(premul, i) == premul[i] by {
        let a: int = i - i % 4 + 3;
        assert(0 <= a < premul.len() && a % 4 == 3);
        lemma_straight_at_full(premul[i]);
    }
    assert(straightened(premul) =~= premul);
}

/// A colour channel without the alpha whose fraction is `fraction`.
fn straighten(c: u8, alpha: u8, fraction: Binary32) -> (v: u8)
    requires
        fraction@ == byte_fraction(alpha),
        fraction.mant < 0x100_0000,
        -31 <= fraction.exp <= 1,
        alpha > 0 ==> fraction.mant > 0,
    ensures
        v == straight_channel(c, alpha),
{
    if alpha == 0 {
        0
    } else {
        Binary32::small(c as u32).over(fraction).floor_to(255) as u8
    }
}

/// The straight value of every colour under every alpha, the values of one
/// alpha after those of the one before.
fn straight_table() -> (table: Vec<u8>)
    ensures
        table@.len() == 0x1_0000,
        forall|alpha: int, c: int|
            0 <= alpha < 256 && 0 <= c < 256 ==> #[trigger] table@[alpha * 256 + c]
                == straight_channel(c as u8, alpha as u8),
{
    let mut table: Vec<u8> = Vec::new();
    let mut alpha: u32 = 0;
    while alpha < 256
        invariant
            alpha <= 256,
            table@.len() == alpha * 256,
            forall|a: int, c: int|
                0 <= a < alpha && 0 <= c < 256 ==> #[trigger] table@[a * 256 + c]
                    == straight_channel(c as u8, a as u8),
        decreases 256 - alpha,
    {
        let fraction: Binary32 = fraction_of_byte(alpha as u8);
        let mut c: u32 = 0;
        while c < 256
            invariant
                c <= 256,
                alpha < 256,
                fraction@ == byte_fraction(alpha as u8),
                fraction.mant < 0x100_0000,
                -31 <= fraction.exp <= 1,
                alpha > 0 ==> fraction.mant > 0,
                table@.len() == alpha * 256 + c,
                forall|a: int, k: int|
                    0 <= a < alpha && 0 <= k < 256 ==> #[trigger] table@[a * 256 + k]
                        == straight_channel(k as u8, a as u8),
                forall|k: int|
                    0 <= k < c ==> #[trigger] table@[alpha * 256 + k] == straight_channel(
                        k as u8,
                        alpha as u8,
                    ),
            decreases 256 - c,
        {
            table.push(straighten(c as u8, alpha as u8, fraction));
            c = c + 1;
        }
        alpha = alpha + 1;
    }
    table
}

/// Turns premultiplied RGBA samples into straight ones: every colour channel
/// is divided by its pixel's alpha, and a fully transparent pixel is zero.
pub fn unpremultiply(premul: &Vec<u8>) -> (out: Vec<u8>)
    requires
        premul@.len() % 4 == 0,
    ensures
        out@ == straightened(premul@),
{
    let table: Vec<u8> = straight_table();
    let n: usize = premul.len();
    let mut out: Vec<u8> = Vec::new();
    let mut i: usize = 0;
    while i < n
        invariant
            i <= n,
            i % 4 == 0,
            n == premul@.len(),
            n % 4 == 0,
            table@.len() == 0x1_0000,
            forall|alpha: int, c: int|
                0 <= alpha < 256 && 0 <= c < 256 ==> #[trigger] table@[alpha * 256 + c]
                    == straight_channel(c as u8, alpha as u8),
            out@.len() == i,
            forall|j: int| 0 <= j < i ==> out@[j] == straight_sample(premul@, j),
        decreases n - i,
    {
        let alpha: u8 = premul[i + 3];
        let row: usize = alpha as usize * 256;
        let red: u8 = premul[i];
        let green: u8 = premul[i + 1];
        let blue: u8 = premul[i + 2];
        proof {
            assert(table@[alpha as int * 256 + red as int] == straight_channel(red, alpha));
            assert(table@[alpha as int * 256 + green as int] == straight_channel(green, alpha));
            assert(table@[alpha as int * 256 + blue as int] == straight_channel(blue, alpha));
        }
        out.push(table[row + red as usize]);
        out.push(table[row + green as usize]);
        out.push(table[row + blue as usize]);
        out.push(alpha);
        i = i + 4;
    }
    proof {
        assert(out@ =~= straightened(premul@));
    }
    out
}

/// Whether `text` is what rasterising says where it fails after the parse:
/// the canvas is degenerate, none could be made, its samples do not fill
/// it, or the image cannot be normalised.
pub open spec fn rasterizing_failure(text: Seq<char>) -> bool {
    ||| text == "SVG invalide : dimensions nulles ou négatives"@
    ||| text == "Impossible de créer le Pixmap SVG"@
    ||| text == "Conversion SVG→RgbaImage échouée"@
    ||| normalizing_failure(text)
}

/// Whether `r` is what a rendered canvas gives: a failure where no canvas
/// was made, its samples do not fill the planned grid, or the image cannot
/// be normalised; else the planned grid with the premultiplication removed,
/// normalised.
pub open spec fn svg_finished(
    plan: SvgPlan,
    rendered: Option<Vec<u8>>,
    r: Result<CanonicalImage, AppError>,
) -> bool {
    &&& r is Ok <==> (rendered matches Some(premul) && normalizes(
        plan.width,
        plan.height,
        premul@.len(),
    ))
    &&& r matches Ok(img) ==> (normalized_from(
        Raster {
            width: plan.width as nat,
            height: plan.height as nat,
            samples: straightened(rendered->0@),
        },
        img@,
    ) && is_rgba(img@) && holds_limit(img@))
    &&& r matches Err(e) ==> (e matches AppError::InvalidInput(d) && rasterizing_failure(d@))
    &&& rendered is None ==> (r matches Err(AppError::InvalidInput(d)) && d@
        == "Impossible de créer le Pixmap SVG"@)
}

/// Whether a renderer can be called for every canvas that a plan may hold:
/// one with sides from 1 to 8192.
pub open spec fn can_render<R: FnOnce(resvg::usvg::Tree, u32, u32, u32) -> Option<Vec<u8>>>(
    render: R,
) -> bool {
    forall|tree: resvg::usvg::Tree, scale_bits: u32, width: u32, height: u32|
        1 <= width <= MAX_SVG_PIXELS && 1 <= height <= MAX_SVG_PIXELS ==> call_requires(
            render,
            (tree, scale_bits, width, height),
        )
}

/// Makes a canonical image of a rendered canvas: fails where no canvas was
/// made or its samples do not fill the planned grid, else removes the
/// premultiplication and applies the resolution limit.
pub fn finish_svg(plan: &SvgPlan, rendered: Option<Vec<u8>>) -> (r: Result<
    CanonicalImage,
    AppError,
>)
    ensures
        svg_finished(*plan, rendered, r),
{
    match rendered {
        None => Err(
            AppError::InvalidInput(String::from_str("Impossible de créer le Pixmap SVG")),
        ),
        Some(premul) => {
            match CanonicalImage::from_raw(plan.width, plan.height, unpremultiply_checked(premul)) {
                Some(img) => smart_downscale(img),
                None => Err(
                    AppError::InvalidInput(String::from_str("Conversion SVG→RgbaImage échouée")),
                ),
            }
        },
    }
}

/// `unpremultiply` for samples of any length: a length that is not a
/// multiple of four cannot fill a grid, and the samples are handed back.
fn unpremultiply_checked(premul: Vec<u8>) -> (out: Vec<u8>)
    ensures
        out@.len() == premul@.len(),
        premul@.len() % 4 == 0 ==> out@ == straightened(premul@),
{
    if premul.len() % 4 == 0 {
        unpremultiply(&premul)
    } else {
        premul
    }
}

/// Whether `out` is the image of a canvas of the planned size rendered to
/// `premul`: the premultiplication removed, normalised.
pub open spec fn svg_image_from(plan: SvgPlan, premul: Seq<u8>, out: Raster) -> bool {
    &&& premul.len() == 4 * (plan.width as nat * plan.height as nat)
    &&& normalized_from(
        Raster {
            width: plan.width as nat,
            height: plan.height as nat,
            samples: straightened(premul),
        },
        out,
    )
}

/// Whether `out` is an image of a document whose canvas has the given size:
/// the size is not degenerate, its plan has a canvas, and `out` is the
/// image of some rendering of it.
pub open spec fn rasterized_at(width_bits: u32, height_bits: u32, out: Raster) -> bool {
    &&& !is_degenerate(width_bits)
    &&& !is_degenerate(height_bits)
    &&& has_canvas(svg_plan(width_bits, height_bits))
    &&& exists|premul: Seq<u8>|
        #[trigger] svg_image_from(svg_plan(width_bits, height_bits), premul, out)
}

/// Rasterises a parsed document whose canvas has the given size: plans the
/// canvas, has `render` draw the document onto one of that size, scaled in
/// both directions by the plan's factor, and makes a canonical image of the
/// premultiplied RGBA samples that come back.
///
/// A canvas with a zero or negative side is `InvalidInput`, before any
/// canvas is made; so is a plan without area, for which the renderer is not
/// called. For any other document the result is what `finish_svg` makes of
/// whatever the renderer gave.
pub fn rasterize_parsed<R: FnOnce(resvg::usvg::Tree, u32, u32, u32) -> Option<Vec<u8>>>(
    tree: resvg::usvg::Tree,
    width_bits: u32,
    height_bits: u32,
    render: R,
) -> (r: Result<CanonicalImage, AppError>)
    requires
        can_render(render),
    ensures
        is_degenerate(width_bits) || is_degenerate(height_bits) ==> (r matches Err(
            AppError::InvalidInput(d),
        ) && d@ == "SVG invalide : dimensions nulles ou négatives"@),
        !is_degenerate(width_bits) && !is_degenerate(height_bits) ==> ({
            let plan = svg_plan(width_bits, height_bits);
            if has_canvas(plan) {
                exists|rendered: Option<Vec<u8>>|
                    call_ensures(
                        render,
                        (tree, plan.scale_bits, plan.width, plan.height),
                        rendered,
                    ) && #[trigger] svg_finished(plan, rendered, r)
            } else {
                r matches Err(AppError::InvalidInput(d)) && d@
                    == "Impossible de créer le Pixmap SVG"@
            }
        }),
        r matches Ok(img) ==> rasterized_at(width_bits, height_bits, img@) && is_rgba(img@)
            && holds_limit(img@),
        r matches Err(e) ==> (e matches AppError::InvalidInput(d) && rasterizing_failure(d@)),
{
    let plan: SvgPlan = match plan_svg(width_bits, height_bits) {
        Ok(plan) => plan,
        Err(e) => {
            return Err(e);
        },
    };
    if plan.width == 0 || plan.height == 0 {
        return finish_svg(&plan, None);
    }
    let ghost handed: resvg::usvg::Tree = tree;
    let rendered: Option<Vec<u8>> = render(tree, plan.scale_bits, plan.width, plan.height);
    let ghost given: Option<Vec<u8>> = rendered;
    let r = finish_svg(&plan, rendered);
    proof {
        assert(call_ensures(render, (handed, plan.scale_bits, plan.width, plan.height), given)
            && svg_finished(plan, given, r));
        if r is Ok {
            assert(svg_image_from(plan, given->0@, r->Ok_0@));
        }
    }
    r
}

/// Rasterises an SVG document: parses it, then plans, has `render` draw it
/// and normalises as `rasterize_parsed` does.
///
/// Whatever the parser makes of the bytes: a document that does not parse
/// is `InvalidInput` with the parser's message, and an image that comes out
/// is an image of a document with some positive, finite canvas size.
pub fn rasterize_svg<R: FnOnce(resvg::usvg::Tree, u32, u32, u32) -> Option<Vec<u8>>>(
    data: &[u8],
    render: R,
) -> (r: Result<CanonicalImage, AppError>)
    requires
        can_render(render),
    ensures
        r matches Ok(img) ==> (is_rgba(img@) && holds_limit(img@) && svg_loaded(img@)),
        r matches Err(e) ==> (e matches AppError::InvalidInput(d) && (rasterizing_failure(d@)
            || "SVG parse error : "@.is_prefix_of(d@))),
{
    match parse_svg(data) {
        Ok(parsed) => {
            let r = rasterize_parsed(parsed.0, parsed.1, parsed.2, render);
            proof {
                if r is Ok {
                    assert(rasterized_at(parsed.1, parsed.2, r->Ok_0@));
                }
            }
            r
        },
        Err(e) => {
            let d: String = prefixed("SVG parse error : ", e.as_str());
            proof {
                lemma_prefix_stays("SVG parse error : "@, e@);
            }
            Err(AppError::InvalidInput(d))
        },
    }
}

/// What `load_image` makes of a raster file: the decoder's image normalised,
/// or `InvalidInput` where the decoder fails or the image cannot be
/// normalised.
pub open spec fn raster_loads(data: Seq<u8>, path: Seq<char>) -> bool {
    match decoding_at_path(data, path) {
        Ok(raw) => normalizes(raw.0, raw.1, raw.2.len()),
        Err(_) => false,
    }
}

/// The size of the image that `load_image` gives for a raster file that
/// loads.
pub open spec fn raster_size(data: Seq<u8>, path: Seq<char>) -> (nat, nat) {
    let raw = decoding_at_path(data, path)->Ok_0;
    normalized_size(raw.0, raw.1)
}

/// Whether `out` is the image that `load_image` gives for a raster file
/// that loads: the decoder's image, normalised.
pub open spec fn raster_loaded(data: Seq<u8>, path: Seq<char>, out: Raster) -> bool {
    let raw = decoding_at_path(data, path)->Ok_0;
    &&& normalized_from(Raster { width: raw.0 as nat, height: raw.1 as nat, samples: raw.2 }, out)
    &&& out.width == raster_size(data, path).0
    &&& out.height == raster_size(data, path).1
}

/// Whether `out` is an image that `load_image` may give for an SVG file.
pub open spec fn svg_loaded(out: Raster) -> bool {
    exists|w: u32, h: u32|
        is_positive_finite(w) && is_positive_finite(h) && #[trigger] rasterized_at(w, h, out)
}

/// Whether `text` is what `load_image` says where it fails on a supported
/// file at `path`: the document does not parse, the file does not decode, or
/// the image cannot be rasterised or normalised.
pub open spec fn loading_failure(path: Seq<char>, text: Seq<char>) -> bool {
    ||| rasterizing_failure(text)
    ||| "SVG parse error : "@.is_prefix_of(text)
    ||| ("Impossible d'ouvrir "@ + path + " : "@).is_prefix_of(text)
}

/// Makes a canonical image of `data`, the content of the file at `path`.
///
/// The format goes by the path's extension, whatever its case. A path
/// without a supported extension is rejected before anything is decoded. An
/// SVG file is rasterised, with `render` to draw it; any other is decoded;
/// and the result is held to the resolution limit.
pub fn load_image<R: FnOnce(resvg::usvg::Tree, u32, u32, u32) -> Option<Vec<u8>>>(
    path: &str,
    data: &[u8],
    render: R,
) -> (r: Result<CanonicalImage, AppError>)
    requires
        can_render(render),
    ensures
        !supported_path(path@) ==> (r matches Err(AppError::UnsupportedFormat(p)) && p@ == path@),
        supported_path(path@) ==> (r matches Err(e) ==> (e matches AppError::InvalidInput(d)
            && loading_failure(path@, d@))),
        supported_path(path@) && format_key(path@) == Some("svg"@) ==> (r matches Ok(img)
            ==> svg_loaded(img@)),
        supported_path(path@) && format_key(path@) != Some("svg"@) ==> {
            &&& r is Ok <==> raster_loads(data@, path@)
            &&& r matches Ok(img) ==> raster_loaded(data@, path@, img@)
            &&& decoding_at_path(data@, path@) matches Err(m) ==> (r matches Err(
                AppError::InvalidInput(d),
            ) && d@ == "Impossible d'ouvrir "@ + path@ + " : "@ + m)
        },
        r matches Ok(img) ==> is_rgba(img@) && holds_limit(img@),
{
    let key: String = match format_key_of(path) {
        Some(key) => key,
        None => {
            return Err(AppError::UnsupportedFormat(String::from_str(path)));
        },
    };
    if !extension_is_supported(key.as_str()) {
        return Err(AppError::UnsupportedFormat(String::from_str(path)));
    }
    if same_text(key.as_str(), "svg") {
        return rasterize_svg(data, render);
    }
    match decode_at_path(data, path) {
        Ok(raw) => normalize_decoded(raw.0, raw.1, raw.2),
        Err(e) => {
            let mut m: String = prefixed("Impossible d'ouvrir ", path);
            m.append(" : ");
            m.append(e.as_str());
            proof {
                lemma_prefix_stays("Impossible d'ouvrir "@ + path@ + " : "@, e@);
            }
            Err(AppError::InvalidInput(m))
        },
    }
}

} // verus!
