//! The calls into outside code: the `image` crate for decoding, resampling
//! and PNG, `base64`, `usvg` for parsing vector images, and the parts of
//! `std` for paths and text that have no specification. Drawing a vector
//! image is the caller's part: the renderer can panic on documents that
//! nothing here can tell apart, so it is handed in.
//!
//! Nothing here is proved, save `room_for` and `same_text`. Each other
//! function is a thin shell round one outside call; its contract states what
//! this library relies on, and its comment says why that may be relied on.

use crate::binary32::is_positive_finite;
use crate::raster::fills;
use vstd::prelude::*;
use vstd::string::*;

verus! {

/// Whether a buffer of `bytes` bytes can be allocated at all.
pub open spec fn allocatable(bytes: nat) -> bool {
    bytes <= isize::MAX
}

/// Tests whether a buffer of sixteen bytes for each cell of an `a` by `b`
/// grid can be allocated.
pub fn room_for(a: u32, b: u32) -> (ok: bool)
    ensures
        ok == allocatable(16 * (a as nat * b as nat)),
{
    proof {
        assert(a as nat * b as nat <= 0xffff_ffff * 0xffff_ffff) by (nonlinear_arith)
            requires
                a <= 0xffff_ffff,
                b <= 0xffff_ffff,
        ;
    }
    let cells: u128 = a as u128 * b as u128;
    16 * cells <= isize::MAX as u128
}

/// What `image::load_from_memory_with_format` makes of `data` in the format
/// that `image::ImageFormat::from_path` reads off `path`, converted to 8-bit
/// RGBA: width, height and samples, or the error's text.
pub uninterp spec fn decoding_at_path(data: Seq<u8>, path: Seq<char>) -> Result<
    (u32, u32, Seq<u8>),
    Seq<char>,
>;

/// Decodes `data`, the content of the file at `path`, in the format that the
/// path's extension stands for, and converts the image to 8-bit RGBA.
///
/// Trusted: the result is a function of `data` and `path` alone, which the
/// contract names `decoding_at_path`.
#[verifier::external_body]
pub(crate) fn decode_at_path(data: &[u8], path: &str) -> (r: Result<(u32, u32, Vec<u8>), String>)
    ensures
        match r {
            Ok(img) => decoding_at_path(data@, path@) == Ok::<(u32, u32, Seq<u8>), Seq<char>>(
                (img.0, img.1, img.2@),
            ),
            Err(e) => decoding_at_path(data@, path@) == Err::<(u32, u32, Seq<u8>), Seq<char>>(e@),
        },
{
    let format = match image::ImageFormat::from_path(path) {
        Ok(format) => format,
        Err(e) => return Err(e.to_string()),
    };
    match image::load_from_memory_with_format(data, format) {
        Ok(img) => {
            let rgba = img.into_rgba8();
            Ok((rgba.width(), rgba.height(), rgba.into_raw()))
        },
        Err(e) => Err(e.to_string()),
    }
}

/// Decodes `data` in the format that its first bytes show, and converts the
/// image to 8-bit RGBA: width, height and samples, or the error's text.
///
/// Trusted, and nothing is claimed of the result: `image::load_from_memory`
/// consults the format detectors that a program may have registered with the
/// `image` crate, so the same bytes need not always decode alike.
#[verifier::external_body]
pub(crate) fn decode_guessed(data: &[u8]) -> (r: Result<(u32, u32, Vec<u8>), String>) {
    match image::load_from_memory(data) {
        Ok(img) => {
            let rgba = img.into_rgba8();
            Ok((rgba.width(), rgba.height(), rgba.into_raw()))
        },
        Err(e) => Err(e.to_string()),
    }
}

/// What the resampler needs to run: a full source grid, a target that is not
/// empty, and room for its intermediate image of `width` by `new_height`
/// pixels at sixteen bytes each.
pub open spec fn resample_fits(
    width: u32,
    height: u32,
    per_pixel: nat,
    len: nat,
    new_width: u32,
    new_height: u32,
) -> bool {
    &&& fills(width, height, per_pixel, len)
    &&& new_width > 0
    &&& new_height > 0
    &&& allocatable(16 * (width as nat * new_height as nat))
    &&& allocatable(16 * (new_width as nat * new_height as nat))
}

/// Resizes an RGBA image with `image::imageops::resize` and the Lanczos3
/// filter.
///
/// Trusted: the result has four samples for each pixel of the new grid, and
/// where the new size is the old one it is a copy of the input, as `resize`
/// makes one without sampling. Nothing is claimed of the samples of another
/// size: the filter goes through the sine, whose last bits std leaves open.
#[verifier::external_body]
pub(crate) fn resize_rgba(
    width: u32,
    height: u32,
    pixels: &Vec<u8>,
    new_width: u32,
    new_height: u32,
) -> (out: Vec<u8>)
    requires
        resample_fits(width, height, 4, pixels@.len(), new_width, new_height),
    ensures
        out@.len() == 4 * (new_width as nat * new_height as nat),
        (new_width == width && new_height == height) ==> out@ == pixels@,
{
    let src = image::RgbaImage::from_raw(width, height, pixels.clone()).unwrap();
    let filter = image::imageops::FilterType::Lanczos3;
    image::imageops::resize(&src, new_width, new_height, filter).into_raw()
}

/// Resizes a single-channel image with `image::imageops::resize` and the
/// Lanczos3 filter.
///
/// Trusted: the result has one value for each pixel of the new grid, and
/// where the new size is the old one it is a copy of the input. Nothing is
/// claimed of the values of another size.
#[verifier::external_body]
pub(crate) fn resize_luma(
    width: u32,
    height: u32,
    values: &Vec<u8>,
    new_width: u32,
    new_height: u32,
) -> (out: Vec<u8>)
    requires
        resample_fits(width, height, 1, values@.len(), new_width, new_height),
    ensures
        out@.len() == new_width as nat * new_height as nat,
        (new_width == width && new_height == height) ==> out@ == values@,
{
    let src = image::GrayImage::from_raw(width, height, values.clone()).unwrap();
    let filter = image::imageops::FilterType::Lanczos3;
    image::imageops::resize(&src, new_width, new_height, filter).into_raw()
}

/// The PNG stream that `image::DynamicImage::write_to` produces for an RGBA
/// image, or the error's text.
pub uninterp spec fn png_encoding(width: u32, height: u32, pixels: Seq<u8>) -> Result<
    Seq<u8>,
    Seq<char>,
>;

/// Encodes an RGBA image as PNG, with `image::DynamicImage::write_to`.
///
/// Trusted: the result is the function of the image that the contract names
/// `png_encoding`.
#[verifier::external_body]
pub(crate) fn png_of_rgba(width: u32, height: u32, pixels: &Vec<u8>) -> (r: Result<
    Vec<u8>,
    String,
>)
    requires
        fills(width, height, 4, pixels@.len()),
    ensures
        match r {
            Ok(bytes) => png_encoding(width, height, pixels@) == Ok::<Seq<u8>, Seq<char>>(bytes@),
            Err(e) => png_encoding(width, height, pixels@) == Err::<Seq<u8>, Seq<char>>(e@),
        },
{
    let rgba = image::RgbaImage::from_raw(width, height, pixels.clone()).unwrap();
    let mut out = std::io::Cursor::new(Vec::new());
    match image::DynamicImage::ImageRgba8(rgba).write_to(&mut out, image::ImageFormat::Png) {
        Ok(()) => Ok(out.into_inner()),
        Err(e) => Err(e.to_string()),
    }
}

/// The text that the standard base64 engine, with padding, encodes `bytes` as.
pub uninterp spec fn base64_text(bytes: Seq<u8>) -> Seq<char>;

/// Whether the base64 text of `len` bytes, four characters for every three
/// bytes or part of three, has a length that fits the machine.
pub open spec fn base64_fits(len: nat) -> bool {
    (len + 2) / 3 * 4 <= usize::MAX
}

/// Encodes bytes as base64, with `base64::Engine::encode` of the engine
/// `STANDARD`.
///
/// Trusted: the result is the function of the bytes that the contract names
/// `base64_text`. The length that the encoder computes for its text must not
/// overflow.
#[verifier::external_body]
pub(crate) fn base64_of(bytes: &[u8]) -> (text: String)
    requires
        base64_fits(bytes@.len()),
    ensures
        text@ == base64_text(bytes@),
{
    base64::Engine::encode(&base64::engine::general_purpose::STANDARD, bytes)
}

/// The bytes that the standard base64 engine decodes `text` to, or the
/// error's text.
pub uninterp spec fn base64_bytes(text: Seq<char>) -> Result<Seq<u8>, Seq<char>>;

/// Decodes base64 text, with `base64::Engine::decode` of the engine
/// `STANDARD`.
///
/// Trusted: the result is the function of the text that the contract names
/// `base64_bytes`.
#[verifier::external_body]
pub(crate) fn bytes_of_base64(text: &str) -> (r: Result<Vec<u8>, String>)
    ensures
        match r {
            Ok(bytes) => base64_bytes(text@) == Ok::<Seq<u8>, Seq<char>>(bytes@),
            Err(e) => base64_bytes(text@) == Err::<Seq<u8>, Seq<char>>(e@),
        },
{
    match base64::Engine::decode(&base64::engine::general_purpose::STANDARD, text) {
        Ok(bytes) => Ok(bytes),
        Err(e) => Err(e.to_string()),
    }
}

/// A parsed SVG document.
#[verifier::external_type_specification]
#[verifier::external_body]
pub struct ExSvgTree(resvg::usvg::Tree);

/// Parses an SVG document with `resvg::usvg::Tree::from_data` and the
/// default options, and reads the size of its canvas off the tree with
/// `Tree::size`: the width and the height, each as the bit pattern of its
/// binary32 value. A document that does not parse gives the error's text.
///
/// Trusted: a size that comes out is positive and finite on both sides, as
/// the type of `Tree::size` admits no other. Nothing else is claimed: the
/// size of a document that declares none follows its content, images read
/// from disk among it.
#[verifier::external_body]
pub(crate) fn parse_svg(data: &[u8]) -> (r: Result<(resvg::usvg::Tree, u32, u32), String>)
    ensures
        r matches Ok(parsed) ==> is_positive_finite(parsed.1),
        r matches Ok(parsed) ==> is_positive_finite(parsed.2),
{
    match resvg::usvg::Tree::from_data(data, &resvg::usvg::Options::default()) {
        Ok(tree) => {
            let size = tree.size();
            Ok((tree, size.width().to_bits(), size.height().to_bits()))
        },
        Err(e) => Err(e.to_string()),
    }
}

/// The extension that `std::path::Path::extension` finds in `path`, where it
/// finds one and it is valid Unicode.
pub uninterp spec fn path_extension(path: Seq<char>) -> Option<Seq<char>>;

/// The extension of a path, without its dot.
///
/// Trusted: the result is the function of the path that the contract names
/// `path_extension`.
#[verifier::external_body]
pub(crate) fn extension_of(path: &str) -> (r: Option<String>)
    ensures
        match r {
            Some(ext) => path_extension(path@) == Some(ext@),
            None => path_extension(path@) is None,
        },
{
    match std::path::Path::new(path).extension() {
        Some(ext) => ext.to_str().map(String::from),
        None => None,
    }
}

/// The final component that `std::path::Path::file_name` finds in `path`,
/// where it finds one and it is valid Unicode.
pub uninterp spec fn path_file_name(path: Seq<char>) -> Option<Seq<char>>;

/// The final component of a path.
///
/// Trusted: the result is the function of the path that the contract names
/// `path_file_name`.
#[verifier::external_body]
pub(crate) fn file_name_of(path: &str) -> (r: Option<String>)
    ensures
        match r {
            Some(name) => path_file_name(path@) == Some(name@),
            None => path_file_name(path@) is None,
        },
{
    match std::path::Path::new(path).file_name() {
        Some(name) => name.to_str().map(String::from),
        None => None,
    }
}

/// The stem that `std::path::Path::file_stem` finds in `path`: the final
/// component without its extension, where there is one and it is valid
/// Unicode.
pub uninterp spec fn path_file_stem(path: Seq<char>) -> Option<Seq<char>>;

/// The final component of a path without its extension.
///
/// Trusted: the result is the function of the path that the contract names
/// `path_file_stem`.
#[verifier::external_body]
pub(crate) fn file_stem_of(path: &str) -> (r: Option<String>)
    ensures
        match r {
            Some(stem) => path_file_stem(path@) == Some(stem@),
            None => path_file_stem(path@) is None,
        },
{
    match std::path::Path::new(path).file_stem() {
        Some(stem) => stem.to_str().map(String::from),
        None => None,
    }
}

/// The lower-case form that `str::to_lowercase` gives.
pub uninterp spec fn lowercase(text: Seq<char>) -> Seq<char>;

/// The text in lower case.
///
/// Trusted: the result is the function of the text that the contract names
/// `lowercase`.
#[verifier::external_body]
pub(crate) fn to_lowercase(text: &str) -> (r: String)
    ensures
        r@ == lowercase(text@),
{
    text.to_lowercase()
}

/// Whether two texts are the same.
pub fn same_text(a: &str, b: &str) -> (r: bool)
    ensures
        r == (a@ == b@),
{
    a.to_owned() == b.to_owned()
}

} // verus!
