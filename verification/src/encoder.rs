//! The encoded form in which a result leaves the pipeline: a PNG stream,
//! and for transport a `data:` URL that carries it as base64.

use crate::codec::{
    base64_bytes, base64_fits, base64_of, base64_text, bytes_of_base64, decode_guessed,
    png_encoding, png_of_rgba, same_text,
};
use crate::error::{prefixed, AppError};
use crate::raster::{fills, is_rgba, CanonicalImage, Raster};
use vstd::prelude::*;
use vstd::string::*;

verus! {

/// What a data URL of a PNG image starts with.
pub open spec fn data_url_prefix() -> Seq<char> {
    "data:image/png;base64,"@
}

/// The data URL that carries `payload`.
pub open spec fn data_url(payload: Seq<char>) -> Seq<char> {
    data_url_prefix() + payload
}

/// The payload of a data URL: what follows the prefix, and the whole text
/// where it does not start with the prefix.
pub open spec fn data_url_payload(text: Seq<char>) -> Seq<char> {
    if data_url_prefix().is_prefix_of(text) {
        text.skip(data_url_prefix().len() as int)
    } else {
        text
    }
}

/// Taking the payload out of the data URL that was made of it gives the
/// payload back.
pub proof fn law_payload_of_data_url(payload: Seq<char>)
    ensures
        data_url_payload(data_url(payload)) == payload,
{
    let url: Seq<char> = data_url(payload);
    assert(data_url_prefix().is_prefix_of(url)) by {
        assert(url.subrange(0, data_url_prefix().len() as int) =~= data_url_prefix());
    }
    assert(url.skip(data_url_prefix().len() as int) =~= payload);
}

/// Encodes an image as a PNG stream; a failure of the encoder is `Encoding`.
pub fn encode_png(img: &CanonicalImage) -> (r: Result<Vec<u8>, AppError>)
    ensures
        match png_encoding(img@.width as u32, img@.height as u32, img@.samples) {
            Ok(bytes) => r matches Ok(out) && out@ == bytes,
            Err(m) => r matches Err(AppError::Encoding(d)) && d@ == "Encodage PNG : "@ + m,
        },
{
    let width: u32 = img.width();
    let height: u32 = img.height();
    match png_of_rgba(width, height, img.pixels()) {
        Ok(bytes) => Ok(bytes),
        Err(m) => Err(AppError::Encoding(prefixed("Encodage PNG : ", m.as_str()))),
    }
}

/// Tests `base64_fits` without overflow.
fn fits_base64(len: usize) -> (ok: bool)
    ensures
        ok == base64_fits(len as nat),
{
    (len as u128 + 2) / 3 * 4 <= usize::MAX as u128
}

/// The data URL of a PNG stream, or `Encoding` where the stream is too long
/// for its base64 text to fit the machine.
pub fn data_url_of(png: &Vec<u8>) -> (r: Result<String, AppError>)
    ensures
        r is Ok <==> base64_fits(png@.len()),
        r matches Ok(url) ==> url@ == data_url(base64_text(png@)),
        r matches Err(e) ==> e is Encoding,
{
    if !fits_base64(png.len()) {
        return Err(AppError::Encoding(String::from_str("Image trop grande pour le base64")));
    }
    let text: String = base64_of(png.as_slice());
    Ok(prefixed("data:image/png;base64,", text.as_str()))
}

/// Whether `r` is the encoding of an image as a data URL: the prefix and
/// the base64 text of the image's PNG stream, or `Encoding` where the PNG
/// encoder fails or the text would not fit the machine.
pub open spec fn encoded_as(img: Raster, r: Result<String, AppError>) -> bool {
    &&& match png_encoding(img.width as u32, img.height as u32, img.samples) {
        Ok(bytes) => {
            &&& r is Ok <==> base64_fits(bytes.len())
            &&& r matches Ok(url) ==> url@ == data_url(base64_text(bytes))
        },
        Err(m) => r matches Err(AppError::Encoding(d)) && d@ == "Encodage PNG : "@ + m,
    }
    &&& r matches Err(e) ==> e is Encoding
}

/// Encodes an image as PNG and wraps the stream, as base64, in a data URL.
pub fn encode_base64_png(img: &CanonicalImage) -> (r: Result<String, AppError>)
    ensures
        encoded_as(img@, r),
{
    match encode_png(img) {
        Ok(png) => data_url_of(&png),
        Err(e) => Err(e),
    }
}

/// The payload of a data URL.
pub fn payload_of(text: &str) -> (r: &str)
    ensures
        r@ == data_url_payload(text@),
{
    proof {
        reveal_strlit("data:image/png;base64,");
    }
    let n: usize = text.unicode_len();
    if n >= 22 && same_text(text.substring_char(0, 22), "data:image/png;base64,") {
        text.substring_char(22, n)
    } else {
        text
    }
}

/// The bytes that a data URL carries: its payload decoded from base64. Text
/// that is not base64 is `Encoding` with the decoder's message.
pub fn bytes_of_data_url(text: &str) -> (r: Result<Vec<u8>, AppError>)
    ensures
        match base64_bytes(data_url_payload(text@)) {
            Ok(bytes) => r matches Ok(out) && out@ == bytes,
            Err(m) => r matches Err(AppError::Encoding(d)) && d@ == m,
        },
{
    match bytes_of_base64(payload_of(text)) {
        Ok(bytes) => Ok(bytes),
        Err(m) => Err(AppError::Encoding(m)),
    }
}

/// Makes an image of decoded RGBA samples as they are; `Encoding` where
/// they do not fill a grid with area.
pub fn image_of_decoded(width: u32, height: u32, pixels: Vec<u8>) -> (r: Result<
    CanonicalImage,
    AppError,
>)
    ensures
        r is Ok <==> fills(width, height, 4, pixels@.len()),
        r matches Ok(img) ==> img@ == (Raster {
            width: width as nat,
            height: height as nat,
            samples: pixels@,
        }) && is_rgba(img@),
        r matches Err(e) ==> e is Encoding,
{
    match CanonicalImage::from_raw(width, height, pixels) {
        Some(img) => {
            let samples: usize = img.pixels().len();
            Ok(img)
        },
        None => Err(AppError::Encoding(String::from_str("Image décodée sans surface"))),
    }
}

/// The image that a data URL carries, at its own size.
///
/// Whatever the decoder makes of the bytes, every failure is `Encoding`,
/// and text that is not base64 always fails.
pub fn image_of_data_url(text: &str) -> (r: Result<CanonicalImage, AppError>)
    ensures
        r matches Ok(img) ==> is_rgba(img@),
        r matches Err(e) ==> e is Encoding,
        base64_bytes(data_url_payload(text@)) is Err ==> r is Err,
{
    let bytes: Vec<u8> = match bytes_of_data_url(text) {
        Ok(bytes) => bytes,
        Err(e) => {
            return Err(e);
        },
    };
    match decode_guessed(bytes.as_slice()) {
        Ok(raw) => image_of_decoded(raw.0, raw.1, raw.2),
        Err(m) => Err(AppError::Encoding(m)),
    }
}

/// The PNG stream to save for a result held as a data URL: the image it
/// carries, encoded again.
///
/// Whatever the decoder makes of the bytes, a stream that comes out is the
/// PNG stream of an image with area.
pub fn png_of_data_url(text: &str) -> (r: Result<Vec<u8>, AppError>)
    ensures
        r matches Ok(png) ==> exists|w: u32, h: u32, p: Seq<u8>|
            fills(w, h, 4, p.len()) && #[trigger] png_encoding(w, h, p) == Ok::<
                Seq<u8>,
                Seq<char>,
            >(png@),
        r matches Err(e) ==> e is Encoding,
        base64_bytes(data_url_payload(text@)) is Err ==> r is Err,
{
    match image_of_data_url(text) {
        Ok(img) => {
            let width: u32 = img.width();
            let height: u32 = img.height();
            let count: usize = img.pixels().len();
            let ghost samples: Seq<u8> = img@.samples;
            let r = encode_png(&img);
            proof {
                if r is Ok {
                    assert(fills(width, height, 4, samples.len()) && png_encoding(
                        width,
                        height,
                        samples,
                    ) == Ok::<Seq<u8>, Seq<char>>(r->Ok_0@));
                }
            }
            r
        },
        Err(e) => Err(e),
    }
}

} // verus!
