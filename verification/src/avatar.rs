//! Player avatars: the on-disk cache key of an avatar address, and turning
//! downloaded or cached bytes into an avatar image of the size a card needs.

use crate::text::{hex_lower, hex_string};
use image::imageops::FilterType;
use image::{DynamicImage, GenericImageView, ImageFormat};
use sha1::Digest;
use std::io::Cursor;
use vstd::prelude::*;
use vstd::string::StringSliceAdditionalSpecFns;

verus! {

/// A decoded image of any pixel format.
#[verifier::external_type_specification]
#[verifier::external_body]
pub struct ExDynamicImage(DynamicImage);

/// The SHA-1 digest of `data`.
pub uninterp spec fn sha1(data: Seq<u8>) -> Seq<u8>;

/// The width and height of an image, in pixels.
pub uninterp spec fn image_size(img: DynamicImage) -> (u32, u32);

/// The image that `bytes` decode to, the format being guessed from the
/// content; `None` when they are no image the decoder reads.
pub uninterp spec fn decoded_image(bytes: Seq<u8>) -> Option<DynamicImage>;

/// Whether `out` is a resampling of `src` to `width` by `height` pixels with
/// the Lanczos3 filter. The filter computes in floating point, so the same
/// source need not give the same pixels twice: this is a relation, not a
/// function of the source.
pub uninterp spec fn lanczos3_resampling_of(
    src: DynamicImage,
    width: u32,
    height: u32,
    out: DynamicImage,
) -> bool;

/// The fully transparent RGBA image of `width` by `height` pixels.
pub uninterp spec fn transparent_image(width: u32, height: u32) -> DynamicImage;

/// The PNG file that encodes `img`, if the encoder accepts it.
pub uninterp spec fn png_encoding(img: DynamicImage) -> Option<Seq<u8>>;

/// Trusted: `<Sha1 as Digest>::digest` hashes `data`; its output is 20 bytes
/// long (the output size of `Sha1Core` is `U20`).
#[verifier::external_body]
fn sha1_digest(data: &[u8]) -> (digest: Vec<u8>)
    ensures
        digest@ == sha1(data@),
        digest@.len() == 20,
{
    sha1::Sha1::digest(data).to_vec()
}

/// Whether an image of `width` by `height` pixels fits in memory whatever its
/// pixel format (at most 16 bytes a pixel).
pub open spec fn pixels_fit(width: u32, height: u32) -> bool {
    width as int * height as int * 16 <= isize::MAX as int
}

/// Trusted: `image::load_from_memory` guesses the format from the content
/// and decodes `bytes`; it fails on anything it cannot read as an image.
/// Which images it reads and their pixels are left to the decoder: the
/// contract names the outcome.
#[verifier::external_body]
fn decode_image(bytes: &[u8]) -> (img: Option<DynamicImage>)
    ensures
        img == decoded_image(bytes@),
{
    image::load_from_memory(bytes).ok()
}

/// Trusted: `GenericImageView::dimensions` of a `DynamicImage` gives its
/// width and height.
#[verifier::external_body]
fn image_dimensions(img: &DynamicImage) -> (size: (u32, u32))
    ensures
        size == image_size(*img),
{
    img.dimensions()
}

/// Trusted: `DynamicImage::resize_exact` with the Lanczos3 filter returns a
/// resampling of `img` to exactly `width` by `height` pixels. Its pixels come
/// from floating-point arithmetic and are not promised to be the same on
/// every call.
#[verifier::external_body]
fn resize_exact(img: &DynamicImage, width: u32, height: u32) -> (resized: DynamicImage)
    requires
        pixels_fit(width, height),
    ensures
        lanczos3_resampling_of(*img, width, height, resized),
        image_size(resized) == (width, height),
{
    img.resize_exact(width, height, FilterType::Lanczos3)
}

/// Trusted: `DynamicImage::new_rgba8` returns a fully transparent RGBA image
/// of `width` by `height` pixels.
#[verifier::external_body]
fn blank_image(width: u32, height: u32) -> (blank: DynamicImage)
    requires
        pixels_fit(width, height),
    ensures
        blank == transparent_image(width, height),
        image_size(blank) == (width, height),
{
    DynamicImage::new_rgba8(width, height)
}

/// Trusted: `DynamicImage::write_to` with `ImageFormat::Png` writes the PNG
/// encoding of `img`, or fails.
#[verifier::external_body]
fn encode_png(img: &DynamicImage) -> (png: Option<Vec<u8>>)
    ensures
        png is Some <==> png_encoding(*img) is Some,
        png matches Some(bytes) ==> png_encoding(*img) == Some(bytes@),
{
    let mut out = Cursor::new(Vec::new());
    match img.write_to(&mut out, ImageFormat::Png) {
        Ok(()) => Some(out.into_inner()),
        Err(_) => None,
    }
}

/// The on-disk cache key of an avatar address: the lower-case hexadecimal
/// SHA-1 digest of its UTF-8 bytes.
pub fn cache_key(avatar_url: &str) -> (key: String)
    ensures
        key@ == hex_lower(sha1(avatar_url.spec_bytes())),
        key@.len() == 40,
{
    let digest = sha1_digest(avatar_url.as_bytes());
    hex_string(digest.as_slice())
}

/// The name of the file caching the avatar at `avatar_url`: its cache key
/// followed by `.bin`.
pub fn cache_file_name(avatar_url: &str) -> (name: String)
    ensures
        name@ == hex_lower(sha1(avatar_url.spec_bytes())) + ".bin"@,
{
    let mut name = cache_key(avatar_url);
    name.append(".bin");
    name
}

/// Whether `img` is an avatar that downloaded `bytes` give at `size`
/// (`(width, height)`): a Lanczos3 resampling of the decoded image, or the
/// transparent placeholder when the bytes are no image.
pub open spec fn is_avatar_from_bytes(bytes: Seq<u8>, size: (u32, u32), img: DynamicImage) -> bool {
    match decoded_image(bytes) {
        Some(decoded) => lanczos3_resampling_of(decoded, size.0, size.1, img),
        None => img == transparent_image(size.0, size.1),
    }
}

/// Whether `img` is the cached image `stored` brought to `size`: `stored`
/// itself when it already has that size, a Lanczos3 resampling otherwise.
pub open spec fn is_fitted(stored: DynamicImage, size: (u32, u32), img: DynamicImage) -> bool {
    if image_size(stored) == size {
        img == stored
    } else {
        lanczos3_resampling_of(stored, size.0, size.1, img)
    }
}

/// Whether an image of `width` by `height` pixels fits in memory whatever its
/// pixel format.
pub fn fits_in_memory(width: u32, height: u32) -> (fits: bool)
    ensures
        fits == pixels_fit(width, height),
{
    let w: u128 = width as u128;
    let h: u128 = height as u128;
    assert(w * h <= 0xffff_ffff_ffff_ffff) by (nonlinear_arith)
        requires
            w <= 0xffff_ffff,
            h <= 0xffff_ffff,
    ;
    let pixels: u128 = w * h;
    pixels * 16 <= isize::MAX as u128
}

/// Decodes `bytes` (guessing the format) and resizes the image to `size`
/// (`(width, height)`). Bytes that are no image (a CDN error page, a
/// truncated file) give a transparent placeholder of that size instead.
pub fn decode_and_resize(bytes: Vec<u8>, size: (u32, u32)) -> (img: DynamicImage)
    requires
        pixels_fit(size.0, size.1),
    ensures
        is_avatar_from_bytes(bytes@, size, img),
        image_size(img) == size,
{
    match decode_image(bytes.as_slice()) {
        Some(decoded) => resize_exact(&decoded, size.0, size.1),
        None => blank_image(size.0, size.1),
    }
}

/// The avatar held by a cache file whose read gave `cached`, at `size`:
/// the decoded image when the file was read and decodes, resampled when it
/// has another size; nothing when there is no file, it is no image, or it
/// would have to be resampled to a size that does not fit in memory.
pub fn cached_avatar(cached: Option<Vec<u8>>, size: (u32, u32)) -> (img: Option<DynamicImage>)
    ensures
        match cached {
            None => img is None,
            Some(bytes) => match decoded_image(bytes@) {
                None => img is None,
                Some(stored) => if image_size(stored) == size || pixels_fit(size.0, size.1) {
                    img matches Some(i) && is_fitted(stored, size, i)
                } else {
                    img is None
                },
            },
        },
        img matches Some(i) ==> image_size(i) == size,
{
    match cached {
        None => None,
        Some(bytes) => match decode_image(bytes.as_slice()) {
            None => None,
            Some(decoded) => {
                let stored = image_dimensions(&decoded);
                if stored.0 == size.0 && stored.1 == size.1 {
                    Some(decoded)
                } else if fits_in_memory(size.0, size.1) {
                    Some(resize_exact(&decoded, size.0, size.1))
                } else {
                    None
                }
            },
        },
    }
}

/// Turns downloaded avatar bytes into the avatar of `size` and the PNG bytes
/// to store in the disk cache, if the resized image encodes.
pub fn prepare_downloaded_avatar(downloaded: Vec<u8>, size: (u32, u32)) -> (prepared: (
    DynamicImage,
    Option<Vec<u8>>,
))
    requires
        pixels_fit(size.0, size.1),
    ensures
        is_avatar_from_bytes(downloaded@, size, prepared.0),
        image_size(prepared.0) == size,
        prepared.1 is Some <==> png_encoding(prepared.0) is Some,
        prepared.1 matches Some(png) ==> png_encoding(prepared.0) == Some(png@),
{
    let resized = decode_and_resize(downloaded, size);
    let png = encode_png(&resized);
    (resized, png)
}

} // verus!
