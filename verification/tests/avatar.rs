use image::{DynamicImage, ImageFormat};
use quaver_stats::avatar::{
    cache_file_name, cache_key, cached_avatar, decode_and_resize, fits_in_memory,
    prepare_downloaded_avatar,
};
use std::io::Cursor;

fn png_of(width: u32, height: u32) -> Vec<u8> {
    let src = DynamicImage::new_rgba8(width, height);
    let mut buf = Cursor::new(Vec::new());
    src.write_to(&mut buf, ImageFormat::Png).unwrap();
    buf.into_inner()
}

#[test]
fn test_cache_key_is_sha1_hex() {
    let key = cache_key("https://example.com/avatar.png");
    assert_eq!(key.len(), 40);
    assert!(key.chars().all(|c| c.is_ascii_hexdigit()));
}

#[test]
fn test_cache_key_is_deterministic_and_distinct() {
    let a1 = cache_key("https://a.example/x.png");
    let a2 = cache_key("https://a.example/x.png");
    let b = cache_key("https://b.example/y.png");
    assert_eq!(a1, a2);
    assert_ne!(a1, b);
}

#[test]
fn test_cache_key_known_value() {
    assert_eq!(cache_key("abc"), "a9993e364706816aba3e25717850c26c9cd0d89d");
}

#[test]
fn test_cache_key_of_empty_address() {
    assert_eq!(cache_key(""), "da39a3ee5e6b4b0d3255bfef95601890afd80709");
}

#[test]
fn test_cache_file_name_appends_bin() {
    assert_eq!(cache_file_name("abc"), "a9993e364706816aba3e25717850c26c9cd0d89d.bin");
}

#[test]
fn test_decode_and_resize_invalid_bytes_does_not_panic() {
    let html_error_page = b"<html><body>503 Service Unavailable</body></html>".to_vec();
    let result = decode_and_resize(html_error_page, (64, 64));
    assert_eq!((result.width(), result.height()), (64, 64));
}

#[test]
fn test_decode_and_resize_scales_image() {
    let resized = decode_and_resize(png_of(10, 10), (4, 4));
    assert_eq!(resized.width(), 4);
    assert_eq!(resized.height(), 4);
}

#[test]
fn test_cached_avatar_fits_requested_size() {
    let kept = cached_avatar(Some(png_of(7, 5)), (7, 5)).expect("a PNG decodes");
    assert_eq!((kept.width(), kept.height()), (7, 5));
    let resized = cached_avatar(Some(png_of(32, 32)), (64, 64)).expect("a PNG decodes");
    assert_eq!((resized.width(), resized.height()), (64, 64));
    assert!(cached_avatar(None, (64, 64)).is_none());
    assert!(cached_avatar(Some(b"not an image".to_vec()), (64, 64)).is_none());
}

#[test]
fn test_undecodable_bytes_give_transparent_placeholder() {
    let result = decode_and_resize(b"<html>503</html>".to_vec(), (8, 6));
    let rgba = result.to_rgba8();
    assert_eq!(rgba.dimensions(), (8, 6));
    assert!(rgba.pixels().all(|p| p.0 == [0, 0, 0, 0]));
    let (img, _) = prepare_downloaded_avatar(b"<html>503</html>".to_vec(), (8, 6));
    assert!(img.to_rgba8().pixels().all(|p| p.0 == [0, 0, 0, 0]));
}

#[test]
fn test_decoded_image_is_resampled_not_replaced() {
    let src = DynamicImage::ImageRgba8(image::RgbaImage::from_pixel(10, 10, image::Rgba([200, 10, 10, 255])));
    let mut buf = Cursor::new(Vec::new());
    src.write_to(&mut buf, ImageFormat::Png).unwrap();
    let resized = decode_and_resize(buf.into_inner(), (4, 4)).to_rgba8();
    assert!(resized.pixels().all(|p| p.0[3] > 0), "a decoded opaque image stays opaque");
}

#[test]
fn test_prepare_downloaded_avatar_caches_resized_png() {
    let (img, png) = prepare_downloaded_avatar(png_of(200, 200), (64, 64));
    assert_eq!((img.width(), img.height()), (64, 64));
    let png = png.expect("the resized avatar encodes");
    assert_eq!(&png[..8], &[0x89, b'P', b'N', b'G', 0x0D, 0x0A, 0x1A, 0x0A]);
    let reread = image::load_from_memory(&png).unwrap();
    assert_eq!((reread.width(), reread.height()), (64, 64));
}

#[test]
fn test_oversized_request_is_not_resampled() {
    assert!(fits_in_memory(64, 64));
    assert!(!fits_in_memory(u32::MAX, u32::MAX));
    assert!(cached_avatar(Some(png_of(7, 5)), (u32::MAX, u32::MAX)).is_none());
}
