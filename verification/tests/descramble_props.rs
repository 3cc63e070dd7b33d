use jmcore::descramble::{
    descramble_image_bytes, descramble_rows, mime_from_format, scramble_rows, sniff_format,
    ImgFormat,
};
use std::io::Cursor;
use std::sync::atomic::{AtomicBool, Ordering};

fn test_pixels(w: u32, h: u32) -> Vec<u8> {
    let mut buf = Vec::with_capacity((w * h * 4) as usize);
    for y in 0..h {
        for x in 0..w {
            buf.push((y % 251) as u8);
            buf.push((x % 249) as u8);
            buf.push(((x + y) % 253) as u8);
            buf.push(255);
        }
    }
    buf
}

#[test]
fn identity_below_two_bands() {
    let bytes = vec![1u8, 2, 3, 4, 5];
    let (out, fmt) = descramble_image_bytes(&bytes, 1).unwrap();
    assert_eq!(out, bytes);
    assert_eq!(fmt, ImgFormat::Jpeg);
    let (out0, _) = descramble_image_bytes(&bytes, 0).unwrap();
    assert_eq!(out0, bytes);
    let (outn, _) = descramble_image_bytes(&bytes, -3).unwrap();
    assert_eq!(outn, bytes);
}

#[test]
fn band_reversal_round_trips_pixels() {
    for (w, h, n) in [(3u32, 10u32, 4u32), (2, 7, 3), (1, 64, 8), (5, 9, 9), (4, 6, 2)] {
        let orig = test_pixels(w, h);
        let scrambled = scramble_rows(&orig, w, h, n);
        let back = descramble_rows(&scrambled, w, h, n, None).unwrap();
        assert_eq!(back, orig, "round trip failed for w={w} h={h} n={n}");
        if n > 1 && h > n {
            assert_ne!(scrambled, orig, "shuffle was a no-op for w={w} h={h} n={n}");
        }
    }
}

#[test]
fn descramble_moves_last_band_to_top() {
    // 1x4 image, 2 bands: rows 0..2 and 2..4; output is rows 2,3,0,1.
    let orig: Vec<u8> = vec![
        0, 0, 0, 0, 1, 1, 1, 1, 2, 2, 2, 2, 3, 3, 3, 3,
    ];
    let out = descramble_rows(&orig, 1, 4, 2, None).unwrap();
    let expect: Vec<u8> = vec![
        2, 2, 2, 2, 3, 3, 3, 3, 0, 0, 0, 0, 1, 1, 1, 1,
    ];
    assert_eq!(out, expect);
}

#[test]
fn full_image_round_trip_through_png() {
    let w = 5u32;
    let h = 13u32;
    let n = 4u32;
    let orig = test_pixels(w, h);
    // Scramble the pixel rows the way the provider would, then encode.
    let scrambled = scramble_rows(&orig, w, h, n);
    let img = image::RgbaImage::from_raw(w, h, scrambled).unwrap();
    let mut png_bytes: Vec<u8> = Vec::new();
    image::DynamicImage::ImageRgba8(img)
        .write_to(&mut Cursor::new(&mut png_bytes), image::ImageFormat::Png)
        .unwrap();
    // The descrambler must undo the shuffle; PNG input stays lossless.
    let (out_bytes, fmt) = descramble_image_bytes(&png_bytes, n as i64).unwrap();
    assert_eq!(fmt, ImgFormat::Png);
    let decoded = image::load_from_memory(&out_bytes).unwrap().to_rgba8();
    assert_eq!(decoded.dimensions(), (w, h));
    assert_eq!(decoded.into_raw(), orig);
}

#[test]
fn cancellation_mid_descramble_aborts() {
    let w = 2u32;
    let h = 200u32;
    let n = 4u32;
    let src = test_pixels(w, h);
    let flag = AtomicBool::new(true);
    let r = descramble_rows(&src, w, h, n, Some(&flag));
    assert!(matches!(r, Err(jmcore::CoreError::Cancelled)));
    flag.store(false, Ordering::Relaxed);
    assert!(descramble_rows(&src, w, h, n, Some(&flag)).is_ok());
}

#[test]
fn format_sniffing() {
    let png = [0x89u8, 0x50, 0x4e, 0x47, 0x0d, 0x0a, 0x1a, 0x0a, 0, 0, 0, 0];
    assert_eq!(sniff_format(&png), ImgFormat::Png);
    let jpeg = [0xffu8, 0xd8, 0xff, 0xe0];
    assert_eq!(sniff_format(&jpeg), ImgFormat::Jpeg);
    let webp = [
        0x52u8, 0x49, 0x46, 0x46, 0, 0, 0, 0, 0x57, 0x45, 0x42, 0x50,
    ];
    assert_eq!(sniff_format(&webp), ImgFormat::WebP);
    assert_eq!(sniff_format(&[0u8, 1, 2]), ImgFormat::Other);
}

#[test]
fn mime_names() {
    assert_eq!(mime_from_format(ImgFormat::Jpeg), "image/jpeg");
    assert_eq!(mime_from_format(ImgFormat::Png), "image/png");
    assert_eq!(mime_from_format(ImgFormat::WebP), "image/webp");
    assert_eq!(mime_from_format(ImgFormat::Other), "application/octet-stream");
}
