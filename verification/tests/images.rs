use multicliprelay::codec::{bytes_to_dibv5, dib_to_png, pixels_to_dibv5, to_png, ConvertError};
use multicliprelay::image_mode::ImageMode;
use multicliprelay::images::{
    detect_image_mime, image_ext_from_mime, image_message, image_mime_of, image_mimes,
    known_image_mime, preview_paths, prepare_image, SendImageError,
};
use multicliprelay::message::Kind;
use multicliprelay::win_image::{dib_to_rgba, rgba_to_dibv5, DibError, RgbaError};

fn png(w: u32, h: u32) -> Vec<u8> {
    let img = image::RgbaImage::from_fn(w, h, |x, y| image::Rgba([x as u8, y as u8, 7, 200]));
    let mut out = std::io::Cursor::new(Vec::new());
    image::DynamicImage::ImageRgba8(img)
        .write_to(&mut out, image::ImageFormat::Png)
        .expect("png");
    out.into_inner()
}

fn pixels(b: &[u8]) -> (u32, u32, Vec<u8>) {
    let i = image::load_from_memory(b).expect("image").to_rgba8();
    (i.width(), i.height(), i.into_raw())
}

/// A bitmap with a header of 40 bytes.
fn dib(width: i32, height: i32, planes: u16, bits: u16, compression: u32, rest: &[u8]) -> Vec<u8> {
    let mut b = Vec::new();
    b.extend_from_slice(&40u32.to_le_bytes());
    b.extend_from_slice(&width.to_le_bytes());
    b.extend_from_slice(&height.to_le_bytes());
    b.extend_from_slice(&planes.to_le_bytes());
    b.extend_from_slice(&bits.to_le_bytes());
    b.extend_from_slice(&compression.to_le_bytes());
    b.extend_from_slice(&[0u8; 20]);
    b.extend_from_slice(rest);
    b
}

#[test]
fn bitmaps_of_24_bits_are_read_from_below() {
    // two rows of one pixel, padded to four bytes
    let b = dib(1, 2, 1, 24, 0, &[1, 2, 3, 0, 4, 5, 6, 0]);
    assert_eq!(dib_to_rgba(&b), Ok((1, 2, vec![6, 5, 4, 255, 3, 2, 1, 255])));
    let t = dib(1, -2, 1, 24, 0, &[1, 2, 3, 0, 4, 5, 6, 0]);
    assert_eq!(dib_to_rgba(&t), Ok((1, 2, vec![3, 2, 1, 255, 6, 5, 4, 255])));
}

#[test]
fn bitmaps_that_cannot_be_read_are_refused() {
    assert_eq!(dib_to_rgba(&[0; 39]), Err(DibError::TooSmall));
    let mut small = dib(1, 1, 1, 32, 0, &[0; 4]);
    small[0] = 12;
    assert_eq!(dib_to_rgba(&small), Err(DibError::HeaderSize(12)));
    assert_eq!(dib_to_rgba(&dib(0, 1, 1, 32, 0, &[0; 4])), Err(DibError::Dimensions));
    assert_eq!(dib_to_rgba(&dib(1, 1, 2, 32, 0, &[0; 4])), Err(DibError::Planes(2)));
    assert_eq!(dib_to_rgba(&dib(1, 1, 1, 32, 1, &[0; 4])), Err(DibError::Compression(1)));
    assert_eq!(dib_to_rgba(&dib(1, 1, 1, 8, 0, &[0; 4])), Err(DibError::BitCount(8)));
    assert_eq!(dib_to_rgba(&dib(1, 1, 1, 32, 0, &[0; 3])), Err(DibError::Pixels));
}

#[test]
fn what_is_written_as_a_bitmap_is_read_back() {
    let rgba: Vec<u8> = (0u8..24).collect();
    let b = rgba_to_dibv5(3, 2, &rgba).expect("dib");
    assert_eq!(b.len(), 124 + 24);
    assert_eq!(&b[..4], &124u32.to_le_bytes());
    assert_eq!(dib_to_rgba(&b), Ok((3, 2, rgba)));
    assert_eq!(rgba_to_dibv5(3, 2, &[0; 23]), Err(RgbaError::Length));
}

#[test]
fn images_become_bitmaps_and_back() {
    let p = png(3, 2);
    let b = bytes_to_dibv5(&p).expect("dib");
    let (w, h, rgba) = dib_to_rgba(&b).expect("rgba");
    assert_eq!((w, h, rgba), pixels(&p));
    let back = dib_to_png(&b).expect("png");
    assert_eq!(pixels(&back), pixels(&p));
    assert!(matches!(bytes_to_dibv5(b"nope"), Err(ConvertError::Decode)));
    assert!(matches!(dib_to_png(b"nope"), Err(ConvertError::Dib(DibError::TooSmall))));
    assert!(matches!(pixels_to_dibv5(Some((2, 2, vec![0; 3]))), Err(ConvertError::Length)));
    assert!(matches!(pixels_to_dibv5(None), Err(ConvertError::Decode)));
}

/// A GIF with a screen and one frame, all of one colour.
fn gif(width: u8, height: u8, frame_width: u8, frame_height: u8) -> Vec<u8> {
    let mut b = b"GIF89a".to_vec();
    b.extend([width, 0, height, 0, 0x80, 0, 0, 0, 0, 0, 255, 255, 255]);
    b.extend([0x2c, 0, 0, 0, 0, frame_width, 0, frame_height, 0, 0]);
    b.extend([2, 2, 0x44, 1, 0, 0x3b]);
    b
}

#[test]
fn other_formats_become_png() {
    let img = image::RgbImage::from_pixel(4, 4, image::Rgb([10, 20, 30]));
    let mut out = std::io::Cursor::new(Vec::new());
    image::DynamicImage::ImageRgb8(img)
        .write_to(&mut out, image::ImageFormat::Jpeg)
        .expect("jpeg");
    let p = to_png(&out.into_inner()).expect("png");
    assert_eq!(&p[..8], b"\x89PNG\r\n\x1a\n");
    assert_eq!(pixels(&p).0, 4);
    assert!(matches!(to_png(b"nope"), Err(ConvertError::Decode)));
    assert!(matches!(to_png(&gif(0, 0, 1, 1)), Err(ConvertError::Encode)));
    assert!(matches!(to_png(&gif(0, 1, 0, 1)), Err(_)));
    assert!(matches!(to_png(&gif(1, 0, 1, 0)), Err(_)));
    assert!(matches!(to_png(&gif(0, 0, 0, 0)), Err(_)));
    assert!(to_png(&gif(1, 1, 1, 1)).is_ok());
    assert!(bytes_to_dibv5(&gif(0, 0, 1, 1)).is_ok());
}

#[test]
fn image_types_are_known() {
    assert_eq!(image_mimes(), ["image/png", "image/jpeg", "image/webp", "image/gif"]);
    assert!(known_image_mime("image/webp"));
    assert!(!known_image_mime("image/bmp"));
    assert_eq!(image_ext_from_mime("image/jpg"), Some("jpg"));
    assert_eq!(image_ext_from_mime("image/bmp"), None);
    assert_eq!(detect_image_mime(&png(1, 1), b"x").as_deref(), Some("image/png"));
    assert_eq!(detect_image_mime(b"text", b"/x/a.JPEG").as_deref(), Some("image/jpeg"));
    assert_eq!(detect_image_mime(b"text", b"/x/a.txt"), None);
    assert_eq!(image_mime_of(Some("image/gif"), b"/x/a.png").as_deref(), Some("image/gif"));
}

#[test]
fn images_are_sent_as_the_mode_says() {
    let p = png(2, 2);
    let n = p.len();
    let (mime, bytes) = prepare_image(p.clone(), b"a.png", n, ImageMode::Passthrough).expect("image");
    assert_eq!(mime, "image/png");
    assert_eq!(bytes, p);
    let (mime, _) = prepare_image(p.clone(), b"a.png", n, ImageMode::ForcePng).expect("image");
    assert_eq!(mime, "image/png");
    assert!(matches!(
        prepare_image(p, b"a.png", n - 1, ImageMode::Passthrough),
        Err(SendImageError::TooLarge)
    ));
    assert!(matches!(
        prepare_image(b"x".to_vec(), b"a.txt", 9, ImageMode::Passthrough),
        Err(SendImageError::UnknownType)
    ));
    assert!(matches!(
        prepare_image(b"x".to_vec(), b"a.png", 9, ImageMode::ForcePng),
        Err(SendImageError::Png)
    ));
    assert!(matches!(
        prepare_image(b"BM\0\0".to_vec(), b"a.bmp", 9, ImageMode::Passthrough),
        Err(SendImageError::Unsupported(m)) if m == "image/bmp"
    ));
    let m = image_message("d", "me", "r", "image/png", vec![1]);
    assert_eq!(m.kind, Kind::Image);
    assert_eq!(m.sha256.as_ref().map(|s| s.len()), Some(64));
}

#[test]
fn previews_are_stored_by_digest() {
    let (dir, file) = preview_paths(b"/r", "0123456789", "image/jpeg");
    assert_eq!(dir, b"/r/01234567");
    assert_eq!(file, b"/r/01234567/image.jpg");
    assert_eq!(preview_paths(b"/r", "abc", "x/y").1, b"/r/abc/image.bin");
}
