use std::io::Cursor;

use node_image::codec::{is_image_content_type, load_image_bytes};
use node_image::image::Rgb;

#[test]
fn png_bytes_decode_to_pixels() {
    let raw = vec![255, 0, 0, 0, 255, 0, 0, 0, 255, 10, 20, 30];
    let img = image::RgbImage::from_raw(2, 2, raw).unwrap();
    let mut bytes: Vec<u8> = Vec::new();
    img.write_to(&mut Cursor::new(&mut bytes), image::ImageOutputFormat::Png).unwrap();
    let decoded = load_image_bytes(&bytes).unwrap();
    assert_eq!(decoded.size, (2, 2));
    assert_eq!(
        decoded.pixels,
        vec![
            Rgb { r: 255, g: 0, b: 0 },
            Rgb { r: 0, g: 255, b: 0 },
            Rgb { r: 0, g: 0, b: 255 },
            Rgb { r: 10, g: 20, b: 30 },
        ]
    );
}

#[test]
fn garbage_bytes_decode_to_nothing() {
    assert!(load_image_bytes(&[1, 2, 3, 4, 5]).is_none());
    assert!(load_image_bytes(&[]).is_none());
}

#[test]
fn content_type_must_start_with_image() {
    assert!(is_image_content_type("image/png"));
    assert!(is_image_content_type("image/"));
    assert!(!is_image_content_type("text/html"));
    assert!(!is_image_content_type("imag"));
    assert!(!is_image_content_type(""));
}
