use detect_backend::preprocess::{channel_planes, prepare_input};
use detect_backend::error::ServiceError;

#[test]
fn planes_are_channel_first() {
    // a 2x2 image
    let rgba: Vec<u8> = (0u8..16).collect();
    let planes = channel_planes(&rgba, 2);
    assert_eq!(planes, vec![0, 4, 8, 12, 1, 5, 9, 13, 2, 6, 10, 14]);
}

#[test]
fn corrupt_image_is_a_decode_error() {
    assert_eq!(prepare_input(&vec![1, 2, 3, 4]).err(), Some(ServiceError::ImageDecode));
}

fn png_bytes(img: image::RgbaImage) -> Vec<u8> {
    let mut bytes: Vec<u8> = Vec::new();
    image::DynamicImage::ImageRgba8(img)
        .write_to(&mut std::io::Cursor::new(&mut bytes), image::ImageFormat::Png)
        .unwrap();
    bytes
}

#[test]
fn alpha_does_not_change_the_input() {
    let make = |alpha: u8| {
        image::RgbaImage::from_fn(4, 3, |x, y| image::Rgba([(x * 60) as u8, (y * 80) as u8, 200, alpha]))
    };
    let opaque = prepare_input(&png_bytes(make(255))).unwrap();
    let faint = prepare_input(&png_bytes(make(7))).unwrap();
    assert_eq!(opaque, faint);
}

#[test]
fn decoded_image_keeps_original_size() {
    let img = image::RgbaImage::from_pixel(3, 2, image::Rgba([255, 0, 0, 255]));
    let bytes = png_bytes(img);
    let (planes, w, h) = prepare_input(&bytes).unwrap();
    assert_eq!((w, h), (3, 2));
    assert_eq!(planes.len(), 3 * 640 * 640);
    assert_eq!(planes[0], 255);
    assert_eq!(planes[640 * 640], 0);
    assert_eq!(planes[2 * 640 * 640], 0);
}
