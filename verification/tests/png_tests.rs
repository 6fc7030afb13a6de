use std::io::Cursor;
use fingering_chart::bitmap::{Bitmap, Pixel};

fn encode_png(width: u32, height: u32, rgba: Vec<u8>) -> Vec<u8> {
    let buf = image::RgbaImage::from_raw(width, height, rgba).expect("raw buffer fits");
    let mut out = Cursor::new(Vec::new());
    buf.write_to(&mut out, image::ImageFormat::Png).expect("png encoding succeeds");
    out.into_inner()
}

#[test]
fn decoded_png_yields_the_encoded_pixels() {
    // A 2 by 1 image: one red pixel, one half-transparent green one.
    let bytes = encode_png(2, 1, vec![255, 0, 0, 255, 0, 200, 0, 128]);
    let bm = Bitmap::from_png(&bytes).expect("valid png decodes");
    assert_eq!(bm.width(), 2);
    assert_eq!(bm.height(), 1);
    assert_eq!(bm.get(0, 0), Pixel { r: 255, g: 0, b: 0, a: 255 });
    assert_eq!(bm.get(1, 0), Pixel { r: 0, g: 200, b: 0, a: 128 });
}

#[test]
fn decoded_png_row_order_is_top_down() {
    let bytes = encode_png(
        1,
        3,
        vec![1, 2, 3, 255, 4, 5, 6, 255, 7, 8, 9, 255],
    );
    let bm = Bitmap::from_png(&bytes).expect("valid png decodes");
    assert_eq!(bm.width(), 1);
    assert_eq!(bm.height(), 3);
    assert_eq!(bm.get(0, 0), Pixel { r: 1, g: 2, b: 3, a: 255 });
    assert_eq!(bm.get(0, 1), Pixel { r: 4, g: 5, b: 6, a: 255 });
    assert_eq!(bm.get(0, 2), Pixel { r: 7, g: 8, b: 9, a: 255 });
}

#[test]
fn invalid_data_does_not_decode() {
    let garbage = vec![1u8, 2, 3, 4, 5];
    assert!(Bitmap::from_png(&garbage).is_none());
    let empty: Vec<u8> = Vec::new();
    assert!(Bitmap::from_png(&empty).is_none());
}
