use std::io::Cursor;
use totray::tray::{rgba_to_argb, tray_pixmap};

#[test]
fn argb_order() {
    assert_eq!(rgba_to_argb(&[1, 2, 3, 4, 5, 6, 7, 8]), vec![4, 1, 2, 3, 8, 5, 6, 7]);
    assert_eq!(rgba_to_argb(&[1, 2, 3, 4, 9, 9]), vec![4, 1, 2, 3]);
    assert!(rgba_to_argb(&[]).is_empty());
}

#[test]
fn pixmap_from_png() {
    let img = image::RgbaImage::from_raw(2, 1, vec![10, 20, 30, 40, 50, 60, 70, 80]).unwrap();
    let mut png = Cursor::new(Vec::new());
    image::DynamicImage::ImageRgba8(img).write_to(&mut png, image::ImageFormat::Png).unwrap();
    let p = tray_pixmap(png.get_ref()).unwrap();
    assert_eq!(p.width, 2);
    assert_eq!(p.height, 1);
    assert_eq!(p.argb, vec![40, 10, 20, 30, 80, 50, 60, 70]);
}

#[test]
fn pixmap_from_garbage() {
    assert!(tray_pixmap(b"not a picture").is_none());
    assert!(tray_pixmap(&[]).is_none());
}
