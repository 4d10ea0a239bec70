use miband_totp::qr::{
    crop_and_pad_image, crop_fits_exec, decode_qr_attempts, decode_qr_from_luma, decode_qr_image, join_qr_texts,
    threshold_image, LumaImage, QrError,
};

fn png_bytes(width: u32, height: u32, dark: &[(u32, u32)]) -> Vec<u8> {
    let mut img = image::GrayImage::from_pixel(width, height, image::Luma([255u8]));
    for &(x, y) in dark {
        img.put_pixel(x, y, image::Luma([0u8]));
    }
    let mut out = std::io::Cursor::new(Vec::new());
    img.write_to(&mut out, image::ImageFormat::Png).unwrap();
    out.into_inner()
}

fn luma(width: u32, height: u32, pixels: Vec<u8>) -> LumaImage {
    LumaImage { width, height, pixels }
}

#[test]
fn unreadable_files() {
    match decode_qr_image(b"definitely not an image") {
        Err(QrError::ImageLoad(msg)) => assert!(!msg.is_empty()),
        other => panic!("unexpected result: {:?}", other),
    }
    assert!(matches!(decode_qr_image(&[]), Err(QrError::ImageLoad(_))));
}

#[test]
fn images_without_a_code() {
    assert!(matches!(decode_qr_image(&png_bytes(40, 30, &[])), Err(QrError::NotFound)));
    assert!(matches!(decode_qr_image(&png_bytes(40, 30, &[(3, 4), (20, 10)])), Err(QrError::NotFound)));
    assert!(matches!(decode_qr_from_luma(&luma(2, 2, vec![255; 4])), Err(QrError::NotFound)));
}

#[test]
fn qr_error_messages() {
    assert_eq!(QrError::ImageLoad("bad".to_string()).message(), "图片读取失败: bad");
    assert_eq!(QrError::NotFound.message(), "未识别到二维码内容");
    assert_eq!(QrError::TooLarge.message(), "图片尺寸过大");
}

#[test]
fn thresholding_is_binary() {
    let img = luma(3, 1, vec![10, 127, 200]);
    let t = threshold_image(&img, 128);
    assert_eq!((t.width, t.height), (3, 1));
    assert_eq!(t.pixels, vec![0, 0, 255]);
    let t = threshold_image(&img, 11);
    assert_eq!(t.pixels, vec![0, 255, 255]);
}

#[test]
fn cropping_keeps_the_dark_box_framed_in_white() {
    // A 4x3 image with dark pixels at (1,0) and (2,1).
    let img = luma(4, 3, vec![255, 0, 255, 255, 255, 255, 50, 255, 255, 255, 255, 255]);
    assert!(crop_fits_exec(&img, 1));
    let c = crop_and_pad_image(&img, 1);
    assert_eq!((c.width, c.height), (4, 4));
    assert_eq!(
        c.pixels,
        vec![255, 255, 255, 255, 255, 0, 255, 255, 255, 255, 50, 255, 255, 255, 255, 255]
    );
    // Every dark pixel is kept, shifted by the box corner and the frame.
    assert_eq!(c.pixels[(0 - 0 + 1) * 4 + (1 - 1 + 1)], 0);
    assert_eq!(c.pixels[(1 - 0 + 1) * 4 + (2 - 1 + 1)], 50);
}

#[test]
fn cropping_an_image_without_dark_pixels_keeps_it() {
    let img = luma(2, 2, vec![200, 201, 202, 203]);
    let c = crop_and_pad_image(&img, 24);
    assert_eq!((c.width, c.height), (2, 2));
    assert_eq!(c.pixels, vec![200, 201, 202, 203]);
}

#[test]
fn pixels_by_position() {
    let img = luma(3, 2, vec![1, 2, 3, 4, 5, 6]);
    assert_eq!(img.pixel(0, 0), 1);
    assert_eq!(img.pixel(2, 0), 3);
    assert_eq!(img.pixel(1, 1), 5);
}

#[test]
fn decoded_texts_are_trimmed_and_joined() {
    let texts = vec![
        Some("  otpauth://totp/a?secret=K \n".to_string()),
        None,
        Some("   ".to_string()),
        Some("second".to_string()),
    ];
    assert_eq!(join_qr_texts(&texts).unwrap(), "otpauth://totp/a?secret=K\nsecond");
    assert_eq!(join_qr_texts(&vec![Some("only".to_string())]).unwrap(), "only");
    assert!(matches!(join_qr_texts(&vec![None, Some(" ".to_string())]), Err(QrError::NotFound)));
    assert!(matches!(join_qr_texts(&Vec::new()), Err(QrError::NotFound)));
}

#[test]
fn attempts_on_a_blank_image() {
    assert!(matches!(decode_qr_attempts(luma(30, 20, vec![255; 600])), Err(QrError::NotFound)));
    assert!(matches!(decode_qr_attempts(luma(0, 0, Vec::new())), Err(QrError::NotFound)));
}
