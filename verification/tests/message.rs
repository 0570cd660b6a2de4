use oicq4r::message::element::{BFaceElement, FaceElement, ImageElement, TextElement, TryToFaceType};
use oicq4r::message::image::{parse_filename_from_params, parse_params_from_filename, ImageError, ToExtension};

#[test]
fn face_names() {
    assert_eq!(0u16.try_to_face_type(), Some("惊讶"));
    assert_eq!(1u16.try_to_face_type(), Some("撇嘴"));
    assert_eq!(60000u16.try_to_face_type(), None);
}

#[test]
fn text_and_face_elements() {
    let t = TextElement::new("hello".to_string());
    assert_eq!(t.text(), "hello");
    let f = FaceElement::new(5, None);
    assert_eq!(f.id(), 5);
    assert!(f.text().is_none());
}

#[test]
fn dice_and_rps_values_are_in_range() {
    for _ in 0..20 {
        let d = BFaceElement::dice();
        let m = d.magic().unwrap();
        assert_eq!(&m[..16], b"rscType?1;value=");
        assert!((0x30..0x36).contains(&m[16]));
        assert_eq!(d.text().unwrap(), "骰子");
        let r = BFaceElement::rps();
        let m = r.magic().unwrap();
        assert!((0x30..0x33).contains(&m[16]));
        assert_eq!(r.text().unwrap(), "猜拳");
    }
}

#[test]
fn image_file_names() {
    let md5 = [0xabu8; 16];
    assert_eq!(
        parse_filename_from_params(md5, Some(10), Some(20), None, Some(1000)),
        format!("{}10-20-0.jpg", "ab".repeat(16))
    );
    assert_eq!(3u32.to_extension(), "png");
    assert_eq!(2000u32.to_extension(), "gif");
    assert_eq!(12345u32.to_extension(), "jpg");
}

#[test]
fn image_element_reads_the_png_header() {
    // A 1x1 PNG.
    let png: Vec<u8> = vec![
        0x89, 0x50, 0x4e, 0x47, 0x0d, 0x0a, 0x1a, 0x0a, 0x00, 0x00, 0x00, 0x0d, 0x49, 0x48, 0x44, 0x52, 0x00, 0x00,
        0x00, 0x01, 0x00, 0x00, 0x00, 0x01, 0x08, 0x06, 0x00, 0x00, 0x00, 0x1f, 0x15, 0xc4, 0x89, 0x00, 0x00, 0x00,
        0x0d, 0x49, 0x44, 0x41, 0x54, 0x78, 0x9c, 0x63, 0x00, 0x01, 0x00, 0x00, 0x05, 0x00, 0x01, 0x0d, 0x0a, 0x2d,
        0xb4, 0x00, 0x00, 0x00, 0x00, 0x49, 0x45, 0x4e, 0x44, 0xae, 0x42, 0x60, 0x82,
    ];
    let e = ImageElement::new(png.clone(), None, None, None, None).unwrap();
    assert_eq!(e.width(), 1);
    assert_eq!(e.height(), 1);
    assert_eq!(e.size(), png.len() as u64);
    assert_eq!(e.md5(), md5::compute(&png).0);
    assert!(matches!(ImageElement::new(vec![1, 2, 3], None, None, None, None), Err(ImageError::UnreadableImage)));

    let address = format!("base64://{}", base64::encode(&png));
    let e = ImageElement::from_base64(&address, Some(true), None, None).unwrap();
    assert_eq!(e.data(), png.as_slice());
    assert_eq!(e.format(), 1001);
    assert!(e.is_cache());
    assert!(matches!(ImageElement::from_base64("base64://%%%", None, None, None), Err(ImageError::InvalidBase64)));
    assert_eq!(ImageError::InvalidFilename.describe(), "invalid filename for image.");
}

#[test]
fn filename_reads_back() {
    let md5 = [0xabu8; 16];
    let name = parse_filename_from_params(md5, Some(1234), Some(56), Some(78), Some(1001));
    let (digest, size, width, height, extension) = parse_params_from_filename(&name).unwrap();
    assert_eq!(digest, "abababababababababababababababab");
    assert_eq!(size, 1234);
    assert_eq!(width, 56);
    assert_eq!(height, 78);
    assert_eq!(extension, "png");
}

#[test]
fn filename_pieces_and_signs() {
    let (digest, size, width, height, extension) =
        parse_params_from_filename("0123456789abcdef0123456789abcdef+5-+7-9").unwrap();
    assert_eq!(digest, "0123456789abcdef0123456789abcdef");
    assert_eq!((size, width, height), (5, 7, 9));
    assert_eq!(extension, "0123456789abcdef0123456789abcdef+5-+7-9");

    let (_, size, width, height, extension) =
        parse_params_from_filename("0123456789abcdef0123456789abcdefx-99999999999-1.jpg").unwrap();
    assert_eq!((size, width, height), (0, 0, 1));
    assert_eq!(extension, "jpg");

    let (_, size, _, _, _) = parse_params_from_filename("0123456789abcdef0123456789abcdef18446744073709551616").unwrap();
    assert_eq!(size, 0);
    let (_, size, _, _, _) = parse_params_from_filename("0123456789abcdef0123456789abcdef18446744073709551615").unwrap();
    assert_eq!(size, u64::MAX);
}
