use velo::images::{decode_image, encode_image};

#[test]
fn images_are_saved_as_standard_base64() {
    assert_eq!(encode_image(&b"hello world~".to_vec()), "aGVsbG8gd29ybGR+");
    assert_eq!(encode_image(&vec![255, 254]), "//4=");
    assert_eq!(encode_image(&vec![251]), "+w==");
    assert_eq!(encode_image(&vec![]), "");
}

#[test]
fn saved_images_read_back_unchanged() {
    let png: Vec<u8> = (0..=255u8).chain([0x89, b'P', b'N', b'G']).collect();
    assert_eq!(decode_image(&encode_image(&png)), Some(png));
}

#[test]
fn malformed_image_text_is_refused() {
    assert_eq!(decode_image("aGVsbG8gd29ybGR+Cg=="), Some(b"hello world~\n".to_vec()));
    assert_eq!(decode_image("not base64!"), None);
    assert_eq!(decode_image("+w"), None);
    assert_eq!(decode_image("+x=="), None);
}
