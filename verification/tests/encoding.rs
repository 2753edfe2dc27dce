use paldex::encoding::{sha256_hex, to_hex, to_png_data_url};

#[test]
fn hex_is_two_lowercase_digits_per_byte() {
    assert_eq!(to_hex(&[0x00, 0xab, 0x10, 0xff]), "00ab10ff");
    assert_eq!(to_hex(&[]), "");
}

#[test]
fn sha256_hex_matches_the_published_test_vectors() {
    assert_eq!(sha256_hex(b""), "e3b0c44298fc1c149afbf4c8996fb92427ae41e4649b934ca495991b7852b855");
    assert_eq!(sha256_hex(b"abc"), "ba7816bf8f01cfea414140de5dae2223b00361a396177a9cb410ff61f20015ad");
    assert_ne!(sha256_hex(b"abc"), sha256_hex(b"abd"));
}

#[test]
fn data_urls_carry_padded_standard_base64() {
    assert_eq!(to_png_data_url(b"Man"), "data:image/png;base64,TWFu");
    assert_eq!(to_png_data_url(b"Ma"), "data:image/png;base64,TWE=");
    assert_eq!(to_png_data_url(b"M"), "data:image/png;base64,TQ==");
    assert_eq!(to_png_data_url(b""), "data:image/png;base64,");
    assert_eq!(to_png_data_url(&[0x89, b'P', b'N', b'G', 0xfb, 0xff]), "data:image/png;base64,iVBOR/v/");
}
