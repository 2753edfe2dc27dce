use paldex::data::texture::{
    decode_rgba, encode_png, icon_png, mip0_bytes, parse, PixelFormat, TextureError, BULKDATA_FORCE_INLINE_PAYLOAD,
    BULKDATA_PAYLOAD_IN_SEPARATE_FILE,
};

/// The tail of a cooked texture: the 12 header bytes, the format name, and
/// one mip.
fn synthetic_texture_with(format: &str, w: i32, h: i32, flags: u32, payload: &[u8]) -> Vec<u8> {
    let mut b = vec![0xAAu8; 32];
    b.extend_from_slice(&w.to_le_bytes());
    b.extend_from_slice(&h.to_le_bytes());
    b.extend_from_slice(&1u32.to_le_bytes()); // PackedData
    b.extend_from_slice(&(format.len() as i32 + 1).to_le_bytes());
    b.extend_from_slice(format.as_bytes());
    b.push(0);
    b.extend_from_slice(&0i32.to_le_bytes()); // FirstMipToSerialize
    b.extend_from_slice(&1i32.to_le_bytes()); // NumMips
    b.extend_from_slice(&flags.to_le_bytes());
    b.extend_from_slice(&(payload.len() as i32).to_le_bytes());
    b.extend_from_slice(&(payload.len() as i32).to_le_bytes());
    b.extend_from_slice(&0i64.to_le_bytes());
    b.extend_from_slice(payload);
    b
}

fn synthetic_texture(format: &str, w: i32, h: i32, payload: &[u8]) -> Vec<u8> {
    synthetic_texture_with(format, w, h, BULKDATA_FORCE_INLINE_PAYLOAD, payload)
}

#[test]
fn locates_an_inline_mip() {
    let payload = vec![0u8; 16];
    let bytes = synthetic_texture("PF_DXT5", 4, 4, &payload);
    let info = parse(&bytes).expect("parse");
    assert_eq!(info.format, PixelFormat::Dxt5);
    assert_eq!((info.width, info.height), (4, 4));
    assert!(!info.mip0.in_bulk);
    assert_eq!(mip0_bytes(&info, &bytes, None).expect("mip"), &payload[..]);
}

#[test]
fn rejects_unsupported_formats() {
    let bytes = synthetic_texture("PF_ASTC_4x4", 4, 4, &[0; 16]);
    assert!(matches!(parse(&bytes), Err(TextureError::UnsupportedFormat(_))));
}

#[test]
fn rejects_input_without_platform_data() {
    assert!(matches!(parse(&[0u8; 64]), Err(TextureError::NoPlatformData)));
}

#[test]
fn decodes_a_flat_dxt1_block() {
    let mut block = Vec::new();
    block.extend_from_slice(&0xFFFFu16.to_le_bytes());
    block.extend_from_slice(&0xFFFFu16.to_le_bytes());
    block.extend_from_slice(&0u32.to_le_bytes());
    let bytes = synthetic_texture("PF_DXT1", 4, 4, &block);
    let info = parse(&bytes).expect("parse");
    let rgba = decode_rgba(&info, mip0_bytes(&info, &bytes, None).expect("mip")).expect("decode");
    assert_eq!(rgba.len(), 4 * 4 * 4);
    assert!(rgba.chunks_exact(4).all(|p| p == [255, 255, 255, 255]));
}

#[test]
fn decodes_dxt5_alpha() {
    let mut block = vec![0u8; 16];
    block[0] = 255;
    block[1] = 0;
    block[8..10].copy_from_slice(&0xFFFFu16.to_le_bytes());
    block[10..12].copy_from_slice(&0xFFFFu16.to_le_bytes());
    let bytes = synthetic_texture("PF_DXT5", 4, 4, &block);
    let info = parse(&bytes).expect("parse");
    let rgba = decode_rgba(&info, mip0_bytes(&info, &bytes, None).expect("mip")).expect("decode");
    assert!(rgba.chunks_exact(4).all(|p| p[3] == 255), "alpha should be opaque");

    block[0] = 0;
    block[1] = 0;
    let bytes = synthetic_texture("PF_DXT5", 4, 4, &block);
    let info = parse(&bytes).expect("parse");
    let rgba = decode_rgba(&info, mip0_bytes(&info, &bytes, None).expect("mip")).expect("decode");
    assert!(rgba.chunks_exact(4).all(|p| p[3] == 0), "alpha should be transparent");
}

#[test]
fn texture_truncation_never_panics() {
    let full = synthetic_texture("PF_DXT5", 8, 8, &[0x5A; 64]);
    for n in 0..full.len() {
        let _ = parse(&full[..n]);
    }
}

#[test]
fn rejects_implausible_dimensions() {
    let bytes = synthetic_texture("PF_DXT1", 0, 4, &[0; 8]);
    assert!(matches!(parse(&bytes), Err(TextureError::BadDimensions { width: 0, height: 4 })));
    let bytes = synthetic_texture("PF_DXT1", 4, 16385, &[0; 8]);
    assert!(matches!(parse(&bytes), Err(TextureError::BadDimensions { width: 4, height: 16385 })));
}

#[test]
fn a_bulk_mip_is_read_from_the_ubulk() {
    let bytes = synthetic_texture_with("PF_DXT1", 4, 4, BULKDATA_PAYLOAD_IN_SEPARATE_FILE, &[0; 8]);
    let info = parse(&bytes).expect("parse");
    assert!(info.mip0_in_bulk());
    assert!(matches!(
        mip0_bytes(&info, &bytes, None),
        Err(TextureError::MipOutOfRange { source_name: "ubulk", offset: 0, needed: 8 })
    ));
    let ubulk = [7u8; 12];
    assert_eq!(mip0_bytes(&info, &bytes, Some(&ubulk)).expect("bulk"), &[7u8; 8][..]);
}

#[test]
fn swizzles_bgra_to_rgba() {
    let pixels = [1u8, 2, 3, 4, 5, 6, 7, 8];
    let bytes = synthetic_texture("PF_B8G8R8A8", 2, 1, &pixels);
    let info = parse(&bytes).expect("parse");
    let rgba = decode_rgba(&info, mip0_bytes(&info, &bytes, None).expect("mip")).expect("decode");
    assert_eq!(rgba, vec![3, 2, 1, 4, 7, 6, 5, 8]);
}

#[test]
fn a_missing_block_stays_transparent() {
    let bytes = synthetic_texture("PF_DXT1", 8, 4, &[0xFF; 8]);
    let info = parse(&bytes).expect("parse");
    let rgba = decode_rgba(&info, mip0_bytes(&info, &bytes, None).expect("mip")).expect("decode");
    // The second 4x4 block's bytes are missing.
    assert_eq!(&rgba[4 * 4..4 * 5], &[0, 0, 0, 0]);
}

#[test]
fn three_colour_mode_makes_index_three_transparent() {
    let mut block = Vec::new();
    block.extend_from_slice(&0x0000u16.to_le_bytes()); // c0 = black
    block.extend_from_slice(&0xFFFFu16.to_le_bytes()); // c1 = white, c0 <= c1
    block.extend_from_slice(&0xFFFF_FFFFu32.to_le_bytes()); // every index 3
    let bytes = synthetic_texture("PF_DXT1", 4, 4, &block);
    let info = parse(&bytes).expect("parse");
    let rgba = decode_rgba(&info, mip0_bytes(&info, &bytes, None).expect("mip")).expect("decode");
    assert!(rgba.chunks_exact(4).all(|p| p == [0, 0, 0, 0]));
}

#[test]
fn encodes_a_png_with_its_signature() {
    let png = encode_png(1, 1, &[255, 0, 0, 255]).expect("png");
    assert_eq!(&png[..8], &[0x89, b'P', b'N', b'G', 0x0D, 0x0A, 0x1A, 0x0A]);
}

#[test]
fn a_short_pixel_buffer_fails_to_encode() {
    assert!(matches!(encode_png(2, 2, &[0; 4]), Err(TextureError::Encode(_))));
}

#[test]
fn a_texture_reads_as_its_top_mip() {
    let payload = vec![0u8; 16];
    let bytes = synthetic_texture("PF_DXT5", 4, 4, &payload);
    let info = parse(&bytes).expect("parse");
    assert_eq!((info.offset, info.len, info.in_bulk), (info.mip0.offset, info.mip0.len, info.mip0.in_bulk));
    assert_eq!(info.len, 16);
    assert!(!info.mip0_in_bulk());
}

#[test]
fn an_icon_becomes_the_png_of_its_decoded_pixels() {
    let pixels = [1u8, 2, 3, 4, 5, 6, 7, 8];
    let bytes = synthetic_texture("PF_B8G8R8A8", 2, 1, &pixels);
    let png = icon_png(&bytes, None).expect("icon");
    assert_eq!(png, encode_png(2, 1, &[3, 2, 1, 4, 7, 6, 5, 8]).expect("png"));
}

#[test]
fn an_icon_reads_its_bulk_mip_from_the_ubulk() {
    let bytes = synthetic_texture_with("PF_B8G8R8A8", 1, 1, BULKDATA_PAYLOAD_IN_SEPARATE_FILE, &[0; 4]);
    assert!(matches!(
        icon_png(&bytes, None),
        Err(TextureError::MipOutOfRange { source_name: "ubulk", offset: 0, needed: 4 })
    ));
    let png = icon_png(&bytes, Some(&[10, 20, 30, 40])).expect("icon");
    assert_eq!(png, encode_png(1, 1, &[30, 20, 10, 40]).expect("png"));
}

#[test]
fn an_icon_that_is_no_texture_is_refused() {
    assert!(matches!(icon_png(&[0u8; 40], None), Err(TextureError::NoPlatformData)));
    let bytes = synthetic_texture("PF_BC7", 4, 4, &[0; 16]);
    assert!(matches!(icon_png(&bytes, None), Err(TextureError::UnsupportedFormat(_))));
}
