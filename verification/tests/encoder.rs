use wtx_tools::batch::BatchSummary;
use wtx_tools::codec::{mip_policy_of, parse_format, MipPolicy, WtxFormat};
use wtx_tools::container::generate_wtx_from_image;
use wtx_tools::errors::WtxError;
use wtx_tools::raster::RawImage;

/// A raster filled with one RGBA color.
fn solid_raster(width: u32, height: u32, rgba: [u8; 4]) -> RawImage {
    let mut data = Vec::new();
    for _ in 0..(width * height) {
        data.extend_from_slice(&rgba);
    }
    RawImage::new(width, height, data).unwrap()
}

fn le16(bytes: &[u8]) -> u16 {
    u16::from_le_bytes([bytes[0], bytes[1]])
}

fn le32(bytes: &[u8]) -> u32 {
    u32::from_le_bytes([bytes[0], bytes[1], bytes[2], bytes[3]])
}

fn f32_field(bytes: &[u8]) -> f32 {
    f32::from_le_bytes([bytes[0], bytes[1], bytes[2], bytes[3]])
}

#[test]
fn scenario_solid_red_opaque_no_mipmaps() {
    let img = solid_raster(4, 4, [255, 0, 0, 255]);
    let out = generate_wtx_from_image(&img, false, WtxFormat::DXT1, 0).unwrap();
    // One 8-byte BC1 block after the 44-byte header.
    assert_eq!(out.len(), 44 + 8);
    assert_eq!(&out[0..8], &[0, 0, 0, 0, 0, 0, 0x12, 0]);
    assert_eq!(le32(&out[8..12]), 32 + 8);
    assert_eq!(le16(&out[12..14]), 4);
    assert_eq!(le16(&out[14..16]), 4);
    assert_eq!(le16(&out[16..18]), 1);
    assert_eq!(le16(&out[18..20]), 1);
    assert_eq!(out[20], 0);
    assert_eq!(&out[21..24], &[0, 0, 0]);
    // Averages: exactly (1.0, 0.0, 0.0, 1.0).
    assert_eq!(&out[24..28], &1.0f32.to_le_bytes());
    assert_eq!(&out[28..32], &[0, 0, 0, 0]);
    assert_eq!(&out[32..36], &[0, 0, 0, 0]);
    assert_eq!(&out[36..40], &1.0f32.to_le_bytes());
    assert_eq!(&out[40..44], b"DXT1");
}

#[test]
fn scenario_half_white_mipmapped() {
    // 8x8: top half white, bottom half black, fully opaque.
    let mut data = Vec::new();
    for y in 0..8 {
        for _x in 0..8 {
            let v = if y < 4 { 255 } else { 0 };
            data.extend_from_slice(&[v, v, v, 255]);
        }
    }
    let img = RawImage::new(8, 8, data).unwrap();
    let out = generate_wtx_from_image(&img, true, WtxFormat::DXT5, 0).unwrap();
    // More than one level is reported ...
    let mip_count = le16(&out[18..20]);
    assert!(mip_count > 1);
    assert_eq!(mip_count, 4);
    // ... but only the base level's blocks are written: 2x2 BC3 blocks.
    assert_eq!(out.len(), 44 + 64);
    assert_eq!(le32(&out[8..12]), 32 + 64);
    // Channel averages are exactly one half.
    assert_eq!(f32_field(&out[24..28]), 0.5);
    assert_eq!(f32_field(&out[28..32]), 0.5);
    assert_eq!(f32_field(&out[32..36]), 0.5);
    assert_eq!(f32_field(&out[36..40]), 1.0);
    assert_eq!(&out[40..44], b"DXT5");
}

#[test]
fn format_tag_follows_codec() {
    let img = solid_raster(4, 4, [10, 20, 30, 255]);
    let opaque = generate_wtx_from_image(&img, false, WtxFormat::DXT1, 0).unwrap();
    assert_eq!(&opaque[40..44], b"DXT1");
    let blended = generate_wtx_from_image(&img, false, WtxFormat::DXT5, 0).unwrap();
    assert_eq!(&blended[40..44], b"DXT5");
}

#[test]
fn flags_byte_is_passed_through() {
    let img = solid_raster(4, 4, [1, 2, 3, 4]);
    let out = generate_wtx_from_image(&img, false, WtxFormat::DXT5, 0xA5).unwrap();
    assert_eq!(out[20], 0xA5);
    assert_eq!(&out[21..24], &[0, 0, 0]);
}

#[test]
fn alpha_average_ignores_alpha_content() {
    // Fully transparent pixels still give an alpha average of exactly 1.0.
    let img = solid_raster(4, 4, [0, 0, 0, 0]);
    let out = generate_wtx_from_image(&img, false, WtxFormat::DXT5, 0).unwrap();
    assert_eq!(&out[36..40], &1.0f32.to_le_bytes());
}

#[test]
fn channel_averages_match_means() {
    // A 4x4 gradient with known channel sums.
    let mut data = Vec::new();
    for i in 0..16u32 {
        data.extend_from_slice(&[i as u8, (2 * i) as u8, 200, 255]);
    }
    let img = RawImage::new(4, 4, data).unwrap();
    let out = generate_wtx_from_image(&img, false, WtxFormat::DXT5, 0).unwrap();
    let sum_r: f64 = (0..16).map(|i| i as f64 / 255.0).sum();
    let sum_g: f64 = (0..16).map(|i| 2.0 * i as f64 / 255.0).sum();
    let expect_r = (sum_r / 16.0) as f32;
    let expect_g = (sum_g / 16.0) as f32;
    let expect_b = (200.0f64 / 255.0) as f32;
    assert!((f32_field(&out[24..28]) - expect_r).abs() < 1e-6);
    assert!((f32_field(&out[28..32]) - expect_g).abs() < 1e-6);
    assert!((f32_field(&out[32..36]) - expect_b).abs() < 1e-6);
}

#[test]
fn non_aligned_dimensions_still_encode() {
    // 5x3 pads to two 4x4 blocks horizontally, one row of blocks.
    let img = solid_raster(5, 3, [0, 255, 0, 255]);
    let out = generate_wtx_from_image(&img, false, WtxFormat::DXT1, 0).unwrap();
    assert_eq!(le16(&out[12..14]), 5);
    assert_eq!(le16(&out[14..16]), 3);
    assert_eq!(out.len(), 44 + 2 * 8);
}

#[test]
fn vertical_flip_reverses_rows() {
    // 2x2 raster with four distinct pixels.
    let data = vec![
        1, 2, 3, 4, // row 0, pixel 0
        5, 6, 7, 8, // row 0, pixel 1
        9, 10, 11, 12, // row 1, pixel 0
        13, 14, 15, 16, // row 1, pixel 1
    ];
    let img = RawImage::new(2, 2, data).unwrap();
    let flipped = img.flip_vertical();
    assert_eq!(flipped.width(), 2);
    assert_eq!(flipped.height(), 2);
    assert_eq!(
        flipped.pixel_bytes().as_slice(),
        &[9, 10, 11, 12, 13, 14, 15, 16, 1, 2, 3, 4, 5, 6, 7, 8]
    );
}

#[test]
fn scenario_empty_raster_is_rejected() {
    assert_eq!(RawImage::new(0, 0, Vec::new()).unwrap_err(), WtxError::EmptyRaster);
    assert_eq!(RawImage::new(0, 4, Vec::new()).unwrap_err(), WtxError::EmptyRaster);
    assert_eq!(RawImage::new(4, 0, Vec::new()).unwrap_err(), WtxError::EmptyRaster);
}

#[test]
fn oversized_raster_is_rejected() {
    let err = RawImage::new(70000, 4, vec![0; 16]).unwrap_err();
    assert_eq!(err, WtxError::OversizedRaster);
}

#[test]
fn short_buffer_is_rejected() {
    let err = RawImage::new(2, 2, vec![0; 15]).unwrap_err();
    assert_eq!(err, WtxError::RasterSizeMismatch);
}

#[test]
fn scenario_batch_reports_two_of_three() {
    let mut summary = BatchSummary::new();
    let inputs: Vec<(u32, u32, Vec<u8>)> = vec![
        (4, 4, vec![128; 64]),
        (2, 2, vec![7; 5]), // corrupt: wrong buffer length
        (4, 4, vec![9; 64]),
    ];
    for (w, h, data) in inputs {
        let outcome = RawImage::new(w, h, data)
            .and_then(|img| generate_wtx_from_image(&img, false, WtxFormat::DXT1, 0));
        summary.record(outcome.is_ok());
    }
    assert_eq!(summary.succeeded(), 2);
    assert_eq!(summary.failed(), 1);
}

#[test]
fn parse_format_accepts_the_two_codecs() {
    assert_eq!(parse_format("DXT1").unwrap(), WtxFormat::DXT1);
    assert_eq!(parse_format("DXT5").unwrap(), WtxFormat::DXT5);
    assert_eq!(parse_format("DXT3").unwrap_err(), WtxError::UnknownFormat);
    assert_eq!(parse_format("dxt1").unwrap_err(), WtxError::UnknownFormat);
    assert_eq!(parse_format("").unwrap_err(), WtxError::UnknownFormat);
}

#[test]
fn mip_policy_follows_flag() {
    assert_eq!(mip_policy_of(false), MipPolicy::SingleLevel);
    assert_eq!(mip_policy_of(true), MipPolicy::FullAutomaticChain);
}
