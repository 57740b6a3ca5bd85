// The last hop, from the renderer's raw RGB bytes to the bytes of a file.
// Lossless formats must round-trip exactly; lossy ones must stay close.

use image::GenericImageView;

use open_darkroom_lib::export_encoding::{
    encode_and_save, png_compression_for, ExportError, ExportFormat, ExportSettings, PngCompression,
};

fn settings(format: ExportFormat) -> ExportSettings {
    ExportSettings {
        format,
        png_compression: 6,
        jpeg_quality: 95,
        webp_lossless: true,
        webp_quality: 90,
        webp_compression: 6,
        tiff_bit_depth: 8,
        is_bw: false,
    }
}

/// Deterministic 8-bit RGB test data, 3 bytes per pixel.
fn rgb8(width: u32, height: u32) -> Vec<u8> {
    let mut out = Vec::with_capacity((width * height * 3) as usize);
    for y in 0..height {
        for x in 0..width {
            out.push((x * 255 / width.max(1)) as u8);
            out.push((y * 255 / height.max(1)) as u8);
            out.push(((x + y) % 256) as u8);
        }
    }
    out
}

/// Deterministic 16-bit RGB test data, 6 bytes per pixel, little-endian.
fn rgb16(width: u32, height: u32) -> Vec<u8> {
    let mut out = Vec::with_capacity((width * height * 6) as usize);
    for y in 0..height {
        for x in 0..width {
            for c in 0..3u32 {
                let v = ((x * 7 + y * 13 + c * 1021) % 65536) as u16;
                out.extend_from_slice(&v.to_le_bytes());
            }
        }
    }
    out
}

fn encode(source: &[u8], w: u32, h: u32, s: &ExportSettings) -> Vec<u8> {
    match encode_and_save(source.to_vec(), w, h, s) {
        Ok(bytes) => bytes,
        Err(_) => panic!("encode failed"),
    }
}

fn decode(bytes: &[u8]) -> image::DynamicImage {
    image::load_from_memory(bytes).expect("decode")
}

#[test]
fn png_round_trips_exactly() {
    let (w, h) = (37u32, 11);
    let source = rgb8(w, h);
    let file = encode(&source, w, h, &settings(ExportFormat::Png));
    assert_eq!(&file[1..4], b"PNG");
    let decoded = decode(&file);
    assert_eq!(decoded.dimensions(), (w, h));
    assert_eq!(decoded.to_rgb8().into_raw(), source, "PNG must be lossless");
}

#[test]
fn png_compression_levels_all_produce_valid_files() {
    let (w, h) = (16u32, 16);
    let source = rgb8(w, h);
    for level in [0u8, 3, 6, 9] {
        let mut s = settings(ExportFormat::Png);
        s.png_compression = level;
        let decoded = decode(&encode(&source, w, h, &s));
        assert_eq!(decoded.to_rgb8().into_raw(), source, "compression {level} changed the pixels");
    }
}

#[test]
fn png_compression_levels_map_to_three_settings() {
    for level in 0..=2u8 {
        assert!(matches!(png_compression_for(level), PngCompression::Fast));
    }
    for level in 3..=6u8 {
        assert!(matches!(png_compression_for(level), PngCompression::Default));
    }
    for level in [7u8, 9, 200] {
        assert!(matches!(png_compression_for(level), PngCompression::Best));
    }
}

#[test]
fn tiff_round_trips_exactly_at_eight_bits() {
    let (w, h) = (23u32, 9);
    let source = rgb8(w, h);
    let decoded = decode(&encode(&source, w, h, &settings(ExportFormat::Tiff)));
    assert_eq!(decoded.dimensions(), (w, h));
    assert_eq!(decoded.to_rgb8().into_raw(), source);
}

#[test]
fn tiff_round_trips_exactly_at_sixteen_bits() {
    let (w, h) = (15u32, 7);
    let source = rgb16(w, h);
    let mut s = settings(ExportFormat::Tiff);
    s.tiff_bit_depth = 16;
    let decoded = decode(&encode(&source, w, h, &s));
    assert_eq!(decoded.dimensions(), (w, h));
    let round_tripped: Vec<u8> = decoded.to_rgb16().into_raw().iter().flat_map(|v| v.to_le_bytes()).collect();
    assert_eq!(round_tripped, source, "16-bit TIFF must preserve every level");
}

#[test]
fn webp_lossless_round_trips_exactly() {
    let (w, h) = (20u32, 12);
    let source = rgb8(w, h);
    let decoded = decode(&encode(&source, w, h, &settings(ExportFormat::Webp)));
    assert_eq!(decoded.dimensions(), (w, h));
    assert_eq!(decoded.to_rgb8().into_raw(), source, "lossless WebP must be lossless");
}

#[test]
fn bw_tiff_writes_a_single_channel_from_red() {
    let (w, h) = (8u32, 4);
    let source: Vec<u8> = (0..(w * h)).flat_map(|i| [i as u8, i as u8, i as u8]).collect();
    let mut s = settings(ExportFormat::Tiff);
    s.is_bw = true;
    let decoded = decode(&encode(&source, w, h, &s));
    assert_eq!(decoded.dimensions(), (w, h));
    assert_eq!(decoded.color(), image::ColorType::L8, "BW mode should write a greyscale TIFF, not RGB");
    let grey = decoded.to_luma8().into_raw();
    for (i, &v) in grey.iter().enumerate() {
        assert_eq!(v, i as u8, "grey level {i}");
    }
}

#[test]
fn bw_tiff_at_sixteen_bits_keeps_the_full_range() {
    let (w, h) = (4u32, 2);
    let values: Vec<u16> = (0..(w * h)).map(|i| (i as u16 + 1) * 8000).collect();
    let source: Vec<u8> = values.iter().flat_map(|&v| [v, v, v]).flat_map(|v| v.to_le_bytes()).collect();
    let mut s = settings(ExportFormat::Tiff);
    s.is_bw = true;
    s.tiff_bit_depth = 16;
    let decoded = decode(&encode(&source, w, h, &s));
    assert_eq!(decoded.color(), image::ColorType::L16);
    assert_eq!(decoded.to_luma16().into_raw(), values);
}

#[test]
fn bw_tiff_takes_red_even_when_the_channels_differ() {
    let source: Vec<u8> = vec![10, 20, 30, 40, 50, 60];
    let mut s = settings(ExportFormat::Tiff);
    s.is_bw = true;
    let decoded = decode(&encode(&source, 2, 1, &s));
    assert_eq!(decoded.to_luma8().into_raw(), vec![10, 40]);
}

#[test]
fn jpeg_stays_close_to_the_source() {
    let (w, h) = (32u32, 32);
    let source = rgb8(w, h);
    let decoded = decode(&encode(&source, w, h, &settings(ExportFormat::Jpeg))).to_rgb8().into_raw();
    assert_eq!(decoded.len(), source.len());
    let mean_error: f64 = decoded
        .iter()
        .zip(source.iter())
        .map(|(&a, &b)| (a as f64 - b as f64).abs())
        .sum::<f64>()
        / source.len() as f64;
    assert!(mean_error < 4.0, "quality 95 JPEG drifted by {mean_error:.2} on average");
}

#[test]
fn higher_jpeg_quality_produces_a_larger_file() {
    let (w, h) = (64u32, 64);
    let source = rgb8(w, h);
    let size_at = |quality: u8| {
        let mut s = settings(ExportFormat::Jpeg);
        s.jpeg_quality = quality;
        encode(&source, w, h, &s).len()
    };
    assert!(size_at(95) > size_at(30), "the quality slider is not reaching the encoder");
}

#[test]
fn an_unsupported_tiff_bit_depth_is_reported() {
    let mut s = settings(ExportFormat::Tiff);
    s.tiff_bit_depth = 12;
    match encode_and_save(rgb8(4, 4), 4, 4, &s) {
        Err(ExportError::UnsupportedTiffBitDepth(depth)) => assert_eq!(depth, 12),
        _ => panic!("12-bit TIFF is not supported"),
    }
}

#[test]
fn lossy_webp_is_refused() {
    let mut s = settings(ExportFormat::Webp);
    s.webp_lossless = false;
    assert!(matches!(encode_and_save(rgb8(4, 4), 4, 4, &s), Err(ExportError::LossyWebpUnavailable)));
}

#[test]
fn an_encoder_failure_carries_its_message() {
    // A zero-sized PNG is refused by the encoder itself.
    match encode_and_save(Vec::new(), 0, 0, &settings(ExportFormat::Png)) {
        Err(ExportError::Encode(message)) => assert!(!message.is_empty()),
        _ => panic!("a zero-sized PNG is an encoder failure"),
    }
}

#[test]
fn a_jpeg_wider_than_the_format_allows_is_an_encoder_failure() {
    let width = 65536;
    let result = encode_and_save(vec![0u8; width as usize * 3], width, 1, &settings(ExportFormat::Jpeg));
    assert!(matches!(result, Err(ExportError::Encode(_))));
}

#[test]
fn a_webp_wider_than_the_format_allows_is_an_encoder_failure() {
    let width = 16385;
    let result = encode_and_save(vec![0u8; width as usize * 3], width, 1, &settings(ExportFormat::Webp));
    assert!(matches!(result, Err(ExportError::Encode(_))));
}

#[test]
fn the_widest_webp_the_format_allows_is_written() {
    let width = 16384;
    let source = vec![7u8; width as usize * 3];
    let bytes = encode(&source, width, 1, &settings(ExportFormat::Webp));
    assert_eq!(&bytes[0..4], b"RIFF");
    assert_eq!(&bytes[8..12], b"WEBP");
}
