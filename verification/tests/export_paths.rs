// The decisions of the export command around the dialog and the save path.

use open_darkroom_lib::export::{ensure_extension, extension_for, render_bit_depth, save_filter, widen_to_rgba};
use open_darkroom_lib::export_encoding::{encode_input_ok, ExportFormat, ExportSettings};
use open_darkroom_lib::export_rendering::bytes_per_output_pixel;

fn settings(format: ExportFormat, tiff_bit_depth: u8) -> ExportSettings {
    ExportSettings {
        format,
        png_compression: 6,
        jpeg_quality: 95,
        webp_lossless: true,
        webp_quality: 90,
        webp_compression: 6,
        tiff_bit_depth,
        is_bw: false,
    }
}

#[test]
fn a_missing_extension_is_added() {
    assert_eq!(ensure_extension("/tmp/photo".to_string(), "png"), "/tmp/photo.png");
}

#[test]
fn a_matching_extension_is_kept_in_any_case() {
    assert_eq!(ensure_extension("/tmp/photo.png".to_string(), "png"), "/tmp/photo.png");
    assert_eq!(ensure_extension("/tmp/photo.PNG".to_string(), "png"), "/tmp/photo.PNG");
    assert_eq!(ensure_extension("/tmp/photo.Jpg".to_string(), "jpg"), "/tmp/photo.Jpg");
}

#[test]
fn a_different_extension_is_replaced() {
    assert_eq!(ensure_extension("/tmp/photo.jpeg".to_string(), "jpg"), "/tmp/photo.jpg");
    assert_eq!(ensure_extension("/tmp/photo.tif".to_string(), "tiff"), "/tmp/photo.tiff");
    assert_eq!(ensure_extension("/tmp/a.b.c".to_string(), "webp"), "/tmp/a.b.webp");
}

#[test]
fn each_format_has_its_extension_and_filter() {
    assert_eq!(extension_for(&ExportFormat::Png), "png");
    assert_eq!(extension_for(&ExportFormat::Jpeg), "jpg");
    assert_eq!(extension_for(&ExportFormat::Webp), "webp");
    assert_eq!(extension_for(&ExportFormat::Tiff), "tiff");
    assert_eq!(save_filter(&ExportFormat::Png), ("PNG Image", vec!["png"]));
    assert_eq!(save_filter(&ExportFormat::Jpeg), ("JPEG Image", vec!["jpg", "jpeg"]));
    assert_eq!(save_filter(&ExportFormat::Webp), ("WebP Image", vec!["webp"]));
    assert_eq!(save_filter(&ExportFormat::Tiff), ("TIFF Image", vec!["tiff", "tif"]));
}

#[test]
fn only_tiff_renders_above_eight_bits() {
    assert_eq!(render_bit_depth(&settings(ExportFormat::Tiff, 16)), 16);
    assert_eq!(render_bit_depth(&settings(ExportFormat::Tiff, 8)), 8);
    assert_eq!(render_bit_depth(&settings(ExportFormat::Png, 16)), 8);
    assert_eq!(render_bit_depth(&settings(ExportFormat::Jpeg, 16)), 8);
    assert_eq!(render_bit_depth(&settings(ExportFormat::Webp, 16)), 8);
}

#[test]
fn the_saved_extension_is_the_first_the_dialog_offers() {
    for format in [ExportFormat::Png, ExportFormat::Jpeg, ExportFormat::Webp, ExportFormat::Tiff] {
        assert_eq!(save_filter(&format).1[0], extension_for(&format));
    }
}

#[test]
fn the_render_depth_gives_the_bytes_the_encoder_reads() {
    assert_eq!(bytes_per_output_pixel(render_bit_depth(&settings(ExportFormat::Tiff, 16))), 6);
    assert_eq!(bytes_per_output_pixel(render_bit_depth(&settings(ExportFormat::Tiff, 8))), 3);
    assert_eq!(bytes_per_output_pixel(render_bit_depth(&settings(ExportFormat::Png, 16))), 3);
    assert_eq!(bytes_per_output_pixel(render_bit_depth(&settings(ExportFormat::Jpeg, 8))), 3);
}

#[test]
fn giving_the_extension_twice_changes_nothing() {
    for path in ["/tmp/photo", "/tmp/photo.PNG", "/tmp/photo.jpeg", "/tmp/a.b.c", "/tmp/.hidden", "/", ""] {
        let once = ensure_extension(path.to_string(), "png");
        assert_eq!(ensure_extension(once.clone(), "png"), once, "for {path:?}");
        assert!(once == path || once.to_ascii_lowercase().ends_with(".png"), "for {path:?}: {once:?}");
    }
}

#[test]
fn a_three_channel_source_is_widened_with_opaque_alpha() {
    assert_eq!(widen_to_rgba(&[1, 2, 3, 4, 5, 6, 7], 3), vec![1, 2, 3, 65535, 4, 5, 6, 65535]);
    assert_eq!(widen_to_rgba(&[1, 2, 3, 4, 5], 4), vec![1, 2, 3, 4, 5]);
}

#[test]
fn the_encoder_input_length_is_checked_per_format() {
    assert!(encode_input_ok(4 * 3 * 3, 4, 3, &settings(ExportFormat::Png, 8)));
    assert!(!encode_input_ok(4 * 3 * 3 - 1, 4, 3, &settings(ExportFormat::Png, 8)));
    assert!(encode_input_ok(4 * 3 * 6, 4, 3, &settings(ExportFormat::Tiff, 16)));
    assert!(!encode_input_ok(4 * 3 * 3, 4, 3, &settings(ExportFormat::Tiff, 16)));
    // Refused settings never reach the encoder, so any length passes.
    assert!(encode_input_ok(1, 4, 3, &settings(ExportFormat::Tiff, 12)));
}
