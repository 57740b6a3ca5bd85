// Everything between "the file is decoded" and "the frontend has a texture":
// resampling, histograms, and the payload wire format.

use half::f16;

use open_darkroom_lib::color::{linearize_u16, LINEAR_BYTES_PER_PIXEL, LUT_SIZE};
use open_darkroom_lib::image_opening::{
    build_payload, compute_histograms, payload_len_for, prepare_image, resample_u16, within_max_edge,
    ColorTables, Histograms, PreparedImage, HIST_BINS, OVERVIEW_MAX_EDGE, PAYLOAD_HEADER_BYTES,
    PREVIEW_MAX_EDGE,
};

/// Expand an 8-bit value to u16 exactly.
fn u8_to_u16(v: u8) -> u16 {
    v as u16 * 257
}

fn solid(width: u32, height: u32, rgba: [u16; 4]) -> Vec<u16> {
    (0..width * height).flat_map(|_| rgba).collect()
}

/// Red ramps up left to right, green ramps down, blue fixed, opaque.
fn rgb_ramp(width: u32, height: u32) -> Vec<u16> {
    let mut out = Vec::new();
    for _ in 0..height {
        for x in 0..width {
            let v = (x as u64 * 65535 / (width.max(2) - 1) as u64) as u16;
            out.extend_from_slice(&[v, 65535 - v, 12345, u16::MAX]);
        }
    }
    out
}

/// Deterministic pseudo-random RGBA pixels.
fn noise(width: u32, height: u32, seed: u32) -> Vec<u16> {
    let mut state = seed | 1;
    (0..width * height * 4)
        .map(|_| {
            state ^= state << 13;
            state ^= state >> 17;
            state ^= state << 5;
            (state >> 16) as u16
        })
        .collect()
}

fn without_alpha(rgba: &[u16]) -> Vec<u16> {
    rgba.chunks_exact(4).flat_map(|px| [px[0], px[1], px[2]]).collect()
}

// ── Downscaling ───────────────────────────────────────────────────────────────

#[test]
fn downscale_leaves_small_images_untouched() {
    assert!(within_max_edge(64, 32, PREVIEW_MAX_EDGE));
    assert!(within_max_edge(PREVIEW_MAX_EDGE, 100, PREVIEW_MAX_EDGE), "exactly at the limit is untouched");
    assert!(within_max_edge(100, PREVIEW_MAX_EDGE, PREVIEW_MAX_EDGE));
    assert!(!within_max_edge(PREVIEW_MAX_EDGE + 1, 100, PREVIEW_MAX_EDGE));
    assert!(!within_max_edge(100, PREVIEW_MAX_EDGE + 1, PREVIEW_MAX_EDGE));
}

#[test]
fn downscale_preserves_a_flat_colour_exactly() {
    let img = solid(400, 200, [1234, 5678, 9012, u16::MAX]);
    let small = resample_u16(&img, 400, 200, 4, 205, 102);
    assert_eq!(small.len(), 205 * 102 * 4);
    for px in small.chunks_exact(4) {
        assert_eq!([px[0], px[1], px[2]], [1234, 5678, 9012]);
    }
}

#[test]
fn downscale_keeps_channels_distinct() {
    let img = rgb_ramp(600, 20);
    let small = resample_u16(&img, 600, 20, 4, 200, 7);
    let w = 200usize;
    let first = &small[0..3];
    let last = &small[(w - 1) * 4..(w - 1) * 4 + 3];
    assert!(last[0] > first[0], "red ramps up");
    assert!(last[1] < first[1], "green ramps down");
}

#[test]
fn downscale_agrees_across_channel_counts() {
    let img = rgb_ramp(600, 20);
    let from_rgba = resample_u16(&img, 600, 20, 4, 200, 7);
    let from_rgb = resample_u16(&without_alpha(&img), 600, 20, 3, 200, 7);
    assert_eq!(from_rgb, without_alpha(&from_rgba));
}

#[test]
fn resampling_changes_a_ramp() {
    // Handing the source back would keep its length; the resample must not.
    let img = rgb_ramp(60, 10);
    let small = resample_u16(&img, 60, 10, 4, 30, 5);
    assert_eq!(small.len(), 30 * 5 * 4);
    assert_ne!(small[..], img[..small.len()]);
}

// ── Histograms ────────────────────────────────────────────────────────────────

#[test]
fn histogram_counts_every_pixel_once() {
    let img = noise(200, 150, 0xC0FFEE);
    let h = compute_histograms(&img, 4);
    let total = (200 * 150) as u32;
    assert_eq!(h.r.iter().sum::<u32>(), total);
    assert_eq!(h.g.iter().sum::<u32>(), total);
    assert_eq!(h.b.iter().sum::<u32>(), total);
}

#[test]
fn histogram_bins_by_the_high_byte() {
    let img = solid(10, 10, [u8_to_u16(128), u8_to_u16(0), u8_to_u16(255), u16::MAX]);
    let h = compute_histograms(&img, 4);
    assert_eq!(h.r[128], 100);
    assert_eq!(h.g[0], 100);
    assert_eq!(h.b[255], 100);
}

#[test]
fn histogram_channels_are_not_crossed() {
    let img = solid(4, 4, [u8_to_u16(10), u8_to_u16(20), u8_to_u16(30), u16::MAX]);
    let h = compute_histograms(&img, 4);
    assert_eq!(h.r[10], 16, "red");
    assert_eq!(h.g[20], 16, "green");
    assert_eq!(h.b[30], 16, "blue");
    assert_eq!(h.r[20] + h.r[30], 0, "red bin picked up another channel");
}

#[test]
fn histograms_do_not_depend_on_the_channel_count() {
    let img = noise(64, 48, 0xA11FA);
    let rgba = compute_histograms(&img, 4);
    let rgb = compute_histograms(&without_alpha(&img), 3);
    assert_eq!(rgb.r, rgba.r, "red");
    assert_eq!(rgb.g, rgba.g, "green");
    assert_eq!(rgb.b, rgba.b, "blue");
}

#[test]
fn alpha_is_never_binned() {
    let img = solid(3, 3, [0, 0, 0, u8_to_u16(200)]);
    let h = compute_histograms(&img, 4);
    assert_eq!(h.r[0] + h.g[0] + h.b[0], 27);
    assert_eq!(h.r[200] + h.g[200] + h.b[200], 0);
}

// ── Payload framing ───────────────────────────────────────────────────────────

fn prepared(pw: u32, ph: u32, ow: u32, oh: u32, fw: u32, fh: u32) -> PreparedImage {
    let pixels = |w: u32, h: u32, salt: u8| -> Vec<u8> {
        (0..(w * h) as usize * LINEAR_BYTES_PER_PIXEL).map(|i| (i as u8).wrapping_mul(7) ^ salt).collect()
    };
    let mut r = [0u32; 256];
    let mut g = [0u32; 256];
    let mut b = [0u32; 256];
    for i in 0..256 {
        r[i] = i as u32;
        g[i] = 1000 + i as u32;
        b[i] = 0x0102_0304 + i as u32;
    }
    PreparedImage {
        preview_pixels: pixels(pw, ph, 0x55),
        preview_width: pw,
        preview_height: ph,
        overview_pixels: pixels(ow, oh, 0xaa),
        overview_width: ow,
        overview_height: oh,
        full_width: fw,
        full_height: fh,
        histograms: Histograms { r, g, b },
    }
}

fn word(payload: &[u8], at: usize) -> u32 {
    u32::from_le_bytes(payload[at..at + 4].try_into().unwrap())
}

#[test]
fn payload_round_trips_through_the_frontend_layout() {
    let p = prepared(9, 5, 3, 2, 9, 5);
    let payload = build_payload(&p);

    assert_eq!(payload.len(), payload_len_for(9, 5, 3, 2));
    assert_eq!((word(&payload, 0), word(&payload, 4)), (9, 5));
    assert_eq!((word(&payload, 8), word(&payload, 12)), (9, 5));
    assert_eq!((word(&payload, 16), word(&payload, 20)), (3, 2));

    let pixel_bytes = 9 * 5 * LINEAR_BYTES_PER_PIXEL;
    assert_eq!(&payload[PAYLOAD_HEADER_BYTES..PAYLOAD_HEADER_BYTES + pixel_bytes], &p.preview_pixels[..]);
    let mut offset = PAYLOAD_HEADER_BYTES + pixel_bytes;
    let overview_bytes = 3 * 2 * LINEAR_BYTES_PER_PIXEL;
    assert_eq!(&payload[offset..offset + overview_bytes], &p.overview_pixels[..]);
    offset += overview_bytes;

    for (channel, expected) in [("r", &p.histograms.r), ("g", &p.histograms.g), ("b", &p.histograms.b)] {
        let mut bins = [0u32; HIST_BINS];
        for (i, bin) in bins.iter_mut().enumerate() {
            *bin = word(&payload, offset + i * 4);
        }
        assert_eq!(bins, *expected, "{channel} histogram misplaced in payload");
        offset += HIST_BINS * 4;
    }
    assert_eq!(offset, payload.len(), "trailing bytes in payload");
}

#[test]
fn payload_header_carries_the_full_resolution_of_a_downscaled_preview() {
    let p = prepared(20, 10, 5, 3, 3000, 1500);
    let payload = build_payload(&p);
    assert_eq!((word(&payload, 0), word(&payload, 4)), (20, 10));
    assert_eq!((word(&payload, 8), word(&payload, 12)), (3000, 1500));
}

#[test]
fn payload_header_carries_preview_not_source_dimensions() {
    let p = prepared(16, 4, 4, 1, 2500, 500);
    let payload = build_payload(&p);
    let (width, height) = (word(&payload, 0), word(&payload, 4));
    assert_eq!((width, height), (16, 4));
    assert_eq!(payload.len(), payload_len_for(width, height, 4, 1));
}

#[test]
fn payload_len_has_an_exact_value() {
    assert_eq!(payload_len_for(0, 0, 0, 0), 24 + 3072);
    assert_eq!(payload_len_for(2048, 1024, 512, 256), 24 + 2048 * 1024 * 8 + 512 * 256 * 8 + 3072);
}

// ── Preparation ───────────────────────────────────────────────────────────────

fn srgb_to_linear(s: f64) -> f64 {
    if s <= 0.04045 {
        s / 12.92
    } else {
        ((s + 0.055) / 1.055).powf(2.4)
    }
}

fn linear_to_srgb(l: f64) -> f64 {
    if l <= 0.0031308 {
        l * 12.92
    } else {
        1.055 * l.powf(1.0 / 2.4) - 0.055
    }
}

fn tables() -> ColorTables {
    let curve = |i: usize| srgb_to_linear(i as f64 / 65535.0);
    ColorTables {
        resample: (0..LUT_SIZE).map(|i| (curve(i) * 65535.0).round() as u16).collect(),
        decode_f16: (0..LUT_SIZE).map(|i| f16::from_f64(curve(i)).to_bits()).collect(),
        unit_f16: (0..LUT_SIZE).map(|i| f16::from_f32(i as f32 / 65535.0).to_bits()).collect(),
    }
}

/// The aspect-preserving size a downscale to `max_edge` lands on.
fn scaled(width: u32, height: u32, max_edge: u32) -> (u32, u32) {
    if within_max_edge(width, height, max_edge) {
        return (width, height);
    }
    let scale = max_edge as f32 / width.max(height) as f32;
    (
        ((width as f32 * scale).round() as u32).max(1),
        ((height as f32 * scale).round() as u32).max(1),
    )
}

fn prepare(img: &[u16], w: u32, h: u32, channels: usize) -> PreparedImage {
    prepare_image(img, w, h, channels, &tables(), scaled(w, h, PREVIEW_MAX_EDGE), scaled(w, h, OVERVIEW_MAX_EDGE))
}

#[test]
fn downscale_preserves_aspect_ratio() {
    let cases = [
        ((4000, 2000), (2048, 1024)),
        ((2000, 4000), (1024, 2048)),
        ((4096, 4096), (2048, 2048)),
        ((3000, 1000), (2048, 683)),
    ];
    for ((w, h), expected) in cases {
        assert_eq!(scaled(w, h, PREVIEW_MAX_EDGE), expected, "downscaling {w}×{h}");
    }
}

#[test]
fn histograms_describe_the_full_resolution_image() {
    let img = solid(2500, 100, [u8_to_u16(128); 4]);
    let prepared = prepare(&img, 2500, 100, 4);
    assert_eq!(prepared.full_width, 2500);
    assert_eq!(prepared.preview_width, PREVIEW_MAX_EDGE, "preview is capped");
    assert_eq!(prepared.histograms.r.iter().sum::<u32>(), 2500 * 100);
    assert_eq!(prepared.histograms.r[128], 2500 * 100);
}

#[test]
fn preview_uses_the_shared_linearisation() {
    let img = rgb_ramp(97, 13);
    let prepared = prepare(&img, 97, 13, 4);
    let t = tables();
    let expected = linearize_u16(&img, 4, &t.decode_f16, &t.unit_f16);
    assert_eq!(prepared.preview_pixels, expected, "preview and export linearisation diverged");
    assert_eq!(prepared.overview_pixels, expected, "a small image's overview is its preview");
}

#[test]
fn preparing_a_three_channel_source_matches_its_rgba_equivalent() {
    for (w, h) in [(97u32, 13u32), (3000, 200)] {
        let img = rgb_ramp(w, h);
        let from_rgba = prepare(&img, w, h, 4);
        let from_rgb = prepare(&without_alpha(&img), w, h, 3);
        assert_eq!(
            (from_rgb.preview_width, from_rgb.preview_height),
            (from_rgba.preview_width, from_rgba.preview_height),
            "{w}×{h}: preview dimensions"
        );
        assert_eq!(from_rgb.preview_pixels, from_rgba.preview_pixels, "{w}×{h}: preview pixels");
        assert_eq!(from_rgb.histograms.r, from_rgba.histograms.r, "{w}×{h}: red");
        assert_eq!(from_rgb.histograms.g, from_rgba.histograms.g, "{w}×{h}: green");
        assert_eq!(from_rgb.histograms.b, from_rgba.histograms.b, "{w}×{h}: blue");
    }
}

#[test]
fn the_preview_is_resampled_in_linear_light() {
    let width = PREVIEW_MAX_EDGE * 2;
    let mut img = Vec::new();
    for y in 0..8u32 {
        for x in 0..width {
            let v = if (x + y) % 2 == 0 { 255u8 } else { 0u8 };
            img.extend_from_slice(&[u8_to_u16(v), u8_to_u16(v), u8_to_u16(v), u16::MAX]);
        }
    }
    let prepared = prepare(&img, width, 8, 4);
    assert_eq!((prepared.preview_width, prepared.preview_height), (PREVIEW_MAX_EDGE, 4));

    let mean: f64 = prepared
        .preview_pixels
        .chunks_exact(LINEAR_BYTES_PER_PIXEL)
        .skip(8)
        .take(prepared.preview_width as usize - 16)
        .map(|px| f16::from_le_bytes([px[2], px[3]]).to_f32() as f64)
        .sum::<f64>()
        / (prepared.preview_width as usize - 16) as f64;
    assert!(
        (mean - 0.5).abs() < 0.02,
        "checkerboard averaged to linear {mean:.4} (sRGB {:.0}/255)",
        linear_to_srgb(mean) * 255.0
    );
}

#[test]
fn prepare_reports_both_resolutions() {
    let img = solid(3000, 1500, [1000, 2000, 3000, u16::MAX]);
    let prepared = prepare(&img, 3000, 1500, 4);
    assert_eq!((prepared.full_width, prepared.full_height), (3000, 1500));
    assert_eq!((prepared.preview_width, prepared.preview_height), (2048, 1024));
    assert_eq!(prepared.preview_pixels.len(), 2048 * 1024 * LINEAR_BYTES_PER_PIXEL);
    assert_eq!((prepared.overview_width, prepared.overview_height), (512, 256));
    assert_eq!(prepared.overview_pixels.len(), 512 * 256 * LINEAR_BYTES_PER_PIXEL);
    let payload = build_payload(&prepared);
    assert_eq!(payload.len(), payload_len_for(2048, 1024, 512, 256));
}
