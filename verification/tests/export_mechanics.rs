// The CPU side of the export renderer: uniform buffers, input validation,
// chunking, row padding and readback unpacking.

use open_darkroom_lib::export_rendering::{
    append_rgb16_rows, append_rgb8_rows, bytes_per_output_pixel, bytes_per_texel, padded_bytes_per_row,
    plan_chunks, sliders_to_bytes, validate_render_input, view_to_bytes, RenderInputError, SlidersPayload,
    ViewPayload, CHUNK_ROWS, SLIDERS_BYTES, SLIDER_COUNT, VIEW_BYTES,
};

fn float_at(bytes: &[u8], i: usize) -> f32 {
    f32::from_le_bytes([bytes[4 * i], bytes[4 * i + 1], bytes[4 * i + 2], bytes[4 * i + 3]])
}

#[test]
fn sliders_struct_is_all_f32_and_matches_the_declared_size() {
    assert_eq!(SLIDER_COUNT * 4 + 8, SLIDERS_BYTES);
    assert_eq!(sliders_to_bytes(&SlidersPayload::default()).len(), SLIDERS_BYTES);
}

#[test]
fn rust_default_sliders_match_the_frontend_defaults() {
    let bytes = sliders_to_bytes(&SlidersPayload::default());
    let expected: [f32; 30] = [
        0.0, 0.0, 0.0, 0.0, 255.0, 255.0, 255.0, 0.0, 255.0, 1.0, 1.0, 1.0, 5500.0, 0.0, 0.0, 0.0, 0.0, 0.0,
        0.0, 0.0, 0.0, 0.0, 0.0, 0.0, 0.0, 0.0, 0.0, 1.0, 0.0, 0.0,
    ];
    for (i, &want) in expected.iter().enumerate() {
        assert_eq!(float_at(&bytes, i), want, "slider {i}");
    }
    assert_eq!(&bytes[120..], &[0u8; 8], "tail padding is never written");
}

#[test]
fn rust_slider_packing_follows_the_struct_order() {
    let mut s = SlidersPayload::default();
    s.invert = true;
    s.wb_tint = 13.5f32.to_bits();
    s.hue = (-42.0f32).to_bits();
    s.usm_detail_threshold = 0.25f32.to_bits();
    let bytes = sliders_to_bytes(&s);
    assert_eq!(float_at(&bytes, 0), 1.0, "inversion packs as 1.0");
    assert_eq!(float_at(&bytes, 13), 13.5);
    assert_eq!(float_at(&bytes, 23), -42.0);
    assert_eq!(float_at(&bytes, 29), 0.25);
}

#[test]
fn the_view_packs_its_scale_first() {
    assert_eq!(float_at(&view_to_bytes(&ViewPayload::default()), 0), 1.0);
    assert_eq!(&view_to_bytes(&ViewPayload::default())[4..], &[0u8; 12]);
    let bytes = view_to_bytes(&ViewPayload {
        render_scale: 0.5f32.to_bits(),
        full_width: 3000.0f32.to_bits(),
        full_height: 2000.0f32.to_bits(),
    });
    assert_eq!(bytes.len(), VIEW_BYTES);
    assert_eq!(float_at(&bytes, 0), 0.5);
    assert_eq!(float_at(&bytes, 1), 3000.0);
    assert_eq!(float_at(&bytes, 2), 2000.0);
    assert_eq!(&bytes[12..], &[0u8; 4]);
}

#[test]
fn malformed_input_is_rejected_before_touching_the_gpu() {
    assert!(matches!(
        validate_render_input(0, 0, 5, CHUNK_ROWS),
        Err(RenderInputError::EmptyImage { width: 0, height: 5 })
    ));
    assert!(matches!(
        validate_render_input(0, 5, 0, CHUNK_ROWS),
        Err(RenderInputError::EmptyImage { width: 5, height: 0 })
    ));
    assert!(matches!(validate_render_input(16, 2, 2, 0), Err(RenderInputError::ZeroChunkRows)));
    assert!(matches!(
        validate_render_input(12, 2, 2, CHUNK_ROWS),
        Err(RenderInputError::PixelCountMismatch { got: 12, expected: 16 })
    ));
    assert!(validate_render_input(16, 2, 2, CHUNK_ROWS).is_ok());
}

#[test]
fn chunks_cover_every_row_once() {
    for (height, rows) in [(40u32, 1u32), (40, 3), (40, 7), (40, 8), (40, 39), (40, 41), (40, 1000), (1, 512)] {
        let plan = plan_chunks(height, rows);
        let mut next = 0;
        for chunk in &plan {
            assert_eq!(chunk.row_start, next);
            assert!(chunk.rows > 0 && chunk.rows <= rows);
            next += chunk.rows;
        }
        assert_eq!(next, height, "{height} rows at {rows} per chunk");
        assert_eq!(plan.len() as u32, (height + rows - 1) / rows);
    }
    assert!(plan_chunks(0, 8).is_empty());
}

#[test]
fn a_ragged_final_chunk_is_shorter() {
    let plan = plan_chunks(10, 4);
    let heights: Vec<u32> = plan.iter().map(|c| c.rows).collect();
    assert_eq!(heights, vec![4, 4, 2]);
}

#[test]
fn rows_are_padded_to_256_bytes() {
    assert_eq!(padded_bytes_per_row(0), 0);
    assert_eq!(padded_bytes_per_row(4), 256);
    assert_eq!(padded_bytes_per_row(256), 256);
    assert_eq!(padded_bytes_per_row(257), 512);
    assert_eq!(padded_bytes_per_row(37 * 4), 256);
    assert_eq!(padded_bytes_per_row(257 * 4), 1280);
}

#[test]
fn texel_sizes_follow_the_bit_depth() {
    assert_eq!((bytes_per_texel(8), bytes_per_output_pixel(8)), (4, 3));
    assert_eq!((bytes_per_texel(16), bytes_per_output_pixel(16)), (8, 6));
}

#[test]
fn awkward_widths_survive_row_padding() {
    for width in [1u32, 3, 37, 64, 65, 101] {
        let padded = padded_bytes_per_row(width * 4);
        let rows = 3u32;
        let mut mapped = vec![0xEEu8; (padded * rows) as usize];
        for r in 0..rows {
            for x in 0..width {
                let at = (r * padded + x * 4) as usize;
                mapped[at..at + 4].copy_from_slice(&[x as u8, r as u8, 7, 255]);
            }
        }
        let mut out = vec![9u8];
        append_rgb8_rows(&mut out, &mapped, width, rows, padded);
        assert_eq!(out.len(), 1 + (width * rows * 3) as usize, "width {width}");
        assert_eq!(out[0], 9, "earlier output is kept");
        for r in 0..rows {
            for x in 0..width {
                let at = 1 + ((r * width + x) * 3) as usize;
                assert_eq!(&out[at..at + 3], &[x as u8, r as u8, 7], "width {width} row {r} col {x}");
            }
        }
    }
}

#[test]
fn sixteen_bit_readback_goes_through_the_code_table() {
    let width = 3u32;
    let padded = padded_bytes_per_row(width * 8);
    let mut mapped = vec![0u8; padded as usize * 2];
    for r in 0..2u32 {
        for x in 0..width {
            for c in 0..4u32 {
                let h = (r * 100 + x * 10 + c) as u16;
                let at = (r * padded + x * 8 + c * 2) as usize;
                mapped[at..at + 2].copy_from_slice(&h.to_le_bytes());
            }
        }
    }
    let code: Vec<u16> = (0..65536u32).map(|h| (h as u16).wrapping_mul(3).wrapping_add(1)).collect();
    let mut out = Vec::new();
    append_rgb16_rows(&mut out, &mapped, width, 2, padded, &code);
    assert_eq!(out.len(), 2 * 3 * 6);
    for r in 0..2u32 {
        for x in 0..width {
            for c in 0..3u32 {
                let h = (r * 100 + x * 10 + c) as usize;
                let at = (((r * width + x) * 3 + c) * 2) as usize;
                assert_eq!(u16::from_le_bytes([out[at], out[at + 1]]), code[h]);
            }
        }
    }
}

// ── Sharpness lanes and the view uniform ─────────────────────────────────────

const CLARITY: usize = 24;
const TEXTURE: usize = 25;
const USM_AMOUNT: usize = 26;
const USM_RADIUS: usize = 27;
const USM_LUMA_THRESHOLD: usize = 28;
const USM_DETAIL_THRESHOLD: usize = 29;

fn bits(v: f32) -> u32 {
    v.to_bits()
}

/// Every sharpness control pushed as far as the UI allows.
fn railed() -> SlidersPayload {
    SlidersPayload {
        clarity: bits(100.0),
        texture: bits(-100.0),
        usm_amount: bits(300.0),
        usm_radius: bits(10.0),
        usm_luma_threshold: bits(100.0),
        usm_detail_threshold: bits(100.0),
        ..Default::default()
    }
}

#[test]
fn sharpness_defaults_are_neutral() {
    let d = SlidersPayload::default();
    assert_eq!(f32::from_bits(d.clarity), 0.0);
    assert_eq!(f32::from_bits(d.texture), 0.0);
    assert_eq!(f32::from_bits(d.usm_amount), 0.0);
    assert_eq!(f32::from_bits(d.usm_luma_threshold), 0.0);
    assert_eq!(f32::from_bits(d.usm_detail_threshold), 0.0);
    assert!(f32::from_bits(d.usm_radius) > 0.0, "a zero radius would be a degenerate kernel");
}

#[test]
fn sharpness_lands_in_its_own_lanes() {
    let s = SlidersPayload {
        clarity: bits(11.0),
        texture: bits(22.0),
        usm_amount: bits(33.0),
        usm_radius: bits(44.0),
        usm_luma_threshold: bits(55.0),
        usm_detail_threshold: bits(66.0),
        ..Default::default()
    };
    let bytes = sliders_to_bytes(&s);
    assert_eq!(float_at(&bytes, CLARITY), 11.0);
    assert_eq!(float_at(&bytes, TEXTURE), 22.0);
    assert_eq!(float_at(&bytes, USM_AMOUNT), 33.0);
    assert_eq!(float_at(&bytes, USM_RADIUS), 44.0);
    assert_eq!(float_at(&bytes, USM_LUMA_THRESHOLD), 55.0);
    assert_eq!(float_at(&bytes, USM_DETAIL_THRESHOLD), 66.0);
}

#[test]
fn sharpness_does_not_shift_the_lanes_before_it() {
    let neutral = sliders_to_bytes(&SlidersPayload::default());
    let maxed = sliders_to_bytes(&railed());
    assert_eq!(neutral[..CLARITY * 4], maxed[..CLARITY * 4]);
}

#[test]
fn the_uniform_is_padded_out_to_its_bound_size() {
    let bytes = sliders_to_bytes(&railed());
    assert_eq!(SLIDERS_BYTES % 16, 0, "a uniform struct is bound 16-aligned");
    assert!(SLIDERS_BYTES >= SLIDER_COUNT * 4);
    assert!(bytes[SLIDER_COUNT * 4..].iter().all(|&b| b == 0));
}

#[test]
fn the_view_defaults_to_full_resolution() {
    assert_eq!(f32::from_bits(ViewPayload::default().render_scale), 1.0);
}

#[test]
fn the_view_packs_the_render_scale_into_the_first_lane() {
    let bytes = view_to_bytes(&ViewPayload {
        render_scale: bits(0.25),
        full_width: bits(6000.0),
        full_height: bits(4000.0),
    });

    assert_eq!(f32::from_le_bytes(bytes[0..4].try_into().unwrap()), 0.25);
    assert_eq!(f32::from_le_bytes(bytes[4..8].try_into().unwrap()), 6000.0);
    assert_eq!(f32::from_le_bytes(bytes[8..12].try_into().unwrap()), 4000.0);
}

#[test]
fn the_view_zeroes_its_tail_padding() {
    let bytes = view_to_bytes(&ViewPayload {
        render_scale: bits(0.5),
        full_width: bits(100.0),
        full_height: bits(80.0),
    });

    assert_eq!(bytes.len(), VIEW_BYTES);
    assert!(
        bytes[12..].iter().all(|&b| b == 0),
        "tail padding must be zeroed, got {:?}",
        &bytes[12..]
    );
}

#[test]
fn appending_the_passes_in_order_assembles_the_image() {
    // Each pass's mapped rows hold its row index in every byte, so the
    // assembled output shows which row landed where.
    let (width, height, rows) = (5u32, 11u32, 4u32);
    let padded = padded_bytes_per_row(width * 4);
    let mut out = Vec::new();
    for chunk in plan_chunks(height, rows) {
        assert_eq!(out.len(), (width * chunk.row_start * 3) as usize);
        let mut mapped = vec![0u8; (padded * chunk.rows) as usize];
        for r in 0..chunk.rows {
            for b in 0..padded {
                mapped[(r * padded + b) as usize] = (chunk.row_start + r) as u8;
            }
        }
        append_rgb8_rows(&mut out, &mapped, width, chunk.rows, padded);
    }
    assert_eq!(out.len(), (width * height * 3) as usize);
    for (i, &b) in out.iter().enumerate() {
        assert_eq!(b as usize, i / (width as usize * 3));
    }
}
