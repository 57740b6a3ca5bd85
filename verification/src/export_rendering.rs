//! The CPU side of the export renderer: the uniform buffers handed to the
//! shaders, the validation that runs before the GPU is touched, the chunking
//! of the image into passes, and the unpacking of each pass's padded readback
//! into tightly packed RGB.
//!
//! Slider and view values are IEEE-754 single-precision numbers; this module
//! carries each as its 32-bit pattern, which is exactly what the uniform
//! buffer holds.
use vstd::prelude::*;

use crate::color::F32_ONE_BITS;
use crate::le_bytes::{byte_of_u16, lemma_words32_round_trip, read_le16, read_le32_at, words32_bytes};
use vstd::arithmetic::div_mod::lemma_fundamental_div_mod_converse;

verus! {

/// Size of the `Params` struct written by calcParams.wgsl and read by
/// develop.wgsl / histogram.wgsl.
pub const PARAMS_BYTES: u64 = 256;

/// Size of the `Sliders` uniform consumed by calcParams.wgsl. The struct's 30
/// f32 fields occupy 120 bytes; a uniform struct is bound 16-aligned, so the
/// last 8 bytes are tail padding and are never written.
pub const SLIDERS_BYTES: usize = 128;

/// Number of f32 fields in the `Sliders` struct, ahead of the tail padding.
pub const SLIDER_COUNT: usize = 30;

/// Size of the `View` uniform consumed by calcParams.wgsl. Three f32 of
/// payload, padded to the 16 bytes a uniform struct binds at.
pub const VIEW_BYTES: usize = 16;

/// Rows rendered per GPU pass. Bounds peak VRAM for very large images.
pub const CHUNK_ROWS: u32 = 512;

/// Bit pattern of the single-precision 255.0.
pub const F32_255_BITS: u32 = 0x437f_0000;

/// Bit pattern of the single-precision 5500.0.
pub const F32_5500_BITS: u32 = 0x45ab_e000;

// ── Sliders payload ──────────────────────────────────────────────────────────

/// Every develop slider. Each numeric field holds the IEEE-754 bit pattern of
/// the slider's `f32` value.
pub struct SlidersPayload {
    pub invert: bool,
    pub red_black_point: u32,
    pub green_black_point: u32,
    pub blue_black_point: u32,
    pub red_white_point: u32,
    pub green_white_point: u32,
    pub blue_white_point: u32,
    pub rgb_output_black: u32,
    pub rgb_output_white: u32,
    pub red_gamma: u32,
    pub green_gamma: u32,
    pub blue_gamma: u32,
    pub wb_temp: u32,
    pub wb_tint: u32,
    pub exposure: u32,
    pub contrast: u32,
    pub brightness: u32,
    pub highlights: u32,
    pub shadows: u32,
    pub whites: u32,
    pub blacks: u32,
    pub saturation: u32,
    pub vibrance: u32,
    pub hue: u32,
    pub clarity: u32,
    pub texture: u32,
    pub usm_amount: u32,
    pub usm_radius: u32,
    pub usm_luma_threshold: u32,
    pub usm_detail_threshold: u32,
}

/// The neutral sliders: every control at the value that makes the develop
/// chain a mathematical no-op.
pub open spec fn neutral_sliders() -> SlidersPayload {
    SlidersPayload {
        invert: false,
        red_black_point: 0,
        green_black_point: 0,
        blue_black_point: 0,
        red_white_point: F32_255_BITS,
        green_white_point: F32_255_BITS,
        blue_white_point: F32_255_BITS,
        rgb_output_black: 0,
        rgb_output_white: F32_255_BITS,
        red_gamma: F32_ONE_BITS,
        green_gamma: F32_ONE_BITS,
        blue_gamma: F32_ONE_BITS,
        wb_temp: F32_5500_BITS,
        wb_tint: 0,
        exposure: 0,
        contrast: 0,
        brightness: 0,
        highlights: 0,
        shadows: 0,
        whites: 0,
        blacks: 0,
        saturation: 0,
        vibrance: 0,
        hue: 0,
        clarity: 0,
        texture: 0,
        usm_amount: 0,
        usm_radius: F32_ONE_BITS,
        usm_luma_threshold: 0,
        usm_detail_threshold: 0,
    }
}

impl Default for SlidersPayload {
    /// Neutral sliders — the values that make the develop chain a no-op.
    fn default() -> (s: Self)
        ensures
            s == neutral_sliders(),
    {
        SlidersPayload {
            invert: false,
            red_black_point: 0,
            green_black_point: 0,
            blue_black_point: 0,
            red_white_point: F32_255_BITS,
            green_white_point: F32_255_BITS,
            blue_white_point: F32_255_BITS,
            rgb_output_black: 0,
            rgb_output_white: F32_255_BITS,
            red_gamma: F32_ONE_BITS,
            green_gamma: F32_ONE_BITS,
            blue_gamma: F32_ONE_BITS,
            wb_temp: F32_5500_BITS,
            wb_tint: 0,
            exposure: 0,
            contrast: 0,
            brightness: 0,
            highlights: 0,
            shadows: 0,
            whites: 0,
            blacks: 0,
            saturation: 0,
            vibrance: 0,
            hue: 0,
            clarity: 0,
            texture: 0,
            usm_amount: 0,
            usm_radius: F32_ONE_BITS,
            usm_luma_threshold: 0,
            usm_detail_threshold: 0,
        }
    }
}

/// The thirty words of the WGSL `Sliders` struct, in declaration order; the
/// inversion flag is 1.0 or 0.0.
pub open spec fn slider_words(s: SlidersPayload) -> Seq<u32> {
    seq![
        if s.invert { F32_ONE_BITS } else { 0u32 },
        s.red_black_point,
        s.green_black_point,
        s.blue_black_point,
        s.red_white_point,
        s.green_white_point,
        s.blue_white_point,
        s.rgb_output_black,
        s.rgb_output_white,
        s.red_gamma,
        s.green_gamma,
        s.blue_gamma,
        s.wb_temp,
        s.wb_tint,
        s.exposure,
        s.contrast,
        s.brightness,
        s.highlights,
        s.shadows,
        s.whites,
        s.blacks,
        s.saturation,
        s.vibrance,
        s.hue,
        s.clarity,
        s.texture,
        s.usm_amount,
        s.usm_radius,
        s.usm_luma_threshold,
        s.usm_detail_threshold,
    ]
}

/// `n` zero bytes.
pub open spec fn zeros(n: nat) -> Seq<u8> {
    Seq::new(n, |i: int| 0u8)
}

/// The uniform buffer of a `Sliders` struct: its words little-endian, then
/// zero tail padding.
pub open spec fn sliders_buffer(s: SlidersPayload) -> Seq<u8> {
    words32_bytes(slider_words(s)) + zeros(8)
}

/// Writes `words` little-endian over the front of a zeroed array.
fn pack_words<const N: usize>(words: &[u32]) -> (bytes: [u8; N])
    requires
        4 * words@.len() <= N,
    ensures
        bytes@ == words32_bytes(words@) + zeros((N - 4 * words@.len()) as nat),
{
    let mut bytes: [u8; N] = [0u8; N];
    let mut i: usize = 0;
    while i < words.len()
        invariant
            i <= words@.len(),
            4 * words@.len() <= N,
            bytes@.len() == N,
            forall|j: int| 0 <= j < 4 * i ==> #[trigger] bytes@[j] == words32_bytes(words@)[j],
            forall|j: int| 4 * i <= j < N ==> #[trigger] bytes@[j] == 0u8,
        decreases words@.len() - i,
    {
        let v = words[i];
        let at = 4 * i;
        bytes[at] = (v % 256) as u8;
        bytes[at + 1] = ((v / 256) % 256) as u8;
        bytes[at + 2] = ((v / 65536) % 256) as u8;
        bytes[at + 3] = (v / 16777216) as u8;
        proof {
            assert forall|j: int| 0 <= j < 4 * (i + 1) implies #[trigger] bytes@[j] == words32_bytes(words@)[j] by {
                if j >= 4 * i {
                    assert(j / 4 == i as int);
                    assert(j % 4 == j - 4 * i);
                }
            }
        }
        i = i + 1;
    }
    assert(bytes@ =~= words32_bytes(words@) + zeros((N - 4 * words@.len()) as nat));
    bytes
}

/// Pack sliders into the uniform buffer matching the WGSL Sliders struct.
///
/// The order here must match `Sliders` in calcParams.wgsl and `slidersToArray`
/// in calcParamsPipeline.ts — all three are the same struct viewed from three
/// languages.
pub fn sliders_to_bytes(s: &SlidersPayload) -> (bytes: [u8; 128])
    ensures
        bytes@ == sliders_buffer(*s),
{
    let values: [u32; 30] = [
        if s.invert { F32_ONE_BITS } else { 0u32 },
        s.red_black_point,
        s.green_black_point,
        s.blue_black_point,
        s.red_white_point,
        s.green_white_point,
        s.blue_white_point,
        s.rgb_output_black,
        s.rgb_output_white,
        s.red_gamma,
        s.green_gamma,
        s.blue_gamma,
        s.wb_temp,
        s.wb_tint,
        s.exposure,
        s.contrast,
        s.brightness,
        s.highlights,
        s.shadows,
        s.whites,
        s.blacks,
        s.saturation,
        s.vibrance,
        s.hue,
        s.clarity,
        s.texture,
        s.usm_amount,
        s.usm_radius,
        s.usm_luma_threshold,
        s.usm_detail_threshold,
    ];
    assert(values@ =~= slider_words(*s));
    pack_words::<128>(values.as_slice())
}

/// Where each slider lands in the uniform buffer: lane `i` (bytes `4i` to
/// `4i + 4`, little-endian) holds the field the WGSL `Sliders` struct declares
/// `i`-th — the inversion flag as 1.0 or 0.0, then the black points, white
/// points, output range, gammas, white balance, exposure (lane 14), contrast
/// (lane 15) and the rest in order — and the last eight bytes are zero.
pub proof fn lemma_slider_lanes(s: SlidersPayload)
    ensures
        read_le32_at(sliders_buffer(s), 0) == if s.invert { F32_ONE_BITS } else { 0u32 },
        read_le32_at(sliders_buffer(s), 1) == s.red_black_point,
        read_le32_at(sliders_buffer(s), 2) == s.green_black_point,
        read_le32_at(sliders_buffer(s), 3) == s.blue_black_point,
        read_le32_at(sliders_buffer(s), 4) == s.red_white_point,
        read_le32_at(sliders_buffer(s), 5) == s.green_white_point,
        read_le32_at(sliders_buffer(s), 6) == s.blue_white_point,
        read_le32_at(sliders_buffer(s), 7) == s.rgb_output_black,
        read_le32_at(sliders_buffer(s), 8) == s.rgb_output_white,
        read_le32_at(sliders_buffer(s), 9) == s.red_gamma,
        read_le32_at(sliders_buffer(s), 10) == s.green_gamma,
        read_le32_at(sliders_buffer(s), 11) == s.blue_gamma,
        read_le32_at(sliders_buffer(s), 12) == s.wb_temp,
        read_le32_at(sliders_buffer(s), 13) == s.wb_tint,
        read_le32_at(sliders_buffer(s), 14) == s.exposure,
        read_le32_at(sliders_buffer(s), 15) == s.contrast,
        read_le32_at(sliders_buffer(s), 16) == s.brightness,
        read_le32_at(sliders_buffer(s), 17) == s.highlights,
        read_le32_at(sliders_buffer(s), 18) == s.shadows,
        read_le32_at(sliders_buffer(s), 19) == s.whites,
        read_le32_at(sliders_buffer(s), 20) == s.blacks,
        read_le32_at(sliders_buffer(s), 21) == s.saturation,
        read_le32_at(sliders_buffer(s), 22) == s.vibrance,
        read_le32_at(sliders_buffer(s), 23) == s.hue,
        read_le32_at(sliders_buffer(s), 24) == s.clarity,
        read_le32_at(sliders_buffer(s), 25) == s.texture,
        read_le32_at(sliders_buffer(s), 26) == s.usm_amount,
        read_le32_at(sliders_buffer(s), 27) == s.usm_radius,
        read_le32_at(sliders_buffer(s), 28) == s.usm_luma_threshold,
        read_le32_at(sliders_buffer(s), 29) == s.usm_detail_threshold,
        sliders_buffer(s).len() == 128,
        forall|j: int| 120 <= j < 128 ==> #[trigger] sliders_buffer(s)[j] == 0u8,
{
    let w = slider_words(s);
    let b = sliders_buffer(s);
    lemma_words32_round_trip(w);
    assert forall|i: int| 0 <= i < 30 implies #[trigger] read_le32_at(b, i) == w[i] by {
        assert(b.subrange(4 * i, 4 * i + 4) =~= words32_bytes(w).subrange(4 * i, 4 * i + 4));
        assert(read_le32_at(words32_bytes(w), i) == w[i]);
    }
    assert(read_le32_at(b, 0) == w[0]);
    assert(read_le32_at(b, 1) == w[1]);
    assert(read_le32_at(b, 2) == w[2]);
    assert(read_le32_at(b, 3) == w[3]);
    assert(read_le32_at(b, 4) == w[4]);
    assert(read_le32_at(b, 5) == w[5]);
    assert(read_le32_at(b, 6) == w[6]);
    assert(read_le32_at(b, 7) == w[7]);
    assert(read_le32_at(b, 8) == w[8]);
    assert(read_le32_at(b, 9) == w[9]);
    assert(read_le32_at(b, 10) == w[10]);
    assert(read_le32_at(b, 11) == w[11]);
    assert(read_le32_at(b, 12) == w[12]);
    assert(read_le32_at(b, 13) == w[13]);
    assert(read_le32_at(b, 14) == w[14]);
    assert(read_le32_at(b, 15) == w[15]);
    assert(read_le32_at(b, 16) == w[16]);
    assert(read_le32_at(b, 17) == w[17]);
    assert(read_le32_at(b, 18) == w[18]);
    assert(read_le32_at(b, 19) == w[19]);
    assert(read_le32_at(b, 20) == w[20]);
    assert(read_le32_at(b, 21) == w[21]);
    assert(read_le32_at(b, 22) == w[22]);
    assert(read_le32_at(b, 23) == w[23]);
    assert(read_le32_at(b, 24) == w[24]);
    assert(read_le32_at(b, 25) == w[25]);
    assert(read_le32_at(b, 26) == w[26]);
    assert(read_le32_at(b, 27) == w[27]);
    assert(read_le32_at(b, 28) == w[28]);
    assert(read_le32_at(b, 29) == w[29]);
}

// ── View payload ─────────────────────────────────────────────────────────────

/// Where a render sits relative to the full-resolution image. Each field
/// holds the IEEE-754 bit pattern of an `f32`.
///
/// Sliders measured in image pixels mean full-resolution pixels, so a render
/// working on a downscaled surface has to scale them; radii given as a
/// fraction of the image need the whole image's dimensions.
pub struct ViewPayload {
    /// Rendered pixels per full-resolution image pixel.
    pub render_scale: u32,
    /// Width of the full-resolution image, in pixels.
    pub full_width: u32,
    /// Height of the full-resolution image, in pixels.
    pub full_height: u32,
}

impl Default for ViewPayload {
    /// Full resolution — the export path never renders anywhere else. The
    /// image's dimensions are unknown here and left at 0.0.
    fn default() -> (v: Self)
        ensures
            v.render_scale == F32_ONE_BITS,
            v.full_width == 0,
            v.full_height == 0,
    {
        ViewPayload { render_scale: F32_ONE_BITS, full_width: 0, full_height: 0 }
    }
}

/// The uniform buffer of a `View` struct: scale, full width and full height
/// little-endian, then zero tail padding.
pub open spec fn view_buffer(v: ViewPayload) -> Seq<u8> {
    words32_bytes(seq![v.render_scale, v.full_width, v.full_height]) + zeros(4)
}

/// Pack the view into the uniform buffer matching the WGSL `View` struct.
pub fn view_to_bytes(v: &ViewPayload) -> (bytes: [u8; 16])
    ensures
        bytes@ == view_buffer(*v),
{
    let words: [u32; 3] = [v.render_scale, v.full_width, v.full_height];
    assert(words@ =~= seq![v.render_scale, v.full_width, v.full_height]);
    pack_words::<16>(words.as_slice())
}

/// Where the view lands in its uniform buffer: lane 0 holds the render scale,
/// lane 1 the full width, lane 2 the full height, and the last four bytes are
/// zero.
pub proof fn lemma_view_lanes(v: ViewPayload)
    ensures
        read_le32_at(view_buffer(v), 0) == v.render_scale,
        read_le32_at(view_buffer(v), 1) == v.full_width,
        read_le32_at(view_buffer(v), 2) == v.full_height,
        view_buffer(v).len() == 16,
        forall|j: int| 12 <= j < 16 ==> #[trigger] view_buffer(v)[j] == 0u8,
{
    let w = seq![v.render_scale, v.full_width, v.full_height];
    let b = view_buffer(v);
    lemma_words32_round_trip(w);
    assert forall|i: int| 0 <= i < 3 implies #[trigger] read_le32_at(b, i) == w[i] by {
        assert(b.subrange(4 * i, 4 * i + 4) =~= words32_bytes(w).subrange(4 * i, 4 * i + 4));
        assert(read_le32_at(words32_bytes(w), i) == w[i]);
    }
    assert(read_le32_at(b, 0) == w[0]);
    assert(read_le32_at(b, 1) == w[1]);
    assert(read_le32_at(b, 2) == w[2]);
}

// ── Input validation ─────────────────────────────────────────────────────────

/// Why a render request is refused before the GPU is touched.
pub enum RenderInputError {
    /// A dimension is zero.
    EmptyImage { width: u32, height: u32 },
    /// The chunk height is zero.
    ZeroChunkRows,
    /// The pixel buffer does not hold `width × height` RGBA pixels.
    PixelCountMismatch { got: usize, expected: usize },
}

/// Samples in an interleaved RGBA image of the given size.
pub open spec fn rgba_samples(width: u32, height: u32) -> int {
    width * height * 4
}

/// The verdict on a render request, checked in this order: empty image,
/// zero chunk height, wrong buffer length.
pub open spec fn render_input_verdict(
    pixel_len: usize,
    width: u32,
    height: u32,
    chunk_rows: u32,
) -> Result<(), RenderInputError> {
    if width == 0 || height == 0 {
        Err(RenderInputError::EmptyImage { width, height })
    } else if chunk_rows == 0 {
        Err(RenderInputError::ZeroChunkRows)
    } else if pixel_len != rgba_samples(width, height) {
        Err(
            RenderInputError::PixelCountMismatch {
                got: pixel_len,
                expected: rgba_samples(width, height) as usize,
            },
        )
    } else {
        Ok(())
    }
}

/// Reject malformed input: an empty image, a zero chunk height, or a pixel
/// buffer that is not `width × height` interleaved RGBA.
pub fn validate_render_input(pixel_len: usize, width: u32, height: u32, chunk_rows: u32) -> (r: Result<
    (),
    RenderInputError,
>)
    requires
        rgba_samples(width, height) <= usize::MAX,
    ensures
        r == render_input_verdict(pixel_len, width, height, chunk_rows),
        r is Ok <==> width > 0 && height > 0 && chunk_rows > 0 && pixel_len == width * height * 4,
{
    if width == 0 || height == 0 {
        return Err(RenderInputError::EmptyImage { width, height });
    }
    if chunk_rows == 0 {
        return Err(RenderInputError::ZeroChunkRows);
    }
    proof {
        assert(0 <= (width as int) * (height as int)) by (nonlinear_arith);
    }
    let expected = (width as usize) * (height as usize) * 4;
    if pixel_len != expected {
        return Err(RenderInputError::PixelCountMismatch { got: pixel_len, expected });
    }
    Ok(())
}

/// A render request is accepted exactly when the image is non-empty, passes
/// have a height, and the buffer holds `width × height` RGBA samples, no
/// more and no fewer; a wrong length is reported with the length found and
/// the length expected.
pub proof fn lemma_render_input_accepted_exactly(pixel_len: usize, width: u32, height: u32, chunk_rows: u32)
    requires
        width * height * 4 <= usize::MAX,
    ensures
        render_input_verdict(pixel_len, width, height, chunk_rows) is Ok <==> width > 0 && height > 0
            && chunk_rows > 0 && pixel_len == width * height * 4,
        render_input_verdict(pixel_len, width, height, chunk_rows) matches Err(
            RenderInputError::PixelCountMismatch { got, expected },
        ) ==> got == pixel_len && expected == width * height * 4 && got != expected,
{
}

// ── Chunking ─────────────────────────────────────────────────────────────────

/// One GPU pass: `rows` rows starting at `row_start`.
pub struct RowChunk {
    pub row_start: u32,
    pub rows: u32,
}

/// The `i`-th pass when `height` rows are rendered `chunk_rows` at a time:
/// every pass is `chunk_rows` high except a shorter final one.
pub open spec fn nth_chunk(height: u32, chunk_rows: u32, i: int) -> RowChunk {
    let start = i * chunk_rows;
    RowChunk {
        row_start: start as u32,
        rows: if start + chunk_rows <= height {
            chunk_rows
        } else {
            (height - start) as u32
        },
    }
}

/// Number of passes needed to cover `height` rows.
pub open spec fn chunk_count(height: u32, chunk_rows: u32) -> int {
    (height + chunk_rows - 1) / chunk_rows as int
}

proof fn lemma_chunk_count(h: int, c: int, n: int)
    requires
        c > 0,
        h >= 0,
        n >= 0,
        n * c >= h,
        n == 0 || (n - 1) * c < h,
    ensures
        n == (h + c - 1) / c,
{
    if h == 0 {
        if n != 0 {
            assert((n - 1) * c >= 0) by (nonlinear_arith)
                requires n >= 1, c > 0;
        }
        lemma_fundamental_div_mod_converse(c - 1, c, 0, c - 1);
    } else {
        assert(n * c == (n - 1) * c + c) by (nonlinear_arith);
        lemma_fundamental_div_mod_converse(h + c - 1, c, n, h + c - 1 - n * c);
    }
}

proof fn lemma_chunk_count_bounds(h: int, c: int)
    requires
        c > 0,
        h >= 0,
    ensures
        ((h + c - 1) / c) * c >= h,
        h == 0 || (((h + c - 1) / c) - 1) * c < h,
        h > 0 ==> (h + c - 1) / c >= 1,
        (h + c - 1) / c >= 0,
{
    let n = (h + c - 1) / c;
    vstd::arithmetic::div_mod::lemma_fundamental_div_mod(h + c - 1, c);
    vstd::arithmetic::div_mod::lemma_mod_pos_bound(h + c - 1, c);
    assert(h + c - 1 == c * n + (h + c - 1) % c);
    assert(c * n == n * c) by (nonlinear_arith);
    assert(n * c == (n - 1) * c + c) by (nonlinear_arith);
    if h > 0 {
        assert(n >= 1) by (nonlinear_arith)
            requires h + c - 1 == n * c + (h + c - 1) % c, (h + c - 1) % c < c, h > 0, c > 0;
    }
    assert(n >= 0) by (nonlinear_arith)
        requires h + c - 1 == n * c + (h + c - 1) % c, (h + c - 1) % c < c, h >= 0, c > 0;
}

/// The passes that render `height` rows `chunk_rows` at a time, top to bottom.
pub fn plan_chunks(height: u32, chunk_rows: u32) -> (plan: Vec<RowChunk>)
    requires
        chunk_rows > 0,
    ensures
        plan@.len() == chunk_count(height, chunk_rows),
        forall|i: int| 0 <= i < plan@.len() ==> #[trigger] plan@[i] == nth_chunk(height, chunk_rows, i),
{
    let ghost c = chunk_rows as int;
    let ghost h = height as int;
    let mut plan: Vec<RowChunk> = Vec::new();
    let mut row_start: u32 = 0;
    assert(0 * c == 0);
    while row_start < height
        invariant
            c == chunk_rows,
            h == height,
            c > 0,
            row_start <= height,
            row_start == (if plan@.len() * c <= h { plan@.len() * c } else { h }),
            plan@.len() == 0 || (plan@.len() - 1) * c < h,
            forall|i: int| 0 <= i < plan@.len() ==> #[trigger] plan@[i] == nth_chunk(height, chunk_rows, i),
        decreases height - row_start,
    {
        let ghost n = plan@.len() as int;
        let remaining = height - row_start;
        let rows = if chunk_rows <= remaining { chunk_rows } else { remaining };
        plan.push(RowChunk { row_start, rows });
        row_start = row_start + rows;
        proof {
            assert((n + 1) * c == n * c + c) by (nonlinear_arith);
            assert(plan@[n] == nth_chunk(height, chunk_rows, n));
        }
    }
    proof {
        let n = plan@.len() as int;
        assert(n * c >= h);
        assert(n >= 0);
        lemma_chunk_count(h, c, n);
    }
    plan
}

/// The passes tile the image: each starts where the previous one ended, the
/// first starts at row 0, the last ends at the bottom row, and none is empty
/// or taller than `chunk_rows`.
pub proof fn lemma_chunks_tile_the_image(height: u32, chunk_rows: u32)
    requires
        chunk_rows > 0,
        height > 0,
    ensures
        nth_chunk(height, chunk_rows, 0).row_start == 0,
        forall|i: int|
            0 <= i < chunk_count(height, chunk_rows) ==> 0 < (#[trigger] nth_chunk(
                height,
                chunk_rows,
                i,
            )).rows <= chunk_rows,
        forall|i: int|
            0 <= i < chunk_count(height, chunk_rows) - 1 ==> (#[trigger] nth_chunk(
                height,
                chunk_rows,
                i + 1,
            )).row_start == nth_chunk(height, chunk_rows, i).row_start + nth_chunk(
                height,
                chunk_rows,
                i,
            ).rows,
        ({
            let last = nth_chunk(height, chunk_rows, chunk_count(height, chunk_rows) - 1);
            last.row_start + last.rows == height
        }),
{
    let c = chunk_rows as int;
    let h = height as int;
    let n = chunk_count(height, chunk_rows);
    lemma_chunk_count_bounds(h, c);
    assert(0 * c == 0);
    assert forall|i: int| 0 <= i < n implies 0 < (#[trigger] nth_chunk(height, chunk_rows, i)).rows <= chunk_rows by {
        assert(i * c <= (n - 1) * c) by (nonlinear_arith)
            requires i <= n - 1, c > 0;
        assert(0 <= i * c) by (nonlinear_arith)
            requires i >= 0, c > 0;
    }
    assert forall|i: int| 0 <= i < n - 1 implies (#[trigger] nth_chunk(height, chunk_rows, i + 1)).row_start
        == nth_chunk(height, chunk_rows, i).row_start + nth_chunk(height, chunk_rows, i).rows by {
        assert((i + 1) * c <= (n - 1) * c) by (nonlinear_arith)
            requires i + 1 <= n - 1, c > 0;
        assert((i + 1) * c == i * c + c) by (nonlinear_arith);
        assert(0 <= i * c) by (nonlinear_arith)
            requires i >= 0, c > 0;
    }
    assert(0 <= (n - 1) * c) by (nonlinear_arith)
        requires n >= 1, c > 0;
    assert(n * c == (n - 1) * c + c) by (nonlinear_arith);
}

// ── Readback ─────────────────────────────────────────────────────────────────

/// Bytes per texel of the output texture: `Rgba16Float` at 16 bits and
/// above, `Rgba8Unorm` otherwise.
pub open spec fn texel_bytes(bit_depth: u8) -> u32 {
    if bit_depth >= 16 { 8 } else { 4 }
}

/// Bytes per pixel of the returned RGB buffer: three u16 LE at 16 bits and
/// above, three u8 otherwise.
pub open spec fn output_pixel_bytes(bit_depth: u8) -> usize {
    if bit_depth >= 16 { 6 } else { 3 }
}

/// Bytes per texel of the output texture for `bit_depth`.
pub fn bytes_per_texel(bit_depth: u8) -> (n: u32)
    ensures
        n == texel_bytes(bit_depth),
{
    if bit_depth >= 16 { 8 } else { 4 }
}

/// Bytes per pixel of the returned RGB buffer for `bit_depth`.
pub fn bytes_per_output_pixel(bit_depth: u8) -> (n: usize)
    ensures
        n == output_pixel_bytes(bit_depth),
{
    if bit_depth >= 16 { 6 } else { 3 }
}

/// Readback rows are padded to a multiple of 256 bytes: the smallest such
/// multiple that holds `unpadded` bytes.
pub fn padded_bytes_per_row(unpadded: u32) -> (padded: u32)
    requires
        unpadded <= u32::MAX - 255,
    ensures
        padded % 256 == 0,
        unpadded <= padded < unpadded + 256,
{
    let sum = unpadded + 255;
    let padded = sum & !255u32;
    assert(padded % 256 == 0 && unpadded <= padded && padded < unpadded + 256) by (bit_vector)
        requires
            padded == sum & !255u32,
            sum == unpadded + 255,
            unpadded <= 0xffff_ff00u32,
    ;
    padded
}

/// Byte `j` of the RGB8 pixels unpacked from padded `Rgba8Unorm` rows: channel
/// `j % 3` of texel `(j / 3) % width` of row `(j / 3) / width`.
pub open spec fn rgb8_byte(mapped: Seq<u8>, width: int, padded: int, j: int) -> u8 {
    let px = j / 3;
    mapped[(px / width) * padded + (px % width) * 4 + j % 3]
}

/// The RGB8 pixels of `rows` padded readback rows, alpha dropped.
pub open spec fn rgb8_rows(mapped: Seq<u8>, width: u32, rows: u32, padded: u32) -> Seq<u8> {
    Seq::new((width * rows * 3) as nat, |j: int| rgb8_byte(mapped, width as int, padded as int, j))
}

proof fn lemma_texel_index(row: int, col: int, width: int, k: int, j: int)
    requires
        0 <= row,
        0 <= col < width,
        1 <= k,
        0 <= j - (row * width + col) * k < k,
    ensures
        j / k == row * width + col,
        (j / k) / width == row,
        (j / k) % width == col,
        j % k == j - (row * width + col) * k,
{
    let px = row * width + col;
    lemma_fundamental_div_mod_converse(j, k, px, j - px * k);
    lemma_fundamental_div_mod_converse(px, width, row, col);
}

proof fn lemma_row_in_bounds(row: int, col: int, width: int, rows: int, padded: int, texel: int, len: int)
    requires
        0 <= row < rows,
        0 <= col < width,
        width * texel <= padded,
        rows * padded <= len,
        texel > 0,
    ensures
        0 <= row * padded,
        row * padded + col * texel + texel <= len,
        row * padded + padded <= len,
{
    assert(row * padded + col * texel + texel <= row * padded + width * texel) by (nonlinear_arith)
        requires col < width, texel > 0;
    assert(row * padded + padded <= rows * padded) by (nonlinear_arith)
        requires row < rows, padded >= 0;
    assert(0 <= row * padded) by (nonlinear_arith)
        requires row >= 0, padded >= 0;
}

/// Append the RGB bytes of `rows` padded `Rgba8Unorm` readback rows to `out`,
/// dropping alpha and the row padding.
pub fn append_rgb8_rows(out: &mut Vec<u8>, mapped: &[u8], width: u32, rows: u32, padded: u32)
    requires
        width * 4 <= padded,
        rows * padded <= mapped@.len(),
    ensures
        final(out)@ == old(out)@ + rgb8_rows(mapped@, width, rows, padded),
{
    let ghost start = out@;
    let ghost spec = rgb8_rows(mapped@, width, rows, padded);
    let ghost w = width as int;
    let mlen = mapped.len();
    let mut row: u32 = 0;
    while row < rows
        invariant
            mlen == mapped@.len(),
            width * 4 <= padded,
            rows * padded <= mapped@.len(),
            spec == rgb8_rows(mapped@, width, rows, padded),
            w == width,
            row <= rows,
            out@.len() == start.len() + row * w * 3,
            forall|j: int| 0 <= j < start.len() ==> out@[j] == start[j],
            forall|j: int| 0 <= j < row * w * 3 ==> #[trigger] out@[start.len() + j] == rgb8_byte(mapped@, w, padded as int, j),
        decreases rows - row,
    {
        let mut col: u32 = 0;
        while col < width
            invariant
                mlen == mapped@.len(),
                width * 4 <= padded,
                rows * padded <= mapped@.len(),
                w == width,
                row < rows,
                col <= width,
                out@.len() == start.len() + (row * w + col) * 3,
                forall|j: int| 0 <= j < start.len() ==> out@[j] == start[j],
                forall|j: int| 0 <= j < (row * w + col) * 3 ==> #[trigger] out@[start.len() + j] == rgb8_byte(mapped@, w, padded as int, j),
            decreases width - col,
        {
            proof {
                lemma_row_in_bounds(row as int, col as int, w, rows as int, padded as int, 4, mapped@.len() as int);
            }
            let s = (row as usize) * (padded as usize) + (col as usize) * 4;
            out.push(mapped[s]);
            out.push(mapped[s + 1]);
            out.push(mapped[s + 2]);
            proof {
                let base = (row * w + col) * 3;
                assert forall|j: int| 0 <= j < base + 3 implies #[trigger] out@[start.len() + j] == rgb8_byte(mapped@, w, padded as int, j) by {
                    if j >= base {
                        lemma_texel_index(row as int, col as int, w, 3, j);
                    }
                }
                assert(base + 3 == (row * w + col + 1) * 3);
            }
            col = col + 1;
        }
        proof {
            assert((row * w + w) * 3 == (row + 1) * w * 3) by (nonlinear_arith);
        }
        row = row + 1;
    }
    proof {
        assert(row * w * 3 == w * (rows as int) * 3) by (nonlinear_arith)
            requires row == rows;
        assert forall|k: int| start.len() <= k < out@.len() implies out@[k] == (start + spec)[k] by {
            let j = k - start.len();
            assert(out@[start.len() + j] == rgb8_byte(mapped@, w, padded as int, j));
        }
        assert(out@ =~= start + spec);
    }
}

/// Byte `j` of the RGB16 pixels unpacked from padded `Rgba16Float` rows:
/// channel `(j % 6) / 2` of texel `(j / 6) % width` of row `(j / 6) / width`,
/// converted through `code` from its half-float bit pattern to a 16-bit code
/// value, little-endian.
pub open spec fn rgb16_byte(mapped: Seq<u8>, width: int, padded: int, code: Seq<u16>, j: int) -> u8 {
    let px = j / 6;
    let at = (px / width) * padded + (px % width) * 8 + 2 * ((j % 6) / 2);
    byte_of_u16(code[read_le16(mapped.subrange(at, at + 2))], j % 2)
}

/// The RGB16 pixels of `rows` padded readback rows, alpha dropped.
pub open spec fn rgb16_rows(mapped: Seq<u8>, width: u32, rows: u32, padded: u32, code: Seq<u16>) -> Seq<u8> {
    Seq::new(
        (width * rows * 6) as nat,
        |j: int| rgb16_byte(mapped, width as int, padded as int, code, j),
    )
}

/// Append the RGB bytes of `rows` padded `Rgba16Float` readback rows to `out`,
/// dropping alpha and the row padding. `code[h]` is the 16-bit code value of
/// the half float with bit pattern `h`.
pub fn append_rgb16_rows(
    out: &mut Vec<u8>,
    mapped: &[u8],
    width: u32,
    rows: u32,
    padded: u32,
    code: &[u16],
)
    requires
        width * 8 <= padded,
        rows * padded <= mapped@.len(),
        code@.len() == 65536,
    ensures
        final(out)@ == old(out)@ + rgb16_rows(mapped@, width, rows, padded, code@),
{
    let ghost start = out@;
    let ghost spec = rgb16_rows(mapped@, width, rows, padded, code@);
    let ghost w = width as int;
    let mlen = mapped.len();
    let mut row: u32 = 0;
    while row < rows
        invariant
            mlen == mapped@.len(),
            width * 8 <= padded,
            rows * padded <= mapped@.len(),
            code@.len() == 65536,
            spec == rgb16_rows(mapped@, width, rows, padded, code@),
            w == width,
            row <= rows,
            out@.len() == start.len() + row * w * 6,
            forall|j: int| 0 <= j < start.len() ==> out@[j] == start[j],
            forall|j: int|
                0 <= j < row * w * 6 ==> #[trigger] out@[start.len() + j] == rgb16_byte(
                    mapped@,
                    w,
                    padded as int,
                    code@,
                    j,
                ),
        decreases rows - row,
    {
        let mut col: u32 = 0;
        while col < width
            invariant
                mlen == mapped@.len(),
                width * 8 <= padded,
                rows * padded <= mapped@.len(),
                code@.len() == 65536,
                w == width,
                row < rows,
                col <= width,
                out@.len() == start.len() + (row * w + col) * 6,
                forall|j: int| 0 <= j < start.len() ==> out@[j] == start[j],
                forall|j: int|
                    0 <= j < (row * w + col) * 6 ==> #[trigger] out@[start.len() + j] == rgb16_byte(
                        mapped@,
                        w,
                        padded as int,
                        code@,
                        j,
                    ),
            decreases width - col,
        {
            proof {
                lemma_row_in_bounds(row as int, col as int, w, rows as int, padded as int, 8, mapped@.len() as int);
            }
            let s = (row as usize) * (padded as usize) + (col as usize) * 8;
            let ghost base = (row * w + col) * 6;
            let mut c: usize = 0;
            while c < 3
                invariant
                    mlen == mapped@.len(),
                    c <= 3,
                    s + 8 <= mapped@.len(),
                    code@.len() == 65536,
                    s == row * padded + col * 8,
                    w == width,
                    row < rows,
                    col < width,
                    base == (row * w + col) * 6,
                    out@.len() == start.len() + base + 2 * c,
                    forall|j: int| 0 <= j < start.len() ==> out@[j] == start[j],
                    forall|j: int|
                        0 <= j < base + 2 * c ==> #[trigger] out@[start.len() + j] == rgb16_byte(
                            mapped@,
                            w,
                            padded as int,
                            code@,
                            j,
                        ),
                decreases 3 - c,
            {
                let lo = mapped[s + 2 * c];
                let hi = mapped[s + 2 * c + 1];
                let h = (lo as u16) + 256 * (hi as u16);
                let v = code[h as usize];
                out.push((v % 256) as u8);
                out.push((v / 256) as u8);
                proof {
                    let at = s + 2 * c;
                    assert(read_le16(mapped@.subrange(at as int, at + 2)) == h);
                    assert forall|j: int| 0 <= j < base + 2 * c + 2 implies #[trigger] out@[start.len() + j] == rgb16_byte(mapped@, w, padded as int, code@, j) by {
                        if j >= base + 2 * c {
                            lemma_texel_index(row as int, col as int, w, 6, j);
                            assert(j % 6 == 2 * c + (j - base - 2 * c));
                            assert((j % 6) / 2 == c);
                            lemma_fundamental_div_mod_converse(j, 2, 3 * (row * w + col) + c, j - base - 2 * c);
                        }
                    }
                }
                c = c + 1;
            }
            proof {
                assert(base + 6 == (row * w + col + 1) * 6);
            }
            col = col + 1;
        }
        proof {
            assert((row * w + w) * 6 == (row + 1) * w * 6) by (nonlinear_arith);
        }
        row = row + 1;
    }
    proof {
        assert(row * w * 6 == w * (rows as int) * 6) by (nonlinear_arith)
            requires row == rows;
        assert forall|k: int| start.len() <= k < out@.len() implies out@[k] == (start + spec)[k] by {
            let j = k - start.len();
            assert(out@[start.len() + j] == rgb16_byte(mapped@, w, padded as int, code@, j));
        }
        assert(out@ =~= start + spec);
    }
}


// ── Assembly ─────────────────────────────────────────────────────────────────

/// Bytes of output written before pass `k` when each pass appends `width`
/// pixels of `pixel_bytes` bytes per row it renders, passes taken in plan
/// order.
pub open spec fn bytes_before(width: u32, height: u32, chunk_rows: u32, pixel_bytes: int, k: nat) -> int
    decreases k,
{
    if k == 0 {
        0
    } else {
        bytes_before(width, height, chunk_rows, pixel_bytes, (k - 1) as nat) + width * nth_chunk(
            height,
            chunk_rows,
            k - 1,
        ).rows * pixel_bytes
    }
}

/// Appending the passes' rows in plan order assembles the image: pass `k`
/// starts at the byte of its first row, `row_start × width` pixels in, and
/// the passes together write exactly `width × height` pixels. With the row
/// appenders (three bytes per pixel at 8 bits, six at 16) this is the whole
/// RGB output, rows in order.
pub proof fn lemma_chunks_assemble_the_image(width: u32, height: u32, chunk_rows: u32, pixel_bytes: int)
    requires
        chunk_rows > 0,
        height > 0,
    ensures
        forall|k: int|
            0 <= k < chunk_count(height, chunk_rows) ==> #[trigger] bytes_before(
                width,
                height,
                chunk_rows,
                pixel_bytes,
                k as nat,
            ) == width * nth_chunk(height, chunk_rows, k).row_start * pixel_bytes,
        bytes_before(width, height, chunk_rows, pixel_bytes, chunk_count(height, chunk_rows) as nat)
            == width * height * pixel_bytes,
{
    lemma_chunks_tile_the_image(height, chunk_rows);
    let n = chunk_count(height, chunk_rows);
    lemma_chunk_count_bounds(height as int, chunk_rows as int);
    assert forall|k: int| 0 <= k < n implies #[trigger] bytes_before(width, height, chunk_rows, pixel_bytes, k as nat)
        == width * nth_chunk(height, chunk_rows, k).row_start * pixel_bytes by {
        lemma_bytes_before_step(width, height, chunk_rows, pixel_bytes, k as nat);
    }
    lemma_bytes_before_step(width, height, chunk_rows, pixel_bytes, (n - 1) as nat);
    let last = nth_chunk(height, chunk_rows, n - 1);
    assert(bytes_before(width, height, chunk_rows, pixel_bytes, n as nat) == bytes_before(
        width,
        height,
        chunk_rows,
        pixel_bytes,
        (n - 1) as nat,
    ) + width * last.rows * pixel_bytes);
    assert(width * last.row_start * pixel_bytes + width * last.rows * pixel_bytes == width * (
    last.row_start + last.rows) * pixel_bytes) by (nonlinear_arith);
}

proof fn lemma_bytes_before_step(width: u32, height: u32, chunk_rows: u32, pixel_bytes: int, k: nat)
    requires
        chunk_rows > 0,
        height > 0,
        k < chunk_count(height, chunk_rows),
        nth_chunk(height, chunk_rows, 0).row_start == 0,
        forall|i: int|
            0 <= i < chunk_count(height, chunk_rows) - 1 ==> (#[trigger] nth_chunk(
                height,
                chunk_rows,
                i + 1,
            )).row_start == nth_chunk(height, chunk_rows, i).row_start + nth_chunk(
                height,
                chunk_rows,
                i,
            ).rows,
    ensures
        bytes_before(width, height, chunk_rows, pixel_bytes, k) == width * nth_chunk(
            height,
            chunk_rows,
            k as int,
        ).row_start * pixel_bytes,
    decreases k,
{
    if k > 0 {
        lemma_bytes_before_step(width, height, chunk_rows, pixel_bytes, (k - 1) as nat);
        let prev = nth_chunk(height, chunk_rows, k - 1);
        let cur = nth_chunk(height, chunk_rows, k as int);
        assert(cur == nth_chunk(height, chunk_rows, (k - 1) + 1));
        assert(cur.row_start == prev.row_start + prev.rows);
        assert(width * prev.row_start * pixel_bytes + width * prev.rows * pixel_bytes == width * (
        prev.row_start + prev.rows) * pixel_bytes) by (nonlinear_arith);
        assert(bytes_before(width, height, chunk_rows, pixel_bytes, k) == bytes_before(
            width,
            height,
            chunk_rows,
            pixel_bytes,
            (k - 1) as nat,
        ) + width * prev.rows * pixel_bytes);
    } else {
        let first = nth_chunk(height, chunk_rows, 0);
        assert(width * first.row_start * pixel_bytes == 0) by (nonlinear_arith)
            requires first.row_start == 0;
    }
}

}
