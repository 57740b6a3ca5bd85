//! Colour-space packing shared by the preview path and the export path.
//!
//! The transfer curve itself is floating point and is tabulated outside this
//! module: every function here receives its curve as a lookup table indexed by
//! the 16-bit code value, holding the IEEE-754 bit pattern of the result. What
//! is stated and proved here is everything around the curve: which sample goes
//! through which table, where each result lands in the upload buffer, and what
//! alpha becomes.
use vstd::prelude::*;

use crate::le_bytes::{byte_of_u16, byte_of_u32, words16_bytes, words32_bytes};

verus! {

/// Entries in the sRGB → linear lookup table (the full u16 domain).
pub const LUT_SIZE: usize = 65536;

/// Bytes per pixel once linearised: 4 channels × f16.
pub const LINEAR_BYTES_PER_PIXEL: usize = 8;

/// Bytes per pixel once linearised at full width: 4 channels × f32.
pub const LINEAR_F32_BYTES_PER_PIXEL: usize = 16;

/// Bit pattern of the half-precision 1.0, the alpha of an opaque upload.
pub const F16_ONE_BITS: u16 = 0x3c00;

/// Bit pattern of the single-precision 1.0, the alpha of an opaque upload.
pub const F32_ONE_BITS: u32 = 0x3f80_0000;

/// Samples per pixel a source buffer may carry: RGB, or RGB with alpha.
pub open spec fn valid_channels(channels: usize) -> bool {
    channels == 3 || channels == 4
}

/// A lookup table that covers every 16-bit code value.
pub open spec fn full_table<T>(table: Seq<T>) -> bool {
    table.len() == LUT_SIZE
}

/// Number of whole pixels in `len` interleaved samples.
pub open spec fn whole_pixels(len: int, channels: int) -> int {
    len / channels
}

// ── Gamma decode to linear u16 ───────────────────────────────────────────────

/// Sample `i` of the linear u16 buffer decoded from `src`: colour samples of a
/// whole pixel go through `lut`, alpha is copied, and samples of a trailing
/// partial pixel stay zero.
pub open spec fn decoded_sample(src: Seq<u16>, channels: int, lut: Seq<u16>, i: int) -> u16 {
    if (i / channels + 1) * channels > src.len() {
        0
    } else if i % channels < 3 {
        lut[src[i] as int]
    } else {
        src[i]
    }
}

/// The whole linear u16 buffer decoded from `src`, one sample per input sample.
pub open spec fn srgb_decoded(src: Seq<u16>, channels: int, lut: Seq<u16>) -> Seq<u16> {
    Seq::new(src.len(), |i: int| decoded_sample(src, channels, lut, i))
}

/// Gamma-decode interleaved u16 sRGB pixels into interleaved u16 *linear*
/// pixels, ready to be resampled. The channel count is preserved.
///
/// Alpha carries no gamma encoding, so where present it is passed through
/// untouched rather than sent through `lut`.
pub fn srgb_to_linear_u16(src: &[u16], channels: usize, lut: &[u16]) -> (out: Vec<u16>)
    requires
        valid_channels(channels),
        full_table(lut@),
    ensures
        out@ == srgb_decoded(src@, channels as int, lut@),
{
    let len = src.len();
    let mut out: Vec<u16> = Vec::with_capacity(len);
    let mut i: usize = 0;
    while i < len
        invariant
            valid_channels(channels),
            full_table(lut@),
            len == src@.len(),
            i <= len,
            out@ == srgb_decoded(src@, channels as int, lut@).take(i as int),
        decreases len - i,
    {
        let whole = (i / channels + 1) <= len / channels;
        proof {
            let ch = channels as int;
            assert(((i as int) / ch + 1 <= (len as int) / ch) == ((i as int / ch + 1) * ch <= len))
                by (nonlinear_arith)
                requires ch == 3 || ch == 4, 0 <= i < len;
        }
        let v: u16 = if !whole {
            0
        } else if i % channels < 3 {
            lut[src[i] as usize]
        } else {
            src[i]
        };
        out.push(v);
        i = i + 1;
        assert(out@ =~= srgb_decoded(src@, channels as int, lut@).take(i as int));
    }
    assert(out@ =~= srgb_decoded(src@, channels as int, lut@));
    out
}

// ── Packing into RGBA upload buffers ────────────────────────────────────────

/// An RGBA upload of `n` pixels at two bytes per channel: byte `j` is byte
/// `j % 2` of word `(j % 8) / 2` of pixel `j / 8`.
pub open spec fn rgba16_upload(n: int, word: spec_fn(int, int) -> u16) -> Seq<u8> {
    Seq::new((n * 8) as nat, |j: int| byte_of_u16(word(j / 8, (j % 8) / 2), j % 2))
}

/// An RGBA upload of `n` pixels at four bytes per channel: byte `j` is byte
/// `j % 4` of word `(j % 16) / 4` of pixel `j / 16`.
pub open spec fn rgba32_upload(n: int, word: spec_fn(int, int) -> u32) -> Seq<u8> {
    Seq::new((n * 16) as nat, |j: int| byte_of_u32(word(j / 16, (j % 16) / 4), j % 4))
}

/// Channel `w` of pixel `p` of a linear source, as a half float: every channel
/// the source carries goes through `unit`, and a missing alpha is opaque.
pub open spec fn linear_f16_word(src: Seq<u16>, channels: int, unit: Seq<u16>, p: int, w: int) -> u16 {
    if w < channels {
        unit[src[p * channels + w] as int]
    } else {
        F16_ONE_BITS
    }
}

/// Channel `w` of pixel `p` of a gamma-encoded source, as a half float: colour
/// goes through `lut`, alpha through the linear `unit` scale, and a missing
/// alpha is opaque.
pub open spec fn encoded_f16_word(
    src: Seq<u16>,
    channels: int,
    lut: Seq<u16>,
    unit: Seq<u16>,
    p: int,
    w: int,
) -> u16 {
    if w < 3 {
        lut[src[p * channels + w] as int]
    } else if channels == 4 {
        unit[src[p * channels + 3] as int]
    } else {
        F16_ONE_BITS
    }
}

/// The same as [`encoded_f16_word`] at single precision.
pub open spec fn encoded_f32_word(
    src: Seq<u16>,
    channels: int,
    lut: Seq<u32>,
    unit: Seq<u32>,
    p: int,
    w: int,
) -> u32 {
    if w < 3 {
        lut[src[p * channels + w] as int]
    } else if channels == 4 {
        unit[src[p * channels + 3] as int]
    } else {
        F32_ONE_BITS
    }
}

/// The `rgba16float` upload of a linear u16 source.
pub open spec fn linear_f16_upload(src: Seq<u16>, channels: int, unit: Seq<u16>) -> Seq<u8> {
    rgba16_upload(whole_pixels(src.len() as int, channels), |p: int, w: int| linear_f16_word(src, channels, unit, p, w))
}

/// The `rgba16float` upload of a gamma-encoded u16 source.
pub open spec fn encoded_f16_upload(
    src: Seq<u16>,
    channels: int,
    lut: Seq<u16>,
    unit: Seq<u16>,
) -> Seq<u8> {
    rgba16_upload(
        whole_pixels(src.len() as int, channels),
        |p: int, w: int| encoded_f16_word(src, channels, lut, unit, p, w),
    )
}

/// The `rgba32float` upload of a gamma-encoded u16 source.
pub open spec fn encoded_f32_upload(
    src: Seq<u16>,
    channels: int,
    lut: Seq<u32>,
    unit: Seq<u32>,
) -> Seq<u8> {
    rgba32_upload(
        whole_pixels(src.len() as int, channels),
        |p: int, w: int| encoded_f32_word(src, channels, lut, unit, p, w),
    )
}

proof fn lemma_pixel_in_bounds(p: int, n: int, channels: int, len: int)
    requires
        channels == 3 || channels == 4,
        0 <= p < n,
        n == len / channels,
        0 <= len,
    ensures
        p * channels + channels <= len,
        0 <= p * channels,
{
    assert(p * channels + channels <= len) by (nonlinear_arith)
        requires
            channels == 3 || channels == 4,
            0 <= p < n,
            n == len / channels,
            0 <= len,
    ;
    assert(0 <= p * channels) by (nonlinear_arith)
        requires
            channels == 3 || channels == 4,
            0 <= p,
    ;
}

/// Appends the eight bytes of one RGBA f16 pixel.
fn push_rgba16(out: &mut Vec<u8>, words: [u16; 4])
    ensures
        final(out)@ == old(out)@ + words16_bytes(words@),
{
    let ghost start = out@;
    let mut w: usize = 0;
    while w < 4
        invariant
            w <= 4,
            out@ == start + words16_bytes(words@.take(w as int)),
        decreases 4 - w,
    {
        let v = words[w];
        out.push((v % 256) as u8);
        out.push((v / 256) as u8);
        w = w + 1;
        assert(out@ =~= start + words16_bytes(words@.take(w as int)));
    }
    assert(words@.take(4) =~= words@);
}

/// Appends the sixteen bytes of one RGBA f32 pixel.
fn push_rgba32(out: &mut Vec<u8>, words: [u32; 4])
    ensures
        final(out)@ == old(out)@ + words32_bytes(words@),
{
    let ghost start = out@;
    let mut w: usize = 0;
    while w < 4
        invariant
            w <= 4,
            out@ == start + words32_bytes(words@.take(w as int)),
        decreases 4 - w,
    {
        let v = words[w];
        out.push((v % 256) as u8);
        out.push(((v / 256) % 256) as u8);
        out.push(((v / 65536) % 256) as u8);
        out.push((v / 16777216) as u8);
        w = w + 1;
        assert(out@ =~= start + words32_bytes(words@.take(w as int)));
    }
    assert(words@.take(4) =~= words@);
}

/// Pack interleaved u16 *linear* pixels into the little-endian RGBA f16 bytes an
/// `rgba16float` texture expects.
///
/// `unit_f16[v]` is the half-precision bit pattern of `v / 65535`. Every
/// channel is already linear here, alpha included, so all of them scale the
/// same way. A three-channel source is uploaded fully opaque; a trailing
/// partial pixel is ignored.
pub fn linear_u16_to_f16_bytes(src: &[u16], channels: usize, unit_f16: &[u16]) -> (out: Vec<u8>)
    requires
        valid_channels(channels),
        full_table(unit_f16@),
    ensures
        out@ == linear_f16_upload(src@, channels as int, unit_f16@),
        out@.len() == whole_pixels(src@.len() as int, channels as int) * LINEAR_BYTES_PER_PIXEL,
{
    let len = src.len();
    let n = len / channels;
    let ghost spec = linear_f16_upload(src@, channels as int, unit_f16@);
    let mut out: Vec<u8> = Vec::new();
    let mut p: usize = 0;
    while p < n
        invariant
            valid_channels(channels),
            full_table(unit_f16@),
            len == src@.len(),
            n == whole_pixels(src@.len() as int, channels as int),
            p <= n,
            spec == linear_f16_upload(src@, channels as int, unit_f16@),
            out@.len() == 8 * p,
            forall|j: int| 0 <= j < 8 * p ==> out@[j] == spec[j],
        decreases n - p,
    {
        proof {
            lemma_pixel_in_bounds(p as int, n as int, channels as int, src@.len() as int);
        }
        let s = p * channels;
        let a = if channels == 4 { unit_f16[src[s + 3] as usize] } else { F16_ONE_BITS };
        let words: [u16; 4] = [
            unit_f16[src[s] as usize],
            unit_f16[src[s + 1] as usize],
            unit_f16[src[s + 2] as usize],
            a,
        ];
        push_rgba16(&mut out, words);
        proof {
            assert forall|j: int| 0 <= j < 8 * (p + 1) implies out@[j] == spec[j] by {
                if j >= 8 * p {
                    let k = j - 8 * p;
                    assert(j / 8 == p && j % 8 == k);
                    assert(out@[j] == words16_bytes(words@)[k]);
                }
            }
        }
        p = p + 1;
    }
    assert(out@ =~= spec);
    out
}

/// Convert interleaved u16 sRGB pixels into little-endian RGBA f16 linear bytes,
/// ready to upload as an `rgba16float` texture.
///
/// RGB is gamma-decoded through `lut`, which holds half-precision bit
/// patterns; alpha, where the source carries it, is scaled linearly through
/// `unit_f16`, since alpha carries no gamma encoding. A three-channel source is
/// uploaded fully opaque. Any trailing partial pixel is ignored.
pub fn linearize_u16(src: &[u16], channels: usize, lut: &[u16], unit_f16: &[u16]) -> (out: Vec<u8>)
    requires
        valid_channels(channels),
        full_table(lut@),
        full_table(unit_f16@),
    ensures
        out@ == encoded_f16_upload(src@, channels as int, lut@, unit_f16@),
        out@.len() == whole_pixels(src@.len() as int, channels as int) * LINEAR_BYTES_PER_PIXEL,
{
    let len = src.len();
    let n = len / channels;
    let ghost spec = encoded_f16_upload(src@, channels as int, lut@, unit_f16@);
    let mut out: Vec<u8> = Vec::new();
    let mut p: usize = 0;
    while p < n
        invariant
            valid_channels(channels),
            full_table(lut@),
            full_table(unit_f16@),
            len == src@.len(),
            n == whole_pixels(src@.len() as int, channels as int),
            p <= n,
            spec == encoded_f16_upload(src@, channels as int, lut@, unit_f16@),
            out@.len() == 8 * p,
            forall|j: int| 0 <= j < 8 * p ==> out@[j] == spec[j],
        decreases n - p,
    {
        proof {
            lemma_pixel_in_bounds(p as int, n as int, channels as int, src@.len() as int);
        }
        let s = p * channels;
        let a = if channels == 4 { unit_f16[src[s + 3] as usize] } else { F16_ONE_BITS };
        let words: [u16; 4] = [
            lut[src[s] as usize],
            lut[src[s + 1] as usize],
            lut[src[s + 2] as usize],
            a,
        ];
        push_rgba16(&mut out, words);
        proof {
            assert forall|j: int| 0 <= j < 8 * (p + 1) implies out@[j] == spec[j] by {
                if j >= 8 * p {
                    let k = j - 8 * p;
                    assert(j / 8 == p && j % 8 == k);
                    assert(out@[j] == words16_bytes(words@)[k]);
                }
            }
        }
        p = p + 1;
    }
    assert(out@ =~= spec);
    out
}

/// Convert interleaved u16 sRGB pixels into little-endian RGBA f32 linear bytes,
/// ready to upload as an `rgba32float` texture.
///
/// The export's counterpart to [`linearize_u16`], and identical to it but for
/// the width of the destination: `lut` and `unit_f32` hold single-precision bit
/// patterns.
pub fn linearize_u16_f32(src: &[u16], channels: usize, lut: &[u32], unit_f32: &[u32]) -> (out: Vec<u8>)
    requires
        valid_channels(channels),
        full_table(lut@),
        full_table(unit_f32@),
    ensures
        out@ == encoded_f32_upload(src@, channels as int, lut@, unit_f32@),
        out@.len() == whole_pixels(src@.len() as int, channels as int)
            * LINEAR_F32_BYTES_PER_PIXEL,
{
    let len = src.len();
    let n = len / channels;
    let ghost spec = encoded_f32_upload(src@, channels as int, lut@, unit_f32@);
    let mut out: Vec<u8> = Vec::new();
    let mut p: usize = 0;
    while p < n
        invariant
            valid_channels(channels),
            full_table(lut@),
            full_table(unit_f32@),
            len == src@.len(),
            n == whole_pixels(src@.len() as int, channels as int),
            p <= n,
            spec == encoded_f32_upload(src@, channels as int, lut@, unit_f32@),
            out@.len() == 16 * p,
            forall|j: int| 0 <= j < 16 * p ==> out@[j] == spec[j],
        decreases n - p,
    {
        proof {
            lemma_pixel_in_bounds(p as int, n as int, channels as int, src@.len() as int);
        }
        let s = p * channels;
        let a = if channels == 4 { unit_f32[src[s + 3] as usize] } else { F32_ONE_BITS };
        let words: [u32; 4] = [
            lut[src[s] as usize],
            lut[src[s + 1] as usize],
            lut[src[s + 2] as usize],
            a,
        ];
        push_rgba32(&mut out, words);
        proof {
            assert forall|j: int| 0 <= j < 16 * (p + 1) implies out@[j] == spec[j] by {
                if j >= 16 * p {
                    let k = j - 16 * p;
                    assert(j / 16 == p && j % 16 == k);
                    assert(out@[j] == words32_bytes(words@)[k]);
                }
            }
        }
        p = p + 1;
    }
    assert(out@ =~= spec);
    out
}

// ── Laws ─────────────────────────────────────────────────────────────────────

/// The samples of pixel `p` of an interleaved buffer.
pub open spec fn pixel_samples(src: Seq<u16>, channels: int, p: int) -> Seq<u16> {
    src.subrange(p * channels, p * channels + channels)
}

/// A pixel's upload depends on that pixel alone: two sources whose pixels `p`
/// and `q` carry the same samples upload the same eight bytes for them,
/// whatever their neighbours hold.
pub proof fn lemma_linearize_is_per_pixel(
    a: Seq<u16>,
    b: Seq<u16>,
    channels: usize,
    lut: Seq<u16>,
    unit: Seq<u16>,
    p: int,
    q: int,
)
    requires
        valid_channels(channels),
        0 <= p < whole_pixels(a.len() as int, channels as int),
        0 <= q < whole_pixels(b.len() as int, channels as int),
        pixel_samples(a, channels as int, p) == pixel_samples(b, channels as int, q),
    ensures
        encoded_f16_upload(a, channels as int, lut, unit).subrange(8 * p, 8 * p + 8)
            == encoded_f16_upload(b, channels as int, lut, unit).subrange(8 * q, 8 * q + 8),
{
    let ch = channels as int;
    let ua = encoded_f16_upload(a, ch, lut, unit);
    let ub = encoded_f16_upload(b, ch, lut, unit);
    let sa = ua.subrange(8 * p, 8 * p + 8);
    let sb = ub.subrange(8 * q, 8 * q + 8);
    assert(8 * p + 8 <= ua.len() && 8 * q + 8 <= ub.len());
    assert forall|k: int| 0 <= k < 8 implies sa[k] == sb[k] by {
        assert(sa[k] == ua[8 * p + k] && sb[k] == ub[8 * q + k]);
        assert((8 * p + k) / 8 == p && (8 * p + k) % 8 == k);
        assert((8 * q + k) / 8 == q && (8 * q + k) % 8 == k);
        let w = k / 2;
        lemma_pixel_in_bounds(p, whole_pixels(a.len() as int, ch), ch, a.len() as int);
        lemma_pixel_in_bounds(q, whole_pixels(b.len() as int, ch), ch, b.len() as int);
        if w < 3 {
            assert(pixel_samples(a, ch, p)[w] == pixel_samples(b, ch, q)[w]);
        } else if ch == 4 {
            assert(pixel_samples(a, ch, p)[3] == pixel_samples(b, ch, q)[3]);
        }
    }
    assert(sa =~= sb);
}

/// A three-channel source uploads exactly as the same pixels carried with an
/// opaque alpha, provided the alpha scale maps full-scale to 1.0.
pub proof fn lemma_rgb_uploads_as_opaque_rgba(
    rgb: Seq<u16>,
    rgba: Seq<u16>,
    lut: Seq<u16>,
    unit: Seq<u16>,
)
    requires
        full_table(unit),
        unit[65535] == F16_ONE_BITS,
        whole_pixels(rgb.len() as int, 3) == whole_pixels(rgba.len() as int, 4),
        forall|p: int|
            0 <= p < whole_pixels(rgb.len() as int, 3) ==> #[trigger] pixel_samples(rgb, 3, p)
                == pixel_samples(rgba, 4, p).take(3) && pixel_samples(rgba, 4, p)[3] == 65535,
    ensures
        encoded_f16_upload(rgb, 3, lut, unit) == encoded_f16_upload(rgba, 4, lut, unit),
{
    let u3 = encoded_f16_upload(rgb, 3, lut, unit);
    let u4 = encoded_f16_upload(rgba, 4, lut, unit);
    assert forall|j: int| 0 <= j < u3.len() implies u3[j] == u4[j] by {
        let p = j / 8;
        let w = (j % 8) / 2;
        assert(0 <= p < whole_pixels(rgb.len() as int, 3));
        lemma_pixel_in_bounds(p, whole_pixels(rgb.len() as int, 3), 3, rgb.len() as int);
        lemma_pixel_in_bounds(p, whole_pixels(rgba.len() as int, 4), 4, rgba.len() as int);
        assert(pixel_samples(rgb, 3, p) == pixel_samples(rgba, 4, p).take(3));
        if w < 3 {
            assert(pixel_samples(rgb, 3, p)[w] == pixel_samples(rgba, 4, p)[w]);
        } else {
            assert(pixel_samples(rgba, 4, p)[3] == 65535);
        }
    }
    assert(u3 =~= u4);
}

/// Decoding to linear u16 sends the three colour samples of every whole
/// RGBA pixel through the table and leaves its alpha untouched.
pub proof fn lemma_decode_passes_alpha_through(src: Seq<u16>, lut: Seq<u16>, p: int)
    requires
        0 <= p < whole_pixels(src.len() as int, 4),
    ensures
        ({
            let s = pixel_samples(src, 4, p);
            pixel_samples(srgb_decoded(src, 4, lut), 4, p) == seq![
                lut[s[0] as int],
                lut[s[1] as int],
                lut[s[2] as int],
                s[3],
            ]
        }),
{
    lemma_pixel_in_bounds(p, whole_pixels(src.len() as int, 4), 4, src.len() as int);
    let s = pixel_samples(src, 4, p);
    let d = pixel_samples(srgb_decoded(src, 4, lut), 4, p);
    assert forall|c: int| 0 <= c < 4 implies #[trigger] d[c] == srgb_decoded(src, 4, lut)[4 * p + c]
        && (4 * p + c) / 4 == p && (4 * p + c) % 4 == c by {}
    assert(d =~= seq![lut[s[0] as int], lut[s[1] as int], lut[s[2] as int], s[3]]);
}


/// Converting a buffer in two parts and joining the results gives the
/// conversion of the whole, provided the first part ends on a pixel boundary:
/// the reason the work can be split across workers in whole-pixel blocks.
pub proof fn lemma_linearize_concatenates(
    a: Seq<u16>,
    b: Seq<u16>,
    channels: usize,
    lut: Seq<u16>,
    unit: Seq<u16>,
)
    requires
        valid_channels(channels),
        (a.len() as int) % (channels as int) == 0,
    ensures
        encoded_f16_upload(a + b, channels as int, lut, unit) == encoded_f16_upload(
            a,
            channels as int,
            lut,
            unit,
        ) + encoded_f16_upload(b, channels as int, lut, unit),
{
    let ch = channels as int;
    let ab = a + b;
    let na = whole_pixels(a.len() as int, ch);
    let nb = whole_pixels(b.len() as int, ch);
    vstd::arithmetic::div_mod::lemma_fundamental_div_mod(a.len() as int, ch);
    assert(a.len() == na * ch);
    vstd::arithmetic::div_mod::lemma_fundamental_div_mod(b.len() as int, ch);
    vstd::arithmetic::div_mod::lemma_mod_pos_bound(b.len() as int, ch);
    let rb = b.len() as int % ch;
    assert(b.len() == nb * ch + rb) by (nonlinear_arith)
        requires b.len() as int == ch * nb + rb;
    assert(ab.len() == (na + nb) * ch + rb) by (nonlinear_arith)
        requires ab.len() == a.len() + b.len(), a.len() == na * ch, b.len() == nb * ch + rb;
    vstd::arithmetic::div_mod::lemma_fundamental_div_mod_converse(ab.len() as int, ch, na + nb, rb);
    assert(0 <= na && 0 <= nb) by (nonlinear_arith)
        requires a.len() == na * ch, b.len() == nb * ch + rb, ch > 0, 0 <= rb < ch;
    let u = encoded_f16_upload(ab, ch, lut, unit);
    let ua = encoded_f16_upload(a, ch, lut, unit);
    let ub = encoded_f16_upload(b, ch, lut, unit);
    assert(u.len() == ua.len() + ub.len());
    assert forall|j: int| 0 <= j < u.len() implies u[j] == (ua + ub)[j] by {
        let p = j / 8;
        let k = j % 8;
        let w = k / 2;
        if j < ua.len() {
            assert(0 <= p < na);
            lemma_pixel_in_bounds(p, na, ch, a.len() as int);
        } else {
            let q = p - na;
            let jb = j - ua.len();
            assert(jb / 8 == q && jb % 8 == k);
            assert(0 <= q < nb);
            lemma_pixel_in_bounds(q, nb, ch, b.len() as int);
            assert(p * ch == q * ch + na * ch) by (nonlinear_arith)
                requires q == p - na;
            if w < 3 {
                assert(ab[p * ch + w] == b[q * ch + w]);
            } else if ch == 4 {
                assert(ab[p * ch + 3] == b[q * ch + 3]);
            }
        }
    }
    assert(u =~= ua + ub);
}


/// Pixel `p` of the single-precision upload is four little-endian words:
/// red, green and blue sent through the decode table `lut`, then alpha sent
/// through the linear scale `unit` (or 1.0 when the source has none). Alpha
/// is never gamma-decoded.
pub proof fn lemma_f32_upload_pixel(src: Seq<u16>, channels: usize, lut: Seq<u32>, unit: Seq<u32>, p: int)
    requires
        valid_channels(channels),
        0 <= p < whole_pixels(src.len() as int, channels as int),
    ensures
        ({
            let at = p * (channels as int);
            encoded_f32_upload(src, channels as int, lut, unit).subrange(16 * p, 16 * p + 16)
                == words32_bytes(
                seq![
                    lut[src[at] as int],
                    lut[src[at + 1] as int],
                    lut[src[at + 2] as int],
                    if channels == 4 { unit[src[at + 3] as int] } else { F32_ONE_BITS },
                ],
            )
        }),
{
    let ch = channels as int;
    let at = p * ch;
    let u = encoded_f32_upload(src, ch, lut, unit);
    let want = words32_bytes(
        seq![
            lut[src[at] as int],
            lut[src[at + 1] as int],
            lut[src[at + 2] as int],
            if channels == 4 { unit[src[at + 3] as int] } else { F32_ONE_BITS },
        ],
    );
    lemma_pixel_in_bounds(p, whole_pixels(src.len() as int, ch), ch, src.len() as int);
    assert(16 * p + 16 <= u.len());
    assert forall|k: int| 0 <= k < 16 implies #[trigger] u.subrange(16 * p, 16 * p + 16)[k] == want[k] by {
        assert((16 * p + k) / 16 == p && (16 * p + k) % 16 == k);
    }
    assert(u.subrange(16 * p, 16 * p + 16) =~= want);
}

/// Pixel `p` of the half-precision upload is four little-endian half words:
/// red, green and blue sent through the decode table `lut`, then alpha sent
/// through the linear scale `unit` (or 1.0 when the source has none).
pub proof fn lemma_f16_upload_pixel(src: Seq<u16>, channels: usize, lut: Seq<u16>, unit: Seq<u16>, p: int)
    requires
        valid_channels(channels),
        0 <= p < whole_pixels(src.len() as int, channels as int),
    ensures
        ({
            let at = p * (channels as int);
            encoded_f16_upload(src, channels as int, lut, unit).subrange(8 * p, 8 * p + 8)
                == words16_bytes(
                seq![
                    lut[src[at] as int],
                    lut[src[at + 1] as int],
                    lut[src[at + 2] as int],
                    if channels == 4 { unit[src[at + 3] as int] } else { F16_ONE_BITS },
                ],
            )
        }),
{
    let ch = channels as int;
    let at = p * ch;
    let u = encoded_f16_upload(src, ch, lut, unit);
    let want = words16_bytes(
        seq![
            lut[src[at] as int],
            lut[src[at + 1] as int],
            lut[src[at + 2] as int],
            if channels == 4 { unit[src[at + 3] as int] } else { F16_ONE_BITS },
        ],
    );
    lemma_pixel_in_bounds(p, whole_pixels(src.len() as int, ch), ch, src.len() as int);
    assert(8 * p + 8 <= u.len());
    assert forall|k: int| 0 <= k < 8 implies #[trigger] u.subrange(8 * p, 8 * p + 8)[k] == want[k] by {
        assert((8 * p + k) / 8 == p && (8 * p + k) % 8 == k);
    }
    assert(u.subrange(8 * p, 8 * p + 8) =~= want);
}

}
