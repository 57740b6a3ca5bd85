//! What the frontend receives when an image is opened: per-channel
//! histograms of the full-resolution image, and the byte payload that frames
//! the preview, the overview and the histograms.
use fast_image_resize as fir;
use vstd::prelude::*;

use crate::color::{
    encoded_f16_upload, full_table, linear_f16_upload, linear_u16_to_f16_bytes, linearize_u16,
    srgb_decoded, srgb_to_linear_u16, valid_channels, whole_pixels, LINEAR_BYTES_PER_PIXEL,
    lemma_rgb_uploads_as_opaque_rgba, pixel_samples, F16_ONE_BITS,
};
use crate::le_bytes::{
    lemma_words32_round_trip, push_u32_le, push_u32s_le, read_le32_at, words32_bytes,
};

verus! {

/// Longest edge of the preview handed to the frontend.
pub const PREVIEW_MAX_EDGE: u32 = 2048;

/// Longest edge of the overview handed to the frontend.
///
/// The overview always covers the whole frame, whatever the preview shows, so
/// the live histogram describes the image rather than the viewport.
pub const OVERVIEW_MAX_EDGE: u32 = 512;

/// Bins in each per-channel histogram.
pub const HIST_BINS: usize = 256;

/// Bytes preceding the pixel data in the frontend payload: preview width and
/// height, full-resolution width and height, then overview width and height,
/// u32 LE.
pub const PAYLOAD_HEADER_BYTES: usize = 24;

/// Bytes the three histograms occupy at the end of the payload.
pub const HIST_PAYLOAD_BYTES: usize = 3072;

// ── Histograms ───────────────────────────────────────────────────────────────

/// Per-channel histograms of the full-resolution sRGB image.
pub struct Histograms {
    pub r: [u32; 256],
    pub g: [u32; 256],
    pub b: [u32; 256],
}

/// The 8-bit bin a 16-bit sample falls into: its high byte.
pub open spec fn bin_of(v: u16) -> int {
    (v / 256) as int
}

/// How many of the first `n` pixels have channel `c` in `bin`.
pub open spec fn channel_count(src: Seq<u16>, channels: int, c: int, n: nat, bin: int) -> nat
    decreases n,
{
    if n == 0 {
        0
    } else {
        channel_count(src, channels, c, (n - 1) as nat, bin) + if bin_of(
            src[(n - 1) * channels + c],
        ) == bin {
            1nat
        } else {
            0nat
        }
    }
}

/// Channel `c`'s histogram of every whole pixel of `src`.
pub open spec fn channel_histogram(src: Seq<u16>, channels: int, c: int) -> Seq<nat> {
    Seq::new(
        256,
        |bin: int| channel_count(src, channels, c, whole_pixels(src.len() as int, channels) as nat, bin),
    )
}

/// The counts of one channel, as mathematical integers.
pub open spec fn counts(bins: [u32; 256]) -> Seq<nat> {
    bins@.map_values(|v: u32| v as nat)
}

proof fn lemma_channel_count_bounded(src: Seq<u16>, channels: int, c: int, n: nat, bin: int)
    ensures
        channel_count(src, channels, c, n, bin) <= n,
    decreases n,
{
    if n > 0 {
        lemma_channel_count_bounded(src, channels, c, (n - 1) as nat, bin);
    }
}

fn count_sample(bins: &mut [u32; 256], v: u16, Ghost(src): Ghost<Seq<u16>>, Ghost(channels): Ghost<int>, Ghost(c): Ghost<int>, Ghost(p): Ghost<nat>)
    requires
        p < u32::MAX,
        v == src[p * channels + c],
        forall|bin: int| 0 <= bin < 256 ==> #[trigger] old(bins)@[bin] == channel_count(src, channels, c, p, bin),
    ensures
        forall|bin: int| 0 <= bin < 256 ==> #[trigger] final(bins)@[bin] == channel_count(src, channels, c, p + 1, bin),
{
    let k = (v / 256) as usize;
    proof {
        lemma_channel_count_bounded(src, channels, c, p, k as int);
    }
    bins[k] = bins[k] + 1;
    assert forall|bin: int| 0 <= bin < 256 implies #[trigger] final(bins)@[bin] == channel_count(src, channels, c, p + 1, bin) by {
        assert(channel_count(src, channels, c, p + 1, bin) == channel_count(src, channels, c, p, bin) + if bin_of(src[p * channels + c]) == bin { 1nat } else { 0nat });
    }
}

/// R/G/B histograms of the full-resolution image. u16 sRGB values (0–65535)
/// are mapped to 8-bit bins (0–255) by their high byte. Alpha, where present,
/// is not binned, and a trailing partial pixel is not counted.
pub fn compute_histograms(src: &[u16], channels: usize) -> (h: Histograms)
    requires
        channels >= 3,
        whole_pixels(src@.len() as int, channels as int) <= u32::MAX,
    ensures
        counts(h.r) == channel_histogram(src@, channels as int, 0),
        counts(h.g) == channel_histogram(src@, channels as int, 1),
        counts(h.b) == channel_histogram(src@, channels as int, 2),
{
    let len = src.len();
    let n = len / channels;
    let mut r: [u32; 256] = [0u32; 256];
    let mut g: [u32; 256] = [0u32; 256];
    let mut b: [u32; 256] = [0u32; 256];
    let mut p: usize = 0;
    let ghost s = src@;
    let ghost ch = channels as int;
    while p < n
        invariant
            channels >= 3,
            len == s.len(),
            s == src@,
            ch == channels,
            n == whole_pixels(len as int, ch),
            n <= u32::MAX,
            p <= n,
            forall|bin: int| 0 <= bin < 256 ==> #[trigger] r@[bin] == channel_count(s, ch, 0, p as nat, bin),
            forall|bin: int| 0 <= bin < 256 ==> #[trigger] g@[bin] == channel_count(s, ch, 1, p as nat, bin),
            forall|bin: int| 0 <= bin < 256 ==> #[trigger] b@[bin] == channel_count(s, ch, 2, p as nat, bin),
        decreases n - p,
    {
        assert(p * ch + ch <= len) by (nonlinear_arith)
            requires ch >= 3, p < n, n == len as int / ch, len >= 0;
        let at = p * channels;
        count_sample(&mut r, src[at], Ghost(s), Ghost(ch), Ghost(0), Ghost(p as nat));
        count_sample(&mut g, src[at + 1], Ghost(s), Ghost(ch), Ghost(1), Ghost(p as nat));
        count_sample(&mut b, src[at + 2], Ghost(s), Ghost(ch), Ghost(2), Ghost(p as nat));
        p = p + 1;
    }
    assert(counts(r) =~= channel_histogram(src@, channels as int, 0));
    assert(counts(g) =~= channel_histogram(src@, channels as int, 1));
    assert(counts(b) =~= channel_histogram(src@, channels as int, 2));
    Histograms { r, g, b }
}

/// Sum of the first `k` bins of channel `c`'s histogram of the first `n`
/// pixels.
pub open spec fn bins_total(src: Seq<u16>, channels: int, c: int, n: nat, k: nat) -> int
    decreases k,
{
    if k == 0 {
        0
    } else {
        bins_total(src, channels, c, n, (k - 1) as nat) + channel_count(
            src,
            channels,
            c,
            n,
            k - 1,
        )
    }
}

proof fn lemma_bins_total_step(src: Seq<u16>, channels: int, c: int, n: nat, k: nat)
    requires
        n > 0,
    ensures
        bins_total(src, channels, c, n, k) == bins_total(src, channels, c, (n - 1) as nat, k) + if bin_of(
            src[(n - 1) * channels + c],
        ) < k {
            1int
        } else {
            0int
        },
    decreases k,
{
    if k > 0 {
        lemma_bins_total_step(src, channels, c, n, (k - 1) as nat);
    }
}

proof fn lemma_bins_total_empty(src: Seq<u16>, channels: int, c: int, k: nat)
    ensures
        bins_total(src, channels, c, 0, k) == 0,
    decreases k,
{
    if k > 0 {
        lemma_bins_total_empty(src, channels, c, (k - 1) as nat);
    }
}

/// Every pixel casts exactly one vote per channel: the bins of a channel's
/// histogram sum to the number of pixels counted.
pub proof fn lemma_histogram_counts_every_pixel(src: Seq<u16>, channels: int, c: int, n: nat)
    ensures
        bins_total(src, channels, c, n, 256) == n,
    decreases n,
{
    if n == 0 {
        lemma_bins_total_empty(src, channels, c, 256);
    } else {
        lemma_histogram_counts_every_pixel(src, channels, c, (n - 1) as nat);
        lemma_bins_total_step(src, channels, c, n, 256);
        let v = src[(n - 1) * channels + c];
        assert(0 <= bin_of(v) < 256);
    }
}

/// The stride is the only thing separating one channel's bin from the next:
/// two sources whose pixels carry the same red, green and blue bin the same,
/// whatever their channel counts.
pub proof fn lemma_histograms_ignore_channel_count(
    a: Seq<u16>,
    ca: int,
    b: Seq<u16>,
    cb: int,
    c: int,
    n: nat,
    bin: int,
)
    requires
        0 <= c < 3,
        forall|p: int| 0 <= p < n ==> #[trigger] a[p * ca + c] == b[p * cb + c],
    ensures
        channel_count(a, ca, c, n, bin) == channel_count(b, cb, c, n, bin),
    decreases n,
{
    if n > 0 {
        lemma_histograms_ignore_channel_count(a, ca, b, cb, c, (n - 1) as nat, bin);
        assert(a[(n - 1) * ca + c] == b[(n - 1) * cb + c]);
    }
}

// ── Payload framing ──────────────────────────────────────────────────────────

/// Everything derived from a decoded image that the frontend needs.
pub struct PreparedImage {
    /// Linearised preview pixels: RGBA f16 little-endian, 8 bytes per pixel.
    pub preview_pixels: Vec<u8>,
    pub preview_width: u32,
    pub preview_height: u32,
    pub overview_pixels: Vec<u8>,
    pub overview_width: u32,
    pub overview_height: u32,
    pub full_width: u32,
    pub full_height: u32,
    pub histograms: Histograms,
}

/// The six header words of a payload, in order.
pub open spec fn header_words(p: PreparedImage) -> Seq<u32> {
    seq![
        p.preview_width,
        p.preview_height,
        p.full_width,
        p.full_height,
        p.overview_width,
        p.overview_height,
    ]
}

/// The byte layout `openImage.ts` parses:
///
/// | offset | size          | contents                          |
/// |--------|---------------|-----------------------------------|
/// | 0      | 4             | preview width, u32 LE             |
/// | 4      | 4             | preview height, u32 LE            |
/// | 8      | 4             | full width, u32 LE                |
/// | 12     | 4             | full height, u32 LE               |
/// | 16     | 4             | overview width, u32 LE            |
/// | 20     | 4             | overview height, u32 LE           |
/// | 24     | w × h × 8     | RGBA f16 LE preview pixels        |
/// | …      | ow × oh × 8   | RGBA f16 LE overview pixels       |
/// | …      | 3 × 256 × 4   | R, G, B histogram bins, u32 LE    |
pub open spec fn payload_of(p: PreparedImage) -> Seq<u8> {
    words32_bytes(header_words(p)) + p.preview_pixels@ + p.overview_pixels@ + words32_bytes(
        p.histograms.r@,
    ) + words32_bytes(p.histograms.g@) + words32_bytes(p.histograms.b@)
}

/// Serialise a [`PreparedImage`] into the byte layout `openImage.ts` parses;
/// see [`payload_of`].
pub fn build_payload(prepared: &PreparedImage) -> (payload: Vec<u8>)
    ensures
        payload@ == payload_of(*prepared),
{
    let mut payload: Vec<u8> = Vec::new();
    push_u32_le(&mut payload, prepared.preview_width);
    push_u32_le(&mut payload, prepared.preview_height);
    push_u32_le(&mut payload, prepared.full_width);
    push_u32_le(&mut payload, prepared.full_height);
    push_u32_le(&mut payload, prepared.overview_width);
    push_u32_le(&mut payload, prepared.overview_height);
    proof {
        let h = header_words(*prepared);
        crate::le_bytes::lemma_words32_push(seq![h[0]], h[1]);
        crate::le_bytes::lemma_words32_push(seq![h[0], h[1]], h[2]);
        crate::le_bytes::lemma_words32_push(seq![h[0], h[1], h[2]], h[3]);
        crate::le_bytes::lemma_words32_push(seq![h[0], h[1], h[2], h[3]], h[4]);
        crate::le_bytes::lemma_words32_push(seq![h[0], h[1], h[2], h[3], h[4]], h[5]);
        assert(seq![h[0]].push(h[1]) =~= seq![h[0], h[1]]);
        assert(seq![h[0], h[1]].push(h[2]) =~= seq![h[0], h[1], h[2]]);
        assert(seq![h[0], h[1], h[2]].push(h[3]) =~= seq![h[0], h[1], h[2], h[3]]);
        assert(seq![h[0], h[1], h[2], h[3]].push(h[4]) =~= seq![h[0], h[1], h[2], h[3], h[4]]);
        assert(seq![h[0], h[1], h[2], h[3], h[4]].push(h[5]) =~= h);
        assert(payload@ =~= words32_bytes(h));
    }
    payload.extend_from_slice(prepared.preview_pixels.as_slice());
    payload.extend_from_slice(prepared.overview_pixels.as_slice());
    let hist = &prepared.histograms;
    push_u32s_le(&mut payload, hist.r.as_slice());
    push_u32s_le(&mut payload, hist.g.as_slice());
    push_u32s_le(&mut payload, hist.b.as_slice());
    assert(payload@ =~= payload_of(*prepared));
    payload
}

/// Bytes of an RGBA f16 image of the given dimensions.
pub open spec fn pixel_bytes(width: u32, height: u32) -> int {
    width * height * LINEAR_BYTES_PER_PIXEL
}

/// Expected payload length for a preview and overview of the given dimensions.
pub open spec fn payload_len(
    preview_width: u32,
    preview_height: u32,
    overview_width: u32,
    overview_height: u32,
) -> int {
    PAYLOAD_HEADER_BYTES + pixel_bytes(preview_width, preview_height) + pixel_bytes(
        overview_width,
        overview_height,
    ) + HIST_PAYLOAD_BYTES
}

/// Expected payload length for a preview and overview of the given dimensions.
pub fn payload_len_for(
    preview_width: u32,
    preview_height: u32,
    overview_width: u32,
    overview_height: u32,
) -> (len: usize)
    requires
        payload_len(preview_width, preview_height, overview_width, overview_height)
            <= usize::MAX,
    ensures
        len == payload_len(preview_width, preview_height, overview_width, overview_height),
{
    let pw = preview_width as usize;
    let ph = preview_height as usize;
    let ow = overview_width as usize;
    let oh = overview_height as usize;
    proof {
        assert(0 <= pw * ph * 8 && 0 <= ow * oh * 8) by (nonlinear_arith)
            requires pw >= 0, ph >= 0, ow >= 0, oh >= 0;
    }
    let preview = pw * ph * LINEAR_BYTES_PER_PIXEL;
    let overview = ow * oh * LINEAR_BYTES_PER_PIXEL;
    PAYLOAD_HEADER_BYTES + preview + overview + HIST_PAYLOAD_BYTES
}

/// Well-formed preparation: each pixel buffer holds exactly its dimensions'
/// worth of RGBA f16 pixels.
pub open spec fn sized_as_declared(p: PreparedImage) -> bool {
    &&& p.preview_pixels@.len() == pixel_bytes(p.preview_width, p.preview_height)
    &&& p.overview_pixels@.len() == pixel_bytes(p.overview_width, p.overview_height)
}

/// A payload is as long as [`payload_len_for`] says for its dimensions.
pub proof fn lemma_payload_length(p: PreparedImage)
    requires
        sized_as_declared(p),
    ensures
        payload_of(p).len() == payload_len(
            p.preview_width,
            p.preview_height,
            p.overview_width,
            p.overview_height,
        ),
{
}

/// The payload reads back exactly as `openImage.ts` parses it: the six header
/// words, the preview and overview pixels at their offsets, and each
/// histogram's bins after them.
pub proof fn lemma_payload_round_trip(p: PreparedImage)
    ensures
        ({
            let bytes = payload_of(p);
            let pv = PAYLOAD_HEADER_BYTES + p.preview_pixels@.len();
            let hist = pv + p.overview_pixels@.len();
            &&& read_le32_at(bytes, 0) == p.preview_width
            &&& read_le32_at(bytes, 1) == p.preview_height
            &&& read_le32_at(bytes, 2) == p.full_width
            &&& read_le32_at(bytes, 3) == p.full_height
            &&& read_le32_at(bytes, 4) == p.overview_width
            &&& read_le32_at(bytes, 5) == p.overview_height
            &&& bytes.subrange(PAYLOAD_HEADER_BYTES as int, pv) == p.preview_pixels@
            &&& bytes.subrange(pv, hist) == p.overview_pixels@
            &&& forall|i: int|
                0 <= i < 256 ==> #[trigger] read_le32_at(bytes.subrange(hist, hist + 1024), i)
                    == p.histograms.r@[i]
            &&& forall|i: int|
                0 <= i < 256 ==> #[trigger] read_le32_at(bytes.subrange(hist + 1024, hist + 2048), i)
                    == p.histograms.g@[i]
            &&& forall|i: int|
                0 <= i < 256 ==> #[trigger] read_le32_at(bytes.subrange(hist + 2048, hist + 3072), i)
                    == p.histograms.b@[i]
            &&& bytes.len() == hist + HIST_PAYLOAD_BYTES
        }),
{
    let bytes = payload_of(p);
    let head = words32_bytes(header_words(p));
    let pv = PAYLOAD_HEADER_BYTES + p.preview_pixels@.len();
    let hist = pv + p.overview_pixels@.len();
    let hr = words32_bytes(p.histograms.r@);
    let hg = words32_bytes(p.histograms.g@);
    let hb = words32_bytes(p.histograms.b@);
    lemma_words32_round_trip(header_words(p));
    lemma_words32_round_trip(p.histograms.r@);
    lemma_words32_round_trip(p.histograms.g@);
    lemma_words32_round_trip(p.histograms.b@);
    assert forall|i: int| 0 <= i < 6 implies #[trigger] read_le32_at(bytes, i) == read_le32_at(head, i) by {
        assert(bytes.subrange(4 * i, 4 * i + 4) =~= head.subrange(4 * i, 4 * i + 4));
    }
    assert(read_le32_at(bytes, 0) == read_le32_at(head, 0));
    assert(read_le32_at(bytes, 1) == read_le32_at(head, 1));
    assert(read_le32_at(bytes, 2) == read_le32_at(head, 2));
    assert(read_le32_at(bytes, 3) == read_le32_at(head, 3));
    assert(read_le32_at(bytes, 4) == read_le32_at(head, 4));
    assert(read_le32_at(bytes, 5) == read_le32_at(head, 5));
    assert(bytes.subrange(PAYLOAD_HEADER_BYTES as int, pv) =~= p.preview_pixels@);
    assert(bytes.subrange(pv, hist) =~= p.overview_pixels@);
    assert(bytes.subrange(hist, hist + 1024) =~= hr);
    assert(bytes.subrange(hist + 1024, hist + 2048) =~= hg);
    assert(bytes.subrange(hist + 2048, hist + 3072) =~= hb);
}

// ── Downscaling ──────────────────────────────────────────────────────────────

/// Whether an image already fits: its longest edge is at most `max_edge`.
pub open spec fn fits_within(width: u32, height: u32, max_edge: u32) -> bool {
    width <= max_edge && height <= max_edge
}

/// Images at or below the cap are handed on untouched; larger ones are
/// resampled.
pub fn within_max_edge(width: u32, height: u32, max_edge: u32) -> (fits: bool)
    ensures
        fits == fits_within(width, height, max_edge),
{
    let long_edge = if width >= height { width } else { height };
    long_edge <= max_edge
}

/// Interleaving of a u16 source, as the resampler names it.
pub enum SampleLayout {
    Rgb16,
    Rgba16,
}

impl SampleLayout {
    /// Samples per pixel.
    pub open spec fn channels(self) -> usize {
        match self {
            SampleLayout::Rgb16 => 3,
            SampleLayout::Rgba16 => 4,
        }
    }
}

/// The bilinear convolution `fast_image_resize` computes from an interleaved
/// u16 image of `width` × `height` pixels, with `channels` samples each, to one
/// of `new_width` × `new_height` pixels, read back as little-endian u16 samples.
pub uninterp spec fn bilinear_resample(
    src: Seq<u16>,
    width: u32,
    height: u32,
    channels: usize,
    new_width: u32,
    new_height: u32,
) -> Seq<u16>;

/// Samples in an interleaved image of the given size.
pub open spec fn sample_count(width: u32, height: u32, channels: usize) -> int {
    width * height * channels
}

/// `fast_image_resize::Resizer::resize` with a bilinear convolution, from an
/// `ImageRef` over `src` into a fresh `Image::new(new_width, new_height, _)`.
///
/// Claimed of it: `ImageRef::new` accepts a buffer of at least
/// `width * height` pixels (a `&[u16]` is always aligned for the u16 pixel
/// types), `resize` succeeds when source and destination share a pixel type,
/// which they do here, and the destination keeps the `new_width * new_height`
/// pixels `Image::new` gave it. The pixel values are named, not stated.
#[verifier::external_body]
fn resize_bilinear(
    src: &[u16],
    width: u32,
    height: u32,
    layout: SampleLayout,
    new_width: u32,
    new_height: u32,
) -> (out: Option<Vec<u16>>)
    requires
        2 * sample_count(width, height, layout.channels()) <= usize::MAX,
        2 * sample_count(new_width, new_height, layout.channels()) <= usize::MAX,
    ensures
        src@.len() >= sample_count(width, height, layout.channels()) ==> out is Some,
        out matches Some(v) ==> {
            &&& v@ == bilinear_resample(
                src@,
                width,
                height,
                layout.channels(),
                new_width,
                new_height,
            )
            &&& v@.len() == sample_count(new_width, new_height, layout.channels())
        },
{
    let pixel_type = match layout {
        SampleLayout::Rgb16 => fir::PixelType::U16x3,
        SampleLayout::Rgba16 => fir::PixelType::U16x4,
    };
    let src_image = fir::images::ImageRef::new(width, height, bytemuck::cast_slice(src), pixel_type).ok()?;
    let mut dst_image = fir::images::Image::new(new_width, new_height, pixel_type);
    let options = fir::ResizeOptions::new().resize_alg(fir::ResizeAlg::Convolution(fir::FilterType::Bilinear));
    fir::Resizer::new().resize(&src_image, &mut dst_image, &options).ok()?;
    Some(dst_image.into_vec().chunks_exact(2).map(|c| u16::from_le_bytes([c[0], c[1]])).collect())
}

/// Resample an interleaved u16 image to `new_width` × `new_height` with a
/// bilinear filter. Resampling happens in u16 space so the result keeps the
/// source precision.
pub fn resample_u16(
    src: &[u16],
    width: u32,
    height: u32,
    channels: usize,
    new_width: u32,
    new_height: u32,
) -> (out: Vec<u16>)
    requires
        valid_channels(channels),
        src@.len() >= sample_count(width, height, channels),
        2 * sample_count(width, height, channels) <= usize::MAX,
        2 * sample_count(new_width, new_height, channels) <= usize::MAX,
    ensures
        out@ == bilinear_resample(src@, width, height, channels, new_width, new_height),
        out@.len() == sample_count(new_width, new_height, channels),
{
    let layout = if channels == 4 { SampleLayout::Rgba16 } else { SampleLayout::Rgb16 };
    match resize_bilinear(src, width, height, layout, new_width, new_height) {
        Some(v) => v,
        None => {
            assert(false);
            Vec::new()
        },
    }
}

/// An image of `width` × `height` pixels with `channels` samples each holds
/// exactly `width × height` whole pixels.
proof fn lemma_whole_pixels_of(width: u32, height: u32, channels: usize)
    requires
        valid_channels(channels),
    ensures
        whole_pixels(sample_count(width, height, channels), channels as int) == width * height,
        0 <= width * height,
{
    let wh = width * height;
    assert(0 <= wh) by (nonlinear_arith)
        requires wh == width * height;
    assert(sample_count(width, height, channels) == wh * channels) by (nonlinear_arith)
        requires wh == width * height;
    vstd::arithmetic::div_mod::lemma_fundamental_div_mod_converse(
        sample_count(width, height, channels),
        channels as int,
        wh,
        0,
    );
}

// ── Preparation ──────────────────────────────────────────────────────────────

/// The lookup tables preparation decodes through, each indexed by a 16-bit
/// code value: `resample` holds the linear u16 code of every sRGB code,
/// `decode_f16` the half-float bit pattern of its linear value, and `unit_f16`
/// the half-float bit pattern of `v / 65535`.
pub struct ColorTables {
    pub resample: Vec<u16>,
    pub decode_f16: Vec<u16>,
    pub unit_f16: Vec<u16>,
}

impl ColorTables {
    /// Every table covers the whole 16-bit domain.
    pub open spec fn complete(&self) -> bool {
        &&& full_table(self.resample@)
        &&& full_table(self.decode_f16@)
        &&& full_table(self.unit_f16@)
    }
}

/// The linear u16 intermediate that resampling starts from.
pub open spec fn linear_source(src: Seq<u16>, channels: usize, tables: ColorTables) -> Seq<u16> {
    srgb_decoded(src, channels as int, tables.resample@)
}

/// The upload of `src` downscaled to `size` in linear light.
pub open spec fn downscaled_upload(
    src: Seq<u16>,
    width: u32,
    height: u32,
    channels: usize,
    tables: ColorTables,
    size: (u32, u32),
) -> Seq<u8> {
    linear_f16_upload(
        bilinear_resample(linear_source(src, channels, tables), width, height, channels, size.0, size.1),
        channels as int,
        tables.unit_f16@,
    )
}

/// What [`prepare_image`] owes: pixel buffers of exactly their declared
/// dimensions; histograms of the full-resolution image; a
/// preview that is the direct upload of the source when it fits the preview
/// cap and its linear-light downscale to `preview_size` otherwise; and an
/// overview that is the linear-light downscale to `overview_size` when the
/// source exceeds the overview cap and the preview itself otherwise.
pub open spec fn prepared_from(
    p: PreparedImage,
    src: Seq<u16>,
    width: u32,
    height: u32,
    channels: usize,
    tables: ColorTables,
    preview_size: (u32, u32),
    overview_size: (u32, u32),
) -> bool {
    &&& p.full_width == width
    &&& p.full_height == height
    &&& sized_as_declared(p)
    &&& counts(p.histograms.r) == channel_histogram(src, channels as int, 0)
    &&& counts(p.histograms.g) == channel_histogram(src, channels as int, 1)
    &&& counts(p.histograms.b) == channel_histogram(src, channels as int, 2)
    &&& if fits_within(width, height, PREVIEW_MAX_EDGE) {
        &&& p.preview_width == width
        &&& p.preview_height == height
        &&& p.preview_pixels@ == encoded_f16_upload(
            src,
            channels as int,
            tables.decode_f16@,
            tables.unit_f16@,
        )
    } else {
        &&& p.preview_width == preview_size.0
        &&& p.preview_height == preview_size.1
        &&& p.preview_pixels@ == downscaled_upload(src, width, height, channels, tables, preview_size)
    }
    &&& if fits_within(width, height, OVERVIEW_MAX_EDGE) {
        &&& p.overview_width == p.preview_width
        &&& p.overview_height == p.preview_height
        &&& p.overview_pixels@ == p.preview_pixels@
    } else {
        &&& p.overview_width == overview_size.0
        &&& p.overview_height == overview_size.1
        &&& p.overview_pixels@ == downscaled_upload(src, width, height, channels, tables, overview_size)
    }
}

/// Build the preview and overview textures and the histograms for a decoded
/// image.
///
/// Resampling happens in linear light, so an image that needs downscaling is
/// gamma-decoded first; an image inside the preview cap is not resampled and
/// takes the direct path. The overview always comes off the full frame.
/// `preview_size` and `overview_size` are the downscaled sizes, used only when
/// the image exceeds the corresponding cap.
pub fn prepare_image(
    src: &[u16],
    full_width: u32,
    full_height: u32,
    channels: usize,
    tables: &ColorTables,
    preview_size: (u32, u32),
    overview_size: (u32, u32),
) -> (p: PreparedImage)
    requires
        valid_channels(channels),
        tables.complete(),
        src@.len() == sample_count(full_width, full_height, channels),
        2 * sample_count(full_width, full_height, channels) <= usize::MAX,
        2 * sample_count(preview_size.0, preview_size.1, channels) <= usize::MAX,
        2 * sample_count(overview_size.0, overview_size.1, channels) <= usize::MAX,
        whole_pixels(src@.len() as int, channels as int) <= u32::MAX,
    ensures
        prepared_from(p, src@, full_width, full_height, channels, *tables, preview_size, overview_size),
        full_width <= 2048 && full_height <= 2048 ==> p.preview_width == full_width
            && p.preview_height == full_height,
        full_width <= 512 && full_height <= 512 ==> p.overview_width == full_width
            && p.overview_height == full_height,
{
    proof {
        lemma_whole_pixels_of(full_width, full_height, channels);
        lemma_whole_pixels_of(preview_size.0, preview_size.1, channels);
        lemma_whole_pixels_of(overview_size.0, overview_size.1, channels);
    }
    let fits_preview = within_max_edge(full_width, full_height, PREVIEW_MAX_EDGE);
    let fits_overview = within_max_edge(full_width, full_height, OVERVIEW_MAX_EDGE);
    // A source small enough to skip both downscales needs no linear u16
    // intermediate at all; anything larger shares one between the two.
    let linear: Option<Vec<u16>> = if fits_overview {
        None
    } else {
        Some(srgb_to_linear_u16(src, channels, tables.resample.as_slice()))
    };
    let (preview_width, preview_height, preview_pixels) = match &linear {
        Some(linear) if !fits_preview => {
            let (w, h) = preview_size;
            let small = resample_u16(linear.as_slice(), full_width, full_height, channels, w, h);
            (w, h, linear_u16_to_f16_bytes(small.as_slice(), channels, tables.unit_f16.as_slice()))
        },
        _ => (
            full_width,
            full_height,
            linearize_u16(src, channels, tables.decode_f16.as_slice(), tables.unit_f16.as_slice()),
        ),
    };
    // The overview always comes off the full frame, never off the preview.
    let (overview_width, overview_height, overview_pixels) = match &linear {
        Some(linear) => {
            let (w, h) = overview_size;
            let small = resample_u16(linear.as_slice(), full_width, full_height, channels, w, h);
            (w, h, linear_u16_to_f16_bytes(small.as_slice(), channels, tables.unit_f16.as_slice()))
        },
        None => (preview_width, preview_height, preview_pixels.clone()),
    };
    // Histograms come from the full-resolution image, not the preview.
    let histograms = compute_histograms(src, channels);
    PreparedImage {
        preview_pixels,
        preview_width,
        preview_height,
        overview_pixels,
        overview_width,
        overview_height,
        full_width,
        full_height,
        histograms,
    }
}


// ── Laws across channel counts ───────────────────────────────────────────────

/// Two sources with the same number of whole pixels, whose pixels carry the
/// same red, green and blue samples, have the same histograms, whatever their
/// strides: alpha is never binned.
pub proof fn lemma_histograms_depend_on_rgb_alone(a: Seq<u16>, ca: int, b: Seq<u16>, cb: int, c: int)
    requires
        ca >= 3,
        cb >= 3,
        0 <= c < 3,
        whole_pixels(a.len() as int, ca) == whole_pixels(b.len() as int, cb),
        forall|p: int, k: int|
            0 <= p < whole_pixels(a.len() as int, ca) && 0 <= k < 3 ==> #[trigger] a[p * ca + k]
                == #[trigger] b[p * cb + k],
    ensures
        channel_histogram(a, ca, c) == channel_histogram(b, cb, c),
{
    let n = whole_pixels(a.len() as int, ca);
    assert(n >= 0) by (nonlinear_arith)
        requires ca >= 3, n == a.len() as int / ca;
    assert forall|p: int| 0 <= p < n implies #[trigger] a[p * ca + c] == b[p * cb + c] by {}
    assert forall|bin: int| 0 <= bin < 256 implies channel_histogram(a, ca, c)[bin]
        == channel_histogram(b, cb, c)[bin] by {
        lemma_histograms_ignore_channel_count(a, ca, b, cb, c, n as nat, bin);
    }
    assert(channel_histogram(a, ca, c) =~= channel_histogram(b, cb, c));
}

/// Equal counts are equal bins.
proof fn lemma_counts_determine_bins(x: [u32; 256], y: [u32; 256])
    requires
        counts(x) == counts(y),
    ensures
        x@ == y@,
{
    assert forall|i: int| 0 <= i < 256 implies x@[i] == y@[i] by {
        assert(x@.len() == 256 && y@.len() == 256);
        assert(counts(x)[i] == x@[i] as nat);
        assert(counts(y)[i] == y@[i] as nat);
    }
    assert(x@ =~= y@);
}

/// Storing a source without alpha changes nothing the frontend receives
/// inside the preview cap: an RGB image and the same pixels as opaque RGBA
/// prepare to the same preview and the same histograms, and, inside the
/// overview cap, the same overview. The tables must scale full-scale alpha
/// to 1.0, as the opaque upload of an RGB source does.
pub proof fn lemma_rgb_prepares_as_opaque_rgba(
    p3: PreparedImage,
    p4: PreparedImage,
    rgb: Seq<u16>,
    rgba: Seq<u16>,
    width: u32,
    height: u32,
    tables: ColorTables,
    preview_size: (u32, u32),
    overview_size: (u32, u32),
)
    requires
        tables.complete(),
        tables.unit_f16@[65535] == F16_ONE_BITS,
        rgb.len() == sample_count(width, height, 3),
        rgba.len() == sample_count(width, height, 4),
        forall|p: int|
            0 <= p < width * height ==> #[trigger] pixel_samples(rgb, 3, p) == pixel_samples(
                rgba,
                4,
                p,
            ).take(3) && pixel_samples(rgba, 4, p)[3] == 65535,
        prepared_from(p3, rgb, width, height, 3, tables, preview_size, overview_size),
        prepared_from(p4, rgba, width, height, 4, tables, preview_size, overview_size),
        fits_within(width, height, PREVIEW_MAX_EDGE),
    ensures
        p3.preview_width == p4.preview_width,
        p3.preview_height == p4.preview_height,
        p3.preview_pixels@ == p4.preview_pixels@,
        p3.histograms.r@ == p4.histograms.r@,
        p3.histograms.g@ == p4.histograms.g@,
        p3.histograms.b@ == p4.histograms.b@,
        fits_within(width, height, OVERVIEW_MAX_EDGE) ==> p3.overview_pixels@ == p4.overview_pixels@,
{
    lemma_whole_pixels_of(width, height, 3);
    lemma_whole_pixels_of(width, height, 4);
    let n = width * height;
    assert(whole_pixels(rgb.len() as int, 3) == n);
    assert(whole_pixels(rgba.len() as int, 4) == n);
    assert forall|p: int| 0 <= p < whole_pixels(rgb.len() as int, 3) implies #[trigger] pixel_samples(rgb, 3, p)
        == pixel_samples(rgba, 4, p).take(3) && pixel_samples(rgba, 4, p)[3] == 65535 by {
        assert(0 <= p < n);
    }
    lemma_rgb_uploads_as_opaque_rgba(rgb, rgba, tables.decode_f16@, tables.unit_f16@);
    assert forall|p: int, k: int| 0 <= p < n && 0 <= k < 3 implies #[trigger] rgb[p * 3 + k]
        == #[trigger] rgba[p * 4 + k] by {
        assert(0 <= p * 3 && p * 3 + 3 <= rgb.len()) by (nonlinear_arith)
            requires 0 <= p < n, rgb.len() == n * 3;
        assert(0 <= p * 4 && p * 4 + 4 <= rgba.len()) by (nonlinear_arith)
            requires 0 <= p < n, rgba.len() == n * 4;
        assert(pixel_samples(rgb, 3, p)[k] == pixel_samples(rgba, 4, p)[k]);
    }
    lemma_histograms_depend_on_rgb_alone(rgb, 3, rgba, 4, 0);
    lemma_histograms_depend_on_rgb_alone(rgb, 3, rgba, 4, 1);
    lemma_histograms_depend_on_rgb_alone(rgb, 3, rgba, 4, 2);
    lemma_counts_determine_bins(p3.histograms.r, p4.histograms.r);
    lemma_counts_determine_bins(p3.histograms.g, p4.histograms.g);
    lemma_counts_determine_bins(p3.histograms.b, p4.histograms.b);
}


// ── What a histogram counts ──────────────────────────────────────────────────

/// An image with no whole pixel has empty histograms.
pub proof fn lemma_histogram_of_no_pixels(src: Seq<u16>, channels: int, c: int)
    requires
        channels >= 3,
        src.len() < channels,
    ensures
        forall|bin: int| 0 <= bin < 256 ==> #[trigger] channel_histogram(src, channels, c)[bin] == 0,
{
    assert(whole_pixels(src.len() as int, channels) == 0) by (nonlinear_arith)
        requires channels >= 3, 0 <= src.len() < channels;
}

/// Appending one pixel to an image adds one count to each channel's
/// histogram, in the bin of that pixel's sample for the channel, its high
/// byte `v / 256`, and leaves every other bin as it was.
pub proof fn lemma_histogram_counts_the_high_byte(src: Seq<u16>, px: Seq<u16>, channels: int, c: int)
    requires
        channels >= 3,
        0 <= c < 3,
        px.len() == channels,
        (src.len() as int) % channels == 0,
    ensures
        forall|bin: int|
            0 <= bin < 256 ==> #[trigger] channel_histogram(src + px, channels, c)[bin]
                == channel_histogram(src, channels, c)[bin] + if (px[c] / 256) as int == bin {
                1int
            } else {
                0int
            },
{
    let n = whole_pixels(src.len() as int, channels);
    let ab = src + px;
    vstd::arithmetic::div_mod::lemma_fundamental_div_mod(src.len() as int, channels);
    assert(src.len() == n * channels) by (nonlinear_arith)
        requires src.len() as int == channels * n + 0;
    assert(n >= 0) by (nonlinear_arith)
        requires src.len() == n * channels, channels >= 3;
    assert(ab.len() == (n + 1) * channels) by (nonlinear_arith)
        requires ab.len() == src.len() + channels, src.len() == n * channels;
    vstd::arithmetic::div_mod::lemma_fundamental_div_mod_converse(ab.len() as int, channels, n + 1, 0);
    assert forall|p: int| 0 <= p < n implies #[trigger] ab[p * channels + c] == src[p * channels + c] by {
        assert(p * channels + c < n * channels) by (nonlinear_arith)
            requires 0 <= p < n, 0 <= c < 3, channels >= 3;
        assert(0 <= p * channels) by (nonlinear_arith)
            requires 0 <= p, channels >= 3;
    }
    assert(ab[n * channels + c] == px[c]);
    assert forall|bin: int| 0 <= bin < 256 implies #[trigger] channel_histogram(ab, channels, c)[bin]
        == channel_histogram(src, channels, c)[bin] + if (px[c] / 256) as int == bin {
        1int
    } else {
        0int
    } by {
        lemma_histograms_ignore_channel_count(ab, channels, src, channels, c, n as nat, bin);
        assert(channel_count(ab, channels, c, (n + 1) as nat, bin) == channel_count(
            ab,
            channels,
            c,
            n as nat,
            bin,
        ) + if bin_of(ab[n * channels + c]) == bin {
            1nat
        } else {
            0nat
        });
    }
}


/// The frame the frontend is told about is the frame it is given: the full
/// size is the source's; a source within 2048 pixels on each side keeps its
/// own width and height in the preview, a larger one takes the requested
/// preview size; likewise for the overview at 512; and every pixel buffer
/// holds exactly its declared width × height RGBA f16 pixels, row-major.
pub proof fn lemma_prepared_frames_match_their_pixels(
    p: PreparedImage,
    src: Seq<u16>,
    width: u32,
    height: u32,
    channels: usize,
    tables: ColorTables,
    preview_size: (u32, u32),
    overview_size: (u32, u32),
)
    requires
        prepared_from(p, src, width, height, channels, tables, preview_size, overview_size),
    ensures
        p.full_width == width && p.full_height == height,
        width <= 2048 && height <= 2048 ==> p.preview_width == width && p.preview_height == height,
        !(width <= 2048 && height <= 2048) ==> p.preview_width == preview_size.0 && p.preview_height
            == preview_size.1,
        width <= 512 && height <= 512 ==> p.overview_width == width && p.overview_height == height,
        !(width <= 512 && height <= 512) ==> p.overview_width == overview_size.0 && p.overview_height
            == overview_size.1,
        p.preview_pixels@.len() == p.preview_width * p.preview_height * 8,
        p.overview_pixels@.len() == p.overview_width * p.overview_height * 8,
{
}

}
