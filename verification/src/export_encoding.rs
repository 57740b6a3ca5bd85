//! File-format encoding: takes the raw RGB bytes the renderer returns and
//! produces the bytes of a PNG, JPEG, WebP or TIFF file with the user's
//! settings. Writing those bytes to disk is the caller's business.
use image::codecs::jpeg::JpegEncoder;
use image::codecs::png::{CompressionType, FilterType, PngEncoder};
use image::codecs::tiff::TiffEncoder;
use image::codecs::webp::WebPEncoder;
use image::{ExtendedColorType, ImageEncoder};
use vstd::prelude::*;

verus! {

// ── Export settings ──────────────────────────────────────────────────────────

/// The file formats an export can be written in.
pub enum ExportFormat {
    Png,
    Jpeg,
    Webp,
    Tiff,
}

/// What the user chose in the export dialog.
pub struct ExportSettings {
    pub format: ExportFormat,
    /// PNG deflate compression level, 0 (fastest/largest) – 9 (slowest/smallest).
    pub png_compression: u8,
    /// JPEG quality, 1 (lowest) – 100 (highest).
    pub jpeg_quality: u8,
    /// WebP: lossless when set.
    pub webp_lossless: bool,
    /// WebP lossy quality, 0 – 100.
    pub webp_quality: u8,
    /// WebP encoder effort, 0 – 6.
    pub webp_compression: u8,
    /// TIFF sample depth: 8 or 16.
    pub tiff_bit_depth: u8,
    /// Black and white: the render has R = G = B, and TIFF writes one channel.
    pub is_bw: bool,
}

/// Why an export could not be encoded.
pub enum ExportError {
    /// TIFF was asked for at a sample depth other than 8 or 16.
    UnsupportedTiffBitDepth(u8),
    /// Lossy WebP was asked for; only the lossless encoder is available.
    LossyWebpUnavailable,
    /// The encoder refused the image; its own message.
    Encode(String),
}

/// The three PNG deflate settings the encoder offers.
pub enum PngCompression {
    Fast,
    Default,
    Best,
}

/// The deflate setting a 0 – 9 compression level selects: 0 – 2 fast,
/// 3 – 6 default, anything higher best.
pub open spec fn png_compression_class(level: u8) -> PngCompression {
    if level <= 2 {
        PngCompression::Fast
    } else if level <= 6 {
        PngCompression::Default
    } else {
        PngCompression::Best
    }
}

/// The deflate setting a 0 – 9 compression level selects.
pub fn png_compression_for(level: u8) -> (c: PngCompression)
    ensures
        c == png_compression_class(level),
{
    if level <= 2 {
        PngCompression::Fast
    } else if level <= 6 {
        PngCompression::Default
    } else {
        PngCompression::Best
    }
}

// ── The encoders ─────────────────────────────────────────────────────────────

#[verifier::external_type_specification]
#[verifier::external_body]
pub struct ExImageError(image::ImageError);

/// The PNG file `image`'s `PngEncoder` writes for 8-bit RGB pixels with the
/// given deflate setting and adaptive filtering.
pub uninterp spec fn png_rgb8_file(rgb: Seq<u8>, width: u32, height: u32, compression: PngCompression) -> Seq<u8>;

/// The JPEG file `image`'s `JpegEncoder` writes for 8-bit RGB pixels at the
/// given quality.
pub uninterp spec fn jpeg_rgb8_file(rgb: Seq<u8>, width: u32, height: u32, quality: u8) -> Seq<u8>;

/// The lossless WebP file `image`'s `WebPEncoder` writes for 8-bit RGB pixels.
pub uninterp spec fn webp_rgb8_file(rgb: Seq<u8>, width: u32, height: u32) -> Seq<u8>;

/// The TIFF file `image`'s `TiffEncoder` writes for 8-bit samples, one per
/// pixel when `grey`, three otherwise.
pub uninterp spec fn tiff8_file(samples: Seq<u8>, width: u32, height: u32, grey: bool) -> Seq<u8>;

/// The TIFF file `image`'s `TiffEncoder` writes for 16-bit samples, one per
/// pixel when `grey`, three otherwise.
pub uninterp spec fn tiff16_file(samples: Seq<u16>, width: u32, height: u32, grey: bool) -> Seq<u8>;

/// Bytes an image of the given size occupies at `bytes_per_pixel`.
pub open spec fn image_bytes(width: u32, height: u32, bytes_per_pixel: int) -> int {
    width * height * bytes_per_pixel
}

/// Uncompressed sample bytes up to which a classic TIFF's 32-bit offsets
/// address the whole file (2 GiB, leaving room for header and directory).
pub const TIFF_MAX_DATA_BYTES: u64 = 0x8000_0000;

/// Sizes the PNG encoder writes: any non-empty image.
pub open spec fn png_size_ok(width: u32, height: u32) -> bool {
    1 <= width && 1 <= height
}

/// Sizes the JPEG encoder writes: each side from 1 to 65535.
pub open spec fn jpeg_size_ok(width: u32, height: u32) -> bool {
    1 <= width <= 65535 && 1 <= height <= 65535
}

/// Sizes the lossless WebP encoder writes: each side from 1 to 16384.
pub open spec fn webp_size_ok(width: u32, height: u32) -> bool {
    1 <= width <= 16384 && 1 <= height <= 16384
}

/// Sizes the TIFF encoder writes at `bytes_per_pixel`: any non-empty image
/// whose samples fit in [`TIFF_MAX_DATA_BYTES`].
pub open spec fn tiff_size_ok(width: u32, height: u32, bytes_per_pixel: int) -> bool {
    1 <= width && 1 <= height && image_bytes(width, height, bytes_per_pixel) <= TIFF_MAX_DATA_BYTES
}

/// `PngEncoder::new_with_quality(.., compression, FilterType::Adaptive)` and
/// `write_image(.., ExtendedColorType::Rgb8)` into a `Vec<u8>`.
///
/// Claimed: on success the bytes are the named PNG file. `write_image` panics
/// unless the buffer holds exactly `width × height` RGB pixels, hence the
/// requirement. The `png` writer refuses only a zero width or height here: its
/// other failures are I/O errors, which a `Vec<u8>` never raises, and an
/// oversized chunk, which it avoids by splitting the image data.
#[verifier::external_body]
fn write_png_rgb8(rgb: &[u8], width: u32, height: u32, compression: PngCompression) -> (r: Result<Vec<u8>, image::ImageError>)
    requires
        rgb@.len() == image_bytes(width, height, 3),
    ensures
        r matches Ok(v) ==> v@ == png_rgb8_file(rgb@, width, height, compression),
        png_size_ok(width, height) ==> r is Ok,
{
    let compression = match compression {
        PngCompression::Fast => CompressionType::Fast,
        PngCompression::Default => CompressionType::Default,
        PngCompression::Best => CompressionType::Best,
    };
    let mut out = Vec::new();
    PngEncoder::new_with_quality(&mut out, compression, FilterType::Adaptive)
        .write_image(rgb, width, height, ExtendedColorType::Rgb8)?;
    Ok(out)
}

/// `JpegEncoder::new_with_quality(.., quality)` and
/// `write_image(.., ExtendedColorType::Rgb8)` into a `Vec<u8>`.
///
/// Claimed: on success the bytes are the named JPEG file. `write_image`
/// panics unless the buffer holds exactly `width × height` RGB pixels. The
/// encoder refuses a side outside 1 – 65535 and otherwise fails only on I/O,
/// which a `Vec<u8>` never raises; a quality outside 1 – 100 is clamped, not
/// refused.
#[verifier::external_body]
fn write_jpeg_rgb8(rgb: &[u8], width: u32, height: u32, quality: u8) -> (r: Result<Vec<u8>, image::ImageError>)
    requires
        rgb@.len() == image_bytes(width, height, 3),
    ensures
        r matches Ok(v) ==> v@ == jpeg_rgb8_file(rgb@, width, height, quality),
        jpeg_size_ok(width, height) ==> r is Ok,
{
    let mut out = Vec::new();
    JpegEncoder::new_with_quality(&mut out, quality)
        .write_image(rgb, width, height, ExtendedColorType::Rgb8)?;
    Ok(out)
}

/// `WebPEncoder::new_lossless` and `write_image(.., ExtendedColorType::Rgb8)`
/// into a `Vec<u8>`.
///
/// Claimed: on success the bytes are the named WebP file. `encode` panics
/// unless the buffer holds exactly `width × height` RGB pixels. `image-webp`
/// refuses a side outside 1 – 16384 and otherwise fails only on I/O, which a
/// `Vec<u8>` never raises.
#[verifier::external_body]
fn write_webp_rgb8(rgb: &[u8], width: u32, height: u32) -> (r: Result<Vec<u8>, image::ImageError>)
    requires
        rgb@.len() == image_bytes(width, height, 3),
    ensures
        r matches Ok(v) ==> v@ == webp_rgb8_file(rgb@, width, height),
        webp_size_ok(width, height) ==> r is Ok,
{
    let mut out = Vec::new();
    WebPEncoder::new_lossless(&mut out).write_image(rgb, width, height, ExtendedColorType::Rgb8)?;
    Ok(out)
}

/// The sample layouts a TIFF export writes.
pub enum TiffLayout {
    Grey,
    Rgb,
}

impl TiffLayout {
    /// Samples per pixel.
    pub open spec fn samples(self) -> int {
        match self {
            TiffLayout::Grey => 1,
            TiffLayout::Rgb => 3,
        }
    }

    /// Whether the layout is single-channel.
    pub open spec fn is_grey(self) -> bool {
        self is Grey
    }
}

/// `TiffEncoder::new` over a `Cursor<Vec<u8>>` and
/// `write_image(.., ExtendedColorType::L8 or Rgb8)`.
///
/// Claimed: on success the bytes are the named TIFF file. `write_image`
/// panics unless the buffer holds exactly `width × height` pixels of the
/// layout. The `tiff` encoder refuses a zero width or height, and an offset
/// past what a classic TIFF's 32-bit offsets address; with at most
/// [`TIFF_MAX_DATA_BYTES`] of uncompressed samples every offset fits. Its
/// other failures are I/O on a `Cursor<Vec<u8>>`, which never fails.
#[verifier::external_body]
fn write_tiff8(samples: &[u8], width: u32, height: u32, layout: TiffLayout) -> (r: Result<Vec<u8>, image::ImageError>)
    requires
        samples@.len() == image_bytes(width, height, layout.samples()),
    ensures
        r matches Ok(v) ==> v@ == tiff8_file(samples@, width, height, layout.is_grey()),
        tiff_size_ok(width, height, layout.samples()) ==> r is Ok,
{
    let color = match layout {
        TiffLayout::Grey => ExtendedColorType::L8,
        TiffLayout::Rgb => ExtendedColorType::Rgb8,
    };
    let mut out = std::io::Cursor::new(Vec::new());
    TiffEncoder::new(&mut out).write_image(samples, width, height, color)?;
    Ok(out.into_inner())
}

/// `TiffEncoder::new` over a `Cursor<Vec<u8>>` and
/// `write_image(.., ExtendedColorType::L16 or Rgb16)`, the samples passed in
/// native byte order as the encoder expects.
///
/// Claimed: on success the bytes are the named TIFF file. `write_image`
/// panics unless the buffer holds exactly `width × height` pixels of the
/// layout. Success holds as for [`write_tiff8`], at two bytes per sample.
#[verifier::external_body]
fn write_tiff16(samples: &[u16], width: u32, height: u32, layout: TiffLayout) -> (r: Result<Vec<u8>, image::ImageError>)
    requires
        samples@.len() == image_bytes(width, height, layout.samples()),
    ensures
        r matches Ok(v) ==> v@ == tiff16_file(samples@, width, height, layout.is_grey()),
        tiff_size_ok(width, height, 2 * layout.samples()) ==> r is Ok,
{
    let color = match layout {
        TiffLayout::Grey => ExtendedColorType::L16,
        TiffLayout::Rgb => ExtendedColorType::Rgb16,
    };
    let mut out = std::io::Cursor::new(Vec::new());
    TiffEncoder::new(&mut out).write_image(bytemuck::cast_slice(samples), width, height, color)?;
    Ok(out.into_inner())
}

/// `ImageError`'s `Display` text.
///
/// Nothing is claimed of the message.
#[verifier::external_body]
fn image_error_message(e: &image::ImageError) -> String {
    e.to_string()
}

/// An encoder's outcome in the library's terms: the file bytes unchanged on
/// success, the encoder's message on failure.
pub fn finish_encoding(r: Result<Vec<u8>, image::ImageError>) -> (out: Result<Vec<u8>, ExportError>)
    ensures
        r is Ok <==> out is Ok,
        r matches Ok(v) ==> out == Ok::<Vec<u8>, ExportError>(v),
        out matches Err(e) ==> e is Encode,
{
    match r {
        Ok(v) => Ok(v),
        Err(e) => Err(ExportError::Encode(image_error_message(&e))),
    }
}

// ── Sample preparation ───────────────────────────────────────────────────────

/// The red byte of every whole RGB8 pixel.
pub open spec fn red_bytes(rgb: Seq<u8>) -> Seq<u8> {
    Seq::new((rgb.len() / 3) as nat, |i: int| rgb[3 * i])
}

/// The little-endian u16 samples of a byte buffer; a trailing odd byte is
/// ignored.
pub open spec fn le_samples(bytes: Seq<u8>) -> Seq<u16> {
    Seq::new((bytes.len() / 2) as nat, |i: int| (bytes[2 * i] + 256 * bytes[2 * i + 1]) as u16)
}

/// The red sample of every whole RGB16 pixel.
pub open spec fn red_samples(samples: Seq<u16>) -> Seq<u16> {
    Seq::new((samples.len() / 3) as nat, |i: int| samples[3 * i])
}

/// The red byte of every pixel of an RGB8 buffer: the single channel of a
/// black-and-white export, whose render guarantees R = G = B.
pub fn red_channel8(rgb: &[u8]) -> (out: Vec<u8>)
    ensures
        out@ == red_bytes(rgb@),
{
    let len = rgb.len();
    let n = len / 3;
    let mut out: Vec<u8> = Vec::new();
    let mut i: usize = 0;
    while i < n
        invariant
            len == rgb@.len(),
            n == rgb@.len() / 3,
            i <= n,
            out@ == red_bytes(rgb@).take(i as int),
        decreases n - i,
    {
        out.push(rgb[3 * i]);
        i = i + 1;
        assert(out@ =~= red_bytes(rgb@).take(i as int));
    }
    assert(out@ =~= red_bytes(rgb@));
    out
}

/// The red sample of every pixel of an RGB16 buffer.
pub fn red_channel16(samples: &[u16]) -> (out: Vec<u16>)
    ensures
        out@ == red_samples(samples@),
{
    let len = samples.len();
    let n = len / 3;
    let mut out: Vec<u16> = Vec::new();
    let mut i: usize = 0;
    while i < n
        invariant
            len == samples@.len(),
            n == samples@.len() / 3,
            i <= n,
            out@ == red_samples(samples@).take(i as int),
        decreases n - i,
    {
        out.push(samples[3 * i]);
        i = i + 1;
        assert(out@ =~= red_samples(samples@).take(i as int));
    }
    assert(out@ =~= red_samples(samples@));
    out
}

/// Read the renderer's 16-bit output, two little-endian bytes per sample.
pub fn samples_from_le_bytes(bytes: &[u8]) -> (out: Vec<u16>)
    ensures
        out@ == le_samples(bytes@),
{
    let len = bytes.len();
    let n = len / 2;
    let mut out: Vec<u16> = Vec::new();
    let mut i: usize = 0;
    while i < n
        invariant
            len == bytes@.len(),
            n == bytes@.len() / 2,
            i <= n,
            out@ == le_samples(bytes@).take(i as int),
        decreases n - i,
    {
        let v = (bytes[2 * i] as u16) + 256 * (bytes[2 * i + 1] as u16);
        out.push(v);
        i = i + 1;
        assert(out@ =~= le_samples(bytes@).take(i as int));
    }
    assert(out@ =~= le_samples(bytes@));
    out
}

// ── Public API ───────────────────────────────────────────────────────────────

/// Bytes per pixel the renderer hands over for these settings: 16-bit TIFF
/// carries three little-endian u16 per pixel, everything else three u8.
pub open spec fn input_pixel_bytes(settings: ExportSettings) -> int {
    if settings.format is Tiff && settings.tiff_bit_depth == 16 {
        6
    } else {
        3
    }
}

/// Whether the settings ask for something no encoder here writes: TIFF at a
/// depth other than 8 or 16, or lossy WebP.
pub open spec fn refused(settings: ExportSettings) -> Option<ExportError> {
    match settings.format {
        ExportFormat::Tiff => if settings.tiff_bit_depth != 8 && settings.tiff_bit_depth != 16 {
            Some(ExportError::UnsupportedTiffBitDepth(settings.tiff_bit_depth))
        } else {
            None
        },
        ExportFormat::Webp => if !settings.webp_lossless {
            Some(ExportError::LossyWebpUnavailable)
        } else {
            None
        },
        _ => None,
    }
}

/// The file an accepted export writes.
pub open spec fn export_file(rgb: Seq<u8>, width: u32, height: u32, settings: ExportSettings) -> Seq<u8> {
    match settings.format {
        ExportFormat::Png => png_rgb8_file(rgb, width, height, png_compression_class(settings.png_compression)),
        ExportFormat::Jpeg => jpeg_rgb8_file(rgb, width, height, settings.jpeg_quality),
        ExportFormat::Webp => webp_rgb8_file(rgb, width, height),
        ExportFormat::Tiff => if settings.tiff_bit_depth == 8 {
            tiff8_file(
                if settings.is_bw { red_bytes(rgb) } else { rgb },
                width,
                height,
                settings.is_bw,
            )
        } else {
            tiff16_file(
                if settings.is_bw { red_samples(le_samples(rgb)) } else { le_samples(rgb) },
                width,
                height,
                settings.is_bw,
            )
        },
    }
}

/// Whether the encoder the settings select writes an image of this size.
pub open spec fn encodable(width: u32, height: u32, settings: ExportSettings) -> bool {
    match settings.format {
        ExportFormat::Png => png_size_ok(width, height),
        ExportFormat::Jpeg => jpeg_size_ok(width, height),
        ExportFormat::Webp => webp_size_ok(width, height),
        ExportFormat::Tiff => tiff_size_ok(width, height, input_pixel_bytes(settings)),
    }
}

/// The outcome `encode_and_save` owes for an input: the refusal where the
/// settings name something unsupported; otherwise either the file or an
/// encoder failure.
pub open spec fn export_outcome_ok(
    rgb: Seq<u8>,
    width: u32,
    height: u32,
    settings: ExportSettings,
    r: Result<Vec<u8>, ExportError>,
) -> bool {
    match refused(settings) {
        Some(e) => r == Err::<Vec<u8>, ExportError>(e),
        None => match r {
            Ok(bytes) => bytes@ == export_file(rgb, width, height, settings),
            Err(e) => e is Encode,
        },
    }
}

/// Whether `encode_and_save` may be called: the settings are refused (and
/// the buffer never read), or the buffer holds exactly `width × height`
/// pixels of what the renderer hands over for them.
pub open spec fn encode_input_fits(rgb_len: int, width: u32, height: u32, settings: ExportSettings) -> bool {
    refused(settings) is None ==> rgb_len == image_bytes(width, height, input_pixel_bytes(settings))
}

/// Checks [`encode_input_fits`], so that a caller can refuse a buffer of
/// the wrong size before the encoders see it.
pub fn encode_input_ok(rgb_len: usize, width: u32, height: u32, settings: &ExportSettings) -> (ok: bool)
    ensures
        ok == encode_input_fits(rgb_len as int, width, height, *settings),
{
    let refused_here = match settings.format {
        ExportFormat::Tiff => settings.tiff_bit_depth != 8 && settings.tiff_bit_depth != 16,
        ExportFormat::Webp => !settings.webp_lossless,
        _ => false,
    };
    if refused_here {
        return true;
    }
    let per_pixel: u128 = if matches!(settings.format, ExportFormat::Tiff) && settings.tiff_bit_depth == 16 {
        6
    } else {
        3
    };
    assert(0 <= (width as int) * (height as int) <= 0xffff_ffff * 0xffff_ffff) by (nonlinear_arith)
        requires 0 <= width <= 0xffff_ffff, 0 <= height <= 0xffff_ffff;
    let wh: u128 = (width as u128) * (height as u128);
    proof {
        assert(wh * per_pixel == image_bytes(width, height, per_pixel as int)) by (nonlinear_arith)
            requires wh == width * height;
    }
    (rgb_len as u128) == wh * per_pixel
}

/// Encode raw RGB bytes according to `settings` and return the file's bytes.
///
/// PNG, JPEG and WebP take 8-bit RGB. TIFF takes 8-bit RGB or, at 16 bits,
/// three little-endian u16 per pixel; in black-and-white mode it writes the
/// red channel alone as greyscale.
pub fn encode_and_save(rgb_bytes: Vec<u8>, width: u32, height: u32, settings: &ExportSettings) -> (r: Result<
    Vec<u8>,
    ExportError,
>)
    requires
        refused(*settings) is None ==> rgb_bytes@.len() == image_bytes(
            width,
            height,
            input_pixel_bytes(*settings),
        ),
    ensures
        export_outcome_ok(rgb_bytes@, width, height, *settings, r),
        refused(*settings) is None && encodable(width, height, *settings) ==> r is Ok,
{
    match settings.format {
        ExportFormat::Png => encode_png(&rgb_bytes, width, height, settings.png_compression),
        ExportFormat::Jpeg => encode_jpeg(&rgb_bytes, width, height, settings.jpeg_quality),
        ExportFormat::Webp => {
            if !settings.webp_lossless {
                return Err(ExportError::LossyWebpUnavailable);
            }
            finish_encoding(write_webp_rgb8(&rgb_bytes, width, height))
        },
        ExportFormat::Tiff => encode_tiff(&rgb_bytes, width, height, settings.tiff_bit_depth, settings.is_bw),
    }
}

fn encode_png(rgb: &[u8], width: u32, height: u32, compression: u8) -> (r: Result<Vec<u8>, ExportError>)
    requires
        rgb@.len() == image_bytes(width, height, 3),
    ensures
        r matches Ok(v) ==> v@ == png_rgb8_file(rgb@, width, height, png_compression_class(compression)),
        r matches Err(e) ==> e is Encode,
        png_size_ok(width, height) ==> r is Ok,
{
    finish_encoding(write_png_rgb8(rgb, width, height, png_compression_for(compression)))
}

fn encode_jpeg(rgb: &[u8], width: u32, height: u32, quality: u8) -> (r: Result<Vec<u8>, ExportError>)
    requires
        rgb@.len() == image_bytes(width, height, 3),
    ensures
        r matches Ok(v) ==> v@ == jpeg_rgb8_file(rgb@, width, height, quality),
        r matches Err(e) ==> e is Encode,
        jpeg_size_ok(width, height) ==> r is Ok,
{
    finish_encoding(write_jpeg_rgb8(rgb, width, height, quality))
}

proof fn lemma_whole_pixels(len: int, width: u32, height: u32, k: int)
    requires
        len == image_bytes(width, height, k),
        k > 0,
    ensures
        len / k == width * height,
{
    assert(len == (width * height) * k) by (nonlinear_arith)
        requires len == width * height * k;
    assert(0 <= width * height) by (nonlinear_arith);
    vstd::arithmetic::div_mod::lemma_fundamental_div_mod_converse(len, k, width * height, 0);
}

fn encode_tiff(rgb: &[u8], width: u32, height: u32, bit_depth: u8, is_bw: bool) -> (r: Result<Vec<u8>, ExportError>)
    requires
        bit_depth == 8 || bit_depth == 16 ==> rgb@.len() == image_bytes(
            width,
            height,
            if bit_depth == 16 { 6 } else { 3 },
        ),
    ensures
        bit_depth != 8 && bit_depth != 16 ==> r == Err::<Vec<u8>, ExportError>(ExportError::UnsupportedTiffBitDepth(bit_depth)),
        bit_depth == 8 ==> (r matches Ok(v) ==> v@ == tiff8_file(
            if is_bw { red_bytes(rgb@) } else { rgb@ },
            width,
            height,
            is_bw,
        )),
        bit_depth == 16 ==> (r matches Ok(v) ==> v@ == tiff16_file(
            if is_bw { red_samples(le_samples(rgb@)) } else { le_samples(rgb@) },
            width,
            height,
            is_bw,
        )),
        (bit_depth == 8 || bit_depth == 16) ==> (r matches Err(e) ==> e is Encode),
        (bit_depth == 8 || bit_depth == 16) && tiff_size_ok(
            width,
            height,
            if bit_depth == 16 { 6 } else { 3 },
        ) ==> r is Ok,
{
    proof {
        let wh = width * height;
        assert(0 <= wh) by (nonlinear_arith)
            requires wh == width * height;
        assert(image_bytes(width, height, 1) == wh && image_bytes(width, height, 2) == 2 * wh
            && image_bytes(width, height, 3) == 3 * wh && image_bytes(width, height, 6) == 6 * wh)
            by (nonlinear_arith)
            requires wh == width * height;
    }
    if bit_depth == 8 {
        if is_bw {
            let grey = red_channel8(rgb);
            proof {
                lemma_whole_pixels(rgb@.len() as int, width, height, 3);
                assert(grey@.len() == image_bytes(width, height, 1));
            }
            finish_encoding(write_tiff8(&grey, width, height, TiffLayout::Grey))
        } else {
            finish_encoding(write_tiff8(rgb, width, height, TiffLayout::Rgb))
        }
    } else if bit_depth == 16 {
        let samples = samples_from_le_bytes(rgb);
        proof {
            assert(rgb@.len() == (width * height * 3) * 2) by (nonlinear_arith)
                requires rgb@.len() == width * height * 6;
            assert(0 <= width * height * 3) by (nonlinear_arith);
            vstd::arithmetic::div_mod::lemma_fundamental_div_mod_converse(rgb@.len() as int, 2, width * height * 3, 0);
            assert(samples@.len() == image_bytes(width, height, 3));
        }
        if is_bw {
            let grey = red_channel16(&samples);
            proof {
                lemma_whole_pixels(samples@.len() as int, width, height, 3);
                assert(grey@.len() == image_bytes(width, height, 1));
            }
            finish_encoding(write_tiff16(&grey, width, height, TiffLayout::Grey))
        } else {
            finish_encoding(write_tiff16(&samples, width, height, TiffLayout::Rgb))
        }
    } else {
        Err(ExportError::UnsupportedTiffBitDepth(bit_depth))
    }
}

}
