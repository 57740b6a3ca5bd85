//! The decisions of the export command: which files the save dialog offers,
//! which extension the chosen path is given, and at what bit depth the image
//! is rendered. The dialog, the render and the write happen in the caller.
use vstd::prelude::*;

use crate::color::valid_channels;
use crate::export_encoding::{input_pixel_bytes, refused, ExportFormat, ExportSettings};
use crate::export_rendering::output_pixel_bytes;

verus! {

/// The extension `std::path::Path::extension` finds in `path`, if any.
pub uninterp spec fn path_extension(path: Seq<char>) -> Option<Seq<char>>;

/// The path `std::path::Path::with_extension` makes of `path` and `ext`.
pub uninterp spec fn path_with_extension(path: Seq<char>, ext: Seq<char>) -> Seq<char>;

/// `s` with ASCII letters 'A' to 'Z' mapped to 'a' to 'z' and every other
/// character unchanged.
pub open spec fn ascii_lowercase(s: Seq<char>) -> Seq<char> {
    s.map_values(|c: char| if 'A' <= c && c <= 'Z' { ((c as int) + 32) as char } else { c })
}

/// `Path::new(path).extension()`, read back as a `String`.
///
/// Claimed: the result is the named extension of `path`. A `&str` path is
/// UTF-8 and so is every part of it, so the conversion loses nothing.
#[verifier::external_body]
fn extension_of(path: &str) -> (r: Option<String>)
    ensures
        r is Some <==> path_extension(path@) is Some,
        r matches Some(e) ==> path_extension(path@) == Some(e@),
{
    match std::path::Path::new(path).extension() {
        Some(e) => Some(e.to_string_lossy().into_owned()),
        None => None,
    }
}

/// `str::to_ascii_lowercase`.
///
/// Claimed, as its documentation states: ASCII letters 'A' to 'Z' are mapped
/// to 'a' to 'z' and every other character is unchanged.
#[verifier::external_body]
fn ascii_lowercase_of(s: &str) -> (r: String)
    ensures
        r@ == ascii_lowercase(s@),
{
    s.to_ascii_lowercase()
}

/// No path separator in `ext`: neither `/` nor, as on Windows, a backslash.
pub open spec fn no_separator(ext: Seq<char>) -> bool {
    !ext.contains('/') && !ext.contains('\\')
}

/// An extension that, once set, is read back whole as the path's extension:
/// non-empty, without a dot and without a path separator.
pub open spec fn plain_extension(ext: Seq<char>) -> bool {
    ext.len() > 0 && !ext.contains('.') && no_separator(ext)
}

/// `Path::new(path).with_extension(ext)`, read back as a `String`.
///
/// Claimed: the result is the named path. `PathBuf::set_extension`, which it
/// runs, panics when `ext` holds a path separator, hence the requirement. As
/// its documentation says, it leaves a path without a file name unchanged and
/// otherwise adds or replaces the extension; so when the path did change, and
/// `ext` is plain, `Path::extension` of the result is `ext`. A UTF-8 path
/// given a UTF-8 extension stays UTF-8, so the conversion loses nothing.
#[verifier::external_body]
fn with_extension(path: &str, ext: &str) -> (r: String)
    requires
        no_separator(ext@),
    ensures
        r@ == path_with_extension(path@, ext@),
        plain_extension(ext@) && r@ != path@ ==> path_extension(r@) == Some(ext@),
{
    std::path::Path::new(path).with_extension(ext).to_string_lossy().into_owned()
}

/// Whether `path` already carries `ext`, compared ASCII-case-insensitively on
/// the path's side.
pub open spec fn has_extension(path: Seq<char>, ext: Seq<char>) -> bool {
    match path_extension(path) {
        Some(e) => ascii_lowercase(e) == ext,
        None => false,
    }
}

/// The path an export is written to: `path` itself when it already ends in
/// `ext` (in any case), otherwise `path` with its extension replaced by
/// `ext`.
pub open spec fn path_for_export(path: Seq<char>, ext: Seq<char>) -> Seq<char> {
    if has_extension(path, ext) {
        path
    } else {
        path_with_extension(path, ext)
    }
}

/// Give `path` the extension `ext` unless it already has it, ignoring ASCII
/// case on the path's side.
///
/// For a plain lowercase extension the result either is the path unchanged
/// or carries `ext`, and giving it the extension again changes nothing.
pub fn ensure_extension(path: String, ext: &str) -> (r: String)
    requires
        no_separator(ext@),
    ensures
        r@ == path_for_export(path@, ext@),
        plain_extension(ext@) && ascii_lowercase(ext@) == ext@ ==> (r@ == path@ || has_extension(
            r@,
            ext@,
        )),
        plain_extension(ext@) && ascii_lowercase(ext@) == ext@ ==> path_for_export(r@, ext@)
            == r@,
{
    let matches = match extension_of(path.as_str()) {
        Some(e) => {
            let lowered = ascii_lowercase_of(e.as_str());
            lowered == ext.to_owned()
        },
        None => false,
    };
    if matches {
        path
    } else {
        with_extension(path.as_str(), ext)
    }
}

/// The extension an export in `format` is saved with.
pub open spec fn format_extension(format: ExportFormat) -> Seq<char> {
    match format {
        ExportFormat::Png => "png"@,
        ExportFormat::Jpeg => "jpg"@,
        ExportFormat::Webp => "webp"@,
        ExportFormat::Tiff => "tiff"@,
    }
}

/// The extension an export in `format` is saved with.
pub fn extension_for(format: &ExportFormat) -> (ext: &'static str)
    ensures
        ext@ == format_extension(*format),
{
    match format {
        ExportFormat::Png => "png",
        ExportFormat::Jpeg => "jpg",
        ExportFormat::Webp => "webp",
        ExportFormat::Tiff => "tiff",
    }
}

/// The save dialog's filter for `format`: its label and the extensions it
/// lists.
pub open spec fn dialog_filter(format: ExportFormat) -> (Seq<char>, Seq<Seq<char>>) {
    match format {
        ExportFormat::Png => ("PNG Image"@, seq!["png"@]),
        ExportFormat::Jpeg => ("JPEG Image"@, seq!["jpg"@, "jpeg"@]),
        ExportFormat::Webp => ("WebP Image"@, seq!["webp"@]),
        ExportFormat::Tiff => ("TIFF Image"@, seq!["tiff"@, "tif"@]),
    }
}

/// The save dialog's filter for `format`: its label and the extensions it
/// lists.
pub fn save_filter(format: &ExportFormat) -> (filter: (&'static str, Vec<&'static str>))
    ensures
        filter.0@ == dialog_filter(*format).0,
        filter.1@.map_values(|e: &'static str| e@) == dialog_filter(*format).1,
{
    let filter = match format {
        ExportFormat::Png => ("PNG Image", vec!["png"]),
        ExportFormat::Jpeg => ("JPEG Image", vec!["jpg", "jpeg"]),
        ExportFormat::Webp => ("WebP Image", vec!["webp"]),
        ExportFormat::Tiff => ("TIFF Image", vec!["tiff", "tif"]),
    };
    assert(filter.1@.map_values(|e: &'static str| e@) =~= dialog_filter(*format).1);
    filter
}

/// The bit depth the image is rendered at: TIFF's own setting, 8 otherwise.
pub open spec fn render_depth(settings: ExportSettings) -> u8 {
    if settings.format is Tiff {
        settings.tiff_bit_depth
    } else {
        8
    }
}

/// The bit depth the image is rendered at for these settings.
pub fn render_bit_depth(settings: &ExportSettings) -> (depth: u8)
    ensures
        depth == render_depth(*settings),
{
    match settings.format {
        ExportFormat::Tiff => settings.tiff_bit_depth,
        _ => 8,
    }
}


/// The extension a file is saved with is the first one its dialog filter
/// offers.
pub proof fn lemma_saved_extension_is_offered(format: ExportFormat)
    ensures
        dialog_filter(format).1.len() >= 1,
        dialog_filter(format).1[0] == format_extension(format),
{
}

/// Whatever the settings, once the encoder accepts them, the renderer run at
/// the depth they choose hands over exactly as many bytes per pixel as the
/// encoder reads.
pub proof fn lemma_render_depth_feeds_the_encoder(settings: ExportSettings)
    requires
        refused(settings) is None,
    ensures
        output_pixel_bytes(render_depth(settings)) == input_pixel_bytes(settings),
{
}


/// The interleaved RGBA the renderer takes for a source of `channels`
/// samples per pixel: an RGBA source as it is, an RGB one with an opaque
/// alpha after every pixel (a trailing partial pixel dropped).
pub open spec fn render_rgba(src: Seq<u16>, channels: usize) -> Seq<u16> {
    if channels == 4 {
        src
    } else {
        Seq::new(
            ((src.len() / 3) * 4) as nat,
            |j: int| if j % 4 < 3 { src[(j / 4) * 3 + j % 4] } else { 65535u16 },
        )
    }
}

/// Widen a decoded source to the interleaved RGBA the renderer takes.
pub fn widen_to_rgba(src: &[u16], channels: usize) -> (out: Vec<u16>)
    requires
        valid_channels(channels),
    ensures
        out@ == render_rgba(src@, channels),
{
    if channels == 4 {
        let mut out: Vec<u16> = Vec::new();
        out.extend_from_slice(src);
        assert(out@ =~= src@);
        return out;
    }
    let len = src.len();
    let n = len / 3;
    let mut out: Vec<u16> = Vec::new();
    let mut p: usize = 0;
    while p < n
        invariant
            channels == 3,
            len == src@.len(),
            n == len / 3,
            3 * n <= len,
            p <= n,
            out@ == render_rgba(src@, channels).take(4 * p as int),
        decreases n - p,
    {
        let s = 3 * p;
        out.push(src[s]);
        out.push(src[s + 1]);
        out.push(src[s + 2]);
        out.push(65535u16);
        proof {
            let want = render_rgba(src@, channels);
            assert forall|j: int| 4 * p <= j < 4 * p + 4 implies #[trigger] want[j] == out@[j] by {
                assert(j / 4 == p as int);
            }
        }
        p = p + 1;
        assert(out@ =~= render_rgba(src@, channels).take(4 * p as int));
    }
    assert(out@ =~= render_rgba(src@, channels));
    out
}

}
