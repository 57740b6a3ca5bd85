# open_darkroom_lib

The byte-moving half of a photo darkroom: everything between a decoded 16-bit
image and the GPU, and between the GPU's readback and a file, stated and
proved with Verus.

- `src/color.rs` — gamma decode through a lookup table and packing into
  `rgba16float` / `rgba32float` upload buffers.
- `src/image_opening.rs` — histograms, linear-light downscaling, preview and
  overview preparation, and the payload the frontend parses.
- `src/export_rendering.rs` — uniform buffers for the shaders, render input
  validation, the chunk plan, row padding and readback unpacking.
- `src/export_encoding.rs` — PNG, JPEG, lossless WebP and TIFF encoding.
- `src/export.rs` — the save dialog's filters, the save path's extension and
  the render bit depth.
- `src/colorimetry.rs` — the Planckian locus the temperature slider walks.
- `src/le_bytes.rs` — little-endian encodings shared by the above.

Floating-point work (the sRGB curve, downscale target sizes, GPU rendering),
the Tauri commands and all file I/O live in `app/`, which calls the library.

## Known differences

- **Lossy WebP is not available.** The `image` crate at 0.25 (through
  `image-webp` 0.2) ships only a lossless WebP encoder, so an export asking for
  lossy WebP is refused with `ExportError::LossyWebpUnavailable` instead of
  being written. Adding a lossy encoder (for instance `libwebp` through the
  `webp` crate) is a decision left to a maintainer; until then the
  `webp_quality` and `webp_compression` settings have no effect.
- **The Planckian locus is restated, not shared.** `src/colorimetry.rs`
  evaluates the same Kim et al. cubic fit the WGSL white-balance shader uses,
  in exact integer arithmetic, so that its monotonicity can be proved. Nothing
  ties it to the shader that actually runs on the GPU: a change to one must be
  made to the other by hand.
