//! Pixel preparation, payload framing and export encoding for a photo
//! darkroom: the parts of the pipeline that move bytes rather than light.

pub mod color;
pub mod colorimetry;
pub mod export;
pub mod export_encoding;
pub mod export_rendering;
pub mod image_opening;
pub mod le_bytes;
