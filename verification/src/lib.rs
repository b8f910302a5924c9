//! Verified rendering core for an e-ink / LCD picture-frame panel.
//!
//! The pipeline turns a decoded RGBA photograph plus a per-panel
//! configuration into the exact byte stream the panel expects:
//! composition onto the panel canvas (`compose`), tonal adjustment
//! (`adjust`), timestamp overlay (`timestamp`), palette reduction by
//! dithering (`dither` and its algorithm modules), and device byte
//! encoding (`encode`).

pub mod adjust;
pub mod api;
pub mod color;
pub mod compose;
pub mod config;
pub mod diffusion;
pub mod dither;
pub mod encode;
pub mod imgops;
pub mod ordered;
pub mod pipeline;
pub mod quant;
pub mod raster;
pub mod timestamp;
pub mod yliluoma;
