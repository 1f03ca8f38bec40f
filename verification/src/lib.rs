//! Verified core of a thermal label printer pipeline: rasterization of text
//! and images onto a fixed-height monochrome canvas, column-major bit
//! packing into the printer's byte layout, and the chunked upload / print
//! trigger wire protocol.

pub mod canvas;
pub mod chunking;
pub mod mono;
pub mod packing;
pub mod upload;
pub mod wire;
