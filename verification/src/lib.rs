//! Conversion of timed overlay ("danmaku") comment streams into ASS subtitle
//! markup, with collision-avoiding row layout and exact output formatting.
//!
//! All continuous quantities are held as scaled integers: playback times in
//! milliseconds, estimated text dimensions in hundredths of a pixel
//! ("centipixels"), opacities in thousandths ("per-mille"), and scripted
//! animation coordinates in millionths of a reference-canvas unit before
//! zoom mapping.

pub mod comment;
pub mod convert;
pub mod error;
pub mod filter;
pub mod reader;
pub mod text;
pub mod writer;
