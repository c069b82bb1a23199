//! Decoding of the two wire formats into canonical comment records.

pub mod protobuf;
pub mod special;
pub mod xml;
pub mod utils;
