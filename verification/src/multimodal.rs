//! Mixed text, image and audio input: descriptions of the pieces, checks on
//! what is handed to the media encoder, and position accounting.

pub mod error;
pub mod bitmap;
pub mod chunks;
pub mod context;
