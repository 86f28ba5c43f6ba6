//! Pixel-buffer transforms (grayscale, channel isolation, difference, HSV)
//! and a per-channel intensity histogram, over interleaved RGB byte buffers.

pub mod hist;
pub mod image_op;
