//! Removal of text from rasterized slide images.
//!
//! The library locates text regions reported by an external detector,
//! turns them into axis-aligned text boxes, orders them for reading,
//! renders a binary erase mask, and drives the decision side of a
//! two-service pipeline (text detection, then inpainting). All geometry,
//! ordering, rasterization and pipeline policy is verified; the network
//! calls themselves are made by an unverified driver around the library.

pub mod codec;
pub mod geometry;
pub mod mask;
pub mod pipeline;
pub mod reading_order;

pub mod gemini;
pub mod llm;
pub mod storage;
pub mod stream_helper;
pub mod video;
