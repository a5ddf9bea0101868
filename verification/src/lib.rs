//! Mixed-document PDF assembly pipeline.
//!
//! The library converts raster images into single-page A4 PDF documents,
//! merges ordered lists of image and PDF sources into one output document,
//! prepares requests for a remote merge service, and orchestrates the
//! resolution of stored documents into either merge strategy.

pub mod errors;
pub mod geometry;
pub mod textbytes;
pub mod mime;
pub mod image_api;
pub mod raster;
pub mod lopdf_api;
pub mod graph;
pub mod emit;
pub mod pagebuild;
pub mod merge;
pub mod remote;
pub mod assemble;
