//! ferrox — verified media-container, caching and asset-graph core.

pub mod bytes;
pub mod error;
pub mod frame;
pub mod video;
pub mod mux;
pub mod text;
pub mod crc;
pub mod codecs;
pub mod cache;
pub mod asset;
pub mod extract;
pub mod kinds;
pub mod ai;
