//! Texture handle cache that makes externally owned images addressable by
//! small integer handles, one per (image, sampling options) pair.

pub mod decimal;
pub mod image_id;
pub mod laws;
pub mod loader;
pub mod options;
