//! Maps a media library on disk (one directory per title, one JSON sidecar per
//! episode) to titles, episodes and percent-encoded asset URLs.
pub mod asset_url;
pub mod encoding;
pub mod error;
pub mod fixtures;
pub mod library;
pub mod model;
pub mod order;
pub mod sidecar;
