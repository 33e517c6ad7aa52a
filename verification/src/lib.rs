//! Finds subtitles for a video file: fingerprints the file, builds the
//! search address, ranks the candidates that a results page lists, and
//! orders and extracts the members of the downloaded archive.
pub mod archive;
pub mod crawler;
pub mod error;
pub mod fingerprint;
pub mod numbers;
pub mod pipeline;
pub mod query;
pub mod text;
