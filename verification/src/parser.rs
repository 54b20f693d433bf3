//! Readers for what a download page shows.
pub mod download;
pub mod size;
