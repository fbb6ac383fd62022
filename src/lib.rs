//! Groups bookmark records by their UTC creation date and renders them as a
//! Markdown document with one section per date.

pub mod buckets;
pub mod config;
pub mod date;
pub mod group;
pub mod laws;
pub mod render;
pub mod response;
