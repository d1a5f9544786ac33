//! Verified core of a weather-station map-tile service: decoding of
//! fixed-width station records, per-station aggregation, time-window
//! selection over sorted measurement series, and rasterization of colored
//! station dots, with gzip decompression and PNG encoding called through
//! contracted wrappers.

pub mod errors;
pub mod timebase;
pub mod records;
pub mod parse;
pub mod ingest;
pub mod files;
pub mod pipeline;
pub mod render;
pub mod tile;
