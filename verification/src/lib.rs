//! Core logic of an HLS (HTTP Live Streaming) downloader: playlist parsing,
//! key resolution, download scheduling, AES-128-CBC segment decryption and
//! ordered reassembly. All I/O (network, filesystem, external processes)
//! lives outside this crate; the functions here compute plans, names and
//! byte transformations from plain values, with verified contracts.

pub mod combine;
pub mod common;
pub mod download;
pub mod m3u8;
pub mod strings;
