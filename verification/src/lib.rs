//! Core logic of a resumable, multi-connection download accelerator:
//! range planning, adaptive concurrency, retry policy, stream accounting,
//! header parsing and the lightweight text scoring helpers.

pub mod ranges;
pub mod adaptive;
pub mod text;
pub mod ai;
pub mod config;
pub mod dashboard;
pub mod models;
pub mod engine;
pub mod fileio;
