//! Logpushi: replays historical log files, or rewrites their timestamps into a
//! recent window, and prepares the resulting events for a SIEM endpoint.

pub mod accounting;
pub mod classes;
pub mod cli;
pub mod clock;
pub mod config;
pub mod detectors;
pub mod discovery;
pub mod event;
pub mod formats;
pub mod inventory;
pub mod json;
pub mod laws;
pub mod lines;
pub mod moments;
pub mod pipeline;
pub mod redetection;
pub mod render;
pub mod roundtrip;
pub mod sampling;
pub mod settings;
pub mod stats;
pub mod text;
pub mod timestamp;
pub mod transport;
