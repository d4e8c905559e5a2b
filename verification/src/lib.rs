//! Card layout model, streaming write/read engine, on-card table of contents,
//! and frontend decisions for keeping vintage disk images at fixed offsets of
//! an SD card.

pub mod search;
pub mod text;
pub mod paths;
pub mod powers;
pub mod error;
pub mod units;
pub mod drive_types;
pub mod events;
pub mod device;
pub mod sha;
pub mod layout;
pub mod manifest;
pub mod buffer;
pub mod transfer;
pub mod toc;
pub mod engine;
pub mod gui;
pub mod cli;
pub mod rtl;
pub mod lines;
pub mod platform;
pub mod laws;
