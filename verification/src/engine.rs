//! Write/read engine: resolve slots, validate, stream in aligned chunks with
//! zero-padding to sector boundaries, maintain the TOC, verify, and report
//! progress through an event sink.
//!
//! Device work happens here. Work on the host's files, and turning a TOC
//! payload into a table and back, is asked for step by step: a run says what it
//! needs next, and is handed what came of it.

pub mod plan;
pub mod stream;
pub mod session;
pub mod wipe;
pub mod write;
pub mod verify;
pub mod status;
pub mod read;
pub mod laws;
