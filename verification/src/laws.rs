//! What the operations promise, said of their inputs and results alone.

pub mod plans;
pub mod reports;
pub mod lengths;
pub mod manifests;
pub mod sizes;
pub mod exports;
pub mod layouts;
pub mod cards;
pub mod summaries;
pub mod commands;
pub mod frontend;
pub mod dialogs;
pub mod hosts;
pub mod decisions;
pub mod streams;
pub mod figures;
pub mod views;
pub mod quoting;
pub mod errors;
pub mod effects;
pub mod calls;
