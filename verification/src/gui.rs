//! Decisions of the graphical frontend: what its events, lists, maps and
//! dialogs amount to, apart from drawing and subprocesses.

pub mod ops;
pub mod backend;
pub mod devices;
pub mod slots;
pub mod target;
pub mod log;
pub mod card;
pub mod options;
pub mod dialogs;
pub mod rows;
pub mod args;
pub mod icon;
pub mod poll;
