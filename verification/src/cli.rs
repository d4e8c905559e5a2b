//! Decisions of the command line tool: its options, safety rails, plan preview,
//! output rules, tables and progress lines, apart from arguments and I/O.

pub mod rules;
pub mod human;
