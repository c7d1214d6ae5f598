//! Core logic of a developer-focused terminal system monitor: process
//! classification, sorting and filtering, key handling, CPU history and
//! container statistics bookkeeping.

pub mod app;
pub mod devices;
pub mod docker;
pub mod layout;
pub mod process;
pub mod text;
pub mod types;
pub mod units;

