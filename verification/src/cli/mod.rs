//! What users ask for on the command line.
pub mod args;
pub mod commands;
pub mod util;
