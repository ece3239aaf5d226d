//! Path filtering, ignore-rule collection and tree rendering for gathering
//! the files of a project into one text document.

pub mod cli;
pub mod collector;
pub mod config;
pub mod formats;
pub mod path;
pub mod pruning;
pub mod snapshot;
pub mod text;
pub mod utils;
