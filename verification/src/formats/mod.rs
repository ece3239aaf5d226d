//! How the bytes of a file become the text that is collected.

pub mod handler;
