//! Building UStar archives: header encoding, entry collection and stream assembly.

pub mod archive;
pub mod args;
pub mod files;
pub mod header;
pub mod octal;
