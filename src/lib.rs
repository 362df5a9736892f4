//! Sorts the files of one directory into subdirectories named after a
//! category derived from each file's extension.
//!
//! The library decides; the caller performs the filesystem work it asks for.

pub mod category;
pub mod extension;
pub mod organizer;
pub mod theorems;
