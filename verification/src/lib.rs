//! Detection and removal planning for macOS metadata (`.DS_Store`,
//! AppleDouble `._*` files and `__MACOSX` folders) in ZIP archives, folders
//! and Git working trees.
//!
//! The library holds every rule and decision; the program around it performs
//! the filesystem, ZIP and Git work and reports what it observed.

pub mod bytepath;
pub mod cli;
pub mod folder_cleaner;
pub mod metadata;
pub mod observation;
pub mod order;
pub mod repo_cleaner;
pub mod text;
pub mod zip_cleaner;
