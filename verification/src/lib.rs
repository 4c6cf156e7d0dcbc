//! Verified core of a disk space analyzer: the size-annotated file tree,
//! the cleanup detectors and the small encoders the application relies on.
pub mod sort;
pub mod tree;
pub mod icon;
pub mod text;
pub mod cleanup;
pub mod error;
pub mod scanner;
pub mod state;
