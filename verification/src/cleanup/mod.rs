//! Detection of files and directories that can likely be removed to free
//! space: temporary files, browser caches, duplicate files and leftover
//! Docker data.
pub mod detector;
pub mod docker;
pub mod duplicate;
pub mod temp;
pub mod report;
