//! Detection of the JavaScript workspace manager that governs a directory,
//! and of the directory that is the root of its workspace.

pub mod listing;
pub mod manager;
pub mod path;
pub mod root;
pub mod search;
