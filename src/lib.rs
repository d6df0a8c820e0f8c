//! Recursive cleaning of build-output directories: deciding which directories
//! are build roots, which clean actions run there, and in which order a tree is
//! walked under a depth budget and a set of excluded name suffixes.

pub mod mode;
pub mod exclude;
pub mod walk;
pub mod laws;
pub mod config;
