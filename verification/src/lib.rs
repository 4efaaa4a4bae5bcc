//! Resolution engine that links Linux kernel tunables (`/proc/sys`) to their
//! documentation: it segments structured-text files into titled paragraphs,
//! classifies paragraphs and parameters into kernel subsystems, associates each
//! parameter with its best-matching paragraph, and persists the resolved set in
//! a timestamp-validated cache.

pub mod cache;
pub mod config;
pub mod controller;
pub mod document;
pub mod error;
pub mod glob;
pub mod json;
pub mod parser;
pub mod parameter;
pub mod section;
pub mod segment;
pub mod text;
pub mod tree;
