//! Configuration documents read by dotted paths, with coercion of what a
//! path leads to, and named text templates whose placeholders are replaced
//! from a callback, a list or named pairs.

pub mod search;
pub mod number;
pub mod text;
pub mod config;
pub mod template;
pub mod db;
