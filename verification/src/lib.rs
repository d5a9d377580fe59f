//! A structural diff engine for SVG documents.
//!
//! Given an ordered sequence of SVG documents the library matches the elements
//! of each adjacent pair, rewrites the first document so that every surviving
//! element carries a stable matching identifier, and emits a typed edit script
//! (add, remove, move, change-properties, change-text) that transforms the
//! identified document into the next one.

pub mod config;
pub mod diff;
pub mod errors;
pub mod flat_tree;
pub mod hasher;
pub mod number;
pub mod svg_data;
pub mod text;
pub mod tokens;
