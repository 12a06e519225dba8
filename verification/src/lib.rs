//! Commit-message tooling: a segment-aware text wrapper and the small pure
//! helpers that surround it, with machine-checked contracts.

pub mod chars;
pub mod cli;
pub mod config;
pub mod constants;
pub mod generate;
pub mod number;
pub mod sanitizer;
pub mod search;
pub mod split;
pub mod template_engine;
pub mod text_wrapper;
pub mod update_checker;
pub mod width;
