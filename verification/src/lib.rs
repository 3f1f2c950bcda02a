//! Question banks, scoring and interview-session logic for the `judge`
//! terminal interview tool, with machine-checked contracts.

pub mod cli;
pub mod config;
pub mod digest;
pub mod export;
pub mod html;
pub mod json;
pub mod keyed;
pub mod lexical;
pub mod llm;
pub mod models;
pub mod qb;
pub mod report;
pub mod roles;
pub mod store;
pub mod text;
pub mod tui;
