//! A deterministic SQL formatter for ANSI SQL and the Dremio dialect.
//!
//! The layout engine works on a small document algebra (`Doc`), which is
//! rendered by a width-aware printer. SQL text is parsed into a plain model
//! of statements that the formatting rules read.
pub mod config;
pub mod doc;
pub mod printer;
pub mod text;
pub mod keywords;
pub mod blocks;
pub mod patterns;
pub mod commands;
pub mod dremio_format;
pub mod fragments;
pub mod literals;
pub mod literal_laws;
pub mod jinja;
pub mod tokens;
pub mod comments;
pub mod raw;
pub mod sql_model;
pub mod sql_convert;
pub mod parser;
pub mod sql_format;
pub mod expr_layout;
pub mod query_layout;
pub mod format;
pub mod cli;
pub mod keyword_laws;
