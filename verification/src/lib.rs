//! A personal knowledge base: entries, relationships between them, and the
//! rules that keep both consistent.

pub mod domain;
pub mod errors;
pub mod ids;
pub mod cli;
pub mod config;
pub mod ports;
pub mod service;
pub mod sql;
pub mod text;
