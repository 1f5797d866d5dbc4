//! Catalogue of MCP server launch definitions, kept in three scopes
//! (master template, per-user global, per-project local) and projected
//! into external tool configuration files.

pub mod cli;
pub mod codex;
pub mod commands;
pub mod error;
pub mod json;
pub mod kv;
pub mod expand;
pub mod gemini;
pub mod model;
pub mod paths;
pub mod scopes;
