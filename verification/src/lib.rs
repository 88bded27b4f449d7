//! Code intelligence helpers: symbol models, architecture rules, scoring
//! gates, source-text utilities and language-server plumbing.

pub mod error;
pub mod harness;
pub mod json;
pub mod lsp;
pub mod lsp_registry;
pub mod mcp;
pub mod model;
pub mod output;
pub mod parser;
pub mod paths;
pub mod rank;
pub mod rules;
pub mod score;
pub mod text;
