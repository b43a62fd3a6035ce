//! OnlyCodex: routing Codex Desktop through a local proxy to any
//! OpenAI-compatible provider, with the configuration edits, the catalog,
//! the sidecar's set-up and the activity log verified.
pub mod text;
pub mod config;
pub mod keyed;
pub mod json;
pub mod catalog;
pub mod toml;
pub mod codex;
pub mod sidecar;
pub mod runtime;
pub mod discovery;
pub mod proxy;
