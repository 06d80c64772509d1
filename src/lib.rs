//! A declarative data-pipeline engine: typed data envelopes, configuration
//! reference resolution, the step executor's retry and continue-or-abort
//! policy, and durable, lockable pipeline state.
pub mod backend;
pub mod cache;
pub mod config;
pub mod data;
pub mod json_path;
pub mod json_text;
pub mod manager;
pub mod pipeline;
pub mod project;
pub mod repair;
pub mod resolver;
pub mod schema;
pub mod stages;
pub mod state;
pub mod text;
pub mod tracker;
