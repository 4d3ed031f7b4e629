//! Use of a local FreeLLMAPI server as the provider of models.
pub mod bootstrap;
pub mod config;
pub mod origin;
pub mod readiness;
pub mod server;
