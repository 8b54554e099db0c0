//! Orchestration logic for building, deploying and initializing a workspace of
//! on-chain contract artifacts: a typed configuration model, a content-addressed
//! artifact cache, rebuild/redeploy classification, an environment-sensitive
//! update policy, an init-script planner, and the state machine of the
//! development watch loop.

pub mod bootstrap;
pub mod cache;
pub mod config;
pub mod deploy;
pub mod init;
pub mod messages;
pub mod pipeline;
pub mod text;
pub mod toml;
pub mod watch;
