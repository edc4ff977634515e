//! Orchestration logic for parallel coding agents: task decomposition,
//! a shared workspace between agents, synthesis of their results, and the
//! agent panel's configuration and prompt routing.

pub mod text;
pub mod supervisor;
pub mod workspace;
pub mod synthesis;
pub mod config;
pub mod agent;
pub mod ai_client;
pub mod context;
pub mod history;
pub mod context_builder;
pub mod router;
