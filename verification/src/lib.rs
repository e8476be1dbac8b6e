pub mod json;
pub mod workflow;
pub mod counting;
pub mod workflow_engine;
pub mod rule;
pub mod rule_engine;
pub mod text;
pub mod undo;
pub mod clock;
pub mod paths;
pub mod ingest;
pub mod settings;
pub mod crud;
pub mod node_registry;
pub mod executors;
pub mod app_core;
pub mod hex;
pub mod auth;
pub mod ids;
pub mod file_ops;
pub mod watcher;
pub mod lifecycle;
pub mod rows;
pub mod runs_api;
pub mod events_api;
pub mod watcher_api;
pub mod desktop;
pub mod laws;
pub mod payloads;
pub mod api;
pub mod decimal;
pub mod native_shell;
