//! Core logic of a single-node module orchestrator: the framed mail codec
//! spoken with child processes, the topic bus, per-module topic wiring, the
//! supervision state machine of a module's process and the module registry.

pub mod mail;
pub mod module;
pub mod utility;
pub mod bus;
pub mod event;
pub mod controller;
pub mod binary;
pub mod manager;
pub mod plugin;
pub mod actor;
