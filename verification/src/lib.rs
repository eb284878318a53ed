//! Core of a command-link tool: it lets a command that lives inside a Linux
//! subsystem be invoked from the host as if it were a native executable.
//!
//! A *linked command* is a launcher placed on the host `PATH` whose file stem
//! matches the target command; running it forwards the invocation into the
//! subsystem. This crate holds the verified core:
//!
//! - [`path`]: translation between host and subsystem path representations;
//! - [`store`]: the link store, one launcher entry per linked name;
//! - [`manager`]: add / remove / list semantics with per-name batch results;
//! - [`redirect`]: the invocation plan a launcher executes at run time;
//! - [`management`]: the management-mode entry point and its help text.
//!
//! Process launching, filesystem writes and stream relaying are performed by
//! the surrounding binary; every decision they act on is computed and proved
//! here.

pub mod error;
pub mod management;
pub mod manager;
pub mod order;
pub mod path;
pub mod redirect;
pub mod store;
