//! A scriptable connection router: every inbound connection is described to a
//! routing script, whose decision says whether the connection is blocked, held
//! open, or proxied to a target. This crate holds the verified core: the job
//! queue with its correlation table, the worker-side script harness and
//! hot-reloadable script store, the connection state machine, and the small
//! host utilities the sandbox calls.
pub mod decision;
pub mod queue;
pub mod script;
pub mod connection;
pub mod bridge;
pub mod diagnostics;
pub mod ports;
