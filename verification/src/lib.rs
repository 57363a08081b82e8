//! A script-execution broker: turns a directory tree of handler source files
//! into HTTP routes, running each handler inside an isolated execution
//! context of an embedded engine.
//!
//! The library holds the verified core: the request/response contract, the
//! JSON framing of requests handed to the engine, route discovery from file
//! names, and the broker's handle/generation state machine. Transport and
//! engine plumbing live outside the library and reach it only through plain
//! values.

pub mod contract;
pub mod json;
pub mod discovery;
pub mod engine;
pub mod broker;
pub mod dispatch;
