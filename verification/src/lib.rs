//! NATS binding plugin: tool calls as NATS request/reply, and a watch strategy
//! that turns the messages of a subject into change events.
//!
//! The crate holds what the plugin decides and computes, with its contracts.
//! What talks to a server, to the host or to a clock performs what is decided
//! here and reports back.
//!
//! - [`backend`]: the binding plugin, its profiles and which of them a call
//!   goes by.
//! - [`call`]: the course of a call, from its profile to its result.
//! - [`watch`]: the watch plugin and its loop.
//! - [`connection`]: the client that a plugin instance connects once and
//!   shares.
//! - [`client_registry`]: the bounded cache of per-credential clients.
//! - [`credentials`]: from the credential tokens in a spec to the client of a
//!   call.
//! - [`digest`] and [`separation`]: digests of credential bundles, and what
//!   they tell apart.
//! - [`wire`]: outbound messages and replies.
//! - [`spec`] and [`error`]: what operators write, and what can go wrong.
//! - [`laws`]: what the operations promise, in plain terms.
//! - [`json`], [`keyed`], [`order`] and [`text`]: JSON values, lists read as
//!   maps, ordered texts, and predicates on texts.

pub mod backend;
pub mod call;
pub mod client_registry;
pub mod connection;
pub mod credentials;
pub mod digest;
pub mod error;
pub mod json;
pub mod keyed;
pub mod laws;
pub mod order;
pub mod separation;
pub mod spec;
pub mod text;
pub mod watch;
pub mod wire;

pub use backend::NatsBackendPlugin;
pub use watch::NatsWatchPlugin;
