//! A small peer-broadcast chat library: a binary message codec, a
//! length-prefixed framed transport, the server's client registry and
//! broadcast distributor, and the client's session state machine.
//!
//! Everything that computes or decides lives here with a contract; the
//! surrounding processes only move bytes between sockets, disk and this
//! library.

pub mod codec;
pub mod config;
pub mod distributor;
pub mod frame;
pub mod registry;
pub mod session;
pub mod shim;
pub mod text;
