//! Capsule runtime: the verified core of a browser-terminal session service.

pub mod text;
pub mod docker;
pub mod pty;
pub mod session;
pub mod free_keys;
pub mod api;
pub mod websocket;
pub mod observal;
pub mod proxy;
