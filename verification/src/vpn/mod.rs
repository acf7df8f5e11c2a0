//! The tunnel service: its state, how a session is started, and how it is served.

pub mod actor;
pub mod service;
pub mod start;
