//! What the command line client decides; the program around it does what is decided.

pub mod routes;
pub mod plan;
pub mod command_laws;
pub mod commands;
pub mod route_laws;
pub mod linux;
pub mod cleanup;
pub mod bootstrap;
pub mod windows;
pub mod credentials;
pub mod keyring;
pub mod device;
pub mod run;
