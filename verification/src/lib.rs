//! Session, routing and credential logic of a WebVPN tunnel client.

pub mod address_laws;
pub mod auth;
pub mod cli;
pub mod failure;
pub mod ipv6_laws;
pub mod message_laws;
pub mod net;
pub mod numeral;
pub mod sorted;
pub mod text;
pub mod text_laws;
pub mod types;
pub mod vpn;
