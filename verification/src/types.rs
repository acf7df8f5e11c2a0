//! Records shared by the library and the programs around it.

use vstd::prelude::*;
use crate::text::{copy_strings, copy_text, texts};

verus! {

/// The parameters of a tunnel, as the proxy hands them out.
#[derive(Debug)]
pub struct ProxyServer {
    pub address: String,
    pub mask: String,
    pub gateway: String,
    pub dns: String,
    pub wins: String,
    pub split_tunnel_routes: Vec<String>,
}

/// The texts in a [`ProxyServer`].
#[verifier::ext_equal]
pub struct ProxyServerView {
    pub address: Seq<char>,
    pub mask: Seq<char>,
    pub gateway: Seq<char>,
    pub dns: Seq<char>,
    pub wins: Seq<char>,
    pub split_tunnel_routes: Seq<Seq<char>>,
}

impl View for ProxyServer {
    type V = ProxyServerView;

    open spec fn view(&self) -> ProxyServerView {
        ProxyServerView {
            address: self.address@,
            mask: self.mask@,
            gateway: self.gateway@,
            dns: self.dns@,
            wins: self.wins@,
            split_tunnel_routes: texts(self.split_tunnel_routes@),
        }
    }
}

impl Clone for ProxyServer {
    fn clone(&self) -> (r: Self)
        ensures
            r@ == self@,
    {
        ProxyServer {
            address: copy_text(&self.address),
            mask: copy_text(&self.mask),
            gateway: copy_text(&self.gateway),
            dns: copy_text(&self.dns),
            wins: copy_text(&self.wins),
            split_tunnel_routes: copy_strings(&self.split_tunnel_routes),
        }
    }
}

/// How a session is started.
#[derive(Debug, Clone, Copy)]
pub struct StartOptions {
    /// Accept any certificate of the proxy.
    pub no_verification: bool,
}

impl Default for StartOptions {
    /// The certificate of the proxy is verified.
    fn default() -> (r: Self)
        ensures
            !r.no_verification,
    {
        StartOptions { no_verification: false }
    }
}

} // verus!
