//! A dual-protocol forward proxy (HTTP and SOCKS5) with a small DNS
//! resolver, as a library of verified protocol logic: codecs, tables and
//! the decisions of each handler, free of I/O.

pub mod address;
pub mod config;
pub mod dns;
pub mod endian;
pub mod http;
pub mod socks;
pub mod text;

use vstd::prelude::*;
use crate::socks::{is_greeting, is_socks5_proxy};

verus! {

/// How many octets of a new connection are looked at to tell its
/// protocol: the longest greeting of SOCKS5 has 257.
pub const PEEK_SIZE: usize = 257;

/// The protocol that a client speaks.
#[derive(Clone, Copy, Debug, PartialEq, Eq, Structural)]
pub enum Protocol {
    /// SOCKS5.
    Socks5,
    /// HTTP.
    Http,
}

/// Tells the protocol of a connection from its first octets: SOCKS5
/// where they are a greeting, HTTP where they are anything else.
pub fn detect(peeked: &[u8]) -> (protocol: Protocol)
    ensures
        protocol == (if is_greeting(peeked@) {
            Protocol::Socks5
        } else {
            Protocol::Http
        }),
{
    if is_socks5_proxy(peeked) {
        Protocol::Socks5
    } else {
        Protocol::Http
    }
}

} // verus!
