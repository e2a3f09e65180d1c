//! The configuration of the proxy.

use vstd::prelude::*;
use vstd::string::*;
use crate::text::{decimal, push_decimal};

verus! {

/// Where the proxy listens and, if set, the credentials it asks for. It is
/// made once and not changed afterwards.
#[derive(Clone, Debug, PartialEq, Eq)]
pub struct Config {
    /// The host to listen on.
    pub host: String,
    /// The port to listen on.
    pub port: u16,
    /// The username that SOCKS5 clients must present, if any.
    pub username: Option<String>,
    /// The password that SOCKS5 clients must present, if any.
    pub password: Option<String>,
}

impl Config {
    /// Authentication is asked for exactly when both a username and a
    /// password are set.
    pub open spec fn spec_has_auth(&self) -> bool {
        self.username is Some && self.password is Some
    }

    /// The address to listen on, `host:port`.
    pub open spec fn spec_address(&self) -> Seq<char> {
        self.host@ + ":"@ + decimal(self.port as nat)
    }

    /// The address to listen on, `host:port`.
    pub fn address(&self) -> (addr: String)
        ensures
            addr@ == self.spec_address(),
    {
        let mut addr = self.host.clone();
        addr.append(":");
        push_decimal(&mut addr, self.port as u32);
        addr
    }

    /// Whether clients must authenticate.
    #[verifier::when_used_as_spec(spec_has_auth)]
    pub fn has_auth(&self) -> (auth: bool)
        ensures
            auth <==> self.username is Some && self.password is Some,
    {
        self.username.is_some() && self.password.is_some()
    }
}

} // verus!
