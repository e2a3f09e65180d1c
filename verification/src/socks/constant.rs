//! The one-octet codes of the SOCKS5 protocol: authentication methods,
//! commands, reply codes and address types.

use vstd::prelude::*;
use vstd::std_specs::convert::FromSpecImpl;
use crate::address::{IpAddress, SocketAddress};

verus! {

/// An authentication method offered in a greeting.
#[derive(Clone, Copy, Debug, PartialEq, Eq, Structural)]
pub enum Method {
    /// No authentication, `0x00`.
    NoAuth,
    /// GSSAPI, `0x01`.
    GSSAPI,
    /// Username and password, `0x02`.
    UserPwd,
    /// Assigned by IANA, `0x03` to `0x7E`.
    IANA,
    /// For private use, `0x80` to `0xFE`.
    Priv,
    /// No acceptable method, `0xFF`.
    Refuse,
}

impl Method {
    /// The method that an octet stands for. `0x7F`, which no range covers, is
    /// read as `Refuse`.
    pub open spec fn of_code(value: u8) -> Method {
        if value == 0 {
            Method::NoAuth
        } else if value == 1 {
            Method::GSSAPI
        } else if value == 2 {
            Method::UserPwd
        } else if value <= 0x7E {
            Method::IANA
        } else if 0x80 <= value <= 0xFE {
            Method::Priv
        } else {
            Method::Refuse
        }
    }

    /// The octet that stands for this method on the wire; for a range of
    /// codes, its first one.
    pub open spec fn spec_code(self) -> u8 {
        match self {
            Method::NoAuth => 0x00,
            Method::GSSAPI => 0x01,
            Method::UserPwd => 0x02,
            Method::IANA => 0x03,
            Method::Priv => 0x80,
            Method::Refuse => 0xFF,
        }
    }

    /// The octet that stands for this method on the wire.
    #[verifier::when_used_as_spec(spec_code)]
    pub fn code(self) -> (c: u8)
        ensures
            c == self.spec_code(),
    {
        match self {
            Method::NoAuth => 0x00,
            Method::GSSAPI => 0x01,
            Method::UserPwd => 0x02,
            Method::IANA => 0x03,
            Method::Priv => 0x80,
            Method::Refuse => 0xFF,
        }
    }
}

impl From<u8> for Method {
    fn from(value: u8) -> (method: Method) {
        if value == 0 {
            Method::NoAuth
        } else if value == 1 {
            Method::GSSAPI
        } else if value == 2 {
            Method::UserPwd
        } else if value <= 0x7E {
            Method::IANA
        } else if 0x80 <= value && value <= 0xFE {
            Method::Priv
        } else {
            Method::Refuse
        }
    }
}

impl FromSpecImpl<u8> for Method {
    open spec fn obeys_from_spec() -> bool {
        true
    }

    open spec fn from_spec(value: u8) -> Method {
        Method::of_code(value)
    }
}

/// The command of a request.
#[derive(Clone, Copy, Debug, PartialEq, Eq, Structural)]
pub enum CMD {
    /// Open a TCP connection, `0x01`.
    CONNECT,
    /// Accept a TCP connection, `0x02`; not served.
    BIND,
    /// Associate a UDP relay, `0x03`.
    UDP,
    /// Any other octet.
    UNKOWN,
}

impl CMD {
    /// The command that an octet stands for.
    pub open spec fn of_code(value: u8) -> CMD {
        if value == 1 {
            CMD::CONNECT
        } else if value == 2 {
            CMD::BIND
        } else if value == 3 {
            CMD::UDP
        } else {
            CMD::UNKOWN
        }
    }

    /// The octet that stands for this command on the wire; `0x00` for an
    /// unknown one.
    pub open spec fn spec_code(self) -> u8 {
        match self {
            CMD::CONNECT => 0x01,
            CMD::BIND => 0x02,
            CMD::UDP => 0x03,
            CMD::UNKOWN => 0x00,
        }
    }

    /// The octet that stands for this command on the wire.
    #[verifier::when_used_as_spec(spec_code)]
    pub fn code(self) -> (c: u8)
        ensures
            c == self.spec_code(),
    {
        match self {
            CMD::CONNECT => 0x01,
            CMD::BIND => 0x02,
            CMD::UDP => 0x03,
            CMD::UNKOWN => 0x00,
        }
    }
}

impl From<u8> for CMD {
    fn from(value: u8) -> (cmd: CMD) {
        if value == 1 {
            CMD::CONNECT
        } else if value == 2 {
            CMD::BIND
        } else if value == 3 {
            CMD::UDP
        } else {
            CMD::UNKOWN
        }
    }
}

impl FromSpecImpl<u8> for CMD {
    open spec fn obeys_from_spec() -> bool {
        true
    }

    open spec fn from_spec(value: u8) -> CMD {
        CMD::of_code(value)
    }
}

/// Why a connection attempt failed, as far as the reply code depends on it.
#[derive(Clone, Copy, Debug, PartialEq, Eq, Structural)]
pub enum IoErrorKind {
    /// The requested address was not available.
    AddrNotAvailable,
    /// The socket is not connected.
    NotConnected,
    /// The peer refused the connection.
    ConnectionRefused,
    /// The attempt timed out.
    TimedOut,
    /// The target could not be used as an address.
    InvalidInput,
    /// The target was not found.
    NotFound,
    /// Any other failure.
    Other,
}

/// The reply code of a SOCKS5 reply.
#[derive(Clone, Copy, Debug, PartialEq, Eq, Structural)]
pub enum REP {
    /// Succeeded, `0x00`.
    Succeeded,
    /// General server failure, `0x01`.
    Failure,
    /// Network unreachable, `0x03`.
    NetworkUnreachable,
    /// Host unreachable, `0x04`.
    HostUnreachable,
    /// Connection refused, `0x05`.
    ConnectionRefused,
    /// TTL expired, `0x06`.
    TTLExpired,
    /// Command not supported, `0x07`.
    CommandNotSupported,
    /// Address type not supported, `0x08`.
    AddressTypeNotSupported,
}

impl REP {
    /// The reply code for a failed connection attempt: host unreachable
    /// where the address is not available or not found, network
    /// unreachable where the socket is not connected, and so on; general
    /// failure for what has no code of its own.
    pub open spec fn of_error(kind: IoErrorKind) -> REP {
        match kind {
            IoErrorKind::AddrNotAvailable => REP::HostUnreachable,
            IoErrorKind::NotConnected => REP::NetworkUnreachable,
            IoErrorKind::ConnectionRefused => REP::ConnectionRefused,
            IoErrorKind::TimedOut => REP::TTLExpired,
            IoErrorKind::InvalidInput => REP::AddressTypeNotSupported,
            IoErrorKind::NotFound => REP::HostUnreachable,
            IoErrorKind::Other => REP::Failure,
        }
    }

    /// The octet that stands for this reply code on the wire.
    pub open spec fn spec_code(self) -> u8 {
        match self {
            REP::Succeeded => 0x00,
            REP::Failure => 0x01,
            REP::NetworkUnreachable => 0x03,
            REP::HostUnreachable => 0x04,
            REP::ConnectionRefused => 0x05,
            REP::TTLExpired => 0x06,
            REP::CommandNotSupported => 0x07,
            REP::AddressTypeNotSupported => 0x08,
        }
    }

    /// The octet that stands for this reply code on the wire.
    #[verifier::when_used_as_spec(spec_code)]
    pub fn code(self) -> (c: u8)
        ensures
            c == self.spec_code(),
    {
        match self {
            REP::Succeeded => 0x00,
            REP::Failure => 0x01,
            REP::NetworkUnreachable => 0x03,
            REP::HostUnreachable => 0x04,
            REP::ConnectionRefused => 0x05,
            REP::TTLExpired => 0x06,
            REP::CommandNotSupported => 0x07,
            REP::AddressTypeNotSupported => 0x08,
        }
    }
}

impl From<IoErrorKind> for REP {
    fn from(value: IoErrorKind) -> (rep: REP) {
        match value {
            IoErrorKind::AddrNotAvailable => REP::HostUnreachable,
            IoErrorKind::NotConnected => REP::NetworkUnreachable,
            IoErrorKind::ConnectionRefused => REP::ConnectionRefused,
            IoErrorKind::TimedOut => REP::TTLExpired,
            IoErrorKind::InvalidInput => REP::AddressTypeNotSupported,
            IoErrorKind::NotFound => REP::HostUnreachable,
            IoErrorKind::Other => REP::Failure,
        }
    }
}

impl FromSpecImpl<IoErrorKind> for REP {
    open spec fn obeys_from_spec() -> bool {
        true
    }

    open spec fn from_spec(value: IoErrorKind) -> REP {
        REP::of_error(value)
    }
}

/// The address type of a target or bound address.
#[derive(Clone, Copy, Debug, PartialEq, Eq, Structural)]
pub enum ATYP {
    /// Four octets, `0x01`.
    IPv4,
    /// A length octet and a name, `0x03`.
    DOMAINNAME,
    /// Sixteen octets, `0x04`.
    IPv6,
    /// Any other octet.
    UNKOWN,
}

impl ATYP {
    /// The address type that an octet stands for.
    pub open spec fn of_code(value: u8) -> ATYP {
        if value == 1 {
            ATYP::IPv4
        } else if value == 3 {
            ATYP::DOMAINNAME
        } else if value == 4 {
            ATYP::IPv6
        } else {
            ATYP::UNKOWN
        }
    }

    /// The octet that stands for this address type on the wire; `0x00` for
    /// an unknown one.
    pub open spec fn spec_code(self) -> u8 {
        match self {
            ATYP::IPv4 => 0x01,
            ATYP::DOMAINNAME => 0x03,
            ATYP::IPv6 => 0x04,
            ATYP::UNKOWN => 0x00,
        }
    }

    /// The octet that stands for this address type on the wire.
    #[verifier::when_used_as_spec(spec_code)]
    pub fn code(self) -> (c: u8)
        ensures
            c == self.spec_code(),
    {
        match self {
            ATYP::IPv4 => 0x01,
            ATYP::DOMAINNAME => 0x03,
            ATYP::IPv6 => 0x04,
            ATYP::UNKOWN => 0x00,
        }
    }

    /// The address type of a socket address: that of its family.
    pub open spec fn of(addr: SocketAddress) -> ATYP {
        match addr.ip {
            IpAddress::V4(_) => ATYP::IPv4,
            IpAddress::V6(_) => ATYP::IPv6,
        }
    }
}

impl From<u8> for ATYP {
    fn from(value: u8) -> (atyp: ATYP) {
        if value == 1 {
            ATYP::IPv4
        } else if value == 3 {
            ATYP::DOMAINNAME
        } else if value == 4 {
            ATYP::IPv6
        } else {
            ATYP::UNKOWN
        }
    }
}

impl FromSpecImpl<u8> for ATYP {
    open spec fn obeys_from_spec() -> bool {
        true
    }

    open spec fn from_spec(value: u8) -> ATYP {
        ATYP::of_code(value)
    }
}

impl<'a> From<&'a SocketAddress> for ATYP {
    fn from(value: &'a SocketAddress) -> (atyp: ATYP) {
        match value.ip {
            IpAddress::V4(_) => ATYP::IPv4,
            IpAddress::V6(_) => ATYP::IPv6,
        }
    }
}

impl<'a> FromSpecImpl<&'a SocketAddress> for ATYP {
    open spec fn obeys_from_spec() -> bool {
        true
    }

    open spec fn from_spec(value: &'a SocketAddress) -> ATYP {
        ATYP::of(*value)
    }
}

} // verus!
