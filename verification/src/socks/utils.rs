//! The SOCKS5 address codec: targets in requests and replies, and the
//! header of a relayed UDP datagram.

use vstd::prelude::*;
use vstd::string::*;
use vstd::utf8::{decode_utf8, valid_utf8};
use crate::address::{IpAddress, SocketAddress};
use crate::endian::{be16, be16_bytes, push_be16, read_be16};
use crate::socks::constant::ATYP;
use crate::text::{decimal, from_utf8_lossy, hex_byte, push_decimal, push_hex_byte, utf8_lossy};

verus! {

/// Four octets in dotted decimal.
pub open spec fn dotted(o: Seq<u8>) -> Seq<char>
    recommends
        o.len() == 4,
{
    decimal(o[0] as nat) + seq!['.'] + decimal(o[1] as nat) + seq!['.'] + decimal(o[2] as nat)
        + seq!['.'] + decimal(o[3] as nat)
}

/// The first `k` groups of two octets each, every octet as two upper-case
/// hexadecimal digits, the groups separated by colons.
pub open spec fn hex_groups(o: Seq<u8>, k: nat) -> Seq<char>
    recommends
        o.len() >= 2 * k,
    decreases k,
{
    if k == 0 {
        Seq::empty()
    } else if k == 1 {
        hex_byte(o[0]) + hex_byte(o[1])
    } else {
        hex_groups(o, (k - 1) as nat) + seq![':'] + hex_byte(o[2 * k - 2]) + hex_byte(o[2 * k - 1])
    }
}

impl IpAddress {
    /// The address as this codec prints it: IPv4 in dotted decimal, IPv6 as
    /// eight full groups of four hexadecimal digits.
    pub open spec fn text(self) -> Seq<char> {
        match self {
            IpAddress::V4(a) => dotted(a@),
            IpAddress::V6(a) => hex_groups(a@, 8),
        }
    }
}

impl SocketAddress {
    /// The address, a colon, and the port in decimal.
    pub open spec fn text(self) -> Seq<char> {
        self.ip.text() + seq![':'] + decimal(self.port as nat)
    }
}

/// How many octets the address and port of a target take at the head of
/// `message`, or `None` where `message` ends before the target does. A
/// target of unknown type takes none.
pub open spec fn target_len(atyp: ATYP, message: Seq<u8>) -> Option<nat> {
    match atyp {
        ATYP::IPv4 => if message.len() >= 6 {
            Some(6)
        } else {
            None
        },
        ATYP::DOMAINNAME => if message.len() >= 1 && message.len() >= message[0] as nat + 3 {
            Some(message[0] as nat + 3)
        } else {
            None
        },
        ATYP::IPv6 => if message.len() >= 18 {
            Some(18)
        } else {
            None
        },
        ATYP::UNKOWN => Some(0),
    }
}

/// The octets of the name of a target of type DOMAINNAME: as many as
/// the first octet says, from the second on.
pub open spec fn target_name(message: Seq<u8>) -> Seq<u8> {
    message.subrange(1, 1 + message[0] as int)
}

/// The host of the target at the head of `message`, as text. A name is
/// read as UTF-8, ill-formed parts replaced.
pub open spec fn target_host(atyp: ATYP, message: Seq<u8>) -> Seq<char> {
    match atyp {
        ATYP::IPv4 => dotted(message.subrange(0, 4)),
        ATYP::DOMAINNAME => utf8_lossy(target_name(message)),
        ATYP::IPv6 => hex_groups(message.subrange(0, 16), 8),
        ATYP::UNKOWN => Seq::empty(),
    }
}

/// The port of the target at the head of `message`: the last two octets
/// of the target, big-endian.
pub open spec fn target_port(atyp: ATYP, message: Seq<u8>) -> u16
    recommends
        atyp != ATYP::UNKOWN,
        target_len(atyp, message) is Some,
{
    let n = target_len(atyp, message)->0 as int;
    be16(message[n - 2], message[n - 1])
}

/// The target at the head of `message` as `host:port`; the empty text for
/// an unknown address type.
pub open spec fn target_text(atyp: ATYP, message: Seq<u8>) -> Seq<char> {
    if atyp == ATYP::UNKOWN {
        Seq::empty()
    } else {
        target_host(atyp, message) + seq![':'] + decimal(target_port(atyp, message) as nat)
    }
}

/// The wire form of a socket address: type octet, address octets, port.
pub open spec fn target_bytes(addr: SocketAddress) -> Seq<u8> {
    seq![ATYP::of(addr).spec_code()] + addr.ip.octets() + be16_bytes(addr.port)
}

/// Whether `frame` holds a whole UDP request header: reserved octets,
/// fragment octet, address type, and a complete target.
pub open spec fn udp_frame_ok(frame: Seq<u8>) -> bool {
    frame.len() >= 4 && target_len(ATYP::of_code(frame[3]), frame.skip(4)) is Some
}

/// A relayed datagram on the wire: three zero octets, the wire form of
/// the address, and the payload.
pub open spec fn udp_frame_bytes(payload: Seq<u8>, addr: SocketAddress) -> Seq<u8> {
    seq![0u8, 0u8, 0u8] + target_bytes(addr) + payload
}

/// Puts a colon and the port behind a host.
pub fn join_host_port(host: String, port: u16) -> (target: String)
    ensures
        target@ == host@ + seq![':'] + decimal(port as nat),
{
    let mut target = host;
    target.push(':');
    push_decimal(&mut target, port as u32);
    target
}

/// How many octets the target at the head of `message` takes, if
/// `message` holds all of it.
pub fn target_size(atyp: &ATYP, message: &[u8]) -> (n: Option<usize>)
    ensures
        n is Some <==> target_len(*atyp, message@) is Some,
        n is Some ==> n->0 as nat == target_len(*atyp, message@)->0,
{
    match atyp {
        ATYP::IPv4 => if message.len() >= 6 {
            Some(6)
        } else {
            None
        },
        ATYP::DOMAINNAME => {
            if message.len() >= 1 && message.len() - 1 >= message[0] as usize + 2 {
                Some(message[0] as usize + 3)
            } else {
                None
            }
        },
        ATYP::IPv6 => if message.len() >= 18 {
            Some(18)
        } else {
            None
        },
        ATYP::UNKOWN => Some(0),
    }
}

/// Reads the target (address and port) at the head of `message` and
/// returns it as `host:port`, with the number of octets it took. An
/// unknown address type gives the empty string and zero.
pub fn parse_target(atyp: &ATYP, message: &[u8]) -> (r: (String, usize))
    requires
        target_len(*atyp, message@) is Some,
    ensures
        r.0@ == target_text(*atyp, message@),
        r.1 as nat == target_len(*atyp, message@)->0,
        *atyp == ATYP::DOMAINNAME && valid_utf8(target_name(message@)) ==> r.0@ == decode_utf8(
            target_name(message@),
        ) + seq![':'] + decimal(target_port(*atyp, message@) as nat),
{
    let mut addr = String::new();
    let port_pos: usize;
    match atyp {
        ATYP::DOMAINNAME => {
            let len = message[0] as usize;
            addr = from_utf8_lossy(&message[1..1 + len]);
            port_pos = 1 + len;
        },
        ATYP::IPv4 => {
            let ghost o = message@.subrange(0, 4);
            push_decimal(&mut addr, message[0] as u32);
            addr.push('.');
            push_decimal(&mut addr, message[1] as u32);
            addr.push('.');
            push_decimal(&mut addr, message[2] as u32);
            addr.push('.');
            push_decimal(&mut addr, message[3] as u32);
            assert(addr@ == dotted(o));
            port_pos = 4;
        },
        ATYP::IPv6 => {
            let ghost o = message@.subrange(0, 16);
            let mut k: usize = 0;
            while k < 8
                invariant
                    k <= 8,
                    message.len() >= 18,
                    o == message@.subrange(0, 16),
                    addr@ == hex_groups(o, k as nat),
                decreases 8 - k,
            {
                if k > 0 {
                    addr.push(':');
                }
                push_hex_byte(&mut addr, message[2 * k]);
                push_hex_byte(&mut addr, message[2 * k + 1]);
                k = k + 1;
            }
            port_pos = 16;
        },
        ATYP::UNKOWN => {
            return (addr, 0);
        },
    }
    let port: u16 = read_be16(message, port_pos);
    (join_host_port(addr, port), port_pos + 2)
}

/// As `parse_target`, on any input: `None` where `message` ends before the
/// target does.
pub fn try_parse_target(atyp: &ATYP, message: &[u8]) -> (r: Option<(String, usize)>)
    ensures
        r is Some <==> target_len(*atyp, message@) is Some,
        match r {
            Some((text, n)) => text@ == target_text(*atyp, message@) && n as nat == target_len(
                *atyp,
                message@,
            )->0,
            None => true,
        },
{
    match target_size(atyp, message) {
        Some(_) => Some(parse_target(atyp, message)),
        None => None,
    }
}

/// The wire form of a socket address: the address type, the four or
/// sixteen octets of the address, and the port, big-endian.
pub fn stringify_target(addr: SocketAddress) -> (data: Vec<u8>)
    ensures
        data@ == target_bytes(addr),
{
    let mut data: Vec<u8> = Vec::new();
    match addr.ip {
        IpAddress::V4(octets) => {
            data.push(ATYP::IPv4.code());
            data.extend_from_slice(octets.as_slice());
        },
        IpAddress::V6(octets) => {
            data.push(ATYP::IPv6.code());
            data.extend_from_slice(octets.as_slice());
        },
    }
    push_be16(&mut data, addr.port);
    assert(data@ == target_bytes(addr));
    data
}

/// Takes a UDP request apart: the address type, the target as
/// `host:port`, and the payload behind the header.
pub fn parse_udp_frame(frame: &[u8]) -> (r: (ATYP, String, &[u8]))
    requires
        udp_frame_ok(frame@),
    ensures
        r.0 == ATYP::of_code(frame@[3]),
        r.1@ == target_text(r.0, frame@.skip(4)),
        r.2@ == frame@.skip(4 + target_len(r.0, frame@.skip(4))->0 as int),
{
    let atyp = ATYP::from(frame[3]);
    let rest = &frame[4..frame.len()];
    assert(rest@ == frame@.skip(4));
    let (target, next_pos) = parse_target(&atyp, rest);
    let payload = &frame[4 + next_pos..frame.len()];
    assert(payload@ == frame@.skip(4 + next_pos));
    (atyp, target, payload)
}

/// As `parse_udp_frame`, on any input: `None` where `frame` does not hold
/// a whole header.
pub fn try_parse_udp_frame(frame: &[u8]) -> (r: Option<(ATYP, String, &[u8])>)
    ensures
        r is Some <==> udp_frame_ok(frame@),
        match r {
            Some((atyp, target, payload)) => {
                &&& atyp == ATYP::of_code(frame@[3])
                &&& target@ == target_text(atyp, frame@.skip(4))
                &&& payload@ == frame@.skip(4 + target_len(atyp, frame@.skip(4))->0 as int)
            },
            None => true,
        },
{
    if frame.len() < 4 {
        return None;
    }
    let atyp = ATYP::from(frame[3]);
    let rest = &frame[4..frame.len()];
    assert(rest@ == frame@.skip(4));
    match target_size(&atyp, rest) {
        Some(_) => Some(parse_udp_frame(frame)),
        None => None,
    }
}

/// Wraps a payload for the client: three zero octets, the wire form of
/// the address that the payload came from, and the payload.
pub fn stringify_udp_frame(data: &[u8], remote_addr: SocketAddress) -> (frame: Vec<u8>)
    ensures
        frame@ == udp_frame_bytes(data@, remote_addr),
{
    let mut frame: Vec<u8> = Vec::new();
    frame.push(0x00);
    frame.push(0x00);
    frame.push(0x00);
    let mut target = stringify_target(remote_addr);
    frame.append(&mut target);
    frame.extend_from_slice(data);
    assert(frame@ == udp_frame_bytes(data@, remote_addr));
    frame
}

/// Reading back the wire form of a socket address gives its address type,
/// takes every octet behind the type octet, and yields the address as
/// `host:port`.
pub proof fn lemma_target_round_trip(addr: SocketAddress)
    ensures
        ATYP::of_code(target_bytes(addr)[0]) == ATYP::of(addr),
        target_len(ATYP::of(addr), target_bytes(addr).skip(1)) == Some(
            (target_bytes(addr).len() - 1) as nat,
        ),
        target_text(ATYP::of(addr), target_bytes(addr).skip(1)) == addr.text(),
{
    let b = target_bytes(addr);
    let m = b.skip(1);
    let atyp = ATYP::of(addr);
    assert(m == addr.ip.octets() + be16_bytes(addr.port));
    let n = addr.ip.octets().len() as int;
    assert(m[n] == (addr.port / 256) as u8);
    assert(m[n + 1] == (addr.port % 256) as u8);
    assert(be16(m[n], m[n + 1]) == addr.port);
    match addr.ip {
        IpAddress::V4(a) => {
            assert(m.subrange(0, 4) == a@);
        },
        IpAddress::V6(a) => {
            assert(m.subrange(0, 16) == a@);
        },
    }
}

/// Taking apart a wrapped datagram gives back the address type of the
/// address, the address as `host:port`, and the payload.
pub proof fn lemma_udp_frame_round_trip(payload: Seq<u8>, addr: SocketAddress)
    ensures
        udp_frame_ok(udp_frame_bytes(payload, addr)),
        ATYP::of_code(udp_frame_bytes(payload, addr)[3]) == ATYP::of(addr),
        target_text(ATYP::of(addr), udp_frame_bytes(payload, addr).skip(4)) == addr.text(),
        udp_frame_bytes(payload, addr).skip(
            4 + target_len(ATYP::of(addr), udp_frame_bytes(payload, addr).skip(4))->0 as int,
        ) == payload,
{
    let f = udp_frame_bytes(payload, addr);
    let b = target_bytes(addr);
    let atyp = ATYP::of(addr);
    lemma_target_round_trip(addr);
    let m = f.skip(4);
    assert(m == b.skip(1) + payload);
    let n = addr.ip.octets().len() as int;
    assert(m[n] == b.skip(1)[n]);
    assert(m[n + 1] == b.skip(1)[n + 1]);
    match addr.ip {
        IpAddress::V4(a) => {
            assert(m.subrange(0, 4) == b.skip(1).subrange(0, 4));
        },
        IpAddress::V6(a) => {
            assert(m.subrange(0, 16) == b.skip(1).subrange(0, 16));
        },
    }
    assert(f.skip(4 + n + 2) == payload);
}

} // verus!
