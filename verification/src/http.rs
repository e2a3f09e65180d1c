//! The HTTP side of the proxy: where a request wants to go, and whether
//! it asks for a tunnel.

use vstd::prelude::*;
use vstd::string::*;
use vstd::utf8::{decode_utf8, valid_utf8};
use crate::endian::copy_bytes;
use crate::text::{
    chars_of, find, find_in, from_utf8_lossy, lemma_find_bound, matches_at, push_chars, utf8_lossy,
};

verus! {

/// The most octets that are read of the head of a request.
pub const REQUEST_LIMIT: usize = 10240;

/// What the proxy answers to `CONNECT` once the target is reached.
pub const ESTABLISHED: &'static str = "HTTP/1.1 200 Connection Established\r\n\r\n";

/// The end of a line.
pub open spec fn crlf() -> Seq<char> {
    seq!['\r', '\n']
}

/// What stands between the name of a header and its value.
pub open spec fn separator() -> Seq<char> {
    seq![':', ' ']
}

/// The name of the header that tells the target.
pub open spec fn host_name() -> Seq<char> {
    seq!['H', 'o', 's', 't']
}

/// The method that asks for a tunnel.
pub open spec fn connect_method() -> Seq<char> {
    seq!['C', 'O', 'N', 'N', 'E', 'C', 'T']
}

/// The port that a target without a port gets.
pub open spec fn default_port() -> Seq<char> {
    seq![':', '8', '0']
}

/// The value of the `Host` header, if `line` is one: the line starts
/// with `Host`, a colon and a space, exactly so, and the value runs up to
/// the next colon with a space behind it, or to the end of the line.
pub open spec fn header_host(line: Seq<char>) -> Option<Seq<char>> {
    let n = find(line, separator());
    if n < line.len() && line.take(n as int) == host_name() {
        let rest = line.skip(n as int + 2);
        Some(rest.take(find(rest, separator()) as int))
    } else {
        None
    }
}

/// `host` with `:80` behind it, unless it holds a colon.
pub open spec fn with_port(host: Seq<char>) -> Seq<char> {
    if host.contains(':') {
        host
    } else {
        host + default_port()
    }
}

/// The target of a request: the value of its first `Host` header, with
/// port 80 where it names none. Empty where no line is a `Host` header.
/// Lines end with a carriage return and a line feed.
pub open spec fn target_server(info: Seq<char>) -> Seq<char>
    decreases info.len(),
    via target_server_decreases
{
    let n = find(info, crlf());
    match header_host(info.take(n as int)) {
        Some(host) => with_port(host),
        None => if n >= info.len() {
            Seq::empty()
        } else {
            target_server(info.skip(n as int + 2))
        },
    }
}

#[via_fn]
proof fn target_server_decreases(info: Seq<char>) {
    lemma_find_bound(info, crlf());
}

/// Whether the request asks for a tunnel: the first word of its first
/// line, up to the first space, is `CONNECT`.
pub open spec fn asks_tunnel(info: Seq<char>) -> bool {
    let line = info.take(find(info, crlf()) as int);
    line.take(find(line, seq![' ']) as int) == connect_method()
}

/// Whether `chars[from..to]` holds a colon.
fn has_colon(chars: &[char], from: usize, to: usize) -> (found: bool)
    requires
        from <= to <= chars.len(),
    ensures
        found == chars@.subrange(from as int, to as int).contains(':'),
{
    let ghost s = chars@.subrange(from as int, to as int);
    let mut i: usize = from;
    while i < to
        invariant
            from <= i <= to <= chars.len(),
            s == chars@.subrange(from as int, to as int),
            forall|k: int| 0 <= k < i - from ==> s[k] != ':',
        decreases to - i,
    {
        if chars[i] == ':' {
            assert(s[i - from] == ':');
            return true;
        }
        i = i + 1;
    }
    false
}

/// The bounds of the value of the `Host` header in the line
/// `chars[from..to]`, if the line is one.
fn host_value(chars: &[char], from: usize, to: usize) -> (bounds: Option<(usize, usize)>)
    requires
        from <= to <= chars.len(),
    ensures
        match bounds {
            Some((a, b)) => from <= a <= b <= to && header_host(
                chars@.subrange(from as int, to as int),
            ) == Some(chars@.subrange(a as int, b as int)),
            None => header_host(chars@.subrange(from as int, to as int)) is None,
        },
{
    let ghost line = chars@.subrange(from as int, to as int);
    let sep: [char; 2] = [':', ' '];
    let host: [char; 4] = ['H', 'o', 's', 't'];
    assert(sep@ == separator());
    assert(host@ == host_name());
    let n = find_in(chars, from, to, sep.as_slice());
    if n == to {
        return None;
    }
    assert(line.take(n - from) == chars@.subrange(from as int, n as int));
    if n - from != 4 || !matches_at(chars, from, from, n, host.as_slice()) {
        proof {
            let head = chars@.subrange(from as int, n as int);
            if n - from == 4 {
                assert(head.subrange(0, 4) == head);
            }
        }
        return None;
    }
    proof {
        let head = chars@.subrange(from as int, n as int);
        assert(head.subrange(0, 4) == head);
    }
    let a = n + 2;
    let b = find_in(chars, a, to, sep.as_slice());
    proof {
        let rest = line.skip(n - from + 2);
        assert(rest == chars@.subrange(a as int, to as int));
        assert(rest.take(b - a) == chars@.subrange(a as int, b as int));
    }
    Some((a, b))
}

/// Finds the target of a request: the value of its first `Host` header,
/// with `:80` behind it where it holds no colon. The empty string where
/// the request has no such header.
pub fn parse_target_server(info: &String) -> (target: String)
    ensures
        target@ == target_server(info@),
{
    let chars = chars_of(info.as_str());
    let end_of_line: [char; 2] = ['\r', '\n'];
    assert(end_of_line@ == crlf());
    let mut target = String::new();
    let mut start: usize = 0;
    assert(chars@.skip(0) == chars@);
    loop
        invariant
            start <= chars.len(),
            chars@ == info@,
            end_of_line@ == crlf(),
            target@ == Seq::<char>::empty(),
            target_server(info@) == target_server(chars@.skip(start as int)),
        decreases chars.len() - start,
    {
        let ghost rest = chars@.skip(start as int);
        assert(rest == chars@.subrange(start as int, chars.len() as int));
        let end = find_in(chars.as_slice(), start, chars.len(), end_of_line.as_slice());
        assert(rest.take(end - start) == chars@.subrange(start as int, end as int));
        match host_value(chars.as_slice(), start, end) {
            Some((a, b)) => {
                push_chars(&mut target, chars.as_slice(), a, b);
                if !has_colon(chars.as_slice(), a, b) {
                    target.push(':');
                    target.push('8');
                    target.push('0');
                }
                assert(target@ == with_port(chars@.subrange(a as int, b as int)));
                return target;
            },
            None => {},
        }
        if end == chars.len() {
            return target;
        }
        assert(rest.skip(end - start + 2) == chars@.skip(end + 2));
        start = end + 2;
    }
}

/// Tells whether a request asks for a tunnel, which `CONNECT` does.
pub fn is_tcp(info: &String) -> (tunnel: bool)
    ensures
        tunnel == asks_tunnel(info@),
{
    let chars = chars_of(info.as_str());
    let end_of_line: [char; 2] = ['\r', '\n'];
    let space: [char; 1] = [' '];
    let method: [char; 7] = ['C', 'O', 'N', 'N', 'E', 'C', 'T'];
    assert(end_of_line@ == crlf());
    assert(space@ == seq![' ']);
    assert(method@ == connect_method());
    let end = find_in(chars.as_slice(), 0, chars.len(), end_of_line.as_slice());
    assert(chars@.subrange(0, chars.len() as int) == chars@);
    let ghost line = chars@.subrange(0, end as int);
    assert(line == info@.take(end as int));
    let word = find_in(chars.as_slice(), 0, end, space.as_slice());
    let ghost first = chars@.subrange(0, word as int);
    assert(first == line.take(word as int));
    if word != 7 {
        return false;
    }
    assert(first.subrange(0, 7) == first);
    matches_at(chars.as_slice(), 0, 0, word, method.as_slice())
}

/// What to do with a request.
#[derive(Clone, Debug, PartialEq, Eq)]
pub enum HttpPlan {
    /// The request names no target: close the connection.
    Close,
    /// Connect to the target, send `reply` to the client, and pipe bytes
    /// both ways.
    Tunnel { target: String, reply: Vec<u8> },
    /// Connect to the target, send it `request`, and pipe bytes both
    /// ways.
    Forward { target: String, request: Vec<u8> },
}

/// An `HttpPlan` over sequences.
pub enum HttpPlanView {
    Close,
    Tunnel { target: Seq<char>, reply: Seq<u8> },
    Forward { target: Seq<char>, request: Seq<u8> },
}

impl View for HttpPlan {
    type V = HttpPlanView;

    open spec fn view(&self) -> HttpPlanView {
        match *self {
            HttpPlan::Close => HttpPlanView::Close,
            HttpPlan::Tunnel { target, reply } => HttpPlanView::Tunnel {
                target: target@,
                reply: reply@,
            },
            HttpPlan::Forward { target, request } => HttpPlanView::Forward {
                target: target@,
                request: request@,
            },
        }
    }
}

/// The plan for a request with the text `info` and the octets `raw`:
/// without a target, the end; for `CONNECT`, a tunnel that is announced
/// to the client; else the request is sent on as it came.
pub open spec fn plan_for(info: Seq<char>, raw: Seq<u8>) -> HttpPlanView {
    let target = target_server(info);
    if target.len() == 0 {
        HttpPlanView::Close
    } else if asks_tunnel(info) {
        HttpPlanView::Tunnel { target: target, reply: ESTABLISHED.spec_bytes() }
    } else {
        HttpPlanView::Forward { target: target, request: raw }
    }
}

/// Plans what to do with a request, given its text and its octets.
pub fn plan_request(info: &String, raw: &[u8]) -> (plan: HttpPlan)
    ensures
        plan@ == plan_for(info@, raw@),
{
    let target = parse_target_server(info);
    if target.as_str().unicode_len() == 0 {
        HttpPlan::Close
    } else if is_tcp(info) {
        HttpPlan::Tunnel { target, reply: copy_bytes(ESTABLISHED.as_bytes()) }
    } else {
        HttpPlan::Forward { target, request: copy_bytes(raw) }
    }
}

/// Plans what to do with the first octets that a client sent: they are
/// read as text, ill-formed UTF-8 replaced, and the plan follows from
/// the text.
pub fn plan(message: &[u8]) -> (plan: HttpPlan)
    ensures
        plan@ == plan_for(utf8_lossy(message@), message@),
        valid_utf8(message@) ==> plan@ == plan_for(decode_utf8(message@), message@),
{
    let info = from_utf8_lossy(message);
    plan_request(&info, message)
}

} // verus!
