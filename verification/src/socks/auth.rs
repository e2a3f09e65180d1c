//! SOCKS5 authentication: the choice of a method from a greeting, and the
//! username and password sub-negotiation.

use vstd::prelude::*;
use vstd::utf8::encode_utf8;
use crate::config::Config;
use crate::endian::same_bytes;

verus! {

/// What the proxy makes of a greeting.
#[derive(Clone, Copy, Debug, PartialEq, Eq, Structural)]
pub enum Selection {
    /// Username and password are asked for: `05 02`.
    UserPwd,
    /// No authentication is needed: `05 00`.
    NoAuth,
    /// Authentication is required and the client does not offer it: `05 FF`,
    /// then the connection is closed.
    Refuse,
    /// Nothing can be agreed on or the greeting is cut short: the
    /// connection is closed without a reply.
    Reject,
}

/// The method octets that a greeting offers: as many as its second octet
/// says, from the third octet on.
pub open spec fn offered(greeting: Seq<u8>) -> Seq<u8>
    recommends
        greeting.len() >= 2,
        greeting.len() >= 2 + greeting[1],
{
    greeting.subrange(2, 2 + greeting[1] as int)
}

/// The method selection: with authentication required, username and
/// password if offered (`0x02`), else a refusal; without, no
/// authentication if offered (`0x00`), else nothing.
pub open spec fn select_method(has_auth: bool, greeting: Seq<u8>) -> Selection {
    if greeting.len() < 2 || greeting.len() < 2 + greeting[1] {
        Selection::Reject
    } else if has_auth {
        if offered(greeting).contains(0x02u8) {
            Selection::UserPwd
        } else {
            Selection::Refuse
        }
    } else if offered(greeting).contains(0x00u8) {
        Selection::NoAuth
    } else {
        Selection::Reject
    }
}

impl Selection {
    /// The octets sent to the client; none for `Reject`.
    pub open spec fn reply(self) -> Seq<u8> {
        match self {
            Selection::UserPwd => seq![0x05u8, 0x02u8],
            Selection::NoAuth => seq![0x05u8, 0x00u8],
            Selection::Refuse => seq![0x05u8, 0xFFu8],
            Selection::Reject => Seq::empty(),
        }
    }
}

/// The octet at `i` of a message that was read into a buffer of zeros:
/// zero behind the end of the message.
pub open spec fn padded(message: Seq<u8>, i: int) -> u8 {
    if 0 <= i < message.len() {
        message[i]
    } else {
        0
    }
}

/// `len` octets from `from` on, of a message read into a buffer of zeros.
pub open spec fn padded_range(message: Seq<u8>, from: int, len: nat) -> Seq<u8> {
    Seq::new(len, |k: int| padded(message, from + k))
}

/// The username in `01 | ULEN | UNAME | PLEN | PASSWD`.
pub open spec fn submitted_username(message: Seq<u8>) -> Seq<u8> {
    padded_range(message, 2, padded(message, 1) as nat)
}

/// The password in `01 | ULEN | UNAME | PLEN | PASSWD`.
pub open spec fn submitted_password(message: Seq<u8>) -> Seq<u8> {
    let ulen = padded(message, 1) as int;
    padded_range(message, 3 + ulen, padded(message, 2 + ulen) as nat)
}

/// Whether the configuration holds both credentials and they are, octet
/// for octet, the submitted ones.
pub open spec fn credentials_match(config: Config, username: Seq<u8>, password: Seq<u8>) -> bool {
    &&& config.username is Some
    &&& config.password is Some
    &&& encode_utf8(config.username->0@) == username
    &&& encode_utf8(config.password->0@) == password
}

/// A username and a password as a client submitted them.
#[derive(Clone, Debug, PartialEq, Eq)]
pub struct Credentials {
    /// The octets of the username.
    pub username: Vec<u8>,
    /// The octets of the password.
    pub password: Vec<u8>,
}

/// Whether `list` holds `code`.
fn contains_code(list: &[u8], code: u8) -> (found: bool)
    ensures
        found == list@.contains(code),
{
    let mut i: usize = 0;
    while i < list.len()
        invariant
            i <= list.len(),
            forall|k: int| 0 <= k < i ==> list@[k] != code,
        decreases list.len() - i,
    {
        if list[i] == code {
            return true;
        }
        i = i + 1;
    }
    false
}

/// Chooses the authentication method for a greeting
/// `VER | NMETHODS | METHODS`.
pub fn negotiate(config: &Config, message: &[u8]) -> (selection: Selection)
    ensures
        selection == select_method(config.has_auth(), message@),
{
    if message.len() < 2 {
        return Selection::Reject;
    }
    let nmethods = message[1] as usize;
    if message.len() - 2 < nmethods {
        return Selection::Reject;
    }
    let methods = &message[2..2 + nmethods];
    if config.has_auth() {
        if contains_code(methods, 0x02) {
            Selection::UserPwd
        } else {
            Selection::Refuse
        }
    } else if contains_code(methods, 0x00) {
        Selection::NoAuth
    } else {
        Selection::Reject
    }
}

/// The octets to send for a selection: two, or none for `Reject`.
pub fn selection_reply(selection: Selection) -> (reply: Vec<u8>)
    ensures
        reply@ == selection.reply(),
{
    let mut reply: Vec<u8> = Vec::new();
    match selection {
        Selection::UserPwd => {
            reply.push(0x05);
            reply.push(0x02);
        },
        Selection::NoAuth => {
            reply.push(0x05);
            reply.push(0x00);
        },
        Selection::Refuse => {
            reply.push(0x05);
            reply.push(0xFF);
        },
        Selection::Reject => {},
    }
    assert(reply@ == selection.reply());
    reply
}

/// Copies `len` octets from `from` on, reading zero behind the end.
fn copy_padded(message: &[u8], from: usize, len: usize) -> (out: Vec<u8>)
    requires
        from + len <= usize::MAX,
    ensures
        out@ == padded_range(message@, from as int, len as nat),
{
    let mut out: Vec<u8> = Vec::new();
    let mut k: usize = 0;
    while k < len
        invariant
            k <= len,
            from + len <= usize::MAX,
            out@ == padded_range(message@, from as int, k as nat),
        decreases len - k,
    {
        let b: u8 = if from + k < message.len() {
            message[from + k]
        } else {
            0
        };
        out.push(b);
        k = k + 1;
        assert(out@ == padded_range(message@, from as int, k as nat));
    }
    out
}

/// Reads `01 | ULEN | UNAME | PLEN | PASSWD`. The message counts as read
/// into a buffer of zeros: octets behind its end are zero. `None` where
/// the version octet is not 1.
pub fn parse_user_pwd(message: &[u8]) -> (credentials: Option<Credentials>)
    ensures
        credentials is Some <==> padded(message@, 0) == 1,
        credentials is Some ==> credentials->0.username@ == submitted_username(message@)
            && credentials->0.password@ == submitted_password(message@),
{
    if message.len() < 1 || message[0] != 0x01 {
        return None;
    }
    let ulen: usize = if message.len() > 1 {
        message[1] as usize
    } else {
        0
    };
    let username = copy_padded(message, 2, ulen);
    let plen: usize = if 2 + ulen < message.len() {
        message[2 + ulen] as usize
    } else {
        0
    };
    let password = copy_padded(message, 3 + ulen, plen);
    Some(Credentials { username, password })
}

/// Checks submitted credentials against the configured ones, octet for
/// octet.
pub fn verify_credentials(config: &Config, credentials: &Credentials) -> (ok: bool)
    ensures
        ok == credentials_match(*config, credentials.username@, credentials.password@),
{
    match (&config.username, &config.password) {
        (Some(username), Some(password)) => {
            same_bytes(username.as_str().as_bytes(), credentials.username.as_slice())
                && same_bytes(password.as_str().as_bytes(), credentials.password.as_slice())
        },
        _ => false,
    }
}

/// Whether the configuration asks for credentials and `username` and
/// `password` are the configured ones.
pub fn check_auth(config: &Config, username: &String, password: &String) -> (ok: bool)
    ensures
        ok <==> config.has_auth() && config.username->0@ == username@ && config.password->0@
            == password@,
{
    match (&config.username, &config.password) {
        (Some(u), Some(p)) => *u == *username && *p == *password,
        _ => false,
    }
}

/// Comparing credentials as text and comparing their UTF-8 octets agree.
pub proof fn lemma_check_auth_by_octets(config: Config, username: Seq<char>, password: Seq<char>)
    ensures
        credentials_match(config, encode_utf8(username), encode_utf8(password)) <==> (
        config.has_auth() && config.username->0@ == username && config.password->0@ == password),
{
    if config.has_auth() {
        vstd::utf8::encode_utf8_decode_utf8(username);
        vstd::utf8::encode_utf8_decode_utf8(password);
        vstd::utf8::encode_utf8_decode_utf8(config.username->0@);
        vstd::utf8::encode_utf8_decode_utf8(config.password->0@);
    }
}

} // verus!
