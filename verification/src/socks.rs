//! The SOCKS5 side of the proxy: recognising a greeting, and the course of
//! one client connection from greeting to relay.

pub mod auth;
pub mod constant;
pub mod tunnel;
pub mod utils;

use vstd::prelude::*;
use vstd::string::*;
use crate::config::Config;
use crate::socks::auth::{
    credentials_match, negotiate, padded, parse_user_pwd, select_method, selection_reply,
    submitted_password, submitted_username, verify_credentials, Selection,
};
use crate::socks::constant::{ATYP, CMD, IoErrorKind, REP};
use crate::address::SocketAddress;
use crate::socks::utils::{
    stringify_target, target_bytes, target_len, target_text, try_parse_target,
};

verus! {

/// Whether `message` has the shape of a SOCKS5 greeting: version 5, a
/// method count, and exactly that many method octets.
pub open spec fn is_greeting(message: Seq<u8>) -> bool {
    message.len() >= 2 && message[0] == 5 && message.len() == message[1] as nat + 2
}

/// Tells from the first octets of a connection whether the client speaks
/// SOCKS5.
pub fn is_socks5_proxy(message: &[u8]) -> (socks5: bool)
    ensures
        socks5 == is_greeting(message@),
{
    if message.len() < 2 {
        return false;
    }
    let ver = message[0];
    let nmethods = message[1];
    ver == 5 && message.len() - 2 == nmethods as usize
}

/// A message `05 N M1 .. MN` of length `N + 2` is a greeting.
pub proof fn lemma_greeting_shape(methods: Seq<u8>)
    requires
        methods.len() <= 255,
    ensures
        is_greeting(seq![5u8, methods.len() as u8] + methods),
{
}

/// A greeting is a message `05 N M1 .. MN` of length `N + 2`, and nothing
/// else is.
pub proof fn lemma_greeting_only(message: Seq<u8>)
    requires
        is_greeting(message),
    ensures
        message.len() - 2 <= 255,
        message == seq![5u8, (message.len() - 2) as u8] + message.skip(2),
{
    assert(message =~= seq![5u8, (message.len() - 2) as u8] + message.skip(2));
}

/// The command of a request `VER | CMD | RSV | ATYP | DST.ADDR | DST.PORT`.
pub fn parse_cmd(message: &[u8]) -> (cmd: CMD)
    requires
        message.len() >= 2,
    ensures
        cmd == CMD::of_code(message@[1]),
{
    CMD::from(message[1])
}

/// The address of the SOCKS5 proxy as a URL, with the credentials where
/// both are set.
pub open spec fn socks5_info(config: Config) -> Seq<char> {
    "socks5://"@ + (if config.username is Some && config.password is Some {
        config.username->0@ + ":"@ + config.password->0@ + "@"@
    } else {
        Seq::empty()
    }) + config.spec_address()
}

/// Renders the address of the SOCKS5 proxy that `config` describes:
/// `socks5://[username:password@]host:port`.
pub fn format_socks5_info(config: &Config) -> (info: String)
    ensures
        info@ == socks5_info(*config),
{
    let mut info = String::from_str("socks5://");
    match (&config.username, &config.password) {
        (Some(username), Some(password)) => {
            info.append(username.as_str());
            info.append(":");
            info.append(password.as_str());
            info.append("@");
        },
        _ => {},
    }
    info.append(config.address().as_str());
    assert(info@ == socks5_info(*config));
    info
}

/// A reply `05 | REP | 00 | ATYP | BND.ADDR | BND.PORT`.
pub open spec fn reply_bytes(rep: REP, bound: SocketAddress) -> Seq<u8> {
    seq![0x05u8, rep.spec_code(), 0x00u8] + target_bytes(bound)
}

/// Builds the reply to a request, with the reply code and the address
/// that the proxy is bound to.
pub fn reply(rep: REP, bound: SocketAddress) -> (data: Vec<u8>)
    ensures
        data@ == reply_bytes(rep, bound),
{
    let mut data: Vec<u8> = Vec::new();
    data.push(0x05);
    data.push(rep.code());
    data.push(0x00);
    let mut address = stringify_target(bound);
    data.append(&mut address);
    assert(data@ == reply_bytes(rep, bound));
    data
}

/// Where a client connection stands.
#[derive(Clone, Copy, Debug, PartialEq, Eq, Structural)]
pub enum Stage {
    /// Waiting for the greeting.
    Greeting,
    /// Waiting for username and password.
    UserPwd,
    /// Authenticated; waiting for the request.
    Request,
    /// Waiting for the TCP connection to the target.
    Connecting,
    /// Waiting for the UDP tunnel.
    Associating,
    /// The UDP tunnel runs for as long as this connection stays open.
    Associated,
    /// Bytes are piped between client and target.
    Relaying,
    /// Done.
    Closed,
}

impl Stage {
    /// The most octets that a message of the client has at this stage:
    /// 257 for a greeting, 513 for username and password, 1024 else.
    pub open spec fn spec_message_limit(self) -> usize {
        match self {
            Stage::Greeting => 257,
            Stage::UserPwd => 513,
            _ => 1024,
        }
    }

    /// The most octets to read of the next message of the client.
    #[verifier::when_used_as_spec(spec_message_limit)]
    pub fn message_limit(self) -> (limit: usize)
        ensures
            limit == self.spec_message_limit(),
    {
        match self {
            Stage::Greeting => 257,
            Stage::UserPwd => 513,
            _ => 1024,
        }
    }
}

/// What happened on a client connection.
#[derive(Debug)]
pub enum Event<'a> {
    /// The client sent a message.
    Received(&'a [u8]),
    /// The TCP connection to the target is open.
    Connected,
    /// The TCP connection to the target could not be opened.
    ConnectFailed(IoErrorKind),
    /// The UDP tunnel is ready; its client-facing socket has this port.
    TunnelOpened(u16),
    /// No UDP tunnel could be set up.
    TunnelFailed,
    /// The read on the control connection of a UDP association returned,
    /// or piping ended.
    Ended,
}

/// What to do next on a client connection.
#[derive(Clone, Debug, PartialEq, Eq)]
pub enum Action {
    /// Send the octets and read the next message.
    Send(Vec<u8>),
    /// Open a TCP connection to the target, `host:port`.
    Connect(String),
    /// Set up a UDP tunnel.
    OpenTunnel,
    /// Send the octets, then pipe bytes both ways until one side closes.
    Relay(Vec<u8>),
    /// Send the octets, start the tunnel, and read on the connection until
    /// the client closes it.
    Associate(Vec<u8>),
    /// Send the octets and close the connection.
    Reject(Vec<u8>),
    /// Close the connection, and the tunnel with it if there is one.
    Close,
}

/// An `Action` over sequences.
pub enum ActionView {
    Send(Seq<u8>),
    Connect(Seq<char>),
    OpenTunnel,
    Relay(Seq<u8>),
    Associate(Seq<u8>),
    Reject(Seq<u8>),
    Close,
}

impl View for Action {
    type V = ActionView;

    open spec fn view(&self) -> ActionView {
        match *self {
            Action::Send(data) => ActionView::Send(data@),
            Action::Connect(target) => ActionView::Connect(target@),
            Action::OpenTunnel => ActionView::OpenTunnel,
            Action::Relay(data) => ActionView::Relay(data@),
            Action::Associate(data) => ActionView::Associate(data@),
            Action::Reject(data) => ActionView::Reject(data@),
            Action::Close => ActionView::Close,
        }
    }
}

/// One client connection: its stage and the address of the proxy's end of
/// it, which replies carry as the bound address.
#[derive(Clone, Copy, Debug, PartialEq, Eq)]
pub struct Session {
    /// Where the connection stands.
    pub stage: Stage,
    /// The local address of the accepted socket.
    pub local: SocketAddress,
}

/// The step taken on a greeting.
pub open spec fn on_greeting(config: Config, message: Seq<u8>) -> (Stage, ActionView) {
    match select_method(config.has_auth(), message) {
        Selection::UserPwd => (Stage::UserPwd, ActionView::Send(Selection::UserPwd.reply())),
        Selection::NoAuth => (Stage::Request, ActionView::Send(Selection::NoAuth.reply())),
        Selection::Refuse => (Stage::Closed, ActionView::Reject(Selection::Refuse.reply())),
        Selection::Reject => (Stage::Closed, ActionView::Close),
    }
}

/// The step taken on `01 | ULEN | UNAME | PLEN | PASSWD`: `01 00` where
/// the credentials are the configured ones, `01 01` and the end where they
/// are not, the end without a reply where the version is not 1.
pub open spec fn on_user_pwd(config: Config, message: Seq<u8>) -> (Stage, ActionView) {
    if padded(message, 0) != 1 {
        (Stage::Closed, ActionView::Close)
    } else if credentials_match(
        config,
        submitted_username(message),
        submitted_password(message),
    ) {
        (Stage::Request, ActionView::Send(seq![0x01u8, 0x00u8]))
    } else {
        (Stage::Closed, ActionView::Reject(seq![0x01u8, 0x01u8]))
    }
}

/// The step taken on a request
/// `VER | CMD | RSV | ATYP | DST.ADDR | DST.PORT`: a request cut short
/// ends the connection, as does any command but CONNECT and UDP
/// ASSOCIATE.
pub open spec fn on_request(message: Seq<u8>) -> (Stage, ActionView) {
    if message.len() < 4 {
        (Stage::Closed, ActionView::Close)
    } else {
        let atyp = ATYP::of_code(message[3]);
        if target_len(atyp, message.skip(4)) is None {
            (Stage::Closed, ActionView::Close)
        } else {
            match CMD::of_code(message[1]) {
                CMD::CONNECT => (
                    Stage::Connecting,
                    ActionView::Connect(target_text(atyp, message.skip(4))),
                ),
                CMD::UDP => (Stage::Associating, ActionView::OpenTunnel),
                _ => (Stage::Closed, ActionView::Close),
            }
        }
    }
}

/// An `Event` over sequences.
pub enum EventView {
    Received(Seq<u8>),
    Connected,
    ConnectFailed(IoErrorKind),
    TunnelOpened(u16),
    TunnelFailed,
    Ended,
}

impl<'a> View for Event<'a> {
    type V = EventView;

    open spec fn view(&self) -> EventView {
        match *self {
            Event::Received(message) => EventView::Received(message@),
            Event::Connected => EventView::Connected,
            Event::ConnectFailed(kind) => EventView::ConnectFailed(kind),
            Event::TunnelOpened(port) => EventView::TunnelOpened(port),
            Event::TunnelFailed => EventView::TunnelFailed,
            Event::Ended => EventView::Ended,
        }
    }
}

/// The next stage and the action for an event at a stage. An event that
/// the stage does not wait for ends the connection.
pub open spec fn next(
    stage: Stage,
    local: SocketAddress,
    config: Config,
    event: EventView,
) -> (Stage, ActionView) {
    match (stage, event) {
        (Stage::Greeting, EventView::Received(message)) => on_greeting(config, message),
        (Stage::UserPwd, EventView::Received(message)) => on_user_pwd(config, message),
        (Stage::Request, EventView::Received(message)) => on_request(message),
        (Stage::Connecting, EventView::Connected) => (
            Stage::Relaying,
            ActionView::Relay(reply_bytes(REP::Succeeded, local)),
        ),
        (Stage::Connecting, EventView::ConnectFailed(kind)) => (
            Stage::Closed,
            ActionView::Reject(reply_bytes(REP::of_error(kind), local)),
        ),
        (Stage::Associating, EventView::TunnelOpened(port)) => (
            Stage::Associated,
            ActionView::Associate(
                reply_bytes(REP::Succeeded, SocketAddress { ip: local.ip, port: port }),
            ),
        ),
        (Stage::Associating, EventView::TunnelFailed) => (
            Stage::Closed,
            ActionView::Reject(reply_bytes(REP::Failure, local)),
        ),
        _ => (Stage::Closed, ActionView::Close),
    }
}

impl Session {
    /// A connection that was just accepted on `local`.
    pub fn new(local: SocketAddress) -> (session: Session)
        ensures
            session.stage == Stage::Greeting,
            session.local == local,
    {
        Session { stage: Stage::Greeting, local }
    }

    fn greeting(&mut self, config: &Config, message: &[u8]) -> (action: Action)
        ensures
            (final(self).stage, action@) == on_greeting(*config, message@),
            final(self).local == old(self).local,
    {
        let selection = negotiate(config, message);
        let data = selection_reply(selection);
        match selection {
            Selection::UserPwd => {
                self.stage = Stage::UserPwd;
                Action::Send(data)
            },
            Selection::NoAuth => {
                self.stage = Stage::Request;
                Action::Send(data)
            },
            Selection::Refuse => {
                self.stage = Stage::Closed;
                Action::Reject(data)
            },
            Selection::Reject => {
                self.stage = Stage::Closed;
                Action::Close
            },
        }
    }

    fn user_pwd(&mut self, config: &Config, message: &[u8]) -> (action: Action)
        ensures
            (final(self).stage, action@) == on_user_pwd(*config, message@),
            final(self).local == old(self).local,
    {
        match parse_user_pwd(message) {
            None => {
                self.stage = Stage::Closed;
                Action::Close
            },
            Some(credentials) => {
                let mut data: Vec<u8> = Vec::new();
                data.push(0x01);
                if verify_credentials(config, &credentials) {
                    data.push(0x00);
                    self.stage = Stage::Request;
                    assert(data@ == seq![0x01u8, 0x00u8]);
                    Action::Send(data)
                } else {
                    data.push(0x01);
                    self.stage = Stage::Closed;
                    assert(data@ == seq![0x01u8, 0x01u8]);
                    Action::Reject(data)
                }
            },
        }
    }

    fn request(&mut self, message: &[u8]) -> (action: Action)
        ensures
            (final(self).stage, action@) == on_request(message@),
            final(self).local == old(self).local,
    {
        if message.len() < 4 {
            self.stage = Stage::Closed;
            return Action::Close;
        }
        let atyp = ATYP::from(message[3]);
        let rest = &message[4..message.len()];
        assert(rest@ == message@.skip(4));
        match try_parse_target(&atyp, rest) {
            None => {
                self.stage = Stage::Closed;
                Action::Close
            },
            Some((target, _)) => {
                match parse_cmd(message) {
                    CMD::CONNECT => {
                        self.stage = Stage::Connecting;
                        Action::Connect(target)
                    },
                    CMD::UDP => {
                        self.stage = Stage::Associating;
                        Action::OpenTunnel
                    },
                    _ => {
                        self.stage = Stage::Closed;
                        Action::Close
                    },
                }
            },
        }
    }

    /// Takes one event and says what to do next.
    pub fn step(&mut self, config: &Config, event: &Event) -> (action: Action)
        ensures
            (final(self).stage, action@) == next(
                old(self).stage,
                old(self).local,
                *config,
                event@,
            ),
            final(self).local == old(self).local,
    {
        match (self.stage, event) {
            (Stage::Greeting, Event::Received(message)) => self.greeting(config, message),
            (Stage::UserPwd, Event::Received(message)) => self.user_pwd(config, message),
            (Stage::Request, Event::Received(message)) => self.request(message),
            (Stage::Connecting, Event::Connected) => {
                self.stage = Stage::Relaying;
                Action::Relay(reply(REP::Succeeded, self.local))
            },
            (Stage::Connecting, Event::ConnectFailed(kind)) => {
                self.stage = Stage::Closed;
                Action::Reject(reply(REP::from(*kind), self.local))
            },
            (Stage::Associating, Event::TunnelOpened(port)) => {
                self.stage = Stage::Associated;
                Action::Associate(
                    reply(REP::Succeeded, SocketAddress { ip: self.local.ip, port: *port }),
                )
            },
            (Stage::Associating, Event::TunnelFailed) => {
                self.stage = Stage::Closed;
                Action::Reject(reply(REP::Failure, self.local))
            },
            _ => {
                self.stage = Stage::Closed;
                Action::Close
            },
        }
    }
}

/// No step leaves the closed stage.
pub proof fn lemma_closed_stays(local: SocketAddress, config: Config, event: EventView)
    ensures
        next(Stage::Closed, local, config, event) == (Stage::Closed, ActionView::Close),
{
}

/// A request is only awaited after the greeting of a proxy that asks for
/// no credentials, or after the configured credentials were presented.
pub proof fn lemma_request_needs_auth(
    stage: Stage,
    local: SocketAddress,
    config: Config,
    event: EventView,
)
    requires
        next(stage, local, config, event).0 == Stage::Request,
    ensures
        event is Received,
        stage == Stage::Greeting || stage == Stage::UserPwd,
        stage == Stage::Greeting ==> !config.has_auth(),
        stage == Stage::UserPwd ==> credentials_match(
            config,
            submitted_username(event->Received_0),
            submitted_password(event->Received_0),
        ),
{
}

/// A connection or a tunnel is only asked for on a request, and bytes are
/// only relayed, or a tunnel run, once that was granted.
pub proof fn lemma_order_of_stages(
    stage: Stage,
    local: SocketAddress,
    config: Config,
    event: EventView,
)
    ensures
        ({
            let after = next(stage, local, config, event).0;
            &&& after == Stage::Connecting || after == Stage::Associating ==> stage
                == Stage::Request
            &&& after == Stage::Relaying ==> stage == Stage::Connecting && event is Connected
            &&& after == Stage::Associated ==> stage == Stage::Associating && event
                is TunnelOpened
            &&& after != Stage::Greeting
        }),
{
}

} // verus!
