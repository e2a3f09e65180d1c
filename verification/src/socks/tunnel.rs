//! The NAT table of the UDP relay and the life of one UDP association.

use rand::rngs::ThreadRng;
use rand::Rng;
use std::collections::{HashMap, HashSet};
use vstd::prelude::*;
use crate::socks::utils::{target_len, target_text, try_parse_udp_frame, udp_frame_ok};
use crate::socks::constant::ATYP;

verus! {

broadcast use vstd::std_specs::hash::group_hash_axioms;

/// The lowest port that the relay binds.
pub const PORT_MIN: u16 = 50000;

/// The highest port that the relay binds.
pub const PORT_MAX: u16 = 60000;

/// The most octets that are read of a datagram.
pub const DATAGRAM_LIMIT: usize = 10240;

/// How many ports are drawn before the search for a free one is given up.
pub const ATTEMPTS: u32 = 10;

/// Whether the relay may bind `port`.
pub open spec fn in_range(port: u16) -> bool {
    PORT_MIN <= port <= PORT_MAX
}

/// Why no port was handed out.
#[derive(Clone, Copy, Debug, PartialEq, Eq, Structural)]
pub enum NatError {
    /// Every port that was drawn is taken.
    NoPortAvailable,
}

/// `rand::rngs::ThreadRng`: a handle to the generator of a thread. It is
/// carried from `rand::thread_rng` to `Rng::gen_range`; nothing of its
/// inside is known.
#[verifier::external_type_specification]
#[verifier::external_body]
pub struct ExThreadRng(ThreadRng);

/// `rand::thread_rng`: the generator of the calling thread. Nothing is
/// claimed of it. It panics where the operating system cannot seed it.
pub assume_specification[ rand::thread_rng ]() -> (rng: ThreadRng)
;

/// `Rng::gen_range` on an inclusive range of `u16`: some number of the
/// range, which must not be empty. Which one is left open.
#[verifier::external_body]
fn gen_range(rng: &mut ThreadRng, low: u16, high: u16) -> (n: u16)
    requires
        low <= high,
    ensures
        low <= n <= high,
{
    rng.gen_range(low..=high)
}

/// The ports that the relay holds and, for each running association, the
/// port of its remote-facing socket under the port of its client-facing
/// one.
#[derive(Debug)]
pub struct Nat {
    ports: HashSet<u16>,
    forwards: HashMap<u16, u16>,
}

impl Nat {
    /// The ports that are taken.
    pub closed spec fn allocated(&self) -> Set<u16> {
        self.ports@
    }

    /// The remote-facing port of each association, by its client-facing
    /// port.
    pub closed spec fn forward_map(&self) -> Map<u16, u16> {
        self.forwards@
    }

    /// Every taken port lies in the range of the relay.
    pub open spec fn ports_in_range(&self) -> bool {
        forall|p: u16| self.allocated().contains(p) ==> in_range(p)
    }

    /// Both ends of every mapping are taken ports.
    pub open spec fn endpoints_allocated(&self) -> bool {
        forall|k: u16| #[trigger]
            self.forward_map().contains_key(k) ==> self.allocated().contains(k)
                && self.allocated().contains(self.forward_map()[k])
    }

    /// No port is an end of two mappings.
    pub open spec fn endpoints_unshared(&self) -> bool {
        forall|k1: u16, k2: u16|
            #![trigger self.forward_map().contains_key(k1), self.forward_map().contains_key(k2)]
            self.forward_map().contains_key(k1) && self.forward_map().contains_key(k2) && k1
                != k2 ==> self.forward_map()[k1] != self.forward_map()[k2]
                && self.forward_map()[k1] != k2
    }

    /// What holds of the table as the relay uses it.
    pub open spec fn consistent(&self) -> bool {
        &&& self.ports_in_range()
        &&& self.endpoints_allocated()
        &&& self.endpoints_unshared()
    }

    /// Whether neither `local` nor `remote` is an end of a mapping under
    /// another port than `local`.
    pub open spec fn unused(&self, local: u16, remote: u16) -> bool {
        forall|k: u16| #[trigger]
            self.forward_map().contains_key(k) && k != local ==> k != remote
                && self.forward_map()[k] != local && self.forward_map()[k] != remote
    }

    /// Whether `port` is no end of any mapping.
    pub open spec fn free_end(&self, port: u16) -> bool {
        &&& !self.forward_map().contains_key(port)
        &&& forall|k: u16| #[trigger]
            self.forward_map().contains_key(k) ==> self.forward_map()[k] != port
    }

    /// Whether `port` is a client-facing end, or no end at all.
    pub open spec fn removable(&self, port: u16) -> bool {
        self.forward_map().contains_key(port) || self.free_end(port)
    }

    /// The ports that are still taken when the association under `k` is
    /// forgotten: all but `k` and the port mapped under it.
    pub open spec fn allocated_without(&self, k: u16) -> Set<u16> {
        if self.forward_map().contains_key(k) {
            self.allocated().remove(self.forward_map()[k]).remove(k)
        } else {
            self.allocated().remove(k)
        }
    }

    /// An empty table.
    pub fn new() -> (table: Nat)
        ensures
            table.allocated() == Set::<u16>::empty(),
            table.forward_map() == Map::<u16, u16>::empty(),
            table.consistent(),
    {
        Nat { ports: HashSet::new(), forwards: HashMap::new() }
    }

    /// Whether `port` is taken.
    pub fn is_allocated(&self, port: u16) -> (taken: bool)
        ensures
            taken == self.allocated().contains(port),
    {
        self.ports.contains(&port)
    }

    /// The remote-facing port mapped under `local`, if any.
    pub fn forward_of(&self, local: u16) -> (remote: Option<u16>)
        ensures
            remote == (if self.forward_map().contains_key(local) {
                Some(self.forward_map()[local])
            } else {
                None
            }),
    {
        match self.forwards.get(&local) {
            Some(remote) => Some(*remote),
            None => None,
        }
    }

    /// Takes `port` if it is free, and says whether it did.
    pub fn claim(&mut self, port: u16) -> (claimed: bool)
        ensures
            claimed == !old(self).allocated().contains(port),
            final(self).allocated() == old(self).allocated().insert(port),
            final(self).forward_map() == old(self).forward_map(),
            old(self).consistent() && in_range(port) ==> final(self).consistent(),
    {
        if self.ports.contains(&port) {
            assert(self.ports@.insert(port) == self.ports@);
            return false;
        }
        self.ports.insert(port);
        true
    }

    /// Gives `port` back, whether or not it was taken. Mappings stay.
    pub fn release(&mut self, port: u16)
        ensures
            final(self).allocated() == old(self).allocated().remove(port),
            final(self).forward_map() == old(self).forward_map(),
            old(self).consistent() && old(self).free_end(port) ==> final(self).consistent(),
    {
        self.ports.remove(&port);
    }

    /// Draws up to ten ports of the range at random and takes the first
    /// that is free. Where none of them is free, nothing changes. With
    /// every port of the range taken it fails; with none taken it
    /// succeeds.
    pub fn select_port(&mut self) -> (selected: Result<u16, NatError>)
        ensures
            match selected {
                Ok(port) => in_range(port) && !old(self).allocated().contains(port)
                    && final(self).allocated() == old(self).allocated().insert(port),
                Err(e) => e == NatError::NoPortAvailable && final(self).allocated() == old(self).allocated(),
            },
            final(self).forward_map() == old(self).forward_map(),
            (forall|p: u16| in_range(p) ==> old(self).allocated().contains(p)) ==> selected is Err,
            (forall|p: u16| in_range(p) ==> !old(self).allocated().contains(p)) ==> selected is Ok,
            old(self).consistent() ==> final(self).consistent(),
    {
        let mut rng = rand::thread_rng();
        let mut i: u32 = 0;
        while i < ATTEMPTS
            invariant
                i <= ATTEMPTS,
                self.allocated() == old(self).allocated(),
                self.forward_map() == old(self).forward_map(),
                i > 0 ==> exists|p: u16| in_range(p) && old(self).allocated().contains(p),
            decreases ATTEMPTS - i,
        {
            let port = gen_range(&mut rng, PORT_MIN, PORT_MAX);
            if self.claim(port) {
                return Ok(port);
            }
            assert(self.allocated() == old(self).allocated().insert(port));
            assert(old(self).allocated().insert(port) == old(self).allocated());
            assert(in_range(port) && old(self).allocated().contains(port));
            i = i + 1;
        }
        Err(NatError::NoPortAvailable)
    }

    /// Records an association: both ports count as taken, and `remote`
    /// stands under `local`.
    pub fn insert(&mut self, local_port: u16, remote_port: u16)
        ensures
            final(self).allocated() == old(self).allocated().insert(local_port).insert(
                remote_port,
            ),
            final(self).forward_map() == old(self).forward_map().insert(local_port, remote_port),
            old(self).consistent() && in_range(local_port) && in_range(remote_port) && old(self).unused(local_port, remote_port) ==> final(self).consistent(),
    {
        self.ports.insert(local_port);
        self.ports.insert(remote_port);
        self.forwards.insert(local_port, remote_port);
        proof {
            if old(self).consistent() && in_range(local_port) && in_range(remote_port) && old(self).unused(local_port, remote_port) {
                assert forall|k: u16| #[trigger]
                    self.forward_map().contains_key(k) implies self.allocated().contains(k)
                    && self.allocated().contains(self.forward_map()[k]) by {
                    if k != local_port {
                        assert(old(self).forward_map().contains_key(k));
                    }
                }
                assert forall|k1: u16, k2: u16|
                    #![trigger self.forward_map().contains_key(k1), self.forward_map().contains_key(k2)]
                    self.forward_map().contains_key(k1) && self.forward_map().contains_key(k2)
                        && k1 != k2 implies self.forward_map()[k1] != self.forward_map()[k2]
                    && self.forward_map()[k1] != k2 by {
                    if k1 != local_port {
                        assert(old(self).forward_map().contains_key(k1));
                    }
                    if k2 != local_port {
                        assert(old(self).forward_map().contains_key(k2));
                    }
                }
            }
        }
    }

    /// Forgets the association under `k`: the mapping goes, and `k` and
    /// the port mapped under it are free again. Without a mapping, only
    /// `k` is freed.
    pub fn remove(&mut self, k: &u16)
        ensures
            final(self).forward_map() == old(self).forward_map().remove(*k),
            final(self).allocated() == old(self).allocated_without(*k),
            old(self).consistent() && old(self).removable(*k) ==> final(self).consistent(),
    {
        match self.forwards.get(k) {
            Some(value) => {
                let value: u16 = *value;
                self.ports.remove(&value);
            },
            None => {},
        }
        self.forwards.remove(k);
        self.ports.remove(k);
        proof {
            if old(self).consistent() && old(self).removable(*k) {
                assert forall|j: u16| #[trigger]
                    self.forward_map().contains_key(j) implies self.allocated().contains(j)
                    && self.allocated().contains(self.forward_map()[j]) by {
                    assert(old(self).forward_map().contains_key(j));
                    if old(self).forward_map().contains_key(*k) {
                        assert(old(self).forward_map().contains_key(*k));
                    }
                }
                assert forall|k1: u16, k2: u16|
                    #![trigger self.forward_map().contains_key(k1), self.forward_map().contains_key(k2)]
                    self.forward_map().contains_key(k1) && self.forward_map().contains_key(k2)
                        && k1 != k2 implies self.forward_map()[k1] != self.forward_map()[k2]
                    && self.forward_map()[k1] != k2 by {
                    assert(old(self).forward_map().contains_key(k1));
                    assert(old(self).forward_map().contains_key(k2));
                }
            }
        }
    }
}

/// In a consistent table both ends of every mapping are taken ports of
/// the range of the relay.
pub proof fn lemma_consistent_mapping(table: Nat, local: u16)
    requires
        table.consistent(),
        table.forward_map().contains_key(local),
    ensures
        table.allocated().contains(local),
        table.allocated().contains(table.forward_map()[local]),
        in_range(local),
        in_range(table.forward_map()[local]),
{
}

/// Where a UDP association stands.
#[derive(Clone, Copy, Debug, PartialEq, Eq, Structural)]
pub enum TunnelStage {
    /// Both ports are held; the first datagram of the client is awaited.
    Bound,
    /// Datagrams are relayed; the mapping stands in the NAT table.
    Running,
    /// The ports are given back.
    Closed,
}

/// One UDP association: the port of the socket that faces the client,
/// the port of the socket that faces the internet, and its stage.
#[derive(Clone, Copy, Debug, PartialEq, Eq)]
pub struct UdpTunnel {
    /// The port of the client-facing socket.
    pub local_port: u16,
    /// The port of the remote-facing socket.
    pub remote_port: u16,
    /// Where the association stands.
    pub stage: TunnelStage,
}

impl UdpTunnel {
    /// Whether `table` accounts for this association: one that waits
    /// holds two ports of the range that are no ends of a mapping; a
    /// running one has its mapping in the table.
    pub open spec fn registered(&self, table: &Nat) -> bool {
        match self.stage {
            TunnelStage::Bound => {
                &&& in_range(self.local_port) && in_range(self.remote_port)
                &&& table.allocated().contains(self.local_port)
                &&& table.allocated().contains(self.remote_port)
                &&& table.free_end(self.local_port)
                &&& table.free_end(self.remote_port)
            },
            TunnelStage::Running => {
                &&& table.forward_map().contains_key(self.local_port)
                &&& table.forward_map()[self.local_port] == self.remote_port
            },
            TunnelStage::Closed => true,
        }
    }

    /// The mappings that are left when this association ends.
    pub open spec fn released_map(&self, table: &Nat) -> Map<u16, u16> {
        match self.stage {
            TunnelStage::Running => table.forward_map().remove(self.local_port),
            _ => table.forward_map(),
        }
    }

    /// The ports that are still taken when this association ends.
    pub open spec fn released_ports(&self, table: &Nat) -> Set<u16> {
        match self.stage {
            TunnelStage::Running => table.allocated_without(self.local_port),
            TunnelStage::Bound => table.allocated().remove(self.local_port).remove(
                self.remote_port,
            ),
            TunnelStage::Closed => table.allocated(),
        }
    }

    /// Takes two free ports, and fails where fewer than two are free.
    /// Where the second cannot be had, the first is given back.
    pub fn new(table: &mut Nat) -> (tunnel: Result<UdpTunnel, NatError>)
        ensures
            match tunnel {
                Ok(t) => {
                    &&& t.stage == TunnelStage::Bound
                    &&& in_range(t.local_port) && in_range(t.remote_port)
                    &&& t.local_port != t.remote_port
                    &&& !old(table).allocated().contains(t.local_port)
                    &&& !old(table).allocated().contains(t.remote_port)
                    &&& final(table).allocated() == old(table).allocated().insert(
                        t.local_port,
                    ).insert(t.remote_port)
                    &&& old(table).consistent() ==> t.registered(final(table))
                },
                Err(e) => e == NatError::NoPortAvailable && final(table).allocated() == old(
                    table,
                ).allocated(),
            },
            final(table).forward_map() == old(table).forward_map(),
            old(table).consistent() ==> final(table).consistent(),
            old(table).scarce() ==> tunnel is Err,
    {
        let local_port = match table.select_port() {
            Ok(port) => port,
            Err(e) => {
                return Err(e);
            },
        };
        let second = table.select_port();
        proof {
            if old(table).scarce() {
                assert forall|p: u16| in_range(p) implies old(table).allocated().insert(
                    local_port,
                ).contains(p) by {
                    if p != local_port {
                        assert(old(table).allocated().contains(p) || old(
                            table,
                        ).allocated().contains(local_port));
                    }
                }
            }
            if old(table).consistent() {
                assert forall|k: u16| #[trigger]
                    table.forward_map().contains_key(k) implies table.forward_map()[k]
                    != local_port && (second is Ok ==> table.forward_map()[k] != second->Ok_0) by {
                    assert(old(table).forward_map().contains_key(k));
                }
                if table.forward_map().contains_key(local_port) {
                    assert(old(table).forward_map().contains_key(local_port));
                }
                if second is Ok && table.forward_map().contains_key(second->Ok_0) {
                    assert(old(table).forward_map().contains_key(second->Ok_0));
                }
            }
            if second is Err {
                assert(old(table).allocated().insert(local_port).remove(local_port) == old(
                    table,
                ).allocated());
            }
        }
        UdpTunnel::pair(table, local_port, second)
    }

    /// Makes the association of a port that is held and the outcome of
    /// the search for a second one. With a second port, it is the waiting
    /// association of both, and the table stays as it is. Without, the
    /// first port is given back and the failure is handed on.
    pub fn pair(table: &mut Nat, local_port: u16, second: Result<u16, NatError>) -> (tunnel:
        Result<UdpTunnel, NatError>)
        ensures
            match second {
                Ok(remote_port) => tunnel == Ok::<UdpTunnel, NatError>(
                    (UdpTunnel {
                        local_port: local_port,
                        remote_port: remote_port,
                        stage: TunnelStage::Bound,
                    }),
                ) && final(table).allocated() == old(table).allocated(),
                Err(e) => tunnel == Err::<UdpTunnel, NatError>(e) && final(table).allocated()
                    == old(table).allocated().remove(local_port),
            },
            final(table).forward_map() == old(table).forward_map(),
            old(table).consistent() && (second is Err ==> old(table).free_end(local_port))
                ==> final(table).consistent(),
    {
        match second {
            Ok(remote_port) => Ok(
                UdpTunnel { local_port, remote_port, stage: TunnelStage::Bound },
            ),
            Err(e) => {
                table.release(local_port);
                Err(e)
            },
        }
    }

    /// Takes the first datagram of the client. A whole request header
    /// starts the association: the mapping enters the NAT table, and the
    /// target and payload to send on are returned. Anything else, or a
    /// tunnel that is not waiting for its first datagram, closes it.
    pub fn start<'a>(&mut self, table: &mut Nat, frame: &'a [u8]) -> (first: Option<
        (String, &'a [u8]),
    >)
        ensures
            first is Some <==> old(self).stage == TunnelStage::Bound && udp_frame_ok(frame@),
            final(self).local_port == old(self).local_port,
            final(self).remote_port == old(self).remote_port,
            match first {
                Some((target, payload)) => {
                    let atyp = ATYP::of_code(frame@[3]);
                    &&& target@ == target_text(atyp, frame@.skip(4))
                    &&& payload@ == frame@.skip(4 + target_len(atyp, frame@.skip(4))->0 as int)
                    &&& final(self).stage == TunnelStage::Running
                    &&& final(table).forward_map() == old(table).forward_map().insert(
                        old(self).local_port,
                        old(self).remote_port,
                    )
                    &&& final(table).allocated() == old(table).allocated().insert(
                        old(self).local_port,
                    ).insert(old(self).remote_port)
                },
                None => {
                    &&& final(self).stage == TunnelStage::Closed
                    &&& final(table).forward_map() == old(self).released_map(old(table))
                    &&& final(table).allocated() == old(self).released_ports(old(table))
                },
            },
            old(table).consistent() && old(self).registered(old(table)) ==> final(table).consistent() && final(self).registered(final(table)),
    {
        if self.stage == TunnelStage::Bound {
            match try_parse_udp_frame(frame) {
                Some((_, target, payload)) => {
                    table.insert(self.local_port, self.remote_port);
                    self.stage = TunnelStage::Running;
                    return Some((target, payload));
                },
                None => {},
            }
        }
        self.close(table);
        None
    }

    /// Ends the association. A running one takes its mapping out of the
    /// NAT table, which frees both ports; one that never started gives
    /// both ports back; a closed one changes nothing.
    pub fn close(&mut self, table: &mut Nat)
        ensures
            final(self).stage == TunnelStage::Closed,
            final(self).local_port == old(self).local_port,
            final(self).remote_port == old(self).remote_port,
            final(table).forward_map() == old(self).released_map(old(table)),
            final(table).allocated() == old(self).released_ports(old(table)),
            old(table).consistent() && old(self).registered(old(table)) ==> final(table).consistent(),
    {
        match self.stage {
            TunnelStage::Running => {
                table.remove(&self.local_port);
            },
            TunnelStage::Bound => {
                table.release(self.local_port);
                table.release(self.remote_port);
            },
            TunnelStage::Closed => {},
        }
        self.stage = TunnelStage::Closed;
    }
}

impl Nat {
    /// Whether fewer than two ports of the range are free: of any two of
    /// them, one is taken.
    pub open spec fn scarce(&self) -> bool {
        forall|p: u16, q: u16|
            #![trigger self.allocated().contains(p), self.allocated().contains(q)]
            in_range(p) && in_range(q) && p != q ==> self.allocated().contains(p)
                || self.allocated().contains(q)
    }
}

} // verus!
