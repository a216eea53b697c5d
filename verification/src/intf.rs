//! The protocol engine: one interface, its device and its socket registry.
//!
//! The interface owns the adapter and every connection. One `poll` call
//! performs at most one packet exchange: it lets time act on every
//! connection, consumes at most one inbound packet, and emits at most one
//! outbound packet. Sockets are named by generation-checked handles that
//! stay valid until the connection is removed.

use vstd::prelude::*;

use crate::addr::{is_prefix_mask, netmask_prefix, Ipv6Addr};
use crate::device::{DeviceError, TxToken, VirtualNIC};
use crate::packet;
use crate::packet::Segment;
use crate::socket::{delay_of, opt_min, opt_min_run, Endpoint, SocketModel, TcpSocket, TcpState};
use crate::{AddressError, ConnectError, ListenError};

verus! {

/// Most connections one interface will hold at a time.
pub const MAX_SOCKETS: usize = 64;

/// Latest instant the engine accepts, leaving room for every timer.
pub const MAX_INSTANT: u64 = 0x1000_0000_0000_0000;

/// A generation-checked name for a connection in one interface's
/// registry. Stale handles are detected, never misread.
#[derive(Clone, Copy, PartialEq, Eq, Structural, Debug)]
pub struct SocketHandle {
    /// Slot in the registry.
    pub index: usize,
    /// Generation the slot had when the connection was created.
    pub generation: u64,
}

/// One registry slot: its current generation and the connection living in
/// it, if any.
pub struct SocketEntry {
    /// Bumped whenever the slot's connection is removed.
    pub generation: u64,
    /// The connection, while one lives here.
    pub sock: Option<TcpSocket>,
}

/// A software IPv6 interface: address, adapter, and socket registry.
pub struct Interface {
    /// The interface's address.
    pub addr: Ipv6Addr,
    /// Prefix length of the attached network.
    pub prefix_len: u8,
    /// Seed for initial sequence numbers and ephemeral ports.
    pub seed: u64,
    /// The software adapter packets pass through.
    pub device: VirtualNIC,
    /// The socket registry.
    pub entries: Vec<SocketEntry>,
}

/// Relies on `rand::random`: a process-random 64-bit value. Nothing is
/// promised of it; it only seeds sequence-number and port derivation.
#[verifier::external_body]
fn random_u64() -> u64 {
    rand::random::<u64>()
}

impl Interface {
    /// Every connection is well-formed, carries the interface's address,
    /// and the registry is within its bounds.
    pub open spec fn wf(&self) -> bool {
        &&& self.device.wf()
        &&& 80 <= self.device.mtu <= 65575
        &&& self.entries@.len() <= MAX_SOCKETS
        &&& self.prefix_len <= 128
        &&& forall|i: int|
            0 <= i < self.entries@.len() ==> ((#[trigger] self.entries@[i]).sock matches Some(s)
                ==> s.wf() && s@.local_addr == self.addr.b@)
    }

    /// Whether `h` names a live connection.
    pub open spec fn valid_handle(&self, h: SocketHandle) -> bool {
        &&& h.index < self.entries@.len()
        &&& self.entries@[h.index as int].generation == h.generation
        &&& self.entries@[h.index as int].sock is Some
    }

    /// The model of the connection `h` names.
    pub open spec fn socket_model(&self, h: SocketHandle) -> SocketModel
        recommends
            self.valid_handle(h),
    {
        (self.entries@[h.index as int].sock->Some_0)@
    }

    /// Whether a new connection can be added.
    pub open spec fn has_free_slot(&self) -> bool {
        ||| self.entries@.len() < MAX_SOCKETS
        ||| exists|i: int|
            0 <= i < self.entries@.len() && (#[trigger] self.entries@[i]).sock is None && (
            #[trigger] self.entries@[i]).generation < 0xFFFF_FFFF_FFFF_FFFFu64
    }

    /// Build an interface on `device` at `addr` with the given prefix
    /// length. Succeeds exactly when the prefix length fits an IPv6
    /// address; the seed for sequence numbers and ports is drawn fresh.
    pub fn new(device: VirtualNIC, addr: Ipv6Addr, prefix_len: u8) -> (r: Result<
        Interface,
        AddressError,
    >)
        requires
            device.wf(),
            80 <= device.mtu <= 65575,
        ensures
            prefix_len <= 128 <==> r is Ok,
            r matches Ok(i) ==> {
                &&& i.wf()
                &&& i.addr.b@ == addr.b@
                &&& i.prefix_len == prefix_len
                &&& i.device.mtu == device.mtu
                &&& i.device.rx@ == device.rx@
                &&& i.device.tx@ == device.tx@
                &&& i.entries@.len() == 0
            },
            r matches Err(e) ==> e == AddressError::PrefixTooLong,
    {
        if prefix_len > 128 {
            return Err(AddressError::PrefixTooLong);
        }
        Ok(
            Interface {
                addr,
                prefix_len,
                seed: random_u64(),
                device,
                entries: Vec::new(),
            },
        )
    }

    /// Build an interface from a netmask instead of a prefix length.
    /// Succeeds exactly when the mask is a contiguous run of high-order
    /// set bits; its length becomes the prefix length.
    pub fn new_with_netmask(device: VirtualNIC, addr: Ipv6Addr, mask: Ipv6Addr) -> (r: Result<
        Interface,
        AddressError,
    >)
        requires
            device.wf(),
            80 <= device.mtu <= 65575,
        ensures
            (exists|q: int| #[trigger] is_prefix_mask(mask.b@, q)) <==> r is Ok,
            r matches Ok(i) ==> {
                &&& i.wf()
                &&& i.addr.b@ == addr.b@
                &&& is_prefix_mask(mask.b@, i.prefix_len as int)
                &&& i.device.mtu == device.mtu
                &&& i.entries@.len() == 0
            },
            r matches Err(e) ==> e == AddressError::NonContiguousMask,
    {
        match netmask_prefix(&mask) {
            Some(p) => {
                let r = Self::new(device, addr, p);
                match r {
                    Ok(i) => Ok(i),
                    Err(_) => {
                        proof {
                            assert(false);
                        }
                        Err(AddressError::NonContiguousMask)
                    },
                }
            },
            None => Err(AddressError::NonContiguousMask),
        }
    }

    /// Step the seed and hand back fresh bits.
    fn next_random(&mut self) -> (r: u64)
        ensures
            final(self).addr == old(self).addr,
            final(self).prefix_len == old(self).prefix_len,
            final(self).device == old(self).device,
            final(self).entries == old(self).entries,
    {
        self.seed = self.seed.wrapping_mul(6364136223846793005).wrapping_add(1442695040888963407);
        self.seed
    }

    /// Find a free slot: an emptied one, or a fresh one at the end.
    /// Returns the slot index, or nothing when the registry is full.
    fn find_slot(&mut self) -> (r: Option<usize>)
        requires
            old(self).wf(),
        ensures
            final(self).wf(),
            final(self).addr == old(self).addr,
            final(self).prefix_len == old(self).prefix_len,
            final(self).device == old(self).device,
            final(self).seed == old(self).seed,
            r matches Some(i) ==> {
                &&& i < final(self).entries@.len()
                &&& final(self).entries@[i as int].sock is None
                &&& final(self).entries@[i as int].generation < 0xFFFF_FFFF_FFFF_FFFFu64
                &&& final(self).entries@.len() <= MAX_SOCKETS
                &&& (forall|k: int|
                    0 <= k < old(self).entries@.len() ==> final(self).entries@[k] == old(self).entries@[k])
                &&& final(self).entries@.len() >= old(self).entries@.len()
            },
            r is None ==> *final(self) == *old(self) && !old(self).has_free_slot(),
            r is Some <==> old(self).has_free_slot(),
    {
        let mut i: usize = 0;
        while i < self.entries.len()
            invariant
                *self == *old(self),
                old(self).wf(),
                0 <= i <= self.entries@.len(),
                forall|k: int|
                    0 <= k < i ==> ((#[trigger] self.entries@[k]).sock is Some || self.entries@[
                        k
                    ].generation >= 0xFFFF_FFFF_FFFF_FFFFu64),
            decreases self.entries@.len() - i,
        {
            let free = (match self.entries[i].sock {
                None => true,
                Some(_) => false,
            }) && self.entries[i].generation < 0xFFFF_FFFF_FFFF_FFFFu64;
            if free {
                return Some(i);
            }
            i = i + 1;
        }
        if self.entries.len() < MAX_SOCKETS {
            self.entries.push(SocketEntry { generation: 0, sock: None });
            return Some(self.entries.len() - 1);
        }
        None
    }

    /// Open an active connection to `remote_addr`:`remote_port`: a fresh
    /// socket in `SYN_SENT` with a random ephemeral local port, its SYN
    /// emitted on the next poll. Fails exactly when the port is zero or
    /// the registry is full.
    pub fn connect(&mut self, remote_addr: Ipv6Addr, remote_port: u16) -> (r: Result<
        SocketHandle,
        ConnectError,
    >)
        requires
            old(self).wf(),
        ensures
            final(self).wf(),
            final(self).addr == old(self).addr,
            final(self).device == old(self).device,
            r is Ok <==> (remote_port != 0 && old(self).has_free_slot()),
            r matches Err(e) ==> final(self).entries@ == old(self).entries@ && (e
                == ConnectError::BadPort <==> remote_port == 0),
            r matches Ok(h) ==> {
                &&& final(self).valid_handle(h)
                &&& final(self).socket_model(h).state == TcpState::SYN_SENT
                &&& final(self).socket_model(h).remote == Some((remote_addr.b@, remote_port))
                &&& 49152 <= final(self).socket_model(h).local_port < 65536
                &&& final(self).socket_model(h).tx.len() == 0
                &&& final(self).socket_model(h).rx.len() == 0
                &&& !final(self).socket_model(h).syn_sent_once
                &&& crate::socket::has_output(final(self).socket_model(h))
                &&& forall|k: int|
                    0 <= k < old(self).entries@.len() && k != h.index ==> final(self).entries@[k]
                        == old(self).entries@[k]
            },
    {
        if remote_port == 0 {
            return Err(ConnectError::BadPort);
        }
        let bits = self.next_random();
        let iss = (bits >> 32) as u32;
        let port_bits = bits as u16;
        let local_port: u16 = 49152 + port_bits % 16384;
        let slot = self.find_slot();
        match slot {
            None => Err(ConnectError::RegistryFull),
            Some(i) => {
                let sock = TcpSocket::new_connect(
                    self.addr,
                    local_port,
                    Endpoint { addr: remote_addr, port: remote_port },
                    iss,
                );
                let ghost pre = self.entries@;
                let entry = self.entries.remove(i);
                let generation = entry.generation;
                self.entries.insert(i, SocketEntry { generation, sock: Some(sock) });
                let h = SocketHandle { index: i, generation };
                proof {
                    assert(self.entries@ =~= pre.update(
                        i as int,
                        SocketEntry { generation, sock: self.entries@[i as int].sock },
                    ));
                }
                Ok(h)
            },
        }
    }

    /// Open a passive connection on `local_port`: a fresh socket in
    /// `LISTEN` awaiting a SYN. Fails exactly when the port is zero or
    /// the registry is full.
    pub fn listen(&mut self, local_port: u16) -> (r: Result<SocketHandle, ListenError>)
        requires
            old(self).wf(),
        ensures
            final(self).wf(),
            final(self).addr == old(self).addr,
            final(self).device == old(self).device,
            r is Ok <==> (local_port != 0 && old(self).has_free_slot()),
            r matches Err(e) ==> final(self).entries@ == old(self).entries@ && (e
                == ListenError::BadPort <==> local_port == 0),
            r matches Ok(h) ==> {
                &&& final(self).valid_handle(h)
                &&& final(self).socket_model(h).state == TcpState::LISTEN
                &&& final(self).socket_model(h).local_port == local_port
                &&& final(self).socket_model(h).remote is None
                &&& forall|k: int|
                    0 <= k < old(self).entries@.len() && k != h.index ==> final(self).entries@[k]
                        == old(self).entries@[k]
            },
    {
        if local_port == 0 {
            return Err(ListenError::BadPort);
        }
        let bits = self.next_random();
        let iss = (bits >> 32) as u32;
        let slot = self.find_slot();
        match slot {
            None => Err(ListenError::RegistryFull),
            Some(i) => {
                let sock = TcpSocket::new_listen(self.addr, local_port, iss);
                let ghost pre = self.entries@;
                let entry = self.entries.remove(i);
                let generation = entry.generation;
                self.entries.insert(i, SocketEntry { generation, sock: Some(sock) });
                let h = SocketHandle { index: i, generation };
                proof {
                    assert(self.entries@ =~= pre.update(
                        i as int,
                        SocketEntry { generation, sock: self.entries@[i as int].sock },
                    ));
                }
                Ok(h)
            },
        }
    }

    /// Remove the connection `h` names, bumping the slot's generation so
    /// stale handles are detected. Returns whether `h` was live.
    pub fn remove(&mut self, h: SocketHandle) -> (r: bool)
        requires
            old(self).wf(),
        ensures
            final(self).wf(),
            final(self).addr == old(self).addr,
            final(self).device == old(self).device,
            r == old(self).valid_handle(h),
            !r ==> final(self).entries@ == old(self).entries@,
            r ==> {
                &&& final(self).entries@[h.index as int].sock is None
                &&& final(self).entries@[h.index as int].generation == (if h.generation
                    < 0xFFFF_FFFF_FFFF_FFFFu64 {
                    h.generation + 1
                } else {
                    h.generation as int
                })
                &&& forall|k: int|
                    0 <= k < old(self).entries@.len() && k != h.index ==> final(self).entries@[k]
                        == old(self).entries@[k]
            },
    {
        if h.index >= self.entries.len() {
            return false;
        }
        let live = self.entries[h.index].generation == h.generation && (match self.entries[
            h.index
        ].sock {
            Some(_) => true,
            None => false,
        });
        if !live {
            return false;
        }
        let entry = self.entries.remove(h.index);
        let bumped: u64 = if entry.generation < 0xFFFF_FFFF_FFFF_FFFFu64 {
            entry.generation + 1
        } else {
            entry.generation
        };
        self.entries.insert(h.index, SocketEntry { generation: bumped, sock: None });
        proof {
            assert(final(self).entries@ =~= old(self).entries@.update(
                h.index as int,
                SocketEntry { generation: bumped, sock: None },
            ));
        }
        true
    }
}

/// Whether every handle valid for `a` stays valid for `b`: same slots,
/// same generations, same liveness.
pub open spec fn handles_preserved(a: Interface, b: Interface) -> bool {
    &&& b.entries@.len() == a.entries@.len()
    &&& forall|k: int|
        0 <= k < a.entries@.len() ==> (#[trigger] b.entries@[k]).generation == a.entries@[
            k
        ].generation && (b.entries@[k].sock is Some <==> a.entries@[k].sock is Some)
}

/// The nearest attention deadline over a registry.
pub open spec fn delays_min(s: Seq<SocketEntry>, now: u64) -> Option<u64>
    decreases s.len(),
{
    if s.len() == 0 {
        None
    } else {
        opt_min(
            match s[0].sock {
                Some(t) => delay_of(t@, now),
                None => None,
            },
            delays_min(s.skip(1), now),
        )
    }
}

/// `opt_min` is associative.
proof fn lemma_opt_min_assoc(a: Option<u64>, b: Option<u64>, c: Option<u64>)
    ensures
        opt_min(opt_min(a, b), c) == opt_min(a, opt_min(b, c)),
{
}

/// The model of the connection living in a slot, if one does.
pub open spec fn entry_model(e: SocketEntry) -> Option<crate::socket::SocketModel> {
    match e.sock {
        Some(t) => Some(t@),
        None => None,
    }
}

/// Whether the model is a connection owning the segment's exact
/// four-tuple.
pub open spec fn model_matches_exact(
    om: Option<crate::socket::SocketModel>,
    g: crate::socket::SegModel,
) -> bool {
    om matches Some(m) && {
        &&& m.state != TcpState::CLOSED
        &&& m.state != TcpState::LISTEN
        &&& m.local_port == g.dst_port
        &&& m.remote == Some((g.src_addr, g.src_port))
    }
}

/// Whether the model is a listener on the segment's destination port.
pub open spec fn model_matches_listen(
    om: Option<crate::socket::SocketModel>,
    g: crate::socket::SegModel,
) -> bool {
    om matches Some(m) && m.state == TcpState::LISTEN && m.local_port == g.dst_port
}

/// Whether the model would accept the segment at all.
pub open spec fn model_matches(
    om: Option<crate::socket::SocketModel>,
    g: crate::socket::SegModel,
) -> bool {
    model_matches_exact(om, g) || model_matches_listen(om, g)
}

/// Whether the slot holds the connection owning the segment's exact
/// four-tuple.
pub open spec fn entry_matches_exact(e: SocketEntry, g: crate::socket::SegModel) -> bool {
    model_matches_exact(entry_model(e), g)
}

/// Whether the slot holds a listener on the segment's destination port.
pub open spec fn entry_matches_listen(e: SocketEntry, g: crate::socket::SegModel) -> bool {
    model_matches_listen(entry_model(e), g)
}

/// Whether the slot's connection would accept the segment at all.
pub open spec fn entry_matches(e: SocketEntry, g: crate::socket::SegModel) -> bool {
    entry_matches_exact(e, g) || entry_matches_listen(e, g)
}

/// The observable content of a registry: each slot's generation and the
/// model of the connection living in it.
pub open spec fn models_of(s: Seq<SocketEntry>) -> Seq<(u64, Option<crate::socket::SocketModel>)> {
    Seq::new(s.len(), |i: int| (s[i].generation, entry_model(s[i])))
}

/// What the time phase of a poll does to the registry's models: every
/// connection takes one `time_step`.
pub open spec fn time_all(
    ms: Seq<(u64, Option<crate::socket::SocketModel>)>,
    now: u64,
) -> Seq<(u64, Option<crate::socket::SocketModel>)> {
    Seq::new(
        ms.len(),
        |i: int|
            (
                ms[i].0,
                match ms[i].1 {
                    Some(m) => Some(crate::socket::time_step(m, now)),
                    None => None,
                },
            ),
    )
}

/// What delivering one segment does to the registry's models: the
/// connection owning the exact four-tuple — or, when none does, a
/// listener on the port — takes one `rcv_step`; everything else stays;
/// unmatched traffic changes nothing.
pub open spec fn dispatch_rel(
    ms: Seq<(u64, Option<crate::socket::SocketModel>)>,
    ms2: Seq<(u64, Option<crate::socket::SocketModel>)>,
    g: crate::socket::SegModel,
    now: u64,
) -> bool {
    if forall|k: int| 0 <= k < ms.len() ==> !model_matches((#[trigger] ms[k]).1, g) {
        ms2 == ms
    } else {
        exists|t: int|
            {
                &&& 0 <= t < ms.len()
                &&& model_matches((#[trigger] ms[t]).1, g)
                &&& (model_matches_exact(ms[t].1, g) || forall|k: int|
                    0 <= k < ms.len() ==> !model_matches_exact((#[trigger] ms[k]).1, g))
                &&& ms2 == ms.update(
                    t,
                    (ms[t].0, Some(crate::socket::rcv_step(ms[t].1->Some_0, g, now))),
                )
            }
    }
}

/// Whether raw packet bytes reach the socket layer at all: a whole
/// TCP-in-IPv6 packet, its checksum balanced, addressed to `addr`.
pub open spec fn deliverable(s: Seq<u8>, addr: Seq<u8>) -> bool {
    &&& packet::parseable(s)
    &&& packet::checksum_ok(s)
    &&& packet::spec_dst_addr(s) == addr
}

/// What the receive phase of a poll does to the registry's models: the
/// oldest inbound packet, if deliverable, is dispatched; otherwise
/// nothing changes.
pub open spec fn rcv_phase_rel(
    ms: Seq<(u64, Option<crate::socket::SocketModel>)>,
    ms2: Seq<(u64, Option<crate::socket::SocketModel>)>,
    rx: Seq<Vec<u8>>,
    addr: Seq<u8>,
    now: u64,
) -> bool {
    if rx.len() == 0 {
        ms2 == ms
    } else if deliverable(rx[0]@, addr) {
        dispatch_rel(ms, ms2, crate::socket::seg_of_bytes(rx[0]@), now)
    } else {
        ms2 == ms
    }
}

/// Whether the model holds a connection with a segment ready to emit.
pub open spec fn om_has_output(om: Option<crate::socket::SocketModel>) -> bool {
    om matches Some(m) && crate::socket::has_output(m)
}

/// The payload bound the engine derives from the device's maximum
/// transmission unit.
pub open spec fn mss_of(mtu: int) -> int {
    if mtu - 60 > 65515 {
        65515
    } else {
        mtu - 60
    }
}

/// Whether the raw bytes carry exactly the segment `g`, with a balanced
/// checksum.
pub open spec fn bytes_carry(s: Seq<u8>, g: crate::socket::SegModel) -> bool {
    &&& packet::parseable(s)
    &&& packet::checksum_ok(s)
    &&& crate::socket::seg_of_bytes(s) == g
}

/// What the transmit phase of a poll does: the first connection with a
/// segment ready takes one `out_step` and exactly that segment's bytes
/// are appended to the outbound queue; with nothing ready, nothing
/// changes.
pub open spec fn tx_phase_rel(
    ms: Seq<(u64, Option<crate::socket::SocketModel>)>,
    ms2: Seq<(u64, Option<crate::socket::SocketModel>)>,
    tx: Seq<Vec<u8>>,
    tx2: Seq<Vec<u8>>,
    now: u64,
    mss: int,
) -> bool {
    if forall|k: int| 0 <= k < ms.len() ==> !om_has_output((#[trigger] ms[k]).1) {
        ms2 == ms && tx2 == tx
    } else {
        exists|t: int|
            {
                &&& 0 <= t < ms.len()
                &&& om_has_output((#[trigger] ms[t]).1)
                &&& (forall|k: int| 0 <= k < t ==> !om_has_output((#[trigger] ms[k]).1))
                &&& ms2 == ms.update(
                    t,
                    (ms[t].0, Some(crate::socket::out_step(ms[t].1->Some_0, now, mss).0)),
                )
                &&& tx2.len() == tx.len() + 1
                &&& (forall|i: int| 0 <= i < tx.len() ==> tx2[i] == tx[i])
                &&& (crate::socket::out_step(ms[t].1->Some_0, now, mss).1 matches Some(gs)
                    && bytes_carry(tx2[tx.len() as int]@, gs))
            }
    }
}

/// A connection with a segment ready always emits one when asked.
proof fn lemma_output_ready(m: crate::socket::SocketModel, now: u64, mss: int)
    requires
        crate::socket::has_output(m),
    ensures
        crate::socket::out_step(m, now, mss).1 is Some,
{
}

/// When the registry as a whole reports no deadline, no single connection
/// has one either.
proof fn lemma_delays_min_none(s: Seq<SocketEntry>, now: u64)
    requires
        delays_min(s, now) is None,
    ensures
        forall|k: int|
            0 <= k < s.len() ==> ((#[trigger] s[k]).sock matches Some(t) ==> delay_of(t@, now)
                is None),
    decreases s.len(),
{
    if s.len() > 0 {
        lemma_delays_min_none(s.skip(1), now);
        assert forall|k: int|
            0 <= k < s.len() implies ((#[trigger] s[k]).sock matches Some(t) ==> delay_of(t@, now)
                is None) by {
            if k > 0 {
                assert(s[k] == s.skip(1)[k - 1]);
            }
        }
    }
}

/// A connection without a deadline is untouched by time and has nothing
/// to say.
proof fn lemma_idle_socket(m: crate::socket::SocketModel, now: u64)
    requires
        delay_of(m, now) is None,
    ensures
        crate::socket::time_step(m, now) == m,
        !crate::socket::has_output(m),
{
    assert(crate::socket::time_step(m, now) =~= m);
}

impl Interface {
    /// The software adapter this interface drives.
    pub fn device(&self) -> (r: &VirtualNIC)
        ensures
            r == &self.device,
    {
        &self.device
    }

    /// Whether `h` names a live connection.
    pub fn handle_live(&self, h: SocketHandle) -> (r: bool)
        ensures
            r == self.valid_handle(h),
    {
        h.index < self.entries.len() && self.entries[h.index].generation == h.generation && (
        match self.entries[h.index].sock {
            Some(_) => true,
            None => false,
        })
    }

    /// The state of the connection `h` names, when it is live.
    pub fn state_of(&self, h: SocketHandle) -> (r: Option<TcpState>)
        ensures
            self.valid_handle(h) ==> r == Some(self.socket_model(h).state),
            !self.valid_handle(h) ==> r is None,
    {
        if !self.handle_live(h) {
            return None;
        }
        match &self.entries[h.index].sock {
            Some(s) => Some(s.state()),
            None => None,
        }
    }

    /// Whether `send` would accept bytes on `h` right now.
    pub fn can_send(&self, h: SocketHandle) -> (r: bool)
        ensures
            r == (self.valid_handle(h) && crate::socket::may_send_state(
                self.socket_model(h).state,
            ) && self.socket_model(h).tx.len() < crate::socket::SOCKET_BUFFER_CAP),
    {
        if !self.handle_live(h) {
            return false;
        }
        match &self.entries[h.index].sock {
            Some(s) => s.can_send(),
            None => false,
        }
    }

    /// Whether the send side of `h` is still open.
    pub fn may_send(&self, h: SocketHandle) -> (r: bool)
        ensures
            r == (self.valid_handle(h) && crate::socket::may_send_state(
                self.socket_model(h).state,
            )),
    {
        if !self.handle_live(h) {
            return false;
        }
        match &self.entries[h.index].sock {
            Some(s) => s.may_send(),
            None => false,
        }
    }

    /// Whether received bytes are waiting on `h`.
    pub fn can_recv(&self, h: SocketHandle) -> (r: bool)
        ensures
            r == (self.valid_handle(h) && self.socket_model(h).rx.len() > 0),
    {
        if !self.handle_live(h) {
            return false;
        }
        match &self.entries[h.index].sock {
            Some(s) => s.can_recv(),
            None => false,
        }
    }

    /// Whether the receive side of `h` is still open.
    pub fn may_recv(&self, h: SocketHandle) -> (r: bool)
        ensures
            r == (self.valid_handle(h) && crate::socket::may_recv_state(
                self.socket_model(h).state,
            )),
    {
        if !self.handle_live(h) {
            return false;
        }
        match &self.entries[h.index].sock {
            Some(s) => s.may_recv(),
            None => false,
        }
    }

    /// Room left in the send buffer of `h`, when it is live.
    pub fn send_buf_available(&self, h: SocketHandle) -> (r: Option<usize>)
        requires
            self.wf(),
        ensures
            self.valid_handle(h) ==> r == Some(
                (crate::socket::SOCKET_BUFFER_CAP - self.socket_model(h).tx.len()) as usize,
            ),
            !self.valid_handle(h) ==> r is None,
    {
        if !self.handle_live(h) {
            return None;
        }
        match &self.entries[h.index].sock {
            Some(s) => Some(s.send_buf_available()),
            None => None,
        }
    }

    /// The keep-alive interval of `h`, when it is live.
    pub fn get_keep_alive(&self, h: SocketHandle) -> (r: Option<Option<u64>>)
        ensures
            self.valid_handle(h) ==> r == Some(self.socket_model(h).keep_alive),
            !self.valid_handle(h) ==> r is None,
    {
        if !self.handle_live(h) {
            return None;
        }
        match &self.entries[h.index].sock {
            Some(s) => Some(s.get_keep_alive()),
            None => None,
        }
    }

    /// Set or clear the keep-alive interval of `h`. Returns whether `h`
    /// was live.
    pub fn set_keep_alive(&mut self, h: SocketHandle, interval: Option<u64>) -> (r: bool)
        requires
            old(self).wf(),
            interval matches Some(k) ==> k <= MAX_INSTANT,
        ensures
            final(self).wf(),
            r == old(self).valid_handle(h),
            handles_preserved(*old(self), *final(self)),
            final(self).addr == old(self).addr,
            final(self).device == old(self).device,
            !r ==> *final(self) == *old(self),
            r ==> final(self).socket_model(h) == (SocketModel {
                keep_alive: interval,
                ..old(self).socket_model(h)
            }),
            r ==> forall|k: int|
                0 <= k < old(self).entries@.len() && k != h.index ==> final(self).entries@[k]
                    == old(self).entries@[k],
    {
        if !self.handle_live(h) {
            return false;
        }
        let ghost pre = self.entries@;
        let mut entry = self.entries.remove(h.index);
        match &mut entry.sock {
            Some(s) => {
                s.set_keep_alive(interval);
            },
            None => {},
        }
        self.entries.insert(h.index, entry);
        proof {
            assert(self.entries@ =~= pre.update(h.index as int, self.entries@[h.index as int]));
        }
        true
    }

    /// Queue bytes on `h` for transmission: as many as fit, in order.
    pub fn send(&mut self, h: SocketHandle, data: &[u8]) -> (r: Result<usize, crate::SendError>)
        requires
            old(self).wf(),
        ensures
            final(self).wf(),
            handles_preserved(*old(self), *final(self)),
            final(self).addr == old(self).addr,
            final(self).device == old(self).device,
            !old(self).valid_handle(h) ==> r == Err::<usize, crate::SendError>(
                crate::SendError::BadHandle,
            ) && *final(self) == *old(self),
            old(self).valid_handle(h) && !crate::socket::may_send_state(
                old(self).socket_model(h).state,
            ) ==> r == Err::<usize, crate::SendError>(crate::SendError::InvalidState) && final(self).socket_model(h) == old(self).socket_model(h) && (forall|k: int|
                0 <= k < old(self).entries@.len() && k != h.index ==> final(self).entries@[k]
                    == old(self).entries@[k]),
            old(self).valid_handle(h) && crate::socket::may_send_state(
                old(self).socket_model(h).state,
            ) ==> (r matches Ok(n) && {
                &&& n == vstd::math::min(
                    data@.len() as int,
                    crate::socket::SOCKET_BUFFER_CAP - old(self).socket_model(h).tx.len(),
                )
                &&& final(self).socket_model(h) == (SocketModel {
                    tx: old(self).socket_model(h).tx + data@.take(n as int),
                    ..old(self).socket_model(h)
                })
                &&& forall|k: int|
                    0 <= k < old(self).entries@.len() && k != h.index ==> final(self).entries@[k]
                        == old(self).entries@[k]
            }),
    {
        if !self.handle_live(h) {
            return Err(crate::SendError::BadHandle);
        }
        let ghost pre = self.entries@;
        let mut entry = self.entries.remove(h.index);
        let r = match &mut entry.sock {
            Some(s) => s.send(data),
            None => Err(crate::SendError::BadHandle),
        };
        self.entries.insert(h.index, entry);
        proof {
            assert(self.entries@ =~= pre.update(h.index as int, self.entries@[h.index as int]));
        }
        r
    }

    /// Drain and return every byte received on `h`, in arrival order.
    pub fn recv(&mut self, h: SocketHandle) -> (r: Result<Vec<u8>, crate::RecvError>)
        requires
            old(self).wf(),
        ensures
            final(self).wf(),
            handles_preserved(*old(self), *final(self)),
            final(self).addr == old(self).addr,
            final(self).device == old(self).device,
            !old(self).valid_handle(h) ==> (r matches Err(e) && e == crate::RecvError::BadHandle)
                && *final(self) == *old(self),
            old(self).valid_handle(h) && !crate::socket::is_synchronized(
                old(self).socket_model(h).state,
            ) ==> (r matches Err(e) && e == crate::RecvError::InvalidState) && final(self).socket_model(h) == old(self).socket_model(h) && (forall|k: int|
                0 <= k < old(self).entries@.len() && k != h.index ==> final(self).entries@[k]
                    == old(self).entries@[k]),
            old(self).valid_handle(h) && crate::socket::is_synchronized(
                old(self).socket_model(h).state,
            ) && !crate::socket::may_recv_state(old(self).socket_model(h).state) && old(self).socket_model(h).rx.len() == 0 ==> (r matches Err(e) && e
                == crate::RecvError::Finished) && final(self).socket_model(h) == old(self).socket_model(h) && (forall|k: int|
                0 <= k < old(self).entries@.len() && k != h.index ==> final(self).entries@[k]
                    == old(self).entries@[k]),
            old(self).valid_handle(h) && crate::socket::is_synchronized(
                old(self).socket_model(h).state,
            ) && (crate::socket::may_recv_state(old(self).socket_model(h).state) || old(self).socket_model(h).rx.len() > 0) ==> (r matches Ok(b) && {
                &&& b@ == old(self).socket_model(h).rx
                &&& final(self).socket_model(h) == (SocketModel {
                    rx: Seq::empty(),
                    need_ack: old(self).socket_model(h).need_ack || old(self).socket_model(
                        h,
                    ).rx.len() > 0,
                    ..old(self).socket_model(h)
                })
                &&& forall|k: int|
                    0 <= k < old(self).entries@.len() && k != h.index ==> final(self).entries@[k]
                        == old(self).entries@[k]
            }),
    {
        if !self.handle_live(h) {
            return Err(crate::RecvError::BadHandle);
        }
        let ghost pre = self.entries@;
        let mut entry = self.entries.remove(h.index);
        let r = match &mut entry.sock {
            Some(s) => s.recv(),
            None => Err(crate::RecvError::BadHandle),
        };
        self.entries.insert(h.index, entry);
        proof {
            assert(self.entries@ =~= pre.update(h.index as int, self.entries@[h.index as int]));
        }
        r
    }

    /// Begin a graceful close of `h`. Returns whether `h` was live.
    pub fn close(&mut self, h: SocketHandle) -> (r: bool)
        requires
            old(self).wf(),
        ensures
            final(self).wf(),
            r == old(self).valid_handle(h),
            handles_preserved(*old(self), *final(self)),
            final(self).addr == old(self).addr,
            final(self).device == old(self).device,
            !r ==> *final(self) == *old(self),
            r ==> final(self).socket_model(h) == crate::socket::close_step(
                old(self).socket_model(h),
            ),
            r ==> forall|k: int|
                0 <= k < old(self).entries@.len() && k != h.index ==> final(self).entries@[k]
                    == old(self).entries@[k],
    {
        if !self.handle_live(h) {
            return false;
        }
        let ghost pre = self.entries@;
        let mut entry = self.entries.remove(h.index);
        match &mut entry.sock {
            Some(s) => {
                s.close();
            },
            None => {},
        }
        self.entries.insert(h.index, entry);
        proof {
            assert(self.entries@ =~= pre.update(h.index as int, self.entries@[h.index as int]));
        }
        true
    }

    /// Tear `h` down at once. Returns whether `h` was live.
    pub fn abort(&mut self, h: SocketHandle) -> (r: bool)
        requires
            old(self).wf(),
        ensures
            final(self).wf(),
            r == old(self).valid_handle(h),
            handles_preserved(*old(self), *final(self)),
            final(self).addr == old(self).addr,
            final(self).device == old(self).device,
            !r ==> *final(self) == *old(self),
            r ==> final(self).socket_model(h) == crate::socket::abort_step(
                old(self).socket_model(h),
            ),
            r ==> final(self).socket_model(h).state == TcpState::CLOSED && final(self).socket_model(h).tx.len() == 0 && final(self).socket_model(h).rx.len() == 0,
            r ==> forall|k: int|
                0 <= k < old(self).entries@.len() && k != h.index ==> final(self).entries@[k]
                    == old(self).entries@[k],
    {
        if !self.handle_live(h) {
            return false;
        }
        let ghost pre = self.entries@;
        let mut entry = self.entries.remove(h.index);
        match &mut entry.sock {
            Some(s) => {
                s.abort();
            },
            None => {},
        }
        self.entries.insert(h.index, entry);
        proof {
            assert(self.entries@ =~= pre.update(h.index as int, self.entries@[h.index as int]));
        }
        true
    }

    /// Hand one raw inbound packet to the device.
    pub fn inject(&mut self, pkt: Vec<u8>) -> (r: Result<(), DeviceError>)
        requires
            old(self).wf(),
        ensures
            final(self).wf(),
            handles_preserved(*old(self), *final(self)),
            final(self).entries@ == old(self).entries@,
            final(self).addr == old(self).addr,
            final(self).device.tx@ == old(self).device.tx@,
            final(self).device.mtu == old(self).device.mtu,
            pkt@.len() <= old(self).device.mtu ==> r is Ok && final(self).device.rx@ == old(self).device.rx@.push(pkt),
            pkt@.len() > old(self).device.mtu ==> r is Err && final(self).device.rx@ == old(self).device.rx@,
    {
        self.device.extend_rx_buffer(pkt)
    }

    /// Whether an outbound packet is waiting to be drained.
    pub fn has_pending_outbound(&self) -> (r: bool)
        ensures
            r == (self.device.tx@.len() > 0),
    {
        self.device.can_consume_tx_buffer()
    }

    /// Take only the oldest outbound packet off the device, if any. The
    /// device's `consume_tx_buffer` drains the whole queue at once
    /// instead.
    pub fn take_outbound(&mut self) -> (r: Option<Vec<u8>>)
        requires
            old(self).wf(),
        ensures
            final(self).wf(),
            handles_preserved(*old(self), *final(self)),
            final(self).entries@ == old(self).entries@,
            final(self).addr == old(self).addr,
            final(self).device.rx@ == old(self).device.rx@,
            final(self).device.mtu == old(self).device.mtu,
            old(self).device.tx@.len() > 0 ==> (r matches Some(p) && p == old(self).device.tx@[0]
                && final(self).device.tx@ == old(self).device.tx@.skip(1)),
            old(self).device.tx@.len() == 0 ==> r is None && final(self).device.tx@ == old(self).device.tx@,
    {
        self.device.take_tx_packet()
    }

    /// One poll cycle, each phase exact: time acts on every connection
    /// (`time_all`); the oldest inbound packet, if deliverable, steps the
    /// matching connection (`rcv_phase_rel`); then the first connection
    /// with a segment ready emits exactly it (`tx_phase_rel`). At most one
    /// packet is consumed and at most one emitted.
    pub fn poll(&mut self, now: u64)
        requires
            old(self).wf(),
            now <= MAX_INSTANT,
        ensures
            final(self).wf(),
            handles_preserved(*old(self), *final(self)),
            final(self).addr == old(self).addr,
            final(self).prefix_len == old(self).prefix_len,
            final(self).device.mtu == old(self).device.mtu,
            old(self).device.rx@.len() == 0 ==> final(self).device.rx@ == old(self).device.rx@,
            old(self).device.rx@.len() > 0 ==> final(self).device.rx@ == old(self).device.rx@.skip(
                1,
            ),
            old(self).device.tx@.is_prefix_of(final(self).device.tx@),
            final(self).device.tx@.len() <= old(self).device.tx@.len() + 1,
            // The whole cycle, phase by phase, over the connection models.
            exists|after_rx: Seq<(u64, Option<SocketModel>)>|
                {
                    &&& #[trigger] rcv_phase_rel(
                        time_all(models_of(old(self).entries@), now),
                        after_rx,
                        old(self).device.rx@,
                        old(self).addr.b@,
                        now,
                    )
                    &&& tx_phase_rel(
                        after_rx,
                        models_of(final(self).entries@),
                        old(self).device.tx@,
                        final(self).device.tx@,
                        now,
                        mss_of(old(self).device.mtu as int),
                    )
                },
            // A fully idle interface is left exactly as it was.
            old(self).device.rx@.len() == 0 && delays_min(old(self).entries@, now) is None ==> (
            models_of(final(self).entries@) == models_of(old(self).entries@)
                && final(self).device.tx@ == old(self).device.tx@),
    {
        self.run_timers(now);
        let ghost mid = models_of(self.entries@);
        self.run_receive(now);
        let ghost after_rx = models_of(self.entries@);
        self.run_transmit(now);
        proof {
            assert(rcv_phase_rel(
                time_all(models_of(old(self).entries@), now),
                after_rx,
                old(self).device.rx@,
                old(self).addr.b@,
                now,
            ));
            // Idleness: with no packet waiting and no deadline anywhere,
            // every phase is a no-op on the models and the queues.
            if old(self).device.rx@.len() == 0 && delays_min(old(self).entries@, now) is None {
                lemma_delays_min_none(old(self).entries@, now);
                let ms0 = models_of(old(self).entries@);
                assert forall|k: int| 0 <= k < ms0.len() implies time_all(ms0, now)[k] == ms0[k]
                    && !om_has_output((#[trigger] ms0[k]).1) by {
                    match old(self).entries@[k].sock {
                        Some(t) => {
                            lemma_idle_socket(t@, now);
                        },
                        None => {},
                    }
                }
                assert(time_all(ms0, now) =~= ms0);
                assert(after_rx == ms0);
                assert(forall|k: int|
                    0 <= k < after_rx.len() ==> !om_has_output((#[trigger] after_rx[k]).1));
                assert(models_of(final(self).entries@) == ms0);
            }
        }
    }

    /// The time phase of a poll: every connection takes one `time_step`.
    fn run_timers(&mut self, now: u64)
        requires
            old(self).wf(),
            now <= MAX_INSTANT,
        ensures
            final(self).wf(),
            handles_preserved(*old(self), *final(self)),
            final(self).addr == old(self).addr,
            final(self).prefix_len == old(self).prefix_len,
            final(self).device == old(self).device,
            models_of(final(self).entries@) == time_all(models_of(old(self).entries@), now),
    {
        let mut i: usize = 0;
        while i < self.entries.len()
            invariant
                old(self).wf(),
                now <= MAX_INSTANT,
                0 <= i <= self.entries@.len(),
                self.addr == old(self).addr,
                self.prefix_len == old(self).prefix_len,
                self.device == old(self).device,
                handles_preserved(*old(self), *self),
                forall|k: int|
                    i <= k < self.entries@.len() ==> self.entries@[k] == old(self).entries@[k],
                forall|k: int|
                    0 <= k < i ==> models_of(self.entries@)[k] == time_all(
                        models_of(old(self).entries@),
                        now,
                    )[k],
                forall|k: int|
                    0 <= k < self.entries@.len() ==> ((#[trigger] self.entries@[k]).sock
                        matches Some(s) ==> s.wf() && s@.local_addr == self.addr.b@),
            decreases self.entries@.len() - i,
        {
            let ghost pre = self.entries@;
            let mut entry = self.entries.remove(i);
            match &mut entry.sock {
                Some(s) => {
                    s.on_time(now);
                },
                None => {},
            }
            self.entries.insert(i, entry);
            proof {
                assert(self.entries@ =~= pre.update(i as int, self.entries@[i as int]));
                assert forall|k: int| 0 <= k < i + 1 implies models_of(self.entries@)[k]
                    == time_all(models_of(old(self).entries@), now)[k] by {
                    if k < i {
                        assert(self.entries@[k] == pre[k]);
                        assert(models_of(pre)[k] == time_all(
                            models_of(old(self).entries@),
                            now,
                        )[k]);
                    } else {
                        assert(pre[k] == old(self).entries@[k]);
                    }
                }
            }
            i = i + 1;
        }
        proof {
            assert(models_of(self.entries@) =~= time_all(models_of(old(self).entries@), now));
        }
    }

    /// The receive phase of a poll: consume the oldest inbound packet, if
    /// any, and dispatch it when it parses, its checksum balances and it
    /// is addressed to this interface; drop it silently otherwise.
    fn run_receive(&mut self, now: u64)
        requires
            old(self).wf(),
            now <= MAX_INSTANT,
        ensures
            final(self).wf(),
            handles_preserved(*old(self), *final(self)),
            final(self).addr == old(self).addr,
            final(self).prefix_len == old(self).prefix_len,
            final(self).device.mtu == old(self).device.mtu,
            final(self).device.tx@ == old(self).device.tx@,
            old(self).device.rx@.len() == 0 ==> final(self).device.rx@ == old(self).device.rx@,
            old(self).device.rx@.len() > 0 ==> final(self).device.rx@ == old(self).device.rx@.skip(
                1,
            ),
            rcv_phase_rel(
                models_of(old(self).entries@),
                models_of(final(self).entries@),
                old(self).device.rx@,
                old(self).addr.b@,
                now,
            ),
    {
        let tok = self.device.receive();
        match tok {
            Some(t) => {
                let bytes = t.consume();
                let parsed = packet::parse(&bytes);
                match parsed {
                    Some(seg) => {
                        let ok = packet::checksum_valid(&bytes) && seg.dst_addr.same_as(
                            &self.addr,
                        );
                        if ok {
                            proof {
                                crate::socket::lemma_parse_gives_model(bytes@, seg);
                                assert(deliverable(bytes@, self.addr.b@));
                            }
                            self.dispatch(&seg, now);
                        } else {
                            proof {
                                assert(!deliverable(bytes@, old(self).addr.b@));
                            }
                        }
                    },
                    None => {
                        proof {
                            assert(!packet::parseable(bytes@));
                        }
                    },
                }
            },
            None => {},
        }
    }

    /// The transmit phase of a poll: the first connection with a segment
    /// ready emits exactly that segment into the outbound queue.
    fn run_transmit(&mut self, now: u64)
        requires
            old(self).wf(),
            now <= MAX_INSTANT,
        ensures
            final(self).wf(),
            handles_preserved(*old(self), *final(self)),
            final(self).addr == old(self).addr,
            final(self).prefix_len == old(self).prefix_len,
            final(self).device.mtu == old(self).device.mtu,
            final(self).device.rx@ == old(self).device.rx@,
            old(self).device.tx@.is_prefix_of(final(self).device.tx@),
            final(self).device.tx@.len() <= old(self).device.tx@.len() + 1,
            tx_phase_rel(
                models_of(old(self).entries@),
                models_of(final(self).entries@),
                old(self).device.tx@,
                final(self).device.tx@,
                now,
                mss_of(old(self).device.mtu as int),
            ),
    {
        let mss: usize = if self.device.mtu - 60 > 65515 {
            65515
        } else {
            self.device.mtu - 60
        };
        proof {
            assert(mss == mss_of(old(self).device.mtu as int));
        }
        let mut k: usize = 0;
        let mut sent: bool = false;
        let ghost mut sent_at: int = 0;
        while k < self.entries.len()
            invariant
                old(self).wf(),
                now <= MAX_INSTANT,
                1 <= mss <= 65515,
                mss + 60 <= self.device.mtu,
                mss == mss_of(old(self).device.mtu as int),
                0 <= k <= self.entries@.len(),
                self.addr == old(self).addr,
                self.prefix_len == old(self).prefix_len,
                self.device.mtu == old(self).device.mtu,
                self.device.wf(),
                self.device.rx@ == old(self).device.rx@,
                handles_preserved(*old(self), *self),
                forall|j: int|
                    0 <= j < self.entries@.len() ==> ((#[trigger] self.entries@[j]).sock
                        matches Some(s) ==> s.wf() && s@.local_addr == self.addr.b@),
                !sent ==> self.entries@ == old(self).entries@ && self.device.tx@ == old(
                    self,
                ).device.tx@,
                !sent ==> forall|j: int|
                    0 <= j < k ==> !om_has_output(
                        (#[trigger] models_of(old(self).entries@)[j]).1,
                    ),
                sent ==> {
                    let ms = models_of(old(self).entries@);
                    let tx0 = old(self).device.tx@;
                    &&& 0 <= sent_at < ms.len()
                    &&& om_has_output(ms[sent_at].1)
                    &&& (forall|j: int| 0 <= j < sent_at ==> !om_has_output((#[trigger] ms[j]).1))
                    &&& models_of(self.entries@) == ms.update(
                        sent_at,
                        (
                            ms[sent_at].0,
                            Some(crate::socket::out_step(ms[sent_at].1->Some_0, now, mss as int).0),
                        ),
                    )
                    &&& self.device.tx@.len() == tx0.len() + 1
                    &&& (forall|i: int| 0 <= i < tx0.len() ==> self.device.tx@[i] == tx0[i])
                    &&& (crate::socket::out_step(ms[sent_at].1->Some_0, now, mss as int).1
                        matches Some(gs) && bytes_carry(self.device.tx@[tx0.len() as int]@, gs))
                },
            decreases self.entries@.len() - k,
        {
            if !sent {
                let ready = match &self.entries[k].sock {
                    Some(s) => s.has_output_now(),
                    None => false,
                };
                if ready {
                    proof {
                        lemma_output_ready(
                            (self.entries@[k as int].sock->Some_0)@,
                            now,
                            mss as int,
                        );
                    }
                    let ghost pre = self.entries@;
                    let mut entry = self.entries.remove(k);
                    let out = match &mut entry.sock {
                        Some(s) => s.build_output(now, mss),
                        None => None,
                    };
                    self.entries.insert(k, entry);
                    proof {
                        assert(self.entries@ =~= pre.update(k as int, self.entries@[k as int]));
                    }
                    match out {
                        Some(seg) => {
                            let bytes = packet::emit(&seg);
                            proof {
                                crate::socket::lemma_parse_gives_model(bytes@, seg);
                            }
                            let tok2 = TxToken { buf: bytes };
                            let ghost tx_before = self.device.tx@;
                            let res = self.device.transmit(tok2);
                            proof {
                                assert(res is Ok);
                                sent_at = k as int;
                                let ms = models_of(old(self).entries@);
                                assert(models_of(self.entries@) =~= ms.update(
                                    sent_at,
                                    (
                                        ms[sent_at].0,
                                        Some(
                                            crate::socket::out_step(
                                                ms[sent_at].1->Some_0,
                                                now,
                                                mss as int,
                                            ).0,
                                        ),
                                    ),
                                ));
                            }
                            sent = true;
                        },
                        None => {
                            proof {
                                assert(false);
                            }
                        },
                    }
                }
            }
            k = k + 1;
        }
        proof {
            if !sent {
                assert(forall|j: int|
                    0 <= j < models_of(old(self).entries@).len() ==> !om_has_output(
                        (#[trigger] models_of(old(self).entries@)[j]).1,
                    ));
                assert(models_of(self.entries@) =~= models_of(old(self).entries@));
            }
        }
    }

    /// Hand one parsed, checksummed inbound segment to the connection it
    /// matches: a connection owning the exact four-tuple first, a listener
    /// on the destination port otherwise. Exactly one matching connection
    /// processes the segment; unmatched traffic is dropped.
    fn dispatch(&mut self, seg: &Segment, now: u64)
        requires
            old(self).wf(),
            now <= MAX_INSTANT,
            seg.payload@.len() <= 70000,
        ensures
            final(self).wf(),
            handles_preserved(*old(self), *final(self)),
            final(self).addr == old(self).addr,
            final(self).prefix_len == old(self).prefix_len,
            final(self).device == old(self).device,
            dispatch_rel(models_of(old(self).entries@), models_of(final(self).entries@), seg@, now),
            (forall|k: int|
                0 <= k < old(self).entries@.len() ==> !entry_matches(
                    #[trigger] old(self).entries@[k],
                    seg@,
                )) ==> final(self).entries@ == old(self).entries@,
            (exists|k: int|
                0 <= k < old(self).entries@.len() && entry_matches(
                    #[trigger] old(self).entries@[k],
                    seg@,
                )) ==> exists|t: int|
                {
                    &&& 0 <= t < old(self).entries@.len()
                    &&& #[trigger] entry_matches(old(self).entries@[t], seg@)
                    &&& (entry_matches_exact(old(self).entries@[t], seg@) || forall|k: int|
                        0 <= k < old(self).entries@.len() ==> !entry_matches_exact(
                            #[trigger] old(self).entries@[k],
                            seg@,
                        ))
                    &&& (final(self).entries@[t].sock->Some_0)@ == crate::socket::rcv_step(
                        (old(self).entries@[t].sock->Some_0)@,
                        seg@,
                        now,
                    )
                    &&& forall|k: int|
                        0 <= k < old(self).entries@.len() && k != t ==> final(self).entries@[k]
                            == old(self).entries@[k]
                },
    {
        let mut target: Option<usize> = None;
        let mut i: usize = 0;
        // Exact four-tuple match.
        while i < self.entries.len()
            invariant
                0 <= i <= self.entries@.len(),
                self.entries@ == old(self).entries@,
                target is None ==> forall|k: int|
                    0 <= k < i ==> !entry_matches_exact(#[trigger] self.entries@[k], seg@),
                target matches Some(t) ==> 0 <= t < self.entries@.len() && entry_matches_exact(
                    self.entries@[t as int],
                    seg@,
                ),
            decreases self.entries@.len() - i,
        {
            if target.is_none() {
                let hit = match &self.entries[i].sock {
                    Some(s) => {
                        let st = s.state();
                        let live = match st {
                            TcpState::CLOSED => false,
                            TcpState::LISTEN => false,
                            _ => true,
                        };
                        live && s.local_port == seg.dst_port && (match &s.remote {
                            Some(e) => e.port == seg.src_port && e.addr.same_as(&seg.src_addr),
                            None => false,
                        })
                    },
                    None => false,
                };
                proof {
                    assert(hit == entry_matches_exact(self.entries@[i as int], seg@));
                }
                if hit {
                    target = Some(i);
                }
            }
            i = i + 1;
        }
        // Wildcard listener match, only when no connection owns the tuple.
        if target.is_none() {
            let mut j: usize = 0;
            while j < self.entries.len()
                invariant
                    0 <= j <= self.entries@.len(),
                    self.entries@ == old(self).entries@,
                    forall|k: int|
                        0 <= k < self.entries@.len() ==> !entry_matches_exact(
                            #[trigger] self.entries@[k],
                            seg@,
                        ),
                    target is None ==> forall|k: int|
                        0 <= k < j ==> !entry_matches_listen(#[trigger] self.entries@[k], seg@),
                    target matches Some(t) ==> 0 <= t < self.entries@.len()
                        && entry_matches_listen(self.entries@[t as int], seg@),
                decreases self.entries@.len() - j,
            {
                if target.is_none() {
                    let hit = match &self.entries[j].sock {
                        Some(s) => {
                            let is_listen = match s.state() {
                                TcpState::LISTEN => true,
                                _ => false,
                            };
                            is_listen && s.local_port == seg.dst_port
                        },
                        None => false,
                    };
                    proof {
                        assert(hit == entry_matches_listen(self.entries@[j as int], seg@));
                    }
                    if hit {
                        target = Some(j);
                    }
                }
                j = j + 1;
            }
        }
        match target {
            Some(t) => {
                let ghost pre = self.entries@;
                let mut entry = self.entries.remove(t);
                match &mut entry.sock {
                    Some(s) => {
                        s.process(seg, now);
                    },
                    None => {},
                }
                self.entries.insert(t, entry);
                proof {
                    assert(self.entries@ =~= pre.update(t as int, self.entries@[t as int]));
                    assert(entry_matches(old(self).entries@[t as int], seg@));
                    assert((self.entries@[t as int].sock->Some_0)@ == crate::socket::rcv_step(
                        (old(self).entries@[t as int].sock->Some_0)@,
                        seg@,
                        now,
                    ));
                    let ms = models_of(old(self).entries@);
                    let ms2 = models_of(self.entries@);
                    assert(model_matches(ms[t as int].1, seg@));
                    assert(ms2 =~= ms.update(
                        t as int,
                        (
                            ms[t as int].0,
                            Some(crate::socket::rcv_step(ms[t as int].1->Some_0, seg@, now)),
                        ),
                    ));
                    assert(dispatch_rel(ms, ms2, seg@, now));
                }
            },
            None => {
                proof {
                    let ms = models_of(old(self).entries@);
                    assert(forall|k: int|
                        0 <= k < ms.len() ==> !model_matches((#[trigger] ms[k]).1, seg@));
                    assert(models_of(self.entries@) =~= ms);
                }
            },
        }
    }

    /// Milliseconds until the engine next needs attention across every
    /// connection, or nothing when it is fully idle.
    pub fn poll_delay(&self, now: u64) -> (r: Option<u64>)
        requires
            self.wf(),
        ensures
            r == delays_min(self.entries@, now),
    {
        let mut acc: Option<u64> = None;
        let mut i: usize = 0;
        proof {
            assert(self.entries@.skip(0) =~= self.entries@);
        }
        while i < self.entries.len()
            invariant
                self.wf(),
                0 <= i <= self.entries@.len(),
                delays_min(self.entries@, now) == opt_min(
                    acc,
                    delays_min(self.entries@.skip(i as int), now),
                ),
            decreases self.entries@.len() - i,
        {
            let d = match &self.entries[i].sock {
                Some(s) => s.poll_delay_socket(now),
                None => None,
            };
            proof {
                let rest = self.entries@.skip(i as int);
                assert(rest[0] == self.entries@[i as int]);
                assert(rest.skip(1) =~= self.entries@.skip(i + 1));
                lemma_opt_min_assoc(acc, d, delays_min(self.entries@.skip(i + 1), now));
            }
            acc = opt_min_run(acc, d);
            i = i + 1;
        }
        proof {
            assert(self.entries@.skip(self.entries@.len() as int).len() == 0);
        }
        acc
    }
}

} // verus!
