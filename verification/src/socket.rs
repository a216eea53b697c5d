//! The per-connection TCP state machine and its byte buffers.
//!
//! A `TcpSocket` holds the connection state, the endpoints, the sequence
//! bookkeeping and two bounded byte rings: bytes queued to send and bytes
//! received but not yet read. Every transition — an arriving segment, a
//! close or abort call, the passage of time, the emission of a segment —
//! is specified as a function on the socket's mathematical model.

use vstd::prelude::*;

use crate::addr::Ipv6Addr;
use crate::packet::{Segment, FLAG_ACK, FLAG_FIN, FLAG_PSH, FLAG_RST, FLAG_SYN};

verus! {

/// Capacity of each of the two per-connection byte buffers.
pub const SOCKET_BUFFER_CAP: usize = 65535;

/// Milliseconds before an unacknowledged transmission is retried.
pub const RETRANSMIT_MILLIS: u64 = 1000;

/// Milliseconds a closed connection lingers in `TIME_WAIT`.
pub const TIME_WAIT_MILLIS: u64 = 10000;

/// Failed keep-alive probes tolerated before the connection resets.
pub const KEEP_ALIVE_MAX_PROBES: u8 = 8;

/// The states of the TCP connection automaton.
#[allow(non_camel_case_types)]
#[derive(Clone, Copy, PartialEq, Eq, Structural, Debug)]
pub enum TcpState {
    CLOSED,
    LISTEN,
    SYN_SENT,
    SYN_RECEIVED,
    ESTABLISHED,
    FIN_WAIT_1,
    FIN_WAIT_2,
    CLOSE_WAIT,
    CLOSING,
    LAST_ACK,
    TIME_WAIT,
}

/// A remote address and port.
#[derive(Clone, Copy)]
pub struct Endpoint {
    /// The peer's address.
    pub addr: Ipv6Addr,
    /// The peer's port.
    pub port: u16,
}

/// The mathematical model of a connection: what the contracts speak of.
#[verifier::ext_equal]
pub ghost struct SocketModel {
    /// Connection state.
    pub state: TcpState,
    /// Bytes of the local address.
    pub local_addr: Seq<u8>,
    /// Local port.
    pub local_port: u16,
    /// Peer endpoint, as address bytes and port, once known.
    pub remote: Option<(Seq<u8>, u16)>,
    /// Our initial sequence number.
    pub iss: u32,
    /// Sequence number of the first unacknowledged sent byte.
    pub snd_base: u32,
    /// How many buffered bytes have been transmitted but not acknowledged.
    pub tx_sent: nat,
    /// Next sequence number expected from the peer.
    pub rcv_nxt: u32,
    /// Last send window the peer advertised.
    pub peer_window: u16,
    /// Bytes accepted from the caller and not yet acknowledged by the peer.
    pub tx: Seq<u8>,
    /// Bytes received in order and not yet read by the caller.
    pub rx: Seq<u8>,
    /// Whether the SYN (or SYN-ACK) of the current attempt was transmitted.
    pub syn_sent_once: bool,
    /// Whether the FIN of the current close was transmitted.
    pub fin_sent_once: bool,
    /// Whether an acknowledgment is owed to the peer.
    pub need_ack: bool,
    /// Whether a reset segment is owed to the peer.
    pub rst_pending: bool,
    /// Retransmission deadline, when something unacknowledged is out.
    pub rto_at: Option<u64>,
    /// When `TIME_WAIT` expires; meaningful only in that state.
    pub time_wait_at: u64,
    /// Keep-alive interval in milliseconds, when enabled.
    pub keep_alive: Option<u64>,
    /// Last instant a segment from the peer arrived.
    pub last_peer_activity: u64,
    /// Keep-alive probes sent since the last peer activity.
    pub probes_sent: u8,
}

/// The mathematical model of a segment.
#[verifier::ext_equal]
pub ghost struct SegModel {
    /// Source address bytes.
    pub src_addr: Seq<u8>,
    /// Destination address bytes.
    pub dst_addr: Seq<u8>,
    /// Source port.
    pub src_port: u16,
    /// Destination port.
    pub dst_port: u16,
    /// Sequence number.
    pub seq: u32,
    /// Acknowledgment number.
    pub ack: u32,
    /// Flag bits.
    pub flags: u8,
    /// Advertised window.
    pub window: u16,
    /// Payload bytes.
    pub payload: Seq<u8>,
}

impl View for Segment {
    type V = SegModel;

    open spec fn view(&self) -> SegModel {
        SegModel {
            src_addr: self.src_addr.b@,
            dst_addr: self.dst_addr.b@,
            src_port: self.src_port,
            dst_port: self.dst_port,
            seq: self.seq,
            ack: self.ack,
            flags: self.flags,
            window: self.window,
            payload: self.payload@,
        }
    }
}

/// The segment model a raw packet carries, read straight off its bytes.
pub open spec fn seg_of_bytes(s: Seq<u8>) -> SegModel {
    SegModel {
        src_addr: crate::packet::spec_src_addr(s),
        dst_addr: crate::packet::spec_dst_addr(s),
        src_port: crate::packet::spec_src_port(s) as u16,
        dst_port: crate::packet::spec_dst_port(s) as u16,
        seq: crate::packet::spec_seq(s) as u32,
        ack: crate::packet::spec_ack(s) as u32,
        flags: crate::packet::spec_flags(s),
        window: crate::packet::spec_window(s) as u16,
        payload: crate::packet::spec_payload(s),
    }
}

/// A parsed segment is exactly the model its bytes carry.
pub proof fn lemma_parse_gives_model(s: Seq<u8>, g: Segment)
    requires
        crate::packet::is_parse_of(s, g),
    ensures
        g@ == seg_of_bytes(s),
{
    assert(g@ =~= seg_of_bytes(s));
}

/// Whether flag bit `bit` is set in `f`.
pub open spec fn has_flag(f: u8, bit: u8) -> bool {
    f & bit != 0
}

/// Addition in sequence-number space.
pub open spec fn seq_add(a: u32, n: int) -> u32
    recommends
        0 <= n <= 0xFFFF_FFFF,
{
    if a + n <= 0xFFFF_FFFFu32 {
        (a + n) as u32
    } else {
        (a + n - 0x1_0000_0000) as u32
    }
}

/// Distance from `b` up to `a` in sequence-number space.
pub open spec fn seq_sub(a: u32, b: u32) -> int {
    if a >= b {
        a - b
    } else {
        a - b + 0x1_0000_0000
    }
}

/// The per-connection state machine and its buffers.
pub struct TcpSocket {
    /// Connection state.
    pub state: TcpState,
    /// The interface's address, used as the source of emitted packets.
    pub local_addr: Ipv6Addr,
    /// Local port.
    pub local_port: u16,
    /// Peer endpoint once known.
    pub remote: Option<Endpoint>,
    /// Our initial sequence number.
    pub iss: u32,
    /// Sequence number of `tx_buf[0]`.
    pub snd_base: u32,
    /// Bytes of `tx_buf` transmitted but not acknowledged.
    pub tx_sent: usize,
    /// Next sequence number expected from the peer.
    pub rcv_nxt: u32,
    /// Last window the peer advertised.
    pub peer_window: u16,
    /// Send buffer: accepted, unacknowledged bytes.
    pub tx_buf: Vec<u8>,
    /// Receive buffer: in-order bytes not yet read.
    pub rx_buf: Vec<u8>,
    /// Whether the SYN of the current attempt went out.
    pub syn_sent_once: bool,
    /// Whether the FIN of the current close went out.
    pub fin_sent_once: bool,
    /// Whether an acknowledgment is owed.
    pub need_ack: bool,
    /// Whether a reset is owed.
    pub rst_pending: bool,
    /// Retransmission deadline.
    pub rto_at: Option<u64>,
    /// `TIME_WAIT` expiry instant.
    pub time_wait_at: u64,
    /// Keep-alive interval, milliseconds.
    pub keep_alive: Option<u64>,
    /// Last instant the peer was heard.
    pub last_peer_activity: u64,
    /// Keep-alive probes since last peer activity.
    pub probes_sent: u8,
}

impl View for TcpSocket {
    type V = SocketModel;

    open spec fn view(&self) -> SocketModel {
        SocketModel {
            state: self.state,
            local_addr: self.local_addr.b@,
            local_port: self.local_port,
            remote: match self.remote {
                Some(e) => Some((e.addr.b@, e.port)),
                None => None,
            },
            iss: self.iss,
            snd_base: self.snd_base,
            tx_sent: self.tx_sent as nat,
            rcv_nxt: self.rcv_nxt,
            peer_window: self.peer_window,
            tx: self.tx_buf@,
            rx: self.rx_buf@,
            syn_sent_once: self.syn_sent_once,
            fin_sent_once: self.fin_sent_once,
            need_ack: self.need_ack,
            rst_pending: self.rst_pending,
            rto_at: self.rto_at,
            time_wait_at: self.time_wait_at,
            keep_alive: self.keep_alive,
            last_peer_activity: self.last_peer_activity,
            probes_sent: self.probes_sent,
        }
    }
}

/// States in which the three-way handshake has completed.
pub open spec fn is_synchronized(s: TcpState) -> bool {
    ||| s == TcpState::ESTABLISHED
    ||| s == TcpState::FIN_WAIT_1
    ||| s == TcpState::FIN_WAIT_2
    ||| s == TcpState::CLOSE_WAIT
    ||| s == TcpState::CLOSING
    ||| s == TcpState::LAST_ACK
    ||| s == TcpState::TIME_WAIT
}

/// States in which the caller may still hand bytes to send.
pub open spec fn may_send_state(s: TcpState) -> bool {
    ||| s == TcpState::ESTABLISHED
    ||| s == TcpState::CLOSE_WAIT
}

/// States in which more bytes may still arrive from the peer.
pub open spec fn may_recv_state(s: TcpState) -> bool {
    ||| s == TcpState::ESTABLISHED
    ||| s == TcpState::FIN_WAIT_1
    ||| s == TcpState::FIN_WAIT_2
}

/// States in which our FIN is out or owed and not yet acknowledged.
pub open spec fn fin_in_flight(m: SocketModel) -> bool {
    &&& m.fin_sent_once
    &&& (m.state == TcpState::FIN_WAIT_1 || m.state == TcpState::CLOSING || m.state
        == TcpState::LAST_ACK)
}

/// The well-formedness every socket keeps.
pub open spec fn inv(m: SocketModel) -> bool {
    &&& m.tx.len() <= SOCKET_BUFFER_CAP
    &&& m.rx.len() <= SOCKET_BUFFER_CAP
    &&& m.tx_sent <= m.tx.len()
    &&& m.local_addr.len() == 16
    &&& (m.state != TcpState::CLOSED && m.state != TcpState::LISTEN ==> m.remote is Some)
    &&& (m.remote matches Some(e) ==> e.0.len() == 16)
    &&& (m.rst_pending ==> m.remote is Some)
    &&& (m.state == TcpState::LISTEN ==> m.tx.len() == 0 && m.rx.len() == 0)
    &&& (fin_in_flight(m) ==> m.tx_sent == m.tx.len())
    &&& m.last_peer_activity <= 0x1000_0000_0000_0000u64
    &&& m.time_wait_at <= 0x1000_0000_0000_0000u64 + TIME_WAIT_MILLIS
    &&& (m.rto_at matches Some(t) ==> t <= 0x1000_0000_0000_0000u64 + RETRANSMIT_MILLIS)
    &&& (m.keep_alive matches Some(k) ==> k <= 0x1000_0000_0000_0000u64)
    &&& (m.state == TcpState::CLOSED ==> m.tx.len() == 0)
}

impl TcpSocket {
    /// The model invariant, on the concrete socket.
    pub open spec fn wf(&self) -> bool {
        inv(self@)
    }

    /// The connection state.
    pub fn state(&self) -> (r: TcpState)
        ensures
            r == self@.state,
    {
        self.state
    }

    /// Whether the caller may hand bytes to `send` and room exists.
    pub fn can_send(&self) -> (r: bool)
        ensures
            r == (may_send_state(self@.state) && self@.tx.len() < SOCKET_BUFFER_CAP),
    {
        let permits = match self.state {
            TcpState::ESTABLISHED => true,
            TcpState::CLOSE_WAIT => true,
            _ => false,
        };
        permits && self.tx_buf.len() < SOCKET_BUFFER_CAP
    }

    /// Whether the send side of the connection is still open.
    pub fn may_send(&self) -> (r: bool)
        ensures
            r == may_send_state(self@.state),
    {
        match self.state {
            TcpState::ESTABLISHED => true,
            TcpState::CLOSE_WAIT => true,
            _ => false,
        }
    }

    /// Whether received bytes are waiting to be read.
    pub fn can_recv(&self) -> (r: bool)
        ensures
            r == (self@.rx.len() > 0),
    {
        self.rx_buf.len() > 0
    }

    /// Whether the receive side is still open: the peer has not closed.
    pub fn may_recv(&self) -> (r: bool)
        ensures
            r == may_recv_state(self@.state),
    {
        match self.state {
            TcpState::ESTABLISHED => true,
            TcpState::FIN_WAIT_1 => true,
            TcpState::FIN_WAIT_2 => true,
            _ => false,
        }
    }

    /// Room left in the send buffer.
    pub fn send_buf_available(&self) -> (r: usize)
        requires
            self.wf(),
        ensures
            r == SOCKET_BUFFER_CAP - self@.tx.len(),
    {
        SOCKET_BUFFER_CAP - self.tx_buf.len()
    }

    /// The keep-alive interval, milliseconds, when one is set.
    pub fn get_keep_alive(&self) -> (r: Option<u64>)
        ensures
            r == self@.keep_alive,
    {
        self.keep_alive
    }

    /// Set or clear the keep-alive interval, in milliseconds.
    pub fn set_keep_alive(&mut self, interval: Option<u64>)
        requires
            old(self).wf(),
            interval matches Some(k) ==> k <= 0x1000_0000_0000_0000u64,
        ensures
            final(self).wf(),
            final(self)@ == (SocketModel { keep_alive: interval, ..old(self)@ }),
    {
        self.keep_alive = interval;
        proof {
            assert(final(self)@ =~= (SocketModel { keep_alive: interval, ..old(self)@ }));
        }
    }

    /// Queue bytes for transmission: as many as fit, in order. The count
    /// accepted never exceeds the room that `send_buf_available` reported.
    pub fn send(&mut self, data: &[u8]) -> (r: Result<usize, crate::SendError>)
        requires
            old(self).wf(),
        ensures
            final(self).wf(),
            !may_send_state(old(self)@.state) ==> r == Err::<usize, crate::SendError>(
                crate::SendError::InvalidState,
            ) && final(self)@ == old(self)@,
            may_send_state(old(self)@.state) ==> (r matches Ok(n) && {
                &&& n == vstd::math::min(
                    data@.len() as int,
                    SOCKET_BUFFER_CAP - old(self)@.tx.len(),
                )
                &&& final(self)@ == (SocketModel {
                    tx: old(self)@.tx + data@.take(n as int),
                    ..old(self)@
                })
            }),
    {
        let permits = match self.state {
            TcpState::ESTABLISHED => true,
            TcpState::CLOSE_WAIT => true,
            _ => false,
        };
        if !permits {
            return Err(crate::SendError::InvalidState);
        }
        let room = SOCKET_BUFFER_CAP - self.tx_buf.len();
        let n = if data.len() < room {
            data.len()
        } else {
            room
        };
        let mut i: usize = 0;
        while i < n
            invariant
                0 <= i <= n,
                n <= data@.len(),
                old(self)@.tx.len() + n <= SOCKET_BUFFER_CAP,
                self.tx_buf@ == old(self)@.tx + data@.take(i as int),
                self.state == old(self).state,
                self.local_addr == old(self).local_addr,
                self.local_port == old(self).local_port,
                self.remote == old(self).remote,
                self.iss == old(self).iss,
                self.snd_base == old(self).snd_base,
                self.tx_sent == old(self).tx_sent,
                self.rcv_nxt == old(self).rcv_nxt,
                self.peer_window == old(self).peer_window,
                self.rx_buf == old(self).rx_buf,
                self.syn_sent_once == old(self).syn_sent_once,
                self.fin_sent_once == old(self).fin_sent_once,
                self.need_ack == old(self).need_ack,
                self.rst_pending == old(self).rst_pending,
                self.rto_at == old(self).rto_at,
                self.time_wait_at == old(self).time_wait_at,
                self.keep_alive == old(self).keep_alive,
                self.last_peer_activity == old(self).last_peer_activity,
                self.probes_sent == old(self).probes_sent,
            decreases n - i,
        {
            self.tx_buf.push(data[i]);
            proof {
                assert(self.tx_buf@ =~= old(self)@.tx + data@.take(i + 1));
            }
            i = i + 1;
        }
        proof {
            assert(final(self)@ =~= (SocketModel {
                tx: old(self)@.tx + data@.take(n as int),
                ..old(self)@
            }));
        }
        Ok(n)
    }

    /// Drain and return every received byte, in arrival order; empty when
    /// none have arrived yet but more still may. Fails when the connection
    /// never synchronized, and — once the peer has closed its side — when
    /// the last buffered byte has already been read. Freed room is
    /// announced to the peer with the next acknowledgment.
    pub fn recv(&mut self) -> (r: Result<Vec<u8>, crate::RecvError>)
        requires
            old(self).wf(),
        ensures
            final(self).wf(),
            !is_synchronized(old(self)@.state) ==> (r matches Err(e) && e
                == crate::RecvError::InvalidState) && final(self)@ == old(self)@,
            is_synchronized(old(self)@.state) && !may_recv_state(old(self)@.state) && old(self)@.rx.len() == 0 ==> (r matches Err(e) && e == crate::RecvError::Finished) && final(self)@ == old(self)@,
            is_synchronized(old(self)@.state) && (may_recv_state(old(self)@.state) || old(self)@.rx.len() > 0) ==> (r matches Ok(b) && b@ == old(self)@.rx && final(self)@ == (
            SocketModel {
                rx: Seq::empty(),
                need_ack: old(self)@.need_ack || old(self)@.rx.len() > 0,
                ..old(self)@
            })),
    {
        let sync = match self.state {
            TcpState::ESTABLISHED => true,
            TcpState::FIN_WAIT_1 => true,
            TcpState::FIN_WAIT_2 => true,
            TcpState::CLOSE_WAIT => true,
            TcpState::CLOSING => true,
            TcpState::LAST_ACK => true,
            TcpState::TIME_WAIT => true,
            _ => false,
        };
        if !sync {
            return Err(crate::RecvError::InvalidState);
        }
        let open = match self.state {
            TcpState::ESTABLISHED => true,
            TcpState::FIN_WAIT_1 => true,
            TcpState::FIN_WAIT_2 => true,
            _ => false,
        };
        if !open && self.rx_buf.len() == 0 {
            return Err(crate::RecvError::Finished);
        }
        let mut out: Vec<u8> = Vec::new();
        std::mem::swap(&mut out, &mut self.rx_buf);
        if out.len() > 0 {
            self.need_ack = true;
        }
        proof {
            assert(final(self)@ =~= (SocketModel {
                rx: Seq::empty(),
                need_ack: old(self)@.need_ack || old(self)@.rx.len() > 0,
                ..old(self)@
            }));
        }
        Ok(out)
    }

    /// Begin a graceful close. The FIN goes out once all queued bytes have
    /// been transmitted; calling this again changes nothing further.
    pub fn close(&mut self)
        requires
            old(self).wf(),
        ensures
            final(self).wf(),
            final(self)@ == close_step(old(self)@),
    {
        match self.state {
            TcpState::LISTEN => {
                self.state = TcpState::CLOSED;
            },
            TcpState::SYN_SENT => {
                self.state = TcpState::CLOSED;
                self.tx_buf = Vec::new();
                self.tx_sent = 0;
                self.rto_at = None;
            },
            TcpState::SYN_RECEIVED | TcpState::ESTABLISHED => {
                self.state = TcpState::FIN_WAIT_1;
                self.fin_sent_once = false;
            },
            TcpState::CLOSE_WAIT => {
                self.state = TcpState::LAST_ACK;
                self.fin_sent_once = false;
            },
            _ => {},
        }
        proof {
            assert(final(self)@ =~= close_step(old(self)@));
        }
    }

    /// Tear the connection down at once: state goes to `CLOSED`, both
    /// buffers are emptied, and a reset is owed to the peer if the
    /// connection had reached `SYN_SENT` or later.
    pub fn abort(&mut self)
        requires
            old(self).wf(),
        ensures
            final(self).wf(),
            final(self)@ == abort_step(old(self)@),
            final(self)@.state == TcpState::CLOSED,
            final(self)@.tx.len() == 0,
            final(self)@.rx.len() == 0,
    {
        let had_reached = match self.state {
            TcpState::CLOSED => false,
            TcpState::LISTEN => false,
            _ => true,
        };
        self.state = TcpState::CLOSED;
        self.tx_buf = Vec::new();
        self.rx_buf = Vec::new();
        self.tx_sent = 0;
        self.need_ack = false;
        self.rto_at = None;
        if had_reached {
            self.rst_pending = true;
        }
        proof {
            assert(final(self)@ =~= abort_step(old(self)@));
        }
    }
}

/// What `close` does to the model: the close rows of the TCP automaton.
pub open spec fn close_step(m: SocketModel) -> SocketModel {
    match m.state {
        TcpState::LISTEN => SocketModel { state: TcpState::CLOSED, ..m },
        TcpState::SYN_SENT => SocketModel {
            state: TcpState::CLOSED,
            tx: Seq::empty(),
            tx_sent: 0,
            rto_at: None,
            ..m
        },
        TcpState::SYN_RECEIVED => SocketModel {
            state: TcpState::FIN_WAIT_1,
            fin_sent_once: false,
            ..m
        },
        TcpState::ESTABLISHED => SocketModel {
            state: TcpState::FIN_WAIT_1,
            fin_sent_once: false,
            ..m
        },
        TcpState::CLOSE_WAIT => SocketModel {
            state: TcpState::LAST_ACK,
            fin_sent_once: false,
            ..m
        },
        _ => m,
    }
}

/// What `abort` does to the model: straight to `CLOSED`, buffers gone,
/// a reset owed when the connection had reached `SYN_SENT` or later.
pub open spec fn abort_step(m: SocketModel) -> SocketModel {
    SocketModel {
        state: TcpState::CLOSED,
        tx: Seq::empty(),
        rx: Seq::empty(),
        tx_sent: 0,
        need_ack: false,
        rto_at: None,
        rst_pending: m.rst_pending || (m.state != TcpState::CLOSED && m.state != TcpState::LISTEN),
        ..m
    }
}

/// What an arriving reset does: straight to `CLOSED`, buffers gone.
pub open spec fn rst_step(m: SocketModel) -> SocketModel {
    SocketModel {
        state: TcpState::CLOSED,
        tx: Seq::empty(),
        rx: Seq::empty(),
        tx_sent: 0,
        need_ack: false,
        rto_at: None,
        ..m
    }
}

/// What a segment does to a listening socket: a bare SYN opens the
/// connection attempt and moves it to `SYN_RECEIVED`; anything else is
/// dropped.
pub open spec fn listen_step(m: SocketModel, g: SegModel, now: u64) -> SocketModel {
    if has_flag(g.flags, FLAG_SYN) && !has_flag(g.flags, FLAG_ACK) {
        SocketModel {
            state: TcpState::SYN_RECEIVED,
            remote: Some((g.src_addr, g.src_port)),
            rcv_nxt: seq_add(g.seq, 1),
            snd_base: seq_add(m.iss, 1),
            peer_window: g.window,
            syn_sent_once: false,
            last_peer_activity: now,
            ..m
        }
    } else {
        m
    }
}

/// What a segment does in `SYN_SENT`: a SYN-ACK that acknowledges our SYN
/// establishes the connection; anything else is dropped.
pub open spec fn syn_sent_step(m: SocketModel, g: SegModel, now: u64) -> SocketModel {
    if has_flag(g.flags, FLAG_SYN) && has_flag(g.flags, FLAG_ACK) && g.ack == seq_add(m.iss, 1) {
        SocketModel {
            state: TcpState::ESTABLISHED,
            rcv_nxt: seq_add(g.seq, 1),
            need_ack: true,
            peer_window: g.window,
            rto_at: None,
            last_peer_activity: now,
            probes_sent: 0,
            ..m
        }
    } else {
        m
    }
}

/// What a segment does in `SYN_RECEIVED`: an ACK of our SYN-ACK
/// establishes the connection; anything else is dropped.
pub open spec fn syn_received_step(m: SocketModel, g: SegModel, now: u64) -> SocketModel {
    if has_flag(g.flags, FLAG_ACK) && !has_flag(g.flags, FLAG_SYN) && g.ack == m.snd_base {
        SocketModel {
            state: TcpState::ESTABLISHED,
            peer_window: g.window,
            rto_at: None,
            last_peer_activity: now,
            probes_sent: 0,
            ..m
        }
    } else {
        m
    }
}

/// Whether the segment's acknowledgment lies inside what we have in
/// flight: buffered transmitted bytes, plus one for an unacknowledged FIN.
pub open spec fn ack_acceptable(m: SocketModel, g: SegModel) -> bool {
    &&& has_flag(g.flags, FLAG_ACK)
    &&& seq_sub(g.ack, m.snd_base) <= m.tx_sent + (if fin_in_flight(m) {
        1int
    } else {
        0int
    })
}

/// How many buffered bytes the segment acknowledges.
pub open spec fn acked_data(m: SocketModel, g: SegModel) -> int {
    if seq_sub(g.ack, m.snd_base) <= m.tx_sent {
        seq_sub(g.ack, m.snd_base)
    } else {
        m.tx_sent as int
    }
}

/// Whether the segment acknowledges our FIN.
pub open spec fn ack_of_fin(m: SocketModel, g: SegModel) -> bool {
    fin_in_flight(m) && seq_sub(g.ack, m.snd_base) == m.tx_sent + 1
}

/// What an acceptable acknowledgment does: acknowledged bytes leave the
/// send buffer, and an acknowledged FIN advances the closing states.
pub open spec fn ack_step(m: SocketModel, g: SegModel, now: u64) -> SocketModel {
    if !ack_acceptable(m, g) {
        m
    } else {
        let da = acked_data(m, g);
        let fin_acked = ack_of_fin(m, g);
        SocketModel {
            state: if fin_acked {
                match m.state {
                    TcpState::FIN_WAIT_1 => TcpState::FIN_WAIT_2,
                    TcpState::CLOSING => TcpState::TIME_WAIT,
                    TcpState::LAST_ACK => TcpState::CLOSED,
                    x => x,
                }
            } else {
                m.state
            },
            snd_base: seq_add(m.snd_base, da),
            tx: m.tx.skip(da),
            tx_sent: (m.tx_sent - da) as nat,
            peer_window: g.window,
            last_peer_activity: now,
            probes_sent: 0,
            rto_at: if m.tx_sent - da == 0 && (!fin_in_flight(m) || fin_acked) {
                None
            } else {
                m.rto_at
            },
            time_wait_at: if fin_acked && m.state == TcpState::CLOSING {
                (now + TIME_WAIT_MILLIS) as u64
            } else {
                m.time_wait_at
            },
            ..m
        }
    }
}

/// What the segment's payload does: bytes arriving exactly in order are
/// appended to the receive buffer, as many as fit; anything else only
/// provokes a fresh acknowledgment.
pub open spec fn data_step(m: SocketModel, g: SegModel) -> SocketModel {
    if !may_recv_state(m.state) || g.payload.len() == 0 {
        m
    } else if g.seq == m.rcv_nxt {
        let acc = vstd::math::min(
            g.payload.len() as int,
            SOCKET_BUFFER_CAP - m.rx.len(),
        );
        SocketModel {
            rx: m.rx + g.payload.take(acc),
            rcv_nxt: seq_add(m.rcv_nxt, acc),
            need_ack: true,
            ..m
        }
    } else {
        SocketModel { need_ack: true, ..m }
    }
}

/// What the segment's FIN does, once the payload before it has been taken
/// in full: the peer's close advances the automaton and is acknowledged.
pub open spec fn fin_step(m: SocketModel, g: SegModel, now: u64) -> SocketModel {
    if !has_flag(g.flags, FLAG_FIN) {
        m
    } else if seq_add(g.seq, g.payload.len() as int) == m.rcv_nxt {
        SocketModel {
            state: match m.state {
                TcpState::ESTABLISHED => TcpState::CLOSE_WAIT,
                TcpState::FIN_WAIT_1 => TcpState::CLOSING,
                TcpState::FIN_WAIT_2 => TcpState::TIME_WAIT,
                x => x,
            },
            rcv_nxt: seq_add(m.rcv_nxt, 1),
            need_ack: true,
            time_wait_at: if m.state == TcpState::FIN_WAIT_2 {
                (now + TIME_WAIT_MILLIS) as u64
            } else {
                m.time_wait_at
            },
            ..m
        }
    } else {
        SocketModel { need_ack: true, ..m }
    }
}

/// What a segment does to a synchronized connection: acknowledgment, then
/// payload, then FIN.
pub open spec fn synced_step(m: SocketModel, g: SegModel, now: u64) -> SocketModel {
    fin_step(data_step(ack_step(m, g, now), g), g, now)
}

/// What an arriving segment does to a connection: the receive rows of the
/// TCP automaton.
pub open spec fn rcv_step(m: SocketModel, g: SegModel, now: u64) -> SocketModel {
    if m.state == TcpState::CLOSED {
        m
    } else if has_flag(g.flags, FLAG_RST) {
        if m.state == TcpState::LISTEN {
            m
        } else {
            rst_step(m)
        }
    } else {
        match m.state {
            TcpState::LISTEN => listen_step(m, g, now),
            TcpState::SYN_SENT => syn_sent_step(m, g, now),
            TcpState::SYN_RECEIVED => syn_received_step(m, g, now),
            _ => synced_step(m, g, now),
        }
    }
}

/// A copy of `v` without its first `k` bytes.
fn vec_drop_front(v: &Vec<u8>, k: usize) -> (r: Vec<u8>)
    requires
        k <= v@.len(),
    ensures
        r@ == v@.skip(k as int),
{
    let mut out: Vec<u8> = Vec::new();
    let mut i: usize = k;
    while i < v.len()
        invariant
            k <= i <= v@.len(),
            out@.len() == i - k,
            forall|j: int| 0 <= j < out@.len() ==> out@[j] == v@[k + j],
        decreases v@.len() - i,
    {
        out.push(v[i]);
        i = i + 1;
    }
    proof {
        assert(out@ =~= v@.skip(k as int));
    }
    out
}

/// Append the first `n` bytes of `src` to `dst`.
fn vec_append_prefix(dst: &mut Vec<u8>, src: &Vec<u8>, n: usize)
    requires
        n <= src@.len(),
        old(dst)@.len() + n <= usize::MAX,
    ensures
        final(dst)@ == old(dst)@ + src@.take(n as int),
{
    let mut i: usize = 0;
    while i < n
        invariant
            0 <= i <= n,
            n <= src@.len(),
            dst@ == old(dst)@ + src@.take(i as int),
        decreases n - i,
    {
        dst.push(src[i]);
        proof {
            assert(dst@ =~= old(dst)@ + src@.take(i + 1));
        }
        i = i + 1;
    }
}

/// Addition in sequence-number space.
fn wadd(a: u32, n: u32) -> (r: u32)
    ensures
        r == seq_add(a, n as int),
{
    let s: u64 = a as u64 + n as u64;
    if s <= 0xFFFF_FFFF {
        s as u32
    } else {
        (s - 0x1_0000_0000) as u32
    }
}

/// Distance in sequence-number space.
fn wsub(a: u32, b: u32) -> (r: u32)
    ensures
        r as int == seq_sub(a, b),
{
    if a >= b {
        a - b
    } else {
        ((a as u64 + 0x1_0000_0000) - b as u64) as u32
    }
}

impl TcpSocket {
    /// Whether our FIN is out and unacknowledged.
    fn fin_in_flight_now(&self) -> (r: bool)
        ensures
            r == fin_in_flight(self@),
    {
        self.fin_sent_once && match self.state {
            TcpState::FIN_WAIT_1 => true,
            TcpState::CLOSING => true,
            TcpState::LAST_ACK => true,
            _ => false,
        }
    }

    /// Apply the acknowledgment carried by `seg`.
    fn run_ack(&mut self, seg: &Segment, now: u64)
        requires
            old(self).wf(),
            now <= 0x1000_0000_0000_0000u64,
        ensures
            final(self).wf(),
            final(self)@ == ack_step(old(self)@, seg@, now),
    {
        if seg.flags & FLAG_ACK == 0 {
            return ;
        }
        let finflight = self.fin_in_flight_now();
        let delta = wsub(seg.ack, self.snd_base);
        let flight: u64 = self.tx_sent as u64 + if finflight {
            1u64
        } else {
            0u64
        };
        if delta as u64 > flight {
            return ;
        }
        let da: usize = if (delta as u64) <= self.tx_sent as u64 {
            delta as usize
        } else {
            self.tx_sent
        };
        let fin_acked = finflight && delta as u64 == self.tx_sent as u64 + 1;
        if fin_acked {
            match self.state {
                TcpState::FIN_WAIT_1 => {
                    self.state = TcpState::FIN_WAIT_2;
                },
                TcpState::CLOSING => {
                    self.state = TcpState::TIME_WAIT;
                    self.time_wait_at = now + TIME_WAIT_MILLIS;
                },
                TcpState::LAST_ACK => {
                    self.state = TcpState::CLOSED;
                },
                _ => {},
            }
        }
        if self.tx_sent - da == 0 && (!finflight || fin_acked) {
            self.rto_at = None;
        }
        self.snd_base = wadd(self.snd_base, da as u32);
        let nb = vec_drop_front(&self.tx_buf, da);
        self.tx_buf = nb;
        self.tx_sent = self.tx_sent - da;
        self.peer_window = seg.window;
        self.last_peer_activity = now;
        self.probes_sent = 0;
        proof {
            assert(final(self)@ =~= ack_step(old(self)@, seg@, now));
        }
    }

    /// Take the segment's payload into the receive buffer when it arrives
    /// exactly in order.
    fn run_data(&mut self, seg: &Segment)
        requires
            old(self).wf(),
            seg.payload@.len() <= 70000,
        ensures
            final(self).wf(),
            final(self)@ == data_step(old(self)@, seg@),
    {
        let recv_open = match self.state {
            TcpState::ESTABLISHED => true,
            TcpState::FIN_WAIT_1 => true,
            TcpState::FIN_WAIT_2 => true,
            _ => false,
        };
        if !recv_open || seg.payload.len() == 0 {
            return ;
        }
        if seg.seq == self.rcv_nxt {
            let room = SOCKET_BUFFER_CAP - self.rx_buf.len();
            let acc = if seg.payload.len() < room {
                seg.payload.len()
            } else {
                room
            };
            vec_append_prefix(&mut self.rx_buf, &seg.payload, acc);
            self.rcv_nxt = wadd(self.rcv_nxt, acc as u32);
            self.need_ack = true;
            proof {
                assert(final(self)@ =~= data_step(old(self)@, seg@));
            }
        } else {
            self.need_ack = true;
            proof {
                assert(final(self)@ =~= data_step(old(self)@, seg@));
            }
        }
    }

    /// Honour the segment's FIN once everything before it was taken.
    fn run_fin(&mut self, seg: &Segment, now: u64)
        requires
            old(self).wf(),
            seg.payload@.len() <= 70000,
            now <= 0x1000_0000_0000_0000u64,
        ensures
            final(self).wf(),
            final(self)@ == fin_step(old(self)@, seg@, now),
    {
        if seg.flags & FLAG_FIN == 0 {
            return ;
        }
        let fin_seq = wadd(seg.seq, seg.payload.len() as u32);
        if fin_seq == self.rcv_nxt {
            match self.state {
                TcpState::ESTABLISHED => {
                    self.state = TcpState::CLOSE_WAIT;
                },
                TcpState::FIN_WAIT_1 => {
                    self.state = TcpState::CLOSING;
                },
                TcpState::FIN_WAIT_2 => {
                    self.state = TcpState::TIME_WAIT;
                    self.time_wait_at = now + TIME_WAIT_MILLIS;
                },
                _ => {},
            }
            self.rcv_nxt = wadd(self.rcv_nxt, 1);
            self.need_ack = true;
            proof {
                assert(final(self)@ =~= fin_step(old(self)@, seg@, now));
            }
        } else {
            self.need_ack = true;
            proof {
                assert(final(self)@ =~= fin_step(old(self)@, seg@, now));
            }
        }
    }

    /// Apply one arriving segment to the connection. The engine has
    /// already matched the segment to this socket.
    pub fn process(&mut self, seg: &Segment, now: u64)
        requires
            old(self).wf(),
            seg.payload@.len() <= 70000,
            now <= 0x1000_0000_0000_0000u64,
        ensures
            final(self).wf(),
            final(self)@ == rcv_step(old(self)@, seg@, now),
    {
        match self.state {
            TcpState::CLOSED => {
                return ;
            },
            _ => {},
        }
        if seg.flags & FLAG_RST != 0 {
            match self.state {
                TcpState::LISTEN => {
                    return ;
                },
                _ => {},
            }
            self.state = TcpState::CLOSED;
            self.tx_buf = Vec::new();
            self.rx_buf = Vec::new();
            self.tx_sent = 0;
            self.need_ack = false;
            self.rto_at = None;
            proof {
                assert(final(self)@ =~= rst_step(old(self)@));
            }
            return ;
        }
        match self.state {
            TcpState::LISTEN => {
                if seg.flags & FLAG_SYN != 0 && seg.flags & FLAG_ACK == 0 {
                    self.state = TcpState::SYN_RECEIVED;
                    self.remote = Some(Endpoint { addr: seg.src_addr, port: seg.src_port });
                    self.rcv_nxt = wadd(seg.seq, 1);
                    self.snd_base = wadd(self.iss, 1);
                    self.peer_window = seg.window;
                    self.syn_sent_once = false;
                    self.last_peer_activity = now;
                    proof {
                        assert(final(self)@ =~= listen_step(old(self)@, seg@, now));
                    }
                }
            },
            TcpState::SYN_SENT => {
                if seg.flags & FLAG_SYN != 0 && seg.flags & FLAG_ACK != 0 && seg.ack == wadd(
                    self.iss,
                    1,
                ) {
                    self.state = TcpState::ESTABLISHED;
                    self.rcv_nxt = wadd(seg.seq, 1);
                    self.need_ack = true;
                    self.peer_window = seg.window;
                    self.rto_at = None;
                    self.last_peer_activity = now;
                    self.probes_sent = 0;
                    proof {
                        assert(final(self)@ =~= syn_sent_step(old(self)@, seg@, now));
                    }
                }
            },
            TcpState::SYN_RECEIVED => {
                if seg.flags & FLAG_ACK != 0 && seg.flags & FLAG_SYN == 0 && seg.ack
                    == self.snd_base {
                    self.state = TcpState::ESTABLISHED;
                    self.peer_window = seg.window;
                    self.rto_at = None;
                    self.last_peer_activity = now;
                    self.probes_sent = 0;
                    proof {
                        assert(final(self)@ =~= syn_received_step(old(self)@, seg@, now));
                    }
                }
            },
            _ => {
                self.run_ack(seg, now);
                self.run_data(seg);
                self.run_fin(seg, now);
            },
        }
    }
}

/// The next sequence number we would send: past the buffered bytes in
/// flight and past an outstanding FIN.
pub open spec fn snd_nxt(m: SocketModel) -> u32 {
    seq_add(
        m.snd_base,
        m.tx_sent + (if fin_in_flight(m) {
            1int
        } else {
            0int
        }),
    )
}

/// The receive window we advertise: the room left in the receive buffer.
pub open spec fn rx_window(m: SocketModel) -> u16 {
    (SOCKET_BUFFER_CAP - m.rx.len()) as u16
}

/// A segment from this connection to its peer.
pub open spec fn mk_seg(m: SocketModel, seq: u32, ack: u32, flags: u8, payload: Seq<u8>) -> SegModel
    recommends
        m.remote is Some,
{
    SegModel {
        src_addr: m.local_addr,
        dst_addr: (m.remote->Some_0).0,
        src_port: m.local_port,
        dst_port: (m.remote->Some_0).1,
        seq: seq,
        ack: ack,
        flags: flags,
        window: rx_window(m),
        payload: payload,
    }
}

/// Whether a data segment may go out: buffered bytes remain untransmitted
/// and the peer's window has room for them.
pub open spec fn data_due(m: SocketModel) -> bool {
    &&& is_synchronized(m.state)
    &&& m.tx_sent < m.tx.len()
    &&& m.tx_sent < m.peer_window
}

/// Whether the FIN of a close is due: the close rows were entered and
/// every buffered byte has been transmitted.
pub open spec fn fin_due(m: SocketModel) -> bool {
    &&& (m.state == TcpState::FIN_WAIT_1 || m.state == TcpState::CLOSING || m.state
        == TcpState::LAST_ACK)
    &&& !m.fin_sent_once
    &&& m.tx_sent == m.tx.len()
}

/// Whether the connection has a segment to emit right now.
pub open spec fn has_output(m: SocketModel) -> bool {
    ||| m.rst_pending
    ||| (m.state == TcpState::SYN_SENT && !m.syn_sent_once)
    ||| (m.state == TcpState::SYN_RECEIVED && !m.syn_sent_once)
    ||| data_due(m)
    ||| fin_due(m)
    ||| (m.need_ack && is_synchronized(m.state))
}

/// What one transmit opportunity does: the segment that goes out, if any,
/// and the bookkeeping it leaves behind. At most one segment per call, in
/// this order: reset, handshake, data, FIN, bare acknowledgment.
pub open spec fn out_step(m: SocketModel, now: u64, mss: int) -> (SocketModel, Option<SegModel>) {
    if m.rst_pending {
        (
            SocketModel { rst_pending: false, ..m },
            Some(mk_seg(m, snd_nxt(m), m.rcv_nxt, FLAG_RST | FLAG_ACK, Seq::empty())),
        )
    } else if m.state == TcpState::SYN_SENT && !m.syn_sent_once {
        (
            SocketModel { syn_sent_once: true, rto_at: Some((now + RETRANSMIT_MILLIS) as u64), ..m },
            Some(mk_seg(m, m.iss, 0, FLAG_SYN, Seq::empty())),
        )
    } else if m.state == TcpState::SYN_RECEIVED && !m.syn_sent_once {
        (
            SocketModel { syn_sent_once: true, rto_at: Some((now + RETRANSMIT_MILLIS) as u64), ..m },
            Some(mk_seg(m, m.iss, m.rcv_nxt, FLAG_SYN | FLAG_ACK, Seq::empty())),
        )
    } else if data_due(m) {
        let window_room = m.peer_window - m.tx_sent;
        let unsent = m.tx.len() - m.tx_sent;
        let chunk = vstd::math::min(vstd::math::min(unsent as int, window_room as int), mss);
        (
            SocketModel {
                tx_sent: (m.tx_sent + chunk) as nat,
                need_ack: false,
                rto_at: Some((now + RETRANSMIT_MILLIS) as u64),
                ..m
            },
            Some(
                mk_seg(
                    m,
                    seq_add(m.snd_base, m.tx_sent as int),
                    m.rcv_nxt,
                    FLAG_ACK | FLAG_PSH,
                    m.tx.subrange(m.tx_sent as int, m.tx_sent + chunk),
                ),
            ),
        )
    } else if fin_due(m) {
        (
            SocketModel {
                fin_sent_once: true,
                need_ack: false,
                rto_at: Some((now + RETRANSMIT_MILLIS) as u64),
                ..m
            },
            Some(
                mk_seg(
                    m,
                    seq_add(m.snd_base, m.tx.len() as int),
                    m.rcv_nxt,
                    FLAG_FIN | FLAG_ACK,
                    Seq::empty(),
                ),
            ),
        )
    } else if m.need_ack && is_synchronized(m.state) {
        (
            SocketModel { need_ack: false, ..m },
            Some(mk_seg(m, snd_nxt(m), m.rcv_nxt, FLAG_ACK, Seq::empty())),
        )
    } else {
        (m, None)
    }
}

/// What the passage of time does: `TIME_WAIT` expires to `CLOSED`, a
/// missed acknowledgment rewinds the transmitted-but-unacknowledged
/// bookkeeping so everything goes out again, and an idle keep-alive
/// interval provokes a probe — or a reset once too many went unanswered.
pub open spec fn time_step(m: SocketModel, now: u64) -> SocketModel {
    if m.state == TcpState::TIME_WAIT && now >= m.time_wait_at {
        SocketModel {
            state: TcpState::CLOSED,
            tx: Seq::empty(),
            rx: Seq::empty(),
            tx_sent: 0,
            need_ack: false,
            rto_at: None,
            ..m
        }
    } else if m.rto_at matches Some(t) && now >= t {
        SocketModel {
            tx_sent: 0,
            syn_sent_once: if m.state == TcpState::SYN_SENT || m.state == TcpState::SYN_RECEIVED {
                false
            } else {
                m.syn_sent_once
            },
            fin_sent_once: if m.state == TcpState::FIN_WAIT_1 || m.state == TcpState::CLOSING
                || m.state == TcpState::LAST_ACK {
                false
            } else {
                m.fin_sent_once
            },
            rto_at: None,
            ..m
        }
    } else if m.keep_alive matches Some(ka) && is_synchronized(m.state) && now
        >= m.last_peer_activity + ka {
        if m.probes_sent >= KEEP_ALIVE_MAX_PROBES {
            SocketModel {
                state: TcpState::CLOSED,
                tx: Seq::empty(),
                rx: Seq::empty(),
                tx_sent: 0,
                need_ack: false,
                rto_at: None,
                rst_pending: true,
                ..m
            }
        } else {
            SocketModel {
                need_ack: true,
                probes_sent: (m.probes_sent + 1) as u8,
                last_peer_activity: now,
                ..m
            }
        }
    } else {
        m
    }
}

/// Smaller of two optional deadlines.
pub open spec fn opt_min(a: Option<u64>, b: Option<u64>) -> Option<u64> {
    match (a, b) {
        (Some(x), Some(y)) => if x <= y {
            Some(x)
        } else {
            Some(y)
        },
        (Some(x), None) => Some(x),
        (None, Some(y)) => Some(y),
        (None, None) => None,
    }
}

/// Milliseconds until this connection next needs attention: zero when a
/// segment is ready, otherwise the nearest of the retransmission,
/// `TIME_WAIT` and keep-alive deadlines.
pub open spec fn delay_of(m: SocketModel, now: u64) -> Option<u64> {
    if has_output(m) {
        Some(0u64)
    } else {
        let rto = match m.rto_at {
            Some(t) => Some(if now >= t {
                0u64
            } else {
                (t - now) as u64
            }),
            None => None,
        };
        let tw = if m.state == TcpState::TIME_WAIT {
            Some(
                if now >= m.time_wait_at {
                    0u64
                } else {
                    (m.time_wait_at - now) as u64
                },
            )
        } else {
            None
        };
        let ka = match m.keep_alive {
            Some(k) => if is_synchronized(m.state) {
                Some(
                    if now >= m.last_peer_activity + k {
                        0u64
                    } else {
                        (m.last_peer_activity + k - now) as u64
                    },
                )
            } else {
                None
            },
            None => None,
        };
        opt_min(rto, opt_min(tw, ka))
    }
}

/// Smaller of two optional deadlines.
pub fn opt_min_run(a: Option<u64>, b: Option<u64>) -> (r: Option<u64>)
    ensures
        r == opt_min(a, b),
{
    match (a, b) {
        (Some(x), Some(y)) => if x <= y {
            Some(x)
        } else {
            Some(y)
        },
        (Some(x), None) => Some(x),
        (None, Some(y)) => Some(y),
        (None, None) => None,
    }
}

/// A copy of `v[from..to]`.
fn vec_slice(v: &Vec<u8>, from: usize, to: usize) -> (r: Vec<u8>)
    requires
        from <= to <= v@.len(),
    ensures
        r@ == v@.subrange(from as int, to as int),
{
    let mut out: Vec<u8> = Vec::new();
    let mut i: usize = from;
    while i < to
        invariant
            from <= i <= to,
            to <= v@.len(),
            out@.len() == i - from,
            forall|j: int| 0 <= j < out@.len() ==> out@[j] == v@[from + j],
        decreases to - i,
    {
        out.push(v[i]);
        i = i + 1;
    }
    proof {
        assert(out@ =~= v@.subrange(from as int, to as int));
    }
    out
}

impl TcpSocket {
    /// A fresh active connection: `SYN_SENT`, its SYN not yet emitted.
    pub fn new_connect(
        local_addr: Ipv6Addr,
        local_port: u16,
        remote: Endpoint,
        iss: u32,
    ) -> (r: TcpSocket)
        ensures
            r.wf(),
            r@.state == TcpState::SYN_SENT,
            r@.local_addr == local_addr.b@,
            r@.local_port == local_port,
            r@.remote == Some((remote.addr.b@, remote.port)),
            r@.iss == iss,
            r@.snd_base == seq_add(iss, 1),
            r@.tx.len() == 0,
            r@.rx.len() == 0,
            r@.syn_sent_once == false,
            r@.keep_alive is None,
            !r@.rst_pending,
            !r@.need_ack,
    {
        TcpSocket {
            state: TcpState::SYN_SENT,
            local_addr,
            local_port,
            remote: Some(remote),
            iss,
            snd_base: wadd(iss, 1),
            tx_sent: 0,
            rcv_nxt: 0,
            peer_window: 0,
            tx_buf: Vec::new(),
            rx_buf: Vec::new(),
            syn_sent_once: false,
            fin_sent_once: false,
            need_ack: false,
            rst_pending: false,
            rto_at: None,
            time_wait_at: 0,
            keep_alive: None,
            last_peer_activity: 0,
            probes_sent: 0,
        }
    }

    /// A fresh passive connection: `LISTEN` on a local port, remote
    /// endpoint unknown until a SYN arrives.
    pub fn new_listen(local_addr: Ipv6Addr, local_port: u16, iss: u32) -> (r: TcpSocket)
        ensures
            r.wf(),
            r@.state == TcpState::LISTEN,
            r@.local_addr == local_addr.b@,
            r@.local_port == local_port,
            r@.remote is None,
            r@.iss == iss,
            r@.tx.len() == 0,
            r@.rx.len() == 0,
            r@.keep_alive is None,
            !r@.rst_pending,
            !r@.need_ack,
    {
        TcpSocket {
            state: TcpState::LISTEN,
            local_addr,
            local_port,
            remote: None,
            iss,
            snd_base: 0,
            tx_sent: 0,
            rcv_nxt: 0,
            peer_window: 0,
            tx_buf: Vec::new(),
            rx_buf: Vec::new(),
            syn_sent_once: false,
            fin_sent_once: false,
            need_ack: false,
            rst_pending: false,
            rto_at: None,
            time_wait_at: 0,
            keep_alive: None,
            last_peer_activity: 0,
            probes_sent: 0,
        }
    }

    /// Let time pass: expire `TIME_WAIT`, rewind for retransmission, and
    /// run the keep-alive clock.
    pub fn on_time(&mut self, now: u64)
        requires
            old(self).wf(),
            now <= 0x1000_0000_0000_0000u64,
        ensures
            final(self).wf(),
            final(self)@ == time_step(old(self)@, now),
    {
        if self.is_time_wait() && now >= self.time_wait_at {
            self.state = TcpState::CLOSED;
            self.tx_buf = Vec::new();
            self.rx_buf = Vec::new();
            self.tx_sent = 0;
            self.need_ack = false;
            self.rto_at = None;
            proof {
                assert(final(self)@ =~= time_step(old(self)@, now));
            }
            return ;
        }
        let rto_hit = match self.rto_at {
            Some(t) => now >= t,
            None => false,
        };
        if rto_hit {
            self.tx_sent = 0;
            match self.state {
                TcpState::SYN_SENT | TcpState::SYN_RECEIVED => {
                    self.syn_sent_once = false;
                },
                _ => {},
            }
            match self.state {
                TcpState::FIN_WAIT_1 | TcpState::CLOSING | TcpState::LAST_ACK => {
                    self.fin_sent_once = false;
                },
                _ => {},
            }
            self.rto_at = None;
            proof {
                assert(final(self)@ =~= time_step(old(self)@, now));
            }
            return ;
        }
        let ka_hit = match self.keep_alive {
            Some(k) => self.is_synchronized_now() && now >= self.last_peer_activity + k,
            None => false,
        };
        if ka_hit {
            if self.probes_sent >= KEEP_ALIVE_MAX_PROBES {
                self.state = TcpState::CLOSED;
                self.tx_buf = Vec::new();
                self.rx_buf = Vec::new();
                self.tx_sent = 0;
                self.need_ack = false;
                self.rto_at = None;
                self.rst_pending = true;
            } else {
                self.need_ack = true;
                self.probes_sent = self.probes_sent + 1;
                self.last_peer_activity = now;
            }
        }
        proof {
            assert(final(self)@ =~= time_step(old(self)@, now));
        }
    }

    /// Whether the state is `TIME_WAIT`.
    fn is_time_wait(&self) -> (r: bool)
        ensures
            r == (self@.state == TcpState::TIME_WAIT),
    {
        match self.state {
            TcpState::TIME_WAIT => true,
            _ => false,
        }
    }

    /// Whether the handshake has completed.
    fn is_synchronized_now(&self) -> (r: bool)
        ensures
            r == is_synchronized(self@.state),
    {
        match self.state {
            TcpState::ESTABLISHED => true,
            TcpState::FIN_WAIT_1 => true,
            TcpState::FIN_WAIT_2 => true,
            TcpState::CLOSE_WAIT => true,
            TcpState::CLOSING => true,
            TcpState::LAST_ACK => true,
            TcpState::TIME_WAIT => true,
            _ => false,
        }
    }

    /// The segment this connection wants to emit now, if any, with the
    /// bookkeeping the emission leaves behind. `mss` bounds the payload.
    pub fn build_output(&mut self, now: u64, mss: usize) -> (r: Option<Segment>)
        requires
            old(self).wf(),
            1 <= mss <= 65515,
            now <= 0x1000_0000_0000_0000u64,
        ensures
            final(self).wf(),
            final(self)@ == out_step(old(self)@, now, mss as int).0,
            match r {
                Some(s) => out_step(old(self)@, now, mss as int).1 == Some(s@) && s.payload@.len()
                    <= mss,
                None => out_step(old(self)@, now, mss as int).1 is None,
            },
    {
        let win = (SOCKET_BUFFER_CAP - self.rx_buf.len()) as u16;
        if self.rst_pending {
            let fin_extra: u32 = if self.fin_in_flight_now() {
                1
            } else {
                0
            };
            let seq = wadd(wadd(self.snd_base, self.tx_sent as u32), fin_extra);
            let remote = match self.remote {
                Some(e) => e,
                None => {
                    proof {
                        assert(false);
                    }
                    unreached()
                },
            };
            self.rst_pending = false;
            let seg = Segment {
                src_addr: self.local_addr,
                dst_addr: remote.addr,
                src_port: self.local_port,
                dst_port: remote.port,
                seq,
                ack: self.rcv_nxt,
                flags: FLAG_RST | FLAG_ACK,
                window: win,
                payload: Vec::new(),
            };
            proof {
                assert(final(self)@ =~= out_step(old(self)@, now, mss as int).0);
                assert(seg@ =~= out_step(old(self)@, now, mss as int).1->Some_0);
            }
            return Some(seg);
        }
        let syn_due = match self.state {
            TcpState::SYN_SENT => !self.syn_sent_once,
            TcpState::SYN_RECEIVED => !self.syn_sent_once,
            _ => false,
        };
        if syn_due {
            let remote = match self.remote {
                Some(e) => e,
                None => {
                    proof {
                        assert(false);
                    }
                    unreached()
                },
            };
            let is_synack = match self.state {
                TcpState::SYN_RECEIVED => true,
                _ => false,
            };
            self.syn_sent_once = true;
            self.rto_at = Some(now + RETRANSMIT_MILLIS);
            let seg = Segment {
                src_addr: self.local_addr,
                dst_addr: remote.addr,
                src_port: self.local_port,
                dst_port: remote.port,
                seq: self.iss,
                ack: if is_synack {
                    self.rcv_nxt
                } else {
                    0
                },
                flags: if is_synack {
                    FLAG_SYN | FLAG_ACK
                } else {
                    FLAG_SYN
                },
                window: win,
                payload: Vec::new(),
            };
            proof {
                assert(final(self)@ =~= out_step(old(self)@, now, mss as int).0);
                assert(seg@ =~= out_step(old(self)@, now, mss as int).1->Some_0);
            }
            return Some(seg);
        }
        let synced = self.is_synchronized_now();
        if synced && self.tx_sent < self.tx_buf.len() && (self.tx_sent as u64) < (
        self.peer_window as u64) {
            let remote = match self.remote {
                Some(e) => e,
                None => {
                    proof {
                        assert(false);
                    }
                    unreached()
                },
            };
            let unsent = self.tx_buf.len() - self.tx_sent;
            let window_room = self.peer_window as usize - self.tx_sent;
            let mut chunk = unsent;
            if window_room < chunk {
                chunk = window_room;
            }
            if mss < chunk {
                chunk = mss;
            }
            let payload = vec_slice(&self.tx_buf, self.tx_sent, self.tx_sent + chunk);
            let seq = wadd(self.snd_base, self.tx_sent as u32);
            self.tx_sent = self.tx_sent + chunk;
            self.need_ack = false;
            self.rto_at = Some(now + RETRANSMIT_MILLIS);
            let seg = Segment {
                src_addr: self.local_addr,
                dst_addr: remote.addr,
                src_port: self.local_port,
                dst_port: remote.port,
                seq,
                ack: self.rcv_nxt,
                flags: FLAG_ACK | FLAG_PSH,
                window: win,
                payload,
            };
            proof {
                assert(final(self)@ =~= out_step(old(self)@, now, mss as int).0);
                assert(seg@ =~= out_step(old(self)@, now, mss as int).1->Some_0);
            }
            return Some(seg);
        }
        let findue = match self.state {
            TcpState::FIN_WAIT_1 | TcpState::CLOSING | TcpState::LAST_ACK => !self.fin_sent_once
                && self.tx_sent == self.tx_buf.len(),
            _ => false,
        };
        if findue {
            let remote = match self.remote {
                Some(e) => e,
                None => {
                    proof {
                        assert(false);
                    }
                    unreached()
                },
            };
            let seq = wadd(self.snd_base, self.tx_buf.len() as u32);
            self.fin_sent_once = true;
            self.need_ack = false;
            self.rto_at = Some(now + RETRANSMIT_MILLIS);
            let seg = Segment {
                src_addr: self.local_addr,
                dst_addr: remote.addr,
                src_port: self.local_port,
                dst_port: remote.port,
                seq,
                ack: self.rcv_nxt,
                flags: FLAG_FIN | FLAG_ACK,
                window: win,
                payload: Vec::new(),
            };
            proof {
                assert(final(self)@ =~= out_step(old(self)@, now, mss as int).0);
                assert(seg@ =~= out_step(old(self)@, now, mss as int).1->Some_0);
            }
            return Some(seg);
        }
        if self.need_ack && synced {
            let remote = match self.remote {
                Some(e) => e,
                None => {
                    proof {
                        assert(false);
                    }
                    unreached()
                },
            };
            let fin_extra: u32 = if self.fin_in_flight_now() {
                1
            } else {
                0
            };
            let seq = wadd(wadd(self.snd_base, self.tx_sent as u32), fin_extra);
            self.need_ack = false;
            let seg = Segment {
                src_addr: self.local_addr,
                dst_addr: remote.addr,
                src_port: self.local_port,
                dst_port: remote.port,
                seq,
                ack: self.rcv_nxt,
                flags: FLAG_ACK,
                window: win,
                payload: Vec::new(),
            };
            proof {
                assert(final(self)@ =~= out_step(old(self)@, now, mss as int).0);
                assert(seg@ =~= out_step(old(self)@, now, mss as int).1->Some_0);
            }
            return Some(seg);
        }
        None
    }

    /// Whether this connection has a segment ready to emit.
    pub fn has_output_now(&self) -> (r: bool)
        ensures
            r == has_output(self@),
    {
        self.rst_pending || (match self.state {
            TcpState::SYN_SENT => !self.syn_sent_once,
            TcpState::SYN_RECEIVED => !self.syn_sent_once,
            _ => false,
        }) || (self.is_synchronized_now() && self.tx_sent < self.tx_buf.len() && (
        self.tx_sent as u64) < (self.peer_window as u64)) || (match self.state {
            TcpState::FIN_WAIT_1 | TcpState::CLOSING | TcpState::LAST_ACK => !self.fin_sent_once
                && self.tx_sent == self.tx_buf.len(),
            _ => false,
        }) || (self.need_ack && self.is_synchronized_now())
    }

    /// Milliseconds until this connection next needs attention.
    pub fn poll_delay_socket(&self, now: u64) -> (r: Option<u64>)
        requires
            self.wf(),
        ensures
            r == delay_of(self@, now),
    {
        let has_out = self.rst_pending || (match self.state {
            TcpState::SYN_SENT => !self.syn_sent_once,
            TcpState::SYN_RECEIVED => !self.syn_sent_once,
            _ => false,
        }) || (self.is_synchronized_now() && self.tx_sent < self.tx_buf.len() && (
        self.tx_sent as u64) < (self.peer_window as u64)) || (match self.state {
            TcpState::FIN_WAIT_1 | TcpState::CLOSING | TcpState::LAST_ACK => !self.fin_sent_once
                && self.tx_sent == self.tx_buf.len(),
            _ => false,
        }) || (self.need_ack && self.is_synchronized_now());
        if has_out {
            return Some(0);
        }
        let rto = match self.rto_at {
            Some(t) => Some(
                if now >= t {
                    0u64
                } else {
                    t - now
                },
            ),
            None => None,
        };
        let tw = if self.is_time_wait() {
            Some(
                if now >= self.time_wait_at {
                    0u64
                } else {
                    self.time_wait_at - now
                },
            )
        } else {
            None
        };
        let ka = match self.keep_alive {
            Some(k) => if self.is_synchronized_now() {
                let deadline = self.last_peer_activity + k;
                Some(
                    if now >= deadline {
                        0u64
                    } else {
                        deadline - now
                    },
                )
            } else {
                None
            },
            None => None,
        };
        opt_min_run(rto, opt_min_run(tw, ka))
    }
}

} // verus!
