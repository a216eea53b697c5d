//! Laws of the connection automaton, proved once over the models that the
//! operation contracts speak of.

use vstd::prelude::*;

use crate::socket::{
    ack_step, close_step, data_due, data_step, fin_step, has_flag, inv, out_step, rcv_step,
    seq_add, seq_sub, time_step, SegModel, SocketModel, TcpState, SOCKET_BUFFER_CAP,
    TIME_WAIT_MILLIS,
};
use crate::packet::{FLAG_ACK, FLAG_FIN, FLAG_PSH, FLAG_RST};

verus! {

/// Walking the distance `n` forward from `a` and measuring it back gives
/// `n` again: sequence-number arithmetic round-trips.
pub proof fn lemma_seq_sub_add(a: u32, n: int)
    requires
        0 <= n <= 0xFFFF_FFFF,
    ensures
        seq_sub(seq_add(a, n), a) == n,
{
    if a + n <= 0xFFFF_FFFF {
        assert(seq_add(a, n) == (a + n) as u32);
    } else {
        assert(seq_add(a, n) == (a + n - 0x1_0000_0000) as u32);
        assert(a + n - 0x1_0000_0000 < a);
    }
}

/// Closing a connection twice changes nothing beyond the first close:
/// `close` is idempotent on the model.
pub proof fn lemma_close_idempotent(m: SocketModel)
    ensures
        close_step(close_step(m)) == close_step(m),
{
    assert(close_step(close_step(m)) =~= close_step(m));
}

/// From `ESTABLISHED`, with the send buffer drained, a connection that
/// calls `close`, emits its FIN, sees that FIN acknowledged and then
/// drains the peer's FIN walks `FIN_WAIT_1`, `FIN_WAIT_2` and `TIME_WAIT`,
/// and reaches `CLOSED` on its own once the quiescence interval passes.
pub proof fn lemma_graceful_close_reaches_closed(
    m: SocketModel,
    ga: SegModel,
    gf: SegModel,
    t_send: u64,
    t_ack: u64,
    t_fin: u64,
    t_end: u64,
    mss: int,
)
    requires
        inv(m),
        m.state == TcpState::ESTABLISHED,
        m.tx.len() == 0,
        m.tx_sent == 0,
        !m.rst_pending,
        mss >= 1,
        t_send <= 0x1000_0000_0000_0000u64,
        t_fin <= 0x1000_0000_0000_0000u64,
        // The peer's acknowledgment of our FIN: an ACK of the sequence
        // number one past the drained stream, no reset, no SYN, no FIN,
        // and no payload.
        has_flag(ga.flags, FLAG_ACK),
        !has_flag(ga.flags, FLAG_RST),
        !has_flag(ga.flags, FLAG_FIN),
        ga.ack == seq_add(m.snd_base, 1),
        ga.payload.len() == 0,
        // The peer's own FIN: in sequence, no reset, carrying no payload.
        has_flag(gf.flags, FLAG_FIN),
        !has_flag(gf.flags, FLAG_RST),
        has_flag(gf.flags, FLAG_ACK),
        gf.ack == seq_add(m.snd_base, 1),
        gf.seq == m.rcv_nxt,
        gf.payload.len() == 0,
        t_end >= t_fin + TIME_WAIT_MILLIS,
    ensures
        ({
            let m1 = close_step(m);
            let m2 = out_step(m1, t_send, mss).0;
            let fin_seg = out_step(m1, t_send, mss).1;
            let m3 = rcv_step(m2, ga, t_ack);
            let m4 = rcv_step(m3, gf, t_fin);
            let m5 = time_step(m4, t_end);
            &&& m1.state == TcpState::FIN_WAIT_1
            &&& (fin_seg matches Some(g) && has_flag(g.flags, FLAG_FIN))
            &&& m3.state == TcpState::FIN_WAIT_2
            &&& m4.state == TcpState::TIME_WAIT
            &&& m5.state == TcpState::CLOSED
        }),
{
    let m1 = close_step(m);
    assert(m1.state == TcpState::FIN_WAIT_1);
    let m2 = out_step(m1, t_send, mss).0;
    assert(!data_due(m1));
    assert(m2.fin_sent_once);
    let fin_seg = out_step(m1, t_send, mss).1;
    assert(fin_seg is Some);
    let f2: u8 = (fin_seg->Some_0).flags;
    assert(f2 == (FLAG_FIN | FLAG_ACK));
    assert(f2 & 1u8 != 0) by (bit_vector)
        requires
            f2 == (1u8 | 16u8),
    ;
    assert(has_flag(f2, FLAG_FIN));
    let m3 = rcv_step(m2, ga, t_ack);
    assert(seq_sub(ga.ack, m2.snd_base) == 1) by {
        lemma_seq_sub_add(m.snd_base, 1);
    }
    assert(m3.state == TcpState::FIN_WAIT_2);
    let m4 = rcv_step(m3, gf, t_fin);
    assert(seq_sub(gf.ack, m3.snd_base) == 1) by {
        lemma_seq_sub_add(m.snd_base, 1);
    }
    assert(m4.state == TcpState::TIME_WAIT);
    assert(m4.time_wait_at == t_fin + TIME_WAIT_MILLIS);
    let m5 = time_step(m4, t_end);
    assert(m5.state == TcpState::CLOSED);
}

/// One lossless exchange preserves byte order: the data segment a sender
/// emits, delivered in sequence to an `ESTABLISHED` peer with room,
/// appends to the peer's receive buffer exactly the sender's next
/// untransmitted bytes, in order.
pub proof fn lemma_data_round_trip_step(
    a: SocketModel,
    b: SocketModel,
    t_out: u64,
    t_in: u64,
    mss: int,
)
    requires
        inv(a),
        inv(b),
        !a.rst_pending,
        data_due(a),
        mss >= 1,
        b.state == TcpState::ESTABLISHED,
        ({
            let g = out_step(a, t_out, mss).1->Some_0;
            let chunk = g.payload.len();
            &&& g.seq == b.rcv_nxt
            &&& seq_sub(g.ack, b.snd_base) <= b.tx_sent
            &&& b.rx.len() + chunk <= SOCKET_BUFFER_CAP
        }),
    ensures
        ({
            let g = out_step(a, t_out, mss).1->Some_0;
            let chunk = g.payload.len() as int;
            let b2 = rcv_step(b, g, t_in);
            &&& g.payload == a.tx.subrange(a.tx_sent as int, a.tx_sent + chunk)
            &&& chunk > 0
            &&& b2.state == TcpState::ESTABLISHED
            &&& b2.rx == b.rx + a.tx.subrange(a.tx_sent as int, a.tx_sent + chunk)
            &&& b2.rcv_nxt == seq_add(b.rcv_nxt, chunk)
        }),
{
    let g = out_step(a, t_out, mss).1->Some_0;
    let chunk = g.payload.len() as int;
    let f: u8 = g.flags;
    assert(f == (FLAG_ACK | FLAG_PSH));
    assert(f & 4u8 == 0 && f & 1u8 == 0 && f & 16u8 != 0) by (bit_vector)
        requires
            f == (16u8 | 8u8),
    ;
    assert(!has_flag(f, FLAG_RST));
    assert(!has_flag(f, FLAG_FIN));
    assert(has_flag(f, FLAG_ACK));
    let bm = ack_step(b, g, t_in);
    assert(bm.state == b.state && bm.rx == b.rx && bm.rcv_nxt == b.rcv_nxt);
    let bd = data_step(bm, g);
    assert(chunk > 0);
    assert(bd.rx =~= b.rx + g.payload) by {
        assert(g.payload.take(chunk) =~= g.payload);
    }
    let b2 = fin_step(bd, g, t_in);
    assert(b2.rx == bd.rx);
    assert(rcv_step(b, g, t_in) == b2);
}

} // verus!