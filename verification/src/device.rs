//! The software network adapter.
//!
//! A `VirtualNIC` holds a queue of inbound packets filled by the caller and
//! a queue of outbound packets filled by the protocol engine, each packet no
//! longer than the adapter's maximum transmission unit. The adapter knows
//! nothing of the protocol.

use vstd::prelude::*;

verus! {

/// Error returned when a packet handed to the device does not fit.
#[derive(Clone, Copy, PartialEq, Eq, Structural, Debug)]
pub enum DeviceError {
    /// The packet is longer than the maximum transmission unit.
    Oversize,
}

/// A software network adapter with bounded inbound and outbound queues.
pub struct VirtualNIC {
    /// Maximum transmission unit: no queued packet is longer than this.
    pub mtu: usize,
    /// Inbound packets, oldest first, filled by the caller.
    pub rx: Vec<Vec<u8>>,
    /// Outbound packets, oldest first, filled by the protocol engine.
    pub tx: Vec<Vec<u8>>,
}

/// A capability to read one inbound packet, handed to the protocol engine
/// for exactly one packet exchange.
pub struct RxToken {
    /// The packet taken off the inbound queue.
    pub bytes: Vec<u8>,
}

impl RxToken {
    /// Hand the packet bytes to the engine.
    pub fn consume(self) -> (r: Vec<u8>)
        ensures
            r@ == self.bytes@,
    {
        self.bytes
    }
}

/// A capability to write one outbound packet: a buffer allocated at the
/// exact length of the packet to be sent, filled by the engine and then
/// committed to the device.
pub struct TxToken {
    /// The outbound packet under construction.
    pub buf: Vec<u8>,
}

impl TxToken {
    /// A zero-initialized buffer of the requested length.
    pub fn new(len: usize) -> (t: TxToken)
        ensures
            t.buf@.len() == len,
            forall|i: int| 0 <= i < len ==> t.buf@[i] == 0u8,
    {
        let mut buf: Vec<u8> = Vec::new();
        let mut i: usize = 0;
        while i < len
            invariant
                0 <= i <= len,
                buf@.len() == i,
                forall|k: int| 0 <= k < i ==> buf@[k] == 0u8,
            decreases len - i,
        {
            buf.push(0u8);
            i = i + 1;
        }
        TxToken { buf }
    }
}

impl VirtualNIC {
    /// Every queued packet respects the maximum transmission unit.
    pub open spec fn wf(&self) -> bool {
        &&& forall|i: int| 0 <= i < self.rx@.len() ==> (#[trigger] self.rx@[i])@.len() <= self.mtu
        &&& forall|i: int| 0 <= i < self.tx@.len() ==> (#[trigger] self.tx@[i])@.len() <= self.mtu
    }

    /// A fresh adapter with empty queues.
    pub fn new(mtu: usize) -> (r: VirtualNIC)
        ensures
            r.mtu == mtu,
            r.rx@.len() == 0,
            r.tx@.len() == 0,
            r.wf(),
    {
        VirtualNIC { mtu, rx: Vec::new(), tx: Vec::new() }
    }

    /// The adapter's capabilities: its maximum transmission unit.
    pub fn capabilities(&self) -> (r: usize)
        ensures
            r == self.mtu,
    {
        self.mtu
    }

    /// Queue one raw inbound packet for the engine; a packet longer than
    /// the maximum transmission unit is rejected unchanged.
    pub fn extend_rx_buffer(&mut self, pkt: Vec<u8>) -> (r: Result<(), DeviceError>)
        requires
            old(self).wf(),
        ensures
            final(self).wf(),
            final(self).mtu == old(self).mtu,
            final(self).tx@ == old(self).tx@,
            pkt@.len() <= old(self).mtu ==> r is Ok && final(self).rx@ == old(self).rx@.push(pkt),
            pkt@.len() > old(self).mtu ==> r is Err && final(self).rx@ == old(self).rx@,
    {
        if pkt.len() > self.mtu {
            return Err(DeviceError::Oversize);
        }
        self.rx.push(pkt);
        Ok(())
    }

    /// Whether an outbound packet is waiting to be drained.
    pub fn can_consume_tx_buffer(&self) -> (r: bool)
        ensures
            r == (self.tx@.len() > 0),
    {
        self.tx.len() > 0
    }

    /// Atomically return and clear the outbound queue's whole content:
    /// every queued packet, oldest first.
    pub fn consume_tx_buffer(&mut self) -> (r: Vec<Vec<u8>>)
        requires
            old(self).wf(),
        ensures
            final(self).wf(),
            final(self).mtu == old(self).mtu,
            final(self).rx@ == old(self).rx@,
            r@ == old(self).tx@,
            final(self).tx@.len() == 0,
    {
        let mut out: Vec<Vec<u8>> = Vec::new();
        std::mem::swap(&mut out, &mut self.tx);
        out
    }

    /// Take only the oldest outbound packet off the queue, if any.
    pub fn take_tx_packet(&mut self) -> (r: Option<Vec<u8>>)
        requires
            old(self).wf(),
        ensures
            final(self).wf(),
            final(self).mtu == old(self).mtu,
            final(self).rx@ == old(self).rx@,
            old(self).tx@.len() > 0 ==> (r matches Some(p) && p == old(self).tx@[0]
                && final(self).tx@ == old(self).tx@.skip(1)),
            old(self).tx@.len() == 0 ==> r is None && final(self).tx@ == old(self).tx@,
    {
        if self.tx.len() == 0 {
            return None;
        }
        let p = self.tx.remove(0);
        proof {
            assert(final(self).tx@ =~= old(self).tx@.skip(1));
        }
        Some(p)
    }

    /// Take the oldest inbound packet as a receive token, if any. Used by
    /// the protocol engine during a poll cycle.
    pub fn receive(&mut self) -> (r: Option<RxToken>)
        requires
            old(self).wf(),
        ensures
            final(self).wf(),
            final(self).mtu == old(self).mtu,
            final(self).tx@ == old(self).tx@,
            old(self).rx@.len() > 0 ==> (r matches Some(t) && t.bytes == old(self).rx@[0]
                && final(self).rx@ == old(self).rx@.skip(1)),
            old(self).rx@.len() == 0 ==> r is None && final(self).rx@ == old(self).rx@,
    {
        if self.rx.len() == 0 {
            return None;
        }
        let p = self.rx.remove(0);
        proof {
            assert(final(self).rx@ =~= old(self).rx@.skip(1));
        }
        Some(RxToken { bytes: p })
    }

    /// Commit a filled transmit token to the outbound queue. Used by the
    /// protocol engine; the engine never builds a packet over the maximum
    /// transmission unit.
    pub fn transmit(&mut self, t: TxToken) -> (r: Result<(), DeviceError>)
        requires
            old(self).wf(),
        ensures
            final(self).wf(),
            final(self).mtu == old(self).mtu,
            final(self).rx@ == old(self).rx@,
            t.buf@.len() <= old(self).mtu ==> r is Ok && final(self).tx@ == old(self).tx@.push(
                t.buf,
            ),
            t.buf@.len() > old(self).mtu ==> r is Err && final(self).tx@ == old(self).tx@,
    {
        if t.buf.len() > self.mtu {
            return Err(DeviceError::Oversize);
        }
        self.tx.push(t.buf);
        Ok(())
    }
}

} // verus!
