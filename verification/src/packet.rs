//! The wire format: a TCP segment carried in a plain IPv6 packet.
//!
//! A packet is a 40-byte IPv6 header (no extension headers, next header
//! TCP) followed by a TCP header and the payload. Parsing and emission are
//! specified byte by byte; the checksum is the standard one's-complement
//! sum over the pseudo-header and the TCP segment.

use vstd::prelude::*;

use crate::addr::Ipv6Addr;

verus! {

/// Length of the fixed IPv6 header.
pub const IPV6_HEADER_LEN: usize = 40;

/// Length of a TCP header without options.
pub const TCP_HEADER_LEN: usize = 20;

/// Length of both headers as this stack emits them.
pub const HEADERS_LEN: usize = 60;

/// FIN flag bit.
pub const FLAG_FIN: u8 = 1;

/// SYN flag bit.
pub const FLAG_SYN: u8 = 2;

/// RST flag bit.
pub const FLAG_RST: u8 = 4;

/// PSH flag bit.
pub const FLAG_PSH: u8 = 8;

/// ACK flag bit.
pub const FLAG_ACK: u8 = 16;

/// A parsed TCP segment together with the addresses that carried it.
pub struct Segment {
    /// Source address of the IPv6 packet.
    pub src_addr: Ipv6Addr,
    /// Destination address of the IPv6 packet.
    pub dst_addr: Ipv6Addr,
    /// Source TCP port.
    pub src_port: u16,
    /// Destination TCP port.
    pub dst_port: u16,
    /// Sequence number.
    pub seq: u32,
    /// Acknowledgment number, meaningful when the ACK flag is set.
    pub ack: u32,
    /// Flag bits (FIN, SYN, RST, PSH, ACK).
    pub flags: u8,
    /// Advertised receive window.
    pub window: u16,
    /// Payload bytes.
    pub payload: Vec<u8>,
}

/// The big-endian 16-bit word at offset `i`.
pub open spec fn be16(s: Seq<u8>, i: int) -> int {
    s[i] * 256 + s[i + 1]
}

/// The big-endian 32-bit word at offset `i`.
pub open spec fn be32(s: Seq<u8>, i: int) -> int {
    ((s[i] * 256 + s[i + 1]) * 256 + s[i + 2]) * 256 + s[i + 3]
}

/// Whether the bytes are a whole IPv6 packet carrying a TCP segment: IPv6
/// version, TCP next header, a payload length that covers the buffer
/// exactly, and a data offset that fits.
pub open spec fn parseable(s: Seq<u8>) -> bool {
    &&& s.len() >= 60
    &&& s.len() <= 70000
    &&& s[0] / 16 == 6
    &&& s[6] == 6
    &&& be16(s, 4) == s.len() - 40
    &&& s[52] / 16 >= 5
    &&& 40 + 4 * (s[52] / 16) <= s.len()
}

/// Source address bytes of a packet.
pub open spec fn spec_src_addr(s: Seq<u8>) -> Seq<u8> {
    s.subrange(8, 24)
}

/// Destination address bytes of a packet.
pub open spec fn spec_dst_addr(s: Seq<u8>) -> Seq<u8> {
    s.subrange(24, 40)
}

/// Source port of a packet.
pub open spec fn spec_src_port(s: Seq<u8>) -> int {
    be16(s, 40)
}

/// Destination port of a packet.
pub open spec fn spec_dst_port(s: Seq<u8>) -> int {
    be16(s, 42)
}

/// Sequence number of a packet.
pub open spec fn spec_seq(s: Seq<u8>) -> int {
    be32(s, 44)
}

/// Acknowledgment number of a packet.
pub open spec fn spec_ack(s: Seq<u8>) -> int {
    be32(s, 48)
}

/// Flag byte of a packet.
pub open spec fn spec_flags(s: Seq<u8>) -> u8 {
    s[53]
}

/// Advertised window of a packet.
pub open spec fn spec_window(s: Seq<u8>) -> int {
    be16(s, 54)
}

/// Payload bytes of a packet, past the TCP header and its options.
pub open spec fn spec_payload(s: Seq<u8>) -> Seq<u8> {
    s.skip(40 + 4 * (s[52] / 16))
}

/// Whether the parsed segment `g` is exactly what the bytes `s` carry.
pub open spec fn is_parse_of(s: Seq<u8>, g: Segment) -> bool {
    &&& g.src_addr.b@ == spec_src_addr(s)
    &&& g.dst_addr.b@ == spec_dst_addr(s)
    &&& g.src_port == spec_src_port(s)
    &&& g.dst_port == spec_dst_port(s)
    &&& g.seq == spec_seq(s)
    &&& g.ack == spec_ack(s)
    &&& g.flags == spec_flags(s)
    &&& g.window == spec_window(s)
    &&& g.payload@ == spec_payload(s)
}

/// Read the big-endian 16-bit word at offset `i`.
pub fn read_be16(b: &Vec<u8>, i: usize) -> (r: u16)
    requires
        i + 2 <= b@.len(),
        b@.len() <= 70000,
    ensures
        r == be16(b@, i as int),
{
    (b[i] as u16) * 256 + (b[i + 1] as u16)
}

/// Read the big-endian 32-bit word at offset `i`.
pub fn read_be32(b: &Vec<u8>, i: usize) -> (r: u32)
    requires
        i + 4 <= b@.len(),
        b@.len() <= 70000,
    ensures
        r == be32(b@, i as int),
{
    (((b[i] as u32) * 256 + (b[i + 1] as u32)) * 256 + (b[i + 2] as u32)) * 256 + (b[i
        + 3] as u32)
}

/// Append the big-endian bytes of a 16-bit word.
pub fn push_be16(v: &mut Vec<u8>, x: u16)
    ensures
        final(v)@ == old(v)@.push((x / 256) as u8).push((x % 256) as u8),
        final(v)@.len() == old(v)@.len() + 2,
        be16(final(v)@, old(v)@.len() as int) == x,
{
    v.push((x / 256) as u8);
    v.push((x % 256) as u8);
}

/// Append the big-endian bytes of a 32-bit word.
pub fn push_be32(v: &mut Vec<u8>, x: u32)
    ensures
        final(v)@.len() == old(v)@.len() + 4,
        forall|k: int| 0 <= k < old(v)@.len() ==> final(v)@[k] == old(v)@[k],
        be32(final(v)@, old(v)@.len() as int) == x,
{
    let b0 = (x / 0x1000000) as u8;
    let b1 = ((x / 0x10000) % 256) as u8;
    let b2 = ((x / 256) % 256) as u8;
    let b3 = (x % 256) as u8;
    v.push(b0);
    v.push(b1);
    v.push(b2);
    v.push(b3);
    proof {
        assert(((b0 * 256 + b1) * 256 + b2) * 256 + b3 == x) by (nonlinear_arith)
            requires
                b0 == x / 0x1000000,
                b1 == (x / 0x10000) % 256,
                b2 == (x / 256) % 256,
                b3 == x % 256,
        ;
    }
}

/// The plain sum of the big-endian 16-bit words of `s`, a trailing odd
/// byte padded with a zero low byte.
pub open spec fn sum_words(s: Seq<u8>) -> int
    decreases s.len(),
{
    if s.len() == 0 {
        0
    } else if s.len() == 1 {
        s[0] * 256
    } else {
        s[0] * 256 + s[1] + sum_words(s.skip(2))
    }
}

/// One step of `sum_words`, spelled out for loop proofs.
proof fn lemma_sum_words_step(s: Seq<u8>)
    requires
        s.len() >= 2,
    ensures
        sum_words(s) == s[0] * 256 + s[1] + sum_words(s.skip(2)),
{
}

/// The sum is never negative.
proof fn lemma_sum_words_nonneg(s: Seq<u8>)
    ensures
        sum_words(s) >= 0,
    decreases s.len(),
{
    if s.len() >= 2 {
        lemma_sum_words_nonneg(s.skip(2));
    }
}

/// Fold a sum into sixteen bits by repeatedly adding the carry back in,
/// as one's-complement arithmetic does.
pub open spec fn fold_sum(x: int) -> int
    decreases x,
    via fold_sum_decreases
{
    if x <= 0xFFFF {
        x
    } else {
        fold_sum(x / 0x10000 + x % 0x10000)
    }
}

#[via_fn]
proof fn fold_sum_decreases(x: int) {
    if x > 0xFFFF {
        assert(x / 0x10000 + x % 0x10000 < x) by (nonlinear_arith)
            requires
                x > 0xFFFF,
        ;
    }
}

/// The one's-complement sum a valid TCP checksum balances: the words of
/// the IPv6 pseudo-header (both addresses, the TCP length and the protocol
/// number) and the words of the whole TCP segment.
pub open spec fn pseudo_sum(s: Seq<u8>) -> int {
    sum_words(s.subrange(8, 40)) + 6 + (s.len() - 40) + sum_words(
        s.subrange(40, s.len() as int),
    )
}

/// Whether the packet's TCP checksum balances its contents.
pub open spec fn checksum_ok(s: Seq<u8>) -> bool {
    fold_sum(pseudo_sum(s)) == 0xFFFF
}

/// The folded sum stays within sixteen bits, stays positive on positive
/// input, and keeps the input's residue in one's-complement arithmetic.
proof fn lemma_fold_bounds(x: int)
    requires
        x >= 0,
    ensures
        0 <= fold_sum(x) <= 0xFFFF,
        x > 0 ==> fold_sum(x) >= 1,
        fold_sum(x) % 0xFFFF == x % 0xFFFF,
    decreases x,
{
    if x <= 0xFFFF {
    } else {
        let q = x / 0x10000;
        let r = x % 0x10000;
        let x2 = q + r;
        assert(x == 0x10000 * q + r) by {
            vstd::arithmetic::div_mod::lemma_fundamental_div_mod(x, 0x10000);
        }
        assert(q >= 1) by (nonlinear_arith)
            requires
                x > 0xFFFF,
                q == x / 0x10000,
        ;
        assert(x2 < x) by (nonlinear_arith)
            requires
                x > 0xFFFF,
                q == x / 0x10000,
                r == x % 0x10000,
                x2 == q + r,
        ;
        lemma_fold_bounds(x2);
        assert(x % 0xFFFF == x2 % 0xFFFF) by {
            assert(x == 0xFFFF * q + x2);
            vstd::arithmetic::div_mod::lemma_mod_multiples_vanish(q, x2, 0xFFFF);
        }
    }
}

/// Updating the two bytes of one aligned 16-bit word moves the word sum
/// by exactly the word's change.
proof fn lemma_sum_words_update_word(s: Seq<u8>, k: int, hi: u8, lo: u8)
    requires
        0 <= k,
        k % 2 == 0,
        k + 1 < s.len(),
    ensures
        sum_words(s.update(k, hi).update(k + 1, lo)) == sum_words(s) - s[k] * 256 - s[k + 1] + hi
            * 256 + lo,
    decreases k,
{
    let s2 = s.update(k, hi).update(k + 1, lo);
    if k == 0 {
        assert(s2.skip(2) =~= s.skip(2));
    } else {
        assert(s2.skip(2) =~= s.skip(2).update(k - 2, hi).update(k - 1, lo));
        lemma_sum_words_update_word(s.skip(2), k - 2, hi, lo);
    }
}

/// Sum the big-endian 16-bit words of `b[from..to]`.
fn sum_range(b: &Vec<u8>, from: usize, to: usize) -> (r: u64)
    requires
        from <= to,
        to <= b@.len(),
        b@.len() <= 70000,
    ensures
        r == sum_words(b@.subrange(from as int, to as int)),
        r <= 65791 * (to - from),
{
    let mut i: usize = from;
    let mut acc: u64 = 0;
    while i < to
        invariant
            from <= i <= to,
            to <= b@.len(),
            b@.len() <= 70000,
            acc <= 65791 * (i - from),
            acc + sum_words(b@.subrange(i as int, to as int)) == sum_words(
                b@.subrange(from as int, to as int),
            ),
        decreases to - i,
    {
        let ghost s_i = b@.subrange(i as int, to as int);
        proof {
            lemma_sum_words_nonneg(s_i);
        }
        if i + 1 < to {
            let w: u64 = (b[i] as u64) * 256 + (b[i + 1] as u64);
            proof {
                lemma_sum_words_step(s_i);
                assert(s_i.skip(2) =~= b@.subrange(i + 2, to as int));
                lemma_sum_words_nonneg(s_i.skip(2));
            }
            acc = acc + w;
            i = i + 2;
        } else {
            proof {
                assert(s_i.len() == 1);
            }
            acc = acc + (b[i] as u64) * 256;
            i = i + 1;
        }
    }
    proof {
        assert(b@.subrange(i as int, to as int).len() == 0);
    }
    acc
}

/// Fold a word sum into sixteen bits.
fn fold16(sum: u64) -> (r: u16)
    ensures
        r == fold_sum(sum as int),
{
    let mut x: u64 = sum;
    while x > 0xFFFF
        invariant
            fold_sum(x as int) == fold_sum(sum as int),
        decreases x,
    {
        let n: u64 = x / 0x10000 + x % 0x10000;
        proof {
            assert(n < x) by (nonlinear_arith)
                requires
                    x > 0xFFFF,
                    n == x / 0x10000 + x % 0x10000,
            ;
        }
        x = n;
    }
    x as u16
}

/// The folded one's-complement sum over the packet's pseudo-header and TCP
/// segment, with whatever its checksum field holds.
fn folded_pseudo_sum(b: &Vec<u8>) -> (r: u16)
    requires
        40 <= b@.len() <= 70000,
    ensures
        r == fold_sum(pseudo_sum(b@)),
{
    let addrs = sum_range(b, 8, 40);
    let body = sum_range(b, 40, b.len());
    proof {
        lemma_sum_words_nonneg(b@.subrange(8, 40));
        lemma_sum_words_nonneg(b@.subrange(40, b@.len() as int));
    }
    let total: u64 = addrs + 6 + (b.len() as u64 - 40) + body;
    fold16(total)
}

/// Whether the packet's TCP checksum balances its contents.
pub fn checksum_valid(b: &Vec<u8>) -> (r: bool)
    requires
        40 <= b@.len() <= 70000,
    ensures
        r == checksum_ok(b@),
{
    folded_pseudo_sum(b) == 0xFFFF
}

/// Parse a raw packet into a segment, or nothing when the bytes are not a
/// whole TCP-in-IPv6 packet. The checksum is judged separately.
pub fn parse(b: &Vec<u8>) -> (r: Option<Segment>)
    requires
        b@.len() <= 70000,
    ensures
        r is Some <==> parseable(b@),
        r matches Some(g) ==> is_parse_of(b@, g),
{
    if b.len() < 60 {
        return None;
    }
    if b[0] / 16 != 6 {
        return None;
    }
    if b[6] != 6 {
        return None;
    }
    let plen = read_be16(b, 4);
    if plen as usize != b.len() - 40 {
        return None;
    }
    let doff = b[52] / 16;
    if doff < 5 {
        return None;
    }
    let off: usize = 40 + 4 * (doff as usize);
    if off > b.len() {
        return None;
    }
    let mut sa = [0u8; 16];
    let mut da = [0u8; 16];
    let mut i: usize = 0;
    while i < 16
        invariant
            0 <= i <= 16,
            b@.len() >= 60,
            sa@.len() == 16,
            da@.len() == 16,
            forall|k: int| 0 <= k < i ==> sa@[k] == b@[8 + k],
            forall|k: int| 0 <= k < i ==> da@[k] == b@[24 + k],
        decreases 16 - i,
    {
        sa[i] = b[8 + i];
        da[i] = b[24 + i];
        i = i + 1;
    }
    let mut payload: Vec<u8> = Vec::new();
    let mut j: usize = off;
    while j < b.len()
        invariant
            off <= j <= b@.len(),
            payload@.len() == j - off,
            forall|k: int| 0 <= k < payload@.len() ==> payload@[k] == b@[off + k],
        decreases b@.len() - j,
    {
        payload.push(b[j]);
        j = j + 1;
    }
    proof {
        assert(sa@ =~= spec_src_addr(b@));
        assert(da@ =~= spec_dst_addr(b@));
        assert(payload@ =~= spec_payload(b@));
    }
    Some(
        Segment {
            src_addr: Ipv6Addr::from_bytes(sa),
            dst_addr: Ipv6Addr::from_bytes(da),
            src_port: read_be16(b, 40),
            dst_port: read_be16(b, 42),
            seq: read_be32(b, 44),
            ack: read_be32(b, 48),
            flags: b[53],
            window: read_be16(b, 54),
            payload,
        },
    )
}

/// Build the raw packet that carries `seg`: fixed IPv6 header, 20-byte TCP
/// header, payload, and a freshly computed checksum. The result parses
/// back to the segment it was built from.
pub fn emit(seg: &Segment) -> (r: Vec<u8>)
    requires
        seg.payload@.len() <= 65515,
    ensures
        r@.len() == 60 + seg.payload@.len(),
        parseable(r@),
        is_parse_of(r@, *seg),
        checksum_ok(r@),
{
    let n = seg.payload.len();
    let mut v: Vec<u8> = Vec::new();
    v.push(0x60u8);
    v.push(0u8);
    v.push(0u8);
    v.push(0u8);
    push_be16(&mut v, (n as u16) + 20);
    v.push(6u8);
    v.push(64u8);
    let ghost v8 = v@;
    proof {
        assert(v8.len() == 8);
        assert(v8[0] == 0x60);
        assert(v8[6] == 6);
        assert(be16(v8, 4) == n + 20);
    }
    let mut i: usize = 0;
    while i < 16
        invariant
            0 <= i <= 16,
            v@.len() == 8 + i,
            forall|k: int| 0 <= k < 8 ==> v@[k] == v8[k],
            forall|k: int| 0 <= k < i ==> v@[8 + k] == seg.src_addr.b@[k],
        decreases 16 - i,
    {
        v.push(seg.src_addr.b[i]);
        i = i + 1;
    }
    let mut j: usize = 0;
    while j < 16
        invariant
            0 <= j <= 16,
            v@.len() == 24 + j,
            forall|k: int| 0 <= k < 8 ==> v@[k] == v8[k],
            forall|k: int| 0 <= k < 16 ==> v@[8 + k] == seg.src_addr.b@[k],
            forall|k: int| 0 <= k < j ==> v@[24 + k] == seg.dst_addr.b@[k],
        decreases 16 - j,
    {
        v.push(seg.dst_addr.b[j]);
        j = j + 1;
    }
    push_be16(&mut v, seg.src_port);
    push_be16(&mut v, seg.dst_port);
    push_be32(&mut v, seg.seq);
    push_be32(&mut v, seg.ack);
    v.push(0x50u8);
    v.push(seg.flags);
    push_be16(&mut v, seg.window);
    v.push(0u8);
    v.push(0u8);
    v.push(0u8);
    v.push(0u8);
    let ghost v60 = v@;
    proof {
        assert(v60.len() == 60);
        assert(forall|k: int| 0 <= k < 8 ==> v60[k] == v8[k]);
        assert(forall|k: int| 0 <= k < 16 ==> v60[8 + k] == seg.src_addr.b@[k]);
        assert(forall|k: int| 0 <= k < 16 ==> v60[24 + k] == seg.dst_addr.b@[k]);
        assert(be16(v60, 40) == seg.src_port);
        assert(be16(v60, 42) == seg.dst_port);
        assert(be32(v60, 44) == seg.seq);
        assert(be32(v60, 48) == seg.ack);
        assert(v60[52] == 0x50);
        assert(v60[53] == seg.flags);
        assert(be16(v60, 54) == seg.window);
        assert(v60[56] == 0);
        assert(v60[57] == 0);
    }
    let mut p: usize = 0;
    while p < n
        invariant
            0 <= p <= n,
            n == seg.payload@.len(),
            v@.len() == 60 + p,
            forall|k: int| 0 <= k < 60 ==> v@[k] == v60[k],
            forall|k: int| 0 <= k < p ==> v@[60 + k] == seg.payload@[k],
        decreases n - p,
    {
        v.push(seg.payload[p]);
        p = p + 1;
    }
    let folded = folded_pseudo_sum(&v);
    let c: u16 = 0xFFFF - folded;
    let hi = (c / 256) as u8;
    let lo = (c % 256) as u8;
    let ghost vfull = v@;
    v.set(56, hi);
    v.set(57, lo);
    proof {
        assert(v@ == vfull.update(56, hi).update(57, lo));
        assert(forall|k: int| 0 <= k < v@.len() && k != 56 && k != 57 ==> v@[k] == vfull[k]);
        assert(v@[0] / 16 == 6);
        assert(v@[6] == 6);
        assert(be16(v@, 4) == n + 20);
        assert(v@[52] / 16 == 5);
        assert(spec_src_addr(v@) =~= seg.src_addr.b@);
        assert(spec_dst_addr(v@) =~= seg.dst_addr.b@);
        assert(spec_payload(v@) =~= seg.payload@);
        assert(parseable(v@));
        // The inserted word balances the one's-complement sum.
        let len = vfull.len() as int;
        let s0 = pseudo_sum(vfull);
        let fval = fold_sum(s0) as int;
        assert(folded == fval);
        assert(vfull[56] == 0 && vfull[57] == 0);
        assert(v@.subrange(8, 40) =~= vfull.subrange(8, 40));
        assert(v@.subrange(40, len) =~= vfull.subrange(40, len).update(16, hi).update(17, lo));
        assert(sum_words(v@.subrange(40, len)) == sum_words(vfull.subrange(40, len)) + c) by {
            lemma_sum_words_update_word(vfull.subrange(40, len), 16, hi, lo);
            assert(vfull.subrange(40, len)[16] == 0);
            assert(vfull.subrange(40, len)[17] == 0);
            assert(hi * 256 + lo == c);
        }
        assert(pseudo_sum(v@) == s0 + c);
        lemma_sum_words_nonneg(vfull.subrange(8, 40));
        lemma_sum_words_nonneg(vfull.subrange(40, len));
        assert(s0 > 0);
        lemma_fold_bounds(s0);
        assert(0 <= fval <= 0xFFFF);
        let total = s0 + c;
        assert(total == s0 - fval + 0xFFFF);
        assert((s0 - fval) % 0xFFFF == 0) by {
            vstd::arithmetic::div_mod::lemma_mod_equivalence(s0, fval, 0xFFFF);
        }
        assert(total % 0xFFFF == 0) by {
            vstd::arithmetic::div_mod::lemma_mod_multiples_vanish(1, s0 - fval, 0xFFFF);
            assert(0xFFFF * 1 + (s0 - fval) == total);
        }
        lemma_fold_bounds(total);
        assert(fold_sum(total) == 0xFFFF) by {
            if fold_sum(total) < 0xFFFF {
                vstd::arithmetic::div_mod::lemma_small_mod(fold_sum(total) as nat, 0xFFFF);
            }
        }
        assert(checksum_ok(v@));
    }
    v
}

} // verus!
