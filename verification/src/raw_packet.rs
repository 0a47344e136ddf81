//! Raw IPv4 packet handling for packet interception: parsing TCP and UDP
//! packets, the Internet checksum, and rebuilding a TCP packet around a new
//! payload.

use vstd::prelude::*;
use crate::bytes::{be16, read_be16};

verus! {

/// Big-endian 32-bit value stored at `s[i..i + 4]`.
pub open spec fn be32_at(s: Seq<u8>, i: int) -> int {
    s[i] as int * 16777216 + s[i + 1] as int * 65536 + s[i + 2] as int * 256 + s[i + 3] as int
}

/// An IPv4 address as its big-endian 32-bit value, with a port.
#[derive(Debug, Clone, Copy, PartialEq, Eq, Structural)]
pub struct Endpoint {
    pub ip: u32,
    pub port: u16,
}

/// A parsed IPv4/TCP packet.
#[derive(Debug)]
pub struct ParsedPacket<'a> {
    pub src_addr: Endpoint,
    pub dst_addr: Endpoint,
    /// Byte offset of the TCP payload within the packet.
    pub payload_offset: usize,
    /// The TCP payload.
    pub payload: &'a [u8],
    pub ip_header_len: usize,
    pub tcp_header_len: usize,
    pub seq: u32,
    pub ack: u32,
}

impl<'a> ParsedPacket<'a> {
    /// The TCP sequence number.
    pub fn tcp_seq(&self) -> (r: u32)
        ensures
            r == self.seq,
    {
        self.seq
    }
}

/// A parsed IPv4/UDP packet.
#[derive(Debug)]
pub struct ParsedDatagram<'a> {
    pub src_addr: Endpoint,
    pub dst_addr: Endpoint,
    /// The UDP payload (everything after the UDP header).
    pub payload: &'a [u8],
}

/// IPv4 header length from the first byte.
pub open spec fn ihl_of(b0: u8) -> int {
    (b0 % 16) as int * 4
}

/// Whether `data` starts with an IPv4 header of the given protocol, with
/// `extra` more bytes after it.
pub open spec fn ipv4_with(data: Seq<u8>, protocol: u8, extra: int) -> bool {
    &&& data.len() >= 20
    &&& data[0] / 16 == 4
    &&& ihl_of(data[0]) >= 20
    &&& data.len() >= ihl_of(data[0])
    &&& data[9] == protocol
    &&& data.len() >= ihl_of(data[0]) + extra
}

/// The endpoint of an IPv4 address at `ip_at` and a port at `port_at`.
pub open spec fn endpoint_at(data: Seq<u8>, ip_at: int, port_at: int) -> Endpoint {
    Endpoint { ip: be32_at(data, ip_at) as u32, port: be16(data, port_at) as u16 }
}

/// What parsing an IPv4/TCP packet gives: the addresses, header lengths,
/// sequence numbers and the payload's offset, or `None`.
pub open spec fn spec_parse_ip_tcp(data: Seq<u8>) -> Option<(Endpoint, Endpoint, int, int, int, u32, u32)> {
    if !ipv4_with(data, 6, 20) {
        None
    } else {
        let t = ihl_of(data[0]);
        let tcp_off = (data[t + 12] / 16) as int * 4;
        if tcp_off < 20 {
            None
        } else {
            Some((
                endpoint_at(data, 12, t),
                endpoint_at(data, 16, t + 2),
                t + tcp_off,
                t,
                tcp_off,
                be32_at(data, t + 4) as u32,
                be32_at(data, t + 8) as u32,
            ))
        }
    }
}

/// Law: a parsed IPv4/TCP packet's payload starts right after both
/// headers: the IPv4 header is 4 times the IHL nibble of byte 0, the TCP
/// header 4 times the data-offset nibble of its byte 12, and the payload is
/// everything from their sum on. A packet is parsed exactly when it is
/// IPv4 carrying TCP with both headers present and both lengths at least 20.
pub proof fn lemma_tcp_payload_follows_headers(data: Seq<u8>)
    ensures
        ({
            let ihl = (data[0] % 16) as int * 4;
            let thl = (data[ihl + 12] / 16) as int * 4;
            (data.len() >= 20 && data[0] / 16 == 4 && data[9] == 6 && ihl >= 20 && data.len() >= ihl + 20 && thl >= 20)
                <==> spec_parse_ip_tcp(data) is Some
        }),
        spec_parse_ip_tcp(data) matches Some((src, dst, off, ihl, thl, seq, ack)) ==> {
            &&& ihl == (data[0] % 16) as int * 4
            &&& thl == (data[ihl + 12] / 16) as int * 4
            &&& off == ihl + thl
            &&& payload_from(data, off) == if ihl + thl < data.len() {
                data.subrange(ihl + thl, data.len() as int)
            } else {
                Seq::<u8>::empty()
            }
            &&& src.port == data[ihl] as int * 256 + data[ihl + 1] as int
            &&& dst.port == data[ihl + 2] as int * 256 + data[ihl + 3] as int
        },
{
}

/// The payload at `offset` (empty past the end).
pub open spec fn payload_from(data: Seq<u8>, offset: int) -> Seq<u8> {
    if offset < data.len() {
        data.subrange(offset, data.len() as int)
    } else {
        Seq::empty()
    }
}

fn read_be32(data: &[u8], i: usize) -> (r: u32)
    requires
        i + 3 < data@.len(),
    ensures
        r as int == be32_at(data@, i as int),
{
    (data[i] as u32) * 16777216 + (data[i + 1] as u32) * 65536 + (data[i + 2] as u32) * 256 + (data[i + 3] as u32)
}

/// Parse an IPv4/TCP packet; `None` for anything else or a truncated one.
pub fn parse_ip_tcp(data: &[u8]) -> (r: Option<ParsedPacket<'_>>)
    ensures
        match spec_parse_ip_tcp(data@) {
            Some((src, dst, off, ihl, thl, seq, ack)) => r matches Some(p) && p.src_addr == src && p.dst_addr == dst
                && p.payload_offset == off && p.ip_header_len == ihl && p.tcp_header_len == thl && p.seq == seq
                && p.ack == ack && p.payload@ == payload_from(data@, off),
            None => r is None,
        },
{
    if data.len() < 20 {
        return None;
    }
    if data[0] / 16 != 4 {
        return None;
    }
    let ip_header_len = ((data[0] % 16) as usize) * 4;
    if ip_header_len < 20 || data.len() < ip_header_len {
        return None;
    }
    if data[9] != 6 {
        return None;
    }
    let tcp_start = ip_header_len;
    if data.len() < tcp_start + 20 {
        return None;
    }
    let src_addr = Endpoint { ip: read_be32(data, 12), port: read_be16(data, tcp_start) as u16 };
    let dst_addr = Endpoint { ip: read_be32(data, 16), port: read_be16(data, tcp_start + 2) as u16 };
    let seq = read_be32(data, tcp_start + 4);
    let ack = read_be32(data, tcp_start + 8);
    let tcp_data_offset = ((data[tcp_start + 12] / 16) as usize) * 4;
    if tcp_data_offset < 20 {
        return None;
    }
    let payload_offset = tcp_start + tcp_data_offset;
    let payload: &[u8] = if payload_offset < data.len() {
        &data[payload_offset..data.len()]
    } else {
        &data[0..0]
    };
    Some(ParsedPacket {
        src_addr,
        dst_addr,
        payload_offset,
        payload,
        ip_header_len,
        tcp_header_len: tcp_data_offset,
        seq,
        ack,
    })
}

/// What parsing an IPv4/UDP packet gives: the addresses and where the
/// payload starts, or `None`.
pub open spec fn spec_parse_ip_udp(data: Seq<u8>) -> Option<(Endpoint, Endpoint, int)> {
    if !ipv4_with(data, 17, 8) {
        None
    } else {
        let t = ihl_of(data[0]);
        Some((endpoint_at(data, 12, t), endpoint_at(data, 16, t + 2), t + 8))
    }
}

/// Parse an IPv4/UDP packet; `None` for anything else or a truncated one.
pub fn parse_ip_udp(data: &[u8]) -> (r: Option<ParsedDatagram<'_>>)
    ensures
        match spec_parse_ip_udp(data@) {
            Some((src, dst, off)) => r matches Some(p) && p.src_addr == src && p.dst_addr == dst && p.payload@
                == data@.subrange(off, data@.len() as int),
            None => r is None,
        },
{
    if data.len() < 20 || data[0] / 16 != 4 {
        return None;
    }
    let ip_header_len = ((data[0] % 16) as usize) * 4;
    if ip_header_len < 20 || data.len() < ip_header_len || data[9] != 17 {
        return None;
    }
    if data.len() < ip_header_len + 8 {
        return None;
    }
    let src_addr = Endpoint { ip: read_be32(data, 12), port: read_be16(data, ip_header_len) as u16 };
    let dst_addr = Endpoint { ip: read_be32(data, 16), port: read_be16(data, ip_header_len + 2) as u16 };
    Some(ParsedDatagram { src_addr, dst_addr, payload: &data[ip_header_len + 8..data.len()] })
}

/// Sum of the big-endian 16-bit words of `s`, a trailing odd byte counting
/// as the high byte of a word.
pub open spec fn word_sum(s: Seq<u8>) -> int
    decreases s.len(),
{
    if s.len() == 0 {
        0
    } else if s.len() == 1 {
        s[0] as int * 256
    } else {
        be16(s, 0) + word_sum(s.subrange(2, s.len() as int))
    }
}

/// Fold the carries of a sum back into 16 bits (end-around carry).
pub open spec fn fold16(x: int) -> int
    decreases x,
{
    if x < 65536 {
        x
    } else {
        fold16(x % 65536 + x / 65536)
    }
}

/// The Internet checksum (RFC 1071) of `s`: the complement of the folded
/// word sum.
pub open spec fn internet_checksum(s: Seq<u8>) -> int {
    65535 - fold16(word_sum(s))
}

/// The ones'-complement value of a sum: 0 for 0, otherwise the
/// representative in 1..=65535 of its class modulo 65535.
pub open spec fn ones_class(x: int) -> int {
    if x <= 0 {
        0
    } else {
        (x - 1) % 65535 + 1
    }
}

proof fn lemma_word_sum_nonneg(s: Seq<u8>)
    ensures
        word_sum(s) >= 0,
    decreases s.len(),
{
    if s.len() >= 2 {
        lemma_word_sum_nonneg(s.subrange(2, s.len() as int));
    }
}

/// Two non-negative sums that are both zero or both non-zero, and differ by
/// a multiple of 65535, have the same ones'-complement value.
proof fn lemma_same_class(a: int, b: int)
    requires
        a >= 0,
        b >= 0,
        (a == 0) == (b == 0),
        (a - b) % 65535 == 0,
    ensures
        ones_class(a) == ones_class(b),
{
    if a > 0 {
        vstd::arithmetic::div_mod::lemma_mod_equivalence(a - 1, b - 1, 65535);
    }
}

/// Adding the same amount to sums of equal ones'-complement value keeps
/// their values equal.
proof fn lemma_class_add(a: int, b: int, w: int)
    requires
        a >= 0,
        b >= 0,
        w >= 0,
        ones_class(a) == ones_class(b),
    ensures
        ones_class(a + w) == ones_class(b + w),
{
    if a > 0 {
        vstd::arithmetic::div_mod::lemma_mod_equivalence(a - 1, b - 1, 65535);
        assert(((a + w) - (b + w)) % 65535 == 0);
    } else {
        assert(b == 0) by {
            if b > 0 {
                assert(ones_class(b) >= 1);
            }
        }
    }
    lemma_same_class(a + w, b + w);
}

/// Replacing `x` by its low 16 bits plus its high part keeps the
/// ones'-complement value of `a + x`.
proof fn lemma_class_split(a: int, x: int)
    requires
        a >= 0,
        x >= 0,
    ensures
        ones_class(a + x % 65536 + x / 65536) == ones_class(a + x),
{
    vstd::arithmetic::div_mod::lemma_fundamental_div_mod(x, 65536);
    let q = x / 65536;
    assert(q >= 0) by (nonlinear_arith)
        requires
            x >= 0,
            q == x / 65536,
    ;
    assert(x % 65536 >= 0);
    vstd::arithmetic::div_mod::lemma_mod_multiples_vanish(q, 0, 65535);
    assert((a + x) - (a + x % 65536 + q) == 65535 * q);
    assert(0int % 65535 == 0);
    lemma_same_class(a + x % 65536 + x / 65536, a + x);
}

/// Folding the carries gives the ones'-complement value.
proof fn lemma_fold16_class(x: int)
    requires
        x >= 0,
    ensures
        fold16(x) == ones_class(x),
    decreases x,
{
    if x >= 65536 {
        let y = x % 65536 + x / 65536;
        assert(y < x && y > 0) by (nonlinear_arith)
            requires
                x >= 65536,
                y == x % 65536 + x / 65536,
        ;
        lemma_fold16_class(y);
        lemma_class_split(0, x);
    }
}

/// `acc + w` with its carry folded back.
fn add_folded(acc: u32, w: u32) -> (r: u32)
    requires
        acc <= 65535,
        w <= 65535,
    ensures
        r <= 65535,
        ones_class(r as int) == ones_class(acc + w),
{
    let s = acc + w;
    if s >= 65536 {
        proof {
            lemma_same_class((s - 65535) as int, s as int);
        }
        s - 65535
    } else {
        s
    }
}

/// Add the words of `data` to a folded sum.
fn add_words(data: &[u8], acc0: u32) -> (r: u32)
    requires
        acc0 <= 65535,
    ensures
        r <= 65535,
        ones_class(r as int) == ones_class(acc0 + word_sum(data@)),
{
    let len = data.len();
    let mut acc = acc0;
    let mut i: usize = 0;
    assert(data@.subrange(0, len as int) =~= data@);
    while i < len && len - i > 1
        invariant
            len == data@.len(),
            i <= len,
            acc <= 65535,
            ones_class(acc + word_sum(data@.subrange(i as int, len as int))) == ones_class(acc0 + word_sum(data@)),
        decreases len - i,
    {
        let ghost rest = data@.subrange(i as int, len as int);
        let ghost tail = data@.subrange(i + 2, len as int);
        assert(rest.subrange(2, rest.len() as int) =~= tail);
        let w = (data[i] as u32) * 256 + (data[i + 1] as u32);
        let next = add_folded(acc, w);
        proof {
            lemma_word_sum_nonneg(tail);
            lemma_class_add(next as int, acc + w, word_sum(tail));
        }
        acc = next;
        i = i + 2;
    }
    if i < len {
        let next = add_folded(acc, (data[i] as u32) * 256);
        acc = next;
    } else {
        assert(data@.subrange(i as int, len as int) =~= Seq::<u8>::empty());
    }
    acc
}

/// Add a length of any size to a folded sum, 16 bits at a time.
fn add_length(acc0: u32, n: usize) -> (r: u32)
    requires
        acc0 <= 65535,
    ensures
        r <= 65535,
        ones_class(r as int) == ones_class(acc0 + n),
{
    let mut acc = acc0;
    let mut t = n;
    while t > 0
        invariant
            acc <= 65535,
            ones_class(acc + t) == ones_class(acc0 + n),
        decreases t,
    {
        let low = (t % 65536) as u32;
        let next = add_folded(acc, low);
        proof {
            lemma_class_add(next as int, acc + low, (t / 65536) as int);
            lemma_class_split(acc as int, t as int);
        }
        acc = next;
        t = t / 65536;
    }
    acc
}

/// A folded sum is its own ones'-complement value.
proof fn lemma_class_small(x: int)
    requires
        0 <= x <= 65535,
    ensures
        ones_class(x) == x,
{
}

/// The Internet checksum of `data`.
pub fn compute_checksum(data: &[u8]) -> (r: u16)
    ensures
        r as int == internet_checksum(data@),
{
    let sum = add_words(data, 0);
    proof {
        lemma_word_sum_nonneg(data@);
        lemma_fold16_class(word_sum(data@));
        lemma_class_small(sum as int);
    }
    (65535 - sum) as u16
}

/// The TCP checksum of a packet whose TCP segment starts at `ihl`: over the
/// pseudo-header (addresses, protocol 6, TCP length) and the segment; 0 when
/// the packet is too short.
pub open spec fn spec_tcp_checksum(p: Seq<u8>, ihl: int) -> int {
    if p.len() < 20 || p.len() < ihl + 20 {
        0
    } else {
        let pseudo = be16(p, 12) + be16(p, 14) + be16(p, 16) + be16(p, 18) + 6 + (p.len() - ihl);
        65535 - fold16(pseudo + word_sum(p.subrange(ihl, p.len() as int)))
    }
}

/// The TCP checksum of a packet (see `spec_tcp_checksum`).
pub fn compute_tcp_checksum(packet: &[u8], ip_header_len: usize) -> (r: u16)
    ensures
        r as int == spec_tcp_checksum(packet@, ip_header_len as int),
{
    let len = packet.len();
    if len < 20 || len - 20 < ip_header_len {
        return 0;
    }
    let tcp_start = ip_header_len;
    let tcp_len = len - tcp_start;
    let w0 = read_be16(packet, 12) as u32;
    let w1 = read_be16(packet, 14) as u32;
    let w2 = read_be16(packet, 16) as u32;
    let w3 = read_be16(packet, 18) as u32;
    let tcp_data = &packet[tcp_start..len];
    let ghost ws = word_sum(tcp_data@);
    proof {
        lemma_word_sum_nonneg(tcp_data@);
    }
    let a1 = add_folded(0, w0);
    let a2 = add_folded(a1, w1);
    proof {
        lemma_class_add(a1 as int, w0 as int, w1 as int);
    }
    let a3 = add_folded(a2, w2);
    proof {
        lemma_class_add(a2 as int, w0 + w1, w2 as int);
    }
    let a4 = add_folded(a3, w3);
    proof {
        lemma_class_add(a3 as int, w0 + w1 + w2, w3 as int);
    }
    let a5 = add_folded(a4, 6);
    proof {
        lemma_class_add(a4 as int, w0 + w1 + w2 + w3, 6);
    }
    let a6 = add_length(a5, tcp_len);
    proof {
        lemma_class_add(a5 as int, w0 + w1 + w2 + w3 + 6, tcp_len as int);
    }
    let a7 = add_words(tcp_data, a6);
    proof {
        let pseudo = w0 + w1 + w2 + w3 + 6 + tcp_len;
        lemma_class_add(a6 as int, pseudo, ws);
        lemma_fold16_class(pseudo + ws);
        lemma_class_small(a7 as int);
    }
    (65535 - a7) as u16
}

/// The packet with a new payload after the original headers, before any
/// length or checksum is updated.
pub open spec fn with_payload(original: Seq<u8>, header_len: int, payload: Seq<u8>) -> Seq<u8> {
    original.subrange(0, header_len) + payload
}

/// What rebuilding gives: the headers of `original` (up to the payload
/// offset) and the new payload, with the IPv4 total length set (taken
/// modulo 2^16), the IPv4 header checksum recomputed and the TCP checksum
/// recomputed; `None` when `original` is shorter than its headers.
pub open spec fn spec_rebuild(original: Seq<u8>, ihl: int, header_len: int, payload: Seq<u8>) -> Option<Seq<u8>> {
    if original.len() < header_len {
        None
    } else {
        let p0 = with_payload(original, header_len, payload);
        let total = p0.len() % 65536;
        let p1 = p0.update(2, (total / 256) as u8).update(3, (total % 256) as u8).update(10, 0).update(11, 0);
        let ipc = internet_checksum(p1.subrange(0, ihl));
        let p2 = p1.update(10, (ipc / 256) as u8).update(11, (ipc % 256) as u8);
        let p3 = p2.update(ihl + 16, 0).update(ihl + 17, 0);
        let tc = spec_tcp_checksum(p3, ihl);
        Some(p3.update(ihl + 16, (tc / 256) as u8).update(ihl + 17, (tc % 256) as u8))
    }
}

/// Writing the word `hi, lo` at an even offset `k` changes the word sum by
/// the difference of the two words.
proof fn lemma_word_sum_set(s: Seq<u8>, k: int, hi: u8, lo: u8)
    requires
        0 <= k,
        k + 1 < s.len(),
        k % 2 == 0,
    ensures
        word_sum(s.update(k, hi).update(k + 1, lo)) == word_sum(s) - be16(s, k) + hi as int * 256 + lo as int,
    decreases k,
{
    let t = s.update(k, hi).update(k + 1, lo);
    if k == 0 {
        assert(t.subrange(2, t.len() as int) =~= s.subrange(2, s.len() as int));
    } else {
        let rest = s.subrange(2, s.len() as int);
        lemma_word_sum_set(rest, k - 2, hi, lo);
        assert(t.subrange(2, t.len() as int) =~= rest.update(k - 2, hi).update(k - 1, lo));
        assert(be16(rest, k - 2) == be16(s, k));
    }
}

/// Adding a sum's own checksum to it folds to all ones.
proof fn lemma_complement_closes(x: int)
    requires
        x >= 0,
    ensures
        fold16(x + (65535 - fold16(x))) == 65535,
{
    lemma_fold16_class(x);
    let c = fold16(x);
    assert(0 <= c <= 65535);
    lemma_fold16_class(x + (65535 - c));
    if x > 0 {
        let q = (x - 1) / 65535;
        let m = (x - 1) % 65535;
        vstd::arithmetic::div_mod::lemma_fundamental_div_mod(x - 1, 65535);
        assert(c == m + 1);
        assert(x + (65535 - c) - 1 == 65535 * q + 65534);
        vstd::arithmetic::div_mod::lemma_mod_multiples_vanish(q, 65534, 65535);
    }
}

/// Law: the packet `rebuild_packet` gives carries checksums that verify:
/// the Internet checksum of its IPv4 header, and the TCP checksum over the
/// pseudo-header and segment, are 0. Its IPv4 total length is its length
/// (modulo 2^16) and its payload is the new payload.
pub proof fn lemma_rebuilt_checksums_verify(original: Seq<u8>, ihl: int, header_len: int, payload: Seq<u8>)
    requires
        20 <= ihl,
        ihl + 20 <= header_len <= original.len(),
    ensures
        spec_rebuild(original, ihl, header_len, payload) matches Some(r) ==> {
            &&& r.len() == header_len + payload.len()
            &&& be16(r, 2) == r.len() % 65536
            &&& r.subrange(header_len, r.len() as int) == payload
            &&& internet_checksum(r.subrange(0, ihl)) == 0
            &&& spec_tcp_checksum(r, ihl) == 0
        },
{
    let p0 = with_payload(original, header_len, payload);
    let total = p0.len() % 65536;
    let p1 = p0.update(2, (total / 256) as u8).update(3, (total % 256) as u8).update(10, 0).update(11, 0);
    let h1 = p1.subrange(0, ihl);
    let ipc = internet_checksum(h1);
    let p2 = p1.update(10, (ipc / 256) as u8).update(11, (ipc % 256) as u8);
    let p3 = p2.update(ihl + 16, 0).update(ihl + 17, 0);
    let tc = spec_tcp_checksum(p3, ihl);
    let r = p3.update(ihl + 16, (tc / 256) as u8).update(ihl + 17, (tc % 256) as u8);
    // The IPv4 header.
    lemma_word_sum_nonneg(h1);
    lemma_fold16_class(word_sum(h1));
    let h2 = p2.subrange(0, ihl);
    assert(h2 =~= h1.update(10, (ipc / 256) as u8).update(11, (ipc % 256) as u8));
    lemma_word_sum_set(h1, 10, (ipc / 256) as u8, (ipc % 256) as u8);
    assert(be16(h1, 10) == 0);
    assert(word_sum(h2) == word_sum(h1) + ipc);
    lemma_complement_closes(word_sum(h1));
    assert(r.subrange(0, ihl) =~= h2);
    // The TCP checksum.
    let seg3 = p3.subrange(ihl, p3.len() as int);
    let segr = r.subrange(ihl, r.len() as int);
    assert(segr =~= seg3.update(16, (tc / 256) as u8).update(17, (tc % 256) as u8));
    lemma_word_sum_set(seg3, 16, (tc / 256) as u8, (tc % 256) as u8);
    assert(be16(seg3, 16) == 0);
    lemma_word_sum_nonneg(seg3);
    let pseudo = be16(p3, 12) + be16(p3, 14) + be16(p3, 16) + be16(p3, 18) + 6 + (p3.len() - ihl);
    assert(be16(r, 12) + be16(r, 14) + be16(r, 16) + be16(r, 18) + 6 + (r.len() - ihl) == pseudo);
    lemma_fold16_class(pseudo + word_sum(seg3));
    assert(tc == 65535 - fold16(pseudo + word_sum(seg3)));
    assert(word_sum(segr) == word_sum(seg3) + tc);
    lemma_complement_closes(pseudo + word_sum(seg3));
    assert(pseudo + word_sum(segr) == pseudo + word_sum(seg3) + (65535 - fold16(pseudo + word_sum(seg3))));
    assert(r.subrange(header_len, r.len() as int) =~= payload);
}

/// Rebuild a TCP packet with a new payload, fixing the IPv4 total length
/// and both checksums.
pub fn rebuild_packet(original: &[u8], parsed: &ParsedPacket<'_>, new_payload: &[u8]) -> (r: Option<Vec<u8>>)
    requires
        original@.len() >= parsed.payload_offset ==> parsed.payload_offset + new_payload@.len() >= 12
            && parsed.ip_header_len + 18 <= parsed.payload_offset + new_payload@.len(),
    ensures
        match spec_rebuild(original@, parsed.ip_header_len as int, parsed.payload_offset as int, new_payload@) {
            Some(q) => r is Some && r->0@ == q,
            None => r is None,
        },
{
    let header_len = parsed.payload_offset;
    if original.len() < header_len {
        return None;
    }
    let mut packet: Vec<u8> = Vec::new();
    crate::bytes::extend_range(&mut packet, original, 0, header_len);
    crate::bytes::extend_range(&mut packet, new_payload, 0, new_payload.len());
    assert(new_payload@.subrange(0, new_payload@.len() as int) =~= new_payload@);
    let total_len = packet.len() % 65536;
    packet.set(2, (total_len / 256) as u8);
    packet.set(3, (total_len % 256) as u8);
    packet.set(10, 0);
    packet.set(11, 0);
    let ihl = parsed.ip_header_len;
    let ip_checksum = compute_checksum(&packet.as_slice()[0..ihl]);
    packet.set(10, (ip_checksum / 256) as u8);
    packet.set(11, (ip_checksum % 256) as u8);
    let tcp_start = ihl;
    packet.set(tcp_start + 16, 0);
    packet.set(tcp_start + 17, 0);
    let tcp_checksum = compute_tcp_checksum(packet.as_slice(), ihl);
    packet.set(tcp_start + 16, (tcp_checksum / 256) as u8);
    packet.set(tcp_start + 17, (tcp_checksum % 256) as u8);
    Some(packet)
}

} // verus!
