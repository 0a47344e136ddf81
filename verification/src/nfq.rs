//! Packet-interception mode: the verdict on each intercepted packet.
//!
//! The packet loop itself (receiving from the kernel queue and sending the
//! verdict back) is I/O and runs outside the library; this module decides,
//! for one packet and the connection table, what to answer.

use vstd::prelude::*;
use crate::conn_tracker::{
    looked_up, marked, spec_is_retransmit, AppliedAction, ConnKey, ConnTracker, NfqConnState,
};
use crate::context::PayloadContext;
use crate::packet::spec_detect;
use crate::quic::{parse_quic_initial, spec_parse_quic};
use crate::raw_packet::{
    parse_ip_tcp, parse_ip_udp, payload_from, rebuild_packet, spec_parse_ip_tcp, spec_parse_ip_udp, spec_rebuild,
};
use crate::strategy::{selector_admits, selector_result, Selector, SelectorView};
use crate::types::{DesyncAction, Direction, Error};

verus! {

/// Configuration of packet-interception mode.
#[derive(Debug, Clone)]
pub struct NfqConfig {
    /// Kernel queue number to bind to.
    pub queue_num: u16,
    /// Destination ports whose traffic is intercepted.
    pub ports: Vec<u16>,
    /// Most connections tracked at once.
    pub max_connections: usize,
    /// Drop outbound QUIC Initial packets to UDP port 443, so that browsers
    /// fall back to TCP, where the techniques apply.
    pub block_quic: bool,
}

impl Default for NfqConfig {
    fn default() -> (c: Self)
        ensures
            c.queue_num == 200,
            c.ports@ == seq![80u16, 443u16],
            c.max_connections == 10000,
            c.block_quic,
    {
        NfqConfig { queue_num: 200, ports: vec![80u16, 443u16], max_connections: 10000, block_quic: true }
    }
}

/// A packet intercepted from the network stack.
#[derive(Debug, Clone)]
pub struct InterceptedPacket {
    /// Identifier used to answer with a verdict.
    pub id: u32,
    /// Raw packet (IP header and everything after it).
    pub data: Vec<u8>,
    pub direction: Direction,
}

/// The answer for an intercepted packet.
#[derive(Debug, Clone)]
pub enum Verdict {
    /// Let the packet through unchanged.
    Accept,
    /// Drop the packet.
    Drop,
    /// Let the packet through with these bytes instead.
    Modify(Vec<u8>),
}

/// Whether the packet is a QUIC Initial to UDP port 443 that the
/// configuration says to drop.
pub open spec fn drops_quic(block_quic: bool, data: Seq<u8>) -> bool {
    &&& block_quic
    &&& match spec_parse_ip_udp(data) {
        Some((_src, dst, off)) => dst.port == 443 && spec_parse_quic(data.subrange(off, data.len() as int)) is Some,
        None => false,
    }
}

/// For an IPv4/TCP packet that carries data: its connection, sequence
/// number, payload, IP header length and payload offset.
pub open spec fn tcp_data(data: Seq<u8>) -> Option<(ConnKey, u32, Seq<u8>, int, int)> {
    match spec_parse_ip_tcp(data) {
        Some((src, dst, off, ihl, _thl, seq, _ack)) => if payload_from(data, off).len() > 0 {
            Some((ConnKey { src, dst }, seq, payload_from(data, off), ihl, off))
        } else {
            None
        },
        None => None,
    }
}

/// Whether the strategy selector is consulted for this packet: a TCP data
/// packet that is not dropped, not a retransmit, and of a connection not
/// decided yet.
pub open spec fn reaches_selector(block_quic: bool, data: Seq<u8>, table: Map<ConnKey, NfqConnState>) -> bool {
    &&& !drops_quic(block_quic, data)
    &&& match tcp_data(data) {
        Some((key, seq, _p, _ihl, _off)) => !spec_is_retransmit(table, key, seq) && !(table.contains_key(key)
            && table[key].desync_applied),
        None => false,
    }
}

/// Whether the selector accepts every context of this payload.
pub open spec fn payload_admitted(sel: SelectorView, payload: Seq<u8>) -> bool {
    forall|ctx: PayloadContext|
        ctx.payload@ == payload && ctx.protocol@ == spec_detect(payload) ==> #[trigger] selector_admits(sel, &ctx)
}

/// The action a selector result stands for: an error counts as passing the
/// payload through.
pub open spec fn recorded_action(res: Result<DesyncAction, Error>) -> AppliedAction {
    match res {
        Ok(DesyncAction::Replace(_)) => AppliedAction::Replaced,
        _ => AppliedAction::PassThrough,
    }
}

/// The verdict for a selector result: a replaced payload is rebuilt into
/// the packet (accepted unchanged when that fails); every other action,
/// which this mode cannot carry out, lets the packet through.
pub open spec fn verdict_for(res: Result<DesyncAction, Error>, data: Seq<u8>, ihl: int, off: int, r: Verdict) -> bool {
    match res {
        Ok(DesyncAction::Replace(np)) => match spec_rebuild(data, ihl, off, np@) {
            Some(q) => r matches Verdict::Modify(v) && v@ == q,
            None => r is Accept,
        },
        _ => r is Accept,
    }
}

/// Decide the verdict for one intercepted packet, updating the connection
/// table: QUIC Initials to port 443 are dropped when configured; non-TCP
/// packets, packets without data, retransmits of the decided packet and
/// packets of decided connections are accepted; otherwise the selector's
/// action is applied as far as this mode can (payload replacement) and the
/// decision is recorded for the connection.
pub fn process_packet(
    packet: &InterceptedPacket,
    selector: &Selector,
    tracker: &mut ConnTracker,
    config: &NfqConfig,
) -> (r: Verdict)
    requires
        packet.data@.len() <= isize::MAX,
        reaches_selector(config.block_quic, packet.data@, old(tracker)@) ==> (tcp_data(packet.data@) matches Some(
            (_k, _s, p, _i, _o),
        ) && payload_admitted(selector@, p)),
    ensures
        final(tracker).max() == old(tracker).max(),
        drops_quic(config.block_quic, packet.data@) ==> r is Drop && final(tracker)@ == old(tracker)@,
        !drops_quic(config.block_quic, packet.data@) ==> match tcp_data(packet.data@) {
            None => r is Accept && final(tracker)@ == old(tracker)@,
            Some((key, seq, payload, ihl, off)) => if spec_is_retransmit(old(tracker)@, key, seq) {
                r is Accept && final(tracker)@ == old(tracker)@
            } else {
                exists|s: NfqConnState, mid: Map<ConnKey, NfqConnState>|
                    #[trigger] looked_up(old(tracker)@, old(tracker).max(), key, s, mid) && if s.desync_applied {
                        r is Accept && final(tracker)@ == mid
                    } else {
                        exists|ctx: PayloadContext, res: Result<DesyncAction, Error>, t: u64|
                            #[trigger] selector_result(selector@, &ctx, res) && ctx.payload@ == payload
                                && ctx.protocol@ == spec_detect(payload) && #[trigger] marked(
                                mid,
                                key,
                                seq,
                                recorded_action(res),
                                t,
                                final(tracker)@,
                            ) && verdict_for(res, packet.data@, ihl, off, r)
                    }
            },
        },
{
    let data = packet.data.as_slice();
    if config.block_quic {
        if let Some(udp) = parse_ip_udp(data) {
            if udp.dst_addr.port == 443 && parse_quic_initial(udp.payload).is_some() {
                return Verdict::Drop;
            }
        }
    }
    let parsed = match parse_ip_tcp(data) {
        Some(p) => p,
        None => return Verdict::Accept,
    };
    if parsed.payload.len() == 0 {
        return Verdict::Accept;
    }
    let conn_key = ConnKey { src: parsed.src_addr, dst: parsed.dst_addr };
    let seq = parsed.tcp_seq();
    if tracker.is_retransmit(&conn_key, seq) {
        return Verdict::Accept;
    }
    let ghost before = tracker@;
    let state = tracker.get_or_create(&conn_key);
    let ghost mid = tracker@;
    assert(looked_up(before, tracker.max(), conn_key, state, mid));
    if state.desync_applied {
        return Verdict::Accept;
    }
    let payload = crate::bytes::copy_range(parsed.payload, 0, parsed.payload.len());
    assert(parsed.payload@.subrange(0, parsed.payload@.len() as int) =~= parsed.payload@);
    let ctx = PayloadContext::new(payload);
    let result = selector.apply(&ctx);
    let ghost res = result;
    let action = match result {
        Ok(a) => a,
        Err(_) => DesyncAction::PassThrough,
    };
    let recorded = match &action {
        DesyncAction::Replace(_) => AppliedAction::Replaced,
        _ => AppliedAction::PassThrough,
    };
    assert(recorded == recorded_action(res));
    tracker.mark_applied(&conn_key, seq, recorded);
    let ghost t = choose|t: u64| marked(mid, conn_key, seq, recorded, t, tracker@);
    let r = match action {
        DesyncAction::Replace(new_payload) => match rebuild_packet(data, &parsed, new_payload.as_slice()) {
            Some(new_packet) => Verdict::Modify(new_packet),
            None => Verdict::Accept,
        },
        _ => Verdict::Accept,
    };
    assert(verdict_for(res, packet.data@, parsed.ip_header_len as int, parsed.payload_offset as int, r));
    assert(selector_result(selector@, &ctx, res) && marked(mid, conn_key, seq, recorded_action(res), t, tracker@));
    r
}

/// How many packets pass between two sweeps of expired connections.
pub const CLEANUP_EVERY: u64 = 1000;

/// Whether the connection table is due for a sweep of expired
/// connections after `processed` packets.
pub fn cleanup_due(processed: u64) -> (r: bool)
    ensures
        r == (processed % CLEANUP_EVERY == 0),
{
    processed % CLEANUP_EVERY == 0
}

} // verus!
