//! QUIC long-header parser: the destination and source connection IDs of an
//! Initial (or other long-header) packet, without decrypting anything.

use vstd::prelude::*;
use crate::types::{AppProtocol, AppProtocolView};
use crate::bytes::copy_range;

verus! {

/// QUIC version 1.
pub const QUIC_V1: u32 = 0x00000001;
/// QUIC version 2 (RFC 9369).
pub const QUIC_V2: u32 = 0x6b3343cf;

/// Big-endian 32-bit value stored at `s[i..i + 4]`.
pub open spec fn be32(s: Seq<u8>, i: int) -> int {
    s[i] as int * 16777216 + s[i + 1] as int * 65536 + s[i + 2] as int * 256 + s[i + 3] as int
}

/// What parsing a datagram as a QUIC long-header packet gives.
pub open spec fn spec_parse_quic(data: Seq<u8>) -> Option<AppProtocolView> {
    if data.len() < 7 || data[0] & 0x80 == 0 || data[0] & 0x40 == 0 {
        None
    } else if be32(data, 1) != QUIC_V1 && be32(data, 1) != QUIC_V2 {
        None
    } else {
        let dcid_len = data[5] as int;
        if dcid_len > 20 || data.len() < 7 + dcid_len {
            None
        } else {
            let scid_len = data[6 + dcid_len] as int;
            if scid_len > 20 || data.len() < 7 + dcid_len + scid_len {
                None
            } else {
                Some(AppProtocolView::QuicInitial {
                    dcid: data.subrange(6, 6 + dcid_len),
                    scid: data.subrange(7 + dcid_len, 7 + dcid_len + scid_len),
                })
            }
        }
    }
}

/// Try to parse a QUIC long-header packet.
///
/// Returns `Some(AppProtocol::QuicInitial { dcid, scid })` for a long header
/// with the fixed bit set, a known version and connection IDs of at most 20
/// bytes that fit in the data; `None` otherwise.
pub fn parse_quic_initial(data: &[u8]) -> (r: Option<AppProtocol>)
    ensures
        match spec_parse_quic(data@) {
            Some(p) => r is Some && r->0@ == p,
            None => r is None,
        },
{
    let len = data.len();
    if len < 7 {
        return None;
    }
    if data[0] & 0x80 == 0 {
        return None;
    }
    if data[0] & 0x40 == 0 {
        return None;
    }
    let version: u32 = (data[1] as u32) * 16777216 + (data[2] as u32) * 65536 + (data[3] as u32) * 256
        + (data[4] as u32);
    if version != QUIC_V1 && version != QUIC_V2 {
        return None;
    }
    let dcid_len = data[5] as usize;
    if dcid_len > 20 {
        return None;
    }
    if len < 6 + dcid_len + 1 {
        return None;
    }
    let dcid = copy_range(data, 6, 6 + dcid_len);
    let scid_len = data[6 + dcid_len] as usize;
    if scid_len > 20 {
        return None;
    }
    if len < 7 + dcid_len + scid_len {
        return None;
    }
    let scid = copy_range(data, 7 + dcid_len, 7 + dcid_len + scid_len);
    Some(AppProtocol::QuicInitial { dcid, scid })
}

} // verus!
