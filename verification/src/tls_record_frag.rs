//! TLS record fragmentation: the ClientHello's record is re-framed as two
//! TLS records cut at the split position, and whatever followed it is sent
//! after them unchanged. RFC 5246 §6.2.1 lets handshake
//! messages span records; a DPI that reads only the first record misses
//! the SNI.

use vstd::prelude::*;
use crate::types::{DesyncAction, DesyncActionView, Error, SplitPosition, StealthConfig};
use crate::context::{PayloadContext, resolves_to};
use crate::technique::{gives, refused, Technique, TechniqueConfig};
use crate::ccs_inject::{is_tls_handshake_with_sni, CONTENT_TYPE_HANDSHAKE};
use crate::bytes::{be16, be16_bytes, extend_range, read_be16};
use crate::multi_stream_frag::write_tls_record;

verus! {

/// A TLS handshake record with the given version bytes around `chunk`.
pub open spec fn tls_record(major: u8, minor: u8, chunk: Seq<u8>) -> Seq<u8> {
    seq![CONTENT_TYPE_HANDSHAKE, major, minor] + be16_bytes(chunk.len() as int) + chunk
}

/// Length of the first record's data, from its header.
pub open spec fn record_data_len(p: Seq<u8>) -> int {
    be16(p, 3)
}

/// `x` kept within `lo..=hi`.
pub open spec fn clamp(x: int, lo: int, hi: int) -> int {
    if x < lo {
        lo
    } else if x > hi {
        hi
    } else {
        x
    }
}

/// Offset within the record data at which the record is cut, for the
/// resolved payload offset `abs`.
pub open spec fn record_cut(abs: int, rdl: int) -> int {
    clamp(if abs > 5 { abs - 5 } else { 1 }, 1, rdl - 1)
}

/// The two records that replace the first record, cut at `cut`.
pub open spec fn two_records(p: Seq<u8>, cut: int) -> Seq<u8> {
    let rd = p.subrange(5, 5 + record_data_len(p));
    tls_record(p[1], p[2], rd.subrange(0, cut)) + tls_record(p[1], p[2], rd.subrange(cut, rd.len() as int))
}

/// What replaces the payload: the two records, then whatever followed the
/// first record, unchanged.
pub open spec fn refragmented(p: Seq<u8>, cut: int) -> Seq<u8> {
    two_records(p, cut) + p.subrange(5 + record_data_len(p), p.len() as int)
}

/// Whether the payload's first record is complete.
pub open spec fn first_record_complete(p: Seq<u8>) -> bool {
    5 + record_data_len(p) <= p.len()
}

/// The inputs on which fragmentation is defined: a record of at most one
/// data byte cannot be cut, so such a payload must leave the split position
/// unresolved.
pub open spec fn tls_frag_admits(ctx: &PayloadContext, split_pos: SplitPosition) -> bool {
    (is_tls_handshake_with_sni(ctx) && first_record_complete(ctx.payload@) && record_data_len(ctx.payload@) <= 1)
        ==> forall|o: Option<usize>| #[trigger] resolves_to(ctx.payload@.len() as int, ctx.protocol@, split_pos, o) ==> o is None
}

/// The results TLS record fragmentation may give.
pub open spec fn tls_frag_result(ctx: &PayloadContext, split_pos: SplitPosition, r: Result<DesyncAction, Error>) -> bool {
    if !is_tls_handshake_with_sni(ctx) || !first_record_complete(ctx.payload@) {
        refused(r)
    } else {
        exists|o: Option<usize>|
            #[trigger] resolves_to(ctx.payload@.len() as int, ctx.protocol@, split_pos, o) && match o {
                None => refused(r),
                Some(abs) => gives(
                    r,
                    DesyncActionView::Replace(refragmented(ctx.payload@, record_cut(abs as int, record_data_len(ctx.payload@)))),
                ),
            }
    }
}

/// Fragment the ClientHello's record into two records at the split
/// position.
pub fn apply(ctx: &PayloadContext, split_pos: &SplitPosition) -> (r: Result<DesyncAction, Error>)
    requires
        tls_frag_admits(ctx, *split_pos),
    ensures
        tls_frag_result(ctx, *split_pos, r),
{
    match &ctx.protocol {
        crate::types::AppProtocol::TlsClientHello { sni: Some(_), .. } => {},
        _ => return Err(Error::not_applicable("tls_record_frag requires a TLS ClientHello with SNI")),
    }
    let p = ctx.payload.as_slice();
    let len = p.len();
    if len < 5 || p[0] != CONTENT_TYPE_HANDSHAKE {
        return Err(Error::not_applicable("payload is not a TLS Handshake record"));
    }
    let version_major = p[1];
    let version_minor = p[2];
    let rdl = read_be16(p, 3);
    if len - 5 < rdl {
        return Err(Error::not_applicable("TLS record truncated"));
    }
    let abs_offset = match ctx.resolve_split_position(split_pos) {
        Some(o) => o,
        None => return Err(Error::not_applicable("cannot resolve split position for TLS record fragmentation")),
    };
    let data_offset = if abs_offset > 5 { abs_offset - 5 } else { 1 };
    let data_offset = if data_offset < 1 {
        1
    } else if data_offset > rdl - 1 {
        rdl - 1
    } else {
        data_offset
    };
    let mut combined: Vec<u8> = Vec::new();
    write_tls_record(&mut combined, version_major, version_minor, &p[5..5 + data_offset]);
    write_tls_record(&mut combined, version_major, version_minor, &p[5 + data_offset..5 + rdl]);
    let ghost records = combined@;
    extend_range(&mut combined, p, 5 + rdl, len);
    proof {
        let rd = p@.subrange(5, 5 + rdl as int);
        assert(rd.subrange(0, data_offset as int) =~= p@.subrange(5, 5 + data_offset as int));
        assert(rd.subrange(data_offset as int, rd.len() as int) =~= p@.subrange(5 + data_offset as int, 5 + rdl as int));
        assert(records =~= two_records(p@, data_offset as int));
        assert(combined@ =~= refragmented(p@, data_offset as int));
    }
    Ok(DesyncAction::Replace(combined))
}

/// The TLS record fragmentation technique.
pub struct TlsRecordFragTechnique;

impl Technique for TlsRecordFragTechnique {
    open spec fn spec_name(&self) -> Seq<char> {
        seq!['t', 'l', 's', '_', 'r', 'e', 'c', 'o', 'r', 'd', '_', 'f', 'r', 'a', 'g']
    }

    open spec fn admits(&self, ctx: &PayloadContext, split_pos: &SplitPosition, config: &TechniqueConfig) -> bool {
        tls_frag_admits(ctx, *split_pos)
    }

    open spec fn outcome(
        &self,
        ctx: &PayloadContext,
        split_pos: &SplitPosition,
        config: &TechniqueConfig,
        stealth: Option<&StealthConfig>,
        r: Result<DesyncAction, Error>,
    ) -> bool {
        tls_frag_result(ctx, *split_pos, r)
    }

    fn name(&self) -> (n: &'static str) {
        let n = "tls_record_frag";
        proof {
            reveal_strlit("tls_record_frag");
        }
        n
    }

    fn apply(
        &self,
        ctx: &PayloadContext,
        split_pos: &SplitPosition,
        config: &TechniqueConfig,
        stealth: Option<&StealthConfig>,
    ) -> (r: Result<DesyncAction, Error>) {
        apply(ctx, split_pos)
    }
}

} // verus!
