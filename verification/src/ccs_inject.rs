//! ChangeCipherSpec injection: a bare CCS record is sent in front of the
//! ClientHello. Servers ignore an early CCS; a DPI that tracks the
//! handshake state may stop inspecting.

use vstd::prelude::*;
use crate::types::{AppProtocolView, DesyncAction, DesyncActionView, Error, SplitPosition, StealthConfig};
use crate::context::PayloadContext;
use crate::technique::{gives, refused, Technique, TechniqueConfig};
use crate::bytes::lemma_bytes_deep_view;

verus! {

/// TLS content type of a handshake record.
pub const CONTENT_TYPE_HANDSHAKE: u8 = 0x16;
/// TLS content type of a ChangeCipherSpec record.
pub const CONTENT_TYPE_CCS: u8 = 0x14;
/// A ChangeCipherSpec record: type, version 3.3, length 1, message 1.
pub const CCS_RECORD: [u8; 6] = [0x14, 0x03, 0x03, 0x00, 0x01, 0x01];

/// The bytes of the CCS record.
pub open spec fn ccs_record_bytes() -> Seq<u8> {
    seq![0x14u8, 0x03, 0x03, 0x00, 0x01, 0x01]
}

/// Whether the context holds a ClientHello with SNI in a payload that
/// starts with a handshake record header.
pub open spec fn is_tls_handshake_with_sni(ctx: &PayloadContext) -> bool {
    &&& ctx.protocol@ matches AppProtocolView::TlsClientHello { sni: Some(_), .. }
    &&& ctx.payload@.len() >= 5
    &&& ctx.payload@[0] == CONTENT_TYPE_HANDSHAKE
}

/// The results CCS injection gives.
pub open spec fn ccs_inject_result(ctx: &PayloadContext, r: Result<DesyncAction, Error>) -> bool {
    if is_tls_handshake_with_sni(ctx) {
        gives(r, DesyncActionView::Split(seq![ccs_record_bytes(), ctx.payload@]))
    } else {
        refused(r)
    }
}

/// Send a CCS record before the ClientHello.
pub fn apply(ctx: &PayloadContext) -> (r: Result<DesyncAction, Error>)
    ensures
        ccs_inject_result(ctx, r),
{
    match &ctx.protocol {
        crate::types::AppProtocol::TlsClientHello { sni: Some(_), .. } => {},
        _ => return Err(Error::not_applicable("ccs_inject requires a TLS ClientHello with SNI")),
    }
    if ctx.payload.len() < 5 || ctx.payload[0] != CONTENT_TYPE_HANDSHAKE {
        return Err(Error::not_applicable("payload is not a TLS Handshake record"));
    }
    let ccs = vec![0x14u8, 0x03, 0x03, 0x00, 0x01, 0x01];
    let original = ctx.payload.clone();
    proof {
        lemma_bytes_deep_view(&ccs);
        lemma_bytes_deep_view(&original);
        assert(ccs@ =~= ccs_record_bytes());
    }
    let chunks = vec![ccs, original];
    assert(chunks.deep_view() =~= seq![ccs_record_bytes(), ctx.payload@]);
    Ok(DesyncAction::Split(chunks))
}

/// The CCS injection technique.
pub struct CcsInjectTechnique;

impl Technique for CcsInjectTechnique {
    open spec fn spec_name(&self) -> Seq<char> {
        seq!['c', 'c', 's', '_', 'i', 'n', 'j', 'e', 'c', 't']
    }

    open spec fn admits(&self, ctx: &PayloadContext, split_pos: &SplitPosition, config: &TechniqueConfig) -> bool {
        true
    }

    open spec fn outcome(
        &self,
        ctx: &PayloadContext,
        split_pos: &SplitPosition,
        config: &TechniqueConfig,
        stealth: Option<&StealthConfig>,
        r: Result<DesyncAction, Error>,
    ) -> bool {
        ccs_inject_result(ctx, r)
    }

    fn name(&self) -> (n: &'static str) {
        let n = "ccs_inject";
        proof {
            reveal_strlit("ccs_inject");
        }
        n
    }

    fn apply(
        &self,
        ctx: &PayloadContext,
        split_pos: &SplitPosition,
        config: &TechniqueConfig,
        stealth: Option<&StealthConfig>,
    ) -> (r: Result<DesyncAction, Error>) {
        apply(ctx)
    }
}

} // verus!
