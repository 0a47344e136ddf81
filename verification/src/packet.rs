//! Protocol detection over the three parsers, and the default split offset
//! a detection result suggests.

use vstd::prelude::*;
use crate::types::{AppProtocol, AppProtocolView};
use crate::tls::{parse_client_hello, spec_try_parse, ParseStatusView};
use crate::http::{parse_http_request, spec_parse_http};
use crate::quic::{parse_quic_initial, spec_parse_quic};

verus! {

/// The protocol a payload is detected as: a completed TLS ClientHello
/// first, then an HTTP request, then a QUIC long header.
pub open spec fn spec_detect(payload: Seq<u8>) -> AppProtocolView {
    match spec_try_parse(payload) {
        ParseStatusView::Complete(p) => p,
        _ => match spec_parse_http(payload) {
            Some(p) => p,
            None => match spec_parse_quic(payload) {
                Some(p) => p,
                None => AppProtocolView::Unknown,
            },
        },
    }
}

/// Detect the application-layer protocol of a complete TCP/UDP payload.
pub fn detect_protocol(payload: &[u8]) -> (r: AppProtocol)
    requires
        payload@.len() <= isize::MAX,
    ensures
        r@ == spec_detect(payload@),
{
    if let Some(proto) = parse_client_hello(payload) {
        return proto;
    }
    if let Some(proto) = parse_http_request(payload) {
        return proto;
    }
    if let Some(proto) = parse_quic_initial(payload) {
        return proto;
    }
    AppProtocol::Unknown
}

/// The split offset a detection result suggests: the SNI offset of a
/// ClientHello with an SNI, the Host value offset of a request with a Host.
pub open spec fn spec_default_split_offset(proto: AppProtocolView) -> Option<usize> {
    match proto {
        AppProtocolView::TlsClientHello { sni: Some(_), sni_offset, .. } => Some(sni_offset),
        AppProtocolView::HttpRequest { host: Some(_), host_offset, .. } => Some(host_offset),
        _ => None,
    }
}

/// Find the split position suggested by a protocol detection result.
pub fn default_split_offset(proto: &AppProtocol) -> (r: Option<usize>)
    ensures
        r == spec_default_split_offset(proto@),
{
    match proto {
        AppProtocol::TlsClientHello { sni_offset, sni: Some(_), .. } => Some(*sni_offset),
        AppProtocol::HttpRequest { host_offset, host: Some(_), .. } => Some(*host_offset),
        _ => None,
    }
}

} // verus!
