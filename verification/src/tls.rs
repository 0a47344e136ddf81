//! TLS ClientHello parser.
//!
//! Parses just enough of a TLS record to extract the SNI (Server Name
//! Indication) extension and its byte offset within the payload; the SNI
//! offset decides where the techniques split.
//!
//! Partial reads give `NeedMore` with the number of bytes needed, a
//! ClientHello carried by several handshake records is reassembled, and data
//! coalesced after the ClientHello is ignored.

use vstd::prelude::*;
use crate::types::{AppProtocol, AppProtocolView};
use crate::padding::be24_bytes;
use crate::bytes::{be16, be16_bytes, be24, read_be16, copy_range, extend_range, lossy_text, utf8_lossy_string};

verus! {

/// TLS content type of a handshake record.
pub const CONTENT_TYPE_HANDSHAKE: u8 = 0x16;
/// Handshake type of a ClientHello.
pub const HANDSHAKE_TYPE_CLIENT_HELLO: u8 = 0x01;
/// SNI extension type.
pub const EXTENSION_SNI: usize = 0x0000;
/// SNI host name type.
pub const SNI_TYPE_HOSTNAME: u8 = 0x00;
/// Largest first-record length accepted (16 KiB plus overhead).
pub const MAX_TLS_RECORD: usize = 18432;

/// Result of attempting to parse a TLS ClientHello.
#[derive(Debug, Clone, PartialEq, Eq)]
pub enum ParseStatus {
    /// Successfully parsed.
    Complete(AppProtocol),
    /// Looks like TLS but is incomplete; at least this many bytes are needed.
    NeedMore(usize),
    /// Not a TLS ClientHello.
    NotTls,
}

/// Mathematical view of [`ParseStatus`].
pub enum ParseStatusView {
    Complete(AppProtocolView),
    NeedMore(int),
    NotTls,
}

impl View for ParseStatus {
    type V = ParseStatusView;

    open spec fn view(&self) -> ParseStatusView {
        match self {
            ParseStatus::Complete(p) => ParseStatusView::Complete(p@),
            ParseStatus::NeedMore(n) => ParseStatusView::NeedMore(*n as int),
            ParseStatus::NotTls => ParseStatusView::NotTls,
        }
    }
}

/// Record-layer versions accepted: TLS 1.0 to 1.2.
pub open spec fn tls_version_ok(v: int) -> bool {
    0x0301 <= v <= 0x0303
}

/// A ClientHello without a (usable) SNI.
pub open spec fn no_sni() -> ParseStatusView {
    ParseStatusView::Complete(AppProtocolView::TlsClientHello { sni: None, sni_offset: 0, sni_len: 0 })
}

/// Prefix the bytes of a successful reassembly.
pub open spec fn chain(prefix: Seq<u8>, r: Result<Seq<u8>, int>) -> Result<Seq<u8>, int> {
    match r {
        Ok(s) => Ok(prefix + s),
        Err(n) => Err(n),
    }
}

/// Whether a continuation handshake record header starts at `pos`.
pub open spec fn continuation_at(data: Seq<u8>, pos: int) -> bool {
    0 <= pos && pos + 5 <= data.len() && data[pos] == CONTENT_TYPE_HANDSHAKE
        && tls_version_ok(be16(data, pos + 1))
}

/// Payloads of the handshake records that follow, from `scan` on: the
/// concatenated payloads, or `Err(n)` when a record is cut short and `n`
/// bytes are needed.
pub open spec fn continuation(data: Seq<u8>, scan: int) -> Result<Seq<u8>, int>
    decreases data.len() - scan,
{
    if continuation_at(data, scan) {
        let cont_end = scan + 5 + be16(data, scan + 3);
        if data.len() < cont_end {
            Err(cont_end)
        } else {
            chain(data.subrange(scan + 5, cont_end), continuation(data, cont_end))
        }
    } else {
        Ok(Seq::empty())
    }
}

/// Walk the entries of a server-name list from `pos`; `wire` is the offset
/// of the extension data within the payload.
pub open spec fn sni_entry(ext: Seq<u8>, pos: int, wire: int) -> ParseStatusView
    decreases ext.len() - pos,
{
    if 0 <= pos && pos + 3 <= ext.len() {
        let name_type = ext[pos];
        let name_len = be16(ext, pos + 1);
        let q = pos + 3;
        if q + name_len > ext.len() {
            no_sni()
        } else if name_type == SNI_TYPE_HOSTNAME {
            ParseStatusView::Complete(AppProtocolView::TlsClientHello {
                sni: Some(lossy_text(ext.subrange(q, q + name_len))),
                sni_offset: (wire + q) as usize,
                sni_len: name_len as usize,
            })
        } else {
            sni_entry(ext, q + name_len, wire)
        }
    } else {
        no_sni()
    }
}

/// The SNI extension's data: a 2-byte list length, then the entries.
pub open spec fn spec_parse_sni_ext(ext: Seq<u8>, wire: int) -> ParseStatusView {
    if ext.len() < 2 {
        no_sni()
    } else {
        sni_entry(ext, 2, wire)
    }
}

/// Walk the extensions in `hs[pos..end]` looking for SNI.
pub open spec fn find_sni_ext(hs: Seq<u8>, pos: int, end: int) -> ParseStatusView
    decreases end - pos,
{
    if 0 <= pos && pos + 4 <= end && end <= hs.len() {
        let ext_type = be16(hs, pos);
        let ext_len = be16(hs, pos + 2);
        let d = pos + 4;
        if d + ext_len > end {
            no_sni()
        } else if ext_type == EXTENSION_SNI {
            spec_parse_sni_ext(hs.subrange(d, d + ext_len), 5 + d)
        } else {
            find_sni_ext(hs, d + ext_len, end)
        }
    } else {
        no_sni()
    }
}

/// The extensions block of a ClientHello body starting at `p8`.
pub open spec fn spec_parse_extensions(hs: Seq<u8>, p8: int) -> ParseStatusView {
    if p8 + 2 > hs.len() {
        no_sni()
    } else {
        let ext_total = be16(hs, p8);
        let p9 = p8 + 2;
        if p9 + ext_total > hs.len() {
            ParseStatusView::NeedMore(5 + p9 + ext_total)
        } else {
            find_sni_ext(hs, p9, p9 + ext_total)
        }
    }
}

/// The ClientHello body after the 32-byte random, from the session ID on.
pub open spec fn spec_parse_hello_tail(hs: Seq<u8>) -> ParseStatusView {
    if 39 > hs.len() {
        ParseStatusView::NeedMore(44)
    } else {
        let sid_len = hs[38] as int;
        let p3: int = 39;
        if p3 + sid_len > hs.len() {
            ParseStatusView::NeedMore(5 + p3 + sid_len)
        } else {
            let p4 = p3 + sid_len;
            if p4 + 2 > hs.len() {
                ParseStatusView::NeedMore(5 + p4 + 2)
            } else {
                let cs_len = be16(hs, p4);
                let p5 = p4 + 2;
                if p5 + cs_len > hs.len() {
                    ParseStatusView::NeedMore(5 + p5 + cs_len)
                } else {
                    let p6 = p5 + cs_len;
                    if p6 + 1 > hs.len() {
                        ParseStatusView::NeedMore(5 + p6 + 1)
                    } else {
                        let cm_len = hs[p6] as int;
                        let p7 = p6 + 1;
                        if p7 + cm_len > hs.len() {
                            ParseStatusView::NeedMore(5 + p7 + cm_len)
                        } else {
                            spec_parse_extensions(hs, p7 + cm_len)
                        }
                    }
                }
            }
        }
    }
}

/// Parse of reassembled handshake bytes.
pub open spec fn spec_parse_handshake(hs: Seq<u8>) -> ParseStatusView {
    if hs.len() == 0 || hs[0] != HANDSHAKE_TYPE_CLIENT_HELLO {
        ParseStatusView::NotTls
    } else if hs.len() < 4 {
        ParseStatusView::NeedMore(9)
    } else if hs.len() < 4 + be24(hs, 1) {
        ParseStatusView::NeedMore(5 + 4 + be24(hs, 1))
    } else if 6 > hs.len() {
        ParseStatusView::NeedMore(11)
    } else if 38 > hs.len() {
        ParseStatusView::NeedMore(43)
    } else {
        spec_parse_hello_tail(hs)
    }
}

/// The parse of the reassembled handshake bytes, or `NeedMore` when a
/// record was cut short.
pub open spec fn parse_reassembled(r: Result<Seq<u8>, int>) -> ParseStatusView {
    match r {
        Err(n) => ParseStatusView::NeedMore(n),
        Ok(hs) => spec_parse_handshake(hs),
    }
}

/// What parsing a payload as a TLS ClientHello gives, with the SNI offset
/// counted as 5 plus its offset in the reassembled handshake bytes (its
/// offset in the payload when the ClientHello has a single record).
pub open spec fn spec_try_parse_hs(data: Seq<u8>) -> ParseStatusView {
    if data.len() < 5 {
        if data.len() > 0 && data[0] == CONTENT_TYPE_HANDSHAKE {
            ParseStatusView::NeedMore(5)
        } else {
            ParseStatusView::NotTls
        }
    } else if data[0] != CONTENT_TYPE_HANDSHAKE || !tls_version_ok(be16(data, 1)) {
        ParseStatusView::NotTls
    } else {
        let record_length = be16(data, 3);
        let record_end = 5 + record_length;
        if record_length == 0 || record_length > MAX_TLS_RECORD {
            ParseStatusView::NotTls
        } else if data.len() < record_end {
            ParseStatusView::NeedMore(record_end)
        } else {
            parse_reassembled(chain(data.subrange(5, record_end), continuation(data, record_end)))
        }
    }
}

/// Offset within `data` of byte `k` of the handshake bytes carried by the
/// record `data[rec_start..rec_end]` and the handshake records after it:
/// each record header before the byte counts.
pub open spec fn wire_offset(data: Seq<u8>, rec_start: int, rec_end: int, k: int) -> int
    decreases data.len() - rec_end,
{
    let len = rec_end - rec_start - 5;
    if k >= len && continuation_at(data, rec_end) && rec_end + 5 + be16(data, rec_end + 3) <= data.len() {
        wire_offset(data, rec_end, rec_end + 5 + be16(data, rec_end + 3), k - len)
    } else {
        rec_start + 5 + k
    }
}

/// The parse with the SNI offset moved to the SNI's byte offset in the
/// payload.
pub open spec fn relocated(data: Seq<u8>, s: ParseStatusView) -> ParseStatusView {
    match s {
        ParseStatusView::Complete(AppProtocolView::TlsClientHello { sni: Some(name), sni_offset, sni_len }) =>
            ParseStatusView::Complete(AppProtocolView::TlsClientHello {
                sni: Some(name),
                sni_offset: wire_offset(data, 0, 5 + be16(data, 3), sni_offset - 5) as usize,
                sni_len,
            }),
        _ => s,
    }
}

/// What parsing a payload as a TLS ClientHello gives; the SNI offset is the
/// byte offset of the SNI value within the payload, record headers
/// included.
pub open spec fn spec_try_parse(data: Seq<u8>) -> ParseStatusView {
    relocated(data, spec_try_parse_hs(data))
}

/// A parse result with the SNI offset left out.
pub open spec fn without_offset(s: ParseStatusView) -> ParseStatusView {
    match s {
        ParseStatusView::Complete(AppProtocolView::TlsClientHello { sni, sni_offset, sni_len }) =>
            ParseStatusView::Complete(AppProtocolView::TlsClientHello { sni, sni_offset: 0, sni_len }),
        _ => s,
    }
}

/// A ClientHello in a single record: the SNI offset is 5 plus its offset in
/// the handshake bytes.
pub proof fn lemma_single_record_offset(data: Seq<u8>)
    requires
        data.len() >= 5,
        !continuation_at(data, 5 + be16(data, 3)),
    ensures
        spec_try_parse(data) == spec_try_parse_hs(data),
{
}

proof fn lemma_continuation_len(data: Seq<u8>, scan: int)
    requires
        0 <= scan,
    ensures
        continuation(data, scan) matches Ok(s) ==> (s.len() == 0 || scan + s.len() <= data.len()),
    decreases data.len() - scan,
{
    if continuation_at(data, scan) {
        let cont_end = scan + 5 + be16(data, scan + 3);
        if data.len() >= cont_end {
            lemma_continuation_len(data, cont_end);
        }
    }
}

/// A completed parse that reports an SNI: the first record is complete and
/// the SNI's handshake offset lies within the payload.
proof fn lemma_hs_parse_bounds(data: Seq<u8>)
    requires
        data.len() <= isize::MAX,
    ensures
        spec_try_parse_hs(data) matches ParseStatusView::Complete(AppProtocolView::TlsClientHello { sni: Some(n), sni_offset, sni_len })
            ==> data.len() >= 5 && 5 + be16(data, 3) <= data.len() && 5 <= sni_offset && sni_offset - 5 + sni_len <= data.len(),
{
    if data.len() >= 5 && data[0] == CONTENT_TYPE_HANDSHAKE && tls_version_ok(be16(data, 1)) {
        let record_end = 5 + be16(data, 3);
        if record_end <= data.len() && 0 < be16(data, 3) <= MAX_TLS_RECORD {
            lemma_continuation_len(data, record_end);
            match continuation(data, record_end) {
                Ok(c) => {
                    let hs = data.subrange(5, record_end) + c;
                    handshake_locates_name(hs);
                },
                Err(_) => {},
            }
        }
    }
}

proof fn lemma_wire_offset_bound(data: Seq<u8>, rec_start: int, rec_end: int, k: int)
    requires
        0 <= rec_start,
        rec_start + 5 <= rec_end <= data.len(),
        0 <= k,
    ensures
        wire_offset(data, rec_start, rec_end, k) <= data.len() + 5 + k,
    decreases data.len() - rec_end,
{
    let len = rec_end - rec_start - 5;
    if k >= len && continuation_at(data, rec_end) && rec_end + 5 + be16(data, rec_end + 3) <= data.len() {
        lemma_wire_offset_bound(data, rec_end, rec_end + 5 + be16(data, rec_end + 3), k - len);
    }
}

/// The payload offset of handshake byte `k` (see `wire_offset`).
fn wire_offset_of(data: &[u8], first_end: usize, k: usize) -> (r: usize)
    requires
        data@.len() <= isize::MAX,
        5 <= first_end <= data@.len(),
        k <= data@.len(),
    ensures
        r == wire_offset(data@, 0, first_end as int, k as int),
{
    let len = data.len();
    let mut rs: usize = 0;
    let mut re: usize = first_end;
    let mut kk: usize = k;
    loop
        invariant
            len == data@.len(),
            len <= isize::MAX,
            rs + 5 <= re <= len,
            kk <= k <= len,
            wire_offset(data@, 0, first_end as int, k as int) == wire_offset(data@, rs as int, re as int, kk as int),
        decreases len - re,
    {
        let l = re - rs - 5;
        if kk >= l && continuation_header_at(data, re) {
            let cont_end = re + 5 + read_be16(data, re + 3);
            if cont_end <= len {
                rs = re;
                re = cont_end;
                kk = kk - l;
                continue;
            }
        }
        return rs + 5 + kk;
    }
}

fn continuation_header_at(data: &[u8], pos: usize) -> (r: bool)
    requires
        data@.len() <= isize::MAX,
    ensures
        r == continuation_at(data@, pos as int),
{
    if pos > data.len() || data.len() - pos < 5 {
        return false;
    }
    if data[pos] != CONTENT_TYPE_HANDSHAKE {
        return false;
    }
    let v = read_be16(data, pos + 1);
    0x0301 <= v && v <= 0x0303
}

fn tls_no_sni() -> (r: ParseStatus)
    ensures
        r@ == no_sni(),
{
    ParseStatus::Complete(AppProtocol::TlsClientHello { sni: None, sni_offset: 0, sni_len: 0 })
}

/// Attempt to parse a TLS ClientHello from the given payload.
///
/// Returns `Complete` if fully parsed, `NeedMore(n)` if the data looks like
/// TLS but is truncated (at least `n` bytes are needed), or `NotTls`. The
/// SNI offset is the SNI value's byte offset within the payload, counting
/// the header of every record before it.
pub fn try_parse_client_hello(data: &[u8]) -> (r: ParseStatus)
    requires
        data@.len() <= isize::MAX,
    ensures
        r@ == spec_try_parse(data@),
{
    let r = try_parse_hs(data);
    proof {
        lemma_hs_parse_bounds(data@);
    }
    match r {
        ParseStatus::Complete(AppProtocol::TlsClientHello { sni: Some(name), sni_offset, sni_len }) => {
            let first_end = 5 + read_be16(data, 3);
            let w = wire_offset_of(data, first_end, sni_offset - 5);
            ParseStatus::Complete(AppProtocol::TlsClientHello { sni: Some(name), sni_offset: w, sni_len })
        },
        other => other,
    }
}

/// The parse with the SNI offset taken in the reassembled handshake bytes.
fn try_parse_hs(data: &[u8]) -> (r: ParseStatus)
    requires
        data@.len() <= isize::MAX,
    ensures
        r@ == spec_try_parse_hs(data@),
{
    let len = data.len();
    if len < 5 {
        if len > 0 && data[0] == CONTENT_TYPE_HANDSHAKE {
            return ParseStatus::NeedMore(5);
        }
        return ParseStatus::NotTls;
    }
    if data[0] != CONTENT_TYPE_HANDSHAKE {
        return ParseStatus::NotTls;
    }
    let record_version = read_be16(data, 1);
    if !(0x0301 <= record_version && record_version <= 0x0303) {
        return ParseStatus::NotTls;
    }
    let record_length = read_be16(data, 3);
    if record_length == 0 || record_length > MAX_TLS_RECORD {
        return ParseStatus::NotTls;
    }
    let record_end = 5 + record_length;
    if len < record_end {
        return ParseStatus::NeedMore(record_end);
    }
    let mut total_handshake = copy_range(data, 5, record_end);
    let mut scan_pos = record_end;
    let ghost target = chain(data@.subrange(5, record_end as int), continuation(data@, record_end as int));
    assert(spec_try_parse_hs(data@) == parse_reassembled(target));
    while continuation_header_at(data, scan_pos)
        invariant
            len == data@.len(),
            len <= isize::MAX,
            record_end <= scan_pos <= len,
            total_handshake@.len() <= scan_pos,
            spec_try_parse_hs(data@) == parse_reassembled(target),
            target == chain(total_handshake@, continuation(data@, scan_pos as int)),
        decreases len - scan_pos,
    {
        let cont_len = read_be16(data, scan_pos + 3);
        let cont_end = scan_pos + 5 + cont_len;
        if len < cont_end {
            return ParseStatus::NeedMore(cont_end);
        }
        let ghost before = total_handshake@;
        let ghost piece = data@.subrange(scan_pos + 5, cont_end as int);
        extend_range(&mut total_handshake, data, scan_pos + 5, cont_end);
        proof {
            let rest = continuation(data@, cont_end as int);
            match rest {
                Ok(s) => {
                    assert(before + (piece + s) =~= (before + piece) + s);
                },
                Err(_) => {},
            }
        }
        scan_pos = cont_end;
    }
    proof {
        assert(total_handshake@ + Seq::<u8>::empty() =~= total_handshake@);
    }
    parse_handshake(total_handshake.as_slice())
}

/// Parse reassembled handshake data.
fn parse_handshake(handshake: &[u8]) -> (r: ParseStatus)
    requires
        handshake@.len() <= isize::MAX,
    ensures
        r@ == spec_parse_handshake(handshake@),
{
    let hlen = handshake.len();
    if hlen == 0 || handshake[0] != HANDSHAKE_TYPE_CLIENT_HELLO {
        return ParseStatus::NotTls;
    }
    if hlen < 4 {
        return ParseStatus::NeedMore(5 + 4);
    }
    let hs_length = (handshake[1] as usize) * 65536 + (handshake[2] as usize) * 256
        + (handshake[3] as usize);
    let needed_handshake = 4 + hs_length;
    if hlen < needed_handshake {
        return ParseStatus::NeedMore(5 + needed_handshake);
    }
    let mut pos: usize = 4;
    if pos + 2 > hlen {
        return ParseStatus::NeedMore(5 + pos + 2);
    }
    pos += 2;
    if pos + 32 > hlen {
        return ParseStatus::NeedMore(5 + pos + 32);
    }
    pos += 32;
    if pos + 1 > hlen {
        return ParseStatus::NeedMore(5 + pos + 1);
    }
    let session_id_len = handshake[pos] as usize;
    pos += 1;
    if pos + session_id_len > hlen {
        return ParseStatus::NeedMore(5 + pos + session_id_len);
    }
    pos += session_id_len;
    if pos + 2 > hlen {
        return ParseStatus::NeedMore(5 + pos + 2);
    }
    let cipher_suites_len = read_be16(handshake, pos);
    pos += 2;
    if pos + cipher_suites_len > hlen {
        return ParseStatus::NeedMore(5 + pos + cipher_suites_len);
    }
    pos += cipher_suites_len;
    if pos + 1 > hlen {
        return ParseStatus::NeedMore(5 + pos + 1);
    }
    let comp_methods_len = handshake[pos] as usize;
    pos += 1;
    if pos + comp_methods_len > hlen {
        return ParseStatus::NeedMore(5 + pos + comp_methods_len);
    }
    pos += comp_methods_len;
    if pos + 2 > hlen {
        return tls_no_sni();
    }
    let extensions_len = read_be16(handshake, pos);
    pos += 2;
    if pos + extensions_len > hlen {
        return ParseStatus::NeedMore(5 + pos + extensions_len);
    }
    let extensions_end = pos + extensions_len;
    let ghost target = find_sni_ext(handshake@, pos as int, extensions_end as int);
    assert(spec_parse_handshake(handshake@) == target);
    while pos + 4 <= extensions_end
        invariant
            spec_parse_handshake(handshake@) == target,
            hlen == handshake@.len(),
            hlen <= isize::MAX,
            pos <= extensions_end <= hlen,
            target == find_sni_ext(handshake@, pos as int, extensions_end as int),
        decreases extensions_end - pos,
    {
        let ext_type = read_be16(handshake, pos);
        let ext_len = read_be16(handshake, pos + 2);
        pos += 4;
        if pos + ext_len > extensions_end {
            return tls_no_sni();
        }
        if ext_type == EXTENSION_SNI {
            return parse_sni_extension(&handshake[pos..pos + ext_len], 5 + pos);
        }
        pos += ext_len;
    }
    tls_no_sni()
}

/// Parse the SNI extension payload; `wire_offset` is the offset of the
/// extension data within the original payload.
fn parse_sni_extension(ext_data: &[u8], wire_offset: usize) -> (r: ParseStatus)
    requires
        ext_data@.len() < 65536,
        wire_offset <= isize::MAX + 65536,
    ensures
        r@ == spec_parse_sni_ext(ext_data@, wire_offset as int),
{
    let elen = ext_data.len();
    if elen < 2 {
        return tls_no_sni();
    }
    let mut pos: usize = 2;
    while pos + 3 <= elen
        invariant
            elen == ext_data@.len(),
            elen < 65536,
            wire_offset <= isize::MAX + 65536,
            2 <= pos <= elen,
            spec_parse_sni_ext(ext_data@, wire_offset as int) == sni_entry(ext_data@, pos as int, wire_offset as int),
        decreases elen - pos,
    {
        let name_type = ext_data[pos];
        let name_len = read_be16(ext_data, pos + 1);
        pos += 3;
        if pos + name_len > elen {
            return tls_no_sni();
        }
        if name_type == SNI_TYPE_HOSTNAME {
            let name_bytes = &ext_data[pos..pos + name_len];
            let sni = utf8_lossy_string(name_bytes);
            return ParseStatus::Complete(AppProtocol::TlsClientHello {
                sni: Some(sni),
                sni_offset: wire_offset + pos,
                sni_len: name_len,
            });
        }
        pos += name_len;
    }
    tls_no_sni()
}

/// Parse and return the protocol, or `None` unless the parse completed.
pub fn parse_client_hello(data: &[u8]) -> (r: Option<AppProtocol>)
    requires
        data@.len() <= isize::MAX,
    ensures
        match spec_try_parse(data@) {
            ParseStatusView::Complete(p) => r is Some && r->0@ == p,
            _ => r is None,
        },
{
    match try_parse_client_hello(data) {
        ParseStatus::Complete(proto) => Some(proto),
        _ => None,
    }
}

proof fn sni_entry_locates_name(ext: Seq<u8>, pos: int, wire: int)
    requires
        0 <= pos,
        0 <= wire,
        wire + ext.len() <= usize::MAX,
    ensures
        match sni_entry(ext, pos, wire) {
            ParseStatusView::Complete(AppProtocolView::TlsClientHello { sni: Some(s), sni_offset, sni_len }) => {
                let q = sni_offset - wire;
                &&& 0 <= q
                &&& q + sni_len <= ext.len()
                &&& s == lossy_text(ext.subrange(q, q + sni_len))
            },
            ParseStatusView::Complete(AppProtocolView::TlsClientHello { sni: None, .. }) => true,
            _ => false,
        },
    decreases ext.len() - pos,
{
    if pos + 3 <= ext.len() {
        let name_len = be16(ext, pos + 1);
        let q = pos + 3;
        if q + name_len <= ext.len() && ext[pos] != SNI_TYPE_HOSTNAME {
            sni_entry_locates_name(ext, q + name_len, wire);
        }
    }
}

proof fn find_sni_ext_locates_name(hs: Seq<u8>, pos: int, end: int)
    requires
        0 <= pos,
        hs.len() + 5 <= usize::MAX,
    ensures
        match find_sni_ext(hs, pos, end) {
            ParseStatusView::Complete(AppProtocolView::TlsClientHello { sni: Some(s), sni_offset, sni_len }) => {
                let k = sni_offset - 5;
                &&& 0 <= k
                &&& k + sni_len <= end
                &&& s == lossy_text(hs.subrange(k, k + sni_len))
            },
            ParseStatusView::Complete(AppProtocolView::TlsClientHello { sni: None, .. }) => true,
            _ => false,
        },
    decreases end - pos,
{
    if pos + 4 <= end && end <= hs.len() {
        let ext_len = be16(hs, pos + 2);
        let d = pos + 4;
        if d + ext_len <= end {
            if be16(hs, pos) == EXTENSION_SNI {
                let ext = hs.subrange(d, d + ext_len);
                if ext.len() >= 2 {
                    sni_entry_locates_name(ext, 2, 5 + d);
                    match sni_entry(ext, 2, 5 + d) {
                        ParseStatusView::Complete(AppProtocolView::TlsClientHello { sni: Some(s), sni_offset, sni_len }) => {
                            let q = sni_offset - (5 + d);
                            assert(ext.subrange(q, q + sni_len) =~= hs.subrange(d + q, d + q + sni_len));
                        },
                        _ => {},
                    }
                }
            } else {
                find_sni_ext_locates_name(hs, d + ext_len, end);
            }
        }
    }
}

proof fn handshake_locates_name(hs: Seq<u8>)
    requires
        hs.len() + 5 <= usize::MAX,
    ensures
        match spec_parse_handshake(hs) {
            ParseStatusView::Complete(AppProtocolView::TlsClientHello { sni: Some(s), sni_offset, sni_len }) => {
                let k = sni_offset - 5;
                &&& 0 <= k
                &&& k + sni_len <= hs.len()
                &&& s == lossy_text(hs.subrange(k, k + sni_len))
            },
            ParseStatusView::Complete(AppProtocolView::TlsClientHello { sni: None, .. }) => true,
            ParseStatusView::NeedMore(n) => n > 5 + hs.len(),
            ParseStatusView::NotTls => true,
            _ => false,
        },
{
    if hs.len() >= 39 && hs[0] == HANDSHAKE_TYPE_CLIENT_HELLO && hs.len() >= 4 + be24(hs, 1) {
        let sid_len = hs[38] as int;
        let p4 = 39 + sid_len;
        if p4 + 2 <= hs.len() {
            let p5 = p4 + 2;
            let p6 = p5 + be16(hs, p4);
            if p6 + 1 <= hs.len() {
                let p8 = p6 + 1 + hs[p6] as int;
                if p8 + 2 <= hs.len() {
                    let p9 = p8 + 2;
                    find_sni_ext_locates_name(hs, p9, p9 + be16(hs, p8));
                }
            }
        }
    }
}

/// When the ClientHello travels in a single handshake record, a completed
/// parse that reports an SNI locates it in the payload: the bytes at
/// `sni_offset .. sni_offset + sni_len` lie in the record and the SNI is their
/// decoding.
pub proof fn lemma_sni_offset_locates_name(data: Seq<u8>)
    requires
        data.len() <= isize::MAX,
        data.len() >= 5,
        !continuation_at(data, 5 + be16(data, 3)),
    ensures
        match spec_try_parse(data) {
            ParseStatusView::Complete(AppProtocolView::TlsClientHello { sni: Some(s), sni_offset, sni_len }) => {
                &&& sni_offset + sni_len <= 5 + be16(data, 3) <= data.len()
                &&& s == lossy_text(data.subrange(sni_offset as int, sni_offset + sni_len))
            },
            _ => true,
        },
{
    lemma_single_record_offset(data);
    let record_end = 5 + be16(data, 3);
    if record_end <= data.len() {
        let hs = data.subrange(5, record_end);
        assert(hs + Seq::<u8>::empty() =~= hs);
        handshake_locates_name(hs);
        match spec_parse_handshake(hs) {
            ParseStatusView::Complete(AppProtocolView::TlsClientHello { sni: Some(s), sni_offset, sni_len }) => {
                let k = sni_offset - 5;
                assert(hs.subrange(k, k + sni_len) =~= data.subrange(sni_offset as int, sni_offset + sni_len));
            },
            _ => {},
        }
    }
}

/// An extension as the wire writes it: type, data length, data.
pub open spec fn wire_extension(ext_type: u16, data: Seq<u8>) -> Seq<u8> {
    be16_bytes(ext_type as int) + be16_bytes(data.len() as int) + data
}

/// Extensions one after another.
pub open spec fn wire_extensions(exts: Seq<(u16, Seq<u8>)>) -> Seq<u8>
    decreases exts.len(),
{
    if exts.len() == 0 {
        Seq::empty()
    } else {
        wire_extension(exts[0].0, exts[0].1) + wire_extensions(exts.drop_first())
    }
}

/// The data of a server_name extension naming one host: the list length,
/// the host-name type (0), the name length and the name.
pub open spec fn server_name_data(name: Seq<u8>) -> Seq<u8> {
    be16_bytes(name.len() as int + 3) + seq![0u8] + be16_bytes(name.len() as int) + name
}

/// The extensions block: `others`, the server_name extension for `name`,
/// then `after`.
pub open spec fn hello_extensions(others: Seq<(u16, Seq<u8>)>, name: Seq<u8>, after: Seq<(u16, Seq<u8>)>) -> Seq<u8> {
    wire_extensions(others) + wire_extension(0, server_name_data(name)) + wire_extensions(after)
}

/// A ClientHello body: client version, random, session id, cipher suites,
/// compression methods (each list after its length), then the extensions
/// after their total length.
pub open spec fn hello_body(cv: Seq<u8>, random: Seq<u8>, sid: Seq<u8>, cs: Seq<u8>, comp: Seq<u8>, exts: Seq<u8>) -> Seq<u8> {
    cv + random + seq![sid.len() as u8] + sid + be16_bytes(cs.len() as int) + cs + seq![comp.len() as u8] + comp
        + be16_bytes(exts.len() as int) + exts
}

/// The ClientHello handshake message carrying `body`.
pub open spec fn client_hello_message(body: Seq<u8>) -> Seq<u8> {
    seq![HANDSHAKE_TYPE_CLIENT_HELLO] + be24_bytes(body.len() as int) + body
}

/// One TLS 1.0 handshake record carrying `hs`.
pub open spec fn handshake_record(hs: Seq<u8>) -> Seq<u8> {
    seq![CONTENT_TYPE_HANDSHAKE, 3u8, 1u8] + be16_bytes(hs.len() as int) + hs
}

/// A ClientHello in one TLS 1.0 handshake record.
pub open spec fn single_record_hello(cv: Seq<u8>, random: Seq<u8>, sid: Seq<u8>, cs: Seq<u8>, comp: Seq<u8>, exts: Seq<u8>) -> Seq<u8> {
    handshake_record(client_hello_message(hello_body(cv, random, sid, cs, comp, exts)))
}

/// Whether each extension's data fits its 16-bit length.
pub open spec fn extensions_fit(exts: Seq<(u16, Seq<u8>)>) -> bool {
    forall|i: int| 0 <= i < exts.len() ==> (#[trigger] exts[i]).1.len() < 65536
}

proof fn lemma_be16_roundtrip(x: int)
    requires
        0 <= x < 65536,
    ensures
        be16(be16_bytes(x), 0) == x,
{
}

/// Walking past extensions of types other than server_name lands on what
/// follows them.
proof fn lemma_find_past_others(hs: Seq<u8>, pos: int, end: int, others: Seq<(u16, Seq<u8>)>)
    requires
        0 <= pos,
        pos + wire_extensions(others).len() <= end <= hs.len(),
        hs.subrange(pos, pos + wire_extensions(others).len()) == wire_extensions(others),
        extensions_fit(others),
        forall|i: int| 0 <= i < others.len() ==> (#[trigger] others[i]).0 != 0,
    ensures
        find_sni_ext(hs, pos, end) == find_sni_ext(hs, pos + wire_extensions(others).len(), end),
    decreases others.len(),
{
    if others.len() > 0 {
        let (t, d) = others[0];
        assert(d.len() < 65536 && t != 0);
        let w = wire_extension(t, d);
        let rest = others.drop_first();
        assert(wire_extensions(others) == w + wire_extensions(rest));
        let wl = w.len() as int;
        assert forall|k: int| 0 <= k < wl implies hs[pos + k] == #[trigger] w[k] by {
            assert(hs.subrange(pos, pos + wire_extensions(others).len())[k] == wire_extensions(others)[k]);
        }
        lemma_be16_roundtrip(t as int);
        lemma_be16_roundtrip(d.len() as int);
        assert(be16(hs, pos) == be16(be16_bytes(t as int), 0)) by {
            assert(hs[pos] == w[0]);
            assert(hs[pos + 1] == w[1]);
        }
        assert(be16(hs, pos + 2) == be16(be16_bytes(d.len() as int), 0)) by {
            assert(hs[pos + 2] == w[2]);
            assert(hs[pos + 3] == w[3]);
        }
        assert forall|i: int| 0 <= i < rest.len() implies (#[trigger] rest[i]).0 != 0 && rest[i].1.len() < 65536 by {
            assert(rest[i] == others[i + 1]);
        }
        let np = pos + wl;
        assert(hs.subrange(np, np + wire_extensions(rest).len()) =~= wire_extensions(rest)) by {
            assert forall|k: int| 0 <= k < wire_extensions(rest).len() implies hs[np + k] == wire_extensions(rest)[k] by {
                assert(hs.subrange(pos, pos + wire_extensions(others).len())[wl + k] == wire_extensions(others)[wl + k]);
            }
        }
        lemma_find_past_others(hs, np, end, rest);
    }
}

/// A payload of one TLS 1.0 handshake record parses as its handshake bytes.
proof fn lemma_handshake_record_parse(hs: Seq<u8>)
    requires
        0 < hs.len() <= MAX_TLS_RECORD,
    ensures
        spec_try_parse(handshake_record(hs)) == spec_parse_handshake(hs),
        handshake_record(hs).subrange(5, 5 + hs.len() as int) == hs,
{
    let p = handshake_record(hs);
    let hl = hs.len() as int;
    assert(p.len() == 5 + hl);
    lemma_be16_roundtrip(hl);
    assert(be16(p, 3) == hl) by {
        assert(p[3] == be16_bytes(hl)[0]);
        assert(p[4] == be16_bytes(hl)[1]);
    }
    assert(be16(p, 1) == 0x0301) by {
        assert(p[1] == 3u8 && p[2] == 1u8);
    }
    assert(!continuation_at(p, 5 + be16(p, 3)));
    lemma_single_record_offset(p);
    assert(p.subrange(5, 5 + hl) =~= hs);
    assert(continuation(p, 5 + hl) == Ok::<Seq<u8>, int>(Seq::empty()));
    assert(hs + Seq::<u8>::empty() =~= hs);
}

/// A ClientHello message whose length fields agree with its size parses as
/// the walk over its extensions block.
proof fn lemma_hello_walk(hs: Seq<u8>, p4: int, p6: int, p8: int)
    requires
        hs.len() >= 39,
        hs[0] == HANDSHAKE_TYPE_CLIENT_HELLO,
        be24(hs, 1) == hs.len() - 4,
        p4 == 39 + hs[38] as int,
        p6 == p4 + 2 + be16(hs, p4),
        p6 < hs.len(),
        p8 == p6 + 1 + hs[p6] as int,
        p8 + 2 + be16(hs, p8) == hs.len(),
    ensures
        spec_parse_handshake(hs) == find_sni_ext(hs, p8 + 2, hs.len() as int),
{
}

/// Where the fields of a ClientHello message lie.
#[verifier::rlimit(60)]
proof fn lemma_hello_layout(cv: Seq<u8>, random: Seq<u8>, sid: Seq<u8>, cs: Seq<u8>, comp: Seq<u8>, exts: Seq<u8>)
    requires
        cv.len() == 2,
        random.len() == 32,
        sid.len() < 256,
        cs.len() < 65536,
        comp.len() < 256,
        exts.len() < 65536,
        hello_body(cv, random, sid, cs, comp, exts).len() < 65536,
    ensures
        ({
            let hs = client_hello_message(hello_body(cv, random, sid, cs, comp, exts));
            let p4: int = 39 + sid.len() as int;
            let p6: int = p4 + 2 + cs.len() as int;
            let p8: int = p6 + 1 + comp.len() as int;
            &&& hs.len() == p8 + 2 + exts.len()
            &&& hs[0] == HANDSHAKE_TYPE_CLIENT_HELLO
            &&& be24(hs, 1) == hs.len() - 4
            &&& hs[38] == sid.len()
            &&& be16(hs, p4) == cs.len()
            &&& hs[p6] == comp.len()
            &&& be16(hs, p8) == exts.len()
            &&& hs.subrange(p8 + 2, hs.len() as int) == exts
        }),
{
    let body = hello_body(cv, random, sid, cs, comp, exts);
    let hs = client_hello_message(body);
    let bl = body.len() as int;
    let hl = hs.len() as int;
    assert(be24(hs, 1) == bl) by {
        assert(hs[1] == be24_bytes(bl)[0]);
        assert(hs[2] == be24_bytes(bl)[1]);
        assert(hs[3] == be24_bytes(bl)[2]);
    }
    let sl = sid.len() as int;
    let csl = cs.len() as int;
    let cl = comp.len() as int;
    let el = exts.len() as int;
    let p4 = 39 + sl;
    let p6 = p4 + 2 + csl;
    let p8 = p6 + 1 + cl;
    let p9 = p8 + 2;
    assert forall|k: int| 0 <= k < bl implies hs[4 + k] == #[trigger] body[k] by {
        assert(hs == seq![HANDSHAKE_TYPE_CLIENT_HELLO] + be24_bytes(bl) + body);
    }
    let a1 = cv + random + seq![sl as u8];
    let a2 = a1 + sid + be16_bytes(csl);
    let a3 = a2 + cs + seq![cl as u8];
    let a4 = a3 + comp + be16_bytes(el);
    assert(body == a4 + exts);
    assert(body[34] == a1[34]);
    assert(hs[38] == sl);
    lemma_be16_roundtrip(csl);
    assert(body[p4 - 4] == a2[p4 - 4] && body[p4 - 3] == a2[p4 - 3]);
    assert(be16(hs, p4) == csl) by {
        assert(hs[p4] == body[p4 - 4]);
        assert(hs[p4 + 1] == body[p4 - 3]);
        assert(a2[p4 - 4] == be16_bytes(csl)[0]);
        assert(a2[p4 - 3] == be16_bytes(csl)[1]);
    }
    assert(hs[p6] == cl) by {
        assert(hs[p6] == body[p6 - 4]);
        assert(body[p6 - 4] == a3[p6 - 4]);
    }
    lemma_be16_roundtrip(el);
    assert(be16(hs, p8) == el) by {
        assert(hs[p8] == body[p8 - 4]);
        assert(hs[p8 + 1] == body[p8 - 3]);
        assert(body[p8 - 4] == a4[p8 - 4]);
        assert(body[p8 - 3] == a4[p8 - 3]);
        assert(a4[p8 - 4] == be16_bytes(el)[0]);
        assert(a4[p8 - 3] == be16_bytes(el)[1]);
    }
    assert(hs.subrange(p9, hl) =~= exts) by {
        assert forall|k: int| 0 <= k < el implies hs.subrange(p9, hl)[k] == exts[k] by {
            assert(hs[p9 + k] == body[p9 - 4 + k]);
        }
    }
}

/// A server_name extension naming one host, met by the extension walk, is
/// what the walk gives: the name, its length, and 5 plus its offset.
proof fn lemma_server_name_found(hs: Seq<u8>, q: int, end: int, name: Seq<u8>)
    requires
        0 <= q,
        q + name.len() + 9 <= end <= hs.len(),
        name.len() + 5 < 65536,
        hs.subrange(q, q + name.len() + 9) == wire_extension(0, server_name_data(name)),
    ensures
        find_sni_ext(hs, q, end) == ParseStatusView::Complete(AppProtocolView::TlsClientHello {
            sni: Some(lossy_text(name)),
            sni_offset: (5 + q + 9) as usize,
            sni_len: name.len() as usize,
        }),
        hs.subrange(q + 9, q + 9 + name.len()) == name,
{
    let sd = server_name_data(name);
    let se = wire_extension(0, sd);
    let nl = name.len() as int;
    assert(sd.len() == nl + 5);
    assert forall|k: int| 0 <= k < se.len() implies hs[q + k] == #[trigger] se[k] by {
        assert(hs.subrange(q, q + nl + 9)[k] == se[k]);
    }
    lemma_be16_roundtrip(0);
    lemma_be16_roundtrip(nl + 5);
    assert(be16(hs, q) == 0) by {
        assert(hs[q] == se[0]);
        assert(hs[q + 1] == se[1]);
    }
    assert(be16(hs, q + 2) == nl + 5) by {
        assert(hs[q + 2] == se[2]);
        assert(hs[q + 3] == se[3]);
    }
    let d = q + 4;
    let ext = hs.subrange(d, d + nl + 5);
    assert(ext =~= sd) by {
        assert forall|k: int| 0 <= k < nl + 5 implies ext[k] == sd[k] by {
            assert(hs[q + 4 + k] == se[4 + k]);
        }
    }
    lemma_be16_roundtrip(nl);
    assert(ext[2] == 0u8);
    assert(be16(ext, 3) == nl) by {
        assert(ext[3] == be16_bytes(nl)[0]);
        assert(ext[4] == be16_bytes(nl)[1]);
    }
    assert(ext.subrange(5, 5 + nl) =~= name);
    assert(find_sni_ext(hs, q, end) == spec_parse_sni_ext(ext, 5 + d));
    assert(hs.subrange(q + 9, q + 9 + nl) =~= name) by {
        assert forall|k: int| 0 <= k < nl implies hs.subrange(q + 9, q + 9 + nl)[k] == name[k] by {
            assert(hs[q + 9 + k] == se[9 + k]);
        }
    }
}

/// The extension walk over a block of other extensions, then a
/// server_name extension, then more, finds the name.
proof fn lemma_walk_finds_server_name(
    hs: Seq<u8>,
    p9: int,
    others: Seq<(u16, Seq<u8>)>,
    name: Seq<u8>,
    after: Seq<(u16, Seq<u8>)>,
)
    requires
        0 <= p9,
        p9 + hello_extensions(others, name, after).len() == hs.len(),
        hs.subrange(p9, hs.len() as int) == hello_extensions(others, name, after),
        extensions_fit(others),
        forall|i: int| 0 <= i < others.len() ==> (#[trigger] others[i]).0 != 0,
        name.len() + 5 < 65536,
    ensures
        ({
            let q = p9 + wire_extensions(others).len();
            &&& find_sni_ext(hs, p9, hs.len() as int) == ParseStatusView::Complete(AppProtocolView::TlsClientHello {
                sni: Some(lossy_text(name)),
                sni_offset: (5 + q + 9) as usize,
                sni_len: name.len() as usize,
            })
            &&& hs.subrange(q + 9, q + 9 + name.len()) == name
        }),
{
    let exts = hello_extensions(others, name, after);
    let el = exts.len() as int;
    let ol = wire_extensions(others).len() as int;
    let se = wire_extension(0, server_name_data(name));
    let nl = name.len() as int;
    assert(se.len() == nl + 9);
    assert(hs.subrange(p9, p9 + ol) =~= wire_extensions(others)) by {
        assert forall|k: int| 0 <= k < ol implies hs.subrange(p9, p9 + ol)[k] == wire_extensions(others)[k] by {
            assert(hs.subrange(p9, p9 + el)[k] == exts[k]);
        }
    }
    lemma_find_past_others(hs, p9, p9 + el, others);
    let q = p9 + ol;
    assert(hs.subrange(q, q + nl + 9) =~= se) by {
        assert forall|k: int| 0 <= k < nl + 9 implies hs.subrange(q, q + nl + 9)[k] == se[k] by {
            assert(hs.subrange(p9, p9 + el)[ol + k] == exts[ol + k]);
        }
    }
    lemma_server_name_found(hs, q, p9 + el, name);
}

/// Law: in a single-record ClientHello whose extensions are well formed,
/// a server_name extension naming one host, after any number of
/// extensions of other types, is found: the parse is complete with that
/// host name (decoded as `String::from_utf8_lossy` does), its length, and
/// the offset where the payload holds the name.
#[verifier::rlimit(60)]
pub proof fn lemma_sni_found_after_other_extensions(
    cv: Seq<u8>,
    random: Seq<u8>,
    sid: Seq<u8>,
    cs: Seq<u8>,
    comp: Seq<u8>,
    others: Seq<(u16, Seq<u8>)>,
    name: Seq<u8>,
    after: Seq<(u16, Seq<u8>)>,
)
    requires
        cv.len() == 2,
        random.len() == 32,
        sid.len() < 256,
        cs.len() < 65536,
        comp.len() < 256,
        extensions_fit(others),
        forall|i: int| 0 <= i < others.len() ==> (#[trigger] others[i]).0 != 0,
        extensions_fit(after),
        name.len() + 5 < 65536,
        single_record_hello(cv, random, sid, cs, comp, hello_extensions(others, name, after)).len() - 5
            <= MAX_TLS_RECORD,
    ensures
        ({
            let p = single_record_hello(cv, random, sid, cs, comp, hello_extensions(others, name, after));
            let off: int = 5 + 4 + 2 + 32 + 1 + sid.len() as int + 2 + cs.len() as int + 1 + comp.len() as int + 2
                + wire_extensions(others).len() as int + 4 + 5;
            &&& spec_try_parse(p) == ParseStatusView::Complete(AppProtocolView::TlsClientHello {
                sni: Some(lossy_text(name)),
                sni_offset: off as usize,
                sni_len: name.len() as usize,
            })
            &&& p.subrange(off, off + name.len() as int) == name
        }),
{
    let exts = hello_extensions(others, name, after);
    let body = hello_body(cv, random, sid, cs, comp, exts);
    let hs = client_hello_message(body);
    let p = handshake_record(hs);
    assert(p.len() == 5 + hs.len());
    lemma_handshake_record_parse(hs);
    lemma_hello_layout(cv, random, sid, cs, comp, exts);
    let el = exts.len() as int;
    let p9 = hs.len() - el;
    lemma_hello_walk(hs, 39 + sid.len() as int, p9 - 3 - comp.len() as int, p9 - 2);
    lemma_walk_finds_server_name(hs, p9, others, name, after);
    let nl = name.len() as int;
    let q = p9 + wire_extensions(others).len();
    let off = 5 + q + 9;
    assert(p.subrange(off, off + nl) =~= name) by {
        assert forall|k: int| 0 <= k < nl implies p.subrange(off, off + nl)[k] == name[k] by {
            assert(p[off + k] == hs[q + 9 + k]);
            assert(hs.subrange(q + 9, q + 9 + nl)[k] == name[k]);
        }
    }
}

/// When the payload holds nothing beyond its first record, `NeedMore(n)`
/// asks for more bytes than the payload has.
pub proof fn lemma_need_more_exceeds_input(data: Seq<u8>)
    requires
        data.len() <= isize::MAX,
        data.len() >= 5 ==> data.len() <= 5 + be16(data, 3),
    ensures
        spec_try_parse(data) is NeedMore ==> spec_try_parse(data)->NeedMore_0 > data.len(),
{
    if data.len() >= 5 {
        let record_end = 5 + be16(data, 3);
        if record_end <= data.len() {
            let hs = data.subrange(5, record_end);
            assert(hs + Seq::<u8>::empty() =~= hs);
            handshake_locates_name(hs);
        }
    }
}

} // verus!
