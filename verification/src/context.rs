//! The payload context the techniques work on, and the resolution of split
//! positions (absolute offsets, SNI-relative markers, random offsets) into
//! byte offsets within the payload.

use vstd::prelude::*;
use crate::types::{AppProtocol, AppProtocolView, SplitPosition};
use crate::packet::{detect_protocol, default_split_offset, spec_detect, spec_default_split_offset};
use crate::random::{random_usize, random_i32};
use crate::http::{has_prefix, header_lines, http_methods, lacks, lemma_host_found_after_other_headers, other_header, request_with_host, spec_parse_http};

verus! {

/// Context for applying desync techniques: the application-layer payload
/// (no IP/TCP headers) and what was detected in it.
pub struct PayloadContext {
    /// The raw application-layer payload (e.g., TLS ClientHello, HTTP request).
    pub payload: Vec<u8>,
    /// Detected application protocol and extracted metadata.
    pub protocol: AppProtocol,
}

/// The SNI and its offset, for a ClientHello that carries one.
pub open spec fn spec_sni_with_offset(proto: AppProtocolView) -> Option<(Seq<char>, usize)> {
    match proto {
        AppProtocolView::TlsClientHello { sni: Some(s), sni_offset, .. } => Some((s, sni_offset)),
        _ => None,
    }
}

/// Index of the last `b` in `s[0..end]`.
pub open spec fn last_index_of(s: Seq<u8>, b: u8, end: int) -> Option<int>
    decreases end,
{
    if end <= 0 {
        None
    } else if s[end - 1] == b {
        Some(end - 1)
    } else {
        last_index_of(s, b, end - 1)
    }
}

/// Byte range of the second-level domain within a host name: from after
/// the dot before the last dot (or the start) to the last dot.
pub open spec fn spec_sld_range(bytes: Seq<u8>) -> Option<(usize, usize)> {
    match last_index_of(bytes, 46, bytes.len() as int) {
        None => None,
        Some(last_dot) => {
            let start = match last_index_of(bytes, 46, last_dot) {
                Some(p) => p + 1,
                None => 0,
            };
            if start >= last_dot {
                None
            } else {
                Some((start as usize, last_dot as usize))
            }
        },
    }
}

/// The offset `base + delta`, when it falls inside a payload of length `len`.
pub open spec fn shifted(base: int, delta: int, len: int) -> Option<usize> {
    let r = base + delta;
    if 0 <= r < len {
        Some(r as usize)
    } else {
        None
    }
}

/// Law: for an HTTP request with a Host value, the SNI position (and so
/// the default split) is the Host value's offset, whatever the payload
/// length and draw.
pub proof fn lemma_sni_position_is_host_offset(len: int, proto: AppProtocolView, d: int)
    requires
        proto matches AppProtocolView::HttpRequest { host: Some(_), .. },
    ensures
        spec_resolve(len, proto, SplitPosition::Sni, d) == Some(proto->host_offset),
        resolves_to(len, proto, SplitPosition::Sni, Some(proto->host_offset)),
{
    assert(draw_fits(SplitPosition::Sni, len, 0));
    assert(spec_resolve(len, proto, SplitPosition::Sni, 0) == Some(proto->host_offset));
}

/// Law: in a request with `Host: value` (valid UTF-8) after other header
/// lines, the SNI position resolves to where the value starts, and the
/// bytes there are the value.
pub proof fn lemma_request_splits_at_host_value(
    line: Seq<u8>,
    others: Seq<(Seq<u8>, Seq<u8>)>,
    value: Seq<u8>,
    tail: Seq<u8>,
    m: int,
)
    requires
        0 <= m < 8,
        has_prefix(line, http_methods()[m]),
        lacks(line, 13),
        forall|i: int| 0 <= i < others.len() ==> other_header(#[trigger] others[i]),
        value.len() > 0,
        value[0] != 32,
        lacks(value, 13),
        vstd::utf8::valid_utf8(value),
        request_with_host(line, others, value, tail).len() <= usize::MAX,
    ensures
        ({
            let p = request_with_host(line, others, value, tail);
            let off = line.len() as int + 2 + header_lines(others).len() + 6;
            &&& resolves_to(p.len() as int, spec_detect(p), SplitPosition::Sni, Some(off as usize))
            &&& p.subrange(off, off + value.len() as int) == value
        }),
{
    let p = request_with_host(line, others, value, tail);
    lemma_host_found_after_other_headers(line, others, value, tail, m);
    let t = http_methods()[m];
    assert(line[0] == t[0]);
    assert(p[0] == line[0]);
    assert(p[0] != 0x16u8);
    assert(spec_detect(p) == spec_parse_http(p)->0);
    lemma_sni_position_is_host_offset(p.len() as int, spec_detect(p), 0);
}

/// The bounds of the random offset a position resolves through, if any.
pub open spec fn random_bounds(pos: SplitPosition) -> Option<(usize, usize)>
    decreases pos,
{
    match pos {
        SplitPosition::Random { min, max } => Some((min, max)),
        SplitPosition::OffsetFrom { marker, .. } => random_bounds(*marker),
        _ => None,
    }
}

/// Whether `draw` is a possible random offset for `pos` in a payload of
/// length `len`.
pub open spec fn draw_fits(pos: SplitPosition, len: int, draw: int) -> bool {
    match random_bounds(pos) {
        Some((min, max)) => (min < max && max < len) ==> min <= draw < max,
        None => true,
    }
}

/// The offset a split position resolves to in a payload of length `len`
/// with detected protocol `proto`; `draw` is the offset a `Random` marker
/// picked.
pub open spec fn spec_resolve(len: int, proto: AppProtocolView, pos: SplitPosition, draw: int) -> Option<usize>
    decreases pos,
{
    match pos {
        SplitPosition::Absolute(offset) => if offset < len {
            Some(offset)
        } else {
            None
        },
        SplitPosition::Sni => spec_default_split_offset(proto),
        SplitPosition::SniOffset(delta) => match spec_default_split_offset(proto) {
            Some(base) => shifted(base as int, delta as int, len),
            None => None,
        },
        SplitPosition::Random { min, max } => if min >= max || max >= len {
            None
        } else {
            Some(draw as usize)
        },
        SplitPosition::SniExtStart => match spec_sni_with_offset(proto) {
            Some((_, off)) => if off >= 9 && off - 9 < len {
                Some((off - 9) as usize)
            } else {
                None
            },
            None => None,
        },
        SplitPosition::EndSld => match spec_sni_with_offset(proto) {
            Some((s, off)) => match spec_sld_range(vstd::utf8::encode_utf8(s)) {
                Some((_, end)) => shifted(off as int, end as int, len),
                None => None,
            },
            None => None,
        },
        SplitPosition::MidSld => match spec_sni_with_offset(proto) {
            Some((s, off)) => match spec_sld_range(vstd::utf8::encode_utf8(s)) {
                Some((start, end)) => shifted(off as int, start + (end - start) / 2, len),
                None => None,
            },
            None => None,
        },
        SplitPosition::OffsetFrom { marker, delta } => match spec_resolve(len, proto, *marker, draw) {
            Some(base) => shifted(base as int, delta as int, len),
            None => None,
        },
    }
}

/// The bounds of the random offset a position resolves through, if any.
pub fn random_bounds_of(pos: &SplitPosition) -> (r: Option<(usize, usize)>)
    ensures
        r == random_bounds(*pos),
    decreases pos,
{
    match pos {
        SplitPosition::Random { min, max } => Some((*min, *max)),
        SplitPosition::OffsetFrom { marker, .. } => random_bounds_of(marker),
        _ => None,
    }
}

/// Whether a position draws a random offset from a range a payload of
/// `len` bytes can hold.
pub open spec fn draws_in_range(pos: SplitPosition, len: int) -> bool {
    random_bounds(pos) matches Some((mn, mx)) && mn < mx && mx < len
}

/// The draws that decide where a position falls in a payload of `len`
/// bytes: `min..max` for a usable random range, else the single draw 0.
pub open spec fn draw_range(pos: SplitPosition, len: int) -> (int, int) {
    match random_bounds(pos) {
        Some((mn, mx)) => if mn < mx && mx < len {
            (mn as int, mx as int)
        } else {
            (0, 1)
        },
        None => (0, 1),
    }
}

/// The draw range, computed.
pub fn draw_range_of(pos: &SplitPosition, len: usize) -> (r: (usize, usize))
    ensures
        r.0 as int == draw_range(*pos, len as int).0,
        r.1 as int == draw_range(*pos, len as int).1,
{
    match random_bounds_of(pos) {
        Some((mn, mx)) => if mn < mx && mx < len { (mn, mx) } else { (0, 1) },
        None => (0, 1),
    }
}

proof fn lemma_unusable_draw(len: int, proto: AppProtocolView, pos: SplitPosition, d: int)
    requires
        !draws_in_range(pos, len),
    ensures
        draw_fits(pos, len, d),
        spec_resolve(len, proto, pos, d) == spec_resolve(len, proto, pos, 0),
    decreases pos,
{
    match pos {
        SplitPosition::OffsetFrom { marker, delta } => {
            lemma_unusable_draw(len, proto, *marker, d);
        },
        _ => {},
    }
}

/// A draw from the draw range fits the position, and every draw that fits
/// resolves as some draw from the range does (itself, or 0 when the
/// position draws nothing).
pub proof fn lemma_draw_range(len: int, proto: AppProtocolView, pos: SplitPosition, d: int)
    ensures
        draw_range(pos, len).0 <= d < draw_range(pos, len).1 ==> draw_fits(pos, len, d),
        draw_fits(pos, len, d) ==> {
            let e = if draws_in_range(pos, len) { d } else { 0 };
            &&& draw_range(pos, len).0 <= e < draw_range(pos, len).1
            &&& spec_resolve(len, proto, pos, e) == spec_resolve(len, proto, pos, d)
        },
{
    if !draws_in_range(pos, len) {
        lemma_unusable_draw(len, proto, pos, d);
    }
}

/// Whether `o` is a possible resolution of `pos` in a payload of length
/// `len` with detected protocol `proto`.
pub open spec fn resolves_to(len: int, proto: AppProtocolView, pos: SplitPosition, o: Option<usize>) -> bool {
    exists|d: int| draw_fits(pos, len, d) && o == #[trigger] spec_resolve(len, proto, pos, d)
}

/// A jittered offset: `base + delta` kept within `1..=len - 1` (computed as
/// a signed value, then taken as `usize`).
pub open spec fn jittered(base: int, delta: int, len: int) -> usize {
    let raised = if base + delta < 1 {
        1
    } else {
        base + delta
    };
    let clamped = if raised < len - 1 {
        raised
    } else {
        len - 1
    };
    clamped as usize
}

/// The resolved offset, moved by `delta` when `jitter` is not zero.
pub open spec fn spec_resolve_jittered(
    len: int,
    proto: AppProtocolView,
    pos: SplitPosition,
    jitter: u8,
    draw: int,
    delta: int,
) -> Option<usize> {
    match spec_resolve(len, proto, pos, draw) {
        Some(base) => if jitter == 0 {
            Some(base)
        } else {
            Some(jittered(base as int, delta, len))
        },
        None => None,
    }
}

/// The SNI and its offset, if the protocol is a ClientHello with SNI.
fn sni_with_offset(proto: &AppProtocol) -> (r: Option<(&str, usize)>)
    ensures
        match spec_sni_with_offset(proto@) {
            Some((s, off)) => r is Some && (r->0).0@ == s && (r->0).1 == off,
            None => r is None,
        },
{
    match proto {
        AppProtocol::TlsClientHello { sni: Some(sni), sni_offset, .. } => Some((sni.as_str(), *sni_offset)),
        _ => None,
    }
}

/// Index of the last dot in `bytes[..end]`.
pub fn last_dot_before(bytes: &[u8], end: usize) -> (r: Option<usize>)
    requires
        end <= bytes@.len(),
    ensures
        match last_index_of(bytes@, 46, end as int) {
            Some(i) => r == Some(i as usize),
            None => r is None,
        },
{
    let mut i = end;
    while i > 0
        invariant
            i <= end <= bytes@.len(),
            last_index_of(bytes@, 46, end as int) == last_index_of(bytes@, 46, i as int),
        decreases i,
    {
        if bytes[i - 1] == 46 {
            return Some(i - 1);
        }
        i = i - 1;
    }
    None
}

/// The index found is in range and holds the byte searched for.
pub proof fn lemma_last_index_in_range(s: Seq<u8>, b: u8, end: int)
    ensures
        last_index_of(s, b, end) matches Some(i) ==> 0 <= i < end && s[i] == b,
    decreases end,
{
    if end > 0 && s[end - 1] != b {
        lemma_last_index_in_range(s, b, end - 1);
    }
}

/// Compute the `(start, end)` byte range of the second-level domain inside
/// a host name; `None` if the name has fewer than two labels.
///
/// `www.twitter.com` gives `(4, 11)`, `twitter.com` gives `(0, 7)` and
/// `localhost` gives `None`.
pub fn sld_range(hostname: &str) -> (r: Option<(usize, usize)>)
    ensures
        r == spec_sld_range(vstd::utf8::encode_utf8(hostname@)),
        r matches Some((a, b)) ==> a < b < vstd::utf8::encode_utf8(hostname@).len(),
{
    let bytes = hostname.as_bytes();
    let last_dot = match last_dot_before(bytes, bytes.len()) {
        Some(d) => d,
        None => return None,
    };
    proof {
        lemma_last_index_in_range(bytes@, 46, bytes@.len() as int);
    }
    proof {
        lemma_last_index_in_range(bytes@, 46, last_dot as int);
    }
    let sld_start = match last_dot_before(bytes, last_dot) {
        Some(p) => p + 1,
        None => 0,
    };
    if sld_start >= last_dot {
        return None;
    }
    Some((sld_start, last_dot))
}

fn shift_offset(base: usize, delta: i128, len: usize) -> (r: Option<usize>)
    requires
        -0x1_0000_0000_0000_0000 <= delta <= 0x1_0000_0000_0000_0000,
    ensures
        r == shifted(base as int, delta as int, len as int),
{
    let result: i128 = base as i128 + delta as i128;
    if result >= 0 && result < len as i128 {
        Some(result as usize)
    } else {
        None
    }
}

impl PayloadContext {
    /// Create a context by detecting the protocol of the payload.
    pub fn new(payload: Vec<u8>) -> (r: Self)
        requires
            payload@.len() <= isize::MAX,
        ensures
            r.payload@ == payload@,
            r.protocol@ == spec_detect(payload@),
    {
        let protocol = detect_protocol(payload.as_slice());
        PayloadContext { payload, protocol }
    }

    /// Resolve a split position to a byte offset within the payload, with
    /// `draw` as the offset a `Random` marker picks.
    pub fn resolve_split_position_drawn(&self, pos: &SplitPosition, draw: usize) -> (r: Option<usize>)
        ensures
            r == spec_resolve(self.payload@.len() as int, self.protocol@, *pos, draw as int),
        decreases pos,
    {
        let len = self.payload.len();
        match pos {
            SplitPosition::Absolute(offset) => {
                if *offset < len {
                    Some(*offset)
                } else {
                    None
                }
            },
            SplitPosition::Sni => default_split_offset(&self.protocol),
            SplitPosition::SniOffset(delta) => {
                match default_split_offset(&self.protocol) {
                    Some(base) => shift_offset(base, *delta as i128, len),
                    None => None,
                }
            },
            SplitPosition::Random { min, max } => {
                if *min >= *max || *max >= len {
                    None
                } else {
                    Some(draw)
                }
            },
            SplitPosition::SniExtStart => {
                match sni_with_offset(&self.protocol) {
                    Some((_, off)) => {
                        if off >= 9 && off - 9 < len {
                            Some(off - 9)
                        } else {
                            None
                        }
                    },
                    None => None,
                }
            },
            SplitPosition::EndSld => {
                match sni_with_offset(&self.protocol) {
                    Some((sni, off)) => match sld_range(sni) {
                        Some((_, end)) => shift_offset(off, end as i128, len),
                        None => None,
                    },
                    None => None,
                }
            },
            SplitPosition::MidSld => {
                match sni_with_offset(&self.protocol) {
                    Some((sni, off)) => match sld_range(sni) {
                        Some((start, end)) => {
                            let mid = start + (end - start) / 2;
                            shift_offset(off, mid as i128, len)
                        },
                        None => None,
                    },
                    None => None,
                }
            },
            SplitPosition::OffsetFrom { marker, delta } => {
                match self.resolve_split_position_drawn(marker, draw) {
                    Some(base) => shift_offset(base, *delta as i128, len),
                    None => None,
                }
            },
        }
    }

    fn draw_for(&self, pos: &SplitPosition) -> (d: usize)
        ensures
            draw_fits(*pos, self.payload@.len() as int, d as int),
        decreases pos,
    {
        match pos {
            SplitPosition::Random { min, max } => {
                if *min < *max && *max < self.payload.len() {
                    random_usize(*min, *max - 1)
                } else {
                    0
                }
            },
            SplitPosition::OffsetFrom { marker, .. } => self.draw_for(marker),
            _ => 0,
        }
    }

    /// Resolve a `SplitPosition` to an absolute byte offset within the
    /// payload. A `Random { min, max }` marker picks an offset in
    /// `min..max`.
    pub fn resolve_split_position(&self, pos: &SplitPosition) -> (r: Option<usize>)
        ensures
            resolves_to(self.payload@.len() as int, self.protocol@, *pos, r),
    {
        let d = self.draw_for(pos);
        self.resolve_split_position_drawn(pos, d)
    }

    /// Resolve a split position, then move it by `delta` within
    /// `1..=len - 1` when `jitter` is not zero.
    pub fn resolve_split_position_jittered(&self, pos: &SplitPosition, jitter: u8, draw: usize, delta: i32) -> (r: Option<usize>)
        ensures
            r == spec_resolve_jittered(self.payload@.len() as int, self.protocol@, *pos, jitter, draw as int, delta as int),
    {
        let base = match self.resolve_split_position_drawn(pos, draw) {
            Some(b) => b,
            None => return None,
        };
        if jitter == 0 {
            return Some(base);
        }
        let mut result: i128 = base as i128 + delta as i128;
        if result < 1 {
            result = 1;
        }
        let top: i128 = self.payload.len() as i128 - 1;
        if result > top {
            result = top;
        }
        Some(result as usize)
    }

    /// Resolve a split position with a jitter of up to `jitter` bytes either
    /// way, kept within `1..=len - 1`.
    pub fn resolve_split_position_with_jitter(&self, pos: &SplitPosition, jitter: u8) -> (r: Option<usize>)
        ensures
            exists|d: int, delta: int|
                draw_fits(*pos, self.payload@.len() as int, d) && -(jitter as int) <= delta <= jitter
                && r == #[trigger] spec_resolve_jittered(self.payload@.len() as int, self.protocol@, *pos, jitter, d, delta),
    {
        let d = self.draw_for(pos);
        let delta = if jitter == 0 {
            0
        } else {
            random_i32(-(jitter as i32), jitter as i32)
        };
        self.resolve_split_position_jittered(pos, jitter, d, delta)
    }
}

} // verus!
