//! HTTP proxy requests: `CONNECT host:port` targets, absolute URLs of
//! forward-proxy requests, and the request passed on to the origin server.

use vstd::prelude::*;
use vstd::utf8::{
    encode_utf8, encode_utf8_valid_utf8, is_char_boundary_iff_not_is_continuation_byte,
    is_char_boundary_start_end_of_seq,
};
use crate::bytes::{eq_ignore_case, extend_range, lemma_boundary_after_ascii, range_eq_ignore_case, starts_with};
use crate::context::last_index_of;
use crate::numparse::{parse_u16, spec_parse_u16};
use crate::types::Error;

verus! {

/// Index of the first `b` in `s[i..]`.
pub open spec fn first_index_of(s: Seq<u8>, b: u8, i: int) -> Option<int>
    decreases s.len() - i,
{
    if i < 0 || i >= s.len() {
        None
    } else if s[i] == b {
        Some(i)
    } else {
        first_index_of(s, b, i + 1)
    }
}

/// What a `CONNECT` target gives: the host before the last colon and the
/// port after it, or the whole target and port 443 when there is no
/// colon; `None` when the text after the last colon is not a port.
pub open spec fn spec_parse_host_port(t: Seq<u8>) -> Option<(Seq<u8>, u16)> {
    match last_index_of(t, 58, t.len() as int) {
        Some(c) => match spec_parse_u16(t.subrange(c + 1, t.len() as int)) {
            Some(p) => Some((t.subrange(0, c), p)),
            None => None,
        },
        None => Some((t, 443)),
    }
}

/// The bytes of `http://`.
pub open spec fn http_scheme() -> Seq<u8> {
    seq![104u8, 116, 116, 112, 58, 47, 47]
}

/// The bytes of `https://`.
pub open spec fn https_scheme() -> Seq<u8> {
    seq![104u8, 116, 116, 112, 115, 58, 47, 47]
}

/// `u` without a leading `http://` or `https://`.
pub open spec fn without_scheme(u: Seq<u8>) -> Seq<u8> {
    if u.len() >= 7 && u.subrange(0, 7) == http_scheme() {
        u.subrange(7, u.len() as int)
    } else if u.len() >= 8 && u.subrange(0, 8) == https_scheme() {
        u.subrange(8, u.len() as int)
    } else {
        u
    }
}

/// What an absolute URL gives: the host, the port (80 when absent or not a
/// number) and the path from the first `/` on (`/` when absent).
pub open spec fn spec_parse_absolute_url(u: Seq<u8>) -> (Seq<u8>, u16, Seq<u8>) {
    let rest = without_scheme(u);
    let (host_port, path) = match first_index_of(rest, 47, 0) {
        Some(p) => (rest.subrange(0, p), rest.subrange(p, rest.len() as int)),
        None => (rest, seq![47u8]),
    };
    match last_index_of(host_port, 58, host_port.len() as int) {
        Some(c) => (
            host_port.subrange(0, c),
            match spec_parse_u16(host_port.subrange(c + 1, host_port.len() as int)) {
                Some(p) => p,
                None => 80,
            },
            path,
        ),
        None => (host_port, 80, path),
    }
}

proof fn lemma_last_index_bounds(s: Seq<u8>, b: u8, end: int)
    ensures
        last_index_of(s, b, end) matches Some(i) ==> 0 <= i < end && s[i] == b,
        last_index_of(s, b, end) is None ==> forall|k: int| 0 <= k < end ==> s[k] != b,
    decreases end,
{
    if end > 0 && s[end - 1] != b {
        lemma_last_index_bounds(s, b, end - 1);
    }
}

proof fn lemma_first_index_bounds(s: Seq<u8>, b: u8, i: int)
    requires
        i >= 0,
    ensures
        first_index_of(s, b, i) matches Some(k) ==> i <= k < s.len() && s[k] == b,
    decreases s.len() - i,
{
    if i < s.len() && s[i] != b {
        lemma_first_index_bounds(s, b, i + 1);
    }
}

/// Split a string at a byte index next to an ASCII byte (or at either end).
fn split_at_ascii(s: &str, i: usize) -> (r: (&str, &str))
    requires
        i <= encode_utf8(s@).len(),
        0 < i < encode_utf8(s@).len() ==> encode_utf8(s@)[i as int] < 128 || encode_utf8(s@)[i - 1] < 128,
    ensures
        encode_utf8(r.0@) == encode_utf8(s@).subrange(0, i as int),
        encode_utf8(r.1@) == encode_utf8(s@).subrange(i as int, encode_utf8(s@).len() as int),
{
    proof {
        encode_utf8_valid_utf8(s@);
        is_char_boundary_start_end_of_seq(encode_utf8(s@));
        if 0 < i < encode_utf8(s@).len() {
            is_char_boundary_iff_not_is_continuation_byte(encode_utf8(s@), i as int);
            if encode_utf8(s@)[i - 1] < 128 {
                lemma_boundary_after_ascii(encode_utf8(s@), i as int);
            }
        }
    }
    s.split_at(i)
}

fn last_index(bytes: &[u8], b: u8) -> (r: Option<usize>)
    ensures
        match last_index_of(bytes@, b, bytes@.len() as int) {
            Some(i) => r is Some && r->0 == i && 0 <= i < bytes@.len() && bytes@[i] == b,
            None => r is None,
        },
{
    proof {
        lemma_last_index_bounds(bytes@, b, bytes@.len() as int);
    }
    let mut i = bytes.len();
    while i > 0
        invariant
            i <= bytes@.len(),
            last_index_of(bytes@, b, bytes@.len() as int) == last_index_of(bytes@, b, i as int),
        decreases i,
    {
        if bytes[i - 1] == b {
            return Some(i - 1);
        }
        i = i - 1;
    }
    None
}

fn first_index(bytes: &[u8], b: u8) -> (r: Option<usize>)
    ensures
        match first_index_of(bytes@, b, 0) {
            Some(i) => r is Some && r->0 == i && 0 <= i < bytes@.len() && bytes@[i] == b,
            None => r is None,
        },
{
    proof {
        lemma_first_index_bounds(bytes@, b, 0);
    }
    let mut i: usize = 0;
    while i < bytes.len()
        invariant
            i <= bytes@.len(),
            first_index_of(bytes@, b, 0) == first_index_of(bytes@, b, i as int),
        decreases bytes@.len() - i,
    {
        if bytes[i] == b {
            return Some(i);
        }
        i = i + 1;
    }
    None
}

/// Split `host[:port]` at its last colon: the host and the text of the
/// port, or `None` without a colon.
fn split_host_port(s: &str) -> (r: Option<(&str, &str)>)
    ensures
        match last_index_of(encode_utf8(s@), 58, encode_utf8(s@).len() as int) {
            Some(c) => r matches Some((h, p)) && encode_utf8(h@) == encode_utf8(s@).subrange(0, c) && encode_utf8(p@)
                == encode_utf8(s@).subrange(c + 1, encode_utf8(s@).len() as int),
            None => r is None,
        },
{
    let b = s.as_bytes();
    match last_index(b, 58) {
        Some(c) => {

            let (host, rest) = split_at_ascii(s, c);
            proof {
                assert(encode_utf8(rest@)[0] == 58);
            }
            let (_colon, port) = split_at_ascii(rest, 1);
            assert(encode_utf8(port@) =~= encode_utf8(s@).subrange(c + 1, encode_utf8(s@).len() as int));
            Some((host, port))
        },
        None => None,
    }
}

/// Parse a `CONNECT` target `host:port` (port 443 when there is no colon).
pub fn parse_host_port(target: &str) -> (r: Result<(String, u16), Error>)
    ensures
        match spec_parse_host_port(encode_utf8(target@)) {
            Some((h, p)) => r matches Ok((host, port)) && encode_utf8(host@) == h && port == p,
            None => r matches Err(Error::Proxy(_)),
        },
{
    match split_host_port(target) {
        Some((host, port_text)) => match parse_u16(port_text) {
            Some(port) => Ok((host.to_owned(), port)),
            None => Err(Error::Proxy("invalid port in CONNECT target".to_owned())),
        },
        None => Ok((target.to_owned(), 443)),
    }
}

/// Parse an absolute URL `http://host[:port]/path` into host, port and
/// path. The scheme may be missing; the port defaults to 80 (also when it
/// is not a number) and the path to `/`.
pub fn parse_absolute_url(url: &str) -> (r: Result<(String, u16, String), Error>)
    ensures
        r matches Ok((host, port, path)) && (encode_utf8(host@), port, encode_utf8(path@))
            == spec_parse_absolute_url(encode_utf8(url@)),
{
    let b = url.as_bytes();
    let ghost u = b@;
    let http = "http://";
    let https = "https://";
    proof {
        reveal_strlit("http://");
        reveal_strlit("https://");
        assert(encode_utf8(http@) =~= http_scheme()) by {
            vstd::string::is_ascii_spec_bytes(http);
        }
        assert(encode_utf8(https@) =~= https_scheme()) by {
            vstd::string::is_ascii_spec_bytes(https);
        }
    }
    let rest: &str = if starts_with(b, http.as_bytes()) {
        split_at_ascii(url, 7).1
    } else if starts_with(b, https.as_bytes()) {
        split_at_ascii(url, 8).1
    } else {
        url
    };
    assert(encode_utf8(rest@) == without_scheme(u));
    let rb = rest.as_bytes();
    let (host_port, path): (&str, String) = match first_index(rb, 47) {
        Some(p) => {
            let (hp, path) = split_at_ascii(rest, p);
            (hp, path.to_owned())
        },
        None => {
            let slash = "/";
            proof {
                reveal_strlit("/");
                assert(encode_utf8(slash@) =~= seq![47u8]) by {
                    vstd::string::is_ascii_spec_bytes(slash);
                }
            }
            (rest, slash.to_owned())
        },
    };
    match split_host_port(host_port) {
        Some((host, port_text)) => {
            let port = match parse_u16(port_text) {
                Some(p) => p,
                None => 80,
            };
            Ok((host.to_owned(), port, path))
        },
        None => Ok((host_port.to_owned(), 80, path)),
    }
}

/// The decimal digits of `n`.
pub open spec fn decimal(n: nat) -> Seq<u8>
    decreases n,
{
    if n < 10 {
        seq![(48 + n) as u8]
    } else {
        decimal(n / 10).push((48 + n % 10) as u8)
    }
}

/// Append the decimal digits of `n`.
pub fn push_decimal(out: &mut Vec<u8>, n: u16)
    ensures
        final(out)@ == old(out)@ + decimal(n as nat),
    decreases n,
{
    if n >= 10 {
        push_decimal(out, n / 10);
    }
    out.push(48 + (n % 10) as u8);
}

/// `\r\n`.
pub open spec fn crlf() -> Seq<u8> {
    seq![13u8, 10]
}

/// `proxy-connection`.
pub open spec fn proxy_connection_name() -> Seq<u8> {
    seq![112u8, 114, 111, 120, 121, 45, 99, 111, 110, 110, 101, 99, 116, 105, 111, 110]
}

/// `proxy-authorization`.
pub open spec fn proxy_authorization_name() -> Seq<u8> {
    seq![112u8, 114, 111, 120, 121, 45, 97, 117, 116, 104, 111, 114, 105, 122, 97, 116, 105, 111, 110]
}

/// `host:`.
pub open spec fn host_name_colon() -> Seq<u8> {
    seq![104u8, 111, 115, 116, 58]
}

/// `Host: `.
pub open spec fn host_line_start() -> Seq<u8> {
    seq![72u8, 111, 115, 116, 58, 32]
}

/// `Connection: close\r\n\r\n`.
pub open spec fn connection_close_end() -> Seq<u8> {
    seq![67u8, 111, 110, 110, 101, 99, 116, 105, 111, 110, 58, 32, 99, 108, 111, 115, 101, 13, 10, 13, 10]
}

/// Whether `h` starts with `p` up to ASCII case.
pub open spec fn starts_with_ci(h: Seq<u8>, p: Seq<u8>) -> bool {
    h.len() >= p.len() && eq_ignore_case(h.subrange(0, p.len() as int), p)
}

/// Whether a header line is meant for the proxy only and is not passed on.
pub open spec fn proxy_only(h: Seq<u8>) -> bool {
    starts_with_ci(h, proxy_connection_name()) || starts_with_ci(h, proxy_authorization_name())
}

/// The header lines passed on, each followed by `\r\n`.
pub open spec fn forwarded_headers(hs: Seq<Seq<u8>>) -> Seq<u8>
    decreases hs.len(),
{
    if hs.len() == 0 {
        Seq::empty()
    } else {
        forwarded_headers(hs.drop_last()) + if proxy_only(hs.last()) {
            Seq::empty()
        } else {
            hs.last() + crlf()
        }
    }
}

/// Whether a header line passed on names the host.
pub open spec fn passes_host(hs: Seq<Seq<u8>>) -> bool {
    exists|i: int| 0 <= i < hs.len() && !proxy_only(hs[i]) && #[trigger] starts_with_ci(hs[i], host_name_colon())
}

/// The `Host` line added when the client sent none: the port is shown
/// unless it is 80.
pub open spec fn host_line(host: Seq<u8>, port: u16) -> Seq<u8> {
    if port == 80 {
        host_line_start() + host + crlf()
    } else {
        host_line_start() + host + seq![58u8] + decimal(port as nat) + crlf()
    }
}

/// The request sent to the origin server for a forward-proxy request: the
/// request line with the relative path, the client's header lines but the
/// proxy-only ones, a `Host` line when none was passed on, and
/// `Connection: close`.
pub open spec fn forward_request(
    method: Seq<u8>,
    path: Seq<u8>,
    version: Seq<u8>,
    hs: Seq<Seq<u8>>,
    host: Seq<u8>,
    port: u16,
) -> Seq<u8> {
    method + seq![32u8] + path + seq![32u8] + version + crlf() + forwarded_headers(hs) + (if passes_host(hs) {
        Seq::empty()
    } else {
        host_line(host, port)
    }) + connection_close_end()
}

/// The bytes of each header line.
pub open spec fn header_bytes(headers: Seq<String>) -> Seq<Seq<u8>> {
    headers.map_values(|h: String| encode_utf8(h@))
}

fn push_str_bytes(out: &mut Vec<u8>, s: &str)
    ensures
        final(out)@ == old(out)@ + encode_utf8(s@),
{
    let b = s.as_bytes();
    extend_range(out, b, 0, b.len());
    assert(b@.subrange(0, b@.len() as int) =~= b@);
}

fn push_all(out: &mut Vec<u8>, v: &Vec<u8>)
    ensures
        final(out)@ == old(out)@ + v@,
{
    extend_range(out, v.as_slice(), 0, v.len());
    assert(v@.subrange(0, v@.len() as int) =~= v@);
}

fn starts_with_ignore_case(h: &[u8], p: &Vec<u8>) -> (r: bool)
    ensures
        r == starts_with_ci(h@, p@),
{
    if h.len() < p.len() {
        return false;
    }
    let r = range_eq_ignore_case(h, 0, p.as_slice(), 0, p.len());
    assert(p@.subrange(0, p@.len() as int) =~= p@);
    r
}

/// Build the request passed on to the origin server for a forward-proxy
/// request (see `forward_request`). Header names are compared without
/// regard to ASCII case, which for these names is what comparing
/// `str::to_lowercase` forms gives.
pub fn build_forward_request(
    method: &str,
    path: &str,
    version: &str,
    headers: &[String],
    host: &str,
    port: u16,
) -> (r: Vec<u8>)
    ensures
        r@ == forward_request(
            encode_utf8(method@),
            encode_utf8(path@),
            encode_utf8(version@),
            header_bytes(headers@),
            encode_utf8(host@),
            port,
        ),
{
    let ghost hs = header_bytes(headers@);
    let mut out: Vec<u8> = Vec::new();
    push_str_bytes(&mut out, method);
    out.push(32);
    push_str_bytes(&mut out, path);
    out.push(32);
    push_str_bytes(&mut out, version);
    out.push(13);
    out.push(10);
    let ghost head = out@;
    let proxy_connection: Vec<u8> = vec![112u8, 114, 111, 120, 121, 45, 99, 111, 110, 110, 101, 99, 116, 105, 111, 110];
    let proxy_authorization: Vec<u8> = vec![
        112u8, 114, 111, 120, 121, 45, 97, 117, 116, 104, 111, 114, 105, 122, 97, 116, 105, 111, 110,
    ];
    let host_colon: Vec<u8> = vec![104u8, 111, 115, 116, 58];
    assert(proxy_connection@ == proxy_connection_name());
    assert(proxy_authorization@ == proxy_authorization_name());
    assert(host_colon@ == host_name_colon());
    let mut has_host = false;
    let mut i: usize = 0;
    while i < headers.len()
        invariant
            i <= headers@.len(),
            hs == header_bytes(headers@),
            proxy_connection@ == proxy_connection_name(),
            proxy_authorization@ == proxy_authorization_name(),
            host_colon@ == host_name_colon(),
            out@ == head + forwarded_headers(hs.subrange(0, i as int)),
            has_host == passes_host(hs.subrange(0, i as int)),
        decreases headers@.len() - i,
    {
        let h = headers[i].as_str();
        let hb = h.as_bytes();
        let ghost pre = hs.subrange(0, i as int);
        let ghost next = hs.subrange(0, i + 1);
        assert(next.drop_last() =~= pre);
        assert(next.last() == hb@);
        let skip = starts_with_ignore_case(hb, &proxy_connection) || starts_with_ignore_case(hb, &proxy_authorization);
        if !skip {
            if starts_with_ignore_case(hb, &host_colon) {
                has_host = true;
                assert(starts_with_ci(next[i as int], host_name_colon()));
            }
            push_str_bytes(&mut out, h);
            out.push(13);
            out.push(10);
        }
        proof {
            assert(out@ =~= head + forwarded_headers(next));
            if has_host {
                if !passes_host(pre) {
                    assert(starts_with_ci(next[i as int], host_name_colon()));
                } else {
                    let j = choose|j: int| 0 <= j < pre.len() && !proxy_only(pre[j]) && #[trigger] starts_with_ci(pre[j], host_name_colon());
                    assert(next[j] == pre[j]);
                }
            } else {
                if passes_host(next) {
                    let j = choose|j: int| 0 <= j < next.len() && !proxy_only(next[j]) && #[trigger] starts_with_ci(next[j], host_name_colon());
                    if j < i {
                        assert(pre[j] == next[j]);
                    }
                }
            }
        }
        i = i + 1;
    }
    assert(hs.subrange(0, headers@.len() as int) =~= hs);
    if !has_host {
        let host_start: Vec<u8> = vec![72u8, 111, 115, 116, 58, 32];
        push_all(&mut out, &host_start);
        push_str_bytes(&mut out, host);
        if port != 80 {
            out.push(58);
            push_decimal(&mut out, port);
        }
        out.push(13);
        out.push(10);
    }
    let close: Vec<u8> = vec![67u8, 111, 110, 110, 101, 99, 116, 105, 111, 110, 58, 32, 99, 108, 111, 115, 101, 13, 10, 13, 10];
    push_all(&mut out, &close);
    assert(out@ =~= forward_request(
        encode_utf8(method@),
        encode_utf8(path@),
        encode_utf8(version@),
        hs,
        encode_utf8(host@),
        port,
    ));
    out
}

} // verus!
