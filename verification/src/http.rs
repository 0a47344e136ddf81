//! HTTP/1.x request parser: the method, the Host header and the byte offset
//! of its value.

use vstd::prelude::*;
use vstd::utf8::{valid_utf8, decode_utf8};
use crate::types::{AppProtocol, AppProtocolView};
use crate::bytes::{
    ascii_chars, eq_ignore_case, eq_ignore_ascii_case, starts_with, trim_chars, trim_string,
    utf8_is_valid, utf8_lossy_string,
};

verus! {

/// The request methods recognized, each with its trailing space, in the
/// order they are tried.
pub open spec fn http_methods() -> Seq<Seq<u8>> {
    seq![
        seq![71u8, 69, 84, 32],
        seq![80u8, 79, 83, 84, 32],
        seq![80u8, 85, 84, 32],
        seq![68u8, 69, 76, 69, 84, 69, 32],
        seq![72u8, 69, 65, 68, 32],
        seq![79u8, 80, 84, 73, 79, 78, 83, 32],
        seq![80u8, 65, 84, 67, 72, 32],
        seq![67u8, 79, 78, 78, 69, 67, 84, 32],
    ]
}

/// The bytes of the header name `Host`.
pub open spec fn host_name_bytes() -> Seq<u8> {
    seq![72u8, 111, 115, 116]
}

/// Whether `data` begins with `prefix`.
pub open spec fn has_prefix(data: Seq<u8>, prefix: Seq<u8>) -> bool {
    prefix.len() <= data.len() && data.subrange(0, prefix.len() as int) == prefix
}

/// Index of the first method, from the `i`-th on, that `data` begins with.
pub open spec fn first_method(data: Seq<u8>, i: int) -> Option<int>
    decreases 8 - i,
{
    if 0 <= i < 8 {
        if has_prefix(data, http_methods()[i]) {
            Some(i)
        } else {
            first_method(data, i + 1)
        }
    } else {
        None
    }
}

/// Whether a CR LF pair starts at `pos`.
pub open spec fn crlf_at(data: Seq<u8>, pos: int) -> bool {
    0 <= pos && pos + 1 < data.len() && data[pos] == 13 && data[pos + 1] == 10
}

/// Position just after the first CR LF from `pos` on; when there is none,
/// the last position scanned.
pub open spec fn skip_request_line(data: Seq<u8>, pos: int) -> int
    decreases data.len() - pos,
{
    if 0 <= pos && pos + 1 < data.len() {
        if crlf_at(data, pos) {
            pos + 2
        } else {
            skip_request_line(data, pos + 1)
        }
    } else {
        pos
    }
}

/// First CR at or after `pos`, or the end of the data.
pub open spec fn line_end(data: Seq<u8>, pos: int) -> int
    decreases data.len() - pos,
{
    if 0 <= pos < data.len() && data[pos] != 13 {
        line_end(data, pos + 1)
    } else {
        pos
    }
}

/// First colon in `data[start..end]`.
pub open spec fn first_colon(data: Seq<u8>, start: int, end: int) -> Option<int>
    decreases end - start,
{
    if end <= start {
        None
    } else {
        match first_colon(data, start, end - 1) {
            Some(c) => Some(c),
            None => if data[end - 1] == 58 {
                Some(end - 1)
            } else {
                None
            },
        }
    }
}

/// First position at or after `p`, before `end`, that is not a space.
pub open spec fn skip_spaces(data: Seq<u8>, p: int, end: int) -> int
    decreases end - p,
{
    if p < end && data[p] == 32 {
        skip_spaces(data, p + 1, end)
    } else {
        p
    }
}

/// The Host value: the trimmed decoding, when the bytes are valid UTF-8.
pub open spec fn host_value(bytes: Seq<u8>) -> Option<Seq<char>> {
    if valid_utf8(bytes) {
        Some(trim_chars(decode_utf8(bytes)))
    } else {
        None
    }
}

/// `skip_request_line` stays within the data.
pub proof fn lemma_skip_request_line_bounded(data: Seq<u8>, pos: int)
    requires
        0 <= pos <= data.len(),
    ensures
        pos <= skip_request_line(data, pos) <= data.len(),
    decreases data.len() - pos,
{
    if pos + 1 < data.len() && !crlf_at(data, pos) {
        lemma_skip_request_line_bounded(data, pos + 1);
    }
}

/// A colon found in `data[start..end]` lies in that range.
pub proof fn lemma_first_colon_in_range(data: Seq<u8>, start: int, end: int)
    ensures
        first_colon(data, start, end) matches Some(c) ==> start <= c < end && data[c] == 58,
    decreases end - start,
{
    if end > start {
        lemma_first_colon_in_range(data, start, end - 1);
    }
}

/// A colon found before `k` is still the first one before any later end.
pub proof fn lemma_first_colon_extend(data: Seq<u8>, start: int, k: int, end: int)
    requires
        k <= end,
        first_colon(data, start, k) is Some,
    ensures
        first_colon(data, start, end) == first_colon(data, start, k),
    decreases end - k,
{
    if k < end {
        lemma_first_colon_extend(data, start, k, end - 1);
    }
}

/// `line_end` never moves backwards and stays within the data.
pub proof fn lemma_line_end_ge(data: Seq<u8>, pos: int)
    ensures
        line_end(data, pos) >= pos,
        0 <= pos <= data.len() ==> line_end(data, pos) <= data.len(),
    decreases data.len() - pos,
{
    if 0 <= pos < data.len() && data[pos] != 13 {
        lemma_line_end_ge(data, pos + 1);
    }
}

/// Walk the header lines from `pos`, looking for `Host`: its value and the
/// offset of the value, or `(None, 0)`.
pub open spec fn walk_headers(data: Seq<u8>, pos: int) -> (Option<Seq<char>>, int)
    decreases data.len() - pos,
{
    if 0 <= pos && pos + 1 < data.len() {
        if crlf_at(data, pos) {
            (None, 0)
        } else {
            let le = line_end(data, pos);
            let is_host = match first_colon(data, pos, le) {
                Some(cp) => eq_ignore_case(data.subrange(pos, cp), host_name_bytes()),
                None => false,
            };
            if is_host {
                let cp = first_colon(data, pos, le)->0;
                let vs = skip_spaces(data, cp + 1, le);
                (host_value(data.subrange(vs, le)), vs)
            } else if crlf_at(data, le) {
                proof {
                    lemma_line_end_ge(data, pos);
                }
                walk_headers(data, le + 2)
            } else {
                (None, 0)
            }
        }
    } else {
        (None, 0)
    }
}

/// The Host header of a request: its value and the offset of the value.
pub open spec fn spec_find_host(data: Seq<u8>) -> (Option<Seq<char>>, int) {
    walk_headers(data, skip_request_line(data, 0))
}

/// What parsing a payload as an HTTP request gives.
pub open spec fn spec_parse_http(data: Seq<u8>) -> Option<AppProtocolView> {
    match first_method(data, 0) {
        Some(i) => {
            let m = http_methods()[i];
            let (host, off) = spec_find_host(data);
            Some(AppProtocolView::HttpRequest {
                method: ascii_chars(m.subrange(0, m.len() - 1)),
                host,
                host_offset: off as usize,
            })
        },
        None => None,
    }
}

/// A header line: its name, a colon, its value, then CR LF.
pub open spec fn header_line(name: Seq<u8>, value: Seq<u8>) -> Seq<u8> {
    name + seq![58u8] + value + seq![13u8, 10]
}

/// Header lines one after another.
pub open spec fn header_lines(hs: Seq<(Seq<u8>, Seq<u8>)>) -> Seq<u8>
    decreases hs.len(),
{
    if hs.len() == 0 {
        Seq::empty()
    } else {
        header_line(hs[0].0, hs[0].1) + header_lines(hs.drop_first())
    }
}

/// Whether `s` holds no byte `b`.
pub open spec fn lacks(s: Seq<u8>, b: u8) -> bool {
    forall|i: int| 0 <= i < s.len() ==> s[i] != b
}

/// A header other than `Host`: a non-empty name without CR or colon, a
/// value without CR.
pub open spec fn other_header(h: (Seq<u8>, Seq<u8>)) -> bool {
    &&& h.0.len() > 0
    &&& lacks(h.0, 13)
    &&& lacks(h.0, 58)
    &&& lacks(h.1, 13)
    &&& !eq_ignore_case(h.0, host_name_bytes())
}

/// A request: its request line, CR LF, other header lines, then
/// `Host: ` with the value and CR LF, then anything.
pub open spec fn request_with_host(line: Seq<u8>, others: Seq<(Seq<u8>, Seq<u8>)>, value: Seq<u8>, tail: Seq<u8>) -> Seq<u8> {
    line + seq![13u8, 10] + header_lines(others) + seq![72u8, 111, 115, 116, 58, 32] + value + seq![13u8, 10] + tail
}

proof fn lemma_skip_line_to(data: Seq<u8>, pos: int, e: int)
    requires
        0 <= pos <= e,
        e + 1 < data.len(),
        forall|k: int| pos <= k < e ==> data[k] != 13,
        data[e] == 13 && data[e + 1] == 10,
    ensures
        skip_request_line(data, pos) == e + 2,
    decreases e - pos,
{
    if pos < e {
        lemma_skip_line_to(data, pos + 1, e);
    }
}

proof fn lemma_line_end_to(data: Seq<u8>, pos: int, e: int)
    requires
        0 <= pos <= e < data.len(),
        forall|k: int| pos <= k < e ==> data[k] != 13,
        data[e] == 13,
    ensures
        line_end(data, pos) == e,
    decreases e - pos,
{
    if pos < e {
        lemma_line_end_to(data, pos + 1, e);
    }
}

proof fn lemma_first_colon_at(data: Seq<u8>, start: int, c: int, end: int)
    requires
        start <= c < end,
        data[c] == 58,
        forall|k: int| start <= k < c ==> data[k] != 58,
    ensures
        first_colon(data, start, end) == Some(c),
    decreases end - start,
{
    if end > c + 1 {
        lemma_first_colon_at(data, start, c, end - 1);
    } else {
        lemma_no_colon(data, start, c);
    }
}

proof fn lemma_no_colon(data: Seq<u8>, start: int, end: int)
    requires
        forall|k: int| start <= k < end ==> data[k] != 58,
    ensures
        first_colon(data, start, end) is None,
    decreases end - start,
{
    if end > start {
        lemma_no_colon(data, start, end - 1);
    }
}

proof fn lemma_walk_past_others(data: Seq<u8>, pos: int, others: Seq<(Seq<u8>, Seq<u8>)>)
    requires
        0 <= pos,
        forall|i: int| 0 <= i < others.len() ==> other_header(#[trigger] others[i]),
        pos + header_lines(others).len() < data.len(),
        data.subrange(pos, pos + header_lines(others).len()) == header_lines(others),
    ensures
        walk_headers(data, pos) == walk_headers(data, pos + header_lines(others).len()),
    decreases others.len(),
{
    if others.len() > 0 {
        let (name, value) = others[0];
        assert(other_header(others[0]));
        let line = header_line(name, value);
        let rest = others.drop_first();
        assert(header_lines(others) == line + header_lines(rest));
        let ll = line.len() as int;
        assert forall|k: int| 0 <= k < ll implies data[pos + k] == #[trigger] line[k] by {
            assert(data.subrange(pos, pos + header_lines(others).len())[k] == header_lines(others)[k]);
        }
        let nl = name.len() as int;
        let e = pos + nl + 1 + value.len();
        assert(data[pos] == line[0]);
        assert(data[pos] != 13);
        assert forall|k: int| pos <= k < e implies data[k] != 13 by {
            assert(data[k] == line[k - pos]);
            if k - pos < nl {
                assert(line[k - pos] == name[k - pos]);
            } else if k - pos > nl {
                assert(line[k - pos] == value[k - pos - nl - 1]);
            }
        }
        assert(data[e] == line[nl + 1 + value.len()]);
        assert(data[e + 1] == line[nl + 2 + value.len()]);
        lemma_line_end_to(data, pos, e);
        assert forall|k: int| pos <= k < pos + nl implies data[k] != 58 by {
            assert(data[k] == line[k - pos]);
            assert(line[k - pos] == name[k - pos]);
        }
        assert(data[pos + nl] == line[nl]);
        lemma_first_colon_at(data, pos, pos + nl, e);
        assert(data.subrange(pos, pos + nl) =~= name) by {
            assert forall|k: int| 0 <= k < nl implies data.subrange(pos, pos + nl)[k] == name[k] by {
                assert(data[pos + k] == line[k]);
            }
        }
        assert(crlf_at(data, e));
        let np = pos + ll;
        assert(e + 2 == np);
        assert forall|i: int| 0 <= i < rest.len() implies other_header(#[trigger] rest[i]) by {
            assert(rest[i] == others[i + 1]);
        }
        assert(data.subrange(np, np + header_lines(rest).len()) =~= header_lines(rest)) by {
            assert forall|k: int| 0 <= k < header_lines(rest).len() implies data[np + k] == header_lines(rest)[k] by {
                assert(data.subrange(pos, pos + header_lines(others).len())[ll + k] == header_lines(others)[ll + k]);
            }
        }
        lemma_walk_past_others(data, np, rest);
    }
}

proof fn lemma_first_method_found(data: Seq<u8>, i: int, j: int)
    requires
        0 <= i <= j < 8,
        has_prefix(data, http_methods()[j]),
    ensures
        first_method(data, i) is Some,
    decreases j - i,
{
    if !has_prefix(data, http_methods()[i]) {
        lemma_first_method_found(data, i + 1, j);
    }
}

/// Law: a request whose request line begins with a known method, followed
/// by header lines other than `Host` and then `Host: value`, parses as an
/// HTTP request whose Host is the value (trimmed, when it is valid UTF-8)
/// and whose host offset is where the value starts in the payload; the
/// headers before it never hide it.
pub proof fn lemma_host_found_after_other_headers(
    line: Seq<u8>,
    others: Seq<(Seq<u8>, Seq<u8>)>,
    value: Seq<u8>,
    tail: Seq<u8>,
    m: int,
)
    requires
        0 <= m < 8,
        has_prefix(line, http_methods()[m]),
        lacks(line, 13),
        forall|i: int| 0 <= i < others.len() ==> other_header(#[trigger] others[i]),
        value.len() > 0,
        value[0] != 32,
        lacks(value, 13),
        request_with_host(line, others, value, tail).len() <= usize::MAX,
    ensures
        ({
            let p = request_with_host(line, others, value, tail);
            let off = line.len() as int + 2 + header_lines(others).len() + 6;
            &&& spec_parse_http(p) matches Some(AppProtocolView::HttpRequest { host, host_offset, .. })
                && host_offset == off
                && host == (if valid_utf8(value) { Some(trim_chars(decode_utf8(value))) } else { None })
            &&& p.subrange(off, off + value.len() as int) == value
        }),
{
    let p = request_with_host(line, others, value, tail);
    let ll = line.len() as int;
    let hl = header_lines(others).len() as int;
    let off = ll + 2 + hl + 6;
    let vl = value.len() as int;
    assert(p.subrange(0, ll) =~= line);
    assert(has_prefix(p, http_methods()[m])) by {
        let t = http_methods()[m];
        assert(p.subrange(0, t.len() as int) =~= line.subrange(0, t.len() as int));
    }
    lemma_first_method_found(p, 0, m);
    assert forall|k: int| 0 <= k < ll implies p[k] != 13 by {
        assert(p[k] == line[k]);
    }
    lemma_skip_line_to(p, 0, ll);
    let hs = ll + 2;
    assert(p.subrange(hs, hs + hl) =~= header_lines(others));
    lemma_walk_past_others(p, hs, others);
    let pos = hs + hl;
    // The Host line.
    assert(p[pos] == 72u8 && p[pos + 1] == 111u8 && p[pos + 2] == 115u8 && p[pos + 3] == 116u8);
    assert(p[pos + 4] == 58u8 && p[pos + 5] == 32u8);
    assert forall|k: int| 0 <= k < vl implies p[off + k] == value[k] by {}
    let e = off + vl;
    assert(p[e] == 13u8 && p[e + 1] == 10u8);
    assert forall|k: int| pos <= k < e implies p[k] != 13 by {
        if k >= off {
            assert(p[k] == value[k - off]);
        }
    }
    lemma_line_end_to(p, pos, e);
    lemma_first_colon_at(p, pos, pos + 4, e);
    assert(p.subrange(pos, pos + 4) =~= host_name_bytes());
    assert(p[off] == value[0]);
    assert(skip_spaces(p, off, e) == off);
    assert(skip_spaces(p, pos + 5, e) == skip_spaces(p, off, e));
    assert(p.subrange(off, e) =~= value);
    assert(eq_ignore_case(p.subrange(pos, pos + 4), host_name_bytes()));
    assert(!crlf_at(p, pos));
    assert(walk_headers(p, pos) == (host_value(value), off));
    assert(spec_find_host(p) == (host_value(value), off));
    assert(p.subrange(off, off + vl) =~= value);
}

fn method_token(i: usize) -> (r: Vec<u8>)
    requires
        i < 8,
    ensures
        r@ == http_methods()[i as int],
{
    let r = if i == 0 {
        vec![71u8, 69, 84, 32]
    } else if i == 1 {
        vec![80u8, 79, 83, 84, 32]
    } else if i == 2 {
        vec![80u8, 85, 84, 32]
    } else if i == 3 {
        vec![68u8, 69, 76, 69, 84, 69, 32]
    } else if i == 4 {
        vec![72u8, 69, 65, 68, 32]
    } else if i == 5 {
        vec![79u8, 80, 84, 73, 79, 78, 83, 32]
    } else if i == 6 {
        vec![80u8, 65, 84, 67, 72, 32]
    } else {
        vec![67u8, 79, 78, 78, 69, 67, 84, 32]
    };
    assert(r@ =~= http_methods()[i as int]);
    r
}

/// Attempt to parse an HTTP/1.x request.
///
/// Returns `Some(AppProtocol::HttpRequest { .. })` if the payload starts
/// with a known method followed by a space, `None` otherwise.
pub fn parse_http_request(data: &[u8]) -> (r: Option<AppProtocol>)
    ensures
        match spec_parse_http(data@) {
            Some(p) => r is Some && r->0@ == p,
            None => r is None,
        },
{
    let mut i: usize = 0;
    while i < 8
        invariant
            i <= 8,
            first_method(data@, 0) == first_method(data@, i as int),
        decreases 8 - i,
    {
        let m = method_token(i);
        if starts_with(data, m.as_slice()) {
            let name = utf8_lossy_string(&m.as_slice()[0..m.len() - 1]);
            proof {
                let name_bytes = m@.subrange(0, m@.len() - 1);
                assert forall|j: int| 0 <= j < name_bytes.len() implies name_bytes[j] < 128 by {}
            }
            let (host, host_offset) = find_host_header(data);
            return Some(AppProtocol::HttpRequest { method: name, host, host_offset });
        }
        i = i + 1;
    }
    None
}

fn request_line_end(data: &[u8]) -> (r: usize)
    ensures
        r == skip_request_line(data@, 0),
{
    let len = data.len();
    let mut pos: usize = 0;
    while pos < len && len - pos > 1
        invariant
            len == data@.len(),
            pos <= len,
            skip_request_line(data@, pos as int) == skip_request_line(data@, 0),
        decreases len - pos,
    {
        if data[pos] == 13 && data[pos + 1] == 10 {
            return pos + 2;
        }
        pos += 1;
    }
    pos
}

/// Search for the `Host:` header (name compared without regard to ASCII
/// case): its value and the byte offset of the value, or `(None, 0)`.
fn find_host_header(data: &[u8]) -> (r: (Option<String>, usize))
    ensures
        opt_chars(r.0) == spec_find_host(data@).0,
        r.1 as int == spec_find_host(data@).1,
{
    let len = data.len();
    let mut pos = request_line_end(data);
    let ghost target = spec_find_host(data@);
    let host_name: [u8; 4] = [72u8, 111, 115, 116];
    assert(host_name@ =~= host_name_bytes());
    proof {
        lemma_skip_request_line_bounded(data@, 0);
    }
    while pos < len && len - pos > 1
        invariant
            len == data@.len(),
            pos <= len,
            target == spec_find_host(data@),
            host_name@ == host_name_bytes(),
            target == walk_headers(data@, pos as int),
        decreases len - pos,
    {
        if data[pos] == 13 && data[pos + 1] == 10 {
            return (None, 0);
        }
        let header_start = pos;
        let mut colon_pos: Option<usize> = None;
        while pos < len && data[pos] != 13
            invariant
                len == data@.len(),
                header_start <= pos <= len,
                line_end(data@, pos as int) == line_end(data@, header_start as int),
                match colon_pos {
                    Some(c) => first_colon(data@, header_start as int, pos as int) == Some(c as int),
                    None => first_colon(data@, header_start as int, pos as int) is None,
                },
            decreases len - pos,
        {
            if data[pos] == 58 && colon_pos.is_none() {
                colon_pos = Some(pos);
            }
            pos += 1;
        }
        assert(line_end(data@, header_start as int) == pos);
        proof {
            lemma_first_colon_in_range(data@, header_start as int, pos as int);
        }
        if let Some(cp) = colon_pos {
            let is_host = eq_ignore_ascii_case(&data[header_start..cp], host_name.as_slice());
            if is_host {
                let mut value_start = cp + 1;
                while value_start < pos && data[value_start] == 32
                    invariant
                        len == data@.len(),
                        cp < value_start <= pos <= len,
                        skip_spaces(data@, value_start as int, pos as int) == skip_spaces(data@, cp + 1, pos as int),
                    decreases pos - value_start,
                {
                    value_start += 1;
                }
                let value = &data[value_start..pos];
                let host = if utf8_is_valid(value) {
                    let decoded = utf8_lossy_string(value);
                    Some(trim_string(&decoded))
                } else {
                    None
                };
                return (host, value_start);
            }
        }
        if len - pos > 1 && data[pos] == 13 && data[pos + 1] == 10 {
            pos += 2;
        } else {
            return (None, 0);
        }
    }
    (None, 0)
}

/// The characters of an optional string.
pub open spec fn opt_chars(s: Option<String>) -> Option<Seq<char>> {
    match s {
        Some(x) => Some(x@),
        None => None,
    }
}

} // verus!
