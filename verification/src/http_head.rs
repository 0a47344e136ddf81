//! The head of a request to the HTTP proxy: the request line, split into
//! method, target and version, and the header lines that came with it.

use vstd::prelude::*;
use vstd::utf8::{encode_utf8, is_char_boundary};
use crate::bytes::{is_unicode_white_space, trim_chars, trim_string};
use crate::morph_search::{contains_bytes, occurs_in};
use crate::registry::str_eq;
use crate::text::{push_text, text};

verus! {

/// The characters of `s` before the first newline.
pub open spec fn before_newline(s: Seq<char>) -> Seq<char>
    decreases s.len(),
{
    if s.len() == 0 {
        s
    } else {
        let p = before_newline(s.drop_last());
        if p.len() < s.len() - 1 || s.last() == '\n' {
            p
        } else {
            s
        }
    }
}

/// The request line: the first line, trimmed.
pub open spec fn request_line(s: Seq<char>) -> Seq<char> {
    trim_chars(before_newline(s))
}

/// The words of `s` read so far, and the word being read.
pub open spec fn words_acc(s: Seq<char>) -> (Seq<Seq<char>>, Seq<char>)
    decreases s.len(),
{
    if s.len() == 0 {
        (Seq::empty(), Seq::empty())
    } else {
        let (ws, cur) = words_acc(s.drop_last());
        let c = s.last();
        if is_unicode_white_space(c) {
            if cur.len() > 0 {
                (ws.push(cur), Seq::empty())
            } else {
                (ws, Seq::empty())
            }
        } else {
            (ws, cur.push(c))
        }
    }
}

/// The words of `s`: the runs of characters between white space.
pub open spec fn words(s: Seq<char>) -> Seq<Seq<char>> {
    let (ws, cur) = words_acc(s);
    if cur.len() > 0 {
        ws.push(cur)
    } else {
        ws
    }
}

/// The pieces of `s` between newlines.
pub open spec fn nl_pieces(s: Seq<char>) -> Seq<Seq<char>>
    decreases s.len(),
{
    if s.len() == 0 {
        seq![Seq::empty()]
    } else {
        let p = nl_pieces(s.drop_last());
        if s.last() == '\n' {
            p.push(Seq::empty())
        } else {
            p.update(p.len() - 1, p.last().push(s.last()))
        }
    }
}

/// The lines of `s`: the pieces between newlines, without an empty last
/// one (a final newline ends the last line rather than starting one).
pub open spec fn text_lines(s: Seq<char>) -> Seq<Seq<char>> {
    let p = nl_pieces(s);
    if p.last().len() == 0 {
        p.drop_last()
    } else {
        p
    }
}

/// Reading header lines: the trimmed lines holding a colon, up to the
/// first blank line, and whether a blank line was seen.
pub open spec fn scan_headers(ls: Seq<Seq<char>>) -> (Seq<Seq<char>>, bool)
    decreases ls.len(),
{
    if ls.len() == 0 {
        (Seq::empty(), false)
    } else {
        let (h, done) = scan_headers(ls.drop_last());
        let t = trim_chars(ls.last());
        if done {
            (h, done)
        } else if t.len() == 0 {
            (h, true)
        } else if t.contains(':') {
            (h.push(t), false)
        } else {
            (h, false)
        }
    }
}

/// Name for what `str::to_uppercase` gives for a text.
pub uninterp spec fn uppercase(s: Seq<char>) -> Seq<char>;

/// ASCII upper case of each character.
pub open spec fn ascii_uppercase(s: Seq<char>) -> Seq<char> {
    s.map_values(|c: char| if 'a' <= c <= 'z' { ((c as u32) - 32) as char } else { c })
}

/// The text in upper case, by calling `str::to_uppercase`. Trusted: the
/// result is the named value `uppercase(s)`; for text made of ASCII
/// characters it is the ASCII upper case, as std documents.
#[verifier::external_body]
fn to_uppercase(s: &str) -> (r: String)
    ensures
        r@ == uppercase(s@),
        (forall|i: int| 0 <= i < s@.len() ==> (#[trigger] s@[i]) < 128 as char) ==> r@ == ascii_uppercase(s@),
{
    s.to_uppercase()
}

/// `CONNECT`.
pub open spec fn connect_method() -> Seq<char> {
    seq!['C', 'O', 'N', 'N', 'E', 'C', 'T']
}

/// `\r\n\r\n`, the end of a head.
pub open spec fn crlf_crlf() -> Seq<u8> {
    seq![13u8, 10, 13, 10]
}

/// `\n\n`, the end of a head written with bare newlines.
pub open spec fn lf_lf() -> Seq<u8> {
    seq![10u8, 10]
}

/// A parsed request head.
#[derive(Debug)]
pub struct RequestHead {
    /// The method, in upper case.
    pub method: String,
    /// The request target: `host:port` for `CONNECT`, else a URL.
    pub target: String,
    pub version: String,
    /// Whether the method is `CONNECT`.
    pub connect: bool,
    /// For other methods, the header lines read so far that hold a colon.
    pub headers: Vec<String>,
    /// Whether the head already ended in what was read.
    pub complete: bool,
}

/// Why a request head was refused.
#[derive(Debug, PartialEq, Eq)]
pub enum HeadError {
    /// The request line has fewer than three words; it is kept for the
    /// message.
    Malformed(String),
    /// The text after the request line would start inside a character.
    SplitInsideChar,
}

/// What `parse_request_head` gives for the text `t` read so far.
pub open spec fn head_of(t: Seq<char>, r: Result<RequestHead, HeadError>) -> bool {
    let line = request_line(t);
    let ws = words(line);
    let k = encode_utf8(line).len();
    let bytes = encode_utf8(t);
    if ws.len() < 3 {
        r matches Err(HeadError::Malformed(l)) && l@ == line
    } else if !is_char_boundary(bytes, k as int) {
        r matches Err(HeadError::SplitInsideChar)
    } else {
        let rest = bytes.subrange(k as int, bytes.len() as int);
        let connect = uppercase(ws[0]) == connect_method();
        &&& r matches Ok(h)
        &&& h.method@ == uppercase(ws[0])
        &&& h.target@ == ws[1]
        &&& h.version@ == ws[2]
        &&& h.connect == connect
        &&& if connect {
            &&& h.headers@.len() == 0
            &&& h.complete == (occurs_in(rest, crlf_crlf()) || occurs_in(rest, lf_lf()))
        } else {
            let scanned = scan_headers(text_lines(vstd::utf8::decode_utf8(rest)));
            &&& h.headers@.map_values(|s: String| s@) == scanned.0
            &&& h.complete == scanned.1
        }
    }
}

fn first_line(t: &str) -> (r: String)
    ensures
        r@ == request_line(t@),
{
    let total = t.unicode_len();
    let mut end: usize = 0;
    let mut found = false;
    for c in it: t.chars()
        invariant
            it.seq() == t@,
            total == t@.len(),
            end <= it.index(),
            found ==> end < t@.len() && t@[end as int] == '\n',
            !found ==> end == it.index(),
            before_newline(t@.subrange(0, it.index() as int)) == t@.subrange(0, end as int),
    {
        let ghost i = it.index();
        assert(t@.subrange(0, i + 1).drop_last() =~= t@.subrange(0, i));
        if !found {
            if c == '\n' {
                found = true;
            } else {
                end = end + 1;
            }
        }
    }
    assert(t@.subrange(0, t@.len() as int) =~= t@);
    let line = t.substring_char(0, end).to_owned();
    trim_string(&line)
}

fn split_words(s: &str) -> (r: Vec<String>)
    ensures
        r@.map_values(|w: String| w@) == words(s@),
{
    let total = s.unicode_len();
    let mut out: Vec<String> = Vec::new();
    let mut start: usize = 0;
    let mut i: usize = 0;
    for c in it: s.chars()
        invariant
            it.seq() == s@,
            total == s@.len(),
            i == it.index(),
            start <= i,
            out@.map_values(|w: String| w@) == words_acc(s@.subrange(0, i as int)).0,
            s@.subrange(start as int, i as int) == words_acc(s@.subrange(0, i as int)).1,
    {
        assert(s@.subrange(0, i + 1).drop_last() =~= s@.subrange(0, i as int));
        assert(s@.subrange(0, i + 1).last() == c);
        if is_white_space(c) {
            if start < i {
                let w = s.substring_char(start, i).to_owned();
                let ghost before = out@;
                out.push(w);
                assert(out@.map_values(|w: String| w@) =~= before.map_values(|w: String| w@).push(w@));
            } else {
                assert(s@.subrange(start as int, i as int).len() == 0);
            }
            assert(s@.subrange(i + 1, i + 1) =~= Seq::<char>::empty());
            start = i + 1;
        } else {
            assert(s@.subrange(start as int, i + 1) =~= s@.subrange(start as int, i as int).push(c));
        }
        i = i + 1;
    }
    assert(s@.subrange(0, i as int) =~= s@);
    if start < i {
        let w = s.substring_char(start, i).to_owned();
        let ghost before = out@;
        out.push(w);
        assert(out@.map_values(|w: String| w@) =~= before.map_values(|w: String| w@).push(w@));
    }
    out
}

fn is_white_space(c: char) -> (r: bool)
    ensures
        r == is_unicode_white_space(c),
{
    let u = c as u32;
    (9 <= u && u <= 13) || u == 32 || u == 0x85 || u == 0xA0 || u == 0x1680 || (0x2000 <= u && u <= 0x200A) || u
        == 0x2028 || u == 0x2029 || u == 0x202F || u == 0x205F || u == 0x3000
}

fn has_colon(s: &str) -> (r: bool)
    ensures
        r == s@.contains(':'),
{
    for c in it: s.chars()
        invariant
            it.seq() == s@,
            forall|j: int| 0 <= j < it.index() ==> s@[j] != ':',
    {
        if c == ':' {
            assert(s@[it.index() as int] == ':');
            return true;
        }
    }
    false
}

/// The header line as kept: trimmed; `None` for a blank line, which ends
/// the head.
pub fn header_line(line: &str) -> (r: Option<String>)
    ensures
        match r {
            Some(t) => t@ == trim_chars(line@) && t@.len() > 0,
            None => trim_chars(line@).len() == 0,
        },
{
    let owned = line.to_owned();
    let t = trim_string(&owned);
    if t.as_str().is_empty() {
        None
    } else {
        Some(t)
    }
}

fn scan_header_text(rest: &str) -> (r: (Vec<String>, bool))
    ensures
        r.0@.map_values(|s: String| s@) == scan_headers(text_lines(rest@)).0,
        r.1 == scan_headers(text_lines(rest@)).1,
{
    let total = rest.unicode_len();
    let mut headers: Vec<String> = Vec::new();
    let mut done = false;
    let mut start: usize = 0;
    let mut i: usize = 0;
    let ghost mut pieces: Seq<Seq<char>> = Seq::empty();
    assert(rest@.subrange(0, 0) =~= Seq::<char>::empty());
    assert(nl_pieces(rest@.subrange(0, 0)) =~= pieces.push(rest@.subrange(0, 0)));
    for c in it: rest.chars()
        invariant
            it.seq() == rest@,
            total == rest@.len(),
            i == it.index(),
            start <= i,
            nl_pieces(rest@.subrange(0, i as int)) == pieces.push(rest@.subrange(start as int, i as int)),
            headers@.map_values(|s: String| s@) == scan_headers(pieces).0,
            done == scan_headers(pieces).1,
    {
        assert(rest@.subrange(0, i + 1).drop_last() =~= rest@.subrange(0, i as int));
        assert(rest@.subrange(0, i + 1).last() == c);
        if c == '\n' {
            let line = rest.substring_char(start, i);
            let ghost before = pieces;
            proof {
                pieces = pieces.push(rest@.subrange(start as int, i as int));
                assert(pieces.drop_last() =~= before);
            }
            if !done {
                match header_line(line) {
                    None => {
                        done = true;
                    },
                    Some(t) => {
                        if has_colon(t.as_str()) {
                            let ghost hb = headers@;
                            headers.push(t);
                            assert(headers@.map_values(|s: String| s@) =~= hb.map_values(|s: String| s@).push(
                                trim_chars(pieces.last()),
                            ));
                        }
                    },
                }
            }
            assert(rest@.subrange(i + 1, i + 1) =~= Seq::<char>::empty());
            start = i + 1;
        } else {
            assert(rest@.subrange(start as int, i + 1) =~= rest@.subrange(start as int, i as int).push(c));
        }
        i = i + 1;
    }
    assert(rest@.subrange(0, i as int) =~= rest@);
    if start < i {
        let line = rest.substring_char(start, i);
        let ghost before = pieces;
        proof {
            pieces = pieces.push(rest@.subrange(start as int, i as int));
            assert(pieces.drop_last() =~= before);
            assert(text_lines(rest@) == pieces);
        }
        if !done {
            match header_line(line) {
                None => {
                    done = true;
                },
                Some(t) => {
                    if has_colon(t.as_str()) {
                        let ghost hb = headers@;
                        headers.push(t);
                        assert(headers@.map_values(|s: String| s@) =~= hb.map_values(|s: String| s@).push(
                            trim_chars(pieces.last()),
                        ));
                    }
                },
            }
        }
    } else {
        assert(rest@.subrange(start as int, i as int).len() == 0);
        assert(text_lines(rest@) == pieces);
    }
    (headers, done)
}

/// Parse the head of a proxy request from the text read so far (see
/// `head_of`).
pub fn parse_request_head(text: &str) -> (r: Result<RequestHead, HeadError>)
    ensures
        head_of(text@, r),
{
    let line = first_line(text);
    let ws = split_words(line.as_str());
    assert(ws@.map_values(|w: String| w@).len() == ws@.len());
    if ws.len() < 3 {
        return Err(HeadError::Malformed(line));
    }
    let k = line.as_str().as_bytes().len();
    assert(words(line@).len() >= 3);
    assert(k == encode_utf8(line@).len());
    if !text.is_char_boundary(k) {
        assert(!is_char_boundary(encode_utf8(text@), k as int));
        return Err(HeadError::SplitInsideChar);
    }
    let (_, rest) = text.split_at(k);
    assert(ws@[0]@ == words(line@)[0]);
    assert(ws@[1]@ == words(line@)[1]);
    assert(ws@[2]@ == words(line@)[2]);
    let method = to_uppercase(ws[0].as_str());
    let c = "CONNECT";
    proof {
        reveal_strlit("CONNECT");
    }
    assert(c@ =~= connect_method());
    let connect = str_eq(method.as_str(), c);
    if connect {
        let rb = rest.as_bytes();
        let a: [u8; 4] = [13, 10, 13, 10];
        let b: [u8; 2] = [10, 10];
        assert(a@ =~= crlf_crlf());
        assert(b@ =~= lf_lf());
        let complete = contains_bytes(rb, &a) || contains_bytes(rb, &b);
        Ok(RequestHead {
            method,
            target: ws[1].clone(),
            version: ws[2].clone(),
            connect: true,
            headers: Vec::new(),
            complete,
        })
    } else {
        proof {
            vstd::utf8::encode_utf8_decode_utf8(rest@);
        }
        let (headers, complete) = scan_header_text(rest);
        Ok(RequestHead {
            method,
            target: ws[1].clone(),
            version: ws[2].clone(),
            connect: false,
            headers,
            complete,
        })
    }
}

/// `HTTP/1.1 400 Bad Request` and an empty line: the answer to a malformed request.
pub fn bad_request_response() -> (r: Vec<u8>)
    ensures
        r@ == text(seq!['H', 'T', 'T', 'P', '/', '1', '.', '1', ' ', '4', '0', '0', ' ', 'B', 'a', 'd', ' ', 'R', 'e', 'q', 'u', 'e', 's', 't']) + seq![13u8, 10, 13, 10],
{
    let mut out: Vec<u8> = Vec::new();
    let t = "HTTP/1.1 400 Bad Request";
    proof {
        reveal_strlit("HTTP/1.1 400 Bad Request");
    }
    assert(t@ =~= seq!['H', 'T', 'T', 'P', '/', '1', '.', '1', ' ', '4', '0', '0', ' ', 'B', 'a', 'd', ' ', 'R', 'e', 'q', 'u', 'e', 's', 't']);
    push_text(&mut out, t);
    out.push(13);
    out.push(10);
    out.push(13);
    out.push(10);
    out
}

/// `HTTP/1.1 502 Bad Gateway` and an empty line: the answer when the target cannot be reached.
pub fn bad_gateway_response() -> (r: Vec<u8>)
    ensures
        r@ == text(seq!['H', 'T', 'T', 'P', '/', '1', '.', '1', ' ', '5', '0', '2', ' ', 'B', 'a', 'd', ' ', 'G', 'a', 't', 'e', 'w', 'a', 'y']) + seq![13u8, 10, 13, 10],
{
    let mut out: Vec<u8> = Vec::new();
    let t = "HTTP/1.1 502 Bad Gateway";
    proof {
        reveal_strlit("HTTP/1.1 502 Bad Gateway");
    }
    assert(t@ =~= seq!['H', 'T', 'T', 'P', '/', '1', '.', '1', ' ', '5', '0', '2', ' ', 'B', 'a', 'd', ' ', 'G', 'a', 't', 'e', 'w', 'a', 'y']);
    push_text(&mut out, t);
    out.push(13);
    out.push(10);
    out.push(13);
    out.push(10);
    out
}

/// `HTTP/1.1 200 Connection Established` and an empty line: the answer once a `CONNECT` tunnel is open.
pub fn connection_established_response() -> (r: Vec<u8>)
    ensures
        r@ == text(seq!['H', 'T', 'T', 'P', '/', '1', '.', '1', ' ', '2', '0', '0', ' ', 'C', 'o', 'n', 'n', 'e', 'c', 't', 'i', 'o', 'n', ' ', 'E', 's', 't', 'a', 'b', 'l', 'i', 's', 'h', 'e', 'd']) + seq![13u8, 10, 13, 10],
{
    let mut out: Vec<u8> = Vec::new();
    let t = "HTTP/1.1 200 Connection Established";
    proof {
        reveal_strlit("HTTP/1.1 200 Connection Established");
    }
    assert(t@ =~= seq!['H', 'T', 'T', 'P', '/', '1', '.', '1', ' ', '2', '0', '0', ' ', 'C', 'o', 'n', 'n', 'e', 'c', 't', 'i', 'o', 'n', ' ', 'E', 's', 't', 'a', 'b', 'l', 'i', 's', 'h', 'e', 'd']);
    push_text(&mut out, t);
    out.push(13);
    out.push(10);
    out.push(13);
    out.push(10);
    out
}

} // verus!
