//! HTTP Host header manipulation: the Host header of a plain-HTTP request
//! is rewritten into a form servers accept and naive DPI matching misses
//! (odd case, extra white space, a folded line, a decoy duplicate).
//!
//! The header is searched for with ASCII case folding on the payload
//! bytes, and the value is trimmed of Unicode white space.

use vstd::prelude::*;
use vstd::utf8::{decode_utf8, encode_utf8, valid_utf8};
use crate::types::{AppProtocol, AppProtocolView, DesyncAction, DesyncActionView, Error, SplitPosition, StealthConfig};
use crate::context::PayloadContext;
use crate::technique::{gives, refused, Technique, TechniqueConfig};
use crate::bytes::{
    eq_ignore_case, extend_range, lemma_valid_utf8_ascii_cut, range_eq_ignore_case, trim_chars, trim_string,
    utf8_is_valid, utf8_lossy_string,
};
use crate::http::{crlf_at, first_colon, host_name_bytes, lemma_first_colon_extend, lemma_first_colon_in_range};
use crate::sni_manip::{is_word, names};
use crate::random::random_usize;

verus! {

/// Host header manipulation mode.
#[derive(Debug, Clone, Copy, PartialEq, Eq, Structural)]
pub enum HostMode {
    /// Randomize the case of the header name ("hOsT:").
    MixedCase,
    /// Extra spaces after the colon ("Host:   example.com").
    ExtraSpace,
    /// A tab after the colon ("Host:\texample.com").
    Tab,
    /// The value on a folded continuation line ("Host:\r\n example.com").
    LineWrapping,
    /// A decoy Host header after the real one.
    DuplicateHeader,
}

impl Default for HostMode {
    fn default() -> (m: Self)
        ensures
            m == HostMode::MixedCase,
    {
        HostMode::MixedCase
    }
}

/// The mode a name selects, compared without regard to case.
pub open spec fn spec_host_mode(s: Seq<char>) -> Option<HostMode> {
    if names(s, seq!['m', 'i', 'x', 'e', 'd', '_', 'c', 'a', 's', 'e']) || names(s, seq!['m', 'i', 'x', 'e', 'd', 'c', 'a', 's', 'e'])
        || names(s, seq!['m', 'i', 'x', 'e', 'd']) {
        Some(HostMode::MixedCase)
    } else if names(s, seq!['e', 'x', 't', 'r', 'a', '_', 's', 'p', 'a', 'c', 'e']) || names(s, seq!['e', 'x', 't', 'r', 'a', 's', 'p', 'a', 'c', 'e'])
        || names(s, seq!['s', 'p', 'a', 'c', 'e']) {
        Some(HostMode::ExtraSpace)
    } else if names(s, seq!['t', 'a', 'b']) {
        Some(HostMode::Tab)
    } else if names(s, seq!['l', 'i', 'n', 'e', '_', 'w', 'r', 'a', 'p', 'p', 'i', 'n', 'g'])
        || names(s, seq!['l', 'i', 'n', 'e', 'w', 'r', 'a', 'p', 'p', 'i', 'n', 'g']) || names(s, seq!['w', 'r', 'a', 'p']) {
        Some(HostMode::LineWrapping)
    } else if names(s, seq!['d', 'u', 'p', 'l', 'i', 'c', 'a', 't', 'e', '_', 'h', 'e', 'a', 'd', 'e', 'r'])
        || names(s, seq!['d', 'u', 'p', 'l', 'i', 'c', 'a', 't', 'e', 'h', 'e', 'a', 'd', 'e', 'r'])
        || names(s, seq!['d', 'u', 'p', 'l', 'i', 'c', 'a', 't', 'e']) {
        Some(HostMode::DuplicateHeader)
    } else {
        None
    }
}

impl HostMode {
    /// Parse a mode name, ignoring case.
    pub fn from_str_opt(s: &str) -> (r: Option<Self>)
        ensures
            r == spec_host_mode(s@),
    {
        proof {
            reveal_strlit("mixed_case");
            reveal_strlit("mixedcase");
            reveal_strlit("mixed");
            reveal_strlit("extra_space");
            reveal_strlit("extraspace");
            reveal_strlit("space");
            reveal_strlit("tab");
            reveal_strlit("line_wrapping");
            reveal_strlit("linewrapping");
            reveal_strlit("wrap");
            reveal_strlit("duplicate_header");
            reveal_strlit("duplicateheader");
            reveal_strlit("duplicate");
            assert("mixed_case"@ =~= seq!['m', 'i', 'x', 'e', 'd', '_', 'c', 'a', 's', 'e']);
            assert("mixedcase"@ =~= seq!['m', 'i', 'x', 'e', 'd', 'c', 'a', 's', 'e']);
            assert("mixed"@ =~= seq!['m', 'i', 'x', 'e', 'd']);
            assert("extra_space"@ =~= seq!['e', 'x', 't', 'r', 'a', '_', 's', 'p', 'a', 'c', 'e']);
            assert("extraspace"@ =~= seq!['e', 'x', 't', 'r', 'a', 's', 'p', 'a', 'c', 'e']);
            assert("space"@ =~= seq!['s', 'p', 'a', 'c', 'e']);
            assert("tab"@ =~= seq!['t', 'a', 'b']);
            assert("line_wrapping"@ =~= seq!['l', 'i', 'n', 'e', '_', 'w', 'r', 'a', 'p', 'p', 'i', 'n', 'g']);
            assert("linewrapping"@ =~= seq!['l', 'i', 'n', 'e', 'w', 'r', 'a', 'p', 'p', 'i', 'n', 'g']);
            assert("wrap"@ =~= seq!['w', 'r', 'a', 'p']);
            assert("duplicate_header"@ =~= seq!['d', 'u', 'p', 'l', 'i', 'c', 'a', 't', 'e', '_', 'h', 'e', 'a', 'd', 'e', 'r']);
            assert("duplicateheader"@ =~= seq!['d', 'u', 'p', 'l', 'i', 'c', 'a', 't', 'e', 'h', 'e', 'a', 'd', 'e', 'r']);
            assert("duplicate"@ =~= seq!['d', 'u', 'p', 'l', 'i', 'c', 'a', 't', 'e']);
        }
        if is_word(s, "mixed_case") || is_word(s, "mixedcase") || is_word(s, "mixed") {
            Some(HostMode::MixedCase)
        } else if is_word(s, "extra_space") || is_word(s, "extraspace") || is_word(s, "space") {
            Some(HostMode::ExtraSpace)
        } else if is_word(s, "tab") {
            Some(HostMode::Tab)
        } else if is_word(s, "line_wrapping") || is_word(s, "linewrapping") || is_word(s, "wrap") {
            Some(HostMode::LineWrapping)
        } else if is_word(s, "duplicate_header") || is_word(s, "duplicateheader") || is_word(s, "duplicate") {
            Some(HostMode::DuplicateHeader)
        } else {
            None
        }
    }
}

/// The case variants of the header name that mixed case chooses from.
pub open spec fn host_variants() -> Seq<Seq<u8>> {
    seq![
        seq![104u8, 79, 115, 84],
        seq![72u8, 79, 83, 84],
        seq![72u8, 111, 83, 116],
        seq![104u8, 111, 83, 84],
        seq![72u8, 79, 115, 116],
        seq![104u8, 111, 115, 84],
    ]
}

/// `"\nhost:"`, the header start that mixed case looks for.
pub open spec fn host_header_start() -> Seq<u8> {
    seq![10u8, 104, 111, 115, 116, 58]
}

/// First position at or after `i` where `"\nhost:"` occurs, without regard
/// to ASCII case.
pub open spec fn find_host_header_start(p: Seq<u8>, i: int) -> Option<int>
    decreases p.len() - i,
{
    if 0 <= i && i + 6 <= p.len() {
        if eq_ignore_case(p.subrange(i, i + 6), host_header_start()) {
            Some(i)
        } else {
            find_host_header_start(p, i + 1)
        }
    } else {
        None
    }
}

/// The payload with the first header name `host` (after a newline) written
/// as `name`; unchanged when there is none.
pub open spec fn renamed_host_header(p: Seq<u8>, name: Seq<u8>) -> Seq<u8> {
    match find_host_header_start(p, 0) {
        Some(pos) => p.subrange(0, pos + 1) + name + p.subrange(pos + 5, p.len() as int),
        None => p,
    }
}

/// First CR LF at or after `s`, or the end of the payload.
pub open spec fn crlf_from(p: Seq<u8>, s: int) -> int
    decreases p.len() - s,
{
    if 0 <= s && s + 1 < p.len() {
        if crlf_at(p, s) {
            s
        } else {
            crlf_from(p, s + 1)
        }
    } else {
        p.len() as int
    }
}

/// `crlf_from` finds a CR LF at or after `s`, or gives the length.
pub proof fn lemma_crlf_from(p: Seq<u8>, s: int)
    requires
        0 <= s <= p.len(),
    ensures
        s <= crlf_from(p, s) <= p.len(),
        crlf_from(p, s) < p.len() ==> crlf_at(p, crlf_from(p, s)),
    decreases p.len() - s,
{
    if s + 1 < p.len() && !crlf_at(p, s) {
        lemma_crlf_from(p, s + 1);
    }
}

/// The first header line from `s` on whose name (before its first colon)
/// is `Host`: its start, its colon and its end.
pub open spec fn host_line(p: Seq<u8>, s: int) -> Option<(int, int, int)>
    decreases p.len() - s,
{
    if 0 <= s <= p.len() {
        let e = crlf_from(p, s);
        let is_host = match first_colon(p, s, e) {
            Some(c) => eq_ignore_case(p.subrange(s, c), host_name_bytes()),
            None => false,
        };
        if is_host {
            Some((s, first_colon(p, s, e)->0, e))
        } else if e < p.len() {
            proof {
                lemma_crlf_from(p, s);
            }
            host_line(p, e + 2)
        } else {
            None
        }
    } else {
        None
    }
}

/// The bytes of a header value with surrounding white space trimmed.
pub open spec fn trimmed_value(v: Seq<u8>) -> Seq<u8> {
    encode_utf8(trim_chars(decode_utf8(v)))
}

/// The bytes the header line becomes in a white-space mode, for the name
/// as written and the trimmed value.
pub open spec fn rewritten_line(mode: HostMode, name: Seq<u8>, value: Seq<u8>) -> Seq<u8> {
    match mode {
        HostMode::ExtraSpace => name + seq![58u8, 32, 32, 32] + value,
        HostMode::Tab => name + seq![58u8, 9] + value,
        HostMode::LineWrapping => name + seq![58u8, 13, 10, 32] + value,
        _ => name + seq![58u8, 32] + value + seq![13u8, 10] + decoy_host_line(),
    }
}

/// `"Host: decoy.invalid"`.
pub open spec fn decoy_host_line() -> Seq<u8> {
    seq![72u8, 111, 115, 116, 58, 32, 100, 101, 99, 111, 121, 46, 105, 110, 118, 97, 108, 105, 100]
}

/// The payload with its first Host header line rewritten in a white-space
/// mode; unchanged when there is no such line.
pub open spec fn rewritten_host_line(p: Seq<u8>, mode: HostMode) -> Seq<u8> {
    match host_line(p, 0) {
        Some((s, c, e)) => p.subrange(0, s) + rewritten_line(mode, p.subrange(s, c), trimmed_value(p.subrange(c + 1, e)))
            + p.subrange(e, p.len() as int),
        None => p,
    }
}

/// The results Host header manipulation may give.
pub open spec fn http_host_result(ctx: &PayloadContext, mode: HostMode, r: Result<DesyncAction, Error>) -> bool {
    if !(ctx.protocol@ matches AppProtocolView::HttpRequest { host: Some(_), .. }) || !valid_utf8(ctx.payload@) {
        refused(r)
    } else if mode == HostMode::MixedCase {
        exists|i: int| 0 <= i < 6 && gives(r, DesyncActionView::Replace(renamed_host_header(ctx.payload@, #[trigger] host_variants()[i])))
    } else {
        gives(r, DesyncActionView::Replace(rewritten_host_line(ctx.payload@, mode)))
    }
}

fn host_variant(i: usize) -> (r: Vec<u8>)
    requires
        i < 6,
    ensures
        r@ == host_variants()[i as int],
{
    let r = if i == 0 {
        vec![104u8, 79, 115, 84]
    } else if i == 1 {
        vec![72u8, 79, 83, 84]
    } else if i == 2 {
        vec![72u8, 111, 83, 116]
    } else if i == 3 {
        vec![104u8, 111, 83, 84]
    } else if i == 4 {
        vec![72u8, 79, 115, 116]
    } else {
        vec![104u8, 111, 115, 84]
    };
    assert(r@ =~= host_variants()[i as int]);
    r
}

/// The payload with the first header name `host` written as `name`.
fn replace_header_name(payload: &[u8], name: &[u8]) -> (r: Vec<u8>)
    requires
        name@.len() == 4,
    ensures
        r@ == renamed_host_header(payload@, name@),
{
    let len = payload.len();
    let pattern: [u8; 6] = [10u8, 104, 111, 115, 116, 58];
    assert(pattern@ =~= host_header_start());
    let mut i: usize = 0;
    while i < len && len - i >= 6
        invariant
            len == payload@.len(),
            i <= len,
            name@.len() == 4,
            pattern@ == host_header_start(),
            find_host_header_start(payload@, 0) == find_host_header_start(payload@, i as int),
        decreases len - i,
    {
        if range_eq_ignore_case(payload, i, pattern.as_slice(), 0, 6) {
            assert(pattern@.subrange(0, 6) =~= pattern@);
            let mut r: Vec<u8> = Vec::new();
            extend_range(&mut r, payload, 0, i + 1);
            extend_range(&mut r, name, 0, 4);
            extend_range(&mut r, payload, i + 5, len);
            assert(name@.subrange(0, 4) =~= name@);
            return r;
        }
        assert(pattern@.subrange(0, 6) =~= pattern@);
        i = i + 1;
    }
    let mut r: Vec<u8> = Vec::new();
    extend_range(&mut r, payload, 0, len);
    assert(payload@.subrange(0, len as int) =~= payload@);
    r
}

fn line_end_from(p: &[u8], s: usize) -> (e: usize)
    requires
        s <= p@.len(),
    ensures
        e as int == crlf_from(p@, s as int),
{
    proof {
        lemma_crlf_from(p@, s as int);
    }
    let len = p.len();
    let mut i = s;
    while i < len && len - i > 1
        invariant
            len == p@.len(),
            s <= i <= len,
            crlf_from(p@, s as int) == crlf_from(p@, i as int),
        decreases len - i,
    {
        if p[i] == 13 && p[i + 1] == 10 {
            return i;
        }
        i = i + 1;
    }
    len
}

fn colon_in(p: &[u8], s: usize, e: usize) -> (r: Option<usize>)
    requires
        s <= e <= p@.len(),
    ensures
        match first_colon(p@, s as int, e as int) {
            Some(c) => r == Some(c as usize),
            None => r is None,
        },
{
    let mut i = s;
    while i < e
        invariant
            s <= i <= e <= p@.len(),
            first_colon(p@, s as int, i as int) is None,
        decreases e - i,
    {
        if p[i] == 58 {
            proof {
                assert(first_colon(p@, s as int, i + 1) == Some(i as int));
                lemma_first_colon_extend(p@, s as int, i + 1, e as int);
            }
            return Some(i);
        }
        i = i + 1;
    }
    None
}

/// Append the bytes the Host line becomes.
fn push_rewritten_line(out: &mut Vec<u8>, mode: HostMode, name: &[u8], value: &[u8])
    ensures
        final(out)@ == old(out)@ + rewritten_line(mode, name@, value@),
{
    let ghost start = out@;
    extend_range(out, name, 0, name.len());
    match mode {
        HostMode::ExtraSpace => {
            out.push(58);
            out.push(32);
            out.push(32);
            out.push(32);
            extend_range(out, value, 0, value.len());
        },
        HostMode::Tab => {
            out.push(58);
            out.push(9);
            extend_range(out, value, 0, value.len());
        },
        HostMode::LineWrapping => {
            out.push(58);
            out.push(13);
            out.push(10);
            out.push(32);
            extend_range(out, value, 0, value.len());
        },
        _ => {
            out.push(58);
            out.push(32);
            extend_range(out, value, 0, value.len());
            out.push(13);
            out.push(10);
            let decoy = vec![72u8, 111, 115, 116, 58, 32, 100, 101, 99, 111, 121, 46, 105, 110, 118, 97, 108, 105, 100];
            assert(decoy@ =~= decoy_host_line());
            extend_range(out, decoy.as_slice(), 0, decoy.len());
            assert(decoy@.subrange(0, decoy@.len() as int) =~= decoy@);
        },
    }
    assert(name@.subrange(0, name@.len() as int) =~= name@);
    assert(value@.subrange(0, value@.len() as int) =~= value@);
    assert(out@ =~= start + rewritten_line(mode, name@, value@));
}

/// The payload with its first Host header line rewritten in a white-space
/// mode.
fn replace_host_line(payload: &[u8], mode: HostMode) -> (r: Vec<u8>)
    requires
        valid_utf8(payload@),
    ensures
        r@ == rewritten_host_line(payload@, mode),
{
    let len = payload.len();
    let mut s: usize = 0;
    let host_name: [u8; 4] = [72u8, 111, 115, 116];
    assert(host_name@ =~= host_name_bytes());
    loop
        invariant
            len == payload@.len(),
            s <= len,
            valid_utf8(payload@),
            host_name@ == host_name_bytes(),
            host_line(payload@, 0) == host_line(payload@, s as int),
        decreases len - s,
    {
        let e = line_end_from(payload, s);
        proof {
            lemma_crlf_from(payload@, s as int);
        }
        let colon = colon_in(payload, s, e);
        proof {
            lemma_first_colon_in_range(payload@, s as int, e as int);
        }
        if let Some(c) = colon {
            if eq_ignore_case_range(payload, s, c, host_name.as_slice()) {
                let value = &payload[c + 1..e];
                proof {
                    assert(payload@[c as int] == 58);
                    lemma_valid_utf8_ascii_cut(payload@, c + 1, e as int);
                }
                let decoded = utf8_lossy_string(value);
                let trimmed = trim_string(&decoded);
                let tb = trimmed.as_str().as_bytes();
                let mut out: Vec<u8> = Vec::new();
                extend_range(&mut out, payload, 0, s);
                push_rewritten_line(&mut out, mode, &payload[s..c], tb);
                extend_range(&mut out, payload, e, len);
                return out;
            }
        }
        if e >= len {
            let mut out: Vec<u8> = Vec::new();
            extend_range(&mut out, payload, 0, len);
            assert(payload@.subrange(0, len as int) =~= payload@);
            return out;
        }
        s = e + 2;
    }
}

fn eq_ignore_case_range(p: &[u8], s: usize, c: usize, word: &[u8]) -> (r: bool)
    requires
        s <= c <= p@.len(),
    ensures
        r == eq_ignore_case(p@.subrange(s as int, c as int), word@),
{
    if c - s != word.len() {
        return false;
    }
    let r = range_eq_ignore_case(p, s, word, 0, word.len());
    assert(word@.subrange(0, word@.len() as int) =~= word@);
    r
}

/// Rewrite the Host header of an HTTP request in the given mode.
pub fn apply(ctx: &PayloadContext, mode: HostMode) -> (r: Result<DesyncAction, Error>)
    ensures
        http_host_result(ctx, mode, r),
{
    match &ctx.protocol {
        AppProtocol::HttpRequest { host: Some(_), .. } => {},
        _ => return Err(Error::not_applicable("http_host requires HTTP request with Host header")),
    }
    let payload = ctx.payload.as_slice();
    if !utf8_is_valid(payload) {
        return Err(Error::not_applicable("HTTP payload is not valid UTF-8"));
    }
    let new_payload = match mode {
        HostMode::MixedCase => {
            let idx = random_usize(0, 5);
            let name = host_variant(idx);
            let out = replace_header_name(payload, name.as_slice());
            assert(gives(Ok::<DesyncAction, Error>(DesyncAction::Replace(out)), DesyncActionView::Replace(renamed_host_header(ctx.payload@, host_variants()[idx as int]))));
            out
        },
        _ => replace_host_line(payload, mode),
    };
    Ok(DesyncAction::Replace(new_payload))
}

/// The mode a configuration selects: its `host_mode` when that names one,
/// mixed case otherwise.
pub open spec fn configured_host_mode(config: &TechniqueConfig) -> HostMode {
    match config.host_mode {
        Some(s) => match spec_host_mode(s@) {
            Some(m) => m,
            None => HostMode::MixedCase,
        },
        None => HostMode::MixedCase,
    }
}

/// The HTTP Host manipulation technique.
pub struct HttpHostTechnique;

impl Technique for HttpHostTechnique {
    open spec fn spec_name(&self) -> Seq<char> {
        seq!['h', 't', 't', 'p', '_', 'h', 'o', 's', 't']
    }

    open spec fn admits(&self, ctx: &PayloadContext, split_pos: &SplitPosition, config: &TechniqueConfig) -> bool {
        true
    }

    open spec fn outcome(
        &self,
        ctx: &PayloadContext,
        split_pos: &SplitPosition,
        config: &TechniqueConfig,
        stealth: Option<&StealthConfig>,
        r: Result<DesyncAction, Error>,
    ) -> bool {
        http_host_result(ctx, configured_host_mode(config), r)
    }

    fn name(&self) -> (n: &'static str) {
        let n = "http_host";
        proof {
            reveal_strlit("http_host");
        }
        n
    }

    fn apply(
        &self,
        ctx: &PayloadContext,
        split_pos: &SplitPosition,
        config: &TechniqueConfig,
        stealth: Option<&StealthConfig>,
    ) -> (r: Result<DesyncAction, Error>) {
        let mode = match &config.host_mode {
            Some(s) => match HostMode::from_str_opt(s.as_str()) {
                Some(m) => m,
                None => HostMode::default(),
            },
            None => HostMode::default(),
        };
        apply(ctx, mode)
    }
}

} // verus!
