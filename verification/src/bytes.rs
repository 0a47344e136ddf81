//! Byte-level helpers: big-endian fields, byte ranges, ASCII case folding,
//! and the UTF-8 conversions the parsers need.

use vstd::prelude::*;
use vstd::utf8::*;

verus! {

/// The deep view of a byte vector is its view.
pub proof fn lemma_bytes_deep_view(v: &Vec<u8>)
    ensures
        v.deep_view() == v@,
{
    assert(v.deep_view() =~= v@);
}

/// Big-endian 16-bit value stored at `s[i]`, `s[i + 1]`.
pub open spec fn be16(s: Seq<u8>, i: int) -> int {
    s[i] as int * 256 + s[i + 1] as int
}

/// Big-endian 24-bit value stored at `s[i..i + 3]`.
pub open spec fn be24(s: Seq<u8>, i: int) -> int {
    s[i] as int * 65536 + s[i + 1] as int * 256 + s[i + 2] as int
}

/// The two big-endian bytes of a 16-bit value.
pub open spec fn be16_bytes(x: int) -> Seq<u8> {
    seq![(x / 256) as u8, (x % 256) as u8]
}

/// Read a big-endian 16-bit value.
pub fn read_be16(data: &[u8], i: usize) -> (r: usize)
    requires
        i + 1 < data@.len(),
    ensures
        r as int == be16(data@, i as int),
        r < 65536,
{
    (data[i] as usize) * 256 + (data[i + 1] as usize)
}

/// Append the two big-endian bytes of `x`.
pub fn push_be16(out: &mut Vec<u8>, x: usize)
    requires
        x < 65536,
    ensures
        final(out)@ == old(out)@ + be16_bytes(x as int),
{
    out.push((x / 256) as u8);
    out.push((x % 256) as u8);
    assert(final(out)@ =~= old(out)@ + be16_bytes(x as int));
}

/// Append `data[lo..hi]`.
pub fn extend_range(out: &mut Vec<u8>, data: &[u8], lo: usize, hi: usize)
    requires
        lo <= hi <= data@.len(),
    ensures
        final(out)@ == old(out)@ + data@.subrange(lo as int, hi as int),
{
    let ghost start = out@;
    let mut i = lo;
    while i < hi
        invariant
            lo <= i <= hi <= data@.len(),
            out@ == start + data@.subrange(lo as int, i as int),
        decreases hi - i,
    {
        out.push(data[i]);
        i = i + 1;
        assert(out@ =~= start + data@.subrange(lo as int, i as int));
    }
}

/// A fresh vector holding `data[lo..hi]`.
pub fn copy_range(data: &[u8], lo: usize, hi: usize) -> (r: Vec<u8>)
    requires
        lo <= hi <= data@.len(),
    ensures
        r@ == data@.subrange(lo as int, hi as int),
{
    let mut r: Vec<u8> = Vec::new();
    extend_range(&mut r, data, lo, hi);
    assert(r@ =~= data@.subrange(lo as int, hi as int));
    r
}

/// Whether two byte sequences are equal.
pub fn bytes_eq(a: &[u8], b: &[u8]) -> (r: bool)
    ensures
        r == (a@ == b@),
{
    if a.len() != b.len() {
        return false;
    }
    let mut i: usize = 0;
    while i < a.len()
        invariant
            a@.len() == b@.len(),
            i <= a@.len(),
            forall|j: int| 0 <= j < i ==> a@[j] == b@[j],
        decreases a@.len() - i,
    {
        if a[i] != b[i] {
            return false;
        }
        i = i + 1;
    }
    assert(a@ =~= b@);
    true
}

/// Whether `data` starts with `prefix`.
pub fn starts_with(data: &[u8], prefix: &[u8]) -> (r: bool)
    ensures
        r == (prefix@.len() <= data@.len() && data@.subrange(0, prefix@.len() as int) == prefix@),
{
    if prefix.len() > data.len() {
        return false;
    }
    let mut i: usize = 0;
    while i < prefix.len()
        invariant
            prefix@.len() <= data@.len(),
            i <= prefix@.len(),
            forall|j: int| 0 <= j < i ==> data@[j] == prefix@[j],
        decreases prefix@.len() - i,
    {
        if data[i] != prefix[i] {
            assert(data@.subrange(0, prefix@.len() as int)[i as int] != prefix@[i as int]);
            return false;
        }
        i = i + 1;
    }
    assert(data@.subrange(0, prefix@.len() as int) =~= prefix@);
    true
}

/// Lower-case form of an ASCII byte; other bytes are unchanged.
pub open spec fn ascii_lower(b: u8) -> u8 {
    if 65 <= b <= 90 {
        (b + 32) as u8
    } else {
        b
    }
}

/// Upper-case form of an ASCII byte; other bytes are unchanged.
pub open spec fn ascii_upper(b: u8) -> u8 {
    if 97 <= b <= 122 {
        (b - 32) as u8
    } else {
        b
    }
}

/// Whether a byte is an ASCII letter.
pub open spec fn is_ascii_alpha(b: u8) -> bool {
    (65 <= b <= 90) || (97 <= b <= 122)
}

/// Byte-wise lower-casing of ASCII letters.
pub open spec fn lower_seq(s: Seq<u8>) -> Seq<u8> {
    s.map_values(|b: u8| ascii_lower(b))
}

/// Equality of two byte strings up to ASCII case.
pub open spec fn eq_ignore_case(a: Seq<u8>, b: Seq<u8>) -> bool {
    a.len() == b.len() && forall|i: int| 0 <= i < a.len() ==> ascii_lower(a[i]) == ascii_lower(b[i])
}

pub fn to_ascii_lower(b: u8) -> (r: u8)
    ensures
        r == ascii_lower(b),
{
    if 65 <= b && b <= 90 {
        b + 32
    } else {
        b
    }
}

pub fn to_ascii_upper(b: u8) -> (r: u8)
    ensures
        r == ascii_upper(b),
{
    if 97 <= b && b <= 122 {
        b - 32
    } else {
        b
    }
}

/// Compare `a[a_lo..a_lo + n]` with `b[b_lo..b_lo + n]` up to ASCII case.
pub fn range_eq_ignore_case(a: &[u8], a_lo: usize, b: &[u8], b_lo: usize, n: usize) -> (r: bool)
    requires
        a_lo + n <= a@.len(),
        b_lo + n <= b@.len(),
    ensures
        r == eq_ignore_case(
            a@.subrange(a_lo as int, a_lo + n),
            b@.subrange(b_lo as int, b_lo + n),
        ),
{
    let ghost sa = a@.subrange(a_lo as int, a_lo + n);
    let ghost sb = b@.subrange(b_lo as int, b_lo + n);
    let a_len = a.len();
    let b_len = b.len();
    let mut i: usize = 0;
    while i < n
        invariant
            a_len == a@.len(),
            b_len == b@.len(),
            a_lo + n <= a@.len(),
            b_lo + n <= b@.len(),
            sa == a@.subrange(a_lo as int, a_lo + n),
            sb == b@.subrange(b_lo as int, b_lo + n),
            i <= n,
            forall|j: int| 0 <= j < i ==> ascii_lower(#[trigger] sa[j]) == ascii_lower(sb[j]),
        decreases n - i,
    {
        assert(sa[i as int] == a@[a_lo + i]);
        assert(sb[i as int] == b@[b_lo + i]);
        if to_ascii_lower(a[a_lo + i]) != to_ascii_lower(b[b_lo + i]) {
            return false;
        }
        i = i + 1;
    }
    true
}

/// Whether two byte strings are equal up to ASCII case.
pub fn eq_ignore_ascii_case(a: &[u8], b: &[u8]) -> (r: bool)
    ensures
        r == eq_ignore_case(a@, b@),
{
    if a.len() != b.len() {
        return false;
    }
    let r = range_eq_ignore_case(a, 0, b, 0, a.len());
    assert(a@.subrange(0, a@.len() as int) =~= a@);
    assert(b@.subrange(0, b@.len() as int) =~= b@);
    r
}

/// Whether every byte is ASCII (below 0x80).
pub open spec fn all_ascii(s: Seq<u8>) -> bool {
    forall|i: int| 0 <= i < s.len() ==> s[i] < 128
}

/// The characters that ASCII bytes stand for.
pub open spec fn ascii_chars(s: Seq<u8>) -> Seq<char> {
    s.map_values(|b: u8| b as char)
}

/// ASCII bytes are valid UTF-8.
pub proof fn lemma_ascii_valid_utf8(s: Seq<u8>)
    requires
        all_ascii(s),
    ensures
        valid_utf8(s),
    decreases s.len(),
{
    if s.len() > 0 {
        assert(length_of_first_scalar(s) == 1);
        assert(pop_first_scalar(s) =~= s.drop_first());
        lemma_ascii_valid_utf8(s.drop_first());
    }
}

/// In valid UTF-8 the byte after an ASCII byte starts a character.
pub proof fn lemma_boundary_after_ascii(p: Seq<u8>, a: int)
    requires
        valid_utf8(p),
        0 < a < p.len(),
        p[a - 1] < 128,
    ensures
        !is_continuation_byte(p[a]),
{
    is_char_boundary_start_end_of_seq(p);
    is_char_boundary_iff_not_is_continuation_byte(p, a - 1);
    valid_utf8_split(p, a - 1);
    let q = p.subrange(a - 1, p.len() as int);
    assert(q[0] < 128);
    assert(length_of_first_scalar(q) == 1);
    assert(pop_first_scalar(q) =~= p.subrange(a, p.len() as int));
    let t = p.subrange(a, p.len() as int);
    assert(valid_utf8(t));
    assert(t.len() > 0);
    assert(valid_first_scalar(t));
    assert(t[0] == p[a]);
}

/// Cutting valid UTF-8 right after an ASCII byte (or at the start) and
/// right before one (or at the end) leaves valid UTF-8.
pub proof fn lemma_valid_utf8_ascii_cut(p: Seq<u8>, a: int, b: int)
    requires
        valid_utf8(p),
        0 <= a <= b <= p.len(),
        a == 0 || p[a - 1] < 128,
        b == p.len() || p[b] < 128,
    ensures
        valid_utf8(p.subrange(a, b)),
{
    is_char_boundary_start_end_of_seq(p);
    if 0 < a < p.len() {
        is_char_boundary_iff_not_is_continuation_byte(p, a - 1);
        valid_utf8_split(p, a - 1);
        let q = p.subrange(a - 1, p.len() as int);
        assert(q.len() > 0);
        assert(q[0] < 128);
        assert(length_of_first_scalar(q) == 1);
        assert(pop_first_scalar(q) =~= p.subrange(a, p.len() as int));
        let t = p.subrange(a, p.len() as int);
        assert(valid_utf8(t));
        assert(t.len() > 0);
        assert(valid_first_scalar(t));
        assert(!is_continuation_byte(p[a]));
        is_char_boundary_iff_not_is_continuation_byte(p, a);
    }
    valid_utf8_split(p, a);
    let r = p.subrange(a, p.len() as int);
    is_char_boundary_start_end_of_seq(r);
    if b < p.len() {
        assert(r[b - a] == p[b]);
        is_char_boundary_iff_not_is_continuation_byte(r, b - a);
    } else {
        assert(b - a == r.len());
    }
    valid_utf8_split(r, b - a);
    assert(r.subrange(0, b - a) =~= p.subrange(a, b));
}

/// Name for what `String::from_utf8_lossy` decodes from a byte sequence.
pub uninterp spec fn utf8_lossy(bytes: Seq<u8>) -> Seq<char>;

/// Text decoded from bytes as `String::from_utf8_lossy` decodes it: the
/// UTF-8 decoding when the bytes are valid UTF-8, the named result
/// otherwise.
pub open spec fn lossy_text(bytes: Seq<u8>) -> Seq<char> {
    if valid_utf8(bytes) {
        decode_utf8(bytes)
    } else {
        utf8_lossy(bytes)
    }
}

/// Decodes bytes as UTF-8, replacing invalid sequences, by calling
/// `String::from_utf8_lossy`. Trusted: the result is the named value
/// `utf8_lossy(bytes)`; for valid UTF-8 input it is the plain decoding, and
/// ASCII input decodes to the same characters (as std documents).
#[verifier::external_body]
pub(crate) fn utf8_lossy_string(bytes: &[u8]) -> (s: String)
    ensures
        s@ == utf8_lossy(bytes@),
        valid_utf8(bytes@) ==> s@ == decode_utf8(bytes@),
        all_ascii(bytes@) ==> s@ == ascii_chars(bytes@) && encode_utf8(s@) == bytes@,
{
    String::from_utf8_lossy(bytes).into_owned()
}

/// Whether bytes are valid UTF-8, by calling `std::str::from_utf8`.
/// Trusted: `from_utf8` succeeds exactly on valid UTF-8, which vstd's
/// `valid_utf8` states.
#[verifier::external_body]
pub(crate) fn utf8_is_valid(bytes: &[u8]) -> (r: bool)
    ensures
        r == valid_utf8(bytes@),
{
    std::str::from_utf8(bytes).is_ok()
}

/// The characters with the Unicode `White_Space` property.
pub open spec fn is_unicode_white_space(c: char) -> bool {
    let u = c as int;
    (9 <= u <= 13) || u == 32 || u == 0x85 || u == 0xA0 || u == 0x1680 || (0x2000 <= u <= 0x200A)
        || u == 0x2028 || u == 0x2029 || u == 0x202F || u == 0x205F || u == 0x3000
}

/// `s` without its leading white space.
pub open spec fn trim_start_chars(s: Seq<char>) -> Seq<char>
    decreases s.len(),
{
    if s.len() > 0 && is_unicode_white_space(s[0]) {
        trim_start_chars(s.drop_first())
    } else {
        s
    }
}

/// `s` without its trailing white space.
pub open spec fn trim_end_chars(s: Seq<char>) -> Seq<char>
    decreases s.len(),
{
    if s.len() > 0 && is_unicode_white_space(s.last()) {
        trim_end_chars(s.drop_last())
    } else {
        s
    }
}

/// `s` without leading and trailing white space.
pub open spec fn trim_chars(s: Seq<char>) -> Seq<char> {
    trim_end_chars(trim_start_chars(s))
}

/// The string without leading and trailing white space, by calling
/// `str::trim`. Trusted: std documents that `trim` removes leading and
/// trailing characters with the Unicode `White_Space` property.
#[verifier::external_body]
pub(crate) fn trim_string(s: &String) -> (r: String)
    ensures
        r@ == trim_chars(s@),
{
    s.trim().to_string()
}

} // verus!
