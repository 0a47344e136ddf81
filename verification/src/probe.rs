//! The TLS ClientHello that probes send: a realistic TLS 1.2/1.3 hello
//! with the usual extensions, so that servers answer it with a
//! ServerHello.

use vstd::prelude::*;
use vstd::utf8::encode_utf8;
use crate::bytes::{be16, be24, be16_bytes, extend_range, lossy_text, push_be16};
use crate::tls::{spec_try_parse, continuation, ParseStatusView};
use crate::types::AppProtocolView;
use crate::random::push_random_bytes;

verus! {

/// The SNI extension for the host name bytes `sb` (lengths kept to 16
/// bits).
pub open spec fn probe_sni_ext(sb: Seq<u8>) -> Seq<u8> {
    let n = sb.len() as int;
    be16_bytes(0) + be16_bytes((5 + n) % 65536) + be16_bytes((3 + n) % 65536) + seq![0u8] + be16_bytes(n % 65536) + sb
}

/// The fixed extensions after SNI: EC point formats (uncompressed),
/// supported groups (x25519, secp256r1, secp384r1, secp521r1), signature
/// algorithms, supported versions (TLS 1.3, TLS 1.2) and ALPN (`h2`,
/// `http/1.1`).
pub open spec fn probe_fixed_exts() -> Seq<u8> {
    seq![0x00u8, 0x0b, 0x00, 0x02, 0x01, 0x00]
    + seq![0x00u8, 0x0a, 0x00, 0x0a, 0x00, 0x08, 0x00, 0x1d, 0x00, 0x17, 0x00, 0x18, 0x00, 0x19]
    + seq![0x00u8, 0x0d, 0x00, 0x12, 0x00, 0x10, 0x04, 0x03, 0x05, 0x03, 0x08, 0x04, 0x08, 0x05, 0x08, 0x06, 0x04, 0x01,
        0x05, 0x01, 0x06, 0x01]
    + seq![0x00u8, 0x2b, 0x00, 0x05, 0x04, 0x03, 0x04, 0x03, 0x03]
    + seq![0x00u8, 0x10, 0x00, 0x0e, 0x00, 0x0c, 0x02, 0x68, 0x32, 0x08, 0x68, 0x74, 0x74, 0x70, 0x2f, 0x31, 0x2e, 0x31]
}

/// The key share extension: one x25519 share with the 32-byte `key`.
pub open spec fn probe_key_share(key: Seq<u8>) -> Seq<u8> {
    seq![0x00u8, 0x33, 0x00, 0x26, 0x00, 0x24, 0x00, 0x1d, 0x00, 0x20] + key
}

/// All extensions of the probe hello.
pub open spec fn probe_extensions(sb: Seq<u8>, key: Seq<u8>) -> Seq<u8> {
    probe_sni_ext(sb) + probe_fixed_exts() + probe_key_share(key)
}

/// The cipher suites offered: three TLS 1.3 suites, then four ECDHE GCM
/// suites.
pub open spec fn probe_cipher_suites() -> Seq<u8> {
    seq![0x13u8, 0x01, 0x13, 0x02, 0x13, 0x03, 0xc0, 0x2c, 0xc0, 0x2b, 0xc0, 0x30, 0xc0, 0x2f]
}

/// The handshake bytes of the probe hello before its extensions: type,
/// length, version, client random, session ID, cipher suites, null
/// compression and the extensions length (for host names of `n` bytes).
pub open spec fn probe_hello_prefix(n: int, random: Seq<u8>, session_id: Seq<u8>) -> Seq<u8> {
    seq![0x01u8, 0x00] + be16_bytes((207 + n) % 65536) + seq![0x03u8, 0x03] + random + seq![32u8] + session_id
        + seq![0x00u8, 0x0e] + probe_cipher_suites() + seq![0x01u8, 0x00] + be16_bytes((120 + n) % 65536)
}

/// The probe ClientHello for the host name bytes `sb`, with client random
/// `random`, session ID `session_id` (32 bytes, for middlebox
/// compatibility) and x25519 key `key`; length fields keep their low 16
/// bits.
pub open spec fn probe_hello_layout(sb: Seq<u8>, random: Seq<u8>, session_id: Seq<u8>, key: Seq<u8>) -> Seq<u8> {
    let n = sb.len() as int;
    handshake_record(probe_hello_prefix(n, random, session_id) + probe_extensions(sb, key))
}

/// A TLS 1.0 handshake record carrying `hs` (length kept to 16 bits).
pub open spec fn handshake_record(hs: Seq<u8>) -> Seq<u8> {
    seq![0x16u8, 0x03, 0x01] + be16_bytes(hs.len() as int % 65536) + hs
}

fn push_bytes(out: &mut Vec<u8>, v: &Vec<u8>)
    ensures
        final(out)@ == old(out)@ + v@,
{
    extend_range(out, v.as_slice(), 0, v.len());
    assert(v@.subrange(0, v@.len() as int) =~= v@);
}

/// Append `count` random bytes, handing back the bytes appended.
fn push_random(out: &mut Vec<u8>, count: usize) -> (r: Ghost<Seq<u8>>)
    ensures
        r@.len() == count,
        final(out)@ == old(out)@ + r@,
{
    let ghost start = out@;
    push_random_bytes(out, count);
    let ghost added = out@.subrange(start.len() as int, out@.len() as int);
    assert(out@ =~= start + added);
    Ghost(added)
}

/// Build the probe ClientHello for `domain`, with fresh random client
/// random, session ID and key share.
#[verifier::spinoff_prover]
#[verifier::rlimit(40)]
pub fn build_probe_client_hello(domain: &str) -> (r: Vec<u8>)
    requires
        encode_utf8(domain@).len() <= isize::MAX,
    ensures
        exists|random: Seq<u8>, session_id: Seq<u8>, key: Seq<u8>|
            random.len() == 32 && session_id.len() == 32 && key.len() == 32 && r@ == #[trigger] probe_hello_layout(
                encode_utf8(domain@),
                random,
                session_id,
                key,
            ),
{
    let sb = domain.as_bytes();
    let n = sb.len();
    let mut ext: Vec<u8> = Vec::new();
    push_be16(&mut ext, 0);
    push_be16(&mut ext, (5 + n) % 65536);
    push_be16(&mut ext, (3 + n) % 65536);
    ext.push(0);
    push_be16(&mut ext, n % 65536);
    extend_range(&mut ext, sb, 0, n);
    assert(sb@.subrange(0, n as int) =~= sb@);
    assert(ext@ =~= probe_sni_ext(sb@));
    let fixed: Vec<u8> = vec![
        0x00u8, 0x0b, 0x00, 0x02, 0x01, 0x00,
        0x00, 0x0a, 0x00, 0x0a, 0x00, 0x08, 0x00, 0x1d, 0x00, 0x17, 0x00, 0x18, 0x00, 0x19,
        0x00, 0x0d, 0x00, 0x12, 0x00, 0x10, 0x04, 0x03, 0x05, 0x03, 0x08, 0x04, 0x08, 0x05, 0x08, 0x06, 0x04, 0x01,
        0x05, 0x01, 0x06, 0x01,
        0x00, 0x2b, 0x00, 0x05, 0x04, 0x03, 0x04, 0x03, 0x03,
        0x00, 0x10, 0x00, 0x0e, 0x00, 0x0c, 0x02, 0x68, 0x32, 0x08, 0x68, 0x74, 0x74, 0x70, 0x2f, 0x31, 0x2e, 0x31,
    ];
    assert(fixed@ =~= probe_fixed_exts());
    push_bytes(&mut ext, &fixed);
    let key_head: Vec<u8> = vec![0x00u8, 0x33, 0x00, 0x26, 0x00, 0x24, 0x00, 0x1d, 0x00, 0x20];
    push_bytes(&mut ext, &key_head);
    let ghost before_key = ext@;
    let Ghost(key) = push_random(&mut ext, 32);
    assert(ext@ =~= probe_extensions(sb@, key));
    let ext_len = ext.len();
    assert(ext_len == 120 + n);

    let mut session_id: Vec<u8> = Vec::new();
    let Ghost(sid) = push_random(&mut session_id, 32);
    assert(session_id@ =~= sid);

    let mut buf: Vec<u8> = Vec::new();
    buf.push(0x16);
    buf.push(0x03);
    buf.push(0x01);
    push_be16(&mut buf, (211 + n) % 65536);
    buf.push(0x01);
    buf.push(0x00);
    push_be16(&mut buf, (207 + n) % 65536);
    buf.push(0x03);
    buf.push(0x03);
    let ghost before_random = buf@;
    let Ghost(random) = push_random(&mut buf, 32);
    buf.push(32);
    push_bytes(&mut buf, &session_id);
    let suites: Vec<u8> = vec![0x00u8, 0x0e, 0x13, 0x01, 0x13, 0x02, 0x13, 0x03, 0xc0, 0x2c, 0xc0, 0x2b, 0xc0, 0x30, 0xc0, 0x2f, 0x01, 0x00];
    push_bytes(&mut buf, &suites);
    push_be16(&mut buf, ext_len % 65536);
    push_bytes(&mut buf, &ext);
    assert(buf@ =~= probe_hello_layout(sb@, random, sid, key));
    buf
}

proof fn lemma_be16_bytes(x: int)
    requires
        0 <= x < 65536,
    ensures
        be16_bytes(x).len() == 2,
        be16_bytes(x)[0] as int * 256 + be16_bytes(x)[1] as int == x,
{
    assert(x / 256 < 256 && (x / 256) * 256 + x % 256 == x) by (nonlinear_arith)
        requires
            0 <= x < 65536,
    ;
}

proof fn lemma_prefix_facts(n: int, random: Seq<u8>, session_id: Seq<u8>)
    requires
        random.len() == 32,
        session_id.len() == 32,
        0 <= n <= 18221,
    ensures
        probe_hello_prefix(n, random, session_id).len() == 91,
        probe_hello_prefix(n, random, session_id)[0] == 1,
        be24(probe_hello_prefix(n, random, session_id), 1) == 207 + n,
        probe_hello_prefix(n, random, session_id)[38] == 32,
        be16(probe_hello_prefix(n, random, session_id), 71) == 14,
        probe_hello_prefix(n, random, session_id)[87] == 1,
        be16(probe_hello_prefix(n, random, session_id), 89) == 120 + n,
{
    lemma_be16_bytes(207 + n);
    lemma_be16_bytes(120 + n);
    let p = probe_hello_prefix(n, random, session_id);
    let a = seq![0x01u8, 0x00] + be16_bytes(207 + n) + seq![0x03u8, 0x03];
    let b = random + seq![32u8] + session_id;
    let c = seq![0x00u8, 0x0e] + probe_cipher_suites() + seq![0x01u8, 0x00] + be16_bytes(120 + n);
    assert(p =~= a + b + c);
    assert(a.len() == 6 && b.len() == 65 && c.len() == 20);
    assert(p[0] == a[0] && p[1] == a[1] && p[2] == a[2] && p[3] == a[3]);
    assert(p[38] == b[32]);
    assert(p[71] == c[0] && p[72] == c[1]);
    assert(p[87] == c[16]);
    assert(p[89] == c[18] && p[90] == c[19]);
}

proof fn lemma_extension_facts(sb: Seq<u8>, key: Seq<u8>)
    requires
        key.len() == 32,
        sb.len() <= 18221,
    ensures
        probe_extensions(sb, key).len() == 120 + sb.len(),
        be16(probe_extensions(sb, key), 0) == 0,
        be16(probe_extensions(sb, key), 2) == 5 + sb.len(),
        probe_extensions(sb, key).subrange(4, 9 + sb.len() as int) == be16_bytes(3 + sb.len() as int) + seq![0u8]
            + be16_bytes(sb.len() as int) + sb,
{
    let n = sb.len() as int;
    lemma_be16_bytes(5 + n);
    lemma_be16_bytes(3 + n);
    lemma_be16_bytes(n);
    lemma_be16_bytes(0);
    let e = probe_extensions(sb, key);
    let sni_data = be16_bytes(3 + n) + seq![0u8] + be16_bytes(n) + sb;
    let head = be16_bytes(0) + be16_bytes(5 + n);
    assert(probe_sni_ext(sb) =~= head + sni_data);
    assert(e =~= head + sni_data + (probe_fixed_exts() + probe_key_share(key)));
    assert(e[0] == head[0] && e[1] == head[1] && e[2] == head[2] && e[3] == head[3]);
    assert(e.subrange(4, 9 + n) =~= sni_data);
}

proof fn lemma_sni_data(sb: Seq<u8>)
    requires
        sb.len() <= 18221,
    ensures
        crate::tls::spec_parse_sni_ext(be16_bytes(3 + sb.len() as int) + seq![0u8] + be16_bytes(sb.len() as int) + sb, 100)
            == ParseStatusView::Complete(
            AppProtocolView::TlsClientHello { sni: Some(lossy_text(sb)), sni_offset: 105, sni_len: sb.len() as usize },
        ),
{
    let n = sb.len() as int;
    lemma_be16_bytes(3 + n);
    lemma_be16_bytes(n);
    let e = be16_bytes(3 + n) + seq![0u8] + be16_bytes(n) + sb;
    assert(e.len() == 5 + n);
    assert(e[2] == 0);
    assert(be16(e, 3) == n);
    assert(e.subrange(5, 5 + n) =~= sb);
}

proof fn lemma_record_layer(d: Seq<u8>, hs: Seq<u8>)
    requires
        5 <= d.len(),
        d[0] == 0x16,
        be16(d, 1) == 0x0301,
        be16(d, 3) == d.len() - 5,
        0 < d.len() - 5 <= 18432,
        d.subrange(5, d.len() as int) == hs,
    ensures
        spec_try_parse(d) == crate::tls::spec_parse_handshake(hs),
{
    crate::tls::lemma_single_record_offset(d);
    assert(continuation(d, d.len() as int) == Ok::<Seq<u8>, int>(Seq::empty()));
    assert(hs + Seq::<u8>::empty() =~= hs);
}

proof fn lemma_hello_body(hs: Seq<u8>, n: int)
    requires
        0 <= n <= 18221,
        hs.len() == 211 + n,
        hs[0] == 1,
        be24(hs, 1) == 207 + n,
        hs[38] == 32,
        be16(hs, 71) == 14,
        hs[87] == 1,
        be16(hs, 89) == 120 + n,
    ensures
        crate::tls::spec_parse_handshake(hs) == crate::tls::find_sni_ext(hs, 91, 211 + n),
{
}

proof fn lemma_first_extension(hs: Seq<u8>, n: int)
    requires
        0 <= n <= 18221,
        hs.len() == 211 + n,
        be16(hs, 91) == 0,
        be16(hs, 93) == 5 + n,
    ensures
        crate::tls::find_sni_ext(hs, 91, 211 + n) == crate::tls::spec_parse_sni_ext(hs.subrange(95, 100 + n), 100),
{
}

proof fn lemma_joined_facts(p: Seq<u8>, e: Seq<u8>, n: int)
    requires
        0 <= n <= 18221,
        p.len() == 91,
        p[0] == 1,
        be24(p, 1) == 207 + n,
        p[38] == 32,
        be16(p, 71) == 14,
        p[87] == 1,
        be16(p, 89) == 120 + n,
        e.len() == 120 + n,
        be16(e, 0) == 0,
        be16(e, 2) == 5 + n,
    ensures
        (p + e).len() == 211 + n,
        (p + e)[0] == 1,
        be24(p + e, 1) == 207 + n,
        (p + e)[38] == 32,
        be16(p + e, 71) == 14,
        (p + e)[87] == 1,
        be16(p + e, 89) == 120 + n,
        be16(p + e, 91) == 0,
        be16(p + e, 93) == 5 + n,
        (p + e).subrange(95, 100 + n) == e.subrange(4, 9 + n),
{
    let hs = p + e;
    assert(hs[0] == p[0] && hs[1] == p[1] && hs[2] == p[2] && hs[3] == p[3]);
    assert(hs[38] == p[38]);
    assert(hs[71] == p[71] && hs[72] == p[72] && hs[87] == p[87] && hs[89] == p[89] && hs[90] == p[90]);
    assert(hs[91] == e[0] && hs[92] == e[1] && hs[93] == e[2] && hs[94] == e[3]);
    assert(hs.subrange(95, 100 + n) =~= e.subrange(4, 9 + n));
}

proof fn lemma_record_facts(hs: Seq<u8>)
    requires
        hs.len() < 65536,
    ensures
        handshake_record(hs).len() == 5 + hs.len(),
        handshake_record(hs)[0] == 0x16,
        be16(handshake_record(hs), 1) == 0x0301,
        be16(handshake_record(hs), 3) == hs.len(),
        handshake_record(hs).subrange(5, 5 + hs.len() as int) == hs,
{
    lemma_be16_bytes(hs.len() as int);
    let d = handshake_record(hs);
    let head = seq![0x16u8, 0x03, 0x01] + be16_bytes(hs.len() as int);
    assert(d == head + hs);
    assert(d[0] == head[0] && d[1] == head[1] && d[2] == head[2] && d[3] == head[3] && d[4] == head[4]);
    assert(d.subrange(5, 5 + hs.len() as int) =~= hs);
}

/// The probe ClientHello parses as a complete ClientHello whose SNI is the
/// host name, right after the fixed 105 bytes before it, as long as the
/// record stays within the largest record accepted.
pub proof fn lemma_probe_hello_parses(sb: Seq<u8>, random: Seq<u8>, session_id: Seq<u8>, key: Seq<u8>)
    requires
        random.len() == 32,
        session_id.len() == 32,
        key.len() == 32,
        sb.len() <= 18221,
    ensures
        spec_try_parse(probe_hello_layout(sb, random, session_id, key)) == ParseStatusView::Complete(
            AppProtocolView::TlsClientHello { sni: Some(lossy_text(sb)), sni_offset: 105, sni_len: sb.len() as usize },
        ),
{
    let n = sb.len() as int;
    let d = probe_hello_layout(sb, random, session_id, key);
    let p = probe_hello_prefix(n, random, session_id);
    let e = probe_extensions(sb, key);
    lemma_prefix_facts(n, random, session_id);
    lemma_extension_facts(sb, key);
    lemma_joined_facts(p, e, n);
    lemma_record_facts(p + e);
    lemma_record_layer(d, p + e);
    lemma_hello_body(p + e, n);
    lemma_first_extension(p + e, n);
    lemma_sni_data(sb);
}

/// Whether the first six bytes a server sent back start a ServerHello: a
/// handshake record (0x16) whose first message is of type 2.
pub fn is_server_hello(head: &[u8; 6]) -> (r: bool)
    ensures
        r == (head@[0] == 0x16 && head@[5] == 0x02),
{
    head[0] == 0x16 && head[5] == 0x02
}

} // verus!
