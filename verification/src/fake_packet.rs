//! Fake packet injection: decoy TLS records are sent ahead of the real
//! ClientHello. In SOCKS mode they reach the server too (which discards
//! them as garbage); what they are meant to confuse is a DPI that keys on
//! the first record it sees.

use vstd::prelude::*;
use vstd::utf8::{encode_utf8, valid_utf8, valid_utf8_concat, decode_utf8_encode_utf8, encode_utf8_valid_utf8};
use crate::types::{AppProtocolView, DesyncAction, DesyncActionView, Error, FakeType, SplitPosition, StealthConfig};
use crate::context::{last_dot_before, last_index_of, lemma_last_index_in_range, PayloadContext};
use crate::technique::{refused, Technique, TechniqueConfig};
use crate::bytes::{all_ascii, be16_bytes, extend_range, lemma_ascii_valid_utf8, lemma_bytes_deep_view, lemma_valid_utf8_ascii_cut, push_be16, utf8_lossy_string};
use crate::random::{push_random_bytes, random_u8, random_usize};

verus! {

/// Fake packet parameters.
#[derive(Debug, Clone)]
pub struct FakeConfig {
    /// How the fake is made undeliverable (packet-level modes).
    pub fake_type: FakeType,
    /// TTL for `BadTtl`.
    pub ttl: u8,
    /// How many fakes to send.
    pub repeats: u32,
}

impl Default for FakeConfig {
    fn default() -> (c: Self)
        ensures
            c.fake_type == FakeType::BadTtl,
            c.ttl == 3,
            c.repeats == 1,
    {
        FakeConfig { fake_type: FakeType::BadTtl, ttl: 3, repeats: 1 }
    }
}

/// Whether `n` is a possible fake record data length: a draw from the
/// stealth size range when it is a proper range, 64 otherwise.
pub open spec fn fake_len_ok(stealth: Option<&StealthConfig>, n: int) -> bool {
    match stealth {
        Some(s) => match s.fake_size_range {
            Some((lo, hi)) => if lo < hi {
                lo <= n <= hi
            } else {
                n == 64
            },
            None => n == 64,
        },
        None => n == 64,
    }
}

/// The shape every fake record has: a header of a handshake, application
/// data or CCS type, version 3.1 to 3.3, the 16-bit length of its data,
/// and `n` data bytes; a handshake record of at least 4 data bytes starts
/// them with a ClientHello header.
pub open spec fn fake_record_shape(rec: Seq<u8>, n: int) -> bool {
    &&& rec.len() == 5 + n
    &&& rec[0] == 0x16u8 || rec[0] == 0x17u8 || rec[0] == 0x14u8
    &&& rec[1] == 3u8
    &&& 1 <= rec[2] <= 3
    &&& rec.subrange(3, 5) == be16_bytes(n % 65536)
    &&& (rec[0] == 0x16u8 && n >= 4) ==> rec[5] == 1u8 && rec[6] == 0u8 && rec.subrange(7, 9) == be16_bytes((n - 4) % 65536)
}

/// Whether `rec` is a fake record the stealth settings allow.
pub open spec fn fake_record_ok(stealth: Option<&StealthConfig>, rec: Seq<u8>) -> bool {
    exists|n: int| fake_len_ok(stealth, n) && #[trigger] fake_record_shape(rec, n)
}

/// Build one fake TLS record: a random content type (handshake 70%,
/// application data 20%, CCS 10%), a random minor version, and random
/// data of the stealth size (64 bytes by default).
pub fn build_fake_tls_record(stealth: Option<&StealthConfig>) -> (r: Vec<u8>)
    ensures
        fake_record_ok(stealth, r@),
{
    let fake_data_len: usize = match stealth {
        Some(s) => match s.fake_size_range {
            Some((lo, hi)) => if lo < hi {
                random_usize(lo, hi)
            } else {
                64
            },
            None => 64,
        },
        None => 64,
    };
    let draw = random_u8(0, 9);
    let content_type: u8 = if draw <= 6 {
        0x16
    } else if draw <= 8 {
        0x17
    } else {
        0x14
    };
    let mut record: Vec<u8> = Vec::new();
    record.push(content_type);
    record.push(0x03);
    let minor = random_u8(1, 3);
    record.push(minor);
    push_be16(&mut record, fake_data_len % 65536);
    let ghost header = record@;
    if content_type == 0x16 && fake_data_len >= 4 {
        record.push(0x01);
        let body_len = fake_data_len - 4;
        record.push(0x00);
        push_be16(&mut record, body_len % 65536);
        let ghost hs_header = record@;
        push_random_bytes(&mut record, body_len);
        assert(record@.subrange(0, 9) =~= hs_header);
        assert(record@[5] == hs_header[5]);
        assert(record@[6] == hs_header[6]);
        assert(record@.subrange(7, 9) =~= hs_header.subrange(7, 9));
        assert(record@.subrange(0, 5) =~= header) by {
            assert(hs_header.subrange(0, 5) =~= header);
        }
    } else {
        push_random_bytes(&mut record, fake_data_len);
        assert(record@.subrange(0, 5) =~= header);
    }
    assert(record@[0] == header[0]);
    assert(record@[1] == header[1]);
    assert(record@[2] == header[2]);
    assert(record@.subrange(3, 5) =~= header.subrange(3, 5));
    assert(record@.len() == 5 + fake_data_len);
    assert(record@[0] == 0x16u8 || record@[0] == 0x17u8 || record@[0] == 0x14u8);
    assert(record@[1] == 3u8);
    assert(1 <= record@[2] <= 3);
    assert(record@.subrange(3, 5) == be16_bytes(fake_data_len as int % 65536));
    assert((record@[0] == 0x16u8 && fake_data_len >= 4) ==> record@[5] == 1u8 && record@[6] == 0u8 && record@.subrange(7, 9) == be16_bytes((fake_data_len - 4) % 65536));
    assert(fake_record_shape(record@, fake_data_len as int));
    record
}

/// The results SOCKS-mode fake injection may give.
pub open spec fn fake_packet_result(
    ctx: &PayloadContext,
    config: &FakeConfig,
    stealth: Option<&StealthConfig>,
    r: Result<DesyncAction, Error>,
) -> bool {
    if ctx.protocol@ is TlsClientHello {
        r matches Ok(a) && a@ matches DesyncActionView::InjectBefore(fakes) && fakes.len() == config.repeats
            && forall|i: int| 0 <= i < fakes.len() ==> fake_record_ok(stealth, #[trigger] fakes[i])
    } else {
        refused(r)
    }
}

/// Generate the fake records to send before the real data (SOCKS mode:
/// without packet-level control, the fakes are plain TLS records).
pub fn apply_socks(ctx: &PayloadContext, config: &FakeConfig, stealth: Option<&StealthConfig>) -> (r: Result<DesyncAction, Error>)
    ensures
        fake_packet_result(ctx, config, stealth, r),
{
    match &ctx.protocol {
        crate::types::AppProtocol::TlsClientHello { .. } => {},
        _ => return Err(Error::not_applicable("fake_packet requires TLS ClientHello")),
    }
    let mut fake_chunks: Vec<Vec<u8>> = Vec::new();
    let mut i: u32 = 0;
    while i < config.repeats
        invariant
            i <= config.repeats,
            fake_chunks@.len() == i,
            forall|k: int| 0 <= k < i ==> fake_record_ok(stealth, #[trigger] fake_chunks@[k]@),
        decreases config.repeats - i,
    {
        let fake = build_fake_tls_record(stealth);
        fake_chunks.push(fake);
        i = i + 1;
    }
    proof {
        assert forall|k: int| 0 <= k < fake_chunks@.len() implies fake_record_ok(stealth, #[trigger] fake_chunks.deep_view()[k]) by {
            lemma_bytes_deep_view(&fake_chunks@[k]);
        }
    }
    Ok(DesyncAction::InjectBefore(fake_chunks))
}

/// The bytes of `"www."`.
pub open spec fn www_dot() -> Seq<u8> {
    seq![119u8, 119, 119, 46]
}

/// The bytes of `"decoy."`.
pub open spec fn decoy_dot() -> Seq<u8> {
    seq![100u8, 101, 99, 111, 121, 46]
}

/// The decoy name for an SNI: with at least two labels, `www.` then the
/// last label, a dot and the label before it; otherwise `decoy.` then the
/// name.
pub open spec fn scrambled(b: Seq<u8>) -> Seq<u8> {
    match last_index_of(b, 46, b.len() as int) {
        None => decoy_dot() + b,
        Some(ld) => {
            let start = match last_index_of(b, 46, ld) {
                Some(p) => p + 1,
                None => 0,
            };
            www_dot() + b.subrange(ld + 1, b.len() as int) + seq![46u8] + b.subrange(start, ld)
        },
    }
}

/// A decoy name derived from the SNI (`www.youtube.com` becomes
/// `www.com.youtube`).
pub fn scramble_sni(sni: &str) -> (r: String)
    ensures
        encode_utf8(r@) == scrambled(encode_utf8(sni@)),
{
    let b = sni.as_bytes();
    let ghost bs = b@;
    proof {
        encode_utf8_valid_utf8(sni@);
    }
    let mut out: Vec<u8> = Vec::new();
    match last_dot_before(b, b.len()) {
        None => {
            let d = vec![100u8, 101, 99, 111, 121, 46];
            proof {
                assert(d@ =~= decoy_dot());
                lemma_ascii_valid_utf8(decoy_dot());
            }
            extend_range(&mut out, d.as_slice(), 0, 6);
            extend_range(&mut out, b, 0, b.len());
            proof {
                assert(d@.subrange(0, 6) =~= d@);
                assert(bs.subrange(0, bs.len() as int) =~= bs);
                assert(out@ =~= scrambled(bs));
                valid_utf8_concat(decoy_dot(), bs);
            }
        },
        Some(ld) => {
            proof {
                lemma_last_index_in_range(bs, 46, bs.len() as int);
                lemma_last_index_in_range(bs, 46, ld as int);
            }
            let start = match last_dot_before(b, ld) {
                Some(p) => p + 1,
                None => 0,
            };
            let w = vec![119u8, 119, 119, 46];
            extend_range(&mut out, w.as_slice(), 0, 4);
            extend_range(&mut out, b, ld + 1, b.len());
            out.push(46);
            extend_range(&mut out, b, start, ld);
            proof {
                assert(w@ =~= www_dot());
                assert(w@.subrange(0, 4) =~= w@);
                assert(out@ =~= scrambled(bs));
                lemma_ascii_valid_utf8(www_dot());
                lemma_ascii_valid_utf8(seq![46u8]);
                lemma_valid_utf8_ascii_cut(bs, ld + 1, bs.len() as int);
                lemma_valid_utf8_ascii_cut(bs, start as int, ld as int);
                let last = bs.subrange(ld + 1, bs.len() as int);
                let second = bs.subrange(start as int, ld as int);
                valid_utf8_concat(www_dot(), last);
                valid_utf8_concat(www_dot() + last, seq![46u8]);
                valid_utf8_concat(www_dot() + last + seq![46u8], second);
            }
        },
    }
    let r = utf8_lossy_string(out.as_slice());
    proof {
        decode_utf8_encode_utf8(out@);
    }
    r
}

/// A record header and handshake header with the given 16-bit length
/// fields, then version TLS 1.2.
pub open spec fn hello_head_of(record_len: int, body_len: int) -> Seq<u8> {
    seq![0x16u8, 0x03, 0x01] + be16_bytes(record_len) + seq![0x01u8, 0x00] + be16_bytes(body_len) + seq![0x03u8, 0x03]
}

/// The 11 bytes before the client random of a fake ClientHello whose SNI
/// is `sl` bytes long.
pub open spec fn fake_hello_head(sl: int) -> Seq<u8> {
    hello_head_of((56 + sl) % 65536, (52 + sl) % 65536)
}

/// The bytes after the client random of a fake ClientHello for the SNI
/// bytes `sb`: no session ID, one cipher suite (TLS_AES_128_GCM_SHA256),
/// null compression and the SNI extension only.
pub open spec fn fake_hello_tail(sb: Seq<u8>) -> Seq<u8> {
    let sl = sb.len() as int;
    seq![0u8, 0x00, 0x02, 0x13, 0x01, 0x01, 0x00] + be16_bytes((9 + sl) % 65536) + seq![0u8, 0u8] + be16_bytes(
        (5 + sl) % 65536,
    ) + be16_bytes((3 + sl) % 65536) + seq![0u8] + be16_bytes(sl % 65536) + sb
}

/// The layout of a fake ClientHello for the SNI bytes `sb`, with `random`
/// as its 32-byte client random.
pub open spec fn fake_hello_layout(sb: Seq<u8>, random: Seq<u8>) -> Seq<u8> {
    fake_hello_head(sb.len() as int) + random + fake_hello_tail(sb)
}

fn push_hello_head(buf: &mut Vec<u8>, sl: usize)
    requires
        sl <= isize::MAX,
    ensures
        final(buf)@ == old(buf)@ + fake_hello_head(sl as int),
{
    let ghost start = buf@;
    let ch_body_len = 2 + 32 + 1 + 2 + 2 + 1 + 1 + 2 + (4 + (2 + 1 + 2 + sl));
    let hs_len = 4 + ch_body_len;
    let record_field = hs_len % 65536;
    let body_field = ch_body_len % 65536;
    assert(record_field == (56 + sl) % 65536);
    assert(body_field == (52 + sl) % 65536);
    buf.push(0x16);
    buf.push(0x03);
    buf.push(0x01);
    push_be16(buf, record_field);
    buf.push(0x01);
    buf.push(0x00);
    push_be16(buf, body_field);
    buf.push(0x03);
    buf.push(0x03);
    assert(buf@ =~= start + hello_head_of(record_field as int, body_field as int));
}

fn push_hello_tail(buf: &mut Vec<u8>, sni_bytes: &[u8])
    requires
        sni_bytes@.len() <= isize::MAX,
    ensures
        final(buf)@ == old(buf)@ + fake_hello_tail(sni_bytes@),
{
    let ghost start = buf@;
    let sl = sni_bytes.len();
    buf.push(0);
    push_be16(buf, 2);
    push_be16(buf, 0x1301);
    buf.push(1);
    buf.push(0);
    let ghost mid = buf@;
    push_be16(buf, (4 + (2 + 1 + 2 + sl)) % 65536);
    push_be16(buf, 0);
    push_be16(buf, (2 + 1 + 2 + sl) % 65536);
    push_be16(buf, (1 + 2 + sl) % 65536);
    buf.push(0x00);
    push_be16(buf, sl % 65536);
    extend_range(buf, sni_bytes, 0, sl);
    proof {
        assert(sni_bytes@.subrange(0, sl as int) =~= sni_bytes@);
        assert(be16_bytes(2) =~= seq![0u8, 2u8]);
        assert(be16_bytes(0x1301) =~= seq![0x13u8, 0x01u8]);
        assert(be16_bytes(0) =~= seq![0u8, 0u8]);
        assert(mid =~= start + seq![0u8, 0x00, 0x02, 0x13, 0x01, 0x01, 0x00]);
        assert(buf@ =~= start + fake_hello_tail(sni_bytes@));
    }
}

/// Build a fake ClientHello carrying `sni`, with a random client random.
pub fn build_fake_client_hello(sni: &str, target_len: usize) -> (r: Vec<u8>)
    requires
        encode_utf8(sni@).len() <= isize::MAX,
    ensures
        exists|random: Seq<u8>| random.len() == 32 && r@ == #[trigger] fake_hello_layout(encode_utf8(sni@), random),
{
    let sni_bytes = sni.as_bytes();
    let mut buf: Vec<u8> = Vec::new();
    push_hello_head(&mut buf, sni_bytes.len());
    let ghost before_random = buf@;
    push_random_bytes(&mut buf, 32);
    let ghost random = buf@.subrange(before_random.len() as int, buf@.len() as int);
    assert(buf@ =~= before_random + random);
    push_hello_tail(&mut buf, sni_bytes);
    assert(buf@ =~= fake_hello_layout(sni_bytes@, random));
    buf
}

/// The bytes of `"decoy.example.com"`.
pub open spec fn decoy_example_com() -> Seq<u8> {
    seq![100u8, 101, 99, 111, 121, 46, 101, 120, 97, 109, 112, 108, 101, 46, 99, 111, 109]
}

/// The SNI bytes of the fake ClientHello for an optional real SNI.
pub open spec fn fake_sni_bytes(sni: Option<&str>) -> Seq<u8> {
    match sni {
        Some(s) => scrambled(encode_utf8(s@)),
        None => decoy_example_com(),
    }
}

/// Build a fake ClientHello for packet-level injection: the SNI scrambled
/// into a decoy name, or `decoy.example.com` without one.
pub fn build_fake_payload(original_payload: &[u8], sni: Option<&str>) -> (r: Vec<u8>)
    requires
        sni matches Some(s) ==> encode_utf8(s@).len() <= isize::MAX - 6,
    ensures
        exists|random: Seq<u8>| random.len() == 32 && r@ == #[trigger] fake_hello_layout(fake_sni_bytes(sni), random),
{
    let fake_sni = match sni {
        Some(s) => scramble_sni(s),
        None => {
            let d = "decoy.example.com";
            proof {
                reveal_strlit("decoy.example.com");
                assert(encode_utf8(d@) =~= decoy_example_com()) by {
                    vstd::string::is_ascii_spec_bytes(d);
                }
            }
            d.to_owned()
        },
    };
    proof {
        if let Some(s) = sni {
            let b = encode_utf8(s@);
            lemma_last_index_in_range(b, 46, b.len() as int);
            if let Some(ld) = last_index_of(b, 46, b.len() as int) {
                lemma_last_index_in_range(b, 46, ld);
            }
            assert(scrambled(b).len() <= b.len() + 6);
        }
    }
    assert(encode_utf8(fake_sni@) == fake_sni_bytes(sni));
    build_fake_client_hello(fake_sni.as_str(), original_payload.len())
}

/// The fake packet technique.
pub struct FakePacketTechnique;

/// The fake parameters a technique configuration selects: the defaults,
/// with its fake type when it has one.
pub open spec fn configured_fake(config: &TechniqueConfig) -> FakeConfig {
    FakeConfig {
        fake_type: match config.fake_type {
            Some(ft) => ft,
            None => FakeType::BadTtl,
        },
        ttl: 3,
        repeats: 1,
    }
}

impl Technique for FakePacketTechnique {
    open spec fn spec_name(&self) -> Seq<char> {
        seq!['f', 'a', 'k', 'e', '_', 'p', 'a', 'c', 'k', 'e', 't']
    }

    open spec fn admits(&self, ctx: &PayloadContext, split_pos: &SplitPosition, config: &TechniqueConfig) -> bool {
        true
    }

    open spec fn outcome(
        &self,
        ctx: &PayloadContext,
        split_pos: &SplitPosition,
        config: &TechniqueConfig,
        stealth: Option<&StealthConfig>,
        r: Result<DesyncAction, Error>,
    ) -> bool {
        fake_packet_result(ctx, &configured_fake(config), stealth, r)
    }

    fn name(&self) -> (n: &'static str) {
        let n = "fake_packet";
        proof {
            reveal_strlit("fake_packet");
        }
        n
    }

    fn apply(
        &self,
        ctx: &PayloadContext,
        split_pos: &SplitPosition,
        config: &TechniqueConfig,
        stealth: Option<&StealthConfig>,
    ) -> (r: Result<DesyncAction, Error>) {
        let mut fake_config = FakeConfig::default();
        if let Some(ft) = config.fake_type {
            fake_config.fake_type = ft;
        }
        apply_socks(ctx, &fake_config, stealth)
    }
}

} // verus!
