//! TLS ClientHello padding: a padding extension (type 0x0015, RFC 7685)
//! of `pad_len` zero bytes is appended to the extensions, to vary the
//! packet size. The record length, the handshake length and the extensions
//! length are updated to match.

use vstd::prelude::*;
use crate::bytes::{be16, be16_bytes, be24, extend_range, push_be16, read_be16};

verus! {

/// Where the extensions length field of a ClientHello record sits and the
/// length it holds, when the payload is well-formed enough to be padded.
pub open spec fn padding_layout(p: Seq<u8>) -> Option<(int, int)> {
    if p.len() < 43 || p[0] != 0x16 || p[5] != 0x01 || 43 >= p.len() {
        None
    } else {
        let pos1 = 44 + p[43] as int;
        if pos1 + 2 > p.len() {
            None
        } else {
            let pos2 = pos1 + 2 + be16(p, pos1);
            if pos2 >= p.len() {
                None
            } else {
                let elp = pos2 + 1 + p[pos2] as int;
                if elp + 2 > p.len() {
                    None
                } else {
                    let el = be16(p, elp);
                    if elp + 2 + el > p.len() {
                        None
                    } else {
                        Some((elp, el))
                    }
                }
            }
        }
    }
}

/// The three big-endian bytes of the low 24 bits of `x`.
pub open spec fn be24_bytes(x: int) -> Seq<u8> {
    seq![((x / 65536) % 256) as u8, ((x / 256) % 256) as u8, (x % 256) as u8]
}

/// The payload with the padding extension inserted at the end of the
/// extensions, before the length fields are updated.
pub open spec fn with_padding_ext(p: Seq<u8>, ext_end: int, pad_len: int) -> Seq<u8> {
    p.subrange(0, ext_end) + seq![0x00u8, 0x15u8] + be16_bytes(pad_len) + Seq::new(pad_len as nat, |i: int| 0u8)
        + p.subrange(ext_end, p.len() as int)
}

/// Replace `s[at..at + r.len()]` by `r`.
pub open spec fn overwrite(s: Seq<u8>, at: int, r: Seq<u8>) -> Seq<u8> {
    s.subrange(0, at) + r + s.subrange(at + r.len(), s.len() as int)
}

/// What padding gives: `None` for a payload that is not a ClientHello
/// record walkable up to its extensions, or when a length field would
/// overflow 16 bits; otherwise the padded payload with updated lengths.
pub open spec fn spec_add_tls_padding(p: Seq<u8>, pad_len: int) -> Option<Seq<u8>> {
    match padding_layout(p) {
        None => None,
        Some((elp, el)) => {
            let total = 4 + pad_len;
            let new_el = el + total;
            let new_rl = be16(p, 3) + total;
            if new_el > 0xFFFF || new_rl > 0xFFFF {
                None
            } else {
                let r0 = with_padding_ext(p, elp + 2 + el, pad_len);
                let r1 = overwrite(r0, 3, be16_bytes(new_rl));
                let r2 = overwrite(r1, 6, be24_bytes(be24(p, 6) + total));
                Some(overwrite(r2, elp, be16_bytes(new_el)))
            }
        }
    }
}

fn put_bytes(v: &mut Vec<u8>, at: usize, b: &[u8])
    requires
        at + b@.len() <= old(v)@.len(),
    ensures
        final(v)@ == overwrite(old(v)@, at as int, b@),
{
    let vl = v.len();
    let mut i: usize = 0;
    while i < b.len()
        invariant
            vl == v@.len(),
            at + b@.len() <= v@.len(),
            v@.len() == old(v)@.len(),
            i <= b@.len(),
            forall|k: int| 0 <= k < at ==> v@[k] == old(v)@[k],
            forall|k: int| at + b@.len() <= k < v@.len() ==> v@[k] == old(v)@[k],
            forall|k: int| 0 <= k < i ==> v@[at + k] == b@[k],
            forall|k: int| at + i <= k < at + b@.len() ==> v@[k] == old(v)@[k],
        decreases b@.len() - i,
    {
        v.set(at + i, b[i]);
        i = i + 1;
    }
    assert(v@ =~= overwrite(old(v)@, at as int, b@));
}

fn padding_layout_of(payload: &[u8]) -> (r: Option<(usize, usize)>)
    ensures
        match padding_layout(payload@) {
            Some((elp, el)) => r == Some((elp as usize, el as usize)),
            None => r is None,
        },
{
    let len = payload.len();
    if len < 43 {
        return None;
    }
    if payload[0] != 0x16 {
        return None;
    }
    let mut pos: usize = 5;
    if payload[pos] != 0x01 {
        return None;
    }
    pos += 4;
    pos += 2;
    pos += 32;
    if pos >= len {
        return None;
    }
    let session_id_len = payload[pos] as usize;
    pos += 1 + session_id_len;
    if pos + 2 > len {
        return None;
    }
    let cipher_len = read_be16(payload, pos);
    pos += 2 + cipher_len;
    if pos >= len {
        return None;
    }
    let comp_len = payload[pos] as usize;
    pos += 1 + comp_len;
    if pos + 2 > len {
        return None;
    }
    let ext_len_pos = pos;
    let ext_len = read_be16(payload, pos);
    pos += 2;
    if pos + ext_len > len {
        return None;
    }
    Some((ext_len_pos, ext_len))
}

fn padded_body(payload: &[u8], ext_end: usize, pad_len: usize) -> (r: Vec<u8>)
    requires
        ext_end <= payload@.len(),
        pad_len < 65536,
    ensures
        r@ == with_padding_ext(payload@, ext_end as int, pad_len as int),
{
    let len = payload.len();
    let mut result: Vec<u8> = Vec::new();
    extend_range(&mut result, payload, 0, ext_end);
    result.push(0x00);
    result.push(0x15);
    push_be16(&mut result, pad_len);
    let mut k: usize = 0;
    let ghost base = result@;
    while k < pad_len
        invariant
            k <= pad_len,
            result@ == base + Seq::new(k as nat, |i: int| 0u8),
        decreases pad_len - k,
    {
        result.push(0x00);
        k = k + 1;
        assert(result@ =~= base + Seq::new(k as nat, |i: int| 0u8));
    }
    extend_range(&mut result, payload, ext_end, len);
    assert(result@ =~= with_padding_ext(payload@, ext_end as int, pad_len as int));
    result
}

/// Add a padding extension of `pad_len` zero bytes to a TLS ClientHello
/// payload; `None` if the payload is not a ClientHello or is too malformed
/// to modify safely.
pub fn add_tls_padding(payload: &[u8], pad_len: usize) -> (r: Option<Vec<u8>>)
    requires
        padding_layout(payload@) matches Some((_, el)) ==> el + 4 + pad_len <= usize::MAX,
    ensures
        match spec_add_tls_padding(payload@, pad_len as int) {
            Some(q) => r is Some && r->0@ == q,
            None => r is None,
        },
{
    let (ext_len_pos, ext_len) = match padding_layout_of(payload) {
        Some(l) => l,
        None => return None,
    };
    let pad_ext_total = 4 + pad_len;
    let new_ext_len = ext_len + pad_ext_total;
    if new_ext_len > 0xFFFF {
        return None;
    }
    let ext_end = ext_len_pos + 2 + ext_len;
    let mut result = padded_body(payload, ext_end, pad_len);
    let ghost r0 = result@;
    assert(r0[3] == payload@[3] && r0[4] == payload@[4]);
    let orig_record_len = read_be16(result.as_slice(), 3);
    let new_record_len = orig_record_len + pad_ext_total;
    if new_record_len > 0xFFFF {
        return None;
    }
    let rl_bytes = vec![(new_record_len / 256) as u8, (new_record_len % 256) as u8];
    assert(rl_bytes@ =~= be16_bytes(new_record_len as int));
    put_bytes(&mut result, 3, rl_bytes.as_slice());
    let ghost r1 = result@;
    assert(r1[6] == payload@[6] && r1[7] == payload@[7] && r1[8] == payload@[8]);
    let orig_hs_len = (result[6] as usize) * 65536 + (result[7] as usize) * 256 + (result[8] as usize);
    let new_hs_len = orig_hs_len + pad_ext_total;
    let hs_bytes = vec![((new_hs_len / 65536) % 256) as u8, ((new_hs_len / 256) % 256) as u8, (new_hs_len % 256) as u8];
    assert(hs_bytes@ =~= be24_bytes(new_hs_len as int));
    put_bytes(&mut result, 6, hs_bytes.as_slice());
    let el_bytes = vec![(new_ext_len / 256) as u8, (new_ext_len % 256) as u8];
    assert(el_bytes@ =~= be16_bytes(new_ext_len as int));
    put_bytes(&mut result, ext_len_pos, el_bytes.as_slice());
    Some(result)
}

} // verus!
