//! DNS wire format (RFC 1035) for the secure resolver: A-record queries
//! and the addresses in a response.

use vstd::prelude::*;
use vstd::utf8::encode_utf8;
use crate::bytes::{be16, be16_bytes, extend_range, push_be16, read_be16};
use crate::random::random_u16;

verus! {

/// Why a DNS response was rejected.
#[derive(Debug, Clone, Copy, PartialEq, Eq, Structural)]
pub enum DnsError {
    /// Shorter than the 12-byte header.
    TooShort,
    /// The server answered with this non-zero response code.
    ServerError(u16),
    /// A name runs past the end of the packet.
    NamePastEnd,
    /// A compression pointer runs past the end of the packet.
    PointerPastEnd,
    /// A label runs past the end of the packet.
    LabelPastEnd,
}

/// One label of a query name: its length (at most 63) and its first bytes.
pub open spec fn encoded_label(l: Seq<u8>) -> Seq<u8> {
    let k = if l.len() > 63 { 63int } else { l.len() as int };
    seq![k as u8] + l.subrange(0, k)
}

/// Index of the first `.` in `b` from `i` on, or the length.
pub open spec fn dot_index(b: Seq<u8>, i: int) -> int
    decreases b.len() - i,
{
    if i < 0 || i >= b.len() {
        b.len() as int
    } else if b[i] == 46 {
        i
    } else {
        dot_index(b, i + 1)
    }
}

/// The labels of a name split at its dots (an empty name is one empty
/// label), each encoded, then the root label.
pub open spec fn encoded_name(b: Seq<u8>) -> Seq<u8>
    decreases b.len(),
{
    let i = dot_index(b, 0);
    if i >= b.len() {
        encoded_label(b) + seq![0u8]
    } else {
        proof {
            lemma_dot_index_bounds(b, 0);
        }
        encoded_label(b.subrange(0, i)) + encoded_name(b.subrange(i + 1, b.len() as int))
    }
}

/// An A-record query with identifier `id` for the name bytes `b`: a
/// standard query with recursion desired, one question of type A, class
/// IN.
pub open spec fn dns_query_layout(id: u16, b: Seq<u8>) -> Seq<u8> {
    be16_bytes(id as int) + seq![0x01u8, 0x00, 0x00, 0x01, 0x00, 0x00, 0x00, 0x00, 0x00, 0x00] + encoded_name(b)
        + seq![0x00u8, 0x01, 0x00, 0x01]
}

/// The first dot found from `i` on is in range and is a dot.
pub proof fn lemma_dot_index_bounds(b: Seq<u8>, i: int)
    requires
        0 <= i <= b.len(),
    ensures
        i <= dot_index(b, i) <= b.len(),
        dot_index(b, i) < b.len() ==> b[dot_index(b, i)] == 46,
    decreases b.len() - i,
{
    if i < b.len() && b[i] != 46 {
        lemma_dot_index_bounds(b, i + 1);
    }
}

fn push_label(out: &mut Vec<u8>, b: &[u8], lo: usize, hi: usize)
    requires
        lo <= hi <= b@.len(),
    ensures
        final(out)@ == old(out)@ + encoded_label(b@.subrange(lo as int, hi as int)),
{
    let len = hi - lo;
    let k = if len > 63 { 63 } else { len };
    out.push(k as u8);
    extend_range(out, b, lo, lo + k);
    assert(b@.subrange(lo as int, hi as int).subrange(0, k as int) =~= b@.subrange(lo as int, lo + k));
}

/// Append the encoded name of `b[start..]`.
fn push_name(out: &mut Vec<u8>, b: &[u8], start: usize)
    requires
        start <= b@.len(),
    ensures
        final(out)@ == old(out)@ + encoded_name(b@.subrange(start as int, b@.len() as int)),
    decreases b@.len() - start,
{
    let ghost rest = b@.subrange(start as int, b@.len() as int);
    let mut i = start;
    while i < b.len() && b[i] != 46
        invariant
            start <= i <= b@.len(),
            rest == b@.subrange(start as int, b@.len() as int),
            dot_index(rest, 0) == dot_index(rest, i - start),
        decreases b@.len() - i,
    {
        i = i + 1;
    }
    proof {
        lemma_dot_index_bounds(rest, 0);
        assert(rest.subrange(0, i - start) =~= b@.subrange(start as int, i as int));
    }
    push_label(out, b, start, i);
    if i < b.len() {
        assert(rest.subrange(i - start + 1, rest.len() as int) =~= b@.subrange(i + 1, b@.len() as int));
        push_name(out, b, i + 1);
    } else {
        out.push(0);
        assert(rest =~= b@.subrange(start as int, i as int));
    }
}

/// Build an A-record query for `domain` with a random identifier.
pub fn build_dns_query(domain: &str) -> (r: Vec<u8>)
    ensures
        exists|id: u16| r@ == #[trigger] dns_query_layout(id, encode_utf8(domain@)),
{
    let b = domain.as_bytes();
    let id = random_u16();
    let mut buf: Vec<u8> = Vec::new();
    push_be16(&mut buf, id as usize);
    let head: Vec<u8> = vec![0x01u8, 0x00, 0x00, 0x01, 0x00, 0x00, 0x00, 0x00, 0x00, 0x00];
    extend_range(&mut buf, head.as_slice(), 0, 10);
    assert(head@.subrange(0, 10) =~= head@);
    push_name(&mut buf, b, 0);
    assert(b@.subrange(0, b@.len() as int) =~= b@);
    buf.push(0x00);
    buf.push(0x01);
    buf.push(0x00);
    buf.push(0x01);
    assert(buf@ =~= dns_query_layout(id, b@));
    buf
}

/// Where a name starting at `pos` ends: a zero byte ends it, a compression
/// pointer (top two bits set) ends it after two bytes; anything else is a
/// label of that many bytes.
pub open spec fn spec_skip_name(data: Seq<u8>, pos: int) -> Result<int, DnsError>
    decreases data.len() - pos,
{
    if pos < 0 || pos >= data.len() {
        Err(DnsError::NamePastEnd)
    } else if data[pos] == 0 {
        Ok(pos + 1)
    } else if data[pos] >= 0xC0 {
        if pos + 2 > data.len() {
            Err(DnsError::PointerPastEnd)
        } else {
            Ok(pos + 2)
        }
    } else if pos + 1 + data[pos] > data.len() {
        Err(DnsError::LabelPastEnd)
    } else {
        spec_skip_name(data, pos + 1 + data[pos])
    }
}

/// Skip `k` questions from `pos` (each a name, type and class).
pub open spec fn skip_questions(data: Seq<u8>, pos: int, k: nat) -> Result<int, DnsError>
    decreases k,
{
    if k == 0 {
        Ok(pos)
    } else {
        match spec_skip_name(data, pos) {
            Err(e) => Err(e),
            Ok(p) => skip_questions(data, p + 4, (k - 1) as nat),
        }
    }
}

/// The IPv4 address of 4 bytes at `i`, big-endian.
pub open spec fn ipv4_at(data: Seq<u8>, i: int) -> u32 {
    (data[i] as int * 16777216 + data[i + 1] as int * 65536 + data[i + 2] as int * 256 + data[i + 3] as int) as u32
}

/// The A-record addresses of up to `k` answers from `pos`; reading stops
/// quietly at the end of the data or at a record cut short.
pub open spec fn answers(data: Seq<u8>, pos: int, k: nat) -> Result<Seq<u32>, DnsError>
    decreases k,
{
    if k == 0 || pos >= data.len() {
        Ok(Seq::empty())
    } else {
        match spec_skip_name(data, pos) {
            Err(e) => Err(e),
            Ok(p) => if p + 10 > data.len() {
                Ok(Seq::empty())
            } else {
                let rtype = be16(data, p);
                let rdlength = be16(data, p + 8);
                let q = p + 10;
                if q + rdlength > data.len() {
                    Ok(Seq::empty())
                } else {
                    match answers(data, q + rdlength, (k - 1) as nat) {
                        Err(e) => Err(e),
                        Ok(rest) => if rtype == 1 && rdlength == 4 {
                            Ok(seq![ipv4_at(data, q)] + rest)
                        } else {
                            Ok(rest)
                        },
                    }
                }
            },
        }
    }
}

/// The addresses a response gives, or why it is rejected.
pub open spec fn spec_parse_dns_response(data: Seq<u8>) -> Result<Seq<u32>, DnsError> {
    if data.len() < 12 {
        Err(DnsError::TooShort)
    } else if data[3] % 16 != 0 {
        Err(DnsError::ServerError((data[3] % 16) as u16))
    } else {
        match skip_questions(data, 12, be16(data, 4) as nat) {
            Err(e) => Err(e),
            Ok(p) => answers(data, p, be16(data, 6) as nat),
        }
    }
}

/// A name as the wire writes it: each label after its length byte, then
/// the root's zero byte.
pub open spec fn wire_name(labels: Seq<Seq<u8>>) -> Seq<u8>
    decreases labels.len(),
{
    if labels.len() == 0 {
        seq![0u8]
    } else {
        seq![labels[0].len() as u8] + labels[0] + wire_name(labels.drop_first())
    }
}

/// Labels of 1 to 63 bytes.
pub open spec fn labels_ok(labels: Seq<Seq<u8>>) -> bool {
    forall|i: int| 0 <= i < labels.len() ==> 1 <= #[trigger] labels[i].len() <= 63
}

/// An answer record whose name points back at the question (`C0 0C`):
/// its type, six bytes of class and time to live, the data length and the
/// data.
pub open spec fn answer_record(rtype: u16, class_ttl: Seq<u8>, rdata: Seq<u8>) -> Seq<u8> {
    seq![0xC0u8, 0x0C] + be16_bytes(rtype as int) + class_ttl + be16_bytes(rdata.len() as int) + rdata
}

/// Answer records one after another.
pub open spec fn answer_records(rs: Seq<(u16, Seq<u8>, Seq<u8>)>) -> Seq<u8>
    decreases rs.len(),
{
    if rs.len() == 0 {
        Seq::empty()
    } else {
        answer_record(rs[0].0, rs[0].1, rs[0].2) + answer_records(rs.drop_first())
    }
}

/// Whether each record has six bytes of class and time to live and data
/// that its 16-bit length can count.
pub open spec fn records_ok(rs: Seq<(u16, Seq<u8>, Seq<u8>)>) -> bool {
    forall|i: int| 0 <= i < rs.len() ==> (#[trigger] rs[i]).1.len() == 6 && rs[i].2.len() < 65536
}

/// The IPv4 address of four data bytes, big-endian.
pub open spec fn address_of(b: Seq<u8>) -> u32 {
    (b[0] as int * 16777216 + b[1] as int * 65536 + b[2] as int * 256 + b[3] as int) as u32
}

/// The addresses of the records of type A with four bytes of data, in
/// order.
pub open spec fn a_addresses(rs: Seq<(u16, Seq<u8>, Seq<u8>)>) -> Seq<u32>
    decreases rs.len(),
{
    if rs.len() == 0 {
        Seq::empty()
    } else if rs[0].0 == 1 && rs[0].2.len() == 4 {
        seq![address_of(rs[0].2)] + a_addresses(rs.drop_first())
    } else {
        a_addresses(rs.drop_first())
    }
}

/// A response: the 12-byte header, one question (its name and four bytes
/// of type and class), then the answer records.
pub open spec fn dns_response(header: Seq<u8>, labels: Seq<Seq<u8>>, qtail: Seq<u8>, rs: Seq<(u16, Seq<u8>, Seq<u8>)>) -> Seq<u8> {
    header + wire_name(labels) + qtail + answer_records(rs)
}

proof fn lemma_be16_of_bytes(x: int)
    requires
        0 <= x < 65536,
    ensures
        be16(be16_bytes(x), 0) == x,
{
}

proof fn lemma_skip_wire_name(data: Seq<u8>, pos: int, labels: Seq<Seq<u8>>)
    requires
        labels_ok(labels),
        0 <= pos,
        pos + wire_name(labels).len() <= data.len(),
        data.subrange(pos, pos + wire_name(labels).len()) == wire_name(labels),
    ensures
        spec_skip_name(data, pos) == Ok::<int, DnsError>(pos + wire_name(labels).len()),
    decreases labels.len(),
{
    let w = wire_name(labels);
    assert(data[pos] == w[0]);
    if labels.len() > 0 {
        let l0 = labels[0];
        assert(1 <= l0.len() <= 63);
        let rest = labels.drop_first();
        assert(labels_ok(rest)) by {
            assert forall|i: int| 0 <= i < rest.len() implies 1 <= #[trigger] rest[i].len() <= 63 by {
                assert(rest[i] == labels[i + 1]);
            }
        }
        let np = pos + 1 + l0.len();
        assert(w == seq![l0.len() as u8] + l0 + wire_name(rest));
        assert(data.subrange(np, np + wire_name(rest).len()) =~= wire_name(rest)) by {
            assert forall|k: int| 0 <= k < wire_name(rest).len() implies data[np + k] == wire_name(rest)[k] by {
                assert(data[np + k] == w[1 + l0.len() + k]);
            }
        }
        lemma_skip_wire_name(data, np, rest);
    }
}

proof fn lemma_answers_of_records(data: Seq<u8>, pos: int, rs: Seq<(u16, Seq<u8>, Seq<u8>)>)
    requires
        records_ok(rs),
        0 <= pos,
        pos + answer_records(rs).len() == data.len(),
        data.subrange(pos, data.len() as int) == answer_records(rs),
    ensures
        answers(data, pos, rs.len()) == Ok::<Seq<u32>, DnsError>(a_addresses(rs)),
    decreases rs.len(),
{
    if rs.len() > 0 {
        let (rtype, ct, rdata) = rs[0];
        assert(ct.len() == 6 && rdata.len() < 65536);
        let rec = answer_record(rtype, ct, rdata);
        let rest = rs.drop_first();
        assert(records_ok(rest)) by {
            assert forall|i: int| 0 <= i < rest.len() implies (#[trigger] rest[i]).1.len() == 6 && rest[i].2.len() < 65536 by {
                assert(rest[i] == rs[i + 1]);
            }
        }
        assert(answer_records(rs) == rec + answer_records(rest));
        assert(rec.len() == 12 + rdata.len());
        assert forall|k: int| 0 <= k < rec.len() implies data[pos + k] == #[trigger] rec[k] by {
            assert(data.subrange(pos, data.len() as int)[k] == answer_records(rs)[k]);
        }
        assert(rec[0] == 0xC0u8);
        assert(rec[1] == 0x0Cu8);
        assert(data[pos] == rec[0]);
        let p = pos + 2;
        assert(spec_skip_name(data, pos) == Ok::<int, DnsError>(p));
        lemma_be16_of_bytes(rtype as int);
        lemma_be16_of_bytes(rdata.len() as int);
        assert(be16(data, p) == be16(be16_bytes(rtype as int), 0)) by {
            assert(data[p] == rec[2]);
            assert(data[p + 1] == rec[3]);
        }
        assert(be16(data, p + 8) == be16(be16_bytes(rdata.len() as int), 0)) by {
            assert(data[p + 8] == rec[10]);
            assert(data[p + 9] == rec[11]);
        }
        let q = p + 10;
        let next = q + rdata.len();
        assert(data.subrange(next, data.len() as int) =~= answer_records(rest)) by {
            assert forall|k: int| 0 <= k < answer_records(rest).len() implies data[next + k] == answer_records(rest)[k] by {
                assert(data.subrange(pos, data.len() as int)[rec.len() + k] == answer_records(rs)[rec.len() + k]);
            }
        }
        lemma_answers_of_records(data, next, rest);
        if rtype == 1 && rdata.len() == 4 {
            assert(ipv4_at(data, q) == address_of(rdata)) by {
                assert(data[q] == rec[12]);
                assert(data[q + 1] == rec[13]);
                assert(data[q + 2] == rec[14]);
                assert(data[q + 3] == rec[15]);
            }
        }
    }
}

/// Law: a successful response with one question gives the addresses of
/// its answer records of type A with four bytes of data, in order,
/// whatever records of other types come before or between them.
pub proof fn lemma_response_gives_a_records(
    header: Seq<u8>,
    labels: Seq<Seq<u8>>,
    qtail: Seq<u8>,
    rs: Seq<(u16, Seq<u8>, Seq<u8>)>,
)
    requires
        header.len() == 12,
        header[3] % 16 == 0,
        header[4] == 0 && header[5] == 1,
        header[6] as int * 256 + header[7] as int == rs.len(),
        labels_ok(labels),
        qtail.len() == 4,
        records_ok(rs),
    ensures
        spec_parse_dns_response(dns_response(header, labels, qtail, rs)) == Ok::<Seq<u32>, DnsError>(a_addresses(rs)),
{
    let data = dns_response(header, labels, qtail, rs);
    let w = wire_name(labels);
    let wl = w.len() as int;
    assert(data.subrange(12, 12 + wl) =~= w);
    lemma_skip_wire_name(data, 12, labels);
    let p: int = 12 + wl + 4;
    assert(skip_questions(data, 12, 1) == Ok::<int, DnsError>(p)) by {
        assert(skip_questions(data, p, 0) == Ok::<int, DnsError>(p));
    }
    assert(be16(data, 4) == 1);
    assert(be16(data, 6) == rs.len());
    assert(data.subrange(p, data.len() as int) =~= answer_records(rs));
    lemma_answers_of_records(data, p, rs);
}

/// `r` with `prefix` put before the addresses of a success.
pub open spec fn after(prefix: Seq<u32>, r: Result<Seq<u32>, DnsError>) -> Result<Seq<u32>, DnsError> {
    match r {
        Ok(s) => Ok(prefix + s),
        Err(e) => Err(e),
    }
}

proof fn lemma_skip_name_bounds(data: Seq<u8>, pos: int)
    ensures
        spec_skip_name(data, pos) matches Ok(p) ==> pos < p <= data.len(),
    decreases data.len() - pos,
{
    if 0 <= pos < data.len() && data[pos] != 0 && data[pos] < 0xC0 && pos + 1 + data[pos] <= data.len() {
        lemma_skip_name_bounds(data, pos + 1 + data[pos]);
    }
}

/// Skip a DNS name starting at `pos` (labels, or a compression pointer,
/// which is not followed), giving the position after it.
pub fn skip_dns_name(data: &[u8], pos: usize) -> (r: Result<usize, DnsError>)
    ensures
        match spec_skip_name(data@, pos as int) {
            Ok(p) => r == Ok::<usize, DnsError>(p as usize),
            Err(e) => r == Err::<usize, DnsError>(e),
        },
{
    let len = data.len();
    let mut p = pos;
    loop
        invariant
            len == data@.len(),
            spec_skip_name(data@, pos as int) == spec_skip_name(data@, p as int),
        decreases len - p,
    {
        if p >= len {
            return Err(DnsError::NamePastEnd);
        }
        let l = data[p] as usize;
        if l == 0 {
            return Ok(p + 1);
        }
        if l >= 0xC0 {
            if len - p < 2 {
                return Err(DnsError::PointerPastEnd);
            }
            return Ok(p + 2);
        }
        if len - p - 1 < l {
            return Err(DnsError::LabelPastEnd);
        }
        p = p + 1 + l;
    }
}

/// Parse a DNS response into the IPv4 addresses of its A records.
pub fn parse_dns_response(data: &[u8]) -> (r: Result<Vec<u32>, DnsError>)
    requires
        data@.len() <= isize::MAX,
    ensures
        match spec_parse_dns_response(data@) {
            Ok(ips) => r matches Ok(v) && v@ == ips,
            Err(e) => r == Err::<Vec<u32>, DnsError>(e),
        },
{
    let len = data.len();
    if len < 12 {
        return Err(DnsError::TooShort);
    }
    let rcode = data[3] % 16;
    if rcode != 0 {
        return Err(DnsError::ServerError(rcode as u16));
    }
    let qdcount = read_be16(data, 4);
    let ancount = read_be16(data, 6);
    assert(spec_parse_dns_response(data@) == match skip_questions(data@, 12, qdcount as nat) {
        Err(e) => Err(e),
        Ok(p) => answers(data@, p, ancount as nat),
    });
    let mut pos: usize = 12;
    let mut q: usize = 0;
    while q < qdcount
        invariant
            len == data@.len(),
            q <= qdcount,
            len <= isize::MAX,
            pos <= len + 4,
            skip_questions(data@, 12, qdcount as nat) == skip_questions(data@, pos as int, (qdcount - q) as nat),
            spec_parse_dns_response(data@) == match skip_questions(data@, 12, qdcount as nat) {
                Err(e) => Err(e),
                Ok(p) => answers(data@, p, ancount as nat),
            },
        decreases qdcount - q,
    {
        proof {
            lemma_skip_name_bounds(data@, pos as int);
        }
        let ghost k = (qdcount - q) as nat;
        assert(skip_questions(data@, pos as int, k) == match spec_skip_name(data@, pos as int) {
            Err(e) => Err(e),
            Ok(p) => skip_questions(data@, p + 4, (k - 1) as nat),
        });
        match skip_dns_name(data, pos) {
            Ok(p) => {
                pos = p + 4;
            },
            Err(e) => {
                return Err(e);
            },
        }
        q = q + 1;
    }
    assert(skip_questions(data@, pos as int, 0) == Ok::<int, DnsError>(pos as int));
    let ghost start = pos;
    assert(spec_parse_dns_response(data@) == answers(data@, start as int, ancount as nat));
    let mut ips: Vec<u32> = Vec::new();
    let mut a: usize = 0;
    assert(ips@ + Seq::<u32>::empty() =~= ips@);
    while a < ancount
        invariant
            len == data@.len(),
            a <= ancount,
            len <= isize::MAX,
            pos <= len + 4,
            answers(data@, start as int, ancount as nat) == after(ips@, answers(data@, pos as int, (ancount - a) as nat)),
            spec_parse_dns_response(data@) == answers(data@, start as int, ancount as nat),
        decreases ancount - a,
    {
        if pos >= len {
            assert(ips@ + Seq::<u32>::empty() =~= ips@);
            return Ok(ips);
        }
        proof {
            lemma_skip_name_bounds(data@, pos as int);
        }
        let ghost k = (ancount - a) as nat;
        assert(answers(data@, pos as int, k) == match spec_skip_name(data@, pos as int) {
            Err(e) => Err(e),
            Ok(p) => if p + 10 > data@.len() {
                Ok(Seq::empty())
            } else {
                let rtype = be16(data@, p);
                let rdlength = be16(data@, p + 8);
                let q = p + 10;
                if q + rdlength > data@.len() {
                    Ok(Seq::empty())
                } else {
                    match answers(data@, q + rdlength, (k - 1) as nat) {
                        Err(e) => Err(e),
                        Ok(rest) => if rtype == 1 && rdlength == 4 {
                            Ok(seq![ipv4_at(data@, q)] + rest)
                        } else {
                            Ok(rest)
                        },
                    }
                }
            },
        });
        let p = match skip_dns_name(data, pos) {
            Ok(p) => p,
            Err(e) => {
                return Err(e);
            },
        };
        if len - p < 10 {
            assert(ips@ + Seq::<u32>::empty() =~= ips@);
            return Ok(ips);
        }
        let rtype = read_be16(data, p);
        let rdlength = read_be16(data, p + 8);
        let qpos = p + 10;
        if len - qpos < rdlength {
            assert(ips@ + Seq::<u32>::empty() =~= ips@);
            return Ok(ips);
        }
        let ghost before = ips@;
        if rtype == 1 && rdlength == 4 {
            let ip: u32 = (data[qpos] as u32) * 16777216 + (data[qpos + 1] as u32) * 65536 + (data[qpos + 2] as u32) * 256
                + (data[qpos + 3] as u32);
            ips.push(ip);
            proof {
                assert(ip == ipv4_at(data@, qpos as int));
                match answers(data@, (qpos + rdlength) as int, (ancount - a - 1) as nat) {
                    Ok(rest) => {
                        assert(before + (seq![ip] + rest) =~= ips@ + rest);
                    },
                    Err(e) => {},
                }
            }
        }
        pos = qpos + rdlength;
        a = a + 1;
    }
    assert(ips@ + Seq::<u32>::empty() =~= ips@);
    Ok(ips)
}

/// A query as sent over a stream (DNS over TCP or TLS): its length,
/// modulo 2^16, in two bytes, then the query.
pub open spec fn stream_frame(query: Seq<u8>) -> Seq<u8> {
    be16_bytes(query.len() as int % 65536) + query
}

/// Frame a query for a stream (see `stream_frame`).
pub fn frame_for_stream(query: &[u8]) -> (r: Vec<u8>)
    ensures
        r@ == stream_frame(query@),
{
    let mut out: Vec<u8> = Vec::new();
    push_be16(&mut out, query.len() % 65536);
    extend_range(&mut out, query, 0, query.len());
    assert(query@.subrange(0, query@.len() as int) =~= query@);
    out
}

/// The length of a response read from a stream, from its two-byte
/// prefix; `None` for an empty response.
pub fn stream_response_len(prefix: [u8; 2]) -> (r: Option<usize>)
    ensures
        r == if prefix@[0] as int * 256 + prefix@[1] as int == 0 {
            None::<usize>
        } else {
            Some((prefix@[0] as int * 256 + prefix@[1] as int) as usize)
        },
{
    let n: usize = prefix[0] as usize * 256 + prefix[1] as usize;
    if n == 0 {
        None
    } else {
        Some(n)
    }
}

} // verus!
