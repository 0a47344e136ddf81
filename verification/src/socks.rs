//! SOCKS5 (RFC 1928) and SOCKS4/4a handshakes, CONNECT only: what each
//! message read from the client means and what to answer. Reading and
//! writing the socket, resolving names and connecting are left to the
//! caller.

use vstd::prelude::*;
use vstd::utf8::{decode_utf8_encode_utf8, encode_utf8, valid_utf8};
use crate::bytes::{be16, copy_range, read_be16, utf8_is_valid, utf8_lossy_string};
use crate::raw_packet::{be32_at, Endpoint};

verus! {

/// SOCKS protocol version 5.
pub const SOCKS_VERSION: u8 = 0x05;
/// "No authentication required".
pub const AUTH_NONE: u8 = 0x00;
/// The CONNECT command.
pub const CMD_CONNECT: u8 = 0x01;
/// Address type: IPv4.
pub const ATYP_IPV4: u8 = 0x01;
/// Address type: domain name.
pub const ATYP_DOMAIN: u8 = 0x03;
/// Address type: IPv6.
pub const ATYP_IPV6: u8 = 0x04;
/// Reply: succeeded.
pub const REPLY_SUCCESS: u8 = 0x00;
/// Reply: general failure.
pub const REPLY_GENERAL_FAILURE: u8 = 0x01;
/// Reply: command not supported.
pub const REPLY_CMD_NOT_SUPPORTED: u8 = 0x07;
/// Reply: address type not supported.
pub const REPLY_ATYP_NOT_SUPPORTED: u8 = 0x08;
/// Longest SOCKS4 user id or SOCKS4a domain name accepted.
pub const SOCKS4_FIELD_MAX: usize = 256;

/// Why a SOCKS handshake was refused.
#[derive(Debug, Clone, Copy, PartialEq, Eq, Structural)]
pub enum SocksError {
    /// The greeting is not SOCKS5.
    UnsupportedVersion(u8),
    /// The client offers no method without authentication.
    NoAcceptableAuth,
    /// The request is not SOCKS5.
    BadRequestVersion(u8),
    /// A command other than CONNECT.
    UnsupportedCommand(u8),
    /// A domain name of length zero.
    EmptyDomain,
    /// A domain name that is not UTF-8.
    DomainNotUtf8,
    /// An unknown address type.
    UnsupportedAddressType(u8),
    /// The request is not SOCKS4.
    Socks4Version(u8),
    /// A SOCKS4 command other than CONNECT.
    Socks4Command(u8),
    /// A SOCKS4 user id longer than the limit.
    UseridTooLong,
    /// A SOCKS4a domain name longer than the limit.
    DomainTooLong,
}

/// What a SOCKS5 request asks to connect to, by address type.
#[derive(Debug, Clone, Copy, PartialEq, Eq, Structural)]
pub enum AddressKind {
    /// Four address bytes and the port follow.
    Ipv4,
    /// A length byte, the name and the port follow.
    Domain,
    /// Sixteen address bytes and the port follow.
    Ipv6,
}

/// The protocol a proxy client speaks, told by its first byte.
#[derive(Debug, Clone, Copy, PartialEq, Eq, Structural)]
pub enum ProxyProtocol {
    Socks5,
    Socks4,
    Http,
}

/// The protocol for a first byte: 5 is SOCKS5, 4 is SOCKS4, an ASCII
/// letter starts an HTTP proxy request, and anything else is tried as
/// SOCKS5.
pub open spec fn spec_detect_proxy(b: u8) -> ProxyProtocol {
    if b == 0x05 {
        ProxyProtocol::Socks5
    } else if b == 0x04 {
        ProxyProtocol::Socks4
    } else if (65 <= b <= 90) || (97 <= b <= 122) {
        ProxyProtocol::Http
    } else {
        ProxyProtocol::Socks5
    }
}

/// Tell the proxy protocol from the first byte the client sends.
pub fn detect_proxy_protocol(first: u8) -> (r: ProxyProtocol)
    ensures
        r == spec_detect_proxy(first),
{
    if first == 0x05 {
        ProxyProtocol::Socks5
    } else if first == 0x04 {
        ProxyProtocol::Socks4
    } else if (65 <= first && first <= 90) || (97 <= first && first <= 122) {
        ProxyProtocol::Http
    } else {
        ProxyProtocol::Socks5
    }
}

/// The number of methods announced by a SOCKS5 greeting header
/// (version, method count).
pub fn greeting_method_count(hdr: &[u8]) -> (r: Result<usize, SocksError>)
    requires
        hdr@.len() == 2,
    ensures
        hdr@[0] == SOCKS_VERSION ==> r == Ok::<usize, SocksError>(hdr@[1] as usize),
        hdr@[0] != SOCKS_VERSION ==> r == Err::<usize, SocksError>(SocksError::UnsupportedVersion(hdr@[0])),
{
    if hdr[0] != SOCKS_VERSION {
        return Err(SocksError::UnsupportedVersion(hdr[0]));
    }
    Ok(hdr[1] as usize)
}

/// The answer to the methods the client offers: "no authentication" when
/// offered, otherwise "no acceptable method" and the error.
pub fn choose_auth(methods: &[u8]) -> (r: (Vec<u8>, Result<(), SocksError>))
    ensures
        methods@.contains(AUTH_NONE) ==> r.0@ == seq![SOCKS_VERSION, AUTH_NONE] && r.1 is Ok,
        !methods@.contains(AUTH_NONE) ==> r.0@ == seq![SOCKS_VERSION, 0xFFu8] && r.1
            == Err::<(), SocksError>(SocksError::NoAcceptableAuth),
{
    let mut i: usize = 0;
    while i < methods.len()
        invariant
            i <= methods@.len(),
            forall|j: int| 0 <= j < i ==> methods@[j] != AUTH_NONE,
        decreases methods@.len() - i,
    {
        if methods[i] == AUTH_NONE {
            assert(methods@[i as int] == AUTH_NONE);
            return (vec![SOCKS_VERSION, AUTH_NONE], Ok(()));
        }
        i = i + 1;
    }
    (vec![SOCKS_VERSION, 0xFF], Err(SocksError::NoAcceptableAuth))
}

/// A SOCKS5 reply with the given code and an all-zero bound address: an
/// IPv6 one for an IPv6 request, an IPv4 one otherwise.
pub open spec fn spec_socks5_reply(reply: u8, atyp: u8) -> Seq<u8> {
    if atyp == ATYP_IPV6 {
        seq![SOCKS_VERSION, reply, 0x00u8, ATYP_IPV6] + Seq::new(18, |i: int| 0u8)
    } else {
        seq![SOCKS_VERSION, reply, 0x00u8, ATYP_IPV4] + Seq::new(6, |i: int| 0u8)
    }
}

/// Build a SOCKS5 reply (see `spec_socks5_reply`).
pub fn socks5_reply(reply: u8, atyp: u8) -> (r: Vec<u8>)
    ensures
        r@ == spec_socks5_reply(reply, atyp),
{
    let kind = if atyp == ATYP_IPV6 { ATYP_IPV6 } else { ATYP_IPV4 };
    let zeros: usize = if atyp == ATYP_IPV6 { 18 } else { 6 };
    let mut r: Vec<u8> = vec![SOCKS_VERSION, reply, 0x00, kind];
    let ghost head = r@;
    let mut i: usize = 0;
    while i < zeros
        invariant
            i <= zeros,
            r@ == head + Seq::new(i as nat, |j: int| 0u8),
        decreases zeros - i,
    {
        r.push(0);
        i = i + 1;
        assert(r@ =~= head + Seq::new(i as nat, |j: int| 0u8));
    }
    assert(r@ =~= spec_socks5_reply(reply, atyp));
    r
}

/// What a SOCKS5 request header (version, command, reserved, address
/// type) gives: the kind of address that follows, or the error with the
/// reply to send first, if any.
pub open spec fn spec_request_header(h: Seq<u8>) -> Result<AddressKind, (SocksError, Option<Seq<u8>>)> {
    if h[0] != SOCKS_VERSION {
        Err((SocksError::BadRequestVersion(h[0]), None))
    } else if h[1] != CMD_CONNECT {
        Err((SocksError::UnsupportedCommand(h[1]), Some(spec_socks5_reply(REPLY_CMD_NOT_SUPPORTED, h[3]))))
    } else if h[3] == ATYP_IPV4 {
        Ok(AddressKind::Ipv4)
    } else if h[3] == ATYP_DOMAIN {
        Ok(AddressKind::Domain)
    } else if h[3] == ATYP_IPV6 {
        Ok(AddressKind::Ipv6)
    } else {
        Err((SocksError::UnsupportedAddressType(h[3]), Some(spec_socks5_reply(REPLY_ATYP_NOT_SUPPORTED, ATYP_IPV4))))
    }
}

/// Read a SOCKS5 request header (see `spec_request_header`).
pub fn parse_request_header(h: &[u8]) -> (r: Result<AddressKind, (SocksError, Option<Vec<u8>>)>)
    requires
        h@.len() == 4,
    ensures
        match spec_request_header(h@) {
            Ok(k) => r == Ok::<AddressKind, (SocksError, Option<Vec<u8>>)>(k),
            Err((e, reply)) => r matches Err((e2, reply2)) && e2 == e && match reply {
                Some(bytes) => reply2 matches Some(v) && v@ == bytes,
                None => reply2 is None,
            },
        },
{
    if h[0] != SOCKS_VERSION {
        return Err((SocksError::BadRequestVersion(h[0]), None));
    }
    if h[1] != CMD_CONNECT {
        return Err((SocksError::UnsupportedCommand(h[1]), Some(socks5_reply(REPLY_CMD_NOT_SUPPORTED, h[3]))));
    }
    if h[3] == ATYP_IPV4 {
        Ok(AddressKind::Ipv4)
    } else if h[3] == ATYP_DOMAIN {
        Ok(AddressKind::Domain)
    } else if h[3] == ATYP_IPV6 {
        Ok(AddressKind::Ipv6)
    } else {
        Err((SocksError::UnsupportedAddressType(h[3]), Some(socks5_reply(REPLY_ATYP_NOT_SUPPORTED, ATYP_IPV4))))
    }
}

/// The IPv4 target of four address bytes and a big-endian port.
pub fn ipv4_target(b: &[u8]) -> (r: Endpoint)
    requires
        b@.len() == 6,
    ensures
        r.ip == be32_at(b@, 0),
        r.port == be16(b@, 4),
{
    let ip: u32 = (b[0] as u32) * 16777216 + (b[1] as u32) * 65536 + (b[2] as u32) * 256 + (b[3] as u32);
    Endpoint { ip, port: read_be16(b, 4) as u16 }
}

/// The IPv6 target of sixteen address bytes and a big-endian port.
pub fn ipv6_target(b: &[u8]) -> (r: (Vec<u8>, u16))
    requires
        b@.len() == 18,
    ensures
        r.0@ == b@.subrange(0, 16),
        r.1 == be16(b@, 16),
{
    (copy_range(b, 0, 16), read_be16(b, 16) as u16)
}

/// How many bytes to read after a domain length byte (the name and the
/// port), or, for a zero length, the error and the general-failure reply.
pub fn domain_tail_len(len: u8) -> (r: Result<usize, (SocksError, Vec<u8>)>)
    ensures
        len == 0 ==> (r matches Err((e, reply)) && e == SocksError::EmptyDomain && reply@ == spec_socks5_reply(
            REPLY_GENERAL_FAILURE,
            ATYP_DOMAIN,
        )),
        len != 0 ==> r == Ok::<usize, (SocksError, Vec<u8>)>((len + 2) as usize),
{
    if len == 0 {
        return Err((SocksError::EmptyDomain, socks5_reply(REPLY_GENERAL_FAILURE, ATYP_DOMAIN)));
    }
    Ok(len as usize + 2)
}

/// The name of `len` bytes and the big-endian port after it; the name
/// must be UTF-8.
pub fn domain_target(tail: &[u8], len: usize) -> (r: Result<(String, u16), SocksError>)
    requires
        tail@.len() == len + 2,
    ensures
        valid_utf8(tail@.subrange(0, len as int)) ==> (r matches Ok((name, port)) && encode_utf8(name@)
            == tail@.subrange(0, len as int) && port == be16(tail@, len as int)),
        !valid_utf8(tail@.subrange(0, len as int)) ==> r == Err::<(String, u16), SocksError>(
            SocksError::DomainNotUtf8,
        ),
{
    let name_bytes = copy_range(tail, 0, len);
    if !utf8_is_valid(name_bytes.as_slice()) {
        return Err(SocksError::DomainNotUtf8);
    }
    let name = utf8_lossy_string(name_bytes.as_slice());
    proof {
        decode_utf8_encode_utf8(name_bytes@);
    }
    Ok((name, read_be16(tail, len) as u16))
}

/// The SOCKS4 reply that rejects a request.
pub open spec fn spec_socks4_reject() -> Seq<u8> {
    seq![0x00u8, 0x5B, 0x00, 0x00, 0x00, 0x00, 0x00, 0x00]
}

/// The SOCKS4 reply that rejects a request.
pub fn socks4_reject() -> (r: Vec<u8>)
    ensures
        r@ == spec_socks4_reject(),
{
    vec![0x00u8, 0x5B, 0x00, 0x00, 0x00, 0x00, 0x00, 0x00]
}

/// Read a SOCKS4 header (version, command, port, IPv4 address): the port
/// and address bytes, or the error with the reply to send first, if any.
pub fn parse_socks4_header(h: &[u8]) -> (r: Result<(u16, u32), (SocksError, Option<Vec<u8>>)>)
    requires
        h@.len() == 8,
    ensures
        h@[0] != 0x04 ==> (r matches Err((e, reply)) && e == SocksError::Socks4Version(h@[0]) && reply is None),
        h@[0] == 0x04 && h@[1] != 0x01 ==> (r matches Err((e, reply)) && e == SocksError::Socks4Command(h@[1])
            && (reply matches Some(v) && v@ == spec_socks4_reject())),
        h@[0] == 0x04 && h@[1] == 0x01 ==> r == Ok::<(u16, u32), (SocksError, Option<Vec<u8>>)>(
            (be16(h@, 2) as u16, be32_at(h@, 4) as u32),
        ),
{
    if h[0] != 0x04 {
        return Err((SocksError::Socks4Version(h[0]), None));
    }
    if h[1] != 0x01 {
        return Err((SocksError::Socks4Command(h[1]), Some(socks4_reject())));
    }
    let ip: u32 = (h[4] as u32) * 16777216 + (h[5] as u32) * 65536 + (h[6] as u32) * 256 + (h[7] as u32);
    Ok((read_be16(h, 2) as u16, ip))
}

/// Whether a SOCKS4 address `0.0.0.x` with `x` non-zero asks for SOCKS4a
/// (a domain name follows the user id).
pub fn is_socks4a(ip: u32) -> (r: bool)
    ensures
        r == (ip < 256 && ip != 0),
{
    ip < 256 && ip != 0
}

/// The SOCKS4 success reply, echoing the port and address.
pub fn socks4_success(port: u16, ip: u32) -> (r: Vec<u8>)
    ensures
        r@.len() == 8,
        r@[0] == 0 && r@[1] == 0x5A,
        be16(r@, 2) == port,
        be32_at(r@, 4) == ip,
{
    let mut r: Vec<u8> = vec![0x00, 0x5A];
    r.push((port / 256) as u8);
    r.push((port % 256) as u8);
    r.push((ip / 16777216) as u8);
    r.push(((ip / 65536) % 256) as u8);
    r.push(((ip / 256) % 256) as u8);
    r.push((ip % 256) as u8);
    assert(r@[4] * 16777216 + r@[5] * 65536 + r@[6] * 256 + r@[7] == ip) by (nonlinear_arith)
        requires
            r@[4] == ip / 16777216,
            r@[5] == (ip / 65536) % 256,
            r@[6] == (ip / 256) % 256,
            r@[7] == ip % 256,
            ip <= 0xffff_ffff,
    ;
    r
}

/// A NUL-terminated SOCKS4 field (user id or domain name) read one byte at
/// a time, with at most `SOCKS4_FIELD_MAX` bytes before the NUL.
pub struct NulField {
    bytes: Vec<u8>,
}

/// What feeding a byte to a NUL-terminated field gives.
#[derive(Debug, Clone, Copy, PartialEq, Eq, Structural)]
pub enum FieldStep {
    /// The field ended with this NUL.
    Done,
    /// The byte was kept; read the next one.
    More,
    /// The field is longer than allowed.
    TooLong,
}

impl View for NulField {
    type V = Seq<u8>;

    closed spec fn view(&self) -> Seq<u8> {
        self.bytes@
    }
}

impl NulField {
    /// An empty field.
    pub fn new() -> (r: Self)
        ensures
            r@ == Seq::<u8>::empty(),
    {
        NulField { bytes: Vec::new() }
    }

    /// Feed the next byte read: a NUL ends the field, any other byte is
    /// kept unless `SOCKS4_FIELD_MAX` bytes are already held.
    pub fn feed(&mut self, b: u8) -> (r: FieldStep)
        ensures
            b == 0 ==> r == FieldStep::Done && final(self)@ == old(self)@,
            b != 0 && old(self)@.len() >= SOCKS4_FIELD_MAX ==> r == FieldStep::TooLong && final(self)@ == old(
                self,
            )@,
            b != 0 && old(self)@.len() < SOCKS4_FIELD_MAX ==> r == FieldStep::More && final(self)@ == old(
                self,
            )@.push(b),
    {
        if b == 0 {
            return FieldStep::Done;
        }
        if self.bytes.len() >= SOCKS4_FIELD_MAX {
            return FieldStep::TooLong;
        }
        self.bytes.push(b);
        FieldStep::More
    }

    /// The bytes held.
    pub fn bytes(&self) -> (r: &[u8])
        ensures
            r@ == self@,
    {
        self.bytes.as_slice()
    }

    /// The field as a domain name, which must be UTF-8.
    pub fn domain(&self) -> (r: Result<String, SocksError>)
        ensures
            valid_utf8(self@) ==> (r matches Ok(s) && encode_utf8(s@) == self@),
            !valid_utf8(self@) ==> r == Err::<String, SocksError>(SocksError::DomainNotUtf8),
    {
        if !utf8_is_valid(self.bytes.as_slice()) {
            return Err(SocksError::DomainNotUtf8);
        }
        let s = utf8_lossy_string(self.bytes.as_slice());
        proof {
            decode_utf8_encode_utf8(self.bytes@);
        }
        Ok(s)
    }
}

} // verus!
