use desyncd::dns_cache::{pick_address, DnsCache, IpAddress};
use std::time::Duration;
use desyncd::dns::{build_dns_query, parse_dns_response, skip_dns_name, DnsError};

fn check_query(query: &[u8]) {
    assert!(query.len() > 12);
    assert_eq!(query[4], 0);
    assert_eq!(query[5], 1);
    assert_eq!(query[12], 7);
    assert_eq!(&query[13..20], b"example");
    assert_eq!(query[20], 3);
    assert_eq!(&query[21..24], b"com");
    assert_eq!(query[24], 0);
}

fn sample_response() -> Vec<u8> {
    let mut response = vec![
        0x00, 0x01, 0x81, 0x80, 0x00, 0x01, 0x00, 0x01, 0x00, 0x00, 0x00, 0x00,
    ];
    response.extend_from_slice(&[7]);
    response.extend_from_slice(b"example");
    response.extend_from_slice(&[3]);
    response.extend_from_slice(b"com");
    response.push(0);
    response.extend_from_slice(&[0, 1]);
    response.extend_from_slice(&[0, 1]);
    response.extend_from_slice(&[0xC0, 0x0C]);
    response.extend_from_slice(&[0, 1]);
    response.extend_from_slice(&[0, 1]);
    response.extend_from_slice(&[0, 0, 0, 60]);
    response.extend_from_slice(&[0, 4]);
    response.extend_from_slice(&[1, 2, 3, 4]);
    response
}

#[test]
fn dns_test_build_dns_query() {
    let query = build_dns_query("example.com");
    check_query(&query);
    assert_eq!(&query[25..27], &[0, 1]);
    assert_eq!(&query[27..29], &[0, 1]);
}

#[test]
fn lib_test_build_dns_query() {
    let query = build_dns_query("example.com");
    check_query(&query);
}

#[test]
fn dns_test_parse_dns_response() {
    let ips = parse_dns_response(&sample_response()).unwrap();
    assert_eq!(ips.len(), 1);
    assert_eq!(ips[0], u32::from_be_bytes([1, 2, 3, 4]));
}

#[test]
fn lib_test_parse_dns_response() {
    let ips = parse_dns_response(&sample_response()).unwrap();
    assert_eq!(ips.len(), 1);
    assert_eq!(ips[0], u32::from_be_bytes([1, 2, 3, 4]));
}

#[test]
fn query_header_flags_and_long_labels() {
    let query = build_dns_query("");
    assert_eq!(&query[2..12], &[0x01, 0x00, 0x00, 0x01, 0, 0, 0, 0, 0, 0]);
    assert_eq!(&query[12..], &[0, 0, 0, 1, 0, 1]);
    let long = "a".repeat(70);
    let query = build_dns_query(&format!("{}.b.", long));
    assert_eq!(query[12], 63);
    assert_eq!(query[12 + 64], 1);
    assert_eq!(query[12 + 65], b'b');
    assert_eq!(&query[12 + 66..], &[0, 0, 0, 1, 0, 1]);
}

#[test]
fn response_errors() {
    assert_eq!(parse_dns_response(&[0u8; 11]), Err(DnsError::TooShort));
    let mut r = sample_response();
    r[3] = 0x83;
    assert_eq!(parse_dns_response(&r), Err(DnsError::ServerError(3)));
    let r = sample_response();
    // Cut inside the question name.
    assert_eq!(parse_dns_response(&r[..15]), Err(DnsError::LabelPastEnd));
    // Cut after the question: the answer is simply missing.
    assert_eq!(parse_dns_response(&r[..29]).unwrap(), Vec::<u32>::new());
    // Cut inside the answer record: reading stops quietly.
    assert_eq!(parse_dns_response(&r[..40]).unwrap(), Vec::<u32>::new());
}

#[test]
fn skip_names() {
    let data = [3u8, b'a', b'b', b'c', 0, 0xC0];
    assert_eq!(skip_dns_name(&data, 0), Ok(5));
    assert_eq!(skip_dns_name(&data, 5), Err(DnsError::PointerPastEnd));
    assert_eq!(skip_dns_name(&data, 6), Err(DnsError::NamePastEnd));
    assert_eq!(skip_dns_name(&[5u8, 1, 2], 0), Err(DnsError::LabelPastEnd));
    assert_eq!(skip_dns_name(&[0xC0u8, 0x0C], 0), Ok(2));
}

#[test]
fn dns_cache_hit_until_expiry() {
    let mut cache = DnsCache::with_capacity(Duration::from_secs(60), 4);
    assert_eq!(cache.len(), 0);
    cache.store_at("example.com", 443, IpAddress::V4(0x01020304), 1_000);
    assert_eq!(cache.lookup_at("example.com", 443, 1_000), Some(IpAddress::V4(0x01020304)));
    assert_eq!(cache.lookup_at("example.com", 443, 60_999), Some(IpAddress::V4(0x01020304)));
    // Expired at exactly the time to live.
    assert_eq!(cache.lookup_at("example.com", 443, 61_000), None);
    // Another port is another entry.
    assert_eq!(cache.lookup_at("example.com", 80, 1_000), None);
    assert_eq!(cache.len(), 1);
    // Storing again replaces the entry.
    cache.store_at("example.com", 443, IpAddress::V4(0x05060708), 2_000);
    assert_eq!(cache.len(), 1);
    assert_eq!(cache.lookup_at("example.com", 443, 2_000), Some(IpAddress::V4(0x05060708)));
}

#[test]
fn dns_cache_full_drops_soonest_expiry() {
    let mut cache = DnsCache::with_capacity(Duration::from_millis(100), 2);
    cache.store_at("a.com", 443, IpAddress::V4(1), 10);
    cache.store_at("b.com", 443, IpAddress::V4(2), 5);
    cache.store_at("c.com", 443, IpAddress::V4(3), 20);
    assert_eq!(cache.len(), 2);
    assert_eq!(cache.lookup_at("b.com", 443, 20), None);
    assert_eq!(cache.lookup_at("a.com", 443, 20), Some(IpAddress::V4(1)));
    assert_eq!(cache.lookup_at("c.com", 443, 20), Some(IpAddress::V4(3)));
    let fresh = DnsCache::new(Duration::from_secs(1));
    assert_eq!(fresh.len(), 0);
    assert!(fresh.lookup("a.com", 443).is_none());
}

#[test]
fn pick_address_prefers_ipv4() {
    let ips = vec![IpAddress::V6(1), IpAddress::V4(7), IpAddress::V4(8)];
    assert_eq!(pick_address(&ips), Some(IpAddress::V4(7)));
    assert_eq!(pick_address(&vec![IpAddress::V6(5), IpAddress::V6(6)]), Some(IpAddress::V6(5)));
    assert_eq!(pick_address(&Vec::new()), None);
}

#[test]
fn test_dns_cache_insert_and_hit() {
    let mut cache = DnsCache::new(Duration::from_secs(60));
    cache.store("example.com", 443, IpAddress::V4(0x01020304));
    assert_eq!(cache.lookup("example.com", 443), Some(IpAddress::V4(0x01020304)));
    assert_eq!(cache.len(), 1);
}

#[test]
fn test_dns_cache_expiry() {
    // An entry whose time to live ran out a second ago is not returned.
    let mut cache = DnsCache::new(Duration::from_millis(1));
    cache.store_at("expired.example", 443, IpAddress::V4(0x09090909), 0);
    assert_eq!(cache.lookup_at("expired.example", 443, 1_001), None);
}
