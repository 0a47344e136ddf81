use desyncd::conn_tracker::{AppliedAction, ConnKey, ConnTracker};
use desyncd::nfq::{process_packet, InterceptedPacket, NfqConfig, Verdict};
use desyncd::raw_packet::{
    compute_checksum, compute_tcp_checksum, parse_ip_tcp, parse_ip_udp, rebuild_packet, Endpoint,
};
use desyncd::strategy::Selector;
use desyncd::types::Direction;

fn ip(a: u8, b: u8, c: u8, d: u8) -> u32 {
    u32::from_be_bytes([a, b, c, d])
}

fn make_key(src_port: u16, dst_port: u16) -> ConnKey {
    ConnKey {
        src: Endpoint { ip: ip(192, 168, 1, 1), port: src_port },
        dst: Endpoint { ip: ip(93, 184, 216, 34), port: dst_port },
    }
}

#[test]
fn test_checksum() {
    let data = [0u8; 20];
    assert_eq!(compute_checksum(&data), 0xFFFF);
}

#[test]
fn test_parse_non_ip() {
    assert!(parse_ip_tcp(&[0x60, 0, 0, 0]).is_none());
    assert!(parse_ip_tcp(&[0x45]).is_none());
}

#[test]
fn test_new_connection() {
    let mut tracker = ConnTracker::new(100);
    let key = make_key(12345, 443);

    let state = tracker.get_or_create(&key);
    assert!(!state.desync_applied);
    assert!(state.first_data_seq.is_none());
}

#[test]
fn test_retransmit_detection() {
    let mut tracker = ConnTracker::new(100);
    let key = make_key(12345, 443);

    tracker.get_or_create(&key);
    assert!(!tracker.is_retransmit(&key, 1000));

    tracker.mark_applied(&key, 1000, AppliedAction::SplitOrInject);
    assert!(tracker.is_retransmit(&key, 1000));
    assert!(!tracker.is_retransmit(&key, 2000));
}

#[test]
fn test_eviction() {
    let mut tracker = ConnTracker::new(3);

    for port in 1..=3 {
        tracker.get_or_create(&make_key(port, 443));
    }
    assert_eq!(tracker.len(), 3);

    tracker.get_or_create(&make_key(4, 443));
    assert_eq!(tracker.len(), 3);
}

fn pkt(data: Vec<u8>) -> InterceptedPacket {
    InterceptedPacket { id: 1, data, direction: Direction::Outbound }
}

fn build_quic_initial_udp(dst_port: u16) -> Vec<u8> {
    let mut quic = Vec::new();
    quic.push(0xC0);
    quic.extend_from_slice(&1u32.to_be_bytes());
    quic.push(0);
    quic.push(0);
    quic.push(0);
    quic.extend_from_slice(&[0; 4]);
    quic.extend_from_slice(&[0xAA; 32]);

    let total_len = 20 + 8 + quic.len();
    let mut buf = vec![0u8; total_len];
    buf[0] = 0x45;
    buf[2] = (total_len >> 8) as u8;
    buf[3] = total_len as u8;
    buf[8] = 64;
    buf[9] = 17;
    buf[12..16].copy_from_slice(&[192, 168, 0, 1]);
    buf[16..20].copy_from_slice(&[1, 1, 1, 1]);
    buf[20..22].copy_from_slice(&12345u16.to_be_bytes());
    buf[22..24].copy_from_slice(&dst_port.to_be_bytes());
    let udp_len = (8 + quic.len()) as u16;
    buf[24..26].copy_from_slice(&udp_len.to_be_bytes());
    buf[28..].copy_from_slice(&quic);
    buf
}

#[test]
fn drops_quic_initial_when_block_quic_enabled() {
    let selector = Selector::new(vec![], vec![], None);
    let mut tracker = ConnTracker::new(100);
    let config = NfqConfig { block_quic: true, ..Default::default() };
    let data = build_quic_initial_udp(443);

    let verdict = process_packet(&pkt(data), &selector, &mut tracker, &config);
    assert!(matches!(verdict, Verdict::Drop), "expected Drop, got {:?}", verdict);
}

#[test]
fn accepts_quic_initial_when_block_quic_disabled() {
    let selector = Selector::new(vec![], vec![], None);
    let mut tracker = ConnTracker::new(100);
    let config = NfqConfig { block_quic: false, ..Default::default() };
    let data = build_quic_initial_udp(443);

    let verdict = process_packet(&pkt(data), &selector, &mut tracker, &config);
    assert!(matches!(verdict, Verdict::Accept), "expected Accept, got {:?}", verdict);
}

#[test]
fn leaves_non_quic_udp_alone() {
    let selector = Selector::new(vec![], vec![], None);
    let mut tracker = ConnTracker::new(100);
    let config = NfqConfig { block_quic: true, ..Default::default() };
    let payload = [0x12u8, 0x34, 0x01, 0x00];
    let mut buf = vec![0u8; 20 + 8 + payload.len()];
    buf[0] = 0x45;
    buf[2] = (buf.len() >> 8) as u8;
    buf[3] = buf.len() as u8;
    buf[9] = 17;
    buf[16..20].copy_from_slice(&[8, 8, 8, 8]);
    buf[22..24].copy_from_slice(&53u16.to_be_bytes());
    buf[24..26].copy_from_slice(&((8 + payload.len()) as u16).to_be_bytes());
    buf[28..].copy_from_slice(&payload);

    let verdict = process_packet(&pkt(buf), &selector, &mut tracker, &config);
    assert!(matches!(verdict, Verdict::Accept), "expected Accept, got {:?}", verdict);
}

#[test]
fn ignores_quic_on_non_443_port() {
    let selector = Selector::new(vec![], vec![], None);
    let mut tracker = ConnTracker::new(100);
    let config = NfqConfig { block_quic: true, ..Default::default() };
    let data = build_quic_initial_udp(4433);

    let verdict = process_packet(&pkt(data), &selector, &mut tracker, &config);
    assert!(matches!(verdict, Verdict::Accept), "expected Accept, got {:?}", verdict);
}

/// An IPv4/TCP packet from 10.0.0.1:40000 to 10.0.0.2:443 with the given
/// payload and sequence number.
fn build_tcp_packet(payload: &[u8], seq: u32) -> Vec<u8> {
    let total = 40 + payload.len();
    let mut buf = vec![0u8; total];
    buf[0] = 0x45;
    buf[2] = (total >> 8) as u8;
    buf[3] = total as u8;
    buf[8] = 64;
    buf[9] = 6;
    buf[12..16].copy_from_slice(&[10, 0, 0, 1]);
    buf[16..20].copy_from_slice(&[10, 0, 0, 2]);
    buf[20..22].copy_from_slice(&40000u16.to_be_bytes());
    buf[22..24].copy_from_slice(&443u16.to_be_bytes());
    buf[24..28].copy_from_slice(&seq.to_be_bytes());
    buf[28..32].copy_from_slice(&7u32.to_be_bytes());
    buf[32] = 0x50;
    buf[40..].copy_from_slice(payload);
    buf
}

#[test]
fn parse_tcp_fields() {
    let data = build_tcp_packet(b"hello", 0x01020304);
    let p = parse_ip_tcp(&data).unwrap();
    assert_eq!(p.src_addr, Endpoint { ip: ip(10, 0, 0, 1), port: 40000 });
    assert_eq!(p.dst_addr, Endpoint { ip: ip(10, 0, 0, 2), port: 443 });
    assert_eq!(p.payload_offset, 40);
    assert_eq!(p.ip_header_len, 20);
    assert_eq!(p.tcp_header_len, 20);
    assert_eq!(p.tcp_seq(), 0x01020304);
    assert_eq!(p.ack, 7);
    assert_eq!(p.payload, b"hello");
}

#[test]
fn parse_tcp_rejects_udp_and_short_tcp_header() {
    let udp = build_quic_initial_udp(443);
    assert!(parse_ip_tcp(&udp).is_none());
    let mut data = build_tcp_packet(b"x", 1);
    data[32] = 0x40;
    assert!(parse_ip_tcp(&data).is_none());
    let tcp = build_tcp_packet(b"x", 1);
    assert!(parse_ip_udp(&tcp).is_none());
}

#[test]
fn checksum_known_header() {
    // The example IPv4 header with its checksum field zeroed; the checksum
    // is 0xb861.
    let header = [
        0x45u8, 0x00, 0x00, 0x73, 0x00, 0x00, 0x40, 0x00, 0x40, 0x11, 0x00, 0x00, 0xc0, 0xa8, 0x00, 0x01,
        0xc0, 0xa8, 0x00, 0xc7,
    ];
    assert_eq!(compute_checksum(&header), 0xb861);
    assert_eq!(compute_checksum(&[0x01]), 0xFEFF);
    assert_eq!(compute_checksum(&[]), 0xFFFF);
}

#[test]
fn rebuilt_packet_has_valid_checksums() {
    let data = build_tcp_packet(b"GET / HTTP/1.1\r\n\r\n", 99);
    let parsed = parse_ip_tcp(&data).unwrap();
    let rebuilt = rebuild_packet(&data, &parsed, b"replaced payload!").unwrap();
    assert_eq!(rebuilt.len(), 40 + 17);
    assert_eq!(&rebuilt[40..], b"replaced payload!");
    assert_eq!(u16::from_be_bytes([rebuilt[2], rebuilt[3]]) as usize, rebuilt.len());
    // A header that carries its own checksum sums to 0xFFFF, so checksumming
    // it again gives 0.
    assert_eq!(compute_checksum(&rebuilt[..20]), 0);
    let stored = u16::from_be_bytes([rebuilt[36], rebuilt[37]]);
    let mut zeroed = rebuilt.clone();
    zeroed[36] = 0;
    zeroed[37] = 0;
    assert_eq!(compute_tcp_checksum(&zeroed, 20), stored);
    assert_eq!(compute_tcp_checksum(&rebuilt[..30], 20), 0);
    // The stored TCP checksum verifies too.
    assert_eq!(compute_tcp_checksum(&rebuilt, 20), 0);
}

#[test]
fn rebuild_rejects_truncated_original() {
    let data = build_tcp_packet(b"abc", 1);
    let parsed = parse_ip_tcp(&data).unwrap();
    assert!(rebuild_packet(&data[..30], &parsed, b"x").is_none());
}

#[test]
fn tcp_data_decided_once_and_retransmit_accepted() {
    let selector = Selector::new(vec![], vec![], None);
    let mut tracker = ConnTracker::new(10);
    let config = NfqConfig::default();
    let data = build_tcp_packet(b"hello world", 500);
    let verdict = process_packet(&pkt(data.clone()), &selector, &mut tracker, &config);
    assert!(matches!(verdict, Verdict::Accept));
    assert_eq!(tracker.len(), 1);
    let key = ConnKey {
        src: Endpoint { ip: ip(10, 0, 0, 1), port: 40000 },
        dst: Endpoint { ip: ip(10, 0, 0, 2), port: 443 },
    };
    assert!(tracker.is_retransmit(&key, 500));
    let verdict = process_packet(&pkt(data), &selector, &mut tracker, &config);
    assert!(matches!(verdict, Verdict::Accept));
    assert_eq!(tracker.len(), 1);
}

#[test]
fn tcp_without_payload_is_not_tracked() {
    let selector = Selector::new(vec![], vec![], None);
    let mut tracker = ConnTracker::new(10);
    let config = NfqConfig::default();
    let verdict = process_packet(&pkt(build_tcp_packet(b"", 1)), &selector, &mut tracker, &config);
    assert!(matches!(verdict, Verdict::Accept));
    assert!(tracker.is_empty());
}

#[test]
fn tracker_cleanup_and_zero_capacity() {
    let mut tracker = ConnTracker::new(0);
    tracker.get_or_create_at(&make_key(1, 443), 10);
    assert_eq!(tracker.len(), 1);
    tracker.get_or_create_at(&make_key(2, 443), 20);
    assert_eq!(tracker.len(), 1);
    tracker.cleanup_expired_at(20 + 300_000);
    assert!(tracker.is_empty());

    let mut tracker = ConnTracker::new(5);
    tracker.get_or_create_at(&make_key(1, 443), 1_000);
    tracker.get_or_create_at(&make_key(2, 443), 400_000);
    tracker.cleanup_expired_at(350_000);
    assert_eq!(tracker.len(), 1);
    let s = tracker.get_or_create_at(&make_key(2, 443), 500_000);
    assert_eq!(s.first_seen, 400_000);
}

#[test]
fn eviction_removes_least_recently_touched() {
    let mut tracker = ConnTracker::new(2);
    tracker.get_or_create_at(&make_key(1, 443), 100);
    tracker.get_or_create_at(&make_key(2, 443), 50);
    tracker.mark_applied_at(&make_key(2, 443), 9, AppliedAction::Replaced, 200);
    tracker.get_or_create_at(&make_key(3, 443), 300);
    assert_eq!(tracker.len(), 2);
    assert!(tracker.is_retransmit(&make_key(2, 443), 9));
    let s = tracker.get_or_create_at(&make_key(1, 443), 400);
    assert_eq!(s.first_seen, 400);
}
