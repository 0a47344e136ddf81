//! desyncd: DPI desynchronization logic — packet parsers, payload
//! transformation techniques and strategy selection, with their behaviour
//! stated as Verus contracts.

pub mod types;
pub mod bytes;
pub mod tls;
pub mod http;
pub mod quic;
pub mod packet;
pub mod random;
pub mod numparse;
pub mod context;
pub mod technique;
pub mod tcp_split;
pub mod disorder;
pub mod slow_split;
pub mod ccs_inject;
pub mod tls_record_frag;
pub mod multi_stream_frag;
pub mod reassembly;
pub mod padding;
pub mod sni_manip;
pub mod http_host;
pub mod fake_packet;
pub mod registry;
pub mod combo;
pub mod strategy;
pub mod raw_packet;
pub mod conn_tracker;
pub mod nfq;
pub mod http_proxy;
pub mod morphing;
pub mod probe;
pub mod dns;
pub mod socks;
pub mod relay;
pub mod text;
pub mod search;
pub mod morph_search;
pub mod config;
pub mod firewall;
pub mod dns_cache;
pub mod http_head;
pub mod records;
pub mod timestamp;
