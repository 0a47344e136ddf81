//! Core data types shared by the parsers, the techniques and the strategy
//! engine.

use vstd::prelude::*;

verus! {

/// Direction of an intercepted packet.
#[derive(Debug, Clone, Copy, PartialEq, Eq, Structural)]
pub enum Direction {
    Outbound,
    Inbound,
}

/// Transport protocol.
#[derive(Debug, Clone, Copy, PartialEq, Eq, Hash, Structural)]
pub enum TransportProto {
    Tcp,
    Udp,
}

/// Application-layer protocol detected in a payload.
#[derive(Debug, Clone, PartialEq, Eq)]
pub enum AppProtocol {
    /// TLS ClientHello with optional SNI.
    TlsClientHello {
        sni: Option<String>,
        /// Byte offset of the SNI value within the TLS payload.
        sni_offset: usize,
        /// Length of the SNI value.
        sni_len: usize,
    },
    /// HTTP/1.x request.
    HttpRequest {
        method: String,
        host: Option<String>,
        /// Byte offset of the Host header value within the HTTP payload.
        host_offset: usize,
    },
    /// QUIC Initial packet.
    QuicInitial { dcid: Vec<u8>, scid: Vec<u8> },
    /// Protocol not recognized or not relevant.
    Unknown,
}

/// Mathematical view of [`AppProtocol`]: strings by their characters,
/// byte vectors by their contents.
pub enum AppProtocolView {
    TlsClientHello { sni: Option<Seq<char>>, sni_offset: usize, sni_len: usize },
    HttpRequest { method: Seq<char>, host: Option<Seq<char>>, host_offset: usize },
    QuicInitial { dcid: Seq<u8>, scid: Seq<u8> },
    Unknown,
}

/// View of an optional string.
pub open spec fn opt_str_view(s: Option<String>) -> Option<Seq<char>> {
    match s {
        Some(x) => Some(x@),
        None => None,
    }
}

impl View for AppProtocol {
    type V = AppProtocolView;

    open spec fn view(&self) -> AppProtocolView {
        match self {
            AppProtocol::TlsClientHello { sni, sni_offset, sni_len } => AppProtocolView::TlsClientHello {
                sni: opt_str_view(*sni),
                sni_offset: *sni_offset,
                sni_len: *sni_len,
            },
            AppProtocol::HttpRequest { method, host, host_offset } => AppProtocolView::HttpRequest {
                method: method@,
                host: opt_str_view(*host),
                host_offset: *host_offset,
            },
            AppProtocol::QuicInitial { dcid, scid } => AppProtocolView::QuicInitial {
                dcid: dcid@,
                scid: scid@,
            },
            AppProtocol::Unknown => AppProtocolView::Unknown,
        }
    }
}

/// Operating mode for the tool.
#[derive(Debug, Clone, Copy, PartialEq, Eq, Structural)]
pub enum Mode {
    /// SOCKS5 proxy mode (no elevated privileges needed).
    Socks,
    /// Netfilter queue mode (Linux, requires root).
    Nfq,
    /// Transparent proxy mode (requires firewall rules).
    Transparent,
    /// Hybrid: SOCKS + NFQ for critical domains.
    Hybrid,
}

impl Default for Mode {
    fn default() -> (m: Self)
        ensures
            m == Mode::Socks,
    {
        Mode::Socks
    }
}

/// Position within a payload where a split should occur.
#[derive(Debug, PartialEq, Eq)]
pub enum SplitPosition {
    /// Absolute byte offset from the start of the application payload.
    Absolute(usize),
    /// Split right before the SNI value in a TLS ClientHello (or the Host
    /// value of an HTTP request).
    Sni,
    /// Split at SNI offset + N (N may be negative).
    SniOffset(i32),
    /// Random offset within `[min, max)`.
    Random { min: usize, max: usize },
    /// Start of the SNI extension header, 9 bytes before the SNI value
    /// (`sniext+0` in byedpi/zapret notation).
    SniExtStart,
    /// End of the second-level domain inside the SNI value (`endsld`).
    EndSld,
    /// Middle of the second-level domain inside the SNI value (`midsld`).
    MidSld,
    /// A marker position shifted by a signed delta.
    OffsetFrom { marker: Box<SplitPosition>, delta: i32 },
}

impl Default for SplitPosition {
    fn default() -> (p: Self)
        ensures
            p == SplitPosition::Sni,
    {
        SplitPosition::Sni
    }
}

impl SplitPosition {
    /// A copy of this position, structurally equal to it.
    pub fn duplicate(&self) -> (r: SplitPosition)
        ensures
            r == *self,
        decreases self,
    {
        match self {
            SplitPosition::Absolute(n) => SplitPosition::Absolute(*n),
            SplitPosition::Sni => SplitPosition::Sni,
            SplitPosition::SniOffset(d) => SplitPosition::SniOffset(*d),
            SplitPosition::Random { min, max } => SplitPosition::Random { min: *min, max: *max },
            SplitPosition::SniExtStart => SplitPosition::SniExtStart,
            SplitPosition::EndSld => SplitPosition::EndSld,
            SplitPosition::MidSld => SplitPosition::MidSld,
            SplitPosition::OffsetFrom { marker, delta } => {
                let inner = (**marker).duplicate();
                SplitPosition::OffsetFrom { marker: Box::new(inner), delta: *delta }
            },
        }
    }
}

impl Clone for SplitPosition {
    fn clone(&self) -> (r: Self)
        ensures
            r == *self,
    {
        self.duplicate()
    }
}

/// L7 (application-layer) filter for a single technique: the technique is
/// only applied when the detected protocol matches.
#[derive(Debug, Clone, Copy, PartialEq, Eq, Structural)]
pub enum L7Filter {
    /// Only apply if the payload is a TLS ClientHello.
    Tls,
    /// Only apply if the payload is an HTTP/1.x request.
    Http,
    /// Only apply if the payload is a QUIC Initial packet.
    Quic,
    /// Apply regardless of detected protocol.
    Any,
}

/// Whether an L7 filter accepts a protocol.
pub open spec fn l7_filter_accepts(f: L7Filter, proto: AppProtocolView) -> bool {
    match f {
        L7Filter::Any => true,
        L7Filter::Tls => proto is TlsClientHello,
        L7Filter::Http => proto is HttpRequest,
        L7Filter::Quic => proto is QuicInitial,
    }
}

impl L7Filter {
    /// Check whether this filter matches the detected protocol.
    pub fn matches(&self, proto: &AppProtocol) -> (r: bool)
        ensures
            r == l7_filter_accepts(*self, proto@),
    {
        match (self, proto) {
            (L7Filter::Any, _) => true,
            (L7Filter::Tls, AppProtocol::TlsClientHello { .. }) => true,
            (L7Filter::Http, AppProtocol::HttpRequest { .. }) => true,
            (L7Filter::Quic, AppProtocol::QuicInitial { .. }) => true,
            _ => false,
        }
    }
}

/// Stealth configuration for anti-detection features.
#[derive(Debug, Clone, PartialEq, Eq)]
pub struct StealthConfig {
    /// Jitter of ±N bytes applied to the split position (0 = disabled).
    pub split_jitter: u8,
    /// Delay between segments in microseconds (0 = disabled).
    pub timing_jitter_us: u32,
    /// Range for fake TLS record size randomization (None = fixed 64 bytes).
    pub fake_size_range: Option<(usize, usize)>,
    /// Add a random TLS padding extension to vary the packet size.
    pub randomize_tls_padding: bool,
}

impl Default for StealthConfig {
    fn default() -> (s: Self)
        ensures
            s.split_jitter == 0,
            s.timing_jitter_us == 0,
            s.fake_size_range is None,
            !s.randomize_tls_padding,
    {
        StealthConfig {
            split_jitter: 0,
            timing_jitter_us: 0,
            fake_size_range: None,
            randomize_tls_padding: false,
        }
    }
}

impl StealthConfig {
    /// A copy of this configuration with the same field values.
    pub fn duplicate(&self) -> (r: StealthConfig)
        ensures
            r == *self,
    {
        StealthConfig {
            split_jitter: self.split_jitter,
            timing_jitter_us: self.timing_jitter_us,
            fake_size_range: match self.fake_size_range {
                Some((a, b)) => Some((a, b)),
                None => None,
            },
            randomize_tls_padding: self.randomize_tls_padding,
        }
    }
}

/// How to make a fake packet undeliverable to the real server.
#[derive(Debug, Clone, Copy, PartialEq, Eq, Structural)]
pub enum FakeType {
    /// Corrupt TCP checksum.
    BadChecksum,
    /// Set TTL so the packet expires before reaching the server.
    BadTtl,
    /// Add a TCP MD5 signature option (Linux servers drop these).
    BadMd5Sig,
    /// Use an incorrect TCP sequence number.
    BadSeq,
}

/// Result of applying a desync technique.
#[derive(Debug, Clone)]
pub enum DesyncAction {
    /// Do not modify the data.
    PassThrough,
    /// Replace the original data with this.
    Replace(Vec<u8>),
    /// Split into multiple chunks to be sent separately.
    Split(Vec<Vec<u8>>),
    /// Inject these chunks before sending the original data.
    InjectBefore(Vec<Vec<u8>>),
    /// Send the chunks separately with a pause of `delay_us` microseconds
    /// between them.
    SlowSplit { chunks: Vec<Vec<u8>>, delay_us: u32 },
}

/// Mathematical view of [`DesyncAction`].
pub enum DesyncActionView {
    PassThrough,
    Replace(Seq<u8>),
    Split(Seq<Seq<u8>>),
    InjectBefore(Seq<Seq<u8>>),
    SlowSplit { chunks: Seq<Seq<u8>>, delay_us: u32 },
}

impl View for DesyncAction {
    type V = DesyncActionView;

    open spec fn view(&self) -> DesyncActionView {
        match self {
            DesyncAction::PassThrough => DesyncActionView::PassThrough,
            DesyncAction::Replace(v) => DesyncActionView::Replace(v@),
            DesyncAction::Split(c) => DesyncActionView::Split(c.deep_view()),
            DesyncAction::InjectBefore(c) => DesyncActionView::InjectBefore(c.deep_view()),
            DesyncAction::SlowSplit { chunks, delay_us } => DesyncActionView::SlowSplit {
                chunks: chunks.deep_view(),
                delay_us: *delay_us,
            },
        }
    }
}

/// Error kinds of the library.
#[derive(Debug)]
pub enum Error {
    PacketParse(String),
    NotApplicable(String),
    Config(String),
    Proxy(String),
    Other(String),
}

impl Error {
    /// A `NotApplicable` error with the given message.
    pub fn not_applicable(msg: &str) -> (e: Error)
        ensures
            e matches Error::NotApplicable(m) && m@ == msg@,
    {
        Error::NotApplicable(msg.to_owned())
    }
}

} // verus!
