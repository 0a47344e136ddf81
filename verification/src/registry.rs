//! The registry of techniques: built-in techniques looked up by name, and
//! the entry points that apply a named technique to a payload.

use vstd::prelude::*;
use vstd::utf8::{encode_utf8, encode_utf8_decode_utf8};
use crate::types::{DesyncAction, Error, SplitPosition, StealthConfig};
use crate::context::{draw_fits, draw_range, draw_range_of, draws_in_range, jittered, lemma_draw_range, resolves_to, spec_resolve, spec_resolve_jittered, PayloadContext};
use crate::ccs_inject::{is_tls_handshake_with_sni, CONTENT_TYPE_HANDSHAKE};
use crate::multi_stream_frag::{fragment_count, msf_cuts, msf_fragment_count, msf_inner, msf_sni_data_offset, split_points_defined};
use crate::tls_record_frag::{first_record_complete, record_data_len};
use crate::sni_manip::{configured_sni_mode, sni_manip_admits, SniMode};
use crate::bytes::read_be16;
use crate::technique::{refused, Technique, TechniqueConfig};
use crate::tcp_split::TcpSplitTechnique;
use crate::tls_record_frag::TlsRecordFragTechnique;
use crate::multi_stream_frag::MultiStreamFragTechnique;
use crate::fake_packet::FakePacketTechnique;
use crate::disorder::DisorderTechnique;
use crate::sni_manip::SniManipTechnique;
use crate::http_host::HttpHostTechnique;
use crate::slow_split::SlowSplitTechnique;
use crate::ccs_inject::CcsInjectTechnique;
use crate::bytes::bytes_eq;

verus! {

/// The techniques this library provides.
#[derive(Debug, Clone, Copy, PartialEq, Eq, Structural)]
pub enum BuiltinTechnique {
    TcpSplit,
    TlsRecordFrag,
    MultiStreamFrag,
    FakePacket,
    Disorder,
    SniManip,
    HttpHost,
    SlowSplit,
    CcsInject,
}

impl Technique for BuiltinTechnique {
    open spec fn spec_name(&self) -> Seq<char> {
        match self {
            BuiltinTechnique::TcpSplit => TcpSplitTechnique.spec_name(),
            BuiltinTechnique::TlsRecordFrag => TlsRecordFragTechnique.spec_name(),
            BuiltinTechnique::MultiStreamFrag => MultiStreamFragTechnique.spec_name(),
            BuiltinTechnique::FakePacket => FakePacketTechnique.spec_name(),
            BuiltinTechnique::Disorder => DisorderTechnique.spec_name(),
            BuiltinTechnique::SniManip => SniManipTechnique.spec_name(),
            BuiltinTechnique::HttpHost => HttpHostTechnique.spec_name(),
            BuiltinTechnique::SlowSplit => SlowSplitTechnique.spec_name(),
            BuiltinTechnique::CcsInject => CcsInjectTechnique.spec_name(),
        }
    }

    open spec fn admits(&self, ctx: &PayloadContext, split_pos: &SplitPosition, config: &TechniqueConfig) -> bool {
        match self {
            BuiltinTechnique::TcpSplit => TcpSplitTechnique.admits(ctx, split_pos, config),
            BuiltinTechnique::TlsRecordFrag => TlsRecordFragTechnique.admits(ctx, split_pos, config),
            BuiltinTechnique::MultiStreamFrag => MultiStreamFragTechnique.admits(ctx, split_pos, config),
            BuiltinTechnique::FakePacket => FakePacketTechnique.admits(ctx, split_pos, config),
            BuiltinTechnique::Disorder => DisorderTechnique.admits(ctx, split_pos, config),
            BuiltinTechnique::SniManip => SniManipTechnique.admits(ctx, split_pos, config),
            BuiltinTechnique::HttpHost => HttpHostTechnique.admits(ctx, split_pos, config),
            BuiltinTechnique::SlowSplit => SlowSplitTechnique.admits(ctx, split_pos, config),
            BuiltinTechnique::CcsInject => CcsInjectTechnique.admits(ctx, split_pos, config),
        }
    }

    open spec fn outcome(
        &self,
        ctx: &PayloadContext,
        split_pos: &SplitPosition,
        config: &TechniqueConfig,
        stealth: Option<&StealthConfig>,
        r: Result<DesyncAction, Error>,
    ) -> bool {
        match self {
            BuiltinTechnique::TcpSplit => TcpSplitTechnique.outcome(ctx, split_pos, config, stealth, r),
            BuiltinTechnique::TlsRecordFrag => TlsRecordFragTechnique.outcome(ctx, split_pos, config, stealth, r),
            BuiltinTechnique::MultiStreamFrag => MultiStreamFragTechnique.outcome(ctx, split_pos, config, stealth, r),
            BuiltinTechnique::FakePacket => FakePacketTechnique.outcome(ctx, split_pos, config, stealth, r),
            BuiltinTechnique::Disorder => DisorderTechnique.outcome(ctx, split_pos, config, stealth, r),
            BuiltinTechnique::SniManip => SniManipTechnique.outcome(ctx, split_pos, config, stealth, r),
            BuiltinTechnique::HttpHost => HttpHostTechnique.outcome(ctx, split_pos, config, stealth, r),
            BuiltinTechnique::SlowSplit => SlowSplitTechnique.outcome(ctx, split_pos, config, stealth, r),
            BuiltinTechnique::CcsInject => CcsInjectTechnique.outcome(ctx, split_pos, config, stealth, r),
        }
    }

    fn name(&self) -> (n: &'static str) {
        match self {
            BuiltinTechnique::TcpSplit => TcpSplitTechnique.name(),
            BuiltinTechnique::TlsRecordFrag => TlsRecordFragTechnique.name(),
            BuiltinTechnique::MultiStreamFrag => MultiStreamFragTechnique.name(),
            BuiltinTechnique::FakePacket => FakePacketTechnique.name(),
            BuiltinTechnique::Disorder => DisorderTechnique.name(),
            BuiltinTechnique::SniManip => SniManipTechnique.name(),
            BuiltinTechnique::HttpHost => HttpHostTechnique.name(),
            BuiltinTechnique::SlowSplit => SlowSplitTechnique.name(),
            BuiltinTechnique::CcsInject => CcsInjectTechnique.name(),
        }
    }

    fn apply(
        &self,
        ctx: &PayloadContext,
        split_pos: &SplitPosition,
        config: &TechniqueConfig,
        stealth: Option<&StealthConfig>,
    ) -> (r: Result<DesyncAction, Error>) {
        match self {
            BuiltinTechnique::TcpSplit => TcpSplitTechnique.apply(ctx, split_pos, config, stealth),
            BuiltinTechnique::TlsRecordFrag => TlsRecordFragTechnique.apply(ctx, split_pos, config, stealth),
            BuiltinTechnique::MultiStreamFrag => MultiStreamFragTechnique.apply(ctx, split_pos, config, stealth),
            BuiltinTechnique::FakePacket => FakePacketTechnique.apply(ctx, split_pos, config, stealth),
            BuiltinTechnique::Disorder => DisorderTechnique.apply(ctx, split_pos, config, stealth),
            BuiltinTechnique::SniManip => SniManipTechnique.apply(ctx, split_pos, config, stealth),
            BuiltinTechnique::HttpHost => HttpHostTechnique.apply(ctx, split_pos, config, stealth),
            BuiltinTechnique::SlowSplit => SlowSplitTechnique.apply(ctx, split_pos, config, stealth),
            BuiltinTechnique::CcsInject => CcsInjectTechnique.apply(ctx, split_pos, config, stealth),
        }
    }
}

/// Registry of available techniques, looked up by name.
pub struct TechniqueRegistry {
    techniques: Vec<BuiltinTechnique>,
}

impl View for TechniqueRegistry {
    type V = Seq<BuiltinTechnique>;

    closed spec fn view(&self) -> Seq<BuiltinTechnique> {
        self.techniques@
    }
}

/// The first technique from the `i`-th on whose name is `name`.
pub open spec fn lookup_from(ts: Seq<BuiltinTechnique>, name: Seq<char>, i: int) -> Option<BuiltinTechnique>
    decreases ts.len() - i,
{
    if 0 <= i < ts.len() {
        if ts[i].spec_name() == name {
            Some(ts[i])
        } else {
            lookup_from(ts, name, i + 1)
        }
    } else {
        None
    }
}

/// The first technique whose name is `name`.
pub open spec fn lookup(ts: Seq<BuiltinTechnique>, name: Seq<char>) -> Option<BuiltinTechnique> {
    lookup_from(ts, name, 0)
}

/// The split jitter a stealth configuration asks for.
pub open spec fn jitter_of(stealth: Option<&StealthConfig>) -> u8 {
    match stealth {
        Some(s) => s.split_jitter,
        None => 0,
    }
}

/// Whether `eff` is a position the registry may hand a technique for
/// `split_pos`: the position itself without jitter; with jitter, the
/// jittered offset when the position resolves, the position otherwise.
pub open spec fn effective_position(ctx: &PayloadContext, split_pos: SplitPosition, jitter: u8, eff: SplitPosition) -> bool {
    if jitter == 0 {
        eff == split_pos
    } else {
        exists|d: int, delta: int|
            draw_fits(split_pos, ctx.payload@.len() as int, d) && -(jitter as int) <= delta <= jitter as int
                && eff == match #[trigger] spec_resolve_jittered(ctx.payload@.len() as int, ctx.protocol@, split_pos, jitter, d, delta) {
                Some(x) => SplitPosition::Absolute(x),
                None => split_pos,
            }
    }
}

/// The inputs the registry accepts for a technique name: what the named
/// technique accepts, for every position it may be handed.
pub open spec fn registry_admits(
    ts: Seq<BuiltinTechnique>,
    name: Seq<char>,
    ctx: &PayloadContext,
    split_pos: SplitPosition,
    config: &TechniqueConfig,
    stealth: Option<&StealthConfig>,
) -> bool {
    match lookup(ts, name) {
        Some(t) => forall|eff: SplitPosition| #[trigger] effective_position(ctx, split_pos, jitter_of(stealth), eff) ==> t.admits(ctx, &eff, config),
        None => true,
    }
}

/// The error text for a technique name the registry does not hold:
/// `unknown technique: ` and the name.
pub open spec fn unknown_technique_message(name: Seq<char>) -> Seq<char> {
    seq!['u', 'n', 'k', 'n', 'o', 'w', 'n', ' ', 't', 'e', 'c', 'h', 'n', 'i', 'q', 'u', 'e', ':', ' '] + name
}

/// The results the registry may give for a technique name: for an unknown
/// name, a not-applicable error that names it; otherwise a result of the
/// named technique at a position it may be handed.
pub open spec fn registry_result(
    ts: Seq<BuiltinTechnique>,
    name: Seq<char>,
    ctx: &PayloadContext,
    split_pos: SplitPosition,
    config: &TechniqueConfig,
    stealth: Option<&StealthConfig>,
    r: Result<DesyncAction, Error>,
) -> bool {
    match lookup(ts, name) {
        Some(t) => exists|eff: SplitPosition| #[trigger] effective_position(ctx, split_pos, jitter_of(stealth), eff) && t.outcome(ctx, &eff, config, stealth, r),
        None => r matches Err(Error::NotApplicable(m)) && m@ == unknown_technique_message(name),
    }
}

/// The built-in techniques a default registry holds, in lookup order.
pub open spec fn default_techniques() -> Seq<BuiltinTechnique> {
    seq![
        BuiltinTechnique::TcpSplit,
        BuiltinTechnique::TlsRecordFrag,
        BuiltinTechnique::MultiStreamFrag,
        BuiltinTechnique::FakePacket,
        BuiltinTechnique::Disorder,
        BuiltinTechnique::SniManip,
        BuiltinTechnique::HttpHost,
    ]
}

/// Whether two strings are equal.
pub fn str_eq(a: &str, b: &str) -> (r: bool)
    ensures
        r == (a@ == b@),
{
    let r = bytes_eq(a.as_bytes(), b.as_bytes());
    proof {
        encode_utf8_decode_utf8(a@);
        encode_utf8_decode_utf8(b@);
    }
    r
}

impl TechniqueRegistry {
    /// Create an empty registry.
    pub fn new() -> (r: Self)
        ensures
            r@ == Seq::<BuiltinTechnique>::empty(),
    {
        TechniqueRegistry { techniques: Vec::new() }
    }

    /// Register a technique.
    pub fn register(&mut self, technique: BuiltinTechnique)
        ensures
            final(self)@ == old(self)@.push(technique),
    {
        self.techniques.push(technique);
    }

    /// Look up a technique by name (the first registered under it).
    pub fn get(&self, name: &str) -> (r: Option<&BuiltinTechnique>)
        ensures
            match lookup(self@, name@) {
                Some(t) => r is Some && *r->0 == t,
                None => r is None,
            },
    {
        let mut i: usize = 0;
        while i < self.techniques.len()
            invariant
                i <= self.techniques@.len(),
                lookup(self@, name@) == lookup_from(self@, name@, i as int),
            decreases self.techniques@.len() - i,
        {
            if str_eq(self.techniques[i].name(), name) {
                return Some(&self.techniques[i]);
            }
            i = i + 1;
        }
        None
    }

    /// List all registered technique names.
    pub fn available_names(&self) -> (r: Vec<&'static str>)
        ensures
            r@.len() == self@.len(),
            forall|i: int| 0 <= i < r@.len() ==> (#[trigger] r@[i])@ == self@[i].spec_name(),
    {
        let mut r: Vec<&'static str> = Vec::new();
        let mut i: usize = 0;
        while i < self.techniques.len()
            invariant
                i <= self.techniques@.len(),
                r@.len() == i,
                forall|k: int| 0 <= k < i ==> (#[trigger] r@[k])@ == self@[k].spec_name(),
            decreases self.techniques@.len() - i,
        {
            r.push(self.techniques[i].name());
            i = i + 1;
        }
        r
    }

    /// Apply a named technique to a payload context, after applying the
    /// stealth split jitter to the split position.
    pub fn apply(
        &self,
        name: &str,
        ctx: &PayloadContext,
        split_pos: &SplitPosition,
        config: &TechniqueConfig,
        stealth: Option<&StealthConfig>,
    ) -> (r: Result<DesyncAction, Error>)
        requires
            registry_admits(self@, name@, ctx, *split_pos, config, stealth),
        ensures
            registry_result(self@, name@, ctx, *split_pos, config, stealth, r),
    {
        let jitter = match stealth {
            Some(s) => s.split_jitter,
            None => 0,
        };
        let effective_pos = if jitter > 0 {
            match ctx.resolve_split_position_with_jitter(split_pos, jitter) {
                Some(x) => SplitPosition::Absolute(x),
                None => split_pos.duplicate(),
            }
        } else {
            split_pos.duplicate()
        };
        assert(jitter == jitter_of(stealth));
        assert(effective_position(ctx, *split_pos, jitter_of(stealth), effective_pos));
        match self.get(name) {
            Some(technique) => technique.apply(ctx, &effective_pos, config, stealth),
            None => {
                let prefix = "unknown technique: ";
                proof {
                    reveal_strlit("unknown technique: ");
                }
                let mut message = String::from_str(prefix);
                message.append(name);
                assert(message@ =~= unknown_technique_message(name@));
                Err(Error::NotApplicable(message))
            },
        }
    }
}

/// Whether the fragment cuts are defined, with the arguments the technique
/// computes them from.
fn cuts_defined(rdl: usize, sdo: usize, inner: usize, n: usize) -> (r: bool)
    requires
        rdl >= 2,
        1 <= sdo <= rdl - 1,
    ensures
        r == split_points_defined(rdl as int, sdo as int, inner as int, n as int),
{
    if n <= 2 {
        return true;
    }
    let hi = rdl - 1;
    let pre = if sdo / 2 >= 1 { sdo / 2 } else { 1 };
    if pre + 1 > hi {
        return false;
    }
    if n <= 3 {
        return true;
    }
    let through = if inner > hi || sdo > hi - inner { hi } else { sdo + inner };
    let post = if through < pre + 1 { pre + 1 } else { through };
    post + 1 <= hi
}

/// Whether technique `t`, configured by `config`, accepts the payload when
/// its split position resolves to `o`.
pub open spec fn offset_ok(t: BuiltinTechnique, ctx: &PayloadContext, config: &TechniqueConfig, o: Option<usize>) -> bool {
    match t {
        BuiltinTechnique::TlsRecordFrag => !(is_tls_handshake_with_sni(ctx) && first_record_complete(ctx.payload@)
            && record_data_len(ctx.payload@) <= 1) || o is None,
        BuiltinTechnique::MultiStreamFrag => !msf_cuts(ctx, msf_fragment_count(config)) || split_points_defined(
            record_data_len(ctx.payload@),
            msf_sni_data_offset(o, record_data_len(ctx.payload@)),
            msf_inner(ctx),
            msf_fragment_count(config),
        ),
        _ => true,
    }
}

/// Whether every offset the position may resolve to, at every position the
/// registry may hand the technique, is accepted.
pub open spec fn falls_ok(t: BuiltinTechnique, ctx: &PayloadContext, config: &TechniqueConfig, pos: SplitPosition, jitter: u8) -> bool {
    forall|eff: SplitPosition| #[trigger] effective_position(ctx, pos, jitter, eff) ==> forall|o: Option<usize>|
        #[trigger] resolves_to(ctx.payload@.len() as int, ctx.protocol@, eff, o) ==> offset_ok(t, ctx, config, o)
}

/// Where an absolute offset falls in the payload.
pub open spec fn absolute_fall(len: int, x: usize) -> Option<usize> {
    if x < len {
        Some(x)
    } else {
        None
    }
}

/// What draw `e` demands: without jitter, or when some draw leaves the
/// position unresolved (so it is handed on as it is), its resolution is
/// accepted; with jitter, every jittered offset of its resolution is.
pub open spec fn draw_good(
    t: BuiltinTechnique,
    ctx: &PayloadContext,
    config: &TechniqueConfig,
    pos: SplitPosition,
    jitter: u8,
    any_none: bool,
    e: int,
) -> bool {
    let len = ctx.payload@.len() as int;
    let o = spec_resolve(len, ctx.protocol@, pos, e);
    &&& (jitter == 0 || any_none) ==> offset_ok(t, ctx, config, o)
    &&& (jitter > 0 && o is Some) ==> forall|delta: int| -(jitter as int) <= delta <= jitter as int ==> offset_ok(
        t,
        ctx,
        config,
        absolute_fall(len, #[trigger] jittered(o->0 as int, delta, len)),
    )
}

/// Whether some draw in the draw range leaves the position unresolved.
pub open spec fn some_draw_unresolved(ctx: &PayloadContext, pos: SplitPosition) -> bool {
    let len = ctx.payload@.len() as int;
    exists|e: int| draw_range(pos, len).0 <= e < draw_range(pos, len).1 && (#[trigger] spec_resolve(len, ctx.protocol@, pos, e)) is None
}

proof fn lemma_falls_ok_iff(t: BuiltinTechnique, ctx: &PayloadContext, config: &TechniqueConfig, pos: SplitPosition, jitter: u8)
    ensures
        falls_ok(t, ctx, config, pos, jitter) <==> forall|e: int| draw_range(pos, ctx.payload@.len() as int).0 <= e
            < draw_range(pos, ctx.payload@.len() as int).1 ==> #[trigger] draw_good(
            t,
            ctx,
            config,
            pos,
            jitter,
            some_draw_unresolved(ctx, pos),
            e,
        ),
{
    let len = ctx.payload@.len() as int;
    let proto = ctx.protocol@;
    let lo = draw_range(pos, len).0;
    let hi = draw_range(pos, len).1;
    let any_none = some_draw_unresolved(ctx, pos);
    if forall|e: int| lo <= e < hi ==> #[trigger] draw_good(t, ctx, config, pos, jitter, any_none, e) {
        assert forall|eff: SplitPosition| #[trigger] effective_position(ctx, pos, jitter, eff) implies forall|o: Option<usize>|
            #[trigger] resolves_to(len, proto, eff, o) ==> offset_ok(t, ctx, config, o) by {
            assert forall|o: Option<usize>| #[trigger] resolves_to(len, proto, eff, o) implies offset_ok(t, ctx, config, o) by {
                if jitter == 0 {
                    let dd = choose|dd: int| draw_fits(pos, len, dd) && o == #[trigger] spec_resolve(len, proto, pos, dd);
                    lemma_draw_range(len, proto, pos, dd);
                    let e = if draws_in_range(pos, len) { dd } else { 0 };
                    assert(draw_good(t, ctx, config, pos, jitter, any_none, e));
                } else {
                    let (dd, delta) = choose|dd: int, delta: int|
                        draw_fits(pos, len, dd) && -(jitter as int) <= delta <= jitter as int && eff == match #[trigger] spec_resolve_jittered(
                            len,
                            proto,
                            pos,
                            jitter,
                            dd,
                            delta,
                        ) {
                            Some(x) => SplitPosition::Absolute(x),
                            None => pos,
                        };
                    lemma_draw_range(len, proto, pos, dd);
                    let e = if draws_in_range(pos, len) { dd } else { 0 };
                    assert(draw_good(t, ctx, config, pos, jitter, any_none, e));
                    match spec_resolve(len, proto, pos, dd) {
                        Some(b) => {
                            let x = jittered(b as int, delta, len);
                            assert(eff == SplitPosition::Absolute(x));
                            let d2 = choose|d2: int| draw_fits(eff, len, d2) && o == #[trigger] spec_resolve(len, proto, eff, d2);
                            assert(o == absolute_fall(len, x));
                        },
                        None => {
                            assert(eff == pos);
                            assert(spec_resolve(len, proto, pos, e) is None);
                            assert(any_none);
                            let d2 = choose|d2: int| draw_fits(pos, len, d2) && o == #[trigger] spec_resolve(len, proto, pos, d2);
                            lemma_draw_range(len, proto, pos, d2);
                            let e2 = if draws_in_range(pos, len) { d2 } else { 0 };
                            assert(draw_good(t, ctx, config, pos, jitter, any_none, e2));
                        },
                    }
                }
            }
        }
    }
    if falls_ok(t, ctx, config, pos, jitter) {
        assert forall|e: int| lo <= e < hi implies #[trigger] draw_good(t, ctx, config, pos, jitter, any_none, e) by {
            lemma_draw_range(len, proto, pos, e);
            let o = spec_resolve(len, proto, pos, e);
            if jitter == 0 {
                assert(effective_position(ctx, pos, jitter, pos));
                assert(resolves_to(len, proto, pos, o));
            } else {
                if any_none {
                    let e1 = choose|e1: int| lo <= e1 < hi && (#[trigger] spec_resolve(len, proto, pos, e1)) is None;
                    lemma_draw_range(len, proto, pos, e1);
                    assert(spec_resolve_jittered(len, proto, pos, jitter, e1, 0) is None);
                    assert(effective_position(ctx, pos, jitter, pos));
                    assert(resolves_to(len, proto, pos, o));
                }
                if let Some(b) = o {
                    assert forall|delta: int| -(jitter as int) <= delta <= jitter as int implies offset_ok(
                        t,
                        ctx,
                        config,
                        absolute_fall(len, #[trigger] jittered(b as int, delta, len)),
                    ) by {
                        let x = jittered(b as int, delta, len);
                        assert(spec_resolve_jittered(len, proto, pos, jitter, e, delta) == Some(x));
                        assert(effective_position(ctx, pos, jitter, SplitPosition::Absolute(x)));
                        assert(draw_fits(SplitPosition::Absolute(x), len, 0));
                        assert(spec_resolve(len, proto, SplitPosition::Absolute(x), 0) == absolute_fall(len, x));
                        assert(resolves_to(len, proto, SplitPosition::Absolute(x), absolute_fall(len, x)));
                    }
                }
            }
        }
    }
}

/// The offset condition, computed.
fn offset_ok_exec(t: BuiltinTechnique, ctx: &PayloadContext, config: &TechniqueConfig, o: Option<usize>) -> (r: bool)
    ensures
        r == offset_ok(t, ctx, config, o),
{
    let p = ctx.payload.as_slice();
    let plen = p.len();
    let tls_with_sni = match &ctx.protocol {
        crate::types::AppProtocol::TlsClientHello { sni: Some(_), .. } => plen >= 5 && p[0] == CONTENT_TYPE_HANDSHAKE,
        _ => false,
    };
    assert(tls_with_sni == is_tls_handshake_with_sni(ctx));
    match t {
        BuiltinTechnique::TlsRecordFrag => {
            if !tls_with_sni {
                return true;
            }
            let rdl = read_be16(p, 3);
            !(5 + rdl <= plen && rdl <= 1) || o.is_none()
        },
        BuiltinTechnique::MultiStreamFrag => {
            let n = fragment_count(config);
            if !tls_with_sni {
                return true;
            }
            let rdl = read_be16(p, 3);
            if !(5 + rdl <= plen && rdl >= n) {
                return true;
            }
            let inner = match &ctx.protocol {
                crate::types::AppProtocol::TlsClientHello { sni_len, .. } => *sni_len / 2,
                _ => 0,
            };
            assert(inner as int == msf_inner(ctx));
            let so = match o {
                Some(x) => x,
                None => 5 + rdl / 2,
            };
            let hi = rdl - 1;
            let base = if so > 5 { so - 5 } else { 1 };
            let sdo = if base > hi { hi } else { base };
            assert(sdo as int == msf_sni_data_offset(o, rdl as int));
            cuts_defined(rdl, sdo, inner, n)
        },
        _ => true,
    }
}

/// Whether every fall of the position is accepted (see `falls_ok`): every
/// draw of its random offset, every jitter, is tried.
fn all_falls_ok(t: BuiltinTechnique, ctx: &PayloadContext, config: &TechniqueConfig, pos: &SplitPosition, jitter: u8) -> (r: bool)
    ensures
        r == falls_ok(t, ctx, config, *pos, jitter),
{
    let ghost len = ctx.payload@.len() as int;
    let (lo, hi) = draw_range_of(pos, ctx.payload.len());
    let mut any_none = false;
    let mut d = lo;
    while d < hi
        invariant
            lo <= d <= hi,
            lo as int == draw_range(*pos, len).0,
            hi as int == draw_range(*pos, len).1,
            len == ctx.payload@.len(),
            any_none == exists|e: int| lo <= e < d && (#[trigger] spec_resolve(len, ctx.protocol@, *pos, e)) is None,
        decreases hi - d,
    {
        if ctx.resolve_split_position_drawn(pos, d).is_none() {
            any_none = true;
        }
        d = d + 1;
    }
    assert(any_none == some_draw_unresolved(ctx, *pos));
    proof {
        lemma_falls_ok_iff(t, ctx, config, *pos, jitter);
    }
    let mut d = lo;
    while d < hi
        invariant
            lo <= d <= hi,
            lo as int == draw_range(*pos, len).0,
            hi as int == draw_range(*pos, len).1,
            len == ctx.payload@.len(),
            any_none == some_draw_unresolved(ctx, *pos),
            falls_ok(t, ctx, config, *pos, jitter) <==> forall|e: int| lo <= e < hi ==> #[trigger] draw_good(
                t,
                ctx,
                config,
                *pos,
                jitter,
                any_none,
                e,
            ),
            forall|e: int| lo <= e < d ==> #[trigger] draw_good(t, ctx, config, *pos, jitter, any_none, e),
        decreases hi - d,
    {
        let o = ctx.resolve_split_position_drawn(pos, d);
        if (jitter == 0 || any_none) && !offset_ok_exec(t, ctx, config, o) {
            assert(!draw_good(t, ctx, config, *pos, jitter, any_none, d as int));
            return false;
        }
        if jitter > 0 {
            if let Some(b) = o {
                let j: i32 = jitter as i32;
                let mut k: i32 = -j;
                while k <= j
                    invariant
                        -(jitter as int) <= k <= jitter as int + 1,
                        lo <= d < hi,
                        lo as int == draw_range(*pos, len).0,
                        hi as int == draw_range(*pos, len).1,
                        falls_ok(t, ctx, config, *pos, jitter) <==> forall|e: int| lo <= e < hi ==> #[trigger] draw_good(
                            t,
                            ctx,
                            config,
                            *pos,
                            jitter,
                            any_none,
                            e,
                        ),
                        j == jitter as int,
                        jitter > 0,
                        len == ctx.payload@.len(),
                        o == spec_resolve(len, ctx.protocol@, *pos, d as int),
                        o == Some(b),
                        forall|delta: int| -(jitter as int) <= delta < k ==> offset_ok(
                            t,
                            ctx,
                            config,
                            absolute_fall(len, #[trigger] jittered(b as int, delta, len)),
                        ),
                    decreases j + 1 - k,
                {
                    let x = match ctx.resolve_split_position_jittered(pos, jitter, d, k) {
                        Some(x) => x,
                        None => 0,
                    };
                    assert(x == jittered(b as int, k as int, len));
                    let fall = if x < ctx.payload.len() { Some(x) } else { None };
                    if !offset_ok_exec(t, ctx, config, fall) {
                        assert(!draw_good(t, ctx, config, *pos, jitter, any_none, d as int));
                        return false;
                    }
                    k = k + 1;
                }
            }
        }
        assert(draw_good(t, ctx, config, *pos, jitter, any_none, d as int));
        d = d + 1;
    }
    true
}

/// Technique admission is the offset condition at every fall.
proof fn lemma_admits_via_offsets(t: BuiltinTechnique, ctx: &PayloadContext, config: &TechniqueConfig, eff: SplitPosition)
    requires
        t != BuiltinTechnique::SniManip,
    ensures
        t.admits(ctx, &eff, config) <==> forall|o: Option<usize>|
            #[trigger] resolves_to(ctx.payload@.len() as int, ctx.protocol@, eff, o) ==> offset_ok(t, ctx, config, o),
{
}

/// Whether the built-in technique a configuration names accepts the
/// payload wherever its split position may fall: every draw of a random
/// offset and every split jitter is tried.
pub fn config_admits(config: &TechniqueConfig, ctx: &PayloadContext) -> (r: bool)
    ensures
        r == registry_admits(default_techniques(), config.name@, ctx, configured_position(config), config, configured_stealth(config)),
{
    let ghost pos_s = configured_position(config);
    let ghost stealth_s = configured_stealth(config);
    let jitter: u8 = match &config.stealth {
        Some(st) => st.split_jitter,
        None => 0,
    };
    let pos = match &config.split_position {
        Some(p) => p.duplicate(),
        None => SplitPosition::Sni,
    };
    assert(pos == pos_s);
    assert(jitter == jitter_of(stealth_s));
    let reg = default_registry();
    let t = match reg.get(config.name.as_str()) {
        Some(t) => *t,
        None => return true,
    };
    match t {
        BuiltinTechnique::SniManip => {
            let mode = match &config.sni_mode {
                Some(m) => match SniMode::from_str_opt(m.as_str()) {
                    Some(x) => x,
                    None => SniMode::default(),
                },
                None => SniMode::default(),
            };
            assert(mode == configured_sni_mode(config));
            let plen = ctx.payload.len();
            let ok = match &ctx.protocol {
                crate::types::AppProtocol::TlsClientHello { sni: Some(name), sni_offset, sni_len } => {
                    let within = *sni_offset <= plen && *sni_len <= plen - *sni_offset;
                    if mode != SniMode::Remove && within {
                        name.as_str().as_bytes().len() == *sni_len
                    } else {
                        true
                    }
                },
                _ => true,
            };
            assert(ok == sni_manip_admits(ctx, configured_sni_mode(config)));
            proof {
                let len = ctx.payload@.len() as int;
                let d0 = draw_range(pos_s, len).0;
                lemma_draw_range(len, ctx.protocol@, pos_s, d0);
                let eff = match spec_resolve_jittered(len, ctx.protocol@, pos_s, jitter, d0, 0) {
                    Some(x) => if jitter == 0 { pos_s } else { SplitPosition::Absolute(x) },
                    None => pos_s,
                };
                assert(effective_position(ctx, pos_s, jitter, eff));
            }
            ok
        },
        _ => {
            let r = all_falls_ok(t, ctx, config, &pos, jitter);
            proof {
                assert forall|eff: SplitPosition| #[trigger] effective_position(ctx, pos_s, jitter_of(stealth_s), eff) implies (t.admits(ctx, &eff, config)
                    <==> forall|o: Option<usize>| #[trigger] resolves_to(ctx.payload@.len() as int, ctx.protocol@, eff, o) ==> offset_ok(t, ctx, config, o)) by {
                    lemma_admits_via_offsets(t, ctx, config, eff);
                }
            }
            r
        },
    }
}

impl Default for TechniqueRegistry {
    /// A registry with the built-in techniques.
    fn default() -> (r: Self)
        ensures
            r@ == default_techniques(),
    {
        let mut reg = TechniqueRegistry::new();
        reg.register(BuiltinTechnique::TcpSplit);
        reg.register(BuiltinTechnique::TlsRecordFrag);
        reg.register(BuiltinTechnique::MultiStreamFrag);
        reg.register(BuiltinTechnique::FakePacket);
        reg.register(BuiltinTechnique::Disorder);
        reg.register(BuiltinTechnique::SniManip);
        reg.register(BuiltinTechnique::HttpHost);
        assert(reg@ =~= default_techniques());
        reg
    }
}

/// Names of the techniques a default registry holds.
pub fn available_techniques() -> (r: Vec<&'static str>)
    ensures
        r@.len() == default_techniques().len(),
        forall|i: int| 0 <= i < r@.len() ==> (#[trigger] r@[i])@ == default_techniques()[i].spec_name(),
{
    TechniqueRegistry::default().available_names()
}

fn default_registry() -> (r: TechniqueRegistry)
    ensures
        r@ == default_techniques(),
{
    TechniqueRegistry::default()
}

/// Apply a named technique with the built-in registry.
pub fn apply_technique(
    name: &str,
    ctx: &PayloadContext,
    split_pos: &SplitPosition,
    stealth: Option<&StealthConfig>,
    config: &TechniqueConfig,
) -> (r: Result<DesyncAction, Error>)
    requires
        registry_admits(default_techniques(), name@, ctx, *split_pos, config, stealth),
    ensures
        registry_result(default_techniques(), name@, ctx, *split_pos, config, stealth, r),
{
    default_registry().apply(name, ctx, split_pos, config, stealth)
}

/// The split position a configuration asks for (the SNI by default).
pub open spec fn configured_position(config: &TechniqueConfig) -> SplitPosition {
    match config.split_position {
        Some(p) => p,
        None => SplitPosition::Sni,
    }
}

/// The stealth settings a configuration carries.
pub open spec fn configured_stealth(config: &TechniqueConfig) -> Option<&StealthConfig> {
    match config.stealth {
        Some(s) => Some(&s),
        None => None,
    }
}

/// Apply the technique a configuration describes: its name, its split
/// position (the SNI by default), its modes and its stealth settings.
pub fn apply_technique_cfg(config: &TechniqueConfig, ctx: &PayloadContext) -> (r: Result<DesyncAction, Error>)
    requires
        registry_admits(default_techniques(), config.name@, ctx, configured_position(config), config, configured_stealth(config)),
    ensures
        registry_result(default_techniques(), config.name@, ctx, configured_position(config), config, configured_stealth(config), r),
{
    let split_pos = match &config.split_position {
        Some(p) => p.duplicate(),
        None => SplitPosition::Sni,
    };
    let stealth = match &config.stealth {
        Some(s) => Some(s),
        None => None,
    };
    default_registry().apply(config.name.as_str(), ctx, &split_pos, config, stealth)
}

} // verus!
