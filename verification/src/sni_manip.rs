//! SNI manipulation: the SNI bytes of a ClientHello are rewritten in place,
//! either in random letter case (DNS names are case-insensitive, a naive
//! DPI match is not) or replaced by dots.

use vstd::prelude::*;
use vstd::utf8::encode_utf8;
use crate::types::{AppProtocol, AppProtocolView, DesyncAction, DesyncActionView, Error, SplitPosition, StealthConfig};
use crate::context::PayloadContext;
use crate::technique::{gives, refused, Technique, TechniqueConfig};
use crate::bytes::{ascii_lower, ascii_upper, eq_ignore_case, eq_ignore_ascii_case, is_ascii_alpha, to_ascii_lower, to_ascii_upper};
use crate::random::random_bool;

verus! {

/// SNI manipulation mode.
#[derive(Debug, Clone, Copy, PartialEq, Eq, Structural)]
pub enum SniMode {
    /// Randomize the letter case of the SNI.
    MixedCase,
    /// Replace the SNI bytes with dots.
    Remove,
    /// Falls back to mixed case.
    Pad,
}

impl Default for SniMode {
    fn default() -> (m: Self)
        ensures
            m == SniMode::MixedCase,
    {
        SniMode::MixedCase
    }
}

/// Whether `s` is `word` up to ASCII case.
pub open spec fn names(s: Seq<char>, word: Seq<char>) -> bool {
    eq_ignore_case(encode_utf8(s), encode_utf8(word))
}

/// The mode a name selects, compared without regard to case.
pub open spec fn spec_sni_mode(s: Seq<char>) -> Option<SniMode> {
    if names(s, seq!['m', 'i', 'x', 'e', 'd', '_', 'c', 'a', 's', 'e']) || names(s, seq!['m', 'i', 'x', 'e', 'd', 'c', 'a', 's', 'e'])
        || names(s, seq!['m', 'i', 'x', 'e', 'd']) {
        Some(SniMode::MixedCase)
    } else if names(s, seq!['r', 'e', 'm', 'o', 'v', 'e']) {
        Some(SniMode::Remove)
    } else if names(s, seq!['p', 'a', 'd']) || names(s, seq!['p', 'a', 'd', 'd', 'i', 'n', 'g']) {
        Some(SniMode::Pad)
    } else {
        None
    }
}

/// Whether `s` is the literal `word` up to ASCII case.
pub fn is_word(s: &str, word: &str) -> (r: bool)
    ensures
        r == eq_ignore_case(encode_utf8(s@), encode_utf8(word@)),
{
    eq_ignore_ascii_case(s.as_bytes(), word.as_bytes())
}

impl SniMode {
    /// Parse a mode name, ignoring case: `mixed_case`/`mixedcase`/`mixed`,
    /// `remove`, `pad`/`padding`.
    pub fn from_str_opt(s: &str) -> (r: Option<Self>)
        ensures
            r == spec_sni_mode(s@),
    {
        proof {
            reveal_strlit("mixed_case");
            reveal_strlit("mixedcase");
            reveal_strlit("mixed");
            reveal_strlit("remove");
            reveal_strlit("pad");
            reveal_strlit("padding");
            assert("mixed_case"@ =~= seq!['m', 'i', 'x', 'e', 'd', '_', 'c', 'a', 's', 'e']);
            assert("mixedcase"@ =~= seq!['m', 'i', 'x', 'e', 'd', 'c', 'a', 's', 'e']);
            assert("mixed"@ =~= seq!['m', 'i', 'x', 'e', 'd']);
            assert("remove"@ =~= seq!['r', 'e', 'm', 'o', 'v', 'e']);
            assert("pad"@ =~= seq!['p', 'a', 'd']);
            assert("padding"@ =~= seq!['p', 'a', 'd', 'd', 'i', 'n', 'g']);
        }
        if is_word(s, "mixed_case") || is_word(s, "mixedcase") || is_word(s, "mixed") {
            Some(SniMode::MixedCase)
        } else if is_word(s, "remove") {
            Some(SniMode::Remove)
        } else if is_word(s, "pad") || is_word(s, "padding") {
            Some(SniMode::Pad)
        } else {
            None
        }
    }
}

/// Whether `x` is `b` with its letter case possibly changed.
pub open spec fn case_variant(x: u8, b: u8) -> bool {
    if is_ascii_alpha(b) {
        x == ascii_upper(b) || x == ascii_lower(b)
    } else {
        x == b
    }
}

/// Whether `q` is `p` with `p[off..off + sb.len()]` replaced by a case
/// variant of `sb`.
pub open spec fn mixed_case_of(q: Seq<u8>, p: Seq<u8>, off: int, sb: Seq<u8>) -> bool {
    &&& q.len() == p.len()
    &&& forall|i: int| 0 <= i < p.len() && !(off <= i < off + sb.len()) ==> q[i] == p[i]
    &&& forall|i: int| 0 <= i < sb.len() ==> case_variant(#[trigger] q[off + i], sb[i])
}

/// `p` with `p[off..off + len]` replaced by dots.
pub open spec fn dotted(p: Seq<u8>, off: int, len: int) -> Seq<u8> {
    Seq::new(p.len(), |i: int| if off <= i < off + len { 46u8 } else { p[i] })
}

/// The inputs SNI manipulation accepts: where the SNI lies inside the
/// payload, case mixing writes the bytes of the SNI string over it, so
/// they must be as many as the recorded SNI length.
pub open spec fn sni_manip_admits(ctx: &PayloadContext, mode: SniMode) -> bool {
    match ctx.protocol@ {
        AppProtocolView::TlsClientHello { sni: Some(s), sni_offset, sni_len } => (mode != SniMode::Remove && sni_offset
            + sni_len <= ctx.payload@.len()) ==> encode_utf8(s).len() == sni_len,
        _ => true,
    }
}

/// The results SNI manipulation may give.
pub open spec fn sni_manip_result(ctx: &PayloadContext, mode: SniMode, r: Result<DesyncAction, Error>) -> bool {
    match ctx.protocol@ {
        AppProtocolView::TlsClientHello { sni: Some(s), sni_offset, sni_len } => {
            if sni_offset + sni_len > ctx.payload@.len() {
                refused(r)
            } else if mode == SniMode::Remove {
                gives(r, DesyncActionView::Replace(dotted(ctx.payload@, sni_offset as int, sni_len as int)))
            } else {
                r matches Ok(DesyncAction::Replace(q)) && mixed_case_of(q@, ctx.payload@, sni_offset as int, encode_utf8(s))
            }
        },
        _ => refused(r),
    }
}

fn apply_mixed_case(ctx: &PayloadContext, sni: &str, sni_offset: usize, sni_len: usize) -> (r: Result<DesyncAction, Error>)
    requires
        sni_offset + sni_len <= ctx.payload@.len() ==> encode_utf8(sni@).len() == sni_len,
    ensures
        if sni_offset + sni_len > ctx.payload@.len() {
            refused(r)
        } else {
            r matches Ok(DesyncAction::Replace(q)) && mixed_case_of(q@, ctx.payload@, sni_offset as int, encode_utf8(sni@))
        },
{
    let mut payload = ctx.payload.clone();
    let plen = payload.len();
    if sni_offset > plen || sni_len > plen - sni_offset {
        return Err(Error::not_applicable("SNI offset out of bounds"));
    }
    let sb = sni.as_bytes();
    let mut i: usize = 0;
    while i < sni_len
        invariant
            sb@ == encode_utf8(sni@),
            sb@.len() == sni_len,
            sni_offset + sni_len <= plen,
            plen == ctx.payload@.len(),
            i <= sni_len,
            mixed_case_of(payload@, ctx.payload@, sni_offset as int, sb@.subrange(0, i as int)),
            forall|k: int| sni_offset + i <= k < plen ==> payload@[k] == ctx.payload@[k],
        decreases sni_len - i,
    {
        let b = sb[i];
        let m = if (65 <= b && b <= 90) || (97 <= b && b <= 122) {
            if random_bool() {
                to_ascii_upper(b)
            } else {
                to_ascii_lower(b)
            }
        } else {
            b
        };
        payload.set(sni_offset + i, m);
        i = i + 1;
        proof {
            let s_i = sb@.subrange(0, i as int);
            assert forall|k: int| 0 <= k < s_i.len() implies case_variant(#[trigger] payload@[sni_offset + k], s_i[k]) by {
                if k < i - 1 {
                    assert(s_i[k] == sb@.subrange(0, i - 1)[k]);
                }
            }
        }
    }
    assert(sb@.subrange(0, sni_len as int) =~= sb@);
    Ok(DesyncAction::Replace(payload))
}

fn apply_remove(ctx: &PayloadContext, sni_offset: usize, sni_len: usize) -> (r: Result<DesyncAction, Error>)
    ensures
        if sni_offset + sni_len > ctx.payload@.len() {
            refused(r)
        } else {
            gives(r, DesyncActionView::Replace(dotted(ctx.payload@, sni_offset as int, sni_len as int)))
        },
{
    let mut payload = ctx.payload.clone();
    let plen = payload.len();
    if sni_offset > plen || sni_len > plen - sni_offset {
        return Err(Error::not_applicable("SNI offset out of bounds"));
    }
    let mut i: usize = 0;
    while i < sni_len
        invariant
            sni_offset + sni_len <= plen,
            plen == ctx.payload@.len(),
            payload@.len() == plen,
            i <= sni_len,
            forall|k: int| 0 <= k < plen ==> #[trigger] payload@[k] == if sni_offset <= k < sni_offset + i {
                46u8
            } else {
                ctx.payload@[k]
            },
        decreases sni_len - i,
    {
        payload.set(sni_offset + i, 46);
        i = i + 1;
    }
    assert(payload@ =~= dotted(ctx.payload@, sni_offset as int, sni_len as int));
    Ok(DesyncAction::Replace(payload))
}

/// Rewrite the SNI of a ClientHello in the given mode.
pub fn apply(ctx: &PayloadContext, mode: SniMode) -> (r: Result<DesyncAction, Error>)
    requires
        sni_manip_admits(ctx, mode),
    ensures
        sni_manip_result(ctx, mode, r),
{
    match &ctx.protocol {
        AppProtocol::TlsClientHello { sni: Some(sni), sni_offset, sni_len } => {
            match mode {
                SniMode::MixedCase => apply_mixed_case(ctx, sni.as_str(), *sni_offset, *sni_len),
                SniMode::Remove => apply_remove(ctx, *sni_offset, *sni_len),
                SniMode::Pad => apply_mixed_case(ctx, sni.as_str(), *sni_offset, *sni_len),
            }
        },
        _ => Err(Error::not_applicable("sni_manip requires TLS ClientHello with SNI")),
    }
}

/// The mode a configuration selects: its `sni_mode` when that names one,
/// mixed case otherwise.
pub open spec fn configured_sni_mode(config: &TechniqueConfig) -> SniMode {
    match config.sni_mode {
        Some(s) => match spec_sni_mode(s@) {
            Some(m) => m,
            None => SniMode::MixedCase,
        },
        None => SniMode::MixedCase,
    }
}

/// The SNI manipulation technique.
pub struct SniManipTechnique;

impl Technique for SniManipTechnique {
    open spec fn spec_name(&self) -> Seq<char> {
        seq!['s', 'n', 'i', '_', 'm', 'a', 'n', 'i', 'p']
    }

    open spec fn admits(&self, ctx: &PayloadContext, split_pos: &SplitPosition, config: &TechniqueConfig) -> bool {
        sni_manip_admits(ctx, configured_sni_mode(config))
    }

    open spec fn outcome(
        &self,
        ctx: &PayloadContext,
        split_pos: &SplitPosition,
        config: &TechniqueConfig,
        stealth: Option<&StealthConfig>,
        r: Result<DesyncAction, Error>,
    ) -> bool {
        sni_manip_result(ctx, configured_sni_mode(config), r)
    }

    fn name(&self) -> (n: &'static str) {
        let n = "sni_manip";
        proof {
            reveal_strlit("sni_manip");
        }
        n
    }

    fn apply(
        &self,
        ctx: &PayloadContext,
        split_pos: &SplitPosition,
        config: &TechniqueConfig,
        stealth: Option<&StealthConfig>,
    ) -> (r: Result<DesyncAction, Error>) {
        let mode = match &config.sni_mode {
            Some(s) => match SniMode::from_str_opt(s.as_str()) {
                Some(m) => m,
                None => SniMode::default(),
            },
            None => SniMode::default(),
        };
        apply(ctx, mode)
    }
}

} // verus!
