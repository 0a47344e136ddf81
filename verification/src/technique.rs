//! The technique interface: per-technique configuration, the `Technique`
//! trait every technique implements, and the vocabulary their contracts
//! share.

use vstd::prelude::*;
use crate::types::{DesyncAction, DesyncActionView, Error, FakeType, L7Filter, SplitPosition, StealthConfig};
use crate::context::PayloadContext;

verus! {

/// Configuration for a single technique within a strategy.
#[derive(Debug, Clone)]
pub struct TechniqueConfig {
    /// Technique name (e.g., "tcp_split", "tls_record_frag").
    pub name: String,
    /// Where to split the payload (applies to split-based techniques).
    pub split_position: Option<SplitPosition>,
    /// Whether this technique is active.
    pub enabled: bool,
    /// Fake packet type (for "fake_packet").
    pub fake_type: Option<FakeType>,
    /// SNI manipulation mode (for "sni_manip", e.g. "MixedCase"); for
    /// "multi_stream_frag" without `fragments`, the fragment count as text.
    pub sni_mode: Option<String>,
    /// Number of TLS record fragments (for "multi_stream_frag"); clamped to
    /// `2..=8` at apply time, 3 when neither this nor `sni_mode` gives one.
    pub fragments: Option<usize>,
    /// HTTP Host manipulation mode (for "http_host").
    pub host_mode: Option<String>,
    /// Per-technique stealth overrides.
    pub stealth: Option<StealthConfig>,
    /// Only apply this technique when the detected protocol matches;
    /// `None` applies it to any.
    pub l7_filter: Option<L7Filter>,
}

impl TechniqueConfig {
    /// A copy of this configuration with the same field values.
    pub fn duplicate(&self) -> (r: TechniqueConfig)
        ensures
            r == *self,
    {
        TechniqueConfig {
            name: self.name.clone(),
            split_position: match &self.split_position {
                Some(p) => Some(p.duplicate()),
                None => None,
            },
            enabled: self.enabled,
            fake_type: self.fake_type,
            sni_mode: match &self.sni_mode {
                Some(s) => Some(s.clone()),
                None => None,
            },
            fragments: self.fragments,
            host_mode: match &self.host_mode {
                Some(s) => Some(s.clone()),
                None => None,
            },
            stealth: match &self.stealth {
                Some(s) => Some(s.duplicate()),
                None => None,
            },
            l7_filter: self.l7_filter,
        }
    }
}

/// Whether a technique's result is the action `a`.
pub open spec fn gives(r: Result<DesyncAction, Error>, a: DesyncActionView) -> bool {
    r matches Ok(x) && x@ == a
}

/// Whether a technique refused the payload as not applicable.
pub open spec fn refused(r: Result<DesyncAction, Error>) -> bool {
    r matches Err(Error::NotApplicable(_))
}

/// A DPI bypass technique: given the payload context and its configuration,
/// it describes how to modify or send the data.
pub trait Technique {
    /// The technique's name.
    spec fn spec_name(&self) -> Seq<char>;

    /// The inputs the technique accepts.
    spec fn admits(&self, ctx: &PayloadContext, split_pos: &SplitPosition, config: &TechniqueConfig) -> bool;

    /// Whether `r` is a result the technique may give.
    spec fn outcome(
        &self,
        ctx: &PayloadContext,
        split_pos: &SplitPosition,
        config: &TechniqueConfig,
        stealth: Option<&StealthConfig>,
        r: Result<DesyncAction, Error>,
    ) -> bool;

    /// Unique name of this technique (e.g., "tcp_split").
    fn name(&self) -> (n: &'static str)
        ensures
            n@ == self.spec_name(),
    ;

    /// Apply the technique to the payload.
    fn apply(
        &self,
        ctx: &PayloadContext,
        split_pos: &SplitPosition,
        config: &TechniqueConfig,
        stealth: Option<&StealthConfig>,
    ) -> (r: Result<DesyncAction, Error>)
        requires
            self.admits(ctx, split_pos, config),
        ensures
            self.outcome(ctx, split_pos, config, stealth, r),
    ;
}

} // verus!
