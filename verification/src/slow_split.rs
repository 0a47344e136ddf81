//! Slow split: the payload is cut in two and the second segment is held
//! back long enough for a DPI's reassembly buffer to time out.

use vstd::prelude::*;
use crate::types::{DesyncAction, DesyncActionView, Error, SplitPosition, StealthConfig};
use crate::context::{PayloadContext, resolves_to};
use crate::technique::{gives, refused, Technique, TechniqueConfig};
use crate::tcp_split::{cut_at, halves};

verus! {

/// Pause between the segments when no usable one is configured (3 s).
pub const DEFAULT_DELAY_US: u32 = 3_000_000;
/// Shortest configured pause that is used (0.5 s); shorter ones fall back
/// to the default.
pub const MIN_EFFECTIVE_DELAY_US: u32 = 500_000;

/// The pause between the segments: the stealth timing jitter when it is at
/// least the minimum, the default otherwise.
pub open spec fn slow_split_delay(stealth: Option<&StealthConfig>) -> u32 {
    match stealth {
        Some(s) => if s.timing_jitter_us >= MIN_EFFECTIVE_DELAY_US {
            s.timing_jitter_us
        } else {
            DEFAULT_DELAY_US
        },
        None => DEFAULT_DELAY_US,
    }
}

/// What slow split does with the offset `o`.
pub open spec fn slow_split_outcome(p: Seq<u8>, o: usize, stealth: Option<&StealthConfig>) -> DesyncActionView {
    if o >= p.len() {
        DesyncActionView::PassThrough
    } else {
        DesyncActionView::SlowSplit { chunks: halves(p, o as int), delay_us: slow_split_delay(stealth) }
    }
}

/// The results slow split may give for a split position.
pub open spec fn slow_split_result(
    ctx: &PayloadContext,
    split_pos: SplitPosition,
    stealth: Option<&StealthConfig>,
    r: Result<DesyncAction, Error>,
) -> bool {
    exists|o: Option<usize>|
        #[trigger] resolves_to(ctx.payload@.len() as int, ctx.protocol@, split_pos, o) && match o {
            None => refused(r),
            Some(o) => gives(r, slow_split_outcome(ctx.payload@, o, stealth)),
        }
}

/// Split with a pause between the segments.
pub fn apply(ctx: &PayloadContext, split_pos: &SplitPosition, stealth: Option<&StealthConfig>) -> (r: Result<DesyncAction, Error>)
    ensures
        slow_split_result(ctx, *split_pos, stealth, r),
{
    let offset = match ctx.resolve_split_position(split_pos) {
        Some(o) => o,
        None => return Err(Error::not_applicable("cannot resolve split position for slow_split")),
    };
    if offset >= ctx.payload.len() {
        return Ok(DesyncAction::PassThrough);
    }
    let chunks = cut_at(&ctx.payload, offset);
    let delay_us = match stealth {
        Some(s) => if s.timing_jitter_us >= MIN_EFFECTIVE_DELAY_US {
            s.timing_jitter_us
        } else {
            DEFAULT_DELAY_US
        },
        None => DEFAULT_DELAY_US,
    };
    Ok(DesyncAction::SlowSplit { chunks, delay_us })
}

/// The slow split technique.
pub struct SlowSplitTechnique;

impl Technique for SlowSplitTechnique {
    open spec fn spec_name(&self) -> Seq<char> {
        seq!['s', 'l', 'o', 'w', '_', 's', 'p', 'l', 'i', 't']
    }

    open spec fn admits(&self, ctx: &PayloadContext, split_pos: &SplitPosition, config: &TechniqueConfig) -> bool {
        true
    }

    open spec fn outcome(
        &self,
        ctx: &PayloadContext,
        split_pos: &SplitPosition,
        config: &TechniqueConfig,
        stealth: Option<&StealthConfig>,
        r: Result<DesyncAction, Error>,
    ) -> bool {
        slow_split_result(ctx, *split_pos, stealth, r)
    }

    fn name(&self) -> (n: &'static str) {
        let n = "slow_split";
        proof {
            reveal_strlit("slow_split");
        }
        n
    }

    fn apply(
        &self,
        ctx: &PayloadContext,
        split_pos: &SplitPosition,
        config: &TechniqueConfig,
        stealth: Option<&StealthConfig>,
    ) -> (r: Result<DesyncAction, Error>) {
        apply(ctx, split_pos, stealth)
    }
}

} // verus!
