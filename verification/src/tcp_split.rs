//! TCP split: the payload is sent as two segments cut at the split
//! position, so that the first segment does not hold the whole SNI or Host.

use vstd::prelude::*;
use crate::types::{DesyncAction, DesyncActionView, Error, SplitPosition, StealthConfig};
use crate::context::{PayloadContext, resolves_to};
use crate::technique::{gives, refused, Technique, TechniqueConfig};
use crate::bytes::{copy_range, lemma_bytes_deep_view};

verus! {

/// The two halves of `p` cut at `o`.
pub open spec fn halves(p: Seq<u8>, o: int) -> Seq<Seq<u8>> {
    seq![p.subrange(0, o), p.subrange(o, p.len() as int)]
}

/// What TCP split does with the offset `o`: two segments, unless the cut
/// would leave one of them empty.
pub open spec fn tcp_split_outcome(p: Seq<u8>, o: usize) -> DesyncActionView {
    if o == 0 || o >= p.len() {
        DesyncActionView::PassThrough
    } else {
        DesyncActionView::Split(halves(p, o as int))
    }
}

/// The results TCP split may give for a split position.
pub open spec fn tcp_split_result(ctx: &PayloadContext, split_pos: SplitPosition, r: Result<DesyncAction, Error>) -> bool {
    exists|o: Option<usize>|
        #[trigger] resolves_to(ctx.payload@.len() as int, ctx.protocol@, split_pos, o) && match o {
            None => refused(r),
            Some(o) => gives(r, tcp_split_outcome(ctx.payload@, o)),
        }
}

/// `p[..o]` and `p[o..]` as two vectors.
pub fn cut_at(p: &Vec<u8>, o: usize) -> (r: Vec<Vec<u8>>)
    requires
        o <= p@.len(),
    ensures
        r.deep_view() == halves(p@, o as int),
{
    let first = copy_range(p.as_slice(), 0, o);
    let second = copy_range(p.as_slice(), o, p.len());
    proof {
        lemma_bytes_deep_view(&first);
        lemma_bytes_deep_view(&second);
    }
    let r = vec![first, second];
    assert(r.deep_view() =~= halves(p@, o as int));
    r
}

/// Split the payload into two segments at the split position.
pub fn apply(ctx: &PayloadContext, split_pos: &SplitPosition) -> (r: Result<DesyncAction, Error>)
    ensures
        tcp_split_result(ctx, *split_pos, r),
{
    let offset = match ctx.resolve_split_position(split_pos) {
        Some(o) => o,
        None => return Err(Error::not_applicable("cannot resolve split position for this payload")),
    };
    if offset == 0 || offset >= ctx.payload.len() {
        return Ok(DesyncAction::PassThrough);
    }
    Ok(DesyncAction::Split(cut_at(&ctx.payload, offset)))
}

/// The TCP split technique.
pub struct TcpSplitTechnique;

impl Technique for TcpSplitTechnique {
    open spec fn spec_name(&self) -> Seq<char> {
        seq!['t', 'c', 'p', '_', 's', 'p', 'l', 'i', 't']
    }

    open spec fn admits(&self, ctx: &PayloadContext, split_pos: &SplitPosition, config: &TechniqueConfig) -> bool {
        true
    }

    open spec fn outcome(
        &self,
        ctx: &PayloadContext,
        split_pos: &SplitPosition,
        config: &TechniqueConfig,
        stealth: Option<&StealthConfig>,
        r: Result<DesyncAction, Error>,
    ) -> bool {
        tcp_split_result(ctx, *split_pos, r)
    }

    fn name(&self) -> (n: &'static str) {
        let n = "tcp_split";
        proof {
            reveal_strlit("tcp_split");
        }
        n
    }

    fn apply(
        &self,
        ctx: &PayloadContext,
        split_pos: &SplitPosition,
        config: &TechniqueConfig,
        stealth: Option<&StealthConfig>,
    ) -> (r: Result<DesyncAction, Error>) {
        apply(ctx, split_pos)
    }
}

} // verus!
