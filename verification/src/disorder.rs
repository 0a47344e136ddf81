//! Disorder: the payload is cut in two and the second segment is sent
//! first; the receiver's TCP stack puts them back in order by sequence
//! number, a DPI that reads in arrival order does not.

use vstd::prelude::*;
use crate::types::{DesyncAction, DesyncActionView, Error, SplitPosition, StealthConfig};
use crate::context::{PayloadContext, resolves_to};
use crate::technique::{gives, refused, Technique, TechniqueConfig};
use crate::bytes::{copy_range, lemma_bytes_deep_view};

verus! {

/// What disorder does with the offset `o`: the two segments in reverse
/// order, unless the cut would leave one of them empty.
pub open spec fn disorder_outcome(p: Seq<u8>, o: usize) -> DesyncActionView {
    if o == 0 || o >= p.len() {
        DesyncActionView::PassThrough
    } else {
        DesyncActionView::Split(seq![p.subrange(o as int, p.len() as int), p.subrange(0, o as int)])
    }
}

/// The results disorder may give for a split position.
pub open spec fn disorder_result(ctx: &PayloadContext, split_pos: SplitPosition, r: Result<DesyncAction, Error>) -> bool {
    exists|o: Option<usize>|
        #[trigger] resolves_to(ctx.payload@.len() as int, ctx.protocol@, split_pos, o) && match o {
            None => refused(r),
            Some(o) => gives(r, disorder_outcome(ctx.payload@, o)),
        }
}

/// Split and reverse the segment order.
pub fn apply(ctx: &PayloadContext, split_pos: &SplitPosition) -> (r: Result<DesyncAction, Error>)
    ensures
        disorder_result(ctx, *split_pos, r),
{
    let offset = match ctx.resolve_split_position(split_pos) {
        Some(o) => o,
        None => return Err(Error::not_applicable("cannot resolve split position for disorder")),
    };
    if offset == 0 || offset >= ctx.payload.len() {
        return Ok(DesyncAction::PassThrough);
    }
    let first = copy_range(ctx.payload.as_slice(), 0, offset);
    let second = copy_range(ctx.payload.as_slice(), offset, ctx.payload.len());
    proof {
        lemma_bytes_deep_view(&first);
        lemma_bytes_deep_view(&second);
    }
    let chunks = vec![second, first];
    assert(chunks.deep_view() =~= seq![
        ctx.payload@.subrange(offset as int, ctx.payload@.len() as int),
        ctx.payload@.subrange(0, offset as int),
    ]);
    Ok(DesyncAction::Split(chunks))
}

/// The disorder technique.
pub struct DisorderTechnique;

impl Technique for DisorderTechnique {
    open spec fn spec_name(&self) -> Seq<char> {
        seq!['d', 'i', 's', 'o', 'r', 'd', 'e', 'r']
    }

    open spec fn admits(&self, ctx: &PayloadContext, split_pos: &SplitPosition, config: &TechniqueConfig) -> bool {
        true
    }

    open spec fn outcome(
        &self,
        ctx: &PayloadContext,
        split_pos: &SplitPosition,
        config: &TechniqueConfig,
        stealth: Option<&StealthConfig>,
        r: Result<DesyncAction, Error>,
    ) -> bool {
        disorder_result(ctx, *split_pos, r)
    }

    fn name(&self) -> (n: &'static str) {
        let n = "disorder";
        proof {
            reveal_strlit("disorder");
        }
        n
    }

    fn apply(
        &self,
        ctx: &PayloadContext,
        split_pos: &SplitPosition,
        config: &TechniqueConfig,
        stealth: Option<&StealthConfig>,
    ) -> (r: Result<DesyncAction, Error>) {
        apply(ctx, split_pos)
    }
}

} // verus!
