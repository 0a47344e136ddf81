//! Technique chaining: techniques applied one after another, each to the
//! payload the previous ones produced.

use vstd::prelude::*;
use crate::types::{DesyncAction, DesyncActionView, Error, SplitPosition};
use crate::context::PayloadContext;
use crate::packet::spec_detect;
use crate::technique::TechniqueConfig;
use crate::registry::{apply_technique, default_techniques, registry_admits, registry_result};
use crate::reassembly::joined;
use crate::bytes::{bytes_eq, lemma_bytes_deep_view};

verus! {

/// What a chain carries between steps: the current payload, the fakes to
/// send first, and the segments of a split made by the last technique.
pub type ChainState = (Seq<u8>, Seq<Seq<u8>>, Option<Seq<Seq<u8>>>);

/// Whether `ctx` is the context detected for `payload`.
pub open spec fn chain_ctx(ctx: PayloadContext, payload: Seq<u8>) -> bool {
    ctx.payload@ == payload && ctx.protocol@ == spec_detect(payload)
}

/// Whether `c` is the configuration a chain step uses: the name and
/// position, enabled, nothing else set.
pub open spec fn chain_config(c: TechniqueConfig, name: Seq<char>, pos: SplitPosition) -> bool {
    &&& c.name@ == name
    &&& c.split_position == Some(pos)
    &&& c.enabled
    &&& c.fake_type is None
    &&& c.sni_mode is None
    &&& c.fragments is None
    &&& c.host_mode is None
    &&& c.stealth is None
    &&& c.l7_filter is None
}

/// Whether `r` is a result a chain step may give on `payload`.
pub open spec fn step_ok(payload: Seq<u8>, name: Seq<char>, pos: SplitPosition, r: Result<DesyncAction, Error>) -> bool {
    exists|ctx: PayloadContext, c: TechniqueConfig|
        chain_ctx(ctx, payload) && chain_config(c, name, pos) && #[trigger] registry_result(
            default_techniques(),
            name,
            &ctx,
            pos,
            &c,
            None,
            r,
        )
}

/// Whether a chain step accepts `payload`.
pub open spec fn step_admits(payload: Seq<u8>, name: Seq<char>, pos: SplitPosition) -> bool {
    &&& payload.len() <= isize::MAX
    &&& forall|ctx: PayloadContext, c: TechniqueConfig|
        chain_ctx(ctx, payload) && chain_config(c, name, pos) ==> #[trigger] registry_admits(
            default_techniques(),
            name,
            &ctx,
            pos,
            &c,
            None,
        )
}

/// The state after a step's action.
pub open spec fn next_state(s: ChainState, a: DesyncActionView, is_last: bool) -> ChainState {
    match a {
        DesyncActionView::PassThrough => s,
        DesyncActionView::Replace(d) => (d, s.1, s.2),
        DesyncActionView::Split(cs) => if is_last {
            (s.0, s.1, Some(cs))
        } else {
            (joined(cs), s.1, s.2)
        },
        DesyncActionView::SlowSplit { chunks: cs, .. } => if is_last {
            (s.0, s.1, Some(cs))
        } else {
            (joined(cs), s.1, s.2)
        },
        DesyncActionView::InjectBefore(f) => (s.0, s.1 + f, s.2),
    }
}

/// The action a chain ends with.
pub open spec fn chain_finish(original: Seq<u8>, s: ChainState) -> DesyncActionView {
    if s.1.len() > 0 {
        match s.2 {
            Some(cs) => DesyncActionView::Split(s.1 + cs),
            None => DesyncActionView::InjectBefore(s.1),
        }
    } else {
        match s.2 {
            Some(cs) => DesyncActionView::Split(cs),
            None => if s.0 != original {
                DesyncActionView::Replace(s.0)
            } else {
                DesyncActionView::PassThrough
            },
        }
    }
}

/// The names and positions of a chain.
pub open spec fn chain_steps(techniques: Seq<(&str, SplitPosition)>) -> Seq<(Seq<char>, SplitPosition)> {
    techniques.map_values(|t: (&str, SplitPosition)| (t.0@, t.1))
}

/// Whether `r` is a result the chain may end with from step `i` in state
/// `s`: each step gives one of its results; a refusal skips the step.
pub open spec fn chain_result(original: Seq<u8>, steps: Seq<(Seq<char>, SplitPosition)>, i: int, s: ChainState, r: Result<DesyncAction, Error>) -> bool
    decreases steps.len() - i,
{
    if i < 0 || i >= steps.len() {
        r matches Ok(a) && a@ == chain_finish(original, s)
    } else {
        exists|ri: Result<DesyncAction, Error>|
            #[trigger] step_ok(s.0, steps[i].0, steps[i].1, ri) && match ri {
                Err(Error::NotApplicable(_)) => chain_result(original, steps, i + 1, s, r),
                Err(_) => r == ri,
                Ok(a) => chain_result(original, steps, i + 1, next_state(s, a@, i == steps.len() - 1), r),
            }
    }
}

/// Whether every step the chain may reach from step `i` in state `s`
/// accepts its payload.
pub open spec fn chain_admits(steps: Seq<(Seq<char>, SplitPosition)>, i: int, s: ChainState) -> bool
    decreases steps.len() - i,
{
    if i < 0 || i >= steps.len() {
        true
    } else {
        &&& step_admits(s.0, steps[i].0, steps[i].1)
        &&& forall|ri: Result<DesyncAction, Error>|
            #[trigger] step_ok(s.0, steps[i].0, steps[i].1, ri) ==> match ri {
                Err(Error::NotApplicable(_)) => chain_admits(steps, i + 1, s),
                Err(_) => true,
                Ok(a) => chain_admits(steps, i + 1, next_state(s, a@, i == steps.len() - 1)),
            }
    }
}

/// The chain state held in the loop's variables.
pub open spec fn state_of(cur: Seq<u8>, prefix: Vec<Vec<u8>>, final_split: Option<Vec<Vec<u8>>>) -> ChainState {
    (cur, prefix.deep_view(), match final_split {
        Some(f) => Some(f.deep_view()),
        None => None,
    })
}

fn copy_bytes(v: &Vec<u8>) -> (r: Vec<u8>)
    ensures
        r@ == v@,
        r.deep_view() == v.deep_view(),
{
    let r = crate::bytes::copy_range(v.as_slice(), 0, v.len());
    proof {
        assert(v@.subrange(0, v@.len() as int) =~= v@);
        lemma_bytes_deep_view(v);
        lemma_bytes_deep_view(&r);
    }
    r
}

fn flatten_chunks(cs: &Vec<Vec<u8>>) -> (r: Vec<u8>)
    ensures
        r@ == joined(cs.deep_view()),
{
    let mut r: Vec<u8> = Vec::new();
    let mut i: usize = 0;
    while i < cs.len()
        invariant
            i <= cs@.len(),
            r@ == joined(cs.deep_view().take(i as int)),
        decreases cs@.len() - i,
    {
        let ghost before = r@;
        let chunk = &cs[i];
        crate::bytes::extend_range(&mut r, chunk.as_slice(), 0, chunk.len());
        proof {
            lemma_bytes_deep_view(&cs@[i as int]);
            assert(chunk@.subrange(0, chunk@.len() as int) =~= chunk@);
            assert(cs.deep_view().take(i + 1).drop_last() =~= cs.deep_view().take(i as int));
        }
        i = i + 1;
    }
    assert(cs.deep_view().take(cs@.len() as int) =~= cs.deep_view());
    r
}

/// Apply a chain of techniques, each to the payload the previous ones
/// produced; a technique that does not apply is skipped.
///
/// Fakes injected along the way go first; a split by the last technique
/// gives the final segments; otherwise the payload is replaced when it
/// changed.
pub fn apply_chain(ctx: &PayloadContext, techniques: &[(&str, SplitPosition)]) -> (r: Result<DesyncAction, Error>)
    requires
        chain_admits(chain_steps(techniques@), 0, (ctx.payload@, Seq::empty(), None)),
    ensures
        chain_result(ctx.payload@, chain_steps(techniques@), 0, (ctx.payload@, Seq::empty(), None), r),
{
    let ghost steps = chain_steps(techniques@);
    let ghost init: ChainState = (ctx.payload@, Seq::empty(), None);
    let n = techniques.len();
    if n == 0 {
        return Ok(DesyncAction::PassThrough);
    }
    let mut current_payload = ctx.payload.clone();
    let mut accumulated_prefix: Vec<Vec<u8>> = Vec::new();
    let mut final_split: Option<Vec<Vec<u8>>> = None;
    assert(accumulated_prefix.deep_view() =~= Seq::<Seq<u8>>::empty());
    assert(state_of(current_payload@, accumulated_prefix, final_split) == init);
    let mut i: usize = 0;
    while i < n
        invariant
            n == techniques@.len(),
            steps == chain_steps(techniques@),
            i <= n,
            chain_admits(steps, i as int, state_of(current_payload@, accumulated_prefix, final_split)),
            forall|r: Result<DesyncAction, Error>|
                chain_result(ctx.payload@, steps, i as int, state_of(current_payload@, accumulated_prefix, final_split), r) ==> chain_result(ctx.payload@, steps, 0, init, r),
        decreases n - i,
    {
        let ghost st: ChainState = state_of(current_payload@, accumulated_prefix, final_split);
        let name = techniques[i].0;
        let pos = &techniques[i].1;
        assert(steps[i as int] == (name@, *pos));
        let inner_ctx = PayloadContext::new(current_payload.clone());
        let config = TechniqueConfig {
            name: name.to_owned(),
            split_position: Some(pos.duplicate()),
            enabled: true,
            fake_type: None,
            sni_mode: None,
            fragments: None,
            host_mode: None,
            stealth: None,
            l7_filter: None,
        };
        assert(chain_ctx(inner_ctx, st.0));
        assert(chain_config(config, name@, *pos));
        assert(registry_admits(default_techniques(), name@, &inner_ctx, *pos, &config, None));
        let result = apply_technique(name, &inner_ctx, pos, None, &config);
        assert(step_ok(st.0, name@, *pos, result));
        let action = match result {
            Ok(a) => a,
            Err(Error::NotApplicable(m)) => {
                i = i + 1;
                continue;
            },
            Err(e) => {
                return Err(e);
            },
        };
        let ghost av = action@;
        let is_last = i == n - 1;
        match action {
            DesyncAction::PassThrough => {},
            DesyncAction::Replace(new_data) => {
                current_payload = new_data;
            },
            DesyncAction::Split(chunks) => {
                if is_last {
                    final_split = Some(chunks);
                } else {
                    current_payload = flatten_chunks(&chunks);
                }
            },
            DesyncAction::SlowSplit { chunks, .. } => {
                if is_last {
                    final_split = Some(chunks);
                } else {
                    current_payload = flatten_chunks(&chunks);
                }
            },
            DesyncAction::InjectBefore(fakes) => {
                let ghost before = accumulated_prefix.deep_view();
                let mut k: usize = 0;
                while k < fakes.len()
                    invariant
                        k <= fakes@.len(),
                        accumulated_prefix.deep_view() == before + fakes.deep_view().take(k as int),
                    decreases fakes@.len() - k,
                {
                    let ghost old_v = accumulated_prefix@;
                    let ghost old_dv = accumulated_prefix.deep_view();
                    let c = copy_bytes(&fakes[k]);
                    accumulated_prefix.push(c);
                    proof {
                        assert(accumulated_prefix@ == old_v.push(c));
                        assert forall|j: int| 0 <= j < old_v.len() implies accumulated_prefix.deep_view()[j] == old_dv[j] by {
                            assert(accumulated_prefix@[j] == old_v[j]);
                        }
                        assert(accumulated_prefix.deep_view()[old_v.len() as int] == fakes.deep_view()[k as int]);
                        assert(old_dv.len() == old_v.len());
                        assert(accumulated_prefix.deep_view().len() == old_v.len() + 1);
                        assert(old_dv == before + fakes.deep_view().take(k as int));
                        assert(fakes.deep_view().len() == fakes@.len());
                        assert forall|j: int| 0 <= j < accumulated_prefix.deep_view().len() implies accumulated_prefix.deep_view()[j] == (before + fakes.deep_view().take(k + 1))[j] by {
                            if j < old_v.len() {
                                assert(old_dv[j] == (before + fakes.deep_view().take(k as int))[j]);
                            }
                        }
                        assert(accumulated_prefix.deep_view() =~= before + fakes.deep_view().take(k + 1));
                    }
                    k = k + 1;
                }
                assert(fakes.deep_view().take(fakes@.len() as int) =~= fakes.deep_view());
            },
        }
        proof {
            let st2: ChainState = state_of(current_payload@, accumulated_prefix, final_split);
            assert(st2 == next_state(st, av, i == steps.len() - 1));
        }
        i = i + 1;
    }
    let ghost fin: ChainState = state_of(current_payload@, accumulated_prefix, final_split);
    if accumulated_prefix.len() > 0 {
        match final_split {
            Some(splits) => {
                let mut all = accumulated_prefix;
                let ghost before = all.deep_view();
                let mut k: usize = 0;
                while k < splits.len()
                    invariant
                        k <= splits@.len(),
                        all.deep_view() == before + splits.deep_view().take(k as int),
                    decreases splits@.len() - k,
                {
                    let ghost old_v = all@;
                    let ghost old_dv = all.deep_view();
                    let c = copy_bytes(&splits[k]);
                    all.push(c);
                    proof {
                        assert(all@ == old_v.push(c));
                        assert forall|j: int| 0 <= j < old_v.len() implies all.deep_view()[j] == old_dv[j] by {
                            assert(all@[j] == old_v[j]);
                        }
                        assert(all.deep_view()[old_v.len() as int] == splits.deep_view()[k as int]);
                        assert(old_dv.len() == old_v.len());
                        assert(all.deep_view().len() == old_v.len() + 1);
                        assert(old_dv == before + splits.deep_view().take(k as int));
                        assert(splits.deep_view().len() == splits@.len());
                        assert forall|j: int| 0 <= j < all.deep_view().len() implies all.deep_view()[j] == (before + splits.deep_view().take(k + 1))[j] by {
                            if j < old_v.len() {
                                assert(old_dv[j] == (before + splits.deep_view().take(k as int))[j]);
                            }
                        }
                        assert(all.deep_view() =~= before + splits.deep_view().take(k + 1));
                    }
                    k = k + 1;
                }
                assert(splits.deep_view().take(splits@.len() as int) =~= splits.deep_view());
                Ok(DesyncAction::Split(all))
            },
            None => Ok(DesyncAction::InjectBefore(accumulated_prefix)),
        }
    } else {
        match final_split {
            Some(splits) => Ok(DesyncAction::Split(splits)),
            None => {
                if !bytes_eq(current_payload.as_slice(), ctx.payload.as_slice()) {
                    Ok(DesyncAction::Replace(current_payload))
                } else {
                    Ok(DesyncAction::PassThrough)
                }
            },
        }
    }
}

} // verus!
