//! Proxy relay decisions: when the first outbound message is complete
//! enough to desynchronise, how an action is sent on the upstream socket,
//! and the per-connection bookkeeping. The socket reads, writes and
//! sleeps are the caller's.

use vstd::prelude::*;
use crate::tls::{spec_try_parse, try_parse_client_hello, ParseStatus, ParseStatusView};
use crate::types::{DesyncAction, StealthConfig};
use crate::random::random_u32;
use crate::conn_tracker::{elapsed_since, instant_now};

verus! {

/// Largest first message gathered before desynchronising (64 KiB).
pub const MAX_FIRST_BUF: usize = 65536;
/// Size of the first read of a connection.
pub const INITIAL_FIRST_BUF: usize = 4096;

/// What to do after a read while gathering the first outbound message.
#[derive(Debug, Clone, Copy, PartialEq, Eq, Structural)]
pub enum Gather {
    /// Use what was read.
    Done,
    /// Read more (the data is an incomplete ClientHello).
    ReadMore,
}

/// After the first read: only an incomplete ClientHello asks for more.
pub open spec fn spec_after_first_read(data: Seq<u8>) -> Gather {
    match spec_try_parse(data) {
        ParseStatusView::NeedMore(_) => Gather::ReadMore,
        _ => Gather::Done,
    }
}

/// After a later read: stop when the buffer is full, the ClientHello is
/// complete, the data is not TLS, or the ClientHello claims more than the
/// buffer holds.
pub open spec fn spec_after_more_data(data: Seq<u8>) -> Gather {
    if data.len() >= MAX_FIRST_BUF {
        Gather::Done
    } else {
        match spec_try_parse(data) {
            ParseStatusView::NeedMore(n) => if n > MAX_FIRST_BUF {
                Gather::Done
            } else {
                Gather::ReadMore
            },
            _ => Gather::Done,
        }
    }
}

/// Decide after the first read of a connection (see
/// `spec_after_first_read`).
pub fn after_first_read(data: &[u8]) -> (r: Gather)
    requires
        data@.len() <= isize::MAX,
    ensures
        r == spec_after_first_read(data@),
{
    match try_parse_client_hello(data) {
        ParseStatus::NeedMore(_) => Gather::ReadMore,
        _ => Gather::Done,
    }
}

/// Decide after a later read, with everything gathered so far in `data`
/// (see `spec_after_more_data`).
pub fn after_more_data(data: &[u8]) -> (r: Gather)
    requires
        data@.len() <= isize::MAX,
    ensures
        r == spec_after_more_data(data@),
{
    if data.len() >= MAX_FIRST_BUF {
        return Gather::Done;
    }
    match try_parse_client_hello(data) {
        ParseStatus::NeedMore(needed) => if needed > MAX_FIRST_BUF {
            Gather::Done
        } else {
            Gather::ReadMore
        },
        _ => Gather::Done,
    }
}

/// Whether an action modifies what is sent.
pub open spec fn modifies(a: DesyncAction) -> bool {
    !(a is PassThrough)
}

/// One step of sending an action on the upstream socket.
#[derive(Debug, Clone, PartialEq, Eq)]
pub enum SendStep {
    /// Write these bytes.
    Write(Vec<u8>),
    /// Flush what was written, so that it leaves as its own segment.
    Flush,
    /// Wait this many microseconds.
    Pause(u32),
}

/// Mathematical view of a [`SendStep`].
pub enum SendStepView {
    Write(Seq<u8>),
    Flush,
    Pause(u32),
}

impl View for SendStep {
    type V = SendStepView;

    open spec fn view(&self) -> SendStepView {
        match self {
            SendStep::Write(b) => SendStepView::Write(b@),
            SendStep::Flush => SendStepView::Flush,
            SendStep::Pause(us) => SendStepView::Pause(*us),
        }
    }
}

/// The view of each step.
pub open spec fn steps_view(s: Seq<SendStep>) -> Seq<SendStepView> {
    s.map_values(|x: SendStep| x@)
}

/// The jitter configured for pauses between segments (0 = none).
pub open spec fn jitter_us(stealth: Option<&StealthConfig>) -> u32 {
    match stealth {
        Some(s) => s.timing_jitter_us,
        None => 0,
    }
}

/// Whether `p` is a pause allowed by the jitter: none when the jitter is
/// off, one pause of at most the jitter otherwise.
pub open spec fn jitter_steps(jitter: u32, p: Seq<SendStepView>) -> bool {
    if jitter == 0 {
        p.len() == 0
    } else {
        p.len() == 1 && (p[0] matches SendStepView::Pause(us) && us <= jitter)
    }
}

/// Each chunk written and flushed, with a jitter pause after each.
pub open spec fn chunks_with_jitter(chunks: Seq<Seq<u8>>, jitter: u32, steps: Seq<SendStepView>) -> bool
    decreases chunks.len(),
{
    if chunks.len() == 0 {
        steps.len() == 0
    } else {
        let k = if jitter == 0 { 2int } else { 3int };
        &&& steps.len() >= k
        &&& steps[0] == SendStepView::Write(chunks[0])
        &&& steps[1] == SendStepView::Flush
        &&& jitter_steps(jitter, steps.subrange(2, k))
        &&& chunks_with_jitter(chunks.drop_first(), jitter, steps.subrange(k, steps.len() as int))
    }
}

/// Each chunk written and flushed, without pauses.
pub open spec fn chunks_flushed(chunks: Seq<Seq<u8>>) -> Seq<SendStepView>
    decreases chunks.len(),
{
    if chunks.len() == 0 {
        Seq::empty()
    } else {
        seq![SendStepView::Write(chunks[0]), SendStepView::Flush] + chunks_flushed(chunks.drop_first())
    }
}

/// Each chunk written and flushed, with a pause of `delay` between
/// consecutive chunks.
pub open spec fn chunks_delayed(chunks: Seq<Seq<u8>>, delay: u32) -> Seq<SendStepView>
    decreases chunks.len(),
{
    if chunks.len() == 0 {
        Seq::empty()
    } else if chunks.len() == 1 {
        seq![SendStepView::Write(chunks[0]), SendStepView::Flush]
    } else {
        seq![SendStepView::Write(chunks[0]), SendStepView::Flush, SendStepView::Pause(delay)] + chunks_delayed(
            chunks.drop_first(),
            delay,
        )
    }
}

/// Whether `steps` send `action` for the payload `original`: the payload or
/// its replacement in one write; split chunks each written and flushed
/// with a jitter pause after each; injected chunks each written and
/// flushed, a jitter pause, then the payload; slow-split chunks with the
/// action's delay between them.
pub open spec fn sends(action: DesyncAction, original: Seq<u8>, jitter: u32, steps: Seq<SendStepView>) -> bool {
    match action {
        DesyncAction::PassThrough => steps == seq![SendStepView::Write(original)],
        DesyncAction::Replace(d) => steps == seq![SendStepView::Write(d@)],
        DesyncAction::Split(c) => chunks_with_jitter(c.deep_view(), jitter, steps),
        DesyncAction::InjectBefore(f) => {
            let n = steps.len() as int;
            let head = chunks_flushed(f.deep_view());
            &&& n >= head.len() + 1
            &&& steps.subrange(0, head.len() as int) == head
            &&& jitter_steps(jitter, steps.subrange(head.len() as int, n - 1))
            &&& steps[n - 1] == SendStepView::Write(original)
        },
        DesyncAction::SlowSplit { chunks, delay_us } => steps == chunks_delayed(chunks.deep_view(), delay_us),
    }
}

fn push_jitter(steps: &mut Vec<SendStep>, jitter: u32)
    ensures
        final(steps)@.len() == old(steps)@.len() + (if jitter == 0 { 0int } else { 1int }),
        final(steps)@.subrange(0, old(steps)@.len() as int) == old(steps)@,
        jitter_steps(jitter, steps_view(final(steps)@).subrange(old(steps)@.len() as int, final(steps)@.len() as int)),
{
    let ghost start = steps@;
    if jitter > 0 {
        let d = random_u32(0, jitter);
        steps.push(SendStep::Pause(d));
    }
    assert(steps@.subrange(0, start.len() as int) =~= start);
}

fn dup(v: &Vec<u8>) -> (r: Vec<u8>)
    ensures
        r@ == v@,
{
    let r = crate::bytes::copy_range(v.as_slice(), 0, v.len());
    assert(v@.subrange(0, v@.len() as int) =~= v@);
    r
}

/// The steps for one split chunk: write, flush, jitter pause.
fn chunk_steps(chunk: &Vec<u8>, jitter: u32) -> (r: Vec<SendStep>)
    ensures
        r@.len() == (if jitter == 0 { 2int } else { 3int }),
        r@[0]@ == SendStepView::Write(chunk@),
        r@[1]@ == SendStepView::Flush,
        jitter_steps(jitter, steps_view(r@).subrange(2, r@.len() as int)),
{
    let mut r: Vec<SendStep> = Vec::new();
    r.push(SendStep::Write(dup(chunk)));
    r.push(SendStep::Flush);
    let ghost head = r@;
    push_jitter(&mut r, jitter);
    assert(r@[0] == r@.subrange(0, 2)[0] && r@[1] == r@.subrange(0, 2)[1]);
    assert(r@[0] == head[0] && r@[1] == head[1]);
    r
}

proof fn lemma_jitter_extend(a: Seq<Seq<u8>>, x: Seq<u8>, jitter: u32, s1: Seq<SendStepView>, s2: Seq<SendStepView>)
    requires
        chunks_with_jitter(a, jitter, s1),
        s2.len() == (if jitter == 0 { 2int } else { 3int }),
        s2[0] == SendStepView::Write(x),
        s2[1] == SendStepView::Flush,
        jitter_steps(jitter, s2.subrange(2, s2.len() as int)),
    ensures
        chunks_with_jitter(a.push(x), jitter, s1 + s2),
    decreases a.len(),
{
    let k = if jitter == 0 { 2int } else { 3int };
    let c = a.push(x);
    let t = s1 + s2;
    if a.len() == 0 {
        assert(s1.len() == 0);
        assert(t =~= s2);
        assert(c[0] == x);
        assert(c.drop_first() =~= Seq::<Seq<u8>>::empty());
        assert(t.subrange(k, t.len() as int) =~= Seq::<SendStepView>::empty());
        assert(chunks_with_jitter(c.drop_first(), jitter, t.subrange(k, t.len() as int)));
        assert(t.subrange(2, k) =~= s2.subrange(2, s2.len() as int));
    } else {
        let rest = s1.subrange(k, s1.len() as int);
        lemma_jitter_extend(a.drop_first(), x, jitter, rest, s2);
        assert(c.drop_first() =~= a.drop_first().push(x));
        assert(t.subrange(k, t.len() as int) =~= rest + s2);
        assert(t.subrange(2, k) =~= s1.subrange(2, k));
        assert(t[0] == s1[0] && t[1] == s1[1]);
        assert(c[0] == a[0]);
        assert(chunks_with_jitter(c.drop_first(), jitter, t.subrange(k, t.len() as int)));
    }
}

/// Plan the writes, flushes and pauses that send `action` for the payload
/// `original` (see `sends`); jitter pauses are drawn at random up to the
/// stealth timing jitter.
pub fn send_plan(action: &DesyncAction, original: &[u8], stealth: Option<&StealthConfig>) -> (r: Vec<SendStep>)
    ensures
        sends(*action, original@, jitter_us(stealth), steps_view(r@)),
{
    let jitter: u32 = match stealth {
        Some(s) => s.timing_jitter_us,
        None => 0,
    };
    let mut steps: Vec<SendStep> = Vec::new();
    match action {
        DesyncAction::PassThrough => {
            steps.push(SendStep::Write(crate::bytes::copy_range(original, 0, original.len())));
            assert(original@.subrange(0, original@.len() as int) =~= original@);
            assert(steps_view(steps@) =~= seq![SendStepView::Write(original@)]);
        },
        DesyncAction::Replace(d) => {
            steps.push(SendStep::Write(dup(d)));
            assert(steps_view(steps@) =~= seq![SendStepView::Write(d@)]);
        },
        DesyncAction::Split(chunks) => {
            let ghost cs = chunks.deep_view();
            let mut i: usize = 0;
            assert(cs.subrange(0, 0) =~= Seq::<Seq<u8>>::empty());
            while i < chunks.len()
                invariant
                    i <= chunks@.len(),
                    cs == chunks.deep_view(),
                    chunks_with_jitter(cs.subrange(0, i as int), jitter, steps_view(steps@)),
                decreases chunks@.len() - i,
            {
                let part = chunk_steps(&chunks[i], jitter);
                let ghost before = steps_view(steps@);
                proof {
                    crate::bytes::lemma_bytes_deep_view(&chunks@[i as int]);
                    assert(cs[i as int] == chunks@[i as int]@);
                    assert(steps_view(part@)[0] == part@[0]@);
                    assert(steps_view(part@)[1] == part@[1]@);
                    lemma_jitter_extend(cs.subrange(0, i as int), cs[i as int], jitter, before, steps_view(part@));
                    assert(cs.subrange(0, i + 1) =~= cs.subrange(0, i as int).push(cs[i as int]));
                }
                let mut j: usize = 0;
                while j < part.len()
                    invariant
                        j <= part@.len(),
                        steps_view(steps@) == before + steps_view(part@.subrange(0, j as int)),
                    decreases part@.len() - j,
                {
                    let step = match &part[j] {
                        SendStep::Write(b) => SendStep::Write(dup(b)),
                        SendStep::Flush => SendStep::Flush,
                        SendStep::Pause(us) => SendStep::Pause(*us),
                    };
                    let ghost prev = steps@;
                    steps.push(step);
                    proof {
                        assert(steps@ =~= prev.push(step));
                        assert(steps_view(steps@) =~= steps_view(prev).push(part@[j as int]@));
                        assert(steps_view(part@.subrange(0, j + 1)) =~= steps_view(part@.subrange(0, j as int)).push(part@[j as int]@));
                    }
                    j = j + 1;
                }
                assert(part@.subrange(0, part@.len() as int) =~= part@);
                i = i + 1;
            }
            assert(cs.subrange(0, cs.len() as int) =~= cs);
        },
        DesyncAction::InjectBefore(fakes) => {
            let ghost fs = fakes.deep_view();
            let mut i: usize = 0;
            assert(fs.subrange(0, 0) =~= Seq::<Seq<u8>>::empty());
            while i < fakes.len()
                invariant
                    i <= fakes@.len(),
                    fs == fakes.deep_view(),
                    steps_view(steps@) == chunks_flushed(fs.subrange(0, i as int)),
                decreases fakes@.len() - i,
            {
                let ghost before = steps_view(steps@);
                let ghost prev = steps@;
                steps.push(SendStep::Write(dup(&fakes[i])));
                steps.push(SendStep::Flush);
                proof {
                    crate::bytes::lemma_bytes_deep_view(&fakes@[i as int]);
                    assert(fs[i as int] == fakes@[i as int]@);
                    assert(steps_view(steps@) =~= steps_view(prev) + seq![steps@[prev.len() as int]@, steps@[prev.len() + 1int]@]);
                    lemma_flushed_push(fs.subrange(0, i as int), fs[i as int]);
                    assert(fs.subrange(0, i + 1) =~= fs.subrange(0, i as int).push(fs[i as int]));
                    assert(steps_view(steps@) =~= before + seq![SendStepView::Write(fs[i as int]), SendStepView::Flush]);
                }
                i = i + 1;
            }
            assert(fs.subrange(0, fs.len() as int) =~= fs);
            let ghost head = steps@;
            let ghost head_len = steps@.len();
            push_jitter(&mut steps, jitter);
            let ghost mid = steps@;
            assert(steps_view(mid).subrange(0, head_len as int) =~= steps_view(head));
            steps.push(SendStep::Write(crate::bytes::copy_range(original, 0, original.len())));
            proof {
                assert(original@.subrange(0, original@.len() as int) =~= original@);
                let sv = steps_view(steps@);
                assert(steps@.subrange(0, mid.len() as int) =~= mid);
                assert(sv.subrange(0, head_len as int) =~= steps_view(head));
                assert(sv.subrange(head_len as int, sv.len() - 1) =~= steps_view(mid).subrange(head_len as int, mid.len() as int));
            }
        },
        DesyncAction::SlowSplit { chunks, delay_us } => {
            let ghost cs = chunks.deep_view();
            let mut i: usize = 0;
            assert(cs.subrange(0, cs.len() as int) =~= cs);
            assert(steps_view(steps@) + chunks_delayed(cs, *delay_us) =~= chunks_delayed(cs, *delay_us));
            while i < chunks.len()
                invariant
                    i <= chunks@.len(),
                    cs == chunks.deep_view(),
                    chunks_delayed(cs, *delay_us) == steps_view(steps@) + chunks_delayed(cs.subrange(i as int, cs.len() as int), *delay_us),
                decreases chunks@.len() - i,
            {
                let ghost rest = cs.subrange(i as int, cs.len() as int);
                let ghost before = steps_view(steps@);
                proof {
                    crate::bytes::lemma_bytes_deep_view(&chunks@[i as int]);
                }
                steps.push(SendStep::Write(dup(&chunks[i])));
                steps.push(SendStep::Flush);
                if i + 1 < chunks.len() {
                    steps.push(SendStep::Pause(*delay_us));
                }
                proof {
                    assert(rest.drop_first() =~= cs.subrange(i + 1, cs.len() as int));
                    assert(rest[0] == cs[i as int]);
                    if i + 1 < chunks@.len() {
                        assert(steps_view(steps@) =~= before + seq![SendStepView::Write(cs[i as int]), SendStepView::Flush, SendStepView::Pause(*delay_us)]);
                    } else {
                        assert(steps_view(steps@) =~= before + seq![SendStepView::Write(cs[i as int]), SendStepView::Flush]);
                        assert(rest.drop_first() =~= Seq::<Seq<u8>>::empty());
                    }
                }
                i = i + 1;
            }
            proof {
                assert(cs.subrange(cs.len() as int, cs.len() as int) =~= Seq::<Seq<u8>>::empty());
                assert(steps_view(steps@) + Seq::<SendStepView>::empty() =~= steps_view(steps@));
            }
        },
    }
    steps
}

proof fn lemma_flushed_push(c: Seq<Seq<u8>>, x: Seq<u8>)
    ensures
        chunks_flushed(c.push(x)) == chunks_flushed(c) + seq![SendStepView::Write(x), SendStepView::Flush],
    decreases c.len(),
{
    if c.len() == 0 {
        assert(c.push(x).drop_first() =~= c);
    } else {
        assert(c.push(x).drop_first() =~= c.drop_first().push(x));
        lemma_flushed_push(c.drop_first(), x);
    }
}

/// Bookkeeping for one proxied connection.
#[derive(Debug)]
pub struct ConnState {
    /// Whether the first outbound data was desynchronised.
    pub desync_applied: bool,
    /// When the connection was set up.
    pub started_at: std::time::Instant,
    /// Whether the upstream server sent anything back.
    pub upstream_responded: bool,
    /// Bytes sent upstream (wrapping).
    pub bytes_sent: u64,
    /// Bytes received from upstream (wrapping).
    pub bytes_received: u64,
}

impl ConnState {
    /// A fresh connection: nothing applied, nothing received, no bytes.
    pub fn new() -> (r: Self)
        ensures
            !r.desync_applied,
            !r.upstream_responded,
            r.bytes_sent == 0,
            r.bytes_received == 0,
    {
        ConnState {
            desync_applied: false,
            started_at: instant_now(),
            upstream_responded: false,
            bytes_sent: 0,
            bytes_received: 0,
        }
    }

    /// Record that desync was applied.
    pub fn mark_desync_applied(&mut self)
        ensures
            final(self).desync_applied,
            final(self).upstream_responded == old(self).upstream_responded,
            final(self).bytes_sent == old(self).bytes_sent,
            final(self).bytes_received == old(self).bytes_received,
            final(self).started_at == old(self).started_at,
    {
        self.desync_applied = true;
    }

    /// Record that the upstream server answered.
    pub fn mark_upstream_responded(&mut self)
        ensures
            final(self).upstream_responded,
            final(self).desync_applied == old(self).desync_applied,
            final(self).bytes_sent == old(self).bytes_sent,
            final(self).bytes_received == old(self).bytes_received,
            final(self).started_at == old(self).started_at,
    {
        self.upstream_responded = true;
    }

    /// Count bytes sent upstream (wrapping around at 2^64).
    pub fn add_bytes_sent(&mut self, n: u64)
        ensures
            final(self).bytes_sent == (old(self).bytes_sent + n) % 0x1_0000_0000_0000_0000,
            final(self).bytes_received == old(self).bytes_received,
            final(self).desync_applied == old(self).desync_applied,
            final(self).upstream_responded == old(self).upstream_responded,
            final(self).started_at == old(self).started_at,
    {
        self.bytes_sent = self.bytes_sent.wrapping_add(n);
    }

    /// Count bytes received from upstream (wrapping around at 2^64).
    pub fn add_bytes_received(&mut self, n: u64)
        ensures
            final(self).bytes_received == (old(self).bytes_received + n) % 0x1_0000_0000_0000_0000,
            final(self).bytes_sent == old(self).bytes_sent,
            final(self).desync_applied == old(self).desync_applied,
            final(self).upstream_responded == old(self).upstream_responded,
            final(self).started_at == old(self).started_at,
    {
        self.bytes_received = self.bytes_received.wrapping_add(n);
    }

    /// Whether the connection looks successful: no desync was applied, or
    /// the upstream server answered after it.
    pub fn is_success(&self) -> (r: bool)
        ensures
            r == (!self.desync_applied || self.upstream_responded),
    {
        !self.desync_applied || self.upstream_responded
    }

    /// Time since the connection was set up.
    pub fn elapsed(&self) -> std::time::Duration {
        elapsed_since(&self.started_at)
    }
}

impl Default for ConnState {
    fn default() -> (r: Self)
        ensures
            !r.desync_applied,
            !r.upstream_responded,
            r.bytes_sent == 0,
            r.bytes_received == 0,
    {
        ConnState::new()
    }
}

} // verus!
