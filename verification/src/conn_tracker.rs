//! Per-connection state for packet-interception mode: just enough TCP state
//! to make the desync decision once per connection and to recognise
//! retransmits of the packet that was modified.

use vstd::prelude::*;
use crate::raw_packet::Endpoint;

verus! {

/// A TCP connection, by source and destination endpoint.
#[derive(Debug, Clone, Copy, PartialEq, Eq, Structural)]
pub struct ConnKey {
    pub src: Endpoint,
    pub dst: Endpoint,
}

/// What was done to a connection's first data packet.
#[derive(Debug, Clone, Copy, PartialEq, Eq, Structural)]
pub enum AppliedAction {
    /// Nothing yet.
    Pending,
    /// Passed through unmodified.
    PassThrough,
    /// The payload was replaced.
    Replaced,
    /// The data was split or had packets injected before it.
    SplitOrInject,
}

/// State of a tracked connection. Times are milliseconds on the tracker's
/// own monotonic clock.
#[derive(Debug, Clone, Copy, PartialEq, Eq, Structural)]
pub struct NfqConnState {
    /// Sequence number of the first data packet that was handled.
    pub first_data_seq: Option<u32>,
    /// Whether the desync decision has been made for this connection.
    pub desync_applied: bool,
    /// What was done, so that retransmits get the same treatment.
    pub applied_action: AppliedAction,
    /// When the connection was first seen.
    pub first_seen: u64,
    /// When the connection was last touched.
    pub last_seen: u64,
}

/// Idle time after which a connection is forgotten, in milliseconds.
pub const EXPIRY_MILLIS: u64 = 300000;

#[verifier::external_type_specification]
#[verifier::external_body]
pub struct ExInstant(std::time::Instant);

/// `std::time::Instant::now`: a reading of the monotonic clock; nothing is
/// stated of its value.
#[verifier::external_body]
pub(crate) fn instant_now() -> std::time::Instant {
    std::time::Instant::now()
}

/// `Instant::elapsed`: the time since `start`; it depends on the clock, so
/// nothing is stated of it.
#[verifier::external_body]
pub(crate) fn elapsed_since(start: &std::time::Instant) -> std::time::Duration {
    start.elapsed()
}

/// What `Duration::as_millis` gives for a duration: its whole milliseconds.
pub uninterp spec fn duration_ms(d: std::time::Duration) -> u128;

/// `Duration::as_millis`: trusted to give the whole milliseconds named
/// `duration_ms(d)`, a value of the duration alone.
#[verifier::external_body]
pub(crate) fn duration_millis(d: std::time::Duration) -> (r: u128)
    ensures
        r == duration_ms(d),
{
    d.as_millis()
}

/// A number of milliseconds held in 64 bits, saturating.
pub open spec fn millis_u64(ms: u128) -> u64 {
    if ms > u64::MAX {
        u64::MAX
    } else {
        ms as u64
    }
}

/// Whole milliseconds of a duration, saturating at `u64::MAX`.
pub(crate) fn saturated_millis(d: std::time::Duration) -> (r: u64)
    ensures
        r == millis_u64(duration_ms(d)),
{
    let ms = duration_millis(d);
    if ms > u64::MAX as u128 {
        u64::MAX
    } else {
        ms as u64
    }
}

/// Milliseconds elapsed since `origin` (saturating); it depends on the
/// clock.
pub(crate) fn millis_since(origin: &std::time::Instant) -> u64 {
    saturated_millis(elapsed_since(origin))
}

/// Whether key `k` occurs in the entry list.
pub open spec fn has_key(s: Seq<(ConnKey, NfqConnState)>, k: ConnKey) -> bool {
    exists|i: int| 0 <= i < s.len() && #[trigger] s[i].0 == k
}

/// The index of key `k` in the entry list.
pub open spec fn key_index(s: Seq<(ConnKey, NfqConnState)>, k: ConnKey) -> int {
    choose|i: int| 0 <= i < s.len() && #[trigger] s[i].0 == k
}

/// No key occurs twice.
pub open spec fn keys_unique(s: Seq<(ConnKey, NfqConnState)>) -> bool {
    forall|i: int, j: int| 0 <= i < j < s.len() ==> #[trigger] s[i].0 != #[trigger] s[j].0
}

/// The map from key to state that an entry list holds.
pub open spec fn map_of(s: Seq<(ConnKey, NfqConnState)>) -> Map<ConnKey, NfqConnState> {
    Map::new(|k: ConnKey| has_key(s, k), |k: ConnKey| s[key_index(s, k)].1)
}

/// `v` is a connection of `m` that was touched no later than any other.
pub open spec fn oldest(m: Map<ConnKey, NfqConnState>, v: ConnKey) -> bool {
    &&& m.contains_key(v)
    &&& forall|k: ConnKey| #[trigger] m.contains_key(k) ==> m[v].last_seen <= m[k].last_seen
}

/// A state for a connection seen for the first time.
pub open spec fn is_fresh(s: NfqConnState) -> bool {
    &&& s.first_data_seq is None
    &&& !s.desync_applied
    &&& s.applied_action == AppliedAction::Pending
    &&& s.first_seen == s.last_seen
}

/// `new` is the table `old` (with room for `max` connections) after looking
/// up `key`, and `s` the state handed back: a known connection is returned
/// as it is; an unknown one gets a fresh state, after the connection touched
/// longest ago is evicted when the table is full.
pub open spec fn looked_up(
    old: Map<ConnKey, NfqConnState>,
    max: usize,
    key: ConnKey,
    s: NfqConnState,
    new: Map<ConnKey, NfqConnState>,
) -> bool {
    if old.contains_key(key) {
        new == old && s == old[key]
    } else {
        &&& is_fresh(s)
        &&& if old.len() < max || old.len() == 0 {
            new == old.insert(key, s)
        } else {
            exists|v: ConnKey| #[trigger] oldest(old, v) && new == old.remove(v).insert(key, s)
        }
    }
}

/// The state of a connection once the decision was made on its first data
/// packet, with sequence number `seq`, at time `t`.
pub open spec fn applied_state(s: NfqConnState, seq: u32, action: AppliedAction, t: u64) -> NfqConnState {
    NfqConnState {
        first_data_seq: Some(seq),
        desync_applied: true,
        applied_action: action,
        first_seen: s.first_seen,
        last_seen: t,
    }
}

/// `new` is `old` after recording the decision for `key` at time `t` (no
/// change for an unknown connection).
pub open spec fn marked(
    old: Map<ConnKey, NfqConnState>,
    key: ConnKey,
    seq: u32,
    action: AppliedAction,
    t: u64,
    new: Map<ConnKey, NfqConnState>,
) -> bool {
    if old.contains_key(key) {
        new == old.insert(key, applied_state(old[key], seq, action, t))
    } else {
        new == old
    }
}

/// Whether a packet with sequence number `seq` repeats the data packet on
/// which the decision was made for `key`.
pub open spec fn spec_is_retransmit(m: Map<ConnKey, NfqConnState>, key: ConnKey, seq: u32) -> bool {
    m.contains_key(key) && m[key].desync_applied && m[key].first_data_seq == Some(seq)
}

/// `m` with the connections idle for `EXPIRY_MILLIS` or more at `now`
/// removed.
pub open spec fn unexpired(m: Map<ConnKey, NfqConnState>, now: u64) -> Map<ConnKey, NfqConnState> {
    Map::new(|k: ConnKey| m.contains_key(k) && m[k].last_seen + EXPIRY_MILLIS > now, |k: ConnKey| m[k])
}

/// The most connections a table made for `max` holds.
pub open spec fn capacity(max: usize) -> int {
    if max == 0 {
        1
    } else {
        max as int
    }
}

proof fn lemma_lookup(s: Seq<(ConnKey, NfqConnState)>, i: int)
    requires
        keys_unique(s),
        0 <= i < s.len(),
    ensures
        map_of(s).contains_key(s[i].0),
        key_index(s, s[i].0) == i,
        map_of(s)[s[i].0] == s[i].1,
{
    assert(has_key(s, s[i].0));
    let j = key_index(s, s[i].0);
    if j != i {
        if j < i {
            assert(s[j].0 != s[i].0);
        } else {
            assert(s[i].0 != s[j].0);
        }
    }
}

proof fn lemma_push(s: Seq<(ConnKey, NfqConnState)>, k: ConnKey, v: NfqConnState)
    requires
        keys_unique(s),
        !map_of(s).contains_key(k),
    ensures
        keys_unique(s.push((k, v))),
        map_of(s.push((k, v))) == map_of(s).insert(k, v),
{
    let t = s.push((k, v));
    assert forall|i: int, j: int| 0 <= i < j < t.len() implies #[trigger] t[i].0 != #[trigger] t[j].0 by {
        if j == s.len() {
            if t[i].0 == k {
                assert(has_key(s, k));
            }
        }
    }
    assert forall|x: ConnKey| #[trigger] map_of(t).contains_key(x) <==> map_of(s).insert(k, v).contains_key(x) by {
        if has_key(t, x) && x != k {
            let i = choose|i: int| 0 <= i < t.len() && #[trigger] t[i].0 == x;
            assert(s[i].0 == x);
        }
        if x == k {
            assert(t[s.len() as int].0 == k);
        }
        if has_key(s, x) {
            let i = choose|i: int| 0 <= i < s.len() && #[trigger] s[i].0 == x;
            assert(t[i].0 == x);
        }
    }
    assert forall|x: ConnKey| #[trigger] map_of(t).contains_key(x) implies map_of(t)[x] == map_of(s).insert(k, v)[x] by {
        if x == k {
            lemma_lookup(t, s.len() as int);
        } else {
            let i = choose|i: int| 0 <= i < s.len() && #[trigger] s[i].0 == x;
            lemma_lookup(s, i);
            assert(t[i] == s[i]);
            lemma_lookup(t, i);
        }
    }
    assert(map_of(t) =~= map_of(s).insert(k, v));
}

proof fn lemma_remove(s: Seq<(ConnKey, NfqConnState)>, i: int)
    requires
        keys_unique(s),
        0 <= i < s.len(),
    ensures
        keys_unique(s.remove(i)),
        map_of(s.remove(i)) == map_of(s).remove(s[i].0),
{
    let t = s.remove(i);
    let k = s[i].0;
    assert forall|a: int, b: int| 0 <= a < b < t.len() implies #[trigger] t[a].0 != #[trigger] t[b].0 by {
        let a0 = if a < i { a } else { a + 1 };
        let b0 = if b < i { b } else { b + 1 };
        assert(t[a] == s[a0] && t[b] == s[b0]);
        assert(s[a0].0 != s[b0].0);
    }
    assert forall|x: ConnKey| #[trigger] map_of(t).contains_key(x) <==> map_of(s).remove(k).contains_key(x) by {
        if has_key(t, x) {
            let a = choose|a: int| 0 <= a < t.len() && #[trigger] t[a].0 == x;
            let a0 = if a < i { a } else { a + 1 };
            assert(s[a0].0 == x);
            if x == k {
                if a0 < i {
                    assert(s[a0].0 != s[i].0);
                } else {
                    assert(s[i].0 != s[a0].0);
                }
            }
        }
        if has_key(s, x) && x != k {
            let a0 = choose|a: int| 0 <= a < s.len() && #[trigger] s[a].0 == x;
            let a = if a0 < i { a0 } else { a0 - 1 };
            assert(a0 != i);
            assert(t[a].0 == x);
        }
    }
    assert forall|x: ConnKey| #[trigger] map_of(t).contains_key(x) implies map_of(t)[x] == map_of(s).remove(k)[x] by {
        let a = choose|a: int| 0 <= a < t.len() && #[trigger] t[a].0 == x;
        let a0 = if a < i { a } else { a + 1 };
        lemma_lookup(t, a);
        assert(t[a] == s[a0]);
        lemma_lookup(s, a0);
    }
    assert(map_of(t) =~= map_of(s).remove(k));
}

proof fn lemma_update(s: Seq<(ConnKey, NfqConnState)>, i: int, v: NfqConnState)
    requires
        keys_unique(s),
        0 <= i < s.len(),
    ensures
        keys_unique(s.update(i, (s[i].0, v))),
        map_of(s.update(i, (s[i].0, v))) == map_of(s).insert(s[i].0, v),
{
    let t = s.update(i, (s[i].0, v));
    let k = s[i].0;
    assert forall|a: int, b: int| 0 <= a < b < t.len() implies #[trigger] t[a].0 != #[trigger] t[b].0 by {
        assert(t[a].0 == s[a].0 && t[b].0 == s[b].0);
    }
    assert forall|x: ConnKey| #[trigger] map_of(t).contains_key(x) <==> map_of(s).insert(k, v).contains_key(x) by {
        if has_key(t, x) {
            let a = choose|a: int| 0 <= a < t.len() && #[trigger] t[a].0 == x;
            assert(s[a].0 == x);
        }
        if has_key(s, x) {
            let a = choose|a: int| 0 <= a < s.len() && #[trigger] s[a].0 == x;
            assert(t[a].0 == x);
        }
        if x == k {
            assert(t[i].0 == x);
        }
    }
    assert forall|x: ConnKey| #[trigger] map_of(t).contains_key(x) implies map_of(t)[x] == map_of(s).insert(k, v)[x] by {
        let a = choose|a: int| 0 <= a < t.len() && #[trigger] t[a].0 == x;
        lemma_lookup(t, a);
        lemma_lookup(s, a);
    }
    assert(map_of(t) =~= map_of(s).insert(k, v));
}

proof fn lemma_map_len(s: Seq<(ConnKey, NfqConnState)>)
    requires
        keys_unique(s),
    ensures
        map_of(s).dom().finite(),
        map_of(s).len() == s.len(),
    decreases s.len(),
{
    if s.len() == 0 {
        assert(map_of(s) =~= Map::empty());
    } else {
        let p = s.drop_last();
        assert(keys_unique(p));
        lemma_map_len(p);
        assert(p.push(s.last()) =~= s);
        if map_of(p).contains_key(s.last().0) {
            let a = choose|a: int| 0 <= a < p.len() && #[trigger] p[a].0 == s.last().0;
            assert(s[a].0 != s[s.len() - 1].0);
        }
        lemma_push(p, s.last().0, s.last().1);
    }
}

/// The connections being tracked, with an upper bound on their number.
pub struct ConnTracker {
    connections: Vec<(ConnKey, NfqConnState)>,
    max_connections: usize,
    clock: std::time::Instant,
}

impl View for ConnTracker {
    type V = Map<ConnKey, NfqConnState>;

    closed spec fn view(&self) -> Map<ConnKey, NfqConnState> {
        map_of(self.connections@)
    }
}

impl ConnTracker {
    #[verifier::type_invariant]
    closed spec fn well_formed(&self) -> bool {
        &&& keys_unique(self.connections@)
        &&& self.connections@.len() <= capacity(self.max_connections)
    }

    /// The bound the tracker was made with.
    pub closed spec fn max(&self) -> usize {
        self.max_connections
    }

    /// An empty tracker for at most `max_connections` connections (one when
    /// `max_connections` is zero).
    pub fn new(max_connections: usize) -> (r: Self)
        ensures
            r@ == Map::<ConnKey, NfqConnState>::empty(),
            r.max() == max_connections,
    {
        let r = ConnTracker { connections: Vec::new(), max_connections, clock: instant_now() };
        assert(map_of(r.connections@) =~= Map::<ConnKey, NfqConnState>::empty());
        r
    }

    fn find(&self, key: &ConnKey) -> (r: Option<usize>)
        ensures
            match r {
                Some(i) => i < self.connections@.len() && self.connections@[i as int].0 == *key,
                None => !has_key(self.connections@, *key),
            },
    {
        let mut i: usize = 0;
        while i < self.connections.len()
            invariant
                i <= self.connections@.len(),
                forall|j: int| 0 <= j < i ==> self.connections@[j].0 != *key,
            decreases self.connections@.len() - i,
        {
            if self.connections[i].0 == *key {
                return Some(i);
            }
            i = i + 1;
        }
        None
    }

    /// The index of an entry touched no later than any other.
    fn oldest_index(&self) -> (r: usize)
        requires
            self.connections@.len() > 0,
        ensures
            r < self.connections@.len(),
            forall|j: int| 0 <= j < self.connections@.len() ==> self.connections@[r as int].1.last_seen
                <= #[trigger] self.connections@[j].1.last_seen,
    {
        let mut best: usize = 0;
        let mut i: usize = 1;
        while i < self.connections.len()
            invariant
                1 <= i <= self.connections@.len(),
                best < i,
                forall|j: int| 0 <= j < i ==> self.connections@[best as int].1.last_seen
                    <= #[trigger] self.connections@[j].1.last_seen,
            decreases self.connections@.len() - i,
        {
            if self.connections[i].1.last_seen < self.connections[best].1.last_seen {
                best = i;
            }
            i = i + 1;
        }
        best
    }

    /// Look up a connection at time `now`, adding it with a fresh state if
    /// it is unknown (evicting the connection touched longest ago when the
    /// tracker is full), and hand back its state.
    pub fn get_or_create_at(&mut self, key: &ConnKey, now: u64) -> (r: NfqConnState)
        ensures
            looked_up(old(self)@, old(self).max(), *key, r, final(self)@),
            final(self)@.len() <= capacity(old(self).max()),
            final(self).max() == old(self).max(),
            !old(self)@.contains_key(*key) ==> r.first_seen == now,
    {
        proof {
            use_type_invariant(&*self);
            lemma_map_len(self.connections@);
        }
        match self.find(key) {
            Some(i) => {
                proof {
                    lemma_lookup(self.connections@, i as int);
                }
                self.connections[i].1
            },
            None => {
                let ghost old_map = self@;
                let ghost s0 = self.connections@;
                let fresh = NfqConnState {
                    first_data_seq: None,
                    desync_applied: false,
                    applied_action: AppliedAction::Pending,
                    first_seen: now,
                    last_seen: now,
                };
                if self.connections.len() >= self.max_connections && self.connections.len() > 0 {
                    let v = self.oldest_index();
                    let ghost vk = s0[v as int].0;
                    proof {
                        lemma_lookup(s0, v as int);
                        assert forall|k: ConnKey| #[trigger] old_map.contains_key(k) implies old_map[vk].last_seen
                            <= old_map[k].last_seen by {
                            let j = choose|j: int| 0 <= j < s0.len() && #[trigger] s0[j].0 == k;
                            lemma_lookup(s0, j);
                        }
                        assert(oldest(old_map, vk));
                        lemma_remove(s0, v as int);
                    }
                    let mut conns: Vec<(ConnKey, NfqConnState)> = Vec::new();
                    std::mem::swap(&mut conns, &mut self.connections);
                    conns.remove(v);
                    proof {
                        assert(!map_of(conns@).contains_key(*key));
                        lemma_push(conns@, *key, fresh);
                    }
                    conns.push((*key, fresh));
                    self.connections = conns;
                } else {
                    let mut conns: Vec<(ConnKey, NfqConnState)> = Vec::new();
                    std::mem::swap(&mut conns, &mut self.connections);
                    proof {
                        lemma_push(conns@, *key, fresh);
                    }
                    conns.push((*key, fresh));
                    self.connections = conns;
                }
                fresh
            },
        }
    }

    /// Look up a connection, adding it with a fresh state stamped with the
    /// current time if it is unknown (see `get_or_create_at`).
    pub fn get_or_create(&mut self, key: &ConnKey) -> (r: NfqConnState)
        ensures
            looked_up(old(self)@, old(self).max(), *key, r, final(self)@),
            final(self)@.len() <= capacity(old(self).max()),
            final(self).max() == old(self).max(),
    {
        let now = millis_since(&self.clock);
        self.get_or_create_at(key, now)
    }

    /// Whether a packet of connection `key` with sequence number `seq`
    /// retransmits the data packet on which the decision was made.
    pub fn is_retransmit(&self, key: &ConnKey, seq: u32) -> (r: bool)
        ensures
            r == spec_is_retransmit(self@, *key, seq),
    {
        proof {
            use_type_invariant(self);
        }
        match self.find(key) {
            Some(i) => {
                proof {
                    lemma_lookup(self.connections@, i as int);
                }
                let state = self.connections[i].1;
                match state.first_data_seq {
                    Some(first) => state.desync_applied && seq == first,
                    None => false,
                }
            },
            None => false,
        }
    }

    /// Record at time `now` the decision made on the first data packet of a
    /// known connection; an unknown one is left alone.
    pub fn mark_applied_at(&mut self, key: &ConnKey, seq: u32, action: AppliedAction, now: u64)
        ensures
            marked(old(self)@, *key, seq, action, now, final(self)@),
            final(self).max() == old(self).max(),
    {
        proof {
            use_type_invariant(&*self);
        }
        match self.find(key) {
            Some(i) => {
                let ghost s0 = self.connections@;
                proof {
                    lemma_lookup(s0, i as int);
                }
                let old_state = self.connections[i].1;
                let new_state = NfqConnState {
                    first_data_seq: Some(seq),
                    desync_applied: true,
                    applied_action: action,
                    first_seen: old_state.first_seen,
                    last_seen: now,
                };
                let mut conns: Vec<(ConnKey, NfqConnState)> = Vec::new();
                    std::mem::swap(&mut conns, &mut self.connections);
                proof {
                    lemma_update(conns@, i as int, new_state);
                }
                conns.set(i, (*key, new_state));
                self.connections = conns;
            },
            None => {},
        }
    }

    /// Record the decision made on the first data packet of a known
    /// connection, stamped with the current time.
    pub fn mark_applied(&mut self, key: &ConnKey, seq: u32, action: AppliedAction)
        ensures
            exists|t: u64| marked(old(self)@, *key, seq, action, t, final(self)@),
            final(self).max() == old(self).max(),
    {
        let now = millis_since(&self.clock);
        self.mark_applied_at(key, seq, action, now);
    }

    /// Forget the connections idle for five minutes or more at time `now`.
    pub fn cleanup_expired_at(&mut self, now: u64)
        ensures
            final(self)@ == unexpired(old(self)@, now),
            final(self).max() == old(self).max(),
    {
        proof {
            use_type_invariant(&*self);
        }
        let ghost s0 = self.connections@;
        let mut conns: Vec<(ConnKey, NfqConnState)> = Vec::new();
        std::mem::swap(&mut conns, &mut self.connections);
        let mut kept: Vec<(ConnKey, NfqConnState)> = Vec::new();
        let mut i: usize = 0;
        while i < conns.len()
            invariant
                conns@ == s0,
                keys_unique(s0),
                i <= s0.len(),
                kept@.len() <= i,
                keys_unique(kept@),
                forall|k: ConnKey| #[trigger] map_of(kept@).contains_key(k) <==> (exists|j: int|
                    0 <= j < i && #[trigger] s0[j].0 == k && s0[j].1.last_seen + EXPIRY_MILLIS > now),
                forall|k: ConnKey| #[trigger] map_of(kept@).contains_key(k) ==> map_of(kept@)[k] == map_of(s0)[k],
            decreases s0.len() - i,
        {
            let (k, st) = conns[i];
            proof {
                lemma_lookup(s0, i as int);
            }
            if st.last_seen as u128 + EXPIRY_MILLIS as u128 > now as u128 {
                proof {
                    if map_of(kept@).contains_key(k) {
                        let j = choose|j: int| 0 <= j < i && #[trigger] s0[j].0 == k && s0[j].1.last_seen + EXPIRY_MILLIS > now;
                        assert(s0[j].0 != s0[i as int].0);
                    }
                    lemma_push(kept@, k, st);
                }
                kept.push((k, st));
                proof {
                    assert forall|x: ConnKey| #[trigger] map_of(kept@).contains_key(x) <==> (exists|j: int|
                        0 <= j < i + 1 && #[trigger] s0[j].0 == x && s0[j].1.last_seen + EXPIRY_MILLIS > now) by {
                        if x == k {
                            assert(s0[i as int].0 == x);
                        }
                    }
                }
            } else {
                proof {
                    assert forall|x: ConnKey| #[trigger] map_of(kept@).contains_key(x) <==> (exists|j: int|
                        0 <= j < i + 1 && #[trigger] s0[j].0 == x && s0[j].1.last_seen + EXPIRY_MILLIS > now) by {
                        if exists|j: int| 0 <= j < i + 1 && #[trigger] s0[j].0 == x && s0[j].1.last_seen + EXPIRY_MILLIS > now {
                            let j = choose|j: int| 0 <= j < i + 1 && #[trigger] s0[j].0 == x && s0[j].1.last_seen + EXPIRY_MILLIS > now;
                            assert(j != i);
                        }
                    }
                }
            }
            i = i + 1;
        }
        proof {
            lemma_map_len(kept@);
            lemma_map_len(s0);
            let target = unexpired(map_of(s0), now);
            assert forall|x: ConnKey| #[trigger] map_of(kept@).contains_key(x) <==> target.contains_key(x) by {
                if map_of(s0).contains_key(x) {
                    let j = choose|j: int| 0 <= j < s0.len() && #[trigger] s0[j].0 == x;
                    lemma_lookup(s0, j);
                }
                if exists|j: int| 0 <= j < s0.len() && #[trigger] s0[j].0 == x && s0[j].1.last_seen + EXPIRY_MILLIS > now {
                    let j = choose|j: int| 0 <= j < s0.len() && #[trigger] s0[j].0 == x && s0[j].1.last_seen + EXPIRY_MILLIS > now;
                    lemma_lookup(s0, j);
                }
            }
            assert(map_of(kept@) =~= target);
            lemma_map_len(kept@);
            assert(kept@.len() <= s0.len());
        }
        self.connections = kept;
    }

    /// Forget the connections idle for five minutes or more.
    pub fn cleanup_expired(&mut self)
        ensures
            exists|now: u64| final(self)@ == unexpired(old(self)@, now),
            final(self).max() == old(self).max(),
    {
        let now = millis_since(&self.clock);
        self.cleanup_expired_at(now);
    }

    /// Number of tracked connections.
    pub fn len(&self) -> (r: usize)
        ensures
            r == self@.len(),
            r <= capacity(self.max()),
    {
        proof {
            use_type_invariant(self);
            lemma_map_len(self.connections@);
        }
        self.connections.len()
    }

    /// Whether no connection is tracked.
    pub fn is_empty(&self) -> (r: bool)
        ensures
            r == (self@.len() == 0),
    {
        proof {
            use_type_invariant(self);
            lemma_map_len(self.connections@);
        }
        self.connections.len() == 0
    }
}

/// Once the decision is recorded for a tracked connection, a packet
/// with the sequence number of the decided packet is seen as its
/// retransmit, and one with another sequence number is not.
pub proof fn lemma_marked_packet_is_retransmit(
    old: Map<ConnKey, NfqConnState>,
    key: ConnKey,
    seq: u32,
    action: AppliedAction,
    t: u64,
    new: Map<ConnKey, NfqConnState>,
    other: u32,
)
    requires
        old.contains_key(key),
        marked(old, key, seq, action, t, new),
    ensures
        spec_is_retransmit(new, key, seq),
        other != seq ==> !spec_is_retransmit(new, key, other),
{
}

} // verus!
