//! A cache of resolved addresses per domain and port, with a time to live
//! and a soft cap on its size: when full, the entry that expires soonest
//! makes room. Resolving on a miss is left to the caller, which stores
//! the address it picked.

use vstd::prelude::*;
use crate::conn_tracker::{duration_ms, instant_now, millis_since, millis_u64, saturated_millis};
use crate::registry::str_eq;

verus! {

/// An IP address.
#[derive(Debug, Clone, Copy, PartialEq, Eq, Structural)]
pub enum IpAddress {
    /// An IPv4 address, most significant byte first.
    V4(u32),
    /// An IPv6 address, most significant byte first.
    V6(u128),
}

/// The address to connect to among those resolved: the first IPv4 one,
/// else the first one; none when nothing was resolved.
pub open spec fn preferred(ips: Seq<IpAddress>) -> Option<IpAddress> {
    if exists|i: int| 0 <= i < ips.len() && ips[i] is V4 {
        let i = choose|i: int|
            0 <= i < ips.len() && ips[i] is V4 && forall|j: int| 0 <= j < i ==> !(ips[j] is V4);
        Some(ips[i])
    } else if ips.len() > 0 {
        Some(ips[0])
    } else {
        None
    }
}

/// Pick the address to connect to (see `preferred`).
pub fn pick_address(ips: &Vec<IpAddress>) -> (r: Option<IpAddress>)
    ensures
        match r {
            Some(a) => ips@.len() > 0 && ((exists|i: int| 0 <= i < ips@.len() && ips@[i] is V4) ==> (exists|i: int|
                0 <= i < ips@.len() && ips@[i] == a && a is V4 && forall|j: int| 0 <= j < i ==> !(ips@[j] is V4)))
                && (!(exists|i: int| 0 <= i < ips@.len() && ips@[i] is V4) ==> a == ips@[0]),
            None => ips@.len() == 0,
        },
{
    let mut i: usize = 0;
    while i < ips.len()
        invariant
            i <= ips@.len(),
            forall|j: int| 0 <= j < i ==> !(ips@[j] is V4),
        decreases ips@.len() - i,
    {
        if let IpAddress::V4(_) = ips[i] {
            return Some(ips[i]);
        }
        i = i + 1;
    }
    if ips.len() > 0 {
        Some(ips[0])
    } else {
        None
    }
}

/// A cache entry: the address for a domain and port, and when it expires
/// (milliseconds on the cache's clock).
#[derive(Debug)]
pub struct DnsEntry {
    pub domain: String,
    pub port: u16,
    pub ip: IpAddress,
    pub expires_at: u64,
}

/// The key of an entry.
pub open spec fn key_of(e: DnsEntry) -> (Seq<char>, u16) {
    (e.domain@, e.port)
}

pub open spec fn has_key(s: Seq<DnsEntry>, k: (Seq<char>, u16)) -> bool {
    exists|i: int| 0 <= i < s.len() && #[trigger] key_of(s[i]) == k
}

pub open spec fn key_index(s: Seq<DnsEntry>, k: (Seq<char>, u16)) -> int {
    choose|i: int| 0 <= i < s.len() && #[trigger] key_of(s[i]) == k
}

pub open spec fn keys_unique(s: Seq<DnsEntry>) -> bool {
    forall|i: int, j: int| 0 <= i < j < s.len() ==> key_of(#[trigger] s[i]) != key_of(#[trigger] s[j])
}

/// What an entry list maps each domain and port to: the address and its
/// expiry.
pub open spec fn map_of(s: Seq<DnsEntry>) -> Map<(Seq<char>, u16), (IpAddress, u64)> {
    Map::new(
        |k: (Seq<char>, u16)| has_key(s, k),
        |k: (Seq<char>, u16)| (s[key_index(s, k)].ip, s[key_index(s, k)].expires_at),
    )
}

/// The address cached for a key at time `now`, if it has not expired.
pub open spec fn cached(m: Map<(Seq<char>, u16), (IpAddress, u64)>, k: (Seq<char>, u16), now: u64) -> Option<IpAddress> {
    if m.contains_key(k) && m[k].1 > now {
        Some(m[k].0)
    } else {
        None
    }
}

/// `v` is an entry of `m` that expires no later than any other.
pub open spec fn soonest(m: Map<(Seq<char>, u16), (IpAddress, u64)>, v: (Seq<char>, u16)) -> bool {
    &&& m.contains_key(v)
    &&& forall|k: (Seq<char>, u16)| #[trigger] m.contains_key(k) ==> m[v].1 <= m[k].1
}

/// `new` is the cache `old` (with a cap of `max` entries) after storing
/// `entry` for `key`: when the cache is full, the entry that expires
/// soonest is dropped first.
pub open spec fn stored(
    old: Map<(Seq<char>, u16), (IpAddress, u64)>,
    max: usize,
    key: (Seq<char>, u16),
    entry: (IpAddress, u64),
    new: Map<(Seq<char>, u16), (IpAddress, u64)>,
) -> bool {
    if old.len() >= max && old.len() > 0 {
        exists|v: (Seq<char>, u16)| #[trigger] soonest(old, v) && new == old.remove(v).insert(key, entry)
    } else {
        new == old.insert(key, entry)
    }
}

/// The most entries a cache made for `max` holds.
pub open spec fn capacity(max: usize) -> int {
    if max == 0 {
        1
    } else {
        max as int
    }
}

proof fn lemma_lookup(s: Seq<DnsEntry>, i: int)
    requires
        keys_unique(s),
        0 <= i < s.len(),
    ensures
        map_of(s).contains_key(key_of(s[i])),
        key_index(s, key_of(s[i])) == i,
        map_of(s)[key_of(s[i])] == (s[i].ip, s[i].expires_at),
{
    assert(has_key(s, key_of(s[i])));
    let j = key_index(s, key_of(s[i]));
    if j != i {
        if j < i {
            assert(key_of(s[j]) != key_of(s[i]));
        } else {
            assert(key_of(s[i]) != key_of(s[j]));
        }
    }
}

proof fn lemma_push(s: Seq<DnsEntry>, e: DnsEntry)
    requires
        keys_unique(s),
        !map_of(s).contains_key(key_of(e)),
    ensures
        keys_unique(s.push(e)),
        map_of(s.push(e)) == map_of(s).insert(key_of(e), (e.ip, e.expires_at)),
{
    let t = s.push(e);
    let k = key_of(e);
    assert forall|i: int, j: int| 0 <= i < j < t.len() implies key_of(#[trigger] t[i]) != key_of(#[trigger] t[j]) by {
        if j == s.len() {
            if key_of(t[i]) == k {
                assert(has_key(s, k));
            }
        }
    }
    assert forall|x: (Seq<char>, u16)| #[trigger] map_of(t).contains_key(x) <==> map_of(s).insert(
        k,
        (e.ip, e.expires_at),
    ).contains_key(x) by {
        if has_key(t, x) && x != k {
            let i = choose|i: int| 0 <= i < t.len() && #[trigger] key_of(t[i]) == x;
            assert(key_of(s[i]) == x);
        }
        if x == k {
            assert(key_of(t[s.len() as int]) == k);
        }
        if has_key(s, x) {
            let i = choose|i: int| 0 <= i < s.len() && #[trigger] key_of(s[i]) == x;
            assert(key_of(t[i]) == x);
        }
    }
    assert forall|x: (Seq<char>, u16)| #[trigger] map_of(t).contains_key(x) implies map_of(t)[x] == map_of(s).insert(
        k,
        (e.ip, e.expires_at),
    )[x] by {
        if x == k {
            lemma_lookup(t, s.len() as int);
        } else {
            let i = choose|i: int| 0 <= i < s.len() && #[trigger] key_of(s[i]) == x;
            lemma_lookup(s, i);
            assert(t[i] == s[i]);
            lemma_lookup(t, i);
        }
    }
    assert(map_of(t) =~= map_of(s).insert(k, (e.ip, e.expires_at)));
}

proof fn lemma_remove(s: Seq<DnsEntry>, i: int)
    requires
        keys_unique(s),
        0 <= i < s.len(),
    ensures
        keys_unique(s.remove(i)),
        map_of(s.remove(i)) == map_of(s).remove(key_of(s[i])),
{
    let t = s.remove(i);
    let k = key_of(s[i]);
    assert forall|a: int, b: int| 0 <= a < b < t.len() implies key_of(#[trigger] t[a]) != key_of(#[trigger] t[b]) by {
        let a0 = if a < i { a } else { a + 1 };
        let b0 = if b < i { b } else { b + 1 };
        assert(t[a] == s[a0] && t[b] == s[b0]);
        assert(key_of(s[a0]) != key_of(s[b0]));
    }
    assert forall|x: (Seq<char>, u16)| #[trigger] map_of(t).contains_key(x) <==> map_of(s).remove(k).contains_key(x) by {
        if has_key(t, x) {
            let a = choose|a: int| 0 <= a < t.len() && #[trigger] key_of(t[a]) == x;
            let a0 = if a < i { a } else { a + 1 };
            assert(key_of(s[a0]) == x);
            if x == k {
                if a0 < i {
                    assert(key_of(s[a0]) != key_of(s[i]));
                } else {
                    assert(key_of(s[i]) != key_of(s[a0]));
                }
            }
        }
        if has_key(s, x) && x != k {
            let a0 = choose|a: int| 0 <= a < s.len() && #[trigger] key_of(s[a]) == x;
            let a = if a0 < i { a0 } else { a0 - 1 };
            assert(a0 != i);
            assert(key_of(t[a]) == x);
        }
    }
    assert forall|x: (Seq<char>, u16)| #[trigger] map_of(t).contains_key(x) implies map_of(t)[x] == map_of(s).remove(
        k,
    )[x] by {
        let a = choose|a: int| 0 <= a < t.len() && #[trigger] key_of(t[a]) == x;
        let a0 = if a < i { a } else { a + 1 };
        lemma_lookup(t, a);
        assert(t[a] == s[a0]);
        lemma_lookup(s, a0);
    }
    assert(map_of(t) =~= map_of(s).remove(k));
}

proof fn lemma_map_len(s: Seq<DnsEntry>)
    requires
        keys_unique(s),
    ensures
        map_of(s).dom().finite(),
        map_of(s).len() == s.len(),
    decreases s.len(),
{
    if s.len() == 0 {
        assert(map_of(s) =~= Map::empty());
    } else {
        let p = s.drop_last();
        assert(keys_unique(p));
        lemma_map_len(p);
        assert(p.push(s.last()) =~= s);
        if map_of(p).contains_key(key_of(s.last())) {
            let a = choose|a: int| 0 <= a < p.len() && #[trigger] key_of(p[a]) == key_of(s.last());
            assert(key_of(s[a]) != key_of(s[s.len() - 1]));
        }
        lemma_push(p, s.last());
    }
}

fn find_entry(entries: &Vec<DnsEntry>, domain: &str, port: u16) -> (r: Option<usize>)
    ensures
        match r {
            Some(i) => i < entries@.len() && key_of(entries@[i as int]) == (domain@, port),
            None => !has_key(entries@, (domain@, port)),
        },
{
    let mut i: usize = 0;
    while i < entries.len()
        invariant
            i <= entries@.len(),
            forall|j: int| 0 <= j < i ==> key_of(#[trigger] entries@[j]) != (domain@, port),
        decreases entries@.len() - i,
    {
        if entries[i].port == port && str_eq(entries[i].domain.as_str(), domain) {
            return Some(i);
        }
        i = i + 1;
    }
    None
}

fn soonest_entry(entries: &Vec<DnsEntry>) -> (r: usize)
    requires
        entries@.len() > 0,
    ensures
        r < entries@.len(),
        forall|j: int| 0 <= j < entries@.len() ==> entries@[r as int].expires_at <= #[trigger] entries@[j].expires_at,
{
    let mut best: usize = 0;
    let mut i: usize = 1;
    while i < entries.len()
        invariant
            1 <= i <= entries@.len(),
            best < i,
            forall|j: int| 0 <= j < i ==> entries@[best as int].expires_at <= #[trigger] entries@[j].expires_at,
        decreases entries@.len() - i,
    {
        if entries[i].expires_at < entries[best].expires_at {
            best = i;
        }
        i = i + 1;
    }
    best
}

/// Resolved addresses by domain and port, each kept for the time to live.
pub struct DnsCache {
    ttl_millis: u64,
    max_entries: usize,
    entries: Vec<DnsEntry>,
    clock: std::time::Instant,
}

impl View for DnsCache {
    type V = Map<(Seq<char>, u16), (IpAddress, u64)>;

    closed spec fn view(&self) -> Map<(Seq<char>, u16), (IpAddress, u64)> {
        map_of(self.entries@)
    }
}

impl DnsCache {
    #[verifier::type_invariant]
    closed spec fn well_formed(&self) -> bool {
        &&& keys_unique(self.entries@)
        &&& self.entries@.len() <= capacity(self.max_entries)
    }

    /// The cap on the number of entries.
    pub closed spec fn max(&self) -> usize {
        self.max_entries
    }

    /// How long an entry is kept, in milliseconds.
    pub closed spec fn ttl(&self) -> u64 {
        self.ttl_millis
    }

    /// An empty cache with the given time to live (its whole milliseconds,
    /// saturating at `u64::MAX`) and a cap of 1024 entries.
    pub fn new(ttl: std::time::Duration) -> (r: Self)
        ensures
            r@ == Map::<(Seq<char>, u16), (IpAddress, u64)>::empty(),
            r.max() == 1024,
            r.ttl() == millis_u64(duration_ms(ttl)),
    {
        Self::with_capacity(ttl, 1024)
    }

    /// An empty cache with the given time to live (its whole milliseconds,
    /// saturating at `u64::MAX`) and cap (one entry when the cap is zero).
    pub fn with_capacity(ttl: std::time::Duration, max_entries: usize) -> (r: Self)
        ensures
            r@ == Map::<(Seq<char>, u16), (IpAddress, u64)>::empty(),
            r.max() == max_entries,
            r.ttl() == millis_u64(duration_ms(ttl)),
    {
        let r = DnsCache {
            ttl_millis: saturated_millis(ttl),
            max_entries,
            entries: Vec::new(),
            clock: instant_now(),
        };
        assert(map_of(r.entries@) =~= Map::<(Seq<char>, u16), (IpAddress, u64)>::empty());
        r
    }

    /// The number of entries.
    pub fn len(&self) -> (r: usize)
        ensures
            r == self@.len(),
    {
        proof {
            use_type_invariant(self);
            lemma_map_len(self.entries@);
        }
        self.entries.len()
    }

    /// The address cached for `domain` and `port` at time `now`, unless
    /// missing or expired.
    pub fn lookup_at(&self, domain: &str, port: u16, now: u64) -> (r: Option<IpAddress>)
        ensures
            r == cached(self@, (domain@, port), now),
    {
        proof {
            use_type_invariant(self);
        }
        match find_entry(&self.entries, domain, port) {
            Some(i) => {
                proof {
                    lemma_lookup(self.entries@, i as int);
                }
                if self.entries[i].expires_at > now {
                    Some(self.entries[i].ip)
                } else {
                    None
                }
            },
            None => None,
        }
    }

    /// The address cached for `domain` and `port` now, unless missing or
    /// expired.
    pub fn lookup(&self, domain: &str, port: u16) -> (r: Option<IpAddress>)
        ensures
            exists|now: u64| r == cached(self@, (domain@, port), now),
    {
        let now = millis_since(&self.clock);
        self.lookup_at(domain, port, now)
    }

    /// Cache `ip` for `domain` and `port` at time `now`, to expire after
    /// the time to live (at the end of the clock when that passes it); a
    /// full cache first drops the entry that expires soonest.
    pub fn store_at(&mut self, domain: &str, port: u16, ip: IpAddress, now: u64)
        ensures
            stored(old(self)@, old(self).max(), (domain@, port), (ip, now.saturating_add(old(self).ttl())), final(self)@),
            final(self).max() == old(self).max(),
            final(self).ttl() == old(self).ttl(),
    {
        proof {
            use_type_invariant(&*self);
            lemma_map_len(self.entries@);
        }
        let expires_at = now.saturating_add(self.ttl_millis);
        let mut entries: Vec<DnsEntry> = Vec::new();
        std::mem::swap(&mut entries, &mut self.entries);
        let ghost s0 = entries@;
        let ghost m0 = map_of(s0);
        let ghost key = (domain@, port);
        let ghost value = (ip, expires_at);
        if entries.len() >= self.max_entries && entries.len() > 0 {
            let v = soonest_entry(&entries);
            let ghost vk = key_of(s0[v as int]);
            proof {
                lemma_lookup(s0, v as int);
                assert forall|k: (Seq<char>, u16)| #[trigger] m0.contains_key(k) implies m0[vk].1 <= m0[k].1 by {
                    let j = choose|j: int| 0 <= j < s0.len() && #[trigger] key_of(s0[j]) == k;
                    lemma_lookup(s0, j);
                }
                assert(soonest(m0, vk));
                lemma_remove(s0, v as int);
            }
            entries.remove(v);
        }
        let ghost s1 = entries@;
        let ghost m1 = map_of(s1);
        let found = find_entry(&entries, domain, port);
        let e = DnsEntry { domain: domain.to_owned(), port, ip, expires_at };
        match found {
            Some(i) => {
                proof {
                    lemma_lookup(s1, i as int);
                    lemma_remove(s1, i as int);
                }
                entries.remove(i);
                proof {
                    assert(!map_of(entries@).contains_key(key));
                    lemma_push(entries@, e);
                    assert(m1.remove(key).insert(key, value) =~= m1.insert(key, value));
                }
                entries.push(e);
            },
            None => {
                proof {
                    lemma_push(entries@, e);
                }
                entries.push(e);
            },
        }
        proof {
            lemma_map_len(s1);
            lemma_map_len(entries@);
        }
        self.entries = entries;
    }

    /// Cache `ip` for `domain` and `port` now (see `store_at`).
    pub fn store(&mut self, domain: &str, port: u16, ip: IpAddress)
        ensures
            exists|now: u64| stored(old(self)@, old(self).max(), (domain@, port), (ip, now.saturating_add(old(self).ttl())), final(self)@),
            final(self).max() == old(self).max(),
            final(self).ttl() == old(self).ttl(),
    {
        let now = millis_since(&self.clock);
        self.store_at(domain, port, ip, now);
    }
}

/// What was just stored is found again while it has not expired: after
/// storing `ip` for a key at time `now`, a lookup of that key at any time
/// before the expiry gives `ip`.
pub proof fn lemma_lookup_after_store(
    old: Map<(Seq<char>, u16), (IpAddress, u64)>,
    max: usize,
    key: (Seq<char>, u16),
    ip: IpAddress,
    now: u64,
    ttl: u64,
    new: Map<(Seq<char>, u16), (IpAddress, u64)>,
    later: u64,
)
    requires
        stored(old, max, key, (ip, now.saturating_add(ttl)), new),
        later < now.saturating_add(ttl),
    ensures
        cached(new, key, later) == Some(ip),
{
    if old.len() >= max && old.len() > 0 {
        let v = choose|v: (Seq<char>, u16)| #[trigger] soonest(old, v) && new == old.remove(v).insert(
            key,
            (ip, now.saturating_add(ttl)),
        );
        assert(new.contains_key(key));
    }
}

} // verus!
