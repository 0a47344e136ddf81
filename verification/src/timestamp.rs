//! Reading the times the database writes (`YYYY-MM-DD HH:MM:SS`) as
//! rough seconds since 1970, for the age of a stored strategy: every year
//! has 365 days plus a leap day every fourth year, months have their
//! usual lengths in a common year.

use vstd::prelude::*;
use crate::numparse::{all_digits, digits_value, is_digit};

verus! {

/// The separators of a database time: `-`, space and `:`.
pub open spec fn is_date_sep(c: u8) -> bool {
    c == 45 || c == 32 || c == 58
}

/// The pieces of `b` between separators.
pub open spec fn date_pieces(b: Seq<u8>) -> Seq<Seq<u8>>
    decreases b.len(),
{
    if b.len() == 0 {
        seq![Seq::empty()]
    } else {
        let p = date_pieces(b.drop_last());
        if is_date_sep(b.last()) {
            p.push(Seq::empty())
        } else {
            p.update(p.len() - 1, p.last().push(b.last()))
        }
    }
}

/// What `i64`'s `FromStr` gives for the bytes of a text: an optional
/// sign and at least one digit, of a value that fits.
pub open spec fn spec_parse_i64(s: Seq<u8>) -> Option<i64> {
    let neg = s.len() > 0 && s[0] == 45;
    let d = if s.len() > 0 && (s[0] == 43 || s[0] == 45) { s.drop_first() } else { s };
    let v = if neg { -digits_value(d) } else { digits_value(d) };
    if d.len() > 0 && all_digits(d) && i64::MIN <= v <= i64::MAX {
        Some(v as i64)
    } else {
        None
    }
}

/// A field of the time, or its default when it does not parse.
pub open spec fn field_or(p: Seq<u8>, default: i64) -> i64 {
    match spec_parse_i64(p) {
        Some(v) => v,
        None => default,
    }
}

/// Days in a common year before month `m + 1` (`m` from 0), or 0 for a
/// month out of range.
pub open spec fn days_before_month(m: int) -> int {
    if m == 0 {
        0
    } else if m == 1 {
        31
    } else if m == 2 {
        59
    } else if m == 3 {
        90
    } else if m == 4 {
        120
    } else if m == 5 {
        151
    } else if m == 6 {
        181
    } else if m == 7 {
        212
    } else if m == 8 {
        243
    } else if m == 9 {
        273
    } else if m == 10 {
        304
    } else if m == 11 {
        334
    } else {
        0
    }
}

/// Whether a value fits in 64 signed bits.
pub open spec fn fits(x: int) -> bool {
    i64::MIN <= x <= i64::MAX
}

/// Integer division by 4 rounding toward zero.
pub open spec fn quarter(a: int) -> int {
    if a >= 0 {
        a / 4
    } else {
        -((-a) / 4)
    }
}

/// The rough seconds since 1970 of a time, computed step by step in 64
/// signed bits: `None` when a step leaves that range.
pub open spec fn seconds_of(year: i64, month: i64, day: i64, hour: i64, min: i64, sec: i64) -> Option<i64> {
    let a = year - 1970;
    let b = a * 365;
    let m = month - 1;
    let d1 = b + quarter(a);
    let d2 = d1 + days_before_month(m);
    let d3 = d2 + day;
    let days = d3 - 1;
    let s1 = days * 86400;
    let h = hour * 3600;
    let s2 = s1 + h;
    let mi = min * 60;
    let s3 = s2 + mi;
    let s4 = s3 + sec;
    if fits(a) && fits(b) && fits(m) && fits(d1) && fits(d2) && fits(d3) && fits(days) && fits(s1) && fits(h)
        && fits(s2) && fits(mi) && fits(s3) && fits(s4) {
        Some(s4 as i64)
    } else {
        None
    }
}

/// A database time read as seconds.
#[derive(Debug, Clone, Copy, PartialEq, Eq, Structural)]
pub enum Timestamp {
    /// Fewer than six fields: the time cannot be read.
    Unreadable,
    /// The computation leaves 64 signed bits.
    OutOfRange,
    /// Rough seconds since 1970.
    Seconds(i64),
}

/// What `approx_timestamp` gives for the bytes of a time: the first six
/// pieces as year, month, day, hour, minute and second (defaults 2026,
/// 1, 1, 0, 0, 0 for a piece that is not a number).
pub open spec fn spec_timestamp(t: Seq<u8>) -> Timestamp {
    let p = date_pieces(t);
    if p.len() < 6 {
        Timestamp::Unreadable
    } else {
        match seconds_of(
            field_or(p[0], 2026),
            field_or(p[1], 1),
            field_or(p[2], 1),
            field_or(p[3], 0),
            field_or(p[4], 0),
            field_or(p[5], 0),
        ) {
            Some(s) => Timestamp::Seconds(s),
            None => Timestamp::OutOfRange,
        }
    }
}

proof fn lemma_digits_value_nonneg(s: Seq<u8>)
    requires
        all_digits(s),
    ensures
        digits_value(s) >= 0,
    decreases s.len(),
{
    if s.len() > 0 {
        lemma_digits_value_nonneg(s.drop_last());
    }
}

/// Parse a decimal `i64` from bytes as `str::parse::<i64>` does.
pub fn parse_i64_bytes(s: &[u8]) -> (r: Option<i64>)
    ensures
        r == spec_parse_i64(s@),
{
    let n = s.len();
    let neg = n > 0 && s[0] == 45;
    let start: usize = if n > 0 && (s[0] == 43 || s[0] == 45) { 1 } else { 0 };
    let ghost d = s@.subrange(start as int, n as int);
    assert(d =~= if s@.len() > 0 && (s@[0] == 43 || s@[0] == 45) { s@.drop_first() } else { s@ });
    if start == n {
        return None;
    }
    let limit: u64 = 9223372036854775808;
    let mut acc: u64 = 0;
    let mut i: usize = start;
    while i < n
        invariant
            n == s@.len(),
            start <= i <= n,
            d == s@.subrange(start as int, n as int),
            d =~= (if s@.len() > 0 && (s@[0] == 43 || s@[0] == 45) { s@.drop_first() } else { s@ }),
            all_digits(s@.subrange(start as int, i as int)),
            acc as int == digits_value(s@.subrange(start as int, i as int)),
            limit == 9223372036854775808u64,
            acc <= limit,
        decreases n - i,
    {
        let c = s[i];
        assert(s@.subrange(start as int, i + 1).drop_last() =~= s@.subrange(start as int, i as int));
        if c < 48 || c > 57 {
            assert(!is_digit(d[i - start]));
            return None;
        }
        let next: u128 = acc as u128 * 10 + (c - 48) as u128;
        if next > limit as u128 {
            proof {
                let k = (i + 1 - start) as int;
                assert(d.subrange(0, k) =~= s@.subrange(start as int, i + 1));
                assert(all_digits(s@.subrange(start as int, i + 1)));
                assert(digits_value(d.subrange(0, k)) == next);
                lemma_prefix_bound(d, k);
            }
            return None;
        }
        acc = next as u64;
        i = i + 1;
    }
    assert(s@.subrange(start as int, n as int) =~= d);
    if neg {
        if acc == limit {
            Some(i64::MIN)
        } else {
            Some(0 - (acc as i64))
        }
    } else if acc == limit {
        None
    } else {
        Some(acc as i64)
    }
}

proof fn lemma_prefix_bound(d: Seq<u8>, k: int)
    requires
        0 <= k <= d.len(),
        all_digits(d.subrange(0, k)),
    ensures
        all_digits(d) ==> digits_value(d.subrange(0, k)) <= digits_value(d),
    decreases d.len() - k,
{
    if all_digits(d) {
        if k < d.len() {
            assert(all_digits(d.subrange(0, k + 1)));
            lemma_prefix_bound(d, k + 1);
            assert(d.subrange(0, k + 1).drop_last() =~= d.subrange(0, k));
            lemma_digits_value_nonneg(d.subrange(0, k));
        } else {
            assert(d.subrange(0, k) =~= d);
        }
    }
}

fn days_before(m: i64) -> (r: i64)
    ensures
        r == days_before_month(m as int),
{
    if m == 0 {
        0
    } else if m == 1 {
        31
    } else if m == 2 {
        59
    } else if m == 3 {
        90
    } else if m == 4 {
        120
    } else if m == 5 {
        151
    } else if m == 6 {
        181
    } else if m == 7 {
        212
    } else if m == 8 {
        243
    } else if m == 9 {
        273
    } else if m == 10 {
        304
    } else if m == 11 {
        334
    } else {
        0
    }
}

fn quarter_of(a: i64) -> (r: i64)
    ensures
        r == quarter(a as int),
{
    if a >= 0 {
        a / 4
    } else {
        let mag: u64 = (0i128 - a as i128) as u64;
        let q: u64 = mag / 4;
        0 - (q as i64)
    }
}

fn seconds(year: i64, month: i64, day: i64, hour: i64, min: i64, sec: i64) -> (r: Option<i64>)
    ensures
        r == seconds_of(year, month, day, hour, min, sec),
{
    let a = year.checked_sub(1970)?;
    let b = a.checked_mul(365)?;
    let m = month.checked_sub(1)?;
    let d1 = b.checked_add(quarter_of(a))?;
    let d2 = d1.checked_add(days_before(m))?;
    let d3 = d2.checked_add(day)?;
    let days = d3.checked_sub(1)?;
    let s1 = days.checked_mul(86400)?;
    let h = hour.checked_mul(3600)?;
    let s2 = s1.checked_add(h)?;
    let mi = min.checked_mul(60)?;
    let s3 = s2.checked_add(mi)?;
    s3.checked_add(sec)
}

fn field_value(p: &[u8], default: i64) -> (r: i64)
    ensures
        r == field_or(p@, default),
{
    match parse_i64_bytes(p) {
        Some(v) => v,
        None => default,
    }
}

/// Read a database time (see `spec_timestamp`).
pub fn approx_timestamp(t: &str) -> (r: Timestamp)
    ensures
        r == spec_timestamp(vstd::utf8::encode_utf8(t@)),
{
    let b = t.as_bytes();
    let n = b.len();
    let mut bounds: Vec<(usize, usize)> = Vec::new();
    let mut start: usize = 0;
    let mut i: usize = 0;
    let ghost mut done: Seq<Seq<u8>> = Seq::empty();
    assert(b@.subrange(0, 0) =~= Seq::<u8>::empty());
    assert(date_pieces(b@.subrange(0, 0)) =~= done.push(b@.subrange(0, 0)));
    while i < n
        invariant
            n == b@.len(),
            start <= i <= n,
            date_pieces(b@.subrange(0, i as int)) == done.push(b@.subrange(start as int, i as int)),
            bounds@.len() == done.len(),
            forall|k: int| 0 <= k < bounds@.len() ==> (#[trigger] bounds@[k]).0 <= bounds@[k].1 <= n
                && done[k] == b@.subrange(bounds@[k].0 as int, bounds@[k].1 as int),
        decreases n - i,
    {
        assert(b@.subrange(0, i + 1).drop_last() =~= b@.subrange(0, i as int));
        assert(b@.subrange(0, i + 1).last() == b@[i as int]);
        let c = b[i];
        if c == 45 || c == 32 || c == 58 {
            proof {
                done = done.push(b@.subrange(start as int, i as int));
            }
            bounds.push((start, i));
            assert(b@.subrange(i + 1, i + 1) =~= Seq::<u8>::empty());
            start = i + 1;
        } else {
            assert(b@.subrange(start as int, i + 1) =~= b@.subrange(start as int, i as int).push(c));
        }
        i = i + 1;
    }
    assert(b@.subrange(0, n as int) =~= b@);
    proof {
        done = done.push(b@.subrange(start as int, n as int));
    }
    bounds.push((start, n));
    let ghost p = date_pieces(b@);
    assert(p == done);
    if bounds.len() < 6 {
        return Timestamp::Unreadable;
    }
    let year = field_value(&b[bounds[0].0..bounds[0].1], 2026);
    let month = field_value(&b[bounds[1].0..bounds[1].1], 1);
    let day = field_value(&b[bounds[2].0..bounds[2].1], 1);
    let hour = field_value(&b[bounds[3].0..bounds[3].1], 0);
    let min = field_value(&b[bounds[4].0..bounds[4].1], 0);
    let sec = field_value(&b[bounds[5].0..bounds[5].1], 0);
    match seconds(year, month, day, hour, min, sec) {
        Some(s) => Timestamp::Seconds(s),
        None => Timestamp::OutOfRange,
    }
}

} // verus!
