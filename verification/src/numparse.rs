//! Decimal numbers in configuration text.

use vstd::prelude::*;

verus! {

/// Whether a byte is an ASCII decimal digit.
pub open spec fn is_digit(b: u8) -> bool {
    48 <= b <= 57
}

/// Value of a string of decimal digits.
pub open spec fn digits_value(s: Seq<u8>) -> int
    decreases s.len(),
{
    if s.len() == 0 {
        0
    } else {
        digits_value(s.drop_last()) * 10 + (s.last() - 48)
    }
}

/// The digits after an optional leading `+`.
pub open spec fn unsigned_digits(s: Seq<u8>) -> Seq<u8> {
    if s.len() > 0 && s[0] == 43 {
        s.drop_first()
    } else {
        s
    }
}

/// Whether every byte is a decimal digit.
pub open spec fn all_digits(d: Seq<u8>) -> bool {
    forall|i: int| 0 <= i < d.len() ==> is_digit(#[trigger] d[i])
}

/// What `usize`'s `FromStr` gives for the bytes of a string: an optional
/// `+` and at least one digit, of a value that fits.
pub open spec fn spec_parse_usize(s: Seq<u8>) -> Option<usize> {
    let d = unsigned_digits(s);
    if d.len() > 0 && all_digits(d) && digits_value(d) <= usize::MAX {
        Some(digits_value(d) as usize)
    } else {
        None
    }
}

proof fn lemma_digits_value_prefix(s: Seq<u8>, k: int)
    requires
        0 <= k <= s.len(),
        forall|i: int| 0 <= i < s.len() ==> is_digit(#[trigger] s[i]),
    ensures
        0 <= digits_value(s.subrange(0, k)) <= digits_value(s),
    decreases s.len() - k,
{
    if k < s.len() {
        lemma_digits_value_prefix(s, k + 1);
        assert(s.subrange(0, k + 1).drop_last() =~= s.subrange(0, k));
    } else {
        assert(s.subrange(0, k) =~= s);
    }
    lemma_digits_value_nonneg(s.subrange(0, k));
}

proof fn lemma_digits_value_nonneg(s: Seq<u8>)
    requires
        forall|i: int| 0 <= i < s.len() ==> is_digit(#[trigger] s[i]),
    ensures
        digits_value(s) >= 0,
    decreases s.len(),
{
    if s.len() > 0 {
        lemma_digits_value_nonneg(s.drop_last());
    }
}

/// Parse a decimal `usize` as `str::parse::<usize>` does.
pub fn parse_usize(s: &str) -> (r: Option<usize>)
    ensures
        r == spec_parse_usize(vstd::utf8::encode_utf8(s@)),
{
    let b = s.as_bytes();
    let ghost bs = b@;
    let start: usize = if b.len() > 0 && b[0] == 43 { 1 } else { 0 };
    let ghost d = unsigned_digits(bs);
    assert(d =~= bs.subrange(start as int, bs.len() as int));
    if b.len() == start {
        return None;
    }
    let mut val: usize = 0;
    let mut i: usize = start;
    while i < b.len()
        invariant
            start <= i <= b@.len(),
            b@ == bs,
            bs == vstd::utf8::encode_utf8(s@),
            d == unsigned_digits(bs),
            d == bs.subrange(start as int, bs.len() as int),
            forall|k: int| start <= k < i ==> is_digit(#[trigger] bs[k]),
            val as int == digits_value(bs.subrange(start as int, i as int)),
        decreases b@.len() - i,
    {
        let c = b[i];
        if c < 48 || c > 57 {
            assert(!is_digit(d[i - start]));
            assert(!all_digits(d));
            return None;
        }
        let digit = (c - 48) as usize;
        assert(bs.subrange(start as int, i + 1).drop_last() =~= bs.subrange(start as int, i as int));
        if val > (usize::MAX - digit) / 10 {
            proof {
                assert(digits_value(bs.subrange(start as int, i + 1)) > usize::MAX) by (nonlinear_arith)
                    requires
                        digits_value(bs.subrange(start as int, i + 1)) == val * 10 + digit,
                        val > (usize::MAX - digit) / 10,
                        0 <= digit <= 9,
                ;
                if all_digits(d) {
                    lemma_digits_value_prefix(d, (i + 1 - start) as int);
                    assert(d.subrange(0, (i + 1 - start) as int) =~= bs.subrange(start as int, i + 1));
                }
            }
            return None;
        }
        proof {
            assert(val * 10 + digit <= usize::MAX) by (nonlinear_arith)
                requires
                    val <= (usize::MAX - digit) / 10,
                    0 <= digit <= 9,
            ;
        }
        val = val * 10 + digit;
        i = i + 1;
    }
    assert(bs.subrange(start as int, bs.len() as int) =~= d);
    Some(val)
}

/// What `u16`'s `FromStr` gives for the bytes of a string.
pub open spec fn spec_parse_u16(s: Seq<u8>) -> Option<u16> {
    let d = unsigned_digits(s);
    if d.len() > 0 && all_digits(d) && digits_value(d) <= 65535 {
        Some(digits_value(d) as u16)
    } else {
        None
    }
}

/// Parse a decimal `u16` as `str::parse::<u16>` does.
pub fn parse_u16(s: &str) -> (r: Option<u16>)
    ensures
        r == spec_parse_u16(vstd::utf8::encode_utf8(s@)),
{
    let ghost d = unsigned_digits(vstd::utf8::encode_utf8(s@));
    proof {
        if all_digits(d) {
            lemma_digits_value_nonneg(d);
        }
    }
    match parse_usize(s) {
        Some(v) => if v <= 65535 {
            assert(d.len() > 0 && all_digits(d) && digits_value(d) == v);
            Some(v as u16)
        } else {
            assert(digits_value(d) == v);
            None
        },
        None => {
            proof {
                if d.len() > 0 && all_digits(d) {
                    assert(digits_value(d) > usize::MAX);
                }
            }
            None
        },
    }
}

} // verus!
