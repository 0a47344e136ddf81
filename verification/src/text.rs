//! Text of names and labels built from numbers and split positions, the
//! way `{}` and `{:?}` print them.

use vstd::prelude::*;
use crate::bytes::{all_ascii, ascii_chars, utf8_lossy_string};
use crate::types::SplitPosition;

verus! {

/// The decimal digits of `n`.
pub open spec fn digits(n: nat) -> Seq<u8>
    decreases n,
{
    if n < 10 {
        seq![(48 + n) as u8]
    } else {
        digits(n / 10).push((48 + n % 10) as u8)
    }
}

/// The decimal text of a signed number: a minus sign before the digits of
/// its magnitude when negative.
pub open spec fn signed_digits(n: int) -> Seq<u8> {
    if n < 0 {
        seq![45u8] + digits((-n) as nat)
    } else {
        digits(n as nat)
    }
}

/// The bytes of a text made of ASCII characters.
pub open spec fn text(s: Seq<char>) -> Seq<u8> {
    s.map_values(|c: char| c as u8)
}

/// How `{:?}` prints a split position.
pub open spec fn split_debug(p: SplitPosition) -> Seq<u8>
    decreases p,
{
    match p {
        SplitPosition::Absolute(n) => text(seq!['A', 'b', 's', 'o', 'l', 'u', 't', 'e', '(']) + digits(n as nat) + text(seq![')']),
        SplitPosition::Sni => text(seq!['S', 'n', 'i']),
        SplitPosition::SniOffset(d) => text(seq!['S', 'n', 'i', 'O', 'f', 'f', 's', 'e', 't', '(']) + signed_digits(d as int)
            + text(seq![')']),
        SplitPosition::Random { min, max } => text(seq!['R', 'a', 'n', 'd', 'o', 'm', ' ', '{', ' ', 'm', 'i', 'n', ':', ' '])
            + digits(min as nat) + text(seq![',', ' ', 'm', 'a', 'x', ':', ' ']) + digits(max as nat) + text(seq![' ', '}']),
        SplitPosition::SniExtStart => text(seq!['S', 'n', 'i', 'E', 'x', 't', 'S', 't', 'a', 'r', 't']),
        SplitPosition::EndSld => text(seq!['E', 'n', 'd', 'S', 'l', 'd']),
        SplitPosition::MidSld => text(seq!['M', 'i', 'd', 'S', 'l', 'd']),
        SplitPosition::OffsetFrom { marker, delta } => text(
            seq!['O', 'f', 'f', 's', 'e', 't', 'F', 'r', 'o', 'm', ' ', '{', ' ', 'm', 'a', 'r', 'k', 'e', 'r', ':', ' '],
        ) + split_debug(*marker) + text(seq![',', ' ', 'd', 'e', 'l', 't', 'a', ':', ' ']) + signed_digits(delta as int)
            + text(seq![' ', '}']),
    }
}

proof fn lemma_digits_ascii(n: nat)
    ensures
        all_ascii(digits(n)),
        digits(n).len() > 0,
    decreases n,
{
    if n >= 10 {
        lemma_digits_ascii(n / 10);
    }
}

/// Append the decimal digits of `n`.
pub fn push_digits(out: &mut Vec<u8>, n: u64)
    ensures
        final(out)@ == old(out)@ + digits(n as nat),
        all_ascii(old(out)@) ==> all_ascii(final(out)@),
    decreases n,
{
    if n >= 10 {
        push_digits(out, n / 10);
    }
    out.push(48 + (n % 10) as u8);
}

/// Append the decimal text of a signed 32-bit number.
pub fn push_signed(out: &mut Vec<u8>, n: i32)
    ensures
        final(out)@ == old(out)@ + signed_digits(n as int),
        all_ascii(old(out)@) ==> all_ascii(final(out)@),
{
    if n < 0 {
        out.push(45);
        let magnitude: u64 = (0i64 - n as i64) as u64;
        let ghost mid = out@;
        push_digits(out, magnitude);
        assert(out@ =~= old(out)@ + (seq![45u8] + digits((-n) as nat)));
    } else {
        push_digits(out, n as u64);
    }
}

/// Append the bytes of an ASCII string literal.
pub fn push_text(out: &mut Vec<u8>, s: &str)
    requires
        s.is_ascii(),
    ensures
        final(out)@ == old(out)@ + text(s@),
        all_ascii(old(out)@) ==> all_ascii(final(out)@),
{
    let b = s.as_bytes();
    proof {
        vstd::string::is_ascii_spec_bytes(s);
    }
    crate::bytes::extend_range(out, b, 0, b.len());
    assert(b@.subrange(0, b@.len() as int) =~= text(s@));
}

/// Append how `{:?}` prints a split position.
pub fn push_split_debug(out: &mut Vec<u8>, p: &SplitPosition)
    ensures
        final(out)@ == old(out)@ + split_debug(*p),
        all_ascii(old(out)@) ==> all_ascii(final(out)@),
    decreases p,
{
    let ghost start = out@;
    match p {
        SplitPosition::Absolute(n) => {
            let lit = "Absolute(";
            proof {
                reveal_strlit("Absolute(");
            }
            push_text(out, lit);
            push_digits(out, *n as u64);
            let lit = ")";
            proof {
                reveal_strlit(")");
            }
            push_text(out, lit);
        },
        SplitPosition::Sni => {
            let lit = "Sni";
            proof {
                reveal_strlit("Sni");
            }
            push_text(out, lit);
        },
        SplitPosition::SniOffset(d) => {
            let lit = "SniOffset(";
            proof {
                reveal_strlit("SniOffset(");
            }
            push_text(out, lit);
            push_signed(out, *d);
            let lit = ")";
            proof {
                reveal_strlit(")");
            }
            push_text(out, lit);
        },
        SplitPosition::Random { min, max } => {
            let lit = "Random { min: ";
            proof {
                reveal_strlit("Random { min: ");
            }
            push_text(out, lit);
            push_digits(out, *min as u64);
            let lit = ", max: ";
            proof {
                reveal_strlit(", max: ");
            }
            push_text(out, lit);
            push_digits(out, *max as u64);
            let lit = " }";
            proof {
                reveal_strlit(" }");
            }
            push_text(out, lit);
        },
        SplitPosition::SniExtStart => {
            let lit = "SniExtStart";
            proof {
                reveal_strlit("SniExtStart");
            }
            push_text(out, lit);
        },
        SplitPosition::EndSld => {
            let lit = "EndSld";
            proof {
                reveal_strlit("EndSld");
            }
            push_text(out, lit);
        },
        SplitPosition::MidSld => {
            let lit = "MidSld";
            proof {
                reveal_strlit("MidSld");
            }
            push_text(out, lit);
        },
        SplitPosition::OffsetFrom { marker, delta } => {
            let lit = "OffsetFrom { marker: ";
            proof {
                reveal_strlit("OffsetFrom { marker: ");
            }
            push_text(out, lit);
            push_split_debug(out, &**marker);
            let lit = ", delta: ";
            proof {
                reveal_strlit(", delta: ");
            }
            push_text(out, lit);
            push_signed(out, *delta);
            let lit = " }";
            proof {
                reveal_strlit(" }");
            }
            push_text(out, lit);
        },
    }
    assert(out@ =~= start + split_debug(*p));
}

} // verus!
