//! Multi-stream fragmentation: the ClientHello's record is re-framed as N
//! TLS records (3 by default), cut before the SNI, through the middle of
//! the host name and after it, so that no single record holds the whole
//! name and a DPI reading any N-1 of them misses it.

use vstd::prelude::*;
use crate::types::{AppProtocolView, DesyncAction, DesyncActionView, Error, SplitPosition, StealthConfig};
use crate::context::{PayloadContext, resolves_to};
use crate::technique::{gives, refused, Technique, TechniqueConfig};
use crate::ccs_inject::{is_tls_handshake_with_sni, CONTENT_TYPE_HANDSHAKE};
use crate::tls_record_frag::{clamp, first_record_complete, record_data_len, tls_record};
use crate::bytes::{extend_range, push_be16, read_be16};
use crate::numparse::{parse_usize, spec_parse_usize};

verus! {

/// Fragment count when the configuration gives none.
pub const DEFAULT_FRAGMENTS: usize = 3;
/// Largest fragment count.
pub const MAX_FRAGMENTS: usize = 8;
/// Length of a TLS record header.
pub const TLS_HEADER_LEN: usize = 5;

/// `x - 1`, or 0 for 0.
pub open spec fn dec_sat(x: int) -> int {
    if x >= 1 {
        x - 1
    } else {
        0
    }
}

/// First cut, before the SNI.
pub open spec fn pre_sni_point(sni: int) -> int {
    if sni / 2 >= 1 {
        sni / 2
    } else {
        1
    }
}

/// The cut through the host name: `inner` bytes past the SNI offset, kept
/// strictly inside the data and after `lo`.
pub open spec fn name_cut(data_len: int, sni: int, inner: int, lo: int) -> int {
    clamp(sni + inner, lo, dec_sat(data_len))
}

/// Second cut, inside the host name.
pub open spec fn post_sni_point(data_len: int, sni: int, inner: int) -> int {
    name_cut(data_len, sni, inner, pre_sni_point(sni) + 1)
}

/// Further cuts, spread over the space after the second one: the `i`-th
/// of `extra` is kept when it lies beyond the last cut kept.
pub open spec fn extra_points(post: int, rem: int, extra: int, hi: int, i: int, last: int) -> Seq<int>
    decreases extra + 1 - i,
{
    if i < 1 || i > extra {
        Seq::empty()
    } else {
        let pos = clamp(post + (rem * i) / (extra + 1), post + 1, hi);
        if pos > last {
            seq![pos] + extra_points(post, rem, extra, hi, i + 1, pos)
        } else {
            extra_points(post, rem, extra, hi, i + 1, last)
        }
    }
}

/// Whether the cut points are defined (each clamp has a non-empty range).
pub open spec fn split_points_defined(data_len: int, sni: int, inner: int, n: int) -> bool {
    n <= 2 || (pre_sni_point(sni) + 1 <= dec_sat(data_len) && (n <= 3 || post_sni_point(data_len, sni, inner) + 1
        <= dec_sat(data_len)))
}

/// The cut points within `data_len` bytes of record data for `n`
/// fragments around the SNI offset `sni`, whose host name is cut `inner`
/// bytes in: with two fragments that one cut; with more, a cut before the
/// SNI (half its offset), the cut through the name, and the rest spread
/// evenly after it.
pub open spec fn split_points(data_len: int, sni: int, inner: int, n: int) -> Seq<int> {
    if n <= 1 {
        Seq::empty()
    } else if n == 2 {
        seq![name_cut(data_len, sni, inner, 1)]
    } else {
        let pre = pre_sni_point(sni);
        let post = post_sni_point(data_len, sni, inner);
        let rem = dec_sat(data_len - post);
        seq![pre, post] + if n > 3 {
            extra_points(post, rem, n - 3, dec_sat(data_len), 1, post)
        } else {
            Seq::empty()
        }
    }
}

/// Whether a sequence of cut points is strictly increasing and lies
/// strictly inside `0..data_len`.
pub open spec fn increasing_within(points: Seq<int>, data_len: int) -> bool {
    &&& forall|i: int, j: int| 0 <= i < j < points.len() ==> points[i] < points[j]
    &&& forall|i: int| 0 <= i < points.len() ==> 0 < #[trigger] points[i] < data_len
}

/// Where chunk `k` starts.
pub open spec fn chunk_start(points: Seq<int>, k: int) -> int {
    if k <= 0 {
        0
    } else {
        points[k - 1]
    }
}

/// The records for the first `i` chunks of `data` cut at `points`.
pub open spec fn records_prefix(major: u8, minor: u8, data: Seq<u8>, points: Seq<int>, i: int) -> Seq<u8>
    decreases i,
{
    if i <= 0 {
        Seq::empty()
    } else {
        records_prefix(major, minor, data, points, i - 1) + tls_record(
            major,
            minor,
            data.subrange(chunk_start(points, i - 1), points[i - 1]),
        )
    }
}

/// All records for `data` cut at `points`.
pub open spec fn fragment_records(major: u8, minor: u8, data: Seq<u8>, points: Seq<int>) -> Seq<u8> {
    records_prefix(major, minor, data, points, points.len() as int) + tls_record(
        major,
        minor,
        data.subrange(chunk_start(points, points.len() as int), data.len() as int),
    )
}

/// How far into the host name the name is cut: half its length.
pub open spec fn msf_inner(ctx: &PayloadContext) -> int {
    match ctx.protocol@ {
        AppProtocolView::TlsClientHello { sni_len, .. } => sni_len as int / 2,
        _ => 0,
    }
}

/// SNI offset within the record data for the resolved offset `o` (the
/// middle of the record when the position does not resolve).
pub open spec fn msf_sni_data_offset(o: Option<usize>, rdl: int) -> int {
    let so = match o {
        Some(x) => x as int,
        None => 5 + rdl / 2,
    };
    clamp(if so > 5 { so - 5 } else { 1 }, 1, dec_sat(rdl))
}

/// Whether the technique's preconditions hold on its way to cutting.
pub open spec fn msf_cuts(ctx: &PayloadContext, n: int) -> bool {
    is_tls_handshake_with_sni(ctx) && first_record_complete(ctx.payload@) && record_data_len(ctx.payload@) >= n
}

/// The inputs on which the technique is defined: the record must have at
/// least two data bytes, and the cut points must be defined for every
/// resolution of the split position.
pub open spec fn msf_admits(ctx: &PayloadContext, split_pos: SplitPosition, n: int) -> bool {
    msf_cuts(ctx, n) ==> {
        &&& record_data_len(ctx.payload@) >= 2
        &&& forall|o: Option<usize>|
            #[trigger] resolves_to(ctx.payload@.len() as int, ctx.protocol@, split_pos, o) ==> split_points_defined(
                record_data_len(ctx.payload@),
                msf_sni_data_offset(o, record_data_len(ctx.payload@)),
                msf_inner(ctx),
                n,
            )
    }
}

/// The record data of the payload's first record.
pub open spec fn first_record_data(p: Seq<u8>) -> Seq<u8> {
    p.subrange(5, 5 + record_data_len(p))
}

/// The results multi-stream fragmentation may give for `n` fragments.
pub open spec fn msf_result(ctx: &PayloadContext, split_pos: SplitPosition, n: int, r: Result<DesyncAction, Error>) -> bool {
    if !msf_cuts(ctx, n) {
        refused(r)
    } else {
        let p = ctx.payload@;
        let rdl = record_data_len(p);
        exists|o: Option<usize>|
            #[trigger] resolves_to(p.len() as int, ctx.protocol@, split_pos, o) && gives(
                r,
                DesyncActionView::Replace(
                    fragment_records(p[1], p[2], first_record_data(p), split_points(rdl, msf_sni_data_offset(o, rdl), msf_inner(ctx), n)),
                ),
            )
    }
}

/// Append a handshake record holding `data`.
pub fn write_tls_record(buf: &mut Vec<u8>, version_major: u8, version_minor: u8, data: &[u8])
    requires
        data@.len() < 65536,
    ensures
        final(buf)@ == old(buf)@ + tls_record(version_major, version_minor, data@),
{
    let ghost start = buf@;
    buf.push(CONTENT_TYPE_HANDSHAKE);
    buf.push(version_major);
    buf.push(version_minor);
    push_be16(buf, data.len());
    extend_range(buf, data, 0, data.len());
    assert(data@.subrange(0, data@.len() as int) =~= data@);
    assert(buf@ =~= start + tls_record(version_major, version_minor, data@));
}

proof fn lemma_extra_points_shape(post: int, rem: int, extra: int, hi: int, i: int, last: int)
    requires
        post < hi,
        last >= post,
    ensures
        forall|k: int| 0 <= k < extra_points(post, rem, extra, hi, i, last).len() ==> last < #[trigger] extra_points(post, rem, extra, hi, i, last)[k] <= hi,
        forall|a: int, b: int| 0 <= a < b < extra_points(post, rem, extra, hi, i, last).len()
            ==> extra_points(post, rem, extra, hi, i, last)[a] < extra_points(post, rem, extra, hi, i, last)[b],
        extra_points(post, rem, extra, hi, i, last).len() <= if i < 1 || i > extra { 0 } else { extra + 1 - i },
    decreases extra + 1 - i,
{
    if 1 <= i <= extra {
        let pos = clamp(post + (rem * i) / (extra + 1), post + 1, hi);
        lemma_extra_points_shape(post, rem, extra, hi, i + 1, if pos > last { pos } else { last });
    }
}

/// The cut points are strictly increasing and lie strictly inside the
/// record data.
pub proof fn lemma_split_points_increasing(data_len: int, sni: int, inner: int, n: int)
    requires
        split_points_defined(data_len, sni, inner, n),
        n == 2 ==> data_len >= 2,
        0 <= sni,
    ensures
        increasing_within(split_points(data_len, sni, inner, n), data_len),
{
    let target = split_points(data_len, sni, inner, n);
    if n > 2 {
        let post = post_sni_point(data_len, sni, inner);
        let rem = dec_sat(data_len - post);
        let hi = dec_sat(data_len);
        if n > 3 {
            lemma_extra_points_shape(post, rem, n - 3, hi, 1, post);
        }
        assert forall|i: int| 0 <= i < target.len() implies 0 < #[trigger] target[i] < data_len by {
            if i >= 2 {
                assert(target[i] == extra_points(post, rem, n - 3, hi, 1, post)[i - 2]);
            }
        }
        assert forall|a: int, b: int| 0 <= a < b < target.len() implies target[a] < target[b] by {
            if a >= 2 {
                assert(target[a] == extra_points(post, rem, n - 3, hi, 1, post)[a - 2]);
            }
            if b >= 2 {
                assert(target[b] == extra_points(post, rem, n - 3, hi, 1, post)[b - 2]);
            }
        }
    }
}

/// Compute the cut points within `data_len` bytes of record data for
/// `n_fragments` fragments around the SNI offset `sni_offset`: strictly
/// increasing and inside the data.
fn compute_split_points(data_len: usize, sni_offset: usize, inner: usize, n_fragments: usize) -> (r: Vec<usize>)
    requires
        split_points_defined(data_len as int, sni_offset as int, inner as int, n_fragments as int),
        data_len * n_fragments <= usize::MAX,
        n_fragments == 2 ==> data_len >= 2,
        sni_offset < data_len,
    ensures
        r@.map_values(|p: usize| p as int) == split_points(data_len as int, sni_offset as int, inner as int, n_fragments as int),
        increasing_within(split_points(data_len as int, sni_offset as int, inner as int, n_fragments as int), data_len as int),
        r@.len() < n_fragments || n_fragments == 0,
{
    let ghost target = split_points(data_len as int, sni_offset as int, inner as int, n_fragments as int);
    if n_fragments <= 1 {
        let r: Vec<usize> = Vec::new();
        assert(r@.map_values(|p: usize| p as int) =~= target);
        return r;
    }
    let n_splits = n_fragments - 1;
    let hi = if data_len >= 1 { data_len - 1 } else { 0 };
    // The offset `inner` bytes into the host name, capped at `hi`.
    let through_name = if inner > hi || sni_offset > hi - inner { hi } else { sni_offset + inner };
    if n_splits == 1 {
        let cut = if through_name < 1 { 1 } else { through_name };
        let r = vec![cut];
        proof {
            lemma_split_points_increasing(data_len as int, sni_offset as int, inner as int, n_fragments as int);
        }
        assert(r@.map_values(|p: usize| p as int) =~= target);
        return r;
    }
    let pre_sni = if sni_offset / 2 >= 1 { sni_offset / 2 } else { 1 };
    let post_sni = if through_name < pre_sni + 1 {
        pre_sni + 1
    } else {
        through_name
    };
    let mut points: Vec<usize> = vec![pre_sni, post_sni];
    let ghost rem_spec = dec_sat(data_len - post_sni);
    if n_splits > 2 {
        let last_point = post_sni;
        let remaining_space = if data_len >= last_point + 1 { data_len - (last_point + 1) } else { 0 };
        let extra_splits = n_splits - 2;
        let mut last = last_point;
        let mut i: usize = 1;
        proof {
            lemma_extra_points_shape(post_sni as int, rem_spec, extra_splits as int, hi as int, 1, post_sni as int);
        }
        while i <= extra_splits
            invariant
                1 <= i <= extra_splits + 1,
                extra_splits == n_fragments - 3,
                remaining_space == rem_spec,
                rem_spec <= data_len,
                post_sni + 1 + remaining_space == data_len,
                data_len * n_fragments <= usize::MAX,
                post_sni < hi < data_len,
                last_point == post_sni,
                post_sni <= last <= hi,
                points@.len() >= 2,
                points@.last() == last,
                points@.map_values(|p: usize| p as int) + extra_points(post_sni as int, rem_spec, extra_splits as int, hi as int, i as int, last as int)
                    == seq![pre_sni as int, post_sni as int] + extra_points(post_sni as int, rem_spec, extra_splits as int, hi as int, 1, post_sni as int),
            decreases extra_splits + 1 - i,
        {
            proof {
                vstd::arithmetic::mul::lemma_mul_inequality(remaining_space as int, data_len as int, i as int);
                vstd::arithmetic::mul::lemma_mul_inequality(i as int, n_fragments as int, data_len as int);
                vstd::arithmetic::mul::lemma_mul_is_commutative(data_len as int, i as int);
                vstd::arithmetic::mul::lemma_mul_is_commutative(data_len as int, n_fragments as int);
                assert((remaining_space as int * i as int) / (extra_splits as int + 1) <= remaining_space) by (nonlinear_arith)
                    requires
                        1 <= i <= extra_splits,
                        remaining_space >= 0,
                ;
            }
            let pos = last_point + (remaining_space * i) / (extra_splits + 1);
            let pos = if pos < last_point + 1 {
                last_point + 1
            } else if pos > hi {
                hi
            } else {
                pos
            };
            let ghost before = points@.map_values(|p: usize| p as int);
            let ghost last_before = last;
            if pos > last {
                points.push(pos);
                last = pos;
                proof {
                    assert(points@.map_values(|p: usize| p as int) =~= before.push(pos as int));
                }
            }
            proof {
                let e_now = extra_points(post_sni as int, rem_spec, extra_splits as int, hi as int, i as int, last_before as int);
                assert(before + e_now =~= points@.map_values(|p: usize| p as int) + extra_points(post_sni as int, rem_spec, extra_splits as int, hi as int, i + 1, last as int));
            }
            i = i + 1;
        }
        proof {
            assert(points@.map_values(|p: usize| p as int) + Seq::<int>::empty() =~= points@.map_values(|p: usize| p as int));
        }
    }
    proof {
        if n_fragments <= 3 {
            assert(points@.map_values(|p: usize| p as int) =~= target);
        }
        lemma_split_points_increasing(data_len as int, sni_offset as int, inner as int, n_fragments as int);
    }
    points
}

/// Fragment the ClientHello's record into `n_fragments` records around
/// the split position (the middle of the record when it does not resolve).
pub fn apply(ctx: &PayloadContext, split_pos: &SplitPosition, n_fragments: usize) -> (r: Result<DesyncAction, Error>)
    requires
        msf_admits(ctx, *split_pos, n_fragments as int),
    ensures
        msf_result(ctx, *split_pos, n_fragments as int, r),
{
    match &ctx.protocol {
        crate::types::AppProtocol::TlsClientHello { sni: Some(_), .. } => {},
        _ => return Err(Error::not_applicable("multi_stream_frag requires a TLS ClientHello with SNI")),
    }
    let p = ctx.payload.as_slice();
    let len = p.len();
    if len < TLS_HEADER_LEN || p[0] != CONTENT_TYPE_HANDSHAKE {
        return Err(Error::not_applicable("payload is not a TLS Handshake record"));
    }
    let version_major = p[1];
    let version_minor = p[2];
    let record_data_len = read_be16(p, 3);
    if len - 5 < record_data_len {
        return Err(Error::not_applicable("TLS record truncated"));
    }
    if record_data_len < n_fragments {
        return Err(Error::not_applicable("TLS record too small for requested fragment count"));
    }
    let inner = match &ctx.protocol {
        crate::types::AppProtocol::TlsClientHello { sni_len, .. } => *sni_len / 2,
        _ => 0,
    };
    let resolved = ctx.resolve_split_position(split_pos);
    let sni_offset = match resolved {
        Some(o) => o,
        None => TLS_HEADER_LEN + record_data_len / 2,
    };
    let hi = record_data_len - 1;
    let base = if sni_offset > TLS_HEADER_LEN { sni_offset - TLS_HEADER_LEN } else { 1 };
    let sni_data_offset = if base < 1 {
        1
    } else if base > hi {
        hi
    } else {
        base
    };
    assert(sni_data_offset as int == msf_sni_data_offset(resolved, record_data_len as int));
    proof {
        assert(record_data_len * n_fragments <= 65535 * 65535) by (nonlinear_arith)
            requires
                record_data_len <= 65535,
                n_fragments <= record_data_len,
        ;
    }
    let split_points = compute_split_points(record_data_len, sni_data_offset, inner, n_fragments);
    let ghost pts = split_points@.map_values(|q: usize| q as int);
    let ghost rd = first_record_data(p@);
    let record_data = &p[5..5 + record_data_len];
    assert(record_data@ == rd);
    let mut combined: Vec<u8> = Vec::new();
    let mut prev: usize = 0;
    let mut i: usize = 0;
    while i < split_points.len()
        invariant
            pts == split_points@.map_values(|q: usize| q as int),
            increasing_within(pts, record_data_len as int),
            record_data@ == rd,
            rd.len() == record_data_len,
            record_data_len < 65536,
            i <= split_points@.len(),
            prev as int == chunk_start(pts, i as int),
            combined@ == records_prefix(version_major, version_minor, rd, pts, i as int),
        decreases split_points@.len() - i,
    {
        let split = split_points[i];
        assert(pts[i as int] == split as int);
        proof {
            if i > 0 {
                assert(pts[i - 1] < pts[i as int]);
            }
        }
        write_tls_record(&mut combined, version_major, version_minor, &record_data[prev..split]);
        prev = split;
        i = i + 1;
    }
    write_tls_record(&mut combined, version_major, version_minor, &record_data[prev..record_data_len]);
    Ok(DesyncAction::Replace(combined))
}

/// Fragment count for a configuration: `fragments`, or `sni_mode` read as
/// a number, or 3; then kept within `2..=8`.
pub open spec fn msf_fragment_count(config: &TechniqueConfig) -> int {
    let asked = match config.fragments {
        Some(f) => f as int,
        None => match config.sni_mode {
            Some(s) => match spec_parse_usize(vstd::utf8::encode_utf8(s@)) {
                Some(v) => v as int,
                None => DEFAULT_FRAGMENTS as int,
            },
            None => DEFAULT_FRAGMENTS as int,
        },
    };
    clamp(asked, 2, MAX_FRAGMENTS as int)
}

pub(crate) fn fragment_count(config: &TechniqueConfig) -> (n: usize)
    ensures
        n as int == msf_fragment_count(config),
{
    let asked = match config.fragments {
        Some(f) => f,
        None => match &config.sni_mode {
            Some(s) => match parse_usize(s.as_str()) {
                Some(v) => v,
                None => DEFAULT_FRAGMENTS,
            },
            None => DEFAULT_FRAGMENTS,
        },
    };
    if asked < 2 {
        2
    } else if asked > MAX_FRAGMENTS {
        MAX_FRAGMENTS
    } else {
        asked
    }
}

/// The multi-stream fragmentation technique.
pub struct MultiStreamFragTechnique;

impl Technique for MultiStreamFragTechnique {
    open spec fn spec_name(&self) -> Seq<char> {
        seq!['m', 'u', 'l', 't', 'i', '_', 's', 't', 'r', 'e', 'a', 'm', '_', 'f', 'r', 'a', 'g']
    }

    open spec fn admits(&self, ctx: &PayloadContext, split_pos: &SplitPosition, config: &TechniqueConfig) -> bool {
        msf_admits(ctx, *split_pos, msf_fragment_count(config))
    }

    open spec fn outcome(
        &self,
        ctx: &PayloadContext,
        split_pos: &SplitPosition,
        config: &TechniqueConfig,
        stealth: Option<&StealthConfig>,
        r: Result<DesyncAction, Error>,
    ) -> bool {
        msf_result(ctx, *split_pos, msf_fragment_count(config), r)
    }

    fn name(&self) -> (n: &'static str) {
        let n = "multi_stream_frag";
        proof {
            reveal_strlit("multi_stream_frag");
        }
        n
    }

    fn apply(
        &self,
        ctx: &PayloadContext,
        split_pos: &SplitPosition,
        config: &TechniqueConfig,
        stealth: Option<&StealthConfig>,
    ) -> (r: Result<DesyncAction, Error>) {
        let n = fragment_count(config);
        apply(ctx, split_pos, n)
    }
}

} // verus!
