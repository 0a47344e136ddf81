//! What the receiving side makes of fragmented ClientHellos: a run of
//! handshake records reassembles to the concatenation of their payloads,
//! so fragmenting a ClientHello's record changes nothing the server (or
//! this library's parser) reads.

use vstd::prelude::*;
use crate::bytes::{be16, be16_bytes};
use crate::tls::{chain, continuation, continuation_at, spec_parse_handshake, spec_try_parse, spec_try_parse_hs, without_offset, tls_version_ok, MAX_TLS_RECORD, CONTENT_TYPE_HANDSHAKE};
use crate::tls_record_frag::{record_data_len, refragmented, tls_record, two_records};
use crate::multi_stream_frag::{
    chunk_start, dec_sat, first_record_data, fragment_records, increasing_within, lemma_split_points_increasing,
    msf_admits, msf_cuts, msf_inner, msf_result, msf_sni_data_offset, records_prefix, split_points,
};
use crate::tls_record_frag::{record_cut, tls_frag_admits, tls_frag_result};
use crate::context::{resolves_to, PayloadContext};
use crate::types::{AppProtocolView, DesyncAction, DesyncActionView, Error, SplitPosition};
use crate::tcp_split::tcp_split_result;
use crate::disorder::disorder_result;
use crate::slow_split::slow_split_result;
use crate::technique::gives;
use crate::ccs_inject::is_tls_handshake_with_sni;

verus! {

/// The handshake records holding each chunk in turn.
pub open spec fn records_of(major: u8, minor: u8, chunks: Seq<Seq<u8>>) -> Seq<u8>
    decreases chunks.len(),
{
    if chunks.len() == 0 {
        Seq::empty()
    } else {
        records_of(major, minor, chunks.drop_last()) + tls_record(major, minor, chunks.last())
    }
}

/// The chunks joined together.
pub open spec fn joined(chunks: Seq<Seq<u8>>) -> Seq<u8>
    decreases chunks.len(),
{
    if chunks.len() == 0 {
        Seq::empty()
    } else {
        joined(chunks.drop_last()) + chunks.last()
    }
}

/// Where chunk `k` of `data` cut at `points` ends.
pub open spec fn chunk_end(points: Seq<int>, k: int, len: int) -> int {
    if k < points.len() {
        points[k]
    } else {
        len
    }
}

/// The chunks of `data` cut at `points`.
pub open spec fn cut_chunks(data: Seq<u8>, points: Seq<int>) -> Seq<Seq<u8>> {
    Seq::new(
        (points.len() + 1) as nat,
        |k: int| data.subrange(chunk_start(points, k), chunk_end(points, k, data.len() as int)),
    )
}

proof fn lemma_records_of_front(major: u8, minor: u8, chunks: Seq<Seq<u8>>)
    requires
        chunks.len() > 0,
    ensures
        records_of(major, minor, chunks) == tls_record(major, minor, chunks[0]) + records_of(major, minor, chunks.drop_first()),
    decreases chunks.len(),
{
    if chunks.len() > 1 {
        lemma_records_of_front(major, minor, chunks.drop_last());
        assert(chunks.drop_last().drop_first() =~= chunks.drop_first().drop_last());
        assert(chunks.drop_first().last() == chunks.last());
    } else {
        assert(chunks.drop_first() =~= Seq::<Seq<u8>>::empty());
        assert(chunks.drop_last() =~= Seq::<Seq<u8>>::empty());
    }
}

proof fn lemma_joined_front(chunks: Seq<Seq<u8>>)
    requires
        chunks.len() > 0,
    ensures
        joined(chunks) == chunks[0] + joined(chunks.drop_first()),
    decreases chunks.len(),
{
    if chunks.len() > 1 {
        lemma_joined_front(chunks.drop_last());
        assert(chunks.drop_last().drop_first() =~= chunks.drop_first().drop_last());
        assert(chunks.drop_first().last() == chunks.last());
        assert(chunks[0] + joined(chunks.drop_first().drop_last()) + chunks.last() =~= chunks[0] + (joined(
            chunks.drop_first().drop_last(),
        ) + chunks.last()));
    } else {
        assert(chunks.drop_first() =~= Seq::<Seq<u8>>::empty());
        assert(chunks.drop_last() =~= Seq::<Seq<u8>>::empty());
        assert(chunks[0] + Seq::<u8>::empty() =~= Seq::<u8>::empty() + chunks.last());
    }
}

/// Whether every chunk fits a record's 16-bit length field.
pub open spec fn chunks_fit(chunks: Seq<Seq<u8>>) -> bool {
    forall|k: int| 0 <= k < chunks.len() ==> (#[trigger] chunks[k]).len() < 65536
}

proof fn lemma_continuation_of_records(prefix: Seq<u8>, major: u8, minor: u8, chunks: Seq<Seq<u8>>)
    requires
        tls_version_ok(major as int * 256 + minor as int),
        chunks_fit(chunks),
    ensures
        continuation(prefix + records_of(major, minor, chunks), prefix.len() as int) == Ok::<Seq<u8>, int>(joined(chunks)),
    decreases chunks.len(),
{
    let data = prefix + records_of(major, minor, chunks);
    if chunks.len() == 0 {
        assert(data =~= prefix);
        assert(!continuation_at(data, prefix.len() as int));
    } else {
        lemma_records_of_front(major, minor, chunks);
        lemma_joined_front(chunks);
        let c0 = chunks[0];
        let rest = chunks.drop_first();
        assert(chunks_fit(rest)) by {
            assert forall|k: int| 0 <= k < rest.len() implies (#[trigger] rest[k]).len() < 65536 by {
                assert(rest[k] == chunks[k + 1]);
            }
        }
        assert(c0.len() < 65536);
        let pos = prefix.len() as int;
        let rec = tls_record(major, minor, c0);
        let prefix2 = prefix + rec;
        assert(data =~= prefix2 + records_of(major, minor, rest));
        assert(data[pos] == 0x16u8);
        assert(data[pos + 1] == major);
        assert(data[pos + 2] == minor);
        assert(data[pos + 3] == (c0.len() as int / 256) as u8);
        assert(data[pos + 4] == (c0.len() as int % 256) as u8);
        assert(be16(data, pos + 3) == c0.len());
        assert(continuation_at(data, pos));
        let cont_end = pos + 5 + c0.len();
        assert(cont_end == prefix2.len());
        assert(data.subrange(pos + 5, cont_end) =~= c0);
        lemma_continuation_of_records(prefix2, major, minor, rest);
    }
}

/// A run of handshake records, the first of them non-empty and no longer
/// than a first record may be, parses as the handshake bytes their payloads
/// join into.
pub proof fn lemma_records_parse_as_joined(major: u8, minor: u8, chunks: Seq<Seq<u8>>)
    requires
        tls_version_ok(major as int * 256 + minor as int),
        chunks_fit(chunks),
        chunks.len() > 0,
        0 < chunks[0].len() <= MAX_TLS_RECORD,
    ensures
        spec_try_parse_hs(records_of(major, minor, chunks)) == spec_parse_handshake(joined(chunks)),
{
    lemma_records_of_front(major, minor, chunks);
    lemma_joined_front(chunks);
    let c0 = chunks[0];
    let rest = chunks.drop_first();
    assert(chunks_fit(rest)) by {
        assert forall|k: int| 0 <= k < rest.len() implies (#[trigger] rest[k]).len() < 65536 by {
            assert(rest[k] == chunks[k + 1]);
        }
    }
    let rec = tls_record(major, minor, c0);
    let data = records_of(major, minor, chunks);
    assert(data =~= rec + records_of(major, minor, rest));
    lemma_continuation_of_records(rec, major, minor, rest);
    assert(be16(data, 3) == c0.len());
    assert(be16(data, 1) == major as int * 256 + minor as int);
    assert(data.subrange(5, 5 + c0.len() as int) =~= c0);
}

proof fn lemma_cut_prefix(major: u8, minor: u8, data: Seq<u8>, points: Seq<int>, i: int)
    requires
        0 <= i <= points.len(),
        increasing_within(points, data.len() as int),
    ensures
        records_prefix(major, minor, data, points, i) == records_of(major, minor, cut_chunks(data, points).take(i)),
        joined(cut_chunks(data, points).take(i)) == data.subrange(0, chunk_start(points, i)),
    decreases i,
{
    let chunks = cut_chunks(data, points);
    if i == 0 {
        assert(chunks.take(0) =~= Seq::<Seq<u8>>::empty());
        assert(data.subrange(0, 0) =~= Seq::<u8>::empty());
    } else {
        lemma_cut_prefix(major, minor, data, points, i - 1);
        assert(chunks.take(i).drop_last() =~= chunks.take(i - 1));
        assert(chunks.take(i).last() == chunks[i - 1]);
        let a = chunk_start(points, i - 1);
        let b = points[i - 1];
        if i >= 2 {
            assert(points[i - 2] < points[i - 1]);
        }
        assert(0 <= a <= b <= data.len());
        assert(data.subrange(0, a) + data.subrange(a, b) =~= data.subrange(0, b));
    }
}

/// The records written for `data` cut at `points` are the records of its
/// chunks, and the chunks join back into `data`.
pub proof fn lemma_fragment_records_chunks(major: u8, minor: u8, data: Seq<u8>, points: Seq<int>)
    requires
        increasing_within(points, data.len() as int),
        data.len() > 0,
    ensures
        fragment_records(major, minor, data, points) == records_of(major, minor, cut_chunks(data, points)),
        joined(cut_chunks(data, points)) == data,
        forall|k: int| 0 <= k < cut_chunks(data, points).len() ==> (#[trigger] cut_chunks(data, points)[k]).len() > 0,
{
    let chunks = cut_chunks(data, points);
    let n = points.len() as int;
    lemma_cut_prefix(major, minor, data, points, n);
    assert(chunks.drop_last() =~= chunks.take(n));
    let a = chunk_start(points, n);
    if n >= 1 {
        assert(points[n - 1] < data.len());
    }
    assert(data.subrange(0, a) + data.subrange(a, data.len() as int) =~= data);
    assert forall|k: int| 0 <= k < chunks.len() implies (#[trigger] chunks[k]).len() > 0 by {
        if k >= 1 && k < n {
            assert(points[k - 1] < points[k]);
        }
        if k == 0 && n > 0 {
            assert(0 < points[0]);
        }
        if k == n && n > 0 {
            assert(points[n - 1] < data.len());
        }
    }
}

/// A payload that is exactly one complete handshake record.
pub open spec fn single_record(p: Seq<u8>) -> bool {
    &&& p.len() >= 5
    &&& p[0] == CONTENT_TYPE_HANDSHAKE
    &&& tls_version_ok(be16(p, 1))
    &&& 0 < record_data_len(p) <= MAX_TLS_RECORD
    &&& p.len() == 5 + record_data_len(p)
}

/// Re-framing a single-record ClientHello's data as several records, cut
/// at any strictly increasing points inside it, parses exactly as the
/// original payload does.
pub proof fn lemma_fragmenting_preserves_parse(p: Seq<u8>, points: Seq<int>)
    requires
        single_record(p),
        increasing_within(points, record_data_len(p)),
    ensures
        spec_try_parse_hs(fragment_records(p[1], p[2], first_record_data(p), points)) == spec_try_parse_hs(p),
{
    let rd = first_record_data(p);
    let rdl = record_data_len(p);
    lemma_fragment_records_chunks(p[1], p[2], rd, points);
    let chunks = cut_chunks(rd, points);
    assert(chunks_fit(chunks));
    assert(chunks[0].len() > 0);
    assert(be16(p, 1) == p[1] as int * 256 + p[2] as int);
    lemma_records_parse_as_joined(p[1], p[2], chunks);
    assert(!continuation_at(p, 5 + rdl));
    assert(rd + Seq::<u8>::empty() =~= rd);
}

/// Cutting a single-record ClientHello's data in two records parses exactly
/// as the original payload does.
pub proof fn lemma_two_records_preserve_parse(p: Seq<u8>, cut: int)
    requires
        single_record(p),
        0 < cut < record_data_len(p),
    ensures
        spec_try_parse_hs(two_records(p, cut)) == spec_try_parse_hs(p),
{
    let pts = seq![cut];
    assert(increasing_within(pts, record_data_len(p)));
    let rd = first_record_data(p);
    assert(records_prefix(p[1], p[2], rd, pts, 0) == Seq::<u8>::empty());
    assert(records_prefix(p[1], p[2], rd, pts, 1) =~= tls_record(p[1], p[2], rd.subrange(0, cut)));
    assert(two_records(p, cut) =~= fragment_records(p[1], p[2], rd, pts));
    lemma_fragmenting_preserves_parse(p, pts);
}

/// Law: what TLS record fragmentation sends for a single-record
/// ClientHello parses as the original ClientHello.
pub proof fn lemma_tls_record_frag_preserves_client_hello(
    ctx: &PayloadContext,
    split_pos: SplitPosition,
    r: Result<DesyncAction, Error>,
)
    requires
        tls_frag_admits(ctx, split_pos),
        tls_frag_result(ctx, split_pos, r),
        single_record(ctx.payload@),
    ensures
        r matches Ok(DesyncAction::Replace(out)) ==> without_offset(spec_try_parse(out@)) == without_offset(spec_try_parse(ctx.payload@)),
{
    if is_tls_handshake_with_sni(ctx) {
        let o = choose|o: Option<usize>|
            #[trigger] resolves_to(ctx.payload@.len() as int, ctx.protocol@, split_pos, o) && match o {
                None => crate::technique::refused(r),
                Some(abs) => crate::technique::gives(
                    r,
                    crate::types::DesyncActionView::Replace(
                        refragmented(ctx.payload@, record_cut(abs as int, record_data_len(ctx.payload@))),
                    ),
                ),
            };
        if let Some(abs) = o {
            let rdl = record_data_len(ctx.payload@);
            if rdl >= 2 {
                let cut = record_cut(abs as int, rdl);
                lemma_two_records_preserve_parse(ctx.payload@, cut);
                assert(refragmented(ctx.payload@, cut) =~= two_records(ctx.payload@, cut));
            }
        }
    }
}

/// Law: what multi-stream fragmentation sends for a single-record
/// ClientHello parses as the original ClientHello.
pub proof fn lemma_multi_stream_frag_preserves_client_hello(
    ctx: &PayloadContext,
    split_pos: SplitPosition,
    n: int,
    r: Result<DesyncAction, Error>,
)
    requires
        msf_admits(ctx, split_pos, n),
        msf_result(ctx, split_pos, n, r),
        single_record(ctx.payload@),
        n >= 2,
    ensures
        r matches Ok(DesyncAction::Replace(out)) ==> without_offset(spec_try_parse(out@)) == without_offset(spec_try_parse(ctx.payload@)),
{
    if msf_cuts(ctx, n) {
        let p = ctx.payload@;
        let rdl = record_data_len(p);
        let o = choose|o: Option<usize>|
            #[trigger] resolves_to(p.len() as int, ctx.protocol@, split_pos, o) && crate::technique::gives(
                r,
                crate::types::DesyncActionView::Replace(
                    fragment_records(p[1], p[2], first_record_data(p), split_points(rdl, msf_sni_data_offset(o, rdl), msf_inner(ctx), n)),
                ),
            );
        let sdo = msf_sni_data_offset(o, rdl);
        lemma_split_points_increasing(rdl, sdo, msf_inner(ctx), n);
        lemma_fragmenting_preserves_parse(p, split_points(rdl, sdo, msf_inner(ctx), n));
    }
}

/// Law: when the split position resolves to the offset of a host name of
/// at least two bytes that lies in the first record, multi-stream
/// fragmentation cuts the name strictly inside it (half its length in), so
/// no single record holds the whole name.
pub proof fn lemma_multi_stream_frag_cuts_through_name(
    ctx: &PayloadContext,
    split_pos: SplitPosition,
    n: int,
    r: Result<DesyncAction, Error>,
    so: int,
    len: int,
)
    requires
        msf_admits(ctx, split_pos, n),
        msf_result(ctx, split_pos, n, r),
        n >= 2,
        ctx.protocol@ matches AppProtocolView::TlsClientHello { sni: Some(_), sni_offset, sni_len }
            && sni_offset == so && sni_len == len,
        len >= 2,
        5 < so,
        so + len <= 5 + record_data_len(ctx.payload@),
        forall|o: Option<usize>| #[trigger] resolves_to(ctx.payload@.len() as int, ctx.protocol@, split_pos, o) ==> o == Some(so as usize),
    ensures
        r matches Ok(DesyncAction::Replace(out)) ==> {
            let p = ctx.payload@;
            let pts = split_points(record_data_len(p), so - 5, len / 2, n);
            &&& out@ == fragment_records(p[1], p[2], first_record_data(p), pts)
            &&& increasing_within(pts, record_data_len(p))
            &&& pts.contains(so - 5 + len / 2)
            &&& so - 5 < so - 5 + len / 2 < so - 5 + len
        },
{
    if msf_cuts(ctx, n) {
        let p = ctx.payload@;
        let rdl = record_data_len(p);
        let o = choose|o: Option<usize>|
            #[trigger] resolves_to(p.len() as int, ctx.protocol@, split_pos, o) && crate::technique::gives(
                r,
                crate::types::DesyncActionView::Replace(
                    fragment_records(p[1], p[2], first_record_data(p), split_points(rdl, msf_sni_data_offset(o, rdl), msf_inner(ctx), n)),
                ),
            );
        assert(o == Some(so as usize));
        let s = so - 5;
        let i = len / 2;
        assert(msf_sni_data_offset(o, rdl) == s);
        assert(msf_inner(ctx) == i);
        lemma_split_points_increasing(rdl, s, i, n);
        let pts = split_points(rdl, s, i, n);
        if n == 2 {
            assert(pts[0] == s + i);
        } else {
            assert(pts[1] == s + i);
        }
    }
}

/// Law: the two segments TCP split sends are non-empty and join, in
/// order, into the payload.
pub proof fn lemma_tcp_split_rejoins(ctx: &PayloadContext, split_pos: SplitPosition, r: Result<DesyncAction, Error>)
    requires
        tcp_split_result(ctx, split_pos, r),
    ensures
        r matches Ok(a) ==> (a@ matches DesyncActionView::Split(cs) ==> {
            &&& cs.len() == 2
            &&& cs[0].len() > 0 && cs[1].len() > 0
            &&& cs[0] + cs[1] == ctx.payload@
        }),
{
    let p = ctx.payload@;
    let o = choose|o: Option<usize>|
        #[trigger] resolves_to(p.len() as int, ctx.protocol@, split_pos, o) && match o {
            None => crate::technique::refused(r),
            Some(o) => gives(r, crate::tcp_split::tcp_split_outcome(p, o)),
        };
    assert(resolves_to(p.len() as int, ctx.protocol@, split_pos, o));
    if let Some(o) = o {
        assert(gives(r, crate::tcp_split::tcp_split_outcome(p, o)));
        if 0 < o < p.len() {
            assert(p.subrange(0, o as int) + p.subrange(o as int, p.len() as int) =~= p);
        }
    } else {
        assert(crate::technique::refused(r));
    }
}

/// Law: the two segments disorder sends are non-empty, and the second
/// followed by the first is the payload.
pub proof fn lemma_disorder_rejoins(ctx: &PayloadContext, split_pos: SplitPosition, r: Result<DesyncAction, Error>)
    requires
        disorder_result(ctx, split_pos, r),
    ensures
        r matches Ok(a) ==> (a@ matches DesyncActionView::Split(cs) ==> {
            &&& cs.len() == 2
            &&& cs[0].len() > 0 && cs[1].len() > 0
            &&& cs[1] + cs[0] == ctx.payload@
        }),
{
    let p = ctx.payload@;
    let o = choose|o: Option<usize>|
        #[trigger] resolves_to(p.len() as int, ctx.protocol@, split_pos, o) && match o {
            None => crate::technique::refused(r),
            Some(o) => gives(r, crate::disorder::disorder_outcome(p, o)),
        };
    if let Some(o) = o {
        if 0 < o < p.len() {
            assert(p.subrange(0, o as int) + p.subrange(o as int, p.len() as int) =~= p);
        }
    }
}

/// Law: the two segments slow split sends join, in order, into the
/// payload.
pub proof fn lemma_slow_split_rejoins(
    ctx: &PayloadContext,
    split_pos: SplitPosition,
    stealth: Option<&crate::types::StealthConfig>,
    r: Result<DesyncAction, Error>,
)
    requires
        slow_split_result(ctx, split_pos, stealth, r),
    ensures
        r matches Ok(a) ==> (a@ matches DesyncActionView::SlowSplit { chunks: cs, .. } ==> {
            &&& cs.len() == 2
            &&& cs[0] + cs[1] == ctx.payload@
        }),
{
    let p = ctx.payload@;
    let o = choose|o: Option<usize>|
        #[trigger] resolves_to(p.len() as int, ctx.protocol@, split_pos, o) && match o {
            None => crate::technique::refused(r),
            Some(o) => gives(r, crate::slow_split::slow_split_outcome(p, o, stealth)),
        };
    if let Some(o) = o {
        if o < p.len() {
            assert(p.subrange(0, o as int) + p.subrange(o as int, p.len() as int) =~= p);
        }
    }
}

} // verus!
