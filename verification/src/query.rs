//! The query engine: a full linear scan over a session's chunks,
//! evaluating the filter as a strict conjunction per row and, for text
//! queries, joining against the payload store with a case-insensitive
//! substring match. Output preserves chunk and row ingestion order.

use crate::columnar::ArrowBuilder;
use crate::models::{ConvertedMessage, FilterExpr, FilterV, RowV};
use crate::storage::{SessionStorage, StoreError};
use crate::text::{contains_seq, slice_contains};
use vstd::prelude::*;
use vstd::string::StringSliceAdditionalSpecFns;
use vstd::utf8::encode_utf8;

verus! {

/// Lowercased form of a byte string, as `str::to_lowercase` yields
/// it. A function of the bytes alone.
pub uninterp spec fn lower_of(b: Seq<u8>) -> Seq<u8>;

/// Relies on `str::to_lowercase`: the result depends on the
/// characters alone.
#[verifier::external_body]
fn lower(s: &str) -> (r: String)
    ensures
        encode_utf8(r@) == lower_of(s.spec_bytes()),
{
    s.to_lowercase()
}

/// Every scalar constraint of the filter, as a strict conjunction; an
/// empty set or a zero bound is unconstrained.
pub open spec fn scalar_pass(row: RowV, fv: FilterV) -> bool {
    &&& (fv.dir == 0 || fv.dir == row.dir)
    &&& (fv.s.len() == 0 || fv.s.contains(row.s))
    &&& (fv.f.len() == 0 || fv.f.contains(row.f))
    &&& (fv.ceid.len() == 0 || fv.ceid.contains(row.ceid))
    &&& (fv.vid.len() == 0 || fv.vid.contains(row.vid))
    &&& (fv.rptid.len() == 0 || fv.rptid.contains(row.rptid))
    &&& (fv.from_ns <= 0 || row.ts_ns >= fv.from_ns)
    &&& (fv.to_ns <= 0 || row.ts_ns <= fv.to_ns)
}

/// The payload context of a search: the store and the session to join
/// text queries against, when both are supplied.
pub open spec fn text_ctx(
    storage: Option<&SessionStorage>,
    session_id: Option<&str>,
) -> Option<(SessionStorage, Seq<char>)> {
    match (storage, session_id) {
        (Option::Some(st), Option::Some(sid)) => Option::Some((*st, sid@)),
        _ => Option::None,
    }
}

/// The text constraint: vacuous without a term or without a payload
/// context; otherwise the row's payload must exist and contain the
/// term, both lowercased. A row whose payload is missing is excluded
/// rather than an error.
pub open spec fn text_pass(rid: u32, fv: FilterV, ctx: Option<(SessionStorage, Seq<char>)>) -> bool {
    if fv.text.len() == 0 {
        true
    } else {
        match ctx {
            Option::None => true,
            Option::Some(c) => {
                &&& c.0.has_session(c.1)
                &&& c.0.session_at(c.1).has_payload(rid)
                &&& contains_seq(
                    lower_of(encode_utf8(c.0.session_at(c.1).payload_at(rid))),
                    lower_of(encode_utf8(fv.text)),
                )
            },
        }
    }
}

/// One row passes the whole filter.
pub open spec fn row_pass(row: RowV, fv: FilterV, ctx: Option<(SessionStorage, Seq<char>)>) -> bool {
    scalar_pass(row, fv) && text_pass(row.row_id, fv, ctx)
}

/// The rows among the first `i` that pass the filter, in order.
pub open spec fn filtered_upto(
    rows: Seq<RowV>,
    fv: FilterV,
    ctx: Option<(SessionStorage, Seq<char>)>,
    i: int,
) -> Seq<RowV>
    decreases i,
{
    if i <= 0 {
        Seq::empty()
    } else {
        let prev = filtered_upto(rows, fv, ctx, i - 1);
        if row_pass(rows[i - 1], fv, ctx) {
            prev.push(rows[i - 1])
        } else {
            prev
        }
    }
}

/// The scalar views of a result batch.
pub open spec fn result_rows(v: Seq<ConvertedMessage>) -> Seq<RowV> {
    Seq::new(v.len(), |i: int| v[i]@.row())
}

/// Whether `x` occurs in the vector.
fn contains_u8(v: &Vec<u8>, x: u8) -> (r: bool)
    ensures
        r == v@.contains(x),
{
    let n = v.len();
    let mut i: usize = 0;
    while i < n
        invariant
            0 <= i <= n == v@.len(),
            forall|k: int| 0 <= k < i ==> v@[k] != x,
        decreases n - i,
    {
        if v[i] == x {
            return true;
        }
        i = i + 1;
    }
    false
}

/// Whether `x` occurs in the vector.
fn contains_u32(v: &Vec<u32>, x: u32) -> (r: bool)
    ensures
        r == v@.contains(x),
{
    let n = v.len();
    let mut i: usize = 0;
    while i < n
        invariant
            0 <= i <= n == v@.len(),
            forall|k: int| 0 <= k < i ==> v@[k] != x,
        decreases n - i,
    {
        if v[i] == x {
            return true;
        }
        i = i + 1;
    }
    false
}

/// Filters one chunk: each row is checked against the scalar
/// constraints and, when a text term and a payload context are
/// present, against the payload join. The result carries the matching
/// rows in order, bodies left empty.
pub fn apply_filter(
    chunk: &ArrowBuilder,
    filter: &FilterExpr,
    storage: Option<&SessionStorage>,
    session_id: Option<&str>,
) -> (r: Vec<ConvertedMessage>)
    requires
        chunk.wf(),
        storage matches Some(st) ==> st.wf(),
    ensures
        result_rows(r@) == filtered_upto(
            chunk.rows(),
            filter@,
            text_ctx(storage, session_id),
            chunk.rows().len() as int,
        ),
        forall|i: int| 0 <= i < r@.len() ==> (#[trigger] r@[i])@.body_json == Seq::<char>::empty(),
{
    let ghost fv = filter@;
    let ghost ctx = text_ctx(storage, session_id);
    let has_text = filter.text.as_str().unicode_len() > 0;
    let term_low = lower(filter.text.as_str());
    let n = chunk.len();
    let mut out: Vec<ConvertedMessage> = Vec::new();
    proof {
        assert(result_rows(out@) =~= filtered_upto(chunk.rows(), fv, ctx, 0));
    }
    let mut i: usize = 0;
    while i < n
        invariant
            0 <= i <= n == chunk.rows().len(),
            chunk.wf(),
            fv == filter@,
            ctx == text_ctx(storage, session_id),
            storage matches Some(st) ==> st.wf(),
            has_text == (fv.text.len() > 0),
            encode_utf8(term_low@) == lower_of(encode_utf8(fv.text)),
            result_rows(out@) == filtered_upto(chunk.rows(), fv, ctx, i as int),
            forall|k: int|
                0 <= k < out@.len() ==> (#[trigger] out@[k])@.body_json == Seq::<char>::empty(),
        decreases n - i,
    {
        let row = chunk.row_at(i);
        proof {
            assert(row@.row() == chunk.rows()[i as int]);
        }
        let pass = (filter.dir == 0 || filter.dir == row.dir) && (filter.s.len() == 0
            || contains_u8(&filter.s, row.s)) && (filter.f.len() == 0 || contains_u8(
            &filter.f,
            row.f,
        )) && (filter.ceid.len() == 0 || contains_u32(&filter.ceid, row.ceid)) && (
        filter.vid.len() == 0 || contains_u32(&filter.vid, row.vid)) && (filter.rptid.len() == 0
            || contains_u32(&filter.rptid, row.rptid)) && (filter.time.from_ns <= 0 || row.ts_ns
            >= filter.time.from_ns) && (filter.time.to_ns <= 0 || row.ts_ns
            <= filter.time.to_ns);
        let tpass = if !has_text {
            true
        } else {
            match (storage, session_id) {
                (Option::Some(st), Option::Some(sid)) => {
                    match st.read_payload(sid, row.row_id) {
                        Result::Ok(b) => {
                            let body_low = lower(b.as_str());
                            slice_contains(
                                body_low.as_str().as_bytes(),
                                term_low.as_str().as_bytes(),
                            )
                        },
                        Result::Err(_) => false,
                    }
                },
                _ => true,
            }
        };
        proof {
            assert(pass == scalar_pass(chunk.rows()[i as int], fv));
            assert(tpass == text_pass(chunk.rows()[i as int].row_id, fv, ctx));
        }
        if pass && tpass {
            let ghost before = out@;
            out.push(row);
            proof {
                assert(result_rows(out@) =~= result_rows(before).push(
                    chunk.rows()[i as int],
                ));
            }
        }
        i = i + 1;
    }
    out
}

/// The session's rows that pass the filter, chunk by chunk in
/// ascending order.
pub open spec fn session_filtered(
    chunks: Seq<ArrowBuilder>,
    fv: FilterV,
    ctx: Option<(SessionStorage, Seq<char>)>,
    i: int,
) -> Seq<RowV>
    decreases i,
{
    if i <= 0 {
        Seq::empty()
    } else {
        session_filtered(chunks, fv, ctx, i - 1) + filtered_upto(
            chunks[i - 1].rows(),
            fv,
            ctx,
            chunks[i - 1].rows().len() as int,
        )
    }
}

/// All of the session's rows, chunk by chunk in ascending order.
pub open spec fn session_rows(chunks: Seq<ArrowBuilder>, i: int) -> Seq<RowV>
    decreases i,
{
    if i <= 0 {
        Seq::empty()
    } else {
        session_rows(chunks, i - 1) + chunks[i - 1].rows()
    }
}

/// Scans a session: every chunk in ascending order, every row against
/// the filter, text queries joined against the session's payloads.
pub fn search_session(storage: &SessionStorage, session_id: &str, filter: &FilterExpr) -> (r:
    Result<Vec<ConvertedMessage>, StoreError>)
    requires
        storage.wf(),
    ensures
        (r is Ok) == storage.has_session(session_id@),
        r is Err ==> r matches Err(StoreError::SessionNotFound),
        r matches Ok(v) ==> ({
            let sd = storage.session_at(session_id@);
            let ctx = Option::Some((*storage, session_id@));
            &&& result_rows(v@) == session_filtered(
                sd.chunks@,
                filter@,
                ctx,
                sd.chunks@.len() as int,
            )
            &&& forall|i: int|
                0 <= i < v@.len() ==> (#[trigger] v@[i])@.body_json == Seq::<char>::empty()
        }),
{
    let nchunks = match storage.chunk_count(session_id) {
        Option::Some(c) => c,
        Option::None => {
            return Result::Err(StoreError::SessionNotFound);
        },
    };
    let ghost sd = storage.session_at(session_id@);
    let ghost ctx = Option::Some((*storage, session_id@));
    let mut out: Vec<ConvertedMessage> = Vec::new();
    proof {
        assert(result_rows(out@) =~= session_filtered(sd.chunks@, filter@, ctx, 0));
    }
    let mut c: usize = 0;
    while c < nchunks
        invariant
            0 <= c <= nchunks,
            storage.wf(),
            storage.has_session(session_id@),
            sd == storage.session_at(session_id@),
            ctx == Option::Some((*storage, session_id@)),
            nchunks == sd.chunks@.len(),
            result_rows(out@) == session_filtered(sd.chunks@, filter@, ctx, c as int),
            forall|k: int|
                0 <= k < out@.len() ==> (#[trigger] out@[k])@.body_json == Seq::<char>::empty(),
        decreases nchunks - c,
    {
        let chunk = storage.chunk_ref(session_id, c);
        let mut part = apply_filter(chunk, filter, Option::Some(storage), Option::Some(session_id));
        let ghost before = out@;
        let ghost part_view = part@;
        out.append(&mut part);
        proof {
            assert(out@ =~= before + part_view);
            assert(result_rows(out@) =~= result_rows(before) + result_rows(part_view));
        }
        c = c + 1;
    }
    Result::Ok(out)
}

/// Gathers rows chunk by chunk until at least `limit` rows have been
/// taken; whole chunks are taken, so the cut is at a chunk boundary.
pub open spec fn gather_upto(chunks: Seq<ArrowBuilder>, limit: int, i: int) -> Seq<RowV>
    decreases i,
{
    if i <= 0 {
        Seq::empty()
    } else {
        let prev = gather_upto(chunks, limit, i - 1);
        if prev.len() >= limit {
            prev
        } else {
            prev + chunks[i - 1].rows()
        }
    }
}

/// Reads a session's rows back in ingestion order, whole chunks at a
/// time, stopping once at least `limit` rows have been gathered.
pub fn collect_rows(storage: &SessionStorage, session_id: &str, limit: usize) -> (r: Result<
    Vec<ConvertedMessage>,
    StoreError,
>)
    requires
        storage.wf(),
    ensures
        (r is Ok) == storage.has_session(session_id@),
        r is Err ==> r matches Err(StoreError::SessionNotFound),
        r matches Ok(v) ==> ({
            let sd = storage.session_at(session_id@);
            result_rows(v@) == gather_upto(sd.chunks@, limit as int, sd.chunks@.len() as int)
        }),
{
    let nchunks = match storage.chunk_count(session_id) {
        Option::Some(c) => c,
        Option::None => {
            return Result::Err(StoreError::SessionNotFound);
        },
    };
    let ghost sd = storage.session_at(session_id@);
    let mut out: Vec<ConvertedMessage> = Vec::new();
    proof {
        assert(result_rows(out@) =~= gather_upto(sd.chunks@, limit as int, 0));
    }
    let mut c: usize = 0;
    while c < nchunks
        invariant
            0 <= c <= nchunks,
            storage.wf(),
            storage.has_session(session_id@),
            sd == storage.session_at(session_id@),
            nchunks == sd.chunks@.len(),
            result_rows(out@) == gather_upto(sd.chunks@, limit as int, c as int),
        decreases nchunks - c,
    {
        if out.len() >= limit {
            proof {
                lemma_gather_stops(sd.chunks@, limit as int, c as int, nchunks as int);
            }
            return Result::Ok(out);
        }
        let chunk = storage.chunk_ref(session_id, c);
        let m = chunk.len();
        let ghost chunk_rows = chunk.rows();
        let mut o: usize = 0;
        while o < m
            invariant
                0 <= o <= m == chunk_rows.len(),
                chunk.wf(),
                chunk_rows == chunk.rows(),
                result_rows(out@) == gather_upto(sd.chunks@, limit as int, c as int)
                    + chunk_rows.subrange(0, o as int),
            decreases m - o,
        {
            let row = chunk.row_at(o);
            let ghost before = out@;
            out.push(row);
            proof {
                assert(result_rows(out@) =~= result_rows(before).push(chunk_rows[o as int]));
                assert(chunk_rows.subrange(0, o as int).push(chunk_rows[o as int])
                    =~= chunk_rows.subrange(0, o as int + 1));
                assert(result_rows(out@) =~= gather_upto(sd.chunks@, limit as int, c as int)
                    + chunk_rows.subrange(0, o as int + 1));
            }
            o = o + 1;
        }
        proof {
            assert(chunk_rows.subrange(0, m as int) =~= chunk_rows);
        }
        c = c + 1;
    }
    Result::Ok(out)
}

/// Once enough rows are gathered, later chunks add nothing.
proof fn lemma_gather_stops(chunks: Seq<ArrowBuilder>, limit: int, i: int, k: int)
    requires
        gather_upto(chunks, limit, i).len() >= limit,
        0 <= i <= k,
    ensures
        gather_upto(chunks, limit, k) == gather_upto(chunks, limit, i),
    decreases k - i,
{
    if i < k {
        lemma_gather_stops(chunks, limit, i, k - 1);
    }
}

/// The default row limit when a caller names none.
pub fn default_limit() -> (r: usize)
    ensures
        r == 50000,
{
    50000
}

/// A filter with every field empty or zero.
pub open spec fn unconstrained(fv: FilterV) -> bool {
    &&& fv.dir == 0
    &&& fv.s.len() == 0
    &&& fv.f.len() == 0
    &&& fv.ceid.len() == 0
    &&& fv.vid.len() == 0
    &&& fv.rptid.len() == 0
    &&& fv.text.len() == 0
    &&& fv.from_ns == 0
    &&& fv.to_ns == 0
}

/// An unconstrained filter matches every row: the scan of a chunk's
/// first `i` rows returns exactly those rows, in their original order.
pub proof fn lemma_empty_filter_matches_all(
    rows: Seq<RowV>,
    fv: FilterV,
    ctx: Option<(SessionStorage, Seq<char>)>,
    i: int,
)
    requires
        unconstrained(fv),
        0 <= i <= rows.len(),
    ensures
        filtered_upto(rows, fv, ctx, i) == rows.subrange(0, i),
    decreases i,
{
    if i > 0 {
        lemma_empty_filter_matches_all(rows, fv, ctx, i - 1);
        assert(rows.subrange(0, i - 1).push(rows[i - 1]) =~= rows.subrange(0, i));
    } else {
        assert(filtered_upto(rows, fv, ctx, 0) =~= rows.subrange(0, 0));
    }
}

/// An unconstrained filter returns the whole session: every row of
/// every chunk, in ingestion order.
pub proof fn lemma_empty_filter_whole_session(
    chunks: Seq<ArrowBuilder>,
    fv: FilterV,
    ctx: Option<(SessionStorage, Seq<char>)>,
    i: int,
)
    requires
        unconstrained(fv),
        0 <= i <= chunks.len(),
    ensures
        session_filtered(chunks, fv, ctx, i) == session_rows(chunks, i),
    decreases i,
{
    if i > 0 {
        lemma_empty_filter_whole_session(chunks, fv, ctx, i - 1);
        let rs = chunks[i - 1].rows();
        lemma_empty_filter_matches_all(rs, fv, ctx, rs.len() as int);
        assert(rs.subrange(0, rs.len() as int) =~= rs);
    }
}

/// Every row a scan returns passed the whole conjunction of the
/// filter's constraints.
pub proof fn lemma_filtered_sound(
    rows: Seq<RowV>,
    fv: FilterV,
    ctx: Option<(SessionStorage, Seq<char>)>,
    i: int,
    r: RowV,
)
    requires
        0 <= i <= rows.len(),
        filtered_upto(rows, fv, ctx, i).contains(r),
    ensures
        row_pass(r, fv, ctx),
    decreases i,
{
    if i > 0 {
        let prev = filtered_upto(rows, fv, ctx, i - 1);
        if row_pass(rows[i - 1], fv, ctx) {
            let cur = prev.push(rows[i - 1]);
            let k = choose|k: int| 0 <= k < cur.len() && cur[k] == r;
            if k == prev.len() {
                assert(r == rows[i - 1]);
            } else {
                assert(prev.contains(r)) by {
                    assert(prev[k] == r);
                }
                lemma_filtered_sound(rows, fv, ctx, i - 1, r);
            }
        } else {
            lemma_filtered_sound(rows, fv, ctx, i - 1, r);
        }
    }
}

/// Combining a non-empty stream-code set with a time window returns
/// only rows satisfying both at once: a conjunction, not a union.
pub proof fn lemma_set_and_window_conjunction(
    rows: Seq<RowV>,
    fv: FilterV,
    ctx: Option<(SessionStorage, Seq<char>)>,
    i: int,
    r: RowV,
)
    requires
        0 <= i <= rows.len(),
        fv.s.len() > 0,
        filtered_upto(rows, fv, ctx, i).contains(r),
    ensures
        fv.s.contains(r.s),
        fv.from_ns > 0 ==> r.ts_ns >= fv.from_ns,
        fv.to_ns > 0 ==> r.ts_ns <= fv.to_ns,
{
    lemma_filtered_sound(rows, fv, ctx, i, r);
}

/// The first `i` rows of a batch, as scalar rows.
pub open spec fn batch_rows(ms: Seq<ConvertedMessage>, i: int) -> Seq<RowV> {
    Seq::new(i as nat, |j: int| ms[j]@.row())
}

/// A session filled by ingestion holds, chunk by chunk, exactly the
/// ingested batch's scalar rows in ingestion order: reading the
/// chunks back in ascending order replays the batch.
pub proof fn lemma_ingested_session_rows(chunks: Seq<ArrowBuilder>, ms: Seq<ConvertedMessage>, c: int)
    requires
        0 <= c <= chunks.len(),
        chunks.len() == ms.len() / 50000 + if ms.len() % 50000 > 0 {
            1int
        } else {
            0int
        },
        forall|i: int|
            0 <= i < ms.len() as int / 50000 ==> (#[trigger] chunks[i]).rows().len() == 50000,
        ms.len() % 50000 > 0 ==> chunks[ms.len() as int / 50000].rows().len() == ms.len() % 50000,
        forall|j: int|
            0 <= j < ms.len() ==> (#[trigger] chunks[j / 50000]).rows()[j % 50000] == ms[j]@.row(),
    ensures
        session_rows(chunks, c) == batch_rows(
            ms,
            if c * 50000 <= ms.len() {
                c * 50000
            } else {
                ms.len() as int
            },
        ),
    decreases c,
{
    let n = ms.len() as int;
    let k = n / 50000;
    let r = n % 50000;
    assert(k * 50000 + r == n && 0 <= r < 50000) by (nonlinear_arith)
        requires
            k == n / 50000,
            r == n % 50000,
            n >= 0;
    if c == 0 {
        assert(session_rows(chunks, 0) =~= batch_rows(ms, 0));
    } else {
        lemma_ingested_session_rows(chunks, ms, c - 1);
        let lo = if (c - 1) * 50000 <= n {
            (c - 1) * 50000
        } else {
            n
        };
        let hi = if c * 50000 <= n {
            c * 50000
        } else {
            n
        };
        // The rows of chunk `c - 1` are the batch segment `[lo, hi)`.
        assert((c - 1) * 50000 <= n) by (nonlinear_arith)
            requires
                c <= chunks.len(),
                chunks.len() == k + if r > 0 {
                    1int
                } else {
                    0int
                },
                k * 50000 + r == n,
                0 <= r < 50000,
                c >= 1;
        assert(chunks[c - 1].rows().len() == hi - lo) by {
            if c - 1 < k {
                assert(c * 50000 <= n) by (nonlinear_arith)
                    requires
                        c <= k,
                        k * 50000 + r == n,
                        0 <= r;
            } else {
                assert(c - 1 == k && r > 0);
                assert(n < c * 50000) by (nonlinear_arith)
                    requires
                        c - 1 == k,
                        k * 50000 + r == n,
                        r < 50000;
            }
        }
        assert(chunks[c - 1].rows() =~= batch_rows(ms, hi).subrange(lo, hi)) by {
            assert forall|o: int| 0 <= o < hi - lo implies #[trigger] chunks[c - 1].rows()[o]
                == ms[lo + o]@.row() by {
                let j = lo + o;
                assert(j / 50000 == c - 1 && j % 50000 == o) by (nonlinear_arith)
                    requires
                        j == (c - 1) * 50000 + o,
                        0 <= o < 50000,
                        c >= 1;
            }
        }
        assert(session_rows(chunks, c) =~= batch_rows(ms, hi));
    }
}

} // verus!
