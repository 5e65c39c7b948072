//! The typed data model: the fixed-width normalized row, the session
//! summary, the structured query types, and record normalization.

use crate::timestamp::ts_norm;
use crate::types::{ParseError, ParsedMessage, RecordView};
use vstd::prelude::*;
use vstd::string::StringSliceAdditionalSpecFns;

verus! {

/// Aggregate over a full session: row count, timestamp bounds, and the
/// distinct value sets of the stream, function and tag columns, each
/// sorted ascending, with zero-valued tags excluded.
#[derive(Debug, Clone)]
pub struct SessionMeta {
    pub row_count: usize,
    pub t_min_ns: i64,
    pub t_max_ns: i64,
    pub distinct_s: Vec<u8>,
    pub distinct_f: Vec<u8>,
    pub distinct_ceid: Vec<u32>,
    pub distinct_vid: Vec<u32>,
    pub distinct_rptid: Vec<u32>,
}

/// Mathematical view of a session summary.
pub struct MetaV {
    pub row_count: int,
    pub t_min_ns: i64,
    pub t_max_ns: i64,
    pub distinct_s: Seq<u8>,
    pub distinct_f: Seq<u8>,
    pub distinct_ceid: Seq<u32>,
    pub distinct_vid: Seq<u32>,
    pub distinct_rptid: Seq<u32>,
}

impl View for SessionMeta {
    type V = MetaV;

    open spec fn view(&self) -> MetaV {
        MetaV {
            row_count: self.row_count as int,
            t_min_ns: self.t_min_ns,
            t_max_ns: self.t_max_ns,
            distinct_s: self.distinct_s@,
            distinct_f: self.distinct_f@,
            distinct_ceid: self.distinct_ceid@,
            distinct_vid: self.distinct_vid@,
            distinct_rptid: self.distinct_rptid@,
        }
    }
}

/// What session creation hands back to the caller.
#[derive(Debug, Clone)]
pub struct CreateSessionResponse {
    pub session_id: String,
}

/// Inclusive time window; `0` on either bound means unconstrained.
#[derive(Debug, Clone)]
pub struct TimeFilter {
    pub from_ns: i64,
    pub to_ns: i64,
}

impl Default for TimeFilter {
    fn default() -> (r: Self)
        ensures
            r.from_ns == 0 && r.to_ns == 0,
    {
        TimeFilter { from_ns: 0, to_ns: 0 }
    }
}

/// A conjunctive query: every present constraint must hold. Empty sets
/// and zero bounds are unconstrained; `dir` is `0` for both directions;
/// `text` is a case-insensitive substring over the row's payload.
#[derive(Debug, Clone)]
pub struct FilterExpr {
    pub time: TimeFilter,
    pub dir: i8,
    pub s: Vec<u8>,
    pub f: Vec<u8>,
    pub ceid: Vec<u32>,
    pub vid: Vec<u32>,
    pub rptid: Vec<u32>,
    pub text: String,
}

/// Mathematical view of a filter.
pub struct FilterV {
    pub from_ns: i64,
    pub to_ns: i64,
    pub dir: i8,
    pub s: Seq<u8>,
    pub f: Seq<u8>,
    pub ceid: Seq<u32>,
    pub vid: Seq<u32>,
    pub rptid: Seq<u32>,
    pub text: Seq<char>,
}

impl View for FilterExpr {
    type V = FilterV;

    open spec fn view(&self) -> FilterV {
        FilterV {
            from_ns: self.time.from_ns,
            to_ns: self.time.to_ns,
            dir: self.dir,
            s: self.s@,
            f: self.f@,
            ceid: self.ceid@,
            vid: self.vid@,
            rptid: self.rptid@,
            text: self.text@,
        }
    }
}

/// Row highlighting hints; accepted with a search and echoed to the
/// caller's side, never part of filter evaluation.
#[derive(Debug, Clone)]
pub struct HighlightExpr {
    pub ceid: Vec<u32>,
    pub vid: Vec<u32>,
    pub rptid: Vec<u32>,
    pub sxfy: Vec<SxFy>,
    pub unanswered: bool,
}

/// A stream/function code pair.
#[derive(Debug, Clone)]
pub struct SxFy {
    pub s: u8,
    pub f: u8,
}

/// A search: a filter plus optional highlighting hints.
#[derive(Debug, Clone)]
pub struct SearchRequest {
    pub filter: FilterExpr,
    pub highlight: Option<HighlightExpr>,
}

/// The normalized, fixed-width form of one message, ready for columnar
/// storage. `dir` is `+1` or `-1`, never `0`; `row_id` is dense and
/// ordered by ingestion. The payload text rides along until it is put
/// into the payload store.
#[derive(Debug, Clone)]
pub struct ConvertedMessage {
    pub ts_ns: i64,
    pub dir: i8,
    pub s: u8,
    pub f: u8,
    pub wbit: u8,
    pub sysbytes: u32,
    pub ceid: u32,
    pub vid: u32,
    pub rptid: u32,
    pub row_id: u32,
    pub body_json: String,
}

/// Mathematical view of a normalized message.
pub struct ConvertedView {
    pub ts_ns: i64,
    pub dir: i8,
    pub s: u8,
    pub f: u8,
    pub wbit: u8,
    pub sysbytes: u32,
    pub ceid: u32,
    pub vid: u32,
    pub rptid: u32,
    pub row_id: u32,
    pub body_json: Seq<char>,
}

impl View for ConvertedMessage {
    type V = ConvertedView;

    open spec fn view(&self) -> ConvertedView {
        ConvertedView {
            ts_ns: self.ts_ns,
            dir: self.dir,
            s: self.s,
            f: self.f,
            wbit: self.wbit,
            sysbytes: self.sysbytes,
            ceid: self.ceid,
            vid: self.vid,
            rptid: self.rptid,
            row_id: self.row_id,
            body_json: self.body_json@,
        }
    }
}

/// The ten scalar columns of one row, as stored in a chunk.
pub struct RowV {
    pub ts_ns: i64,
    pub dir: i8,
    pub s: u8,
    pub f: u8,
    pub wbit: u8,
    pub sysbytes: u32,
    pub ceid: u32,
    pub vid: u32,
    pub rptid: u32,
    pub row_id: u32,
}

impl ConvertedView {
    /// The scalar columns of this message, body left aside.
    pub open spec fn row(self) -> RowV {
        RowV {
            ts_ns: self.ts_ns,
            dir: self.dir,
            s: self.s,
            f: self.f,
            wbit: self.wbit,
            sysbytes: self.sysbytes,
            ceid: self.ceid,
            vid: self.vid,
            rptid: self.rptid,
            row_id: self.row_id,
        }
    }
}

/// Direction code of a direction string: exactly `"H->E"` maps to `+1`
/// and `"E->H"` to `-1`; everything else is rejected. `0` is never
/// produced: it is reserved for "unconstrained" in `FilterExpr`.
pub open spec fn dir_code_of(s: Seq<char>) -> Option<i8> {
    if s == "H->E"@ {
        Option::Some(1i8)
    } else if s == "E->H"@ {
        Option::Some(-1i8)
    } else {
        Option::None
    }
}

/// Can this record be normalized: its timestamp parses and is in
/// range, and its direction is one of the two accepted codes.
pub open spec fn can_norm(m: RecordView) -> bool {
    &&& ts_norm(vstd::utf8::encode_utf8(m.ts_iso)) is Some
    &&& dir_code_of(m.dir) is Some
}

/// The normalized form of a record under a given row identifier.
pub open spec fn norm_view(m: RecordView, rid: u32) -> ConvertedView {
    ConvertedView {
        ts_ns: ts_norm(vstd::utf8::encode_utf8(m.ts_iso))->Some_0 as i64,
        dir: dir_code_of(m.dir)->Some_0,
        s: m.s,
        f: m.f,
        wbit: m.wbit,
        sysbytes: m.sysbytes,
        ceid: m.ceid,
        vid: m.vid,
        rptid: m.rptid,
        row_id: rid,
        body_json: m.body_json,
    }
}

impl ConvertedMessage {
    /// Normalizes one decoded record: timestamp to UTC nanoseconds,
    /// direction string to its `±1` code, the caller-assigned row
    /// identifier attached, tags and body carried through.
    ///
    /// Fails with `InvalidTimestamp` exactly when the timestamp does
    /// not parse (checked first), and with `InvalidDirection` exactly
    /// when it does but the direction string is neither accepted code.
    pub fn from_parsed(msg: ParsedMessage, row_id: u32) -> (r: Result<
        ConvertedMessage,
        ParseError,
    >)
        ensures
            r matches Ok(c) ==> can_norm(msg@) && c@ == norm_view(msg@, row_id),
            r matches Err(e) ==> !can_norm(msg@) && match e {
                ParseError::InvalidTimestamp(t) => t@ == msg.ts_iso@ && ts_norm(
                    vstd::utf8::encode_utf8(msg.ts_iso@),
                ) is None,
                ParseError::InvalidDirection(t) => t@ == msg.dir@ && ts_norm(
                    vstd::utf8::encode_utf8(msg.ts_iso@),
                ) is Some && dir_code_of(msg.dir@) is None,
                _ => false,
            },
    {
        let ts_ns = match crate::timestamp::parse_timestamp(msg.ts_iso.as_str()) {
            Option::Some(v) => v,
            Option::None => {
                return Err(ParseError::InvalidTimestamp(msg.ts_iso));
            },
        };
        let dir: i8 = if crate::text::str_eq(msg.dir.as_str(), "H->E") {
            1
        } else if crate::text::str_eq(msg.dir.as_str(), "E->H") {
            -1
        } else {
            return Err(ParseError::InvalidDirection(msg.dir));
        };
        Ok(
            ConvertedMessage {
                ts_ns,
                dir,
                s: msg.s,
                f: msg.f,
                wbit: msg.wbit,
                sysbytes: msg.sysbytes,
                ceid: msg.ceid,
                vid: msg.vid,
                rptid: msg.rptid,
                row_id,
                body_json: msg.body_json,
            },
        )
    }
}

/// Direction mapping is a bijection between the two accepted codes and
/// `{+1, -1}`: each code maps to its value, nothing else is accepted,
/// and equal values come only from equal codes.
pub proof fn lemma_direction_bijection(a: Seq<char>, b: Seq<char>)
    ensures
        dir_code_of("H->E"@) == Option::Some(1i8),
        dir_code_of("E->H"@) == Option::Some(-1i8),
        dir_code_of(a) is Some ==> a == "H->E"@ || a == "E->H"@,
        dir_code_of(a) is Some && dir_code_of(a) == dir_code_of(b) ==> a == b,
{
    reveal_strlit("H->E");
    reveal_strlit("E->H");
    assert("H->E"@[0] == 'H' && "E->H"@[0] == 'E');
}

/// Normalizes a whole decoded batch, assigning row identifiers in
/// ingestion order, starting at `0`. The first record that cannot be
/// normalized aborts the conversion with its error.
pub fn convert_messages(parsed: Vec<ParsedMessage>) -> (r: Result<
    Vec<ConvertedMessage>,
    ParseError,
>)
    requires
        parsed@.len() <= u32::MAX,
    ensures
        (r is Ok) == (forall|j: int| 0 <= j < parsed@.len() ==> can_norm(#[trigger] parsed@[j]@)),
        r matches Ok(v) ==> {
            &&& v@.len() == parsed@.len()
            &&& forall|j: int|
                0 <= j < parsed@.len() ==> #[trigger] v@[j]@ == norm_view(parsed@[j]@, j as u32)
        },
        r matches Err(e) ==> exists|j: int|
            {
                &&& 0 <= j < parsed@.len()
                &&& !can_norm(#[trigger] parsed@[j]@)
                &&& forall|k: int| 0 <= k < j ==> can_norm(#[trigger] parsed@[k]@)
                &&& match e {
                    ParseError::InvalidTimestamp(t) => t@ == parsed@[j]@.ts_iso,
                    ParseError::InvalidDirection(t) => t@ == parsed@[j]@.dir,
                    _ => false,
                }
            },
{
    let n = parsed.len();
    let mut out: Vec<ConvertedMessage> = Vec::new();
    let mut i: usize = 0;
    while i < n
        invariant
            0 <= i <= n == parsed@.len(),
            n <= u32::MAX,
            out@.len() == i,
            forall|k: int| 0 <= k < i ==> can_norm(#[trigger] parsed@[k]@),
            forall|k: int| 0 <= k < i ==> #[trigger] out@[k]@ == norm_view(parsed@[k]@, k as u32),
        decreases n - i,
    {
        let m = &parsed[i];
        // String clones preserve the value, so the copy's view is the
        // record's view.
        let msg = ParsedMessage {
            ts_iso: m.ts_iso.clone(),
            dir: m.dir.clone(),
            s: m.s,
            f: m.f,
            wbit: m.wbit,
            sysbytes: m.sysbytes,
            ceid: m.ceid,
            vid: m.vid,
            rptid: m.rptid,
            body_json: m.body_json.clone(),
        };
        proof {
            assert(msg@ == parsed@[i as int]@);
        }
        match ConvertedMessage::from_parsed(msg, i as u32) {
            Ok(c) => {
                out.push(c);
            },
            Err(e) => {
                proof {
                    assert(!can_norm(parsed@[i as int]@));
                }
                return Err(e);
            },
        }
        i = i + 1;
    }
    Ok(out)
}

} // verus!
