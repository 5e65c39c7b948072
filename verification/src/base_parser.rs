//! Content-based format detection: a bounded byte sample is classified
//! as CSV, line-delimited JSON, a JSON array, or unknown, purely from
//! syntactic cues. The sample is read as UTF-8 text — one that is not
//! valid UTF-8 carries no cues and stays unknown — and is trimmed of
//! Unicode whitespace before the cues are checked.

use crate::text::{
    contains_seq, find_from, slice_contains, slice_find, slice_starts_with, starts_with,
    trim_end_idx, trim_end_len, trim_slice, trimmed, utf8_ok,
};
use vstd::prelude::*;
use vstd::utf8::valid_utf8;

verus! {

/// Best-guess content format of a byte sample.
#[derive(Debug, Clone, Copy, PartialEq, Eq, Structural)]
pub enum FormatHint {
    Csv,
    Ndjson,
    Json,
    Unknown,
}

/// The bytes of `"ts_iso,"`, the leading CSV header token.
pub open spec fn pat_ts_iso() -> Seq<u8> {
    seq![116u8, 115u8, 95u8, 105u8, 115u8, 111u8, 44u8]
}

/// The bytes of `",dir,"`, a CSV header fragment.
pub open spec fn pat_dir() -> Seq<u8> {
    seq![44u8, 100u8, 105u8, 114u8, 44u8]
}

/// The bytes of `",s,f,"`, a CSV header fragment.
pub open spec fn pat_sf() -> Seq<u8> {
    seq![44u8, 115u8, 44u8, 102u8, 44u8]
}

pub fn ts_iso_pat() -> (v: Vec<u8>)
    ensures
        v@ == pat_ts_iso(),
{
    let mut v: Vec<u8> = Vec::new();
    v.push(116);
    v.push(115);
    v.push(95);
    v.push(105);
    v.push(115);
    v.push(111);
    v.push(44);
    proof {
        assert(v@ =~= pat_ts_iso());
    }
    v
}

pub fn dir_pat() -> (v: Vec<u8>)
    ensures
        v@ == pat_dir(),
{
    let mut v: Vec<u8> = Vec::new();
    v.push(44);
    v.push(100);
    v.push(105);
    v.push(114);
    v.push(44);
    proof {
        assert(v@ =~= pat_dir());
    }
    v
}

pub fn sf_pat() -> (v: Vec<u8>)
    ensures
        v@ == pat_sf(),
{
    let mut v: Vec<u8> = Vec::new();
    v.push(44);
    v.push(115);
    v.push(44);
    v.push(102);
    v.push(44);
    proof {
        assert(v@ =~= pat_sf());
    }
    v
}

/// The UTF-8 sample as it is inspected: trimmed when it decodes, empty
/// when it is not valid UTF-8.
pub open spec fn sample_text(data: Seq<u8>) -> Seq<u8> {
    if valid_utf8(data) {
        trimmed(data)
    } else {
        Seq::<u8>::empty()
    }
}

/// CSV cue on an already-trimmed sample: the known header token at the
/// start, or a `,dir,` column fragment anywhere.
pub open spec fn csv_detected(t: Seq<u8>) -> bool {
    starts_with(t, pat_ts_iso()) || contains_seq(t, pat_dir())
}

/// Line-delimited-JSON cue on an already-trimmed sample: starts with
/// `{`, spans more than one line, and the first line (ignoring
/// trailing whitespace) ends with `}`.
pub open spec fn ndjson_detected(t: Seq<u8>) -> bool {
    &&& t.len() > 0
    &&& t[0] == 123
    &&& find_from(t, 0, 10) < t.len()
    &&& {
        let fl = t.subrange(0, find_from(t, 0, 10));
        let m = trim_end_len(fl);
        m > 0 && fl[m - 1] == 125
    }
}

/// JSON-array cue on an already-trimmed sample: starts with `[`.
pub open spec fn json_detected(t: Seq<u8>) -> bool {
    t.len() > 0 && t[0] == 91
}

/// What `detect_format` returns: the cues are checked in priority
/// order, CSV first, because a CSV row's JSON-valued column can itself
/// start with `{`.
pub open spec fn spec_detect(data: Seq<u8>) -> FormatHint {
    let t = sample_text(data);
    if csv_detected(t) {
        FormatHint::Csv
    } else if ndjson_detected(t) {
        FormatHint::Ndjson
    } else if json_detected(t) {
        FormatHint::Json
    } else {
        FormatHint::Unknown
    }
}

/// The CSV cues on an already-trimmed sample.
pub fn detect_is_csv(t: &[u8]) -> (r: bool)
    ensures
        r == csv_detected(t@),
{
    slice_starts_with(t, ts_iso_pat().as_slice()) || slice_contains(t, dir_pat().as_slice())
}

/// Classifies a byte sample by syntactic cues alone.
pub fn detect_format(data: &[u8]) -> (r: FormatHint)
    ensures
        r == spec_detect(data@),
{
    if !utf8_ok(data) {
        proof {
            lemma_no_cues_on_empty();
        }
        return FormatHint::Unknown;
    }
    let t = trim_slice(data);
    let ts = t.as_slice();
    if detect_is_csv(ts) {
        return FormatHint::Csv;
    }
    if t.len() > 0 && ts[0] == 123 {
        let nl = slice_find(ts, 0, 10);
        if nl < t.len() {
            let m = trim_end_idx(ts, nl);
            if m > 0 && ts[m - 1] == 125 {
                proof {
                    assert(t@.subrange(0, nl as int)[m - 1] == t@[m - 1]);
                }
                return FormatHint::Ndjson;
            }
            proof {
                assert(m > 0 ==> t@.subrange(0, nl as int)[m - 1] == t@[m - 1]);
            }
        }
    }
    if t.len() > 0 && ts[0] == 91 {
        return FormatHint::Json;
    }
    FormatHint::Unknown
}

/// The empty sample carries no cue.
pub proof fn lemma_no_cues_on_empty()
    ensures
        !csv_detected(Seq::<u8>::empty()),
        !ndjson_detected(Seq::<u8>::empty()),
        !json_detected(Seq::<u8>::empty()),
{
    assert(!contains_seq(Seq::<u8>::empty(), pat_dir()));
}

} // verus!
