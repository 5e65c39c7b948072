//! Line-delimited JSON decoder: each non-empty line is one record with
//! no wrapping array; blank lines are skipped; a line that fails to
//! parse aborts the whole decode with its line index.

use crate::json_codec::{canon_json, canon_of, json_record, record_of};
use crate::text::{find_from, lemma_find_from, slice_find, sub_vec, trim_end_idx, trim_end_len,
    trim_slice, trimmed, utf8_ok};
use crate::types::{msgs_view, ParseError, ParsedMessage, RecordView};
use vstd::prelude::*;

verus! {

/// Line-delimited JSON decoder.
pub struct NdjsonParser;

/// The lines of `s[i..]`, split on line feeds; the final line is the
/// tail after the last line feed, possibly empty.
pub open spec fn split_from(s: Seq<u8>, i: int) -> Seq<Seq<u8>>
    decreases s.len() - i,
    when 0 <= i <= s.len()
    via split_from_decreases
{
    let j = find_from(s, i, 10);
    if j >= s.len() {
        seq![s.subrange(i, s.len() as int)]
    } else {
        seq![s.subrange(i, j)] + split_from(s, j + 1)
    }
}

#[via_fn]
proof fn split_from_decreases(s: Seq<u8>, i: int) {
    lemma_find_from(s, i, 10);
}

/// Decode of the first `i` lines: records in order, blank lines
/// skipped, or the index of the first line that does not parse.
pub open spec fn decode_upto(ls: Seq<Seq<u8>>, i: int) -> Result<Seq<RecordView>, int>
    decreases i,
{
    if i <= 0 {
        Result::Ok(seq![])
    } else {
        match decode_upto(ls, i - 1) {
            Result::Err(e) => Result::Err(e),
            Result::Ok(acc) => {
                let t = trimmed(ls[i - 1]);
                if t.len() == 0 {
                    Result::Ok(acc)
                } else {
                    match record_of(t) {
                        Option::Some(r) => Result::Ok(acc.push(r)),
                        Option::None => Result::Err(i - 1),
                    }
                }
            },
        }
    }
}

/// What decoding line-delimited JSON yields on the whole input.
pub open spec fn ndjson_decode(s: Seq<u8>) -> Result<Seq<RecordView>, int> {
    decode_upto(split_from(s, 0), split_from(s, 0).len() as int)
}

/// Once a line fails, every longer prefix fails the same way.
proof fn lemma_decode_err(ls: Seq<Seq<u8>>, i: int, k: int)
    requires
        decode_upto(ls, i) is Err,
        i <= k,
    ensures
        decode_upto(ls, k) == decode_upto(ls, i),
    decreases k - i,
{
    if i < k {
        lemma_decode_err(ls, i, k - 1);
    }
}

/// The full decode contract: on success the records are exactly the
/// decode of the input's lines; on failure the error carries the index
/// of the first bad line.
pub open spec fn ndjson_post(data: Seq<u8>, r: Result<Vec<ParsedMessage>, ParseError>) -> bool {
    match r {
        Result::Ok(v) => ndjson_decode(data) == Result::<Seq<RecordView>, int>::Ok(
            msgs_view(v@),
        ),
        Result::Err(e) => match e {
            ParseError::Json(i) => ndjson_decode(data) == Result::<Seq<RecordView>, int>::Err(
                i as int,
            ),
            _ => false,
        },
    }
}

/// The self-test: the sample is valid UTF-8, its trimmed text starts
/// with `{`, and its first line, ignoring trailing whitespace, ends
/// with `}` and parses as one JSON value.
pub open spec fn ndjson_can(data: Seq<u8>) -> bool {
    let t = trimmed(data);
    &&& vstd::utf8::valid_utf8(data)
    &&& t.len() > 0
    &&& t[0] == 123
    &&& {
        let fl = t.subrange(0, find_from(t, 0, 10));
        let m = trim_end_len(fl);
        m > 0 && fl[m - 1] == 125 && canon_of(fl) is Some
    }
}

impl NdjsonParser {
    /// The decoder's logical name.
    pub fn name(&self) -> (r: &'static str)
        ensures
            r@ == "ndjson"@,
    {
        "ndjson"
    }

    /// The file extensions this decoder recognizes.
    pub fn extensions(&self) -> (r: Vec<&'static str>)
        ensures
            r@.len() == 2,
            r@[0]@ == "ndjson"@,
            r@[1]@ == "jsonl"@,
    {
        let mut v: Vec<&'static str> = Vec::new();
        v.push("ndjson");
        v.push("jsonl");
        v
    }

    /// Content self-test for this format.
    pub fn can_parse(&self, data: &[u8]) -> (r: bool)
        ensures
            r == ndjson_can(data@),
    {
        if !utf8_ok(data) {
            return false;
        }
        let t = trim_slice(data);
        let ts = t.as_slice();
        if t.len() == 0 {
            return false;
        }
        if ts[0] != 123 {
            return false;
        }
        let nl = slice_find(ts, 0, 10);
        let fl = sub_vec(ts, 0, nl);
        let m = trim_end_idx(ts, nl);
        proof {
            assert(fl@ == t@.subrange(0, find_from(t@, 0, 10)));
        }
        if m == 0 {
            return false;
        }
        let fls = fl.as_slice();
        if fls[m - 1] != 125 {
            return false;
        }
        canon_json(fls).is_some()
    }

    /// Decodes the whole input: splits it into lines, skips blank
    /// ones, and parses each remaining line as one record. The first
    /// line that fails aborts the decode with `Json(line index)`.
    pub fn parse(&self, data: &[u8]) -> (r: Result<Vec<ParsedMessage>, ParseError>)
        ensures
            ndjson_post(data@, r),
    {
        let ghost ls = split_from(data@, 0);
        let n = data.len();
        let mut lines: Vec<Vec<u8>> = Vec::new();
        let mut start: usize = 0;
        loop
            invariant_except_break
                0 <= start <= n == data@.len(),
                split_from(data@, 0) == lines.deep_view() + split_from(data@, start as int),
            ensures
                split_from(data@, 0) == lines.deep_view(),
            decreases n - start,
        {
            let j = slice_find(data, start, 10);
            let ghost before = lines.deep_view();
            if j >= n {
                lines.push(sub_vec(data, start, n));
                proof {
                    assert(lines.deep_view() =~~= before + seq![
                        data@.subrange(start as int, n as int),
                    ]);
                    assert(split_from(data@, start as int) == seq![
                        data@.subrange(start as int, n as int),
                    ]);
                    assert(split_from(data@, 0) =~~= lines.deep_view());
                }
                break;
            }
            lines.push(sub_vec(data, start, j));
            proof {
                assert(lines.deep_view() =~~= before + seq![data@.subrange(start as int, j as int)]);
                assert(split_from(data@, start as int) == seq![
                    data@.subrange(start as int, j as int),
                ] + split_from(data@, j + 1));
                assert(before + split_from(data@, start as int) =~~= lines.deep_view()
                    + split_from(data@, j + 1));
            }
            start = j + 1;
        }
        proof {
            assert(lines.deep_view() == ls);
        }
        let nl = lines.len();
        let mut msgs: Vec<ParsedMessage> = Vec::new();
        proof {
            assert(msgs_view(msgs@) =~= Seq::<RecordView>::empty());
            assert(Seq::<RecordView>::empty() =~= seq![]);
        }
        let mut i: usize = 0;
        while i < nl
            invariant
                0 <= i <= nl == lines@.len(),
                lines.deep_view() == ls,
                ls == split_from(data@, 0),
                nl == ls.len(),
                decode_upto(ls, i as int) == Result::<Seq<RecordView>, int>::Ok(msgs_view(msgs@)),
            decreases nl - i,
        {
            let line = &lines[i];
            proof {
                assert(ls[i as int] == line@);
            }
            let t = trim_slice(line.as_slice());
            if t.len() > 0 {
                let ghost before = msgs@;
                match json_record(t.as_slice()) {
                    Option::Some(m) => {
                        msgs.push(m);
                        proof {
                            assert(msgs_view(msgs@) =~= msgs_view(before).push(m@));
                        }
                    },
                    Option::None => {
                        proof {
                            assert(decode_upto(ls, i + 1) == Result::<Seq<RecordView>, int>::Err(
                                i as int,
                            ));
                            lemma_decode_err(ls, i + 1, nl as int);
                            assert(ls == split_from(data@, 0));
                            assert(decode_upto(ls, nl as int) == Result::<
                                Seq<RecordView>,
                                int,
                            >::Err(i as int));
                            assert(ndjson_decode(data@) == Result::<Seq<RecordView>, int>::Err(
                                i as int,
                            ));
                        }
                        return Result::Err(ParseError::Json(i as u64));
                    },
                }
            }
            i = i + 1;
        }
        Result::Ok(msgs)
    }
}

} // verus!
