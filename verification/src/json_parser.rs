//! JSON-array decoder: the entire stream is one JSON array of records.
//! The self-test only inspects the first non-whitespace byte, so a
//! close-but-invalid array still claims to match and only fails on the
//! full parse.

use crate::base_parser::json_detected;
use crate::json_codec::{array_elems_of, json_array_elems, json_record, record_of};
use crate::text::{trim_slice, trimmed, utf8_ok};
use crate::types::{msgs_view, ParseError, ParsedMessage, RecordView};
use vstd::prelude::*;

verus! {

/// JSON-array decoder.
pub struct JsonParser;

/// The self-test: the sample is valid UTF-8 and its trimmed text
/// starts with `[`.
pub open spec fn json_can(data: Seq<u8>) -> bool {
    vstd::utf8::valid_utf8(data) && json_detected(trimmed(data))
}

/// Decode of the first `i` array elements: records in order, or the
/// index of the first element that is not a record.
pub open spec fn elems_upto(es: Seq<Seq<u8>>, i: int) -> Result<Seq<RecordView>, int>
    decreases i,
{
    if i <= 0 {
        Result::Ok(seq![])
    } else {
        match elems_upto(es, i - 1) {
            Result::Err(e) => Result::Err(e),
            Result::Ok(acc) => match record_of(es[i - 1]) {
                Option::Some(r) => Result::Ok(acc.push(r)),
                Option::None => Result::Err(i - 1),
            },
        }
    }
}

/// Once an element fails, every longer prefix fails the same way.
proof fn lemma_elems_err(es: Seq<Seq<u8>>, i: int, k: int)
    requires
        elems_upto(es, i) is Err,
        i <= k,
    ensures
        elems_upto(es, k) == elems_upto(es, i),
    decreases k - i,
{
    if i < k {
        lemma_elems_err(es, i, k - 1);
    }
}

/// The full decode contract: when the input is not a JSON array the
/// error reports position `0`; otherwise the records are exactly the
/// element decode, or the error carries the first bad element's index.
pub open spec fn json_post(data: Seq<u8>, r: Result<Vec<ParsedMessage>, ParseError>) -> bool {
    match array_elems_of(data) {
        Option::None => r matches Err(ParseError::Json(0)),
        Option::Some(es) => match r {
            Result::Ok(v) => elems_upto(es, es.len() as int) == Result::<
                Seq<RecordView>,
                int,
            >::Ok(msgs_view(v@)),
            Result::Err(e) => match e {
                ParseError::Json(i) => elems_upto(es, es.len() as int) == Result::<
                    Seq<RecordView>,
                    int,
                >::Err(i as int),
                _ => false,
            },
        },
    }
}

impl JsonParser {
    /// The decoder's logical name.
    pub fn name(&self) -> (r: &'static str)
        ensures
            r@ == "json"@,
    {
        "json"
    }

    /// The file extensions this decoder recognizes.
    pub fn extensions(&self) -> (r: Vec<&'static str>)
        ensures
            r@.len() == 1,
            r@[0]@ == "json"@,
    {
        let mut v: Vec<&'static str> = Vec::new();
        v.push("json");
        v
    }

    /// Content self-test: the sample is valid UTF-8 and its trimmed
    /// text starts with `[`.
    pub fn can_parse(&self, data: &[u8]) -> (r: bool)
        ensures
            r == json_can(data@),
    {
        if !utf8_ok(data) {
            return false;
        }
        let t = trim_slice(data);
        if t.len() == 0 {
            return false;
        }
        let ts = t.as_slice();
        ts[0] == 91
    }

    /// Decodes the whole input as one JSON array of records. The first
    /// element that is not a record aborts the decode with its index;
    /// an input that is not an array fails at position `0`.
    pub fn parse(&self, data: &[u8]) -> (r: Result<Vec<ParsedMessage>, ParseError>)
        ensures
            json_post(data@, r),
    {
        let elems = match json_array_elems(data) {
            Option::Some(v) => v,
            Option::None => {
                return Result::Err(ParseError::Json(0));
            },
        };
        let ghost es = elems.deep_view();
        let n = elems.len();
        let mut msgs: Vec<ParsedMessage> = Vec::new();
        proof {
            assert(msgs_view(msgs@) =~= Seq::<RecordView>::empty());
            assert(Seq::<RecordView>::empty() =~= seq![]);
        }
        let mut i: usize = 0;
        while i < n
            invariant
                0 <= i <= n == elems@.len(),
                es == elems.deep_view(),
                array_elems_of(data@) == Option::Some(es),
                n == es.len(),
                elems_upto(es, i as int) == Result::<Seq<RecordView>, int>::Ok(msgs_view(msgs@)),
            decreases n - i,
        {
            let e = &elems[i];
            proof {
                assert(es[i as int] == e@);
            }
            let ghost before = msgs@;
            match json_record(e.as_slice()) {
                Option::Some(m) => {
                    msgs.push(m);
                    proof {
                        assert(msgs_view(msgs@) =~= msgs_view(before).push(m@));
                    }
                },
                Option::None => {
                    proof {
                        assert(elems_upto(es, i + 1) == Result::<Seq<RecordView>, int>::Err(
                            i as int,
                        ));
                        lemma_elems_err(es, i + 1, n as int);
                    }
                    return Result::Err(ParseError::Json(i as u64));
                },
            }
            i = i + 1;
        }
        Result::Ok(msgs)
    }
}

} // verus!
