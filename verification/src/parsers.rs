//! The closed set of built-in decoders behind one capability surface:
//! logical name, recognized extensions, content self-test, and decode.
//! Adding a decoder means adding a variant here and a line to
//! `all_parsers`; detection and dispatch need no change.

use crate::csv_parser::{csv_can, csv_post, CsvParser};
use crate::json_parser::{json_can, json_post, JsonParser};
use crate::ndjson_parser::{ndjson_can, ndjson_post, NdjsonParser};
use crate::types::{ParseError, ParsedMessage};
use vstd::prelude::*;

verus! {

/// One of the built-in decoders.
pub enum ParserKind {
    Ndjson(NdjsonParser),
    Csv(CsvParser),
    Json(JsonParser),
}

impl ParserKind {
    /// The decoder's logical name, as a character sequence.
    pub open spec fn spec_name(&self) -> Seq<char> {
        match self {
            ParserKind::Ndjson(_) => "ndjson"@,
            ParserKind::Csv(_) => "csv"@,
            ParserKind::Json(_) => "json"@,
        }
    }

    /// Whether the decoder's self-test accepts the sample.
    pub open spec fn spec_can(&self, data: Seq<u8>) -> bool {
        match self {
            ParserKind::Ndjson(_) => ndjson_can(data),
            ParserKind::Csv(_) => csv_can(data),
            ParserKind::Json(_) => json_can(data),
        }
    }

    /// The decoder's full decode contract.
    pub open spec fn spec_post(
        &self,
        data: Seq<u8>,
        r: Result<Vec<ParsedMessage>, ParseError>,
    ) -> bool {
        match self {
            ParserKind::Ndjson(_) => ndjson_post(data, r),
            ParserKind::Csv(_) => csv_post(data, r),
            ParserKind::Json(_) => json_post(data, r),
        }
    }

    /// Whether the decoder recognizes this file extension.
    pub open spec fn spec_has_ext(&self, ext: Seq<char>) -> bool {
        match self {
            ParserKind::Ndjson(_) => ext == "ndjson"@ || ext == "jsonl"@,
            ParserKind::Csv(_) => ext == "csv"@,
            ParserKind::Json(_) => ext == "json"@,
        }
    }

    /// The decoder's logical name.
    pub fn name(&self) -> (r: &'static str)
        ensures
            r@ == self.spec_name(),
    {
        match self {
            ParserKind::Ndjson(p) => p.name(),
            ParserKind::Csv(p) => p.name(),
            ParserKind::Json(p) => p.name(),
        }
    }

    /// The file extensions the decoder recognizes; every listed
    /// extension is recognized, and none is missing.
    pub fn extensions(&self) -> (r: Vec<&'static str>)
        ensures
            forall|k: int| 0 <= k < r@.len() ==> self.spec_has_ext(#[trigger] r@[k]@),
            forall|e: Seq<char>| self.spec_has_ext(e) ==> exists|k: int|
                0 <= k < r@.len() && #[trigger] r@[k]@ == e,
    {
        match self {
            ParserKind::Ndjson(p) => {
                let r = p.extensions();
                proof {
                    assert(forall|e: Seq<char>|
                        self.spec_has_ext(e) ==> (e == "ndjson"@ || e == "jsonl"@));
                }
                r
            },
            ParserKind::Csv(p) => p.extensions(),
            ParserKind::Json(p) => p.extensions(),
        }
    }

    /// Runs the decoder's content self-test.
    pub fn can_parse(&self, data: &[u8]) -> (r: bool)
        ensures
            r == self.spec_can(data@),
    {
        match self {
            ParserKind::Ndjson(p) => p.can_parse(data),
            ParserKind::Csv(p) => p.can_parse(data),
            ParserKind::Json(p) => p.can_parse(data),
        }
    }

    /// Whether this decoder claims the given file extension.
    pub fn has_extension(&self, ext: &str) -> (r: bool)
        ensures
            r == self.spec_has_ext(ext@),
    {
        match self {
            ParserKind::Ndjson(_) => crate::text::str_eq(ext, "ndjson") || crate::text::str_eq(
                ext,
                "jsonl",
            ),
            ParserKind::Csv(_) => crate::text::str_eq(ext, "csv"),
            ParserKind::Json(_) => crate::text::str_eq(ext, "json"),
        }
    }

    /// Decodes the whole input with this decoder.
    pub fn parse(&self, data: &[u8]) -> (r: Result<Vec<ParsedMessage>, ParseError>)
        ensures
            self.spec_post(data@, r),
    {
        match self {
            ParserKind::Ndjson(p) => p.parse(data),
            ParserKind::Csv(p) => p.parse(data),
            ParserKind::Json(p) => p.parse(data),
        }
    }
}

/// The full list of built-in decoders, in the order auto-detection
/// tries their self-tests.
pub fn all_parsers() -> (r: Vec<ParserKind>)
    ensures
        r@.len() == 3,
        r@[0] is Ndjson,
        r@[1] is Csv,
        r@[2] is Json,
{
    let mut v: Vec<ParserKind> = Vec::new();
    v.push(ParserKind::Ndjson(NdjsonParser));
    v.push(ParserKind::Csv(CsvParser));
    v.push(ParserKind::Json(JsonParser));
    v
}

} // verus!
