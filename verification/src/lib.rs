//! A verified ingestion and query library for equipment-communication
//! session logs (SECS-II/HSMS message traces).
//!
//! Raw bytes in one of several textual encodings (CSV, line-delimited
//! JSON, or a JSON array) are detected, decoded into input records,
//! normalized into fixed-width typed rows, and stored in chunked columnar
//! batches with a side payload store and aggregated session metadata.
//! Structured filters, optionally combined with a case-insensitive text
//! search over payloads, select rows back out in ingestion order.

use vstd::prelude::*;

pub mod base_parser;
pub mod columnar;
pub mod csv_parser;
pub mod json_codec;
pub mod json_parser;
pub mod models;
pub mod ndjson_parser;
pub mod parsers;
pub mod query;
pub mod registry_parser;
pub mod storage;
pub mod text;
pub mod timestamp;
pub mod types;

verus! {

/// Number of rows in a full columnar chunk.
pub const CHUNK_SIZE: usize = 50000;

/// Compatibility entry point: decodes a whole line-delimited-JSON
/// input in one call.
pub fn parse_ndjson(data: &[u8]) -> (r: Result<
    Vec<types::ParsedMessage>,
    types::ParseError,
>)
    ensures
        ndjson_parser::ndjson_post(data@, r),
{
    let parser = ndjson_parser::NdjsonParser;
    parser.parse(data)
}

} // verus!
