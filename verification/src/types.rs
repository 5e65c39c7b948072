//! Shared data types of the decode layer: the uniform input record that
//! every decoder produces, its mathematical view, and the decode errors.

use vstd::prelude::*;

verus! {

/// One message as decoded from the source bytes, before normalization.
///
/// All decoders surface this same shape, so normalization does not
/// depend on the source format. The structured body is carried as its
/// JSON text; the optional numeric tags default to `0` when absent.
#[derive(Debug, Clone)]
pub struct ParsedMessage {
    pub ts_iso: String,
    pub dir: String,
    pub s: u8,
    pub f: u8,
    pub wbit: u8,
    pub sysbytes: u32,
    pub ceid: u32,
    pub vid: u32,
    pub rptid: u32,
    pub body_json: String,
}

/// Mathematical view of a `ParsedMessage`: strings as character
/// sequences, numeric fields as themselves.
pub struct RecordView {
    pub ts_iso: Seq<char>,
    pub dir: Seq<char>,
    pub s: u8,
    pub f: u8,
    pub wbit: u8,
    pub sysbytes: u32,
    pub ceid: u32,
    pub vid: u32,
    pub rptid: u32,
    pub body_json: Seq<char>,
}

impl View for ParsedMessage {
    type V = RecordView;

    open spec fn view(&self) -> RecordView {
        RecordView {
            ts_iso: self.ts_iso@,
            dir: self.dir@,
            s: self.s,
            f: self.f,
            wbit: self.wbit,
            sysbytes: self.sysbytes,
            ceid: self.ceid,
            vid: self.vid,
            rptid: self.rptid,
            body_json: self.body_json@,
        }
    }
}

/// Views of a batch of records, in order.
pub open spec fn msgs_view(v: Seq<ParsedMessage>) -> Seq<RecordView> {
    Seq::new(v.len(), |i: int| v[i]@)
}

/// Decode-layer errors. Variants that report a position carry the
/// zero-based record, line or element index at which decoding failed.
#[derive(Debug)]
pub enum ParseError {
    /// The source could not be read; carries the reader's message.
    Io(String),
    /// A JSON record failed to parse, at the given line or element index.
    Json(u64),
    /// A CSV record failed to parse, at the given record index.
    Csv(u64),
    /// A record's structured body column is not valid structured data,
    /// at the given record index.
    StructuredBody(u64),
    /// No decoder matched the input.
    FormatUndetected,
    /// The CSV header lacks the structured body column.
    MissingBodyJson,
    /// A timestamp that RFC 3339 parsing rejects; carries the text.
    InvalidTimestamp(String),
    /// A direction other than the two accepted codes; carries the text.
    InvalidDirection(String),
    /// Any other decode failure.
    Custom(String),
}

} // verus!
