//! Thin trusted bindings to the JSON codec of the serde_json crate.
//! Each result that would take pages to state is given a name (an
//! uninterpreted spec function of the input bytes alone); the decoders'
//! own logic is verified against those names.

use crate::types::{ParsedMessage, RecordView};
use vstd::prelude::*;

verus! {

/// Canonical JSON text of `b`, when `b` parses as one JSON value, and
/// `None` when it does not. Canonical means serde_json's compact
/// serialization of the parsed value.
pub uninterp spec fn canon_of(b: Seq<u8>) -> Option<Seq<char>>;

/// Relies on `serde_json::from_slice` and `Value`'s `Display`: whether
/// the bytes parse as one JSON value, and that value's canonical text.
/// Both depend on the bytes alone.
#[verifier::external_body]
pub(crate) fn canon_json(b: &[u8]) -> (r: Option<String>)
    ensures
        (r is Some) == (canon_of(b@) is Some),
        r matches Some(t) ==> canon_of(b@) == Some(t@),
{
    let v: serde_json::Value = serde_json::from_slice(b).ok()?;
    Some(v.to_string())
}

/// One decoded record before width checking: the numeric fields carry
/// the JSON numbers as they were.
pub struct RawRecord {
    pub ts_iso: String,
    pub dir: String,
    pub s: u64,
    pub f: u64,
    pub wbit: u64,
    pub sysbytes: u64,
    pub ceid: u64,
    pub vid: u64,
    pub rptid: u64,
    pub body_json: String,
}

/// Mathematical view of a raw record.
pub struct RawView {
    pub ts_iso: Seq<char>,
    pub dir: Seq<char>,
    pub s: u64,
    pub f: u64,
    pub wbit: u64,
    pub sysbytes: u64,
    pub ceid: u64,
    pub vid: u64,
    pub rptid: u64,
    pub body_json: Seq<char>,
}

impl View for RawRecord {
    type V = RawView;

    open spec fn view(&self) -> RawView {
        RawView {
            ts_iso: self.ts_iso@,
            dir: self.dir@,
            s: self.s,
            f: self.f,
            wbit: self.wbit,
            sysbytes: self.sysbytes,
            ceid: self.ceid,
            vid: self.vid,
            rptid: self.rptid,
            body_json: self.body_json@,
        }
    }
}

/// The raw record fields denoted by one JSON object, when the bytes
/// parse as an object carrying them, and `None` otherwise. A function
/// of the bytes alone.
pub uninterp spec fn raw_record_of(b: Seq<u8>) -> Option<RawView>;

/// Relies on `serde_json::from_slice` and `Value`'s field accessors:
/// parses one JSON object and moves the record fields out. The
/// timestamp, direction and body fields are required, as are the four
/// numeric fields; the three tags default to `0` when absent. The
/// body is re-serialized to its canonical text.
#[verifier::external_body]
fn json_record_raw(b: &[u8]) -> (r: Option<RawRecord>)
    ensures
        (r is Some) == (raw_record_of(b@) is Some),
        r matches Some(m) ==> raw_record_of(b@) == Some(m@),
{
    let v: serde_json::Value = serde_json::from_slice(b).ok()?;
    let g = |k| v.get(k)?.as_u64();
    let t = |k| if v.get(k).is_none() { Some(0) } else { g(k) };
    let gs = |k| Some(v.get(k)?.as_str()?.to_string());
    Some(RawRecord {
        ts_iso: gs("ts_iso")?, dir: gs("dir")?,
        s: g("s")?, f: g("f")?, wbit: g("wbit")?, sysbytes: g("sysbytes")?,
        ceid: t("ceid")?, vid: t("vid")?, rptid: t("rptid")?,
        body_json: v.get("body_json")?.to_string(),
    })
}

/// Whether raw fields fit the record's fixed-width columns.
pub open spec fn raw_fits(r: RawView) -> bool {
    &&& r.s <= 255
    &&& r.f <= 255
    &&& r.wbit <= 255
    &&& r.sysbytes <= u32::MAX
    &&& r.ceid <= u32::MAX
    &&& r.vid <= u32::MAX
    &&& r.rptid <= u32::MAX
}

/// The record a raw decode denotes once its fields fit.
pub open spec fn narrow_record(r: RawView) -> RecordView {
    RecordView {
        ts_iso: r.ts_iso,
        dir: r.dir,
        s: r.s as u8,
        f: r.f as u8,
        wbit: r.wbit as u8,
        sysbytes: r.sysbytes as u32,
        ceid: r.ceid as u32,
        vid: r.vid as u32,
        rptid: r.rptid as u32,
        body_json: r.body_json,
    }
}

/// The input record denoted by one JSON object: its raw fields, when
/// the bytes parse as an object carrying them and every numeric field
/// fits its column; a field wider than its column rejects the record.
pub open spec fn record_of(b: Seq<u8>) -> Option<RecordView> {
    match raw_record_of(b) {
        Option::None => Option::None,
        Option::Some(r) => if raw_fits(r) {
            Option::Some(narrow_record(r))
        } else {
            Option::None
        },
    }
}

/// Decodes one JSON object into an input record, rejecting any
/// numeric field wider than its fixed-width column.
pub(crate) fn json_record(b: &[u8]) -> (r: Option<ParsedMessage>)
    ensures
        (r is Some) == (record_of(b@) is Some),
        r matches Some(m) ==> record_of(b@) == Some(m@),
{
    match json_record_raw(b) {
        Option::None => Option::None,
        Option::Some(raw) => {
            if raw.s <= 255 && raw.f <= 255 && raw.wbit <= 255 && raw.sysbytes <= 0xffff_ffff
                && raw.ceid <= 0xffff_ffff && raw.vid <= 0xffff_ffff && raw.rptid
                <= 0xffff_ffff {
                Option::Some(
                    ParsedMessage {
                        ts_iso: raw.ts_iso,
                        dir: raw.dir,
                        s: raw.s as u8,
                        f: raw.f as u8,
                        wbit: raw.wbit as u8,
                        sysbytes: raw.sysbytes as u32,
                        ceid: raw.ceid as u32,
                        vid: raw.vid as u32,
                        rptid: raw.rptid as u32,
                        body_json: raw.body_json,
                    },
                )
            } else {
                Option::None
            }
        },
    }
}

/// The canonical texts of the elements of `b`, when `b` parses as one
/// JSON array, and `None` otherwise. A function of the bytes alone.
pub uninterp spec fn array_elems_of(b: Seq<u8>) -> Option<Seq<Seq<u8>>>;

/// Relies on `serde_json::from_slice`, `Value::as_array` and `Value`'s
/// `Display`: splits one JSON array into its elements' canonical
/// texts. A function of the bytes alone.
#[verifier::external_body]
pub(crate) fn json_array_elems(b: &[u8]) -> (r: Option<Vec<Vec<u8>>>)
    ensures
        (r is Some) == (array_elems_of(b@) is Some),
        r matches Some(v) ==> array_elems_of(b@) == Some(v.deep_view()),
{
    let v: serde_json::Value = serde_json::from_slice(b).ok()?;
    let arr = v.as_array()?;
    Some(arr.iter().map(|e| e.to_string().into_bytes()).collect())
}

} // verus!
