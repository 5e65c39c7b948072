//! CSV decoder: a header row names the columns; each data row maps to
//! one record, with the structured body carried as a JSON-encoded
//! string column that must itself parse as valid structured data — a
//! row whose body column fails to parse is a hard error, not skipped.
//!
//! The csv crate does the framing (quoting and record splitting)
//! behind a trusted call; the header mapping, the numeric field
//! conversion and the body validation are verified.

use crate::base_parser::{csv_detected, pat_sf, sf_pat};
use crate::json_codec::{canon_json, canon_of};
use crate::text::{all_digits, contains_seq, dec_val, slice_contains, trim_slice, trimmed, utf8_ok};
use crate::types::{msgs_view, ParseError, ParsedMessage, RecordView};
use vstd::prelude::*;
use vstd::string::StringSliceAdditionalSpecFns;
use vstd::utf8::encode_utf8;

verus! {

/// CSV decoder.
pub struct CsvParser;

/// The self-test: the sample is valid UTF-8 and its trimmed text
/// carries one of the CSV header cues, or a `,s,f,` fragment.
pub open spec fn csv_can(data: Seq<u8>) -> bool {
    vstd::utf8::valid_utf8(data) && (csv_detected(trimmed(data)) || contains_seq(
        trimmed(data),
        pat_sf(),
    ))
}

/// The record table denoted by the bytes under CSV framing, header row
/// included, or the index of the first record the framing rejects. A
/// function of the bytes alone.
pub uninterp spec fn csv_table_of(b: Seq<u8>) -> Result<Seq<Seq<Seq<char>>>, u64>;

/// Relies on `csv::ReaderBuilder` with header handling off: frames the
/// whole input into records of fields, reporting the index of the
/// first record that fails. A function of the bytes alone.
#[verifier::external_body]
fn csv_rows(b: &[u8]) -> (r: Result<Vec<Vec<String>>, u64>)
    ensures
        (r is Ok) == (csv_table_of(b@) is Ok),
        r matches Ok(t) ==> csv_table_of(b@)->Ok_0 == t.deep_view(),
        r matches Err(i) ==> csv_table_of(b@)->Err_0 == i,
{
    let mut rdr = csv::ReaderBuilder::new().has_headers(false).from_reader(b);
    let mut rows: Vec<Vec<String>> = Vec::new();
    for (idx, rec) in rdr.records().enumerate() {
        match rec {
            Ok(fields) => rows.push(fields.iter().map(|f| f.to_string()).collect()),
            Err(_) => return Err(idx as u64),
        }
    }
    Ok(rows)
}

/// First index of `name` among the header fields, or `-1`.
pub open spec fn find_col(h: Seq<Seq<char>>, name: Seq<char>) -> int
    decreases h.len(),
{
    if h.len() == 0 {
        -1
    } else if h[0] == name {
        0
    } else {
        let r = find_col(h.drop_first(), name);
        if r < 0 {
            -1
        } else {
            r + 1
        }
    }
}

/// `find_col` is the first matching index, or `-1` when none matches.
proof fn lemma_find_col_char(h: Seq<Seq<char>>, name: Seq<char>, i: int)
    requires
        0 <= i <= h.len(),
        forall|k: int| 0 <= k < i ==> h[k] != name,
        i < h.len() ==> h[i] == name,
    ensures
        find_col(h, name) == if i == h.len() {
            -1
        } else {
            i
        },
    decreases h.len(),
{
    if h.len() > 0 {
        if h[0] == name {
            assert(i == 0);
        } else {
            assert(i >= 1);
            lemma_find_col_char(h.drop_first(), name, i - 1);
        }
    }
}

/// Where each known column sits in the header; `-1` for absent.
pub struct CsvCols {
    pub ts: int,
    pub dir: int,
    pub s: int,
    pub f: int,
    pub wbit: int,
    pub sysbytes: int,
    pub ceid: int,
    pub vid: int,
    pub rptid: int,
    pub body: int,
}

pub open spec fn cols_of(h: Seq<Seq<char>>) -> CsvCols {
    CsvCols {
        ts: find_col(h, "ts_iso"@),
        dir: find_col(h, "dir"@),
        s: find_col(h, "s"@),
        f: find_col(h, "f"@),
        wbit: find_col(h, "wbit"@),
        sysbytes: find_col(h, "sysbytes"@),
        ceid: find_col(h, "ceid"@),
        vid: find_col(h, "vid"@),
        rptid: find_col(h, "rptid"@),
        body: find_col(h, "body_json"@),
    }
}

/// All required columns are present; the three tags are optional.
pub open spec fn cols_ok(c: CsvCols) -> bool {
    c.ts >= 0 && c.dir >= 0 && c.s >= 0 && c.f >= 0 && c.wbit >= 0 && c.sysbytes >= 0 && c.body
        >= 0
}

/// Numeric value of a required field: present, all digits, within
/// `max`.
pub open spec fn field_num(row: Seq<Seq<char>>, idx: int, max: int) -> Option<int> {
    if !(0 <= idx < row.len()) {
        Option::None
    } else {
        let b = encode_utf8(row[idx]);
        if b.len() > 0 && all_digits(b) && dec_val(b) <= max {
            Option::Some(dec_val(b))
        } else {
            Option::None
        }
    }
}

/// Numeric value of an optional tag column: `0` when the column is
/// absent or its field empty.
pub open spec fn tag_num(row: Seq<Seq<char>>, idx: int) -> Option<int> {
    if idx < 0 {
        Option::Some(0)
    } else if idx >= row.len() {
        Option::None
    } else {
        let b = encode_utf8(row[idx]);
        if b.len() == 0 {
            Option::Some(0)
        } else if all_digits(b) && dec_val(b) <= u32::MAX {
            Option::Some(dec_val(b))
        } else {
            Option::None
        }
    }
}

/// The scalar fields of a data row all convert under the mapping.
pub open spec fn csv_row_scalars_ok(c: CsvCols, row: Seq<Seq<char>>) -> bool {
    &&& 0 <= c.ts < row.len()
    &&& 0 <= c.dir < row.len()
    &&& 0 <= c.body < row.len()
    &&& field_num(row, c.s, 255) is Some
    &&& field_num(row, c.f, 255) is Some
    &&& field_num(row, c.wbit, 255) is Some
    &&& field_num(row, c.sysbytes, u32::MAX as int) is Some
    &&& tag_num(row, c.ceid) is Some
    &&& tag_num(row, c.vid) is Some
    &&& tag_num(row, c.rptid) is Some
}

/// The record denoted by a data row whose fields all convert and whose
/// body column is valid structured data.
pub open spec fn csv_row_view(c: CsvCols, row: Seq<Seq<char>>) -> RecordView {
    RecordView {
        ts_iso: row[c.ts],
        dir: row[c.dir],
        s: field_num(row, c.s, 255)->Some_0 as u8,
        f: field_num(row, c.f, 255)->Some_0 as u8,
        wbit: field_num(row, c.wbit, 255)->Some_0 as u8,
        sysbytes: field_num(row, c.sysbytes, u32::MAX as int)->Some_0 as u32,
        ceid: tag_num(row, c.ceid)->Some_0 as u32,
        vid: tag_num(row, c.vid)->Some_0 as u32,
        rptid: tag_num(row, c.rptid)->Some_0 as u32,
        body_json: canon_of(encode_utf8(row[c.body]))->Some_0,
    }
}

/// Decode of the data rows before index `i` (row `0` is the header):
/// records in order, or the first failing row's index, paired with
/// whether it failed on the body column (`true`) or on a scalar field
/// (`false`).
pub open spec fn csv_upto(c: CsvCols, rows: Seq<Seq<Seq<char>>>, i: int) -> Result<
    Seq<RecordView>,
    (int, bool),
>
    decreases i,
{
    if i <= 1 {
        Result::Ok(seq![])
    } else {
        match csv_upto(c, rows, i - 1) {
            Result::Err(e) => Result::Err(e),
            Result::Ok(acc) => {
                let row = rows[i - 1];
                if !csv_row_scalars_ok(c, row) {
                    Result::Err((i - 1, false))
                } else if canon_of(encode_utf8(row[c.body])) is None {
                    Result::Err((i - 1, true))
                } else {
                    Result::Ok(acc.push(csv_row_view(c, row)))
                }
            },
        }
    }
}

/// Once a row fails, every longer prefix fails the same way.
proof fn lemma_csv_err(c: CsvCols, rows: Seq<Seq<Seq<char>>>, i: int, k: int)
    requires
        csv_upto(c, rows, i) is Err,
        i <= k,
    ensures
        csv_upto(c, rows, k) == csv_upto(c, rows, i),
    decreases k - i,
{
    if i < k {
        lemma_csv_err(c, rows, i, k - 1);
    }
}

/// The full decode contract: framing errors keep their record index;
/// an empty table decodes to nothing; a header missing the body column
/// is `MissingBodyJson` and one missing another required column fails
/// at record `0`; otherwise the records are exactly the row decode,
/// scalar failures as `Csv`, body failures as `StructuredBody`.
pub open spec fn csv_post(data: Seq<u8>, r: Result<Vec<ParsedMessage>, ParseError>) -> bool {
    match csv_table_of(data) {
        Result::Err(i) => r matches Err(ParseError::Csv(j)) && j == i,
        Result::Ok(rows) => {
            if rows.len() == 0 {
                r matches Ok(v) && v@.len() == 0
            } else {
                let c = cols_of(rows[0]);
                if !cols_ok(c) {
                    if c.body < 0 {
                        r matches Err(ParseError::MissingBodyJson)
                    } else {
                        r matches Err(ParseError::Csv(0))
                    }
                } else {
                    match r {
                        Result::Ok(v) => csv_upto(c, rows, rows.len() as int) == Result::<
                            Seq<RecordView>,
                            (int, bool),
                        >::Ok(msgs_view(v@)),
                        Result::Err(e) => match e {
                            ParseError::Csv(j) => csv_upto(c, rows, rows.len() as int)
                                == Result::<Seq<RecordView>, (int, bool)>::Err((j as int, false)),
                            ParseError::StructuredBody(j) => csv_upto(c, rows, rows.len() as int)
                                == Result::<Seq<RecordView>, (int, bool)>::Err((j as int, true)),
                            _ => false,
                        },
                    }
                }
            }
        },
    }
}

/// First index of `name` among the header fields.
fn find_col_vec(h: &Vec<String>, name: &str) -> (r: Option<usize>)
    ensures
        match r {
            Option::Some(i) => i < h@.len() && find_col(h.deep_view(), name@) == i as int,
            Option::None => find_col(h.deep_view(), name@) == -1,
        },
{
    let n = h.len();
    let mut i: usize = 0;
    while i < n
        invariant
            0 <= i <= n == h@.len(),
            forall|k: int| 0 <= k < i ==> h.deep_view()[k] != name@,
        decreases n - i,
    {
        if crate::text::str_eq(h[i].as_str(), name) {
            proof {
                assert(h.deep_view()[i as int] == name@);
                lemma_find_col_char(h.deep_view(), name@, i as int);
            }
            return Option::Some(i);
        }
        proof {
            assert(h.deep_view()[i as int] == h@[i as int]@);
        }
        i = i + 1;
    }
    proof {
        lemma_find_col_char(h.deep_view(), name@, n as int);
    }
    Option::None
}

/// Numeric value of a required field, as `field_num` states it.
fn field_u64(row: &Vec<String>, idx: usize, max: u64) -> (r: Option<u64>)
    requires
        max < 0x8000_0000_0000_0000,
    ensures
        match r {
            Option::Some(v) => field_num(row.deep_view(), idx as int, max as int)
                == Option::Some(v as int),
            Option::None => field_num(row.deep_view(), idx as int, max as int) is None,
        },
{
    if idx >= row.len() {
        return Option::None;
    }
    let b = row[idx].as_str().as_bytes();
    proof {
        assert(row.deep_view()[idx as int] == row@[idx as int]@);
        assert(b@ == encode_utf8(row@[idx as int]@));
        assert(b@.subrange(0, b@.len() as int) =~= b@);
    }
    crate::text::parse_dec_range(b, 0, b.len(), max)
}

/// Numeric value of an optional tag column, as `tag_num` states it.
fn tag_u32(row: &Vec<String>, idx: Option<usize>) -> (r: Option<u32>)
    ensures
        ({
            let spec_idx: int = match idx {
                Option::Some(i) => i as int,
                Option::None => -1,
            };
            match r {
                Option::Some(v) => tag_num(row.deep_view(), spec_idx) == Option::Some(v as int),
                Option::None => tag_num(row.deep_view(), spec_idx) is None,
            }
        }),
{
    let t = match idx {
        Option::Some(t) => t,
        Option::None => {
            return Option::Some(0);
        },
    };
    if t >= row.len() {
        return Option::None;
    }
    let b = row[t].as_str().as_bytes();
    proof {
        assert(row.deep_view()[t as int] == row@[t as int]@);
        assert(b@ == encode_utf8(row@[t as int]@));
        assert(b@.subrange(0, b@.len() as int) =~= b@);
    }
    if b.len() == 0 {
        return Option::Some(0);
    }
    match crate::text::parse_dec_range(b, 0, b.len(), 0xffff_ffff) {
        Option::Some(v) => Option::Some(v as u32),
        Option::None => Option::None,
    }
}

/// Converts one data row under the header mapping: `Err(false)` when a
/// scalar field is missing or out of range, `Err(true)` when the body
/// column is not valid structured data.
fn convert_row(
    row: &Vec<String>,
    ts_idx: usize,
    dir_idx: usize,
    s_idx: usize,
    f_idx: usize,
    wbit_idx: usize,
    sys_idx: usize,
    ceid_i: Option<usize>,
    vid_i: Option<usize>,
    rptid_i: Option<usize>,
    body_idx: usize,
    Ghost(c): Ghost<CsvCols>,
) -> (r: Result<ParsedMessage, bool>)
    requires
        c.ts == ts_idx as int,
        c.dir == dir_idx as int,
        c.s == s_idx as int,
        c.f == f_idx as int,
        c.wbit == wbit_idx as int,
        c.sysbytes == sys_idx as int,
        c.ceid == (match ceid_i {
            Option::Some(t) => t as int,
            Option::None => -1,
        }),
        c.vid == (match vid_i {
            Option::Some(t) => t as int,
            Option::None => -1,
        }),
        c.rptid == (match rptid_i {
            Option::Some(t) => t as int,
            Option::None => -1,
        }),
        c.body == body_idx as int,
    ensures
        ({
            let rv = row.deep_view();
            match r {
                Result::Ok(m) => csv_row_scalars_ok(c, rv) && canon_of(
                    encode_utf8(rv[c.body]),
                ) is Some && m@ == csv_row_view(c, rv),
                Result::Err(body_bad) => if body_bad {
                    csv_row_scalars_ok(c, rv) && canon_of(encode_utf8(rv[c.body])) is None
                } else {
                    !csv_row_scalars_ok(c, rv)
                },
            }
        }),
{
    let s_v = field_u64(row, s_idx, 255);
    let f_v = field_u64(row, f_idx, 255);
    let w_v = field_u64(row, wbit_idx, 255);
    let sy_v = field_u64(row, sys_idx, 0xffff_ffff);
    let ce_v = tag_u32(row, ceid_i);
    let vi_v = tag_u32(row, vid_i);
    let rp_v = tag_u32(row, rptid_i);
    let ok_scalars = ts_idx < row.len() && dir_idx < row.len() && body_idx < row.len()
        && s_v.is_some() && f_v.is_some() && w_v.is_some() && sy_v.is_some() && ce_v.is_some()
        && vi_v.is_some() && rp_v.is_some();
    if !ok_scalars {
        return Result::Err(false);
    }
    let body = match canon_json(row[body_idx].as_str().as_bytes()) {
        Option::Some(t) => t,
        Option::None => {
            proof {
                assert(row.deep_view()[c.body] == row@[body_idx as int]@);
            }
            return Result::Err(true);
        },
    };
    proof {
        assert(row.deep_view()[c.ts] == row@[ts_idx as int]@);
        assert(row.deep_view()[c.dir] == row@[dir_idx as int]@);
        assert(row.deep_view()[c.body] == row@[body_idx as int]@);
    }
    Result::Ok(
        ParsedMessage {
            ts_iso: row[ts_idx].clone(),
            dir: row[dir_idx].clone(),
            s: s_v.unwrap() as u8,
            f: f_v.unwrap() as u8,
            wbit: w_v.unwrap() as u8,
            sysbytes: sy_v.unwrap() as u32,
            ceid: ce_v.unwrap(),
            vid: vi_v.unwrap(),
            rptid: rp_v.unwrap(),
            body_json: body,
        },
    )
}

impl CsvParser {
    /// The decoder's logical name.
    pub fn name(&self) -> (r: &'static str)
        ensures
            r@ == "csv"@,
    {
        "csv"
    }

    /// The file extensions this decoder recognizes.
    pub fn extensions(&self) -> (r: Vec<&'static str>)
        ensures
            r@.len() == 1,
            r@[0]@ == "csv"@,
    {
        let mut v: Vec<&'static str> = Vec::new();
        v.push("csv");
        v
    }

    /// Content self-test: the sample is valid UTF-8 and carries one of
    /// the CSV header cues, or a `,s,f,` fragment.
    pub fn can_parse(&self, data: &[u8]) -> (r: bool)
        ensures
            r == csv_can(data@),
    {
        if !utf8_ok(data) {
            return false;
        }
        let t = trim_slice(data);
        let ts = t.as_slice();
        if slice_contains(ts, sf_pat().as_slice()) {
            return true;
        }
        crate::base_parser::detect_is_csv(ts)
    }

    /// Decodes the whole input: CSV framing, header mapping, field
    /// conversion and body validation, with the failing record's index
    /// in every error.
    #[verifier::rlimit(80)]
    pub fn parse(&self, data: &[u8]) -> (r: Result<Vec<ParsedMessage>, ParseError>)
        ensures
            csv_post(data@, r),
    {
        let table = match csv_rows(data) {
            Result::Ok(t) => t,
            Result::Err(i) => {
                return Result::Err(ParseError::Csv(i));
            },
        };
        let ghost rows = table.deep_view();
        let nr = table.len();
        if nr == 0 {
            let v: Vec<ParsedMessage> = Vec::new();
            return Result::Ok(v);
        }
        let header = &table[0];
        proof {
            assert(header.deep_view() == rows[0]);
        }
        let ts_i = find_col_vec(header, "ts_iso");
        let dir_i = find_col_vec(header, "dir");
        let s_i = find_col_vec(header, "s");
        let f_i = find_col_vec(header, "f");
        let wbit_i = find_col_vec(header, "wbit");
        let sys_i = find_col_vec(header, "sysbytes");
        let ceid_i = find_col_vec(header, "ceid");
        let vid_i = find_col_vec(header, "vid");
        let rptid_i = find_col_vec(header, "rptid");
        let body_i = find_col_vec(header, "body_json");
        let ghost c = cols_of(rows[0]);
        let body_idx = match body_i {
            Option::Some(i) => i,
            Option::None => {
                return Result::Err(ParseError::MissingBodyJson);
            },
        };
        let (ts_idx, dir_idx, s_idx, f_idx, wbit_idx, sys_idx) = match (
            ts_i,
            dir_i,
            s_i,
            f_i,
            wbit_i,
            sys_i,
        ) {
            (
                Option::Some(a),
                Option::Some(b),
                Option::Some(c2),
                Option::Some(d),
                Option::Some(e),
                Option::Some(f),
            ) => (a, b, c2, d, e, f),
            _ => {
                return Result::Err(ParseError::Csv(0));
            },
        };
        proof {
            assert(cols_ok(c));
        }
        let mut msgs: Vec<ParsedMessage> = Vec::new();
        proof {
            assert(msgs_view(msgs@) =~= Seq::<RecordView>::empty());
            assert(Seq::<RecordView>::empty() =~= seq![]);
        }
        let mut i: usize = 1;
        while i < nr
            invariant
                1 <= i <= nr == table@.len(),
                rows == table.deep_view(),
                csv_table_of(data@) == Result::<Seq<Seq<Seq<char>>>, u64>::Ok(rows),
                nr == rows.len(),
                c == cols_of(rows[0]),
                cols_ok(c),
                c.ts == ts_idx as int,
                c.dir == dir_idx as int,
                c.s == s_idx as int,
                c.f == f_idx as int,
                c.wbit == wbit_idx as int,
                c.sysbytes == sys_idx as int,
                c.ceid == (match ceid_i {
                    Option::Some(t) => t as int,
                    Option::None => -1,
                }),
                c.vid == (match vid_i {
                    Option::Some(t) => t as int,
                    Option::None => -1,
                }),
                c.rptid == (match rptid_i {
                    Option::Some(t) => t as int,
                    Option::None => -1,
                }),
                c.body == body_idx as int,
                csv_upto(c, rows, i as int) == Result::<Seq<RecordView>, (int, bool)>::Ok(
                    msgs_view(msgs@),
                ),
            decreases nr - i,
        {
            let row = &table[i];
            proof {
                assert(row.deep_view() == rows[i as int]);
            }
            match convert_row(
                row,
                ts_idx,
                dir_idx,
                s_idx,
                f_idx,
                wbit_idx,
                sys_idx,
                ceid_i,
                vid_i,
                rptid_i,
                body_idx,
                Ghost(c),
            ) {
                Result::Ok(m) => {
                    let ghost before = msgs@;
                    msgs.push(m);
                    proof {
                        assert(msgs_view(msgs@) =~= msgs_view(before).push(csv_row_view(
                            c,
                            rows[i as int],
                        )));
                    }
                },
                Result::Err(body_bad) => {
                    if body_bad {
                        proof {
                            assert(csv_upto(c, rows, i + 1) == Err::<
                                Seq<RecordView>,
                                (int, bool),
                            >((i as int, true)));
                            lemma_csv_err(c, rows, i + 1, nr as int);
                        }
                        return Result::Err(ParseError::StructuredBody(i as u64));
                    } else {
                        proof {
                            assert(csv_upto(c, rows, i + 1) == Err::<
                                Seq<RecordView>,
                                (int, bool),
                            >((i as int, false)));
                            lemma_csv_err(c, rows, i + 1, nr as int);
                        }
                        return Result::Err(ParseError::Csv(i as u64));
                    }
                },
            }
            i = i + 1;
        }
        Result::Ok(msgs)
    }
}

} // verus!
