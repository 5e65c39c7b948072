//! Query engine behaviour: unconstrained scans, conjunctive filters,
//! text search, and the end-to-end ingestion scenarios.

use hsmslog::models::{ConvertedMessage, FilterExpr, TimeFilter};
use hsmslog::query::{apply_filter, collect_rows, default_limit, search_session};
use hsmslog::registry_parser::ParserRegistry;
use hsmslog::storage::{ingest_messages, SessionStorage, StoreError};

fn empty_filter() -> FilterExpr {
    FilterExpr {
        time: TimeFilter::default(),
        dir: 0,
        s: Vec::new(),
        f: Vec::new(),
        ceid: Vec::new(),
        vid: Vec::new(),
        rptid: Vec::new(),
        text: String::new(),
    }
}

fn msg(row_id: u32, ts_ns: i64, dir: i8, s: u8, f: u8, body: &str) -> ConvertedMessage {
    ConvertedMessage {
        ts_ns,
        dir,
        s,
        f,
        wbit: 0,
        sysbytes: 1,
        ceid: 0,
        vid: 0,
        rptid: 0,
        row_id,
        body_json: body.to_string(),
    }
}

fn sample_session(storage: &mut SessionStorage) -> String {
    let id = storage.create_session().unwrap();
    let messages = vec![
        msg(0, 100, 1, 6, 11, "{\"kind\":\"EventReport\"}"),
        msg(1, 200, -1, 1, 3, "{\"kind\":\"Ack\"}"),
        msg(2, 300, 1, 6, 12, "{\"kind\":\"Trace\"}"),
        msg(3, 400, -1, 2, 1, "{\"kind\":\"EventReport\"}"),
    ];
    ingest_messages(storage, &id, messages).unwrap();
    id
}

#[test]
fn empty_filter_matches_every_row_in_order() {
    let mut storage = SessionStorage::new("./data".to_string());
    let id = sample_session(&mut storage);
    let rows = search_session(&storage, &id, &empty_filter()).unwrap();
    assert_eq!(rows.len(), 4);
    let ids: Vec<u32> = rows.iter().map(|r| r.row_id).collect();
    assert_eq!(ids, vec![0, 1, 2, 3]);
}

#[test]
fn set_and_window_are_a_conjunction() {
    let mut storage = SessionStorage::new("./data".to_string());
    let id = sample_session(&mut storage);
    let mut filter = empty_filter();
    filter.s = vec![6];
    filter.time = TimeFilter { from_ns: 150, to_ns: 0 };
    // s = 6 alone matches rows 0 and 2; the window alone matches rows
    // 1, 2, 3; together only row 2 passes.
    let rows = search_session(&storage, &id, &filter).unwrap();
    assert_eq!(rows.len(), 1);
    assert_eq!(rows[0].row_id, 2);
}

#[test]
fn direction_filter_selects_one_side() {
    let mut storage = SessionStorage::new("./data".to_string());
    let id = sample_session(&mut storage);
    let mut filter = empty_filter();
    filter.dir = -1;
    let rows = search_session(&storage, &id, &filter).unwrap();
    let ids: Vec<u32> = rows.iter().map(|r| r.row_id).collect();
    assert_eq!(ids, vec![1, 3]);
}

#[test]
fn text_search_is_case_insensitive_over_payloads() {
    let mut storage = SessionStorage::new("./data".to_string());
    let id = sample_session(&mut storage);
    let mut filter = empty_filter();
    filter.text = "eventreport".to_string();
    let rows = search_session(&storage, &id, &filter).unwrap();
    let ids: Vec<u32> = rows.iter().map(|r| r.row_id).collect();
    assert_eq!(ids, vec![0, 3]);
}

#[test]
fn text_search_excludes_rows_without_payload() {
    let mut storage = SessionStorage::new("./data".to_string());
    let id = sample_session(&mut storage);
    let chunk = storage.chunk_ref(&id, 0);
    let mut filter = empty_filter();
    filter.text = "kind".to_string();
    // Without a payload context the text constraint cannot be joined
    // and is skipped.
    let rows = apply_filter(chunk, &filter, None, None);
    assert_eq!(rows.len(), 4);
    // With the context, a row whose payload is missing is excluded;
    // here all four have payloads and all four bodies contain "kind".
    let rows2 = apply_filter(chunk, &filter, Some(&storage), Some(&id));
    assert_eq!(rows2.len(), 4);
    // A term found in no payload excludes everything.
    filter.text = "absent-term".to_string();
    let rows3 = apply_filter(chunk, &filter, Some(&storage), Some(&id));
    assert_eq!(rows3.len(), 0);
}

#[test]
fn collect_rows_honours_the_batch_limit() {
    let mut storage = SessionStorage::new("./data".to_string());
    let id = sample_session(&mut storage);
    // The cut is at a chunk boundary: a limit below the chunk size
    // still takes the whole first chunk.
    let rows = collect_rows(&storage, &id, 2).unwrap();
    assert_eq!(rows.len(), 4);
    let rows2 = collect_rows(&storage, &id, default_limit()).unwrap();
    assert_eq!(rows2.len(), 4);
    assert!(matches!(
        collect_rows(&storage, "nope", 1),
        Err(StoreError::SessionNotFound)
    ));
}

#[test]
fn end_to_end_ndjson_ingest_and_search() {
    // Two records, s=6/f=11 and s=1/f=3; searching {s:[6]} returns
    // exactly the f=11 row.
    let data = r#"{"ts_iso":"2025-11-03T09:12:14.123Z","dir":"E->H","s":6,"f":11,"wbit":0,"sysbytes":12345,"ceid":201,"body_json":{"secs_tree":{"t":"L","items":[]}}}
{"ts_iso":"2025-11-03T09:12:15.456Z","dir":"H->E","s":1,"f":3,"wbit":1,"sysbytes":12346,"body_json":{"semantic":{"kind":"EventReport"}}}"#;
    let registry = ParserRegistry::new();
    let parsed = registry.parse_auto(data.as_bytes()).unwrap();
    let converted = hsmslog::models::convert_messages(parsed).unwrap();
    assert_eq!(converted[0].ts_ns, 1_762_161_134_123_000_000);
    assert_eq!(converted[0].dir, -1);
    assert_eq!(converted[1].dir, 1);

    let mut storage = SessionStorage::new("./data".to_string());
    let id = storage.create_session().unwrap();
    let meta = ingest_messages(&mut storage, &id, converted).unwrap();
    assert_eq!(meta.row_count, 2);
    assert_eq!(meta.distinct_s, vec![1, 6]);
    assert_eq!(meta.distinct_ceid, vec![201]);

    let mut filter = empty_filter();
    filter.s = vec![6];
    let rows = search_session(&storage, &id, &filter).unwrap();
    assert_eq!(rows.len(), 1);
    assert_eq!(rows[0].f, 11);
}

#[test]
fn end_to_end_bad_csv_creates_no_session() {
    // A CSV whose body column is not structured data fails the whole
    // ingestion; the store keeps no trace of it.
    let data = "ts_iso,dir,s,f,wbit,sysbytes,body_json\n2025-11-03T09:12:14.123Z,E->H,6,11,0,12345,broken";
    let registry = ParserRegistry::new();
    let storage = SessionStorage::new("./data".to_string());
    let parse_result = registry.parse_with_hint(data.as_bytes(), "upload.csv");
    assert!(parse_result.is_err());
    // Parsing failed before any session was provisioned.
    assert!(matches!(
        storage.read_meta("never-created"),
        Err(StoreError::SessionNotFound)
    ));
    assert_eq!(storage.sessions.len(), 0);
}

#[test]
fn invalid_direction_aborts_conversion() {
    let data = r#"{"ts_iso":"2025-11-03T09:12:14.123Z","dir":"sideways","s":6,"f":11,"wbit":0,"sysbytes":1,"body_json":{}}"#;
    let parser = hsmslog::ndjson_parser::NdjsonParser;
    let parsed = parser.parse(data.as_bytes()).unwrap();
    let err = hsmslog::models::convert_messages(parsed).unwrap_err();
    assert!(matches!(err, hsmslog::types::ParseError::InvalidDirection(d) if d == "sideways"));
}

#[test]
fn invalid_timestamp_aborts_conversion() {
    let data = r#"{"ts_iso":"yesterday","dir":"H->E","s":6,"f":11,"wbit":0,"sysbytes":1,"body_json":{}}"#;
    let parser = hsmslog::ndjson_parser::NdjsonParser;
    let parsed = parser.parse(data.as_bytes()).unwrap();
    let err = hsmslog::models::convert_messages(parsed).unwrap_err();
    assert!(matches!(err, hsmslog::types::ParseError::InvalidTimestamp(t) if t == "yesterday"));
}
