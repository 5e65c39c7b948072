//! Decoder and registry behaviour on concrete inputs.

use hsmslog::base_parser::{detect_format, FormatHint};
use hsmslog::csv_parser::CsvParser;
use hsmslog::json_parser::JsonParser;
use hsmslog::ndjson_parser::NdjsonParser;
use hsmslog::registry_parser::ParserRegistry;
use hsmslog::types::ParseError;

#[test]
fn test_parse_basic_csv() {
    let parser = CsvParser;
    let data = r#"ts_iso,dir,s,f,wbit,sysbytes,ceid,body_json
2025-11-03T09:12:14.123Z,E->H,6,11,0,12345,201,"{""secs_tree"":{""t"":""L"",""items"":[]}}"
2025-11-03T09:12:15.456Z,H->E,1,3,1,12346,0,"{""semantic"":{""kind"":""EventReport""}}"#;

    let messages = parser.parse(data.as_bytes()).unwrap();

    assert_eq!(messages.len(), 2);

    let msg1 = &messages[0];
    assert_eq!(msg1.s, 6);
    assert_eq!(msg1.f, 11);
    assert_eq!(msg1.dir, "E->H");
}

#[test]
fn test_json_can_parse() {
    let parser = JsonParser;

    let valid = r#"[{"ts_iso":"2025-11-03T09:12:14.123Z","dir":"E->H"}]"#;
    assert!(parser.can_parse(valid.as_bytes()));

    let invalid = r#"{"ts_iso":"2025-11-03T09:12:14.123Z"}"#;
    assert!(!parser.can_parse(invalid.as_bytes()));
}

#[test]
fn test_json_parse() {
    let parser = JsonParser;
    let data = r#"[
        {"ts_iso":"2025-11-03T09:12:14.123Z","dir":"E->H","s":6,"f":11,"wbit":0,"sysbytes":12345,"ceid":201,"body_json":{"secs_tree":{"t":"L","items":[]}}},
        {"ts_iso":"2025-11-03T09:12:15.456Z","dir":"H->E","s":1,"f":3,"wbit":1,"sysbytes":12346,"body_json":{"semantic":{"kind":"EventReport"}}}
    ]"#;

    let messages = parser.parse(data.as_bytes()).unwrap();

    assert_eq!(messages.len(), 2);
    assert_eq!(messages[0].s, 6);
    assert_eq!(messages[0].dir, "E->H");
}

#[test]
fn test_ndjson_can_parse() {
    let parser = NdjsonParser;

    let valid = r#"{"ts_iso":"2025-11-03T09:12:14.123Z","dir":"E->H","s":6,"f":11,"wbit":0,"sysbytes":12345}
{"ts_iso":"2025-11-03T09:12:15.456Z","dir":"H->E","s":1,"f":3,"wbit":1,"sysbytes":12346}"#;

    assert!(parser.can_parse(valid.as_bytes()));

    let invalid = "ts_iso,dir,s,f\n1,2,3,4";
    assert!(!parser.can_parse(invalid.as_bytes()));
}

#[test]
fn test_ndjson_parse() {
    let parser = NdjsonParser;
    let data = r#"{"ts_iso":"2025-11-03T09:12:14.123Z","dir":"E->H","s":6,"f":11,"wbit":0,"sysbytes":12345,"ceid":201,"body_json":{"secs_tree":{"t":"L","items":[]}}}
{"ts_iso":"2025-11-03T09:12:15.456Z","dir":"H->E","s":1,"f":3,"wbit":1,"sysbytes":12346,"body_json":{"semantic":{"kind":"EventReport"}}}"#;

    let messages = parser.parse(data.as_bytes()).unwrap();

    assert_eq!(messages.len(), 2);
    assert_eq!(messages[0].s, 6);
    assert_eq!(messages[0].f, 11);
    assert_eq!(messages[0].dir, "E->H");
}

#[test]
fn test_registry_auto_detect_ndjson() {
    let registry = ParserRegistry::new();
    let data = r#"{"ts_iso":"2025-11-03T09:12:14.123Z","dir":"E->H","s":6,"f":11,"wbit":0,"sysbytes":12345,"ceid":201,"body_json":{"secs_tree":{"t":"L","items":[]}}}
{"ts_iso":"2025-11-03T09:12:15.456Z","dir":"H->E","s":1,"f":3,"wbit":1,"sysbytes":12346,"body_json":{"semantic":{"kind":"EventReport"}}}"#;

    let messages = registry.parse_auto(data.as_bytes()).unwrap();

    assert_eq!(messages.len(), 2);
    assert_eq!(messages[0].s, 6);
}

#[test]
fn test_registry_parse_with_hint_csv() {
    let registry = ParserRegistry::new();
    let data = r#"ts_iso,dir,s,f,wbit,sysbytes,ceid,body_json
2025-11-03T09:12:14.123Z,E->H,6,11,0,12345,201,"{""secs_tree"":{""t"":""L"",""items"":[]}}"#;

    let messages = registry.parse_with_hint(data.as_bytes(), "test.csv").unwrap();

    assert_eq!(messages.len(), 1);
    assert_eq!(messages[0].s, 6);
}

#[test]
fn detect_format_recognizes_each_cue() {
    assert_eq!(detect_format(b"ts_iso,dir,s,f\n1,2,3,4"), FormatHint::Csv);
    assert_eq!(detect_format(b"x,dir,y\n1,2,3"), FormatHint::Csv);
    assert_eq!(detect_format(b"{\"a\":1}\n{\"b\":2}"), FormatHint::Ndjson);
    assert_eq!(detect_format(b"  [1, 2, 3]"), FormatHint::Json);
    assert_eq!(detect_format(b"{\"a\":1}"), FormatHint::Unknown);
    assert_eq!(detect_format(b"plain words"), FormatHint::Unknown);
}

#[test]
fn ndjson_reports_first_bad_line() {
    let parser = NdjsonParser;
    let data = "{\"ts_iso\":\"2025-11-03T09:12:14.123Z\",\"dir\":\"E->H\",\"s\":6,\"f\":11,\"wbit\":0,\"sysbytes\":1,\"body_json\":{}}\n\nnot json at all";
    let err = parser.parse(data.as_bytes()).unwrap_err();
    assert!(matches!(err, ParseError::Json(2)));
}

#[test]
fn ndjson_skips_blank_lines() {
    let parser = NdjsonParser;
    let data = "\n{\"ts_iso\":\"2025-11-03T09:12:14.123Z\",\"dir\":\"E->H\",\"s\":6,\"f\":11,\"wbit\":0,\"sysbytes\":1,\"body_json\":{}}\n\n";
    let messages = parser.parse(data.as_bytes()).unwrap();
    assert_eq!(messages.len(), 1);
}

#[test]
fn csv_bad_body_json_is_a_hard_error() {
    let parser = CsvParser;
    let data = "ts_iso,dir,s,f,wbit,sysbytes,ceid,body_json\n2025-11-03T09:12:14.123Z,E->H,6,11,0,12345,201,not structured";
    let err = parser.parse(data.as_bytes()).unwrap_err();
    assert!(matches!(err, ParseError::StructuredBody(1)));
}

#[test]
fn csv_missing_body_column_is_rejected() {
    let parser = CsvParser;
    let data = "ts_iso,dir,s,f,wbit,sysbytes\n2025-11-03T09:12:14.123Z,E->H,6,11,0,12345";
    let err = parser.parse(data.as_bytes()).unwrap_err();
    assert!(matches!(err, ParseError::MissingBodyJson));
}

#[test]
fn csv_bad_numeric_field_reports_its_record() {
    let parser = CsvParser;
    let data = "ts_iso,dir,s,f,wbit,sysbytes,body_json\n2025-11-03T09:12:14.123Z,E->H,abc,11,0,12345,{}";
    let err = parser.parse(data.as_bytes()).unwrap_err();
    assert!(matches!(err, ParseError::Csv(1)));
}

#[test]
fn csv_body_is_canonicalized() {
    // The body column is re-serialized compactly, so the stored text
    // differs from a spaced source text.
    let parser = CsvParser;
    let data = "ts_iso,dir,s,f,wbit,sysbytes,body_json\n2025-11-03T09:12:14.123Z,E->H,6,11,0,12345,\"{ \"\"a\"\" : 1 }\"";
    let messages = parser.parse(data.as_bytes()).unwrap();
    assert_eq!(messages.len(), 1);
    assert_eq!(messages[0].body_json, "{\"a\":1}");
}

#[test]
fn format_undetected_when_nothing_matches() {
    let registry = ParserRegistry::new();
    let err = registry.parse_auto(b"plain words no structure").unwrap_err();
    assert!(matches!(err, ParseError::FormatUndetected));
}

#[test]
fn non_utf8_samples_carry_no_cues() {
    // A sample that is not valid UTF-8 is treated as empty text, even
    // when its raw bytes contain a cue.
    let data: Vec<u8> = vec![0xFF, b',', b'd', b'i', b'r', b','];
    assert_eq!(detect_format(&data), FormatHint::Unknown);
    assert!(!CsvParser.can_parse(&data));
    let bad_brace: Vec<u8> = vec![b'{', 0xFF, b'}', b'\n', b'{', b'}'];
    assert_eq!(detect_format(&bad_brace), FormatHint::Unknown);
    assert!(!NdjsonParser.can_parse(&bad_brace));
    let bad_bracket: Vec<u8> = vec![b'[', 0xFF, b']'];
    assert!(!JsonParser.can_parse(&bad_bracket));
}

#[test]
fn detection_trims_unicode_whitespace() {
    // A no-break space before the bracket is whitespace, like the
    // ASCII kinds.
    assert_eq!(detect_format("\u{a0}[1, 2]".as_bytes()), FormatHint::Json);
    assert_eq!(detect_format("\u{3000}ts_iso,dir\n1,2".as_bytes()), FormatHint::Csv);
}

#[test]
fn ndjson_blank_lines_include_unicode_whitespace() {
    // A line holding only a no-break space counts as blank and is
    // skipped; a record padded with one still parses.
    let data = "\u{a0}\n{\"ts_iso\":\"2025-11-03T09:12:14.123Z\",\"dir\":\"E->H\",\"s\":6,\"f\":11,\"wbit\":0,\"sysbytes\":1,\"body_json\":{}}\u{a0}\n";
    let messages = NdjsonParser.parse(data.as_bytes()).unwrap();
    assert_eq!(messages.len(), 1);
    assert_eq!(messages[0].s, 6);
}

#[test]
fn over_wide_numeric_fields_reject_the_record() {
    // A stream code that does not fit its unsigned 8-bit column is a
    // decode error, not a truncated value.
    let data = "{\"ts_iso\":\"2025-11-03T09:12:14.123Z\",\"dir\":\"E->H\",\"s\":300,\"f\":11,\"wbit\":0,\"sysbytes\":1,\"body_json\":{}}";
    let err = NdjsonParser.parse(data.as_bytes()).unwrap_err();
    assert!(matches!(err, ParseError::Json(0)));
}
