//! Session store behaviour: chunk rotation, summary aggregation,
//! payload round trips, and deletion.

use hsmslog::columnar::{ArrowBuilder, MetaCollector};
use hsmslog::models::ConvertedMessage;
use hsmslog::storage::{ingest_messages, SessionStorage, StoreError};

fn msg(row_id: u32, ts_ns: i64, s: u8, f: u8, ceid: u32, body: &str) -> ConvertedMessage {
    ConvertedMessage {
        ts_ns,
        dir: 1,
        s,
        f,
        wbit: 0,
        sysbytes: 100 + row_id,
        ceid,
        vid: 0,
        rptid: 0,
        row_id,
        body_json: body.to_string(),
    }
}

fn batch(n: u32) -> Vec<ConvertedMessage> {
    let mut v = Vec::new();
    let mut i: u32 = 0;
    while i < n {
        v.push(msg(i, i as i64 * 1000, (i % 3) as u8, 1, 0, "{}"));
        i += 1;
    }
    v
}

#[test]
fn chunk_rotation_counts() {
    // 50000 * 1 + 1 rows: one full chunk plus a trailing chunk of one.
    let mut storage = SessionStorage::new("./data".to_string());
    let id = storage.create_session().unwrap();
    ingest_messages(&mut storage, &id, batch(50_001)).unwrap();
    let chunks = storage.list_chunks(&id).unwrap();
    assert_eq!(chunks.len(), 2);

    // Exactly one full chunk: no trailing chunk at all.
    let id2 = storage.create_session().unwrap();
    ingest_messages(&mut storage, &id2, batch(50_000)).unwrap();
    assert_eq!(storage.list_chunks(&id2).unwrap().len(), 1);

    // An empty batch: no chunks.
    let id3 = storage.create_session().unwrap();
    let meta = ingest_messages(&mut storage, &id3, Vec::new()).unwrap();
    assert_eq!(storage.list_chunks(&id3).unwrap().len(), 0);
    assert_eq!(meta.row_count, 0);
    assert_eq!(meta.t_min_ns, 0);
    assert_eq!(meta.t_max_ns, 0);
}

#[test]
fn chunk_paths_are_zero_padded_and_ordered() {
    let storage = SessionStorage::new("./data".to_string());
    assert_eq!(storage.chunk_path("abc", 0), "./data/abc/chunks/000.arrow");
    assert_eq!(storage.chunk_path("abc", 7), "./data/abc/chunks/007.arrow");
    assert_eq!(storage.chunk_path("abc", 42), "./data/abc/chunks/042.arrow");
    assert_eq!(storage.chunk_path("abc", 123), "./data/abc/chunks/123.arrow");
    assert_eq!(storage.session_path("abc"), "./data/abc");
}

#[test]
fn meta_distinct_sets_are_sorted_and_skip_zero_tags() {
    let mut collector = MetaCollector::new();
    collector.update(&msg(0, 50, 9, 2, 300, "{}"));
    collector.update(&msg(1, 10, 3, 2, 0, "{}"));
    collector.update(&msg(2, 30, 9, 7, 5, "{}"));
    let meta = collector.into_meta();
    assert_eq!(meta.row_count, 3);
    assert_eq!(meta.t_min_ns, 10);
    assert_eq!(meta.t_max_ns, 50);
    assert_eq!(meta.distinct_s, vec![3, 9]);
    assert_eq!(meta.distinct_f, vec![2, 7]);
    // 0-valued tags never enter the distinct sets.
    assert_eq!(meta.distinct_ceid, vec![5, 300]);
    assert_eq!(meta.distinct_vid, Vec::<u32>::new());
    assert_eq!(meta.distinct_rptid, Vec::<u32>::new());
}

#[test]
fn builder_rotation_primitives() {
    let mut b = ArrowBuilder::new();
    assert!(b.is_empty());
    b.push(&msg(0, 1, 1, 1, 0, "{}"));
    b.push(&msg(1, 2, 1, 1, 0, "{}"));
    assert_eq!(b.len(), 2);
    b.clear();
    assert!(b.is_empty());
}

#[test]
fn payload_round_trip_through_store_and_serialization() {
    // The store hands back exactly what was put in; a full serialize /
    // reopen cycle through the payload file format preserves the value
    // structurally.
    let mut storage = SessionStorage::new("./data".to_string());
    let id = storage.create_session().unwrap();
    let body = "{\"secs_tree\":{\"t\":\"L\",\"items\":[1,2,3]}}";
    storage.write_payload(&id, 7, body).unwrap();
    let back = storage.read_payload(&id, 7).unwrap();
    assert_eq!(back, body);

    // Emulate the on-disk cycle: text -> value -> packed bytes ->
    // value -> text.
    let value: serde_json::Value = serde_json::from_str(&back).unwrap();
    let packed = rmp_serde::to_vec(&value).unwrap();
    let reopened: serde_json::Value = rmp_serde::from_slice(&packed).unwrap();
    assert_eq!(reopened, value);
    assert_eq!(
        serde_json::to_string(&reopened).unwrap(),
        serde_json::to_string(&value).unwrap()
    );

    // A missing payload is told apart from a missing session.
    assert!(matches!(
        storage.read_payload(&id, 8),
        Err(StoreError::PayloadNotFound)
    ));
    assert!(matches!(
        storage.read_payload("nonexistent", 7),
        Err(StoreError::SessionNotFound)
    ));
}

#[test]
fn payload_overwrite_replaces_the_text() {
    let mut storage = SessionStorage::new("./data".to_string());
    let id = storage.create_session().unwrap();
    storage.write_payload(&id, 1, "{\"v\":1}").unwrap();
    storage.write_payload(&id, 1, "{\"v\":2}").unwrap();
    assert_eq!(storage.read_payload(&id, 1).unwrap(), "{\"v\":2}");
}

#[test]
fn deleting_a_session_removes_every_artifact() {
    let mut storage = SessionStorage::new("./data".to_string());
    let id = storage.create_session().unwrap();
    assert_eq!(id.len(), 36);
    ingest_messages(&mut storage, &id, batch(3)).unwrap();
    assert!(storage.read_meta(&id).is_ok());
    assert!(storage.read_payload(&id, 0).is_ok());
    assert_eq!(storage.list_chunks(&id).unwrap().len(), 1);

    storage.delete_session(&id).unwrap();
    assert!(matches!(storage.read_meta(&id), Err(StoreError::SessionNotFound)));
    assert!(matches!(
        storage.read_payload(&id, 0),
        Err(StoreError::SessionNotFound)
    ));
    assert!(matches!(storage.list_chunks(&id), Err(StoreError::SessionNotFound)));

    // Deleting an absent session stays quiet, as a unit operation.
    storage.delete_session(&id).unwrap();
}

#[test]
fn ingest_into_missing_session_fails() {
    let mut storage = SessionStorage::new("./data".to_string());
    let r = ingest_messages(&mut storage, "nope", batch(1));
    assert!(matches!(r, Err(StoreError::SessionNotFound)));
}

#[test]
fn meta_round_trip_through_store() {
    let mut storage = SessionStorage::new("./data".to_string());
    let id = storage.create_session().unwrap();
    let meta = ingest_messages(&mut storage, &id, batch(5)).unwrap();
    let back = storage.read_meta(&id).unwrap();
    assert_eq!(back.row_count, meta.row_count);
    assert_eq!(back.t_min_ns, meta.t_min_ns);
    assert_eq!(back.t_max_ns, meta.t_max_ns);
    assert_eq!(back.distinct_s, meta.distinct_s);
}
