//! A full sync cycle simulated against in-memory stores, plus the merge
//! engine on its own.

use webext_storage::json::JsonObject;
use webext_storage::json::JsonValue;
use webext_storage::json::json_eq;
use webext_storage::json::json_obj_eq;
use webext_storage::store::Db;
use webext_storage::store::DbData;
use webext_storage::store::get;
use webext_storage::store::get_local_data;
use webext_storage::store::get_mirror_data;
use webext_storage::store::has_pending;
use webext_storage::store::clear;
use webext_storage::incoming::IncomingAction;
use webext_storage::incoming::IncomingPayload;
use webext_storage::incoming::StagedItem;
use webext_storage::incoming::apply_actions;
use webext_storage::incoming::get_incoming;
use webext_storage::incoming::merge;
use webext_storage::incoming::plan_incoming;
use webext_storage::incoming::stage_incoming;
use webext_storage::incoming::stage_payload;
use webext_storage::outgoing::OutgoingInfo;
use webext_storage::outgoing::get_outgoing;
use webext_storage::outgoing::record_uploaded;
use webext_storage::CancelSignal;
use webext_storage::Error;

/// Builds a JSON object of string-valued fields.
fn obj(pairs: &[(&str, &str)]) -> JsonObject {
    let mut o = JsonObject::new();
    for (k, v) in pairs {
        o.insert(k.to_string(), JsonValue::Str(v.to_string()));
    }
    o
}

/// Builds a JSON object value of string-valued fields.
fn objv(pairs: &[(&str, &str)]) -> JsonValue {
    JsonValue::Obj(obj(pairs))
}

/// An incoming data payload, as the transport would hand it over.
fn payload(guid: &str, ext_id: &str, data: &str) -> IncomingPayload {
    IncomingPayload {
        server_id: guid.to_string(),
        key: ext_id.to_string(),
        data: Some(data.to_string()),
        deleted: false,
        server_timestamp: 0,
    }
}

// Here we simulate everything done by a "full sync", just minus the engine:
// stage, classify, plan, apply, diff, and record the upload.  Returns the
// records we uploaded.
fn do_sync(db: &mut Db, incoming: Vec<IncomingPayload>) -> Vec<OutgoingInfo> {
    let never = CancelSignal::never();
    let (staged, malformed) = stage_incoming(&incoming, &never).unwrap();
    assert!(malformed.is_empty());
    let classified = get_incoming(db, &staged);
    let mut actions: Vec<(StagedItem, IncomingAction)> = Vec::new();
    for (item, state) in classified {
        actions.push((item, plan_incoming(state)));
    }
    apply_actions(db, &actions, &never).unwrap();
    let outgoing = get_outgoing(db, &never).unwrap();
    record_uploaded(db, &outgoing, 1000, &never).unwrap();
    outgoing
}

// Check *both* the mirror and local API have ended up with the specified
// data, and that nothing is left pending.
fn check_finished_with(db: &Db, ext_id: &str, val: &JsonValue) {
    let local = get(db, &ext_id.to_string()).expect("should have a local value");
    assert!(json_eq(&local, val));
    match get_mirror_data(db, &ext_id.to_string()) {
        DbData::Data(m) => assert!(json_eq(&m, val)),
        other => panic!("mirror should hold data, got {:?}", other),
    }
    assert!(!has_pending(db));
}

fn assert_merge_gives(r: IncomingAction, expected: &JsonObject) {
    match r {
        IncomingAction::Merge { data } => match data {
            JsonValue::Obj(o) => assert!(json_obj_eq(&o, expected)),
            other => panic!("merge result should be an object, got {:?}", other),
        },
        other => panic!("expected a merge, got {:?}", other),
    }
}

#[test]
fn test_3way_merging() {
    // No conflict - identical local and remote.
    assert!(matches!(
        merge(
            obj(&[("one", "one"), ("two", "two")]),
            obj(&[("two", "two"), ("one", "one")]),
            Some(obj(&[("parent_only", "parent")])),
        ),
        IncomingAction::Same
    ));
    assert_merge_gives(
        merge(
            obj(&[("other_only", "other"), ("common", "common")]),
            obj(&[("ours_only", "ours"), ("common", "common")]),
            Some(obj(&[("parent_only", "parent"), ("common", "old_common")])),
        ),
        &obj(&[("other_only", "other"), ("ours_only", "ours"), ("common", "common")]),
    );
    // Simple conflict - parent value is neither local nor incoming. incoming wins.
    assert_merge_gives(
        merge(
            obj(&[("other_only", "other"), ("common", "incoming")]),
            obj(&[("ours_only", "ours"), ("common", "local")]),
            Some(obj(&[("parent_only", "parent"), ("common", "parent")])),
        ),
        &obj(&[("other_only", "other"), ("ours_only", "ours"), ("common", "incoming")]),
    );
    // Local change, no conflict.
    assert_merge_gives(
        merge(
            obj(&[("other_only", "other"), ("common", "old_value")]),
            obj(&[("ours_only", "ours"), ("common", "new_value")]),
            Some(obj(&[("parent_only", "parent"), ("common", "old_value")])),
        ),
        &obj(&[("other_only", "other"), ("ours_only", "ours"), ("common", "new_value")]),
    );
}

#[test]
fn test_simple_outgoing_sync() {
    // So we are starting with an empty local store and empty server store.
    let mut db = Db::new();
    let data = objv(&[("key1", "key1-value"), ("key2", "key2-value")]);
    webext_storage::store::set(&mut db, &"ext-id".to_string(), objv(&[("key1", "key1-value"), ("key2", "key2-value")]));
    assert_eq!(do_sync(&mut db, vec![]).len(), 1);
    check_finished_with(&db, "ext-id", &data);
}

#[test]
fn test_simple_tombstone() {
    // Tombstones are only kept when the mirror has that record - so first
    // test that, then arrange for the mirror to have the record.
    let mut db = Db::new();
    let data = objv(&[("key1", "key1-value"), ("key2", "key2-value")]);
    webext_storage::store::set(&mut db, &"ext-id".to_string(), objv(&[("key1", "key1-value"), ("key2", "key2-value")]));
    match get_local_data(&db, &"ext-id".to_string()) {
        DbData::Data(v) => assert!(json_eq(&v, &data)),
        other => panic!("expected local data, got {:?}", other),
    }
    // hasn't synced yet, so clearing shouldn't write a tombstone.
    clear(&mut db, &"ext-id".to_string());
    assert_eq!(get_local_data(&db, &"ext-id".to_string()), DbData::NoRow);
    // now set data again and sync and *then* remove.
    webext_storage::store::set(&mut db, &"ext-id".to_string(), objv(&[("key1", "key1-value"), ("key2", "key2-value")]));
    assert_eq!(do_sync(&mut db, vec![]).len(), 1);
    assert!(get_local_data(&db, &"ext-id".to_string()).has_data());
    assert!(get_mirror_data(&db, &"ext-id".to_string()).has_data());
    clear(&mut db, &"ext-id".to_string());
    assert_eq!(get_local_data(&db, &"ext-id".to_string()), DbData::NullRow);
    // then after syncing, the tombstone will be in the mirror but the local
    // row has been removed.
    assert_eq!(do_sync(&mut db, vec![]).len(), 1);
    assert_eq!(get_local_data(&db, &"ext-id".to_string()), DbData::NoRow);
    assert_eq!(get_mirror_data(&db, &"ext-id".to_string()), DbData::NullRow);
}

#[test]
fn test_merged() {
    let mut db = Db::new();
    webext_storage::store::set(&mut db, &"ext-id".to_string(), objv(&[("key1", "key1-value")]));
    // Incoming payload without 'key1' and conflicting for 'key2'
    let p = payload("guid", "ext-id", "{\"key2\": \"key2-value\"}");
    assert_eq!(do_sync(&mut db, vec![p]).len(), 1);
    check_finished_with(
        &db,
        "ext-id",
        &objv(&[("key1", "key1-value"), ("key2", "key2-value")]),
    );
}

#[test]
fn test_reconciled() {
    let mut db = Db::new();
    webext_storage::store::set(&mut db, &"ext-id".to_string(), objv(&[("key1", "key1-value")]));
    // Incoming payload with the same data
    let p = payload("guid", "ext-id", "{\"key1\": \"key1-value\"}");
    // Should be no outgoing records as we reconciled.
    assert_eq!(do_sync(&mut db, vec![p]).len(), 0);
    check_finished_with(&db, "ext-id", &objv(&[("key1", "key1-value")]));
}

#[test]
fn test_conflicting_incoming() {
    let mut db = Db::new();
    webext_storage::store::set(&mut db, &"ext-id".to_string(), objv(&[("key1", "key1-value"), ("key2", "key2-value")]));
    // Incoming payload without 'key1' and conflicting for 'key2'
    let p = payload("guid", "ext-id", "{\"key2\": \"key2-incoming\"}");
    assert_eq!(do_sync(&mut db, vec![p]).len(), 1);
    check_finished_with(
        &db,
        "ext-id",
        &objv(&[("key1", "key1-value"), ("key2", "key2-incoming")]),
    );
}

#[test]
fn test_three_way_scenario() {
    // Mirror gets a baseline via a first sync, then local and server both
    // change key2: the server's change wins, the local-only key1 survives.
    let mut db = Db::new();
    webext_storage::store::set(&mut db, &"ext-id".to_string(), objv(&[("key1", "x"), ("key2", "base")]));
    assert_eq!(do_sync(&mut db, vec![]).len(), 1);
    webext_storage::store::set(&mut db, &"ext-id".to_string(), objv(&[("key1", "x"), ("key2", "local")]));
    let p = payload("guid", "ext-id", "{\"key2\": \"incoming\"}");
    assert_eq!(do_sync(&mut db, vec![p]).len(), 1);
    check_finished_with(&db, "ext-id", &objv(&[("key1", "x"), ("key2", "incoming")]));
}

#[test]
fn test_noop_cycle() {
    // An empty incoming batch over a store with no pending change moves
    // nothing and uploads nothing.
    let mut db = Db::new();
    webext_storage::store::set(&mut db, &"ext-id".to_string(), objv(&[("key1", "v")]));
    assert_eq!(do_sync(&mut db, vec![]).len(), 1);
    let before = get(&db, &"ext-id".to_string()).unwrap();
    assert_eq!(do_sync(&mut db, vec![]).len(), 0);
    let after = get(&db, &"ext-id".to_string()).unwrap();
    assert!(json_eq(&before, &after));
    assert!(!has_pending(&db));
}

#[test]
fn test_tombstone_non_generation() {
    // Creating a key then clearing it before any sync leaves no rows and
    // nothing to upload.
    let mut db = Db::new();
    webext_storage::store::set(&mut db, &"never-synced".to_string(), objv(&[("k", "v")]));
    clear(&mut db, &"never-synced".to_string());
    assert_eq!(get_local_data(&db, &"never-synced".to_string()), DbData::NoRow);
    assert_eq!(get_mirror_data(&db, &"never-synced".to_string()), DbData::NoRow);
    assert_eq!(do_sync(&mut db, vec![]).len(), 0);
}

#[test]
fn test_incoming_tombstone_unknown_key() {
    // A server deletion for a key this device never saw leaves nothing.
    let mut db = Db::new();
    let p = IncomingPayload {
        server_id: "guid".to_string(),
        key: "ext-id".to_string(),
        data: None,
        deleted: true,
        server_timestamp: 0,
    };
    assert_eq!(do_sync(&mut db, vec![p]).len(), 0);
    assert_eq!(get_local_data(&db, &"ext-id".to_string()), DbData::NoRow);
    assert_eq!(get_mirror_data(&db, &"ext-id".to_string()), DbData::NoRow);
}

#[test]
fn test_malformed_payload() {
    // Data that is not JSON: the payload alone errors, and a batch skips
    // and reports the key without failing.
    let p = payload("guid", "bad-ext", "this is not json");
    assert_eq!(stage_payload(&p).unwrap_err(), Error::MalformedPayload);
    let never = CancelSignal::never();
    let good = payload("guid2", "good-ext", "{\"a\": \"b\"}");
    let (staged, malformed) = stage_incoming(
        &vec![payload("guid", "bad-ext", "not json"), good],
        &never,
    )
    .unwrap();
    assert_eq!(staged.len(), 1);
    assert_eq!(staged[0].key, "good-ext");
    assert_eq!(malformed, vec!["bad-ext".to_string()]);
}

#[test]
fn test_parse_roundtrip() {
    // The staged content is the parsed structure, not the raw text.
    let p = payload("guid", "ext-id", "{\"a\": true, \"b\": [1, \"two\", null]}");
    let item = stage_payload(&p).unwrap();
    let content = item.content.expect("data payload should have content");
    let mut expected = JsonObject::new();
    expected.insert("a".to_string(), JsonValue::Bool(true));
    expected.insert(
        "b".to_string(),
        JsonValue::Arr(vec![
            JsonValue::Num("1".to_string()),
            JsonValue::Str("two".to_string()),
            JsonValue::Null,
        ]),
    );
    assert!(json_eq(&content, &JsonValue::Obj(expected)));
}

#[test]
fn test_interrupted_phase_has_no_effect() {
    // A raised cancellation signal interrupts each phase and leaves the
    // stores untouched.
    let mut db = Db::new();
    webext_storage::store::set(&mut db, &"ext-id".to_string(), objv(&[("key1", "v")]));
    let raised = CancelSignal { raised: true };
    assert_eq!(
        stage_incoming(&vec![], &raised).unwrap_err(),
        Error::Interrupted
    );
    assert_eq!(
        apply_actions(&mut db, &vec![], &raised).unwrap_err(),
        Error::Interrupted
    );
    assert_eq!(get_outgoing(&db, &raised).unwrap_err(), Error::Interrupted);
    assert_eq!(
        record_uploaded(&mut db, &vec![], 1000, &raised).unwrap_err(),
        Error::Interrupted
    );
    match get_local_data(&db, &"ext-id".to_string()) {
        DbData::Data(v) => assert!(json_eq(&v, &objv(&[("key1", "v")]))),
        other => panic!("local row should be untouched, got {:?}", other),
    }
    assert!(has_pending(&db));
}

#[test]
fn test_fresh_server_id_shape() {
    // A never-synced key gets a fresh sixteen-digit id; a mirrored key
    // keeps the server's id.
    let mut db = Db::new();
    webext_storage::store::set(&mut db, &"ext-id".to_string(), objv(&[("key1", "v")]));
    let never = CancelSignal::never();
    let out = get_outgoing(&db, &never).unwrap();
    assert_eq!(out.len(), 1);
    assert_eq!(out[0].key, "ext-id");
    assert_eq!(out[0].server_id.len(), 16);
}

#[test]
fn test_opaque_value_server_wins() {
    // A non-object payload is an opaque whole value: with no baseline the
    // incoming value wins.
    let mut db = Db::new();
    webext_storage::store::set(&mut db, &"ext-id".to_string(), JsonValue::Str("mine".to_string()));
    let p = payload("guid", "ext-id", "\"theirs\"");
    assert_eq!(do_sync(&mut db, vec![p]).len(), 0);
    let v = get(&db, &"ext-id".to_string()).unwrap();
    assert!(json_eq(&v, &JsonValue::Str("theirs".to_string())));
}

#[test]
fn test_noop_matches_reconciled() {
    // After a sync the local row is unmodified; identical incoming data
    // only refreshes the mirror and uploads nothing.
    let mut db = Db::new();
    webext_storage::store::set(&mut db, &"ext-id".to_string(), objv(&[("key1", "v")]));
    assert_eq!(do_sync(&mut db, vec![]).len(), 1);
    let p = payload("guid", "ext-id", "{\"key1\": \"v\"}");
    assert_eq!(do_sync(&mut db, vec![p]).len(), 0);
    check_finished_with(&db, "ext-id", &objv(&[("key1", "v")]));
}

#[test]
fn test_local_delete_then_incoming_data() {
    // The key was cleared locally after a sync; new server data arrives for
    // it: the server wins and the value comes back.
    let mut db = Db::new();
    webext_storage::store::set(&mut db, &"ext-id".to_string(), objv(&[("key1", "old")]));
    assert_eq!(do_sync(&mut db, vec![]).len(), 1);
    clear(&mut db, &"ext-id".to_string());
    assert_eq!(get_local_data(&db, &"ext-id".to_string()), DbData::NullRow);
    let p = payload("guid", "ext-id", "{\"key1\": \"new\"}");
    assert_eq!(do_sync(&mut db, vec![p]).len(), 0);
    check_finished_with(&db, "ext-id", &objv(&[("key1", "new")]));
}

#[test]
fn test_remote_deletes_modified_local() {
    // A server deletion always wins over a local edit.
    let mut db = Db::new();
    webext_storage::store::set(&mut db, &"ext-id".to_string(), objv(&[("key1", "v1")]));
    assert_eq!(do_sync(&mut db, vec![]).len(), 1);
    webext_storage::store::set(&mut db, &"ext-id".to_string(), objv(&[("key1", "v2")]));
    let p = IncomingPayload {
        server_id: "guid".to_string(),
        key: "ext-id".to_string(),
        data: None,
        deleted: true,
        server_timestamp: 0,
    };
    assert_eq!(do_sync(&mut db, vec![p]).len(), 0);
    assert_eq!(get_local_data(&db, &"ext-id".to_string()), DbData::NoRow);
    assert_eq!(get_mirror_data(&db, &"ext-id".to_string()), DbData::NoRow);
}
