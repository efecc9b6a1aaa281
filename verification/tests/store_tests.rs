use ack_relay::codec::encode;
use ack_relay::fingerprint::fingerprint;
use ack_relay::model::{Method, WebHook, WebHookInner};
use ack_relay::store::{decode_rows, ReDBStore, Store, StoreError};

fn json(text: &str) -> serde_json::Value {
    serde_json::from_str(text).unwrap()
}

/// Opens a store and removes whatever a previous run left in it, so each
/// test starts from an empty table.
fn fresh_store(path: &str) -> ReDBStore {
    let mut store = ReDBStore::open(path).unwrap().0;
    let keys: Vec<u64> = store.get_entries().unwrap().into_iter().map(|(k, _)| k).collect();
    store.validate_entries(keys).unwrap();
    assert!(store.get_entries().unwrap().is_empty());
    store
}

#[test]
fn fresh_store_snapshot_is_empty() {
    let (store, fresh) = ReDBStore::open("/tmp/ack_relay_test_fresh.redb").unwrap();
    // A store whose queue table was never written reports itself fresh and
    // snapshots as empty; a file kept from an earlier run is not fresh.
    let snapshot = store.get_entries().unwrap();
    assert!(!fresh || snapshot.is_empty());
}

#[test]
fn enqueue_then_snapshot_contains_entry() {
    let mut store = fresh_store("/tmp/ack_relay_test_enqueue.redb");
    let w = WebHook {
        url: "http://example.com/hook".to_string(),
        body: Some(json("{\"a\":1}")),
        method: Method::POST,
    };
    store.store(&w).unwrap();
    let snapshot = store.get_entries().unwrap();
    let expected = w.to_inner();
    assert_eq!(snapshot, vec![(fingerprint(&expected), expected)]);
}

#[test]
fn dedup_same_canonical_tuple_keeps_one_row() {
    let mut store = fresh_store("/tmp/ack_relay_test_dedup.redb");
    let w1 = WebHook {
        url: "http://example.com/hook".to_string(),
        body: Some(json("{\"a\":1,\"b\":2}")),
        method: Method::POST,
    };
    let w2 = WebHook {
        url: "http://example.com/hook".to_string(),
        body: Some(json("{\"b\":2,\"a\":1}")),
        method: Method::POST,
    };
    store.store(&w1).unwrap();
    store.store(&w2).unwrap();
    let snapshot = store.get_entries().unwrap();
    assert_eq!(snapshot.len(), 1);
    assert_eq!(snapshot[0].0, fingerprint(&w1.to_inner()));
    assert_eq!(snapshot[0].0, fingerprint(&w2.to_inner()));
}

#[test]
fn get_with_body_stores_bodiless_entry() {
    let mut store = fresh_store("/tmp/ack_relay_test_getnorm.redb");
    let with_body = WebHook {
        url: "http://x/y".to_string(),
        body: Some(json("{\"a\":1}")),
        method: Method::GET,
    };
    let without_body = WebHook { url: "http://x/y".to_string(), body: None, method: Method::GET };
    store.store(&with_body).unwrap();
    let snapshot = store.get_entries().unwrap();
    assert_eq!(snapshot.len(), 1);
    assert_eq!(snapshot[0].1, WebHookInner {
        url: "http://x/y".to_string(),
        body: None,
        method: Method::GET,
    });
    assert_eq!(snapshot[0].0, fingerprint(&without_body.to_inner()));
    // Submitting the bodiless form lands on the same row.
    store.store(&without_body).unwrap();
    assert_eq!(store.get_entries().unwrap().len(), 1);
}

#[test]
fn acknowledge_absent_fingerprint_changes_nothing() {
    let mut store = fresh_store("/tmp/ack_relay_test_ackabsent.redb");
    let w = WebHook { url: "http://x/y".to_string(), body: None, method: Method::PUT };
    store.store(&w).unwrap();
    let before = store.get_entries().unwrap();
    let absent = before[0].0.wrapping_add(1);
    store.validate_entries(vec![absent]).unwrap();
    assert_eq!(store.get_entries().unwrap(), before);
    // Acknowledging the same absent fingerprint again is just as safe.
    store.validate_entries(vec![absent]).unwrap();
    assert_eq!(store.get_entries().unwrap(), before);
}

#[test]
fn snapshot_after_acknowledge_omits_acknowledged() {
    let mut store = fresh_store("/tmp/ack_relay_test_ackclear.redb");
    let w1 = WebHook { url: "http://x/1".to_string(), body: None, method: Method::POST };
    let w2 = WebHook { url: "http://x/2".to_string(), body: None, method: Method::POST };
    store.store(&w1).unwrap();
    store.store(&w2).unwrap();
    let k1 = fingerprint(&w1.to_inner());
    let k2 = fingerprint(&w2.to_inner());
    store.validate_entries(vec![k1]).unwrap();
    let snapshot = store.get_entries().unwrap();
    assert!(snapshot.iter().all(|(k, _)| *k != k1));
    assert!(snapshot.iter().any(|(k, _)| *k == k2));
    assert_eq!(snapshot.len(), 1);
}

#[test]
fn restart_keeps_entries_byte_identical() {
    let path = "/tmp/ack_relay_test_restart.redb";
    let before;
    {
        let mut store = fresh_store(path);
        let w1 = WebHook {
            url: "http://x/1".to_string(),
            body: Some(json("{\"n\":7}")),
            method: Method::PATCH,
        };
        let w2 = WebHook { url: "http://x/2".to_string(), body: None, method: Method::DELETE };
        store.store(&w1).unwrap();
        store.store(&w2).unwrap();
        before = store.get_entries().unwrap();
        assert_eq!(before.len(), 2);
    }
    let (reopened, fresh) = ReDBStore::open(path).unwrap();
    assert!(!fresh);
    assert_eq!(reopened.get_entries().unwrap(), before);
}

#[test]
fn decode_rows_reports_corruption() {
    let good = encode(&WebHookInner {
        url: "http://x/y".to_string(),
        body: None,
        method: Method::POST,
    });
    assert!(decode_rows(&vec![(1u64, good.clone())]).is_ok());
    assert!(decode_rows(&vec![(1u64, good), (2u64, vec![9u8, 9u8, 9u8])]).is_err());
}

#[test]
fn open_fails_on_a_directory_path() {
    assert_eq!(ReDBStore::open("/tmp").err(), Some(StoreError::Backend));
}
