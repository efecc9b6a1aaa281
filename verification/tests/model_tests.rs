use ack_relay::fingerprint::fingerprint;
use ack_relay::model::{Method, WebHook, WebHookInner};

fn json(text: &str) -> serde_json::Value {
    serde_json::from_str(text).unwrap()
}

#[test]
fn method_canonical_strings() {
    assert_eq!(Method::GET.as_str(), "GET");
    assert_eq!(Method::POST.as_str(), "POST");
    assert_eq!(Method::PATCH.as_str(), "PATCH");
    assert_eq!(Method::PUT.as_str(), "PUT");
    assert_eq!(Method::DELETE.as_str(), "DELETE");
}

#[test]
fn method_tag_round_trip() {
    for m in [Method::GET, Method::POST, Method::PATCH, Method::PUT, Method::DELETE] {
        assert_eq!(Method::from_tag(m.tag()), Some(m));
    }
    assert_eq!(Method::from_tag(5), None);
    assert_eq!(Method::from_tag(255), None);
}

#[test]
fn to_inner_serializes_body_canonically() {
    let w = WebHook {
        url: "http://example.com/hook".to_string(),
        body: Some(json("{\"a\":1}")),
        method: Method::POST,
    };
    let inner = w.to_inner();
    assert_eq!(inner.url, "http://example.com/hook");
    assert_eq!(inner.method, Method::POST);
    assert_eq!(inner.body.as_deref(), Some("{\"a\":1}"));
}

#[test]
fn to_inner_orders_object_keys() {
    // The canonical text is stable: objects serialize with ordered keys, so
    // semantically identical submissions fingerprint identically.
    let w1 = WebHook {
        url: "http://x/y".to_string(),
        body: Some(json("{\"b\":2,\"a\":1}")),
        method: Method::POST,
    };
    let w2 = WebHook {
        url: "http://x/y".to_string(),
        body: Some(json("{\"a\":1,\"b\":2}")),
        method: Method::POST,
    };
    assert_eq!(w1.to_inner(), w2.to_inner());
    assert_eq!(w1.to_inner().body.as_deref(), Some("{\"a\":1,\"b\":2}"));
}

#[test]
fn to_inner_keeps_absent_body() {
    let w = WebHook { url: "u".to_string(), body: None, method: Method::PUT };
    assert_eq!(w.to_inner(), WebHookInner {
        url: "u".to_string(),
        body: None,
        method: Method::PUT,
    });
}

#[test]
fn to_inner_strips_get_body() {
    let w = WebHook {
        url: "http://x/y".to_string(),
        body: Some(json("{\"a\":1}")),
        method: Method::GET,
    };
    let e = w.to_inner();
    assert_eq!(e.body, None);
    assert_eq!(e.url, "http://x/y");
    assert_eq!(e.method, Method::GET);
}

#[test]
fn to_inner_keeps_post_body() {
    let w = WebHook {
        url: "http://x/y".to_string(),
        body: Some(json("{\"a\":1}")),
        method: Method::POST,
    };
    assert_eq!(w.to_inner().body.as_deref(), Some("{\"a\":1}"));
}

#[test]
fn get_body_parses_back() {
    let w = WebHook {
        url: "http://x/y".to_string(),
        body: Some(json("{\"a\":[1,2,3]}")),
        method: Method::POST,
    };
    let inner = w.to_inner();
    assert_eq!(inner.get_body(), Some(json("{\"a\":[1,2,3]}")));
}

#[test]
fn get_body_absent_without_body() {
    let inner = WebHookInner { url: "u".to_string(), body: None, method: Method::GET };
    assert_eq!(inner.get_body(), None);
}

#[test]
fn get_body_absent_on_unparsable_text() {
    let inner = WebHookInner {
        url: "u".to_string(),
        body: Some("not json".to_string()),
        method: Method::POST,
    };
    assert_eq!(inner.get_body(), None);
}

#[test]
fn fingerprint_deterministic() {
    let e = WebHookInner {
        url: "http://x/y".to_string(),
        body: Some("{\"a\":1}".to_string()),
        method: Method::POST,
    };
    assert_eq!(fingerprint(&e), fingerprint(&e.clone()));
}

#[test]
fn fingerprint_of_get_with_body_equals_no_body() {
    let with_body = WebHook {
        url: "http://x/y".to_string(),
        body: Some(json("{\"a\":1}")),
        method: Method::GET,
    };
    let without_body = WebHook { url: "http://x/y".to_string(), body: None, method: Method::GET };
    assert_eq!(
        fingerprint(&with_body.to_inner()),
        fingerprint(&without_body.to_inner())
    );
}

#[test]
fn fingerprint_separates_fields() {
    // The per-field hasher writes keep distinct tuples distinct even where a
    // naive concatenation would collide.
    let a = WebHookInner {
        url: "ab".to_string(),
        body: Some("c".to_string()),
        method: Method::POST,
    };
    let b = WebHookInner {
        url: "a".to_string(),
        body: Some("bc".to_string()),
        method: Method::POST,
    };
    assert_ne!(fingerprint(&a), fingerprint(&b));
}
