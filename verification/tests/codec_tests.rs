use ack_relay::codec::{decode, encode};
use ack_relay::model::{Method, WebHookInner};

fn entry(url: &str, body: Option<&str>, method: Method) -> WebHookInner {
    WebHookInner { url: url.to_string(), body: body.map(|b| b.to_string()), method }
}

#[test]
fn round_trip_with_body() {
    let e = entry("http://example.com/hook", Some("{\"a\":1}"), Method::POST);
    let bytes = encode(&e);
    assert_eq!(decode(bytes.as_slice()).unwrap(), e);
}

#[test]
fn round_trip_without_body() {
    let e = entry("http://example.com/hook", None, Method::DELETE);
    let bytes = encode(&e);
    assert_eq!(decode(bytes.as_slice()).unwrap(), e);
}

#[test]
fn round_trip_every_method() {
    for m in [Method::GET, Method::POST, Method::PATCH, Method::PUT, Method::DELETE] {
        let e = entry("http://x/y", Some("[1,2]"), m);
        let bytes = encode(&e);
        assert_eq!(decode(bytes.as_slice()).unwrap(), e);
    }
}

#[test]
fn round_trip_empty_url_and_body() {
    let e = entry("", Some(""), Method::PUT);
    let bytes = encode(&e);
    assert_eq!(decode(bytes.as_slice()).unwrap(), e);
}

#[test]
fn round_trip_non_ascii_url() {
    let e = entry("http://example.com/h\u{00e9}llo/\u{4e16}\u{754c}", None, Method::GET);
    let bytes = encode(&e);
    assert_eq!(decode(bytes.as_slice()).unwrap(), e);
}

#[test]
fn decode_rejects_empty() {
    assert!(decode(&[]).is_err());
}

#[test]
fn decode_rejects_truncated() {
    let e = entry("http://example.com/hook", Some("{\"a\":1}"), Method::POST);
    let bytes = encode(&e);
    for cut in 0..bytes.len() {
        assert!(decode(&bytes[..cut]).is_err(), "prefix of length {cut} decoded");
    }
}

#[test]
fn decode_rejects_unknown_method_tag() {
    let e = entry("http://x/y", None, Method::GET);
    let mut bytes = encode(&e);
    bytes[0] = 5;
    assert!(decode(bytes.as_slice()).is_err());
}

#[test]
fn decode_rejects_unknown_body_tag() {
    let e = entry("u", None, Method::GET);
    let mut bytes = encode(&e);
    let last = bytes.len() - 1;
    bytes[last] = 2;
    assert!(decode(bytes.as_slice()).is_err());
}

#[test]
fn decode_rejects_trailing_bytes() {
    let e = entry("http://x/y", Some("{}"), Method::PATCH);
    let mut bytes = encode(&e);
    bytes.push(0);
    assert!(decode(bytes.as_slice()).is_err());
}

#[test]
fn decode_rejects_invalid_utf8_url() {
    let e = entry("ab", None, Method::GET);
    let mut bytes = encode(&e);
    // The URL bytes sit after the method tag and the eight-byte length.
    bytes[9] = 0xff;
    bytes[10] = 0xfe;
    assert!(decode(bytes.as_slice()).is_err());
}

#[test]
fn decode_rejects_oversized_length_field() {
    let e = entry("ab", None, Method::GET);
    let mut bytes = encode(&e);
    bytes[1] = 0xff;
    assert!(decode(bytes.as_slice()).is_err());
}
