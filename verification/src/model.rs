//! The delivery data model: the supported HTTP verbs and the canonical
//! internal shape of a pending delivery entry.

use vstd::prelude::*;
use crate::json::{json_from_str, json_parsed, json_text, json_to_string};

verus! {

/// The closed set of HTTP verbs a webhook may use. Each variant maps 1:1 to
/// its canonical uppercase string form.
#[derive(Debug, Clone, Copy, PartialEq, Eq, Structural, Hash)]
pub enum Method {
    GET,
    POST,
    PATCH,
    PUT,
    DELETE,
}

/// The canonical uppercase string form of a verb.
pub open spec fn method_str(m: Method) -> Seq<char> {
    match m {
        Method::GET => "GET"@,
        Method::POST => "POST"@,
        Method::PATCH => "PATCH"@,
        Method::PUT => "PUT"@,
        Method::DELETE => "DELETE"@,
    }
}

/// A one-byte tag for each verb, used by the codec and the fingerprint.
/// Distinct verbs have distinct tags, and every tag is below 5.
pub open spec fn method_tag(m: Method) -> u8 {
    match m {
        Method::GET => 0,
        Method::POST => 1,
        Method::PATCH => 2,
        Method::PUT => 3,
        Method::DELETE => 4,
    }
}

/// The verb a tag stands for: the inverse of `method_tag` on tags below 5.
pub open spec fn method_of_tag(t: u8) -> Option<Method> {
    match t {
        0u8 => Some(Method::GET),
        1u8 => Some(Method::POST),
        2u8 => Some(Method::PATCH),
        3u8 => Some(Method::PUT),
        4u8 => Some(Method::DELETE),
        _ => None,
    }
}

impl Method {
    /// The canonical uppercase string form of this verb.
    pub fn as_str(&self) -> (r: &'static str)
        ensures
            r@ == method_str(*self),
    {
        match self {
            Method::GET => "GET",
            Method::POST => "POST",
            Method::PATCH => "PATCH",
            Method::PUT => "PUT",
            Method::DELETE => "DELETE",
        }
    }

    /// The one-byte tag of this verb.
    pub fn tag(&self) -> (r: u8)
        ensures
            r == method_tag(*self),
    {
        match self {
            Method::GET => 0,
            Method::POST => 1,
            Method::PATCH => 2,
            Method::PUT => 3,
            Method::DELETE => 4,
        }
    }

    /// The verb a tag stands for, if any.
    pub fn from_tag(t: u8) -> (r: Option<Method>)
        ensures
            r == method_of_tag(t),
    {
        match t {
            0u8 => Some(Method::GET),
            1u8 => Some(Method::POST),
            2u8 => Some(Method::PATCH),
            3u8 => Some(Method::PUT),
            4u8 => Some(Method::DELETE),
            _ => None,
        }
    }
}

/// Distinct verbs carry distinct tags, so a stored tag determines the verb.
pub proof fn lemma_method_tag_injective(a: Method, b: Method)
    ensures
        method_tag(a) == method_tag(b) ==> a == b,
        method_of_tag(method_tag(a)) == Some(a),
{
}

/// A tag that stands for a verb is that verb's tag.
pub proof fn lemma_method_of_tag_inverse(t: u8)
    ensures
        method_of_tag(t) matches Some(m) ==> method_tag(m) == t,
{
}

/// The canonical internal shape of a pending delivery: the target URL, the
/// body re-serialized to its canonical JSON text (absent for GET deliveries),
/// and the verb.
#[derive(Debug, Clone, PartialEq, Hash)]
pub struct WebHookInner {
    pub url: String,
    pub body: Option<String>,
    pub method: Method,
}

/// The mathematical value of a stored entry: the URL's characters, the body
/// text's characters if a body is present, and the verb.
pub ghost struct EntryModel {
    pub url: Seq<char>,
    pub body: Option<Seq<char>>,
    pub method: Method,
}

impl View for WebHookInner {
    type V = EntryModel;

    open spec fn view(&self) -> EntryModel {
        EntryModel { url: self.url@, body: self.body.deep_view(), method: self.method }
    }
}

impl WebHookInner {
    /// The stored body text parsed back into a structured JSON value, for
    /// attaching to an outbound delivery; absent if the entry has no body or
    /// the text does not parse.
    pub fn get_body(&self) -> (r: Option<serde_json::Value>)
        ensures
            r == (match self.body {
                None => None::<serde_json::Value>,
                Some(b) => json_parsed(b@),
            }),
    {
        match &self.body {
            None => None,
            Some(b) => json_from_str(b.as_str()),
        }
    }
}

/// The shape accepted at the system boundary: a target URL, an optional
/// structured JSON body, and a verb.
pub struct WebHook {
    pub url: String,
    pub body: Option<serde_json::Value>,
    pub method: Method,
}

/// The canonical entry a webhook normalizes to: the URL verbatim, the verb
/// verbatim, and the body re-serialized to its canonical JSON text — except
/// that a GET delivery never carries a body, whatever was submitted. Dedup,
/// the fingerprint and storage see this form only.
pub open spec fn canonical_of(w: WebHook) -> EntryModel {
    EntryModel {
        url: w.url@,
        body: if w.method == Method::GET {
            None
        } else {
            match w.body {
                None => None,
                Some(v) => Some(json_text(v)),
            }
        },
        method: w.method,
    }
}

impl WebHook {
    /// Normalizes to the canonical entry: the body is re-serialized to its
    /// canonical JSON text, and a GET delivery's body is stripped, whatever
    /// was submitted.
    pub fn to_inner(&self) -> (r: WebHookInner)
        ensures
            r@ == canonical_of(*self),
    {
        WebHookInner {
            url: self.url.clone(),
            method: self.method,
            body: if matches!(self.method, Method::GET) {
                None
            } else {
                match &self.body {
                    None => None,
                    Some(v) => Some(json_to_string(v)),
                }
            },
        }
    }
}

} // verus!
