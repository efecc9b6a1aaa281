//! The fingerprint: the 64-bit key of the durable queue, derived
//! deterministically from a canonical entry's (url, method, body) tuple.

use std::collections::hash_map::DefaultHasher;
use std::hash::Hasher;
use vstd::prelude::*;
use vstd::std_specs::hash::DefaultHasherAdditionalSpecFns;
use vstd::utf8::encode_utf8;
use crate::model::{method_tag, EntryModel, WebHookInner};

verus! {

/// The byte sequences fed to the hasher, one field per write: the method
/// tag, the URL's UTF-8 bytes, a body presence tag, and the body's UTF-8
/// bytes if present. Entries with distinct (url, method, body) tuples feed
/// distinct write sequences.
pub open spec fn hash_writes(e: EntryModel) -> Seq<Seq<u8>> {
    match e.body {
        None => seq![seq![method_tag(e.method)], encode_utf8(e.url), seq![0u8]],
        Some(b) => seq![seq![method_tag(e.method)], encode_utf8(e.url), seq![1u8], encode_utf8(b)],
    }
}

/// The fingerprint of an entry: what the standard 64-bit hasher returns for
/// the entry's write sequence. A function of the (url, method, body) tuple
/// alone, so entries with equal canonical tuples share a fingerprint.
pub open spec fn fingerprint_of(e: EntryModel) -> u64 {
    DefaultHasher::spec_finish(hash_writes(e))
}

/// Computes the fingerprint of an entry.
pub fn fingerprint(e: &WebHookInner) -> (r: u64)
    ensures
        r == fingerprint_of(e@),
{
    let mut h = DefaultHasher::new();
    let tag: Vec<u8> = vec![e.method.tag()];
    h.write(tag.as_slice());
    h.write(e.url.as_str().as_bytes());
    match &e.body {
        None => {
            let marker: Vec<u8> = vec![0u8];
            h.write(marker.as_slice());
        },
        Some(b) => {
            let marker: Vec<u8> = vec![1u8];
            h.write(marker.as_slice());
            h.write(b.as_str().as_bytes());
        },
    }
    proof {
        assert(h@ =~~= hash_writes(e@));
    }
    h.finish()
}

} // verus!
