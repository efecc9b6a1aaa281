//! The codec: a deterministic byte representation for stored entries.
//!
//! The storage engine keeps opaque byte sequences; this module converts a
//! [`WebHookInner`] to and from that form. `encode` is total; `decode`
//! rejects, with a [`CorruptionError`], every byte sequence that is not the
//! encoding of some entry, and recovers the entry exactly otherwise.
//!
//! Layout: one method tag byte, the URL's byte length as eight big-endian
//! bytes followed by its UTF-8 bytes, then one body tag byte (0 for no body,
//! 1 for a body), and for a body its byte length and UTF-8 bytes in the same
//! form, with nothing after them.

use vstd::prelude::*;
use vstd::slice::{slice_subrange, slice_to_vec};
use vstd::utf8::{decode_utf8, encode_utf8, valid_utf8};
use crate::model::{method_of_tag, method_tag, EntryModel, Method, WebHookInner};

verus! {

broadcast use {
    vstd::utf8::encode_utf8_valid_utf8,
    vstd::utf8::encode_utf8_decode_utf8,
    vstd::utf8::decode_utf8_encode_utf8,
};

/// The error `decode` returns on bytes that are not a valid encoding.
#[derive(Debug, Clone, Copy, PartialEq, Eq, Structural)]
pub struct CorruptionError;

/// The eight big-endian bytes of a 64-bit length field.
pub open spec fn u64_bytes(n: u64) -> Seq<u8> {
    seq![
        (n >> 56) as u8,
        (n >> 48) as u8,
        (n >> 40) as u8,
        (n >> 32) as u8,
        (n >> 24) as u8,
        (n >> 16) as u8,
        (n >> 8) as u8,
        n as u8,
    ]
}

/// The value a length field holds.
pub open spec fn u64_of_bytes(b: Seq<u8>) -> u64
    recommends
        b.len() == 8,
{
    (((b[0] as u64) << 56) | ((b[1] as u64) << 48) | ((b[2] as u64) << 40) | ((b[3] as u64) << 32)
        | ((b[4] as u64) << 24) | ((b[5] as u64) << 16) | ((b[6] as u64) << 8) | (b[7] as u64))
}

/// Reading a length field back gives the length it was written from.
pub proof fn lemma_u64_bytes_roundtrip(n: u64)
    ensures
        u64_of_bytes(u64_bytes(n)) == n,
{
    assert((((((n >> 56) as u8) as u64) << 56) | ((((n >> 48) as u8) as u64) << 48) | ((((n >> 40)
        as u8) as u64) << 40) | ((((n >> 32) as u8) as u64) << 32) | ((((n >> 24) as u8) as u64)
        << 24) | ((((n >> 16) as u8) as u64) << 16) | ((((n >> 8) as u8) as u64) << 8) | ((n
        as u8) as u64)) == n) by (bit_vector);
}

/// Any eight bytes are the length field of the value they hold.
pub proof fn lemma_u64_bytes_inverse(b: Seq<u8>)
    requires
        b.len() == 8,
    ensures
        u64_bytes(u64_of_bytes(b)) == b,
{
    let b0 = b[0];
    let b1 = b[1];
    let b2 = b[2];
    let b3 = b[3];
    let b4 = b[4];
    let b5 = b[5];
    let b6 = b[6];
    let b7 = b[7];
    let n = u64_of_bytes(b);
    assert(n == (((b0 as u64) << 56) | ((b1 as u64) << 48) | ((b2 as u64) << 40) | ((b3 as u64)
        << 32) | ((b4 as u64) << 24) | ((b5 as u64) << 16) | ((b6 as u64) << 8) | (b7 as u64)));
    assert({
        let m = (((b0 as u64) << 56) | ((b1 as u64) << 48) | ((b2 as u64) << 40) | ((b3 as u64)
            << 32) | ((b4 as u64) << 24) | ((b5 as u64) << 16) | ((b6 as u64) << 8) | (b7 as u64));
        &&& (m >> 56) as u8 == b0
        &&& (m >> 48) as u8 == b1
        &&& (m >> 40) as u8 == b2
        &&& (m >> 32) as u8 == b3
        &&& (m >> 24) as u8 == b4
        &&& (m >> 16) as u8 == b5
        &&& (m >> 8) as u8 == b6
        &&& m as u8 == b7
    }) by (bit_vector);
    assert(u64_bytes(n) =~= b);
}

/// An entry whose length fields fit in 64 bits. Every entry held in memory
/// satisfies this: a `String`'s byte length is bounded by the address space.
pub open spec fn wf_entry(e: EntryModel) -> bool {
    &&& encode_utf8(e.url).len() < 0x1_0000_0000_0000_0000
    &&& (e.body matches Some(b) ==> encode_utf8(b).len() < 0x1_0000_0000_0000_0000)
}

/// The byte encoding of an entry.
pub open spec fn encoded(e: EntryModel) -> Seq<u8> {
    seq![method_tag(e.method)] + u64_bytes(encode_utf8(e.url).len() as u64) + encode_utf8(e.url)
        + match e.body {
        None => seq![0u8],
        Some(b) => seq![1u8] + u64_bytes(encode_utf8(b).len() as u64) + encode_utf8(b),
    }
}

/// Where each part of an encoding stands, and the whole length.
pub proof fn lemma_encoded_shape(e: EntryModel)
    requires
        wf_entry(e),
    ensures
        ({
            let u = encode_utf8(e.url);
            let s = encoded(e);
            &&& s.len() == (match e.body {
                None => 10 + u.len(),
                Some(b) => 18 + u.len() + encode_utf8(b).len(),
            })
            &&& s[0] == method_tag(e.method)
            &&& s.subrange(1, 9) == u64_bytes(u.len() as u64)
            &&& s.subrange(9, 9 + u.len() as int) == u
            &&& s[9 + u.len() as int] == (if e.body is Some {
                1u8
            } else {
                0u8
            })
            &&& (e.body matches Some(b) ==> s.subrange(10 + u.len() as int, 18 + u.len() as int) == u64_bytes(
                encode_utf8(b).len() as u64,
            ) && s.subrange(18 + u.len() as int, s.len() as int) == encode_utf8(b))
        }),
{
    let u = encode_utf8(e.url);
    let s = encoded(e);
    assert(s.subrange(1, 9) =~= u64_bytes(u.len() as u64));
    assert(s.subrange(9, 9 + u.len() as int) =~= u);
    match e.body {
        None => {},
        Some(b) => {
            assert(s.subrange(10 + u.len() as int, 18 + u.len() as int) =~= u64_bytes(
                encode_utf8(b).len() as u64,
            ));
            assert(s.subrange(18 + u.len() as int, s.len() as int) =~= encode_utf8(b));
        },
    }
}

/// Round-trip support: no two well-formed entries share an encoding, so
/// decoding an encoded entry recovers exactly the entry that was encoded.
pub proof fn lemma_encoded_injective(a: EntryModel, b: EntryModel)
    requires
        wf_entry(a),
        wf_entry(b),
        encoded(a) == encoded(b),
    ensures
        a == b,
{
    lemma_encoded_shape(a);
    lemma_encoded_shape(b);
    let ua = encode_utf8(a.url);
    let ub = encode_utf8(b.url);
    let s = encoded(a);
    crate::model::lemma_method_tag_injective(a.method, b.method);
    lemma_u64_bytes_roundtrip(ua.len() as u64);
    lemma_u64_bytes_roundtrip(ub.len() as u64);
    assert(ua.len() == ub.len());
    assert(ua =~= ub) by {
        assert(s.subrange(9, 9 + ua.len() as int) == ua);
        assert(s.subrange(9, 9 + ub.len() as int) == ub);
    }
    assert(a.url == b.url) by {
        assert(decode_utf8(encode_utf8(a.url)) == a.url);
        assert(decode_utf8(encode_utf8(b.url)) == b.url);
    }
    match a.body {
        None => {
            assert(b.body is None);
        },
        Some(ba) => {
            assert(b.body is Some);
            let bb = b.body->0;
            lemma_u64_bytes_roundtrip(encode_utf8(ba).len() as u64);
            lemma_u64_bytes_roundtrip(encode_utf8(bb).len() as u64);
            assert(encode_utf8(ba) =~= encode_utf8(bb));
            assert(decode_utf8(encode_utf8(ba)) == ba);
            assert(decode_utf8(encode_utf8(bb)) == bb);
        },
    }
}

/// Appends the eight big-endian bytes of `n`.
fn push_u64(out: &mut Vec<u8>, n: u64)
    ensures
        final(out)@ == old(out)@ + u64_bytes(n),
{
    out.push((n >> 56) as u8);
    out.push((n >> 48) as u8);
    out.push((n >> 40) as u8);
    out.push((n >> 32) as u8);
    out.push((n >> 24) as u8);
    out.push((n >> 16) as u8);
    out.push((n >> 8) as u8);
    out.push(n as u8);
    assert(out@ =~= old(out)@ + u64_bytes(n));
}

/// The value of the eight bytes at `i`.
fn read_u64(bytes: &[u8], i: usize) -> (r: u64)
    requires
        i + 8 <= bytes@.len(),
    ensures
        r == u64_of_bytes(bytes@.subrange(i as int, i as int + 8)),
{
    let r = (((bytes[i] as u64) << 56) | ((bytes[i + 1] as u64) << 48) | ((bytes[i + 2] as u64)
        << 40) | ((bytes[i + 3] as u64) << 32) | ((bytes[i + 4] as u64) << 24) | ((bytes[i
        + 5] as u64) << 16) | ((bytes[i + 6] as u64) << 8) | (bytes[i + 7] as u64));
    proof {
        let s = bytes@.subrange(i as int, i as int + 8);
        assert(s[0] == bytes@[i as int]);
        assert(s[7] == bytes@[i as int + 7]);
    }
    r
}

/// A copy of the bytes from `start` to `end`.
fn copy_range(bytes: &[u8], start: usize, end: usize) -> (r: Vec<u8>)
    requires
        start <= end <= bytes@.len(),
    ensures
        r@ == bytes@.subrange(start as int, end as int),
{
    slice_to_vec(slice_subrange(bytes, start, end))
}

/// Relies on `String::from_utf8` of std: it succeeds exactly on valid UTF-8,
/// and the returned string's characters decode those bytes.
#[verifier::external_body]
fn string_from_utf8(bytes: Vec<u8>) -> (r: Option<String>)
    ensures
        r is Some <==> valid_utf8(bytes@),
        r matches Some(s) ==> s@ == decode_utf8(bytes@),
{
    String::from_utf8(bytes).ok()
}

/// Encodes an entry. Deterministic and total: the result is exactly the
/// entry's byte encoding, and every encodable entry is well formed.
pub fn encode(e: &WebHookInner) -> (r: Vec<u8>)
    ensures
        r@ == encoded(e@),
        wf_entry(e@),
{
    let mut out: Vec<u8> = Vec::new();
    out.push(e.method.tag());
    let mut url_bytes = e.url.as_str().as_bytes_vec();
    push_u64(&mut out, url_bytes.len() as u64);
    out.append(&mut url_bytes);
    match &e.body {
        None => {
            out.push(0u8);
        },
        Some(b) => {
            out.push(1u8);
            let mut body_bytes = b.as_str().as_bytes_vec();
            push_u64(&mut out, body_bytes.len() as u64);
            out.append(&mut body_bytes);
        },
    }
    assert(out@ =~= encoded(e@));
    out
}

/// No well-formed entry encodes to these bytes.
pub open spec fn no_valid_encoding(bytes: Seq<u8>) -> bool {
    forall|e: EntryModel| wf_entry(e) ==> bytes != #[trigger] encoded(e)
}

/// The fixed-position parts of a candidate encoding, as `decode` reads them:
/// the bytes hold at least a header, and the URL length field reads `ulen`,
/// which leaves room for the URL and the body tag.
spec fn header_parsed(bytes: Seq<u8>, ulen: int) -> bool {
    &&& bytes.len() >= 10
    &&& 0 <= ulen <= bytes.len() - 10
    &&& u64_of_bytes(bytes.subrange(1, 9)) as int == ulen
}

/// If bytes that parse a header are the encoding of `e`, the parsed layout
/// matches `e`'s layout part for part.
proof fn lemma_url_part(bytes: Seq<u8>, ulen: int, e: EntryModel)
    requires
        header_parsed(bytes, ulen),
        wf_entry(e),
        bytes == encoded(e),
    ensures
        encode_utf8(e.url).len() == ulen,
        encode_utf8(e.url) == bytes.subrange(9, 9 + ulen),
        bytes[9 + ulen] == (if e.body is Some {
            1u8
        } else {
            0u8
        }),
        e.body is None ==> bytes.len() == 10 + ulen,
        e.body matches Some(b) ==> bytes.len() == 18 + ulen + encode_utf8(b).len()
            && bytes.subrange(10 + ulen, 18 + ulen) == u64_bytes(encode_utf8(b).len() as u64)
            && bytes.subrange(18 + ulen, bytes.len() as int) == encode_utf8(b),
{
    lemma_encoded_shape(e);
    lemma_u64_bytes_roundtrip(encode_utf8(e.url).len() as u64);
}

proof fn lemma_err_short(bytes: Seq<u8>)
    requires
        bytes.len() < 10,
    ensures
        no_valid_encoding(bytes),
{
    assert forall|e: EntryModel| wf_entry(e) implies bytes != #[trigger] encoded(e) by {
        if bytes == encoded(e) {
            lemma_encoded_shape(e);
        }
    }
}

proof fn lemma_err_method(bytes: Seq<u8>)
    requires
        bytes.len() >= 10,
        method_of_tag(bytes[0]) is None,
    ensures
        no_valid_encoding(bytes),
{
    assert forall|e: EntryModel| wf_entry(e) implies bytes != #[trigger] encoded(e) by {
        if bytes == encoded(e) {
            lemma_encoded_shape(e);
            crate::model::lemma_method_tag_injective(e.method, e.method);
        }
    }
}

proof fn lemma_err_url_len(bytes: Seq<u8>)
    requires
        bytes.len() >= 10,
        u64_of_bytes(bytes.subrange(1, 9)) as int > bytes.len() - 10,
    ensures
        no_valid_encoding(bytes),
{
    assert forall|e: EntryModel| wf_entry(e) implies bytes != #[trigger] encoded(e) by {
        if bytes == encoded(e) {
            lemma_encoded_shape(e);
            lemma_u64_bytes_roundtrip(encode_utf8(e.url).len() as u64);
        }
    }
}

proof fn lemma_err_url_utf8(bytes: Seq<u8>, ulen: int)
    requires
        header_parsed(bytes, ulen),
        !valid_utf8(bytes.subrange(9, 9 + ulen)),
    ensures
        no_valid_encoding(bytes),
{
    assert forall|e: EntryModel| wf_entry(e) implies bytes != #[trigger] encoded(e) by {
        if bytes == encoded(e) {
            lemma_url_part(bytes, ulen, e);
        }
    }
}

proof fn lemma_err_body_shape(bytes: Seq<u8>, ulen: int)
    requires
        header_parsed(bytes, ulen),
        ({
            let t = bytes[9 + ulen];
            let rest = bytes.len() - 9 - ulen;
            ||| (t != 0 && t != 1)
            ||| (t == 0 && rest != 1)
            ||| (t == 1 && rest < 9)
            ||| (t == 1 && rest >= 9 && u64_of_bytes(bytes.subrange(10 + ulen, 18 + ulen)) as int
                != rest - 9)
        }),
    ensures
        no_valid_encoding(bytes),
{
    assert forall|e: EntryModel| wf_entry(e) implies bytes != #[trigger] encoded(e) by {
        if bytes == encoded(e) {
            lemma_url_part(bytes, ulen, e);
            match e.body {
                None => {},
                Some(b) => {
                    lemma_u64_bytes_roundtrip(encode_utf8(b).len() as u64);
                },
            }
        }
    }
}

proof fn lemma_err_body_utf8(bytes: Seq<u8>, ulen: int)
    requires
        header_parsed(bytes, ulen),
        bytes[9 + ulen] == 1,
        bytes.len() - 9 - ulen >= 9,
        !valid_utf8(bytes.subrange(18 + ulen, bytes.len() as int)),
    ensures
        no_valid_encoding(bytes),
{
    assert forall|e: EntryModel| wf_entry(e) implies bytes != #[trigger] encoded(e) by {
        if bytes == encoded(e) {
            lemma_url_part(bytes, ulen, e);
        }
    }
}

/// The bytes a successful parse consumed are exactly the encoding of the
/// entry it built.
proof fn lemma_assemble(bytes: Seq<u8>, ulen: int, e: EntryModel)
    requires
        header_parsed(bytes, ulen),
        bytes.len() < 0x1_0000_0000_0000_0000,
        method_of_tag(bytes[0]) == Some(e.method),
        valid_utf8(bytes.subrange(9, 9 + ulen)),
        e.url == decode_utf8(bytes.subrange(9, 9 + ulen)),
        e.body is None ==> bytes[9 + ulen] == 0 && bytes.len() == 10 + ulen,
        e.body matches Some(b) ==> bytes[9 + ulen] == 1 && bytes.len() - 9 - ulen >= 9
            && u64_of_bytes(bytes.subrange(10 + ulen, 18 + ulen)) as int == bytes.len() - 18 - ulen
            && valid_utf8(bytes.subrange(18 + ulen, bytes.len() as int)) && b == decode_utf8(
            bytes.subrange(18 + ulen, bytes.len() as int),
        ),
    ensures
        bytes == encoded(e),
        wf_entry(e),
{
    let useg = bytes.subrange(9, 9 + ulen);
    assert(encode_utf8(e.url) == useg);
    crate::model::lemma_method_of_tag_inverse(bytes[0]);
    lemma_u64_bytes_inverse(bytes.subrange(1, 9));
    assert(u64_of_bytes(bytes.subrange(1, 9)) == ulen as u64);
    assert(u64_bytes(ulen as u64) == bytes.subrange(1, 9));
    match e.body {
        None => {
            assert(wf_entry(e));
            lemma_encoded_shape(e);
            let s = encoded(e);
            assert(s.len() == bytes.len());
            assert forall|i: int| 0 <= i < bytes.len() implies bytes[i] == s[i] by {
                if 1 <= i < 9 {
                    assert(bytes[i] == bytes.subrange(1, 9)[i - 1]);
                    assert(s[i] == s.subrange(1, 9)[i - 1]);
                } else if 9 <= i < 9 + ulen {
                    assert(bytes[i] == bytes.subrange(9, 9 + ulen)[i - 9]);
                    assert(s[i] == s.subrange(9, 9 + ulen)[i - 9]);
                }
            }
            assert(bytes =~= s);
        },
        Some(b) => {
            let bseg = bytes.subrange(18 + ulen, bytes.len() as int);
            let blen = bytes.len() - 18 - ulen;
            assert(encode_utf8(b) == bseg);
            assert(encode_utf8(b).len() == blen);
            assert(wf_entry(e));
            lemma_u64_bytes_inverse(bytes.subrange(10 + ulen, 18 + ulen));
            assert(u64_bytes(blen as u64) == bytes.subrange(10 + ulen, 18 + ulen));
            lemma_encoded_shape(e);
            let s = encoded(e);
            assert(s.len() == bytes.len());
            assert forall|i: int| 0 <= i < bytes.len() implies bytes[i] == s[i] by {
                if 1 <= i < 9 {
                    assert(bytes[i] == bytes.subrange(1, 9)[i - 1]);
                    assert(s[i] == s.subrange(1, 9)[i - 1]);
                } else if 9 <= i < 9 + ulen {
                    assert(bytes[i] == bytes.subrange(9, 9 + ulen)[i - 9]);
                    assert(s[i] == s.subrange(9, 9 + ulen)[i - 9]);
                } else if 10 + ulen <= i < 18 + ulen {
                    assert(bytes[i] == bytes.subrange(10 + ulen, 18 + ulen)[i - 10 - ulen]);
                    assert(s[i] == s.subrange(10 + ulen, 18 + ulen)[i - 10 - ulen]);
                } else if 18 + ulen <= i < bytes.len() {
                    assert(bytes[i] == bytes.subrange(18 + ulen, bytes.len() as int)[i - 18
                        - ulen]);
                    assert(s[i] == s.subrange(18 + ulen, s.len() as int)[i - 18 - ulen]);
                }
            }
            assert(bytes =~= s);
        },
    }
}

/// Decodes an entry: returns the unique well-formed entry whose encoding the
/// bytes are, and a [`CorruptionError`] exactly when no entry encodes to them.
pub fn decode(bytes: &[u8]) -> (r: Result<WebHookInner, CorruptionError>)
    ensures
        r matches Ok(e) ==> bytes@ == encoded(e@) && wf_entry(e@),
        r matches Ok(e) ==> forall|e2: EntryModel|
            wf_entry(e2) && bytes@ == encoded(e2) ==> e@ == e2,
        r is Err ==> no_valid_encoding(bytes@),
{
    let n = bytes.len();
    if n < 10 {
        proof {
            lemma_err_short(bytes@);
        }
        return Err(CorruptionError);
    }
    let method = match Method::from_tag(bytes[0]) {
        Some(m) => m,
        None => {
            proof {
                lemma_err_method(bytes@);
            }
            return Err(CorruptionError);
        },
    };
    let url_len_u64 = read_u64(bytes, 1);
    if url_len_u64 > (n - 10) as u64 {
        proof {
            lemma_err_url_len(bytes@);
        }
        return Err(CorruptionError);
    }
    let url_len = url_len_u64 as usize;
    assert(header_parsed(bytes@, url_len as int));
    let url_vec = copy_range(bytes, 9, 9 + url_len);
    let url = match string_from_utf8(url_vec) {
        Some(s) => s,
        None => {
            proof {
                lemma_err_url_utf8(bytes@, url_len as int);
            }
            return Err(CorruptionError);
        },
    };
    let pos = 9 + url_len;
    let rest = n - pos;
    let btag = bytes[pos];
    if btag == 0 {
        if rest != 1 {
            proof {
                lemma_err_body_shape(bytes@, url_len as int);
            }
            return Err(CorruptionError);
        }
        let result = WebHookInner { url, body: None, method };
        proof {
            lemma_assemble(bytes@, url_len as int, result@);
            assert forall|e2: EntryModel| wf_entry(e2) && bytes@ == encoded(e2) implies result@
                == e2 by {
                lemma_encoded_injective(result@, e2);
            }
        }
        Ok(result)
    } else if btag == 1 {
        if rest < 9 {
            proof {
                lemma_err_body_shape(bytes@, url_len as int);
            }
            return Err(CorruptionError);
        }
        let body_len_u64 = read_u64(bytes, pos + 1);
        if body_len_u64 != (rest - 9) as u64 {
            proof {
                lemma_err_body_shape(bytes@, url_len as int);
            }
            return Err(CorruptionError);
        }
        let body_vec = copy_range(bytes, pos + 9, n);
        let body = match string_from_utf8(body_vec) {
            Some(s) => s,
            None => {
                proof {
                    lemma_err_body_utf8(bytes@, url_len as int);
                }
                return Err(CorruptionError);
            },
        };
        let result = WebHookInner { url, body: Some(body), method };
        proof {
            lemma_assemble(bytes@, url_len as int, result@);
            assert forall|e2: EntryModel| wf_entry(e2) && bytes@ == encoded(e2) implies result@
                == e2 by {
                lemma_encoded_injective(result@, e2);
            }
        }
        Ok(result)
    } else {
        proof {
            lemma_err_body_shape(bytes@, url_len as int);
        }
        Err(CorruptionError)
    }
}

} // verus!
