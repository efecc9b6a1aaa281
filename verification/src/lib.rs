//! Durable webhook delivery queue.
//!
//! A caller submits a target URL, an HTTP method and an optional JSON body.
//! The queue normalizes the request (a GET delivery never carries a body),
//! keys it by a 64-bit fingerprint of its canonical (url, method, body)
//! tuple, and stores the entry durably until an acknowledgment removes it.
//! A periodic dispatch loop (run by the surrounding application) snapshots
//! the queue, attempts delivery of each entry, and acknowledges exactly the
//! ones whose endpoint answered with a non-error status; everything else is
//! retried on the next tick, unchanged, for as long as it takes.

pub mod codec;
pub mod dispatch;
pub mod fingerprint;
pub mod json;
pub mod model;
pub mod store;
