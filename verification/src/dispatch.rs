//! Dispatch decisions. The surrounding application runs the periodic loop:
//! it snapshots the queue, attempts delivery of each entry over its HTTP
//! client, and hands each attempt's outcome back as the response status (or
//! none, for a connection failure). This module decides, per tick, which
//! attempts count as delivered and therefore which fingerprints the tick's
//! single acknowledge call removes; everything else stays queued and is
//! retried next tick unchanged.

use vstd::prelude::*;
use crate::codec::encoded;
use crate::model::WebHookInner;
use crate::store::snapshot_matches;

verus! {

/// An attempt counts as delivered exactly when a response arrived and its
/// status code is below 400. A connection error, a timeout (no response) or
/// an error status leaves the entry untouched for the next tick.
pub open spec fn spec_delivered(status: Option<u16>) -> bool {
    status matches Some(s) && s < 400
}

/// Classifies one delivery attempt by its response status, if any.
pub fn is_delivered(status: Option<u16>) -> (r: bool)
    ensures
        r == spec_delivered(status),
{
    match status {
        Some(s) => s < 400,
        None => false,
    }
}

/// The fingerprints a tick acknowledges, given each attempted entry's key
/// and outcome: the keys of the delivered attempts, in order.
pub open spec fn acked_of(results: Seq<(u64, Option<u16>)>) -> Seq<u64>
    decreases results.len(),
{
    if results.len() == 0 {
        Seq::empty()
    } else {
        let rest = acked_of(results.drop_last());
        if spec_delivered(results.last().1) {
            rest.push(results.last().0)
        } else {
            rest
        }
    }
}

/// Law (at-least-once acknowledgment): a tick acknowledges a fingerprint if
/// and only if some attempt on it in that tick was classified delivered;
/// nothing retryable and nothing unattempted is acknowledged.
pub proof fn lemma_acked_of_exact(results: Seq<(u64, Option<u16>)>, k: u64)
    ensures
        acked_of(results).contains(k) <==> exists|i: int|
            0 <= i < results.len() && (#[trigger] results[i]).0 == k && spec_delivered(
                results[i].1,
            ),
    decreases results.len(),
{
    if results.len() == 0 {
    } else {
        let pre = results.drop_last();
        lemma_acked_of_exact(pre, k);
        let last = results.last();
        if spec_delivered(last.1) && last.0 == k {
            assert(acked_of(results).last() == k);
            assert(acked_of(results).contains(k));
            assert(results[results.len() - 1].0 == k && spec_delivered(
                results[results.len() - 1].1,
            ));
        }
        if acked_of(results).contains(k) {
            if !(spec_delivered(last.1) && last.0 == k) {
                if spec_delivered(last.1) {
                    let j = choose|j: int|
                        0 <= j < acked_of(results).len() && acked_of(results)[j] == k;
                    if j < acked_of(pre).len() {
                        assert(acked_of(pre).contains(k));
                    }
                } else {
                    assert(acked_of(pre).contains(k));
                }
                assert(exists|i: int|
                    0 <= i < pre.len() && (#[trigger] pre[i]).0 == k && spec_delivered(pre[i].1));
                let i = choose|i: int|
                    0 <= i < pre.len() && (#[trigger] pre[i]).0 == k && spec_delivered(pre[i].1);
                assert(results[i].0 == k && spec_delivered(results[i].1));
            }
        }
        if exists|i: int|
            0 <= i < results.len() && (#[trigger] results[i]).0 == k && spec_delivered(
                results[i].1,
            ) {
            let i = choose|i: int|
                0 <= i < results.len() && (#[trigger] results[i]).0 == k && spec_delivered(
                    results[i].1,
                );
            if i < results.len() - 1 {
                assert(pre[i].0 == k && spec_delivered(pre[i].1));
                assert(acked_of(pre).contains(k));
                let j = choose|j: int| 0 <= j < acked_of(pre).len() && acked_of(pre)[j] == k;
                assert(acked_of(results)[j] == k);
                assert(acked_of(results).contains(k));
            }
        }
    }
}

/// Law (tick outcome): when a tick attempts every entry of a snapshot and
/// acknowledges the delivered ones, each delivered entry's fingerprint leaves
/// the table, and each undelivered entry's row survives unchanged — so a
/// failed delivery is retried later with byte-identical content, and nothing
/// is removed without a delivered attempt in this tick.
pub proof fn lemma_tick_outcome(
    table: Map<u64, Seq<u8>>,
    out: Seq<(u64, WebHookInner)>,
    results: Seq<(u64, Option<u16>)>,
)
    requires
        snapshot_matches(table, out),
        results.len() == out.len(),
        forall|i: int| 0 <= i < results.len() ==> (#[trigger] results[i]).0 == out[i].0,
    ensures
        forall|i: int|
            0 <= i < results.len() && spec_delivered(results[i].1)
                ==> !table.remove_keys(acked_of(results).to_set()).dom().contains(
                (#[trigger] results[i]).0,
            ),
        forall|i: int|
            0 <= i < results.len() && !spec_delivered(results[i].1) ==> table.remove_keys(
                acked_of(results).to_set(),
            ).contains_pair((#[trigger] results[i]).0, encoded(out[i].1@)),
{
    assert forall|i: int|
        0 <= i < results.len() && spec_delivered(results[i].1) implies !table.remove_keys(
        acked_of(results).to_set(),
    ).dom().contains((#[trigger] results[i]).0) by {
        lemma_acked_of_exact(results, results[i].0);
        assert(acked_of(results).contains(results[i].0));
    }
    assert forall|i: int|
        0 <= i < results.len() && !spec_delivered(results[i].1) implies table.remove_keys(
        acked_of(results).to_set(),
    ).contains_pair((#[trigger] results[i]).0, encoded(out[i].1@)) by {
        let k = results[i].0;
        lemma_acked_of_exact(results, k);
        if acked_of(results).contains(k) {
            let j = choose|j: int|
                0 <= j < results.len() && (#[trigger] results[j]).0 == k && spec_delivered(
                    results[j].1,
                );
            // Snapshot keys are strictly ascending, so two equal keys name
            // one position: the delivered attempt would be this entry's own.
            assert(out[i].0 == k && out[j].0 == k);
            if i < j {
                assert(out[i].0 < out[j].0);
            } else if j < i {
                assert(out[j].0 < out[i].0);
            }
        }
        assert(table.contains_pair(out[i].0, encoded(out[i].1@)));
    }
}

/// Computes the fingerprints a tick acknowledges from the attempted entries'
/// keys and response statuses.
pub fn delivered_keys(results: &Vec<(u64, Option<u16>)>) -> (r: Vec<u64>)
    ensures
        r@ == acked_of(results@),
{
    let mut r: Vec<u64> = Vec::new();
    let mut i: usize = 0;
    while i < results.len()
        invariant
            0 <= i <= results@.len(),
            r@ == acked_of(results@.take(i as int)),
        decreases results@.len() - i,
    {
        let (key, status) = (results[i].0, results[i].1);
        proof {
            assert(results@.take(i + 1).drop_last() =~= results@.take(i as int));
            assert(results@.take(i + 1).last() == results@[i as int]);
        }
        if is_delivered(status) {
            r.push(key);
        }
        i = i + 1;
    }
    proof {
        assert(results@.take(results@.len() as int) =~= results@);
    }
    r
}

} // verus!
