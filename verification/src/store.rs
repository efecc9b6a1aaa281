//! The durable queue: a persistent table from fingerprint to encoded entry,
//! held in a redb database file, with enqueue / snapshot / acknowledge
//! operations.
//!
//! The table's mathematical contents are a `Map<u64, Seq<u8>>`. Each
//! operation is one transaction of the storage engine, reached through a
//! trusted wrapper whose contract states how the call changes (or reads)
//! that map; everything around the calls is verified against those
//! contracts.

use vstd::prelude::*;
use crate::codec::{decode, encode, encoded, no_valid_encoding, wf_entry, CorruptionError};
use crate::fingerprint::{fingerprint, fingerprint_of};
use crate::model::{canonical_of, Method, WebHook, WebHookInner};

verus! {

/// redb's database handle, declared so the store can hold one.
#[verifier::external_type_specification]
#[verifier::external_body]
pub struct ExDatabase(redb::Database);

/// redb's unified error, declared so the trusted wrappers can return it.
#[verifier::external_type_specification]
#[verifier::external_body]
pub struct ExRedbError(redb::Error);

/// The committed contents of the database's queue table: fingerprint to
/// encoded entry. A database whose queue table was never created holds the
/// empty map.
pub uninterp spec fn db_table(db: redb::Database) -> Map<u64, Seq<u8>>;

/// What a queue operation can fail with.
#[derive(Debug, Clone, Copy, PartialEq, Eq, Structural)]
pub enum StoreError {
    /// A stored row is not a valid encoding of any entry.
    Corruption,
    /// The storage engine refused the operation.
    Backend,
}

/// The durable queue over one redb database file.
pub struct ReDBStore {
    db: redb::Database,
}

/// Relies on `redb::Database::create`, which opens the file as a database,
/// initializing a new one if the file is absent or empty, and fails on a
/// corrupt file or one that another process holds open; and on one read
/// transaction (`begin_read`, `open_table`) that reports whether the queue
/// table exists yet. A database in which the table was never created holds
/// no rows.
#[verifier::external_body]
fn open_database(filename: &str) -> (r: Result<(ReDBStore, bool), redb::Error>)
    ensures
        r matches Ok(p) ==> (p.1 ==> db_table(p.0.db) == Map::<u64, Seq<u8>>::empty()),
{
    let def: redb::TableDefinition<u64, &[u8]> = redb::TableDefinition::new("my_data");
    let db = redb::Database::create(filename)?;
    let txn = redb::ReadableDatabase::begin_read(&db)?;
    let fresh = matches!(txn.open_table(def), Err(redb::TableError::TableDoesNotExist(_)));
    Ok((ReDBStore { db }, fresh))
}

/// Relies on redb's write transaction (`begin_write`, `open_table`,
/// `Table::insert`, `commit`): a committed insert replaces the value at the
/// key and changes nothing else; a transaction that fails before commit is
/// aborted, and a failed commit applies either fully or not at all.
#[verifier::external_body]
fn db_insert(db: &mut redb::Database, key: u64, value: &[u8]) -> (r: Result<(), redb::Error>)
    ensures
        r is Ok ==> db_table(*final(db)) == db_table(*old(db)).insert(key, value@),
        r is Err ==> db_table(*final(db)) == db_table(*old(db)) || db_table(*final(db)) == db_table(
            *old(db),
        ).insert(key, value@),
{
    let def: redb::TableDefinition<u64, &[u8]> = redb::TableDefinition::new("my_data");
    let txn = db.begin_write()?;
    {
        let mut table = txn.open_table(def)?;
        table.insert(key, value)?;
    }
    txn.commit()?;
    Ok(())
}

/// Relies on redb's read transaction (`begin_read`, `open_table`, `iter`):
/// iteration yields every row of the table exactly once, in ascending key
/// order, and a table absent from a fresh database reads as empty.
#[verifier::external_body]
fn db_read_all(db: &redb::Database) -> (r: Result<Vec<(u64, Vec<u8>)>, redb::Error>)
    ensures
        r matches Ok(rows) ==> ({
            &&& forall|i: int|
                0 <= i < rows@.len() ==> db_table(*db).contains_pair(
                    (#[trigger] rows@[i]).0,
                    rows@[i].1@,
                )
            &&& forall|i: int, j: int|
                0 <= i < j < rows@.len() ==> (#[trigger] rows@[i]).0 < (#[trigger] rows@[j]).0
            &&& forall|k: u64|
                #[trigger] db_table(*db).dom().contains(k) ==> exists|i: int|
                    0 <= i < rows@.len() && (#[trigger] rows@[i]).0 == k
        }),
{
    let def: redb::TableDefinition<u64, &[u8]> = redb::TableDefinition::new("my_data");
    let txn = redb::ReadableDatabase::begin_read(db)?;
    let table = match txn.open_table(def) {
        Ok(t) => t,
        Err(redb::TableError::TableDoesNotExist(_)) => return Ok(Vec::new()),
        Err(e) => return Err(e.into()),
    };
    let mut rows = Vec::new();
    for row in redb::ReadableTable::iter(&table)? {
        let (k, v) = row?;
        rows.push((k.value(), v.value().to_vec()));
    }
    Ok(rows)
}

/// Relies on redb's write transaction (`begin_write`, `open_table`,
/// `Table::remove`, `commit`): a committed transaction removes exactly the
/// given keys, absent keys silently; a transaction that fails before commit
/// is aborted, and a failed commit applies either fully or not at all.
#[verifier::external_body]
fn db_remove_keys(db: &mut redb::Database, keys: &Vec<u64>) -> (r: Result<(), redb::Error>)
    ensures
        r is Ok ==> db_table(*final(db)) == db_table(*old(db)).remove_keys(keys@.to_set()),
        r is Err ==> db_table(*final(db)) == db_table(*old(db)) || db_table(*final(db)) == db_table(
            *old(db),
        ).remove_keys(keys@.to_set()),
{
    let def: redb::TableDefinition<u64, &[u8]> = redb::TableDefinition::new("my_data");
    let txn = db.begin_write()?;
    {
        let mut table = txn.open_table(def)?;
        for k in keys {
            table.remove(k)?;
        }
    }
    txn.commit()?;
    Ok(())
}

/// Rows decoded from the raw table: same keys in the same order, each entry
/// decoding the stored bytes.
pub open spec fn rows_decoded(rows: Seq<(u64, Vec<u8>)>, out: Seq<(u64, WebHookInner)>) -> bool {
    &&& out.len() == rows.len()
    &&& forall|i: int|
        0 <= i < rows.len() ==> (#[trigger] out[i]).0 == rows[i].0 && encoded(out[i].1@)
            == rows[i].1@ && wf_entry(out[i].1@)
}

/// Decodes raw rows into entries. Succeeds if and only if every row's bytes
/// are the encoding of some entry, and then returns, in order, each key with
/// the unique entry its bytes encode.
pub fn decode_rows(rows: &Vec<(u64, Vec<u8>)>) -> (r: Result<
    Vec<(u64, WebHookInner)>,
    CorruptionError,
>)
    ensures
        r matches Ok(out) ==> rows_decoded(rows@, out@),
        r is Err <==> exists|i: int|
            0 <= i < rows@.len() && no_valid_encoding((#[trigger] rows@[i]).1@),
{
    let mut out: Vec<(u64, WebHookInner)> = Vec::new();
    let mut i: usize = 0;
    while i < rows.len()
        invariant
            0 <= i <= rows@.len(),
            out@.len() == i,
            forall|j: int|
                0 <= j < i ==> (#[trigger] out@[j]).0 == rows@[j].0 && encoded(out@[j].1@)
                    == rows@[j].1@ && wf_entry(out@[j].1@),
        decreases rows@.len() - i,
    {
        let (key, bytes) = (rows[i].0, &rows[i].1);
        match decode(bytes.as_slice()) {
            Ok(entry) => {
                out.push((key, entry));
            },
            Err(_) => {
                assert(no_valid_encoding(rows@[i as int].1@));
                return Err(CorruptionError);
            },
        }
        i = i + 1;
    }
    proof {
        assert forall|i: int| 0 <= i < rows@.len() implies !no_valid_encoding(
            (#[trigger] rows@[i]).1@,
        ) by {
            assert(encoded(out@[i].1@) == rows@[i].1@ && wf_entry(out@[i].1@));
        }
    }
    Ok(out)
}

/// A snapshot lists exactly the table's rows: each listed pair is a row whose
/// bytes encode the listed entry, keys are strictly ascending (so no key is
/// listed twice), and every key of the table is listed.
pub open spec fn snapshot_matches(
    table: Map<u64, Seq<u8>>,
    out: Seq<(u64, WebHookInner)>,
) -> bool {
    &&& forall|i: int|
        0 <= i < out.len() ==> table.contains_pair((#[trigger] out[i]).0, encoded(out[i].1@))
            && wf_entry(out[i].1@)
    &&& forall|i: int, j: int|
        0 <= i < j < out.len() ==> (#[trigger] out[i]).0 < (#[trigger] out[j]).0
    &&& forall|k: u64|
        #[trigger] table.dom().contains(k) ==> exists|i: int|
            0 <= i < out.len() && (#[trigger] out[i]).0 == k
}

/// The queue interface: enqueue, snapshot and acknowledge, stated over the
/// implementing store's mathematical table.
pub trait Store {
    /// The mathematical contents of the queue table: fingerprint to encoded
    /// entry.
    spec fn table(&self) -> Map<u64, Seq<u8>>;

    /// Enqueues a webhook: normalizes it to its canonical entry (a GET body
    /// is stripped), and durably inserts the encoded entry at its
    /// fingerprint, overwriting any row already there. Two webhooks with the
    /// same canonical (url, method, body) tuple therefore share one row.
    fn store(&mut self, value: &WebHook) -> (r: Result<(), StoreError>)
        ensures
            r is Ok ==> final(self).table() == old(self).table().insert(
                fingerprint_of(canonical_of(*value)),
                encoded(canonical_of(*value)),
            ),
            r is Err ==> r == Err::<(), StoreError>(StoreError::Backend) && (final(self).table()
                == old(self).table() || final(self).table() == old(self).table().insert(
                fingerprint_of(canonical_of(*value)),
                encoded(canonical_of(*value)),
            )),
    ;

    /// Snapshots the queue: every pending (fingerprint, entry) row, read
    /// without mutation; an empty list if the table was never written.
    /// Reports corruption exactly when some stored row is not a valid
    /// encoding.
    fn get_entries(&self) -> (r: Result<Vec<(u64, WebHookInner)>, StoreError>)
        ensures
            r matches Ok(out) ==> snapshot_matches(self.table(), out@),
            r == Err::<Vec<(u64, WebHookInner)>, StoreError>(StoreError::Corruption) ==> exists|
                k: u64,
            |
                #[trigger] self.table().dom().contains(k) && no_valid_encoding(self.table()[k]),
    ;

    /// Acknowledges delivered entries: one transaction removes exactly the
    /// rows whose fingerprint is listed; fingerprints not present are
    /// silently ignored, so repeating or replaying an acknowledge is safe.
    fn validate_entries(&mut self, entries: Vec<u64>) -> (r: Result<(), StoreError>)
        ensures
            r is Ok ==> final(self).table() == old(self).table().remove_keys(entries@.to_set()),
            r is Err ==> r == Err::<(), StoreError>(StoreError::Backend) && (final(self).table()
                == old(self).table() || final(self).table() == old(self).table().remove_keys(
                entries@.to_set(),
            )),
    ;
}

impl ReDBStore {
    /// Opens the storage file, creating and initializing it if it does not
    /// exist; fails if the file is corrupt or held by another process. The
    /// returned flag reports a store whose queue table does not exist yet —
    /// one never written to — and such a store's table is empty, so its
    /// first snapshot holds no rows.
    pub fn open(filename: &str) -> (r: Result<(ReDBStore, bool), StoreError>)
        ensures
            r matches Ok(p) ==> (p.1 ==> p.0.table() == Map::<u64, Seq<u8>>::empty()),
            r is Err ==> r == Err::<(ReDBStore, bool), StoreError>(StoreError::Backend),
    {
        match open_database(filename) {
            Ok(p) => Ok(p),
            Err(_) => Err(StoreError::Backend),
        }
    }
}

impl Store for ReDBStore {
    closed spec fn table(&self) -> Map<u64, Seq<u8>> {
        db_table(self.db)
    }

    fn store(&mut self, value: &WebHook) -> (r: Result<(), StoreError>) {
        let entry = value.to_inner();
        let key = fingerprint(&entry);
        let bytes = encode(&entry);
        match db_insert(&mut self.db, key, bytes.as_slice()) {
            Ok(()) => Ok(()),
            Err(_) => Err(StoreError::Backend),
        }
    }

    fn get_entries(&self) -> (r: Result<Vec<(u64, WebHookInner)>, StoreError>) {
        let rows = match db_read_all(&self.db) {
            Ok(rows) => rows,
            Err(_) => return Err(StoreError::Backend),
        };
        match decode_rows(&rows) {
            Ok(out) => {
                proof {
                    assert forall|i: int| 0 <= i < out@.len() implies self.table().contains_pair(
                        (#[trigger] out@[i]).0,
                        encoded(out@[i].1@),
                    ) && wf_entry(out@[i].1@) by {
                        assert(self.table().contains_pair(rows@[i].0, rows@[i].1@));
                        assert(out@[i].0 == rows@[i].0 && encoded(out@[i].1@) == rows@[i].1@);
                    }
                    assert forall|i: int, j: int| 0 <= i < j < out@.len() implies (
                    #[trigger] out@[i]).0 < (#[trigger] out@[j]).0 by {
                        assert(rows@[i].0 < rows@[j].0);
                        assert(out@[i].0 == rows@[i].0 && out@[j].0 == rows@[j].0);
                    }
                    assert forall|k: u64| #[trigger] self.table().dom().contains(k) implies exists|
                        i: int,
                    | 0 <= i < out@.len() && (#[trigger] out@[i]).0 == k by {
                        let i = choose|i: int|
                            0 <= i < rows@.len() && (#[trigger] rows@[i]).0 == k;
                        assert(out@[i].0 == k);
                    }
                }
                Ok(out)
            },
            Err(_) => {
                proof {
                    let i = choose|i: int|
                        0 <= i < rows@.len() && no_valid_encoding((#[trigger] rows@[i]).1@);
                    assert(self.table().contains_pair(rows@[i].0, rows@[i].1@));
                }
                Err(StoreError::Corruption)
            },
        }
    }

    fn validate_entries(&mut self, entries: Vec<u64>) -> (r: Result<(), StoreError>) {
        match db_remove_keys(&mut self.db, &entries) {
            Ok(()) => Ok(()),
            Err(_) => Err(StoreError::Backend),
        }
    }
}

/// Law (deduplication): webhooks that normalize to the same canonical
/// (url, method, body) tuple share one fingerprint, and enqueueing both
/// leaves exactly the table that enqueueing one leaves, with that single
/// shared row present.
pub proof fn lemma_enqueue_dedup(table: Map<u64, Seq<u8>>, w1: WebHook, w2: WebHook)
    requires
        canonical_of(w1) == canonical_of(w2),
    ensures
        fingerprint_of(canonical_of(w2)) == fingerprint_of(canonical_of(w1)),
        table.insert(fingerprint_of(canonical_of(w1)), encoded(canonical_of(w1))).insert(
            fingerprint_of(canonical_of(w2)),
            encoded(canonical_of(w2)),
        ) == table.insert(fingerprint_of(canonical_of(w1)), encoded(canonical_of(w1))),
        table.insert(fingerprint_of(canonical_of(w1)), encoded(canonical_of(w1))).dom().contains(
            fingerprint_of(canonical_of(w1)),
        ),
{
    let k = fingerprint_of(canonical_of(w1));
    let v = encoded(canonical_of(w1));
    assert(table.insert(k, v).insert(k, v) =~= table.insert(k, v));
}

/// Law (GET normalization): a GET webhook with a body normalizes to a
/// canonical entry without a body, equal to that of the same request
/// submitted with no body at all, so both receive the same fingerprint and
/// the same stored row.
pub proof fn lemma_get_body_stripped(w1: WebHook, w2: WebHook)
    requires
        w1.method == Method::GET,
        w2.method == Method::GET,
        w1.url@ == w2.url@,
        w2.body is None,
    ensures
        canonical_of(w1).body is None,
        canonical_of(w1) == canonical_of(w2),
        fingerprint_of(canonical_of(w1)) == fingerprint_of(canonical_of(w2)),
{
}

/// Law (acknowledge idempotence): acknowledging fingerprints none of which
/// is present leaves the table unchanged.
pub proof fn lemma_acknowledge_absent(table: Map<u64, Seq<u8>>, ks: Set<u64>)
    requires
        forall|k: u64| ks.contains(k) ==> !table.dom().contains(k),
    ensures
        table.remove_keys(ks) == table,
{
    assert(table.remove_keys(ks) =~= table);
}

/// Law (snapshot/acknowledge consistency): after acknowledging a set of
/// fingerprints, none of them is in the table, so a later snapshot cannot
/// list one unless it was re-enqueued in between.
pub proof fn lemma_acknowledge_clears(table: Map<u64, Seq<u8>>, ks: Set<u64>, k: u64)
    requires
        ks.contains(k),
    ensures
        !table.remove_keys(ks).dom().contains(k),
        forall|out: Seq<(u64, WebHookInner)>|
            #[trigger] snapshot_matches(table.remove_keys(ks), out) ==> forall|i: int|
                0 <= i < out.len() ==> (#[trigger] out[i]).0 != k,
{
    assert forall|out: Seq<(u64, WebHookInner)>|
        #[trigger] snapshot_matches(table.remove_keys(ks), out) implies forall|i: int|
        0 <= i < out.len() ==> (#[trigger] out[i]).0 != k by {
        assert forall|i: int| 0 <= i < out.len() implies (#[trigger] out[i]).0 != k by {
            assert(table.remove_keys(ks).contains_pair(out[i].0, encoded(out[i].1@)));
        }
    }
}

} // verus!
