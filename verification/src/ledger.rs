//! The durable ledger of issued tags: a redb key-value store mapping each tag
//! to its issuance timestamp (Unix seconds), held in one table named `tags`.
//!
//! The store itself lives behind trusted wrappers; everything a wrapper
//! promises is stated over `write_contents` / `read_contents`, the map a
//! transaction sees. Durability of a committed transaction is redb's own
//! guarantee and is not modelled here.

use vstd::prelude::*;
use redb::ReadableDatabase;
use redb::ReadableTable;
use crate::TagError;

verus! {

#[verifier::external_type_specification]
#[verifier::external_body]
pub struct ExDatabase(redb::Database);

#[verifier::external_type_specification]
#[verifier::external_body]
pub struct ExWriteTransaction(redb::WriteTransaction);

#[verifier::external_type_specification]
#[verifier::external_body]
pub struct ExReadTransaction(redb::ReadTransaction);

/// The tags table as a write transaction sees it: tag -> issuance timestamp.
pub uninterp spec fn write_contents(txn: redb::WriteTransaction) -> Map<Seq<char>, i64>;

/// The tags table as a read snapshot sees it: tag -> issuance timestamp.
pub uninterp spec fn read_contents(txn: redb::ReadTransaction) -> Map<Seq<char>, i64>;

/// The map of a ledger that holds no tag at all.
pub open spec fn empty_ledger() -> Map<Seq<char>, i64> {
    Map::empty()
}

/// Strict lexicographic order on character sequences, by code point. UTF-8
/// encoding preserves this order byte for byte, so it is exactly the order
/// the store keeps its text keys in.
pub open spec fn seq_char_lt(a: Seq<char>, b: Seq<char>) -> bool
    decreases a.len(),
{
    if b.len() == 0 {
        false
    } else if a.len() == 0 {
        true
    } else if a[0] != b[0] {
        a[0] < b[0]
    } else {
        seq_char_lt(a.drop_first(), b.drop_first())
    }
}

/// `rows` is strictly ascending by tag.
pub open spec fn rows_sorted(rows: Seq<(String, i64)>) -> bool {
    forall|i: int, j: int| 0 <= i < j < rows.len() ==> seq_char_lt(rows[i].0@, rows[j].0@)
}

/// `rows` lists exactly the pairs of `m`, each key once, in some order.
pub open spec fn snapshot_rows(rows: Seq<(String, i64)>, m: Map<Seq<char>, i64>) -> bool {
    &&& forall|i: int| 0 <= i < rows.len() ==> m.contains_pair(#[trigger] rows[i].0@, rows[i].1)
    &&& forall|k: Seq<char>|
        m.dom().contains(k) ==> exists|i: int| 0 <= i < rows.len() && #[trigger] rows[i].0@ == k
    &&& forall|i: int, j: int| 0 <= i < j < rows.len() ==> rows[i].0@ != rows[j].0@
}

/// Relies on redb's `Database::create`: opens the store at `path`, creating
/// the file when it does not exist yet.
#[verifier::external_body]
fn db_create(path: &str) -> (r: Result<redb::Database, String>) {
    redb::Database::create(path).map_err(|e| format!("failed to create database {path}: {e}"))
}

/// Relies on redb's `Database::begin_write`: starts a write transaction; the
/// contents it sees are whatever the store durably holds, which nothing here
/// can pin down.
#[verifier::external_body]
fn db_begin_write(db: &redb::Database) -> (r: Result<redb::WriteTransaction, String>) {
    db.begin_write().map_err(|e| format!("failed to begin write transaction: {e}"))
}

/// Relies on redb's `Database::begin_read`: starts a read snapshot.
#[verifier::external_body]
fn db_begin_read(db: &redb::Database) -> (r: Result<redb::ReadTransaction, String>) {
    db.begin_read().map_err(|e| format!("failed to begin read transaction: {e}"))
}

/// Relies on redb's `WriteTransaction::open_table`: creates the `tags` table
/// when it does not exist; an existing table keeps its contents.
#[verifier::external_body]
fn table_ensure(txn: &redb::WriteTransaction) -> (r: Result<(), String>) {
    txn.open_table(redb::TableDefinition::<&'static str, i64>::new("tags"))
        .map(|_| ())
        .map_err(|e| format!("failed to open table tags: {e}"))
}

/// Relies on redb's `ReadableTable::get`: returns the value stored under
/// `tag`, or `None` when the table has no such key.
#[verifier::external_body]
fn table_get(txn: &redb::WriteTransaction, tag: &str) -> (r: Result<Option<i64>, String>)
    ensures
        r matches Ok(o) ==> {
            &&& o is Some <==> write_contents(*txn).dom().contains(tag@)
            &&& o matches Some(v) ==> write_contents(*txn)[tag@] == v
        },
{
    let table = txn
        .open_table(redb::TableDefinition::<&'static str, i64>::new("tags"))
        .map_err(|e| format!("failed to open table tags: {e}"))?;
    let guard = table.get(tag).map_err(|e| format!("failed to get tag {tag} from table: {e}"))?;
    Ok(guard.map(|g| g.value()))
}

/// Relies on redb's `Table::insert`: maps `tag` to `timestamp`, replacing any
/// value the key already had.
#[verifier::external_body]
fn table_insert(txn: &mut redb::WriteTransaction, tag: &str, timestamp: i64) -> (r: Result<
    (),
    String,
>)
    ensures
        r is Ok ==> write_contents(*final(txn)) == write_contents(*old(txn)).insert(
            tag@,
            timestamp,
        ),
{
    let mut table = txn
        .open_table(redb::TableDefinition::<&'static str, i64>::new("tags"))
        .map_err(|e| format!("failed to open table tags: {e}"))?;
    table
        .insert(tag, timestamp)
        .map(|_| ())
        .map_err(|e| format!("failed to insert tag {tag} to table: {e}"))
}

/// Relies on redb's `WriteTransaction::delete_table`: after the call the
/// `tags` table holds nothing (a later open recreates it empty).
#[verifier::external_body]
fn table_clear(txn: &mut redb::WriteTransaction) -> (r: Result<(), String>)
    ensures
        r is Ok ==> write_contents(*final(txn)) == empty_ledger(),
{
    txn.delete_table(redb::TableDefinition::<&'static str, i64>::new("tags"))
        .map(|_| ())
        .map_err(|e| format!("failed to delete table tags: {e}"))
}

/// Relies on redb's `ReadOnlyTable::range`: yields every pair of the `tags`
/// table, each key exactly once, in ascending key order. The store compares
/// `&str` keys as their UTF-8 bytes, which orders them exactly by code
/// point, so the yielded tags ascend in `seq_char_lt`.
#[verifier::external_body]
fn table_read_all(txn: &redb::ReadTransaction) -> (r: Result<Vec<(String, i64)>, String>)
    ensures
        r matches Ok(v) ==> snapshot_rows(v@, read_contents(*txn)) && rows_sorted(v@),
{
    let table = txn
        .open_table(redb::TableDefinition::<&'static str, i64>::new("tags"))
        .map_err(|e| format!("failed to open table tags: {e}"))?;
    let mut out: Vec<(String, i64)> = Vec::new();
    let rows = table.range::<&str>(..).map_err(|e| format!("failed to iterate tags table: {e}"))?;
    for row in rows {
        let (k, v) = row.map_err(|e| format!("failed to get tag table row: {e}"))?;
        out.push((k.value().to_string(), v.value()));
    }
    Ok(out)
}

/// Relies on redb's `WriteTransaction::commit`: makes the transaction's
/// contents durable.
#[verifier::external_body]
fn txn_commit(txn: redb::WriteTransaction) -> (r: Result<(), String>) {
    txn.commit().map_err(|e| format!("failed to commit write transaction: {e}"))
}

/// Relies on redb's `Database::check_integrity`: true when the store was
/// intact, false when a repair was performed.
#[verifier::external_body]
fn db_check_integrity(db: &mut redb::Database) -> (r: Result<bool, String>) {
    db.check_integrity().map_err(|e| format!("failed to check database integrity: {e}"))
}

/// Relies on redb's `Database::compact`: compacts the store's file.
#[verifier::external_body]
fn db_compact(db: &mut redb::Database) -> (r: Result<bool, String>) {
    db.compact().map_err(|e| format!("failed to compact database: {e}"))
}

/// Opens (creating if absent) the ledger store at `path`.
pub fn open_ledger(path: &str) -> (r: Result<redb::Database, TagError>) {
    match db_create(path) {
        Ok(db) => Ok(db),
        Err(m) => Err(TagError::Storage(m)),
    }
}

/// Starts a write transaction on the ledger.
pub fn begin_ledger_write(db: &redb::Database) -> (r: Result<redb::WriteTransaction, TagError>) {
    match db_begin_write(db) {
        Ok(t) => Ok(t),
        Err(m) => Err(TagError::Storage(m)),
    }
}

/// Starts a read snapshot of the ledger.
pub fn begin_ledger_read(db: &redb::Database) -> (r: Result<redb::ReadTransaction, TagError>) {
    match db_begin_read(db) {
        Ok(t) => Ok(t),
        Err(m) => Err(TagError::Storage(m)),
    }
}

/// Creates the `tags` table when the store does not have it yet, so that a
/// later read snapshot can open it.
pub fn ensure_tags_table(db: &redb::Database) -> (r: Result<(), TagError>) {
    let txn = begin_ledger_write(db)?;
    match table_ensure(&txn) {
        Ok(()) => (),
        Err(m) => {
            return Err(TagError::Storage(m));
        },
    }
    commit_ledger(txn)
}

/// Looks a tag up in the ledger as this write transaction sees it: the stored
/// issuance timestamp, or `None` when the tag was never issued.
pub fn lookup_tag(txn: &redb::WriteTransaction, tag: &String) -> (r: Result<
    Option<i64>,
    TagError,
>)
    ensures
        r matches Ok(o) ==> {
            &&& o is Some <==> write_contents(*txn).dom().contains(tag@)
            &&& o matches Some(v) ==> write_contents(*txn)[tag@] == v
        },
{
    match table_get(txn, tag.as_str()) {
        Ok(o) => Ok(o),
        Err(m) => Err(TagError::Storage(m)),
    }
}

/// Records a tag in the ledger: an upsert, replacing any timestamp the tag
/// already carried.
pub fn record_tag(txn: &mut redb::WriteTransaction, tag: &String, timestamp: i64) -> (r: Result<
    (),
    TagError,
>)
    ensures
        r is Ok ==> write_contents(*final(txn)) == write_contents(*old(txn)).insert(
            tag@,
            timestamp,
        ),
{
    match table_insert(txn, tag.as_str(), timestamp) {
        Ok(()) => Ok(()),
        Err(m) => Err(TagError::Storage(m)),
    }
}

/// Empties the `tags` table inside this transaction.
pub fn clear_tags(txn: &mut redb::WriteTransaction) -> (r: Result<(), TagError>)
    ensures
        r is Ok ==> write_contents(*final(txn)) == empty_ledger(),
{
    match table_clear(txn) {
        Ok(()) => Ok(()),
        Err(m) => Err(TagError::Storage(m)),
    }
}

/// Reads every (tag, timestamp) pair of this snapshot, each tag once, in
/// ascending key order.
pub fn read_all_tags(txn: &redb::ReadTransaction) -> (r: Result<Vec<(String, i64)>, TagError>)
    ensures
        r matches Ok(v) ==> snapshot_rows(v@, read_contents(*txn)) && rows_sorted(v@),
{
    match table_read_all(txn) {
        Ok(v) => Ok(v),
        Err(m) => Err(TagError::Storage(m)),
    }
}

/// Commits a write transaction; without this call its effects are discarded.
pub fn commit_ledger(txn: redb::WriteTransaction) -> (r: Result<(), TagError>) {
    match txn_commit(txn) {
        Ok(()) => Ok(()),
        Err(m) => Err(TagError::Storage(m)),
    }
}

/// Checks the store's integrity: `Ok(true)` means it was healthy, `Ok(false)`
/// that it needed and received a repair. Afterwards the `tags` table is
/// ensured and the store compacted, as one maintenance pass.
pub fn check_ledger(db: &mut redb::Database) -> (r: Result<bool, TagError>) {
    let passed = match db_check_integrity(db) {
        Ok(b) => b,
        Err(m) => {
            return Err(TagError::Storage(m));
        },
    };
    ensure_tags_table(db)?;
    match db_compact(db) {
        Ok(_) => Ok(passed),
        Err(m) => Err(TagError::Storage(m)),
    }
}

} // verus!
