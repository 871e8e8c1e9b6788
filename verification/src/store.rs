//! Trusted adapter over the embedded `redb` store.
//!
//! The store keeps two tables: `guess_height_nonce`, mapping a height to its
//! optional confirmed nonce, and `guess_height_guesses`, a multimap holding
//! the encoded guess rows of each height in ascending byte order. Nothing
//! here is verified; each function wraps one table operation and states, over
//! the uninterpreted contents functions below, what the `redb` source shows
//! that operation does. Everything above this module is proved against these
//! contracts.

use std::sync::Arc;

use redb::ReadableDatabase;
use redb::ReadableTable;
use vstd::prelude::*;

use crate::rows::lex_sorted;
use crate::rows::rows_insert;
use crate::types::InternalError;

verus! {

#[verifier::external_type_specification]
#[verifier::external_body]
pub struct ExDatabase(redb::Database);

#[verifier::external_type_specification]
#[verifier::external_body]
pub struct ExWriteTransaction(redb::WriteTransaction);

#[verifier::external_type_specification]
#[verifier::external_body]
pub struct ExReadTransaction(redb::ReadTransaction);

/// The target table a write transaction sees: height to optional nonce.
pub uninterp spec fn write_targets(txn: redb::WriteTransaction) -> Map<u32, Option<u32>>;

/// The target table a read snapshot sees: height to optional nonce.
pub uninterp spec fn read_targets(txn: redb::ReadTransaction) -> Map<u32, Option<u32>>;

/// The guess rows a write transaction sees under one height, in stored order.
pub uninterp spec fn write_guess_rows(txn: redb::WriteTransaction, height: u32) -> Seq<Seq<u8>>;

/// The guess rows a read snapshot sees under one height, in stored order.
pub uninterp spec fn read_guess_rows(txn: redb::ReadTransaction, height: u32) -> Seq<Seq<u8>>;

/// Handle on the shared store, scoped to the two guess tables.
#[derive(Debug, Clone)]
pub struct GuessDb {
    db: Arc<redb::Database>,
}

impl GuessDb {
    /// Open the handle, creating both tables if they are absent. Idempotent,
    /// safe on every process start; a failure here aborts startup.
    pub fn new(db: Arc<redb::Database>) -> (r: Result<GuessDb, InternalError>)
    {
        let guess_db = GuessDb { db };
        let txn = match guess_db.begin_write() {
            Ok(t) => t,
            Err(e) => {
                return Err(e);
            },
        };
        match init_target_table(&txn) {
            Ok(u) => u,
            Err(e) => {
                return Err(e);
            },
        };
        match init_guess_table(&txn) {
            Ok(u) => u,
            Err(e) => {
                return Err(e);
            },
        };
        match commit(txn) {
            Ok(u) => u,
            Err(e) => {
                return Err(e);
            },
        };
        Ok(guess_db)
    }

    /// Relies on redb `Database::begin_write`: starts the single active write
    /// transaction, blocking while another writer runs. What it sees on disk
    /// cannot be promised here; the table operations state their own effects.
    #[verifier::external_body]
    pub fn begin_write(&self) -> (r: Result<redb::WriteTransaction, InternalError>) {
        match self.db.begin_write() {
            Ok(txn) => Ok(txn),
            Err(_) => Err(InternalError::Transaction),
        }
    }

    /// Relies on redb `Database::begin_read`: opens a consistent snapshot,
    /// unaffected by concurrent writers.
    #[verifier::external_body]
    pub fn begin_read(&self) -> (r: Result<redb::ReadTransaction, InternalError>) {
        match self.db.begin_read() {
            Ok(txn) => Ok(txn),
            Err(_) => Err(InternalError::Transaction),
        }
    }
}

/// Relies on redb `WriteTransaction::commit`: makes the transaction's changes
/// durable, all of them or none.
#[verifier::external_body]
pub fn commit(txn: redb::WriteTransaction) -> (r: Result<(), InternalError>) {
    match txn.commit() {
        Ok(u) => Ok(u),
        Err(_) => Err(InternalError::Commit),
    }
}

/// Relies on redb `WriteTransaction::open_table`: creates the target table if
/// it does not exist yet; the contents are untouched either way.
#[verifier::external_body]
pub(crate) fn init_target_table(txn: &redb::WriteTransaction) -> (r: Result<(), InternalError>) {
    let def = redb::TableDefinition::<u32, Option<u32>>::new("guess_height_nonce");
    match txn.open_table(def) {
        Ok(_) => Ok(()),
        Err(_) => Err(InternalError::Table),
    }
}

/// Relies on redb `WriteTransaction::open_multimap_table`: creates the guess
/// table if it does not exist yet; the contents are untouched either way.
#[verifier::external_body]
pub(crate) fn init_guess_table(txn: &redb::WriteTransaction) -> (r: Result<(), InternalError>) {
    let def = redb::MultimapTableDefinition::<u32, &[u8]>::new("guess_height_guesses");
    match txn.open_multimap_table(def) {
        Ok(_) => Ok(()),
        Err(_) => Err(InternalError::Table),
    }
}

/// Relies on redb `WriteTransaction::open_table` and `Table::insert`: upserts
/// the value at the key and returns the previous value, `None` if the key was
/// absent. Keys are `u32`, compared numerically.
#[verifier::external_body]
pub(crate) fn target_upsert(
    txn: &mut redb::WriteTransaction,
    height: u32,
    nonce: Option<u32>,
) -> (r: Result<Option<Option<u32>>, InternalError>)
    ensures
        r matches Ok(prior) ==> {
            &&& write_targets(*final(txn)) == write_targets(*old(txn)).insert(height, nonce)
            &&& prior == (if write_targets(*old(txn)).dom().contains(height) {
                Some(write_targets(*old(txn))[height])
            } else {
                None
            })
            &&& forall|h: u32| write_guess_rows(*final(txn), h) == write_guess_rows(*old(txn), h)
        },
{
    let def = redb::TableDefinition::<u32, Option<u32>>::new("guess_height_nonce");
    let mut table = match txn.open_table(def) {
        Ok(t) => t,
        Err(_) => return Err(InternalError::Table),
    };
    let result = match table.insert(height, nonce) {
        Ok(prior) => Ok(prior.map(|guard| guard.value())),
        Err(_) => Err(InternalError::Storage),
    };
    drop(table);
    result
}

/// Relies on redb `WriteTransaction::open_table` and `Table::remove`: removes
/// the key and returns the previous value, `None` if the key was absent.
#[verifier::external_body]
pub(crate) fn target_remove(
    txn: &mut redb::WriteTransaction,
    height: u32,
) -> (r: Result<Option<Option<u32>>, InternalError>)
    ensures
        r matches Ok(prior) ==> {
            &&& write_targets(*final(txn)) == write_targets(*old(txn)).remove(height)
            &&& prior == (if write_targets(*old(txn)).dom().contains(height) {
                Some(write_targets(*old(txn))[height])
            } else {
                None
            })
            &&& forall|h: u32| write_guess_rows(*final(txn), h) == write_guess_rows(*old(txn), h)
        },
{
    let def = redb::TableDefinition::<u32, Option<u32>>::new("guess_height_nonce");
    let mut table = match txn.open_table(def) {
        Ok(t) => t,
        Err(_) => return Err(InternalError::Table),
    };
    let result = match table.remove(height) {
        Ok(prior) => Ok(prior.map(|guard| guard.value())),
        Err(_) => Err(InternalError::Storage),
    };
    drop(table);
    result
}

/// Relies on redb `ReadTransaction::open_table` and `ReadOnlyTable::get`:
/// returns the value at the key, `None` if the key is absent.
#[verifier::external_body]
pub(crate) fn target_get(txn: &redb::ReadTransaction, height: u32) -> (r: Result<
    Option<Option<u32>>,
    InternalError,
>)
    ensures
        r matches Ok(row) ==> row == (if read_targets(*txn).dom().contains(height) {
            Some(read_targets(*txn)[height])
        } else {
            None
        }),
{
    let def = redb::TableDefinition::<u32, Option<u32>>::new("guess_height_nonce");
    let table = match txn.open_table(def) {
        Ok(t) => t,
        Err(_) => return Err(InternalError::Table),
    };
    let result = match table.get(height) {
        Ok(row) => Ok(row.map(|guard| guard.value())),
        Err(_) => Err(InternalError::Storage),
    };
    drop(table);
    result
}

/// Relies on redb `ReadTransaction::open_table` and `ReadableTable::last`:
/// returns the entry with the greatest key, `None` if the table is empty.
#[verifier::external_body]
pub(crate) fn target_last(txn: &redb::ReadTransaction) -> (r: Result<
    Option<(u32, Option<u32>)>,
    InternalError,
>)
    ensures
        r matches Ok(row) ==> match row {
            Some((height, nonce)) => {
                &&& read_targets(*txn).dom().contains(height)
                &&& read_targets(*txn)[height] == nonce
                &&& forall|k: u32| read_targets(*txn).dom().contains(k) ==> k <= height
            },
            None => read_targets(*txn).dom() == Set::<u32>::empty(),
        },
{
    let def = redb::TableDefinition::<u32, Option<u32>>::new("guess_height_nonce");
    let table = match txn.open_table(def) {
        Ok(t) => t,
        Err(_) => return Err(InternalError::Table),
    };
    let result = match table.last() {
        Ok(row) => Ok(row.map(|(k, v)| (k.value(), v.value()))),
        Err(_) => Err(InternalError::Storage),
    };
    drop(table);
    result
}

/// Relies on redb `WriteTransaction::open_multimap_table` and
/// `MultimapTable::insert`: adds the byte row to the height's collection at
/// its position in ascending byte order — the collection is kept as a B-tree
/// of rows ordered by the byte-slice comparison — and returns whether the
/// exact row was already present, in which case nothing changes.
#[verifier::external_body]
pub(crate) fn guess_rows_insert(
    txn: &mut redb::WriteTransaction,
    height: u32,
    row: &Vec<u8>,
) -> (r: Result<bool, InternalError>)
    ensures
        r matches Ok(present) ==> {
            &&& lex_sorted(write_guess_rows(*old(txn), height))
            &&& present == write_guess_rows(*old(txn), height).contains(row@)
            &&& write_guess_rows(*final(txn), height) == rows_insert(
                write_guess_rows(*old(txn), height),
                row@,
            )
            &&& forall|h: u32|
                h != height ==> write_guess_rows(*final(txn), h) == write_guess_rows(*old(txn), h)
            &&& write_targets(*final(txn)) == write_targets(*old(txn))
        },
{
    let def = redb::MultimapTableDefinition::<u32, &[u8]>::new("guess_height_guesses");
    let mut table = match txn.open_multimap_table(def) {
        Ok(t) => t,
        Err(_) => return Err(InternalError::Table),
    };
    match table.insert(height, row.as_slice()) {
        Ok(present) => Ok(present),
        Err(_) => Err(InternalError::Storage),
    }
}

/// Relies on redb `WriteTransaction::open_multimap_table` and
/// `MultimapTable::remove_all`: removes the height's whole collection and
/// returns the removed rows in ascending byte order.
#[verifier::external_body]
pub(crate) fn guess_rows_remove_all(txn: &mut redb::WriteTransaction, height: u32) -> (r: Result<
    Vec<Vec<u8>>,
    InternalError,
>)
    ensures
        r matches Ok(removed) ==> {
            &&& removed@.map_values(|v: Vec<u8>| v@) == write_guess_rows(*old(txn), height)
            &&& lex_sorted(write_guess_rows(*old(txn), height))
            &&& write_guess_rows(*final(txn), height) == Seq::<Seq<u8>>::empty()
            &&& forall|h: u32|
                h != height ==> write_guess_rows(*final(txn), h) == write_guess_rows(*old(txn), h)
            &&& write_targets(*final(txn)) == write_targets(*old(txn))
        },
{
    let def = redb::MultimapTableDefinition::<u32, &[u8]>::new("guess_height_guesses");
    let mut table = match txn.open_multimap_table(def) {
        Ok(t) => t,
        Err(_) => return Err(InternalError::Table),
    };
    let iter = match table.remove_all(height) {
        Ok(i) => i,
        Err(_) => return Err(InternalError::Storage),
    };
    let mut removed = Vec::new();
    for item in iter {
        removed.push(match item { Ok(g) => g.value().to_vec(), _ => return Err(InternalError::Storage) });
    }
    Ok(removed)
}

/// Relies on redb `ReadTransaction::open_multimap_table` and
/// `ReadOnlyMultimapTable::get`: returns the height's collection, possibly
/// empty, in ascending byte order.
#[verifier::external_body]
pub(crate) fn guess_rows_get(txn: &redb::ReadTransaction, height: u32) -> (r: Result<
    Vec<Vec<u8>>,
    InternalError,
>)
    ensures
        r matches Ok(rows) ==> {
            &&& rows@.map_values(|v: Vec<u8>| v@) == read_guess_rows(*txn, height)
            &&& lex_sorted(read_guess_rows(*txn, height))
        },
{
    let def = redb::MultimapTableDefinition::<u32, &[u8]>::new("guess_height_guesses");
    let table = match txn.open_multimap_table(def) {
        Ok(t) => t,
        Err(_) => return Err(InternalError::Table),
    };
    let iter = match table.get(height) {
        Ok(i) => i,
        Err(_) => return Err(InternalError::Storage),
    };
    let mut rows = Vec::new();
    for item in iter {
        rows.push(match item { Ok(g) => g.value().to_vec(), _ => return Err(InternalError::Storage) });
    }
    Ok(rows)
}

} // verus!
