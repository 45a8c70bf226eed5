//! Trusted boundary to the SQLite storage engine.
//!
//! The store keeps its authoritative state in verified memory; these
//! wrappers only mirror writes to disk (best effort, nothing promised of
//! them) and read the rows back once when a store is opened. The only
//! facts taken on trust are the ones SQLite documents for the fixed
//! statements used here: a `PRIMARY KEY` column holds pairwise distinct
//! values, and `ORDER BY ... DESC` returns rows sorted by that column.

use vstd::prelude::*;

use rusqlite::Connection;

verus! {

#[verifier::external_type_specification]
#[verifier::external_body]
/// Declares `rusqlite::Connection` so it can stand in fields and
/// signatures; values of it are opaque to verification.
pub struct ExConnection(Connection);

/// Relies on `rusqlite::Connection::open_in_memory`: a connection to a
/// fresh, empty in-memory database, or `None` when SQLite fails.
#[verifier::external_body]
pub(crate) fn db_open_memory() -> (r: Option<Connection>)
{
    Connection::open_in_memory().ok()
}

/// Relies on `rusqlite::Connection::open`: a connection to the database
/// file at `path`, created when absent, or `None` when SQLite fails.
#[verifier::external_body]
pub(crate) fn db_open_at(path: &str) -> (r: Option<Connection>)
{
    Connection::open(path).ok()
}

/// Relies on `rusqlite::Connection::execute` with `CREATE TABLE IF NOT
/// EXISTS`: creates the five tables; false when any statement fails.
#[verifier::external_body]
pub(crate) fn db_init(conn: &Connection) -> (r: bool)
{
    conn.execute("CREATE TABLE IF NOT EXISTS sequence_cache (query TEXT PRIMARY KEY, response TEXT NOT NULL, cached_at INTEGER NOT NULL)", ()).is_ok()
        && conn.execute("CREATE TABLE IF NOT EXISTS sequence_detail (number INTEGER PRIMARY KEY, data TEXT NOT NULL, cached_at INTEGER NOT NULL)", ()).is_ok()
        && conn.execute("CREATE TABLE IF NOT EXISTS search_history (id INTEGER PRIMARY KEY AUTOINCREMENT, query TEXT NOT NULL, searched_at INTEGER NOT NULL)", ()).is_ok()
        && conn.execute("CREATE TABLE IF NOT EXISTS viewed_sequences (number INTEGER PRIMARY KEY, viewed_at INTEGER NOT NULL, view_count INTEGER NOT NULL)", ()).is_ok()
        && conn.execute("CREATE TABLE IF NOT EXISTS bookmarks (number INTEGER PRIMARY KEY, bookmarked_at INTEGER NOT NULL, notes TEXT)", ()).is_ok()
}

/// Relies on `rusqlite::Connection::execute` with `INSERT OR REPLACE`:
/// mirrors one response-cache record to disk, best effort.
#[verifier::external_body]
pub(crate) fn db_upsert_search(conn: &Connection, key: &str, payload: &str, ts: i64) -> (r: bool)
{
    conn.execute(
        "INSERT OR REPLACE INTO sequence_cache (query, response, cached_at) VALUES (?1, ?2, ?3)",
        (key, payload, ts),
    ).is_ok()
}

/// Relies on `rusqlite::Connection::execute` with `INSERT OR REPLACE`:
/// mirrors one entity-cache record to disk, best effort.
#[verifier::external_body]
pub(crate) fn db_upsert_entity(conn: &Connection, number: i64, payload: &str, ts: i64) -> (r: bool)
{
    conn.execute(
        "INSERT OR REPLACE INTO sequence_detail (number, data, cached_at) VALUES (?1, ?2, ?3)",
        (number, payload, ts),
    ).is_ok()
}

/// Relies on `rusqlite::Connection::execute` with `INSERT`: mirrors one
/// history entry to disk, best effort.
#[verifier::external_body]
pub(crate) fn db_append_history(conn: &Connection, query: &str, ts: i64) -> (r: bool)
{
    conn.execute(
        "INSERT INTO search_history (query, searched_at) VALUES (?1, ?2)",
        (query, ts),
    ).is_ok()
}

/// Relies on `rusqlite::Connection::execute` with `INSERT OR REPLACE`:
/// mirrors one view record to disk, best effort. The count is computed by
/// the verified store, so a plain replace suffices.
#[verifier::external_body]
pub(crate) fn db_upsert_view(conn: &Connection, number: i64, ts: i64, count: i64) -> (r: bool)
{
    conn.execute(
        "INSERT OR REPLACE INTO viewed_sequences (number, viewed_at, view_count) VALUES (?1, ?2, ?3)",
        (number, ts, count),
    ).is_ok()
}

/// Relies on `rusqlite::Connection::execute` with `INSERT OR REPLACE`:
/// mirrors one bookmark to disk, best effort.
#[verifier::external_body]
pub(crate) fn db_upsert_bookmark(
    conn: &Connection,
    number: i64,
    ts: i64,
    notes: Option<&str>,
) -> (r: bool)
{
    conn.execute(
        "INSERT OR REPLACE INTO bookmarks (number, bookmarked_at, notes) VALUES (?1, ?2, ?3)",
        (number, ts, notes),
    ).is_ok()
}

/// Relies on `rusqlite::Connection::execute` with `DELETE`: removes one
/// bookmark row from disk, best effort.
#[verifier::external_body]
pub(crate) fn db_delete_bookmark(conn: &Connection, number: i64) -> (r: bool)
{
    conn.execute("DELETE FROM bookmarks WHERE number = ?1", (number,)).is_ok()
}

/// Relies on `rusqlite::Connection::execute` with `DELETE`: empties the
/// two cache tables on disk, best effort; the other tables are untouched.
#[verifier::external_body]
pub(crate) fn db_clear_caches(conn: &Connection) -> (r: bool)
{
    let a = conn.execute("DELETE FROM sequence_cache", ()).is_ok();
    let b = conn.execute("DELETE FROM sequence_detail", ()).is_ok();
    a && b
}

/// Relies on `rusqlite::Statement::query` over `SELECT query, response,
/// cached_at FROM sequence_cache`: whatever rows are on disk; nothing is
/// promised of them, since a pre-existing file may hold a table of any
/// shape.
#[verifier::external_body]
pub(crate) fn db_load_searches(conn: &Connection) -> (r: Vec<(String, String, i64)>)
{
    let mut out = Vec::new();
    let Ok(mut stmt) = conn.prepare("SELECT query, response, cached_at FROM sequence_cache") else {
        return out;
    };
    let Ok(mut rows) = stmt.query(()) else { return out };
    while let Ok(Some(row)) = rows.next() {
        if let (Ok(k), Ok(p), Ok(t)) = (row.get(0), row.get(1), row.get(2)) {
            out.push((k, p, t));
        }
    }
    out
}

/// Relies on `rusqlite::Statement::query` over `SELECT number, data,
/// cached_at FROM sequence_detail`: whatever rows are on disk; nothing
/// is promised of them, since a pre-existing file may hold a table of
/// any shape.
#[verifier::external_body]
pub(crate) fn db_load_entities(conn: &Connection) -> (r: Vec<(i64, String, i64)>)
{
    let mut out = Vec::new();
    let Ok(mut stmt) = conn.prepare("SELECT number, data, cached_at FROM sequence_detail") else {
        return out;
    };
    let Ok(mut rows) = stmt.query(()) else { return out };
    while let Ok(Some(row)) = rows.next() {
        if let (Ok(n), Ok(p), Ok(t)) = (row.get(0), row.get(1), row.get(2)) {
            out.push((n, p, t));
        }
    }
    out
}

/// Relies on `rusqlite::Statement::query` over `SELECT query, searched_at
/// FROM search_history ORDER BY searched_at DESC`: whatever rows are on
/// disk, sorted newest first. The sortedness holds of every outcome:
/// SQLite documents the `ORDER BY`, and rows whose `searched_at` is not
/// an SQLite integer fail the `i64` conversion and are skipped, which
/// keeps the kept rows in relative order.
#[verifier::external_body]
pub(crate) fn db_load_history(conn: &Connection) -> (r: Vec<(String, i64)>)
    ensures
        forall|i: int, j: int|
            0 <= i <= j < r@.len() ==> r@[i].1 >= r@[j].1,
{
    let mut out = Vec::new();
    let sql = "SELECT query, searched_at FROM search_history ORDER BY searched_at DESC";
    let Ok(mut stmt) = conn.prepare(sql) else { return out };
    let Ok(mut rows) = stmt.query(()) else { return out };
    while let Ok(Some(row)) = rows.next() {
        if let (Ok(q), Ok(t)) = (row.get(0), row.get(1)) {
            out.push((q, t));
        }
    }
    out
}

/// Relies on `rusqlite::Statement::query` over `SELECT number, viewed_at,
/// view_count FROM viewed_sequences ORDER BY viewed_at DESC`: whatever
/// rows are on disk, sorted newest first. The sortedness holds of every
/// outcome: SQLite documents the `ORDER BY`, and rows whose `viewed_at`
/// is not an SQLite integer fail the `i64` conversion and are skipped,
/// which keeps the kept rows in relative order.
#[verifier::external_body]
pub(crate) fn db_load_views(conn: &Connection) -> (r: Vec<(i64, i64, i64)>)
    ensures
        forall|i: int, j: int|
            0 <= i <= j < r@.len() ==> r@[i].1 >= r@[j].1,
{
    let mut out = Vec::new();
    let sql = "SELECT number, viewed_at, view_count FROM viewed_sequences ORDER BY viewed_at DESC";
    let Ok(mut stmt) = conn.prepare(sql) else { return out };
    let Ok(mut rows) = stmt.query(()) else { return out };
    while let Ok(Some(row)) = rows.next() {
        if let (Ok(n), Ok(t), Ok(c)) = (row.get(0), row.get(1), row.get(2)) {
            out.push((n, t, c));
        }
    }
    out
}

/// Relies on `rusqlite::Statement::query` over `SELECT number,
/// bookmarked_at, notes FROM bookmarks ORDER BY bookmarked_at DESC`:
/// whatever rows are on disk, sorted newest first. The sortedness holds
/// of every outcome, as for the view ledger: the `ORDER BY` is
/// documented, and skipping unconvertible rows keeps relative order.
#[verifier::external_body]
pub(crate) fn db_load_bookmarks(conn: &Connection) -> (r: Vec<(i64, i64, Option<String>)>)
    ensures
        forall|i: int, j: int|
            0 <= i <= j < r@.len() ==> r@[i].1 >= r@[j].1,
{
    let mut out = Vec::new();
    let sql = "SELECT number, bookmarked_at, notes FROM bookmarks ORDER BY bookmarked_at DESC";
    let Ok(mut stmt) = conn.prepare(sql) else { return out };
    let Ok(mut rows) = stmt.query(()) else { return out };
    while let Ok(Some(row)) = rows.next() {
        if let (Ok(n), Ok(t), Ok(s)) = (row.get(0), row.get(1), row.get(2)) {
            out.push((n, t, s));
        }
    }
    out
}

} // verus!
