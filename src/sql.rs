use vstd::prelude::*;

use rusqlite::{Connection, Row, Rows, Statement, Transaction};
use std::path::PathBuf;

verus! {

/// A connection to an SQLite database, owned by `rusqlite`.
#[verifier::external_type_specification]
#[verifier::external_body]
pub struct ExConnection(Connection);

/// An open transaction on a connection; dropping it rolls the work back.
#[verifier::external_type_specification]
#[verifier::external_body]
pub struct ExTransaction<'conn>(Transaction<'conn>);

/// A prepared SQL statement.
#[verifier::external_type_specification]
#[verifier::external_body]
pub struct ExStatement<'conn>(Statement<'conn>);

/// The rows that a query returns, read one by one.
#[verifier::external_type_specification]
#[verifier::external_body]
pub struct ExRows<'stmt>(Rows<'stmt>);

/// One row of a query's result.
#[verifier::external_type_specification]
#[verifier::external_body]
pub struct ExRow<'stmt>(Row<'stmt>);

/// The error type of `rusqlite`.
#[verifier::external_type_specification]
#[verifier::external_body]
pub struct ExSqlError(rusqlite::Error);

/// A file system path.
#[verifier::external_type_specification]
#[verifier::external_body]
pub struct ExPathBuf(PathBuf);

/// Relies on `rusqlite::Connection::open`: opens or creates the database file.
#[verifier::external_body]
pub(crate) fn open_connection(path: &PathBuf) -> (r: Result<Connection, rusqlite::Error>) {
    Connection::open(path)
}

/// Relies on `rusqlite::Connection::pragma_update`: sets a pragma of the main database.
#[verifier::external_body]
pub(crate) fn set_pragma(conn: &Connection, name: &str, value: &str) -> (r: Result<
    (),
    rusqlite::Error,
>) {
    conn.pragma_update(None, name, value)
}

/// Relies on `rusqlite::Connection::execute_batch`: runs SQL statements that take no parameters.
#[verifier::external_body]
pub(crate) fn execute_batch(conn: &Connection, sql: &str) -> (r: Result<(), rusqlite::Error>) {
    conn.execute_batch(sql)
}

/// Relies on `rusqlite::Connection::transaction`: begins a transaction.
#[verifier::external_body]
pub(crate) fn begin_transaction(conn: &mut Connection) -> (r: Result<
    Transaction<'_>,
    rusqlite::Error,
>) {
    conn.transaction()
}

/// Relies on `rusqlite::Connection::execute`, inside a transaction: runs one
/// statement with the given text parameters, bound in order.
#[verifier::external_body]
pub(crate) fn execute_in(tx: &Transaction<'_>, sql: &str, args: &Vec<String>) -> (r: Result<
    usize,
    rusqlite::Error,
>) {
    tx.execute(sql, rusqlite::params_from_iter(args.iter()))
}

/// Relies on `rusqlite::Transaction::commit`: commits the transaction.
#[verifier::external_body]
pub(crate) fn commit(tx: Transaction<'_>) -> (r: Result<(), rusqlite::Error>) {
    tx.commit()
}

/// Relies on `rusqlite::Connection::prepare`: compiles a statement.
#[verifier::external_body]
pub(crate) fn prepare<'conn>(conn: &'conn Connection, sql: &str) -> (r: Result<
    Statement<'conn>,
    rusqlite::Error,
>) {
    conn.prepare(sql)
}

/// Relies on `rusqlite::Statement::query`: runs a statement that takes no parameters.
#[verifier::external_body]
pub(crate) fn query<'stmt>(stmt: &'stmt mut Statement<'_>) -> (r: Result<
    Rows<'stmt>,
    rusqlite::Error,
>) {
    stmt.query([])
}

/// Relies on `rusqlite::Rows::next`: the next row, if there is one.
#[verifier::external_body]
pub(crate) fn next_row<'a, 'stmt>(rows: &'a mut Rows<'stmt>) -> (r: Result<
    Option<&'a Row<'stmt>>,
    rusqlite::Error,
>) {
    rows.next()
}

/// Relies on `rusqlite::Row::get`: the text in column `i` of a row.
#[verifier::external_body]
pub(crate) fn column_text(row: &Row<'_>, i: usize) -> (r: Result<String, rusqlite::Error>) {
    row.get(i)
}

} // verus!
