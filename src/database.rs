use vstd::prelude::*;

use rusqlite::Connection;
use std::path::PathBuf;

use crate::codec::{decode_segments, decoded, encode_segments, list_text};
use crate::domain::{segments_view, SegmentView, Text, TextView};
use crate::error::AppError;
use crate::sql::{
    begin_transaction, column_text, commit, execute_batch, execute_in, next_row, open_connection,
    prepare, query, set_pragma,
};

verus! {

/// The one table; the check on `id` keeps it to a single row.
pub const SCHEMA: &'static str = "CREATE TABLE IF NOT EXISTS texts (
    id INTEGER PRIMARY KEY CHECK (id = 1),
    raw_input TEXT NOT NULL DEFAULT '',
    segments TEXT NOT NULL DEFAULT '[]'
);";

const DELETE_ALL: &'static str = "DELETE FROM texts";

const INSERT_ROW: &'static str = "INSERT INTO texts (id, raw_input, segments) VALUES (1, ?1, ?2)";

const SELECT_ROW: &'static str = "SELECT raw_input, segments FROM texts WHERE id = 1";

/// Opens or creates the database at `db_path`, switches it to write-ahead
/// logging and makes sure the table exists. A file that is not a database
/// fails with `StorageUnavailable`.
pub fn initialize(db_path: PathBuf) -> (r: Result<Connection, AppError>)
    ensures
        r is Err ==> r->Err_0 == AppError::StorageUnavailable,
{
    let conn = match open_connection(&db_path) {
        Ok(c) => c,
        Err(_) => { return Err(AppError::StorageUnavailable); },
    };
    if set_pragma(&conn, "journal_mode", "WAL").is_err() {
        return Err(AppError::StorageUnavailable);
    }
    if execute_batch(&conn, SCHEMA).is_err() {
        return Err(AppError::StorageUnavailable);
    }
    Ok(conn)
}

/// The column values stored for `text`: its raw input, then its encoded segments.
pub fn stored_row(text: &Text) -> (r: Result<Vec<String>, AppError>)
    ensures
        r is Ok,
        r->Ok_0@.len() == 2,
        r->Ok_0@[0]@ == text.raw_input@,
        r->Ok_0@[1]@ == list_text(segments_view(text.segments@)),
{
    let segments = encode_segments(&text.segments)?;
    let mut row: Vec<String> = Vec::new();
    row.push(text.raw_input.clone());
    row.push(segments);
    Ok(row)
}

/// Makes `text` the one stored document: in one transaction, removes the row
/// that is there and inserts the values of `stored_row(text)` under id 1. The
/// segments are encoded before anything is changed; when the transaction
/// cannot be committed it is rolled back and `TransactionFailure` is returned.
pub fn save_text(conn: &mut Connection, text: &Text) -> (r: Result<(), AppError>)
    ensures
        r is Err ==> r->Err_0 == AppError::TransactionFailure,
{
    let row = match stored_row(text) {
        Ok(row) => row,
        Err(e) => { return Err(e); },
    };
    let tx = match begin_transaction(conn) {
        Ok(tx) => tx,
        Err(_) => { return Err(AppError::TransactionFailure); },
    };
    let no_args: Vec<String> = Vec::new();
    if execute_in(&tx, DELETE_ALL, &no_args).is_err() {
        return Err(AppError::TransactionFailure);
    }
    if execute_in(&tx, INSERT_ROW, &row).is_err() {
        return Err(AppError::TransactionFailure);
    }
    if commit(tx).is_err() {
        return Err(AppError::TransactionFailure);
    }
    Ok(())
}

/// The document that a stored row holds: the raw input as it is, and the
/// segments decoded as `decode_segments` reads them. Whatever `stored_row`
/// writes for a text reads back as that text; segments that do not decode
/// fail with `DecodingFailure`.
pub fn text_from_row(raw_input: String, segments: &str) -> (r: Result<Text, AppError>)
    ensures
        forall|v: Seq<SegmentView>| #[trigger]
            list_text(v) == segments@ ==> (r is Ok && r->Ok_0@ == TextView {
                raw_input: raw_input@,
                segments: v,
            }),
        (r is Ok <==> decoded(segments@) is Some),
        r is Ok ==> r->Ok_0@ == (TextView {
            raw_input: raw_input@,
            segments: decoded(segments@)->0,
        }),
        r is Err ==> r->Err_0 == AppError::DecodingFailure,
{
    let segments = decode_segments(segments)?;
    Ok(Text { raw_input, segments })
}

/// The document that the fetched row gives: none when there is no row, else
/// the text that `text_from_row` makes of its raw input and segments.
pub fn text_of_row(row: Option<(String, String)>) -> (r: Result<Option<Text>, AppError>)
    ensures
        row is None ==> (r is Ok && r->Ok_0 is None),
        row is Some ==> forall|v: Seq<SegmentView>| #[trigger]
            list_text(v) == (row->0).1@ ==> (r is Ok && r->Ok_0 is Some && (r->Ok_0->0)@
                == (TextView { raw_input: (row->0).0@, segments: v })),
        (row is Some ==> !(r matches Ok(None))),
        (row is Some ==> (r is Ok <==> decoded((row->0).1@) is Some)),
        r matches Ok(Some(t)) ==> (row is Some && t@ == (TextView {
            raw_input: (row->0).0@,
            segments: decoded((row->0).1@)->0,
        })),
        r is Err ==> (row is Some && r->Err_0 == AppError::DecodingFailure),
{
    match row {
        None => Ok(None),
        Some((raw_input, segments)) => match text_from_row(raw_input, segments.as_str()) {
            Ok(text) => Ok(Some(text)),
            Err(e) => Err(e),
        },
    }
}

/// Reads the stored document: what `text_of_row` makes of the row with id 1,
/// `None` when there is no such row. A database that cannot be read fails
/// with `StorageUnavailable`, a stored row whose segments do not decode with
/// `DecodingFailure`.
pub fn load_text(conn: &Connection) -> (r: Result<Option<Text>, AppError>)
    ensures
        r is Err ==> (r->Err_0 == AppError::StorageUnavailable || r->Err_0
            == AppError::DecodingFailure),
{
    let mut stmt = match prepare(conn, SELECT_ROW) {
        Ok(s) => s,
        Err(_) => { return Err(AppError::StorageUnavailable); },
    };
    let mut rows = match query(&mut stmt) {
        Ok(rows) => rows,
        Err(_) => { return Err(AppError::StorageUnavailable); },
    };
    let row = match next_row(&mut rows) {
        Ok(Some(row)) => row,
        Ok(None) => { return text_of_row(None); },
        Err(_) => { return Err(AppError::StorageUnavailable); },
    };
    let raw_input = match column_text(row, 0) {
        Ok(s) => s,
        Err(_) => { return Err(AppError::StorageUnavailable); },
    };
    let segments = match column_text(row, 1) {
        Ok(s) => s,
        Err(_) => { return Err(AppError::StorageUnavailable); },
    };
    text_of_row(Some((raw_input, segments)))
}

} // verus!
