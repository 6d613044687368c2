use std::io::Write;

use hanzi_store::database::{stored_row, text_from_row, text_of_row, SCHEMA};
use hanzi_store::{initialize, load_text, save_text, AppError, Text, TextSegment, Word};
use rusqlite::Connection;

fn in_memory_db() -> Connection {
    let conn = Connection::open_in_memory().unwrap();
    conn.execute_batch(SCHEMA).unwrap();
    conn
}

fn sample_text() -> Text {
    Text {
        raw_input: "你好世界".to_string(),
        segments: vec![
            TextSegment::Word {
                word: Word {
                    characters: "你好".to_string(),
                    pinyin: "nǐhǎo".to_string(),
                },
            },
            TextSegment::Plain {
                text: "，".to_string(),
            },
            TextSegment::Word {
                word: Word {
                    characters: "世界".to_string(),
                    pinyin: "shìjiè".to_string(),
                },
            },
        ],
    }
}

#[test]
fn save_load_round_trip() {
    let mut conn = in_memory_db();
    let text = sample_text();

    save_text(&mut conn, &text).unwrap();
    let loaded = load_text(&conn).unwrap().expect("should return Some");

    assert_eq!(loaded.raw_input, "你好世界");
    assert_eq!(loaded.segments.len(), 3);

    match &loaded.segments[0] {
        TextSegment::Word { word } => {
            assert_eq!(word.characters, "你好");
            assert_eq!(word.pinyin, "nǐhǎo");
        }
        _ => panic!("expected Word segment at index 0"),
    }
    match &loaded.segments[1] {
        TextSegment::Plain { text } => assert_eq!(text, "，"),
        _ => panic!("expected Plain segment at index 1"),
    }
    match &loaded.segments[2] {
        TextSegment::Word { word } => {
            assert_eq!(word.characters, "世界");
            assert_eq!(word.pinyin, "shìjiè");
        }
        _ => panic!("expected Word segment at index 2"),
    }
}

#[test]
fn load_empty_db_returns_none() {
    let conn = in_memory_db();
    let result = load_text(&conn).unwrap();
    assert!(result.is_none());
}

#[test]
fn initialize_creates_schema() {
    let dir = tempfile::tempdir().unwrap();
    let db_path = dir.path().join("test.db");
    let conn = initialize(db_path).unwrap();

    let count: i64 = conn
        .query_row("SELECT COUNT(*) FROM texts", [], |row| row.get(0))
        .unwrap();
    assert_eq!(count, 0);
}

#[test]
fn corrupted_db_returns_error() {
    let dir = tempfile::tempdir().unwrap();
    let db_path = dir.path().join("corrupted.db");
    let mut file = tempfile::NamedTempFile::new_in(dir.path()).unwrap();
    file.write_all(b"this is not a sqlite file").unwrap();
    file.persist(&db_path).unwrap();

    let result = initialize(db_path);
    assert!(result.is_err(), "should return error for corrupted DB file");
}

#[test]
fn save_replaces_previous() {
    let mut conn = in_memory_db();

    let text_a = Text {
        raw_input: "文本A".to_string(),
        segments: vec![TextSegment::Word {
            word: Word {
                characters: "文本".to_string(),
                pinyin: "wénběn".to_string(),
            },
        }],
    };

    let text_b = Text {
        raw_input: "文本B".to_string(),
        segments: vec![TextSegment::Plain {
            text: "plain B".to_string(),
        }],
    };

    save_text(&mut conn, &text_a).unwrap();
    save_text(&mut conn, &text_b).unwrap();

    let loaded = load_text(&conn).unwrap().expect("should return Some");
    assert_eq!(loaded.raw_input, "文本B");
    assert_eq!(loaded.segments.len(), 1);
    match &loaded.segments[0] {
        TextSegment::Plain { text } => assert_eq!(text, "plain B"),
        _ => panic!("expected Plain segment"),
    }
}

#[test]
fn save_empty_text() {
    let mut conn = in_memory_db();

    let empty_text = Text {
        raw_input: "".to_string(),
        segments: vec![],
    };

    save_text(&mut conn, &empty_text).unwrap();
    let loaded = load_text(&conn).unwrap().expect("should return Some");
    assert_eq!(loaded.raw_input, "");
    assert!(loaded.segments.is_empty());
}

#[test]
fn db_file_exists_after_save() {
    let dir = tempfile::tempdir().unwrap();
    let db_path = dir.path().join("test.db");
    let mut conn = initialize(db_path.clone()).unwrap();

    let text = sample_text();
    save_text(&mut conn, &text).unwrap();

    assert!(db_path.exists(), "database file should exist at the expected path");
}

#[test]
fn db_readable_by_external_connection() {
    let dir = tempfile::tempdir().unwrap();
    let db_path = dir.path().join("test.db");
    let mut conn = initialize(db_path.clone()).unwrap();

    let text = sample_text();
    save_text(&mut conn, &text).unwrap();
    drop(conn);

    let external_conn = Connection::open(&db_path).unwrap();
    let raw_input: String = external_conn
        .query_row("SELECT raw_input FROM texts WHERE id = 1", [], |row| row.get(0))
        .unwrap();
    assert_eq!(raw_input, "你好世界");

    let segments_json: String = external_conn
        .query_row("SELECT segments FROM texts WHERE id = 1", [], |row| row.get(0))
        .unwrap();
    assert!(!segments_json.is_empty());
    assert!(segments_json.contains("nǐhǎo"));
}

#[test]
fn placeholder_rust_test() {
    assert_eq!(2 + 2, 4, "basic arithmetic works inside the container");
}

#[test]
fn load_on_fresh_file_store_is_absent() {
    let dir = tempfile::tempdir().unwrap();
    let conn = initialize(dir.path().join("fresh.db")).unwrap();
    assert!(load_text(&conn).unwrap().is_none());
}

#[test]
fn reopened_store_keeps_document() {
    let dir = tempfile::tempdir().unwrap();
    let db_path = dir.path().join("keep.db");
    let mut conn = initialize(db_path.clone()).unwrap();
    save_text(&mut conn, &sample_text()).unwrap();
    drop(conn);

    let conn = initialize(db_path).unwrap();
    let loaded = load_text(&conn).unwrap().expect("document after reopening");
    assert_eq!(loaded.raw_input, "你好世界");
    assert_eq!(loaded.segments.len(), 3);
}

#[test]
fn store_uses_write_ahead_logging() {
    let dir = tempfile::tempdir().unwrap();
    let conn = initialize(dir.path().join("wal.db")).unwrap();
    let mode: String = conn
        .query_row("PRAGMA journal_mode", [], |row| row.get(0))
        .unwrap();
    assert_eq!(mode, "wal");
}

#[test]
fn save_leaves_exactly_one_row() {
    let mut conn = in_memory_db();
    save_text(&mut conn, &sample_text()).unwrap();
    save_text(&mut conn, &sample_text()).unwrap();
    let count: i64 = conn
        .query_row("SELECT COUNT(*) FROM texts", [], |row| row.get(0))
        .unwrap();
    assert_eq!(count, 1);
}

#[test]
fn corrupted_segments_fail_to_load() {
    let conn = in_memory_db();
    conn.execute(
        "INSERT INTO texts (id, raw_input, segments) VALUES (1, 'x', '[{\"type\":\"video\"}]')",
        [],
    )
    .unwrap();
    assert_eq!(load_text(&conn).unwrap_err(), AppError::DecodingFailure);
}

#[test]
fn missing_table_fails_to_load() {
    let conn = Connection::open_in_memory().unwrap();
    assert_eq!(load_text(&conn).unwrap_err(), AppError::StorageUnavailable);
}

#[test]
fn failed_save_keeps_previous_document() {
    let mut conn = in_memory_db();
    save_text(&mut conn, &sample_text()).unwrap();
    conn.execute_batch(
        "CREATE TRIGGER refuse_insert BEFORE INSERT ON texts BEGIN SELECT RAISE(ABORT, 'no'); END;",
    )
    .unwrap();
    let other = Text {
        raw_input: "别的".to_string(),
        segments: vec![],
    };
    assert_eq!(save_text(&mut conn, &other).unwrap_err(), AppError::TransactionFailure);
    let loaded = load_text(&conn).unwrap().expect("previous document");
    assert_eq!(loaded.raw_input, "你好世界");
    assert_eq!(loaded.segments.len(), 3);
}

#[test]
fn stored_row_holds_raw_input_and_segments() {
    let row = stored_row(&sample_text()).unwrap();
    assert_eq!(row.len(), 2);
    assert_eq!(row[0], "你好世界");
    assert_eq!(
        row[1],
        "[{\"type\":\"word\",\"word\":{\"characters\":\"你好\",\"pinyin\":\"nǐhǎo\"}},\
         {\"type\":\"plain\",\"text\":\"，\"},\
         {\"type\":\"word\",\"word\":{\"characters\":\"世界\",\"pinyin\":\"shìjiè\"}}]"
    );
}

#[test]
fn text_from_row_rebuilds_text() {
    let text = text_from_row(
        "a b".to_string(),
        "[{\"type\":\"plain\",\"text\":\"a b\"}]",
    )
    .unwrap();
    assert_eq!(text.raw_input, "a b");
    assert_eq!(text.segments.len(), 1);
    match &text.segments[0] {
        TextSegment::Plain { text } => assert_eq!(text, "a b"),
        _ => panic!("expected Plain segment"),
    }
    assert_eq!(
        text_from_row("a".to_string(), "not json").unwrap_err(),
        AppError::DecodingFailure
    );
}

#[test]
fn corrupted_file_is_storage_unavailable() {
    let dir = tempfile::tempdir().unwrap();
    let mut file = tempfile::NamedTempFile::new_in(dir.path()).unwrap();
    file.write_all(b"this is not a sqlite file").unwrap();
    let path = file.path().to_path_buf();
    assert_eq!(initialize(path).unwrap_err(), AppError::StorageUnavailable);
}

#[test]
fn no_row_gives_no_document() {
    assert!(text_of_row(None).unwrap().is_none());
}

#[test]
fn row_gives_its_document() {
    let t = text_of_row(Some((
        "你".to_string(),
        "[{\"type\":\"word\",\"word\":{\"characters\":\"你\",\"pinyin\":\"nǐ\"}}]".to_string(),
    )))
    .unwrap()
    .expect("a document");
    assert_eq!(t.raw_input, "你");
    match &t.segments[..] {
        [TextSegment::Word { word }] => {
            assert_eq!(word.characters, "你");
            assert_eq!(word.pinyin, "nǐ");
        }
        _ => panic!("expected one Word segment"),
    }
}

#[test]
fn row_with_bad_segments_fails() {
    for bad in ["{}", "[{\"type\":\"video\"}]", "[{\"type\":\"word\",\"word\":{\"characters\":\"你\"}}]"] {
        assert_eq!(
            text_of_row(Some(("x".to_string(), bad.to_string()))).unwrap_err(),
            AppError::DecodingFailure
        );
    }
}

#[test]
fn empty_document_is_not_absence() {
    let fresh = in_memory_db();
    let mut saved = in_memory_db();
    save_text(&mut saved, &Text { raw_input: String::new(), segments: vec![] }).unwrap();
    assert!(load_text(&fresh).unwrap().is_none());
    let t = load_text(&saved).unwrap().expect("saved empty document");
    assert_eq!(t.raw_input, "");
    assert!(t.segments.is_empty());
}
