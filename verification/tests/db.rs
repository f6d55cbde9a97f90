//! Embedded database lifecycle: scoped access, reset, migration, transfer.

use tmd::{export_db, import_db, migrate, reset_db, with_conn, with_conn_mut, TmdDoc, TmdError};

fn sample_doc() -> TmdDoc {
    TmdDoc::new("# Sample\n".to_string()).expect("doc creation")
}

#[test]
fn new_doc_initializes_database() {
    let doc = sample_doc();
    let result = doc
        .db_with_conn(|conn| {
            conn.query_row("SELECT 1", [], |row| row.get::<_, i32>(0))
                .unwrap()
        })
        .expect("db query");
    assert_eq!(result, 1);
}

#[test]
fn export_and_import_db() {
    let mut doc = sample_doc();
    doc.db_with_conn_mut(|conn| {
        conn.execute("CREATE TABLE value_store(val INTEGER)", [])
            .unwrap();
        conn.execute("INSERT INTO value_store(val) VALUES (42)", [])
            .unwrap();
    })
    .unwrap();

    let snapshot = export_db(&doc).expect("export");

    doc.db_with_conn_mut(|conn| {
        conn.execute("DELETE FROM value_store", []).unwrap();
        conn.execute("INSERT INTO value_store(val) VALUES (7)", [])
            .unwrap();
    })
    .unwrap();

    import_db(&mut doc, &snapshot).expect("import");
    let value: i32 = doc
        .db_with_conn(|conn| {
            conn.query_row("SELECT val FROM value_store", [], |row| row.get(0))
                .unwrap()
        })
        .expect("query");
    assert_eq!(value, 42);
}

#[test]
fn reset_and_migrate_database() {
    let mut doc = sample_doc();
    reset_db(
        &mut doc,
        "CREATE TABLE items(id INTEGER PRIMARY KEY, name TEXT);",
        1,
    )
    .expect("reset");
    doc.db_with_conn_mut(|conn| {
        conn.execute("INSERT INTO items(name) VALUES ('alpha')", [])
            .unwrap();
    })
    .unwrap();

    migrate(
        &mut doc,
        "ALTER TABLE items ADD COLUMN qty INTEGER DEFAULT 0;",
        1,
        2,
    )
    .expect("migrate");
    let version: u32 = doc
        .db_with_conn(|conn| {
            conn.query_row("PRAGMA user_version", [], |row| row.get(0))
                .unwrap()
        })
        .expect("user_version");
    assert_eq!(version, 2);
}

#[test]
fn reset_db_propagates_sql_errors() {
    let mut doc = sample_doc();
    let err = reset_db(&mut doc, "CREATE TABLE ???", 1).expect_err("reset should fail");
    match err {
        TmdError::Db(message) => assert!(
            message.contains("near") || message.contains("syntax"),
            "unexpected error message: {}",
            message
        ),
        other => panic!("expected database error, got {:?}", other),
    }
}

#[test]
fn migrate_propagates_sql_errors() {
    let mut doc = sample_doc();
    reset_db(&mut doc, "CREATE TABLE base(id INTEGER PRIMARY KEY);", 1).expect("reset");

    let err = migrate(
        &mut doc,
        "ALTER TABLE missing ADD COLUMN value INTEGER;",
        1,
        2,
    )
    .expect_err("migrate should fail");

    match err {
        TmdError::Db(message) => assert!(
            message.contains("no such table") || message.contains("missing"),
            "unexpected error message: {}",
            message
        ),
        other => panic!("expected database error, got {:?}", other),
    }

    let version: u32 = doc
        .db_with_conn(|conn| {
            conn.query_row("PRAGMA user_version", [], |row| row.get(0))
                .unwrap()
        })
        .expect("user_version");
    assert_eq!(version, 1);
}

#[test]
fn migrate_rejects_version_mismatch() {
    let mut doc = sample_doc();
    reset_db(&mut doc, "CREATE TABLE base(id INTEGER PRIMARY KEY);", 3).expect("reset");
    let err = migrate(&mut doc, "CREATE TABLE extra(id INTEGER);", 1, 2)
        .expect_err("migrate with a mismatched `from` must fail");
    assert!(matches!(err, TmdError::Db(_)));
    let version: u32 = doc
        .db_with_conn(|conn| {
            conn.query_row("PRAGMA user_version", [], |row| row.get(0))
                .unwrap()
        })
        .expect("user_version");
    assert_eq!(version, 3, "version counter must be unchanged");
}

#[test]
fn module_with_conn_helpers_work() {
    let mut doc = sample_doc();
    with_conn_mut(&mut doc, |conn| {
        conn.execute("CREATE TABLE helpers(id INTEGER)", [])
            .unwrap();
    })
    .expect("with_conn_mut");

    let count: i64 = with_conn(&doc, |conn| {
        conn.query_row("SELECT COUNT(*) FROM helpers", [], |row| row.get(0))
            .unwrap()
    })
    .expect("with_conn");

    assert_eq!(count, 0);
}
