use grok_memory::schema::{
    plan_migration, schema_sql, table_info_sql, MigrationStep, TypedColumn, GET_META_SQL,
    SCHEMA_VERSION, UPSERT_META_SQL,
};

#[test]
fn test_schema_sql_without_vec() {
    let sql = schema_sql(1536, false);
    assert!(sql.contains("CREATE TABLE IF NOT EXISTS chunks"));
    assert!(sql.contains("CREATE VIRTUAL TABLE IF NOT EXISTS chunks_fts"));
    assert!(sql.contains("kind TEXT NOT NULL DEFAULT 'unknown'"));
    assert!(sql.contains("supersedes TEXT"));
    assert!(sql.contains("status TEXT NOT NULL DEFAULT 'active'"));
    assert!(!sql.contains("chunks_vec"));
    // Connection pragmas live on the open path, not in the schema batch.
    assert!(!sql.contains("PRAGMA"));
}

#[test]
fn test_schema_sql_with_vec() {
    let sql = schema_sql(384, true);
    assert!(sql.contains("chunks_vec"));
    assert!(sql.contains("FLOAT[384]"));
}

#[test]
fn test_schema_sql_different_dimensions() {
    let sql = schema_sql(768, true);
    assert!(sql.contains("FLOAT[768]"));
}

fn columns_of_chunks(db: &rusqlite::Connection) -> Vec<String> {
    let mut stmt = db.prepare(&table_info_sql("chunks")).unwrap();
    let rows = stmt.query_map([], |row| row.get::<_, String>(1)).unwrap();
    rows.map(|name| name.unwrap()).collect()
}

fn migrate(db: &rusqlite::Connection) -> Vec<MigrationStep> {
    let steps = plan_migration(&columns_of_chunks(db));
    for step in &steps {
        db.execute(step.sql(), rusqlite::params_from_iter(step.params())).unwrap();
    }
    steps
}

#[test]
fn migrate_adds_typed_columns_to_v1_table() {
    let db = rusqlite::Connection::open_in_memory().unwrap();
    // Simulate a v1 chunks table (no kind/supersedes/status).
    db.execute_batch(
        r#"
            CREATE TABLE chunks (
                rowid INTEGER PRIMARY KEY AUTOINCREMENT,
                id TEXT UNIQUE NOT NULL,
                path TEXT NOT NULL,
                start_line INTEGER NOT NULL,
                end_line INTEGER NOT NULL,
                text TEXT NOT NULL,
                hash TEXT NOT NULL,
                source TEXT NOT NULL,
                created_at INTEGER NOT NULL,
                updated_at INTEGER NOT NULL,
                access_count INTEGER DEFAULT 0,
                last_accessed INTEGER
            );
            CREATE TABLE meta (key TEXT PRIMARY KEY, value TEXT NOT NULL);
            "#,
    )
    .unwrap();
    db.execute(
        "INSERT INTO chunks (id, path, start_line, end_line, text, hash, source, created_at, updated_at)
             VALUES ('a:0', 'MEMORY.md', 0, 1, 'hello', 'h', 'workspace', 0, 0)",
        [],
    )
    .unwrap();

    migrate(&db);

    let cols = columns_of_chunks(&db);
    assert!(cols.iter().any(|c| c == "kind"));
    assert!(cols.iter().any(|c| c == "supersedes"));
    assert!(cols.iter().any(|c| c == "status"));

    let kind: String = db
        .query_row("SELECT kind FROM chunks WHERE id = 'a:0'", [], |r| r.get(0))
        .unwrap();
    assert_eq!(kind, "unknown");

    let ver: String = db
        .query_row(GET_META_SQL, ["schema_version"], |r| r.get(0))
        .unwrap();
    assert_eq!(ver, SCHEMA_VERSION.to_string());

    // Idempotent.
    let again = migrate(&db);
    assert_eq!(
        again,
        vec![MigrationStep::IndexKind, MigrationStep::IndexStatus, MigrationStep::RecordVersion]
    );
}

#[test]
fn migration_adds_what_is_missing() {
    assert_eq!(plan_migration(&[]), vec![MigrationStep::RecordVersion]);
    let columns = vec!["id".to_string(), "supersedes".to_string()];
    assert_eq!(
        plan_migration(&columns),
        vec![
            MigrationStep::AddColumn(TypedColumn::Kind),
            MigrationStep::AddColumn(TypedColumn::Status),
            MigrationStep::IndexKind,
            MigrationStep::IndexStatus,
            MigrationStep::RecordVersion,
        ]
    );
    assert_eq!(MigrationStep::RecordVersion.sql(), UPSERT_META_SQL);
    assert_eq!(MigrationStep::RecordVersion.params(), vec!["schema_version", "2"]);
    assert!(MigrationStep::IndexKind.params().is_empty());
    assert_eq!(
        MigrationStep::AddColumn(TypedColumn::Supersedes).sql(),
        "ALTER TABLE chunks ADD COLUMN supersedes TEXT"
    );
    assert_eq!(table_info_sql("chunks"), "PRAGMA table_info(chunks)");
}

#[test]
fn a_fresh_schema_needs_no_column() {
    let db = rusqlite::Connection::open_in_memory().unwrap();
    db.execute_batch(&schema_sql(4, false)).unwrap();
    assert_eq!(
        migrate(&db),
        vec![MigrationStep::IndexKind, MigrationStep::IndexStatus, MigrationStep::RecordVersion]
    );
}

#[test]
fn the_schema_text() {
    let sql = schema_sql(10, true);
    assert!(sql.starts_with("\nCREATE TABLE IF NOT EXISTS meta (\n    key TEXT PRIMARY KEY,"));
    assert!(sql.contains(
        "INSERT OR IGNORE INTO meta(key, value) VALUES ('schema_version', '2');\n\nCREATE VIRTUAL"
    ));
    assert!(sql.ends_with(
        "\nCREATE VIRTUAL TABLE IF NOT EXISTS chunks_vec USING vec0(\n    chunk_id TEXT PRIMARY KEY,\n    embedding FLOAT[10]\n);\n"
    ));
    assert!(schema_sql(usize::MAX, true).contains(&format!("FLOAT[{}]", usize::MAX)));
}
