//! SQL schema of the memory index.
//!
//! The index uses three tables:
//! - `meta`: key-value metadata (embedding dimensions, schema version)
//! - `chunks`: indexed text chunks with content hashes
//! - `chunks_fts`: contentless FTS5 virtual table for keyword search
//!
//! Where vector search is available there is a fourth one:
//! - `chunks_vec`: vec0 virtual table for nearest-neighbour search
//!
//! [`SCHEMA_VERSION`] is stored in `meta`. When an older database is opened,
//! [`plan_migration`] gives the column upgrades that it lacks.

use crate::text;
use crate::text::{append_decimal, is_text, to_chars};
use vstd::prelude::*;

verus! {

/// Schema version.
///
/// - 1: chunks, keyword table and optional vectors
/// - 2: typed memory, with the columns `kind`, `supersedes` and `status`
pub const SCHEMA_VERSION: u32 = 2;

/// SQL to insert or update a value in the meta table.
pub const UPSERT_META_SQL: &'static str = "INSERT OR REPLACE INTO meta(key, value) VALUES (?1, ?2)";

/// SQL to query a meta value by key.
pub const GET_META_SQL: &'static str = "SELECT value FROM meta WHERE key = ?1";

/// The statements of the schema up to the version number.
pub const SCHEMA_HEAD: &'static str = r#"
CREATE TABLE IF NOT EXISTS meta (
    key TEXT PRIMARY KEY,
    value TEXT NOT NULL
);

CREATE TABLE IF NOT EXISTS chunks (
    rowid INTEGER PRIMARY KEY AUTOINCREMENT,
    id TEXT UNIQUE NOT NULL,
    path TEXT NOT NULL,
    start_line INTEGER NOT NULL,
    end_line INTEGER NOT NULL,
    text TEXT NOT NULL,
    hash TEXT NOT NULL,
    source TEXT NOT NULL,
    created_at INTEGER NOT NULL,
    updated_at INTEGER NOT NULL,
    access_count INTEGER DEFAULT 0,
    last_accessed INTEGER,
    kind TEXT NOT NULL DEFAULT 'unknown',
    supersedes TEXT,
    status TEXT NOT NULL DEFAULT 'active'
);

CREATE INDEX IF NOT EXISTS idx_chunks_path ON chunks(path);
CREATE INDEX IF NOT EXISTS idx_chunks_hash ON chunks(hash);
CREATE INDEX IF NOT EXISTS idx_chunks_kind ON chunks(kind);
CREATE INDEX IF NOT EXISTS idx_chunks_status ON chunks(status);

CREATE VIRTUAL TABLE IF NOT EXISTS chunks_fts USING fts5(text, content='');

INSERT OR IGNORE INTO meta(key, value) VALUES ('reindex_claim', '');
INSERT OR IGNORE INTO meta(key, value) VALUES ('schema_version', '"#;

/// The statements of the schema after the version number.
pub const SCHEMA_TAIL: &'static str = "');\n";

/// The vector table up to the number of dimensions.
pub const VECTOR_HEAD: &'static str = "\nCREATE VIRTUAL TABLE IF NOT EXISTS chunks_vec USING vec0(\n    chunk_id TEXT PRIMARY KEY,\n    embedding FLOAT[";

/// The vector table after the number of dimensions.
pub const VECTOR_TAIL: &'static str = "]\n);\n";

/// The schema, with the vector table where vector search is available.
pub open spec fn schema_text(dimensions: nat, vec_available: bool) -> Seq<char> {
    let base = SCHEMA_HEAD@ + text::decimal(SCHEMA_VERSION as nat) + SCHEMA_TAIL@;
    if vec_available {
        base + VECTOR_HEAD@ + text::decimal(dimensions) + VECTOR_TAIL@
    } else {
        base
    }
}

/// The SQL schema of the memory index. `dimensions` is the size of the
/// vectors in `chunks_vec`, which is created only where vector search is
/// available.
pub fn schema_sql(dimensions: usize, vec_available: bool) -> (r: String)
    ensures
        r@ == schema_text(dimensions as nat, vec_available),
{
    let mut sql = SCHEMA_HEAD.to_owned();
    append_decimal(&mut sql, SCHEMA_VERSION as usize);
    sql.append(SCHEMA_TAIL);
    if vec_available {
        sql.append(VECTOR_HEAD);
        append_decimal(&mut sql, dimensions);
        sql.append(VECTOR_TAIL);
    }
    sql
}

/// A column that typed memory added to `chunks`.
#[derive(Debug, Clone, Copy, PartialEq, Eq, Structural)]
pub enum TypedColumn {
    Kind,
    Supersedes,
    Status,
}

/// The name of a column.
pub open spec fn column_name(column: TypedColumn) -> Seq<char> {
    match column {
        TypedColumn::Kind => "kind"@,
        TypedColumn::Supersedes => "supersedes"@,
        TypedColumn::Status => "status"@,
    }
}

/// A step of a migration.
#[derive(Debug, Clone, Copy, PartialEq, Eq, Structural)]
pub enum MigrationStep {
    /// A column is added to `chunks`.
    AddColumn(TypedColumn),
    /// The index on `kind` is created where it is missing.
    IndexKind,
    /// The index on `status` is created where it is missing.
    IndexStatus,
    /// The schema version is recorded in `meta`.
    RecordVersion,
}

/// The SQL of a step.
pub open spec fn step_sql(step: MigrationStep) -> Seq<char> {
    match step {
        MigrationStep::AddColumn(TypedColumn::Kind) =>
            "ALTER TABLE chunks ADD COLUMN kind TEXT NOT NULL DEFAULT 'unknown'"@,
        MigrationStep::AddColumn(TypedColumn::Supersedes) =>
            "ALTER TABLE chunks ADD COLUMN supersedes TEXT"@,
        MigrationStep::AddColumn(TypedColumn::Status) =>
            "ALTER TABLE chunks ADD COLUMN status TEXT NOT NULL DEFAULT 'active'"@,
        MigrationStep::IndexKind => "CREATE INDEX IF NOT EXISTS idx_chunks_kind ON chunks(kind)"@,
        MigrationStep::IndexStatus =>
            "CREATE INDEX IF NOT EXISTS idx_chunks_status ON chunks(status)"@,
        MigrationStep::RecordVersion => UPSERT_META_SQL@,
    }
}

/// The parameters of a step.
pub open spec fn step_params(step: MigrationStep) -> Seq<Seq<char>> {
    match step {
        MigrationStep::RecordVersion => seq![
            "schema_version"@,
            text::decimal(SCHEMA_VERSION as nat),
        ],
        _ => seq![],
    }
}

/// The views of some strings.
pub open spec fn string_views(v: Seq<String>) -> Seq<Seq<char>> {
    Seq::new(v.len(), |i: int| v[i]@)
}

impl MigrationStep {
    /// The SQL of this step.
    pub fn sql(self) -> (r: &'static str)
        ensures
            r@ == step_sql(self),
    {
        match self {
            MigrationStep::AddColumn(TypedColumn::Kind) =>
                "ALTER TABLE chunks ADD COLUMN kind TEXT NOT NULL DEFAULT 'unknown'",
            MigrationStep::AddColumn(TypedColumn::Supersedes) =>
                "ALTER TABLE chunks ADD COLUMN supersedes TEXT",
            MigrationStep::AddColumn(TypedColumn::Status) =>
                "ALTER TABLE chunks ADD COLUMN status TEXT NOT NULL DEFAULT 'active'",
            MigrationStep::IndexKind => "CREATE INDEX IF NOT EXISTS idx_chunks_kind ON chunks(kind)",
            MigrationStep::IndexStatus =>
                "CREATE INDEX IF NOT EXISTS idx_chunks_status ON chunks(status)",
            MigrationStep::RecordVersion => UPSERT_META_SQL,
        }
    }

    /// The parameters of this step, in their order.
    pub fn params(self) -> (r: Vec<String>)
        ensures
            string_views(r@) == step_params(self),
    {
        let mut params: Vec<String> = Vec::new();
        if self == MigrationStep::RecordVersion {
            let mut version = String::new();
            append_decimal(&mut version, SCHEMA_VERSION as usize);
            assert(version@ =~= text::decimal(SCHEMA_VERSION as nat));
            params.push("schema_version".to_owned());
            params.push(version);
        }
        assert(string_views(params@) =~= step_params(self));
        params
    }
}

/// The step that adds a column, where it is missing.
pub open spec fn added(columns: Seq<Seq<char>>, column: TypedColumn) -> Seq<MigrationStep> {
    if columns.contains(column_name(column)) {
        seq![]
    } else {
        seq![MigrationStep::AddColumn(column)]
    }
}

/// The steps that upgrade a database whose table `chunks` has these columns.
/// Without columns there is no table yet, and the version is all there is to
/// record.
pub open spec fn migration(columns: Seq<Seq<char>>) -> Seq<MigrationStep> {
    if columns.len() == 0 {
        seq![MigrationStep::RecordVersion]
    } else {
        added(columns, TypedColumn::Kind) + added(columns, TypedColumn::Supersedes) + added(
            columns,
            TypedColumn::Status,
        ) + seq![
            MigrationStep::IndexKind,
            MigrationStep::IndexStatus,
            MigrationStep::RecordVersion,
        ]
    }
}

/// Whether a column is among `columns`.
fn has_column(columns: &[String], name: &str) -> (r: bool)
    ensures
        r == string_views(columns@).contains(name@),
{
    let ghost names = string_views(columns@);
    for i in 0..columns.len()
        invariant
            names == string_views(columns@),
            forall|k: int| 0 <= k < i ==> #[trigger] names[k] != name@,
    {
        let column = to_chars(columns[i].as_str());
        assert(names[i as int] == columns@[i as int]@);
        if is_text(column.as_slice(), name) {
            return true;
        }
    }
    false
}

/// Plans the upgrade of a database whose table `chunks` has these columns
/// (none where the table is missing).
///
/// Missing columns are added and existing ones are left alone, so the plan
/// may be run on every open. It ends by recording the schema version.
pub fn plan_migration(columns: &[String]) -> (r: Vec<MigrationStep>)
    ensures
        r@ == migration(string_views(columns@)),
{
    let mut steps: Vec<MigrationStep> = Vec::new();
    if columns.len() > 0 {
        if !has_column(columns, "kind") {
            steps.push(MigrationStep::AddColumn(TypedColumn::Kind));
        }
        if !has_column(columns, "supersedes") {
            steps.push(MigrationStep::AddColumn(TypedColumn::Supersedes));
        }
        if !has_column(columns, "status") {
            steps.push(MigrationStep::AddColumn(TypedColumn::Status));
        }
        steps.push(MigrationStep::IndexKind);
        steps.push(MigrationStep::IndexStatus);
    }
    steps.push(MigrationStep::RecordVersion);
    assert(steps@ =~= migration(string_views(columns@)));
    steps
}

/// The SQL that lists the columns of a table.
pub fn table_info_sql(table: &str) -> (r: String)
    ensures
        r@ == "PRAGMA table_info("@ + table@ + ")"@,
{
    let mut sql = "PRAGMA table_info(".to_owned();
    sql.append(table);
    sql.append(")");
    sql
}

/// The columns of `chunks` after some steps.
pub open spec fn columns_after(columns: Seq<Seq<char>>, steps: Seq<MigrationStep>) -> Seq<Seq<char>>
    decreases steps.len(),
{
    if steps.len() == 0 {
        columns
    } else {
        let before = columns_after(columns, steps.drop_last());
        match steps.last() {
            MigrationStep::AddColumn(column) => before.push(column_name(column)),
            _ => before,
        }
    }
}

} // verus!
