//! What a migration does to the columns of a table.

use crate::kind;
use crate::kind::MemoryKind;
use crate::schema;
use crate::schema::{MigrationStep, TypedColumn};
use crate::text;
use vstd::prelude::*;

verus! {

/// The columns after some more steps.
proof fn lemma_columns_add(
    columns: Seq<Seq<char>>,
    a: Seq<MigrationStep>,
    b: Seq<MigrationStep>,
)
    ensures
        schema::columns_after(columns, a + b) == schema::columns_after(
            schema::columns_after(columns, a),
            b,
        ),
    decreases b.len(),
{
    if b.len() == 0 {
        assert(a + b =~= a);
    } else {
        lemma_columns_add(columns, a, b.drop_last());
        assert((a + b).drop_last() =~= a + b.drop_last());
    }
}

/// A column that is added where it is missing is there afterwards, and the
/// others stay.
proof fn lemma_added(columns: Seq<Seq<char>>, before: Seq<Seq<char>>, column: TypedColumn)
    ensures
        ({
            let after = schema::columns_after(before, schema::added(columns, column));
            &&& forall|name: Seq<char>| before.contains(name) ==> #[trigger] after.contains(name)
            &&& forall|name: Seq<char>| #[trigger]
                after.contains(name) ==> before.contains(name) || name == schema::column_name(
                    column,
                )
            &&& !columns.contains(schema::column_name(column)) ==> after.contains(
                schema::column_name(column),
            )
            &&& columns.contains(schema::column_name(column)) ==> after == before
        }),
{
    let steps = schema::added(columns, column);
    let after = schema::columns_after(before, steps);
    let name = schema::column_name(column);
    if columns.contains(name) {
        assert(after == before);
    } else {
        assert(steps.drop_last() =~= seq![]);
        assert(schema::columns_after(before, steps.drop_last()) == before);
        assert(after == before.push(name));
        assert(after[before.len() as int] == name);
        assert forall|other: Seq<char>| before.contains(other) implies #[trigger] after.contains(
            other,
        ) by {
            let i = choose|i: int| 0 <= i < before.len() && before[i] == other;
            assert(after[i] == other);
        }
        assert forall|other: Seq<char>| #[trigger] after.contains(other) implies before.contains(
            other,
        ) || other == name by {
            let i = choose|i: int| 0 <= i < after.len() && after[i] == other;
            if i < before.len() {
                assert(before[i] == other);
            }
        }
    }
}

/// After a migration every typed column is there, no column is lost, none
/// but the typed ones is new, and a second migration adds none.
pub proof fn law_migration_is_idempotent(columns: Seq<Seq<char>>)
    requires
        columns.len() > 0,
    ensures
        ({
            let after = schema::columns_after(columns, schema::migration(columns));
            &&& forall|column: TypedColumn| after.contains(#[trigger] schema::column_name(column))
            &&& forall|name: Seq<char>| columns.contains(name) ==> #[trigger] after.contains(name)
            &&& forall|name: Seq<char>| #[trigger]
                after.contains(name) ==> columns.contains(name) || exists|column: TypedColumn|
                    name == #[trigger] schema::column_name(column)
            &&& schema::migration(after) == seq![
                MigrationStep::IndexKind,
                MigrationStep::IndexStatus,
                MigrationStep::RecordVersion,
            ]
            &&& schema::columns_after(after, schema::migration(after)) == after
        }),
{
    let k = schema::added(columns, TypedColumn::Kind);
    let p = schema::added(columns, TypedColumn::Supersedes);
    let s = schema::added(columns, TypedColumn::Status);
    let rest = seq![
        MigrationStep::IndexKind,
        MigrationStep::IndexStatus,
        MigrationStep::RecordVersion,
    ];
    lemma_columns_add(columns, k + p + s, rest);
    lemma_columns_add(columns, k + p, s);
    lemma_columns_add(columns, k, p);
    let one = schema::columns_after(columns, k);
    let two = schema::columns_after(one, p);
    let three = schema::columns_after(two, s);
    lemma_added(columns, columns, TypedColumn::Kind);
    lemma_added(columns, one, TypedColumn::Supersedes);
    lemma_added(columns, two, TypedColumn::Status);
    lemma_rest(three);
    let after = schema::columns_after(columns, schema::migration(columns));
    assert(after == three);
    assert forall|name: Seq<char>| columns.contains(name) implies #[trigger] after.contains(
        name,
    ) by {
        assert(one.contains(name));
        assert(two.contains(name));
    }
    assert forall|column: TypedColumn| after.contains(#[trigger] schema::column_name(column)) by {
        let name = schema::column_name(column);
        if columns.contains(name) {
            assert(after.contains(name));
        } else {
            match column {
                TypedColumn::Kind => {
                    assert(one.contains(name));
                    assert(two.contains(name));
                },
                TypedColumn::Supersedes => {
                    assert(two.contains(name));
                },
                TypedColumn::Status => {},
            }
        }
    }
    assert forall|name: Seq<char>| #[trigger] after.contains(name) implies columns.contains(name)
        || exists|column: TypedColumn| name == #[trigger] schema::column_name(column) by {
        if !two.contains(name) {
            assert(name == schema::column_name(TypedColumn::Status));
        } else if !one.contains(name) {
            assert(name == schema::column_name(TypedColumn::Supersedes));
        } else if !columns.contains(name) {
            assert(name == schema::column_name(TypedColumn::Kind));
        }
    }
    assert(after.contains(schema::column_name(TypedColumn::Kind)));
    assert(after.contains(schema::column_name(TypedColumn::Supersedes)));
    assert(after.contains(schema::column_name(TypedColumn::Status)));
    assert(schema::migration(after) =~= rest);
    lemma_rest(after);
}

/// The steps that every migration has add no column.
proof fn lemma_rest(columns: Seq<Seq<char>>)
    ensures
        schema::columns_after(
            columns,
            seq![
                MigrationStep::IndexKind,
                MigrationStep::IndexStatus,
                MigrationStep::RecordVersion,
            ],
        ) == columns,
{
    let rest = seq![
        MigrationStep::IndexKind,
        MigrationStep::IndexStatus,
        MigrationStep::RecordVersion,
    ];
    assert(rest.drop_last() =~= rest.take(2));
    assert(rest.take(2).drop_last() =~= rest.take(1));
    assert(rest.take(1).drop_last() =~= rest.take(0));
    assert(schema::columns_after(columns, rest.take(0)) == columns);
    assert(schema::columns_after(columns, rest.take(1)) == columns);
    assert(schema::columns_after(columns, rest.take(2)) == columns);
}

// ---------------------------------------------------------------------------
// Definitions of columns
// ---------------------------------------------------------------------------

/// The definition of a typed column. A chunk that says nothing of its kind or
/// its status has the defaults.
pub open spec fn column_definition(column: TypedColumn) -> Seq<char> {
    match column {
        TypedColumn::Kind => "kind TEXT NOT NULL DEFAULT '"@ + kind::kind_name(
            kind::classification(seq![], "workspace"@).kind,
        ) + "'"@,
        TypedColumn::Supersedes => "supersedes TEXT"@,
        TypedColumn::Status => "status TEXT NOT NULL DEFAULT '"@ + kind::classification(
            seq![],
            "workspace"@,
        ).status + "'"@,
    }
}

/// A chunk without any line has no kind and is active.
proof fn lemma_defaults()
    ensures
        kind::classification(seq![], "workspace"@).kind == MemoryKind::Unknown,
        kind::classification(seq![], "workspace"@).status == "active"@,
{
    reveal_strlit("workspace");
    reveal_strlit("session");
    assert("workspace"@.len() != "session"@.len());
    let none = Seq::<Seq<char>>::empty();
    assert(text::lines(Seq::<char>::empty()) =~= none);
    assert(kind::nonblank(none) =~= none);
    assert(kind::scanned(Seq::<char>::empty()) =~= none);
}

/// The column that a step adds has the definition that says of an old chunk
/// what is said of a chunk without fields.
pub proof fn law_added_columns_have_defaults(column: TypedColumn)
    ensures
        schema::step_sql(MigrationStep::AddColumn(column)) == "ALTER TABLE chunks ADD COLUMN "@
            + column_definition(column),
        text::starts_with(column_definition(column), schema::column_name(column)),
{
    lemma_defaults();
    reveal_strlit("ALTER TABLE chunks ADD COLUMN ");
    reveal_strlit("'");
    match column {
        TypedColumn::Kind => {
            reveal_strlit("ALTER TABLE chunks ADD COLUMN kind TEXT NOT NULL DEFAULT 'unknown'");
            reveal_strlit("kind TEXT NOT NULL DEFAULT '");
            reveal_strlit("unknown");
            reveal_strlit("kind");
        },
        TypedColumn::Supersedes => {
            reveal_strlit("ALTER TABLE chunks ADD COLUMN supersedes TEXT");
            reveal_strlit("supersedes TEXT");
            reveal_strlit("supersedes");
        },
        TypedColumn::Status => {
            reveal_strlit("ALTER TABLE chunks ADD COLUMN status TEXT NOT NULL DEFAULT 'active'");
            reveal_strlit("status TEXT NOT NULL DEFAULT '");
            reveal_strlit("active");
            reveal_strlit("status");
        },
    }
    assert(schema::step_sql(MigrationStep::AddColumn(column)) =~= "ALTER TABLE chunks ADD COLUMN "@
        + column_definition(column));
    let name = schema::column_name(column);
    assert(column_definition(column).take(name.len() as int) =~= name);
}

/// The statements that create the tables, up to the schema version.
pub open spec fn tables() -> Seq<char> {
    r#"
CREATE TABLE IF NOT EXISTS meta (
    key TEXT PRIMARY KEY,
    value TEXT NOT NULL
);

CREATE TABLE IF NOT EXISTS chunks (
    rowid INTEGER PRIMARY KEY AUTOINCREMENT,
    id TEXT UNIQUE NOT NULL,
    path TEXT NOT NULL,
    start_line INTEGER NOT NULL,
    end_line INTEGER NOT NULL,
    text TEXT NOT NULL,
    hash TEXT NOT NULL,
    source TEXT NOT NULL,
    created_at INTEGER NOT NULL,
    updated_at INTEGER NOT NULL,
    access_count INTEGER DEFAULT 0,
    last_accessed INTEGER,
    kind TEXT NOT NULL DEFAULT 'unknown',
    supersedes TEXT,
    status TEXT NOT NULL DEFAULT 'active'
);

CREATE INDEX IF NOT EXISTS idx_chunks_path ON chunks(path);
CREATE INDEX IF NOT EXISTS idx_chunks_hash ON chunks(hash);
CREATE INDEX IF NOT EXISTS idx_chunks_kind ON chunks(kind);
CREATE INDEX IF NOT EXISTS idx_chunks_status ON chunks(status);

CREATE VIRTUAL TABLE IF NOT EXISTS chunks_fts USING fts5(text, content='');

INSERT OR IGNORE INTO meta(key, value) VALUES ('reindex_claim', '');
INSERT OR IGNORE INTO meta(key, value) VALUES ('schema_version', '"#@
}

/// The columns that the created table has are the ones that a migration adds.
proof fn lemma_tables_define(column: TypedColumn)
    ensures
        text::contains(tables(), column_definition(column)),
{
    lemma_defaults();
    reveal_strlit(r#"
CREATE TABLE IF NOT EXISTS meta (
    key TEXT PRIMARY KEY,
    value TEXT NOT NULL
);

CREATE TABLE IF NOT EXISTS chunks (
    rowid INTEGER PRIMARY KEY AUTOINCREMENT,
    id TEXT UNIQUE NOT NULL,
    path TEXT NOT NULL,
    start_line INTEGER NOT NULL,
    end_line INTEGER NOT NULL,
    text TEXT NOT NULL,
    hash TEXT NOT NULL,
    source TEXT NOT NULL,
    created_at INTEGER NOT NULL,
    updated_at INTEGER NOT NULL,
    access_count INTEGER DEFAULT 0,
    last_accessed INTEGER,
    kind TEXT NOT NULL DEFAULT 'unknown',
    supersedes TEXT,
    status TEXT NOT NULL DEFAULT 'active'
);

CREATE INDEX IF NOT EXISTS idx_chunks_path ON chunks(path);
CREATE INDEX IF NOT EXISTS idx_chunks_hash ON chunks(hash);
CREATE INDEX IF NOT EXISTS idx_chunks_kind ON chunks(kind);
CREATE INDEX IF NOT EXISTS idx_chunks_status ON chunks(status);

CREATE VIRTUAL TABLE IF NOT EXISTS chunks_fts USING fts5(text, content='');

INSERT OR IGNORE INTO meta(key, value) VALUES ('reindex_claim', '');
INSERT OR IGNORE INTO meta(key, value) VALUES ('schema_version', '"#);
    reveal_strlit("'");
    let i: int = match column {
        TypedColumn::Kind => 494,
        TypedColumn::Supersedes => 536,
        TypedColumn::Status => 557,
    };
    match column {
        TypedColumn::Kind => {
            reveal_strlit("kind TEXT NOT NULL DEFAULT '");
            reveal_strlit("unknown");
        },
        TypedColumn::Supersedes => {
            reveal_strlit("supersedes TEXT");
        },
        TypedColumn::Status => {
            reveal_strlit("status TEXT NOT NULL DEFAULT '");
            reveal_strlit("active");
        },
    }
    let d = column_definition(column);
    assert(tables().subrange(i, i + d.len()) =~= d);
    assert(text::occurs_at(tables(), d, i));
}

/// The schema is the tables, with the current version recorded and, where
/// vectors can be searched, a table for vectors of the given dimensions. Each
/// column that a migration adds stands in it with the same definition.
pub proof fn law_schema(dimensions: nat, vec_available: bool, column: TypedColumn)
    ensures
        schema::schema_text(dimensions, false) == tables() + text::decimal(2) + "');\n"@,
        schema::schema_text(dimensions, true) == schema::schema_text(dimensions, false)
            + "\nCREATE VIRTUAL TABLE IF NOT EXISTS chunks_vec USING vec0(\n    chunk_id TEXT PRIMARY KEY,\n    embedding FLOAT["@
            + text::decimal(dimensions) + "]\n);\n"@,
        text::contains(
            schema::schema_text(dimensions, vec_available),
            column_definition(column),
        ),
{
    lemma_tables_define(column);
    let whole = schema::schema_text(dimensions, vec_available);
    let rest = whole.skip(tables().len() as int);
    assert(whole =~= tables() + rest);
    let d = column_definition(column);
    let i = choose|i: int| text::occurs_at(tables(), d, i);
    assert(whole.subrange(i, i + d.len()) =~= tables().subrange(i, i + d.len()));
    assert(text::occurs_at(whole, d, i));
}

/// The steps besides the added columns: the two indexes, and the record of the
/// version that the schema has.
pub proof fn law_other_steps()
    ensures
        schema::step_sql(MigrationStep::IndexKind)
            == "CREATE INDEX IF NOT EXISTS idx_chunks_kind ON chunks(kind)"@,
        schema::step_sql(MigrationStep::IndexStatus)
            == "CREATE INDEX IF NOT EXISTS idx_chunks_status ON chunks(status)"@,
        schema::step_sql(MigrationStep::RecordVersion)
            == "INSERT OR REPLACE INTO meta(key, value) VALUES (?1, ?2)"@,
        schema::step_params(MigrationStep::RecordVersion) == seq![
            "schema_version"@,
            text::decimal(2),
        ],
        schema::step_params(MigrationStep::IndexKind).len() == 0,
        schema::step_params(MigrationStep::IndexStatus).len() == 0,
        forall|column: TypedColumn|
            (#[trigger] schema::step_params(MigrationStep::AddColumn(column))).len() == 0,
        schema::column_name(TypedColumn::Kind) == "kind"@,
        schema::column_name(TypedColumn::Supersedes) == "supersedes"@,
        schema::column_name(TypedColumn::Status) == "status"@,
        schema::GET_META_SQL@ == "SELECT value FROM meta WHERE key = ?1"@,
{
}

/// The steps of a migration of a table with these columns: a typed column is
/// added exactly where it is missing, each at most once, the kind before what
/// is superseded and the status after it; the indexes come after the columns,
/// and the version is recorded last, also where there is no table.
pub proof fn law_migration_steps(columns: Seq<Seq<char>>, column: TypedColumn)
    ensures
        ({
            let steps = schema::migration(columns);
            let n = steps.len() as int;
            &&& steps.contains(MigrationStep::AddColumn(column)) <==> columns.len() > 0
                && !columns.contains(schema::column_name(column))
            &&& n >= 1 && steps[n - 1] == MigrationStep::RecordVersion
            &&& columns.len() == 0 ==> n == 1
            &&& columns.len() > 0 ==> n >= 3 && steps[n - 3] == MigrationStep::IndexKind && steps[n
                - 2] == MigrationStep::IndexStatus
            &&& forall|i: int| 0 <= i < n - 3 ==> #[trigger] steps[i] is AddColumn
            &&& forall|i: int, j: int|
                0 <= i < j < n ==> #[trigger] steps[i] != #[trigger] steps[j]
            &&& forall|i: int, j: int|
                0 <= i < j < n - 3 ==> #[trigger] steps[i] != MigrationStep::AddColumn(
                    TypedColumn::Status,
                ) && #[trigger] steps[j] != MigrationStep::AddColumn(TypedColumn::Kind)
        }),
{
    let steps = schema::migration(columns);
    let k = schema::added(columns, TypedColumn::Kind);
    let p = schema::added(columns, TypedColumn::Supersedes);
    let s = schema::added(columns, TypedColumn::Status);
    if columns.len() > 0 {
        match column {
            TypedColumn::Kind => {
                if k.len() > 0 {
                    assert(steps[0] == k[0]);
                }
            },
            TypedColumn::Supersedes => {
                if p.len() > 0 {
                    assert(steps[k.len() as int] == p[0]);
                }
            },
            TypedColumn::Status => {
                if s.len() > 0 {
                    assert(steps[(k.len() + p.len()) as int] == s[0]);
                }
            },
        }
    }
}

/// Lists of strings are modelled one by one.
pub proof fn law_lists_of_strings(v: Seq<String>)
    ensures
        schema::string_views(v).len() == v.len(),
        forall|i: int| 0 <= i < v.len() ==> #[trigger] schema::string_views(v)[i] == v[i]@,
{
}

} // verus!
