use ai_hist::digest::prompt_hash;
use ai_hist::evidence_sql::{read_session, record_of_row, Statement};
use ai_hist::json::{JsonNumber, JsonValue};
use ai_hist::migrations::{
    migration_plan, rename_is_to_restore, table_plan, MigrationScript, MigrationState,
    MigrationStep, SCHEMA,
};
use ai_hist::pages::{
    evidence_page_query, session_file_edits_page, session_tool_calls_page, SqlValue,
};
use ai_hist::queries::{
    matching_sessions_query, recent_query, search_query, session_query, session_rows_query,
    stats_queries, TextQuery, EVENT_COLUMNS, FILE_EDIT_COLUMNS, TOOL_CALL_COLUMNS,
};
use ai_hist::schema::{
    SchemaNames, REQUIRED_INDEXES, REQUIRED_SESSIONS_COLUMNS, REQUIRED_TABLES, RETIRED_INDEXES,
};
use ai_hist::session_store::{Opening, SessionStore, SourceName, StoreOptions};
use ai_hist::session_usage::{
    session_requests, session_requests_view_is_current, session_usage_summary,
    SESSION_REQUESTS_VIEW_DDL,
};
use ai_hist::source_evidence::{EvidenceKind, EvidenceRecord};
use ai_hist::storage::{
    changed_file_sessions_query, commit_links_after_query, history_after_query,
    latest_history_query, pending_event_sessions_query, session_metadata_query,
    session_project_query, trajectories_after_query,
};
use ai_hist::store::{
    history_presence, merge_presence, HistoryEntry, QueryFilter, SessionLocation,
    SessionPresence, SessionEvent, SessionEvidenceCursor, SessionFileEdit, SessionScope,
    SessionToolCall, SourceNames,
};
use rusqlite::types::Value;
use rusqlite::Connection;

fn texts(conn: &Connection, sql: &str) -> Vec<String> {
    let mut statement = conn.prepare(sql).unwrap();
    let rows = statement
        .query_map([], |row| row.get::<usize, String>(0))
        .unwrap();
    rows.map(|row| row.unwrap()).collect()
}

fn count(conn: &Connection, sql: &str) -> i64 {
    conn.query_row(sql, [], |row| row.get(0)).unwrap()
}

fn columns(conn: &Connection, table: &str) -> Vec<String> {
    texts(conn, &format!("SELECT name FROM pragma_table_info('{table}')"))
}

fn names_of(conn: &Connection) -> SchemaNames {
    let objects = texts(conn, "SELECT name FROM sqlite_master");
    let migrations = if objects.contains(&"schema_migrations".to_string()) {
        texts(conn, "SELECT name FROM schema_migrations")
    } else {
        Vec::new()
    };
    SchemaNames {
        objects,
        indexes: texts(conn, "SELECT name FROM sqlite_master WHERE type = 'index'"),
        migrations,
        history_columns: columns(conn, "history"),
        session_columns: columns(conn, "sessions"),
        presence_columns: columns(conn, "session_presences"),
        relationship_columns: columns(conn, "session_relationships"),
    }
}

/// What stands in for the tables of deliveries.
fn add_deliveries(conn: &Connection) {
    for table in REQUIRED_TABLES {
        if table.starts_with("delivery_") || table.starts_with("history_export") {
            conn.execute_batch(&format!("CREATE TABLE IF NOT EXISTS {table} (x)"))
                .unwrap();
        }
    }
    conn.execute_batch("INSERT OR IGNORE INTO schema_migrations (name) VALUES ('delivery_v1')")
        .unwrap();
}

fn run(conn: &Connection, steps: &[MigrationStep]) {
    for step in steps {
        match step {
            MigrationStep::PlainRename(on) => {
                conn.pragma_update(None, "legacy_alter_table", *on).unwrap()
            }
            MigrationStep::Observations => {}
            MigrationStep::Delivery => add_deliveries(conn),
            _ => conn.execute_batch(&step.statement().unwrap()).unwrap(),
        }
    }
}

fn marked(conn: &Connection, name: &str) -> bool {
    texts(conn, "SELECT name FROM schema_migrations").contains(&name.to_string())
}

fn init_db(conn: &Connection) {
    if !names_of(conn).needs_migration(true, true) {
        return;
    }
    run(conn, &table_plan());
    let state = MigrationState {
        relationships_marked: marked(conn, "session_relationships_v2"),
        relationships_named: columns(conn, "session_relationships")
            .contains(&"relationship_uid".to_string()),
        presences_marked: marked(conn, "session_presences_local_backfill_v1"),
        history_columns: columns(conn, "history"),
        session_columns: columns(conn, "sessions"),
        presence_columns: columns(conn, "session_presences"),
    };
    run(conn, &migration_plan(&state));
}

fn fresh() -> Connection {
    let conn = Connection::open_in_memory().unwrap();
    init_db(&conn);
    conn
}

fn is_current(conn: &Connection) -> bool {
    names_of(conn).schema_is_current(true, true)
}

#[test]
fn an_initialised_database_needs_no_migration() {
    let conn = fresh();
    assert!(is_current(&conn));
    assert!(!names_of(&conn).needs_migration(true, true));
    assert!(names_of(&conn).needs_migration(false, true));
    assert!(names_of(&conn).needs_migration(true, false));
}

#[test]
fn an_outdated_database_is_not_reported_as_schema_current() {
    let old = Connection::open_in_memory().unwrap();
    old.execute_batch(
        "CREATE TABLE history (id INTEGER PRIMARY KEY, source TEXT, prompt TEXT, timestamp_ms INTEGER);",
    )
    .unwrap();
    assert!(!is_current(&old));
    assert!(is_current(&fresh()));
}

#[test]
fn session_relationships_v1_database_migrates_to_v2() {
    let conn = Connection::open_in_memory().unwrap();
    conn.execute_batch(
        "CREATE TABLE session_relationships (
             source TEXT NOT NULL,
             parent_session_id TEXT NOT NULL,
             child_session_id TEXT NOT NULL,
             relationship TEXT NOT NULL,
             created_ms INTEGER NOT NULL,
             PRIMARY KEY (source, parent_session_id, child_session_id)
         );
         INSERT INTO session_relationships VALUES ('codex', 'root', 'child', 'delegated', 77);",
    )
    .unwrap();
    init_db(&conn);
    let row: (String, String, String, i64, i64) = conn
        .query_row(
            "SELECT relationship_uid, identity_status, evidence_kind, child_has_events, created_ms \
             FROM session_relationships WHERE child_session_id = 'child'",
            [],
            |row| {
                Ok((
                    row.get(0)?,
                    row.get(1)?,
                    row.get(2)?,
                    row.get(3)?,
                    row.get(4)?,
                ))
            },
        )
        .unwrap();
    assert_eq!(row.0, "child:child");
    assert_eq!(row.1, "observed");
    assert_eq!(row.2, "legacy_hydration");
    assert_eq!(row.3, 0);
    assert_eq!(row.4, 77);
    assert!(marked(&conn, "session_relationships_v2"));
    // The cascade trigger survives the rebuild and still reaches the rebuilt table
    // rather than the renamed original.
    conn.execute_batch(
        "INSERT INTO sessions (session_id, source) VALUES ('root', 'codex');
         DELETE FROM sessions WHERE session_id = 'root' AND source = 'codex';",
    )
    .unwrap();
    assert_eq!(count(&conn, "SELECT COUNT(*) FROM session_relationships"), 0);
}

/// A database with the first table of relationships, an index on it, an old history and a
/// retired index.
fn outdated() -> Connection {
    let conn = Connection::open_in_memory().unwrap();
    conn.execute_batch(
        "CREATE TABLE history (
             id INTEGER PRIMARY KEY, source TEXT NOT NULL, session_id TEXT, project TEXT,
             prompt TEXT NOT NULL, timestamp_ms INTEGER NOT NULL
         );
         CREATE TABLE tool_calls (
             id INTEGER PRIMARY KEY, source TEXT, session_id TEXT, ts_ms INTEGER
         );
         CREATE INDEX idx_tool_calls_session ON tool_calls(source, session_id);
         CREATE TABLE session_relationships (
             source TEXT NOT NULL, parent_session_id TEXT NOT NULL,
             child_session_id TEXT NOT NULL, relationship TEXT NOT NULL,
             created_ms INTEGER NOT NULL
         );
         CREATE INDEX idx_session_relationships_parent
             ON session_relationships(source, parent_session_id);",
    )
    .unwrap();
    conn
}

#[test]
fn a_migration_leads_from_an_outdated_database_to_the_required_shape() {
    let conn = outdated();
    assert!(names_of(&conn).needs_migration(true, true));
    init_db(&conn);
    let names = names_of(&conn);
    assert!(!names.needs_migration(true, true));
    assert!(names.schema_has_required_indexes(REQUIRED_INDEXES));
    assert!(!names.retired_indexes_present());
    assert_eq!(
        texts(
            &conn,
            "SELECT tbl_name FROM sqlite_master WHERE name = 'idx_session_relationships_parent'"
        ),
        vec!["session_relationships".to_string()]
    );
    assert!(!names
        .objects
        .contains(&"session_relationships_v1".to_string()));
}

#[test]
fn a_dropped_table_takes_its_indexes_along() {
    let conn = outdated();
    run(&conn, &table_plan());
    let parent = "SELECT tbl_name FROM sqlite_master \
                  WHERE name = 'idx_session_relationships_parent'";
    run(&conn, &[MigrationStep::Batch(MigrationScript::SetAside)]);
    assert_eq!(
        texts(&conn, parent),
        vec!["session_relationships_v1".to_string()]
    );
    assert!(columns(&conn, "session_relationships").is_empty());
    run(
        &conn,
        &[
            MigrationStep::Batch(MigrationScript::Relationships),
            MigrationStep::Batch(MigrationScript::CarryOver),
        ],
    );
    assert!(texts(&conn, parent).is_empty());
    assert!(columns(&conn, "session_relationships").contains(&"relationship_uid".to_string()));
}

#[test]
fn a_rename_is_restored_wherever_a_migration_stops() {
    let state = MigrationState {
        relationships_marked: false,
        relationships_named: false,
        presences_marked: true,
        history_columns: vec!["prompt_hash".to_string(), "git_branch".to_string()],
        session_columns: Vec::new(),
        presence_columns: Vec::new(),
    };
    let plan = migration_plan(&state);
    assert!(!rename_is_to_restore(&plan, 0));
    for done in 1..5 {
        assert!(rename_is_to_restore(&plan, done), "after {done} steps");
    }
    assert!(!rename_is_to_restore(&plan, 5));
    assert!(!rename_is_to_restore(&plan, plan.len()));
}

#[test]
fn unmigrated_relationship_schema_is_not_read_current() {
    let conn = fresh();
    assert!(names_of(&conn).schema_is_relationship_read_current());
    conn.execute_batch(
        "DROP INDEX idx_session_relationships_child; \
         DELETE FROM schema_migrations WHERE name = 'session_relationships_v2';",
    )
    .unwrap();
    assert!(!names_of(&conn).schema_is_relationship_read_current());
    assert!(!is_current(&conn));

    init_db(&conn);
    assert!(names_of(&conn).schema_is_relationship_read_current());
}

#[test]
fn evidence_page_indexes_migrate_onto_an_existing_database() {
    let conn = fresh();
    assert!(names_of(&conn).schema_is_evidence_read_current());
    conn.execute_batch("DROP INDEX idx_tool_calls_page_v2; DROP INDEX idx_file_edits_page_v2;")
        .unwrap();
    assert!(!names_of(&conn).schema_is_evidence_read_current());
    assert!(!is_current(&conn));
    // Every unrelated read path keeps its read-only handle while that migration is
    // pending.
    assert!(names_of(&conn).schema_is_event_read_current());
    assert!(names_of(&conn).schema_is_catalog_read_current());
    assert!(names_of(&conn).schema_is_read_current());

    init_db(&conn);
    assert!(names_of(&conn).schema_is_evidence_read_current());
    assert!(is_current(&conn));
}

#[test]
fn the_superseded_evidence_indexes_are_dropped_and_replaced() {
    let conn = fresh();
    conn.execute_batch(
        "DROP INDEX idx_tool_calls_page_v2;
         DROP INDEX idx_file_edits_page_v2;
         CREATE INDEX idx_tool_calls_page ON tool_calls(source, session_id, ts_ms, id);
         CREATE INDEX idx_file_edits_page ON file_edits(source, session_id, ts_ms, id);
         CREATE INDEX idx_tool_calls_session ON tool_calls(source, session_id);
         CREATE INDEX idx_file_edits_session ON file_edits(source, session_id);",
    )
    .unwrap();
    assert!(!names_of(&conn).schema_is_evidence_read_current());
    assert!(!is_current(&conn));

    init_db(&conn);
    assert!(names_of(&conn).schema_is_evidence_read_current());
    assert!(is_current(&conn));
    for retired in [
        "idx_tool_calls_page",
        "idx_file_edits_page",
        "idx_tool_calls_session",
        "idx_file_edits_session",
    ] {
        assert!(
            RETIRED_INDEXES.contains(&retired),
            "{retired} must be dropped from existing databases"
        );
        assert!(
            !names_of(&conn).indexes.contains(&retired.to_string()),
            "{retired} is still present after migration"
        );
    }
}

#[test]
fn retired_sessions_indexes_are_dropped_from_a_current_database() {
    let conn = fresh();
    conn.execute_batch("CREATE INDEX idx_sessions_cwd ON sessions(cwd)")
        .unwrap();
    assert!(is_current(&conn));
    assert!(names_of(&conn).retired_indexes_present());

    init_db(&conn);
    assert!(!names_of(&conn).retired_indexes_present());
}

#[test]
fn session_catalog_columns_migrate_onto_a_pre_catalog_database() {
    let conn = Connection::open_in_memory().unwrap();
    conn.execute_batch(SCHEMA).unwrap();
    conn.execute_batch(
        "ALTER TABLE history ADD COLUMN git_branch TEXT;
         CREATE TABLE sessions (
             session_id TEXT NOT NULL,
             source TEXT NOT NULL,
             cwd TEXT,
             git_branch TEXT,
             first_activity_ms INTEGER,
             last_activity_ms INTEGER,
             last_assistant_text TEXT,
             raw_path TEXT,
             parser_version INTEGER NOT NULL DEFAULT 1,
             PRIMARY KEY (session_id, source)
         );
         INSERT INTO sessions (session_id, source, last_activity_ms)
         VALUES ('legacy-1', 'first', 42);
         INSERT INTO history (source, session_id, prompt, timestamp_ms)
         VALUES ('codex', 'history-only', 'legacy prompt', 41);",
    )
    .unwrap();
    assert!(
        !is_current(&conn),
        "a database without the catalog columns must not be served read-only"
    );

    init_db(&conn);
    assert!(is_current(&conn));
    let have = columns(&conn, "sessions");
    for needed in REQUIRED_SESSIONS_COLUMNS {
        assert!(have.contains(&needed.to_string()), "missing column {needed}");
    }
    // Existing rows survive the migration with the new columns null.
    let (id, state): (String, Option<String>) = conn
        .query_row(
            "SELECT session_id, discovery_state FROM sessions",
            [],
            |row| Ok((row.get(0)?, row.get(1)?)),
        )
        .unwrap();
    assert_eq!(id, "legacy-1");
    assert_eq!(state, None);
    assert_eq!(
        texts(
            &conn,
            "SELECT location FROM session_presences WHERE source = 'first' AND session_id = 'legacy-1'"
        ),
        vec!["local".to_string()]
    );
    assert_eq!(
        texts(
            &conn,
            "SELECT location FROM session_presences WHERE source = 'codex' AND session_id = 'history-only'"
        ),
        vec!["local".to_string()]
    );

    // The legacy backfill is permanently guarded. A session discovered remotely after
    // migration remains remote-only on every later open.
    conn.execute_batch(
        "INSERT INTO sessions (session_id, source) VALUES ('cloud-1', 'codex');
         INSERT INTO session_presences (source, session_id, location)
         VALUES ('codex', 'cloud-1', 'remote');",
    )
    .unwrap();
    init_db(&conn);
    let of_cloud =
        "SELECT location FROM session_presences WHERE source = 'codex' AND session_id = 'cloud-1'";
    assert_eq!(texts(&conn, of_cloud), vec!["remote".to_string()]);

    conn.execute_batch("DELETE FROM sessions WHERE source = 'codex' AND session_id = 'cloud-1'")
        .unwrap();
    assert!(
        texts(&conn, of_cloud).is_empty(),
        "canonical deletion cleans presence state"
    );
}

#[test]
fn a_database_missing_a_catalog_index_is_not_served_read_only() {
    let conn = fresh();
    assert!(is_current(&conn));
    for needed in [
        "idx_sessions_recency",
        "idx_sessions_source_recency",
        "idx_sessions_raw_path",
    ] {
        assert!(
            REQUIRED_INDEXES.contains(&needed),
            "{needed} is load-bearing and must stay in the guard"
        );
    }
    for index in REQUIRED_INDEXES {
        conn.execute_batch(&format!("DROP INDEX {index}")).unwrap();
        assert!(
            !is_current(&conn),
            "{index} is load-bearing for the catalog listing"
        );
        init_db(&conn);
        assert!(is_current(&conn));
    }
}

#[test]
fn read_schema_does_not_require_the_discovery_only_raw_path_index() {
    let conn = fresh();
    conn.execute_batch("DROP INDEX idx_sessions_raw_path")
        .unwrap();

    assert!(names_of(&conn).schema_is_read_current());
    assert!(names_of(&conn).schema_is_catalog_read_current());
    assert!(names_of(&conn).schema_is_event_read_current());
    assert!(!is_current(&conn));

    conn.execute_batch("DROP INDEX idx_session_events_page")
        .unwrap();
    assert!(names_of(&conn).schema_is_read_current());
    assert!(!names_of(&conn).schema_is_event_read_current());

    init_db(&conn);
    conn.execute_batch("DROP INDEX idx_session_presences_location")
        .unwrap();
    assert!(!is_current(&conn));
    assert!(!names_of(&conn).schema_is_read_current());
    assert!(!names_of(&conn).schema_is_catalog_read_current());
    // Direct event pagination does not use session location.
    assert!(names_of(&conn).schema_is_event_read_current());
}

#[test]
fn fresh_and_migrated_session_tables_converge() {
    let made = fresh();
    let migrated = Connection::open_in_memory().unwrap();
    migrated
        .execute_batch(
            "CREATE TABLE sessions (
                 session_id TEXT NOT NULL,
                 source TEXT NOT NULL,
                 cwd TEXT,
                 git_branch TEXT,
                 first_activity_ms INTEGER,
                 last_activity_ms INTEGER,
                 last_assistant_text TEXT,
                 raw_path TEXT,
                 parser_version INTEGER NOT NULL DEFAULT 1,
                 PRIMARY KEY (session_id, source)
             );",
        )
        .unwrap();
    init_db(&migrated);
    let sorted = |conn: &Connection| {
        let mut all = columns(conn, "sessions");
        all.sort();
        all
    };
    assert_eq!(sorted(&made), sorted(&migrated));
}

#[test]
fn a_migrated_database_opens_for_reading() {
    let conn = fresh();
    let reads = names_of(&conn).reads(true);
    assert!(reads.events && reads.evidence && reads.relationships && reads.usage);
    assert!(!names_of(&conn).reads(false).usage);
    let mut opts: StoreOptions<u8> = StoreOptions::default();
    opts.db_path = Some("/x.db".to_string());
    opts.read_only = true;
    assert!(SessionStore::open(opts, "/d.db", 0, &Opening::Readable(reads)).is_ok());

    conn.execute_batch("DROP INDEX idx_session_events_page")
        .unwrap();
    let stale = names_of(&conn).reads(true);
    assert!(!stale.events);
    let mut opts: StoreOptions<u8> = StoreOptions::default();
    opts.db_path = Some("/x.db".to_string());
    opts.read_only = true;
    let Err(error) = SessionStore::open(opts, "/d.db", 0, &Opening::Readable(stale)) else {
        panic!("a stale database opened");
    };
    assert_eq!(error.code(), "DATABASE_STALE_SCHEMA");
    assert!(error.message().contains("predates") && error.message().contains("writable"));
}

fn scanned(conn: &Connection, query: Statement, column: usize) -> Vec<Value> {
    let mut statement = conn.prepare(&query.sql).unwrap();
    let rows = statement
        .query_map(rusqlite::params_from_iter(values(query.params)), |row| {
            row.get::<usize, Value>(column)
        })
        .unwrap();
    rows.map(|row| row.unwrap()).collect()
}

#[test]
fn the_scans_read_what_comes_next() {
    let conn = fresh();
    conn.execute_batch(
        "INSERT INTO history (id, source, session_id, project, prompt, timestamp_ms) VALUES
             (1, 'codex', 's', NULL, 'a', 1), (2, 'codex', 's', '  ', 'b', 2),
             (3, 'codex', 's', '/p', 'c', 3), (4, 'grok', 't', NULL, 'd', 4);
         INSERT INTO trajectories (id, decisions_json, retrospective_json, search_text,
                 updated_ms, timestamp_ms) VALUES
             ('y', '[]', '{}', '', 7, 1), ('x', '[]', '{}', '', 7, 1), ('z', '[]', '{}', '', 6, 1);
         INSERT INTO session_commit_links (source, session_id, repo, commit_sha, match_method,
                 confidence, created_at_ms) VALUES
             ('codex', 's', 'r', 'c1', 'm', 0.5, 1), ('codex', 's', 'r', 'c2', 'm', 0.5, 1);
         INSERT INTO file_edits (source, session_id, tool_use_id, file_path, tool_name) VALUES
             ('codex', 's', 'u1', 'f', 'n'), ('grok', 't', 'u2', 'f', 'n'),
             ('codex', 's', 'u3', 'f', 'n');
         INSERT INTO session_events (source, session_id, ts_ms, role, kind, event_uid) VALUES
             ('codex', 's', 1, 'user', 'text', 'e1'), ('grok', 't', 1, 'user', 'text', 'e2'),
             ('codex', 's', 1, 'user', 'text', 'e3');
         INSERT INTO sessions (session_id, source, cwd) VALUES ('s', 'codex', '/cwd');",
    )
    .unwrap();
    let int = Value::Integer;
    let text = |value: &str| Value::Text(value.to_string());
    assert_eq!(
        scanned(&conn, history_after_query(1, 2), 0),
        vec![int(2), int(3)]
    );
    assert_eq!(scanned(&conn, history_after_query(3, 0), 0), vec![int(4)]);
    assert_eq!(
        scanned(&conn, trajectories_after_query(6, 3, 10), 1),
        vec![text("y"), text("x")]
    );
    assert_eq!(
        scanned(&conn, trajectories_after_query(7, 1, 10), 1),
        vec![text("x")]
    );
    assert_eq!(
        scanned(&conn, commit_links_after_query(1, 10), 5),
        vec![text("c2")]
    );
    assert_eq!(
        scanned(&conn, changed_file_sessions_query(0, 10), 2),
        vec![int(2), int(3)]
    );
    assert_eq!(
        scanned(&conn, pending_event_sessions_query(1, 10), 0),
        vec![text("t"), text("s")]
    );
    assert_eq!(
        scanned(&conn, session_metadata_query("codex", "s"), 0),
        vec![text("/cwd")]
    );
    assert_eq!(
        scanned(&conn, session_project_query("codex", "s"), 3),
        vec![text("/p")]
    );
    assert_eq!(
        scanned(&conn, latest_history_query("codex", "s"), 0),
        vec![int(3)]
    );
}

fn ids(conn: &Connection, query: &TextQuery) -> Vec<String> {
    let mut statement = conn.prepare(&query.sql).unwrap();
    let rows = statement
        .query_map(rusqlite::params_from_iter(query.params.iter()), |row| {
            row.get::<usize, Option<String>>(2)
        })
        .unwrap();
    rows.map(|row| row.unwrap().unwrap_or_else(|| "<none>".into()))
        .collect()
}

fn filter(scope: SessionScope) -> QueryFilter {
    let mut filter = QueryFilter::default();
    filter.limit = 20;
    filter.scope = scope;
    filter
}

#[test]
fn search_and_recent_preserve_unclassified_rows_as_local() {
    let conn = fresh();
    for (session_id, at) in [("legacy", 1), ("local", 2), ("remote", 3), ("both", 4)] {
        conn.execute_batch(&format!(
            "INSERT INTO history (source, session_id, prompt, timestamp_ms)
             VALUES ('first', '{session_id}', 'scopeprobe', {at})"
        ))
        .unwrap();
    }
    conn.execute_batch(
        "INSERT INTO session_presences (source, session_id, location) VALUES
             ('first', 'legacy', 'local'), ('first', 'local', 'local'),
             ('first', 'remote', 'remote'), ('first', 'both', 'local'),
             ('first', 'both', 'remote');
         INSERT INTO history (source, session_id, prompt, timestamp_ms)
         VALUES ('first', 'unclassified', 'scopeprobe', 5), ('first', NULL, 'scopeprobe', 6);",
    )
    .unwrap();

    for search in [false, true] {
        let found = |scope: SessionScope| {
            let query = if search {
                search_query(&vec!["scopeprobe".to_string()], false, &filter(scope))
            } else {
                recent_query(&filter(scope))
            };
            ids(&conn, &query)
        };
        assert_eq!(
            found(SessionScope::Local),
            ["<none>", "unclassified", "both", "local", "legacy"]
        );
        assert_eq!(found(SessionScope::Remote), ["both", "remote"]);
        assert_eq!(
            found(SessionScope::All),
            ["<none>", "unclassified", "both", "remote", "local", "legacy"]
        );
    }
    for (scope, total) in [
        (SessionScope::Local, 5),
        (SessionScope::Remote, 2),
        (SessionScope::All, 6),
    ] {
        let queries = stats_queries(None, scope);
        let found: i64 = conn
            .query_row(
                &queries.total,
                rusqlite::params_from_iter(queries.params.iter()),
                |row| row.get(0),
            )
            .unwrap();
        assert_eq!(found, total);
    }
    // Direct lookup is identity-based rather than acquisition-scoped.
    let direct = session_query("remote", Some("first".to_string()), None);
    assert_eq!(ids(&conn, &direct), ["remote"]);
}

#[test]
fn tags_and_filters_sessions() {
    let conn = fresh();
    conn.execute_batch(
        "INSERT INTO history (source, session_id, project, prompt, timestamp_ms)
         VALUES ('first', 's1', '/p', 'release auth', 1), ('first', 's2', '/p', 'other auth', 2);
         INSERT INTO tags (id, name, display_name, created_ms, updated_ms)
         VALUES (1, 'release', 'Release', 1, 1);
         INSERT INTO session_tags (source, session_id, tag_id, created_ms)
         VALUES ('first', 's1', 1, 1);",
    )
    .unwrap();
    let mut tagged = filter(SessionScope::Local);
    tagged.tag = Some("Release".to_string());
    assert_eq!(
        ids(
            &conn,
            &search_query(&vec!["auth".to_string()], false, &tagged)
        ),
        ["s1"]
    );
    assert_eq!(
        ids(&conn, &search_query(&Vec::new(), false, &tagged)),
        ["s1"],
        "a search without terms is a list of the recent ones"
    );
    tagged.before_ms = Some(1);
    assert!(ids(&conn, &recent_query(&tagged)).is_empty());
}

#[test]
fn a_session_is_matched_in_every_table_that_names_it() {
    let conn = fresh();
    conn.execute_batch(
        "INSERT INTO history (source, session_id, prompt, timestamp_ms) VALUES ('codex', 's', 'x', 1);",
    )
    .unwrap();
    let query = matching_sessions_query("s", Some("codex"));
    let mut statement = conn.prepare(&query.sql).unwrap();
    let rows = statement
        .query_map(rusqlite::params_from_iter(query.params.iter()), |row| {
            row.get::<usize, String>(0)
        })
        .unwrap();
    let found: Vec<String> = rows.map(|row| row.unwrap()).collect();
    assert_eq!(found, ["codex"]);
}

fn seed_evidence(conn: &Connection) {
    conn.execute_batch(
        r#"
        INSERT INTO tool_calls (source, session_id, message_id, tool_use_id, name, target, args_json, is_error, ts_ms)
        VALUES ('first', 's1', 'm1', 'tu-a', 'Bash', 'cargo test', '{"command":"cargo test"}', 1, 200),
               ('first', 's1', 'm1', 'tu-b', 'Read', '/tmp/p/a.rs', '{"file_path":"/tmp/p/a.rs"}', 0, 100),
               ('first', 's1', 'm2', 'tu-c', 'Grep', 'needle', '{"pattern":"needle"}', NULL, 200),
               ('first', 's1', 'm2', 'tu-d', 'Glob', '*.rs', '{"pattern":"*.rs"}', 0, NULL),
               ('first', 's1', 'm3', 'tu-e', 'Write', '/tmp/p/b.rs', 'not json', 0, 100),
               ('first', 's1', 'm3', 'tu-f', 'Edit', '/tmp/p/c.rs', NULL, NULL, NULL),
               ('codex', 's1', 'm9', 'tu-x', 'Shell', 'ls', '{}', 0, 150),
               ('first', 's2', 'm8', 'tu-y', 'Read', '/tmp/q/a.rs', '{}', 0, 150);
        INSERT INTO file_edits (source, session_id, message_id, tool_use_id, file_path, tool_name, lines_added, lines_removed, structured_patch_json, user_modified, ts_ms, git_branch, cwd)
        VALUES ('first', 's1', 'm1', 'fe-a', '/tmp/p/a.rs', 'Write', 10, 0, '[{"lines":["+a"]}]', 1, 200, 'main', '/tmp/p'),
               ('first', 's1', 'm1', 'fe-b', '/tmp/p/b.rs', 'Edit', 2, 1, 'not json', 0, 100, 'main', '/tmp/p'),
               ('first', 's1', 'm2', 'fe-c', '/tmp/p/c.rs', 'Edit', 1, 1, NULL, NULL, 200, NULL, NULL),
               ('first', 's1', 'm2', 'fe-d', '/tmp/p/d.rs', 'Edit', 0, 0, NULL, NULL, NULL, NULL, NULL),
               ('first', 's1', 'm3', 'fe-e', '/tmp/p/e.rs', 'Edit', 3, 3, NULL, 1, 100, 'main', '/tmp/p'),
               ('first', 's1', 'm3', 'fe-f', '/tmp/p/f.rs', 'Edit', 0, 1, NULL, NULL, NULL, NULL, NULL),
               ('codex', 's1', 'm9', 'fe-x', '/tmp/p/z.rs', 'apply_patch', 1, 1, NULL, NULL, 150, NULL, NULL),
               ('first', 's2', 'm8', 'fe-y', '/tmp/q/a.rs', 'Edit', 1, 0, NULL, NULL, 150, NULL, NULL);
        "#,
    )
    .unwrap();
}

fn values(params: Vec<SqlValue>) -> Vec<Value> {
    params
        .into_iter()
        .map(|param| match param {
            SqlValue::Text(text) => Value::Text(text),
            SqlValue::Integer(number) => Value::Integer(number),
            SqlValue::Real(bits) => Value::Real(f64::from_bits(bits)),
            SqlValue::Null => Value::Null,
        })
        .collect()
}

#[test]
fn evidence_pages_are_served_by_an_index_without_sorting() {
    for analyze in [false, true] {
        let conn = fresh();
        seed_evidence(&conn);
        if analyze {
            conn.execute_batch("ANALYZE").unwrap();
        }
        for (table, index) in [
            ("tool_calls", "idx_tool_calls_page_v2"),
            ("file_edits", "idx_file_edits_page_v2"),
        ] {
            for after in [
                None,
                Some(SessionEvidenceCursor {
                    ts_ms: Some(100),
                    id: 1,
                }),
                Some(SessionEvidenceCursor { ts_ms: None, id: 1 }),
            ] {
                let (sql, params) =
                    evidence_page_query("id, tool_use_id", table, "first", "s1", 10, after);
                let mut statement = conn.prepare(&format!("EXPLAIN QUERY PLAN {sql}")).unwrap();
                let rows = statement
                    .query_map(rusqlite::params_from_iter(values(params)), |row| {
                        row.get::<usize, String>(3)
                    })
                    .unwrap();
                let plan = rows
                    .map(|row| row.unwrap())
                    .collect::<Vec<String>>()
                    .join(" | ");
                assert!(
                    plan.contains(index) && !plan.contains("TEMP B-TREE") && !plan.contains("SCAN"),
                    "{after:?} of {table} must be an index-ordered search (analyze={analyze}): {plan}"
                );
            }
        }
    }
}

fn calls_of(conn: &Connection) -> Vec<SessionToolCall> {
    let mut statement = conn
        .prepare(
            "SELECT id, source, session_id, message_id, tool_use_id, name, target, args_json, \
             is_error, ts_ms FROM tool_calls",
        )
        .unwrap();
    let rows = statement
        .query_map([], |row| {
            Ok(SessionToolCall {
                id: row.get(0)?,
                source: row.get(1)?,
                session_id: row.get(2)?,
                message_id: row.get(3)?,
                tool_use_id: row.get(4)?,
                name: row.get(5)?,
                target: row.get(6)?,
                args_json: row.get(7)?,
                is_error: row.get(8)?,
                ts_ms: row.get(9)?,
            })
        })
        .unwrap();
    rows.map(|row| row.unwrap()).collect()
}

fn edits_of(conn: &Connection) -> Vec<SessionFileEdit> {
    let mut statement = conn
        .prepare(
            "SELECT id, source, session_id, message_id, tool_use_id, file_path, tool_name, \
             lines_added, lines_removed, structured_patch_json, user_modified, ts_ms, git_branch, \
             cwd FROM file_edits",
        )
        .unwrap();
    let rows = statement
        .query_map([], |row| {
            Ok(SessionFileEdit {
                id: row.get(0)?,
                source: row.get(1)?,
                session_id: row.get(2)?,
                message_id: row.get(3)?,
                tool_use_id: row.get(4)?,
                file_path: row.get(5)?,
                tool_name: row.get(6)?,
                lines_added: row.get(7)?,
                lines_removed: row.get(8)?,
                structured_patch_json: row.get(9)?,
                user_modified: row.get(10)?,
                ts_ms: row.get(11)?,
                git_branch: row.get(12)?,
                cwd: row.get(13)?,
            })
        })
        .unwrap();
    rows.map(|row| row.unwrap()).collect()
}

#[test]
fn evidence_pages_return_stored_json_verbatim() {
    let conn = fresh();
    seed_evidence(&conn);

    let page = session_tool_calls_page(&calls_of(&conn), "first", "s1", 100, None);
    let by_id = |tool_use_id: &str| {
        page.tool_calls
            .iter()
            .find(|call| call.tool_use_id == tool_use_id)
            .unwrap()
    };
    assert_eq!(by_id("tu-e").args_json.as_deref(), Some("not json"));
    assert_eq!(by_id("tu-f").args_json, None);
    assert_eq!(by_id("tu-a").is_error, Some(1));
    assert_eq!(by_id("tu-b").is_error, Some(0));
    assert_eq!(by_id("tu-c").is_error, None);

    let page = session_file_edits_page(&edits_of(&conn), "first", "s1", 100, None);
    let patched = page
        .file_edits
        .iter()
        .find(|edit| edit.tool_use_id == "fe-a")
        .unwrap();
    assert_eq!(
        patched.structured_patch_json.as_deref(),
        Some(r#"[{"lines":["+a"]}]"#)
    );
    assert_eq!(patched.user_modified, Some(1));
}

#[test]
fn a_page_and_its_query_read_the_same_rows() {
    let conn = fresh();
    seed_evidence(&conn);
    let rows = calls_of(&conn);
    for limit in [1, 2, 4, 100] {
        let mut cursor: Option<SessionEvidenceCursor> = None;
        loop {
            let page = session_tool_calls_page(&rows, "first", "s1", limit, cursor);
            let (sql, params) = evidence_page_query("id", "tool_calls", "first", "s1", limit, cursor);
            let mut statement = conn.prepare(&sql).unwrap();
            let found: Vec<i64> = statement
                .query_map(rusqlite::params_from_iter(values(params)), |row| row.get(0))
                .unwrap()
                .map(|row| row.unwrap())
                .collect();
            let expected: Vec<i64> = page.tool_calls.iter().map(|call| call.id).collect();
            assert_eq!(
                found[..expected.len()],
                expected[..],
                "limit {limit} after {cursor:?}"
            );
            assert_eq!(found.len() > expected.len(), page.next_cursor.is_some());
            match page.next_cursor {
                Some(next) => cursor = Some(next),
                None => break,
            }
        }
    }
}

fn event(id: i64, message: &str, request: Option<&str>, provider: Option<&str>) -> SessionEvent {
    SessionEvent {
        id,
        source: "first".to_string(),
        session_id: "s1".to_string(),
        project: None,
        project_key: None,
        cwd: None,
        git_branch: None,
        message_id: Some(message.to_string()),
        parent_id: None,
        ts_ms: 1_000 - id,
        role: "assistant".to_string(),
        kind: if id == 2 { "thinking" } else { "text" }.to_string(),
        text: None,
        model: Some(format!("model-{}", id % 2)),
        token_json: Some(format!("{{\"input_tokens\":{}}}", id % 2)),
        provider: None,
        event_uid: format!("e{id}"),
        tool_use_id: None,
        payload_bytes: None,
        payload_truncated: None,
        payload_hash: None,
        call_index: None,
        event_index: None,
        result_status: None,
        event_source: None,
        error_signal: None,
        subagent_session_id: None,
        agent_id: None,
        request_id: request.map(str::to_string),
        provider_message_id: provider.map(str::to_string),
        stop_reason: None,
        agent_version: None,
        is_sidechain: None,
        is_meta: None,
        turn_id: None,
        request_span: None,
        raw_kind: None,
        control_kind: None,
    }
}

#[test]
fn the_requests_of_a_session_are_the_rows_of_the_view() {
    let conn = fresh();
    conn.execute_batch(
        "ALTER TABLE session_events ADD COLUMN request_id TEXT;
         ALTER TABLE session_events ADD COLUMN provider_message_id TEXT;",
    )
    .unwrap();
    conn.execute_batch(SESSION_REQUESTS_VIEW_DDL).unwrap();
    let events = vec![
        event(1, "m1", Some("req"), Some("p1")),
        event(2, "m2", Some("req"), Some("p1")),
        event(3, "m3", Some(""), Some("p2")),
        event(4, "m4", None, Some("p2")),
        event(5, "m5", None, None),
        event(6, "m5", None, Some("")),
        event(7, "", None, Some("p3")),
    ];
    for row in &events {
        conn.execute(
            "INSERT INTO session_events (id, source, session_id, message_id, ts_ms, role, kind, \
             model, token_json, event_uid, request_id, provider_message_id) \
             VALUES (?1, ?2, ?3, ?4, ?5, ?6, ?7, ?8, ?9, ?10, ?11, ?12)",
            (
                row.id,
                &row.source,
                &row.session_id,
                &row.message_id,
                row.ts_ms,
                &row.role,
                &row.kind,
                &row.model,
                &row.token_json,
                &row.event_uid,
                &row.request_id,
                &row.provider_message_id,
            ),
        )
        .unwrap();
    }
    let mut statement = conn
        .prepare(
            "SELECT id, request_key, request_key_source, first_ts_ms, last_ts_ms, model, \
             model_variants, token_json, usage_variants, has_thinking, event_count \
             FROM session_requests ORDER BY id",
        )
        .unwrap();
    let rows = statement
        .query_map([], |row| {
            let parts: (i64, String, String, i64, i64) = (
                row.get(0)?,
                row.get(1)?,
                row.get(2)?,
                row.get(3)?,
                row.get(4)?,
            );
            let rest: (Option<String>, usize, Option<String>, usize, bool, usize) = (
                row.get(5)?,
                row.get(6)?,
                row.get(7)?,
                row.get(8)?,
                row.get(9)?,
                row.get(10)?,
            );
            Ok((parts, rest))
        })
        .unwrap();
    let stored: Vec<_> = rows.map(|row| row.unwrap()).collect();
    let names = SourceNames {
        claude: "first".to_string(),
    };
    let mut raws = session_requests(&events, &SourceName::new("first", &names), "s1");
    raws.sort_by_key(|raw| raw.id);
    let told: Vec<_> = raws
        .into_iter()
        .map(|raw| {
            (
                (
                    raw.id,
                    raw.request_key,
                    raw.request_key_source,
                    raw.first_ts_ms,
                    raw.last_ts_ms,
                ),
                (
                    raw.model,
                    raw.model_variants,
                    raw.token_json,
                    raw.usage_variants,
                    raw.has_thinking,
                    raw.event_count,
                ),
            )
        })
        .collect();
    assert_eq!(stored.len(), 3);
    assert_eq!(told, stored);
}

fn insert_history_at_location(
    conn: &Connection,
    entry: &HistoryEntry,
    location: SessionLocation,
) -> Result<usize, String> {
    if let Some(session_id) = history_presence(entry, location)? {
        conn.execute(
            "INSERT OR IGNORE INTO session_presences (source, session_id, location) VALUES (?, ?, ?)",
            (&entry.source, session_id, location.as_str()),
        )
        .map_err(|error| error.to_string())?;
    }
    conn.execute(
        "INSERT OR IGNORE INTO history (source, session_id, project, prompt, prompt_hash, timestamp_ms) VALUES (?, ?, ?, ?, ?, ?)",
        (
            &entry.source,
            &entry.session_id,
            &entry.project,
            &entry.prompt,
            &entry.prompt_hash,
            entry.timestamp_ms,
        ),
    )
    .map_err(|error| error.to_string())
}

fn history_entry(session_id: Option<&str>, prompt: &str) -> HistoryEntry {
    HistoryEntry {
        id: 0,
        source: "codex".to_string(),
        session_id: session_id.map(str::to_string),
        project: None,
        prompt: prompt.to_string(),
        prompt_hash: None,
        timestamp_ms: 1,
    }
}

#[test]
fn history_insert_failure_cannot_leave_remote_evidence_unclassified() {
    let conn = fresh();
    conn.execute_batch(
        "CREATE TRIGGER reject_history_insert BEFORE INSERT ON history
         WHEN NEW.session_id = 'reject-me'
         BEGIN SELECT RAISE(ABORT, 'injected failure'); END;",
    )
    .unwrap();
    let entry = history_entry(Some("reject-me"), "must roll back");
    assert!(insert_history_at_location(&conn, &entry, SessionLocation::Remote).is_err());
    assert_eq!(
        count(&conn, "SELECT COUNT(*) FROM session_presences WHERE source = 'codex' AND session_id = 'reject-me'"),
        1
    );
    assert_eq!(
        count(&conn, "SELECT COUNT(*) FROM history WHERE source = 'codex' AND session_id = 'reject-me'"),
        0
    );
}

#[test]
fn duplicate_history_insert_repairs_a_missing_presence() {
    let conn = fresh();
    let entry = history_entry(Some("repair-me"), "already stored");
    assert_eq!(
        insert_history_at_location(&conn, &entry, SessionLocation::Remote),
        Ok(1)
    );
    conn.execute(
        "DELETE FROM session_presences WHERE source = 'codex' AND session_id = 'repair-me'",
        [],
    )
    .unwrap();
    assert_eq!(
        insert_history_at_location(&conn, &entry, SessionLocation::Remote),
        Ok(0)
    );
    assert_eq!(
        texts(&conn, "SELECT location FROM session_presences WHERE source = 'codex' AND session_id = 'repair-me'"),
        ["remote"]
    );
}

#[test]
fn remote_history_rejects_missing_or_empty_session_identity() {
    let conn = fresh();
    for session_id in [None, Some("")] {
        let entry = history_entry(session_id, "must have remote identity");
        let error = insert_history_at_location(&conn, &entry, SessionLocation::Remote)
            .expect_err("identity-less remote history must fail closed");
        assert!(error.contains("remote history requires a non-empty session id"));
    }
    assert_eq!(count(&conn, "SELECT COUNT(*) FROM history"), 0);
    assert_eq!(count(&conn, "SELECT COUNT(*) FROM session_presences"), 0);
}

#[test]
fn empty_search_returns_recent_filtered_entries() {
    let conn = fresh();
    let mut entry = history_entry(Some("g1"), "relayfile migration");
    entry.source = "grok".to_string();
    entry.project = Some("/p".to_string());
    entry.prompt_hash = Some(prompt_hash("relayfile migration"));
    entry.timestamp_ms = 2;
    insert_history_at_location(&conn, &entry, SessionLocation::Local).unwrap();
    conn.execute_batch(
        "INSERT INTO tags (id, name, display_name, created_ms, updated_ms)
         VALUES (1, 'relayfile migration', 'Relayfile Migration', 1, 1);
         INSERT INTO session_tags (source, session_id, tag_id, created_ms)
         VALUES ('grok', 'g1', 1, 1);",
    )
    .unwrap();
    let mut tagged = QueryFilter::default();
    tagged.tag = Some("relayfile migration".to_string());
    tagged.limit = 10;
    let query = search_query(&Vec::new(), false, &tagged);
    let mut statement = conn.prepare(&query.sql).unwrap();
    let sources: Vec<String> = statement
        .query_map(rusqlite::params_from_iter(query.params.iter()), |row| {
            row.get::<usize, String>(1)
        })
        .unwrap()
        .map(|row| row.unwrap())
        .collect();
    assert_eq!(sources, ["grok"]);
}

fn plain(value: &serde_json::Value) -> JsonValue {
    match value {
        serde_json::Value::Null => JsonValue::Null,
        serde_json::Value::Bool(flag) => JsonValue::Bool(*flag),
        serde_json::Value::Number(number) => JsonValue::Number(JsonNumber {
            unsigned: number.as_u64(),
            signed: number.as_i64(),
            bits: number.as_f64().unwrap().to_bits(),
            text: number.to_string(),
        }),
        serde_json::Value::String(text) => JsonValue::Text(text.clone()),
        serde_json::Value::Array(items) => JsonValue::Array(items.iter().map(plain).collect()),
        serde_json::Value::Object(members) => JsonValue::Object(
            members
                .iter()
                .map(|(name, value)| (name.clone(), plain(value)))
                .collect(),
        ),
    }
}

fn decode(text: &str) -> JsonValue {
    plain(&serde_json::from_str::<serde_json::Value>(text).unwrap())
}

fn column_of(conn: &Connection, query: &TextQuery, name: &str) -> Vec<Option<String>> {
    let mut statement = conn.prepare(&query.sql).unwrap();
    let index = statement.column_index(name).unwrap();
    let rows = statement
        .query_map(rusqlite::params_from_iter(query.params.iter()), |row| {
            Ok(match row.get::<usize, Value>(index)? {
                Value::Null => None,
                Value::Integer(n) => Some(n.to_string()),
                Value::Text(text) => Some(text),
                other => panic!("{other:?}"),
            })
        })
        .unwrap();
    rows.map(|row| row.unwrap()).collect()
}

fn some(values: &[&str]) -> Vec<Option<String>> {
    values.iter().map(|value| Some(value.to_string())).collect()
}

#[test]
fn session_events_read_back_oldest_first_and_scoped_to_one_source() {
    let conn = fresh();
    let tokens = r#"{"input_tokens":10,"output_tokens":20}"#;
    let rows: [(&str, i64, &str, &str, Option<&str>, &str); 5] = [
        ("first", 300, "assistant", "third", None, "e3"),
        ("first", 100, "user", "first", None, "e1"),
        ("first", 300, "user", "fourth", Some(tokens), "e4"),
        ("first", 200, "user", "second", None, "e2"),
        ("codex", 150, "user", "other agent", None, "e5"),
    ];
    for (source, ts_ms, role, text, token_json, event_uid) in rows {
        conn.execute(
            "INSERT INTO session_events (source, session_id, project, cwd, git_branch, message_id, \
             parent_id, ts_ms, role, kind, text, model, token_json, event_uid) \
             VALUES (?, 's1', '/tmp/p', '/tmp/p', 'main', NULL, NULL, ?, ?, 'text', ?, 'opus-5', ?, ?)",
            (source, ts_ms, role, text, token_json, event_uid),
        )
        .unwrap();
    }
    let all = session_rows_query(EVENT_COLUMNS, "session_events", "s1", None);
    assert_eq!(
        column_of(&conn, &all, "text"),
        some(&["first", "other agent", "second", "third", "fourth"])
    );
    let first_only = session_rows_query(EVENT_COLUMNS, "session_events", "s1", Some("first"));
    let read = |name: &str| column_of(&conn, &first_only, name);
    assert_eq!(read("text"), some(&["first", "second", "third", "fourth"]));
    assert_eq!(read("role")[0].as_deref(), Some("user"));
    assert_eq!(read("project")[0].as_deref(), Some("/tmp/p"));
    assert_eq!(read("git_branch")[0].as_deref(), Some("main"));
    assert_eq!(read("model")[0].as_deref(), Some("opus-5"));
    assert_eq!(read("event_uid")[0].as_deref(), Some("e1"));
    // Token usage comes back as parseable JSON, not as an opaque blob.
    let usage = decode(read("token_json")[3].as_deref().unwrap());
    assert_eq!(usage.get("input_tokens").unwrap().as_unsigned(), Some(10));
    assert_eq!(usage.get("output_tokens").unwrap().as_unsigned(), Some(20));
    // An unknown session reads back empty.
    let unknown = session_rows_query(EVENT_COLUMNS, "session_events", "nope", None);
    assert!(column_of(&conn, &unknown, "text").is_empty());
}

#[test]
fn tool_calls_and_file_edits_read_back_oldest_first_and_scoped_to_one_source() {
    let conn = fresh();
    conn.execute_batch(
        r#"
        INSERT INTO tool_calls (source, session_id, message_id, tool_use_id, name, target, args_json, is_error, ts_ms)
        VALUES ('first', 's1', 'm2', 'tu2', 'Bash', 'cargo test', '{"command":"cargo test"}', 1, 200),
               ('first', 's1', 'm1', 'tu1', 'Read', '/tmp/p/lib.rs', '{"file_path":"/tmp/p/lib.rs"}', 0, 100),
               ('codex', 's1', 'm9', 'tu9', 'Shell', 'ls', '{}', 0, 150);
        INSERT INTO file_edits (source, session_id, message_id, tool_use_id, file_path, tool_name, lines_added, lines_removed, user_modified, ts_ms)
        VALUES ('first', 's1', 'm3', 'tu3', '/tmp/p/b.rs', 'Edit', 2, 1, 0, 300),
               ('first', 's1', 'm1', 'tu1', '/tmp/p/a.rs', 'Write', 10, 0, 1, 100),
               ('codex', 's1', 'm9', 'tu9', '/tmp/p/z.rs', 'apply_patch', 1, 1, 0, 150);
        "#,
    )
    .unwrap();
    let calls = session_rows_query(TOOL_CALL_COLUMNS, "tool_calls", "s1", Some("first"));
    let call = |name: &str| column_of(&conn, &calls, name);
    assert_eq!(call("name"), some(&["Read", "Bash"]));
    assert_eq!(call("tool_use_id")[0].as_deref(), Some("tu1"));
    assert_eq!(call("target")[0].as_deref(), Some("/tmp/p/lib.rs"));
    assert_eq!(call("is_error"), some(&["0", "1"]));
    let args = decode(call("args_json")[1].as_deref().unwrap());
    assert_eq!(args.get("command").unwrap().as_text(), Some("cargo test"));
    let every = session_rows_query(TOOL_CALL_COLUMNS, "tool_calls", "s1", None);
    assert_eq!(column_of(&conn, &every, "name").len(), 3);

    let edits = session_rows_query(FILE_EDIT_COLUMNS, "file_edits", "s1", Some("first"));
    let edit = |name: &str| column_of(&conn, &edits, name);
    assert_eq!(edit("file_path"), some(&["/tmp/p/a.rs", "/tmp/p/b.rs"]));
    assert_eq!(edit("tool_name")[0].as_deref(), Some("Write"));
    assert_eq!(edit("lines_added")[0].as_deref(), Some("10"));
    assert_eq!(edit("lines_removed")[0].as_deref(), Some("0"));
    assert_eq!(edit("user_modified")[0].as_deref(), Some("1"));
    let every = session_rows_query(FILE_EDIT_COLUMNS, "file_edits", "s1", None);
    assert_eq!(column_of(&conn, &every, "id").len(), 3);
    let unknown = session_rows_query(FILE_EDIT_COLUMNS, "file_edits", "nope", None);
    assert!(column_of(&conn, &unknown, "id").is_empty());
}

const KINDS: [EvidenceKind; 7] = [
    EvidenceKind::History,
    EvidenceKind::SessionEvent,
    EvidenceKind::ToolCall,
    EvidenceKind::FileEdit,
    EvidenceKind::Relationship,
    EvidenceKind::CommitLink,
    EvidenceKind::SessionMarker,
];

#[test]
fn the_columns_of_a_table_are_those_of_its_evidence_kind() {
    // Columns that are deliberately outside a projection: the local parser's own
    // generation, and the change feed's stamp.
    let local_only = [
        ("session_events", "raw_facts_version"),
        ("session_events", "revision"),
        ("tool_calls", "revision"),
        ("file_edits", "revision"),
        ("session_relationships", "revision"),
        ("session_markers", "revision"),
    ];
    let conn = fresh();
    for (table, column) in local_only {
        let projected = KINDS
            .into_iter()
            .filter(|kind| kind.table() == table)
            .any(|kind| kind.columns().split(',').any(|name| name == column));
        assert!(!projected, "{table}.{column} is projected after all");
    }
    for kind in KINDS {
        // The markers' table comes with the ingestion.
        if kind == EvidenceKind::SessionMarker {
            continue;
        }
        let declared: Vec<&str> = kind.columns().split(',').collect();
        let actual = columns(&conn, kind.table());
        assert!(!actual.is_empty(), "{} has no columns", kind.table());
        let missing: Vec<&String> = actual
            .iter()
            .filter(|name| !matches!(name.as_str(), "id" | "rowid"))
            .filter(|name| !local_only.contains(&(kind.table(), name.as_str())))
            .filter(|name| !declared.contains(&name.as_str()))
            .collect();
        assert!(missing.is_empty(), "{kind:?}: {missing:?}");
    }
}

fn holds(conn: &Connection, statement: Statement) -> bool {
    conn.query_row(
        &statement.sql,
        rusqlite::params_from_iter(values(statement.params)),
        |row| row.get(0),
    )
    .unwrap()
}

fn perform(conn: &Connection, statement: Statement) -> usize {
    conn.execute(
        &statement.sql,
        rusqlite::params_from_iter(values(statement.params)),
    )
    .unwrap()
}

fn evidence(kind: EvidenceKind, payload: &str) -> EvidenceRecord {
    let JsonValue::Object(payload) = decode(payload) else {
        panic!("no object");
    };
    EvidenceRecord {
        kind,
        payload,
        record_id: None,
        revision_id: None,
    }
}

fn stored(conn: &Connection, kind: EvidenceKind, session_id: &str) -> Vec<EvidenceRecord> {
    let read = read_session(kind, "codex", session_id);
    let mut statement = conn.prepare(&read.sql).unwrap();
    let width = statement.column_count();
    let rows = statement
        .query_map(rusqlite::params_from_iter(values(read.params)), |row| {
            (0..width)
                .map(|index| {
                    Ok(match row.get::<usize, Value>(index)? {
                        Value::Null => Some(JsonValue::Null),
                        Value::Integer(n) => Some(JsonValue::Number(JsonNumber {
                            unsigned: u64::try_from(n).ok(),
                            signed: Some(n),
                            bits: (n as f64).to_bits(),
                            text: n.to_string(),
                        })),
                        Value::Real(x) => Some(JsonValue::Number(JsonNumber {
                            unsigned: None,
                            signed: None,
                            bits: x.to_bits(),
                            text: format!("{x:?}"),
                        })),
                        Value::Text(text) => Some(JsonValue::Text(text)),
                        Value::Blob(_) => None,
                    })
                })
                .collect::<rusqlite::Result<Vec<Option<JsonValue>>>>()
        })
        .unwrap();
    rows.map(|row| record_of_row(kind, &row.unwrap()).unwrap())
        .collect()
}

#[test]
fn evidence_reads_back_as_it_was_written() {
    let conn = fresh();
    let call = evidence(
        EvidenceKind::ToolCall,
        r#"{"source":"codex","session_id":"s1","message_id":"m1","tool_use_id":"t1","name":"Bash","target":null,"args_json":"{}","is_error":1,"ts_ms":7}"#,
    );
    let link = evidence(
        EvidenceKind::CommitLink,
        r#"{"source":"codex","session_id":"s1","repo":"r","branch":null,"commit_sha":"c0","note_ref":null,"match_method":"note","confidence":0.5,"files_json":null,"numstat_json":null,"evidence_json":null,"created_at_ms":1}"#,
    );
    for record in [&call, &link] {
        assert!(!holds(&conn, record.is_stored()));
        assert_eq!(perform(&conn, record.write()), 1);
        assert!(holds(&conn, record.is_stored()));
        assert!(holds(&conn, record.matches_canonical()));
        let read = stored(&conn, record.kind, "s1");
        assert_eq!(read.len(), 1);
        assert_eq!(format!("{:?}", read[0].payload), format!("{:?}", record.payload));
    }
    // Written again under the same identity, the row takes the new values.
    let renamed = evidence(
        EvidenceKind::ToolCall,
        r#"{"source":"codex","session_id":"s1","tool_use_id":"t1","name":"Read"}"#,
    );
    perform(&conn, renamed.write());
    assert!(!holds(&conn, call.matches_canonical()));
    assert!(holds(&conn, renamed.matches_canonical()));
    assert_eq!(count(&conn, "SELECT COUNT(*) FROM tool_calls"), 1);
    // Removing is by identity.
    assert_eq!(perform(&conn, call.remove()), 1);
    assert!(!holds(&conn, renamed.is_stored()));
    assert_eq!(stored(&conn, EvidenceKind::CommitLink, "s1").len(), 1);
}

#[test]
fn statements_name_the_columns_of_their_kind() {
    let marker = evidence(
        EvidenceKind::SessionMarker,
        r#"{"source":"codex","session_id":"s1","marker_uid":"k","ts_ms":true}"#,
    );
    let key = marker.key_sql();
    assert_eq!(key.sql, "source=? AND session_id=? AND marker_uid=?");
    assert_eq!(
        values(key.params),
        vec![
            Value::Text("codex".into()),
            Value::Text("s1".into()),
            Value::Text("k".into())
        ]
    );
    let write = marker.write();
    assert_eq!(
        write.sql,
        "INSERT INTO session_markers(source,session_id,marker_uid,ts_ms,message_id,parent_id,turn_id,kind,subkind,text,payload_json) VALUES(?,?,?,?,?,?,?,?,?,?,?) ON CONFLICT(source,session_id,marker_uid) DO UPDATE SET ts_ms=excluded.ts_ms,message_id=excluded.message_id,parent_id=excluded.parent_id,turn_id=excluded.turn_id,kind=excluded.kind,subkind=excluded.subkind,text=excluded.text,payload_json=excluded.payload_json"
    );
    let bound = values(write.params);
    assert_eq!(bound[3], Value::Integer(1));
    assert_eq!(bound[4], Value::Null);
    // What this database derives for itself is not compared.
    let event = evidence(EvidenceKind::SessionEvent, r#"{"source":"codex"}"#);
    let compared = event.matches_canonical();
    assert!(compared.sql.contains("cwd IS ?"));
    assert!(!compared.sql.contains("project_key"));
    assert_eq!(compared.params.len(), 36);
    assert_eq!(
        read_session(EvidenceKind::Relationship, "codex", "p").sql,
        format!(
            "SELECT {} FROM session_relationships WHERE source=? AND parent_session_id=? ORDER BY source,parent_session_id,relationship_uid",
            EvidenceKind::Relationship.columns()
        )
    );
    let short = vec![Some(JsonValue::Null), None];
    assert_eq!(record_of_row(EvidenceKind::History, &short).unwrap_err(), 1);
    assert_eq!(
        record_of_row(EvidenceKind::History, &Vec::new()).unwrap_err(),
        0
    );
}

#[test]
fn a_presence_is_merged_as_the_database_merges_it() {
    let conn = fresh();
    let upsert = |seen: &SessionPresence| {
        conn.execute(
            "INSERT INTO session_presences \
             (source, session_id, location, raw_locator, source_stamp, discovery_state) \
             VALUES ('codex', 's', 'local', ?, ?, ?) \
             ON CONFLICT(source, session_id, location) DO UPDATE SET \
             raw_locator = COALESCE(excluded.raw_locator, session_presences.raw_locator), \
             source_stamp = COALESCE(excluded.source_stamp, session_presences.source_stamp), \
             discovery_state = CASE WHEN session_presences.discovery_state = 'full' THEN 'full' \
             ELSE COALESCE(excluded.discovery_state, session_presences.discovery_state) END",
            (
                &seen.raw_locator,
                &seen.source_stamp,
                &seen.discovery_state,
            ),
        )
        .unwrap();
    };
    let presence = |locator: Option<&str>, stamp: Option<&str>, state: Option<&str>| {
        SessionPresence {
            raw_locator: locator.map(str::to_string),
            source_stamp: stamp.map(str::to_string),
            discovery_state: state.map(str::to_string),
        }
    };
    let mut held = presence(Some("/a"), None, Some("shallow"));
    upsert(&held);
    for seen in [
        presence(None, Some("1"), None),
        presence(Some("/b"), None, Some("full")),
        presence(None, Some("2"), Some("shallow")),
    ] {
        upsert(&seen);
        held = merge_presence(&held, &seen);
        let row: (Option<String>, Option<String>, Option<String>) = conn
            .query_row(
                "SELECT raw_locator, source_stamp, discovery_state FROM session_presences",
                [],
                |row| Ok((row.get(0)?, row.get(1)?, row.get(2)?)),
            )
            .unwrap();
        assert_eq!(
            row,
            (
                held.raw_locator.clone(),
                held.source_stamp.clone(),
                held.discovery_state.clone()
            )
        );
    }
}

#[test]
fn the_view_survives_a_reopen_of_an_existing_database() {
    let dir = tempfile::tempdir().unwrap();
    let path = dir.path().join("history.db");
    let stored_view = |conn: &Connection| {
        texts(
            conn,
            "SELECT sql FROM sqlite_master WHERE type = 'view' AND name = 'session_requests'",
        )
    };
    {
        let conn = Connection::open(&path).unwrap();
        init_db(&conn);
        conn.execute_batch(
            "ALTER TABLE session_events ADD COLUMN request_id TEXT;
             ALTER TABLE session_events ADD COLUMN provider_message_id TEXT;",
        )
        .unwrap();
        assert!(!session_requests_view_is_current(None));
        conn.execute_batch(SESSION_REQUESTS_VIEW_DDL).unwrap();
        conn.execute_batch(
            "INSERT INTO session_events (source, session_id, message_id, ts_ms, role, kind, \
             text, token_json, event_uid) VALUES ('first', 's1', 'm1', 1, 'assistant', 'text', \
             'x', '{\"input_tokens\":1}', 'm1:0')",
        )
        .unwrap();
    }
    let conn = Connection::open(&path).unwrap();
    init_db(&conn);
    let view = stored_view(&conn);
    assert!(session_requests_view_is_current(
        view.first().map(String::as_str)
    ));
    assert_eq!(count(&conn, "SELECT COUNT(*) FROM session_requests"), 1);
    let names = SourceNames {
        claude: "first".to_string(),
    };
    let mut stored = event(1, "m1", None, None);
    stored.token_json = Some("{\"input_tokens\":1}".to_string());
    let summary = session_usage_summary(&[stored], &SourceName::new("first", &names), "s1");
    assert!(summary.is_some());
}
