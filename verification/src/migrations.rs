//! What an open does to a database that is not current.
//!
//! The steps are planned from what the database holds, under the lock of the
//! migration. A step that has nothing to do leaves the database as it is, so that a
//! new database and an old one come out alike.
use crate::schema::{
    REQUIRED_HISTORY_COLUMNS, REQUIRED_INDEXES, REQUIRED_SESSIONS_COLUMNS,
    REQUIRED_SESSION_PRESENCE_COLUMNS, RETIRED_INDEXES,
};
use crate::text;
use crate::text::{concat2, concat3, contains_text};
use vstd::prelude::*;
use vstd::string::*;

verus! {

/// The tables of the history and of the evidence, with their search indexes.
pub const SCHEMA: &'static str = r#"
CREATE TABLE IF NOT EXISTS history (
    id INTEGER PRIMARY KEY AUTOINCREMENT,
    source TEXT NOT NULL,
    session_id TEXT,
    project TEXT,
    prompt TEXT NOT NULL,
    prompt_hash TEXT,
    timestamp_ms INTEGER NOT NULL,
    UNIQUE(source, timestamp_ms, prompt)
);
CREATE VIRTUAL TABLE IF NOT EXISTS history_fts USING fts5(
    prompt, project, content='history', content_rowid='id'
);
CREATE TABLE IF NOT EXISTS session_events (
    id INTEGER PRIMARY KEY AUTOINCREMENT,
    source TEXT NOT NULL,
    session_id TEXT NOT NULL,
    project TEXT,
    cwd TEXT,
    git_branch TEXT,
    message_id TEXT,
    parent_id TEXT,
    ts_ms INTEGER NOT NULL,
    role TEXT NOT NULL CHECK(role IN ('user', 'assistant', 'tool_result')),
    kind TEXT NOT NULL CHECK(kind IN ('text', 'thinking', 'tool_use', 'tool_result')),
    text TEXT,
    model TEXT,
    token_json TEXT,
    event_uid TEXT NOT NULL,
    UNIQUE(source, session_id, event_uid)
);
CREATE VIRTUAL TABLE IF NOT EXISTS session_events_fts USING fts5(
    text, role, project, content='session_events', content_rowid='id'
);
CREATE TABLE IF NOT EXISTS tool_calls (
    id INTEGER PRIMARY KEY AUTOINCREMENT,
    source TEXT NOT NULL,
    session_id TEXT NOT NULL,
    message_id TEXT,
    tool_use_id TEXT NOT NULL,
    name TEXT NOT NULL,
    target TEXT,
    args_json TEXT,
    is_error INTEGER,
    ts_ms INTEGER,
    UNIQUE(source, session_id, tool_use_id)
);
CREATE TABLE IF NOT EXISTS file_edits (
    id INTEGER PRIMARY KEY AUTOINCREMENT,
    source TEXT NOT NULL,
    session_id TEXT NOT NULL,
    message_id TEXT,
    tool_use_id TEXT NOT NULL,
    file_path TEXT NOT NULL,
    tool_name TEXT NOT NULL,
    lines_added INTEGER,
    lines_removed INTEGER,
    structured_patch_json TEXT,
    user_modified INTEGER,
    ts_ms INTEGER,
    git_branch TEXT,
    cwd TEXT,
    UNIQUE(source, session_id, tool_use_id)
);
CREATE TABLE IF NOT EXISTS session_commit_links (
    id INTEGER PRIMARY KEY AUTOINCREMENT,
    source TEXT NOT NULL,
    session_id TEXT NOT NULL,
    repo TEXT NOT NULL,
    branch TEXT,
    commit_sha TEXT NOT NULL,
    note_ref TEXT,
    match_method TEXT NOT NULL,
    confidence REAL NOT NULL,
    files_json TEXT,
    numstat_json TEXT,
    evidence_json TEXT,
    created_at_ms INTEGER NOT NULL,
    UNIQUE(source, session_id, commit_sha, match_method)
);
CREATE TABLE IF NOT EXISTS trajectories (
    id TEXT PRIMARY KEY,
    version INTEGER,
    persona_id TEXT,
    project_id TEXT,
    task_title TEXT,
    task_description TEXT,
    status TEXT,
    started_at TEXT,
    completed_at TEXT,
    decisions_json TEXT NOT NULL,
    retrospective_json TEXT NOT NULL,
    search_text TEXT NOT NULL,
    path TEXT,
    updated_ms INTEGER NOT NULL,
    timestamp_ms INTEGER NOT NULL
);
CREATE VIRTUAL TABLE IF NOT EXISTS trajectory_fts USING fts5(
    search_text, task_title, task_description, persona_id, project_id,
    content='trajectories', content_rowid='rowid'
);
CREATE TABLE IF NOT EXISTS tags (
    id INTEGER PRIMARY KEY AUTOINCREMENT,
    name TEXT NOT NULL UNIQUE,
    display_name TEXT NOT NULL,
    color TEXT,
    created_ms INTEGER NOT NULL,
    updated_ms INTEGER NOT NULL
);
CREATE TABLE IF NOT EXISTS session_tags (
    id INTEGER PRIMARY KEY AUTOINCREMENT,
    source TEXT NOT NULL,
    session_id TEXT NOT NULL,
    tag_id INTEGER NOT NULL REFERENCES tags(id) ON DELETE CASCADE,
    created_ms INTEGER NOT NULL,
    UNIQUE(source, session_id, tag_id)
);
CREATE TRIGGER IF NOT EXISTS history_ai AFTER INSERT ON history BEGIN
    INSERT INTO history_fts(rowid, prompt, project)
    VALUES (new.id, new.prompt, new.project);
END;
CREATE TRIGGER IF NOT EXISTS history_au AFTER UPDATE ON history BEGIN
    INSERT INTO history_fts(history_fts, rowid, prompt, project)
    VALUES('delete', old.id, old.prompt, old.project);
    INSERT INTO history_fts(rowid, prompt, project)
    VALUES (new.id, new.prompt, new.project);
END;
CREATE TRIGGER IF NOT EXISTS history_ad AFTER DELETE ON history BEGIN
    INSERT INTO history_fts(history_fts, rowid, prompt, project)
    VALUES('delete', old.id, old.prompt, old.project);
END;
CREATE TRIGGER IF NOT EXISTS session_events_ai AFTER INSERT ON session_events BEGIN
    INSERT INTO session_events_fts(rowid, text, role, project)
    VALUES (new.id, new.text, new.role, new.project);
END;
CREATE TRIGGER IF NOT EXISTS session_events_au AFTER UPDATE ON session_events BEGIN
    INSERT INTO session_events_fts(session_events_fts, rowid, text, role, project)
    VALUES('delete', old.id, old.text, old.role, old.project);
    INSERT INTO session_events_fts(rowid, text, role, project)
    VALUES (new.id, new.text, new.role, new.project);
END;
CREATE TRIGGER IF NOT EXISTS session_events_ad AFTER DELETE ON session_events BEGIN
    INSERT INTO session_events_fts(session_events_fts, rowid, text, role, project)
    VALUES('delete', old.id, old.text, old.role, old.project);
END;
"#;

/// The observed relationships between sessions. A row is named by
/// `relationship_uid`: evidence without a child has no other name.
pub const RELATIONSHIPS_SCHEMA: &'static str = r#"
CREATE TABLE IF NOT EXISTS session_relationships (
    source TEXT NOT NULL,
    parent_session_id TEXT NOT NULL,
    relationship_uid TEXT NOT NULL,
    child_session_id TEXT,
    relationship TEXT NOT NULL,
    identity_status TEXT NOT NULL CHECK(identity_status IN ('observed','unlinked')),
    child_agent_type TEXT,
    child_agent_name TEXT,
    child_model TEXT,
    spawn_depth INTEGER,
    evidence_kind TEXT NOT NULL,
    evidence_locator TEXT,
    evidence_ref TEXT,
    child_has_events INTEGER NOT NULL DEFAULT 0,
    spawned_at_ms INTEGER,
    created_ms INTEGER NOT NULL,
    updated_ms INTEGER NOT NULL,
    PRIMARY KEY (source, parent_session_id, relationship_uid)
);
"#;

/// The tables of the catalog, and the triggers that clear up behind a session.
pub const CATALOG_SCHEMA: &'static str = r#"
CREATE TABLE IF NOT EXISTS schema_migrations (
    name TEXT PRIMARY KEY
);
CREATE TABLE IF NOT EXISTS discovery_skips (
    source TEXT NOT NULL,
    locator TEXT NOT NULL,
    stamp TEXT NOT NULL,
    reason TEXT,
    updated_ms INTEGER,
    PRIMARY KEY (source, locator)
);
CREATE TABLE IF NOT EXISTS sessions (
    session_id TEXT NOT NULL,
    source TEXT NOT NULL,
    cwd TEXT,
    git_branch TEXT,
    first_activity_ms INTEGER,
    last_activity_ms INTEGER,
    last_assistant_text TEXT,
    raw_path TEXT,
    parser_version INTEGER NOT NULL DEFAULT 1,
    first_prompt TEXT,
    models_json TEXT,
    originator TEXT,
    agent_version TEXT,
    repo_url TEXT,
    initial_commit TEXT,
    workspace_roots_json TEXT,
    source_stamp TEXT,
    discovery_state TEXT,
    PRIMARY KEY (session_id, source)
);
CREATE TABLE IF NOT EXISTS session_presences (
    source TEXT NOT NULL,
    session_id TEXT NOT NULL,
    location TEXT NOT NULL CHECK(location IN ('local', 'remote')),
    raw_locator TEXT,
    source_stamp TEXT,
    discovery_state TEXT,
    PRIMARY KEY (source, session_id, location)
);
CREATE TABLE IF NOT EXISTS session_hydration_checkpoints (
    source TEXT NOT NULL,
    session_id TEXT NOT NULL,
    location TEXT NOT NULL CHECK(location IN ('local', 'remote')),
    source_stamp TEXT,
    parser_version INTEGER NOT NULL,
    last_event_at_ms INTEGER,
    source_bytes INTEGER NOT NULL DEFAULT 0,
    records_parsed INTEGER NOT NULL DEFAULT 0,
    include_related INTEGER NOT NULL DEFAULT 1,
    updated_ms INTEGER NOT NULL,
    PRIMARY KEY (source, session_id, location)
);
CREATE TABLE IF NOT EXISTS session_identity_correlations (
    source TEXT NOT NULL,
    local_session_id TEXT NOT NULL,
    remote_session_id TEXT NOT NULL,
    relationship TEXT NOT NULL,
    evidence_kind TEXT NOT NULL,
    updated_ms INTEGER NOT NULL,
    PRIMARY KEY (source, local_session_id, relationship)
);
CREATE TRIGGER IF NOT EXISTS delete_session_presences
AFTER DELETE ON sessions
BEGIN
    DELETE FROM session_presences
    WHERE source = OLD.source AND session_id = OLD.session_id;
END;
CREATE TRIGGER IF NOT EXISTS delete_session_hydration_state
AFTER DELETE ON sessions
BEGIN
    DELETE FROM session_hydration_checkpoints
    WHERE source = OLD.source AND session_id = OLD.session_id;
    DELETE FROM session_relationships
    WHERE source = OLD.source
      AND (parent_session_id = OLD.session_id OR child_session_id = OLD.session_id);
END;
CREATE TRIGGER IF NOT EXISTS delete_session_identity_correlations
AFTER DELETE ON sessions
BEGIN
    DELETE FROM session_identity_correlations
    WHERE source = OLD.source AND local_session_id = OLD.session_id;
END;
"#;

/// Gives every session that was known before presences were recorded a local one.
pub const PRESENCE_BACKFILL: &'static str = r#"
INSERT OR IGNORE INTO session_presences
    (source, session_id, location, raw_locator, source_stamp, discovery_state)
SELECT source, session_id, 'local', raw_path, source_stamp, discovery_state
FROM sessions
WHERE session_id <> ''
  AND NOT EXISTS (
      SELECT 1 FROM schema_migrations
      WHERE name = 'session_presences_local_backfill_v1'
  );
INSERT OR IGNORE INTO session_presences (source, session_id, location)
SELECT source, session_id, 'local'
FROM (
    SELECT source, session_id FROM history WHERE session_id IS NOT NULL AND session_id <> ''
    UNION SELECT source, session_id FROM session_events WHERE session_id <> ''
    UNION SELECT source, session_id FROM tool_calls WHERE session_id <> ''
    UNION SELECT source, session_id FROM file_edits WHERE session_id <> ''
    UNION SELECT source, session_id FROM session_commit_links WHERE session_id <> ''
)
WHERE NOT EXISTS (
    SELECT 1 FROM schema_migrations
    WHERE name = 'session_presences_local_backfill_v1'
);
INSERT OR IGNORE INTO schema_migrations (name)
VALUES ('session_presences_local_backfill_v1');
"#;

/// Sets the first table of relationships aside.
pub const SET_RELATIONSHIPS_ASIDE: &'static str = "ALTER TABLE session_relationships RENAME TO session_relationships_v1;";

/// Carries the relationships over into the second table. Every one of them names a
/// child; what established it was not recorded.
pub const CARRY_RELATIONSHIPS_OVER: &'static str = r#"
INSERT OR IGNORE INTO session_relationships
    (source, parent_session_id, relationship_uid, child_session_id, relationship,
     identity_status, evidence_kind, child_has_events, created_ms, updated_ms)
SELECT r.source, r.parent_session_id, 'child:' || r.child_session_id, r.child_session_id,
       r.relationship, 'observed', 'legacy_hydration',
       EXISTS(SELECT 1 FROM session_events e
              WHERE e.source = r.source AND e.session_id = r.child_session_id),
       r.created_ms, r.created_ms
FROM session_relationships_v1 r;
DROP TABLE session_relationships_v1;
"#;

/// Records that the relationships are in their second shape.
pub const MARK_RELATIONSHIPS: &'static str = "INSERT OR IGNORE INTO schema_migrations (name) VALUES ('session_relationships_v2');";

/// The indexes that are created before the retired ones are dropped, each with what it
/// is on.
pub const FIRST_INDEXES: [(&'static str, &'static str); 6] = [
    ("idx_history_hash", "history(prompt_hash)"),
    ("idx_history_timestamp", "history(timestamp_ms DESC)"),
    ("idx_history_session", "history(source, session_id)"),
    ("idx_tags_name", "tags(name)"),
    ("idx_session_tags_session", "session_tags(source, session_id)"),
    ("idx_session_tags_tag", "session_tags(tag_id)"),
];

/// The indexes that are created behind that.
pub const LATER_INDEXES: [(&'static str, &'static str); 18] = [
    ("idx_sessions_recency", "sessions(last_activity_ms DESC, source, session_id)"),
    ("idx_sessions_source_recency", "sessions(source, last_activity_ms DESC, session_id)"),
    ("idx_sessions_raw_path", "sessions(source, raw_path)"),
    ("idx_session_presences_location", "session_presences(location, source, session_id)"),
    ("idx_session_presences_locator", "session_presences(location, source, raw_locator)"),
    ("idx_session_relationships_parent", "session_relationships(source, parent_session_id)"),
    ("idx_session_relationships_child", "session_relationships(source, child_session_id)"),
    ("idx_session_events_session", "session_events(source, session_id)"),
    ("idx_session_events_source_page", "session_events(source, session_id, ts_ms, id)"),
    ("idx_session_events_page", "session_events(session_id, ts_ms, id)"),
    ("idx_session_events_ts", "session_events(ts_ms DESC)"),
    ("idx_session_events_role", "session_events(role)"),
    ("idx_tool_calls_page_v2", "tool_calls(source, session_id, (ts_ms IS NULL), ts_ms, id)"),
    ("idx_file_edits_page_v2", "file_edits(source, session_id, (ts_ms IS NULL), ts_ms, id)"),
    ("idx_file_edits_path", "file_edits(file_path)"),
    ("idx_session_commit_links_session", "session_commit_links(source, session_id)"),
    ("idx_session_commit_links_commit", "session_commit_links(commit_sha)"),
    ("idx_session_commit_links_repo", "session_commit_links(repo, branch)"),
];

/// The statements that a migration runs together.
#[derive(Debug, Clone, Copy)]
pub enum MigrationScript {
    /// Creates the tables of the history and of the evidence.
    Evidence,
    /// Creates the table of the relationships.
    Relationships,
    /// Creates the tables of the catalog.
    Catalog,
    /// Sets the first table of relationships aside.
    SetAside,
    /// Carries the relationships over into the second table.
    CarryOver,
    /// Records that the relationships are in their second shape.
    MarkRelationships,
    /// Gives every session a local presence, and records it.
    Backfill,
}

/// The statements of a script.
pub open spec fn script_text(script: MigrationScript) -> Seq<char> {
    match script {
        MigrationScript::Evidence => SCHEMA@,
        MigrationScript::Relationships => RELATIONSHIPS_SCHEMA@,
        MigrationScript::Catalog => CATALOG_SCHEMA@,
        MigrationScript::SetAside => SET_RELATIONSHIPS_ASIDE@,
        MigrationScript::CarryOver => CARRY_RELATIONSHIPS_OVER@,
        MigrationScript::MarkRelationships => MARK_RELATIONSHIPS@,
        MigrationScript::Backfill => PRESENCE_BACKFILL@,
    }
}

impl MigrationScript {
    /// The statements of a script.
    pub fn statements(self) -> (r: &'static str)
        ensures
            r@ == script_text(self),
    {
        match self {
            MigrationScript::Evidence => SCHEMA,
            MigrationScript::Relationships => RELATIONSHIPS_SCHEMA,
            MigrationScript::Catalog => CATALOG_SCHEMA,
            MigrationScript::SetAside => SET_RELATIONSHIPS_ASIDE,
            MigrationScript::CarryOver => CARRY_RELATIONSHIPS_OVER,
            MigrationScript::MarkRelationships => MARK_RELATIONSHIPS,
            MigrationScript::Backfill => PRESENCE_BACKFILL,
        }
    }
}

/// One step of a migration.
#[derive(Debug, Clone, Copy)]
pub enum MigrationStep {
    /// Runs some statements.
    Batch(MigrationScript),
    /// Adds a text column to a table that lacks it.
    AddColumn { table: &'static str, column: &'static str },
    /// Creates an index that is not there.
    CreateIndex { name: &'static str, on: &'static str },
    /// Drops an index that is there.
    DropIndex { name: &'static str },
    /// Whether a rename leaves the bodies of triggers as they are.
    PlainRename(bool),
    /// Brings the ledger of observations up to date.
    Observations,
    /// Brings the tables of deliveries up to date.
    Delivery,
}

/// The statement of a step. The last three variants have none.
pub open spec fn statement_of(step: MigrationStep) -> Option<Seq<char>> {
    match step {
        MigrationStep::Batch(script) => Some(script_text(script)),
        MigrationStep::AddColumn { table, column } => Some(
            "ALTER TABLE "@ + table@ + " ADD COLUMN "@ + column@ + " TEXT"@,
        ),
        MigrationStep::CreateIndex { name, on } => Some(
            "CREATE INDEX IF NOT EXISTS "@ + name@ + " ON "@ + on@,
        ),
        MigrationStep::DropIndex { name } => Some("DROP INDEX IF EXISTS "@ + name@),
        _ => None,
    }
}

impl MigrationStep {
    /// The statement of a step, where it has one.
    pub fn statement(&self) -> (r: Option<String>)
        ensures
            text::opt_view(r) == statement_of(*self),
    {
        match self {
            MigrationStep::Batch(script) => Some(script.statements().to_owned()),
            MigrationStep::AddColumn { table, column } => {
                let head = concat3("ALTER TABLE ", table, " ADD COLUMN ");
                let all = concat3(head.as_str(), column, " TEXT");
                assert(all@ =~= "ALTER TABLE "@ + table@ + " ADD COLUMN "@ + column@ + " TEXT"@);
                Some(all)
            },
            MigrationStep::CreateIndex { name, on } => {
                let head = concat3("CREATE INDEX IF NOT EXISTS ", name, " ON ");
                Some(concat2(head.as_str(), on))
            },
            MigrationStep::DropIndex { name } => Some(concat2("DROP INDEX IF EXISTS ", name)),
            _ => None,
        }
    }
}

/// What a migration finds, once the tables are there.
#[derive(Debug)]
pub struct MigrationState {
    /// Whether the relationships are marked as being in their second shape.
    pub relationships_marked: bool,
    /// Whether their table has the column that names a row.
    pub relationships_named: bool,
    /// Whether the presences are marked as backfilled.
    pub presences_marked: bool,
    pub history_columns: Vec<String>,
    pub session_columns: Vec<String>,
    pub presence_columns: Vec<String>,
}

/// The steps that create the tables. They come before the state is read.
pub open spec fn table_steps() -> Seq<MigrationStep> {
    seq![
        MigrationStep::Batch(MigrationScript::Evidence),
        MigrationStep::Batch(MigrationScript::Relationships),
        MigrationStep::Batch(MigrationScript::Catalog),
    ]
}

/// The steps that bring the relationships into their second shape.
pub open spec fn relationship_steps(marked: bool, named: bool) -> Seq<MigrationStep> {
    if marked {
        Seq::empty()
    } else if named {
        seq![MigrationStep::Batch(MigrationScript::MarkRelationships)]
    } else {
        seq![
            MigrationStep::PlainRename(true),
            MigrationStep::Batch(MigrationScript::SetAside),
            MigrationStep::Batch(MigrationScript::Relationships),
            MigrationStep::Batch(MigrationScript::CarryOver),
            MigrationStep::PlainRename(false),
            MigrationStep::Batch(MigrationScript::MarkRelationships),
        ]
    }
}

/// The steps that add the first `n` columns of a list, as far as a table lacks them.
pub open spec fn column_steps<const N: usize>(
    table: &'static str,
    existing: Seq<Seq<char>>,
    required: [&'static str; N],
    n: int,
) -> Seq<MigrationStep>
    decreases n,
{
    if n <= 0 {
        Seq::empty()
    } else {
        let before = column_steps(table, existing, required, n - 1);
        let column = required@[n - 1];
        if existing.contains(column@) {
            before
        } else {
            before.push(MigrationStep::AddColumn { table, column })
        }
    }
}

/// The steps that create the first `n` indexes of a list.
pub open spec fn index_steps<const N: usize>(
    indexes: [(&'static str, &'static str); N],
    n: int,
) -> Seq<MigrationStep> {
    Seq::new(
        n as nat,
        |i: int| MigrationStep::CreateIndex { name: indexes@[i].0, on: indexes@[i].1 },
    )
}

/// The steps that drop the first `n` retired indexes.
pub open spec fn drop_steps(n: int) -> Seq<MigrationStep> {
    Seq::new(n as nat, |i: int| MigrationStep::DropIndex { name: RETIRED_INDEXES@[i] })
}

/// The steps that bring rows and columns up to date.
pub open spec fn content_steps(state: MigrationState) -> Seq<MigrationStep> {
    relationship_steps(state.relationships_marked, state.relationships_named) + column_steps(
        "history",
        text::views(state.history_columns@),
        REQUIRED_HISTORY_COLUMNS,
        2,
    ) + column_steps(
        "sessions",
        text::views(state.session_columns@),
        REQUIRED_SESSIONS_COLUMNS,
        9,
    ) + column_steps(
        "session_presences",
        text::views(state.presence_columns@),
        REQUIRED_SESSION_PRESENCE_COLUMNS,
        3,
    ) + (if state.presences_marked {
        Seq::empty()
    } else {
        seq![MigrationStep::Batch(MigrationScript::Backfill)]
    })
}

/// The steps that bring a database up to date, behind those for its tables.
pub open spec fn plan_of(state: MigrationState) -> Seq<MigrationStep> {
    content_steps(state) + index_steps(FIRST_INDEXES, 6) + drop_steps(8) + index_steps(
        LATER_INDEXES,
        18,
    ) + seq![MigrationStep::Observations, MigrationStep::Delivery]
}

/// The steps that create the tables of a database.
pub fn table_plan() -> (r: Vec<MigrationStep>)
    ensures
        r@ == table_steps(),
{
    let mut out: Vec<MigrationStep> = Vec::new();
    out.push(MigrationStep::Batch(MigrationScript::Evidence));
    out.push(MigrationStep::Batch(MigrationScript::Relationships));
    out.push(MigrationStep::Batch(MigrationScript::Catalog));
    assert(out@ =~= table_steps());
    out
}

fn plan_relationships(marked: bool, named: bool) -> (r: Vec<MigrationStep>)
    ensures
        r@ == relationship_steps(marked, named),
{
    let mut out: Vec<MigrationStep> = Vec::new();
    if !marked {
        if !named {
            out.push(MigrationStep::PlainRename(true));
            out.push(MigrationStep::Batch(MigrationScript::SetAside));
            out.push(MigrationStep::Batch(MigrationScript::Relationships));
            out.push(MigrationStep::Batch(MigrationScript::CarryOver));
            out.push(MigrationStep::PlainRename(false));
        }
        out.push(MigrationStep::Batch(MigrationScript::MarkRelationships));
    }
    assert(out@ =~= relationship_steps(marked, named));
    out
}

fn add_columns<const N: usize>(
    out: &mut Vec<MigrationStep>,
    table: &'static str,
    existing: &Vec<String>,
    required: [&'static str; N],
)
    ensures
        final(out)@ == old(out)@ + column_steps(
            table,
            text::views(existing@),
            required,
            N as int,
        ),
{
    let ghost given = out@;
    let mut i: usize = 0;
    assert(out@ =~= given + column_steps(table, text::views(existing@), required, 0));
    while i < N
        invariant
            i <= N,
            out@ == given + column_steps(table, text::views(existing@), required, i as int),
        decreases N - i,
    {
        let ghost before = column_steps(table, text::views(existing@), required, i as int);
        if !contains_text(existing, required[i]) {
            out.push(MigrationStep::AddColumn { table, column: required[i] });
            assert(out@ =~= given + before.push(
                MigrationStep::AddColumn { table, column: required@[i as int] },
            ));
        }
        i = i + 1;
    }
}

fn create_indexes<const N: usize>(
    out: &mut Vec<MigrationStep>,
    indexes: [(&'static str, &'static str); N],
)
    ensures
        final(out)@ == old(out)@ + index_steps(indexes, N as int),
{
    let ghost given = out@;
    let mut i: usize = 0;
    assert(out@ =~= given + index_steps(indexes, 0));
    while i < N
        invariant
            i <= N,
            out@ == given + index_steps(indexes, i as int),
        decreases N - i,
    {
        out.push(MigrationStep::CreateIndex { name: indexes[i].0, on: indexes[i].1 });
        assert(out@ =~= given + index_steps(indexes, i + 1));
        i = i + 1;
    }
}

/// Plans what brings a database up to date, once its tables are there.
pub fn migration_plan(state: &MigrationState) -> (r: Vec<MigrationStep>)
    ensures
        r@ == plan_of(*state),
{
    let mut out = plan_relationships(state.relationships_marked, state.relationships_named);
    add_columns(&mut out, "history", &state.history_columns, REQUIRED_HISTORY_COLUMNS);
    add_columns(&mut out, "sessions", &state.session_columns, REQUIRED_SESSIONS_COLUMNS);
    add_columns(
        &mut out,
        "session_presences",
        &state.presence_columns,
        REQUIRED_SESSION_PRESENCE_COLUMNS,
    );
    if !state.presences_marked {
        out.push(MigrationStep::Batch(MigrationScript::Backfill));
    }
    assert(out@ =~= content_steps(*state));
    create_indexes(&mut out, FIRST_INDEXES);
    let ghost given = out@;
    let mut i: usize = 0;
    assert(out@ =~= given + drop_steps(0));
    while i < 8
        invariant
            i <= 8,
            out@ == given + drop_steps(i as int),
        decreases 8 - i,
    {
        out.push(MigrationStep::DropIndex { name: RETIRED_INDEXES[i] });
        assert(out@ =~= given + drop_steps(i + 1));
        i = i + 1;
    }
    create_indexes(&mut out, LATER_INDEXES);
    out.push(MigrationStep::Observations);
    out.push(MigrationStep::Delivery);
    assert(out@ =~= plan_of(*state));
    out
}

/// Whether renames leave triggers alone, after the first `n` steps.
pub open spec fn renames_plainly(steps: Seq<MigrationStep>, n: int) -> bool
    decreases n,
{
    if n <= 0 {
        false
    } else {
        match steps[n - 1] {
            MigrationStep::PlainRename(on) => on,
            _ => renames_plainly(steps, n - 1),
        }
    }
}

/// Whether a migration that stops after some of its steps has to take back how
/// renames work before it reports why it stopped.
pub fn rename_is_to_restore(steps: &Vec<MigrationStep>, done: usize) -> (r: bool)
    requires
        done <= steps@.len(),
    ensures
        r == renames_plainly(steps@, done as int),
{
    let mut i: usize = done;
    while i > 0
        invariant
            i <= done <= steps@.len(),
            renames_plainly(steps@, done as int) == renames_plainly(steps@, i as int),
        decreases i,
    {
        if let MigrationStep::PlainRename(on) = steps[i - 1] {
            return on;
        }
        i = i - 1;
    }
    false
}

pub proof fn lemma_later_indexes_are_not_retired(i: int, k: int)
    requires
        0 <= i < 18,
        0 <= k < 8,
    ensures
        LATER_INDEXES@[i].0@ != RETIRED_INDEXES@[k]@,
{
    reveal_strlit("idx_sessions_recency");
    reveal_strlit("idx_sessions_source_recency");
    reveal_strlit("idx_sessions_raw_path");
    reveal_strlit("idx_session_presences_location");
    reveal_strlit("idx_session_presences_locator");
    reveal_strlit("idx_session_relationships_parent");
    reveal_strlit("idx_session_relationships_child");
    reveal_strlit("idx_session_events_session");
    reveal_strlit("idx_session_events_source_page");
    reveal_strlit("idx_session_events_page");
    reveal_strlit("idx_session_events_ts");
    reveal_strlit("idx_session_events_role");
    reveal_strlit("idx_tool_calls_page_v2");
    reveal_strlit("idx_file_edits_page_v2");
    reveal_strlit("idx_file_edits_path");
    reveal_strlit("idx_session_commit_links_session");
    reveal_strlit("idx_session_commit_links_commit");
    reveal_strlit("idx_session_commit_links_repo");
    reveal_strlit("idx_sessions_cwd");
    reveal_strlit("idx_sessions_branch");
    reveal_strlit("idx_sessions_last");
    reveal_strlit("idx_sessions_source_last");
    reveal_strlit("idx_tool_calls_session");
    reveal_strlit("idx_file_edits_session");
    reveal_strlit("idx_tool_calls_page");
    reveal_strlit("idx_file_edits_page");
    assert("idx_tool_calls_page_v2"@[15] != "idx_tool_calls_session"@[15]);
    assert("idx_tool_calls_page_v2"@[4] != "idx_file_edits_session"@[4]);
    assert("idx_file_edits_page_v2"@[4] != "idx_tool_calls_session"@[4]);
    assert("idx_file_edits_page_v2"@[15] != "idx_file_edits_session"@[15]);
    assert("idx_file_edits_path"@[4] != "idx_sessions_branch"@[4]);
    assert("idx_file_edits_path"@[4] != "idx_tool_calls_page"@[4]);
    assert("idx_file_edits_path"@[17] != "idx_file_edits_page"@[17]);
    assert("idx_sessions_recency"@.len() == 20);
    assert("idx_sessions_source_recency"@.len() == 27);
    assert("idx_sessions_raw_path"@.len() == 21);
    assert("idx_session_presences_location"@.len() == 30);
    assert("idx_session_presences_locator"@.len() == 29);
    assert("idx_session_relationships_parent"@.len() == 32);
    assert("idx_session_relationships_child"@.len() == 31);
    assert("idx_session_events_session"@.len() == 26);
    assert("idx_session_events_source_page"@.len() == 30);
    assert("idx_session_events_page"@.len() == 23);
    assert("idx_session_events_ts"@.len() == 21);
    assert("idx_session_events_role"@.len() == 23);
    assert("idx_tool_calls_page_v2"@.len() == 22);
    assert("idx_file_edits_page_v2"@.len() == 22);
    assert("idx_file_edits_path"@.len() == 19);
    assert("idx_session_commit_links_session"@.len() == 32);
    assert("idx_session_commit_links_commit"@.len() == 31);
    assert("idx_session_commit_links_repo"@.len() == 29);
    assert("idx_sessions_cwd"@.len() == 16);
    assert("idx_sessions_branch"@.len() == 19);
    assert("idx_sessions_last"@.len() == 17);
    assert("idx_sessions_source_last"@.len() == 24);
    assert("idx_tool_calls_session"@.len() == 22);
    assert("idx_file_edits_session"@.len() == 22);
    assert("idx_tool_calls_page"@.len() == 19);
    assert("idx_file_edits_page"@.len() == 19);
}

proof fn lemma_missing_column_is_added<const N: usize>(
    table: &'static str,
    existing: Seq<Seq<char>>,
    required: [&'static str; N],
    k: int,
    n: int,
)
    requires
        0 <= k < n <= N,
        !existing.contains(required@[k]@),
    ensures
        column_steps(table, existing, required, n).contains(
            MigrationStep::AddColumn { table, column: required@[k] },
        ),
    decreases n,
{
    let step = MigrationStep::AddColumn { table, column: required@[k] };
    let before = column_steps(table, existing, required, n - 1);
    if k == n - 1 {
        assert(before.push(step)[before.len() as int] == step);
    } else {
        lemma_missing_column_is_added(table, existing, required, k, n - 1);
        let at = choose|at: int| 0 <= at < before.len() && before[at] == step;
        assert(column_steps(table, existing, required, n)[at] == step);
    }
}

proof fn lemma_part_is_planned(
    before: Seq<MigrationStep>,
    part: Seq<MigrationStep>,
    behind: Seq<MigrationStep>,
    step: MigrationStep,
)
    requires
        part.contains(step),
    ensures
        (before + part + behind).contains(step),
{
    let at = choose|at: int| 0 <= at < part.len() && part[at] == step;
    assert((before + part + behind)[before.len() + at] == step);
}

/// A migration adds every column that a reader needs and the database lacks.
pub proof fn law_migration_adds_missing_columns(state: MigrationState, k: int)
    ensures
        0 <= k < 2 && !text::views(state.history_columns@).contains(
            REQUIRED_HISTORY_COLUMNS@[k]@,
        ) ==> plan_of(state).contains(
            MigrationStep::AddColumn { table: "history", column: REQUIRED_HISTORY_COLUMNS@[k] },
        ),
        0 <= k < 9 && !text::views(state.session_columns@).contains(
            REQUIRED_SESSIONS_COLUMNS@[k]@,
        ) ==> plan_of(state).contains(
            MigrationStep::AddColumn { table: "sessions", column: REQUIRED_SESSIONS_COLUMNS@[k] },
        ),
        0 <= k < 3 && !text::views(state.presence_columns@).contains(
            REQUIRED_SESSION_PRESENCE_COLUMNS@[k]@,
        ) ==> plan_of(state).contains(
            MigrationStep::AddColumn {
                table: "session_presences",
                column: REQUIRED_SESSION_PRESENCE_COLUMNS@[k],
            },
        ),
{
    let first = relationship_steps(state.relationships_marked, state.relationships_named);
    let history = column_steps(
        "history",
        text::views(state.history_columns@),
        REQUIRED_HISTORY_COLUMNS,
        2,
    );
    let sessions = column_steps(
        "sessions",
        text::views(state.session_columns@),
        REQUIRED_SESSIONS_COLUMNS,
        9,
    );
    let presences = column_steps(
        "session_presences",
        text::views(state.presence_columns@),
        REQUIRED_SESSION_PRESENCE_COLUMNS,
        3,
    );
    let backfill: Seq<MigrationStep> = if state.presences_marked {
        Seq::empty()
    } else {
        seq![MigrationStep::Batch(MigrationScript::Backfill)]
    };
    let rest = index_steps(FIRST_INDEXES, 6) + drop_steps(8) + index_steps(LATER_INDEXES, 18)
        + seq![MigrationStep::Observations, MigrationStep::Delivery];
    let plan = plan_of(state);
    if 0 <= k < 2 && !text::views(state.history_columns@).contains(REQUIRED_HISTORY_COLUMNS@[k]@) {
        lemma_missing_column_is_added(
            "history",
            text::views(state.history_columns@),
            REQUIRED_HISTORY_COLUMNS,
            k,
            2,
        );
        let behind = sessions + presences + backfill + rest;
        assert(plan =~= first + history + behind);
        lemma_part_is_planned(
            first,
            history,
            behind,
            MigrationStep::AddColumn { table: "history", column: REQUIRED_HISTORY_COLUMNS@[k] },
        );
    }
    if 0 <= k < 9 && !text::views(state.session_columns@).contains(REQUIRED_SESSIONS_COLUMNS@[k]@) {
        lemma_missing_column_is_added(
            "sessions",
            text::views(state.session_columns@),
            REQUIRED_SESSIONS_COLUMNS,
            k,
            9,
        );
        let behind = presences + backfill + rest;
        assert(plan =~= (first + history) + sessions + behind);
        lemma_part_is_planned(
            first + history,
            sessions,
            behind,
            MigrationStep::AddColumn { table: "sessions", column: REQUIRED_SESSIONS_COLUMNS@[k] },
        );
    }
    if 0 <= k < 3 && !text::views(state.presence_columns@).contains(
        REQUIRED_SESSION_PRESENCE_COLUMNS@[k]@,
    ) {
        lemma_missing_column_is_added(
            "session_presences",
            text::views(state.presence_columns@),
            REQUIRED_SESSION_PRESENCE_COLUMNS,
            k,
            3,
        );
        let behind = backfill + rest;
        assert(plan =~= (first + history + sessions) + presences + behind);
        lemma_part_is_planned(
            first + history + sessions,
            presences,
            behind,
            MigrationStep::AddColumn {
                table: "session_presences",
                column: REQUIRED_SESSION_PRESENCE_COLUMNS@[k],
            },
        );
    }
}

/// Where the later indexes stand among the indexes that every fast path needs.
pub open spec fn place_of_index(k: int) -> int {
    let places: Seq<int> = seq![0, 1, 2, 8, 9, 12, 13, 3, 4, 5, 6];
    places[k]
}

/// A migration creates every index that a fast path needs, and nothing that comes
/// behind drops an index or rebuilds a table.
pub proof fn law_migration_creates_required_indexes(state: MigrationState, k: int)
    requires
        0 <= k < 11,
    ensures
        exists|at: int|
            {
                &&& 0 <= at < plan_of(state).len()
                &&& #[trigger] plan_of(state)[at] matches MigrationStep::CreateIndex { name, .. }
                    && name@ == REQUIRED_INDEXES@[k]@
                &&& forall|later: int|
                    at < later < plan_of(state).len() ==> #[trigger] plan_of(state)[later] is CreateIndex
                        || plan_of(state)[later] is Observations || plan_of(state)[later] is Delivery
            },
{
    let before = content_steps(state) + index_steps(FIRST_INDEXES, 6) + drop_steps(8);
    let at = before.len() + place_of_index(k);
    let plan = plan_of(state);
    assert(plan =~= before + index_steps(LATER_INDEXES, 18) + seq![
        MigrationStep::Observations,
        MigrationStep::Delivery,
    ]);
    assert(LATER_INDEXES@[place_of_index(k)].0@ == REQUIRED_INDEXES@[k]@);
    assert(plan[at] == index_steps(LATER_INDEXES, 18)[place_of_index(k)]);
}

/// A migration drops every retired index, and nothing that comes behind creates it
/// again.
pub proof fn law_migration_drops_retired_indexes(state: MigrationState, k: int)
    requires
        0 <= k < 8,
    ensures
        exists|at: int|
            {
                &&& 0 <= at < plan_of(state).len()
                &&& #[trigger] plan_of(state)[at] matches MigrationStep::DropIndex { name }
                    && name@ == RETIRED_INDEXES@[k]@
                &&& forall|later: int|
                    at < later < plan_of(state).len() ==> (
                    #[trigger] plan_of(state)[later] matches MigrationStep::CreateIndex { name, .. }
                        ==> name@ != RETIRED_INDEXES@[k]@)
            },
{
    let before = content_steps(state) + index_steps(FIRST_INDEXES, 6);
    let dropped = drop_steps(8);
    let created = index_steps(LATER_INDEXES, 18);
    let plan = plan_of(state);
    let at = before.len() + k;
    assert(plan =~= before + dropped + created + seq![
        MigrationStep::Observations,
        MigrationStep::Delivery,
    ]);
    assert(plan[at] == dropped[k]);
    assert forall|later: int| at < later < plan.len() implies (
    #[trigger] plan[later] matches MigrationStep::CreateIndex { name, .. } ==> name@
        != RETIRED_INDEXES@[k]@) by {
        let place = later - before.len() - dropped.len();
        if 0 <= place < 18 {
            assert(plan[later] == created[place]);
            lemma_later_indexes_are_not_retired(place, k);
        }
    }
}

proof fn lemma_renames_are_unchanged(steps: Seq<MigrationStep>, from: int, n: int)
    requires
        0 <= from <= n <= steps.len(),
        forall|i: int| from <= i < n ==> !(#[trigger] steps[i] is PlainRename),
    ensures
        renames_plainly(steps, n) == renames_plainly(steps, from),
    decreases n - from,
{
    if from < n {
        lemma_renames_are_unchanged(steps, from, n - 1);
    }
}

proof fn lemma_column_steps_rename_nothing<const N: usize>(
    table: &'static str,
    existing: Seq<Seq<char>>,
    required: [&'static str; N],
    n: int,
)
    ensures
        forall|i: int|
            0 <= i < column_steps(table, existing, required, n).len() ==> !(#[trigger] column_steps(
                table,
                existing,
                required,
                n,
            )[i] is PlainRename),
    decreases n,
{
    if n > 0 {
        lemma_column_steps_rename_nothing(table, existing, required, n - 1);
    }
}

/// A migration that is run to its end leaves renames as it found them.
pub proof fn law_migration_restores_renames(state: MigrationState)
    ensures
        !renames_plainly(plan_of(state), plan_of(state).len() as int),
{
    let first = relationship_steps(state.relationships_marked, state.relationships_named);
    let plan = plan_of(state);
    lemma_column_steps_rename_nothing(
        "history",
        text::views(state.history_columns@),
        REQUIRED_HISTORY_COLUMNS,
        2,
    );
    lemma_column_steps_rename_nothing(
        "sessions",
        text::views(state.session_columns@),
        REQUIRED_SESSIONS_COLUMNS,
        9,
    );
    lemma_column_steps_rename_nothing(
        "session_presences",
        text::views(state.presence_columns@),
        REQUIRED_SESSION_PRESENCE_COLUMNS,
        3,
    );
    assert(forall|i: int| 0 <= i < first.len() ==> #[trigger] plan[i] == first[i]);
    if state.relationships_marked || state.relationships_named {
        lemma_renames_are_unchanged(plan, 0, plan.len() as int);
    } else {
        assert(plan[4] == MigrationStep::PlainRename(false));
        assert(!renames_plainly(plan, 5));
        lemma_renames_are_unchanged(plan, 5, plan.len() as int);
    }
}

} // verus!
