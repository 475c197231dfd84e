//! What a database has to hold before a reader or a writer relies on it.
//!
//! A read-only handle does not migrate, so a database of an older release is
//! recognised by what it lacks. Each reader asks for the indexes that it needs
//! and for no others.
use crate::session_store;
use crate::session_store::SchemaReads;
use crate::text;
use crate::text::contains_text;
use vstd::prelude::*;
use vstd::string::*;

verus! {

pub const REQUIRED_TABLES: [&'static str; 27] = [
    "history",
    "history_fts",
    "session_events",
    "session_events_fts",
    "tool_calls",
    "file_edits",
    "session_commit_links",
    "trajectories",
    "trajectory_fts",
    "tags",
    "session_tags",
    "sessions",
    "session_presences",
    "session_hydration_checkpoints",
    "session_identity_correlations",
    "session_relationships",
    "schema_migrations",
    "discovery_skips",
    "delivery_state",
    "delivery_jobs",
    "delivery_journal",
    "delivery_shadow",
    "delivery_batches",
    "delivery_bootstrap_bounds",
    "delivery_exclusions",
    "history_exports",
    "history_export_pages",
];

pub const REQUIRED_HISTORY_COLUMNS: [&'static str; 2] = ["prompt_hash", "git_branch"];

pub const REQUIRED_SESSIONS_COLUMNS: [&'static str; 9] = [
    "first_prompt",
    "models_json",
    "originator",
    "agent_version",
    "repo_url",
    "initial_commit",
    "workspace_roots_json",
    "source_stamp",
    "discovery_state",
];

pub const REQUIRED_SESSION_PRESENCE_COLUMNS: [&'static str; 3] = [
    "raw_locator",
    "source_stamp",
    "discovery_state",
];

pub const REQUIRED_SESSION_RELATIONSHIP_COLUMNS: [&'static str; 4] = [
    "relationship_uid",
    "identity_status",
    "evidence_kind",
    "child_has_events",
];

pub const REQUIRED_INDEXES: [&'static str; 11] = [
    "idx_sessions_recency",
    "idx_sessions_source_recency",
    "idx_sessions_raw_path",
    "idx_session_events_source_page",
    "idx_session_events_page",
    "idx_tool_calls_page_v2",
    "idx_file_edits_page_v2",
    "idx_session_presences_location",
    "idx_session_presences_locator",
    "idx_session_relationships_parent",
    "idx_session_relationships_child",
];

/// Indexes that are dropped: nothing reads them any more.
pub const RETIRED_INDEXES: [&'static str; 8] = [
    "idx_sessions_cwd",
    "idx_sessions_branch",
    "idx_sessions_last",
    "idx_sessions_source_last",
    "idx_tool_calls_session",
    "idx_file_edits_session",
    "idx_tool_calls_page",
    "idx_file_edits_page",
];

pub const REQUIRED_CATALOG_READ_INDEXES: [&'static str; 3] = [
    "idx_sessions_recency",
    "idx_sessions_source_recency",
    "idx_session_presences_location",
];

pub const REQUIRED_EVENT_READ_INDEXES: [&'static str; 2] = [
    "idx_session_events_source_page",
    "idx_session_events_page",
];

pub const REQUIRED_EVIDENCE_READ_INDEXES: [&'static str; 2] = [
    "idx_tool_calls_page_v2",
    "idx_file_edits_page_v2",
];

pub const REQUIRED_SCOPE_READ_INDEXES: [&'static str; 1] = ["idx_session_presences_location"];

pub const REQUIRED_RELATIONSHIP_READ_INDEXES: [&'static str; 2] = [
    "idx_session_relationships_parent",
    "idx_session_relationships_child",
];

pub const REQUIRED_TRIGGERS: [&'static str; 3] = [
    "delete_session_presences",
    "delete_session_hydration_state",
    "delete_session_identity_correlations",
];

pub const REQUIRED_SCHEMA_MIGRATIONS: [&'static str; 3] = [
    "session_presences_local_backfill_v1",
    "session_relationships_v2",
    "delivery_v1",
];

/// The names that a database holds.
#[derive(Debug)]
pub struct SchemaNames {
    /// Every table, view, trigger and index.
    pub objects: Vec<String>,
    pub indexes: Vec<String>,
    pub migrations: Vec<String>,
    pub history_columns: Vec<String>,
    pub session_columns: Vec<String>,
    pub presence_columns: Vec<String>,
    pub relationship_columns: Vec<String>,
}

/// Whether a list holds every one of some names.
pub open spec fn holds_all<const N: usize>(have: Seq<Seq<char>>, need: [&'static str; N]) -> bool {
    forall|i: int| 0 <= i < N ==> have.contains((#[trigger] need@[i])@)
}

/// Whether a list holds one of some names.
pub open spec fn holds_any<const N: usize>(have: Seq<Seq<char>>, need: [&'static str; N]) -> bool {
    exists|i: int| 0 <= i < N && have.contains((#[trigger] need@[i])@)
}

/// Whether a database has the tables, the triggers, the migrations and the columns
/// that every reader needs.
pub open spec fn has_shape(names: SchemaNames) -> bool {
    &&& holds_all(text::views(names.objects@), REQUIRED_TABLES)
    &&& holds_all(text::views(names.objects@), REQUIRED_TRIGGERS)
    &&& holds_all(text::views(names.migrations@), REQUIRED_SCHEMA_MIGRATIONS)
    &&& holds_all(text::views(names.history_columns@), REQUIRED_HISTORY_COLUMNS)
    &&& holds_all(text::views(names.session_columns@), REQUIRED_SESSIONS_COLUMNS)
    &&& holds_all(text::views(names.presence_columns@), REQUIRED_SESSION_PRESENCE_COLUMNS)
    &&& holds_all(text::views(names.relationship_columns@), REQUIRED_SESSION_RELATIONSHIP_COLUMNS)
}

/// Which of the shapes that a store reads a database has.
pub open spec fn reads_of(names: SchemaNames, usage: bool) -> SchemaReads {
    let indexes = text::views(names.indexes@);
    SchemaReads {
        events: has_shape(names) && holds_all(indexes, REQUIRED_EVENT_READ_INDEXES),
        evidence: has_shape(names) && holds_all(indexes, REQUIRED_EVIDENCE_READ_INDEXES),
        relationships: has_shape(names) && holds_all(indexes, REQUIRED_RELATIONSHIP_READ_INDEXES),
        usage,
    }
}

fn has_all<const N: usize>(have: &Vec<String>, need: [&'static str; N]) -> (r: bool)
    ensures
        r == holds_all(text::views(have@), need),
{
    let mut i: usize = 0;
    while i < N
        invariant
            i <= N,
            forall|j: int| 0 <= j < i ==> text::views(have@).contains((#[trigger] need@[j])@),
        decreases N - i,
    {
        if !contains_text(have, need[i]) {
            assert(!text::views(have@).contains(need@[i as int]@));
            return false;
        }
        i = i + 1;
    }
    true
}

fn has_any<const N: usize>(have: &Vec<String>, need: [&'static str; N]) -> (r: bool)
    ensures
        r == holds_any(text::views(have@), need),
{
    let mut i: usize = 0;
    while i < N
        invariant
            i <= N,
            forall|j: int| 0 <= j < i ==> !text::views(have@).contains((#[trigger] need@[j])@),
        decreases N - i,
    {
        if contains_text(have, need[i]) {
            assert(text::views(have@).contains(need@[i as int]@));
            return true;
        }
        i = i + 1;
    }
    false
}

impl SchemaNames {
    /// Whether the database has the shape that every reader needs, and some
    /// indexes besides.
    pub fn schema_has_required_indexes<const N: usize>(&self, required: [&'static str; N]) -> (r:
        bool)
        ensures
            r == (has_shape(*self) && holds_all(text::views(self.indexes@), required)),
    {
        has_all(&self.objects, REQUIRED_TABLES) && has_all(&self.objects, REQUIRED_TRIGGERS)
            && has_all(&self.migrations, REQUIRED_SCHEMA_MIGRATIONS) && has_all(
            &self.history_columns,
            REQUIRED_HISTORY_COLUMNS,
        ) && has_all(&self.session_columns, REQUIRED_SESSIONS_COLUMNS) && has_all(
            &self.presence_columns,
            REQUIRED_SESSION_PRESENCE_COLUMNS,
        ) && has_all(&self.relationship_columns, REQUIRED_SESSION_RELATIONSHIP_COLUMNS) && has_all(
            &self.indexes,
            required,
        )
    }

    /// Whether the database holds everything that a migration would add, as far as
    /// this module knows; the two parts that other modules own are given.
    pub fn schema_is_current(&self, delivery: bool, observations: bool) -> (r: bool)
        ensures
            r == (has_shape(*self) && holds_all(text::views(self.indexes@), REQUIRED_INDEXES)
                && delivery && observations),
    {
        self.schema_has_required_indexes(REQUIRED_INDEXES) && delivery && observations
    }

    /// Whether readers can query the database.
    pub fn schema_is_read_current(&self) -> (r: bool)
        ensures
            r == (has_shape(*self) && holds_all(
                text::views(self.indexes@),
                REQUIRED_SCOPE_READ_INDEXES,
            )),
    {
        self.schema_has_required_indexes(REQUIRED_SCOPE_READ_INDEXES)
    }

    /// Whether the catalog can be listed without a sort.
    pub fn schema_is_catalog_read_current(&self) -> (r: bool)
        ensures
            r == (has_shape(*self) && holds_all(
                text::views(self.indexes@),
                REQUIRED_CATALOG_READ_INDEXES,
            )),
    {
        self.schema_has_required_indexes(REQUIRED_CATALOG_READ_INDEXES)
    }

    /// Whether events can be paged.
    pub fn schema_is_event_read_current(&self) -> (r: bool)
        ensures
            r == (has_shape(*self) && holds_all(
                text::views(self.indexes@),
                REQUIRED_EVENT_READ_INDEXES,
            )),
    {
        self.schema_has_required_indexes(REQUIRED_EVENT_READ_INDEXES)
    }

    /// Whether relationships can be looked up from both ends.
    pub fn schema_is_relationship_read_current(&self) -> (r: bool)
        ensures
            r == (has_shape(*self) && holds_all(
                text::views(self.indexes@),
                REQUIRED_RELATIONSHIP_READ_INDEXES,
            )),
    {
        self.schema_has_required_indexes(REQUIRED_RELATIONSHIP_READ_INDEXES)
    }

    /// Whether tool calls and file edits can be paged.
    pub fn schema_is_evidence_read_current(&self) -> (r: bool)
        ensures
            r == (has_shape(*self) && holds_all(
                text::views(self.indexes@),
                REQUIRED_EVIDENCE_READ_INDEXES,
            )),
    {
        self.schema_has_required_indexes(REQUIRED_EVIDENCE_READ_INDEXES)
    }

    /// Which of the shapes that a store reads the database has. The one of the usage
    /// tables, which another module owns, is given.
    pub fn reads(&self, usage: bool) -> (r: SchemaReads)
        ensures
            r == reads_of(*self, usage),
    {
        SchemaReads {
            events: self.schema_is_event_read_current(),
            evidence: self.schema_is_evidence_read_current(),
            relationships: self.schema_is_relationship_read_current(),
            usage,
        }
    }

    /// Whether an index that should be dropped is still there.
    pub fn retired_indexes_present(&self) -> (r: bool)
        ensures
            r == holds_any(text::views(self.indexes@), RETIRED_INDEXES),
    {
        has_any(&self.indexes, RETIRED_INDEXES)
    }

    /// Whether an open has to migrate. A leftover index counts: dropping it is a
    /// write.
    pub fn needs_migration(&self, delivery: bool, observations: bool) -> (r: bool)
        ensures
            r == !(has_shape(*self) && holds_all(text::views(self.indexes@), REQUIRED_INDEXES)
                && delivery && observations && !holds_any(
                text::views(self.indexes@),
                RETIRED_INDEXES,
            )),
    {
        !self.schema_is_current(delivery, observations) || self.retired_indexes_present()
    }
}

/// A database that a writer takes as it is serves every reader.
pub proof fn law_current_database_serves_every_reader(names: SchemaNames)
    requires
        has_shape(names),
        holds_all(text::views(names.indexes@), REQUIRED_INDEXES),
    ensures
        holds_all(text::views(names.indexes@), REQUIRED_SCOPE_READ_INDEXES),
        holds_all(text::views(names.indexes@), REQUIRED_CATALOG_READ_INDEXES),
        holds_all(text::views(names.indexes@), REQUIRED_EVENT_READ_INDEXES),
        holds_all(text::views(names.indexes@), REQUIRED_EVIDENCE_READ_INDEXES),
        holds_all(text::views(names.indexes@), REQUIRED_RELATIONSHIP_READ_INDEXES),
{
    let have = text::views(names.indexes@);
    assert(have.contains(REQUIRED_INDEXES@[0]@));
    assert(have.contains(REQUIRED_INDEXES@[1]@));
    assert(have.contains(REQUIRED_INDEXES@[3]@));
    assert(have.contains(REQUIRED_INDEXES@[4]@));
    assert(have.contains(REQUIRED_INDEXES@[5]@));
    assert(have.contains(REQUIRED_INDEXES@[6]@));
    assert(have.contains(REQUIRED_INDEXES@[7]@));
    assert(have.contains(REQUIRED_INDEXES@[9]@));
    assert(have.contains(REQUIRED_INDEXES@[10]@));
}

/// A database that a writer takes as it is, and whose usage tables can be read, opens
/// for reading.
pub proof fn law_current_database_opens_for_reading(names: SchemaNames)
    requires
        has_shape(names),
        holds_all(text::views(names.indexes@), REQUIRED_INDEXES),
    ensures
        session_store::serves(reads_of(names, true)),
{
    law_current_database_serves_every_reader(names);
}

} // verus!
