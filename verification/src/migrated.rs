//! What a migration leads to.
//!
//! A database is modelled by the names that readers ask for. Each step of a migration
//! has an effect on these names, and the whole of a plan, run on what was found, ends in
//! the shape that every reader and every writer needs.
use crate::migrations;
use crate::migrations::{
    MigrationScript, MigrationState, MigrationStep, FIRST_INDEXES, LATER_INDEXES,
};
use crate::schema;
use crate::schema::{
    SchemaNames, REQUIRED_HISTORY_COLUMNS, REQUIRED_INDEXES, REQUIRED_SCHEMA_MIGRATIONS,
    REQUIRED_SESSIONS_COLUMNS, REQUIRED_SESSION_PRESENCE_COLUMNS,
    REQUIRED_SESSION_RELATIONSHIP_COLUMNS, REQUIRED_TABLES, REQUIRED_TRIGGERS, RETIRED_INDEXES,
};
use crate::session_store;
use crate::text;
use vstd::prelude::*;
use vstd::string::*;

verus! {

/// What a database holds, as far as readers ask for it.
pub struct Shape {
    /// Its tables and triggers.
    pub objects: Set<Seq<char>>,
    /// Its indexes, each with the table that it is on.
    pub indexes: Map<Seq<char>, Seq<char>>,
    /// The migrations that it records.
    pub migrations: Set<Seq<char>>,
    /// The columns of its tables.
    pub columns: Map<Seq<char>, Set<Seq<char>>>,
}

impl Shape {
    /// The columns of a table; none where it is not there.
    pub open spec fn columns_at(self, table: Seq<char>) -> Set<Seq<char>> {
        if self.columns.dom().contains(table) {
            self.columns[table]
        } else {
            Set::empty()
        }
    }

    /// With a table that is created where it is not there, with some columns.
    pub open spec fn with_table(self, table: Seq<char>, columns: Set<Seq<char>>) -> Shape {
        if self.objects.contains(table) {
            self
        } else {
            Shape {
                objects: self.objects.insert(table),
                columns: self.columns.insert(table, columns),
                ..self
            }
        }
    }

    /// With some tables and triggers besides, as far as they are not there.
    pub open spec fn with_objects(self, objects: Set<Seq<char>>) -> Shape {
        Shape { objects: self.objects.union(objects), ..self }
    }

    /// With a migration recorded.
    pub open spec fn with_migration(self, name: Seq<char>) -> Shape {
        Shape { migrations: self.migrations.insert(name), ..self }
    }
}

/// The names of a list.
pub open spec fn names_of<const N: usize>(names: [&'static str; N]) -> Set<Seq<char>> {
    Set::new(|name: Seq<char>| exists|i: int| 0 <= i < N && (#[trigger] names@[i])@ == name)
}

/// The table of the relationships.
pub open spec fn relationships() -> Seq<char> {
    "session_relationships"@
}

/// The name of that table while it is set aside.
pub open spec fn set_aside() -> Seq<char> {
    "session_relationships_v1"@
}

/// The tables and triggers of the history and of the evidence, but for the table of the
/// history itself.
pub open spec fn evidence_objects() -> Set<Seq<char>> {
    set![
        "history_fts"@,
        "session_events"@,
        "session_events_fts"@,
        "tool_calls"@,
        "file_edits"@,
        "session_commit_links"@,
        "trajectories"@,
        "trajectory_fts"@,
        "tags"@,
        "session_tags"@,
        "history_ai"@,
        "history_au"@,
        "history_ad"@,
        "session_events_ai"@,
        "session_events_au"@,
        "session_events_ad"@,
    ]
}

/// The tables and triggers of the catalog, but for those with columns or rows that are
/// asked for.
pub open spec fn catalog_objects() -> Set<Seq<char>> {
    set![
        "discovery_skips"@,
        "session_hydration_checkpoints"@,
        "session_identity_correlations"@,
        "delete_session_presences"@,
        "delete_session_hydration_state"@,
        "delete_session_identity_correlations"@,
    ]
}

/// The tables of the deliveries and of the exports.
pub open spec fn delivery_objects() -> Set<Seq<char>> {
    set![
        "delivery_state"@,
        "delivery_jobs"@,
        "delivery_journal"@,
        "delivery_shadow"@,
        "delivery_batches"@,
        "delivery_bootstrap_bounds"@,
        "delivery_exclusions"@,
        "history_exports"@,
        "history_export_pages"@,
    ]
}

/// What a script does. A table that is there stays as it is; a new record of migrations
/// is empty; a table that is dropped takes its indexes along.
pub open spec fn after_script(script: MigrationScript, shape: Shape) -> Shape {
    match script {
        MigrationScript::Evidence => shape.with_table(
            "history"@,
            set!["prompt_hash"@],
        ).with_objects(evidence_objects()),
        MigrationScript::Relationships => shape.with_table(
            relationships(),
            names_of(REQUIRED_SESSION_RELATIONSHIP_COLUMNS),
        ),
        MigrationScript::Catalog => {
            let recorded = if shape.objects.contains("schema_migrations"@) {
                shape
            } else {
                Shape {
                    objects: shape.objects.insert("schema_migrations"@),
                    migrations: Set::empty(),
                    ..shape
                }
            };
            recorded.with_table("sessions"@, names_of(REQUIRED_SESSIONS_COLUMNS)).with_table(
                "session_presences"@,
                names_of(REQUIRED_SESSION_PRESENCE_COLUMNS),
            ).with_objects(catalog_objects())
        },
        MigrationScript::SetAside => Shape {
            objects: shape.objects.remove(relationships()).insert(set_aside()),
            indexes: shape.indexes.map_values(
                |table: Seq<char>| if table == relationships() { set_aside() } else { table },
            ),
            columns: shape.columns.insert(set_aside(), shape.columns_at(relationships())).remove(
                relationships(),
            ),
            ..shape
        },
        MigrationScript::CarryOver => Shape {
            objects: shape.objects.remove(set_aside()),
            indexes: shape.indexes.restrict(
                Set::new(
                    |index: Seq<char>|
                        shape.indexes.dom().contains(index) && shape.indexes[index] != set_aside(),
                ),
            ),
            columns: shape.columns.remove(set_aside()),
            ..shape
        },
        MigrationScript::MarkRelationships => shape.with_migration("session_relationships_v2"@),
        MigrationScript::Backfill => shape.with_migration("session_presences_local_backfill_v1"@),
    }
}

/// What a step does. The ledger of observations holds nothing that is asked for here.
pub open spec fn after_step(step: MigrationStep, shape: Shape) -> Shape {
    match step {
        MigrationStep::Batch(script) => after_script(script, shape),
        MigrationStep::AddColumn { table, column } => Shape {
            columns: shape.columns.insert(table@, shape.columns_at(table@).insert(column@)),
            ..shape
        },
        MigrationStep::CreateIndex { name, on } => if shape.indexes.dom().contains(name@) {
            shape
        } else {
            Shape { indexes: shape.indexes.insert(name@, text::split_on(on@, '(')[0]), ..shape }
        },
        MigrationStep::DropIndex { name } => Shape {
            indexes: shape.indexes.remove(name@),
            ..shape
        },
        MigrationStep::PlainRename(_) => shape,
        MigrationStep::Observations => shape,
        MigrationStep::Delivery => shape.with_objects(delivery_objects()).with_migration(
            "delivery_v1"@,
        ),
    }
}

/// What some steps lead to, one behind the other.
pub open spec fn after_steps(steps: Seq<MigrationStep>, shape: Shape) -> Shape
    decreases steps.len(),
{
    if steps.len() == 0 {
        shape
    } else {
        after_step(steps.last(), after_steps(steps.drop_last(), shape))
    }
}

/// Whether the relationships are in their second shape wherever a table of them names
/// its rows, or is recorded to be in it.
pub open spec fn is_consistent(shape: Shape) -> bool {
    shape.objects.contains(relationships()) && (shape.columns_at(relationships()).contains(
        "relationship_uid"@,
    ) || (shape.objects.contains("schema_migrations"@) && shape.migrations.contains(
        "session_relationships_v2"@,
    ))) ==> names_of(REQUIRED_SESSION_RELATIONSHIP_COLUMNS).subset_of(
        shape.columns_at(relationships()),
    )
}

/// Whether a list of columns is read off a set of them, as far as some columns go.
pub open spec fn lists<const N: usize>(
    list: Seq<Seq<char>>,
    columns: Set<Seq<char>>,
    required: [&'static str; N],
) -> bool {
    forall|i: int|
        0 <= i < N ==> list.contains((#[trigger] required@[i])@) == columns.contains(
            required@[i]@,
        )
}

/// Whether a state is what a migration reads of a database.
pub open spec fn is_read_of(state: MigrationState, shape: Shape) -> bool {
    &&& state.relationships_marked == shape.migrations.contains("session_relationships_v2"@)
    &&& state.relationships_named == shape.columns_at(relationships()).contains(
        "relationship_uid"@,
    )
    &&& state.presences_marked == shape.migrations.contains("session_presences_local_backfill_v1"@)
    &&& lists(
        text::views(state.history_columns@),
        shape.columns_at("history"@),
        REQUIRED_HISTORY_COLUMNS,
    )
    &&& lists(
        text::views(state.session_columns@),
        shape.columns_at("sessions"@),
        REQUIRED_SESSIONS_COLUMNS,
    )
    &&& lists(
        text::views(state.presence_columns@),
        shape.columns_at("session_presences"@),
        REQUIRED_SESSION_PRESENCE_COLUMNS,
    )
}

/// Whether a list holds every name of a set.
pub open spec fn holds_set(list: Seq<Seq<char>>, names: Set<Seq<char>>) -> bool {
    forall|name: Seq<char>| #[trigger] names.contains(name) ==> list.contains(name)
}

/// Whether some names are read off a database: they hold what it does, and a retired
/// index only where it has it.
pub open spec fn shows(names: SchemaNames, shape: Shape) -> bool {
    &&& holds_set(text::views(names.objects@), shape.objects)
    &&& holds_set(text::views(names.indexes@), shape.indexes.dom())
    &&& holds_set(text::views(names.migrations@), shape.migrations)
    &&& holds_set(text::views(names.history_columns@), shape.columns_at("history"@))
    &&& holds_set(text::views(names.session_columns@), shape.columns_at("sessions"@))
    &&& holds_set(text::views(names.presence_columns@), shape.columns_at("session_presences"@))
    &&& holds_set(text::views(names.relationship_columns@), shape.columns_at(relationships()))
    &&& forall|k: int|
        0 <= k < 8 && text::views(names.indexes@).contains((#[trigger] RETIRED_INDEXES@[k])@)
            ==> shape.indexes.dom().contains(RETIRED_INDEXES@[k]@)
}

proof fn lemma_steps_follow(a: Seq<MigrationStep>, b: Seq<MigrationStep>, shape: Shape)
    ensures
        after_steps(a + b, shape) == after_steps(b, after_steps(a, shape)),
    decreases b.len(),
{
    if b.len() == 0 {
        assert(a + b =~= a);
    } else {
        lemma_steps_follow(a, b.drop_last(), shape);
        assert((a + b).drop_last() =~= a + b.drop_last());
        assert((a + b).last() == b.last());
    }
}

/// Whether a shape has what another has; the indexes are left out.
pub open spec fn grows(a: Shape, b: Shape) -> bool {
    &&& a.objects.subset_of(b.objects)
    &&& a.migrations.subset_of(b.migrations)
    &&& forall|table: Seq<char>|
        a.columns_at(table).subset_of(#[trigger] b.columns_at(table))
}

/// Whether a step takes nothing away but indexes.
pub open spec fn takes_nothing(step: MigrationStep) -> bool {
    step matches MigrationStep::Batch(script) ==> script is MarkRelationships || script is Backfill
}

proof fn lemma_steps_grow(steps: Seq<MigrationStep>, shape: Shape)
    requires
        forall|i: int| 0 <= i < steps.len() ==> takes_nothing(#[trigger] steps[i]),
    ensures
        grows(shape, after_steps(steps, shape)),
    decreases steps.len(),
{
    if steps.len() > 0 {
        let before = after_steps(steps.drop_last(), shape);
        assert forall|i: int| 0 <= i < steps.drop_last().len() implies takes_nothing(
            #[trigger] steps.drop_last()[i],
        ) by {
            assert(takes_nothing(steps[i]));
        }
        lemma_steps_grow(steps.drop_last(), shape);
        assert(takes_nothing(steps[steps.len() - 1]));
        let behind = after_step(steps.last(), before);
        assert forall|table: Seq<char>| before.columns_at(table).subset_of(
            #[trigger] behind.columns_at(table),
        ) by {}
        assert forall|table: Seq<char>| shape.columns_at(table).subset_of(
            #[trigger] behind.columns_at(table),
        ) by {
            assert(before.columns_at(table).subset_of(behind.columns_at(table)));
        }
    }
}

proof fn lemma_column_steps_take_nothing<const N: usize>(
    table: &'static str,
    existing: Seq<Seq<char>>,
    required: [&'static str; N],
    n: int,
)
    ensures
        forall|i: int|
            0 <= i < migrations::column_steps(table, existing, required, n).len() ==> (
            #[trigger] migrations::column_steps(table, existing, required, n)[i] is AddColumn),
    decreases n,
{
    if n > 0 {
        lemma_column_steps_take_nothing(table, existing, required, n - 1);
    }
}

proof fn lemma_columns_are_added<const N: usize>(
    table: &'static str,
    existing: Seq<Seq<char>>,
    required: [&'static str; N],
    n: int,
    shape: Shape,
)
    requires
        0 <= n <= N,
        lists(existing, shape.columns_at(table@), required),
    ensures
        forall|k: int|
            0 <= k < n ==> after_steps(
                migrations::column_steps(table, existing, required, n),
                shape,
            ).columns_at(table@).contains((#[trigger] required@[k])@),
        grows(shape, after_steps(migrations::column_steps(table, existing, required, n), shape)),
        after_steps(migrations::column_steps(table, existing, required, n), shape).indexes
            == shape.indexes,
    decreases n,
{
    let steps = migrations::column_steps(table, existing, required, n);
    lemma_column_steps_take_nothing(table, existing, required, n);
    lemma_steps_grow(steps, shape);
    if n > 0 {
        let fewer = migrations::column_steps(table, existing, required, n - 1);
        lemma_columns_are_added(table, existing, required, n - 1, shape);
        if !existing.contains(required@[n - 1]@) {
            assert(steps.drop_last() =~= fewer);
        }
    }
}

proof fn lemma_indexes_are_created<const N: usize>(
    indexes: [(&'static str, &'static str); N],
    n: int,
    shape: Shape,
)
    requires
        0 <= n <= N,
    ensures
        grows(shape, after_steps(migrations::index_steps(indexes, n), shape)),
        forall|name: Seq<char>|
            #[trigger] after_steps(
                migrations::index_steps(indexes, n),
                shape,
            ).indexes.dom().contains(name) <==> shape.indexes.dom().contains(name) || exists|i: int|
                0 <= i < n && (#[trigger] indexes@[i]).0@ == name,
    decreases n,
{
    let steps = migrations::index_steps(indexes, n);
    lemma_steps_grow(steps, shape);
    if n > 0 {
        lemma_indexes_are_created(indexes, n - 1, shape);
        assert(steps.drop_last() =~= migrations::index_steps(indexes, n - 1));
        let before = after_steps(steps.drop_last(), shape);
        let behind = after_steps(steps, shape);
        assert forall|name: Seq<char>| #[trigger]
            behind.indexes.dom().contains(name) <==> shape.indexes.dom().contains(name)
                || exists|i: int| 0 <= i < n && (#[trigger] indexes@[i]).0@ == name by {
            assert(behind.indexes.dom().contains(name) <==> before.indexes.dom().contains(name)
                || name == indexes@[n - 1].0@);
        }
    }
}

proof fn lemma_indexes_are_dropped(n: int, shape: Shape)
    requires
        0 <= n <= 8,
    ensures
        grows(shape, after_steps(migrations::drop_steps(n), shape)),
        forall|k: int|
            0 <= k < n ==> !after_steps(migrations::drop_steps(n), shape).indexes.dom().contains(
                (#[trigger] RETIRED_INDEXES@[k])@,
            ),
    decreases n,
{
    let steps = migrations::drop_steps(n);
    lemma_steps_grow(steps, shape);
    if n > 0 {
        lemma_indexes_are_dropped(n - 1, shape);
        assert(steps.drop_last() =~= migrations::drop_steps(n - 1));
    }
}

/// The tables and triggers that are there once the tables are created.
pub open spec fn first_objects() -> Set<Seq<char>> {
    evidence_objects().union(catalog_objects()).union(
        set!["history"@, relationships(), "schema_migrations"@, "sessions"@, "session_presences"@],
    )
}

proof fn lemma_set_aside_is_apart()
    ensures
        !first_objects().contains(set_aside()),
        set_aside() != relationships(),
        "history"@ != relationships() && "history"@ != set_aside(),
        "sessions"@ != relationships() && "sessions"@ != set_aside(),
        "session_presences"@ != relationships() && "session_presences"@ != set_aside(),
        "history"@ != "sessions"@,
        "history"@ != "session_presences"@,
        "sessions"@ != "session_presences"@,
        "schema_migrations"@ != relationships() && "schema_migrations"@ != "history"@,
        !evidence_objects().contains(relationships()),
        !evidence_objects().contains("schema_migrations"@),
{
    reveal_strlit("session_relationships");
    reveal_strlit("session_relationships_v1");
    reveal_strlit("history");
    reveal_strlit("history_fts");
    reveal_strlit("session_events");
    reveal_strlit("session_events_fts");
    reveal_strlit("tool_calls");
    reveal_strlit("file_edits");
    reveal_strlit("session_commit_links");
    reveal_strlit("trajectories");
    reveal_strlit("trajectory_fts");
    reveal_strlit("tags");
    reveal_strlit("session_tags");
    reveal_strlit("history_ai");
    reveal_strlit("history_au");
    reveal_strlit("history_ad");
    reveal_strlit("session_events_ai");
    reveal_strlit("session_events_au");
    reveal_strlit("session_events_ad");
    reveal_strlit("discovery_skips");
    reveal_strlit("session_hydration_checkpoints");
    reveal_strlit("session_identity_correlations");
    reveal_strlit("delete_session_presences");
    reveal_strlit("delete_session_hydration_state");
    reveal_strlit("delete_session_identity_correlations");
    reveal_strlit("schema_migrations");
    reveal_strlit("sessions");
    reveal_strlit("session_presences");
    assert("delete_session_presences"@[0] != "session_relationships_v1"@[0]);
    assert("session_events_ai"@[8] != "schema_migrations"@[8]);
    assert("session_events_au"@[8] != "schema_migrations"@[8]);
    assert("session_events_ad"@[8] != "schema_migrations"@[8]);
    assert("session_relationships"@.len() == 21);
    assert("session_relationships_v1"@.len() == 24);
    assert("history"@.len() == 7);
    assert("history_fts"@.len() == 11);
    assert("session_events"@.len() == 14);
    assert("session_events_fts"@.len() == 18);
    assert("tool_calls"@.len() == 10);
    assert("file_edits"@.len() == 10);
    assert("session_commit_links"@.len() == 20);
    assert("trajectories"@.len() == 12);
    assert("trajectory_fts"@.len() == 14);
    assert("tags"@.len() == 4);
    assert("session_tags"@.len() == 12);
    assert("history_ai"@.len() == 10);
    assert("history_au"@.len() == 10);
    assert("history_ad"@.len() == 10);
    assert("session_events_ai"@.len() == 17);
    assert("session_events_au"@.len() == 17);
    assert("session_events_ad"@.len() == 17);
    assert("discovery_skips"@.len() == 15);
    assert("session_hydration_checkpoints"@.len() == 29);
    assert("session_identity_correlations"@.len() == 29);
    assert("delete_session_presences"@.len() == 24);
    assert("delete_session_hydration_state"@.len() == 30);
    assert("delete_session_identity_correlations"@.len() == 36);
    assert("schema_migrations"@.len() == 17);
    assert("sessions"@.len() == 8);
    assert("session_presences"@.len() == 17);
}

proof fn lemma_tables_are_created(found: Shape)
    requires
        is_consistent(found),
    ensures
        ({
            let shape = after_steps(migrations::table_steps(), found);
            &&& first_objects().subset_of(shape.objects)
            &&& is_consistent(shape)
        }),
{
    let steps = migrations::table_steps();
    let one = after_script(MigrationScript::Evidence, found);
    let two = after_script(MigrationScript::Relationships, one);
    let three = after_script(MigrationScript::Catalog, two);
    lemma_set_aside_is_apart();
    assert(after_steps(steps, found) == three) by {
        reveal_with_fuel(after_steps, 4);
        assert(steps.drop_last().last() == steps[1]);
        assert(steps.drop_last().drop_last().last() == steps[0]);
    }
    assert(first_objects().subset_of(three.objects));
    assert(one.columns_at(relationships()) == found.columns_at(relationships()));
    assert(one.objects.contains(relationships()) == found.objects.contains(relationships()));
    assert(three.columns_at(relationships()) == two.columns_at(relationships()));
    if !found.objects.contains(relationships()) {
        assert(two.columns_at(relationships()) == names_of(REQUIRED_SESSION_RELATIONSHIP_COLUMNS));
    } else {
        let marker = "session_relationships_v2"@;
        assert(three.columns_at(relationships()) == found.columns_at(relationships()));
        assert(two.objects.contains("schema_migrations"@) == found.objects.contains(
            "schema_migrations"@,
        ));
        assert(three.migrations.contains(marker) ==> found.migrations.contains(marker));
        assert(three.migrations.contains(marker) ==> found.objects.contains("schema_migrations"@));
    }
}

proof fn lemma_relationships_are_reshaped(marked: bool, named: bool, shape: Shape)
    requires
        first_objects().subset_of(shape.objects),
        is_consistent(shape),
        marked == shape.migrations.contains("session_relationships_v2"@),
        named == shape.columns_at(relationships()).contains("relationship_uid"@),
    ensures
        ({
            let end = after_steps(migrations::relationship_steps(marked, named), shape);
            &&& first_objects().subset_of(end.objects)
            &&& shape.migrations.subset_of(end.migrations)
            &&& end.migrations.contains("session_relationships_v2"@)
            &&& names_of(REQUIRED_SESSION_RELATIONSHIP_COLUMNS).subset_of(
                end.columns_at(relationships()),
            )
            &&& end.columns_at("history"@) == shape.columns_at("history"@)
            &&& end.columns_at("sessions"@) == shape.columns_at("sessions"@)
            &&& end.columns_at("session_presences"@) == shape.columns_at("session_presences"@)
        }),
{
    let steps = migrations::relationship_steps(marked, named);
    let end = after_steps(steps, shape);
    lemma_set_aside_is_apart();
    if marked {
        assert(end == shape);
    } else if named {
        reveal_with_fuel(after_steps, 2);
        assert(end == shape.with_migration("session_relationships_v2"@));
    } else {
        let one = after_script(MigrationScript::SetAside, shape);
        let two = after_script(MigrationScript::Relationships, one);
        let three = after_script(MigrationScript::CarryOver, two);
        let four = after_script(MigrationScript::MarkRelationships, three);
        assert(end == four) by {
            reveal_with_fuel(after_steps, 7);
            let a = steps.drop_last();
            let b = a.drop_last();
            let c = b.drop_last();
            let d = c.drop_last();
            let e = d.drop_last();
            assert(a.last() == steps[4] && b.last() == steps[3] && c.last() == steps[2]
                && d.last() == steps[1] && e.last() == steps[0]);
        }
        assert(!one.objects.contains(relationships()));
        assert forall|name: Seq<char>| #[trigger] first_objects().contains(
            name,
        ) implies end.objects.contains(name) by {
            assert(shape.objects.contains(name));
            assert(name != set_aside());
        }
    }
}

/// Whether a shape has the names that a reader or a writer asks for.
pub open spec fn has_names(shape: Shape) -> bool {
    &&& names_of(REQUIRED_TABLES).subset_of(shape.objects)
    &&& names_of(REQUIRED_TRIGGERS).subset_of(shape.objects)
    &&& names_of(REQUIRED_SCHEMA_MIGRATIONS).subset_of(shape.migrations)
    &&& names_of(REQUIRED_HISTORY_COLUMNS).subset_of(shape.columns_at("history"@))
    &&& names_of(REQUIRED_SESSIONS_COLUMNS).subset_of(shape.columns_at("sessions"@))
    &&& names_of(REQUIRED_SESSION_PRESENCE_COLUMNS).subset_of(
        shape.columns_at("session_presences"@),
    )
    &&& names_of(REQUIRED_SESSION_RELATIONSHIP_COLUMNS).subset_of(
        shape.columns_at(relationships()),
    )
    &&& names_of(REQUIRED_INDEXES).subset_of(shape.indexes.dom())
    &&& names_of(RETIRED_INDEXES).disjoint(shape.indexes.dom())
}

proof fn lemma_names_are_in<const N: usize>(need: [&'static str; N], names: Set<Seq<char>>)
    requires
        forall|i: int| 0 <= i < N ==> names.contains((#[trigger] need@[i])@),
    ensures
        names_of(need).subset_of(names),
{
    assert forall|name: Seq<char>| #[trigger] names_of(need).contains(name) implies names.contains(
        name,
    ) by {
        let i = choose|i: int| 0 <= i < N && (#[trigger] need@[i])@ == name;
        assert(names.contains(need@[i]@));
    }
}

proof fn lemma_content_is_brought_up(base: Shape, state: MigrationState)
    requires
        first_objects().subset_of(base.objects),
        is_consistent(base),
        is_read_of(state, base),
    ensures
        ({
            let end = after_steps(migrations::content_steps(state), base);
            &&& first_objects().subset_of(end.objects)
            &&& end.migrations.contains("session_relationships_v2"@)
            &&& end.migrations.contains("session_presences_local_backfill_v1"@)
            &&& names_of(REQUIRED_HISTORY_COLUMNS).subset_of(end.columns_at("history"@))
            &&& names_of(REQUIRED_SESSIONS_COLUMNS).subset_of(end.columns_at("sessions"@))
            &&& names_of(REQUIRED_SESSION_PRESENCE_COLUMNS).subset_of(
                end.columns_at("session_presences"@),
            )
            &&& names_of(REQUIRED_SESSION_RELATIONSHIP_COLUMNS).subset_of(
                end.columns_at(relationships()),
            )
        }),
{
    lemma_set_aside_is_apart();
    let reshape = migrations::relationship_steps(
        state.relationships_marked,
        state.relationships_named,
    );
    let history = migrations::column_steps(
        "history",
        text::views(state.history_columns@),
        REQUIRED_HISTORY_COLUMNS,
        2,
    );
    let sessions = migrations::column_steps(
        "sessions",
        text::views(state.session_columns@),
        REQUIRED_SESSIONS_COLUMNS,
        9,
    );
    let presences = migrations::column_steps(
        "session_presences",
        text::views(state.presence_columns@),
        REQUIRED_SESSION_PRESENCE_COLUMNS,
        3,
    );
    let backfill: Seq<MigrationStep> = if state.presences_marked {
        Seq::empty()
    } else {
        seq![MigrationStep::Batch(MigrationScript::Backfill)]
    };
    let one = after_steps(reshape, base);
    let two = after_steps(history, one);
    let three = after_steps(sessions, two);
    let four = after_steps(presences, three);
    let five = after_steps(backfill, four);
    lemma_steps_follow(reshape, history, base);
    lemma_steps_follow(reshape + history, sessions, base);
    lemma_steps_follow(reshape + history + sessions, presences, base);
    lemma_steps_follow(reshape + history + sessions + presences, backfill, base);
    assert(after_steps(migrations::content_steps(state), base) == five);
    lemma_relationships_are_reshaped(state.relationships_marked, state.relationships_named, base);
    lemma_columns_are_added(
        "history",
        text::views(state.history_columns@),
        REQUIRED_HISTORY_COLUMNS,
        2,
        one,
    );
    lemma_names_are_in(REQUIRED_HISTORY_COLUMNS, two.columns_at("history"@));
    lemma_other_columns_stay(
        "history",
        "sessions",
        text::views(state.history_columns@),
        REQUIRED_HISTORY_COLUMNS,
        2,
        one,
    );
    lemma_other_columns_stay(
        "history",
        "session_presences",
        text::views(state.history_columns@),
        REQUIRED_HISTORY_COLUMNS,
        2,
        one,
    );
    lemma_columns_are_added(
        "sessions",
        text::views(state.session_columns@),
        REQUIRED_SESSIONS_COLUMNS,
        9,
        two,
    );
    lemma_names_are_in(REQUIRED_SESSIONS_COLUMNS, three.columns_at("sessions"@));
    lemma_other_columns_stay(
        "sessions",
        "session_presences",
        text::views(state.session_columns@),
        REQUIRED_SESSIONS_COLUMNS,
        9,
        two,
    );
    lemma_columns_are_added(
        "session_presences",
        text::views(state.presence_columns@),
        REQUIRED_SESSION_PRESENCE_COLUMNS,
        3,
        three,
    );
    lemma_names_are_in(REQUIRED_SESSION_PRESENCE_COLUMNS, four.columns_at("session_presences"@));
    lemma_steps_grow(backfill, four);
    assert(two.columns_at("history"@).subset_of(three.columns_at("history"@)));
    assert(three.columns_at("history"@).subset_of(four.columns_at("history"@)));
    assert(four.columns_at("history"@).subset_of(five.columns_at("history"@)));
    assert(three.columns_at("sessions"@).subset_of(four.columns_at("sessions"@)));
    assert(four.columns_at("sessions"@).subset_of(five.columns_at("sessions"@)));
    assert(four.columns_at("session_presences"@).subset_of(five.columns_at("session_presences"@)));
    assert(one.columns_at(relationships()).subset_of(two.columns_at(relationships())));
    assert(two.columns_at(relationships()).subset_of(three.columns_at(relationships())));
    assert(three.columns_at(relationships()).subset_of(four.columns_at(relationships())));
    assert(four.columns_at(relationships()).subset_of(five.columns_at(relationships())));
    if !state.presences_marked {
        reveal_with_fuel(after_steps, 2);
        assert(five == four.with_migration("session_presences_local_backfill_v1"@));
    }
}

proof fn lemma_plan_leads_to_the_names(base: Shape, state: MigrationState)
    requires
        first_objects().subset_of(base.objects),
        is_consistent(base),
        is_read_of(state, base),
    ensures
        has_names(after_steps(migrations::plan_of(state), base)),
{
    let content = migrations::content_steps(state);
    let first = migrations::index_steps(FIRST_INDEXES, 6);
    let dropped = migrations::drop_steps(8);
    let later = migrations::index_steps(LATER_INDEXES, 18);
    let owned = seq![MigrationStep::Observations, MigrationStep::Delivery];
    let one = after_steps(content, base);
    let two = after_steps(first, one);
    let three = after_steps(dropped, two);
    let four = after_steps(later, three);
    let end = after_steps(owned, four);
    lemma_steps_follow(content, first, base);
    lemma_steps_follow(content + first, dropped, base);
    lemma_steps_follow(content + first + dropped, later, base);
    lemma_steps_follow(content + first + dropped + later, owned, base);
    assert(after_steps(migrations::plan_of(state), base) == end);
    lemma_content_is_brought_up(base, state);
    lemma_indexes_are_created(FIRST_INDEXES, 6, one);
    lemma_indexes_are_dropped(8, two);
    lemma_indexes_are_created(LATER_INDEXES, 18, three);
    assert(end == four.with_objects(delivery_objects()).with_migration("delivery_v1"@)) by {
        reveal_with_fuel(after_steps, 3);
        assert(owned.drop_last().last() == owned[0]);
    }
    lemma_grows_to(one, two, three);
    lemma_grows_to(one, three, four);
    assert(end.indexes == four.indexes);
    assert forall|table: Seq<char>| one.columns_at(table).subset_of(
        #[trigger] end.columns_at(table),
    ) by {
        assert(one.columns_at(table).subset_of(four.columns_at(table)));
    }
    assert(one.columns_at("history"@).subset_of(end.columns_at("history"@)));
    assert(one.columns_at("sessions"@).subset_of(end.columns_at("sessions"@)));
    assert(one.columns_at("session_presences"@).subset_of(end.columns_at("session_presences"@)));
    assert(one.columns_at(relationships()).subset_of(end.columns_at(relationships())));
    lemma_names_are_in(REQUIRED_SCHEMA_MIGRATIONS, end.migrations);
    assert(first_objects().subset_of(end.objects));
    assert(delivery_objects().subset_of(end.objects));
    lemma_required_objects(end);
    assert forall|k: int| 0 <= k < 11 implies end.indexes.dom().contains(
        (#[trigger] REQUIRED_INDEXES@[k])@,
    ) by {
        let place = migrations::place_of_index(k);
        assert(LATER_INDEXES@[place].0@ == REQUIRED_INDEXES@[k]@);
    }
    lemma_names_are_in(REQUIRED_INDEXES, end.indexes.dom());
    assert forall|name: Seq<char>| #[trigger] names_of(RETIRED_INDEXES).contains(
        name,
    ) implies !end.indexes.dom().contains(name) by {
        let k = choose|k: int| 0 <= k < 8 && (#[trigger] RETIRED_INDEXES@[k])@ == name;
        assert(!three.indexes.dom().contains(RETIRED_INDEXES@[k]@));
        if four.indexes.dom().contains(name) {
            let i = choose|i: int| 0 <= i < 18 && (#[trigger] LATER_INDEXES@[i]).0@ == name;
            migrations::lemma_later_indexes_are_not_retired(i, k);
        }
    }
}

proof fn lemma_grows_to(a: Shape, b: Shape, c: Shape)
    requires
        grows(a, b),
        grows(b, c),
    ensures
        grows(a, c),
{
    assert forall|table: Seq<char>| a.columns_at(table).subset_of(
        #[trigger] c.columns_at(table),
    ) by {
        assert(a.columns_at(table).subset_of(b.columns_at(table)));
    }
}

proof fn lemma_required_objects(shape: Shape)
    requires
        first_objects().subset_of(shape.objects),
        delivery_objects().subset_of(shape.objects),
    ensures
        names_of(REQUIRED_TABLES).subset_of(shape.objects),
        names_of(REQUIRED_TRIGGERS).subset_of(shape.objects),
{
    let all = first_objects().union(delivery_objects());
    assert forall|i: int| 0 <= i < 27 implies shape.objects.contains(
        (#[trigger] REQUIRED_TABLES@[i])@,
    ) by {
        assert(all.contains(REQUIRED_TABLES@[i]@));
    }
    assert forall|i: int| 0 <= i < 3 implies shape.objects.contains(
        (#[trigger] REQUIRED_TRIGGERS@[i])@,
    ) by {
        assert(first_objects().contains(REQUIRED_TRIGGERS@[i]@));
    }
    lemma_names_are_in(REQUIRED_TABLES, shape.objects);
    lemma_names_are_in(REQUIRED_TRIGGERS, shape.objects);
}

proof fn lemma_other_columns_stay<const N: usize>(
    table: &'static str,
    other: &'static str,
    existing: Seq<Seq<char>>,
    required: [&'static str; N],
    n: int,
    shape: Shape,
)
    requires
        table@ != other@,
    ensures
        after_steps(
            migrations::column_steps(table, existing, required, n),
            shape,
        ).columns_at(other@) == shape.columns_at(other@),
    decreases n,
{
    if n > 0 {
        let steps = migrations::column_steps(table, existing, required, n);
        let fewer = migrations::column_steps(table, existing, required, n - 1);
        lemma_other_columns_stay(table, other, existing, required, n - 1, shape);
        if !existing.contains(required@[n - 1]@) {
            assert(steps.drop_last() =~= fewer);
        }
    }
}

proof fn lemma_names_are_held<const N: usize>(
    list: Seq<Seq<char>>,
    names: Set<Seq<char>>,
    need: [&'static str; N],
)
    requires
        holds_set(list, names),
        names_of(need).subset_of(names),
    ensures
        schema::holds_all(list, need),
{
    assert forall|i: int| 0 <= i < N implies list.contains((#[trigger] need@[i])@) by {
        assert(names_of(need).contains(need@[i]@));
    }
}

/// A migration that is run to its end leads to the shape that every reader and every
/// writer needs: from whatever was found, as long as what it records of the relationships
/// holds, and with the plan that is made from what is read once the tables are there. The
/// database has the tables, the triggers, the records, the columns and the indexes that
/// are asked for, and none of the retired indexes, and it opens for reading.
pub proof fn law_migration_leads_to_the_required_shape(
    found: Shape,
    state: MigrationState,
    names: SchemaNames,
)
    requires
        is_consistent(found),
        is_read_of(state, after_steps(migrations::table_steps(), found)),
        shows(
            names,
            after_steps(
                migrations::plan_of(state),
                after_steps(migrations::table_steps(), found),
            ),
        ),
    ensures
        schema::has_shape(names),
        schema::holds_all(text::views(names.indexes@), REQUIRED_INDEXES),
        !schema::holds_any(text::views(names.indexes@), RETIRED_INDEXES),
        session_store::serves(schema::reads_of(names, true)),
{
    let base = after_steps(migrations::table_steps(), found);
    let end = after_steps(migrations::plan_of(state), base);
    let indexes = text::views(names.indexes@);
    lemma_tables_are_created(found);
    lemma_plan_leads_to_the_names(base, state);
    lemma_names_are_held(text::views(names.objects@), end.objects, REQUIRED_TABLES);
    lemma_names_are_held(text::views(names.objects@), end.objects, REQUIRED_TRIGGERS);
    lemma_names_are_held(
        text::views(names.migrations@),
        end.migrations,
        REQUIRED_SCHEMA_MIGRATIONS,
    );
    lemma_names_are_held(
        text::views(names.history_columns@),
        end.columns_at("history"@),
        REQUIRED_HISTORY_COLUMNS,
    );
    lemma_names_are_held(
        text::views(names.session_columns@),
        end.columns_at("sessions"@),
        REQUIRED_SESSIONS_COLUMNS,
    );
    lemma_names_are_held(
        text::views(names.presence_columns@),
        end.columns_at("session_presences"@),
        REQUIRED_SESSION_PRESENCE_COLUMNS,
    );
    lemma_names_are_held(
        text::views(names.relationship_columns@),
        end.columns_at(relationships()),
        REQUIRED_SESSION_RELATIONSHIP_COLUMNS,
    );
    lemma_names_are_held(text::views(names.indexes@), end.indexes.dom(), REQUIRED_INDEXES);
    assert forall|k: int| 0 <= k < 8 implies !indexes.contains(
        (#[trigger] RETIRED_INDEXES@[k])@,
    ) by {
        assert(names_of(RETIRED_INDEXES).contains(RETIRED_INDEXES@[k]@));
    }
    schema::law_current_database_opens_for_reading(names);
}

} // verus!
