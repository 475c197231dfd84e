//! What a database must hold for a store to open it, call by call.
use crate::schema;
use crate::schema::{
    SchemaNames, REQUIRED_HISTORY_COLUMNS, REQUIRED_INDEXES, REQUIRED_SCHEMA_MIGRATIONS,
    REQUIRED_SCOPE_READ_INDEXES, REQUIRED_SESSIONS_COLUMNS, REQUIRED_SESSION_PRESENCE_COLUMNS,
    REQUIRED_SESSION_RELATIONSHIP_COLUMNS, REQUIRED_TABLES, REQUIRED_TRIGGERS, RETIRED_INDEXES,
};
use crate::text;
use vstd::prelude::*;
use vstd::string::*;

verus! {

/// Whether a name is on a list.
pub open spec fn is_there(list: Seq<String>, name: Seq<char>) -> bool {
    exists|i: int| 0 <= i < list.len() && (#[trigger] list[i])@ == name
}

/// Whether some names are on a list, all of them.
pub open spec fn are_there<const N: usize>(list: Seq<String>, names: [&'static str; N]) -> bool {
    forall|i: int| 0 <= i < N ==> is_there(list, (#[trigger] names@[i])@)
}

/// Whether one of some names is on a list.
pub open spec fn is_one_there<const N: usize>(list: Seq<String>, names: [&'static str; N]) -> bool {
    exists|i: int| 0 <= i < N && is_there(list, (#[trigger] names@[i])@)
}

/// Whether a database has what every reader needs: its tables and triggers, the
/// migrations, and the columns.
pub open spec fn is_shaped(names: SchemaNames) -> bool {
    &&& are_there(names.objects@, REQUIRED_TABLES)
    &&& are_there(names.objects@, REQUIRED_TRIGGERS)
    &&& are_there(names.migrations@, REQUIRED_SCHEMA_MIGRATIONS)
    &&& are_there(names.history_columns@, REQUIRED_HISTORY_COLUMNS)
    &&& are_there(names.session_columns@, REQUIRED_SESSIONS_COLUMNS)
    &&& are_there(names.presence_columns@, REQUIRED_SESSION_PRESENCE_COLUMNS)
    &&& are_there(names.relationship_columns@, REQUIRED_SESSION_RELATIONSHIP_COLUMNS)
}

proof fn lemma_there(list: Seq<String>, name: Seq<char>)
    ensures
        text::views(list).contains(name) == is_there(list, name),
{
    let all = text::views(list);
    if all.contains(name) {
        let i = choose|i: int| 0 <= i < all.len() && all[i] == name;
        assert(list[i]@ == name);
    }
    if is_there(list, name) {
        let i = choose|i: int| 0 <= i < list.len() && (#[trigger] list[i])@ == name;
        assert(all[i] == name);
    }
}

proof fn lemma_all_there<const N: usize>(list: Seq<String>, names: [&'static str; N])
    ensures
        schema::holds_all(text::views(list), names) == are_there(list, names),
        schema::holds_any(text::views(list), names) == is_one_there(list, names),
{
    assert forall|i: int| 0 <= i < N implies text::views(list).contains((#[trigger] names@[i])@)
        == is_there(list, names@[i]@) by {
        lemma_there(list, names@[i]@);
    }
}

proof fn lemma_shaped(names: SchemaNames)
    ensures
        schema::has_shape(names) == is_shaped(names),
{
    lemma_all_there(names.objects@, REQUIRED_TABLES);
    lemma_all_there(names.objects@, REQUIRED_TRIGGERS);
    lemma_all_there(names.migrations@, REQUIRED_SCHEMA_MIGRATIONS);
    lemma_all_there(names.history_columns@, REQUIRED_HISTORY_COLUMNS);
    lemma_all_there(names.session_columns@, REQUIRED_SESSIONS_COLUMNS);
    lemma_all_there(names.presence_columns@, REQUIRED_SESSION_PRESENCE_COLUMNS);
    lemma_all_there(names.relationship_columns@, REQUIRED_SESSION_RELATIONSHIP_COLUMNS);
}

/// A reader opens a database exactly where it has what every reader needs and the indexes
/// that the read goes by: nothing missing passes, and nothing else is asked for.
pub proof fn law_reader_opens_a_complete_database<const N: usize>(
    names: SchemaNames,
    indexes: [&'static str; N],
    ready: bool,
)
    requires
        call_ensures(SchemaNames::schema_has_required_indexes::<N>, (&names, indexes), ready),
    ensures
        ready <==> is_shaped(names) && are_there(names.indexes@, indexes),
{
    lemma_shaped(names);
    lemma_all_there(names.indexes@, indexes);
}

/// An open migrates exactly where something that the database must hold is missing, or an
/// index that nothing reads is left over.
pub proof fn law_incomplete_database_is_migrated(
    names: SchemaNames,
    delivery: bool,
    observations: bool,
    current: bool,
    migrates: bool,
)
    requires
        call_ensures(SchemaNames::schema_is_current, (&names, delivery, observations), current),
        call_ensures(SchemaNames::needs_migration, (&names, delivery, observations), migrates),
    ensures
        current <==> is_shaped(names) && are_there(names.indexes@, REQUIRED_INDEXES) && delivery
            && observations,
        migrates <==> !current || is_one_there(names.indexes@, RETIRED_INDEXES),
{
    lemma_shaped(names);
    lemma_all_there(names.indexes@, REQUIRED_INDEXES);
    lemma_all_there(names.indexes@, RETIRED_INDEXES);
}

/// A database that is current can be read.
pub proof fn law_current_database_can_be_read(
    names: SchemaNames,
    delivery: bool,
    observations: bool,
    current: bool,
    readable: bool,
)
    requires
        call_ensures(SchemaNames::schema_is_current, (&names, delivery, observations), current),
        call_ensures(SchemaNames::schema_is_read_current, (&names,), readable),
    ensures
        current ==> readable,
        readable <==> is_shaped(names) && are_there(names.indexes@, REQUIRED_SCOPE_READ_INDEXES),
{
    lemma_shaped(names);
    lemma_all_there(names.indexes@, REQUIRED_INDEXES);
    lemma_all_there(names.indexes@, REQUIRED_SCOPE_READ_INDEXES);
    if current {
        assert(is_there(names.indexes@, REQUIRED_INDEXES@[7]@));
        assert(REQUIRED_SCOPE_READ_INDEXES@[0]@ == REQUIRED_INDEXES@[7]@);
    }
}

} // verus!
