//! What is found by what it is asked for.
use crate::evidence;
use crate::evidence::{select_kinds, SessionQuery};
use crate::json;
use crate::json::JsonValue;
use crate::session_store::{Error, SessionLookup, SessionRef, SessionStore};
use crate::source_evidence::EvidenceKind;
use crate::source_intake::{snapshot_of_events, RecordSnapshot};
use crate::sources;
use crate::sources::{Connector, SourceRegistry};
use crate::storage;
use crate::storage::{latest_history_for_session, session_project};
use crate::store;
use crate::store::{shell_quote, HistoryEntry, SourceNames};
use crate::text;
use vstd::prelude::*;
use vstd::string::*;

verus! {

/// Whether a row of the history is one of a session's.
pub open spec fn is_of(row: HistoryEntry, source: &str, session: &str) -> bool {
    row.source@ == source@ && row.session_id is Some && row.session_id->0@ == session@
}

/// The prompt that is found as the newest of a session is one of that session, and none of
/// the session has a higher number.
pub proof fn law_newest_prompt_is_found(
    rows: Vec<HistoryEntry>,
    source: &str,
    session: &str,
    found: usize,
    i: int,
)
    requires
        call_ensures(latest_history_for_session, (&rows, source, session), Some(found)),
        0 <= i < rows@.len(),
        is_of(rows@[i], source, session),
    ensures
        found < rows@.len(),
        is_of(rows@[found as int], source, session),
        rows@[i].id <= rows@[found as int].id,
{
}

/// Whether a text holds more than spaces.
pub open spec fn holds_more_than_spaces(words: Seq<char>) -> bool {
    exists|i: int| 0 <= i < words.len() && #[trigger] words[i] != ' '
}

/// Whether a row of the history says which project a session is of.
pub open spec fn tells_project(row: HistoryEntry, source: &str, session: &str) -> bool {
    is_of(row, source, session) && row.project is Some && holds_more_than_spaces(row.project->0@)
}

/// The project of a session is what the first row that says one says, and none where no row
/// of the session says one.
pub proof fn law_project_is_the_first_that_is_told(
    rows: Vec<HistoryEntry>,
    source: &str,
    session: &str,
    found: Option<String>,
)
    requires
        call_ensures(session_project, (&rows, source, session), found),
    ensures
        found is None ==> forall|i: int|
            0 <= i < rows@.len() ==> !tells_project(#[trigger] rows@[i], source, session),
        found matches Some(project) ==> exists|i: int|
            0 <= i < rows@.len() && tells_project(#[trigger] rows@[i], source, session)
                && rows@[i].project->0@ == project@ && forall|j: int|
                0 <= j < i ==> !tells_project(#[trigger] rows@[j], source, session),
{
    assert forall|i: int| 0 <= i < rows@.len() implies tells_project(
        #[trigger] rows@[i],
        source,
        session,
    ) == storage::names_project(rows@[i], source@, session@) by {}
    if let Some(project) = found {
        let i = choose|i: int|
            0 <= i < rows@.len() && storage::names_project(
                #[trigger] rows@[i],
                source@,
                session@,
            ) && rows@[i].project == Some(project) && forall|j: int|
                0 <= j < i ==> !storage::names_project(
                    #[trigger] rows@[j],
                    source@,
                    session@,
                );
        assert(tells_project(rows@[i], source, session));
    }
}

/// An adapter that was installed is found last of those installed, the others as they were,
/// and a second of the same source, place, name and instance is refused and changes nothing.
pub proof fn law_adapter_is_installed_once(
    first: &mut SourceRegistry,
    again: &mut SourceRegistry,
    connector: Connector,
    other: Connector,
    fault: Option<String>,
    installed: Result<(), String>,
    repeated: Result<(), String>,
)
    requires
        call_ensures(SourceRegistry::register, (first, connector, &None::<String>), installed),
        *old(again) == *final(first),
        call_ensures(SourceRegistry::register, (again, other, &fault), repeated),
    ensures
        installed is Ok ==> final(first).connectors@ == old(first).connectors@.push(connector),
        installed is Err ==> final(first).connectors@ == old(first).connectors@,
        other.source@ == connector.source@ && other.location == connector.location
            && other.connector_id@ == connector.connector_id@ && other.connector_instance@
            == connector.connector_instance@ ==> repeated is Err && final(again).connectors@
            == old(again).connectors@,
        fault is Some ==> repeated is Err && final(again).connectors@ == old(again).connectors@,
{
    if sources::same_connector(connector, other) {
        let held = old(again).connectors@;
        if installed is Ok {
            assert(held[held.len() - 1] == connector);
            assert(sources::same_connector(held[held.len() - 1], other));
        } else {
            let i = choose|i: int|
                0 <= i < held.len() && sources::same_connector(
                    #[trigger] held[i],
                    connector,
                );
            assert(sources::same_connector(held[i], other));
        }
        assert(sources::is_installed(held, other));
    }
}

/// A read loads a kind if the source covers it and the query asks for it, or asks for no kind
/// in particular; and no other.
pub proof fn law_read_loads_what_is_asked_for(
    coverage: Vec<EvidenceKind>,
    query: SessionQuery,
    loaded: Vec<EvidenceKind>,
    kind: EvidenceKind,
)
    requires
        call_ensures(select_kinds, (&coverage, &query), loaded),
    ensures
        loaded@.contains(kind) <==> coverage@.contains(kind) && match query.kinds {
            None => true,
            Some(kinds) => kinds@.contains(kind),
        },
{
    evidence::law_loaded_is_covered_and_asked_for(coverage@, query.kinds, kind);
}

/// A shell reads a quoted value as one word, and as what it was.
pub proof fn law_quoted_value_is_one_word(value: &str, word: String)
    requires
        call_ensures(shell_quote, (value,), word),
    ensures
        store::shell_reads(word@, false) == Some(value@),
{
    store::law_shell_reads_the_value_back(value@);
}

/// What a snapshot of events holds under a name, where that is a list.
pub open spec fn list_under(payload: JsonValue, name: &str) -> Option<Seq<json::JsonTree>> {
    match json::field(payload@, name@) {
        Some(json::JsonTree::Array(items)) => Some(items),
        _ => None,
    }
}

/// A snapshot of events is read if it lists its events, each of them an object, and the
/// events that it owns. Then each of its events is a record of an event, as it was written,
/// and it is owned if its identifier is listed.
pub proof fn law_snapshot_of_events_is_read(
    payload: JsonValue,
    read: Result<RecordSnapshot, String>,
)
    requires
        call_ensures(snapshot_of_events, (&payload,), read),
    ensures
        read is Ok <==> list_under(payload, "managed") is Some && (list_under(
            payload,
            "events",
        ) matches Some(events) && forall|i: int|
            0 <= i < events.len() ==> (#[trigger] events[i]) is Object),
        read matches Ok(snapshot) ==> {
            let events = list_under(payload, "events")->0;
            let owned = list_under(payload, "managed")->0;
            &&& snapshot.records@.len() == events.len()
            &&& forall|i: int|
                0 <= i < events.len() ==> {
                    let record = #[trigger] snapshot.records@[i];
                    &&& record.record@.kind == EvidenceKind::SessionEvent
                    &&& events[i] == json::JsonTree::Object(record.record@.payload)
                    &&& forall|k: int|
                        0 <= k < owned.len() && json::field(events[i], "event_uid"@) is Some
                            && json::json_equal(
                            #[trigger] owned[k],
                            json::field(events[i], "event_uid"@)->0,
                        ) ==> record.managed
                    &&& owned.len() == 0 ==> !record.managed
                    &&& record.managed && json::field(events[i], "event_uid"@) is Some
                        ==> exists|k: int|
                        0 <= k < owned.len() && json::json_equal(
                            #[trigger] owned[k],
                            json::field(events[i], "event_uid"@)->0,
                        )
                }
        },
{
}

/// A reference is looked up by what it names: an identifier as that identifier, a path as
/// that path, and a path only where a session of its source can be named by one.
pub proof fn law_reference_is_looked_up_as_it_is<R>(
    store: SessionStore<R>,
    names: SourceNames,
    reference: SessionRef,
    harnesses: Vec<String>,
    found: Result<SessionLookup, Error>,
)
    requires
        call_ensures(
            SessionStore::<R>::session_lookup,
            (&store, &names, &reference, &harnesses),
            found,
        ),
    ensures
        reference matches SessionRef::Id { session_id, .. } ==> (found matches Ok(lookup)
            && lookup is ById && lookup->ById_session_id@ == session_id@),
        reference matches SessionRef::Path { path, .. } ==> (found matches Ok(lookup)
            ==> lookup is ByPath && lookup->ByPath_path@ == path@),
        reference is Path && harnesses@.len() == 0 ==> found is Err,
{
    assert(text::views(harnesses@).len() == harnesses@.len());
}

} // verus!
