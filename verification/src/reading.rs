//! What a read of a session gives back of what is stored of it.
use crate::catalog::ShallowSession;
use crate::evidence;
use crate::evidence::{session_evidence, SessionEvidence, SessionQuery, SessionTables};
use crate::session_store::Source;
use crate::source_evidence::EvidenceKind;
use crate::store::{SessionEvent, SourceNames};
use vstd::prelude::*;
use vstd::string::*;

verus! {

/// Whether a read gives a kind of evidence: the source covers it, and the query names it or
/// names none.
pub open spec fn gives(coverage: Seq<EvidenceKind>, query: SessionQuery, kind: EvidenceKind) -> bool {
    coverage.contains(kind) && (query.kinds is None || query.kinds->0@.contains(kind))
}

/// Whether a place is that of a tool result.
pub open spec fn is_result(events: Seq<SessionEvent>, i: int) -> bool {
    0 <= i < events.len() && events[i].kind@ == "tool_result"@
}

proof fn lemma_results(events: Seq<SessionEvent>, n: int)
    requires
        0 <= n <= events.len(),
    ensures
        ({
            let places = evidence::result_places(events, n);
            &&& forall|x: int|
                0 <= x < places.len() ==> #[trigger] places[x] < n && is_result(events, places[x])
            &&& forall|x: int, y: int|
                0 <= x < y < places.len() ==> #[trigger] places[x] < #[trigger] places[y]
            &&& forall|i: int| i < n && #[trigger] is_result(events, i) ==> places.contains(i)
        }),
    decreases n,
{
    if n > 0 {
        lemma_results(events, n - 1);
        let before = evidence::result_places(events, n - 1);
        let all = evidence::result_places(events, n);
        assert forall|i: int| i < n && #[trigger] is_result(events, i) implies all.contains(i) by {
            if i < n - 1 {
                let x = choose|x: int| 0 <= x < before.len() && before[x] == i;
                assert(all[x] == i);
            } else {
                assert(all[before.len() as int] == i);
            }
        }
    }
}

/// A read gives every stored row of a kind that it gives, in the stored order, and nothing
/// of any other kind. It says which kinds it gave and which the source covers.
pub proof fn law_read_gives_what_is_stored<T>(
    source: Source,
    names: SourceNames,
    row: ShallowSession,
    query: SessionQuery,
    coverage: Vec<EvidenceKind>,
    tables: SessionTables<T>,
    controls: Vec<String>,
    given: SessionEvidence<T>,
    i: int,
    kind: EvidenceKind,
)
    requires
        call_ensures(
            session_evidence::<T>,
            (source, &names, row, &query, &coverage, tables, &controls),
            Ok(given),
        ),
    ensures
        given.coverage@ == coverage@,
        given.loaded@.contains(kind) <==> gives(coverage@, query, kind),
        given.include_text == query.include_text,
        given.prompts@.len() == if gives(coverage@, query, EvidenceKind::History) {
            tables.prompts@.len()
        } else {
            0
        },
        0 <= i < given.prompts@.len() ==> {
            &&& given.prompts@[i].timestamp_ms == tables.prompts@[i].timestamp_ms
            &&& given.prompts@[i].prompt_bytes == tables.prompts@[i].prompt_bytes
            &&& given.prompts@[i].project == tables.prompts@[i].project
            &&& query.include_text ==> given.prompts@[i].prompt == tables.prompts@[i].prompt
            &&& !query.include_text ==> given.prompts@[i].prompt is None
            &&& tables.prompts@[i].prompt_hash is Some ==> given.prompts@[i].prompt_hash is Some
                && given.prompts@[i].prompt_hash->0@ == tables.prompts@[i].prompt_hash->0@
        },
        given.tool_calls@.len() == if gives(coverage@, query, EvidenceKind::ToolCall) {
            tables.tool_calls@.len()
        } else {
            0
        },
        0 <= i < given.tool_calls@.len() ==> {
            &&& given.tool_calls@[i].tool_use_id == tables.tool_calls@[i].tool_use_id
            &&& given.tool_calls@[i].message_id == tables.tool_calls@[i].message_id
            &&& given.tool_calls@[i].name == tables.tool_calls@[i].name
            &&& given.tool_calls@[i].target == tables.tool_calls@[i].target
            &&& given.tool_calls@[i].args_json == tables.tool_calls@[i].args_json
            &&& given.tool_calls@[i].ts_ms == tables.tool_calls@[i].ts_ms
            &&& given.tool_calls@[i].is_error == Some(true) <==> tables.tool_calls@[i].is_error
                is Some && tables.tool_calls@[i].is_error->0 != 0
        },
        given.file_edits@.len() == if gives(coverage@, query, EvidenceKind::FileEdit) {
            tables.file_edits@.len()
        } else {
            0
        },
        0 <= i < given.file_edits@.len() ==> {
            &&& given.file_edits@[i].tool_use_id == tables.file_edits@[i].tool_use_id
            &&& given.file_edits@[i].file_path == tables.file_edits@[i].file_path
            &&& given.file_edits@[i].tool_name == tables.file_edits@[i].tool_name
            &&& given.file_edits@[i].lines_added == tables.file_edits@[i].lines_added
            &&& given.file_edits@[i].lines_removed == tables.file_edits@[i].lines_removed
            &&& given.file_edits@[i].ts_ms == tables.file_edits@[i].ts_ms
            &&& given.file_edits@[i].structured_patch_json
                == tables.file_edits@[i].structured_patch_json
        },
        given.markers@.len() == if gives(coverage@, query, EvidenceKind::SessionMarker) {
            tables.markers@.len()
        } else {
            0
        },
        0 <= i < given.markers@.len() ==> {
            &&& given.markers@[i].marker_uid == tables.markers@[i].marker_uid
            &&& given.markers@[i].kind == tables.markers@[i].kind
            &&& given.markers@[i].subkind == tables.markers@[i].subkind
            &&& given.markers@[i].ts_ms == tables.markers@[i].ts_ms
            &&& given.markers@[i].payload_json == tables.markers@[i].payload_json
            &&& query.include_text ==> given.markers@[i].text == tables.markers@[i].text
            &&& !query.include_text ==> given.markers@[i].text is None
        },
        given.relationships@.len() == if gives(coverage@, query, EvidenceKind::Relationship) {
            tables.graph.as_parent@.len() + tables.graph.as_child@.len()
                + tables.graph.continuity@.len()
        } else {
            0
        },
        gives(coverage@, query, EvidenceKind::SessionEvent) ==> given.user_turns
            == tables.user_turns,
        !gives(coverage@, query, EvidenceKind::SessionEvent) ==> given.messages@.len() == 0
            && given.tool_results@.len() == 0 && given.user_turns@.len() == 0
            && given.requests@.len() == 0 && given.usage is None,
{
    evidence::law_loaded_is_covered_and_asked_for(coverage@, query.kinds, kind);
    evidence::law_loaded_is_covered_and_asked_for(
        coverage@,
        query.kinds,
        EvidenceKind::History,
    );
    evidence::law_loaded_is_covered_and_asked_for(
        coverage@,
        query.kinds,
        EvidenceKind::ToolCall,
    );
    evidence::law_loaded_is_covered_and_asked_for(
        coverage@,
        query.kinds,
        EvidenceKind::FileEdit,
    );
    evidence::law_loaded_is_covered_and_asked_for(
        coverage@,
        query.kinds,
        EvidenceKind::SessionMarker,
    );
    evidence::law_loaded_is_covered_and_asked_for(
        coverage@,
        query.kinds,
        EvidenceKind::Relationship,
    );
    evidence::law_loaded_is_covered_and_asked_for(
        coverage@,
        query.kinds,
        EvidenceKind::SessionEvent,
    );
}

/// Every tool result of a session is given once, in the order of the events, with its text
/// where text was asked for.
pub proof fn law_read_gives_every_tool_result<T>(
    source: Source,
    names: SourceNames,
    row: ShallowSession,
    query: SessionQuery,
    coverage: Vec<EvidenceKind>,
    tables: SessionTables<T>,
    controls: Vec<String>,
    given: SessionEvidence<T>,
) -> (places: Seq<int>)
    requires
        call_ensures(
            session_evidence::<T>,
            (source, &names, row, &query, &coverage, tables, &controls),
            Ok(given),
        ),
        gives(coverage@, query, EvidenceKind::SessionEvent),
    ensures
        places.len() == given.tool_results@.len(),
        forall|x: int|
            0 <= x < places.len() ==> is_result(tables.events@, #[trigger] places[x]) && {
                let event = tables.events@[places[x]];
                &&& given.tool_results@[x].event_uid == event.event_uid
                &&& given.tool_results@[x].tool_use_id == event.tool_use_id
                &&& given.tool_results@[x].ts_ms == event.ts_ms
                &&& given.tool_results@[x].result_status == event.result_status
                &&& given.tool_results@[x].error_signal == event.error_signal
                &&& given.tool_results@[x].payload_bytes == event.payload_bytes
                &&& query.include_text ==> given.tool_results@[x].text == event.text
                &&& !query.include_text ==> given.tool_results@[x].text is None
            },
        forall|x: int, y: int|
            0 <= x < y < places.len() ==> #[trigger] places[x] < #[trigger] places[y],
        forall|i: int| #[trigger] is_result(tables.events@, i) ==> places.contains(i),
{
    evidence::law_loaded_is_covered_and_asked_for(
        coverage@,
        query.kinds,
        EvidenceKind::SessionEvent,
    );
    let n = tables.events@.len() as int;
    lemma_results(tables.events@, n);
    let places = evidence::result_places(tables.events@, n);
    assert forall|x: int| 0 <= x < places.len() implies is_result(
        tables.events@,
        #[trigger] places[x],
    ) && {
        let event = tables.events@[places[x]];
        &&& given.tool_results@[x].event_uid == event.event_uid
        &&& given.tool_results@[x].tool_use_id == event.tool_use_id
        &&& given.tool_results@[x].ts_ms == event.ts_ms
        &&& given.tool_results@[x].result_status == event.result_status
        &&& given.tool_results@[x].error_signal == event.error_signal
        &&& given.tool_results@[x].payload_bytes == event.payload_bytes
        &&& query.include_text ==> given.tool_results@[x].text == event.text
        &&& !query.include_text ==> given.tool_results@[x].text is None
    } by {
        let one = given.tool_results@[x];
    }
    places
}

} // verus!
