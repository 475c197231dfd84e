//! What is admitted to the store, and as what.
//!
//! Each law speaks of one call that checks what a connector sent: of what goes in, of
//! whether it is admitted, and of what comes out.
use crate::digest;
use crate::json;
use crate::json::JsonTree;
use crate::order;
use crate::selecting;
use crate::source_evidence;
use crate::source_evidence::{
    validate_records, EvidenceKind, EvidenceRecord, ObservationKey, RecordTree, TOOL_RESULT_FIELDS,
};
use crate::source_intake;
use crate::source_intake::{
    apply_source_observations, check_fence, restrict_related, validate, ApplyObservationsRequest,
    NormalizedSourceEvidence, ObservationView, SourceBatch, SourceObservation, SORTED_SOURCES,
};
use crate::store::{SessionLocation, SourceNames};
use crate::text;
use vstd::prelude::*;
use vstd::string::*;

verus! {

/// What a record holds under a name.
pub open spec fn held(record: RecordTree, name: Seq<char>) -> Option<JsonTree> {
    json::member(record.payload, name)
}

/// Whether a record holds a text under a name.
pub open spec fn holds_text(record: RecordTree, name: Seq<char>, text: Seq<char>) -> bool {
    held(record, name) == Some(JsonTree::Text(text))
}

/// Whether a record holds something under a name: a value that is not null.
pub open spec fn is_filled(record: RecordTree, name: Seq<char>) -> bool {
    match held(record, name) {
        Some(value) => !(value is Null),
        None => false,
    }
}

/// Whether a record holds a text under a name that is not empty.
pub open spec fn is_worded(record: RecordTree, name: Seq<char>) -> bool {
    match held(record, name) {
        Some(JsonTree::Text(text)) => text.len() > 0,
        _ => false,
    }
}

/// Whether a value is a whole number.
pub open spec fn is_whole(value: JsonTree) -> bool {
    json::signed_of(value) is Some
}

/// Whether a name is that of a column of whole numbers.
pub open spec fn is_counted(name: Seq<char>) -> bool {
    name == "timestamp_ms"@ || name == "ts_ms"@ || name == "lines_added"@ || name
        == "lines_removed"@ || name == "spawn_depth"@ || name == "spawned_at_ms"@ || name
        == "created_ms"@ || name == "updated_ms"@ || name == "created_at_ms"@ || name
        == "payload_bytes"@ || name == "call_index"@ || name == "event_index"@
}

/// Whether a name is that of a column of flags.
pub open spec fn is_flagged(name: Seq<char>) -> bool {
    name == "is_error"@ || name == "user_modified"@ || name == "child_has_events"@ || name
        == "payload_truncated"@ || name == "is_sidechain"@ || name == "is_meta"@
}

/// Whether a value can stand in a column: null anywhere, a number where numbers stand, a
/// flag where flags stand, and a text everywhere else.
pub open spec fn fits(name: Seq<char>, value: JsonTree) -> bool {
    ||| value is Null
    ||| name == "confidence"@ && value is Number
    ||| is_counted(name) && is_whole(value)
    ||| is_flagged(name) && (value is Bool || json::signed_of(value) == Some(0i64)
        || json::signed_of(value) == Some(1i64))
    ||| name != "confidence"@ && !is_counted(name) && !is_flagged(name) && value is Text
}

/// Whether every member of a record can be stored: under the name of a surrogate key,
/// which is passed over, or in a column of its kind that it fits.
pub open spec fn members_fit(record: RecordTree) -> bool {
    forall|i: int|
        0 <= i < record.payload.len() ==> {
            let (name, value) = #[trigger] record.payload[i];
            ||| name == "id"@
            ||| name == "rowid"@
            ||| text::split_on(source_evidence::columns_text(record.kind), ',').contains(name)
                && fits(name, value)
        }
}

/// Whether a record fills what a record of its kind must fill.
pub open spec fn is_complete(record: RecordTree) -> bool {
    forall|i: int|
        0 <= i < text::split_on(source_evidence::required_text(record.kind), ',').len()
            ==> is_filled(
            record,
            #[trigger] text::split_on(source_evidence::required_text(record.kind), ',')[i],
        )
}

/// Whether a record names what identifies it: no text of its key is empty.
pub open spec fn is_identified(record: RecordTree) -> bool {
    forall|i: int|
        0 <= i < text::split_on(source_evidence::key_text(record.kind), ',').len() ==> is_counted(
            #[trigger] text::split_on(source_evidence::key_text(record.kind), ',')[i],
        ) || text::split_on(source_evidence::key_text(record.kind), ',')[i] == "confidence"@
            || is_worded(
            record,
            text::split_on(source_evidence::key_text(record.kind), ',')[i],
        )
}

/// Whether a record is of a source and a session.
pub open spec fn belongs(record: RecordTree, source: Seq<char>, session: Seq<char>) -> bool {
    &&& holds_text(record, "source"@, source)
    &&& record.kind == EvidenceKind::Relationship ==> holds_text(
        record,
        "parent_session_id"@,
        session,
    )
    &&& record.kind != EvidenceKind::Relationship ==> holds_text(record, "session_id"@, session)
}

/// Whether a word is one that a tool-result column may hold.
pub open spec fn is_allowed_word(name: Seq<char>, value: JsonTree) -> bool {
    &&& name == "result_status"@ ==> value == JsonTree::Text("running"@) || value
        == JsonTree::Text("completed"@) || value == JsonTree::Text("errored"@) || value
        == JsonTree::Text("cancelled"@) || value == JsonTree::Text("unknown"@)
    &&& name == "event_source"@ ==> value == JsonTree::Text("tool_result"@) || value
        == JsonTree::Text("subagent_notification"@) || value == JsonTree::Text(
        "function_call_output"@,
    )
    &&& name == "error_signal"@ ==> value == JsonTree::Text("tool_result.is_error"@) || value
        == JsonTree::Text("exit_code"@) || value == JsonTree::Text("patch_apply"@) || value
        == JsonTree::Text("mcp_err"@) || value == JsonTree::Text("subagent_status"@)
    &&& name == "payload_bytes"@ || name == "call_index"@ || name == "event_index"@ ==> is_whole(
        value,
    ) && json::signed_of(value)->0 >= 0
}

/// Whether an event is one that a reader understands: its role and its kind are known, only
/// a user's text carries a control kind and only a known one, and only a tool result fills
/// the columns of one, with what they may hold.
pub open spec fn is_readable_event(record: RecordTree, controls: Seq<String>) -> bool {
    &&& holds_text(record, "role"@, "user"@) || holds_text(record, "role"@, "assistant"@)
        || holds_text(record, "role"@, "tool_result"@)
    &&& holds_text(record, "kind"@, "text"@) || holds_text(record, "kind"@, "thinking"@)
        || holds_text(record, "kind"@, "tool_use"@) || holds_text(
        record,
        "kind"@,
        "tool_result"@,
    )
    &&& is_filled(record, "control_kind"@) ==> {
        &&& exists|i: int|
            0 <= i < controls.len() && held(record, "control_kind"@) == Some(
                JsonTree::Text((#[trigger] controls[i])@),
            )
        &&& holds_text(record, "role"@, "user"@)
        &&& holds_text(record, "kind"@, "text"@)
    }
    &&& forall|f: int|
        0 <= f < 11 && is_filled(record, #[trigger] TOOL_RESULT_FIELDS@[f]@) ==> holds_text(
            record,
            "kind"@,
            "tool_result"@,
        ) && is_allowed_word(
            TOOL_RESULT_FIELDS@[f]@,
            held(record, TOOL_RESULT_FIELDS@[f]@)->0,
        )
}

/// Whether a marker is one that a reader understands: its kind is not blank, and what it
/// carries is JSON of a bounded size.
pub open spec fn is_readable_marker(record: RecordTree) -> bool {
    &&& match held(record, "kind"@) {
        Some(JsonTree::Text(kind)) => text::trimmed(kind).len() > 0,
        _ => false,
    }
    &&& match held(record, "payload_json"@) {
        Some(JsonTree::Text(raw)) => json::decoded(raw) is Ok && source_evidence::is_bounded(
            json::decoded(raw)->Ok_0,
        ),
        _ => true,
    }
}

/// Whether a relationship names its child exactly where it was observed.
pub open spec fn is_readable_relationship(record: RecordTree) -> bool {
    ||| holds_text(record, "identity_status"@, "observed"@) && is_worded(
        record,
        "child_session_id"@,
    )
    ||| holds_text(record, "identity_status"@, "unlinked"@) && match held(
        record,
        "child_session_id"@,
    ) {
        Some(JsonTree::Text(_)) => false,
        _ => true,
    }
}

/// Whether a record can be admitted to the snapshot of a session.
pub open spec fn is_admissible(
    record: RecordTree,
    key: ObservationKey,
    covered: Seq<EvidenceKind>,
    controls: Seq<String>,
) -> bool {
    &&& covered.contains(record.kind)
    &&& members_fit(record)
    &&& is_complete(record)
    &&& belongs(record, key.source@, key.session_id@)
    &&& is_identified(record)
    &&& record.kind == EvidenceKind::SessionEvent ==> is_readable_event(record, controls)
    &&& record.kind == EvidenceKind::SessionMarker ==> is_readable_marker(record)
    &&& record.kind == EvidenceKind::Relationship ==> is_readable_relationship(record)
}

proof fn lemma_fits(name: Seq<char>, value: JsonTree)
    ensures
        fits(name, value) == (value is Null || source_evidence::suits(name, value)),
        source_evidence::is_numeric(name) == (is_counted(name) || name == "confidence"@),
{
    lemma_columns_are_distinct();
    assert(source_evidence::is_numeric(name) == (is_counted(name) || name == "confidence"@));
    assert(source_evidence::is_flag(name) == is_flagged(name));
    if name == "confidence"@ {
        assert(!is_counted(name) && !is_flagged(name));
    } else if is_counted(name) {
        assert(!is_flagged(name));
        assert(source_evidence::suits(name, value) == is_whole(value));
    } else if is_flagged(name) {
        assert(!source_evidence::is_numeric(name));
    } else {
        assert(source_evidence::suits(name, value) == (value is Text));
    }
}

proof fn lemma_columns_are_distinct()
    ensures
        !is_counted("confidence"@),
        !is_flagged("confidence"@),
        forall|name: Seq<char>| #[trigger] is_counted(name) ==> !is_flagged(name),
{
    reveal_strlit("confidence");
    reveal_strlit("timestamp_ms");
    reveal_strlit("ts_ms");
    reveal_strlit("lines_added");
    reveal_strlit("lines_removed");
    reveal_strlit("spawn_depth");
    reveal_strlit("spawned_at_ms");
    reveal_strlit("created_ms");
    reveal_strlit("updated_ms");
    reveal_strlit("created_at_ms");
    reveal_strlit("payload_bytes");
    reveal_strlit("call_index");
    reveal_strlit("event_index");
    reveal_strlit("is_error");
    reveal_strlit("user_modified");
    reveal_strlit("child_has_events");
    reveal_strlit("payload_truncated");
    reveal_strlit("is_sidechain");
    reveal_strlit("is_meta");
    assert("confidence"@[0] == 'c' && "confidence"@[2] == 'n');
    assert("timestamp_ms"@[0] == 't' && "ts_ms"@[0] == 't' && "lines_added"@[0] == 'l'
        && "lines_removed"@[0] == 'l' && "spawn_depth"@[0] == 's' && "spawned_at_ms"@[0] == 's'
        && "updated_ms"@[1] == 'p' && "event_index"@[0] == 'e' && "event_index"@.len() == 11);
    assert("created_ms"@[1] == 'r' && "created_at_ms"@[1] == 'r' && "call_index"@[1] == 'a'
        && "payload_bytes"@.len() == 13);
    assert("is_error"@[0] == 'i' && "is_sidechain"@[0] == 'i' && "is_meta"@[0] == 'i'
        && "user_modified"@[1] == 's' && "child_has_events"@[1] == 'h'
        && "payload_truncated"@.len() == 17);
    assert("updated_ms"@[0] == 'u' && "user_modified"@[0] == 'u' && "child_has_events"@[0] == 'c'
        && "payload_truncated"@[0] == 'p' && "payload_bytes"@[0] == 'p' && "created_ms"@[0] == 'c'
        && "created_at_ms"@[0] == 'c' && "call_index"@[0] == 'c');
    assert("child_has_events"@.len() == 16);
}

proof fn lemma_columns(kind: EvidenceKind, payload: Seq<(Seq<char>, JsonTree)>)
    ensures
        source_evidence::columns_fault(kind, payload) is None <==> forall|i: int|
            0 <= i < payload.len() ==> source_evidence::column_fault(
                kind,
                (#[trigger] payload[i]).0,
                payload[i].1,
            ) is None,
    decreases payload.len(),
{
    if payload.len() > 0 {
        let front = payload.drop_last();
        lemma_columns(kind, front);
        if source_evidence::columns_fault(kind, payload) is None {
            assert forall|i: int| 0 <= i < payload.len() implies source_evidence::column_fault(
                kind,
                (#[trigger] payload[i]).0,
                payload[i].1,
            ) is None by {
                if i < front.len() {
                    assert(front[i] == payload[i]);
                }
            }
        }
        if forall|i: int|
            0 <= i < payload.len() ==> source_evidence::column_fault(
                kind,
                (#[trigger] payload[i]).0,
                payload[i].1,
            ) is None {
            assert forall|i: int| 0 <= i < front.len() implies source_evidence::column_fault(
                kind,
                (#[trigger] front[i]).0,
                front[i].1,
            ) is None by {
                assert(payload[i] == front[i]);
            }
            assert(payload[payload.len() - 1] == payload.last());
        }
    }
}

proof fn lemma_members(record: RecordTree)
    ensures
        source_evidence::columns_fault(record.kind, record.payload) is None <==> members_fit(
            record,
        ),
{
    lemma_columns(record.kind, record.payload);
    assert forall|i: int| 0 <= i < record.payload.len() implies (source_evidence::column_fault(
        record.kind,
        (#[trigger] record.payload[i]).0,
        record.payload[i].1,
    ) is None) == ({
        let (name, value) = record.payload[i];
        ||| name == "id"@
        ||| name == "rowid"@
        ||| text::split_on(source_evidence::columns_text(record.kind), ',').contains(name) && fits(
            name,
            value,
        )
    }) by {
        lemma_fits(record.payload[i].0, record.payload[i].1);
    }
}

proof fn lemma_required(names: Seq<Seq<char>>, record: RecordTree)
    ensures
        source_evidence::required_fault(names, record.payload) is None <==> forall|i: int|
            0 <= i < names.len() ==> is_filled(record, #[trigger] names[i]),
    decreases names.len(),
{
    if names.len() > 0 {
        let rest = names.drop_first();
        lemma_required(rest, record);
        if source_evidence::required_fault(names, record.payload) is None {
            assert forall|i: int| 0 <= i < names.len() implies is_filled(
                record,
                #[trigger] names[i],
            ) by {
                if i > 0 {
                    assert(rest[i - 1] == names[i]);
                }
            }
        }
        if forall|i: int| 0 <= i < names.len() ==> is_filled(record, #[trigger] names[i]) {
            assert(is_filled(record, names[0]));
            assert forall|i: int| 0 <= i < rest.len() implies is_filled(
                record,
                #[trigger] rest[i],
            ) by {
                assert(names[i + 1] == rest[i]);
            }
        }
    }
}

proof fn lemma_identity(names: Seq<Seq<char>>, record: RecordTree)
    ensures
        source_evidence::identity_fault(names, record.payload) is None <==> forall|i: int|
            0 <= i < names.len() ==> is_counted(#[trigger] names[i]) || names[i] == "confidence"@
                || is_worded(record, names[i]),
    decreases names.len(),
{
    if names.len() > 0 {
        let rest = names.drop_first();
        lemma_identity(rest, record);
        lemma_fits(names[0], JsonTree::Null);
        if source_evidence::identity_fault(names, record.payload) is None {
            assert forall|i: int| 0 <= i < names.len() implies is_counted(#[trigger] names[i])
                || names[i] == "confidence"@ || is_worded(record, names[i]) by {
                if i > 0 {
                    assert(rest[i - 1] == names[i]);
                }
            }
        }
        if forall|i: int|
            0 <= i < names.len() ==> is_counted(#[trigger] names[i]) || names[i] == "confidence"@
                || is_worded(record, names[i]) {
            assert(is_counted(names[0]) || names[0] == "confidence"@ || is_worded(
                record,
                names[0],
            ));
            assert forall|i: int| 0 <= i < rest.len() implies is_counted(#[trigger] rest[i])
                || rest[i] == "confidence"@ || is_worded(record, rest[i]) by {
                assert(names[i + 1] == rest[i]);
            }
        }
    }
}

/// Whether what a record holds under a name of a tool result is in order.
spec fn is_tool_field(record: RecordTree, name: Seq<char>) -> bool {
    is_filled(record, name) ==> holds_text(record, "kind"@, "tool_result"@) && is_allowed_word(
        name,
        held(record, name)->0,
    )
}

proof fn lemma_words_are_distinct()
    ensures
        "result_status"@ != "event_source"@,
        "result_status"@ != "error_signal"@,
        "event_source"@ != "error_signal"@,
{
    reveal_strlit("result_status");
    reveal_strlit("event_source");
    reveal_strlit("error_signal");
    assert("result_status"@[0] != "event_source"@[0]);
    assert("result_status"@[0] != "error_signal"@[0]);
    assert("event_source"@[1] != "error_signal"@[1]);
}

proof fn lemma_tool_fields(record: RecordTree, from: int)
    requires
        0 <= from <= 11,
    ensures
        source_evidence::tool_fields_fault(
            record.payload,
            holds_text(record, "kind"@, "tool_result"@),
            from,
        ) is None <==> forall|f: int|
            from <= f < 11 ==> is_tool_field(record, #[trigger] TOOL_RESULT_FIELDS@[f]@),
    decreases 11 - from,
{
    if from < 11 {
        lemma_tool_fields(record, from + 1);
        lemma_words_are_distinct();
        let name = TOOL_RESULT_FIELDS@[from]@;
        let result = holds_text(record, "kind"@, "tool_result"@);
        assert((match json::member(record.payload, name) {
            Some(value) => if value is Null {
                None
            } else {
                source_evidence::tool_field_fault(name, value, result)
            },
            None => None,
        } is None) == is_tool_field(record, name));
        if source_evidence::tool_fields_fault(record.payload, result, from) is None {
            assert forall|f: int| from <= f < 11 implies is_tool_field(
                record,
                #[trigger] TOOL_RESULT_FIELDS@[f]@,
            ) by {}
        }
    }
}

proof fn lemma_event(record: RecordTree, controls: Seq<String>)
    ensures
        source_evidence::event_fault(record.payload, text::views(controls)) is None
            <==> is_readable_event(record, controls),
{
    lemma_tool_fields(record, 0);
    let words = text::views(controls);
    assert((source_evidence::column_text(record.payload, "kind"@) == Some("tool_result"@))
        == holds_text(record, "kind"@, "tool_result"@));
    assert forall|f: int| 0 <= f < 11 implies is_tool_field(
        record,
        #[trigger] TOOL_RESULT_FIELDS@[f]@,
    ) == (is_filled(record, TOOL_RESULT_FIELDS@[f]@) ==> holds_text(
        record,
        "kind"@,
        "tool_result"@,
    ) && is_allowed_word(TOOL_RESULT_FIELDS@[f]@, held(record, TOOL_RESULT_FIELDS@[f]@)->0)) by {}
    if is_filled(record, "control_kind"@) {
        let value = held(record, "control_kind"@)->0;
        if value is Text && words.contains(value->Text_0) {
            let i = choose|i: int| 0 <= i < words.len() && words[i] == value->Text_0;
            assert(held(record, "control_kind"@) == Some(JsonTree::Text(controls[i]@)));
        }
        if exists|i: int|
            0 <= i < controls.len() && held(record, "control_kind"@) == Some(
                JsonTree::Text((#[trigger] controls[i])@),
            ) {
            let i = choose|i: int|
                0 <= i < controls.len() && held(record, "control_kind"@) == Some(
                    JsonTree::Text((#[trigger] controls[i])@),
                );
            assert(words[i] == value->Text_0);
        }
    }
}

proof fn lemma_admissible(
    record: RecordTree,
    key: ObservationKey,
    covered: Seq<EvidenceKind>,
    controls: Seq<String>,
)
    ensures
        source_evidence::record_fault(
            key.source@,
            key.session_id@,
            covered,
            text::views(controls),
            record,
        ) is None <==> is_admissible(record, key, covered, controls),
{
    lemma_members(record);
    lemma_required(text::split_on(source_evidence::required_text(record.kind), ','), record);
    lemma_identity(text::split_on(source_evidence::key_text(record.kind), ','), record);
    lemma_event(record, controls);
    assert(source_evidence::marker_fault(record.payload) is None <==> is_readable_marker(record));
    assert(source_evidence::child_is_consistent(record.payload) <==> is_readable_relationship(
        record,
    ));
}

/// The identity of a record as it is stored.
pub open spec fn stored_identity(record: RecordTree) -> Seq<char> {
    source_evidence::identity_of(source_evidence::completed(record))
}

proof fn lemma_records(
    key: ObservationKey,
    covered: Seq<EvidenceKind>,
    controls: Seq<String>,
    records: Seq<RecordTree>,
    n: int,
)
    requires
        0 <= n <= records.len(),
    ensures
        source_evidence::records_fault(
            key.source@,
            key.session_id@,
            covered,
            text::views(controls),
            records,
            n,
        ) is None <==> {
            &&& forall|i: int|
                0 <= i < n ==> is_admissible(#[trigger] records[i], key, covered, controls)
            &&& forall|i: int, j: int|
                0 <= i < j < n ==> stored_identity(#[trigger] records[i]) != stored_identity(
                    #[trigger] records[j],
                )
        },
    decreases n,
{
    if n > 0 {
        lemma_records(key, covered, controls, records, n - 1);
        lemma_admissible(records[n - 1], key, covered, controls);
        let last = records[n - 1];
        if exists|j: int|
            0 <= j < n - 1 && source_evidence::identity_of(
                source_evidence::completed(#[trigger] records[j]),
            ) == stored_identity(last) {
            let j = choose|j: int|
                0 <= j < n - 1 && source_evidence::identity_of(
                    source_evidence::completed(#[trigger] records[j]),
                ) == stored_identity(last);
            assert(stored_identity(records[j]) == stored_identity(records[n - 1]));
        } else {
            assert forall|j: int| 0 <= j < n - 1 implies stored_identity(#[trigger] records[j])
                != stored_identity(last) by {
                assert(source_evidence::identity_of(source_evidence::completed(records[j]))
                    != stored_identity(last));
            }
        }
    }
}

/// A snapshot is admitted exactly where its key is valid, it covers some kinds and each
/// once, every record can be admitted, and no two records have the same identity.
pub proof fn law_snapshot_is_admitted(
    key: ObservationKey,
    key_fault: Option<String>,
    covered: Vec<EvidenceKind>,
    controls: Vec<String>,
    records: &mut Vec<EvidenceRecord>,
    result: Result<(), String>,
)
    requires
        call_ensures(validate_records, (&key, &key_fault, &covered, &controls, records), result),
    ensures
        result is Ok <==> {
            &&& key_fault is None
            &&& covered@.len() > 0
            &&& forall|i: int, j: int|
                0 <= i < j < covered@.len() ==> #[trigger] covered@[i] != #[trigger] covered@[j]
            &&& forall|i: int|
                0 <= i < old(records)@.len() ==> is_admissible(
                    (#[trigger] old(records)@[i])@,
                    key,
                    covered@,
                    controls@,
                )
            &&& forall|i: int, j: int|
                0 <= i < j < old(records)@.len() ==> stored_identity(
                    (#[trigger] old(records)@[i])@,
                ) != stored_identity((#[trigger] old(records)@[j])@)
        },
        final(records)@.len() == old(records)@.len(),
{
    let trees = source_evidence::record_views(old(records)@);
    lemma_records(key, covered@, controls@, trees, trees.len() as int);
    assert(covered@.no_duplicates() <==> forall|i: int, j: int|
        0 <= i < j < covered@.len() ==> #[trigger] covered@[i] != #[trigger] covered@[j]) by {
        if forall|i: int, j: int|
            0 <= i < j < covered@.len() ==> #[trigger] covered@[i] != #[trigger] covered@[j] {
            assert forall|i: int, j: int|
                0 <= i < covered@.len() && 0 <= j < covered@.len() && i != j implies covered@[i]
                != covered@[j] by {
                if j < i {
                    assert(covered@[j] != covered@[i]);
                }
            }
        }
    }
    assert forall|i: int| 0 <= i < trees.len() implies #[trigger] trees[i] == old(records)@[i]@ by {}
    if result is Ok {
        assert forall|i: int| 0 <= i < old(records)@.len() implies is_admissible(
            (#[trigger] old(records)@[i])@,
            key,
            covered@,
            controls@,
        ) by {
            assert(is_admissible(trees[i], key, covered@, controls@));
        }
        assert forall|i: int, j: int| 0 <= i < j < old(records)@.len() implies stored_identity(
            (#[trigger] old(records)@[i])@,
        ) != stored_identity((#[trigger] old(records)@[j])@) by {
            assert(stored_identity(trees[i]) != stored_identity(trees[j]));
        }
    }
    if key_fault is None && covered@.len() > 0 && covered@.no_duplicates() && (forall|i: int|
        0 <= i < old(records)@.len() ==> is_admissible(
            (#[trigger] old(records)@[i])@,
            key,
            covered@,
            controls@,
        )) && (forall|i: int, j: int|
        0 <= i < j < old(records)@.len() ==> stored_identity((#[trigger] old(records)@[i])@)
            != stored_identity((#[trigger] old(records)@[j])@)) {
        assert forall|i: int| 0 <= i < trees.len() implies is_admissible(
            #[trigger] trees[i],
            key,
            covered@,
            controls@,
        ) by {
            assert(is_admissible(old(records)@[i]@, key, covered@, controls@));
        }
        assert forall|i: int, j: int| 0 <= i < j < trees.len() implies stored_identity(
            #[trigger] trees[i],
        ) != stored_identity(#[trigger] trees[j]) by {
            assert(stored_identity(old(records)@[i]@) != stored_identity(old(records)@[j]@));
        }
    }
}

/// What a payload holds under a name once some columns are filled.
proof fn lemma_filled(
    payload: Seq<(Seq<char>, JsonTree)>,
    names: Seq<Seq<char>>,
    name: Seq<char>,
)
    ensures
        json::member(payload, name) is Some ==> json::member(
            source_evidence::filled(payload, names),
            name,
        ) == json::member(payload, name),
        json::member(payload, name) is None && !names.contains(name) ==> json::member(
            source_evidence::filled(payload, names),
            name,
        ) is None,
        json::member(payload, name) is None && names.contains(name) ==> json::member(
            source_evidence::filled(payload, names),
            name,
        ) == Some(
            if name == "child_has_events"@ {
                JsonTree::Number(json::zero_number())
            } else {
                JsonTree::Null
            },
        ),
    decreases names.len(),
{
    if names.len() > 0 {
        let front = names.drop_last();
        let last = names.last();
        lemma_filled(payload, front, name);
        lemma_filled(payload, front, last);
        let before = source_evidence::filled(payload, front);
        json::law_with_member(before, last, JsonTree::Null, name);
        json::law_with_member(before, last, JsonTree::Number(json::zero_number()), name);
        assert(names.contains(name) <==> front.contains(name) || name == last) by {
            if names.contains(name) {
                let i = choose|i: int| 0 <= i < names.len() && names[i] == name;
                if i < front.len() {
                    assert(front[i] == name);
                }
            }
            if front.contains(name) {
                let i = choose|i: int| 0 <= i < front.len() && front[i] == name;
                assert(names[i] == name);
            }
            assert(names[names.len() - 1] == last);
        }
    }
}

/// An admitted record is stored as it was sent, with every column of its kind filled: what
/// it holds it keeps, a column that it lacks becomes null, or zero where it counts whether
/// a child has events; and a prompt gets the hash of its text.
pub proof fn law_admitted_record_is_completed(
    key: ObservationKey,
    key_fault: Option<String>,
    covered: Vec<EvidenceKind>,
    controls: Vec<String>,
    records: &mut Vec<EvidenceRecord>,
    result: Result<(), String>,
    i: int,
    name: Seq<char>,
)
    requires
        call_ensures(validate_records, (&key, &key_fault, &covered, &controls, records), result),
        result is Ok,
        0 <= i < old(records)@.len(),
    ensures
        ({
            let sent = old(records)@[i]@;
            let kept = final(records)@[i]@;
            let hashed = sent.kind == EvidenceKind::History && name == "prompt_hash"@;
            let columns = text::split_on(source_evidence::columns_text(sent.kind), ',');
            &&& kept.kind == sent.kind
            &&& kept.record_id == sent.record_id
            &&& kept.revision_id == sent.revision_id
            &&& held(sent, name) is Some && !hashed ==> held(kept, name) == held(sent, name)
            &&& held(sent, name) is None && !hashed && !columns.contains(name) ==> held(
                kept,
                name,
            ) is None
            &&& held(sent, name) is None && !hashed && columns.contains(name) ==> held(kept, name)
                == Some(
                if name == "child_has_events"@ {
                    JsonTree::Number(json::zero_number())
                } else {
                    JsonTree::Null
                },
            )
            &&& hashed ==> forall|prompt: Seq<char>| #[trigger]
                holds_text(sent, "prompt"@, prompt) ==> held(kept, name) == Some(
                    JsonTree::Text(digest::prompt_digest(prompt)),
                )
        }),
{
    let sent = old(records)@[i]@;
    let kept = final(records)@[i]@;
    let columns = text::split_on(source_evidence::columns_text(sent.kind), ',');
    assert(kept == source_evidence::completed(sent));
    lemma_filled(sent.payload, columns, name);
    if sent.kind == EvidenceKind::History {
        let prompt = match source_evidence::column_text(sent.payload, "prompt"@) {
            Some(prompt) => prompt,
            None => Seq::empty(),
        };
        let hash = JsonTree::Text(digest::prompt_digest(prompt));
        let hashed = json::with_member(sent.payload, "prompt_hash"@, hash);
        json::law_with_member(sent.payload, "prompt_hash"@, hash, name);
        lemma_filled(hashed, columns, name);
    }
}

/// Whether an acquired row can be stored: its key is valid, no earlier row is of the same
/// session, what it is read by is a text without a zero character, and its source is known.
pub open spec fn is_observable(
    rows: Seq<SourceObservation>,
    key_faults: Seq<Option<String>>,
    names: SourceNames,
    i: int,
) -> bool {
    let row = rows[i];
    let handle = if row.raw_locator is Some {
        row.raw_locator
    } else {
        row.session.raw_path
    };
    &&& i < key_faults.len() ==> key_faults[i] is None
    &&& forall|j: int|
        0 <= j < i ==> !((#[trigger] rows[j]).session.source@ == row.session.source@
            && rows[j].session.session_id@ == row.session.session_id@)
    &&& handle is Some ==> handle->0@.len() > 0 && !handle->0@.contains('\0')
    &&& selecting::is_known(row.session.source@, names)
}

proof fn lemma_rows_fault(
    rows: Seq<SourceObservation>,
    key_faults: Seq<Option<String>>,
    names: SourceNames,
    from: int,
)
    requires
        0 <= from <= rows.len(),
    ensures
        source_intake::rows_fault(
            source_intake::observation_views(rows),
            key_faults,
            names.claude@,
            from,
        ) is None <==> forall|i: int|
            from <= i < rows.len() ==> #[trigger] is_observable(rows, key_faults, names, i),
    decreases rows.len() - from,
{
    if from < rows.len() {
        let all = source_intake::observation_views(rows);
        lemma_rows_fault(rows, key_faults, names, from + 1);
        assert((source_intake::row_fault(all, key_faults, names.claude@, from) is None)
            == is_observable(rows, key_faults, names, from)) by {
            assert(all[from] == rows[from]@);
            if exists|j: int|
                0 <= j < from && (#[trigger] all[j]).session.source == all[from].session.source
                    && all[j].session.session_id == all[from].session.session_id {
                let j = choose|j: int|
                    0 <= j < from && (#[trigger] all[j]).session.source == all[from].session.source
                        && all[j].session.session_id == all[from].session.session_id;
                assert(rows[j].session.source@ == rows[from].session.source@);
            } else {
                assert forall|j: int| 0 <= j < from implies !((#[trigger] rows[j]).session.source@
                    == rows[from].session.source@ && rows[j].session.session_id@
                    == rows[from].session.session_id@) by {
                    assert(all[j] == rows[j]@);
                }
            }
        }
        if forall|i: int|
            from <= i < rows.len() ==> #[trigger] is_observable(rows, key_faults, names, i) {
            assert(is_observable(rows, key_faults, names, from));
        }
    }
}

/// A batch of acquired rows is taken whole or not at all: exactly where it has at most ten
/// thousand rows, its connector is valid and every row can be stored.
pub proof fn law_batch_is_admitted_whole(
    request: ApplyObservationsRequest,
    connector_fault: Option<String>,
    key_faults: Vec<Option<String>>,
    names: SourceNames,
    result: Result<Vec<SourceBatch>, String>,
)
    requires
        call_ensures(
            apply_source_observations,
            (&request, &connector_fault, &key_faults, &names),
            result,
        ),
    ensures
        result is Ok <==> {
            &&& request.observations@.len() <= 10_000
            &&& connector_fault is None
            &&& forall|i: int|
                0 <= i < request.observations@.len() ==> #[trigger] is_observable(
                    request.observations@,
                    key_faults@,
                    names,
                    i,
                )
        },
{
    lemma_rows_fault(request.observations@, key_faults@, names, 0);
    assert(source_intake::observation_views(request.observations@).len()
        == request.observations@.len());
}

proof fn lemma_rows_of_source(
    rows: Seq<ObservationView>,
    source: Seq<char>,
    location: SessionLocation,
)
    ensures
        forall|row: ObservationView| #[trigger]
            source_intake::rows_of_source(rows, source, location).contains(row) <==> exists|i: int|
                0 <= i < rows.len() && (#[trigger] rows[i]).session.source == source && row
                    == source_intake::normalized_row(rows[i], location),
    decreases rows.len(),
{
    let all = source_intake::rows_of_source(rows, source, location);
    if rows.len() > 0 {
        let front = rows.drop_last();
        lemma_rows_of_source(front, source, location);
        let before = source_intake::rows_of_source(front, source, location);
        assert forall|row: ObservationView| #[trigger] all.contains(row) <==> exists|i: int|
            0 <= i < rows.len() && (#[trigger] rows[i]).session.source == source && row
                == source_intake::normalized_row(rows[i], location) by {
            if all.contains(row) {
                let x = choose|x: int| 0 <= x < all.len() && all[x] == row;
                if x < before.len() {
                    assert(before[x] == row);
                    assert(before.contains(row));
                    let i = choose|i: int|
                        0 <= i < front.len() && (#[trigger] front[i]).session.source == source
                            && row == source_intake::normalized_row(front[i], location);
                    assert(rows[i] == front[i]);
                } else {
                    assert(rows[rows.len() - 1].session.source == source);
                }
            }
            if exists|i: int|
                0 <= i < rows.len() && (#[trigger] rows[i]).session.source == source && row
                    == source_intake::normalized_row(rows[i], location) {
                let i = choose|i: int|
                    0 <= i < rows.len() && (#[trigger] rows[i]).session.source == source && row
                        == source_intake::normalized_row(rows[i], location);
                if i < front.len() {
                    assert(front[i] == rows[i]);
                    assert(before.contains(row));
                    let x = choose|x: int| 0 <= x < before.len() && before[x] == row;
                    assert(all[x] == row);
                } else {
                    assert(all[before.len() as int] == row);
                }
            }
        }
    }
}

proof fn lemma_batches(
    rows: Seq<ObservationView>,
    location: SessionLocation,
    first: Seq<char>,
    n: int,
)
    requires
        0 <= n <= source_intake::sorted_names(first).len(),
    ensures
        forall|b: int|
            0 <= b < source_intake::batches_of(rows, location, first, n).len() ==> (
            #[trigger] source_intake::batches_of(rows, location, first, n)[b]).1
                == source_intake::rows_of_source(
                rows,
                source_intake::batches_of(rows, location, first, n)[b].0,
                location,
            ) && source_intake::batches_of(rows, location, first, n)[b].1.len() > 0,
        forall|k: int|
            0 <= k < n && source_intake::rows_of_source(
                rows,
                #[trigger] source_intake::sorted_names(first)[k],
                location,
            ).len() > 0 ==> is_batched(
                source_intake::batches_of(rows, location, first, n),
                source_intake::sorted_names(first)[k],
            ),
    decreases n,
{
    if n > 0 {
        lemma_batches(rows, location, first, n - 1);
        let rest = source_intake::batches_of(rows, location, first, n - 1);
        let all = source_intake::batches_of(rows, location, first, n);
        let names = source_intake::sorted_names(first);
        assert forall|k: int|
            0 <= k < n && source_intake::rows_of_source(
                rows,
                #[trigger] names[k],
                location,
            ).len() > 0 implies is_batched(all, names[k]) by {
            if k < n - 1 {
                assert(is_batched(rest, names[k]));
                let b = choose|b: int| 0 <= b < rest.len() && (#[trigger] rest[b]).0 == names[k];
                assert(all[b] == rest[b]);
            } else {
                assert(all[rest.len() as int].0 == names[k]);
            }
        }
    }
}

/// Whether there is a batch of a source.
spec fn is_batched(batches: Seq<(Seq<char>, Seq<ObservationView>)>, source: Seq<char>) -> bool {
    exists|b: int| 0 <= b < batches.len() && (#[trigger] batches[b]).0 == source
}

proof fn lemma_names_from(first: Seq<char>, from: int, k: int)
    requires
        0 <= from <= k < 6,
    ensures
        source_intake::names_from(first, from).contains(SORTED_SOURCES@[k]@),
        source_intake::names_from(first, from).contains(first),
    decreases 6 - from,
{
    let all = source_intake::names_from(first, from);
    if order::text_less(first, SORTED_SOURCES@[from]@) {
        assert(all[0] == first);
        assert(all[1 + (k - from)] == SORTED_SOURCES@[k]@);
    } else {
        let rest = source_intake::names_from(first, from + 1);
        assert(all[0] == SORTED_SOURCES@[from]@);
        if from < 5 {
            lemma_names_from(
                first,
                from + 1,
                if k > from {
                    k
                } else {
                    from + 1
                },
            );
            let x = choose|x: int| 0 <= x < rest.len() && rest[x] == first;
            assert(all[x + 1] == first);
            if k > from {
                let y = choose|y: int| 0 <= y < rest.len() && rest[y] == SORTED_SOURCES@[k]@;
                assert(all[y + 1] == SORTED_SOURCES@[k]@);
            }
        } else {
            assert(rest == seq![first]);
            assert(all[1] == first);
        }
    }
}

proof fn lemma_every_source_has_a_place(source: Seq<char>, names: SourceNames)
    requires
        selecting::is_known(source, names),
    ensures
        source_intake::sorted_names(names.claude@).contains(source),
{
    let first = names.claude@;
    lemma_names_from(first, 0, 0);
    lemma_names_from(first, 0, 1);
    lemma_names_from(first, 0, 2);
    lemma_names_from(first, 0, 3);
    lemma_names_from(first, 0, 4);
    lemma_names_from(first, 0, 5);
    assert(SORTED_SOURCES@[0]@ == "codex"@);
    assert(SORTED_SOURCES@[1]@ == "cursor"@);
    assert(SORTED_SOURCES@[2]@ == "grok"@);
    assert(SORTED_SOURCES@[3]@ == "opencode"@);
    assert(SORTED_SOURCES@[4]@ == "relay"@);
    assert(SORTED_SOURCES@[5]@ == "trajectory"@);
}

/// Whether a stored row is an acquired one: what it says of the session stays, and what it
/// says of evidence does not, for a discovery supplies none.
pub open spec fn is_stored_as(
    kept: SourceObservation,
    sent: SourceObservation,
    location: SessionLocation,
) -> bool {
    &&& kept.session.session_id@ == sent.session.session_id@
    &&& kept.session.source@ == sent.session.source@
    &&& text::opt_view(kept.raw_locator) == text::opt_view(sent.raw_locator)
    &&& text::opt_view(kept.session.raw_path) == text::opt_view(sent.session.raw_path)
    &&& kept.session.last_activity_ms == sent.session.last_activity_ms
    &&& text::opt_view(kept.session.source_stamp) == text::opt_view(sent.session.source_stamp)
    &&& kept.session.discovery_state@ == "shallow"@
    &&& !kept.session.from_cache
    &&& kept.session.locations@.len() == 1
    &&& kept.session.locations@[0]@ == if location == SessionLocation::Local {
        "local"@
    } else {
        "remote"@
    }
}

/// Every row of an admitted batch is stored with the rows of its source, and nothing else
/// is: no group is empty, and each holds rows of its own source alone.
pub proof fn law_observations_are_grouped_by_source(
    request: ApplyObservationsRequest,
    connector_fault: Option<String>,
    key_faults: Vec<Option<String>>,
    names: SourceNames,
    batches: Vec<SourceBatch>,
)
    requires
        call_ensures(
            apply_source_observations,
            (&request, &connector_fault, &key_faults, &names),
            Ok(batches),
        ),
    ensures
        forall|b: int, x: int|
            0 <= b < batches@.len() && 0 <= x < batches@[b].rows@.len() ==> {
                let kept = #[trigger] batches@[b].rows@[x];
                &&& kept.session.source@ == batches@[b].source@
                &&& exists|i: int|
                    0 <= i < request.observations@.len() && is_stored_as(
                        kept,
                        #[trigger] request.observations@[i],
                        request.location,
                    )
            },
        forall|b: int| 0 <= b < batches@.len() ==> (#[trigger] batches@[b]).rows@.len() > 0,
        forall|i: int|
            #![trigger request.observations@[i]]
            0 <= i < request.observations@.len() ==> exists|b: int, x: int|
                0 <= b < batches@.len() && 0 <= x < batches@[b].rows@.len() && is_stored_as(
                    #[trigger] batches@[b].rows@[x],
                    request.observations@[i],
                    request.location,
                ),
{
    let sent = request.observations@;
    let rows = source_intake::observation_views(sent);
    let first = names.claude@;
    let sorted = source_intake::sorted_names(first);
    let all = source_intake::batches_of(rows, request.location, first, sorted.len() as int);
    lemma_batches(rows, request.location, first, sorted.len() as int);
    lemma_rows_fault(sent, key_faults@, names, 0);
    assert(source_intake::batch_views(batches@) == all);
    assert forall|b: int| 0 <= b < batches@.len() implies (#[trigger] batches@[b]).rows@.len() > 0
        && source_intake::observation_views(batches@[b].rows@) == source_intake::rows_of_source(
        rows,
        batches@[b].source@,
        request.location,
    ) by {
        assert(source_intake::batch_views(batches@)[b] == all[b]);
    }
    assert forall|b: int, x: int|
        0 <= b < batches@.len() && 0 <= x < batches@[b].rows@.len() implies {
        let kept = #[trigger] batches@[b].rows@[x];
        &&& kept.session.source@ == batches@[b].source@
        &&& exists|i: int|
            0 <= i < request.observations@.len() && is_stored_as(
                kept,
                #[trigger] request.observations@[i],
                request.location,
            )
    } by {
        let own = source_intake::rows_of_source(rows, batches@[b].source@, request.location);
        let kept = batches@[b].rows@[x];
        lemma_rows_of_source(rows, batches@[b].source@, request.location);
        assert(source_intake::observation_views(batches@[b].rows@)[x] == kept@);
        assert(own.contains(kept@));
        let i = choose|i: int|
            0 <= i < rows.len() && (#[trigger] rows[i]).session.source == batches@[b].source@
                && kept@ == source_intake::normalized_row(rows[i], request.location);
        assert(rows[i] == sent[i]@);
        lemma_stored_as(kept, sent[i], request.location);
    }
    assert forall|i: int| #![trigger sent[i]] 0 <= i < sent.len() implies exists|b: int, x: int|
        0 <= b < batches@.len() && 0 <= x < batches@[b].rows@.len() && is_stored_as(
            #[trigger] batches@[b].rows@[x],
            sent[i],
            request.location,
        ) by {
        assert(is_observable(sent, key_faults@, names, i));
        let source = sent[i].session.source@;
        lemma_every_source_has_a_place(source, names);
        let k = choose|k: int| 0 <= k < sorted.len() && sorted[k] == source;
        lemma_rows_of_source(rows, source, request.location);
        let own = source_intake::rows_of_source(rows, source, request.location);
        let one = source_intake::normalized_row(rows[i], request.location);
        assert(rows[i].session.source == source);
        assert(own.contains(one));
        assert(is_batched(all, sorted[k]));
        let b = choose|b: int| 0 <= b < all.len() && (#[trigger] all[b]).0 == source;
        assert(source_intake::batch_views(batches@)[b] == all[b]);
        let x = choose|x: int| 0 <= x < own.len() && own[x] == one;
        assert(source_intake::observation_views(batches@[b].rows@)[x] == one);
        assert(batches@[b].rows@[x]@ == one);
        lemma_stored_as(batches@[b].rows@[x], sent[i], request.location);
    }
}

proof fn lemma_stored_as(
    kept: SourceObservation,
    sent: SourceObservation,
    location: SessionLocation,
)
    requires
        kept@ == source_intake::normalized_row(sent@, location),
    ensures
        is_stored_as(kept, sent, location),
{
    assert(text::views(kept.session.locations@) == kept.session@.locations);
    assert(text::views(kept.session.locations@).len() == 1);
    assert(text::views(kept.session.locations@)[0] == kept.session.locations@[0]@);
}

/// An acquisition is applied only to the observation that it was made of: one that is
/// still there, has the revision that the acquisition began with, and was not withdrawn.
pub proof fn law_fence_holds(
    expected: &str,
    revision: Option<String>,
    access_state: Option<String>,
    result: Result<(), String>,
)
    requires
        call_ensures(check_fence, (expected, &revision, &access_state), result),
    ensures
        result is Ok <==> {
            &&& revision is Some
            &&& revision->0@ == expected@
            &&& access_state is Some
            &&& access_state->0@ != "withdrawn"@
        },
{
}

/// An acquired snapshot is admitted exactly where it says how large its source is and under
/// which stamp it was read, and its records can be admitted.
pub proof fn law_acquisition_is_admitted(
    key: ObservationKey,
    key_fault: Option<String>,
    controls: Vec<String>,
    evidence: &mut NormalizedSourceEvidence,
    result: Result<(), String>,
    records: &mut Vec<EvidenceRecord>,
    inner: Result<(), String>,
)
    requires
        call_ensures(validate, (&key, &key_fault, &controls, evidence), result),
        *old(records) == old(evidence).records,
        call_ensures(
            validate_records,
            (&key, &key_fault, &old(evidence).covered_kinds, &controls, records),
            inner,
        ),
    ensures
        result is Ok <==> {
            &&& old(evidence).source_bytes >= 0
            &&& old(evidence).source_stamp@.len() > 0
            &&& inner is Ok
        },
        final(evidence).source_stamp == old(evidence).source_stamp,
        final(evidence).source_bytes == old(evidence).source_bytes,
        final(evidence).covered_kinds == old(evidence).covered_kinds,
{
}

proof fn lemma_unrelated_kinds(kinds: Seq<EvidenceKind>, kind: EvidenceKind)
    ensures
        source_intake::unrelated_kinds(kinds).contains(kind) <==> kinds.contains(kind) && kind
            != EvidenceKind::Relationship,
    decreases kinds.len(),
{
    if kinds.len() > 0 {
        let front = kinds.drop_last();
        lemma_unrelated_kinds(front, kind);
        let before = source_intake::unrelated_kinds(front);
        let all = source_intake::unrelated_kinds(kinds);
        assert(kinds.contains(kind) <==> front.contains(kind) || kind == kinds.last()) by {
            if kinds.contains(kind) {
                let i = choose|i: int| 0 <= i < kinds.len() && kinds[i] == kind;
                if i < front.len() {
                    assert(front[i] == kind);
                }
            }
            if front.contains(kind) {
                let i = choose|i: int| 0 <= i < front.len() && front[i] == kind;
                assert(kinds[i] == kind);
            }
            assert(kinds[kinds.len() - 1] == kinds.last());
        }
        if kinds.last() != EvidenceKind::Relationship {
            assert(all.contains(kind) <==> before.contains(kind) || kind == kinds.last()) by {
                if all.contains(kind) {
                    let i = choose|i: int| 0 <= i < all.len() && all[i] == kind;
                    if i < before.len() {
                        assert(before[i] == kind);
                    }
                }
                if before.contains(kind) {
                    let i = choose|i: int| 0 <= i < before.len() && before[i] == kind;
                    assert(all[i] == kind);
                }
                assert(all[before.len() as int] == kinds.last());
            }
        }
    }
}

proof fn lemma_unrelated_records(records: Seq<RecordTree>, record: RecordTree)
    ensures
        source_intake::unrelated_records(records).contains(record) <==> records.contains(record)
            && record.kind != EvidenceKind::Relationship,
    decreases records.len(),
{
    if records.len() > 0 {
        let front = records.drop_last();
        lemma_unrelated_records(front, record);
        let before = source_intake::unrelated_records(front);
        let all = source_intake::unrelated_records(records);
        assert(records.contains(record) <==> front.contains(record) || record == records.last())
            by {
            if records.contains(record) {
                let i = choose|i: int| 0 <= i < records.len() && records[i] == record;
                if i < front.len() {
                    assert(front[i] == record);
                }
            }
            if front.contains(record) {
                let i = choose|i: int| 0 <= i < front.len() && front[i] == record;
                assert(records[i] == record);
            }
            assert(records[records.len() - 1] == records.last());
        }
        if records.last().kind != EvidenceKind::Relationship {
            assert(all.contains(record) <==> before.contains(record) || record == records.last())
                by {
                if all.contains(record) {
                    let i = choose|i: int| 0 <= i < all.len() && all[i] == record;
                    if i < before.len() {
                        assert(before[i] == record);
                    }
                }
                if before.contains(record) {
                    let i = choose|i: int| 0 <= i < before.len() && before[i] == record;
                    assert(all[i] == record);
                }
                assert(all[before.len() as int] == records.last());
            }
        }
    }
}

/// Whether a record is one of some records.
pub open spec fn is_among(records: Seq<EvidenceRecord>, record: RecordTree) -> bool {
    exists|i: int| 0 <= i < records.len() && (#[trigger] records[i])@ == record
}

/// Where related sessions were declined, exactly the relationships are taken out of a
/// snapshot, of what it covers and of its records; where they were not, nothing is.
pub proof fn law_declined_relationships_are_left_out(
    evidence: NormalizedSourceEvidence,
    include_related: bool,
    kept: NormalizedSourceEvidence,
    kind: EvidenceKind,
    record: RecordTree,
)
    requires
        call_ensures(restrict_related, (evidence, include_related), kept),
    ensures
        kept.source_stamp@ == evidence.source_stamp@,
        kept.source_bytes == evidence.source_bytes,
        kept.covered_kinds@.contains(kind) <==> evidence.covered_kinds@.contains(kind) && (
        include_related || kind != EvidenceKind::Relationship),
        is_among(kept.records@, record) <==> is_among(evidence.records@, record) && (
        include_related || record.kind != EvidenceKind::Relationship),
{
    if !include_related {
        lemma_unrelated_kinds(evidence.covered_kinds@, kind);
        lemma_unrelated_records(source_evidence::record_views(evidence.records@), record);
        lemma_among(kept.records@, record);
        lemma_among(evidence.records@, record);
    }
}

proof fn lemma_among(records: Seq<EvidenceRecord>, record: RecordTree)
    ensures
        source_evidence::record_views(records).contains(record) == is_among(records, record),
{
    let trees = source_evidence::record_views(records);
    if trees.contains(record) {
        let i = choose|i: int| 0 <= i < trees.len() && trees[i] == record;
        assert(records[i]@ == record);
    }
    if is_among(records, record) {
        let i = choose|i: int| 0 <= i < records.len() && (#[trigger] records[i])@ == record;
        assert(trees[i] == record);
    }
}

} // verus!
