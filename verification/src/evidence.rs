//! Everything that the store holds about one session, typed.
//!
//! What a read loads is the source's coverage narrowed by the query. A kind that
//! the source cannot produce is never loaded, whatever was asked for.
use crate::catalog;
use crate::catalog::{CatalogSession, ShallowSession};
use crate::digest;
use crate::digest::prompt_hash;
use crate::json;
use crate::json::JsonValue;
use crate::messages;
use crate::messages::{flag, group_messages, show, Message};
use crate::session_store;
use crate::session_store::{
    contains_kind,
    copied_kinds,
    Diagnostic,
    Error,
    NameView,
    Source,
    SourceName,
};
use crate::session_usage;
use crate::session_usage::{all_requests, session_usage_summary, SessionRequest, SessionUsageSummary};
use crate::source_evidence::EvidenceKind;
use crate::store::{SessionEvent, SessionFileEdit, SessionToolCall, SourceNames};
use crate::text;
use crate::text::same_text;
use vstd::prelude::*;
use vstd::string::*;

verus! {

/// What is read of a session.
#[derive(Debug)]
#[non_exhaustive]
pub struct SessionQuery {
    /// Carry texts. Without them, sizes and hashes stay.
    pub include_text: bool,
    /// Only these kinds; without a list, all of them.
    pub kinds: Option<Vec<EvidenceKind>>,
}

impl Default for SessionQuery {
    fn default() -> (r: Self)
        ensures
            r.include_text,
            r.kinds is None,
    {
        SessionQuery { include_text: true, kinds: None }
    }
}

/// Whether a query asks for a kind.
pub open spec fn asks_for(kinds: Option<Vec<EvidenceKind>>, kind: EvidenceKind) -> bool {
    match kinds {
        Some(list) => list@.contains(kind),
        None => true,
    }
}

/// What a query loads of a source's coverage, in the order of the coverage.
pub open spec fn selected_kinds(
    coverage: Seq<EvidenceKind>,
    kinds: Option<Vec<EvidenceKind>>,
) -> Seq<EvidenceKind>
    decreases coverage.len(),
{
    if coverage.len() == 0 {
        Seq::empty()
    } else {
        let before = selected_kinds(coverage.drop_last(), kinds);
        if asks_for(kinds, coverage.last()) {
            before.push(coverage.last())
        } else {
            before
        }
    }
}

/// A kind is loaded where the source covers it and the query asks for it, and only
/// there.
pub proof fn law_loaded_is_covered_and_asked_for(
    coverage: Seq<EvidenceKind>,
    kinds: Option<Vec<EvidenceKind>>,
    kind: EvidenceKind,
)
    ensures
        selected_kinds(coverage, kinds).contains(kind) == (coverage.contains(kind) && asks_for(
            kinds,
            kind,
        )),
    decreases coverage.len(),
{
    if coverage.len() > 0 {
        let rest = coverage.drop_last();
        law_loaded_is_covered_and_asked_for(rest, kinds, kind);
        let before = selected_kinds(rest, kinds);
        let all = selected_kinds(coverage, kinds);
        if coverage.contains(kind) {
            let i = choose|i: int| 0 <= i < coverage.len() && coverage[i] == kind;
            if i < rest.len() {
                assert(rest[i] == kind);
            }
        }
        if rest.contains(kind) {
            let i = choose|i: int| 0 <= i < rest.len() && rest[i] == kind;
            assert(coverage[i] == kind);
        }
        assert(coverage[coverage.len() - 1] == coverage.last());
        if asks_for(kinds, coverage.last()) {
            assert(all[before.len() as int] == coverage.last());
            if before.contains(kind) {
                let i = choose|i: int| 0 <= i < before.len() && before[i] == kind;
                assert(all[i] == kind);
            }
            if all.contains(kind) {
                let i = choose|i: int| 0 <= i < all.len() && all[i] == kind;
                if i < before.len() {
                    assert(before[i] == kind);
                }
            }
        }
    }
}

/// A query without a list of kinds loads the whole coverage.
pub proof fn law_default_query_loads_the_coverage(coverage: Seq<EvidenceKind>)
    ensures
        selected_kinds(coverage, None) == coverage,
    decreases coverage.len(),
{
    if coverage.len() > 0 {
        law_default_query_loads_the_coverage(coverage.drop_last());
        assert(coverage.drop_last().push(coverage.last()) =~= coverage);
    } else {
        assert(selected_kinds(coverage, None) =~= coverage);
    }
}

/// The kinds of a source's coverage that a query loads.
pub fn select_kinds(coverage: &Vec<EvidenceKind>, query: &SessionQuery) -> (r: Vec<EvidenceKind>)
    ensures
        r@ == selected_kinds(coverage@, query.kinds),
{
    let mut out: Vec<EvidenceKind> = Vec::new();
    let mut i: usize = 0;
    assert(out@ =~= selected_kinds(coverage@.take(0), query.kinds));
    while i < coverage.len()
        invariant
            i <= coverage.len(),
            out@ == selected_kinds(coverage@.take(i as int), query.kinds),
        decreases coverage.len() - i,
    {
        let kind = coverage[i];
        proof {
            let next = coverage@.take(i + 1);
            assert(next.drop_last() =~= coverage@.take(i as int));
            assert(next.last() == kind);
        }
        let asked = match &query.kinds {
            Some(list) => contains_kind(list, kind),
            None => true,
        };
        if asked {
            out.push(kind);
        }
        i = i + 1;
    }
    assert(coverage@.take(coverage@.len() as int) =~= coverage@);
    out
}

/// A prompt as it is stored.
#[derive(Debug)]
pub struct PromptRow {
    pub prompt: Option<String>,
    pub prompt_hash: Option<String>,
    pub prompt_bytes: i64,
    pub project: Option<String>,
    pub timestamp_ms: i64,
}

/// One prompt.
#[derive(Debug)]
#[non_exhaustive]
pub struct Prompt {
    /// `None` where no text was asked for.
    pub prompt: Option<String>,
    /// The stored hash, or the hash of the text where it is carried.
    pub prompt_hash: Option<String>,
    pub prompt_bytes: i64,
    pub project: Option<String>,
    pub timestamp_ms: i64,
}

/// Whether a prompt is what is stored of it. A hash is taken only of a text that
/// is carried, never of nothing.
pub open spec fn is_prompt(prompt: Prompt, row: PromptRow, include_text: bool) -> bool {
    &&& prompt.prompt == messages::shown(row.prompt, include_text)
    &&& text::opt_view(prompt.prompt_hash) == match row.prompt_hash {
        Some(hash) => Some(hash@),
        None => match prompt.prompt {
            Some(text) => Some(digest::prompt_digest(text@)),
            None => None,
        },
    }
    &&& prompt.prompt_bytes == row.prompt_bytes
    &&& prompt.project == row.project
    &&& prompt.timestamp_ms == row.timestamp_ms
}

impl Prompt {
    /// The prompt of a stored one.
    pub fn from_row(row: &PromptRow, include_text: bool) -> (r: Self)
        ensures
            is_prompt(r, *row, include_text),
    {
        let prompt = show(&row.prompt, include_text);
        let hash = match &row.prompt_hash {
            Some(hash) => Some(hash.clone()),
            None => match &prompt {
                Some(text) => Some(prompt_hash(text.as_str())),
                None => None,
            },
        };
        Prompt {
            prompt,
            prompt_hash: hash,
            prompt_bytes: row.prompt_bytes,
            project: row.project.clone(),
            timestamp_ms: row.timestamp_ms,
        }
    }
}

/// The view of an optional JSON value.
pub open spec fn json_view(value: Option<JsonValue>) -> Option<json::JsonTree> {
    match value {
        Some(value) => Some(value@),
        None => None,
    }
}

/// What a stored text decodes to, where it is JSON.
pub open spec fn decoded_column(text: Option<String>) -> Option<json::JsonTree> {
    match text {
        Some(text) => match json::decoded(text@) {
            Ok(value) => Some(value),
            Err(_) => None,
        },
        None => None,
    }
}

fn decode_column(text: &Option<String>) -> (r: Option<JsonValue>)
    ensures
        json_view(r) == decoded_column(*text),
{
    match text {
        Some(text) => match json::decode(text.as_str()) {
            Ok(value) => Some(value),
            Err(_) => None,
        },
        None => None,
    }
}

/// One call of a tool.
#[derive(Debug)]
#[non_exhaustive]
pub struct ToolCall {
    pub tool_use_id: String,
    pub message_id: Option<String>,
    pub name: String,
    pub target: Option<String>,
    /// The arguments; `None` where none are stored or they are no JSON.
    pub args: Option<JsonValue>,
    pub is_error: Option<bool>,
    pub ts_ms: Option<i64>,
    /// The stored arguments, as they are.
    pub args_json: Option<String>,
}

/// Whether a call is what is stored of it.
pub open spec fn is_tool_call(call: ToolCall, row: SessionToolCall) -> bool {
    &&& call.tool_use_id == row.tool_use_id
    &&& call.message_id == row.message_id
    &&& call.name == row.name
    &&& call.target == row.target
    &&& json_view(call.args) == decoded_column(row.args_json)
    &&& call.is_error == messages::flag_of(row.is_error)
    &&& call.ts_ms == row.ts_ms
    &&& call.args_json == row.args_json
}

impl ToolCall {
    /// The call of a stored one.
    pub fn from_row(row: &SessionToolCall) -> (r: Self)
        ensures
            is_tool_call(r, *row),
    {
        ToolCall {
            tool_use_id: row.tool_use_id.clone(),
            message_id: row.message_id.clone(),
            name: row.name.clone(),
            target: row.target.clone(),
            args: decode_column(&row.args_json),
            is_error: flag(row.is_error),
            ts_ms: row.ts_ms,
            args_json: row.args_json.clone(),
        }
    }

    /// The stored arguments, as they are.
    pub fn raw_args(&self) -> (r: Option<&str>)
        ensures
            match r {
                Some(text) => text::opt_view(self.args_json) == Some(text@),
                None => self.args_json is None,
            },
    {
        match &self.args_json {
            Some(text) => Some(text.as_str()),
            None => None,
        }
    }
}

/// The result of a tool, with what was measured of it.
#[derive(Debug)]
#[non_exhaustive]
pub struct ToolResult {
    pub event_uid: String,
    pub message_id: Option<String>,
    pub ts_ms: i64,
    pub tool_use_id: Option<String>,
    pub call_index: Option<i64>,
    pub event_index: Option<i64>,
    pub payload_bytes: Option<i64>,
    pub payload_truncated: Option<bool>,
    pub payload_hash: Option<String>,
    pub result_status: Option<String>,
    pub event_source: Option<String>,
    pub error_signal: Option<String>,
    pub subagent_session_id: Option<String>,
    pub agent_id: Option<String>,
    pub text: Option<String>,
    pub text_bytes: Option<i64>,
    pub raw_kind: Option<String>,
}

/// Whether a tool result is what an event tells.
pub open spec fn is_tool_result(
    result: ToolResult,
    event: SessionEvent,
    size: Option<i64>,
    include_text: bool,
) -> bool {
    &&& result.event_uid == event.event_uid
    &&& result.message_id == event.message_id
    &&& result.ts_ms == event.ts_ms
    &&& result.tool_use_id == event.tool_use_id
    &&& result.call_index == event.call_index
    &&& result.event_index == event.event_index
    &&& result.payload_bytes == event.payload_bytes
    &&& result.payload_truncated == messages::flag_of(event.payload_truncated)
    &&& result.payload_hash == event.payload_hash
    &&& result.result_status == event.result_status
    &&& result.event_source == event.event_source
    &&& result.error_signal == event.error_signal
    &&& result.subagent_session_id == event.subagent_session_id
    &&& result.agent_id == event.agent_id
    &&& result.text == messages::shown(event.text, include_text)
    &&& result.text_bytes == size
    &&& result.raw_kind == event.raw_kind
}

impl ToolResult {
    /// The tool result that an event tells.
    pub fn from_event(event: &SessionEvent, text_bytes: Option<i64>, include_text: bool) -> (r: Self)
        ensures
            is_tool_result(r, *event, text_bytes, include_text),
    {
        ToolResult {
            event_uid: event.event_uid.clone(),
            message_id: event.message_id.clone(),
            ts_ms: event.ts_ms,
            tool_use_id: event.tool_use_id.clone(),
            call_index: event.call_index,
            event_index: event.event_index,
            payload_bytes: event.payload_bytes,
            payload_truncated: flag(event.payload_truncated),
            payload_hash: event.payload_hash.clone(),
            result_status: event.result_status.clone(),
            event_source: event.event_source.clone(),
            error_signal: event.error_signal.clone(),
            subagent_session_id: event.subagent_session_id.clone(),
            agent_id: event.agent_id.clone(),
            text: show(&event.text, include_text),
            text_bytes,
            raw_kind: event.raw_kind.clone(),
        }
    }
}

/// One edit of a file.
#[derive(Debug)]
#[non_exhaustive]
pub struct FileEdit {
    pub tool_use_id: String,
    pub message_id: Option<String>,
    pub file_path: String,
    pub tool_name: Option<String>,
    pub lines_added: Option<i64>,
    pub lines_removed: Option<i64>,
    pub structured_patch: Option<JsonValue>,
    pub user_modified: Option<bool>,
    pub ts_ms: Option<i64>,
    pub git_branch: Option<String>,
    pub cwd: Option<String>,
    /// The stored patch, as it is.
    pub structured_patch_json: Option<String>,
}

/// Whether an edit is what is stored of it.
pub open spec fn is_file_edit(edit: FileEdit, row: SessionFileEdit) -> bool {
    &&& edit.tool_use_id == row.tool_use_id
    &&& edit.message_id == row.message_id
    &&& edit.file_path == row.file_path
    &&& edit.tool_name == row.tool_name
    &&& edit.lines_added == row.lines_added
    &&& edit.lines_removed == row.lines_removed
    &&& json_view(edit.structured_patch) == decoded_column(row.structured_patch_json)
    &&& edit.user_modified == messages::flag_of(row.user_modified)
    &&& edit.ts_ms == row.ts_ms
    &&& edit.git_branch == row.git_branch
    &&& edit.cwd == row.cwd
    &&& edit.structured_patch_json == row.structured_patch_json
}

impl FileEdit {
    /// The edit of a stored one.
    pub fn from_row(row: &SessionFileEdit) -> (r: Self)
        ensures
            is_file_edit(r, *row),
    {
        FileEdit {
            tool_use_id: row.tool_use_id.clone(),
            message_id: row.message_id.clone(),
            file_path: row.file_path.clone(),
            tool_name: row.tool_name.clone(),
            lines_added: row.lines_added,
            lines_removed: row.lines_removed,
            structured_patch: decode_column(&row.structured_patch_json),
            user_modified: flag(row.user_modified),
            ts_ms: row.ts_ms,
            git_branch: row.git_branch.clone(),
            cwd: row.cwd.clone(),
            structured_patch_json: row.structured_patch_json.clone(),
        }
    }

    /// The stored patch, as it is.
    pub fn raw_structured_patch(&self) -> (r: Option<&str>)
        ensures
            match r {
                Some(text) => text::opt_view(self.structured_patch_json) == Some(text@),
                None => self.structured_patch_json is None,
            },
    {
        match &self.structured_patch_json {
            Some(text) => Some(text.as_str()),
            None => None,
        }
    }
}

/// A marker as it is stored.
#[derive(Debug)]
pub struct SessionMarker {
    pub marker_uid: String,
    pub ts_ms: Option<i64>,
    pub message_id: Option<String>,
    pub parent_id: Option<String>,
    pub turn_id: Option<String>,
    pub kind: String,
    pub subkind: Option<String>,
    pub text: Option<String>,
    pub payload_json: Option<String>,
}

/// A provider's record that is no message.
#[derive(Debug)]
#[non_exhaustive]
pub struct Marker {
    pub marker_uid: String,
    pub ts_ms: Option<i64>,
    pub message_id: Option<String>,
    pub parent_id: Option<String>,
    pub turn_id: Option<String>,
    pub kind: String,
    pub subkind: Option<String>,
    pub text: Option<String>,
    pub payload: Option<JsonValue>,
    /// The stored payload, as it is.
    pub payload_json: Option<String>,
}

/// Whether a marker is what is stored of it.
pub open spec fn is_marker(marker: Marker, row: SessionMarker, include_text: bool) -> bool {
    &&& marker.marker_uid == row.marker_uid
    &&& marker.ts_ms == row.ts_ms
    &&& marker.message_id == row.message_id
    &&& marker.parent_id == row.parent_id
    &&& marker.turn_id == row.turn_id
    &&& marker.kind == row.kind
    &&& marker.subkind == row.subkind
    &&& marker.text == messages::shown(row.text, include_text)
    &&& json_view(marker.payload) == decoded_column(row.payload_json)
    &&& marker.payload_json == row.payload_json
}

impl Marker {
    /// The marker of a stored one.
    pub fn from_row(row: &SessionMarker, include_text: bool) -> (r: Self)
        ensures
            is_marker(r, *row, include_text),
    {
        Marker {
            marker_uid: row.marker_uid.clone(),
            ts_ms: row.ts_ms,
            message_id: row.message_id.clone(),
            parent_id: row.parent_id.clone(),
            turn_id: row.turn_id.clone(),
            kind: row.kind.clone(),
            subkind: row.subkind.clone(),
            text: show(&row.text, include_text),
            payload: decode_column(&row.payload_json),
            payload_json: row.payload_json.clone(),
        }
    }

    /// The stored payload, as it is.
    pub fn raw_payload(&self) -> (r: Option<&str>)
        ensures
            match r {
                Some(text) => text::opt_view(self.payload_json) == Some(text@),
                None => self.payload_json is None,
            },
    {
        match &self.payload_json {
            Some(text) => Some(text.as_str()),
            None => None,
        }
    }
}

impl Message {
    /// The stored usage of the message, as it is.
    pub fn raw_usage(&self) -> (r: Option<&str>)
        ensures
            match r {
                Some(text) => text::opt_view(self.token_json) == Some(text@),
                None => self.token_json is None,
            },
    {
        match &self.token_json {
            Some(text) => Some(text.as_str()),
            None => None,
        }
    }
}

/// Which end of a relationship the session is on.
#[derive(Debug, Clone, Copy, PartialEq, Eq, Hash, Structural)]
#[non_exhaustive]
pub enum RelationshipSide {
    /// The session delegated.
    Parent,
    /// The session was delegated to.
    Child,
    /// A fork, a resume or a continuation.
    Continuity,
}

/// A relationship as it is stored.
#[derive(Debug)]
pub struct SessionRelationship {
    pub relationship: String,
    pub relationship_uid: String,
    pub parent_session_id: String,
    pub child_session_id: Option<String>,
    pub identity_status: String,
    pub child_agent_type: Option<String>,
    pub child_agent_name: Option<String>,
    pub child_model: Option<String>,
    pub spawn_depth: Option<i64>,
    pub evidence_kind: String,
    pub evidence_locator: Option<String>,
    pub evidence_ref: Option<String>,
    pub child_has_events: bool,
    pub spawned_at_ms: Option<i64>,
    pub created_ms: i64,
    pub origin_session_id: Option<String>,
}

/// A relationship, seen from the session.
#[derive(Debug)]
#[non_exhaustive]
pub struct Relationship {
    pub side: RelationshipSide,
    pub relationship: String,
    pub relationship_uid: String,
    pub parent_session_id: String,
    pub child_session_id: Option<String>,
    pub identity_status: String,
    pub child_agent_type: Option<String>,
    pub child_agent_name: Option<String>,
    pub child_model: Option<String>,
    pub spawn_depth: Option<i64>,
    pub evidence_kind: String,
    pub evidence_locator: Option<String>,
    pub evidence_ref: Option<String>,
    pub child_has_events: bool,
    pub spawned_at_ms: Option<i64>,
    pub created_ms: i64,
    pub origin_session_id: Option<String>,
}

/// Whether a relationship is what is stored of it, from one side.
pub open spec fn is_relationship(
    edge: Relationship,
    row: SessionRelationship,
    side: RelationshipSide,
) -> bool {
    &&& edge.side == side
    &&& edge.relationship == row.relationship
    &&& edge.relationship_uid == row.relationship_uid
    &&& edge.parent_session_id == row.parent_session_id
    &&& edge.child_session_id == row.child_session_id
    &&& edge.identity_status == row.identity_status
    &&& edge.child_agent_type == row.child_agent_type
    &&& edge.child_agent_name == row.child_agent_name
    &&& edge.child_model == row.child_model
    &&& edge.spawn_depth == row.spawn_depth
    &&& edge.evidence_kind == row.evidence_kind
    &&& edge.evidence_locator == row.evidence_locator
    &&& edge.evidence_ref == row.evidence_ref
    &&& edge.child_has_events == row.child_has_events
    &&& edge.spawned_at_ms == row.spawned_at_ms
    &&& edge.created_ms == row.created_ms
    &&& edge.origin_session_id == row.origin_session_id
}

impl Relationship {
    /// The relationship of a stored one, from one side.
    pub fn from_row(row: &SessionRelationship, side: RelationshipSide) -> (r: Self)
        ensures
            is_relationship(r, *row, side),
    {
        Relationship {
            side,
            relationship: row.relationship.clone(),
            relationship_uid: row.relationship_uid.clone(),
            parent_session_id: row.parent_session_id.clone(),
            child_session_id: row.child_session_id.clone(),
            identity_status: row.identity_status.clone(),
            child_agent_type: row.child_agent_type.clone(),
            child_agent_name: row.child_agent_name.clone(),
            child_model: row.child_model.clone(),
            spawn_depth: row.spawn_depth,
            evidence_kind: row.evidence_kind.clone(),
            evidence_locator: row.evidence_locator.clone(),
            evidence_ref: row.evidence_ref.clone(),
            child_has_events: row.child_has_events,
            spawned_at_ms: row.spawned_at_ms,
            created_ms: row.created_ms,
            origin_session_id: row.origin_session_id.clone(),
        }
    }
}

/// The relationships of a session, as they are stored.
#[derive(Debug)]
pub struct RelationshipGraph {
    pub as_parent: Vec<SessionRelationship>,
    pub as_child: Vec<SessionRelationship>,
    pub continuity: Vec<SessionRelationship>,
    pub diagnostics: Vec<Diagnostic>,
}

/// Everything that is stored of one session. The user turns are the caller's own
/// type.
#[derive(Debug)]
pub struct SessionTables<T> {
    pub prompts: Vec<PromptRow>,
    pub events: Vec<SessionEvent>,
    /// The size of each event's text in bytes.
    pub text_bytes: Vec<Option<i64>>,
    pub user_turns: Vec<T>,
    pub tool_calls: Vec<SessionToolCall>,
    pub file_edits: Vec<SessionFileEdit>,
    pub markers: Vec<SessionMarker>,
    pub graph: RelationshipGraph,
}

/// Everything that the store holds about one session.
#[derive(Debug)]
#[non_exhaustive]
pub struct SessionEvidence<T> {
    pub session: CatalogSession,
    pub prompts: Vec<Prompt>,
    pub messages: Vec<Message>,
    pub tool_calls: Vec<ToolCall>,
    pub tool_results: Vec<ToolResult>,
    pub file_edits: Vec<FileEdit>,
    pub markers: Vec<Marker>,
    pub relationships: Vec<Relationship>,
    pub requests: Vec<SessionRequest>,
    pub usage: Option<SessionUsageSummary>,
    pub user_turns: Vec<T>,
    /// What the source's parser can produce at all.
    pub coverage: Vec<EvidenceKind>,
    /// What was loaded.
    pub loaded: Vec<EvidenceKind>,
    /// Whether texts are carried.
    pub include_text: bool,
    pub diagnostics: Vec<Diagnostic>,
}

/// The events that hold a tool result, among the first.
pub open spec fn result_places(events: Seq<SessionEvent>, n: int) -> Seq<int>
    decreases n,
{
    if n <= 0 {
        Seq::empty()
    } else if events[n - 1].kind@ == "tool_result"@ {
        result_places(events, n - 1).push(n - 1)
    } else {
        result_places(events, n - 1)
    }
}

/// Whether some tool results are those of a session's events.
pub open spec fn are_tool_results(
    results: Seq<ToolResult>,
    events: Seq<SessionEvent>,
    sizes: Seq<Option<i64>>,
    include_text: bool,
    n: int,
) -> bool {
    let places = result_places(events, n);
    &&& results.len() == places.len()
    &&& forall|k: int|
        0 <= k < places.len() ==> is_tool_result(
            #[trigger] results[k],
            events[places[k]],
            messages::size_at(sizes, places[k]),
            include_text,
        )
}

fn tool_results_of(events: &Vec<SessionEvent>, sizes: &Vec<Option<i64>>, include_text: bool) -> (r:
    Vec<ToolResult>)
    ensures
        are_tool_results(r@, events@, sizes@, include_text, events@.len() as int),
{
    let mut out: Vec<ToolResult> = Vec::new();
    let mut i: usize = 0;
    while i < events.len()
        invariant
            i <= events.len(),
            are_tool_results(out@, events@, sizes@, include_text, i as int),
        decreases events.len() - i,
    {
        let size = if i < sizes.len() {
            sizes[i]
        } else {
            None
        };
        if same_text(events[i].kind.as_str(), "tool_result") {
            out.push(ToolResult::from_event(&events[i], size, include_text));
        }
        i = i + 1;
    }
    out
}

/// Whether some prompts are those that are stored.
pub open spec fn are_prompts(prompts: Seq<Prompt>, rows: Seq<PromptRow>, include_text: bool) -> bool {
    &&& prompts.len() == rows.len()
    &&& forall|i: int| 0 <= i < rows.len() ==> is_prompt(#[trigger] prompts[i], rows[i], include_text)
}

fn prompts_of(rows: &Vec<PromptRow>, include_text: bool) -> (r: Vec<Prompt>)
    ensures
        are_prompts(r@, rows@, include_text),
{
    let mut out: Vec<Prompt> = Vec::new();
    let mut i: usize = 0;
    while i < rows.len()
        invariant
            i <= rows.len(),
            out@.len() == i,
            forall|j: int| 0 <= j < i ==> is_prompt(#[trigger] out@[j], rows@[j], include_text),
        decreases rows.len() - i,
    {
        out.push(Prompt::from_row(&rows[i], include_text));
        i = i + 1;
    }
    out
}

/// Whether some calls are those that are stored.
pub open spec fn are_tool_calls(calls: Seq<ToolCall>, rows: Seq<SessionToolCall>) -> bool {
    &&& calls.len() == rows.len()
    &&& forall|i: int| 0 <= i < rows.len() ==> is_tool_call(#[trigger] calls[i], rows[i])
}

fn tool_calls_of(rows: &Vec<SessionToolCall>) -> (r: Vec<ToolCall>)
    ensures
        are_tool_calls(r@, rows@),
{
    let mut out: Vec<ToolCall> = Vec::new();
    let mut i: usize = 0;
    while i < rows.len()
        invariant
            i <= rows.len(),
            out@.len() == i,
            forall|j: int| 0 <= j < i ==> is_tool_call(#[trigger] out@[j], rows@[j]),
        decreases rows.len() - i,
    {
        out.push(ToolCall::from_row(&rows[i]));
        i = i + 1;
    }
    out
}

/// Whether some edits are those that are stored.
pub open spec fn are_file_edits(edits: Seq<FileEdit>, rows: Seq<SessionFileEdit>) -> bool {
    &&& edits.len() == rows.len()
    &&& forall|i: int| 0 <= i < rows.len() ==> is_file_edit(#[trigger] edits[i], rows[i])
}

fn file_edits_of(rows: &Vec<SessionFileEdit>) -> (r: Vec<FileEdit>)
    ensures
        are_file_edits(r@, rows@),
{
    let mut out: Vec<FileEdit> = Vec::new();
    let mut i: usize = 0;
    while i < rows.len()
        invariant
            i <= rows.len(),
            out@.len() == i,
            forall|j: int| 0 <= j < i ==> is_file_edit(#[trigger] out@[j], rows@[j]),
        decreases rows.len() - i,
    {
        out.push(FileEdit::from_row(&rows[i]));
        i = i + 1;
    }
    out
}

/// Whether some markers are those that are stored.
pub open spec fn are_markers(
    markers: Seq<Marker>,
    rows: Seq<SessionMarker>,
    include_text: bool,
) -> bool {
    &&& markers.len() == rows.len()
    &&& forall|i: int| 0 <= i < rows.len() ==> is_marker(#[trigger] markers[i], rows[i], include_text)
}

fn markers_of(rows: &Vec<SessionMarker>, include_text: bool) -> (r: Vec<Marker>)
    ensures
        are_markers(r@, rows@, include_text),
{
    let mut out: Vec<Marker> = Vec::new();
    let mut i: usize = 0;
    while i < rows.len()
        invariant
            i <= rows.len(),
            out@.len() == i,
            forall|j: int| 0 <= j < i ==> is_marker(#[trigger] out@[j], rows@[j], include_text),
        decreases rows.len() - i,
    {
        out.push(Marker::from_row(&rows[i], include_text));
        i = i + 1;
    }
    out
}

/// Whether some relationships, from a place on, are those of stored ones from one
/// side.
pub open spec fn are_edges(
    edges: Seq<Relationship>,
    from: int,
    rows: Seq<SessionRelationship>,
    side: RelationshipSide,
) -> bool {
    &&& from + rows.len() <= edges.len()
    &&& forall|i: int| 0 <= i < rows.len() ==> is_relationship(#[trigger] edges[from + i], rows[i], side)
}

/// Whether some relationships are those of a graph: as a parent, as a child, and
/// of continuity, in that order.
pub open spec fn are_relationships(edges: Seq<Relationship>, graph: RelationshipGraph) -> bool {
    let a = graph.as_parent@.len() as int;
    let b = graph.as_child@.len() as int;
    &&& edges.len() == a + b + graph.continuity@.len()
    &&& are_edges(edges, 0, graph.as_parent@, RelationshipSide::Parent)
    &&& are_edges(edges, a, graph.as_child@, RelationshipSide::Child)
    &&& are_edges(edges, a + b, graph.continuity@, RelationshipSide::Continuity)
}

fn add_edges(edges: &mut Vec<Relationship>, rows: &Vec<SessionRelationship>, side: RelationshipSide)
    ensures
        final(edges)@.len() == old(edges)@.len() + rows@.len(),
        final(edges)@.take(old(edges)@.len() as int) == old(edges)@,
        are_edges(final(edges)@, old(edges)@.len() as int, rows@, side),
{
    let ghost start = edges@;
    let mut i: usize = 0;
    assert(edges@.take(start.len() as int) =~= start);
    while i < rows.len()
        invariant
            i <= rows.len(),
            edges@.len() == start.len() + i,
            edges@.take(start.len() as int) == start,
            forall|j: int|
                0 <= j < i ==> is_relationship(#[trigger] edges@[start.len() + j], rows@[j], side),
        decreases rows.len() - i,
    {
        let ghost before = edges@;
        edges.push(Relationship::from_row(&rows[i], side));
        proof {
            assert(edges@.take(start.len() as int) =~= before.take(start.len() as int));
            assert forall|j: int| 0 <= j < i + 1 implies is_relationship(
                #[trigger] edges@[start.len() + j],
                rows@[j],
                side,
            ) by {
                if j < i {
                    assert(edges@[start.len() + j] == before[start.len() + j]);
                }
            }
        }
        i = i + 1;
    }
}

fn relationships_of(graph: &RelationshipGraph) -> (r: Vec<Relationship>)
    ensures
        are_relationships(r@, *graph),
{
    let mut edges: Vec<Relationship> = Vec::new();
    add_edges(&mut edges, &graph.as_parent, RelationshipSide::Parent);
    let ghost one = edges@;
    add_edges(&mut edges, &graph.as_child, RelationshipSide::Child);
    let ghost two = edges@;
    add_edges(&mut edges, &graph.continuity, RelationshipSide::Continuity);
    proof {
        let all = edges@;
        let a = graph.as_parent@.len() as int;
        let b = graph.as_child@.len() as int;
        assert forall|i: int| 0 <= i < a implies is_relationship(
            #[trigger] all[0 + i],
            graph.as_parent@[i],
            RelationshipSide::Parent,
        ) by {
            assert(all.take(two.len() as int)[i] == two[i]);
            assert(two.take(one.len() as int)[i] == one[i]);
            assert(is_relationship(one[0 + i], graph.as_parent@[i], RelationshipSide::Parent));
        }
        assert forall|i: int| 0 <= i < b implies is_relationship(
            #[trigger] all[a + i],
            graph.as_child@[i],
            RelationshipSide::Child,
        ) by {
            assert(all.take(two.len() as int)[a + i] == two[a + i]);
            assert(is_relationship(two[a + i], graph.as_child@[i], RelationshipSide::Child));
        }
        assert forall|i: int| 0 <= i < graph.continuity@.len() implies is_relationship(
            #[trigger] all[a + b + i],
            graph.continuity@[i],
            RelationshipSide::Continuity,
        ) by {
            assert(two.len() == a + b);
            assert(is_relationship(
                all[two.len() + i],
                graph.continuity@[i],
                RelationshipSide::Continuity,
            ));
        }
    }
    edges
}

/// A catalog row without its excerpts, where no text was asked for.
pub open spec fn bare_row(row: ShallowSession, include_text: bool) -> ShallowSession {
    ShallowSession {
        first_prompt: messages::shown(row.first_prompt, include_text),
        last_assistant_text: messages::shown(row.last_assistant_text, include_text),
        ..row
    }
}

/// Whether what is told of a session's events is what they tell.
pub open spec fn tells_events<T>(
    evidence: SessionEvidence<T>,
    source: Source,
    first: Seq<char>,
    session: Seq<char>,
    tables: SessionTables<T>,
    controls: Seq<Seq<char>>,
    include_text: bool,
) -> bool {
    let name = session_store::source_label(source, first);
    let named = NameView { name, kind: Some(source) };
    let events = tables.events@;
    &&& messages::are_messages(
        evidence.messages@,
        source,
        events,
        tables.text_bytes@,
        controls,
        include_text,
        events.len() as int,
    )
    &&& are_tool_results(
        evidence.tool_results@,
        events,
        tables.text_bytes@,
        include_text,
        events.len() as int,
    )
    &&& evidence.user_turns == tables.user_turns
    &&& exists|raws: Seq<session_usage::RawRequest>| #[trigger]
        session_usage::are_requests(raws, events, named, session) && session_usage::are_all_requests(
            evidence.requests@,
            raws,
            tables.tool_calls@,
        )
    &&& match evidence.usage {
        Some(summary) => exists|raws: Seq<session_usage::RawRequest>| #[trigger]
            session_usage::are_requests(raws, events, named, session) && raws.len() > 0
                && session_usage::is_summary(summary, raws, name, session),
        None => session_usage::request_keys(events, name, session, events.len() as int).len() == 0,
    }
}

/// Whether the evidence of a session is what its tables hold, as far as a query
/// asks for it.
pub open spec fn is_evidence<T>(
    evidence: SessionEvidence<T>,
    source: Source,
    first: Seq<char>,
    row: ShallowSession,
    query: SessionQuery,
    coverage: Seq<EvidenceKind>,
    tables: SessionTables<T>,
    controls: Seq<Seq<char>>,
) -> bool {
    let loaded = selected_kinds(coverage, query.kinds);
    let show = query.include_text;
    &&& catalog::is_catalog_session(evidence.session, bare_row(row, show), first)
    &&& evidence.coverage@ == coverage
    &&& evidence.loaded@ == loaded
    &&& evidence.include_text == show
    &&& if loaded.contains(EvidenceKind::History) {
        are_prompts(evidence.prompts@, tables.prompts@, show)
    } else {
        evidence.prompts@.len() == 0
    }
    &&& if loaded.contains(EvidenceKind::SessionEvent) {
        tells_events(evidence, source, first, row.session_id@, tables, controls, show)
    } else {
        &&& evidence.messages@.len() == 0
        &&& evidence.tool_results@.len() == 0
        &&& evidence.user_turns@.len() == 0
        &&& evidence.requests@.len() == 0
        &&& evidence.usage is None
    }
    &&& if loaded.contains(EvidenceKind::ToolCall) {
        are_tool_calls(evidence.tool_calls@, tables.tool_calls@)
    } else {
        evidence.tool_calls@.len() == 0
    }
    &&& if loaded.contains(EvidenceKind::FileEdit) {
        are_file_edits(evidence.file_edits@, tables.file_edits@)
    } else {
        evidence.file_edits@.len() == 0
    }
    &&& if loaded.contains(EvidenceKind::SessionMarker) {
        are_markers(evidence.markers@, tables.markers@, show)
    } else {
        evidence.markers@.len() == 0
    }
    &&& if loaded.contains(EvidenceKind::Relationship) {
        are_relationships(evidence.relationships@, tables.graph) && evidence.diagnostics
            == tables.graph.diagnostics
    } else {
        evidence.relationships@.len() == 0 && evidence.diagnostics@.len() == 0
    }
}

/// The evidence of one session, from what is stored of it. The row's source has to
/// be one that is known.
pub fn session_evidence<T>(
    source: Source,
    names: &SourceNames,
    row: ShallowSession,
    query: &SessionQuery,
    coverage: &Vec<EvidenceKind>,
    tables: SessionTables<T>,
    controls: &Vec<String>,
) -> (r: Result<SessionEvidence<T>, Error>)
    ensures
        match r {
            Ok(evidence) => is_evidence(
                evidence,
                source,
                names.claude@,
                row,
                *query,
                coverage@,
                tables,
                text::views(controls@),
            ),
            Err(error) => catalog::is_unknown_source(error, row, names.claude@),
        },
{
    let include_text = query.include_text;
    let session_id = row.session_id.clone();
    let mut row = row;
    if !include_text {
        row.first_prompt = None;
        row.last_assistant_text = None;
    }
    let session = match CatalogSession::from_row(row, names) {
        Ok(session) => session,
        Err(error) => return Err(error),
    };
    let loaded = select_kinds(coverage, query);
    let prompts = if contains_kind(&loaded, EvidenceKind::History) {
        prompts_of(&tables.prompts, include_text)
    } else {
        Vec::new()
    };
    let name = SourceName { name: source.as_str(names).to_owned(), kind: Some(source) };
    let wants_events = contains_kind(&loaded, EvidenceKind::SessionEvent);
    let messages = if wants_events {
        group_messages(
            source,
            tables.events.as_slice(),
            tables.text_bytes.as_slice(),
            controls,
            include_text,
        )
    } else {
        Vec::new()
    };
    let tool_results = if wants_events {
        tool_results_of(&tables.events, &tables.text_bytes, include_text)
    } else {
        Vec::new()
    };
    let requests = if wants_events {
        all_requests(
            tables.events.as_slice(),
            tables.tool_calls.as_slice(),
            &name,
            session_id.as_str(),
        )
    } else {
        Vec::new()
    };
    let usage = if wants_events {
        session_usage_summary(tables.events.as_slice(), &name, session_id.as_str())
    } else {
        None
    };
    let tool_calls = if contains_kind(&loaded, EvidenceKind::ToolCall) {
        tool_calls_of(&tables.tool_calls)
    } else {
        Vec::new()
    };
    let file_edits = if contains_kind(&loaded, EvidenceKind::FileEdit) {
        file_edits_of(&tables.file_edits)
    } else {
        Vec::new()
    };
    let markers = if contains_kind(&loaded, EvidenceKind::SessionMarker) {
        markers_of(&tables.markers, include_text)
    } else {
        Vec::new()
    };
    let wants_graph = contains_kind(&loaded, EvidenceKind::Relationship);
    let relationships = if wants_graph {
        relationships_of(&tables.graph)
    } else {
        Vec::new()
    };
    let user_turns = if wants_events {
        tables.user_turns
    } else {
        Vec::new()
    };
    let diagnostics = if wants_graph {
        tables.graph.diagnostics
    } else {
        Vec::new()
    };
    Ok(
        SessionEvidence {
            session,
            prompts,
            messages,
            tool_calls,
            tool_results,
            file_edits,
            markers,
            relationships,
            requests,
            usage,
            user_turns,
            coverage: copied_kinds(coverage),
            loaded,
            include_text,
            diagnostics,
        },
    )
}

/// A read without texts carries none: no excerpt, no prompt, no block, no tool
/// result and no marker holds one.
pub proof fn law_read_without_text_carries_none<T>(
    evidence: SessionEvidence<T>,
    source: Source,
    first: Seq<char>,
    row: ShallowSession,
    query: SessionQuery,
    coverage: Seq<EvidenceKind>,
    tables: SessionTables<T>,
    controls: Seq<Seq<char>>,
)
    requires
        is_evidence(evidence, source, first, row, query, coverage, tables, controls),
        !query.include_text,
    ensures
        evidence.session.first_prompt is None,
        evidence.session.last_assistant_text is None,
        forall|i: int| 0 <= i < evidence.prompts@.len() ==> (#[trigger] evidence.prompts@[i]).prompt is None,
        forall|i: int, k: int|
            0 <= i < evidence.messages@.len() && 0 <= k < evidence.messages@[i].blocks@.len() ==> (
            #[trigger] evidence.messages@[i].blocks@[k]).text is None,
        forall|i: int| 0 <= i < evidence.tool_results@.len() ==> (#[trigger] evidence.tool_results@[i]).text is None,
        forall|i: int| 0 <= i < evidence.markers@.len() ==> (#[trigger] evidence.markers@[i]).text is None,
{
}

} // verus!
