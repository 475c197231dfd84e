//! Validated canonical evidence records accepted from installed source adapters.
use crate::digest;
use crate::json;
use crate::json::{JsonNumber, JsonTree, JsonValue};
use crate::store::SessionLocation;
use crate::text;
use crate::text::{concat2, concat3, same_text};
use vstd::prelude::*;
use vstd::string::*;

verus! {

/// The kind of an evidence record.
#[derive(Debug, Clone, Copy, PartialEq, Eq, PartialOrd, Ord, Structural)]
pub enum EvidenceKind {
    History,
    SessionEvent,
    ToolCall,
    FileEdit,
    Relationship,
    CommitLink,
    SessionMarker,
}

/// What a remote connector must supply for its snapshot to count as complete. A
/// marker is no part of it: no connector can produce one.
pub const FULL_SESSION_KINDS: [EvidenceKind; 5] = [
    EvidenceKind::History,
    EvidenceKind::SessionEvent,
    EvidenceKind::ToolCall,
    EvidenceKind::FileEdit,
    EvidenceKind::Relationship,
];

/// Everything the transcript parser writes for one session.
pub const PARSED_SESSION_KINDS: [EvidenceKind; 6] = [
    EvidenceKind::History,
    EvidenceKind::SessionEvent,
    EvidenceKind::ToolCall,
    EvidenceKind::FileEdit,
    EvidenceKind::Relationship,
    EvidenceKind::SessionMarker,
];

/// The wire name of a kind.
pub open spec fn kind_label(kind: EvidenceKind) -> Seq<char> {
    match kind {
        EvidenceKind::History => "history"@,
        EvidenceKind::SessionEvent => "session_event"@,
        EvidenceKind::ToolCall => "tool_call"@,
        EvidenceKind::FileEdit => "file_edit"@,
        EvidenceKind::Relationship => "relationship"@,
        EvidenceKind::CommitLink => "commit_link"@,
        EvidenceKind::SessionMarker => "session_marker"@,
    }
}

/// The wire names of two kinds are the same only where the kinds are.
pub proof fn law_kind_labels_are_distinct(a: EvidenceKind, b: EvidenceKind)
    requires
        kind_label(a) == kind_label(b),
    ensures
        a == b,
{
    reveal_strlit("history");
    reveal_strlit("session_event");
    reveal_strlit("tool_call");
    reveal_strlit("file_edit");
    reveal_strlit("relationship");
    reveal_strlit("commit_link");
    reveal_strlit("session_marker");
    assert("history"@.len() == 7);
    assert("session_event"@.len() == 13);
    assert("tool_call"@.len() == 9 && "tool_call"@[0] == 't');
    assert("file_edit"@.len() == 9 && "file_edit"@[0] == 'f');
    assert("relationship"@.len() == 12);
    assert("commit_link"@.len() == 11);
    assert("session_marker"@.len() == 14);
}

/// The place of a kind in the order of kinds.
pub open spec fn kind_rank(kind: EvidenceKind) -> int {
    match kind {
        EvidenceKind::History => 0,
        EvidenceKind::SessionEvent => 1,
        EvidenceKind::ToolCall => 2,
        EvidenceKind::FileEdit => 3,
        EvidenceKind::Relationship => 4,
        EvidenceKind::CommitLink => 5,
        EvidenceKind::SessionMarker => 6,
    }
}

/// The comma-separated columns that identify one record of a kind.
pub open spec fn key_text(kind: EvidenceKind) -> Seq<char> {
    match kind {
        EvidenceKind::History => "source,timestamp_ms,prompt"@,
        EvidenceKind::SessionEvent => "source,session_id,event_uid"@,
        EvidenceKind::ToolCall => "source,session_id,tool_use_id"@,
        EvidenceKind::FileEdit => "source,session_id,tool_use_id"@,
        EvidenceKind::Relationship => "source,parent_session_id,relationship_uid"@,
        EvidenceKind::CommitLink => "source,session_id,commit_sha,match_method"@,
        EvidenceKind::SessionMarker => "source,session_id,marker_uid"@,
    }
}

/// The comma-separated columns that this database derives for itself.
pub open spec fn derived_text(kind: EvidenceKind) -> Seq<char> {
    match kind {
        EvidenceKind::SessionEvent => "project_key,project_key_method"@,
        _ => ""@,
    }
}

/// The table that holds the records of a kind.
pub open spec fn table_name(kind: EvidenceKind) -> Seq<char> {
    match kind {
        EvidenceKind::History => "history"@,
        EvidenceKind::SessionEvent => "session_events"@,
        EvidenceKind::ToolCall => "tool_calls"@,
        EvidenceKind::FileEdit => "file_edits"@,
        EvidenceKind::Relationship => "session_relationships"@,
        EvidenceKind::CommitLink => "session_commit_links"@,
        EvidenceKind::SessionMarker => "session_markers"@,
    }
}

/// The comma-separated columns of the records of a kind.
pub open spec fn columns_text(kind: EvidenceKind) -> Seq<char> {
    match kind {
        EvidenceKind::History =>
        "source,session_id,project,prompt,prompt_hash,timestamp_ms,git_branch"@,
        EvidenceKind::SessionEvent =>
        "source,session_id,project,project_key,project_key_method,cwd,git_branch,message_id,parent_id,ts_ms,role,kind,text,model,token_json,provider,event_uid,tool_use_id,payload_bytes,payload_truncated,payload_hash,call_index,event_index,result_status,event_source,error_signal,subagent_session_id,agent_id,request_id,provider_message_id,stop_reason,agent_version,is_sidechain,is_meta,turn_id,request_span,raw_kind,control_kind"@,
        EvidenceKind::ToolCall =>
        "source,session_id,message_id,tool_use_id,name,target,args_json,is_error,ts_ms"@,
        EvidenceKind::FileEdit =>
        "source,session_id,message_id,tool_use_id,file_path,tool_name,lines_added,lines_removed,structured_patch_json,user_modified,ts_ms,git_branch,cwd"@,
        EvidenceKind::Relationship =>
        "source,parent_session_id,relationship_uid,child_session_id,relationship,identity_status,child_agent_type,child_agent_name,child_model,spawn_depth,evidence_kind,evidence_locator,evidence_ref,child_has_events,spawned_at_ms,created_ms,updated_ms,origin_session_id"@,
        EvidenceKind::CommitLink =>
        "source,session_id,repo,branch,commit_sha,note_ref,match_method,confidence,files_json,numstat_json,evidence_json,created_at_ms"@,
        EvidenceKind::SessionMarker =>
        "source,session_id,marker_uid,ts_ms,message_id,parent_id,turn_id,kind,subkind,text,payload_json"@,
    }
}

/// The comma-separated columns that a record of a kind must fill.
pub open spec fn required_text(kind: EvidenceKind) -> Seq<char> {
    match kind {
        EvidenceKind::History => "source,session_id,prompt,timestamp_ms"@,
        EvidenceKind::SessionEvent => "source,session_id,ts_ms,role,kind,event_uid"@,
        EvidenceKind::ToolCall => "source,session_id,tool_use_id,name"@,
        EvidenceKind::FileEdit => "source,session_id,tool_use_id,file_path,tool_name"@,
        EvidenceKind::Relationship =>
        "source,parent_session_id,relationship_uid,relationship,identity_status,evidence_kind,created_ms,updated_ms"@,
        EvidenceKind::CommitLink =>
        "source,session_id,repo,commit_sha,match_method,confidence,created_at_ms"@,
        EvidenceKind::SessionMarker => "source,session_id,marker_uid,kind"@,
    }
}

impl EvidenceKind {
    /// The wire name.
    pub fn as_str(self) -> (r: &'static str)
        ensures
            r@ == kind_label(self),
    {
        match self {
            EvidenceKind::History => "history",
            EvidenceKind::SessionEvent => "session_event",
            EvidenceKind::ToolCall => "tool_call",
            EvidenceKind::FileEdit => "file_edit",
            EvidenceKind::Relationship => "relationship",
            EvidenceKind::CommitLink => "commit_link",
            EvidenceKind::SessionMarker => "session_marker",
        }
    }

    /// The comma-separated columns that identify one record of this kind.
    pub fn key(self) -> (r: &'static str)
        ensures
            r@ == key_text(self),
    {
        match self {
            EvidenceKind::History => "source,timestamp_ms,prompt",
            EvidenceKind::SessionEvent => "source,session_id,event_uid",
            EvidenceKind::ToolCall => "source,session_id,tool_use_id",
            EvidenceKind::FileEdit => "source,session_id,tool_use_id",
            EvidenceKind::Relationship => "source,parent_session_id,relationship_uid",
            EvidenceKind::CommitLink => "source,session_id,commit_sha,match_method",
            EvidenceKind::SessionMarker => "source,session_id,marker_uid",
        }
    }

    /// The comma-separated columns that travel with the record but are derived
    /// by this database, so that they say nothing of who owns the row.
    pub fn derived(self) -> (r: &'static str)
        ensures
            r@ == derived_text(self),
    {
        match self {
            EvidenceKind::SessionEvent => "project_key,project_key_method",
            _ => "",
        }
    }

    /// The table that holds the records of this kind.
    pub fn table(self) -> (r: &'static str)
        ensures
            r@ == table_name(self),
    {
        match self {
            EvidenceKind::History => "history",
            EvidenceKind::SessionEvent => "session_events",
            EvidenceKind::ToolCall => "tool_calls",
            EvidenceKind::FileEdit => "file_edits",
            EvidenceKind::Relationship => "session_relationships",
            EvidenceKind::CommitLink => "session_commit_links",
            EvidenceKind::SessionMarker => "session_markers",
        }
    }

    /// The comma-separated columns of the records of this kind.
    pub fn columns(self) -> (r: &'static str)
        ensures
            r@ == columns_text(self),
    {
        match self {
            EvidenceKind::History =>
            "source,session_id,project,prompt,prompt_hash,timestamp_ms,git_branch",
            EvidenceKind::SessionEvent =>
            "source,session_id,project,project_key,project_key_method,cwd,git_branch,message_id,parent_id,ts_ms,role,kind,text,model,token_json,provider,event_uid,tool_use_id,payload_bytes,payload_truncated,payload_hash,call_index,event_index,result_status,event_source,error_signal,subagent_session_id,agent_id,request_id,provider_message_id,stop_reason,agent_version,is_sidechain,is_meta,turn_id,request_span,raw_kind,control_kind",
            EvidenceKind::ToolCall =>
            "source,session_id,message_id,tool_use_id,name,target,args_json,is_error,ts_ms",
            EvidenceKind::FileEdit =>
            "source,session_id,message_id,tool_use_id,file_path,tool_name,lines_added,lines_removed,structured_patch_json,user_modified,ts_ms,git_branch,cwd",
            EvidenceKind::Relationship =>
            "source,parent_session_id,relationship_uid,child_session_id,relationship,identity_status,child_agent_type,child_agent_name,child_model,spawn_depth,evidence_kind,evidence_locator,evidence_ref,child_has_events,spawned_at_ms,created_ms,updated_ms,origin_session_id",
            EvidenceKind::CommitLink =>
            "source,session_id,repo,branch,commit_sha,note_ref,match_method,confidence,files_json,numstat_json,evidence_json,created_at_ms",
            EvidenceKind::SessionMarker =>
            "source,session_id,marker_uid,ts_ms,message_id,parent_id,turn_id,kind,subkind,text,payload_json",
        }
    }

    /// The comma-separated columns that a record of this kind must fill.
    pub fn required(self) -> (r: &'static str)
        ensures
            r@ == required_text(self),
    {
        match self {
            EvidenceKind::History => "source,session_id,prompt,timestamp_ms",
            EvidenceKind::SessionEvent => "source,session_id,ts_ms,role,kind,event_uid",
            EvidenceKind::ToolCall => "source,session_id,tool_use_id,name",
            EvidenceKind::FileEdit => "source,session_id,tool_use_id,file_path,tool_name",
            EvidenceKind::Relationship =>
            "source,parent_session_id,relationship_uid,relationship,identity_status,evidence_kind,created_ms,updated_ms",
            EvidenceKind::CommitLink =>
            "source,session_id,repo,commit_sha,match_method,confidence,created_at_ms",
            EvidenceKind::SessionMarker => "source,session_id,marker_uid,kind",
        }
    }
}

/// The wire names of some kinds.
pub open spec fn kind_labels(kinds: Seq<EvidenceKind>) -> Seq<Seq<char>> {
    kinds.map_values(|k: EvidenceKind| kind_label(k))
}

/// Writes a list of kinds the way diagnostics name it.
pub fn join_kinds(kinds: &[EvidenceKind]) -> (r: String)
    ensures
        r@ == text::joined(kind_labels(kinds@), ", "@),
{
    let mut parts: Vec<String> = Vec::new();
    let mut i: usize = 0;
    while i < kinds.len()
        invariant
            i <= kinds.len(),
            text::views(parts@) == kind_labels(kinds@).take(i as int),
        decreases kinds.len() - i,
    {
        let ghost before = text::views(parts@);
        parts.push(kinds[i].as_str().to_owned());
        assert(text::views(parts@) =~= before.push(kind_label(kinds@[i as int])));
        i = i + 1;
    }
    assert(kind_labels(kinds@).take(kinds@.len() as int) =~= kind_labels(kinds@));
    text::join(&parts, ", ")
}

/// Who observed a session, and where.
#[derive(Debug, PartialEq, Eq)]
pub struct ObservationKey {
    pub source: String,
    pub session_id: String,
    pub location: SessionLocation,
    pub connector_id: String,
    pub connector_instance: String,
}

/// One evidence record. The members of its payload stand in the order of their
/// names.
#[derive(Debug)]
pub struct EvidenceRecord {
    pub kind: EvidenceKind,
    pub payload: Vec<(String, JsonValue)>,
    pub record_id: Option<String>,
    pub revision_id: Option<String>,
}

/// The view of an evidence record.
pub struct RecordTree {
    pub kind: EvidenceKind,
    pub payload: Seq<(Seq<char>, JsonTree)>,
    pub record_id: Option<Seq<char>>,
    pub revision_id: Option<Seq<char>>,
}

impl View for EvidenceRecord {
    type V = RecordTree;

    open spec fn view(&self) -> RecordTree {
        RecordTree {
            kind: self.kind,
            payload: json::member_views(self.payload@),
            record_id: text::opt_view(self.record_id),
            revision_id: text::opt_view(self.revision_id),
        }
    }
}

/// The views of a list of records.
pub open spec fn record_views(records: Seq<EvidenceRecord>) -> Seq<RecordTree> {
    records.map_values(|r: EvidenceRecord| r@)
}

/// Whether a column holds numbers.
pub open spec fn is_numeric(name: Seq<char>) -> bool {
    ||| name == "timestamp_ms"@
    ||| name == "ts_ms"@
    ||| name == "lines_added"@
    ||| name == "lines_removed"@
    ||| name == "spawn_depth"@
    ||| name == "spawned_at_ms"@
    ||| name == "created_ms"@
    ||| name == "updated_ms"@
    ||| name == "created_at_ms"@
    ||| name == "confidence"@
    ||| name == "payload_bytes"@
    ||| name == "call_index"@
    ||| name == "event_index"@
}

fn numeric(name: &str) -> (r: bool)
    ensures
        r == is_numeric(name@),
{
    same_text(name, "timestamp_ms") || same_text(name, "ts_ms") || same_text(name, "lines_added")
        || same_text(name, "lines_removed") || same_text(name, "spawn_depth") || same_text(
        name,
        "spawned_at_ms",
    ) || same_text(name, "created_ms") || same_text(name, "updated_ms") || same_text(
        name,
        "created_at_ms",
    ) || same_text(name, "confidence") || same_text(name, "payload_bytes") || same_text(
        name,
        "call_index",
    ) || same_text(name, "event_index")
}

/// Whether a column holds flags.
pub open spec fn is_flag(name: Seq<char>) -> bool {
    ||| name == "is_error"@
    ||| name == "user_modified"@
    ||| name == "child_has_events"@
    ||| name == "payload_truncated"@
    ||| name == "is_sidechain"@
    ||| name == "is_meta"@
}

fn boolean(name: &str) -> (r: bool)
    ensures
        r == is_flag(name@),
{
    same_text(name, "is_error") || same_text(name, "user_modified") || same_text(
        name,
        "child_has_events",
    ) || same_text(name, "payload_truncated") || same_text(name, "is_sidechain") || same_text(
        name,
        "is_meta",
    )
}

/// Whether a value that is not null suits a column.
pub open spec fn suits(name: Seq<char>, value: JsonTree) -> bool {
    if is_numeric(name) {
        if name == "confidence"@ {
            value is Number
        } else {
            json::signed_of(value) is Some
        }
    } else if is_flag(name) {
        value is Bool || json::signed_of(value) == Some(0i64) || json::signed_of(value) == Some(
            1i64,
        )
    } else {
        value is Text
    }
}

fn value_suits(name: &str, value: &JsonValue) -> (r: bool)
    ensures
        r == suits(name@, value@),
{
    if numeric(name) {
        if same_text(name, "confidence") {
            match value {
                JsonValue::Number(_) => true,
                _ => false,
            }
        } else {
            value.as_signed().is_some()
        }
    } else if boolean(name) {
        match value {
            JsonValue::Bool(_) => true,
            _ => match value.as_signed() {
                Some(n) => n == 0 || n == 1,
                None => false,
            },
        }
    } else {
        match value {
            JsonValue::Text(_) => true,
            _ => false,
        }
    }
}

/// What is wrong with a value under a name, for a record of a kind.
pub open spec fn column_fault(kind: EvidenceKind, name: Seq<char>, value: JsonTree) -> Option<
    Seq<char>,
> {
    let surrogate = name == "id"@ || name == "rowid"@;
    if !surrogate && !text::split_on(columns_text(kind), ',').contains(name) {
        Some("INVALID_ARGUMENT: unsupported "@ + table_name(kind) + " column "@ + name)
    } else if !surrogate && !(value is Null) && !suits(name, value) {
        Some("INVALID_ARGUMENT: invalid type for "@ + name)
    } else {
        None
    }
}

/// What is wrong with the first faulty member of a payload.
pub open spec fn columns_fault(kind: EvidenceKind, payload: Seq<(Seq<char>, JsonTree)>) -> Option<
    Seq<char>,
>
    decreases payload.len(),
{
    if payload.len() == 0 {
        None
    } else {
        match columns_fault(kind, payload.drop_last()) {
            Some(fault) => Some(fault),
            None => column_fault(kind, payload.last().0, payload.last().1),
        }
    }
}

fn check_columns(record: &EvidenceRecord) -> (r: Result<(), String>)
    ensures
        fault_view(r) == columns_fault(record.kind, record@.payload),
{
    let columns = text::split_char(record.kind.columns(), ',');
    let ghost payload = record@.payload;
    let mut i: usize = 0;
    while i < record.payload.len()
        invariant
            i <= record.payload.len(),
            payload == record@.payload,
            text::views(columns@) == text::split_on(columns_text(record.kind), ','),
            columns_fault(record.kind, payload.take(i as int)) is None,
        decreases record.payload.len() - i,
    {
        proof {
            assert(payload.take(i + 1).drop_last() =~= payload.take(i as int));
            assert(payload.take(i + 1).last() == (
                record.payload@[i as int].0@,
                record.payload@[i as int].1@,
            ));
            lemma_columns_fault_prefix(record.kind, payload, i + 1);
        }
        let name = record.payload[i].0.as_str();
        let value = &record.payload[i].1;
        let surrogate = same_text(name, "id") || same_text(name, "rowid");
        if !surrogate {
            if !text::contains_text(&columns, name) {
                let mut message = "INVALID_ARGUMENT: unsupported ".to_owned();
                message.append(record.kind.table());
                message.append(" column ");
                message.append(name);
                return Err(message);
            }
            let null = match value {
                JsonValue::Null => true,
                _ => false,
            };
            if !null && !value_suits(name, value) {
                return Err(concat2("INVALID_ARGUMENT: invalid type for ", name));
            }
        }
        i = i + 1;
    }
    assert(payload.take(payload.len() as int) =~= payload);
    Ok(())
}

proof fn lemma_columns_fault_prefix(
    kind: EvidenceKind,
    payload: Seq<(Seq<char>, JsonTree)>,
    n: int,
)
    requires
        0 <= n <= payload.len(),
    ensures
        columns_fault(kind, payload.take(n)) is Some ==> columns_fault(kind, payload)
            == columns_fault(kind, payload.take(n)),
    decreases payload.len() - n,
{
    if n < payload.len() {
        lemma_columns_fault_prefix(kind, payload, n + 1);
        assert(payload.take(n + 1).drop_last() =~= payload.take(n));
    } else {
        assert(payload.take(n) =~= payload);
    }
}

/// What a check found wrong.
pub open spec fn fault_view(result: Result<(), String>) -> Option<Seq<char>> {
    match result {
        Ok(_) => None,
        Err(message) => Some(message@),
    }
}

/// The first of some required columns that is missing or null.
pub open spec fn required_fault(
    names: Seq<Seq<char>>,
    payload: Seq<(Seq<char>, JsonTree)>,
) -> Option<Seq<char>>
    decreases names.len(),
{
    if names.len() == 0 {
        None
    } else {
        match json::member(payload, names[0]) {
            Some(value) => if value is Null {
                Some("INVALID_ARGUMENT: "@ + names[0] + " is required"@)
            } else {
                required_fault(names.drop_first(), payload)
            },
            None => Some("INVALID_ARGUMENT: "@ + names[0] + " is required"@),
        }
    }
}

fn check_required(record: &EvidenceRecord) -> (r: Result<(), String>)
    ensures
        fault_view(r) == required_fault(
            text::split_on(required_text(record.kind), ','),
            record@.payload,
        ),
{
    let names = text::split_char(record.kind.required(), ',');
    let ghost all = text::views(names@);
    let mut i: usize = 0;
    assert(all.skip(0) =~= all);
    while i < names.len()
        invariant
            i <= names.len(),
            all == text::views(names@),
            all == text::split_on(required_text(record.kind), ','),
            required_fault(all, record@.payload) == required_fault(
                all.skip(i as int),
                record@.payload,
            ),
        decreases names.len() - i,
    {
        assert(all.skip(i as int)[0] == names@[i as int]@);
        assert(all.skip(i as int).drop_first() =~= all.skip(i + 1));
        let present = match json::find_member(&record.payload, names[i].as_str()) {
            Some(JsonValue::Null) => false,
            Some(_) => true,
            None => false,
        };
        if !present {
            return Err(concat3("INVALID_ARGUMENT: ", names[i].as_str(), " is required"));
        }
        i = i + 1;
    }
    Ok(())
}

/// The text of a column of a payload, where it is a text.
pub open spec fn column_text(payload: Seq<(Seq<char>, JsonTree)>, name: Seq<char>) -> Option<
    Seq<char>,
> {
    json::text_of(json::member(payload, name))
}

fn text_column<'a>(record: &'a EvidenceRecord, name: &str) -> (r: Option<&'a str>)
    ensures
        match r {
            Some(s) => column_text(record@.payload, name@) == Some(s@),
            None => column_text(record@.payload, name@) is None,
        },
{
    match json::find_member(&record.payload, name) {
        Some(value) => value.as_text(),
        None => None,
    }
}

fn column_is(record: &EvidenceRecord, name: &str, expected: &str) -> (r: bool)
    ensures
        r == (column_text(record@.payload, name@) == Some(expected@)),
{
    match text_column(record, name) {
        Some(s) => same_text(s, expected),
        None => false,
    }
}

/// The column that names the session of a record.
pub open spec fn session_column(kind: EvidenceKind) -> Seq<char> {
    if kind == EvidenceKind::Relationship {
        "parent_session_id"@
    } else {
        "session_id"@
    }
}

/// The column that names the session of a record.
pub fn session_field(kind: EvidenceKind) -> (r: &'static str)
    ensures
        r@ == session_column(kind),
{
    if kind == EvidenceKind::Relationship {
        "parent_session_id"
    } else {
        "session_id"
    }
}

/// The first of some identity columns that holds no text, or an empty one;
/// numeric columns are passed over.
pub open spec fn identity_fault(
    names: Seq<Seq<char>>,
    payload: Seq<(Seq<char>, JsonTree)>,
) -> Option<Seq<char>>
    decreases names.len(),
{
    if names.len() == 0 {
        None
    } else if !is_numeric(names[0]) && text::non_empty(column_text(payload, names[0])) is None {
        Some("INVALID_ARGUMENT: empty evidence identity "@ + names[0])
    } else {
        identity_fault(names.drop_first(), payload)
    }
}

fn check_identity(record: &EvidenceRecord) -> (r: Result<(), String>)
    ensures
        fault_view(r) == identity_fault(
            text::split_on(key_text(record.kind), ','),
            record@.payload,
        ),
{
    let names = text::split_char(record.kind.key(), ',');
    let ghost all = text::views(names@);
    let mut i: usize = 0;
    assert(all.skip(0) =~= all);
    while i < names.len()
        invariant
            i <= names.len(),
            all == text::views(names@),
            all == text::split_on(key_text(record.kind), ','),
            identity_fault(all, record@.payload) == identity_fault(
                all.skip(i as int),
                record@.payload,
            ),
        decreases names.len() - i,
    {
        assert(all.skip(i as int)[0] == names@[i as int]@);
        assert(all.skip(i as int).drop_first() =~= all.skip(i + 1));
        if !numeric(names[i].as_str()) {
            let filled = match text_column(record, names[i].as_str()) {
                Some(s) => !s.is_empty(),
                None => false,
            };
            if !filled {
                return Err(
                    concat2("INVALID_ARGUMENT: empty evidence identity ", names[i].as_str()),
                );
            }
        }
        i = i + 1;
    }
    Ok(())
}

/// The columns that only a tool-result event may fill.
pub const TOOL_RESULT_FIELDS: [&'static str; 11] = [
    "tool_use_id",
    "payload_bytes",
    "payload_truncated",
    "payload_hash",
    "call_index",
    "event_index",
    "result_status",
    "event_source",
    "error_signal",
    "subagent_session_id",
    "agent_id",
];

/// Whether a count under a name cannot be negative.
pub open spec fn is_count(name: Seq<char>) -> bool {
    name == "payload_bytes"@ || name == "call_index"@ || name == "event_index"@
}

/// Whether a word belongs to the vocabulary of a column, where it has one.
pub open spec fn in_vocabulary(name: Seq<char>, word: Option<Seq<char>>) -> bool {
    if name == "result_status"@ {
        word is Some && (word->0 == "running"@ || word->0 == "completed"@ || word->0 == "errored"@
            || word->0 == "cancelled"@ || word->0 == "unknown"@)
    } else if name == "event_source"@ {
        word is Some && (word->0 == "tool_result"@ || word->0 == "subagent_notification"@ || word->0
            == "function_call_output"@)
    } else if name == "error_signal"@ {
        word is Some && (word->0 == "tool_result.is_error"@ || word->0 == "exit_code"@ || word->0
            == "patch_apply"@ || word->0 == "mcp_err"@ || word->0 == "subagent_status"@)
    } else {
        true
    }
}

fn word_allowed(name: &str, value: &JsonValue) -> (r: bool)
    ensures
        r == in_vocabulary(name@, json::text_of(Some(value@))),
{
    let status = same_text(name, "result_status");
    let source = same_text(name, "event_source");
    let signal = same_text(name, "error_signal");
    if !status && !source && !signal {
        return true;
    }
    let word = match value.as_text() {
        Some(word) => word,
        None => return false,
    };
    if status {
        same_text(word, "running") || same_text(word, "completed") || same_text(word, "errored")
            || same_text(word, "cancelled") || same_text(word, "unknown")
    } else if source {
        same_text(word, "tool_result") || same_text(word, "subagent_notification") || same_text(
            word,
            "function_call_output",
        )
    } else {
        same_text(word, "tool_result.is_error") || same_text(word, "exit_code") || same_text(
            word,
            "patch_apply",
        ) || same_text(word, "mcp_err") || same_text(word, "subagent_status")
    }
}

/// What is wrong with one tool-result column of an event.
pub open spec fn tool_field_fault(name: Seq<char>, value: JsonTree, tool_result: bool) -> Option<
    Seq<char>,
> {
    if !tool_result {
        Some("INVALID_ARGUMENT: "@ + name + " is only valid on a tool_result event"@)
    } else if is_count(name) && !(json::signed_of(value) is Some && json::signed_of(value)->0 >= 0) {
        Some("INVALID_ARGUMENT: "@ + name + " must not be negative"@)
    } else if !in_vocabulary(name, json::text_of(Some(value))) {
        Some("INVALID_ARGUMENT: unsupported "@ + name + " value"@)
    } else {
        None
    }
}

/// What is wrong with the tool-result columns of an event, from column `from` on.
pub open spec fn tool_fields_fault(
    payload: Seq<(Seq<char>, JsonTree)>,
    tool_result: bool,
    from: int,
) -> Option<Seq<char>>
    decreases 11 - from,
{
    if from >= 11 {
        None
    } else {
        let name = TOOL_RESULT_FIELDS@[from]@;
        let found = match json::member(payload, name) {
            Some(value) => if value is Null {
                None
            } else {
                tool_field_fault(name, value, tool_result)
            },
            None => None,
        };
        match found {
            Some(fault) => Some(fault),
            None => tool_fields_fault(payload, tool_result, from + 1),
        }
    }
}

fn check_tool_fields(record: &EvidenceRecord, tool_result: bool) -> (r: Result<(), String>)
    ensures
        fault_view(r) == tool_fields_fault(record@.payload, tool_result, 0),
{
    let mut i: usize = 0;
    while i < 11
        invariant
            i <= 11,
            tool_fields_fault(record@.payload, tool_result, 0) == tool_fields_fault(
                record@.payload,
                tool_result,
                i as int,
            ),
        decreases 11 - i,
    {
        let name = TOOL_RESULT_FIELDS[i];
        match json::find_member(&record.payload, name) {
            None => {},
            Some(JsonValue::Null) => {},
            Some(value) => {
                if !tool_result {
                    return Err(
                        concat3("INVALID_ARGUMENT: ", name, " is only valid on a tool_result event"),
                    );
                }
                if same_text(name, "payload_bytes") || same_text(name, "call_index") || same_text(
                    name,
                    "event_index",
                ) {
                    let fine = match value.as_signed() {
                        Some(n) => n >= 0,
                        None => false,
                    };
                    if !fine {
                        return Err(concat3("INVALID_ARGUMENT: ", name, " must not be negative"));
                    }
                }
                if !word_allowed(name, value) {
                    return Err(concat3("INVALID_ARGUMENT: unsupported ", name, " value"));
                }
            },
        }
        i = i + 1;
    }
    Ok(())
}

/// Whether an event's role and kind are known.
pub open spec fn known_role_and_kind(payload: Seq<(Seq<char>, JsonTree)>) -> bool {
    let role = column_text(payload, "role"@);
    let kind = column_text(payload, "kind"@);
    &&& role == Some("user"@) || role == Some("assistant"@) || role == Some("tool_result"@)
    &&& kind == Some("text"@) || kind == Some("thinking"@) || kind == Some("tool_use"@) || kind
        == Some("tool_result"@)
}

/// What is wrong with the control kind of an event: only a user's text carries
/// one, and only one of the known words.
pub open spec fn control_fault(
    payload: Seq<(Seq<char>, JsonTree)>,
    control_kinds: Seq<Seq<char>>,
) -> Option<Seq<char>> {
    match json::member(payload, "control_kind"@) {
        None => None,
        Some(value) => if value is Null {
            None
        } else if !(value is Text && control_kinds.contains(value->Text_0)) {
            Some("INVALID_ARGUMENT: unsupported control_kind value"@)
        } else if column_text(payload, "role"@) != Some("user"@) || column_text(payload, "kind"@)
            != Some("text"@) {
            Some("INVALID_ARGUMENT: control_kind is only valid on a user text event"@)
        } else {
            None
        },
    }
}

/// What is wrong with a session event.
pub open spec fn event_fault(
    payload: Seq<(Seq<char>, JsonTree)>,
    control_kinds: Seq<Seq<char>>,
) -> Option<Seq<char>> {
    if !known_role_and_kind(payload) {
        Some("INVALID_ARGUMENT: invalid event role or kind"@)
    } else {
        match control_fault(payload, control_kinds) {
            Some(fault) => Some(fault),
            None => tool_fields_fault(
                payload,
                column_text(payload, "kind"@) == Some("tool_result"@),
                0,
            ),
        }
    }
}

fn check_event(record: &EvidenceRecord, control_kinds: &Vec<String>) -> (r: Result<(), String>)
    ensures
        fault_view(r) == event_fault(record@.payload, text::views(control_kinds@)),
{
    let role_known = column_is(record, "role", "user") || column_is(record, "role", "assistant")
        || column_is(record, "role", "tool_result");
    let kind_known = column_is(record, "kind", "text") || column_is(record, "kind", "thinking")
        || column_is(record, "kind", "tool_use") || column_is(record, "kind", "tool_result");
    if !role_known || !kind_known {
        return Err("INVALID_ARGUMENT: invalid event role or kind".to_owned());
    }
    match json::find_member(&record.payload, "control_kind") {
        None => {},
        Some(JsonValue::Null) => {},
        Some(value) => {
            let known = match value.as_text() {
                Some(word) => text::contains_text(control_kinds, word),
                None => false,
            };
            if !known {
                return Err("INVALID_ARGUMENT: unsupported control_kind value".to_owned());
            }
            if !column_is(record, "role", "user") || !column_is(record, "kind", "text") {
                return Err(
                    "INVALID_ARGUMENT: control_kind is only valid on a user text event".to_owned(),
                );
            }
        },
    }
    check_tool_fields(record, column_is(record, "kind", "tool_result"))
}

/// Whether a marker's payload keeps to its bound: every text at most 128
/// characters, every container at most 32 entries, at every depth.
pub open spec fn is_bounded(value: JsonTree) -> bool
    decreases value,
{
    match value {
        JsonTree::Text(s) => s.len() <= 128,
        JsonTree::Array(items) => items.len() <= 32 && forall|i: int|
            0 <= i < items.len() ==> is_bounded(#[trigger] items[i]),
        JsonTree::Object(members) => members.len() <= 32 && forall|i: int|
            0 <= i < members.len() ==> is_bounded((#[trigger] members[i]).1),
        _ => true,
    }
}

/// Whether a marker's payload keeps to its bound.
pub fn marker_payload_is_bounded(value: &JsonValue) -> (r: bool)
    ensures
        r == is_bounded(value@),
    decreases value,
{
    match value {
        JsonValue::Text(s) => s.as_str().unicode_len() <= 128,
        JsonValue::Array(items) => {
            proof {
                json::lemma_array_view(*items);
            }
            if items.len() > 32 {
                return false;
            }
            let mut i: usize = 0;
            while i < items.len()
                invariant
                    value == JsonValue::Array(*items),
                    value@ == JsonTree::Array(items@.map_values(|v: JsonValue| json::tree(v))),
                    items.len() <= 32,
                    i <= items.len(),
                    forall|j: int| 0 <= j < i ==> is_bounded(#[trigger] value@->Array_0[j]),
                decreases items.len() - i,
            {
                assert(decreases_to!(value => value->Array_0@[i as int]));
                assert(value@->Array_0[i as int] == items@[i as int]@);
                if !marker_payload_is_bounded(&items[i]) {
                    return false;
                }
                i = i + 1;
            }
            true
        },
        JsonValue::Object(members) => {
            proof {
                json::lemma_object_view(*members);
            }
            if members.len() > 32 {
                return false;
            }
            let mut i: usize = 0;
            while i < members.len()
                invariant
                    value == JsonValue::Object(*members),
                    value@ == JsonTree::Object(json::member_views(members@)),
                    members.len() <= 32,
                    i <= members.len(),
                    forall|j: int| 0 <= j < i ==> is_bounded((#[trigger] value@->Object_0[j]).1),
                decreases members.len() - i,
            {
                assert(decreases_to!(value => value->Object_0@[i as int].1));
                assert(value@->Object_0[i as int].1 == members@[i as int].1@);
                if !marker_payload_is_bounded(&members[i].1) {
                    return false;
                }
                i = i + 1;
            }
            true
        },
        _ => true,
    }
}

/// What is wrong with a session marker.
pub open spec fn marker_fault(payload: Seq<(Seq<char>, JsonTree)>) -> Option<Seq<char>> {
    let kind = column_text(payload, "kind"@);
    if kind is None || text::trimmed(kind->0).len() == 0 {
        Some("INVALID_ARGUMENT: marker kind must not be empty"@)
    } else {
        match column_text(payload, "payload_json"@) {
            None => None,
            Some(raw) => match json::decoded(raw) {
                Err(detail) => Some("INVALID_ARGUMENT: payload_json must be JSON: "@ + detail),
                Ok(value) => if is_bounded(value) {
                    None
                } else {
                    Some("INVALID_ARGUMENT: payload_json exceeds the marker payload bound"@)
                },
            },
        }
    }
}

fn check_marker(record: &EvidenceRecord) -> (r: Result<(), String>)
    ensures
        fault_view(r) == marker_fault(record@.payload),
{
    let named = match text_column(record, "kind") {
        Some(kind) => !text::trim(kind).is_empty(),
        None => false,
    };
    if !named {
        return Err("INVALID_ARGUMENT: marker kind must not be empty".to_owned());
    }
    match text_column(record, "payload_json") {
        None => Ok(()),
        Some(raw) => match json::decode(raw) {
            Err(detail) => Err(
                concat2("INVALID_ARGUMENT: payload_json must be JSON: ", detail.as_str()),
            ),
            Ok(value) => if marker_payload_is_bounded(&value) {
                Ok(())
            } else {
                Err("INVALID_ARGUMENT: payload_json exceeds the marker payload bound".to_owned())
            },
        },
    }
}

/// Whether a relationship names its child exactly where it says that it was
/// observed.
pub open spec fn child_is_consistent(payload: Seq<(Seq<char>, JsonTree)>) -> bool {
    let status = column_text(payload, "identity_status"@);
    let child = column_text(payload, "child_session_id"@);
    ||| status == Some("observed"@) && text::non_empty(child) is Some
    ||| status == Some("unlinked"@) && child is None
}

fn check_relationship(record: &EvidenceRecord) -> (r: bool)
    ensures
        r == child_is_consistent(record@.payload),
{
    let child = text_column(record, "child_session_id");
    if column_is(record, "identity_status", "observed") {
        proof {
            lemma_statuses_are_distinct();
        }
        match child {
            Some(id) => !id.is_empty(),
            None => false,
        }
    } else if column_is(record, "identity_status", "unlinked") {
        child.is_none()
    } else {
        false
    }
}

proof fn lemma_statuses_are_distinct()
    ensures
        "observed"@ != "unlinked"@,
{
    reveal_strlit("observed");
    reveal_strlit("unlinked");
    assert("observed"@[0] != "unlinked"@[0]);
}

/// What is wrong with one record of a snapshot of an observed session.
pub open spec fn record_fault(
    source: Seq<char>,
    session_id: Seq<char>,
    covered: Seq<EvidenceKind>,
    control_kinds: Seq<Seq<char>>,
    record: RecordTree,
) -> Option<Seq<char>> {
    let payload = record.payload;
    if !covered.contains(record.kind) {
        Some("INVALID_ARGUMENT: record kind is not covered by this snapshot"@)
    } else if columns_fault(record.kind, payload) is Some {
        columns_fault(record.kind, payload)
    } else if required_fault(text::split_on(required_text(record.kind), ','), payload) is Some {
        required_fault(text::split_on(required_text(record.kind), ','), payload)
    } else if column_text(payload, "source"@) != Some(source) || column_text(
        payload,
        session_column(record.kind),
    ) != Some(session_id) {
        Some("INVALID_ARGUMENT: evidence belongs to another source or session"@)
    } else if identity_fault(text::split_on(key_text(record.kind), ','), payload) is Some {
        identity_fault(text::split_on(key_text(record.kind), ','), payload)
    } else {
        match record.kind {
            EvidenceKind::SessionEvent => event_fault(payload, control_kinds),
            EvidenceKind::SessionMarker => marker_fault(payload),
            EvidenceKind::Relationship => if child_is_consistent(payload) {
                None
            } else {
                Some("INVALID_ARGUMENT: inconsistent relationship child identity"@)
            },
            _ => None,
        }
    }
}

fn covers(covered: &Vec<EvidenceKind>, kind: EvidenceKind) -> (r: bool)
    ensures
        r == covered@.contains(kind),
{
    let mut i: usize = 0;
    while i < covered.len()
        invariant
            i <= covered.len(),
            forall|j: int| 0 <= j < i ==> covered@[j] != kind,
        decreases covered.len() - i,
    {
        if covered[i] == kind {
            return true;
        }
        i = i + 1;
    }
    false
}

fn check_record(
    key: &ObservationKey,
    covered: &Vec<EvidenceKind>,
    control_kinds: &Vec<String>,
    record: &EvidenceRecord,
) -> (r: Result<(), String>)
    ensures
        fault_view(r) == record_fault(
            key.source@,
            key.session_id@,
            covered@,
            text::views(control_kinds@),
            record@,
        ),
{
    if !covers(covered, record.kind) {
        return Err("INVALID_ARGUMENT: record kind is not covered by this snapshot".to_owned());
    }
    if let Err(fault) = check_columns(record) {
        return Err(fault);
    }
    if let Err(fault) = check_required(record) {
        return Err(fault);
    }
    if !column_is(record, "source", key.source.as_str()) || !column_is(
        record,
        session_field(record.kind),
        key.session_id.as_str(),
    ) {
        return Err("INVALID_ARGUMENT: evidence belongs to another source or session".to_owned());
    }
    if let Err(fault) = check_identity(record) {
        return Err(fault);
    }
    match record.kind {
        EvidenceKind::SessionEvent => check_event(record, control_kinds),
        EvidenceKind::SessionMarker => check_marker(record),
        EvidenceKind::Relationship => if check_relationship(record) {
            Ok(())
        } else {
            Err("INVALID_ARGUMENT: inconsistent relationship child identity".to_owned())
        },
        _ => Ok(()),
    }
}

/// A payload in which every one of some columns is filled: an absent one with
/// null, an absent flag for the events of a child with zero.
pub open spec fn filled(payload: Seq<(Seq<char>, JsonTree)>, names: Seq<Seq<char>>) -> Seq<
    (Seq<char>, JsonTree),
>
    decreases names.len(),
{
    if names.len() == 0 {
        payload
    } else {
        let before = filled(payload, names.drop_last());
        let name = names.last();
        if json::member(before, name) is Some {
            before
        } else if name == "child_has_events"@ {
            json::with_member(before, name, JsonTree::Number(json::zero_number()))
        } else {
            json::with_member(before, name, JsonTree::Null)
        }
    }
}

/// A record as it is stored: a prompt with its hash, and every column filled.
pub open spec fn completed(record: RecordTree) -> RecordTree {
    let hashed = if record.kind == EvidenceKind::History {
        json::with_member(
            record.payload,
            "prompt_hash"@,
            JsonTree::Text(
                digest::prompt_digest(
                    match column_text(record.payload, "prompt"@) {
                        Some(prompt) => prompt,
                        None => Seq::empty(),
                    },
                ),
            ),
        )
    } else {
        record.payload
    };
    RecordTree {
        payload: filled(hashed, text::split_on(columns_text(record.kind), ',')),
        ..record
    }
}

fn complete_record(record: &mut EvidenceRecord)
    ensures
        final(record)@ == completed(old(record)@),
{
    if record.kind == EvidenceKind::History {
        let hash = match text_column(record, "prompt") {
            Some(prompt) => digest::prompt_hash(prompt),
            None => {
                proof {
                    reveal_strlit("");
                    assert(""@ =~= Seq::<char>::empty());
                }
                digest::prompt_hash("")
            },
        };
        json::put_member(&mut record.payload, "prompt_hash", JsonValue::Text(hash));
    }
    let ghost hashed = record@.payload;
    let names = text::split_char(record.kind.columns(), ',');
    let ghost all = text::views(names@);
    let mut i: usize = 0;
    assert(filled(hashed, all.take(0)) == hashed);
    while i < names.len()
        invariant
            i <= names.len(),
            all == text::views(names@),
            record.kind == old(record).kind,
            record.record_id == old(record).record_id,
            record.revision_id == old(record).revision_id,
            record@.payload == filled(hashed, all.take(i as int)),
        decreases names.len() - i,
    {
        proof {
            assert(all.take(i + 1).drop_last() =~= all.take(i as int));
            assert(all.take(i + 1).last() == names@[i as int]@);
        }
        let name = names[i].as_str();
        if json::find_member(&record.payload, name).is_none() {
            if same_text(name, "child_has_events") {
                json::put_member(
                    &mut record.payload,
                    name,
                    JsonValue::Number(JsonNumber::zero()),
                );
            } else {
                json::put_member(&mut record.payload, name, JsonValue::Null);
            }
        }
        i = i + 1;
    }
    assert(all.take(names@.len() as int) =~= all);
}

/// The values of some columns of a payload, absent ones read as null.
pub open spec fn column_values(
    payload: Seq<(Seq<char>, JsonTree)>,
    names: Seq<Seq<char>>,
) -> Seq<JsonTree> {
    names.map_values(
        |name: Seq<char>|
            match json::member(payload, name) {
                Some(value) => value,
                None => JsonTree::Null,
            },
    )
}

/// The identity of a record: the JSON text of its kind and its key columns.
pub open spec fn identity_of(record: RecordTree) -> Seq<char> {
    json::rendered(
        JsonTree::Array(
            seq![
                JsonTree::Text(kind_label(record.kind)),
                JsonTree::Array(
                    column_values(record.payload, text::split_on(key_text(record.kind), ',')),
                ),
            ],
        ),
    )
}

impl EvidenceRecord {
    /// The identity of the record: the JSON text of its kind and its key columns.
    pub fn identity(&self) -> (r: String)
        ensures
            r@ == identity_of(self@),
    {
        let names = text::split_char(self.kind.key(), ',');
        let ghost all = text::views(names@);
        let mut values: Vec<JsonValue> = Vec::new();
        let mut i: usize = 0;
        while i < names.len()
            invariant
                i <= names.len(),
                all == text::views(names@),
                values.len() == i,
                forall|j: int|
                    0 <= j < i ==> json::tree(values@[j]) == column_values(self@.payload, all)[j],
            decreases names.len() - i,
        {
            assert(all[i as int] == names@[i as int]@);
            match json::find_member(&self.payload, names[i].as_str()) {
                Some(value) => {
                    values.push(json::copied_value(value));
                },
                None => {
                    values.push(JsonValue::Null);
                },
            }
            i = i + 1;
        }
        proof {
            json::lemma_array_view(values);
            assert(values@.map_values(|v: JsonValue| json::tree(v)) =~= column_values(
                self@.payload,
                all,
            ));
        }
        let ghost inner = json::tree(JsonValue::Array(values));
        let mut pair: Vec<JsonValue> = Vec::new();
        pair.push(JsonValue::Text(self.kind.as_str().to_owned()));
        pair.push(JsonValue::Array(values));
        proof {
            json::lemma_array_view(pair);
            assert(pair@.map_values(|v: JsonValue| json::tree(v)) =~= seq![
                JsonTree::Text(kind_label(self.kind)),
                inner,
            ]);
        }
        json::render(&JsonValue::Array(pair))
    }

    /// The same record once more.
    pub fn copied(&self) -> (r: EvidenceRecord)
        ensures
            r@ == self@,
    {
        EvidenceRecord {
            kind: self.kind,
            payload: json::copied_members(&self.payload),
            record_id: self.record_id.clone(),
            revision_id: self.revision_id.clone(),
        }
    }
}

/// What is wrong with the first `n` records of a snapshot: the first fault of a
/// record, or the first record that repeats the identity of an earlier one.
pub open spec fn records_fault(
    source: Seq<char>,
    session_id: Seq<char>,
    covered: Seq<EvidenceKind>,
    control_kinds: Seq<Seq<char>>,
    records: Seq<RecordTree>,
    n: int,
) -> Option<Seq<char>>
    decreases n,
{
    if n <= 0 {
        None
    } else {
        match records_fault(source, session_id, covered, control_kinds, records, n - 1) {
            Some(fault) => Some(fault),
            None => match record_fault(source, session_id, covered, control_kinds, records[n - 1]) {
                Some(fault) => Some(fault),
                None => if exists|j: int|
                    0 <= j < n - 1 && identity_of(completed(#[trigger] records[j])) == identity_of(
                        completed(records[n - 1]),
                    ) {
                    Some("INVALID_ARGUMENT: duplicate canonical record in source snapshot"@)
                } else {
                    None
                },
            },
        }
    }
}

/// What is wrong with a snapshot: the key that it is for, the kinds that it covers, or
/// its records.
pub open spec fn snapshot_fault(
    key_fault: Option<Seq<char>>,
    source: Seq<char>,
    session_id: Seq<char>,
    covered: Seq<EvidenceKind>,
    control_kinds: Seq<Seq<char>>,
    records: Seq<RecordTree>,
) -> Option<Seq<char>> {
    if key_fault is Some {
        key_fault
    } else if covered.len() == 0 || !covered.no_duplicates() {
        Some("INVALID_ARGUMENT: covered_kinds must be nonempty and unique"@)
    } else {
        records_fault(
            source,
            session_id,
            covered,
            control_kinds,
            records,
            records.len() as int,
        )
    }
}

/// How many of the first `n` records a validation completes: those before the first
/// faulty one, and with them a record whose only fault is that it repeats the identity
/// of an earlier one.
pub open spec fn completed_of(
    source: Seq<char>,
    session_id: Seq<char>,
    covered: Seq<EvidenceKind>,
    control_kinds: Seq<Seq<char>>,
    records: Seq<RecordTree>,
    n: int,
) -> int
    decreases n,
{
    if n <= 0 {
        0
    } else if records_fault(source, session_id, covered, control_kinds, records, n - 1) is Some {
        completed_of(source, session_id, covered, control_kinds, records, n - 1)
    } else if record_fault(source, session_id, covered, control_kinds, records[n - 1]) is Some {
        n - 1
    } else {
        n
    }
}

/// How many records of a snapshot a validation completes: none where the key or the
/// covered kinds are refused.
pub open spec fn completed_in(
    key_fault: Option<Seq<char>>,
    source: Seq<char>,
    session_id: Seq<char>,
    covered: Seq<EvidenceKind>,
    control_kinds: Seq<Seq<char>>,
    records: Seq<RecordTree>,
) -> int {
    if key_fault is Some || covered.len() == 0 || !covered.no_duplicates() {
        0
    } else {
        completed_of(
            source,
            session_id,
            covered,
            control_kinds,
            records,
            records.len() as int,
        )
    }
}

/// A snapshot without a fault has every record completed.
pub proof fn law_faultless_snapshot_is_completed(
    source: Seq<char>,
    session_id: Seq<char>,
    covered: Seq<EvidenceKind>,
    control_kinds: Seq<Seq<char>>,
    records: Seq<RecordTree>,
)
    requires
        snapshot_fault(None, source, session_id, covered, control_kinds, records) is None,
    ensures
        completed_in(None, source, session_id, covered, control_kinds, records) == records.len(),
{
}

fn kinds_are_unique(covered: &Vec<EvidenceKind>) -> (r: bool)
    ensures
        r == covered@.no_duplicates(),
{
    let mut i: usize = 0;
    while i < covered.len()
        invariant
            i <= covered.len(),
            forall|a: int, b: int| 0 <= a < b < i ==> covered@[a] != covered@[b],
        decreases covered.len() - i,
    {
        let mut j: usize = 0;
        while j < i
            invariant
                i < covered.len(),
                j <= i,
                forall|a: int| 0 <= a < j ==> covered@[a] != covered@[i as int],
            decreases i - j,
        {
            if covered[j] == covered[i] {
                return false;
            }
            j = j + 1;
        }
        i = i + 1;
    }
    true
}

proof fn lemma_records_fault_prefix(
    source: Seq<char>,
    session_id: Seq<char>,
    covered: Seq<EvidenceKind>,
    control_kinds: Seq<Seq<char>>,
    records: Seq<RecordTree>,
    n: int,
    m: int,
)
    requires
        0 <= n <= m,
        records_fault(source, session_id, covered, control_kinds, records, n) is Some,
    ensures
        records_fault(source, session_id, covered, control_kinds, records, m) == records_fault(
            source,
            session_id,
            covered,
            control_kinds,
            records,
            n,
        ),
        completed_of(source, session_id, covered, control_kinds, records, m) == completed_of(
            source,
            session_id,
            covered,
            control_kinds,
            records,
            n,
        ),
    decreases m - n,
{
    if n < m {
        lemma_records_fault_prefix(source, session_id, covered, control_kinds, records, n, m - 1);
    }
}

/// Validates a complete snapshot before anything is stored, and completes its
/// records.
///
/// `key_fault` is what validating the key found, and `control_kinds` are the words that
/// a control kind may be. Where a record is faulty, those before it have been completed,
/// and it and those behind it are untouched; one that repeats an identity has been
/// completed itself.
pub fn validate_records(
    key: &ObservationKey,
    key_fault: &Option<String>,
    covered: &Vec<EvidenceKind>,
    control_kinds: &Vec<String>,
    records: &mut Vec<EvidenceRecord>,
) -> (r: Result<(), String>)
    ensures
        fault_view(r) == snapshot_fault(
            text::opt_view(*key_fault),
            key.source@,
            key.session_id@,
            covered@,
            text::views(control_kinds@),
            record_views(old(records)@),
        ),
        final(records)@.len() == old(records)@.len(),
        forall|i: int|
            0 <= i < final(records)@.len() ==> (#[trigger] final(records)@[i])@ == if i
                < completed_in(
                text::opt_view(*key_fault),
                key.source@,
                key.session_id@,
                covered@,
                text::views(control_kinds@),
                record_views(old(records)@),
            ) {
                completed(old(records)@[i]@)
            } else {
                old(records)@[i]@
            },
        r is Ok ==> forall|i: int|
            0 <= i < final(records)@.len() ==> (#[trigger] final(records)@[i])@ == completed(
                old(records)@[i]@,
            ),
{
    if let Some(fault) = key_fault {
        return Err(fault.as_str().to_owned());
    }
    if covered.len() == 0 || !kinds_are_unique(covered) {
        return Err("INVALID_ARGUMENT: covered_kinds must be nonempty and unique".to_owned());
    }
    let ghost given = record_views(records@);
    let ghost words = text::views(control_kinds@);
    let mut identities: Vec<String> = Vec::new();
    let mut i: usize = 0;
    while i < records.len()
        invariant
            i <= records.len(),
            records.len() == old(records)@.len(),
            given == record_views(old(records)@),
            words == text::views(control_kinds@),
            *key_fault is None,
            covered@.len() > 0,
            covered@.no_duplicates(),
            identities.len() == i,
            forall|j: int|
                0 <= j < i ==> (#[trigger] identities@[j])@ == identity_of(completed(given[j])),
            forall|j: int| 0 <= j < i ==> (#[trigger] records@[j])@ == completed(given[j]),
            forall|j: int| i <= j < records@.len() ==> (#[trigger] records@[j])@ == given[j],
            records_fault(key.source@, key.session_id@, covered@, words, given, i as int) is None,
        decreases records.len() - i,
    {
        let ghost all = given.len() as int;
        proof {
            assert(given[i as int] == old(records)@[i as int]@);
            if records_fault(key.source@, key.session_id@, covered@, words, given, i + 1) is Some {
                lemma_records_fault_prefix(
                    key.source@,
                    key.session_id@,
                    covered@,
                    words,
                    given,
                    i + 1,
                    all,
                );
            }
        }
        if let Err(fault) = check_record(key, covered, control_kinds, &records[i]) {
            return Err(fault);
        }
        let mut record = records[i].copied();
        complete_record(&mut record);
        let identity = record.identity();
        records.set(i, record);
        let mut j: usize = 0;
        while j < identities.len()
            invariant
                i < given.len(),
                j <= identities.len(),
                identities.len() == i,
                identity@ == identity_of(completed(given[i as int])),
                forall|k: int|
                    0 <= k < i ==> (#[trigger] identities@[k])@ == identity_of(completed(given[k])),
                forall|k: int| 0 <= k < j ==> (#[trigger] identities@[k])@ != identity@,
                all == given.len(),
                given == record_views(old(records)@),
                words == text::views(control_kinds@),
                *key_fault is None,
                covered@.len() > 0,
                covered@.no_duplicates(),
                records.len() == old(records)@.len(),
                forall|k: int| 0 <= k <= i ==> (#[trigger] records@[k])@ == completed(given[k]),
                forall|k: int| i < k < records@.len() ==> (#[trigger] records@[k])@ == given[k],
                records_fault(key.source@, key.session_id@, covered@, words, given, i as int)
                    is None,
                record_fault(key.source@, key.session_id@, covered@, words, given[i as int])
                    is None,
            decreases identities.len() - j,
        {
            if same_text(identities[j].as_str(), identity.as_str()) {
                proof {
                    assert(identity_of(completed(given[j as int])) == identity_of(
                        completed(given[i as int]),
                    ));
                    assert(records_fault(
                        key.source@,
                        key.session_id@,
                        covered@,
                        words,
                        given,
                        i + 1,
                    ) is Some);
                    lemma_records_fault_prefix(
                        key.source@,
                        key.session_id@,
                        covered@,
                        words,
                        given,
                        i + 1,
                        all,
                    );
                }
                return Err(
                    "INVALID_ARGUMENT: duplicate canonical record in source snapshot".to_owned(),
                );
            }
            j = j + 1;
        }
        proof {
            assert forall|k: int| 0 <= k < i implies identity_of(completed(#[trigger] given[k]))
                != identity_of(completed(given[i as int])) by {
                assert(identities@[k]@ != identity@);
            }
        }
        identities.push(identity);
        i = i + 1;
    }
    Ok(())
}

} // verus!
