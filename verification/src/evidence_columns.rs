//! The columns of each kind of evidence, one by one.
//!
//! The columns are written as one text, as statements need them. The proofs here read
//! the single names off those texts.
use crate::source_evidence;
use crate::source_evidence::EvidenceKind;
use crate::text;
use vstd::prelude::*;
use vstd::string::*;

verus! {

/// The columns of the records of a kind.
pub open spec fn columns_of(kind: EvidenceKind) -> Seq<Seq<char>> {
    text::split_on(source_evidence::columns_text(kind), ',')
}

/// The columns that identify one record of a kind.
pub open spec fn keys_of(kind: EvidenceKind) -> Seq<Seq<char>> {
    text::split_on(source_evidence::key_text(kind), ',')
}

/// The columns that identify one record of a kind, one by one.
pub open spec fn key_names(kind: EvidenceKind) -> Seq<Seq<char>> {
    match kind {
        EvidenceKind::History => seq!["source"@, "timestamp_ms"@, "prompt"@],
        EvidenceKind::SessionEvent => seq!["source"@, "session_id"@, "event_uid"@],
        EvidenceKind::ToolCall => seq!["source"@, "session_id"@, "tool_use_id"@],
        EvidenceKind::FileEdit => seq!["source"@, "session_id"@, "tool_use_id"@],
        EvidenceKind::Relationship => seq!["source"@, "parent_session_id"@, "relationship_uid"@],
        EvidenceKind::CommitLink => seq!["source"@, "session_id"@, "commit_sha"@, "match_method"@],
        EvidenceKind::SessionMarker => seq!["source"@, "session_id"@, "marker_uid"@],
    }
}

/// The columns of the records of a kind, one by one.
pub open spec fn column_names(kind: EvidenceKind) -> Seq<Seq<char>> {
    match kind {
        EvidenceKind::History => seq![
            "source"@,
            "session_id"@,
            "project"@,
            "prompt"@,
            "prompt_hash"@,
            "timestamp_ms"@,
            "git_branch"@,
        ],
        EvidenceKind::SessionEvent => seq![
            "source"@,
            "session_id"@,
            "project"@,
            "project_key"@,
            "project_key_method"@,
            "cwd"@,
            "git_branch"@,
            "message_id"@,
            "parent_id"@,
            "ts_ms"@,
            "role"@,
            "kind"@,
            "text"@,
            "model"@,
            "token_json"@,
            "provider"@,
            "event_uid"@,
            "tool_use_id"@,
            "payload_bytes"@,
            "payload_truncated"@,
            "payload_hash"@,
            "call_index"@,
            "event_index"@,
            "result_status"@,
            "event_source"@,
            "error_signal"@,
            "subagent_session_id"@,
            "agent_id"@,
            "request_id"@,
            "provider_message_id"@,
            "stop_reason"@,
            "agent_version"@,
            "is_sidechain"@,
            "is_meta"@,
            "turn_id"@,
            "request_span"@,
            "raw_kind"@,
            "control_kind"@,
        ],
        EvidenceKind::ToolCall => seq![
            "source"@,
            "session_id"@,
            "message_id"@,
            "tool_use_id"@,
            "name"@,
            "target"@,
            "args_json"@,
            "is_error"@,
            "ts_ms"@,
        ],
        EvidenceKind::FileEdit => seq![
            "source"@,
            "session_id"@,
            "message_id"@,
            "tool_use_id"@,
            "file_path"@,
            "tool_name"@,
            "lines_added"@,
            "lines_removed"@,
            "structured_patch_json"@,
            "user_modified"@,
            "ts_ms"@,
            "git_branch"@,
            "cwd"@,
        ],
        EvidenceKind::Relationship => seq![
            "source"@,
            "parent_session_id"@,
            "relationship_uid"@,
            "child_session_id"@,
            "relationship"@,
            "identity_status"@,
            "child_agent_type"@,
            "child_agent_name"@,
            "child_model"@,
            "spawn_depth"@,
            "evidence_kind"@,
            "evidence_locator"@,
            "evidence_ref"@,
            "child_has_events"@,
            "spawned_at_ms"@,
            "created_ms"@,
            "updated_ms"@,
            "origin_session_id"@,
        ],
        EvidenceKind::CommitLink => seq![
            "source"@,
            "session_id"@,
            "repo"@,
            "branch"@,
            "commit_sha"@,
            "note_ref"@,
            "match_method"@,
            "confidence"@,
            "files_json"@,
            "numstat_json"@,
            "evidence_json"@,
            "created_at_ms"@,
        ],
        EvidenceKind::SessionMarker => seq![
            "source"@,
            "session_id"@,
            "marker_uid"@,
            "ts_ms"@,
            "message_id"@,
            "parent_id"@,
            "turn_id"@,
            "kind"@,
            "subkind"@,
            "text"@,
            "payload_json"@,
        ],
    }
}

proof fn lemma_next_column(s: Seq<char>, from: int, to: int, name: Seq<char>)
    requires
        0 <= from < to <= s.len(),
        s[from] == ',',
        text::is_clear(s, ',', from + 1, to),
        s.subrange(from + 1, to) =~= name,
    ensures
        text::split_on(s.take(to), ',') == text::split_on(s.take(from), ',').push(name),
{
    text::lemma_clear(s, ',', from + 1, to);
    text::lemma_split_tail(s, ',', from, to);
}

proof fn lemma_history_keys()
    ensures
        keys_of(EvidenceKind::History) == key_names(EvidenceKind::History),
{
    reveal_strlit("source,timestamp_ms,prompt");
    reveal_strlit("source");
    reveal_strlit("timestamp_ms");
    reveal_strlit("prompt");
    reveal_with_fuel(text::is_clear, 22);
    let s = source_evidence::key_text(EvidenceKind::History);
    text::lemma_split_whole(s.take(6), ',');
    assert(s.take(6) =~= "source"@);
    lemma_next_column(s, 6, 19, "timestamp_ms"@);
    lemma_next_column(s, 19, 26, "prompt"@);
    assert(s.take(26) =~= s);
    assert(keys_of(EvidenceKind::History) =~= key_names(EvidenceKind::History));
}

proof fn lemma_session_event_keys()
    ensures
        keys_of(EvidenceKind::SessionEvent) == key_names(EvidenceKind::SessionEvent),
{
    reveal_strlit("source,session_id,event_uid");
    reveal_strlit("source");
    reveal_strlit("session_id");
    reveal_strlit("event_uid");
    reveal_with_fuel(text::is_clear, 22);
    let s = source_evidence::key_text(EvidenceKind::SessionEvent);
    text::lemma_split_whole(s.take(6), ',');
    assert(s.take(6) =~= "source"@);
    lemma_next_column(s, 6, 17, "session_id"@);
    lemma_next_column(s, 17, 27, "event_uid"@);
    assert(s.take(27) =~= s);
    assert(keys_of(EvidenceKind::SessionEvent) =~= key_names(EvidenceKind::SessionEvent));
}

proof fn lemma_tool_call_keys()
    ensures
        keys_of(EvidenceKind::ToolCall) == key_names(EvidenceKind::ToolCall),
{
    reveal_strlit("source,session_id,tool_use_id");
    reveal_strlit("source");
    reveal_strlit("session_id");
    reveal_strlit("tool_use_id");
    reveal_with_fuel(text::is_clear, 22);
    let s = source_evidence::key_text(EvidenceKind::ToolCall);
    text::lemma_split_whole(s.take(6), ',');
    assert(s.take(6) =~= "source"@);
    lemma_next_column(s, 6, 17, "session_id"@);
    lemma_next_column(s, 17, 29, "tool_use_id"@);
    assert(s.take(29) =~= s);
    assert(keys_of(EvidenceKind::ToolCall) =~= key_names(EvidenceKind::ToolCall));
}

proof fn lemma_file_edit_keys()
    ensures
        keys_of(EvidenceKind::FileEdit) == key_names(EvidenceKind::FileEdit),
{
    reveal_strlit("source,session_id,tool_use_id");
    reveal_strlit("source");
    reveal_strlit("session_id");
    reveal_strlit("tool_use_id");
    reveal_with_fuel(text::is_clear, 22);
    let s = source_evidence::key_text(EvidenceKind::FileEdit);
    text::lemma_split_whole(s.take(6), ',');
    assert(s.take(6) =~= "source"@);
    lemma_next_column(s, 6, 17, "session_id"@);
    lemma_next_column(s, 17, 29, "tool_use_id"@);
    assert(s.take(29) =~= s);
    assert(keys_of(EvidenceKind::FileEdit) =~= key_names(EvidenceKind::FileEdit));
}

proof fn lemma_relationship_keys()
    ensures
        keys_of(EvidenceKind::Relationship) == key_names(EvidenceKind::Relationship),
{
    reveal_strlit("source,parent_session_id,relationship_uid");
    reveal_strlit("source");
    reveal_strlit("parent_session_id");
    reveal_strlit("relationship_uid");
    reveal_with_fuel(text::is_clear, 22);
    let s = source_evidence::key_text(EvidenceKind::Relationship);
    text::lemma_split_whole(s.take(6), ',');
    assert(s.take(6) =~= "source"@);
    lemma_next_column(s, 6, 24, "parent_session_id"@);
    lemma_next_column(s, 24, 41, "relationship_uid"@);
    assert(s.take(41) =~= s);
    assert(keys_of(EvidenceKind::Relationship) =~= key_names(EvidenceKind::Relationship));
}

proof fn lemma_commit_link_keys()
    ensures
        keys_of(EvidenceKind::CommitLink) == key_names(EvidenceKind::CommitLink),
{
    reveal_strlit("source,session_id,commit_sha,match_method");
    reveal_strlit("source");
    reveal_strlit("session_id");
    reveal_strlit("commit_sha");
    reveal_strlit("match_method");
    reveal_with_fuel(text::is_clear, 22);
    let s = source_evidence::key_text(EvidenceKind::CommitLink);
    text::lemma_split_whole(s.take(6), ',');
    assert(s.take(6) =~= "source"@);
    lemma_next_column(s, 6, 17, "session_id"@);
    lemma_next_column(s, 17, 28, "commit_sha"@);
    lemma_next_column(s, 28, 41, "match_method"@);
    assert(s.take(41) =~= s);
    assert(keys_of(EvidenceKind::CommitLink) =~= key_names(EvidenceKind::CommitLink));
}

proof fn lemma_session_marker_keys()
    ensures
        keys_of(EvidenceKind::SessionMarker) == key_names(EvidenceKind::SessionMarker),
{
    reveal_strlit("source,session_id,marker_uid");
    reveal_strlit("source");
    reveal_strlit("session_id");
    reveal_strlit("marker_uid");
    reveal_with_fuel(text::is_clear, 22);
    let s = source_evidence::key_text(EvidenceKind::SessionMarker);
    text::lemma_split_whole(s.take(6), ',');
    assert(s.take(6) =~= "source"@);
    lemma_next_column(s, 6, 17, "session_id"@);
    lemma_next_column(s, 17, 28, "marker_uid"@);
    assert(s.take(28) =~= s);
    assert(keys_of(EvidenceKind::SessionMarker) =~= key_names(EvidenceKind::SessionMarker));
}

proof fn lemma_history_columns()
    ensures
        columns_of(EvidenceKind::History) == column_names(EvidenceKind::History),
{
    reveal_strlit("source,session_id,project,prompt,prompt_hash,timestamp_ms,git_branch");
    reveal_strlit("source");
    reveal_strlit("session_id");
    reveal_strlit("project");
    reveal_strlit("prompt");
    reveal_strlit("prompt_hash");
    reveal_strlit("timestamp_ms");
    reveal_strlit("git_branch");
    reveal_with_fuel(text::is_clear, 22);
    let s = source_evidence::columns_text(EvidenceKind::History);
    text::lemma_split_whole(s.take(6), ',');
    assert(s.take(6) =~= "source"@);
    lemma_next_column(s, 6, 17, "session_id"@);
    lemma_next_column(s, 17, 25, "project"@);
    lemma_next_column(s, 25, 32, "prompt"@);
    lemma_next_column(s, 32, 44, "prompt_hash"@);
    lemma_next_column(s, 44, 57, "timestamp_ms"@);
    lemma_next_column(s, 57, 68, "git_branch"@);
    assert(s.take(68) =~= s);
    assert(columns_of(EvidenceKind::History) =~= column_names(EvidenceKind::History));
}

proof fn lemma_session_event_columns_first()
    ensures
        text::split_on(
            source_evidence::columns_text(EvidenceKind::SessionEvent).take(98),
            ',',
        ) == column_names(EvidenceKind::SessionEvent).take(10),
{
    reveal_strlit(
        "source,session_id,project,project_key,project_key_method,cwd,git_branch,message_id,parent_id,ts_ms,role,kind,text,model,token_json,provider,event_uid,tool_use_id,payload_bytes,payload_truncated,payload_hash,call_index,event_index,result_status,event_source,error_signal,subagent_session_id,agent_id,request_id,provider_message_id,stop_reason,agent_version,is_sidechain,is_meta,turn_id,request_span,raw_kind,control_kind",
    );
    reveal_strlit("source");
    reveal_strlit("session_id");
    reveal_strlit("project");
    reveal_strlit("project_key");
    reveal_strlit("project_key_method");
    reveal_strlit("cwd");
    reveal_strlit("git_branch");
    reveal_strlit("message_id");
    reveal_strlit("parent_id");
    reveal_strlit("ts_ms");
    let s = source_evidence::columns_text(EvidenceKind::SessionEvent);
    assert(text::split_on(s.take(6), ',') == seq![s.take(6)]) by {
        reveal_with_fuel(text::is_clear, 24);
        text::lemma_split_whole(s.take(6), ',');
    }
    assert(s.take(6) =~= "source"@);
    assert(text::split_on(s.take(17), ',') == text::split_on(s.take(6), ',').push("session_id"@)) by {
        reveal_with_fuel(text::is_clear, 24);
        lemma_next_column(s, 6, 17, "session_id"@);
    }
    assert(text::split_on(s.take(25), ',') == text::split_on(s.take(17), ',').push("project"@)) by {
        reveal_with_fuel(text::is_clear, 24);
        lemma_next_column(s, 17, 25, "project"@);
    }
    assert(text::split_on(s.take(37), ',') == text::split_on(s.take(25), ',').push("project_key"@)) by {
        reveal_with_fuel(text::is_clear, 24);
        lemma_next_column(s, 25, 37, "project_key"@);
    }
    assert(text::split_on(s.take(56), ',') == text::split_on(s.take(37), ',').push("project_key_method"@)) by {
        reveal_with_fuel(text::is_clear, 24);
        lemma_next_column(s, 37, 56, "project_key_method"@);
    }
    assert(text::split_on(s.take(60), ',') == text::split_on(s.take(56), ',').push("cwd"@)) by {
        reveal_with_fuel(text::is_clear, 24);
        lemma_next_column(s, 56, 60, "cwd"@);
    }
    assert(text::split_on(s.take(71), ',') == text::split_on(s.take(60), ',').push("git_branch"@)) by {
        reveal_with_fuel(text::is_clear, 24);
        lemma_next_column(s, 60, 71, "git_branch"@);
    }
    assert(text::split_on(s.take(82), ',') == text::split_on(s.take(71), ',').push("message_id"@)) by {
        reveal_with_fuel(text::is_clear, 24);
        lemma_next_column(s, 71, 82, "message_id"@);
    }
    assert(text::split_on(s.take(92), ',') == text::split_on(s.take(82), ',').push("parent_id"@)) by {
        reveal_with_fuel(text::is_clear, 24);
        lemma_next_column(s, 82, 92, "parent_id"@);
    }
    assert(text::split_on(s.take(98), ',') == text::split_on(s.take(92), ',').push("ts_ms"@)) by {
        reveal_with_fuel(text::is_clear, 24);
        lemma_next_column(s, 92, 98, "ts_ms"@);
    }
    assert(text::split_on(s.take(98), ',') =~= column_names(EvidenceKind::SessionEvent).take(10));
}

proof fn lemma_session_event_columns_second()
    ensures
        text::split_on(
            source_evidence::columns_text(EvidenceKind::SessionEvent).take(193),
            ',',
        ) == column_names(EvidenceKind::SessionEvent).take(20),
{
    reveal_strlit(
        "source,session_id,project,project_key,project_key_method,cwd,git_branch,message_id,parent_id,ts_ms,role,kind,text,model,token_json,provider,event_uid,tool_use_id,payload_bytes,payload_truncated,payload_hash,call_index,event_index,result_status,event_source,error_signal,subagent_session_id,agent_id,request_id,provider_message_id,stop_reason,agent_version,is_sidechain,is_meta,turn_id,request_span,raw_kind,control_kind",
    );
    reveal_strlit("role");
    reveal_strlit("kind");
    reveal_strlit("text");
    reveal_strlit("model");
    reveal_strlit("token_json");
    reveal_strlit("provider");
    reveal_strlit("event_uid");
    reveal_strlit("tool_use_id");
    reveal_strlit("payload_bytes");
    reveal_strlit("payload_truncated");
    let s = source_evidence::columns_text(EvidenceKind::SessionEvent);
    lemma_session_event_columns_first();
    assert(text::split_on(s.take(103), ',') == text::split_on(s.take(98), ',').push("role"@)) by {
        reveal_with_fuel(text::is_clear, 24);
        lemma_next_column(s, 98, 103, "role"@);
    }
    assert(text::split_on(s.take(108), ',') == text::split_on(s.take(103), ',').push("kind"@)) by {
        reveal_with_fuel(text::is_clear, 24);
        lemma_next_column(s, 103, 108, "kind"@);
    }
    assert(text::split_on(s.take(113), ',') == text::split_on(s.take(108), ',').push("text"@)) by {
        reveal_with_fuel(text::is_clear, 24);
        lemma_next_column(s, 108, 113, "text"@);
    }
    assert(text::split_on(s.take(119), ',') == text::split_on(s.take(113), ',').push("model"@)) by {
        reveal_with_fuel(text::is_clear, 24);
        lemma_next_column(s, 113, 119, "model"@);
    }
    assert(text::split_on(s.take(130), ',') == text::split_on(s.take(119), ',').push("token_json"@)) by {
        reveal_with_fuel(text::is_clear, 24);
        lemma_next_column(s, 119, 130, "token_json"@);
    }
    assert(text::split_on(s.take(139), ',') == text::split_on(s.take(130), ',').push("provider"@)) by {
        reveal_with_fuel(text::is_clear, 24);
        lemma_next_column(s, 130, 139, "provider"@);
    }
    assert(text::split_on(s.take(149), ',') == text::split_on(s.take(139), ',').push("event_uid"@)) by {
        reveal_with_fuel(text::is_clear, 24);
        lemma_next_column(s, 139, 149, "event_uid"@);
    }
    assert(text::split_on(s.take(161), ',') == text::split_on(s.take(149), ',').push("tool_use_id"@)) by {
        reveal_with_fuel(text::is_clear, 24);
        lemma_next_column(s, 149, 161, "tool_use_id"@);
    }
    assert(text::split_on(s.take(175), ',') == text::split_on(s.take(161), ',').push("payload_bytes"@)) by {
        reveal_with_fuel(text::is_clear, 24);
        lemma_next_column(s, 161, 175, "payload_bytes"@);
    }
    assert(text::split_on(s.take(193), ',') == text::split_on(s.take(175), ',').push("payload_truncated"@)) by {
        reveal_with_fuel(text::is_clear, 24);
        lemma_next_column(s, 175, 193, "payload_truncated"@);
    }
    assert(text::split_on(s.take(193), ',') =~= column_names(EvidenceKind::SessionEvent).take(20));
}

proof fn lemma_session_event_columns_third()
    ensures
        text::split_on(
            source_evidence::columns_text(EvidenceKind::SessionEvent).take(329),
            ',',
        ) == column_names(EvidenceKind::SessionEvent).take(30),
{
    reveal_strlit(
        "source,session_id,project,project_key,project_key_method,cwd,git_branch,message_id,parent_id,ts_ms,role,kind,text,model,token_json,provider,event_uid,tool_use_id,payload_bytes,payload_truncated,payload_hash,call_index,event_index,result_status,event_source,error_signal,subagent_session_id,agent_id,request_id,provider_message_id,stop_reason,agent_version,is_sidechain,is_meta,turn_id,request_span,raw_kind,control_kind",
    );
    reveal_strlit("payload_hash");
    reveal_strlit("call_index");
    reveal_strlit("event_index");
    reveal_strlit("result_status");
    reveal_strlit("event_source");
    reveal_strlit("error_signal");
    reveal_strlit("subagent_session_id");
    reveal_strlit("agent_id");
    reveal_strlit("request_id");
    reveal_strlit("provider_message_id");
    let s = source_evidence::columns_text(EvidenceKind::SessionEvent);
    lemma_session_event_columns_second();
    assert(text::split_on(s.take(206), ',') == text::split_on(s.take(193), ',').push("payload_hash"@)) by {
        reveal_with_fuel(text::is_clear, 24);
        lemma_next_column(s, 193, 206, "payload_hash"@);
    }
    assert(text::split_on(s.take(217), ',') == text::split_on(s.take(206), ',').push("call_index"@)) by {
        reveal_with_fuel(text::is_clear, 24);
        lemma_next_column(s, 206, 217, "call_index"@);
    }
    assert(text::split_on(s.take(229), ',') == text::split_on(s.take(217), ',').push("event_index"@)) by {
        reveal_with_fuel(text::is_clear, 24);
        lemma_next_column(s, 217, 229, "event_index"@);
    }
    assert(text::split_on(s.take(243), ',') == text::split_on(s.take(229), ',').push("result_status"@)) by {
        reveal_with_fuel(text::is_clear, 24);
        lemma_next_column(s, 229, 243, "result_status"@);
    }
    assert(text::split_on(s.take(256), ',') == text::split_on(s.take(243), ',').push("event_source"@)) by {
        reveal_with_fuel(text::is_clear, 24);
        lemma_next_column(s, 243, 256, "event_source"@);
    }
    assert(text::split_on(s.take(269), ',') == text::split_on(s.take(256), ',').push("error_signal"@)) by {
        reveal_with_fuel(text::is_clear, 24);
        lemma_next_column(s, 256, 269, "error_signal"@);
    }
    assert(text::split_on(s.take(289), ',') == text::split_on(s.take(269), ',').push("subagent_session_id"@)) by {
        reveal_with_fuel(text::is_clear, 24);
        lemma_next_column(s, 269, 289, "subagent_session_id"@);
    }
    assert(text::split_on(s.take(298), ',') == text::split_on(s.take(289), ',').push("agent_id"@)) by {
        reveal_with_fuel(text::is_clear, 24);
        lemma_next_column(s, 289, 298, "agent_id"@);
    }
    assert(text::split_on(s.take(309), ',') == text::split_on(s.take(298), ',').push("request_id"@)) by {
        reveal_with_fuel(text::is_clear, 24);
        lemma_next_column(s, 298, 309, "request_id"@);
    }
    assert(text::split_on(s.take(329), ',') == text::split_on(s.take(309), ',').push("provider_message_id"@)) by {
        reveal_with_fuel(text::is_clear, 24);
        lemma_next_column(s, 309, 329, "provider_message_id"@);
    }
    assert(text::split_on(s.take(329), ',') =~= column_names(EvidenceKind::SessionEvent).take(30));
}

proof fn lemma_session_event_columns_fourth()
    ensures
        text::split_on(
            source_evidence::columns_text(EvidenceKind::SessionEvent).take(419),
            ',',
        ) == column_names(EvidenceKind::SessionEvent).take(38),
{
    reveal_strlit(
        "source,session_id,project,project_key,project_key_method,cwd,git_branch,message_id,parent_id,ts_ms,role,kind,text,model,token_json,provider,event_uid,tool_use_id,payload_bytes,payload_truncated,payload_hash,call_index,event_index,result_status,event_source,error_signal,subagent_session_id,agent_id,request_id,provider_message_id,stop_reason,agent_version,is_sidechain,is_meta,turn_id,request_span,raw_kind,control_kind",
    );
    reveal_strlit("stop_reason");
    reveal_strlit("agent_version");
    reveal_strlit("is_sidechain");
    reveal_strlit("is_meta");
    reveal_strlit("turn_id");
    reveal_strlit("request_span");
    reveal_strlit("raw_kind");
    reveal_strlit("control_kind");
    reveal_with_fuel(text::is_clear, 22);
    let s = source_evidence::columns_text(EvidenceKind::SessionEvent);
    lemma_session_event_columns_third();
    lemma_next_column(s, 329, 341, "stop_reason"@);
    lemma_next_column(s, 341, 355, "agent_version"@);
    lemma_next_column(s, 355, 368, "is_sidechain"@);
    lemma_next_column(s, 368, 376, "is_meta"@);
    lemma_next_column(s, 376, 384, "turn_id"@);
    lemma_next_column(s, 384, 397, "request_span"@);
    lemma_next_column(s, 397, 406, "raw_kind"@);
    lemma_next_column(s, 406, 419, "control_kind"@);
    assert(text::split_on(s.take(419), ',') =~= column_names(EvidenceKind::SessionEvent).take(38));
}

proof fn lemma_session_event_columns()
    ensures
        columns_of(EvidenceKind::SessionEvent) == column_names(EvidenceKind::SessionEvent),
{
    reveal_strlit(
        "source,session_id,project,project_key,project_key_method,cwd,git_branch,message_id,parent_id,ts_ms,role,kind,text,model,token_json,provider,event_uid,tool_use_id,payload_bytes,payload_truncated,payload_hash,call_index,event_index,result_status,event_source,error_signal,subagent_session_id,agent_id,request_id,provider_message_id,stop_reason,agent_version,is_sidechain,is_meta,turn_id,request_span,raw_kind,control_kind",
    );
    let s = source_evidence::columns_text(EvidenceKind::SessionEvent);
    lemma_session_event_columns_fourth();
    assert(s.take(419) =~= s);
    assert(column_names(EvidenceKind::SessionEvent).take(38) =~= column_names(EvidenceKind::SessionEvent));
}

proof fn lemma_tool_call_columns()
    ensures
        columns_of(EvidenceKind::ToolCall) == column_names(EvidenceKind::ToolCall),
{
    reveal_strlit(
        "source,session_id,message_id,tool_use_id,name,target,args_json,is_error,ts_ms",
    );
    reveal_strlit("source");
    reveal_strlit("session_id");
    reveal_strlit("message_id");
    reveal_strlit("tool_use_id");
    reveal_strlit("name");
    reveal_strlit("target");
    reveal_strlit("args_json");
    reveal_strlit("is_error");
    reveal_strlit("ts_ms");
    reveal_with_fuel(text::is_clear, 22);
    let s = source_evidence::columns_text(EvidenceKind::ToolCall);
    text::lemma_split_whole(s.take(6), ',');
    assert(s.take(6) =~= "source"@);
    lemma_next_column(s, 6, 17, "session_id"@);
    lemma_next_column(s, 17, 28, "message_id"@);
    lemma_next_column(s, 28, 40, "tool_use_id"@);
    lemma_next_column(s, 40, 45, "name"@);
    lemma_next_column(s, 45, 52, "target"@);
    lemma_next_column(s, 52, 62, "args_json"@);
    lemma_next_column(s, 62, 71, "is_error"@);
    lemma_next_column(s, 71, 77, "ts_ms"@);
    assert(s.take(77) =~= s);
    assert(columns_of(EvidenceKind::ToolCall) =~= column_names(EvidenceKind::ToolCall));
}

proof fn lemma_file_edit_columns()
    ensures
        columns_of(EvidenceKind::FileEdit) == column_names(EvidenceKind::FileEdit),
{
    reveal_strlit(
        "source,session_id,message_id,tool_use_id,file_path,tool_name,lines_added,lines_removed,structured_patch_json,user_modified,ts_ms,git_branch,cwd",
    );
    reveal_strlit("source");
    reveal_strlit("session_id");
    reveal_strlit("message_id");
    reveal_strlit("tool_use_id");
    reveal_strlit("file_path");
    reveal_strlit("tool_name");
    reveal_strlit("lines_added");
    reveal_strlit("lines_removed");
    reveal_strlit("structured_patch_json");
    reveal_strlit("user_modified");
    reveal_strlit("ts_ms");
    reveal_strlit("git_branch");
    reveal_strlit("cwd");
    let s = source_evidence::columns_text(EvidenceKind::FileEdit);
    assert(text::split_on(s.take(6), ',') == seq![s.take(6)]) by {
        reveal_with_fuel(text::is_clear, 24);
        text::lemma_split_whole(s.take(6), ',');
    }
    assert(s.take(6) =~= "source"@);
    assert(text::split_on(s.take(17), ',') == text::split_on(s.take(6), ',').push("session_id"@)) by {
        reveal_with_fuel(text::is_clear, 24);
        lemma_next_column(s, 6, 17, "session_id"@);
    }
    assert(text::split_on(s.take(28), ',') == text::split_on(s.take(17), ',').push("message_id"@)) by {
        reveal_with_fuel(text::is_clear, 24);
        lemma_next_column(s, 17, 28, "message_id"@);
    }
    assert(text::split_on(s.take(40), ',') == text::split_on(s.take(28), ',').push("tool_use_id"@)) by {
        reveal_with_fuel(text::is_clear, 24);
        lemma_next_column(s, 28, 40, "tool_use_id"@);
    }
    assert(text::split_on(s.take(50), ',') == text::split_on(s.take(40), ',').push("file_path"@)) by {
        reveal_with_fuel(text::is_clear, 24);
        lemma_next_column(s, 40, 50, "file_path"@);
    }
    assert(text::split_on(s.take(60), ',') == text::split_on(s.take(50), ',').push("tool_name"@)) by {
        reveal_with_fuel(text::is_clear, 24);
        lemma_next_column(s, 50, 60, "tool_name"@);
    }
    assert(text::split_on(s.take(72), ',') == text::split_on(s.take(60), ',').push("lines_added"@)) by {
        reveal_with_fuel(text::is_clear, 24);
        lemma_next_column(s, 60, 72, "lines_added"@);
    }
    assert(text::split_on(s.take(86), ',') == text::split_on(s.take(72), ',').push("lines_removed"@)) by {
        reveal_with_fuel(text::is_clear, 24);
        lemma_next_column(s, 72, 86, "lines_removed"@);
    }
    assert(text::split_on(s.take(108), ',') == text::split_on(s.take(86), ',').push("structured_patch_json"@)) by {
        reveal_with_fuel(text::is_clear, 24);
        lemma_next_column(s, 86, 108, "structured_patch_json"@);
    }
    assert(text::split_on(s.take(122), ',') == text::split_on(s.take(108), ',').push("user_modified"@)) by {
        reveal_with_fuel(text::is_clear, 24);
        lemma_next_column(s, 108, 122, "user_modified"@);
    }
    assert(text::split_on(s.take(128), ',') == text::split_on(s.take(122), ',').push("ts_ms"@)) by {
        reveal_with_fuel(text::is_clear, 24);
        lemma_next_column(s, 122, 128, "ts_ms"@);
    }
    assert(text::split_on(s.take(139), ',') == text::split_on(s.take(128), ',').push("git_branch"@)) by {
        reveal_with_fuel(text::is_clear, 24);
        lemma_next_column(s, 128, 139, "git_branch"@);
    }
    assert(text::split_on(s.take(143), ',') == text::split_on(s.take(139), ',').push("cwd"@)) by {
        reveal_with_fuel(text::is_clear, 24);
        lemma_next_column(s, 139, 143, "cwd"@);
    }
    assert(s.take(143) =~= s);
    assert(columns_of(EvidenceKind::FileEdit) =~= column_names(EvidenceKind::FileEdit));
}

proof fn lemma_relationship_columns()
    ensures
        columns_of(EvidenceKind::Relationship) == column_names(EvidenceKind::Relationship),
{
    reveal_strlit(
        "source,parent_session_id,relationship_uid,child_session_id,relationship,identity_status,child_agent_type,child_agent_name,child_model,spawn_depth,evidence_kind,evidence_locator,evidence_ref,child_has_events,spawned_at_ms,created_ms,updated_ms,origin_session_id",
    );
    reveal_strlit("source");
    reveal_strlit("parent_session_id");
    reveal_strlit("relationship_uid");
    reveal_strlit("child_session_id");
    reveal_strlit("relationship");
    reveal_strlit("identity_status");
    reveal_strlit("child_agent_type");
    reveal_strlit("child_agent_name");
    reveal_strlit("child_model");
    reveal_strlit("spawn_depth");
    reveal_strlit("evidence_kind");
    reveal_strlit("evidence_locator");
    reveal_strlit("evidence_ref");
    reveal_strlit("child_has_events");
    reveal_strlit("spawned_at_ms");
    reveal_strlit("created_ms");
    reveal_strlit("updated_ms");
    reveal_strlit("origin_session_id");
    let s = source_evidence::columns_text(EvidenceKind::Relationship);
    assert(text::split_on(s.take(6), ',') == seq![s.take(6)]) by {
        reveal_with_fuel(text::is_clear, 24);
        text::lemma_split_whole(s.take(6), ',');
    }
    assert(s.take(6) =~= "source"@);
    assert(text::split_on(s.take(24), ',') == text::split_on(s.take(6), ',').push("parent_session_id"@)) by {
        reveal_with_fuel(text::is_clear, 24);
        lemma_next_column(s, 6, 24, "parent_session_id"@);
    }
    assert(text::split_on(s.take(41), ',') == text::split_on(s.take(24), ',').push("relationship_uid"@)) by {
        reveal_with_fuel(text::is_clear, 24);
        lemma_next_column(s, 24, 41, "relationship_uid"@);
    }
    assert(text::split_on(s.take(58), ',') == text::split_on(s.take(41), ',').push("child_session_id"@)) by {
        reveal_with_fuel(text::is_clear, 24);
        lemma_next_column(s, 41, 58, "child_session_id"@);
    }
    assert(text::split_on(s.take(71), ',') == text::split_on(s.take(58), ',').push("relationship"@)) by {
        reveal_with_fuel(text::is_clear, 24);
        lemma_next_column(s, 58, 71, "relationship"@);
    }
    assert(text::split_on(s.take(87), ',') == text::split_on(s.take(71), ',').push("identity_status"@)) by {
        reveal_with_fuel(text::is_clear, 24);
        lemma_next_column(s, 71, 87, "identity_status"@);
    }
    assert(text::split_on(s.take(104), ',') == text::split_on(s.take(87), ',').push("child_agent_type"@)) by {
        reveal_with_fuel(text::is_clear, 24);
        lemma_next_column(s, 87, 104, "child_agent_type"@);
    }
    assert(text::split_on(s.take(121), ',') == text::split_on(s.take(104), ',').push("child_agent_name"@)) by {
        reveal_with_fuel(text::is_clear, 24);
        lemma_next_column(s, 104, 121, "child_agent_name"@);
    }
    assert(text::split_on(s.take(133), ',') == text::split_on(s.take(121), ',').push("child_model"@)) by {
        reveal_with_fuel(text::is_clear, 24);
        lemma_next_column(s, 121, 133, "child_model"@);
    }
    assert(text::split_on(s.take(145), ',') == text::split_on(s.take(133), ',').push("spawn_depth"@)) by {
        reveal_with_fuel(text::is_clear, 24);
        lemma_next_column(s, 133, 145, "spawn_depth"@);
    }
    assert(text::split_on(s.take(159), ',') == text::split_on(s.take(145), ',').push("evidence_kind"@)) by {
        reveal_with_fuel(text::is_clear, 24);
        lemma_next_column(s, 145, 159, "evidence_kind"@);
    }
    assert(text::split_on(s.take(176), ',') == text::split_on(s.take(159), ',').push("evidence_locator"@)) by {
        reveal_with_fuel(text::is_clear, 24);
        lemma_next_column(s, 159, 176, "evidence_locator"@);
    }
    assert(text::split_on(s.take(189), ',') == text::split_on(s.take(176), ',').push("evidence_ref"@)) by {
        reveal_with_fuel(text::is_clear, 24);
        lemma_next_column(s, 176, 189, "evidence_ref"@);
    }
    assert(text::split_on(s.take(206), ',') == text::split_on(s.take(189), ',').push("child_has_events"@)) by {
        reveal_with_fuel(text::is_clear, 24);
        lemma_next_column(s, 189, 206, "child_has_events"@);
    }
    assert(text::split_on(s.take(220), ',') == text::split_on(s.take(206), ',').push("spawned_at_ms"@)) by {
        reveal_with_fuel(text::is_clear, 24);
        lemma_next_column(s, 206, 220, "spawned_at_ms"@);
    }
    assert(text::split_on(s.take(231), ',') == text::split_on(s.take(220), ',').push("created_ms"@)) by {
        reveal_with_fuel(text::is_clear, 24);
        lemma_next_column(s, 220, 231, "created_ms"@);
    }
    assert(text::split_on(s.take(242), ',') == text::split_on(s.take(231), ',').push("updated_ms"@)) by {
        reveal_with_fuel(text::is_clear, 24);
        lemma_next_column(s, 231, 242, "updated_ms"@);
    }
    assert(text::split_on(s.take(260), ',') == text::split_on(s.take(242), ',').push("origin_session_id"@)) by {
        reveal_with_fuel(text::is_clear, 24);
        lemma_next_column(s, 242, 260, "origin_session_id"@);
    }
    assert(s.take(260) =~= s);
    assert(columns_of(EvidenceKind::Relationship) =~= column_names(EvidenceKind::Relationship));
}

proof fn lemma_commit_link_columns()
    ensures
        columns_of(EvidenceKind::CommitLink) == column_names(EvidenceKind::CommitLink),
{
    reveal_strlit(
        "source,session_id,repo,branch,commit_sha,note_ref,match_method,confidence,files_json,numstat_json,evidence_json,created_at_ms",
    );
    reveal_strlit("source");
    reveal_strlit("session_id");
    reveal_strlit("repo");
    reveal_strlit("branch");
    reveal_strlit("commit_sha");
    reveal_strlit("note_ref");
    reveal_strlit("match_method");
    reveal_strlit("confidence");
    reveal_strlit("files_json");
    reveal_strlit("numstat_json");
    reveal_strlit("evidence_json");
    reveal_strlit("created_at_ms");
    let s = source_evidence::columns_text(EvidenceKind::CommitLink);
    assert(text::split_on(s.take(6), ',') == seq![s.take(6)]) by {
        reveal_with_fuel(text::is_clear, 24);
        text::lemma_split_whole(s.take(6), ',');
    }
    assert(s.take(6) =~= "source"@);
    assert(text::split_on(s.take(17), ',') == text::split_on(s.take(6), ',').push("session_id"@)) by {
        reveal_with_fuel(text::is_clear, 24);
        lemma_next_column(s, 6, 17, "session_id"@);
    }
    assert(text::split_on(s.take(22), ',') == text::split_on(s.take(17), ',').push("repo"@)) by {
        reveal_with_fuel(text::is_clear, 24);
        lemma_next_column(s, 17, 22, "repo"@);
    }
    assert(text::split_on(s.take(29), ',') == text::split_on(s.take(22), ',').push("branch"@)) by {
        reveal_with_fuel(text::is_clear, 24);
        lemma_next_column(s, 22, 29, "branch"@);
    }
    assert(text::split_on(s.take(40), ',') == text::split_on(s.take(29), ',').push("commit_sha"@)) by {
        reveal_with_fuel(text::is_clear, 24);
        lemma_next_column(s, 29, 40, "commit_sha"@);
    }
    assert(text::split_on(s.take(49), ',') == text::split_on(s.take(40), ',').push("note_ref"@)) by {
        reveal_with_fuel(text::is_clear, 24);
        lemma_next_column(s, 40, 49, "note_ref"@);
    }
    assert(text::split_on(s.take(62), ',') == text::split_on(s.take(49), ',').push("match_method"@)) by {
        reveal_with_fuel(text::is_clear, 24);
        lemma_next_column(s, 49, 62, "match_method"@);
    }
    assert(text::split_on(s.take(73), ',') == text::split_on(s.take(62), ',').push("confidence"@)) by {
        reveal_with_fuel(text::is_clear, 24);
        lemma_next_column(s, 62, 73, "confidence"@);
    }
    assert(text::split_on(s.take(84), ',') == text::split_on(s.take(73), ',').push("files_json"@)) by {
        reveal_with_fuel(text::is_clear, 24);
        lemma_next_column(s, 73, 84, "files_json"@);
    }
    assert(text::split_on(s.take(97), ',') == text::split_on(s.take(84), ',').push("numstat_json"@)) by {
        reveal_with_fuel(text::is_clear, 24);
        lemma_next_column(s, 84, 97, "numstat_json"@);
    }
    assert(text::split_on(s.take(111), ',') == text::split_on(s.take(97), ',').push("evidence_json"@)) by {
        reveal_with_fuel(text::is_clear, 24);
        lemma_next_column(s, 97, 111, "evidence_json"@);
    }
    assert(text::split_on(s.take(125), ',') == text::split_on(s.take(111), ',').push("created_at_ms"@)) by {
        reveal_with_fuel(text::is_clear, 24);
        lemma_next_column(s, 111, 125, "created_at_ms"@);
    }
    assert(s.take(125) =~= s);
    assert(columns_of(EvidenceKind::CommitLink) =~= column_names(EvidenceKind::CommitLink));
}

proof fn lemma_session_marker_columns()
    ensures
        columns_of(EvidenceKind::SessionMarker) == column_names(EvidenceKind::SessionMarker),
{
    reveal_strlit(
        "source,session_id,marker_uid,ts_ms,message_id,parent_id,turn_id,kind,subkind,text,payload_json",
    );
    reveal_strlit("source");
    reveal_strlit("session_id");
    reveal_strlit("marker_uid");
    reveal_strlit("ts_ms");
    reveal_strlit("message_id");
    reveal_strlit("parent_id");
    reveal_strlit("turn_id");
    reveal_strlit("kind");
    reveal_strlit("subkind");
    reveal_strlit("text");
    reveal_strlit("payload_json");
    let s = source_evidence::columns_text(EvidenceKind::SessionMarker);
    assert(text::split_on(s.take(6), ',') == seq![s.take(6)]) by {
        reveal_with_fuel(text::is_clear, 24);
        text::lemma_split_whole(s.take(6), ',');
    }
    assert(s.take(6) =~= "source"@);
    assert(text::split_on(s.take(17), ',') == text::split_on(s.take(6), ',').push("session_id"@)) by {
        reveal_with_fuel(text::is_clear, 24);
        lemma_next_column(s, 6, 17, "session_id"@);
    }
    assert(text::split_on(s.take(28), ',') == text::split_on(s.take(17), ',').push("marker_uid"@)) by {
        reveal_with_fuel(text::is_clear, 24);
        lemma_next_column(s, 17, 28, "marker_uid"@);
    }
    assert(text::split_on(s.take(34), ',') == text::split_on(s.take(28), ',').push("ts_ms"@)) by {
        reveal_with_fuel(text::is_clear, 24);
        lemma_next_column(s, 28, 34, "ts_ms"@);
    }
    assert(text::split_on(s.take(45), ',') == text::split_on(s.take(34), ',').push("message_id"@)) by {
        reveal_with_fuel(text::is_clear, 24);
        lemma_next_column(s, 34, 45, "message_id"@);
    }
    assert(text::split_on(s.take(55), ',') == text::split_on(s.take(45), ',').push("parent_id"@)) by {
        reveal_with_fuel(text::is_clear, 24);
        lemma_next_column(s, 45, 55, "parent_id"@);
    }
    assert(text::split_on(s.take(63), ',') == text::split_on(s.take(55), ',').push("turn_id"@)) by {
        reveal_with_fuel(text::is_clear, 24);
        lemma_next_column(s, 55, 63, "turn_id"@);
    }
    assert(text::split_on(s.take(68), ',') == text::split_on(s.take(63), ',').push("kind"@)) by {
        reveal_with_fuel(text::is_clear, 24);
        lemma_next_column(s, 63, 68, "kind"@);
    }
    assert(text::split_on(s.take(76), ',') == text::split_on(s.take(68), ',').push("subkind"@)) by {
        reveal_with_fuel(text::is_clear, 24);
        lemma_next_column(s, 68, 76, "subkind"@);
    }
    assert(text::split_on(s.take(81), ',') == text::split_on(s.take(76), ',').push("text"@)) by {
        reveal_with_fuel(text::is_clear, 24);
        lemma_next_column(s, 76, 81, "text"@);
    }
    assert(text::split_on(s.take(94), ',') == text::split_on(s.take(81), ',').push("payload_json"@)) by {
        reveal_with_fuel(text::is_clear, 24);
        lemma_next_column(s, 81, 94, "payload_json"@);
    }
    assert(s.take(94) =~= s);
    assert(columns_of(EvidenceKind::SessionMarker) =~= column_names(EvidenceKind::SessionMarker));
}

proof fn lemma_history_has_no_row_number(i: int)
    requires
        0 <= i < column_names(EvidenceKind::History).len(),
    ensures
        column_names(EvidenceKind::History)[i] != "id"@,
        column_names(EvidenceKind::History)[i] != "rowid"@,
{
    reveal_strlit("id");
    reveal_strlit("rowid");
    assert("id"@.len() == 2);
    assert("rowid"@.len() == 5);
    assert("rowid"@[0] == 'r');
    reveal_strlit("source");
    assert("source"@.len() == 6);
    reveal_strlit("session_id");
    assert("session_id"@.len() == 10);
    reveal_strlit("project");
    assert("project"@.len() == 7);
    reveal_strlit("prompt");
    assert("prompt"@.len() == 6);
    reveal_strlit("prompt_hash");
    assert("prompt_hash"@.len() == 11);
    reveal_strlit("timestamp_ms");
    assert("timestamp_ms"@.len() == 12);
    reveal_strlit("git_branch");
    assert("git_branch"@.len() == 10);
}

proof fn lemma_session_event_has_no_row_number(i: int)
    requires
        0 <= i < column_names(EvidenceKind::SessionEvent).len(),
    ensures
        column_names(EvidenceKind::SessionEvent)[i] != "id"@,
        column_names(EvidenceKind::SessionEvent)[i] != "rowid"@,
{
    reveal_strlit("id");
    reveal_strlit("rowid");
    assert("id"@.len() == 2);
    assert("rowid"@.len() == 5);
    assert("rowid"@[0] == 'r');
    reveal_strlit("source");
    assert("source"@.len() == 6);
    reveal_strlit("session_id");
    assert("session_id"@.len() == 10);
    reveal_strlit("project");
    assert("project"@.len() == 7);
    reveal_strlit("project_key");
    assert("project_key"@.len() == 11);
    reveal_strlit("project_key_method");
    assert("project_key_method"@.len() == 18);
    reveal_strlit("cwd");
    assert("cwd"@.len() == 3);
    reveal_strlit("git_branch");
    assert("git_branch"@.len() == 10);
    reveal_strlit("message_id");
    assert("message_id"@.len() == 10);
    reveal_strlit("parent_id");
    assert("parent_id"@.len() == 9);
    reveal_strlit("ts_ms");
    assert("ts_ms"@.len() == 5);
    assert("ts_ms"@[0] == 't');
    reveal_strlit("role");
    assert("role"@.len() == 4);
    reveal_strlit("kind");
    assert("kind"@.len() == 4);
    reveal_strlit("text");
    assert("text"@.len() == 4);
    reveal_strlit("model");
    assert("model"@.len() == 5);
    assert("model"@[0] == 'm');
    reveal_strlit("token_json");
    assert("token_json"@.len() == 10);
    reveal_strlit("provider");
    assert("provider"@.len() == 8);
    reveal_strlit("event_uid");
    assert("event_uid"@.len() == 9);
    reveal_strlit("tool_use_id");
    assert("tool_use_id"@.len() == 11);
    reveal_strlit("payload_bytes");
    assert("payload_bytes"@.len() == 13);
    reveal_strlit("payload_truncated");
    assert("payload_truncated"@.len() == 17);
    reveal_strlit("payload_hash");
    assert("payload_hash"@.len() == 12);
    reveal_strlit("call_index");
    assert("call_index"@.len() == 10);
    reveal_strlit("event_index");
    assert("event_index"@.len() == 11);
    reveal_strlit("result_status");
    assert("result_status"@.len() == 13);
    reveal_strlit("event_source");
    assert("event_source"@.len() == 12);
    reveal_strlit("error_signal");
    assert("error_signal"@.len() == 12);
    reveal_strlit("subagent_session_id");
    assert("subagent_session_id"@.len() == 19);
    reveal_strlit("agent_id");
    assert("agent_id"@.len() == 8);
    reveal_strlit("request_id");
    assert("request_id"@.len() == 10);
    reveal_strlit("provider_message_id");
    assert("provider_message_id"@.len() == 19);
    reveal_strlit("stop_reason");
    assert("stop_reason"@.len() == 11);
    reveal_strlit("agent_version");
    assert("agent_version"@.len() == 13);
    reveal_strlit("is_sidechain");
    assert("is_sidechain"@.len() == 12);
    reveal_strlit("is_meta");
    assert("is_meta"@.len() == 7);
    reveal_strlit("turn_id");
    assert("turn_id"@.len() == 7);
    reveal_strlit("request_span");
    assert("request_span"@.len() == 12);
    reveal_strlit("raw_kind");
    assert("raw_kind"@.len() == 8);
    reveal_strlit("control_kind");
    assert("control_kind"@.len() == 12);
}

proof fn lemma_tool_call_has_no_row_number(i: int)
    requires
        0 <= i < column_names(EvidenceKind::ToolCall).len(),
    ensures
        column_names(EvidenceKind::ToolCall)[i] != "id"@,
        column_names(EvidenceKind::ToolCall)[i] != "rowid"@,
{
    reveal_strlit("id");
    reveal_strlit("rowid");
    assert("id"@.len() == 2);
    assert("rowid"@.len() == 5);
    assert("rowid"@[0] == 'r');
    reveal_strlit("source");
    assert("source"@.len() == 6);
    reveal_strlit("session_id");
    assert("session_id"@.len() == 10);
    reveal_strlit("message_id");
    assert("message_id"@.len() == 10);
    reveal_strlit("tool_use_id");
    assert("tool_use_id"@.len() == 11);
    reveal_strlit("name");
    assert("name"@.len() == 4);
    reveal_strlit("target");
    assert("target"@.len() == 6);
    reveal_strlit("args_json");
    assert("args_json"@.len() == 9);
    reveal_strlit("is_error");
    assert("is_error"@.len() == 8);
    reveal_strlit("ts_ms");
    assert("ts_ms"@.len() == 5);
    assert("ts_ms"@[0] == 't');
}

proof fn lemma_file_edit_has_no_row_number(i: int)
    requires
        0 <= i < column_names(EvidenceKind::FileEdit).len(),
    ensures
        column_names(EvidenceKind::FileEdit)[i] != "id"@,
        column_names(EvidenceKind::FileEdit)[i] != "rowid"@,
{
    reveal_strlit("id");
    reveal_strlit("rowid");
    assert("id"@.len() == 2);
    assert("rowid"@.len() == 5);
    assert("rowid"@[0] == 'r');
    reveal_strlit("source");
    assert("source"@.len() == 6);
    reveal_strlit("session_id");
    assert("session_id"@.len() == 10);
    reveal_strlit("message_id");
    assert("message_id"@.len() == 10);
    reveal_strlit("tool_use_id");
    assert("tool_use_id"@.len() == 11);
    reveal_strlit("file_path");
    assert("file_path"@.len() == 9);
    reveal_strlit("tool_name");
    assert("tool_name"@.len() == 9);
    reveal_strlit("lines_added");
    assert("lines_added"@.len() == 11);
    reveal_strlit("lines_removed");
    assert("lines_removed"@.len() == 13);
    reveal_strlit("structured_patch_json");
    assert("structured_patch_json"@.len() == 21);
    reveal_strlit("user_modified");
    assert("user_modified"@.len() == 13);
    reveal_strlit("ts_ms");
    assert("ts_ms"@.len() == 5);
    assert("ts_ms"@[0] == 't');
    reveal_strlit("git_branch");
    assert("git_branch"@.len() == 10);
    reveal_strlit("cwd");
    assert("cwd"@.len() == 3);
}

proof fn lemma_relationship_has_no_row_number(i: int)
    requires
        0 <= i < column_names(EvidenceKind::Relationship).len(),
    ensures
        column_names(EvidenceKind::Relationship)[i] != "id"@,
        column_names(EvidenceKind::Relationship)[i] != "rowid"@,
{
    reveal_strlit("id");
    reveal_strlit("rowid");
    assert("id"@.len() == 2);
    assert("rowid"@.len() == 5);
    assert("rowid"@[0] == 'r');
    reveal_strlit("source");
    assert("source"@.len() == 6);
    reveal_strlit("parent_session_id");
    assert("parent_session_id"@.len() == 17);
    reveal_strlit("relationship_uid");
    assert("relationship_uid"@.len() == 16);
    reveal_strlit("child_session_id");
    assert("child_session_id"@.len() == 16);
    reveal_strlit("relationship");
    assert("relationship"@.len() == 12);
    reveal_strlit("identity_status");
    assert("identity_status"@.len() == 15);
    reveal_strlit("child_agent_type");
    assert("child_agent_type"@.len() == 16);
    reveal_strlit("child_agent_name");
    assert("child_agent_name"@.len() == 16);
    reveal_strlit("child_model");
    assert("child_model"@.len() == 11);
    reveal_strlit("spawn_depth");
    assert("spawn_depth"@.len() == 11);
    reveal_strlit("evidence_kind");
    assert("evidence_kind"@.len() == 13);
    reveal_strlit("evidence_locator");
    assert("evidence_locator"@.len() == 16);
    reveal_strlit("evidence_ref");
    assert("evidence_ref"@.len() == 12);
    reveal_strlit("child_has_events");
    assert("child_has_events"@.len() == 16);
    reveal_strlit("spawned_at_ms");
    assert("spawned_at_ms"@.len() == 13);
    reveal_strlit("created_ms");
    assert("created_ms"@.len() == 10);
    reveal_strlit("updated_ms");
    assert("updated_ms"@.len() == 10);
    reveal_strlit("origin_session_id");
    assert("origin_session_id"@.len() == 17);
}

proof fn lemma_commit_link_has_no_row_number(i: int)
    requires
        0 <= i < column_names(EvidenceKind::CommitLink).len(),
    ensures
        column_names(EvidenceKind::CommitLink)[i] != "id"@,
        column_names(EvidenceKind::CommitLink)[i] != "rowid"@,
{
    reveal_strlit("id");
    reveal_strlit("rowid");
    assert("id"@.len() == 2);
    assert("rowid"@.len() == 5);
    assert("rowid"@[0] == 'r');
    reveal_strlit("source");
    assert("source"@.len() == 6);
    reveal_strlit("session_id");
    assert("session_id"@.len() == 10);
    reveal_strlit("repo");
    assert("repo"@.len() == 4);
    reveal_strlit("branch");
    assert("branch"@.len() == 6);
    reveal_strlit("commit_sha");
    assert("commit_sha"@.len() == 10);
    reveal_strlit("note_ref");
    assert("note_ref"@.len() == 8);
    reveal_strlit("match_method");
    assert("match_method"@.len() == 12);
    reveal_strlit("confidence");
    assert("confidence"@.len() == 10);
    reveal_strlit("files_json");
    assert("files_json"@.len() == 10);
    reveal_strlit("numstat_json");
    assert("numstat_json"@.len() == 12);
    reveal_strlit("evidence_json");
    assert("evidence_json"@.len() == 13);
    reveal_strlit("created_at_ms");
    assert("created_at_ms"@.len() == 13);
}

proof fn lemma_session_marker_has_no_row_number(i: int)
    requires
        0 <= i < column_names(EvidenceKind::SessionMarker).len(),
    ensures
        column_names(EvidenceKind::SessionMarker)[i] != "id"@,
        column_names(EvidenceKind::SessionMarker)[i] != "rowid"@,
{
    reveal_strlit("id");
    reveal_strlit("rowid");
    assert("id"@.len() == 2);
    assert("rowid"@.len() == 5);
    assert("rowid"@[0] == 'r');
    reveal_strlit("source");
    assert("source"@.len() == 6);
    reveal_strlit("session_id");
    assert("session_id"@.len() == 10);
    reveal_strlit("marker_uid");
    assert("marker_uid"@.len() == 10);
    reveal_strlit("ts_ms");
    assert("ts_ms"@.len() == 5);
    assert("ts_ms"@[0] == 't');
    reveal_strlit("message_id");
    assert("message_id"@.len() == 10);
    reveal_strlit("parent_id");
    assert("parent_id"@.len() == 9);
    reveal_strlit("turn_id");
    assert("turn_id"@.len() == 7);
    reveal_strlit("kind");
    assert("kind"@.len() == 4);
    reveal_strlit("subkind");
    assert("subkind"@.len() == 7);
    reveal_strlit("text");
    assert("text"@.len() == 4);
    reveal_strlit("payload_json");
    assert("payload_json"@.len() == 12);
}

/// The columns of a kind, read off its texts: one by one, with none that numbers rows.
pub proof fn lemma_columns(kind: EvidenceKind)
    ensures
        columns_of(kind) == column_names(kind),
        keys_of(kind) == key_names(kind),
        forall|i: int|
            0 <= i < column_names(kind).len() ==> (#[trigger] column_names(kind)[i]) != "id"@
                && column_names(kind)[i] != "rowid"@,
{
    match kind {
        EvidenceKind::History => {
            lemma_history_columns();
            lemma_history_keys();
        },
        EvidenceKind::SessionEvent => {
            lemma_session_event_columns();
            lemma_session_event_keys();
        },
        EvidenceKind::ToolCall => {
            lemma_tool_call_columns();
            lemma_tool_call_keys();
        },
        EvidenceKind::FileEdit => {
            lemma_file_edit_columns();
            lemma_file_edit_keys();
        },
        EvidenceKind::Relationship => {
            lemma_relationship_columns();
            lemma_relationship_keys();
        },
        EvidenceKind::CommitLink => {
            lemma_commit_link_columns();
            lemma_commit_link_keys();
        },
        EvidenceKind::SessionMarker => {
            lemma_session_marker_columns();
            lemma_session_marker_keys();
        },
    }
    assert forall|i: int| 0 <= i < column_names(kind).len() implies (#[trigger] column_names(
        kind,
    )[i]) != "id"@ && column_names(kind)[i] != "rowid"@ by {
        match kind {
            EvidenceKind::History => lemma_history_has_no_row_number(i),
            EvidenceKind::SessionEvent => lemma_session_event_has_no_row_number(i),
            EvidenceKind::ToolCall => lemma_tool_call_has_no_row_number(i),
            EvidenceKind::FileEdit => lemma_file_edit_has_no_row_number(i),
            EvidenceKind::Relationship => lemma_relationship_has_no_row_number(i),
            EvidenceKind::CommitLink => lemma_commit_link_has_no_row_number(i),
            EvidenceKind::SessionMarker => lemma_session_marker_has_no_row_number(i),
        }
    }
}

/// What identifies a record is among its columns.
pub proof fn lemma_keys_are_columns(kind: EvidenceKind, i: int)
    requires
        0 <= i < key_names(kind).len(),
    ensures
        column_names(kind).contains(key_names(kind)[i]),
{
    let columns = column_names(kind);
    match kind {
        EvidenceKind::History => {
            assert(columns[0] == "source"@);
            assert(columns[5] == "timestamp_ms"@);
            assert(columns[3] == "prompt"@);
        },
        EvidenceKind::SessionEvent => {
            assert(columns[0] == "source"@);
            assert(columns[1] == "session_id"@);
            assert(columns[16] == "event_uid"@);
        },
        EvidenceKind::ToolCall => {
            assert(columns[0] == "source"@);
            assert(columns[1] == "session_id"@);
            assert(columns[3] == "tool_use_id"@);
        },
        EvidenceKind::FileEdit => {
            assert(columns[0] == "source"@);
            assert(columns[1] == "session_id"@);
            assert(columns[3] == "tool_use_id"@);
        },
        EvidenceKind::Relationship => {
            assert(columns[0] == "source"@);
            assert(columns[1] == "parent_session_id"@);
            assert(columns[2] == "relationship_uid"@);
        },
        EvidenceKind::CommitLink => {
            assert(columns[0] == "source"@);
            assert(columns[1] == "session_id"@);
            assert(columns[4] == "commit_sha"@);
            assert(columns[6] == "match_method"@);
        },
        EvidenceKind::SessionMarker => {
            assert(columns[0] == "source"@);
            assert(columns[1] == "session_id"@);
            assert(columns[2] == "marker_uid"@);
        },
    }
}

} // verus!
