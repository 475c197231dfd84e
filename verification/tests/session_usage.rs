use ai_hist::attribution::{attribute_usage_to_prompts, request_key};
use ai_hist::session_usage::{
    event_request_key, session_requests, session_requests_page, session_requests_view_is_current,
    session_usage_summary, split_ids, RequestKeySource, UsageDiagnostic,
    SESSION_REQUESTS_VIEW_DDL,
};
use ai_hist::session_store::SourceName;
use ai_hist::store::{SessionEvent, SessionToolCall, SourceNames};
use ai_hist::usage::UsageAccounting;

/// A source by its name, where the first one is called so.
fn source(name: &str) -> SourceName {
    let names = SourceNames {
        claude: "first".to_string(),
    };
    SourceName::new(name, &names)
}

fn blank(id: i64) -> SessionEvent {
    SessionEvent {
        id,
        source: String::new(),
        session_id: String::new(),
        project: None,
        project_key: None,
        cwd: None,
        git_branch: None,
        message_id: None,
        parent_id: None,
        ts_ms: 0,
        role: String::new(),
        kind: String::new(),
        text: Some("x".to_string()),
        model: None,
        token_json: None,
        provider: None,
        event_uid: String::new(),
        tool_use_id: None,
        payload_bytes: None,
        payload_truncated: None,
        payload_hash: None,
        call_index: None,
        event_index: None,
        result_status: None,
        event_source: None,
        error_signal: None,
        subagent_session_id: None,
        agent_id: None,
        request_id: None,
        provider_message_id: None,
        stop_reason: None,
        agent_version: None,
        is_sidechain: None,
        is_meta: None,
        turn_id: None,
        request_span: None,
        raw_kind: None,
        control_kind: None,
    }
}

/// Stores one event. The provider's own message id is shared by every record of one
/// request.
#[allow(clippy::too_many_arguments)]
fn event(
    events: &mut Vec<SessionEvent>,
    source: &str,
    session_id: &str,
    message_id: &str,
    ts_ms: i64,
    role: &str,
    kind: &str,
    model: Option<&str>,
    token_json: Option<&str>,
    uid: &str,
) {
    let mut row = blank(events.len() as i64 + 1);
    row.source = source.to_string();
    row.session_id = session_id.to_string();
    row.message_id = Some(message_id.to_string());
    row.provider_message_id = Some(message_id.to_string());
    row.ts_ms = ts_ms;
    row.role = role.to_string();
    row.kind = kind.to_string();
    row.model = model.map(str::to_string);
    row.token_json = token_json.map(str::to_string);
    row.event_uid = uid.to_string();
    events.push(row);
}

fn tool_call(id: i64, message_id: &str, tool_use_id: &str, ts_ms: i64) -> SessionToolCall {
    SessionToolCall {
        id,
        source: "first".to_string(),
        session_id: "s1".to_string(),
        message_id: Some(message_id.to_string()),
        tool_use_id: tool_use_id.to_string(),
        name: "Bash".to_string(),
        target: None,
        args_json: None,
        is_error: None,
        ts_ms: Some(ts_ms),
    }
}

const CLAUDE_USAGE: &str = r#"{"input_tokens":3,"cache_creation_input_tokens":4773,"cache_read_input_tokens":11496,"cache_creation":{"ephemeral_5m_input_tokens":0,"ephemeral_1h_input_tokens":4773},"output_tokens":43}"#;

/// Four content blocks of one message, each with its own copy of the usage.
fn multi_block_turn(events: &mut Vec<SessionEvent>) {
    for (index, kind) in ["thinking", "text", "tool_use", "tool_use"]
        .into_iter()
        .enumerate()
    {
        event(
            events,
            "first",
            "s1",
            "msg_multi_1",
            1_000,
            "assistant",
            kind,
            Some("opus-4-7"),
            Some(CLAUDE_USAGE),
            &format!("msg_multi_1:{index}"),
        );
    }
}

#[test]
fn one_claude_message_is_one_request_however_many_blocks_it_has() {
    let mut events = Vec::new();
    multi_block_turn(&mut events);
    let page = session_requests_page(&events, &[], &source("first"), "s1", 50, None);
    assert_eq!(page.requests.len(), 1);
    let request = &page.requests[0];
    assert_eq!(request.request_key, "msg_multi_1");
    assert_eq!(
        request.request_key_source,
        RequestKeySource::ProviderMessageId
    );
    assert_eq!(request.event_count, 4);
    assert!(request.has_thinking);
    let usage = request.usage.as_ref().unwrap();
    assert_eq!(usage.input_tokens, 3);
    assert_eq!(usage.output_tokens, 43);
    assert_eq!(usage.cache_write_1h_tokens, Some(4773));
}

#[test]
fn the_summary_counts_a_multi_block_request_exactly_once() {
    let mut events = Vec::new();
    multi_block_turn(&mut events);
    let summary = session_usage_summary(&events, &source("first"), "s1").unwrap();
    assert_eq!(summary.request_count, 1);
    let usage = summary.usage.as_ref().unwrap();
    assert_eq!(usage.input_tokens, 3);
    assert_eq!(usage.output_tokens, 43);
    assert_eq!(usage.cache_read_tokens, 11496);
    assert_eq!(usage.cache_write_tokens, 4773);
    assert_eq!(usage.cache_write_1h_tokens, Some(4773));
    assert_eq!(summary.accounting, vec![UsageAccounting::PerMessage]);
    assert_eq!(summary.models, vec!["opus-4-7".to_string()]);
    let raw_row_sum = events
        .iter()
        .filter(|row| row.token_json.as_deref() == Some(CLAUDE_USAGE))
        .count()
        * 43;
    assert_eq!(
        raw_row_sum, 172,
        "the per-block copies really are duplicated"
    );
}

#[test]
fn disagreeing_usage_copies_are_refused_with_a_diagnostic() {
    let mut events = Vec::new();
    event(
        &mut events,
        "first",
        "s1",
        "m1",
        1,
        "assistant",
        "text",
        None,
        Some(r#"{"input_tokens":10}"#),
        "m1:0",
    );
    event(
        &mut events,
        "first",
        "s1",
        "m1",
        1,
        "assistant",
        "thinking",
        None,
        Some(r#"{"input_tokens":99}"#),
        "m1:1",
    );
    let page = session_requests_page(&events, &[], &source("first"), "s1", 50, None);
    assert!(page.requests[0].usage.is_none());
    assert_eq!(
        page.requests[0].diagnostics,
        vec![UsageDiagnostic::AmbiguousUsageCopies]
    );
    // The evidence is unusable, not absent.
    let summary = session_usage_summary(&events, &source("first"), "s1").unwrap();
    assert!(summary.usage.is_none());
    assert_eq!(summary.total_request_count, 1);
    assert_eq!(summary.request_count, 0);
    assert_eq!(
        summary.diagnostics,
        vec![UsageDiagnostic::AmbiguousUsageCopies]
    );
}

#[test]
fn a_session_with_no_requests_at_all_has_no_summary() {
    let events: Vec<SessionEvent> = Vec::new();
    assert!(session_usage_summary(&events, &source("first"), "absent").is_none());
}

#[test]
fn an_unnormalizable_blob_reports_its_error_code() {
    let mut events = Vec::new();
    event(
        &mut events,
        "first",
        "s1",
        "m1",
        1,
        "assistant",
        "text",
        None,
        Some(r#"{"input_tokens":-4}"#),
        "m1:0",
    );
    let page = session_requests_page(&events, &[], &source("first"), "s1", 50, None);
    assert_eq!(
        page.requests[0].usage_error.as_deref(),
        Some("USAGE_NON_INTEGER_COUNTER")
    );
    assert_eq!(
        page.requests[0].diagnostics,
        vec![UsageDiagnostic::UnnormalizableUsage]
    );
}

#[test]
fn session_usage_missing_output_tokens_reports_zero_with_a_coverage_note() {
    let mut events = Vec::new();
    event(
        &mut events,
        "first",
        "s1",
        "msg_partial_1",
        1,
        "assistant",
        "text",
        Some("sonnet-4-6"),
        Some(r#"{"input_tokens":10}"#),
        "msg_partial_1:0",
    );
    let summary = session_usage_summary(&events, &source("first"), "s1").unwrap();
    let usage = summary.usage.as_ref().unwrap();
    assert_eq!(usage.output_tokens, 0);
    assert!(usage.coverage.has_input_tokens);
    assert!(!usage.coverage.has_output_tokens);
    assert!(!usage.coverage.is_complete());
}

#[test]
fn a_session_with_no_usage_evidence_reports_a_request_and_no_totals() {
    let mut events = Vec::new();
    event(
        &mut events,
        "first",
        "s1",
        "m1",
        1,
        "assistant",
        "text",
        None,
        None,
        "m1:0",
    );
    let summary = session_usage_summary(&events, &source("first"), "s1").unwrap();
    assert!(summary.usage.is_none());
    assert_eq!(summary.total_request_count, 1);
    assert!(summary.diagnostics.is_empty());
    let page = session_requests_page(&events, &[], &source("first"), "s1", 50, None);
    assert_eq!(page.requests.len(), 1, "the request is still a request");
    assert!(page.requests[0].usage.is_none());
}

#[test]
fn user_turns_are_not_requests() {
    let mut events = Vec::new();
    event(
        &mut events,
        "first",
        "s1",
        "u1",
        1,
        "user",
        "text",
        None,
        None,
        "u1:0",
    );
    let page = session_requests_page(&events, &[], &source("first"), "s1", 50, None);
    assert!(page.requests.is_empty());
}

#[test]
fn a_page_never_interleaves_two_sources_or_sessions() {
    let mut events = Vec::new();
    event(
        &mut events,
        "first",
        "s1",
        "m1",
        1,
        "assistant",
        "text",
        None,
        Some(r#"{"input_tokens":1}"#),
        "m1:0",
    );
    event(
        &mut events,
        "codex",
        "s1",
        "m2",
        2,
        "assistant",
        "text",
        None,
        Some(r#"{"input_tokens":7}"#),
        "m2:0",
    );
    event(
        &mut events,
        "first",
        "s2",
        "m3",
        3,
        "assistant",
        "text",
        None,
        Some(r#"{"input_tokens":5}"#),
        "m3:0",
    );
    let page = session_requests_page(&events, &[], &source("first"), "s1", 50, None);
    assert_eq!(page.requests.len(), 1);
    assert_eq!(page.requests[0].request_key, "m1");
}

#[test]
fn paging_walks_every_request_once_even_on_a_shared_timestamp() {
    let mut events = Vec::new();
    for index in 0..7 {
        event(
            &mut events,
            "first",
            "s1",
            &format!("m{index}"),
            1_000,
            "assistant",
            "text",
            None,
            Some(r#"{"input_tokens":1,"output_tokens":1}"#),
            &format!("m{index}:0"),
        );
    }
    let mut seen = Vec::new();
    let mut cursor = None;
    for _ in 0..20 {
        let page = session_requests_page(&events, &[], &source("first"), "s1", 2, cursor);
        assert!(page.requests.len() <= 2);
        seen.extend(page.requests.iter().map(|r| r.request_key.clone()));
        match page.next_cursor {
            Some(next) => cursor = Some(next),
            None => break,
        }
    }
    seen.sort();
    let mut expected: Vec<String> = (0..7).map(|index| format!("m{index}")).collect();
    expected.sort();
    assert_eq!(seen, expected);
    let summary = session_usage_summary(&events, &source("first"), "s1").unwrap();
    assert_eq!(summary.request_count, 7);
    assert_eq!(summary.usage.as_ref().unwrap().output_tokens, 7);
}

#[test]
fn codex_per_request_deltas_sum_to_the_final_cumulative_total() {
    let mut events = Vec::new();
    event(
        &mut events,
        "codex",
        "s1",
        "1:agent_message",
        1_000,
        "assistant",
        "text",
        Some("gpt-5.4"),
        Some(
            r#"{"input_tokens":3000,"cached_input_tokens":1000,"cache_write_input_tokens":0,"output_tokens":200,"reasoning_output_tokens":50,"total_tokens":3200}"#,
        ),
        "1:agent_message",
    );
    event(
        &mut events,
        "codex",
        "s1",
        "2:agent_message",
        2_000,
        "assistant",
        "text",
        Some("gpt-5.4"),
        Some(
            r#"{"input_tokens":3500,"cached_input_tokens":500,"cache_write_input_tokens":0,"output_tokens":250,"reasoning_output_tokens":40,"total_tokens":3750}"#,
        ),
        "2:agent_message",
    );
    let summary = session_usage_summary(&events, &source("codex"), "s1").unwrap();
    assert_eq!(summary.request_count, 2);
    let usage = summary.usage.as_ref().unwrap();
    // The cumulative endpoint is input 6500 / cached 1500 / output 450 /
    // reasoning 90 / total 6950.
    assert_eq!(usage.input_tokens + usage.cache_read_tokens, 6500);
    assert_eq!(usage.cache_read_tokens, 1500);
    assert_eq!(usage.output_tokens, 450);
    assert_eq!(usage.reasoning_tokens, Some(90));
    assert_eq!(usage.provider_total_tokens, Some(6950));
    assert_eq!(summary.accounting, vec![UsageAccounting::CumulativeDelta]);
}

#[test]
fn tool_use_ids_ride_along_with_their_request() {
    let mut events = Vec::new();
    multi_block_turn(&mut events);
    let calls = vec![
        tool_call(1, "msg_multi_1", "toolu_bash_1", 1_000),
        tool_call(2, "msg_multi_1", "toolu_agent_1", 1_001),
        tool_call(3, "other_msg", "toolu_other", 9),
    ];
    let page = session_requests_page(&events, &calls, &source("first"), "s1", 50, None);
    assert_eq!(
        page.requests[0].tool_use_ids,
        vec!["toolu_bash_1".to_string(), "toolu_agent_1".to_string()]
    );
}

#[test]
fn records_with_no_captured_identity_are_flagged_and_not_summed() {
    let mut events = Vec::new();
    for (index, kind) in ["text", "tool_use", "tool_use"].into_iter().enumerate() {
        event(
            &mut events,
            "first",
            "s1",
            &format!("record-{index}"),
            1_000,
            "assistant",
            kind,
            Some("opus-4-7"),
            Some(CLAUDE_USAGE),
            &format!("record-{index}:0"),
        );
    }
    for row in &mut events {
        row.provider_message_id = None;
    }

    let page = session_requests_page(&events, &[], &source("first"), "s1", 50, None);
    assert_eq!(page.requests.len(), 3, "one row per record, as stored");
    for request in &page.requests {
        assert_eq!(request.request_key_source, RequestKeySource::RecordId);
        assert_eq!(
            request.diagnostics,
            vec![UsageDiagnostic::UnresolvedRequestIdentity]
        );
        // The row still reports what its own record said.
        assert_eq!(request.usage.as_ref().unwrap().output_tokens, 43);
    }

    let summary = session_usage_summary(&events, &source("first"), "s1").unwrap();
    assert_eq!(summary.total_request_count, 3);
    assert!(
        summary.usage.is_none(),
        "3 x 43 output tokens is not this session's total"
    );
    assert!(summary
        .diagnostics
        .contains(&UsageDiagnostic::UnresolvedRequestIdentity));
    assert_eq!(summary.models, vec!["opus-4-7".to_string()]);
}

#[test]
fn codex_record_keys_are_request_keys_and_are_not_flagged() {
    let mut events = Vec::new();
    for index in 1..3 {
        event(
            &mut events,
            "codex",
            "sess_codex_compact",
            &format!("{index}:agent_message"),
            index * 1_000,
            "assistant",
            "text",
            None,
            Some(r#"{"input_tokens":3000,"output_tokens":200}"#),
            &format!("{index}:agent_message"),
        );
    }
    for row in &mut events {
        row.provider_message_id = None;
    }
    let page = session_requests_page(&events, &[], &source("codex"), "sess_codex_compact", 50, None);
    assert_eq!(page.requests.len(), 2);
    for request in &page.requests {
        assert_eq!(request.request_key_source, RequestKeySource::RecordId);
        assert!(request.diagnostics.is_empty());
    }
}

#[test]
fn a_regressed_codex_counter_is_a_diagnostic_not_a_negative_delta() {
    let mut events = Vec::new();
    for (index, tokens) in [
        r#"{"input_tokens":3000,"cached_input_tokens":1000,"output_tokens":200}"#,
        r#"{"input_tokens":10,"cached_input_tokens":900,"output_tokens":5}"#,
    ]
    .into_iter()
    .enumerate()
    {
        event(
            &mut events,
            "codex",
            "sess_codex_regressed",
            &format!("{index}:agent_message"),
            1_000 + index as i64,
            "assistant",
            "text",
            None,
            Some(tokens),
            &format!("{index}:agent_message"),
        );
    }
    let page = session_requests_page(&events, &[], &source("codex"), "sess_codex_regressed", 50, None);
    assert_eq!(page.requests.len(), 2);
    let regressed = page
        .requests
        .iter()
        .find(|request| request.usage.is_none())
        .expect("the second delta cannot be normalized");
    assert_eq!(
        regressed.usage_error.as_deref(),
        Some("USAGE_COUNTER_REGRESSED")
    );
    assert_eq!(
        regressed.diagnostics,
        vec![UsageDiagnostic::UnnormalizableUsage]
    );

    let summary = session_usage_summary(&events, &source("codex"), "sess_codex_regressed").unwrap();
    assert_eq!(summary.request_count, 1);
    assert_eq!(summary.total_request_count, 2);
    assert_eq!(summary.usage.as_ref().unwrap().input_tokens, 2000);
    assert_eq!(
        summary.diagnostics,
        vec![UsageDiagnostic::UnnormalizableUsage]
    );
}

/// A prompt and the records of one request that answer it.
fn turn(prompt: &str, records: &[(&str, &str, &str)]) -> Vec<SessionEvent> {
    let mut events = Vec::new();
    event(
        &mut events,
        "first",
        "s1",
        "u1",
        1,
        "user",
        "text",
        None,
        None,
        "u1:0",
    );
    events[0].provider_message_id = None;
    events[0].text = Some(prompt.to_string());
    for (index, (id, parent, tokens)) in records.iter().enumerate() {
        event(
            &mut events,
            "first",
            "s1",
            id,
            2 + index as i64,
            "assistant",
            "text",
            None,
            Some(tokens),
            &format!("{id}:0"),
        );
        let at = events.len() - 1;
        events[at].parent_id = Some(parent.to_string());
        events[at].request_id = Some("req_1".to_string());
    }
    events
}

#[test]
fn prompt_attribution_refuses_a_response_whose_ancestry_is_broken() {
    let events = turn(
        "hello",
        &[
            ("a2", "a1", CLAUDE_USAGE),
            ("a3", "a2", CLAUDE_USAGE),
            ("a4", "a3", CLAUDE_USAGE),
        ],
    );
    assert!(attribute_usage_to_prompts(&events, &source("first")).is_empty());
}

#[test]
fn prompt_attribution_charges_an_intact_turn_to_its_prompt() {
    let events = turn("hello", &[("a1", "u1", r#"{"input_tokens":10}"#)]);
    let attributed = attribute_usage_to_prompts(&events, &source("first"));
    assert_eq!(attributed.len(), 1);
    let ((_, prompt), usage) = &attributed[0];
    assert_eq!(prompt, "hello");
    assert_eq!(usage.input_tokens, 10);
    assert_eq!(usage.output_tokens, 0);
    assert!(!usage.coverage.has_output_tokens);
}

const SEVEN_AND_FORTY: &str = r#"{"input_tokens":7,"output_tokens":40}"#;

#[test]
fn a_request_split_across_records_is_charged_to_its_prompt_once() {
    let events = turn(
        "count once",
        &[
            ("a1", "u1", SEVEN_AND_FORTY),
            ("a2", "a1", SEVEN_AND_FORTY),
        ],
    );
    assert_eq!(
        events.iter().filter(|row| row.token_json.is_some()).count(),
        2
    );
    let attributed = attribute_usage_to_prompts(&events, &source("first"));
    assert_eq!(attributed.len(), 1);
    let ((_, prompt), usage) = &attributed[0];
    assert_eq!(prompt, "count once");
    assert_eq!(
        (usage.input_tokens, usage.output_tokens),
        (7, 40),
        "one request's usage, not one copy per record"
    );
    let summary = session_usage_summary(&events, &source("first"), "s1").unwrap();
    assert_eq!(summary.request_count, 1);
    let totals = summary.usage.as_ref().expect("one readable request");
    assert_eq!((totals.input_tokens, totals.output_tokens), (7, 40));
}

#[test]
fn a_request_with_one_unreadable_copy_charges_nothing() {
    let events = turn(
        "in dispute",
        &[
            ("a1", "u1", SEVEN_AND_FORTY),
            ("a2", "a1", r#"{"input_tokens":7,"output_tokens":-40}"#),
        ],
    );
    assert!(
        attribute_usage_to_prompts(&events, &source("first")).is_empty(),
        "the copies disagree, so nothing is established"
    );
}

#[test]
fn a_broken_sibling_does_not_cancel_a_request_its_siblings_establish() {
    let events = turn(
        "one link missing",
        &[
            ("a1", "u1", SEVEN_AND_FORTY),
            ("a3", "a2", SEVEN_AND_FORTY),
        ],
    );
    let attributed = attribute_usage_to_prompts(&events, &source("first"));
    assert_eq!(attributed.len(), 1);
    let ((_, prompt), usage) = &attributed[0];
    assert_eq!(prompt, "one link missing");
    assert_eq!(
        (usage.input_tokens, usage.output_tokens),
        (7, 40),
        "once, from the record that does establish it"
    );
}

#[test]
fn a_large_counter_is_still_usage() {
    let mut events = Vec::new();
    event(
        &mut events,
        "codex",
        "sess_codex_huge",
        "m1",
        1,
        "assistant",
        "text",
        None,
        Some(r#"{"input_tokens":9223372036854775808}"#),
        "m1:0",
    );
    let summary = session_usage_summary(&events, &source("codex"), "sess_codex_huge").unwrap();
    let usage = summary.usage.as_ref().unwrap();
    assert_eq!(usage.input_tokens, 9_223_372_036_854_775_808);
    assert!(summary.diagnostics.is_empty());
}

#[test]
fn an_overflowing_total_is_withheld() {
    let mut events = Vec::new();
    for index in 0..2 {
        event(
            &mut events,
            "first",
            "s1",
            &format!("m{index}"),
            index,
            "assistant",
            "text",
            None,
            Some(r#"{"input_tokens":18446744073709551615}"#),
            &format!("m{index}:0"),
        );
    }
    let summary = session_usage_summary(&events, &source("first"), "s1").unwrap();
    assert!(summary.overflowed);
    assert!(summary.usage.is_none());
}

#[test]
fn costs_that_add_up_to_nothing_finite_overflow_the_session() {
    let mut events = Vec::new();
    for index in 0..2 {
        event(
            &mut events,
            "first",
            "s1",
            &format!("m{index}"),
            index,
            "assistant",
            "text",
            None,
            Some(r#"{"input_tokens":1,"cost_usd":1.5e308}"#),
            &format!("m{index}:0"),
        );
    }
    let summary = session_usage_summary(&events, &source("first"), "s1").unwrap();
    assert!(summary.overflowed);
    assert!(summary.usage.is_none());
}

#[test]
fn rows_that_name_two_models_are_flagged() {
    let mut events = Vec::new();
    for (index, model) in ["beta", "alpha"].into_iter().enumerate() {
        event(
            &mut events,
            "first",
            "s1",
            "m1",
            index as i64,
            "assistant",
            "text",
            Some(model),
            Some(r#"{"input_tokens":1}"#),
            &format!("m1:{index}"),
        );
    }
    let page = session_requests_page(&events, &[], &source("first"), "s1", 50, None);
    assert_eq!(page.requests[0].model.as_deref(), Some("alpha"));
    assert_eq!(
        page.requests[0].diagnostics,
        vec![UsageDiagnostic::AmbiguousModel]
    );
}

#[test]
fn a_summary_says_which_parts_only_some_requests_reported() {
    let mut events = Vec::new();
    for (index, tokens) in [
        r#"{"input_tokens":1,"cost_usd":0.5,"cache_creation":{"ephemeral_5m_input_tokens":4}}"#,
        r#"{"input_tokens":1,"cache_creation_input_tokens":3}"#,
    ]
    .into_iter()
    .enumerate()
    {
        event(
            &mut events,
            "first",
            "s1",
            &format!("m{index}"),
            index as i64,
            "assistant",
            "text",
            None,
            Some(tokens),
            &format!("m{index}:0"),
        );
    }
    let summary = session_usage_summary(&events, &source("first"), "s1").unwrap();
    assert_eq!(
        summary.diagnostics,
        vec![
            UsageDiagnostic::PartialCacheWriteSplit,
            UsageDiagnostic::PartialReportedCost
        ]
    );
    let usage = summary.usage.unwrap();
    assert_eq!(usage.cache_write_tokens, 7);
    assert_eq!(usage.cache_write_5m_tokens, None);
    assert_eq!(usage.reported_cost_usd, None);
}

#[test]
fn request_keys_prefer_what_the_provider_recorded() {
    let mut row = blank(1);
    row.message_id = Some("m".to_string());
    row.provider_message_id = Some("p".to_string());
    row.request_id = Some(String::new());
    assert_eq!(
        event_request_key(&row),
        ("p".to_string(), RequestKeySource::ProviderMessageId)
    );
    assert_eq!(request_key(&row), "provider-message-id:p");
    row.request_id = Some(" r ".to_string());
    assert_eq!(
        event_request_key(&row),
        (" r ".to_string(), RequestKeySource::RequestId)
    );
    assert_eq!(request_key(&row), "request-id: r ");
    row.request_id = None;
    row.provider_message_id = None;
    assert_eq!(
        event_request_key(&row),
        ("m".to_string(), RequestKeySource::RecordId)
    );
    assert_eq!(request_key(&row), "record-id:m");
    row.request_span = Some("3".to_string());
    assert_eq!(request_key(&row), "request-span:3");
}

#[test]
fn key_sources_round_trip() {
    for source in [
        RequestKeySource::RequestId,
        RequestKeySource::ProviderMessageId,
        RequestKeySource::RecordId,
    ] {
        assert_eq!(RequestKeySource::parse(source.as_str()), Some(source));
    }
    assert_eq!(RequestKeySource::parse("turn"), None);
    assert!(!RequestKeySource::RecordId.is_request_identity());
}

#[test]
fn joined_ids_are_split_and_blanks_dropped() {
    assert_eq!(split_ids("a,,b"), vec!["a".to_string(), "b".to_string()]);
    assert!(split_ids("").is_empty());
}

#[test]
fn a_request_gathers_its_records() {
    let mut events = Vec::new();
    multi_block_turn(&mut events);
    events[2].message_id = Some("other".to_string());
    events[2].ts_ms = 5_000;
    let raws = session_requests(&events, &source("first"), "s1");
    assert_eq!(raws.len(), 1);
    assert_eq!(raws[0].id, 1);
    assert_eq!(raws[0].first_ts_ms, 1_000);
    assert_eq!(raws[0].last_ts_ms, 5_000);
    assert_eq!(
        raws[0].message_ids,
        vec!["msg_multi_1".to_string(), "other".to_string()]
    );
}

#[test]
fn another_view_is_not_the_current_one() {
    assert!(session_requests_view_is_current(Some(
        SESSION_REQUESTS_VIEW_DDL
    )));
    assert!(!session_requests_view_is_current(Some(
        "CREATE VIEW session_requests AS SELECT 1"
    )));
    assert!(!session_requests_view_is_current(None));
}

/// Three stored records of one request, each with its own copy of the usage.
fn recorded_turn(request_id: Option<&str>, provider_message_id: Option<&str>) -> Vec<SessionEvent> {
    let mut events = Vec::new();
    for (index, kind) in ["text", "tool_use", "tool_use"].into_iter().enumerate() {
        event(
            &mut events,
            "first",
            "s1",
            &format!("rec_{index}"),
            1_000 + index as i64,
            "assistant",
            kind,
            Some("opus-4-7"),
            Some(CLAUDE_USAGE),
            &format!("rec_{index}:0"),
        );
    }
    for row in &mut events {
        row.request_id = request_id.map(str::to_string);
        row.provider_message_id = provider_message_id.map(str::to_string);
    }
    events
}

/// Two requests whose ids differ in white space alone.
fn padded_turns() -> Vec<SessionEvent> {
    let mut events = Vec::new();
    for (index, id) in ["req_pad", " req_pad "].into_iter().enumerate() {
        event(
            &mut events,
            "first",
            "s1",
            &format!("rec_{index}"),
            index as i64,
            "assistant",
            "text",
            Some("opus-4-7"),
            Some(r#"{"input_tokens":1,"output_tokens":7}"#),
            &format!("rec_{index}:0"),
        );
        events[index].request_id = Some(id.to_string());
    }
    events
}

/// The key of a request, with the field that it comes from in front.
fn qualified(key_source: RequestKeySource, key: &str) -> String {
    format!("{}:{}", key_source.as_str(), key)
}

#[test]
fn a_multi_block_turn_is_one_request_per_request_id() {
    let events = recorded_turn(Some("req_1"), Some("msg_multi_1"));
    let with_usage = events
        .iter()
        .filter(|row| row.role == "assistant" && row.token_json.is_some())
        .count();
    assert_eq!(with_usage, 3, "every record has a copy of one request's usage");
    assert_eq!(with_usage * 43, 129, "summing rows would triple the request");

    let calls = vec![
        tool_call(1, "rec_1", "toolu_bash_1", 1_001),
        tool_call(2, "rec_2", "toolu_agent_1", 1_002),
    ];
    let page = session_requests_page(&events, &calls, &source("first"), "s1", 50, None);
    assert_eq!(page.requests.len(), 1);
    let request = &page.requests[0];
    assert_eq!(
        qualified(request.request_key_source, &request.request_key),
        "request-id:req_1"
    );
    assert_eq!(request.request_key_source, RequestKeySource::RequestId);
    assert_eq!(request.model.as_deref(), Some("opus-4-7"));
    assert_eq!(request.message_ids.len(), 3);
    assert_eq!(request.event_count, 3);
    assert!(request.diagnostics.is_empty());
    assert_eq!(
        request.tool_use_ids,
        vec!["toolu_bash_1".to_string(), "toolu_agent_1".to_string()]
    );

    let summary = session_usage_summary(&events, &source("first"), "s1").unwrap();
    assert_eq!(summary.request_count, 1);
    let usage = summary.usage.as_ref().unwrap();
    assert_eq!(usage.input_tokens, 3);
    assert_eq!(usage.output_tokens, 43);
    assert_eq!(usage.cache_read_tokens, 11496);
    assert_eq!(usage.cache_write_tokens, 4773);
    assert_eq!(usage.cache_write_5m_tokens, Some(0));
    assert_eq!(usage.cache_write_1h_tokens, Some(4773));
    assert_eq!(summary.accounting, vec![UsageAccounting::PerMessage]);
    assert!(usage.coverage.is_complete());
    assert!(summary.diagnostics.is_empty());
    assert!(!summary.overflowed);
}

#[test]
fn request_ids_differing_only_in_whitespace_stay_distinct() {
    let events = padded_turns();
    let page = session_requests_page(&events, &[], &source("first"), "s1", 50, None);
    let mut keys: Vec<String> = page
        .requests
        .iter()
        .map(|request| qualified(request.request_key_source, &request.request_key))
        .collect();
    keys.sort_unstable();
    assert_eq!(
        keys,
        vec![
            "request-id: req_pad ".to_string(),
            "request-id:req_pad".to_string()
        ],
        "the keys stay distinct, padding and all"
    );
    assert!(page
        .requests
        .iter()
        .all(|request| request.request_key_source == RequestKeySource::RequestId));
    for request in &page.requests {
        assert_eq!(request.usage.as_ref().unwrap().output_tokens, 7);
    }
    let summary = session_usage_summary(&events, &source("first"), "s1").unwrap();
    assert_eq!(summary.request_count, 2);
    assert_eq!(summary.usage.as_ref().unwrap().output_tokens, 14);
}

#[test]
fn a_turn_without_a_request_id_groups_on_the_provider_message_id() {
    let events = recorded_turn(None, Some("msg_multi_1"));
    let page = session_requests_page(&events, &[], &source("first"), "s1", 50, None);
    assert_eq!(page.requests.len(), 1);
    assert_eq!(
        qualified(
            page.requests[0].request_key_source,
            &page.requests[0].request_key
        ),
        "provider-message-id:msg_multi_1"
    );
    assert_eq!(
        page.requests[0].request_key_source,
        RequestKeySource::ProviderMessageId
    );
    assert!(page.requests[0].diagnostics.is_empty());
    let summary = session_usage_summary(&events, &source("first"), "s1").unwrap();
    assert_eq!(summary.usage.as_ref().unwrap().output_tokens, 43);
}

#[test]
fn the_rust_request_key_agrees_with_the_view() {
    for events in [
        recorded_turn(Some("req_1"), None),
        recorded_turn(Some("req_1"), Some("msg_multi_1")),
        recorded_turn(None, Some("msg_multi_1")),
        padded_turns(),
    ] {
        let mut from_rust: Vec<String> = events
            .iter()
            .filter(|event| event.role == "assistant")
            .map(request_key)
            .collect();
        from_rust.sort();
        from_rust.dedup();
        let mut from_view: Vec<String> =
            session_requests_page(&events, &[], &source("first"), "s1", 100, None)
                .requests
                .into_iter()
                .map(|request| qualified(request.request_key_source, &request.request_key))
                .collect();
        from_view.sort();
        assert_eq!(from_rust, from_view);
    }
}

#[test]
fn one_text_in_two_fields_is_one_request_of_a_session() {
    let mut events = padded_turns();
    events[0].request_id = Some("x".to_string());
    events[1].request_id = None;
    events[1].provider_message_id = Some("x".to_string());
    let page = session_requests_page(&events, &[], &source("first"), "s1", 50, None);
    assert_eq!(page.requests.len(), 1);
    assert_eq!(page.requests[0].request_key, "x");
    assert_eq!(page.requests[0].event_count, 2);
    assert_eq!(request_key(&events[0]), "request-id:x");
    assert_eq!(request_key(&events[1]), "provider-message-id:x");
}
