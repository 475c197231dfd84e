use ai_hist::digest::prompt_hash;
use ai_hist::fts::{build_fts_query, is_fts5_syntax_error, quote_fts_term, raw_fts_query_error};
use ai_hist::pages::{session_events_page, session_file_edits_page, session_tool_calls_page};
use ai_hist::prompts::{opencode_prompt, parse_claude, parse_codex, parse_cursor_text};
use ai_hist::store::{
    busy_retry_backoff_ms, busy_retry_delay_ms, default_db_path, history_presence,
    journal_mode_retry, known_source, merge_presence, normalize_tag_name, resume_command,
    shell_quote, tag_names, DatabaseVariables, HistoryEntry, SessionEvent, SessionEvidenceCursor,
    SessionFileEdit, SessionLocation, SessionPresence, SessionScope, SessionToolCall, SourceNames,
    BUSY_RETRY_ATTEMPTS, BUSY_RETRY_JITTER_DIVISOR,
};

fn names() -> SourceNames {
    SourceNames {
        claude: "first".to_string(),
    }
}

#[test]
fn busy_retry_sequence_is_bounded() {
    let minimum_ms: u64 = (0..BUSY_RETRY_ATTEMPTS)
        .map(|attempt| busy_retry_backoff_ms(attempt).unwrap())
        .sum();
    assert!(
        (30_000..31_000).contains(&minimum_ms),
        "minimum retry grace changed unexpectedly: {minimum_ms}ms"
    );
    let maximum_ms: u64 = (0..BUSY_RETRY_ATTEMPTS)
        .map(|attempt| {
            let backoff = busy_retry_backoff_ms(attempt).unwrap();
            backoff + backoff / BUSY_RETRY_JITTER_DIVISOR
        })
        .sum();
    assert!(
        (33_000..34_000).contains(&maximum_ms),
        "maximum retry grace changed unexpectedly: {maximum_ms}ms"
    );
    assert!(busy_retry_backoff_ms(BUSY_RETRY_ATTEMPTS).is_none());
    assert!(busy_retry_delay_ms(BUSY_RETRY_ATTEMPTS, 1, 1).is_none());
    assert!(busy_retry_delay_ms(BUSY_RETRY_ATTEMPTS + 1, 1, 1).is_none());
}

#[test]
fn the_first_waits_double_up_to_a_cap() {
    let waits: Vec<u64> = (0..8)
        .map(|attempt| busy_retry_backoff_ms(attempt).unwrap())
        .collect();
    assert_eq!(waits, vec![10, 20, 40, 80, 160, 320, 500, 500]);
    assert_eq!(busy_retry_backoff_ms(-1), None);
    // The seed is 3 ^ 4 ^ 0 = 7, and the jitter of a wait of 10 is at most 1.
    assert_eq!(busy_retry_delay_ms(0, 3, 4), Some(11));
}

#[test]
fn a_journal_mode_is_retried_on_a_lock_only() {
    assert_eq!(journal_mode_retry(0, true), Some(10));
    assert_eq!(journal_mode_retry(0, false), None);
    assert_eq!(journal_mode_retry(20, true), None);
}

#[test]
fn parses_claude_and_codex() {
    assert_eq!(
        parse_claude(
            r#"{"display":" hello ","timestamp":7,"project":"/p","sessionId":"s"}"#,
            &names()
        )
        .unwrap()
        .unwrap()
        .prompt,
        "hello"
    );
    assert_eq!(
        parse_codex(r#"{"text":"fix","ts":2,"session_id":"c"}"#)
            .unwrap()
            .unwrap()
            .timestamp_ms,
        2000
    );
}

#[test]
fn a_parsed_prompt_carries_its_source_and_its_hash() {
    let entry = parse_claude(
        r#"{"display":" hello ","timestamp":7,"project":"/p","sessionId":"s"}"#,
        &names(),
    )
    .unwrap()
    .unwrap();
    assert_eq!(entry.source, "first");
    assert_eq!(entry.timestamp_ms, 7);
    assert_eq!(entry.prompt_hash.as_deref(), Some("2cf24dba5fb0a30e"));
    assert_eq!(prompt_hash("hello"), "2cf24dba5fb0a30e");
    assert!(parse_claude(r#"{"display":"  "}"#, &names()).unwrap().is_none());
    assert!(parse_claude("not json", &names()).is_err());
}

#[test]
fn codex_times_are_seconds_with_fractions() {
    let at = |ts: &str| {
        parse_codex(&format!(r#"{{"text":"x","ts":{ts}}}"#))
            .unwrap()
            .unwrap()
            .timestamp_ms
    };
    for (text, value) in [
        ("1.5", 1.5_f64),
        ("-2.25", -2.25),
        ("1700000000.123", 1700000000.123),
        ("0.0009", 0.0009),
        ("1e300", 1e300),
        ("-1e300", -1e300),
        ("0", 0.0),
    ] {
        assert_eq!(at(text), (value * 1000.0) as i64, "{text}");
    }
}

#[test]
fn opencode_parts_of_text_are_prompts() {
    let entry = opencode_prompt(
        "oc-wal",
        Some("/tmp/opencode".to_string()),
        r#"{"type":"text","text":"wal opencode prompt"}"#,
        1700000002000,
    )
    .unwrap();
    assert_eq!(entry.source, "opencode");
    assert_eq!(entry.prompt, "wal opencode prompt");
    assert_eq!(entry.session_id.as_deref(), Some("oc-wal"));
    assert!(opencode_prompt("s", None, r#"{"type":"image"}"#, 1).is_none());
}

#[test]
fn fts_query_preserves_established_semantics() {
    assert_eq!(
        build_fts_query(&vec!["deploy".into(), "-relay".into()], false),
        "\"deploy\" NOT \"relay\""
    );
    assert_eq!(
        build_fts_query(&vec!["parity-check".into()], false),
        "\"parity-check\""
    );
    assert_eq!(build_fts_query(&vec!["foo*".into()], false), "foo*");
}

#[test]
fn fts_queries_without_a_positive_term_match_nothing() {
    assert_eq!(
        build_fts_query(&vec!["-a".into()], false),
        "\"__ai_hist_no_positive_terms__\""
    );
    assert_eq!(build_fts_query(&vec!["-".into()], false), "\"-\"");
    assert_eq!(
        build_fts_query(&vec!["a".into(), "OR".into(), "-b".into()], false),
        "a OR -b"
    );
    assert_eq!(build_fts_query(&vec!["-a".into(), "b".into()], true), "-a b");
    assert_eq!(quote_fts_term("say \"hi\""), "\"say \"\"hi\"\"\"");
}

#[test]
fn only_raw_expression_errors_get_advice() {
    assert!(is_fts5_syntax_error("fts5: syntax error near \"-\""));
    assert!(is_fts5_syntax_error("No Such Column: parity"));
    assert!(is_fts5_syntax_error("unterminated string"));
    assert!(!is_fts5_syntax_error("disk I/O error"));
    assert!(raw_fts_query_error(true, Some("fts5: syntax error")).is_some());
    assert!(raw_fts_query_error(false, Some("fts5: syntax error")).is_none());
    assert!(raw_fts_query_error(true, Some("disk I/O error")).is_none());
    assert!(raw_fts_query_error(true, None).is_none());
}

#[test]
fn session_scope_defaults_to_local() {
    assert_eq!(SessionScope::default(), SessionScope::Local);
    assert_eq!(SessionLocation::Remote.as_str(), "remote");
    assert_eq!(SessionLocation::Local.as_str(), "local");
}

#[test]
fn remote_history_rejects_a_missing_or_empty_session_identity() {
    for session_id in [None, Some(String::new())] {
        let mut entry = resume_entry("codex", None, None);
        entry.session_id = session_id;
        let error = history_presence(&entry, SessionLocation::Remote)
            .expect_err("identity-less remote history must fail closed");
        assert!(error.contains("remote history requires a non-empty session id"));
        assert_eq!(history_presence(&entry, SessionLocation::Local), Ok(None));
    }
    let entry = resume_entry("codex", Some("s"), None);
    assert_eq!(
        history_presence(&entry, SessionLocation::Remote),
        Ok(Some("s"))
    );
}

#[test]
fn a_full_presence_stays_full() {
    let held = SessionPresence {
        raw_locator: Some("/a".to_string()),
        source_stamp: None,
        discovery_state: Some("full".to_string()),
    };
    let seen = SessionPresence {
        raw_locator: None,
        source_stamp: Some("2".to_string()),
        discovery_state: Some("shallow".to_string()),
    };
    let merged = merge_presence(&held, &seen);
    assert_eq!(merged.raw_locator.as_deref(), Some("/a"));
    assert_eq!(merged.source_stamp.as_deref(), Some("2"));
    assert_eq!(merged.discovery_state.as_deref(), Some("full"));
}

#[test]
fn tag_names_are_folded_and_kept() {
    assert_eq!(normalize_tag_name("  Relayfile \t Migration "), "relayfile migration");
    assert_eq!(normalize_tag_name("ÄRGER"), "ärger");
    let (name, display) = tag_names(" Release ").unwrap();
    assert_eq!(name, "release");
    assert_eq!(display, "Release");
    assert!(tag_names("   ").is_err());
}

#[test]
fn a_tag_name_is_the_same_however_its_words_are_spaced() {
    let name = normalize_tag_name("relayfile migration");
    assert_eq!(name, "relayfile migration");
    for spelled in [
        "relayfile  migration",
        "relayfile\tmigration",
        "\n relayfile \r\n migration\u{3000}",
        "Relayfile MIGRATION",
    ] {
        assert_eq!(normalize_tag_name(spelled), name, "{spelled:?}");
    }
    assert_eq!(normalize_tag_name(&name), name);
    for blank in ["", " ", "\t\n", "\u{a0}\u{2003}"] {
        assert_eq!(normalize_tag_name(blank), "");
        assert_eq!(tag_names(blank).unwrap_err(), "tag name cannot be empty");
    }
}

#[test]
fn quotes_empty_args() {
    assert_eq!(shell_quote(""), "''");
    assert_eq!(shell_quote("/tmp/p"), "/tmp/p");
    assert_eq!(shell_quote("it's"), "'it'\\''s'");
    assert_eq!(shell_quote("a b;$c"), "'a b;$c'");
    assert_eq!(shell_quote("'"), "''\\'''");
    assert_eq!(shell_quote("x\ny"), "'x\ny'");
}

#[test]
fn cursor_rows_unwrap_the_user_query_envelope_around_the_real_prompt() {
    assert_eq!(
        parse_cursor_text(
            r#"{"role":"user","message":{"content":[{"type":"text","text":"<user_query>\n tag the release \n</user_query>"}]}}"#
        )
        .unwrap(),
        Some("tag the release".to_string())
    );
    // Older rows carry the prompt with no envelope at all.
    assert_eq!(
        parse_cursor_text(
            r#"{"role":"user","message":{"content":[{"type":"text","text":"  tag the release  "}]}}"#
        )
        .unwrap(),
        Some("tag the release".to_string())
    );
    // Content is sometimes a bare string rather than a parts array.
    assert_eq!(
        parse_cursor_text(r#"{"role":"user","message":{"content":"tag the release"}}"#).unwrap(),
        Some("tag the release".to_string())
    );
}

#[test]
fn cursor_rows_without_a_user_prompt_are_skipped() {
    // Only user turns are history; the assistant's reply is not a prompt.
    assert_eq!(
        parse_cursor_text(
            r#"{"role":"assistant","message":{"content":[{"type":"text","text":"ok"}]}}"#
        )
        .unwrap(),
        None
    );
    // Whitespace-only text carries no prompt.
    assert_eq!(
        parse_cursor_text(
            r#"{"role":"user","message":{"content":[{"type":"text","text":"   \n  "}]}}"#
        )
        .unwrap(),
        None
    );
    // An envelope with nothing inside it is not a prompt either.
    assert_eq!(
        parse_cursor_text(
            r#"{"role":"user","message":{"content":[{"type":"text","text":"<user_query></user_query>"}]}}"#
        )
        .unwrap(),
        None
    );
    // Non-text parts (images, tool payloads) contribute no prompt text.
    assert_eq!(
        parse_cursor_text(
            r#"{"role":"user","message":{"content":[{"type":"image","url":"file:///shot.png"}]}}"#
        )
        .unwrap(),
        None
    );
}

fn resume_entry(source: &str, session_id: Option<&str>, project: Option<&str>) -> HistoryEntry {
    HistoryEntry {
        id: 0,
        source: source.into(),
        session_id: session_id.map(str::to_string),
        project: project.map(str::to_string),
        prompt: "tag the release".into(),
        prompt_hash: None,
        timestamp_ms: 1,
    }
}

fn resume(source: &str, session_id: Option<&str>, project: Option<&str>) -> Option<String> {
    resume_command(&resume_entry(source, session_id, project), &names())
}

#[test]
fn resume_commands_use_each_agents_own_cli_and_cd_into_the_project() {
    assert_eq!(
        resume("first", Some("s1"), Some("/tmp/p")),
        Some("cd /tmp/p && first --resume s1".to_string())
    );
    // Codex resumes by session id alone; it has no project argument.
    assert_eq!(
        resume("codex", Some("s1"), Some("/tmp/p")),
        Some("codex resume s1".to_string())
    );
    assert_eq!(
        resume("cursor", Some("s1"), Some("/tmp/p")),
        Some("cd /tmp/p && cursor-agent --resume=s1".to_string())
    );
    assert_eq!(
        resume("grok", Some("s1"), Some("/tmp/p")),
        Some("cd /tmp/p && grok resume s1".to_string())
    );
    // A project with shell metacharacters is quoted, not interpolated raw.
    assert_eq!(
        resume("first", Some("s1"), Some("/tmp/my proj")),
        Some("cd '/tmp/my proj' && first --resume s1".to_string())
    );
}

#[test]
fn resume_drops_the_cd_without_a_project_and_is_absent_without_a_session() {
    assert_eq!(
        resume("first", Some("s1"), None),
        Some("first --resume s1".to_string())
    );
    assert_eq!(
        resume("cursor", Some("s1"), None),
        Some("cursor-agent --resume=s1".to_string())
    );
    // No session id means there is nothing to resume.
    assert_eq!(resume("first", None, Some("/tmp/p")), None);
    // Sources with no resumable CLI (opencode, trajectory) offer nothing.
    assert_eq!(resume("opencode", Some("s1"), Some("/tmp/p")), None);
    assert_eq!(resume("trajectory", Some("s1"), Some("/tmp/p")), None);
}

#[test]
fn the_database_is_where_the_variables_say() {
    let vars = |db: Option<&str>, data: Option<&str>, home: Option<&str>, profile: Option<&str>| {
        DatabaseVariables {
            ai_hist_db: db.map(str::to_string),
            xdg_data_home: data.map(str::to_string),
            home: home.map(str::to_string),
            userprofile: profile.map(str::to_string),
        }
    };
    assert_eq!(
        default_db_path(&vars(Some("/x.db"), Some("/d"), Some("/h"), None)),
        "/x.db"
    );
    assert_eq!(
        default_db_path(&vars(None, Some("/d"), Some("/h"), None)),
        "/d/ai-hist/ai-history.db"
    );
    assert_eq!(
        default_db_path(&vars(None, None, Some("/h"), Some("/u"))),
        "/h/.local/share/ai-hist/ai-history.db"
    );
    assert_eq!(
        default_db_path(&vars(None, None, None, Some("/u"))),
        "/u/.local/share/ai-hist/ai-history.db"
    );
    assert_eq!(
        default_db_path(&vars(None, None, None, None)),
        "./.local/share/ai-hist/ai-history.db"
    );
}

#[test]
fn known_sources_are_known() {
    for name in ["first", "codex", "cursor", "grok", "relay", "trajectory", "opencode"] {
        assert!(known_source(name, &names()), "{name}");
    }
    assert!(!known_source("nope", &names()));
}

fn call(
    id: i64,
    source: &str,
    session_id: &str,
    tool_use_id: &str,
    ts_ms: Option<i64>,
) -> SessionToolCall {
    SessionToolCall {
        id,
        source: source.to_string(),
        session_id: session_id.to_string(),
        message_id: None,
        tool_use_id: tool_use_id.to_string(),
        name: "Bash".to_string(),
        target: None,
        args_json: None,
        is_error: None,
        ts_ms,
    }
}

fn edit(
    id: i64,
    source: &str,
    session_id: &str,
    tool_use_id: &str,
    ts_ms: Option<i64>,
) -> SessionFileEdit {
    SessionFileEdit {
        id,
        source: source.to_string(),
        session_id: session_id.to_string(),
        message_id: Some("m1".to_string()),
        tool_use_id: tool_use_id.to_string(),
        file_path: "/tmp/p/a.rs".to_string(),
        tool_name: None,
        lines_added: None,
        lines_removed: None,
        structured_patch_json: Some("not json".to_string()),
        user_modified: None,
        ts_ms,
        git_branch: Some("main".to_string()),
        cwd: Some("/tmp/p".to_string()),
    }
}

/// Two providers whose native session ids collide, tied times and an undated tail.
fn calls() -> Vec<SessionToolCall> {
    vec![
        call(1, "first", "s1", "tu-a", Some(200)),
        call(2, "first", "s1", "tu-b", Some(100)),
        call(3, "first", "s1", "tu-c", Some(200)),
        call(4, "first", "s1", "tu-d", None),
        call(5, "first", "s1", "tu-e", Some(100)),
        call(6, "first", "s1", "tu-f", None),
        call(7, "codex", "s1", "tu-x", Some(150)),
        call(8, "first", "s2", "tu-y", Some(150)),
    ]
}

fn edits() -> Vec<SessionFileEdit> {
    vec![
        edit(1, "first", "s1", "fe-a", Some(200)),
        edit(2, "first", "s1", "fe-b", Some(100)),
        edit(3, "first", "s1", "fe-c", Some(200)),
        edit(4, "first", "s1", "fe-d", None),
        edit(5, "first", "s1", "fe-e", Some(100)),
        edit(6, "first", "s1", "fe-f", None),
        edit(7, "codex", "s1", "fe-x", Some(150)),
        edit(8, "first", "s2", "fe-y", Some(150)),
    ]
}

fn walk_tool_calls(rows: &Vec<SessionToolCall>, limit: i64) -> Vec<i64> {
    let mut ids = Vec::new();
    let mut cursor = None;
    for _ in 0..100 {
        let page = session_tool_calls_page(rows, "first", "s1", limit, cursor);
        assert!(page.tool_calls.len() as i64 <= limit.clamp(1, 1_000));
        ids.extend(page.tool_calls.iter().map(|call| call.id));
        match page.next_cursor {
            Some(next) => cursor = Some(next),
            None => return ids,
        }
    }
    panic!("tool call pagination did not terminate");
}

fn walk_file_edits(rows: &Vec<SessionFileEdit>, limit: i64) -> Vec<i64> {
    let mut ids = Vec::new();
    let mut cursor = None;
    for _ in 0..100 {
        let page = session_file_edits_page(rows, "first", "s1", limit, cursor);
        assert!(page.file_edits.len() as i64 <= limit.clamp(1, 1_000));
        ids.extend(page.file_edits.iter().map(|edit| edit.id));
        match page.next_cursor {
            Some(next) => cursor = Some(next),
            None => return ids,
        }
    }
    panic!("file edit pagination did not terminate");
}

#[test]
fn evidence_pages_scope_to_one_source_and_session() {
    let page = session_tool_calls_page(&calls(), "first", "s1", 100, None);
    assert!(page
        .tool_calls
        .iter()
        .all(|call| call.source == "first" && call.session_id == "s1"));
    assert_eq!(page.tool_calls.len(), 6);
    let other = session_tool_calls_page(&calls(), "codex", "s1", 100, None);
    assert_eq!(
        other
            .tool_calls
            .iter()
            .map(|call| call.tool_use_id.as_str())
            .collect::<Vec<_>>(),
        vec!["tu-x"]
    );

    let page = session_file_edits_page(&edits(), "first", "s1", 100, None);
    assert!(page
        .file_edits
        .iter()
        .all(|edit| edit.source == "first" && edit.session_id == "s1"));
    assert_eq!(page.file_edits.len(), 6);
    let first = &page.file_edits[0];
    assert_eq!(first.tool_use_id, "fe-b");
    assert_eq!(first.message_id.as_deref(), Some("m1"));
    assert_eq!(first.structured_patch_json.as_deref(), Some("not json"));
    assert_eq!(first.git_branch.as_deref(), Some("main"));
    assert_eq!(first.cwd.as_deref(), Some("/tmp/p"));
    let other = session_file_edits_page(&edits(), "codex", "s1", 100, None);
    assert_eq!(
        other
            .file_edits
            .iter()
            .map(|edit| edit.tool_use_id.as_str())
            .collect::<Vec<_>>(),
        vec!["fe-x"]
    );
}

#[test]
fn evidence_pages_walk_tied_timestamps_and_undated_tails_without_gaps() {
    let expected = vec![2, 5, 1, 3, 4, 6];
    for limit in [1, 2, 3, 5, 6, 7, 1_000] {
        assert_eq!(
            walk_tool_calls(&calls(), limit),
            expected,
            "tool calls at limit {limit}"
        );
        assert_eq!(
            walk_file_edits(&edits(), limit),
            expected,
            "file edits at limit {limit}"
        );
    }
}

#[test]
fn evidence_page_cursors_are_exact_at_page_boundaries() {
    // A page that exactly consumes the rows reports no continuation.
    let exact = session_tool_calls_page(&calls(), "first", "s1", 6, None);
    assert_eq!(exact.tool_calls.len(), 6);
    assert_eq!(exact.next_cursor, None);

    // A cursor taken mid-tie resumes at the tie's next row, not after it.
    let first = session_tool_calls_page(&calls(), "first", "s1", 1, None);
    let cursor = first.next_cursor.unwrap();
    assert_eq!(cursor.ts_ms, Some(100));
    let second = session_tool_calls_page(&calls(), "first", "s1", 1, Some(cursor));
    assert_eq!(second.tool_calls[0].ts_ms, Some(100));
    assert!(second.tool_calls[0].id > first.tool_calls[0].id);

    // A cursor on the last dated row admits the whole undated tail.
    let dated = session_tool_calls_page(&calls(), "first", "s1", 4, None);
    let tail = session_tool_calls_page(&calls(), "first", "s1", 100, dated.next_cursor);
    assert!(tail.tool_calls.iter().all(|call| call.ts_ms.is_none()));
    assert_eq!(tail.tool_calls.len(), 2);
    assert_eq!(tail.next_cursor, None);

    // A cursor already inside the undated tail never walks back into the dated head.
    let undated = SessionEvidenceCursor {
        ts_ms: None,
        id: tail.tool_calls[0].id,
    };
    let rest = session_file_edits_page(&edits(), "first", "s1", 100, None);
    let last_undated = rest.file_edits.last().unwrap();
    let after_all = session_file_edits_page(
        &edits(),
        "first",
        "s1",
        100,
        Some(SessionEvidenceCursor {
            ts_ms: last_undated.ts_ms,
            id: last_undated.id,
        }),
    );
    assert!(after_all.file_edits.is_empty());
    assert_eq!(after_all.next_cursor, None);
    let continued = session_tool_calls_page(&calls(), "first", "s1", 100, Some(undated));
    assert_eq!(continued.tool_calls.len(), 1);
    assert!(continued.tool_calls[0].ts_ms.is_none());
}

#[test]
fn evidence_pages_clamp_limits_and_read_unknown_sessions_empty() {
    // Out-of-range limits clamp instead of erroring or returning nothing.
    assert_eq!(
        session_tool_calls_page(&calls(), "first", "s1", 0, None)
            .tool_calls
            .len(),
        1
    );
    assert_eq!(
        session_file_edits_page(&edits(), "first", "s1", -5, None)
            .file_edits
            .len(),
        1
    );
    assert_eq!(
        session_tool_calls_page(&calls(), "first", "s1", 10_000, None)
            .tool_calls
            .len(),
        6
    );

    for (source, session_id) in [("first", "nope"), ("nope", "s1")] {
        let page = session_tool_calls_page(&calls(), source, session_id, 10, None);
        assert!(page.tool_calls.is_empty());
        assert_eq!(page.next_cursor, None);
        let page = session_file_edits_page(&edits(), source, session_id, 10, None);
        assert!(page.file_edits.is_empty());
        assert_eq!(page.next_cursor, None);
    }
}

fn tied_event(id: i64) -> SessionEvent {
    SessionEvent {
        id,
        source: "codex".to_string(),
        session_id: "tied".to_string(),
        project: None,
        project_key: None,
        cwd: None,
        git_branch: None,
        message_id: None,
        parent_id: None,
        ts_ms: 42,
        role: "assistant".to_string(),
        kind: "text".to_string(),
        text: Some(format!("event-{id}")),
        model: None,
        token_json: None,
        provider: None,
        event_uid: format!("uid-{id}"),
        tool_use_id: None,
        payload_bytes: None,
        payload_truncated: None,
        payload_hash: None,
        call_index: None,
        event_index: None,
        result_status: None,
        event_source: None,
        error_signal: None,
        subagent_session_id: None,
        agent_id: None,
        request_id: None,
        provider_message_id: None,
        stop_reason: None,
        agent_version: None,
        is_sidechain: None,
        is_meta: None,
        turn_id: None,
        request_span: None,
        raw_kind: None,
        control_kind: None,
    }
}

#[test]
fn event_pages_are_bounded_and_do_not_skip_timestamp_ties() {
    let rows: Vec<SessionEvent> = (1..6).map(tied_event).collect();

    let first = session_events_page(&rows, "tied", Some("codex"), 2, None);
    assert_eq!(first.events.len(), 2);
    let second = session_events_page(&rows, "tied", Some("codex"), 2, first.next_cursor);
    assert_eq!(second.events.len(), 2);
    let third = session_events_page(&rows, "tied", Some("codex"), 2, second.next_cursor);
    assert_eq!(third.events.len(), 1);
    assert!(third.next_cursor.is_none());

    let ids = first
        .events
        .into_iter()
        .chain(second.events)
        .chain(third.events)
        .map(|event| event.id)
        .collect::<Vec<_>>();
    assert_eq!(ids.len(), 5);
    assert!(ids.windows(2).all(|pair| pair[0] < pair[1]));
}

#[test]
fn events_of_every_source_are_paged_where_none_is_named() {
    let mut rows: Vec<SessionEvent> = (1..4).map(tied_event).collect();
    rows[1].source = "first".to_string();
    assert_eq!(
        session_events_page(&rows, "tied", None, 10, None)
            .events
            .len(),
        3
    );
    assert_eq!(
        session_events_page(&rows, "tied", Some("first"), 10, None)
            .events
            .len(),
        1
    );
}
