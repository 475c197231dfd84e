use ai_hist::attribution::attribute_usage_to_prompts;
use ai_hist::json::{JsonNumber, JsonValue};
use ai_hist::session_store::SourceName;
use ai_hist::store::{SessionEvent, SourceNames};
use ai_hist::usage::{
    normalize_usage, normalize_usage_str, same_usage, source_accounting,
    source_splits_requests_across_records, NormalizedUsage, UsageAccounting, UsageCoverage,
    UsageError,
};

/// A source by its name, where the first one is called so.
fn source(name: &str) -> SourceName {
    let names = SourceNames {
        claude: "first".to_string(),
    };
    SourceName::new(name, &names)
}

fn claude(raw: &str) -> Result<Option<NormalizedUsage>, UsageError> {
    normalize_usage_str(&source("first"), raw)
}

fn codex(raw: &str) -> Result<Option<NormalizedUsage>, UsageError> {
    normalize_usage_str(&source("codex"), raw)
}

fn dollars(usage: &NormalizedUsage) -> Option<f64> {
    usage.reported_cost_usd.map(f64::from_bits)
}

fn priced(cost: f64) -> NormalizedUsage {
    let mut usage = claude(r#"{"input_tokens": 1}"#).unwrap().unwrap();
    usage.reported_cost_usd = Some(cost.to_bits());
    usage
}

fn count(n: u64) -> JsonValue {
    JsonValue::Number(JsonNumber {
        unsigned: Some(n),
        signed: i64::try_from(n).ok(),
        bits: (n as f64).to_bits(),
        text: n.to_string(),
    })
}

#[test]
fn claude_input_is_already_cache_exclusive() {
    let usage = claude(
        r#"{"input_tokens": 3, "cache_creation_input_tokens": 4773,
            "cache_read_input_tokens": 11496, "output_tokens": 43}"#,
    )
    .unwrap()
    .unwrap();
    assert_eq!(usage.input_tokens, 3);
    assert_eq!(usage.cache_read_tokens, 11496);
    assert_eq!(usage.cache_write_tokens, 4773);
    assert_eq!(usage.output_tokens, 43);
    assert_eq!(usage.accounting, UsageAccounting::PerMessage);
}

#[test]
fn claude_preserves_the_ephemeral_cache_split() {
    let usage = claude(
        r#"{"input_tokens": 3, "cache_creation_input_tokens": 4773,
            "cache_read_input_tokens": 11496,
            "cache_creation": {"ephemeral_5m_input_tokens": 0, "ephemeral_1h_input_tokens": 4773},
            "output_tokens": 43}"#,
    )
    .unwrap()
    .unwrap();
    assert_eq!(usage.cache_write_5m_tokens, Some(0));
    assert_eq!(usage.cache_write_1h_tokens, Some(4773));
    assert_eq!(usage.cache_write_tokens, 4773);
}

#[test]
fn an_unsplit_cache_write_stays_unsplit() {
    let usage = claude(r#"{"input_tokens": 1, "cache_creation_input_tokens": 100}"#)
        .unwrap()
        .unwrap();
    assert_eq!(usage.cache_write_tokens, 100);
    assert_eq!(usage.cache_write_5m_tokens, None);
    assert_eq!(usage.cache_write_1h_tokens, None);
}

#[test]
fn a_split_without_a_total_sums_the_buckets() {
    let usage = claude(
        r#"{"input_tokens": 1,
            "cache_creation": {"ephemeral_5m_input_tokens": 10, "ephemeral_1h_input_tokens": 5}}"#,
    )
    .unwrap()
    .unwrap();
    assert_eq!(usage.cache_write_tokens, 15);
    assert!(usage.coverage.has_cache_write_tokens);
}

#[test]
fn a_split_that_does_not_fit_is_an_overflow() {
    let error = claude(
        r#"{"cache_creation": {"ephemeral_5m_input_tokens": 18446744073709551615,
            "ephemeral_1h_input_tokens": 1}}"#,
    )
    .unwrap_err();
    assert_eq!(error.code(), "USAGE_COUNTER_OVERFLOW");
    assert_eq!(
        error.to_string(),
        "USAGE_COUNTER_OVERFLOW: 'cache_creation' overflowed while combining reported counters"
    );
}

#[test]
fn missing_output_tokens_reads_as_zero_with_absent_coverage() {
    let usage = claude(r#"{"input_tokens": 10}"#).unwrap().unwrap();
    assert_eq!(usage.output_tokens, 0);
    assert!(usage.coverage.has_input_tokens);
    assert!(!usage.coverage.has_output_tokens);
    assert!(!usage.coverage.is_complete());
}

#[test]
fn claude_does_not_invent_reasoning_or_a_total() {
    let usage = claude(r#"{"input_tokens": 10, "output_tokens": 2}"#)
        .unwrap()
        .unwrap();
    assert_eq!(usage.reasoning_tokens, None);
    assert_eq!(usage.provider_total_tokens, None);
    assert_eq!(usage.reported_cost_usd, None);
}

#[test]
fn codex_input_is_made_cache_exclusive() {
    let usage = codex(
        r#"{"input_tokens": 3000, "cached_input_tokens": 1000, "cache_write_input_tokens": 12,
            "output_tokens": 200, "reasoning_output_tokens": 50, "total_tokens": 3200}"#,
    )
    .unwrap()
    .unwrap();
    assert_eq!(usage.input_tokens, 2000);
    assert_eq!(usage.cache_read_tokens, 1000);
    assert_eq!(usage.cache_write_tokens, 12);
    assert_eq!(usage.reasoning_tokens, Some(50));
    // As reported, never recomputed: 2000 + 1000 + 200 + 50 != 3200.
    assert_eq!(usage.provider_total_tokens, Some(3200));
    assert_eq!(usage.accounting, UsageAccounting::CumulativeDelta);
}

#[test]
fn a_cached_count_above_input_is_a_regression_not_a_clamp() {
    let error = codex(r#"{"input_tokens": 5, "cached_input_tokens": 9}"#).unwrap_err();
    assert_eq!(error.code(), "USAGE_COUNTER_REGRESSED");
    assert_eq!(
        error.to_string(),
        "USAGE_COUNTER_REGRESSED: 'input_tokens' is 5 but 9 cached tokens were reported against it"
    );
}

#[test]
fn a_negative_counter_errors_rather_than_clamping() {
    let error = claude(r#"{"input_tokens": -1}"#).unwrap_err();
    assert_eq!(error.code(), "USAGE_NON_INTEGER_COUNTER");
    assert!(error.to_string().contains("input_tokens"));
    assert_eq!(
        error.to_string(),
        "USAGE_NON_INTEGER_COUNTER: 'input_tokens' is not a non-negative integer (-1)"
    );
}

#[test]
fn a_fractional_counter_errors() {
    assert_eq!(
        claude(r#"{"output_tokens": 1.5}"#).unwrap_err().code(),
        "USAGE_NON_INTEGER_COUNTER"
    );
}

#[test]
fn a_counter_of_another_shape_is_shown_as_it_was_written() {
    let error = claude(r#"{"output_tokens": ["a\"b", {"k": null, "j": true}]}"#).unwrap_err();
    assert_eq!(
        error.to_string(),
        "USAGE_NON_INTEGER_COUNTER: 'output_tokens' is not a non-negative integer \
         ([\"a\\\"b\",{\"j\":true,\"k\":null}])"
    );
}

#[test]
fn no_recognized_counter_is_no_evidence() {
    assert!(claude("{}").unwrap().is_none());
    assert!(claude(r#"{"service_tier": "standard"}"#).unwrap().is_none());
    assert!(normalize_usage(&source("first"), &JsonValue::Null).unwrap().is_none());
}

#[test]
fn a_reported_zero_is_evidence() {
    let usage = claude(r#"{"input_tokens": 0, "output_tokens": 0}"#)
        .unwrap()
        .unwrap();
    assert!(usage.is_zero());
    assert!(usage.coverage.has_input_tokens);
}

#[test]
fn a_non_object_and_an_unknown_source_are_distinct_errors() {
    assert!(matches!(
        normalize_usage(&source("first"), &count(7)).unwrap_err(),
        UsageError::NotAnObject
    ));
    let unknown = normalize_usage(&source("cursor"), &JsonValue::Object(Vec::new())).unwrap_err();
    assert_eq!(unknown.code(), "USAGE_UNKNOWN_SOURCE");
    assert_eq!(
        unknown.to_string(),
        "USAGE_UNKNOWN_SOURCE: no usage accounting rule for 'cursor'"
    );
}

#[test]
fn malformed_json_reports_its_own_code() {
    let error = normalize_usage_str(&source("first"), "{not json").unwrap_err();
    assert_eq!(error.code(), "USAGE_MALFORMED");
    assert_eq!(
        error.to_string(),
        "USAGE_MALFORMED: key must be a string at line 1 column 2"
    );
}

#[test]
fn a_negative_reported_cost_errors() {
    let error = claude(r#"{"input_tokens": 1, "cost_usd": -0.5}"#).unwrap_err();
    assert_eq!(error.code(), "USAGE_INVALID_COST");
    assert_eq!(
        error.to_string(),
        "USAGE_INVALID_COST: reported cost is not a finite non-negative number (-0.5)"
    );
}

#[test]
fn a_reported_cost_is_read_back_but_never_computed() {
    let usage = claude(r#"{"input_tokens": 1, "costUSD": 0.25}"#)
        .unwrap()
        .unwrap();
    assert_eq!(dollars(&usage), Some(0.25));
}

#[test]
fn a_negative_zero_cost_is_kept_as_it_was_reported() {
    let usage = claude(r#"{"input_tokens": 1, "cost_usd": -0.0}"#)
        .unwrap()
        .unwrap();
    assert_eq!(usage.reported_cost_usd, Some((-0.0f64).to_bits()));
    // It is the same amount as zero.
    let plain = claude(r#"{"input_tokens": 1, "cost_usd": 0.0}"#)
        .unwrap()
        .unwrap();
    assert_eq!(plain.reported_cost_usd, Some(0.0f64.to_bits()));
    assert_eq!(usage, plain);
    let none = claude(r#"{"input_tokens": 0, "cost_usd": -0.0}"#)
        .unwrap()
        .unwrap();
    assert!(none.is_zero());
}

#[test]
fn a_cost_is_read_under_the_first_of_its_names() {
    let usage = claude(r#"{"total_cost_usd": 3, "costUSD": 2.5, "cost_usd": null}"#)
        .unwrap()
        .unwrap();
    assert_eq!(dollars(&usage), Some(2.5));
}

#[test]
fn adding_merges_coverage_and_keeps_unreported_fields_unreported() {
    let a = claude(r#"{"input_tokens": 1}"#).unwrap().unwrap();
    let b = claude(r#"{"output_tokens": 2}"#).unwrap().unwrap();
    let sum = a.checked_add(&b).unwrap();
    assert_eq!(sum.input_tokens, 1);
    assert_eq!(sum.output_tokens, 2);
    assert_eq!(sum.reasoning_tokens, None);
    assert!(sum.coverage.has_input_tokens && sum.coverage.has_output_tokens);
}

#[test]
fn an_unsplit_cache_write_makes_the_pair_split_unknown() {
    let split = claude(
        r#"{"cache_creation_input_tokens": 100,
            "cache_creation": {"ephemeral_5m_input_tokens": 100, "ephemeral_1h_input_tokens": 0}}"#,
    )
    .unwrap()
    .unwrap();
    let unsplit = claude(r#"{"cache_creation_input_tokens": 50}"#)
        .unwrap()
        .unwrap();
    let sum = split.checked_add(&unsplit).unwrap();
    // The total still carries every token...
    assert_eq!(sum.cache_write_tokens, 150);
    // ...but claiming 100 in the first bucket would drop the other 50 from it.
    assert_eq!(sum.cache_write_5m_tokens, None);
    assert_eq!(sum.cache_write_1h_tokens, None);
}

#[test]
fn a_record_with_no_cache_writes_keeps_the_pair_split_known() {
    let split = claude(
        r#"{"cache_creation_input_tokens": 100,
            "cache_creation": {"ephemeral_5m_input_tokens": 60, "ephemeral_1h_input_tokens": 40}}"#,
    )
    .unwrap()
    .unwrap();
    let none_written = claude(r#"{"input_tokens": 7, "cache_creation_input_tokens": 0}"#)
        .unwrap()
        .unwrap();
    let sum = split.checked_add(&none_written).unwrap();
    assert_eq!(sum.cache_write_5m_tokens, Some(60));
    assert_eq!(sum.cache_write_1h_tokens, Some(40));
    assert_eq!(sum.cache_write_tokens, 100);
}

#[test]
fn a_cost_only_one_side_reported_is_not_the_pair_cost() {
    let priced = claude(r#"{"input_tokens": 1, "cost_usd": 0.25}"#)
        .unwrap()
        .unwrap();
    let unpriced = claude(r#"{"input_tokens": 1}"#).unwrap().unwrap();
    assert_eq!(
        priced.checked_add(&unpriced).unwrap().reported_cost_usd,
        None
    );
    assert_eq!(dollars(&priced.checked_add(&priced).unwrap()), Some(0.5));
}

#[test]
fn costs_add_up_as_doubles_do() {
    let samples = [
        0.0,
        -0.0,
        5e-324,
        1e-310,
        f64::MIN_POSITIVE,
        0.1,
        0.2,
        0.25,
        0.3,
        1.0,
        1.5,
        2.5,
        1.0 + f64::EPSILON,
        3.0e-17,
        1e16,
        9007199254740992.0,
        9007199254740993.0,
        1e17,
        1e300,
        f64::MAX / 2.0,
        f64::MAX,
    ];
    for a in samples {
        for b in samples {
            let sum = priced(a).checked_add(&priced(b));
            let back = priced(b).checked_add(&priced(a));
            assert_eq!(sum, back, "{a:e} + {b:e}");
            let expected = Some(a + b).filter(|sum| sum.is_finite());
            assert_eq!(
                sum.and_then(|sum| sum.reported_cost_usd),
                expected.map(f64::to_bits),
                "{a:e} + {b:e}"
            );
        }
    }
}

#[test]
fn costs_that_add_up_to_nothing_finite_have_no_sum() {
    assert_eq!(priced(1.5e308).checked_add(&priced(1.5e308)), None);
    assert_eq!(priced(f64::MAX).checked_add(&priced(1e292)), None);
    assert_eq!(
        dollars(&priced(f64::MAX).checked_add(&priced(9e291)).unwrap()),
        Some(f64::MAX)
    );
    assert_eq!(
        dollars(&priced(1.5e308).checked_add(&priced(2.5e307)).unwrap()),
        Some(1.75e308)
    );
}

#[test]
fn a_nested_counter_is_refused_like_any_other() {
    for (raw, field) in [
        (
            r#"{"cache_creation": {"ephemeral_5m_input_tokens": -1}}"#,
            "cache_creation.ephemeral_5m_input_tokens",
        ),
        (
            r#"{"cache_creation": {"ephemeral_1h_input_tokens": "1"}}"#,
            "cache_creation.ephemeral_1h_input_tokens",
        ),
        (
            r#"{"cache_read_input_tokens": 0.5}"#,
            "cache_read_input_tokens",
        ),
        (
            r#"{"cache_creation_input_tokens": []}"#,
            "cache_creation_input_tokens",
        ),
    ] {
        match claude(raw).unwrap_err() {
            UsageError::NonIntegerCounter { field: found, .. } => assert_eq!(found, field),
            other => panic!("{raw}: {other:?}"),
        }
    }
    let error = codex(r#"{"cached_input_tokens": {"n": [1, "a\"b"]}}"#).unwrap_err();
    match error {
        UsageError::NonIntegerCounter { field, value } => {
            assert_eq!(field, "cached_input_tokens");
            assert_eq!(value, r#"{"n":[1,"a\"b"]}"#);
        }
        other => panic!("{other:?}"),
    }
    for written in ["-0.0", "1.5", "8.98846567431158e307", "-7", "1e-7"] {
        let error = codex(&format!("{{\"total_tokens\": {written}}}")).unwrap_err();
        let value: serde_json::Value = serde_json::from_str(written).unwrap();
        match error {
            UsageError::NonIntegerCounter { value: shown, .. } => {
                assert_eq!(shown, value.to_string())
            }
            other => panic!("{other:?}"),
        }
    }
}

#[test]
fn a_provider_total_only_one_side_reported_is_not_the_pair_total() {
    let with_total = codex(r#"{"input_tokens": 5, "total_tokens": 5}"#)
        .unwrap()
        .unwrap();
    let without = codex(r#"{"input_tokens": 5}"#).unwrap().unwrap();
    assert_eq!(
        with_total
            .checked_add(&without)
            .unwrap()
            .provider_total_tokens,
        None
    );
}

#[test]
fn only_claude_spreads_one_request_over_several_records() {
    assert!(source_splits_requests_across_records(&source("first")));
    assert!(!source_splits_requests_across_records(&source("codex")));
    assert!(!source_splits_requests_across_records(&source("cursor")));
}

#[test]
fn each_normalizable_source_has_its_accounting() {
    assert_eq!(source_accounting(&source("first")), Some(UsageAccounting::PerMessage));
    assert_eq!(
        source_accounting(&source("codex")),
        Some(UsageAccounting::CumulativeDelta)
    );
    assert_eq!(source_accounting(&source("grok")), None);
}

#[test]
fn adding_overflow_refuses_rather_than_saturating() {
    let a = claude(r#"{"input_tokens": 18446744073709551615}"#)
        .unwrap()
        .unwrap();
    assert_eq!(a.input_tokens, u64::MAX);
    let b = claude(r#"{"input_tokens": 1}"#).unwrap().unwrap();
    assert!(a.checked_add(&b).is_none());
    assert!(b.checked_add(&a).is_none());
}

#[test]
fn a_sum_is_the_same_in_either_order() {
    let a = codex(r#"{"input_tokens": 9, "cached_input_tokens": 4, "total_tokens": 9}"#)
        .unwrap()
        .unwrap();
    let b = codex(r#"{"input_tokens": 2, "output_tokens": 1, "total_tokens": 3}"#)
        .unwrap()
        .unwrap();
    assert!(same_usage(
        &a.checked_add(&b).unwrap(),
        &b.checked_add(&a).unwrap()
    ));
    assert!(!same_usage(&a, &b));
}

#[test]
fn attribution_keeps_optional_fields_when_folding_several_responses() {
    let events = vec![
        user_event("u1", 100, "ask"),
        assistant_event(
            "a1",
            Some("u1"),
            150,
            r#"{"input_tokens":1000,"cached_input_tokens":400,"output_tokens":120,"reasoning_output_tokens":10,"total_tokens":1120}"#,
        ),
        assistant_event(
            "a2",
            Some("u1"),
            200,
            r#"{"input_tokens":600,"cached_input_tokens":500,"output_tokens":60,"reasoning_output_tokens":30,"total_tokens":660}"#,
        ),
    ];
    let attributed = attribute_usage_to_prompts(&events, &source("codex"));
    assert_eq!(attributed.len(), 1);
    let (prompt, usage) = &attributed[0];
    assert_eq!(*prompt, (100, "ask".to_string()));
    assert_eq!(usage.output_tokens, 180);
    assert_eq!(
        usage.reasoning_tokens,
        Some(40),
        "both responses reported reasoning, so the sum is reported"
    );
    assert_eq!(usage.provider_total_tokens, Some(1780));
}

#[test]
fn a_request_written_as_two_records_is_charged_once() {
    let tokens = r#"{"input_tokens":7,"output_tokens":2}"#;
    let mut first = assistant_event("a1", Some("u1"), 150, tokens);
    let mut second = assistant_event("a2", Some("u1"), 160, tokens);
    first.request_id = Some("r1".to_string());
    second.request_id = Some("r1".to_string());
    let events = vec![user_event("u1", 100, "ask"), first, second];
    let attributed = attribute_usage_to_prompts(&events, &source("first"));
    assert_eq!(attributed.len(), 1);
    assert_eq!(attributed[0].1.input_tokens, 7);
}

#[test]
fn records_of_one_request_that_disagree_are_charged_to_nobody() {
    let mut first = assistant_event("a1", Some("u1"), 150, r#"{"input_tokens":7}"#);
    let mut second = assistant_event("a2", Some("u1"), 160, r#"{"input_tokens":8}"#);
    first.request_id = Some("r1".to_string());
    second.request_id = Some("r1".to_string());
    let events = vec![user_event("u1", 100, "ask"), first, second];
    assert!(attribute_usage_to_prompts(&events, &source("first")).is_empty());
}

#[test]
fn a_prompt_that_occurs_twice_at_one_time_is_charged_nothing() {
    let events = vec![
        user_event("u1", 100, "ask"),
        user_event("u2", 100, "ask"),
        assistant_event("a1", Some("u1"), 150, r#"{"input_tokens":7}"#),
    ];
    assert!(attribute_usage_to_prompts(&events, &source("first")).is_empty());
}

#[test]
fn a_ttl_bucket_alone_is_not_an_empty_record() {
    let usage = normalize_usage_str(&source("first"),
        r#"{"cache_creation_input_tokens":0,
            "cache_creation":{"ephemeral_5m_input_tokens":10,"ephemeral_1h_input_tokens":0}}"#,
    )
    .unwrap()
    .expect("a reported bucket is usage");
    assert_eq!(usage.cache_write_5m_tokens, Some(10));
    assert!(!usage.is_zero(), "10 tokens were reported");
}

#[test]
fn a_contributor_with_no_cache_evidence_does_not_certify_a_split() {
    let split = normalize_usage_str(&source("first"),
        r#"{"cache_creation_input_tokens":8,
            "cache_creation":{"ephemeral_5m_input_tokens":3,"ephemeral_1h_input_tokens":5}}"#,
    )
    .unwrap()
    .unwrap();
    let silent = normalize_usage_str(&source("first"), r#"{"input_tokens":5,"output_tokens":7}"#)
        .unwrap()
        .unwrap();
    assert!(
        !silent.coverage.has_cache_write_tokens,
        "the record really says nothing about cache writes"
    );

    let total = split.checked_add(&silent).unwrap();
    assert_eq!(total.cache_write_tokens, 8);
    assert_eq!(
        (total.cache_write_5m_tokens, total.cache_write_1h_tokens),
        (None, None),
        "the split is unknown for the pair, not inherited from one side"
    );

    let reported_zero = normalize_usage_str(&source("first"),
        r#"{"cache_creation_input_tokens":0,"input_tokens":5}"#,
    )
    .unwrap()
    .unwrap();
    assert!(reported_zero.coverage.has_cache_write_tokens);
    let total = split.checked_add(&reported_zero).unwrap();
    assert_eq!(
        (total.cache_write_5m_tokens, total.cache_write_1h_tokens),
        (Some(3), Some(5)),
        "a reported zero keeps the split known"
    );
}

fn user_event(message_id: &str, ts_ms: i64, text: &str) -> SessionEvent {
    session_event(message_id, None, ts_ms, "user", text, None)
}

fn assistant_event(
    message_id: &str,
    parent_id: Option<&str>,
    ts_ms: i64,
    token_json: &str,
) -> SessionEvent {
    session_event(
        message_id,
        parent_id,
        ts_ms,
        "assistant",
        "answer",
        Some(token_json),
    )
}

fn session_event(
    message_id: &str,
    parent_id: Option<&str>,
    ts_ms: i64,
    role: &str,
    text: &str,
    token_json: Option<&str>,
) -> SessionEvent {
    SessionEvent {
        id: 0,
        source: "codex".into(),
        session_id: "s1".into(),
        project: None,
        project_key: None,
        cwd: None,
        git_branch: None,
        message_id: Some(message_id.to_string()),
        parent_id: parent_id.map(str::to_string),
        ts_ms,
        role: role.into(),
        kind: "text".into(),
        text: Some(text.to_string()),
        model: None,
        token_json: token_json.map(str::to_string),
        provider: None,
        event_uid: format!("{message_id}:0"),
        tool_use_id: None,
        payload_bytes: None,
        payload_truncated: None,
        payload_hash: None,
        call_index: None,
        event_index: None,
        result_status: None,
        event_source: None,
        error_signal: None,
        subagent_session_id: None,
        agent_id: None,
        request_id: None,
        provider_message_id: None,
        stop_reason: None,
        agent_version: None,
        is_sidechain: None,
        is_meta: None,
        turn_id: None,
        request_span: None,
        raw_kind: None,
        control_kind: None,
    }
}

#[test]
fn accounting_labels_round_trip() {
    for mode in [
        UsageAccounting::PerRequest,
        UsageAccounting::PerMessage,
        UsageAccounting::CumulativeDelta,
        UsageAccounting::ContextProxy,
    ] {
        assert_eq!(UsageAccounting::parse(mode.as_str()), Some(mode));
    }
    assert_eq!(UsageAccounting::parse("per-eon"), None);
}

#[test]
fn coverage_starts_empty() {
    let coverage = UsageCoverage::default();
    assert!(!coverage.has_input_tokens && !coverage.is_complete());
}
