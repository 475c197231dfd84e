use ai_hist::catalog::ShallowSession;
use ai_hist::json::{JsonNumber, JsonValue};
use ai_hist::source_evidence::{
    join_kinds, marker_payload_is_bounded, validate_records, EvidenceKind, EvidenceRecord,
    ObservationKey, FULL_SESSION_KINDS, TOOL_RESULT_FIELDS,
};
use ai_hist::source_intake::{
    apply_source_evidence, apply_source_observations, candidate, check_fence,
    get_source_observation, read_shallow, reconcile, request_db_path, snapshot_of_events,
    stored_format,
    ApplyEvidenceRequest, ApplyObservationsRequest, CanonicalRow, IntakeStatus, ManagedRecord,
    NormalizedSourceEvidence, ObservationState, OwnedSnapshot, RecordSnapshot, SnapshotOwner,
    SourceObservation, StoredFormat,
};
use ai_hist::sources::{observation_key, Connector, ConnectorIdentity, SourceRegistry};
use ai_hist::storage::{
    bounded, changed_file_sessions_after, history_after, latest_history_for_session,
    pending_event_sessions, session_project, SessionRow, MAX_SCAN_LIMIT,
};
use ai_hist::store::{HistoryEntry, SessionLocation, SessionScope, SourceNames};

fn names() -> SourceNames {
    SourceNames {
        claude: "first".to_string(),
    }
}

fn text(value: &str) -> JsonValue {
    JsonValue::Text(value.to_string())
}

fn number(value: i64) -> JsonValue {
    JsonValue::Number(JsonNumber {
        unsigned: u64::try_from(value).ok(),
        signed: Some(value),
        bits: (value as f64).to_bits(),
        text: value.to_string(),
    })
}

fn key() -> ObservationKey {
    ObservationKey {
        source: "first".into(),
        session_id: "s1".into(),
        location: SessionLocation::Remote,
        connector_id: "c".into(),
        connector_instance: "i".into(),
    }
}

fn insert(record: &mut EvidenceRecord, field: &str, value: JsonValue) {
    record.payload.retain(|(name, _)| name != field);
    record.payload.push((field.to_string(), value));
    record.payload.sort_by(|a, b| a.0.cmp(&b.0));
}

fn event_of(fields: Vec<(&str, JsonValue)>) -> EvidenceRecord {
    let mut record = EvidenceRecord {
        kind: EvidenceKind::SessionEvent,
        payload: Vec::new(),
        record_id: None,
        revision_id: None,
    };
    for (field, value) in fields {
        insert(&mut record, field, value);
    }
    record
}

/// A tool-result event with the fidelity fields a plugin may legitimately submit.
fn tool_result_event() -> EvidenceRecord {
    event_of(vec![
        ("source", text("first")),
        ("session_id", text("s1")),
        ("ts_ms", number(1)),
        ("role", text("tool_result")),
        ("kind", text("tool_result")),
        ("event_uid", text("e1")),
        ("tool_use_id", text("toolu_1")),
        ("payload_bytes", number(12)),
        ("payload_truncated", JsonValue::Bool(false)),
        ("payload_hash", text("0123456789abcdef")),
        ("call_index", number(0)),
        ("event_index", number(0)),
        ("result_status", text("completed")),
        ("event_source", text("tool_result")),
    ])
}

fn control_kinds() -> Vec<String> {
    ["meta", "task_notification", "codex_context_wrapper"]
        .into_iter()
        .map(str::to_string)
        .collect()
}

fn validate(record: EvidenceRecord) -> Result<(), String> {
    validate_records(
        &key(),
        &None,
        &vec![EvidenceKind::SessionEvent],
        &control_kinds(),
        &mut vec![record],
    )
}

fn with(field: &str, value: JsonValue) -> EvidenceRecord {
    let mut record = tool_result_event();
    insert(&mut record, field, value);
    record
}

#[test]
fn a_well_formed_tool_result_event_is_accepted() {
    validate(tool_result_event()).expect("the documented shape must pass");
}

#[test]
fn negative_fidelity_counts_are_rejected() {
    for field in ["payload_bytes", "call_index", "event_index"] {
        let error =
            validate(with(field, number(-1))).expect_err("a negative count must be rejected");
        assert!(error.contains("must not be negative"), "{field}: {error}");
    }
}

#[test]
fn values_outside_the_documented_vocabularies_are_rejected() {
    for (field, value) in [
        ("result_status", "successful"),
        ("event_source", "tool_output"),
        ("error_signal", "nonzero_exit"),
    ] {
        let error =
            validate(with(field, text(value))).expect_err("an undocumented word must be rejected");
        assert!(error.contains("unsupported"), "{field}: {error}");
    }
}

/// A user text event as a connector contributes it.
fn user_text_event(control_kind: JsonValue) -> EvidenceRecord {
    event_of(vec![
        ("source", text("first")),
        ("session_id", text("s1")),
        ("ts_ms", number(1)),
        ("role", text("user")),
        ("kind", text("text")),
        ("text", text("<task-notification>done</task-notification>")),
        ("event_uid", text("e1")),
        ("control_kind", control_kind),
    ])
}

#[test]
fn a_control_kind_from_the_vocabulary_is_accepted_on_a_user_text_event() {
    validate(user_text_event(text("task_notification")))
        .expect("a documented control kind on a user text row is the contract");
    validate(user_text_event(JsonValue::Null)).expect("null is a genuine prompt");
}

#[test]
fn an_unknown_control_kind_spelling_is_rejected() {
    for value in ["meta_row", "Meta", ""] {
        let error = validate(user_text_event(text(value)))
            .expect_err("a spelling no classifier produces must be refused");
        assert!(
            error.contains("unsupported control_kind value"),
            "{value}: {error}"
        );
    }
    // A non-string is refused by the column's type check before the vocabulary is
    // consulted; either way it never reaches the table.
    assert!(validate(user_text_event(number(7))).is_err());
}

#[test]
fn a_control_kind_on_an_assistant_or_tool_result_event_is_rejected() {
    let mut assistant = user_text_event(text("meta"));
    insert(&mut assistant, "role", text("assistant"));
    let error = validate(assistant).expect_err("assistant rows never carry a control kind");
    assert!(error.contains("only valid on a user text event"), "{error}");

    let error = validate(with("control_kind", text("codex_context_wrapper")))
        .expect_err("tool results never carry a control kind");
    assert!(error.contains("only valid on a user text event"), "{error}");

    // A user row that is not text either.
    let mut user_tool_result = user_text_event(text("meta"));
    insert(&mut user_tool_result, "kind", text("tool_result"));
    assert!(validate(user_tool_result).is_err());
}

#[test]
fn fidelity_fields_are_rejected_on_a_row_that_is_not_a_tool_result() {
    let mut record = tool_result_event();
    insert(&mut record, "role", text("assistant"));
    insert(&mut record, "kind", text("text"));
    let error = validate(record).expect_err("fidelity on a text row must be rejected");
    assert!(
        error.contains("only valid on a tool_result event"),
        "{error}"
    );
}

#[test]
fn an_explicit_null_fidelity_field_stays_legal_everywhere() {
    let mut record = tool_result_event();
    insert(&mut record, "role", text("assistant"));
    insert(&mut record, "kind", text("text"));
    for field in TOOL_RESULT_FIELDS {
        insert(&mut record, field, JsonValue::Null);
    }
    validate(record).expect("null fidelity fields are legal on any row");
}

#[test]
fn kind_names_are_those_of_the_wire() {
    for (kind, name) in [
        (EvidenceKind::History, "history"),
        (EvidenceKind::SessionEvent, "session_event"),
        (EvidenceKind::ToolCall, "tool_call"),
        (EvidenceKind::FileEdit, "file_edit"),
        (EvidenceKind::Relationship, "relationship"),
        (EvidenceKind::CommitLink, "commit_link"),
        (EvidenceKind::SessionMarker, "session_marker"),
    ] {
        assert_eq!(kind.as_str(), name);
    }
    assert_eq!(
        join_kinds(&FULL_SESSION_KINDS),
        "history, session_event, tool_call, file_edit, relationship"
    );
}

#[test]
fn records_of_another_session_or_kind_are_rejected() {
    assert!(validate(with("session_id", text("other"))).is_err());
    assert!(validate(with("nonsense", text("x"))).is_err());
    let error = validate_records(
        &key(),
        &None,
        &vec![EvidenceKind::History],
        &control_kinds(),
        &mut vec![tool_result_event()],
    )
    .unwrap_err();
    assert!(error.contains("not covered"), "{error}");
    let twice = validate_records(
        &key(),
        &None,
        &vec![EvidenceKind::SessionEvent],
        &control_kinds(),
        &mut vec![tool_result_event(), tool_result_event()],
    );
    assert!(twice.is_err(), "one identity, one record");
}

#[test]
fn a_refused_snapshot_is_completed_up_to_its_fault() {
    let width = EvidenceKind::SessionEvent.columns().split(',').count();
    let given = tool_result_event().payload.len();
    let widths = |records: &Vec<EvidenceRecord>| -> Vec<usize> {
        records.iter().map(|record| record.payload.len()).collect()
    };
    let check = |records: &mut Vec<EvidenceRecord>| {
        validate_records(
            &key(),
            &None,
            &vec![EvidenceKind::SessionEvent],
            &control_kinds(),
            records,
        )
    };
    let named = |uid: &str| with("event_uid", text(uid));
    let mut records = vec![
        named("a"),
        with("session_id", text("other")),
        named("b"),
    ];
    assert!(check(&mut records).is_err());
    assert_eq!(widths(&records), vec![width, given, given]);
    let mut records = vec![named("a"), named("a"), named("b")];
    assert!(check(&mut records).is_err());
    assert_eq!(widths(&records), vec![width, width, given]);
    let mut records = vec![named("a")];
    assert!(validate_records(
        &key(),
        &Some("INVALID_ARGUMENT: bad key".to_string()),
        &vec![EvidenceKind::SessionEvent],
        &control_kinds(),
        &mut records,
    )
    .is_err());
    assert_eq!(widths(&records), vec![given]);
}

#[test]
fn a_validated_record_has_every_column() {
    let mut records = vec![tool_result_event()];
    validate_records(
        &key(),
        &None,
        &vec![EvidenceKind::SessionEvent],
        &control_kinds(),
        &mut records,
    )
    .unwrap();
    let columns: Vec<&str> = EvidenceKind::SessionEvent.columns().split(',').collect();
    for column in columns {
        assert!(
            records[0].payload.iter().any(|(name, _)| name == column),
            "{column}"
        );
    }
}

#[test]
fn marker_payloads_hold_short_texts_only() {
    assert!(marker_payload_is_bounded(&text("short")));
    assert!(!marker_payload_is_bounded(&text(&"x".repeat(100_000))));
    assert!(marker_payload_is_bounded(&JsonValue::Array(vec![
        JsonValue::Null,
        number(1)
    ])));
}

fn evidence(stamp: &str, records: Vec<EvidenceRecord>) -> NormalizedSourceEvidence {
    NormalizedSourceEvidence {
        source_stamp: stamp.to_string(),
        source_bytes: 1,
        covered_kinds: vec![EvidenceKind::SessionEvent],
        records,
    }
}

fn request(revision: &str) -> ApplyEvidenceRequest {
    ApplyEvidenceRequest {
        db_path: None,
        key: key(),
        expected_revision: revision.to_string(),
        include_related: None,
        evidence: evidence("v1", vec![tool_result_event()]),
    }
}

#[test]
fn a_snapshot_is_refused_before_anything_is_opened() {
    let refused = |change: &dyn Fn(&mut ApplyEvidenceRequest), exists: bool| {
        let mut asked = request("r1");
        change(&mut asked);
        apply_source_evidence(asked, &None, &control_kinds(), exists).unwrap_err()
    };
    assert_eq!(
        refused(&|asked| asked.expected_revision.clear(), true),
        "INVALID_ARGUMENT: expected_revision is required"
    );
    assert_eq!(
        refused(&|_| {}, false),
        "SESSION_NOT_FOUND: source observation is missing"
    );
    assert_eq!(
        refused(&|asked| asked.evidence.source_bytes = -1, true),
        "INVALID_ARGUMENT: negative source_bytes"
    );
    assert_eq!(
        refused(&|asked| asked.evidence.source_stamp.clear(), true),
        "INVALID_ARGUMENT: source_stamp is required"
    );
    let bad_key = Some("bad key".to_string());
    assert_eq!(
        apply_source_evidence(request("r1"), &bad_key, &control_kinds(), true).unwrap_err(),
        "bad key"
    );
    let ready = apply_source_evidence(request("r1"), &None, &control_kinds(), true).unwrap();
    assert_eq!(ready.records.len(), 1);
}

#[test]
fn a_request_that_declines_related_sessions_gets_none() {
    let edge = EvidenceRecord {
        kind: EvidenceKind::Relationship,
        payload: Vec::new(),
        record_id: None,
        revision_id: None,
    };
    let mut given = evidence("v1", vec![tool_result_event(), edge]);
    given.covered_kinds.push(EvidenceKind::Relationship);
    let kept = ai_hist::source_intake::restrict_related(given, false);
    assert_eq!(kept.covered_kinds, vec![EvidenceKind::SessionEvent]);
    assert_eq!(kept.records.len(), 1);
}

#[test]
fn a_fence_holds_a_changed_observation_off() {
    let some = |value: &str| Some(value.to_string());
    assert!(check_fence("r1", &some("r1"), &some("available")).is_ok());
    assert!(check_fence("r1", &some("r2"), &some("available"))
        .unwrap_err()
        .starts_with("SOURCE_REVISION_CONFLICT"));
    assert!(check_fence("r1", &None, &some("available"))
        .unwrap_err()
        .starts_with("SOURCE_REVISION_CONFLICT"));
    assert!(check_fence("r1", &some("r1"), &None)
        .unwrap_err()
        .starts_with("SESSION_NOT_FOUND"));
    assert!(check_fence("r1", &some("r1"), &some("withdrawn"))
        .unwrap_err()
        .starts_with("CONNECTOR_NOT_CONFIGURED"));
}

#[test]
fn an_observation_without_a_database_is_empty() {
    let empty = get_source_observation::<u8, u8>(&None, None).unwrap();
    assert!(empty.observation.is_none() && empty.revision.is_none());
    let bad = get_source_observation::<u8, u8>(&Some("bad key".to_string()), None);
    assert_eq!(bad.unwrap_err(), "bad key");
    let read = get_source_observation(
        &None,
        Some(Ok(ObservationState {
            observation: Some(1_u8),
            checkpoint: Some(2_u8),
            revision: Some("r".to_string()),
        })),
    )
    .unwrap();
    assert_eq!(read.observation, Some(1));
    assert_eq!(read.checkpoint, Some(2));
    assert_eq!(request_db_path(&None, "/d.db"), "/d.db");
    assert_eq!(request_db_path(&Some("/x.db".to_string()), "/d.db"), "/x.db");
}

#[test]
fn a_first_acquisition_writes_what_is_not_there() {
    let given = evidence("v1", vec![tool_result_event()]);
    let plan = reconcile(&key(), &given, &Vec::new(), &Vec::new(), &Vec::new(), &None);
    assert_eq!(plan.status, IntakeStatus::Hydrated);
    assert_eq!(plan.status.as_str(), "hydrated");
    assert_eq!(plan.write.len(), 1);
    assert!(plan.remove.is_empty());
    assert!(!plan.full);
    assert!(plan.own.records[0].managed);
}

#[test]
fn a_row_that_nobody_owns_is_not_touched() {
    let given = evidence("v1", vec![tool_result_event()]);
    let rows = vec![CanonicalRow {
        identity: given.records[0].identity(),
        exists: true,
        matches: false,
    }];
    let plan = reconcile(&key(), &given, &Vec::new(), &Vec::new(), &rows, &None);
    assert!(plan.write.is_empty());
    assert!(plan.remove.is_empty());
    assert!(!plan.own.records[0].managed);
}

#[test]
fn a_record_that_is_gone_is_removed_where_it_was_owned() {
    let held = tool_result_event();
    let identity = held.identity();
    let owned = vec![OwnedSnapshot {
        owner: SnapshotOwner {
            location: SessionLocation::Remote,
            connector_id: "c".to_string(),
            connector_instance: "i".to_string(),
        },
        snapshot: RecordSnapshot {
            covered_kinds: vec![EvidenceKind::SessionEvent],
            records: vec![ManagedRecord {
                record: held,
                managed: true,
            }],
        },
    }];
    let rows = vec![CanonicalRow {
        identity: identity.clone(),
        exists: true,
        matches: true,
    }];
    let previous = Some(Some("v1".to_string()));
    let empty = evidence("v2", Vec::new());
    let plan = reconcile(&key(), &empty, &owned, &Vec::new(), &rows, &previous);
    assert_eq!(plan.status, IntakeStatus::Updated);
    assert_eq!(plan.remove.len(), 1);
    assert_eq!(plan.remove[0].identity, identity);
    let same = evidence("v1", vec![tool_result_event()]);
    let plan = reconcile(&key(), &same, &owned, &Vec::new(), &rows, &previous);
    assert_eq!(plan.status, IntakeStatus::Unchanged);
    assert!(plan.remove.is_empty());
}

#[test]
fn stored_snapshots_are_read_by_their_format() {
    let of = |format: &str| JsonValue::Object(vec![("format".to_string(), text(format))]);
    assert_eq!(stored_format(&of("records")), StoredFormat::Records);
    assert_eq!(stored_format(&of("events")), StoredFormat::Events);
    assert_eq!(stored_format(&JsonValue::Null), StoredFormat::Unknown);
    let events = JsonValue::Object(vec![
        (
            "events".to_string(),
            JsonValue::Array(vec![JsonValue::Object(vec![(
                "event_uid".to_string(),
                text("e1"),
            )])]),
        ),
        ("format".to_string(), text("events")),
        ("managed".to_string(), JsonValue::Array(vec![text("e1")])),
    ]);
    let snapshot = snapshot_of_events(&events).unwrap();
    assert_eq!(snapshot.covered_kinds, vec![EvidenceKind::SessionEvent]);
    assert!(snapshot.records[0].managed);
    assert!(snapshot_of_events(&of("events")).is_err());
}

fn observation(source: &str, session_id: &str) -> SourceObservation {
    SourceObservation {
        session: ShallowSession {
            source: source.to_string(),
            session_id: session_id.to_string(),
            cwd: Some("/work".to_string()),
            git_branch: Some("main".to_string()),
            first_activity_ms: Some(1),
            last_activity_ms: Some(5),
            first_prompt: Some("hello".to_string()),
            last_assistant_text: Some("done".to_string()),
            models: vec!["m1".to_string(), "m2".to_string()],
            originator: Some("cli".to_string()),
            agent_version: Some("2.0".to_string()),
            repo_url: Some("git@host:p".to_string()),
            initial_commit: Some("abc".to_string()),
            workspace_roots: vec!["/work".to_string()],
            project_key: Some("p".to_string()),
            project_key_method: Some("repo".to_string()),
            raw_path: None,
            source_stamp: None,
            discovery_state: "full".to_string(),
            locations: Vec::new(),
            from_cache: true,
        },
        raw_locator: None,
    }
}

fn batch(observations: Vec<SourceObservation>) -> ApplyObservationsRequest {
    ApplyObservationsRequest {
        db_path: None,
        connector_id: "c".to_string(),
        connector_instance: "i".to_string(),
        location: SessionLocation::Remote,
        observations,
    }
}

#[test]
fn a_batch_is_grouped_by_source_in_the_order_of_their_names() {
    let request = batch(vec![
        observation("relay", "r"),
        observation("first", "f"),
        observation("codex", "c"),
        observation("first", "g"),
    ]);
    let groups = apply_source_observations(&request, &None, &vec![None, None, None, None], &names()).unwrap();
    let told: Vec<(String, usize)> = groups
        .iter()
        .map(|group| (group.source.clone(), group.rows.len()))
        .collect();
    assert_eq!(
        told,
        vec![
            ("codex".to_string(), 1),
            ("first".to_string(), 2),
            ("relay".to_string(), 1)
        ]
    );
    let row = &groups[0].rows[0];
    assert_eq!(row.session.discovery_state, "shallow");
    assert_eq!(row.session.locations, vec!["remote".to_string()]);
    assert!(!row.session.from_cache);
    let other = SourceNames {
        claude: "zeta".to_string(),
    };
    let request = batch(vec![observation("zeta", "z"), observation("codex", "c")]);
    let groups = apply_source_observations(&request, &None, &vec![None, None], &other).unwrap();
    assert_eq!(groups[1].source, "zeta");
}

#[test]
fn an_acquired_row_keeps_what_the_catalog_knows_of_its_session() {
    let request = batch(vec![observation("codex", "c")]);
    let groups = apply_source_observations(&request, &None, &vec![None], &names()).unwrap();
    let session = &groups[0].rows[0].session;
    assert_eq!(session.cwd.as_deref(), Some("/work"));
    assert_eq!(session.git_branch.as_deref(), Some("main"));
    assert_eq!(session.first_activity_ms, Some(1));
    assert_eq!(session.last_activity_ms, Some(5));
    assert_eq!(session.first_prompt.as_deref(), Some("hello"));
    assert_eq!(session.last_assistant_text.as_deref(), Some("done"));
    assert_eq!(session.models, vec!["m1".to_string(), "m2".to_string()]);
    assert_eq!(session.originator.as_deref(), Some("cli"));
    assert_eq!(session.agent_version.as_deref(), Some("2.0"));
    assert_eq!(session.repo_url.as_deref(), Some("git@host:p"));
    assert_eq!(session.initial_commit.as_deref(), Some("abc"));
    assert_eq!(session.workspace_roots, vec!["/work".to_string()]);
    assert_eq!(session.project_key.as_deref(), Some("p"));
    assert_eq!(session.project_key_method.as_deref(), Some("repo"));

    let read = read_shallow(&groups[0].rows, "c").unwrap();
    assert_eq!(read.first_prompt.as_deref(), Some("hello"));
    assert_eq!(read.discovery_state, "shallow");
    assert!(read_shallow(&groups[0].rows, "absent").is_none());

    let plain = SourceObservation::from(read);
    assert_eq!(plain.session.session_id, "c");
    assert_eq!(plain.raw_locator, None);
}

#[test]
fn a_bad_row_refuses_its_whole_batch() {
    let refused = |rows: Vec<SourceObservation>, faults: Vec<Option<String>>| {
        apply_source_observations(&batch(rows), &None, &faults, &names()).unwrap_err()
    };
    assert_eq!(
        refused(
            vec![observation("codex", "a"), observation("codex", "a")],
            vec![None, None]
        ),
        "INVALID_ARGUMENT: duplicate source observation"
    );
    assert_eq!(
        refused(vec![observation("nope", "a")], vec![None]),
        "INVALID_ARGUMENT: unknown source"
    );
    assert_eq!(
        refused(
            vec![observation("codex", "a")],
            vec![Some("bad key".to_string())]
        ),
        "bad key"
    );
    let mut row = observation("codex", "a");
    row.raw_locator = Some("a\0b".to_string());
    assert_eq!(
        refused(vec![row], vec![None]),
        "INVALID_ARGUMENT: invalid observation locator"
    );
}

#[test]
fn an_empty_batch_still_validates_its_connector() {
    let empty = batch(Vec::new());
    let refused = Some("bad connector".to_string());
    assert_eq!(
        apply_source_observations(&empty, &refused, &Vec::new(), &names()).unwrap_err(),
        "bad connector"
    );
    let groups = apply_source_observations(&empty, &None, &Vec::new(), &names()).unwrap();
    assert!(groups.is_empty());
}

#[test]
fn a_row_without_a_stamp_is_stamped_by_its_digest() {
    let row = observation("codex", "a");
    let made = candidate(&row, b"abc");
    assert_eq!(made.locator, "a");
    assert_eq!(made.recency_hint_ms, Some(5));
    assert_eq!(
        made.stamp,
        "ba7816bf8f01cfea414140de5dae2223b00361a396177a9cb410ff61f20015ad"
    );
    let mut stamped = observation("codex", "a");
    stamped.session.source_stamp = Some("7".to_string());
    stamped.session.raw_path = Some("/p".to_string());
    let made = candidate(&stamped, b"abc");
    assert_eq!(made.stamp, "7");
    assert_eq!(made.locator, "/p");
}

fn connector(source: &str, location: SessionLocation, id: &str) -> Connector {
    Connector {
        source: source.to_string(),
        location,
        connector_id: id.to_string(),
        connector_instance: "i".to_string(),
    }
}

fn identity(id: &str) -> ConnectorIdentity {
    ConnectorIdentity::new(id.to_string(), "i".to_string())
}

#[test]
fn a_remote_adapter_is_called_only_where_it_was_selected() {
    let mut registry = SourceRegistry::new();
    registry
        .register(connector("codex", SessionLocation::Local, "local"), &None)
        .unwrap();
    registry
        .register(connector("codex", SessionLocation::Remote, "cloud"), &None)
        .unwrap();
    assert!(registry
        .register(connector("codex", SessionLocation::Remote, "cloud"), &None)
        .is_err());
    let bad_key = Some("bad key".to_string());
    assert_eq!(
        registry.register(connector("grok", SessionLocation::Remote, ""), &bad_key),
        Err("bad key".to_string())
    );
    assert_eq!(registry.connectors.len(), 2);
    let none: Vec<String> = Vec::new();
    assert_eq!(
        registry.select(&names(), SessionScope::All, &none, &Vec::new()),
        Ok(vec![0])
    );
    assert_eq!(
        registry.select(&names(), SessionScope::All, &none, &vec![identity("cloud")]),
        Ok(vec![0, 1])
    );
    assert_eq!(
        registry.sync_at(&names(), SessionScope::Local, &Vec::new()),
        Ok(vec![0])
    );
    assert!(registry
        .discover_at(&names(), SessionScope::Remote, &none, &Vec::new())
        .unwrap_err()
        .starts_with("CONNECTOR_NOT_CONFIGURED"));
    assert!(registry
        .select(
            &names(),
            SessionScope::All,
            &vec!["nope".to_string()],
            &Vec::new()
        )
        .unwrap_err()
        .contains("unknown history source nope"));
    assert_eq!(
        registry.hydrate_at(&names(), SessionScope::Remote, "codex", &identity("cloud")),
        Ok(1)
    );
    assert!(registry
        .hydrate_at(&names(), SessionScope::All, "codex", &identity("cloud"))
        .is_err());
    let observed = observation_key(&registry.connectors[1], "s");
    assert_eq!(observed.connector_id, "cloud");
    assert_eq!(observed.session_id, "s");
}

fn row(source: &str, session_id: &str, id: i64) -> SessionRow {
    SessionRow {
        source: source.to_string(),
        session_id: session_id.to_string(),
        id,
    }
}

#[test]
fn scans_group_by_session_and_continue_behind_an_id() {
    let rows = vec![
        row("codex", "a", 1),
        row("codex", "b", 2),
        row("codex", "a", 3),
        row("first", "a", 4),
        row("codex", "b", 5),
    ];
    let changed: Vec<(String, String, i64)> = changed_file_sessions_after(&rows, 1, 10)
        .into_iter()
        .map(|session| (session.source, session.session_id, session.max_id))
        .collect();
    assert_eq!(
        changed,
        vec![
            ("codex".to_string(), "a".to_string(), 3),
            ("first".to_string(), "a".to_string(), 4),
            ("codex".to_string(), "b".to_string(), 5),
        ]
    );
    assert_eq!(
        pending_event_sessions(&rows, 1, 2),
        vec![
            ("b".to_string(), "codex".to_string(), 2),
            ("a".to_string(), "codex".to_string(), 3),
        ]
    );
    assert_eq!(bounded(0), 1);
    assert_eq!(bounded(1_000_000), MAX_SCAN_LIMIT);
}

fn entry(id: i64, session_id: Option<&str>, project: Option<&str>) -> HistoryEntry {
    HistoryEntry {
        id,
        source: "codex".to_string(),
        session_id: session_id.map(str::to_string),
        project: project.map(str::to_string),
        prompt: "x".to_string(),
        prompt_hash: None,
        timestamp_ms: 1,
    }
}

#[test]
fn history_scans_read_by_id() {
    let rows = vec![
        entry(3, Some("s"), Some("  ")),
        entry(1, Some("s"), None),
        entry(2, Some("s"), Some("/p")),
    ];
    assert_eq!(history_after(&rows, 0, 2), vec![1, 2]);
    assert_eq!(history_after(&rows, 2, 10), vec![0]);
    assert_eq!(
        session_project(&rows, "codex", "s"),
        Some("/p".to_string()),
        "spaces are no project"
    );
    assert_eq!(latest_history_for_session(&rows, "codex", "s"), Some(0));
    assert_eq!(latest_history_for_session(&rows, "codex", "t"), None);
}

#[test]
fn an_identity_is_the_json_of_the_kind_and_its_key_columns() {
    let mut record = EvidenceRecord {
        kind: EvidenceKind::ToolCall,
        payload: Vec::new(),
        record_id: None,
        revision_id: None,
    };
    insert(&mut record, "source", text("codex"));
    insert(&mut record, "session_id", text("a\"b"));
    assert_eq!(
        record.identity(),
        r#"["tool_call",["codex","a\"b",null]]"#
    );
    let mut prompt = EvidenceRecord {
        kind: EvidenceKind::History,
        payload: Vec::new(),
        record_id: None,
        revision_id: None,
    };
    insert(&mut prompt, "timestamp_ms", number(-7));
    assert_eq!(prompt.identity(), r#"["history",[null,-7,null]]"#);
}

#[test]
fn a_validated_record_can_be_stored() {
    let mut records = vec![tool_result_event()];
    validate_records(
        &key(),
        &None,
        &vec![EvidenceKind::SessionEvent],
        &control_kinds(),
        &mut records,
    )
    .unwrap();
    let record = &records[0];
    let columns = record.kind.columns().split(',').count();
    assert_eq!(record.write().params.len(), columns);
    assert_eq!(record.key_sql().params.len(), 3);
    assert!(record.is_stored().sql.contains("session_events"));
}
