use ai_hist::catalog::{
    catalog_changes, catalog_fingerprint, digest_row, rolling_tick, CatalogFingerprint,
    CatalogQuery, CatalogRow, CatalogSession, CatalogWalk, ColumnValue, DiscoveryState,
    ShallowSession, SweptCatalog, SyncTick,
};
use ai_hist::evidence::{
    session_evidence, FileEdit, Marker, PromptRow, RelationshipGraph, RelationshipSide, SessionMarker, SessionQuery,
    SessionRelationship, SessionTables,
};
use ai_hist::json::JsonValue;
use ai_hist::messages::Role;
use ai_hist::session_store::{
    Capability, DiscoveryFault, DiscoveryOptions, DiscoverySummary, EngineFailure, Error,
    receive_deadline, receive_step, receive_wait, HydrateOptions, HydrateReply, HydrateRequest, HydrateSessionResult, HydrateStatus, LockWait,
    MessageIdOrigin, Opening, Otherwise, ReceiveStep, Received, SchemaReads, SessionLookup, SessionRef, SessionStore,
    Source, StopToken, StoreOptions, SyncOptions, TranscriptStatus, WatchScope, WatchedPath, ALL_SOURCES,
};
use ai_hist::source_evidence::EvidenceKind;
use ai_hist::store::{
    SessionEvent, SessionFileEdit, SessionToolCall, SourceNames, SOURCE_CHOICES,
};
use ai_hist::usage::UsageAccounting;
use ai_hist::watch::WatchRoot;

fn names() -> SourceNames {
    SourceNames {
        claude: "first".to_string(),
    }
}

/// The harnesses whose files hold one session each.
fn harnesses() -> Vec<String> {
    vec!["first".to_string(), "grok".to_string()]
}

fn store_at(path: &str, read_only: bool) -> SessionStore<u8> {
    let mut opts = StoreOptions::default();
    opts.db_path = Some(path.to_string());
    opts.read_only = read_only;
    let opening = if read_only {
        Opening::Readable(SchemaReads {
            events: true,
            evidence: true,
            relationships: true,
            usage: true,
        })
    } else {
        Opening::Writable
    };
    SessionStore::open(opts, "/default.db", 7, &opening).unwrap()
}

#[test]
fn every_source_is_in_all_and_in_the_ledger_registry() {
    for source in ALL_SOURCES {
        let listed = match source {
            Source::Claude
            | Source::Codex
            | Source::Cursor
            | Source::Grok
            | Source::Relay
            | Source::Trajectory
            | Source::OpenCode => ALL_SOURCES.contains(&source),
            _ => false,
        };
        assert!(listed, "{source:?} is missing from the list");
    }
    let given = names();
    let mut labels: Vec<&str> = ALL_SOURCES
        .iter()
        .map(|source| source.as_str(&given))
        .collect();
    labels.sort_unstable();
    labels.dedup();
    let mut choices: Vec<&str> = SOURCE_CHOICES.to_vec();
    choices.push(given.claude.as_str());
    choices.sort_unstable();
    assert_eq!(labels, choices, "the two lists name different sources");
}

#[test]
fn every_source_declares_capabilities() {
    let given = names();
    let declared = vec![EvidenceKind::History];
    for source in ALL_SOURCES {
        let capabilities = source.capabilities(&given, &declared, &harnesses(), ());
        assert_eq!(capabilities.source, source);
        assert_eq!(Source::parse(source.as_str(&given), &given), Some(source));
    }
    assert!(
        Source::Claude
            .capabilities(&given, &declared, &harnesses(), ())
            .hydrates_by_path
    );
    let codex = Source::Codex.capabilities(&given, &declared, &harnesses(), ());
    assert!(!codex.hydrates_by_path);
    assert_eq!(codex.message_ids, MessageIdOrigin::Synthesized);
    assert_eq!(
        codex.usage_accounting,
        Some(UsageAccounting::CumulativeDelta)
    );
    assert_eq!(
        Source::Grok
            .capabilities(&given, &declared, &harnesses(), "spawned")
            .relationships,
        "spawned"
    );
    assert!(Source::parse("nope", &given).is_none());
    assert_eq!(
        Source::from_str("nope", &given).unwrap_err().to_string(),
        "INVALID_ARGUMENT: unknown source `nope`"
    );
}

#[test]
fn sources_without_discovery_declare_their_prompts() {
    for source in [Source::Trajectory, Source::Relay] {
        let capabilities = source.capabilities(&names(), &Vec::new(), &harnesses(), ());
        assert_eq!(capabilities.evidence_kinds, vec![EvidenceKind::History]);
    }
    let cursor = Source::Cursor.capabilities(&names(), &Vec::new(), &harnesses(), ());
    assert!(cursor.evidence_kinds.is_empty());
    let grok = Source::Grok.capabilities(&names(), &Vec::new(), &harnesses(), ());
    assert_eq!(grok.evidence_kinds, vec![EvidenceKind::SessionMarker]);
}

#[test]
fn watched_paths_are_the_roots_as_they_are_registered() {
    let roots = vec![
        WatchRoot::file("/h/history.jsonl".to_string()),
        WatchRoot::tree("/h/sessions".to_string()),
        WatchRoot::directory("/h".to_string()),
    ];
    let capabilities = Source::Codex.capabilities(&names(), &Vec::new(), &harnesses(), ());
    let mine = capabilities.watch_roots(&roots);
    let scopes: Vec<(String, WatchScope)> = mine
        .into_iter()
        .map(|root| (root.path, root.scope))
        .collect();
    assert_eq!(
        scopes,
        vec![
            ("/h/history.jsonl".to_string(), WatchScope::File),
            ("/h/sessions".to_string(), WatchScope::Tree),
            ("/h".to_string(), WatchScope::Directory),
        ]
    );
    let one = WatchedPath::from_root(&roots[1]);
    assert_eq!(one.scope, WatchScope::Tree);
}

#[test]
fn an_oversized_lock_timeout_is_clamped_not_a_panic() {
    let store = store_at("/x.db", false);
    let empty = catalog_fingerprint(&Vec::new());
    let report = store
        .sync(&names(), true, &empty, &empty, 0)
        .expect("an unlocked store syncs");
    assert!(report.swept);
    let week = 7 * 24 * 60 * 60 * 1_000;
    let wait = LockWait::new(5, u64::MAX);
    assert_eq!(wait.deadline, 5 + week);
    assert_eq!(LockWait::new(5, 0).deadline, 5);
}

#[test]
fn cancellation_after_lock_contention_precedes_the_retry_deadline() {
    let wait = LockWait::new(0, 0);
    assert!(matches!(
        wait.after_contention(10, Some("stopped"), "/x.db"),
        Err(Error::Cancelled(_))
    ));
    let locked = wait.after_contention(10, None, "/x.db").unwrap_err();
    assert_eq!(
        locked,
        Error::SyncLocked {
            path: "/x.db".to_string(),
            waited_ms: 10,
        }
    );
    let longer = LockWait::new(0, 250);
    assert_eq!(longer.after_contention(0, None, "/x.db"), Ok(100));
    assert_eq!(longer.after_contention(200, None, "/x.db"), Ok(50));
}

#[test]
fn a_path_reference_is_refused_where_a_path_names_no_one_session() {
    let store = store_at("/x.db", false);
    let by_path = SessionRef::path(Source::OpenCode, "/h/opencode.db");
    let read = store
        .session_lookup(&names(), &by_path, &harnesses())
        .unwrap_err();
    assert_eq!(read.code(), "HYDRATION_UNSUPPORTED");
    let hydrated = store
        .hydrate_request(
            &names(),
            &by_path,
            &HydrateOptions::default(),
            &harnesses(),
        )
        .unwrap_err();
    assert_eq!(hydrated.code(), read.code(), "one rule, one error");
    assert_eq!(
        read.message(),
        "opencode sessions cannot be named by path; known harnesses: first, grok"
    );
    // Both sessions are still reachable the way the provider names them.
    for id in ["a", "b"] {
        let lookup = store
            .session_lookup(
                &names(),
                &SessionRef::id(Source::OpenCode, id),
                &harnesses(),
            )
            .unwrap();
        match lookup {
            SessionLookup::ById { source, session_id } => {
                assert_eq!(source, "opencode");
                assert_eq!(session_id, id);
            }
            other => panic!("{other:?}"),
        }
    }
    let lookup = store
        .session_lookup(
            &names(),
            &SessionRef::path(Source::Claude, "/nowhere/x.jsonl"),
            &harnesses(),
        )
        .unwrap();
    assert!(matches!(lookup, SessionLookup::ByPath { .. }));
}

#[test]
fn an_empty_source_allowlist_yields_nothing() {
    let mut query = CatalogQuery::default();
    let all = query.list_options(&names()).expect("every source");
    assert!(all.sources.is_empty());
    assert_eq!(all.limit, 200);
    query.sources = Some(Vec::new());
    assert!(query.list_options(&names()).is_none());
    query.sources = Some(vec![Source::Codex]);
    query.page_size = 5_000;
    let one = query.list_options(&names()).unwrap();
    assert_eq!(one.sources, vec!["codex".to_string()]);
    assert_eq!(one.limit, 1_000);

    let store = store_at("/x.db", false);
    let mut opts = DiscoveryOptions::default();
    opts.sources = Some(Vec::new());
    assert!(store.discovery_request(&names(), &opts).unwrap().is_none());
}

fn shallow(source: &str, session_id: &str) -> ShallowSession {
    ShallowSession {
        source: source.to_string(),
        session_id: session_id.to_string(),
        cwd: Some("/tmp/p".to_string()),
        git_branch: None,
        first_activity_ms: None,
        last_activity_ms: Some(1),
        first_prompt: None,
        last_assistant_text: None,
        models: Vec::new(),
        originator: None,
        agent_version: None,
        repo_url: None,
        initial_commit: None,
        workspace_roots: Vec::new(),
        project_key: None,
        project_key_method: None,
        raw_path: None,
        source_stamp: None,
        discovery_state: "full".to_string(),
        locations: Vec::new(),
        from_cache: false,
    }
}

#[test]
fn a_catalog_walk_hands_out_every_row_of_every_page() {
    let mut walk: CatalogWalk<u8> = CatalogWalk::new(false);
    assert!(walk.needs_page());
    walk.fill(vec![shallow("first", "a")], Some(1));
    assert!(!walk.needs_page());
    assert_eq!(walk.next_row(&names()).unwrap().unwrap().session_id, "a");
    assert!(walk.needs_page());
    assert_eq!(walk.take_cursor(), Some(1));
    walk.fill(vec![shallow("codex", "b"), shallow("nope", "c")], None);
    assert_eq!(walk.next_row(&names()).unwrap().unwrap().session_id, "b");
    let unknown = walk.next_row(&names()).unwrap().unwrap_err();
    assert_eq!(
        unknown.message(),
        "catalog row nope/c names a source this build does not know"
    );
    assert!(!walk.needs_page());
    assert!(walk.next_row(&names()).is_none());
    let nothing: CatalogWalk<u8> = CatalogWalk::new(true);
    assert!(!nothing.needs_page());
}

#[test]
fn a_row_of_an_unknown_source_ends_the_walk() {
    let mut walk: CatalogWalk<u8> = CatalogWalk::new(false);
    walk.fill(
        vec![shallow("codex", "a"), shallow("nope", "b"), shallow("grok", "c")],
        Some(7),
    );
    assert_eq!(walk.next_row(&names()).unwrap().unwrap().session_id, "a");
    let unknown = walk.next_row(&names()).unwrap().unwrap_err();
    assert_eq!(
        unknown.to_string(),
        "QUERY_FAILED: catalog row nope/b names a source this build does not know"
    );
    assert!(!walk.needs_page());
    assert_eq!(walk.take_cursor(), None);
    assert!(walk.next_row(&names()).is_none());
    assert!(walk.next_row(&names()).is_none());
}

#[test]
fn a_catalog_row_that_was_read_shallowly_says_so() {
    let mut row = shallow("grok", "g");
    row.discovery_state = "shallow".to_string();
    let session = CatalogSession::from_row(row, &names()).unwrap();
    assert_eq!(session.discovery_state, DiscoveryState::Shallow);
    assert_eq!(session.session_ref(), SessionRef::id(Source::Grok, "g"));
}

fn catalog_row(source: &str, session_id: &str, stamp: i64) -> CatalogRow {
    CatalogRow {
        source: source.to_string(),
        session_id: session_id.to_string(),
        values: vec![ColumnValue::Integer(stamp), ColumnValue::Null],
    }
}

fn ids(changed: &[SessionRef]) -> Vec<String> {
    let mut ids: Vec<String> = changed
        .iter()
        .map(|r| match r {
            SessionRef::Id { session_id, .. } => session_id.clone(),
            _ => unreachable!(),
        })
        .collect();
    ids.sort();
    ids
}

fn stamps(reading: &CatalogFingerprint) -> Vec<(String, String, String)> {
    reading
        .stamps
        .iter()
        .map(|stamp| {
            (
                stamp.source.clone(),
                stamp.session_id.clone(),
                stamp.digest.clone(),
            )
        })
        .collect()
}

#[test]
fn a_failed_tick_keeps_the_baseline_for_the_next_report() {
    let reported = catalog_fingerprint(&vec![catalog_row("first", "known", 1)]);
    let kept = stamps(&reported);
    let mut base = Some(reported);

    // The tick fails after committing a row.
    let failed = rolling_tick(&mut base, Err::<Option<SweptCatalog>, &str>("read failed"));
    assert!(failed.is_err());
    assert_eq!(
        stamps(base.as_ref().unwrap()),
        kept,
        "the baseline survives the failure"
    );

    // A contended tick touches nothing either.
    let (contended, changed) = rolling_tick(&mut base, Ok::<_, &str>(None)).unwrap();
    assert!(contended.contended);
    assert!(changed.is_empty());
    assert_eq!(stamps(base.as_ref().unwrap()), kept);

    // The next successful tick reports the row the failed one committed, plus its own,
    // and rolls the baseline forward.
    let rows = vec![
        catalog_row("first", "committed-then-failed", 1),
        catalog_row("first", "known", 1),
        catalog_row("first", "this-tick", 1),
    ];
    let after = catalog_fingerprint(&rows);
    let rolled = stamps(&after);
    let changed = catalog_changes(base.as_ref().unwrap(), &after, &names());
    let (outcome, changed) = rolling_tick(
        &mut base,
        Ok::<_, &str>(Some(SweptCatalog {
            tick: SyncTick {
                attempted: true,
                swept: true,
            },
            after,
            changed,
        })),
    )
    .unwrap();
    assert!(outcome.swept);
    assert_eq!(ids(&changed), vec!["committed-then-failed", "this-tick"]);
    assert_eq!(stamps(base.as_ref().unwrap()), rolled);

    // An unswept tick keeps the baseline where the last swept one left it.
    let now = catalog_fingerprint(&rows);
    let changed = catalog_changes(base.as_ref().unwrap(), &now, &names());
    let (outcome, changed) = rolling_tick(
        &mut base,
        Ok::<_, &str>(Some(SweptCatalog {
            tick: SyncTick {
                attempted: true,
                swept: false,
            },
            after: now,
            changed,
        })),
    )
    .unwrap();
    assert!(outcome.skipped_unchanged);
    assert!(changed.is_empty());
    assert_eq!(stamps(base.as_ref().unwrap()), rolled);
}

#[test]
fn a_sweep_reports_the_rows_that_moved_and_no_others() {
    let store = store_at("/x.db", false);
    let before = catalog_fingerprint(&vec![
        catalog_row("codex", "child", 1),
        catalog_row("codex", "quiet", 1),
    ]);
    let after = catalog_fingerprint(&vec![
        catalog_row("codex", "child", 2),
        catalog_row("codex", "quiet", 1),
    ]);
    let report = store.sync(&names(), true, &before, &after, 9).unwrap();
    assert!(report.swept);
    assert_eq!(report.changed, vec![SessionRef::id(Source::Codex, "child")]);
    assert_eq!(report.head_revision, 9);
    let again = store.sync(&names(), true, &after, &after, 9).unwrap();
    assert!(again.changed.is_empty());
}

#[test]
fn rows_of_different_values_have_different_digests() {
    let row = |values: Vec<ColumnValue>| CatalogRow {
        source: "codex".to_string(),
        session_id: "s".to_string(),
        values,
    };
    let digests: Vec<String> = vec![
        row(vec![ColumnValue::Null]),
        row(vec![ColumnValue::Integer(0)]),
        row(vec![ColumnValue::Real(0)]),
        row(vec![ColumnValue::Bytes(Vec::new())]),
        row(vec![ColumnValue::Bytes(vec![0])]),
        row(vec![ColumnValue::Null, ColumnValue::Null]),
    ]
    .iter()
    .map(digest_row)
    .collect();
    for (i, digest) in digests.iter().enumerate() {
        assert_eq!(digest.len(), 64);
        assert!(!digests[..i].contains(digest), "row {i}");
    }
}

fn no_tables() -> SessionTables<u8> {
    SessionTables {
        prompts: Vec::new(),
        events: Vec::new(),
        text_bytes: Vec::new(),
        user_turns: Vec::new(),
        tool_calls: Vec::new(),
        file_edits: Vec::new(),
        markers: Vec::new(),
        graph: RelationshipGraph {
            as_parent: Vec::new(),
            as_child: Vec::new(),
            continuity: Vec::new(),
            diagnostics: Vec::new(),
        },
    }
}

fn prompt_row(prompt: &str, hash: Option<&str>, at: i64) -> PromptRow {
    PromptRow {
        prompt: Some(prompt.to_string()),
        prompt_hash: hash.map(str::to_string),
        prompt_bytes: prompt.len() as i64,
        project: Some("/tmp/p".to_string()),
        timestamp_ms: at,
    }
}

fn marker(kind: &str, text: Option<&str>) -> SessionMarker {
    SessionMarker {
        marker_uid: "mk".to_string(),
        ts_ms: Some(5),
        message_id: None,
        parent_id: None,
        turn_id: None,
        kind: kind.to_string(),
        subkind: None,
        text: text.map(str::to_string),
        payload_json: None,
    }
}

#[test]
fn a_trajectory_session_reads_its_prompt_back() {
    let coverage = Source::Trajectory
        .capabilities(&names(), &Vec::new(), &harnesses(), ())
        .evidence_kinds;
    let mut tables = no_tables();
    tables.prompts = vec![prompt_row("ship the thing", Some("h"), 10)];
    let evidence = session_evidence(
        Source::Trajectory,
        &names(),
        shallow("trajectory", "traj-1"),
        &SessionQuery::default(),
        &coverage,
        tables,
        &Vec::new(),
    )
    .unwrap();
    assert_eq!(evidence.coverage, vec![EvidenceKind::History]);
    assert_eq!(evidence.loaded, vec![EvidenceKind::History]);
    assert_eq!(evidence.prompts.len(), 1);
    assert_eq!(
        evidence.prompts[0].prompt.as_deref(),
        Some("ship the thing")
    );
}

#[test]
fn loaded_kinds_stay_within_the_source_coverage() {
    let coverage = vec![EvidenceKind::History, EvidenceKind::SessionEvent];
    let mut query = SessionQuery::default();
    query.kinds = Some(vec![EvidenceKind::SessionMarker, EvidenceKind::History]);
    let mut tables = no_tables();
    tables.markers = vec![marker("unknown", None)];
    let evidence = session_evidence(
        Source::Cursor,
        &names(),
        shallow("cursor", "c1"),
        &query,
        &coverage,
        tables,
        &Vec::new(),
    )
    .unwrap();
    assert_eq!(evidence.loaded, vec![EvidenceKind::History]);
    assert!(evidence.markers.is_empty());
    assert_eq!(evidence.coverage, coverage);

    let all = session_evidence(
        Source::Cursor,
        &names(),
        shallow("cursor", "c1"),
        &SessionQuery::default(),
        &coverage,
        no_tables(),
        &Vec::new(),
    )
    .unwrap();
    assert_eq!(
        all.loaded, coverage,
        "the default query loads exactly the coverage"
    );
}

#[test]
fn a_hash_only_read_carries_no_text() {
    let coverage = vec![EvidenceKind::History, EvidenceKind::SessionMarker];
    let row = || {
        let mut row = shallow("grok", "s1");
        row.first_prompt = Some("hello there".to_string());
        row.last_assistant_text = Some("bye".to_string());
        row
    };
    let mut query = SessionQuery::default();
    query.include_text = false;
    // Without the text the query does not move it.
    let mut tables = no_tables();
    tables.prompts = vec![
        prompt_row("hello", Some("stored-hash"), 10),
        prompt_row("unhashed", None, 20),
    ];
    for prompt in &mut tables.prompts {
        prompt.prompt = None;
    }
    tables.markers = vec![marker("system", Some("preamble"))];
    let hashed = session_evidence(
        Source::Grok,
        &names(),
        row(),
        &query,
        &coverage,
        tables,
        &Vec::new(),
    )
    .unwrap();
    assert!(hashed.session.first_prompt.is_none());
    assert!(hashed.session.last_assistant_text.is_none());
    assert_eq!(hashed.prompts.len(), 2);
    assert!(hashed.prompts[0].prompt.is_none());
    assert_eq!(
        hashed.prompts[0].prompt_hash.as_deref(),
        Some("stored-hash")
    );
    assert_eq!(hashed.prompts[0].prompt_bytes, 5);
    // No stored hash and no text: none, never a hash of nothing.
    assert!(hashed.prompts[1].prompt_hash.is_none());
    assert_eq!(hashed.prompts[1].prompt_bytes, 8);
    assert!(hashed.markers[0].text.is_none());

    let mut tables = no_tables();
    tables.prompts = vec![
        prompt_row("hello", Some("stored-hash"), 10),
        prompt_row("unhashed", None, 20),
    ];
    tables.markers = vec![marker("system", Some("preamble"))];
    let full = session_evidence(
        Source::Grok,
        &names(),
        row(),
        &SessionQuery::default(),
        &coverage,
        tables,
        &Vec::new(),
    )
    .unwrap();
    assert_eq!(full.session.first_prompt.as_deref(), Some("hello there"));
    assert_eq!(full.prompts[0].prompt.as_deref(), Some("hello"));
    assert_eq!(full.prompts[0].prompt_hash.as_deref(), Some("stored-hash"));
    assert_eq!(
        full.prompts[1].prompt_hash.as_deref(),
        Some(ai_hist::digest::prompt_hash("unhashed").as_str()),
        "with the text in hand the hash is computed"
    );
    assert_eq!(full.markers[0].text.as_deref(), Some("preamble"));
}

#[test]
fn errors_render_their_code() {
    let error = Error::SyncLocked {
        path: "/tmp/x.db".to_string(),
        waited_ms: 250,
    };
    assert_eq!(error.code(), "SYNC_LOCKED");
    assert!(error.to_string().starts_with("SYNC_LOCKED: "));

    let coded = Error::classify(
        "SESSION_NOT_FOUND: run a sync first",
        false,
        Otherwise::Hydration,
    );
    assert_eq!(
        coded,
        Error::SessionNotFound("run a sync first".to_string())
    );
    let plain = Error::classify("disk on fire", false, Otherwise::Hydration);
    assert_eq!(plain, Error::HydrationFailed("disk on fire".to_string()));
    let discovery = Error::classify("DISCOVERY_FAILED: codex: boom", false, Otherwise::Sync);
    assert_eq!(discovery, Error::Discovery("codex: boom".to_string()));
    let stopped = Error::classify("SESSION_NOT_FOUND: x", true, Otherwise::Sync);
    assert_eq!(stopped, Error::Cancelled("SESSION_NOT_FOUND: x".to_string()));

    for (error, code) in [
        (Error::DatabaseOpen(String::new()), "DATABASE_OPEN_FAILED"),
        (Error::InvalidArgument(String::new()), "INVALID_ARGUMENT"),
        (Error::SessionNotFound(String::new()), "SESSION_NOT_FOUND"),
        (
            Error::SourceMismatch(String::new()),
            "SESSION_SOURCE_MISMATCH",
        ),
        (
            Error::HydrationUnsupported(String::new()),
            "HYDRATION_UNSUPPORTED",
        ),
        (Error::HydrationFailed(String::new()), "HYDRATION_FAILED"),
        (Error::EvidencePartial(String::new()), "EVIDENCE_PARTIAL"),
        (Error::ConnectorFailure(String::new()), "CONNECTOR_FAILURE"),
        (Error::Discovery(String::new()), "DISCOVERY_FAILED"),
    ] {
        assert_eq!(error.code(), code, "{error:?}");
    }
}

#[test]
fn a_read_only_store_refuses_to_write() {
    let store = store_at("/x.db", true);
    assert!(store.read_only());
    let empty = catalog_fingerprint(&Vec::new());
    assert!(matches!(
        store.sync(&names(), false, &empty, &empty, 0),
        Err(Error::UnsupportedOperation(_))
    ));
    assert!(matches!(
        store.hydrate_request(
            &names(),
            &SessionRef::id(Source::Claude, "s"),
            &HydrateOptions::default(),
            &harnesses()
        ),
        Err(Error::UnsupportedOperation(_))
    ));
    assert!(matches!(
        store.writable("watch"),
        Err(Error::UnsupportedOperation(_))
    ));
    assert!(matches!(
        store.discovery_request(&names(), &DiscoveryOptions::default()),
        Err(Error::UnsupportedOperation(_))
    ));
}

#[test]
fn hydrating_by_path_is_refused_for_a_source_without_a_hook_harness() {
    let store = store_at("/x.db", false);
    let error = store
        .hydrate_request(
            &names(),
            &SessionRef::path(Source::Codex, "/h/rollout.jsonl"),
            &HydrateOptions::default(),
            &harnesses(),
        )
        .unwrap_err();
    assert_eq!(error.code(), "HYDRATION_UNSUPPORTED");
}

#[test]
fn hydrating_an_uncatalogued_session_is_session_not_found() {
    let store = store_at("/x.db", false);
    let session = SessionRef::id(Source::Claude, "never-discovered");
    let request = store
        .hydrate_request(
            &names(),
            &session,
            &HydrateOptions::default(),
            &harnesses(),
        )
        .unwrap();
    assert!(matches!(
        request,
        HydrateRequest::Session {
            include_related: true,
            ..
        }
    ));
    let error = store
        .hydrate(
            &names(),
            &session,
            &harnesses(),
            &Vec::new(),
            &Err(EngineFailure {
                message: "SESSION_NOT_FOUND: never-discovered".to_string(),
                cancelled: false,
            }),
        )
        .unwrap_err();
    assert_eq!(error.code(), "SESSION_NOT_FOUND");
}

fn hydrated(status: &str, capability: &str) -> HydrateSessionResult {
    HydrateSessionResult {
        status: status.to_string(),
        capability: capability.to_string(),
        coverage: vec![EvidenceKind::History],
        related_session_ids: vec!["child".to_string()],
        bytes_read: 12,
        diagnostics: vec![("CODE".to_string(), "said".to_string())],
    }
}

#[test]
fn a_hydration_reports_what_the_engine_did() {
    let store = store_at("/x.db", false);
    let session = SessionRef::id(Source::Codex, "s");
    let reply = Ok(HydrateReply::Session(hydrated("updated", "partial")));
    let report = store.hydrate(&names(), &session, &harnesses(), &Vec::new(), &reply).unwrap();
    assert_eq!(report.status, HydrateStatus::Updated);
    assert_eq!(report.capability, Some(Capability::Partial));
    assert_eq!(report.bytes_read, 12);
    assert_eq!(report.related, vec![SessionRef::id(Source::Codex, "child")]);
    assert_eq!(report.session, session);

    let odd = Ok(HydrateReply::Session(hydrated("sideways", "full")));
    assert!(store.hydrate(&names(), &session, &harnesses(), &Vec::new(), &odd).is_err());

    let missing = Ok(HydrateReply::Transcript {
        hydration: None,
        status: TranscriptStatus::Missing,
        session_id: None,
    });
    let by_path = SessionRef::path(Source::Claude, "/nowhere.jsonl");
    let report = store.hydrate(&names(), &by_path, &harnesses(), &Vec::new(), &missing).unwrap();
    assert_eq!(report.status, HydrateStatus::Missing);
    assert_eq!(report.session, by_path);
}

#[test]
fn a_path_that_names_no_one_session_is_refused_whatever_the_engine_says() {
    let store = store_at("/x.db", false);
    let by_path = SessionRef::path(Source::Codex, "/rollout.jsonl");
    let reply = Ok(HydrateReply::Transcript {
        hydration: None,
        status: TranscriptStatus::Ingested,
        session_id: Some("s".to_string()),
    });
    let refused = store
        .hydrate(&names(), &by_path, &harnesses(), &Vec::new(), &reply)
        .unwrap_err();
    assert_eq!(
        refused.to_string(),
        "HYDRATION_UNSUPPORTED: codex sessions cannot be named by path; \
         known harnesses: first, grok"
    );
    let asked = store
        .hydrate_request(&names(), &by_path, &HydrateOptions::default(), &harnesses())
        .unwrap_err();
    let looked_up = store
        .session_lookup(&names(), &by_path, &harnesses())
        .unwrap_err();
    assert_eq!(asked, refused);
    assert_eq!(looked_up, refused);
    let by_id = SessionRef::id(Source::Codex, "s");
    assert!(store.session_lookup(&names(), &by_id, &harnesses()).is_ok());
    let read_only = store_at("/x.db", true);
    let error = read_only
        .hydrate(&names(), &by_path, &harnesses(), &Vec::new(), &reply)
        .unwrap_err();
    assert_eq!(error.code(), "UNSUPPORTED_OPERATION");
}

#[test]
fn every_error_has_a_code_of_its_own() {
    let said = || "said".to_string();
    let errors = [
        Error::DatabaseOpen(said()),
        Error::StaleSchema(said()),
        Error::InvalidArgument(said()),
        Error::UnsupportedOperation(said()),
        Error::SessionNotFound(said()),
        Error::SessionSourceUnavailable(said()),
        Error::SourceMismatch(said()),
        Error::HydrationUnsupported(said()),
        Error::HydrationFailed(said()),
        Error::ConnectorNotConfigured(said()),
        Error::AuthenticationExpired(said()),
        Error::EvidencePartial(said()),
        Error::ConnectorFailure(said()),
        Error::Query(said()),
        Error::Discovery(said()),
        Error::SyncFailed(said()),
        Error::SyncLocked {
            path: said(),
            waited_ms: 1,
        },
        Error::WatermarkAheadOfStore(said()),
        Error::ConsumerKindsMismatch(said()),
        Error::Cancelled(said()),
    ];
    let mut codes: Vec<&str> = errors.iter().map(|error| error.code()).collect();
    codes.sort_unstable();
    codes.dedup();
    assert_eq!(codes.len(), errors.len());
}

#[test]
fn a_provider_that_failed_is_a_diagnostic() {
    let store = store_at("/x.db", false);
    let outcome = Ok(DiscoverySummary {
        discovered: 2,
        skipped_unchanged: 3,
        diagnostics: vec![DiscoveryFault {
            source: "codex".to_string(),
            error: "boom".to_string(),
            locator: Some("/x".to_string()),
        }],
    });
    let report = store
        .discover(&DiscoveryOptions::default(), &outcome)
        .unwrap();
    assert_eq!(report.discovered, 2);
    assert_eq!(report.skipped_unchanged, 3);
    assert_eq!(report.diagnostics.len(), 1);
    assert_eq!(report.diagnostics[0].message, "codex: boom");
}

fn event(id: i64, message: &str, ts_ms: i64, role: &str, kind: &str) -> SessionEvent {
    SessionEvent {
        id,
        source: "first".to_string(),
        session_id: "s1".to_string(),
        project: None,
        project_key: None,
        cwd: None,
        git_branch: None,
        message_id: Some(message.to_string()),
        parent_id: None,
        ts_ms,
        role: role.to_string(),
        kind: kind.to_string(),
        text: None,
        model: None,
        token_json: None,
        provider: None,
        event_uid: format!("e{id}"),
        tool_use_id: None,
        payload_bytes: None,
        payload_truncated: None,
        payload_hash: None,
        call_index: None,
        event_index: None,
        result_status: None,
        event_source: None,
        error_signal: None,
        subagent_session_id: None,
        agent_id: None,
        request_id: None,
        provider_message_id: None,
        stop_reason: None,
        agent_version: None,
        is_sidechain: None,
        is_meta: None,
        turn_id: None,
        request_span: None,
        raw_kind: None,
        control_kind: None,
    }
}

fn grouped_tables() -> SessionTables<u8> {
    let tokens = r#"{"input_tokens":3,"output_tokens":4}"#;
    let mut hello = event(1, "m1", 10, "user", "text");
    hello.text = Some("hello".to_string());
    let mut thinking = event(2, "m2", 20, "assistant", "thinking");
    thinking.text = Some("hmm".to_string());
    thinking.model = Some("m".to_string());
    thinking.token_json = Some(tokens.to_string());
    thinking.request_id = Some("req_1".to_string());
    thinking.stop_reason = Some("end_turn".to_string());
    let mut tool = event(3, "m2", 20, "assistant", "tool_use");
    tool.model = Some("m".to_string());
    tool.token_json = Some(tokens.to_string());
    tool.request_id = Some("req_1".to_string());
    tool.tool_use_id = Some("tu_1".to_string());
    let mut result = event(4, "m3", 30, "user", "tool_result");
    result.text = Some("ok".to_string());
    result.tool_use_id = Some("tu_1".to_string());
    result.payload_bytes = Some(2);
    result.payload_hash = Some("abcd".to_string());
    result.result_status = Some("completed".to_string());
    let mut tables = no_tables();
    tables.events = vec![hello, thinking, tool, result];
    tables.text_bytes = vec![Some(5), Some(3), None, Some(2)];
    tables.user_turns = vec![1, 2];
    tables.tool_calls = vec![SessionToolCall {
        id: 1,
        source: "first".to_string(),
        session_id: "s1".to_string(),
        message_id: Some("m2".to_string()),
        tool_use_id: "tu_1".to_string(),
        name: "Bash".to_string(),
        target: None,
        args_json: Some("{\"command\":\"ls\"}".to_string()),
        is_error: None,
        ts_ms: None,
    }];
    tables
}

#[test]
fn session_groups_events_into_typed_messages() {
    let coverage = vec![
        EvidenceKind::History,
        EvidenceKind::SessionEvent,
        EvidenceKind::ToolCall,
    ];
    let evidence = session_evidence(
        Source::Claude,
        &names(),
        shallow("first", "s1"),
        &SessionQuery::default(),
        &coverage,
        grouped_tables(),
        &Vec::new(),
    )
    .unwrap();
    assert_eq!(evidence.messages.len(), 3);
    let assistant = &evidence.messages[1];
    assert_eq!(assistant.role, Role::Assistant);
    assert_eq!(assistant.blocks.len(), 2);
    assert_eq!(assistant.request_id.as_deref(), Some("req_1"));
    assert_eq!(assistant.stop_reason.as_deref(), Some("end_turn"));
    let usage = assistant.usage.as_ref().expect("normalized once");
    assert_eq!(usage.input_tokens, 3);
    assert!(assistant.raw_usage().unwrap().contains("output_tokens"));
    assert_eq!(evidence.tool_results.len(), 1);
    assert_eq!(evidence.tool_results[0].payload_bytes, Some(2));
    match evidence.tool_calls[0].args.as_ref().unwrap() {
        JsonValue::Object(members) => {
            assert_eq!(members.len(), 1);
            assert_eq!(members[0].0, "command");
            assert_eq!(members[0].1.as_text(), Some("ls"));
        }
        other => panic!("{other:?}"),
    }
    assert_eq!(
        evidence.tool_calls[0].raw_args(),
        Some("{\"command\":\"ls\"}")
    );
    assert_eq!(evidence.user_turns.len(), 2);
    assert_eq!(evidence.requests.len(), 1);
    assert!(evidence.usage.is_some());

    let mut query = SessionQuery::default();
    query.include_text = false;
    query.kinds = Some(vec![EvidenceKind::SessionEvent]);
    let hashed = session_evidence(
        Source::Claude,
        &names(),
        shallow("first", "s1"),
        &query,
        &coverage,
        grouped_tables(),
        &Vec::new(),
    )
    .unwrap();
    assert!(hashed.messages[0].blocks[0].text.is_none());
    assert_eq!(hashed.messages[0].blocks[0].text_bytes, Some(5));
    assert!(hashed.tool_calls.is_empty());
    assert_eq!(hashed.loaded, vec![EvidenceKind::SessionEvent]);
}

#[test]
fn relationships_say_which_side_the_session_is_on() {
    let edge = |uid: &str| SessionRelationship {
        relationship: "delegated".to_string(),
        relationship_uid: uid.to_string(),
        parent_session_id: "p".to_string(),
        child_session_id: Some("c".to_string()),
        identity_status: "observed".to_string(),
        child_agent_type: None,
        child_agent_name: None,
        child_model: None,
        spawn_depth: None,
        evidence_kind: "session_meta".to_string(),
        evidence_locator: None,
        evidence_ref: None,
        child_has_events: false,
        spawned_at_ms: None,
        created_ms: 1,
        origin_session_id: None,
    };
    let mut tables = no_tables();
    tables.graph.as_parent = vec![edge("one")];
    tables.graph.as_child = vec![edge("two")];
    tables.graph.continuity = vec![edge("three")];
    let evidence = session_evidence(
        Source::Codex,
        &names(),
        shallow("codex", "s"),
        &SessionQuery::default(),
        &vec![EvidenceKind::Relationship],
        tables,
        &Vec::new(),
    )
    .unwrap();
    let sides: Vec<(String, RelationshipSide)> = evidence
        .relationships
        .iter()
        .map(|edge| (edge.relationship_uid.clone(), edge.side))
        .collect();
    assert_eq!(sides.len(), 3);
    assert!(sides.contains(&("one".to_string(), RelationshipSide::Parent)));
    assert!(sides.contains(&("two".to_string(), RelationshipSide::Child)));
    assert!(sides.contains(&("three".to_string(), RelationshipSide::Continuity)));
}

#[test]
fn a_read_only_open_rejects_a_database_it_cannot_migrate() {
    let open = |opening: Opening| {
        let mut opts = StoreOptions::default();
        opts.db_path = Some("/x.db".to_string());
        opts.read_only = true;
        SessionStore::open(opts, "/default.db", 0_u8, &opening)
    };
    let stale = SchemaReads {
        events: false,
        evidence: true,
        relationships: true,
        usage: true,
    };
    let error = match open(Opening::Readable(stale)) {
        Ok(_) => panic!("a read-only open cannot migrate, so it must refuse"),
        Err(error) => error,
    };
    assert_eq!(error.code(), "DATABASE_STALE_SCHEMA");
    assert!(
        error.is_stale_schema(),
        "the refusal is typed, so a caller with a remedy can apply it"
    );
    assert!(
        !Error::classify("no such column: x", false, Otherwise::Query).is_stale_schema(),
        "an ordinary query failure is not a stale schema"
    );
    let message = error.to_string();
    assert!(
        message.contains("predates"),
        "names the mismatch: {message}"
    );
    assert!(message.contains("writable"), "names the remedy: {message}");
    assert!(open(Opening::Failed("no file".to_string())).is_err());

    let current = SchemaReads {
        events: true,
        ..stale
    };
    assert!(open(Opening::Readable(current)).is_ok());
}

#[test]
fn a_store_is_opened_where_its_options_say() {
    let open = |db: Option<&str>, home: Option<&str>| {
        let mut opts = StoreOptions::default();
        opts.db_path = db.map(str::to_string);
        opts.home = home.map(str::to_string);
        SessionStore::open(opts, "/default.db", 3_u8, &Opening::Writable).unwrap()
    };
    assert_eq!(open(Some("/x.db"), Some("/h")).db_path(), "/x.db");
    assert_eq!(
        open(None, Some("/h")).db_path(),
        "/h/.local/share/ai-hist/ai-history.db"
    );
    assert_eq!(open(None, None).db_path(), "/default.db");
    assert_eq!(*open(None, None).roots(), 3);
}

#[test]
fn clones_of_a_token_share_one_stop() {
    let token = StopToken::new();
    let clone = token.clone();
    let other = StopToken::default();
    assert!(!token.is_stopped() && !clone.is_stopped());
    clone.stop();
    clone.stop();
    assert!(token.is_stopped() && clone.is_stopped());
    assert!(clone.clone().is_stopped());
    assert!(!other.is_stopped());
    let mut opts = SyncOptions::default();
    assert!(opts.stop.is_none());
    opts.stop = Some(other.clone());
    other.stop();
    assert!(opts.stop.unwrap().is_stopped());
}

#[test]
fn an_unrepresentable_watch_timeout_is_no_deadline_not_a_panic() {
    let unbounded = receive_deadline(5, u64::MAX);
    assert_eq!(unbounded, None);
    assert_eq!(receive_wait(5, unbounded), 50);
    // The startup sweep is handed out when it comes.
    assert_eq!(
        receive_step(Received::Report("startup"), unbounded),
        ReceiveStep::Return(Some("startup"))
    );
    let quiet = |finished: bool, now: u64| Received::Nothing::<u8> { finished, now };
    assert_eq!(
        receive_step(quiet(false, 90), unbounded),
        ReceiveStep::Wait
    );
    // And once the loop has stopped, an unbounded wait still ends.
    assert_eq!(
        receive_step(quiet(true, 90), unbounded),
        ReceiveStep::Drain
    );
    assert_eq!(
        receive_step(Received::Closed::<u8>, unbounded),
        ReceiveStep::Return(None)
    );

    let short = receive_deadline(5, 20);
    assert_eq!(short, Some(25));
    assert_eq!(receive_wait(5, short), 20);
    assert_eq!(receive_wait(40, short), 0);
    assert_eq!(receive_step(quiet(false, 24), short), ReceiveStep::Wait);
    assert_eq!(
        receive_step(quiet(false, 25), short),
        ReceiveStep::Return(None)
    );
}

fn keyed_row(session_id: &str, key: &str, method: &str) -> CatalogRow {
    CatalogRow {
        source: "codex".to_string(),
        session_id: session_id.to_string(),
        values: vec![
            ColumnValue::Bytes(b"full".to_vec()),
            ColumnValue::Bytes(key.as_bytes().to_vec()),
            ColumnValue::Bytes(method.as_bytes().to_vec()),
        ],
    }
}

#[test]
fn an_inherited_project_key_is_a_reported_change() {
    let store = store_at("/x.db", false);
    let before = catalog_fingerprint(&vec![
        keyed_row("parent", "github.com/org/repo", "remote"),
        keyed_row("child", "/tmp/elsewhere", "path"),
        keyed_row("bystander", "/tmp/quiet", "path"),
    ]);
    let after = catalog_fingerprint(&vec![
        keyed_row("parent", "github.com/org/repo", "remote"),
        keyed_row("child", "github.com/org/repo", "remote"),
        keyed_row("bystander", "/tmp/quiet", "path"),
    ]);
    let report = store.sync(&names(), true, &before, &after, 0).unwrap();
    assert!(report.swept);
    assert_eq!(
        report.changed,
        vec![SessionRef::id(Source::Codex, "child")],
        "the child moved and nothing else did: {:?}",
        report.changed
    );
    // And a sweep that moves no row reports none.
    let again = store.sync(&names(), true, &after, &after, 0).unwrap();
    assert!(again.swept);
    assert!(again.changed.is_empty(), "{:?}", again.changed);
}

#[test]
fn changes_made_before_the_lock_was_taken_are_not_this_sweeps() {
    let store = store_at("/x.db", false);
    // The baseline is read once the lock is held, so it holds the early row.
    let baseline = catalog_fingerprint(&vec![catalog_row("first", "early", 1)]);
    let after = catalog_fingerprint(&vec![catalog_row("first", "early", 1)]);
    let report = store.sync(&names(), true, &baseline, &after, 0).unwrap();
    assert!(report.swept);
    assert!(report.changed.is_empty());
}

#[test]
fn an_unswept_sync_reports_a_catalog_write_made_under_its_lock() {
    let store = store_at("/x.db", false);
    let before = catalog_fingerprint(&Vec::new());
    let after = catalog_fingerprint(&vec![catalog_row("first", "hydrated-meanwhile", 1)]);
    let outcome = store.sync(&names(), false, &before, &after, 0).unwrap();
    assert!(!outcome.swept, "the sources did not move");
    assert_eq!(
        outcome.changed,
        vec![SessionRef::id(Source::Claude, "hydrated-meanwhile")]
    );
    // Unswept, nothing moved under its lock, nothing reported: the earlier write was
    // before it.
    let again = store.sync(&names(), false, &after, &after, 0).unwrap();
    assert!(!again.swept);
    assert!(again.changed.is_empty());
}

#[test]
fn an_unswept_watch_tick_reports_a_hydration_between_ticks_once() {
    let swept = |base: &Option<CatalogFingerprint>, rows: Vec<CatalogRow>, swept: bool| {
        let after = catalog_fingerprint(&rows);
        let none = catalog_fingerprint(&Vec::new());
        let changed = catalog_changes(base.as_ref().unwrap_or(&none), &after, &names());
        Ok::<_, &str>(Some(SweptCatalog {
            tick: SyncTick {
                attempted: true,
                swept,
            },
            after,
            changed,
        }))
    };
    let mut base = None;
    let first = swept(&base, Vec::new(), true);
    let (_, changed) = rolling_tick(&mut base, first).unwrap();
    assert!(changed.is_empty());

    let rows = || vec![catalog_row("codex", "hydrated-between-ticks", 1)];
    let second = swept(&base, rows(), false);
    let (reported, changed) = rolling_tick(&mut base, second).unwrap();
    assert!(!reported.swept, "no source moved; the tick was unswept");
    assert_eq!(
        changed,
        vec![SessionRef::id(Source::Codex, "hydrated-between-ticks")]
    );
    let third = swept(&base, rows(), false);
    let (_, changed) = rolling_tick(&mut base, third).unwrap();
    assert!(
        changed.is_empty(),
        "reported once, not on every unswept tick: {changed:?}"
    );
}

#[test]
fn stored_json_is_kept_as_it_is_where_it_is_no_json() {
    let edit = |patch: Option<&str>| {
        FileEdit::from_row(&SessionFileEdit {
            id: 1,
            source: "first".to_string(),
            session_id: "s1".to_string(),
            message_id: None,
            tool_use_id: "tu".to_string(),
            file_path: "/p".to_string(),
            tool_name: None,
            lines_added: None,
            lines_removed: None,
            structured_patch_json: patch.map(str::to_string),
            user_modified: Some(1),
            ts_ms: None,
            git_branch: None,
            cwd: None,
        })
    };
    let patched = edit(Some("[1]"));
    assert!(matches!(
        patched.structured_patch,
        Some(JsonValue::Array(_))
    ));
    assert_eq!(patched.user_modified, Some(true));
    let broken = edit(Some("not json"));
    assert!(broken.structured_patch.is_none());
    assert_eq!(broken.raw_structured_patch(), Some("not json"));
    assert_eq!(edit(None).raw_structured_patch(), None);

    let mut row = marker("system", Some("preamble"));
    row.payload_json = Some("{\"a\":1}".to_string());
    let shown = Marker::from_row(&row, true);
    assert_eq!(shown.raw_payload(), Some("{\"a\":1}"));
    assert_eq!(shown.text.as_deref(), Some("preamble"));
}

#[test]
fn changes_come_in_order_and_once() {
    let before = catalog_fingerprint(&vec![
        catalog_row("first", "same", 1),
        catalog_row("codex", "moved", 1),
    ]);
    let after = catalog_fingerprint(&vec![
        catalog_row("first", "z", 1),
        catalog_row("codex", "moved", 2),
        catalog_row("first", "same", 1),
        catalog_row("unheard-of", "u", 1),
        catalog_row("first", "a", 1),
        catalog_row("first", "z", 1),
        catalog_row("codex", "b", 1),
    ]);
    let changed: Vec<String> = catalog_changes(&before, &after, &names())
        .into_iter()
        .map(|change| match change {
            SessionRef::Id { session_id, .. } => session_id,
            _ => unreachable!(),
        })
        .collect();
    assert_eq!(changed, vec!["b", "moved", "a", "z"]);
}
