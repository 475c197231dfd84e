use ai_hist::registrations::{RootIdentity, WatchBook};
use ai_hist::watch::{
    deadline_after, event_can_change_evidence, event_matches_evidence, event_matches_roots,
    handle_backend_error, lost_registration_keys, owes, removed_registration_keys, FsEvent,
    FsEventKind, RenameMode, TickOutcome, TickReport, TickTrigger, WakeStep, WatchDriver,
    WatchLoop, WatchRoot, MAX_INTERVAL_MS,
};

fn tree(path: &str) -> WatchRoot {
    WatchRoot::tree(path.to_string())
}

fn directory(path: &str) -> WatchRoot {
    WatchRoot::directory(path.to_string())
}

fn event(kind: FsEventKind, paths: &[&str]) -> FsEvent {
    FsEvent {
        kind,
        paths: paths.iter().map(|path| path.to_string()).collect(),
        rescan: false,
    }
}

#[test]
fn metadata_only_events_do_not_force_a_sweep() {
    assert!(!event_can_change_evidence(FsEventKind::ModifyMetadata));
    assert!(!event_can_change_evidence(FsEventKind::Access));
    for kind in [
        FsEventKind::Any,
        FsEventKind::Other,
        FsEventKind::Create,
        FsEventKind::ModifyOther,
        FsEventKind::Remove,
    ] {
        assert!(
            event_can_change_evidence(kind),
            "{kind:?} can change evidence and must wake a forced sweep"
        );
    }
}

#[test]
fn pathless_rescan_and_unknown_events_force_a_sweep() {
    let roots = vec![tree("/home/u/.codex/sessions")];
    let mut overflow = event(FsEventKind::Other, &[]);
    overflow.rescan = true;
    assert!(event_matches_evidence(&overflow, &roots));
    assert!(event_matches_evidence(&event(FsEventKind::Any, &[]), &roots));

    let outside = event(FsEventKind::Create, &["/home/u/unrelated"]);
    assert!(!event_matches_evidence(&outside, &roots));
}

#[test]
fn a_backend_error_marks_every_registration_stale_and_reports_it() {
    let first = "/home/u/.first/projects";
    let second = "/home/u/.codex/sessions";
    let roots = vec![tree(first), tree(second)];
    let mut stale: Vec<String> = Vec::new();

    assert!(handle_backend_error(&roots, &mut stale));
    stale.sort();
    assert_eq!(
        stale,
        vec![second.to_string(), first.to_string()],
        "unknown backend coverage loss must make every root reconcile"
    );
}

#[test]
fn a_backend_error_without_roots_loses_nothing() {
    let mut stale: Vec<String> = Vec::new();
    assert!(!handle_backend_error(&Vec::new(), &mut stale));
    assert!(stale.is_empty());
}

#[test]
fn rename_away_retires_only_the_source_registration() {
    let root = "/home/u/.codex/sessions";
    let backup = "/home/u/.codex/sessions-old";
    let child = "/home/u/.codex/sessions/2026/rollout.jsonl";
    let roots = vec![tree(root)];
    let key = vec![root.to_string()];

    let from = event(FsEventKind::ModifyName(RenameMode::From), &[root]);
    assert_eq!(lost_registration_keys(&from, &roots), key);

    let both = event(FsEventKind::ModifyName(RenameMode::Both), &[root, backup]);
    assert_eq!(lost_registration_keys(&both, &roots), key);

    let into = event(FsEventKind::ModifyName(RenameMode::To), &[root]);
    assert!(lost_registration_keys(&into, &roots).is_empty());

    let into_both = event(FsEventKind::ModifyName(RenameMode::Both), &[backup, root]);
    assert!(lost_registration_keys(&into_both, &roots).is_empty());

    let below = event(FsEventKind::ModifyName(RenameMode::From), &[child]);
    assert!(lost_registration_keys(&below, &roots).is_empty());
}

#[test]
fn an_interval_too_large_for_the_clock_does_not_kill_the_wait() {
    let watch = WatchLoop::new()
        .with_debounce_ms(u64::MAX)
        .with_poll_interval_ms(u64::MAX)
        .with_slow_poll_ms(u64::MAX);
    assert_eq!(watch.debounce_ms, MAX_INTERVAL_MS);
    assert_eq!(watch.poll_interval_ms, MAX_INTERVAL_MS);
    assert_eq!(watch.slow_poll_ms, MAX_INTERVAL_MS);
    assert_eq!(deadline_after(5, u64::MAX), 5 + MAX_INTERVAL_MS);
}

#[test]
fn a_live_root_is_registered_once_however_many_backstop_ticks_pass() {
    let root = tree("/home/u/.codex/sessions");
    let roots = vec![root];
    let mut book = WatchBook::new(&roots);
    let identity = RootIdentity {
        device: 1,
        inode: 7,
    };
    book.attached(0, None, Some(identity));
    assert_eq!(book.watched(), vec!["/home/u/.codex/sessions".to_string()]);
    for _ in 0..10 {
        assert!(
            book.check(0, Some(identity)),
            "a live root must not be registered again"
        );
    }
    // Another directory at the same path is not what was registered.
    let recreated = RootIdentity {
        device: 1,
        inode: 8,
    };
    assert!(!book.check(0, Some(recreated)));
}

#[test]
fn a_root_that_is_gone_is_pending_until_it_is_back() {
    let roots = vec![tree("/home/u/.codex/sessions")];
    let mut book = WatchBook::new(&roots);
    assert!(book.watched().is_empty());
    assert_eq!(book.pending(), vec!["/home/u/.codex/sessions".to_string()]);
    let identity = RootIdentity {
        device: 1,
        inode: 7,
    };
    book.attached(0, None, Some(identity));
    assert!(book.pending().is_empty());
    book.lost(0);
    assert_eq!(book.pending(), vec!["/home/u/.codex/sessions".to_string()]);
}

#[test]
fn a_non_recursive_root_covers_its_own_entries_only() {
    let roots = vec![directory("/home/u/.first")];

    assert!(event_matches_roots("/home/u/.first/history.jsonl", &roots));
    assert!(event_matches_roots("/home/u/.first", &roots));

    for buried in [
        "/home/u/.first/todos/task-1.json",
        "/home/u/.first/shell-snapshots/snapshot-1.sh",
        "/home/u/.first/projects/app/session.jsonl",
    ] {
        assert!(
            !event_matches_roots(buried, &roots),
            "{buried} is below a non-recursive root and must not wake a forced sweep"
        );
    }
    assert!(!event_matches_roots("/home/u/.codex", &roots));
}

#[test]
fn a_recursive_root_covers_its_whole_subtree() {
    let roots = vec![tree("/home/u/.first/projects")];

    for inside in [
        "/home/u/.first/projects",
        "/home/u/.first/projects/app/session.jsonl",
        "/home/u/.first/projects/app/session/subagents/agent-a.jsonl",
    ] {
        assert!(event_matches_roots(inside, &roots), "{inside}");
    }
    assert!(!event_matches_roots(
        "/home/u/.first/todos/task-1.json",
        &roots
    ));
}

#[test]
fn the_widest_matching_root_decides() {
    let roots = vec![directory("/home/u/.first"), tree("/home/u/.first/projects")];

    assert!(event_matches_roots(
        "/home/u/.first/projects/app/session.jsonl",
        &roots
    ));
    assert!(!event_matches_roots(
        "/home/u/.first/todos/task-1.json",
        &roots
    ));
}

#[test]
fn a_name_that_only_begins_alike_is_not_below_a_root() {
    let roots = vec![tree("/home/u/.codex/sessions")];
    assert!(!event_matches_roots("/home/u/.codex/sessions-old/x", &roots));
}

#[test]
fn removing_a_directory_retires_the_root_at_it() {
    let roots = vec![tree("/a/b"), tree("/a/c")];
    assert_eq!(
        removed_registration_keys("/a/b", &roots),
        vec!["/a/b".to_string()]
    );
    assert!(removed_registration_keys("/a/b/below", &roots).is_empty());
}

#[test]
fn a_change_wakes_a_debounced_tick() {
    let mut watch = WatchLoop::new();
    watch.start(0);
    assert_eq!(watch.next_wake(), WakeStep::Park);
    watch.notify_change();
    assert_eq!(watch.next_wake(), WakeStep::Debounce);
    assert_eq!(watch.on_debounced(), Some(TickTrigger::FsEvent));
    assert!(TickTrigger::FsEvent.forces_scan());
    assert!(!TickTrigger::Poll.forces_scan());
}

#[test]
fn a_lost_registration_comes_before_a_change_and_loses_none() {
    let mut watch = WatchLoop::new();
    watch.start(0);
    watch.notify_change();
    watch.signal_registration_lost();
    assert_eq!(
        watch.next_wake(),
        WakeStep::Trigger(TickTrigger::RegistrationLost)
    );
    assert_eq!(watch.next_wake(), WakeStep::Debounce);
}

#[test]
fn a_stopped_loop_stays_stopped() {
    let mut watch = WatchLoop::new();
    watch.stop();
    watch.notify_change();
    watch.signal_registration_lost();
    assert_eq!(watch.next_wake(), WakeStep::Stop);
    assert_eq!(watch.next_wake(), WakeStep::Stop);
    assert!(watch.cuts_debounce());
}

#[test]
fn a_loop_that_is_started_after_its_stop_leaves_at_once() {
    let mut watch = WatchLoop::new().with_immediate(false);
    assert!(watch.claim_or_defer(TickTrigger::Poll));
    assert!(!watch.claim_or_defer(TickTrigger::FsEvent));
    watch.stop();
    watch.stop();
    assert!(!watch.is_idle(), "the sweep that runs is waited for");
    watch.finish();
    assert!(watch.is_idle());
    assert!(!watch.wake.pending, "a deferred tick wakes nothing any more");
    watch.start(5);
    watch.notify_change();
    assert_eq!(watch.next_wake(), WakeStep::Stop);
    assert_eq!(watch.on_timeout(), None);
    assert_eq!(watch.on_debounced(), None);
}

#[test]
fn a_tick_beside_another_waits_for_the_one_after_it() {
    let mut watch = WatchLoop::new();
    assert_eq!(watch.tick(), None, "the slot was free");
    let target = watch.tick().expect("a sweep runs");
    assert!(!watch.joined(target));
    watch.finish();
    assert!(watch.joined(target));
    assert!(watch.is_idle());
}

#[test]
fn the_count_of_ticks_wraps_without_letting_a_waiter_go() {
    let mut watch = WatchLoop::new();
    watch.run.completed = u64::MAX;
    assert_eq!(watch.tick(), None);
    let target = watch.tick().expect("a sweep runs");
    assert!(!watch.joined(target));
    watch.finish();
    assert!(watch.joined(target));
}

#[test]
fn a_forced_tick_beside_another_is_deferred_not_lost() {
    let mut watch = WatchLoop::new();
    assert!(watch.claim_or_defer(TickTrigger::Poll));
    assert!(!watch.claim_or_defer(TickTrigger::FsEvent));
    watch.finish();
    assert_eq!(
        watch.next_wake(),
        WakeStep::Debounce,
        "the deferred force is posted as a change"
    );
}

#[test]
fn a_contended_forced_sweep_is_owed() {
    let contended = TickOutcome {
        swept: false,
        skipped_unchanged: false,
        contended: true,
    };
    let swept = TickOutcome {
        swept: true,
        skipped_unchanged: false,
        contended: false,
    };
    assert!(owes(TickTrigger::FsEvent, Some(contended)));
    assert!(!owes(TickTrigger::FsEvent, Some(swept)));
    assert!(owes(TickTrigger::FsEvent, None));
    assert!(!owes(TickTrigger::Poll, Some(contended)));
}

#[test]
fn labels_and_reports_say_what_happened() {
    assert_eq!(WatchDriver::FsEvents.as_str(), "fs-events");
    assert_eq!(WatchDriver::Polling.as_str(), "polling");
    let outcome = TickOutcome {
        swept: true,
        skipped_unchanged: false,
        contended: false,
    };
    let report = TickReport::of(TickTrigger::Manual, outcome);
    assert_eq!(report.trigger, TickTrigger::Manual);
    assert_eq!(report.outcome, outcome);
    assert_eq!(report.forced, TickTrigger::Manual.forces_scan());
}

#[test]
fn a_status_is_published_when_it_changes() {
    let mut watch = WatchLoop::new();
    assert_eq!(watch.driver(), None);
    assert_eq!(watch.current_driver(), WatchDriver::Polling);
    assert!(watch.publish_status(None));
    assert!(!watch.publish_status(None), "nothing changed");
    assert_eq!(watch.driver(), Some(WatchDriver::Polling));
}
