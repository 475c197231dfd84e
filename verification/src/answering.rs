//! How the store answers, call by call.
use crate::session_store::{
    receive_deadline, receive_step, receive_wait, DiscoveryOptions, DiscoveryReport,
    DiscoverySummary, EngineFailure, Error, HydrateOptions, HydrateReply, HydrateReport,
    HydrateRequest, LockWait, ReceiveStep, Received, SessionRef, SessionStore,
};
use crate::source_evidence::EvidenceKind;
use crate::store::SourceNames;
use vstd::prelude::*;
use vstd::string::*;

verus! {

/// A store that is open for reading alone refuses to discover, to hydrate and to write,
/// whatever it is asked.
pub proof fn law_read_only_store_refuses_to_change<R>(
    store: SessionStore<R>,
    names: SourceNames,
    reference: SessionRef,
    harnesses: Vec<String>,
    kinds: Vec<EvidenceKind>,
    wish: HydrateOptions,
    asked: Result<HydrateRequest, Error>,
    reply: Result<HydrateReply, EngineFailure>,
    hydrated: Result<HydrateReport, Error>,
    options: DiscoveryOptions,
    outcome: Result<DiscoverySummary, EngineFailure>,
    discovered: Result<DiscoveryReport, Error>,
    operation: &str,
    allowed: Result<(), Error>,
)
    requires
        call_ensures(
            SessionStore::<R>::hydrate_request,
            (&store, &names, &reference, &wish, &harnesses),
            asked,
        ),
        call_ensures(
            SessionStore::<R>::hydrate,
            (&store, &names, &reference, &harnesses, &kinds, &reply),
            hydrated,
        ),
        call_ensures(SessionStore::<R>::discover, (&store, &options, &outcome), discovered),
        call_ensures(SessionStore::<R>::writable, (&store, operation), allowed),
        store.read_only,
    ensures
        asked is Err,
        hydrated is Err,
        discovered is Err,
        allowed is Err,
{
}

/// A failure of the engine is reported, and never as a success.
pub proof fn law_engine_failure_is_reported<R>(
    store: SessionStore<R>,
    names: SourceNames,
    reference: SessionRef,
    harnesses: Vec<String>,
    kinds: Vec<EvidenceKind>,
    failure: EngineFailure,
    hydrated: Result<HydrateReport, Error>,
)
    requires
        call_ensures(
            SessionStore::<R>::hydrate,
            (
                &store,
                &names,
                &reference,
                &harnesses,
                &kinds,
                &Err::<HydrateReply, EngineFailure>(failure),
            ),
            hydrated,
        ),
    ensures
        hydrated is Err,
{
}

/// A wait for the lock lasts as long as it was given: it sleeps while time is left, never
/// past its end, and gives up at the end, with how long it waited; a stop ends it at once.
pub proof fn law_lock_wait_keeps_its_budget(
    started: u64,
    budget: u64,
    wait: LockWait,
    now: u64,
    db_path: &str,
    result: Result<u64, Error>,
)
    requires
        call_ensures(LockWait::new, (started, budget), wait),
        budget <= 604_800_000,
        started + budget <= u64::MAX,
        started <= now,
        call_ensures(LockWait::after_contention, (&wait, now, None::<&str>, db_path), result),
    ensures
        result is Ok <==> now < started + budget,
        result matches Ok(sleep) ==> 0 < sleep && now + sleep <= started + budget,
        result matches Err(error) ==> error is SyncLocked && error->waited_ms == now - started
            && error->path@ == db_path@,
{
}

/// A stop ends a wait for the lock at once, whatever time is left.
pub proof fn law_stop_ends_a_lock_wait(
    wait: LockWait,
    now: u64,
    message: &str,
    db_path: &str,
    result: Result<u64, Error>,
)
    requires
        call_ensures(LockWait::after_contention, (&wait, now, Some(message), db_path), result),
    ensures
        result is Err,
        result->Err_0 is Cancelled,
{
}

/// A report is handed out whenever it came.
pub proof fn law_report_is_handed_out<T>(report: T, deadline: Option<u64>, step: ReceiveStep<T>)
    requires
        call_ensures(receive_step::<T>, (Received::Report(report), deadline), step),
    ensures
        step == ReceiveStep::Return(Some(report)),
{
}

/// A wait for a report ends when its time is up and no sooner, unless the loop has ended:
/// it waits on only while time is left, never past its end, and not for nothing.
pub proof fn law_report_wait_keeps_its_time<T>(
    started: u64,
    budget: u64,
    deadline: Option<u64>,
    now: u64,
    step: ReceiveStep<T>,
    pause: u64,
)
    requires
        call_ensures(receive_deadline, (started, budget), deadline),
        started + budget <= u64::MAX,
        call_ensures(
            receive_step::<T>,
            (Received::<T>::Nothing { finished: false, now }, deadline),
            step,
        ),
        call_ensures(receive_wait, (now, deadline), pause),
    ensures
        step is Wait <==> now < started + budget,
        !(step is Wait) ==> step == ReceiveStep::<T>::Return(None),
        step is Wait ==> 0 < pause && now + pause <= started + budget,
{
}

/// Where the loop has ended, what it sent before is handed out, however late it is.
pub proof fn law_ended_loop_is_drained<T>(deadline: Option<u64>, now: u64, step: ReceiveStep<T>)
    requires
        call_ensures(
            receive_step::<T>,
            (Received::<T>::Nothing { finished: true, now }, deadline),
            step,
        ),
    ensures
        step is Drain,
{
}

} // verus!
