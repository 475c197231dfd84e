//! What live capture promises, call by call.
//!
//! Each law speaks of the calls of a watch loop themselves: of what a call is given, of
//! what it returns, and of the loop before and after it. Where a law speaks of several
//! calls, each begins with the loop as the one before it left it.
use crate::text;
use crate::watch::{
    bounded_ms, deadline_after, event_can_change_evidence, event_matches_evidence,
    handle_backend_error, lost_registration_keys, owes, Coverage, FsEvent, FsEventKind, RenameMode,
    TickOutcome, TickReport, TickTrigger, WaitPlan, WakePlan, WakeStep, WatchDepth, WatchDriver,
    WatchLoop, WatchRoot, CONTENDED_SWEEP_RETRY_MS, LOST_REGISTRATION_RECHECK_MS, MAX_INTERVAL_MS,
};
use crate::watch;
use vstd::prelude::*;
use vstd::string::*;

verus! {

/// A wake sweeps, whatever the state of the loop, the plan and the time: at once where
/// it is anything but a poll or a lost registration, and where it is a poll that was not
/// woken early. A poll that was woken early sweeps once the cadence has passed, and a
/// sweep that is owed and due is made up for as a file change.
pub proof fn law_wake_is_swept(
    watch: &mut WatchLoop,
    plan: WaitPlan,
    trigger: TickTrigger,
    now: u64,
    sweep: Option<TickTrigger>,
)
    requires
        call_ensures(WatchLoop::sweep_trigger, (watch, plan, trigger, now), sweep),
    ensures
        trigger == TickTrigger::FsEvent ==> sweep == Some(TickTrigger::FsEvent),
        trigger == TickTrigger::Manual || trigger == TickTrigger::Startup ==> sweep is Some,
        trigger == TickTrigger::Poll && !plan.woke_early ==> sweep is Some,
        trigger == TickTrigger::Poll && now - old(watch).cadence.last_poll_sweep
            >= plan.sweep_every ==> sweep is Some,
        trigger == TickTrigger::RegistrationLost ==> sweep is None,
        trigger != TickTrigger::RegistrationLost && old(watch).cadence.retry_force is Some
            && old(watch).cadence.retry_force->0 <= now ==> sweep == Some(TickTrigger::FsEvent),
        sweep matches Some(what) ==> what == trigger || (what == TickTrigger::FsEvent
            && old(watch).cadence.retry_force is Some && old(watch).cadence.retry_force->0 <= now),
{
}

/// No wake sweeps early: a poll that was woken early, before the cadence has passed and
/// with nothing owed, is no sweep, and a lost registration never is. A poll that sweeps
/// starts the cadence anew; nothing else does.
pub proof fn law_poll_keeps_its_cadence(
    watch: &mut WatchLoop,
    plan: WaitPlan,
    trigger: TickTrigger,
    now: u64,
    sweep: Option<TickTrigger>,
)
    requires
        call_ensures(WatchLoop::sweep_trigger, (watch, plan, trigger, now), sweep),
    ensures
        trigger == TickTrigger::Poll && plan.woke_early && now
            - old(watch).cadence.last_poll_sweep < plan.sweep_every && (
        old(watch).cadence.retry_force is None || now < old(watch).cadence.retry_force->0)
            && plan.sweep_every > 0 ==> sweep is None,
        final(watch).cadence.last_poll_sweep == if sweep == Some(TickTrigger::Poll) {
            now
        } else {
            old(watch).cadence.last_poll_sweep
        },
        final(watch).cadence.retry_force == if trigger != TickTrigger::RegistrationLost
            && old(watch).cadence.retry_force is Some && old(watch).cadence.retry_force->0
            <= now {
            None
        } else {
            old(watch).cadence.retry_force
        },
        final(watch).cadence.next_refresh == old(watch).cadence.next_refresh,
        final(watch).cadence.next_check == old(watch).cadence.next_check,
        final(watch).cadence.retry_backoff == old(watch).cadence.retry_backoff,
        final(watch).wake == old(watch).wake,
        final(watch).run == old(watch).run,
{
}

/// A file change that a running loop is told of is swept at once behind its debounce
/// window, whatever the plan and the time.
pub proof fn law_file_change_is_swept(
    told: &mut WatchLoop,
    waiting: &mut WatchLoop,
    step: WakeStep,
    debounced: WatchLoop,
    woken: Option<TickTrigger>,
    deciding: &mut WatchLoop,
    plan: WaitPlan,
    now: u64,
    sweep: Option<TickTrigger>,
)
    requires
        !old(told).wake.stopped,
        !old(told).wake.registration_lost,
        call_ensures(WatchLoop::notify_change, (told,), ()),
        *old(waiting) == *final(told),
        call_ensures(WatchLoop::next_wake, (waiting,), step),
        debounced == *final(waiting),
        call_ensures(WatchLoop::on_debounced, (&debounced,), woken),
        woken is Some,
        *old(deciding) == debounced,
        call_ensures(WatchLoop::sweep_trigger, (deciding, plan, woken->0, now), sweep),
    ensures
        step == WakeStep::Debounce,
        woken == Some(TickTrigger::FsEvent),
        sweep == Some(TickTrigger::FsEvent),
        !final(waiting).wake.pending,
{
}

/// A wait takes up what it was told in order: a stop ends it, a lost registration comes
/// before a change and leaves the change for the next wait, and without either the loop
/// parks. What is taken up is cleared, and nothing else is.
pub proof fn law_wait_takes_up_what_was_told(watch: &mut WatchLoop, step: WakeStep)
    requires
        call_ensures(WatchLoop::next_wake, (watch,), step),
    ensures
        step == WakeStep::Stop <==> old(watch).wake.stopped,
        step == WakeStep::Trigger(TickTrigger::RegistrationLost) <==> !old(watch).wake.stopped
            && old(watch).wake.registration_lost,
        step == WakeStep::Debounce <==> !old(watch).wake.stopped
            && !old(watch).wake.registration_lost && old(watch).wake.pending,
        step == WakeStep::Park <==> !old(watch).wake.stopped && !old(watch).wake.registration_lost
            && !old(watch).wake.pending,
        final(watch).wake.stopped == old(watch).wake.stopped,
        final(watch).wake.pending == (old(watch).wake.pending && step != WakeStep::Debounce),
        final(watch).wake.registration_lost == (old(watch).wake.registration_lost
            && old(watch).wake.stopped),
        final(watch).run == old(watch).run,
        final(watch).cadence == old(watch).cadence,
{
}

/// A running loop keeps what it is told until it takes it up; a stopped one ignores it.
/// Stopping forgets nothing and cannot be undone by a signal.
pub proof fn law_signals_are_kept(
    changed: &mut WatchLoop,
    lost: &mut WatchLoop,
    stopping: &mut WatchLoop,
)
    requires
        call_ensures(WatchLoop::notify_change, (changed,), ()),
        call_ensures(WatchLoop::signal_registration_lost, (lost,), ()),
        call_ensures(WatchLoop::stop, (stopping,), ()),
    ensures
        !old(changed).wake.stopped ==> final(changed).wake.pending,
        old(changed).wake.stopped ==> final(changed).wake == old(changed).wake,
        final(changed).wake.registration_lost == old(changed).wake.registration_lost,
        final(changed).wake.stopped == old(changed).wake.stopped,
        final(changed).run == old(changed).run,
        final(changed).cadence == old(changed).cadence,
        !old(lost).wake.stopped ==> final(lost).wake.registration_lost,
        old(lost).wake.stopped ==> final(lost).wake == old(lost).wake,
        final(lost).wake.pending == old(lost).wake.pending,
        final(lost).wake.stopped == old(lost).wake.stopped,
        final(lost).run == old(lost).run,
        final(lost).cadence == old(lost).cadence,
        final(stopping).wake.stopped,
        final(stopping).wake.pending == old(stopping).wake.pending,
        final(stopping).run == old(stopping).run,
        final(stopping).cadence == old(stopping).cadence,
{
}

/// The wait that expires is a poll, and a debounce window that ends is a file change; a
/// stop takes the place of either. A window is cut short for a stop and for a lost
/// registration alone, and lasts what was asked for, within the bound.
pub proof fn law_waits_end_as_what_they_are(
    watch: WatchLoop,
    expired: Option<TickTrigger>,
    debounced: Option<TickTrigger>,
    cut: bool,
    window: u64,
)
    requires
        call_ensures(WatchLoop::on_timeout, (&watch,), expired),
        call_ensures(WatchLoop::on_debounced, (&watch,), debounced),
        call_ensures(WatchLoop::cuts_debounce, (&watch,), cut),
        call_ensures(WatchLoop::debounce_window, (&watch,), window),
    ensures
        watch.wake.stopped ==> expired is None && debounced is None && cut,
        !watch.wake.stopped ==> expired == Some(TickTrigger::Poll) && debounced == Some(
            TickTrigger::FsEvent,
        ),
        watch.wake.registration_lost ==> cut,
        !watch.wake.stopped && !watch.wake.registration_lost ==> !cut,
        watch.debounce_ms <= MAX_INTERVAL_MS ==> window == watch.debounce_ms,
        watch.debounce_ms > MAX_INTERVAL_MS ==> window == MAX_INTERVAL_MS,
{
}

/// One sweep runs at a time: a tick has the slot exactly where it was free. A file change
/// that finds it taken is remembered, and the end of the running sweep posts it, so that
/// the next wait of a running loop takes it up. A poll that finds it taken is dropped.
pub proof fn law_busy_change_is_not_lost(
    claiming: &mut WatchLoop,
    trigger: TickTrigger,
    claimed: bool,
    finishing: &mut WatchLoop,
)
    requires
        call_ensures(WatchLoop::claim_or_defer, (claiming, trigger), claimed),
        *old(finishing) == *final(claiming),
        call_ensures(WatchLoop::finish, (finishing,), ()),
    ensures
        claimed == !old(claiming).run.in_flight,
        final(claiming).run.in_flight,
        final(claiming).run.completed == old(claiming).run.completed,
        final(claiming).wake == old(claiming).wake,
        final(claiming).cadence == old(claiming).cadence,
        !claimed && trigger == TickTrigger::FsEvent && !old(claiming).wake.stopped
            ==> final(finishing).wake.pending,
        old(claiming).run.deferred_force && !old(claiming).wake.stopped
            ==> final(finishing).wake.pending,
        !old(claiming).run.deferred_force && (claimed || trigger != TickTrigger::FsEvent)
            ==> final(finishing).wake == old(claiming).wake,
        old(claiming).wake.pending ==> final(finishing).wake.pending,
        final(finishing).wake.stopped == old(claiming).wake.stopped,
        final(finishing).wake.registration_lost == old(claiming).wake.registration_lost,
        !final(finishing).run.in_flight,
        !final(finishing).run.deferred_force,
        final(finishing).run.completed != old(claiming).run.completed,
        old(claiming).run.completed < u64::MAX ==> final(finishing).run.completed
            == old(claiming).run.completed + 1,
        final(finishing).cadence == old(claiming).cadence,
{
}

/// A caller that asks for a sweep has the slot, or waits for the sweep that runs: it has
/// waited enough once that sweep has finished, and not before.
pub proof fn law_caller_joins_the_running_sweep(
    asking: &mut WatchLoop,
    target: Option<u64>,
    before: bool,
    finishing: &mut WatchLoop,
    done: WatchLoop,
    after: bool,
    idle: bool,
)
    requires
        call_ensures(WatchLoop::tick, (asking,), target),
        target is Some ==> call_ensures(WatchLoop::joined, (&*final(asking), target->0), before),
        *old(finishing) == *final(asking),
        call_ensures(WatchLoop::finish, (finishing,), ()),
        done == *final(finishing),
        target is Some ==> call_ensures(WatchLoop::joined, (&done, target->0), after),
        call_ensures(WatchLoop::is_idle, (&done,), idle),
    ensures
        target is None <==> !old(asking).run.in_flight,
        final(asking).run.in_flight,
        target is Some ==> !before && after,
        idle,
{
}

/// A forced sweep that failed, or that found the store locked, is still owed; no other
/// is. Only a file change forces a scan.
pub proof fn law_only_an_unread_change_is_owed(
    trigger: TickTrigger,
    outcome: Option<TickOutcome>,
    owed: bool,
    forced: bool,
    report: TickReport,
    other: TickOutcome,
)
    requires
        call_ensures(owes, (trigger, outcome), owed),
        call_ensures(TickTrigger::forces_scan, (trigger,), forced),
        call_ensures(TickReport::of, (trigger, other), report),
    ensures
        forced <==> trigger == TickTrigger::FsEvent,
        trigger == TickTrigger::FsEvent && outcome is None ==> owed,
        trigger == TickTrigger::FsEvent && outcome is Some ==> owed == outcome->0.contended,
        trigger != TickTrigger::FsEvent ==> !owed,
        report.trigger == trigger && report.outcome == other && report.forced == forced,
{
}

/// A sweep that is owed is tried again when the backoff has passed: no wait lasts longer
/// than that, and the wake that ends it sweeps as a file change. The next backoff is
/// longer, up to the backstop.
pub proof fn law_owed_sweep_comes_back(
    swept: &mut WatchLoop,
    trigger: TickTrigger,
    now: u64,
    planning: WatchLoop,
    driver: WatchDriver,
    coverage: Coverage,
    plan: WaitPlan,
    deciding: &mut WatchLoop,
    woken: TickTrigger,
    later: u64,
    sweep: Option<TickTrigger>,
)
    requires
        call_ensures(WatchLoop::on_swept, (swept, trigger, true, now), ()),
        planning == *final(swept),
        call_ensures(WatchLoop::plan_wait, (&planning, driver, coverage, now), plan),
        *old(deciding) == planning,
        woken != TickTrigger::RegistrationLost,
        later >= now + old(swept).cadence.retry_backoff,
        call_ensures(WatchLoop::sweep_trigger, (deciding, plan, woken, later), sweep),
    ensures
        plan.idle_ms <= old(swept).cadence.retry_backoff,
        sweep == Some(TickTrigger::FsEvent),
        now + old(swept).cadence.retry_backoff <= u64::MAX && old(swept).cadence.retry_backoff
            <= MAX_INTERVAL_MS ==> final(swept).cadence.retry_force == Some(
            (now + old(swept).cadence.retry_backoff) as u64,
        ),
        final(swept).cadence.retry_backoff <= old(swept).slow_poll_ms
            || final(swept).cadence.retry_backoff <= CONTENDED_SWEEP_RETRY_MS,
        final(swept).cadence.retry_backoff == 2 * old(swept).cadence.retry_backoff
            || final(swept).cadence.retry_backoff == old(swept).slow_poll_ms
            || final(swept).cadence.retry_backoff == CONTENDED_SWEEP_RETRY_MS
            || final(swept).cadence.retry_backoff == u64::MAX,
        final(swept).cadence.retry_backoff >= old(swept).cadence.retry_backoff
            || final(swept).cadence.retry_backoff >= old(swept).slow_poll_ms,
        final(swept).cadence.last_poll_sweep == old(swept).cadence.last_poll_sweep,
        final(swept).wake == old(swept).wake,
{
}

/// A forced sweep that got through pays what was owed and starts the backoff anew; any
/// other that got through leaves what is owed as it is.
pub proof fn law_paid_sweep_is_not_owed(swept: &mut WatchLoop, trigger: TickTrigger, now: u64)
    requires
        call_ensures(WatchLoop::on_swept, (swept, trigger, false, now), ()),
    ensures
        trigger == TickTrigger::FsEvent ==> final(swept).cadence.retry_force is None
            && final(swept).cadence.retry_backoff == CONTENDED_SWEEP_RETRY_MS,
        trigger != TickTrigger::FsEvent ==> final(swept).cadence.retry_force
            == old(swept).cadence.retry_force && final(swept).cadence.retry_backoff
            == old(swept).cadence.retry_backoff,
        final(swept).cadence.last_poll_sweep == old(swept).cadence.last_poll_sweep,
        final(swept).cadence.next_refresh == old(swept).cadence.next_refresh,
        final(swept).cadence.next_check == old(swept).cadence.next_check,
        final(swept).wake == old(swept).wake,
        final(swept).run == old(swept).run,
{
}

/// A wait is never longer than the cadence of the driver, and is one of the cadences or
/// what is left until a retry: filesystem events are backed by the slow poll, and a
/// polling loop polls on its interval. While a registration is being recovered the loop
/// comes back on the short recheck, and while a root is not attached on the shorter of
/// its two cadences. A loop is woken early exactly where its wait is shorter than its
/// cadence for another reason than a retry.
pub proof fn law_wait_is_bounded(
    watch: WatchLoop,
    driver: WatchDriver,
    coverage: Coverage,
    now: u64,
    plan: WaitPlan,
)
    requires
        call_ensures(WatchLoop::plan_wait, (&watch, driver, coverage, now), plan),
    ensures
        driver == WatchDriver::FsEvents ==> plan.sweep_every == watch.slow_poll_ms
            && plan.refresh_every == watch.slow_poll_ms,
        driver == WatchDriver::Polling ==> plan.sweep_every == watch.poll_interval_ms
            && plan.refresh_every <= watch.poll_interval_ms,
        driver == WatchDriver::Polling && coverage.backend && (coverage.pending
            || watch.refreshes_roots) ==> plan.refresh_every <= watch.slow_poll_ms,
        driver == WatchDriver::Polling && !(coverage.backend && (coverage.pending
            || watch.refreshes_roots)) ==> plan.refresh_every == watch.poll_interval_ms,
        plan.idle_ms <= plan.sweep_every,
        plan.idle_ms <= plan.refresh_every,
        coverage.backend && coverage.recovering ==> plan.idle_ms <= LOST_REGISTRATION_RECHECK_MS,
        coverage.backend && (coverage.recovering || coverage.pending) ==> plan.idle_ms
            <= watch.slow_poll_ms && plan.idle_ms <= watch.poll_interval_ms,
        watch.cadence.retry_force matches Some(at) ==> plan.idle_ms <= if at > now {
            at - now
        } else {
            0
        },
        plan.idle_ms == watch.slow_poll_ms || plan.idle_ms == watch.poll_interval_ms
            || plan.idle_ms == LOST_REGISTRATION_RECHECK_MS || (
        watch.cadence.retry_force matches Some(at) && plan.idle_ms == if at > now {
            at - now
        } else {
            0
        }),
        watch.cadence.retry_force is None ==> plan.woke_early == (plan.idle_ms
            < plan.sweep_every),
        !plan.woke_early && watch.cadence.retry_force is None ==> plan.idle_ms
            == plan.sweep_every,
{
}

/// What is due on a wake: the roots are derived anew when their time has come, and the
/// registrations are checked when theirs has, whenever the roots are, and at once where
/// one was reported lost. A derivation is next due one cadence later; a reported loss is
/// taken up by the wake that sees it.
pub proof fn law_lost_registration_is_checked_at_once(
    watch: &mut WatchLoop,
    plan: WaitPlan,
    trigger: TickTrigger,
    now: u64,
    due: WakePlan,
)
    requires
        call_ensures(WatchLoop::on_wake, (watch, plan, trigger, now), due),
    ensures
        trigger == TickTrigger::RegistrationLost || old(watch).wake.registration_lost
            ==> due.check_due,
        due.refresh_due <==> now >= old(watch).cadence.next_refresh,
        due.refresh_due || now >= old(watch).cadence.next_check ==> due.check_due,
        due.check_due ==> due.refresh_due || now >= old(watch).cadence.next_check || trigger
            == TickTrigger::RegistrationLost || old(watch).wake.registration_lost,
        due.refresh_due && plan.refresh_every <= MAX_INTERVAL_MS && now + plan.refresh_every
            <= u64::MAX ==> final(watch).cadence.next_refresh == now + plan.refresh_every,
        !due.refresh_due ==> final(watch).cadence.next_refresh
            == old(watch).cadence.next_refresh,
        trigger != TickTrigger::RegistrationLost ==> !final(watch).wake.registration_lost,
        trigger == TickTrigger::RegistrationLost ==> final(watch).wake == old(watch).wake,
        final(watch).wake.pending == old(watch).wake.pending,
        final(watch).wake.stopped == old(watch).wake.stopped,
        final(watch).cadence.last_poll_sweep == old(watch).cadence.last_poll_sweep,
        final(watch).cadence.retry_force == old(watch).cadence.retry_force,
        final(watch).cadence.next_check == old(watch).cadence.next_check,
        final(watch).run == old(watch).run,
{
}

/// A check is followed by another: soon where it found a registration that is being
/// recovered, no later than either cadence where a root is not attached, and with the
/// roots otherwise.
pub proof fn law_check_is_followed_by_another(
    watch: &mut WatchLoop,
    coverage: Coverage,
    refresh_every: u64,
    now: u64,
)
    requires
        call_ensures(WatchLoop::on_checked, (watch, coverage, refresh_every, now), ()),
        now + MAX_INTERVAL_MS <= u64::MAX,
        refresh_every <= MAX_INTERVAL_MS,
    ensures
        final(watch).cadence.next_check >= now,
        coverage.backend && coverage.recovering ==> final(watch).cadence.next_check <= now
            + LOST_REGISTRATION_RECHECK_MS,
        coverage.backend && (coverage.recovering || coverage.pending)
            ==> final(watch).cadence.next_check <= now + old(watch).slow_poll_ms
            && final(watch).cadence.next_check <= now + old(watch).poll_interval_ms,
        !(coverage.backend && (coverage.recovering || coverage.pending))
            ==> final(watch).cadence.next_check == now + refresh_every,
        final(watch).cadence.next_refresh == old(watch).cadence.next_refresh,
        final(watch).cadence.last_poll_sweep == old(watch).cadence.last_poll_sweep,
        final(watch).cadence.retry_force == old(watch).cadence.retry_force,
        final(watch).wake == old(watch).wake,
        final(watch).run == old(watch).run,
{
}

/// A loop starts with nothing owed and its cadences counted from the start.
pub proof fn law_start_counts_from_now(watch: &mut WatchLoop, now: u64)
    requires
        call_ensures(WatchLoop::start, (watch, now), ()),
        old(watch).slow_poll_ms <= MAX_INTERVAL_MS,
        now + MAX_INTERVAL_MS <= u64::MAX,
    ensures
        final(watch).cadence.last_poll_sweep == now,
        final(watch).cadence.next_refresh == now + old(watch).slow_poll_ms,
        final(watch).cadence.next_check == now + old(watch).slow_poll_ms,
        final(watch).cadence.retry_force is None,
        final(watch).cadence.retry_backoff == CONTENDED_SWEEP_RETRY_MS,
        final(watch).wake == old(watch).wake,
        final(watch).run == old(watch).run,
        final(watch).slow_poll_ms == old(watch).slow_poll_ms,
        final(watch).poll_interval_ms == old(watch).poll_interval_ms,
{
}

/// A moment and an interval add up, an interval beyond the bound counting as the bound;
/// where the clock cannot hold the sum, the moment itself is due.
pub proof fn law_deadline_is_the_sum(now: u64, millis: u64, at: u64, bounded: u64)
    requires
        call_ensures(deadline_after, (now, millis), at),
        call_ensures(bounded_ms, (millis,), bounded),
    ensures
        millis <= MAX_INTERVAL_MS ==> bounded == millis,
        millis > MAX_INTERVAL_MS ==> bounded == MAX_INTERVAL_MS,
        now + bounded <= u64::MAX ==> at == now + bounded,
        now + bounded > u64::MAX ==> at == now,
{
}

/// A path that is joined of two is split into the parts of the one and of the other.
proof fn lemma_split_joined(a: Seq<char>, b: Seq<char>)
    ensures
        text::split_on(a + seq!['/'] + b, '/') == text::split_on(a, '/') + text::split_on(b, '/'),
        text::split_on(b, '/').len() > 0,
    decreases b.len(),
{
    let all = a + seq!['/'] + b;
    if b.len() == 0 {
        assert(all.drop_last() =~= a);
        assert(all.last() == '/');
        assert(text::split_on(all, '/') =~= text::split_on(a, '/') + text::split_on(b, '/'));
    } else {
        let front = b.drop_last();
        lemma_split_joined(a, front);
        assert(all.drop_last() =~= a + seq!['/'] + front);
        assert(all.last() == b.last());
        let left = text::split_on(a, '/');
        let right = text::split_on(front, '/');
        let rest = left + right;
        assert(rest.last() == right.last());
        assert(rest.drop_last() =~= left + right.drop_last());
        assert(text::split_on(all, '/') =~= left + text::split_on(b, '/'));
    }
}

proof fn lemma_meaningful_joined(p: Seq<Seq<char>>, q: Seq<Seq<char>>)
    ensures
        watch::meaningful(p + q) == watch::meaningful(p) + watch::meaningful(q),
    decreases q.len(),
{
    if q.len() == 0 {
        assert(p + q =~= p);
        assert(watch::meaningful(p) + watch::meaningful(q) =~= watch::meaningful(p));
    } else {
        lemma_meaningful_joined(p, q.drop_last());
        assert((p + q).drop_last() =~= p + q.drop_last());
        assert((p + q).last() == q.last());
        assert(watch::meaningful(p + q) =~= watch::meaningful(p) + watch::meaningful(q));
    }
}

proof fn lemma_joined(a: Seq<char>, b: Seq<char>)
    ensures
        watch::components(a + seq!['/'] + b) == watch::components(a) + watch::components(b),
{
    lemma_split_joined(a, b);
    lemma_meaningful_joined(text::split_on(a, '/'), text::split_on(b, '/'));
}

/// Whether a text is the name of an entry of a directory.
pub open spec fn is_entry(name: Seq<char>) -> bool {
    &&& name.len() > 0
    &&& !name.contains('/')
    &&& name != seq!['.']
}

proof fn lemma_unsplit(name: Seq<char>)
    requires
        !name.contains('/'),
    ensures
        text::split_on(name, '/') == seq![name],
    decreases name.len(),
{
    if name.len() > 0 {
        let front = name.drop_last();
        assert(!front.contains('/')) by {
            if front.contains('/') {
                let i = choose|i: int| 0 <= i < front.len() && front[i] == '/';
                assert(name[i] == '/');
            }
        }
        lemma_unsplit(front);
        assert(name[name.len() - 1] != '/');
        assert(front.push(name.last()) =~= name);
        let rest = text::split_on(front, '/');
        assert(rest.drop_last().push(rest.last().push(name.last())) =~= seq![name]);
    } else {
        assert(name =~= Seq::<char>::empty());
        assert(text::split_on(name, '/') =~= seq![name]);
    }
}

proof fn lemma_entry(name: Seq<char>)
    requires
        is_entry(name),
    ensures
        watch::components(name) == seq![name],
{
    lemma_unsplit(name);
    reveal_strlit(".");
    assert("."@ =~= seq!['.']);
    assert(seq![name].drop_last() =~= Seq::<Seq<char>>::empty());
    assert(watch::meaningful(seq![name].drop_last()) =~= Seq::<Seq<char>>::empty());
    assert(watch::components(name) =~= seq![name]);
}

/// Whether an event names a path.
pub open spec fn is_on(event: FsEvent, path: Seq<char>) -> bool {
    exists|i: int| 0 <= i < event.paths@.len() && (#[trigger] event.paths@[i])@ == path
}

/// A change of a watched root, or of anything under a watched tree, belongs to what is
/// watched, however deep it is; under a watched directory, a change of an entry does.
pub proof fn law_change_under_a_root_is_evidence(
    event: FsEvent,
    roots: Vec<WatchRoot>,
    matched: bool,
    k: int,
    below: Seq<char>,
)
    requires
        call_ensures(event_matches_evidence, (&event, &roots), matched),
        0 <= k < roots@.len(),
    ensures
        is_on(event, roots@[k].path@) ==> matched,
        roots@[k].depth == WatchDepth::Tree && is_on(
            event,
            roots@[k].path@ + seq!['/'] + below,
        ) ==> matched,
        roots@[k].depth == WatchDepth::Directory && is_entry(below) && is_on(
            event,
            roots@[k].path@ + seq!['/'] + below,
        ) ==> matched,
        event.rescan ==> matched,
{
    let root = roots@[k];
    let parts = watch::components(root.path@);
    assert(parts.take(parts.len() as int) =~= parts);
    if is_on(event, root.path@) {
        let i = choose|i: int| 0 <= i < event.paths@.len() && (#[trigger] event.paths@[i])@
            == root.path@;
        assert(watch::root_covers(roots@[k], watch::components(event.paths@[i]@)));
        assert(watch::any_covers(roots@, event.paths@[i]@));
    }
    let under = root.path@ + seq!['/'] + below;
    lemma_joined(root.path@, below);
    let all = watch::components(under);
    assert(all.take(parts.len() as int) =~= parts);
    if is_on(event, under) {
        let i = choose|i: int| 0 <= i < event.paths@.len() && (#[trigger] event.paths@[i])@
            == under;
        if root.depth == WatchDepth::Tree {
            assert(watch::root_covers(roots@[k], watch::components(event.paths@[i]@)));
            assert(watch::any_covers(roots@, event.paths@[i]@));
        }
        if root.depth == WatchDepth::Directory && is_entry(below) {
            lemma_entry(below);
            assert(watch::root_covers(roots@[k], watch::components(event.paths@[i]@)));
            assert(watch::any_covers(roots@, event.paths@[i]@));
        }
    }
}

/// A change beside the roots is none of theirs: one of an entry's entry under a watched
/// directory, one of anything under a watched file, and one of a path that leaves the root's
/// directory under another name.
pub proof fn law_change_beside_a_root_is_not_evidence(
    event: FsEvent,
    roots: Vec<WatchRoot>,
    matched: bool,
    path: Seq<char>,
    directory: Seq<char>,
    own: Seq<char>,
    other: Seq<char>,
    below: Seq<char>,
)
    requires
        call_ensures(event_matches_evidence, (&event, &roots), matched),
        !event.rescan,
        event.paths@.len() == 1,
        event.paths@[0]@ == path,
        roots@.len() == 1,
        roots@[0].resolved is None,
        is_entry(own),
        is_entry(other),
    ensures
        roots@[0].depth == WatchDepth::Directory && path == roots@[0].path@ + seq!['/'] + own + seq![
            '/',
        ] + other ==> !matched,
        roots@[0].depth == WatchDepth::File && path == roots@[0].path@ + seq!['/'] + own ==> !matched,
        roots@[0].path@ == directory + seq!['/'] + own && path == directory + seq!['/'] + other
            + seq!['/'] + below && own != other ==> !matched,
        roots@[0].path@ == directory + seq!['/'] + own && path == directory + seq!['/'] + other
            && own != other ==> !matched,
{
    let root = roots@[0];
    let parts = watch::components(root.path@);
    let all = watch::components(path);
    lemma_entry(own);
    lemma_entry(other);
    if matched {
        let i = choose|i: int|
            0 <= i < event.paths@.len() && watch::any_covers(
                roots@,
                (#[trigger] event.paths@[i])@,
            );
        assert(watch::root_covers(root, all));
        if root.depth == WatchDepth::Directory && path == root.path@ + seq!['/'] + own + seq!['/']
            + other {
            lemma_joined(root.path@ + seq!['/'] + own, other);
            lemma_joined(root.path@, own);
            assert(all.len() == parts.len() + 2);
        }
        if root.depth == WatchDepth::File && path == root.path@ + seq!['/'] + own {
            lemma_joined(root.path@, own);
            assert(all.len() == parts.len() + 1);
        }
        let base = watch::components(directory);
        let n = base.len() as int;
        if root.path@ == directory + seq!['/'] + own && own != other && path == directory + seq![
            '/',
        ] + other + seq!['/'] + below {
            lemma_joined(directory, own);
            lemma_joined(directory + seq!['/'] + other, below);
            lemma_joined(directory, other);
            assert(parts[n] == own);
            assert(all[n] == other);
            assert(parts.len() == n + 1);
            if root.depth != WatchDepth::File {
                assert(all.take(parts.len() as int)[n] == parts[n]);
            }
        }
        if root.path@ == directory + seq!['/'] + own && own != other && path == directory + seq![
            '/',
        ] + other {
            lemma_joined(directory, own);
            lemma_joined(directory, other);
            assert(parts[n] == own);
            assert(all[n] == other);
            assert(parts.len() == n + 1);
            if root.depth != WatchDepth::File {
                assert(all.take(parts.len() as int)[n] == parts[n]);
            }
        }
    }
}

proof fn lemma_keys_at(roots: Seq<WatchRoot>, path: Seq<char>, n: int, k: int)
    requires
        0 <= k < n <= roots.len(),
        watch::root_registers_at(roots[k], watch::components(path)),
    ensures
        watch::keys_at(roots, path, n).contains(watch::registration_key_of(roots[k])),
    decreases n,
{
    let rest = watch::keys_at(roots, path, n - 1);
    let all = watch::keys_at(roots, path, n);
    let key = watch::registration_key_of(roots[k]);
    if k == n - 1 {
        assert(all[rest.len() as int] == key);
    } else {
        lemma_keys_at(roots, path, n - 1, k);
        let x = choose|x: int| 0 <= x < rest.len() && rest[x] == key;
        assert(all[x] == key);
    }
}

proof fn lemma_lost_keys(event: FsEvent, roots: Seq<WatchRoot>, n: int, i: int, key: Seq<char>)
    requires
        0 <= i < n <= event.paths@.len(),
        watch::keys_at(roots, event.paths@[i]@, roots.len() as int).contains(key),
    ensures
        watch::lost_keys(event, roots, n).contains(key),
    decreases n,
{
    let rest = watch::lost_keys(event, roots, n - 1);
    let last = watch::keys_at(roots, event.paths@[n - 1]@, roots.len() as int);
    let all = watch::lost_keys(event, roots, n);
    if i == n - 1 {
        let x = choose|x: int| 0 <= x < last.len() && last[x] == key;
        assert(all[rest.len() + x] == key);
    } else {
        lemma_lost_keys(event, roots, n - 1, i, key);
        let x = choose|x: int| 0 <= x < rest.len() && rest[x] == key;
        assert(all[x] == key);
    }
}

/// A removal of a watched directory or tree loses its registration, and so does a rename of
/// it to another name; what arrives under its name loses none.
pub proof fn law_removed_root_loses_its_registration(
    event: FsEvent,
    roots: Vec<WatchRoot>,
    lost: Vec<String>,
    key: String,
    i: int,
    k: int,
)
    requires
        call_ensures(lost_registration_keys, (&event, &roots), lost),
        0 <= k < roots@.len(),
        call_ensures(WatchRoot::registration_key, (&roots@[k],), key),
        roots@[k].depth != WatchDepth::File,
        0 <= i < event.paths@.len(),
        event.paths@[i]@ == roots@[k].path@,
    ensures
        event.kind == FsEventKind::Remove ==> exists|x: int|
            0 <= x < lost@.len() && (#[trigger] lost@[x])@ == key@,
        event.kind == FsEventKind::ModifyName(RenameMode::From) && i == 0 ==> exists|x: int|
            0 <= x < lost@.len() && (#[trigger] lost@[x])@ == key@,
        event.kind == FsEventKind::ModifyName(RenameMode::To) ==> lost@.len() == 0,
        event.kind == FsEventKind::Create || event.kind == FsEventKind::ModifyOther
            ==> lost@.len() == 0,
{
    let path = event.paths@[i]@;
    let keys = text::views(lost@);
    lemma_keys_at(roots@, path, roots@.len() as int, k);
    if event.kind == FsEventKind::Remove || (event.kind == FsEventKind::ModifyName(
        RenameMode::From,
    ) && i == 0) {
        lemma_lost_keys(event, roots@, watch::gone_paths(event), i, key@);
        let x = choose|x: int| 0 <= x < keys.len() && keys[x] == key@;
        assert(lost@[x]@ == key@);
    } else {
        assert(watch::gone_paths(event) == 0 ==> keys.len() == 0);
    }
}

/// A failure of the backend loses the registration of every root, and forgets none that was
/// lost before.
pub proof fn law_backend_failure_loses_every_registration(
    roots: Vec<WatchRoot>,
    stale: &mut Vec<String>,
    woken: bool,
    k: int,
    key: String,
    earlier: int,
)
    requires
        call_ensures(handle_backend_error, (&roots, stale), woken),
        0 <= k < roots@.len(),
        call_ensures(WatchRoot::registration_key, (&roots@[k],), key),
    ensures
        woken,
        exists|x: int| 0 <= x < final(stale)@.len() && (#[trigger] final(stale)@[x])@ == key@,
        0 <= earlier < old(stale)@.len() ==> exists|x: int|
            0 <= x < final(stale)@.len() && (#[trigger] final(stale)@[x])@
                == old(stale)@[earlier]@,
{
    let before = text::views(old(stale)@);
    let after = text::views(final(stale)@);
    assert(watch::registration_key_of(roots@[k]) == key@);
    assert(after.contains(key@));
    let x = choose|x: int| 0 <= x < after.len() && after[x] == key@;
    assert(final(stale)@[x]@ == key@);
    if 0 <= earlier < old(stale)@.len() {
        assert(before[earlier] == old(stale)@[earlier]@);
        assert(before.contains(before[earlier]));
        assert(after.contains(before[earlier]));
        let y = choose|y: int| 0 <= y < after.len() && after[y] == before[earlier];
        assert(final(stale)@[y]@ == old(stale)@[earlier]@);
    }
}

/// Only reading a file, or changing what is said about it, leaves the evidence as it is.
pub proof fn law_only_reading_changes_nothing(kind: FsEventKind, changes: bool)
    requires
        call_ensures(event_can_change_evidence, (kind,), changes),
    ensures
        !changes <==> kind == FsEventKind::Access || kind == FsEventKind::ModifyMetadata,
{
}

} // verus!
