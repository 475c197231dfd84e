//! Live capture: what a watch loop does, wake by wake.
//!
//! The loop is driven by filesystem events where it can be, with a slow poll
//! behind them, and by polling alone where it cannot. This module holds every
//! decision of the loop as a function of its state; the caller owns the threads,
//! the clock and the watcher, and reports what happened. Times are milliseconds
//! of one monotonic clock.
use crate::text;
use crate::text::same_text;
use vstd::prelude::*;
use vstd::string::*;

verus! {

/// How often a registration that was lost is retried.
pub const LOST_REGISTRATION_RECHECK_MS: u64 = 250;

/// How soon a forced sweep that could not take the store's lock is tried again,
/// before backing off.
pub const CONTENDED_SWEEP_RETRY_MS: u64 = 250;

/// The longest any configurable interval may be: seven days.
pub const MAX_INTERVAL_MS: u64 = 604_800_000;

/// Default coalescing window for bursts of filesystem events.
pub const DEFAULT_DEBOUNCE_MS: u64 = 200;

/// Default slow polling backstop while filesystem events drive the loop.
pub const DEFAULT_SLOW_POLL_MS: u64 = 30_000;

/// Default cadence of the polling driver.
pub const DEFAULT_POLL_INTERVAL_MS: u64 = 1_000;

/// The lesser of two numbers.
pub open spec fn least(a: u64, b: u64) -> u64 {
    if a <= b {
        a
    } else {
        b
    }
}

fn min_ms(a: u64, b: u64) -> (r: u64)
    ensures
        r == least(a, b),
{
    if a <= b {
        a
    } else {
        b
    }
}

/// One configurable interval, bounded.
pub fn bounded_ms(millis: u64) -> (r: u64)
    ensures
        r == least(millis, MAX_INTERVAL_MS),
{
    min_ms(millis, MAX_INTERVAL_MS)
}

/// A moment plus a bounded interval; the moment itself where the clock cannot
/// represent the sum.
pub open spec fn deadline(now: u64, millis: u64) -> u64 {
    if now + least(millis, MAX_INTERVAL_MS) <= u64::MAX {
        (now + least(millis, MAX_INTERVAL_MS)) as u64
    } else {
        now
    }
}

/// A moment plus a bounded interval, never overflowing.
pub fn deadline_after(now: u64, millis: u64) -> (r: u64)
    ensures
        r == deadline(now, millis),
{
    match now.checked_add(bounded_ms(millis)) {
        Some(at) => at,
        None => now,
    }
}

/// Which driver a running loop selected.
#[derive(Debug, Clone, Copy, PartialEq, Eq, Structural)]
pub enum WatchDriver {
    /// Filesystem events, with the slow poll as a backstop.
    FsEvents,
    /// Fixed-interval polling only.
    Polling,
}

impl WatchDriver {
    /// The reported name.
    pub fn as_str(self) -> (r: &'static str)
        ensures
            r@ == match self {
                WatchDriver::FsEvents => "fs-events"@,
                WatchDriver::Polling => "polling"@,
            },
    {
        match self {
            WatchDriver::FsEvents => "fs-events",
            WatchDriver::Polling => "polling",
        }
    }
}

/// What woke a tick.
#[derive(Debug, Clone, Copy, PartialEq, Eq, Structural)]
pub enum TickTrigger {
    /// The first sweep, before the loop parks.
    Startup,
    /// A filesystem event, after the debounce window settled.
    FsEvent,
    /// The polling driver's interval, or the slow backstop.
    Poll,
    /// An explicit request.
    Manual,
    /// The backend reported that a registration is gone. No sweep: a watch has
    /// been lost, nothing has been written.
    RegistrationLost,
}

/// Whether a trigger bypasses the fingerprint fast path: only a filesystem event
/// does, because it can arrive before the write is flushed.
pub open spec fn is_forced(trigger: TickTrigger) -> bool {
    trigger == TickTrigger::FsEvent
}

impl TickTrigger {
    /// Whether this trigger bypasses the fingerprint fast path.
    pub fn forces_scan(self) -> (r: bool)
        ensures
            r == is_forced(self),
    {
        self == TickTrigger::FsEvent
    }

    /// The reported name.
    pub fn as_str(self) -> (r: &'static str)
        ensures
            r@ == match self {
                TickTrigger::Startup => "startup"@,
                TickTrigger::FsEvent => "fs-event"@,
                TickTrigger::Poll => "poll"@,
                TickTrigger::Manual => "manual"@,
                TickTrigger::RegistrationLost => "registration-lost"@,
            },
    {
        match self {
            TickTrigger::Startup => "startup",
            TickTrigger::FsEvent => "fs-event",
            TickTrigger::Poll => "poll",
            TickTrigger::Manual => "manual",
            TickTrigger::RegistrationLost => "registration-lost",
        }
    }
}

/// What one tick's sweep did.
#[derive(Debug, Clone, Copy, PartialEq, Eq, Structural)]
pub struct TickOutcome {
    /// A full sweep ran.
    pub swept: bool,
    /// The sweep was skipped because nothing moved.
    pub skipped_unchanged: bool,
    /// The sweep could not run: another process held the lock.
    pub contended: bool,
}

impl Default for TickOutcome {
    fn default() -> (r: Self)
        ensures
            !r.swept && !r.skipped_unchanged && !r.contended,
    {
        TickOutcome { swept: false, skipped_unchanged: false, contended: false }
    }
}

/// One completed tick.
#[derive(Debug, Clone, Copy, PartialEq, Eq, Structural)]
pub struct TickReport {
    pub trigger: TickTrigger,
    pub forced: bool,
    pub outcome: TickOutcome,
}

impl TickReport {
    /// The report of a tick.
    pub fn of(trigger: TickTrigger, outcome: TickOutcome) -> (r: Self)
        ensures
            r.trigger == trigger,
            r.forced == is_forced(trigger),
            r.outcome == outcome,
    {
        TickReport { trigger, forced: trigger.forces_scan(), outcome }
    }
}

/// How much of a root is watched.
#[derive(Debug, Clone, Copy, PartialEq, Eq, Structural)]
pub enum WatchDepth {
    /// One file; its directory is registered.
    File,
    /// A directory and its direct entries.
    Directory,
    /// A directory and everything under it.
    Tree,
}

/// One root to watch. It answers to the spelling that it was given and, once the
/// filesystem has been asked, to the resolved one.
#[derive(Debug)]
pub struct WatchRoot {
    pub path: String,
    pub resolved: Option<String>,
    pub depth: WatchDepth,
}

/// Whether a component of a path names something.
pub open spec fn names_something(part: Seq<char>) -> bool {
    part.len() > 0 && part != "."@
}

/// Some components without the empty ones and those that stay in place.
pub open spec fn meaningful(parts: Seq<Seq<char>>) -> Seq<Seq<char>>
    decreases parts.len(),
{
    if parts.len() == 0 {
        Seq::empty()
    } else {
        let rest = meaningful(parts.drop_last());
        if names_something(parts.last()) {
            rest.push(parts.last())
        } else {
            rest
        }
    }
}

/// The components of an absolute path.
pub open spec fn components(path: Seq<char>) -> Seq<Seq<char>> {
    meaningful(text::split_on(path, '/'))
}

/// The components of an absolute path: every spelling of a path has the same.
pub fn watch_path(path: &str) -> (r: Vec<String>)
    ensures
        text::views(r@) == components(path@),
{
    let parts = text::split_char(path, '/');
    let ghost all = text::views(parts@);
    let mut out: Vec<String> = Vec::new();
    let mut i: usize = 0;
    assert(text::views(out@) =~= meaningful(all.take(0)));
    while i < parts.len()
        invariant
            i <= parts.len(),
            all == text::views(parts@),
            text::views(out@) == meaningful(all.take(i as int)),
        decreases parts.len() - i,
    {
        let ghost earlier = text::views(out@);
        assert(all.take(i + 1).drop_last() =~= all.take(i as int));
        assert(all.take(i + 1).last() == parts@[i as int]@);
        if !parts[i].as_str().is_empty() && !same_text(parts[i].as_str(), ".") {
            out.push(parts[i].clone());
            assert(text::views(out@) =~= earlier.push(parts@[i as int]@));
        }
        i = i + 1;
    }
    assert(all.take(parts@.len() as int) =~= all);
    out
}

/// Whether a list of components starts with another.
pub open spec fn is_under(path: Seq<Seq<char>>, root: Seq<Seq<char>>) -> bool {
    path.len() >= root.len() && path.take(root.len() as int) == root
}

fn starts_with_parts(path: &Vec<String>, root: &Vec<String>) -> (r: bool)
    ensures
        r == is_under(text::views(path@), text::views(root@)),
{
    let ghost p = text::views(path@);
    let ghost q = text::views(root@);
    if path.len() < root.len() {
        return false;
    }
    let mut i: usize = 0;
    while i < root.len()
        invariant
            i <= root.len() <= path.len(),
            p == text::views(path@),
            q == text::views(root@),
            forall|j: int| 0 <= j < i ==> p[j] == q[j],
        decreases root.len() - i,
    {
        if !same_text(path[i].as_str(), root[i].as_str()) {
            assert(p[i as int] != q[i as int]);
            assert(p.take(q.len() as int)[i as int] != q[i as int]);
            return false;
        }
        i = i + 1;
    }
    assert(p.take(q.len() as int) =~= q);
    true
}

/// Whether a root, under one of its spellings, covers a path.
pub open spec fn spelling_covers(
    spelling: Seq<char>,
    depth: WatchDepth,
    path: Seq<Seq<char>>,
) -> bool {
    let root = components(spelling);
    match depth {
        WatchDepth::Tree => is_under(path, root),
        WatchDepth::Directory => is_under(path, root) && path.len() <= root.len() + 1,
        WatchDepth::File => path == root,
    }
}

/// Whether a root covers a path.
pub open spec fn root_covers(root: WatchRoot, path: Seq<Seq<char>>) -> bool {
    ||| spelling_covers(root.path@, root.depth, path)
    ||| root.resolved is Some && spelling_covers(root.resolved->0@, root.depth, path)
}

/// The components at which a root is registered under one of its spellings: a
/// file is registered at its directory.
pub open spec fn registered_at(spelling: Seq<char>, depth: WatchDepth) -> Seq<Seq<char>> {
    let root = components(spelling);
    if depth == WatchDepth::File && root.len() > 0 {
        root.drop_last()
    } else {
        root
    }
}

/// Whether a path is where a root is registered.
pub open spec fn root_registers_at(root: WatchRoot, path: Seq<Seq<char>>) -> bool {
    ||| registered_at(root.path@, root.depth) == path
    ||| root.resolved is Some && registered_at(root.resolved->0@, root.depth) == path
}

/// The text before the last separator of a path.
pub open spec fn parent_of(path: Seq<char>) -> Seq<char>
    decreases path.len(),
{
    if path.len() == 0 {
        path
    } else if path.last() == '/' {
        if path.len() == 1 {
            path
        } else {
            path.drop_last()
        }
    } else {
        parent_of(path.drop_last())
    }
}

/// The key of a root's registration: its resolved spelling where it has one, and
/// the directory of a file.
pub open spec fn registration_key_of(root: WatchRoot) -> Seq<char> {
    let spelling = match root.resolved {
        Some(resolved) => resolved@,
        None => root.path@,
    };
    if root.depth == WatchDepth::File {
        parent_of(spelling)
    } else {
        spelling
    }
}

fn parent_text(path: &str) -> (r: String)
    ensures
        r@ == parent_of(path@),
{
    let chars = text::chars_of(path);
    let mut n: usize = chars.len();
    assert(path@.take(n as int) =~= path@);
    while n > 0
        invariant
            n <= chars.len(),
            chars@ == path@,
            parent_of(path@) == parent_of(path@.take(n as int)),
        decreases n,
    {
        assert(path@.take(n as int).drop_last() =~= path@.take(n - 1));
        if chars[n - 1] == '/' {
            if n == 1 {
                return path.substring_char(0, 1).to_owned();
            }
            return path.substring_char(0, n - 1).to_owned();
        }
        n = n - 1;
    }
    path.substring_char(0, 0).to_owned()
}

impl WatchRoot {
    /// A root that covers a directory and everything under it.
    pub fn tree(path: String) -> (r: Self)
        ensures
            r.path == path,
            r.resolved is None,
            r.depth == WatchDepth::Tree,
    {
        WatchRoot { path, resolved: None, depth: WatchDepth::Tree }
    }

    /// A root that covers a directory and its direct entries.
    pub fn directory(path: String) -> (r: Self)
        ensures
            r.path == path,
            r.resolved is None,
            r.depth == WatchDepth::Directory,
    {
        WatchRoot { path, resolved: None, depth: WatchDepth::Directory }
    }

    /// A root that covers one file.
    pub fn file(path: String) -> (r: Self)
        ensures
            r.path == path,
            r.resolved is None,
            r.depth == WatchDepth::File,
    {
        WatchRoot { path, resolved: None, depth: WatchDepth::File }
    }

    /// The same root once more.
    pub fn copied(&self) -> (r: Self)
        ensures
            r == *self,
    {
        WatchRoot {
            path: self.path.clone(),
            resolved: self.resolved.clone(),
            depth: self.depth,
        }
    }

    /// The key of the registration.
    pub fn registration_key(&self) -> (r: String)
        ensures
            r@ == registration_key_of(*self),
    {
        let spelling = match &self.resolved {
            Some(resolved) => resolved.as_str(),
            None => self.path.as_str(),
        };
        if self.depth == WatchDepth::File {
            parent_text(spelling)
        } else {
            spelling.to_owned()
        }
    }

    /// Whether the root covers a path.
    pub fn covers(&self, path: &Vec<String>) -> (r: bool)
        ensures
            r == root_covers(*self, text::views(path@)),
    {
        if covers_as(self.path.as_str(), self.depth, path) {
            return true;
        }
        match &self.resolved {
            Some(resolved) => covers_as(resolved.as_str(), self.depth, path),
            None => false,
        }
    }

    /// Whether a path is where the root is registered.
    pub fn registers_at(&self, path: &Vec<String>) -> (r: bool)
        ensures
            r == root_registers_at(*self, text::views(path@)),
    {
        if registers_as(self.path.as_str(), self.depth, path) {
            return true;
        }
        match &self.resolved {
            Some(resolved) => registers_as(resolved.as_str(), self.depth, path),
            None => false,
        }
    }
}

fn covers_as(spelling: &str, depth: WatchDepth, path: &Vec<String>) -> (r: bool)
    ensures
        r == spelling_covers(spelling@, depth, text::views(path@)),
{
    let root = watch_path(spelling);
    proof {
        let p = text::views(path@);
        let q = text::views(root@);
        if p.len() == q.len() && is_under(p, q) {
            assert(p.take(q.len() as int) =~= p);
        }
        assert(q.take(q.len() as int) =~= q);
    }
    match depth {
        WatchDepth::Tree => starts_with_parts(path, &root),
        WatchDepth::Directory => starts_with_parts(path, &root) && path.len() - root.len() <= 1,
        WatchDepth::File => path.len() == root.len() && starts_with_parts(path, &root),
    }
}

fn registers_as(spelling: &str, depth: WatchDepth, path: &Vec<String>) -> (r: bool)
    ensures
        r == (registered_at(spelling@, depth) == text::views(path@)),
{
    let mut root = watch_path(spelling);
    let ghost full = text::views(root@);
    if depth == WatchDepth::File && root.len() > 0 {
        root.pop();
        assert(text::views(root@) =~= full.drop_last());
    }
    proof {
        let p = text::views(path@);
        let q = text::views(root@);
        if p.len() == q.len() && is_under(p, q) {
            assert(p.take(q.len() as int) =~= p);
        }
        assert(q.take(q.len() as int) =~= q);
    }
    path.len() == root.len() && starts_with_parts(path, &root)
}

/// Whether any of some roots covers a path.
pub open spec fn any_covers(roots: Seq<WatchRoot>, path: Seq<char>) -> bool {
    exists|i: int| 0 <= i < roots.len() && root_covers(#[trigger] roots[i], components(path))
}

/// Whether an event on a path belongs to one of some roots. Depth is enforced
/// here: not every backend can.
pub fn event_matches_roots(path: &str, roots: &Vec<WatchRoot>) -> (r: bool)
    ensures
        r == any_covers(roots@, path@),
{
    let parts = watch_path(path);
    let mut i: usize = 0;
    while i < roots.len()
        invariant
            i <= roots.len(),
            text::views(parts@) == components(path@),
            forall|j: int| 0 <= j < i ==> !root_covers(#[trigger] roots@[j], components(path@)),
        decreases roots.len() - i,
    {
        if roots[i].covers(&parts) {
            return true;
        }
        i = i + 1;
    }
    false
}

/// The keys of the first `n` roots that are registered at a path.
pub open spec fn keys_at(roots: Seq<WatchRoot>, path: Seq<char>, n: int) -> Seq<Seq<char>>
    decreases n,
{
    if n <= 0 {
        Seq::empty()
    } else {
        let rest = keys_at(roots, path, n - 1);
        if root_registers_at(roots[n - 1], components(path)) {
            rest.push(registration_key_of(roots[n - 1]))
        } else {
            rest
        }
    }
}

/// The registration keys of every root that a path names.
pub fn removed_registration_keys(path: &str, roots: &Vec<WatchRoot>) -> (r: Vec<String>)
    ensures
        text::views(r@) == keys_at(roots@, path@, roots@.len() as int),
{
    let parts = watch_path(path);
    let mut out: Vec<String> = Vec::new();
    let mut i: usize = 0;
    assert(text::views(out@) =~= keys_at(roots@, path@, 0));
    while i < roots.len()
        invariant
            i <= roots.len(),
            text::views(parts@) == components(path@),
            text::views(out@) == keys_at(roots@, path@, i as int),
        decreases roots.len() - i,
    {
        let ghost earlier = text::views(out@);
        if roots[i].registers_at(&parts) {
            let key = roots[i].registration_key();
            let ghost view = key@;
            out.push(key);
            assert(text::views(out@) =~= earlier.push(view));
        }
        i = i + 1;
    }
    out
}

/// How a name changed.
#[derive(Debug, Clone, Copy, PartialEq, Eq, Structural)]
pub enum RenameMode {
    Any,
    To,
    From,
    Both,
    Other,
}

/// What happened to a path.
#[derive(Debug, Clone, Copy, PartialEq, Eq, Structural)]
pub enum FsEventKind {
    /// The backend cannot say.
    Any,
    Access,
    Create,
    /// Permissions, ownership, timestamps.
    ModifyMetadata,
    ModifyName(RenameMode),
    /// Contents, or a modification that the backend cannot classify.
    ModifyOther,
    Remove,
    Other,
}

/// One filesystem event.
#[derive(Debug)]
pub struct FsEvent {
    pub kind: FsEventKind,
    pub paths: Vec<String>,
    /// The backend lost events and asks for a rescan.
    pub rescan: bool,
}

/// Whether an event can change transcript bytes or their names.
pub fn event_can_change_evidence(kind: FsEventKind) -> (r: bool)
    ensures
        r == (kind != FsEventKind::Access && kind != FsEventKind::ModifyMetadata),
{
    match kind {
        FsEventKind::Access => false,
        FsEventKind::ModifyMetadata => false,
        _ => true,
    }
}

/// Whether an event belongs to the watched evidence: a rescan and a pathless
/// event of unknown kind always do, any other by one of its paths.
pub open spec fn is_evidence(event: FsEvent, roots: Seq<WatchRoot>) -> bool {
    ||| event.rescan
    ||| event.paths@.len() == 0 && (event.kind == FsEventKind::Any || event.kind
        == FsEventKind::Other)
    ||| exists|i: int| 0 <= i < event.paths@.len() && any_covers(roots, (#[trigger] event.paths@[i])@)
}

/// Whether an event belongs to the watched evidence.
pub fn event_matches_evidence(event: &FsEvent, roots: &Vec<WatchRoot>) -> (r: bool)
    ensures
        r == is_evidence(*event, roots@),
{
    if event.rescan {
        return true;
    }
    if event.paths.len() == 0 && (event.kind == FsEventKind::Any || event.kind
        == FsEventKind::Other) {
        return true;
    }
    let mut i: usize = 0;
    while i < event.paths.len()
        invariant
            i <= event.paths.len(),
            forall|j: int| 0 <= j < i ==> !any_covers(roots@, (#[trigger] event.paths@[j])@),
        decreases event.paths.len() - i,
    {
        if event_matches_roots(event.paths[i].as_str(), roots) {
            return true;
        }
        i = i + 1;
    }
    false
}

/// How many of an event's paths name something that is gone: every path of a
/// removal, the first of a rename away, and none of a rename to.
pub open spec fn gone_paths(event: FsEvent) -> int {
    match event.kind {
        FsEventKind::Remove => event.paths@.len() as int,
        FsEventKind::ModifyName(mode) => if mode == RenameMode::To {
            0
        } else if event.paths@.len() == 0 {
            0
        } else {
            1
        },
        _ => 0,
    }
}

/// The keys of the registrations at the first `n` paths of an event.
pub open spec fn lost_keys(event: FsEvent, roots: Seq<WatchRoot>, n: int) -> Seq<Seq<char>>
    decreases n,
{
    if n <= 0 {
        Seq::empty()
    } else {
        lost_keys(event, roots, n - 1) + keys_at(
            roots,
            event.paths@[n - 1]@,
            roots.len() as int,
        )
    }
}

/// The registrations that a removal or a rename away invalidated.
pub fn lost_registration_keys(event: &FsEvent, roots: &Vec<WatchRoot>) -> (r: Vec<String>)
    ensures
        text::views(r@) == lost_keys(*event, roots@, gone_paths(*event)),
{
    let count: usize = match event.kind {
        FsEventKind::Remove => event.paths.len(),
        FsEventKind::ModifyName(mode) => if mode == RenameMode::To || event.paths.len() == 0 {
            0
        } else {
            1
        },
        _ => 0,
    };
    let mut out: Vec<String> = Vec::new();
    let mut i: usize = 0;
    assert(text::views(out@) =~= lost_keys(*event, roots@, 0));
    while i < count
        invariant
            i <= count <= event.paths.len(),
            text::views(out@) == lost_keys(*event, roots@, i as int),
        decreases count - i,
    {
        let ghost earlier = text::views(out@);
        let mut keys = removed_registration_keys(event.paths[i].as_str(), roots);
        let ghost more = text::views(keys@);
        out.append(&mut keys);
        assert(text::views(out@) =~= earlier + more);
        i = i + 1;
    }
    out
}

/// Whether a list of keys holds another list's keys besides its own, and no more.
pub open spec fn joins(after: Seq<Seq<char>>, before: Seq<Seq<char>>, roots: Seq<WatchRoot>) -> bool {
    forall|key: Seq<char>| #[trigger]
        after.contains(key) == (before.contains(key) || exists|i: int|
            0 <= i < roots.len() && registration_key_of(#[trigger] roots[i]) == key)
}

/// Marks every registration stale after a backend error, whose coverage can no
/// longer be trusted. Returns whether there is anything to reconcile.
pub fn handle_backend_error(roots: &Vec<WatchRoot>, stale: &mut Vec<String>) -> (r: bool)
    ensures
        r == (roots@.len() > 0),
        joins(text::views(final(stale)@), text::views(old(stale)@), roots@),
{
    let ghost before = text::views(stale@);
    let mut i: usize = 0;
    assert(joins(text::views(stale@), before, roots@.take(0)));
    while i < roots.len()
        invariant
            i <= roots.len(),
            before == text::views(old(stale)@),
            joins(text::views(stale@), before, roots@.take(i as int)),
        decreases roots.len() - i,
    {
        let key = roots[i].registration_key();
        let ghost earlier = text::views(stale@);
        let ghost now = roots@.take(i as int);
        let ghost next = roots@.take(i + 1);
        if !text::contains_text(stale, key.as_str()) {
            let ghost view = key@;
            stale.push(key);
            assert(text::views(stale@) =~= earlier.push(view));
        }
        proof {
            let after = text::views(stale@);
            assert forall|k: Seq<char>| #[trigger]
                after.contains(k) == (before.contains(k) || exists|j: int|
                    0 <= j < next.len() && registration_key_of(#[trigger] next[j]) == k) by {
                let mine = registration_key_of(roots@[i as int]);
                assert(earlier.contains(k) == (before.contains(k) || exists|j: int|
                    0 <= j < now.len() && registration_key_of(#[trigger] now[j]) == k));
                if earlier.contains(k) {
                    let t = choose|t: int| 0 <= t < earlier.len() && earlier[t] == k;
                    assert(after[t] == k);
                }
                if k == mine {
                    if !earlier.contains(k) {
                        assert(after[earlier.len() as int] == k);
                    }
                    assert(registration_key_of(next[i as int]) == k);
                }
                if after.contains(k) && !earlier.contains(k) {
                    let t = choose|t: int| 0 <= t < after.len() && after[t] == k;
                    if t < earlier.len() {
                        assert(earlier[t] == k);
                    }
                    assert(k == mine);
                }
                if exists|j: int| 0 <= j < now.len() && registration_key_of(#[trigger] now[j]) == k {
                    let j = choose|j: int|
                        0 <= j < now.len() && registration_key_of(#[trigger] now[j]) == k;
                    assert(registration_key_of(next[j]) == k);
                }
                if exists|j: int|
                    0 <= j < next.len() && registration_key_of(#[trigger] next[j]) == k {
                    let j = choose|j: int|
                        0 <= j < next.len() && registration_key_of(#[trigger] next[j]) == k;
                    if j < i {
                        assert(registration_key_of(now[j]) == k);
                    }
                }
            }
        }
        i = i + 1;
    }
    assert(roots@.take(roots@.len() as int) =~= roots@);
    roots.len() > 0
}

/// What the loop has been told and has not acted on yet.
#[derive(Debug, Clone, Copy, PartialEq, Eq, Structural)]
pub struct WakeState {
    /// A change was signalled. One bit: a thousand events cost one wakeup.
    pub pending: bool,
    /// A registration was reported gone and has to be made again.
    pub registration_lost: bool,
    pub stopped: bool,
}

/// What the loop does next while it waits.
#[derive(Debug, Clone, Copy, PartialEq, Eq, Structural)]
pub enum WakeStep {
    /// Leave the loop.
    Stop,
    /// Take up a trigger at once.
    Trigger(TickTrigger),
    /// Sleep through the debounce window, then take up a filesystem event.
    Debounce,
    /// Park until something is signalled or the wait expires.
    Park,
}

/// The step that a wake state calls for. A lost registration goes before a
/// change: every moment it waits, writes are invisible.
pub open spec fn wake_step(wake: WakeState) -> WakeStep {
    if wake.stopped {
        WakeStep::Stop
    } else if wake.registration_lost {
        WakeStep::Trigger(TickTrigger::RegistrationLost)
    } else if wake.pending {
        WakeStep::Debounce
    } else {
        WakeStep::Park
    }
}

/// The wake state once its step is taken. A change is cleared before the debounce
/// window, so events inside the window count for the next wait.
pub open spec fn after_step(wake: WakeState) -> WakeState {
    match wake_step(wake) {
        WakeStep::Trigger(_) => WakeState { registration_lost: false, ..wake },
        WakeStep::Debounce => WakeState { pending: false, ..wake },
        _ => wake,
    }
}

/// A wake state after a change signal; a stopped loop ignores it.
pub open spec fn with_change(wake: WakeState) -> WakeState {
    WakeState { pending: wake.pending || !wake.stopped, ..wake }
}

/// A wake state after a lost registration; a stopped loop ignores it.
pub open spec fn with_loss(wake: WakeState) -> WakeState {
    WakeState { registration_lost: wake.registration_lost || !wake.stopped, ..wake }
}

/// Which sweep runs, and what waits for it.
#[derive(Debug, Clone, Copy, PartialEq, Eq, Structural)]
pub struct RunState {
    pub in_flight: bool,
    /// A forced tick arrived while a run held the slot.
    pub deferred_force: bool,
    /// How many ticks have finished.
    pub completed: u64,
}

/// The run state after a tick asked for the slot: it has it, or, where the slot
/// is taken, it is remembered if it is forced and dropped if it is not.
pub open spec fn after_claim(run: RunState, trigger: TickTrigger) -> RunState {
    if run.in_flight {
        RunState { deferred_force: run.deferred_force || is_forced(trigger), ..run }
    } else {
        RunState { in_flight: true, ..run }
    }
}

/// The run state after a tick has finished.
pub open spec fn after_finish(run: RunState) -> RunState {
    RunState {
        in_flight: false,
        deferred_force: false,
        completed: if run.completed == u64::MAX {
            0
        } else {
            (run.completed + 1) as u64
        },
    }
}

/// Whether a count of finished ticks that was still to come when somebody began to wait
/// for it has been reached.
pub open spec fn has_joined(run: RunState, target: u64) -> bool {
    after_finish(run).completed != target
}

/// When the loop does what.
#[derive(Debug, Clone, Copy, PartialEq, Eq, Structural)]
pub struct Cadence {
    /// When the loop last swept on its own cadence.
    pub last_poll_sweep: u64,
    /// When the roots are derived again.
    pub next_refresh: u64,
    /// When the registrations are checked again.
    pub next_check: u64,
    /// When a forced sweep that is still owed is tried again.
    pub retry_force: Option<u64>,
    /// How long the next such wait is.
    pub retry_backoff: u64,
}

/// What the watcher covers.
#[derive(Debug, Clone, Copy, PartialEq, Eq, Structural)]
pub struct Coverage {
    /// A watcher backend is running.
    pub backend: bool,
    /// A root is not attached.
    pub pending: bool,
    /// A root that was attached is not any more.
    pub recovering: bool,
}

/// What drives the loop right now, and what it does not cover.
#[derive(Debug)]
pub struct DriverStatus {
    pub driver: WatchDriver,
    /// Roots the watcher is attached to.
    pub watched: Vec<String>,
    /// Roots that are not attached, and retried.
    pub pending: Vec<String>,
}

/// A live-capture watch loop.
#[derive(Debug)]
pub struct WatchLoop {
    /// Coalescing window for a burst of change signals.
    pub debounce_ms: u64,
    /// Cadence of the polling driver.
    pub poll_interval_ms: u64,
    /// Cadence of the backstop while filesystem events drive the loop.
    pub slow_poll_ms: u64,
    /// Whether to attempt filesystem events at all.
    pub use_fs_events: bool,
    /// Roots to watch.
    pub roots: Vec<WatchRoot>,
    /// Run one sweep before parking.
    pub immediate: bool,
    /// Whether the roots are derived again on the backstop.
    pub refreshes_roots: bool,
    pub wake: WakeState,
    pub run: RunState,
    pub cadence: Cadence,
    pub status: Option<DriverStatus>,
}

/// A loop whose cadences have started.
pub open spec fn started(watch: WatchLoop, now: u64) -> WatchLoop {
    WatchLoop {
        cadence: Cadence {
            last_poll_sweep: now,
            next_refresh: deadline(now, watch.slow_poll_ms),
            next_check: deadline(now, watch.slow_poll_ms),
            retry_force: None,
            retry_backoff: CONTENDED_SWEEP_RETRY_MS,
        },
        ..watch
    }
}

/// A loop that was asked to stop.
pub open spec fn stopped(watch: WatchLoop) -> WatchLoop {
    WatchLoop { wake: WakeState { stopped: true, ..watch.wake }, ..watch }
}

/// A loop whose sweep has finished. A forced tick that arrived meanwhile is posted as a
/// change.
pub open spec fn finished(watch: WatchLoop) -> WatchLoop {
    WatchLoop {
        run: after_finish(watch.run),
        wake: if watch.run.deferred_force {
            with_change(watch.wake)
        } else {
            watch.wake
        },
        ..watch
    }
}

/// How the loop waits, and what it then compares against.
#[derive(Debug, Clone, Copy, PartialEq, Eq, Structural)]
pub struct WaitPlan {
    pub sweep_every: u64,
    pub refresh_every: u64,
    /// How long to wait at most.
    pub idle_ms: u64,
    /// The wait was shortened below the sweep cadence.
    pub woke_early: bool,
}

/// What is due on a wake.
#[derive(Debug, Clone, Copy, PartialEq, Eq, Structural)]
pub struct WakePlan {
    /// Derive the roots again.
    pub refresh_due: bool,
    /// Check the registrations.
    pub check_due: bool,
}

/// How often the loop sweeps.
pub open spec fn sweep_cadence(watch: WatchLoop, driver: WatchDriver) -> u64 {
    match driver {
        WatchDriver::FsEvents => watch.slow_poll_ms,
        WatchDriver::Polling => watch.poll_interval_ms,
    }
}

/// How often the roots are derived again. A polling loop with something left to
/// attach does it on the backstop, not on the user's interval.
pub open spec fn refresh_cadence(watch: WatchLoop, driver: WatchDriver, coverage: Coverage) -> u64 {
    match driver {
        WatchDriver::FsEvents => watch.slow_poll_ms,
        WatchDriver::Polling => if coverage.backend && (coverage.pending || watch.refreshes_roots) {
            least(watch.slow_poll_ms, watch.poll_interval_ms)
        } else {
            watch.poll_interval_ms
        },
    }
}

/// How often the registrations are checked: shortened by coverage, not by driver.
pub open spec fn check_cadence_of(watch: WatchLoop, coverage: Coverage, refresh_every: u64) -> u64 {
    if coverage.backend && coverage.recovering {
        least(
            least(watch.slow_poll_ms, watch.poll_interval_ms),
            LOST_REGISTRATION_RECHECK_MS,
        )
    } else if coverage.backend && coverage.pending {
        least(watch.slow_poll_ms, watch.poll_interval_ms)
    } else {
        refresh_every
    }
}

/// How much of an interval is left at a moment.
pub open spec fn left_until(at: u64, now: u64) -> u64 {
    if at > now {
        (at - now) as u64
    } else {
        0
    }
}

/// How the loop waits.
pub open spec fn wait_plan(
    watch: WatchLoop,
    driver: WatchDriver,
    coverage: Coverage,
    now: u64,
) -> WaitPlan {
    let sweep_every = sweep_cadence(watch, driver);
    let refresh_every = refresh_cadence(watch, driver, coverage);
    let check_every = check_cadence_of(watch, coverage, refresh_every);
    let idle = least(least(sweep_every, refresh_every), check_every);
    WaitPlan {
        sweep_every,
        refresh_every,
        idle_ms: match watch.cadence.retry_force {
            Some(at) => least(idle, left_until(at, now)),
            None => idle,
        },
        woke_early: least(refresh_every, check_every) < sweep_every,
    }
}

/// Whether a tick leaves a change unread: only a forced one that failed, or that
/// found the store locked.
pub open spec fn is_owed(trigger: TickTrigger, outcome: Option<TickOutcome>) -> bool {
    is_forced(trigger) && (outcome is None || outcome->0.contended)
}

/// Whether a tick leaves a change unread. A failed tick has no outcome.
pub fn owes(trigger: TickTrigger, outcome: Option<TickOutcome>) -> (r: bool)
    ensures
        r == is_owed(trigger, outcome),
{
    trigger.forces_scan() && match outcome {
        Some(outcome) => outcome.contended,
        None => true,
    }
}

/// The next wait for an owed sweep: twice the last, up to the backstop.
pub open spec fn next_backoff(backoff: u64, slow_poll_ms: u64) -> u64 {
    let doubled = if 2 * backoff <= u64::MAX {
        (2 * backoff) as u64
    } else {
        u64::MAX
    };
    least(
        doubled,
        if slow_poll_ms >= CONTENDED_SWEEP_RETRY_MS {
            slow_poll_ms
        } else {
            CONTENDED_SWEEP_RETRY_MS
        },
    )
}

/// The cadence after a sweep.
pub open spec fn after_sweep(
    watch: WatchLoop,
    trigger: TickTrigger,
    owed: bool,
    now: u64,
) -> Cadence {
    if owed {
        Cadence {
            retry_force: Some(deadline(now, watch.cadence.retry_backoff)),
            retry_backoff: next_backoff(watch.cadence.retry_backoff, watch.slow_poll_ms),
            ..watch.cadence
        }
    } else if is_forced(trigger) {
        Cadence {
            retry_force: None,
            retry_backoff: CONTENDED_SWEEP_RETRY_MS,
            ..watch.cadence
        }
    } else {
        watch.cadence
    }
}

/// Whether an owed sweep is due.
pub open spec fn retry_is_due(cadence: Cadence, now: u64) -> bool {
    cadence.retry_force is Some && now >= cadence.retry_force->0
}

/// The trigger of the sweep that a wake calls for, where it calls for one. An
/// owed sweep comes back as the forced tick that it was.
pub open spec fn sweep_for(
    watch: WatchLoop,
    plan: WaitPlan,
    trigger: TickTrigger,
    now: u64,
) -> Option<TickTrigger> {
    if trigger == TickTrigger::RegistrationLost {
        None
    } else if retry_is_due(watch.cadence, now) {
        Some(TickTrigger::FsEvent)
    } else if trigger == TickTrigger::Poll && plan.woke_early && left_until(
        now,
        watch.cadence.last_poll_sweep,
    ) < plan.sweep_every {
        None
    } else {
        Some(trigger)
    }
}

/// The cadence once the sweep of a wake is decided.
pub open spec fn after_decision(
    watch: WatchLoop,
    plan: WaitPlan,
    trigger: TickTrigger,
    now: u64,
) -> Cadence {
    if trigger == TickTrigger::RegistrationLost {
        watch.cadence
    } else if retry_is_due(watch.cadence, now) {
        Cadence { retry_force: None, ..watch.cadence }
    } else if sweep_for(watch, plan, trigger, now) == Some(TickTrigger::Poll) {
        Cadence { last_poll_sweep: now, ..watch.cadence }
    } else {
        watch.cadence
    }
}

impl WatchLoop {
    /// A loop with defaults: 200 ms debounce, 1 s polling, 30 s backstop, and
    /// filesystem events enabled, with nothing to watch yet.
    pub fn new() -> (r: Self)
        ensures
            r.debounce_ms == DEFAULT_DEBOUNCE_MS,
            r.poll_interval_ms == DEFAULT_POLL_INTERVAL_MS,
            r.slow_poll_ms == DEFAULT_SLOW_POLL_MS,
            r.use_fs_events,
            r.roots@.len() == 0,
            r.immediate,
            !r.refreshes_roots,
            r.wake == (WakeState { pending: false, registration_lost: false, stopped: false }),
            r.run == (RunState { in_flight: false, deferred_force: false, completed: 0 }),
            r.cadence.retry_force is None,
            r.cadence.retry_backoff == CONTENDED_SWEEP_RETRY_MS,
            r.status is None,
    {
        WatchLoop {
            debounce_ms: DEFAULT_DEBOUNCE_MS,
            poll_interval_ms: DEFAULT_POLL_INTERVAL_MS,
            slow_poll_ms: DEFAULT_SLOW_POLL_MS,
            use_fs_events: true,
            roots: Vec::new(),
            immediate: true,
            refreshes_roots: false,
            wake: WakeState { pending: false, registration_lost: false, stopped: false },
            run: RunState { in_flight: false, deferred_force: false, completed: 0 },
            cadence: Cadence {
                last_poll_sweep: 0,
                next_refresh: 0,
                next_check: 0,
                retry_force: None,
                retry_backoff: CONTENDED_SWEEP_RETRY_MS,
            },
            status: None,
        }
    }

    /// The loop with some roots to watch.
    pub fn with_roots(self, roots: Vec<WatchRoot>) -> (r: Self)
        ensures
            r == (WatchLoop { roots, ..self }),
    {
        let mut watch = self;
        watch.roots = roots;
        watch
    }

    /// The loop with a coalescing window.
    pub fn with_debounce_ms(self, debounce_ms: u64) -> (r: Self)
        ensures
            r == (WatchLoop { debounce_ms: least(debounce_ms, MAX_INTERVAL_MS), ..self }),
    {
        let mut watch = self;
        watch.debounce_ms = bounded_ms(debounce_ms);
        watch
    }

    /// The loop with a polling cadence.
    pub fn with_poll_interval_ms(self, poll_interval_ms: u64) -> (r: Self)
        ensures
            r == (WatchLoop { poll_interval_ms: least(poll_interval_ms, MAX_INTERVAL_MS), ..self }),
    {
        let mut watch = self;
        watch.poll_interval_ms = bounded_ms(poll_interval_ms);
        watch
    }

    /// The loop with a backstop cadence.
    pub fn with_slow_poll_ms(self, slow_poll_ms: u64) -> (r: Self)
        ensures
            r == (WatchLoop { slow_poll_ms: least(slow_poll_ms, MAX_INTERVAL_MS), ..self }),
    {
        let mut watch = self;
        watch.slow_poll_ms = bounded_ms(slow_poll_ms);
        watch
    }

    /// The loop with filesystem events on or off.
    pub fn with_fs_events(self, use_fs_events: bool) -> (r: Self)
        ensures
            r == (WatchLoop { use_fs_events, ..self }),
    {
        let mut watch = self;
        watch.use_fs_events = use_fs_events;
        watch
    }

    /// The loop with or without a first sweep.
    pub fn with_immediate(self, immediate: bool) -> (r: Self)
        ensures
            r == (WatchLoop { immediate, ..self }),
    {
        let mut watch = self;
        watch.immediate = immediate;
        watch
    }

    /// The loop with or without roots that are derived again on the backstop.
    pub fn with_roots_refresh(self, refreshes_roots: bool) -> (r: Self)
        ensures
            r == (WatchLoop { refreshes_roots, ..self }),
    {
        let mut watch = self;
        watch.refreshes_roots = refreshes_roots;
        watch
    }

    /// Whether to bring a watcher up: a loop without roots that will derive some
    /// needs one too.
    pub fn wants_watcher(&self) -> (r: bool)
        ensures
            r == (self.use_fs_events && (self.roots@.len() > 0 || self.refreshes_roots)),
    {
        self.use_fs_events && (self.roots.len() > 0 || self.refreshes_roots)
    }

    /// Starts the cadences.
    pub fn start(&mut self, now: u64)
        ensures
            *final(self) == started(*old(self), now),
    {
        let at: u64 = deadline_after(now, self.slow_poll_ms);
        self.cadence = Cadence {
            last_poll_sweep: now,
            next_refresh: at,
            next_check: at,
            retry_force: None,
            retry_backoff: CONTENDED_SWEEP_RETRY_MS,
        };
    }

    /// Posts a change signal. A stopped loop ignores it.
    pub fn notify_change(&mut self)
        ensures
            *final(self) == (WatchLoop { wake: with_change(old(self).wake), ..*old(self) }),
    {
        if !self.wake.stopped {
            self.wake.pending = true;
        }
    }

    /// Posts that a registration is gone. A stopped loop ignores it.
    pub fn signal_registration_lost(&mut self)
        ensures
            *final(self) == (WatchLoop { wake: with_loss(old(self).wake), ..*old(self) }),
    {
        if !self.wake.stopped {
            self.wake.registration_lost = true;
        }
    }

    /// Asks the loop to stop.
    pub fn stop(&mut self)
        ensures
            *final(self) == stopped(*old(self)),
    {
        self.wake.stopped = true;
    }

    /// Takes the next step of a wait.
    pub fn next_wake(&mut self) -> (r: WakeStep)
        ensures
            r == wake_step(old(self).wake),
            *final(self) == (WatchLoop { wake: after_step(old(self).wake), ..*old(self) }),
    {
        if self.wake.stopped {
            return WakeStep::Stop;
        }
        if self.wake.registration_lost {
            self.wake.registration_lost = false;
            return WakeStep::Trigger(TickTrigger::RegistrationLost);
        }
        if self.wake.pending {
            self.wake.pending = false;
            return WakeStep::Debounce;
        }
        WakeStep::Park
    }

    /// The trigger of a wait that expired; none for a stopped loop.
    pub fn on_timeout(&self) -> (r: Option<TickTrigger>)
        ensures
            r == if self.wake.stopped {
                None::<TickTrigger>
            } else {
                Some(TickTrigger::Poll)
            },
    {
        if self.wake.stopped {
            None
        } else {
            Some(TickTrigger::Poll)
        }
    }

    /// The trigger of a debounce window that ended; none for a stopped loop.
    pub fn on_debounced(&self) -> (r: Option<TickTrigger>)
        ensures
            r == if self.wake.stopped {
                None::<TickTrigger>
            } else {
                Some(TickTrigger::FsEvent)
            },
    {
        if self.wake.stopped {
            None
        } else {
            Some(TickTrigger::FsEvent)
        }
    }

    /// Whether the debounce window ends early: for a stop, or for a registration
    /// that has to be made again.
    pub fn cuts_debounce(&self) -> (r: bool)
        ensures
            r == (self.wake.stopped || self.wake.registration_lost),
    {
        self.wake.stopped || self.wake.registration_lost
    }

    /// The length of the debounce window, bounded whatever the field holds.
    pub fn debounce_window(&self) -> (r: u64)
        ensures
            r == least(self.debounce_ms, MAX_INTERVAL_MS),
    {
        bounded_ms(self.debounce_ms)
    }

    /// Asks for the slot of a sweep on behalf of the driver. A tick that cannot
    /// have it is remembered if it is forced, and dropped if it is not.
    pub fn claim_or_defer(&mut self, trigger: TickTrigger) -> (r: bool)
        ensures
            r == !old(self).run.in_flight,
            *final(self) == (WatchLoop { run: after_claim(old(self).run, trigger), ..*old(self) }),
    {
        if self.run.in_flight {
            if trigger.forces_scan() {
                self.run.deferred_force = true;
            }
            return false;
        }
        self.run.in_flight = true;
        true
    }

    /// Asks for the slot of a sweep on behalf of a caller. Where one runs, the
    /// result is the count of finished ticks to wait for.
    pub fn tick(&mut self) -> (r: Option<u64>)
        ensures
            match r {
                None => !old(self).run.in_flight && *final(self) == (WatchLoop {
                    run: RunState { in_flight: true, ..old(self).run },
                    ..*old(self)
                }),
                Some(target) => old(self).run.in_flight && *final(self) == *old(self) && target
                    == after_finish(old(self).run).completed,
            },
    {
        if self.run.in_flight {
            Some(self.run.completed.wrapping_add(1))
        } else {
            self.run.in_flight = true;
            None
        }
    }

    /// Whether a caller that waits for a count of finished ticks has waited enough:
    /// whether the count has been reached. The count wraps, so it is the next one that
    /// is compared.
    pub fn joined(&self, target: u64) -> (r: bool)
        ensures
            r == has_joined(self.run, target),
    {
        self.run.completed.wrapping_add(1) != target
    }

    /// Whether no sweep runs.
    pub fn is_idle(&self) -> (r: bool)
        ensures
            r == !self.run.in_flight,
    {
        !self.run.in_flight
    }

    /// Gives the slot of a sweep back, and posts a change that arrived meanwhile.
    pub fn finish(&mut self)
        ensures
            *final(self) == finished(*old(self)),
    {
        let deferred = self.run.deferred_force;
        self.run = RunState {
            in_flight: false,
            deferred_force: false,
            completed: self.run.completed.wrapping_add(1),
        };
        if deferred {
            self.notify_change();
        }
    }

    /// How often the registrations are checked.
    pub fn check_cadence(&self, coverage: Coverage, refresh_every: u64) -> (r: u64)
        ensures
            r == check_cadence_of(*self, coverage, refresh_every),
    {
        if coverage.backend && coverage.recovering {
            min_ms(
                min_ms(self.slow_poll_ms, self.poll_interval_ms),
                LOST_REGISTRATION_RECHECK_MS,
            )
        } else if coverage.backend && coverage.pending {
            min_ms(self.slow_poll_ms, self.poll_interval_ms)
        } else {
            refresh_every
        }
    }

    /// Plans the next wait.
    pub fn plan_wait(&self, driver: WatchDriver, coverage: Coverage, now: u64) -> (r: WaitPlan)
        ensures
            r == wait_plan(*self, driver, coverage, now),
    {
        let sweep_every: u64 = match driver {
            WatchDriver::FsEvents => self.slow_poll_ms,
            WatchDriver::Polling => self.poll_interval_ms,
        };
        let refresh_every: u64 = match driver {
            WatchDriver::FsEvents => self.slow_poll_ms,
            WatchDriver::Polling => if coverage.backend && (coverage.pending
                || self.refreshes_roots) {
                min_ms(self.slow_poll_ms, self.poll_interval_ms)
            } else {
                self.poll_interval_ms
            },
        };
        let check_every: u64 = self.check_cadence(coverage, refresh_every);
        let idle: u64 = min_ms(min_ms(sweep_every, refresh_every), check_every);
        let idle_ms: u64 = match self.cadence.retry_force {
            Some(at) => min_ms(idle, at.saturating_sub(now)),
            None => idle,
        };
        WaitPlan {
            sweep_every,
            refresh_every,
            idle_ms,
            woke_early: min_ms(refresh_every, check_every) < sweep_every,
        }
    }

    /// Decides what is due on a wake. A registration that was reported lost makes
    /// the check due at once, whatever woke the loop.
    pub fn on_wake(&mut self, plan: WaitPlan, trigger: TickTrigger, now: u64) -> (r: WakePlan)
        ensures
            ({
                let lost = trigger == TickTrigger::RegistrationLost || old(self).wake.registration_lost;
                let refresh_due = now >= old(self).cadence.next_refresh;
                &&& r.refresh_due == refresh_due
                &&& r.check_due == (refresh_due || now >= old(self).cadence.next_check || lost)
                &&& *final(self) == (WatchLoop {
                    wake: if trigger == TickTrigger::RegistrationLost {
                        old(self).wake
                    } else {
                        WakeState { registration_lost: false, ..old(self).wake }
                    },
                    cadence: if refresh_due {
                        Cadence {
                            next_refresh: deadline(now, plan.refresh_every),
                            ..old(self).cadence
                        }
                    } else {
                        old(self).cadence
                    },
                    ..*old(self)
                })
            }),
    {
        let refresh_due = now >= self.cadence.next_refresh;
        let mut lost = trigger == TickTrigger::RegistrationLost;
        if !lost {
            lost = self.wake.registration_lost;
            self.wake.registration_lost = false;
        }
        let check_due = refresh_due || now >= self.cadence.next_check || lost;
        if refresh_due {
            self.cadence.next_refresh = deadline_after(now, plan.refresh_every);
        }
        WakePlan { refresh_due, check_due }
    }

    /// Dates the next check from what a check has found.
    pub fn on_checked(&mut self, coverage: Coverage, refresh_every: u64, now: u64)
        ensures
            *final(self) == (WatchLoop {
                cadence: Cadence {
                    next_check: deadline(
                        now,
                        check_cadence_of(*old(self), coverage, refresh_every),
                    ),
                    ..old(self).cadence
                },
                ..*old(self)
            }),
    {
        let every: u64 = self.check_cadence(coverage, refresh_every);
        self.cadence.next_check = deadline_after(now, every);
    }

    /// Decides whether a wake sweeps, and as what.
    pub fn sweep_trigger(&mut self, plan: WaitPlan, trigger: TickTrigger, now: u64) -> (r: Option<
        TickTrigger,
    >)
        ensures
            r == sweep_for(*old(self), plan, trigger, now),
            *final(self) == (WatchLoop {
                cadence: after_decision(*old(self), plan, trigger, now),
                ..*old(self)
            }),
    {
        if trigger == TickTrigger::RegistrationLost {
            return None;
        }
        let due = match self.cadence.retry_force {
            Some(at) => now >= at,
            None => false,
        };
        if due {
            self.cadence.retry_force = None;
            return Some(TickTrigger::FsEvent);
        }
        if trigger == TickTrigger::Poll {
            if plan.woke_early && now.saturating_sub(self.cadence.last_poll_sweep)
                < plan.sweep_every {
                return None;
            }
            self.cadence.last_poll_sweep = now;
        }
        Some(trigger)
    }

    /// Takes note of a sweep: one that is still owed is tried again, with a longer
    /// wait each time.
    pub fn on_swept(&mut self, trigger: TickTrigger, owed: bool, now: u64)
        ensures
            *final(self) == (WatchLoop {
                cadence: after_sweep(*old(self), trigger, owed, now),
                ..*old(self)
            }),
    {
        if owed {
            self.cadence.retry_force = Some(deadline_after(now, self.cadence.retry_backoff));
            let backoff: u64 = self.cadence.retry_backoff;
            let doubled: u64 = match backoff.checked_mul(2) {
                Some(n) => n,
                None => u64::MAX,
            };
            let most: u64 = if self.slow_poll_ms >= CONTENDED_SWEEP_RETRY_MS {
                self.slow_poll_ms
            } else {
                CONTENDED_SWEEP_RETRY_MS
            };
            self.cadence.retry_backoff = min_ms(doubled, most);
        } else if trigger.forces_scan() {
            self.cadence.retry_force = None;
            self.cadence.retry_backoff = CONTENDED_SWEEP_RETRY_MS;
        }
    }

    /// The driver the loop is using, once it has a status.
    pub fn driver(&self) -> (r: Option<WatchDriver>)
        ensures
            r == match self.status {
                Some(status) => Some(status.driver),
                None => None,
            },
    {
        match &self.status {
            Some(status) => Some(status.driver),
            None => None,
        }
    }

    /// What drives the loop; a loop without a status polls.
    pub fn current_driver(&self) -> (r: WatchDriver)
        ensures
            r == match self.status {
                Some(status) => status.driver,
                None => WatchDriver::Polling,
            },
    {
        match &self.status {
            Some(status) => status.driver,
            None => WatchDriver::Polling,
        }
    }

    /// What drives the loop and what it covers, once it has started.
    pub fn status(&self) -> (r: Option<&DriverStatus>)
        ensures
            match r {
                Some(status) => self.status == Some(*status),
                None => self.status is None,
            },
    {
        match &self.status {
            Some(status) => Some(status),
            None => None,
        }
    }
}

/// A forced tick that finds the slot taken is not lost: the end of the run that
/// holds the slot posts it as a change.
pub proof fn law_forced_tick_is_not_lost(run: RunState, wake: WakeState)
    requires
        run.in_flight,
        !wake.stopped,
    ensures
        after_claim(run, TickTrigger::FsEvent).deferred_force,
        wake_step(with_change(wake)) == WakeStep::Debounce || wake_step(with_change(wake))
            == WakeStep::Trigger(TickTrigger::RegistrationLost),
        with_change(wake).pending,
{
}

/// A change that is signalled stays pending until its debounce window opens:
/// taking up a lost registration first does not clear it.
pub proof fn law_change_survives_a_lost_registration(wake: WakeState)
    requires
        wake.pending,
        !wake.stopped,
        wake.registration_lost,
    ensures
        after_step(wake).pending,
        wake_step(after_step(wake)) == WakeStep::Debounce,
{
}

/// Who waits for the sweep that runs waits until it has finished, and no longer,
/// whatever the count of finished ticks is.
pub proof fn law_join_waits_for_the_running_sweep(run: RunState)
    ensures
        ({
            let target = after_finish(run).completed;
            &&& !has_joined(run, target)
            &&& !has_joined(after_claim(run, TickTrigger::FsEvent), target)
            &&& has_joined(after_finish(run), target)
            &&& has_joined(after_finish(after_finish(run)), target)
        }),
{
}

/// A backstop tick that finds the slot taken is dropped: nothing is queued.
pub proof fn law_backstop_tick_is_dropped(run: RunState)
    requires
        run.in_flight,
    ensures
        after_claim(run, TickTrigger::Poll) == run,
{
}

/// A stopped loop stays stopped, and ignores every signal.
pub proof fn law_stop_absorbs(wake: WakeState)
    requires
        wake.stopped,
    ensures
        with_change(wake) == wake,
        with_loss(wake) == wake,
        wake_step(wake) == WakeStep::Stop,
        after_step(wake) == wake,
{
}

/// Stopping a loop twice is stopping it once. Whatever it is told after that, a loop
/// that was stopped leaves at its next wait, also where it is started only then; and
/// the sweep that runs when it is stopped is the last that it holds the slot for.
pub proof fn law_stop_is_final(watch: WatchLoop, now: u64)
    ensures
        stopped(stopped(watch)) == stopped(watch),
        stopped(watch).run == watch.run,
        wake_step(stopped(watch).wake) == WakeStep::Stop,
        wake_step(started(stopped(watch), now).wake) == WakeStep::Stop,
        with_change(stopped(watch).wake) == stopped(watch).wake,
        with_loss(stopped(watch).wake) == stopped(watch).wake,
        after_step(stopped(watch).wake) == stopped(watch).wake,
        finished(stopped(watch)).wake == stopped(watch).wake,
        !finished(stopped(watch)).run.in_flight,
        !finished(stopped(watch)).run.deferred_force,
{
}

/// After a sweep that is still owed, the next wait ends no later than its retry,
/// and the wake that follows it sweeps with force.
pub proof fn law_owed_sweep_is_retried(
    watch: WatchLoop,
    driver: WatchDriver,
    coverage: Coverage,
    plan: WaitPlan,
    trigger: TickTrigger,
    now: u64,
    later: u64,
)
    requires
        trigger != TickTrigger::RegistrationLost,
        later >= deadline(now, watch.cadence.retry_backoff),
    ensures
        ({
            let next = WatchLoop {
                cadence: after_sweep(watch, TickTrigger::FsEvent, true, now),
                ..watch
            };
            &&& wait_plan(next, driver, coverage, now).idle_ms <= least(
                watch.cadence.retry_backoff,
                MAX_INTERVAL_MS,
            )
            &&& sweep_for(next, plan, trigger, later) == Some(TickTrigger::FsEvent)
        }),
{
}

/// The waits between retries never exceed the backstop, or the shortest wait
/// where the backstop is shorter still.
pub proof fn law_backoff_is_bounded(backoff: u64, slow_poll_ms: u64)
    requires
        backoff >= 1,
    ensures
        next_backoff(backoff, slow_poll_ms) <= slow_poll_ms || next_backoff(backoff, slow_poll_ms)
            <= CONTENDED_SWEEP_RETRY_MS,
        backoff <= next_backoff(backoff, slow_poll_ms) || next_backoff(backoff, slow_poll_ms)
            >= slow_poll_ms,
{
}

} // verus!
