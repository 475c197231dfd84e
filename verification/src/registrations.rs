//! The book that a watcher keeps of its roots.
//!
//! A watch is bound to the directory object that a name meant when it was made.
//! The book holds the roots that are registered, each with that object, those that
//! are not and are retried, and those that lost their registration. The caller
//! asks the filesystem and the watcher, and enters what it found.
use crate::text;
use crate::text::{contains_text, same_text};
use crate::watch::{Coverage, DriverStatus, WatchDriver, WatchLoop, WatchRoot};
use crate::watch;
use vstd::prelude::*;
use vstd::string::*;

verus! {

/// Which directory object a name refers to: its device and its inode.
#[derive(Debug, Clone, Copy, PartialEq, Eq, Structural)]
pub struct RootIdentity {
    pub device: u64,
    pub inode: u64,
}

/// One registration: the root, and the object it was made against.
#[derive(Debug)]
pub struct Registered {
    pub root: WatchRoot,
    pub identity: Option<RootIdentity>,
}

/// What a watcher knows of its roots.
#[derive(Debug)]
pub struct WatchBook {
    /// The roots that are registered.
    pub watched: Vec<Registered>,
    /// The roots that are not, and are retried.
    pub pending: Vec<WatchRoot>,
    /// The paths of the roots that were registered and are not any more.
    pub recovering: Vec<String>,
    /// The registration keys that the backend reported as gone.
    pub stale: Vec<String>,
    /// Every root, in the spellings that events are matched against.
    pub known: Vec<WatchRoot>,
}

/// The paths of some registrations.
pub open spec fn watched_paths(watched: Seq<Registered>) -> Seq<Seq<char>> {
    Seq::new(watched.len(), |i: int| watched[i].root.path@)
}

/// The paths of some roots.
pub open spec fn root_paths(roots: Seq<WatchRoot>) -> Seq<Seq<char>> {
    Seq::new(roots.len(), |i: int| roots[i].path@)
}

/// The first place of a path among some roots, from a place on; their number if
/// it is not there.
pub open spec fn place_from(roots: Seq<WatchRoot>, path: Seq<char>, i: int) -> int
    decreases roots.len() - i,
{
    if i >= roots.len() || roots[i].path@ == path {
        i
    } else {
        place_from(roots, path, i + 1)
    }
}

/// Some roots with one of them brought up to date: in the place of the first with
/// its path, or at the end.
pub open spec fn remembered(roots: Seq<WatchRoot>, root: WatchRoot) -> Seq<WatchRoot> {
    let at = place_from(roots, root.path@, 0);
    if at < roots.len() {
        roots.update(at, root)
    } else {
        roots.push(root)
    }
}

/// Some roots with the new ones of a list behind them, in the list's order.
pub open spec fn with_new(known: Seq<WatchRoot>, roots: Seq<WatchRoot>, n: int) -> Seq<WatchRoot>
    decreases n,
{
    if n <= 0 {
        known
    } else {
        let before = with_new(known, roots, n - 1);
        if root_paths(before).contains(roots[n - 1].path@) {
            before
        } else {
            before.push(roots[n - 1])
        }
    }
}

/// A list of texts without a text.
pub open spec fn without(list: Seq<Seq<char>>, text: Seq<char>) -> Seq<Seq<char>>
    decreases list.len(),
{
    if list.len() == 0 {
        list
    } else if list.last() == text {
        without(list.drop_last(), text)
    } else {
        without(list.drop_last(), text).push(list.last())
    }
}

/// What a removed text leaves behind: every other text, and not that one.
pub proof fn lemma_without(list: Seq<Seq<char>>, text: Seq<char>)
    ensures
        forall|x: Seq<char>| #[trigger]
            without(list, text).contains(x) == (list.contains(x) && x != text),
    decreases list.len(),
{
    if list.len() > 0 {
        let rest = list.drop_last();
        lemma_without(rest, text);
        assert forall|x: Seq<char>| #[trigger]
            without(list, text).contains(x) == (list.contains(x) && x != text) by {
            assert(without(rest, text).contains(x) == (rest.contains(x) && x != text));
            if list.contains(x) {
                let i = choose|i: int| 0 <= i < list.len() && list[i] == x;
                if i < rest.len() {
                    assert(rest[i] == x);
                }
            }
            if rest.contains(x) {
                let i = choose|i: int| 0 <= i < rest.len() && rest[i] == x;
                assert(list[i] == x);
            }
            let kept = without(rest, text);
            if list.last() != text {
                let all = kept.push(list.last());
                assert(all[kept.len() as int] == list.last());
                if kept.contains(x) {
                    let i = choose|i: int| 0 <= i < kept.len() && kept[i] == x;
                    assert(all[i] == x);
                }
                if all.contains(x) {
                    let i = choose|i: int| 0 <= i < all.len() && all[i] == x;
                    if i < kept.len() {
                        assert(kept[i] == x);
                    }
                }
                assert(list[list.len() - 1] == list.last());
            }
        }
    }
}

fn remove_text(list: &mut Vec<String>, text: &str)
    ensures
        text::views(final(list)@) == without(text::views(old(list)@), text@),
{
    let mut kept: Vec<String> = Vec::new();
    let mut i: usize = 0;
    let ghost all = text::views(list@);
    assert(text::views(kept@) =~= without(all.take(0), text@));
    while i < list.len()
        invariant
            i <= list.len(),
            all == text::views(list@),
            text::views(kept@) == without(all.take(i as int), text@),
        decreases list.len() - i,
    {
        let ghost before = text::views(kept@);
        proof {
            let next = all.take(i + 1);
            assert(next.drop_last() =~= all.take(i as int));
            assert(next.last() == list@[i as int]@);
        }
        if !same_text(list[i].as_str(), text) {
            kept.push(list[i].clone());
            assert(text::views(kept@) =~= before.push(list@[i as int]@));
        }
        i = i + 1;
    }
    assert(all.take(all.len() as int) =~= all);
    *list = kept;
}

fn find_root(roots: &Vec<WatchRoot>, path: &str) -> (r: usize)
    ensures
        r == place_from(roots@, path@, 0),
        r <= roots@.len(),
        (r < roots@.len()) == root_paths(roots@).contains(path@),
        r < roots@.len() ==> roots@[r as int].path@ == path@,
{
    let mut i: usize = 0;
    let ghost paths = root_paths(roots@);
    while i < roots.len()
        invariant
            i <= roots.len(),
            paths == root_paths(roots@),
            place_from(roots@, path@, 0) == place_from(roots@, path@, i as int),
            forall|j: int| 0 <= j < i ==> #[trigger] paths[j] != path@,
        decreases roots.len() - i,
    {
        if same_text(roots[i].path.as_str(), path) {
            assert(paths[i as int] == path@);
            return i;
        }
        assert(paths[i as int] != path@);
        i = i + 1;
    }
    i
}

/// The registration of a book at a place, as a check left it.
pub open spec fn reregistered(
    book: WatchBook,
    place: int,
    resolved: Option<String>,
    identity: Option<RootIdentity>,
) -> Registered {
    Registered { root: WatchRoot { resolved, ..book.watched@[place].root }, identity }
}

impl WatchBook {
    /// Whether the book is in order: every root it knows is registered or retried,
    /// and no other is; only a root that is retried can be recovering.
    pub open spec fn well_formed(self) -> bool {
        &&& forall|path: Seq<char>| #[trigger]
            root_paths(self.known@).contains(path) == (watched_paths(self.watched@).contains(path)
                || root_paths(self.pending@).contains(path))
        &&& forall|path: Seq<char>| #[trigger]
            text::views(self.recovering@).contains(path) ==> root_paths(self.pending@).contains(
                path,
            )
    }

    /// A book that knows some roots, none of them registered yet.
    pub fn new(roots: &Vec<WatchRoot>) -> (r: Self)
        ensures
            r.well_formed(),
            r.watched@.len() == 0,
            r.pending@ == roots@,
            r.known@ == roots@,
            r.recovering@.len() == 0,
            r.stale@.len() == 0,
    {
        let mut pending: Vec<WatchRoot> = Vec::new();
        let mut known: Vec<WatchRoot> = Vec::new();
        let mut i: usize = 0;
        while i < roots.len()
            invariant
                i <= roots.len(),
                pending@ == roots@.take(i as int),
                known@ == roots@.take(i as int),
            decreases roots.len() - i,
        {
            pending.push(roots[i].copied());
            known.push(roots[i].copied());
            assert(roots@.take(i + 1) =~= roots@.take(i as int).push(roots@[i as int]));
            i = i + 1;
        }
        assert(roots@.take(roots@.len() as int) =~= roots@);
        WatchBook { watched: Vec::new(), pending, recovering: Vec::new(), stale: Vec::new(), known }
    }

    /// Whether a registration that once existed is waiting to be made again.
    pub fn recovering(&self) -> (r: bool)
        ensures
            r == (self.recovering@.len() > 0),
    {
        self.recovering.len() > 0
    }

    /// The paths that are registered.
    pub fn watched(&self) -> (r: Vec<String>)
        ensures
            text::views(r@) == watched_paths(self.watched@),
    {
        let mut out: Vec<String> = Vec::new();
        let mut i: usize = 0;
        while i < self.watched.len()
            invariant
                i <= self.watched.len(),
                out@.len() == i,
                forall|j: int| 0 <= j < i ==> (#[trigger] out@[j])@ == self.watched@[j].root.path@,
            decreases self.watched.len() - i,
        {
            out.push(self.watched[i].root.path.clone());
            i = i + 1;
        }
        assert(text::views(out@) =~= watched_paths(self.watched@));
        out
    }

    /// The paths that are retried.
    pub fn pending(&self) -> (r: Vec<String>)
        ensures
            text::views(r@) == root_paths(self.pending@),
    {
        let mut out: Vec<String> = Vec::new();
        let mut i: usize = 0;
        while i < self.pending.len()
            invariant
                i <= self.pending.len(),
                out@.len() == i,
                forall|j: int| 0 <= j < i ==> (#[trigger] out@[j])@ == self.pending@[j].path@,
            decreases self.pending.len() - i,
        {
            out.push(self.pending[i].path.clone());
            i = i + 1;
        }
        assert(text::views(out@) =~= root_paths(self.pending@));
        out
    }

    /// What a loop needs to know of the coverage.
    pub fn coverage(&self) -> (r: Coverage)
        ensures
            r == (Coverage {
                backend: true,
                pending: self.pending@.len() > 0,
                recovering: self.recovering@.len() > 0,
            }),
    {
        Coverage {
            backend: true,
            pending: self.pending.len() > 0,
            recovering: self.recovering.len() > 0,
        }
    }

    /// Keeps the spellings that events are matched against in step with a root.
    fn remember(&mut self, root: WatchRoot)
        ensures
            *final(self) == (WatchBook { known: final(self).known, ..*old(self) }),
            final(self).known@ == remembered(old(self).known@, root),
            root_paths(old(self).known@).contains(root.path@) ==> root_paths(final(self).known@)
                == root_paths(old(self).known@),
    {
        let at: usize = find_root(&self.known, root.path.as_str());
        if at < self.known.len() {
            self.known.set(at, root);
        } else {
            self.known.push(root);
        }
        assert(root_paths(old(self).known@).contains(root.path@) ==> root_paths(self.known@)
            =~= root_paths(old(self).known@));
    }

    /// Takes on the roots of a list that are not known yet. Returns how many.
    pub fn adopt(&mut self, roots: &Vec<WatchRoot>) -> (r: usize)
        requires
            old(self).well_formed(),
        ensures
            final(self).well_formed(),
            final(self).known@ == with_new(old(self).known@, roots@, roots@.len() as int),
            r == final(self).known@.len() - old(self).known@.len(),
            final(self).pending@ == old(self).pending@ + final(self).known@.skip(
                old(self).known@.len() as int,
            ),
            final(self).watched == old(self).watched,
            final(self).recovering == old(self).recovering,
            final(self).stale == old(self).stale,
    {
        let mut added: usize = 0;
        let mut i: usize = 0;
        let ghost start = *self;
        assert(self.pending@ =~= start.pending@ + self.known@.skip(start.known@.len() as int));
        while i < roots.len()
            invariant
                i <= roots.len(),
                added <= i,
                self.well_formed(),
                self.known@ == with_new(start.known@, roots@, i as int),
                added == self.known@.len() - start.known@.len(),
                self.pending@ == start.pending@ + self.known@.skip(start.known@.len() as int),
                self.watched == start.watched,
                self.recovering == start.recovering,
                self.stale == start.stale,
            decreases roots.len() - i,
        {
            let at: usize = find_root(&self.known, roots[i].path.as_str());
            if at == self.known.len() {
                let ghost before = *self;
                self.known.push(roots[i].copied());
                self.pending.push(roots[i].copied());
                added = added + 1;
                proof {
                    let root = roots@[i as int];
                    assert(self.known@.skip(start.known@.len() as int) =~= before.known@.skip(
                        start.known@.len() as int,
                    ).push(root));
                    assert(self.pending@ =~= start.pending@ + self.known@.skip(
                        start.known@.len() as int,
                    ));
                    lemma_pushed_path(before.known@, root);
                    lemma_pushed_path(before.pending@, root);
                }
            }
            i = i + 1;
        }
        added
    }

    /// Checks a registration against the object that its name refers to now, and
    /// takes a report that it is gone off the list. Returns whether it is live: one
    /// that is not has to be made again.
    pub fn check(&mut self, place: usize, current: Option<RootIdentity>) -> (r: bool)
        requires
            place < old(self).watched@.len(),
        ensures
            ({
                let entry = old(self).watched@[place as int];
                let key = watch::registration_key_of(entry.root);
                let gone = text::views(old(self).stale@).contains(key);
                &&& r == (!gone && current is Some && current == entry.identity)
                &&& text::views(final(self).stale@) == without(text::views(old(self).stale@), key)
            }),
            final(self).watched == old(self).watched,
            final(self).pending == old(self).pending,
            final(self).recovering == old(self).recovering,
            final(self).known == old(self).known,
    {
        let key = self.watched[place].root.registration_key();
        let gone = contains_text(&self.stale, key.as_str());
        remove_text(&mut self.stale, key.as_str());
        let same = match (current, self.watched[place].identity) {
            (Some(now), Some(then)) => now == then,
            _ => false,
        };
        !gone && same
    }

    /// Enters that a registration was made again.
    pub fn reattached(
        &mut self,
        place: usize,
        resolved: Option<String>,
        identity: Option<RootIdentity>,
    )
        requires
            old(self).well_formed(),
            place < old(self).watched@.len(),
        ensures
            final(self).well_formed(),
            final(self).watched@ == old(self).watched@.update(
                place as int,
                reregistered(*old(self), place as int, resolved, identity),
            ),
            final(self).known@ == remembered(
                old(self).known@,
                reregistered(*old(self), place as int, resolved, identity).root,
            ),
            final(self).pending == old(self).pending,
            final(self).recovering == old(self).recovering,
            final(self).stale == old(self).stale,
    {
        let root = WatchRoot {
            path: self.watched[place].root.path.clone(),
            resolved: resolved,
            depth: self.watched[place].root.depth,
        };
        let ghost start = *self;
        proof {
            let paths = watched_paths(self.watched@);
            assert(paths[place as int] == root.path@);
            assert(paths.contains(root.path@));
        }
        self.watched.set(place, Registered { root: root.copied(), identity });
        assert(watched_paths(self.watched@) =~= watched_paths(start.watched@));
        self.remember(root);
    }

    /// Enters that a registration is lost: its root is retried, as one that
    /// recovers.
    pub fn lost(&mut self, place: usize)
        requires
            old(self).well_formed(),
            place < old(self).watched@.len(),
        ensures
            final(self).well_formed(),
            final(self).watched@ == old(self).watched@.remove(place as int),
            final(self).pending@ == old(self).pending@.push(old(self).watched@[place as int].root),
            forall|path: Seq<char>| #[trigger]
                text::views(final(self).recovering@).contains(path) == (text::views(
                    old(self).recovering@,
                ).contains(path) || path == old(self).watched@[place as int].root.path@),
            final(self).known == old(self).known,
            final(self).stale == old(self).stale,
    {
        let ghost start = *self;
        let entry = self.watched.remove(place);
        let ghost root = entry.root;
        if !contains_text(&self.recovering, entry.root.path.as_str()) {
            self.recovering.push(entry.root.path.clone());
            assert(text::views(self.recovering@) =~= text::views(start.recovering@).push(
                root.path@,
            ));
        }
        self.pending.push(entry.root);
        proof {
            let before = text::views(start.recovering@);
            let after = text::views(self.recovering@);
            assert forall|path: Seq<char>| #[trigger] after.contains(path) == (before.contains(path)
                || path == root.path@) by {
                lemma_pushed_text(before, root.path@, path);
            }
            lemma_pushed_path(start.pending@, root);
            lemma_removed_path(start.watched@, place as int);
        }
    }

    /// Enters that a root that was retried is registered.
    pub fn attached(
        &mut self,
        place: usize,
        resolved: Option<String>,
        identity: Option<RootIdentity>,
    )
        requires
            old(self).well_formed(),
            place < old(self).pending@.len(),
        ensures
            final(self).well_formed(),
            ({
                let root = WatchRoot { resolved, ..old(self).pending@[place as int] };
                &&& final(self).pending@ == old(self).pending@.remove(place as int)
                &&& final(self).watched@ == old(self).watched@.push(Registered { root, identity })
                &&& final(self).known@ == remembered(old(self).known@, root)
                &&& text::views(final(self).recovering@) == without(
                    text::views(old(self).recovering@),
                    root.path@,
                )
            }),
            final(self).stale == old(self).stale,
    {
        let ghost start = *self;
        let taken = self.pending.remove(place);
        let ghost first = taken;
        remove_text(&mut self.recovering, taken.path.as_str());
        let root = WatchRoot { path: taken.path, resolved: resolved, depth: taken.depth };
        let copy = root.copied();
        self.watched.push(Registered { root, identity });
        proof {
            let paths = root_paths(start.pending@);
            assert(paths[place as int] == copy.path@);
            assert(paths.contains(copy.path@));
            assert(root_paths(start.known@).contains(copy.path@));
        }
        self.remember(copy);
        proof {
            lemma_without(text::views(start.recovering@), first.path@);
            lemma_pushed_watch(start.watched@, self.watched@.last());
            lemma_taken_path(start.pending@, place as int);
        }
    }

    /// Records that some registrations are gone.
    pub fn mark_stale(&mut self, keys: &Vec<String>)
        ensures
            forall|key: Seq<char>| #[trigger]
                text::views(final(self).stale@).contains(key) == (text::views(
                    old(self).stale@,
                ).contains(key) || text::views(keys@).contains(key)),
            final(self).watched == old(self).watched,
            final(self).pending == old(self).pending,
            final(self).recovering == old(self).recovering,
            final(self).known == old(self).known,
    {
        let ghost before = text::views(self.stale@);
        let ghost all = text::views(keys@);
        let mut i: usize = 0;
        while i < keys.len()
            invariant
                i <= keys.len(),
                all == text::views(keys@),
                forall|key: Seq<char>| #[trigger]
                    text::views(self.stale@).contains(key) == (before.contains(key) || all.take(
                        i as int,
                    ).contains(key)),
                self.watched == old(self).watched,
                self.pending == old(self).pending,
                self.recovering == old(self).recovering,
                self.known == old(self).known,
            decreases keys.len() - i,
        {
            let ghost earlier = text::views(self.stale@);
            if !contains_text(&self.stale, keys[i].as_str()) {
                self.stale.push(keys[i].clone());
                assert(text::views(self.stale@) =~= earlier.push(all[i as int]));
            }
            proof {
                let after = text::views(self.stale@);
                assert(all.take(i + 1) =~= all.take(i as int).push(all[i as int]));
                assert forall|key: Seq<char>| #[trigger] after.contains(key) == (before.contains(
                    key,
                ) || all.take(i + 1).contains(key)) by {
                    lemma_pushed_text(earlier, all[i as int], key);
                    lemma_pushed_text(all.take(i as int), all[i as int], key);
                    assert(earlier.contains(key) == (before.contains(key) || all.take(
                        i as int,
                    ).contains(key)));
                }
            }
            i = i + 1;
        }
        assert(all.take(all.len() as int) =~= all);
    }
}

proof fn lemma_pushed_text(list: Seq<Seq<char>>, text: Seq<char>, x: Seq<char>)
    ensures
        list.push(text).contains(x) == (list.contains(x) || x == text),
{
    let all = list.push(text);
    assert(all[list.len() as int] == text);
    if list.contains(x) {
        let i = choose|i: int| 0 <= i < list.len() && list[i] == x;
        assert(all[i] == x);
    }
    if all.contains(x) {
        let i = choose|i: int| 0 <= i < all.len() && all[i] == x;
        if i < list.len() {
            assert(list[i] == x);
        }
    }
}

proof fn lemma_pushed_path(roots: Seq<WatchRoot>, root: WatchRoot)
    ensures
        forall|x: Seq<char>| #[trigger]
            root_paths(roots.push(root)).contains(x) == (root_paths(roots).contains(x) || x
                == root.path@),
{
    assert(root_paths(roots.push(root)) =~= root_paths(roots).push(root.path@));
    assert forall|x: Seq<char>| #[trigger]
        root_paths(roots.push(root)).contains(x) == (root_paths(roots).contains(x) || x
            == root.path@) by {
        lemma_pushed_text(root_paths(roots), root.path@, x);
    }
}

proof fn lemma_pushed_watch(watched: Seq<Registered>, entry: Registered)
    ensures
        forall|x: Seq<char>| #[trigger]
            watched_paths(watched.push(entry)).contains(x) == (watched_paths(watched).contains(x)
                || x == entry.root.path@),
{
    assert(watched_paths(watched.push(entry)) =~= watched_paths(watched).push(entry.root.path@));
    assert forall|x: Seq<char>| #[trigger]
        watched_paths(watched.push(entry)).contains(x) == (watched_paths(watched).contains(x) || x
            == entry.root.path@) by {
        lemma_pushed_text(watched_paths(watched), entry.root.path@, x);
    }
}

proof fn lemma_removed_text(list: Seq<Seq<char>>, place: int, x: Seq<char>)
    requires
        0 <= place < list.len(),
    ensures
        list.contains(x) == (list.remove(place).contains(x) || x == list[place]),
{
    let rest = list.remove(place);
    if list.contains(x) {
        let i = choose|i: int| 0 <= i < list.len() && list[i] == x;
        if i < place {
            assert(rest[i] == x);
        } else if i > place {
            assert(rest[i - 1] == x);
        }
    }
    if rest.contains(x) {
        let i = choose|i: int| 0 <= i < rest.len() && rest[i] == x;
        if i < place {
            assert(list[i] == x);
        } else {
            assert(list[i + 1] == x);
        }
    }
}

proof fn lemma_removed_path(watched: Seq<Registered>, place: int)
    requires
        0 <= place < watched.len(),
    ensures
        forall|x: Seq<char>| #[trigger]
            watched_paths(watched).contains(x) == (watched_paths(watched.remove(place)).contains(x)
                || x == watched[place].root.path@),
{
    assert(watched_paths(watched.remove(place)) =~= watched_paths(watched).remove(place));
    assert forall|x: Seq<char>| #[trigger]
        watched_paths(watched).contains(x) == (watched_paths(watched.remove(place)).contains(x) || x
            == watched[place].root.path@) by {
        lemma_removed_text(watched_paths(watched), place, x);
    }
}

proof fn lemma_taken_path(roots: Seq<WatchRoot>, place: int)
    requires
        0 <= place < roots.len(),
    ensures
        forall|x: Seq<char>| #[trigger]
            root_paths(roots).contains(x) == (root_paths(roots.remove(place)).contains(x) || x
                == roots[place].path@),
{
    assert(root_paths(roots.remove(place)) =~= root_paths(roots).remove(place));
    assert forall|x: Seq<char>| #[trigger]
        root_paths(roots).contains(x) == (root_paths(roots.remove(place)).contains(x) || x
            == roots[place].path@) by {
        lemma_removed_text(root_paths(roots), place, x);
    }
}

/// What a watcher, or the want of one, makes of the status of a loop. Without a
/// registration the loop polls; without a watcher nothing is retried either.
pub open spec fn status_is(status: DriverStatus, book: Option<WatchBook>) -> bool {
    match book {
        None => status.driver == WatchDriver::Polling && status.watched@.len() == 0
            && status.pending@.len() == 0,
        Some(book) => {
            &&& status.driver == if book.watched@.len() == 0 {
                WatchDriver::Polling
            } else {
                WatchDriver::FsEvents
            }
            &&& text::views(status.watched@) == watched_paths(book.watched@)
            &&& text::views(status.pending@) == root_paths(book.pending@)
        },
    }
}

/// Whether two statuses say the same.
pub open spec fn same_status(a: DriverStatus, b: DriverStatus) -> bool {
    a.driver == b.driver && text::views(a.watched@) == text::views(b.watched@) && text::views(
        a.pending@,
    ) == text::views(b.pending@)
}

fn same_texts(a: &Vec<String>, b: &Vec<String>) -> (r: bool)
    ensures
        r == (text::views(a@) == text::views(b@)),
{
    let ghost p = text::views(a@);
    let ghost q = text::views(b@);
    if a.len() != b.len() {
        assert(p.len() != q.len());
        return false;
    }
    let mut i: usize = 0;
    while i < a.len()
        invariant
            i <= a.len(),
            a.len() == b.len(),
            p == text::views(a@),
            q == text::views(b@),
            forall|j: int| 0 <= j < i ==> #[trigger] p[j] == q[j],
        decreases a.len() - i,
    {
        if !same_text(a[i].as_str(), b[i].as_str()) {
            assert(p[i as int] != q[i as int]);
            return false;
        }
        i = i + 1;
    }
    assert(p =~= q);
    true
}

impl WatchLoop {
    /// Sets the status of the loop from its watcher. Returns whether it changed:
    /// only a change is reported.
    pub fn publish_status(&mut self, book: Option<&WatchBook>) -> (r: bool)
        ensures
            final(self).status is Some,
            status_is(
                final(self).status->0,
                match book {
                    Some(book) => Some(*book),
                    None => None,
                },
            ),
            r == !(old(self).status is Some && same_status(
                old(self).status->0,
                final(self).status->0,
            )),
            *final(self) == (WatchLoop { status: final(self).status, ..*old(self) }),
    {
        let status = match book {
            Some(book) => {
                let driver = if book.watched.len() == 0 {
                    WatchDriver::Polling
                } else {
                    WatchDriver::FsEvents
                };
                DriverStatus { driver, watched: book.watched(), pending: book.pending() }
            },
            None => DriverStatus {
                driver: WatchDriver::Polling,
                watched: Vec::new(),
                pending: Vec::new(),
            },
        };
        let same = match &self.status {
            Some(held) => held.driver == status.driver && same_texts(
                &held.watched,
                &status.watched,
            ) && same_texts(&held.pending, &status.pending),
            None => false,
        };
        self.status = Some(status);
        !same
    }
}

/// A registration that nothing reported as gone, and whose name still refers to
/// the object it was made against, is left alone however often it is checked.
pub proof fn law_live_registration_is_left_alone(
    book: WatchBook,
    after: WatchBook,
    place: int,
    current: Option<RootIdentity>,
)
    requires
        0 <= place < book.watched@.len(),
        current is Some,
        current == book.watched@[place].identity,
        !text::views(book.stale@).contains(
            watch::registration_key_of(book.watched@[place].root),
        ),
        after.watched == book.watched,
        text::views(after.stale@) == without(
            text::views(book.stale@),
            watch::registration_key_of(book.watched@[place].root),
        ),
    ensures
        !text::views(after.stale@).contains(
            watch::registration_key_of(after.watched@[place].root),
        ),
        current == after.watched@[place].identity,
{
    lemma_without(
        text::views(book.stale@),
        watch::registration_key_of(book.watched@[place].root),
    );
}

} // verus!
