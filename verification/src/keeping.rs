//! What becomes of the roots of a watcher, call by call.
use crate::registrations;
use crate::registrations::{RootIdentity, WatchBook};
use crate::text;
use crate::watch::WatchRoot;
use vstd::prelude::*;
use vstd::string::*;

verus! {

/// Whether a registration is reported as gone.
pub open spec fn is_reported(book: WatchBook, key: Seq<char>) -> bool {
    exists|i: int| 0 <= i < book.stale@.len() && (#[trigger] book.stale@[i])@ == key
}

/// Whether a path is that of a registered root.
pub open spec fn is_watched(book: WatchBook, path: Seq<char>) -> bool {
    exists|i: int| 0 <= i < book.watched@.len() && (#[trigger] book.watched@[i]).root.path@ == path
}

/// Whether a path is that of a root that is retried.
pub open spec fn is_pending(book: WatchBook, path: Seq<char>) -> bool {
    exists|i: int| 0 <= i < book.pending@.len() && (#[trigger] book.pending@[i]).path@ == path
}

/// Whether a path is that of a root that was registered and is to be again.
pub open spec fn is_recovering(book: WatchBook, path: Seq<char>) -> bool {
    exists|i: int| 0 <= i < book.recovering@.len() && (#[trigger] book.recovering@[i])@ == path
}

proof fn lemma_texts(list: Seq<String>, one: Seq<char>)
    ensures
        text::views(list).contains(one) == exists|i: int|
            0 <= i < list.len() && (#[trigger] list[i])@ == one,
{
    let all = text::views(list);
    if all.contains(one) {
        let i = choose|i: int| 0 <= i < all.len() && all[i] == one;
        assert(list[i]@ == one);
    }
    if exists|i: int| 0 <= i < list.len() && (#[trigger] list[i])@ == one {
        let i = choose|i: int| 0 <= i < list.len() && (#[trigger] list[i])@ == one;
        assert(all[i] == one);
    }
}

proof fn lemma_paths(roots: Seq<WatchRoot>, path: Seq<char>)
    ensures
        registrations::root_paths(roots).contains(path) == exists|i: int|
            0 <= i < roots.len() && (#[trigger] roots[i]).path@ == path,
{
    let all = registrations::root_paths(roots);
    if all.contains(path) {
        let i = choose|i: int| 0 <= i < all.len() && all[i] == path;
        assert(roots[i].path@ == path);
    }
    if exists|i: int| 0 <= i < roots.len() && (#[trigger] roots[i]).path@ == path {
        let i = choose|i: int| 0 <= i < roots.len() && (#[trigger] roots[i]).path@ == path;
        assert(all[i] == path);
    }
}

/// A registration is live exactly where nothing reported it as gone and its name still
/// refers to the object that it was made against. A check answers a report once: it takes
/// it off the list, and no other.
pub proof fn law_only_a_live_registration_is_left_alone(
    book: &mut WatchBook,
    place: usize,
    current: Option<RootIdentity>,
    live: bool,
    key: String,
    other: Seq<char>,
)
    requires
        place < old(book).watched@.len(),
        call_ensures(WatchRoot::registration_key, (&old(book).watched@[place as int].root,), key),
        call_ensures(WatchBook::check, (book, place, current), live),
    ensures
        live <==> !is_reported(*old(book), key@) && current is Some && current
            == old(book).watched@[place as int].identity,
        is_reported(*final(book), other) <==> is_reported(*old(book), other) && other != key@,
        final(book).watched == old(book).watched,
        final(book).pending == old(book).pending,
        final(book).recovering == old(book).recovering,
        final(book).known == old(book).known,
{
    lemma_texts(old(book).stale@, key@);
    lemma_texts(old(book).stale@, other);
    lemma_texts(final(book).stale@, other);
    registrations::lemma_without(text::views(old(book).stale@), key@);
}

/// A report that a registration is gone is found by the next check of it.
pub proof fn law_report_is_found(
    told: &mut WatchBook,
    keys: Vec<String>,
    checked: &mut WatchBook,
    place: usize,
    current: Option<RootIdentity>,
    live: bool,
    key: String,
    i: int,
)
    requires
        call_ensures(WatchBook::mark_stale, (told, &keys), ()),
        *old(checked) == *final(told),
        place < old(checked).watched@.len(),
        call_ensures(
            WatchRoot::registration_key,
            (&old(checked).watched@[place as int].root,),
            key,
        ),
        call_ensures(WatchBook::check, (checked, place, current), live),
        0 <= i < keys@.len(),
        keys@[i]@ == key@,
    ensures
        !live,
{
    lemma_texts(old(checked).stale@, key@);
    assert(text::views(keys@)[i] == key@);
    assert(text::views(keys@).contains(key@));
    assert(text::views(final(told).stale@).contains(key@));
}

/// A lost root is retried, as one that recovers; every other registration stays.
pub proof fn law_lost_root_is_retried(book: &mut WatchBook, place: usize, i: int)
    requires
        old(book).well_formed(),
        place < old(book).watched@.len(),
        call_ensures(WatchBook::lost, (book, place), ()),
    ensures
        is_pending(*final(book), old(book).watched@[place as int].root.path@),
        is_recovering(*final(book), old(book).watched@[place as int].root.path@),
        final(book).watched@.len() == old(book).watched@.len() - 1,
        0 <= i < place ==> final(book).watched@[i] == old(book).watched@[i],
        place < i < old(book).watched@.len() ==> final(book).watched@[i - 1]
            == old(book).watched@[i],
        0 <= i < old(book).pending@.len() ==> final(book).pending@[i] == old(book).pending@[i],
        final(book).known == old(book).known,
{
    let path = old(book).watched@[place as int].root.path@;
    assert(final(book).pending@[old(book).pending@.len() as int].path@ == path);
    lemma_texts(final(book).recovering@, path);
}

/// A root that is registered again is watched and recovers no more; every other root stays
/// as it is.
pub proof fn law_attached_root_is_watched(
    book: &mut WatchBook,
    place: usize,
    resolved: Option<String>,
    identity: Option<RootIdentity>,
    i: int,
    other: Seq<char>,
)
    requires
        old(book).well_formed(),
        place < old(book).pending@.len(),
        call_ensures(WatchBook::attached, (book, place, resolved, identity), ()),
    ensures
        ({
            let root = old(book).pending@[place as int];
            let n = old(book).watched@.len() as int;
            &&& final(book).watched@.len() == n + 1
            &&& final(book).watched@[n].root.path@ == root.path@
            &&& final(book).watched@[n].root.depth == root.depth
            &&& final(book).watched@[n].root.resolved == resolved
            &&& final(book).watched@[n].identity == identity
            &&& 0 <= i < n ==> final(book).watched@[i] == old(book).watched@[i]
            &&& final(book).pending@.len() == old(book).pending@.len() - 1
            &&& 0 <= i < place ==> final(book).pending@[i] == old(book).pending@[i]
            &&& place < i < old(book).pending@.len() ==> final(book).pending@[i - 1]
                == old(book).pending@[i]
            &&& is_recovering(*final(book), other) <==> is_recovering(*old(book), other) && other
                != root.path@
        }),
{
    let root = old(book).pending@[place as int];
    lemma_texts(old(book).recovering@, other);
    lemma_texts(final(book).recovering@, other);
    registrations::lemma_without(text::views(old(book).recovering@), root.path@);
}

proof fn lemma_with_new(known: Seq<WatchRoot>, roots: Seq<WatchRoot>, n: int)
    requires
        0 <= n <= roots.len(),
    ensures
        ({
            let after = registrations::with_new(known, roots, n);
            &&& after.len() >= known.len()
            &&& forall|i: int| 0 <= i < known.len() ==> #[trigger] after[i] == known[i]
            &&& forall|k: int|
                0 <= k < n ==> registrations::root_paths(after).contains(
                    (#[trigger] roots[k]).path@,
                )
            &&& forall|i: int|
                known.len() <= i < after.len() ==> roots.contains(#[trigger] after[i])
        }),
    decreases n,
{
    if n > 0 {
        lemma_with_new(known, roots, n - 1);
        let before = registrations::with_new(known, roots, n - 1);
        let after = registrations::with_new(known, roots, n);
        assert forall|k: int| 0 <= k < n implies registrations::root_paths(after).contains(
            (#[trigger] roots[k]).path@,
        ) by {
            lemma_paths(before, roots[k].path@);
            lemma_paths(after, roots[k].path@);
            if registrations::root_paths(before).contains(roots[k].path@) {
                let i = choose|i: int|
                    0 <= i < before.len() && (#[trigger] before[i]).path@ == roots[k].path@;
                assert(after[i] == before[i]);
            } else {
                assert(k == n - 1);
                assert(after[before.len() as int].path@ == roots[k].path@);
            }
        }
        if !registrations::root_paths(before).contains(roots[n - 1].path@) {
            assert(roots.contains(roots[n - 1]));
        }
    }
}

/// Every root of a list is known once it is taken on, and watched or retried; what was
/// known stays.
pub proof fn law_adopted_roots_are_known(book: &mut WatchBook, roots: Vec<WatchRoot>, new: usize, k: int)
    requires
        old(book).well_formed(),
        call_ensures(WatchBook::adopt, (book, &roots), new),
        0 <= k < roots@.len(),
    ensures
        is_watched(*final(book), roots@[k].path@) || is_pending(*final(book), roots@[k].path@),
        new == final(book).known@.len() - old(book).known@.len(),
        forall|i: int|
            0 <= i < old(book).known@.len() ==> #[trigger] final(book).known@[i]
                == old(book).known@[i],
        final(book).watched == old(book).watched,
{
    let path = roots@[k].path@;
    lemma_with_new(old(book).known@, roots@, roots@.len() as int);
    assert(registrations::root_paths(final(book).known@).contains(path));
    lemma_paths(final(book).pending@, path);
    if registrations::watched_paths(final(book).watched@).contains(path) {
        let all = registrations::watched_paths(final(book).watched@);
        let i = choose|i: int| 0 <= i < all.len() && all[i] == path;
        assert(final(book).watched@[i].root.path@ == path);
    }
}

} // verus!
