//! Keyset paging: rows in the order of a key, a bounded number at a time.
//!
//! A page is a list of places in the caller's rows. The next page starts behind
//! the key of the last row, so no row is skipped or repeated when rows are added
//! between two pages.
use vstd::prelude::*;

verus! {

/// What rows are ordered by: those of the tail last, then by time, and by id where
/// the times are the same.
#[derive(Debug, Clone, Copy, PartialEq, Eq, Structural)]
pub struct PageKey {
    /// The row belongs behind every row that does not say so.
    pub tail: bool,
    pub ts_ms: i64,
    pub id: i64,
}

/// Whether a key comes before another.
pub open spec fn key_less(a: PageKey, b: PageKey) -> bool {
    ||| !a.tail && b.tail
    ||| a.tail == b.tail && a.ts_ms < b.ts_ms
    ||| a.tail == b.tail && a.ts_ms == b.ts_ms && a.id < b.id
}

/// Whether the row at a place comes before that at another: by key, and by place
/// where the keys are the same.
pub open spec fn row_less(keys: Seq<PageKey>, a: int, b: int) -> bool {
    key_less(keys[a], keys[b]) || (keys[a] == keys[b] && a < b)
}

/// Whether a key is behind a cursor; without one, every key is.
pub open spec fn beyond(key: PageKey, after: Option<PageKey>) -> bool {
    match after {
        Some(cursor) => key_less(cursor, key),
        None => true,
    }
}

/// Whether a list of places is the page of some rows behind a cursor, and whether
/// there are more: the first rows behind it, in order, and as many as fit.
pub open spec fn is_page(
    page: Seq<usize>,
    more: bool,
    keys: Seq<PageKey>,
    after: Option<PageKey>,
    limit: int,
) -> bool {
    &&& page.len() <= limit
    &&& forall|i: int| 0 <= i < page.len() ==> (#[trigger] page[i]) < keys.len() && beyond(
        keys[page[i] as int],
        after,
    )
    &&& forall|i: int, j: int|
        0 <= i < j < page.len() ==> row_less(
            keys,
            (#[trigger] page[i]) as int,
            (#[trigger] page[j]) as int,
        )
    &&& forall|q: int|
        0 <= q < keys.len() && beyond(#[trigger] keys[q], after) ==> on_page(page, q) || (more
            && page.len() == limit && follows(keys, page, q))
    &&& more ==> exists|q: int|
        0 <= q < keys.len() && beyond(#[trigger] keys[q], after) && !on_page(page, q)
}

/// Whether a place is on a page.
pub open spec fn on_page(page: Seq<usize>, q: int) -> bool {
    exists|i: int| 0 <= i < page.len() && #[trigger] page[i] == q
}

/// Whether the row at a place comes after every row of a page.
pub open spec fn follows(keys: Seq<PageKey>, page: Seq<usize>, q: int) -> bool {
    forall|i: int| 0 <= i < page.len() ==> row_less(keys, (#[trigger] page[i]) as int, q)
}

/// Whether a key comes before another.
pub fn less_key(a: PageKey, b: PageKey) -> (r: bool)
    ensures
        r == key_less(a, b),
{
    if a.tail != b.tail {
        return b.tail;
    }
    if a.ts_ms != b.ts_ms {
        return a.ts_ms < b.ts_ms;
    }
    a.id < b.id
}

fn is_beyond(key: PageKey, after: Option<PageKey>) -> (r: bool)
    ensures
        r == beyond(key, after),
{
    match after {
        Some(cursor) => less_key(cursor, key),
        None => true,
    }
}

proof fn lemma_row_less(keys: Seq<PageKey>, a: int, b: int, c: int)
    ensures
        row_less(keys, a, b) && row_less(keys, b, c) ==> row_less(keys, a, c),
        !row_less(keys, a, a),
        a != b ==> row_less(keys, a, b) || row_less(keys, b, a),
{
}

/// The page of some rows behind a cursor: its places, and whether there are more.
pub open spec fn the_page(keys: Seq<PageKey>, after: Option<PageKey>, limit: int) -> (Seq<usize>, bool) {
    choose|page: (Seq<usize>, bool)| #[trigger] is_page(page.0, page.1, keys, after, limit)
}

/// The places of some rows in the order of their keys.
pub open spec fn in_order(keys: Seq<PageKey>) -> Seq<usize> {
    the_page(keys, None, keys.len() as int).0
}

/// The page of some rows behind a cursor, and whether there are more rows.
pub fn page_of(keys: &Vec<PageKey>, after: Option<PageKey>, limit: usize) -> (r: (Vec<usize>, bool))
    ensures
        is_page(r.0@, r.1, keys@, after, limit as int),
        (r.0@, r.1) == the_page(keys@, after, limit as int),
{
    let mut page: Vec<usize> = Vec::new();
    let mut more = false;
    let mut q: usize = 0;
    while q < keys.len()
        invariant
            q <= keys.len(),
            is_page(page@, more, keys@.take(q as int), after, limit as int),
        decreases keys.len() - q,
    {
        let ghost seen = keys@.take(q as int);
        let ghost next = keys@.take(q + 1);
        let ghost before = page@;
        let ghost had = more;
        if is_beyond(keys[q], after) {
            let mut at: usize = page.len();
            while at > 0 && less_key(keys[q], keys[page[at - 1]])
                invariant
                    at <= page.len(),
                    page@ == before,
                    q < keys.len(),
                    forall|i: int| 0 <= i < before.len() ==> (#[trigger] before[i]) < q,
                    forall|i: int|
                        at <= i < before.len() ==> key_less(
                            keys@[q as int],
                            keys@[(#[trigger] before[i]) as int],
                        ),
                decreases at,
            {
                at = at - 1;
            }
            page.insert(at, q);
            proof {
                lemma_inserted(before, had, keys@, after, limit as int, q as int, at as int);
            }
            let ghost wide = page@;
            if page.len() > limit {
                page.pop();
                more = true;
                proof {
                    lemma_cut(wide, had, next, after, limit as int);
                    assert(page@ =~= wide.drop_last());
                }
            } else {
                proof {
                    assert forall|k: int|
                        0 <= k < next.len() && beyond(#[trigger] next[k], after) implies on_page(
                        page@,
                        k,
                    ) || (more && page@.len() == limit && follows(next, page@, k)) by {
                        if k == q {
                            assert(page@[at as int] == k);
                        } else {
                            assert(seen[k] == next[k]);
                            if on_page(before, k) {
                            } else {
                                assert(before.len() == limit);
                            }
                        }
                    }
                    if had {
                        let k = choose|k: int|
                            0 <= k < seen.len() && beyond(#[trigger] seen[k], after) && !on_page(
                                before,
                                k,
                            );
                        assert(next[k] == seen[k]);
                        assert(before.len() == limit);
                    }
                }
            }
        } else {
            proof {
                assert forall|k: int| 0 <= k < next.len() && beyond(#[trigger] next[k], after) implies on_page(
                    page@,
                    k,
                ) || (more && page@.len() == limit && follows(next, page@, k)) by {
                    assert(k != q);
                    assert(seen[k] == next[k]);
                    if !on_page(page@, k) {
                        assert forall|i: int| 0 <= i < page@.len() implies row_less(
                            next,
                            (#[trigger] page@[i]) as int,
                            k,
                        ) by {
                            assert(row_less(seen, page@[i] as int, k));
                        }
                    }
                }
                assert forall|i: int, j: int| 0 <= i < j < page@.len() implies row_less(
                    next,
                    (#[trigger] page@[i]) as int,
                    (#[trigger] page@[j]) as int,
                ) by {
                    assert(row_less(seen, page@[i] as int, page@[j] as int));
                }
                if more {
                    let k = choose|k: int|
                        0 <= k < seen.len() && beyond(#[trigger] seen[k], after) && !on_page(
                            page@,
                            k,
                        );
                    assert(next[k] == seen[k]);
                }
            }
        }
        q = q + 1;
    }
    assert(keys@.take(keys@.len() as int) =~= keys@);
    proof {
        let mine = (page@, more);
        assert(is_page(mine.0, mine.1, keys@, after, limit as int));
        let that = the_page(keys@, after, limit as int);
        law_page_is_unique(page@, more, that.0, that.1, keys@, after, limit as int);
    }
    (page, more)
}

/// The places of some rows in the order of their keys.
pub fn order_of(keys: &Vec<PageKey>) -> (r: Vec<usize>)
    ensures
        r@ == in_order(keys@),
        forall|i: int| 0 <= i < r@.len() ==> (#[trigger] r@[i]) < keys@.len(),
{
    page_of(keys, None, keys.len()).0
}

/// The order of some rows holds every one of them.
pub proof fn law_order_holds_every_row(keys: Seq<PageKey>, order: Seq<usize>, more: bool, q: int)
    requires
        is_page(order, more, keys, None, keys.len() as int),
        0 <= q < keys.len(),
    ensures
        on_page(order, q),
{
    if !on_page(order, q) {
        assert(beyond(keys[q], None));
        // The places of the order and `q` would be more different places than rows.
        let all = order.map_values(|p: usize| p as int).push(q);
        assert forall|i: int, j: int| 0 <= i < all.len() && 0 <= j < all.len() && i != j implies all[i]
            != all[j] by {
            if i < order.len() && j < order.len() {
                if i < j {
                    assert(row_less(keys, order[i] as int, order[j] as int));
                } else {
                    assert(row_less(keys, order[j] as int, order[i] as int));
                }
            } else if i < order.len() {
                assert(order[i] != q);
            } else {
                assert(order[j] != q);
            }
        }
        assert(all.no_duplicates());
        let range = vstd::set_lib::set_int_range(0, keys.len() as int);
        vstd::set_lib::lemma_int_range(0, keys.len() as int);
        assert(all.to_set().subset_of(range)) by {
            assert forall|x: int| all.to_set().contains(x) implies range.contains(x) by {
                assert(all.contains(x));
                let i = choose|i: int| 0 <= i < all.len() && all[i] == x;
                if i < order.len() {
                    assert(order[i] < keys.len());
                }
            }
        }
        vstd::set_lib::lemma_len_subset(all.to_set(), range);
        all.unique_seq_to_set();
    }
}

/// What putting the next row in its place makes of a page.
proof fn lemma_inserted(
    before: Seq<usize>,
    had: bool,
    keys: Seq<PageKey>,
    after: Option<PageKey>,
    limit: int,
    q: int,
    at: int,
)
    requires
        0 <= q < keys.len(),
        q <= usize::MAX,
        0 <= at <= before.len(),
        is_page(before, had, keys.take(q), after, limit),
        beyond(keys[q], after),
        forall|i: int|
            at <= i < before.len() ==> key_less(keys[q], keys[(#[trigger] before[i]) as int]),
        at > 0 ==> !key_less(keys[q], keys[before[at - 1] as int]),
    ensures
        ({
            let wide = before.insert(at, q as usize);
            let next = keys.take(q + 1);
            &&& wide.len() == before.len() + 1
            &&& forall|i: int| 0 <= i < wide.len() ==> (#[trigger] wide[i]) < next.len() && beyond(
                next[wide[i] as int],
                after,
            )
            &&& forall|i: int, j: int|
                0 <= i < j < wide.len() ==> row_less(
                    next,
                    (#[trigger] wide[i]) as int,
                    (#[trigger] wide[j]) as int,
                )
            &&& forall|k: int|
                0 <= k < next.len() && beyond(#[trigger] next[k], after) ==> on_page(wide, k) || (
                had && before.len() == limit && follows(next, before, k) && k < q)
            &&& forall|k: int| 0 <= k < q && on_page(before, k) ==> #[trigger] on_page(wide, k)
            &&& forall|k: int| 0 <= k < q && on_page(wide, k) ==> #[trigger] on_page(before, k)
        }),
{
    let wide = before.insert(at, q as usize);
    let seen = keys.take(q);
    let next = keys.take(q + 1);
    assert forall|i: int| 0 <= i < wide.len() implies (#[trigger] wide[i]) < next.len() && beyond(
        next[wide[i] as int],
        after,
    ) by {
        if i < at {
            assert(wide[i] == before[i]);
            assert(seen[before[i] as int] == next[before[i] as int]);
        } else if i > at {
            assert(wide[i] == before[i - 1]);
            assert(seen[before[i - 1] as int] == next[before[i - 1] as int]);
        }
    }
    assert forall|i: int, j: int| 0 <= i < j < wide.len() implies row_less(
        next,
        (#[trigger] wide[i]) as int,
        (#[trigger] wide[j]) as int,
    ) by {
        let a = if i < at {
            i
        } else {
            i - 1
        };
        let b = if j < at {
            j
        } else {
            j - 1
        };
        if i != at && j != at {
            assert(wide[i] == before[a] && wide[j] == before[b]);
            assert(row_less(seen, before[a] as int, before[b] as int));
        } else if j == at {
            assert(wide[i] == before[i]);
            assert(before[i] < q);
            assert(before[at - 1] < q);
            if i < at - 1 {
                assert(row_less(seen, before[i] as int, before[at - 1] as int));
            }
            assert(row_less(next, before[at - 1] as int, q));
            lemma_row_less(next, before[i] as int, before[at - 1] as int, q);
        } else {
            assert(wide[j] == before[j - 1]);
            assert(before[j - 1] < q);
            assert(key_less(keys[q], keys[before[j - 1] as int]));
        }
    }
    assert forall|k: int| 0 <= k < q && on_page(before, k) implies #[trigger] on_page(wide, k) by {
        let i = choose|i: int| 0 <= i < before.len() && #[trigger] before[i] == k;
        if i < at {
            assert(wide[i] == k);
        } else {
            assert(wide[i + 1] == k);
        }
    }
    assert forall|k: int| 0 <= k < q && on_page(wide, k) implies #[trigger] on_page(before, k) by {
        let i = choose|i: int| 0 <= i < wide.len() && #[trigger] wide[i] == k;
        if i < at {
            assert(before[i] == k);
        } else {
            assert(i > at);
            assert(before[i - 1] == k);
        }
    }
    assert forall|k: int| 0 <= k < next.len() && beyond(#[trigger] next[k], after) implies on_page(
        wide,
        k,
    ) || (had && before.len() == limit && follows(next, before, k) && k < q) by {
        if k == q {
            assert(wide[at] == k);
        } else {
            assert(seen[k] == next[k]);
            if !on_page(before, k) {
                assert forall|i: int| 0 <= i < before.len() implies row_less(
                    next,
                    (#[trigger] before[i]) as int,
                    k,
                ) by {
                    assert(row_less(seen, before[i] as int, k));
                }
            }
        }
    }
}

/// What cutting a page that is one row too long leaves.
proof fn lemma_cut(
    wide: Seq<usize>,
    had: bool,
    keys: Seq<PageKey>,
    after: Option<PageKey>,
    limit: int,
)
    requires
        wide.len() == limit + 1,
        limit >= 0,
        forall|i: int|
            0 <= i < wide.len() ==> (#[trigger] wide[i]) < keys.len() && beyond(
                keys[wide[i] as int],
                after,
            ),
        forall|i: int, j: int|
            0 <= i < j < wide.len() ==> row_less(
                keys,
                (#[trigger] wide[i]) as int,
                (#[trigger] wide[j]) as int,
            ),
        exists|before: Seq<usize>, q: int, at: int|
            {
                &&& 0 <= at <= before.len()
                &&& before.len() == limit
                &&& q == keys.len() - 1
                &&& 0 <= q <= usize::MAX
                &&& wide == #[trigger] before.insert(at, q as usize)
                &&& forall|k: int|
                    0 <= k < keys.len() && beyond(#[trigger] keys[k], after) ==> on_page(wide, k)
                        || (had && follows(keys, before, k) && k < q)
            },
    ensures
        is_page(wide.drop_last(), true, keys, after, limit),
{
    let page = wide.drop_last();
    let (before, q, at) = choose|before: Seq<usize>, q: int, at: int|
        {
            &&& 0 <= at <= before.len()
            &&& before.len() == limit
            &&& q == keys.len() - 1
            &&& 0 <= q <= usize::MAX
            &&& wide == #[trigger] before.insert(at, q as usize)
            &&& forall|k: int|
                0 <= k < keys.len() && beyond(#[trigger] keys[k], after) ==> on_page(wide, k) || (had
                    && follows(keys, before, k) && k < q)
        };
    let last = wide[limit] as int;
    assert forall|i: int| 0 <= i < page.len() implies (#[trigger] page[i]) < keys.len() && beyond(
        keys[page[i] as int],
        after,
    ) by {
        assert(wide[i] == page[i]);
    }
    assert forall|i: int, j: int| 0 <= i < j < page.len() implies row_less(
        keys,
        (#[trigger] page[i]) as int,
        (#[trigger] page[j]) as int,
    ) by {
        assert(wide[i] == page[i] && wide[j] == page[j]);
    }
    assert forall|k: int| 0 <= k < keys.len() && beyond(#[trigger] keys[k], after) implies on_page(
        page,
        k,
    ) || (page.len() == limit && follows(keys, page, k)) by {
        if on_page(wide, k) {
            let i = choose|i: int| 0 <= i < wide.len() && #[trigger] wide[i] == k;
            if i < limit {
                assert(page[i] == k);
            } else {
                assert forall|j: int| 0 <= j < page.len() implies row_less(
                    keys,
                    (#[trigger] page[j]) as int,
                    k,
                ) by {
                    assert(wide[j] == page[j]);
                    assert(wide[i] == k);
                }
            }
        } else {
            assert forall|j: int| 0 <= j < page.len() implies row_less(
                keys,
                (#[trigger] page[j]) as int,
                k,
            ) by {
                assert(wide[j] == page[j]);
                if j < at {
                    assert(before[j] == page[j]);
                } else if j > at {
                    assert(before[j - 1] == page[j]);
                } else {
                    // The new row is on the page, so it comes before the last of
                    // the rows that were there, and that one comes before `k`.
                    assert(before.len() == limit);
                    assert(wide[limit] == before[limit - 1]);
                    assert(row_less(keys, wide[j] as int, wide[limit] as int));
                    assert(row_less(keys, before[limit - 1] as int, k));
                    lemma_row_less(keys, page[j] as int, before[limit - 1] as int, k);
                }
            }
        }
    }
    assert(!on_page(page, last)) by {
        if on_page(page, last) {
            let i = choose|i: int| 0 <= i < page.len() && #[trigger] page[i] == last;
            assert(wide[i] == page[i]);
            assert(row_less(keys, wide[i] as int, wide[limit] as int));
        }
    }
    assert(beyond(keys[last], after));
}

/// Rows without a key in common are walked once: every row behind the cursor is on
/// its page or behind the key of the page's last row, and never both. Where there
/// are no more rows, every one of them is on the page.
pub proof fn law_pages_walk_every_row_once(
    page: Seq<usize>,
    more: bool,
    keys: Seq<PageKey>,
    after: Option<PageKey>,
    limit: int,
    q: int,
)
    requires
        is_page(page, more, keys, after, limit),
        page.len() > 0,
        forall|a: int, b: int|
            0 <= a < b < keys.len() ==> #[trigger] keys[a] != #[trigger] keys[b],
        0 <= q < keys.len(),
    ensures
        beyond(keys[q], after) ==> (on_page(page, q) != beyond(
            keys[q],
            Some(keys[page.last() as int]),
        )),
        beyond(keys[q], Some(keys[page.last() as int])) ==> beyond(keys[q], after),
        !more && beyond(keys[q], after) ==> on_page(page, q),
{
    let last = page.last() as int;
    assert(page[page.len() - 1] == page.last());
    assert(beyond(keys[last], after));
    if beyond(keys[q], after) {
        if on_page(page, q) {
            let i = choose|i: int| 0 <= i < page.len() && #[trigger] page[i] == q;
            if i < page.len() - 1 {
                assert(row_less(keys, page[i] as int, page[page.len() - 1] as int));
            }
        } else {
            assert(row_less(keys, page[page.len() - 1] as int, q));
        }
    }
}

/// A page is determined by its rows: two pages of the same rows are the same.
pub proof fn law_page_is_unique(
    a: Seq<usize>,
    more_a: bool,
    b: Seq<usize>,
    more_b: bool,
    keys: Seq<PageKey>,
    after: Option<PageKey>,
    limit: int,
)
    requires
        is_page(a, more_a, keys, after, limit),
        is_page(b, more_b, keys, after, limit),
    ensures
        a == b,
        more_a == more_b,
{
    lemma_prefix(a, more_a, b, more_b, keys, after, limit, a.len() as int);
    lemma_prefix(b, more_b, a, more_a, keys, after, limit, b.len() as int);
    assert(a =~= b);
    if more_a {
        let q = choose|q: int|
            0 <= q < keys.len() && beyond(#[trigger] keys[q], after) && !on_page(a, q);
        assert(!on_page(b, q));
    }
    if more_b {
        let q = choose|q: int|
            0 <= q < keys.len() && beyond(#[trigger] keys[q], after) && !on_page(b, q);
        assert(!on_page(a, q));
    }
}

proof fn lemma_prefix(
    a: Seq<usize>,
    more_a: bool,
    b: Seq<usize>,
    more_b: bool,
    keys: Seq<PageKey>,
    after: Option<PageKey>,
    limit: int,
    n: int,
)
    requires
        is_page(a, more_a, keys, after, limit),
        is_page(b, more_b, keys, after, limit),
        0 <= n <= a.len(),
    ensures
        n <= b.len(),
        forall|i: int| 0 <= i < n ==> #[trigger] a[i] == b[i],
    decreases n,
{
    if n > 0 {
        let m = n - 1;
        lemma_prefix(a, more_a, b, more_b, keys, after, limit, m);
        let q = a[m] as int;
        assert(beyond(keys[q], after));
        // `a[m]` is not among the first `m` of `b`, which are those of `a`.
        assert(forall|i: int| 0 <= i < m ==> row_less(keys, (#[trigger] a[i]) as int, q));
        if on_page(b, q) {
            let j = choose|j: int| 0 <= j < b.len() && #[trigger] b[j] == q;
            if j < m {
                assert(a[j] == b[j]);
                assert(row_less(keys, a[j] as int, q));
                assert(false);
            }
            let p = b[m] as int;
            assert(beyond(keys[p], after));
            if j > m {
                assert(row_less(keys, b[m] as int, b[j] as int));
                // `b[m]` comes before `a[m]`, and has to be on `a`.
                if on_page(a, p) {
                    let k = choose|k: int| 0 <= k < a.len() && #[trigger] a[k] == p;
                    if k < m {
                        assert(a[k] == b[k]);
                        assert(row_less(keys, b[k] as int, b[m] as int));
                    } else if k > m {
                        assert(row_less(keys, a[m] as int, a[k] as int));
                    }
                    assert(false);
                } else {
                    assert(row_less(keys, a[m] as int, p));
                    assert(false);
                }
            }
        } else {
            assert(b.len() == limit);
            assert(m < b.len());
            assert(row_less(keys, b[m] as int, q));
            let p = b[m] as int;
            assert(beyond(keys[p], after));
            if on_page(a, p) {
                let k = choose|k: int| 0 <= k < a.len() && #[trigger] a[k] == p;
                if k < m {
                    assert(a[k] == b[k]);
                    assert(row_less(keys, b[k] as int, b[m] as int));
                } else if k > m {
                    assert(row_less(keys, a[m] as int, a[k] as int));
                }
                assert(false);
            } else {
                assert(row_less(keys, a[m] as int, p));
                assert(false);
            }
        }
    }
}

proof fn lemma_place_for(before: Seq<usize>, keys: Seq<PageKey>, q: int, from: int) -> (at: int)
    requires
        0 <= from <= before.len(),
        forall|i: int|
            from <= i < before.len() ==> key_less(keys[q], keys[(#[trigger] before[i]) as int]),
    ensures
        0 <= at <= from,
        forall|i: int|
            at <= i < before.len() ==> key_less(keys[q], keys[(#[trigger] before[i]) as int]),
        at > 0 ==> !key_less(keys[q], keys[before[at - 1] as int]),
    decreases from,
{
    if from > 0 && key_less(keys[q], keys[before[from - 1] as int]) {
        lemma_place_for(before, keys, q, from - 1)
    } else {
        from
    }
}

proof fn lemma_some_page(keys: Seq<PageKey>, after: Option<PageKey>, limit: int, n: int) -> (r: (
    Seq<usize>,
    bool,
))
    requires
        0 <= n <= keys.len(),
        keys.len() <= usize::MAX,
        limit >= 0,
    ensures
        is_page(r.0, r.1, keys.take(n), after, limit),
    decreases n,
{
    if n == 0 {
        (Seq::empty(), false)
    } else {
        let q = n - 1;
        let (before, had) = lemma_some_page(keys, after, limit, q);
        let seen = keys.take(q);
        let next = keys.take(n);
        if beyond(keys[q], after) {
            let at = lemma_place_for(before, keys, q, before.len() as int);
            lemma_inserted(before, had, keys, after, limit, q, at);
            let wide = before.insert(at, q as usize);
            if wide.len() > limit {
                lemma_cut(wide, had, next, after, limit);
                (wide.drop_last(), true)
            } else {
                assert forall|k: int| 0 <= k < next.len() && beyond(#[trigger] next[k], after) implies on_page(
                    wide,
                    k,
                ) || (had && wide.len() == limit && follows(next, wide, k)) by {
                    if k == q {
                        assert(wide[at] == k);
                    } else {
                        assert(seen[k] == next[k]);
                    }
                }
                if had {
                    let k = choose|k: int|
                        0 <= k < seen.len() && beyond(#[trigger] seen[k], after) && !on_page(
                            before,
                            k,
                        );
                    assert(next[k] == seen[k]);
                    assert(before.len() == limit);
                }
                (wide, had)
            }
        } else {
            assert forall|k: int| 0 <= k < next.len() && beyond(#[trigger] next[k], after) implies on_page(
                before,
                k,
            ) || (had && before.len() == limit && follows(next, before, k)) by {
                assert(k != q);
                assert(seen[k] == next[k]);
                if !on_page(before, k) {
                    assert forall|i: int| 0 <= i < before.len() implies row_less(
                        next,
                        (#[trigger] before[i]) as int,
                        k,
                    ) by {
                        assert(row_less(seen, before[i] as int, k));
                    }
                }
            }
            assert forall|i: int, j: int| 0 <= i < j < before.len() implies row_less(
                next,
                (#[trigger] before[i]) as int,
                (#[trigger] before[j]) as int,
            ) by {
                assert(row_less(seen, before[i] as int, before[j] as int));
            }
            if had {
                let k = choose|k: int|
                    0 <= k < seen.len() && beyond(#[trigger] seen[k], after) && !on_page(before, k);
                assert(next[k] == seen[k]);
            }
            (before, had)
        }
    }
}

/// There is a page for every cursor and every limit.
pub proof fn law_page_exists(keys: Seq<PageKey>, after: Option<PageKey>, limit: int)
    requires
        keys.len() <= usize::MAX,
        limit >= 0,
    ensures
        is_page(the_page(keys, after, limit).0, the_page(keys, after, limit).1, keys, after, limit),
{
    let page = lemma_some_page(keys, after, limit, keys.len() as int);
    assert(keys.take(keys.len() as int) =~= keys);
    assert(is_page(page.0, page.1, keys, after, limit));
}

/// Walking the pages of rows without a key in common meets every row once: a row
/// behind a cursor is on its page or behind the key of the page's last row, and
/// never both; where there are no more rows, it is on the page.
pub proof fn law_walk_meets_every_row_once(
    keys: Seq<PageKey>,
    after: Option<PageKey>,
    limit: int,
    q: int,
)
    requires
        keys.len() <= usize::MAX,
        limit >= 1,
        forall|a: int, b: int|
            0 <= a < b < keys.len() ==> #[trigger] keys[a] != #[trigger] keys[b],
        0 <= q < keys.len(),
        beyond(keys[q], after),
    ensures
        ({
            let (page, more) = the_page(keys, after, limit);
            if more {
                &&& page.len() > 0
                &&& page.last() < keys.len()
                &&& on_page(page, q) != beyond(keys[q], Some(keys[page.last() as int]))
            } else {
                on_page(page, q)
            }
        }),
{
    let (page, more) = the_page(keys, after, limit);
    law_page_exists(keys, after, limit);
    if more {
        let k = choose|k: int|
            0 <= k < keys.len() && beyond(#[trigger] keys[k], after) && !on_page(page, k);
        assert(page.len() == limit);
        assert(page[page.len() - 1] < keys.len());
        law_pages_walk_every_row_once(page, more, keys, after, limit, q);
    }
}

} // verus!
