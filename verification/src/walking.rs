//! What a page of rows shows, row by row.
//!
//! Each law speaks of one call that reads a page: of the rows that are stored, of the
//! cursor and the limit that go in, and of the rows that come out.
use crate::keyset;
use crate::keyset::PageKey;
use crate::pages;
use crate::pages::{session_events_page, session_file_edits_page, session_tool_calls_page};
use crate::session_usage;
use crate::session_usage::{
    request_page, RawRequest, SessionRequest, SessionRequestCursor, SessionRequestPage,
};
use crate::storage;
use crate::storage::{
    changed_file_sessions_after, commit_links_after, history_after, pending_event_sessions,
    trajectories_after, ChangedSession, SessionRow, StoredCommitLink, StoredTrajectory,
};
use crate::store::{
    HistoryEntry, SessionEvent, SessionEventCursor, SessionEventPage, SessionEvidenceCursor, SessionFileEdit,
    SessionFileEditPage, SessionToolCall, SessionToolCallPage,
};
use crate::text;
use vstd::prelude::*;
use vstd::string::*;

verus! {

/// Whether a row stands behind another: by time and then by id, and an undated one behind
/// every dated one.
pub open spec fn later(a_ts: Option<i64>, a_id: i64, b_ts: Option<i64>, b_id: i64) -> bool {
    match (a_ts, b_ts) {
        (Some(a), Some(b)) => a < b || (a == b && a_id < b_id),
        (Some(_), None) => true,
        (None, Some(_)) => false,
        (None, None) => a_id < b_id,
    }
}

proof fn lemma_full(page: Seq<usize>, keys: Seq<PageKey>, after: Option<PageKey>, limit: int)
    requires
        keyset::is_page(page, true, keys, after, limit),
    ensures
        page.len() == limit,
{
    let q = choose|q: int|
        0 <= q < keys.len() && keyset::beyond(#[trigger] keys[q], after) && !keyset::on_page(
            page,
            q,
        );
    assert(keyset::beyond(keys[q], after));
}

/// Whether a row is of a session, and of a source where one is given.
pub open spec fn is_event_of(row: SessionEvent, session: Seq<char>, source: Option<&str>) -> bool {
    row.session_id@ == session && (source is None || row.source@ == source->0@)
}

/// Whether a row stands behind a cursor.
pub open spec fn event_is_behind(row: SessionEvent, after: Option<SessionEventCursor>) -> bool {
    after is None || later(Some(after->0.ts_ms), after->0.id, Some(row.ts_ms), row.id)
}

proof fn lemma_event_places(rows: Seq<SessionEvent>, session: Seq<char>, source: Option<&str>, n: int)
    requires
        0 <= n <= rows.len(),
    ensures
        ({
            let places = pages::event_places(rows, session, pages::source_view(source), n);
            &&& places.len() <= n
            &&& forall|x: int|
                0 <= x < places.len() ==> 0 <= #[trigger] places[x] < n && is_event_of(
                    rows[places[x]],
                    session,
                    source,
                )
            &&& forall|q: int|
                0 <= q < n && is_event_of(#[trigger] rows[q], session, source) ==> places.contains(q)
            &&& forall|x: int, y: int|
                0 <= x < y < places.len() ==> #[trigger] places[x] < #[trigger] places[y]
        }),
    decreases n,
{
    if n > 0 {
        lemma_event_places(rows, session, source, n - 1);
        let before = pages::event_places(rows, session, pages::source_view(source), n - 1);
        let all = pages::event_places(rows, session, pages::source_view(source), n);
        assert forall|q: int| 0 <= q < n && is_event_of(#[trigger] rows[q], session, source) implies all.contains(
            q,
        ) by {
            if q < n - 1 {
                let x = choose|x: int| 0 <= x < before.len() && before[x] == q;
                assert(all[x] == q);
            } else {
                assert(all.last() == q);
            }
        }
    }
}

/// A page of the events of a session shows the first rows behind the cursor, in order and no
/// more than asked for. Every row of the session behind the cursor is on the page or behind
/// the next cursor, and never both; there is a next cursor only where there are more rows,
/// and it names the last row of the page.
pub proof fn law_event_page(
    rows: Vec<SessionEvent>,
    session_id: &str,
    source: Option<&str>,
    limit: i64,
    after: Option<SessionEventCursor>,
    page: SessionEventPage,
)
    requires
        call_ensures(session_events_page, (&rows, session_id, source, limit, after), page),
        forall|i: int, j: int|
            0 <= i < j < rows@.len() ==> (#[trigger] rows@[i]).id != (#[trigger] rows@[j]).id,
    ensures
        page.events@.len() <= 1000,
        page.events@.len() <= if limit < 1 {
            1
        } else {
            limit as int
        },
        forall|i: int|
            0 <= i < page.events@.len() ==> rows@.contains(#[trigger] page.events@[i])
                && is_event_of(page.events@[i], session_id@, source) && event_is_behind(
                page.events@[i],
                after,
            ),
        forall|i: int, j: int|
            0 <= i < j < page.events@.len() ==> later(
                Some((#[trigger] page.events@[i]).ts_ms),
                page.events@[i].id,
                Some((#[trigger] page.events@[j]).ts_ms),
                page.events@[j].id,
            ),
        forall|q: int|
            0 <= q < rows@.len() && is_event_of(#[trigger] rows@[q], session_id@, source)
                && event_is_behind(rows@[q], after) ==> page.events@.contains(rows@[q]) != (
            page.next_cursor is Some && event_is_behind(rows@[q], page.next_cursor)),
        page.next_cursor is Some ==> {
            &&& page.events@.len() == if limit < 1 {
                1
            } else if limit > 1000 {
                1000
            } else {
                limit as int
            }
            &&& page.next_cursor->0.ts_ms == page.events@.last().ts_ms
            &&& page.next_cursor->0.id == page.events@.last().id
            &&& exists|q: int|
                0 <= q < rows@.len() && is_event_of(#[trigger] rows@[q], session_id@, source)
                    && event_is_behind(rows@[q], page.next_cursor)
        },
{
    let source_given = source;
    let n = rows@.len() as int;
    let places = pages::event_places(rows@, session_id@, pages::source_view(source_given), n);
    let keys = pages::event_keys(rows@, places);
    let cursor = pages::event_key(after);
    let most = pages::page_limit(limit) as int;
    lemma_event_places(rows@, session_id@, source_given, n);
    assert(rows@.len() == rows.len());
    keyset::law_page_exists(keys, cursor, most);
    let (at, more) = keyset::the_page(keys, cursor, most);
    let shown = page.events@;
    assert forall|x: int, y: int| 0 <= x < y < keys.len() implies #[trigger] keys[x]
        != #[trigger] keys[y] by {
        assert(places[x] < places[y]);
        assert(rows@[places[x]].id != rows@[places[y]].id);
    }
    assert forall|i: int| 0 <= i < shown.len() implies rows@.contains(#[trigger] shown[i])
        && is_event_of(shown[i], session_id@, source_given) && event_is_behind(shown[i], after) by {
        let x = at[i] as int;
        assert(shown[i] == rows@[places[x]]);
        assert(keyset::beyond(keys[x], cursor));
    }
    assert forall|i: int, j: int| 0 <= i < j < shown.len() implies later(
        Some((#[trigger] shown[i]).ts_ms),
        shown[i].id,
        Some((#[trigger] shown[j]).ts_ms),
        shown[j].id,
    ) by {
        assert(keyset::row_less(keys, at[i] as int, at[j] as int));
        assert(shown[i] == rows@[places[at[i] as int]] && shown[j] == rows@[places[at[j] as int]]);
        assert(at[i] != at[j]);
    }
    if more {
        lemma_full(at, keys, cursor, most);
        assert(shown[shown.len() - 1] == rows@[places[at.last() as int]]);
    }
    assert forall|q: int|
        0 <= q < rows@.len() && is_event_of(#[trigger] rows@[q], session_id@, source_given)
            && event_is_behind(rows@[q], after) implies shown.contains(rows@[q]) != (
    page.next_cursor is Some && event_is_behind(rows@[q], page.next_cursor)) by {
        assert(places.contains(q));
        let x = choose|x: int| 0 <= x < places.len() && places[x] == q;
        assert(keyset::beyond(keys[x], cursor));
        keyset::law_walk_meets_every_row_once(keys, cursor, most, x);
        assert(keyset::on_page(at, x) == shown.contains(rows@[q])) by {
            if keyset::on_page(at, x) {
                let i = choose|i: int| 0 <= i < at.len() && #[trigger] at[i] == x;
                assert(shown[i] == rows@[q]);
            }
            if shown.contains(rows@[q]) {
                let i = choose|i: int| 0 <= i < shown.len() && shown[i] == rows@[q];
                assert(shown[i] == rows@[places[at[i] as int]]);
                let p = places[at[i] as int];
                assert(rows@[p].id == rows@[q].id);
                assert(p == q);
                assert(at[i] == x);
            }
        }
    }
    if more {
        let x = choose|x: int|
            0 <= x < keys.len() && keyset::beyond(#[trigger] keys[x], cursor) && !keyset::on_page(
                at,
                x,
            );
        keyset::law_walk_meets_every_row_once(keys, cursor, most, x);
        assert(is_event_of(rows@[places[x]], session_id@, source_given));
        assert(event_is_behind(rows@[places[x]], page.next_cursor));
    }
}

/// Whether a row is of a session, and of a source where one is given.
pub open spec fn is_call_of(row: SessionToolCall, session: Seq<char>, source: Option<&str>) -> bool {
    row.session_id@ == session && (source is None || row.source@ == source->0@)
}

/// Whether a row stands behind a cursor.
pub open spec fn call_is_behind(row: SessionToolCall, after: Option<SessionEvidenceCursor>) -> bool {
    after is None || later(after->0.ts_ms, after->0.id, row.ts_ms, row.id)
}

proof fn lemma_call_places(rows: Seq<SessionToolCall>, session: Seq<char>, source: Option<&str>, n: int)
    requires
        0 <= n <= rows.len(),
    ensures
        ({
            let places = pages::call_places(rows, session, pages::source_view(source), n);
            &&& places.len() <= n
            &&& forall|x: int|
                0 <= x < places.len() ==> 0 <= #[trigger] places[x] < n && is_call_of(
                    rows[places[x]],
                    session,
                    source,
                )
            &&& forall|q: int|
                0 <= q < n && is_call_of(#[trigger] rows[q], session, source) ==> places.contains(q)
            &&& forall|x: int, y: int|
                0 <= x < y < places.len() ==> #[trigger] places[x] < #[trigger] places[y]
        }),
    decreases n,
{
    if n > 0 {
        lemma_call_places(rows, session, source, n - 1);
        let before = pages::call_places(rows, session, pages::source_view(source), n - 1);
        let all = pages::call_places(rows, session, pages::source_view(source), n);
        assert forall|q: int| 0 <= q < n && is_call_of(#[trigger] rows[q], session, source) implies all.contains(
            q,
        ) by {
            if q < n - 1 {
                let x = choose|x: int| 0 <= x < before.len() && before[x] == q;
                assert(all[x] == q);
            } else {
                assert(all.last() == q);
            }
        }
    }
}

/// A page of the tool calls of a session shows the first rows behind the cursor, in order and no
/// more than asked for. Every row of the session behind the cursor is on the page or behind
/// the next cursor, and never both; there is a next cursor only where there are more rows,
/// and it names the last row of the page.
pub proof fn law_tool_call_page(
    rows: Vec<SessionToolCall>,
    source: &str,
    session_id: &str,
    limit: i64,
    after: Option<SessionEvidenceCursor>,
    page: SessionToolCallPage,
)
    requires
        call_ensures(session_tool_calls_page, (&rows, source, session_id, limit, after), page),
        forall|i: int, j: int|
            0 <= i < j < rows@.len() ==> (#[trigger] rows@[i]).id != (#[trigger] rows@[j]).id,
    ensures
        page.tool_calls@.len() <= 1000,
        page.tool_calls@.len() <= if limit < 1 {
            1
        } else {
            limit as int
        },
        forall|i: int|
            0 <= i < page.tool_calls@.len() ==> rows@.contains(#[trigger] page.tool_calls@[i])
                && is_call_of(page.tool_calls@[i], session_id@, Some(source)) && call_is_behind(
                page.tool_calls@[i],
                after,
            ),
        forall|i: int, j: int|
            0 <= i < j < page.tool_calls@.len() ==> later(
                (#[trigger] page.tool_calls@[i]).ts_ms,
                page.tool_calls@[i].id,
                (#[trigger] page.tool_calls@[j]).ts_ms,
                page.tool_calls@[j].id,
            ),
        forall|q: int|
            0 <= q < rows@.len() && is_call_of(#[trigger] rows@[q], session_id@, Some(source))
                && call_is_behind(rows@[q], after) ==> page.tool_calls@.contains(rows@[q]) != (
            page.next_cursor is Some && call_is_behind(rows@[q], page.next_cursor)),
        page.next_cursor is Some ==> {
            &&& page.tool_calls@.len() == if limit < 1 {
                1
            } else if limit > 1000 {
                1000
            } else {
                limit as int
            }
            &&& page.next_cursor->0.ts_ms == page.tool_calls@.last().ts_ms
            &&& page.next_cursor->0.id == page.tool_calls@.last().id
            &&& exists|q: int|
                0 <= q < rows@.len() && is_call_of(#[trigger] rows@[q], session_id@, Some(source))
                    && call_is_behind(rows@[q], page.next_cursor)
        },
{
    let source_given = Some(source);
    let n = rows@.len() as int;
    let places = pages::call_places(rows@, session_id@, pages::source_view(source_given), n);
    let keys = pages::call_keys(rows@, places);
    let cursor = pages::evidence_key(after);
    let most = pages::page_limit(limit) as int;
    lemma_call_places(rows@, session_id@, source_given, n);
    assert(rows@.len() == rows.len());
    keyset::law_page_exists(keys, cursor, most);
    let (at, more) = keyset::the_page(keys, cursor, most);
    let shown = page.tool_calls@;
    assert forall|x: int, y: int| 0 <= x < y < keys.len() implies #[trigger] keys[x]
        != #[trigger] keys[y] by {
        assert(places[x] < places[y]);
        assert(rows@[places[x]].id != rows@[places[y]].id);
    }
    assert forall|i: int| 0 <= i < shown.len() implies rows@.contains(#[trigger] shown[i])
        && is_call_of(shown[i], session_id@, source_given) && call_is_behind(shown[i], after) by {
        let x = at[i] as int;
        assert(shown[i] == rows@[places[x]]);
        assert(keyset::beyond(keys[x], cursor));
    }
    assert forall|i: int, j: int| 0 <= i < j < shown.len() implies later(
        (#[trigger] shown[i]).ts_ms,
        shown[i].id,
        (#[trigger] shown[j]).ts_ms,
        shown[j].id,
    ) by {
        assert(keyset::row_less(keys, at[i] as int, at[j] as int));
        assert(shown[i] == rows@[places[at[i] as int]] && shown[j] == rows@[places[at[j] as int]]);
        assert(at[i] != at[j]);
    }
    if more {
        lemma_full(at, keys, cursor, most);
        assert(shown[shown.len() - 1] == rows@[places[at.last() as int]]);
    }
    assert forall|q: int|
        0 <= q < rows@.len() && is_call_of(#[trigger] rows@[q], session_id@, source_given)
            && call_is_behind(rows@[q], after) implies shown.contains(rows@[q]) != (
    page.next_cursor is Some && call_is_behind(rows@[q], page.next_cursor)) by {
        assert(places.contains(q));
        let x = choose|x: int| 0 <= x < places.len() && places[x] == q;
        assert(keyset::beyond(keys[x], cursor));
        keyset::law_walk_meets_every_row_once(keys, cursor, most, x);
        assert(keyset::on_page(at, x) == shown.contains(rows@[q])) by {
            if keyset::on_page(at, x) {
                let i = choose|i: int| 0 <= i < at.len() && #[trigger] at[i] == x;
                assert(shown[i] == rows@[q]);
            }
            if shown.contains(rows@[q]) {
                let i = choose|i: int| 0 <= i < shown.len() && shown[i] == rows@[q];
                assert(shown[i] == rows@[places[at[i] as int]]);
                let p = places[at[i] as int];
                assert(rows@[p].id == rows@[q].id);
                assert(p == q);
                assert(at[i] == x);
            }
        }
    }
    if more {
        let x = choose|x: int|
            0 <= x < keys.len() && keyset::beyond(#[trigger] keys[x], cursor) && !keyset::on_page(
                at,
                x,
            );
        keyset::law_walk_meets_every_row_once(keys, cursor, most, x);
        assert(is_call_of(rows@[places[x]], session_id@, source_given));
        assert(call_is_behind(rows@[places[x]], page.next_cursor));
    }
}

/// Whether a row is of a session, and of a source where one is given.
pub open spec fn is_edit_of(row: SessionFileEdit, session: Seq<char>, source: Option<&str>) -> bool {
    row.session_id@ == session && (source is None || row.source@ == source->0@)
}

/// Whether a row stands behind a cursor.
pub open spec fn edit_is_behind(row: SessionFileEdit, after: Option<SessionEvidenceCursor>) -> bool {
    after is None || later(after->0.ts_ms, after->0.id, row.ts_ms, row.id)
}

proof fn lemma_edit_places(rows: Seq<SessionFileEdit>, session: Seq<char>, source: Option<&str>, n: int)
    requires
        0 <= n <= rows.len(),
    ensures
        ({
            let places = pages::edit_places(rows, session, pages::source_view(source), n);
            &&& places.len() <= n
            &&& forall|x: int|
                0 <= x < places.len() ==> 0 <= #[trigger] places[x] < n && is_edit_of(
                    rows[places[x]],
                    session,
                    source,
                )
            &&& forall|q: int|
                0 <= q < n && is_edit_of(#[trigger] rows[q], session, source) ==> places.contains(q)
            &&& forall|x: int, y: int|
                0 <= x < y < places.len() ==> #[trigger] places[x] < #[trigger] places[y]
        }),
    decreases n,
{
    if n > 0 {
        lemma_edit_places(rows, session, source, n - 1);
        let before = pages::edit_places(rows, session, pages::source_view(source), n - 1);
        let all = pages::edit_places(rows, session, pages::source_view(source), n);
        assert forall|q: int| 0 <= q < n && is_edit_of(#[trigger] rows[q], session, source) implies all.contains(
            q,
        ) by {
            if q < n - 1 {
                let x = choose|x: int| 0 <= x < before.len() && before[x] == q;
                assert(all[x] == q);
            } else {
                assert(all.last() == q);
            }
        }
    }
}

/// A page of the file edits of a session shows the first rows behind the cursor, in order and no
/// more than asked for. Every row of the session behind the cursor is on the page or behind
/// the next cursor, and never both; there is a next cursor only where there are more rows,
/// and it names the last row of the page.
pub proof fn law_file_edit_page(
    rows: Vec<SessionFileEdit>,
    source: &str,
    session_id: &str,
    limit: i64,
    after: Option<SessionEvidenceCursor>,
    page: SessionFileEditPage,
)
    requires
        call_ensures(session_file_edits_page, (&rows, source, session_id, limit, after), page),
        forall|i: int, j: int|
            0 <= i < j < rows@.len() ==> (#[trigger] rows@[i]).id != (#[trigger] rows@[j]).id,
    ensures
        page.file_edits@.len() <= 1000,
        page.file_edits@.len() <= if limit < 1 {
            1
        } else {
            limit as int
        },
        forall|i: int|
            0 <= i < page.file_edits@.len() ==> rows@.contains(#[trigger] page.file_edits@[i])
                && is_edit_of(page.file_edits@[i], session_id@, Some(source)) && edit_is_behind(
                page.file_edits@[i],
                after,
            ),
        forall|i: int, j: int|
            0 <= i < j < page.file_edits@.len() ==> later(
                (#[trigger] page.file_edits@[i]).ts_ms,
                page.file_edits@[i].id,
                (#[trigger] page.file_edits@[j]).ts_ms,
                page.file_edits@[j].id,
            ),
        forall|q: int|
            0 <= q < rows@.len() && is_edit_of(#[trigger] rows@[q], session_id@, Some(source))
                && edit_is_behind(rows@[q], after) ==> page.file_edits@.contains(rows@[q]) != (
            page.next_cursor is Some && edit_is_behind(rows@[q], page.next_cursor)),
        page.next_cursor is Some ==> {
            &&& page.file_edits@.len() == if limit < 1 {
                1
            } else if limit > 1000 {
                1000
            } else {
                limit as int
            }
            &&& page.next_cursor->0.ts_ms == page.file_edits@.last().ts_ms
            &&& page.next_cursor->0.id == page.file_edits@.last().id
            &&& exists|q: int|
                0 <= q < rows@.len() && is_edit_of(#[trigger] rows@[q], session_id@, Some(source))
                    && edit_is_behind(rows@[q], page.next_cursor)
        },
{
    let source_given = Some(source);
    let n = rows@.len() as int;
    let places = pages::edit_places(rows@, session_id@, pages::source_view(source_given), n);
    let keys = pages::edit_keys(rows@, places);
    let cursor = pages::evidence_key(after);
    let most = pages::page_limit(limit) as int;
    lemma_edit_places(rows@, session_id@, source_given, n);
    assert(rows@.len() == rows.len());
    keyset::law_page_exists(keys, cursor, most);
    let (at, more) = keyset::the_page(keys, cursor, most);
    let shown = page.file_edits@;
    assert forall|x: int, y: int| 0 <= x < y < keys.len() implies #[trigger] keys[x]
        != #[trigger] keys[y] by {
        assert(places[x] < places[y]);
        assert(rows@[places[x]].id != rows@[places[y]].id);
    }
    assert forall|i: int| 0 <= i < shown.len() implies rows@.contains(#[trigger] shown[i])
        && is_edit_of(shown[i], session_id@, source_given) && edit_is_behind(shown[i], after) by {
        let x = at[i] as int;
        assert(shown[i] == rows@[places[x]]);
        assert(keyset::beyond(keys[x], cursor));
    }
    assert forall|i: int, j: int| 0 <= i < j < shown.len() implies later(
        (#[trigger] shown[i]).ts_ms,
        shown[i].id,
        (#[trigger] shown[j]).ts_ms,
        shown[j].id,
    ) by {
        assert(keyset::row_less(keys, at[i] as int, at[j] as int));
        assert(shown[i] == rows@[places[at[i] as int]] && shown[j] == rows@[places[at[j] as int]]);
        assert(at[i] != at[j]);
    }
    if more {
        lemma_full(at, keys, cursor, most);
        assert(shown[shown.len() - 1] == rows@[places[at.last() as int]]);
    }
    assert forall|q: int|
        0 <= q < rows@.len() && is_edit_of(#[trigger] rows@[q], session_id@, source_given)
            && edit_is_behind(rows@[q], after) implies shown.contains(rows@[q]) != (
    page.next_cursor is Some && edit_is_behind(rows@[q], page.next_cursor)) by {
        assert(places.contains(q));
        let x = choose|x: int| 0 <= x < places.len() && places[x] == q;
        assert(keyset::beyond(keys[x], cursor));
        keyset::law_walk_meets_every_row_once(keys, cursor, most, x);
        assert(keyset::on_page(at, x) == shown.contains(rows@[q])) by {
            if keyset::on_page(at, x) {
                let i = choose|i: int| 0 <= i < at.len() && #[trigger] at[i] == x;
                assert(shown[i] == rows@[q]);
            }
            if shown.contains(rows@[q]) {
                let i = choose|i: int| 0 <= i < shown.len() && shown[i] == rows@[q];
                assert(shown[i] == rows@[places[at[i] as int]]);
                let p = places[at[i] as int];
                assert(rows@[p].id == rows@[q].id);
                assert(p == q);
                assert(at[i] == x);
            }
        }
    }
    if more {
        let x = choose|x: int|
            0 <= x < keys.len() && keyset::beyond(#[trigger] keys[x], cursor) && !keyset::on_page(
                at,
                x,
            );
        keyset::law_walk_meets_every_row_once(keys, cursor, most, x);
        assert(is_edit_of(rows@[places[x]], session_id@, source_given));
        assert(edit_is_behind(rows@[places[x]], page.next_cursor));
    }
}

/// How many rows a scan returns at most.
pub open spec fn most_rows(limit: usize) -> int {
    if limit < 1 {
        1
    } else if limit > 10_000 {
        10_000
    } else {
        limit as int
    }
}

/// A scan of the history behind an id returns the next ones, in order, each once and at most
/// ten thousand: a row behind it is returned, unless as many as asked for come before it.
pub proof fn law_history_scan(
    rows: Vec<HistoryEntry>,
    after: i64,
    limit: usize,
    next: Vec<usize>,
)
    requires
        call_ensures(history_after, (&rows, after, limit), next),
    ensures
        next@.len() <= most_rows(limit),
        forall|i: int|
            0 <= i < next@.len() ==> (#[trigger] next@[i]) < rows@.len() && rows@[next@[i] as int].id > after,
        forall|i: int, j: int|
            0 <= i < j < next@.len() ==> #[trigger] next@[i] != #[trigger] next@[j] && rows@[next@[i] as int].id <= rows@[next@[j] as int].id,
        forall|q: int|
            0 <= q < rows@.len() && (#[trigger] rows@[q]).id > after ==> keyset::on_page(next@, q) || (next@.len()
                == most_rows(limit) && forall|i: int|
                0 <= i < next@.len() ==> rows@[(#[trigger] next@[i]) as int].id <= rows@[q].id),
{
    let keys = storage::history_keys(rows@);
    let cursor = storage::id_key(after);
    assert(rows@.len() == rows.len());
    keyset::law_page_exists(keys, Some(cursor), storage::bounded_limit(limit));
    let (at, more) = keyset::the_page(keys, Some(cursor), storage::bounded_limit(limit));
    assert forall|i: int, j: int| 0 <= i < j < next@.len() implies #[trigger] next@[i]
        != #[trigger] next@[j] && rows@[next@[i] as int].id <= rows@[next@[j] as int].id by {
        assert(keyset::row_less(keys, at[i] as int, at[j] as int));
    }
    assert forall|q: int| 0 <= q < rows@.len() && (#[trigger] rows@[q]).id > after implies keyset::on_page(next@, q) || (
    next@.len() == most_rows(limit) && forall|i: int|
        0 <= i < next@.len() ==> rows@[(#[trigger] next@[i]) as int].id <= rows@[q].id) by {
        assert(keyset::beyond(keys[q], Some(cursor)));
        if !keyset::on_page(at, q) {
            assert(keyset::follows(keys, at, q));
            assert forall|i: int| 0 <= i < next@.len() implies rows@[(#[trigger] next@[i]) as int].id <= rows@[q].id by {
                assert(keyset::row_less(keys, at[i] as int, q));
            }
        }
    }
}

/// A scan of the commit links behind an id returns the next ones, in order, each once and at most
/// ten thousand: a row behind it is returned, unless as many as asked for come before it.
pub proof fn law_commit_link_scan(
    rows: Vec<StoredCommitLink>,
    after: i64,
    limit: usize,
    next: Vec<usize>,
)
    requires
        call_ensures(commit_links_after, (&rows, after, limit), next),
    ensures
        next@.len() <= most_rows(limit),
        forall|i: int|
            0 <= i < next@.len() ==> (#[trigger] next@[i]) < rows@.len() && rows@[next@[i] as int].id > after,
        forall|i: int, j: int|
            0 <= i < j < next@.len() ==> #[trigger] next@[i] != #[trigger] next@[j] && rows@[next@[i] as int].id <= rows@[next@[j] as int].id,
        forall|q: int|
            0 <= q < rows@.len() && (#[trigger] rows@[q]).id > after ==> keyset::on_page(next@, q) || (next@.len()
                == most_rows(limit) && forall|i: int|
                0 <= i < next@.len() ==> rows@[(#[trigger] next@[i]) as int].id <= rows@[q].id),
{
    let keys = storage::link_keys(rows@);
    let cursor = storage::id_key(after);
    assert(rows@.len() == rows.len());
    keyset::law_page_exists(keys, Some(cursor), storage::bounded_limit(limit));
    let (at, more) = keyset::the_page(keys, Some(cursor), storage::bounded_limit(limit));
    assert forall|i: int, j: int| 0 <= i < j < next@.len() implies #[trigger] next@[i]
        != #[trigger] next@[j] && rows@[next@[i] as int].id <= rows@[next@[j] as int].id by {
        assert(keyset::row_less(keys, at[i] as int, at[j] as int));
    }
    assert forall|q: int| 0 <= q < rows@.len() && (#[trigger] rows@[q]).id > after implies keyset::on_page(next@, q) || (
    next@.len() == most_rows(limit) && forall|i: int|
        0 <= i < next@.len() ==> rows@[(#[trigger] next@[i]) as int].id <= rows@[q].id) by {
        assert(keyset::beyond(keys[q], Some(cursor)));
        if !keyset::on_page(at, q) {
            assert(keyset::follows(keys, at, q));
            assert forall|i: int| 0 <= i < next@.len() implies rows@[(#[trigger] next@[i]) as int].id <= rows@[q].id by {
                assert(keyset::row_less(keys, at[i] as int, q));
            }
        }
    }
}

/// A scan of the trajectories behind a change returns the next ones, in order, each once and at most
/// ten thousand: a row behind it is returned, unless as many as asked for come before it.
pub proof fn law_trajectory_scan(
    rows: Vec<StoredTrajectory>,
    updated_ms: i64,
    rowid: i64,
    limit: usize,
    next: Vec<usize>,
)
    requires
        call_ensures(trajectories_after, (&rows, updated_ms, rowid, limit), next),
    ensures
        next@.len() <= most_rows(limit),
        forall|i: int|
            0 <= i < next@.len() ==> (#[trigger] next@[i]) < rows@.len() && later(Some(updated_ms), rowid, Some(rows@[next@[i] as int].updated_ms), rows@[next@[i] as int].rowid),
        forall|i: int, j: int|
            0 <= i < j < next@.len() ==> #[trigger] next@[i] != #[trigger] next@[j] && !later(Some(rows@[next@[j] as int].updated_ms), rows@[next@[j] as int].rowid, Some(rows@[next@[i] as int].updated_ms), rows@[next@[i] as int].rowid),
        forall|q: int|
            0 <= q < rows@.len() && later(Some(updated_ms), rowid, Some((#[trigger] rows@[q]).updated_ms), (#[trigger] rows@[q]).rowid) ==> keyset::on_page(next@, q) || (next@.len()
                == most_rows(limit) && forall|i: int|
                0 <= i < next@.len() ==> !later(Some(rows@[q].updated_ms), rows@[q].rowid, Some(rows@[(#[trigger] next@[i]) as int].updated_ms), rows@[(#[trigger] next@[i]) as int].rowid)),
{
    let keys = storage::trajectory_keys(rows@);
    let cursor = (PageKey { tail: false, ts_ms: updated_ms, id: rowid });
    assert(rows@.len() == rows.len());
    keyset::law_page_exists(keys, Some(cursor), storage::bounded_limit(limit));
    let (at, more) = keyset::the_page(keys, Some(cursor), storage::bounded_limit(limit));
    assert forall|i: int, j: int| 0 <= i < j < next@.len() implies #[trigger] next@[i]
        != #[trigger] next@[j] && !later(Some(rows@[next@[j] as int].updated_ms), rows@[next@[j] as int].rowid, Some(rows@[next@[i] as int].updated_ms), rows@[next@[i] as int].rowid) by {
        assert(keyset::row_less(keys, at[i] as int, at[j] as int));
    }
    assert forall|q: int| 0 <= q < rows@.len() && later(Some(updated_ms), rowid, Some((#[trigger] rows@[q]).updated_ms), (#[trigger] rows@[q]).rowid) implies keyset::on_page(next@, q) || (
    next@.len() == most_rows(limit) && forall|i: int|
        0 <= i < next@.len() ==> !later(Some(rows@[q].updated_ms), rows@[q].rowid, Some(rows@[(#[trigger] next@[i]) as int].updated_ms), rows@[(#[trigger] next@[i]) as int].rowid)) by {
        assert(keyset::beyond(keys[q], Some(cursor)));
        if !keyset::on_page(at, q) {
            assert(keyset::follows(keys, at, q));
            assert forall|i: int| 0 <= i < next@.len() implies !later(Some(rows@[q].updated_ms), rows@[q].rowid, Some(rows@[(#[trigger] next@[i]) as int].updated_ms), rows@[(#[trigger] next@[i]) as int].rowid) by {
                assert(keyset::row_less(keys, at[i] as int, q));
            }
        }
    }
}

/// Whether a row is of a session and behind an id.
pub open spec fn is_fresh(row: SessionRow, source: Seq<char>, session: Seq<char>, after: i64) -> bool {
    row.source@ == source && row.session_id@ == session && row.id > after
}

proof fn lemma_session_places(rows: Seq<SessionRow>, after: i64, n: int)
    requires
        0 <= n <= rows.len(),
    ensures
        ({
            let places = storage::session_places(rows, after, n);
            &&& places.len() <= n
            &&& forall|x: int|
                0 <= x < places.len() ==> 0 <= #[trigger] places[x] < n && rows[places[x]].id
                    > after
            &&& forall|x: int, y: int|
                0 <= x < y < places.len() ==> !(rows[#[trigger] places[x]].source@
                    == rows[#[trigger] places[y]].source@ && rows[places[x]].session_id@
                    == rows[places[y]].session_id@)
            &&& forall|q: int|
                0 <= q < n && (#[trigger] rows[q]).id > after ==> is_opened(rows, places, q)
        }),
    decreases n,
{
    if n > 0 {
        lemma_session_places(rows, after, n - 1);
        let before = storage::session_places(rows, after, n - 1);
        let all = storage::session_places(rows, after, n);
        let opens = storage::opens_session(rows, n - 1, after);
        assert forall|x: int, y: int| 0 <= x < y < all.len() implies !(
        rows[#[trigger] all[x]].source@ == rows[#[trigger] all[y]].source@
            && rows[all[x]].session_id@ == rows[all[y]].session_id@) by {
            assert(all[x] == before[x]);
            if y < before.len() {
                assert(all[y] == before[y]);
            } else {
                let one = rows[before[x]];
                assert(!storage::is_new(
                    rows[before[x]],
                    rows[n - 1].source@,
                    rows[n - 1].session_id@,
                    after,
                ));
            }
        }
        assert forall|q: int| 0 <= q < n && (#[trigger] rows[q]).id > after implies is_opened(
            rows,
            all,
            q,
        ) by {
            if q < n - 1 {
                lemma_still_opened(rows, before, all, q);
            } else if opens {
                assert(all[before.len() as int] == q);
            } else {
                let j = choose|j: int|
                    0 <= j < n - 1 && storage::is_new(
                        #[trigger] rows[j],
                        rows[q].source@,
                        rows[q].session_id@,
                        after,
                    );
                assert(rows[j].id > after);
                assert(is_opened(rows, before, j));
                let x = choose|x: int|
                    0 <= x < before.len() && same_session(rows[#[trigger] before[x]], rows[j]);
                assert(same_session(rows[all[x]], rows[q]));
            }
        }
    }
}

/// Whether two rows are of one session.
pub open spec fn same_session(a: SessionRow, b: SessionRow) -> bool {
    a.source@ == b.source@ && a.session_id@ == b.session_id@
}

spec fn is_opened(rows: Seq<SessionRow>, places: Seq<int>, q: int) -> bool {
    exists|x: int| 0 <= x < places.len() && same_session(rows[#[trigger] places[x]], rows[q])
}

proof fn lemma_still_opened(rows: Seq<SessionRow>, before: Seq<int>, all: Seq<int>, q: int)
    requires
        before.len() <= all.len(),
        forall|x: int| 0 <= x < before.len() ==> #[trigger] all[x] == before[x],
        is_opened(rows, before, q),
    ensures
        is_opened(rows, all, q),
{
    let x = choose|x: int|
        0 <= x < before.len() && same_session(rows[#[trigger] before[x]], rows[q]);
    assert(all[x] == before[x]);
}

/// The sessions with a change behind an id are those with a row behind it, each once, with
/// the last of its rows, and in that order: one is left out only where as many as asked for
/// come before it.
pub proof fn law_changed_sessions(
    rows: Vec<SessionRow>,
    after: i64,
    limit: usize,
    next: Vec<ChangedSession>,
)
    requires
        call_ensures(changed_file_sessions_after, (&rows, after, limit), next),
    ensures
        next@.len() <= most_rows(limit),
        forall|i: int|
            #![trigger next@[i]]
            0 <= i < next@.len() ==> (exists|q: int|
                0 <= q < rows@.len() && is_fresh(
                    #[trigger] rows@[q],
                    next@[i].source@,
                    next@[i].session_id@,
                    after,
                ) && rows@[q].id == next@[i].max_id) && (forall|q: int|
                0 <= q < rows@.len() && is_fresh(
                    #[trigger] rows@[q],
                    next@[i].source@,
                    next@[i].session_id@,
                    after,
                ) ==> rows@[q].id <= next@[i].max_id),
        forall|i: int, j: int|
            0 <= i < j < next@.len() ==> (#[trigger] next@[i]).max_id <= (
            #[trigger] next@[j]).max_id && !(next@[i].source@ == next@[j].source@
                && next@[i].session_id@ == next@[j].session_id@),
        forall|q: int|
            0 <= q < rows@.len() && (#[trigger] rows@[q]).id > after ==> (exists|i: int|
                0 <= i < next@.len() && (#[trigger] next@[i]).source@ == rows@[q].source@
                    && next@[i].session_id@ == rows@[q].session_id@) || next@.len()
                == most_rows(limit),
{
    let n = rows@.len() as int;
    let places = storage::session_places(rows@, after, n);
    lemma_session_places(rows@, after, n);
    let ids = choose|ids: Seq<i64>| #[trigger]
        storage::are_bounds(ids, rows@, after, true) && storage::are_changed(
            next@,
            rows@,
            ids,
            after,
            limit,
        );
    let keys = storage::keys_of_ids(ids);
    assert(rows@.len() == rows.len());
    keyset::law_page_exists(keys, None, storage::bounded_limit(limit));
    let (at, more) = keyset::the_page(keys, None, storage::bounded_limit(limit));
    assert forall|i: int| #![trigger next@[i]] 0 <= i < next@.len() implies (exists|q: int|
        0 <= q < rows@.len() && is_fresh(
            #[trigger] rows@[q],
            next@[i].source@,
            next@[i].session_id@,
            after,
        ) && rows@[q].id == next@[i].max_id) && (forall|q: int|
        0 <= q < rows@.len() && is_fresh(
            #[trigger] rows@[q],
            next@[i].source@,
            next@[i].session_id@,
            after,
        ) ==> rows@[q].id <= next@[i].max_id) by {
        let x = at[i] as int;
        let id = ids[x];
        assert(storage::is_last_id(
            rows@,
            rows@[places[x]].source@,
            rows@[places[x]].session_id@,
            after,
            ids[x],
        ));
        let q = choose|q: int|
            0 <= q < rows@.len() && storage::is_new(
                #[trigger] rows@[q],
                rows@[places[x]].source@,
                rows@[places[x]].session_id@,
                after,
            ) && rows@[q].id == ids[x];
        assert(is_fresh(rows@[q], next@[i].source@, next@[i].session_id@, after));
        assert forall|p: int|
            0 <= p < rows@.len() && is_fresh(
                #[trigger] rows@[p],
                next@[i].source@,
                next@[i].session_id@,
                after,
            ) implies rows@[p].id <= next@[i].max_id by {
            assert(storage::is_new(
                rows@[p],
                rows@[places[x]].source@,
                rows@[places[x]].session_id@,
                after,
            ));
        }
    }
    assert forall|i: int, j: int| 0 <= i < j < next@.len() implies (#[trigger] next@[i]).max_id
        <= (#[trigger] next@[j]).max_id && !(next@[i].source@ == next@[j].source@
        && next@[i].session_id@ == next@[j].session_id@) by {
        let x = at[i] as int;
        let y = at[j] as int;
        assert(keyset::row_less(keys, x, y));
        assert(x != y);
        let (a, b) = (places[x], places[y]);
    }
    assert forall|q: int| 0 <= q < rows@.len() && (#[trigger] rows@[q]).id > after implies (exists|
        i: int,
    |
        0 <= i < next@.len() && (#[trigger] next@[i]).source@ == rows@[q].source@
            && next@[i].session_id@ == rows@[q].session_id@) || next@.len() == most_rows(limit) by {
        assert(is_opened(rows@, places, q));
        let x = choose|x: int|
            0 <= x < places.len() && same_session(rows@[#[trigger] places[x]], rows@[q]);
        assert(keyset::beyond(keys[x], None));
        if keyset::on_page(at, x) {
            let i = choose|i: int| 0 <= i < at.len() && #[trigger] at[i] == x;
            assert(next@[i].source@ == rows@[q].source@);
        }
    }
}

/// The sessions with pending events behind an id are those with a row behind it, each once,
/// with the first of its rows behind it, and in that order: one is left out only where as
/// many as asked for come before it.
pub proof fn law_pending_sessions(
    rows: Vec<SessionRow>,
    after: i64,
    limit: usize,
    next: Vec<(String, String, i64)>,
)
    requires
        call_ensures(pending_event_sessions, (&rows, after, limit), next),
    ensures
        next@.len() <= most_rows(limit),
        forall|i: int|
            #![trigger next@[i]]
            0 <= i < next@.len() ==> (exists|q: int|
                0 <= q < rows@.len() && is_fresh(
                    #[trigger] rows@[q],
                    next@[i].1@,
                    next@[i].0@,
                    after,
                ) && rows@[q].id == next@[i].2) && (forall|q: int|
                0 <= q < rows@.len() && is_fresh(
                    #[trigger] rows@[q],
                    next@[i].1@,
                    next@[i].0@,
                    after,
                ) ==> rows@[q].id >= next@[i].2),
        forall|i: int, j: int|
            0 <= i < j < next@.len() ==> (#[trigger] next@[i]).2 <= (
            #[trigger] next@[j]).2 && !(next@[i].1@ == next@[j].1@
                && next@[i].0@ == next@[j].0@),
        forall|q: int|
            0 <= q < rows@.len() && (#[trigger] rows@[q]).id > after ==> (exists|i: int|
                0 <= i < next@.len() && (#[trigger] next@[i]).1@ == rows@[q].source@
                    && next@[i].0@ == rows@[q].session_id@) || next@.len()
                == most_rows(limit),
{
    let n = rows@.len() as int;
    let places = storage::session_places(rows@, after, n);
    lemma_session_places(rows@, after, n);
    let ids = choose|ids: Seq<i64>| #[trigger]
        storage::are_bounds(ids, rows@, after, false) && storage::are_pending(
            next@,
            rows@,
            ids,
            after,
            limit,
        );
    let keys = storage::keys_of_ids(ids);
    assert(rows@.len() == rows.len());
    keyset::law_page_exists(keys, None, storage::bounded_limit(limit));
    let (at, more) = keyset::the_page(keys, None, storage::bounded_limit(limit));
    assert forall|i: int| #![trigger next@[i]] 0 <= i < next@.len() implies (exists|q: int|
        0 <= q < rows@.len() && is_fresh(
            #[trigger] rows@[q],
            next@[i].1@,
            next@[i].0@,
            after,
        ) && rows@[q].id == next@[i].2) && (forall|q: int|
        0 <= q < rows@.len() && is_fresh(
            #[trigger] rows@[q],
            next@[i].1@,
            next@[i].0@,
            after,
        ) ==> rows@[q].id >= next@[i].2) by {
        let x = at[i] as int;
        let id = ids[x];
        assert(storage::is_first_id(
            rows@,
            rows@[places[x]].source@,
            rows@[places[x]].session_id@,
            after,
            ids[x],
        ));
        let q = choose|q: int|
            0 <= q < rows@.len() && storage::is_new(
                #[trigger] rows@[q],
                rows@[places[x]].source@,
                rows@[places[x]].session_id@,
                after,
            ) && rows@[q].id == ids[x];
        assert(is_fresh(rows@[q], next@[i].1@, next@[i].0@, after));
        assert forall|p: int|
            0 <= p < rows@.len() && is_fresh(
                #[trigger] rows@[p],
                next@[i].1@,
                next@[i].0@,
                after,
            ) implies rows@[p].id >= next@[i].2 by {
            assert(storage::is_new(
                rows@[p],
                rows@[places[x]].source@,
                rows@[places[x]].session_id@,
                after,
            ));
        }
    }
    assert forall|i: int, j: int| 0 <= i < j < next@.len() implies (#[trigger] next@[i]).2
        <= (#[trigger] next@[j]).2 && !(next@[i].1@ == next@[j].1@
        && next@[i].0@ == next@[j].0@) by {
        let x = at[i] as int;
        let y = at[j] as int;
        assert(keyset::row_less(keys, x, y));
        assert(x != y);
        let (a, b) = (places[x], places[y]);
    }
    assert forall|q: int| 0 <= q < rows@.len() && (#[trigger] rows@[q]).id > after implies (exists|
        i: int,
    |
        0 <= i < next@.len() && (#[trigger] next@[i]).1@ == rows@[q].source@
            && next@[i].0@ == rows@[q].session_id@) || next@.len() == most_rows(limit) by {
        assert(is_opened(rows@, places, q));
        let x = choose|x: int|
            0 <= x < places.len() && same_session(rows@[#[trigger] places[x]], rows@[q]);
        assert(keyset::beyond(keys[x], None));
        if keyset::on_page(at, x) {
            let i = choose|i: int| 0 <= i < at.len() && #[trigger] at[i] == x;
            assert(next@[i].1@ == rows@[q].source@);
        }
    }
}

/// Whether a shown request is one of those that are kept.
pub open spec fn is_shown_of(request: SessionRequest, raw: RawRequest) -> bool {
    &&& request.id == raw.id
    &&& request.request_key@ == raw.request_key@
    &&& request.source@ == raw.source@
    &&& request.session_id@ == raw.session_id@
    &&& request.first_ts_ms == raw.first_ts_ms
    &&& request.last_ts_ms == raw.last_ts_ms
    &&& request.event_count == raw.event_count
    &&& request.has_thinking == raw.has_thinking
    &&& text::views(request.message_ids@) == text::views(raw.message_ids@)
    &&& text::opt_view(request.model) == text::opt_view(raw.model)
    &&& text::opt_view(request.provider) == text::opt_view(raw.provider)
}

/// Whether a request stands behind a cursor.
pub open spec fn request_is_behind(raw: RawRequest, after: Option<SessionRequestCursor>) -> bool {
    after is None || later(Some(after->0.ts_ms), after->0.id, Some(raw.first_ts_ms), raw.id)
}

/// Whether a shown request is one of those that are kept behind a cursor.
pub open spec fn is_kept_behind(
    request: SessionRequest,
    raws: Seq<RawRequest>,
    after: Option<SessionRequestCursor>,
) -> bool {
    exists|q: int|
        0 <= q < raws.len() && is_shown_of(request, #[trigger] raws[q]) && request_is_behind(
            raws[q],
            after,
        )
}

/// Whether a request is on a page.
pub open spec fn is_on_page(page: SessionRequestPage, raw: RawRequest) -> bool {
    exists|i: int| 0 <= i < page.requests@.len() && (#[trigger] page.requests@[i]).id == raw.id
}

/// A page of requests shows the first behind the cursor, in order and no more than asked
/// for. Every request behind the cursor is on the page or behind the next cursor, and never
/// both; there is a next cursor only where there are more requests.
pub proof fn law_request_page(
    raws: Vec<RawRequest>,
    calls: &[SessionToolCall],
    limit: i64,
    after: Option<SessionRequestCursor>,
    page: SessionRequestPage,
)
    requires
        call_ensures(request_page, (&raws, calls, limit, after), page),
        forall|i: int, j: int|
            0 <= i < j < raws@.len() ==> (#[trigger] raws@[i]).id != (#[trigger] raws@[j]).id,
    ensures
        page.requests@.len() <= 1000,
        page.requests@.len() <= if limit < 1 {
            1
        } else {
            limit as int
        },
        forall|i: int|
            0 <= i < page.requests@.len() ==> is_kept_behind(
                #[trigger] page.requests@[i],
                raws@,
                after,
            ),
        forall|i: int, j: int|
            0 <= i < j < page.requests@.len() ==> later(
                Some((#[trigger] page.requests@[i]).first_ts_ms),
                page.requests@[i].id,
                Some((#[trigger] page.requests@[j]).first_ts_ms),
                page.requests@[j].id,
            ),
        forall|q: int|
            0 <= q < raws@.len() && request_is_behind(#[trigger] raws@[q], after) ==> is_on_page(
                page,
                raws@[q],
            ) != (page.next_cursor is Some && request_is_behind(raws@[q], page.next_cursor)),
        page.next_cursor is Some ==> exists|q: int|
            0 <= q < raws@.len() && request_is_behind(#[trigger] raws@[q], page.next_cursor),
{
    let keys = session_usage::request_page_keys(raws@);
    let cursor = session_usage::cursor_key(after);
    let most = session_usage::page_limit(limit);
    assert(raws@.len() == raws.len());
    keyset::law_page_exists(keys, cursor, most);
    let (at, more) = keyset::the_page(keys, cursor, most);
    let shown = page.requests@;
    assert forall|x: int, y: int| 0 <= x < y < keys.len() implies #[trigger] keys[x]
        != #[trigger] keys[y] by {
        assert(raws@[x].id != raws@[y].id);
    }
    assert forall|i: int| 0 <= i < shown.len() implies is_kept_behind(
        #[trigger] shown[i],
        raws@,
        after,
    ) by {
        let q = at[i] as int;
        assert(keyset::beyond(keys[q], cursor));
        assert(is_shown_of(shown[i], raws@[q]));
    }
    assert forall|i: int, j: int| 0 <= i < j < shown.len() implies later(
        Some((#[trigger] shown[i]).first_ts_ms),
        shown[i].id,
        Some((#[trigger] shown[j]).first_ts_ms),
        shown[j].id,
    ) by {
        assert(keyset::row_less(keys, at[i] as int, at[j] as int));
        assert(at[i] != at[j]);
        assert(keys[at[i] as int] != keys[at[j] as int]) by {
            if at[i] < at[j] {
                assert(keys[at[i] as int] != keys[at[j] as int]);
            } else {
                assert(keys[at[j] as int] != keys[at[i] as int]);
            }
        }
    }
    if more {
        lemma_full(at, keys, cursor, most);
    }
    assert forall|q: int|
        0 <= q < raws@.len() && request_is_behind(#[trigger] raws@[q], after) implies is_on_page(
        page,
        raws@[q],
    ) != (page.next_cursor is Some && request_is_behind(raws@[q], page.next_cursor)) by {
        assert(keyset::beyond(keys[q], cursor));
        keyset::law_walk_meets_every_row_once(keys, cursor, most, q);
        assert(keyset::on_page(at, q) == is_on_page(page, raws@[q])) by {
            if keyset::on_page(at, q) {
                let i = choose|i: int| 0 <= i < at.len() && #[trigger] at[i] == q;
                assert(shown[i].id == raws@[q].id);
            }
            if is_on_page(page, raws@[q]) {
                let i = choose|i: int|
                    0 <= i < page.requests@.len() && (#[trigger] page.requests@[i]).id
                        == raws@[q].id;
                let p = at[i] as int;
                assert(raws@[p].id == raws@[q].id);
                assert(p == q);
            }
        }
    }
    if more {
        let x = choose|x: int|
            0 <= x < keys.len() && keyset::beyond(#[trigger] keys[x], cursor) && !keyset::on_page(
                at,
                x,
            );
        keyset::law_walk_meets_every_row_once(keys, cursor, most, x);
        assert(request_is_behind(raws@[x], page.next_cursor));
    }
}

} // verus!
