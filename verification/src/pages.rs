//! Pages of the rows of one session: events, tool calls and file edits.
//!
//! Tool calls and file edits need no time. Those without one come last, and a
//! cursor inside that tail continues by id.
//!
//! A query has the database narrow what is read. Which of the rows make up a page, and
//! where the next one starts, is said of the rows themselves.
use crate::keyset;
use crate::keyset::{page_of, PageKey};
use crate::queries;
use crate::store::{
    SessionEvent,
    SessionEventCursor,
    SessionEventPage,
    SessionEvidenceCursor,
    SessionFileEdit,
    SessionFileEditPage,
    SessionToolCall,
    SessionToolCallPage,
};
use crate::text;
use crate::text::{concat3, same_text};
use vstd::prelude::*;
use vstd::string::*;

verus! {

/// The version of the pages of tool calls and file edits.
pub const SESSION_EVIDENCE_CONTRACT_VERSION: u32 = 1;

/// How many rows a page holds: what was asked for, from 1 to 1000.
pub open spec fn page_limit(limit: i64) -> i64 {
    if limit < 1 {
        1
    } else if limit > 1_000 {
        1_000
    } else {
        limit
    }
}

/// How many rows a page holds.
pub fn clamp_limit(limit: i64) -> (r: i64)
    ensures
        r == page_limit(limit),
{
    if limit < 1 {
        1
    } else if limit > 1_000 {
        1_000
    } else {
        limit
    }
}

/// The key of a time that may be missing.
pub open spec fn dated_key(ts_ms: Option<i64>, id: i64) -> PageKey {
    match ts_ms {
        Some(ts_ms) => PageKey { tail: false, ts_ms, id },
        None => PageKey { tail: true, ts_ms: 0, id },
    }
}

fn key_of_row(ts_ms: Option<i64>, id: i64) -> (r: PageKey)
    ensures
        r == dated_key(ts_ms, id),
{
    match ts_ms {
        Some(ts_ms) => PageKey { tail: false, ts_ms, id },
        None => PageKey { tail: true, ts_ms: 0, id },
    }
}

/// Two rows share a key only where they share an id.
pub proof fn law_rows_with_different_ids_are_told_apart(
    a_ts: Option<i64>,
    a: i64,
    b_ts: Option<i64>,
    b: i64,
)
    requires
        a != b,
    ensures
        dated_key(a_ts, a) != dated_key(b_ts, b),
{
}

/// The key of a cursor into tool calls or file edits.
pub open spec fn evidence_key(cursor: Option<SessionEvidenceCursor>) -> Option<PageKey> {
    match cursor {
        Some(cursor) => Some(dated_key(cursor.ts_ms, cursor.id)),
        None => None,
    }
}

/// The key of a cursor into events.
pub open spec fn event_key(cursor: Option<SessionEventCursor>) -> Option<PageKey> {
    match cursor {
        Some(cursor) => Some(dated_key(Some(cursor.ts_ms), cursor.id)),
        None => None,
    }
}

/// Whether a source is the one that is asked for, where one is.
pub open spec fn is_wanted(source: Seq<char>, wanted: Option<Seq<char>>) -> bool {
    wanted is None || wanted == Some(source)
}

/// The view of an optional source.
pub open spec fn source_view(source: Option<&str>) -> Option<Seq<char>> {
    match source {
        Some(source) => Some(source@),
        None => None,
    }
}

fn wants(source: &str, wanted: Option<&str>) -> (r: bool)
    ensures
        r == is_wanted(source@, source_view(wanted)),
{
    match wanted {
        Some(wanted) => same_text(source, wanted),
        None => true,
    }
}

proof fn lemma_full_page(page: Seq<usize>, keys: Seq<PageKey>, after: Option<PageKey>, limit: int)
    requires
        keyset::is_page(page, true, keys, after, limit),
        limit >= 1,
    ensures
        page.len() == limit,
        page[page.len() - 1] < keys.len(),
{
    let q = choose|q: int|
        0 <= q < keys.len() && keyset::beyond(#[trigger] keys[q], after) && !keyset::on_page(page, q);
    assert(keyset::beyond(keys[q], after));
    assert(page[page.len() - 1] < keys.len());
}

/// The places of the events of a session among the first rows.
pub open spec fn event_places(
    rows: Seq<SessionEvent>,
    session: Seq<char>,
    source: Option<Seq<char>>,
    n: int,
) -> Seq<int>
    decreases n,
{
    if n <= 0 {
        Seq::empty()
    } else {
        let before = event_places(rows, session, source, n - 1);
        if rows[n - 1].session_id@ == session && is_wanted(rows[n - 1].source@, source) {
            before.push(n - 1)
        } else {
            before
        }
    }
}

/// The keys of the events at some places.
pub open spec fn event_keys(rows: Seq<SessionEvent>, places: Seq<int>) -> Seq<PageKey> {
    Seq::new(places.len(), |i: int| dated_key(Some(rows[places[i]].ts_ms), rows[places[i]].id))
}

/// Whether a page is that of the events of a session behind a cursor.
pub open spec fn is_event_page(
    page: SessionEventPage,
    rows: Seq<SessionEvent>,
    session: Seq<char>,
    source: Option<Seq<char>>,
    limit: i64,
    after: Option<SessionEventCursor>,
) -> bool {
    let places = event_places(rows, session, source, rows.len() as int);
    let (page_places, more) = keyset::the_page(
        event_keys(rows, places),
        event_key(after),
        page_limit(limit) as int,
    );
    &&& page.events@.len() == page_places.len()
    &&& forall|i: int|
        0 <= i < page_places.len() ==> #[trigger] page.events@[i] == rows[places[page_places[i] as int]]
    &&& event_key(page.next_cursor) == if more {
        Some(event_keys(rows, places)[page_places.last() as int])
    } else {
        None
    }
}

proof fn lemma_event_places(
    rows: Seq<SessionEvent>,
    session: Seq<char>,
    source: Option<Seq<char>>,
    n: int,
)
    requires
        0 <= n <= rows.len(),
    ensures
        event_places(rows, session, source, n).len() <= n,
        forall|i: int|
            0 <= i < event_places(rows, session, source, n).len() ==> 0 <= (#[trigger] event_places(
                rows,
                session,
                source,
                n,
            )[i]) < n,
    decreases n,
{
    if n > 0 {
        lemma_event_places(rows, session, source, n - 1);
        let before = event_places(rows, session, source, n - 1);
        let all = event_places(rows, session, source, n);
        assert forall|i: int| 0 <= i < all.len() implies 0 <= (#[trigger] all[i]) < n by {
            if i < before.len() {
                assert(all[i] == before[i]);
            }
        }
    }
}

/// A page of the events of a session, oldest first; of one source where it is given.
pub fn session_events_page(
    rows: &Vec<SessionEvent>,
    session_id: &str,
    source: Option<&str>,
    limit: i64,
    after: Option<SessionEventCursor>,
) -> (r: SessionEventPage)
    ensures
        is_event_page(r, rows@, session_id@, source_view(source), limit, after),
{
    let mut places: Vec<usize> = Vec::new();
    let mut keys: Vec<PageKey> = Vec::new();
    let mut i: usize = 0;
    while i < rows.len()
        invariant
            i <= rows.len(),
            ({
                let mine = event_places(rows@, session_id@, source_view(source), i as int);
                &&& places@.len() == mine.len()
                &&& forall|j: int| 0 <= j < mine.len() ==> #[trigger] places@[j] == mine[j]
                &&& keys@ == event_keys(rows@, mine)
            }),
        decreases rows.len() - i,
    {
        let row = &rows[i];
        let ghost mine = event_places(rows@, session_id@, source_view(source), i as int);
        if same_text(row.session_id.as_str(), session_id) && wants(row.source.as_str(), source) {
            places.push(i);
            keys.push(key_of_row(Some(row.ts_ms), row.id));
            assert(keys@ =~= event_keys(rows@, mine.push(i as int)));
        }
        i = i + 1;
    }
    let limit: i64 = clamp_limit(limit);
    let cursor = match after {
        Some(cursor) => Some(key_of_row(Some(cursor.ts_ms), cursor.id)),
        None => None,
    };
    let (page, more) = page_of(&keys, cursor, limit as usize);
    let ghost mine = event_places(rows@, session_id@, source_view(source), rows@.len() as int);
    proof {
        lemma_event_places(rows@, session_id@, source_view(source), rows@.len() as int);
    }
    let mut out: Vec<SessionEvent> = Vec::new();
    let mut i: usize = 0;
    while i < page.len()
        invariant
            i <= page.len(),
            places@.len() == mine.len(),
            keys@.len() == mine.len(),
            forall|j: int| 0 <= j < mine.len() ==> #[trigger] places@[j] == mine[j],
            forall|j: int| 0 <= j < mine.len() ==> 0 <= (#[trigger] mine[j]) < rows@.len(),
            forall|j: int| 0 <= j < page@.len() ==> (#[trigger] page@[j]) < keys@.len(),
            out@.len() == i,
            forall|j: int| 0 <= j < i ==> #[trigger] out@[j] == rows@[mine[page@[j] as int]],
        decreases page.len() - i,
    {
        assert(places@[page@[i as int] as int] == mine[page@[i as int] as int]);
        assert(0 <= mine[page@[i as int] as int] < rows@.len());
        out.push(rows[places[page[i]]].copied());
        i = i + 1;
    }
    let next_cursor = if more {
        proof {
            lemma_full_page(page@, keys@, cursor, limit as int);
            let last = page@[page@.len() - 1] as int;
            assert(places@[last] == mine[last]);
            assert(0 <= mine[last] < rows@.len());
        }
        let row = &rows[places[page[page.len() - 1]]];
        Some(SessionEventCursor { ts_ms: row.ts_ms, id: row.id })
    } else {
        None
    };
    SessionEventPage { events: out, next_cursor }
}

/// The places of the tool calls of a session among the first rows.
pub open spec fn call_places(
    rows: Seq<SessionToolCall>,
    session: Seq<char>,
    source: Option<Seq<char>>,
    n: int,
) -> Seq<int>
    decreases n,
{
    if n <= 0 {
        Seq::empty()
    } else {
        let before = call_places(rows, session, source, n - 1);
        if rows[n - 1].session_id@ == session && is_wanted(rows[n - 1].source@, source) {
            before.push(n - 1)
        } else {
            before
        }
    }
}

/// The keys of the tool calls at some places.
pub open spec fn call_keys(rows: Seq<SessionToolCall>, places: Seq<int>) -> Seq<PageKey> {
    Seq::new(places.len(), |i: int| dated_key(rows[places[i]].ts_ms, rows[places[i]].id))
}

/// Whether a page is that of the tool calls of a session behind a cursor.
pub open spec fn is_call_page(
    page: SessionToolCallPage,
    rows: Seq<SessionToolCall>,
    session: Seq<char>,
    source: Option<Seq<char>>,
    limit: i64,
    after: Option<SessionEvidenceCursor>,
) -> bool {
    let places = call_places(rows, session, source, rows.len() as int);
    let (page_places, more) = keyset::the_page(
        call_keys(rows, places),
        evidence_key(after),
        page_limit(limit) as int,
    );
    &&& page.tool_calls@.len() == page_places.len()
    &&& forall|i: int|
        0 <= i < page_places.len() ==> #[trigger] page.tool_calls@[i] == rows[places[page_places[i] as int]]
    &&& evidence_key(page.next_cursor) == if more {
        Some(call_keys(rows, places)[page_places.last() as int])
    } else {
        None
    }
}

proof fn lemma_call_places(
    rows: Seq<SessionToolCall>,
    session: Seq<char>,
    source: Option<Seq<char>>,
    n: int,
)
    requires
        0 <= n <= rows.len(),
    ensures
        call_places(rows, session, source, n).len() <= n,
        forall|i: int|
            0 <= i < call_places(rows, session, source, n).len() ==> 0 <= (#[trigger] call_places(
                rows,
                session,
                source,
                n,
            )[i]) < n,
    decreases n,
{
    if n > 0 {
        lemma_call_places(rows, session, source, n - 1);
        let before = call_places(rows, session, source, n - 1);
        let all = call_places(rows, session, source, n);
        assert forall|i: int| 0 <= i < all.len() implies 0 <= (#[trigger] all[i]) < n by {
            if i < before.len() {
                assert(all[i] == before[i]);
            }
        }
    }
}

/// A page of the tool calls of a session, oldest first and the undated ones last.
/// Both the source and the session are needed: the ids of two providers can be the
/// same.
pub fn session_tool_calls_page(
    rows: &Vec<SessionToolCall>,
    source: &str,
    session_id: &str,
    limit: i64,
    after: Option<SessionEvidenceCursor>,
) -> (r: SessionToolCallPage)
    ensures
        is_call_page(r, rows@, session_id@, Some(source@), limit, after),
{
    let mut places: Vec<usize> = Vec::new();
    let mut keys: Vec<PageKey> = Vec::new();
    let mut i: usize = 0;
    while i < rows.len()
        invariant
            i <= rows.len(),
            ({
                let mine = call_places(rows@, session_id@, Some(source@), i as int);
                &&& places@.len() == mine.len()
                &&& forall|j: int| 0 <= j < mine.len() ==> #[trigger] places@[j] == mine[j]
                &&& keys@ == call_keys(rows@, mine)
            }),
        decreases rows.len() - i,
    {
        let row = &rows[i];
        let ghost mine = call_places(rows@, session_id@, Some(source@), i as int);
        if same_text(row.session_id.as_str(), session_id) && same_text(row.source.as_str(), source) {
            places.push(i);
            keys.push(key_of_row(row.ts_ms, row.id));
            assert(keys@ =~= call_keys(rows@, mine.push(i as int)));
        }
        i = i + 1;
    }
    let limit: i64 = clamp_limit(limit);
    let cursor = match after {
        Some(cursor) => Some(key_of_row(cursor.ts_ms, cursor.id)),
        None => None,
    };
    let (page, more) = page_of(&keys, cursor, limit as usize);
    let ghost mine = call_places(rows@, session_id@, Some(source@), rows@.len() as int);
    proof {
        lemma_call_places(rows@, session_id@, Some(source@), rows@.len() as int);
    }
    let mut out: Vec<SessionToolCall> = Vec::new();
    let mut i: usize = 0;
    while i < page.len()
        invariant
            i <= page.len(),
            places@.len() == mine.len(),
            keys@.len() == mine.len(),
            forall|j: int| 0 <= j < mine.len() ==> #[trigger] places@[j] == mine[j],
            forall|j: int| 0 <= j < mine.len() ==> 0 <= (#[trigger] mine[j]) < rows@.len(),
            forall|j: int| 0 <= j < page@.len() ==> (#[trigger] page@[j]) < keys@.len(),
            out@.len() == i,
            forall|j: int| 0 <= j < i ==> #[trigger] out@[j] == rows@[mine[page@[j] as int]],
        decreases page.len() - i,
    {
        assert(places@[page@[i as int] as int] == mine[page@[i as int] as int]);
        assert(0 <= mine[page@[i as int] as int] < rows@.len());
        out.push(rows[places[page[i]]].copied());
        i = i + 1;
    }
    let next_cursor = if more {
        proof {
            lemma_full_page(page@, keys@, cursor, limit as int);
            let last = page@[page@.len() - 1] as int;
            assert(places@[last] == mine[last]);
            assert(0 <= mine[last] < rows@.len());
        }
        let row = &rows[places[page[page.len() - 1]]];
        Some(SessionEvidenceCursor { ts_ms: row.ts_ms, id: row.id })
    } else {
        None
    };
    SessionToolCallPage { tool_calls: out, next_cursor }
}

/// The places of the file edits of a session among the first rows.
pub open spec fn edit_places(
    rows: Seq<SessionFileEdit>,
    session: Seq<char>,
    source: Option<Seq<char>>,
    n: int,
) -> Seq<int>
    decreases n,
{
    if n <= 0 {
        Seq::empty()
    } else {
        let before = edit_places(rows, session, source, n - 1);
        if rows[n - 1].session_id@ == session && is_wanted(rows[n - 1].source@, source) {
            before.push(n - 1)
        } else {
            before
        }
    }
}

/// The keys of the file edits at some places.
pub open spec fn edit_keys(rows: Seq<SessionFileEdit>, places: Seq<int>) -> Seq<PageKey> {
    Seq::new(places.len(), |i: int| dated_key(rows[places[i]].ts_ms, rows[places[i]].id))
}

/// Whether a page is that of the file edits of a session behind a cursor.
pub open spec fn is_edit_page(
    page: SessionFileEditPage,
    rows: Seq<SessionFileEdit>,
    session: Seq<char>,
    source: Option<Seq<char>>,
    limit: i64,
    after: Option<SessionEvidenceCursor>,
) -> bool {
    let places = edit_places(rows, session, source, rows.len() as int);
    let (page_places, more) = keyset::the_page(
        edit_keys(rows, places),
        evidence_key(after),
        page_limit(limit) as int,
    );
    &&& page.file_edits@.len() == page_places.len()
    &&& forall|i: int|
        0 <= i < page_places.len() ==> #[trigger] page.file_edits@[i] == rows[places[page_places[i] as int]]
    &&& evidence_key(page.next_cursor) == if more {
        Some(edit_keys(rows, places)[page_places.last() as int])
    } else {
        None
    }
}

proof fn lemma_edit_places(
    rows: Seq<SessionFileEdit>,
    session: Seq<char>,
    source: Option<Seq<char>>,
    n: int,
)
    requires
        0 <= n <= rows.len(),
    ensures
        edit_places(rows, session, source, n).len() <= n,
        forall|i: int|
            0 <= i < edit_places(rows, session, source, n).len() ==> 0 <= (#[trigger] edit_places(
                rows,
                session,
                source,
                n,
            )[i]) < n,
    decreases n,
{
    if n > 0 {
        lemma_edit_places(rows, session, source, n - 1);
        let before = edit_places(rows, session, source, n - 1);
        let all = edit_places(rows, session, source, n);
        assert forall|i: int| 0 <= i < all.len() implies 0 <= (#[trigger] all[i]) < n by {
            if i < before.len() {
                assert(all[i] == before[i]);
            }
        }
    }
}

/// A page of the file edits of a session, oldest first and the undated ones last.
pub fn session_file_edits_page(
    rows: &Vec<SessionFileEdit>,
    source: &str,
    session_id: &str,
    limit: i64,
    after: Option<SessionEvidenceCursor>,
) -> (r: SessionFileEditPage)
    ensures
        is_edit_page(r, rows@, session_id@, Some(source@), limit, after),
{
    let mut places: Vec<usize> = Vec::new();
    let mut keys: Vec<PageKey> = Vec::new();
    let mut i: usize = 0;
    while i < rows.len()
        invariant
            i <= rows.len(),
            ({
                let mine = edit_places(rows@, session_id@, Some(source@), i as int);
                &&& places@.len() == mine.len()
                &&& forall|j: int| 0 <= j < mine.len() ==> #[trigger] places@[j] == mine[j]
                &&& keys@ == edit_keys(rows@, mine)
            }),
        decreases rows.len() - i,
    {
        let row = &rows[i];
        let ghost mine = edit_places(rows@, session_id@, Some(source@), i as int);
        if same_text(row.session_id.as_str(), session_id) && same_text(row.source.as_str(), source) {
            places.push(i);
            keys.push(key_of_row(row.ts_ms, row.id));
            assert(keys@ =~= edit_keys(rows@, mine.push(i as int)));
        }
        i = i + 1;
    }
    let limit: i64 = clamp_limit(limit);
    let cursor = match after {
        Some(cursor) => Some(key_of_row(cursor.ts_ms, cursor.id)),
        None => None,
    };
    let (page, more) = page_of(&keys, cursor, limit as usize);
    let ghost mine = edit_places(rows@, session_id@, Some(source@), rows@.len() as int);
    proof {
        lemma_edit_places(rows@, session_id@, Some(source@), rows@.len() as int);
    }
    let mut out: Vec<SessionFileEdit> = Vec::new();
    let mut i: usize = 0;
    while i < page.len()
        invariant
            i <= page.len(),
            places@.len() == mine.len(),
            keys@.len() == mine.len(),
            forall|j: int| 0 <= j < mine.len() ==> #[trigger] places@[j] == mine[j],
            forall|j: int| 0 <= j < mine.len() ==> 0 <= (#[trigger] mine[j]) < rows@.len(),
            forall|j: int| 0 <= j < page@.len() ==> (#[trigger] page@[j]) < keys@.len(),
            out@.len() == i,
            forall|j: int| 0 <= j < i ==> #[trigger] out@[j] == rows@[mine[page@[j] as int]],
        decreases page.len() - i,
    {
        assert(places@[page@[i as int] as int] == mine[page@[i as int] as int]);
        assert(0 <= mine[page@[i as int] as int] < rows@.len());
        out.push(rows[places[page[i]]].copied());
        i = i + 1;
    }
    let next_cursor = if more {
        proof {
            lemma_full_page(page@, keys@, cursor, limit as int);
            let last = page@[page@.len() - 1] as int;
            assert(places@[last] == mine[last]);
            assert(0 <= mine[last] < rows@.len());
        }
        let row = &rows[places[page[page.len() - 1]]];
        Some(SessionEvidenceCursor { ts_ms: row.ts_ms, id: row.id })
    } else {
        None
    };
    SessionFileEditPage { file_edits: out, next_cursor }
}

/// A value that is bound to a query.
#[derive(Debug)]
pub enum SqlValue {
    Null,
    Integer(i64),
    /// A double, by its IEEE 754 binary64 bits.
    Real(u64),
    Text(String),
}

/// The view of a bound value.
pub enum SqlView {
    Null,
    Integer(i64),
    Real(u64),
    Text(Seq<char>),
}

impl View for SqlValue {
    type V = SqlView;

    open spec fn view(&self) -> SqlView {
        match self {
            SqlValue::Null => SqlView::Null,
            SqlValue::Integer(n) => SqlView::Integer(*n),
            SqlValue::Real(bits) => SqlView::Real(*bits),
            SqlValue::Text(text) => SqlView::Text(text@),
        }
    }
}

/// The views of some bound values.
pub open spec fn sql_views(values: Seq<SqlValue>) -> Seq<SqlView> {
    Seq::new(values.len(), |i: int| values[i]@)
}

/// What a page adds to a query: where it starts and how it is ordered. A dated
/// cursor admits the whole undated tail; an undated one never goes back to the
/// dated rows, and names the indexed expression, so that the tail is not sorted
/// again for each page.
pub open spec fn continuation(after: Option<SessionEvidenceCursor>) -> Seq<char> {
    match after {
        Some(cursor) => match cursor.ts_ms {
            Some(_) => " AND (ts_ms IS NULL OR ts_ms > ? OR (ts_ms = ? AND id > ?))"@
                + queries::undated_last(),
            None => " AND ((ts_ms IS NULL) = 1 AND ts_ms IS NULL AND id > ?) ORDER BY id ASC"@,
        },
        None => queries::undated_last(),
    }
}

/// The values of where a page starts.
pub open spec fn continuation_values(after: Option<SessionEvidenceCursor>) -> Seq<SqlView> {
    match after {
        Some(cursor) => match cursor.ts_ms {
            Some(ts_ms) => seq![
                SqlView::Integer(ts_ms),
                SqlView::Integer(ts_ms),
                SqlView::Integer(cursor.id),
            ],
            None => seq![SqlView::Integer(cursor.id)],
        },
        None => Seq::empty(),
    }
}

/// The query for a page of a table, and the values that are bound to it. It asks
/// for one row more than the page holds, which tells whether there is another.
pub fn evidence_page_query(
    columns: &str,
    table: &str,
    source: &str,
    session_id: &str,
    limit: i64,
    after: Option<SessionEvidenceCursor>,
) -> (r: (String, Vec<SqlValue>))
    requires
        limit < i64::MAX,
    ensures
        r.0@ == "SELECT "@ + columns@ + " FROM "@ + table@
            + " WHERE source = ? AND session_id = ?"@ + continuation(after) + " LIMIT ?"@,
        sql_views(r.1@) == seq![SqlView::Text(source@), SqlView::Text(session_id@)]
            + continuation_values(after) + seq![SqlView::Integer((limit + 1) as i64)],
{
    let head = concat3("SELECT ", columns, " FROM ");
    let mut sql = concat3(head.as_str(), table, " WHERE source = ? AND session_id = ?");
    let ghost start = sql@;
    let mut params: Vec<SqlValue> = Vec::new();
    params.push(SqlValue::Text(source.to_owned()));
    params.push(SqlValue::Text(session_id.to_owned()));
    match after {
        Some(cursor) => match cursor.ts_ms {
            Some(ts_ms) => {
                sql.append(" AND (ts_ms IS NULL OR ts_ms > ? OR (ts_ms = ? AND id > ?))");
                sql.append(" ORDER BY ts_ms IS NULL, ts_ms ASC, id ASC");
                params.push(SqlValue::Integer(ts_ms));
                params.push(SqlValue::Integer(ts_ms));
                params.push(SqlValue::Integer(cursor.id));
            },
            None => {
                sql.append(
                    " AND ((ts_ms IS NULL) = 1 AND ts_ms IS NULL AND id > ?) ORDER BY id ASC",
                );
                params.push(SqlValue::Integer(cursor.id));
            },
        },
        None => {
            sql.append(" ORDER BY ts_ms IS NULL, ts_ms ASC, id ASC");
        },
    }
    assert(sql@ =~= start + continuation(after));
    sql.append(" LIMIT ?");
    params.push(SqlValue::Integer(limit + 1));
    assert(sql_views(params@) =~= seq![SqlView::Text(source@), SqlView::Text(session_id@)]
        + continuation_values(after) + seq![SqlView::Integer((limit + 1) as i64)]);
    (sql, params)
}

/// What a page of events adds to a query.
pub open spec fn event_continuation(after: Option<SessionEventCursor>) -> Seq<char> {
    queries::clause(after is Some, " AND (ts_ms > ? OR (ts_ms = ? AND id > ?))"@)
}

/// The query for a page of events, and the values that are bound to it. It asks for
/// one row more than the page holds.
pub fn events_page_query(
    session_id: &str,
    source: Option<&str>,
    limit: i64,
    after: Option<SessionEventCursor>,
) -> (r: queries::TextQuery)
    ensures
        r.sql@ == "SELECT "@ + queries::EVENT_COLUMNS@ + " FROM session_events WHERE session_id = ?"@
            + queries::clause(source is Some, " AND source = ?"@) + event_continuation(after)
            + " ORDER BY ts_ms ASC, id ASC LIMIT ?"@,
        text::views(r.params@) == seq![session_id@] + queries::value_when(source_view(source)) + (
        match after {
            Some(cursor) => seq![
                text::decimal(cursor.ts_ms as int),
                text::decimal(cursor.ts_ms as int),
                text::decimal(cursor.id as int),
            ],
            None => Seq::empty(),
        }) + seq![text::decimal(page_limit(limit) + 1)],
{
    let limit: i64 = clamp_limit(limit);
    let mut sql = concat3(
        "SELECT ",
        queries::EVENT_COLUMNS,
        " FROM session_events WHERE session_id = ?",
    );
    let ghost start = sql@;
    let mut params: Vec<String> = Vec::new();
    params.push(session_id.to_owned());
    if let Some(source) = source {
        sql.append(" AND source = ?");
        params.push(source.to_owned());
    }
    assert(sql@ =~= start + queries::clause(source is Some, " AND source = ?"@));
    let ghost next = sql@;
    if let Some(cursor) = after {
        sql.append(" AND (ts_ms > ? OR (ts_ms = ? AND id > ?))");
        params.push(text::decimal_i64(cursor.ts_ms));
        params.push(text::decimal_i64(cursor.ts_ms));
        params.push(text::decimal_i64(cursor.id));
    }
    assert(sql@ =~= next + event_continuation(after));
    sql.append(" ORDER BY ts_ms ASC, id ASC LIMIT ?");
    params.push(text::decimal_i64(limit + 1));
    assert(text::views(params@) =~= seq![session_id@] + queries::value_when(source_view(source)) + (
    match after {
        Some(cursor) => seq![
            text::decimal(cursor.ts_ms as int),
            text::decimal(cursor.ts_ms as int),
            text::decimal(cursor.id as int),
        ],
        None => Seq::empty(),
    }) + seq![text::decimal(limit + 1)]);
    queries::TextQuery { sql, params }
}

/// Walking the pages of a session's events meets every one of them once, where no
/// two rows share an id: one behind a cursor is on its page or behind the cursor
/// that the page hands out, and never both; where the page hands out none, it is
/// on the page.
pub proof fn law_event_pages_walk_every_row_once(
    page: SessionEventPage,
    rows: Seq<SessionEvent>,
    session: Seq<char>,
    source: Option<Seq<char>>,
    limit: i64,
    after: Option<SessionEventCursor>,
    q: int,
)
    requires
        rows.len() <= usize::MAX,
        forall|i: int, j: int|
            0 <= i < j < rows.len() ==> (#[trigger] rows[i]).id != (#[trigger] rows[j]).id,
        is_event_page(page, rows, session, source, limit, after),
        0 <= q < event_places(rows, session, source, rows.len() as int).len(),
        keyset::beyond(
            event_keys(rows, event_places(rows, session, source, rows.len() as int))[q],
            event_key(after),
        ),
    ensures
        ({
            let keys = event_keys(rows, event_places(rows, session, source, rows.len() as int));
            let places = keyset::the_page(keys, event_key(after), page_limit(limit) as int).0;
            match page.next_cursor {
                Some(next) => keyset::on_page(places, q) != keyset::beyond(keys[q], event_key(Some(next))),
                None => keyset::on_page(places, q),
            }
        }),
{
    let n = rows.len() as int;
    let places = event_places(rows, session, source, n);
    let keys = event_keys(rows, places);
    lemma_event_places(rows, session, source, n);
    assert forall|a: int, b: int| 0 <= a < b < keys.len() implies #[trigger] keys[a]
        != #[trigger] keys[b] by {
        lemma_event_places_increase(rows, session, source, n);
        assert(places[a] < places[b]);
        assert(rows[places[a]].id != rows[places[b]].id);
    }
    keyset::law_walk_meets_every_row_once(keys, event_key(after), page_limit(limit) as int, q);
}

proof fn lemma_event_places_increase(
    rows: Seq<SessionEvent>,
    session: Seq<char>,
    source: Option<Seq<char>>,
    n: int,
)
    requires
        0 <= n <= rows.len(),
    ensures
        ({
            let places = event_places(rows, session, source, n);
            forall|a: int, b: int|
                0 <= a < b < places.len() ==> #[trigger] places[a] < #[trigger] places[b]
        }),
    decreases n,
{
    if n > 0 {
        lemma_event_places_increase(rows, session, source, n - 1);
        lemma_event_places(rows, session, source, n - 1);
        let before = event_places(rows, session, source, n - 1);
        let all = event_places(rows, session, source, n);
        assert forall|a: int, b: int| 0 <= a < b < all.len() implies #[trigger] all[a]
            < #[trigger] all[b] by {
            assert(all[a] == before[a]);
            if b < before.len() {
                assert(all[b] == before[b]);
            }
        }
    }
}

/// Walking the pages of a session's tool calls meets every one of them once, where no
/// two rows share an id: one behind a cursor is on its page or behind the cursor
/// that the page hands out, and never both; where the page hands out none, it is
/// on the page.
pub proof fn law_call_pages_walk_every_row_once(
    page: SessionToolCallPage,
    rows: Seq<SessionToolCall>,
    session: Seq<char>,
    source: Option<Seq<char>>,
    limit: i64,
    after: Option<SessionEvidenceCursor>,
    q: int,
)
    requires
        rows.len() <= usize::MAX,
        forall|i: int, j: int|
            0 <= i < j < rows.len() ==> (#[trigger] rows[i]).id != (#[trigger] rows[j]).id,
        is_call_page(page, rows, session, source, limit, after),
        0 <= q < call_places(rows, session, source, rows.len() as int).len(),
        keyset::beyond(
            call_keys(rows, call_places(rows, session, source, rows.len() as int))[q],
            evidence_key(after),
        ),
    ensures
        ({
            let keys = call_keys(rows, call_places(rows, session, source, rows.len() as int));
            let places = keyset::the_page(keys, evidence_key(after), page_limit(limit) as int).0;
            match page.next_cursor {
                Some(next) => keyset::on_page(places, q) != keyset::beyond(keys[q], evidence_key(Some(next))),
                None => keyset::on_page(places, q),
            }
        }),
{
    let n = rows.len() as int;
    let places = call_places(rows, session, source, n);
    let keys = call_keys(rows, places);
    lemma_call_places(rows, session, source, n);
    assert forall|a: int, b: int| 0 <= a < b < keys.len() implies #[trigger] keys[a]
        != #[trigger] keys[b] by {
        lemma_call_places_increase(rows, session, source, n);
        assert(places[a] < places[b]);
        assert(rows[places[a]].id != rows[places[b]].id);
    }
    keyset::law_walk_meets_every_row_once(keys, evidence_key(after), page_limit(limit) as int, q);
}

proof fn lemma_call_places_increase(
    rows: Seq<SessionToolCall>,
    session: Seq<char>,
    source: Option<Seq<char>>,
    n: int,
)
    requires
        0 <= n <= rows.len(),
    ensures
        ({
            let places = call_places(rows, session, source, n);
            forall|a: int, b: int|
                0 <= a < b < places.len() ==> #[trigger] places[a] < #[trigger] places[b]
        }),
    decreases n,
{
    if n > 0 {
        lemma_call_places_increase(rows, session, source, n - 1);
        lemma_call_places(rows, session, source, n - 1);
        let before = call_places(rows, session, source, n - 1);
        let all = call_places(rows, session, source, n);
        assert forall|a: int, b: int| 0 <= a < b < all.len() implies #[trigger] all[a]
            < #[trigger] all[b] by {
            assert(all[a] == before[a]);
            if b < before.len() {
                assert(all[b] == before[b]);
            }
        }
    }
}

/// Walking the pages of a session's file edits meets every one of them once, where no
/// two rows share an id: one behind a cursor is on its page or behind the cursor
/// that the page hands out, and never both; where the page hands out none, it is
/// on the page.
pub proof fn law_edit_pages_walk_every_row_once(
    page: SessionFileEditPage,
    rows: Seq<SessionFileEdit>,
    session: Seq<char>,
    source: Option<Seq<char>>,
    limit: i64,
    after: Option<SessionEvidenceCursor>,
    q: int,
)
    requires
        rows.len() <= usize::MAX,
        forall|i: int, j: int|
            0 <= i < j < rows.len() ==> (#[trigger] rows[i]).id != (#[trigger] rows[j]).id,
        is_edit_page(page, rows, session, source, limit, after),
        0 <= q < edit_places(rows, session, source, rows.len() as int).len(),
        keyset::beyond(
            edit_keys(rows, edit_places(rows, session, source, rows.len() as int))[q],
            evidence_key(after),
        ),
    ensures
        ({
            let keys = edit_keys(rows, edit_places(rows, session, source, rows.len() as int));
            let places = keyset::the_page(keys, evidence_key(after), page_limit(limit) as int).0;
            match page.next_cursor {
                Some(next) => keyset::on_page(places, q) != keyset::beyond(keys[q], evidence_key(Some(next))),
                None => keyset::on_page(places, q),
            }
        }),
{
    let n = rows.len() as int;
    let places = edit_places(rows, session, source, n);
    let keys = edit_keys(rows, places);
    lemma_edit_places(rows, session, source, n);
    assert forall|a: int, b: int| 0 <= a < b < keys.len() implies #[trigger] keys[a]
        != #[trigger] keys[b] by {
        lemma_edit_places_increase(rows, session, source, n);
        assert(places[a] < places[b]);
        assert(rows[places[a]].id != rows[places[b]].id);
    }
    keyset::law_walk_meets_every_row_once(keys, evidence_key(after), page_limit(limit) as int, q);
}

proof fn lemma_edit_places_increase(
    rows: Seq<SessionFileEdit>,
    session: Seq<char>,
    source: Option<Seq<char>>,
    n: int,
)
    requires
        0 <= n <= rows.len(),
    ensures
        ({
            let places = edit_places(rows, session, source, n);
            forall|a: int, b: int|
                0 <= a < b < places.len() ==> #[trigger] places[a] < #[trigger] places[b]
        }),
    decreases n,
{
    if n > 0 {
        lemma_edit_places_increase(rows, session, source, n - 1);
        lemma_edit_places(rows, session, source, n - 1);
        let before = edit_places(rows, session, source, n - 1);
        let all = edit_places(rows, session, source, n);
        assert forall|a: int, b: int| 0 <= a < b < all.len() implies #[trigger] all[a]
            < #[trigger] all[b] by {
            assert(all[a] == before[a]);
            if b < before.len() {
                assert(all[b] == before[b]);
            }
        }
    }
}

} // verus!
