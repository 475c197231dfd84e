//! Bounded scans of the history for integrations.
//!
//! A scan continues behind the last id it has seen. Each has a query, which has the
//! database narrow what is read, and a rule for which of the rows come next.
use crate::evidence_sql::Statement;
use crate::keyset;
use crate::keyset::{page_of, PageKey};
use crate::pages;
use crate::pages::SqlValue;
use crate::store::HistoryEntry;
use crate::text;
use crate::text::same_text;
use vstd::prelude::*;
use vstd::string::*;

verus! {

/// How many rows one scan returns at most.
pub const MAX_SCAN_LIMIT: usize = 10_000;

/// A limit within its bounds.
pub open spec fn bounded_limit(limit: usize) -> int {
    if limit < 1 {
        1
    } else if limit > MAX_SCAN_LIMIT {
        MAX_SCAN_LIMIT as int
    } else {
        limit as int
    }
}

/// A limit within its bounds.
pub fn bounded(limit: usize) -> (r: usize)
    ensures
        r == bounded_limit(limit),
{
    if limit < 1 {
        1
    } else if limit > MAX_SCAN_LIMIT {
        MAX_SCAN_LIMIT
    } else {
        limit
    }
}

/// A session whose files changed.
#[derive(Debug)]
pub struct ChangedSession {
    pub source: String,
    pub session_id: String,
    /// The last edit of the session.
    pub max_id: i64,
}

/// Where a session ran.
#[derive(Debug)]
pub struct SessionMetadata {
    pub cwd: Option<String>,
    pub git_branch: Option<String>,
}

/// A trajectory as it is stored.
#[derive(Debug)]
pub struct StoredTrajectory {
    pub rowid: i64,
    pub id: String,
    pub persona_id: Option<String>,
    pub project_id: Option<String>,
    pub task_title: Option<String>,
    pub task_description: Option<String>,
    pub status: Option<String>,
    pub decisions_json: String,
    pub retrospective_json: String,
    pub timestamp_ms: i64,
    pub updated_ms: i64,
    pub path: Option<String>,
}

/// A link from a session to a commit as it is stored. The confidence is the bits of
/// a double.
#[derive(Debug)]
pub struct StoredCommitLink {
    pub id: i64,
    pub source: String,
    pub session_id: String,
    pub repo: Option<String>,
    pub branch: Option<String>,
    pub commit_sha: String,
    pub match_method: String,
    pub confidence: u64,
    pub files_json: Option<String>,
    pub numstat_json: Option<String>,
    pub evidence_json: Option<String>,
    pub created_at_ms: i64,
}

/// The next history rows behind an id.
pub const HISTORY_SCAN: &'static str = "SELECT id, source, session_id, project, prompt, prompt_hash, timestamp_ms FROM history WHERE id > ?1 ORDER BY id ASC LIMIT ?2";

/// The next trajectories behind a change.
pub const TRAJECTORY_SCAN: &'static str = "SELECT rowid, id, persona_id, project_id, task_title, task_description, status, decisions_json, retrospective_json, timestamp_ms, updated_ms, path FROM trajectories WHERE updated_ms > ?1 OR (updated_ms = ?1 AND rowid > ?2) ORDER BY updated_ms ASC, rowid ASC LIMIT ?3";

/// The next commit links behind an id.
pub const COMMIT_LINK_SCAN: &'static str = "SELECT id, source, session_id, repo, branch, commit_sha, match_method, confidence, files_json, numstat_json, evidence_json, created_at_ms FROM session_commit_links WHERE id > ?1 ORDER BY id ASC LIMIT ?2";

/// The next sessions whose files changed, each with its last edit.
pub const CHANGED_FILE_SCAN: &'static str = "SELECT source, session_id, MAX(id) AS max_id FROM file_edits WHERE id > ?1 GROUP BY source, session_id ORDER BY max_id ASC LIMIT ?2";

/// The next sessions with new events, each with the first of them.
pub const PENDING_EVENT_SCAN: &'static str = "SELECT session_id, source, MIN(id) AS first_new_id FROM session_events WHERE id > ?1 GROUP BY session_id, source ORDER BY first_new_id ASC LIMIT ?2";

/// Where a session ran.
pub const SESSION_METADATA: &'static str = "SELECT cwd, git_branch FROM sessions WHERE source=?1 AND session_id=?2";

/// The history rows of a session that may name its project.
pub const SESSION_PROJECT: &'static str = "SELECT id, source, session_id, project, prompt, prompt_hash, timestamp_ms FROM history WHERE source = ?1 AND session_id = ?2 AND project IS NOT NULL AND trim(project) != '' LIMIT 1";

/// The last history row of a session.
pub const LATEST_HISTORY: &'static str = "SELECT id, source, session_id, project, prompt, prompt_hash, timestamp_ms FROM history WHERE source = ?1 AND session_id = ?2 ORDER BY id DESC LIMIT 1";

/// Whether a statement is a scan behind an id, within the bounds of a limit.
pub open spec fn is_scan_behind(statement: Statement, sql: Seq<char>, after: i64, limit: usize) -> bool {
    &&& statement.sql@ == sql
    &&& pages::sql_views(statement.params@) == seq![
        pages::SqlView::Integer(after),
        pages::SqlView::Integer(bounded_limit(limit) as i64),
    ]
}

fn scan_behind(sql: &str, after: i64, limit: usize) -> (r: Statement)
    ensures
        is_scan_behind(r, sql@, after, limit),
{
    let mut params: Vec<SqlValue> = Vec::new();
    params.push(SqlValue::Integer(after));
    params.push(SqlValue::Integer(bounded(limit) as i64));
    assert(pages::sql_views(params@) =~= seq![
        pages::SqlView::Integer(after),
        pages::SqlView::Integer(bounded_limit(limit) as i64),
    ]);
    Statement { sql: sql.to_owned(), params }
}

/// Whether a statement asks for one session.
pub open spec fn is_of_one_session(
    statement: Statement,
    sql: Seq<char>,
    source: Seq<char>,
    session: Seq<char>,
) -> bool {
    &&& statement.sql@ == sql
    &&& pages::sql_views(statement.params@) == seq![
        pages::SqlView::Text(source),
        pages::SqlView::Text(session),
    ]
}

fn of_one_session(sql: &str, source: &str, session_id: &str) -> (r: Statement)
    ensures
        is_of_one_session(r, sql@, source@, session_id@),
{
    let mut params: Vec<SqlValue> = Vec::new();
    params.push(SqlValue::Text(source.to_owned()));
    params.push(SqlValue::Text(session_id.to_owned()));
    assert(pages::sql_views(params@) =~= seq![
        pages::SqlView::Text(source@),
        pages::SqlView::Text(session_id@),
    ]);
    Statement { sql: sql.to_owned(), params }
}

/// The query for the next history rows behind an id.
pub fn history_after_query(after: i64, limit: usize) -> (r: Statement)
    ensures
        is_scan_behind(r, HISTORY_SCAN@, after, limit),
{
    scan_behind(HISTORY_SCAN, after, limit)
}

/// The query for the next commit links behind an id.
pub fn commit_links_after_query(after: i64, limit: usize) -> (r: Statement)
    ensures
        is_scan_behind(r, COMMIT_LINK_SCAN@, after, limit),
{
    scan_behind(COMMIT_LINK_SCAN, after, limit)
}

/// The query for the next sessions whose files changed.
pub fn changed_file_sessions_query(after: i64, limit: usize) -> (r: Statement)
    ensures
        is_scan_behind(r, CHANGED_FILE_SCAN@, after, limit),
{
    scan_behind(CHANGED_FILE_SCAN, after, limit)
}

/// The query for the next sessions with new events.
pub fn pending_event_sessions_query(after: i64, limit: usize) -> (r: Statement)
    ensures
        is_scan_behind(r, PENDING_EVENT_SCAN@, after, limit),
{
    scan_behind(PENDING_EVENT_SCAN, after, limit)
}

/// The query for the next trajectories behind a change.
pub fn trajectories_after_query(updated_ms: i64, rowid: i64, limit: usize) -> (r: Statement)
    ensures
        r.sql@ == TRAJECTORY_SCAN@,
        pages::sql_views(r.params@) == seq![
            pages::SqlView::Integer(updated_ms),
            pages::SqlView::Integer(rowid),
            pages::SqlView::Integer(bounded_limit(limit) as i64),
        ],
{
    let mut params: Vec<SqlValue> = Vec::new();
    params.push(SqlValue::Integer(updated_ms));
    params.push(SqlValue::Integer(rowid));
    params.push(SqlValue::Integer(bounded(limit) as i64));
    assert(pages::sql_views(params@) =~= seq![
        pages::SqlView::Integer(updated_ms),
        pages::SqlView::Integer(rowid),
        pages::SqlView::Integer(bounded_limit(limit) as i64),
    ]);
    Statement { sql: TRAJECTORY_SCAN.to_owned(), params }
}

/// The query for where a session ran.
pub fn session_metadata_query(source: &str, session_id: &str) -> (r: Statement)
    ensures
        is_of_one_session(r, SESSION_METADATA@, source@, session_id@),
{
    of_one_session(SESSION_METADATA, source, session_id)
}

/// The query for the row that names the project of a session.
pub fn session_project_query(source: &str, session_id: &str) -> (r: Statement)
    ensures
        is_of_one_session(r, SESSION_PROJECT@, source@, session_id@),
{
    of_one_session(SESSION_PROJECT, source, session_id)
}

/// The query for the last history row of a session.
pub fn latest_history_query(source: &str, session_id: &str) -> (r: Statement)
    ensures
        is_of_one_session(r, LATEST_HISTORY@, source@, session_id@),
{
    of_one_session(LATEST_HISTORY, source, session_id)
}

/// The key of a row that is ordered by its id alone.
pub open spec fn id_key(id: i64) -> PageKey {
    PageKey { tail: false, ts_ms: 0, id }
}

/// The keys of some history rows.
pub open spec fn history_keys(rows: Seq<HistoryEntry>) -> Seq<PageKey> {
    Seq::new(rows.len(), |i: int| id_key(rows[i].id))
}

/// The keys of some links.
pub open spec fn link_keys(rows: Seq<StoredCommitLink>) -> Seq<PageKey> {
    Seq::new(rows.len(), |i: int| id_key(rows[i].id))
}

/// The keys of some trajectories: by the time of their last change.
pub open spec fn trajectory_keys(rows: Seq<StoredTrajectory>) -> Seq<PageKey> {
    Seq::new(
        rows.len(),
        |i: int| PageKey { tail: false, ts_ms: rows[i].updated_ms, id: rows[i].rowid },
    )
}

/// The places of the next history rows behind an id, by id.
pub fn history_after(rows: &Vec<HistoryEntry>, after: i64, limit: usize) -> (r: Vec<usize>)
    ensures
        r@ == keyset::the_page(history_keys(rows@), Some(id_key(after)), bounded_limit(limit)).0,
{
    let mut keys: Vec<PageKey> = Vec::new();
    let mut i: usize = 0;
    while i < rows.len()
        invariant
            i <= rows.len(),
            keys@.len() == i,
            forall|j: int| 0 <= j < i ==> #[trigger] keys@[j] == id_key(rows@[j].id),
        decreases rows.len() - i,
    {
        keys.push(PageKey { tail: false, ts_ms: 0, id: rows[i].id });
        i = i + 1;
    }
    assert(keys@ =~= history_keys(rows@));
    page_of(&keys, Some(PageKey { tail: false, ts_ms: 0, id: after }), bounded(limit)).0
}

/// The places of the next trajectories behind a change, by the time of the change.
pub fn trajectories_after(
    rows: &Vec<StoredTrajectory>,
    updated_ms: i64,
    rowid: i64,
    limit: usize,
) -> (r: Vec<usize>)
    ensures
        r@ == keyset::the_page(
            trajectory_keys(rows@),
            Some(PageKey { tail: false, ts_ms: updated_ms, id: rowid }),
            bounded_limit(limit),
        ).0,
{
    let mut keys: Vec<PageKey> = Vec::new();
    let mut i: usize = 0;
    while i < rows.len()
        invariant
            i <= rows.len(),
            keys@.len() == i,
            forall|j: int|
                0 <= j < i ==> #[trigger] keys@[j] == (PageKey {
                    tail: false,
                    ts_ms: rows@[j].updated_ms,
                    id: rows@[j].rowid,
                }),
        decreases rows.len() - i,
    {
        keys.push(PageKey { tail: false, ts_ms: rows[i].updated_ms, id: rows[i].rowid });
        i = i + 1;
    }
    assert(keys@ =~= trajectory_keys(rows@));
    page_of(&keys, Some(PageKey { tail: false, ts_ms: updated_ms, id: rowid }), bounded(limit)).0
}

/// The places of the next links behind an id, by id.
pub fn commit_links_after(rows: &Vec<StoredCommitLink>, after: i64, limit: usize) -> (r: Vec<usize>)
    ensures
        r@ == keyset::the_page(link_keys(rows@), Some(id_key(after)), bounded_limit(limit)).0,
{
    let mut keys: Vec<PageKey> = Vec::new();
    let mut i: usize = 0;
    while i < rows.len()
        invariant
            i <= rows.len(),
            keys@.len() == i,
            forall|j: int| 0 <= j < i ==> #[trigger] keys@[j] == id_key(rows@[j].id),
        decreases rows.len() - i,
    {
        keys.push(PageKey { tail: false, ts_ms: 0, id: rows[i].id });
        i = i + 1;
    }
    assert(keys@ =~= link_keys(rows@));
    page_of(&keys, Some(PageKey { tail: false, ts_ms: 0, id: after }), bounded(limit)).0
}

/// A row of a session, by its id: an edit of a file, or an event.
#[derive(Debug)]
pub struct SessionRow {
    pub source: String,
    pub session_id: String,
    pub id: i64,
}

/// Whether a row is new, and of a session.
pub open spec fn is_new(row: SessionRow, source: Seq<char>, session: Seq<char>, after: i64) -> bool {
    row.source@ == source && row.session_id@ == session && row.id > after
}

/// Whether a row is the first of its session among the new ones of a list.
pub open spec fn opens_session(rows: Seq<SessionRow>, i: int, after: i64) -> bool {
    &&& rows[i].id > after
    &&& forall|j: int|
        0 <= j < i ==> !is_new(#[trigger] rows[j], rows[i].source@, rows[i].session_id@, after)
}

/// The places of the rows that open a session, among the first.
pub open spec fn session_places(rows: Seq<SessionRow>, after: i64, n: int) -> Seq<int>
    decreases n,
{
    if n <= 0 {
        Seq::empty()
    } else if opens_session(rows, n - 1, after) {
        session_places(rows, after, n - 1).push(n - 1)
    } else {
        session_places(rows, after, n - 1)
    }
}

/// Whether an id is the last of a session's new rows.
pub open spec fn is_last_id(
    rows: Seq<SessionRow>,
    source: Seq<char>,
    session: Seq<char>,
    after: i64,
    id: i64,
) -> bool {
    &&& exists|i: int|
        0 <= i < rows.len() && is_new(#[trigger] rows[i], source, session, after) && rows[i].id == id
    &&& forall|i: int|
        0 <= i < rows.len() && is_new(#[trigger] rows[i], source, session, after) ==> rows[i].id
            <= id
}

/// Whether an id is the first of a session's new rows.
pub open spec fn is_first_id(
    rows: Seq<SessionRow>,
    source: Seq<char>,
    session: Seq<char>,
    after: i64,
    id: i64,
) -> bool {
    &&& exists|i: int|
        0 <= i < rows.len() && is_new(#[trigger] rows[i], source, session, after) && rows[i].id == id
    &&& forall|i: int|
        0 <= i < rows.len() && is_new(#[trigger] rows[i], source, session, after) ==> rows[i].id
            >= id
}

fn is_new_row(row: &SessionRow, source: &str, session: &str, after: i64) -> (r: bool)
    ensures
        r == is_new(*row, source@, session@, after),
{
    row.id > after && same_text(row.source.as_str(), source) && same_text(
        row.session_id.as_str(),
        session,
    )
}

fn first_rows(rows: &Vec<SessionRow>, after: i64) -> (r: Vec<usize>)
    ensures
        r@.len() == session_places(rows@, after, rows@.len() as int).len(),
        forall|k: int|
            0 <= k < r@.len() ==> #[trigger] r@[k] == session_places(
                rows@,
                after,
                rows@.len() as int,
            )[k],
        forall|k: int| 0 <= k < r@.len() ==> (#[trigger] r@[k]) < rows@.len() && rows@[r@[k] as int].id
            > after,
{
    let mut out: Vec<usize> = Vec::new();
    let mut i: usize = 0;
    while i < rows.len()
        invariant
            i <= rows.len(),
            out@.len() == session_places(rows@, after, i as int).len(),
            forall|k: int|
                0 <= k < out@.len() ==> #[trigger] out@[k] == session_places(rows@, after, i as int)[k],
            forall|k: int|
                0 <= k < out@.len() ==> (#[trigger] out@[k]) < i && rows@[out@[k] as int].id > after,
        decreases rows.len() - i,
    {
        let row = &rows[i];
        let mut first = row.id > after;
        let mut j: usize = 0;
        while j < i && first
            invariant
                j <= i < rows.len(),
                *row == rows@[i as int],
                first ==> row.id > after && forall|k: int|
                    0 <= k < j ==> !is_new(
                        #[trigger] rows@[k],
                        row.source@,
                        row.session_id@,
                        after,
                    ),
                !first ==> !opens_session(rows@, i as int, after),
            decreases i - j,
        {
            if is_new_row(&rows[j], row.source.as_str(), row.session_id.as_str(), after) {
                assert(is_new(rows@[j as int], row.source@, row.session_id@, after));
                first = false;
            }
            j = j + 1;
        }
        if first {
            assert(opens_session(rows@, i as int, after));
            out.push(i);
        }
        i = i + 1;
    }
    out
}

fn bound_id(rows: &Vec<SessionRow>, at: usize, after: i64, last: bool) -> (r: i64)
    requires
        at < rows@.len(),
        rows@[at as int].id > after,
    ensures
        last ==> is_last_id(
            rows@,
            rows@[at as int].source@,
            rows@[at as int].session_id@,
            after,
            r,
        ),
        !last ==> is_first_id(
            rows@,
            rows@[at as int].source@,
            rows@[at as int].session_id@,
            after,
            r,
        ),
{
    let source = rows[at].source.as_str();
    let session = rows[at].session_id.as_str();
    let mut best: i64 = rows[at].id;
    let ghost mut held = at as int;
    let mut i: usize = 0;
    assert(is_new(rows@[at as int], source@, session@, after));
    while i < rows.len()
        invariant
            i <= rows.len(),
            0 <= held < rows@.len(),
            is_new(rows@[held], source@, session@, after),
            rows@[held].id == best,
            last ==> forall|j: int|
                0 <= j < i && is_new(#[trigger] rows@[j], source@, session@, after) ==> rows@[j].id
                    <= best,
            !last ==> forall|j: int|
                0 <= j < i && is_new(#[trigger] rows@[j], source@, session@, after) ==> rows@[j].id
                    >= best,
        decreases rows.len() - i,
    {
        if is_new_row(&rows[i], source, session, after) {
            if (last && rows[i].id > best) || (!last && rows[i].id < best) {
                best = rows[i].id;
                proof {
                    held = i as int;
                }
            }
        }
        i = i + 1;
    }
    best
}

/// Whether some ids are those of the sessions that some rows open: the last of each
/// session's new rows, or the first.
pub open spec fn are_bounds(
    ids: Seq<i64>,
    rows: Seq<SessionRow>,
    after: i64,
    last: bool,
) -> bool {
    let places = session_places(rows, after, rows.len() as int);
    &&& ids.len() == places.len()
    &&& forall|k: int|
        0 <= k < places.len() ==> if last {
            is_last_id(
                rows,
                rows[places[k]].source@,
                rows[places[k]].session_id@,
                after,
                #[trigger] ids[k],
            )
        } else {
            is_first_id(
                rows,
                rows[places[k]].source@,
                rows[places[k]].session_id@,
                after,
                ids[k],
            )
        }
}

/// The keys of some ids.
pub open spec fn keys_of_ids(ids: Seq<i64>) -> Seq<PageKey> {
    Seq::new(ids.len(), |k: int| id_key(ids[k]))
}

fn bounds_of(rows: &Vec<SessionRow>, firsts: &Vec<usize>, after: i64, last: bool) -> (r: (
    Vec<i64>,
    Vec<PageKey>,
))
    requires
        firsts@.len() == session_places(rows@, after, rows@.len() as int).len(),
        forall|k: int|
            0 <= k < firsts@.len() ==> #[trigger] firsts@[k] == session_places(
                rows@,
                after,
                rows@.len() as int,
            )[k],
        forall|k: int|
            0 <= k < firsts@.len() ==> (#[trigger] firsts@[k]) < rows@.len()
                && rows@[firsts@[k] as int].id > after,
    ensures
        are_bounds(r.0@, rows@, after, last),
        r.1@ == keys_of_ids(r.0@),
{
    let mut ids: Vec<i64> = Vec::new();
    let mut keys: Vec<PageKey> = Vec::new();
    let ghost places = session_places(rows@, after, rows@.len() as int);
    let mut k: usize = 0;
    while k < firsts.len()
        invariant
            k <= firsts.len(),
            places == session_places(rows@, after, rows@.len() as int),
            firsts@.len() == places.len(),
            forall|j: int| 0 <= j < firsts@.len() ==> #[trigger] firsts@[j] == places[j],
            forall|j: int|
                0 <= j < firsts@.len() ==> (#[trigger] firsts@[j]) < rows@.len()
                    && rows@[firsts@[j] as int].id > after,
            ids@.len() == k,
            keys@.len() == k,
            forall|j: int| 0 <= j < k ==> #[trigger] keys@[j] == id_key(ids@[j]),
            forall|j: int|
                0 <= j < k ==> if last {
                    is_last_id(
                        rows@,
                        rows@[places[j]].source@,
                        rows@[places[j]].session_id@,
                        after,
                        #[trigger] ids@[j],
                    )
                } else {
                    is_first_id(
                        rows@,
                        rows@[places[j]].source@,
                        rows@[places[j]].session_id@,
                        after,
                        ids@[j],
                    )
                },
        decreases firsts.len() - k,
    {
        let id: i64 = bound_id(rows, firsts[k], after, last);
        assert(firsts@[k as int] == places[k as int]);
        ids.push(id);
        keys.push(PageKey { tail: false, ts_ms: 0, id });
        k = k + 1;
    }
    assert(keys@ =~= keys_of_ids(ids@));
    (ids, keys)
}

/// Whether some sessions are the next ones that changed: the sessions of the new
/// rows, by the last of their ids.
pub open spec fn are_changed(
    sessions: Seq<ChangedSession>,
    rows: Seq<SessionRow>,
    ids: Seq<i64>,
    after: i64,
    limit: usize,
) -> bool {
    let places = session_places(rows, after, rows.len() as int);
    let page = keyset::the_page(keys_of_ids(ids), None, bounded_limit(limit)).0;
    &&& sessions.len() == page.len()
    &&& forall|i: int|
        0 <= i < page.len() ==> {
            &&& (#[trigger] sessions[i]).source@ == rows[places[page[i] as int]].source@
            &&& sessions[i].session_id@ == rows[places[page[i] as int]].session_id@
            &&& sessions[i].max_id == ids[page[i] as int]
        }
}

/// The next sessions with a file edit behind an id, by the last edit of each.
pub fn changed_file_sessions_after(rows: &Vec<SessionRow>, after: i64, limit: usize) -> (r: Vec<
    ChangedSession,
>)
    ensures
        exists|ids: Seq<i64>| #[trigger]
            are_bounds(ids, rows@, after, true) && are_changed(r@, rows@, ids, after, limit),
{
    let firsts = first_rows(rows, after);
    let (ids, keys) = bounds_of(rows, &firsts, after, true);
    let page = page_of(&keys, None, bounded(limit)).0;
    let ghost places = session_places(rows@, after, rows@.len() as int);
    let mut out: Vec<ChangedSession> = Vec::new();
    let mut i: usize = 0;
    while i < page.len()
        invariant
            i <= page.len(),
            firsts@.len() == places.len(),
            ids@.len() == places.len(),
            keys@.len() == places.len(),
            forall|j: int| 0 <= j < firsts@.len() ==> #[trigger] firsts@[j] == places[j],
            forall|j: int| 0 <= j < firsts@.len() ==> (#[trigger] firsts@[j]) < rows@.len(),
            forall|j: int| 0 <= j < page@.len() ==> (#[trigger] page@[j]) < keys@.len(),
            out@.len() == i,
            forall|j: int|
                0 <= j < i ==> {
                    &&& (#[trigger] out@[j]).source@ == rows@[places[page@[j] as int]].source@
                    &&& out@[j].session_id@ == rows@[places[page@[j] as int]].session_id@
                    &&& out@[j].max_id == ids@[page@[j] as int]
                },
        decreases page.len() - i,
    {
        let row = &rows[firsts[page[i]]];
        out.push(
            ChangedSession {
                source: row.source.clone(),
                session_id: row.session_id.clone(),
                max_id: ids[page[i]],
            },
        );
        i = i + 1;
    }
    assert(are_bounds(ids@, rows@, after, true));
    out
}

/// Whether some sessions are the next ones with pending events: the sessions of the
/// new rows, by the first of their ids.
pub open spec fn are_pending(
    sessions: Seq<(String, String, i64)>,
    rows: Seq<SessionRow>,
    ids: Seq<i64>,
    after: i64,
    limit: usize,
) -> bool {
    let places = session_places(rows, after, rows.len() as int);
    let page = keyset::the_page(keys_of_ids(ids), None, bounded_limit(limit)).0;
    &&& sessions.len() == page.len()
    &&& forall|i: int|
        0 <= i < page.len() ==> {
            &&& (#[trigger] sessions[i]).0@ == rows[places[page[i] as int]].session_id@
            &&& sessions[i].1@ == rows[places[page[i] as int]].source@
            &&& sessions[i].2 == ids[page[i] as int]
        }
}

/// The next sessions with an event behind an id, by the first such event of each:
/// the session, its source and that event.
pub fn pending_event_sessions(rows: &Vec<SessionRow>, after: i64, limit: usize) -> (r: Vec<
    (String, String, i64),
>)
    ensures
        exists|ids: Seq<i64>| #[trigger]
            are_bounds(ids, rows@, after, false) && are_pending(r@, rows@, ids, after, limit),
{
    let firsts = first_rows(rows, after);
    let (ids, keys) = bounds_of(rows, &firsts, after, false);
    let page = page_of(&keys, None, bounded(limit)).0;
    let ghost places = session_places(rows@, after, rows@.len() as int);
    let mut out: Vec<(String, String, i64)> = Vec::new();
    let mut i: usize = 0;
    while i < page.len()
        invariant
            i <= page.len(),
            firsts@.len() == places.len(),
            ids@.len() == places.len(),
            keys@.len() == places.len(),
            forall|j: int| 0 <= j < firsts@.len() ==> #[trigger] firsts@[j] == places[j],
            forall|j: int| 0 <= j < firsts@.len() ==> (#[trigger] firsts@[j]) < rows@.len(),
            forall|j: int| 0 <= j < page@.len() ==> (#[trigger] page@[j]) < keys@.len(),
            out@.len() == i,
            forall|j: int|
                0 <= j < i ==> {
                    &&& (#[trigger] out@[j]).0@ == rows@[places[page@[j] as int]].session_id@
                    &&& out@[j].1@ == rows@[places[page@[j] as int]].source@
                    &&& out@[j].2 == ids@[page@[j] as int]
                },
        decreases page.len() - i,
    {
        let row = &rows[firsts[page[i]]];
        out.push((row.session_id.clone(), row.source.clone(), ids[page[i]]));
        i = i + 1;
    }
    assert(are_bounds(ids@, rows@, after, false));
    out
}

/// Whether a text holds something besides spaces.
pub open spec fn says_something(text: Seq<char>) -> bool {
    exists|i: int| 0 <= i < text.len() && #[trigger] text[i] != ' '
}

fn holds_something(text: &str) -> (r: bool)
    ensures
        r == says_something(text@),
{
    let chars = text::chars_of(text);
    let mut i: usize = 0;
    while i < chars.len()
        invariant
            i <= chars.len(),
            chars@ == text@,
            forall|j: int| 0 <= j < i ==> #[trigger] text@[j] == ' ',
        decreases chars.len() - i,
    {
        if chars[i] != ' ' {
            assert(text@[i as int] != ' ');
            return true;
        }
        i = i + 1;
    }
    false
}

/// Whether a row names the project of a session.
pub open spec fn names_project(row: HistoryEntry, source: Seq<char>, session: Seq<char>) -> bool {
    &&& row.source@ == source
    &&& text::opt_view(row.session_id) == Some(session)
    &&& row.project is Some
    &&& says_something(row.project->0@)
}

/// The project of a session: that of its first row that names one.
pub fn session_project(rows: &Vec<HistoryEntry>, source: &str, session_id: &str) -> (r: Option<
    String,
>)
    ensures
        match r {
            Some(project) => exists|i: int|
                0 <= i < rows@.len() && names_project(
                    #[trigger] rows@[i],
                    source@,
                    session_id@,
                ) && rows@[i].project == Some(project) && forall|j: int|
                    0 <= j < i ==> !names_project(#[trigger] rows@[j], source@, session_id@),
            None => forall|i: int|
                0 <= i < rows@.len() ==> !names_project(#[trigger] rows@[i], source@, session_id@),
        },
{
    let mut i: usize = 0;
    while i < rows.len()
        invariant
            i <= rows.len(),
            forall|j: int| 0 <= j < i ==> !names_project(#[trigger] rows@[j], source@, session_id@),
        decreases rows.len() - i,
    {
        let row = &rows[i];
        let own = match &row.session_id {
            Some(id) => same_text(id.as_str(), session_id),
            None => false,
        };
        if own && same_text(row.source.as_str(), source) {
            if let Some(project) = &row.project {
                if holds_something(project.as_str()) {
                    assert(names_project(rows@[i as int], source@, session_id@));
                    return Some(project.clone());
                }
            }
        }
        i = i + 1;
    }
    None
}

/// Whether a row is one of a session.
pub open spec fn is_of_session(row: HistoryEntry, source: Seq<char>, session: Seq<char>) -> bool {
    row.source@ == source && text::opt_view(row.session_id) == Some(session)
}

/// The place of the newest row of a session, by id.
pub fn latest_history_for_session(rows: &Vec<HistoryEntry>, source: &str, session_id: &str) -> (r:
    Option<usize>)
    ensures
        match r {
            Some(at) => {
                &&& at < rows@.len()
                &&& is_of_session(rows@[at as int], source@, session_id@)
                &&& forall|i: int|
                    0 <= i < rows@.len() && is_of_session(#[trigger] rows@[i], source@, session_id@)
                        ==> rows@[i].id <= rows@[at as int].id
            },
            None => forall|i: int|
                0 <= i < rows@.len() ==> !is_of_session(#[trigger] rows@[i], source@, session_id@),
        },
{
    let mut best: Option<usize> = None;
    let mut i: usize = 0;
    while i < rows.len()
        invariant
            i <= rows.len(),
            match best {
                Some(at) => {
                    &&& at < i
                    &&& is_of_session(rows@[at as int], source@, session_id@)
                    &&& forall|j: int|
                        0 <= j < i && is_of_session(#[trigger] rows@[j], source@, session_id@)
                            ==> rows@[j].id <= rows@[at as int].id
                },
                None => forall|j: int|
                    0 <= j < i ==> !is_of_session(#[trigger] rows@[j], source@, session_id@),
            },
        decreases rows.len() - i,
    {
        let row = &rows[i];
        let own = match &row.session_id {
            Some(id) => same_text(id.as_str(), session_id),
            None => false,
        };
        if own && same_text(row.source.as_str(), source) {
            match best {
                Some(at) => {
                    if row.id > rows[at].id {
                        best = Some(i);
                    }
                },
                None => {
                    best = Some(i);
                },
            }
        }
        i = i + 1;
    }
    best
}

} // verus!
