//! The queries that are put to the history database: their text, and the values
//! that are bound to them.
use crate::fts;
use crate::fts::build_fts_query;
use crate::store;
use crate::store::{normalize_tag_name, QueryFilter, SessionScope};
use crate::text;
use crate::text::{concat2, concat3};
use vstd::prelude::*;
use vstd::string::*;

verus! {

/// A query with the values that are bound to it, in order.
#[derive(Debug)]
pub struct TextQuery {
    pub sql: String,
    pub params: Vec<String>,
}

/// The columns of a history row.
pub const ENTRY_COLUMNS: &'static str = "h.id, h.source, h.session_id, h.project, h.prompt, h.timestamp_ms";

/// The columns of an event.
pub const EVENT_COLUMNS: &'static str = "id, source, session_id, project, cwd, git_branch, message_id, parent_id, ts_ms, role, kind, text, model, token_json, event_uid";

/// The columns of a tool call.
pub const TOOL_CALL_COLUMNS: &'static str = "id, source, session_id, message_id, tool_use_id, name, target, args_json, is_error, ts_ms";

/// The columns of a file edit.
pub const FILE_EDIT_COLUMNS: &'static str = "id, source, session_id, message_id, tool_use_id, file_path, tool_name, lines_added, lines_removed, structured_patch_json, user_modified, ts_ms, git_branch, cwd";

/// A condition where a value is given.
pub open spec fn clause(given: bool, condition: Seq<char>) -> Seq<char> {
    if given {
        condition
    } else {
        Seq::empty()
    }
}

/// The condition that a row's session carries a tag.
pub open spec fn tag_condition(alias: Seq<char>) -> Seq<char> {
    " AND EXISTS (SELECT 1 FROM session_tags st JOIN tags t ON t.id = st.tag_id WHERE st.source = "@
        + alias + ".source AND st.session_id = "@ + alias + ".session_id AND t.name = ?)"@
}

/// The conditions of a filter.
pub open spec fn filter_conditions(filter: QueryFilter, alias: Seq<char>) -> Seq<char> {
    clause(filter.source is Some, " AND "@ + alias + ".source = ?"@) + clause(
        filter.project is Some,
        " AND "@ + alias + ".project LIKE ?"@,
    ) + clause(filter.tag is Some, tag_condition(alias)) + clause(
        filter.before_ms is Some,
        " AND "@ + alias + ".timestamp_ms < ?"@,
    )
}

/// A value where it is given.
pub open spec fn value_when(value: Option<Seq<char>>) -> Seq<Seq<char>> {
    match value {
        Some(text) => seq![text],
        None => Seq::empty(),
    }
}

/// What a project is matched against: any text around it.
pub open spec fn like_value(project: Option<String>) -> Option<Seq<char>> {
    match project {
        Some(project) => Some("%"@ + project@ + "%"@),
        None => None,
    }
}

/// The name of the tag that is asked for.
pub open spec fn tag_value(tag: Option<String>) -> Option<Seq<char>> {
    match tag {
        Some(tag) => Some(store::tag_name(tag@)),
        None => None,
    }
}

/// The values of a filter: one for each of its conditions, in their order.
pub open spec fn filter_values(filter: QueryFilter) -> Seq<Seq<char>> {
    value_when(text::opt_view(filter.source)) + value_when(
        like_value(filter.project),
    ) + value_when(
        tag_value(filter.tag),
    ) + value_when(
        match filter.before_ms {
            Some(before_ms) => Some(text::decimal(before_ms as int)),
            None => None,
        },
    )
}

/// The condition of a scope. A row without a session, or of a session that nothing
/// is recorded of, is local.
pub open spec fn scope_condition(scope: SessionScope, alias: Seq<char>) -> Seq<char> {
    match scope {
        SessionScope::Local => " AND ("@ + alias
            + ".session_id IS NULL OR EXISTS (SELECT 1 FROM session_presences sp_local WHERE sp_local.source = "@
            + alias + ".source AND sp_local.session_id = "@ + alias
            + ".session_id AND sp_local.location = 'local') OR NOT EXISTS (SELECT 1 FROM session_presences sp_any WHERE sp_any.source = "@
            + alias + ".source AND sp_any.session_id = "@ + alias + ".session_id))"@,
        SessionScope::Remote =>
            " AND EXISTS (SELECT 1 FROM session_presences sp_remote WHERE sp_remote.source = "@
            + alias + ".source AND sp_remote.session_id = "@ + alias
            + ".session_id AND sp_remote.location = 'remote')"@,
        SessionScope::All => Seq::empty(),
    }
}

/// A limit that is at least one.
pub open spec fn at_least_one(limit: i64) -> int {
    if limit < 1 {
        1
    } else {
        limit as int
    }
}

fn add_text(list: &mut Vec<String>, text: String)
    ensures
        text::views(final(list)@) == text::views(old(list)@).push(text@),
{
    let ghost before = text::views(list@);
    let ghost view = text@;
    list.push(text);
    assert(text::views(list@) =~= before.push(view));
}

/// Adds the conditions of a filter to a query, and its values.
pub fn append_filters(query: &mut TextQuery, filter: &QueryFilter, alias: &str)
    ensures
        final(query).sql@ == old(query).sql@ + filter_conditions(*filter, alias@),
        text::views(final(query).params@) == text::views(old(query).params@) + filter_values(
            *filter,
        ),
{
    let ghost sql = query.sql@;
    let ghost params = text::views(query.params@);
    if let Some(source) = &filter.source {
        let condition = concat3(" AND ", alias, ".source = ?");
        query.sql.append(condition.as_str());
        add_text(&mut query.params, source.clone());
    }
    let ghost one = clause(filter.source is Some, " AND "@ + alias@ + ".source = ?"@);
    let ghost first = value_when(text::opt_view(filter.source));
    assert(query.sql@ =~= sql + one);
    assert(text::views(query.params@) =~= params + first);
    if let Some(project) = &filter.project {
        let condition = concat3(" AND ", alias, ".project LIKE ?");
        query.sql.append(condition.as_str());
        add_text(&mut query.params, concat3("%", project.as_str(), "%"));
    }
    let ghost two = one + clause(
        filter.project is Some,
        " AND "@ + alias@ + ".project LIKE ?"@,
    );
    let ghost second = first + value_when(
        like_value(filter.project),
    );
    assert(query.sql@ =~= sql + two);
    assert(text::views(query.params@) =~= params + second);
    if let Some(tag) = &filter.tag {
        let head = concat3(
            " AND EXISTS (SELECT 1 FROM session_tags st JOIN tags t ON t.id = st.tag_id WHERE st.source = ",
            alias,
            ".source AND st.session_id = ",
        );
        let condition = concat3(head.as_str(), alias, ".session_id AND t.name = ?)");
        assert(condition@ =~= tag_condition(alias@));
        query.sql.append(condition.as_str());
        add_text(&mut query.params, normalize_tag_name(tag.as_str()));
    }
    let ghost three = two + clause(filter.tag is Some, tag_condition(alias@));
    let ghost third = second + value_when(
        tag_value(filter.tag),
    );
    assert(query.sql@ =~= sql + three);
    assert(text::views(query.params@) =~= params + third);
    if let Some(before_ms) = filter.before_ms {
        let condition = concat3(" AND ", alias, ".timestamp_ms < ?");
        query.sql.append(condition.as_str());
        add_text(&mut query.params, text::decimal_i64(before_ms));
    }
    assert(query.sql@ =~= sql + filter_conditions(*filter, alias@));
    assert(text::views(query.params@) =~= params + filter_values(*filter));
}

/// Adds the condition of a scope to a query.
pub fn append_scope_filter(sql: &mut String, scope: SessionScope, alias: &str)
    ensures
        final(sql)@ == old(sql)@ + scope_condition(scope, alias@),
{
    let ghost start = sql@;
    match scope {
        SessionScope::Local => {
            let a = concat3(
                " AND (",
                alias,
                ".session_id IS NULL OR EXISTS (SELECT 1 FROM session_presences sp_local WHERE sp_local.source = ",
            );
            let b = concat3(a.as_str(), alias, ".source AND sp_local.session_id = ");
            let c = concat3(
                b.as_str(),
                alias,
                ".session_id AND sp_local.location = 'local') OR NOT EXISTS (SELECT 1 FROM session_presences sp_any WHERE sp_any.source = ",
            );
            let d = concat3(c.as_str(), alias, ".source AND sp_any.session_id = ");
            let e = concat3(d.as_str(), alias, ".session_id))");
            sql.append(e.as_str());
        },
        SessionScope::Remote => {
            let a = concat3(
                " AND EXISTS (SELECT 1 FROM session_presences sp_remote WHERE sp_remote.source = ",
                alias,
                ".source AND sp_remote.session_id = ",
            );
            let b = concat3(
                a.as_str(),
                alias,
                ".session_id AND sp_remote.location = 'remote')",
            );
            sql.append(b.as_str());
        },
        SessionScope::All => {
            assert(sql@ =~= start + Seq::<char>::empty());
        },
    }
}

/// The end of a query of the history: newest first, and a bounded number.
pub open spec fn newest_first() -> Seq<char> {
    " ORDER BY h.timestamp_ms DESC LIMIT ?"@
}

/// Whether a query is one of the history, newest first, that starts with a text
/// and some values.
pub open spec fn is_history_query(
    query: TextQuery,
    start: Seq<char>,
    values: Seq<Seq<char>>,
    filter: QueryFilter,
) -> bool {
    &&& query.sql@ == start + filter_conditions(filter, "h"@) + scope_condition(filter.scope, "h"@)
        + newest_first()
    &&& text::views(query.params@) == values + filter_values(filter) + seq![
        text::decimal(at_least_one(filter.limit)),
    ]
}

fn finish(query: TextQuery, filter: &QueryFilter) -> (r: TextQuery)
    ensures
        is_history_query(r, query.sql@, text::views(query.params@), *filter),
{
    let ghost start = query.sql@;
    let ghost values = text::views(query.params@);
    let mut query = query;
    append_filters(&mut query, filter, "h");
    append_scope_filter(&mut query.sql, filter.scope, "h");
    query.sql.append(" ORDER BY h.timestamp_ms DESC LIMIT ?");
    let limit: i64 = if filter.limit < 1 {
        1
    } else {
        filter.limit
    };
    add_text(&mut query.params, text::decimal_i64(limit));
    assert(query.sql@ =~= start + filter_conditions(*filter, "h"@) + scope_condition(
        filter.scope,
        "h"@,
    ) + newest_first());
    assert(text::views(query.params@) =~= values + filter_values(*filter) + seq![
        text::decimal(at_least_one(filter.limit)),
    ]);
    query
}

/// The query for the newest rows.
pub fn recent_query(filter: &QueryFilter) -> (r: TextQuery)
    ensures
        is_history_query(
            r,
            "SELECT "@ + ENTRY_COLUMNS@ + " FROM history h WHERE 1=1"@,
            Seq::empty(),
            *filter,
        ),
{
    let sql = concat3("SELECT ", ENTRY_COLUMNS, " FROM history h WHERE 1=1");
    let params: Vec<String> = Vec::new();
    assert(text::views(params@) =~= Seq::<Seq<char>>::empty());
    finish(TextQuery { sql, params }, filter)
}

/// The query for the rows that some terms match; without a term, for the newest.
pub fn search_query(terms: &Vec<String>, raw_fts: bool, filter: &QueryFilter) -> (r: TextQuery)
    ensures
        if terms@.len() == 0 {
            is_history_query(
                r,
                "SELECT "@ + ENTRY_COLUMNS@ + " FROM history h WHERE 1=1"@,
                Seq::empty(),
                *filter,
            )
        } else {
            is_history_query(
                r,
                "SELECT "@ + ENTRY_COLUMNS@
                    + " FROM history_fts f JOIN history h ON f.rowid = h.id WHERE history_fts MATCH ?"@,
                seq![fts::fts_query(text::views(terms@), raw_fts)],
                *filter,
            )
        },
{
    if terms.len() == 0 {
        return recent_query(filter);
    }
    let sql = concat3(
        "SELECT ",
        ENTRY_COLUMNS,
        " FROM history_fts f JOIN history h ON f.rowid = h.id WHERE history_fts MATCH ?",
    );
    let mut params: Vec<String> = Vec::new();
    add_text(&mut params, build_fts_query(terms, raw_fts));
    assert(text::views(params@) =~= seq![fts::fts_query(text::views(terms@), raw_fts)]);
    finish(TextQuery { sql, params }, filter)
}

/// The query for the rows of one session, oldest first.
pub fn session_query(session_id: &str, source: Option<String>, tag: Option<String>) -> (r: TextQuery)
    ensures
        ({
            let filter = QueryFilter {
                source,
                project: None,
                tag,
                before_ms: None,
                limit: 10_000,
                scope: SessionScope::Local,
            };
            &&& r.sql@ == "SELECT "@ + ENTRY_COLUMNS@ + " FROM history h WHERE h.session_id = ?"@
                + filter_conditions(filter, "h"@) + " ORDER BY h.timestamp_ms ASC"@
            &&& text::views(r.params@) == seq![session_id@] + filter_values(filter)
        }),
{
    let filter = QueryFilter {
        source,
        project: None,
        tag,
        before_ms: None,
        limit: 10_000,
        scope: SessionScope::Local,
    };
    let sql = concat3("SELECT ", ENTRY_COLUMNS, " FROM history h WHERE h.session_id = ?");
    let mut params: Vec<String> = Vec::new();
    add_text(&mut params, session_id.to_owned());
    assert(text::views(params@) =~= seq![session_id@]);
    let mut query = TextQuery { sql, params };
    append_filters(&mut query, &filter, "h");
    query.sql.append(" ORDER BY h.timestamp_ms ASC");
    query
}

/// The conditions under which rows are counted.
pub open spec fn stats_conditions(scope: SessionScope, tagged: bool) -> Seq<char> {
    " WHERE 1=1"@ + scope_condition(scope, "h"@) + clause(tagged, tag_condition("h"@))
}

/// The queries that count the history: of all rows, by source, by project, and of
/// the first and the last time. One value is bound to each where a tag is given.
#[derive(Debug)]
pub struct StatsQueries {
    pub total: String,
    pub by_source: String,
    pub by_project: String,
    pub times: String,
    pub params: Vec<String>,
}

/// The queries that count the history.
pub fn stats_queries(tag: Option<&str>, scope: SessionScope) -> (r: StatsQueries)
    ensures
        ({
            let conditions = stats_conditions(scope, tag is Some);
            &&& r.total@ == "SELECT COUNT(*) FROM history h"@ + conditions
            &&& r.by_source@ == "SELECT source, COUNT(*) FROM history h"@ + conditions
                + " GROUP BY source ORDER BY source"@
            &&& r.by_project@ == "SELECT project, COUNT(*) FROM history h "@ + conditions
                + " AND project IS NOT NULL GROUP BY project ORDER BY COUNT(*) DESC LIMIT 10"@
            &&& r.times@ == "SELECT MIN(timestamp_ms), MAX(timestamp_ms) FROM history h"@ + conditions
            &&& text::views(r.params@) == value_when(
                match tag {
                    Some(tag) => Some(store::tag_name(tag@)),
                    None => None,
                },
            )
        }),
{
    let mut conditions = " WHERE 1=1".to_owned();
    let mut params: Vec<String> = Vec::new();
    assert(text::views(params@) =~= Seq::<Seq<char>>::empty());
    append_scope_filter(&mut conditions, scope, "h");
    let ghost so_far = conditions@;
    if let Some(tag) = tag {
        let head = concat3(
            " AND EXISTS (SELECT 1 FROM session_tags st JOIN tags t ON t.id = st.tag_id WHERE st.source = ",
            "h",
            ".source AND st.session_id = ",
        );
        let condition = concat3(head.as_str(), "h", ".session_id AND t.name = ?)");
        assert(condition@ =~= tag_condition("h"@));
        conditions.append(condition.as_str());
        add_text(&mut params, normalize_tag_name(tag));
        assert(text::views(params@) =~= seq![store::tag_name(tag@)]);
    } else {
        assert(conditions@ =~= so_far + Seq::<char>::empty());
    }
    assert(conditions@ == stats_conditions(scope, tag is Some));
    StatsQueries {
        total: concat2("SELECT COUNT(*) FROM history h", conditions.as_str()),
        by_source: concat3(
            "SELECT source, COUNT(*) FROM history h",
            conditions.as_str(),
            " GROUP BY source ORDER BY source",
        ),
        by_project: concat3(
            "SELECT project, COUNT(*) FROM history h ",
            conditions.as_str(),
            " AND project IS NOT NULL GROUP BY project ORDER BY COUNT(*) DESC LIMIT 10",
        ),
        times: concat2(
            "SELECT MIN(timestamp_ms), MAX(timestamp_ms) FROM history h",
            conditions.as_str(),
        ),
        params,
    }
}

/// The query for the sessions with an id, of one source where it is given.
pub fn matching_sessions_query(session_id: &str, source: Option<&str>) -> (r: TextQuery)
    ensures
        r.sql@
            == "SELECT source, session_id, MIN(project), COUNT(*), MAX(timestamp_ms) FROM history WHERE session_id = ?"@
            + clause(source is Some, " AND source = ?"@)
            + " GROUP BY source, session_id ORDER BY source"@,
        text::views(r.params@) == seq![session_id@] + value_when(
            match source {
                Some(source) => Some(source@),
                None => None,
            },
        ),
{
    let mut sql =
        "SELECT source, session_id, MIN(project), COUNT(*), MAX(timestamp_ms) FROM history WHERE session_id = ?".to_owned();
    let mut params: Vec<String> = Vec::new();
    add_text(&mut params, session_id.to_owned());
    assert(text::views(params@) =~= seq![session_id@]);
    let ghost so_far = sql@;
    if let Some(source) = source {
        sql.append(" AND source = ?");
        add_text(&mut params, source.to_owned());
        assert(text::views(params@) =~= seq![session_id@] + seq![source@]);
    } else {
        assert(sql@ =~= so_far + Seq::<char>::empty());
        assert(text::views(params@) =~= seq![session_id@] + Seq::<Seq<char>>::empty());
    }
    sql.append(" GROUP BY source, session_id ORDER BY source");
    TextQuery { sql, params }
}

/// The order of rows with a time that may be missing: those without one last.
pub open spec fn undated_last() -> Seq<char> {
    " ORDER BY ts_ms IS NULL, ts_ms ASC, id ASC"@
}

/// The query for all rows of one session in a table, oldest first.
pub fn session_rows_query(columns: &str, table: &str, session_id: &str, source: Option<&str>) -> (r:
    TextQuery)
    ensures
        r.sql@ == "SELECT "@ + columns@ + " FROM "@ + table@ + " WHERE session_id = ?"@ + clause(
            source is Some,
            " AND source = ?"@,
        ) + undated_last(),
        text::views(r.params@) == seq![session_id@] + value_when(
            match source {
                Some(source) => Some(source@),
                None => None,
            },
        ),
{
    let head = concat3("SELECT ", columns, " FROM ");
    let mut sql = concat3(head.as_str(), table, " WHERE session_id = ?");
    let mut params: Vec<String> = Vec::new();
    add_text(&mut params, session_id.to_owned());
    assert(text::views(params@) =~= seq![session_id@]);
    let ghost so_far = sql@;
    if let Some(source) = source {
        sql.append(" AND source = ?");
        add_text(&mut params, source.to_owned());
        assert(text::views(params@) =~= seq![session_id@] + seq![source@]);
    } else {
        assert(sql@ =~= so_far + Seq::<char>::empty());
        assert(text::views(params@) =~= seq![session_id@] + Seq::<Seq<char>>::empty());
    }
    sql.append(" ORDER BY ts_ms IS NULL, ts_ms ASC, id ASC");
    TextQuery { sql, params }
}

} // verus!
