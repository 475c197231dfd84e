//! How the catalog is walked and watched, call by call.
use crate::catalog::{
    catalog_changes, rolling_tick, CatalogFingerprint, CatalogListOptions, CatalogQuery,
    CatalogSession, CatalogWalk, DiscoveryState, ShallowSession, SweptCatalog, SyncReport,
};
use crate::session_store;
use crate::session_store::{Error, SessionRef, SessionStore, Source};
use crate::store::SourceNames;
use crate::watch::TickOutcome;
use vstd::prelude::*;
use vstd::string::*;

verus! {

/// Whether a listed session is what is stored of it.
pub open spec fn lists(session: CatalogSession, row: ShallowSession, names: SourceNames) -> bool {
    &&& session_store::source_label(session.source, names.claude@) == row.source@
    &&& session.session_id@ == row.session_id@
    &&& session.cwd == row.cwd
    &&& session.git_branch == row.git_branch
    &&& session.first_activity_ms == row.first_activity_ms
    &&& session.last_activity_ms == row.last_activity_ms
    &&& session.first_prompt == row.first_prompt
    &&& session.last_assistant_text == row.last_assistant_text
    &&& session.project_key == row.project_key
    &&& session.raw_path == row.raw_path
    &&& session.source_stamp == row.source_stamp
    &&& session.locations == row.locations
    &&& session.discovery_state == DiscoveryState::Shallow <==> row.discovery_state@ == "shallow"@
}

/// A walk hands out the rows of a page one by one, in order, each as it is stored; it asks
/// for a page only once all of them are handed out, and not behind the last page.
pub proof fn law_walk_hands_out_every_row<C>(
    read: &mut CatalogWalk<C>,
    rows: Vec<ShallowSession>,
    next_cursor: Option<C>,
    names: SourceNames,
    first: &mut CatalogWalk<C>,
    one: Option<Result<CatalogSession, Error>>,
    second: &mut CatalogWalk<C>,
    two: Option<Result<CatalogSession, Error>>,
    asks: bool,
)
    requires
        old(read).buffer@.len() == 0,
        call_ensures(CatalogWalk::<C>::fill, (read, rows, next_cursor), ()),
        *old(first) == *final(read),
        call_ensures(CatalogWalk::<C>::next_row, (first, &names), one),
        *old(second) == *final(first),
        call_ensures(CatalogWalk::<C>::next_row, (second, &names), two),
        call_ensures(CatalogWalk::<C>::needs_page, (final(second),), asks),
    ensures
        one is None <==> rows@.len() == 0,
        one is Some && one->0 is Ok ==> lists(one->0->Ok_0, rows@[0], names),
        one is Some && one->0 is Ok ==> (two is None <==> rows@.len() == 1),
        one is Some && one->0 is Ok && two is Some && two->0 is Ok ==> lists(
            two->0->Ok_0,
            rows@[1],
            names,
        ),
        one is Some && one->0 is Ok && two is Some && two->0 is Ok ==> (asks <==> rows@.len() == 2
            && next_cursor is Some),
        rows@.len() == 0 ==> (asks <==> next_cursor is Some),
{
    assert(final(read).buffer@ =~= rows@);
    if rows@.len() > 0 {
        session_store::law_named_source_has_its_label(rows@[0].source@, names.claude@);
    }
    if rows@.len() > 1 {
        session_store::law_named_source_has_its_label(rows@[1].source@, names.claude@);
        assert(rows@.drop_first()[0] == rows@[1]);
    }
}

/// A row of a source that is not known ends a walk with an error: nothing comes behind it,
/// and no page is asked for.
pub proof fn law_unknown_source_ends_a_walk<C>(
    walk: &mut CatalogWalk<C>,
    names: SourceNames,
    row: Option<Result<CatalogSession, Error>>,
    after: &mut CatalogWalk<C>,
    next: Option<Result<CatalogSession, Error>>,
    asks: bool,
)
    requires
        call_ensures(CatalogWalk::<C>::next_row, (walk, &names), row),
        *old(after) == *final(walk),
        call_ensures(CatalogWalk::<C>::next_row, (after, &names), next),
        call_ensures(CatalogWalk::<C>::needs_page, (final(after),), asks),
        old(walk).buffer@.len() > 0,
        forall|source: Source|
            #[trigger] session_store::source_label(source, names.claude@)
                != old(walk).buffer@[0].source@,
    ensures
        row is Some,
        row->0 is Err,
        next is None,
        !asks,
{
    let name = old(walk).buffer@[0].source@;
    session_store::law_named_source_has_its_label(name, names.claude@);
    match session_store::source_named(name, names.claude@) {
        Some(source) => {
            assert(session_store::source_label(source, names.claude@) == name);
        },
        None => {},
    }
}

/// A listing asks for what its query names: an empty list of sources admits nothing, and no
/// list every source; a page has from one to a thousand rows.
pub proof fn law_listing_asks_what_the_query_names(
    query: CatalogQuery,
    names: SourceNames,
    options: Option<CatalogListOptions>,
)
    requires
        call_ensures(CatalogQuery::list_options, (&query, &names), options),
    ensures
        options is None <==> query.sources is Some && query.sources->0@.len() == 0,
        options is Some ==> {
            &&& options->0.scope == query.scope
            &&& options->0.before_ms == query.before_ms
            &&& 1 <= options->0.limit <= 1000
            &&& 1 <= query.page_size <= 1000 ==> options->0.limit == query.page_size
            &&& query.sources is None ==> options->0.sources@.len() == 0
            &&& query.sources is Some ==> options->0.sources@.len() == query.sources->0@.len()
            &&& query.sources is Some ==> forall|i: int|
                0 <= i < query.sources->0@.len() ==> (#[trigger] options->0.sources@[i])@
                    == session_store::source_label(query.sources->0@[i], names.claude@)
            &&& query.project_key is Some <==> options->0.project_key is Some
            &&& query.project_key is Some ==> options->0.project_key->0@ == query.project_key->0@
        },
{
}

/// The baseline that changes are told from moves forward with a sweep that came back with a
/// reading, and only with one: what a sweep that failed or was kept out did not report, the
/// next report still owes.
pub proof fn law_baseline_moves_with_a_reading_alone<E>(
    base: &mut Option<CatalogFingerprint>,
    sweep: Result<Option<SweptCatalog>, E>,
    told: Result<(TickOutcome, Vec<SessionRef>), E>,
)
    requires
        call_ensures(rolling_tick::<E>, (base, sweep), told),
    ensures
        sweep is Err ==> told is Err && *final(base) == *old(base),
        sweep is Ok && sweep->Ok_0 is None ==> told is Ok && told->Ok_0.1@.len() == 0
            && told->Ok_0.0.contended && !told->Ok_0.0.swept && *final(base) == *old(base),
        sweep is Ok && sweep->Ok_0 is Some ==> {
            let swept = sweep->Ok_0->0;
            &&& told is Ok
            &&& told->Ok_0.1 == swept.changed
            &&& *final(base) == Some(swept.after)
            &&& told->Ok_0.0.swept == swept.tick.swept
            &&& told->Ok_0.0.contended == !swept.tick.attempted
            &&& told->Ok_0.0.skipped_unchanged == (swept.tick.attempted && !swept.tick.swept)
        },
{
}

/// A sweep reports the same changes as a comparison of its two readings; a store that is
/// open for reading alone does not sweep.
pub proof fn law_sweep_reports_its_changes<R>(
    store: SessionStore<R>,
    names: SourceNames,
    swept: bool,
    before: CatalogFingerprint,
    after: CatalogFingerprint,
    head: u64,
    result: Result<SyncReport, Error>,
    changes: Vec<SessionRef>,
    i: int,
)
    requires
        before.well_formed(),
        call_ensures(
            SessionStore::<R>::sync,
            (&store, &names, swept, &before, &after, head),
            result,
        ),
        call_ensures(catalog_changes, (&before, &after, &names), changes),
    ensures
        result is Err <==> store.read_only,
        result matches Ok(report) ==> {
            &&& report.swept == swept
            &&& report.head_revision == head
            &&& report.changed@.len() == changes@.len()
            &&& 0 <= i < changes@.len() ==> report.changed@[i]@ == changes@[i]@
        },
{
    if result is Ok {
        let report = result->Ok_0;
        let a = session_store::ref_views(report.changed@);
        let b = session_store::ref_views(changes@);
        assert(a == b);
        assert(a.len() == report.changed@.len() && b.len() == changes@.len());
        if 0 <= i < changes@.len() {
            assert(a[i] == report.changed@[i]@);
            assert(b[i] == changes@[i]@);
        }
    }
}

} // verus!
