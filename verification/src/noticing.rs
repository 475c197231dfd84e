//! Which sessions a watcher is told of, from the catalog rows of two readings.
use crate::catalog;
use crate::catalog::{
    catalog_changes, catalog_fingerprint, digest_row, CatalogFingerprint, CatalogRow,
};
use crate::session_store;
use crate::session_store::{SessionRef, Source};
use crate::store::SourceNames;
use vstd::prelude::*;
use vstd::string::*;

verus! {

/// Whether two rows are of one session.
pub open spec fn of_one_session(a: CatalogRow, b: CatalogRow) -> bool {
    a.source@ == b.source@ && a.session_id@ == b.session_id@
}

/// Whether a row is the one that counts of its session: the last.
pub open spec fn counts(rows: Seq<CatalogRow>, i: int) -> bool {
    &&& 0 <= i < rows.len()
    &&& forall|j: int| i < j < rows.len() ==> !of_one_session(#[trigger] rows[j], rows[i])
}

/// Whether a session is among those that a watcher is told of.
pub open spec fn is_told(refs: Seq<SessionRef>, source: Source, session: Seq<char>) -> bool {
    exists|k: int|
        0 <= k < refs.len() && (#[trigger] refs[k] matches SessionRef::Id { source: s, session_id }
            && s == source && session_id@ == session)
}

proof fn lemma_last_row(rows: Seq<CatalogRow>, i: int, n: int)
    requires
        counts(rows, i),
        i < n <= rows.len(),
    ensures
        catalog::last_row(rows, catalog::row_key(rows[i]), n) == Some(rows[i]),
    decreases n,
{
    if n - 1 > i {
        assert(!of_one_session(rows[n - 1], rows[i]));
        lemma_last_row(rows, i, n - 1);
    }
}

proof fn lemma_no_row(rows: Seq<CatalogRow>, key: (Seq<char>, Seq<char>), n: int)
    requires
        0 <= n <= rows.len(),
    ensures
        catalog::last_row(rows, key, n) is None <==> forall|j: int|
            0 <= j < n ==> catalog::row_key(#[trigger] rows[j]) != key,
        catalog::last_row(rows, key, n) matches Some(row) ==> exists|j: int|
            0 <= j < n && catalog::row_key(#[trigger] rows[j]) == key && rows[j] == row,
    decreases n,
{
    if n > 0 {
        lemma_no_row(rows, key, n - 1);
        if catalog::row_key(rows[n - 1]) != key && catalog::last_row(rows, key, n - 1) is Some {
            let row = catalog::last_row(rows, key, n - 1)->0;
            let j = choose|j: int|
                0 <= j < n - 1 && catalog::row_key(#[trigger] rows[j]) == key && rows[j] == row;
            assert(catalog::row_key(rows[j]) == key && rows[j] == row);
        }
    }
}

/// The place of a session in a reading.
proof fn lemma_stamped(reading: CatalogFingerprint, key: (Seq<char>, Seq<char>)) -> (i: int)
    requires
        reading.digest_of(key) is Some,
    ensures
        0 <= i < reading.stamps@.len(),
        catalog::stamp_key(reading.stamps@[i]) == key,
        reading.digest_of(key) == Some(reading.stamps@[i].digest@),
{
    choose|i: int|
        0 <= i < reading.stamps@.len() && catalog::stamp_key(#[trigger] reading.stamps@[i]) == key
}

/// A watcher is told of a session of a known source whose row is new, or whose row's digest
/// is another than before.
pub proof fn law_change_is_noticed(
    rows_before: Vec<CatalogRow>,
    rows_after: Vec<CatalogRow>,
    names: SourceNames,
    before: CatalogFingerprint,
    after: CatalogFingerprint,
    refs: Vec<SessionRef>,
    source: Source,
    i: int,
)
    requires
        call_ensures(catalog_fingerprint, (&rows_before,), before),
        call_ensures(catalog_fingerprint, (&rows_after,), after),
        call_ensures(catalog_changes, (&before, &after, &names), refs),
        session_store::is_own_name(names.claude@),
        counts(rows_after@, i),
        rows_after@[i].source@ == session_store::source_label(source, names.claude@),
        forall|j: int|
            0 <= j < rows_before@.len() ==> !of_one_session(
                #[trigger] rows_before@[j],
                rows_after@[i],
            ),
    ensures
        is_told(refs@, source, rows_after@[i].session_id@),
{
    let key = catalog::row_key(rows_after@[i]);
    lemma_last_row(rows_after@, i, rows_after@.len() as int);
    lemma_no_row(rows_before@, key, rows_before@.len() as int);
    assert forall|j: int| 0 <= j < rows_before@.len() implies catalog::row_key(
        #[trigger] rows_before@[j],
    ) != key by {
        assert(!of_one_session(rows_before@[j], rows_after@[i]));
    }
    assert(before.digest_of(key) is None);
    lemma_told(before, after, names, refs, source, key);
}

proof fn lemma_told(
    before: CatalogFingerprint,
    after: CatalogFingerprint,
    names: SourceNames,
    refs: Vec<SessionRef>,
    source: Source,
    key: (Seq<char>, Seq<char>),
)
    requires
        session_store::ref_views(refs@) == catalog::changes_of(before, after, names.claude@),
        session_store::is_own_name(names.claude@),
        key.0 == session_store::source_label(source, names.claude@),
        after.digest_of(key) is Some,
        before.digest_of(key) != after.digest_of(key),
    ensures
        is_told(refs@, source, key.1),
{
    let x = lemma_stamped(after, key);
    catalog::law_every_change_is_reported(
        before,
        after,
        source,
        names.claude@,
        x,
        after.stamps@.len() as int,
    );
    let all = session_store::ref_views(refs@);
    let one = session_store::RefView::Id { source, session_id: key.1 };
    assert(all.contains(one));
    let k = choose|k: int| 0 <= k < all.len() && all[k] == one;
    assert(refs@[k]@ == one);
    assert(refs@[k] is Id);
}

/// A watcher is told of a session of a known source whose row has another digest than
/// before.
pub proof fn law_new_digest_is_noticed(
    rows_before: Vec<CatalogRow>,
    rows_after: Vec<CatalogRow>,
    names: SourceNames,
    before: CatalogFingerprint,
    after: CatalogFingerprint,
    refs: Vec<SessionRef>,
    source: Source,
    i: int,
    j: int,
    digest_before: String,
    digest_after: String,
)
    requires
        call_ensures(catalog_fingerprint, (&rows_before,), before),
        call_ensures(catalog_fingerprint, (&rows_after,), after),
        call_ensures(catalog_changes, (&before, &after, &names), refs),
        session_store::is_own_name(names.claude@),
        counts(rows_before@, j),
        counts(rows_after@, i),
        of_one_session(rows_before@[j], rows_after@[i]),
        rows_after@[i].source@ == session_store::source_label(source, names.claude@),
        call_ensures(digest_row, (&rows_before@[j],), digest_before),
        call_ensures(digest_row, (&rows_after@[i],), digest_after),
    ensures
        digest_before@ != digest_after@ ==> is_told(refs@, source, rows_after@[i].session_id@),
        digest_before@ == digest_after@ ==> !is_told(refs@, source, rows_after@[i].session_id@),
{
    let key = catalog::row_key(rows_after@[i]);
    lemma_last_row(rows_after@, i, rows_after@.len() as int);
    lemma_last_row(rows_before@, j, rows_before@.len() as int);
    assert(before.digest_of(key) == Some(digest_before@));
    assert(after.digest_of(key) == Some(digest_after@));
    if digest_before@ != digest_after@ {
        lemma_told(before, after, names, refs, source, key);
    } else if is_told(refs@, source, key.1) {
        let k = choose|k: int|
            0 <= k < refs@.len() && (#[trigger] refs@[k] matches SessionRef::Id {
                source: s,
                session_id,
            } && s == source && session_id@ == key.1);
        let x = lemma_told_is_change(before, after, names, refs, k);
        assert(catalog::stamp_key(after.stamps@[x]) == key);
        lemma_digest(after, x);
    }
}

proof fn lemma_digest(reading: CatalogFingerprint, i: int)
    requires
        reading.well_formed(),
        0 <= i < reading.stamps@.len(),
    ensures
        reading.digest_of(catalog::stamp_key(reading.stamps@[i])) == Some(
            reading.stamps@[i].digest@,
        ),
{
    catalog::lemma_digest_at(reading, i);
}

proof fn lemma_told_is_change(
    before: CatalogFingerprint,
    after: CatalogFingerprint,
    names: SourceNames,
    refs: Vec<SessionRef>,
    k: int,
) -> (x: int)
    requires
        session_store::ref_views(refs@) == catalog::changes_of(before, after, names.claude@),
        0 <= k < refs@.len(),
    ensures
        refs@[k] is Id,
        0 <= x < after.stamps@.len(),
        before.digest_of(catalog::stamp_key(after.stamps@[x])) != Some(after.stamps@[x].digest@),
        catalog::stamp_key(after.stamps@[x]) == (
            session_store::source_label(refs@[k]->Id_source, names.claude@),
            refs@[k]->Id_session_id@,
        ),
{
    let n = after.stamps@.len() as int;
    let all = catalog::changes_in(before, after.stamps@, names.claude@, n);
    assert(session_store::ref_views(refs@)[k] == refs@[k]@);
    catalog::law_only_changes_are_reported(before, after, names.claude@, n, k);
    choose|i: int|
        0 <= i < n && catalog::is_change(before, #[trigger] after.stamps@[i])
            && catalog::stamp_key(after.stamps@[i]) == catalog::change_key(all[k], names.claude@)
}

/// A watcher is told of sessions that are there, and of each once: a session that it is told
/// of has a row in the later reading.
pub proof fn law_only_stored_sessions_are_noticed(
    rows_before: Vec<CatalogRow>,
    rows_after: Vec<CatalogRow>,
    names: SourceNames,
    before: CatalogFingerprint,
    after: CatalogFingerprint,
    refs: Vec<SessionRef>,
    k: int,
)
    requires
        call_ensures(catalog_fingerprint, (&rows_before,), before),
        call_ensures(catalog_fingerprint, (&rows_after,), after),
        call_ensures(catalog_changes, (&before, &after, &names), refs),
        0 <= k < refs@.len(),
    ensures
        refs@[k] is Id,
        exists|j: int|
            0 <= j < rows_after@.len() && (#[trigger] rows_after@[j]).session_id@
                == refs@[k]->Id_session_id@ && rows_after@[j].source@
                == session_store::source_label(refs@[k]->Id_source, names.claude@),
        forall|h: int| 0 <= h < k ==> (#[trigger] refs@[h])@ != refs@[k]@,
{
    let x = lemma_told_is_change(before, after, names, refs, k);
    let key = catalog::stamp_key(after.stamps@[x]);
    lemma_digest(after, x);
    lemma_no_row(rows_after@, key, rows_after@.len() as int);
    assert(after.digest_of(key) == catalog::digest_in(rows_after@, key));
    let row = catalog::last_row(rows_after@, key, rows_after@.len() as int)->0;
    let j = choose|j: int|
        0 <= j < rows_after@.len() && catalog::row_key(#[trigger] rows_after@[j]) == key
            && rows_after@[j] == row;
    assert(rows_after@[j].session_id@ == refs@[k]->Id_session_id@);
    assert forall|h: int| 0 <= h < k implies (#[trigger] refs@[h])@ != refs@[k]@ by {
        catalog::law_changes_are_in_order_without_repeats(
            before,
            after,
            names.claude@,
            after.stamps@.len() as int,
            h,
            k,
        );
        assert(session_store::ref_views(refs@)[h] == refs@[h]@);
        assert(session_store::ref_views(refs@)[k] == refs@[k]@);
    }
}

} // verus!
