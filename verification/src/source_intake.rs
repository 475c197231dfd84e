//! Reconciliation of complete source snapshots with the canonical rows.
//!
//! Each snapshot is fenced by the revision that its observation had before the
//! acquisition. What is then written and removed is decided here, from what the
//! ledger holds; a row that no connector is known to own is never touched.
use crate::catalog::{ShallowSession, ShallowView};
use crate::digest;
use crate::json;
use crate::json::{JsonTree, JsonValue};
use crate::order;
use crate::source_evidence;
use crate::source_evidence::{EvidenceKind, EvidenceRecord, ObservationKey, RecordTree};
use crate::store;
use crate::store::{SessionLocation, SourceNames};
use crate::text;
use crate::text::same_text;
use vstd::prelude::*;
use vstd::string::*;

verus! {

/// One complete acquired snapshot.
#[derive(Debug)]
pub struct NormalizedSourceEvidence {
    pub source_stamp: String,
    pub source_bytes: i64,
    pub covered_kinds: Vec<EvidenceKind>,
    pub records: Vec<EvidenceRecord>,
}

/// A record of a stored snapshot, and whether its connector owns the row.
#[derive(Debug)]
pub struct ManagedRecord {
    pub record: EvidenceRecord,
    pub managed: bool,
}

/// What one connector asserts of a session.
#[derive(Debug)]
pub struct RecordSnapshot {
    pub covered_kinds: Vec<EvidenceKind>,
    pub records: Vec<ManagedRecord>,
}

/// Who owns a stored snapshot.
#[derive(Debug)]
pub struct SnapshotOwner {
    pub location: SessionLocation,
    pub connector_id: String,
    pub connector_instance: String,
}

/// A stored snapshot and its owner.
#[derive(Debug)]
pub struct OwnedSnapshot {
    pub owner: SnapshotOwner,
    pub snapshot: RecordSnapshot,
}

/// What the canonical tables hold for one identity: whether there is a row, and
/// whether it still equals what the first owner's snapshot says.
#[derive(Debug)]
pub struct CanonicalRow {
    pub identity: String,
    pub exists: bool,
    pub matches: bool,
}

/// The view of an owner.
pub struct OwnerView {
    pub location: SessionLocation,
    pub connector_id: Seq<char>,
    pub connector_instance: Seq<char>,
}

impl View for SnapshotOwner {
    type V = OwnerView;

    open spec fn view(&self) -> OwnerView {
        OwnerView {
            location: self.location,
            connector_id: self.connector_id@,
            connector_instance: self.connector_instance@,
        }
    }
}

/// The owner of the snapshots of an observation.
pub open spec fn owner_view(key: ObservationKey) -> OwnerView {
    OwnerView {
        location: key.location,
        connector_id: key.connector_id@,
        connector_instance: key.connector_instance@,
    }
}

/// The owner of the snapshots of an observation.
pub fn owner(key: &ObservationKey) -> (r: SnapshotOwner)
    ensures
        r@ == owner_view(*key),
{
    SnapshotOwner {
        location: key.location,
        connector_id: key.connector_id.clone(),
        connector_instance: key.connector_instance.clone(),
    }
}

/// The order of owners: local ones first, then by connector and instance.
pub open spec fn owner_less(a: OwnerView, b: OwnerView) -> bool {
    if a.location != b.location {
        a.location == SessionLocation::Local
    } else if a.connector_id != b.connector_id {
        order::text_less(a.connector_id, b.connector_id)
    } else {
        order::text_less(a.connector_instance, b.connector_instance)
    }
}

fn less_owner(a: &SnapshotOwner, b: &SnapshotOwner) -> (r: bool)
    ensures
        r == owner_less(a@, b@),
{
    if a.location != b.location {
        a.location == SessionLocation::Local
    } else if !same_text(a.connector_id.as_str(), b.connector_id.as_str()) {
        order::less(a.connector_id.as_str(), b.connector_id.as_str())
    } else {
        order::less(a.connector_instance.as_str(), b.connector_instance.as_str())
    }
}

fn same_owner(a: &SnapshotOwner, b: &SnapshotOwner) -> (r: bool)
    ensures
        r == (a@ == b@),
{
    a.location == b.location && same_text(a.connector_id.as_str(), b.connector_id.as_str())
        && same_text(a.connector_instance.as_str(), b.connector_instance.as_str())
}

/// A record of a snapshot with its identity.
pub struct ItemView {
    pub id: Seq<char>,
    pub record: RecordTree,
    pub managed: bool,
}

/// The view of a record of a snapshot.
pub open spec fn item_view(item: ManagedRecord) -> ItemView {
    ItemView {
        id: source_evidence::identity_of(item.record@),
        record: item.record@,
        managed: item.managed,
    }
}

/// The views of the records of a snapshot.
pub open spec fn item_views(items: Seq<ManagedRecord>) -> Seq<ItemView> {
    items.map_values(|item: ManagedRecord| item_view(item))
}

/// The view of an owned snapshot.
pub struct SnapshotView {
    pub owner: OwnerView,
    pub kinds: Seq<EvidenceKind>,
    pub items: Seq<ItemView>,
}

/// The view of an owned snapshot.
pub open spec fn snapshot_view(owned: OwnedSnapshot) -> SnapshotView {
    SnapshotView {
        owner: owned.owner@,
        kinds: owned.snapshot.covered_kinds@,
        items: item_views(owned.snapshot.records@),
    }
}

/// The views of a list of owned snapshots.
pub open spec fn snapshot_views(list: Seq<OwnedSnapshot>) -> Seq<SnapshotView> {
    list.map_values(|owned: OwnedSnapshot| snapshot_view(owned))
}

/// A list of snapshots with one more: in place of one of the same owner, or
/// before the first whose owner is greater.
pub open spec fn placed(list: Seq<SnapshotView>, one: SnapshotView) -> Seq<SnapshotView>
    decreases list.len(),
{
    if list.len() == 0 {
        seq![one]
    } else if list[0].owner == one.owner {
        seq![one] + list.drop_first()
    } else if owner_less(one.owner, list[0].owner) {
        seq![one] + list
    } else {
        seq![list[0]] + placed(list.drop_first(), one)
    }
}

/// Snapshots in the order of their owners; of two of one owner, the later.
pub open spec fn ordered(list: Seq<SnapshotView>) -> Seq<SnapshotView>
    decreases list.len(),
{
    if list.len() == 0 {
        Seq::empty()
    } else {
        placed(ordered(list.drop_last()), list.last())
    }
}

/// The records of some snapshots, in the order of the snapshots.
pub open spec fn flat(list: Seq<SnapshotView>) -> Seq<ItemView>
    decreases list.len(),
{
    if list.len() == 0 {
        Seq::empty()
    } else {
        flat(list.drop_last()) + list.last().items
    }
}

/// Whether a record with an identity is among some.
pub open spec fn has_id(items: Seq<ItemView>, id: Seq<char>) -> bool {
    exists|i: int| 0 <= i < items.len() && (#[trigger] items[i]).id == id
}

/// Whether an owned record with an identity is among some.
pub open spec fn is_managed(items: Seq<ItemView>, id: Seq<char>) -> bool {
    exists|i: int| 0 <= i < items.len() && (#[trigger] items[i]).id == id && items[i].managed
}

/// The first record with an identity.
pub open spec fn first_with(items: Seq<ItemView>, id: Seq<char>) -> Option<RecordTree>
    decreases items.len(),
{
    if items.len() == 0 {
        None
    } else if items[0].id == id {
        Some(items[0].record)
    } else {
        first_with(items.drop_first(), id)
    }
}

/// The last owned record with an identity.
pub open spec fn last_managed(items: Seq<ItemView>, id: Seq<char>) -> Option<RecordTree>
    decreases items.len(),
{
    if items.len() == 0 {
        None
    } else if items.last().id == id && items.last().managed {
        Some(items.last().record)
    } else {
        last_managed(items.drop_last(), id)
    }
}

/// Whether some rows say that there is a canonical row for an identity.
pub open spec fn row_exists(rows: Seq<CanonicalRow>, id: Seq<char>) -> bool {
    exists|i: int| 0 <= i < rows.len() && (#[trigger] rows[i]).identity@ == id && rows[i].exists
}

/// Whether some rows say that the canonical row for an identity is unedited.
pub open spec fn row_matches(rows: Seq<CanonicalRow>, id: Seq<char>) -> bool {
    exists|i: int| 0 <= i < rows.len() && (#[trigger] rows[i]).identity@ == id && rows[i].matches
}

fn find_exists(rows: &Vec<CanonicalRow>, id: &str) -> (r: bool)
    ensures
        r == row_exists(rows@, id@),
{
    let mut i: usize = 0;
    while i < rows.len()
        invariant
            i <= rows.len(),
            forall|j: int|
                0 <= j < i ==> !((#[trigger] rows@[j]).identity@ == id@ && rows@[j].exists),
        decreases rows.len() - i,
    {
        if rows[i].exists && same_text(rows[i].identity.as_str(), id) {
            return true;
        }
        i = i + 1;
    }
    false
}

fn find_matches(rows: &Vec<CanonicalRow>, id: &str) -> (r: bool)
    ensures
        r == row_matches(rows@, id@),
{
    let mut i: usize = 0;
    while i < rows.len()
        invariant
            i <= rows.len(),
            forall|j: int|
                0 <= j < i ==> !((#[trigger] rows@[j]).identity@ == id@ && rows@[j].matches),
        decreases rows.len() - i,
    {
        if rows[i].matches && same_text(rows[i].identity.as_str(), id) {
            return true;
        }
        i = i + 1;
    }
    false
}

/// A record of a snapshot with its identity at hand.
struct PlanItem {
    id: String,
    record: EvidenceRecord,
    managed: bool,
}

/// The view of a [`PlanItem`].
spec fn plan_view(item: PlanItem) -> ItemView {
    ItemView { id: item.id@, record: item.record@, managed: item.managed }
}

/// The views of some [`PlanItem`]s.
spec fn plan_views(items: Seq<PlanItem>) -> Seq<ItemView> {
    items.map_values(|item: PlanItem| plan_view(item))
}

/// A snapshot whose records have their identities at hand.
struct PlanSnapshot {
    owner: SnapshotOwner,
    kinds: Vec<EvidenceKind>,
    items: Vec<PlanItem>,
}

/// The view of a [`PlanSnapshot`].
spec fn plan_snapshot_view(s: PlanSnapshot) -> SnapshotView {
    SnapshotView { owner: s.owner@, kinds: s.kinds@, items: plan_views(s.items@) }
}

/// The views of some [`PlanSnapshot`]s.
spec fn plan_snapshot_views(list: Seq<PlanSnapshot>) -> Seq<SnapshotView> {
    list.map_values(|s: PlanSnapshot| plan_snapshot_view(s))
}

fn copied_kinds(kinds: &Vec<EvidenceKind>) -> (r: Vec<EvidenceKind>)
    ensures
        r@ == kinds@,
{
    let mut out: Vec<EvidenceKind> = Vec::new();
    let mut i: usize = 0;
    while i < kinds.len()
        invariant
            i <= kinds.len(),
            out@ == kinds@.take(i as int),
        decreases kinds.len() - i,
    {
        out.push(kinds[i]);
        i = i + 1;
    }
    assert(kinds@.take(kinds@.len() as int) =~= kinds@);
    out
}

fn plan_snapshot(owned: &OwnedSnapshot) -> (r: PlanSnapshot)
    ensures
        plan_snapshot_view(r) == snapshot_view(*owned),
{
    let records = &owned.snapshot.records;
    let mut items: Vec<PlanItem> = Vec::new();
    let mut i: usize = 0;
    while i < records.len()
        invariant
            i <= records.len(),
            *records == owned.snapshot.records,
            items.len() == i,
            forall|j: int| 0 <= j < i ==> plan_view(#[trigger] items@[j]) == item_view(records@[j]),
        decreases records.len() - i,
    {
        items.push(
            PlanItem {
                id: records[i].record.identity(),
                record: records[i].record.copied(),
                managed: records[i].managed,
            },
        );
        i = i + 1;
    }
    assert(plan_views(items@) =~= item_views(records@));
    PlanSnapshot {
        owner: SnapshotOwner {
            location: owned.owner.location,
            connector_id: owned.owner.connector_id.clone(),
            connector_instance: owned.owner.connector_instance.clone(),
        },
        kinds: copied_kinds(&owned.snapshot.covered_kinds),
        items,
    }
}

fn place(list: &mut Vec<PlanSnapshot>, one: PlanSnapshot)
    ensures
        plan_snapshot_views(final(list)@) == placed(
            plan_snapshot_views(old(list)@),
            plan_snapshot_view(one),
        ),
{
    let ghost all = plan_snapshot_views(list@);
    let ghost put = plan_snapshot_view(one);
    let mut i: usize = 0;
    assert(all.skip(0) =~= all);
    assert(all.take(0) + placed(all, put) =~= placed(all, put));
    while i < list.len() && !same_owner(&list[i].owner, &one.owner) && !less_owner(
        &one.owner,
        &list[i].owner,
    )
        invariant
            i <= list.len(),
            list@ == old(list)@,
            all == plan_snapshot_views(list@),
            put == plan_snapshot_view(one),
            placed(all, put) == all.take(i as int) + placed(all.skip(i as int), put),
        decreases list.len() - i,
    {
        proof {
            let rest = all.skip(i as int);
            assert(rest[0] == plan_snapshot_view(list@[i as int]));
            assert(rest.drop_first() =~= all.skip(i + 1));
            assert(all.take(i as int) + (seq![rest[0]] + placed(all.skip(i + 1), put))
                =~= all.take(i + 1) + placed(all.skip(i + 1), put));
        }
        i = i + 1;
    }
    if i < list.len() && same_owner(&list[i].owner, &one.owner) {
        list.set(i, one);
        proof {
            let rest = all.skip(i as int);
            assert(rest[0] == plan_snapshot_view(old(list)@[i as int]));
            assert(plan_snapshot_views(list@) =~= all.take(i as int) + (seq![put]
                + rest.drop_first()));
        }
    } else {
        list.insert(i, one);
        proof {
            let rest = all.skip(i as int);
            if i < all.len() {
                assert(rest[0] == plan_snapshot_view(old(list)@[i as int]));
                assert(placed(rest, put) == seq![put] + rest);
            } else {
                assert(placed(rest, put) =~= seq![put] + rest);
            }
            assert(plan_snapshot_views(list@) =~= all.take(i as int) + (seq![put] + rest));
        }
    }
}

fn order_snapshots(observed: &Vec<OwnedSnapshot>) -> (r: Vec<PlanSnapshot>)
    ensures
        plan_snapshot_views(r@) == ordered(snapshot_views(observed@)),
{
    let ghost all = snapshot_views(observed@);
    let mut out: Vec<PlanSnapshot> = Vec::new();
    let mut i: usize = 0;
    assert(plan_snapshot_views(out@) =~= ordered(all.take(0)));
    while i < observed.len()
        invariant
            i <= observed.len(),
            all == snapshot_views(observed@),
            plan_snapshot_views(out@) == ordered(all.take(i as int)),
        decreases observed.len() - i,
    {
        assert(all.take(i + 1).drop_last() =~= all.take(i as int));
        assert(all.take(i + 1).last() == snapshot_view(observed@[i as int]));
        place(&mut out, plan_snapshot(&observed[i]));
        i = i + 1;
    }
    assert(all.take(observed@.len() as int) =~= all);
    out
}

fn flatten(list: &Vec<PlanSnapshot>) -> (r: Vec<PlanItem>)
    ensures
        plan_views(r@) == flat(plan_snapshot_views(list@)),
{
    let ghost all = plan_snapshot_views(list@);
    let mut out: Vec<PlanItem> = Vec::new();
    let mut i: usize = 0;
    assert(plan_views(out@) =~= flat(all.take(0)));
    while i < list.len()
        invariant
            i <= list.len(),
            all == plan_snapshot_views(list@),
            plan_views(out@) == flat(all.take(i as int)),
        decreases list.len() - i,
    {
        assert(all.take(i + 1).drop_last() =~= all.take(i as int));
        assert(all.take(i + 1).last() == plan_snapshot_view(list@[i as int]));
        let items = &list[i].items;
        let ghost before = plan_views(out@);
        let ghost tail = plan_views(items@);
        let mut j: usize = 0;
        assert(before + tail.take(0) =~= before);
        while j < items.len()
            invariant
                j <= items.len(),
                tail == plan_views(items@),
                plan_views(out@) == before + tail.take(j as int),
            decreases items.len() - j,
        {
            let ghost now = plan_views(out@);
            out.push(
                PlanItem {
                    id: items[j].id.clone(),
                    record: items[j].record.copied(),
                    managed: items[j].managed,
                },
            );
            proof {
                assert(plan_views(out@) =~= now.push(plan_view(items@[j as int])));
                assert(before + tail.take(j + 1) =~= (before + tail.take(j as int)).push(
                    tail[j as int],
                ));
            }
            j = j + 1;
        }
        assert(tail.take(items@.len() as int) =~= tail);
        i = i + 1;
    }
    assert(all.take(list@.len() as int) =~= all);
    out
}

/// Some records, none of which is owned whose identity is revoked.
pub open spec fn revoked_items(items: Seq<ItemView>, revoked: Seq<Seq<char>>) -> Seq<ItemView> {
    items.map_values(
        |item: ItemView|
            ItemView { managed: item.managed && !revoked.contains(item.id), ..item },
    )
}

/// Some snapshots, in which no revoked identity is owned.
pub open spec fn revoked_snapshots(
    list: Seq<SnapshotView>,
    revoked: Seq<Seq<char>>,
) -> Seq<SnapshotView> {
    list.map_values(
        |s: SnapshotView| SnapshotView { items: revoked_items(s.items, revoked), ..s },
    )
}

fn revoke_items(items: &Vec<PlanItem>, revoked: &Vec<String>) -> (r: Vec<PlanItem>)
    ensures
        plan_views(r@) == revoked_items(plan_views(items@), text::views(revoked@)),
{
    let ghost words = text::views(revoked@);
    let ghost all = plan_views(items@);
    let mut out: Vec<PlanItem> = Vec::new();
    let mut i: usize = 0;
    while i < items.len()
        invariant
            i <= items.len(),
            words == text::views(revoked@),
            all == plan_views(items@),
            out.len() == i,
            forall|j: int|
                0 <= j < i ==> plan_view(#[trigger] out@[j]) == revoked_items(all, words)[j],
        decreases items.len() - i,
    {
        assert(all[i as int] == plan_view(items@[i as int]));
        let managed = items[i].managed && !text::contains_text(revoked, items[i].id.as_str());
        out.push(
            PlanItem { id: items[i].id.clone(), record: items[i].record.copied(), managed },
        );
        i = i + 1;
    }
    assert(plan_views(out@) =~= revoked_items(all, words));
    out
}

fn revoke_snapshots(list: &Vec<PlanSnapshot>, revoked: &Vec<String>) -> (r: Vec<PlanSnapshot>)
    ensures
        plan_snapshot_views(r@) == revoked_snapshots(
            plan_snapshot_views(list@),
            text::views(revoked@),
        ),
{
    let ghost words = text::views(revoked@);
    let ghost all = plan_snapshot_views(list@);
    let mut out: Vec<PlanSnapshot> = Vec::new();
    let mut i: usize = 0;
    while i < list.len()
        invariant
            i <= list.len(),
            words == text::views(revoked@),
            all == plan_snapshot_views(list@),
            out.len() == i,
            forall|j: int|
                0 <= j < i ==> plan_snapshot_view(#[trigger] out@[j]) == revoked_snapshots(
                    all,
                    words,
                )[j],
        decreases list.len() - i,
    {
        assert(all[i as int] == plan_snapshot_view(list@[i as int]));
        out.push(
            PlanSnapshot {
                owner: SnapshotOwner {
                    location: list[i].owner.location,
                    connector_id: list[i].owner.connector_id.clone(),
                    connector_instance: list[i].owner.connector_instance.clone(),
                },
                kinds: copied_kinds(&list[i].kinds),
                items: revoke_items(&list[i].items, revoked),
            },
        );
        i = i + 1;
    }
    assert(plan_snapshot_views(out@) =~= revoked_snapshots(all, words));
    out
}

/// Whether a local snapshot covers nothing: its parser does not prove which rows
/// it owns.
pub open spec fn is_ambiguous(list: Seq<SnapshotView>) -> bool {
    exists|i: int|
        0 <= i < list.len() && (#[trigger] list[i]).owner.location == SessionLocation::Local
            && list[i].kinds.len() == 0
}

fn local_is_ambiguous(list: &Vec<OwnedSnapshot>) -> (r: bool)
    ensures
        r == is_ambiguous(snapshot_views(list@)),
{
    let ghost all = snapshot_views(list@);
    let mut i: usize = 0;
    while i < list.len()
        invariant
            i <= list.len(),
            all == snapshot_views(list@),
            forall|j: int|
                0 <= j < i ==> !((#[trigger] all[j]).owner.location == SessionLocation::Local
                    && all[j].kinds.len() == 0),
        decreases list.len() - i,
    {
        assert(all[i as int] == snapshot_view(list@[i as int]));
        if list[i].owner.location == SessionLocation::Local && list[i].snapshot.covered_kinds.len()
            == 0 {
            return true;
        }
        i = i + 1;
    }
    false
}

fn sorted_ids(items: &Vec<PlanItem>) -> (r: Vec<String>)
    ensures
        order::increasing(text::views(r@)),
        forall|id: Seq<char>| #[trigger]
            text::views(r@).contains(id) == has_id(plan_views(items@), id),
{
    let ghost all = plan_views(items@);
    let mut out: Vec<String> = Vec::new();
    let mut i: usize = 0;
    while i < items.len()
        invariant
            i <= items.len(),
            all == plan_views(items@),
            order::increasing(text::views(out@)),
            forall|id: Seq<char>| #[trigger]
                text::views(out@).contains(id) == has_id(all.take(i as int), id),
        decreases items.len() - i,
    {
        let ghost before = text::views(out@);
        order::insert_text(&mut out, items[i].id.as_str());
        proof {
            let now = all.take(i as int);
            let next = all.take(i + 1);
            assert(all[i as int] == plan_view(items@[i as int]));
            assert forall|id: Seq<char>| #[trigger]
                text::views(out@).contains(id) == has_id(next, id) by {
                assert(before.contains(id) == has_id(now, id));
                if has_id(now, id) {
                    let k = choose|k: int| 0 <= k < now.len() && (#[trigger] now[k]).id == id;
                    assert(next[k].id == id);
                }
                if has_id(next, id) {
                    let k = choose|k: int| 0 <= k < next.len() && (#[trigger] next[k]).id == id;
                    if k < i {
                        assert(now[k].id == id);
                    }
                }
                if id == items@[i as int].id@ {
                    assert(next[i as int].id == id);
                }
            }
        }
        i = i + 1;
    }
    assert(all.take(items@.len() as int) =~= all);
    out
}

/// Whether a canonical row must be protected from this reconciliation: it is
/// there although nobody can prove to own it, or it was edited since.
pub open spec fn must_protect(
    items: Seq<ItemView>,
    ambiguous: bool,
    rows: Seq<CanonicalRow>,
    id: Seq<char>,
) -> bool {
    has_id(items, id) && ((ambiguous && row_exists(rows, id)) || !row_matches(rows, id))
}

fn ids_to_protect(items: &Vec<PlanItem>, ambiguous: bool, rows: &Vec<CanonicalRow>) -> (r: Vec<
    String,
>)
    ensures
        order::increasing(text::views(r@)),
        forall|id: Seq<char>| #[trigger]
            text::views(r@).contains(id) == must_protect(
                plan_views(items@),
                ambiguous,
                rows@,
                id,
            ),
{
    let ids = sorted_ids(items);
    let ghost all = text::views(ids@);
    let ghost views = plan_views(items@);
    let mut out: Vec<String> = Vec::new();
    let mut i: usize = 0;
    while i < ids.len()
        invariant
            i <= ids.len(),
            all == text::views(ids@),
            views == plan_views(items@),
            forall|id: Seq<char>| #[trigger] all.contains(id) == has_id(views, id),
            order::increasing(text::views(out@)),
            forall|id: Seq<char>| #[trigger]
                text::views(out@).contains(id) == (all.take(i as int).contains(id) && must_protect(
                    views,
                    ambiguous,
                    rows@,
                    id,
                )),
        decreases ids.len() - i,
    {
        let ghost before = text::views(out@);
        let id = ids[i].as_str();
        assert(all[i as int] == id@);
        assert(all.contains(id@));
        let protect = (ambiguous && find_exists(rows, id)) || !find_matches(rows, id);
        if protect {
            order::insert_text(&mut out, id);
        }
        proof {
            lemma_take_contains(all, i as int);
            assert forall|t: Seq<char>| #[trigger]
                text::views(out@).contains(t) == (all.take(i + 1).contains(t) && must_protect(
                    views,
                    ambiguous,
                    rows@,
                    t,
                )) by {
                assert(before.contains(t) == (all.take(i as int).contains(t) && must_protect(
                    views,
                    ambiguous,
                    rows@,
                    t,
                )));
                assert(all.take(i + 1).contains(t) == (all.take(i as int).contains(t) || t
                    == all[i as int]));
            }
        }
        i = i + 1;
    }
    proof {
        assert(all.take(all.len() as int) =~= all);
        assert forall|id: Seq<char>| #[trigger]
            text::views(out@).contains(id) == must_protect(views, ambiguous, rows@, id) by {
            assert(all.contains(id) == has_id(views, id));
        }
    }
    out
}

proof fn lemma_take_contains(all: Seq<Seq<char>>, i: int)
    requires
        0 <= i < all.len(),
    ensures
        forall|t: Seq<char>| #[trigger]
            all.take(i + 1).contains(t) == (all.take(i).contains(t) || t == all[i]),
{
    assert forall|t: Seq<char>| #[trigger]
        all.take(i + 1).contains(t) == (all.take(i).contains(t) || t == all[i]) by {
        let next = all.take(i + 1);
        let now = all.take(i);
        if next.contains(t) {
            let k = choose|k: int| 0 <= k < next.len() && next[k] == t;
            if k < i {
                assert(now[k] == t);
            }
        }
        if now.contains(t) {
            let k = choose|k: int| 0 <= k < now.len() && now[k] == t;
            assert(next[k] == t);
        }
        if t == all[i] {
            assert(all.take(i + 1)[i] == t);
        }
    }
}

fn find_first(items: &Vec<PlanItem>, id: &str) -> (r: Option<usize>)
    ensures
        match r {
            Some(i) => i < items@.len() && first_with(plan_views(items@), id@) == Some(
                items@[i as int].record@,
            ) && has_id(plan_views(items@), id@),
            None => first_with(plan_views(items@), id@) is None && !has_id(
                plan_views(items@),
                id@,
            ),
        },
{
    let ghost all = plan_views(items@);
    let mut i: usize = 0;
    assert(all.skip(0) =~= all);
    while i < items.len()
        invariant
            i <= items.len(),
            all == plan_views(items@),
            first_with(all, id@) == first_with(all.skip(i as int), id@),
            forall|j: int| 0 <= j < i ==> (#[trigger] all[j]).id != id@,
        decreases items.len() - i,
    {
        assert(all[i as int] == plan_view(items@[i as int]));
        assert(all.skip(i as int)[0] == all[i as int]);
        if same_text(items[i].id.as_str(), id) {
            return Some(i);
        }
        assert(all.skip(i as int).drop_first() =~= all.skip(i + 1));
        i = i + 1;
    }
    None
}

fn find_last_managed(items: &Vec<PlanItem>, id: &str) -> (r: Option<usize>)
    ensures
        match r {
            Some(i) => i < items@.len() && last_managed(plan_views(items@), id@) == Some(
                items@[i as int].record@,
            ) && is_managed(plan_views(items@), id@),
            None => last_managed(plan_views(items@), id@) is None && !is_managed(
                plan_views(items@),
                id@,
            ),
        },
{
    let ghost all = plan_views(items@);
    let mut n: usize = items.len();
    assert(all.take(n as int) =~= all);
    while n > 0
        invariant
            n <= items.len(),
            all == plan_views(items@),
            last_managed(all, id@) == last_managed(all.take(n as int), id@),
            forall|j: int|
                n <= j < all.len() ==> !((#[trigger] all[j]).id == id@ && all[j].managed),
        decreases n,
    {
        assert(all.take(n as int).last() == plan_view(items@[n - 1]));
        assert(all[n - 1] == plan_view(items@[n - 1]));
        assert(all.take(n as int).drop_last() =~= all.take(n - 1));
        if items[n - 1].managed && same_text(items[n - 1].id.as_str(), id) {
            return Some(n - 1);
        }
        n = n - 1;
    }
    None
}

/// A list of records sorted by identity, with one more behind its equals.
pub open spec fn inserted(list: Seq<ItemView>, item: ItemView) -> Seq<ItemView>
    decreases list.len(),
{
    if list.len() == 0 {
        seq![item]
    } else if order::text_less(item.id, list.last().id) {
        inserted(list.drop_last(), item).push(list.last())
    } else {
        list.push(item)
    }
}

/// Some records sorted by identity; equals keep their order.
pub open spec fn sorted_items(list: Seq<ItemView>) -> Seq<ItemView>
    decreases list.len(),
{
    if list.len() == 0 {
        Seq::empty()
    } else {
        inserted(sorted_items(list.drop_last()), list.last())
    }
}

fn insert_item(list: &mut Vec<PlanItem>, item: PlanItem)
    ensures
        plan_views(final(list)@) == inserted(plan_views(old(list)@), plan_view(item)),
{
    let ghost all = plan_views(list@);
    let ghost put = plan_view(item);
    let mut n: usize = list.len();
    assert(all.take(n as int) =~= all);
    assert(all.skip(n as int) =~= Seq::<ItemView>::empty());
    assert(inserted(all, put) =~= inserted(all.take(n as int), put) + all.skip(n as int));
    while n > 0 && order::less(item.id.as_str(), list[n - 1].id.as_str())
        invariant
            n <= list.len(),
            list@ == old(list)@,
            all == plan_views(list@),
            put == plan_view(item),
            inserted(all, put) == inserted(all.take(n as int), put) + all.skip(n as int),
        decreases n,
    {
        proof {
            let now = all.take(n as int);
            assert(now.last() == plan_view(list@[n - 1]));
            assert(now.drop_last() =~= all.take(n - 1));
            assert(inserted(all.take(n - 1), put).push(all[n - 1]) + all.skip(n as int)
                =~= inserted(all.take(n - 1), put) + all.skip(n - 1));
        }
        n = n - 1;
    }
    list.insert(n, item);
    proof {
        let now = all.take(n as int);
        if n > 0 {
            assert(now.last() == plan_view(old(list)@[n - 1]));
        }
        assert(inserted(now, put) =~= now.push(put));
        assert(plan_views(list@) =~= now.push(put) + all.skip(n as int));
    }
}

fn sort_items(items: Vec<PlanItem>) -> (r: Vec<PlanItem>)
    ensures
        plan_views(r@) == sorted_items(plan_views(items@)),
{
    let ghost all = plan_views(items@);
    let mut out: Vec<PlanItem> = Vec::new();
    let mut i: usize = 0;
    assert(plan_views(out@) =~= sorted_items(all.take(0)));
    while i < items.len()
        invariant
            i <= items.len(),
            all == plan_views(items@),
            plan_views(out@) == sorted_items(all.take(i as int)),
        decreases items.len() - i,
    {
        assert(all.take(i + 1).drop_last() =~= all.take(i as int));
        assert(all.take(i + 1).last() == plan_view(items@[i as int]));
        insert_item(
            &mut out,
            PlanItem {
                id: items[i].id.clone(),
                record: items[i].record.copied(),
                managed: items[i].managed,
            },
        );
        i = i + 1;
    }
    assert(all.take(items@.len() as int) =~= all);
    out
}

/// Sorting keeps every record and puts identities in order.
pub proof fn law_sorted_items(list: Seq<ItemView>)
    ensures
        sorted_items(list).to_multiset() == list.to_multiset(),
        forall|i: int, j: int|
            0 <= i < j < sorted_items(list).len() ==> !order::text_less(
                (#[trigger] sorted_items(list)[j]).id,
                (#[trigger] sorted_items(list)[i]).id,
            ),
    decreases list.len(),
{
    broadcast use vstd::seq_lib::group_to_multiset_ensures;

    if list.len() > 0 {
        let before = sorted_items(list.drop_last());
        law_sorted_items(list.drop_last());
        lemma_inserted(before, list.last());
        assert(list =~= list.drop_last().push(list.last()));
    }
}

proof fn lemma_inserted(list: Seq<ItemView>, item: ItemView)
    requires
        forall|i: int, j: int|
            0 <= i < j < list.len() ==> !order::text_less(
                (#[trigger] list[j]).id,
                (#[trigger] list[i]).id,
            ),
    ensures
        inserted(list, item).to_multiset() == list.to_multiset().insert(item),
        forall|i: int, j: int|
            0 <= i < j < inserted(list, item).len() ==> !order::text_less(
                (#[trigger] inserted(list, item)[j]).id,
                (#[trigger] inserted(list, item)[i]).id,
            ),
        forall|i: int|
            0 <= i < inserted(list, item).len() ==> (#[trigger] inserted(list, item)[i]) == item
                || list.contains(inserted(list, item)[i]),
    decreases list.len(),
{
    broadcast use vstd::seq_lib::group_to_multiset_ensures;

    let after = inserted(list, item);
    if list.len() == 0 {
        assert(after =~= list.push(item));
    } else if order::text_less(item.id, list.last().id) {
        let rest = list.drop_last();
        let last = list.last();
        assert forall|i: int, j: int| 0 <= i < j < rest.len() implies !order::text_less(
            (#[trigger] rest[j]).id,
            (#[trigger] rest[i]).id,
        ) by {
            assert(rest[i] == list[i] && rest[j] == list[j]);
        }
        lemma_inserted(rest, item);
        let head = inserted(rest, item);
        assert(list =~= rest.push(last));
        assert(after =~= head.push(last));
        assert(after.to_multiset() =~= list.to_multiset().insert(item));
        assert forall|i: int, j: int| 0 <= i < j < after.len() implies !order::text_less(
            (#[trigger] after[j]).id,
            (#[trigger] after[i]).id,
        ) by {
            if j < head.len() {
                assert(after[i] == head[i] && after[j] == head[j]);
            } else {
                assert(after[j] == last && after[i] == head[i]);
                if head[i] == item {
                    if order::text_less(last.id, item.id) {
                        order::lemma_text_less_transitive(item.id, last.id, item.id);
                        order::lemma_text_less_irreflexive(item.id);
                    }
                } else {
                    let k = choose|k: int| 0 <= k < rest.len() && rest[k] == head[i];
                    assert(list[k] == head[i]);
                    assert(list[list.len() - 1] == last);
                }
            }
        }
        assert forall|i: int| 0 <= i < after.len() implies (#[trigger] after[i]) == item
            || list.contains(after[i]) by {
            if i < head.len() {
                assert(after[i] == head[i]);
                if head[i] != item {
                    let k = choose|k: int| 0 <= k < rest.len() && rest[k] == head[i];
                    assert(list[k] == head[i]);
                }
            } else {
                assert(list[list.len() - 1] == after[i]);
            }
        }
    } else {
        let last = list.last();
        assert(after =~= list.push(item));
        assert forall|i: int, j: int| 0 <= i < j < after.len() implies !order::text_less(
            (#[trigger] after[j]).id,
            (#[trigger] after[i]).id,
        ) by {
            if j < list.len() {
                assert(after[i] == list[i] && after[j] == list[j]);
            } else {
                assert(after[j] == item && after[i] == list[i]);
                if order::text_less(item.id, list[i].id) {
                    if i < list.len() - 1 {
                        assert(!order::text_less(list[list.len() - 1].id, list[i].id));
                        order::lemma_text_less_total(list[i].id, last.id);
                        if order::text_less(list[i].id, last.id) {
                            order::lemma_text_less_transitive(item.id, list[i].id, last.id);
                        }
                    }
                }
            }
        }
        assert forall|i: int| 0 <= i < after.len() implies (#[trigger] after[i]) == item
            || list.contains(after[i]) by {
            if i < list.len() {
                assert(list[i] == after[i]);
            }
        }
    }
}

/// The kind with a rank.
pub open spec fn kind_at(rank: int) -> EvidenceKind {
    if rank == 0 {
        EvidenceKind::History
    } else if rank == 1 {
        EvidenceKind::SessionEvent
    } else if rank == 2 {
        EvidenceKind::ToolCall
    } else if rank == 3 {
        EvidenceKind::FileEdit
    } else if rank == 4 {
        EvidenceKind::Relationship
    } else if rank == 5 {
        EvidenceKind::CommitLink
    } else {
        EvidenceKind::SessionMarker
    }
}

/// The kinds of either of two lists whose rank is below `n`, in order, each once.
pub open spec fn kinds_of_either(a: Seq<EvidenceKind>, b: Seq<EvidenceKind>, n: int) -> Seq<
    EvidenceKind,
>
    decreases n,
{
    if n <= 0 {
        Seq::empty()
    } else {
        let rest = kinds_of_either(a, b, n - 1);
        if a.contains(kind_at(n - 1)) || b.contains(kind_at(n - 1)) {
            rest.push(kind_at(n - 1))
        } else {
            rest
        }
    }
}

fn has_kind(kinds: &Vec<EvidenceKind>, kind: EvidenceKind) -> (r: bool)
    ensures
        r == kinds@.contains(kind),
{
    let mut i: usize = 0;
    while i < kinds.len()
        invariant
            i <= kinds.len(),
            forall|j: int| 0 <= j < i ==> kinds@[j] != kind,
        decreases kinds.len() - i,
    {
        if kinds[i] == kind {
            return true;
        }
        i = i + 1;
    }
    false
}

fn merge_kinds(a: &Vec<EvidenceKind>, b: &Vec<EvidenceKind>) -> (r: Vec<EvidenceKind>)
    ensures
        r@ == kinds_of_either(a@, b@, 7),
{
    let kinds = [
        EvidenceKind::History,
        EvidenceKind::SessionEvent,
        EvidenceKind::ToolCall,
        EvidenceKind::FileEdit,
        EvidenceKind::Relationship,
        EvidenceKind::CommitLink,
        EvidenceKind::SessionMarker,
    ];
    let mut out: Vec<EvidenceKind> = Vec::new();
    let mut i: usize = 0;
    while i < 7
        invariant
            i <= 7,
            kinds@.len() == 7,
            forall|j: int| 0 <= j < 7 ==> kinds@[j] == kind_at(j),
            out@ == kinds_of_either(a@, b@, i as int),
        decreases 7 - i,
    {
        let kind = kinds[i];
        if has_kind(a, kind) || has_kind(b, kind) {
            out.push(kind);
        }
        i = i + 1;
    }
    out
}

/// The merged kinds are those of either list.
pub proof fn law_merged_kinds(a: Seq<EvidenceKind>, b: Seq<EvidenceKind>, kind: EvidenceKind)
    ensures
        kinds_of_either(a, b, 7).contains(kind) == (a.contains(kind) || b.contains(kind)),
{
    lemma_merged_kinds(a, b, 7, kind);
}

proof fn lemma_merged_kinds(
    a: Seq<EvidenceKind>,
    b: Seq<EvidenceKind>,
    n: int,
    kind: EvidenceKind,
)
    requires
        0 <= n <= 7,
    ensures
        kinds_of_either(a, b, n).contains(kind) == ((a.contains(kind) || b.contains(kind))
            && source_evidence::kind_rank(kind) < n),
    decreases n,
{
    if n > 0 {
        lemma_merged_kinds(a, b, n - 1, kind);
        let rest = kinds_of_either(a, b, n - 1);
        let after = kinds_of_either(a, b, n);
        if rest.contains(kind) {
            let k = choose|k: int| 0 <= k < rest.len() && rest[k] == kind;
            assert(after[k] == kind);
        }
        if after.contains(kind) {
            let k = choose|k: int| 0 <= k < after.len() && after[k] == kind;
            if k < rest.len() {
                assert(rest[k] == kind);
            } else {
                assert(kind == kind_at(n - 1));
            }
        }
        if source_evidence::kind_rank(kind) == n - 1 && (a.contains(kind) || b.contains(kind)) {
            assert(kind == kind_at(n - 1));
            assert(after[after.len() - 1] == kind);
        }
    }
}

/// A canonical row to write or to remove.
#[derive(Debug)]
pub struct PlannedRow {
    pub identity: String,
    pub record: EvidenceRecord,
}

/// The identities of some planned rows.
pub open spec fn row_ids(rows: Seq<PlannedRow>) -> Seq<Seq<char>> {
    rows.map_values(|row: PlannedRow| row.identity@)
}

/// Whether some planned rows are exactly those that are wanted, each once and in
/// the order of identities.
pub open spec fn rows_are(
    rows: Seq<PlannedRow>,
    wanted: spec_fn(Seq<char>) -> Option<RecordTree>,
) -> bool {
    &&& order::increasing(row_ids(rows))
    &&& forall|id: Seq<char>| #[trigger] row_ids(rows).contains(id) == (wanted(id) is Some)
    &&& forall|i: int|
        0 <= i < rows.len() ==> wanted((#[trigger] rows[i]).identity@) == Some(rows[i].record@)
}

/// The row to remove for an identity: the last owned one, where no snapshot
/// asserts the identity any more.
pub open spec fn removal(before: Seq<ItemView>, after: Seq<ItemView>) -> spec_fn(
    Seq<char>,
) -> Option<RecordTree> {
    |id: Seq<char>|
        if has_id(after, id) {
            None
        } else {
            last_managed(before, id)
        }
}

/// The row to write for an identity: the first asserted one, where any snapshot
/// owns the identity.
pub open spec fn writing(after: Seq<ItemView>) -> spec_fn(Seq<char>) -> Option<RecordTree> {
    |id: Seq<char>|
        if is_managed(after, id) {
            first_with(after, id)
        } else {
            None
        }
}

proof fn lemma_push_contains(list: Seq<Seq<char>>, one: Seq<char>, t: Seq<char>)
    ensures
        list.push(one).contains(t) == (list.contains(t) || t == one),
{
    let after = list.push(one);
    if list.contains(t) {
        let k = choose|k: int| 0 <= k < list.len() && list[k] == t;
        assert(after[k] == t);
    }
    if after.contains(t) {
        let k = choose|k: int| 0 <= k < after.len() && after[k] == t;
        if k < list.len() {
            assert(list[k] == t);
        }
    }
    if t == one {
        assert(after[list.len() as int] == t);
    }
}

proof fn lemma_last_managed_is_there(items: Seq<ItemView>, id: Seq<char>)
    ensures
        last_managed(items, id) is Some ==> has_id(items, id) && is_managed(items, id),
    decreases items.len(),
{
    if items.len() > 0 {
        if items.last().id == id && items.last().managed {
            assert(items[items.len() - 1].id == id);
        } else {
            lemma_last_managed_is_there(items.drop_last(), id);
            if last_managed(items, id) is Some {
                let rest = items.drop_last();
                let k = choose|k: int|
                    0 <= k < rest.len() && (#[trigger] rest[k]).id == id && rest[k].managed;
                assert(items[k].id == id && items[k].managed);
            }
        }
    }
}

fn rows_to_remove(items: &Vec<PlanItem>, after: &Vec<PlanItem>) -> (r: Vec<PlannedRow>)
    ensures
        rows_are(r@, removal(plan_views(items@), plan_views(after@))),
{
    let ids = sorted_ids(items);
    let ghost all = text::views(ids@);
    let ghost wanted = removal(plan_views(items@), plan_views(after@));
    let mut out: Vec<PlannedRow> = Vec::new();
    let mut i: usize = 0;
    while i < ids.len()
        invariant
            i <= ids.len(),
            all == text::views(ids@),
            order::increasing(all),
            wanted == removal(plan_views(items@), plan_views(after@)),
            order::increasing(row_ids(out@)),
            forall|j: int, t: int|
                0 <= j < out@.len() && i <= t < all.len() ==> order::text_less(
                    #[trigger] row_ids(out@)[j],
                    #[trigger] all[t],
                ),
            forall|id: Seq<char>| #[trigger]
                row_ids(out@).contains(id) == (all.take(i as int).contains(id) && wanted(id)
                    is Some),
            forall|j: int|
                0 <= j < out@.len() ==> wanted((#[trigger] out@[j]).identity@) == Some(
                    out@[j].record@,
                ),
        decreases ids.len() - i,
    {
        let ghost earlier = row_ids(out@);
        let id = ids[i].as_str();
        assert(all[i as int] == id@);
        match find_last_managed(items, id) {
            Some(k) => {
                if find_first(after, id).is_none() {
                    out.push(
                        PlannedRow { identity: ids[i].clone(), record: items[k].record.copied() },
                    );
                }
            },
            None => {},
        }
        proof {
            lemma_take_contains(all, i as int);
            if wanted(id@) is Some {
                assert(row_ids(out@) =~= earlier.push(id@));
                assert forall|a: int, b: int| 0 <= a < b < row_ids(out@).len() implies order::text_less(
                    row_ids(out@)[a],
                    row_ids(out@)[b],
                ) by {
                    if b == earlier.len() {
                        assert(row_ids(out@)[a] == earlier[a]);
                        assert(order::text_less(earlier[a], all[i as int]));
                    } else {
                        assert(row_ids(out@)[a] == earlier[a] && row_ids(out@)[b] == earlier[b]);
                    }
                }
                assert forall|j: int, t: int|
                    0 <= j < out@.len() && i + 1 <= t < all.len() implies order::text_less(
                    #[trigger] row_ids(out@)[j],
                    #[trigger] all[t],
                ) by {
                    if j < earlier.len() {
                        assert(row_ids(out@)[j] == earlier[j]);
                    } else {
                        assert(row_ids(out@)[j] == all[i as int]);
                    }
                }
            } else {
                assert(row_ids(out@) =~= earlier);
            }
            assert forall|t: Seq<char>| #[trigger]
                row_ids(out@).contains(t) == (all.take(i + 1).contains(t) && wanted(t) is Some) by {
                assert(earlier.contains(t) == (all.take(i as int).contains(t) && wanted(t) is Some));
                assert(all.take(i + 1).contains(t) == (all.take(i as int).contains(t) || t
                    == all[i as int]));
                if wanted(id@) is Some {
                    lemma_push_contains(earlier, id@, t);
                }
            }
        }
        i = i + 1;
    }
    proof {
        assert(all.take(all.len() as int) =~= all);
        assert forall|id: Seq<char>| #[trigger]
            row_ids(out@).contains(id) == (wanted(id) is Some) by {
            assert(all.contains(id) == has_id(plan_views(items@), id));
            if wanted(id) is Some {
                lemma_last_managed_is_there(plan_views(items@), id);
            }
        }
    }
    out
}

fn rows_to_write(after: &Vec<PlanItem>) -> (r: Vec<PlannedRow>)
    ensures
        rows_are(r@, writing(plan_views(after@))),
{
    let ids = sorted_ids(after);
    let ghost all = text::views(ids@);
    let ghost wanted = writing(plan_views(after@));
    let mut out: Vec<PlannedRow> = Vec::new();
    let mut i: usize = 0;
    while i < ids.len()
        invariant
            i <= ids.len(),
            all == text::views(ids@),
            order::increasing(all),
            wanted == writing(plan_views(after@)),
            order::increasing(row_ids(out@)),
            forall|j: int, t: int|
                0 <= j < out@.len() && i <= t < all.len() ==> order::text_less(
                    #[trigger] row_ids(out@)[j],
                    #[trigger] all[t],
                ),
            forall|id: Seq<char>| #[trigger]
                row_ids(out@).contains(id) == (all.take(i as int).contains(id) && wanted(id)
                    is Some),
            forall|j: int|
                0 <= j < out@.len() ==> wanted((#[trigger] out@[j]).identity@) == Some(
                    out@[j].record@,
                ),
        decreases ids.len() - i,
    {
        let ghost before = row_ids(out@);
        let id = ids[i].as_str();
        assert(all[i as int] == id@);
        if find_last_managed(after, id).is_some() {
            match find_first(after, id) {
                Some(k) => {
                    out.push(
                        PlannedRow { identity: ids[i].clone(), record: after[k].record.copied() },
                    );
                },
                None => {},
            }
        }
        proof {
            lemma_take_contains(all, i as int);
            if wanted(id@) is Some {
                assert(row_ids(out@) =~= before.push(id@));
                assert forall|a: int, b: int| 0 <= a < b < row_ids(out@).len() implies order::text_less(
                    row_ids(out@)[a],
                    row_ids(out@)[b],
                ) by {
                    if b == before.len() {
                        assert(row_ids(out@)[a] == before[a]);
                        assert(order::text_less(before[a], all[i as int]));
                    } else {
                        assert(row_ids(out@)[a] == before[a] && row_ids(out@)[b] == before[b]);
                    }
                }
                assert forall|j: int, t: int|
                    0 <= j < out@.len() && i + 1 <= t < all.len() implies order::text_less(
                    #[trigger] row_ids(out@)[j],
                    #[trigger] all[t],
                ) by {
                    if j < before.len() {
                        assert(row_ids(out@)[j] == before[j]);
                    } else {
                        assert(row_ids(out@)[j] == all[i as int]);
                    }
                }
            } else {
                assert(row_ids(out@) =~= before);
            }
            assert forall|t: Seq<char>| #[trigger]
                row_ids(out@).contains(t) == (all.take(i + 1).contains(t) && wanted(t) is Some) by {
                assert(before.contains(t) == (all.take(i as int).contains(t) && wanted(t) is Some));
                assert(all.take(i + 1).contains(t) == (all.take(i as int).contains(t) || t
                    == all[i as int]));
                if wanted(id@) is Some {
                    lemma_push_contains(before, id@, t);
                }
            }
        }
        i = i + 1;
    }
    proof {
        assert(all.take(all.len() as int) =~= all);
        assert forall|id: Seq<char>| #[trigger]
            row_ids(out@).contains(id) == (wanted(id) is Some) by {
            assert(all.contains(id) == has_id(plan_views(after@), id));
        }
    }
    out
}

/// The snapshot of an owner among some; an empty one where there is none.
pub open spec fn own_of(list: Seq<SnapshotView>, owner: OwnerView) -> SnapshotView
    decreases list.len(),
{
    if list.len() == 0 {
        SnapshotView { owner, kinds: Seq::empty(), items: Seq::empty() }
    } else if list[0].owner == owner {
        list[0]
    } else {
        own_of(list.drop_first(), owner)
    }
}

fn find_own(list: &Vec<PlanSnapshot>, owner: &SnapshotOwner) -> (r: Option<usize>)
    ensures
        match r {
            Some(i) => i < list@.len() && own_of(plan_snapshot_views(list@), owner@)
                == plan_snapshot_view(list@[i as int]),
            None => own_of(plan_snapshot_views(list@), owner@) == (SnapshotView {
                owner: owner@,
                kinds: Seq::empty(),
                items: Seq::empty(),
            }),
        },
{
    let ghost all = plan_snapshot_views(list@);
    let mut i: usize = 0;
    assert(all.skip(0) =~= all);
    while i < list.len()
        invariant
            i <= list.len(),
            all == plan_snapshot_views(list@),
            own_of(all, owner@) == own_of(all.skip(i as int), owner@),
        decreases list.len() - i,
    {
        assert(all.skip(i as int)[0] == plan_snapshot_view(list@[i as int]));
        if same_owner(&list[i].owner, owner) {
            return Some(i);
        }
        assert(all.skip(i as int).drop_first() =~= all.skip(i + 1));
        i = i + 1;
    }
    None
}

/// The records whose kind an acquisition did not cover.
pub open spec fn retained(items: Seq<ItemView>, covered: Seq<EvidenceKind>) -> Seq<ItemView>
    decreases items.len(),
{
    if items.len() == 0 {
        Seq::empty()
    } else {
        let rest = retained(items.drop_last(), covered);
        if covered.contains(items.last().record.kind) {
            rest
        } else {
            rest.push(items.last())
        }
    }
}

/// An acquired record in its connector's snapshot: the connector owns the row
/// where it is not revoked and was owned before, or was not there.
pub open spec fn fresh_item(
    record: RecordTree,
    revoked: Seq<Seq<char>>,
    before: Seq<ItemView>,
    rows: Seq<CanonicalRow>,
) -> ItemView {
    let id = source_evidence::identity_of(record);
    ItemView {
        id,
        record,
        managed: !revoked.contains(id) && (is_managed(before, id) || !row_exists(rows, id)),
    }
}

/// The acquired records in their connector's snapshot.
pub open spec fn fresh(
    records: Seq<RecordTree>,
    revoked: Seq<Seq<char>>,
    before: Seq<ItemView>,
    rows: Seq<CanonicalRow>,
) -> Seq<ItemView> {
    records.map_values(|record: RecordTree| fresh_item(record, revoked, before, rows))
}

/// The records of a connector's snapshot after an acquisition.
pub open spec fn next_items(
    own: Seq<ItemView>,
    covered: Seq<EvidenceKind>,
    records: Seq<RecordTree>,
    revoked: Seq<Seq<char>>,
    before: Seq<ItemView>,
    rows: Seq<CanonicalRow>,
) -> Seq<ItemView> {
    sorted_items(retained(own, covered) + fresh(records, revoked, before, rows))
}

fn build_next(
    own: &Vec<PlanItem>,
    covered: &Vec<EvidenceKind>,
    records: &Vec<EvidenceRecord>,
    revoked: &Vec<String>,
    before: &Vec<PlanItem>,
    rows: &Vec<CanonicalRow>,
) -> (r: Vec<PlanItem>)
    ensures
        plan_views(r@) == next_items(
            plan_views(own@),
            covered@,
            source_evidence::record_views(records@),
            text::views(revoked@),
            plan_views(before@),
            rows@,
        ),
{
    let ghost all = plan_views(own@);
    let mut items: Vec<PlanItem> = Vec::new();
    let mut i: usize = 0;
    assert(plan_views(items@) =~= retained(all.take(0), covered@));
    while i < own.len()
        invariant
            i <= own.len(),
            all == plan_views(own@),
            plan_views(items@) == retained(all.take(i as int), covered@),
        decreases own.len() - i,
    {
        let ghost earlier = plan_views(items@);
        assert(all.take(i + 1).drop_last() =~= all.take(i as int));
        assert(all.take(i + 1).last() == plan_view(own@[i as int]));
        if !has_kind(covered, own[i].record.kind) {
            items.push(
                PlanItem {
                    id: own[i].id.clone(),
                    record: own[i].record.copied(),
                    managed: own[i].managed,
                },
            );
            assert(plan_views(items@) =~= earlier.push(plan_view(own@[i as int])));
        }
        i = i + 1;
    }
    assert(all.take(own@.len() as int) =~= all);
    let ghost kept = plan_views(items@);
    let ghost added = fresh(
        source_evidence::record_views(records@),
        text::views(revoked@),
        plan_views(before@),
        rows@,
    );
    let mut k: usize = 0;
    assert(kept + added.take(0) =~= kept);
    while k < records.len()
        invariant
            k <= records.len(),
            added == fresh(
                source_evidence::record_views(records@),
                text::views(revoked@),
                plan_views(before@),
                rows@,
            ),
            plan_views(items@) == kept + added.take(k as int),
        decreases records.len() - k,
    {
        let ghost earlier = plan_views(items@);
        let id = records[k].identity();
        let managed = !text::contains_text(revoked, id.as_str()) && (find_last_managed(
            before,
            id.as_str(),
        ).is_some() || !find_exists(rows, id.as_str()));
        items.push(PlanItem { id, record: records[k].copied(), managed });
        proof {
            assert(source_evidence::record_views(records@)[k as int] == records@[k as int]@);
            assert(plan_views(items@) =~= earlier.push(added[k as int]));
            assert(kept + added.take(k + 1) =~= (kept + added.take(k as int)).push(
                added[k as int],
            ));
        }
        k = k + 1;
    }
    assert(added.take(records@.len() as int) =~= added);
    sort_items(items)
}

/// Whether two records of snapshots are the same.
pub open spec fn same_item(a: ItemView, b: ItemView) -> bool {
    &&& a.managed == b.managed
    &&& a.record.kind == b.record.kind
    &&& json::json_equal(JsonTree::Object(a.record.payload), JsonTree::Object(b.record.payload))
    &&& a.record.record_id == b.record.record_id
    &&& a.record.revision_id == b.record.revision_id
}

/// Whether two lists of records of snapshots are the same.
pub open spec fn same_items(a: Seq<ItemView>, b: Seq<ItemView>) -> bool {
    a.len() == b.len() && forall|i: int| 0 <= i < a.len() ==> same_item(#[trigger] a[i], b[i])
}

fn items_equal(a: &Vec<PlanItem>, b: &Vec<PlanItem>) -> (r: bool)
    ensures
        r == same_items(plan_views(a@), plan_views(b@)),
{
    let ghost x = plan_views(a@);
    let ghost y = plan_views(b@);
    if a.len() != b.len() {
        return false;
    }
    let mut i: usize = 0;
    while i < a.len()
        invariant
            a.len() == b.len(),
            i <= a.len(),
            x == plan_views(a@),
            y == plan_views(b@),
            forall|j: int| 0 <= j < i ==> same_item(#[trigger] x[j], y[j]),
        decreases a.len() - i,
    {
        assert(x[i as int] == plan_view(a@[i as int]));
        assert(y[i as int] == plan_view(b@[i as int]));
        let same = a[i].managed == b[i].managed && a[i].record.kind == b[i].record.kind
            && json::same_members(&a[i].record.payload, &b[i].record.payload)
            && text::same_opt_text(&a[i].record.record_id, &b[i].record.record_id)
            && text::same_opt_text(&a[i].record.revision_id, &b[i].record.revision_id);
        if !same {
            return false;
        }
        i = i + 1;
    }
    true
}

fn kinds_equal(a: &Vec<EvidenceKind>, b: &Vec<EvidenceKind>) -> (r: bool)
    ensures
        r == (a@ == b@),
{
    if a.len() != b.len() {
        return false;
    }
    let mut i: usize = 0;
    while i < a.len()
        invariant
            a.len() == b.len(),
            i <= a.len(),
            forall|j: int| 0 <= j < i ==> a@[j] == b@[j],
        decreases a.len() - i,
    {
        if a[i] != b[i] {
            return false;
        }
        i = i + 1;
    }
    assert(a@ =~= b@);
    true
}

/// What an acquisition did to its observation.
#[derive(Debug, Clone, Copy, PartialEq, Eq, Structural)]
pub enum IntakeStatus {
    /// It asserts what it asserted before, under the same stamp.
    Unchanged,
    /// It asserts something else than before.
    Updated,
    /// It is the first.
    Hydrated,
}

impl IntakeStatus {
    /// The reported word.
    pub fn as_str(self) -> (r: &'static str)
        ensures
            r@ == match self {
                IntakeStatus::Unchanged => "unchanged"@,
                IntakeStatus::Updated => "updated"@,
                IntakeStatus::Hydrated => "hydrated"@,
            },
    {
        match self {
            IntakeStatus::Unchanged => "unchanged",
            IntakeStatus::Updated => "updated",
            IntakeStatus::Hydrated => "hydrated",
        }
    }
}

/// What an acquisition changes.
#[derive(Debug)]
pub struct Reconciliation {
    /// Identities to protect from this observation from now on.
    pub protect: Vec<String>,
    /// The connector's snapshot from now on.
    pub own: RecordSnapshot,
    pub remove: Vec<PlannedRow>,
    pub write: Vec<PlannedRow>,
    /// Whether the connector's snapshot as a whole covers a full session.
    pub full: bool,
    /// The kinds that this acquisition covered, in order.
    pub coverage: Vec<EvidenceKind>,
    pub status: IntakeStatus,
}

/// Whether some kinds make up a full session.
pub open spec fn covers_session(kinds: Seq<EvidenceKind>) -> bool {
    &&& kinds.contains(EvidenceKind::History)
    &&& kinds.contains(EvidenceKind::SessionEvent)
    &&& kinds.contains(EvidenceKind::ToolCall)
    &&& kinds.contains(EvidenceKind::FileEdit)
    &&& kinds.contains(EvidenceKind::Relationship)
}

/// The state before an acquisition, after the protection of canonical rows: every
/// snapshot in the order of owners, in which no protected row is owned.
pub open spec fn kept_snapshots(
    observed: Seq<SnapshotView>,
    protected: Seq<Seq<char>>,
    protect: Seq<Seq<char>>,
) -> Seq<SnapshotView> {
    revoked_snapshots(ordered(observed), protected + protect)
}

/// The connector's snapshot after an acquisition.
pub open spec fn next_own(
    owner: OwnerView,
    kept: Seq<SnapshotView>,
    revoked: Seq<Seq<char>>,
    covered: Seq<EvidenceKind>,
    records: Seq<RecordTree>,
    rows: Seq<CanonicalRow>,
) -> SnapshotView {
    let own = own_of(kept, owner);
    SnapshotView {
        owner,
        kinds: kinds_of_either(own.kinds, covered, 7),
        items: next_items(own.items, covered, records, revoked, flat(kept), rows),
    }
}

/// What an acquisition did to its observation.
pub open spec fn intake_status(
    own: SnapshotView,
    next: SnapshotView,
    stamp: Seq<char>,
    previous: Option<Option<Seq<char>>>,
) -> IntakeStatus {
    if same_items(next.items, own.items) && next.kinds == own.kinds && previous == Some(
        Some(stamp),
    ) {
        IntakeStatus::Unchanged
    } else if previous is Some {
        IntakeStatus::Updated
    } else {
        IntakeStatus::Hydrated
    }
}

/// The view of the stamp of the last acquisition, where there was one.
pub open spec fn stamp_view(previous: Option<Option<String>>) -> Option<Option<Seq<char>>> {
    match previous {
        Some(stamp) => Some(text::opt_view(stamp)),
        None => None,
    }
}

/// Decides what a validated acquisition changes.
///
/// `observed` are the snapshots of every observation of the session, `protected`
/// the identities that are protected already, `rows` what the canonical tables
/// hold for the identities of the snapshots and of the acquired records, and
/// `previous` the stamp of the connector's last acquisition.
pub fn reconcile(
    key: &ObservationKey,
    evidence: &NormalizedSourceEvidence,
    observed: &Vec<OwnedSnapshot>,
    protected: &Vec<String>,
    rows: &Vec<CanonicalRow>,
    previous: &Option<Option<String>>,
) -> (r: Reconciliation)
    ensures
        ({
            let seen = snapshot_views(observed@);
            let protect = text::views(r.protect@);
            let revoked = text::views(protected@) + protect;
            let kept = kept_snapshots(seen, text::views(protected@), protect);
            let own = own_of(kept, owner_view(*key));
            let next = next_own(
                owner_view(*key),
                kept,
                revoked,
                evidence.covered_kinds@,
                source_evidence::record_views(evidence.records@),
                rows@,
            );
            let after = flat(placed(kept, next));
            &&& order::increasing(protect)
            &&& forall|id: Seq<char>| #[trigger]
                protect.contains(id) == must_protect(
                    flat(ordered(seen)),
                    is_ambiguous(seen),
                    rows@,
                    id,
                )
            &&& r.own.covered_kinds@ == next.kinds
            &&& r.own.records@.len() == next.items.len()
            &&& forall|i: int|
                0 <= i < next.items.len() ==> (#[trigger] r.own.records@[i]).record@
                    == next.items[i].record && r.own.records@[i].managed == next.items[i].managed
            &&& rows_are(r.remove@, removal(flat(kept), after))
            &&& rows_are(r.write@, writing(after))
            &&& r.full == covers_session(next.kinds)
            &&& r.coverage@ == kinds_of_either(
                evidence.covered_kinds@,
                evidence.covered_kinds@,
                7,
            )
            &&& r.status == intake_status(
                own,
                next,
                evidence.source_stamp@,
                stamp_view(*previous),
            )
        }),
{
    let snaps = order_snapshots(observed);
    let items = flatten(&snaps);
    let protect = ids_to_protect(&items, local_is_ambiguous(observed), rows);
    let mut revoked: Vec<String> = Vec::new();
    let ghost first = text::views(protected@);
    let ghost second = text::views(protect@);
    let mut i: usize = 0;
    while i < protected.len()
        invariant
            i <= protected.len(),
            first == text::views(protected@),
            text::views(revoked@) == first.take(i as int),
        decreases protected.len() - i,
    {
        let ghost earlier = text::views(revoked@);
        revoked.push(protected[i].clone());
        assert(text::views(revoked@) =~= earlier.push(first[i as int]));
        i = i + 1;
    }
    assert(first.take(protected@.len() as int) =~= first);
    let mut k: usize = 0;
    assert(first + second.take(0) =~= first);
    while k < protect.len()
        invariant
            k <= protect.len(),
            second == text::views(protect@),
            text::views(revoked@) == first + second.take(k as int),
        decreases protect.len() - k,
    {
        let ghost earlier = text::views(revoked@);
        revoked.push(protect[k].clone());
        assert(text::views(revoked@) =~= earlier.push(second[k as int]));
        assert(first + second.take(k + 1) =~= (first + second.take(k as int)).push(
            second[k as int],
        ));
        k = k + 1;
    }
    assert(second.take(protect@.len() as int) =~= second);
    let mut kept = revoke_snapshots(&snaps, &revoked);
    let before = flatten(&kept);
    let own_owner = owner(key);
    let nothing: Vec<PlanItem> = Vec::new();
    let no_kinds: Vec<EvidenceKind> = Vec::new();
    assert(plan_views(nothing@) =~= Seq::<ItemView>::empty());
    let found = find_own(&kept, &own_owner);
    let (next, kinds, same_as_before) = match found {
        Some(at) => {
            let next = build_next(
                &kept[at].items,
                &evidence.covered_kinds,
                &evidence.records,
                &revoked,
                &before,
                rows,
            );
            let kinds = merge_kinds(&kept[at].kinds, &evidence.covered_kinds);
            let same = items_equal(&next, &kept[at].items) && kinds_equal(&kinds, &kept[at].kinds);
            (next, kinds, same)
        },
        None => {
            let next = build_next(
                &nothing,
                &evidence.covered_kinds,
                &evidence.records,
                &revoked,
                &before,
                rows,
            );
            let kinds = merge_kinds(&no_kinds, &evidence.covered_kinds);
            let same = items_equal(&next, &nothing) && kinds_equal(&kinds, &no_kinds);
            (next, kinds, same)
        },
    };
    let same_stamp = match previous {
        Some(Some(stamp)) => same_text(stamp.as_str(), evidence.source_stamp.as_str()),
        _ => false,
    };
    let status = if same_as_before && same_stamp {
        IntakeStatus::Unchanged
    } else if previous.is_some() {
        IntakeStatus::Updated
    } else {
        IntakeStatus::Hydrated
    };
    let full = has_kind(&kinds, EvidenceKind::History) && has_kind(
        &kinds,
        EvidenceKind::SessionEvent,
    ) && has_kind(&kinds, EvidenceKind::ToolCall) && has_kind(&kinds, EvidenceKind::FileEdit)
        && has_kind(&kinds, EvidenceKind::Relationship);
    let coverage = merge_kinds(&evidence.covered_kinds, &evidence.covered_kinds);
    let mut records: Vec<ManagedRecord> = Vec::new();
    let mut n: usize = 0;
    while n < next.len()
        invariant
            n <= next.len(),
            records.len() == n,
            forall|j: int|
                0 <= j < n ==> (#[trigger] records@[j]).record@ == next@[j].record@
                    && records@[j].managed == next@[j].managed,
        decreases next.len() - n,
    {
        records.push(ManagedRecord { record: next[n].record.copied(), managed: next[n].managed });
        n = n + 1;
    }
    let own_kinds = copied_kinds(&kinds);
    let ghost list = plan_snapshot_views(kept@);
    let ghost placed_one = SnapshotView {
        owner: own_owner@,
        kinds: kinds@,
        items: plan_views(next@),
    };
    let one = PlanSnapshot { owner: own_owner, kinds, items: next };
    assert(plan_snapshot_view(one) == placed_one);
    place(&mut kept, one);
    let after = flatten(&kept);
    let remove = rows_to_remove(&before, &after);
    let write = rows_to_write(&after);
    Reconciliation {
        protect,
        own: RecordSnapshot { covered_kinds: own_kinds, records },
        remove,
        write,
        full,
        coverage,
        status,
    }
}

/// What the fence of an acquisition finds wrong: the observation must be there,
/// must not be withdrawn, and must have kept its revision.
pub open spec fn fence_fault(
    expected: Seq<char>,
    revision: Option<Seq<char>>,
    access_state: Option<Seq<char>>,
) -> Option<Seq<char>> {
    if revision != Some(expected) {
        Some("SOURCE_REVISION_CONFLICT: source observation changed during acquisition"@)
    } else if access_state is None {
        Some("SESSION_NOT_FOUND: source observation is missing"@)
    } else if access_state == Some("withdrawn"@) {
        Some("CONNECTOR_NOT_CONFIGURED: selected observation is withdrawn"@)
    } else {
        None
    }
}

/// Checks the fence of an acquisition, against the revision and the state that
/// the observation has now.
pub fn check_fence(
    expected: &str,
    revision: &Option<String>,
    access_state: &Option<String>,
) -> (r: Result<(), String>)
    ensures
        source_evidence::fault_view(r) == fence_fault(
            expected@,
            text::opt_view(*revision),
            text::opt_view(*access_state),
        ),
{
    let held = match revision {
        Some(now) => same_text(now.as_str(), expected),
        None => false,
    };
    if !held {
        return Err(
            "SOURCE_REVISION_CONFLICT: source observation changed during acquisition".to_owned(),
        );
    }
    match access_state {
        None => Err("SESSION_NOT_FOUND: source observation is missing".to_owned()),
        Some(state) => if same_text(state.as_str(), "withdrawn") {
            Err("CONNECTOR_NOT_CONFIGURED: selected observation is withdrawn".to_owned())
        } else {
            Ok(())
        },
    }
}

/// What is wrong with an acquired snapshot.
pub open spec fn evidence_fault(
    key: ObservationKey,
    key_fault: Option<Seq<char>>,
    control_kinds: Seq<Seq<char>>,
    stamp: Seq<char>,
    bytes: i64,
    covered: Seq<EvidenceKind>,
    records: Seq<RecordTree>,
) -> Option<Seq<char>> {
    if bytes < 0 {
        Some("INVALID_ARGUMENT: negative source_bytes"@)
    } else if stamp.len() == 0 {
        Some("INVALID_ARGUMENT: source_stamp is required"@)
    } else {
        source_evidence::snapshot_fault(
            key_fault,
            key.source@,
            key.session_id@,
            covered,
            control_kinds,
            records,
        )
    }
}

/// How many records of an acquired snapshot a validation completes: none where its
/// size or its stamp is refused.
pub open spec fn evidence_completed(
    key: ObservationKey,
    key_fault: Option<Seq<char>>,
    control_kinds: Seq<Seq<char>>,
    evidence: NormalizedSourceEvidence,
) -> int {
    if evidence.source_bytes < 0 || evidence.source_stamp@.len() == 0 {
        0
    } else {
        source_evidence::completed_in(
            key_fault,
            key.source@,
            key.session_id@,
            evidence.covered_kinds@,
            control_kinds,
            source_evidence::record_views(evidence.records@),
        )
    }
}

/// Validates an acquired snapshot, and completes its records.
pub fn validate(
    key: &ObservationKey,
    key_fault: &Option<String>,
    control_kinds: &Vec<String>,
    evidence: &mut NormalizedSourceEvidence,
) -> (r: Result<(), String>)
    ensures
        source_evidence::fault_view(r) == evidence_fault(
            *key,
            text::opt_view(*key_fault),
            text::views(control_kinds@),
            old(evidence).source_stamp@,
            old(evidence).source_bytes,
            old(evidence).covered_kinds@,
            source_evidence::record_views(old(evidence).records@),
        ),
        final(evidence).source_stamp == old(evidence).source_stamp,
        final(evidence).source_bytes == old(evidence).source_bytes,
        final(evidence).covered_kinds == old(evidence).covered_kinds,
        final(evidence).records@.len() == old(evidence).records@.len(),
        forall|i: int|
            0 <= i < final(evidence).records@.len() ==> (#[trigger] final(evidence).records@[i])@
                == if i < evidence_completed(
                *key,
                text::opt_view(*key_fault),
                text::views(control_kinds@),
                *old(evidence),
            ) {
                source_evidence::completed(old(evidence).records@[i]@)
            } else {
                old(evidence).records@[i]@
            },
        r is Ok ==> forall|i: int|
            0 <= i < final(evidence).records@.len() ==> (#[trigger] final(evidence).records@[i])@
                == source_evidence::completed(old(evidence).records@[i]@),
{
    if evidence.source_bytes < 0 {
        return Err("INVALID_ARGUMENT: negative source_bytes".to_owned());
    }
    if evidence.source_stamp.as_str().is_empty() {
        return Err("INVALID_ARGUMENT: source_stamp is required".to_owned());
    }
    source_evidence::validate_records(
        key,
        key_fault,
        &evidence.covered_kinds,
        control_kinds,
        &mut evidence.records,
    )
}

/// Some kinds without relationships.
pub open spec fn unrelated_kinds(kinds: Seq<EvidenceKind>) -> Seq<EvidenceKind>
    decreases kinds.len(),
{
    if kinds.len() == 0 {
        Seq::empty()
    } else {
        let rest = unrelated_kinds(kinds.drop_last());
        if kinds.last() == EvidenceKind::Relationship {
            rest
        } else {
            rest.push(kinds.last())
        }
    }
}

/// Some records without relationships.
pub open spec fn unrelated_records(records: Seq<RecordTree>) -> Seq<RecordTree>
    decreases records.len(),
{
    if records.len() == 0 {
        Seq::empty()
    } else {
        let rest = unrelated_records(records.drop_last());
        if records.last().kind == EvidenceKind::Relationship {
            rest
        } else {
            rest.push(records.last())
        }
    }
}

/// Takes relationships out of a snapshot, where the request declined them: a
/// connector need not know of the option.
pub fn restrict_related(evidence: NormalizedSourceEvidence, include_related: bool) -> (r:
    NormalizedSourceEvidence)
    ensures
        r.source_stamp@ == evidence.source_stamp@,
        r.source_bytes == evidence.source_bytes,
        include_related ==> r == evidence,
        !include_related ==> r.covered_kinds@ == unrelated_kinds(evidence.covered_kinds@)
            && source_evidence::record_views(r.records@) == unrelated_records(
            source_evidence::record_views(evidence.records@),
        ),
{
    if include_related {
        return evidence;
    }
    let ghost all = evidence.covered_kinds@;
    let mut kinds: Vec<EvidenceKind> = Vec::new();
    let mut i: usize = 0;
    assert(kinds@ =~= unrelated_kinds(all.take(0)));
    while i < evidence.covered_kinds.len()
        invariant
            i <= evidence.covered_kinds.len(),
            all == evidence.covered_kinds@,
            kinds@ == unrelated_kinds(all.take(i as int)),
        decreases evidence.covered_kinds.len() - i,
    {
        assert(all.take(i + 1).drop_last() =~= all.take(i as int));
        if evidence.covered_kinds[i] != EvidenceKind::Relationship {
            kinds.push(evidence.covered_kinds[i]);
        }
        i = i + 1;
    }
    assert(all.take(all.len() as int) =~= all);
    let ghost given = source_evidence::record_views(evidence.records@);
    let mut records: Vec<EvidenceRecord> = Vec::new();
    let mut k: usize = 0;
    assert(source_evidence::record_views(records@) =~= unrelated_records(given.take(0)));
    while k < evidence.records.len()
        invariant
            k <= evidence.records.len(),
            given == source_evidence::record_views(evidence.records@),
            source_evidence::record_views(records@) == unrelated_records(given.take(k as int)),
        decreases evidence.records.len() - k,
    {
        let ghost earlier = source_evidence::record_views(records@);
        assert(given.take(k + 1).drop_last() =~= given.take(k as int));
        assert(given.take(k + 1).last() == evidence.records@[k as int]@);
        if evidence.records[k].kind != EvidenceKind::Relationship {
            records.push(evidence.records[k].copied());
            assert(source_evidence::record_views(records@) =~= earlier.push(
                evidence.records@[k as int]@,
            ));
        }
        k = k + 1;
    }
    assert(given.take(given.len() as int) =~= given);
    NormalizedSourceEvidence {
        source_stamp: evidence.source_stamp,
        source_bytes: evidence.source_bytes,
        covered_kinds: kinds,
        records,
    }
}

/// The first record with each identity among the stored snapshots, in the order
/// of identities: the records whose canonical rows a reconciliation compares.
pub fn previous_winners(observed: &Vec<OwnedSnapshot>) -> (r: Vec<PlannedRow>)
    ensures
        rows_are(r@, winner(flat(ordered(snapshot_views(observed@))))),
{
    let snaps = order_snapshots(observed);
    let items = flatten(&snaps);
    rows_of_winners(&items)
}

/// The first record with an identity.
pub open spec fn winner(items: Seq<ItemView>) -> spec_fn(Seq<char>) -> Option<RecordTree> {
    |id: Seq<char>| first_with(items, id)
}

fn rows_of_winners(items: &Vec<PlanItem>) -> (r: Vec<PlannedRow>)
    ensures
        rows_are(r@, winner(plan_views(items@))),
{
    let ids = sorted_ids(items);
    let ghost all = text::views(ids@);
    let ghost wanted = winner(plan_views(items@));
    let mut out: Vec<PlannedRow> = Vec::new();
    let mut i: usize = 0;
    while i < ids.len()
        invariant
            i <= ids.len(),
            all == text::views(ids@),
            order::increasing(all),
            wanted == winner(plan_views(items@)),
            order::increasing(row_ids(out@)),
            forall|j: int, t: int|
                0 <= j < out@.len() && i <= t < all.len() ==> order::text_less(
                    #[trigger] row_ids(out@)[j],
                    #[trigger] all[t],
                ),
            forall|id: Seq<char>| #[trigger]
                row_ids(out@).contains(id) == (all.take(i as int).contains(id) && wanted(id)
                    is Some),
            forall|j: int|
                0 <= j < out@.len() ==> wanted((#[trigger] out@[j]).identity@) == Some(
                    out@[j].record@,
                ),
        decreases ids.len() - i,
    {
        let ghost before = row_ids(out@);
        let id = ids[i].as_str();
        assert(all[i as int] == id@);
        match find_first(items, id) {
            Some(k) => {
                out.push(
                    PlannedRow { identity: ids[i].clone(), record: items[k].record.copied() },
                );
            },
            None => {},
        }
        proof {
            lemma_take_contains(all, i as int);
            if wanted(id@) is Some {
                assert(row_ids(out@) =~= before.push(id@));
                assert forall|a: int, b: int| 0 <= a < b < row_ids(out@).len() implies order::text_less(
                    row_ids(out@)[a],
                    row_ids(out@)[b],
                ) by {
                    if b == before.len() {
                        assert(row_ids(out@)[a] == before[a]);
                        assert(order::text_less(before[a], all[i as int]));
                    } else {
                        assert(row_ids(out@)[a] == before[a] && row_ids(out@)[b] == before[b]);
                    }
                }
                assert forall|j: int, t: int|
                    0 <= j < out@.len() && i + 1 <= t < all.len() implies order::text_less(
                    #[trigger] row_ids(out@)[j],
                    #[trigger] all[t],
                ) by {
                    if j < before.len() {
                        assert(row_ids(out@)[j] == before[j]);
                    } else {
                        assert(row_ids(out@)[j] == all[i as int]);
                    }
                }
            } else {
                assert(row_ids(out@) =~= before);
            }
            assert forall|t: Seq<char>| #[trigger]
                row_ids(out@).contains(t) == (all.take(i + 1).contains(t) && wanted(t) is Some) by {
                assert(before.contains(t) == (all.take(i as int).contains(t) && wanted(t) is Some));
                assert(all.take(i + 1).contains(t) == (all.take(i as int).contains(t) || t
                    == all[i as int]));
                if wanted(id@) is Some {
                    lemma_push_contains(before, id@, t);
                }
            }
        }
        i = i + 1;
    }
    proof {
        assert(all.take(all.len() as int) =~= all);
        assert forall|id: Seq<char>| #[trigger]
            row_ids(out@).contains(id) == (wanted(id) is Some) by {
            assert(all.contains(id) == has_id(plan_views(items@), id));
            if wanted(id) is Some {
                lemma_first_is_there(plan_views(items@), id);
            }
        }
    }
    out
}

proof fn lemma_first_is_there(items: Seq<ItemView>, id: Seq<char>)
    ensures
        first_with(items, id) is Some ==> has_id(items, id),
    decreases items.len(),
{
    if items.len() > 0 {
        if items[0].id == id {
            assert(items[0].id == id);
        } else {
            lemma_first_is_there(items.drop_first(), id);
            if first_with(items, id) is Some {
                let rest = items.drop_first();
                let k = choose|k: int| 0 <= k < rest.len() && (#[trigger] rest[k]).id == id;
                assert(items[k + 1].id == id);
            }
        }
    }
}

proof fn lemma_flat_member(list: Seq<SnapshotView>, item: ItemView)
    ensures
        flat(list).contains(item) == exists|k: int|
            0 <= k < list.len() && (#[trigger] list[k]).items.contains(item),
    decreases list.len(),
{
    if list.len() > 0 {
        let rest = list.drop_last();
        lemma_flat_member(rest, item);
        let all = flat(list);
        let n = flat(rest).len();
        if all.contains(item) {
            let i = choose|i: int| 0 <= i < all.len() && all[i] == item;
            if i < n {
                assert(flat(rest)[i] == item);
                let k = choose|k: int| 0 <= k < rest.len() && (#[trigger] rest[k]).items.contains(item);
                assert(list[k].items.contains(item));
            } else {
                assert(list.last().items[i - n] == item);
                assert(list[list.len() - 1].items.contains(item));
            }
        }
        if exists|k: int| 0 <= k < list.len() && (#[trigger] list[k]).items.contains(item) {
            let k = choose|k: int| 0 <= k < list.len() && (#[trigger] list[k]).items.contains(item);
            if k < rest.len() {
                assert(rest[k].items.contains(item));
                let i = choose|i: int| 0 <= i < n && flat(rest)[i] == item;
                assert(all[i] == item);
            } else {
                let i = choose|i: int|
                    0 <= i < list.last().items.len() && list.last().items[i] == item;
                assert(all[n + i] == item);
            }
        }
    }
}

proof fn lemma_placed_member(list: Seq<SnapshotView>, one: SnapshotView, k: int)
    requires
        0 <= k < placed(list, one).len(),
    ensures
        placed(list, one)[k] == one || list.contains(placed(list, one)[k]),
    decreases list.len(),
{
    let after = placed(list, one);
    if list.len() == 0 {
    } else if list[0].owner == one.owner {
        if k > 0 {
            assert(list[k] == after[k]);
        }
    } else if owner_less(one.owner, list[0].owner) {
        if k > 0 {
            assert(list[k - 1] == after[k]);
        }
    } else {
        if k == 0 {
            assert(list[0] == after[0]);
        } else {
            let rest = list.drop_first();
            lemma_placed_member(rest, one, k - 1);
            assert(after[k] == placed(rest, one)[k - 1]);
            if rest.contains(after[k]) {
                let j = choose|j: int| 0 <= j < rest.len() && rest[j] == after[k];
                assert(list[j + 1] == after[k]);
            }
        }
    }
}

proof fn lemma_retained_member(items: Seq<ItemView>, covered: Seq<EvidenceKind>, item: ItemView)
    ensures
        retained(items, covered).contains(item) ==> items.contains(item),
    decreases items.len(),
{
    if items.len() > 0 && retained(items, covered).contains(item) {
        let rest = items.drop_last();
        let all = retained(items, covered);
        lemma_retained_member(rest, covered, item);
        let i = choose|i: int| 0 <= i < all.len() && all[i] == item;
        if i < retained(rest, covered).len() {
            assert(retained(rest, covered)[i] == item);
            let k = choose|k: int| 0 <= k < rest.len() && rest[k] == item;
            assert(items[k] == item);
        } else {
            assert(items[items.len() - 1] == item);
        }
    }
}

proof fn lemma_own_member(list: Seq<SnapshotView>, owner: OwnerView)
    ensures
        own_of(list, owner).items.len() == 0 || list.contains(own_of(list, owner)),
    decreases list.len(),
{
    if list.len() > 0 {
        if list[0].owner == owner {
            assert(list.contains(list[0]));
        } else {
            lemma_own_member(list.drop_first(), owner);
            let rest = list.drop_first();
            if rest.contains(own_of(list, owner)) {
                let k = choose|k: int| 0 <= k < rest.len() && rest[k] == own_of(list, owner);
                assert(list[k + 1] == own_of(list, owner));
            }
        }
    }
}

proof fn lemma_managed_after(
    owner: OwnerView,
    kept: Seq<SnapshotView>,
    revoked: Seq<Seq<char>>,
    covered: Seq<EvidenceKind>,
    records: Seq<RecordTree>,
    rows: Seq<CanonicalRow>,
    id: Seq<char>,
)
    ensures
        ({
            let next = next_own(owner, kept, revoked, covered, records, rows);
            let after = flat(placed(kept, next));
            is_managed(after, id) ==> is_managed(flat(kept), id) || (!revoked.contains(id)
                && !row_exists(rows, id))
        }),
{
    broadcast use vstd::seq_lib::group_to_multiset_ensures;

    let next = next_own(owner, kept, revoked, covered, records, rows);
    let list = placed(kept, next);
    let after = flat(list);
    if is_managed(after, id) && !is_managed(flat(kept), id) {
        let i = choose|i: int|
            0 <= i < after.len() && (#[trigger] after[i]).id == id && after[i].managed;
        let item = after[i];
        assert(after.contains(item));
        lemma_flat_member(list, item);
        let k = choose|k: int| 0 <= k < list.len() && (#[trigger] list[k]).items.contains(item);
        lemma_placed_member(kept, next, k);
        lemma_flat_member(kept, item);
        if flat(kept).contains(item) {
            let j = choose|j: int| 0 <= j < flat(kept).len() && flat(kept)[j] == item;
            assert(flat(kept)[j].id == id && flat(kept)[j].managed);
            assert(false);
        }
        if list[k] != next {
            let j = choose|j: int| 0 <= j < kept.len() && kept[j] == list[k];
            assert(kept[j].items.contains(item));
            assert(false);
        }
        let own = own_of(kept, owner);
        let unsorted = retained(own.items, covered) + fresh(records, revoked, flat(kept), rows);
        law_sorted_items(unsorted);
        assert(next.items.contains(item));
        assert(next.items.to_multiset().count(item) > 0);
        assert(unsorted.to_multiset().count(item) > 0);
        assert(unsorted.contains(item));
        let u = choose|u: int| 0 <= u < unsorted.len() && unsorted[u] == item;
        let n = retained(own.items, covered).len();
        if u < n {
            assert(retained(own.items, covered)[u] == item);
            assert(retained(own.items, covered).contains(item));
            lemma_retained_member(own.items, covered, item);
            lemma_own_member(kept, owner);
            let j = choose|j: int| 0 <= j < kept.len() && kept[j] == own;
            assert(kept[j].items.contains(item));
            assert(false);
        } else {
            assert(item == fresh(records, revoked, flat(kept), rows)[u - n]);
        }
    }
}

proof fn lemma_revoked_is_unowned(
    list: Seq<SnapshotView>,
    revoked: Seq<Seq<char>>,
    id: Seq<char>,
)
    requires
        revoked.contains(id),
    ensures
        !is_managed(flat(revoked_snapshots(list, revoked)), id),
{
    let kept = revoked_snapshots(list, revoked);
    let all = flat(kept);
    if is_managed(all, id) {
        let i = choose|i: int| 0 <= i < all.len() && (#[trigger] all[i]).id == id && all[i].managed;
        assert(all.contains(all[i]));
        lemma_flat_member(kept, all[i]);
        let k = choose|k: int| 0 <= k < kept.len() && (#[trigger] kept[k]).items.contains(all[i]);
        let j = choose|j: int| 0 <= j < kept[k].items.len() && kept[k].items[j] == all[i];
        assert(kept[k].items[j] == revoked_items(list[k].items, revoked)[j]);
    }
}

/// A protected canonical row is neither written nor removed, whatever a
/// connector asserts.
pub proof fn law_protected_rows_are_untouched(
    owner: OwnerView,
    observed: Seq<SnapshotView>,
    protected: Seq<Seq<char>>,
    protect: Seq<Seq<char>>,
    covered: Seq<EvidenceKind>,
    records: Seq<RecordTree>,
    rows: Seq<CanonicalRow>,
    id: Seq<char>,
)
    requires
        protected.contains(id) || protect.contains(id),
    ensures
        ({
            let revoked = protected + protect;
            let kept = kept_snapshots(observed, protected, protect);
            let next = next_own(owner, kept, revoked, covered, records, rows);
            let after = flat(placed(kept, next));
            &&& writing(after)(id) is None
            &&& removal(flat(kept), after)(id) is None
        }),
{
    let revoked = protected + protect;
    let kept = kept_snapshots(observed, protected, protect);
    if protected.contains(id) {
        let k = choose|k: int| 0 <= k < protected.len() && protected[k] == id;
        assert(revoked[k] == id);
    } else {
        let k = choose|k: int| 0 <= k < protect.len() && protect[k] == id;
        assert(revoked[protected.len() + k] == id);
    }
    lemma_revoked_is_unowned(ordered(observed), revoked, id);
    lemma_managed_after(owner, kept, revoked, covered, records, rows, id);
    lemma_last_managed_is_there(flat(kept), id);
}

/// A canonical row that is there and that no connector owned before is neither
/// overwritten nor removed.
pub proof fn law_unowned_rows_are_untouched(
    owner: OwnerView,
    observed: Seq<SnapshotView>,
    protected: Seq<Seq<char>>,
    protect: Seq<Seq<char>>,
    covered: Seq<EvidenceKind>,
    records: Seq<RecordTree>,
    rows: Seq<CanonicalRow>,
    id: Seq<char>,
)
    requires
        row_exists(rows, id),
        !is_managed(flat(kept_snapshots(observed, protected, protect)), id),
    ensures
        ({
            let kept = kept_snapshots(observed, protected, protect);
            let next = next_own(owner, kept, protected + protect, covered, records, rows);
            let after = flat(placed(kept, next));
            &&& writing(after)(id) is None
            &&& removal(flat(kept), after)(id) is None
        }),
{
    let kept = kept_snapshots(observed, protected, protect);
    lemma_managed_after(owner, kept, protected + protect, covered, records, rows, id);
    lemma_last_managed_is_there(flat(kept), id);
}

/// A record is removed only where no snapshot asserts it any more.
pub proof fn law_asserted_rows_are_kept(
    before: Seq<ItemView>,
    after: Seq<ItemView>,
    id: Seq<char>,
)
    requires
        has_id(after, id),
    ensures
        removal(before, after)(id) is None,
{
}

/// Where two snapshots assert one identity, the one whose owner stands first
/// decides what is written.
pub proof fn law_first_owner_wins(first: Seq<ItemView>, later: Seq<ItemView>, id: Seq<char>)
    requires
        has_id(first, id),
        is_managed(first + later, id),
    ensures
        writing(first + later)(id) == first_with(first, id),
        first_with(first, id) is Some,
    decreases first.len(),
{
    lemma_first_of_concat(first, later, id);
}

proof fn lemma_first_of_concat(first: Seq<ItemView>, later: Seq<ItemView>, id: Seq<char>)
    requires
        has_id(first, id),
    ensures
        first_with(first + later, id) == first_with(first, id),
        first_with(first, id) is Some,
    decreases first.len(),
{
    if first[0].id != id {
        let rest = first.drop_first();
        let k = choose|k: int| 0 <= k < first.len() && (#[trigger] first[k]).id == id;
        assert(rest[k - 1].id == id);
        lemma_first_of_concat(rest, later, id);
        assert((first + later).drop_first() =~= rest + later);
    }
}

/// How a stored snapshot is written.
#[derive(Debug, Clone, Copy, PartialEq, Eq, Structural)]
pub enum StoredFormat {
    /// Records with their ownership.
    Records,
    /// Events, with the ids of those that are owned.
    Events,
    /// Something that does not say who owns what.
    Unknown,
}

/// How a stored snapshot is written.
pub open spec fn format_of(payload: JsonTree) -> StoredFormat {
    let name = json::text_of(json::field(payload, "format"@));
    if name == Some("records"@) {
        StoredFormat::Records
    } else if name == Some("events"@) {
        StoredFormat::Events
    } else {
        StoredFormat::Unknown
    }
}

/// How a stored snapshot is written.
pub fn stored_format(payload: &JsonValue) -> (r: StoredFormat)
    ensures
        r == format_of(payload@),
{
    match json::member_text(payload, "format") {
        Some(name) => if same_text(name, "records") {
            StoredFormat::Records
        } else if same_text(name, "events") {
            StoredFormat::Events
        } else {
            StoredFormat::Unknown
        },
        None => StoredFormat::Unknown,
    }
}

/// Whether some values hold one.
pub open spec fn holds_value(values: Seq<JsonTree>, one: JsonTree) -> bool {
    exists|i: int| 0 <= i < values.len() && json::json_equal(#[trigger] values[i], one)
}

/// What is wrong with a snapshot of events.
pub open spec fn events_fault(payload: JsonTree) -> Option<Seq<char>> {
    let managed = json::field(payload, "managed"@);
    let events = json::field(payload, "events"@);
    if !(managed is Some && managed->0 is Array) {
        Some("legacy managed event ids"@)
    } else if !(events is Some && events->0 is Array) {
        Some("legacy events"@)
    } else if exists|i: int|
        0 <= i < events->0->Array_0.len() && !((#[trigger] events->0->Array_0[i]) is Object) {
        Some("legacy event object"@)
    } else {
        None
    }
}

/// Whether an event of a snapshot of events is owned: its id is listed.
pub open spec fn event_is_managed(payload: JsonTree, event: JsonTree) -> bool {
    holds_value(
        json::field(payload, "managed"@)->0->Array_0,
        match json::field(event, "event_uid"@) {
            Some(uid) => uid,
            None => JsonTree::Null,
        },
    )
}

fn array_of(value: Option<&JsonValue>) -> (r: Option<&Vec<JsonValue>>)
    ensures
        match r {
            Some(items) => value is Some && value->0@ == JsonTree::Array(
                items@.map_values(|v: JsonValue| json::tree(v)),
            ),
            None => value is None || !(value->0@ is Array),
        },
{
    match value {
        Some(JsonValue::Array(items)) => {
            proof {
                json::lemma_array_view(*items);
            }
            Some(items)
        },
        _ => None,
    }
}

fn lists_value(values: &Vec<JsonValue>, one: Option<&JsonValue>) -> (r: bool)
    ensures
        r == holds_value(
            values@.map_values(|v: JsonValue| json::tree(v)),
            match one {
                Some(v) => v@,
                None => JsonTree::Null,
            },
        ),
{
    let ghost all = values@.map_values(|v: JsonValue| json::tree(v));
    let null = JsonValue::Null;
    let wanted = match one {
        Some(v) => v,
        None => &null,
    };
    let mut i: usize = 0;
    while i < values.len()
        invariant
            i <= values.len(),
            all == values@.map_values(|v: JsonValue| json::tree(v)),
            wanted@ == match one {
                Some(v) => v@,
                None => JsonTree::Null,
            },
            forall|j: int| 0 <= j < i ==> !json::json_equal(#[trigger] all[j], wanted@),
        decreases values.len() - i,
    {
        assert(all[i as int] == values@[i as int]@);
        if json::same_value(&values[i], wanted) {
            return true;
        }
        i = i + 1;
    }
    false
}

/// Reads a snapshot of events: each event is a record, owned where its id is
/// listed.
pub fn snapshot_of_events(payload: &JsonValue) -> (r: Result<RecordSnapshot, String>)
    ensures
        match r {
            Err(fault) => events_fault(payload@) == Some(fault@),
            Ok(snapshot) => {
                let events = json::field(payload@, "events"@)->0->Array_0;
                &&& events_fault(payload@) is None
                &&& snapshot.covered_kinds@ == seq![EvidenceKind::SessionEvent]
                &&& snapshot.records@.len() == events.len()
                &&& forall|i: int|
                    0 <= i < events.len() ==> (#[trigger] snapshot.records@[i]).record@ == (
                    RecordTree {
                        kind: EvidenceKind::SessionEvent,
                        payload: events[i]->Object_0,
                        record_id: None,
                        revision_id: None,
                    }) && snapshot.records@[i].managed == event_is_managed(payload@, events[i])
            },
        },
{
    let managed = match array_of(payload.get("managed")) {
        Some(managed) => managed,
        None => return Err("legacy managed event ids".to_owned()),
    };
    let events = match array_of(payload.get("events")) {
        Some(events) => events,
        None => return Err("legacy events".to_owned()),
    };
    let ghost all = json::field(payload@, "events"@)->0->Array_0;
    let mut records: Vec<ManagedRecord> = Vec::new();
    let mut i: usize = 0;
    while i < events.len()
        invariant
            i <= events.len(),
            all == events@.map_values(|v: JsonValue| json::tree(v)),
            json::field(payload@, "managed"@) == Some(
                JsonTree::Array(managed@.map_values(|v: JsonValue| json::tree(v))),
            ),
            json::field(payload@, "events"@) == Some(JsonTree::Array(all)),
            records.len() == i,
            forall|j: int| 0 <= j < i ==> (#[trigger] all[j]) is Object,
            forall|j: int|
                0 <= j < i ==> (#[trigger] records@[j]).record@ == (RecordTree {
                    kind: EvidenceKind::SessionEvent,
                    payload: all[j]->Object_0,
                    record_id: None,
                    revision_id: None,
                }) && records@[j].managed == event_is_managed(payload@, all[j]),
        decreases events.len() - i,
    {
        assert(all[i as int] == events@[i as int]@);
        match &events[i] {
            JsonValue::Object(members) => {
                proof {
                    json::lemma_object_view(*members);
                }
                let owned = lists_value(managed, events[i].get("event_uid"));
                records.push(
                    ManagedRecord {
                        record: EvidenceRecord {
                            kind: EvidenceKind::SessionEvent,
                            payload: json::copied_members(members),
                            record_id: None,
                            revision_id: None,
                        },
                        managed: owned,
                    },
                );
            },
            _ => {
                return Err("legacy event object".to_owned());
            },
        }
        i = i + 1;
    }
    let mut covered_kinds: Vec<EvidenceKind> = Vec::new();
    covered_kinds.push(EvidenceKind::SessionEvent);
    assert(covered_kinds@ =~= seq![EvidenceKind::SessionEvent]);
    Ok(RecordSnapshot { covered_kinds, records })
}

/// One acquired catalog row, with a separate opaque handle for later reads.
#[derive(Debug)]
pub struct SourceObservation {
    pub session: ShallowSession,
    pub raw_locator: Option<String>,
}

/// The view of an acquired row.
pub struct ObservationView {
    pub session: ShallowView,
    pub raw_locator: Option<Seq<char>>,
}

impl View for SourceObservation {
    type V = ObservationView;

    open spec fn view(&self) -> ObservationView {
        ObservationView {
            session: self.session@,
            raw_locator: text::opt_view(self.raw_locator),
        }
    }
}

impl From<ShallowSession> for SourceObservation {
    fn from(session: ShallowSession) -> (r: Self) {
        SourceObservation { session, raw_locator: None }
    }
}

impl vstd::std_specs::convert::FromSpecImpl<ShallowSession> for SourceObservation {
    open spec fn obeys_from_spec() -> bool {
        true
    }

    open spec fn from_spec(session: ShallowSession) -> Self {
        SourceObservation { session, raw_locator: None }
    }
}

/// The views of some catalog rows.
pub open spec fn observation_views(rows: Seq<SourceObservation>) -> Seq<ObservationView> {
    rows.map_values(|row: SourceObservation| row@)
}

/// A batch of catalog rows of one connector.
#[derive(Debug)]
pub struct ApplyObservationsRequest {
    pub db_path: Option<String>,
    pub connector_id: String,
    pub connector_instance: String,
    pub location: SessionLocation,
    pub observations: Vec<SourceObservation>,
}

/// The rows of a batch that belong to one source.
#[derive(Debug)]
pub struct SourceBatch {
    pub source: String,
    pub rows: Vec<SourceObservation>,
}

/// The handle of a row: its locator, else its path.
pub open spec fn handle_of(row: ObservationView) -> Option<Seq<char>> {
    match row.raw_locator {
        Some(locator) => Some(locator),
        None => row.session.raw_path,
    }
}

/// A row as a discovery stores it: external discovery supplies no evidence. What it says
/// of the session stays.
pub open spec fn normalized_row(row: ObservationView, location: SessionLocation) -> ObservationView {
    ObservationView {
        session: ShallowView {
            discovery_state: "shallow"@,
            locations: seq![store::location_label(location)],
            from_cache: false,
            ..row.session
        },
        ..row
    }
}

/// What validating the key of row `i` found.
pub open spec fn key_fault(faults: Seq<Option<String>>, i: int) -> Option<Seq<char>> {
    if i < faults.len() {
        text::opt_view(faults[i])
    } else {
        None
    }
}

/// What is wrong with row `i` of a batch.
pub open spec fn row_fault(
    rows: Seq<ObservationView>,
    faults: Seq<Option<String>>,
    first: Seq<char>,
    i: int,
) -> Option<Seq<char>> {
    let row = rows[i];
    let handle = handle_of(row);
    if key_fault(faults, i) is Some {
        key_fault(faults, i)
    } else if exists|j: int|
        0 <= j < i && (#[trigger] rows[j]).session.source == row.session.source
            && rows[j].session.session_id == row.session.session_id {
        Some("INVALID_ARGUMENT: duplicate source observation"@)
    } else if handle is Some && (handle->0.len() == 0 || handle->0.contains('\0')) {
        Some("INVALID_ARGUMENT: invalid observation locator"@)
    } else if !store::is_source(row.session.source, first) {
        Some("INVALID_ARGUMENT: unknown source"@)
    } else {
        None
    }
}

/// What is wrong with the rows of a batch from row `from` on.
pub open spec fn rows_fault(
    rows: Seq<ObservationView>,
    faults: Seq<Option<String>>,
    first: Seq<char>,
    from: int,
) -> Option<Seq<char>>
    decreases rows.len() - from,
{
    if from >= rows.len() {
        None
    } else {
        match row_fault(rows, faults, first, from) {
            Some(fault) => Some(fault),
            None => rows_fault(rows, faults, first, from + 1),
        }
    }
}

/// What is wrong with a batch: its size, the identity of its connector, or the first
/// faulty row.
pub open spec fn batch_fault(
    rows: Seq<ObservationView>,
    connector_fault: Option<Seq<char>>,
    faults: Seq<Option<String>>,
    first: Seq<char>,
) -> Option<Seq<char>> {
    if rows.len() > 10_000 {
        Some("INVALID_ARGUMENT: observation batch exceeds 10000 rows"@)
    } else if connector_fault is Some {
        connector_fault
    } else {
        rows_fault(rows, faults, first, 0)
    }
}

/// The rows of a source, as a discovery stores them.
pub open spec fn rows_of_source(
    rows: Seq<ObservationView>,
    source: Seq<char>,
    location: SessionLocation,
) -> Seq<ObservationView>
    decreases rows.len(),
{
    if rows.len() == 0 {
        Seq::empty()
    } else {
        let rest = rows_of_source(rows.drop_last(), source, location);
        if rows.last().session.source == source {
            rest.push(normalized_row(rows.last(), location))
        } else {
            rest
        }
    }
}

/// The sources that have a fixed name, in the order of their names.
pub const SORTED_SOURCES: [&'static str; 6] = [
    "codex",
    "cursor",
    "grok",
    "opencode",
    "relay",
    "trajectory",
];

/// The fixed names from place `from` on, with another name in its place among them.
pub open spec fn names_from(first: Seq<char>, from: int) -> Seq<Seq<char>>
    decreases 6 - from,
{
    if from >= 6 {
        seq![first]
    } else if order::text_less(first, SORTED_SOURCES@[from]@) {
        seq![first] + fixed_from(from)
    } else {
        seq![SORTED_SOURCES@[from]@] + names_from(first, from + 1)
    }
}

/// The fixed names from place `from` on.
pub open spec fn fixed_from(from: int) -> Seq<Seq<char>> {
    Seq::new((6 - from) as nat, |i: int| SORTED_SOURCES@[from + i]@)
}

/// The names of all sources, in their order.
pub open spec fn sorted_names(first: Seq<char>) -> Seq<Seq<char>> {
    names_from(first, 0)
}

fn names_in_order(names: &SourceNames) -> (r: Vec<String>)
    ensures
        text::views(r@) == sorted_names(names.claude@),
{
    let ghost first = names.claude@;
    let mut out: Vec<String> = Vec::new();
    let mut placed = false;
    let mut i: usize = 0;
    assert(text::views(out@) + names_from(first, 0) =~= sorted_names(first));
    while i < 6
        invariant
            i <= 6,
            first == names.claude@,
            text::views(out@) + (if placed {
                fixed_from(i as int)
            } else {
                names_from(first, i as int)
            }) == sorted_names(first),
        decreases 6 - i,
    {
        let ghost before = text::views(out@);
        if !placed && order::less(names.claude.as_str(), SORTED_SOURCES[i]) {
            out.push(names.claude.clone());
            placed = true;
            assert(text::views(out@) =~= before.push(first));
            assert(text::views(out@) + fixed_from(i as int) =~= before + names_from(
                first,
                i as int,
            ));
        }
        let ghost so_far = text::views(out@);
        let name = SORTED_SOURCES[i].to_owned();
        out.push(name);
        assert(text::views(out@) =~= so_far.push(SORTED_SOURCES@[i as int]@));
        assert(fixed_from(i as int) =~= seq![SORTED_SOURCES@[i as int]@] + fixed_from(i + 1));
        assert(text::views(out@) + (if placed {
            fixed_from(i + 1)
        } else {
            names_from(first, i + 1)
        }) =~= so_far + (if placed {
            fixed_from(i as int)
        } else {
            names_from(first, i as int)
        }));
        i = i + 1;
    }
    let ghost before = text::views(out@);
    if !placed {
        out.push(names.claude.clone());
        assert(text::views(out@) =~= before + seq![first]);
    } else {
        assert(before + fixed_from(6) =~= before);
    }
    out
}

/// The batches of the first `n` sources that have rows.
pub open spec fn batches_of(
    rows: Seq<ObservationView>,
    location: SessionLocation,
    first: Seq<char>,
    n: int,
) -> Seq<(Seq<char>, Seq<ObservationView>)>
    decreases n,
{
    if n <= 0 {
        Seq::empty()
    } else {
        let rest = batches_of(rows, location, first, n - 1);
        let source = sorted_names(first)[n - 1];
        let own = rows_of_source(rows, source, location);
        if own.len() == 0 {
            rest
        } else {
            rest.push((source, own))
        }
    }
}

/// The views of some batches.
pub open spec fn batch_views(batches: Seq<SourceBatch>) -> Seq<(Seq<char>, Seq<ObservationView>)> {
    batches.map_values(|batch: SourceBatch| (batch.source@, observation_views(batch.rows@)))
}

fn has_nul(value: &str) -> (r: bool)
    ensures
        r == value@.contains('\0'),
{
    let chars = text::chars_of(value);
    let mut i: usize = 0;
    while i < chars.len()
        invariant
            i <= chars.len(),
            chars@ == value@,
            forall|j: int| 0 <= j < i ==> chars@[j] != '\0',
        decreases chars.len() - i,
    {
        if chars[i] == '\0' {
            assert(value@[i as int] == '\0');
            return true;
        }
        i = i + 1;
    }
    false
}

fn check_row(
    rows: &Vec<SourceObservation>,
    faults: &Vec<Option<String>>,
    names: &SourceNames,
    at: usize,
) -> (r: Result<(), String>)
    requires
        at < rows@.len(),
    ensures
        source_evidence::fault_view(r) == row_fault(
            observation_views(rows@),
            faults@,
            names.claude@,
            at as int,
        ),
{
    let ghost all = observation_views(rows@);
    assert(all[at as int] == rows@[at as int]@);
    if at < faults.len() {
        if let Some(fault) = &faults[at] {
            return Err(fault.clone());
        }
    }
    let mut j: usize = 0;
    while j < at
        invariant
            j <= at < rows.len(),
            all == observation_views(rows@),
            all[at as int] == rows@[at as int]@,
            key_fault(faults@, at as int) is None,
            forall|k: int|
                0 <= k < j ==> !((#[trigger] all[k]).session.source
                    == all[at as int].session.source && all[k].session.session_id
                    == all[at as int].session.session_id),
        decreases at - j,
    {
        assert(all[j as int] == rows@[j as int]@);
        if same_text(
            rows[j].session.source.as_str(),
            rows[at].session.source.as_str(),
        ) && same_text(
            rows[j].session.session_id.as_str(),
            rows[at].session.session_id.as_str(),
        ) {
            return Err("INVALID_ARGUMENT: duplicate source observation".to_owned());
        }
        j = j + 1;
    }
    let handle = match &rows[at].raw_locator {
        Some(locator) => Some(locator),
        None => match &rows[at].session.raw_path {
            Some(path) => Some(path),
            None => None,
        },
    };
    if let Some(value) = handle {
        if value.as_str().is_empty() || has_nul(value.as_str()) {
            return Err("INVALID_ARGUMENT: invalid observation locator".to_owned());
        }
    }
    if !store::known_source(rows[at].session.source.as_str(), names) {
        return Err("INVALID_ARGUMENT: unknown source".to_owned());
    }
    Ok(())
}

fn normalize_row(row: &SourceObservation, location: SessionLocation) -> (r: SourceObservation)
    ensures
        r@ == normalized_row(row@, location),
{
    let mut locations: Vec<String> = Vec::new();
    locations.push(location.as_str().to_owned());
    assert(text::views(locations@) =~= seq![store::location_label(location)]);
    let mut session = row.session.copied();
    session.discovery_state = "shallow".to_owned();
    session.locations = locations;
    session.from_cache = false;
    SourceObservation { session, raw_locator: row.raw_locator.clone() }
}

fn collect_rows(rows: &Vec<SourceObservation>, source: &str, location: SessionLocation) -> (r: Vec<
    SourceObservation,
>)
    ensures
        observation_views(r@) == rows_of_source(observation_views(rows@), source@, location),
{
    let ghost all = observation_views(rows@);
    let mut out: Vec<SourceObservation> = Vec::new();
    let mut i: usize = 0;
    assert(observation_views(out@) =~= rows_of_source(all.take(0), source@, location));
    while i < rows.len()
        invariant
            i <= rows.len(),
            all == observation_views(rows@),
            observation_views(out@) == rows_of_source(all.take(i as int), source@, location),
        decreases rows.len() - i,
    {
        let ghost earlier = observation_views(out@);
        assert(all.take(i + 1).drop_last() =~= all.take(i as int));
        assert(all.take(i + 1).last() == rows@[i as int]@);
        if same_text(rows[i].session.source.as_str(), source) {
            let row = normalize_row(&rows[i], location);
            let ghost view = row@;
            out.push(row);
            assert(observation_views(out@) =~= earlier.push(view));
        }
        i = i + 1;
    }
    assert(all.take(rows@.len() as int) =~= all);
    out
}

/// Validates a whole batch of catalog rows and groups them by source, before
/// anything is opened or stored.
///
/// `connector_fault` is what validating the identity of the connector found, and
/// `key_faults` what validating the key of each row did. An empty batch has no groups,
/// and its connector is validated all the same.
pub fn apply_source_observations(
    request: &ApplyObservationsRequest,
    connector_fault: &Option<String>,
    key_faults: &Vec<Option<String>>,
    names: &SourceNames,
) -> (r: Result<Vec<SourceBatch>, String>)
    ensures
        match r {
            Err(fault) => batch_fault(
                observation_views(request.observations@),
                text::opt_view(*connector_fault),
                key_faults@,
                names.claude@,
            )
                == Some(fault@),
            Ok(batches) => batch_fault(
                observation_views(request.observations@),
                text::opt_view(*connector_fault),
                key_faults@,
                names.claude@,
            )
                is None && batch_views(batches@) == batches_of(
                observation_views(request.observations@),
                request.location,
                names.claude@,
                sorted_names(names.claude@).len() as int,
            ),
        },
{
    let rows = &request.observations;
    let ghost all = observation_views(rows@);
    if rows.len() > 10_000 {
        return Err("INVALID_ARGUMENT: observation batch exceeds 10000 rows".to_owned());
    }
    if let Some(fault) = connector_fault {
        return Err(fault.as_str().to_owned());
    }
    let mut i: usize = 0;
    while i < rows.len()
        invariant
            i <= rows.len(),
            rows.len() <= 10_000,
            *rows == request.observations,
            all == observation_views(rows@),
            batch_fault(
                all,
                text::opt_view(*connector_fault),
                key_faults@,
                names.claude@,
            ) == rows_fault(
                all,
                key_faults@,
                names.claude@,
                i as int,
            ),
        decreases rows.len() - i,
    {
        if let Err(fault) = check_row(rows, key_faults, names, i) {
            return Err(fault);
        }
        i = i + 1;
    }
    let mut out: Vec<SourceBatch> = Vec::new();
    let sources = names_in_order(names);
    let mut k: usize = 0;
    assert(batch_views(out@) =~= batches_of(all, request.location, names.claude@, 0));
    while k < sources.len()
        invariant
            k <= sources.len(),
            text::views(sources@) == sorted_names(names.claude@),
            *rows == request.observations,
            all == observation_views(rows@),
            batch_views(out@) == batches_of(all, request.location, names.claude@, k as int),
        decreases sources.len() - k,
    {
        let ghost earlier = batch_views(out@);
        let source = sources[k].as_str();
        assert(source@ == sorted_names(names.claude@)[k as int]);
        let own = collect_rows(rows, source, request.location);
        let ghost views = observation_views(own@);
        if own.len() > 0 {
            out.push(SourceBatch { source: source.to_owned(), rows: own });
            assert(batch_views(out@) =~= earlier.push((source@, views)));
        }
        k = k + 1;
    }
    Ok(out)
}

/// What discovery knows of a row before it reads it.
#[derive(Debug)]
pub struct Candidate {
    pub locator: String,
    pub session_id: String,
    pub recency_hint_ms: Option<i64>,
    pub stamp: String,
}

/// Makes the candidate of a row. A row without a handle is located by its
/// session, and one without a stamp is stamped by the digest of its JSON text.
pub fn candidate(row: &SourceObservation, row_json: &[u8]) -> (r: Candidate)
    ensures
        r.locator@ == match handle_of(row@) {
            Some(handle) => handle,
            None => row@.session.session_id,
        },
        r.session_id@ == row@.session.session_id,
        r.recency_hint_ms == row.session.last_activity_ms,
        r.stamp@ == match row@.session.source_stamp {
            Some(stamp) => stamp,
            None => digest::sha256_hex(row_json@),
        },
{
    Candidate {
        locator: match &row.raw_locator {
            Some(locator) => locator.clone(),
            None => match &row.session.raw_path {
                Some(path) => path.clone(),
                None => row.session.session_id.clone(),
            },
        },
        session_id: row.session.session_id.clone(),
        recency_hint_ms: row.session.last_activity_ms,
        stamp: match &row.session.source_stamp {
            Some(stamp) => stamp.clone(),
            None => digest::hex_digest(row_json),
        },
    }
}

/// Reads the row of a candidate out of a batch: the first of its session.
pub fn read_shallow(rows: &Vec<SourceObservation>, session_id: &str) -> (r: Option<ShallowSession>)
    ensures
        match r {
            Some(session) => exists|i: int|
                {
                    &&& 0 <= i < rows@.len()
                    &&& (#[trigger] rows@[i]).session@ == session@
                    &&& session.session_id@ == session_id@
                    &&& forall|j: int|
                        0 <= j < i ==> (#[trigger] rows@[j]).session.session_id@ != session_id@
                },
            None => forall|i: int|
                0 <= i < rows@.len() ==> (#[trigger] rows@[i]).session.session_id@ != session_id@,
        },
{
    let mut i: usize = 0;
    while i < rows.len()
        invariant
            i <= rows.len(),
            forall|j: int| 0 <= j < i ==> (#[trigger] rows@[j]).session.session_id@ != session_id@,
        decreases rows.len() - i,
    {
        if same_text(rows[i].session.session_id.as_str(), session_id) {
            let found = rows[i].session.copied();
            assert(rows@[i as int].session@ == found@);
            return Some(found);
        }
        i = i + 1;
    }
    None
}

/// Asks for the state of one observation.
#[derive(Debug)]
pub struct ObservationRequest {
    pub db_path: Option<String>,
    pub key: ObservationKey,
}

/// What the ledger holds of one observation: its row, its checkpoint and its
/// revision.
#[derive(Debug)]
pub struct ObservationState<O, C> {
    pub observation: Option<O>,
    pub checkpoint: Option<C>,
    pub revision: Option<String>,
}

/// The database of a request: the one it names, or else the default one.
pub open spec fn database_of(named: Option<String>, default_path: Seq<char>) -> Seq<char> {
    match named {
        Some(path) => path@,
        None => default_path,
    }
}

/// The database of a request.
pub fn request_db_path(named: &Option<String>, default_path: &str) -> (r: String)
    ensures
        r@ == database_of(*named, default_path@),
{
    match named {
        Some(path) => path.clone(),
        None => default_path.to_owned(),
    }
}

/// The state of an observation.
///
/// `key_fault` is what validating the key found, and `read` is what the ledger
/// answered; it is absent where there is no database. A request with a bad key is
/// refused whatever the ledger holds, and no database is an empty state.
pub fn get_source_observation<O, C>(
    key_fault: &Option<String>,
    read: Option<Result<ObservationState<O, C>, String>>,
) -> (r: Result<ObservationState<O, C>, String>)
    ensures
        match (*key_fault, read) {
            (Some(fault), _) => r is Err && r->Err_0@ == fault@,
            (None, None) => r is Ok && r->Ok_0.observation is None && r->Ok_0.checkpoint is None
                && r->Ok_0.revision is None,
            (None, Some(answer)) => r == answer,
        },
{
    if let Some(fault) = key_fault {
        return Err(fault.clone());
    }
    match read {
        None => Ok(ObservationState { observation: None, checkpoint: None, revision: None }),
        Some(answer) => answer,
    }
}

/// Asks to apply an acquired snapshot to one observation.
#[derive(Debug)]
pub struct ApplyEvidenceRequest {
    pub db_path: Option<String>,
    pub key: ObservationKey,
    pub expected_revision: String,
    /// Whether related sessions are reported; they are where this is not said.
    pub include_related: Option<bool>,
    pub evidence: NormalizedSourceEvidence,
}

/// What is wrong with a request to apply a snapshot, before anything is opened.
pub open spec fn apply_fault(
    request: ApplyEvidenceRequest,
    key_fault: Option<Seq<char>>,
    control_kinds: Seq<Seq<char>>,
    database_exists: bool,
) -> Option<Seq<char>> {
    let fault = evidence_fault(
        request.key,
        key_fault,
        control_kinds,
        request.evidence.source_stamp@,
        request.evidence.source_bytes,
        request.evidence.covered_kinds@,
        source_evidence::record_views(request.evidence.records@),
    );
    if fault is Some {
        fault
    } else if request.expected_revision@.len() == 0 {
        Some("INVALID_ARGUMENT: expected_revision is required"@)
    } else if !database_exists {
        Some("SESSION_NOT_FOUND: source observation is missing"@)
    } else {
        None
    }
}

/// Some records, each completed.
pub open spec fn completed_records(records: Seq<RecordTree>) -> Seq<RecordTree> {
    records.map_values(|record: RecordTree| source_evidence::completed(record))
}

/// Prepares an acquired snapshot for its fence: validates it, completes its
/// records, and takes relationships out where the request declined them.
pub fn apply_source_evidence(
    request: ApplyEvidenceRequest,
    key_fault: &Option<String>,
    control_kinds: &Vec<String>,
    database_exists: bool,
) -> (r: Result<NormalizedSourceEvidence, String>)
    ensures
        match r {
            Err(fault) => apply_fault(
                request,
                text::opt_view(*key_fault),
                text::views(control_kinds@),
                database_exists,
            ) == Some(fault@),
            Ok(evidence) => {
                let declined = request.include_related == Some(false);
                let given = completed_records(
                    source_evidence::record_views(request.evidence.records@),
                );
                &&& apply_fault(
                    request,
                    text::opt_view(*key_fault),
                    text::views(control_kinds@),
                    database_exists,
                ) is None
                &&& evidence.source_stamp@ == request.evidence.source_stamp@
                &&& evidence.source_bytes == request.evidence.source_bytes
                &&& evidence.covered_kinds@ == if declined {
                    unrelated_kinds(request.evidence.covered_kinds@)
                } else {
                    request.evidence.covered_kinds@
                }
                &&& source_evidence::record_views(evidence.records@) == if declined {
                    unrelated_records(given)
                } else {
                    given
                }
            },
        },
{
    let mut evidence = request.evidence;
    let ghost before = evidence;
    match validate(&request.key, key_fault, control_kinds, &mut evidence) {
        Ok(_) => {},
        Err(fault) => return Err(fault),
    }
    if request.expected_revision.as_str().is_empty() {
        return Err("INVALID_ARGUMENT: expected_revision is required".to_owned());
    }
    if !database_exists {
        return Err("SESSION_NOT_FOUND: source observation is missing".to_owned());
    }
    assert(source_evidence::record_views(evidence.records@) =~= completed_records(
        source_evidence::record_views(before.records@),
    ));
    let include_related = match request.include_related {
        Some(included) => included,
        None => true,
    };
    Ok(restrict_related(evidence, include_related))
}

} // verus!
