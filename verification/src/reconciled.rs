//! What a reconciliation leaves behind.
//!
//! Each law speaks of one call of [`reconcile`]: of the stored snapshots, the acquired
//! records and the canonical rows that go in, and of the plan that comes out.
use crate::json;
use crate::json::JsonTree;
use crate::order;
use crate::source_evidence;
use crate::source_evidence::{EvidenceKind, EvidenceRecord, ObservationKey, RecordTree};
use crate::source_intake;
use crate::source_intake::{
    reconcile, CanonicalRow, IntakeStatus, ItemView, ManagedRecord, NormalizedSourceEvidence,
    OwnedSnapshot, OwnerView, Reconciliation, RecordSnapshot, SnapshotOwner, SnapshotView,
};
use crate::store::SessionLocation;
use crate::text;
use vstd::prelude::*;
use vstd::string::*;

verus! {

/// The identity of a record.
pub open spec fn identity(record: EvidenceRecord) -> Seq<char> {
    source_evidence::identity_of(record@)
}

/// Whether an owner is that of an observation.
pub open spec fn is_own(owner: SnapshotOwner, key: ObservationKey) -> bool {
    &&& owner.location == key.location
    &&& owner.connector_id@ == key.connector_id@
    &&& owner.connector_instance@ == key.connector_instance@
}

/// Whether two owners are the same.
pub open spec fn is_same(a: SnapshotOwner, b: SnapshotOwner) -> bool {
    &&& a.location == b.location
    &&& a.connector_id@ == b.connector_id@
    &&& a.connector_instance@ == b.connector_instance@
}

/// Whether a stored snapshot stands: no later one is of the same owner.
pub open spec fn stands(observed: Seq<OwnedSnapshot>, k: int) -> bool {
    &&& 0 <= k < observed.len()
    &&& forall|j: int| k < j < observed.len() ==> !is_same((#[trigger] observed[j]).owner, observed[k].owner)
}

/// Whether a stored snapshot stands and has a record at a place.
pub open spec fn has_record(observed: Seq<OwnedSnapshot>, k: int, m: int) -> bool {
    stands(observed, k) && 0 <= m < observed[k].snapshot.records@.len()
}

/// The record at a place of a stored snapshot.
pub open spec fn record_at(observed: Seq<OwnedSnapshot>, k: int, m: int) -> EvidenceRecord {
    observed[k].snapshot.records@[m].record
}

/// Whether the record at a place of a stored snapshot is owned.
pub open spec fn owned_at(observed: Seq<OwnedSnapshot>, k: int, m: int) -> bool {
    observed[k].snapshot.records@[m].managed
}

/// Whether a row is protected: it was, or the plan protects it.
pub open spec fn is_protected(
    protected: Seq<String>,
    plan: Reconciliation,
    id: Seq<char>,
) -> bool {
    (exists|i: int| 0 <= i < protected.len() && (#[trigger] protected[i])@ == id) || (exists|i: int|
        0 <= i < plan.protect@.len() && (#[trigger] plan.protect@[i])@ == id)
}

/// Whether there is a canonical row.
pub open spec fn is_stored(rows: Seq<CanonicalRow>, id: Seq<char>) -> bool {
    exists|i: int| 0 <= i < rows.len() && (#[trigger] rows[i]).identity@ == id && rows[i].exists
}

/// Whether the canonical row is what the first owner's snapshot says.
pub open spec fn is_unedited(rows: Seq<CanonicalRow>, id: Seq<char>) -> bool {
    exists|i: int| 0 <= i < rows.len() && (#[trigger] rows[i]).identity@ == id && rows[i].matches
}

/// Whether a row was owned by some connector before, and is not protected.
pub open spec fn was_owned(
    observed: Seq<OwnedSnapshot>,
    protected: Seq<String>,
    plan: Reconciliation,
    id: Seq<char>,
) -> bool {
    !is_protected(protected, plan, id) && exists|k: int, m: int| #[trigger]
        has_record(observed, k, m) && identity(record_at(observed, k, m)) == id && owned_at(
            observed,
            k,
            m,
        )
}

/// Whether another connector asserts a record.
pub open spec fn others_assert(
    observed: Seq<OwnedSnapshot>,
    key: ObservationKey,
    id: Seq<char>,
) -> bool {
    exists|k: int, m: int| #[trigger]
        has_record(observed, k, m) && !is_own(observed[k].owner, key) && identity(
            record_at(observed, k, m),
        ) == id
}

/// Whether another connector owns a record.
pub open spec fn others_own(
    observed: Seq<OwnedSnapshot>,
    key: ObservationKey,
    protected: Seq<String>,
    plan: Reconciliation,
    id: Seq<char>,
) -> bool {
    !is_protected(protected, plan, id) && exists|k: int, m: int| #[trigger]
        has_record(observed, k, m) && !is_own(observed[k].owner, key) && identity(
            record_at(observed, k, m),
        ) == id && owned_at(observed, k, m)
}

/// Whether the connector asserts a record from now on.
pub open spec fn asserts(plan: Reconciliation, id: Seq<char>) -> bool {
    exists|j: int|
        0 <= j < plan.own.records@.len() && identity((#[trigger] plan.own.records@[j]).record) == id
}

/// Whether the connector owns a record from now on.
pub open spec fn owns(plan: Reconciliation, id: Seq<char>) -> bool {
    exists|j: int|
        0 <= j < plan.own.records@.len() && identity((#[trigger] plan.own.records@[j]).record) == id
            && plan.own.records@[j].managed
}

/// Whether the plan removes a row.
pub open spec fn removes(plan: Reconciliation, id: Seq<char>) -> bool {
    exists|j: int| 0 <= j < plan.remove@.len() && (#[trigger] plan.remove@[j]).identity@ == id
}

/// Whether the plan writes a row.
pub open spec fn writes(plan: Reconciliation, id: Seq<char>) -> bool {
    exists|j: int| 0 <= j < plan.write@.len() && (#[trigger] plan.write@[j]).identity@ == id
}

/// Whether one owner comes before another: a local one first, then by connector and by
/// instance.
pub open spec fn comes_before(a: OwnerView, b: OwnerView) -> bool {
    ||| a.location == SessionLocation::Local && b.location != SessionLocation::Local
    ||| a.location == b.location && order::text_less(a.connector_id, b.connector_id)
    ||| a.location == b.location && a.connector_id == b.connector_id && order::text_less(
        a.connector_instance,
        b.connector_instance,
    )
}

proof fn lemma_owner_order(a: OwnerView, b: OwnerView, c: OwnerView)
    ensures
        !source_intake::owner_less(a, a),
        source_intake::owner_less(a, b) && source_intake::owner_less(b, c)
            ==> source_intake::owner_less(a, c),
        a == b || source_intake::owner_less(a, b) || source_intake::owner_less(b, a),
        source_intake::owner_less(a, b) ==> !source_intake::owner_less(b, a) && a != b,
        source_intake::owner_less(a, b) == comes_before(a, b),
{
    order::lemma_text_less_irreflexive(a.connector_id);
    order::lemma_text_less_irreflexive(a.connector_instance);
    order::lemma_text_less_irreflexive(b.connector_id);
    order::lemma_text_less_irreflexive(b.connector_instance);
    order::lemma_text_less_total(a.connector_id, b.connector_id);
    order::lemma_text_less_total(a.connector_instance, b.connector_instance);
    if order::text_less(a.connector_id, b.connector_id) && order::text_less(
        b.connector_id,
        c.connector_id,
    ) {
        order::lemma_text_less_transitive(a.connector_id, b.connector_id, c.connector_id);
    }
    if order::text_less(a.connector_id, b.connector_id) && order::text_less(
        b.connector_id,
        a.connector_id,
    ) {
        order::lemma_text_less_transitive(a.connector_id, b.connector_id, a.connector_id);
    }
    if order::text_less(a.connector_instance, b.connector_instance) && order::text_less(
        b.connector_instance,
        c.connector_instance,
    ) {
        order::lemma_text_less_transitive(
            a.connector_instance,
            b.connector_instance,
            c.connector_instance,
        );
    }
    if order::text_less(a.connector_instance, b.connector_instance) && order::text_less(
        b.connector_instance,
        a.connector_instance,
    ) {
        order::lemma_text_less_transitive(
            a.connector_instance,
            b.connector_instance,
            a.connector_instance,
        );
    }
    if a.location != b.location && b.location != c.location {
        assert(a.location == c.location);
    }
    order::lemma_text_less_irreflexive(c.connector_id);
}

/// Whether snapshots stand in the order of their owners, no two of one owner.
spec fn in_order(list: Seq<SnapshotView>) -> bool {
    forall|i: int, j: int|
        0 <= i < j < list.len() ==> source_intake::owner_less(
            (#[trigger] list[i]).owner,
            (#[trigger] list[j]).owner,
        )
}

proof fn lemma_placed(list: Seq<SnapshotView>, one: SnapshotView)
    requires
        in_order(list),
    ensures
        in_order(source_intake::placed(list, one)),
        forall|s: SnapshotView| #[trigger]
            source_intake::placed(list, one).contains(s) <==> s == one || (list.contains(s)
                && s.owner != one.owner),
        forall|x: OwnerView|
            source_intake::owner_less(x, one.owner) && (forall|i: int|
                0 <= i < list.len() ==> source_intake::owner_less(x, (#[trigger] list[i]).owner))
                ==> forall|i: int|
                0 <= i < source_intake::placed(list, one).len() ==> #[trigger]
                    source_intake::owner_less(x, source_intake::placed(list, one)[i].owner),
    decreases list.len(),
{
    let after = source_intake::placed(list, one);
    if list.len() == 0 {
        assert(after[0] == one);
        assert forall|s: SnapshotView| #[trigger] after.contains(s) <==> s == one || (list.contains(
            s,
        ) && s.owner != one.owner) by {
            assert(after.contains(one)) by {
                assert(after[0] == one);
            }
        }
    } else {
        let rest = list.drop_first();
        let head = list[0];
        lemma_owner_order(one.owner, head.owner, head.owner);
        assert forall|i: int, j: int| 0 <= i < j < rest.len() implies source_intake::owner_less(
            (#[trigger] rest[i]).owner,
            (#[trigger] rest[j]).owner,
        ) by {
            assert(rest[i] == list[i + 1] && rest[j] == list[j + 1]);
        }
        assert forall|i: int| 0 <= i < rest.len() implies source_intake::owner_less(
            head.owner,
            (#[trigger] rest[i]).owner,
        ) by {
            assert(rest[i] == list[i + 1]);
        }
        if head.owner == one.owner {
            assert(after =~= seq![one] + rest);
            assert forall|i: int, j: int| 0 <= i < j < after.len() implies source_intake::owner_less(
                (#[trigger] after[i]).owner,
                (#[trigger] after[j]).owner,
            ) by {
                assert(after[j] == rest[j - 1]);
                if i > 0 {
                    assert(after[i] == rest[i - 1]);
                }
            }
            assert forall|s: SnapshotView| #[trigger] after.contains(s) <==> s == one || (
            list.contains(s) && s.owner != one.owner) by {
                assert(after[0] == one);
                if after.contains(s) && s != one {
                    let i = choose|i: int| 0 <= i < after.len() && after[i] == s;
                    assert(rest[i - 1] == s && list[i] == s);
                    lemma_owner_order(head.owner, s.owner, s.owner);
                }
                if list.contains(s) && s.owner != one.owner {
                    let i = choose|i: int| 0 <= i < list.len() && list[i] == s;
                    assert(i > 0);
                    assert(after[i] == s);
                }
            }
        } else if source_intake::owner_less(one.owner, head.owner) {
            assert(after =~= seq![one] + list);
            assert forall|i: int| 0 <= i < list.len() implies source_intake::owner_less(
                one.owner,
                (#[trigger] list[i]).owner,
            ) by {
                if i > 0 {
                    assert(source_intake::owner_less(list[0].owner, list[i].owner));
                    lemma_owner_order(one.owner, head.owner, list[i].owner);
                }
            }
            assert forall|i: int, j: int| 0 <= i < j < after.len() implies source_intake::owner_less(
                (#[trigger] after[i]).owner,
                (#[trigger] after[j]).owner,
            ) by {
                assert(after[j] == list[j - 1]);
                if i > 0 {
                    assert(after[i] == list[i - 1]);
                }
            }
            assert forall|s: SnapshotView| #[trigger] after.contains(s) <==> s == one || (
            list.contains(s) && s.owner != one.owner) by {
                assert(after[0] == one);
                if after.contains(s) && s != one {
                    let i = choose|i: int| 0 <= i < after.len() && after[i] == s;
                    assert(list[i - 1] == s);
                    lemma_owner_order(one.owner, s.owner, s.owner);
                }
                if list.contains(s) && s.owner != one.owner {
                    let i = choose|i: int| 0 <= i < list.len() && list[i] == s;
                    assert(after[i + 1] == s);
                }
            }
        } else {
            lemma_placed(rest, one);
            let tail = source_intake::placed(rest, one);
            assert(after =~= seq![head] + tail);
            assert(source_intake::owner_less(head.owner, one.owner));
            assert forall|i: int, j: int| 0 <= i < j < after.len() implies source_intake::owner_less(
                (#[trigger] after[i]).owner,
                (#[trigger] after[j]).owner,
            ) by {
                assert(after[j] == tail[j - 1]);
                if i > 0 {
                    assert(after[i] == tail[i - 1]);
                } else {
                    assert(source_intake::owner_less(head.owner, tail[j - 1].owner));
                }
            }
            assert forall|s: SnapshotView| #[trigger] after.contains(s) <==> s == one || (
            list.contains(s) && s.owner != one.owner) by {
                if after.contains(s) {
                    let i = choose|i: int| 0 <= i < after.len() && after[i] == s;
                    if i == 0 {
                        assert(list[0] == s);
                        assert(list.contains(s));
                    } else {
                        assert(tail[i - 1] == s);
                        assert(tail.contains(s));
                        if rest.contains(s) {
                            let j = choose|j: int| 0 <= j < rest.len() && rest[j] == s;
                            assert(list[j + 1] == s);
                        }
                    }
                }
                if s == one {
                    assert(tail.contains(one));
                    let i = choose|i: int| 0 <= i < tail.len() && tail[i] == one;
                    assert(after[i + 1] == one);
                }
                if list.contains(s) && s.owner != one.owner {
                    let i = choose|i: int| 0 <= i < list.len() && list[i] == s;
                    if i == 0 {
                        assert(after[0] == s);
                    } else {
                        assert(rest[i - 1] == s);
                        assert(tail.contains(s));
                        let j = choose|j: int| 0 <= j < tail.len() && tail[j] == s;
                        assert(after[j + 1] == s);
                    }
                }
            }
        }
        assert forall|x: OwnerView|
            source_intake::owner_less(x, one.owner) && (forall|i: int|
                0 <= i < list.len() ==> source_intake::owner_less(x, (#[trigger] list[i]).owner)) implies forall|
            i: int,
        |
            0 <= i < after.len() ==> #[trigger] source_intake::owner_less(x, after[i].owner) by {
            assert forall|i: int| 0 <= i < after.len() implies #[trigger] source_intake::owner_less(
                x,
                after[i].owner,
            ) by {
                assert(after.contains(after[i]));
                if after[i] != one {
                    let j = choose|j: int| 0 <= j < list.len() && list[j] == after[i];
                    assert(source_intake::owner_less(x, list[j].owner));
                }
            }
        }
    }
}

/// Whether a snapshot is the last of its owner.
spec fn is_last(list: Seq<SnapshotView>, k: int) -> bool {
    &&& 0 <= k < list.len()
    &&& forall|j: int| k < j < list.len() ==> (#[trigger] list[j]).owner != list[k].owner
}

proof fn lemma_ordered(list: Seq<SnapshotView>)
    ensures
        in_order(source_intake::ordered(list)),
        forall|s: SnapshotView| #[trigger]
            source_intake::ordered(list).contains(s) <==> exists|k: int| #[trigger]
                is_last(list, k) && list[k] == s,
    decreases list.len(),
{
    let all = source_intake::ordered(list);
    if list.len() == 0 {
        assert forall|s: SnapshotView| #[trigger] all.contains(s) <==> exists|k: int| #[trigger]
            is_last(list, k) && list[k] == s by {}
    } else {
        let front = list.drop_last();
        let one = list.last();
        let before = source_intake::ordered(front);
        lemma_ordered(front);
        lemma_placed(before, one);
        assert forall|s: SnapshotView| #[trigger] all.contains(s) <==> exists|k: int| #[trigger]
            is_last(list, k) && list[k] == s by {
            if all.contains(s) {
                if s == one {
                    assert(is_last(list, list.len() - 1));
                } else {
                    assert(before.contains(s));
                    let k = choose|k: int| #[trigger] is_last(front, k) && front[k] == s;
                    assert(list[k] == s);
                    assert forall|j: int| k < j < list.len() implies (#[trigger] list[j]).owner
                        != list[k].owner by {
                        if j < front.len() {
                            assert(front[j] == list[j]);
                        }
                    }
                    assert(is_last(list, k));
                }
            }
            if exists|k: int| #[trigger] is_last(list, k) && list[k] == s {
                let k = choose|k: int| #[trigger] is_last(list, k) && list[k] == s;
                if k < front.len() {
                    assert(list[list.len() - 1].owner != list[k].owner);
                    assert forall|j: int| k < j < front.len() implies (#[trigger] front[j]).owner
                        != front[k].owner by {
                        assert(list[j] == front[j]);
                    }
                    assert(is_last(front, k));
                    assert(before.contains(s));
                }
            }
        }
    }
}

/// A record that is owned no more where its row is revoked.
spec fn revoked_item(item: ItemView, revoked: Seq<Seq<char>>) -> ItemView {
    ItemView { managed: item.managed && !revoked.contains(item.id), ..item }
}

/// Whether a record is one of a standing snapshot, after revocation.
spec fn is_held(
    seen: Seq<SnapshotView>,
    revoked: Seq<Seq<char>>,
    k: int,
    m: int,
    item: ItemView,
) -> bool {
    &&& is_last(seen, k)
    &&& 0 <= m < seen[k].items.len()
    &&& item == revoked_item(seen[k].items[m], revoked)
}

proof fn lemma_revoked(list: Seq<SnapshotView>, revoked: Seq<Seq<char>>)
    requires
        in_order(list),
    ensures
        in_order(source_intake::revoked_snapshots(list, revoked)),
        source_intake::revoked_snapshots(list, revoked).len() == list.len(),
        forall|i: int|
            0 <= i < list.len() ==> (#[trigger] source_intake::revoked_snapshots(
                list,
                revoked,
            )[i]).owner == list[i].owner && source_intake::revoked_snapshots(list, revoked)[i].kinds
                == list[i].kinds && source_intake::revoked_snapshots(list, revoked)[i].items
                == source_intake::revoked_items(list[i].items, revoked),
{
    let kept = source_intake::revoked_snapshots(list, revoked);
    assert forall|i: int, j: int| 0 <= i < j < kept.len() implies source_intake::owner_less(
        (#[trigger] kept[i]).owner,
        (#[trigger] kept[j]).owner,
    ) by {
        assert(source_intake::owner_less(list[i].owner, list[j].owner));
    }
}

proof fn lemma_flat_has(list: Seq<SnapshotView>, item: ItemView)
    ensures
        source_intake::flat(list).contains(item) <==> exists|i: int, m: int|
            0 <= i < list.len() && 0 <= m < list[i].items.len() && #[trigger] list[i].items[m]
                == item,
    decreases list.len(),
{
    if list.len() > 0 {
        let front = list.drop_last();
        lemma_flat_has(front, item);
        let all = source_intake::flat(list);
        let before = source_intake::flat(front);
        let n = before.len();
        if all.contains(item) {
            let x = choose|x: int| 0 <= x < all.len() && all[x] == item;
            if x < n {
                assert(before[x] == item);
                let (i, m) = choose|i: int, m: int|
                    0 <= i < front.len() && 0 <= m < front[i].items.len()
                        && #[trigger] front[i].items[m] == item;
                assert(list[i].items[m] == item);
            } else {
                assert(list[list.len() - 1].items[x - n] == item);
            }
        }
        if exists|i: int, m: int|
            0 <= i < list.len() && 0 <= m < list[i].items.len() && #[trigger] list[i].items[m]
                == item {
            let (i, m) = choose|i: int, m: int|
                0 <= i < list.len() && 0 <= m < list[i].items.len() && #[trigger] list[i].items[m]
                    == item;
            if i < front.len() {
                assert(front[i].items[m] == item);
                let x = choose|x: int| 0 <= x < n && before[x] == item;
                assert(all[x] == item);
            } else {
                assert(all[n + m] == item);
            }
        }
    }
}

/// What stands before a reconciliation.
proof fn lemma_before(seen: Seq<SnapshotView>, revoked: Seq<Seq<char>>, item: ItemView)
    ensures
        source_intake::flat(
            source_intake::revoked_snapshots(source_intake::ordered(seen), revoked),
        ).contains(item) <==> exists|k: int, m: int| #[trigger]
            is_held(seen, revoked, k, m, item),
{
    let list = source_intake::ordered(seen);
    let kept = source_intake::revoked_snapshots(list, revoked);
    lemma_ordered(seen);
    lemma_revoked(list, revoked);
    lemma_flat_has(kept, item);
    if source_intake::flat(kept).contains(item) {
        let (i, m) = choose|i: int, m: int|
            0 <= i < kept.len() && 0 <= m < kept[i].items.len() && #[trigger] kept[i].items[m]
                == item;
        assert(list.contains(list[i]));
        let k = choose|k: int| #[trigger] is_last(seen, k) && seen[k] == list[i];
        assert(is_held(seen, revoked, k, m, item));
    }
    if exists|k: int, m: int| #[trigger] is_held(seen, revoked, k, m, item) {
        let (k, m) = choose|k: int, m: int| #[trigger] is_held(seen, revoked, k, m, item);
        assert(list.contains(seen[k]));
        let i = choose|i: int| 0 <= i < list.len() && list[i] == seen[k];
        assert(kept[i].items[m] == item);
    }
}

/// The snapshot of the connector before a reconciliation: its standing one.
proof fn lemma_own(seen: Seq<SnapshotView>, revoked: Seq<Seq<char>>, owner: OwnerView)
    ensures
        ({
            let kept = source_intake::revoked_snapshots(source_intake::ordered(seen), revoked);
            let own = source_intake::own_of(kept, owner);
            &&& forall|k: int| #[trigger]
                is_last(seen, k) && seen[k].owner == owner ==> own.kinds == seen[k].kinds
                    && own.items == source_intake::revoked_items(seen[k].items, revoked)
            &&& (forall|k: int| #[trigger] is_last(seen, k) ==> seen[k].owner != owner)
                ==> own.kinds.len() == 0 && own.items.len() == 0
        }),
{
    let list = source_intake::ordered(seen);
    let kept = source_intake::revoked_snapshots(list, revoked);
    let own = source_intake::own_of(kept, owner);
    lemma_ordered(seen);
    lemma_revoked(list, revoked);
    lemma_own_is(kept, owner);
    assert forall|k: int| #[trigger] is_last(seen, k) && seen[k].owner == owner implies own.kinds
        == seen[k].kinds && own.items == source_intake::revoked_items(seen[k].items, revoked) by {
        assert(list.contains(seen[k]));
        let i = choose|i: int| 0 <= i < list.len() && list[i] == seen[k];
        assert(kept[i].owner == owner);
    }
    if forall|k: int| #[trigger] is_last(seen, k) ==> seen[k].owner != owner {
        assert forall|i: int| 0 <= i < kept.len() implies (#[trigger] kept[i]).owner != owner by {
            assert(list.contains(list[i]));
            let k = choose|k: int| #[trigger] is_last(seen, k) && seen[k] == list[i];
        }
    }
}

proof fn lemma_own_is(list: Seq<SnapshotView>, owner: OwnerView)
    requires
        in_order(list),
    ensures
        forall|i: int|
            0 <= i < list.len() && (#[trigger] list[i]).owner == owner ==> source_intake::own_of(
                list,
                owner,
            ) == list[i],
        (forall|i: int| 0 <= i < list.len() ==> (#[trigger] list[i]).owner != owner)
            ==> source_intake::own_of(list, owner).kinds.len() == 0 && source_intake::own_of(
            list,
            owner,
        ).items.len() == 0,
    decreases list.len(),
{
    if list.len() > 0 {
        let rest = list.drop_first();
        assert forall|i: int, j: int| 0 <= i < j < rest.len() implies source_intake::owner_less(
            (#[trigger] rest[i]).owner,
            (#[trigger] rest[j]).owner,
        ) by {
            assert(rest[i] == list[i + 1] && rest[j] == list[j + 1]);
        }
        lemma_own_is(rest, owner);
        assert forall|i: int|
            0 <= i < list.len() && (#[trigger] list[i]).owner == owner implies source_intake::own_of(
            list,
            owner,
        ) == list[i] by {
            if i > 0 {
                assert(source_intake::owner_less(list[0].owner, list[i].owner));
                lemma_owner_order(list[0].owner, list[i].owner, list[i].owner);
                assert(rest[i - 1] == list[i]);
            }
        }
        if forall|i: int| 0 <= i < list.len() ==> (#[trigger] list[i]).owner != owner {
            assert(list[0].owner != owner);
            assert forall|i: int| 0 <= i < rest.len() implies (#[trigger] rest[i]).owner != owner by {
                assert(rest[i] == list[i + 1]);
            }
        }
    }
}

proof fn lemma_retained(items: Seq<ItemView>, covered: Seq<EvidenceKind>)
    ensures
        forall|item: ItemView| #[trigger]
            source_intake::retained(items, covered).contains(item) <==> items.contains(item)
                && !covered.contains(item.record.kind),
    decreases items.len(),
{
    if items.len() > 0 {
        let front = items.drop_last();
        let last = items.last();
        lemma_retained(front, covered);
        let before = source_intake::retained(front, covered);
        let after = source_intake::retained(items, covered);
        assert forall|item: ItemView| #[trigger] after.contains(item) <==> items.contains(item)
            && !covered.contains(item.record.kind) by {
            assert(items.contains(item) <==> front.contains(item) || item == last) by {
                if items.contains(item) {
                    let i = choose|i: int| 0 <= i < items.len() && items[i] == item;
                    if i < front.len() {
                        assert(front[i] == item);
                    }
                }
                if front.contains(item) {
                    let i = choose|i: int| 0 <= i < front.len() && front[i] == item;
                    assert(items[i] == item);
                }
                assert(items[items.len() - 1] == last);
            }
            if !covered.contains(last.record.kind) {
                assert(after.contains(item) <==> before.contains(item) || item == last) by {
                    if after.contains(item) {
                        let i = choose|i: int| 0 <= i < after.len() && after[i] == item;
                        if i < before.len() {
                            assert(before[i] == item);
                        }
                    }
                    if before.contains(item) {
                        let i = choose|i: int| 0 <= i < before.len() && before[i] == item;
                        assert(after[i] == item);
                    }
                    assert(after[before.len() as int] == last);
                }
            }
        }
    }
}

/// The connector's snapshot after a reconciliation holds what it held of the kinds that
/// were not covered, and what was acquired.
proof fn lemma_next(
    own: Seq<ItemView>,
    covered: Seq<EvidenceKind>,
    records: Seq<RecordTree>,
    revoked: Seq<Seq<char>>,
    before: Seq<ItemView>,
    rows: Seq<CanonicalRow>,
)
    ensures
        ({
            let next = source_intake::next_items(own, covered, records, revoked, before, rows);
            &&& next.len() == source_intake::retained(own, covered).len() + records.len()
            &&& forall|item: ItemView| #[trigger]
                next.contains(item) <==> (own.contains(item) && !covered.contains(
                    item.record.kind,
                )) || exists|e: int|
                    0 <= e < records.len() && item == source_intake::fresh_item(
                        #[trigger] records[e],
                        revoked,
                        before,
                        rows,
                    )
            &&& forall|i: int, j: int|
                0 <= i < j < next.len() ==> !order::text_less(
                    (#[trigger] next[j]).id,
                    (#[trigger] next[i]).id,
                )
        }),
{
    broadcast use vstd::seq_lib::group_to_multiset_ensures;

    let kept = source_intake::retained(own, covered);
    let added = source_intake::fresh(records, revoked, before, rows);
    let unsorted = kept + added;
    let next = source_intake::next_items(own, covered, records, revoked, before, rows);
    source_intake::law_sorted_items(unsorted);
    lemma_retained(own, covered);
    assert(next.len() == unsorted.len()) by {
        assert(next.to_multiset().len() == unsorted.to_multiset().len());
    }
    assert forall|item: ItemView| #[trigger] next.contains(item) <==> (own.contains(item)
        && !covered.contains(item.record.kind)) || exists|e: int|
        0 <= e < records.len() && item == source_intake::fresh_item(
            #[trigger] records[e],
            revoked,
            before,
            rows,
        ) by {
        assert(next.contains(item) <==> unsorted.contains(item)) by {
            assert(next.to_multiset().count(item) == unsorted.to_multiset().count(item));
        }
        if unsorted.contains(item) {
            let u = choose|u: int| 0 <= u < unsorted.len() && unsorted[u] == item;
            if u < kept.len() {
                assert(kept[u] == item);
                assert(kept.contains(item));
            } else {
                let e = u - kept.len();
                assert(added[e] == item);
                assert(item == source_intake::fresh_item(records[e], revoked, before, rows));
            }
        }
        if own.contains(item) && !covered.contains(item.record.kind) {
            assert(kept.contains(item));
            let u = choose|u: int| 0 <= u < kept.len() && kept[u] == item;
            assert(unsorted[u] == item);
        }
        if exists|e: int|
            0 <= e < records.len() && item == source_intake::fresh_item(
                #[trigger] records[e],
                revoked,
                before,
                rows,
            ) {
            let e = choose|e: int|
                0 <= e < records.len() && item == source_intake::fresh_item(
                    #[trigger] records[e],
                    revoked,
                    before,
                    rows,
                );
            assert(added[e] == item);
            assert(unsorted[kept.len() + e] == item);
        }
    }
}

/// What stands after a reconciliation: the connector's new snapshot, and the standing
/// ones of all others.
proof fn lemma_after(
    seen: Seq<SnapshotView>,
    revoked: Seq<Seq<char>>,
    next: SnapshotView,
    item: ItemView,
)
    ensures
        ({
            let kept = source_intake::revoked_snapshots(source_intake::ordered(seen), revoked);
            source_intake::flat(source_intake::placed(kept, next)).contains(item)
                <==> next.items.contains(item) || exists|k: int, m: int| #[trigger]
                is_held(seen, revoked, k, m, item) && seen[k].owner != next.owner
        }),
{
    let list = source_intake::ordered(seen);
    let kept = source_intake::revoked_snapshots(list, revoked);
    let after = source_intake::placed(kept, next);
    lemma_ordered(seen);
    lemma_revoked(list, revoked);
    lemma_placed(kept, next);
    lemma_flat_has(after, item);
    if source_intake::flat(after).contains(item) {
        let (i, m) = choose|i: int, m: int|
            0 <= i < after.len() && 0 <= m < after[i].items.len() && #[trigger] after[i].items[m]
                == item;
        assert(after.contains(after[i]));
        if after[i] != next {
            assert(kept.contains(after[i]));
            let j = choose|j: int| 0 <= j < kept.len() && kept[j] == after[i];
            assert(list.contains(list[j]));
            let k = choose|k: int| #[trigger] is_last(seen, k) && seen[k] == list[j];
            assert(is_held(seen, revoked, k, m, item));
        } else {
            assert(next.items[m] == item);
        }
    }
    if next.items.contains(item) {
        assert(after.contains(next));
        let i = choose|i: int| 0 <= i < after.len() && after[i] == next;
        let m = choose|m: int| 0 <= m < next.items.len() && next.items[m] == item;
        assert(after[i].items[m] == item);
    }
    if exists|k: int, m: int| #[trigger]
        is_held(seen, revoked, k, m, item) && seen[k].owner != next.owner {
        let (k, m) = choose|k: int, m: int| #[trigger]
            is_held(seen, revoked, k, m, item) && seen[k].owner != next.owner;
        assert(list.contains(seen[k]));
        let j = choose|j: int| 0 <= j < list.len() && list[j] == seen[k];
        assert(kept.contains(kept[j]));
        assert(after.contains(kept[j]));
        let i = choose|i: int| 0 <= i < after.len() && after[i] == kept[j];
        assert(after[i].items[m] == item);
    }
}

proof fn lemma_managed_is_found(items: Seq<ItemView>, id: Seq<char>)
    ensures
        source_intake::last_managed(items, id) is Some <==> source_intake::is_managed(items, id),
        source_intake::first_with(items, id) is Some <==> source_intake::has_id(items, id),
        source_intake::last_managed(items, id) matches Some(record) ==> exists|i: int|
            0 <= i < items.len() && (#[trigger] items[i]).id == id && items[i].record == record,
        source_intake::first_with(items, id) matches Some(record) ==> exists|i: int|
            0 <= i < items.len() && (#[trigger] items[i]).id == id && items[i].record == record,
    decreases items.len(),
{
    lemma_last_is_found(items, id);
    lemma_first_is_found(items, id);
}

proof fn lemma_last_is_found(items: Seq<ItemView>, id: Seq<char>)
    ensures
        source_intake::last_managed(items, id) is Some <==> source_intake::is_managed(items, id),
        source_intake::last_managed(items, id) matches Some(record) ==> exists|i: int|
            0 <= i < items.len() && (#[trigger] items[i]).id == id && items[i].record == record,
    decreases items.len(),
{
    if items.len() > 0 {
        let front = items.drop_last();
        lemma_last_is_found(front, id);
        if items.last().id == id && items.last().managed {
            assert(items[items.len() - 1].id == id && items[items.len() - 1].managed);
        } else {
            if source_intake::is_managed(items, id) {
                let i = choose|i: int|
                    0 <= i < items.len() && (#[trigger] items[i]).id == id && items[i].managed;
                assert(front[i].id == id && front[i].managed);
            }
            if source_intake::is_managed(front, id) {
                let i = choose|i: int|
                    0 <= i < front.len() && (#[trigger] front[i]).id == id && front[i].managed;
                assert(items[i].id == id && items[i].managed);
            }
            if source_intake::last_managed(front, id) is Some {
                let record = source_intake::last_managed(front, id)->0;
                let i = choose|i: int|
                    0 <= i < front.len() && (#[trigger] front[i]).id == id && front[i].record
                        == record;
                assert(items[i].id == id && items[i].record == record);
            }
        }
    }
}

proof fn lemma_first_is_found(items: Seq<ItemView>, id: Seq<char>)
    ensures
        source_intake::first_with(items, id) is Some <==> source_intake::has_id(items, id),
        source_intake::first_with(items, id) matches Some(record) ==> exists|i: int|
            0 <= i < items.len() && (#[trigger] items[i]).id == id && items[i].record == record,
    decreases items.len(),
{
    if items.len() > 0 {
        let rest = items.drop_first();
        lemma_first_is_found(rest, id);
        if items[0].id == id {
            assert(items[0].record == items[0].record);
        } else {
            if source_intake::has_id(items, id) {
                let i = choose|i: int| 0 <= i < items.len() && (#[trigger] items[i]).id == id;
                assert(rest[i - 1].id == id);
            }
            if source_intake::first_with(rest, id) is Some {
                let record = source_intake::first_with(rest, id)->0;
                let i = choose|i: int|
                    0 <= i < rest.len() && (#[trigger] rest[i]).id == id && rest[i].record == record;
                assert(items[i + 1].id == id && items[i + 1].record == record);
            }
        }
    }
}

/// The first record with an identity is that of the first snapshot that has one.
proof fn lemma_first_of_snapshots(list: Seq<SnapshotView>, id: Seq<char>)
    requires
        source_intake::has_id(source_intake::flat(list), id),
    ensures
        exists|i: int|
            #![trigger list[i]]
            0 <= i < list.len() && source_intake::has_id(list[i].items, id)
                && source_intake::first_with(source_intake::flat(list), id)
                == source_intake::first_with(list[i].items, id) && forall|j: int|
                0 <= j < i ==> !source_intake::has_id((#[trigger] list[j]).items, id),
    decreases list.len(),
{
    let front = list.drop_last();
    let before = source_intake::flat(front);
    let all = source_intake::flat(list);
    let last = list.last();
    if source_intake::has_id(before, id) {
        lemma_first_of_snapshots(front, id);
        lemma_first_ahead(before, last.items, id);
        let i = choose|i: int|
            #![trigger front[i]]
            0 <= i < front.len() && source_intake::has_id(front[i].items, id)
                && source_intake::first_with(before, id) == source_intake::first_with(
                front[i].items,
                id,
            ) && forall|j: int| 0 <= j < i ==> !source_intake::has_id((#[trigger] front[j]).items, id);
        assert(list[i] == front[i]);
        assert forall|j: int| 0 <= j < i implies !source_intake::has_id(
            (#[trigger] list[j]).items,
            id,
        ) by {
            assert(front[j] == list[j]);
        }
    } else {
        lemma_first_behind(before, last.items, id);
        let x = choose|x: int| 0 <= x < all.len() && (#[trigger] all[x]).id == id;
        if x < before.len() {
            assert(before[x].id == id);
        }
        assert(last.items[x - before.len()].id == id);
        assert forall|j: int| 0 <= j < list.len() - 1 implies !source_intake::has_id(
            (#[trigger] list[j]).items,
            id,
        ) by {
            if source_intake::has_id(list[j].items, id) {
                let m = choose|m: int|
                    0 <= m < list[j].items.len() && (#[trigger] list[j].items[m]).id == id;
                lemma_flat_has(front, list[j].items[m]);
                assert(front[j].items[m] == list[j].items[m]);
                let y = choose|y: int| 0 <= y < before.len() && before[y] == list[j].items[m];
                assert(before[y].id == id);
            }
        }
        assert(list[list.len() - 1] == last);
    }
}

proof fn lemma_first_ahead(first: Seq<ItemView>, later: Seq<ItemView>, id: Seq<char>)
    requires
        source_intake::has_id(first, id),
    ensures
        source_intake::first_with(first + later, id) == source_intake::first_with(first, id),
    decreases first.len(),
{
    if first[0].id != id {
        let rest = first.drop_first();
        let k = choose|k: int| 0 <= k < first.len() && (#[trigger] first[k]).id == id;
        assert(rest[k - 1].id == id);
        lemma_first_ahead(rest, later, id);
        assert((first + later).drop_first() =~= rest + later);
    }
}

proof fn lemma_first_behind(first: Seq<ItemView>, later: Seq<ItemView>, id: Seq<char>)
    requires
        !source_intake::has_id(first, id),
    ensures
        source_intake::first_with(first + later, id) == source_intake::first_with(later, id),
    decreases first.len(),
{
    if first.len() == 0 {
        assert(first + later =~= later);
    } else {
        let rest = first.drop_first();
        assert(first[0].id != id);
        if source_intake::has_id(rest, id) {
            let k = choose|k: int| 0 <= k < rest.len() && (#[trigger] rest[k]).id == id;
            assert(first[k + 1].id == id);
        }
        lemma_first_behind(rest, later, id);
        assert((first + later).drop_first() =~= rest + later);
    }
}

/// Whether a plan is one that [`reconcile`] makes.
pub open spec fn is_plan(
    key: ObservationKey,
    evidence: NormalizedSourceEvidence,
    observed: Vec<OwnedSnapshot>,
    protected: Vec<String>,
    rows: Vec<CanonicalRow>,
    previous: Option<Option<String>>,
    plan: Reconciliation,
) -> bool {
    call_ensures(reconcile, (&key, &evidence, &observed, &protected, &rows, &previous), plan)
}

spec fn revoked_by(protected: Seq<String>, plan: Reconciliation) -> Seq<Seq<char>> {
    text::views(protected) + text::views(plan.protect@)
}

spec fn kept_of(
    observed: Seq<OwnedSnapshot>,
    protected: Seq<String>,
    plan: Reconciliation,
) -> Seq<SnapshotView> {
    source_intake::revoked_snapshots(
        source_intake::ordered(source_intake::snapshot_views(observed)),
        revoked_by(protected, plan),
    )
}

spec fn next_of(
    key: ObservationKey,
    evidence: NormalizedSourceEvidence,
    observed: Seq<OwnedSnapshot>,
    protected: Seq<String>,
    rows: Seq<CanonicalRow>,
    plan: Reconciliation,
) -> SnapshotView {
    source_intake::next_own(
        source_intake::owner_view(key),
        kept_of(observed, protected, plan),
        revoked_by(protected, plan),
        evidence.covered_kinds@,
        source_evidence::record_views(evidence.records@),
        rows,
    )
}

proof fn lemma_protected(protected: Seq<String>, plan: Reconciliation, id: Seq<char>)
    ensures
        revoked_by(protected, plan).contains(id) == is_protected(protected, plan, id),
{
    let first = text::views(protected);
    let second = text::views(plan.protect@);
    let all = first + second;
    if all.contains(id) {
        let i = choose|i: int| 0 <= i < all.len() && all[i] == id;
        if i < first.len() {
            assert(protected[i]@ == id);
        } else {
            assert(plan.protect@[i - first.len()]@ == id);
        }
    }
    if exists|i: int| 0 <= i < protected.len() && (#[trigger] protected[i])@ == id {
        let i = choose|i: int| 0 <= i < protected.len() && (#[trigger] protected[i])@ == id;
        assert(all[i] == id);
    }
    if exists|i: int| 0 <= i < plan.protect@.len() && (#[trigger] plan.protect@[i])@ == id {
        let i = choose|i: int|
            0 <= i < plan.protect@.len() && (#[trigger] plan.protect@[i])@ == id;
        assert(all[first.len() + i] == id);
    }
}

proof fn lemma_stands(observed: Seq<OwnedSnapshot>, k: int)
    ensures
        is_last(source_intake::snapshot_views(observed), k) == stands(observed, k),
{
    let seen = source_intake::snapshot_views(observed);
    if is_last(seen, k) {
        assert forall|j: int| k < j < observed.len() implies !is_same(
            (#[trigger] observed[j]).owner,
            observed[k].owner,
        ) by {
            assert(seen[j].owner != seen[k].owner);
        }
    }
    if stands(observed, k) {
        assert forall|j: int| k < j < seen.len() implies (#[trigger] seen[j]).owner
            != seen[k].owner by {
            assert(!is_same(observed[j].owner, observed[k].owner));
        }
    }
}

/// A record of a standing snapshot, as it stands after the protection of rows.
proof fn lemma_held(
    observed: Seq<OwnedSnapshot>,
    protected: Seq<String>,
    plan: Reconciliation,
    k: int,
    m: int,
    item: ItemView,
)
    ensures
        is_held(
            source_intake::snapshot_views(observed),
            revoked_by(protected, plan),
            k,
            m,
            item,
        ) <==> has_record(observed, k, m) && item == (ItemView {
            id: identity(record_at(observed, k, m)),
            record: record_at(observed, k, m)@,
            managed: owned_at(observed, k, m) && !is_protected(
                protected,
                plan,
                identity(record_at(observed, k, m)),
            ),
        }),
{
    lemma_stands(observed, k);
    if 0 <= k < observed.len() && 0 <= m < observed[k].snapshot.records@.len() {
        lemma_protected(protected, plan, identity(record_at(observed, k, m)));
        assert(source_intake::snapshot_views(observed)[k].items[m] == source_intake::item_view(
            observed[k].snapshot.records@[m],
        ));
    }
}

/// Who asserted and owned an identity before.
proof fn lemma_identity_before(
    observed: Seq<OwnedSnapshot>,
    protected: Seq<String>,
    plan: Reconciliation,
    id: Seq<char>,
)
    ensures
        ({
            let before = source_intake::flat(kept_of(observed, protected, plan));
            &&& source_intake::has_id(before, id) == exists|k: int, m: int| #[trigger]
                has_record(observed, k, m) && identity(record_at(observed, k, m)) == id
            &&& source_intake::is_managed(before, id) == was_owned(observed, protected, plan, id)
        }),
{
    let seen = source_intake::snapshot_views(observed);
    let revoked = revoked_by(protected, plan);
    let before = source_intake::flat(kept_of(observed, protected, plan));
    if source_intake::has_id(before, id) {
        let i = choose|i: int| 0 <= i < before.len() && (#[trigger] before[i]).id == id;
        lemma_before(seen, revoked, before[i]);
        assert(before.contains(before[i]));
        let (k, m) = choose|k: int, m: int| #[trigger] is_held(seen, revoked, k, m, before[i]);
        lemma_held(observed, protected, plan, k, m, before[i]);
        assert(has_record(observed, k, m) && identity(record_at(observed, k, m)) == id);
    }
    if source_intake::is_managed(before, id) {
        let i = choose|i: int|
            0 <= i < before.len() && (#[trigger] before[i]).id == id && before[i].managed;
        lemma_before(seen, revoked, before[i]);
        assert(before.contains(before[i]));
        let (k, m) = choose|k: int, m: int| #[trigger] is_held(seen, revoked, k, m, before[i]);
        lemma_held(observed, protected, plan, k, m, before[i]);
        assert(has_record(observed, k, m) && identity(record_at(observed, k, m)) == id);
    }
    assert forall|k: int, m: int| #[trigger] has_record(observed, k, m) && identity(
        record_at(observed, k, m),
    ) == id implies source_intake::has_id(before, id) && (owned_at(observed, k, m)
        && !is_protected(protected, plan, id) ==> source_intake::is_managed(before, id)) by {
        let item = ItemView {
            id,
            record: record_at(observed, k, m)@,
            managed: owned_at(observed, k, m) && !is_protected(protected, plan, id),
        };
        lemma_held(observed, protected, plan, k, m, item);
        lemma_before(seen, revoked, item);
        assert(is_held(seen, revoked, k, m, item));
        let i = choose|i: int| 0 <= i < before.len() && before[i] == item;
        assert(before[i].id == id);
    }
}

/// What the connector's new snapshot holds.
proof fn lemma_new_record(
    key: ObservationKey,
    evidence: NormalizedSourceEvidence,
    observed: Vec<OwnedSnapshot>,
    protected: Vec<String>,
    rows: Vec<CanonicalRow>,
    previous: Option<Option<String>>,
    plan: Reconciliation,
    j: int,
)
    requires
        is_plan(key, evidence, observed, protected, rows, previous, plan),
        0 <= j < plan.own.records@.len(),
    ensures
        ({
            let next = next_of(key, evidence, observed@, protected@, rows@, plan);
            &&& plan.own.records@.len() == next.items.len()
            &&& next.items[j] == source_intake::item_view(plan.own.records@[j])
        }),
{
    let seen = source_intake::snapshot_views(observed@);
    let revoked = revoked_by(protected@, plan);
    let kept = kept_of(observed@, protected@, plan);
    let before = source_intake::flat(kept);
    let own = source_intake::own_of(kept, source_intake::owner_view(key));
    let records = source_evidence::record_views(evidence.records@);
    let next = next_of(key, evidence, observed@, protected@, rows@, plan);
    let item = next.items[j];
    assert(plan.own.records@[j].record@ == item.record);
    lemma_next(own.items, evidence.covered_kinds@, records, revoked, before, rows@);
    assert(next.items.contains(item));
    if own.items.contains(item) {
        lemma_own(seen, revoked, source_intake::owner_view(key));
        assert(exists|k: int| #[trigger] is_last(seen, k) && seen[k].owner
            == source_intake::owner_view(key));
        let k = choose|k: int| #[trigger]
            is_last(seen, k) && seen[k].owner == source_intake::owner_view(key);
        let m = choose|m: int| 0 <= m < own.items.len() && own.items[m] == item;
        assert(item == revoked_item(seen[k].items[m], revoked));
        assert(seen[k].items[m] == source_intake::item_view(observed@[k].snapshot.records@[m]));
    }
}

/// Who asserts and owns an identity afterwards.
proof fn lemma_identity_after(
    key: ObservationKey,
    evidence: NormalizedSourceEvidence,
    observed: Vec<OwnedSnapshot>,
    protected: Vec<String>,
    rows: Vec<CanonicalRow>,
    previous: Option<Option<String>>,
    plan: Reconciliation,
    id: Seq<char>,
)
    requires
        is_plan(key, evidence, observed, protected, rows, previous, plan),
    ensures
        ({
            let next = next_of(key, evidence, observed@, protected@, rows@, plan);
            let after = source_intake::flat(
                source_intake::placed(kept_of(observed@, protected@, plan), next),
            );
            &&& source_intake::has_id(after, id) == (asserts(plan, id) || others_assert(
                observed@,
                key,
                id,
            ))
            &&& source_intake::is_managed(after, id) == (owns(plan, id) || others_own(
                observed@,
                key,
                protected@,
                plan,
                id,
            ))
        }),
{
    let seen = source_intake::snapshot_views(observed@);
    let revoked = revoked_by(protected@, plan);
    let next = next_of(key, evidence, observed@, protected@, rows@, plan);
    let after = source_intake::flat(
        source_intake::placed(kept_of(observed@, protected@, plan), next),
    );
    assert forall|i: int| 0 <= i < after.len() && (#[trigger] after[i]).id == id implies (asserts(
        plan,
        id,
    ) || others_assert(observed@, key, id)) && (after[i].managed ==> owns(plan, id) || others_own(
        observed@,
        key,
        protected@,
        plan,
        id,
    )) by {
        lemma_after(seen, revoked, next, after[i]);
        assert(after.contains(after[i]));
        if next.items.contains(after[i]) {
            let j = choose|j: int| 0 <= j < next.items.len() && next.items[j] == after[i];
            lemma_new_record(key, evidence, observed, protected, rows, previous, plan, j);
            assert(identity(plan.own.records@[j].record) == id);
        } else {
            let (k, m) = choose|k: int, m: int| #[trigger]
                is_held(seen, revoked, k, m, after[i]) && seen[k].owner != next.owner;
            lemma_held(observed@, protected@, plan, k, m, after[i]);
            assert(has_record(observed@, k, m) && !is_own(observed@[k].owner, key));
        }
    }
    assert forall|j: int|
        0 <= j < plan.own.records@.len() && identity((#[trigger] plan.own.records@[j]).record)
            == id implies source_intake::has_id(after, id) && (plan.own.records@[j].managed
        ==> source_intake::is_managed(after, id)) by {
        lemma_new_record(key, evidence, observed, protected, rows, previous, plan, j);
        let item = next.items[j];
        lemma_after(seen, revoked, next, item);
        assert(next.items.contains(item));
        let i = choose|i: int| 0 <= i < after.len() && after[i] == item;
        assert(after[i].id == id);
    }
    assert forall|k: int, m: int| #[trigger]
        has_record(observed@, k, m) && !is_own(observed@[k].owner, key) && identity(
            record_at(observed@, k, m),
        ) == id implies source_intake::has_id(after, id) && (owned_at(observed@, k, m)
        && !is_protected(protected@, plan, id) ==> source_intake::is_managed(after, id)) by {
        let item = ItemView {
            id,
            record: record_at(observed@, k, m)@,
            managed: owned_at(observed@, k, m) && !is_protected(protected@, plan, id),
        };
        lemma_held(observed@, protected@, plan, k, m, item);
        lemma_after(seen, revoked, next, item);
        assert(is_held(seen, revoked, k, m, item) && seen[k].owner != next.owner);
        let i = choose|i: int| 0 <= i < after.len() && after[i] == item;
        assert(after[i].id == id);
    }
}

/// A record that the connector asserted before stays where the acquisition does not cover
/// its kind: the connector still asserts it, owns it as before unless its row is protected,
/// and the row is not removed.
pub proof fn law_uncovered_record_stays(
    key: ObservationKey,
    evidence: NormalizedSourceEvidence,
    observed: Vec<OwnedSnapshot>,
    protected: Vec<String>,
    rows: Vec<CanonicalRow>,
    previous: Option<Option<String>>,
    plan: Reconciliation,
    k: int,
    m: int,
)
    requires
        is_plan(key, evidence, observed, protected, rows, previous, plan),
        has_record(observed@, k, m),
        is_own(observed@[k].owner, key),
        !evidence.covered_kinds@.contains(record_at(observed@, k, m).kind),
    ensures
        exists|j: int|
            0 <= j < plan.own.records@.len() && (#[trigger] plan.own.records@[j]).record@
                == record_at(observed@, k, m)@ && plan.own.records@[j].managed == (owned_at(
                observed@,
                k,
                m,
            ) && !is_protected(protected@, plan, identity(record_at(observed@, k, m)))),
        !removes(plan, identity(record_at(observed@, k, m))),
{
    let seen = source_intake::snapshot_views(observed@);
    let revoked = revoked_by(protected@, plan);
    let kept = kept_of(observed@, protected@, plan);
    let before = source_intake::flat(kept);
    let owner = source_intake::owner_view(key);
    let own = source_intake::own_of(kept, owner);
    let records = source_evidence::record_views(evidence.records@);
    let next = next_of(key, evidence, observed@, protected@, rows@, plan);
    let id = identity(record_at(observed@, k, m));
    lemma_stands(observed@, k);
    lemma_own(seen, revoked, owner);
    lemma_next(own.items, evidence.covered_kinds@, records, revoked, before, rows@);
    assert(is_last(seen, k) && seen[k].owner == owner);
    let item = revoked_item(seen[k].items[m], revoked);
    assert(seen[k].items[m] == source_intake::item_view(observed@[k].snapshot.records@[m]));
    assert(own.items[m] == item);
    assert(own.items.contains(item));
    assert(next.items.contains(item));
    let j = choose|j: int| 0 <= j < next.items.len() && next.items[j] == item;
    lemma_new_record(key, evidence, observed, protected, rows, previous, plan, j);
    lemma_protected(protected@, plan, id);
    assert(identity(plan.own.records@[j].record) == id);
    lemma_planned_rows(key, evidence, observed, protected, rows, previous, plan, id);
}

proof fn lemma_planned_rows(
    key: ObservationKey,
    evidence: NormalizedSourceEvidence,
    observed: Vec<OwnedSnapshot>,
    protected: Vec<String>,
    rows: Vec<CanonicalRow>,
    previous: Option<Option<String>>,
    plan: Reconciliation,
    id: Seq<char>,
)
    requires
        is_plan(key, evidence, observed, protected, rows, previous, plan),
    ensures
        removes(plan, id) <==> was_owned(observed@, protected@, plan, id) && !asserts(plan, id)
            && !others_assert(observed@, key, id),
        writes(plan, id) <==> owns(plan, id) || others_own(observed@, key, protected@, plan, id),
{
    let kept = kept_of(observed@, protected@, plan);
    let before = source_intake::flat(kept);
    let next = next_of(key, evidence, observed@, protected@, rows@, plan);
    let after = source_intake::flat(source_intake::placed(kept, next));
    lemma_identity_before(observed@, protected@, plan, id);
    lemma_identity_after(key, evidence, observed, protected, rows, previous, plan, id);
    lemma_managed_is_found(before, id);
    lemma_managed_is_found(after, id);
    lemma_rows(plan.remove@, id);
    lemma_rows(plan.write@, id);
    if source_intake::is_managed(after, id) {
        assert(source_intake::has_id(after, id));
    }
    assert(source_intake::row_ids(plan.remove@).contains(id) == (source_intake::removal(
        before,
        after,
    )(id) is Some));
    assert(source_intake::row_ids(plan.write@).contains(id) == (source_intake::writing(after)(
        id,
    ) is Some));
}

proof fn lemma_rows(planned: Seq<source_intake::PlannedRow>, id: Seq<char>)
    ensures
        source_intake::row_ids(planned).contains(id) == exists|j: int|
            0 <= j < planned.len() && (#[trigger] planned[j]).identity@ == id,
{
    let ids = source_intake::row_ids(planned);
    if ids.contains(id) {
        let j = choose|j: int| 0 <= j < ids.len() && ids[j] == id;
        assert(planned[j].identity@ == id);
    }
    if exists|j: int| 0 <= j < planned.len() && (#[trigger] planned[j]).identity@ == id {
        let j = choose|j: int| 0 <= j < planned.len() && (#[trigger] planned[j]).identity@ == id;
        assert(ids[j] == id);
    }
}

/// Every acquired record is asserted from now on. The connector owns it where its row is
/// not protected and was owned before or is not there yet. The row is not removed.
pub proof fn law_acquired_record_is_asserted(
    key: ObservationKey,
    evidence: NormalizedSourceEvidence,
    observed: Vec<OwnedSnapshot>,
    protected: Vec<String>,
    rows: Vec<CanonicalRow>,
    previous: Option<Option<String>>,
    plan: Reconciliation,
    e: int,
)
    requires
        is_plan(key, evidence, observed, protected, rows, previous, plan),
        0 <= e < evidence.records@.len(),
    ensures
        ({
            let id = identity(evidence.records@[e]);
            &&& exists|j: int|
                0 <= j < plan.own.records@.len() && (#[trigger] plan.own.records@[j]).record@
                    == evidence.records@[e]@ && plan.own.records@[j].managed == (!is_protected(
                    protected@,
                    plan,
                    id,
                ) && (was_owned(observed@, protected@, plan, id) || !is_stored(rows@, id)))
            &&& !removes(plan, id)
        }),
{
    let seen = source_intake::snapshot_views(observed@);
    let revoked = revoked_by(protected@, plan);
    let kept = kept_of(observed@, protected@, plan);
    let before = source_intake::flat(kept);
    let own = source_intake::own_of(kept, source_intake::owner_view(key));
    let records = source_evidence::record_views(evidence.records@);
    let next = next_of(key, evidence, observed@, protected@, rows@, plan);
    let id = identity(evidence.records@[e]);
    lemma_next(own.items, evidence.covered_kinds@, records, revoked, before, rows@);
    let item = source_intake::fresh_item(records[e], revoked, before, rows@);
    assert(next.items.contains(item));
    let j = choose|j: int| 0 <= j < next.items.len() && next.items[j] == item;
    lemma_new_record(key, evidence, observed, protected, rows, previous, plan, j);
    lemma_protected(protected@, plan, id);
    lemma_identity_before(observed@, protected@, plan, id);
    assert(identity(plan.own.records@[j].record) == id);
    lemma_planned_rows(key, evidence, observed, protected, rows, previous, plan, id);
}

/// Whether a record is one that the connector asserted before, of a kind that the
/// acquisition does not cover.
pub open spec fn is_left(
    key: ObservationKey,
    evidence: NormalizedSourceEvidence,
    observed: Seq<OwnedSnapshot>,
    k: int,
    m: int,
    record: EvidenceRecord,
) -> bool {
    &&& has_record(observed, k, m)
    &&& is_own(observed[k].owner, key)
    &&& !evidence.covered_kinds@.contains(record_at(observed, k, m).kind)
    &&& record@ == record_at(observed, k, m)@
}

/// The connector asserts nothing else: each of its records is an acquired one, or one that
/// it asserted before, of a kind that the acquisition does not cover. They stand in the
/// order of their identities.
pub proof fn law_nothing_else_is_asserted(
    key: ObservationKey,
    evidence: NormalizedSourceEvidence,
    observed: Vec<OwnedSnapshot>,
    protected: Vec<String>,
    rows: Vec<CanonicalRow>,
    previous: Option<Option<String>>,
    plan: Reconciliation,
    j: int,
)
    requires
        is_plan(key, evidence, observed, protected, rows, previous, plan),
        0 <= j < plan.own.records@.len(),
    ensures
        (exists|e: int|
            0 <= e < evidence.records@.len() && (#[trigger] evidence.records@[e])@
                == plan.own.records@[j].record@) || (exists|k: int, m: int| #[trigger]
            is_left(key, evidence, observed@, k, m, plan.own.records@[j].record)),
        forall|i: int|
            0 <= i < j ==> !order::text_less(
                identity(plan.own.records@[j].record),
                identity((#[trigger] plan.own.records@[i]).record),
            ),
{
    let seen = source_intake::snapshot_views(observed@);
    let revoked = revoked_by(protected@, plan);
    let kept = kept_of(observed@, protected@, plan);
    let before = source_intake::flat(kept);
    let owner = source_intake::owner_view(key);
    let own = source_intake::own_of(kept, owner);
    let records = source_evidence::record_views(evidence.records@);
    let next = next_of(key, evidence, observed@, protected@, rows@, plan);
    let item = next.items[j];
    lemma_next(own.items, evidence.covered_kinds@, records, revoked, before, rows@);
    lemma_new_record(key, evidence, observed, protected, rows, previous, plan, j);
    assert(next.items.contains(item));
    if own.items.contains(item) && !evidence.covered_kinds@.contains(item.record.kind) {
        lemma_own(seen, revoked, owner);
        assert(exists|k: int| #[trigger] is_last(seen, k) && seen[k].owner == owner);
        let k = choose|k: int| #[trigger] is_last(seen, k) && seen[k].owner == owner;
        let m = choose|m: int| 0 <= m < own.items.len() && own.items[m] == item;
        lemma_stands(observed@, k);
        assert(item == revoked_item(seen[k].items[m], revoked));
        assert(seen[k].items[m] == source_intake::item_view(observed@[k].snapshot.records@[m]));
        assert(is_left(key, evidence, observed@, k, m, plan.own.records@[j].record));
    } else {
        let e = choose|e: int|
            0 <= e < records.len() && item == source_intake::fresh_item(
                #[trigger] records[e],
                revoked,
                before,
                rows@,
            );
        assert(evidence.records@[e]@ == plan.own.records@[j].record@);
    }
    assert forall|i: int| 0 <= i < j implies !order::text_less(
        identity(plan.own.records@[j].record),
        identity((#[trigger] plan.own.records@[i]).record),
    ) by {
        lemma_new_record(key, evidence, observed, protected, rows, previous, plan, i);
        assert(!order::text_less(next.items[j].id, next.items[i].id));
    }
}

/// A row is removed exactly where it was owned, is not protected, and no connector asserts
/// it any more.
pub proof fn law_removed_rows_are_those_nobody_asserts(
    key: ObservationKey,
    evidence: NormalizedSourceEvidence,
    observed: Vec<OwnedSnapshot>,
    protected: Vec<String>,
    rows: Vec<CanonicalRow>,
    previous: Option<Option<String>>,
    plan: Reconciliation,
    id: Seq<char>,
)
    requires
        is_plan(key, evidence, observed, protected, rows, previous, plan),
    ensures
        removes(plan, id) <==> was_owned(observed@, protected@, plan, id) && !asserts(plan, id)
            && !others_assert(observed@, key, id),
{
    lemma_planned_rows(key, evidence, observed, protected, rows, previous, plan, id);
}

/// A row is written exactly where some connector owns it from now on.
pub proof fn law_written_rows_are_those_somebody_owns(
    key: ObservationKey,
    evidence: NormalizedSourceEvidence,
    observed: Vec<OwnedSnapshot>,
    protected: Vec<String>,
    rows: Vec<CanonicalRow>,
    previous: Option<Option<String>>,
    plan: Reconciliation,
    id: Seq<char>,
)
    requires
        is_plan(key, evidence, observed, protected, rows, previous, plan),
    ensures
        writes(plan, id) <==> owns(plan, id) || others_own(observed@, key, protected@, plan, id),
        is_protected(protected@, plan, id) ==> !writes(plan, id) && !removes(plan, id),
{
    lemma_planned_rows(key, evidence, observed, protected, rows, previous, plan, id);
    if is_protected(protected@, plan, id) && owns(plan, id) {
        let j = choose|j: int|
            0 <= j < plan.own.records@.len() && identity(
                (#[trigger] plan.own.records@[j]).record,
            ) == id && plan.own.records@[j].managed;
        let seen = source_intake::snapshot_views(observed@);
        let revoked = revoked_by(protected@, plan);
        let kept = kept_of(observed@, protected@, plan);
        let before = source_intake::flat(kept);
        let owner = source_intake::owner_view(key);
        let own = source_intake::own_of(kept, owner);
        let records = source_evidence::record_views(evidence.records@);
        let next = next_of(key, evidence, observed@, protected@, rows@, plan);
        let item = next.items[j];
        lemma_protected(protected@, plan, id);
        lemma_next(own.items, evidence.covered_kinds@, records, revoked, before, rows@);
        lemma_new_record(key, evidence, observed, protected, rows, previous, plan, j);
        assert(next.items.contains(item));
        lemma_own(seen, revoked, owner);
        if own.items.contains(item) {
            assert(exists|k: int| #[trigger] is_last(seen, k) && seen[k].owner == owner);
            let k = choose|k: int| #[trigger] is_last(seen, k) && seen[k].owner == owner;
            let m = choose|m: int| 0 <= m < own.items.len() && own.items[m] == item;
            assert(item == revoked_item(seen[k].items[m], revoked));
        }
    }
}

/// The planned rows stand in the order of their identities, each once.
pub proof fn law_planned_rows_stand_in_order(
    key: ObservationKey,
    evidence: NormalizedSourceEvidence,
    observed: Vec<OwnedSnapshot>,
    protected: Vec<String>,
    rows: Vec<CanonicalRow>,
    previous: Option<Option<String>>,
    plan: Reconciliation,
    i: int,
    j: int,
)
    requires
        is_plan(key, evidence, observed, protected, rows, previous, plan),
    ensures
        0 <= i < j < plan.remove@.len() ==> order::text_less(
            plan.remove@[i].identity@,
            plan.remove@[j].identity@,
        ),
        0 <= i < j < plan.write@.len() ==> order::text_less(
            plan.write@[i].identity@,
            plan.write@[j].identity@,
        ),
{
    if 0 <= i < j < plan.remove@.len() {
        let ids = source_intake::row_ids(plan.remove@);
        assert(order::text_less(ids[i], ids[j]));
    }
    if 0 <= i < j < plan.write@.len() {
        let ids = source_intake::row_ids(plan.write@);
        assert(order::text_less(ids[i], ids[j]));
    }
}

/// Whether a local connector covers nothing, so that nobody can tell which rows it owns.
pub open spec fn has_blind_parser(observed: Seq<OwnedSnapshot>) -> bool {
    exists|k: int|
        0 <= k < observed.len() && (#[trigger] observed[k]).owner.location
            == SessionLocation::Local && observed[k].snapshot.covered_kinds@.len() == 0
}

/// A row becomes protected exactly where a connector asserts it and it was edited since, or
/// it is there while a local connector covers nothing.
pub proof fn law_edited_rows_are_protected(
    key: ObservationKey,
    evidence: NormalizedSourceEvidence,
    observed: Vec<OwnedSnapshot>,
    protected: Vec<String>,
    rows: Vec<CanonicalRow>,
    previous: Option<Option<String>>,
    plan: Reconciliation,
    id: Seq<char>,
)
    requires
        is_plan(key, evidence, observed, protected, rows, previous, plan),
    ensures
        (exists|i: int| 0 <= i < plan.protect@.len() && (#[trigger] plan.protect@[i])@ == id)
            <==> (exists|k: int, m: int| #[trigger]
            has_record(observed@, k, m) && identity(record_at(observed@, k, m)) == id) && (
        !is_unedited(rows@, id) || (is_stored(rows@, id) && has_blind_parser(observed@))),
{
    let seen = source_intake::snapshot_views(observed@);
    let protect = text::views(plan.protect@);
    let list = source_intake::ordered(seen);
    assert(protect.contains(id) == source_intake::must_protect(
        source_intake::flat(list),
        source_intake::is_ambiguous(seen),
        rows@,
        id,
    ));
    if protect.contains(id) {
        let i = choose|i: int| 0 <= i < protect.len() && protect[i] == id;
        assert(plan.protect@[i]@ == id);
    }
    if exists|i: int| 0 <= i < plan.protect@.len() && (#[trigger] plan.protect@[i])@ == id {
        let i = choose|i: int|
            0 <= i < plan.protect@.len() && (#[trigger] plan.protect@[i])@ == id;
        assert(protect[i] == id);
    }
    if source_intake::is_ambiguous(seen) {
        let k = choose|k: int|
            0 <= k < seen.len() && (#[trigger] seen[k]).owner.location == SessionLocation::Local
                && seen[k].kinds.len() == 0;
        assert(observed@[k].owner.location == SessionLocation::Local);
    }
    if has_blind_parser(observed@) {
        let k = choose|k: int|
            0 <= k < observed@.len() && (#[trigger] observed@[k]).owner.location
                == SessionLocation::Local && observed@[k].snapshot.covered_kinds@.len() == 0;
        assert(seen[k].owner.location == SessionLocation::Local);
    }
    lemma_asserted_at_all(observed@, id);
}

proof fn lemma_asserted_at_all(observed: Seq<OwnedSnapshot>, id: Seq<char>)
    ensures
        source_intake::has_id(
            source_intake::flat(
                source_intake::ordered(source_intake::snapshot_views(observed)),
            ),
            id,
        ) == exists|k: int, m: int| #[trigger]
            has_record(observed, k, m) && identity(record_at(observed, k, m)) == id,
{
    let seen = source_intake::snapshot_views(observed);
    let list = source_intake::ordered(seen);
    let all = source_intake::flat(list);
    lemma_ordered(seen);
    if source_intake::has_id(all, id) {
        let x = choose|x: int| 0 <= x < all.len() && (#[trigger] all[x]).id == id;
        lemma_flat_has(list, all[x]);
        assert(all.contains(all[x]));
        let (i, m) = choose|i: int, m: int|
            0 <= i < list.len() && 0 <= m < list[i].items.len() && #[trigger] list[i].items[m]
                == all[x];
        assert(list.contains(list[i]));
        let k = choose|k: int| #[trigger] is_last(seen, k) && seen[k] == list[i];
        lemma_stands(observed, k);
        assert(seen[k].items[m] == source_intake::item_view(observed[k].snapshot.records@[m]));
        assert(has_record(observed, k, m) && identity(record_at(observed, k, m)) == id);
    }
    if exists|k: int, m: int| #[trigger]
        has_record(observed, k, m) && identity(record_at(observed, k, m)) == id {
        let (k, m) = choose|k: int, m: int| #[trigger]
            has_record(observed, k, m) && identity(record_at(observed, k, m)) == id;
        lemma_stands(observed, k);
        assert(list.contains(seen[k]));
        let i = choose|i: int| 0 <= i < list.len() && list[i] == seen[k];
        let item = seen[k].items[m];
        assert(item == source_intake::item_view(observed[k].snapshot.records@[m]));
        lemma_flat_has(list, item);
        assert(list[i].items[m] == item);
        let x = choose|x: int| 0 <= x < all.len() && all[x] == item;
        assert(all[x].id == id);
    }
}

/// Whether the connector covered a kind before.
pub open spec fn covered_before(
    observed: Seq<OwnedSnapshot>,
    key: ObservationKey,
    kind: EvidenceKind,
) -> bool {
    exists|k: int| #[trigger]
        stands(observed, k) && is_own(observed[k].owner, key)
            && observed[k].snapshot.covered_kinds@.contains(kind)
}

/// Whether the connector covers a kind from now on.
pub open spec fn covered_now(
    key: ObservationKey,
    evidence: NormalizedSourceEvidence,
    observed: Seq<OwnedSnapshot>,
    kind: EvidenceKind,
) -> bool {
    evidence.covered_kinds@.contains(kind) || covered_before(observed, key, kind)
}

/// The place of a kind among all kinds.
pub open spec fn place(kind: EvidenceKind) -> int {
    match kind {
        EvidenceKind::History => 0,
        EvidenceKind::SessionEvent => 1,
        EvidenceKind::ToolCall => 2,
        EvidenceKind::FileEdit => 3,
        EvidenceKind::Relationship => 4,
        EvidenceKind::CommitLink => 5,
        EvidenceKind::SessionMarker => 6,
    }
}

proof fn lemma_kinds_in_order(a: Seq<EvidenceKind>, b: Seq<EvidenceKind>, n: int)
    requires
        n <= 7,
    ensures
        forall|i: int, j: int|
            0 <= i < j < source_intake::kinds_of_either(a, b, n).len() ==> place(
                #[trigger] source_intake::kinds_of_either(a, b, n)[i],
            ) < place(#[trigger] source_intake::kinds_of_either(a, b, n)[j]),
        forall|i: int|
            0 <= i < source_intake::kinds_of_either(a, b, n).len() ==> place(
                #[trigger] source_intake::kinds_of_either(a, b, n)[i],
            ) < n,
    decreases n,
{
    if n > 0 {
        lemma_kinds_in_order(a, b, n - 1);
        let rest = source_intake::kinds_of_either(a, b, n - 1);
        let all = source_intake::kinds_of_either(a, b, n);
        assert(place(source_intake::kind_at(n - 1)) == n - 1);
        assert forall|i: int| 0 <= i < all.len() implies place(#[trigger] all[i]) < n by {
            if i < rest.len() {
                assert(all[i] == rest[i]);
            }
        }
        assert forall|i: int, j: int| 0 <= i < j < all.len() implies place(#[trigger] all[i])
            < place(#[trigger] all[j]) by {
            assert(all[i] == rest[i]);
            if j < rest.len() {
                assert(all[j] == rest[j]);
            }
        }
    }
}

/// What a connector covers only grows: a kind is covered from now on exactly where the
/// acquisition covers it or the connector covered it before. The session is complete where
/// the five kinds of its content are. The report names the kinds of this acquisition alone,
/// in order and each once.
pub proof fn law_coverage_grows(
    key: ObservationKey,
    evidence: NormalizedSourceEvidence,
    observed: Vec<OwnedSnapshot>,
    protected: Vec<String>,
    rows: Vec<CanonicalRow>,
    previous: Option<Option<String>>,
    plan: Reconciliation,
    kind: EvidenceKind,
)
    requires
        is_plan(key, evidence, observed, protected, rows, previous, plan),
    ensures
        plan.own.covered_kinds@.contains(kind) <==> covered_now(key, evidence, observed@, kind),
        plan.coverage@.contains(kind) <==> evidence.covered_kinds@.contains(kind),
        forall|i: int, j: int|
            0 <= i < j < plan.coverage@.len() ==> place(#[trigger] plan.coverage@[i]) < place(
                #[trigger] plan.coverage@[j],
            ),
        forall|i: int, j: int|
            0 <= i < j < plan.own.covered_kinds@.len() ==> place(
                #[trigger] plan.own.covered_kinds@[i],
            ) < place(#[trigger] plan.own.covered_kinds@[j]),
        plan.full <==> covered_now(key, evidence, observed@, EvidenceKind::History) && covered_now(
            key,
            evidence,
            observed@,
            EvidenceKind::SessionEvent,
        ) && covered_now(key, evidence, observed@, EvidenceKind::ToolCall) && covered_now(
            key,
            evidence,
            observed@,
            EvidenceKind::FileEdit,
        ) && covered_now(key, evidence, observed@, EvidenceKind::Relationship),
{
    let kept = kept_of(observed@, protected@, plan);
    let own = source_intake::own_of(kept, source_intake::owner_view(key));
    lemma_covered(key, evidence, observed, protected, rows, previous, plan, kind);
    lemma_covered(key, evidence, observed, protected, rows, previous, plan, EvidenceKind::History);
    lemma_covered(
        key,
        evidence,
        observed,
        protected,
        rows,
        previous,
        plan,
        EvidenceKind::SessionEvent,
    );
    lemma_covered(key, evidence, observed, protected, rows, previous, plan, EvidenceKind::ToolCall);
    lemma_covered(key, evidence, observed, protected, rows, previous, plan, EvidenceKind::FileEdit);
    lemma_covered(
        key,
        evidence,
        observed,
        protected,
        rows,
        previous,
        plan,
        EvidenceKind::Relationship,
    );
    source_intake::law_merged_kinds(evidence.covered_kinds@, evidence.covered_kinds@, kind);
    lemma_kinds_in_order(evidence.covered_kinds@, evidence.covered_kinds@, 7);
    lemma_kinds_in_order(own.kinds, evidence.covered_kinds@, 7);
}

proof fn lemma_covered(
    key: ObservationKey,
    evidence: NormalizedSourceEvidence,
    observed: Vec<OwnedSnapshot>,
    protected: Vec<String>,
    rows: Vec<CanonicalRow>,
    previous: Option<Option<String>>,
    plan: Reconciliation,
    kind: EvidenceKind,
)
    requires
        is_plan(key, evidence, observed, protected, rows, previous, plan),
    ensures
        plan.own.covered_kinds@.contains(kind) <==> covered_now(key, evidence, observed@, kind),
{
    let seen = source_intake::snapshot_views(observed@);
    let revoked = revoked_by(protected@, plan);
    let kept = kept_of(observed@, protected@, plan);
    let owner = source_intake::owner_view(key);
    let own = source_intake::own_of(kept, owner);
    lemma_own(seen, revoked, owner);
    source_intake::law_merged_kinds(own.kinds, evidence.covered_kinds@, kind);
    if own.kinds.contains(kind) {
        assert(exists|k: int| #[trigger] is_last(seen, k) && seen[k].owner == owner);
        let k = choose|k: int| #[trigger] is_last(seen, k) && seen[k].owner == owner;
        lemma_stands(observed@, k);
        assert(stands(observed@, k) && is_own(observed@[k].owner, key));
    }
    if covered_before(observed@, key, kind) {
        let k = choose|k: int| #[trigger]
            stands(observed@, k) && is_own(observed@[k].owner, key)
                && observed@[k].snapshot.covered_kinds@.contains(kind);
        lemma_stands(observed@, k);
        assert(is_last(seen, k) && seen[k].owner == owner);
    }
}

/// The first acquisition of a connector hydrates, and one under another stamp updates.
pub proof fn law_status_follows_the_stamp(
    key: ObservationKey,
    evidence: NormalizedSourceEvidence,
    observed: Vec<OwnedSnapshot>,
    protected: Vec<String>,
    rows: Vec<CanonicalRow>,
    previous: Option<Option<String>>,
    plan: Reconciliation,
)
    requires
        is_plan(key, evidence, observed, protected, rows, previous, plan),
    ensures
        previous is None <==> plan.status == IntakeStatus::Hydrated,
        plan.status == IntakeStatus::Unchanged ==> previous is Some && previous->0 is Some
            && (previous->0->0)@ == evidence.source_stamp@,
{
}

/// Whether two records of snapshots say the same.
pub open spec fn says_the_same(a: ManagedRecord, b: ManagedRecord) -> bool {
    &&& a.record.kind == b.record.kind
    &&& text::opt_view(a.record.record_id) == text::opt_view(b.record.record_id)
    &&& text::opt_view(a.record.revision_id) == text::opt_view(b.record.revision_id)
    &&& json::json_equal(
        JsonTree::Object(json::member_views(a.record.payload@)),
        JsonTree::Object(json::member_views(b.record.payload@)),
    )
}

/// Whether the connector's snapshot is as it was: the same records, owned as before unless
/// protected, and the same kinds.
pub open spec fn is_as_before(
    before: RecordSnapshot,
    protected: Seq<String>,
    plan: Reconciliation,
) -> bool {
    &&& plan.own.covered_kinds@ == before.covered_kinds@
    &&& plan.own.records@.len() == before.records@.len()
    &&& forall|i: int|
        0 <= i < before.records@.len() ==> says_the_same(
            #[trigger] plan.own.records@[i],
            before.records@[i],
        ) && plan.own.records@[i].managed == (before.records@[i].managed && !is_protected(
            protected,
            plan,
            identity(before.records@[i].record),
        ))
}

/// A later acquisition is reported unchanged exactly where it has the stamp of the one
/// before and leaves the connector's snapshot as it was.
pub proof fn law_unchanged_means_unchanged(
    key: ObservationKey,
    evidence: NormalizedSourceEvidence,
    observed: Vec<OwnedSnapshot>,
    protected: Vec<String>,
    rows: Vec<CanonicalRow>,
    previous: Option<Option<String>>,
    plan: Reconciliation,
    k: int,
)
    requires
        is_plan(key, evidence, observed, protected, rows, previous, plan),
        stands(observed@, k),
        is_own(observed@[k].owner, key),
    ensures
        plan.status == IntakeStatus::Unchanged <==> previous is Some && previous->0 is Some
            && (previous->0->0)@ == evidence.source_stamp@ && is_as_before(
            observed@[k].snapshot,
            protected@,
            plan,
        ),
{
    let seen = source_intake::snapshot_views(observed@);
    let revoked = revoked_by(protected@, plan);
    let kept = kept_of(observed@, protected@, plan);
    let owner = source_intake::owner_view(key);
    let own = source_intake::own_of(kept, owner);
    let next = next_of(key, evidence, observed@, protected@, rows@, plan);
    let records = observed@[k].snapshot.records@;
    lemma_stands(observed@, k);
    lemma_own(seen, revoked, owner);
    assert(is_last(seen, k) && seen[k].owner == owner);
    assert forall|i: int| 0 <= i < records.len() && records.len() == plan.own.records@.len() implies (
    says_the_same(#[trigger] plan.own.records@[i], records[i]) && plan.own.records@[i].managed == (
    records[i].managed && !is_protected(protected@, plan, identity(records[i].record)))) == (
    source_intake::same_item(#[trigger] next.items[i], own.items[i])) by {
        lemma_new_record(key, evidence, observed, protected, rows, previous, plan, i);
        lemma_protected(protected@, plan, identity(records[i].record));
        assert(seen[k].items[i] == source_intake::item_view(records[i]));
        assert(own.items[i] == revoked_item(seen[k].items[i], revoked));
    }
    if is_as_before(observed@[k].snapshot, protected@, plan) {
        assert forall|i: int| 0 <= i < next.items.len() implies source_intake::same_item(
            #[trigger] next.items[i],
            own.items[i],
        ) by {
            let at = plan.own.records@[i];
        }
        assert(source_intake::same_items(next.items, own.items));
    }
    if source_intake::same_items(next.items, own.items) && next.kinds == own.kinds {
        assert forall|i: int| 0 <= i < records.len() implies says_the_same(
            #[trigger] plan.own.records@[i],
            records[i],
        ) && plan.own.records@[i].managed == (records[i].managed && !is_protected(
            protected@,
            plan,
            identity(records[i].record),
        )) by {
            let at = next.items[i];
        }
        assert(is_as_before(observed@[k].snapshot, protected@, plan));
    }
}

proof fn lemma_first_index(items: Seq<ItemView>, id: Seq<char>)
    requires
        source_intake::has_id(items, id),
    ensures
        exists|i: int|
            0 <= i < items.len() && (#[trigger] items[i]).id == id
                && source_intake::first_with(items, id) == Some(items[i].record) && forall|h: int|
                0 <= h < i ==> (#[trigger] items[h]).id != id,
    decreases items.len(),
{
    if items[0].id == id {
        assert(source_intake::first_with(items, id) == Some(items[0].record));
    } else {
        let rest = items.drop_first();
        let k = choose|k: int| 0 <= k < items.len() && (#[trigger] items[k]).id == id;
        assert(rest[k - 1].id == id);
        lemma_first_index(rest, id);
        let i = choose|i: int|
            0 <= i < rest.len() && (#[trigger] rest[i]).id == id && source_intake::first_with(
                rest,
                id,
            ) == Some(rest[i].record) && forall|h: int|
                0 <= h < i ==> (#[trigger] rest[h]).id != id;
        assert(items[i + 1] == rest[i]);
        assert forall|h: int| 0 <= h < i + 1 implies (#[trigger] items[h]).id != id by {
            if h > 0 {
                assert(rest[h - 1] == items[h]);
            }
        }
    }
}

/// Whether the connector's own record is the first that speaks for an identity: it is the
/// first of its snapshot, and every other connector that asserts the identity comes later.
pub open spec fn own_speaks(
    key: ObservationKey,
    observed: Seq<OwnedSnapshot>,
    plan: Reconciliation,
    id: Seq<char>,
    i: int,
) -> bool {
    &&& 0 <= i < plan.own.records@.len()
    &&& identity(plan.own.records@[i].record) == id
    &&& forall|h: int| 0 <= h < i ==> identity((#[trigger] plan.own.records@[h]).record) != id
    &&& forall|k: int, m: int| #[trigger]
        has_record(observed, k, m) && !is_own(observed[k].owner, key) && identity(
            record_at(observed, k, m),
        ) == id ==> comes_before(source_intake::owner_view(key), observed[k].owner@)
}

/// Whether another connector's record is the first that speaks for an identity.
pub open spec fn other_speaks(
    key: ObservationKey,
    observed: Seq<OwnedSnapshot>,
    plan: Reconciliation,
    id: Seq<char>,
    k: int,
    m: int,
) -> bool {
    &&& has_record(observed, k, m)
    &&& !is_own(observed[k].owner, key)
    &&& identity(record_at(observed, k, m)) == id
    &&& forall|h: int| 0 <= h < m ==> identity(#[trigger] record_at(observed, k, h)) != id
    &&& asserts(plan, id) ==> comes_before(observed[k].owner@, source_intake::owner_view(key))
    &&& forall|l: int, n: int| #[trigger]
        has_record(observed, l, n) && !is_own(observed[l].owner, key) && identity(
            record_at(observed, l, n),
        ) == id ==> l == k || comes_before(observed[k].owner@, observed[l].owner@)
}

/// A written row is what the first connector says that asserts it: a local one before any
/// other, then by connector and by instance.
#[verifier::rlimit(40)]
pub proof fn law_first_connector_speaks(
    key: ObservationKey,
    evidence: NormalizedSourceEvidence,
    observed: Vec<OwnedSnapshot>,
    protected: Vec<String>,
    rows: Vec<CanonicalRow>,
    previous: Option<Option<String>>,
    plan: Reconciliation,
    j: int,
)
    requires
        is_plan(key, evidence, observed, protected, rows, previous, plan),
        0 <= j < plan.write@.len(),
    ensures
        ({
            let id = plan.write@[j].identity@;
            let record = plan.write@[j].record@;
            ||| exists|i: int| #[trigger]
                own_speaks(key, observed@, plan, id, i) && plan.own.records@[i].record@ == record
            ||| exists|k: int, m: int| #[trigger]
                other_speaks(key, observed@, plan, id, k, m) && record_at(observed@, k, m)@
                    == record
        }),
{
    let seen = source_intake::snapshot_views(observed@);
    let revoked = revoked_by(protected@, plan);
    let list = source_intake::ordered(seen);
    let kept = kept_of(observed@, protected@, plan);
    let next = next_of(key, evidence, observed@, protected@, rows@, plan);
    let placed = source_intake::placed(kept, next);
    let after = source_intake::flat(placed);
    let id = plan.write@[j].identity@;
    let record = plan.write@[j].record@;
    lemma_ordered(seen);
    lemma_revoked(list, revoked);
    lemma_placed(kept, next);
    lemma_managed_is_found(after, id);
    assert(source_intake::writing(after)(plan.write@[j].identity@) == Some(plan.write@[j].record@));
    assert(source_intake::first_with(after, id) == Some(record));
    lemma_first_of_snapshots(placed, id);
    let i = choose|i: int|
        #![trigger placed[i]]
        0 <= i < placed.len() && source_intake::has_id(placed[i].items, id)
            && source_intake::first_with(after, id) == source_intake::first_with(
            placed[i].items,
            id,
        ) && forall|h: int|
            0 <= h < i ==> !source_intake::has_id((#[trigger] placed[h]).items, id);
    let first = placed[i];
    lemma_first_index(first.items, id);
    let m = choose|m: int|
        0 <= m < first.items.len() && (#[trigger] first.items[m]).id == id
            && source_intake::first_with(first.items, id) == Some(first.items[m].record)
            && forall|h: int| 0 <= h < m ==> (#[trigger] first.items[h]).id != id;
    assert(placed.contains(first));
    assert forall|l: int, n: int| #[trigger]
        has_record(observed@, l, n) && !is_own(observed@[l].owner, key) && identity(
            record_at(observed@, l, n),
        ) == id implies observed@[l].owner@ == first.owner || comes_before(
        first.owner,
        observed@[l].owner@,
    ) by {
        lemma_place_of_other(key, observed, protected, plan, next, l, n);
        let h = choose|h: int|
            0 <= h < placed.len() && (#[trigger] placed[h]).owner == observed@[l].owner@
                && source_intake::has_id(placed[h].items, id);
        assert(h >= i);
        lemma_owner_order(first.owner, observed@[l].owner@, first.owner);
        if h > i {
            assert(source_intake::owner_less(placed[i].owner, placed[h].owner));
        }
    }
    if first == next {
        lemma_new_record(key, evidence, observed, protected, rows, previous, plan, m);
        assert forall|h: int| 0 <= h < m implies identity(
            (#[trigger] plan.own.records@[h]).record,
        ) != id by {
            lemma_new_record(key, evidence, observed, protected, rows, previous, plan, h);
            assert(next.items[h].id != id);
        }
        assert(own_speaks(key, observed@, plan, id, m));
    } else {
        assert(kept.contains(first));
        let x = choose|x: int| 0 <= x < kept.len() && kept[x] == first;
        assert(list.contains(list[x]));
        let k = choose|k: int| #[trigger] is_last(seen, k) && seen[k] == list[x];
        lemma_stands(observed@, k);
        assert forall|h: int| 0 <= h < first.items.len() implies (#[trigger] first.items[h]).id
            == identity(record_at(observed@, k, h)) && first.items[h].record == record_at(
            observed@,
            k,
            h,
        )@ by {
            assert(seen[k].items[h] == source_intake::item_view(observed@[k].snapshot.records@[h]));
        }
        assert(first.items[m].id == id);
        assert forall|h: int| 0 <= h < m implies identity(#[trigger] record_at(observed@, k, h))
            != id by {
            assert(first.items[h].id != id);
        }
        if asserts(plan, id) {
            let y = choose|y: int|
                0 <= y < plan.own.records@.len() && identity(
                    (#[trigger] plan.own.records@[y]).record,
                ) == id;
            lemma_new_record(key, evidence, observed, protected, rows, previous, plan, y);
            assert(next.items[y].id == id);
            assert(placed.contains(next));
            let h = choose|h: int| 0 <= h < placed.len() && placed[h] == next;
            assert(h >= i);
            assert(source_intake::owner_less(placed[i].owner, placed[h].owner));
            lemma_owner_order(first.owner, next.owner, first.owner);
        }
        assert forall|l: int, n: int| #[trigger]
            has_record(observed@, l, n) && !is_own(observed@[l].owner, key) && identity(
                record_at(observed@, l, n),
            ) == id implies l == k || comes_before(observed@[k].owner@, observed@[l].owner@) by {
            if observed@[l].owner@ == first.owner && l != k {
                assert(stands(observed@, l) && stands(observed@, k));
                if l < k {
                    assert(!is_same(observed@[k].owner, observed@[l].owner));
                } else {
                    assert(!is_same(observed@[l].owner, observed@[k].owner));
                }
            }
        }
        assert(other_speaks(key, observed@, plan, id, k, m));
    }
}

proof fn lemma_place_of_other(
    key: ObservationKey,
    observed: Vec<OwnedSnapshot>,
    protected: Vec<String>,
    plan: Reconciliation,
    next: SnapshotView,
    l: int,
    n: int,
)
    requires
        next.owner == source_intake::owner_view(key),
        has_record(observed@, l, n),
        !is_own(observed@[l].owner, key),
    ensures
        exists|h: int|
            0 <= h < source_intake::placed(kept_of(observed@, protected@, plan), next).len()
                && (#[trigger] source_intake::placed(
                kept_of(observed@, protected@, plan),
                next,
            )[h]).owner == observed@[l].owner@ && source_intake::has_id(
                source_intake::placed(kept_of(observed@, protected@, plan), next)[h].items,
                identity(record_at(observed@, l, n)),
            ),
{
    let seen = source_intake::snapshot_views(observed@);
    let revoked = revoked_by(protected@, plan);
    let list = source_intake::ordered(seen);
    let kept = kept_of(observed@, protected@, plan);
    let placed = source_intake::placed(kept, next);
    lemma_ordered(seen);
    lemma_revoked(list, revoked);
    lemma_placed(kept, next);
    lemma_stands(observed@, l);
    assert(list.contains(seen[l]));
    let x = choose|x: int| 0 <= x < list.len() && list[x] == seen[l];
    assert(kept.contains(kept[x]));
    assert(kept[x].owner == observed@[l].owner@);
    assert(placed.contains(kept[x]));
    let h = choose|h: int| 0 <= h < placed.len() && placed[h] == kept[x];
    assert(seen[l].items[n] == source_intake::item_view(observed@[l].snapshot.records@[n]));
    assert(placed[h].items[n].id == identity(record_at(observed@, l, n)));
}

/// A removed row is one that a connector owned: its record is what that connector's
/// snapshot said.
pub proof fn law_removed_row_was_owned(
    key: ObservationKey,
    evidence: NormalizedSourceEvidence,
    observed: Vec<OwnedSnapshot>,
    protected: Vec<String>,
    rows: Vec<CanonicalRow>,
    previous: Option<Option<String>>,
    plan: Reconciliation,
    j: int,
)
    requires
        is_plan(key, evidence, observed, protected, rows, previous, plan),
        0 <= j < plan.remove@.len(),
    ensures
        exists|k: int, m: int| #[trigger]
            has_record(observed@, k, m) && record_at(observed@, k, m)@ == plan.remove@[j].record@
                && identity(record_at(observed@, k, m)) == plan.remove@[j].identity@,
{
    let seen = source_intake::snapshot_views(observed@);
    let revoked = revoked_by(protected@, plan);
    let kept = kept_of(observed@, protected@, plan);
    let before = source_intake::flat(kept);
    let next = next_of(key, evidence, observed@, protected@, rows@, plan);
    let after = source_intake::flat(source_intake::placed(kept, next));
    let id = plan.remove@[j].identity@;
    assert(source_intake::removal(before, after)(plan.remove@[j].identity@) == Some(
        plan.remove@[j].record@,
    ));
    lemma_managed_is_found(before, id);
    let i = choose|i: int|
        0 <= i < before.len() && (#[trigger] before[i]).id == id && before[i].record
            == plan.remove@[j].record@;
    lemma_before(seen, revoked, before[i]);
    assert(before.contains(before[i]));
    let (k, m) = choose|k: int, m: int| #[trigger] is_held(seen, revoked, k, m, before[i]);
    lemma_held(observed@, protected@, plan, k, m, before[i]);
    assert(has_record(observed@, k, m) && record_at(observed@, k, m)@ == plan.remove@[j].record@);
}

} // verus!
