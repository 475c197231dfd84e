//! The session catalog: what moved in it between two readings, and its rows.
//!
//! A reading keeps one digest for each row. The digest covers the type and the
//! value of every column, so a row that moved in any of them has another digest
//! unless SHA-256 gives two inputs one.
use crate::digest;
use crate::digest::hex_digest;
use crate::order;
use crate::session_store;
use crate::session_store::{Error, SessionRef, Source};
use crate::store::{SessionScope, SourceNames};
use crate::text;
use crate::text::{concat3, same_text};
use crate::watch::TickOutcome;
use vstd::bytes::*;
use vstd::prelude::*;
use vstd::string::*;

verus! {

/// The columns of a catalog row that the digest covers: everything but the two
/// text excerpts.
pub const CATALOG_FINGERPRINT_COLUMNS: [&'static str; 16] = [
    "source_stamp",
    "last_activity_ms",
    "first_activity_ms",
    "discovery_state",
    "parser_version",
    "project_key",
    "project_key_method",
    "cwd",
    "git_branch",
    "raw_path",
    "models_json",
    "originator",
    "agent_version",
    "repo_url",
    "initial_commit",
    "workspace_roots_json",
];

/// One stored value. A real number is the bits of its double.
#[derive(Debug)]
pub enum ColumnValue {
    Null,
    Integer(i64),
    Real(u64),
    /// A text or a blob, by its bytes.
    Bytes(Vec<u8>),
}

/// The view of a stored value.
pub enum ColumnView {
    Null,
    Integer(i64),
    Real(u64),
    Bytes(Seq<u8>),
}

impl View for ColumnValue {
    type V = ColumnView;

    open spec fn view(&self) -> ColumnView {
        match self {
            ColumnValue::Null => ColumnView::Null,
            ColumnValue::Integer(n) => ColumnView::Integer(*n),
            ColumnValue::Real(bits) => ColumnView::Real(*bits),
            ColumnValue::Bytes(bytes) => ColumnView::Bytes(bytes@),
        }
    }
}

/// The views of some stored values.
pub open spec fn column_views(values: Seq<ColumnValue>) -> Seq<ColumnView> {
    Seq::new(values.len(), |i: int| values[i]@)
}

/// The eight bytes of an integer, lowest first.
pub open spec fn integer_bytes(n: i64) -> Seq<u8> {
    spec_u64_to_le_bytes(n as u64)
}

/// What a value adds to the text that a row's digest is taken of: its type, its
/// value and a separator. Bytes carry their number in front.
pub open spec fn column_bytes(value: ColumnView) -> Seq<u8> {
    match value {
        ColumnView::Null => seq![110u8, 124u8],
        ColumnView::Integer(n) => seq![105u8] + integer_bytes(n) + seq![124u8],
        ColumnView::Real(bits) => seq![114u8] + spec_u64_to_le_bytes(bits) + seq![124u8],
        ColumnView::Bytes(bytes) => seq![116u8] + spec_u64_to_le_bytes(bytes.len() as u64) + bytes
            + seq![124u8],
    }
}

/// The text that a row's digest is taken of.
pub open spec fn row_bytes(values: Seq<ColumnView>) -> Seq<u8>
    decreases values.len(),
{
    if values.len() == 0 {
        Seq::empty()
    } else {
        column_bytes(values[0]) + row_bytes(values.drop_first())
    }
}

/// Whether the bytes of a value can be counted in eight bytes.
pub open spec fn is_storable(value: ColumnView) -> bool {
    match value {
        ColumnView::Bytes(bytes) => bytes.len() <= u64::MAX,
        _ => true,
    }
}

proof fn lemma_column_start(value: ColumnView)
    ensures
        column_bytes(value).len() >= 2,
        column_bytes(value)[0] == match value {
            ColumnView::Null => 110u8,
            ColumnView::Integer(_) => 105u8,
            ColumnView::Real(_) => 114u8,
            ColumnView::Bytes(_) => 116u8,
        },
        value is Null ==> column_bytes(value).len() == 2,
        value is Integer ==> column_bytes(value).len() == 10,
        value is Real ==> column_bytes(value).len() == 10,
        value is Bytes ==> column_bytes(value).len() == 10 + value->Bytes_0.len(),
{
    lemma_auto_spec_u64_to_from_le_bytes();
}

proof fn lemma_counts_are_told_apart(a: u64, b: u64)
    requires
        spec_u64_to_le_bytes(a) == spec_u64_to_le_bytes(b),
    ensures
        a == b,
{
    lemma_auto_spec_u64_to_from_le_bytes();
    assert(spec_u64_from_le_bytes(spec_u64_to_le_bytes(a)) == a);
    assert(spec_u64_from_le_bytes(spec_u64_to_le_bytes(b)) == b);
}

/// Two columns in front of a text are told apart by it: a column's bytes say where
/// they end.
proof fn lemma_columns_are_told_apart(a: ColumnView, b: ColumnView, p: Seq<u8>, q: Seq<u8>)
    requires
        is_storable(a),
        is_storable(b),
        column_bytes(a) + p == column_bytes(b) + q,
    ensures
        a == b,
        p == q,
{
    let x = column_bytes(a) + p;
    let y = column_bytes(b) + q;
    lemma_column_start(a);
    lemma_column_start(b);
    lemma_auto_spec_u64_to_from_le_bytes();
    assert(x[0] == column_bytes(a)[0]);
    assert(y[0] == column_bytes(b)[0]);
    match a {
        ColumnView::Null => {},
        ColumnView::Integer(m) => {
            let n = b->Integer_0;
            assert(x.subrange(1, 9) =~= integer_bytes(m));
            assert(y.subrange(1, 9) =~= integer_bytes(n));
            lemma_counts_are_told_apart(m as u64, n as u64);
            assert(m as u64 == n as u64 ==> m == n) by (bit_vector);
        },
        ColumnView::Real(m) => {
            let n = b->Real_0;
            assert(x.subrange(1, 9) =~= spec_u64_to_le_bytes(m));
            assert(y.subrange(1, 9) =~= spec_u64_to_le_bytes(n));
            lemma_counts_are_told_apart(m, n);
        },
        ColumnView::Bytes(s) => {
            let t = b->Bytes_0;
            assert(x.subrange(1, 9) =~= spec_u64_to_le_bytes(s.len() as u64));
            assert(y.subrange(1, 9) =~= spec_u64_to_le_bytes(t.len() as u64));
            lemma_counts_are_told_apart(s.len() as u64, t.len() as u64);
            assert(s.len() == t.len());
            assert(x.subrange(9, 9 + s.len() as int) =~= s);
            assert(y.subrange(9, 9 + t.len() as int) =~= t);
        },
    }
    assert(column_bytes(a).len() == column_bytes(b).len());
    let n = column_bytes(a).len() as int;
    assert(x.skip(n) =~= p);
    assert(y.skip(n) =~= q);
}

/// Two rows give the digest the same text only where they hold the same values: a
/// missing value and an empty one differ, and no value runs over into the next.
pub proof fn law_rows_are_told_apart(a: Seq<ColumnView>, b: Seq<ColumnView>)
    requires
        forall|i: int| 0 <= i < a.len() ==> is_storable(#[trigger] a[i]),
        forall|i: int| 0 <= i < b.len() ==> is_storable(#[trigger] b[i]),
        row_bytes(a) == row_bytes(b),
    ensures
        a == b,
    decreases a.len(),
{
    if a.len() == 0 {
        if b.len() > 0 {
            lemma_column_start(b[0]);
            assert(row_bytes(b).len() >= 2);
        }
        assert(a =~= b);
    } else if b.len() == 0 {
        lemma_column_start(a[0]);
        assert(row_bytes(a).len() >= 2);
    } else {
        lemma_columns_are_told_apart(
            a[0],
            b[0],
            row_bytes(a.drop_first()),
            row_bytes(b.drop_first()),
        );
        law_rows_are_told_apart(a.drop_first(), b.drop_first());
        assert(a =~= seq![a[0]] + a.drop_first());
        assert(b =~= seq![b[0]] + b.drop_first());
    }
}

/// One row of the catalog, with the columns that the digest covers.
#[derive(Debug)]
pub struct CatalogRow {
    pub source: String,
    pub session_id: String,
    pub values: Vec<ColumnValue>,
}

/// One row of a reading.
#[derive(Debug)]
pub struct CatalogStamp {
    pub source: String,
    pub session_id: String,
    /// The digest of the row, in hexadecimal.
    pub digest: String,
}

/// A reading of the catalog: a digest for each session, in the order of the
/// sessions.
#[derive(Debug)]
pub struct CatalogFingerprint {
    pub stamps: Vec<CatalogStamp>,
}

/// Which session a row is of.
pub open spec fn row_key(row: CatalogRow) -> (Seq<char>, Seq<char>) {
    (row.source@, row.session_id@)
}

/// Which session a stamp is of.
pub open spec fn stamp_key(stamp: CatalogStamp) -> (Seq<char>, Seq<char>) {
    (stamp.source@, stamp.session_id@)
}

/// The digest of a row.
pub open spec fn row_digest(row: CatalogRow) -> Seq<char> {
    digest::sha256_hex(row_bytes(column_views(row.values@)))
}

/// Whether one session comes before another: by source, and then by id.
pub open spec fn session_less(a: (Seq<char>, Seq<char>), b: (Seq<char>, Seq<char>)) -> bool {
    order::text_less(a.0, b.0) || (a.0 == b.0 && order::text_less(a.1, b.1))
}

impl CatalogFingerprint {
    /// Whether the sessions are in order, each of them once.
    pub open spec fn well_formed(self) -> bool {
        forall|i: int, j: int|
            0 <= i < j < self.stamps@.len() ==> session_less(
                stamp_key(#[trigger] self.stamps@[i]),
                stamp_key(#[trigger] self.stamps@[j]),
            )
    }

    /// The digest of a session in a reading.
    pub open spec fn digest_of(self, key: (Seq<char>, Seq<char>)) -> Option<Seq<char>> {
        if exists|i: int| 0 <= i < self.stamps@.len() && stamp_key(#[trigger] self.stamps@[i]) == key {
            let i = choose|i: int|
                0 <= i < self.stamps@.len() && stamp_key(#[trigger] self.stamps@[i]) == key;
            Some(self.stamps@[i].digest@)
        } else {
            None
        }
    }
}

/// The last row of a session among the first of a list.
pub open spec fn last_row(rows: Seq<CatalogRow>, key: (Seq<char>, Seq<char>), n: int) -> Option<
    CatalogRow,
>
    decreases n,
{
    if n <= 0 {
        None
    } else if row_key(rows[n - 1]) == key {
        Some(rows[n - 1])
    } else {
        last_row(rows, key, n - 1)
    }
}

/// The digest that a reading of some rows has for a session.
pub open spec fn digest_in(rows: Seq<CatalogRow>, key: (Seq<char>, Seq<char>)) -> Option<Seq<char>> {
    match last_row(rows, key, rows.len() as int) {
        Some(row) => Some(row_digest(row)),
        None => None,
    }
}

fn add_bytes(out: &mut Vec<u8>, bytes: &Vec<u8>)
    ensures
        final(out)@ == old(out)@ + bytes@,
{
    let mut i: usize = 0;
    let ghost start = out@;
    assert(out@ =~= start + bytes@.take(0));
    while i < bytes.len()
        invariant
            i <= bytes.len(),
            out@ == start + bytes@.take(i as int),
        decreases bytes.len() - i,
    {
        out.push(bytes[i]);
        assert(bytes@.take(i + 1) =~= bytes@.take(i as int).push(bytes@[i as int]));
        assert(out@ =~= start + bytes@.take(i + 1));
        i = i + 1;
    }
    assert(bytes@.take(bytes@.len() as int) =~= bytes@);
}

fn add_column(out: &mut Vec<u8>, value: &ColumnValue)
    ensures
        final(out)@ == old(out)@ + column_bytes(value@),
{
    let ghost start = out@;
    match value {
        ColumnValue::Null => {
            out.push(110);
        },
        ColumnValue::Integer(n) => {
            out.push(105);
            let bytes = u64_to_le_bytes(*n as u64);
            add_bytes(out, &bytes);
        },
        ColumnValue::Real(bits) => {
            out.push(114);
            let bytes = u64_to_le_bytes(*bits);
            add_bytes(out, &bytes);
        },
        ColumnValue::Bytes(bytes) => {
            out.push(116);
            let count = u64_to_le_bytes(bytes.len() as u64);
            add_bytes(out, &count);
            add_bytes(out, bytes);
        },
    }
    out.push(124);
    assert(out@ =~= start + column_bytes(value@));
}

proof fn lemma_row_bytes_push(values: Seq<ColumnView>, value: ColumnView)
    ensures
        row_bytes(values.push(value)) == row_bytes(values) + column_bytes(value),
    decreases values.len(),
{
    let all = values.push(value);
    if values.len() == 0 {
        assert(all.drop_first() =~= Seq::<ColumnView>::empty());
        assert(all[0] == value);
        assert(row_bytes(all.drop_first()) =~= Seq::<u8>::empty());
        assert(row_bytes(values) =~= Seq::<u8>::empty());
        assert(row_bytes(all) =~= row_bytes(values) + column_bytes(value));
    } else {
        lemma_row_bytes_push(values.drop_first(), value);
        assert(all.drop_first() =~= values.drop_first().push(value));
        assert(all[0] == values[0]);
        assert(row_bytes(all) =~= row_bytes(values) + column_bytes(value));
    }
}

/// The digest of a row, in hexadecimal.
pub fn digest_row(row: &CatalogRow) -> (r: String)
    ensures
        r@ == row_digest(*row),
{
    let mut out: Vec<u8> = Vec::new();
    let mut i: usize = 0;
    let ghost all = column_views(row.values@);
    assert(all.take(0) =~= Seq::<ColumnView>::empty());
    while i < row.values.len()
        invariant
            i <= row.values.len(),
            all == column_views(row.values@),
            out@ == row_bytes(all.take(i as int)),
        decreases row.values.len() - i,
    {
        add_column(&mut out, &row.values[i]);
        proof {
            lemma_row_bytes_push(all.take(i as int), all[i as int]);
            assert(all.take(i + 1) =~= all.take(i as int).push(all[i as int]));
        }
        i = i + 1;
    }
    assert(all.take(all.len() as int) =~= all);
    hex_digest(out.as_slice())
}

fn key_is(source: &str, session_id: &str, stamp: &CatalogStamp) -> (r: bool)
    ensures
        r == (stamp_key(*stamp) == (source@, session_id@)),
{
    same_text(stamp.source.as_str(), source) && same_text(stamp.session_id.as_str(), session_id)
}

fn comes_before(stamp: &CatalogStamp, source: &str, session_id: &str) -> (r: bool)
    ensures
        r == session_less(stamp_key(*stamp), (source@, session_id@)),
{
    if order::less(stamp.source.as_str(), source) {
        return true;
    }
    same_text(stamp.source.as_str(), source) && order::less(stamp.session_id.as_str(), session_id)
}

proof fn lemma_session_less(
    a: (Seq<char>, Seq<char>),
    b: (Seq<char>, Seq<char>),
    c: (Seq<char>, Seq<char>),
)
    ensures
        !session_less(a, a),
        session_less(a, b) && session_less(b, c) ==> session_less(a, c),
        a != b ==> session_less(a, b) || session_less(b, a),
{
    order::lemma_text_less_irreflexive(a.0);
    order::lemma_text_less_irreflexive(a.1);
    if order::text_less(a.0, b.0) && order::text_less(b.0, c.0) {
        order::lemma_text_less_transitive(a.0, b.0, c.0);
    }
    if order::text_less(a.1, b.1) && order::text_less(b.1, c.1) {
        order::lemma_text_less_transitive(a.1, b.1, c.1);
    }
    order::lemma_text_less_total(a.0, b.0);
    order::lemma_text_less_total(a.1, b.1);
}

/// In a reading that is in order, a stamp's digest is that of its session.
pub proof fn lemma_digest_at(reading: CatalogFingerprint, i: int)
    requires
        reading.well_formed(),
        0 <= i < reading.stamps@.len(),
    ensures
        reading.digest_of(stamp_key(reading.stamps@[i])) == Some(reading.stamps@[i].digest@),
{
    let key = stamp_key(reading.stamps@[i]);
    let j = choose|j: int|
        0 <= j < reading.stamps@.len() && stamp_key(#[trigger] reading.stamps@[j]) == key;
    assert(stamp_key(reading.stamps@[i]) == key);
    if j < i {
        assert(session_less(stamp_key(reading.stamps@[j]), stamp_key(reading.stamps@[i])));
    } else if i < j {
        assert(session_less(stamp_key(reading.stamps@[i]), stamp_key(reading.stamps@[j])));
    }
    lemma_session_less(key, key, key);
}

fn enter(reading: &mut CatalogFingerprint, stamp: CatalogStamp)
    requires
        old(reading).well_formed(),
    ensures
        final(reading).well_formed(),
        forall|key: (Seq<char>, Seq<char>)| #[trigger]
            final(reading).digest_of(key) == if key == stamp_key(stamp) {
                Some(stamp.digest@)
            } else {
                old(reading).digest_of(key)
            },
{
    let ghost before = *reading;
    let ghost new = stamp;
    let ghost mine = stamp_key(stamp);
    let mut at: usize = 0;
    while at < reading.stamps.len() && comes_before(
        &reading.stamps[at],
        stamp.source.as_str(),
        stamp.session_id.as_str(),
    )
        invariant
            at <= reading.stamps.len(),
            *reading == before,
            mine == stamp_key(stamp),
            forall|j: int|
                0 <= j < at ==> session_less(stamp_key(#[trigger] before.stamps@[j]), mine),
        decreases reading.stamps.len() - at,
    {
        at = at + 1;
    }
    let there = at < reading.stamps.len() && key_is(
        stamp.source.as_str(),
        stamp.session_id.as_str(),
        &reading.stamps[at],
    );
    proof {
        assert forall|j: int| at <= j < before.stamps@.len() && !(there && j == at) implies session_less(
            mine,
            stamp_key(#[trigger] before.stamps@[j]),
        ) by {
            let here = stamp_key(before.stamps@[at as int]);
            let that = stamp_key(before.stamps@[j]);
            lemma_session_less(mine, here, that);
            lemma_session_less(here, mine, that);
            if j > at {
                assert(session_less(here, that));
            }
        }
    }
    if there {
        reading.stamps.set(at, stamp);
    } else {
        reading.stamps.insert(at, stamp);
    }
    proof {
        let after = reading.stamps@;
        let was = before.stamps@;
        assert(after == if there {
            was.update(at as int, new)
        } else {
            was.insert(at as int, new)
        });
        assert forall|i: int, j: int| 0 <= i < j < after.len() implies session_less(
            stamp_key(#[trigger] after[i]),
            stamp_key(#[trigger] after[j]),
        ) by {
            let a = if there || i < at {
                i
            } else {
                i - 1
            };
            let b = if there || j < at {
                j
            } else {
                j - 1
            };
            if i != at && j != at {
                assert(after[i] == was[a] && after[j] == was[b]);
                assert(session_less(stamp_key(was[a]), stamp_key(was[b])));
            } else if i == at {
                assert(after[j] == was[b]);
                assert(session_less(mine, stamp_key(was[b])));
            } else {
                assert(after[i] == was[a]);
                assert(session_less(stamp_key(was[a]), mine));
            }
        }
        assert(reading.well_formed());
        assert forall|key: (Seq<char>, Seq<char>)| #[trigger]
            reading.digest_of(key) == if key == mine {
                Some(new.digest@)
            } else {
                before.digest_of(key)
            } by {
            assert(after[at as int] == new);
            if key == mine {
                lemma_digest_at(*reading, at as int);
            } else {
                if exists|i: int| 0 <= i < was.len() && stamp_key(#[trigger] was[i]) == key {
                    let i = choose|i: int| 0 <= i < was.len() && stamp_key(#[trigger] was[i]) == key;
                    lemma_digest_at(before, i);
                    let k = if there || i < at {
                        i
                    } else {
                        i + 1
                    };
                    assert(after[k] == was[i]);
                    lemma_digest_at(*reading, k);
                } else if exists|i: int| 0 <= i < after.len() && stamp_key(#[trigger] after[i]) == key {
                    let i = choose|i: int|
                        0 <= i < after.len() && stamp_key(#[trigger] after[i]) == key;
                    let k = if there || i < at {
                        i
                    } else {
                        i - 1
                    };
                    assert(i != at);
                    assert(was[k] == after[i]);
                }
            }
        }
    }
}

/// A reading of the catalog: the digest of each row. Of two rows of one session
/// the later counts.
pub fn catalog_fingerprint(rows: &Vec<CatalogRow>) -> (r: CatalogFingerprint)
    ensures
        r.well_formed(),
        forall|key: (Seq<char>, Seq<char>)| #[trigger]
            r.digest_of(key) == digest_in(rows@, key),
{
    let mut reading = CatalogFingerprint { stamps: Vec::new() };
    let mut i: usize = 0;
    while i < rows.len()
        invariant
            i <= rows.len(),
            reading.well_formed(),
            forall|key: (Seq<char>, Seq<char>)| #[trigger]
                reading.digest_of(key) == match last_row(rows@, key, i as int) {
                    Some(row) => Some(row_digest(row)),
                    None => None,
                },
        decreases rows.len() - i,
    {
        let row = &rows[i];
        let ghost before = reading;
        enter(
            &mut reading,
            CatalogStamp {
                source: row.source.clone(),
                session_id: row.session_id.clone(),
                digest: digest_row(row),
            },
        );
        assert forall|key: (Seq<char>, Seq<char>)| #[trigger]
            reading.digest_of(key) == match last_row(rows@, key, i + 1) {
                Some(row) => Some(row_digest(row)),
                None => None,
            } by {
            assert(before.digest_of(key) == match last_row(rows@, key, i as int) {
                Some(row) => Some(row_digest(row)),
                None => None,
            });
        }
        i = i + 1;
    }
    reading
}

/// Whether a stamp of the later reading is a change: its session was not there, or
/// with another digest.
pub open spec fn is_change(before: CatalogFingerprint, stamp: CatalogStamp) -> bool {
    before.digest_of(stamp_key(stamp)) != Some(stamp.digest@)
}

/// The changed sessions among the first stamps of the later reading, in order. A
/// session of a source that is not known is left out.
pub open spec fn changes_in(
    before: CatalogFingerprint,
    stamps: Seq<CatalogStamp>,
    first: Seq<char>,
    n: int,
) -> Seq<session_store::RefView>
    decreases n,
{
    if n <= 0 {
        Seq::empty()
    } else {
        let so_far = changes_in(before, stamps, first, n - 1);
        let stamp = stamps[n - 1];
        match session_store::source_named(stamp.source@, first) {
            Some(source) => if is_change(before, stamp) {
                so_far.push(
                    session_store::RefView::Id { source, session_id: stamp.session_id@ },
                )
            } else {
                so_far
            },
            None => so_far,
        }
    }
}

/// The sessions that moved between two readings.
pub open spec fn changes_of(
    before: CatalogFingerprint,
    after: CatalogFingerprint,
    first: Seq<char>,
) -> Seq<session_store::RefView> {
    changes_in(before, after.stamps@, first, after.stamps@.len() as int)
}

fn find_digest<'a>(reading: &'a CatalogFingerprint, source: &str, session_id: &str) -> (r: Option<
    &'a str,
>)
    requires
        reading.well_formed(),
    ensures
        match r {
            Some(digest) => reading.digest_of((source@, session_id@)) == Some(digest@),
            None => reading.digest_of((source@, session_id@)) is None,
        },
{
    let mut i: usize = 0;
    while i < reading.stamps.len()
        invariant
            i <= reading.stamps.len(),
            reading.well_formed(),
            forall|j: int|
                0 <= j < i ==> stamp_key(#[trigger] reading.stamps@[j]) != (source@, session_id@),
        decreases reading.stamps.len() - i,
    {
        if key_is(source, session_id, &reading.stamps[i]) {
            proof {
                lemma_digest_at(*reading, i as int);
            }
            return Some(reading.stamps[i].digest.as_str());
        }
        i = i + 1;
    }
    None
}

/// The sessions whose catalog row was created or changed between two readings.
pub fn catalog_changes(
    before: &CatalogFingerprint,
    after: &CatalogFingerprint,
    names: &SourceNames,
) -> (r: Vec<SessionRef>)
    requires
        before.well_formed(),
    ensures
        session_store::ref_views(r@) == changes_of(*before, *after, names.claude@),
{
    let mut out: Vec<SessionRef> = Vec::new();
    let mut i: usize = 0;
    assert(session_store::ref_views(out@) =~= changes_in(*before, after.stamps@, names.claude@, 0));
    while i < after.stamps.len()
        invariant
            i <= after.stamps.len(),
            before.well_formed(),
            session_store::ref_views(out@) == changes_in(
                *before,
                after.stamps@,
                names.claude@,
                i as int,
            ),
        decreases after.stamps.len() - i,
    {
        let stamp = &after.stamps[i];
        let ghost so_far = session_store::ref_views(out@);
        let same = match find_digest(before, stamp.source.as_str(), stamp.session_id.as_str()) {
            Some(digest) => same_text(digest, stamp.digest.as_str()),
            None => false,
        };
        let named = Source::parse(stamp.source.as_str(), names);
        if let Some(source) = named {
            if !same {
                out.push(SessionRef::id(source, stamp.session_id.as_str()));
                assert(session_store::ref_views(out@) =~= so_far.push(out@.last()@));
            }
        }
        i = i + 1;
    }
    out
}

/// Two readings that have the same digest for every session report no change.
pub proof fn law_equal_readings_report_nothing(
    before: CatalogFingerprint,
    after: CatalogFingerprint,
    first: Seq<char>,
    n: int,
)
    requires
        after.well_formed(),
        forall|key: (Seq<char>, Seq<char>)| #[trigger]
            before.digest_of(key) == after.digest_of(key),
        0 <= n <= after.stamps@.len(),
    ensures
        changes_in(before, after.stamps@, first, n).len() == 0,
    decreases n,
{
    if n > 0 {
        law_equal_readings_report_nothing(before, after, first, n - 1);
        lemma_digest_at(after, n - 1);
        assert(before.digest_of(stamp_key(after.stamps@[n - 1])) == after.digest_of(
            stamp_key(after.stamps@[n - 1]),
        ));
    }
}

/// A session that is in a reading, of a known source, and was not there before or
/// with another digest, is reported.
pub proof fn law_every_change_is_reported(
    before: CatalogFingerprint,
    after: CatalogFingerprint,
    source: Source,
    first: Seq<char>,
    i: int,
    n: int,
)
    requires
        0 <= i < n <= after.stamps@.len(),
        session_store::is_own_name(first),
        after.stamps@[i].source@ == session_store::source_label(source, first),
        is_change(before, after.stamps@[i]),
    ensures
        changes_in(before, after.stamps@, first, n).contains(
            session_store::RefView::Id { source, session_id: after.stamps@[i].session_id@ },
        ),
    decreases n,
{
    let stamp = after.stamps@[i];
    let change = session_store::RefView::Id { source, session_id: stamp.session_id@ };
    let so_far = changes_in(before, after.stamps@, first, n - 1);
    let all = changes_in(before, after.stamps@, first, n);
    if i == n - 1 {
        session_store::law_label_names_its_source(source, first);
        assert(all[so_far.len() as int] == change);
    } else {
        law_every_change_is_reported(before, after, source, first, i, n - 1);
        let k = choose|k: int| 0 <= k < so_far.len() && so_far[k] == change;
        assert(all[k] == change);
    }
}

/// Which session a reported change is of, as a reading names it.
pub open spec fn change_key(change: session_store::RefView, first: Seq<char>) -> (
    Seq<char>,
    Seq<char>,
) {
    match change {
        session_store::RefView::Id { source, session_id } => (
            session_store::source_label(source, first),
            session_id,
        ),
        session_store::RefView::Path { source, path } => (
            session_store::source_label(source, first),
            path,
        ),
    }
}

/// Only changes are reported: what is reported names a session of the later reading
/// that was not there before, or with another digest.
pub proof fn law_only_changes_are_reported(
    before: CatalogFingerprint,
    after: CatalogFingerprint,
    first: Seq<char>,
    n: int,
    k: int,
)
    requires
        0 <= n <= after.stamps@.len(),
        0 <= k < changes_in(before, after.stamps@, first, n).len(),
    ensures
        changes_in(before, after.stamps@, first, n)[k] is Id,
        exists|i: int|
            0 <= i < n && is_change(before, #[trigger] after.stamps@[i]) && stamp_key(
                after.stamps@[i],
            ) == change_key(changes_in(before, after.stamps@, first, n)[k], first),
    decreases n,
{
    let so_far = changes_in(before, after.stamps@, first, n - 1);
    let all = changes_in(before, after.stamps@, first, n);
    let stamp = after.stamps@[n - 1];
    if k < so_far.len() {
        law_only_changes_are_reported(before, after, first, n - 1, k);
        let i = choose|i: int|
            0 <= i < n - 1 && is_change(before, #[trigger] after.stamps@[i]) && stamp_key(
                after.stamps@[i],
            ) == change_key(so_far[k], first);
        assert(all[k] == so_far[k]);
        assert(is_change(before, after.stamps@[i]));
    } else {
        session_store::law_named_source_has_its_label(stamp.source@, first);
        assert(is_change(before, after.stamps@[n - 1]));
    }
}

/// The changes come in the order of the sessions of the later reading, by source and
/// then by id, and no session is reported twice.
pub proof fn law_changes_are_in_order_without_repeats(
    before: CatalogFingerprint,
    after: CatalogFingerprint,
    first: Seq<char>,
    n: int,
    j: int,
    k: int,
)
    requires
        after.well_formed(),
        0 <= n <= after.stamps@.len(),
        0 <= j < k < changes_in(before, after.stamps@, first, n).len(),
    ensures
        ({
            let changes = changes_in(before, after.stamps@, first, n);
            &&& session_less(change_key(changes[j], first), change_key(changes[k], first))
            &&& changes[j] != changes[k]
        }),
    decreases n,
{
    let so_far = changes_in(before, after.stamps@, first, n - 1);
    let all = changes_in(before, after.stamps@, first, n);
    let stamp = after.stamps@[n - 1];
    assert(all[j] == so_far[j]);
    if k < so_far.len() {
        law_changes_are_in_order_without_repeats(before, after, first, n - 1, j, k);
        assert(all[k] == so_far[k]);
    } else {
        law_only_changes_are_reported(before, after, first, n - 1, j);
        let i = choose|i: int|
            0 <= i < n - 1 && is_change(before, #[trigger] after.stamps@[i]) && stamp_key(
                after.stamps@[i],
            ) == change_key(so_far[j], first);
        session_store::law_named_source_has_its_label(stamp.source@, first);
        assert(session_less(stamp_key(after.stamps@[i]), stamp_key(after.stamps@[n - 1])));
        assert(change_key(all[k], first) == stamp_key(stamp));
        let key = change_key(all[k], first);
        order::lemma_text_less_irreflexive(key.0);
        order::lemma_text_less_irreflexive(key.1);
    }
}

/// What a locked sweep did.
#[derive(Debug, Clone, Copy, PartialEq, Eq, Structural)]
pub struct SyncTick {
    /// The lock was taken.
    pub attempted: bool,
    /// A full walk ran.
    pub swept: bool,
}

/// What a sweep means for a watch loop: without the lock nothing was looked at.
pub open spec fn outcome_of(tick: SyncTick) -> TickOutcome {
    TickOutcome {
        swept: tick.swept,
        skipped_unchanged: tick.attempted && !tick.swept,
        contended: !tick.attempted,
    }
}

/// A locked sweep with the reading that it ended on.
#[derive(Debug)]
pub struct SweptCatalog {
    pub tick: SyncTick,
    pub after: CatalogFingerprint,
    pub changed: Vec<SessionRef>,
}

/// One watch tick's bookkeeping: the rolling baseline moves forward where the sweep
/// came back with a reading, and only there. A sweep that failed part-way has
/// committed rows that the next report still owes.
pub fn rolling_tick<E>(
    base: &mut Option<CatalogFingerprint>,
    sweep: Result<Option<SweptCatalog>, E>,
) -> (r: Result<(TickOutcome, Vec<SessionRef>), E>)
    ensures
        match sweep {
            Err(error) => r == Err::<(TickOutcome, Vec<SessionRef>), E>(error) && *final(base)
                == *old(base),
            Ok(None) => {
                &&& r is Ok
                &&& r->Ok_0.0 == outcome_of(SyncTick { attempted: false, swept: false })
                &&& r->Ok_0.1@.len() == 0
                &&& *final(base) == *old(base)
            },
            Ok(Some(swept)) => {
                &&& r is Ok
                &&& r->Ok_0.0 == outcome_of(swept.tick)
                &&& r->Ok_0.1 == swept.changed
                &&& *final(base) == Some(swept.after)
            },
        },
{
    match sweep {
        Err(error) => Err(error),
        Ok(None) => Ok(
            (
                TickOutcome { swept: false, skipped_unchanged: false, contended: true },
                Vec::new(),
            ),
        ),
        Ok(Some(swept)) => {
            let outcome = TickOutcome {
                swept: swept.tick.swept,
                skipped_unchanged: swept.tick.attempted && !swept.tick.swept,
                contended: !swept.tick.attempted,
            };
            *base = Some(swept.after);
            Ok((outcome, swept.changed))
        },
    }
}

/// The result of a local sweep.
#[derive(Debug)]
#[non_exhaustive]
pub struct SyncReport {
    /// A full walk ran.
    pub swept: bool,
    /// The sessions whose catalog row changed while the sweep held the lock.
    pub changed: Vec<SessionRef>,
    /// The head of the change feed after the sweep.
    pub head_revision: u64,
}

impl<R> session_store::SessionStore<R> {
    /// The report of a sweep, from the readings of the catalog at the start and at
    /// the end of its locked section. They are compared whether or not it swept: a
    /// hydration writes the catalog without the lock.
    pub fn sync(
        &self,
        names: &SourceNames,
        swept: bool,
        before: &CatalogFingerprint,
        after: &CatalogFingerprint,
        head_revision: u64,
    ) -> (r: Result<SyncReport, Error>)
        requires
            before.well_formed(),
        ensures
            match r {
                Err(error) => self.read_only && session_store::is_read_only_refusal(error, "sync"@),
                Ok(report) => {
                    &&& !self.read_only
                    &&& report.swept == swept
                    &&& session_store::ref_views(report.changed@) == changes_of(
                        *before,
                        *after,
                        names.claude@,
                    )
                    &&& report.head_revision == head_revision
                },
            },
    {
        match self.writable("sync") {
            Ok(_) => {},
            Err(error) => return Err(error),
        }
        Ok(SyncReport { swept, changed: catalog_changes(before, after, names), head_revision })
    }
}

/// One completed sweep of a watch loop.
#[derive(Debug)]
#[non_exhaustive]
pub struct TickReport {
    pub trigger: crate::watch::TickTrigger,
    /// The sweep bypassed the source fingerprint.
    pub forced: bool,
    pub swept: bool,
    pub skipped_unchanged: bool,
    /// Another process held the lock; nothing was read.
    pub contended: bool,
    /// The sessions whose catalog row changed since the last report.
    pub changed: Vec<SessionRef>,
}

impl TickReport {
    /// The report of a tick.
    pub fn of(report: crate::watch::TickReport, changed: Vec<SessionRef>) -> (r: Self)
        ensures
            r.trigger == report.trigger,
            r.forced == report.forced,
            r.swept == report.outcome.swept,
            r.skipped_unchanged == report.outcome.skipped_unchanged,
            r.contended == report.outcome.contended,
            r.changed == changed,
    {
        TickReport {
            trigger: report.trigger,
            forced: report.forced,
            swept: report.outcome.swept,
            skipped_unchanged: report.outcome.skipped_unchanged,
            contended: report.outcome.contended,
            changed,
        }
    }
}

/// Which catalog rows are walked.
#[derive(Debug)]
#[non_exhaustive]
pub struct CatalogQuery {
    /// Which presences to count.
    pub scope: SessionScope,
    /// Restrict to these sources. An empty list admits none.
    pub sources: Option<Vec<Source>>,
    /// Restrict to one project.
    pub project_key: Option<String>,
    /// Only sessions with a last activity before this time.
    pub before_ms: Option<i64>,
    /// Rows for each page, from 1 to 1000.
    pub page_size: i64,
}

impl Default for CatalogQuery {
    fn default() -> (r: Self)
        ensures
            r.scope == SessionScope::Local,
            r.sources is None,
            r.project_key is None,
            r.before_ms is None,
            r.page_size == 200,
    {
        CatalogQuery {
            scope: SessionScope::Local,
            sources: None,
            project_key: None,
            before_ms: None,
            page_size: 200,
        }
    }
}

/// What a page of the catalog is asked for by.
#[derive(Debug)]
pub struct CatalogListOptions {
    pub scope: SessionScope,
    /// The sources, by identifier; none named means every one.
    pub sources: Vec<String>,
    pub limit: i64,
    pub before_ms: Option<i64>,
    pub project_key: Option<String>,
}

/// A page size within its bounds.
pub open spec fn clamped_page(size: i64) -> i64 {
    if size < 1 {
        1
    } else if size > 1_000 {
        1_000
    } else {
        size
    }
}

impl CatalogQuery {
    /// What the pages of a walk are asked for by; nothing where no source is
    /// admitted. An empty list and no list are different requests.
    pub fn list_options(&self, names: &SourceNames) -> (r: Option<CatalogListOptions>)
        ensures
            match r {
                None => self.sources is Some && self.sources->0@.len() == 0,
                Some(options) => {
                    &&& options.scope == self.scope
                    &&& options.limit == clamped_page(self.page_size)
                    &&& options.before_ms == self.before_ms
                    &&& text::opt_view(options.project_key) == text::opt_view(self.project_key)
                    &&& match self.sources {
                        None => options.sources@.len() == 0,
                        Some(sources) => {
                            &&& sources@.len() > 0
                            &&& options.sources@.len() == sources@.len()
                            &&& forall|i: int|
                                0 <= i < sources@.len() ==> (#[trigger] options.sources@[i])@
                                    == session_store::source_label(sources@[i], names.claude@)
                        },
                    }
                },
            },
    {
        let mut labels: Vec<String> = Vec::new();
        if let Some(sources) = &self.sources {
            if sources.len() == 0 {
                return None;
            }
            let mut i: usize = 0;
            while i < sources.len()
                invariant
                    i <= sources.len(),
                    labels@.len() == i,
                    forall|j: int|
                        0 <= j < i ==> (#[trigger] labels@[j])@ == session_store::source_label(
                            sources@[j],
                            names.claude@,
                        ),
                decreases sources.len() - i,
            {
                labels.push(sources[i].as_str(names).to_owned());
                i = i + 1;
            }
        }
        let limit: i64 = if self.page_size < 1 {
            1
        } else if self.page_size > 1_000 {
            1_000
        } else {
            self.page_size
        };
        Some(
            CatalogListOptions {
                scope: self.scope,
                sources: labels,
                limit,
                before_ms: self.before_ms,
                project_key: self.project_key.clone(),
            },
        )
    }
}

/// Whether full evidence of a session was read, or its catalog row only.
#[derive(Debug, Clone, Copy, PartialEq, Eq, Hash, Structural)]
#[non_exhaustive]
pub enum DiscoveryState {
    Shallow,
    Full,
}

/// A catalog row as it is stored.
#[derive(Debug)]
pub struct ShallowSession {
    pub source: String,
    pub session_id: String,
    pub cwd: Option<String>,
    pub git_branch: Option<String>,
    pub first_activity_ms: Option<i64>,
    pub last_activity_ms: Option<i64>,
    pub first_prompt: Option<String>,
    pub last_assistant_text: Option<String>,
    pub models: Vec<String>,
    pub originator: Option<String>,
    pub agent_version: Option<String>,
    pub repo_url: Option<String>,
    pub initial_commit: Option<String>,
    pub workspace_roots: Vec<String>,
    pub project_key: Option<String>,
    pub project_key_method: Option<String>,
    pub raw_path: Option<String>,
    pub source_stamp: Option<String>,
    pub discovery_state: String,
    pub locations: Vec<String>,
    /// Whether the row was served as it is stored, without reading its source.
    pub from_cache: bool,
}

/// The view of a catalog row.
#[verifier::ext_equal]
pub struct ShallowView {
    pub source: Seq<char>,
    pub session_id: Seq<char>,
    pub cwd: Option<Seq<char>>,
    pub git_branch: Option<Seq<char>>,
    pub first_activity_ms: Option<i64>,
    pub last_activity_ms: Option<i64>,
    pub first_prompt: Option<Seq<char>>,
    pub last_assistant_text: Option<Seq<char>>,
    pub models: Seq<Seq<char>>,
    pub originator: Option<Seq<char>>,
    pub agent_version: Option<Seq<char>>,
    pub repo_url: Option<Seq<char>>,
    pub initial_commit: Option<Seq<char>>,
    pub workspace_roots: Seq<Seq<char>>,
    pub project_key: Option<Seq<char>>,
    pub project_key_method: Option<Seq<char>>,
    pub raw_path: Option<Seq<char>>,
    pub source_stamp: Option<Seq<char>>,
    pub discovery_state: Seq<char>,
    pub locations: Seq<Seq<char>>,
    pub from_cache: bool,
}

impl View for ShallowSession {
    type V = ShallowView;

    open spec fn view(&self) -> ShallowView {
        ShallowView {
            source: self.source@,
            session_id: self.session_id@,
            cwd: text::opt_view(self.cwd),
            git_branch: text::opt_view(self.git_branch),
            first_activity_ms: self.first_activity_ms,
            last_activity_ms: self.last_activity_ms,
            first_prompt: text::opt_view(self.first_prompt),
            last_assistant_text: text::opt_view(self.last_assistant_text),
            models: text::views(self.models@),
            originator: text::opt_view(self.originator),
            agent_version: text::opt_view(self.agent_version),
            repo_url: text::opt_view(self.repo_url),
            initial_commit: text::opt_view(self.initial_commit),
            workspace_roots: text::views(self.workspace_roots@),
            project_key: text::opt_view(self.project_key),
            project_key_method: text::opt_view(self.project_key_method),
            raw_path: text::opt_view(self.raw_path),
            source_stamp: text::opt_view(self.source_stamp),
            discovery_state: self.discovery_state@,
            locations: text::views(self.locations@),
            from_cache: self.from_cache,
        }
    }
}

impl ShallowSession {
    /// The same row once more.
    pub fn copied(&self) -> (r: Self)
        ensures
            r@ == self@,
    {
        ShallowSession {
            source: self.source.clone(),
            session_id: self.session_id.clone(),
            cwd: self.cwd.clone(),
            git_branch: self.git_branch.clone(),
            first_activity_ms: self.first_activity_ms,
            last_activity_ms: self.last_activity_ms,
            first_prompt: self.first_prompt.clone(),
            last_assistant_text: self.last_assistant_text.clone(),
            models: text::copied_texts(&self.models),
            originator: self.originator.clone(),
            agent_version: self.agent_version.clone(),
            repo_url: self.repo_url.clone(),
            initial_commit: self.initial_commit.clone(),
            workspace_roots: text::copied_texts(&self.workspace_roots),
            project_key: self.project_key.clone(),
            project_key_method: self.project_key_method.clone(),
            raw_path: self.raw_path.clone(),
            source_stamp: self.source_stamp.clone(),
            discovery_state: self.discovery_state.clone(),
            locations: text::copied_texts(&self.locations),
            from_cache: self.from_cache,
        }
    }
}

/// One catalog row.
#[derive(Debug)]
#[non_exhaustive]
pub struct CatalogSession {
    pub source: Source,
    pub session_id: String,
    pub cwd: Option<String>,
    pub git_branch: Option<String>,
    pub first_activity_ms: Option<i64>,
    pub last_activity_ms: Option<i64>,
    pub first_prompt: Option<String>,
    pub last_assistant_text: Option<String>,
    pub models: Vec<String>,
    pub originator: Option<String>,
    pub agent_version: Option<String>,
    pub repo_url: Option<String>,
    pub initial_commit: Option<String>,
    pub workspace_roots: Vec<String>,
    pub project_key: Option<String>,
    pub project_key_method: Option<String>,
    pub raw_path: Option<String>,
    pub source_stamp: Option<String>,
    pub discovery_state: DiscoveryState,
    pub locations: Vec<String>,
}

/// Whether a catalog row is what is stored of it.
pub open spec fn is_catalog_session(
    session: CatalogSession,
    row: ShallowSession,
    first: Seq<char>,
) -> bool {
    &&& session_store::source_named(row.source@, first) == Some(session.source)
    &&& session.session_id == row.session_id
    &&& session.cwd == row.cwd
    &&& session.git_branch == row.git_branch
    &&& session.first_activity_ms == row.first_activity_ms
    &&& session.last_activity_ms == row.last_activity_ms
    &&& session.first_prompt == row.first_prompt
    &&& session.last_assistant_text == row.last_assistant_text
    &&& session.models == row.models
    &&& session.originator == row.originator
    &&& session.agent_version == row.agent_version
    &&& session.repo_url == row.repo_url
    &&& session.initial_commit == row.initial_commit
    &&& session.workspace_roots == row.workspace_roots
    &&& session.project_key == row.project_key
    &&& session.project_key_method == row.project_key_method
    &&& session.raw_path == row.raw_path
    &&& session.source_stamp == row.source_stamp
    &&& session.discovery_state == if row.discovery_state@ == "shallow"@ {
        DiscoveryState::Shallow
    } else {
        DiscoveryState::Full
    }
    &&& session.locations == row.locations
}

/// Whether an error is that of a catalog row whose source is not known.
pub open spec fn is_unknown_source(error: Error, row: ShallowSession, first: Seq<char>) -> bool {
    &&& session_store::source_named(row.source@, first) is None
    &&& error is Query
    &&& session_store::error_message(error) == "catalog row "@ + row.source@ + "/"@
        + row.session_id@ + " names a source this build does not know"@
}

impl CatalogSession {
    /// The row of a stored session; an error where its source is not known.
    pub fn from_row(row: ShallowSession, names: &SourceNames) -> (r: Result<Self, Error>)
        ensures
            match r {
                Ok(session) => is_catalog_session(session, row, names.claude@),
                Err(error) => is_unknown_source(error, row, names.claude@),
            },
    {
        let source = match Source::parse(row.source.as_str(), names) {
            Some(source) => source,
            None => {
                let head = concat3("catalog row ", row.source.as_str(), "/");
                return Err(
                    Error::Query(
                        concat3(
                            head.as_str(),
                            row.session_id.as_str(),
                            " names a source this build does not know",
                        ),
                    ),
                );
            },
        };
        let discovery_state = if same_text(row.discovery_state.as_str(), "shallow") {
            DiscoveryState::Shallow
        } else {
            DiscoveryState::Full
        };
        Ok(
            CatalogSession {
                source,
                session_id: row.session_id,
                cwd: row.cwd,
                git_branch: row.git_branch,
                first_activity_ms: row.first_activity_ms,
                last_activity_ms: row.last_activity_ms,
                first_prompt: row.first_prompt,
                last_assistant_text: row.last_assistant_text,
                models: row.models,
                originator: row.originator,
                agent_version: row.agent_version,
                repo_url: row.repo_url,
                initial_commit: row.initial_commit,
                workspace_roots: row.workspace_roots,
                project_key: row.project_key,
                project_key_method: row.project_key_method,
                raw_path: row.raw_path,
                source_stamp: row.source_stamp,
                discovery_state,
                locations: row.locations,
            },
        )
    }

    /// The row as a reference.
    pub fn session_ref(&self) -> (r: SessionRef)
        ensures
            r@ == (session_store::RefView::Id {
                source: self.source,
                session_id: self.session_id@,
            }),
    {
        SessionRef::id(self.source, self.session_id.as_str())
    }
}

/// A walk of the catalog, page by page. The cursor is the caller's own type.
#[derive(Debug)]
pub struct CatalogWalk<C> {
    /// The rows of the page that are not handed out yet.
    pub buffer: Vec<ShallowSession>,
    pub cursor: Option<C>,
    pub exhausted: bool,
}

impl<C> CatalogWalk<C> {
    /// A walk that has not read a page; one that admits nothing is at its end.
    pub fn new(admits_nothing: bool) -> (r: Self)
        ensures
            r.buffer@.len() == 0,
            r.cursor is None,
            r.exhausted == admits_nothing,
    {
        CatalogWalk { buffer: Vec::new(), cursor: None, exhausted: admits_nothing }
    }

    /// Whether a page has to be read before the next row.
    pub fn needs_page(&self) -> (r: bool)
        ensures
            r == (self.buffer@.len() == 0 && !self.exhausted),
    {
        self.buffer.len() == 0 && !self.exhausted
    }

    /// Takes the cursor that the next page is read behind.
    pub fn take_cursor(&mut self) -> (r: Option<C>)
        ensures
            r == old(self).cursor,
            final(self).cursor is None,
            final(self).buffer == old(self).buffer,
            final(self).exhausted == old(self).exhausted,
    {
        self.cursor.take()
    }

    /// Takes in a page. A page without a cursor is the last.
    pub fn fill(&mut self, sessions: Vec<ShallowSession>, next_cursor: Option<C>)
        ensures
            final(self).buffer@ == old(self).buffer@ + sessions@,
            final(self).cursor == next_cursor,
            final(self).exhausted == (next_cursor is None),
    {
        let mut sessions = sessions;
        self.buffer.append(&mut sessions);
        self.exhausted = next_cursor.is_none();
        self.cursor = next_cursor;
    }

    /// Ends the walk after a page that could not be read.
    pub fn fail(&mut self)
        ensures
            final(self).exhausted,
            final(self).buffer == old(self).buffer,
            final(self).cursor == old(self).cursor,
    {
        self.exhausted = true;
    }

    /// Hands out the next row of the page, where there is one. A row whose source
    /// is not known is handed out as the error that ends the walk: neither the rest
    /// of its page nor a further page is read.
    pub fn next_row(&mut self, names: &SourceNames) -> (r: Option<Result<CatalogSession, Error>>)
        ensures
            match r {
                None => old(self).buffer@.len() == 0 && *final(self) == *old(self),
                Some(Ok(session)) => {
                    &&& old(self).buffer@.len() > 0
                    &&& is_catalog_session(session, old(self).buffer@[0], names.claude@)
                    &&& final(self).buffer@ == old(self).buffer@.drop_first()
                    &&& final(self).cursor == old(self).cursor
                    &&& final(self).exhausted == old(self).exhausted
                },
                Some(Err(error)) => {
                    &&& old(self).buffer@.len() > 0
                    &&& is_unknown_source(error, old(self).buffer@[0], names.claude@)
                    &&& final(self).buffer@.len() == 0
                    &&& final(self).cursor is None
                    &&& final(self).exhausted
                },
            },
    {
        if self.buffer.len() == 0 {
            return None;
        }
        let ghost rows = self.buffer@;
        let row = self.buffer.remove(0);
        assert(self.buffer@ =~= rows.drop_first());
        match CatalogSession::from_row(row, names) {
            Ok(session) => Some(Ok(session)),
            Err(error) => {
                self.buffer.clear();
                self.cursor = None;
                self.exhausted = true;
                Some(Err(error))
            },
        }
    }
}

} // verus!
