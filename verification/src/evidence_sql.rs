//! The statements that read and write canonical evidence: their text, and the values
//! that are bound to them.
use crate::evidence_columns;
use crate::json;
use crate::json::{JsonTree, JsonValue};
use crate::pages;
use crate::pages::{SqlValue, SqlView};
use crate::source_evidence;
use crate::source_evidence::{EvidenceKind, EvidenceRecord, RecordTree};
use crate::text;
use crate::text::{concat2, concat3};
use vstd::prelude::*;
use vstd::string::*;

verus! {

/// A statement with the values that are bound to it, in order.
#[derive(Debug)]
pub struct Statement {
    pub sql: String,
    pub params: Vec<SqlValue>,
}

/// Whether a value has no parts: a column can hold it.
pub open spec fn is_scalar(value: JsonTree) -> bool {
    !(value is Array) && !(value is Object)
}

/// A scalar as it is bound: a flag as zero or one, a number as an integer where it
/// fits, otherwise as a double.
pub open spec fn bound(value: JsonTree) -> SqlView {
    match value {
        JsonTree::Bool(flag) => SqlView::Integer(
            if flag {
                1
            } else {
                0
            },
        ),
        JsonTree::Number(number) => match number.signed {
            Some(n) => SqlView::Integer(n),
            None => SqlView::Real(number.bits),
        },
        JsonTree::Text(text) => SqlView::Text(text),
        _ => SqlView::Null,
    }
}

/// A scalar as it is bound to a statement.
pub fn sql_value(value: &JsonValue) -> (r: SqlValue)
    requires
        is_scalar(value@),
    ensures
        r@ == bound(value@),
{
    match value {
        JsonValue::Bool(flag) => SqlValue::Integer(
            if *flag {
                1
            } else {
                0
            },
        ),
        JsonValue::Number(number) => match number.signed {
            Some(n) => SqlValue::Integer(n),
            None => SqlValue::Real(number.bits),
        },
        JsonValue::Text(text) => SqlValue::Text(text.as_str().to_owned()),
        _ => SqlValue::Null,
    }
}

/// The columns by which a stored row is held against a record: those that this
/// database does not derive for itself.
pub open spec fn compared_columns(kind: EvidenceKind) -> Seq<Seq<char>> {
    without(evidence_columns::columns_of(kind), text::split_on(source_evidence::derived_text(kind), ','))
}

/// Whether a payload holds a scalar under each of some names, or nothing.
pub open spec fn scalars_at(
    payload: Seq<(Seq<char>, JsonTree)>,
    names: Seq<Seq<char>>,
) -> bool {
    forall|i: int|
        0 <= i < names.len() ==> match json::member(payload, #[trigger] names[i]) {
            Some(value) => is_scalar(value),
            None => true,
        }
}

/// Whether a record's identity is complete: each of its key columns is there, and
/// scalar.
pub open spec fn is_identified(record: RecordTree) -> bool {
    &&& scalars_at(record.payload, evidence_columns::keys_of(record.kind))
    &&& forall|i: int|
        0 <= i < evidence_columns::keys_of(record.kind).len() ==> json::member(
            record.payload,
            #[trigger] evidence_columns::keys_of(record.kind)[i],
        ) is Some
}

/// The values of some columns of a payload as they are bound, absent ones as null.
pub open spec fn bound_values(
    payload: Seq<(Seq<char>, JsonTree)>,
    names: Seq<Seq<char>>,
) -> Seq<SqlView> {
    source_evidence::column_values(payload, names).map_values(|value: JsonTree| bound(value))
}

fn bind_columns(record: &EvidenceRecord, names: &Vec<String>) -> (r: Vec<SqlValue>)
    requires
        scalars_at(record@.payload, text::views(names@)),
    ensures
        pages::sql_views(r@) == bound_values(record@.payload, text::views(names@)),
{
    let ghost all = text::views(names@);
    let ghost values = bound_values(record@.payload, all);
    let mut out: Vec<SqlValue> = Vec::new();
    let mut i: usize = 0;
    while i < names.len()
        invariant
            i <= names.len(),
            all == text::views(names@),
            values == bound_values(record@.payload, all),
            scalars_at(record@.payload, all),
            out.len() == i,
            forall|j: int| 0 <= j < i ==> (#[trigger] out@[j])@ == values[j],
        decreases names.len() - i,
    {
        assert(all[i as int] == names@[i as int]@);
        match json::find_member(&record.payload, names[i].as_str()) {
            Some(value) => out.push(sql_value(value)),
            None => out.push(SqlValue::Null),
        }
        i = i + 1;
    }
    assert(pages::sql_views(out@) =~= values);
    out
}

/// Those of some names that are not among others, in their order.
pub open spec fn without(names: Seq<Seq<char>>, others: Seq<Seq<char>>) -> Seq<Seq<char>>
    decreases names.len(),
{
    if names.len() == 0 {
        Seq::empty()
    } else {
        let rest = without(names.drop_last(), others);
        if others.contains(names.last()) {
            rest
        } else {
            rest.push(names.last())
        }
    }
}

fn keep_others(names: &Vec<String>, others: &Vec<String>) -> (r: Vec<String>)
    ensures
        text::views(r@) == without(text::views(names@), text::views(others@)),
{
    let ghost all = text::views(names@);
    let mut out: Vec<String> = Vec::new();
    let mut i: usize = 0;
    assert(text::views(out@) =~= without(all.take(0), text::views(others@)));
    while i < names.len()
        invariant
            i <= names.len(),
            all == text::views(names@),
            text::views(out@) == without(all.take(i as int), text::views(others@)),
        decreases names.len() - i,
    {
        proof {
            assert(all.take(i + 1).drop_last() =~= all.take(i as int));
            assert(all.take(i + 1).last() == names@[i as int]@);
        }
        if !text::contains_text(others, names[i].as_str()) {
            let ghost before = text::views(out@);
            out.push(names[i].as_str().to_owned());
            assert(text::views(out@) =~= before.push(names@[i as int]@));
        }
        i = i + 1;
    }
    assert(all.take(names@.len() as int) =~= all);
    out
}

proof fn lemma_without_keeps_scalars(
    payload: Seq<(Seq<char>, JsonTree)>,
    names: Seq<Seq<char>>,
    others: Seq<Seq<char>>,
)
    requires
        scalars_at(payload, names),
    ensures
        scalars_at(payload, without(names, others)),
    decreases names.len(),
{
    if names.len() > 0 {
        let rest = names.drop_last();
        assert forall|i: int| 0 <= i < rest.len() implies match json::member(
            payload,
            #[trigger] rest[i],
        ) {
            Some(value) => is_scalar(value),
            None => true,
        } by {
            assert(rest[i] == names[i]);
        }
        lemma_without_keeps_scalars(payload, rest, others);
        assert(names[names.len() - 1] == names.last());
    }
}

/// Conditions on some columns: each with the same test, all to hold.
pub open spec fn conditions(names: Seq<Seq<char>>, test: Seq<char>) -> Seq<char> {
    text::joined(names.map_values(|name: Seq<char>| name + test), " AND "@)
}

fn condition_text(names: &Vec<String>, test: &str) -> (r: String)
    ensures
        r@ == conditions(text::views(names@), test@),
{
    let ghost all = text::views(names@);
    let ghost parts = all.map_values(|name: Seq<char>| name + test@);
    let mut out: Vec<String> = Vec::new();
    let mut i: usize = 0;
    while i < names.len()
        invariant
            i <= names.len(),
            all == text::views(names@),
            parts == all.map_values(|name: Seq<char>| name + test@),
            out.len() == i,
            forall|j: int| 0 <= j < i ==> (#[trigger] out@[j])@ == parts[j],
        decreases names.len() - i,
    {
        assert(all[i as int] == names@[i as int]@);
        out.push(concat2(names[i].as_str(), test));
        i = i + 1;
    }
    assert(text::views(out@) =~= parts);
    text::join(&out, " AND ")
}

/// The assignments that take some columns from a row that was refused.
pub open spec fn assignments(names: Seq<Seq<char>>) -> Seq<char> {
    text::joined(names.map_values(|name: Seq<char>| name + "=excluded."@ + name), ","@)
}

fn assignment_text(names: &Vec<String>) -> (r: String)
    ensures
        r@ == assignments(text::views(names@)),
{
    let ghost all = text::views(names@);
    let ghost parts = all.map_values(|name: Seq<char>| name + "=excluded."@ + name);
    let mut out: Vec<String> = Vec::new();
    let mut i: usize = 0;
    while i < names.len()
        invariant
            i <= names.len(),
            all == text::views(names@),
            parts == all.map_values(|name: Seq<char>| name + "=excluded."@ + name),
            out.len() == i,
            forall|j: int| 0 <= j < i ==> (#[trigger] out@[j])@ == parts[j],
        decreases names.len() - i,
    {
        assert(all[i as int] == names@[i as int]@);
        out.push(concat3(names[i].as_str(), "=excluded.", names[i].as_str()));
        i = i + 1;
    }
    assert(text::views(out@) =~= parts);
    text::join(&out, ",")
}

/// As many places for values as there are columns.
pub open spec fn placeholders(count: nat) -> Seq<char> {
    text::joined(Seq::new(count, |i: int| "?"@), ","@)
}

fn placeholder_text(count: usize) -> (r: String)
    ensures
        r@ == placeholders(count as nat),
{
    let mut out: Vec<String> = Vec::new();
    let mut i: usize = 0;
    while i < count
        invariant
            i <= count,
            out.len() == i,
            forall|j: int| 0 <= j < i ==> (#[trigger] out@[j])@ == "?"@,
        decreases count - i,
    {
        out.push("?".to_owned());
        i = i + 1;
    }
    assert(text::views(out@) =~= Seq::new(count as nat, |i: int| "?"@));
    text::join(&out, ",")
}

impl EvidenceRecord {
    /// The condition that a row has this record's identity, with its values.
    pub fn key_sql(&self) -> (r: Statement)
        requires
            is_identified(self@),
        ensures
            r.sql@ == conditions(evidence_columns::keys_of(self.kind), "=?"@),
            pages::sql_views(r.params@) == bound_values(
                self@.payload,
                evidence_columns::keys_of(self.kind),
            ),
    {
        let names = text::split_char(self.kind.key(), ',');
        Statement { sql: condition_text(&names, "=?"), params: bind_columns(self, &names) }
    }

    /// Asks whether a row has this record's identity.
    pub fn is_stored(&self) -> (r: Statement)
        requires
            is_identified(self@),
        ensures
            r.sql@ == "SELECT EXISTS(SELECT 1 FROM "@ + source_evidence::table_name(self.kind)
                + " WHERE "@ + conditions(evidence_columns::keys_of(self.kind), "=?"@) + ")"@,
            pages::sql_views(r.params@) == bound_values(
                self@.payload,
                evidence_columns::keys_of(self.kind),
            ),
    {
        let key = self.key_sql();
        let head = concat3("SELECT EXISTS(SELECT 1 FROM ", self.kind.table(), " WHERE ");
        Statement { sql: concat3(head.as_str(), key.sql.as_str(), ")"), params: key.params }
    }

    /// Removes the row that has this record's identity.
    pub fn remove(&self) -> (r: Statement)
        requires
            is_identified(self@),
        ensures
            r.sql@ == "DELETE FROM "@ + source_evidence::table_name(self.kind) + " WHERE "@
                + conditions(evidence_columns::keys_of(self.kind), "=?"@),
            pages::sql_views(r.params@) == bound_values(
                self@.payload,
                evidence_columns::keys_of(self.kind),
            ),
    {
        let key = self.key_sql();
        let head = concat3("DELETE FROM ", self.kind.table(), " WHERE ");
        Statement { sql: concat2(head.as_str(), key.sql.as_str()), params: key.params }
    }

    /// Asks whether a row still equals this record in every column that its emitter
    /// speaks of. What this database derives for itself says nothing about who owns
    /// the row.
    pub fn matches_canonical(&self) -> (r: Statement)
        requires
            scalars_at(self@.payload, evidence_columns::columns_of(self.kind)),
        ensures
            r.sql@ == "SELECT EXISTS(SELECT 1 FROM "@ + source_evidence::table_name(self.kind)
                + " WHERE "@ + conditions(compared_columns(self.kind), " IS ?"@) + ")"@,
            pages::sql_views(r.params@) == bound_values(
                self@.payload,
                compared_columns(self.kind),
            ),
    {
        let columns = text::split_char(self.kind.columns(), ',');
        let derived = text::split_char(self.kind.derived(), ',');
        let names = keep_others(&columns, &derived);
        proof {
            lemma_without_keeps_scalars(
                self@.payload,
                evidence_columns::columns_of(self.kind),
                text::views(derived@),
            );
        }
        let condition = condition_text(&names, " IS ?");
        let head = concat3("SELECT EXISTS(SELECT 1 FROM ", self.kind.table(), " WHERE ");
        Statement {
            sql: concat3(head.as_str(), condition.as_str(), ")"),
            params: bind_columns(self, &names),
        }
    }

    /// Stores this record, in place of a row that has its identity.
    pub fn write(&self) -> (r: Statement)
        requires
            scalars_at(self@.payload, evidence_columns::columns_of(self.kind)),
        ensures
            r.sql@ == "INSERT INTO "@ + source_evidence::table_name(self.kind) + "("@
                + source_evidence::columns_text(self.kind) + ") VALUES("@ + placeholders(
                evidence_columns::columns_of(self.kind).len(),
            ) + ") ON CONFLICT("@ + source_evidence::key_text(self.kind) + ") DO UPDATE SET "@
                + assignments(
                without(
                    evidence_columns::columns_of(self.kind),
                    evidence_columns::keys_of(self.kind),
                ),
            ),
            pages::sql_views(r.params@) == bound_values(
                self@.payload,
                evidence_columns::columns_of(self.kind),
            ),
    {
        let columns = text::split_char(self.kind.columns(), ',');
        let keys = text::split_char(self.kind.key(), ',');
        let updated = keep_others(&columns, &keys);
        let places = placeholder_text(columns.len());
        let updates = assignment_text(&updated);
        let mut sql = concat3("INSERT INTO ", self.kind.table(), "(");
        sql.append(self.kind.columns());
        sql.append(") VALUES(");
        sql.append(places.as_str());
        sql.append(") ON CONFLICT(");
        sql.append(self.kind.key());
        sql.append(") DO UPDATE SET ");
        sql.append(updates.as_str());
        Statement { sql, params: bind_columns(self, &columns) }
    }
}

/// The rows of a kind that belong to a session, in the order of their identities.
pub fn read_session(kind: EvidenceKind, source: &str, session_id: &str) -> (r: Statement)
    ensures
        r.sql@ == "SELECT "@ + source_evidence::columns_text(kind) + " FROM "@
            + source_evidence::table_name(kind) + " WHERE source=? AND "@
            + source_evidence::session_column(kind) + "=? ORDER BY "@
            + source_evidence::key_text(kind),
        pages::sql_views(r.params@) == seq![SqlView::Text(source@), SqlView::Text(session_id@)],
{
    let mut sql = concat3("SELECT ", kind.columns(), " FROM ");
    sql.append(kind.table());
    sql.append(" WHERE source=? AND ");
    sql.append(source_evidence::session_field(kind));
    sql.append("=? ORDER BY ");
    sql.append(kind.key());
    let mut params: Vec<SqlValue> = Vec::new();
    params.push(SqlValue::Text(source.to_owned()));
    params.push(SqlValue::Text(session_id.to_owned()));
    assert(pages::sql_views(params@) =~= seq![
        SqlView::Text(source@),
        SqlView::Text(session_id@),
    ]);
    Statement { sql, params }
}

/// Whether a row holds a value for the column at a place; it holds none where the
/// column is missing, or where what it holds is no JSON scalar.
pub open spec fn is_readable(row: Seq<Option<JsonValue>>, place: int) -> bool {
    0 <= place < row.len() && row[place] is Some
}

/// The payload of a row: the value of each column under its name.
pub open spec fn row_payload(names: Seq<Seq<char>>, row: Seq<Option<JsonValue>>) -> Seq<
    (Seq<char>, JsonTree),
>
    decreases names.len(),
{
    if names.len() == 0 {
        Seq::empty()
    } else {
        json::with_member(
            row_payload(names.drop_last(), row),
            names.last(),
            row[names.len() - 1]->0@,
        )
    }
}

/// The record of a row: the payload of its columns, under no identity but its own.
/// Where the value of a column cannot be read, the place of the first such column.
pub fn record_of_row(kind: EvidenceKind, row: &Vec<Option<JsonValue>>) -> (r: Result<
    EvidenceRecord,
    usize,
>)
    ensures
        match r {
            Ok(record) => {
                &&& forall|i: int|
                    0 <= i < evidence_columns::columns_of(kind).len() ==> is_readable(row@, i)
                &&& record@ == (RecordTree {
                    kind,
                    payload: row_payload(evidence_columns::columns_of(kind), row@),
                    record_id: None,
                    revision_id: None,
                })
            },
            Err(place) => {
                &&& place < evidence_columns::columns_of(kind).len()
                &&& !is_readable(row@, place as int)
                &&& forall|i: int| 0 <= i < place ==> is_readable(row@, i)
            },
        },
{
    let names = text::split_char(kind.columns(), ',');
    let ghost all = text::views(names@);
    let mut payload: Vec<(String, JsonValue)> = Vec::new();
    let mut i: usize = 0;
    assert(json::member_views(payload@) =~= row_payload(all.take(0), row@));
    while i < names.len()
        invariant
            i <= names.len(),
            all == text::views(names@),
            all == evidence_columns::columns_of(kind),
            json::member_views(payload@) == row_payload(all.take(i as int), row@),
            forall|j: int| 0 <= j < i ==> is_readable(row@, j),
        decreases names.len() - i,
    {
        proof {
            assert(all.take(i + 1).drop_last() =~= all.take(i as int));
            assert(all.take(i + 1).last() == names@[i as int]@);
        }
        if i >= row.len() {
            return Err(i);
        }
        match &row[i] {
            Some(value) => {
                json::put_member(&mut payload, names[i].as_str(), json::copied_value(value));
            },
            None => {
                return Err(i);
            },
        }
        i = i + 1;
    }
    assert(all.take(names@.len() as int) =~= all);
    Ok(EvidenceRecord { kind, payload, record_id: None, revision_id: None })
}

proof fn lemma_member_was_checked(
    kind: EvidenceKind,
    payload: Seq<(Seq<char>, JsonTree)>,
    i: int,
)
    requires
        source_evidence::columns_fault(kind, payload) is None,
        0 <= i < payload.len(),
    ensures
        source_evidence::column_fault(kind, payload[i].0, payload[i].1) is None,
    decreases payload.len(),
{
    if i < payload.len() - 1 {
        lemma_member_was_checked(kind, payload.drop_last(), i);
    }
}

proof fn lemma_member_place(payload: Seq<(Seq<char>, JsonTree)>, name: Seq<char>) -> (i: int)
    requires
        json::member(payload, name) is Some,
    ensures
        0 <= i < payload.len(),
        payload[i].0 == name,
        json::member(payload, name) == Some(payload[i].1),
    decreases payload.len(),
{
    if payload[0].0 == name {
        0
    } else {
        let rest = lemma_member_place(payload.drop_first(), name);
        rest + 1
    }
}

proof fn lemma_filled_member(
    payload: Seq<(Seq<char>, JsonTree)>,
    names: Seq<Seq<char>>,
    name: Seq<char>,
)
    ensures
        match json::member(payload, name) {
            Some(value) => json::member(source_evidence::filled(payload, names), name) == Some(
                value,
            ),
            None => match json::member(source_evidence::filled(payload, names), name) {
                Some(value) => value is Null || value is Number,
                None => !names.contains(name),
            },
        },
    decreases names.len(),
{
    if names.len() > 0 {
        let rest = names.drop_last();
        lemma_filled_member(payload, rest, name);
        let before = source_evidence::filled(payload, rest);
        json::law_with_member(
            before,
            names.last(),
            JsonTree::Number(json::zero_number()),
            name,
        );
        json::law_with_member(before, names.last(), JsonTree::Null, name);
        if names.contains(name) && name != names.last() {
            let i = choose|i: int| 0 <= i < names.len() && names[i] == name;
            assert(rest[i] == name);
        }
    }
}

/// What a validated record holds once it is completed can be stored: there is a
/// value for every column of its kind, each of them is a scalar, and its identity is
/// complete.
pub proof fn law_validated_record_can_be_stored(
    source: Seq<char>,
    session_id: Seq<char>,
    covered: Seq<EvidenceKind>,
    control_kinds: Seq<Seq<char>>,
    record: RecordTree,
)
    requires
        source_evidence::record_fault(source, session_id, covered, control_kinds, record) is None,
    ensures
        scalars_at(source_evidence::completed(record).payload, evidence_columns::columns_of(record.kind)),
        forall|i: int|
            0 <= i < evidence_columns::columns_of(record.kind).len() ==> json::member(
                source_evidence::completed(record).payload,
                #[trigger] evidence_columns::columns_of(record.kind)[i],
            ) is Some,
        is_identified(source_evidence::completed(record)),
{
    let stored = source_evidence::completed(record).payload;
    let names = evidence_columns::columns_of(record.kind);
    let prompt = match source_evidence::column_text(record.payload, "prompt"@) {
        Some(prompt) => prompt,
        None => Seq::empty(),
    };
    let hash = JsonTree::Text(crate::digest::prompt_digest(prompt));
    let hashed = if record.kind == EvidenceKind::History {
        json::with_member(record.payload, "prompt_hash"@, hash)
    } else {
        record.payload
    };
    evidence_columns::lemma_columns(record.kind);
    assert forall|i: int| 0 <= i < names.len() implies match json::member(
        stored,
        #[trigger] names[i],
    ) {
        Some(value) => is_scalar(value),
        None => false,
    } by {
        let name = names[i];
        assert(names.contains(name));
        lemma_filled_member(hashed, names, name);
        json::law_with_member(record.payload, "prompt_hash"@, hash, name);
        if json::member(record.payload, name) is Some {
            let place = lemma_member_place(record.payload, name);
            lemma_member_was_checked(record.kind, record.payload, place);
        }
    }
    let keys = evidence_columns::keys_of(record.kind);
    assert forall|i: int| 0 <= i < keys.len() implies match json::member(
        stored,
        #[trigger] keys[i],
    ) {
        Some(value) => is_scalar(value),
        None => false,
    } by {
        evidence_columns::lemma_keys_are_columns(record.kind, i);
        let place = choose|j: int| 0 <= j < names.len() && names[j] == keys[i];
        assert(names[place] == keys[i]);
    }
}

} // verus!
