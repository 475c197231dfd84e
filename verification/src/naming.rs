//! How failures, records, markers and sources are told apart.
use crate::evidence_columns;
use crate::json;
use crate::json::{JsonTree, JsonValue};
use crate::session_store;
use crate::session_store::{
    EngineFailure, Error, HydrateReply, HydrateReport, HydrateSessionResult, Otherwise,
    SessionRef, SessionStore, Source, SourceCapabilities,
};
use crate::source_evidence;
use crate::source_evidence::{marker_payload_is_bounded, EvidenceKind, EvidenceRecord};
use crate::store::SourceNames;
use vstd::prelude::*;
use vstd::string::*;

verus! {

/// Whether an error is one that the engine names by its code.
pub open spec fn has_engine_name(error: Error) -> bool {
    ||| error is SessionNotFound
    ||| error is SessionSourceUnavailable
    ||| error is SourceMismatch
    ||| error is HydrationUnsupported
    ||| error is ConnectorNotConfigured
    ||| error is AuthenticationExpired
    ||| error is EvidencePartial
    ||| error is ConnectorFailure
    ||| error is InvalidArgument
    ||| error is Discovery
}

/// Whether two errors that the engine names are of one kind.
pub open spec fn are_alike(a: Error, b: Error) -> bool {
    &&& a is SessionNotFound == b is SessionNotFound
    &&& a is SessionSourceUnavailable == b is SessionSourceUnavailable
    &&& a is SourceMismatch == b is SourceMismatch
    &&& a is HydrationUnsupported == b is HydrationUnsupported
    &&& a is ConnectorNotConfigured == b is ConnectorNotConfigured
    &&& a is AuthenticationExpired == b is AuthenticationExpired
    &&& a is EvidencePartial == b is EvidencePartial
    &&& a is ConnectorFailure == b is ConnectorFailure
    &&& a is InvalidArgument == b is InvalidArgument
    &&& a is Discovery == b is Discovery
}

/// The place of an error among those that the engine names.
spec fn place_of(error: Error) -> int {
    match error {
        Error::SessionNotFound(_) => 0,
        Error::SessionSourceUnavailable(_) => 1,
        Error::SourceMismatch(_) => 2,
        Error::HydrationUnsupported(_) => 3,
        Error::ConnectorNotConfigured(_) => 4,
        Error::AuthenticationExpired(_) => 5,
        Error::EvidencePartial(_) => 6,
        Error::ConnectorFailure(_) => 7,
        Error::InvalidArgument(_) => 8,
        _ => 9,
    }
}

/// How long the code at a place is.
spec fn code_length(i: int) -> int {
    if i == 0 || i == 7 {
        17
    } else if i == 1 {
        26
    } else if i == 2 {
        23
    } else if i == 3 {
        21
    } else if i == 4 {
        24
    } else if i == 5 {
        22
    } else {
        16
    }
}

/// The codes of the engine: their lengths, their first letters, and that no colon stands
/// where another of them ends.
proof fn lemma_engine_code(i: int)
    requires
        0 <= i < 10,
    ensures
        ({
            let code = session_store::CODED_ERRORS@[i]@;
            &&& code.len() == code_length(i)
            &&& i == 0 ==> code[0] == 'S'
            &&& i == 7 ==> code[0] == 'C'
            &&& i == 6 ==> code[0] == 'E'
            &&& i == 8 ==> code[0] == 'I'
            &&& i == 9 ==> code[0] == 'D'
            &&& forall|j: int|
                0 <= j < 10 && #[trigger] code_length(j) < code.len() ==> code[code_length(j)]
                    != ':'
        }),
{
    reveal_strlit("SESSION_NOT_FOUND");
    reveal_strlit("SESSION_SOURCE_UNAVAILABLE");
    reveal_strlit("SESSION_SOURCE_MISMATCH");
    reveal_strlit("HYDRATION_UNSUPPORTED");
    reveal_strlit("CONNECTOR_NOT_CONFIGURED");
    reveal_strlit("AUTHENTICATION_EXPIRED");
    reveal_strlit("EVIDENCE_PARTIAL");
    reveal_strlit("CONNECTOR_FAILURE");
    reveal_strlit("INVALID_ARGUMENT");
    reveal_strlit("DISCOVERY_FAILED");
}

/// What starts with one code of the engine starts with no other.
proof fn lemma_one_code(line: Seq<char>, i: int, j: int, said: Seq<char>)
    requires
        0 <= i < 10,
        0 <= j < 10,
        i != j,
        line == session_store::CODED_ERRORS@[i]@ + ": "@ + said,
    ensures
        !session_store::names_code(line, j),
{
    reveal_strlit(": ");
    lemma_engine_code(i);
    lemma_engine_code(j);
    let own = session_store::CODED_ERRORS@[i]@;
    let other = session_store::CODED_ERRORS@[j]@;
    if session_store::names_code(line, j) {
        let head = other + ": "@;
        assert(line.take(head.len() as int) == head);
        assert(line[0] == own[0]);
        assert(line[0] == line.take(head.len() as int)[0]);
        assert(line[0] == other[0]);
        assert(line[own.len() as int] == ':');
        assert(line.take(head.len() as int)[other.len() as int] == ':');
        assert(line[other.len() as int] == ':');
        if other.len() < own.len() {
            assert(line[code_length(j)] == own[code_length(j)]);
        } else if own.len() < other.len() {
            assert(line.take(head.len() as int)[code_length(i)] == other[code_length(i)]);
        }
    }
}

/// The first code that such a line names is its own.
proof fn lemma_own_code(line: Seq<char>, i: int, k: int, said: Seq<char>)
    requires
        0 <= k <= i < 10,
        line == session_store::CODED_ERRORS@[i]@ + ": "@ + said,
    ensures
        session_store::named_code(line, k) == i,
    decreases i - k,
{
    if k == i {
        let head = session_store::CODED_ERRORS@[i]@ + ": "@;
        assert(line.take(head.len() as int) =~= head);
    } else {
        lemma_one_code(line, i, k, said);
        lemma_own_code(line, i, k + 1, said);
    }
}

/// A failure that the engine wrote out under one of its codes is read back as what it was:
/// the same kind of error, with the same message.
pub proof fn law_written_failure_is_read_back(
    error: Error,
    line: String,
    said: String,
    message: &str,
    otherwise: Otherwise,
    back: Error,
    repeated: String,
)
    requires
        has_engine_name(error),
        call_ensures(Error::to_string, (&error,), line),
        call_ensures(Error::message, (&error,), said),
        message@ == line@,
        call_ensures(Error::classify, (message, false, otherwise), back),
        call_ensures(Error::message, (&back,), repeated),
    ensures
        has_engine_name(back),
        are_alike(error, back),
        repeated@ == said@,
{
    let i = place_of(error);
    let code = session_store::CODED_ERRORS@[i]@;
    assert(session_store::error_code(error) == code);
    lemma_own_code(line@, i, 0, said@);
    session_store::law_error_codes_are_distinct(error, back);
    assert(line@.skip((code + ": "@).len() as int) =~= said@);
}

/// No line without a colon names a code.
proof fn lemma_no_code(line: Seq<char>, k: int)
    requires
        0 <= k <= 10,
        forall|i: int| 0 <= i < line.len() ==> line[i] != ':',
    ensures
        session_store::named_code(line, k) == 10,
    decreases 10 - k,
{
    if k < 10 {
        reveal_strlit(": ");
        let code = session_store::CODED_ERRORS@[k]@;
        let head = code + ": "@;
        if session_store::names_code(line, k) {
            assert(line.take(head.len() as int)[code.len() as int] == ':');
            assert(line[code.len() as int] == ':');
        }
        lemma_no_code(line, k + 1);
    }
}

/// A failure without a code is reported as one of what was being done, with all it says; one
/// that a stop caused is reported as a stop, whatever it says.
pub proof fn law_other_failure_keeps_its_words(
    message: &str,
    cancelled: bool,
    otherwise: Otherwise,
    back: Error,
    said: String,
)
    requires
        cancelled || forall|i: int| 0 <= i < message@.len() ==> message@[i] != ':',
        call_ensures(Error::classify, (message, cancelled, otherwise), back),
        call_ensures(Error::message, (&back,), said),
    ensures
        said@ == message@,
        back is Cancelled <==> cancelled,
        !cancelled ==> match otherwise {
            Otherwise::Query => back is Query,
            Otherwise::Hydration => back is HydrationFailed,
            Otherwise::Sync => back is SyncFailed,
            Otherwise::Discovery => back is Discovery,
        },
{
    let words: String = said;
    if cancelled {
        session_store::law_error_codes_are_distinct(Error::Cancelled(words), back);
    } else {
        lemma_no_code(message@, 0);
        match otherwise {
            Otherwise::Query => session_store::law_error_codes_are_distinct(
                Error::Query(words),
                back,
            ),
            Otherwise::Hydration => session_store::law_error_codes_are_distinct(
                Error::HydrationFailed(words),
                back,
            ),
            Otherwise::Sync => session_store::law_error_codes_are_distinct(
                Error::SyncFailed(words),
                back,
            ),
            Otherwise::Discovery => session_store::law_error_codes_are_distinct(
                Error::Discovery(words),
                back,
            ),
        }
    }
}

/// A text keeps to a marker's bound if it has no more than 128 characters; a number, a truth
/// value and nothing at all always do.
pub proof fn law_bound_of_a_marker_text(value: JsonValue, kept: bool)
    requires
        call_ensures(marker_payload_is_bounded, (&value,), kept),
    ensures
        value matches JsonValue::Text(words) ==> (kept <==> words@.len() <= 128),
        value is Null || value is Bool || value is Number ==> kept,
{
}

/// A list keeps to a marker's bound if it has no more than 32 items and each of them keeps
/// to it.
pub proof fn law_bound_of_a_marker_list(items: Vec<JsonValue>, each: Seq<bool>, kept: bool)
    requires
        call_ensures(marker_payload_is_bounded, (&JsonValue::Array(items),), kept),
        each.len() == items@.len(),
        forall|i: int|
            0 <= i < each.len() ==> call_ensures(
                marker_payload_is_bounded,
                (&items@[i],),
                #[trigger] each[i],
            ),
    ensures
        kept <==> items@.len() <= 32 && forall|i: int|
            0 <= i < each.len() ==> #[trigger] each[i],
{
    json::lemma_array_view(items);
    let trees = json::tree(JsonValue::Array(items))->Array_0;
    assert forall|i: int| 0 <= i < each.len() implies (#[trigger] each[i])
        == source_evidence::is_bounded(trees[i]) by {
        assert(trees[i] == items@[i]@);
    }
    if kept {
        assert forall|i: int| 0 <= i < each.len() implies #[trigger] each[i] by {
            assert(source_evidence::is_bounded(trees[i]));
        }
    }
    if forall|i: int| 0 <= i < each.len() ==> #[trigger] each[i] {
        assert forall|i: int| 0 <= i < trees.len() implies source_evidence::is_bounded(
            #[trigger] trees[i],
        ) by {
            assert(each[i]);
        }
    }
}

/// An object keeps to a marker's bound if it has no more than 32 members and the value of
/// each of them keeps to it.
pub proof fn law_bound_of_a_marker_object(
    members: Vec<(String, JsonValue)>,
    each: Seq<bool>,
    kept: bool,
)
    requires
        call_ensures(marker_payload_is_bounded, (&JsonValue::Object(members),), kept),
        each.len() == members@.len(),
        forall|i: int|
            0 <= i < each.len() ==> call_ensures(
                marker_payload_is_bounded,
                (&members@[i].1,),
                #[trigger] each[i],
            ),
    ensures
        kept <==> members@.len() <= 32 && forall|i: int|
            0 <= i < each.len() ==> #[trigger] each[i],
{
    json::lemma_object_view(members);
    let trees = json::tree(JsonValue::Object(members))->Object_0;
    assert forall|i: int| 0 <= i < each.len() implies (#[trigger] each[i])
        == source_evidence::is_bounded(trees[i].1) by {
        assert(trees[i].1 == members@[i].1@);
    }
    if kept {
        assert forall|i: int| 0 <= i < each.len() implies #[trigger] each[i] by {
            assert(source_evidence::is_bounded(trees[i].1));
        }
    }
    if forall|i: int| 0 <= i < each.len() ==> #[trigger] each[i] {
        assert forall|i: int| 0 <= i < trees.len() implies source_evidence::is_bounded(
            (#[trigger] trees[i]).1,
        ) by {
            assert(each[i]);
        }
    }
}

/// What stands under a name in a record, or nothing.
pub open spec fn value_under(record: EvidenceRecord, name: Seq<char>) -> JsonTree {
    match json::member(record@.payload, name) {
        Some(value) => value,
        None => JsonTree::Null,
    }
}

/// The identity of a record is made of its kind and of what stands under the names that
/// identify a record of that kind, in their order, and of nothing else.
pub proof fn law_identity_is_the_kind_and_the_keys(record: EvidenceRecord, identity: String)
    requires
        call_ensures(EvidenceRecord::identity, (&record,), identity),
    ensures
        identity@ == json::rendered(
            JsonTree::Array(
                seq![
                    JsonTree::Text(source_evidence::kind_label(record.kind)),
                    JsonTree::Array(
                        Seq::new(
                            evidence_columns::key_names(record.kind).len(),
                            |i: int|
                                value_under(
                                    record,
                                    evidence_columns::key_names(record.kind)[i],
                                ),
                        ),
                    ),
                ],
            ),
        ),
{
    evidence_columns::lemma_columns(record.kind);
    let names = evidence_columns::key_names(record.kind);
    assert(source_evidence::column_values(record@.payload, names) =~= Seq::new(
        names.len(),
        |i: int| value_under(record, names[i]),
    ));
}

/// Two records of one kind that hold the same under the names that identify a record of that
/// kind have one identity, whatever else they hold.
pub proof fn law_records_of_one_key_have_one_identity(
    a: EvidenceRecord,
    b: EvidenceRecord,
    first: String,
    second: String,
)
    requires
        call_ensures(EvidenceRecord::identity, (&a,), first),
        call_ensures(EvidenceRecord::identity, (&b,), second),
        a.kind == b.kind,
        forall|i: int|
            0 <= i < evidence_columns::key_names(a.kind).len() ==> value_under(
                a,
                #[trigger] evidence_columns::key_names(a.kind)[i],
            ) == value_under(b, evidence_columns::key_names(a.kind)[i]),
    ensures
        first@ == second@,
{
    law_identity_is_the_kind_and_the_keys(a, first);
    law_identity_is_the_kind_and_the_keys(b, second);
    let names = evidence_columns::key_names(a.kind);
    assert(Seq::new(names.len(), |i: int| value_under(a, names[i])) =~= Seq::new(
        names.len(),
        |i: int| value_under(b, names[i]),
    ));
}

/// A source produces the kinds that its adapter declares, prompts where it writes them
/// without discovery, and markers where its parser derives them; and no other.
pub proof fn law_source_produces_what_it_can<R>(
    source: Source,
    names: SourceNames,
    declared: Vec<EvidenceKind>,
    harnesses: Vec<String>,
    relationships: R,
    given: SourceCapabilities<R>,
    kind: EvidenceKind,
)
    requires
        call_ensures(
            Source::capabilities::<R>,
            (source, &names, &declared, &harnesses, relationships),
            given,
        ),
    ensures
        given.source == source,
        given.relationships == relationships,
        given.evidence_kinds@.contains(kind) <==> {
            ||| declared@.contains(kind)
            ||| kind == EvidenceKind::History && (source is Relay || source is Trajectory)
            ||| kind == EvidenceKind::SessionMarker && (source is Claude || source is Codex
                || source is Grok || source is OpenCode)
        },
{
    let base = declared@;
    let middle = if (source is Relay || source is Trajectory) && !base.contains(
        EvidenceKind::History,
    ) {
        base.push(EvidenceKind::History)
    } else {
        base
    };
    lemma_pushed(base, EvidenceKind::History, kind);
    lemma_pushed(base, EvidenceKind::History, EvidenceKind::SessionMarker);
    lemma_pushed(middle, EvidenceKind::SessionMarker, kind);
}

/// What a list holds with one more at its end.
proof fn lemma_pushed(list: Seq<EvidenceKind>, last: EvidenceKind, kind: EvidenceKind)
    ensures
        list.push(last).contains(kind) <==> list.contains(kind) || kind == last,
{
    if list.contains(kind) {
        let i = choose|i: int| 0 <= i < list.len() && list[i] == kind;
        assert(list.push(last)[i] == kind);
    }
    if kind == last {
        assert(list.push(last)[list.len() as int] == kind);
    }
    if list.push(last).contains(kind) && kind != last {
        let i = choose|i: int| 0 <= i < list.push(last).len() && list.push(last)[i] == kind;
        assert(list[i] == kind);
    }
}

/// Which kinds are covered.
proof fn lemma_covered(kinds: Seq<EvidenceKind>, engine: Seq<EvidenceKind>, kind: EvidenceKind)
    ensures
        session_store::covered_kinds(kinds, engine).contains(kind) <==> kinds.contains(kind)
            && session_store::is_covered(kind, engine),
    decreases kinds.len(),
{
    if kinds.len() > 0 {
        let rest = kinds.drop_last();
        lemma_covered(rest, engine, kind);
        lemma_pushed(rest, kinds.last(), kind);
        assert(rest.push(kinds.last()) =~= kinds);
        lemma_pushed(session_store::covered_kinds(rest, engine), kinds.last(), kind);
    }
}

/// A hydration reports as covered the kinds of its source that the engine covered, markers
/// along with the events that they are derived from, and no other; and what it read and the
/// sessions that came along are those of the engine's answer.
pub proof fn law_hydration_covers_what_the_engine_did<R>(
    store: SessionStore<R>,
    names: SourceNames,
    reference: SessionRef,
    harnesses: Vec<String>,
    kinds: Vec<EvidenceKind>,
    answer: HydrateSessionResult,
    report: HydrateReport,
    kind: EvidenceKind,
)
    requires
        call_ensures(
            SessionStore::<R>::hydrate,
            (
                &store,
                &names,
                &reference,
                &harnesses,
                &kinds,
                &Ok::<HydrateReply, EngineFailure>(HydrateReply::Session(answer)),
            ),
            Ok(report),
        ),
    ensures
        report.session@ == reference@,
        report.coverage@.contains(kind) <==> kinds@.contains(kind) && (answer.coverage@.contains(
            kind,
        ) || kind == EvidenceKind::SessionMarker && answer.coverage@.contains(
            EvidenceKind::SessionEvent,
        )),
        report.bytes_read == answer.bytes_read,
        report.related@.len() == answer.related_session_ids@.len(),
        forall|i: int|
            0 <= i < report.related@.len() ==> ((#[trigger] report.related@[i]) matches
                SessionRef::Id { session_id, .. } && session_id@
                == answer.related_session_ids@[i]@),
        report.diagnostics@.len() == answer.diagnostics@.len(),
        forall|i: int|
            0 <= i < report.diagnostics@.len() ==> (#[trigger] report.diagnostics@[i]).code@
                == answer.diagnostics@[i].0@ && report.diagnostics@[i].message@
                == answer.diagnostics@[i].1@,
{
    lemma_covered(kinds@, answer.coverage@, kind);
    let source = session_store::ref_source(reference@);
    let related = session_store::related_refs(source, answer.related_session_ids@);
    assert(session_store::ref_views(report.related@).len() == related.len());
    assert forall|i: int| 0 <= i < report.related@.len() implies ((
    #[trigger] report.related@[i]) matches SessionRef::Id { session_id, .. } && session_id@
        == answer.related_session_ids@[i]@) by {
        assert(session_store::ref_views(report.related@)[i] == report.related@[i]@);
        assert(related[i] is Id);
    }
}

} // verus!
