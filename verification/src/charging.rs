//! Which prompt a response is charged to, told of the rows of a session.
//!
//! Each law speaks of one call of [`attribute_usage_to_prompts`]: of the rows that go in,
//! and of the prompts and usages that come out.
use crate::attribution;
use crate::attribution::{
    attribute_usage_to_prompts, ChargeView, ContributionView, MessageView, PromptKey, RecordView,
    RequestView,
};
use crate::json;
use crate::session_store::{NameView, Source, SourceName};
use crate::store::SessionEvent;
use crate::text;
use crate::totals;
use crate::usage;
use crate::usage::{NormalizedUsage, UsageView};
use vstd::prelude::*;
use vstd::string::*;

verus! {

/// Whether two rows name the same record.
pub open spec fn of_one_record(a: SessionEvent, b: SessionEvent) -> bool {
    &&& totals::is_given(a.message_id)
    &&& totals::is_given(b.message_id)
    &&& a.message_id->0@ == b.message_id->0@
}

/// What names the request of a row: the provider's id of the request, else its id of the
/// message, else the span, else the record; and which of the four it is.
pub open spec fn request_name(event: SessionEvent) -> (int, Seq<char>) {
    if totals::is_given(event.request_id) {
        (0, event.request_id->0@)
    } else if totals::is_given(event.provider_message_id) {
        (1, event.provider_message_id->0@)
    } else if totals::is_given(event.request_span) {
        (2, event.request_span->0@)
    } else if event.message_id is Some {
        (3, event.message_id->0@)
    } else {
        (3, Seq::empty())
    }
}

/// Whether two optional texts are the same.
pub open spec fn same_option(a: Option<String>, b: Option<String>) -> bool {
    match (a, b) {
        (Some(x), Some(y)) => x@ == y@,
        (None, None) => true,
        _ => false,
    }
}

/// Whether the record of a row holds together: its rows agree on the time, the role, the
/// parent and the request.
pub open spec fn holds(events: Seq<SessionEvent>, i: int) -> bool {
    &&& 0 <= i < events.len()
    &&& totals::is_given(events[i].message_id)
    &&& forall|j: int|
        0 <= j < events.len() && of_one_record(#[trigger] events[j], events[i]) ==> events[j].ts_ms
            == events[i].ts_ms && events[j].role@ == events[i].role@ && same_option(
            events[j].parent_id,
            events[i].parent_id,
        ) && request_name(events[j]) == request_name(events[i])
}

/// Whether a row is a human turn.
pub open spec fn is_turn(event: SessionEvent) -> bool {
    event.role@ == "user"@
}

/// Whether a row is the one latest human turn before another: it is earlier, and every
/// other turn is earlier still, or later than the other row.
pub open spec fn is_latest_turn(events: Seq<SessionEvent>, a: int, u: int) -> bool {
    &&& 0 <= a < events.len()
    &&& 0 <= u < events.len()
    &&& is_turn(events[u])
    &&& events[u].ts_ms < events[a].ts_ms
    &&& forall|j: int|
        0 <= j < events.len() && j != u && is_turn(#[trigger] events[j]) ==> events[j].ts_ms
            < events[u].ts_ms || events[j].ts_ms > events[a].ts_ms
}

/// Whether every human turn has a time.
pub open spec fn turns_are_dated(events: Seq<SessionEvent>) -> bool {
    forall|j: int| 0 <= j < events.len() && is_turn(#[trigger] events[j]) ==> events[j].ts_ms > 0
}

/// Whether rows lead from one row to a human turn: each is the parent of the one before
/// it, and none before the last is a turn.
pub open spec fn leads(events: Seq<SessionEvent>, path: Seq<int>, a: int, u: int) -> bool {
    &&& path.len() > 0
    &&& path[0] == a
    &&& path.last() == u
    &&& forall|x: int| 0 <= x < path.len() ==> holds(events, #[trigger] path[x])
    &&& forall|x: int|
        0 <= x < path.len() - 1 ==> !is_turn(events[#[trigger] path[x]]) && same_option(
            events[path[x]].parent_id,
            events[path[x + 1]].message_id,
        )
    &&& is_turn(events[u])
}

/// Whether a response is owed to a human turn: by its chain of parents where it names a
/// parent; and for Codex, which names none, by time.
pub open spec fn owed(events: Seq<SessionEvent>, source: SourceName, a: int, u: int) -> bool {
    &&& holds(events, a)
    &&& holds(events, u)
    &&& if events[a].parent_id is Some {
        exists|path: Seq<int>| #[trigger] leads(events, path, a, u)
    } else {
        &&& source.kind == Some(Source::Codex)
        &&& events[a].ts_ms > 0
        &&& turns_are_dated(events)
        &&& is_latest_turn(events, a, u)
    }
}

/// The lines of a record in the first `n` rows: its text rows that are not blank, trimmed.
pub open spec fn lines(events: Seq<SessionEvent>, i: int, n: int) -> Seq<Seq<char>>
    decreases n,
{
    if n <= 0 {
        Seq::empty()
    } else {
        let row = events[n - 1];
        if of_one_record(row, events[i]) && row.kind@ == "text"@ && row.text is Some
            && text::trimmed(row.text->0@).len() > 0 {
            lines(events, i, n - 1).push(text::trimmed(row.text->0@))
        } else {
            lines(events, i, n - 1)
        }
    }
}

/// The words of a record: its lines, one below the other.
pub open spec fn words(events: Seq<SessionEvent>, i: int) -> Seq<char> {
    text::joined(lines(events, i, events.len() as int), "\n"@)
}

/// Whether a row carries a measurement of a record.
pub open spec fn carries(events: Seq<SessionEvent>, i: int, t: int) -> bool {
    &&& 0 <= t < events.len()
    &&& of_one_record(events[t], events[i])
    &&& events[t].token_json is Some
}

/// Whether a row is the first that carries a measurement of a record.
pub open spec fn carries_first(events: Seq<SessionEvent>, i: int, t: int) -> bool {
    &&& carries(events, i, t)
    &&& forall|s: int| 0 <= s < t ==> !#[trigger] carries(events, i, s)
}

/// Whether what a record carries can be read: every copy of its measurement decodes, they
/// all say the same, and the first is usage or says nothing.
pub open spec fn is_clear(events: Seq<SessionEvent>, source: SourceName, i: int) -> bool {
    forall|t: int, s: int| #[trigger]
        carries_first(events, i, t) && #[trigger] carries(events, i, s) ==> {
            &&& json::decoded(events[s].token_json->0@) is Ok
            &&& json::json_equal(
                json::decoded(events[s].token_json->0@)->Ok_0,
                json::decoded(events[t].token_json->0@)->Ok_0,
            )
            &&& usage::normalized_text(source@, events[t].token_json->0@) is Ok
        }
}

/// Whether a record measures a usage.
pub open spec fn measures(
    events: Seq<SessionEvent>,
    source: SourceName,
    i: int,
    read: UsageView,
) -> bool {
    &&& is_clear(events, source, i)
    &&& !usage::is_zero_usage(read)
    &&& exists|t: int| #[trigger]
        carries_first(events, i, t) && usage::normalized_text(
            source@,
            events[t].token_json->0@,
        ) == Ok::<Option<UsageView>, usage::UsageErrorView>(Some(read))
}

proof fn lemma_request_name(a: SessionEvent, b: SessionEvent)
    ensures
        (attribution::request_of(a) == attribution::request_of(b)) == (request_name(a)
            == request_name(b)),
{
    reveal_strlit("request-id:");
    reveal_strlit("provider-message-id:");
    reveal_strlit("request-span:");
    reveal_strlit("record-id:");
    let x = attribution::request_of(a);
    let y = attribution::request_of(b);
    let s = request_name(a);
    let t = request_name(b);
    lemma_named(a);
    lemma_named(b);
    if x == y {
        assert(x[0] == y[0] && x[2] == y[2] && x[8] == y[8]);
        assert(s.0 == t.0);
        let n = mark(s.0).len() as int;
        assert(x.subrange(n, x.len() as int) =~= s.1);
        assert(y.subrange(n, y.len() as int) =~= t.1);
    }
}

spec fn mark(which: int) -> Seq<char> {
    if which == 0 {
        "request-id:"@
    } else if which == 1 {
        "provider-message-id:"@
    } else if which == 2 {
        "request-span:"@
    } else {
        "record-id:"@
    }
}

proof fn lemma_named(a: SessionEvent)
    ensures
        attribution::request_of(a) == mark(request_name(a).0) + request_name(a).1,
        0 <= request_name(a).0 <= 3,
{
}

proof fn lemma_same_record(events: Seq<SessionEvent>, i: int)
    requires
        0 <= i < events.len(),
        totals::is_given(events[i].message_id),
    ensures
        holds(events, i) <==> forall|j: int|
            0 <= j < events.len() && attribution::id_of(#[trigger] events[j]) == Some(
                events[i].message_id->0@,
            ) ==> attribution::same_record(events[j], events[i]),
{
    let id = events[i].message_id->0@;
    assert forall|j: int| 0 <= j < events.len() implies (attribution::id_of(#[trigger] events[j])
        == Some(id)) == of_one_record(events[j], events[i]) by {}
    assert forall|j: int| 0 <= j < events.len() implies attribution::same_record(
        #[trigger] events[j],
        events[i],
    ) == (events[j].ts_ms == events[i].ts_ms && events[j].role@ == events[i].role@ && same_option(
        events[j].parent_id,
        events[i].parent_id,
    ) && request_name(events[j]) == request_name(events[i])) by {
        lemma_request_name(events[j], events[i]);
    }
}

/// The message of a record, told of one of its rows.
spec fn message_of(events: Seq<SessionEvent>, source: NameView, i: int) -> MessageView {
    let id = events[i].message_id->0@;
    MessageView {
        id,
        parent: text::opt_view(events[i].parent_id),
        ts: events[i].ts_ms,
        role: events[i].role@,
        text: text::joined(attribution::prompt_texts(events, id), "\n"@),
        usage: attribution::record_usage(source, attribution::token_texts(events, id)),
        request: attribution::request_of(events[i]),
    }
}

spec fn all_messages(events: Seq<SessionEvent>, source: NameView) -> Seq<MessageView> {
    attribution::messages_of(events, source, events.len() as int)
}

/// The messages of the records that start in the first `n` rows, each told of some row.
proof fn lemma_messages(events: Seq<SessionEvent>, source: NameView, n: int)
    requires
        0 <= n <= events.len(),
    ensures
        ({
            let messages = attribution::messages_of(events, source, n);
            &&& forall|x: int|
                0 <= x < messages.len() ==> exists|i: int|
                    0 <= i < n && holds(events, i) && #[trigger] attribution::starts_record(
                        events,
                        i,
                    ) && #[trigger] messages[x] == message_of(events, source, i)
            &&& forall|i: int|
                0 <= i < n && #[trigger] holds(events, i) && attribution::starts_record(events, i)
                    ==> messages.contains(message_of(events, source, i))
        }),
    decreases n,
{
    let messages = attribution::messages_of(events, source, n);
    if n > 0 {
        lemma_messages(events, source, n - 1);
        let rest = attribution::messages_of(events, source, n - 1);
        let at = n - 1;
        if attribution::starts_record(events, at) {
            lemma_same_record(events, at);
            assert(attribution::id_of(events[at]) == Some(events[at].message_id->0@));
            if attribution::message_at(events, source, at) is Some {
                assert(holds(events, at));
                assert(attribution::message_at(events, source, at) == Some(
                    message_of(events, source, at),
                ));
                assert(messages =~= rest.push(message_of(events, source, at)));
            } else {
                assert(!holds(events, at));
            }
        }
        assert forall|x: int| 0 <= x < messages.len() implies exists|i: int|
            0 <= i < n && holds(events, i) && #[trigger] attribution::starts_record(events, i)
                && #[trigger] messages[x] == message_of(events, source, i) by {
            if x < rest.len() {
                assert(messages[x] == rest[x]);
                let i = choose|i: int|
                    0 <= i < n - 1 && holds(events, i) && #[trigger] attribution::starts_record(
                        events,
                        i,
                    ) && rest[x] == message_of(events, source, i);
                assert(attribution::starts_record(events, i));
            } else {
                assert(attribution::starts_record(events, at));
                assert(holds(events, at));
            }
        }
        assert forall|i: int|
            0 <= i < n && #[trigger] holds(events, i) && attribution::starts_record(
                events,
                i,
            ) implies messages.contains(message_of(events, source, i)) by {
            if i < n - 1 {
                assert(rest.contains(message_of(events, source, i)));
                let x = choose|x: int|
                    0 <= x < rest.len() && rest[x] == message_of(events, source, i);
                assert(messages[x] == rest[x]);
            } else {
                assert(messages[rest.len() as int] == message_of(events, source, i));
            }
        }
    }
}

/// The first row of a record.
proof fn lemma_first_row(events: Seq<SessionEvent>, i: int) -> (f: int)
    requires
        0 <= i < events.len(),
        totals::is_given(events[i].message_id),
    ensures
        0 <= f <= i,
        of_one_record(events[f], events[i]),
        attribution::starts_record(events, f),
    decreases i,
{
    if attribution::starts_record(events, i) {
        i
    } else {
        let j = choose|j: int|
            0 <= j < i && attribution::id_of(#[trigger] events[j]) == attribution::id_of(events[i]);
        lemma_first_row(events, j)
    }
}

/// Rows of one record that holds together tell the same message.
proof fn lemma_rows_agree(events: Seq<SessionEvent>, source: NameView, i: int, f: int)
    requires
        holds(events, i),
        0 <= f < events.len(),
        of_one_record(events[f], events[i]),
    ensures
        holds(events, f),
        message_of(events, source, f) == message_of(events, source, i),
{
    lemma_request_name(events[f], events[i]);
    assert forall|j: int|
        0 <= j < events.len() && of_one_record(#[trigger] events[j], events[f]) implies events[j].ts_ms
        == events[f].ts_ms && events[j].role@ == events[f].role@ && same_option(
        events[j].parent_id,
        events[f].parent_id,
    ) && request_name(events[j]) == request_name(events[f]) by {
        assert(of_one_record(events[j], events[i]));
    }
}

/// Whether a message is that of some record that holds together.
spec fn is_told(events: Seq<SessionEvent>, source: NameView, m: MessageView) -> bool {
    exists|i: int| #[trigger] holds(events, i) && m == message_of(events, source, i)
}

/// Which messages there are: those of the records that hold together.
proof fn lemma_all_messages(events: Seq<SessionEvent>, source: NameView)
    ensures
        forall|m: MessageView| #[trigger]
            all_messages(events, source).contains(m) ==> is_told(events, source, m),
        forall|i: int| #[trigger]
            holds(events, i) ==> all_messages(events, source).contains(
                message_of(events, source, i),
            ),
{
    let messages = all_messages(events, source);
    lemma_messages(events, source, events.len() as int);
    assert forall|m: MessageView| #[trigger] messages.contains(m) implies is_told(
        events,
        source,
        m,
    ) by {
        let x = choose|x: int| 0 <= x < messages.len() && messages[x] == m;
        let i = choose|i: int|
            0 <= i < events.len() && holds(events, i) && #[trigger] attribution::starts_record(
                events,
                i,
            ) && messages[x] == message_of(events, source, i);
        assert(holds(events, i));
    }
    assert forall|i: int| #[trigger] holds(events, i) implies messages.contains(
        message_of(events, source, i),
    ) by {
        let f = lemma_first_row(events, i);
        lemma_rows_agree(events, source, i, f);
        assert(holds(events, f));
    }
}

proof fn lemma_message_with(messages: Seq<MessageView>, id: Seq<char>)
    ensures
        match attribution::message_with(messages, id) {
            Some(m) => messages.contains(m) && m.id == id,
            None => forall|x: int| 0 <= x < messages.len() ==> (#[trigger] messages[x]).id != id,
        },
    decreases messages.len(),
{
    if messages.len() > 0 {
        if messages[0].id == id {
            assert(messages.contains(messages[0]));
        } else {
            let rest = messages.drop_first();
            lemma_message_with(rest, id);
            match attribution::message_with(rest, id) {
                Some(m) => {
                    let x = choose|x: int| 0 <= x < rest.len() && rest[x] == m;
                    assert(messages[x + 1] == m);
                },
                None => {
                    assert forall|x: int| 0 <= x < messages.len() implies (
                    #[trigger] messages[x]).id != id by {
                        if x > 0 {
                            assert(rest[x - 1] == messages[x]);
                        }
                    }
                },
            }
        }
    }
}

/// The message with the id of a record: that of the record, where it holds together.
proof fn lemma_message_found(events: Seq<SessionEvent>, source: NameView, id: Seq<char>)
    ensures
        match attribution::message_with(all_messages(events, source), id) {
            Some(m) => exists|i: int| #[trigger]
                holds(events, i) && events[i].message_id->0@ == id && m == message_of(
                    events,
                    source,
                    i,
                ),
            None => forall|i: int| #[trigger]
                holds(events, i) ==> events[i].message_id->0@ != id,
        },
        forall|i: int| #[trigger]
            holds(events, i) && events[i].message_id->0@ == id ==> attribution::message_with(
                all_messages(events, source),
                id,
            ) == Some(message_of(events, source, i)),
{
    let messages = all_messages(events, source);
    lemma_all_messages(events, source);
    lemma_message_with(messages, id);
    match attribution::message_with(messages, id) {
        Some(m) => {
            assert(is_told(events, source, m));
            let i = choose|i: int| #[trigger]
                holds(events, i) && m == message_of(events, source, i);
            assert(holds(events, i) && events[i].message_id->0@ == id);
            assert forall|k: int| #[trigger]
                holds(events, k) && events[k].message_id->0@ == id implies m == message_of(
                events,
                source,
                k,
            ) by {
                lemma_rows_agree(events, source, i, k);
            }
        },
        None => {
            assert forall|i: int| #[trigger] holds(events, i) implies events[i].message_id->0@
                != id by {
                let m = message_of(events, source, i);
                assert(messages.contains(m));
                let x = choose|x: int| 0 <= x < messages.len() && messages[x] == m;
                assert(messages[x].id != id);
            }
        },
    }
}

/// A chain of parents that ends within some steps ends the same within more.
proof fn lemma_more_steps(messages: Seq<MessageView>, m: MessageView, few: nat, many: nat)
    requires
        few <= many,
        attribution::owner_by_parent(messages, m, few) is Some,
    ensures
        attribution::owner_by_parent(messages, m, many) == attribution::owner_by_parent(
            messages,
            m,
            few,
        ),
    decreases few,
{
    if m.role != "user"@ {
        let next = attribution::message_with(messages, m.parent->0)->0;
        lemma_more_steps(messages, next, (few - 1) as nat, (many - 1) as nat);
    }
}

/// The messages on a chain of parents that ends in some steps and no fewer: no two are the
/// same.
proof fn lemma_shortest_chain(messages: Seq<MessageView>, m: MessageView, steps: nat) -> (path: Seq<
    MessageView,
>)
    requires
        messages.contains(m),
        attribution::owner_by_parent(messages, m, steps) is Some,
        steps > 0 ==> attribution::owner_by_parent(messages, m, (steps - 1) as nat) is None,
    ensures
        path.len() == steps + 1,
        path.no_duplicates(),
        forall|x: int| 0 <= x < path.len() ==> messages.contains(#[trigger] path[x]),
        forall|x: int|
            0 <= x < path.len() ==> attribution::owner_by_parent(
                messages,
                #[trigger] path[x],
                (steps - x) as nat,
            ) is Some,
    decreases steps,
{
    if steps == 0 {
        seq![m]
    } else {
        let next = attribution::message_with(messages, m.parent->0)->0;
        lemma_message_with(messages, m.parent->0);
        let rest = lemma_shortest_chain(messages, next, (steps - 1) as nat);
        let path = seq![m] + rest;
        assert forall|x: int| 0 <= x < rest.len() implies (#[trigger] rest[x]) != m by {
            if rest[x] == m {
                lemma_more_steps(messages, m, (steps - 1 - x) as nat, (steps - 1) as nat);
            }
        }
        assert forall|x: int, y: int| 0 <= x < path.len() && 0 <= y < path.len() && x != y implies path[x]
            != path[y] by {
            if x > 0 && y > 0 {
                assert(rest[x - 1] != rest[y - 1]);
            } else if x > 0 {
                assert(path[x] == rest[x - 1]);
            } else {
                assert(path[y] == rest[y - 1]);
            }
        }
        assert forall|x: int| 0 <= x < path.len() implies messages.contains(
            #[trigger] path[x],
        ) && attribution::owner_by_parent(messages, path[x], (steps - x) as nat) is Some by {
            if x > 0 {
                assert(path[x] == rest[x - 1]);
            }
        }
        path
    }
}

/// A chain of parents that ends at all ends in as many steps as there are messages.
proof fn lemma_chain_is_short(messages: Seq<MessageView>, m: MessageView, steps: nat)
    requires
        messages.contains(m),
        attribution::owner_by_parent(messages, m, steps) is Some,
    ensures
        attribution::owner_by_parent(messages, m, messages.len()) == attribution::owner_by_parent(
            messages,
            m,
            steps,
        ),
    decreases steps,
{
    if steps > 0 && attribution::owner_by_parent(messages, m, (steps - 1) as nat) is Some {
        lemma_more_steps(messages, m, (steps - 1) as nat, steps);
        lemma_chain_is_short(messages, m, (steps - 1) as nat);
    } else {
        let path = lemma_shortest_chain(messages, m, steps);
        path.unique_seq_to_set();
        messages.lemma_cardinality_of_set();
        vstd::seq_lib::seq_to_set_is_finite(messages);
        assert(path.to_set().subset_of(messages.to_set())) by {
            assert forall|x: MessageView| path.to_set().contains(
                x,
            ) implies messages.to_set().contains(x) by {
                assert(path.contains(x));
            }
        }
        vstd::set_lib::lemma_len_subset(path.to_set(), messages.to_set());
        assert(steps <= messages.len());
        lemma_more_steps(messages, m, steps, messages.len());
    }
}

/// Rows that lead to a human turn are a chain of parents.
proof fn lemma_path_is_chain(
    events: Seq<SessionEvent>,
    source: NameView,
    path: Seq<int>,
    a: int,
    u: int,
)
    requires
        leads(events, path, a, u),
    ensures
        attribution::owner_by_parent(
            all_messages(events, source),
            message_of(events, source, a),
            (path.len() - 1) as nat,
        ) == Some(message_of(events, source, u)),
    decreases path.len(),
{
    assert(holds(events, path[0]));
    if path.len() > 1 {
        let rest = path.drop_first();
        let b = path[1];
        let messages = all_messages(events, source);
        assert(!is_turn(events[path[0]]));
        assert(holds(events, path[1]));
        assert forall|x: int| 0 <= x < rest.len() implies holds(events, #[trigger] rest[x]) by {
            assert(rest[x] == path[x + 1]);
        }
        assert forall|x: int| 0 <= x < rest.len() - 1 implies !is_turn(events[#[trigger] rest[x]])
            && same_option(events[rest[x]].parent_id, events[rest[x + 1]].message_id) by {
            assert(rest[x] == path[x + 1]);
            assert(rest[x + 1] == path[x + 2]);
        }
        assert(leads(events, rest, b, u));
        lemma_path_is_chain(events, source, rest, b, u);
        lemma_message_found(events, source, events[b].message_id->0@);
        assert(attribution::message_with(messages, events[a].parent_id->0@) == Some(
            message_of(events, source, b),
        ));
    }
}

/// A chain of parents is rows that lead to a human turn.
proof fn lemma_chain_is_path(
    events: Seq<SessionEvent>,
    source: NameView,
    a: int,
    steps: nat,
) -> (r: (Seq<int>, int))
    requires
        holds(events, a),
        attribution::owner_by_parent(
            all_messages(events, source),
            message_of(events, source, a),
            steps,
        ) is Some,
    ensures
        leads(events, r.0, a, r.1),
        attribution::owner_by_parent(
            all_messages(events, source),
            message_of(events, source, a),
            steps,
        ) == Some(message_of(events, source, r.1)),
    decreases steps,
{
    if is_turn(events[a]) {
        assert(leads(events, seq![a], a, a));
        (seq![a], a)
    } else {
        let messages = all_messages(events, source);
        let id = events[a].parent_id->0@;
        lemma_message_found(events, source, id);
        let next = attribution::message_with(messages, id)->0;
        let b = choose|b: int| #[trigger]
            holds(events, b) && events[b].message_id->0@ == id && next == message_of(
                events,
                source,
                b,
            );
        let (rest, u) = lemma_chain_is_path(events, source, b, (steps - 1) as nat);
        let path = seq![a] + rest;
        assert forall|x: int| 0 <= x < path.len() implies holds(events, #[trigger] path[x]) by {
            if x > 0 {
                assert(path[x] == rest[x - 1]);
            }
        }
        assert forall|x: int| 0 <= x < path.len() - 1 implies !is_turn(events[#[trigger] path[x]])
            && same_option(events[path[x]].parent_id, events[path[x + 1]].message_id) by {
            if x > 0 {
                assert(path[x] == rest[x - 1]);
                assert(path[x + 1] == rest[x - 1 + 1]);
            } else {
                assert(path[1] == rest[0]);
            }
        }
        assert(path.last() == rest.last());
        assert(leads(events, path, a, u));
        (path, u)
    }
}

/// Whether a message is that of a human turn that a response is owed to.
spec fn is_owner(
    events: Seq<SessionEvent>,
    source: SourceName,
    a: int,
    owner: MessageView,
) -> bool {
    exists|u: int| #[trigger]
        owed(events, source, a, u) && owner == message_of(events, source@, u)
}

/// The owner of a response is the message of the human turn that it is owed to.
proof fn lemma_owner(events: Seq<SessionEvent>, source: SourceName, a: int)
    requires
        holds(events, a),
    ensures
        match attribution::owner_of(
            events,
            source@,
            all_messages(events, source@),
            message_of(events, source@, a),
        ) {
            Some(owner) => is_owner(events, source, a, owner),
            None => true,
        },
        forall|u: int| #[trigger]
            owed(events, source, a, u) ==> attribution::owner_of(
                events,
                source@,
                all_messages(events, source@),
                message_of(events, source@, a),
            ) == Some(message_of(events, source@, u)),
{
    let messages = all_messages(events, source@);
    let m = message_of(events, source@, a);
    let found = attribution::owner_of(events, source@, messages, m);
    lemma_all_messages(events, source@);
    if events[a].parent_id is Some {
        if found is Some {
            let (path, u) = lemma_chain_is_path(events, source@, a, messages.len());
            assert(leads(events, path, a, u));
            assert(holds(events, path[path.len() - 1]));
            assert(owed(events, source, a, u));
        }
        assert forall|u: int| #[trigger] owed(events, source, a, u) implies found == Some(
            message_of(events, source@, u),
        ) by {
            let path = choose|path: Seq<int>| #[trigger] leads(events, path, a, u);
            lemma_path_is_chain(events, source@, path, a, u);
            lemma_chain_is_short(messages, m, (path.len() - 1) as nat);
        }
    } else {
        let ts = events[a].ts_ms;
        if found is Some {
            let u = choose|u: int| attribution::sole_latest_turn(events, ts, u);
            assert(attribution::sole_latest_turn(events, ts, u));
            let id = events[u].message_id->0@;
            lemma_message_found(events, source@, id);
            let i = choose|i: int| #[trigger]
                holds(events, i) && events[i].message_id->0@ == id && found->0 == message_of(
                    events,
                    source@,
                    i,
                );
            lemma_rows_agree(events, source@, i, u);
            assert(is_latest_turn(events, a, u));
            assert(owed(events, source, a, u));
        }
        assert forall|u: int| #[trigger] owed(events, source, a, u) implies found == Some(
            message_of(events, source@, u),
        ) by {
            assert(attribution::sole_latest_turn(events, ts, u));
            let v = choose|v: int| attribution::sole_latest_turn(events, ts, v);
            assert(attribution::sole_latest_turn(events, ts, v));
            assert(u == v);
            lemma_message_found(events, source@, events[u].message_id->0@);
        }
    }
}

proof fn lemma_lines(events: Seq<SessionEvent>, i: int, n: int)
    requires
        0 <= n <= events.len(),
        0 <= i < events.len(),
        totals::is_given(events[i].message_id),
    ensures
        attribution::prompt_texts(events.take(n), events[i].message_id->0@) == lines(events, i, n),
    decreases n,
{
    if n > 0 {
        lemma_lines(events, i, n - 1);
        assert(events.take(n).drop_last() =~= events.take(n - 1));
    }
}

/// The text of a record's message is its words.
proof fn lemma_words(events: Seq<SessionEvent>, source: NameView, i: int)
    requires
        holds(events, i),
    ensures
        message_of(events, source, i).text == words(events, i),
{
    lemma_lines(events, i, events.len() as int);
    assert(events.take(events.len() as int) =~= events);
}

/// The token texts of a record in the first `n` rows are what its rows carry.
proof fn lemma_tokens(events: Seq<SessionEvent>, i: int, n: int)
    requires
        0 <= n <= events.len(),
        0 <= i < events.len(),
        totals::is_given(events[i].message_id),
    ensures
        ({
            let raws = attribution::token_texts(events.take(n), events[i].message_id->0@);
            &&& forall|t: int|
                t < n && #[trigger] carries(events, i, t) ==> raws.contains(
                    events[t].token_json->0@,
                )
            &&& forall|x: int|
                0 <= x < raws.len() ==> exists|t: int|
                    t < n && #[trigger] carries(events, i, t) && events[t].token_json->0@
                        == #[trigger] raws[x]
            &&& forall|t: int|
                t < n && #[trigger] carries_first(events, i, t) ==> raws.len() > 0 && raws[0]
                    == events[t].token_json->0@
            &&& raws.len() > 0 ==> exists|t: int|
                t < n && #[trigger] carries_first(events, i, t)
        }),
    decreases n,
{
    let id = events[i].message_id->0@;
    let raws = attribution::token_texts(events.take(n), id);
    if n > 0 {
        lemma_tokens(events, i, n - 1);
        let rest = attribution::token_texts(events.take(n - 1), id);
        assert(events.take(n).drop_last() =~= events.take(n - 1));
        let at = n - 1;
        if carries(events, i, at) {
            assert(raws == rest.push(events[at].token_json->0@));
            assert(raws[rest.len() as int] == events[at].token_json->0@);
            if rest.len() == 0 {
                assert forall|s: int| 0 <= s < at implies !#[trigger] carries(events, i, s) by {}
                assert(carries_first(events, i, at));
            }
        } else {
            assert(raws == rest);
        }
        assert forall|t: int| t < n && #[trigger] carries(events, i, t) implies raws.contains(
            events[t].token_json->0@,
        ) by {
            if t < at {
                let x = choose|x: int| 0 <= x < rest.len() && rest[x] == events[t].token_json->0@;
                assert(raws[x] == rest[x]);
            }
        }
        assert forall|x: int| 0 <= x < raws.len() implies exists|t: int|
            t < n && #[trigger] carries(events, i, t) && events[t].token_json->0@
                == #[trigger] raws[x] by {
            if x < rest.len() {
                assert(raws[x] == rest[x]);
                let t = choose|t: int|
                    t < n - 1 && #[trigger] carries(events, i, t) && events[t].token_json->0@
                        == rest[x];
                assert(carries(events, i, t));
            } else {
                assert(carries(events, i, at));
            }
        }
        assert forall|t: int| t < n && #[trigger] carries_first(events, i, t) implies raws.len() > 0
            && raws[0] == events[t].token_json->0@ by {
            if t == at {
                assert(forall|x: int| 0 <= x < rest.len() ==> exists|s: int|
                    s < at && #[trigger] carries(events, i, s) && events[s].token_json->0@
                        == #[trigger] rest[x]);
                if rest.len() > 0 {
                    let first = rest[0];
                    let s = choose|s: int|
                        s < at && #[trigger] carries(events, i, s) && events[s].token_json->0@
                            == first;
                    assert(carries(events, i, s));
                }
            } else {
                assert(raws[0] == rest[0]);
            }
        }
    }
}

/// What a record's message says of its usage is what the record measures.
proof fn lemma_measured(events: Seq<SessionEvent>, source: SourceName, i: int)
    requires
        holds(events, i),
    ensures
        ({
            let seen = message_of(events, source@, i).usage;
            &&& seen is Unreadable <==> !is_clear(events, source, i)
            &&& forall|read: UsageView| #[trigger]
                measures(events, source, i, read) <==> seen == RecordView::Measured(read)
        }),
{
    let id = events[i].message_id->0@;
    let raws = attribution::token_texts(events, id);
    let seen = attribution::record_usage(source@, raws);
    lemma_tokens(events, i, events.len() as int);
    assert(events.take(events.len() as int) =~= events);
    if raws.len() == 0 {
        assert forall|t: int| !#[trigger] carries(events, i, t) by {
            if carries(events, i, t) {
                assert(raws.contains(events[t].token_json->0@));
            }
        }
    } else {
        let t = choose|t: int| t < events.len() && #[trigger] carries_first(events, i, t);
        assert(raws[0] == events[t].token_json->0@);
        assert forall|s: int| #[trigger] carries_first(events, i, s) implies s == t by {
            if s < t {
                assert(!carries(events, i, s));
            }
            if t < s {
                assert(!carries(events, i, t));
            }
        }
        if is_clear(events, source, i) {
            assert forall|x: int| 0 <= x < raws.len() implies json::decoded(#[trigger] raws[x])
                is Ok && json::json_equal(
                json::decoded(raws[x])->Ok_0,
                json::decoded(raws[0])->Ok_0,
            ) by {
                let s = choose|s: int|
                    s < events.len() && #[trigger] carries(events, i, s)
                        && events[s].token_json->0@ == raws[x];
                assert(carries_first(events, i, t) && carries(events, i, s));
            }
            assert(carries(events, i, t));
            assert(!(seen is Unreadable));
        }
        if !(seen is Unreadable) {
            assert forall|f: int, s: int| #[trigger]
                carries_first(events, i, f) && #[trigger] carries(events, i, s) implies {
                &&& json::decoded(events[s].token_json->0@) is Ok
                &&& json::json_equal(
                    json::decoded(events[s].token_json->0@)->Ok_0,
                    json::decoded(events[f].token_json->0@)->Ok_0,
                )
                &&& usage::normalized_text(source@, events[f].token_json->0@) is Ok
            } by {
                assert(f == t);
                let x = choose|x: int| 0 <= x < raws.len() && raws[x] == events[s].token_json->0@;
                assert(!(json::decoded(raws[x]) is Err));
                assert(!(json::decoded(raws[0]) is Err));
                assert(json::json_equal(
                    json::decoded(raws[x])->Ok_0,
                    json::decoded(raws[0])->Ok_0,
                ));
            }
        }
    }
}

/// No two messages have the same id.
proof fn lemma_ids(events: Seq<SessionEvent>, source: NameView, n: int)
    requires
        0 <= n <= events.len(),
    ensures
        forall|x: int, y: int|
            0 <= x < y < attribution::messages_of(events, source, n).len() ==> (
            #[trigger] attribution::messages_of(events, source, n)[x]).id != (
            #[trigger] attribution::messages_of(events, source, n)[y]).id,
        forall|x: int|
            0 <= x < attribution::messages_of(events, source, n).len() ==> exists|i: int|
                0 <= i < n && attribution::id_of(#[trigger] events[i]) == Some(
                    (#[trigger] attribution::messages_of(events, source, n)[x]).id,
                ),
    decreases n,
{
    let messages = attribution::messages_of(events, source, n);
    if n > 0 {
        lemma_ids(events, source, n - 1);
        let rest = attribution::messages_of(events, source, n - 1);
        let at = n - 1;
        assert forall|x: int| 0 <= x < messages.len() implies exists|i: int|
            0 <= i < n && attribution::id_of(#[trigger] events[i]) == Some(
                (#[trigger] messages[x]).id,
            ) by {
            if x < rest.len() {
                assert(messages[x] == rest[x]);
                let i = choose|i: int|
                    0 <= i < n - 1 && attribution::id_of(#[trigger] events[i]) == Some(rest[x].id);
                assert(attribution::id_of(events[i]) == Some(messages[x].id));
            } else {
                assert(attribution::id_of(events[at]) == Some(messages[x].id));
            }
        }
        assert forall|x: int, y: int| 0 <= x < y < messages.len() implies (#[trigger] messages[x]).id
            != (#[trigger] messages[y]).id by {
            assert(messages[x] == rest[x]);
            if y < rest.len() {
                assert(messages[y] == rest[y]);
            } else {
                let i = choose|i: int|
                    0 <= i < n - 1 && attribution::id_of(#[trigger] events[i]) == Some(rest[x].id);
                assert(attribution::id_of(events[i]) != attribution::id_of(events[at]));
            }
        }
    }
}

/// Whether a message is a prompt with a time and words.
spec fn is_prompt(m: MessageView, ts: i64, prompt: Seq<char>) -> bool {
    m.role == "user"@ && m.ts == ts && m.text == prompt
}

proof fn lemma_prompt_count(messages: Seq<MessageView>, ts: i64, prompt: Seq<char>, n: int)
    requires
        0 <= n <= messages.len(),
    ensures
        attribution::prompt_count(messages, ts, prompt, n) == 0 <==> forall|x: int|
            0 <= x < n ==> !is_prompt(#[trigger] messages[x], ts, prompt),
        attribution::prompt_count(messages, ts, prompt, n) <= 1 <==> forall|x: int, y: int|
            0 <= x < y < n ==> !(is_prompt(#[trigger] messages[x], ts, prompt) && is_prompt(
                #[trigger] messages[y],
                ts,
                prompt,
            )),
    decreases n,
{
    if n > 0 {
        lemma_prompt_count(messages, ts, prompt, n - 1);
        let last = messages[n - 1];
        if is_prompt(last, ts, prompt) {
            if attribution::prompt_count(messages, ts, prompt, n - 1) != 0 {
                let x = choose|x: int|
                    0 <= x < n - 1 && is_prompt(#[trigger] messages[x], ts, prompt);
                assert(is_prompt(messages[x], ts, prompt) && is_prompt(
                    messages[n - 1],
                    ts,
                    prompt,
                ));
            }
        }
    }
}

/// Whether a prompt can be told from every other: it has words, and no two records that
/// are human turns share its time and its words.
pub open spec fn is_distinct(events: Seq<SessionEvent>, ts: i64, prompt: Seq<char>) -> bool {
    &&& prompt.len() > 0
    &&& forall|u: int, v: int|
        #![trigger holds(events, u), holds(events, v)]
        holds(events, u) && holds(events, v) && is_turn(events[u]) && is_turn(events[v])
            && events[u].ts_ms == ts && events[v].ts_ms == ts && words(events, u) == prompt
            && words(events, v) == prompt ==> of_one_record(events[u], events[v])
}

proof fn lemma_distinct(events: Seq<SessionEvent>, source: NameView, u: int)
    requires
        holds(events, u),
        is_turn(events[u]),
    ensures
        ({
            let messages = all_messages(events, source);
            let m = message_of(events, source, u);
            (m.text.len() > 0 && attribution::prompt_count(
                messages,
                m.ts,
                m.text,
                messages.len() as int,
            ) == 1) == is_distinct(events, events[u].ts_ms, words(events, u))
        }),
{
    let messages = all_messages(events, source);
    let m = message_of(events, source, u);
    let ts = m.ts;
    let prompt = m.text;
    lemma_words(events, source, u);
    lemma_all_messages(events, source);
    lemma_ids(events, source, events.len() as int);
    lemma_prompt_count(messages, ts, prompt, messages.len() as int);
    assert(messages.contains(m));
    let x = choose|x: int| 0 <= x < messages.len() && messages[x] == m;
    assert(is_prompt(messages[x], ts, prompt));
    let count = attribution::prompt_count(messages, ts, prompt, messages.len() as int);
    assert(count > 0);
    if count <= 1 {
        assert forall|v: int, w: int|
            #![trigger holds(events, v), holds(events, w)]
            holds(events, v) && holds(events, w) && is_turn(events[v]) && is_turn(events[w])
                && events[v].ts_ms == ts && events[w].ts_ms == ts && words(events, v) == prompt
                && words(events, w) == prompt implies of_one_record(events[v], events[w]) by {
            lemma_words(events, source, v);
            lemma_words(events, source, w);
            let p = message_of(events, source, v);
            let q = message_of(events, source, w);
            assert(messages.contains(p) && messages.contains(q));
            let y = choose|y: int| 0 <= y < messages.len() && messages[y] == p;
            let z = choose|z: int| 0 <= z < messages.len() && messages[z] == q;
            assert(is_prompt(messages[y], ts, prompt) && is_prompt(messages[z], ts, prompt));
            assert(y == z);
        }
    }
    if is_distinct(events, ts, prompt) {
        assert forall|y: int, z: int| 0 <= y < z < messages.len() implies !(is_prompt(
            #[trigger] messages[y],
            ts,
            prompt,
        ) && is_prompt(#[trigger] messages[z], ts, prompt)) by {
            if is_prompt(messages[y], ts, prompt) && is_prompt(messages[z], ts, prompt) {
                assert(messages.contains(messages[y]) && messages.contains(messages[z]));
                assert(is_told(events, source, messages[y]) && is_told(
                    events,
                    source,
                    messages[z],
                ));
                let v = choose|v: int| #[trigger]
                    holds(events, v) && messages[y] == message_of(events, source, v);
                let w = choose|w: int| #[trigger]
                    holds(events, w) && messages[z] == message_of(events, source, w);
                lemma_words(events, source, v);
                lemma_words(events, source, w);
                assert(of_one_record(events[v], events[w]));
                assert(messages[y].id == messages[z].id);
            }
        }
    }
}

/// Whether a record contributes nothing that speaks against a prompt and a measurement.
spec fn agrees(next: ContributionView, ts: i64, prompt: Seq<char>, read: Option<UsageView>) -> bool {
    match next {
        ContributionView::Silent => true,
        ContributionView::Owned(t, p) => t == ts && p == prompt,
        ContributionView::Measured(t, p, u) => t == ts && p == prompt && read is Some
            && usage::is_same_usage(u, read->0),
        ContributionView::Contradictory => false,
    }
}

spec fn contributed(
    events: Seq<SessionEvent>,
    source: NameView,
    messages: Seq<MessageView>,
    x: int,
) -> ContributionView {
    attribution::contribution(events, source, messages, messages[x])
}

/// What is known of a request is what its records say with one voice.
proof fn lemma_state(
    events: Seq<SessionEvent>,
    source: NameView,
    messages: Seq<MessageView>,
    request: Seq<char>,
    n: int,
)
    requires
        0 <= n <= messages.len(),
    ensures
        match attribution::request_state(events, source, messages, request, n) {
            RequestView::Unseen => forall|x: int|
                0 <= x < n && attribution::answers(#[trigger] messages[x], request) ==> contributed(
                    events,
                    source,
                    messages,
                    x,
                ) is Silent,
            RequestView::Refused => true,
            RequestView::Open(ts, prompt, seen) => {
                &&& forall|x: int|
                    0 <= x < n && attribution::answers(#[trigger] messages[x], request) ==> agrees(
                        contributed(events, source, messages, x),
                        ts,
                        prompt,
                        seen,
                    )
                &&& seen is Some ==> exists|x: int|
                    0 <= x < n && attribution::answers(#[trigger] messages[x], request)
                        && contributed(events, source, messages, x) == ContributionView::Measured(
                        ts,
                        prompt,
                        seen->0,
                    )
            },
        },
    decreases n,
{
    if n > 0 {
        lemma_state(events, source, messages, request, n - 1);
        if attribution::answers(messages[n - 1], request) {
            let before = attribution::request_state(events, source, messages, request, n - 1);
            let next = contributed(events, source, messages, n - 1);
            let after = attribution::request_state(events, source, messages, request, n);
            assert(after == attribution::merged_request(before, next));
            match after {
                RequestView::Open(ts, prompt, seen) => {
                    assert forall|x: int|
                        0 <= x < n && attribution::answers(
                            #[trigger] messages[x],
                            request,
                        ) implies agrees(
                        contributed(events, source, messages, x),
                        ts,
                        prompt,
                        seen,
                    ) by {}
                },
                _ => {},
            }
        }
    }
}

/// A request whose records speak with one voice, one of which measures, is charged.
proof fn lemma_agreed(
    events: Seq<SessionEvent>,
    source: NameView,
    messages: Seq<MessageView>,
    request: Seq<char>,
    ts: i64,
    prompt: Seq<char>,
    read: UsageView,
    at: int,
    n: int,
)
    requires
        0 <= n <= messages.len(),
        0 <= at < messages.len(),
        attribution::answers(messages[at], request),
        contributed(events, source, messages, at) == ContributionView::Measured(ts, prompt, read),
        forall|x: int|
            0 <= x < messages.len() && attribution::answers(#[trigger] messages[x], request)
                ==> agrees(contributed(events, source, messages, x), ts, prompt, Some(read)),
    ensures
        match attribution::request_state(events, source, messages, request, n) {
            RequestView::Unseen => n <= at,
            RequestView::Refused => false,
            RequestView::Open(t, p, seen) => t == ts && p == prompt && match seen {
                Some(u) => usage::is_same_usage(u, read),
                None => n <= at,
            },
        },
    decreases n,
{
    if n > 0 {
        lemma_agreed(events, source, messages, request, ts, prompt, read, at, n - 1);
    }
}

/// Whether a response is owed to somebody.
pub open spec fn is_owed(events: Seq<SessionEvent>, source: SourceName, a: int) -> bool {
    exists|u: int| #[trigger] owed(events, source, a, u)
}

/// Whether a response is owed to no prompt but one with a time and words.
pub open spec fn is_owed_only(
    events: Seq<SessionEvent>,
    source: SourceName,
    a: int,
    ts: i64,
    prompt: Seq<char>,
) -> bool {
    forall|u: int| #[trigger]
        owed(events, source, a, u) ==> events[u].ts_ms == ts && words(events, u) == prompt
}

/// Whether a row is of a response: a record of the model that holds together.
pub open spec fn is_reply(events: Seq<SessionEvent>, a: int) -> bool {
    holds(events, a) && events[a].role@ == "assistant"@
}

/// Whether a response does not speak against a prompt and a measurement: what it carries
/// can be read, it is owed to no other prompt, and where it is owed and measures, it
/// measures the same.
pub open spec fn concurs(
    events: Seq<SessionEvent>,
    source: SourceName,
    b: int,
    ts: i64,
    prompt: Seq<char>,
    read: UsageView,
) -> bool {
    &&& is_clear(events, source, b)
    &&& is_owed_only(events, source, b, ts, prompt)
    &&& forall|own: UsageView| #[trigger]
        measures(events, source, b, own) && is_owed(events, source, b) ==> usage::is_same_usage(
            own,
            read,
        )
}

/// Whether the request of a response is to be charged to a prompt: the response measures
/// the usage and is owed to the prompt, the prompt can be told from every other, and no
/// response of the request speaks against it.
pub open spec fn bears(
    events: Seq<SessionEvent>,
    source: SourceName,
    a: int,
    ts: i64,
    prompt: Seq<char>,
    read: UsageView,
) -> bool {
    &&& is_reply(events, a)
    &&& measures(events, source, a, read)
    &&& is_owed(events, source, a)
    &&& is_distinct(events, ts, prompt)
    &&& forall|b: int| #[trigger]
        is_reply(events, b) && request_name(events[b]) == request_name(events[a]) ==> concurs(
            events,
            source,
            b,
            ts,
            prompt,
            read,
        )
}

/// What a response contributes, told of its rows.
proof fn lemma_contribution(events: Seq<SessionEvent>, source: SourceName, i: int)
    requires
        holds(events, i),
    ensures
        match attribution::contribution(
            events,
            source@,
            all_messages(events, source@),
            message_of(events, source@, i),
        ) {
            ContributionView::Contradictory => !is_clear(events, source, i) || (exists|u: int|
                #[trigger]
                owed(events, source, i, u) && !is_distinct(
                    events,
                    events[u].ts_ms,
                    words(events, u),
                )),
            ContributionView::Silent => is_clear(events, source, i) && !is_owed(events, source, i),
            ContributionView::Owned(ts, prompt) => {
                &&& is_clear(events, source, i)
                &&& is_owed(events, source, i)
                &&& is_owed_only(events, source, i, ts, prompt)
                &&& is_distinct(events, ts, prompt)
                &&& forall|read: UsageView| !#[trigger] measures(events, source, i, read)
            },
            ContributionView::Measured(ts, prompt, read) => {
                &&& is_clear(events, source, i)
                &&& is_owed(events, source, i)
                &&& is_owed_only(events, source, i, ts, prompt)
                &&& is_distinct(events, ts, prompt)
                &&& forall|own: UsageView| #[trigger]
                    measures(events, source, i, own) <==> own == read
            },
        },
{
    let messages = all_messages(events, source@);
    let m = message_of(events, source@, i);
    lemma_measured(events, source, i);
    lemma_owner(events, source, i);
    match attribution::owner_of(events, source@, messages, m) {
        None => {},
        Some(owner) => {
            let u = choose|u: int| #[trigger]
                owed(events, source, i, u) && owner == message_of(events, source@, u);
            assert(owed(events, source, i, u));
            lemma_turn_is_owed(events, source, i, u);
            lemma_distinct(events, source@, u);
            lemma_words(events, source@, u);
            assert forall|v: int| #[trigger] owed(events, source, i, v) implies events[v].ts_ms
                == owner.ts && words(events, v) == owner.text by {
                lemma_words(events, source@, v);
            }
        },
    }
}

proof fn lemma_turn_is_owed(events: Seq<SessionEvent>, source: SourceName, a: int, u: int)
    requires
        owed(events, source, a, u),
    ensures
        is_turn(events[u]),
{
}

/// A charged request is one that a response bears.
proof fn lemma_charge_is_borne(
    events: Seq<SessionEvent>,
    source: SourceName,
    request: Seq<char>,
    ts: i64,
    prompt: Seq<char>,
    read: UsageView,
) -> (a: int)
    requires
        attribution::request_state(
            events,
            source@,
            all_messages(events, source@),
            request,
            all_messages(events, source@).len() as int,
        ) == RequestView::Open(ts, prompt, Some(read)),
    ensures
        bears(events, source, a, ts, prompt, read),
        attribution::request_of(events[a]) == request,
{
    let messages = all_messages(events, source@);
    lemma_state(events, source@, messages, request, messages.len() as int);
    lemma_all_messages(events, source@);
    let x = choose|x: int|
        0 <= x < messages.len() && attribution::answers(#[trigger] messages[x], request)
            && contributed(events, source@, messages, x) == ContributionView::Measured(
            ts,
            prompt,
            read,
        );
    assert(messages.contains(messages[x]));
    assert(is_told(events, source@, messages[x]));
    let a = choose|a: int| #[trigger]
        holds(events, a) && messages[x] == message_of(events, source@, a);
    lemma_contribution(events, source, a);
    assert forall|b: int| #[trigger] is_reply(events, b) && request_name(events[b]) == request_name(
        events[a],
    ) implies concurs(events, source, b, ts, prompt, read) by {
        lemma_contribution(events, source, b);
        lemma_request_name(events[a], events[b]);
        assert(holds(events, b));
        assert(messages.contains(message_of(events, source@, b)));
        let y = choose|y: int|
            0 <= y < messages.len() && messages[y] == message_of(events, source@, b);
        assert(attribution::answers(messages[y], request));
        assert(agrees(contributed(events, source@, messages, y), ts, prompt, Some(read)));
    }
    a
}

/// What a response contributes that does not speak against a prompt.
proof fn lemma_concurring(
    events: Seq<SessionEvent>,
    source: SourceName,
    b: int,
    ts: i64,
    prompt: Seq<char>,
    read: UsageView,
)
    requires
        holds(events, b),
        concurs(events, source, b, ts, prompt, read),
        is_distinct(events, ts, prompt),
    ensures
        agrees(
            attribution::contribution(
                events,
                source@,
                all_messages(events, source@),
                message_of(events, source@, b),
            ),
            ts,
            prompt,
            Some(read),
        ),
        measures(events, source, b, read) && is_owed(events, source, b)
            ==> attribution::contribution(
            events,
            source@,
            all_messages(events, source@),
            message_of(events, source@, b),
        ) == ContributionView::Measured(ts, prompt, read),
{
    lemma_contribution(events, source, b);
    lemma_only_prompt(events, source, b, ts, prompt);
    match attribution::contribution(
        events,
        source@,
        all_messages(events, source@),
        message_of(events, source@, b),
    ) {
        ContributionView::Measured(t, p, own) => {
            assert(measures(events, source, b, own));
        },
        _ => {},
    }
}

/// A request that a response bears is charged.
proof fn lemma_borne_is_charged(
    events: Seq<SessionEvent>,
    source: SourceName,
    a: int,
    ts: i64,
    prompt: Seq<char>,
    read: UsageView,
)
    requires
        bears(events, source, a, ts, prompt, read),
    ensures
        attribution::charge_of(
            attribution::request_state(
                events,
                source@,
                all_messages(events, source@),
                attribution::request_of(events[a]),
                all_messages(events, source@).len() as int,
            ),
        ) matches Some(charge) && charge.ts == ts && charge.prompt == prompt
            && usage::is_same_usage(charge.usage, read),
{
    let messages = all_messages(events, source@);
    let request = attribution::request_of(events[a]);
    lemma_all_messages(events, source@);
    assert(is_reply(events, a));
    assert(messages.contains(message_of(events, source@, a)));
    let at = choose|at: int|
        0 <= at < messages.len() && messages[at] == message_of(events, source@, a);
    assert forall|x: int|
        0 <= x < messages.len() && attribution::answers(
            #[trigger] messages[x],
            request,
        ) implies agrees(contributed(events, source@, messages, x), ts, prompt, Some(read)) by {
        assert(messages.contains(messages[x]));
        assert(is_told(events, source@, messages[x]));
        let b = choose|b: int| #[trigger]
            holds(events, b) && messages[x] == message_of(events, source@, b);
        lemma_request_name(events[a], events[b]);
        assert(is_reply(events, b));
        lemma_concurring(events, source, b, ts, prompt, read);
    }
    lemma_concurring(events, source, a, ts, prompt, read);
    lemma_agreed(
        events,
        source@,
        messages,
        request,
        ts,
        prompt,
        read,
        at,
        messages.len() as int,
    );
}

/// A response that is owed to one prompt alone is owed to no other.
proof fn lemma_only_prompt(
    events: Seq<SessionEvent>,
    source: SourceName,
    b: int,
    ts: i64,
    prompt: Seq<char>,
)
    requires
        is_owed_only(events, source, b, ts, prompt),
        is_distinct(events, ts, prompt),
    ensures
        forall|t: i64, p: Seq<char>| #[trigger]
            is_owed_only(events, source, b, t, p) && is_owed(events, source, b) ==> t == ts && p
                == prompt,
        forall|u: int| #[trigger]
            owed(events, source, b, u) ==> is_distinct(events, events[u].ts_ms, words(events, u)),
{
    assert forall|t: i64, p: Seq<char>| #[trigger]
        is_owed_only(events, source, b, t, p) && is_owed(events, source, b) implies t == ts && p
        == prompt by {
        let u = choose|u: int| #[trigger] owed(events, source, b, u);
        assert(events[u].ts_ms == ts && events[u].ts_ms == t);
    }
}

/// Whether a usage is the sum of some usages: each counter is the sum of theirs.
pub open spec fn is_sum(whole: UsageView, parts: Seq<UsageView>) -> bool {
    &&& whole.input_tokens as int == totals::summed(parts, |u: UsageView| u.input_tokens as int)
    &&& whole.output_tokens as int == totals::summed(parts, |u: UsageView| u.output_tokens as int)
    &&& whole.cache_read_tokens as int == totals::summed(
        parts,
        |u: UsageView| u.cache_read_tokens as int,
    )
    &&& whole.cache_write_tokens as int == totals::summed(
        parts,
        |u: UsageView| u.cache_write_tokens as int,
    )
}

proof fn lemma_one_more(whole: UsageView, parts: Seq<UsageView>, one: UsageView, all: UsageView)
    requires
        is_sum(whole, parts),
        usage::usage_sum(whole, one) == Some(all),
    ensures
        is_sum(all, parts.push(one)),
{
    assert(parts.push(one).drop_last() =~= parts);
}

proof fn lemma_only_one(one: UsageView)
    ensures
        is_sum(one, seq![one]),
{
    assert(seq![one].drop_last() =~= Seq::<UsageView>::empty());
    reveal_with_fuel(totals::summed, 2);
}

/// Whether some responses bear the requests of a prompt, each request once.
pub open spec fn are_bearers(
    events: Seq<SessionEvent>,
    source: SourceName,
    ts: i64,
    prompt: Seq<char>,
    rows: Seq<int>,
    reads: Seq<UsageView>,
) -> bool {
    &&& rows.len() == reads.len()
    &&& forall|x: int|
        0 <= x < rows.len() ==> bears(events, source, #[trigger] rows[x], ts, prompt, reads[x])
    &&& forall|x: int, y: int|
        0 <= x < y < rows.len() ==> request_name(events[#[trigger] rows[x]]) != request_name(
            events[#[trigger] rows[y]],
        )
}

/// Whether the request of a response is among those that some responses bear.
pub open spec fn is_among(events: Seq<SessionEvent>, rows: Seq<int>, a: int) -> bool {
    exists|x: int|
        0 <= x < rows.len() && request_name(events[#[trigger] rows[x]]) == request_name(events[a])
}

/// Whether one of the first `n` messages is a response of a request.
spec fn is_answered(messages: Seq<MessageView>, request: Seq<char>, n: int) -> bool {
    exists|at: int| 0 <= at < n && attribution::answers(#[trigger] messages[at], request)
}

/// Whether a request is charged to a prompt.
spec fn is_charged(
    events: Seq<SessionEvent>,
    source: SourceName,
    request: Seq<char>,
    ts: i64,
    prompt: Seq<char>,
) -> bool {
    let messages = all_messages(events, source@);
    attribution::charge_of(
        attribution::request_state(events, source@, messages, request, messages.len() as int),
    ) matches Some(charge) && charge.ts == ts && charge.prompt == prompt
}

/// Whether what is charged to a prompt is what some responses bear.
spec fn comes_to(
    total: Option<Option<UsageView>>,
    reads: Seq<UsageView>,
) -> bool {
    match total {
        None => reads.len() == 0,
        Some(None) => reads.len() > 1,
        Some(Some(whole)) => reads.len() > 0 && is_sum(whole, reads) && (reads.len() == 1 ==> whole
            == reads[0]),
    }
}

/// What is charged to a prompt in the first `n` messages, told of the responses that bear
/// it.
proof fn lemma_bearers(
    events: Seq<SessionEvent>,
    source: SourceName,
    ts: i64,
    prompt: Seq<char>,
    n: int,
) -> (r: (Seq<int>, Seq<UsageView>))
    requires
        0 <= n <= all_messages(events, source@).len(),
    ensures
        are_bearers(events, source, ts, prompt, r.0, r.1),
        forall|x: int|
            0 <= x < r.0.len() ==> is_answered(
                all_messages(events, source@),
                attribution::request_of(events[#[trigger] r.0[x]]),
                n,
            ),
        forall|at: int|
            0 <= at < n && #[trigger] attribution::starts_request(
                all_messages(events, source@),
                at,
            ) && is_charged(events, source, all_messages(events, source@)[at].request, ts, prompt)
                ==> is_borne(events, r.0, all_messages(events, source@)[at].request),
        comes_to(
            attribution::prompt_total(
                attribution::charges_of(events, source@, all_messages(events, source@), n),
                ts,
                prompt,
            ),
            r.1,
        ),
    decreases n,
{
    let messages = all_messages(events, source@);
    if n <= 0 {
        (Seq::empty(), Seq::empty())
    } else {
        let (rows, reads) = lemma_bearers(events, source, ts, prompt, n - 1);
        let rest = attribution::charges_of(events, source@, messages, n - 1);
        let at = n - 1;
        let request = messages[at].request;
        let found = attribution::charge_of(
            attribution::request_state(events, source@, messages, request, messages.len() as int),
        );
        assert forall|x: int| 0 <= x < rows.len() implies is_answered(
            messages,
            attribution::request_of(events[#[trigger] rows[x]]),
            n,
        ) by {
            assert(is_answered(messages, attribution::request_of(events[rows[x]]), n - 1));
        }
        if attribution::starts_request(messages, at) && found is Some {
            let charge = found->0;
            assert(rest.push(charge).drop_last() =~= rest);
            if charge.ts == ts && charge.prompt == prompt {
                let a = lemma_charge_is_borne(events, source, request, ts, prompt, charge.usage);
                let more = rows.push(a);
                let sums = reads.push(charge.usage);
                assert forall|x: int| 0 <= x < rows.len() implies request_name(
                    events[#[trigger] rows[x]],
                ) != request_name(events[a]) by {
                    lemma_request_name(events[rows[x]], events[a]);
                    assert(is_answered(messages, attribution::request_of(events[rows[x]]), n - 1));
                }
                assert(are_bearers(events, source, ts, prompt, more, sums));
                assert forall|x: int| 0 <= x < more.len() implies is_answered(
                    messages,
                    attribution::request_of(events[#[trigger] more[x]]),
                    n,
                ) by {
                    if x < rows.len() {
                        assert(more[x] == rows[x]);
                    } else {
                        assert(attribution::answers(messages[at], request));
                    }
                }
                assert forall|b: int|
                    0 <= b < n && #[trigger] attribution::starts_request(messages, b) && is_charged(
                        events,
                        source,
                        messages[b].request,
                        ts,
                        prompt,
                    ) implies is_borne(events, more, messages[b].request) by {
                    lemma_borne_by_more(events, rows, a, messages[b].request);
                }
                match attribution::prompt_total(rest, ts, prompt) {
                    None => {
                        assert(reads =~= Seq::<UsageView>::empty());
                        assert(sums =~= seq![charge.usage]);
                        lemma_only_one(charge.usage);
                    },
                    Some(None) => {},
                    Some(Some(whole)) => {
                        if usage::usage_sum(whole, charge.usage) is Some {
                            lemma_one_more(
                                whole,
                                reads,
                                charge.usage,
                                usage::usage_sum(whole, charge.usage)->0,
                            );
                        }
                    },
                }
                (more, sums)
            } else {
                (rows, reads)
            }
        } else {
            (rows, reads)
        }
    }
}

/// Whether a request is that of one of some rows.
spec fn is_borne(events: Seq<SessionEvent>, rows: Seq<int>, request: Seq<char>) -> bool {
    exists|x: int|
        0 <= x < rows.len() && attribution::request_of(events[#[trigger] rows[x]]) == request
}

proof fn lemma_borne_by_more(events: Seq<SessionEvent>, rows: Seq<int>, a: int, request: Seq<char>)
    ensures
        is_borne(events, rows.push(a), request) <==> is_borne(events, rows, request)
            || attribution::request_of(events[a]) == request,
{
    let more = rows.push(a);
    if is_borne(events, rows, request) {
        let x = choose|x: int|
            0 <= x < rows.len() && attribution::request_of(events[#[trigger] rows[x]]) == request;
        assert(more[x] == rows[x]);
    }
    if attribution::request_of(events[a]) == request {
        assert(more[rows.len() as int] == a);
    }
    if is_borne(events, more, request) {
        let x = choose|x: int|
            0 <= x < more.len() && attribution::request_of(events[#[trigger] more[x]]) == request;
        if x < rows.len() {
            assert(rows[x] == more[x]);
        }
    }
}

/// The first response of a request.
proof fn lemma_first_answer(messages: Seq<MessageView>, request: Seq<char>, n: int) -> (at: int)
    requires
        n <= messages.len(),
        is_answered(messages, request, n),
    ensures
        0 <= at < n,
        attribution::starts_request(messages, at),
        messages[at].request == request,
    decreases n,
{
    if n > 1 && is_answered(messages, request, n - 1) {
        lemma_first_answer(messages, request, n - 1)
    } else {
        let at = choose|at: int|
            0 <= at < n && attribution::answers(#[trigger] messages[at], request);
        assert(at == n - 1);
        assert forall|j: int| 0 <= j < at implies !attribution::answers(
            #[trigger] messages[j],
            messages[at].request,
        ) by {
            if attribution::answers(messages[j], request) {
                assert(is_answered(messages, request, n - 1));
            }
        }
        at
    }
}

/// The responses that bear the requests of a prompt, all of them, and what they come to.
proof fn lemma_all_bearers(
    events: Seq<SessionEvent>,
    source: SourceName,
    ts: i64,
    prompt: Seq<char>,
) -> (r: (Seq<int>, Seq<UsageView>))
    ensures
        are_bearers(events, source, ts, prompt, r.0, r.1),
        forall|a: int, read: UsageView| #[trigger]
            bears(events, source, a, ts, prompt, read) ==> is_among(events, r.0, a),
        comes_to(
            attribution::prompt_total(
                attribution::session_charges(events, source@),
                ts,
                prompt,
            ),
            r.1,
        ),
{
    let messages = all_messages(events, source@);
    let (rows, reads) = lemma_bearers(events, source, ts, prompt, messages.len() as int);
    assert forall|a: int, read: UsageView| #[trigger]
        bears(events, source, a, ts, prompt, read) implies is_among(events, rows, a) by {
        let request = attribution::request_of(events[a]);
        lemma_borne_is_charged(events, source, a, ts, prompt, read);
        lemma_all_messages(events, source@);
        assert(holds(events, a));
        assert(messages.contains(message_of(events, source@, a)));
        let y = choose|y: int|
            0 <= y < messages.len() && messages[y] == message_of(events, source@, a);
        assert(attribution::answers(messages[y], request));
        let at = lemma_first_answer(messages, request, messages.len() as int);
        assert(is_borne(events, rows, request));
        let x = choose|x: int|
            0 <= x < rows.len() && attribution::request_of(events[#[trigger] rows[x]]) == request;
        lemma_request_name(events[rows[x]], events[a]);
        assert(request_name(events[rows[x]]) == request_name(events[a]));
    }
    (rows, reads)
}

/// A prompt is charged the sum of its requests, each once: those that a response bears,
/// all of them and no others.
pub proof fn law_prompt_is_charged_its_requests(
    events: &[SessionEvent],
    source: SourceName,
    list: Vec<(PromptKey, NormalizedUsage)>,
    k: int,
) -> (r: (Seq<int>, Seq<UsageView>))
    requires
        call_ensures(attribute_usage_to_prompts, (events, &source), list),
        0 <= k < list@.len(),
    ensures
        are_bearers(events@, source, list@[k].0.0, list@[k].0.1@, r.0, r.1),
        r.0.len() > 0,
        forall|a: int, read: UsageView| #[trigger]
            bears(events@, source, a, list@[k].0.0, list@[k].0.1@, read) ==> is_among(
                events@,
                r.0,
                a,
            ),
        is_sum(list@[k].1@, r.1),
        r.1.len() == 1 ==> list@[k].1@ == r.1[0],
{
    lemma_all_bearers(events@, source, list@[k].0.0, list@[k].0.1@)
}

/// A prompt that one request alone is to be charged to is charged that request, and exactly
/// what it measures.
pub proof fn law_request_is_charged_to_its_prompt(
    events: &[SessionEvent],
    source: SourceName,
    list: Vec<(PromptKey, NormalizedUsage)>,
    a: int,
    ts: i64,
    prompt: Seq<char>,
    read: UsageView,
)
    requires
        call_ensures(attribute_usage_to_prompts, (events, &source), list),
        bears(events@, source, a, ts, prompt, read),
        forall|b: int, other: UsageView| #[trigger]
            bears(events@, source, b, ts, prompt, other) ==> request_name(events@[b])
                == request_name(events@[a]),
    ensures
        exists|k: int|
            0 <= k < list@.len() && (#[trigger] list@[k]).0.0 == ts && list@[k].0.1@ == prompt
                && usage::is_same_usage(list@[k].1@, read),
{
    let (rows, reads) = lemma_lone_bearer(events@, source, a, ts, prompt, read);
    lemma_listed(list@, attribution::session_charges(events@, source@), ts, prompt, reads[0]);
}

/// Where one request alone is to be charged to a prompt, that is what the prompt is charged.
proof fn lemma_lone_bearer(
    events: Seq<SessionEvent>,
    source: SourceName,
    a: int,
    ts: i64,
    prompt: Seq<char>,
    read: UsageView,
) -> (r: (Seq<int>, Seq<UsageView>))
    requires
        bears(events, source, a, ts, prompt, read),
        forall|b: int, other: UsageView| #[trigger]
            bears(events, source, b, ts, prompt, other) ==> request_name(events[b])
                == request_name(events[a]),
    ensures
        r.1.len() == 1,
        usage::is_same_usage(r.1[0], read),
        attribution::prompt_total(attribution::session_charges(events, source@), ts, prompt)
            == Some(Some(r.1[0])),
{
    let (rows, reads) = lemma_all_bearers(events, source, ts, prompt);
    assert(is_among(events, rows, a));
    if rows.len() > 1 {
        assert(bears(events, source, rows[0], ts, prompt, reads[0]));
        assert(bears(events, source, rows[1], ts, prompt, reads[1]));
        assert(request_name(events[rows[0]]) != request_name(events[rows[1]]));
    }
    assert(bears(events, source, rows[0], ts, prompt, reads[0]));
    assert(is_reply(events, rows[0]));
    assert(concurs(events, source, rows[0], ts, prompt, read));
    assert(measures(events, source, rows[0], reads[0]));
    (rows, reads)
}

proof fn lemma_listed(
    list: Seq<(PromptKey, NormalizedUsage)>,
    charges: Seq<ChargeView>,
    ts: i64,
    prompt: Seq<char>,
    total: UsageView,
)
    requires
        attribution::attributes(list, charges),
        attribution::prompt_total(charges, ts, prompt) == Some(Some(total)),
    ensures
        exists|k: int|
            0 <= k < list.len() && (#[trigger] list[k]).0.0 == ts && list[k].0.1@ == prompt
                && list[k].1@ == total,
{
    let k = choose|k: int|
        0 <= k < list.len() && (#[trigger] list[k]).0.0 == ts && list[k].0.1@ == prompt;
    assert(attribution::prompt_total(charges, list[k].0.0, list[k].0.1@) == Some(Some(list[k].1@)));
}

/// What is charged is charged to a human turn that a response is owed to. Where that
/// response names a parent, its chain of parents ends at the turn. Where it names none, the
/// session is one of Codex, the turn is the latest before the response, and no other turn
/// stands between the two.
pub proof fn law_charge_goes_to_the_owner(
    events: &[SessionEvent],
    source: SourceName,
    list: Vec<(PromptKey, NormalizedUsage)>,
    k: int,
) -> (r: (int, int))
    requires
        call_ensures(attribute_usage_to_prompts, (events, &source), list),
        0 <= k < list@.len(),
    ensures
        ({
            let (a, u) = r;
            &&& is_reply(events@, a)
            &&& holds(events@, u)
            &&& is_turn(events@[u])
            &&& events@[u].ts_ms == list@[k].0.0
            &&& words(events@, u) == list@[k].0.1@
            &&& events@[a].parent_id is Some ==> exists|path: Seq<int>| #[trigger]
                leads(events@, path, a, u)
            &&& events@[a].parent_id is None ==> {
                &&& source.kind == Some(Source::Codex)
                &&& events@[u].ts_ms < events@[a].ts_ms
                &&& forall|j: int|
                    0 <= j < events@.len() && j != u && is_turn(#[trigger] events@[j])
                        ==> events@[j].ts_ms < events@[u].ts_ms || events@[j].ts_ms
                        > events@[a].ts_ms
            }
        }),
{
    let (rows, reads) = law_prompt_is_charged_its_requests(events, source, list, k);
    let a = rows[0];
    assert(bears(events@, source, rows[0], list@[k].0.0, list@[k].0.1@, reads[0]));
    let u = choose|u: int| #[trigger] owed(events@, source, a, u);
    assert(concurs(events@, source, a, list@[k].0.0, list@[k].0.1@, reads[0]));
    (a, u)
}

/// In a session of Codex without parents, every charge is one to the latest human turn:
/// some response follows the prompt that it is charged to, and no human turn of the session
/// stands after the prompt and not after the response.
pub proof fn law_no_turn_between_prompt_and_response(
    events: &[SessionEvent],
    source: SourceName,
    list: Vec<(PromptKey, NormalizedUsage)>,
    k: int,
)
    requires
        call_ensures(attribute_usage_to_prompts, (events, &source), list),
        0 <= k < list@.len(),
        forall|i: int| 0 <= i < events@.len() ==> (#[trigger] events@[i]).parent_id is None,
    ensures
        source.kind == Some(Source::Codex),
        exists|a: int|
            0 <= a < events@.len() && (#[trigger] events@[a]).role@ == "assistant"@
                && list@[k].0.0 < events@[a].ts_ms && forall|j: int|
                0 <= j < events@.len() && is_turn(#[trigger] events@[j]) ==> events@[j].ts_ms
                    <= list@[k].0.0 || events@[j].ts_ms > events@[a].ts_ms,
{
    let (a, u) = law_charge_goes_to_the_owner(events, source, list, k);
    assert(events@[a].parent_id is None);
    assert(events@[a].role@ == "assistant"@);
}

/// No prompt is listed twice.
pub proof fn law_prompt_is_listed_once(
    events: &[SessionEvent],
    source: SourceName,
    list: Vec<(PromptKey, NormalizedUsage)>,
    i: int,
    j: int,
)
    requires
        call_ensures(attribute_usage_to_prompts, (events, &source), list),
        0 <= i < j < list@.len(),
    ensures
        list@[i].0.0 != list@[j].0.0 || list@[i].0.1@ != list@[j].0.1@,
{
}

} // verus!
