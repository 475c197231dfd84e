//! How the events of a session make up its messages.
//!
//! Each law speaks of one call of [`group_messages`]: of the events that go in, and of the
//! messages and blocks that come out.
use crate::messages;
use crate::messages::{group_messages, Block, BlockKind, Message, Role};
use crate::session_store::{Source, SourceName};
use crate::store::SessionEvent;
use crate::text;
use crate::usage::{normalize_usage_str, NormalizedUsage, UsageError};
use vstd::prelude::*;
use vstd::string::*;

verus! {

/// Whether two events name the same message.
pub open spec fn of_one_message(a: SessionEvent, b: SessionEvent) -> bool {
    &&& a.message_id is Some
    &&& b.message_id is Some
    &&& a.message_id->0@ == b.message_id->0@
}

/// Whether some lists of places gather all events: each place is on one list, the lists are
/// in order, and so are the places of each; two places share a list exactly where their
/// events name the same message; and the lists come in the order of their first events.
pub open spec fn gathers(events: Seq<SessionEvent>, rows: Seq<Seq<int>>) -> bool {
    &&& forall|k: int| 0 <= k < rows.len() ==> (#[trigger] rows[k]).len() > 0
    &&& forall|k: int, x: int|
        0 <= k < rows.len() && 0 <= x < rows[k].len() ==> 0 <= #[trigger] rows[k][x] < events.len()
    &&& forall|k: int, x: int, y: int|
        0 <= k < rows.len() && 0 <= x < y < rows[k].len() ==> #[trigger] rows[k][x]
            < #[trigger] rows[k][y] && of_one_message(events[rows[k][x]], events[rows[k][y]])
    &&& forall|k: int, l: int|
        0 <= k < l < rows.len() ==> (#[trigger] rows[k])[0] < (#[trigger] rows[l])[0]
    &&& forall|i: int| 0 <= i < events.len() ==> #[trigger] is_gathered(rows, i)
    &&& forall|k: int, l: int, x: int, y: int|
        0 <= k < l < rows.len() && 0 <= x < rows[k].len() && 0 <= y < rows[l].len()
            ==> #[trigger] rows[k][x] != #[trigger] rows[l][y] && !of_one_message(
            events[rows[k][x]],
            events[rows[l][y]],
        )
}

/// Whether a place is on one of some lists.
pub open spec fn is_gathered(rows: Seq<Seq<int>>, i: int) -> bool {
    exists|k: int, x: int|
        0 <= k < rows.len() && 0 <= x < rows[k].len() && #[trigger] rows[k][x] == i
}

/// Whether a block shows an event: its text only where text was asked for, and its size in
/// either case.
pub open spec fn shows(
    block: Block,
    event: SessionEvent,
    size: Option<i64>,
    include_text: bool,
) -> bool {
    &&& block.event_uid@ == event.event_uid@
    &&& block.role == Role::User <==> event.role@ == "user"@
    &&& block.role == Role::ToolResult <==> event.role@ == "tool_result"@
    &&& block.kind == BlockKind::Thinking <==> event.kind@ == "thinking"@
    &&& block.kind == BlockKind::ToolUse <==> event.kind@ == "tool_use"@
    &&& block.kind == BlockKind::ToolResult <==> event.kind@ == "tool_result"@
    &&& include_text ==> block.text == event.text
    &&& !include_text ==> block.text is None
    &&& block.text_bytes == size
    &&& block.tool_use_id == event.tool_use_id
    &&& block.raw_kind == event.raw_kind
    &&& block.ts_ms == event.ts_ms
    &&& block.control is Some ==> block.control == event.control_kind
}

/// Whether a value is the first that some events have of a field.
pub open spec fn is_first_value(
    value: Option<String>,
    events: Seq<SessionEvent>,
    places: Seq<int>,
    field: spec_fn(SessionEvent) -> Option<String>,
) -> bool {
    match value {
        None => forall|x: int| 0 <= x < places.len() ==> field(events[#[trigger] places[x]]) is None,
        Some(_) => exists|x: int|
            0 <= x < places.len() && field(events[#[trigger] places[x]]) == value && forall|y: int|
                0 <= y < x ==> field(events[#[trigger] places[y]]) is None,
    }
}

/// Whether a message is told of some events: what it is is told of the first, and each of
/// them is one block.
pub open spec fn is_of(
    message: Message,
    events: Seq<SessionEvent>,
    sizes: Seq<Option<i64>>,
    include_text: bool,
    places: Seq<int>,
) -> bool {
    let first = events[places[0]];
    &&& message.message_id == first.message_id
    &&& message.role == Role::User <==> first.role@ == "user"@
    &&& message.role == Role::ToolResult <==> first.role@ == "tool_result"@
    &&& message.ts_ms == first.ts_ms
    &&& message.parent_id == first.parent_id
    &&& message.project == first.project
    &&& message.project_key == first.project_key
    &&& message.cwd == first.cwd
    &&& message.git_branch == first.git_branch
    &&& message.is_sidechain is Some <==> first.is_sidechain is Some
    &&& message.is_sidechain == Some(true) <==> first.is_sidechain is Some && first.is_sidechain->0
        != 0
    &&& message.is_meta == Some(true) <==> first.is_meta is Some && first.is_meta->0 != 0
    &&& is_first_value(message.model, events, places, |e: SessionEvent| e.model)
    &&& is_first_value(message.provider, events, places, |e: SessionEvent| e.provider)
    &&& is_first_value(message.request_id, events, places, |e: SessionEvent| e.request_id)
    &&& is_first_value(message.stop_reason, events, places, |e: SessionEvent| e.stop_reason)
    &&& is_first_value(message.turn_id, events, places, |e: SessionEvent| e.turn_id)
    &&& is_first_value(message.token_json, events, places, |e: SessionEvent| e.token_json)
    &&& message.blocks@.len() == places.len()
    &&& forall|x: int|
        0 <= x < places.len() ==> shows(
            #[trigger] message.blocks@[x],
            events[places[x]],
            if 0 <= places[x] < sizes.len() {
                sizes[places[x]]
            } else {
                None
            },
            include_text,
        )
}

proof fn lemma_first_value(
    events: Seq<SessionEvent>,
    places: Seq<int>,
    field: spec_fn(SessionEvent) -> Option<String>,
)
    ensures
        is_first_value(
            messages::first_present(events, places, field),
            events,
            places,
            field,
        ),
    decreases places.len(),
{
    if places.len() > 0 {
        let rest = places.drop_last();
        lemma_first_value(events, rest, field);
        let found = messages::first_present(events, places, field);
        match messages::first_present(events, rest, field) {
            Some(value) => {
                let x = choose|x: int|
                    0 <= x < rest.len() && field(events[#[trigger] rest[x]]) == Some(value)
                        && forall|y: int|
                        0 <= y < x ==> field(events[#[trigger] rest[y]]) is None;
                assert(places[x] == rest[x]);
                assert forall|y: int| 0 <= y < x implies field(events[#[trigger] places[y]]) is None by {
                    assert(rest[y] == places[y]);
                }
            },
            None => {
                assert forall|y: int| 0 <= y < rest.len() implies field(
                    events[#[trigger] places[y]],
                ) is None by {
                    assert(rest[y] == places[y]);
                }
                if found is Some {
                    assert(field(events[places[places.len() - 1]]) == found);
                }
            },
        }
    }
}

proof fn lemma_parts(events: Seq<SessionEvent>, start: int, n: int)
    requires
        0 <= start,
        n <= events.len(),
    ensures
        ({
            let places = messages::parts(events, start, n);
            &&& forall|x: int|
                0 <= x < places.len() ==> 0 <= #[trigger] places[x] < n && messages::is_part(
                    events,
                    start,
                    places[x],
                )
            &&& forall|x: int, y: int|
                0 <= x < y < places.len() ==> #[trigger] places[x] < #[trigger] places[y]
            &&& forall|i: int|
                0 <= i < n && #[trigger] messages::is_part(events, start, i) ==> places.contains(i)
        }),
    decreases n,
{
    if n > 0 {
        lemma_parts(events, start, n - 1);
        let before = messages::parts(events, start, n - 1);
        let all = messages::parts(events, start, n);
        assert forall|i: int|
            0 <= i < n && #[trigger] messages::is_part(events, start, i) implies all.contains(i) by {
            if i < n - 1 {
                let x = choose|x: int| 0 <= x < before.len() && before[x] == i;
                assert(all[x] == i);
            } else {
                assert(all[before.len() as int] == i);
            }
        }
    }
}

proof fn lemma_openings(events: Seq<SessionEvent>, n: int)
    requires
        0 <= n <= events.len(),
    ensures
        ({
            let starts = messages::openings(events, n);
            &&& forall|k: int|
                0 <= k < starts.len() ==> 0 <= #[trigger] starts[k] < n && messages::opens(
                    events,
                    starts[k],
                )
            &&& forall|k: int, l: int|
                0 <= k < l < starts.len() ==> #[trigger] starts[k] < #[trigger] starts[l]
            &&& forall|i: int|
                0 <= i < n && #[trigger] messages::opens(events, i) ==> starts.contains(i)
        }),
    decreases n,
{
    if n > 0 {
        lemma_openings(events, n - 1);
        let before = messages::openings(events, n - 1);
        let all = messages::openings(events, n);
        assert forall|i: int|
            0 <= i < n && #[trigger] messages::opens(events, i) implies all.contains(i) by {
            if i < n - 1 {
                let x = choose|x: int| 0 <= x < before.len() && before[x] == i;
                assert(all[x] == i);
            } else {
                assert(all[before.len() as int] == i);
            }
        }
    }
}

/// The event that opens the message of an event.
proof fn lemma_opener(events: Seq<SessionEvent>, i: int) -> (s: int)
    requires
        0 <= i < events.len(),
    ensures
        0 <= s <= i,
        messages::opens(events, s),
        messages::is_part(events, s, i),
    decreases i,
{
    if messages::opens(events, i) {
        i
    } else {
        let j = choose|j: int|
            0 <= j < i && text::opt_view((#[trigger] events[j]).message_id) == text::opt_view(
                events[i].message_id,
            );
        lemma_opener(events, j)
    }
}

spec fn lists(events: Seq<SessionEvent>) -> Seq<Seq<int>> {
    let n = events.len() as int;
    let starts = messages::openings(events, n);
    Seq::new(starts.len(), |k: int| messages::parts(events, starts[k], n))
}

proof fn lemma_gathered(events: Seq<SessionEvent>)
    ensures
        gathers(events, lists(events)),
        forall|k: int|
            0 <= k < lists(events).len() ==> (#[trigger] lists(events)[k])[0]
                == messages::openings(events, events.len() as int)[k],
{
    let n = events.len() as int;
    let starts = messages::openings(events, n);
    let rows = lists(events);
    lemma_openings(events, n);
    assert forall|k: int| 0 <= k < rows.len() implies (#[trigger] rows[k]).len() > 0 && rows[k][0]
        == starts[k] by {
        lemma_parts(events, starts[k], n);
        assert(messages::is_part(events, starts[k], starts[k]));
        assert(rows[k].contains(starts[k]));
        let x = choose|x: int| 0 <= x < rows[k].len() && rows[k][x] == starts[k];
        if x > 0 {
            assert(rows[k][0] < rows[k][x]);
            assert(messages::is_part(events, starts[k], rows[k][0]));
        }
    }
    assert forall|k: int, x: int|
        0 <= k < rows.len() && 0 <= x < rows[k].len() implies 0 <= #[trigger] rows[k][x]
        < events.len() by {
        lemma_parts(events, starts[k], n);
    }
    assert forall|k: int, x: int, y: int|
        0 <= k < rows.len() && 0 <= x < y < rows[k].len() implies #[trigger] rows[k][x]
        < #[trigger] rows[k][y] && of_one_message(events[rows[k][x]], events[rows[k][y]]) by {
        lemma_parts(events, starts[k], n);
        assert(messages::is_part(events, starts[k], rows[k][x]));
        assert(messages::is_part(events, starts[k], rows[k][y]));
    }
    assert forall|k: int, l: int| 0 <= k < l < rows.len() implies (#[trigger] rows[k])[0] < (
    #[trigger] rows[l])[0] by {
        assert(starts[k] < starts[l]);
    }
    assert forall|i: int| 0 <= i < events.len() implies #[trigger] is_gathered(rows, i) by {
        let s = lemma_opener(events, i);
        assert(starts.contains(s));
        let k = choose|k: int| 0 <= k < starts.len() && starts[k] == s;
        lemma_parts(events, s, n);
        assert(rows[k].contains(i));
        let x = choose|x: int| 0 <= x < rows[k].len() && rows[k][x] == i;
        assert(rows[k][x] == i);
    }
    assert forall|k: int, l: int, x: int, y: int|
        0 <= k < l < rows.len() && 0 <= x < rows[k].len() && 0 <= y < rows[l].len() implies (
    #[trigger] rows[k][x]) != (#[trigger] rows[l][y]) && !of_one_message(
        events[rows[k][x]],
        events[rows[l][y]],
    ) by {
        lemma_parts(events, starts[k], n);
        lemma_parts(events, starts[l], n);
        let a = rows[k][x];
        let b = rows[l][y];
        assert(messages::is_part(events, starts[k], a));
        assert(messages::is_part(events, starts[l], b));
        assert(starts[k] < starts[l]);
        assert(messages::opens(events, starts[l]));
        if a == b || of_one_message(events[a], events[b]) {
            assert(text::opt_view(events[starts[k]].message_id) == text::opt_view(
                events[starts[l]].message_id,
            ));
        }
    }
}

/// The messages of a session gather its events: every event is one block of one message,
/// events share a message exactly where they name the same one, and the messages and their
/// blocks come in the order of the events. What a message is is told of its first event,
/// and a value that the first lacks of the next that has it.
pub proof fn law_messages_gather_the_events(
    source: Source,
    events: &[SessionEvent],
    sizes: &[Option<i64>],
    controls: Vec<String>,
    include_text: bool,
    list: Vec<Message>,
) -> (rows: Seq<Seq<int>>)
    requires
        call_ensures(group_messages, (source, events, sizes, &controls, include_text), list),
    ensures
        rows.len() == list@.len(),
        gathers(events@, rows),
        forall|k: int|
            0 <= k < list@.len() ==> is_of(
                #[trigger] list@[k],
                events@,
                sizes@,
                include_text,
                rows[k],
            ),
{
    let rows = lists(events@);
    let n = events@.len() as int;
    let starts = messages::openings(events@, n);
    lemma_gathered(events@);
    assert forall|k: int| 0 <= k < list@.len() implies is_of(
        #[trigger] list@[k],
        events@,
        sizes@,
        include_text,
        rows[k],
    ) by {
        assert(messages::is_message(
            list@[k],
            source,
            events@,
            sizes@,
            text::views(controls@),
            include_text,
            messages::parts(events@, starts[k], n),
        ));
        assert(rows[k] == messages::parts(events@, starts[k], n));
        lemma_is_of(source, events@, sizes@, text::views(controls@), include_text, list@[k], rows[k]);
    }
    rows
}

proof fn lemma_roles()
    ensures
        "user"@ != "tool_result"@,
        "thinking"@ != "tool_use"@,
        "thinking"@ != "tool_result"@,
        "tool_use"@ != "tool_result"@,
{
    reveal_strlit("user");
    reveal_strlit("tool_result");
    reveal_strlit("tool_use");
    reveal_strlit("thinking");
    assert("user"@.len() != "tool_result"@.len());
    assert("tool_use"@.len() != "tool_result"@.len());
    assert("thinking"@[1] != "tool_use"@[1]);
    assert("thinking"@[1] != "tool_result"@[1]);
}

/// Whether some events carry two usages that differ.
pub open spec fn usages_differ(events: Seq<SessionEvent>, places: Seq<int>) -> bool {
    exists|x: int, y: int|
        0 <= x < places.len() && 0 <= y < places.len() && events[#[trigger] places[x]].token_json
            is Some && events[#[trigger] places[y]].token_json is Some
            && events[places[x]].token_json->0@ != events[places[y]].token_json->0@
}

/// The usage of a message is what its events carry: nothing where none does, none at all
/// where two copies differ, and otherwise what the one copy is read as.
pub proof fn law_message_usage_is_what_its_events_carry(
    source: Source,
    events: &[SessionEvent],
    sizes: &[Option<i64>],
    controls: Vec<String>,
    include_text: bool,
    list: Vec<Message>,
    k: int,
    name: SourceName,
    raw: &str,
    read: Result<Option<NormalizedUsage>, UsageError>,
) -> (places: Seq<int>)
    requires
        call_ensures(group_messages, (source, events, sizes, &controls, include_text), list),
        0 <= k < list@.len(),
        name.kind == Some(source),
        name.name@.len() == 0,
        call_ensures(normalize_usage_str, (&name, raw), read),
    ensures
        is_of(list@[k], events@, sizes@, include_text, places),
        list@[k].token_json is None ==> list@[k].usage is None && list@[k].usage_error is None,
        usages_differ(events@, places) ==> list@[k].usage is None && list@[k].usage_error is Some
            && list@[k].usage_error->0@ == "ambiguous-usage-copies"@,
        list@[k].token_json is Some && list@[k].token_json->0@ == raw@ && !usages_differ(
            events@,
            places,
        ) ==> match read {
            Ok(Some(usage)) => list@[k].usage is Some && list@[k].usage->0@ == usage@
                && list@[k].usage_error is None,
            Ok(None) => list@[k].usage is None && list@[k].usage_error is None,
            Err(_) => list@[k].usage is None && list@[k].usage_error is Some,
        },
{
    let n = events@.len() as int;
    let starts = messages::openings(events@, n);
    let places = messages::parts(events@, starts[k], n);
    assert(messages::is_message(
        list@[k],
        source,
        events@,
        sizes@,
        text::views(controls@),
        include_text,
        places,
    ));
    lemma_first_value(events@, places, |e: SessionEvent| e.token_json);
    lemma_is_of(source, events@, sizes@, text::views(controls@), include_text, list@[k], places);
    assert(name.name@ =~= Seq::<char>::empty());
    let found = messages::first_present(events@, places, |e: SessionEvent| e.token_json);
    if found is Some {
        let json = found->0@;
        assert(messages::copies_agree(events@, places, json) == !usages_differ(events@, places))
            by {
            let x = choose|x: int|
                0 <= x < places.len() && (#[trigger] events@[places[x]]).token_json == found;
            let at = places[x];
            if !messages::copies_agree(events@, places, json) {
                let y = choose|y: int|
                    0 <= y < places.len() && (#[trigger] events@[places[y]]).token_json is Some
                        && events@[places[y]].token_json->0@ != json;
                let to = places[y];
                assert(usages_differ(events@, places));
            }
            if usages_differ(events@, places) {
                let (y, z) = choose|y: int, z: int|
                    0 <= y < places.len() && 0 <= z < places.len()
                        && events@[#[trigger] places[y]].token_json is Some
                        && events@[#[trigger] places[z]].token_json is Some
                        && events@[places[y]].token_json->0@ != events@[places[z]].token_json->0@;
                assert(events@[places[y]].token_json->0@ != json || events@[places[z]].token_json->0@
                    != json);
            }
        }
    } else if usages_differ(events@, places) {
        let (y, z) = choose|y: int, z: int|
            0 <= y < places.len() && 0 <= z < places.len()
                && events@[#[trigger] places[y]].token_json is Some
                && events@[#[trigger] places[z]].token_json is Some
                && events@[places[y]].token_json->0@ != events@[places[z]].token_json->0@;
        let at = places[y];
        assert(false);
    }
    places
}

proof fn lemma_is_of(
    source: Source,
    events: Seq<SessionEvent>,
    sizes: Seq<Option<i64>>,
    controls: Seq<Seq<char>>,
    include_text: bool,
    message: Message,
    places: Seq<int>,
)
    requires
        messages::is_message(message, source, events, sizes, controls, include_text, places),
    ensures
        is_of(message, events, sizes, include_text, places),
{
    lemma_first_value(events, places, |e: SessionEvent| e.model);
    lemma_first_value(events, places, |e: SessionEvent| e.provider);
    lemma_first_value(events, places, |e: SessionEvent| e.request_id);
    lemma_first_value(events, places, |e: SessionEvent| e.stop_reason);
    lemma_first_value(events, places, |e: SessionEvent| e.turn_id);
    lemma_first_value(events, places, |e: SessionEvent| e.token_json);
    lemma_roles();
    assert forall|x: int| 0 <= x < places.len() implies shows(
        #[trigger] message.blocks@[x],
        events[places[x]],
        if 0 <= places[x] < sizes.len() {
            sizes[places[x]]
        } else {
            None
        },
        include_text,
    ) by {
        assert(messages::is_block(
            message.blocks@[x],
            events[places[x]],
            messages::size_at(sizes, places[x]),
            controls,
            include_text,
        ));
    }
}

} // verus!
