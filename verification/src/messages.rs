//! The messages of a session, gathered from its events.
//!
//! A message is every event that shares a message id, in order; an event without
//! one is a message of its own. One source copies a message's usage onto every
//! block. The copies are expected to agree; where they do not, the message does
//! not choose one.
use crate::session_store::{NameView, Source, SourceName};
use crate::session_usage;
use crate::store::SessionEvent;
use crate::text;
use crate::text::{contains_text, same_text};
use crate::usage;
use crate::usage::{normalize_usage_str, NormalizedUsage, UsageView};
use vstd::prelude::*;
use vstd::string::*;

verus! {

/// Who a message came from.
#[derive(Debug, Clone, Copy, PartialEq, Eq, Hash, Structural)]
#[non_exhaustive]
pub enum Role {
    User,
    Assistant,
    /// A record of its own that holds the result of a tool.
    ToolResult,
}

/// The role that a stored word names; an unknown one is the assistant's.
pub open spec fn role_of(value: Seq<char>) -> Role {
    if value == "user"@ {
        Role::User
    } else if value == "tool_result"@ {
        Role::ToolResult
    } else {
        Role::Assistant
    }
}

impl Role {
    /// The role that a stored word names.
    pub fn parse(value: &str) -> (r: Self)
        ensures
            r == role_of(value@),
    {
        if same_text(value, "user") {
            Role::User
        } else if same_text(value, "tool_result") {
            Role::ToolResult
        } else {
            Role::Assistant
        }
    }
}

/// What a block carries.
#[derive(Debug, Clone, Copy, PartialEq, Eq, Hash, Structural)]
#[non_exhaustive]
pub enum BlockKind {
    Text,
    Thinking,
    ToolUse,
    ToolResult,
}

/// The kind that a stored word names; an unknown one is text.
pub open spec fn block_kind_of(value: Seq<char>) -> BlockKind {
    if value == "thinking"@ {
        BlockKind::Thinking
    } else if value == "tool_use"@ {
        BlockKind::ToolUse
    } else if value == "tool_result"@ {
        BlockKind::ToolResult
    } else {
        BlockKind::Text
    }
}

impl BlockKind {
    /// The kind that a stored word names.
    pub fn parse(value: &str) -> (r: Self)
        ensures
            r == block_kind_of(value@),
    {
        if same_text(value, "thinking") {
            BlockKind::Thinking
        } else if same_text(value, "tool_use") {
            BlockKind::ToolUse
        } else if same_text(value, "tool_result") {
            BlockKind::ToolResult
        } else {
            BlockKind::Text
        }
    }
}

/// One content block of a message.
#[derive(Debug)]
#[non_exhaustive]
pub struct Block {
    pub event_uid: String,
    pub role: Role,
    pub kind: BlockKind,
    /// `None` where no text was asked for or none is stored.
    pub text: Option<String>,
    /// The length of the stored text in bytes, whether or not it is carried.
    pub text_bytes: Option<i64>,
    pub tool_use_id: Option<String>,
    pub raw_kind: Option<String>,
    /// Why a block in the user's role is no prompt.
    pub control: Option<String>,
    pub ts_ms: i64,
}

/// One message.
#[derive(Debug)]
#[non_exhaustive]
pub struct Message {
    pub message_id: Option<String>,
    pub role: Role,
    pub ts_ms: i64,
    pub parent_id: Option<String>,
    pub model: Option<String>,
    pub provider: Option<String>,
    pub request_id: Option<String>,
    pub provider_message_id: Option<String>,
    pub request_span: Option<String>,
    pub stop_reason: Option<String>,
    pub turn_id: Option<String>,
    pub agent_version: Option<String>,
    pub is_sidechain: Option<bool>,
    pub is_meta: Option<bool>,
    pub project: Option<String>,
    pub project_key: Option<String>,
    pub cwd: Option<String>,
    pub git_branch: Option<String>,
    /// The usage of the message, normalized once.
    pub usage: Option<NormalizedUsage>,
    pub usage_error: Option<String>,
    pub blocks: Vec<Block>,
    /// The stored usage, as it is.
    pub token_json: Option<String>,
}

/// A stored flag.
pub open spec fn flag_of(value: Option<i64>) -> Option<bool> {
    match value {
        Some(n) => Some(n != 0),
        None => None,
    }
}

/// A stored flag.
pub fn flag(value: Option<i64>) -> (r: Option<bool>)
    ensures
        r == flag_of(value),
{
    match value {
        Some(n) => Some(n != 0),
        None => None,
    }
}

/// The size at a place, where there is one.
pub open spec fn size_at(sizes: Seq<Option<i64>>, i: int) -> Option<i64> {
    if 0 <= i < sizes.len() {
        sizes[i]
    } else {
        None
    }
}

/// A text where text was asked for.
pub open spec fn shown(text: Option<String>, include_text: bool) -> Option<String> {
    if include_text {
        text
    } else {
        None
    }
}

/// A text where text was asked for.
pub fn show(text: &Option<String>, include_text: bool) -> (r: Option<String>)
    ensures
        r == shown(*text, include_text),
{
    if include_text {
        text.clone()
    } else {
        None
    }
}

/// Whether a block is what an event tells.
pub open spec fn is_block(
    block: Block,
    event: SessionEvent,
    size: Option<i64>,
    controls: Seq<Seq<char>>,
    include_text: bool,
) -> bool {
    &&& block.event_uid == event.event_uid
    &&& block.role == role_of(event.role@)
    &&& block.kind == block_kind_of(event.kind@)
    &&& block.text == shown(event.text, include_text)
    &&& block.text_bytes == size
    &&& block.tool_use_id == event.tool_use_id
    &&& block.raw_kind == event.raw_kind
    &&& block.control == match event.control_kind {
        Some(kind) => if controls.contains(kind@) {
            Some(kind)
        } else {
            None
        },
        None => None,
    }
    &&& block.ts_ms == event.ts_ms
}

/// Whether an event opens a message: it has no message id, or the first of its.
pub open spec fn opens(events: Seq<SessionEvent>, i: int) -> bool {
    events[i].message_id is None || forall|j: int|
        0 <= j < i ==> text::opt_view((#[trigger] events[j]).message_id) != text::opt_view(
            events[i].message_id,
        )
}

/// The events that open a message, among the first.
pub open spec fn openings(events: Seq<SessionEvent>, n: int) -> Seq<int>
    decreases n,
{
    if n <= 0 {
        Seq::empty()
    } else if opens(events, n - 1) {
        openings(events, n - 1).push(n - 1)
    } else {
        openings(events, n - 1)
    }
}

/// Whether an event is part of the message that another opens.
pub open spec fn is_part(events: Seq<SessionEvent>, start: int, i: int) -> bool {
    i == start || (start < i && events[start].message_id is Some && text::opt_view(
        events[i].message_id,
    ) == text::opt_view(events[start].message_id))
}

/// The events of the message that one opens, among the first.
pub open spec fn parts(events: Seq<SessionEvent>, start: int, n: int) -> Seq<int>
    decreases n,
{
    if n <= 0 {
        Seq::empty()
    } else if is_part(events, start, n - 1) {
        parts(events, start, n - 1).push(n - 1)
    } else {
        parts(events, start, n - 1)
    }
}

/// The first value of a field that is present among some events.
pub open spec fn first_present(
    events: Seq<SessionEvent>,
    places: Seq<int>,
    field: spec_fn(SessionEvent) -> Option<String>,
) -> Option<String>
    decreases places.len(),
{
    if places.len() == 0 {
        None
    } else {
        match first_present(events, places.drop_last(), field) {
            Some(value) => Some(value),
            None => field(events[places.last()]),
        }
    }
}

/// Whether every usage text among some events is the same as one.
pub open spec fn copies_agree(events: Seq<SessionEvent>, places: Seq<int>, json: Seq<char>) -> bool {
    forall|k: int|
        0 <= k < places.len() && (#[trigger] events[places[k]]).token_json is Some
            ==> events[places[k]].token_json->0@ == json
}

/// The usage of a message, and the code of what is wrong with it.
pub open spec fn usage_of(source: Source, events: Seq<SessionEvent>, places: Seq<int>) -> (
    Option<UsageView>,
    Option<Seq<char>>,
) {
    match first_present(events, places, |e: SessionEvent| e.token_json) {
        None => (None, None),
        Some(json) => if !copies_agree(events, places, json@) {
            (None, Some("ambiguous-usage-copies"@))
        } else {
            normal_of(source, json@)
        },
    }
}

/// What a stored usage normalizes to, and the code of its error. The code does not tell
/// what the source is called.
pub open spec fn normal_of(source: Source, json: Seq<char>) -> (
    Option<UsageView>,
    Option<Seq<char>>,
) {
    match usage::normalized_text(NameView { name: Seq::empty(), kind: Some(source) }, json) {
        Ok(usage) => (usage, None),
        Err(error) => (None, Some(usage::usage_error_code(error))),
    }
}

/// Whether a message is what some of the events tell. The first of them opens it.
pub open spec fn is_message(
    message: Message,
    source: Source,
    events: Seq<SessionEvent>,
    sizes: Seq<Option<i64>>,
    controls: Seq<Seq<char>>,
    include_text: bool,
    places: Seq<int>,
) -> bool {
    let first = events[places[0]];
    &&& message.message_id == first.message_id
    &&& message.role == role_of(first.role@)
    &&& message.ts_ms == first.ts_ms
    &&& message.parent_id == first.parent_id
    &&& message.model == first_present(events, places, |e: SessionEvent| e.model)
    &&& message.provider == first_present(events, places, |e: SessionEvent| e.provider)
    &&& message.request_id == first_present(events, places, |e: SessionEvent| e.request_id)
    &&& message.provider_message_id == first_present(
        events,
        places,
        |e: SessionEvent| e.provider_message_id,
    )
    &&& message.request_span == first_present(events, places, |e: SessionEvent| e.request_span)
    &&& message.stop_reason == first_present(events, places, |e: SessionEvent| e.stop_reason)
    &&& message.turn_id == first_present(events, places, |e: SessionEvent| e.turn_id)
    &&& message.agent_version == first_present(events, places, |e: SessionEvent| e.agent_version)
    &&& message.is_sidechain == flag_of(first.is_sidechain)
    &&& message.is_meta == flag_of(first.is_meta)
    &&& message.project == first.project
    &&& message.project_key == first.project_key
    &&& message.cwd == first.cwd
    &&& message.git_branch == first.git_branch
    &&& (session_usage::usage_view(message.usage), text::opt_view(message.usage_error))
        == usage_of(source, events, places)
    &&& message.token_json == first_present(events, places, |e: SessionEvent| e.token_json)
    &&& message.blocks@.len() == places.len()
    &&& forall|k: int|
        0 <= k < places.len() ==> is_block(
            #[trigger] message.blocks@[k],
            events[places[k]],
            size_at(sizes, places[k]),
            controls,
            include_text,
        )
}

/// Whether some messages are those of the first events: one for each event that
/// opens one, in order.
pub open spec fn are_messages(
    messages: Seq<Message>,
    source: Source,
    events: Seq<SessionEvent>,
    sizes: Seq<Option<i64>>,
    controls: Seq<Seq<char>>,
    include_text: bool,
    n: int,
) -> bool {
    let starts = openings(events, n);
    &&& messages.len() == starts.len()
    &&& forall|k: int|
        0 <= k < starts.len() ==> is_message(
            #[trigger] messages[k],
            source,
            events,
            sizes,
            controls,
            include_text,
            parts(events, starts[k], n),
        )
}

fn block_of(
    event: &SessionEvent,
    size: Option<i64>,
    controls: &Vec<String>,
    include_text: bool,
) -> (r: Block)
    ensures
        is_block(r, *event, size, text::views(controls@), include_text),
{
    let control = match &event.control_kind {
        Some(kind) => if contains_text(controls, kind.as_str()) {
            Some(kind.clone())
        } else {
            None
        },
        None => None,
    };
    Block {
        event_uid: event.event_uid.clone(),
        role: Role::parse(event.role.as_str()),
        kind: BlockKind::parse(event.kind.as_str()),
        text: show(&event.text, include_text),
        text_bytes: size,
        tool_use_id: event.tool_use_id.clone(),
        raw_kind: event.raw_kind.clone(),
        control,
        ts_ms: event.ts_ms,
    }
}

fn normalize(source: Source, json: &str) -> (r: (Option<NormalizedUsage>, Option<String>))
    ensures
        (session_usage::usage_view(r.0), text::opt_view(r.1)) == normal_of(source, json@),
{
    let name = SourceName { name: String::new(), kind: Some(source) };
    assert(name@.name =~= Seq::<char>::empty());
    match normalize_usage_str(&name, json) {
        Ok(usage) => (usage, None),
        Err(error) => (None, Some(error.code().to_owned())),
    }
}

fn keep_first(slot: Option<String>, value: &Option<String>) -> (r: Option<String>)
    ensures
        r == if slot is Some {
            slot
        } else {
            *value
        },
{
    match slot {
        Some(have) => Some(have),
        None => value.clone(),
    }
}

proof fn lemma_first_push(
    events: Seq<SessionEvent>,
    places: Seq<int>,
    i: int,
    field: spec_fn(SessionEvent) -> Option<String>,
)
    ensures
        first_present(events, places.push(i), field) == match first_present(events, places, field) {
            Some(value) => Some(value),
            None => field(events[i]),
        },
{
    assert(places.push(i).drop_last() =~= places);
}

proof fn lemma_first_none(
    events: Seq<SessionEvent>,
    places: Seq<int>,
    field: spec_fn(SessionEvent) -> Option<String>,
    k: int,
)
    requires
        first_present(events, places, field) is None,
        0 <= k < places.len(),
    ensures
        field(events[places[k]]) is None,
    decreases places.len(),
{
    if k < places.len() - 1 {
        lemma_first_none(events, places.drop_last(), field, k);
    }
}

/// What one more event makes of the usage of a message.
proof fn lemma_usage_push(source: Source, events: Seq<SessionEvent>, places: Seq<int>, i: int)
    ensures
        ({
            let field = |e: SessionEvent| e.token_json;
            let have = first_present(events, places, field);
            let json = events[i].token_json;
            usage_of(source, events, places.push(i)) == match (have, json) {
                (None, Some(raw)) => normal_of(source, raw@),
                (Some(text), Some(raw)) => if text@ != raw@ {
                    (None, Some("ambiguous-usage-copies"@))
                } else {
                    usage_of(source, events, places)
                },
                _ => usage_of(source, events, places),
            }
        }),
{
    let field = |e: SessionEvent| e.token_json;
    let all = places.push(i);
    let have = first_present(events, places, field);
    lemma_first_push(events, places, i, field);
    assert(all[places.len() as int] == i);
    match have {
        None => {
            match events[i].token_json {
                Some(raw) => {
                    assert forall|k: int|
                        0 <= k < all.len() && (#[trigger] events[all[k]]).token_json is Some implies events[all[k]].token_json->0@
                        == raw@ by {
                        if k < places.len() {
                            lemma_first_none(events, places, field, k);
                            assert(field(events[places[k]]) is None);
                        }
                    }
                },
                None => {},
            }
        },
        Some(text) => {
            if copies_agree(events, places, text@) && (events[i].token_json is None
                || events[i].token_json->0@ == text@) {
                assert forall|k: int|
                    0 <= k < all.len() && (#[trigger] events[all[k]]).token_json is Some implies events[all[k]].token_json->0@
                    == text@ by {
                    if k < places.len() {
                        assert(events[places[k]].token_json is Some);
                    }
                }
                assert(copies_agree(events, all, text@));
            }
            if copies_agree(events, all, text@) {
                assert forall|k: int|
                    0 <= k < places.len() && (#[trigger] events[places[k]]).token_json is Some implies events[places[k]].token_json->0@
                    == text@ by {
                    assert(events[all[k]].token_json is Some);
                }
                assert(copies_agree(events, places, text@));
                assert(events[all[places.len() as int]] == events[i]);
            }
        },
    }
}

fn open_message(
    source: Source,
    event: &SessionEvent,
    block: Block,
    Ghost(events): Ghost<Seq<SessionEvent>>,
    Ghost(sizes): Ghost<Seq<Option<i64>>>,
    Ghost(controls): Ghost<Seq<Seq<char>>>,
    Ghost(include_text): Ghost<bool>,
    Ghost(i): Ghost<int>,
) -> (r: Message)
    requires
        0 <= i < events.len(),
        events[i] == *event,
        is_block(block, *event, size_at(sizes, i), controls, include_text),
    ensures
        is_message(r, source, events, sizes, controls, include_text, seq![i]),
{
    let (usage, usage_error) = match &event.token_json {
        Some(json) => normalize(source, json.as_str()),
        None => (None, None),
    };
    let mut blocks: Vec<Block> = Vec::new();
    blocks.push(block);
    proof {
        let none = Seq::<int>::empty();
        assert(none.push(i) =~= seq![i]);
        lemma_usage_push(source, events, none, i);
        lemma_first_push(events, none, i, |e: SessionEvent| e.model);
        lemma_first_push(events, none, i, |e: SessionEvent| e.provider);
        lemma_first_push(events, none, i, |e: SessionEvent| e.request_id);
        lemma_first_push(events, none, i, |e: SessionEvent| e.provider_message_id);
        lemma_first_push(events, none, i, |e: SessionEvent| e.request_span);
        lemma_first_push(events, none, i, |e: SessionEvent| e.stop_reason);
        lemma_first_push(events, none, i, |e: SessionEvent| e.turn_id);
        lemma_first_push(events, none, i, |e: SessionEvent| e.agent_version);
        lemma_first_push(events, none, i, |e: SessionEvent| e.token_json);
    }
    Message {
        message_id: event.message_id.clone(),
        role: Role::parse(event.role.as_str()),
        ts_ms: event.ts_ms,
        parent_id: event.parent_id.clone(),
        model: event.model.clone(),
        provider: event.provider.clone(),
        request_id: event.request_id.clone(),
        provider_message_id: event.provider_message_id.clone(),
        request_span: event.request_span.clone(),
        stop_reason: event.stop_reason.clone(),
        turn_id: event.turn_id.clone(),
        agent_version: event.agent_version.clone(),
        is_sidechain: flag(event.is_sidechain),
        is_meta: flag(event.is_meta),
        project: event.project.clone(),
        project_key: event.project_key.clone(),
        cwd: event.cwd.clone(),
        git_branch: event.git_branch.clone(),
        usage,
        usage_error,
        blocks,
        token_json: event.token_json.clone(),
    }
}

fn join_message(
    source: Source,
    message: Message,
    event: &SessionEvent,
    block: Block,
    Ghost(events): Ghost<Seq<SessionEvent>>,
    Ghost(sizes): Ghost<Seq<Option<i64>>>,
    Ghost(controls): Ghost<Seq<Seq<char>>>,
    Ghost(include_text): Ghost<bool>,
    Ghost(places): Ghost<Seq<int>>,
    Ghost(i): Ghost<int>,
) -> (r: Message)
    requires
        0 <= i < events.len(),
        events[i] == *event,
        places.len() > 0,
        is_block(block, *event, size_at(sizes, i), controls, include_text),
        is_message(message, source, events, sizes, controls, include_text, places),
    ensures
        is_message(r, source, events, sizes, controls, include_text, places.push(i)),
{
    let mut message = message;
    let ghost before = message.blocks@;
    message.blocks.push(block);
    match (&message.token_json, &event.token_json) {
        (None, Some(json)) => {
            let (usage, usage_error) = normalize(source, json.as_str());
            message.usage = usage;
            message.usage_error = usage_error;
            message.token_json = Some(json.clone());
        },
        (Some(have), Some(json)) => {
            if !same_text(have.as_str(), json.as_str()) {
                message.usage = None;
                message.usage_error = Some("ambiguous-usage-copies".to_owned());
            }
        },
        _ => {},
    }
    message.model = keep_first(message.model, &event.model);
    message.provider = keep_first(message.provider, &event.provider);
    message.request_id = keep_first(message.request_id, &event.request_id);
    message.provider_message_id = keep_first(
        message.provider_message_id,
        &event.provider_message_id,
    );
    message.request_span = keep_first(message.request_span, &event.request_span);
    message.stop_reason = keep_first(message.stop_reason, &event.stop_reason);
    message.turn_id = keep_first(message.turn_id, &event.turn_id);
    message.agent_version = keep_first(message.agent_version, &event.agent_version);
    proof {
        lemma_usage_push(source, events, places, i);
        lemma_first_push(events, places, i, |e: SessionEvent| e.model);
        lemma_first_push(events, places, i, |e: SessionEvent| e.provider);
        lemma_first_push(events, places, i, |e: SessionEvent| e.request_id);
        lemma_first_push(events, places, i, |e: SessionEvent| e.provider_message_id);
        lemma_first_push(events, places, i, |e: SessionEvent| e.request_span);
        lemma_first_push(events, places, i, |e: SessionEvent| e.stop_reason);
        lemma_first_push(events, places, i, |e: SessionEvent| e.turn_id);
        lemma_first_push(events, places, i, |e: SessionEvent| e.agent_version);
        lemma_first_push(events, places, i, |e: SessionEvent| e.token_json);
        let all = places.push(i);
        assert(all[0] == places[0]);
        assert forall|k: int| 0 <= k < all.len() implies is_block(
            #[trigger] message.blocks@[k],
            events[all[k]],
            size_at(sizes, all[k]),
            controls,
            include_text,
        ) by {
            if k < places.len() {
                assert(message.blocks@[k] == before[k]);
                assert(all[k] == places[k]);
            }
        }
    }
    message
}

proof fn lemma_openings(events: Seq<SessionEvent>, n: int)
    requires
        0 <= n <= events.len(),
    ensures
        forall|k: int|
            0 <= k < openings(events, n).len() ==> 0 <= (#[trigger] openings(events, n)[k]) < n
                && opens(events, openings(events, n)[k]),
        forall|a: int, b: int|
            0 <= a < b < openings(events, n).len() ==> #[trigger] openings(events, n)[a]
                < #[trigger] openings(events, n)[b],
    decreases n,
{
    if n > 0 {
        lemma_openings(events, n - 1);
        let before = openings(events, n - 1);
        let all = openings(events, n);
        assert forall|k: int| 0 <= k < all.len() implies 0 <= (#[trigger] all[k]) < n && opens(
            events,
            all[k],
        ) by {
            if k < before.len() {
                assert(all[k] == before[k]);
            }
        }
        assert forall|a: int, b: int| 0 <= a < b < all.len() implies #[trigger] all[a]
            < #[trigger] all[b] by {
            assert(all[a] == before[a]);
            if b < before.len() {
                assert(all[b] == before[b]);
            }
        }
    }
}

/// Every message id among the first events is that of one that opens a message.
proof fn lemma_opened(events: Seq<SessionEvent>, n: int, j: int) -> (k: int)
    requires
        0 <= j < n <= events.len(),
        events[j].message_id is Some,
    ensures
        0 <= k < openings(events, n).len(),
        text::opt_view(events[openings(events, n)[k]].message_id) == text::opt_view(
            events[j].message_id,
        ),
    decreases n,
{
    let before = openings(events, n - 1);
    let all = openings(events, n);
    if j < n - 1 {
        let k = lemma_opened(events, n - 1, j);
        assert(all[k] == before[k]);
        k
    } else if opens(events, j) {
        assert(all[before.len() as int] == j);
        before.len() as int
    } else {
        let i = choose|i: int|
            0 <= i < j && text::opt_view((#[trigger] events[i]).message_id) == text::opt_view(
                events[j].message_id,
            );
        let k = lemma_opened(events, n - 1, i);
        assert(all[k] == before[k]);
        k
    }
}

proof fn lemma_parts_start(events: Seq<SessionEvent>, start: int, n: int)
    requires
        0 <= start,
    ensures
        n <= start ==> parts(events, start, n).len() == 0,
        n > start ==> parts(events, start, n).len() > 0,
        n == start + 1 ==> parts(events, start, n) == seq![start],
    decreases n,
{
    if n > 0 {
        lemma_parts_start(events, start, n - 1);
        if n == start + 1 {
            assert(parts(events, start, n) =~= seq![start]);
        }
    }
}

fn find_message(messages: &Vec<Message>, id: &str) -> (r: usize)
    ensures
        r <= messages@.len(),
        forall|k: int|
            0 <= k < r ==> text::opt_view((#[trigger] messages@[k]).message_id) != Some(id@),
        r < messages@.len() ==> text::opt_view(messages@[r as int].message_id) == Some(id@),
{
    let mut i: usize = 0;
    while i < messages.len()
        invariant
            i <= messages.len(),
            forall|k: int|
                0 <= k < i ==> text::opt_view((#[trigger] messages@[k]).message_id) != Some(id@),
        decreases messages.len() - i,
    {
        if let Some(own) = &messages[i].message_id {
            if same_text(own.as_str(), id) {
                return i;
            }
        }
        i = i + 1;
    }
    i
}

/// The messages of a session, gathered from its events and the sizes of their
/// texts.
pub fn group_messages(
    source: Source,
    events: &[SessionEvent],
    sizes: &[Option<i64>],
    controls: &Vec<String>,
    include_text: bool,
) -> (r: Vec<Message>)
    ensures
        are_messages(
            r@,
            source,
            events@,
            sizes@,
            text::views(controls@),
            include_text,
            events@.len() as int,
        ),
{
    let mut messages: Vec<Message> = Vec::new();
    let mut i: usize = 0;
    let ghost kinds = text::views(controls@);
    while i < events.len()
        invariant
            i <= events.len(),
            kinds == text::views(controls@),
            are_messages(messages@, source, events@, sizes@, kinds, include_text, i as int),
        decreases events.len() - i,
    {
        let event = &events[i];
        let size = if i < sizes.len() {
            sizes[i]
        } else {
            None
        };
        let block = block_of(event, size, controls, include_text);
        let ghost starts = openings(events@, i as int);
        let ghost next = openings(events@, i + 1);
        let ghost before = messages@;
        let at: usize = match &event.message_id {
            Some(id) => find_message(&messages, id.as_str()),
            None => messages.len(),
        };
        proof {
            lemma_openings(events@, i as int);
            assert forall|k: int| 0 <= k < starts.len() implies (#[trigger] before[k]).message_id
                == events@[starts[k]].message_id by {
                lemma_parts_start(events@, starts[k], i as int);
                lemma_part_first(events@, starts[k], i as int);
                let p = parts(events@, starts[k], i as int);
                assert(is_message(
                    before[k],
                    source,
                    events@,
                    sizes@,
                    kinds,
                    include_text,
                    p,
                ));
            }
        }
        if at < messages.len() {
            proof {
                assert(before[at as int].message_id == events@[starts[at as int]].message_id);
                assert(!opens(events@, i as int)) by {
                    let s = starts[at as int];
                    assert(0 <= s < i);
                    assert(text::opt_view(events@[s].message_id) == text::opt_view(
                        event.message_id,
                    ));
                }
                assert(next == starts);
            }
            let message = messages.remove(at);
            let ghost places = parts(events@, starts[at as int], i as int);
            proof {
                lemma_parts_start(events@, starts[at as int], i as int);
                assert(message == before[at as int]);
            }
            let joined = join_message(
                source,
                message,
                event,
                block,
                Ghost(events@),
                Ghost(sizes@),
                Ghost(kinds),
                Ghost(include_text),
                Ghost(places),
                Ghost(i as int),
            );
            let ghost view = joined;
            messages.insert(at, joined);
            proof {
                assert(messages@ =~= before.update(at as int, view));
                assert forall|k: int| 0 <= k < next.len() implies is_message(
                    #[trigger] messages@[k],
                    source,
                    events@,
                    sizes@,
                    kinds,
                    include_text,
                    parts(events@, next[k], i + 1),
                ) by {
                    if k == at {
                        assert(is_part(events@, starts[at as int], i as int));
                    } else {
                        assert(messages@[k] == before[k]);
                        assert(!is_part(events@, starts[k], i as int)) by {
                            // Two messages with one id would both be its first.
                            let a = starts[k];
                            let b = starts[at as int];
                            if is_part(events@, a, i as int) {
                                assert(text::opt_view(events@[a].message_id) == text::opt_view(
                                    events@[b].message_id,
                                ));
                                if k < at {
                                    assert(a < b);
                                    assert(opens(events@, b));
                                } else {
                                    assert(b < a);
                                    assert(opens(events@, a));
                                }
                            }
                        }
                    }
                }
            }
        } else {
            proof {
                assert(opens(events@, i as int)) by {
                    if event.message_id is Some {
                        assert forall|j: int| 0 <= j < i implies text::opt_view(
                            (#[trigger] events@[j]).message_id,
                        ) != text::opt_view(event.message_id) by {
                            if text::opt_view(events@[j].message_id) == text::opt_view(
                                event.message_id,
                            ) {
                                let k = lemma_opened(events@, i as int, j);
                                assert(before[k].message_id == events@[starts[k]].message_id);
                            }
                        }
                    }
                }
                assert(next == starts.push(i as int));
            }
            let opened = open_message(
                source,
                event,
                block,
                Ghost(events@),
                Ghost(sizes@),
                Ghost(kinds),
                Ghost(include_text),
                Ghost(i as int),
            );
            messages.push(opened);
            proof {
                assert forall|k: int| 0 <= k < next.len() implies is_message(
                    #[trigger] messages@[k],
                    source,
                    events@,
                    sizes@,
                    kinds,
                    include_text,
                    parts(events@, next[k], i + 1),
                ) by {
                    if k < starts.len() {
                        assert(next[k] == starts[k]);
                        assert(messages@[k] == before[k]);
                        assert(!is_part(events@, starts[k], i as int)) by {
                            if is_part(events@, starts[k], i as int) {
                                assert(before[k].message_id == events@[starts[k]].message_id);
                            }
                        }
                    } else {
                        lemma_parts_start(events@, i as int, i + 1);
                    }
                }
            }
        }
        i = i + 1;
    }
    messages
}

proof fn lemma_part_first(events: Seq<SessionEvent>, start: int, n: int)
    requires
        0 <= start < n,
    ensures
        parts(events, start, n).len() > 0,
        parts(events, start, n)[0] == start,
    decreases n,
{
    if n == start + 1 {
        lemma_parts_start(events, start, n);
    } else {
        lemma_part_first(events, start, n - 1);
    }
}

/// Every event is a block of one message: the one that the first event with its
/// message id opens.
pub proof fn law_every_event_is_a_block_of_one_message(events: Seq<SessionEvent>, i: int)
    requires
        0 <= i < events.len(),
    ensures
        exists|k: int|
            0 <= k < openings(events, events.len() as int).len() && parts(
                events,
                #[trigger] openings(events, events.len() as int)[k],
                events.len() as int,
            ).contains(i),
        forall|a: int, b: int|
            0 <= a < b < openings(events, events.len() as int).len() ==> !(parts(
                events,
                #[trigger] openings(events, events.len() as int)[a],
                events.len() as int,
            ).contains(i) && parts(
                events,
                #[trigger] openings(events, events.len() as int)[b],
                events.len() as int,
            ).contains(i)),
{
    let n = events.len() as int;
    let starts = openings(events, n);
    lemma_openings(events, n);
    if events[i].message_id is Some {
        let k = lemma_opened(events, n, i);
        let s = starts[k];
        if s > i {
            assert(opens(events, s));
            assert(false);
        }
        lemma_part_listed(events, s, i, n);
    } else {
        lemma_own_opening(events, i, n);
        let k = choose|k: int| 0 <= k < starts.len() && starts[k] == i;
        lemma_part_listed(events, i, i, n);
        assert(starts[k] == i);
    }
    assert forall|a: int, b: int| 0 <= a < b < starts.len() implies !(parts(
        events,
        #[trigger] starts[a],
        n,
    ).contains(i) && parts(events, #[trigger] starts[b], n).contains(i)) by {
        if parts(events, starts[a], n).contains(i) && parts(events, starts[b], n).contains(i) {
            lemma_listed_part(events, starts[a], i, n);
            lemma_listed_part(events, starts[b], i, n);
            assert(starts[a] < starts[b]);
            assert(opens(events, starts[b]));
        }
    }
}

proof fn lemma_own_opening(events: Seq<SessionEvent>, i: int, n: int)
    requires
        0 <= i < n <= events.len(),
        opens(events, i),
    ensures
        openings(events, n).contains(i),
    decreases n,
{
    let before = openings(events, n - 1);
    let all = openings(events, n);
    if i == n - 1 {
        assert(all[before.len() as int] == i);
    } else {
        lemma_own_opening(events, i, n - 1);
        let k = choose|k: int| 0 <= k < before.len() && before[k] == i;
        assert(all[k] == i);
    }
}

proof fn lemma_part_listed(events: Seq<SessionEvent>, start: int, i: int, n: int)
    requires
        0 <= i < n,
        is_part(events, start, i),
    ensures
        parts(events, start, n).contains(i),
    decreases n,
{
    let before = parts(events, start, n - 1);
    let all = parts(events, start, n);
    if i == n - 1 {
        assert(all[before.len() as int] == i);
    } else {
        lemma_part_listed(events, start, i, n - 1);
        let k = choose|k: int| 0 <= k < before.len() && before[k] == i;
        assert(all[k] == i);
    }
}

proof fn lemma_listed_part(events: Seq<SessionEvent>, start: int, i: int, n: int)
    requires
        parts(events, start, n).contains(i),
    ensures
        is_part(events, start, i),
        i < n,
    decreases n,
{
    let before = parts(events, start, n - 1);
    let all = parts(events, start, n);
    let k = choose|k: int| 0 <= k < all.len() && all[k] == i;
    if n > 0 && !(is_part(events, start, n - 1) && i == n - 1) {
        assert(before[k] == i);
        lemma_listed_part(events, start, i, n - 1);
    }
}

} // verus!
