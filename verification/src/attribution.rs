//! Which prompt each measured model request is charged to.
//!
//! Attribution refuses: wherever the evidence does not establish which prompt
//! owns a response, the response contributes nothing rather than being charged
//! to a plausible neighbour.
use crate::json;
use crate::json::JsonValue;
use crate::session_store::{NameView, Source, SourceName};
use crate::store::SessionEvent;
use crate::text;
use crate::text::{concat2, same_text, trim};
use crate::usage;
use crate::usage::{NormalizedUsage, UsageView};
use vstd::prelude::*;
use vstd::string::*;

verus! {

/// The request an event belongs to: the provider's own request id first, then
/// its message id, then the span it was delimited by, and the stored record id
/// only as a last resort. The namespaces are kept apart by a prefix.
pub open spec fn request_of(event: SessionEvent) -> Seq<char> {
    match text::non_empty(text::opt_view(event.request_id)) {
        Some(id) => "request-id:"@ + id,
        None => match text::non_empty(text::opt_view(event.provider_message_id)) {
            Some(id) => "provider-message-id:"@ + id,
            None => match text::non_empty(text::opt_view(event.request_span)) {
                Some(span) => "request-span:"@ + span,
                None => "record-id:"@ + match text::opt_view(event.message_id) {
                    Some(id) => id,
                    None => Seq::empty(),
                },
            },
        },
    }
}

fn present(value: &Option<String>) -> (r: Option<&str>)
    ensures
        match r {
            Some(s) => text::non_empty(text::opt_view(*value)) == Some(s@),
            None => text::non_empty(text::opt_view(*value)) is None,
        },
{
    match value {
        Some(s) => if s.as_str().is_empty() {
            None
        } else {
            Some(s.as_str())
        },
        None => None,
    }
}

/// The key of the request an event belongs to.
pub fn request_key(event: &SessionEvent) -> (r: String)
    ensures
        r@ == request_of(*event),
{
    if let Some(id) = present(&event.request_id) {
        return concat2("request-id:", id);
    }
    if let Some(id) = present(&event.provider_message_id) {
        return concat2("provider-message-id:", id);
    }
    if let Some(span) = present(&event.request_span) {
        return concat2("request-span:", span);
    }
    match &event.message_id {
        Some(id) => concat2("record-id:", id.as_str()),
        None => {
            let key = "record-id:".to_owned();
            assert(key@ + Seq::<char>::empty() =~= key@);
            key
        },
    }
}

/// What one record says about the cost of the request it belongs to.
pub enum RecordUsage {
    /// No usage on this record, or usage carrying no recognized counter.
    Absent,
    /// Usage is present and cannot be turned into a measurement.
    Unreadable,
    Measured(NormalizedUsage),
}

/// The view of [`RecordUsage`].
pub enum RecordView {
    Absent,
    Unreadable,
    Measured(UsageView),
}

impl View for RecordUsage {
    type V = RecordView;

    open spec fn view(&self) -> RecordView {
        match *self {
            RecordUsage::Absent => RecordView::Absent,
            RecordUsage::Unreadable => RecordView::Unreadable,
            RecordUsage::Measured(u) => RecordView::Measured(u@),
        }
    }
}

/// One message, rebuilt from the rows that carry it.
pub struct UsageMessage {
    pub id: String,
    pub parent: Option<String>,
    pub ts: i64,
    pub role: String,
    pub text: String,
    pub usage: RecordUsage,
    pub request: String,
}

/// The view of a message.
pub struct MessageView {
    pub id: Seq<char>,
    pub parent: Option<Seq<char>>,
    pub ts: i64,
    pub role: Seq<char>,
    pub text: Seq<char>,
    pub usage: RecordView,
    pub request: Seq<char>,
}

impl View for UsageMessage {
    type V = MessageView;

    open spec fn view(&self) -> MessageView {
        MessageView {
            id: self.id@,
            parent: text::opt_view(self.parent),
            ts: self.ts,
            role: self.role@,
            text: self.text@,
            usage: self.usage@,
            request: self.request@,
        }
    }
}

/// The views of a list of messages.
pub open spec fn message_views(messages: Seq<UsageMessage>) -> Seq<MessageView> {
    messages.map_values(|m: UsageMessage| m@)
}

/// The id of an event's record, where it has a non-empty one.
pub open spec fn id_of(event: SessionEvent) -> Option<Seq<char>> {
    text::non_empty(text::opt_view(event.message_id))
}

/// The token texts of the rows of a record.
pub open spec fn token_texts(events: Seq<SessionEvent>, id: Seq<char>) -> Seq<Seq<char>>
    decreases events.len(),
{
    if events.len() == 0 {
        Seq::empty()
    } else {
        let rest = token_texts(events.drop_last(), id);
        match text::opt_view(events.last().token_json) {
            Some(raw) => if id_of(events.last()) == Some(id) {
                rest.push(raw)
            } else {
                rest
            },
            None => rest,
        }
    }
}

/// The non-blank texts of the text rows of a record, trimmed.
pub open spec fn prompt_texts(events: Seq<SessionEvent>, id: Seq<char>) -> Seq<Seq<char>>
    decreases events.len(),
{
    if events.len() == 0 {
        Seq::empty()
    } else {
        let rest = prompt_texts(events.drop_last(), id);
        let last = events.last();
        match text::opt_view(last.text) {
            Some(t) => if id_of(last) == Some(id) && last.kind@ == "text"@ && text::trimmed(t).len()
                > 0 {
                rest.push(text::trimmed(t))
            } else {
                rest
            },
            None => rest,
        }
    }
}

/// Whether two rows can be rows of one record.
pub open spec fn same_record(a: SessionEvent, b: SessionEvent) -> bool {
    &&& a.ts_ms == b.ts_ms
    &&& a.role@ == b.role@
    &&& text::opt_view(a.parent_id) == text::opt_view(b.parent_id)
    &&& request_of(a) == request_of(b)
}

/// What the token texts of a record say. One record reports one measurement, so
/// texts that do not decode, or disagree, are no evidence of any reading.
pub open spec fn record_usage(source: NameView, raws: Seq<Seq<char>>) -> RecordView {
    if raws.len() == 0 {
        RecordView::Absent
    } else if exists|i: int| 0 <= i < raws.len() && #[trigger] json::decoded(raws[i]) is Err {
        RecordView::Unreadable
    } else if exists|i: int|
        0 <= i < raws.len() && !json::json_equal(
            #[trigger] json::decoded(raws[i])->Ok_0,
            json::decoded(raws[0])->Ok_0,
        ) {
        RecordView::Unreadable
    } else {
        match usage::normalized(source, json::decoded(raws[0])->Ok_0) {
            Ok(Some(u)) => if usage::is_zero_usage(u) {
                RecordView::Absent
            } else {
                RecordView::Measured(u)
            },
            Ok(None) => RecordView::Absent,
            Err(_) => RecordView::Unreadable,
        }
    }
}

/// The message of the record whose first row is row `at`; nothing where a later
/// row of the record disagrees with the first.
pub open spec fn message_at(events: Seq<SessionEvent>, source: NameView, at: int) -> Option<
    MessageView,
> {
    let first = events[at];
    let id = id_of(first)->0;
    if exists|j: int|
        0 <= j < events.len() && id_of(#[trigger] events[j]) == Some(id) && !same_record(
            events[j],
            first,
        ) {
        None
    } else {
        Some(
            MessageView {
                id,
                parent: text::opt_view(first.parent_id),
                ts: first.ts_ms,
                role: first.role@,
                text: text::joined(prompt_texts(events, id), "\n"@),
                usage: record_usage(source, token_texts(events, id)),
                request: request_of(first),
            },
        )
    }
}

/// Whether row `at` is the first of its record.
pub open spec fn starts_record(events: Seq<SessionEvent>, at: int) -> bool {
    &&& id_of(events[at]) is Some
    &&& forall|j: int| 0 <= j < at ==> id_of(#[trigger] events[j]) != id_of(events[at])
}

/// The messages of the records that start in the first `n` rows, in order.
pub open spec fn messages_of(events: Seq<SessionEvent>, source: NameView, n: int) -> Seq<
    MessageView,
>
    decreases n,
{
    if n <= 0 {
        Seq::empty()
    } else {
        let rest = messages_of(events, source, n - 1);
        if starts_record(events, n - 1) {
            match message_at(events, source, n - 1) {
                Some(m) => rest.push(m),
                None => rest,
            }
        } else {
            rest
        }
    }
}

/// The message with an id.
pub open spec fn message_with(messages: Seq<MessageView>, id: Seq<char>) -> Option<MessageView>
    decreases messages.len(),
{
    if messages.len() == 0 {
        None
    } else if messages[0].id == id {
        Some(messages[0])
    } else {
        message_with(messages.drop_first(), id)
    }
}

/// The user message that owns a response, found by its chain of parents in at
/// most `steps` steps. A broken chain has no owner.
pub open spec fn owner_by_parent(
    messages: Seq<MessageView>,
    message: MessageView,
    steps: nat,
) -> Option<MessageView>
    decreases steps,
{
    if message.role == "user"@ {
        Some(message)
    } else if steps == 0 {
        None
    } else {
        match message.parent {
            None => None,
            Some(parent) => match message_with(messages, parent) {
                None => None,
                Some(next) => owner_by_parent(messages, next, (steps - 1) as nat),
            },
        }
    }
}

/// Whether an event is a human turn.
pub open spec fn is_user(event: SessionEvent) -> bool {
    event.role@ == "user"@
}

/// Whether row `i` is the one latest human turn before a moment: no turn stands
/// at the moment itself, and none ties with row `i` or follows it.
pub open spec fn sole_latest_turn(events: Seq<SessionEvent>, ts: i64, i: int) -> bool {
    &&& 0 <= i < events.len()
    &&& is_user(events[i])
    &&& events[i].ts_ms < ts
    &&& forall|j: int|
        0 <= j < events.len() && j != i && is_user(#[trigger] events[j]) ==> events[j].ts_ms
            < events[i].ts_ms || events[j].ts_ms > ts
}

/// Whether every human turn has a known time.
pub open spec fn times_known(events: Seq<SessionEvent>) -> bool {
    forall|j: int| 0 <= j < events.len() && is_user(#[trigger] events[j]) ==> events[j].ts_ms > 0
}

/// The user message that owns a response by time: the one latest human turn
/// before it.
pub open spec fn owner_by_time(
    events: Seq<SessionEvent>,
    messages: Seq<MessageView>,
    ts: i64,
) -> Option<MessageView> {
    if exists|i: int| sole_latest_turn(events, ts, i) {
        let i = choose|i: int| sole_latest_turn(events, ts, i);
        match text::opt_view(events[i].message_id) {
            Some(id) => message_with(messages, id),
            None => None,
        }
    } else {
        None
    }
}

/// The user message that owns a response. Parent links decide where there are
/// any; only Codex, which records none, falls back to time.
pub open spec fn owner_of(
    events: Seq<SessionEvent>,
    source: NameView,
    messages: Seq<MessageView>,
    message: MessageView,
) -> Option<MessageView> {
    if message.parent is Some {
        owner_by_parent(messages, message, messages.len())
    } else if source.kind == Some(Source::Codex) && message.ts > 0 && times_known(events) {
        owner_by_time(events, messages, message.ts)
    } else {
        None
    }
}

/// How many of the first `n` messages are user messages with a time and text.
pub open spec fn prompt_count(
    messages: Seq<MessageView>,
    ts: i64,
    prompt: Seq<char>,
    n: int,
) -> nat
    decreases n,
{
    if n <= 0 {
        0
    } else {
        let m = messages[n - 1];
        let rest = prompt_count(messages, ts, prompt, n - 1);
        if m.role == "user"@ && m.ts == ts && m.text == prompt {
            rest + 1
        } else {
            rest
        }
    }
}

/// What one record contributes to its request.
pub enum ContributionView {
    /// Nothing that bears on the request's cost or its owner.
    Silent,
    /// The prompt this record is owed to, with no measurement of its own.
    Owned(i64, Seq<char>),
    /// A measurement and the prompt it is owed to.
    Measured(i64, Seq<char>, UsageView),
    /// Evidence that cannot be reconciled.
    Contradictory,
}

/// What a message contributes to the request it belongs to.
pub open spec fn contribution(
    events: Seq<SessionEvent>,
    source: NameView,
    messages: Seq<MessageView>,
    message: MessageView,
) -> ContributionView {
    if message.usage is Unreadable {
        ContributionView::Contradictory
    } else {
        match owner_of(events, source, messages, message) {
            None => ContributionView::Silent,
            Some(owner) => if owner.text.len() == 0 || prompt_count(
                messages,
                owner.ts,
                owner.text,
                messages.len() as int,
            ) != 1 {
                ContributionView::Contradictory
            } else {
                match message.usage {
                    RecordView::Measured(u) => ContributionView::Measured(owner.ts, owner.text, u),
                    _ => ContributionView::Owned(owner.ts, owner.text),
                }
            },
        }
    }
}

/// What is known of a request.
pub enum RequestView {
    /// No record said anything of it yet.
    Unseen,
    /// Its records contradict each other.
    Refused,
    /// Its prompt, and its measurement once a record carried one.
    Open(i64, Seq<char>, Option<UsageView>),
}

/// A request after one more contribution. The records of one request must agree
/// on the measurement and on the prompt.
pub open spec fn merged_request(state: RequestView, next: ContributionView) -> RequestView {
    match next {
        ContributionView::Silent => state,
        ContributionView::Contradictory => RequestView::Refused,
        ContributionView::Owned(ts, prompt) => match state {
            RequestView::Unseen => RequestView::Open(ts, prompt, None),
            RequestView::Refused => RequestView::Refused,
            RequestView::Open(ts0, prompt0, seen) => if ts0 == ts && prompt0 == prompt {
                state
            } else {
                RequestView::Refused
            },
        },
        ContributionView::Measured(ts, prompt, u) => match state {
            RequestView::Unseen => RequestView::Open(ts, prompt, Some(u)),
            RequestView::Refused => RequestView::Refused,
            RequestView::Open(ts0, prompt0, seen) => if ts0 == ts && prompt0 == prompt && (
            seen is None || usage::is_same_usage(seen->0, u)) {
                RequestView::Open(ts, prompt, Some(u))
            } else {
                RequestView::Refused
            },
        },
    }
}

/// Whether a message is a response that belongs to a request.
pub open spec fn answers(message: MessageView, request: Seq<char>) -> bool {
    message.role == "assistant"@ && message.request == request
}

/// What the first `n` messages say of a request.
pub open spec fn request_state(
    events: Seq<SessionEvent>,
    source: NameView,
    messages: Seq<MessageView>,
    request: Seq<char>,
    n: int,
) -> RequestView
    decreases n,
{
    if n <= 0 {
        RequestView::Unseen
    } else {
        let rest = request_state(events, source, messages, request, n - 1);
        if answers(messages[n - 1], request) {
            merged_request(rest, contribution(events, source, messages, messages[n - 1]))
        } else {
            rest
        }
    }
}

/// One measured request, charged to a prompt.
pub struct ChargeView {
    pub ts: i64,
    pub prompt: Seq<char>,
    pub usage: UsageView,
}

/// The charge of a request, where its records establish one.
pub open spec fn charge_of(state: RequestView) -> Option<ChargeView> {
    match state {
        RequestView::Open(ts, prompt, Some(usage)) => Some(ChargeView { ts, prompt, usage }),
        _ => None,
    }
}

/// Whether message `at` is the first response of its request.
pub open spec fn starts_request(messages: Seq<MessageView>, at: int) -> bool {
    &&& messages[at].role == "assistant"@
    &&& forall|j: int|
        0 <= j < at ==> !answers(#[trigger] messages[j], messages[at].request)
}

/// The charges of the requests that start in the first `n` messages, in order.
pub open spec fn charges_of(
    events: Seq<SessionEvent>,
    source: NameView,
    messages: Seq<MessageView>,
    n: int,
) -> Seq<ChargeView>
    decreases n,
{
    if n <= 0 {
        Seq::empty()
    } else {
        let rest = charges_of(events, source, messages, n - 1);
        if starts_request(messages, n - 1) {
            match charge_of(
                request_state(
                    events,
                    source,
                    messages,
                    messages[n - 1].request,
                    messages.len() as int,
                ),
            ) {
                Some(c) => rest.push(c),
                None => rest,
            }
        } else {
            rest
        }
    }
}

/// What the charges to one prompt add up to: nothing where there is none, and no
/// total where adding them overflows.
pub open spec fn prompt_total(charges: Seq<ChargeView>, ts: i64, prompt: Seq<char>) -> Option<
    Option<UsageView>,
>
    decreases charges.len(),
{
    if charges.len() == 0 {
        None
    } else {
        let rest = prompt_total(charges.drop_last(), ts, prompt);
        let last = charges.last();
        if last.ts == ts && last.prompt == prompt {
            match rest {
                None => Some(Some(last.usage)),
                Some(None) => Some(None),
                Some(Some(total)) => Some(usage::usage_sum(total, last.usage)),
            }
        } else {
            rest
        }
    }
}

/// The charges of a session's events.
pub open spec fn session_charges(events: Seq<SessionEvent>, source: NameView) -> Seq<ChargeView> {
    let messages = messages_of(events, source, events.len() as int);
    charges_of(events, source, messages, messages.len() as int)
}

fn record_id(event: &SessionEvent) -> (r: Option<&str>)
    ensures
        match r {
            Some(id) => id_of(*event) == Some(id@),
            None => id_of(*event) is None,
        },
{
    present(&event.message_id)
}

fn is_row_of(event: &SessionEvent, id: &str) -> (r: bool)
    ensures
        r == (id_of(*event) == Some(id@)),
{
    match record_id(event) {
        Some(other) => same_text(other, id),
        None => false,
    }
}

fn agrees(a: &SessionEvent, b: &SessionEvent) -> (r: bool)
    ensures
        r == same_record(*a, *b),
{
    a.ts_ms == b.ts_ms && same_text(a.role.as_str(), b.role.as_str()) && text::same_opt_text(
        &a.parent_id,
        &b.parent_id,
    ) && same_text(request_key(a).as_str(), request_key(b).as_str())
}

fn collect_tokens(events: &[SessionEvent], id: &str) -> (r: Vec<String>)
    ensures
        text::views(r@) == token_texts(events@, id@),
{
    let mut out: Vec<String> = Vec::new();
    let mut i: usize = 0;
    assert(text::views(out@) =~= token_texts(events@.take(0), id@));
    while i < events.len()
        invariant
            i <= events.len(),
            text::views(out@) == token_texts(events@.take(i as int), id@),
        decreases events.len() - i,
    {
        let event = &events[i];
        let ghost before = text::views(out@);
        assert(events@.take(i + 1).drop_last() =~= events@.take(i as int));
        assert(events@.take(i + 1).last() == *event);
        if let Some(raw) = &event.token_json {
            if is_row_of(event, id) {
                out.push(raw.clone());
                assert(text::views(out@) =~= before.push(raw@));
            }
        }
        i = i + 1;
    }
    assert(events@.take(events@.len() as int) =~= events@);
    out
}

fn collect_texts(events: &[SessionEvent], id: &str) -> (r: Vec<String>)
    ensures
        text::views(r@) == prompt_texts(events@, id@),
{
    let mut out: Vec<String> = Vec::new();
    let mut i: usize = 0;
    assert(text::views(out@) =~= prompt_texts(events@.take(0), id@));
    while i < events.len()
        invariant
            i <= events.len(),
            text::views(out@) == prompt_texts(events@.take(i as int), id@),
        decreases events.len() - i,
    {
        let event = &events[i];
        let ghost before = text::views(out@);
        assert(events@.take(i + 1).drop_last() =~= events@.take(i as int));
        assert(events@.take(i + 1).last() == *event);
        if let Some(t) = &event.text {
            let body = trim(t.as_str());
            if is_row_of(event, id) && same_text(event.kind.as_str(), "text") && !body.is_empty() {
                out.push(body.to_owned());
                assert(text::views(out@) =~= before.push(body@));
            }
        }
        i = i + 1;
    }
    assert(events@.take(events@.len() as int) =~= events@);
    out
}

fn read_record(source: &SourceName, raws: &Vec<String>) -> (r: RecordUsage)
    ensures
        r@ == record_usage(source@, text::views(raws@)),
{
    let ghost all = text::views(raws@);
    if raws.len() == 0 {
        return RecordUsage::Absent;
    }
    let mut values: Vec<JsonValue> = Vec::new();
    let mut i: usize = 0;
    while i < raws.len()
        invariant
            all == text::views(raws@),
            i <= raws.len(),
            values.len() == i,
            forall|j: int|
                0 <= j < i ==> #[trigger] json::decoded(all[j]) == Ok::<
                    json::JsonTree,
                    Seq<char>,
                >(values@[j]@),
        decreases raws.len() - i,
    {
        assert(all[i as int] == raws@[i as int]@);
        match json::decode(raws[i].as_str()) {
            Ok(value) => {
                values.push(value);
            },
            Err(_) => {
                assert(json::decoded(all[i as int]) is Err);
                return RecordUsage::Unreadable;
            },
        }
        i = i + 1;
    }
    let mut k: usize = 0;
    while k < values.len()
        invariant
            all == text::views(raws@),
            raws.len() > 0,
            values.len() == raws.len(),
            k <= values.len(),
            forall|j: int|
                0 <= j < values.len() ==> #[trigger] json::decoded(all[j]) == Ok::<
                    json::JsonTree,
                    Seq<char>,
                >(values@[j]@),
            forall|j: int| 0 <= j < k ==> json::json_equal(#[trigger] values@[j]@, values@[0]@),
        decreases values.len() - k,
    {
        if !json::same_value(&values[k], &values[0]) {
            assert(json::decoded(all[k as int])->Ok_0 == values@[k as int]@);
            assert(json::decoded(all[0])->Ok_0 == values@[0]@);
            assert(!json::json_equal(
                json::decoded(all[k as int])->Ok_0,
                json::decoded(all[0])->Ok_0,
            ));
            return RecordUsage::Unreadable;
        }
        k = k + 1;
    }
    proof {
        assert(forall|j: int|
            0 <= j < all.len() ==> !(#[trigger] json::decoded(all[j]) is Err));
        assert forall|j: int| 0 <= j < all.len() implies json::json_equal(
            #[trigger] json::decoded(all[j])->Ok_0,
            json::decoded(all[0])->Ok_0,
        ) by {
            assert(json::decoded(all[j])->Ok_0 == values@[j]@);
            assert(json::decoded(all[0])->Ok_0 == values@[0]@);
        }
        assert(json::decoded(all[0])->Ok_0 == values@[0]@);
    }
    match usage::normalize_usage(source, &values[0]) {
        Ok(Some(u)) => if u.is_zero() {
            RecordUsage::Absent
        } else {
            RecordUsage::Measured(u)
        },
        Ok(None) => RecordUsage::Absent,
        Err(_) => RecordUsage::Unreadable,
    }
}

fn build_message(events: &[SessionEvent], source: &SourceName, at: usize) -> (r: Option<UsageMessage>)
    requires
        at < events@.len(),
        id_of(events@[at as int]) is Some,
    ensures
        match r {
            Some(m) => message_at(events@, source@, at as int) == Some(m@),
            None => message_at(events@, source@, at as int) is None,
        },
{
    let first = &events[at];
    let id = match record_id(first) {
        Some(id) => id,
        None => return None,
    };
    let mut j: usize = 0;
    while j < events.len()
        invariant
            at < events.len(),
            *first == events@[at as int],
            id_of(*first) == Some(id@),
            j <= events.len(),
            forall|k: int|
                0 <= k < j && id_of(#[trigger] events@[k]) == Some(id@) ==> same_record(
                    events@[k],
                    *first,
                ),
        decreases events.len() - j,
    {
        if is_row_of(&events[j], id) && !agrees(&events[j], first) {
            return None;
        }
        j = j + 1;
    }
    let raws = collect_tokens(events, id);
    let texts = collect_texts(events, id);
    Some(
        UsageMessage {
            id: id.to_owned(),
            parent: first.parent_id.clone(),
            ts: first.ts_ms,
            role: first.role.clone(),
            text: text::join(&texts, "\n"),
            usage: read_record(source, &raws),
            request: request_key(first),
        },
    )
}

fn is_first_row(events: &[SessionEvent], at: usize) -> (r: bool)
    requires
        at < events@.len(),
    ensures
        r == starts_record(events@, at as int),
{
    let id = match record_id(&events[at]) {
        Some(id) => id,
        None => return false,
    };
    let mut j: usize = 0;
    while j < at
        invariant
            at < events.len(),
            id_of(events@[at as int]) == Some(id@),
            j <= at,
            forall|k: int| 0 <= k < j ==> id_of(#[trigger] events@[k]) != Some(id@),
        decreases at - j,
    {
        if is_row_of(&events[j], id) {
            return false;
        }
        j = j + 1;
    }
    true
}

fn collect_messages(events: &[SessionEvent], source: &SourceName) -> (r: Vec<UsageMessage>)
    ensures
        message_views(r@) == messages_of(events@, source@, events@.len() as int),
{
    let mut out: Vec<UsageMessage> = Vec::new();
    let mut i: usize = 0;
    assert(message_views(out@) =~= messages_of(events@, source@, 0));
    while i < events.len()
        invariant
            i <= events.len(),
            message_views(out@) == messages_of(events@, source@, i as int),
        decreases events.len() - i,
    {
        let ghost before = message_views(out@);
        if is_first_row(events, i) {
            if let Some(m) = build_message(events, source, i) {
                let ghost view = m@;
                out.push(m);
                assert(message_views(out@) =~= before.push(view));
            }
        }
        i = i + 1;
    }
    out
}

fn find_message(messages: &Vec<UsageMessage>, id: &str) -> (r: Option<usize>)
    ensures
        match r {
            Some(i) => i < messages@.len() && message_with(message_views(messages@), id@) == Some(
                messages@[i as int]@,
            ),
            None => message_with(message_views(messages@), id@) is None,
        },
{
    let ghost all = message_views(messages@);
    let mut i: usize = 0;
    assert(all.skip(0) =~= all);
    while i < messages.len()
        invariant
            all == message_views(messages@),
            i <= messages.len(),
            message_with(all, id@) == message_with(all.skip(i as int), id@),
        decreases messages.len() - i,
    {
        assert(all.skip(i as int)[0] == messages@[i as int]@);
        if same_text(messages[i].id.as_str(), id) {
            return Some(i);
        }
        assert(all.skip(i as int).drop_first() =~= all.skip(i + 1));
        i = i + 1;
    }
    None
}

fn parent_prompt(messages: &Vec<UsageMessage>, at: usize) -> (r: Option<usize>)
    requires
        at < messages@.len(),
    ensures
        match r {
            Some(i) => i < messages@.len() && owner_by_parent(
                message_views(messages@),
                messages@[at as int]@,
                messages@.len(),
            ) == Some(messages@[i as int]@),
            None => owner_by_parent(
                message_views(messages@),
                messages@[at as int]@,
                messages@.len(),
            ) is None,
        },
{
    let ghost all = message_views(messages@);
    let mut current: usize = at;
    let mut steps: usize = messages.len();
    loop
        invariant
            all == message_views(messages@),
            current < messages.len(),
            owner_by_parent(all, messages@[at as int]@, messages@.len()) == owner_by_parent(
                all,
                messages@[current as int]@,
                steps as nat,
            ),
        decreases steps,
    {
        if same_text(messages[current].role.as_str(), "user") {
            return Some(current);
        }
        if steps == 0 {
            return None;
        }
        match &messages[current].parent {
            None => {
                return None;
            },
            Some(parent) => {
                match find_message(messages, parent.as_str()) {
                    None => {
                        return None;
                    },
                    Some(next) => {
                        current = next;
                        steps = steps - 1;
                    },
                }
            },
        }
    }
}

fn latest_turn(events: &[SessionEvent], ts: i64) -> (r: Option<usize>)
    ensures
        match r {
            Some(i) => sole_latest_turn(events@, ts, i as int),
            None => forall|i: int| !sole_latest_turn(events@, ts, i),
        },
{
    let mut i: usize = 0;
    while i < events.len()
        invariant
            i <= events.len(),
            forall|k: int| 0 <= k < i ==> !sole_latest_turn(events@, ts, k),
        decreases events.len() - i,
    {
        if same_text(events[i].role.as_str(), "user") && events[i].ts_ms < ts {
            let mut sole = true;
            let mut j: usize = 0;
            while j < events.len()
                invariant
                    i < events.len(),
                    j <= events.len(),
                    sole == (forall|k: int|
                        0 <= k < j && k != i && is_user(#[trigger] events@[k]) ==> events@[k].ts_ms
                            < events@[i as int].ts_ms || events@[k].ts_ms > ts),
                decreases events.len() - j,
            {
                if j != i && same_text(events[j].role.as_str(), "user") && !(events[j].ts_ms
                    < events[i].ts_ms || events[j].ts_ms > ts) {
                    sole = false;
                    assert(is_user(events@[j as int]));
                }
                j = j + 1;
            }
            if sole {
                return Some(i);
            }
        }
        i = i + 1;
    }
    assert forall|k: int| !sole_latest_turn(events@, ts, k) by {
        if 0 <= k < events@.len() {
        }
    }
    None
}

proof fn lemma_sole_latest_is_unique(events: Seq<SessionEvent>, ts: i64, a: int, b: int)
    requires
        sole_latest_turn(events, ts, a),
        sole_latest_turn(events, ts, b),
    ensures
        a == b,
{
    if a != b {
        assert(is_user(events[a]) && is_user(events[b]));
    }
}

fn turns_have_times(events: &[SessionEvent]) -> (r: bool)
    ensures
        r == times_known(events@),
{
    let mut i: usize = 0;
    while i < events.len()
        invariant
            i <= events.len(),
            forall|k: int| 0 <= k < i && is_user(#[trigger] events@[k]) ==> events@[k].ts_ms > 0,
        decreases events.len() - i,
    {
        if same_text(events[i].role.as_str(), "user") && events[i].ts_ms <= 0 {
            assert(is_user(events@[i as int]));
            return false;
        }
        i = i + 1;
    }
    true
}

fn is_codex(source: &SourceName) -> (r: bool)
    ensures
        r == (source@.kind == Some(Source::Codex)),
{
    match source.kind {
        Some(Source::Codex) => true,
        _ => false,
    }
}

fn find_owner(
    events: &[SessionEvent],
    source: &SourceName,
    messages: &Vec<UsageMessage>,
    at: usize,
) -> (r: Option<usize>)
    requires
        at < messages@.len(),
    ensures
        match r {
            Some(i) => i < messages@.len() && owner_of(
                events@,
                source@,
                message_views(messages@),
                messages@[at as int]@,
            ) == Some(messages@[i as int]@),
            None => owner_of(
                events@,
                source@,
                message_views(messages@),
                messages@[at as int]@,
            ) is None,
        },
{
    if messages[at].parent.is_some() {
        parent_prompt(messages, at)
    } else if is_codex(source) && messages[at].ts > 0 && turns_have_times(events) {
        match latest_turn(events, messages[at].ts) {
            None => None,
            Some(i) => {
                proof {
                    let ts = messages@[at as int].ts;
                    lemma_sole_latest_is_unique(
                        events@,
                        ts,
                        i as int,
                        choose|k: int| sole_latest_turn(events@, ts, k),
                    );
                }
                match &events[i].message_id {
                    Some(id) => find_message(messages, id.as_str()),
                    None => None,
                }
            },
        }
    } else {
        None
    }
}

fn count_prompts(messages: &Vec<UsageMessage>, ts: i64, prompt: &str) -> (r: usize)
    ensures
        r == prompt_count(message_views(messages@), ts, prompt@, messages@.len() as int),
{
    let ghost all = message_views(messages@);
    let mut n: usize = 0;
    let mut i: usize = 0;
    while i < messages.len()
        invariant
            all == message_views(messages@),
            i <= messages.len(),
            n <= i,
            n == prompt_count(all, ts, prompt@, i as int),
        decreases messages.len() - i,
    {
        assert(all[i as int] == messages@[i as int]@);
        if same_text(messages[i].role.as_str(), "user") && messages[i].ts == ts && same_text(
            messages[i].text.as_str(),
            prompt,
        ) {
            n = n + 1;
        }
        i = i + 1;
    }
    n
}

/// What one record contributes to its request; a prompt is named by its message.
enum Contribution {
    Silent,
    Owned(usize),
    Measured(usize),
    Contradictory,
}

/// The view of a contribution of a message.
spec fn contribution_view(
    c: Contribution,
    messages: Seq<UsageMessage>,
    message: UsageMessage,
) -> ContributionView {
    match c {
        Contribution::Silent => ContributionView::Silent,
        Contribution::Owned(i) => ContributionView::Owned(
            messages[i as int].ts,
            messages[i as int].text@,
        ),
        Contribution::Measured(i) => ContributionView::Measured(
            messages[i as int].ts,
            messages[i as int].text@,
            message.usage@->Measured_0,
        ),
        Contribution::Contradictory => ContributionView::Contradictory,
    }
}

fn contribution_of(
    events: &[SessionEvent],
    source: &SourceName,
    messages: &Vec<UsageMessage>,
    at: usize,
) -> (r: Contribution)
    requires
        at < messages@.len(),
    ensures
        contribution_view(r, messages@, messages@[at as int]) == contribution(
            events@,
            source@,
            message_views(messages@),
            messages@[at as int]@,
        ),
        r matches Contribution::Owned(i) ==> i < messages@.len(),
        r matches Contribution::Measured(i) ==> i < messages@.len() && messages@[at as int].usage
            is Measured,
{
    let measured = match &messages[at].usage {
        RecordUsage::Absent => false,
        RecordUsage::Unreadable => return Contribution::Contradictory,
        RecordUsage::Measured(_) => true,
    };
    let owner: usize = match find_owner(events, source, messages, at) {
        Some(i) => i,
        None => return Contribution::Silent,
    };
    if messages[owner].text.as_str().is_empty() || count_prompts(
        messages,
        messages[owner].ts,
        messages[owner].text.as_str(),
    ) != 1 {
        return Contribution::Contradictory;
    }
    if measured {
        Contribution::Measured(owner)
    } else {
        Contribution::Owned(owner)
    }
}

/// What is known of a request; prompt and measurement are named by messages.
enum RequestState {
    Unseen,
    Refused,
    Open(usize, Option<usize>),
}

/// The view of a request's state.
spec fn state_view(state: RequestState, messages: Seq<UsageMessage>) -> RequestView {
    match state {
        RequestState::Unseen => RequestView::Unseen,
        RequestState::Refused => RequestView::Refused,
        RequestState::Open(i, seen) => RequestView::Open(
            messages[i as int].ts,
            messages[i as int].text@,
            match seen {
                Some(k) => Some(messages[k as int].usage@->Measured_0),
                None => None,
            },
        ),
    }
}

/// Whether the messages that a state names are there.
spec fn state_ok(state: RequestState, messages: Seq<UsageMessage>) -> bool {
    match state {
        RequestState::Open(i, seen) => i < messages.len() && (seen matches Some(k) ==> k
            < messages.len() && messages[k as int].usage is Measured),
        _ => true,
    }
}

fn same_prompt(messages: &Vec<UsageMessage>, a: usize, b: usize) -> (r: bool)
    requires
        a < messages@.len(),
        b < messages@.len(),
    ensures
        r == (messages@[a as int].ts == messages@[b as int].ts && messages@[a as int].text@
            == messages@[b as int].text@),
{
    messages[a].ts == messages[b].ts && same_text(
        messages[a].text.as_str(),
        messages[b].text.as_str(),
    )
}

fn same_measure(messages: &Vec<UsageMessage>, a: usize, b: usize) -> (r: bool)
    requires
        a < messages@.len(),
        b < messages@.len(),
        messages@[a as int].usage is Measured,
        messages@[b as int].usage is Measured,
    ensures
        r == usage::is_same_usage(
            messages@[a as int].usage@->Measured_0,
            messages@[b as int].usage@->Measured_0,
        ),
{
    match (&messages[a].usage, &messages[b].usage) {
        (RecordUsage::Measured(x), RecordUsage::Measured(y)) => usage::same_usage(x, y),
        _ => false,
    }
}

fn settle(events: &[SessionEvent], source: &SourceName, messages: &Vec<UsageMessage>, request: &str) -> (r:
    RequestState)
    ensures
        state_ok(r, messages@),
        state_view(r, messages@) == request_state(
            events@,
            source@,
            message_views(messages@),
            request@,
            messages@.len() as int,
        ),
{
    let ghost all = message_views(messages@);
    let mut state = RequestState::Unseen;
    let mut i: usize = 0;
    while i < messages.len()
        invariant
            all == message_views(messages@),
            i <= messages.len(),
            state_ok(state, messages@),
            state_view(state, messages@) == request_state(
                events@,
                source@,
                all,
                request@,
                i as int,
            ),
        decreases messages.len() - i,
    {
        assert(all[i as int] == messages@[i as int]@);
        if same_text(messages[i].role.as_str(), "assistant") && same_text(
            messages[i].request.as_str(),
            request,
        ) {
            match contribution_of(events, source, messages, i) {
                Contribution::Silent => {},
                Contribution::Contradictory => {
                    state = RequestState::Refused;
                },
                Contribution::Owned(owner) => {
                    state = match state {
                        RequestState::Unseen => RequestState::Open(owner, None),
                        RequestState::Refused => RequestState::Refused,
                        RequestState::Open(have, seen) => if same_prompt(messages, have, owner) {
                            RequestState::Open(have, seen)
                        } else {
                            RequestState::Refused
                        },
                    };
                },
                Contribution::Measured(owner) => {
                    state = match state {
                        RequestState::Unseen => RequestState::Open(owner, Some(i)),
                        RequestState::Refused => RequestState::Refused,
                        RequestState::Open(have, seen) => {
                            let agrees = same_prompt(messages, have, owner) && match seen {
                                None => true,
                                Some(k) => same_measure(messages, k, i),
                            };
                            if agrees {
                                RequestState::Open(owner, Some(i))
                            } else {
                                RequestState::Refused
                            }
                        },
                    };
                },
            }
        }
        i = i + 1;
    }
    state
}

fn is_first_answer(messages: &Vec<UsageMessage>, at: usize) -> (r: bool)
    requires
        at < messages@.len(),
    ensures
        r == starts_request(message_views(messages@), at as int),
{
    let ghost all = message_views(messages@);
    assert(all[at as int] == messages@[at as int]@);
    if !same_text(messages[at].role.as_str(), "assistant") {
        return false;
    }
    let mut j: usize = 0;
    while j < at
        invariant
            all == message_views(messages@),
            at < messages.len(),
            j <= at,
            forall|k: int| 0 <= k < j ==> !answers(#[trigger] all[k], messages@[at as int].request@),
        decreases at - j,
    {
        assert(all[j as int] == messages@[j as int]@);
        if same_text(messages[j].role.as_str(), "assistant") && same_text(
            messages[j].request.as_str(),
            messages[at].request.as_str(),
        ) {
            return false;
        }
        j = j + 1;
    }
    true
}

/// The running total of one prompt; no total once adding overflowed.
struct Tally {
    ts: i64,
    prompt: String,
    total: Option<NormalizedUsage>,
}

/// The view of a running total.
spec fn total_view(total: Option<NormalizedUsage>) -> Option<UsageView> {
    match total {
        Some(u) => Some(u@),
        None => None,
    }
}

/// Whether a list of totals is what some charges add up to, prompt by prompt.
spec fn tallies_match(tallies: Seq<Tally>, charges: Seq<ChargeView>) -> bool {
    &&& forall|i: int|
        0 <= i < tallies.len() ==> prompt_total(
            charges,
            (#[trigger] tallies[i]).ts,
            tallies[i].prompt@,
        ) == Some(total_view(tallies[i].total))
    &&& forall|i: int, j: int|
        0 <= i < j < tallies.len() ==> !((#[trigger] tallies[i]).ts == (#[trigger] tallies[j]).ts
            && tallies[i].prompt@ == tallies[j].prompt@)
    &&& forall|ts: i64, prompt: Seq<char>| #[trigger]
        prompt_total(charges, ts, prompt) is Some ==> exists|i: int|
            0 <= i < tallies.len() && (#[trigger] tallies[i]).ts == ts && tallies[i].prompt@
                == prompt
}

fn add_charge(
    tallies: &mut Vec<Tally>,
    ts: i64,
    prompt: &str,
    charged: &NormalizedUsage,
    Ghost(charges): Ghost<Seq<ChargeView>>,
)
    requires
        tallies_match(old(tallies)@, charges),
    ensures
        tallies_match(
            final(tallies)@,
            charges.push(ChargeView { ts, prompt: prompt@, usage: charged@ }),
        ),
{
    let ghost charge = ChargeView { ts, prompt: prompt@, usage: charged@ };
    let ghost after = charges.push(charge);
    proof {
        assert(after.drop_last() =~= charges);
        assert(after.last() == charge);
    }
    let mut i: usize = 0;
    while i < tallies.len()
        invariant
            i <= tallies.len(),
            tallies@ == old(tallies)@,
            tallies_match(old(tallies)@, charges),
            charge == (ChargeView { ts, prompt: prompt@, usage: charged@ }),
            after.len() > 0,
            after.drop_last() == charges,
            after.last() == charge,
            after == charges.push(charge),
            forall|j: int|
                0 <= j < i ==> !((#[trigger] tallies@[j]).ts == ts && tallies@[j].prompt@
                    == prompt@),
        decreases tallies.len() - i,
    {
        if tallies[i].ts == ts && same_text(tallies[i].prompt.as_str(), prompt) {
            let total = match &tallies[i].total {
                Some(t) => t.checked_add(charged),
                None => None,
            };
            let kept = tallies[i].prompt.clone();
            tallies.set(i, Tally { ts, prompt: kept, total });
            proof {
                let list = tallies@;
                assert forall|j: int| 0 <= j < list.len() implies prompt_total(
                    after,
                    (#[trigger] list[j]).ts,
                    list[j].prompt@,
                ) == Some(total_view(list[j].total)) by {
                    if j != i {
                        assert(list[j] == old(tallies)@[j]);
                        assert(old(tallies)@[i as int].ts == ts);
                    } else {
                        assert(prompt_total(charges, ts, prompt@) == Some(
                            total_view(old(tallies)@[i as int].total),
                        ));
                    }
                }
                assert forall|t: i64, p: Seq<char>| #[trigger]
                    prompt_total(after, t, p) is Some implies exists|k: int|
                    0 <= k < list.len() && (#[trigger] list[k]).ts == t && list[k].prompt@ == p by {
                    if t == ts && p == prompt@ {
                        assert(list[i as int].ts == t);
                    } else {
                        assert(prompt_total(charges, t, p) is Some);
                        let k = choose|k: int|
                            0 <= k < old(tallies)@.len() && (#[trigger] old(tallies)@[k]).ts == t
                                && old(tallies)@[k].prompt@ == p;
                        assert(list[k].ts == t && list[k].prompt@ == p);
                    }
                }
            }
            return ;
        }
        i = i + 1;
    }
    proof {
        if prompt_total(charges, ts, prompt@) is Some {
            let k = choose|k: int|
                0 <= k < tallies@.len() && (#[trigger] tallies@[k]).ts == ts && tallies@[k].prompt@
                    == prompt@;
            assert(false);
        }
    }
    tallies.push(Tally { ts, prompt: prompt.to_owned(), total: Some(charged.clone()) });
    proof {
        let list = tallies@;
        let n = old(tallies)@.len() as int;
        assert forall|j: int| 0 <= j < list.len() implies prompt_total(
            after,
            (#[trigger] list[j]).ts,
            list[j].prompt@,
        ) == Some(total_view(list[j].total)) by {
            if j < n {
                assert(list[j] == old(tallies)@[j]);
            }
        }
        assert forall|t: i64, p: Seq<char>| #[trigger]
            prompt_total(after, t, p) is Some implies exists|k: int|
            0 <= k < list.len() && (#[trigger] list[k]).ts == t && list[k].prompt@ == p by {
            if t == ts && p == prompt@ {
                assert(list[n].ts == t);
            } else {
                assert(prompt_total(charges, t, p) is Some);
                let k = choose|k: int|
                    0 <= k < old(tallies)@.len() && (#[trigger] old(tallies)@[k]).ts == t && old(
                        tallies,
                    )@[k].prompt@ == p;
                assert(list[k].ts == t && list[k].prompt@ == p);
            }
        }
    }
}

/// `(timestamp_ms, prompt_text)`: the identity of a history row.
pub type PromptKey = (i64, String);

/// Whether a list of prompts and usages says of every prompt what is charged to
/// it, each prompt once: a prompt whose charges overflow is left out.
pub open spec fn attributes(list: Seq<(PromptKey, NormalizedUsage)>, charges: Seq<ChargeView>) -> bool {
    &&& forall|i: int|
        0 <= i < list.len() ==> prompt_total(charges, (#[trigger] list[i]).0.0, list[i].0.1@)
            == Some(Some(list[i].1@))
    &&& forall|i: int, j: int|
        0 <= i < j < list.len() ==> !((#[trigger] list[i]).0.0 == (#[trigger] list[j]).0.0
            && list[i].0.1@ == list[j].0.1@)
    &&& forall|ts: i64, prompt: Seq<char>|
        (#[trigger] prompt_total(charges, ts, prompt) matches Some(Some(u))) ==> exists|i: int|
            0 <= i < list.len() && (#[trigger] list[i]).0.0 == ts && list[i].0.1@ == prompt
}

/// Attributes each measured request to the prompt that caused it.
///
/// The measurement of a request that is written as several records is added
/// exactly once. A request whose records contradict each other, or whose prompt
/// cannot be told from another, is charged to nobody.
pub fn attribute_usage_to_prompts(events: &[SessionEvent], source: &SourceName) -> (r: Vec<
    (PromptKey, NormalizedUsage),
>)
    ensures
        attributes(r@, session_charges(events@, source@)),
{
    let messages = collect_messages(events, source);
    let ghost all = message_views(messages@);
    let mut tallies: Vec<Tally> = Vec::new();
    let mut i: usize = 0;
    while i < messages.len()
        invariant
            all == message_views(messages@),
            i <= messages.len(),
            tallies_match(tallies@, charges_of(events@, source@, all, i as int)),
        decreases messages.len() - i,
    {
        assert(all[i as int] == messages@[i as int]@);
        if is_first_answer(&messages, i) {
            let state = settle(events, source, &messages, messages[i].request.as_str());
            if let RequestState::Open(owner, Some(k)) = state {
                if let RecordUsage::Measured(u) = &messages[k].usage {
                    add_charge(
                        &mut tallies,
                        messages[owner].ts,
                        messages[owner].text.as_str(),
                        u,
                        Ghost(charges_of(events@, source@, all, i as int)),
                    );
                }
            }
        }
        i = i + 1;
    }
    let ghost charges = session_charges(events@, source@);
    let mut out: Vec<(PromptKey, NormalizedUsage)> = Vec::new();
    let mut k: usize = 0;
    while k < tallies.len()
        invariant
            k <= tallies.len(),
            tallies_match(tallies@, charges),
            forall|i: int|
                0 <= i < out@.len() ==> prompt_total(
                    charges,
                    (#[trigger] out@[i]).0.0,
                    out@[i].0.1@,
                ) == Some(Some(out@[i].1@)),
            forall|i: int|
                0 <= i < out@.len() ==> exists|t: int|
                    0 <= t < k && (#[trigger] tallies@[t]).ts == (#[trigger] out@[i]).0.0
                        && tallies@[t].prompt@ == out@[i].0.1@,
            forall|i: int, j: int|
                0 <= i < j < out@.len() ==> !((#[trigger] out@[i]).0.0 == (#[trigger] out@[j]).0.0
                    && out@[i].0.1@ == out@[j].0.1@),
            forall|t: int|
                0 <= t < k && (#[trigger] tallies@[t]).total is Some ==> exists|i: int|
                    0 <= i < out@.len() && (#[trigger] out@[i]).0.0 == tallies@[t].ts
                        && out@[i].0.1@ == tallies@[t].prompt@,
        decreases tallies.len() - k,
    {
        let ghost before = out@;
        if let Some(u) = &tallies[k].total {
            out.push(((tallies[k].ts, tallies[k].prompt.clone()), u.clone()));
            proof {
                let n = before.len() as int;
                assert(out@[n].0.0 == tallies@[k as int].ts);
                assert forall|i: int| 0 <= i < n implies !((#[trigger] out@[i]).0.0 == out@[n].0.0
                    && out@[i].0.1@ == out@[n].0.1@) by {
                    assert(out@[i] == before[i]);
                    let t = choose|t: int|
                        0 <= t < k && (#[trigger] tallies@[t]).ts == before[i].0.0
                            && tallies@[t].prompt@ == before[i].0.1@;
                    assert(tallies@[t].ts == out@[i].0.0);
                }
                assert forall|i: int| 0 <= i < out@.len() implies exists|t: int|
                    0 <= t < k + 1 && (#[trigger] tallies@[t]).ts == (#[trigger] out@[i]).0.0
                        && tallies@[t].prompt@ == out@[i].0.1@ by {
                    if i < n {
                        assert(out@[i] == before[i]);
                        let t = choose|t: int|
                            0 <= t < k && (#[trigger] tallies@[t]).ts == before[i].0.0
                                && tallies@[t].prompt@ == before[i].0.1@;
                        assert(tallies@[t].ts == out@[i].0.0);
                    } else {
                        assert(tallies@[k as int].ts == out@[i].0.0);
                    }
                }
                assert forall|t: int|
                    0 <= t < k + 1 && (#[trigger] tallies@[t]).total is Some implies exists|i: int|
                    0 <= i < out@.len() && (#[trigger] out@[i]).0.0 == tallies@[t].ts
                        && out@[i].0.1@ == tallies@[t].prompt@ by {
                    if t < k {
                        let i = choose|i: int|
                            0 <= i < before.len() && (#[trigger] before[i]).0.0 == tallies@[t].ts
                                && before[i].0.1@ == tallies@[t].prompt@;
                        assert(out@[i] == before[i]);
                    } else {
                        assert(out@[n].0.0 == tallies@[t].ts);
                    }
                }
            }
        }
        k = k + 1;
    }
    proof {
        assert forall|ts: i64, prompt: Seq<char>|
            (#[trigger] prompt_total(charges, ts, prompt) matches Some(Some(u))) implies exists|
            i: int,
        |
            0 <= i < out@.len() && (#[trigger] out@[i]).0.0 == ts && out@[i].0.1@ == prompt by {
            let t = choose|t: int|
                0 <= t < tallies@.len() && (#[trigger] tallies@[t]).ts == ts && tallies@[t].prompt@
                    == prompt;
            assert(tallies@[t].total is Some);
        }
    }
    out
}

proof fn lemma_refused_stays_refused(
    events: Seq<SessionEvent>,
    source: NameView,
    messages: Seq<MessageView>,
    request: Seq<char>,
    at: int,
    n: int,
)
    requires
        0 <= at <= n,
        request_state(events, source, messages, request, at) is Refused,
    ensures
        request_state(events, source, messages, request, n) is Refused,
    decreases n - at,
{
    if at < n {
        lemma_refused_stays_refused(events, source, messages, request, at, n - 1);
    }
}

/// A request with a record whose evidence cannot be reconciled is charged to nobody.
pub proof fn law_contradictory_request_is_charged_to_nobody(
    events: Seq<SessionEvent>,
    source: NameView,
    messages: Seq<MessageView>,
    request: Seq<char>,
    at: int,
)
    requires
        0 <= at < messages.len(),
        answers(messages[at], request),
        contribution(events, source, messages, messages[at]) is Contradictory,
    ensures
        charge_of(
            request_state(events, source, messages, request, messages.len() as int),
        ) is None,
{
    lemma_refused_stays_refused(
        events,
        source,
        messages,
        request,
        at + 1,
        messages.len() as int,
    );
}

proof fn lemma_measured_is_held(
    events: Seq<SessionEvent>,
    source: NameView,
    messages: Seq<MessageView>,
    request: Seq<char>,
    at: int,
    n: int,
)
    requires
        0 <= at < n <= messages.len(),
        answers(messages[at], request),
        contribution(events, source, messages, messages[at]) is Measured,
    ensures
        match (
            request_state(events, source, messages, request, n),
            contribution(events, source, messages, messages[at]),
        ) {
            (
                RequestView::Open(ts, prompt, Some(u)),
                ContributionView::Measured(own_ts, own_prompt, own),
            ) => ts == own_ts && prompt == own_prompt && usage::is_same_usage(u, own),
            (RequestView::Refused, _) => true,
            _ => false,
        },
    decreases n - at,
{
    if at + 1 < n {
        lemma_measured_is_held(events, source, messages, request, at, n - 1);
    }
}

/// The records of one request that carry a measurement agree on it and on its
/// prompt, or the request is charged to nobody: copies of one measurement are one
/// charge, and no record is preferred to another.
pub proof fn law_charge_is_what_every_record_says(
    events: Seq<SessionEvent>,
    source: NameView,
    messages: Seq<MessageView>,
    request: Seq<char>,
    at: int,
)
    requires
        0 <= at < messages.len(),
        answers(messages[at], request),
    ensures
        match (
            charge_of(request_state(events, source, messages, request, messages.len() as int)),
            contribution(events, source, messages, messages[at]),
        ) {
            (Some(charge), ContributionView::Measured(ts, prompt, u)) => {
                &&& charge.ts == ts
                &&& charge.prompt == prompt
                &&& usage::is_same_usage(charge.usage, u)
            },
            (Some(charge), ContributionView::Contradictory) => false,
            _ => true,
        },
{
    match contribution(events, source, messages, messages[at]) {
        ContributionView::Measured(..) => {
            lemma_measured_is_held(
                events,
                source,
                messages,
                request,
                at,
                messages.len() as int,
            );
        },
        ContributionView::Contradictory => {
            law_contradictory_request_is_charged_to_nobody(events, source, messages, request, at);
        },
        _ => {},
    }
}

/// Every request starts at exactly one of its records, so that its charge is added
/// exactly once, however many records it is written as.
pub proof fn law_request_is_charged_once(messages: Seq<MessageView>, request: Seq<char>, at: int)
    requires
        0 <= at < messages.len(),
        answers(messages[at], request),
    ensures
        exists|i: int| #[trigger]
            starts_request(messages, i) && 0 <= i <= at && messages[i].request == request,
        forall|i: int, j: int|
            0 <= i < messages.len() && 0 <= j < messages.len() && #[trigger] starts_request(
                messages,
                i,
            ) && #[trigger] starts_request(messages, j) && messages[i].request == request
                && messages[j].request == request ==> i == j,
    decreases at,
{
    if !starts_request(messages, at) {
        let earlier = choose|j: int| 0 <= j < at && #[trigger] answers(messages[j], request);
        law_request_is_charged_once(messages, request, earlier);
    }
    assert forall|i: int, j: int|
        0 <= i < messages.len() && 0 <= j < messages.len() && #[trigger] starts_request(
            messages,
            i,
        ) && #[trigger] starts_request(messages, j) && messages[i].request == request
            && messages[j].request == request implies i == j by {
        assert(answers(messages[i], request));
        assert(answers(messages[j], request));
    }
}

proof fn lemma_owner_is_the_only_one(
    events: Seq<SessionEvent>,
    source: NameView,
    messages: Seq<MessageView>,
    request: Seq<char>,
    n: int,
)
    requires
        0 <= n <= messages.len(),
    ensures
        request_state(events, source, messages, request, n) matches RequestView::Open(
            ts,
            prompt,
            _,
        ) ==> prompt.len() > 0 && prompt_count(messages, ts, prompt, messages.len() as int) == 1,
    decreases n,
{
    if n > 0 {
        lemma_owner_is_the_only_one(events, source, messages, request, n - 1);
    }
}

/// What is charged is charged to a prompt with some text, and to one that no other
/// message of the session can be taken for.
pub proof fn law_charged_prompt_is_unambiguous(
    events: Seq<SessionEvent>,
    source: NameView,
    messages: Seq<MessageView>,
    request: Seq<char>,
)
    ensures
        charge_of(
            request_state(events, source, messages, request, messages.len() as int),
        ) matches Some(charge) ==> charge.prompt.len() > 0 && prompt_count(
            messages,
            charge.ts,
            charge.prompt,
            messages.len() as int,
        ) == 1,
{
    lemma_owner_is_the_only_one(events, source, messages, request, messages.len() as int);
}

/// Whether no request but the given one is owed to a prompt.
pub open spec fn owes_only(
    events: Seq<SessionEvent>,
    source: NameView,
    messages: Seq<MessageView>,
    request: Seq<char>,
    ts: i64,
    prompt: Seq<char>,
) -> bool {
    forall|i: int|
        0 <= i < messages.len() && messages[i].role == "assistant"@ && messages[i].request
            != request ==> match owner_of(events, source, messages, #[trigger] messages[i]) {
            Some(owner) => !(owner.ts == ts && owner.text == prompt),
            None => true,
        }
}

proof fn lemma_other_requests_owe_nothing(
    events: Seq<SessionEvent>,
    source: NameView,
    messages: Seq<MessageView>,
    request: Seq<char>,
    ts: i64,
    prompt: Seq<char>,
    other: Seq<char>,
    n: int,
)
    requires
        0 <= n <= messages.len(),
        other != request,
        owes_only(events, source, messages, request, ts, prompt),
    ensures
        request_state(events, source, messages, other, n) matches RequestView::Open(t, p, _) ==> !(t
            == ts && p == prompt),
    decreases n,
{
    if n > 0 {
        lemma_other_requests_owe_nothing(
            events,
            source,
            messages,
            request,
            ts,
            prompt,
            other,
            n - 1,
        );
    }
}

/// What a prompt is charged in the first `n` messages, where one request alone is owed
/// to it.
proof fn lemma_total_of_one_request(
    events: Seq<SessionEvent>,
    source: NameView,
    messages: Seq<MessageView>,
    request: Seq<char>,
    ts: i64,
    prompt: Seq<char>,
    n: int,
)
    requires
        0 <= n <= messages.len(),
        owes_only(events, source, messages, request, ts, prompt),
        charge_of(
            request_state(events, source, messages, request, messages.len() as int),
        ) matches Some(charge) ==> charge.ts == ts && charge.prompt == prompt,
    ensures
        prompt_total(charges_of(events, source, messages, n), ts, prompt) == match charge_of(
            request_state(events, source, messages, request, messages.len() as int),
        ) {
            Some(charge) => if exists|i: int|
                0 <= i < n && #[trigger] starts_request(messages, i) && messages[i].request
                    == request {
                Some(Some(charge.usage))
            } else {
                None
            },
            None => None,
        },
    decreases n,
{
    if n > 0 {
        lemma_total_of_one_request(events, source, messages, request, ts, prompt, n - 1);
        let message = messages[n - 1];
        let rest = charges_of(events, source, messages, n - 1);
        let all = messages.len() as int;
        if starts_request(messages, n - 1) {
            let state = request_state(events, source, messages, message.request, all);
            if message.request == request {
                assert(answers(message, request));
                law_request_is_charged_once(messages, request, n - 1);
                assert forall|i: int|
                    0 <= i < n - 1 && #[trigger] starts_request(messages, i) implies messages[i].request
                    != request by {}
            } else {
                lemma_other_requests_owe_nothing(
                    events,
                    source,
                    messages,
                    request,
                    ts,
                    prompt,
                    message.request,
                    all,
                );
            }
            match charge_of(state) {
                Some(charge) => {
                    assert(rest.push(charge).drop_last() =~= rest);
                },
                None => {},
            }
            assert(starts_request(messages, n - 1));
        }
    }
}

/// Whether a record of a request repeats what another says of it, or says nothing: it
/// is owed to the same message and carries the same measurement or none, or it is
/// owed to none and can be read.
pub open spec fn repeats(
    events: Seq<SessionEvent>,
    source: NameView,
    messages: Seq<MessageView>,
    message: MessageView,
    owner: MessageView,
    measured: UsageView,
) -> bool {
    match owner_of(events, source, messages, message) {
        Some(found) => found == owner && match message.usage {
            RecordView::Measured(own) => usage::is_same_usage(own, measured),
            RecordView::Absent => true,
            RecordView::Unreadable => false,
        },
        None => !(message.usage is Unreadable),
    }
}

proof fn lemma_repeated_request(
    events: Seq<SessionEvent>,
    source: NameView,
    messages: Seq<MessageView>,
    request: Seq<char>,
    owner: MessageView,
    measured: UsageView,
    at: int,
    n: int,
)
    requires
        0 <= n <= messages.len(),
        owner.text.len() > 0,
        prompt_count(messages, owner.ts, owner.text, messages.len() as int) == 1,
        0 <= at < messages.len(),
        answers(messages[at], request),
        owner_of(events, source, messages, messages[at]) == Some(owner),
        messages[at].usage == RecordView::Measured(measured),
        forall|i: int|
            0 <= i < messages.len() && answers(#[trigger] messages[i], request) ==> repeats(
                events,
                source,
                messages,
                messages[i],
                owner,
                measured,
            ),
    ensures
        match request_state(events, source, messages, request, n) {
            RequestView::Unseen => n <= at,
            RequestView::Refused => false,
            RequestView::Open(ts, prompt, seen) => {
                &&& ts == owner.ts
                &&& prompt == owner.text
                &&& seen is None ==> n <= at
                &&& seen is Some ==> usage::is_same_usage(seen->0, measured)
            },
        },
    decreases n,
{
    if n > 0 {
        lemma_repeated_request(events, source, messages, request, owner, measured, at, n - 1);
        if answers(messages[n - 1], request) {
            assert(repeats(events, source, messages, messages[n - 1], owner, measured));
        }
    }
}

/// A request that is written as any number of records is charged to its prompt exactly
/// once: where its records repeat one measurement and are owed to one message, and that
/// message is owed no other request, the message is charged that measurement. A record
/// that is owed to nobody changes nothing.
pub proof fn law_repeated_request_is_charged_once(
    events: Seq<SessionEvent>,
    source: NameView,
    request: Seq<char>,
    owner: MessageView,
    measured: UsageView,
    at: int,
    list: Seq<(PromptKey, NormalizedUsage)>,
)
    requires
        ({
            let messages = messages_of(events, source, events.len() as int);
            &&& owner.text.len() > 0
            &&& prompt_count(messages, owner.ts, owner.text, messages.len() as int) == 1
            &&& 0 <= at < messages.len()
            &&& answers(messages[at], request)
            &&& owner_of(events, source, messages, messages[at]) == Some(owner)
            &&& messages[at].usage == RecordView::Measured(measured)
            &&& forall|i: int|
                0 <= i < messages.len() && answers(#[trigger] messages[i], request) ==> repeats(
                    events,
                    source,
                    messages,
                    messages[i],
                    owner,
                    measured,
                )
            &&& owes_only(events, source, messages, request, owner.ts, owner.text)
        }),
        attributes(list, session_charges(events, source)),
    ensures
        exists|k: int|
            0 <= k < list.len() && (#[trigger] list[k]).0.0 == owner.ts && list[k].0.1@
                == owner.text && usage::is_same_usage(list[k].1@, measured),
        forall|k: int|
            0 <= k < list.len() && (#[trigger] list[k]).0.0 == owner.ts && list[k].0.1@
                == owner.text ==> usage::is_same_usage(list[k].1@, measured),
{
    let messages = messages_of(events, source, events.len() as int);
    let all = messages.len() as int;
    lemma_repeated_request(events, source, messages, request, owner, measured, at, all);
    lemma_total_of_one_request(events, source, messages, request, owner.ts, owner.text, all);
    law_request_is_charged_once(messages, request, at);
    let charges = session_charges(events, source);
    let total = prompt_total(charges, owner.ts, owner.text);
    assert(total matches Some(Some(u)) && usage::is_same_usage(u, measured));
    let k = choose|k: int|
        0 <= k < list.len() && (#[trigger] list[k]).0.0 == owner.ts && list[k].0.1@ == owner.text;
    assert(prompt_total(charges, list[k].0.0, list[k].0.1@) == Some(Some(list[k].1@)));
}

/// Whether two records of a request contradict each other: one of them cannot be read,
/// or the two are owed to somebody and carry different measurements.
pub open spec fn disagree(
    events: Seq<SessionEvent>,
    source: NameView,
    messages: Seq<MessageView>,
    a: MessageView,
    b: MessageView,
) -> bool {
    ||| a.usage is Unreadable
    ||| b.usage is Unreadable
    ||| {
        &&& owner_of(events, source, messages, a) is Some
        &&& owner_of(events, source, messages, b) is Some
        &&& a.usage is Measured
        &&& b.usage is Measured
        &&& !usage::is_same_usage(a.usage->Measured_0, b.usage->Measured_0)
    }
}

/// A prompt that is owed one request alone is charged nothing where two records of
/// that request contradict each other.
pub proof fn law_contradicted_prompt_is_absent(
    events: Seq<SessionEvent>,
    source: NameView,
    request: Seq<char>,
    ts: i64,
    prompt: Seq<char>,
    a: int,
    b: int,
    list: Seq<(PromptKey, NormalizedUsage)>,
)
    requires
        ({
            let messages = messages_of(events, source, events.len() as int);
            &&& 0 <= a < messages.len()
            &&& 0 <= b < messages.len()
            &&& answers(messages[a], request)
            &&& answers(messages[b], request)
            &&& disagree(events, source, messages, messages[a], messages[b])
            &&& owes_only(events, source, messages, request, ts, prompt)
        }),
        attributes(list, session_charges(events, source)),
    ensures
        forall|k: int|
            0 <= k < list.len() ==> !((#[trigger] list[k]).0.0 == ts && list[k].0.1@ == prompt),
{
    let messages = messages_of(events, source, events.len() as int);
    let all = messages.len() as int;
    law_charge_is_what_every_record_says(events, source, messages, request, a);
    law_charge_is_what_every_record_says(events, source, messages, request, b);
    lemma_total_of_one_request(events, source, messages, request, ts, prompt, all);
    assert forall|k: int| 0 <= k < list.len() implies !((#[trigger] list[k]).0.0 == ts
        && list[k].0.1@ == prompt) by {
        assert(prompt_total(session_charges(events, source), list[k].0.0, list[k].0.1@) == Some(
            Some(list[k].1@),
        ));
    }
}

} // verus!
