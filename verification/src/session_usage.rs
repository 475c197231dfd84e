//! The model requests of a session, and the session's usage built from them.
//!
//! A request is a group of stored events: one for each request key of a session.
//! The key is the provider's own identity of the request where it recorded one.
//! One source copies a message's usage onto every content block, so a group holds
//! several copies of one record; a group is counted once, whatever its size.
use crate::attribution;
use crate::keyset;
use crate::keyset::{order_of, page_of, PageKey};
use crate::order;
use crate::session_store::{NameView, Source, SourceName};
use crate::store::{SessionEvent, SessionToolCall};
use crate::text;
use crate::text::{contains_text, same_text};
use crate::usage;
use crate::usage::{
    normalize_usage_str,
    source_splits_requests_across_records,
    NormalizedUsage,
    UsageAccounting,
    UsageView,
};
use vstd::prelude::*;
use vstd::string::*;

verus! {

/// The version of the request rows, their order and their cursor.
pub const SESSION_USAGE_CONTRACT_VERSION: u32 = 1;

/// The view that groups the events of every session into requests.
pub const SESSION_REQUESTS_VIEW_DDL: &'static str = "CREATE VIEW session_requests AS
SELECT
    e.source AS source,
    e.session_id AS session_id,
    COALESCE(NULLIF(e.request_id, ''), NULLIF(e.provider_message_id, ''), e.message_id) AS request_key,
    CASE
        WHEN NULLIF(e.request_id, '') IS NOT NULL THEN 'request-id'
        WHEN NULLIF(e.provider_message_id, '') IS NOT NULL THEN 'provider-message-id'
        ELSE 'record-id'
    END AS request_key_source,
    group_concat(DISTINCT e.message_id) AS message_ids,
    NULL AS provider,
    MIN(e.id) AS id,
    MIN(e.ts_ms) AS first_ts_ms,
    MAX(e.ts_ms) AS last_ts_ms,
    MIN(e.model) AS model,
    COUNT(DISTINCT e.model) AS model_variants,
    MIN(e.token_json) AS token_json,
    COUNT(DISTINCT e.token_json) AS usage_variants,
    MAX(e.kind = 'thinking') AS has_thinking,
    COUNT(*) AS event_count
FROM session_events e
WHERE e.role = 'assistant'
  AND e.message_id IS NOT NULL
  AND e.message_id <> ''
GROUP BY e.source, e.session_id, COALESCE(NULLIF(e.request_id, ''), NULLIF(e.provider_message_id, ''), e.message_id)";

/// Whether the view that a database holds is this one. Another one groups by another
/// key, and so reports totals that are several times too large.
pub fn session_requests_view_is_current(stored: Option<&str>) -> (r: bool)
    ensures
        r == (stored is Some && stored->0@ == SESSION_REQUESTS_VIEW_DDL@),
{
    match stored {
        Some(sql) => same_text(sql, SESSION_REQUESTS_VIEW_DDL),
        None => false,
    }
}

/// Where the key of a request came from.
#[derive(Debug, Clone, Copy, PartialEq, Eq, Hash, Structural)]
#[non_exhaustive]
pub enum RequestKeySource {
    /// The provider's own request id.
    RequestId,
    /// The provider's own message id, where the record carried no request id.
    ProviderMessageId,
    /// The stored message id, where the provider recorded neither. For a source
    /// that writes one request as several records it identifies a record only.
    RecordId,
}

/// The wire label of a key's origin.
pub open spec fn key_source_label(source: RequestKeySource) -> Seq<char> {
    match source {
        RequestKeySource::RequestId => "request-id"@,
        RequestKeySource::ProviderMessageId => "provider-message-id"@,
        RequestKeySource::RecordId => "record-id"@,
    }
}

impl RequestKeySource {
    /// The wire label.
    pub fn as_str(self) -> (r: &'static str)
        ensures
            r@ == key_source_label(self),
    {
        match self {
            RequestKeySource::RequestId => "request-id",
            RequestKeySource::ProviderMessageId => "provider-message-id",
            RequestKeySource::RecordId => "record-id",
        }
    }

    /// The origin with a wire label, or `None` for a label that is not known.
    pub fn parse(value: &str) -> (r: Option<Self>)
        ensures
            match r {
                Some(source) => value@ == key_source_label(source),
                None => forall|source: RequestKeySource|
                    value@ != #[trigger] key_source_label(source),
            },
    {
        if same_text(value, "request-id") {
            return Some(RequestKeySource::RequestId);
        }
        if same_text(value, "provider-message-id") {
            return Some(RequestKeySource::ProviderMessageId);
        }
        if same_text(value, "record-id") {
            return Some(RequestKeySource::RecordId);
        }
        assert forall|source: RequestKeySource| value@ != #[trigger] key_source_label(source) by {
            match source {
                RequestKeySource::RequestId => {},
                RequestKeySource::ProviderMessageId => {},
                RequestKeySource::RecordId => {},
            }
        }
        None
    }

    /// Whether the key identifies a request of the provider, not a stored record.
    pub fn is_request_identity(self) -> (r: bool)
        ensures
            r == (self != RequestKeySource::RecordId),
    {
        match self {
            RequestKeySource::RecordId => false,
            _ => true,
        }
    }
}

/// The labels of two origins are the same only where the origins are.
pub proof fn law_key_source_labels_are_distinct(a: RequestKeySource, b: RequestKeySource)
    requires
        key_source_label(a) == key_source_label(b),
    ensures
        a == b,
{
    reveal_strlit("request-id");
    reveal_strlit("provider-message-id");
    reveal_strlit("record-id");
    assert("request-id"@.len() == 10);
    assert("provider-message-id"@.len() == 19);
    assert("record-id"@.len() == 9);
}

/// Why the usage of a request or of a session is absent, or narrower than it
/// looks.
#[derive(Debug, Clone, Copy, PartialEq, Eq, Hash, PartialOrd, Ord, Structural)]
#[non_exhaustive]
pub enum UsageDiagnostic {
    /// The copies of one request's usage disagree.
    AmbiguousUsageCopies,
    /// The stored usage could not be normalized.
    UnnormalizableUsage,
    /// The rows of one request name more than one model.
    AmbiguousModel,
    /// The rows may be one for each record, not one for each request.
    UnresolvedRequestIdentity,
    /// Only some requests reported the cache-write split.
    PartialCacheWriteSplit,
    /// Only some requests reported a cost.
    PartialReportedCost,
}

/// The wire label of a diagnostic.
pub open spec fn diagnostic_label(diagnostic: UsageDiagnostic) -> Seq<char> {
    match diagnostic {
        UsageDiagnostic::AmbiguousUsageCopies => "ambiguous-usage-copies"@,
        UsageDiagnostic::UnnormalizableUsage => "unnormalizable-usage"@,
        UsageDiagnostic::AmbiguousModel => "ambiguous-model"@,
        UsageDiagnostic::UnresolvedRequestIdentity => "unresolved-request-identity"@,
        UsageDiagnostic::PartialCacheWriteSplit => "partial-cache-write-split"@,
        UsageDiagnostic::PartialReportedCost => "partial-reported-cost"@,
    }
}

/// The labels of two diagnostics are the same only where the diagnostics are.
pub proof fn law_diagnostic_labels_are_distinct(a: UsageDiagnostic, b: UsageDiagnostic)
    requires
        diagnostic_label(a) == diagnostic_label(b),
    ensures
        a == b,
{
    reveal_strlit("ambiguous-usage-copies");
    reveal_strlit("unnormalizable-usage");
    reveal_strlit("ambiguous-model");
    reveal_strlit("unresolved-request-identity");
    reveal_strlit("partial-cache-write-split");
    reveal_strlit("partial-reported-cost");
    assert("ambiguous-usage-copies"@.len() == 22);
    assert("unnormalizable-usage"@.len() == 20);
    assert("ambiguous-model"@.len() == 15);
    assert("unresolved-request-identity"@.len() == 27);
    assert("partial-cache-write-split"@.len() == 25);
    assert("partial-reported-cost"@.len() == 21);
}

impl UsageDiagnostic {
    /// The wire label.
    pub fn as_str(self) -> (r: &'static str)
        ensures
            r@ == diagnostic_label(self),
    {
        match self {
            UsageDiagnostic::AmbiguousUsageCopies => "ambiguous-usage-copies",
            UsageDiagnostic::UnnormalizableUsage => "unnormalizable-usage",
            UsageDiagnostic::AmbiguousModel => "ambiguous-model",
            UsageDiagnostic::UnresolvedRequestIdentity => "unresolved-request-identity",
            UsageDiagnostic::PartialCacheWriteSplit => "partial-cache-write-split",
            UsageDiagnostic::PartialReportedCost => "partial-reported-cost",
        }
    }
}

/// One request of a session, as its events tell it.
#[derive(Debug)]
pub struct RawRequest {
    /// The lowest event id of the group.
    pub id: i64,
    pub source: String,
    /// Which source that is, where it is a known one.
    pub kind: Option<Source>,
    pub session_id: String,
    pub request_key: String,
    /// The label of the key's origin.
    pub request_key_source: String,
    pub message_ids: Vec<String>,
    pub provider: Option<String>,
    pub model: Option<String>,
    /// How many different models the events name.
    pub model_variants: usize,
    pub first_ts_ms: i64,
    pub last_ts_ms: i64,
    pub token_json: Option<String>,
    /// How many different usage texts the events carry.
    pub usage_variants: usize,
    pub has_thinking: bool,
    pub event_count: usize,
}

/// Whether an event is part of a request of a session: an assistant's event with
/// a message id.
pub open spec fn participates(event: SessionEvent, source: Seq<char>, session: Seq<char>) -> bool {
    &&& event.source@ == source
    &&& event.session_id@ == session
    &&& event.role@ == "assistant"@
    &&& text::non_empty(text::opt_view(event.message_id)) is Some
}

/// Where the request key of an event comes from.
pub open spec fn origin_of(event: SessionEvent) -> RequestKeySource {
    if text::non_empty(text::opt_view(event.request_id)) is Some {
        RequestKeySource::RequestId
    } else if text::non_empty(text::opt_view(event.provider_message_id)) is Some {
        RequestKeySource::ProviderMessageId
    } else {
        RequestKeySource::RecordId
    }
}

/// The request key of an event.
pub open spec fn key_of(event: SessionEvent) -> Seq<char> {
    match origin_of(event) {
        RequestKeySource::RequestId => event.request_id->0@,
        RequestKeySource::ProviderMessageId => event.provider_message_id->0@,
        RequestKeySource::RecordId => match event.message_id {
            Some(id) => id@,
            None => Seq::empty(),
        },
    }
}

/// The events of a request among the first of a list.
pub open spec fn group(
    events: Seq<SessionEvent>,
    source: Seq<char>,
    session: Seq<char>,
    key: Seq<char>,
    n: int,
) -> Seq<SessionEvent>
    decreases n,
{
    if n <= 0 {
        Seq::empty()
    } else {
        let before = group(events, source, session, key, n - 1);
        if participates(events[n - 1], source, session) && key_of(events[n - 1]) == key {
            before.push(events[n - 1])
        } else {
            before
        }
    }
}

/// The request keys of a session, in the order in which they first occur.
pub open spec fn request_keys(
    events: Seq<SessionEvent>,
    source: Seq<char>,
    session: Seq<char>,
    n: int,
) -> Seq<Seq<char>>
    decreases n,
{
    if n <= 0 {
        Seq::empty()
    } else {
        let before = request_keys(events, source, session, n - 1);
        if participates(events[n - 1], source, session) && !before.contains(key_of(events[n - 1])) {
            before.push(key_of(events[n - 1]))
        } else {
            before
        }
    }
}

/// The smallest of two numbers.
pub open spec fn lesser(a: i64, b: i64) -> i64 {
    if a <= b {
        a
    } else {
        b
    }
}

/// The greatest of two numbers.
pub open spec fn greater(a: i64, b: i64) -> i64 {
    if a >= b {
        a
    } else {
        b
    }
}

/// The lowest event id of a group.
pub open spec fn least_id(group: Seq<SessionEvent>) -> i64
    decreases group.len(),
{
    if group.len() <= 1 {
        group[0].id
    } else {
        lesser(least_id(group.drop_last()), group.last().id)
    }
}

/// The earliest time of a group.
pub open spec fn first_ts(group: Seq<SessionEvent>) -> i64
    decreases group.len(),
{
    if group.len() <= 1 {
        group[0].ts_ms
    } else {
        lesser(first_ts(group.drop_last()), group.last().ts_ms)
    }
}

/// The latest time of a group.
pub open spec fn last_ts(group: Seq<SessionEvent>) -> i64
    decreases group.len(),
{
    if group.len() <= 1 {
        group[0].ts_ms
    } else {
        greater(last_ts(group.drop_last()), group.last().ts_ms)
    }
}

/// A list of different texts with one more, unless it is absent or there already.
pub open spec fn with_text(list: Seq<Seq<char>>, value: Option<Seq<char>>) -> Seq<Seq<char>> {
    match value {
        Some(text) => if list.contains(text) {
            list
        } else {
            list.push(text)
        },
        None => list,
    }
}

/// The different message ids of a group, in order.
pub open spec fn group_messages(group: Seq<SessionEvent>) -> Seq<Seq<char>>
    decreases group.len(),
{
    if group.len() == 0 {
        Seq::empty()
    } else {
        with_text(group_messages(group.drop_last()), text::opt_view(group.last().message_id))
    }
}

/// The different models that a group names, in order.
pub open spec fn group_models(group: Seq<SessionEvent>) -> Seq<Seq<char>>
    decreases group.len(),
{
    if group.len() == 0 {
        Seq::empty()
    } else {
        with_text(group_models(group.drop_last()), text::opt_view(group.last().model))
    }
}

/// The different usage texts that a group carries, in order.
pub open spec fn group_tokens(group: Seq<SessionEvent>) -> Seq<Seq<char>>
    decreases group.len(),
{
    if group.len() == 0 {
        Seq::empty()
    } else {
        with_text(group_tokens(group.drop_last()), text::opt_view(group.last().token_json))
    }
}

/// Whether a group holds a thinking block.
pub open spec fn thinks(group: Seq<SessionEvent>) -> bool {
    exists|i: int| 0 <= i < group.len() && (#[trigger] group[i]).kind@ == "thinking"@
}

/// The least of some texts.
pub open spec fn least_text(list: Seq<Seq<char>>) -> Option<Seq<char>>
    decreases list.len(),
{
    if list.len() == 0 {
        None
    } else {
        match least_text(list.drop_last()) {
            None => Some(list.last()),
            Some(least) => if order::text_less(list.last(), least) {
                Some(list.last())
            } else {
                Some(least)
            },
        }
    }
}

/// The parts of a list that are not empty.
pub open spec fn filled(list: Seq<Seq<char>>) -> Seq<Seq<char>>
    decreases list.len(),
{
    if list.len() == 0 {
        Seq::empty()
    } else if list.last().len() == 0 {
        filled(list.drop_last())
    } else {
        filled(list.drop_last()).push(list.last())
    }
}

/// The ids of a list that was joined by commas.
pub open spec fn listed_ids(joined: Seq<char>) -> Seq<Seq<char>> {
    filled(text::split_on(joined, ','))
}

/// Whether a request is what a group of events tells. The group is not empty.
pub open spec fn is_request(
    raw: RawRequest,
    source: NameView,
    session: Seq<char>,
    key: Seq<char>,
    events: Seq<SessionEvent>,
) -> bool {
    &&& raw.id == least_id(events)
    &&& raw.source@ == source.name
    &&& raw.kind == source.kind
    &&& raw.session_id@ == session
    &&& raw.request_key@ == key
    &&& raw.request_key_source@ == key_source_label(origin_of(events[0]))
    &&& text::views(raw.message_ids@) == listed_ids(text::joined(group_messages(events), ","@))
    &&& raw.provider is None
    &&& text::opt_view(raw.model) == least_text(group_models(events))
    &&& raw.model_variants == group_models(events).len()
    &&& raw.first_ts_ms == first_ts(events)
    &&& raw.last_ts_ms == last_ts(events)
    &&& text::opt_view(raw.token_json) == least_text(group_tokens(events))
    &&& raw.usage_variants == group_tokens(events).len()
    &&& raw.has_thinking == thinks(events)
    &&& raw.event_count == events.len()
}

/// Whether some requests are those of a session: one for each request key, in the
/// order in which the keys first occur.
pub open spec fn are_requests(
    requests: Seq<RawRequest>,
    events: Seq<SessionEvent>,
    source: NameView,
    session: Seq<char>,
) -> bool {
    let keys = request_keys(events, source.name, session, events.len() as int);
    &&& requests.len() == keys.len()
    &&& forall|i: int|
        0 <= i < requests.len() ==> is_request(
            #[trigger] requests[i],
            source,
            session,
            keys[i],
            group(events, source.name, session, keys[i], events.len() as int),
        )
}

fn filled_text(value: &Option<String>) -> (r: Option<&str>)
    ensures
        match r {
            Some(s) => text::non_empty(text::opt_view(*value)) == Some(s@),
            None => text::non_empty(text::opt_view(*value)) is None,
        },
{
    match value {
        Some(s) => if s.as_str().is_empty() {
            None
        } else {
            Some(s.as_str())
        },
        None => None,
    }
}

fn takes_part(event: &SessionEvent, source: &str, session: &str) -> (r: bool)
    ensures
        r == participates(*event, source@, session@),
{
    same_text(event.source.as_str(), source) && same_text(event.session_id.as_str(), session)
        && same_text(event.role.as_str(), "assistant") && filled_text(&event.message_id).is_some()
}

/// The request key of an event, and where it comes from.
pub fn event_request_key(event: &SessionEvent) -> (r: (String, RequestKeySource))
    ensures
        r.0@ == key_of(*event),
        r.1 == origin_of(*event),
{
    if let Some(id) = filled_text(&event.request_id) {
        return (id.to_owned(), RequestKeySource::RequestId);
    }
    if let Some(id) = filled_text(&event.provider_message_id) {
        return (id.to_owned(), RequestKeySource::ProviderMessageId);
    }
    let key = match &event.message_id {
        Some(id) => id.clone(),
        None => {
            let none = String::new();
            assert(none@ =~= Seq::<char>::empty());
            none
        },
    };
    (key, RequestKeySource::RecordId)
}

fn add_text(list: &mut Vec<String>, value: &Option<String>)
    ensures
        text::views(final(list)@) == with_text(text::views(old(list)@), text::opt_view(*value)),
        final(list)@.len() <= old(list)@.len() + 1,
{
    if let Some(text) = value {
        if !contains_text(list, text.as_str()) {
            let ghost before = text::views(list@);
            list.push(text.clone());
            assert(text::views(list@) =~= before.push(text@));
        }
    }
}

fn least_of(list: &Vec<String>) -> (r: Option<String>)
    ensures
        text::opt_view(r) == least_text(text::views(list@)),
{
    let mut best: Option<usize> = None;
    let mut i: usize = 0;
    let ghost all = text::views(list@);
    while i < list.len()
        invariant
            i <= list.len(),
            all == text::views(list@),
            match best {
                Some(at) => at < i && least_text(all.take(i as int)) == Some(list@[at as int]@),
                None => i == 0,
            },
        decreases list.len() - i,
    {
        proof {
            let next = all.take(i + 1);
            assert(next.drop_last() =~= all.take(i as int));
            assert(next.last() == list@[i as int]@);
            if i == 0 {
                assert(all.take(0) =~= Seq::<Seq<char>>::empty());
            }
        }
        match best {
            None => {
                best = Some(i);
            },
            Some(at) => {
                if order::less(list[i].as_str(), list[at].as_str()) {
                    best = Some(i);
                }
            },
        }
        i = i + 1;
    }
    assert(all.take(all.len() as int) =~= all);
    match best {
        Some(at) => Some(list[at].clone()),
        None => None,
    }
}

/// The ids of a list that was joined by commas, without the empty ones.
pub fn split_ids(joined: &str) -> (r: Vec<String>)
    ensures
        text::views(r@) == listed_ids(joined@),
{
    let parts = text::split_char(joined, ',');
    let mut out: Vec<String> = Vec::new();
    let mut i: usize = 0;
    let ghost all = text::views(parts@);
    assert(text::views(out@) =~= filled(all.take(0)));
    while i < parts.len()
        invariant
            i <= parts.len(),
            all == text::views(parts@),
            text::views(out@) == filled(all.take(i as int)),
        decreases parts.len() - i,
    {
        let ghost before = text::views(out@);
        proof {
            let next = all.take(i + 1);
            assert(next.drop_last() =~= all.take(i as int));
            assert(next.last() == parts@[i as int]@);
        }
        if !parts[i].as_str().is_empty() {
            out.push(parts[i].clone());
            assert(text::views(out@) =~= before.push(parts@[i as int]@));
        }
        i = i + 1;
    }
    assert(all.take(all.len() as int) =~= all);
    out
}

fn keys_of_session(events: &[SessionEvent], source: &str, session: &str) -> (r: Vec<String>)
    ensures
        text::views(r@) == request_keys(events@, source@, session@, events@.len() as int),
{
    let mut keys: Vec<String> = Vec::new();
    let mut i: usize = 0;
    assert(text::views(keys@) =~= request_keys(events@, source@, session@, 0));
    while i < events.len()
        invariant
            i <= events.len(),
            text::views(keys@) == request_keys(events@, source@, session@, i as int),
        decreases events.len() - i,
    {
        let event = &events[i];
        if takes_part(event, source, session) {
            let key = event_request_key(event).0;
            if !contains_text(&keys, key.as_str()) {
                let ghost before = text::views(keys@);
                let ghost view = key@;
                keys.push(key);
                assert(text::views(keys@) =~= before.push(view));
            }
        }
        i = i + 1;
    }
    keys
}

/// Gathers the request of a key from the events of a session.
fn gather(events: &[SessionEvent], source: &SourceName, session: &str, key: &str) -> (r: RawRequest)
    requires
        group(events@, source@.name, session@, key@, events@.len() as int).len() > 0,
    ensures
        is_request(
            r,
            source@,
            session@,
            key@,
            group(events@, source@.name, session@, key@, events@.len() as int),
        ),
{
    let mut count: usize = 0;
    let mut id: i64 = 0;
    let mut first: i64 = 0;
    let mut last: i64 = 0;
    let mut origin = RequestKeySource::RecordId;
    let mut messages: Vec<String> = Vec::new();
    let mut models: Vec<String> = Vec::new();
    let mut tokens: Vec<String> = Vec::new();
    let mut thinking = false;
    let mut i: usize = 0;
    assert(text::views(messages@) =~= Seq::<Seq<char>>::empty());
    assert(text::views(models@) =~= Seq::<Seq<char>>::empty());
    assert(text::views(tokens@) =~= Seq::<Seq<char>>::empty());
    while i < events.len()
        invariant
            i <= events.len(),
            ({
                let g = group(events@, source@.name, session@, key@, i as int);
                &&& count == g.len()
                &&& count <= i
                &&& count > 0 ==> id == least_id(g) && first == first_ts(g) && last == last_ts(g)
                    && origin == origin_of(g[0])
                &&& text::views(messages@) == group_messages(g)
                &&& text::views(models@) == group_models(g)
                &&& text::views(tokens@) == group_tokens(g)
                &&& thinking == thinks(g)
            }),
        decreases events.len() - i,
    {
        let event = &events[i];
        let ghost g = group(events@, source@.name, session@, key@, i as int);
        let ghost next = group(events@, source@.name, session@, key@, i + 1);
        if takes_part(event, source.name.as_str(), session) {
            let (own, from) = event_request_key(event);
            if same_text(own.as_str(), key) {
                proof {
                    assert(next == g.push(*event));
                    assert(next.drop_last() =~= g);
                    assert(next.last() == *event);
                }
                if count == 0 {
                    id = event.id;
                    first = event.ts_ms;
                    last = event.ts_ms;
                    origin = from;
                } else {
                    assert(next[0] == g[0]);
                    if event.id < id {
                        id = event.id;
                    }
                    if event.ts_ms < first {
                        first = event.ts_ms;
                    }
                    if event.ts_ms > last {
                        last = event.ts_ms;
                    }
                }
                add_text(&mut messages, &event.message_id);
                add_text(&mut models, &event.model);
                add_text(&mut tokens, &event.token_json);
                let thinks_here = same_text(event.kind.as_str(), "thinking");
                proof {
                    if thinking {
                        let k = choose|k: int|
                            0 <= k < g.len() && (#[trigger] g[k]).kind@ == "thinking"@;
                        assert(next[k] == g[k]);
                    }
                    if thinks_here {
                        assert(next[g.len() as int].kind@ == "thinking"@);
                    }
                    if thinks(next) {
                        let k = choose|k: int|
                            0 <= k < next.len() && (#[trigger] next[k]).kind@ == "thinking"@;
                        if k < g.len() {
                            assert(g[k] == next[k]);
                        }
                    }
                }
                thinking = thinking || thinks_here;
                count = count + 1;
            }
        }
        i = i + 1;
    }
    let joined = text::join(&messages, ",");
    let model_variants: usize = models.len();
    let usage_variants: usize = tokens.len();
    proof {
        let g = group(events@, source@.name, session@, key@, events@.len() as int);
        assert(text::views(models@).len() == models@.len());
        assert(text::views(tokens@).len() == tokens@.len());
    }
    RawRequest {
        id,
        source: source.name.clone(),
        kind: source.kind,
        session_id: session.to_owned(),
        request_key: key.to_owned(),
        request_key_source: origin.as_str().to_owned(),
        message_ids: split_ids(joined.as_str()),
        provider: None,
        model: least_of(&models),
        model_variants,
        first_ts_ms: first,
        last_ts_ms: last,
        token_json: least_of(&tokens),
        usage_variants,
        has_thinking: thinking,
        event_count: count,
    }
}

proof fn lemma_key_has_group(
    events: Seq<SessionEvent>,
    source: Seq<char>,
    session: Seq<char>,
    key: Seq<char>,
    n: int,
)
    requires
        0 <= n <= events.len(),
    ensures
        request_keys(events, source, session, n).contains(key) == (group(
            events,
            source,
            session,
            key,
            n,
        ).len() > 0),
    decreases n,
{
    if n > 0 {
        lemma_key_has_group(events, source, session, key, n - 1);
        let before = request_keys(events, source, session, n - 1);
        let own = key_of(events[n - 1]);
        let after = request_keys(events, source, session, n);
        if after != before {
            assert(after == before.push(own));
            assert(after[before.len() as int] == own);
            if before.contains(key) {
                let i = choose|i: int| 0 <= i < before.len() && before[i] == key;
                assert(after[i] == key);
            }
            if after.contains(key) {
                let i = choose|i: int| 0 <= i < after.len() && after[i] == key;
                if i < before.len() {
                    assert(before[i] == key);
                }
            }
        }
    }
}

/// The requests of a session: one for each request key that its events carry.
pub fn session_requests(events: &[SessionEvent], source: &SourceName, session_id: &str) -> (r: Vec<
    RawRequest,
>)
    ensures
        are_requests(r@, events@, source@, session_id@),
{
    let keys = keys_of_session(events, source.name.as_str(), session_id);
    let mut out: Vec<RawRequest> = Vec::new();
    let mut i: usize = 0;
    let ghost all = request_keys(events@, source@.name, session_id@, events@.len() as int);
    while i < keys.len()
        invariant
            i <= keys.len(),
            out@.len() == i,
            all == request_keys(events@, source@.name, session_id@, events@.len() as int),
            text::views(keys@) == all,
            forall|j: int|
                0 <= j < i ==> is_request(
                    #[trigger] out@[j],
                    source@,
                    session_id@,
                    all[j],
                    group(events@, source@.name, session_id@, all[j], events@.len() as int),
                ),
        decreases keys.len() - i,
    {
        proof {
            assert(all[i as int] == keys@[i as int]@);
            assert(all.contains(all[i as int]));
            lemma_key_has_group(events@, source@.name, session_id@, all[i as int], events@.len() as int);
        }
        out.push(gather(events, source, session_id, keys[i].as_str()));
        i = i + 1;
    }
    out
}

/// What the usage of a request is, and why it is absent where it is.
#[derive(Debug)]
pub struct ResolvedUsage {
    pub usage: Option<NormalizedUsage>,
    /// The code of the error where the stored usage could not be normalized.
    pub error: Option<String>,
    pub diagnostics: Vec<UsageDiagnostic>,
}

/// The view of an optional usage.
pub open spec fn usage_view(usage: Option<NormalizedUsage>) -> Option<UsageView> {
    match usage {
        Some(usage) => Some(usage@),
        None => None,
    }
}

/// Whether a request is keyed on a record of a source that writes one request as
/// several records: the row may then be a part of a request only.
pub open spec fn is_unresolved(raw: RawRequest) -> bool {
    &&& raw.kind == Some(Source::Claude)
    &&& raw.request_key_source@ != key_source_label(RequestKeySource::RequestId)
    &&& raw.request_key_source@ != key_source_label(RequestKeySource::ProviderMessageId)
}

/// The source of a request.
pub open spec fn source_of(raw: RawRequest) -> NameView {
    NameView { name: raw.source@, kind: raw.kind }
}

/// What the stored usage of a request normalizes to; nothing where its copies
/// disagree or there is none.
pub open spec fn normal_usage(raw: RawRequest) -> Result<Option<UsageView>, usage::UsageErrorView> {
    if raw.usage_variants > 1 {
        Ok(None)
    } else {
        match raw.token_json {
            None => Ok(None),
            Some(text) => usage::normalized_text(source_of(raw), text@),
        }
    }
}

/// The usage of a request.
pub open spec fn request_usage(raw: RawRequest) -> Option<UsageView> {
    match normal_usage(raw) {
        Ok(usage) => usage,
        Err(_) => None,
    }
}

/// The code of the error of a request's usage.
pub open spec fn request_error(raw: RawRequest) -> Option<Seq<char>> {
    match normal_usage(raw) {
        Ok(_) => None,
        Err(error) => Some(usage::usage_error_code(error)),
    }
}

/// A diagnostic where it applies.
pub open spec fn when(applies: bool, diagnostic: UsageDiagnostic) -> Seq<UsageDiagnostic> {
    if applies {
        seq![diagnostic]
    } else {
        Seq::empty()
    }
}

/// The diagnostics of a request.
pub open spec fn request_diagnostics(raw: RawRequest) -> Seq<UsageDiagnostic> {
    when(is_unresolved(raw), UsageDiagnostic::UnresolvedRequestIdentity) + when(
        raw.model_variants > 1,
        UsageDiagnostic::AmbiguousModel,
    ) + when(raw.usage_variants > 1, UsageDiagnostic::AmbiguousUsageCopies) + when(
        normal_usage(raw) is Err,
        UsageDiagnostic::UnnormalizableUsage,
    )
}

/// The usage of a request. Copies that disagree establish nothing: choosing one
/// would be a guess.
pub fn resolve_usage(raw: &RawRequest) -> (r: ResolvedUsage)
    ensures
        usage_view(r.usage) == request_usage(*raw),
        text::opt_view(r.error) == request_error(*raw),
        r.diagnostics@ == request_diagnostics(*raw),
{
    let mut diagnostics: Vec<UsageDiagnostic> = Vec::new();
    proof {
        law_key_source_labels_are_distinct_all();
    }
    let on_record = match RequestKeySource::parse(raw.request_key_source.as_str()) {
        Some(key) => !key.is_request_identity(),
        None => true,
    };
    let source = SourceName { name: raw.source.clone(), kind: raw.kind };
    if on_record && source_splits_requests_across_records(&source) {
        diagnostics.push(UsageDiagnostic::UnresolvedRequestIdentity);
    }
    assert(diagnostics@ =~= when(
        is_unresolved(*raw),
        UsageDiagnostic::UnresolvedRequestIdentity,
    ));
    if raw.model_variants > 1 {
        diagnostics.push(UsageDiagnostic::AmbiguousModel);
    }
    if raw.usage_variants > 1 {
        diagnostics.push(UsageDiagnostic::AmbiguousUsageCopies);
        assert(diagnostics@ =~= request_diagnostics(*raw));
        return ResolvedUsage { usage: None, error: None, diagnostics };
    }
    match &raw.token_json {
        None => {
            assert(diagnostics@ =~= request_diagnostics(*raw));
            ResolvedUsage { usage: None, error: None, diagnostics }
        },
        Some(json) => match normalize_usage_str(&source, json.as_str()) {
            Ok(usage) => {
                assert(diagnostics@ =~= request_diagnostics(*raw));
                ResolvedUsage { usage, error: None, diagnostics }
            },
            Err(error) => {
                diagnostics.push(UsageDiagnostic::UnnormalizableUsage);
                assert(diagnostics@ =~= request_diagnostics(*raw));
                ResolvedUsage { usage: None, error: Some(error.code().to_owned()), diagnostics }
            },
        },
    }
}

proof fn law_key_source_labels_are_distinct_all()
    ensures
        forall|a: RequestKeySource, b: RequestKeySource| #[trigger]
            key_source_label(a) == #[trigger] key_source_label(b) ==> a == b,
{
    assert forall|a: RequestKeySource, b: RequestKeySource| #[trigger]
        key_source_label(a) == #[trigger] key_source_label(b) implies a == b by {
        law_key_source_labels_are_distinct(a, b);
    }
}

/// One request of a session, with its usage normalized.
#[derive(Debug)]
#[non_exhaustive]
pub struct SessionRequest {
    pub id: i64,
    pub source: String,
    pub session_id: String,
    pub request_key: String,
    pub request_key_source: RequestKeySource,
    /// Every message id that the request gathers.
    pub message_ids: Vec<String>,
    pub model: Option<String>,
    /// The provider behind the model, where the source records one.
    pub provider: Option<String>,
    pub first_ts_ms: i64,
    pub last_ts_ms: i64,
    /// `None` where there is no usage, or none that can be trusted.
    pub usage: Option<NormalizedUsage>,
    pub usage_error: Option<String>,
    pub tool_use_ids: Vec<String>,
    pub has_thinking: bool,
    /// How many events the request gathers.
    pub event_count: usize,
    pub diagnostics: Vec<UsageDiagnostic>,
}

/// Where the next page of requests starts. Requests of one session often share a
/// time, so the id is part of it.
#[derive(Debug, Clone, Copy, PartialEq, Eq, Structural)]
pub struct SessionRequestCursor {
    pub ts_ms: i64,
    pub id: i64,
}

/// A page of requests.
#[derive(Debug)]
pub struct SessionRequestPage {
    pub requests: Vec<SessionRequest>,
    pub next_cursor: Option<SessionRequestCursor>,
}

/// The key that a request is ordered by.
pub open spec fn request_page_key(raw: RawRequest) -> PageKey {
    PageKey { tail: false, ts_ms: raw.first_ts_ms, id: raw.id }
}

/// The keys that some requests are ordered by.
pub open spec fn request_page_keys(requests: Seq<RawRequest>) -> Seq<PageKey> {
    Seq::new(requests.len(), |i: int| request_page_key(requests[i]))
}

/// The key of a cursor.
pub open spec fn cursor_key(cursor: Option<SessionRequestCursor>) -> Option<PageKey> {
    match cursor {
        Some(cursor) => Some(PageKey { tail: false, ts_ms: cursor.ts_ms, id: cursor.id }),
        None => None,
    }
}

/// The calls of a message among the first of a list.
pub open spec fn message_calls(
    calls: Seq<SessionToolCall>,
    source: Seq<char>,
    session: Seq<char>,
    message: Seq<char>,
    n: int,
) -> Seq<SessionToolCall>
    decreases n,
{
    if n <= 0 {
        Seq::empty()
    } else {
        let before = message_calls(calls, source, session, message, n - 1);
        let call = calls[n - 1];
        if call.source@ == source && call.session_id@ == session && text::opt_view(call.message_id)
            == Some(message) {
            before.push(call)
        } else {
            before
        }
    }
}

/// The keys that some calls of one message are ordered by: the undated ones come
/// first.
pub open spec fn call_keys(calls: Seq<SessionToolCall>) -> Seq<PageKey> {
    Seq::new(
        calls.len(),
        |i: int|
            match calls[i].ts_ms {
                Some(ts_ms) => PageKey { tail: true, ts_ms, id: calls[i].id },
                None => PageKey { tail: false, ts_ms: 0, id: calls[i].id },
            },
    )
}

/// The tool uses of a message, in the order of their times.
pub open spec fn message_tools(
    calls: Seq<SessionToolCall>,
    source: Seq<char>,
    session: Seq<char>,
    message: Seq<char>,
) -> Seq<Seq<char>> {
    let own = message_calls(calls, source, session, message, calls.len() as int);
    in_places(own, keyset::in_order(call_keys(own)))
}

/// The tool uses of some calls at some places.
pub open spec fn in_places(calls: Seq<SessionToolCall>, places: Seq<usize>) -> Seq<Seq<char>> {
    Seq::new(places.len(), |i: int| calls[places[i] as int].tool_use_id@)
}

/// The tool uses of some messages, message by message.
pub open spec fn tools_of(
    calls: Seq<SessionToolCall>,
    source: Seq<char>,
    session: Seq<char>,
    messages: Seq<Seq<char>>,
) -> Seq<Seq<char>>
    decreases messages.len(),
{
    if messages.len() == 0 {
        Seq::empty()
    } else {
        tools_of(calls, source, session, messages.drop_last()) + message_tools(
            calls,
            source,
            session,
            messages.last(),
        )
    }
}

/// Whether a request of a page is what a gathered request and the session's tool
/// calls tell.
pub open spec fn is_session_request(
    request: SessionRequest,
    raw: RawRequest,
    calls: Seq<SessionToolCall>,
) -> bool {
    &&& request.id == raw.id
    &&& request.source@ == raw.source@
    &&& request.session_id@ == raw.session_id@
    &&& request.request_key@ == raw.request_key@
    &&& key_source_label(request.request_key_source) == raw.request_key_source@ || (
    request.request_key_source == RequestKeySource::RecordId && forall|source: RequestKeySource|
        raw.request_key_source@ != #[trigger] key_source_label(source))
    &&& text::views(request.message_ids@) == text::views(raw.message_ids@)
    &&& text::opt_view(request.model) == text::opt_view(raw.model)
    &&& text::opt_view(request.provider) == text::opt_view(raw.provider)
    &&& request.first_ts_ms == raw.first_ts_ms
    &&& request.last_ts_ms == raw.last_ts_ms
    &&& usage_view(request.usage) == request_usage(raw)
    &&& text::opt_view(request.usage_error) == request_error(raw)
    &&& text::views(request.tool_use_ids@) == tools_of(
        calls,
        raw.source@,
        raw.session_id@,
        text::views(raw.message_ids@),
    )
    &&& request.has_thinking == raw.has_thinking
    &&& request.event_count == raw.event_count
    &&& request.diagnostics@ == request_diagnostics(raw)
}

/// How many requests a page holds: what was asked for, from 1 to 1000.
pub open spec fn page_limit(limit: i64) -> int {
    if limit < 1 {
        1
    } else if limit > 1_000 {
        1_000
    } else {
        limit as int
    }
}

/// Whether a page is that of some requests behind a cursor.
pub open spec fn is_request_page(
    page: SessionRequestPage,
    raws: Seq<RawRequest>,
    calls: Seq<SessionToolCall>,
    limit: i64,
    after: Option<SessionRequestCursor>,
) -> bool {
    let (places, more) = keyset::the_page(
        request_page_keys(raws),
        cursor_key(after),
        page_limit(limit),
    );
    &&& page.requests@.len() == places.len()
    &&& forall|i: int|
        0 <= i < places.len() ==> is_session_request(
            #[trigger] page.requests@[i],
            raws[places[i] as int],
            calls,
        )
    &&& cursor_key(page.next_cursor) == if more {
        Some(request_page_key(raws[places.last() as int]))
    } else {
        None
    }
}

fn tools_of_message(calls: &[SessionToolCall], source: &str, session: &str, message: &str) -> (r:
    Vec<String>)
    ensures
        text::views(r@) == message_tools(calls@, source@, session@, message@),
{
    let mut own: Vec<&SessionToolCall> = Vec::new();
    let mut keys: Vec<PageKey> = Vec::new();
    let mut i: usize = 0;
    while i < calls.len()
        invariant
            i <= calls.len(),
            ({
                let mine = message_calls(calls@, source@, session@, message@, i as int);
                &&& own@.len() == mine.len()
                &&& forall|j: int| 0 <= j < mine.len() ==> *(#[trigger] own@[j]) == mine[j]
                &&& keys@ == call_keys(mine)
            }),
        decreases calls.len() - i,
    {
        let call = &calls[i];
        let ghost mine = message_calls(calls@, source@, session@, message@, i as int);
        let same = match &call.message_id {
            Some(id) => same_text(id.as_str(), message),
            None => false,
        };
        if same && same_text(call.source.as_str(), source) && same_text(
            call.session_id.as_str(),
            session,
        ) {
            own.push(call);
            let key = match call.ts_ms {
                Some(ts_ms) => PageKey { tail: true, ts_ms, id: call.id },
                None => PageKey { tail: false, ts_ms: 0, id: call.id },
            };
            keys.push(key);
            assert(keys@ =~= call_keys(mine.push(*call)));
        }
        i = i + 1;
    }
    let places = order_of(&keys);
    let mut out: Vec<String> = Vec::new();
    let ghost mine = message_calls(calls@, source@, session@, message@, calls@.len() as int);
    let mut i: usize = 0;
    while i < places.len()
        invariant
            i <= places.len(),
            own@.len() == mine.len(),
            forall|j: int| 0 <= j < mine.len() ==> *(#[trigger] own@[j]) == mine[j],
            forall|j: int| 0 <= j < places@.len() ==> (#[trigger] places@[j]) < own@.len(),
            out@.len() == i,
            forall|j: int|
                0 <= j < i ==> (#[trigger] out@[j])@ == mine[places@[j] as int].tool_use_id@,
        decreases places.len() - i,
    {
        out.push(own[places[i]].tool_use_id.clone());
        i = i + 1;
    }
    assert(text::views(out@) =~= in_places(mine, places@));
    out
}

fn tool_use_ids_for(raw: &RawRequest, calls: &[SessionToolCall]) -> (r: Vec<String>)
    ensures
        text::views(r@) == tools_of(
            calls@,
            raw.source@,
            raw.session_id@,
            text::views(raw.message_ids@),
        ),
{
    let mut out: Vec<String> = Vec::new();
    let mut i: usize = 0;
    let ghost all = text::views(raw.message_ids@);
    assert(text::views(out@) =~= tools_of(calls@, raw.source@, raw.session_id@, all.take(0)));
    while i < raw.message_ids.len()
        invariant
            i <= raw.message_ids.len(),
            all == text::views(raw.message_ids@),
            text::views(out@) == tools_of(
                calls@,
                raw.source@,
                raw.session_id@,
                all.take(i as int),
            ),
        decreases raw.message_ids.len() - i,
    {
        let mut found = tools_of_message(
            calls,
            raw.source.as_str(),
            raw.session_id.as_str(),
            raw.message_ids[i].as_str(),
        );
        let ghost before = text::views(out@);
        let ghost more = text::views(found@);
        proof {
            let next = all.take(i + 1);
            assert(next.drop_last() =~= all.take(i as int));
            assert(next.last() == raw.message_ids@[i as int]@);
        }
        out.append(&mut found);
        assert(text::views(out@) =~= before + more);
        i = i + 1;
    }
    assert(all.take(all.len() as int) =~= all);
    out
}

fn session_request(raw: &RawRequest, calls: &[SessionToolCall]) -> (r: SessionRequest)
    ensures
        is_session_request(r, *raw, calls@),
{
    let resolved = resolve_usage(raw);
    let request_key_source = match RequestKeySource::parse(raw.request_key_source.as_str()) {
        Some(source) => source,
        None => RequestKeySource::RecordId,
    };
    SessionRequest {
        id: raw.id,
        source: raw.source.clone(),
        session_id: raw.session_id.clone(),
        request_key: raw.request_key.clone(),
        request_key_source,
        message_ids: raw.message_ids.clone(),
        model: raw.model.clone(),
        provider: raw.provider.clone(),
        first_ts_ms: raw.first_ts_ms,
        last_ts_ms: raw.last_ts_ms,
        usage: resolved.usage,
        usage_error: resolved.error,
        tool_use_ids: tool_use_ids_for(raw, calls),
        has_thinking: raw.has_thinking,
        event_count: raw.event_count,
        diagnostics: resolved.diagnostics,
    }
}

fn page_keys_of(raws: &Vec<RawRequest>) -> (r: Vec<PageKey>)
    ensures
        r@ == request_page_keys(raws@),
{
    let mut keys: Vec<PageKey> = Vec::new();
    let mut i: usize = 0;
    while i < raws.len()
        invariant
            i <= raws.len(),
            keys@.len() == i,
            forall|j: int| 0 <= j < i ==> #[trigger] keys@[j] == request_page_key(raws@[j]),
        decreases raws.len() - i,
    {
        keys.push(PageKey { tail: false, ts_ms: raws[i].first_ts_ms, id: raws[i].id });
        i = i + 1;
    }
    assert(keys@ =~= request_page_keys(raws@));
    keys
}

/// A page of some requests, oldest first.
pub fn request_page(
    raws: &Vec<RawRequest>,
    calls: &[SessionToolCall],
    limit: i64,
    after: Option<SessionRequestCursor>,
) -> (r: SessionRequestPage)
    ensures
        is_request_page(r, raws@, calls@, limit, after),
{
    let limit: usize = if limit < 1 {
        1
    } else if limit > 1_000 {
        1_000
    } else {
        limit as usize
    };
    let keys = page_keys_of(raws);
    let cursor = match after {
        Some(cursor) => Some(PageKey { tail: false, ts_ms: cursor.ts_ms, id: cursor.id }),
        None => None,
    };
    let (places, more) = page_of(&keys, cursor, limit);
    let mut requests: Vec<SessionRequest> = Vec::new();
    let mut i: usize = 0;
    while i < places.len()
        invariant
            i <= places.len(),
            keys@.len() == raws@.len(),
            forall|j: int| 0 <= j < places@.len() ==> (#[trigger] places@[j]) < keys@.len(),
            requests@.len() == i,
            forall|j: int|
                0 <= j < i ==> is_session_request(
                    #[trigger] requests@[j],
                    raws@[places@[j] as int],
                    calls@,
                ),
        decreases places.len() - i,
    {
        requests.push(session_request(&raws[places[i]], calls));
        i = i + 1;
    }
    let next_cursor = if more {
        proof {
            // A full page is not empty.
            let q = choose|q: int|
                0 <= q < keys@.len() && keyset::beyond(#[trigger] keys@[q], cursor)
                    && !keyset::on_page(places@, q);
            assert(places@.len() == limit);
            assert(places@[places@.len() - 1] < keys@.len());
        }
        let last = &raws[places[places.len() - 1]];
        Some(SessionRequestCursor { ts_ms: last.first_ts_ms, id: last.id })
    } else {
        None
    };
    SessionRequestPage { requests, next_cursor }
}

/// A page of the requests of a session, oldest first. Both the source and the
/// session are needed: the ids of two providers can be the same.
pub fn session_requests_page(
    events: &[SessionEvent],
    calls: &[SessionToolCall],
    source: &SourceName,
    session_id: &str,
    limit: i64,
    after: Option<SessionRequestCursor>,
) -> (r: SessionRequestPage)
    ensures
        exists|raws: Seq<RawRequest>| #[trigger]
            are_requests(raws, events@, source@, session_id@) && is_request_page(
                r,
                raws,
                calls@,
                limit,
                after,
            ),
{
    let raws = session_requests(events, source, session_id);
    let page = request_page(&raws, calls, limit, after);
    assert(are_requests(raws@, events@, source@, session_id@));
    page
}

/// The usage of a session, over all its requests.
#[derive(Debug)]
#[non_exhaustive]
pub struct SessionUsageSummary {
    pub source: String,
    pub session_id: String,
    /// The totals, or `None` where they are not established; the diagnostics say
    /// why.
    pub usage: Option<NormalizedUsage>,
    /// The requests that contributed to the totals.
    pub request_count: usize,
    /// All requests of the session.
    pub total_request_count: usize,
    /// Every accounting mode that contributed. More than one means that the totals
    /// mix units.
    pub accounting: Vec<UsageAccounting>,
    pub models: Vec<String>,
    pub first_ts_ms: i64,
    pub last_ts_ms: i64,
    pub diagnostics: Vec<UsageDiagnostic>,
    /// A total overflowed.
    pub overflowed: bool,
}

/// The usages of the requests at the first places of an order.
pub open spec fn usages_in(raws: Seq<RawRequest>, places: Seq<usize>, n: int) -> Seq<UsageView>
    decreases n,
{
    if n <= 0 {
        Seq::empty()
    } else {
        let before = usages_in(raws, places, n - 1);
        match request_usage(raws[places[n - 1] as int]) {
            Some(usage) => before.push(usage),
            None => before,
        }
    }
}

/// The usages of some requests, oldest request first.
pub open spec fn usages_of(raws: Seq<RawRequest>) -> Seq<UsageView> {
    let places = keyset::in_order(request_page_keys(raws));
    usages_in(raws, places, places.len() as int)
}

/// The total of some usages, and whether adding one of them overflowed. One that
/// does is left out.
pub open spec fn total_of(usages: Seq<UsageView>) -> (Option<UsageView>, bool)
    decreases usages.len(),
{
    if usages.len() == 0 {
        (None, false)
    } else {
        let (running, overflowed) = total_of(usages.drop_last());
        match running {
            None => (Some(usages.last()), overflowed),
            Some(sum) => match usage::usage_sum(sum, usages.last()) {
                Some(next) => (Some(next), overflowed),
                None => (Some(sum), true),
            },
        }
    }
}

/// Whether a usage reports the cache-write split.
pub open spec fn has_split(usage: UsageView) -> bool {
    usage.cache_write_5m_tokens is Some || usage.cache_write_1h_tokens is Some
}

/// Whether a request has a diagnostic.
pub open spec fn reports(raws: Seq<RawRequest>, diagnostic: UsageDiagnostic) -> bool {
    exists|i: int|
        0 <= i < raws.len() && request_diagnostics(#[trigger] raws[i]).contains(diagnostic)
}

/// Whether some usages report the cache-write split, and their total does not.
pub open spec fn split_is_partial(usages: Seq<UsageView>) -> bool {
    &&& exists|i: int| 0 <= i < usages.len() && has_split(#[trigger] usages[i])
    &&& !has_split(total_of(usages).0->0)
}

/// Whether some usages report a cost, and their total does not.
pub open spec fn cost_is_partial(usages: Seq<UsageView>) -> bool {
    &&& exists|i: int| 0 <= i < usages.len() && (#[trigger] usages[i]).reported_cost_usd is Some
    &&& total_of(usages).0->0.reported_cost_usd is None
}

/// The diagnostics of a session.
pub open spec fn session_diagnostics(raws: Seq<RawRequest>) -> Seq<UsageDiagnostic> {
    when(
        reports(raws, UsageDiagnostic::AmbiguousUsageCopies),
        UsageDiagnostic::AmbiguousUsageCopies,
    ) + when(
        reports(raws, UsageDiagnostic::UnnormalizableUsage),
        UsageDiagnostic::UnnormalizableUsage,
    ) + when(reports(raws, UsageDiagnostic::AmbiguousModel), UsageDiagnostic::AmbiguousModel) + when(
        reports(raws, UsageDiagnostic::UnresolvedRequestIdentity),
        UsageDiagnostic::UnresolvedRequestIdentity,
    ) + when(split_is_partial(usages_of(raws)), UsageDiagnostic::PartialCacheWriteSplit) + when(
        cost_is_partial(usages_of(raws)),
        UsageDiagnostic::PartialReportedCost,
    )
}

/// Whether some usages are accounted for in a mode.
pub open spec fn accounts(usages: Seq<UsageView>, mode: UsageAccounting) -> bool {
    exists|i: int| 0 <= i < usages.len() && (#[trigger] usages[i]).accounting == mode
}

/// A mode where it occurs.
pub open spec fn mode_when(occurs: bool, mode: UsageAccounting) -> Seq<UsageAccounting> {
    if occurs {
        seq![mode]
    } else {
        Seq::empty()
    }
}

/// The accounting modes of some usages.
pub open spec fn modes_of(usages: Seq<UsageView>) -> Seq<UsageAccounting> {
    mode_when(accounts(usages, UsageAccounting::PerRequest), UsageAccounting::PerRequest)
        + mode_when(accounts(usages, UsageAccounting::PerMessage), UsageAccounting::PerMessage)
        + mode_when(
        accounts(usages, UsageAccounting::CumulativeDelta),
        UsageAccounting::CumulativeDelta,
    ) + mode_when(accounts(usages, UsageAccounting::ContextProxy), UsageAccounting::ContextProxy)
}

/// Whether a request names a model.
pub open spec fn names_model(raws: Seq<RawRequest>, model: Seq<char>) -> bool {
    exists|i: int|
        0 <= i < raws.len() && text::non_empty(text::opt_view((#[trigger] raws[i]).model)) == Some(
            model,
        )
}

/// The earliest time of some requests.
pub open spec fn earliest(raws: Seq<RawRequest>, n: int) -> i64
    decreases n,
{
    if n <= 0 {
        i64::MAX
    } else {
        lesser(earliest(raws, n - 1), raws[n - 1].first_ts_ms)
    }
}

/// The latest time of some requests.
pub open spec fn latest(raws: Seq<RawRequest>, n: int) -> i64
    decreases n,
{
    if n <= 0 {
        i64::MIN
    } else {
        greater(latest(raws, n - 1), raws[n - 1].last_ts_ms)
    }
}

/// A time, or zero where it is the one that stands for none.
pub open spec fn known_time(ts_ms: i64, none: i64) -> i64 {
    if ts_ms == none {
        0
    } else {
        ts_ms
    }
}

/// Whether a summary is that of some requests.
pub open spec fn is_summary(
    summary: SessionUsageSummary,
    raws: Seq<RawRequest>,
    source: Seq<char>,
    session: Seq<char>,
) -> bool {
    let usages = usages_of(raws);
    let (total, overflowed) = total_of(usages);
    &&& summary.source@ == source
    &&& summary.session_id@ == session
    &&& usage_view(summary.usage) == if overflowed || reports(
        raws,
        UsageDiagnostic::UnresolvedRequestIdentity,
    ) {
        None
    } else {
        total
    }
    &&& summary.request_count == usages.len()
    &&& summary.total_request_count == raws.len()
    &&& summary.accounting@ == modes_of(usages)
    &&& order::increasing(text::views(summary.models@))
    &&& forall|model: Seq<char>| #[trigger]
        text::views(summary.models@).contains(model) == names_model(raws, model)
    &&& summary.first_ts_ms == known_time(earliest(raws, raws.len() as int), i64::MAX)
    &&& summary.last_ts_ms == known_time(latest(raws, raws.len() as int), i64::MIN)
    &&& summary.diagnostics@ == session_diagnostics(raws)
    &&& summary.overflowed == overflowed
}

fn has_diagnostic(list: &Vec<UsageDiagnostic>, diagnostic: UsageDiagnostic) -> (r: bool)
    ensures
        r == list@.contains(diagnostic),
{
    let mut i: usize = 0;
    while i < list.len()
        invariant
            i <= list.len(),
            forall|j: int| 0 <= j < i ==> list@[j] != diagnostic,
        decreases list.len() - i,
    {
        if list[i] == diagnostic {
            return true;
        }
        i = i + 1;
    }
    false
}

fn any_reports(resolved: &Vec<ResolvedUsage>, diagnostic: UsageDiagnostic, raws: &Vec<RawRequest>) -> (r:
    bool)
    requires
        resolved@.len() == raws@.len(),
        forall|i: int|
            0 <= i < raws@.len() ==> (#[trigger] resolved@[i]).diagnostics@ == request_diagnostics(
                raws@[i],
            ),
    ensures
        r == reports(raws@, diagnostic),
{
    let mut i: usize = 0;
    while i < resolved.len()
        invariant
            i <= resolved.len(),
            resolved@.len() == raws@.len(),
            forall|j: int|
                0 <= j < raws@.len() ==> (#[trigger] resolved@[j]).diagnostics@
                    == request_diagnostics(raws@[j]),
            forall|j: int| 0 <= j < i ==> !request_diagnostics(#[trigger] raws@[j]).contains(diagnostic),
        decreases resolved.len() - i,
    {
        assert(resolved@[i as int].diagnostics@ == request_diagnostics(raws@[i as int]));
        if has_diagnostic(&resolved[i].diagnostics, diagnostic) {
            return true;
        }
        i = i + 1;
    }
    false
}

/// Which accounting modes occurred.
struct Modes {
    per_request: bool,
    per_message: bool,
    cumulative_delta: bool,
    context_proxy: bool,
}

/// The usages of a session, added up.
struct Totals {
    usage: Option<NormalizedUsage>,
    overflowed: bool,
    count: usize,
    modes: Modes,
    split: bool,
    cost: bool,
}

spec fn are_totals(totals: Totals, usages: Seq<UsageView>) -> bool {
    &&& (usage_view(totals.usage), totals.overflowed) == total_of(usages)
    &&& totals.count == usages.len()
    &&& totals.modes.per_request == accounts(usages, UsageAccounting::PerRequest)
    &&& totals.modes.per_message == accounts(usages, UsageAccounting::PerMessage)
    &&& totals.modes.cumulative_delta == accounts(usages, UsageAccounting::CumulativeDelta)
    &&& totals.modes.context_proxy == accounts(usages, UsageAccounting::ContextProxy)
    &&& totals.split == exists|i: int| 0 <= i < usages.len() && has_split(#[trigger] usages[i])
    &&& totals.cost == exists|i: int|
        0 <= i < usages.len() && (#[trigger] usages[i]).reported_cost_usd is Some
}

fn add_usage(totals: Totals, usage: &NormalizedUsage, Ghost(usages): Ghost<Seq<UsageView>>) -> (r: Totals)
    requires
        are_totals(totals, usages),
        totals.count < usize::MAX,
    ensures
        are_totals(r, usages.push(usage@)),
{
    let mode = usage.accounting;
    let modes = Modes {
        per_request: totals.modes.per_request || mode == UsageAccounting::PerRequest,
        per_message: totals.modes.per_message || mode == UsageAccounting::PerMessage,
        cumulative_delta: totals.modes.cumulative_delta || mode
            == UsageAccounting::CumulativeDelta,
        context_proxy: totals.modes.context_proxy || mode == UsageAccounting::ContextProxy,
    };
    let split = totals.split || usage.cache_write_5m_tokens.is_some()
        || usage.cache_write_1h_tokens.is_some();
    let cost = totals.cost || usage.reported_cost_usd.is_some();
    let (sum, overflowed) = match totals.usage {
        None => (Some(usage.clone()), totals.overflowed),
        Some(running) => match running.checked_add(usage) {
            Some(next) => (Some(next), totals.overflowed),
            None => (Some(running), true),
        },
    };
    proof {
        let all = usages.push(usage@);
        assert(all.drop_last() =~= usages);
        assert(all[usages.len() as int] == usage@);
        assert forall|mode: UsageAccounting| #[trigger] accounts(all, mode) == (accounts(usages, mode)
            || usage@.accounting == mode) by {
            if accounts(usages, mode) {
                let i = choose|i: int|
                    0 <= i < usages.len() && (#[trigger] usages[i]).accounting == mode;
                assert(all[i] == usages[i]);
            }
            if accounts(all, mode) {
                let i = choose|i: int| 0 <= i < all.len() && (#[trigger] all[i]).accounting == mode;
                if i < usages.len() {
                    assert(usages[i] == all[i]);
                }
            }
        }
        if totals.split {
            let i = choose|i: int| 0 <= i < usages.len() && has_split(#[trigger] usages[i]);
            assert(all[i] == usages[i]);
        }
        if exists|i: int| 0 <= i < all.len() && has_split(#[trigger] all[i]) {
            let i = choose|i: int| 0 <= i < all.len() && has_split(#[trigger] all[i]);
            if i < usages.len() {
                assert(usages[i] == all[i]);
            }
        }
        if totals.cost {
            let i = choose|i: int|
                0 <= i < usages.len() && (#[trigger] usages[i]).reported_cost_usd is Some;
            assert(all[i] == usages[i]);
        }
        if exists|i: int| 0 <= i < all.len() && (#[trigger] all[i]).reported_cost_usd is Some {
            let i = choose|i: int|
                0 <= i < all.len() && (#[trigger] all[i]).reported_cost_usd is Some;
            if i < usages.len() {
                assert(usages[i] == all[i]);
            }
        }
    }
    Totals { usage: sum, overflowed, count: totals.count + 1, modes, split, cost }
}

proof fn lemma_usages_bounded(raws: Seq<RawRequest>, places: Seq<usize>, n: int)
    requires
        0 <= n,
    ensures
        usages_in(raws, places, n).len() <= n,
    decreases n,
{
    if n > 0 {
        lemma_usages_bounded(raws, places, n - 1);
    }
}

/// What is read off the requests of a session one by one.
struct Reading {
    resolved: Vec<ResolvedUsage>,
    models: Vec<String>,
    first: i64,
    last: i64,
}

fn read_requests(raws: &Vec<RawRequest>) -> (r: Reading)
    ensures
        r.resolved@.len() == raws@.len(),
        forall|j: int|
            0 <= j < raws@.len() ==> (#[trigger] r.resolved@[j]).diagnostics@
                == request_diagnostics(raws@[j]),
        forall|j: int|
            0 <= j < raws@.len() ==> usage_view((#[trigger] r.resolved@[j]).usage) == request_usage(
                raws@[j],
            ),
        r.first == earliest(raws@, raws@.len() as int),
        r.last == latest(raws@, raws@.len() as int),
        order::increasing(text::views(r.models@)),
        forall|model: Seq<char>| #[trigger]
            text::views(r.models@).contains(model) == names_model(raws@, model),
{
    let mut resolved: Vec<ResolvedUsage> = Vec::new();
    let mut models: Vec<String> = Vec::new();
    let mut first: i64 = i64::MAX;
    let mut last: i64 = i64::MIN;
    let mut i: usize = 0;
    assert(text::views(models@) =~= Seq::<Seq<char>>::empty());
    while i < raws.len()
        invariant
            i <= raws.len(),
            resolved@.len() == i,
            forall|j: int|
                0 <= j < i ==> (#[trigger] resolved@[j]).diagnostics@ == request_diagnostics(
                    raws@[j],
                ),
            forall|j: int|
                0 <= j < i ==> usage_view((#[trigger] resolved@[j]).usage) == request_usage(
                    raws@[j],
                ),
            first == earliest(raws@, i as int),
            last == latest(raws@, i as int),
            order::increasing(text::views(models@)),
            forall|model: Seq<char>| #[trigger]
                text::views(models@).contains(model) == names_model(raws@.take(i as int), model),
        decreases raws.len() - i,
    {
        let raw = &raws[i];
        let ghost before = raws@.take(i as int);
        let ghost next = raws@.take(i + 1);
        let ghost earlier = text::views(models@);
        if raw.first_ts_ms < first {
            first = raw.first_ts_ms;
        }
        if raw.last_ts_ms > last {
            last = raw.last_ts_ms;
        }
        if let Some(model) = filled_text(&raw.model) {
            order::insert_text(&mut models, model);
        }
        proof {
            assert forall|model: Seq<char>| #[trigger]
                text::views(models@).contains(model) == names_model(next, model) by {
                assert(earlier.contains(model) == names_model(before, model));
                if names_model(before, model) {
                    let j = choose|j: int|
                        0 <= j < before.len() && text::non_empty(
                            text::opt_view((#[trigger] before[j]).model),
                        ) == Some(model);
                    assert(next[j] == before[j]);
                }
                assert(next[i as int] == *raw);
                if names_model(next, model) {
                    let j = choose|j: int|
                        0 <= j < next.len() && text::non_empty(
                            text::opt_view((#[trigger] next[j]).model),
                        ) == Some(model);
                    if j < i {
                        assert(before[j] == next[j]);
                    }
                }
            }
        }
        resolved.push(resolve_usage(raw));
        i = i + 1;
    }
    assert(raws@.take(raws@.len() as int) =~= raws@);
    Reading { resolved, models, first, last }
}

fn add_up(raws: &Vec<RawRequest>, resolved: &Vec<ResolvedUsage>) -> (r: Totals)
    requires
        resolved@.len() == raws@.len(),
        forall|j: int|
            0 <= j < raws@.len() ==> usage_view((#[trigger] resolved@[j]).usage) == request_usage(
                raws@[j],
            ),
    ensures
        are_totals(r, usages_of(raws@)),
{
    let keys = page_keys_of(raws);
    let places = order_of(&keys);
    let mut totals = Totals {
        usage: None,
        overflowed: false,
        count: 0,
        modes: Modes {
            per_request: false,
            per_message: false,
            cumulative_delta: false,
            context_proxy: false,
        },
        split: false,
        cost: false,
    };
    let mut i: usize = 0;
    while i < places.len()
        invariant
            i <= places.len(),
            keys@.len() == raws@.len(),
            resolved@.len() == raws@.len(),
            forall|j: int| 0 <= j < places@.len() ==> (#[trigger] places@[j]) < keys@.len(),
            forall|j: int|
                0 <= j < raws@.len() ==> usage_view((#[trigger] resolved@[j]).usage)
                    == request_usage(raws@[j]),
            are_totals(totals, usages_in(raws@, places@, i as int)),
            totals.count <= i,
        decreases places.len() - i,
    {
        let ghost so_far = usages_in(raws@, places@, i as int);
        assert(usage_view(resolved@[places@[i as int] as int].usage) == request_usage(
            raws@[places@[i as int] as int],
        ));
        if let Some(usage) = &resolved[places[i]].usage {
            totals = add_usage(totals, usage, Ghost(so_far));
        }
        proof {
            lemma_usages_bounded(raws@, places@, i + 1);
        }
        i = i + 1;
    }
    totals
}

fn list_diagnostics(
    raws: &Vec<RawRequest>,
    resolved: &Vec<ResolvedUsage>,
    split_lost: bool,
    cost_lost: bool,
) -> (r: Vec<UsageDiagnostic>)
    requires
        resolved@.len() == raws@.len(),
        forall|j: int|
            0 <= j < raws@.len() ==> (#[trigger] resolved@[j]).diagnostics@ == request_diagnostics(
                raws@[j],
            ),
        split_lost == split_is_partial(usages_of(raws@)),
        cost_lost == cost_is_partial(usages_of(raws@)),
    ensures
        r@ == session_diagnostics(raws@),
{
    let copies = any_reports(resolved, UsageDiagnostic::AmbiguousUsageCopies, raws);
    let foreign = any_reports(resolved, UsageDiagnostic::UnnormalizableUsage, raws);
    let models = any_reports(resolved, UsageDiagnostic::AmbiguousModel, raws);
    let unresolved = any_reports(resolved, UsageDiagnostic::UnresolvedRequestIdentity, raws);
    let mut list: Vec<UsageDiagnostic> = Vec::new();
    if copies {
        list.push(UsageDiagnostic::AmbiguousUsageCopies);
    }
    if foreign {
        list.push(UsageDiagnostic::UnnormalizableUsage);
    }
    if models {
        list.push(UsageDiagnostic::AmbiguousModel);
    }
    if unresolved {
        list.push(UsageDiagnostic::UnresolvedRequestIdentity);
    }
    if split_lost {
        list.push(UsageDiagnostic::PartialCacheWriteSplit);
    }
    if cost_lost {
        list.push(UsageDiagnostic::PartialReportedCost);
    }
    assert(list@ =~= session_diagnostics(raws@));
    list
}

fn list_modes(totals: &Totals, Ghost(usages): Ghost<Seq<UsageView>>) -> (r: Vec<UsageAccounting>)
    requires
        are_totals(*totals, usages),
    ensures
        r@ == modes_of(usages),
{
    let mut list: Vec<UsageAccounting> = Vec::new();
    if totals.modes.per_request {
        list.push(UsageAccounting::PerRequest);
    }
    if totals.modes.per_message {
        list.push(UsageAccounting::PerMessage);
    }
    if totals.modes.cumulative_delta {
        list.push(UsageAccounting::CumulativeDelta);
    }
    if totals.modes.context_proxy {
        list.push(UsageAccounting::ContextProxy);
    }
    assert(list@ =~= modes_of(usages));
    list
}

/// The usage of a session over some requests; `None` where there are none. Every
/// request contributes once.
pub fn summarize(raws: &Vec<RawRequest>, source: &str, session_id: &str) -> (r: Option<
    SessionUsageSummary,
>)
    ensures
        match r {
            Some(summary) => raws@.len() > 0 && is_summary(summary, raws@, source@, session_id@),
            None => raws@.len() == 0,
        },
{
    if raws.len() == 0 {
        return None;
    }
    let reading = read_requests(raws);
    let totals = add_up(raws, &reading.resolved);
    let ghost usages = usages_of(raws@);
    proof {
        lemma_total_exists(usages);
    }
    let unresolved = any_reports(
        &reading.resolved,
        UsageDiagnostic::UnresolvedRequestIdentity,
        raws,
    );
    let (split_lost, cost_lost) = match &totals.usage {
        Some(sum) => (
            totals.split && sum.cache_write_5m_tokens.is_none()
                && sum.cache_write_1h_tokens.is_none(),
            totals.cost && sum.reported_cost_usd.is_none(),
        ),
        None => (false, false),
    };
    assert(split_lost == split_is_partial(usages));
    assert(cost_lost == cost_is_partial(usages));
    let diagnostics = list_diagnostics(raws, &reading.resolved, split_lost, cost_lost);
    let accounting = list_modes(&totals, Ghost(usages));
    let usage = if totals.overflowed || unresolved {
        None
    } else {
        totals.usage
    };
    Some(
        SessionUsageSummary {
            source: source.to_owned(),
            session_id: session_id.to_owned(),
            usage,
            request_count: totals.count,
            total_request_count: raws.len(),
            accounting,
            models: reading.models,
            first_ts_ms: if reading.first == i64::MAX {
                0
            } else {
                reading.first
            },
            last_ts_ms: if reading.last == i64::MIN {
                0
            } else {
                reading.last
            },
            diagnostics,
            overflowed: totals.overflowed,
        },
    )
}

proof fn lemma_total_exists(usages: Seq<UsageView>)
    ensures
        (total_of(usages).0 is Some) == (usages.len() > 0),
    decreases usages.len(),
{
    if usages.len() > 0 {
        lemma_total_exists(usages.drop_last());
    }
}

/// The usage of a session, or `None` where the session has no request at all.
pub fn session_usage_summary(events: &[SessionEvent], source: &SourceName, session_id: &str) -> (r:
    Option<SessionUsageSummary>)
    ensures
        match r {
            Some(summary) => exists|raws: Seq<RawRequest>| #[trigger]
                are_requests(raws, events@, source@, session_id@) && raws.len() > 0 && is_summary(
                    summary,
                    raws,
                    source@.name,
                    session_id@,
                ),
            None => request_keys(events@, source@.name, session_id@, events@.len() as int).len() == 0,
        },
{
    let raws = session_requests(events, source, session_id);
    assert(are_requests(raws@, events@, source@, session_id@));
    summarize(&raws, source.name.as_str(), session_id)
}

/// The events of a request that all carry one usage text count as one: the
/// request's usage is what that text says, however many copies there are.
pub proof fn law_copies_count_once(events: Seq<SessionEvent>, json: Seq<char>)
    requires
        events.len() > 0,
        forall|i: int|
            0 <= i < events.len() ==> text::opt_view((#[trigger] events[i]).token_json) == Some(json),
    ensures
        group_tokens(events) == seq![json],
        least_text(group_tokens(events)) == Some(json),
    decreases events.len(),
{
    let rest = events.drop_last();
    assert(text::opt_view(events[events.len() - 1].token_json) == Some(json));
    if rest.len() > 0 {
        assert forall|i: int| 0 <= i < rest.len() implies text::opt_view(
            (#[trigger] rest[i]).token_json,
        ) == Some(json) by {
            assert(events[i] == rest[i]);
        }
        law_copies_count_once(rest, json);
        let one = seq![json];
        assert(one[0] == json);
        assert(one.contains(json));
    } else {
        assert(group_tokens(rest) =~= Seq::<Seq<char>>::empty());
        assert(!group_tokens(rest).contains(json));
        assert(group_tokens(events) =~= seq![json]);
    }
    let one = seq![json];
    assert(one.drop_last() =~= Seq::<Seq<char>>::empty());
    assert(one.last() == json);
}

/// Two different usage texts in a request establish nothing: it has no usage, and
/// says so.
pub proof fn law_disagreeing_copies_are_refused(
    raw: RawRequest,
    source: NameView,
    session: Seq<char>,
    key: Seq<char>,
    events: Seq<SessionEvent>,
    a: int,
    b: int,
)
    requires
        is_request(raw, source, session, key, events),
        0 <= a < events.len(),
        0 <= b < events.len(),
        events[a].token_json is Some,
        events[b].token_json is Some,
        events[a].token_json->0@ != events[b].token_json->0@,
    ensures
        request_usage(raw) is None,
        request_error(raw) is None,
        request_diagnostics(raw).contains(UsageDiagnostic::AmbiguousUsageCopies),
{
    lemma_token_listed(events, a);
    lemma_token_listed(events, b);
    let tokens = group_tokens(events);
    let i = choose|i: int| 0 <= i < tokens.len() && tokens[i] == events[a].token_json->0@;
    let j = choose|j: int| 0 <= j < tokens.len() && tokens[j] == events[b].token_json->0@;
    assert(i != j);
    assert(tokens.len() > 1);
    let all = request_diagnostics(raw);
    let at = when(is_unresolved(raw), UsageDiagnostic::UnresolvedRequestIdentity).len() + when(
        raw.model_variants > 1,
        UsageDiagnostic::AmbiguousModel,
    ).len();
    assert(all[at as int] == UsageDiagnostic::AmbiguousUsageCopies);
}

proof fn lemma_token_listed(events: Seq<SessionEvent>, i: int)
    requires
        0 <= i < events.len(),
        events[i].token_json is Some,
    ensures
        group_tokens(events).contains(events[i].token_json->0@),
    decreases events.len(),
{
    let rest = events.drop_last();
    let before = group_tokens(rest);
    let after = group_tokens(events);
    let json = events[i].token_json->0@;
    if i < rest.len() {
        assert(rest[i] == events[i]);
        lemma_token_listed(rest, i);
        let k = choose|k: int| 0 <= k < before.len() && before[k] == json;
        assert(after[k] == json);
    } else {
        assert(events.last() == events[i]);
        if !before.contains(json) {
            assert(after[before.len() as int] == json);
        }
    }
}

/// A request that may be a part of one only keeps the totals of its session away:
/// they would count one request several times.
pub proof fn law_unresolved_requests_are_not_summed(
    summary: SessionUsageSummary,
    raws: Seq<RawRequest>,
    source: Seq<char>,
    session: Seq<char>,
    i: int,
)
    requires
        is_summary(summary, raws, source, session),
        0 <= i < raws.len(),
        is_unresolved(raws[i]),
    ensures
        summary.usage is None,
        summary.diagnostics@.contains(UsageDiagnostic::UnresolvedRequestIdentity),
{
    assert(request_diagnostics(raws[i])[0] == UsageDiagnostic::UnresolvedRequestIdentity);
    assert(request_diagnostics(raws[i]).contains(UsageDiagnostic::UnresolvedRequestIdentity));
    assert(reports(raws, UsageDiagnostic::UnresolvedRequestIdentity));
    let at = when(
        reports(raws, UsageDiagnostic::AmbiguousUsageCopies),
        UsageDiagnostic::AmbiguousUsageCopies,
    ).len() + when(
        reports(raws, UsageDiagnostic::UnnormalizableUsage),
        UsageDiagnostic::UnnormalizableUsage,
    ).len() + when(
        reports(raws, UsageDiagnostic::AmbiguousModel),
        UsageDiagnostic::AmbiguousModel,
    ).len();
    assert(session_diagnostics(raws)[at as int] == UsageDiagnostic::UnresolvedRequestIdentity);
}

proof fn lemma_least_id_is_held(
    events: Seq<SessionEvent>,
    source: Seq<char>,
    session: Seq<char>,
    key: Seq<char>,
    n: int,
) -> (k: int)
    requires
        0 <= n <= events.len(),
        group(events, source, session, key, n).len() > 0,
    ensures
        0 <= k < n,
        participates(events[k], source, session),
        key_of(events[k]) == key,
        events[k].id == least_id(group(events, source, session, key, n)),
    decreases n,
{
    let g = group(events, source, session, key, n);
    let before = group(events, source, session, key, n - 1);
    let own = participates(events[n - 1], source, session) && key_of(events[n - 1]) == key;
    if own {
        assert(g.drop_last() =~= before);
        assert(g.last() == events[n - 1]);
        if before.len() == 0 {
            assert(g[0] == events[n - 1]);
            n - 1
        } else if least_id(before) <= events[n - 1].id {
            lemma_least_id_is_held(events, source, session, key, n - 1)
        } else {
            n - 1
        }
    } else {
        lemma_least_id_is_held(events, source, session, key, n - 1)
    }
}

proof fn lemma_keys_are_distinct(
    events: Seq<SessionEvent>,
    source: Seq<char>,
    session: Seq<char>,
    n: int,
)
    requires
        0 <= n <= events.len(),
    ensures
        ({
            let keys = request_keys(events, source, session, n);
            forall|a: int, b: int| 0 <= a < b < keys.len() ==> #[trigger] keys[a] != #[trigger] keys[b]
        }),
    decreases n,
{
    if n > 0 {
        lemma_keys_are_distinct(events, source, session, n - 1);
        let before = request_keys(events, source, session, n - 1);
        let keys = request_keys(events, source, session, n);
        assert forall|a: int, b: int| 0 <= a < b < keys.len() implies #[trigger] keys[a]
            != #[trigger] keys[b] by {
            if b < before.len() {
                assert(before[a] != before[b]);
            } else {
                assert(before.contains(before[a]));
            }
        }
    }
}

/// Where no two events share an id, no two requests of a session share a place in
/// the order of its pages.
pub proof fn law_requests_are_told_apart(
    raws: Seq<RawRequest>,
    events: Seq<SessionEvent>,
    source: NameView,
    session: Seq<char>,
    a: int,
    b: int,
)
    requires
        are_requests(raws, events, source, session),
        forall|i: int, j: int|
            0 <= i < j < events.len() ==> (#[trigger] events[i]).id != (#[trigger] events[j]).id,
        0 <= a < b < raws.len(),
    ensures
        request_page_keys(raws)[a] != request_page_keys(raws)[b],
{
    let n = events.len() as int;
    let keys = request_keys(events, source.name, session, n);
    lemma_keys_are_distinct(events, source.name, session, n);
    assert(keys[a] != keys[b]);
    assert(keys.contains(keys[a]) && keys.contains(keys[b]));
    lemma_key_has_group(events, source.name, session, keys[a], n);
    lemma_key_has_group(events, source.name, session, keys[b], n);
    let i = lemma_least_id_is_held(events, source.name, session, keys[a], n);
    let j = lemma_least_id_is_held(events, source.name, session, keys[b], n);
    assert(i != j);
    assert(events[i].id != events[j].id);
    assert(raws[a].id == events[i].id && raws[b].id == events[j].id);
}

/// Walking the pages of a session meets every request once: a request behind a
/// cursor is on its page or behind the cursor that the page hands out, and never
/// both; where the page hands out none, it is on the page.
pub proof fn law_request_pages_walk_every_request_once(
    page: SessionRequestPage,
    raws: Seq<RawRequest>,
    calls: Seq<SessionToolCall>,
    events: Seq<SessionEvent>,
    source: NameView,
    session: Seq<char>,
    limit: i64,
    after: Option<SessionRequestCursor>,
    q: int,
)
    requires
        are_requests(raws, events, source, session),
        raws.len() <= usize::MAX,
        forall|i: int, j: int|
            0 <= i < j < events.len() ==> (#[trigger] events[i]).id != (#[trigger] events[j]).id,
        is_request_page(page, raws, calls, limit, after),
        0 <= q < raws.len(),
        keyset::beyond(request_page_key(raws[q]), cursor_key(after)),
    ensures
        ({
            let places = keyset::the_page(
                request_page_keys(raws),
                cursor_key(after),
                page_limit(limit),
            ).0;
            match page.next_cursor {
                Some(next) => keyset::on_page(places, q) != keyset::beyond(
                    request_page_key(raws[q]),
                    cursor_key(Some(next)),
                ),
                None => keyset::on_page(places, q),
            }
        }),
{
    let keys = request_page_keys(raws);
    assert forall|a: int, b: int| 0 <= a < b < keys.len() implies #[trigger] keys[a]
        != #[trigger] keys[b] by {
        law_requests_are_told_apart(raws, events, source, session, a, b);
    }
    assert(keys[q] == request_page_key(raws[q]));
    keyset::law_walk_meets_every_row_once(keys, cursor_key(after), page_limit(limit), q);
    let (places, more) = keyset::the_page(keys, cursor_key(after), page_limit(limit));
    if more {
        assert(keys[places.last() as int] == request_page_key(raws[places.last() as int]));
    }
}

/// Whether some requests of a session are all of them, oldest first.
pub open spec fn are_all_requests(
    requests: Seq<SessionRequest>,
    raws: Seq<RawRequest>,
    calls: Seq<SessionToolCall>,
) -> bool {
    let places = keyset::in_order(request_page_keys(raws));
    &&& requests.len() == places.len()
    &&& forall|i: int|
        0 <= i < places.len() ==> is_session_request(
            #[trigger] requests[i],
            raws[places[i] as int],
            calls,
        )
}

/// All requests of a session, oldest first.
pub fn all_requests(
    events: &[SessionEvent],
    calls: &[SessionToolCall],
    source: &SourceName,
    session_id: &str,
) -> (r: Vec<SessionRequest>)
    ensures
        exists|raws: Seq<RawRequest>| #[trigger]
            are_requests(raws, events@, source@, session_id@) && are_all_requests(
                r@,
                raws,
                calls@,
            ),
{
    let raws = session_requests(events, source, session_id);
    let keys = page_keys_of(&raws);
    let places = order_of(&keys);
    let mut requests: Vec<SessionRequest> = Vec::new();
    let mut i: usize = 0;
    while i < places.len()
        invariant
            i <= places.len(),
            keys@.len() == raws@.len(),
            forall|j: int| 0 <= j < places@.len() ==> (#[trigger] places@[j]) < keys@.len(),
            requests@.len() == i,
            forall|j: int|
                0 <= j < i ==> is_session_request(
                    #[trigger] requests@[j],
                    raws@[places@[j] as int],
                    calls@,
                ),
        decreases places.len() - i,
    {
        requests.push(session_request(&raws[places[i]], calls));
        i = i + 1;
    }
    assert(are_requests(raws@, events@, source@, session_id@));
    requests
}

proof fn lemma_prefixed(prefix: Seq<char>, a: Seq<char>, b: Seq<char>)
    ensures
        prefix + a == prefix + b <==> a == b,
{
    if prefix + a == prefix + b {
        assert(a =~= (prefix + a).subrange(prefix.len() as int, (prefix + a).len() as int));
        assert(b =~= (prefix + b).subrange(prefix.len() as int, (prefix + b).len() as int));
    }
}

/// The attribution of usage tells events apart by their request keys and the fields
/// those come from: two events without a recorded span belong to one request of the
/// attribution exactly where their keys are the same and come from the same field. The
/// requests of a session go by the key alone: see
/// [`law_session_requests_go_by_the_key_alone`].
pub proof fn law_request_keys_agree(a: SessionEvent, b: SessionEvent)
    requires
        text::non_empty(text::opt_view(a.request_span)) is None,
        text::non_empty(text::opt_view(b.request_span)) is None,
    ensures
        attribution::request_of(a) == attribution::request_of(b) <==> key_of(a) == key_of(b)
            && origin_of(a) == origin_of(b),
{
    reveal_strlit("request-id:");
    reveal_strlit("provider-message-id:");
    reveal_strlit("record-id:");
    let (x, y) = (key_of(a), key_of(b));
    lemma_prefixed("request-id:"@, x, y);
    lemma_prefixed("provider-message-id:"@, x, y);
    lemma_prefixed("record-id:"@, x, y);
    assert(("request-id:"@ + x)[2] == 'q' && ("request-id:"@ + y)[2] == 'q');
    assert(("provider-message-id:"@ + x)[2] == 'o' && ("provider-message-id:"@ + y)[2] == 'o');
    assert(("record-id:"@ + x)[2] == 'c' && ("record-id:"@ + y)[2] == 'c');
}

proof fn lemma_event_is_grouped(
    events: Seq<SessionEvent>,
    source: Seq<char>,
    session: Seq<char>,
    i: int,
    n: int,
)
    requires
        0 <= i < n <= events.len(),
        participates(events[i], source, session),
    ensures
        group(events, source, session, key_of(events[i]), n).contains(events[i]),
        request_keys(events, source, session, n).contains(key_of(events[i])),
    decreases n,
{
    let key = key_of(events[i]);
    let (some, all) = (
        group(events, source, session, key, n - 1),
        group(events, source, session, key, n),
    );
    let (few, keys) = (
        request_keys(events, source, session, n - 1),
        request_keys(events, source, session, n),
    );
    if i == n - 1 {
        assert(all[some.len() as int] == events[i]);
        if !few.contains(key) {
            assert(keys[few.len() as int] == key);
        }
    } else {
        lemma_event_is_grouped(events, source, session, i, n - 1);
        let a = choose|a: int| 0 <= a < some.len() && some[a] == events[i];
        assert(all[a] == events[i]);
        let b = choose|b: int| 0 <= b < few.len() && few[b] == key;
        assert(keys[b] == key);
    }
}

/// The requests of a session are told apart by the bare request key alone: two events of
/// it whose keys are the same text are in one request, and in one only, also where the
/// keys come from two fields. The attribution of usage counts these two events as two
/// requests.
pub proof fn law_session_requests_go_by_the_key_alone(
    raws: Seq<RawRequest>,
    events: Seq<SessionEvent>,
    source: NameView,
    session: Seq<char>,
    i: int,
    j: int,
)
    requires
        are_requests(raws, events, source, session),
        0 <= i < events.len(),
        0 <= j < events.len(),
        participates(events[i], source.name, session),
        participates(events[j], source.name, session),
        key_of(events[i]) == key_of(events[j]),
    ensures
        ({
            let all = group(
                events,
                source.name,
                session,
                key_of(events[i]),
                events.len() as int,
            );
            &&& all.contains(events[i])
            &&& all.contains(events[j])
            &&& exists|q: int|
                0 <= q < raws.len() && is_request(
                    #[trigger] raws[q],
                    source,
                    session,
                    key_of(events[i]),
                    all,
                )
        }),
        forall|p: int, q: int|
            0 <= p < q < raws.len() ==> (#[trigger] raws[p]).request_key@ != (
            #[trigger] raws[q]).request_key@,
        origin_of(events[i]) != origin_of(events[j]) ==> attribution::request_of(events[i])
            != attribution::request_of(events[j]),
{
    let n = events.len() as int;
    let keys = request_keys(events, source.name, session, n);
    let key = key_of(events[i]);
    let all = group(events, source.name, session, key, n);
    lemma_event_is_grouped(events, source.name, session, i, n);
    lemma_event_is_grouped(events, source.name, session, j, n);
    lemma_keys_are_distinct(events, source.name, session, n);
    let q = choose|q: int| 0 <= q < keys.len() && keys[q] == key;
    assert(is_request(raws[q], source, session, key, all));
    assert forall|p: int, q: int| 0 <= p < q < raws.len() implies (#[trigger] raws[p]).request_key@
        != (#[trigger] raws[q]).request_key@ by {
        assert(keys[p] != keys[q]);
    }
    if origin_of(events[i]) != origin_of(events[j]) {
        lemma_origins_are_told_apart(events[i], events[j]);
    }
}

proof fn lemma_origins_are_told_apart(a: SessionEvent, b: SessionEvent)
    requires
        origin_of(a) != origin_of(b),
    ensures
        attribution::request_of(a) != attribution::request_of(b),
{
    reveal_strlit("request-id:");
    reveal_strlit("provider-message-id:");
    reveal_strlit("request-span:");
    reveal_strlit("record-id:");
    let (x, y) = (attribution::request_of(a), attribution::request_of(b));
    assert(origin_of(a) == RequestKeySource::RequestId ==> x[2] == 'q' && x[8] == 'i');
    assert(origin_of(b) == RequestKeySource::RequestId ==> y[2] == 'q' && y[8] == 'i');
    assert(origin_of(a) == RequestKeySource::ProviderMessageId ==> x[2] == 'o');
    assert(origin_of(b) == RequestKeySource::ProviderMessageId ==> y[2] == 'o');
    assert(origin_of(a) == RequestKeySource::RecordId ==> x[2] == 'c' || (x[2] == 'q' && x[8]
        == 's'));
    assert(origin_of(b) == RequestKeySource::RecordId ==> y[2] == 'c' || (y[2] == 'q' && y[8]
        == 's'));
}

} // verus!
