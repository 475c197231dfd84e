//! What usage adds up to.
//!
//! Each law speaks of the calls themselves: of the counters that go in, and of those that
//! come out. The requests of a session and its summary are two calls on the same events,
//! and what the one reports request by request the other reports in all.
use crate::doubles;
use crate::json;
use crate::json::{JsonTree, JsonValue};
use crate::keyset;
use crate::session_store::{NameView, Source, SourceName};
use crate::session_usage;
use crate::session_usage::{
    all_requests, resolve_usage, session_requests, session_usage_summary, RawRequest,
    ResolvedUsage, SessionRequest, SessionUsageSummary, UsageDiagnostic,
};
use crate::store::{SessionEvent, SessionToolCall};
use crate::usage;
use crate::usage::{
    normalize_usage, normalize_usage_str, NormalizedUsage, UsageAccounting, UsageError, UsageView,
};
use vstd::prelude::*;
use vstd::string::*;

verus! {

/// A counter, with nothing reported read as zero.
pub open spec fn count(value: Option<u64>) -> int {
    match value {
        Some(n) => n as int,
        None => 0,
    }
}

/// Whether the sum of two optional counters is one: the sum where both are reported, and
/// nothing where one is not.
pub open spec fn adds_up(a: Option<u64>, b: Option<u64>, sum: Option<u64>) -> bool {
    match (a, b) {
        (Some(x), Some(y)) => sum is Some && sum->0 as int == x as int + y as int,
        _ => sum is None,
    }
}

/// What a record is known to have written to one lifetime of the cache: what it says, or
/// nothing at all where it says that it wrote nothing.
pub open spec fn known_part(part: Option<u64>, whole: u64, reported: bool) -> Option<u64> {
    if part is None && whole == 0 && reported {
        Some(0u64)
    } else {
        part
    }
}

/// Where two usages have a sum, every counter of it is the sum of the two counters: the
/// input, the output, the cache reads and the cache writes, and each optional counter
/// that both report. It covers what either covers.
pub proof fn law_sum_adds_every_counter(
    a: NormalizedUsage,
    b: NormalizedUsage,
    sum: Option<NormalizedUsage>,
)
    requires
        call_ensures(NormalizedUsage::checked_add, (&a, &b), sum),
        sum is Some,
    ensures
        sum->0.input_tokens as int == a.input_tokens + b.input_tokens,
        sum->0.output_tokens as int == a.output_tokens + b.output_tokens,
        sum->0.cache_read_tokens as int == a.cache_read_tokens + b.cache_read_tokens,
        sum->0.cache_write_tokens as int == a.cache_write_tokens + b.cache_write_tokens,
        adds_up(a.reasoning_tokens, b.reasoning_tokens, sum->0.reasoning_tokens),
        adds_up(a.provider_total_tokens, b.provider_total_tokens, sum->0.provider_total_tokens),
        adds_up(
            known_part(
                a.cache_write_5m_tokens,
                a.cache_write_tokens,
                a.coverage.has_cache_write_tokens,
            ),
            known_part(
                b.cache_write_5m_tokens,
                b.cache_write_tokens,
                b.coverage.has_cache_write_tokens,
            ),
            sum->0.cache_write_5m_tokens,
        ),
        adds_up(
            known_part(
                a.cache_write_1h_tokens,
                a.cache_write_tokens,
                a.coverage.has_cache_write_tokens,
            ),
            known_part(
                b.cache_write_1h_tokens,
                b.cache_write_tokens,
                b.coverage.has_cache_write_tokens,
            ),
            sum->0.cache_write_1h_tokens,
        ),
        sum->0.accounting == a.accounting,
        sum->0.coverage.has_input_tokens == (a.coverage.has_input_tokens
            || b.coverage.has_input_tokens),
        sum->0.coverage.has_output_tokens == (a.coverage.has_output_tokens
            || b.coverage.has_output_tokens),
        sum->0.coverage.has_reasoning_tokens == (a.coverage.has_reasoning_tokens
            || b.coverage.has_reasoning_tokens),
        sum->0.coverage.has_cache_read_tokens == (a.coverage.has_cache_read_tokens
            || b.coverage.has_cache_read_tokens),
        sum->0.coverage.has_cache_write_tokens == (a.coverage.has_cache_write_tokens
            || b.coverage.has_cache_write_tokens),
{
}

/// The cost of a sum is the double nearest to the sum of the two costs, where both
/// records report one, and none otherwise.
pub proof fn law_sum_adds_the_costs(
    a: NormalizedUsage,
    b: NormalizedUsage,
    sum: Option<NormalizedUsage>,
)
    requires
        call_ensures(NormalizedUsage::checked_add, (&a, &b), sum),
        sum is Some,
    ensures
        sum->0.reported_cost_usd is Some <==> a.reported_cost_usd is Some && b.reported_cost_usd
            is Some,
        match (a.reported_cost_usd, b.reported_cost_usd, sum->0.reported_cost_usd) {
            (Some(x), Some(y), Some(z)) => {
                let worth = doubles::amount(doubles::without_negative_zero(x)) + doubles::amount(
                    doubles::without_negative_zero(y),
                );
                z == doubles::NEGATIVE_ZERO || exists|low: u64|
                    {
                        &&& low < doubles::INFINITE
                        &&& #[trigger] doubles::amount(low) <= worth < doubles::amount(
                            (low + 1) as u64,
                        )
                        &&& if 2 * worth < doubles::amount(low) + doubles::amount((low + 1) as u64) {
                            z == low
                        } else if 2 * worth > doubles::amount(low) + doubles::amount(
                            (low + 1) as u64,
                        ) {
                            z == low + 1
                        } else {
                            z % 2 == 0 && (z == low || z == low + 1)
                        }
                    }
            },
            _ => true,
        },
{
    match (a.reported_cost_usd, b.reported_cost_usd) {
        (Some(x), Some(y)) => {
            let worth = doubles::amount(doubles::without_negative_zero(x)) + doubles::amount(
                doubles::without_negative_zero(y),
            );
            if doubles::sum_of(x, y) != Some(doubles::NEGATIVE_ZERO) {
                doubles::law_nearest_is_nearest(worth);
            }
        },
        _ => {},
    }
}

/// Two usages have a sum unless a counter of it does not fit or the costs add up to
/// nothing finite.
pub proof fn law_sum_that_fits_exists(
    a: NormalizedUsage,
    b: NormalizedUsage,
    sum: Option<NormalizedUsage>,
)
    requires
        call_ensures(NormalizedUsage::checked_add, (&a, &b), sum),
        a.input_tokens + b.input_tokens <= u64::MAX,
        a.output_tokens + b.output_tokens <= u64::MAX,
        a.cache_read_tokens + b.cache_read_tokens <= u64::MAX,
        a.cache_write_tokens + b.cache_write_tokens <= u64::MAX,
        count(a.reasoning_tokens) + count(b.reasoning_tokens) <= u64::MAX,
        count(a.cache_write_5m_tokens) + count(b.cache_write_5m_tokens) <= u64::MAX,
        count(a.cache_write_1h_tokens) + count(b.cache_write_1h_tokens) <= u64::MAX,
        count(a.provider_total_tokens) + count(b.provider_total_tokens) <= u64::MAX,
        a.reported_cost_usd is None || b.reported_cost_usd is None,
    ensures
        sum is Some,
{
}

/// What a record reports under a name: a whole number that fits.
pub open spec fn reported(members: Seq<(Seq<char>, JsonTree)>, name: Seq<char>) -> Option<u64> {
    match json::member(members, name) {
        Some(JsonTree::Number(number)) => number.unsigned,
        _ => None,
    }
}

/// What a record reports under a name of its `cache_creation`.
pub open spec fn reported_part(members: Seq<(Seq<char>, JsonTree)>, name: Seq<char>) -> Option<u64> {
    match json::member(members, "cache_creation"@) {
        Some(JsonTree::Object(parts)) => reported(parts, name),
        _ => None,
    }
}

/// A record of the message-wise source is read as it reports: every counter is the number
/// under its name, or zero where it has none, and the cache writes are the reported whole,
/// or else the sum of their parts. Nothing is estimated.
pub proof fn law_message_usage_is_as_reported(
    source: SourceName,
    value: JsonValue,
    members: Seq<(Seq<char>, JsonTree)>,
    read: Result<Option<NormalizedUsage>, UsageError>,
)
    requires
        call_ensures(normalize_usage, (&source, &value), read),
        source.kind == Some(Source::Claude),
        value@ == JsonTree::Object(members),
        read is Ok,
        read->Ok_0 is Some,
    ensures
        ({
            let u = read->Ok_0->0;
            let whole = reported(members, "cache_creation_input_tokens"@);
            let short = reported_part(members, "ephemeral_5m_input_tokens"@);
            let long = reported_part(members, "ephemeral_1h_input_tokens"@);
            &&& u.input_tokens as int == count(reported(members, "input_tokens"@))
            &&& u.output_tokens as int == count(reported(members, "output_tokens"@))
            &&& u.cache_read_tokens as int == count(reported(members, "cache_read_input_tokens"@))
            &&& u.cache_write_tokens as int == if whole is Some {
                count(whole)
            } else {
                count(short) + count(long)
            }
            &&& u.cache_write_5m_tokens == short
            &&& u.cache_write_1h_tokens == long
            &&& u.reasoning_tokens == reported(members, "reasoning_output_tokens"@)
            &&& u.provider_total_tokens == reported(members, "total_tokens"@)
            &&& u.accounting == UsageAccounting::PerMessage
            &&& u.coverage.has_input_tokens == (reported(members, "input_tokens"@) is Some)
            &&& u.coverage.has_output_tokens == (reported(members, "output_tokens"@) is Some)
        }),
{
}

/// A record of Codex counts the cached tokens as input: what is read as input and as
/// cache reads is, together, what it reports as input, and the cache reads are what it
/// reports as cached. The other counters are the numbers under their names.
pub proof fn law_codex_usage_is_as_reported(
    source: SourceName,
    value: JsonValue,
    members: Seq<(Seq<char>, JsonTree)>,
    read: Result<Option<NormalizedUsage>, UsageError>,
)
    requires
        call_ensures(normalize_usage, (&source, &value), read),
        source.kind == Some(Source::Codex),
        value@ == JsonTree::Object(members),
        read is Ok,
        read->Ok_0 is Some,
    ensures
        ({
            let u = read->Ok_0->0;
            &&& u.input_tokens + u.cache_read_tokens == count(reported(members, "input_tokens"@))
            &&& u.cache_read_tokens as int == count(reported(members, "cached_input_tokens"@))
            &&& u.output_tokens as int == count(reported(members, "output_tokens"@))
            &&& u.cache_write_tokens as int == count(reported(members, "cache_write_input_tokens"@))
            &&& u.reasoning_tokens == reported(members, "reasoning_output_tokens"@)
            &&& u.provider_total_tokens == reported(members, "total_tokens"@)
            &&& u.cache_write_5m_tokens is None
            &&& u.cache_write_1h_tokens is None
            &&& u.accounting == UsageAccounting::CumulativeDelta
        }),
{
}

/// Whether what stands under a name can be read as a counter: nothing, null, or a whole
/// number that fits.
pub open spec fn is_readable(members: Seq<(Seq<char>, JsonTree)>, name: Seq<char>) -> bool {
    match json::member(members, name) {
        None => true,
        Some(JsonTree::Null) => true,
        Some(JsonTree::Number(number)) => number.unsigned is Some,
        _ => false,
    }
}

/// A record that can be read and reports a counter is usage: one with readable counters,
/// no split of the cache writes and no cost is read wherever its cached part does not
/// exceed its input. One of a source without a rule is refused.
pub proof fn law_readable_usage_is_read(
    source: SourceName,
    value: JsonValue,
    members: Seq<(Seq<char>, JsonTree)>,
    read: Result<Option<NormalizedUsage>, UsageError>,
)
    requires
        call_ensures(normalize_usage, (&source, &value), read),
        value@ == JsonTree::Object(members),
        is_readable(members, "input_tokens"@),
        is_readable(members, "output_tokens"@),
        is_readable(members, "reasoning_output_tokens"@),
        is_readable(members, "total_tokens"@),
        is_readable(members, "cached_input_tokens"@),
        is_readable(members, "cache_write_input_tokens"@),
        is_readable(members, "cache_read_input_tokens"@),
        is_readable(members, "cache_creation_input_tokens"@),
        json::member(members, "cache_creation"@) is None,
        json::member(members, "cost_usd"@) is None,
        json::member(members, "costUSD"@) is None,
        json::member(members, "total_cost_usd"@) is None,
        count(reported(members, "cached_input_tokens"@)) <= count(
            reported(members, "input_tokens"@),
        ),
    ensures
        source.kind == Some(Source::Claude) || source.kind == Some(Source::Codex) ==> read is Ok,
        source.kind == Some(Source::Claude) || source.kind == Some(Source::Codex) ==> ((reported(
            members,
            "input_tokens"@,
        ) is Some || reported(members, "output_tokens"@) is Some || reported(
            members,
            "total_tokens"@,
        ) is Some || reported(members, "reasoning_output_tokens"@) is Some)
            ==> read->Ok_0 is Some),
        source.kind != Some(Source::Claude) && source.kind != Some(Source::Codex) ==> read is Err,
{
    reveal_with_fuel(usage::cost_of, 4);
    let names = usage::cost_names();
    assert(names.drop_first()[0] == names[1]);
    assert(names.drop_first().drop_first()[0] == names[2]);
}

/// A counter that is neither absent, nor null, nor a whole number that fits, is refused.
pub proof fn law_unreadable_usage_is_refused(
    source: SourceName,
    value: JsonValue,
    members: Seq<(Seq<char>, JsonTree)>,
    read: Result<Option<NormalizedUsage>, UsageError>,
)
    requires
        call_ensures(normalize_usage, (&source, &value), read),
        value@ == JsonTree::Object(members),
        !is_readable(members, "input_tokens"@) || !is_readable(members, "output_tokens"@)
            || !is_readable(members, "reasoning_output_tokens"@) || !is_readable(
            members,
            "total_tokens"@,
        ),
    ensures
        read is Err,
{
}

/// The sum of a counter over the first `n` requests of a list that have a usage.
pub open spec fn in_all(
    requests: Seq<SessionRequest>,
    counter: spec_fn(NormalizedUsage) -> int,
    n: int,
) -> int
    decreases n,
{
    if n <= 0 {
        0
    } else {
        in_all(requests, counter, n - 1) + match requests[n - 1].usage {
            Some(usage) => counter(usage),
            None => 0,
        }
    }
}

/// How many of the first `n` requests of a list have a usage.
pub open spec fn measured(requests: Seq<SessionRequest>, n: int) -> int
    decreases n,
{
    if n <= 0 {
        0
    } else {
        measured(requests, n - 1) + if requests[n - 1].usage is Some {
            1int
        } else {
            0int
        }
    }
}

/// The sum of a counter over some usages.
pub open spec fn summed(usages: Seq<UsageView>, counter: spec_fn(UsageView) -> int) -> int
    decreases usages.len(),
{
    if usages.len() == 0 {
        0
    } else {
        summed(usages.drop_last(), counter) + counter(usages.last())
    }
}

proof fn lemma_total_is_summed(usages: Seq<UsageView>)
    requires
        usages.len() > 0,
        !session_usage::total_of(usages).1,
    ensures
        session_usage::total_of(usages).0 is Some,
        ({
            let total = session_usage::total_of(usages).0->0;
            &&& total.input_tokens as int == summed(usages, |u: UsageView| u.input_tokens as int)
            &&& total.output_tokens as int == summed(usages, |u: UsageView| u.output_tokens as int)
            &&& total.cache_read_tokens as int == summed(
                usages,
                |u: UsageView| u.cache_read_tokens as int,
            )
            &&& total.cache_write_tokens as int == summed(
                usages,
                |u: UsageView| u.cache_write_tokens as int,
            )
        }),
    decreases usages.len(),
{
    let front = usages.drop_last();
    if front.len() > 0 {
        lemma_total_is_summed(front);
    } else {
        assert(session_usage::total_of(front) == (None::<UsageView>, false));
        assert(summed(front, |u: UsageView| u.input_tokens as int) == 0);
        assert(summed(front, |u: UsageView| u.output_tokens as int) == 0);
        assert(summed(front, |u: UsageView| u.cache_read_tokens as int) == 0);
        assert(summed(front, |u: UsageView| u.cache_write_tokens as int) == 0);
    }
}

/// Whether the counters of a usage are at most some sums, and it has no cost.
spec fn within(
    u: UsageView,
    input: int,
    output: int,
    read: int,
    written: int,
    reasoning: int,
    short: int,
    long: int,
    total: int,
) -> bool {
    &&& u.input_tokens <= input
    &&& u.output_tokens <= output
    &&& u.cache_read_tokens <= read
    &&& u.cache_write_tokens <= written
    &&& count(u.reasoning_tokens) <= reasoning
    &&& count(u.cache_write_5m_tokens) <= short
    &&& count(u.cache_write_1h_tokens) <= long
    &&& count(u.provider_total_tokens) <= total
    &&& u.reported_cost_usd is None
}

proof fn lemma_total_that_fits(usages: Seq<UsageView>)
    requires
        summed(usages, |u: UsageView| u.input_tokens as int) <= u64::MAX,
        summed(usages, |u: UsageView| u.output_tokens as int) <= u64::MAX,
        summed(usages, |u: UsageView| u.cache_read_tokens as int) <= u64::MAX,
        summed(usages, |u: UsageView| u.cache_write_tokens as int) <= u64::MAX,
        summed(usages, |u: UsageView| count(u.reasoning_tokens)) <= u64::MAX,
        summed(usages, |u: UsageView| count(u.cache_write_5m_tokens)) <= u64::MAX,
        summed(usages, |u: UsageView| count(u.cache_write_1h_tokens)) <= u64::MAX,
        summed(usages, |u: UsageView| count(u.provider_total_tokens)) <= u64::MAX,
        forall|i: int| 0 <= i < usages.len() ==> (#[trigger] usages[i]).reported_cost_usd is None,
    ensures
        !session_usage::total_of(usages).1,
        usages.len() > 0 ==> session_usage::total_of(usages).0 is Some && within(
            session_usage::total_of(usages).0->0,
            summed(usages, |u: UsageView| u.input_tokens as int),
            summed(usages, |u: UsageView| u.output_tokens as int),
            summed(usages, |u: UsageView| u.cache_read_tokens as int),
            summed(usages, |u: UsageView| u.cache_write_tokens as int),
            summed(usages, |u: UsageView| count(u.reasoning_tokens)),
            summed(usages, |u: UsageView| count(u.cache_write_5m_tokens)),
            summed(usages, |u: UsageView| count(u.cache_write_1h_tokens)),
            summed(usages, |u: UsageView| count(u.provider_total_tokens)),
        ),
    decreases usages.len(),
{
    if usages.len() > 0 {
        let front = usages.drop_last();
        assert forall|i: int| 0 <= i < front.len() implies (
        #[trigger] front[i]).reported_cost_usd is None by {
            assert(usages[i].reported_cost_usd is None);
        }
        assert(usages[usages.len() - 1].reported_cost_usd is None);
        lemma_total_that_fits(front);
        lemma_summed_is_not_negative(front);
    }
}

proof fn lemma_summed_is_not_negative(usages: Seq<UsageView>)
    ensures
        summed(usages, |u: UsageView| u.input_tokens as int) >= 0,
        summed(usages, |u: UsageView| u.output_tokens as int) >= 0,
        summed(usages, |u: UsageView| u.cache_read_tokens as int) >= 0,
        summed(usages, |u: UsageView| u.cache_write_tokens as int) >= 0,
        summed(usages, |u: UsageView| count(u.reasoning_tokens)) >= 0,
        summed(usages, |u: UsageView| count(u.cache_write_5m_tokens)) >= 0,
        summed(usages, |u: UsageView| count(u.cache_write_1h_tokens)) >= 0,
        summed(usages, |u: UsageView| count(u.provider_total_tokens)) >= 0,
    decreases usages.len(),
{
    if usages.len() > 0 {
        lemma_summed_is_not_negative(usages.drop_last());
    }
}

/// The usages of some requests in an order, and those of the requests that are reported
/// in it, add up to the same.
proof fn lemma_summed_in_all(
    requests: Seq<SessionRequest>,
    raws: Seq<RawRequest>,
    places: Seq<usize>,
    counter: spec_fn(UsageView) -> int,
    own: spec_fn(NormalizedUsage) -> int,
    n: int,
)
    requires
        0 <= n <= places.len(),
        requests.len() == places.len(),
        forall|i: int|
            0 <= i < places.len() ==> session_usage::usage_view((#[trigger] requests[i]).usage)
                == session_usage::request_usage(raws[places[i] as int]),
        forall|u: NormalizedUsage| #[trigger] own(u) == counter(u@),
    ensures
        summed(session_usage::usages_in(raws, places, n), counter) == in_all(requests, own, n),
        session_usage::usages_in(raws, places, n).len() == measured(requests, n),
    decreases n,
{
    if n > 0 {
        lemma_summed_in_all(requests, raws, places, counter, own, n - 1);
        let before = session_usage::usages_in(raws, places, n - 1);
        assert(session_usage::usage_view(requests[n - 1].usage) == session_usage::request_usage(
            raws[places[n - 1] as int],
        ));
        match requests[n - 1].usage {
            Some(u) => {
                assert(before.push(u@).drop_last() =~= before);
                assert(own(u) == counter(u@));
            },
            None => {},
        }
    }
}

proof fn lemma_costs_in_all(
    requests: Seq<SessionRequest>,
    raws: Seq<RawRequest>,
    places: Seq<usize>,
    n: int,
)
    requires
        0 <= n <= places.len(),
        requests.len() == places.len(),
        forall|i: int|
            0 <= i < places.len() ==> session_usage::usage_view((#[trigger] requests[i]).usage)
                == session_usage::request_usage(raws[places[i] as int]),
        forall|i: int|
            0 <= i < requests.len() && (#[trigger] requests[i]).usage is Some
                ==> requests[i].usage->0.reported_cost_usd is None,
    ensures
        forall|i: int|
            0 <= i < session_usage::usages_in(raws, places, n).len() ==> (
            #[trigger] session_usage::usages_in(raws, places, n)[i]).reported_cost_usd is None,
    decreases n,
{
    if n > 0 {
        lemma_costs_in_all(requests, raws, places, n - 1);
        let before = session_usage::usages_in(raws, places, n - 1);
        let after = session_usage::usages_in(raws, places, n);
        assert(session_usage::usage_view(requests[n - 1].usage) == session_usage::request_usage(
            raws[places[n - 1] as int],
        ));
        assert forall|i: int| 0 <= i < after.len() implies (
        #[trigger] after[i]).reported_cost_usd is None by {
            if i < before.len() {
                assert(before[i].reported_cost_usd is None);
            }
        }
    }
}

/// Two readings of the requests of one session have the same usages in the same order.
proof fn lemma_requests_are_determined(
    a: Seq<RawRequest>,
    b: Seq<RawRequest>,
    events: Seq<SessionEvent>,
    source: NameView,
    session: Seq<char>,
)
    requires
        session_usage::are_requests(a, events, source, session),
        session_usage::are_requests(b, events, source, session),
    ensures
        a.len() == b.len(),
        session_usage::request_page_keys(a) == session_usage::request_page_keys(b),
        forall|i: int|
            0 <= i < a.len() ==> session_usage::request_usage(#[trigger] a[i])
                == session_usage::request_usage(b[i]) && session_usage::request_diagnostics(a[i])
                == session_usage::request_diagnostics(b[i]),
{
    let n = events.len() as int;
    let keys = session_usage::request_keys(events, source.name, session, n);
    assert forall|i: int| 0 <= i < a.len() implies session_usage::request_usage(#[trigger] a[i])
        == session_usage::request_usage(b[i]) && session_usage::request_diagnostics(a[i])
        == session_usage::request_diagnostics(b[i]) && session_usage::request_page_key(a[i])
        == session_usage::request_page_key(b[i]) by {
        let own = session_usage::group(events, source.name, session, keys[i], n);
        assert(session_usage::is_request(a[i], source, session, keys[i], own));
        assert(session_usage::is_request(b[i], source, session, keys[i], own));
    }
    assert(session_usage::request_page_keys(a) =~= session_usage::request_page_keys(b));
}

proof fn lemma_usages_are_determined(
    a: Seq<RawRequest>,
    b: Seq<RawRequest>,
    places: Seq<usize>,
    n: int,
)
    requires
        0 <= n <= places.len(),
        a.len() == b.len(),
        forall|i: int| 0 <= i < places.len() ==> (#[trigger] places[i]) < a.len(),
        forall|i: int|
            0 <= i < a.len() ==> session_usage::request_usage(#[trigger] a[i])
                == session_usage::request_usage(b[i]),
    ensures
        session_usage::usages_in(a, places, n) == session_usage::usages_in(b, places, n),
    decreases n,
{
    if n > 0 {
        lemma_usages_are_determined(a, b, places, n - 1);
        assert(places[n - 1] < a.len());
        assert(session_usage::request_usage(a[places[n - 1] as int])
            == session_usage::request_usage(b[places[n - 1] as int]));
    }
}

proof fn lemma_order_has_every_row(keys: Seq<keyset::PageKey>)
    requires
        keys.len() <= usize::MAX,
    ensures
        keyset::in_order(keys).len() == keys.len(),
        forall|i: int|
            0 <= i < keyset::in_order(keys).len() ==> (#[trigger] keyset::in_order(keys)[i])
                < keys.len(),
        forall|q: int| 0 <= q < keys.len() ==> #[trigger] keyset::on_page(keyset::in_order(keys), q),
{
    let n = keys.len() as int;
    let (order, more) = keyset::the_page(keys, None, n);
    keyset::law_page_exists(keys, None, n);
    assert forall|q: int| 0 <= q < n implies #[trigger] keyset::on_page(order, q) by {
        keyset::law_order_holds_every_row(keys, order, more, q);
    }
    let whole = vstd::set_lib::set_int_range(0, n);
    let places = order.map_values(|p: usize| p as int);
    vstd::set_lib::lemma_int_range(0, n);
    assert(whole.subset_of(places.to_set())) by {
        assert forall|q: int| whole.contains(q) implies #[trigger] places.to_set().contains(q) by {
            assert(keyset::on_page(order, q));
            let i = choose|i: int| 0 <= i < order.len() && #[trigger] order[i] == q;
            assert(places[i] == q);
        }
    }
    vstd::seq_lib::seq_to_set_is_finite(places);
    vstd::set_lib::lemma_len_subset(whole, places.to_set());
    places.lemma_cardinality_of_set();
}

proof fn lemma_keys_fit(events: Seq<SessionEvent>, source: Seq<char>, session: Seq<char>, n: int)
    requires
        0 <= n <= events.len(),
    ensures
        session_usage::request_keys(events, source, session, n).len() <= n,
    decreases n,
{
    if n > 0 {
        lemma_keys_fit(events, source, session, n - 1);
    }
}

/// Whether a request is reported as one that may be a part of one only.
pub open spec fn is_doubtful(request: SessionRequest) -> bool {
    request.diagnostics@.contains(UsageDiagnostic::UnresolvedRequestIdentity)
}

/// The total of a session is the sum of its requests: where there is one, each of its
/// counters is the sum of that counter over the requests that report a usage. It counts
/// those requests, and all of them.
pub proof fn law_session_total_is_the_sum_of_its_requests(
    events: &[SessionEvent],
    calls: &[SessionToolCall],
    source: SourceName,
    session_id: &str,
    requests: Vec<SessionRequest>,
    summary: Option<SessionUsageSummary>,
)
    requires
        call_ensures(all_requests, (events, calls, &source, session_id), requests),
        call_ensures(session_usage_summary, (events, &source, session_id), summary),
    ensures
        summary is Some <==> requests@.len() > 0,
        summary is Some ==> summary->0.total_request_count == requests@.len(),
        summary is Some ==> summary->0.request_count == measured(
            requests@,
            requests@.len() as int,
        ),
        summary is Some && summary->0.usage is Some ==> {
            let total = summary->0.usage->0;
            let n = requests@.len() as int;
            &&& total.input_tokens as int == in_all(
                requests@,
                |u: NormalizedUsage| u.input_tokens as int,
                n,
            )
            &&& total.output_tokens as int == in_all(
                requests@,
                |u: NormalizedUsage| u.output_tokens as int,
                n,
            )
            &&& total.cache_read_tokens as int == in_all(
                requests@,
                |u: NormalizedUsage| u.cache_read_tokens as int,
                n,
            )
            &&& total.cache_write_tokens as int == in_all(
                requests@,
                |u: NormalizedUsage| u.cache_write_tokens as int,
                n,
            )
        },
{
    let raws = choose|raws: Seq<RawRequest>| #[trigger]
        session_usage::are_requests(raws, events@, source@, session_id@)
            && session_usage::are_all_requests(requests@, raws, calls@);
    let keys = session_usage::request_page_keys(raws);
    let places = keyset::in_order(keys);
    let n = places.len() as int;
    lemma_keys_fit(events@, source@.name, session_id@, events@.len() as int);
    lemma_order_has_every_row(keys);
    assert forall|i: int| 0 <= i < places.len() implies session_usage::usage_view(
        (#[trigger] requests@[i]).usage,
    ) == session_usage::request_usage(raws[places[i] as int]) by {
        assert(session_usage::is_session_request(
            requests@[i],
            raws[places[i] as int],
            calls@,
        ));
    }
    if summary is Some {
        let own = choose|own: Seq<RawRequest>| #[trigger]
            session_usage::are_requests(own, events@, source@, session_id@) && own.len() > 0
                && session_usage::is_summary(summary->0, own, source@.name, session_id@);
        lemma_requests_are_determined(own, raws, events@, source@, session_id@);
        lemma_usages_are_determined(own, raws, places, n);
        let usages = session_usage::usages_of(own);
        assert(usages == session_usage::usages_in(raws, places, n));
        lemma_summed_in_all(
            requests@,
            raws,
            places,
            |u: UsageView| u.input_tokens as int,
            |u: NormalizedUsage| u.input_tokens as int,
            n,
        );
        lemma_summed_in_all(
            requests@,
            raws,
            places,
            |u: UsageView| u.output_tokens as int,
            |u: NormalizedUsage| u.output_tokens as int,
            n,
        );
        lemma_summed_in_all(
            requests@,
            raws,
            places,
            |u: UsageView| u.cache_read_tokens as int,
            |u: NormalizedUsage| u.cache_read_tokens as int,
            n,
        );
        lemma_summed_in_all(
            requests@,
            raws,
            places,
            |u: UsageView| u.cache_write_tokens as int,
            |u: NormalizedUsage| u.cache_write_tokens as int,
            n,
        );
        if summary->0.usage is Some {
            lemma_total_is_summed(usages);
        }
    }
}

/// A session has a total wherever one of its requests reports a usage, none is doubtful,
/// none reports a cost and every counter fits; a doubtful request keeps the total away.
pub proof fn law_session_has_a_total(
    events: &[SessionEvent],
    calls: &[SessionToolCall],
    source: SourceName,
    session_id: &str,
    requests: Vec<SessionRequest>,
    summary: Option<SessionUsageSummary>,
)
    requires
        call_ensures(all_requests, (events, calls, &source, session_id), requests),
        call_ensures(session_usage_summary, (events, &source, session_id), summary),
        requests@.len() > 0,
        measured(requests@, requests@.len() as int) > 0,
        forall|i: int|
            0 <= i < requests@.len() && (#[trigger] requests@[i]).usage is Some
                ==> requests@[i].usage->0.reported_cost_usd is None,
        ({
            let n = requests@.len() as int;
            &&& in_all(requests@, |u: NormalizedUsage| u.input_tokens as int, n) <= u64::MAX
            &&& in_all(requests@, |u: NormalizedUsage| u.output_tokens as int, n) <= u64::MAX
            &&& in_all(requests@, |u: NormalizedUsage| u.cache_read_tokens as int, n) <= u64::MAX
            &&& in_all(requests@, |u: NormalizedUsage| u.cache_write_tokens as int, n) <= u64::MAX
            &&& in_all(requests@, |u: NormalizedUsage| count(u.reasoning_tokens), n) <= u64::MAX
            &&& in_all(requests@, |u: NormalizedUsage| count(u.cache_write_5m_tokens), n)
                <= u64::MAX
            &&& in_all(requests@, |u: NormalizedUsage| count(u.cache_write_1h_tokens), n)
                <= u64::MAX
            &&& in_all(requests@, |u: NormalizedUsage| count(u.provider_total_tokens), n)
                <= u64::MAX
        }),
    ensures
        summary is Some,
        !summary->0.overflowed,
        summary->0.usage is Some <==> forall|i: int|
            0 <= i < requests@.len() ==> !is_doubtful(#[trigger] requests@[i]),
{
    let raws = choose|raws: Seq<RawRequest>| #[trigger]
        session_usage::are_requests(raws, events@, source@, session_id@)
            && session_usage::are_all_requests(requests@, raws, calls@);
    let keys = session_usage::request_page_keys(raws);
    let places = keyset::in_order(keys);
    let n = places.len() as int;
    lemma_keys_fit(events@, source@.name, session_id@, events@.len() as int);
    lemma_order_has_every_row(keys);
    assert forall|i: int| 0 <= i < places.len() implies session_usage::usage_view(
        (#[trigger] requests@[i]).usage,
    ) == session_usage::request_usage(raws[places[i] as int]) && requests@[i].diagnostics@
        == session_usage::request_diagnostics(raws[places[i] as int]) by {
        assert(session_usage::is_session_request(
            requests@[i],
            raws[places[i] as int],
            calls@,
        ));
    }
    let own = choose|own: Seq<RawRequest>| #[trigger]
        session_usage::are_requests(own, events@, source@, session_id@) && own.len() > 0
            && session_usage::is_summary(summary->0, own, source@.name, session_id@);
    lemma_requests_are_determined(own, raws, events@, source@, session_id@);
    lemma_usages_are_determined(own, raws, places, n);
    let usages = session_usage::usages_of(own);
    assert(usages == session_usage::usages_in(raws, places, n));
    lemma_costs_in_all(requests@, raws, places, n);
    lemma_summed_in_all(
        requests@,
        raws,
        places,
        |u: UsageView| u.input_tokens as int,
        |u: NormalizedUsage| u.input_tokens as int,
        n,
    );
    lemma_summed_in_all(
        requests@,
        raws,
        places,
        |u: UsageView| u.output_tokens as int,
        |u: NormalizedUsage| u.output_tokens as int,
        n,
    );
    lemma_summed_in_all(
        requests@,
        raws,
        places,
        |u: UsageView| u.cache_read_tokens as int,
        |u: NormalizedUsage| u.cache_read_tokens as int,
        n,
    );
    lemma_summed_in_all(
        requests@,
        raws,
        places,
        |u: UsageView| u.cache_write_tokens as int,
        |u: NormalizedUsage| u.cache_write_tokens as int,
        n,
    );
    lemma_summed_in_all(
        requests@,
        raws,
        places,
        |u: UsageView| count(u.reasoning_tokens),
        |u: NormalizedUsage| count(u.reasoning_tokens),
        n,
    );
    lemma_summed_in_all(
        requests@,
        raws,
        places,
        |u: UsageView| count(u.cache_write_5m_tokens),
        |u: NormalizedUsage| count(u.cache_write_5m_tokens),
        n,
    );
    lemma_summed_in_all(
        requests@,
        raws,
        places,
        |u: UsageView| count(u.cache_write_1h_tokens),
        |u: NormalizedUsage| count(u.cache_write_1h_tokens),
        n,
    );
    lemma_summed_in_all(
        requests@,
        raws,
        places,
        |u: UsageView| count(u.provider_total_tokens),
        |u: NormalizedUsage| count(u.provider_total_tokens),
        n,
    );
    lemma_total_that_fits(usages);
    let doubt = UsageDiagnostic::UnresolvedRequestIdentity;
    let sure = forall|i: int| 0 <= i < requests@.len() ==> !is_doubtful(#[trigger] requests@[i]);
    if session_usage::reports(own, doubt) {
        let q = choose|q: int|
            0 <= q < own.len() && session_usage::request_diagnostics(#[trigger] own[q]).contains(
                doubt,
            );
        assert(keyset::on_page(places, q));
        let i = choose|i: int| 0 <= i < places.len() && #[trigger] places[i] == q;
        assert(requests@[i].diagnostics@ == session_usage::request_diagnostics(
            raws[places[i] as int],
        ));
        assert(is_doubtful(requests@[i]));
    }
    if !sure {
        let i = choose|i: int| 0 <= i < requests@.len() && is_doubtful(#[trigger] requests@[i]);
        let q = places[i] as int;
        assert(session_usage::request_diagnostics(own[q]).contains(doubt));
    }
}

/// Whether an event is part of a request of a session: it is an answer of that session,
/// with the id of a message.
pub open spec fn is_answer(event: SessionEvent, source: Seq<char>, session: Seq<char>) -> bool {
    &&& event.source@ == source
    &&& event.session_id@ == session
    &&& event.role@ == "assistant"@
    &&& event.message_id is Some
    &&& event.message_id->0@.len() > 0
}

/// Whether an id is there and not empty.
pub open spec fn is_given(id: Option<String>) -> bool {
    id is Some && id->0@.len() > 0
}

/// What an event says which request it is of: the provider's id of the request, else its
/// id of the message, else the id of the record.
pub open spec fn identity(event: SessionEvent) -> Seq<char> {
    if is_given(event.request_id) {
        event.request_id->0@
    } else if is_given(event.provider_message_id) {
        event.provider_message_id->0@
    } else {
        event.message_id->0@
    }
}

/// Whether an event is a row of one request of a session.
pub open spec fn is_row(
    event: SessionEvent,
    source: Seq<char>,
    session: Seq<char>,
    key: Seq<char>,
) -> bool {
    is_answer(event, source, session) && identity(event) == key
}

/// How many of the first `n` events are rows of one request of a session.
pub open spec fn row_count(
    events: Seq<SessionEvent>,
    source: Seq<char>,
    session: Seq<char>,
    key: Seq<char>,
    n: int,
) -> nat
    decreases n,
{
    if n <= 0 {
        0
    } else {
        row_count(events, source, session, key, n - 1) + if is_row(
            events[n - 1],
            source,
            session,
            key,
        ) {
            1nat
        } else {
            0nat
        }
    }
}

proof fn lemma_rows(event: SessionEvent, source: Seq<char>, session: Seq<char>)
    ensures
        session_usage::participates(event, source, session) == is_answer(event, source, session),
        is_answer(event, source, session) ==> session_usage::key_of(event) == identity(event),
{
}

proof fn lemma_group_holds_the_rows(
    events: Seq<SessionEvent>,
    source: Seq<char>,
    session: Seq<char>,
    key: Seq<char>,
    n: int,
)
    requires
        0 <= n <= events.len(),
    ensures
        session_usage::group(events, source, session, key, n).len() == row_count(
            events,
            source,
            session,
            key,
            n,
        ),
        forall|i: int|
            0 <= i < n && is_row(#[trigger] events[i], source, session, key)
                ==> session_usage::group(events, source, session, key, n).contains(events[i]),
        forall|k: int|
            0 <= k < session_usage::group(events, source, session, key, n).len() ==> is_row(
                #[trigger] session_usage::group(events, source, session, key, n)[k],
                source,
                session,
                key,
            ) && events.contains(session_usage::group(events, source, session, key, n)[k]),
        forall|i: int|
            0 <= i < n && is_answer(#[trigger] events[i], source, session)
                ==> session_usage::request_keys(events, source, session, n).contains(
                identity(events[i]),
            ),
        forall|k: int|
            0 <= k < session_usage::request_keys(events, source, session, n).len() ==> exists|i: int|
                0 <= i < n && is_row(
                    #[trigger] events[i],
                    source,
                    session,
                    #[trigger] session_usage::request_keys(events, source, session, n)[k],
                ),
        forall|a: int, b: int|
            0 <= a < b < session_usage::request_keys(events, source, session, n).len()
                ==> #[trigger] session_usage::request_keys(events, source, session, n)[a]
                != #[trigger] session_usage::request_keys(events, source, session, n)[b],
    decreases n,
{
    if n > 0 {
        lemma_group_holds_the_rows(events, source, session, key, n - 1);
        lemma_rows(events[n - 1], source, session);
        let before = session_usage::group(events, source, session, key, n - 1);
        let after = session_usage::group(events, source, session, key, n);
        let few = session_usage::request_keys(events, source, session, n - 1);
        let keys = session_usage::request_keys(events, source, session, n);
        assert forall|i: int|
            0 <= i < n && is_row(#[trigger] events[i], source, session, key) implies after.contains(
            events[i],
        ) by {
            if i < n - 1 {
                let k = choose|k: int| 0 <= k < before.len() && before[k] == events[i];
                assert(after[k] == events[i]);
            } else {
                assert(after[before.len() as int] == events[i]);
            }
        }
        assert forall|k: int| 0 <= k < after.len() implies is_row(
            #[trigger] after[k],
            source,
            session,
            key,
        ) && events.contains(after[k]) by {
            if k < before.len() {
                assert(after[k] == before[k]);
            } else {
                assert(after[k] == events[n - 1]);
            }
        }
        assert forall|i: int|
            0 <= i < n && is_answer(#[trigger] events[i], source, session) implies keys.contains(
            identity(events[i]),
        ) by {
            let own = identity(events[i]);
            if i < n - 1 {
                let k = choose|k: int| 0 <= k < few.len() && few[k] == own;
                assert(keys[k] == own);
            } else if !few.contains(own) {
                assert(keys[few.len() as int] == own);
            }
        }
        assert forall|k: int| 0 <= k < keys.len() implies exists|i: int|
            0 <= i < n && is_row(#[trigger] events[i], source, session, #[trigger] keys[k]) by {
            if k < few.len() {
                assert(keys[k] == few[k]);
                let i = choose|i: int|
                    0 <= i < n - 1 && is_row(#[trigger] events[i], source, session, few[k]);
                assert(is_row(events[i], source, session, keys[k]));
            } else {
                assert(is_row(events[n - 1], source, session, keys[k]));
            }
        }
        assert forall|a: int, b: int| 0 <= a < b < keys.len() implies #[trigger] keys[a]
            != #[trigger] keys[b] by {
            if b < few.len() {
                assert(few[a] != few[b]);
            } else {
                assert(few.contains(few[a]));
            }
        }
    }
}

proof fn lemma_span_of_group(own: Seq<SessionEvent>)
    requires
        own.len() > 0,
    ensures
        forall|i: int|
            0 <= i < own.len() ==> session_usage::first_ts(own) <= (#[trigger] own[i]).ts_ms
                <= session_usage::last_ts(own) && session_usage::least_id(own) <= own[i].id,
        exists|i: int| 0 <= i < own.len() && (#[trigger] own[i]).ts_ms == session_usage::first_ts(
            own,
        ),
        exists|i: int| 0 <= i < own.len() && (#[trigger] own[i]).ts_ms == session_usage::last_ts(
            own,
        ),
        exists|i: int| 0 <= i < own.len() && (#[trigger] own[i]).id == session_usage::least_id(own),
    decreases own.len(),
{
    if own.len() == 1 {
        assert(own[0].ts_ms == session_usage::first_ts(own));
        assert(own[0].ts_ms == session_usage::last_ts(own));
        assert(own[0].id == session_usage::least_id(own));
    } else {
        let front = own.drop_last();
        lemma_span_of_group(front);
        let last = own[own.len() - 1];
        assert(own.last() == last);
        let a = choose|i: int|
            0 <= i < front.len() && (#[trigger] front[i]).ts_ms == session_usage::first_ts(front);
        let b = choose|i: int|
            0 <= i < front.len() && (#[trigger] front[i]).ts_ms == session_usage::last_ts(front);
        let c = choose|i: int|
            0 <= i < front.len() && (#[trigger] front[i]).id == session_usage::least_id(front);
        assert(own[a] == front[a] && own[b] == front[b] && own[c] == front[c]);
        assert forall|i: int| 0 <= i < own.len() implies session_usage::first_ts(own) <= (
        #[trigger] own[i]).ts_ms <= session_usage::last_ts(own) && session_usage::least_id(own)
            <= own[i].id by {
            if i < front.len() {
                assert(own[i] == front[i]);
            }
        }
    }
}

/// Whether a request gathers the rows with its identity, and nothing else: it counts
/// them, it spans their times, and it has thinking where one of them does.
pub open spec fn gathers(
    request: RawRequest,
    events: Seq<SessionEvent>,
    source: Seq<char>,
    session: Seq<char>,
) -> bool {
    let key = request.request_key@;
    let n = events.len() as int;
    &&& request.source@ == source
    &&& request.session_id@ == session
    &&& request.event_count == row_count(events, source, session, key, n)
    &&& request.event_count > 0
    &&& forall|i: int|
        0 <= i < n && is_row(#[trigger] events[i], source, session, key) ==> request.first_ts_ms
            <= events[i].ts_ms <= request.last_ts_ms
    &&& exists|i: int|
        0 <= i < n && is_row(#[trigger] events[i], source, session, key) && events[i].ts_ms
            == request.first_ts_ms
    &&& exists|i: int|
        0 <= i < n && is_row(#[trigger] events[i], source, session, key) && events[i].ts_ms
            == request.last_ts_ms
    &&& request.has_thinking <==> exists|i: int|
        0 <= i < n && is_row(#[trigger] events[i], source, session, key) && events[i].kind@
            == "thinking"@
}

proof fn lemma_gathered(
    request: RawRequest,
    events: Seq<SessionEvent>,
    source: NameView,
    session: Seq<char>,
    key: Seq<char>,
)
    requires
        session_usage::is_request(
            request,
            source,
            session,
            key,
            session_usage::group(events, source.name, session, key, events.len() as int),
        ),
        exists|i: int|
            0 <= i < events.len() && is_row(#[trigger] events[i], source.name, session, key),
    ensures
        request.request_key@ == key,
        gathers(request, events, source.name, session),
{
    let n = events.len() as int;
    let name = source.name;
    let own = session_usage::group(events, name, session, key, n);
    lemma_request_of_rows(events, name, session, key);
    let k = choose|i: int| 0 <= i < n && is_row(#[trigger] events[i], name, session, key);
    assert(own.contains(events[k]));
    lemma_span_of_group(own);
    let a = choose|i: int|
        0 <= i < own.len() && (#[trigger] own[i]).ts_ms == session_usage::first_ts(own);
    let b = choose|i: int|
        0 <= i < own.len() && (#[trigger] own[i]).ts_ms == session_usage::last_ts(own);
    assert(is_row(own[a], name, session, key) && events.contains(own[a]));
    assert(is_row(own[b], name, session, key) && events.contains(own[b]));
    let x = choose|x: int| 0 <= x < n && events[x] == own[a];
    let y = choose|y: int| 0 <= y < n && events[y] == own[b];
    assert(is_row(events[x], name, session, key));
    assert(is_row(events[y], name, session, key));
    if request.has_thinking {
        let c = choose|i: int| 0 <= i < own.len() && (#[trigger] own[i]).kind@ == "thinking"@;
        assert(is_row(own[c], name, session, key) && events.contains(own[c]));
        let z = choose|z: int| 0 <= z < n && events[z] == own[c];
        assert(is_row(events[z], name, session, key));
    }
    if exists|i: int|
        0 <= i < n && is_row(#[trigger] events[i], name, session, key) && events[i].kind@
            == "thinking"@ {
        let z = choose|i: int|
            0 <= i < n && is_row(#[trigger] events[i], name, session, key) && events[i].kind@
                == "thinking"@;
        assert(own.contains(events[z]));
        let c = choose|c: int| 0 <= c < own.len() && own[c] == events[z];
        assert(own[c].kind@ == "thinking"@);
    }
    assert forall|i: int|
        0 <= i < n && is_row(#[trigger] events[i], name, session, key) implies request.first_ts_ms
        <= events[i].ts_ms <= request.last_ts_ms by {
        assert(own.contains(events[i]));
        let c = choose|c: int| 0 <= c < own.len() && own[c] == events[i];
        assert(session_usage::first_ts(own) <= own[c].ts_ms <= session_usage::last_ts(own));
    }
}

/// Every answer of a session counts in exactly one of its requests, the one with its
/// identity, and a request gathers nothing else: it counts its rows, it spans their
/// times, and it has thinking where one of them does.
pub proof fn law_every_answer_is_in_one_request(
    events: &[SessionEvent],
    source: SourceName,
    session_id: &str,
    requests: Vec<RawRequest>,
)
    requires
        call_ensures(session_requests, (events, &source, session_id), requests),
    ensures
        forall|i: int|
            0 <= i < events@.len() && is_answer(
                #[trigger] events@[i],
                source.name@,
                session_id@,
            ) ==> exists|q: int|
                0 <= q < requests@.len() && (#[trigger] requests@[q]).request_key@ == identity(
                    events@[i],
                ),
        forall|p: int, q: int|
            0 <= p < q < requests@.len() ==> (#[trigger] requests@[p]).request_key@ != (
            #[trigger] requests@[q]).request_key@,
        forall|q: int|
            0 <= q < requests@.len() ==> gathers(
                #[trigger] requests@[q],
                events@,
                source.name@,
                session_id@,
            ),
{
    let n = events@.len() as int;
    let keys = session_usage::request_keys(events@, source.name@, session_id@, n);
    lemma_group_holds_the_rows(events@, source.name@, session_id@, Seq::empty(), n);
    assert forall|q: int| 0 <= q < requests@.len() implies gathers(
        #[trigger] requests@[q],
        events@,
        source.name@,
        session_id@,
    ) && requests@[q].request_key@ == keys[q] by {
        let k = choose|i: int|
            0 <= i < n && is_row(#[trigger] events@[i], source.name@, session_id@, keys[q]);
        lemma_gathered(requests@[q], events@, source@, session_id@, keys[q]);
    }
    assert forall|i: int|
        0 <= i < n && is_answer(#[trigger] events@[i], source.name@, session_id@) implies exists|
        q: int,
    |
        0 <= q < requests@.len() && (#[trigger] requests@[q]).request_key@ == identity(
            events@[i],
        ) by {
        let key = identity(events@[i]);
        let q = choose|q: int| 0 <= q < keys.len() && keys[q] == key;
        assert(requests@[q].request_key@ == key);
    }
    assert forall|p: int, q: int| 0 <= p < q < requests@.len() implies (
    #[trigger] requests@[p]).request_key@ != (#[trigger] requests@[q]).request_key@ by {
        assert(keys[p] != keys[q]);
    }
}

proof fn lemma_request_of_rows(
    events: Seq<SessionEvent>,
    source: Seq<char>,
    session: Seq<char>,
    key: Seq<char>,
)
    ensures
        ({
            let n = events.len() as int;
            let own = session_usage::group(events, source, session, key, n);
            &&& own.len() == row_count(events, source, session, key, n)
            &&& forall|i: int|
                0 <= i < n && is_row(#[trigger] events[i], source, session, key) ==> own.contains(
                    events[i],
                )
            &&& forall|k: int|
                0 <= k < own.len() ==> is_row(#[trigger] own[k], source, session, key)
                    && events.contains(own[k])
        }),
{
    lemma_group_holds_the_rows(events, source, session, key, events.len() as int);
}

proof fn lemma_tokens_of_group(own: Seq<SessionEvent>)
    ensures
        forall|i: int|
            0 <= i < own.len() && (#[trigger] own[i]).token_json is Some
                ==> session_usage::group_tokens(own).contains(own[i].token_json->0@),
        forall|k: int|
            0 <= k < session_usage::group_tokens(own).len() ==> exists|i: int|
                0 <= i < own.len() && (#[trigger] own[i]).token_json is Some
                    && own[i].token_json->0@ == #[trigger] session_usage::group_tokens(own)[k],
        forall|a: int, b: int|
            0 <= a < b < session_usage::group_tokens(own).len()
                ==> #[trigger] session_usage::group_tokens(own)[a]
                != #[trigger] session_usage::group_tokens(own)[b],
    decreases own.len(),
{
    if own.len() > 0 {
        let front = own.drop_last();
        lemma_tokens_of_group(front);
        let before = session_usage::group_tokens(front);
        let after = session_usage::group_tokens(own);
        assert forall|i: int|
            0 <= i < own.len() && (#[trigger] own[i]).token_json is Some implies after.contains(
            own[i].token_json->0@,
        ) by {
            let one = own[i].token_json->0@;
            if i < front.len() {
                assert(front[i] == own[i]);
                let k = choose|k: int| 0 <= k < before.len() && before[k] == one;
                assert(after[k] == one);
            } else if !before.contains(one) {
                assert(after[before.len() as int] == one);
            }
        }
        assert forall|k: int| 0 <= k < after.len() implies exists|i: int|
            0 <= i < own.len() && (#[trigger] own[i]).token_json is Some && own[i].token_json->0@
                == #[trigger] after[k] by {
            if k < before.len() {
                assert(after[k] == before[k]);
                let i = choose|i: int|
                    0 <= i < front.len() && (#[trigger] front[i]).token_json is Some
                        && front[i].token_json->0@ == before[k];
                assert(own[i] == front[i]);
            } else {
                assert(own[own.len() - 1].token_json is Some);
            }
        }
        assert forall|a: int, b: int| 0 <= a < b < after.len() implies #[trigger] after[a]
            != #[trigger] after[b] by {
            if b < before.len() {
                assert(before[a] != before[b]);
            } else {
                assert(before.contains(before[a]));
            }
        }
    }
}

/// Whether an event is a row of a request and carries a usage text.
pub open spec fn carries(
    events: Seq<SessionEvent>,
    source: Seq<char>,
    session: Seq<char>,
    key: Seq<char>,
    i: int,
    t: Seq<char>,
) -> bool {
    &&& 0 <= i < events.len()
    &&& is_row(events[i], source, session, key)
    &&& events[i].token_json is Some
    &&& events[i].token_json->0@ == t
}

/// The usage of a request is what its rows report: where they carry one usage text, in
/// however many copies, it is what reading that text gives; where they carry two, or
/// none, there is none, and two are said to be ambiguous.
pub proof fn law_request_usage_is_what_its_rows_report(
    events: &[SessionEvent],
    source: SourceName,
    session_id: &str,
    requests: Vec<RawRequest>,
    q: int,
    resolved: ResolvedUsage,
    raw: &str,
    read: Result<Option<NormalizedUsage>, UsageError>,
)
    requires
        call_ensures(session_requests, (events, &source, session_id), requests),
        0 <= q < requests@.len(),
        call_ensures(resolve_usage, (&requests@[q],), resolved),
        call_ensures(normalize_usage_str, (&source, raw), read),
    ensures
        ({
            let key = requests@[q].request_key@;
            &&& (exists|i: int| #[trigger]
                carries(events@, source.name@, session_id@, key, i, raw@)) && (forall|i: int, t: Seq<char>|
                #[trigger] carries(events@, source.name@, session_id@, key, i, t) ==> t == raw@) ==> session_usage::usage_view(resolved.usage) == match read {
                Ok(usage) => session_usage::usage_view(usage),
                Err(_) => None,
            }
            &&& (exists|i: int| #[trigger]
                carries(events@, source.name@, session_id@, key, i, raw@)) && (exists|i: int, t: Seq<char>|
                #[trigger] carries(events@, source.name@, session_id@, key, i, t) && t != raw@) ==> resolved.usage is None
                && resolved.diagnostics@.contains(UsageDiagnostic::AmbiguousUsageCopies)
            &&& (forall|i: int, t: Seq<char>| !#[trigger] carries(events@, source.name@, session_id@, key, i, t)) ==> resolved.usage is None
                && resolved.error is None
        }),
{
    let n = events@.len() as int;
    let keys = session_usage::request_keys(events@, source.name@, session_id@, n);
    let request = requests@[q];
    let key = request.request_key@;
    let own = session_usage::group(events@, source.name@, session_id@, keys[q], n);
    assert(session_usage::is_request(request, source@, session_id@, keys[q], own));
    lemma_request_of_rows(events@, source.name@, session_id@, key);
    lemma_tokens_of_group(own);
    let tokens = session_usage::group_tokens(own);
    assert forall|i: int, t: Seq<char>| #[trigger] carries(events@, source.name@, session_id@, key, i, t) implies tokens.contains(t) by {
        assert(own.contains(events@[i]));
        let k = choose|k: int| 0 <= k < own.len() && own[k] == events@[i];
        assert(own[k].token_json is Some);
    }
    assert forall|k: int| 0 <= k < tokens.len() implies exists|i: int|
        #![trigger carries(events@, source.name@, session_id@, key, i, tokens[k])]
        carries(events@, source.name@, session_id@, key, i, #[trigger] tokens[k]) by {
        let e = choose|e: int|
            0 <= e < own.len() && (#[trigger] own[e]).token_json is Some && own[e].token_json->0@
                == tokens[k];
        let i = choose|i: int| 0 <= i < n && events@[i] == own[e];
        assert(is_row(own[e], source.name@, session_id@, key));
        assert(carries(events@, source.name@, session_id@, key, i, tokens[k]));
    }
    if exists|i: int| #[trigger]
                carries(events@, source.name@, session_id@, key, i, raw@) {
        let i = choose|i: int| #[trigger] carries(events@, source.name@, session_id@, key, i, raw@);
        assert(tokens.contains(raw@));
        if forall|i: int, t: Seq<char>| #[trigger] carries(events@, source.name@, session_id@, key, i, t) ==> t == raw@ {
            assert(tokens =~= seq![raw@]) by {
                assert forall|k: int| 0 <= k < tokens.len() implies tokens[k] == raw@ by {
                    let e = choose|e: int| #[trigger] carries(events@, source.name@, session_id@, key, e, tokens[k]);
                }
                if tokens.len() > 1 {
                    assert(tokens[0] != tokens[1]);
                }
            }
            assert(tokens.drop_last() =~= Seq::<Seq<char>>::empty());
            assert(tokens.last() == raw@);
            assert(session_usage::least_text(tokens.drop_last()) is None);
            assert(session_usage::least_text(tokens) == Some(raw@));
        } else {
            let (j, t) = choose|j: int, t: Seq<char>| #[trigger] carries(events@, source.name@, session_id@, key, j, t) && t != raw@;
            assert(tokens.contains(t));
            let a = choose|a: int| 0 <= a < tokens.len() && tokens[a] == raw@;
            let b = choose|b: int| 0 <= b < tokens.len() && tokens[b] == t;
            assert(a != b);
            assert(request.usage_variants > 1);
            let all = session_usage::request_diagnostics(request);
            let at = session_usage::when(
                session_usage::is_unresolved(request),
                UsageDiagnostic::UnresolvedRequestIdentity,
            ).len() + session_usage::when(
                request.model_variants > 1,
                UsageDiagnostic::AmbiguousModel,
            ).len();
            assert(all[at as int] == UsageDiagnostic::AmbiguousUsageCopies);
        }
    }
    if forall|i: int, t: Seq<char>| !#[trigger] carries(events@, source.name@, session_id@, key, i, t) {
        if tokens.len() > 0 {
            let e = choose|e: int| #[trigger] carries(events@, source.name@, session_id@, key, e, tokens[0]);
            assert(false);
        }
        assert(tokens =~= Seq::<Seq<char>>::empty());
    }
}

/// A request of the message-wise source is doubtful exactly where its first row names
/// neither the request nor the message of the provider; one of another source never is.
pub proof fn law_request_without_identity_is_doubtful(
    events: &[SessionEvent],
    source: SourceName,
    session_id: &str,
    requests: Vec<RawRequest>,
    q: int,
    resolved: ResolvedUsage,
)
    requires
        call_ensures(session_requests, (events, &source, session_id), requests),
        0 <= q < requests@.len(),
        call_ensures(resolve_usage, (&requests@[q],), resolved),
    ensures
        ({
            let key = requests@[q].request_key@;
            let doubtful = resolved.diagnostics@.contains(
                UsageDiagnostic::UnresolvedRequestIdentity,
            );
            &&& source.kind != Some(Source::Claude) ==> !doubtful
            &&& (forall|i: int|
                0 <= i < events@.len() && is_row(
                    #[trigger] events@[i],
                    source.name@,
                    session_id@,
                    key,
                ) ==> is_given(events@[i].request_id) || is_given(events@[i].provider_message_id))
                ==> !doubtful
            &&& source.kind == Some(Source::Claude) && (forall|i: int|
                0 <= i < events@.len() && is_row(
                    #[trigger] events@[i],
                    source.name@,
                    session_id@,
                    key,
                ) ==> !is_given(events@[i].request_id) && !is_given(
                    events@[i].provider_message_id,
                )) ==> doubtful
        }),
{
    let n = events@.len() as int;
    let keys = session_usage::request_keys(events@, source.name@, session_id@, n);
    let request = requests@[q];
    let key = request.request_key@;
    let own = session_usage::group(events@, source.name@, session_id@, keys[q], n);
    assert(session_usage::is_request(request, source@, session_id@, keys[q], own));
    lemma_group_holds_the_rows(events@, source.name@, session_id@, key, n);
    let k = choose|i: int|
        0 <= i < n && is_row(#[trigger] events@[i], source.name@, session_id@, keys[q]);
    assert(own.contains(events@[k]));
    assert(is_row(own[0], source.name@, session_id@, key));
    let e = choose|e: int| 0 <= e < n && events@[e] == own[0];
    assert(is_row(events@[e], source.name@, session_id@, key));
    let label = session_usage::key_source_label(session_usage::origin_of(own[0]));
    if session_usage::origin_of(own[0]) == session_usage::RequestKeySource::RecordId {
        if label == session_usage::key_source_label(session_usage::RequestKeySource::RequestId) {
            session_usage::law_key_source_labels_are_distinct(
                session_usage::origin_of(own[0]),
                session_usage::RequestKeySource::RequestId,
            );
        }
        if label == session_usage::key_source_label(
            session_usage::RequestKeySource::ProviderMessageId,
        ) {
            session_usage::law_key_source_labels_are_distinct(
                session_usage::origin_of(own[0]),
                session_usage::RequestKeySource::ProviderMessageId,
            );
        }
    }
    let doubt = UsageDiagnostic::UnresolvedRequestIdentity;
    let all = session_usage::request_diagnostics(request);
    if session_usage::is_unresolved(request) {
        assert(all[0] == doubt);
    } else {
        assert forall|i: int| 0 <= i < all.len() implies all[i] != doubt by {}
    }
}

} // verus!
