//! Provider-neutral token usage.
//!
//! Every provider reports usage in its own shape, on its own accounting unit,
//! and with its own idea of what "input" excludes. [`normalize_usage`]
//! translates those shapes into [`NormalizedUsage`].
//!
//! Nothing is estimated: the provider's total is what the provider wrote, and a
//! cost is present only where the record carried one. Nothing is clamped: a
//! counter that is no non-negative integer is a [`UsageError`], not a zero.
//! [`UsageCoverage`] records which counters the provider reported, so a
//! reported zero and a missing counter stay distinguishable.
use crate::doubles;
use crate::doubles::{finite_sum, plain_zero, INFINITE};
use crate::json;
use crate::json::{JsonTree, JsonValue};
use crate::session_store::{NameView, Source, SourceName};
use crate::text;
use crate::text::same_text;
use vstd::prelude::*;
use vstd::string::*;

verus! {

/// How a source accounts for the usage it reports.
#[derive(Debug, Clone, Copy, PartialEq, Eq, Hash, PartialOrd, Ord, Structural)]
#[non_exhaustive]
pub enum UsageAccounting {
    /// One API request, reported once.
    PerRequest,
    /// One assistant message, copied onto every content block of that message.
    PerMessage,
    /// A cumulative counter differenced into a per-request delta.
    CumulativeDelta,
    /// A context-window occupancy figure, not a billed request.
    ContextProxy,
}

/// The wire label of an accounting mode.
pub open spec fn accounting_label(mode: UsageAccounting) -> Seq<char> {
    match mode {
        UsageAccounting::PerRequest => "per-request"@,
        UsageAccounting::PerMessage => "per-message"@,
        UsageAccounting::CumulativeDelta => "cumulative-delta"@,
        UsageAccounting::ContextProxy => "context-proxy"@,
    }
}

impl UsageAccounting {
    /// Stable kebab-case wire label.
    pub fn as_str(self) -> (r: &'static str)
        ensures
            r@ == accounting_label(self),
    {
        match self {
            UsageAccounting::PerRequest => "per-request",
            UsageAccounting::PerMessage => "per-message",
            UsageAccounting::CumulativeDelta => "cumulative-delta",
            UsageAccounting::ContextProxy => "context-proxy",
        }
    }

    /// The mode with a wire label, or `None` for a label that is not known.
    pub fn parse(value: &str) -> (r: Option<Self>)
        ensures
            match r {
                Some(mode) => accounting_label(mode) == value@,
                None => forall|mode: UsageAccounting| #[trigger] accounting_label(mode) != value@,
            },
    {
        if same_text(value, "per-request") {
            Some(UsageAccounting::PerRequest)
        } else if same_text(value, "per-message") {
            Some(UsageAccounting::PerMessage)
        } else if same_text(value, "cumulative-delta") {
            Some(UsageAccounting::CumulativeDelta)
        } else if same_text(value, "context-proxy") {
            Some(UsageAccounting::ContextProxy)
        } else {
            None
        }
    }
}

/// No two accounting modes share a label, so parsing a label gives back the
/// mode that it was made from.
pub proof fn law_accounting_labels_are_distinct(a: UsageAccounting, b: UsageAccounting)
    requires
        accounting_label(a) == accounting_label(b),
    ensures
        a == b,
{
    reveal_strlit("per-request");
    reveal_strlit("per-message");
    reveal_strlit("cumulative-delta");
    reveal_strlit("context-proxy");
    assert("per-request"@.len() == 11);
    assert("per-message"@.len() == 11);
    assert("per-request"@[4] != "per-message"@[4]);
    assert("cumulative-delta"@.len() == 16);
    assert("context-proxy"@.len() == 13);
}

/// Which counters the provider wrote.
#[derive(Debug, Clone, Copy, PartialEq, Eq, Structural)]
pub struct UsageCoverage {
    pub has_input_tokens: bool,
    pub has_output_tokens: bool,
    pub has_reasoning_tokens: bool,
    pub has_cache_read_tokens: bool,
    pub has_cache_write_tokens: bool,
}

impl Default for UsageCoverage {
    fn default() -> (r: Self)
        ensures
            r == no_coverage(),
    {
        UsageCoverage {
            has_input_tokens: false,
            has_output_tokens: false,
            has_reasoning_tokens: false,
            has_cache_read_tokens: false,
            has_cache_write_tokens: false,
        }
    }
}

/// A coverage with nothing reported.
pub open spec fn no_coverage() -> UsageCoverage {
    UsageCoverage {
        has_input_tokens: false,
        has_output_tokens: false,
        has_reasoning_tokens: false,
        has_cache_read_tokens: false,
        has_cache_write_tokens: false,
    }
}

/// What either of two coverages covers.
pub open spec fn merged_coverage(a: UsageCoverage, b: UsageCoverage) -> UsageCoverage {
    UsageCoverage {
        has_input_tokens: a.has_input_tokens || b.has_input_tokens,
        has_output_tokens: a.has_output_tokens || b.has_output_tokens,
        has_reasoning_tokens: a.has_reasoning_tokens || b.has_reasoning_tokens,
        has_cache_read_tokens: a.has_cache_read_tokens || b.has_cache_read_tokens,
        has_cache_write_tokens: a.has_cache_write_tokens || b.has_cache_write_tokens,
    }
}

impl UsageCoverage {
    /// Whether the provider reported every counter this record could carry.
    /// Reasoning is no part of that: few providers report it.
    pub fn is_complete(&self) -> (r: bool)
        ensures
            r == (self.has_input_tokens && self.has_output_tokens && self.has_cache_read_tokens
                && self.has_cache_write_tokens),
    {
        self.has_input_tokens && self.has_output_tokens && self.has_cache_read_tokens
            && self.has_cache_write_tokens
    }

    fn merged(self, other: Self) -> (r: Self)
        ensures
            r == merged_coverage(self, other),
    {
        UsageCoverage {
            has_input_tokens: self.has_input_tokens || other.has_input_tokens,
            has_output_tokens: self.has_output_tokens || other.has_output_tokens,
            has_reasoning_tokens: self.has_reasoning_tokens || other.has_reasoning_tokens,
            has_cache_read_tokens: self.has_cache_read_tokens || other.has_cache_read_tokens,
            has_cache_write_tokens: self.has_cache_write_tokens || other.has_cache_write_tokens,
        }
    }
}

/// One source record's usage, in provider-neutral terms. Two records are equal where
/// their counters are, and their costs are as doubles.
///
/// `input_tokens` always excludes cache reads. `cache_write_tokens` is the
/// total; the split by lifetime is `None` where the provider does not tell the
/// lifetimes apart.
#[derive(Debug)]
#[non_exhaustive]
pub struct NormalizedUsage {
    /// Ordinary input tokens, excluding cache reads.
    pub input_tokens: u64,
    pub output_tokens: u64,
    /// `None` where the provider does not report reasoning separately.
    pub reasoning_tokens: Option<u64>,
    pub cache_read_tokens: u64,
    /// Cache-write tokens of every lifetime together.
    pub cache_write_tokens: u64,
    pub cache_write_5m_tokens: Option<u64>,
    pub cache_write_1h_tokens: Option<u64>,
    /// As the provider reported it, never recomputed from the parts.
    pub provider_total_tokens: Option<u64>,
    /// As the provider reported it, never computed, in US dollars: the bits of a finite
    /// IEEE 754 double that is not below zero.
    pub reported_cost_usd: Option<u64>,
    pub accounting: UsageAccounting,
    pub coverage: UsageCoverage,
}

/// The view of a usage record.
#[verifier::ext_equal]
pub struct UsageView {
    pub input_tokens: u64,
    pub output_tokens: u64,
    pub reasoning_tokens: Option<u64>,
    pub cache_read_tokens: u64,
    pub cache_write_tokens: u64,
    pub cache_write_5m_tokens: Option<u64>,
    pub cache_write_1h_tokens: Option<u64>,
    pub provider_total_tokens: Option<u64>,
    pub reported_cost_usd: Option<u64>,
    pub accounting: UsageAccounting,
    pub coverage: UsageCoverage,
}

impl View for NormalizedUsage {
    type V = UsageView;

    open spec fn view(&self) -> UsageView {
        UsageView {
            input_tokens: self.input_tokens,
            output_tokens: self.output_tokens,
            reasoning_tokens: self.reasoning_tokens,
            cache_read_tokens: self.cache_read_tokens,
            cache_write_tokens: self.cache_write_tokens,
            cache_write_5m_tokens: self.cache_write_5m_tokens,
            cache_write_1h_tokens: self.cache_write_1h_tokens,
            provider_total_tokens: self.provider_total_tokens,
            reported_cost_usd: self.reported_cost_usd,
            accounting: self.accounting,
            coverage: self.coverage,
        }
    }
}

/// A counter, with nothing reported read as zero.
pub open spec fn or_zero(value: Option<u64>) -> u64 {
    match value {
        Some(n) => n,
        None => 0,
    }
}

/// Whether every counter of a record is zero or absent.
pub open spec fn is_zero_usage(u: UsageView) -> bool {
    &&& u.input_tokens == 0
    &&& u.output_tokens == 0
    &&& or_zero(u.reasoning_tokens) == 0
    &&& u.cache_read_tokens == 0
    &&& u.cache_write_tokens == 0
    &&& or_zero(u.cache_write_5m_tokens) == 0
    &&& or_zero(u.cache_write_1h_tokens) == 0
    &&& or_zero(u.provider_total_tokens) == 0
    &&& doubles::without_negative_zero(or_zero(u.reported_cost_usd)) == 0
}

/// A record's part in one lifetime bucket of the cache-write split: what it
/// reports, or a known zero where it reported that it wrote no cache at all.
pub open spec fn split_of(u: UsageView, bucket: Option<u64>) -> Option<u64> {
    match bucket {
        Some(n) => Some(n),
        None => if u.cache_write_tokens == 0 && u.coverage.has_cache_write_tokens {
            Some(0u64)
        } else {
            None
        },
    }
}

/// The sum of two optional counters: present only where both are. The outer
/// `None` is overflow.
pub open spec fn optional_sum(a: Option<u64>, b: Option<u64>) -> Option<Option<u64>> {
    match (a, b) {
        (Some(x), Some(y)) => if x + y <= u64::MAX {
            Some(Some((x + y) as u64))
        } else {
            None
        },
        _ => Some(None),
    }
}

/// The sum of two optional costs: present only where both are. The outer `None` is a
/// sum that is not finite.
pub open spec fn cost_sum(a: Option<u64>, b: Option<u64>) -> Option<Option<u64>> {
    match (a, b) {
        (Some(x), Some(y)) => match doubles::sum_of(x, y) {
            Some(sum) => Some(Some(sum)),
            None => None,
        },
        _ => Some(None),
    }
}

/// The sum of two records: `None` where a counter overflows or the cost is not
/// finite. An optional field is reported only where both records reported it.
pub open spec fn usage_sum(a: UsageView, b: UsageView) -> Option<UsageView> {
    let reasoning = optional_sum(a.reasoning_tokens, b.reasoning_tokens);
    let split_5m = optional_sum(
        split_of(a, a.cache_write_5m_tokens),
        split_of(b, b.cache_write_5m_tokens),
    );
    let split_1h = optional_sum(
        split_of(a, a.cache_write_1h_tokens),
        split_of(b, b.cache_write_1h_tokens),
    );
    let total = optional_sum(a.provider_total_tokens, b.provider_total_tokens);
    let cost = cost_sum(a.reported_cost_usd, b.reported_cost_usd);
    if a.input_tokens + b.input_tokens > u64::MAX || a.output_tokens + b.output_tokens > u64::MAX
        || a.cache_read_tokens + b.cache_read_tokens > u64::MAX || a.cache_write_tokens
        + b.cache_write_tokens > u64::MAX || reasoning is None || split_5m is None
        || split_1h is None || total is None || cost is None {
        None
    } else {
        Some(
            UsageView {
                input_tokens: (a.input_tokens + b.input_tokens) as u64,
                output_tokens: (a.output_tokens + b.output_tokens) as u64,
                reasoning_tokens: reasoning->0,
                cache_read_tokens: (a.cache_read_tokens + b.cache_read_tokens) as u64,
                cache_write_tokens: (a.cache_write_tokens + b.cache_write_tokens) as u64,
                cache_write_5m_tokens: split_5m->0,
                cache_write_1h_tokens: split_1h->0,
                provider_total_tokens: total->0,
                reported_cost_usd: cost->0,
                accounting: a.accounting,
                coverage: merged_coverage(a.coverage, b.coverage),
            },
        )
    }
}

/// The sum of two optional counters: present only where both are.
fn checked_add_optional(a: Option<u64>, b: Option<u64>) -> (r: Option<Option<u64>>)
    ensures
        r == optional_sum(a, b),
{
    match (a, b) {
        (Some(x), Some(y)) => match x.checked_add(y) {
            Some(sum) => Some(Some(sum)),
            None => None,
        },
        _ => Some(None),
    }
}

/// The sum of two optional costs: present only where both are.
fn checked_add_cost(a: Option<u64>, b: Option<u64>) -> (r: Option<Option<u64>>)
    ensures
        r == cost_sum(a, b),
{
    match (a, b) {
        (Some(x), Some(y)) => match finite_sum(x, y) {
            Some(sum) => Some(Some(sum)),
            None => None,
        },
        _ => Some(None),
    }
}

impl NormalizedUsage {
    fn empty(accounting: UsageAccounting) -> (r: Self)
        ensures
            r@ == empty_usage(accounting),
    {
        NormalizedUsage {
            input_tokens: 0,
            output_tokens: 0,
            reasoning_tokens: None,
            cache_read_tokens: 0,
            cache_write_tokens: 0,
            cache_write_5m_tokens: None,
            cache_write_1h_tokens: None,
            provider_total_tokens: None,
            reported_cost_usd: None,
            accounting,
            coverage: UsageCoverage::default(),
        }
    }

    /// Whether every counter on this record is zero or absent, the lifetime
    /// buckets and the cost among them.
    pub fn is_zero(&self) -> (r: bool)
        ensures
            r == is_zero_usage(self@),
    {
        self.input_tokens == 0 && self.output_tokens == 0 && self.reasoning_tokens.unwrap_or(0) == 0
            && self.cache_read_tokens == 0 && self.cache_write_tokens == 0
            && self.cache_write_5m_tokens.unwrap_or(0) == 0 && self.cache_write_1h_tokens.unwrap_or(
            0,
        ) == 0 && self.provider_total_tokens.unwrap_or(0) == 0 && plain_zero(
            self.reported_cost_usd.unwrap_or(0),
        ) == 0
    }

    fn split_bucket(&self, bucket: Option<u64>) -> (r: Option<u64>)
        ensures
            r == split_of(self@, bucket),
    {
        match bucket {
            Some(n) => Some(n),
            None => if self.cache_write_tokens == 0 && self.coverage.has_cache_write_tokens {
                Some(0)
            } else {
                None
            },
        }
    }

    /// Adds two records of one accounting mode: `None` where a counter overflows or the
    /// cost is no longer finite.
    ///
    /// An optional field is reported only where both records reported it. The
    /// one exception is the cache-write split of a record that reported that it
    /// wrote no cache: that split is known to be zero.
    pub fn checked_add(&self, other: &Self) -> (r: Option<Self>)
        ensures
            match r {
                Some(sum) => usage_sum(self@, other@) == Some(sum@),
                None => usage_sum(self@, other@) is None,
            },
    {
        let input_tokens: u64 = match self.input_tokens.checked_add(other.input_tokens) {
            Some(n) => n,
            None => return None,
        };
        let output_tokens: u64 = match self.output_tokens.checked_add(other.output_tokens) {
            Some(n) => n,
            None => return None,
        };
        let cache_read_tokens: u64 = match self.cache_read_tokens.checked_add(
            other.cache_read_tokens,
        ) {
            Some(n) => n,
            None => return None,
        };
        let cache_write_tokens: u64 = match self.cache_write_tokens.checked_add(
            other.cache_write_tokens,
        ) {
            Some(n) => n,
            None => return None,
        };
        let reasoning_tokens = match checked_add_optional(
            self.reasoning_tokens,
            other.reasoning_tokens,
        ) {
            Some(n) => n,
            None => return None,
        };
        let cache_write_5m_tokens = match checked_add_optional(
            self.split_bucket(self.cache_write_5m_tokens),
            other.split_bucket(other.cache_write_5m_tokens),
        ) {
            Some(n) => n,
            None => return None,
        };
        let cache_write_1h_tokens = match checked_add_optional(
            self.split_bucket(self.cache_write_1h_tokens),
            other.split_bucket(other.cache_write_1h_tokens),
        ) {
            Some(n) => n,
            None => return None,
        };
        let provider_total_tokens = match checked_add_optional(
            self.provider_total_tokens,
            other.provider_total_tokens,
        ) {
            Some(n) => n,
            None => return None,
        };
        let reported_cost_usd = match checked_add_cost(
            self.reported_cost_usd,
            other.reported_cost_usd,
        ) {
            Some(cost) => cost,
            None => return None,
        };
        Some(
            NormalizedUsage {
                input_tokens,
                output_tokens,
                reasoning_tokens,
                cache_read_tokens,
                cache_write_tokens,
                cache_write_5m_tokens,
                cache_write_1h_tokens,
                provider_total_tokens,
                reported_cost_usd,
                accounting: self.accounting,
                coverage: self.coverage.merged(other.coverage),
            },
        )
    }
}

/// A record of an accounting mode with nothing reported.
pub open spec fn empty_usage(accounting: UsageAccounting) -> UsageView {
    UsageView {
        input_tokens: 0,
        output_tokens: 0,
        reasoning_tokens: None,
        cache_read_tokens: 0,
        cache_write_tokens: 0,
        cache_write_5m_tokens: None,
        cache_write_1h_tokens: None,
        provider_total_tokens: None,
        reported_cost_usd: None,
        accounting,
        coverage: no_coverage(),
    }
}

impl Clone for NormalizedUsage {
    fn clone(&self) -> (r: Self)
        ensures
            r@ == self@,
    {
        NormalizedUsage {
            input_tokens: self.input_tokens,
            output_tokens: self.output_tokens,
            reasoning_tokens: self.reasoning_tokens,
            cache_read_tokens: self.cache_read_tokens,
            cache_write_tokens: self.cache_write_tokens,
            cache_write_5m_tokens: self.cache_write_5m_tokens,
            cache_write_1h_tokens: self.cache_write_1h_tokens,
            provider_total_tokens: self.provider_total_tokens,
            reported_cost_usd: self.reported_cost_usd,
            accounting: self.accounting,
            coverage: self.coverage,
        }
    }
}

fn same_count(a: Option<u64>, b: Option<u64>) -> (r: bool)
    ensures
        r == (a == b),
{
    match (a, b) {
        (Some(x), Some(y)) => x == y,
        (None, None) => true,
        _ => false,
    }
}

/// A record whose cost has no sign of zero.
pub open spec fn with_plain_cost(u: UsageView) -> UsageView {
    UsageView {
        reported_cost_usd: match u.reported_cost_usd {
            Some(bits) => Some(doubles::without_negative_zero(bits)),
            None => None,
        },
        ..u
    }
}

/// Whether two records are equal: the two zeros of a cost are one.
pub open spec fn is_same_usage(a: UsageView, b: UsageView) -> bool {
    with_plain_cost(a) == with_plain_cost(b)
}

fn same_cost(a: Option<u64>, b: Option<u64>) -> (r: bool)
    ensures
        r == match (a, b) {
            (Some(x), Some(y)) => doubles::without_negative_zero(x)
                == doubles::without_negative_zero(y),
            (None, None) => true,
            _ => false,
        },
{
    match (a, b) {
        (Some(x), Some(y)) => plain_zero(x) == plain_zero(y),
        (None, None) => true,
        _ => false,
    }
}

/// Whether two records are equal.
pub fn same_usage(a: &NormalizedUsage, b: &NormalizedUsage) -> (r: bool)
    ensures
        r == is_same_usage(a@, b@),
{
    same_cost(a.reported_cost_usd, b.reported_cost_usd) && a.input_tokens == b.input_tokens && a.output_tokens == b.output_tokens
        && same_count(a.reasoning_tokens, b.reasoning_tokens) && a.cache_read_tokens
        == b.cache_read_tokens && a.cache_write_tokens == b.cache_write_tokens && same_count(
        a.cache_write_5m_tokens,
        b.cache_write_5m_tokens,
    ) && same_count(a.cache_write_1h_tokens, b.cache_write_1h_tokens) && same_count(
        a.provider_total_tokens,
        b.provider_total_tokens,
    ) && a.accounting == b.accounting && a.coverage == b.coverage
}

impl PartialEq for NormalizedUsage {
    fn eq(&self, other: &Self) -> (r: bool) {
        same_usage(self, other)
    }
}

impl vstd::std_specs::cmp::PartialEqSpecImpl for NormalizedUsage {
    open spec fn obeys_eq_spec() -> bool {
        true
    }

    open spec fn eq_spec(&self, other: &Self) -> bool {
        is_same_usage(self@, other@)
    }
}

/// Why a usage record could not be normalized.
#[derive(Debug, PartialEq)]
#[non_exhaustive]
#[allow(inconsistent_fields)]
pub enum UsageError {
    /// The stored text is not valid JSON.
    Malformed { detail: String },
    /// The text decodes, but not to an object.
    NotAnObject,
    /// There is no accounting rule for the source.
    UnknownSource { source: String },
    /// A counter was present but is no non-negative integer that fits.
    NonIntegerCounter { field: &'static str, value: String },
    /// The cached part of an inclusive counter exceeds the counter.
    CounterRegressed { field: &'static str, value: u64, subtracted: u64 },
    /// Two reported counters could not be combined.
    CounterOverflow { field: &'static str },
    /// A reported cost is negative, not finite, or no number.
    InvalidCost { value: String },
}

/// The view of a usage error.
#[allow(inconsistent_fields)]
pub enum UsageErrorView {
    Malformed { detail: Seq<char> },
    NotAnObject,
    UnknownSource { source: Seq<char> },
    NonIntegerCounter { field: Seq<char>, value: Seq<char> },
    CounterRegressed { field: Seq<char>, value: u64, subtracted: u64 },
    CounterOverflow { field: Seq<char> },
    InvalidCost { value: Seq<char> },
}

impl View for UsageError {
    type V = UsageErrorView;

    open spec fn view(&self) -> UsageErrorView {
        match *self {
            UsageError::Malformed { detail } => UsageErrorView::Malformed { detail: detail@ },
            UsageError::NotAnObject => UsageErrorView::NotAnObject,
            UsageError::UnknownSource { source } => UsageErrorView::UnknownSource {
                source: source@,
            },
            UsageError::NonIntegerCounter { field, value } => UsageErrorView::NonIntegerCounter {
                field: field@,
                value: value@,
            },
            UsageError::CounterRegressed { field, value, subtracted } => {
                UsageErrorView::CounterRegressed { field: field@, value, subtracted }
            },
            UsageError::CounterOverflow { field } => UsageErrorView::CounterOverflow {
                field: field@,
            },
            UsageError::InvalidCost { value } => UsageErrorView::InvalidCost { value: value@ },
        }
    }
}

/// The stable identifier of a usage error.
pub open spec fn usage_error_code(error: UsageErrorView) -> Seq<char> {
    match error {
        UsageErrorView::Malformed { .. } => "USAGE_MALFORMED"@,
        UsageErrorView::NotAnObject => "USAGE_NOT_AN_OBJECT"@,
        UsageErrorView::UnknownSource { .. } => "USAGE_UNKNOWN_SOURCE"@,
        UsageErrorView::NonIntegerCounter { .. } => "USAGE_NON_INTEGER_COUNTER"@,
        UsageErrorView::CounterRegressed { .. } => "USAGE_COUNTER_REGRESSED"@,
        UsageErrorView::CounterOverflow { .. } => "USAGE_COUNTER_OVERFLOW"@,
        UsageErrorView::InvalidCost { .. } => "USAGE_INVALID_COST"@,
    }
}

/// Two usage errors with one code are of one kind.
pub proof fn law_usage_error_codes_are_distinct(a: UsageErrorView, b: UsageErrorView)
    requires
        usage_error_code(a) == usage_error_code(b),
    ensures
        a is Malformed == b is Malformed,
        a is NotAnObject == b is NotAnObject,
        a is UnknownSource == b is UnknownSource,
        a is NonIntegerCounter == b is NonIntegerCounter,
        a is CounterRegressed == b is CounterRegressed,
        a is CounterOverflow == b is CounterOverflow,
        a is InvalidCost == b is InvalidCost,
{
    reveal_strlit("USAGE_MALFORMED");
    reveal_strlit("USAGE_NOT_AN_OBJECT");
    reveal_strlit("USAGE_UNKNOWN_SOURCE");
    reveal_strlit("USAGE_NON_INTEGER_COUNTER");
    reveal_strlit("USAGE_COUNTER_REGRESSED");
    reveal_strlit("USAGE_COUNTER_OVERFLOW");
    reveal_strlit("USAGE_INVALID_COST");
    assert("USAGE_MALFORMED"@.len() == 15);
    assert("USAGE_NOT_AN_OBJECT"@.len() == 19);
    assert("USAGE_UNKNOWN_SOURCE"@.len() == 20);
    assert("USAGE_NON_INTEGER_COUNTER"@.len() == 25);
    assert("USAGE_COUNTER_REGRESSED"@.len() == 23);
    assert("USAGE_COUNTER_OVERFLOW"@.len() == 22);
    assert("USAGE_INVALID_COST"@.len() == 18);
}

/// What a usage error says, behind its code.
pub open spec fn usage_error_detail(error: UsageErrorView) -> Seq<char> {
    match error {
        UsageErrorView::Malformed { detail } => detail,
        UsageErrorView::NotAnObject => "usage is not a JSON object"@,
        UsageErrorView::UnknownSource { source } => "no usage accounting rule for '"@ + source
            + "'"@,
        UsageErrorView::NonIntegerCounter { field, value } => "'"@ + field
            + "' is not a non-negative integer ("@ + value + ")"@,
        UsageErrorView::CounterRegressed { field, value, subtracted } => "'"@ + field + "' is "@
            + text::decimal(value as int) + " but "@ + text::decimal(subtracted as int)
            + " cached tokens were reported against it"@,
        UsageErrorView::CounterOverflow { field } => "'"@ + field
            + "' overflowed while combining reported counters"@,
        UsageErrorView::InvalidCost { value } =>
        "reported cost is not a finite non-negative number ("@ + value + ")"@,
    }
}

impl UsageError {
    /// Stable identifier for logs, diagnostics and tests.
    pub fn code(&self) -> (r: &'static str)
        ensures
            r@ == usage_error_code(self@),
    {
        match self {
            UsageError::Malformed { .. } => "USAGE_MALFORMED",
            UsageError::NotAnObject => "USAGE_NOT_AN_OBJECT",
            UsageError::UnknownSource { .. } => "USAGE_UNKNOWN_SOURCE",
            UsageError::NonIntegerCounter { .. } => "USAGE_NON_INTEGER_COUNTER",
            UsageError::CounterRegressed { .. } => "USAGE_COUNTER_REGRESSED",
            UsageError::CounterOverflow { .. } => "USAGE_COUNTER_OVERFLOW",
            UsageError::InvalidCost { .. } => "USAGE_INVALID_COST",
        }
    }

    /// The error as text: its code, a colon, and what it says.
    pub fn to_string(&self) -> (r: String)
        ensures
            r@ == usage_error_code(self@) + ": "@ + usage_error_detail(self@),
    {
        let mut out = self.code().to_owned();
        out.append(": ");
        let ghost head = out@;
        match self {
            UsageError::Malformed { detail } => {
                out.append(detail.as_str());
            },
            UsageError::NotAnObject => {
                out.append("usage is not a JSON object");
            },
            UsageError::UnknownSource { source } => {
                out.append("no usage accounting rule for '");
                out.append(source.as_str());
                out.append("'");
            },
            UsageError::NonIntegerCounter { field, value } => {
                out.append("'");
                out.append(field);
                out.append("' is not a non-negative integer (");
                out.append(value.as_str());
                out.append(")");
            },
            UsageError::CounterRegressed { field, value, subtracted } => {
                out.append("'");
                out.append(field);
                out.append("' is ");
                out.append(text::decimal_u64(*value).as_str());
                out.append(" but ");
                out.append(text::decimal_u64(*subtracted).as_str());
                out.append(" cached tokens were reported against it");
            },
            UsageError::CounterOverflow { field } => {
                out.append("'");
                out.append(field);
                out.append("' overflowed while combining reported counters");
            },
            UsageError::InvalidCost { value } => {
                out.append("reported cost is not a finite non-negative number (");
                out.append(value.as_str());
                out.append(")");
            },
        }
        assert(out@ =~= head + usage_error_detail(self@));
        out
    }
}

/// Sources whose records can be normalized.
pub const NORMALIZABLE_SOURCES: [Source; 2] = [Source::Claude, Source::Codex];

/// Whether one model request can be spread across several stored records for
/// this source. The first source writes one record for each content block of a
/// message; Codex attaches one delta to one event.
pub fn source_splits_requests_across_records(source: &SourceName) -> (r: bool)
    ensures
        r == (source@.kind == Some(Source::Claude)),
{
    match source.kind {
        Some(Source::Claude) => true,
        _ => false,
    }
}

/// The accounting mode of a source.
pub open spec fn accounting_of(kind: Option<Source>) -> Option<UsageAccounting> {
    match kind {
        Some(Source::Claude) => Some(UsageAccounting::PerMessage),
        Some(Source::Codex) => Some(UsageAccounting::CumulativeDelta),
        _ => None,
    }
}

/// The accounting mode of a source, or `None` where there is no rule for it.
pub fn kind_accounting(kind: Option<Source>) -> (r: Option<UsageAccounting>)
    ensures
        r == accounting_of(kind),
{
    match kind {
        Some(Source::Claude) => Some(UsageAccounting::PerMessage),
        Some(Source::Codex) => Some(UsageAccounting::CumulativeDelta),
        _ => None,
    }
}

/// The accounting mode a source's records use, or `None` where there is no rule
/// for it.
pub fn source_accounting(source: &SourceName) -> (r: Option<UsageAccounting>)
    ensures
        r == accounting_of(source@.kind),
{
    kind_accounting(source.kind)
}

/// A counter: absent and null are "not reported"; anything that is no
/// non-negative integer is an error.
pub open spec fn counter_of(value: Option<JsonTree>, name: Seq<char>) -> Result<
    Option<u64>,
    UsageErrorView,
> {
    match value {
        None => Ok(None),
        Some(JsonTree::Null) => Ok(None),
        Some(v) => match json::unsigned_of(v) {
            Some(n) => Ok(Some(n)),
            None => Err(
                UsageErrorView::NonIntegerCounter { field: name, value: json::rendered(v) },
            ),
        },
    }
}

/// Whether a value is a finite, non-negative number.
pub open spec fn is_valid_cost(value: JsonTree) -> bool {
    match value {
        JsonTree::Number(n) => doubles::without_negative_zero(n.bits) < INFINITE,
        _ => false,
    }
}

/// The cost under the first of some names that is present and not null.
pub open spec fn cost_of(members: Seq<(Seq<char>, JsonTree)>, names: Seq<Seq<char>>) -> Result<
    Option<u64>,
    UsageErrorView,
>
    decreases names.len(),
{
    if names.len() == 0 {
        Ok(None)
    } else {
        match json::member(members, names[0]) {
            None => cost_of(members, names.drop_first()),
            Some(JsonTree::Null) => cost_of(members, names.drop_first()),
            Some(v) => if is_valid_cost(v) {
                Ok(Some(v->Number_0.bits))
            } else {
                Err(UsageErrorView::InvalidCost { value: json::rendered(v) })
            },
        }
    }
}

/// The names under which a cost is read, in the order in which they are tried.
pub open spec fn cost_names() -> Seq<Seq<char>> {
    seq!["cost_usd"@, "costUSD"@, "total_cost_usd"@]
}

/// The first of an error found so far and the error of a counter.
pub open spec fn or_error(
    found: Option<UsageErrorView>,
    next: Result<Option<u64>, UsageErrorView>,
) -> Option<UsageErrorView> {
    match found {
        Some(e) => Some(e),
        None => match next {
            Err(e) => Some(e),
            Ok(_) => None,
        },
    }
}

/// The value of a counter that is no error.
pub open spec fn value_of(counter: Result<Option<u64>, UsageErrorView>) -> Option<u64> {
    match counter {
        Ok(value) => value,
        Err(_) => None,
    }
}

/// A counter of an object.
pub open spec fn counter(members: Seq<(Seq<char>, JsonTree)>, name: Seq<char>) -> Result<
    Option<u64>,
    UsageErrorView,
> {
    counter_of(json::member(members, name), name)
}

/// A counter of the `cache_creation` object of an object.
pub open spec fn creation_counter(
    members: Seq<(Seq<char>, JsonTree)>,
    name: Seq<char>,
    label: Seq<char>,
) -> Result<Option<u64>, UsageErrorView> {
    counter_of(
        match json::member(members, "cache_creation"@) {
            Some(v) => json::field(v, name),
            None => None,
        },
        label,
    )
}

/// The usage with a cost, where anything at all was reported.
pub open spec fn with_cost(
    usage: UsageView,
    reported: bool,
    cost: Result<Option<u64>, UsageErrorView>,
) -> Result<Option<UsageView>, UsageErrorView> {
    match cost {
        Err(e) => Err(e),
        Ok(Some(bits)) => Ok(Some(UsageView { reported_cost_usd: Some(bits), ..usage })),
        Ok(None) => if reported {
            Ok(Some(usage))
        } else {
            Ok(None)
        },
    }
}

/// The usage that a Codex record reports. Its `input_tokens` includes the cached
/// ones, which are taken out.
pub open spec fn codex_usage(members: Seq<(Seq<char>, JsonTree)>) -> Result<
    Option<UsageView>,
    UsageErrorView,
> {
    let output = counter(members, "output_tokens"@);
    let reasoning = counter(members, "reasoning_output_tokens"@);
    let total = counter(members, "total_tokens"@);
    let input = counter(members, "input_tokens"@);
    let cached = counter(members, "cached_input_tokens"@);
    let written = counter(members, "cache_write_input_tokens"@);
    let error = or_error(
        or_error(or_error(or_error(or_error(or_error(None, output), reasoning), total), input), cached),
        written,
    );
    let inclusive = or_zero(value_of(input));
    let read = or_zero(value_of(cached));
    if error is Some {
        Err(error->0)
    } else if inclusive < read {
        Err(
            UsageErrorView::CounterRegressed {
                field: "input_tokens"@,
                value: inclusive,
                subtracted: read,
            },
        )
    } else {
        with_cost(
            UsageView {
                input_tokens: (inclusive - read) as u64,
                output_tokens: or_zero(value_of(output)),
                reasoning_tokens: value_of(reasoning),
                cache_read_tokens: read,
                cache_write_tokens: or_zero(value_of(written)),
                cache_write_5m_tokens: None,
                cache_write_1h_tokens: None,
                provider_total_tokens: value_of(total),
                reported_cost_usd: None,
                accounting: UsageAccounting::CumulativeDelta,
                coverage: UsageCoverage {
                    has_input_tokens: value_of(input) is Some,
                    has_output_tokens: value_of(output) is Some,
                    has_reasoning_tokens: value_of(reasoning) is Some,
                    has_cache_read_tokens: value_of(cached) is Some,
                    has_cache_write_tokens: value_of(written) is Some,
                },
            },
            value_of(output) is Some || value_of(reasoning) is Some || value_of(total) is Some
                || value_of(input) is Some || value_of(cached) is Some || value_of(written) is Some,
            cost_of(members, cost_names()),
        )
    }
}

/// The usage that a record of the message-wise source reports. Its `input_tokens` excludes cache
/// reads already; the provider's total of cache writes is preferred to the sum
/// of its split.
pub open spec fn claude_usage(members: Seq<(Seq<char>, JsonTree)>) -> Result<
    Option<UsageView>,
    UsageErrorView,
> {
    let output = counter(members, "output_tokens"@);
    let reasoning = counter(members, "reasoning_output_tokens"@);
    let total = counter(members, "total_tokens"@);
    let input = counter(members, "input_tokens"@);
    let read = counter(members, "cache_read_input_tokens"@);
    let written = counter(members, "cache_creation_input_tokens"@);
    let split_5m = creation_counter(
        members,
        "ephemeral_5m_input_tokens"@,
        "cache_creation.ephemeral_5m_input_tokens"@,
    );
    let split_1h = creation_counter(
        members,
        "ephemeral_1h_input_tokens"@,
        "cache_creation.ephemeral_1h_input_tokens"@,
    );
    let error = or_error(
        or_error(
            or_error(
                or_error(or_error(or_error(or_error(or_error(None, output), reasoning), total), input), read),
                written,
            ),
            split_5m,
        ),
        split_1h,
    );
    let split_sum = or_zero(value_of(split_5m)) + or_zero(value_of(split_1h));
    if error is Some {
        Err(error->0)
    } else if value_of(written) is None && split_sum > u64::MAX {
        Err(UsageErrorView::CounterOverflow { field: "cache_creation"@ })
    } else {
        with_cost(
            UsageView {
                input_tokens: or_zero(value_of(input)),
                output_tokens: or_zero(value_of(output)),
                reasoning_tokens: value_of(reasoning),
                cache_read_tokens: or_zero(value_of(read)),
                cache_write_tokens: match value_of(written) {
                    Some(n) => n,
                    None => split_sum as u64,
                },
                cache_write_5m_tokens: value_of(split_5m),
                cache_write_1h_tokens: value_of(split_1h),
                provider_total_tokens: value_of(total),
                reported_cost_usd: None,
                accounting: UsageAccounting::PerMessage,
                coverage: UsageCoverage {
                    has_input_tokens: value_of(input) is Some,
                    has_output_tokens: value_of(output) is Some,
                    has_reasoning_tokens: value_of(reasoning) is Some,
                    has_cache_read_tokens: value_of(read) is Some,
                    has_cache_write_tokens: value_of(written) is Some || value_of(split_5m) is Some
                        || value_of(split_1h) is Some,
                },
            },
            value_of(output) is Some || value_of(reasoning) is Some || value_of(total) is Some
                || value_of(input) is Some || value_of(read) is Some || value_of(written) is Some
                || value_of(split_5m) is Some || value_of(split_1h) is Some,
            cost_of(members, cost_names()),
        )
    }
}

/// The usage that a decoded record of a source reports.
pub open spec fn normalized(source: NameView, value: JsonTree) -> Result<
    Option<UsageView>,
    UsageErrorView,
> {
    if accounting_of(source.kind) is None {
        Err(UsageErrorView::UnknownSource { source: source.name })
    } else {
        match value {
            JsonTree::Null => Ok(None),
            JsonTree::Object(members) => if source.kind == Some(Source::Codex) {
                codex_usage(members)
            } else {
                claude_usage(members)
            },
            _ => Err(UsageErrorView::NotAnObject),
        }
    }
}

/// The usage that a stored record of a source reports: one that does not decode
/// is malformed.
pub open spec fn normalized_text(source: NameView, raw: Seq<char>) -> Result<
    Option<UsageView>,
    UsageErrorView,
> {
    match json::decoded(raw) {
        Ok(value) => normalized(source, value),
        Err(detail) => Err(UsageErrorView::Malformed { detail }),
    }
}

/// The view of a normalization result.
pub open spec fn outcome(result: Result<Option<NormalizedUsage>, UsageError>) -> Result<
    Option<UsageView>,
    UsageErrorView,
> {
    match result {
        Ok(Some(usage)) => Ok(Some(usage@)),
        Ok(None) => Ok(None),
        Err(error) => Err(error@),
    }
}

/// The view of a counter that was read.
pub open spec fn counter_outcome(result: Result<Option<u64>, UsageError>) -> Result<
    Option<u64>,
    UsageErrorView,
> {
    match result {
        Ok(value) => Ok(value),
        Err(error) => Err(error@),
    }
}

/// Reads one counter.
fn read_counter(value: Option<&JsonValue>, field: &'static str) -> (r: Result<
    Option<u64>,
    UsageError,
>)
    ensures
        counter_outcome(r) == counter_of(
            match value {
                Some(v) => Some(v@),
                None => None,
            },
            field@,
        ),
{
    match value {
        None => Ok(None),
        Some(JsonValue::Null) => Ok(None),
        Some(v) => match v.as_unsigned() {
            Some(n) => Ok(Some(n)),
            None => Err(UsageError::NonIntegerCounter { field, value: json::render(v) }),
        },
    }
}

/// Reads one counter of an object.
fn read_member(members: &Vec<(String, JsonValue)>, field: &'static str) -> (r: Result<
    Option<u64>,
    UsageError,
>)
    ensures
        counter_outcome(r) == counter(json::member_views(members@), field@),
{
    read_counter(json::find_member(members, field), field)
}

/// Reads the cost of an object: it is only ever read back, never computed.
fn read_cost(members: &Vec<(String, JsonValue)>) -> (r: Result<Option<u64>, UsageError>)
    ensures
        counter_outcome(r) == cost_of(json::member_views(members@), cost_names()),
{
    let names = ["cost_usd", "costUSD", "total_cost_usd"];
    let mut i: usize = 0;
    assert(cost_names().skip(0) =~= cost_names());
    while i < 3
        invariant
            names@.len() == 3,
            names@[0]@ == "cost_usd"@,
            names@[1]@ == "costUSD"@,
            names@[2]@ == "total_cost_usd"@,
            i <= 3,
            cost_of(json::member_views(members@), cost_names()) == cost_of(
                json::member_views(members@),
                cost_names().skip(i as int),
            ),
        decreases 3 - i,
    {
        assert(cost_names().skip(i as int)[0] == names@[i as int]@);
        assert(cost_names().skip(i as int).drop_first() =~= cost_names().skip(i + 1));
        match json::find_member(members, names[i]) {
            None => {},
            Some(JsonValue::Null) => {},
            Some(v) => {
                match v {
                    JsonValue::Number(n) => {
                        if plain_zero(n.bits) < INFINITE {
                            return Ok(Some(n.bits));
                        }
                    },
                    _ => {},
                }
                return Err(UsageError::InvalidCost { value: json::render(v) });
            },
        }
        i = i + 1;
    }
    Ok(None)
}

/// Normalizes one stored `token_json` text.
///
/// `Ok(None)` means that the text carried no recognized counter at all, which is
/// different from usage evidence that says zero.
pub fn normalize_usage_str(source: &SourceName, raw: &str) -> (r: Result<
    Option<NormalizedUsage>,
    UsageError,
>)
    ensures
        outcome(r) == normalized_text(source@, raw@),
{
    match json::decode(raw) {
        Ok(value) => normalize_usage(source, &value),
        Err(detail) => Err(UsageError::Malformed { detail }),
    }
}

/// Normalizes one decoded `token_json` value.
pub fn normalize_usage(source: &SourceName, token_json: &JsonValue) -> (r: Result<
    Option<NormalizedUsage>,
    UsageError,
>)
    ensures
        outcome(r) == normalized(source@, token_json@),
{
    if source_accounting(source).is_none() {
        return Err(UsageError::UnknownSource { source: source.name.clone() });
    }
    let members = match token_json {
        JsonValue::Null => return Ok(None),
        JsonValue::Object(members) => members,
        _ => return Err(UsageError::NotAnObject),
    };
    proof {
        json::lemma_object_view(*members);
        }
    let is_codex = match source.kind {
        Some(Source::Codex) => true,
        _ => false,
    };
    if is_codex {
        normalize_codex(members)
    } else {
        normalize_claude(members)
    }
}

fn finish(usage: NormalizedUsage, reported: bool, cost: Result<Option<u64>, UsageError>) -> (r:
    Result<Option<NormalizedUsage>, UsageError>)
    requires
        usage.reported_cost_usd is None,
    ensures
        outcome(r) == with_cost(usage@, reported, counter_outcome(cost)),
{
    match cost {
        Err(e) => Err(e),
        Ok(None) => if reported {
            Ok(Some(usage))
        } else {
            Ok(None)
        },
        Ok(Some(bits)) => {
            let mut priced = usage;
            priced.reported_cost_usd = Some(bits);
            Ok(Some(priced))
        },
    }
}

fn normalize_codex(members: &Vec<(String, JsonValue)>) -> (r: Result<
    Option<NormalizedUsage>,
    UsageError,
>)
    ensures
        outcome(r) == codex_usage(json::member_views(members@)),
{
    let output = match read_member(members, "output_tokens") {
        Ok(v) => v,
        Err(e) => return Err(e),
    };
    let reasoning = match read_member(members, "reasoning_output_tokens") {
        Ok(v) => v,
        Err(e) => return Err(e),
    };
    let total = match read_member(members, "total_tokens") {
        Ok(v) => v,
        Err(e) => return Err(e),
    };
    let input = match read_member(members, "input_tokens") {
        Ok(v) => v,
        Err(e) => return Err(e),
    };
    let cached = match read_member(members, "cached_input_tokens") {
        Ok(v) => v,
        Err(e) => return Err(e),
    };
    let written = match read_member(members, "cache_write_input_tokens") {
        Ok(v) => v,
        Err(e) => return Err(e),
    };
    let inclusive: u64 = input.unwrap_or(0);
    let read: u64 = cached.unwrap_or(0);
    if inclusive < read {
        return Err(
            UsageError::CounterRegressed {
                field: "input_tokens",
                value: inclusive,
                subtracted: read,
            },
        );
    }
    let mut usage = NormalizedUsage::empty(UsageAccounting::CumulativeDelta);
    usage.input_tokens = inclusive - read;
    usage.output_tokens = output.unwrap_or(0);
    usage.reasoning_tokens = reasoning;
    usage.cache_read_tokens = read;
    usage.cache_write_tokens = written.unwrap_or(0);
    usage.provider_total_tokens = total;
    usage.coverage = UsageCoverage {
        has_input_tokens: input.is_some(),
        has_output_tokens: output.is_some(),
        has_reasoning_tokens: reasoning.is_some(),
        has_cache_read_tokens: cached.is_some(),
        has_cache_write_tokens: written.is_some(),
    };
    let reported = output.is_some() || reasoning.is_some() || total.is_some() || input.is_some()
        || cached.is_some() || written.is_some();
    finish(usage, reported, read_cost(members))
}

fn normalize_claude(members: &Vec<(String, JsonValue)>) -> (r: Result<
    Option<NormalizedUsage>,
    UsageError,
>)
    ensures
        outcome(r) == claude_usage(json::member_views(members@)),
{
    let output = match read_member(members, "output_tokens") {
        Ok(v) => v,
        Err(e) => return Err(e),
    };
    let reasoning = match read_member(members, "reasoning_output_tokens") {
        Ok(v) => v,
        Err(e) => return Err(e),
    };
    let total = match read_member(members, "total_tokens") {
        Ok(v) => v,
        Err(e) => return Err(e),
    };
    let input = match read_member(members, "input_tokens") {
        Ok(v) => v,
        Err(e) => return Err(e),
    };
    let read = match read_member(members, "cache_read_input_tokens") {
        Ok(v) => v,
        Err(e) => return Err(e),
    };
    let written = match read_member(members, "cache_creation_input_tokens") {
        Ok(v) => v,
        Err(e) => return Err(e),
    };
    let creation = json::find_member(members, "cache_creation");
    let value_5m = match creation {
        Some(v) => v.get("ephemeral_5m_input_tokens"),
        None => None,
    };
    let split_5m = match read_counter(value_5m, "cache_creation.ephemeral_5m_input_tokens") {
        Ok(v) => v,
        Err(e) => return Err(e),
    };
    let value_1h = match creation {
        Some(v) => v.get("ephemeral_1h_input_tokens"),
        None => None,
    };
    let split_1h = match read_counter(value_1h, "cache_creation.ephemeral_1h_input_tokens") {
        Ok(v) => v,
        Err(e) => return Err(e),
    };
    let cache_write_tokens: u64 = match written {
        Some(n) => n,
        None => match split_5m.unwrap_or(0).checked_add(split_1h.unwrap_or(0)) {
            Some(n) => n,
            None => return Err(UsageError::CounterOverflow { field: "cache_creation" }),
        },
    };
    let mut usage = NormalizedUsage::empty(UsageAccounting::PerMessage);
    usage.input_tokens = input.unwrap_or(0);
    usage.output_tokens = output.unwrap_or(0);
    usage.reasoning_tokens = reasoning;
    usage.cache_read_tokens = read.unwrap_or(0);
    usage.cache_write_tokens = cache_write_tokens;
    usage.cache_write_5m_tokens = split_5m;
    usage.cache_write_1h_tokens = split_1h;
    usage.provider_total_tokens = total;
    usage.coverage = UsageCoverage {
        has_input_tokens: input.is_some(),
        has_output_tokens: output.is_some(),
        has_reasoning_tokens: reasoning.is_some(),
        has_cache_read_tokens: read.is_some(),
        has_cache_write_tokens: written.is_some() || split_5m.is_some() || split_1h.is_some(),
    };
    let reported = output.is_some() || reasoning.is_some() || total.is_some() || input.is_some()
        || read.is_some() || written.is_some() || split_5m.is_some() || split_1h.is_some();
    finish(usage, reported, read_cost(members))
}

/// A Codex record counts cache reads as input; normalizing takes out exactly those,
/// so nothing is lost and nothing is counted twice.
pub proof fn law_cache_reads_are_not_input(source: NameView, members: Seq<(Seq<char>, JsonTree)>)
    requires
        source.kind == Some(Source::Codex),
        normalized(source, JsonTree::Object(members)) matches Ok(Some(_)),
    ensures
        ({
            let u = normalized(source, JsonTree::Object(members))->Ok_0->0;
            &&& u.input_tokens + u.cache_read_tokens == or_zero(
                value_of(counter(members, "input_tokens"@)),
            )
            &&& u.cache_read_tokens == or_zero(value_of(counter(members, "cached_input_tokens"@)))
        }),
{
}

/// The provider's total is what the provider wrote, and a cost is there only where
/// the record carried one.
pub proof fn law_nothing_is_estimated(source: NameView, members: Seq<(Seq<char>, JsonTree)>)
    requires
        normalized(source, JsonTree::Object(members)) matches Ok(Some(_)),
    ensures
        ({
            let u = normalized(source, JsonTree::Object(members))->Ok_0->0;
            &&& u.provider_total_tokens == value_of(counter(members, "total_tokens"@))
            &&& match cost_of(members, cost_names()) {
                Ok(Some(bits)) => u.reported_cost_usd == Some(bits),
                Ok(None) => u.reported_cost_usd is None,
                Err(_) => false,
            }
        }),
{
}

proof fn lemma_bad_cost(members: Seq<(Seq<char>, JsonTree)>, names: Seq<Seq<char>>)
    ensures
        cost_of(members, names) matches Err(error) ==> error is InvalidCost,
    decreases names.len(),
{
    if names.len() > 0 {
        lemma_bad_cost(members, names.drop_first());
    }
}

/// Whether a name is that of a counter at the top of a source's records.
pub open spec fn is_counter_of(kind: Option<Source>, name: Seq<char>) -> bool {
    ||| name == "input_tokens"@
    ||| name == "output_tokens"@
    ||| name == "reasoning_output_tokens"@
    ||| name == "total_tokens"@
    ||| kind == Some(Source::Codex) && (name == "cached_input_tokens"@ || name
        == "cache_write_input_tokens"@)
    ||| kind != Some(Source::Codex) && (name == "cache_read_input_tokens"@ || name
        == "cache_creation_input_tokens"@)
}

/// Whether a counter within a source's records, at the top or under
/// `cache_creation`, is no non-negative integer.
pub open spec fn has_bad_counter(
    kind: Option<Source>,
    members: Seq<(Seq<char>, JsonTree)>,
) -> bool {
    ||| exists|name: Seq<char>|
        #[trigger] is_counter_of(kind, name) && counter(members, name) is Err
    ||| kind != Some(Source::Codex) && creation_counter(
        members,
        "ephemeral_5m_input_tokens"@,
        "cache_creation.ephemeral_5m_input_tokens"@,
    ) is Err
    ||| kind != Some(Source::Codex) && creation_counter(
        members,
        "ephemeral_1h_input_tokens"@,
        "cache_creation.ephemeral_1h_input_tokens"@,
    ) is Err
}

/// A counter that is no non-negative integer is refused, never read as some other
/// number; that holds of every counter, those under `cache_creation` among them.
pub proof fn law_nothing_is_clamped(source: NameView, members: Seq<(Seq<char>, JsonTree)>)
    requires
        accounting_of(source.kind) is Some,
    ensures
        has_bad_counter(source.kind, members) <==> normalized(
            source,
            JsonTree::Object(members),
        ) matches Err(UsageErrorView::NonIntegerCounter { .. }),
{
    let kind = source.kind;
    lemma_bad_cost(members, cost_names());
    assert(is_counter_of(kind, "input_tokens"@));
    assert(is_counter_of(kind, "output_tokens"@));
    assert(is_counter_of(kind, "reasoning_output_tokens"@));
    assert(is_counter_of(kind, "total_tokens"@));
    if kind == Some(Source::Codex) {
        assert(is_counter_of(kind, "cached_input_tokens"@));
        assert(is_counter_of(kind, "cache_write_input_tokens"@));
    } else {
        assert(is_counter_of(kind, "cache_read_input_tokens"@));
        assert(is_counter_of(kind, "cache_creation_input_tokens"@));
    }
}

/// The counter of cache reads in a source's records.
pub open spec fn cache_read_of(kind: Option<Source>, members: Seq<(Seq<char>, JsonTree)>) -> Option<
    u64,
> {
    if kind == Some(Source::Codex) {
        value_of(counter(members, "cached_input_tokens"@))
    } else {
        value_of(counter(members, "cache_read_input_tokens"@))
    }
}

/// Whether a source's records report a cache write, whole or by lifetime.
pub open spec fn reports_cache_write(
    kind: Option<Source>,
    members: Seq<(Seq<char>, JsonTree)>,
) -> bool {
    if kind == Some(Source::Codex) {
        value_of(counter(members, "cache_write_input_tokens"@)) is Some
    } else {
        ||| value_of(counter(members, "cache_creation_input_tokens"@)) is Some
        ||| value_of(
            creation_counter(
                members,
                "ephemeral_5m_input_tokens"@,
                "cache_creation.ephemeral_5m_input_tokens"@,
            ),
        ) is Some
        ||| value_of(
            creation_counter(
                members,
                "ephemeral_1h_input_tokens"@,
                "cache_creation.ephemeral_1h_input_tokens"@,
            ),
        ) is Some
    }
}

/// A reported zero and a missing counter stay distinguishable.
pub proof fn law_zero_is_not_missing(source: NameView, members: Seq<(Seq<char>, JsonTree)>)
    requires
        normalized(source, JsonTree::Object(members)) matches Ok(Some(_)),
    ensures
        ({
            let u = normalized(source, JsonTree::Object(members))->Ok_0->0;
            let output = value_of(counter(members, "output_tokens"@));
            let input = value_of(counter(members, "input_tokens"@));
            let reasoning = value_of(counter(members, "reasoning_output_tokens"@));
            let read = cache_read_of(source.kind, members);
            &&& u.coverage.has_output_tokens == (output is Some)
            &&& u.coverage.has_input_tokens == (input is Some)
            &&& u.coverage.has_reasoning_tokens == (reasoning is Some)
            &&& u.coverage.has_cache_read_tokens == (read is Some)
            &&& u.coverage.has_cache_write_tokens == reports_cache_write(source.kind, members)
            &&& u.output_tokens == or_zero(output)
            &&& u.reasoning_tokens == reasoning
            &&& u.cache_read_tokens == or_zero(read)
        }),
{
}

/// A record is no usage evidence exactly where it can be read and reports no counter
/// and no cost, which a record of zeros does.
pub proof fn law_silence_is_not_zero(source: NameView, members: Seq<(Seq<char>, JsonTree)>)
    requires
        normalized(source, JsonTree::Object(members)) is Ok,
    ensures
        normalized(source, JsonTree::Object(members)) == Ok::<_, UsageErrorView>(
            None::<UsageView>,
        ) <==> {
            &&& value_of(counter(members, "output_tokens"@)) is None
            &&& value_of(counter(members, "input_tokens"@)) is None
            &&& value_of(counter(members, "reasoning_output_tokens"@)) is None
            &&& value_of(counter(members, "total_tokens"@)) is None
            &&& cache_read_of(source.kind, members) is None
            &&& !reports_cache_write(source.kind, members)
            &&& cost_of(members, cost_names()) == Ok::<Option<u64>, UsageErrorView>(None)
        },
{
}

/// An optional field of a sum is reported only where both records reported it; in
/// the split of cache writes, a reported total of zero is a known zero of each part.
pub proof fn law_sum_reports_what_both_report(a: UsageView, b: UsageView)
    requires
        usage_sum(a, b) is Some,
    ensures
        ({
            let sum = usage_sum(a, b)->0;
            &&& sum.reasoning_tokens is Some <==> a.reasoning_tokens is Some
                && b.reasoning_tokens is Some
            &&& sum.provider_total_tokens is Some <==> a.provider_total_tokens is Some
                && b.provider_total_tokens is Some
            &&& sum.reported_cost_usd is Some <==> a.reported_cost_usd is Some
                && b.reported_cost_usd is Some
            &&& sum.cache_write_5m_tokens is Some <==> split_of(a, a.cache_write_5m_tokens) is Some
                && split_of(b, b.cache_write_5m_tokens) is Some
            &&& sum.cache_write_1h_tokens is Some <==> split_of(a, a.cache_write_1h_tokens) is Some
                && split_of(b, b.cache_write_1h_tokens) is Some
        }),
{
}

/// Two records of one accounting mode add up to the same in either order, and to
/// nothing in either order or in none.
pub proof fn law_sum_does_not_depend_on_order(a: UsageView, b: UsageView)
    requires
        a.accounting == b.accounting,
    ensures
        usage_sum(a, b) == usage_sum(b, a),
{
}

/// A counter of a sum that overflows.
pub open spec fn overflows(a: Option<u64>, b: Option<u64>) -> bool {
    a matches Some(x) && b matches Some(y) && x + y > u64::MAX
}

/// There is no sum exactly where two counters overflow or two costs add up to nothing
/// finite; what there is covers what either record covers.
pub proof fn law_sum_fails_on_overflow_alone(a: UsageView, b: UsageView)
    ensures
        usage_sum(a, b) is None <==> {
            ||| a.input_tokens + b.input_tokens > u64::MAX
            ||| a.output_tokens + b.output_tokens > u64::MAX
            ||| a.cache_read_tokens + b.cache_read_tokens > u64::MAX
            ||| a.cache_write_tokens + b.cache_write_tokens > u64::MAX
            ||| overflows(a.reasoning_tokens, b.reasoning_tokens)
            ||| overflows(
                split_of(a, a.cache_write_5m_tokens),
                split_of(b, b.cache_write_5m_tokens),
            )
            ||| overflows(
                split_of(a, a.cache_write_1h_tokens),
                split_of(b, b.cache_write_1h_tokens),
            )
            ||| overflows(a.provider_total_tokens, b.provider_total_tokens)
            ||| (a.reported_cost_usd matches Some(x) && b.reported_cost_usd matches Some(y)
                && doubles::sum_of(x, y) is None)
        },
        usage_sum(a, b) matches Some(sum) ==> sum.coverage == merged_coverage(
            a.coverage,
            b.coverage,
        ),
{
}

} // verus!
