//! The entry point for embedders: errors, sources, references to sessions, and
//! what the operations of a store decide.
//!
//! The caller opens the database, runs the sweeps and reads the provider's files.
//! A store decides whether an operation may run, what is asked of the engine, and
//! what is reported of its answer.
use crate::source_evidence::EvidenceKind;
use crate::store;
use crate::store::{join_path, SourceNames};
use crate::text;
use crate::text::{concat2, concat3, contains_text, same_text};
use crate::usage;
use crate::usage::{kind_accounting, UsageAccounting};
use crate::watch::{WatchDepth, WatchRoot, MAX_INTERVAL_MS};
use std::sync::atomic::AtomicBool;
use std::sync::Arc;
use vstd::prelude::*;
use vstd::string::*;

verus! {

/// A failure of a store that a caller can act on.
#[derive(Debug, PartialEq, Eq)]
#[non_exhaustive]
pub enum Error {
    /// The database could not be opened, created or migrated.
    DatabaseOpen(String),
    /// A read-only open refused a database of an older shape. Opening it writable
    /// once migrates it.
    StaleSchema(String),
    /// A value of the caller was rejected before anything was read.
    InvalidArgument(String),
    /// The operation is not available on this handle.
    UnsupportedOperation(String),
    /// The catalog does not hold the session.
    SessionNotFound(String),
    /// The session's provider source can no longer be reached.
    SessionSourceUnavailable(String),
    /// The provider data and the session it was claimed for disagree.
    SourceMismatch(String),
    /// The source has no full-evidence path, or not for this form of reference.
    HydrationUnsupported(String),
    /// A hydration failed for a reason with no narrower code.
    HydrationFailed(String),
    /// No connector is configured for a remote scope.
    ConnectorNotConfigured(String),
    /// The credentials of a connector have lapsed.
    AuthenticationExpired(String),
    /// A connector returned less than it declared.
    EvidencePartial(String),
    /// A connector failed outright.
    ConnectorFailure(String),
    /// A read failed inside the database.
    Query(String),
    /// The discovery pass that ends a sweep failed as a whole.
    Discovery(String),
    /// A sweep failed for a reason with no narrower code.
    SyncFailed(String),
    /// Another process holds the sync lock, and the wait for it ran out.
    SyncLocked {
        /// The database whose lock is held.
        path: String,
        waited_ms: u64,
    },
    /// A watermark names a position that this store never issued.
    WatermarkAheadOfStore(String),
    /// A named cursor was used with another kind set than its own.
    ConsumerKindsMismatch(String),
    /// The caller stopped the operation.
    Cancelled(String),
}

/// The stable code of an error.
pub open spec fn error_code(error: Error) -> Seq<char> {
    match error {
        Error::DatabaseOpen(_) => "DATABASE_OPEN_FAILED"@,
        Error::StaleSchema(_) => "DATABASE_STALE_SCHEMA"@,
        Error::InvalidArgument(_) => "INVALID_ARGUMENT"@,
        Error::UnsupportedOperation(_) => "UNSUPPORTED_OPERATION"@,
        Error::SessionNotFound(_) => "SESSION_NOT_FOUND"@,
        Error::SessionSourceUnavailable(_) => "SESSION_SOURCE_UNAVAILABLE"@,
        Error::SourceMismatch(_) => "SESSION_SOURCE_MISMATCH"@,
        Error::HydrationUnsupported(_) => "HYDRATION_UNSUPPORTED"@,
        Error::HydrationFailed(_) => "HYDRATION_FAILED"@,
        Error::ConnectorNotConfigured(_) => "CONNECTOR_NOT_CONFIGURED"@,
        Error::AuthenticationExpired(_) => "AUTHENTICATION_EXPIRED"@,
        Error::EvidencePartial(_) => "EVIDENCE_PARTIAL"@,
        Error::ConnectorFailure(_) => "CONNECTOR_FAILURE"@,
        Error::Query(_) => "QUERY_FAILED"@,
        Error::Discovery(_) => "DISCOVERY_FAILED"@,
        Error::SyncFailed(_) => "SYNC_FAILED"@,
        Error::SyncLocked { .. } => "SYNC_LOCKED"@,
        Error::WatermarkAheadOfStore(_) => "WATERMARK_AHEAD_OF_STORE"@,
        Error::ConsumerKindsMismatch(_) => "CONSUMER_KINDS_MISMATCH"@,
        Error::Cancelled(_) => "CANCELLED"@,
    }
}

/// What tells the code of an error apart: its length, and the letters at two places.
proof fn lemma_code_marks(error: Error)
    ensures
        ({
            let code = error_code(error);
            match error {
                Error::DatabaseOpen(_) => code.len() == 20 && code[0] == 'D' && code[5] == 'A',
                Error::StaleSchema(_) => code.len() == 21 && code[0] == 'D' && code[5] == 'A',
                Error::InvalidArgument(_) => code.len() == 16 && code[0] == 'I' && code[5] == 'I',
                Error::UnsupportedOperation(_) => code.len() == 21 && code[0] == 'U' && code[5] == 'P',
                Error::SessionNotFound(_) => code.len() == 17 && code[0] == 'S' && code[5] == 'O',
                Error::SessionSourceUnavailable(_) => code.len() == 26 && code[0] == 'S' && code[5] == 'O',
                Error::SourceMismatch(_) => code.len() == 23 && code[0] == 'S' && code[5] == 'O',
                Error::HydrationUnsupported(_) => code.len() == 21 && code[0] == 'H' && code[5] == 'T',
                Error::HydrationFailed(_) => code.len() == 16 && code[0] == 'H' && code[5] == 'T',
                Error::ConnectorNotConfigured(_) => code.len() == 24 && code[0] == 'C' && code[5] == 'C',
                Error::AuthenticationExpired(_) => code.len() == 22 && code[0] == 'A' && code[5] == 'N',
                Error::EvidencePartial(_) => code.len() == 16 && code[0] == 'E' && code[5] == 'N',
                Error::ConnectorFailure(_) => code.len() == 17 && code[0] == 'C' && code[5] == 'C',
                Error::Query(_) => code.len() == 12 && code[0] == 'Q' && code[5] == '_',
                Error::Discovery(_) => code.len() == 16 && code[0] == 'D' && code[5] == 'V',
                Error::SyncFailed(_) => code.len() == 11 && code[0] == 'S' && code[5] == 'F',
                Error::SyncLocked { .. } => code.len() == 11 && code[0] == 'S' && code[5] == 'L',
                Error::WatermarkAheadOfStore(_) => code.len() == 24 && code[0] == 'W' && code[5] == 'M',
                Error::ConsumerKindsMismatch(_) => code.len() == 23 && code[0] == 'C' && code[5] == 'M',
                Error::Cancelled(_) => code.len() == 9 && code[0] == 'C' && code[5] == 'L',
            }
        }),
{
    reveal_strlit("DATABASE_OPEN_FAILED");
    reveal_strlit("DATABASE_STALE_SCHEMA");
    reveal_strlit("INVALID_ARGUMENT");
    reveal_strlit("UNSUPPORTED_OPERATION");
    reveal_strlit("SESSION_NOT_FOUND");
    reveal_strlit("SESSION_SOURCE_UNAVAILABLE");
    reveal_strlit("SESSION_SOURCE_MISMATCH");
    reveal_strlit("HYDRATION_UNSUPPORTED");
    reveal_strlit("HYDRATION_FAILED");
    reveal_strlit("CONNECTOR_NOT_CONFIGURED");
    reveal_strlit("AUTHENTICATION_EXPIRED");
    reveal_strlit("EVIDENCE_PARTIAL");
    reveal_strlit("CONNECTOR_FAILURE");
    reveal_strlit("QUERY_FAILED");
    reveal_strlit("DISCOVERY_FAILED");
    reveal_strlit("SYNC_FAILED");
    reveal_strlit("SYNC_LOCKED");
    reveal_strlit("WATERMARK_AHEAD_OF_STORE");
    reveal_strlit("CONSUMER_KINDS_MISMATCH");
    reveal_strlit("CANCELLED");
}

/// Two errors with one code are of one kind.
pub proof fn law_error_codes_are_distinct(a: Error, b: Error)
    requires
        error_code(a) == error_code(b),
    ensures
        a is DatabaseOpen == b is DatabaseOpen,
        a is StaleSchema == b is StaleSchema,
        a is InvalidArgument == b is InvalidArgument,
        a is UnsupportedOperation == b is UnsupportedOperation,
        a is SessionNotFound == b is SessionNotFound,
        a is SessionSourceUnavailable == b is SessionSourceUnavailable,
        a is SourceMismatch == b is SourceMismatch,
        a is HydrationUnsupported == b is HydrationUnsupported,
        a is HydrationFailed == b is HydrationFailed,
        a is ConnectorNotConfigured == b is ConnectorNotConfigured,
        a is AuthenticationExpired == b is AuthenticationExpired,
        a is EvidencePartial == b is EvidencePartial,
        a is ConnectorFailure == b is ConnectorFailure,
        a is Query == b is Query,
        a is Discovery == b is Discovery,
        a is SyncFailed == b is SyncFailed,
        a is SyncLocked == b is SyncLocked,
        a is WatermarkAheadOfStore == b is WatermarkAheadOfStore,
        a is ConsumerKindsMismatch == b is ConsumerKindsMismatch,
        a is Cancelled == b is Cancelled,
{
    lemma_code_marks(a);
    lemma_code_marks(b);
}

/// The readable part of an error.
pub open spec fn error_message(error: Error) -> Seq<char> {
    match error {
        Error::DatabaseOpen(m) => m@,
        Error::StaleSchema(m) => m@,
        Error::InvalidArgument(m) => m@,
        Error::UnsupportedOperation(m) => m@,
        Error::SessionNotFound(m) => m@,
        Error::SessionSourceUnavailable(m) => m@,
        Error::SourceMismatch(m) => m@,
        Error::HydrationUnsupported(m) => m@,
        Error::HydrationFailed(m) => m@,
        Error::ConnectorNotConfigured(m) => m@,
        Error::AuthenticationExpired(m) => m@,
        Error::EvidencePartial(m) => m@,
        Error::ConnectorFailure(m) => m@,
        Error::Query(m) => m@,
        Error::Discovery(m) => m@,
        Error::SyncFailed(m) => m@,
        Error::SyncLocked { path, waited_ms } => locked_message(path@, waited_ms),
        Error::WatermarkAheadOfStore(m) => m@,
        Error::ConsumerKindsMismatch(m) => m@,
        Error::Cancelled(m) => m@,
    }
}

/// What a held lock is reported as.
pub open spec fn locked_message(path: Seq<char>, waited_ms: u64) -> Seq<char> {
    "another sync holds the lock on "@ + path + " (waited "@ + text::decimal_nat(waited_ms as nat)
        + " ms); wait for it to finish or raise SyncOptions::lock_timeout_ms"@
}

/// The codes that the engine puts in front of the failures it can name.
pub const CODED_ERRORS: [&'static str; 10] = [
    "SESSION_NOT_FOUND",
    "SESSION_SOURCE_UNAVAILABLE",
    "SESSION_SOURCE_MISMATCH",
    "HYDRATION_UNSUPPORTED",
    "CONNECTOR_NOT_CONFIGURED",
    "AUTHENTICATION_EXPIRED",
    "EVIDENCE_PARTIAL",
    "CONNECTOR_FAILURE",
    "INVALID_ARGUMENT",
    "DISCOVERY_FAILED",
];

/// What an unnamed failure is reported as.
#[derive(Debug, Clone, Copy, PartialEq, Eq, Structural)]
pub enum Otherwise {
    Query,
    Hydration,
    Sync,
    Discovery,
}

/// The code of an unnamed failure.
pub open spec fn otherwise_code(otherwise: Otherwise) -> Seq<char> {
    match otherwise {
        Otherwise::Query => "QUERY_FAILED"@,
        Otherwise::Hydration => "HYDRATION_FAILED"@,
        Otherwise::Sync => "SYNC_FAILED"@,
        Otherwise::Discovery => "DISCOVERY_FAILED"@,
    }
}

/// Whether a failure's message starts with a code of the engine's.
pub open spec fn names_code(message: Seq<char>, i: int) -> bool {
    text::has_prefix(message, CODED_ERRORS@[i]@ + ": "@)
}

/// The first code, from a place on, that a message starts with; their number if it
/// starts with none.
pub open spec fn named_code(message: Seq<char>, i: int) -> int
    decreases 10 - i,
{
    if i >= 10 || names_code(message, i) {
        i
    } else {
        named_code(message, i + 1)
    }
}

/// The code under which a failure is reported.
pub open spec fn classified_code(
    message: Seq<char>,
    cancelled: bool,
    otherwise: Otherwise,
) -> Seq<char> {
    let i = named_code(message, 0);
    if cancelled {
        "CANCELLED"@
    } else if i < 10 {
        CODED_ERRORS@[i]@
    } else {
        otherwise_code(otherwise)
    }
}

/// The message under which a failure is reported: without the code it starts with.
pub open spec fn classified_message(message: Seq<char>, cancelled: bool) -> Seq<char> {
    let i = named_code(message, 0);
    if !cancelled && i < 10 {
        message.skip((CODED_ERRORS@[i]@ + ": "@).len() as int)
    } else {
        message
    }
}

fn coded_error(i: usize, detail: String) -> (r: Error)
    requires
        i < 10,
    ensures
        error_code(r) == CODED_ERRORS@[i as int]@,
        error_message(r) == detail@,
        !(r is SyncLocked),
{
    if i == 0 {
        Error::SessionNotFound(detail)
    } else if i == 1 {
        Error::SessionSourceUnavailable(detail)
    } else if i == 2 {
        Error::SourceMismatch(detail)
    } else if i == 3 {
        Error::HydrationUnsupported(detail)
    } else if i == 4 {
        Error::ConnectorNotConfigured(detail)
    } else if i == 5 {
        Error::AuthenticationExpired(detail)
    } else if i == 6 {
        Error::EvidencePartial(detail)
    } else if i == 7 {
        Error::ConnectorFailure(detail)
    } else if i == 8 {
        Error::InvalidArgument(detail)
    } else {
        Error::Discovery(detail)
    }
}

impl Error {
    /// The stable code.
    pub fn code(&self) -> (r: &'static str)
        ensures
            r@ == error_code(*self),
    {
        match self {
            Error::DatabaseOpen(_) => "DATABASE_OPEN_FAILED",
            Error::StaleSchema(_) => "DATABASE_STALE_SCHEMA",
            Error::InvalidArgument(_) => "INVALID_ARGUMENT",
            Error::UnsupportedOperation(_) => "UNSUPPORTED_OPERATION",
            Error::SessionNotFound(_) => "SESSION_NOT_FOUND",
            Error::SessionSourceUnavailable(_) => "SESSION_SOURCE_UNAVAILABLE",
            Error::SourceMismatch(_) => "SESSION_SOURCE_MISMATCH",
            Error::HydrationUnsupported(_) => "HYDRATION_UNSUPPORTED",
            Error::HydrationFailed(_) => "HYDRATION_FAILED",
            Error::ConnectorNotConfigured(_) => "CONNECTOR_NOT_CONFIGURED",
            Error::AuthenticationExpired(_) => "AUTHENTICATION_EXPIRED",
            Error::EvidencePartial(_) => "EVIDENCE_PARTIAL",
            Error::ConnectorFailure(_) => "CONNECTOR_FAILURE",
            Error::Query(_) => "QUERY_FAILED",
            Error::Discovery(_) => "DISCOVERY_FAILED",
            Error::SyncFailed(_) => "SYNC_FAILED",
            Error::SyncLocked { .. } => "SYNC_LOCKED",
            Error::WatermarkAheadOfStore(_) => "WATERMARK_AHEAD_OF_STORE",
            Error::ConsumerKindsMismatch(_) => "CONSUMER_KINDS_MISMATCH",
            Error::Cancelled(_) => "CANCELLED",
        }
    }

    /// The readable part, without the code.
    pub fn message(&self) -> (r: String)
        ensures
            r@ == error_message(*self),
    {
        match self {
            Error::DatabaseOpen(m) => m.clone(),
            Error::StaleSchema(m) => m.clone(),
            Error::InvalidArgument(m) => m.clone(),
            Error::UnsupportedOperation(m) => m.clone(),
            Error::SessionNotFound(m) => m.clone(),
            Error::SessionSourceUnavailable(m) => m.clone(),
            Error::SourceMismatch(m) => m.clone(),
            Error::HydrationUnsupported(m) => m.clone(),
            Error::HydrationFailed(m) => m.clone(),
            Error::ConnectorNotConfigured(m) => m.clone(),
            Error::AuthenticationExpired(m) => m.clone(),
            Error::EvidencePartial(m) => m.clone(),
            Error::ConnectorFailure(m) => m.clone(),
            Error::Query(m) => m.clone(),
            Error::Discovery(m) => m.clone(),
            Error::SyncFailed(m) => m.clone(),
            Error::SyncLocked { path, waited_ms } => {
                let waited = text::decimal_u64(*waited_ms);
                let head = concat3("another sync holds the lock on ", path.as_str(), " (waited ");
                let out = concat3(
                    head.as_str(),
                    waited.as_str(),
                    " ms); wait for it to finish or raise SyncOptions::lock_timeout_ms",
                );
                out
            },
            Error::WatermarkAheadOfStore(m) => m.clone(),
            Error::ConsumerKindsMismatch(m) => m.clone(),
            Error::Cancelled(m) => m.clone(),
        }
    }

    /// The error as text: its code, a colon, and its message.
    pub fn to_string(&self) -> (r: String)
        ensures
            r@ == error_code(*self) + ": "@ + error_message(*self),
    {
        let message = self.message();
        concat3(self.code(), ": ", message.as_str())
    }

    /// Reports a failure of the engine under the code that it starts with, or as
    /// an unnamed one. A failure that was caused by a stop is reported as that.
    pub fn classify(message: &str, cancelled: bool, otherwise: Otherwise) -> (r: Self)
        ensures
            error_code(r) == classified_code(message@, cancelled, otherwise),
            error_message(r) == classified_message(message@, cancelled),
            !(r is SyncLocked),
    {
        if cancelled {
            return Error::Cancelled(message.to_owned());
        }
        let mut i: usize = 0;
        while i < 10
            invariant
                i <= 10,
                !cancelled,
                named_code(message@, 0) == named_code(message@, i as int),
            decreases 10 - i,
        {
            let start = concat2(CODED_ERRORS[i], ": ");
            if let Some(detail) = text::strip_prefix(message, start.as_str()) {
                return coded_error(i, detail.to_owned());
            }
            i = i + 1;
        }
        match otherwise {
            Otherwise::Query => Error::Query(message.to_owned()),
            Otherwise::Hydration => Error::HydrationFailed(message.to_owned()),
            Otherwise::Sync => Error::SyncFailed(message.to_owned()),
            Otherwise::Discovery => Error::Discovery(message.to_owned()),
        }
    }

    /// A read-only store refusing a database written before the shape it reads.
    pub fn stale_schema(db_path: &str, what: &str) -> (r: Self)
        ensures
            r is StaleSchema,
            error_message(r) == stale_message(db_path@, what@),
    {
        let head = concat3(db_path, " predates the ", what);
        Error::StaleSchema(
            concat2(
                head.as_str(),
                " schema this version reads; open it writable once (or run a sync) to migrate it",
            ),
        )
    }

    /// Whether this is a read-only store refusing a database that it would have to
    /// migrate first.
    pub fn is_stale_schema(&self) -> (r: bool)
        ensures
            r == (self is StaleSchema),
    {
        match self {
            Error::StaleSchema(_) => true,
            _ => false,
        }
    }

    /// The refusal of an operation that needs a writable handle.
    pub fn read_only(operation: &str) -> (r: Self)
        ensures
            is_read_only_refusal(r, operation@),
    {
        Error::UnsupportedOperation(
            concat3(
                "SessionStore was opened read-only; `",
                operation,
                "` needs a writable handle",
            ),
        )
    }
}

/// What a database of an older shape is reported as.
pub open spec fn stale_message(db_path: Seq<char>, what: Seq<char>) -> Seq<char> {
    db_path + " predates the "@ + what
        + " schema this version reads; open it writable once (or run a sync) to migrate it"@
}

/// What is reported of a database of an older shape says that it predates what is
/// read, and that opening it writable mends it.
pub proof fn law_stale_message_names_the_remedy(db_path: Seq<char>, what: Seq<char>)
    ensures
        text::has_part(stale_message(db_path, what), "predates"@),
        text::has_part(stale_message(db_path, what), "writable"@),
{
    let head = " predates the "@;
    let tail = " schema this version reads; open it writable once (or run a sync) to migrate it"@;
    let message = stale_message(db_path, what);
    reveal_strlit(" predates the ");
    reveal_strlit("predates");
    reveal_strlit("writable");
    reveal_strlit(
        " schema this version reads; open it writable once (or run a sync) to migrate it",
    );
    let first = db_path.len() as int + 1;
    assert(message.skip(first).take(8) =~= "predates"@);
    assert(text::has_prefix(message.skip(first), "predates"@));
    let second = db_path.len() as int + head.len() + what.len() + 36;
    assert(tail.subrange(36, 44) =~= "writable"@);
    assert(message.skip(second).take(8) =~= "writable"@);
    assert(text::has_prefix(message.skip(second), "writable"@));
}

/// Whether an error is the refusal of an operation that needs a writable handle.
pub open spec fn is_read_only_refusal(error: Error, operation: Seq<char>) -> bool {
    &&& error is UnsupportedOperation
    &&& error_message(error) == "SessionStore was opened read-only; `"@ + operation
        + "` needs a writable handle"@
}

/// A coding agent that produces sessions.
#[derive(Debug, Clone, Copy, PartialEq, Eq, Hash, PartialOrd, Ord, Structural)]
#[non_exhaustive]
pub enum Source {
    Claude,
    Codex,
    Cursor,
    Grok,
    Relay,
    Trajectory,
    OpenCode,
}

/// Every source, in ledger order.
pub const ALL_SOURCES: [Source; 7] = [
    Source::Claude,
    Source::Codex,
    Source::Cursor,
    Source::Grok,
    Source::Relay,
    Source::Trajectory,
    Source::OpenCode,
];

/// The ledger's identifier of a source, where the first one is called `first`.
pub open spec fn source_label(source: Source, first: Seq<char>) -> Seq<char> {
    match source {
        Source::Claude => first,
        Source::Codex => "codex"@,
        Source::Cursor => "cursor"@,
        Source::Grok => "grok"@,
        Source::Relay => "relay"@,
        Source::Trajectory => "trajectory"@,
        Source::OpenCode => "opencode"@,
    }
}

/// The source that an identifier names, where the first one is called `first`.
pub open spec fn source_named(name: Seq<char>, first: Seq<char>) -> Option<Source> {
    if name == first {
        Some(Source::Claude)
    } else if name == "codex"@ {
        Some(Source::Codex)
    } else if name == "cursor"@ {
        Some(Source::Cursor)
    } else if name == "grok"@ {
        Some(Source::Grok)
    } else if name == "relay"@ {
        Some(Source::Relay)
    } else if name == "trajectory"@ {
        Some(Source::Trajectory)
    } else if name == "opencode"@ {
        Some(Source::OpenCode)
    } else {
        None
    }
}

/// A source by the name that the ledger has for it, and which one that is; a name
/// that is not known is none of them.
#[derive(Debug)]
pub struct SourceName {
    pub name: String,
    pub kind: Option<Source>,
}

/// The view of a named source.
pub struct NameView {
    pub name: Seq<char>,
    pub kind: Option<Source>,
}

impl View for SourceName {
    type V = NameView;

    open spec fn view(&self) -> NameView {
        NameView { name: self.name@, kind: self.kind }
    }
}

/// The source of a name.
pub open spec fn named(name: Seq<char>, first: Seq<char>) -> NameView {
    NameView { name, kind: source_named(name, first) }
}

impl SourceName {
    /// The source of a name.
    pub fn new(name: &str, names: &SourceNames) -> (r: Self)
        ensures
            r@ == named(name@, names.claude@),
    {
        SourceName { name: name.to_owned(), kind: Source::parse(name, names) }
    }
}

/// Whether the name that is given for the first source is that of no other one.
pub open spec fn is_own_name(first: Seq<char>) -> bool {
    &&& first != "codex"@
    &&& first != "cursor"@
    &&& first != "grok"@
    &&& first != "relay"@
    &&& first != "trajectory"@
    &&& first != "opencode"@
}

proof fn lemma_fixed_names_are_distinct()
    ensures
        "codex"@.len() == 5,
        "codex"@[0] == 'c',
        "cursor"@.len() == 6,
        "grok"@.len() == 4,
        "relay"@.len() == 5,
        "relay"@[0] == 'r',
        "trajectory"@.len() == 10,
        "opencode"@.len() == 8,
{
    reveal_strlit("codex");
    reveal_strlit("cursor");
    reveal_strlit("grok");
    reveal_strlit("relay");
    reveal_strlit("trajectory");
    reveal_strlit("opencode");
}

/// The identifiers of two sources are the same only where the sources are.
pub proof fn law_source_labels_are_distinct(a: Source, b: Source, first: Seq<char>)
    requires
        is_own_name(first),
        source_label(a, first) == source_label(b, first),
    ensures
        a == b,
{
    lemma_fixed_names_are_distinct();
}

/// An identifier names the source that it was made from.
pub proof fn law_label_names_its_source(source: Source, first: Seq<char>)
    requires
        is_own_name(first),
    ensures
        source_named(source_label(source, first), first) == Some(source),
{
    lemma_fixed_names_are_distinct();
}

/// What an identifier names has that identifier; one that names nothing is that of no
/// source.
pub proof fn law_named_source_has_its_label(name: Seq<char>, first: Seq<char>)
    ensures
        match source_named(name, first) {
            Some(source) => source_label(source, first) == name,
            None => forall|source: Source| #[trigger] source_label(source, first) != name,
        },
{
}

/// Every source is on the list of them.
pub proof fn law_every_source_is_listed(source: Source)
    ensures
        ALL_SOURCES@.contains(source),
{
    match source {
        Source::Claude => assert(ALL_SOURCES@[0] == source),
        Source::Codex => assert(ALL_SOURCES@[1] == source),
        Source::Cursor => assert(ALL_SOURCES@[2] == source),
        Source::Grok => assert(ALL_SOURCES@[3] == source),
        Source::Relay => assert(ALL_SOURCES@[4] == source),
        Source::Trajectory => assert(ALL_SOURCES@[5] == source),
        Source::OpenCode => assert(ALL_SOURCES@[6] == source),
    }
}

/// Where the message ids of a source come from.
#[derive(Debug, Clone, Copy, PartialEq, Eq, Hash, Structural)]
#[non_exhaustive]
pub enum MessageIdOrigin {
    /// The provider's own identifier.
    Provider,
    /// Derived from the record's position or call id.
    Synthesized,
    /// The provider's where the record carries one, derived otherwise.
    Mixed,
    /// The source records no messages.
    NoMessages,
}

/// What the adapter of a source declares about itself. What it can say of the
/// relationships between sessions is the caller's own type.
#[derive(Debug)]
#[non_exhaustive]
pub struct SourceCapabilities<R> {
    pub source: Source,
    /// The kinds that the local parser is able to produce.
    pub evidence_kinds: Vec<EvidenceKind>,
    /// What the adapter can say of relationships.
    pub relationships: R,
    /// How a stored usage record is to be read, where the source reports usage.
    pub usage_accounting: Option<UsageAccounting>,
    pub message_ids: MessageIdOrigin,
    /// Whether a session of this source can be named by the path of its file.
    pub hydrates_by_path: bool,
}

/// The kinds that a source produces: those its adapter declares, the prompts of
/// the sources that write them without discovery, and the markers of the sources
/// whose parsers derive them.
pub open spec fn kinds_of_source(source: Source, declared: Seq<EvidenceKind>) -> Seq<EvidenceKind> {
    let with_prompts = if (source == Source::Relay || source == Source::Trajectory)
        && !declared.contains(EvidenceKind::History) {
        declared.push(EvidenceKind::History)
    } else {
        declared
    };
    if (source == Source::Claude || source == Source::Codex || source == Source::Grok || source
        == Source::OpenCode) && !with_prompts.contains(EvidenceKind::SessionMarker) {
        with_prompts.push(EvidenceKind::SessionMarker)
    } else {
        with_prompts
    }
}

/// Where the message ids of a source come from.
pub open spec fn message_ids_of(source: Source) -> MessageIdOrigin {
    match source {
        Source::Claude | Source::OpenCode => MessageIdOrigin::Provider,
        Source::Codex | Source::Grok => MessageIdOrigin::Synthesized,
        Source::Cursor => MessageIdOrigin::Mixed,
        Source::Relay | Source::Trajectory => MessageIdOrigin::NoMessages,
    }
}

/// Whether a list holds a kind.
pub fn contains_kind(list: &Vec<EvidenceKind>, kind: EvidenceKind) -> (r: bool)
    ensures
        r == list@.contains(kind),
{
    let mut i: usize = 0;
    while i < list.len()
        invariant
            i <= list.len(),
            forall|j: int| 0 <= j < i ==> list@[j] != kind,
        decreases list.len() - i,
    {
        if list[i] == kind {
            return true;
        }
        i = i + 1;
    }
    false
}

/// The same kinds once more.
pub fn copied_kinds(list: &Vec<EvidenceKind>) -> (r: Vec<EvidenceKind>)
    ensures
        r@ == list@,
{
    let mut out: Vec<EvidenceKind> = Vec::new();
    let mut i: usize = 0;
    while i < list.len()
        invariant
            i <= list.len(),
            out@ == list@.take(i as int),
        decreases list.len() - i,
    {
        out.push(list[i]);
        assert(list@.take(i + 1) =~= list@.take(i as int).push(list@[i as int]));
        i = i + 1;
    }
    assert(list@.take(list@.len() as int) =~= list@);
    out
}

impl Source {
    /// The ledger's identifier.
    pub fn as_str<'a>(self, names: &'a SourceNames) -> (r: &'a str)
        ensures
            r@ == source_label(self, names.claude@),
    {
        match self {
            Source::Claude => names.claude.as_str(),
            Source::Codex => "codex",
            Source::Cursor => "cursor",
            Source::Grok => "grok",
            Source::Relay => "relay",
            Source::Trajectory => "trajectory",
            Source::OpenCode => "opencode",
        }
    }

    /// The source with an identifier, or `None` for one that is not known.
    pub fn parse(value: &str, names: &SourceNames) -> (r: Option<Self>)
        ensures
            r == source_named(value@, names.claude@),
    {
        if same_text(value, names.claude.as_str()) {
            Some(Source::Claude)
        } else if same_text(value, "codex") {
            Some(Source::Codex)
        } else if same_text(value, "cursor") {
            Some(Source::Cursor)
        } else if same_text(value, "grok") {
            Some(Source::Grok)
        } else if same_text(value, "relay") {
            Some(Source::Relay)
        } else if same_text(value, "trajectory") {
            Some(Source::Trajectory)
        } else if same_text(value, "opencode") {
            Some(Source::OpenCode)
        } else {
            None
        }
    }

    /// The source with an identifier, or the error for one that is not known.
    pub fn from_str(value: &str, names: &SourceNames) -> (r: Result<Self, Error>)
        ensures
            match r {
                Ok(source) => source_named(value@, names.claude@) == Some(source),
                Err(error) => {
                    &&& source_named(value@, names.claude@) is None
                    &&& error is InvalidArgument
                    &&& error_message(error) == "unknown source `"@ + value@ + "`"@
                },
            },
    {
        match Source::parse(value, names) {
            Some(source) => Ok(source),
            None => Err(Error::InvalidArgument(concat3("unknown source `", value, "`"))),
        }
    }

    /// What the source's adapter can and cannot report, from the kinds that its
    /// discovery declares, the harnesses that name the files they write, and what it
    /// can say of relationships.
    pub fn capabilities<R>(
        self,
        names: &SourceNames,
        declared: &Vec<EvidenceKind>,
        harnesses: &Vec<String>,
        relationships: R,
    ) -> (r: SourceCapabilities<R>)
        ensures
            r.source == self,
            r.evidence_kinds@ == kinds_of_source(self, declared@),
            r.relationships == relationships,
            r.usage_accounting == usage::accounting_of(Some(self)),
            r.message_ids == message_ids_of(self),
            r.hydrates_by_path == text::views(harnesses@).contains(source_label(self, names.claude@)),
    {
        let mut evidence_kinds = copied_kinds(declared);
        let prompts = match self {
            Source::Relay | Source::Trajectory => true,
            _ => false,
        };
        if prompts && !contains_kind(&evidence_kinds, EvidenceKind::History) {
            evidence_kinds.push(EvidenceKind::History);
        }
        let markers = match self {
            Source::Claude | Source::Codex | Source::Grok | Source::OpenCode => true,
            _ => false,
        };
        if markers && !contains_kind(&evidence_kinds, EvidenceKind::SessionMarker) {
            evidence_kinds.push(EvidenceKind::SessionMarker);
        }
        SourceCapabilities {
            source: self,
            evidence_kinds,
            relationships,
            usage_accounting: kind_accounting(Some(self)),
            message_ids: match self {
                Source::Claude | Source::OpenCode => MessageIdOrigin::Provider,
                Source::Codex | Source::Grok => MessageIdOrigin::Synthesized,
                Source::Cursor => MessageIdOrigin::Mixed,
                Source::Relay | Source::Trajectory => MessageIdOrigin::NoMessages,
            },
            hydrates_by_path: contains_text(harnesses, self.as_str(names)),
        }
    }
}

/// How much of a watched path is covered.
#[derive(Debug, Clone, Copy, PartialEq, Eq, Hash, PartialOrd, Ord, Structural)]
#[non_exhaustive]
pub enum WatchScope {
    /// The one file that the path names.
    File,
    /// The directory's own entries.
    Directory,
    /// The path and its whole subtree.
    Tree,
}

/// One path that live capture covers.
#[derive(Debug, PartialEq, Eq)]
#[non_exhaustive]
pub struct WatchedPath {
    pub path: String,
    pub scope: WatchScope,
}

/// The scope of a depth.
pub open spec fn scope_of(depth: WatchDepth) -> WatchScope {
    match depth {
        WatchDepth::File => WatchScope::File,
        WatchDepth::Directory => WatchScope::Directory,
        WatchDepth::Tree => WatchScope::Tree,
    }
}

impl WatchedPath {
    /// The path and the scope of a root.
    pub fn from_root(root: &WatchRoot) -> (r: Self)
        ensures
            r.path@ == root.path@,
            r.scope == scope_of(root.depth),
    {
        WatchedPath {
            path: root.path.clone(),
            scope: match root.depth {
                WatchDepth::File => WatchScope::File,
                WatchDepth::Directory => WatchScope::Directory,
                WatchDepth::Tree => WatchScope::Tree,
            },
        }
    }
}

impl<R> SourceCapabilities<R> {
    /// What is watched for the source: the roots that the loop registers for it,
    /// each with the scope the loop applies.
    pub fn watch_roots(&self, roots: &Vec<WatchRoot>) -> (r: Vec<WatchedPath>)
        ensures
            r@.len() == roots@.len(),
            forall|i: int|
                0 <= i < roots@.len() ==> (#[trigger] r@[i]).path@ == roots@[i].path@ && r@[i].scope
                    == scope_of(roots@[i].depth),
    {
        let mut out: Vec<WatchedPath> = Vec::new();
        let mut i: usize = 0;
        while i < roots.len()
            invariant
                i <= roots.len(),
                out@.len() == i,
                forall|j: int|
                    0 <= j < i ==> (#[trigger] out@[j]).path@ == roots@[j].path@ && out@[j].scope
                        == scope_of(roots@[j].depth),
            decreases roots.len() - i,
        {
            out.push(WatchedPath::from_root(&roots[i]));
            i = i + 1;
        }
        out
    }
}

/// A session that a store can name.
#[derive(Debug, PartialEq, Eq)]
#[non_exhaustive]
pub enum SessionRef {
    /// By the provider's identifier of the session.
    Id { source: Source, session_id: String },
    /// By the location of its file.
    Path { source: Source, path: String },
}

/// The view of a reference.
pub enum RefView {
    Id { source: Source, session_id: Seq<char> },
    Path { source: Source, path: Seq<char> },
}

impl View for SessionRef {
    type V = RefView;

    open spec fn view(&self) -> RefView {
        match self {
            SessionRef::Id { source, session_id } => RefView::Id {
                source: *source,
                session_id: session_id@,
            },
            SessionRef::Path { source, path } => RefView::Path { source: *source, path: path@ },
        }
    }
}

/// The views of some references.
pub open spec fn ref_views(list: Seq<SessionRef>) -> Seq<RefView> {
    Seq::new(list.len(), |i: int| list[i]@)
}

impl SessionRef {
    /// A session by its identifier.
    pub fn id(source: Source, session_id: &str) -> (r: Self)
        ensures
            r@ == (RefView::Id { source, session_id: session_id@ }),
    {
        SessionRef::Id { source, session_id: session_id.to_owned() }
    }

    /// A session by its file.
    pub fn path(source: Source, path: &str) -> (r: Self)
        ensures
            r@ == (RefView::Path { source, path: path@ }),
    {
        SessionRef::Path { source, path: path.to_owned() }
    }

    /// The source of the session.
    pub fn source(&self) -> (r: Source)
        ensures
            r == match self@ {
                RefView::Id { source, .. } => source,
                RefView::Path { source, .. } => source,
            },
    {
        match self {
            SessionRef::Id { source, .. } => *source,
            SessionRef::Path { source, .. } => *source,
        }
    }

    /// The same reference once more.
    pub fn copied(&self) -> (r: Self)
        ensures
            r@ == self@,
    {
        match self {
            SessionRef::Id { source, session_id } => SessionRef::Id {
                source: *source,
                session_id: session_id.clone(),
            },
            SessionRef::Path { source, path } => SessionRef::Path {
                source: *source,
                path: path.clone(),
            },
        }
    }
}

/// How to open a store. The provider roots are the caller's own type.
#[derive(Debug)]
#[non_exhaustive]
pub struct StoreOptions<R> {
    /// The database.
    pub db_path: Option<String>,
    /// The provider home to scan instead of the process's own.
    pub home: Option<String>,
    /// Where each provider keeps its sessions, resolved by the caller.
    pub roots: Option<R>,
    /// Never write.
    pub read_only: bool,
}

impl<R> Default for StoreOptions<R> {
    fn default() -> (r: Self)
        ensures
            r.db_path is None,
            r.home is None,
            r.roots is None,
            !r.read_only,
    {
        StoreOptions { db_path: None, home: None, roots: None, read_only: false }
    }
}

/// The database of some options: the one that they name, the one below the home
/// that they name, or the default one.
pub open spec fn database_of<R>(opts: StoreOptions<R>, default_path: Seq<char>) -> Seq<char> {
    match (opts.db_path, opts.home) {
        (Some(path), _) => path@,
        (None, Some(home)) => store::path_join(home@, ".local/share/ai-hist/ai-history.db"@),
        (None, None) => default_path,
    }
}

/// The database of some options.
pub fn resolve_db_path<R>(opts: &StoreOptions<R>, default_path: &str) -> (r: String)
    ensures
        r@ == database_of(*opts, default_path@),
{
    if let Some(path) = &opts.db_path {
        return path.clone();
    }
    match &opts.home {
        None => default_path.to_owned(),
        Some(home) => join_path(home.as_str(), ".local/share/ai-hist/ai-history.db"),
    }
}

/// What opening the database came to.
#[derive(Debug)]
pub enum Opening {
    /// It could not be opened, with the reason.
    Failed(String),
    /// It was opened and migrated for writing.
    Writable,
    /// It was opened for reading, and its shape was read.
    Readable(SchemaReads),
    /// It was opened for reading, and its shape could not be read.
    Unreadable(String),
}

/// Which of the shapes that a store reads a database has.
#[derive(Debug, Clone, Copy, PartialEq, Eq, Structural)]
pub struct SchemaReads {
    pub events: bool,
    pub evidence: bool,
    pub relationships: bool,
    pub usage: bool,
}

/// Whether a database has every shape that a store reads.
pub open spec fn serves(reads: SchemaReads) -> bool {
    reads.events && reads.evidence && reads.relationships && reads.usage
}

/// A handle on a local history database.
#[derive(Debug)]
pub struct SessionStore<R> {
    pub db_path: String,
    pub roots: R,
    pub read_only: bool,
}

/// What a hydration of one session reported.
#[derive(Debug)]
pub struct HydrateSessionResult {
    pub status: String,
    pub capability: String,
    pub coverage: Vec<EvidenceKind>,
    pub related_session_ids: Vec<String>,
    pub bytes_read: i64,
    /// The codes and messages of the diagnostics.
    pub diagnostics: Vec<(String, String)>,
}

/// What became of a transcript that was named by its path.
#[derive(Debug, Clone, Copy, PartialEq, Eq, Structural)]
pub enum TranscriptStatus {
    Ingested,
    Unchanged,
    Missing,
    Unidentified,
    Mismatched,
}

/// A shared stop for an operation: stopping it, or a clone of it, from any thread
/// stops every call that holds one of them.
///
/// The flag is an atomic of the standard library. Its value may change between two
/// calls, so no contract speaks of it: which flag a token holds is all that is stated.
#[derive(Debug)]
pub struct StopToken {
    flag: Arc<AtomicBool>,
}

impl StopToken {
    /// Whether two tokens hold one flag.
    pub closed spec fn shares(self, other: Self) -> bool {
        self.flag == other.flag
    }

    /// A token that nothing has stopped.
    pub fn new() -> Self {
        StopToken { flag: Arc::new(AtomicBool::new(false)) }
    }

    /// Stops every call that holds the token or a clone of it. A second stop changes
    /// nothing.
    pub fn stop(&self) {
        self.flag.store(true, std::sync::atomic::Ordering::SeqCst);
    }

    /// Whether the token or a clone of it was stopped.
    pub fn is_stopped(&self) -> bool {
        self.flag.load(std::sync::atomic::Ordering::SeqCst)
    }
}

impl Clone for StopToken {
    fn clone(&self) -> (r: Self)
        ensures
            r.shares(*self),
    {
        StopToken { flag: self.flag.clone() }
    }
}

impl Default for StopToken {
    fn default() -> Self {
        StopToken::new()
    }
}

/// Something that an operation noticed and that is no error.
#[derive(Debug, PartialEq, Eq)]
#[non_exhaustive]
pub struct Diagnostic {
    pub code: String,
    pub message: String,
    /// What it is about, where it names one thing.
    pub subject: Option<String>,
}

/// How to run a shallow sweep of the catalog.
#[derive(Debug)]
#[non_exhaustive]
pub struct DiscoveryOptions {
    /// Restrict to these sources. An empty list admits none.
    pub sources: Option<Vec<Source>>,
    /// How many rows are read at most, newest first.
    pub limit: Option<usize>,
    /// Stops the call from elsewhere. See [`StopToken`].
    pub stop: Option<StopToken>,
}

/// What is asked of the discovery engine.
#[derive(Debug)]
pub struct DiscoveryRequest {
    /// The sources, by identifier; none named means every one.
    pub sources: Vec<String>,
    pub limit: Option<usize>,
}

/// One failure of the discovery engine.
#[derive(Debug)]
pub struct DiscoveryFault {
    pub source: String,
    pub error: String,
    pub locator: Option<String>,
}

/// What the discovery engine did.
#[derive(Debug)]
pub struct DiscoverySummary {
    pub discovered: usize,
    pub skipped_unchanged: usize,
    pub diagnostics: Vec<DiscoveryFault>,
}

/// The result of a shallow sweep.
#[derive(Debug)]
#[non_exhaustive]
pub struct DiscoveryReport {
    /// Sessions read from provider metadata.
    pub discovered: usize,
    /// Sessions that had not moved.
    pub skipped_unchanged: usize,
    /// What could not be read.
    pub diagnostics: Vec<Diagnostic>,
}

/// How to run a local sweep.
#[derive(Debug)]
#[non_exhaustive]
pub struct SyncOptions {
    /// Walk every provider, even where nothing seems to have moved.
    pub force: bool,
    /// How long to wait for another process's lock.
    pub lock_timeout_ms: u64,
    /// Stops the call from elsewhere. See [`StopToken`].
    pub stop: Option<StopToken>,
}

/// How to hydrate one session.
#[derive(Debug)]
#[non_exhaustive]
pub struct HydrateOptions {
    /// Hydrate the session's related transcripts too.
    pub include_related: bool,
    /// Stops the call from elsewhere. See [`StopToken`].
    pub stop: Option<StopToken>,
}

/// How to run live capture.
#[derive(Debug)]
#[non_exhaustive]
pub struct WatchOptions {
    pub debounce_ms: u64,
    pub poll_interval_ms: u64,
    pub slow_poll_ms: u64,
    pub use_fs_events: bool,
    pub immediate: bool,
}

impl Default for SyncOptions {
    fn default() -> (r: Self)
        ensures
            !r.force,
            r.lock_timeout_ms == 0,
            r.stop is None,
    {
        SyncOptions { force: false, lock_timeout_ms: 0, stop: None }
    }
}

impl Default for HydrateOptions {
    fn default() -> (r: Self)
        ensures
            r.include_related,
            r.stop is None,
    {
        HydrateOptions { include_related: true, stop: None }
    }
}

impl Default for DiscoveryOptions {
    fn default() -> (r: Self)
        ensures
            r.sources is None,
            r.limit is None,
            r.stop is None,
    {
        DiscoveryOptions { sources: None, limit: None, stop: None }
    }
}

impl Default for WatchOptions {
    fn default() -> (r: Self)
        ensures
            r.debounce_ms == crate::watch::DEFAULT_DEBOUNCE_MS,
            r.poll_interval_ms == crate::watch::DEFAULT_POLL_INTERVAL_MS,
            r.slow_poll_ms == crate::watch::DEFAULT_SLOW_POLL_MS,
            r.use_fs_events,
            r.immediate,
    {
        WatchOptions {
            debounce_ms: crate::watch::DEFAULT_DEBOUNCE_MS,
            poll_interval_ms: crate::watch::DEFAULT_POLL_INTERVAL_MS,
            slow_poll_ms: crate::watch::DEFAULT_SLOW_POLL_MS,
            use_fs_events: true,
            immediate: true,
        }
    }
}

/// A failure of the engine: its message, and whether a stop caused it.
#[derive(Debug)]
pub struct EngineFailure {
    pub message: String,
    pub cancelled: bool,
}

/// Whether an error is what a failure of the engine is reported as.
pub open spec fn reports_failure(error: Error, failure: EngineFailure, otherwise: Otherwise) -> bool {
    &&& error_code(error) == classified_code(failure.message@, failure.cancelled, otherwise)
    &&& error_message(error) == classified_message(failure.message@, failure.cancelled)
}

/// What a hydration decided.
#[derive(Debug, Clone, Copy, PartialEq, Eq, Hash, Structural)]
#[non_exhaustive]
pub enum HydrateStatus {
    /// Evidence was read for the first time.
    Hydrated,
    /// New evidence was read on top of a checkpoint.
    Updated,
    /// The source had not changed.
    Unchanged,
    /// The adapter cannot produce full evidence.
    CapabilityLimited,
    /// The transcript is gone, or was never written.
    Missing,
    /// The file carries no session identity yet.
    Unidentified,
    /// The transcript names another session than the caller claimed.
    Mismatched,
}

/// The engine's word for a status; the statuses of a transcript that was not
/// hydrated have none.
pub open spec fn status_label(status: HydrateStatus) -> Option<Seq<char>> {
    match status {
        HydrateStatus::Hydrated => Some("hydrated"@),
        HydrateStatus::Updated => Some("updated"@),
        HydrateStatus::Unchanged => Some("unchanged"@),
        HydrateStatus::CapabilityLimited => Some("capability_limited"@),
        _ => None,
    }
}

/// Whether an error says that the engine reported an unknown word.
pub open spec fn is_unknown_word(error: Error, what: Seq<char>, word: Seq<char>) -> bool {
    &&& error is HydrationFailed
    &&& error_message(error) == "hydration reported an unknown "@ + what + " `"@ + word + "`"@
}

fn unknown_word(what: &str, word: &str) -> (r: Error)
    ensures
        is_unknown_word(r, what@, word@),
{
    let head = concat3("hydration reported an unknown ", what, " `");
    Error::HydrationFailed(concat3(head.as_str(), word, "`"))
}

impl HydrateStatus {
    /// The status with the engine's word. An unknown word is reported, not guessed
    /// at.
    pub fn parse(value: &str) -> (r: Result<Self, Error>)
        ensures
            match r {
                Ok(status) => status_label(status) == Some(value@),
                Err(error) => {
                    &&& forall|status: HydrateStatus| #[trigger]
                        status_label(status) != Some(value@)
                    &&& is_unknown_word(error, "status"@, value@)
                },
            },
    {
        if same_text(value, "hydrated") {
            return Ok(HydrateStatus::Hydrated);
        }
        if same_text(value, "updated") {
            return Ok(HydrateStatus::Updated);
        }
        if same_text(value, "unchanged") {
            return Ok(HydrateStatus::Unchanged);
        }
        if same_text(value, "capability_limited") {
            return Ok(HydrateStatus::CapabilityLimited);
        }
        Err(unknown_word("status", value))
    }
}

/// How much of a session's evidence a hydration can have indexed.
#[derive(Debug, Clone, Copy, PartialEq, Eq, Hash, Structural)]
#[non_exhaustive]
pub enum Capability {
    /// Every kind of the full-session set.
    Full,
    /// Some declared kinds.
    Partial,
    /// The catalog row only.
    ShallowOnly,
}

/// The engine's word for a capability.
pub open spec fn capability_label(capability: Capability) -> Seq<char> {
    match capability {
        Capability::Full => "full"@,
        Capability::Partial => "partial"@,
        Capability::ShallowOnly => "shallow_only"@,
    }
}

impl Capability {
    /// The capability with the engine's word.
    pub fn parse(value: &str) -> (r: Result<Self, Error>)
        ensures
            match r {
                Ok(capability) => value@ == capability_label(capability),
                Err(error) => {
                    &&& forall|capability: Capability|
                        value@ != #[trigger] capability_label(capability)
                    &&& is_unknown_word(error, "capability"@, value@)
                },
            },
    {
        if same_text(value, "full") {
            return Ok(Capability::Full);
        }
        if same_text(value, "partial") {
            return Ok(Capability::Partial);
        }
        if same_text(value, "shallow_only") {
            return Ok(Capability::ShallowOnly);
        }
        Err(unknown_word("capability", value))
    }
}

/// The result of a hydration.
#[derive(Debug)]
#[non_exhaustive]
pub struct HydrateReport {
    /// The session, by id once one is known.
    pub session: SessionRef,
    pub status: HydrateStatus,
    /// `None` where no hydration ran.
    pub capability: Option<Capability>,
    /// The kinds that this hydration can have indexed.
    pub coverage: Vec<EvidenceKind>,
    /// The sessions that were hydrated alongside.
    pub related: Vec<SessionRef>,
    pub bytes_read: i64,
    pub diagnostics: Vec<Diagnostic>,
}

/// Whether a hydration covers a kind: where the engine does, and markers where it
/// covers events, because the same parse writes both.
pub open spec fn is_covered(kind: EvidenceKind, engine: Seq<EvidenceKind>) -> bool {
    engine.contains(kind) || (kind == EvidenceKind::SessionMarker && engine.contains(
        EvidenceKind::SessionEvent,
    ))
}

/// The kinds of a list that a hydration covers, in the list's order.
pub open spec fn covered_kinds(kinds: Seq<EvidenceKind>, engine: Seq<EvidenceKind>) -> Seq<
    EvidenceKind,
>
    decreases kinds.len(),
{
    if kinds.len() == 0 {
        Seq::empty()
    } else {
        let before = covered_kinds(kinds.drop_last(), engine);
        if is_covered(kinds.last(), engine) {
            before.push(kinds.last())
        } else {
            before
        }
    }
}

/// The related sessions of a hydration.
pub open spec fn related_refs(source: Source, ids: Seq<String>) -> Seq<RefView> {
    Seq::new(ids.len(), |i: int| RefView::Id { source, session_id: ids[i]@ })
}

/// Whether a diagnostic says what the engine said.
pub open spec fn says(diagnostic: Diagnostic, code: Seq<char>, message: Seq<char>) -> bool {
    diagnostic.code@ == code && diagnostic.message@ == message && diagnostic.subject is None
}

/// Whether a report is what a hydration comes to.
pub open spec fn is_hydrate_report(
    report: HydrateReport,
    session: RefView,
    source: Source,
    status: HydrateStatus,
    kinds: Seq<EvidenceKind>,
    result: Option<HydrateSessionResult>,
) -> bool {
    &&& report.session@ == session
    &&& report.status == status
    &&& match result {
        None => {
            &&& report.capability is None
            &&& report.coverage@.len() == 0
            &&& report.related@.len() == 0
            &&& report.bytes_read == 0
            &&& report.diagnostics@.len() == 0
        },
        Some(result) => {
            &&& report.capability is Some
            &&& capability_label(report.capability->0) == result.capability@
            &&& report.coverage@ == covered_kinds(kinds, result.coverage@)
            &&& ref_views(report.related@) == related_refs(source, result.related_session_ids@)
            &&& report.bytes_read == result.bytes_read
            &&& report.diagnostics@.len() == result.diagnostics@.len()
            &&& forall|i: int|
                0 <= i < result.diagnostics@.len() ==> says(
                    #[trigger] report.diagnostics@[i],
                    result.diagnostics@[i].0@,
                    result.diagnostics@[i].1@,
                )
        },
    }
}

fn keep_covered(kinds: &Vec<EvidenceKind>, engine: &Vec<EvidenceKind>) -> (r: Vec<EvidenceKind>)
    ensures
        r@ == covered_kinds(kinds@, engine@),
{
    let mut out: Vec<EvidenceKind> = Vec::new();
    let mut i: usize = 0;
    assert(out@ =~= covered_kinds(kinds@.take(0), engine@));
    while i < kinds.len()
        invariant
            i <= kinds.len(),
            out@ == covered_kinds(kinds@.take(i as int), engine@),
        decreases kinds.len() - i,
    {
        let kind = kinds[i];
        proof {
            let next = kinds@.take(i + 1);
            assert(next.drop_last() =~= kinds@.take(i as int));
            assert(next.last() == kind);
        }
        if contains_kind(engine, kind) || (kind == EvidenceKind::SessionMarker && contains_kind(
            engine,
            EvidenceKind::SessionEvent,
        )) {
            out.push(kind);
        }
        i = i + 1;
    }
    assert(kinds@.take(kinds@.len() as int) =~= kinds@);
    out
}

/// What a hydration is reported as. The capability's word has to be known.
fn hydrate_report(
    source: Source,
    session: SessionRef,
    status: HydrateStatus,
    kinds: &Vec<EvidenceKind>,
    result: Option<&HydrateSessionResult>,
) -> (r: Result<HydrateReport, Error>)
    ensures
        match r {
            Ok(report) => is_hydrate_report(
                report,
                session@,
                source,
                status,
                kinds@,
                match result {
                    Some(result) => Some(*result),
                    None => None,
                },
            ),
            Err(error) => result is Some && is_unknown_word(
                error,
                "capability"@,
                result->0.capability@,
            ) && forall|capability: Capability|
                result->0.capability@ != #[trigger] capability_label(capability),
        },
{
    let result = match result {
        None => {
            return Ok(
                HydrateReport {
                    session,
                    status,
                    capability: None,
                    coverage: Vec::new(),
                    related: Vec::new(),
                    bytes_read: 0,
                    diagnostics: Vec::new(),
                },
            );
        },
        Some(result) => result,
    };
    let capability = match Capability::parse(result.capability.as_str()) {
        Ok(capability) => capability,
        Err(error) => return Err(error),
    };
    let coverage = keep_covered(kinds, &result.coverage);
    let mut related: Vec<SessionRef> = Vec::new();
    let mut i: usize = 0;
    while i < result.related_session_ids.len()
        invariant
            i <= result.related_session_ids.len(),
            related@.len() == i,
            forall|j: int|
                0 <= j < i ==> (#[trigger] related@[j])@ == (RefView::Id {
                    source,
                    session_id: result.related_session_ids@[j]@,
                }),
        decreases result.related_session_ids.len() - i,
    {
        related.push(SessionRef::id(source, result.related_session_ids[i].as_str()));
        i = i + 1;
    }
    assert(ref_views(related@) =~= related_refs(source, result.related_session_ids@));
    let mut diagnostics: Vec<Diagnostic> = Vec::new();
    let mut i: usize = 0;
    while i < result.diagnostics.len()
        invariant
            i <= result.diagnostics.len(),
            diagnostics@.len() == i,
            forall|j: int|
                0 <= j < i ==> says(
                    #[trigger] diagnostics@[j],
                    result.diagnostics@[j].0@,
                    result.diagnostics@[j].1@,
                ),
        decreases result.diagnostics.len() - i,
    {
        diagnostics.push(
            Diagnostic {
                code: result.diagnostics[i].0.clone(),
                message: result.diagnostics[i].1.clone(),
                subject: None,
            },
        );
        i = i + 1;
    }
    Ok(
        HydrateReport {
            session,
            status,
            capability: Some(capability),
            coverage,
            related,
            bytes_read: result.bytes_read,
            diagnostics,
        },
    )
}

/// Whether an error refuses to name a session of a source by path.
pub open spec fn is_path_refusal(
    error: Error,
    source: Source,
    first: Seq<char>,
    harnesses: Seq<Seq<char>>,
) -> bool {
    &&& error is HydrationUnsupported
    &&& error_message(error) == source_label(source, first)
        + " sessions cannot be named by path; known harnesses: "@ + text::joined(
        harnesses,
        ", "@,
    )
}

/// Whether a reference is a path that cannot name one session.
pub open spec fn path_is_refused(
    reference: RefView,
    first: Seq<char>,
    harnesses: Seq<Seq<char>>,
) -> bool {
    reference is Path && !harnesses.contains(source_label(ref_source(reference), first))
}

/// A path that cannot name one session is answered with one code and one text,
/// whichever operation is asked, and the sessions of its source stay reachable by
/// identifier.
pub proof fn law_refused_path_is_answered_alike(
    reference: RefView,
    session_id: Seq<char>,
    first: Seq<char>,
    harnesses: Seq<Seq<char>>,
    a: Error,
    b: Error,
)
    requires
        path_is_refused(reference, first, harnesses),
        is_path_refusal(a, ref_source(reference), first, harnesses),
        is_path_refusal(b, ref_source(reference), first, harnesses),
    ensures
        error_code(a) == "HYDRATION_UNSUPPORTED"@,
        error_code(b) == error_code(a),
        error_message(b) == error_message(a),
        !path_is_refused(
            RefView::Id { source: ref_source(reference), session_id },
            first,
            harnesses,
        ),
{
}

/// Whether a path can name one session of a source: the same rule for reading and
/// for hydrating.
pub fn path_names_one_session(source: Source, names: &SourceNames, harnesses: &Vec<String>) -> (r:
    Result<(), Error>)
    ensures
        match r {
            Ok(_) => text::views(harnesses@).contains(source_label(source, names.claude@)),
            Err(error) => !text::views(harnesses@).contains(source_label(source, names.claude@))
                && is_path_refusal(error, source, names.claude@, text::views(harnesses@)),
        },
{
    if contains_text(harnesses, source.as_str(names)) {
        return Ok(());
    }
    let known = text::join(harnesses, ", ");
    Err(
        Error::HydrationUnsupported(
            concat3(
                source.as_str(names),
                " sessions cannot be named by path; known harnesses: ",
                known.as_str(),
            ),
        ),
    )
}

/// Which catalog row is read for a session.
#[derive(Debug)]
pub enum SessionLookup {
    ById { source: String, session_id: String },
    ByPath { source: String, path: String },
}

/// What is asked of the hydration engine.
#[derive(Debug)]
pub enum HydrateRequest {
    /// A session of the catalog.
    Session { source: String, session_id: String, include_related: bool },
    /// A transcript, before any catalog row exists.
    Transcript { source: String, path: String, include_related: bool },
}

/// What the hydration engine answered.
#[derive(Debug)]
pub enum HydrateReply {
    Session(HydrateSessionResult),
    Transcript {
        hydration: Option<HydrateSessionResult>,
        status: TranscriptStatus,
        session_id: Option<String>,
    },
}

/// The status of a transcript without a hydration behind it.
pub open spec fn transcript_status(status: TranscriptStatus) -> HydrateStatus {
    match status {
        TranscriptStatus::Ingested => HydrateStatus::Hydrated,
        TranscriptStatus::Unchanged => HydrateStatus::Unchanged,
        TranscriptStatus::Missing => HydrateStatus::Missing,
        TranscriptStatus::Unidentified => HydrateStatus::Unidentified,
        TranscriptStatus::Mismatched => HydrateStatus::Mismatched,
    }
}

/// The hydration that a reply holds.
pub open spec fn reply_result(reply: HydrateReply) -> Option<HydrateSessionResult> {
    match reply {
        HydrateReply::Session(result) => Some(result),
        HydrateReply::Transcript { hydration, .. } => hydration,
    }
}

/// The session that a hydration is reported for: the one that was asked for, or
/// the one that the transcript named.
pub open spec fn reported_session(r: RefView, reply: HydrateReply) -> RefView {
    match reply {
        HydrateReply::Session(_) => r,
        HydrateReply::Transcript { session_id, .. } => match session_id {
            Some(id) => if id@.len() == 0 {
                r
            } else {
                RefView::Id { source: ref_source(r), session_id: id@ }
            },
            None => r,
        },
    }
}

/// The source of a reference.
pub open spec fn ref_source(r: RefView) -> Source {
    match r {
        RefView::Id { source, .. } => source,
        RefView::Path { source, .. } => source,
    }
}

/// Whether a status is what a reply says: the hydration's own word where one ran.
pub open spec fn is_reply_status(status: HydrateStatus, reply: HydrateReply) -> bool {
    match reply_result(reply) {
        Some(result) => status_label(status) == Some(result.status@),
        None => match reply {
            HydrateReply::Transcript { status: transcript, .. } => status == transcript_status(
                transcript,
            ),
            HydrateReply::Session(_) => false,
        },
    }
}

/// Whether an error says that a reply holds a word that is not known.
pub open spec fn is_word_fault(error: Error, reply: HydrateReply) -> bool {
    match reply_result(reply) {
        Some(result) => {
            ||| is_unknown_word(error, "status"@, result.status@) && forall|status: HydrateStatus|
                #[trigger] status_label(status) != Some(result.status@)
            ||| is_unknown_word(error, "capability"@, result.capability@) && (forall|
                capability: Capability,
            |
                result.capability@ != #[trigger] capability_label(capability)) && exists|
                status: HydrateStatus,
            |
                #[trigger] status_label(status) == Some(result.status@)
        },
        None => false,
    }
}

impl<R> SessionStore<R> {
    /// A handle on a database that the caller has tried to open.
    pub fn open(
        opts: StoreOptions<R>,
        default_path: &str,
        default_roots: R,
        opening: &Opening,
    ) -> (r: Result<Self, Error>)
        ensures
            match (*opening, r) {
                (Opening::Failed(reason), Err(error)) => error is DatabaseOpen && error_message(
                    error,
                ) == reason@,
                (Opening::Unreadable(reason), Err(error)) => reports_failure(
                    error,
                    EngineFailure { message: reason, cancelled: false },
                    Otherwise::Query,
                ),
                (Opening::Readable(reads), Err(error)) => {
                    &&& opts.read_only
                    &&& !serves(reads)
                    &&& error is StaleSchema
                    &&& error_message(error) == stale_message(
                        database_of(opts, default_path@),
                        "session-evidence"@,
                    )
                },
                (Opening::Readable(reads), Ok(store)) => !opts.read_only || serves(reads),
                (Opening::Writable, Ok(_)) => true,
                _ => false,
            },
            r is Ok ==> {
                &&& r->Ok_0.db_path@ == database_of(opts, default_path@)
                &&& r->Ok_0.roots == match opts.roots {
                    Some(roots) => roots,
                    None => default_roots,
                }
                &&& r->Ok_0.read_only == opts.read_only
            },
    {
        let db_path = resolve_db_path(&opts, default_path);
        match opening {
            Opening::Failed(reason) => return Err(Error::DatabaseOpen(reason.clone())),
            Opening::Unreadable(reason) => {
                return Err(Error::classify(reason.as_str(), false, Otherwise::Query));
            },
            Opening::Readable(reads) => {
                if opts.read_only && !(reads.events && reads.evidence && reads.relationships
                    && reads.usage) {
                    return Err(Error::stale_schema(db_path.as_str(), "session-evidence"));
                }
            },
            Opening::Writable => {},
        }
        let roots = match opts.roots {
            Some(roots) => roots,
            None => default_roots,
        };
        Ok(SessionStore { db_path, roots, read_only: opts.read_only })
    }

    /// The database that the store reads.
    pub fn db_path(&self) -> (r: &str)
        ensures
            r@ == self.db_path@,
    {
        self.db_path.as_str()
    }

    /// The provider roots that every operation scans.
    pub fn roots(&self) -> (r: &R)
        ensures
            *r == self.roots,
    {
        &self.roots
    }

    /// Whether the handle was opened read-only.
    pub fn read_only(&self) -> (r: bool)
        ensures
            r == self.read_only,
    {
        self.read_only
    }

    /// Whether an operation that writes may run.
    pub fn writable(&self, operation: &str) -> (r: Result<(), Error>)
        ensures
            match r {
                Ok(_) => !self.read_only,
                Err(error) => self.read_only && is_read_only_refusal(error, operation@),
            },
    {
        if self.read_only {
            return Err(Error::read_only(operation));
        }
        Ok(())
    }

    /// What a shallow sweep asks of the discovery engine; nothing where no source
    /// is admitted.
    pub fn discovery_request(&self, names: &SourceNames, opts: &DiscoveryOptions) -> (r: Result<
        Option<DiscoveryRequest>,
        Error,
    >)
        ensures
            match r {
                Err(error) => self.read_only && is_read_only_refusal(error, "discover"@),
                Ok(None) => !self.read_only && opts.sources is Some && opts.sources->0@.len() == 0,
                Ok(Some(request)) => {
                    &&& !self.read_only
                    &&& request.limit == opts.limit
                    &&& match opts.sources {
                        None => request.sources@.len() == 0,
                        Some(sources) => {
                            &&& sources@.len() > 0
                            &&& request.sources@.len() == sources@.len()
                            &&& forall|i: int|
                                0 <= i < sources@.len() ==> (#[trigger] request.sources@[i])@
                                    == source_label(sources@[i], names.claude@)
                        },
                    }
                },
            },
    {
        if self.read_only {
            return Err(Error::read_only("discover"));
        }
        let mut labels: Vec<String> = Vec::new();
        if let Some(sources) = &opts.sources {
            if sources.len() == 0 {
                return Ok(None);
            }
            let mut i: usize = 0;
            while i < sources.len()
                invariant
                    i <= sources.len(),
                    labels@.len() == i,
                    forall|j: int|
                        0 <= j < i ==> (#[trigger] labels@[j])@ == source_label(
                            sources@[j],
                            names.claude@,
                        ),
                decreases sources.len() - i,
            {
                labels.push(sources[i].as_str(names).to_owned());
                i = i + 1;
            }
        }
        Ok(Some(DiscoveryRequest { sources: labels, limit: opts.limit }))
    }

    /// The report of a shallow sweep. A provider that failed is a diagnostic, not
    /// an error for the rest.
    pub fn discover(&self, opts: &DiscoveryOptions, outcome: &Result<DiscoverySummary, EngineFailure>) -> (r:
        Result<DiscoveryReport, Error>)
        ensures
            match r {
                Err(error) => {
                    ||| self.read_only && is_read_only_refusal(error, "discover"@)
                    ||| !self.read_only && !admits_none(*opts) && outcome is Err && reports_failure(
                        error,
                        outcome->Err_0,
                        Otherwise::Discovery,
                    )
                },
                Ok(report) => {
                    &&& !self.read_only
                    &&& if admits_none(*opts) {
                        report.discovered == 0 && report.skipped_unchanged == 0
                            && report.diagnostics@.len() == 0
                    } else {
                        outcome is Ok && is_discovery_report(report, outcome->Ok_0)
                    }
                },
            },
    {
        if self.read_only {
            return Err(Error::read_only("discover"));
        }
        if let Some(sources) = &opts.sources {
            if sources.len() == 0 {
                return Ok(
                    DiscoveryReport {
                        discovered: 0,
                        skipped_unchanged: 0,
                        diagnostics: Vec::new(),
                    },
                );
            }
        }
        match outcome {
            Err(failure) => Err(
                Error::classify(failure.message.as_str(), failure.cancelled, Otherwise::Discovery),
            ),
            Ok(summary) => {
                let mut diagnostics: Vec<Diagnostic> = Vec::new();
                let mut i: usize = 0;
                while i < summary.diagnostics.len()
                    invariant
                        i <= summary.diagnostics.len(),
                        diagnostics@.len() == i,
                        forall|j: int|
                            0 <= j < i ==> tells_fault(
                                #[trigger] diagnostics@[j],
                                summary.diagnostics@[j],
                            ),
                    decreases summary.diagnostics.len() - i,
                {
                    let fault = &summary.diagnostics[i];
                    diagnostics.push(
                        Diagnostic {
                            code: "DISCOVERY_FAILED".to_owned(),
                            message: concat3(fault.source.as_str(), ": ", fault.error.as_str()),
                            subject: fault.locator.clone(),
                        },
                    );
                    i = i + 1;
                }
                Ok(
                    DiscoveryReport {
                        discovered: summary.discovered,
                        skipped_unchanged: summary.skipped_unchanged,
                        diagnostics,
                    },
                )
            },
        }
    }

    /// What a hydration asks of the engine.
    pub fn hydrate_request(
        &self,
        names: &SourceNames,
        r: &SessionRef,
        opts: &HydrateOptions,
        harnesses: &Vec<String>,
    ) -> (q: Result<HydrateRequest, Error>)
        ensures
            match q {
                Err(error) => {
                    ||| self.read_only && is_read_only_refusal(error, "hydrate"@)
                    ||| !self.read_only && path_is_refused(
                        r@,
                        names.claude@,
                        text::views(harnesses@),
                    ) && is_path_refusal(
                        error,
                        ref_source(r@),
                        names.claude@,
                        text::views(harnesses@),
                    )
                },
                Ok(HydrateRequest::Session { source, session_id, include_related }) => {
                    &&& !self.read_only
                    &&& source@ == source_label(ref_source(r@), names.claude@)
                    &&& r@ == (RefView::Id { source: ref_source(r@), session_id: session_id@ })
                    &&& include_related == opts.include_related
                },
                Ok(HydrateRequest::Transcript { source, path, include_related }) => {
                    &&& !self.read_only
                    &&& text::views(harnesses@).contains(source@)
                    &&& source@ == source_label(ref_source(r@), names.claude@)
                    &&& r@ == (RefView::Path { source: ref_source(r@), path: path@ })
                    &&& include_related == opts.include_related
                },
            },
    {
        if self.read_only {
            return Err(Error::read_only("hydrate"));
        }
        match r {
            SessionRef::Id { source, session_id } => Ok(
                HydrateRequest::Session {
                    source: source.as_str(names).to_owned(),
                    session_id: session_id.clone(),
                    include_related: opts.include_related,
                },
            ),
            SessionRef::Path { source, path } => {
                match path_names_one_session(*source, names, harnesses) {
                    Ok(_) => {},
                    Err(error) => return Err(error),
                }
                Ok(
                    HydrateRequest::Transcript {
                        source: source.as_str(names).to_owned(),
                        path: path.clone(),
                        include_related: opts.include_related,
                    },
                )
            },
        }
    }

    /// The catalog row that a reference names. A path is refused where it cannot name
    /// one session: the lookup would answer with whichever row comes first.
    pub fn session_lookup(
        &self,
        names: &SourceNames,
        r: &SessionRef,
        harnesses: &Vec<String>,
    ) -> (q: Result<SessionLookup, Error>)
        ensures
            match q {
                Err(error) => path_is_refused(r@, names.claude@, text::views(harnesses@))
                    && is_path_refusal(
                    error,
                    ref_source(r@),
                    names.claude@,
                    text::views(harnesses@),
                ),
                Ok(SessionLookup::ById { source, session_id }) => {
                    &&& source@ == source_label(ref_source(r@), names.claude@)
                    &&& r@ == (RefView::Id { source: ref_source(r@), session_id: session_id@ })
                },
                Ok(SessionLookup::ByPath { source, path }) => {
                    &&& !path_is_refused(r@, names.claude@, text::views(harnesses@))
                    &&& source@ == source_label(ref_source(r@), names.claude@)
                    &&& r@ == (RefView::Path { source: ref_source(r@), path: path@ })
                },
            },
    {
        match r {
            SessionRef::Id { source, session_id } => Ok(
                SessionLookup::ById {
                    source: source.as_str(names).to_owned(),
                    session_id: session_id.clone(),
                },
            ),
            SessionRef::Path { source, path } => {
                match path_names_one_session(*source, names, harnesses) {
                    Ok(_) => {},
                    Err(error) => return Err(error),
                }
                Ok(
                    SessionLookup::ByPath {
                        source: source.as_str(names).to_owned(),
                        path: path.clone(),
                    },
                )
            },
        }
    }

    /// The report of a hydration, from what the engine answered and the kinds that
    /// the source produces. A path that cannot name one session is refused, whatever
    /// the engine was asked.
    pub fn hydrate(
        &self,
        names: &SourceNames,
        r: &SessionRef,
        harnesses: &Vec<String>,
        kinds: &Vec<EvidenceKind>,
        reply: &Result<HydrateReply, EngineFailure>,
    ) -> (q: Result<HydrateReport, Error>)
        ensures
            match q {
                Err(error) => if self.read_only {
                    is_read_only_refusal(error, "hydrate"@)
                } else if path_is_refused(r@, names.claude@, text::views(harnesses@)) {
                    is_path_refusal(
                        error,
                        ref_source(r@),
                        names.claude@,
                        text::views(harnesses@),
                    )
                } else {
                    match reply {
                        Err(failure) => reports_failure(error, *failure, Otherwise::Hydration),
                        Ok(answer) => is_word_fault(error, *answer),
                    }
                },
                Ok(report) => {
                    &&& !self.read_only
                    &&& !path_is_refused(r@, names.claude@, text::views(harnesses@))
                    &&& reply is Ok
                    &&& is_reply_status(report.status, reply->Ok_0)
                    &&& is_hydrate_report(
                        report,
                        reported_session(r@, reply->Ok_0),
                        ref_source(r@),
                        report.status,
                        kinds@,
                        reply_result(reply->Ok_0),
                    )
                },
            },
    {
        if self.read_only {
            return Err(Error::read_only("hydrate"));
        }
        let source = r.source();
        if let SessionRef::Path { .. } = r {
            match path_names_one_session(source, names, harnesses) {
                Ok(_) => {},
                Err(error) => return Err(error),
            }
        }
        match reply {
            Err(failure) => Err(
                Error::classify(failure.message.as_str(), failure.cancelled, Otherwise::Hydration),
            ),
            Ok(HydrateReply::Session(result)) => {
                let status = match HydrateStatus::parse(result.status.as_str()) {
                    Ok(status) => status,
                    Err(error) => return Err(error),
                };
                hydrate_report(source, r.copied(), status, kinds, Some(result))
            },
            Ok(HydrateReply::Transcript { hydration, status, session_id }) => {
                let session = match session_id {
                    Some(id) => if id.as_str().is_empty() {
                        r.copied()
                    } else {
                        SessionRef::id(source, id.as_str())
                    },
                    None => r.copied(),
                };
                match hydration {
                    Some(result) => {
                        let status = match HydrateStatus::parse(result.status.as_str()) {
                            Ok(status) => status,
                            Err(error) => return Err(error),
                        };
                        hydrate_report(source, session, status, kinds, Some(result))
                    },
                    None => {
                        let status = match status {
                            TranscriptStatus::Ingested => HydrateStatus::Hydrated,
                            TranscriptStatus::Unchanged => HydrateStatus::Unchanged,
                            TranscriptStatus::Missing => HydrateStatus::Missing,
                            TranscriptStatus::Unidentified => HydrateStatus::Unidentified,
                            TranscriptStatus::Mismatched => HydrateStatus::Mismatched,
                        };
                        hydrate_report(source, session, status, kinds, None)
                    },
                }
            },
        }
    }
}

/// Whether some options admit no source at all.
pub open spec fn admits_none(opts: DiscoveryOptions) -> bool {
    opts.sources is Some && opts.sources->0@.len() == 0
}

/// Whether a diagnostic tells a fault of the discovery engine.
pub open spec fn tells_fault(diagnostic: Diagnostic, fault: DiscoveryFault) -> bool {
    &&& diagnostic.code@ == "DISCOVERY_FAILED"@
    &&& diagnostic.message@ == fault.source@ + ": "@ + fault.error@
    &&& text::opt_view(diagnostic.subject) == text::opt_view(fault.locator)
}

/// Whether a report is what the discovery engine did.
pub open spec fn is_discovery_report(report: DiscoveryReport, summary: DiscoverySummary) -> bool {
    &&& report.discovered == summary.discovered
    &&& report.skipped_unchanged == summary.skipped_unchanged
    &&& report.diagnostics@.len() == summary.diagnostics@.len()
    &&& forall|i: int|
        0 <= i < summary.diagnostics@.len() ==> tells_fault(
            #[trigger] report.diagnostics@[i],
            summary.diagnostics@[i],
        )
}

/// How often a held lock is tried again.
pub const SYNC_LOCK_RETRY_MS: u64 = 100;

/// The wait for a lock that another process holds.
#[derive(Debug, Clone, Copy, PartialEq, Eq, Structural)]
pub struct LockWait {
    pub started: u64,
    pub deadline: u64,
}

/// How long a wait has lasted.
pub open spec fn waited(wait: LockWait, now: u64) -> u64 {
    if now > wait.started {
        (now - wait.started) as u64
    } else {
        0
    }
}

impl LockWait {
    /// A wait that starts now. A budget beyond the longest interval counts as that
    /// one.
    pub fn new(now: u64, lock_timeout_ms: u64) -> (r: Self)
        ensures
            r.started == now,
            r.deadline == if now + lock_timeout_ms <= u64::MAX && lock_timeout_ms
                <= MAX_INTERVAL_MS {
                now + lock_timeout_ms
            } else if now + MAX_INTERVAL_MS <= u64::MAX {
                now + MAX_INTERVAL_MS
            } else {
                u64::MAX as int
            },
    {
        let budget: u64 = if lock_timeout_ms <= MAX_INTERVAL_MS {
            lock_timeout_ms
        } else {
            MAX_INTERVAL_MS
        };
        let deadline: u64 = match now.checked_add(budget) {
            Some(at) => at,
            None => u64::MAX,
        };
        LockWait { started: now, deadline }
    }

    /// What to do when the lock was found held: sleep, and try again, or give up.
    /// A stop goes before the deadline.
    pub fn after_contention(&self, now: u64, cancelled: Option<&str>, db_path: &str) -> (r: Result<
        u64,
        Error,
    >)
        ensures
            match r {
                Ok(sleep) => {
                    &&& cancelled is None
                    &&& now < self.deadline
                    &&& sleep == if self.deadline - now <= SYNC_LOCK_RETRY_MS {
                        self.deadline - now
                    } else {
                        SYNC_LOCK_RETRY_MS as int
                    }
                },
                Err(error) => match cancelled {
                    Some(message) => error is Cancelled && error_message(error) == message@,
                    None => {
                        &&& now >= self.deadline
                        &&& error is SyncLocked
                        &&& error->path@ == db_path@
                        &&& error->waited_ms == waited(*self, now)
                    },
                },
            },
    {
        if let Some(message) = cancelled {
            return Err(Error::Cancelled(message.to_owned()));
        }
        if now >= self.deadline {
            return Err(
                Error::SyncLocked {
                    path: db_path.to_owned(),
                    waited_ms: now.saturating_sub(self.started),
                },
            );
        }
        let left: u64 = self.deadline - now;
        if left <= SYNC_LOCK_RETRY_MS {
            Ok(left)
        } else {
            Ok(SYNC_LOCK_RETRY_MS)
        }
    }
}

/// How often a blocked wait for a report looks again whether the loop has ended.
pub const WATCH_POLL_MS: u64 = 50;

/// What a wait for a report came to. The loop's sinks hold the sending side for as
/// long as the loop exists, so that nothing came does not say whether more can.
#[derive(Debug)]
pub enum Received<T> {
    Report(T),
    /// The sending side is gone.
    Closed,
    /// Nothing came: whether the loop's thread has ended, and what time it is.
    Nothing { finished: bool, now: u64 },
}

/// What to do after a wait for a report.
#[derive(Debug, PartialEq, Eq)]
pub enum ReceiveStep<T> {
    /// Hand this out.
    Return(Option<T>),
    /// Hand out what was sent before the thread ended, if anything was.
    Drain,
    /// Wait once more.
    Wait,
}

/// When a wait for a report ends; a budget that reaches beyond the clock does not.
pub fn receive_deadline(now: u64, timeout_ms: u64) -> (r: Option<u64>)
    ensures
        r == if now + timeout_ms <= u64::MAX {
            Some((now + timeout_ms) as u64)
        } else {
            None
        },
{
    now.checked_add(timeout_ms)
}

/// How long one wait for a report lasts: never past the deadline, and never longer
/// than a poll.
pub fn receive_wait(now: u64, deadline: Option<u64>) -> (r: u64)
    ensures
        r == match deadline {
            Some(at) => if at <= now {
                0
            } else if at - now < WATCH_POLL_MS {
                at - now
            } else {
                WATCH_POLL_MS as int
            },
            None => WATCH_POLL_MS as int,
        },
{
    match deadline {
        Some(at) => {
            let left: u64 = at.saturating_sub(now);
            if left < WATCH_POLL_MS {
                left
            } else {
                WATCH_POLL_MS
            }
        },
        None => WATCH_POLL_MS,
    }
}

/// What to do after a wait for a report. A report is handed out whenever it came;
/// where none did, the end of the loop goes before the deadline.
pub fn receive_step<T>(received: Received<T>, deadline: Option<u64>) -> (r: ReceiveStep<T>)
    ensures
        r == match received {
            Received::Report(report) => ReceiveStep::Return(Some(report)),
            Received::Closed => ReceiveStep::Return(None),
            Received::Nothing { finished, now } => if finished {
                ReceiveStep::Drain
            } else if deadline is Some && now >= deadline->0 {
                ReceiveStep::Return(None)
            } else {
                ReceiveStep::Wait
            },
        },
{
    match received {
        Received::Report(report) => ReceiveStep::Return(Some(report)),
        Received::Closed => ReceiveStep::Return(None),
        Received::Nothing { finished, now } => {
            if finished {
                return ReceiveStep::Drain;
            }
            if let Some(at) = deadline {
                if now >= at {
                    return ReceiveStep::Return(None);
                }
            }
            ReceiveStep::Wait
        },
    }
}

} // verus!
