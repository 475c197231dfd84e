//! The rows of the history ledger and the rules of its queries.
use crate::text;
use crate::text::{concat2, concat3, same_text};
use vstd::prelude::*;
use vstd::string::*;

verus! {

/// The name that the ledger has for the one source whose name is given from outside.
/// It is the name of the source's program too.
#[derive(Debug)]
pub struct SourceNames {
    pub claude: String,
}

/// The sources of session history that have a fixed name, in ledger order. The one
/// that has none comes before them.
pub const SOURCE_CHOICES: [&'static str; 6] = [
    "codex",
    "cursor",
    "grok",
    "relay",
    "trajectory",
    "opencode",
];

/// Whether a name is that of a source, where the first one is called `first`.
pub open spec fn is_source(name: Seq<char>, first: Seq<char>) -> bool {
    ||| name == first
    ||| name == "codex"@
    ||| name == "cursor"@
    ||| name == "grok"@
    ||| name == "relay"@
    ||| name == "trajectory"@
    ||| name == "opencode"@
}

/// Whether a name is that of a source.
pub fn known_source(name: &str, names: &SourceNames) -> (r: bool)
    ensures
        r == is_source(name@, names.claude@),
{
    same_text(name, names.claude.as_str()) || same_text(name, "codex") || same_text(name, "cursor")
        || same_text(name, "grok") || same_text(name, "relay") || same_text(name, "trajectory")
        || same_text(name, "opencode")
}

/// Which acquisition surface a query includes. `All` is the union of both
/// locations, not a third place.
#[derive(Debug, Clone, Copy, PartialEq, Eq, Structural)]
pub enum SessionScope {
    Local,
    Remote,
    All,
}

impl Default for SessionScope {
    fn default() -> (r: Self)
        ensures
            r == SessionScope::Local,
    {
        SessionScope::Local
    }
}

/// A place where a provider session has been observed.
#[derive(Debug, Clone, Copy, PartialEq, Eq, Structural)]
pub enum SessionLocation {
    Local,
    Remote,
}

/// The stored name of a location.
pub open spec fn location_label(location: SessionLocation) -> Seq<char> {
    match location {
        SessionLocation::Local => "local"@,
        SessionLocation::Remote => "remote"@,
    }
}

impl SessionLocation {
    /// The stored name of the location.
    pub fn as_str(self) -> (r: &'static str)
        ensures
            r@ == location_label(self),
    {
        match self {
            SessionLocation::Local => "local",
            SessionLocation::Remote => "remote",
        }
    }
}

/// One normalized event of a session.
#[derive(Debug, PartialEq, Eq)]
pub struct SessionEvent {
    pub id: i64,
    pub source: String,
    pub session_id: String,
    pub project: Option<String>,
    pub project_key: Option<String>,
    pub cwd: Option<String>,
    pub git_branch: Option<String>,
    pub message_id: Option<String>,
    pub parent_id: Option<String>,
    pub ts_ms: i64,
    pub role: String,
    pub kind: String,
    pub text: Option<String>,
    pub model: Option<String>,
    pub token_json: Option<String>,
    pub provider: Option<String>,
    pub event_uid: String,
    pub tool_use_id: Option<String>,
    pub payload_bytes: Option<i64>,
    pub payload_truncated: Option<i64>,
    pub payload_hash: Option<String>,
    pub call_index: Option<i64>,
    pub event_index: Option<i64>,
    pub result_status: Option<String>,
    pub event_source: Option<String>,
    pub error_signal: Option<String>,
    pub subagent_session_id: Option<String>,
    pub agent_id: Option<String>,
    pub request_id: Option<String>,
    pub provider_message_id: Option<String>,
    pub stop_reason: Option<String>,
    pub agent_version: Option<String>,
    pub is_sidechain: Option<i64>,
    pub is_meta: Option<i64>,
    pub turn_id: Option<String>,
    pub request_span: Option<String>,
    pub raw_kind: Option<String>,
    pub control_kind: Option<String>,
}

/// One call of a tool.
#[derive(Debug, PartialEq, Eq)]
pub struct SessionToolCall {
    pub id: i64,
    pub source: String,
    pub session_id: String,
    pub message_id: Option<String>,
    pub tool_use_id: String,
    pub name: String,
    pub target: Option<String>,
    pub args_json: Option<String>,
    pub is_error: Option<i64>,
    pub ts_ms: Option<i64>,
}

/// One edit of a file.
#[derive(Debug, PartialEq, Eq)]
pub struct SessionFileEdit {
    pub id: i64,
    pub source: String,
    pub session_id: String,
    pub message_id: Option<String>,
    pub tool_use_id: String,
    pub file_path: String,
    pub tool_name: Option<String>,
    pub lines_added: Option<i64>,
    pub lines_removed: Option<i64>,
    pub structured_patch_json: Option<String>,
    pub user_modified: Option<i64>,
    pub ts_ms: Option<i64>,
    pub git_branch: Option<String>,
    pub cwd: Option<String>,
}

/// One prompt of the history.
#[derive(Debug, PartialEq, Eq)]
pub struct HistoryEntry {
    pub id: i64,
    pub source: String,
    pub session_id: Option<String>,
    pub project: Option<String>,
    pub prompt: String,
    pub prompt_hash: Option<String>,
    pub timestamp_ms: i64,
}

/// A tag, with the sessions that carry it.
#[derive(Debug, PartialEq, Eq)]
pub struct Tag {
    pub name: String,
    pub display_name: String,
    pub color: Option<String>,
    pub session_count: i64,
    pub first_tagged_ms: Option<i64>,
    pub last_tagged_ms: Option<i64>,
}

/// A session that a tag was put on.
#[derive(Debug, PartialEq, Eq)]
pub struct TaggedSession {
    pub source: String,
    pub session_id: String,
    pub project: Option<String>,
    pub entry_count: i64,
    pub last_activity_ms: Option<i64>,
}

/// What a query of the history is narrowed by.
#[derive(Debug)]
pub struct QueryFilter {
    pub source: Option<String>,
    pub project: Option<String>,
    pub tag: Option<String>,
    pub before_ms: Option<i64>,
    pub limit: i64,
    pub scope: SessionScope,
}

impl Default for QueryFilter {
    fn default() -> (r: Self)
        ensures
            r.source is None,
            r.project is None,
            r.tag is None,
            r.before_ms is None,
            r.limit == 0,
            r.scope == SessionScope::Local,
    {
        QueryFilter {
            source: None,
            project: None,
            tag: None,
            before_ms: None,
            limit: 0,
            scope: SessionScope::Local,
        }
    }
}

/// Counts of the history.
#[derive(Debug, PartialEq, Eq)]
pub struct Stats {
    pub total: i64,
    pub by_source: Vec<(String, i64)>,
    pub by_project: Vec<(String, i64)>,
    pub first_timestamp_ms: Option<i64>,
    pub last_timestamp_ms: Option<i64>,
}

/// A relative path below another.
pub open spec fn path_join(base: Seq<char>, rest: Seq<char>) -> Seq<char> {
    if base.len() == 0 {
        rest
    } else if base.last() == '/' {
        base + rest
    } else {
        base + "/"@ + rest
    }
}

/// A relative path below another.
pub fn join_path(base: &str, rest: &str) -> (r: String)
    ensures
        r@ == path_join(base@, rest@),
{
    let n: usize = base.unicode_len();
    if n == 0 {
        return rest.to_owned();
    }
    if base.get_char(n - 1) == '/' {
        return concat2(base, rest);
    }
    concat3(base, "/", rest)
}

/// The variables of the environment that say where the database is.
#[derive(Debug)]
pub struct DatabaseVariables {
    pub ai_hist_db: Option<String>,
    pub xdg_data_home: Option<String>,
    pub home: Option<String>,
    pub userprofile: Option<String>,
}

/// Where the database is: where the user says, in the user's data directory, or
/// below the home directory, which is the current one where none is known.
pub open spec fn default_database(vars: DatabaseVariables) -> Seq<char> {
    match (vars.ai_hist_db, vars.xdg_data_home, vars.home, vars.userprofile) {
        (Some(path), _, _, _) => path@,
        (None, Some(data), _, _) => path_join(data@, "ai-hist/ai-history.db"@),
        (None, None, Some(home), _) => path_join(home@, ".local/share/ai-hist/ai-history.db"@),
        (None, None, None, Some(home)) => path_join(home@, ".local/share/ai-hist/ai-history.db"@),
        (None, None, None, None) => path_join("."@, ".local/share/ai-hist/ai-history.db"@),
    }
}

/// Where the database is.
pub fn default_db_path(vars: &DatabaseVariables) -> (r: String)
    ensures
        r@ == default_database(*vars),
{
    if let Some(path) = &vars.ai_hist_db {
        return path.clone();
    }
    if let Some(data) = &vars.xdg_data_home {
        return join_path(data.as_str(), "ai-hist/ai-history.db");
    }
    if let Some(home) = &vars.home {
        return join_path(home.as_str(), ".local/share/ai-hist/ai-history.db");
    }
    if let Some(home) = &vars.userprofile {
        return join_path(home.as_str(), ".local/share/ai-hist/ai-history.db");
    }
    join_path(".", ".local/share/ai-hist/ai-history.db")
}

/// How often a contended lock is tried again.
pub const BUSY_RETRY_ATTEMPTS: i32 = 65;

/// The first wait for a contended lock.
pub const BUSY_RETRY_BASE_MS: u64 = 10;

/// The longest wait for a contended lock, without its jitter.
pub const BUSY_RETRY_CAP_MS: u64 = 500;

/// What part of a wait its jitter is at most.
pub const BUSY_RETRY_JITTER_DIVISOR: u64 = 10;

/// How often a change of the journal mode is tried again.
pub const JOURNAL_MODE_RETRY_ATTEMPTS: i32 = 20;

/// How long a change of the journal mode waits.
pub const JOURNAL_MODE_RETRY_MS: u64 = 10;

/// The wait for a contended lock after some attempts: twice the last one, up to
/// the cap; none after the last attempt.
pub open spec fn backoff_of(prior_attempts: int) -> Option<u64> {
    if prior_attempts < 0 || prior_attempts >= 65 {
        None
    } else if prior_attempts == 0 {
        Some(10)
    } else if prior_attempts == 1 {
        Some(20)
    } else if prior_attempts == 2 {
        Some(40)
    } else if prior_attempts == 3 {
        Some(80)
    } else if prior_attempts == 4 {
        Some(160)
    } else if prior_attempts == 5 {
        Some(320)
    } else {
        Some(500)
    }
}

/// The wait for a contended lock after some attempts.
pub fn busy_retry_backoff_ms(prior_attempts: i32) -> (r: Option<u64>)
    ensures
        r == backoff_of(prior_attempts as int),
{
    if prior_attempts < 0 || prior_attempts >= BUSY_RETRY_ATTEMPTS {
        return None;
    }
    let mut wait: u64 = BUSY_RETRY_BASE_MS;
    let mut i: i32 = 0;
    while i < prior_attempts && i < 6
        invariant
            0 <= i <= 6,
            i <= prior_attempts,
            0 <= prior_attempts < 65,
            i < 6 ==> backoff_of(i as int) == Some(wait),
            i == 6 ==> wait == 640,
        decreases 6 - i,
    {
        wait = 2 * wait;
        i = i + 1;
    }
    if wait <= BUSY_RETRY_CAP_MS {
        Some(wait)
    } else {
        Some(BUSY_RETRY_CAP_MS)
    }
}

/// The wait for a contended lock with its jitter, which is drawn from the clock,
/// the process and the attempt.
pub fn busy_retry_delay_ms(prior_attempts: i32, clock: u64, process: u32) -> (r: Option<u64>)
    ensures
        match r {
            Some(delay) => {
                &&& backoff_of(prior_attempts as int) is Some
                &&& delay == backoff_of(prior_attempts as int)->0 + (clock ^ (process as u64) ^ (
                prior_attempts as u64)) % ((backoff_of(prior_attempts as int)->0 / 10 + 1) as u64)
            },
            None => backoff_of(prior_attempts as int) is None,
        },
{
    match busy_retry_backoff_ms(prior_attempts) {
        None => None,
        Some(backoff) => {
            let seed: u64 = clock ^ (process as u64) ^ (prior_attempts as u64);
            let jitter: u64 = seed % (backoff / BUSY_RETRY_JITTER_DIVISOR + 1);
            Some(backoff + jitter)
        },
    }
}

/// The waits for a contended lock up to an attempt, added up.
pub open spec fn total_backoff(attempts: int) -> int
    decreases attempts,
{
    if attempts <= 0 {
        0
    } else {
        total_backoff(attempts - 1) + match backoff_of(attempts - 1) {
            Some(wait) => wait as int,
            None => 0,
        }
    }
}

/// The waits for a contended lock, up to an attempt and each with the most jitter.
pub open spec fn longest_backoff(attempts: int) -> int
    decreases attempts,
{
    if attempts <= 0 {
        0
    } else {
        longest_backoff(attempts - 1) + match backoff_of(attempts - 1) {
            Some(wait) => wait as int + wait as int / 10,
            None => 0,
        }
    }
}

/// A healthy writer that is merely slow is waited for at least thirty seconds, and
/// no more than thirty-four: the sequence is bounded.
pub proof fn law_retries_last_thirty_seconds()
    ensures
        backoff_of(65) is None,
        30_000 <= total_backoff(65) <= longest_backoff(65) <= 34_000,
{
    reveal_with_fuel(total_backoff, 66);
    reveal_with_fuel(longest_backoff, 66);
}

/// What to do when a change of the journal mode failed: wait and try again, or
/// give up.
pub fn journal_mode_retry(attempt: i32, lock_error: bool) -> (r: Option<u64>)
    ensures
        r == if attempt < JOURNAL_MODE_RETRY_ATTEMPTS && lock_error {
            Some(JOURNAL_MODE_RETRY_MS)
        } else {
            None
        },
{
    if attempt < JOURNAL_MODE_RETRY_ATTEMPTS && lock_error {
        Some(JOURNAL_MODE_RETRY_MS)
    } else {
        None
    }
}

/// One recorded presence of a session.
#[derive(Debug)]
pub struct SessionPresence {
    pub raw_locator: Option<String>,
    pub source_stamp: Option<String>,
    pub discovery_state: Option<String>,
}

/// A value, or another where it is absent.
pub open spec fn or_else(value: Option<Seq<char>>, other: Option<Seq<char>>) -> Option<Seq<char>> {
    match value {
        Some(text) => Some(text),
        None => other,
    }
}

fn first_of(value: &Option<String>, other: &Option<String>) -> (r: Option<String>)
    ensures
        text::opt_view(r) == or_else(text::opt_view(*value), text::opt_view(*other)),
{
    match value {
        Some(text) => Some(text.clone()),
        None => other.clone(),
    }
}

/// The view of a presence.
pub struct PresenceView {
    pub raw_locator: Option<Seq<char>>,
    pub source_stamp: Option<Seq<char>>,
    pub discovery_state: Option<Seq<char>>,
}

impl View for SessionPresence {
    type V = PresenceView;

    open spec fn view(&self) -> PresenceView {
        PresenceView {
            raw_locator: text::opt_view(self.raw_locator),
            source_stamp: text::opt_view(self.source_stamp),
            discovery_state: text::opt_view(self.discovery_state),
        }
    }
}

/// A presence with a newer observation of it.
pub open spec fn merged_presence(held: PresenceView, seen: PresenceView) -> PresenceView {
    PresenceView {
        raw_locator: or_else(seen.raw_locator, held.raw_locator),
        source_stamp: or_else(seen.source_stamp, held.source_stamp),
        discovery_state: if held.discovery_state == Some("full"@) {
            Some("full"@)
        } else {
            or_else(seen.discovery_state, held.discovery_state)
        },
    }
}

/// Recording an observation a second time changes nothing, and no observation takes
/// back full evidence or something that was said before.
pub proof fn law_presence_is_recorded_once(held: PresenceView, seen: PresenceView)
    ensures
        merged_presence(merged_presence(held, seen), seen) == merged_presence(held, seen),
        held.discovery_state == Some("full"@) ==> merged_presence(held, seen).discovery_state
            == Some("full"@),
        held.raw_locator is Some ==> merged_presence(held, seen).raw_locator is Some,
        held.source_stamp is Some ==> merged_presence(held, seen).source_stamp is Some,
        held.discovery_state is Some ==> merged_presence(held, seen).discovery_state is Some,
{
}

/// A presence with a newer observation of it: what the newer one does not say
/// stays, and full evidence stays full.
pub fn merge_presence(held: &SessionPresence, seen: &SessionPresence) -> (r: SessionPresence)
    ensures
        r@ == merged_presence(held@, seen@),
{
    let full = match &held.discovery_state {
        Some(state) => same_text(state.as_str(), "full"),
        None => false,
    };
    SessionPresence {
        raw_locator: first_of(&seen.raw_locator, &held.raw_locator),
        source_stamp: first_of(&seen.source_stamp, &held.source_stamp),
        discovery_state: if full {
            Some("full".to_owned())
        } else {
            first_of(&seen.discovery_state, &held.discovery_state)
        },
    }
}

/// The session whose presence is recorded before a history row is written, where
/// the row names one. A remote row has to name one.
pub fn history_presence<'a>(entry: &'a HistoryEntry, location: SessionLocation) -> (r: Result<
    Option<&'a str>,
    String,
>)
    ensures
        match r {
            Ok(Some(session_id)) => {
                &&& text::opt_view(entry.session_id) == Some(session_id@)
                &&& session_id@.len() > 0
            },
            Ok(None) => {
                &&& location == SessionLocation::Local
                &&& entry.session_id is None || entry.session_id->0@.len() == 0
            },
            Err(message) => {
                &&& location == SessionLocation::Remote
                &&& entry.session_id is None || entry.session_id->0@.len() == 0
                &&& message@ == "remote history requires a non-empty session id"@
            },
        },
{
    if let Some(session_id) = &entry.session_id {
        if !session_id.as_str().is_empty() {
            return Ok(Some(session_id.as_str()));
        }
    }
    match location {
        SessionLocation::Remote => Err("remote history requires a non-empty session id".to_owned()),
        SessionLocation::Local => Ok(None),
    }
}

/// The lower case of a text, as Unicode has it.
pub uninterp spec fn lowercased(text: Seq<char>) -> Seq<char>;

/// The lower case that `str::to_lowercase` gives. It depends on the text alone. That of
/// an ASCII text has its ASCII letters in lower case, and the rest as it is. What becomes
/// of letters beyond ASCII is not stated.
#[verifier::external_body]
fn lowercase(text: &str) -> (r: String)
    ensures
        r@ == lowercased(text@),
        text::is_ascii(text@) ==> r@ == text::ascii_lowered(text@),
{
    text.to_lowercase()
}

/// The words of a name, with one space between each two of them.
pub open spec fn spaced(name: Seq<char>) -> Seq<char> {
    text::joined(text::words(name), " "@)
}

/// The name of a tag: its words, one space between them, in lower case.
pub open spec fn tag_name(name: Seq<char>) -> Seq<char> {
    if text::is_ascii(spaced(name)) {
        text::ascii_lowered(spaced(name))
    } else {
        lowercased(spaced(name))
    }
}

/// The name of a tag with an ASCII name is its words in lower case, with one space
/// between each two of them: it has no white space at its ends and none but single
/// spaces within, and naming a tag by it gives it back.
pub proof fn law_ascii_tag_name_is_stable(name: Seq<char>)
    requires
        text::is_ascii(name),
    ensures
        tag_name(name) == text::joined(text::words(text::ascii_lowered(name)), " "@),
        text::is_ascii(tag_name(name)),
        text::is_evenly_spaced(tag_name(name)),
        tag_name(tag_name(name)) == tag_name(name),
{
    let words = text::words(name);
    let lower = text::all_lowered(words);
    text::lemma_spaced_ascii(name);
    text::lemma_words_of_lowered(name);
    text::lemma_joined_lowered(words);
    text::lemma_words_are_words(name);
    assert forall|i: int| 0 <= i < lower.len() implies text::is_word(#[trigger] lower[i]) by {
        assert(text::is_word(words[i]));
        text::lemma_lowered_twice(words[i]);
    }
    text::lemma_joined_words_are_evenly_spaced(lower);
    text::lemma_words_of_joined(lower);
    text::lemma_lowered_twice(spaced(name));
    assert(spaced(tag_name(name)) == tag_name(name));
}

/// Two ASCII names that have the same words but for the case of their letters name one
/// tag, however their words are spaced.
pub proof fn law_ascii_tag_name_ignores_case(a: Seq<char>, b: Seq<char>)
    requires
        text::is_ascii(a),
        text::is_ascii(b),
        text::words(text::ascii_lowered(a)) == text::words(text::ascii_lowered(b)),
    ensures
        tag_name(a) == tag_name(b),
{
    law_ascii_tag_name_is_stable(a);
    law_ascii_tag_name_is_stable(b);
}

/// What the name of a tag is the lower case of has no white space at its ends and none
/// but single spaces within; spacing it once more changes nothing.
pub proof fn law_tag_name_is_evenly_spaced(name: Seq<char>)
    ensures
        text::is_evenly_spaced(spaced(name)),
        text::words(spaced(name)) == text::words(name),
        spaced(spaced(name)) == spaced(name),
{
    text::lemma_words_are_words(name);
    text::lemma_joined_words_are_evenly_spaced(text::words(name));
    text::lemma_words_of_joined(text::words(name));
}

/// It does not matter for the name of a tag how much white space stands between two
/// parts of it, or of which kind.
pub proof fn law_tag_name_ignores_the_kind_of_space(
    a: Seq<char>,
    space: Seq<char>,
    other: Seq<char>,
    b: Seq<char>,
)
    requires
        space.len() > 0,
        other.len() > 0,
        text::is_blank(space),
        text::is_blank(other),
    ensures
        tag_name(a + space + b) == tag_name(a + other + b),
{
    text::lemma_words_around_blank(a, space, b);
    text::lemma_words_around_blank(a, other, b);
}

/// White space around a name does not matter for the name of its tag.
pub proof fn law_tag_name_ignores_outer_space(before: Seq<char>, name: Seq<char>, after: Seq<char>)
    requires
        text::is_blank(before),
        text::is_blank(after),
    ensures
        tag_name(before + name + after) == tag_name(name),
{
    let none = Seq::<char>::empty();
    if before.len() > 0 {
        assert(before + name + after =~= none + before + (name + after));
        text::lemma_words_around_blank(none, before, name + after);
        assert(text::words(none) + text::words(name + after) =~= text::words(name + after));
    } else {
        assert(before + name + after =~= name + after);
    }
    if after.len() > 0 {
        assert(name + after =~= name + after + none);
        text::lemma_words_around_blank(name, after, none);
        assert(text::words(name) + text::words(none) =~= text::words(name));
    } else {
        assert(name + after =~= name);
    }
}

/// A name that is white space throughout has no words to name a tag by: the name of its
/// tag is empty.
pub proof fn law_blank_name_is_empty(name: Seq<char>)
    requires
        text::is_blank(name),
    ensures
        tag_name(name).len() == 0,
{
    let none = Seq::<char>::empty();
    if name.len() > 0 {
        assert(name =~= none + name + none);
        text::lemma_words_around_blank(none, name, none);
    }
}

/// The name of a tag; that of a blank name is empty.
pub fn normalize_tag_name(name: &str) -> (r: String)
    ensures
        r@ == tag_name(name@),
        text::is_blank(name@) ==> r@.len() == 0,
{
    proof {
        if text::is_blank(name@) {
            law_blank_name_is_empty(name@);
        }
    }
    let words = text::split_words(name);
    let joined = text::join(&words, " ");
    lowercase(joined.as_str())
}

/// The name and the shown name of a tag. An empty name is refused.
pub fn tag_names(name: &str) -> (r: Result<(String, String), String>)
    ensures
        match r {
            Ok(names) => {
                &&& tag_name(name@).len() > 0
                &&& names.0@ == tag_name(name@)
                &&& names.1@ == text::trimmed(name@)
            },
            Err(message) => tag_name(name@).len() == 0 && message@ == "tag name cannot be empty"@,
        },
        text::is_blank(name@) ==> r is Err,
{
    let normalized = normalize_tag_name(name);
    if normalized.as_str().is_empty() {
        return Err("tag name cannot be empty".to_owned());
    }
    Ok((normalized, text::trim(name).to_owned()))
}

/// Whether a shell reads a character as it is.
pub open spec fn is_plain(c: char) -> bool {
    ||| 'a' <= c <= 'z'
    ||| 'A' <= c <= 'Z'
    ||| '0' <= c <= '9'
    ||| c == '_'
    ||| c == '-'
    ||| c == '.'
    ||| c == '/'
}

/// A value as one word of a shell command.
pub open spec fn shell_word(value: Seq<char>) -> Seq<char> {
    if value.len() > 0 && (forall|i: int| 0 <= i < value.len() ==> is_plain(#[trigger] value[i])) {
        value
    } else {
        "'"@ + text::replaced(value, '\'', "'\\''"@) + "'"@
    }
}

/// A value as one word of a shell command.
pub fn shell_quote(value: &str) -> (r: String)
    ensures
        r@ == shell_word(value@),
{
    let chars = text::chars_of(value);
    let mut plain = chars.len() > 0;
    let mut i: usize = 0;
    while i < chars.len() && plain
        invariant
            i <= chars.len(),
            chars@ == value@,
            plain ==> chars.len() > 0 && forall|j: int|
                0 <= j < i ==> is_plain(#[trigger] value@[j]),
            !plain && chars.len() > 0 ==> exists|j: int|
                0 <= j < value@.len() && !is_plain(#[trigger] value@[j]),
        decreases chars.len() - i,
    {
        let c = chars[i];
        let known = ('a' <= c && c <= 'z') || ('A' <= c && c <= 'Z') || ('0' <= c && c <= '9') || c
            == '_' || c == '-' || c == '.' || c == '/';
        if !known {
            assert(!is_plain(value@[i as int]));
            plain = false;
        }
        i = i + 1;
    }
    if plain {
        return value.to_owned();
    }
    let inner = text::replace_char(value, '\'', "'\\''");
    concat3("'", inner.as_str(), "'")
}

/// A character in front of what is read of the rest of a word.
pub open spec fn read_before(c: char, rest: Option<Seq<char>>) -> Option<Seq<char>> {
    match rest {
        Some(read) => Some(seq![c] + read),
        None => None,
    }
}

/// What a shell reads of a text as one word: between single quotes every character as it
/// is, outside them the plain characters and a single quote behind a backslash. Anything
/// else outside quotes would end the word or mean something, and a quote has to be
/// closed: such a text is not one word.
pub open spec fn shell_reads(word: Seq<char>, quoted: bool) -> Option<Seq<char>>
    decreases word.len(),
{
    if word.len() == 0 {
        if quoted {
            None
        } else {
            Some(Seq::empty())
        }
    } else if word[0] == '\'' {
        shell_reads(word.drop_first(), !quoted)
    } else if quoted {
        read_before(word[0], shell_reads(word.drop_first(), true))
    } else if word[0] == '\\' && word.len() > 1 && word[1] == '\'' {
        read_before('\'', shell_reads(word.skip(2), false))
    } else if is_plain(word[0]) {
        read_before(word[0], shell_reads(word.drop_first(), false))
    } else {
        None
    }
}

proof fn lemma_plain_is_read(value: Seq<char>)
    requires
        forall|i: int| 0 <= i < value.len() ==> is_plain(#[trigger] value[i]),
    ensures
        shell_reads(value, false) == Some(value),
    decreases value.len(),
{
    if value.len() > 0 {
        let rest = value.drop_first();
        assert forall|i: int| 0 <= i < rest.len() implies is_plain(#[trigger] rest[i]) by {
            assert(rest[i] == value[i + 1]);
        }
        lemma_plain_is_read(rest);
        assert(is_plain(value[0]));
        assert(value =~= seq![value[0]] + rest);
    } else {
        assert(value =~= Seq::<char>::empty());
    }
}

proof fn lemma_replaced_first(value: Seq<char>, from: char, to: Seq<char>)
    requires
        value.len() > 0,
    ensures
        text::replaced(value, from, to) == (if value[0] == from {
            to
        } else {
            seq![value[0]]
        }) + text::replaced(value.drop_first(), from, to),
    decreases value.len(),
{
    let head = if value[0] == from {
        to
    } else {
        seq![value[0]]
    };
    if value.len() == 1 {
        assert(value.drop_first() =~= Seq::<char>::empty());
        assert(value.drop_last() =~= Seq::<char>::empty());
        assert(text::replaced(value.drop_last(), from, to) =~= Seq::<char>::empty());
        assert(text::replaced(value.drop_first(), from, to) =~= Seq::<char>::empty());
        assert(text::replaced(value, from, to) =~= head + Seq::<char>::empty());
    } else {
        lemma_replaced_first(value.drop_last(), from, to);
        assert(value.drop_last().drop_first() =~= value.drop_first().drop_last());
        assert(value.drop_last()[0] == value[0]);
        assert(value.drop_first().last() == value.last());
        assert(text::replaced(value, from, to) =~= head + text::replaced(
            value.drop_first(),
            from,
            to,
        ));
    }
}

proof fn lemma_quoted_is_read(value: Seq<char>)
    ensures
        shell_reads(text::replaced(value, '\'', "'\\''"@) + "'"@, true) == Some(value),
    decreases value.len(),
{
    reveal_strlit("'\\''");
    reveal_strlit("'");
    let escape = "'\\''"@;
    assert(escape =~= seq!['\'', '\\', '\'', '\'']);
    let end = "'"@;
    assert(end =~= seq!['\'']);
    if value.len() == 0 {
        let word = text::replaced(value, '\'', escape) + end;
        assert(word =~= seq!['\'']);
        assert(word.drop_first() =~= Seq::<char>::empty());
        assert(shell_reads(word.drop_first(), false) == Some(Seq::<char>::empty()));
        assert(value =~= Seq::<char>::empty());
    } else {
        let rest = value.drop_first();
        let tail = text::replaced(rest, '\'', escape) + end;
        lemma_quoted_is_read(rest);
        lemma_replaced_first(value, '\'', escape);
        assert(value =~= seq![value[0]] + rest);
        let word = text::replaced(value, '\'', escape) + end;
        if value[0] == '\'' {
            assert(word =~= escape + tail);
            let one = word.drop_first();
            assert(one[0] == '\\');
            assert(one[1] == '\'');
            let three = one.skip(2);
            assert(three =~= seq!['\''] + tail);
            assert(three.drop_first() =~= tail);
            assert(shell_reads(three, false) == shell_reads(tail, true));
            assert(shell_reads(one, false) == read_before('\'', shell_reads(three, false)));
            assert(shell_reads(word, true) == shell_reads(one, false));
        } else {
            assert(word =~= seq![value[0]] + tail);
            assert(word.drop_first() =~= tail);
        }
    }
}

/// A shell reads a quoted value as one word, and reads it back as it was, whatever
/// characters it holds.
pub proof fn law_shell_reads_the_value_back(value: Seq<char>)
    ensures
        shell_reads(shell_word(value), false) == Some(value),
{
    if value.len() > 0 && (forall|i: int|
        0 <= i < value.len() ==> is_plain(#[trigger] value[i])) {
        lemma_plain_is_read(value);
    } else {
        reveal_strlit("'");
        let word = shell_word(value);
        let inner = text::replaced(value, '\'', "'\\''"@) + "'"@;
        assert("'"@ =~= seq!['\'']);
        assert(word =~= seq!['\''] + inner);
        assert(word.drop_first() =~= inner);
        lemma_quoted_is_read(value);
    }
}

/// The command line that resumes a session of a source, without its directory.
pub open spec fn resume_program(source: Seq<char>, first: Seq<char>) -> Option<Seq<char>> {
    if source == first {
        Some(first + " --resume "@)
    } else if source == "codex"@ {
        Some("codex resume "@)
    } else if source == "cursor"@ {
        Some("cursor-agent --resume="@)
    } else if source == "grok"@ {
        Some("grok resume "@)
    } else {
        None
    }
}

/// The command that resumes a session: in its project where one is known, but for
/// Codex, which finds it itself.
pub open spec fn resume_line(entry: HistoryEntry, first: Seq<char>) -> Option<Seq<char>> {
    match (entry.session_id, resume_program(entry.source@, first)) {
        (Some(session_id), Some(program)) => {
            let command = program + shell_word(session_id@);
            match entry.project {
                Some(project) => if entry.source@ == "codex"@ {
                    Some(command)
                } else {
                    Some("cd "@ + shell_word(project@) + " && "@ + command)
                },
                None => Some(command),
            }
        },
        _ => None,
    }
}

/// The command that resumes the session of an entry, where its source has one.
pub fn resume_command(entry: &HistoryEntry, names: &SourceNames) -> (r: Option<String>)
    ensures
        text::opt_view(r) == resume_line(*entry, names.claude@),
{
    let session_id = match &entry.session_id {
        Some(session_id) => session_id,
        None => return None,
    };
    let source = entry.source.as_str();
    let own = concat2(names.claude.as_str(), " --resume ");
    let program = if same_text(source, names.claude.as_str()) {
        own.as_str()
    } else if same_text(source, "codex") {
        "codex resume "
    } else if same_text(source, "cursor") {
        "cursor-agent --resume="
    } else if same_text(source, "grok") {
        "grok resume "
    } else {
        return None;
    };
    let word = shell_quote(session_id.as_str());
    let command = concat2(program, word.as_str());
    if same_text(source, "codex") {
        return Some(command);
    }
    match &entry.project {
        Some(project) => {
            let place = shell_quote(project.as_str());
            let head = concat3("cd ", place.as_str(), " && ");
            Some(concat2(head.as_str(), command.as_str()))
        },
        None => Some(command),
    }
}

impl SessionEvent {
    /// The same row once more.
    pub fn copied(&self) -> (r: Self)
        ensures
            r == *self,
    {
        SessionEvent {
            id: self.id,
            source: self.source.clone(),
            session_id: self.session_id.clone(),
            project: self.project.clone(),
            project_key: self.project_key.clone(),
            cwd: self.cwd.clone(),
            git_branch: self.git_branch.clone(),
            message_id: self.message_id.clone(),
            parent_id: self.parent_id.clone(),
            ts_ms: self.ts_ms,
            role: self.role.clone(),
            kind: self.kind.clone(),
            text: self.text.clone(),
            model: self.model.clone(),
            token_json: self.token_json.clone(),
            provider: self.provider.clone(),
            event_uid: self.event_uid.clone(),
            tool_use_id: self.tool_use_id.clone(),
            payload_bytes: self.payload_bytes,
            payload_truncated: self.payload_truncated,
            payload_hash: self.payload_hash.clone(),
            call_index: self.call_index,
            event_index: self.event_index,
            result_status: self.result_status.clone(),
            event_source: self.event_source.clone(),
            error_signal: self.error_signal.clone(),
            subagent_session_id: self.subagent_session_id.clone(),
            agent_id: self.agent_id.clone(),
            request_id: self.request_id.clone(),
            provider_message_id: self.provider_message_id.clone(),
            stop_reason: self.stop_reason.clone(),
            agent_version: self.agent_version.clone(),
            is_sidechain: self.is_sidechain,
            is_meta: self.is_meta,
            turn_id: self.turn_id.clone(),
            request_span: self.request_span.clone(),
            raw_kind: self.raw_kind.clone(),
            control_kind: self.control_kind.clone(),
        }
    }
}

impl SessionToolCall {
    /// The same row once more.
    pub fn copied(&self) -> (r: Self)
        ensures
            r == *self,
    {
        SessionToolCall {
            id: self.id,
            source: self.source.clone(),
            session_id: self.session_id.clone(),
            message_id: self.message_id.clone(),
            tool_use_id: self.tool_use_id.clone(),
            name: self.name.clone(),
            target: self.target.clone(),
            args_json: self.args_json.clone(),
            is_error: self.is_error,
            ts_ms: self.ts_ms,
        }
    }
}

impl SessionFileEdit {
    /// The same row once more.
    pub fn copied(&self) -> (r: Self)
        ensures
            r == *self,
    {
        SessionFileEdit {
            id: self.id,
            source: self.source.clone(),
            session_id: self.session_id.clone(),
            message_id: self.message_id.clone(),
            tool_use_id: self.tool_use_id.clone(),
            file_path: self.file_path.clone(),
            tool_name: self.tool_name.clone(),
            lines_added: self.lines_added,
            lines_removed: self.lines_removed,
            structured_patch_json: self.structured_patch_json.clone(),
            user_modified: self.user_modified,
            ts_ms: self.ts_ms,
            git_branch: self.git_branch.clone(),
            cwd: self.cwd.clone(),
        }
    }
}

/// Where the next page of events starts.
#[derive(Debug, Clone, Copy, PartialEq, Eq, Structural)]
pub struct SessionEventCursor {
    pub ts_ms: i64,
    pub id: i64,
}

/// A page of events.
#[derive(Debug)]
pub struct SessionEventPage {
    pub events: Vec<SessionEvent>,
    pub next_cursor: Option<SessionEventCursor>,
}

/// Where the next page of tool calls or file edits starts. Without a time it is
/// inside the undated tail.
#[derive(Debug, Clone, Copy, PartialEq, Eq, Structural)]
pub struct SessionEvidenceCursor {
    pub ts_ms: Option<i64>,
    pub id: i64,
}

/// A page of tool calls.
#[derive(Debug)]
pub struct SessionToolCallPage {
    pub tool_calls: Vec<SessionToolCall>,
    pub next_cursor: Option<SessionEvidenceCursor>,
}

/// A page of file edits.
#[derive(Debug)]
pub struct SessionFileEditPage {
    pub file_edits: Vec<SessionFileEdit>,
    pub next_cursor: Option<SessionEvidenceCursor>,
}

} // verus!
