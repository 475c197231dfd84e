//! What is recorded of a prompt and of a session, call by call.
use crate::json;
use crate::json::{JsonTree, JsonValue};
use crate::prompts::{claude_prompt, codex_prompt, cursor_text, opencode_prompt};
use crate::store;
use crate::store::{
    busy_retry_backoff_ms, busy_retry_delay_ms, history_presence, merge_presence, resume_command,
    HistoryEntry, SessionLocation, SessionPresence, SourceNames,
};
use crate::text;
use vstd::prelude::*;
use vstd::string::*;

verus! {

/// Whether a text is another without the white space around it: what is left out on either
/// side is white space, and what is left begins and ends with something else.
pub open spec fn is_stripped(whole: Seq<char>, inner: Seq<char>) -> bool {
    exists|from: int, to: int|
        {
            &&& 0 <= from <= to <= whole.len()
            &&& #[trigger] whole.subrange(from, to) == inner
            &&& forall|i: int| 0 <= i < from ==> text::is_space(#[trigger] whole[i])
            &&& forall|i: int| to <= i < whole.len() ==> text::is_space(#[trigger] whole[i])
            &&& inner.len() > 0 ==> !text::is_space(inner[0]) && !text::is_space(inner.last())
        }
}

proof fn lemma_start(s: Seq<char>) -> (k: int)
    ensures
        0 <= k <= s.len(),
        text::trimmed_start(s) == s.skip(k),
        forall|i: int| 0 <= i < k ==> text::is_space(#[trigger] s[i]),
        k < s.len() ==> !text::is_space(s[k]),
    decreases s.len(),
{
    if s.len() > 0 && text::is_space(s[0]) {
        let rest = s.drop_first();
        let k = lemma_start(rest);
        assert(rest.skip(k) =~= s.skip(k + 1));
        assert forall|i: int| 0 <= i < k + 1 implies text::is_space(#[trigger] s[i]) by {
            if i > 0 {
                assert(rest[i - 1] == s[i]);
            }
        }
        if k + 1 < s.len() {
            assert(rest[k] == s[k + 1]);
        }
        k + 1
    } else {
        assert(s.skip(0) =~= s);
        0
    }
}

proof fn lemma_end(s: Seq<char>) -> (k: int)
    ensures
        0 <= k <= s.len(),
        text::trimmed_end(s) == s.take(k),
        forall|i: int| k <= i < s.len() ==> text::is_space(#[trigger] s[i]),
        k > 0 ==> !text::is_space(s[k - 1]),
    decreases s.len(),
{
    if s.len() > 0 && text::is_space(s.last()) {
        let front = s.drop_last();
        let k = lemma_end(front);
        assert(front.take(k) =~= s.take(k));
        assert forall|i: int| k <= i < s.len() implies text::is_space(#[trigger] s[i]) by {
            if i < front.len() {
                assert(front[i] == s[i]);
            }
        }
        if k > 0 {
            assert(front[k - 1] == s[k - 1]);
        }
        k
    } else {
        assert(s.take(s.len() as int) =~= s);
        s.len() as int
    }
}

proof fn lemma_trimmed(s: Seq<char>)
    ensures
        is_stripped(s, text::trimmed(s)),
{
    let k = lemma_start(s);
    let rest = s.skip(k);
    let n = lemma_end(rest);
    let inner = rest.take(n);
    assert(s.subrange(k, k + n) =~= inner);
    assert forall|i: int| k + n <= i < s.len() implies text::is_space(#[trigger] s[i]) by {
        assert(rest[i - k] == s[i]);
    }
    if n > 0 {
        assert(inner[0] == s[k]);
        assert(inner.last() == rest[n - 1]);
    }
}

/// A text is blank exactly where nothing of it is left without white space.
proof fn lemma_blank(s: Seq<char>)
    ensures
        text::trimmed(s).len() == 0 <==> text::is_blank(s),
{
    lemma_trimmed(s);
    let inner = text::trimmed(s);
    let (from, to) = choose|from: int, to: int|
        {
            &&& 0 <= from <= to <= s.len()
            &&& #[trigger] s.subrange(from, to) == inner
            &&& forall|i: int| 0 <= i < from ==> text::is_space(#[trigger] s[i])
            &&& forall|i: int| to <= i < s.len() ==> text::is_space(#[trigger] s[i])
            &&& inner.len() > 0 ==> !text::is_space(inner[0]) && !text::is_space(inner.last())
        };
    if inner.len() > 0 {
        assert(s[from] == inner[0]);
    } else {
        assert(from == to);
    }
}

/// What a record holds under a name, where it is a text.
pub open spec fn text_under(
    members: Seq<(Seq<char>, JsonTree)>,
    name: Seq<char>,
) -> Option<Seq<char>> {
    match json::member(members, name) {
        Some(JsonTree::Text(text)) => Some(text),
        _ => None,
    }
}

/// A line of the first source is a prompt exactly where it shows a text that is not blank:
/// that text without the white space around it, in the session and the project that the line
/// names, at the time that it names.
pub proof fn law_first_source_prompt(
    value: JsonValue,
    members: Seq<(Seq<char>, JsonTree)>,
    names: SourceNames,
    entry: Option<HistoryEntry>,
)
    requires
        call_ensures(claude_prompt, (&value, &names), entry),
        value@ == JsonTree::Object(members),
    ensures
        entry is Some <==> text_under(members, "display"@) is Some && !text::is_blank(
            text_under(members, "display"@)->0,
        ),
        entry is Some ==> {
            &&& entry->0.source@ == names.claude@
            &&& is_stripped(text_under(members, "display"@)->0, entry->0.prompt@)
            &&& text::opt_view(entry->0.session_id) == text_under(members, "sessionId"@)
            &&& text::opt_view(entry->0.project) == text_under(members, "project"@)
            &&& entry->0.timestamp_ms == match json::member(members, "timestamp"@) {
                Some(JsonTree::Number(number)) => match number.signed {
                    Some(ms) => ms,
                    None => 0,
                },
                _ => 0,
            }
        },
{
    if text_under(members, "display"@) is Some {
        lemma_trimmed(text_under(members, "display"@)->0);
        lemma_blank(text_under(members, "display"@)->0);
    }
}

/// A line of Codex's is a prompt exactly where it holds a text that is not blank: that text
/// without the white space around it, in the session that the line names.
pub proof fn law_codex_prompt(
    value: JsonValue,
    members: Seq<(Seq<char>, JsonTree)>,
    entry: Option<HistoryEntry>,
)
    requires
        call_ensures(codex_prompt, (&value,), entry),
        value@ == JsonTree::Object(members),
    ensures
        entry is Some <==> text_under(members, "text"@) is Some && !text::is_blank(
            text_under(members, "text"@)->0,
        ),
        entry is Some ==> {
            &&& entry->0.source@ == "codex"@
            &&& is_stripped(text_under(members, "text"@)->0, entry->0.prompt@)
            &&& json::member(members, "session_id"@) is Some ==> text::opt_view(
                entry->0.session_id,
            ) == text_under(members, "session_id"@)
            &&& json::member(members, "session_id"@) is None ==> text::opt_view(
                entry->0.session_id,
            ) == text_under(members, "sessionId"@)
            &&& entry->0.project is None
        },
{
    if text_under(members, "text"@) is Some {
        lemma_trimmed(text_under(members, "text"@)->0);
        lemma_blank(text_under(members, "text"@)->0);
    }
}

/// A line of Cursor's is a prompt only where the user wrote it; one that is a text without a
/// tag around it is that text without the white space around it.
pub proof fn law_cursor_prompt(
    value: JsonValue,
    members: Seq<(Seq<char>, JsonTree)>,
    message: Seq<(Seq<char>, JsonTree)>,
    written: Seq<char>,
    prompt: Option<String>,
)
    requires
        call_ensures(cursor_text, (&value,), prompt),
        value@ == JsonTree::Object(members),
        json::member(members, "message"@) == Some(JsonTree::Object(message)),
        json::member(message, "content"@) == Some(JsonTree::Text(written)),
    ensures
        text_under(members, "role"@) != Some("user"@) ==> prompt is None,
        text::is_blank(written) ==> prompt is None,
        text_under(members, "role"@) == Some("user"@) && !text::is_blank(written)
            && !text::has_prefix(text::trimmed(written), "<user_query>"@) ==> prompt is Some
            && is_stripped(written, prompt->0@),
{
    lemma_trimmed(written);
    lemma_blank(written);
    if text::is_blank(written) {
        reveal_strlit("<user_query>");
        assert(!text::has_prefix(text::trimmed(written), "<user_query>"@));
    }
}

/// The tag that Cursor puts around a prompt is taken off: a prompt that stands in it is what
/// stands in it, without the white space around that.
pub proof fn law_cursor_tag_is_taken_off(
    value: JsonValue,
    members: Seq<(Seq<char>, JsonTree)>,
    message: Seq<(Seq<char>, JsonTree)>,
    written: Seq<char>,
    inner: Seq<char>,
    prompt: Option<String>,
)
    requires
        call_ensures(cursor_text, (&value,), prompt),
        value@ == JsonTree::Object(members),
        json::member(members, "message"@) == Some(JsonTree::Object(message)),
        json::member(message, "content"@) == Some(JsonTree::Text(written)),
        text_under(members, "role"@) == Some("user"@),
        is_stripped(written, "<user_query>"@ + inner + "</user_query>"@),
    ensures
        prompt is Some <==> !text::is_blank(inner),
        prompt is Some ==> is_stripped(inner, prompt->0@),
{
    let open = "<user_query>"@;
    let close = "</user_query>"@;
    let tagged = open + inner + close;
    reveal_strlit("<user_query>");
    lemma_stripped_is_trimmed(written, tagged);
    assert(tagged.take(open.len() as int) =~= open);
    assert(tagged.skip(tagged.len() - close.len()) =~= close);
    assert(tagged.subrange(open.len() as int, tagged.len() - close.len()) =~= inner);
    lemma_trimmed(inner);
    lemma_blank(inner);
}

/// There is one text that another is without the white space around it.
proof fn lemma_stripped_is_trimmed(whole: Seq<char>, inner: Seq<char>)
    requires
        is_stripped(whole, inner),
        inner.len() > 0,
    ensures
        text::trimmed(whole) == inner,
{
    let (from, to) = choose|from: int, to: int|
        {
            &&& 0 <= from <= to <= whole.len()
            &&& #[trigger] whole.subrange(from, to) == inner
            &&& forall|i: int| 0 <= i < from ==> text::is_space(#[trigger] whole[i])
            &&& forall|i: int| to <= i < whole.len() ==> text::is_space(#[trigger] whole[i])
            &&& inner.len() > 0 ==> !text::is_space(inner[0]) && !text::is_space(inner.last())
        };
    assert(inner[0] == whole[from]);
    assert(inner.last() == whole[to - 1]);
    let k = lemma_start(whole);
    assert(k == from) by {
        if k < from {
            assert(text::is_space(whole[k]));
        }
        if from < k {
            assert(text::is_space(whole[from]));
        }
    }
    let rest = whole.skip(k);
    let n = lemma_end(rest);
    assert(k + n == to) by {
        if k + n < to {
            assert(text::is_space(rest[to - 1 - k]));
            assert(rest[to - 1 - k] == whole[to - 1]);
        }
        if to < k + n {
            assert(rest[n - 1] == whole[k + n - 1]);
        }
    }
    assert(rest.take(n) =~= inner);
}

/// A part of an OpenCode session is a prompt exactly where it is JSON with a text that is
/// not blank: that text without the white space around it, as the caller says where and when
/// it was.
pub proof fn law_opencode_prompt(
    session_id: &str,
    project: Option<String>,
    data: &str,
    timestamp_ms: i64,
    members: Seq<(Seq<char>, JsonTree)>,
    entry: Option<HistoryEntry>,
)
    requires
        call_ensures(opencode_prompt, (session_id, project, data, timestamp_ms), entry),
    ensures
        json::decoded(data@) is Err ==> entry is None,
        json::decoded(data@) == Ok::<JsonTree, Seq<char>>(JsonTree::Object(members)) ==> (entry
            is Some <==> text_under(members, "text"@) is Some && !text::is_blank(
            text_under(members, "text"@)->0,
        )),
        json::decoded(data@) == Ok::<JsonTree, Seq<char>>(JsonTree::Object(members)) && entry
            is Some ==> is_stripped(text_under(members, "text"@)->0, entry->0.prompt@),
        entry is Some ==> {
            &&& entry->0.source@ == "opencode"@
            &&& entry->0.session_id is Some
            &&& entry->0.session_id->0@ == session_id@
            &&& entry->0.project == project
            &&& entry->0.timestamp_ms == timestamp_ms
        },
{
    if text_under(members, "text"@) is Some {
        lemma_trimmed(text_under(members, "text"@)->0);
        lemma_blank(text_under(members, "text"@)->0);
    }
}

/// A session can be resumed where it has an id and its source a program for it. The command
/// ends in a word that a shell reads back as the id, and begins in the session's project
/// where one is known, but for Codex.
pub proof fn law_resume_command_names_the_session(
    entry: HistoryEntry,
    names: SourceNames,
    command: Option<String>,
) -> (r: (Seq<char>, Seq<char>))
    requires
        call_ensures(resume_command, (&entry, &names), command),
    ensures
        command is Some <==> entry.session_id is Some && (entry.source@ == names.claude@
            || entry.source@ == "codex"@ || entry.source@ == "cursor"@ || entry.source@
            == "grok"@),
        command is Some ==> {
            let program = if entry.source@ == names.claude@ {
                names.claude@ + " --resume "@
            } else if entry.source@ == "codex"@ {
                "codex resume "@
            } else if entry.source@ == "cursor"@ {
                "cursor-agent --resume="@
            } else {
                "grok resume "@
            };
            &&& store::shell_reads(r.0, false) == Some(entry.session_id->0@)
            &&& entry.project is None || entry.source@ == "codex"@ ==> command->0@ == program + r.0
            &&& entry.project is Some && entry.source@ != "codex"@ ==> store::shell_reads(
                r.1,
                false,
            ) == Some(entry.project->0@) && command->0@ == "cd "@ + r.1 + " && "@ + (program + r.0)
        },
{
    let word = match entry.session_id {
        Some(id) => store::shell_word(id@),
        None => Seq::empty(),
    };
    let place = match entry.project {
        Some(project) => store::shell_word(project@),
        None => Seq::empty(),
    };
    if entry.session_id is Some {
        store::law_shell_reads_the_value_back(entry.session_id->0@);
    }
    if entry.project is Some {
        store::law_shell_reads_the_value_back(entry.project->0@);
    }
    (word, place)
}

/// The waits for a contended lock double from ten milliseconds up to half a second, and end
/// after a bounded number of attempts.
pub proof fn law_waits_double_up_to_a_cap(
    attempt: i32,
    wait: Option<u64>,
    next: Option<u64>,
    first: Option<u64>,
)
    requires
        call_ensures(busy_retry_backoff_ms, (0,), first),
        call_ensures(busy_retry_backoff_ms, (attempt,), wait),
        attempt < i32::MAX,
        call_ensures(busy_retry_backoff_ms, ((attempt + 1) as i32,), next),
    ensures
        first == Some(10u64),
        wait is Some && next is Some ==> next->0 == if 2 * wait->0 <= 500 {
            2 * wait->0
        } else {
            500
        },
        attempt >= 0 && wait is None ==> next is None,
        attempt >= 65 ==> wait is None,
        0 <= attempt < 65 ==> wait is Some,
{
}

/// A wait is drawn out by no more than a tenth.
pub proof fn law_jitter_is_small(
    attempt: i32,
    clock: u64,
    process: u32,
    wait: Option<u64>,
    delay: Option<u64>,
)
    requires
        call_ensures(busy_retry_backoff_ms, (attempt,), wait),
        call_ensures(busy_retry_delay_ms, (attempt, clock, process), delay),
    ensures
        delay is Some <==> wait is Some,
        wait is Some ==> wait->0 <= delay->0 <= wait->0 + wait->0 / 10,
{
}

/// What a newer observation says of a session is recorded, what it does not say stays, and
/// full evidence stays full.
pub proof fn law_newer_observation_is_recorded(
    held: SessionPresence,
    seen: SessionPresence,
    kept: SessionPresence,
)
    requires
        call_ensures(merge_presence, (&held, &seen), kept),
    ensures
        seen.raw_locator is Some ==> kept.raw_locator is Some && kept.raw_locator->0@
            == seen.raw_locator->0@,
        seen.raw_locator is None ==> text::opt_view(kept.raw_locator) == text::opt_view(
            held.raw_locator,
        ),
        seen.source_stamp is Some ==> kept.source_stamp is Some && kept.source_stamp->0@
            == seen.source_stamp->0@,
        seen.source_stamp is None ==> text::opt_view(kept.source_stamp) == text::opt_view(
            held.source_stamp,
        ),
        text::opt_view(held.discovery_state) == Some("full"@) ==> text::opt_view(
            kept.discovery_state,
        ) == Some("full"@),
        text::opt_view(held.discovery_state) != Some("full"@) && seen.discovery_state is Some
            ==> text::opt_view(kept.discovery_state) == text::opt_view(seen.discovery_state),
        seen.discovery_state is None ==> text::opt_view(kept.discovery_state) == text::opt_view(
            held.discovery_state,
        ),
{
}

/// A row of the history says whose presence it is: that of the session it names. One
/// without a session is refused where it comes from elsewhere, and passed over where it is
/// local.
pub proof fn law_history_row_says_whose_it_is(
    entry: HistoryEntry,
    location: SessionLocation,
    session: Result<Option<&str>, String>,
)
    requires
        call_ensures(history_presence, (&entry, location), session),
    ensures
        ({
            let named = entry.session_id is Some && entry.session_id->0@.len() > 0;
            &&& named ==> session is Ok && session->Ok_0 is Some && session->Ok_0->0@
                == entry.session_id->0@
            &&& !named && location == SessionLocation::Remote ==> session is Err
            &&& !named && location == SessionLocation::Local ==> session is Ok && session->Ok_0
                is None
        }),
{
}

} // verus!
