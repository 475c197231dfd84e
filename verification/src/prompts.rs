//! Prompts, read from the lines that agents write.
use crate::digest;
use crate::digest::prompt_hash;
use crate::doubles;
use crate::doubles::two_to;
use crate::json;
use crate::json::{JsonTree, JsonValue};
use crate::store::{HistoryEntry, SourceNames};
use crate::text;
use crate::text::same_text;
use vstd::arithmetic::power2::{lemma_pow2_pos, lemma_pow2_strictly_increases, lemma_pow2_unfold, pow2};
use vstd::prelude::*;
use vstd::string::*;

verus! {

/// The text of a member, trimmed; empty where there is none.
pub open spec fn trimmed_member(value: JsonTree, name: Seq<char>) -> Seq<char> {
    match json::field(value, name) {
        Some(JsonTree::Text(text)) => text::trimmed(text),
        _ => Seq::empty(),
    }
}

/// The text of a member, where it is one.
pub open spec fn text_member(value: JsonTree, name: Seq<char>) -> Option<Seq<char>> {
    match json::field(value, name) {
        Some(JsonTree::Text(text)) => Some(text),
        _ => None,
    }
}

/// Whether an entry is a new prompt of a source.
pub open spec fn is_prompt_entry(entry: HistoryEntry, source: Seq<char>, prompt: Seq<char>) -> bool {
    &&& entry.id == 0
    &&& entry.source@ == source
    &&& entry.prompt@ == prompt
    &&& text::opt_view(entry.prompt_hash) == Some(digest::prompt_digest(prompt))
}

fn prompt_entry(
    source: &str,
    session_id: Option<String>,
    project: Option<String>,
    prompt: &str,
    timestamp_ms: i64,
) -> (r: HistoryEntry)
    ensures
        is_prompt_entry(r, source@, prompt@),
        r.session_id == session_id,
        r.project == project,
        r.timestamp_ms == timestamp_ms,
{
    HistoryEntry {
        id: 0,
        source: source.to_owned(),
        session_id,
        project,
        prompt: prompt.to_owned(),
        prompt_hash: Some(prompt_hash(prompt)),
        timestamp_ms,
    }
}

fn member_text(value: &JsonValue, name: &str) -> (r: Option<String>)
    ensures
        text::opt_view(r) == text_member(value@, name@),
{
    match value.get(name) {
        Some(member) => match member.as_text() {
            Some(text) => Some(text.to_owned()),
            None => None,
        },
        None => None,
    }
}

fn member_trimmed(value: &JsonValue, name: &str) -> (r: String)
    ensures
        r@ == trimmed_member(value@, name@),
{
    match value.get(name) {
        Some(member) => match member.as_text() {
            Some(text) => text::trim(text).to_owned(),
            None => {
                let none = String::new();
                assert(none@ =~= Seq::<char>::empty());
                none
            },
        },
        None => {
            let none = String::new();
            assert(none@ =~= Seq::<char>::empty());
            none
        },
    }
}

/// The time of a line of the first source.
pub open spec fn claude_time(value: JsonTree) -> i64 {
    match json::field(value, "timestamp"@) {
        Some(time) => match json::signed_of(time) {
            Some(ms) => ms,
            None => 0,
        },
        None => 0,
    }
}

/// Whether a result is the prompt that a decoded line of the first source holds, or none
/// where its text is blank.
pub open spec fn is_claude_prompt(
    result: Option<HistoryEntry>,
    value: JsonTree,
    first: Seq<char>,
) -> bool {
    let prompt = trimmed_member(value, "display"@);
    match result {
        None => prompt.len() == 0,
        Some(entry) => {
            &&& prompt.len() > 0
            &&& is_prompt_entry(entry, first, prompt)
            &&& text::opt_view(entry.session_id) == text_member(value, "sessionId"@)
            &&& text::opt_view(entry.project) == text_member(value, "project"@)
            &&& entry.timestamp_ms == claude_time(value)
        },
    }
}

/// The prompt of a decoded line of the first source.
pub fn claude_prompt(value: &JsonValue, names: &SourceNames) -> (r: Option<HistoryEntry>)
    ensures
        is_claude_prompt(r, value@, names.claude@),
{
    let prompt = member_trimmed(value, "display");
    if prompt.as_str().is_empty() {
        return None;
    }
    let timestamp_ms: i64 = match value.get("timestamp") {
        Some(time) => match time.as_signed() {
            Some(ms) => ms,
            None => 0,
        },
        None => 0,
    };
    Some(
        prompt_entry(
            names.claude.as_str(),
            member_text(value, "sessionId"),
            member_text(value, "project"),
            prompt.as_str(),
            timestamp_ms,
        ),
    )
}

/// The prompt of a line of the first source; the text of the error where it is no JSON.
pub fn parse_claude(line: &str, names: &SourceNames) -> (r: Result<Option<HistoryEntry>, String>)
    ensures
        match json::decoded(line@) {
            Ok(value) => r is Ok && is_claude_prompt(r->Ok_0, value, names.claude@),
            Err(detail) => r is Err && r->Err_0@ == detail,
        },
{
    match json::decode(line) {
        Ok(value) => Ok(claude_prompt(&value, names)),
        Err(detail) => Err(detail),
    }
}

/// How many binary digits a number has.
pub open spec fn width(n: nat) -> nat
    decreases n,
{
    if n == 0 {
        0
    } else {
        1 + width(n / 2)
    }
}

/// The integer significand of a double, from its bits.
pub open spec fn significand(bits: u64) -> nat {
    let exponent = (bits / 0x10_0000_0000_0000) % 0x800;
    let fraction = bits % 0x10_0000_0000_0000;
    if exponent == 0 {
        fraction as nat
    } else {
        (fraction + 0x10_0000_0000_0000) as nat
    }
}

/// The power of two that the significand of a double is multiplied by.
pub open spec fn power(bits: u64) -> int {
    let exponent = (bits / 0x10_0000_0000_0000) % 0x800;
    if exponent == 0 {
        -1074
    } else {
        exponent - 1075
    }
}

/// Whether the bits are those of no number.
pub open spec fn is_nan(bits: u64) -> bool {
    (bits / 0x10_0000_0000_0000) % 0x800 == 0x7ff && bits % 0x10_0000_0000_0000 != 0
}

/// The significant digits that a product of a thousand has too many for a double.
pub open spec fn excess(bits: u64) -> nat {
    let digits = width(1000 * significand(bits));
    if digits > 53 {
        (digits - 53) as nat
    } else {
        0
    }
}

/// The magnitude of a thousand times a double, rounded to a double and cut to an
/// integer.
pub open spec fn thousandfold(bits: u64) -> nat {
    let product = doubles::rounded(1000 * significand(bits), pow2(excess(bits)));
    let shift = power(bits) + excess(bits);
    if shift >= 0 {
        product * pow2(shift as nat)
    } else {
        product / pow2((-shift) as nat)
    }
}

/// The milliseconds of a number of seconds that is given by the bits of a double,
/// within the bounds of the type.
pub open spec fn milliseconds(bits: u64) -> i64 {
    let magnitude = thousandfold(bits);
    if is_nan(bits) {
        0
    } else if bits >= 0x8000_0000_0000_0000 {
        if magnitude >= 0x8000_0000_0000_0000 {
            i64::MIN
        } else {
            -(magnitude as int) as i64
        }
    } else if magnitude >= 0x7fff_ffff_ffff_ffff {
        i64::MAX
    } else {
        magnitude as i64
    }
}

fn width_of(n: u64) -> (r: u32)
    ensures
        r == width(n as nat),
        r <= 64,
        n < pow2(r as nat),
{
    let mut left: u64 = n;
    let mut digits: u32 = 0;
    proof {
        lemma_pow2_unfold(64);
        vstd::arithmetic::power2::lemma2_to64();
        assert(n < pow2(64)) by {
            assert(pow2(64) == 0x1_0000_0000_0000_0000);
        }
        assert((n as nat) < (left as nat + 1) * pow2(0)) by (nonlinear_arith)
            requires
                left == n,
                pow2(0) == 1,
        ;
        assert((left as nat) * pow2(0) < pow2(64)) by (nonlinear_arith)
            requires
                left == n,
                pow2(0) == 1,
                (n as nat) < pow2(64),
        ;
    }
    while left > 0
        invariant
            width(n as nat) == digits as nat + width(left as nat),
            digits <= 64,
            (n as nat) < (left as nat + 1) * pow2(digits as nat),
            (left as nat) * pow2(digits as nat) < pow2(64),
            pow2(64) == 0x1_0000_0000_0000_0000,
        decreases left,
    {
        proof {
            lemma_pow2_unfold((digits + 1) as nat);
            lemma_pow2_pos(digits as nat);
            if digits >= 64 {
                assert(digits == 64);
                assert((left as nat) * pow2(64) >= pow2(64)) by (nonlinear_arith)
                    requires
                        left >= 1,
                ;
            }
            let p = pow2(digits as nat);
            let half = (left / 2) as nat;
            assert((n as nat) < (half + 1) * (2 * p)) by (nonlinear_arith)
                requires
                    (n as nat) < (left as nat + 1) * p,
                    left as nat <= 2 * half + 1,
            ;
            assert(half * (2 * p) < pow2(64)) by (nonlinear_arith)
                requires
                    (left as nat) * p < pow2(64),
                    2 * half <= left as nat,
            ;
        }
        left = left / 2;
        digits = digits + 1;
    }
    assert((n as nat) < pow2(digits as nat)) by (nonlinear_arith)
        requires
            (n as nat) < (0nat + 1) * pow2(digits as nat),
    ;
    digits
}

fn magnitude_of(product: u64, digits: u32, power: i32) -> (r: u128)
    requires
        product <= 0x7fff_ffff_ffff_fffe,
        digits == width(product as nat),
        digits <= 64,
        -1074 <= power <= 972,
    ensures
        ({
            let excess: nat = if digits > 53 {
                (digits - 53) as nat
            } else {
                0
            };
            let number = doubles::rounded(product as nat, pow2(excess));
            let shift = power + excess;
            let magnitude = if shift >= 0 {
                number * pow2(shift as nat)
            } else {
                number / pow2((-shift) as nat)
            };
            r == magnitude || (r >= 0x8000_0000_0000_0000 && magnitude >= 0x8000_0000_0000_0000)
        }),
{
    let excess: u32 = if digits > 53 {
        digits - 53
    } else {
        0
    };
    let by: u128 = two_to(excess);
    proof {
        lemma_pow2_pos(excess as nat);
        vstd::arithmetic::power2::lemma2_to64();
    }
    let quotient: u128 = (product as u128) / by;
    let rest: u128 = (product as u128) % by;
    let number: u128 = if 2 * rest > by || (2 * rest == by && quotient % 2 == 1) {
        quotient + 1
    } else {
        quotient
    };
    assert(number == doubles::rounded(product as nat, pow2(excess as nat)));
    assert(quotient <= product) by (nonlinear_arith)
        requires
            quotient == (product as u128) / by,
            by >= 1,
    ;
    let shift: i32 = power + (excess as i32);
    if shift >= 0 {
        if number == 0 {
            assert(0 * pow2(shift as nat) == 0);
            return 0;
        }
        if shift >= 64 {
            proof {
                if shift > 64 {
                    lemma_pow2_strictly_increases(64, shift as nat);
                }
                assert((number as nat) * pow2(shift as nat) >= 0x8000_0000_0000_0000) by (
                    nonlinear_arith)
                    requires
                        number >= 1,
                        pow2(shift as nat) >= 0x1_0000_0000_0000_0000,
                ;
            }
            return 0x8000_0000_0000_0000;
        }
        let factor: u128 = two_to(shift as u32);
        assert((number as nat) * (factor as nat) <= 0x8000_0000_0000_0000nat
            * 0x1_0000_0000_0000_0000nat) by (nonlinear_arith)
            requires
                number <= 0x8000_0000_0000_0000,
                factor <= 0x1_0000_0000_0000_0000,
        ;
        return number * factor;
    }
    let down: u32 = (-shift) as u32;
    if down >= 64 {
        proof {
            if down > 64 {
                lemma_pow2_strictly_increases(64, down as nat);
            }
            assert((number as nat) / pow2(down as nat) == 0) by (nonlinear_arith)
                requires
                    number <= 0x8000_0000_0000_0000,
                    pow2(down as nat) >= 0x1_0000_0000_0000_0000,
            ;
        }
        return 0;
    }
    let divisor: u128 = two_to(down);
    proof {
        lemma_pow2_pos(down as nat);
    }
    number / divisor
}

/// The milliseconds of a number of seconds that is given by the bits of a double.
pub fn scaled_ms(bits: u64) -> (r: i64)
    ensures
        r == milliseconds(bits),
{
    let exponent: u64 = (bits / 0x10_0000_0000_0000) % 0x800;
    let fraction: u64 = bits % 0x10_0000_0000_0000;
    if exponent == 0x7ff && fraction != 0 {
        return 0;
    }
    let whole: u64 = if exponent == 0 {
        fraction
    } else {
        fraction + 0x10_0000_0000_0000
    };
    let power: i32 = if exponent == 0 {
        -1074
    } else {
        (exponent as i32) - 1075
    };
    let product: u64 = 1000 * whole;
    let digits: u32 = width_of(product);
    let magnitude: u128 = magnitude_of(product, digits, power);
    if bits >= 0x8000_0000_0000_0000 {
        if magnitude >= 0x8000_0000_0000_0000 {
            i64::MIN
        } else {
            -(magnitude as i64)
        }
    } else if magnitude >= 0x7fff_ffff_ffff_ffff {
        i64::MAX
    } else {
        magnitude as i64
    }
}

/// The time of a line of Codex's, which is in seconds.
pub open spec fn codex_time(value: JsonTree) -> i64 {
    match json::field(value, "ts"@) {
        Some(JsonTree::Number(number)) => milliseconds(number.bits),
        _ => 0,
    }
}

/// The session of a line of Codex's.
pub open spec fn codex_session(value: JsonTree) -> Option<Seq<char>> {
    if json::field(value, "session_id"@) is Some {
        text_member(value, "session_id"@)
    } else {
        text_member(value, "sessionId"@)
    }
}

/// Whether a result is the prompt that a decoded line of Codex's holds, or none
/// where its text is blank.
pub open spec fn is_codex_prompt(result: Option<HistoryEntry>, value: JsonTree) -> bool {
    let prompt = trimmed_member(value, "text"@);
    match result {
        None => prompt.len() == 0,
        Some(entry) => {
            &&& prompt.len() > 0
            &&& is_prompt_entry(entry, "codex"@, prompt)
            &&& text::opt_view(entry.session_id) == codex_session(value)
            &&& entry.project is None
            &&& entry.timestamp_ms == codex_time(value)
        },
    }
}

/// The prompt of a decoded line of Codex's.
pub fn codex_prompt(value: &JsonValue) -> (r: Option<HistoryEntry>)
    ensures
        is_codex_prompt(r, value@),
{
    let prompt = member_trimmed(value, "text");
    if prompt.as_str().is_empty() {
        return None;
    }
    let session_id = if value.get("session_id").is_some() {
        member_text(value, "session_id")
    } else {
        member_text(value, "sessionId")
    };
    let timestamp_ms: i64 = match value.get("ts") {
        Some(JsonValue::Number(number)) => scaled_ms(number.bits),
        _ => 0,
    };
    Some(prompt_entry("codex", session_id, None, prompt.as_str(), timestamp_ms))
}

/// The prompt of a line of Codex's; the text of the error where it is no JSON.
pub fn parse_codex(line: &str) -> (r: Result<Option<HistoryEntry>, String>)
    ensures
        match json::decoded(line@) {
            Ok(value) => r is Ok && is_codex_prompt(r->Ok_0, value),
            Err(detail) => r is Err && r->Err_0@ == detail,
        },
{
    match json::decode(line) {
        Ok(value) => Ok(codex_prompt(&value)),
        Err(detail) => Err(detail),
    }
}

/// The text of the first text item of a list, from a place on; empty where there
/// is none.
pub open spec fn first_text_item(items: Seq<JsonTree>, i: int) -> Seq<char>
    decreases items.len() - i,
{
    if i >= items.len() {
        Seq::empty()
    } else if text_member(items[i], "type"@) == Some("text"@) {
        match text_member(items[i], "text"@) {
            Some(text) => text,
            None => Seq::empty(),
        }
    } else {
        first_text_item(items, i + 1)
    }
}

/// The text that a content is: the content itself, or its first text item.
pub open spec fn content_text(content: Option<JsonTree>) -> Seq<char> {
    match content {
        Some(JsonTree::Text(text)) => text,
        Some(JsonTree::Array(items)) => first_text_item(items, 0),
        _ => Seq::empty(),
    }
}

/// A prompt without the tag that Cursor puts around it.
pub open spec fn untagged(text: Seq<char>) -> Seq<char> {
    if text::has_prefix(text, "<user_query>"@) && text::has_suffix(text, "</user_query>"@) {
        text::trimmed(
            text.subrange(
                "<user_query>"@.len() as int,
                text.len() - "</user_query>"@.len(),
            ),
        )
    } else {
        text
    }
}

/// The content of a line of Cursor's.
pub open spec fn cursor_content(value: JsonTree) -> Option<JsonTree> {
    match json::field(value, "message"@) {
        Some(message) => json::field(message, "content"@),
        None => None,
    }
}

/// The prompt of a decoded line of Cursor's, where the user wrote it.
pub open spec fn cursor_prompt(value: JsonTree) -> Option<Seq<char>> {
    let prompt = untagged(text::trimmed(content_text(cursor_content(value))));
    if text_member(value, "role"@) != Some("user"@) || prompt.len() == 0 {
        None
    } else {
        Some(prompt)
    }
}

/// The opening tag cannot run into the closing one.
proof fn lemma_tags_stand_apart(text: Seq<char>)
    requires
        text::has_prefix(text, "<user_query>"@),
        text::has_suffix(text, "</user_query>"@),
    ensures
        text.len() >= 25,
        "<user_query>"@.len() == 12,
        "</user_query>"@.len() == 13,
{
    reveal_strlit("<user_query>");
    reveal_strlit("</user_query>");
    let open = "<user_query>"@;
    let close = "</user_query>"@;
    assert(open.len() == 12 && close.len() == 13);
    assert(open[0] == '<' && open[1] == 'u' && open[2] == 's' && open[3] == 'e' && open[4] == 'r'
        && open[5] == '_' && open[6] == 'q' && open[7] == 'u' && open[8] == 'e' && open[9] == 'r'
        && open[10] == 'y' && open[11] == '>');
    assert(close[0] == '<' && close[1] == '/');
    let at = text.len() - 13;
    if text.len() < 25 {
        assert(text.skip(at)[0] == text[at]);
        assert(text.skip(at)[1] == text[at + 1]);
        assert(text.take(12)[at] == text[at]);
        if at < 11 {
            assert(text.take(12)[at + 1] == text[at + 1]);
        }
        assert(open[at] == '<');
        assert(at == 0);
        assert(open[1] == '/');
    }
}

fn text_of_items(items: &Vec<JsonValue>) -> (r: String)
    ensures
        r@ == content_text(Some(json::tree(JsonValue::Array(*items)))),
{
    let mut i: usize = 0;
    let ghost all = json::tree(JsonValue::Array(*items))->Array_0;
    proof {
        json::lemma_array_view(*items);
    }
    while i < items.len()
        invariant
            i <= items.len(),
            all == json::tree(JsonValue::Array(*items))->Array_0,
            json::tree(JsonValue::Array(*items)) is Array,
            all.len() == items@.len(),
            forall|j: int| 0 <= j < items@.len() ==> #[trigger] all[j] == items@[j]@,
            first_text_item(all, 0) == first_text_item(all, i as int),
        decreases items.len() - i,
    {
        let item = &items[i];
        assert(all[i as int] == item@);
        if let Some(kind) = member_text(item, "type") {
            if same_text(kind.as_str(), "text") {
                return match member_text(item, "text") {
                    Some(text) => text,
                    None => {
                        let none = String::new();
                        assert(none@ =~= Seq::<char>::empty());
                        none
                    },
                };
            }
        }
        i = i + 1;
    }
    let none = String::new();
    assert(none@ =~= Seq::<char>::empty());
    none
}

fn text_of_content(value: &JsonValue) -> (r: String)
    ensures
        r@ == content_text(cursor_content(value@)),
{
    let content = match value.get("message") {
        Some(message) => message.get("content"),
        None => None,
    };
    match content {
        Some(JsonValue::Text(text)) => text.clone(),
        Some(JsonValue::Array(items)) => text_of_items(items),
        _ => {
            let none = String::new();
            assert(none@ =~= Seq::<char>::empty());
            none
        },
    }
}

/// The prompt of a decoded line of Cursor's.
pub fn cursor_text(value: &JsonValue) -> (r: Option<String>)
    ensures
        text::opt_view(r) == cursor_prompt(value@),
{
    let by_user = match member_text(value, "role") {
        Some(role) => same_text(role.as_str(), "user"),
        None => false,
    };
    if !by_user {
        return None;
    }
    let whole = text_of_content(value);
    let trimmed = text::trim(whole.as_str());
    let prompt = if text::starts_with(trimmed, "<user_query>") && text::ends_with(
        trimmed,
        "</user_query>",
    ) {
        proof {
            lemma_tags_stand_apart(trimmed@);
        }
        let n: usize = trimmed.unicode_len();
        text::trim(trimmed.substring_char(12, n - 13))
    } else {
        trimmed
    };
    if prompt.is_empty() {
        return None;
    }
    Some(prompt.to_owned())
}

/// The prompt of a line of Cursor's; the text of the error where it is no JSON.
pub fn parse_cursor_text(line: &str) -> (r: Result<Option<String>, String>)
    ensures
        match json::decoded(line@) {
            Ok(value) => r is Ok && text::opt_view(r->Ok_0) == cursor_prompt(value),
            Err(detail) => r is Err && r->Err_0@ == detail,
        },
{
    match json::decode(line) {
        Ok(value) => Ok(cursor_text(&value)),
        Err(detail) => Err(detail),
    }
}

/// Whether a result is the prompt of a part of an OpenCode session, or none where
/// its text is blank or the part is no JSON.
pub open spec fn is_opencode_prompt(
    result: Option<HistoryEntry>,
    session_id: Seq<char>,
    project: Option<String>,
    data: Seq<char>,
    timestamp_ms: i64,
) -> bool {
    let prompt = match json::decoded(data) {
        Ok(value) => trimmed_member(value, "text"@),
        Err(_) => Seq::empty(),
    };
    match result {
        None => prompt.len() == 0,
        Some(entry) => {
            &&& prompt.len() > 0
            &&& is_prompt_entry(entry, "opencode"@, prompt)
            &&& text::opt_view(entry.session_id) == Some(session_id)
            &&& entry.project == project
            &&& entry.timestamp_ms == timestamp_ms
        },
    }
}

/// The prompt of a part of an OpenCode session.
pub fn opencode_prompt(
    session_id: &str,
    project: Option<String>,
    data: &str,
    timestamp_ms: i64,
) -> (r: Option<HistoryEntry>)
    ensures
        is_opencode_prompt(r, session_id@, project, data@, timestamp_ms),
{
    let prompt = match json::decode(data) {
        Ok(value) => member_trimmed(&value, "text"),
        Err(_) => {
            let none = String::new();
            assert(none@ =~= Seq::<char>::empty());
            none
        },
    };
    if prompt.as_str().is_empty() {
        return None;
    }
    Some(
        prompt_entry(
            "opencode",
            Some(session_id.to_owned()),
            project,
            prompt.as_str(),
            timestamp_ms,
        ),
    )
}

} // verus!
