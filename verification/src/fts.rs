//! Full-text queries of the history.
use crate::text;
use crate::text::{concat3, same_text};
use vstd::prelude::*;
use vstd::string::*;

verus! {

/// Whether a term is part of the query language: an operator, a prefix or a
/// phrase in quotes.
pub open spec fn is_syntax(term: Seq<char>) -> bool {
    ||| term == "AND"@
    ||| term == "OR"@
    ||| term == "NOT"@
    ||| text::has_suffix(term, "*"@)
    ||| text::has_prefix(term, "\""@) && text::has_suffix(term, "\""@)
}

/// Whether a term is to be left out: it starts with a minus, and is more than it.
pub open spec fn is_negative(term: Seq<char>) -> bool {
    text::has_prefix(term, "-"@) && term.len() > 1
}

/// A term as a phrase: in quotes, its own quotes doubled.
pub open spec fn phrase(term: Seq<char>) -> Seq<char> {
    "\""@ + text::replaced(term, '"', "\"\""@) + "\""@
}

/// The phrases of the terms that are asked for.
pub open spec fn positives(terms: Seq<Seq<char>>) -> Seq<Seq<char>>
    decreases terms.len(),
{
    if terms.len() == 0 {
        Seq::empty()
    } else if is_negative(terms.last()) {
        positives(terms.drop_last())
    } else {
        positives(terms.drop_last()).push(phrase(terms.last()))
    }
}

/// The phrases of the terms that are left out, without their minus.
pub open spec fn negatives(terms: Seq<Seq<char>>) -> Seq<Seq<char>>
    decreases terms.len(),
{
    if terms.len() == 0 {
        Seq::empty()
    } else if is_negative(terms.last()) {
        negatives(terms.drop_last()).push(phrase(terms.last().skip(1)))
    } else {
        negatives(terms.drop_last())
    }
}

/// The query of some terms. Terms in the query language, and a query that is
/// asked for raw, go through as they are. A query that only leaves terms out
/// matches nothing.
pub open spec fn fts_query(terms: Seq<Seq<char>>, raw: bool) -> Seq<char> {
    if raw || exists|i: int| 0 <= i < terms.len() && is_syntax(#[trigger] terms[i]) {
        text::joined(terms, " "@)
    } else if positives(terms).len() == 0 && negatives(terms).len() > 0 {
        "\"__ai_hist_no_positive_terms__\""@
    } else if negatives(terms).len() == 0 {
        text::joined(positives(terms), " "@)
    } else {
        text::joined(positives(terms), " "@) + " NOT "@ + text::joined(negatives(terms), " NOT "@)
    }
}

/// A term as a phrase.
pub fn quote_fts_term(term: &str) -> (r: String)
    ensures
        r@ == phrase(term@),
{
    let inner = text::replace_char(term, '"', "\"\"");
    concat3("\"", inner.as_str(), "\"")
}

fn in_language(term: &str) -> (r: bool)
    ensures
        r == is_syntax(term@),
{
    same_text(term, "AND") || same_text(term, "OR") || same_text(term, "NOT") || text::ends_with(
        term,
        "*",
    ) || (text::starts_with(term, "\"") && text::ends_with(term, "\""))
}

/// The query of some terms.
pub fn build_fts_query(terms: &Vec<String>, raw: bool) -> (r: String)
    ensures
        r@ == fts_query(text::views(terms@), raw),
{
    let ghost all = text::views(terms@);
    if raw {
        return text::join(terms, " ");
    }
    let mut wanted: Vec<String> = Vec::new();
    let mut unwanted: Vec<String> = Vec::new();
    let mut i: usize = 0;
    assert(text::views(wanted@) =~= positives(all.take(0)));
    assert(text::views(unwanted@) =~= negatives(all.take(0)));
    while i < terms.len()
        invariant
            i <= terms.len(),
            !raw,
            all == text::views(terms@),
            forall|j: int| 0 <= j < i ==> !is_syntax(#[trigger] all[j]),
            text::views(wanted@) == positives(all.take(i as int)),
            text::views(unwanted@) == negatives(all.take(i as int)),
        decreases terms.len() - i,
    {
        let term = terms[i].as_str();
        assert(all[i as int] == term@);
        if in_language(term) {
            return text::join(terms, " ");
        }
        let ghost one = text::views(wanted@);
        let ghost two = text::views(unwanted@);
        proof {
            let next = all.take(i + 1);
            assert(next.drop_last() =~= all.take(i as int));
            assert(next.last() == term@);
            reveal_strlit("-");
            assert("-"@.len() == 1);
        }
        let rest = text::strip_prefix(term, "-");
        match rest {
            Some(rest) => {
                if rest.is_empty() {
                    assert(term@.len() <= 1);
                    wanted.push(quote_fts_term(term));
                    assert(text::views(wanted@) =~= one.push(phrase(term@)));
                } else {
                    unwanted.push(quote_fts_term(rest));
                    assert(rest@ =~= term@.skip(1));
                    assert(text::views(unwanted@) =~= two.push(phrase(term@.skip(1))));
                }
            },
            None => {
                wanted.push(quote_fts_term(term));
                assert(text::views(wanted@) =~= one.push(phrase(term@)));
            },
        }
        i = i + 1;
    }
    assert(all.take(all.len() as int) =~= all);
    if wanted.len() == 0 && unwanted.len() > 0 {
        return "\"__ai_hist_no_positive_terms__\"".to_owned();
    }
    let query = text::join(&wanted, " ");
    if unwanted.len() == 0 {
        return query;
    }
    let left_out = text::join(&unwanted, " NOT ");
    concat3(query.as_str(), " NOT ", left_out.as_str())
}

/// What a phrase in quotes says: two quotes inside it stand for one.
pub open spec fn unquoted(inner: Seq<char>) -> Seq<char>
    decreases inner.len(),
{
    if inner.len() == 0 {
        Seq::empty()
    } else if inner[0] == '"' && inner.len() > 1 && inner[1] == '"' {
        seq!['"'] + unquoted(inner.skip(2))
    } else {
        seq![inner[0]] + unquoted(inner.drop_first())
    }
}

pub proof fn lemma_doubled_first(value: Seq<char>)
    requires
        value.len() > 0,
    ensures
        text::replaced(value, '"', "\"\""@) == (if value[0] == '"' {
            "\"\""@
        } else {
            seq![value[0]]
        }) + text::replaced(value.drop_first(), '"', "\"\""@),
    decreases value.len(),
{
    let to = "\"\""@;
    let head = if value[0] == '"' {
        to
    } else {
        seq![value[0]]
    };
    if value.len() == 1 {
        assert(value.drop_first() =~= Seq::<char>::empty());
        assert(value.drop_last() =~= Seq::<char>::empty());
        assert(text::replaced(value.drop_last(), '"', to) =~= Seq::<char>::empty());
        assert(text::replaced(value.drop_first(), '"', to) =~= Seq::<char>::empty());
        assert(text::replaced(value, '"', to) =~= head + Seq::<char>::empty());
    } else {
        lemma_doubled_first(value.drop_last());
        assert(value.drop_last().drop_first() =~= value.drop_first().drop_last());
        assert(value.drop_last()[0] == value[0]);
        assert(value.drop_first().last() == value.last());
        assert(text::replaced(value, '"', to) =~= head + text::replaced(
            value.drop_first(),
            '"',
            to,
        ));
    }
}

/// A phrase says the term that it was made of, whatever quotes it holds: no term
/// can end its own phrase.
pub proof fn law_phrase_says_its_term(term: Seq<char>)
    ensures
        unquoted(text::replaced(term, '"', "\"\""@)) == term,
    decreases term.len(),
{
    reveal_strlit("\"\"");
    let to = "\"\""@;
    assert(to =~= seq!['"', '"']);
    if term.len() == 0 {
        assert(text::replaced(term, '"', to) =~= Seq::<char>::empty());
        assert(unquoted(text::replaced(term, '"', to)) =~= term);
    } else {
        let rest = term.drop_first();
        law_phrase_says_its_term(rest);
        lemma_doubled_first(term);
        let tail = text::replaced(rest, '"', to);
        let all = text::replaced(term, '"', to);
        assert(term =~= seq![term[0]] + rest);
        if term[0] == '"' {
            assert(all =~= to + tail);
            assert(all.skip(2) =~= tail);
        } else {
            assert(all =~= seq![term[0]] + tail);
            assert(all.drop_first() =~= tail);
        }
    }
}

/// The lower case of a character of ASCII; any other is as it is.
pub open spec fn ascii_lower(c: char) -> char {
    if 'A' <= c <= 'Z' {
        ((c as int) + 32) as char
    } else {
        c
    }
}

/// A text with its ASCII letters in lower case.
pub open spec fn ascii_lowered(s: Seq<char>) -> Seq<char> {
    Seq::new(s.len(), |i: int| ascii_lower(s[i]))
}

/// Whether a database's message says that it rejected the query itself: it names
/// the parser, or reads a term as a column.
pub open spec fn is_query_fault(message: Seq<char>) -> bool {
    let lower = ascii_lowered(message);
    ||| text::has_part(lower, "fts5"@)
    ||| text::has_part(lower, "malformed match"@)
    ||| text::has_part(lower, "unterminated string"@)
    ||| text::has_prefix(lower, "no such column"@)
}

fn lower_ascii(s: &str) -> (r: Vec<char>)
    ensures
        r@ == ascii_lowered(s@),
{
    let chars = text::chars_of(s);
    let mut out: Vec<char> = Vec::new();
    let mut i: usize = 0;
    while i < chars.len()
        invariant
            i <= chars.len(),
            out@.len() == i,
            forall|j: int| 0 <= j < i ==> #[trigger] out@[j] == ascii_lower(chars@[j]),
        decreases chars.len() - i,
    {
        let c = chars[i];
        if 'A' <= c && c <= 'Z' {
            let lower: u8 = (c as u8) + 32;
            out.push(lower as char);
        } else {
            out.push(c);
        }
        i = i + 1;
    }
    assert(out@ =~= ascii_lowered(s@));
    out
}

fn stands_at(chars: &Vec<char>, at: usize, part: &Vec<char>) -> (r: bool)
    requires
        at <= chars@.len(),
    ensures
        r == text::has_prefix(chars@.skip(at as int), part@),
{
    if chars.len() - at < part.len() {
        return false;
    }
    let mut i: usize = 0;
    let ghost rest = chars@.skip(at as int);
    while i < part.len()
        invariant
            i <= part.len(),
            at <= chars.len(),
            part.len() <= chars.len() - at,
            rest == chars@.skip(at as int),
            forall|j: int| 0 <= j < i ==> rest[j] == #[trigger] part@[j],
        decreases part.len() - i,
    {
        if chars[at + i] != part[i] {
            assert(rest.take(part@.len() as int)[i as int] != part@[i as int]);
            return false;
        }
        i = i + 1;
    }
    assert(rest.take(part@.len() as int) =~= part@);
    true
}

fn holds(chars: &Vec<char>, part: &str) -> (r: bool)
    ensures
        r == text::has_part(chars@, part@),
{
    let wanted = text::chars_of(part);
    let mut i: usize = 0;
    while i < chars.len()
        invariant
            i <= chars.len(),
            wanted@ == part@,
            forall|j: int| 0 <= j < i ==> !#[trigger] text::has_prefix(chars@.skip(j), part@),
        decreases chars.len() - i,
    {
        if stands_at(chars, i, &wanted) {
            return true;
        }
        i = i + 1;
    }
    stands_at(chars, i, &wanted)
}

/// Whether a database's message says that it rejected the query itself.
pub fn is_fts5_syntax_error(message: &str) -> (r: bool)
    ensures
        r == is_query_fault(message@),
{
    let lower = lower_ascii(message);
    let column = text::chars_of("no such column");
    assert(lower@.skip(0) =~= lower@);
    holds(&lower, "fts5") || holds(&lower, "malformed match") || holds(&lower, "unterminated string")
        || stands_at(&lower, 0, &column)
}

/// The advice for a raw query that the database rejected.
pub const RAW_QUERY_ADVICE: &'static str = "Invalid raw FTS5 MATCH expression. Quote literal terms (for example, \"parity-check\") or remove --fts to use the default search.";

/// What a failed query is reported as: the advice, where the query was raw and the
/// database rejected it; otherwise the failure stands as it is.
pub fn raw_fts_query_error(raw: bool, message: Option<&str>) -> (r: Option<&'static str>)
    ensures
        r is Some == (raw && message is Some && is_query_fault(message->0@)),
        r is Some ==> r->0@ == RAW_QUERY_ADVICE@,
{
    if !raw {
        return None;
    }
    match message {
        Some(message) => if is_fts5_syntax_error(message) {
            Some(RAW_QUERY_ADVICE)
        } else {
            None
        },
        None => None,
    }
}

} // verus!
