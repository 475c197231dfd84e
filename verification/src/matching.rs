//! What a full-text search finds.
//!
//! A query is read as the full-text index reads it: phrases in quotes, in which two
//! quotes stand for one, and the words `AND`, `OR` and `NOT` between them. Phrases side
//! by side have to be held all; that binds closest, then `NOT`, then `AND`, then `OR`. A
//! document is modelled by the phrases that it holds.
use crate::fts;
use crate::fts::build_fts_query;
use crate::queries;
use crate::queries::{recent_query, search_query, TextQuery};
use crate::store::{normalize_tag_name, QueryFilter};
use crate::text;
use vstd::prelude::*;
use vstd::string::*;

verus! {

/// One piece of a query.
pub enum Token {
    /// What stands in quotes.
    Phrase(Seq<char>),
    /// What stands outside them.
    Word(Seq<char>),
}

/// What stands in front of the first space or quote.
pub open spec fn bare(query: Seq<char>) -> Seq<char>
    decreases query.len(),
{
    if query.len() == 0 || query[0] == ' ' || query[0] == '"' {
        Seq::empty()
    } else {
        seq![query[0]] + bare(query.drop_first())
    }
}

/// Some pieces with one in front.
pub open spec fn led_by(token: Token, rest: Option<Seq<Token>>) -> Option<Seq<Token>> {
    match rest {
        Some(tokens) => Some(seq![token] + tokens),
        None => None,
    }
}

/// The pieces of a query, where `inside` is what a phrase that was begun says so far;
/// nothing where a phrase does not end.
pub open spec fn pieces(query: Seq<char>, inside: Option<Seq<char>>) -> Option<Seq<Token>>
    decreases query.len(),
{
    match inside {
        Some(said) => if query.len() == 0 {
            None
        } else if query[0] == '"' && query.len() > 1 && query[1] == '"' {
            pieces(query.skip(2), Some(said.push('"')))
        } else if query[0] == '"' {
            led_by(Token::Phrase(said), pieces(query.drop_first(), None))
        } else {
            pieces(query.drop_first(), Some(said.push(query[0])))
        },
        None => if query.len() == 0 {
            Some(Seq::empty())
        } else if query[0] == ' ' {
            pieces(query.drop_first(), None)
        } else if query[0] == '"' {
            pieces(query.drop_first(), Some(Seq::empty()))
        } else {
            let word = bare(query);
            if 0 < word.len() <= query.len() {
                led_by(Token::Word(word), pieces(query.skip(word.len() as int), None))
            } else {
                None
            }
        },
    }
}

/// The pieces between the occurrences of an operator.
pub open spec fn between(tokens: Seq<Token>, operator: Seq<char>) -> Seq<Seq<Token>>
    decreases tokens.len(),
{
    if tokens.len() == 0 {
        seq![Seq::empty()]
    } else {
        let rest = between(tokens.drop_last(), operator);
        if tokens.last() == Token::Word(operator) {
            rest.push(Seq::empty())
        } else {
            rest.drop_last().push(rest.last().push(tokens.last()))
        }
    }
}

/// Whether some pieces are phrases side by side.
pub open spec fn is_run(tokens: Seq<Token>) -> bool {
    tokens.len() > 0 && forall|i: int| 0 <= i < tokens.len() ==> (#[trigger] tokens[i]) is Phrase
}

/// Whether a document holds every one of some phrases side by side.
pub open spec fn holds_run(tokens: Seq<Token>, doc: spec_fn(Seq<char>) -> bool) -> bool {
    forall|i: int| 0 <= i < tokens.len() ==> doc((#[trigger] tokens[i])->Phrase_0)
}

/// Whether a document holds what stands in front of the first `NOT`, and nothing of what
/// stands behind one.
pub open spec fn holds_not(tokens: Seq<Token>, doc: spec_fn(Seq<char>) -> bool) -> bool {
    let runs = between(tokens, "NOT"@);
    holds_run(runs[0], doc) && forall|i: int| 1 <= i < runs.len() ==> !holds_run(#[trigger] runs[i], doc)
}

/// Whether a document holds what stands on every side of `AND`.
pub open spec fn holds_and(tokens: Seq<Token>, doc: spec_fn(Seq<char>) -> bool) -> bool {
    let sides = between(tokens, "AND"@);
    forall|i: int| 0 <= i < sides.len() ==> holds_not(#[trigger] sides[i], doc)
}

/// Whether a document holds what stands on one of the sides of `OR`.
pub open spec fn holds_or(tokens: Seq<Token>, doc: spec_fn(Seq<char>) -> bool) -> bool {
    let sides = between(tokens, "OR"@);
    exists|i: int| 0 <= i < sides.len() && holds_and(#[trigger] sides[i], doc)
}

/// Whether some pieces are a query: phrases on every side of every operator.
pub open spec fn is_query(tokens: Seq<Token>) -> bool {
    forall|i: int, j: int, k: int|
        #![trigger between(between(between(tokens, "OR"@)[i], "AND"@)[j], "NOT"@)[k]]
        0 <= i < between(tokens, "OR"@).len() && 0 <= j < between(
            between(tokens, "OR"@)[i],
            "AND"@,
        ).len() && 0 <= k < between(
            between(between(tokens, "OR"@)[i], "AND"@)[j],
            "NOT"@,
        ).len() ==> is_run(between(between(between(tokens, "OR"@)[i], "AND"@)[j], "NOT"@)[k])
}

/// Whether a query matches a document: `None` where it is not one that is modelled.
pub open spec fn matches(query: Seq<char>, doc: spec_fn(Seq<char>) -> bool) -> Option<bool> {
    match pieces(query, None) {
        Some(tokens) => if is_query(tokens) {
            Some(holds_or(tokens, doc))
        } else {
            None
        },
        None => None,
    }
}

/// Whether a term is no part of the query language: no operator, no prefix search and no
/// phrase in quotes.
pub open spec fn is_plain(term: Seq<char>) -> bool {
    &&& term != "AND"@
    &&& term != "OR"@
    &&& term != "NOT"@
    &&& !(term.len() > 0 && term.last() == '*')
    &&& !(term.len() > 0 && term[0] == '"' && term.last() == '"')
}

/// Whether a term names what a document must not hold.
pub open spec fn is_left_out(term: Seq<char>) -> bool {
    term.len() > 1 && term[0] == '-'
}

/// Whether a document is what a term asks for: it holds the term, or it does not hold
/// what stands behind the minus.
pub open spec fn suits(term: Seq<char>, doc: spec_fn(Seq<char>) -> bool) -> bool {
    if is_left_out(term) {
        !doc(term.skip(1))
    } else {
        doc(term)
    }
}

/// The terms that are asked for.
pub open spec fn wanted(terms: Seq<Seq<char>>) -> Seq<Seq<char>>
    decreases terms.len(),
{
    if terms.len() == 0 {
        Seq::empty()
    } else if is_left_out(terms.last()) {
        wanted(terms.drop_last())
    } else {
        wanted(terms.drop_last()).push(terms.last())
    }
}

/// The terms that are left out, without their minus.
pub open spec fn unwanted(terms: Seq<Seq<char>>) -> Seq<Seq<char>>
    decreases terms.len(),
{
    if terms.len() == 0 {
        Seq::empty()
    } else if is_left_out(terms.last()) {
        unwanted(terms.drop_last()).push(terms.last().skip(1))
    } else {
        unwanted(terms.drop_last())
    }
}

/// Some terms as phrases.
pub open spec fn as_phrases(terms: Seq<Seq<char>>) -> Seq<Seq<char>> {
    terms.map_values(|term: Seq<char>| fts::phrase(term))
}

/// Some terms as pieces of a query.
pub open spec fn as_tokens(terms: Seq<Seq<char>>) -> Seq<Token> {
    terms.map_values(|term: Seq<char>| Token::Phrase(term))
}

proof fn lemma_bare_bounds(query: Seq<char>)
    ensures
        bare(query).len() <= query.len(),
        query.len() > 0 && query[0] != ' ' && query[0] != '"' ==> bare(query).len() > 0,
    decreases query.len(),
{
    if query.len() > 0 && query[0] != ' ' && query[0] != '"' {
        lemma_bare_bounds(query.drop_first());
    }
}

proof fn lemma_bare_ahead(query: Seq<char>, rest: Seq<char>)
    requires
        rest.len() == 0 || rest[0] == ' ',
    ensures
        bare(query + rest) == bare(query),
    decreases query.len(),
{
    let all = query + rest;
    if query.len() == 0 {
        assert(all =~= rest);
    } else if query[0] != ' ' && query[0] != '"' {
        lemma_bare_ahead(query.drop_first(), rest);
        assert(all.drop_first() =~= query.drop_first() + rest);
    }
}

/// A query that ends where a piece does goes on behind a space.
proof fn lemma_pieces_ahead(query: Seq<char>, inside: Option<Seq<char>>, rest: Seq<char>)
    requires
        pieces(query, inside) is Some,
        rest.len() == 0 || rest[0] == ' ',
        pieces(rest, None) is Some,
    ensures
        pieces(query + rest, inside) == Some(pieces(query, inside)->0 + pieces(rest, None)->0),
    decreases query.len(),
{
    let all = query + rest;
    let behind = pieces(rest, None)->0;
    match inside {
        Some(said) => {
            if query[0] == '"' && query.len() > 1 && query[1] == '"' {
                lemma_pieces_ahead(query.skip(2), Some(said.push('"')), rest);
                assert(all.skip(2) =~= query.skip(2) + rest);
            } else if query[0] == '"' {
                lemma_pieces_ahead(query.drop_first(), None, rest);
                assert(all.drop_first() =~= query.drop_first() + rest);
                let after = pieces(query.drop_first(), None)->0;
                assert(seq![Token::Phrase(said)] + (after + behind) =~= seq![Token::Phrase(said)]
                    + after + behind);
            } else {
                lemma_pieces_ahead(query.drop_first(), Some(said.push(query[0])), rest);
                assert(all.drop_first() =~= query.drop_first() + rest);
            }
        },
        None => {
            if query.len() == 0 {
                assert(all =~= rest);
                assert(Seq::<Token>::empty() + behind =~= behind);
            } else if query[0] == ' ' {
                lemma_pieces_ahead(query.drop_first(), None, rest);
                assert(all.drop_first() =~= query.drop_first() + rest);
            } else if query[0] == '"' {
                lemma_pieces_ahead(query.drop_first(), Some(Seq::empty()), rest);
                assert(all.drop_first() =~= query.drop_first() + rest);
            } else {
                let word = bare(query);
                let n = word.len() as int;
                lemma_bare_bounds(query);
                lemma_bare_ahead(query, rest);
                lemma_pieces_ahead(query.skip(n), None, rest);
                assert(all.skip(n) =~= query.skip(n) + rest);
                let after = pieces(query.skip(n), None)->0;
                assert(seq![Token::Word(word)] + (after + behind) =~= seq![Token::Word(word)] + after
                    + behind);
            }
        },
    }
}

/// The rest of a phrase says the rest of its term.
proof fn lemma_phrase_goes_on(term: Seq<char>, said: Seq<char>)
    ensures
        pieces(text::replaced(term, '"', "\"\""@) + "\""@, Some(said)) == Some(
            seq![Token::Phrase(said + term)],
        ),
    decreases term.len(),
{
    reveal_strlit("\"\"");
    reveal_strlit("\"");
    let two = "\"\""@;
    assert(two =~= seq!['"', '"']);
    let one = "\""@;
    assert(one =~= seq!['"']);
    let inner = text::replaced(term, '"', two);
    let all = inner + one;
    if term.len() == 0 {
        assert(inner =~= Seq::<char>::empty());
        assert(all =~= one);
        assert(all.drop_first() =~= Seq::<char>::empty());
        assert(said + term =~= said);
        assert(pieces(all.drop_first(), None) == Some(Seq::<Token>::empty()));
        assert(seq![Token::Phrase(said)] + Seq::<Token>::empty() =~= seq![Token::Phrase(said)]);
    } else {
        let rest = term.drop_first();
        let tail = text::replaced(rest, '"', two);
        fts::lemma_doubled_first(term);
        lemma_phrase_goes_on(rest, said.push(term[0]));
        assert(said.push(term[0]) + rest =~= said + term);
        if term[0] == '"' {
            assert(all =~= two + tail + one);
            assert(all.skip(2) =~= tail + one);
            assert(all[0] == '"' && all[1] == '"');
        } else {
            assert(all =~= seq![term[0]] + tail + one);
            assert(all.drop_first() =~= tail + one);
            assert(all[0] == term[0]);
        }
    }
}

/// A phrase is read as its term.
proof fn lemma_phrase_is_one_piece(term: Seq<char>)
    ensures
        pieces(fts::phrase(term), None) == Some(seq![Token::Phrase(term)]),
        fts::phrase(term).len() > 0 && fts::phrase(term)[0] == '"',
{
    reveal_strlit("\"");
    let one = "\""@;
    assert(one =~= seq!['"']);
    let inner = text::replaced(term, '"', "\"\""@);
    let all = fts::phrase(term);
    lemma_phrase_goes_on(term, Seq::empty());
    assert(all.drop_first() =~= inner + one);
    assert(Seq::<char>::empty() + term =~= term);
}

proof fn lemma_spaced_phrase(term: Seq<char>)
    ensures
        pieces(" "@ + fts::phrase(term), None) == Some(seq![Token::Phrase(term)]),
{
    reveal_strlit(" ");
    lemma_phrase_is_one_piece(term);
    let all = " "@ + fts::phrase(term);
    assert(all.drop_first() =~= fts::phrase(term));
}

proof fn lemma_refused_phrase(term: Seq<char>)
    ensures
        pieces(" NOT "@ + fts::phrase(term), None) == Some(
            seq![Token::Word("NOT"@), Token::Phrase(term)],
        ),
{
    reveal_strlit(" NOT ");
    reveal_strlit("NOT");
    lemma_phrase_is_one_piece(term);
    let phrase = fts::phrase(term);
    let all = " NOT "@ + phrase;
    let one = all.drop_first();
    assert(one[0] == 'N' && one[1] == 'O' && one[2] == 'T' && one[3] == ' ');
    let two = one.drop_first();
    let three = two.drop_first();
    let four = three.drop_first();
    assert(bare(four) =~= Seq::<char>::empty());
    assert(bare(three) =~= seq!['T']);
    assert(bare(two) =~= seq!['O', 'T']);
    assert(bare(one) =~= seq!['N', 'O', 'T']);
    assert(bare(one) =~= "NOT"@);
    let behind = one.skip(3);
    assert(behind.drop_first() =~= phrase);
    assert(pieces(behind, None) == Some(seq![Token::Phrase(term)]));
    assert(all[0] == ' ');
    assert(pieces(one, None) == led_by(Token::Word(bare(one)), pieces(behind, None)));
    assert(pieces(all, None) == pieces(one, None));
    assert(seq![Token::Word("NOT"@)] + seq![Token::Phrase(term)] =~= seq![
        Token::Word("NOT"@),
        Token::Phrase(term),
    ]);
}

/// Phrases with a space between each two are read as their terms.
proof fn lemma_run_of_phrases(terms: Seq<Seq<char>>)
    ensures
        pieces(text::joined(as_phrases(terms), " "@), None) == Some(as_tokens(terms)),
    decreases terms.len(),
{
    let phrases = as_phrases(terms);
    if terms.len() == 0 {
        assert(as_tokens(terms) =~= Seq::<Token>::empty());
    } else if terms.len() == 1 {
        lemma_phrase_is_one_piece(terms[0]);
        assert(as_tokens(terms) =~= seq![Token::Phrase(terms[0])]);
    } else {
        let front = terms.drop_last();
        lemma_run_of_phrases(front);
        lemma_spaced_phrase(terms.last());
        reveal_strlit(" ");
        let rest = " "@ + fts::phrase(terms.last());
        lemma_pieces_ahead(text::joined(as_phrases(front), " "@), None, rest);
        assert(phrases.drop_last() =~= as_phrases(front));
        assert(text::joined(phrases, " "@) =~= text::joined(as_phrases(front), " "@) + rest);
        assert(as_tokens(front) + seq![Token::Phrase(terms.last())] =~= as_tokens(terms));
    }
}

/// What follows the phrases that are asked for: each phrase that is left out, behind a
/// `NOT`.
pub open spec fn refusals(terms: Seq<Seq<char>>) -> Seq<Token>
    decreases terms.len(),
{
    if terms.len() == 0 {
        Seq::empty()
    } else {
        refusals(terms.drop_last()).push(Token::Word("NOT"@)).push(Token::Phrase(terms.last()))
    }
}

proof fn lemma_refused_phrases(terms: Seq<Seq<char>>)
    requires
        terms.len() > 0,
    ensures
        pieces(" NOT "@ + text::joined(as_phrases(terms), " NOT "@), None) == Some(refusals(terms)),
    decreases terms.len(),
{
    reveal_strlit(" NOT ");
    let phrases = as_phrases(terms);
    let front = terms.drop_last();
    lemma_refused_phrase(terms.last());
    if terms.len() == 1 {
        assert(front =~= Seq::<Seq<char>>::empty());
        assert(refusals(front) =~= Seq::<Token>::empty());
        assert(refusals(terms) =~= seq![Token::Word("NOT"@), Token::Phrase(terms[0])]);
    } else {
        lemma_refused_phrases(front);
        let rest = " NOT "@ + fts::phrase(terms.last());
        let head = " NOT "@ + text::joined(as_phrases(front), " NOT "@);
        lemma_pieces_ahead(head, None, rest);
        assert(phrases.drop_last() =~= as_phrases(front));
        assert(" NOT "@ + text::joined(phrases, " NOT "@) =~= head + rest);
        assert(refusals(front) + seq![Token::Word("NOT"@), Token::Phrase(terms.last())]
            =~= refusals(terms));
    }
}

proof fn lemma_between_none(tokens: Seq<Token>, operator: Seq<char>)
    requires
        forall|i: int| 0 <= i < tokens.len() ==> #[trigger] tokens[i] != Token::Word(operator),
    ensures
        between(tokens, operator) == seq![tokens],
    decreases tokens.len(),
{
    if tokens.len() == 0 {
        assert(tokens =~= Seq::<Token>::empty());
    } else {
        let front = tokens.drop_last();
        assert forall|i: int| 0 <= i < front.len() implies #[trigger] front[i] != Token::Word(
            operator,
        ) by {
            assert(front[i] == tokens[i]);
        }
        lemma_between_none(front, operator);
        assert(tokens[tokens.len() - 1] != Token::Word(operator));
        assert(front.push(tokens.last()) =~= tokens);
        assert(between(tokens, operator) =~= seq![tokens]);
    }
}

proof fn lemma_refusals_are_words(terms: Seq<Seq<char>>)
    ensures
        forall|i: int|
            0 <= i < refusals(terms).len() ==> (#[trigger] refusals(terms)[i]) is Phrase
                || refusals(terms)[i] == Token::Word("NOT"@),
    decreases terms.len(),
{
    if terms.len() > 0 {
        lemma_refusals_are_words(terms.drop_last());
    }
}

/// What stands between the refusals: the phrases that are asked for, and each that is
/// left out by itself.
proof fn lemma_between_refusals(first: Seq<Token>, terms: Seq<Seq<char>>)
    requires
        forall|i: int| 0 <= i < first.len() ==> (#[trigger] first[i]) is Phrase,
    ensures
        ({
            let runs = between(first + refusals(terms), "NOT"@);
            &&& runs.len() == terms.len() + 1
            &&& runs[0] == first
            &&& forall|i: int|
                0 <= i < terms.len() ==> #[trigger] runs[i + 1] == seq![Token::Phrase(terms[i])]
        }),
    decreases terms.len(),
{
    if terms.len() == 0 {
        assert(first + refusals(terms) =~= first);
        lemma_between_none(first, "NOT"@);
    } else {
        let front = terms.drop_last();
        lemma_between_refusals(first, front);
        let before = first + refusals(front);
        let one = before.push(Token::Word("NOT"@));
        let two = one.push(Token::Phrase(terms.last()));
        assert(first + refusals(terms) =~= two);
        assert(two.drop_last() =~= one);
        assert(one.drop_last() =~= before);
        let runs = between(before, "NOT"@);
        let open = runs.push(Seq::<Token>::empty());
        assert(between(one, "NOT"@) == open);
        assert(open.drop_last() =~= runs);
        assert(Seq::<Token>::empty().push(Token::Phrase(terms.last())) =~= seq![
            Token::Phrase(terms.last()),
        ]);
        let all = between(two, "NOT"@);
        assert(all == runs.push(seq![Token::Phrase(terms.last())]));
        assert forall|i: int| 0 <= i < terms.len() implies #[trigger] all[i + 1] == seq![
            Token::Phrase(terms[i]),
        ] by {
            if i < front.len() {
                assert(runs[i + 1] == seq![Token::Phrase(front[i])]);
            }
        }
    }
}

proof fn lemma_terms_are_sorted_out(terms: Seq<Seq<char>>)
    ensures
        fts::positives(terms) == as_phrases(wanted(terms)),
        fts::negatives(terms) == as_phrases(unwanted(terms)),
    decreases terms.len(),
{
    reveal_strlit("-");
    if terms.len() == 0 {
        assert(fts::positives(terms) =~= as_phrases(wanted(terms)));
        assert(fts::negatives(terms) =~= as_phrases(unwanted(terms)));
    } else {
        lemma_terms_are_sorted_out(terms.drop_last());
        let last = terms.last();
        assert("-"@ =~= seq!['-']);
        if last.len() >= 1 {
            assert(last.take(1) =~= seq![last[0]]);
            assert(seq![last[0]][0] == last[0]);
            assert(seq!['-'][0] == '-');
        }
        assert(fts::is_negative(last) == is_left_out(last));
        assert(fts::positives(terms) =~= as_phrases(wanted(terms)));
        assert(fts::negatives(terms) =~= as_phrases(unwanted(terms)));
    }
}

/// Every term suits a document exactly where it holds all that is asked for and nothing
/// that is left out.
proof fn lemma_suits_all(terms: Seq<Seq<char>>, doc: spec_fn(Seq<char>) -> bool)
    ensures
        (forall|i: int| 0 <= i < terms.len() ==> suits(#[trigger] terms[i], doc)) == ((forall|i: int|
            0 <= i < wanted(terms).len() ==> doc(#[trigger] wanted(terms)[i])) && (forall|i: int|
            0 <= i < unwanted(terms).len() ==> !doc(#[trigger] unwanted(terms)[i]))),
    decreases terms.len(),
{
    if terms.len() > 0 {
        let front = terms.drop_last();
        let last = terms.last();
        lemma_suits_all(front, doc);
        let all = forall|i: int| 0 <= i < terms.len() ==> suits(#[trigger] terms[i], doc);
        let before = forall|i: int| 0 <= i < front.len() ==> suits(#[trigger] front[i], doc);
        assert(all == (before && suits(last, doc))) by {
            if before && suits(last, doc) {
                assert forall|i: int| 0 <= i < terms.len() implies suits(#[trigger] terms[i], doc) by {
                    if i < front.len() {
                        assert(suits(front[i], doc));
                    }
                }
            }
            if all {
                assert forall|i: int| 0 <= i < front.len() implies suits(#[trigger] front[i], doc) by {
                    assert(suits(terms[i], doc));
                }
                assert(suits(terms[terms.len() - 1], doc));
            }
        }
        let asked = wanted(terms);
        let asked_before = wanted(front);
        let left = unwanted(terms);
        let left_before = unwanted(front);
        let holds = forall|i: int| 0 <= i < asked.len() ==> doc(#[trigger] asked[i]);
        let holds_before = forall|i: int|
            0 <= i < asked_before.len() ==> doc(#[trigger] asked_before[i]);
        let lacks = forall|i: int| 0 <= i < left.len() ==> !doc(#[trigger] left[i]);
        let lacks_before = forall|i: int|
            0 <= i < left_before.len() ==> !doc(#[trigger] left_before[i]);
        if is_left_out(last) {
            assert(lacks == (lacks_before && !doc(last.skip(1)))) by {
                if lacks {
                    assert forall|i: int| 0 <= i < left_before.len() implies !doc(
                        #[trigger] left_before[i],
                    ) by {
                        assert(left[i] == left_before[i]);
                    }
                    assert(left[left_before.len() as int] == last.skip(1));
                }
                if lacks_before && !doc(last.skip(1)) {
                    assert forall|i: int| 0 <= i < left.len() implies !doc(#[trigger] left[i]) by {
                        if i < left_before.len() {
                            assert(left_before[i] == left[i]);
                        }
                    }
                }
            }
        } else {
            assert(holds == (holds_before && doc(last))) by {
                if holds {
                    assert forall|i: int| 0 <= i < asked_before.len() implies doc(
                        #[trigger] asked_before[i],
                    ) by {
                        assert(asked[i] == asked_before[i]);
                    }
                    assert(asked[asked_before.len() as int] == last);
                }
                if holds_before && doc(last) {
                    assert forall|i: int| 0 <= i < asked.len() implies doc(#[trigger] asked[i]) by {
                        if i < asked_before.len() {
                            assert(asked_before[i] == asked[i]);
                        }
                    }
                }
            }
        }
    }
}

proof fn lemma_plain_terms(terms: Seq<Seq<char>>)
    requires
        forall|i: int| 0 <= i < terms.len() ==> is_plain(#[trigger] terms[i]),
    ensures
        forall|i: int| 0 <= i < terms.len() ==> !fts::is_syntax(#[trigger] terms[i]),
{
    reveal_strlit("*");
    reveal_strlit("\"");
    assert forall|i: int| 0 <= i < terms.len() implies !fts::is_syntax(#[trigger] terms[i]) by {
        let term = terms[i];
        assert(is_plain(term));
        if term.len() >= 1 {
            assert(term.take(1)[0] == term[0]);
            assert(term.skip(term.len() - 1)[0] == term.last());
        }
    }
}

/// What phrases side by side and refusals behind them match.
proof fn lemma_matched(
    asked: Seq<Seq<char>>,
    left: Seq<Seq<char>>,
    query: Seq<char>,
    doc: spec_fn(Seq<char>) -> bool,
)
    requires
        asked.len() > 0,
        pieces(query, None) == Some(as_tokens(asked) + refusals(left)),
    ensures
        matches(query, doc) == Some(
            (forall|i: int| 0 <= i < asked.len() ==> doc(#[trigger] asked[i])) && (forall|i: int|
                0 <= i < left.len() ==> !doc(#[trigger] left[i])),
        ),
{
    reveal_strlit("NOT");
    reveal_strlit("AND");
    reveal_strlit("OR");
    assert("NOT"@[0] != "AND"@[0] && "NOT"@[0] != "OR"@[0]);
    let first = as_tokens(asked);
    let tokens = first + refusals(left);
    lemma_refusals_are_words(left);
    assert forall|i: int| 0 <= i < tokens.len() implies #[trigger] tokens[i] != Token::Word("OR"@)
        && tokens[i] != Token::Word("AND"@) by {
        if i >= first.len() {
            assert(tokens[i] == refusals(left)[i - first.len()]);
        }
    }
    lemma_between_none(tokens, "OR"@);
    lemma_between_none(tokens, "AND"@);
    lemma_between_refusals(first, left);
    let runs = between(tokens, "NOT"@);
    let sides = between(tokens, "OR"@);
    assert(sides[0] == tokens);
    assert(between(sides[0], "AND"@)[0] == tokens);
    assert forall|k: int| 0 <= k < runs.len() implies is_run(#[trigger] runs[k]) by {
        if k > 0 {
            assert(runs[(k - 1) + 1] == seq![Token::Phrase(left[k - 1])]);
        }
    }
    assert(is_query(tokens));
    let holds = forall|i: int| 0 <= i < asked.len() ==> doc(#[trigger] asked[i]);
    let lacks = forall|i: int| 0 <= i < left.len() ==> !doc(#[trigger] left[i]);
    assert(holds_run(runs[0], doc) == holds) by {
        if holds {
            assert forall|i: int| 0 <= i < first.len() implies doc(
                (#[trigger] first[i])->Phrase_0,
            ) by {
                assert(doc(asked[i]));
            }
        }
        if holds_run(first, doc) {
            assert forall|i: int| 0 <= i < asked.len() implies doc(#[trigger] asked[i]) by {
                assert(doc(first[i]->Phrase_0));
            }
        }
    }
    assert forall|i: int| 0 <= i < left.len() implies holds_run(#[trigger] runs[i + 1], doc) == doc(
        left[i],
    ) by {
        let run = seq![Token::Phrase(left[i])];
        assert(runs[i + 1] == run);
        assert(run[0]->Phrase_0 == left[i]);
    }
    assert((forall|i: int| 1 <= i < runs.len() ==> !holds_run(#[trigger] runs[i], doc)) == lacks) by {
        if lacks {
            assert forall|i: int| 1 <= i < runs.len() implies !holds_run(#[trigger] runs[i], doc) by {
                assert(!doc(left[i - 1]));
                assert(holds_run(runs[(i - 1) + 1], doc) == doc(left[i - 1]));
            }
        }
        if forall|i: int| 1 <= i < runs.len() ==> !holds_run(#[trigger] runs[i], doc) {
            assert forall|i: int| 0 <= i < left.len() implies !doc(#[trigger] left[i]) by {
                assert(!holds_run(runs[i + 1], doc));
            }
        }
    }
    assert(holds_not(tokens, doc) == (holds && lacks));
    assert(holds_and(sides[0], doc) == holds_not(tokens, doc)) by {
        assert(between(sides[0], "AND"@).len() == 1);
    }
    assert(holds_or(tokens, doc) == holds_and(sides[0], doc));
}

/// A search for plain terms finds a document exactly where it holds every term that is
/// asked for and none that is left out with a minus.
pub proof fn law_search_finds_every_term(
    terms: Vec<String>,
    query: String,
    doc: spec_fn(Seq<char>) -> bool,
)
    requires
        call_ensures(build_fts_query, (&terms, false), query),
        forall|i: int| 0 <= i < terms@.len() ==> is_plain((#[trigger] terms@[i])@),
        exists|i: int| 0 <= i < terms@.len() && !is_left_out((#[trigger] terms@[i])@),
    ensures
        matches(query@, doc) == Some(
            forall|i: int| 0 <= i < terms@.len() ==> suits((#[trigger] terms@[i])@, doc),
        ),
{
    let all = text::views(terms@);
    assert forall|i: int| 0 <= i < all.len() implies is_plain(#[trigger] all[i]) by {
        assert(is_plain(terms@[i]@));
    }
    lemma_plain_terms(all);
    lemma_search(all, query@, doc);
    let one = forall|i: int| 0 <= i < terms@.len() ==> suits((#[trigger] terms@[i])@, doc);
    let two = forall|i: int| 0 <= i < all.len() ==> suits(#[trigger] all[i], doc);
    if two {
        assert forall|i: int| 0 <= i < terms@.len() implies suits((#[trigger] terms@[i])@, doc) by {
            assert(suits(all[i], doc));
        }
    }
    if one {
        assert forall|i: int| 0 <= i < all.len() implies suits(#[trigger] all[i], doc) by {
            assert(suits(terms@[i]@, doc));
        }
    }
    assert(one == two);
    let k = choose|k: int| 0 <= k < terms@.len() && !is_left_out((#[trigger] terms@[k])@);
    assert(!is_left_out(all[k]));
}

proof fn lemma_something_is_wanted(terms: Seq<Seq<char>>, k: int)
    requires
        0 <= k < terms.len(),
        !is_left_out(terms[k]),
    ensures
        wanted(terms).len() > 0,
    decreases terms.len(),
{
    if k < terms.len() - 1 {
        assert(terms.drop_last()[k] == terms[k]);
        lemma_something_is_wanted(terms.drop_last(), k);
    }
}

proof fn lemma_nothing_is_wanted(terms: Seq<Seq<char>>)
    requires
        forall|i: int| 0 <= i < terms.len() ==> is_left_out(#[trigger] terms[i]),
    ensures
        wanted(terms).len() == 0,
        unwanted(terms).len() == terms.len(),
    decreases terms.len(),
{
    if terms.len() > 0 {
        let front = terms.drop_last();
        assert forall|i: int| 0 <= i < front.len() implies is_left_out(#[trigger] front[i]) by {
            assert(is_left_out(terms[i]));
        }
        lemma_nothing_is_wanted(front);
        assert(is_left_out(terms[terms.len() - 1]));
    }
}

proof fn lemma_search(terms: Seq<Seq<char>>, query: Seq<char>, doc: spec_fn(Seq<char>) -> bool)
    requires
        query == fts::fts_query(terms, false),
        forall|i: int| 0 <= i < terms.len() ==> !fts::is_syntax(#[trigger] terms[i]),
    ensures
        wanted(terms).len() > 0 ==> matches(query, doc) == Some(
            forall|i: int| 0 <= i < terms.len() ==> suits(#[trigger] terms[i], doc),
        ),
        (exists|i: int| 0 <= i < terms.len() && !is_left_out(#[trigger] terms[i])) ==> wanted(
            terms,
        ).len() > 0,
{
    let asked = wanted(terms);
    let left = unwanted(terms);
    lemma_terms_are_sorted_out(terms);
    if exists|i: int| 0 <= i < terms.len() && !is_left_out(#[trigger] terms[i]) {
        let k = choose|k: int| 0 <= k < terms.len() && !is_left_out(#[trigger] terms[k]);
        lemma_something_is_wanted(terms, k);
    }
    if asked.len() > 0 {
        lemma_run_of_phrases(asked);
        lemma_suits_all(terms, doc);
        let head = text::joined(as_phrases(asked), " "@);
        if left.len() == 0 {
            assert(as_tokens(asked) + refusals(left) =~= as_tokens(asked));
        } else {
            reveal_strlit(" NOT ");
            lemma_refused_phrases(left);
            let rest = " NOT "@ + text::joined(as_phrases(left), " NOT "@);
            lemma_pieces_ahead(head, None, rest);
            assert(query =~= head + rest);
        }
        lemma_matched(asked, left, query, doc);
    }
}

/// A search that only leaves terms out finds nothing: at most a document with the phrase
/// that is set aside for it.
pub proof fn law_search_of_refusals_finds_nothing(
    terms: Vec<String>,
    query: String,
    doc: spec_fn(Seq<char>) -> bool,
)
    requires
        call_ensures(build_fts_query, (&terms, false), query),
        terms@.len() > 0,
        forall|i: int|
            0 <= i < terms@.len() ==> is_plain((#[trigger] terms@[i])@) && is_left_out(terms@[i]@),
        !doc("__ai_hist_no_positive_terms__"@),
    ensures
        matches(query@, doc) == Some(false),
{
    let all = text::views(terms@);
    assert forall|i: int| 0 <= i < all.len() implies is_plain(#[trigger] all[i]) && is_left_out(
        all[i],
    ) by {
        assert(is_plain(terms@[i]@));
    }
    lemma_plain_terms(all);
    lemma_nothing_is_wanted(all);
    lemma_terms_are_sorted_out(all);
    let name = "__ai_hist_no_positive_terms__"@;
    lemma_phrase_is_one_piece(name);
    assert(query@ == fts::phrase(name)) by {
        reveal_strlit("\"__ai_hist_no_positive_terms__\"");
        reveal_strlit("__ai_hist_no_positive_terms__");
        reveal_strlit("\"");
        lemma_nothing_to_double(name);
        assert("\"__ai_hist_no_positive_terms__\""@ =~= "\""@ + name + "\""@);
    }
    let asked = seq![name];
    let none: Seq<Seq<char>> = Seq::empty();
    assert(as_tokens(asked) + refusals(none) =~= seq![Token::Phrase(name)]);
    lemma_matched(asked, none, query@, doc);
    assert(!doc(asked[0]));
}

proof fn lemma_nothing_to_double(term: Seq<char>)
    requires
        forall|i: int| 0 <= i < term.len() ==> #[trigger] term[i] != '"',
    ensures
        text::replaced(term, '"', "\"\""@) == term,
    decreases term.len(),
{
    if term.len() > 0 {
        let front = term.drop_last();
        assert forall|i: int| 0 <= i < front.len() implies #[trigger] front[i] != '"' by {
            assert(front[i] == term[i]);
        }
        lemma_nothing_to_double(front);
        assert(term[term.len() - 1] != '"');
        assert(front.push(term.last()) =~= term);
        assert(text::replaced(term, '"', "\"\""@) =~= term);
    } else {
        assert(text::replaced(term, '"', "\"\""@) =~= term);
    }
}

/// A query that is asked for raw goes through as it was written, with a space between its
/// terms: one term is the query, and a further one is added behind a space. A search with
/// a term of the query language goes through in the same way.
pub proof fn law_raw_query_goes_through(
    terms: Vec<String>,
    query: String,
    more: Vec<String>,
    longer: String,
    plain: String,
)
    requires
        call_ensures(build_fts_query, (&terms, true), query),
        call_ensures(build_fts_query, (&terms, false), plain),
        terms@.len() > 0,
        more@.len() == terms@.len() + 1,
        forall|i: int| 0 <= i < terms@.len() ==> (#[trigger] more@[i])@ == terms@[i]@,
        call_ensures(build_fts_query, (&more, true), longer),
    ensures
        terms@.len() == 1 ==> query@ == terms@[0]@,
        longer@ == query@ + " "@ + more@[terms@.len() as int]@,
        (exists|i: int| 0 <= i < terms@.len() && !is_plain((#[trigger] terms@[i])@)) ==> plain@
            == query@,
{
    let all = text::views(terms@);
    let next = text::views(more@);
    assert(next.drop_last() =~= all);
    assert(next.last() == more@[terms@.len() as int]@);
    if exists|i: int| 0 <= i < terms@.len() && !is_plain((#[trigger] terms@[i])@) {
        let k = choose|k: int| 0 <= k < terms@.len() && !is_plain((#[trigger] terms@[k])@);
        reveal_strlit("*");
        reveal_strlit("\"");
        let term = all[k];
        assert(term == terms@[k]@);
        if term.len() >= 1 {
            assert(term.take(1) =~= seq![term[0]]);
            assert(term.skip(term.len() - 1) =~= seq![term.last()]);
            assert("*"@ =~= seq!['*']);
            assert("\""@ =~= seq!['"']);
        }
        assert(fts::is_syntax(all[k]));
    }
}

/// What a search puts to the index is the query of its terms, as the first value; without
/// a term it asks for the newest rows, like one that searches for nothing.
pub proof fn law_search_asks_the_index(
    terms: Vec<String>,
    raw: bool,
    filter: QueryFilter,
    found: TextQuery,
    newest: TextQuery,
    query: String,
)
    requires
        call_ensures(search_query, (&terms, raw, &filter), found),
        call_ensures(recent_query, (&filter,), newest),
        call_ensures(build_fts_query, (&terms, raw), query),
    ensures
        terms@.len() == 0 ==> found.sql@ == newest.sql@ && text::views(found.params@)
            == text::views(newest.params@),
        terms@.len() > 0 ==> text::views(found.params@) == seq![query@] + text::views(
            newest.params@,
        ),
{
    if terms@.len() > 0 {
        let values = queries::filter_values(filter);
        let last = seq![text::decimal(queries::at_least_one(filter.limit))];
        assert(seq![query@] + values + last =~= seq![query@] + (Seq::<Seq<char>>::empty() + values
            + last));
    }
}

/// Whether a text has another in it.
pub open spec fn has_text(all: Seq<char>, part: Seq<char>) -> bool {
    exists|from: int, to: int|
        0 <= from <= to <= all.len() && #[trigger] all.subrange(from, to) == part
}

proof fn lemma_has_text(all: Seq<char>, front: Seq<char>, part: Seq<char>, back: Seq<char>)
    requires
        all == front + part + back,
    ensures
        has_text(all, part),
{
    assert(all.subrange(front.len() as int, (front.len() + part.len()) as int) =~= part);
}

/// One where a value is given.
pub open spec fn one_if(given: bool) -> int {
    if given {
        1
    } else {
        0
    }
}

/// The values of a query of the history are those that its filter names, in their order; a
/// project is matched with any text around it, a tag by its normal form, and what comes last
/// is the limit, which is at least one.
pub proof fn law_query_has_the_values_of_its_filter(
    filter: QueryFilter,
    query: TextQuery,
    wanted: &str,
    tag: String,
)
    requires
        call_ensures(recent_query, (&filter,), query),
        filter.tag is Some ==> wanted@ == filter.tag->0@,
        call_ensures(normalize_tag_name, (wanted,), tag),
    ensures
        ({
            let params = query.params@;
            let s = one_if(filter.source is Some);
            let p = s + one_if(filter.project is Some);
            let t = p + one_if(filter.tag is Some);
            let b = t + one_if(filter.before_ms is Some);
            &&& params.len() == b + 1
            &&& filter.source is Some ==> params[0]@ == filter.source->0@
            &&& filter.project is Some ==> params[s]@ == "%"@ + filter.project->0@ + "%"@
            &&& filter.tag is Some ==> params[p]@ == tag@
            &&& filter.before_ms is Some ==> params[t]@ == text::decimal(
                filter.before_ms->0 as int,
            )
            &&& params[b]@ == text::decimal(
                if filter.limit < 1 {
                    1
                } else {
                    filter.limit as int
                },
            )
        }),
{
    let values = text::views(query.params@);
    let params = query.params@;
    assert(values.len() == params.len());
    assert forall|i: int| 0 <= i < params.len() implies (#[trigger] params[i])@ == values[i] by {}
    let s = queries::value_when(text::opt_view(filter.source));
    let p = queries::value_when(queries::like_value(filter.project));
    let t = queries::value_when(queries::tag_value(filter.tag));
    let b = queries::value_when(
        match filter.before_ms {
            Some(before_ms) => Some(text::decimal(before_ms as int)),
            None => None,
        },
    );
    let limit = text::decimal(queries::at_least_one(filter.limit));
    assert(values =~= s + p + t + b + seq![limit]);
    let n = (s.len() + p.len() + t.len() + b.len()) as int;
    assert(params[n]@ == values[n]);
    assert(values[n] == limit);
    if filter.source is Some {
        assert(params[0]@ == values[0]);
    }
    if filter.project is Some {
        assert(params[s.len() as int]@ == values[s.len() as int]);
    }
    if filter.tag is Some {
        let at = (s.len() + p.len()) as int;
        assert(params[at]@ == values[at]);
    }
    if filter.before_ms is Some {
        let at = (s.len() + p.len() + t.len()) as int;
        assert(params[at]@ == values[at]);
    }
}

proof fn lemma_conditions(
    sql: Seq<char>,
    start: Seq<char>,
    source: Seq<char>,
    project: Seq<char>,
    tagged: Seq<char>,
    before: Seq<char>,
    scope: Seq<char>,
    end: Seq<char>,
)
    requires
        sql == start + (source + project + tagged + before) + scope + end,
    ensures
        has_text(sql, source),
        has_text(sql, project),
        has_text(sql, before),
        has_text(sql, end),
{
    assert(sql =~= start + source + (project + tagged + before + scope + end));
    assert(sql =~= (start + source) + project + (tagged + before + scope + end));
    assert(sql =~= (start + source + project + tagged) + before + (scope + end));
    assert(sql =~= (start + source + project + tagged + before + scope) + end + Seq::<char>::empty());
    lemma_has_text(sql, start, source, project + tagged + before + scope + end);
    lemma_has_text(sql, start + source, project, tagged + before + scope + end);
    lemma_has_text(sql, start + source + project + tagged, before, scope + end);
    lemma_has_text(sql, start + source + project + tagged + before + scope, end, Seq::empty());
}

/// A query of the history has a condition for each value that its filter names, and asks
/// for the newest rows first.
pub proof fn law_query_has_the_conditions_of_its_filter(filter: QueryFilter, query: TextQuery)
    requires
        call_ensures(recent_query, (&filter,), query),
    ensures
        filter.source is Some ==> has_text(query.sql@, " AND "@ + "h"@ + ".source = ?"@),
        filter.project is Some ==> has_text(query.sql@, " AND "@ + "h"@ + ".project LIKE ?"@),
        filter.before_ms is Some ==> has_text(query.sql@, " AND "@ + "h"@ + ".timestamp_ms < ?"@),
        has_text(query.sql@, " ORDER BY h.timestamp_ms DESC LIMIT ?"@),
{
    lemma_conditions(
        query.sql@,
        "SELECT "@ + queries::ENTRY_COLUMNS@ + " FROM history h WHERE 1=1"@,
        queries::clause(filter.source is Some, " AND "@ + "h"@ + ".source = ?"@),
        queries::clause(filter.project is Some, " AND "@ + "h"@ + ".project LIKE ?"@),
        queries::clause(filter.tag is Some, queries::tag_condition("h"@)),
        queries::clause(filter.before_ms is Some, " AND "@ + "h"@ + ".timestamp_ms < ?"@),
        queries::scope_condition(filter.scope, "h"@),
        " ORDER BY h.timestamp_ms DESC LIMIT ?"@,
    );
}

} // verus!
