//! Text helpers with contracts over sequences of characters.
//!
//! A `String` or `&str` is modelled by its view, a `Seq<char>`. Two texts with
//! the same view are the same text for every function of this crate.
use vstd::prelude::*;
use vstd::string::*;

verus! {

/// The views of a list of strings.
pub open spec fn views(list: Seq<String>) -> Seq<Seq<char>> {
    list.map_values(|s: String| s@)
}

/// The view of an optional string.
pub open spec fn opt_view(value: Option<String>) -> Option<Seq<char>> {
    match value {
        Some(s) => Some(s@),
        None => None,
    }
}

/// Whether two texts hold the same characters.
pub fn same_text(a: &str, b: &str) -> (r: bool)
    ensures
        r == (a@ == b@),
{
    a.to_owned() == b.to_owned()
}

/// Whether two optional texts are both absent, or both present and the same.
pub fn same_opt_text(a: &Option<String>, b: &Option<String>) -> (r: bool)
    ensures
        r == (opt_view(*a) == opt_view(*b)),
{
    match (a, b) {
        (Some(a), Some(b)) => same_text(a.as_str(), b.as_str()),
        (None, None) => true,
        _ => false,
    }
}

/// Whether a list of strings holds a text.
pub fn contains_text(list: &Vec<String>, text: &str) -> (r: bool)
    ensures
        r == views(list@).contains(text@),
{
    let mut i: usize = 0;
    while i < list.len()
        invariant
            i <= list.len(),
            forall|j: int| 0 <= j < i ==> list@[j]@ != text@,
        decreases list.len() - i,
    {
        if same_text(list[i].as_str(), text) {
            assert(views(list@)[i as int] == text@);
            return true;
        }
        i = i + 1;
    }
    assert forall|j: int| 0 <= j < views(list@).len() implies views(list@)[j] != text@ by {
        assert(views(list@)[j] == list@[j]@);
    }
    false
}

/// A present, non-empty optional text.
pub open spec fn non_empty(value: Option<Seq<char>>) -> Option<Seq<char>> {
    match value {
        Some(s) => if s.len() == 0 { None } else { Some(s) },
        None => None,
    }
}

/// The characters of a text, as a vector.
pub fn chars_of(text: &str) -> (r: Vec<char>)
    ensures
        r@ == text@,
{
    let mut v: Vec<char> = Vec::new();
    for c in it: text.chars()
        invariant
            it.seq() == text@,
            v@ == text@.take(it.index() as int),
    {
        v.push(c);
    }
    v
}

/// The Unicode `White_Space` property.
pub open spec fn is_space(c: char) -> bool {
    ||| ('\u{9}' <= c && c <= '\u{d}')
    ||| c == ' '
    ||| c == '\u{85}'
    ||| c == '\u{a0}'
    ||| c == '\u{1680}'
    ||| ('\u{2000}' <= c && c <= '\u{200a}')
    ||| c == '\u{2028}'
    ||| c == '\u{2029}'
    ||| c == '\u{202f}'
    ||| c == '\u{205f}'
    ||| c == '\u{3000}'
}

/// Whether a character has the Unicode `White_Space` property.
pub fn char_is_space(c: char) -> (r: bool)
    ensures
        r == is_space(c),
{
    ('\u{9}' <= c && c <= '\u{d}') || c == ' ' || c == '\u{85}' || c == '\u{a0}' || c == '\u{1680}'
        || ('\u{2000}' <= c && c <= '\u{200a}') || c == '\u{2028}' || c == '\u{2029}' || c
        == '\u{202f}' || c == '\u{205f}' || c == '\u{3000}'
}

/// A text without its leading white space.
pub open spec fn trimmed_start(s: Seq<char>) -> Seq<char>
    decreases s.len(),
{
    if s.len() > 0 && is_space(s[0]) {
        trimmed_start(s.drop_first())
    } else {
        s
    }
}

/// A text without its trailing white space.
pub open spec fn trimmed_end(s: Seq<char>) -> Seq<char>
    decreases s.len(),
{
    if s.len() > 0 && is_space(s.last()) {
        trimmed_end(s.drop_last())
    } else {
        s
    }
}

/// A text without white space at either end.
pub open spec fn trimmed(s: Seq<char>) -> Seq<char> {
    trimmed_end(trimmed_start(s))
}

/// The slice of a text without white space at either end.
pub fn trim<'a>(text: &'a str) -> (r: &'a str)
    ensures
        r@ == trimmed(text@),
{
    let chars = chars_of(text);
    let mut start: usize = 0;
    assert(text@.skip(0) =~= text@);
    while start < chars.len() && char_is_space(chars[start])
        invariant
            start <= chars.len(),
            chars@ == text@,
            trimmed_start(text@) == trimmed_start(text@.skip(start as int)),
        decreases chars.len() - start,
    {
        assert(text@.skip(start as int).drop_first() =~= text@.skip(start + 1));
        start = start + 1;
    }
    let mut end: usize = chars.len();
    let ghost body = text@.skip(start as int);
    assert(trimmed_start(text@) == body);
    assert(body =~= text@.subrange(start as int, end as int));
    while end > start && char_is_space(chars[end - 1])
        invariant
            start <= end <= chars.len(),
            chars@ == text@,
            trimmed_end(body) == trimmed_end(text@.subrange(start as int, end as int)),
        decreases end,
    {
        assert(text@.subrange(start as int, end as int).drop_last() =~= text@.subrange(
            start as int,
            end - 1,
        ));
        end = end - 1;
    }
    text.substring_char(start, end)
}

/// Whether `s` begins with `prefix`.
pub open spec fn has_prefix(s: Seq<char>, prefix: Seq<char>) -> bool {
    s.len() >= prefix.len() && s.take(prefix.len() as int) == prefix
}

/// Whether `s` ends with `suffix`.
pub open spec fn has_suffix(s: Seq<char>, suffix: Seq<char>) -> bool {
    s.len() >= suffix.len() && s.skip(s.len() - suffix.len()) == suffix
}

/// Whether `s` holds `part` as a contiguous piece.
pub open spec fn has_part(s: Seq<char>, part: Seq<char>) -> bool {
    exists|i: int| 0 <= i <= s.len() && #[trigger] has_prefix(s.skip(i), part)
}

/// Whether a text begins with a prefix.
pub fn starts_with(text: &str, prefix: &str) -> (r: bool)
    ensures
        r == has_prefix(text@, prefix@),
{
    let n: usize = text.unicode_len();
    let m: usize = prefix.unicode_len();
    if n < m {
        return false;
    }
    same_text(text.substring_char(0, m), prefix)
}

/// Whether a text ends with a suffix.
pub fn ends_with(text: &str, suffix: &str) -> (r: bool)
    ensures
        r == has_suffix(text@, suffix@),
{
    let n: usize = text.unicode_len();
    let m: usize = suffix.unicode_len();
    if n < m {
        return false;
    }
    same_text(text.substring_char(n - m, n), suffix)
}

/// The text behind a prefix, where the text has that prefix.
pub fn strip_prefix<'a>(text: &'a str, prefix: &str) -> (r: Option<&'a str>)
    ensures
        match r {
            Some(rest) => has_prefix(text@, prefix@) && rest@ == text@.skip(prefix@.len() as int),
            None => !has_prefix(text@, prefix@),
        },
{
    if starts_with(text, prefix) {
        let n: usize = text.unicode_len();
        let m: usize = prefix.unicode_len();
        Some(text.substring_char(m, n))
    } else {
        None
    }
}

/// Texts with a separator between each two of them.
pub open spec fn joined(parts: Seq<Seq<char>>, separator: Seq<char>) -> Seq<char>
    decreases parts.len(),
{
    if parts.len() == 0 {
        Seq::empty()
    } else if parts.len() == 1 {
        parts[0]
    } else {
        joined(parts.drop_last(), separator) + separator + parts.last()
    }
}

/// The same texts once more.
pub fn copied_texts(list: &Vec<String>) -> (r: Vec<String>)
    ensures
        views(r@) == views(list@),
{
    let mut out: Vec<String> = Vec::new();
    let mut i: usize = 0;
    while i < list.len()
        invariant
            i <= list.len(),
            out@.len() == i,
            forall|j: int| 0 <= j < i ==> (#[trigger] out@[j])@ == list@[j]@,
        decreases list.len() - i,
    {
        out.push(list[i].clone());
        i = i + 1;
    }
    assert(views(out@) =~= views(list@));
    out
}

/// Joins texts with a separator between each two of them.
pub fn join(parts: &Vec<String>, separator: &str) -> (r: String)
    ensures
        r@ == joined(views(parts@), separator@),
{
    let mut out = String::new();
    let mut i: usize = 0;
    while i < parts.len()
        invariant
            i <= parts.len(),
            out@ == joined(views(parts@).take(i as int), separator@),
        decreases parts.len() - i,
    {
        let ghost before = views(parts@).take(i as int);
        let ghost after = views(parts@).take(i + 1);
        assert(after.drop_last() =~= before);
        assert(after.last() == parts@[i as int]@);
        if i > 0 {
            out.append(separator);
        } else {
            assert(before.len() == 0);
            assert(out@ =~= Seq::<char>::empty());
        }
        out.append(parts[i].as_str());
        if i == 0 {
            assert(out@ =~= parts@[0]@);
        }
        i = i + 1;
    }
    assert(views(parts@).take(parts.len() as int) =~= views(parts@));
    out
}

/// `s` with every occurrence of one character replaced by a text.
pub open spec fn replaced(s: Seq<char>, from: char, to: Seq<char>) -> Seq<char>
    decreases s.len(),
{
    if s.len() == 0 {
        Seq::empty()
    } else {
        replaced(s.drop_last(), from, to) + if s.last() == from {
            to
        } else {
            seq![s.last()]
        }
    }
}

/// Replaces every occurrence of one character by a text.
pub fn replace_char(text: &str, from: char, to: &str) -> (r: String)
    ensures
        r@ == replaced(text@, from, to@),
{
    let chars = chars_of(text);
    let mut out = String::new();
    let mut i: usize = 0;
    while i < chars.len()
        invariant
            i <= chars.len(),
            chars@ == text@,
            out@ == replaced(text@.take(i as int), from, to@),
        decreases chars.len() - i,
    {
        assert(text@.take(i + 1).drop_last() =~= text@.take(i as int));
        if chars[i] == from {
            out.append(to);
        } else {
            let one = text.substring_char(i, i + 1);
            assert(one@ =~= seq![text@[i as int]]);
            out.append(one);
        }
        i = i + 1;
    }
    assert(text@.take(chars.len() as int) =~= text@);
    out
}

/// A fresh text of two pieces.
pub fn concat2(a: &str, b: &str) -> (r: String)
    ensures
        r@ == a@ + b@,
{
    let mut out = a.to_owned();
    out.append(b);
    out
}

/// A fresh text of three pieces.
pub fn concat3(a: &str, b: &str, c: &str) -> (r: String)
    ensures
        r@ == a@ + b@ + c@,
{
    let mut out = a.to_owned();
    out.append(b);
    out.append(c);
    out
}

/// The decimal digit for a number below ten.
pub open spec fn digit(d: int) -> char {
    if d == 0 {
        '0'
    } else if d == 1 {
        '1'
    } else if d == 2 {
        '2'
    } else if d == 3 {
        '3'
    } else if d == 4 {
        '4'
    } else if d == 5 {
        '5'
    } else if d == 6 {
        '6'
    } else if d == 7 {
        '7'
    } else if d == 8 {
        '8'
    } else {
        '9'
    }
}

/// A natural number in decimal, without leading zeros.
pub open spec fn decimal_nat(n: nat) -> Seq<char>
    decreases n,
{
    if n < 10 {
        seq![digit(n as int)]
    } else {
        decimal_nat(n / 10).push(digit((n % 10) as int))
    }
}

/// An integer in decimal, with a minus sign where it is negative.
pub open spec fn decimal(n: int) -> Seq<char> {
    if n < 0 {
        seq!['-'] + decimal_nat((-n) as nat)
    } else {
        decimal_nat(n as nat)
    }
}

fn digit_text(d: u64) -> (r: &'static str)
    requires
        d < 10,
    ensures
        r@ == seq![digit(d as int)],
{
    proof {
        reveal_strlit("0");
        reveal_strlit("1");
        reveal_strlit("2");
        reveal_strlit("3");
        reveal_strlit("4");
        reveal_strlit("5");
        reveal_strlit("6");
        reveal_strlit("7");
        reveal_strlit("8");
        reveal_strlit("9");
    }
    let r = if d == 0 {
        "0"
    } else if d == 1 {
        "1"
    } else if d == 2 {
        "2"
    } else if d == 3 {
        "3"
    } else if d == 4 {
        "4"
    } else if d == 5 {
        "5"
    } else if d == 6 {
        "6"
    } else if d == 7 {
        "7"
    } else if d == 8 {
        "8"
    } else {
        "9"
    };
    assert(r@ =~= seq![digit(d as int)]);
    r
}

/// The decimal text of an unsigned number.
pub fn decimal_u64(n: u64) -> (r: String)
    ensures
        r@ == decimal(n as int),
    decreases n,
{
    if n < 10 {
        digit_text(n).to_owned()
    } else {
        let mut out = decimal_u64(n / 10);
        out.append(digit_text(n % 10));
        assert(out@ =~= decimal_nat((n / 10) as nat).push(digit((n % 10) as int)));
        out
    }
}

/// The decimal text of a signed number.
pub fn decimal_i64(n: i64) -> (r: String)
    ensures
        r@ == decimal(n as int),
{
    if n >= 0 {
        decimal_u64(n as u64)
    } else {
        let magnitude: u64 = if n == i64::MIN {
            0x8000_0000_0000_0000
        } else {
            (-n) as u64
        };
        proof {
            reveal_strlit("-");
        }
        assert("-"@ =~= seq!['-']);
        let digits = decimal_u64(magnitude);
        concat2("-", digits.as_str())
    }
}

/// The first run of characters that are not white space, from the front.
pub open spec fn first_word(s: Seq<char>) -> Seq<char>
    decreases s.len(),
{
    if s.len() == 0 || is_space(s[0]) {
        Seq::empty()
    } else {
        seq![s[0]] + first_word(s.drop_first())
    }
}

proof fn lemma_first_word_bounds(s: Seq<char>)
    ensures
        first_word(s).len() <= s.len(),
        first_word(s) == s.take(first_word(s).len() as int),
        first_word(s).len() < s.len() ==> is_space(s[first_word(s).len() as int]),
        forall|i: int| 0 <= i < first_word(s).len() ==> !is_space(s[i]),
    decreases s.len(),
{
    if s.len() > 0 && !is_space(s[0]) {
        lemma_first_word_bounds(s.drop_first());
        let rest = first_word(s.drop_first());
        assert(first_word(s) =~= s.take(first_word(s).len() as int));
        assert forall|i: int| 0 <= i < first_word(s).len() implies !is_space(s[i]) by {
            if i > 0 {
                assert(s[i] == s.drop_first()[i - 1]);
            }
        }
    } else {
        assert(first_word(s) =~= s.take(0));
    }
}

proof fn lemma_first_word_at(s: Seq<char>, n: int)
    requires
        0 <= n <= s.len(),
        forall|i: int| 0 <= i < n ==> !is_space(s[i]),
        n < s.len() ==> is_space(s[n]),
    ensures
        first_word(s) == s.take(n),
    decreases s.len(),
{
    if n > 0 {
        let rest = s.drop_first();
        assert forall|i: int| 0 <= i < n - 1 implies !is_space(rest[i]) by {
            assert(rest[i] == s[i + 1]);
        }
        lemma_first_word_at(rest, n - 1);
        assert(seq![s[0]] + rest.take(n - 1) =~= s.take(n));
    } else {
        assert(s.take(0) =~= Seq::<char>::empty());
    }
}

/// The words of a text: its maximal runs without white space, in order.
pub open spec fn words(s: Seq<char>) -> Seq<Seq<char>>
    decreases s.len(),
{
    if s.len() == 0 {
        Seq::empty()
    } else if is_space(s[0]) {
        words(s.drop_first())
    } else {
        let w = first_word(s);
        if 0 < w.len() <= s.len() {
            seq![w] + words(s.skip(w.len() as int))
        } else {
            Seq::empty()
        }
    }
}

/// Splits a text into its words.
pub fn split_words(text: &str) -> (r: Vec<String>)
    ensures
        views(r@) == words(text@),
{
    let chars = chars_of(text);
    let n: usize = chars.len();
    let mut out: Vec<String> = Vec::new();
    let mut i: usize = 0;
    assert(text@.skip(0) =~= text@);
    assert(views(out@) + words(text@) =~= words(text@));
    while i < n
        invariant
            n == chars.len(),
            chars@ == text@,
            i <= n,
            views(out@) + words(text@.skip(i as int)) == words(text@),
        decreases n - i,
    {
        let ghost rest = text@.skip(i as int);
        if char_is_space(chars[i]) {
            assert(rest.drop_first() =~= text@.skip(i + 1));
            i = i + 1;
        } else {
            let mut end: usize = i;
            while end < n && !char_is_space(chars[end])
                invariant
                    n == chars.len(),
                    chars@ == text@,
                    i <= end <= n,
                    forall|k: int| i <= k < end ==> !is_space(text@[k]),
                decreases n - end,
            {
                end = end + 1;
            }
            proof {
                lemma_first_word_at(rest, end - i);
                assert(rest.take(end - i) =~= text@.subrange(i as int, end as int));
                assert(rest.skip(end - i) =~= text@.skip(end as int));
            }
            let word = text.substring_char(i, end);
            let ghost before = views(out@);
            out.push(word.to_owned());
            proof {
                assert(views(out@) =~= before.push(word@));
                assert(before + (seq![word@] + words(text@.skip(end as int))) =~= views(out@)
                    + words(text@.skip(end as int)));
            }
            i = end;
        }
    }
    assert(text@.skip(n as int).len() == 0);
    assert(views(out@) + words(text@.skip(n as int)) =~= views(out@));
    out
}

/// Whether a text is white space throughout.
pub open spec fn is_blank(s: Seq<char>) -> bool {
    forall|i: int| 0 <= i < s.len() ==> is_space(#[trigger] s[i])
}

/// Whether a text is one word.
pub open spec fn is_word(s: Seq<char>) -> bool {
    s.len() > 0 && forall|i: int| 0 <= i < s.len() ==> !is_space(#[trigger] s[i])
}

/// Each of the words of a text is one.
pub proof fn lemma_words_are_words(s: Seq<char>)
    ensures
        forall|i: int| 0 <= i < words(s).len() ==> is_word(#[trigger] words(s)[i]),
    decreases s.len(),
{
    if s.len() > 0 && is_space(s[0]) {
        lemma_words_are_words(s.drop_first());
        assert(words(s) == words(s.drop_first()));
    } else if s.len() > 0 {
        let w = first_word(s);
        lemma_first_word_bounds(s);
        if 0 < w.len() <= s.len() {
            let rest = s.skip(w.len() as int);
            lemma_words_are_words(rest);
            assert forall|i: int| 0 <= i < words(s).len() implies is_word(#[trigger] words(s)[i]) by {
                if i == 0 {
                    assert(words(s)[0] == w);
                    assert forall|k: int| 0 <= k < w.len() implies !is_space(#[trigger] w[k]) by {
                        assert(w[k] == s[k]);
                    }
                } else {
                    assert(words(s)[i] == words(rest)[i - 1]);
                }
            }
        }
    }
}

proof fn lemma_words_behind_blank(blank: Seq<char>, s: Seq<char>)
    requires
        is_blank(blank),
    ensures
        words(blank + s) == words(s),
    decreases blank.len(),
{
    if blank.len() == 0 {
        assert(blank + s =~= s);
    } else {
        assert((blank + s).drop_first() =~= blank.drop_first() + s);
        assert(is_blank(blank.drop_first())) by {
            assert forall|i: int| 0 <= i < blank.len() - 1 implies is_space(
                #[trigger] blank.drop_first()[i],
            ) by {
                assert(blank.drop_first()[i] == blank[i + 1]);
            }
        }
        lemma_words_behind_blank(blank.drop_first(), s);
    }
}

/// White space parts the words before it from those behind it.
pub proof fn lemma_words_around_blank(a: Seq<char>, blank: Seq<char>, b: Seq<char>)
    requires
        blank.len() > 0,
        is_blank(blank),
    ensures
        words(a + blank + b) == words(a) + words(b),
    decreases a.len(),
{
    let all = a + blank + b;
    if a.len() == 0 {
        assert(all =~= blank + b);
        lemma_words_behind_blank(blank, b);
        assert(words(a) + words(b) =~= words(b));
    } else if is_space(a[0]) {
        assert(all.drop_first() =~= a.drop_first() + blank + b);
        lemma_words_around_blank(a.drop_first(), blank, b);
    } else {
        let w = first_word(a);
        let n = w.len() as int;
        lemma_first_word_bounds(a);
        assert forall|i: int| 0 <= i < n implies !is_space(all[i]) by {
            assert(all[i] == a[i]);
        }
        assert(all[n] == if n < a.len() {
            a[n]
        } else {
            blank[0]
        });
        lemma_first_word_at(all, n);
        assert(all.take(n) =~= w);
        assert(n > 0) by {
            assert(first_word(a) == seq![a[0]] + first_word(a.drop_first()));
        }
        assert(all.skip(n) =~= a.skip(n) + blank + b);
        lemma_words_around_blank(a.skip(n), blank, b);
        assert(seq![w] + (words(a.skip(n)) + words(b)) =~= (seq![w] + words(a.skip(n))) + words(b));
    }
}

proof fn lemma_words_of_word(s: Seq<char>)
    requires
        is_word(s),
    ensures
        words(s) == seq![s],
{
    lemma_first_word_at(s, s.len() as int);
    assert(s.take(s.len() as int) =~= s);
    assert(s.skip(s.len() as int).len() == 0);
    assert(seq![s] + words(s.skip(s.len() as int)) =~= seq![s]);
}

/// Words with a space between each two of them have those words.
pub proof fn lemma_words_of_joined(parts: Seq<Seq<char>>)
    requires
        forall|i: int| 0 <= i < parts.len() ==> is_word(#[trigger] parts[i]),
    ensures
        words(joined(parts, " "@)) == parts,
    decreases parts.len(),
{
    reveal_strlit(" ");
    if parts.len() == 1 {
        lemma_words_of_word(parts[0]);
        assert(seq![parts[0]] =~= parts);
    } else if parts.len() > 1 {
        let front = parts.drop_last();
        assert forall|i: int| 0 <= i < front.len() implies is_word(#[trigger] front[i]) by {
            assert(front[i] == parts[i]);
        }
        lemma_words_of_joined(front);
        lemma_words_around_blank(joined(front, " "@), " "@, parts.last());
        lemma_words_of_word(parts.last());
        assert(front + seq![parts.last()] =~= parts);
    }
}

/// Whether a text neither begins nor ends with white space, and has no white space but
/// single spaces.
pub open spec fn is_evenly_spaced(s: Seq<char>) -> bool {
    &&& s.len() > 0 ==> !is_space(s[0]) && !is_space(s.last())
    &&& forall|i: int|
        0 <= i < s.len() && is_space(#[trigger] s[i]) ==> s[i] == ' ' && !is_space(s[i - 1])
            && !is_space(s[i + 1])
}

/// Words with a space between each two of them are evenly spaced.
pub proof fn lemma_joined_words_are_evenly_spaced(parts: Seq<Seq<char>>)
    requires
        forall|i: int| 0 <= i < parts.len() ==> is_word(#[trigger] parts[i]),
    ensures
        is_evenly_spaced(joined(parts, " "@)),
        parts.len() > 0 ==> joined(parts, " "@).len() > 0,
    decreases parts.len(),
{
    reveal_strlit(" ");
    if parts.len() > 1 {
        let front = parts.drop_last();
        assert forall|i: int| 0 <= i < front.len() implies is_word(#[trigger] front[i]) by {
            assert(front[i] == parts[i]);
        }
        lemma_joined_words_are_evenly_spaced(front);
        let head = joined(front, " "@);
        let last = parts.last();
        let s = joined(parts, " "@);
        assert(is_word(parts[parts.len() - 1]));
        assert(s == head + " "@ + last);
        assert(s.last() == last.last());
        assert forall|i: int| 0 <= i < s.len() && is_space(#[trigger] s[i]) implies s[i] == ' '
            && !is_space(s[i - 1]) && !is_space(s[i + 1]) by {
            if i < head.len() {
                assert(s[i] == head[i]);
                assert(head[i - 1] == s[i - 1]);
                assert(i + 1 < head.len()) by {
                    if i + 1 == head.len() {
                        assert(head[i] == head.last());
                    }
                }
                assert(head[i + 1] == s[i + 1]);
            } else if i == head.len() {
                assert(s[i - 1] == head.last());
                assert(s[i + 1] == last[0]);
            } else {
                assert(s[i] == last[i - head.len() - 1]);
            }
        }
    }
}

/// Whether every character of a text is an ASCII one.
pub open spec fn is_ascii(s: Seq<char>) -> bool {
    forall|i: int| 0 <= i < s.len() ==> (#[trigger] s[i]) <= '\u{7f}'
}

/// The lower case of a character that is an ASCII letter; any other as it is.
pub open spec fn ascii_lower(c: char) -> char {
    if 'A' <= c <= 'Z' {
        ((c as u32) + 32) as char
    } else {
        c
    }
}

/// A text with its ASCII letters in lower case.
pub open spec fn ascii_lowered(s: Seq<char>) -> Seq<char> {
    s.map_values(|c: char| ascii_lower(c))
}

/// Some texts with their ASCII letters in lower case.
pub open spec fn all_lowered(parts: Seq<Seq<char>>) -> Seq<Seq<char>> {
    parts.map_values(|part: Seq<char>| ascii_lowered(part))
}

pub proof fn lemma_lowered_twice(s: Seq<char>)
    ensures
        ascii_lowered(ascii_lowered(s)) == ascii_lowered(s),
        is_ascii(s) ==> is_ascii(ascii_lowered(s)),
        is_word(s) ==> is_word(ascii_lowered(s)),
{
    assert(ascii_lowered(ascii_lowered(s)) =~= ascii_lowered(s));
    if is_word(s) {
        assert forall|i: int| 0 <= i < s.len() implies !is_space(#[trigger] ascii_lowered(s)[i]) by {
            assert(!is_space(s[i]));
        }
    }
    if is_ascii(s) {
        assert forall|i: int| 0 <= i < s.len() implies (#[trigger] ascii_lowered(s)[i])
            <= '\u{7f}' by {
            assert(s[i] <= '\u{7f}');
        }
    }
}

/// The words of a text in lower case are its words in lower case.
pub proof fn lemma_words_of_lowered(s: Seq<char>)
    ensures
        words(ascii_lowered(s)) == all_lowered(words(s)),
    decreases s.len(),
{
    let lower = ascii_lowered(s);
    if s.len() == 0 {
        assert(words(lower) =~= all_lowered(words(s)));
    } else if is_space(s[0]) {
        assert(lower.drop_first() =~= ascii_lowered(s.drop_first()));
        lemma_words_of_lowered(s.drop_first());
    } else {
        let n = first_word(s).len() as int;
        lemma_first_word_bounds(s);
        assert(n > 0) by {
            assert(first_word(s) == seq![s[0]] + first_word(s.drop_first()));
        }
        assert forall|i: int| 0 <= i < n implies !is_space(lower[i]) by {
            assert(!is_space(s[i]));
        }
        lemma_first_word_at(lower, n);
        assert(lower.take(n) =~= ascii_lowered(first_word(s)));
        assert(lower.skip(n) =~= ascii_lowered(s.skip(n)));
        lemma_words_of_lowered(s.skip(n));
        assert(seq![ascii_lowered(first_word(s))] + all_lowered(words(s.skip(n))) =~= all_lowered(
            seq![first_word(s)] + words(s.skip(n)),
        ));
    }
}

/// Joined texts in lower case are the texts in lower case, joined.
pub proof fn lemma_joined_lowered(parts: Seq<Seq<char>>)
    ensures
        ascii_lowered(joined(parts, " "@)) == joined(all_lowered(parts), " "@),
    decreases parts.len(),
{
    reveal_strlit(" ");
    let lower = all_lowered(parts);
    if parts.len() == 0 {
        assert(ascii_lowered(joined(parts, " "@)) =~= joined(lower, " "@));
    } else if parts.len() > 1 {
        lemma_joined_lowered(parts.drop_last());
        assert(lower.drop_last() =~= all_lowered(parts.drop_last()));
        assert(ascii_lowered(joined(parts, " "@)) =~= ascii_lowered(
            joined(parts.drop_last(), " "@),
        ) + " "@ + ascii_lowered(parts.last()));
    }
}

proof fn lemma_ascii_words(s: Seq<char>)
    requires
        is_ascii(s),
    ensures
        forall|i: int| 0 <= i < words(s).len() ==> is_ascii(#[trigger] words(s)[i]),
    decreases s.len(),
{
    if s.len() > 0 && is_space(s[0]) {
        let rest = s.drop_first();
        assert forall|i: int| 0 <= i < rest.len() implies (#[trigger] rest[i]) <= '\u{7f}' by {
            assert(rest[i] == s[i + 1]);
        }
        lemma_ascii_words(rest);
        assert(words(s) == words(rest));
    } else if s.len() > 0 {
        let w = first_word(s);
        lemma_first_word_bounds(s);
        if 0 < w.len() <= s.len() {
            let rest = s.skip(w.len() as int);
            assert forall|i: int| 0 <= i < rest.len() implies (#[trigger] rest[i]) <= '\u{7f}' by {
                assert(rest[i] == s[i + w.len()]);
            }
            lemma_ascii_words(rest);
            assert forall|i: int| 0 <= i < words(s).len() implies is_ascii(#[trigger] words(s)[i]) by {
                if i == 0 {
                    assert forall|k: int| 0 <= k < w.len() implies (#[trigger] w[k]) <= '\u{7f}' by {
                        assert(w[k] == s[k]);
                    }
                } else {
                    assert(words(s)[i] == words(rest)[i - 1]);
                }
            }
        }
    }
}

proof fn lemma_joined_ascii(parts: Seq<Seq<char>>)
    requires
        forall|i: int| 0 <= i < parts.len() ==> is_ascii(#[trigger] parts[i]),
    ensures
        is_ascii(joined(parts, " "@)),
    decreases parts.len(),
{
    reveal_strlit(" ");
    if parts.len() > 1 {
        let front = parts.drop_last();
        assert forall|i: int| 0 <= i < front.len() implies is_ascii(#[trigger] front[i]) by {
            assert(front[i] == parts[i]);
        }
        lemma_joined_ascii(front);
        let head = joined(front, " "@);
        let all = joined(parts, " "@);
        assert(is_ascii(parts[parts.len() - 1]));
        assert forall|i: int| 0 <= i < all.len() implies (#[trigger] all[i]) <= '\u{7f}' by {
            if i < head.len() {
                assert(all[i] == head[i]);
            } else if i > head.len() {
                assert(all[i] == parts.last()[i - head.len() - 1]);
            }
        }
    }
}

/// The words of an ASCII text, with a space between each two, are an ASCII text.
pub proof fn lemma_spaced_ascii(s: Seq<char>)
    requires
        is_ascii(s),
    ensures
        is_ascii(joined(words(s), " "@)),
{
    lemma_ascii_words(s);
    lemma_joined_ascii(words(s));
}

/// The pieces of a text between the occurrences of a character.
pub open spec fn split_on(s: Seq<char>, at: char) -> Seq<Seq<char>>
    decreases s.len(),
{
    if s.len() == 0 {
        seq![Seq::empty()]
    } else {
        let rest = split_on(s.drop_last(), at);
        if s.last() == at {
            rest.push(Seq::empty())
        } else {
            rest.drop_last().push(rest.last().push(s.last()))
        }
    }
}

proof fn lemma_split_on_non_empty(s: Seq<char>, at: char)
    ensures
        split_on(s, at).len() > 0,
    decreases s.len(),
{
    if s.len() > 0 {
        lemma_split_on_non_empty(s.drop_last(), at);
    }
}

/// Whether a character does not occur between two places.
pub open spec fn is_clear(s: Seq<char>, at: char, from: int, to: int) -> bool
    decreases to - from,
{
    from >= to || (s[from] != at && is_clear(s, at, from + 1, to))
}

pub proof fn lemma_clear(s: Seq<char>, at: char, from: int, to: int)
    requires
        is_clear(s, at, from, to),
    ensures
        forall|k: int| from <= k < to ==> s[k] != at,
    decreases to - from,
{
    if from < to {
        lemma_clear(s, at, from + 1, to);
    }
}

pub proof fn lemma_split_tail(s: Seq<char>, at: char, place: int, end: int)
    requires
        0 <= place < end <= s.len(),
        s[place] == at,
        forall|k: int| place < k < end ==> s[k] != at,
    ensures
        split_on(s.take(end), at) == split_on(s.take(place), at).push(
            s.subrange(place + 1, end),
        ),
    decreases end - place,
{
    assert(s.take(end).drop_last() =~= s.take(end - 1));
    let rest = split_on(s.take(place), at);
    if end - 1 > place {
        lemma_split_tail(s, at, place, end - 1);
        let piece = s.subrange(place + 1, end - 1);
        assert(rest.push(piece).drop_last() =~= rest);
        assert(piece.push(s[end - 1]) =~= s.subrange(place + 1, end));
    } else {
        assert(s.subrange(place + 1, end) =~= Seq::<char>::empty());
    }
}

/// A text without a separator is its only piece.
pub proof fn lemma_split_whole(s: Seq<char>, at: char)
    requires
        is_clear(s, at, 0, s.len() as int),
    ensures
        split_on(s, at) == seq![s],
{
    lemma_clear(s, at, 0, s.len() as int);
    lemma_split_start(s, at, s.len() as int);
    assert(s.take(s.len() as int) =~= s);
}

proof fn lemma_split_start(s: Seq<char>, at: char, end: int)
    requires
        0 <= end <= s.len(),
        forall|k: int| 0 <= k < end ==> s[k] != at,
    ensures
        split_on(s.take(end), at) == seq![s.take(end)],
    decreases end,
{
    if end > 0 {
        assert(s.take(end).drop_last() =~= s.take(end - 1));
        lemma_split_start(s, at, end - 1);
        let before = seq![s.take(end - 1)];
        assert(before.drop_last() =~= Seq::<Seq<char>>::empty());
        assert(before.last().push(s[end - 1]) =~= s.take(end));
        assert(split_on(s.take(end), at) =~= seq![s.take(end)]);
    } else {
        assert(s.take(0) =~= Seq::<char>::empty());
    }
}

/// Splits a text at every occurrence of a character.
pub fn split_char(text: &str, at: char) -> (r: Vec<String>)
    ensures
        views(r@) == split_on(text@, at),
{
    let chars = chars_of(text);
    let n: usize = chars.len();
    let mut out: Vec<String> = Vec::new();
    let mut start: usize = 0;
    let mut i: usize = 0;
    assert(text@.subrange(0, 0) =~= Seq::<char>::empty());
    assert(views(out@).push(text@.subrange(0, 0)) =~= split_on(text@.take(0), at));
    while i < n
        invariant
            n == chars.len(),
            chars@ == text@,
            start <= i <= n,
            views(out@).push(text@.subrange(start as int, i as int)) == split_on(
                text@.take(i as int),
                at,
            ),
        decreases n - i,
    {
        let ghost before = views(out@);
        let ghost piece = text@.subrange(start as int, i as int);
        proof {
            assert(text@.take(i + 1).drop_last() =~= text@.take(i as int));
            assert(before.push(piece).drop_last() =~= before);
            assert(before.push(piece).last() == piece);
        }
        if chars[i] == at {
            let word = text.substring_char(start, i);
            out.push(word.to_owned());
            start = i + 1;
            assert(views(out@) =~= before.push(piece));
            assert(text@.subrange(start as int, i + 1) =~= Seq::<char>::empty());
        } else {
            assert(text@.subrange(start as int, i + 1) =~= piece.push(text@[i as int]));
        }
        i = i + 1;
    }
    let ghost before = views(out@);
    let word = text.substring_char(start, n);
    out.push(word.to_owned());
    assert(views(out@) =~= before.push(word@));
    assert(text@.take(n as int) =~= text@);
    out
}

} // verus!
