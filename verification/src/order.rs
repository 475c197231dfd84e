//! The order of texts, and lists kept in that order without repetition.
use crate::text;
use crate::text::{chars_of, same_text};
use vstd::prelude::*;
use vstd::string::*;

verus! {

/// Whether `a` stands before `b`: character by character, a proper prefix first.
pub open spec fn text_less(a: Seq<char>, b: Seq<char>) -> bool
    decreases a.len(),
{
    if b.len() == 0 {
        false
    } else if a.len() == 0 {
        true
    } else if a[0] != b[0] {
        a[0] < b[0]
    } else {
        text_less(a.drop_first(), b.drop_first())
    }
}

/// No text stands before itself.
pub proof fn lemma_text_less_irreflexive(a: Seq<char>)
    ensures
        !text_less(a, a),
    decreases a.len(),
{
    if a.len() > 0 {
        lemma_text_less_irreflexive(a.drop_first());
    }
}

/// The order of texts is transitive.
pub proof fn lemma_text_less_transitive(a: Seq<char>, b: Seq<char>, c: Seq<char>)
    requires
        text_less(a, b),
        text_less(b, c),
    ensures
        text_less(a, c),
    decreases a.len(),
{
    if a.len() > 0 && b.len() > 0 && c.len() > 0 && a[0] == b[0] && b[0] == c[0] {
        lemma_text_less_transitive(a.drop_first(), b.drop_first(), c.drop_first());
    }
}

/// Of two different texts, one stands before the other.
pub proof fn lemma_text_less_total(a: Seq<char>, b: Seq<char>)
    ensures
        a == b || text_less(a, b) || text_less(b, a),
    decreases a.len(),
{
    if a.len() > 0 && b.len() > 0 && a[0] == b[0] {
        lemma_text_less_total(a.drop_first(), b.drop_first());
        if a.drop_first() == b.drop_first() {
            assert(a =~= seq![a[0]] + a.drop_first());
            assert(b =~= seq![b[0]] + b.drop_first());
        }
    } else if a.len() == 0 && b.len() == 0 {
        assert(a =~= b);
    }
}

/// Whether one text stands before another.
pub fn less(a: &str, b: &str) -> (r: bool)
    ensures
        r == text_less(a@, b@),
{
    let left = chars_of(a);
    let right = chars_of(b);
    let mut i: usize = 0;
    assert(a@.skip(0) =~= a@);
    assert(b@.skip(0) =~= b@);
    while i < left.len() && i < right.len()
        invariant
            left@ == a@,
            right@ == b@,
            i <= left.len(),
            i <= right.len(),
            text_less(a@, b@) == text_less(a@.skip(i as int), b@.skip(i as int)),
        decreases left.len() - i,
    {
        if left[i] != right[i] {
            return left[i] < right[i];
        }
        assert(a@.skip(i as int).drop_first() =~= a@.skip(i + 1));
        assert(b@.skip(i as int).drop_first() =~= b@.skip(i + 1));
        i = i + 1;
    }
    i < right.len()
}

/// Whether every text of a list stands before all that follow it.
pub open spec fn increasing(list: Seq<Seq<char>>) -> bool {
    forall|i: int, j: int| 0 <= i < j < list.len() ==> text_less(list[i], list[j])
}

/// Adds a text to an increasing list, where it is not there yet.
pub fn insert_text(list: &mut Vec<String>, text: &str)
    requires
        increasing(text::views(old(list)@)),
    ensures
        increasing(text::views(final(list)@)),
        forall|t: Seq<char>| #[trigger]
            text::views(final(list)@).contains(t) == (text::views(old(list)@).contains(t) || t == text@),
{
    let ghost before = text::views(list@);
    let mut i: usize = 0;
    while i < list.len() && less(list[i].as_str(), text)
        invariant
            i <= list.len(),
            before == text::views(list@),
            increasing(before),
            forall|j: int| 0 <= j < i ==> text_less(before[j], text@),
        decreases list.len() - i,
    {
        assert(before[i as int] == list@[i as int]@);
        i = i + 1;
    }
    if i < list.len() && same_text(list[i].as_str(), text) {
        assert(before[i as int] == text@);
        return ;
    }
    let ghost old_list = list@;
    list.insert(i, text.to_owned());
    proof {
        let after = text::views(list@);
        assert(after =~= before.insert(i as int, text@));
        assert forall|j: int| i <= j < before.len() implies text_less(text@, before[j]) by {
            lemma_text_less_total(before[i as int], text@);
            assert(before[i as int] == old_list[i as int]@);
            if j > i {
                lemma_text_less_transitive(text@, before[i as int], before[j]);
            }
        }
        assert forall|a: int, b: int| 0 <= a < b < after.len() implies text_less(
            after[a],
            after[b],
        ) by {
            if b < i {
                assert(after[a] == before[a] && after[b] == before[b]);
            } else if b == i {
                assert(after[a] == before[a]);
            } else if a < i {
                assert(after[a] == before[a] && after[b] == before[b - 1]);
            } else if a == i {
                assert(after[b] == before[b - 1]);
            } else {
                assert(after[a] == before[a - 1] && after[b] == before[b - 1]);
            }
        }
        assert forall|t: Seq<char>| #[trigger]
            after.contains(t) == (before.contains(t) || t == text@) by {
            if after.contains(t) {
                let k = choose|k: int| 0 <= k < after.len() && after[k] == t;
                if k < i {
                    assert(before[k] == t);
                } else if k > i {
                    assert(before[k - 1] == t);
                }
            }
            if before.contains(t) {
                let k = choose|k: int| 0 <= k < before.len() && before[k] == t;
                if k < i {
                    assert(after[k] == t);
                } else {
                    assert(after[k + 1] == t);
                }
            }
            if t == text@ {
                assert(after[i as int] == t);
            }
        }
    }
}

/// Two increasing lists with the same texts are the same list.
pub proof fn lemma_increasing_unique(a: Seq<Seq<char>>, b: Seq<Seq<char>>)
    requires
        increasing(a),
        increasing(b),
        forall|t: Seq<char>| #[trigger] a.contains(t) == b.contains(t),
    ensures
        a == b,
    decreases a.len(),
{
    if a.len() == 0 {
        if b.len() > 0 {
            assert(b.contains(b[0]));
            assert(a.contains(b[0]));
        }
        assert(a =~= b);
    } else {
        assert(a.contains(a[0]));
        assert(b.contains(a[0]));
        let k = choose|k: int| 0 <= k < b.len() && b[k] == a[0];
        assert(b.contains(b[0]));
        assert(a.contains(b[0]));
        let m = choose|m: int| 0 <= m < a.len() && a[m] == b[0];
        if k > 0 {
            assert(text_less(b[0], b[k]));
            if m > 0 {
                assert(text_less(a[0], a[m]));
                lemma_text_less_transitive(a[0], b[0], a[0]);
            }
            lemma_text_less_irreflexive(a[0]);
        }
        assert(a[0] == b[0]);
        let ta = a.drop_first();
        let tb = b.drop_first();
        assert forall|i: int, j: int| 0 <= i < j < ta.len() implies text_less(ta[i], ta[j]) by {
            assert(ta[i] == a[i + 1] && ta[j] == a[j + 1]);
        }
        assert forall|i: int, j: int| 0 <= i < j < tb.len() implies text_less(tb[i], tb[j]) by {
            assert(tb[i] == b[i + 1] && tb[j] == b[j + 1]);
        }
        assert forall|t: Seq<char>| #[trigger] ta.contains(t) == tb.contains(t) by {
            if ta.contains(t) {
                let i = choose|i: int| 0 <= i < ta.len() && ta[i] == t;
                assert(a[i + 1] == t);
                assert(a.contains(t));
                let j = choose|j: int| 0 <= j < b.len() && b[j] == t;
                if j == 0 {
                    assert(text_less(a[0], a[i + 1]));
                    lemma_text_less_irreflexive(t);
                }
                assert(tb[j - 1] == t);
            }
            if tb.contains(t) {
                let i = choose|i: int| 0 <= i < tb.len() && tb[i] == t;
                assert(b[i + 1] == t);
                assert(b.contains(t));
                assert(a.contains(t) == b.contains(t));
                let j = choose|j: int| 0 <= j < a.len() && a[j] == t;
                if j == 0 {
                    assert(text_less(b[0], b[i + 1]));
                    lemma_text_less_irreflexive(t);
                }
                assert(ta[j - 1] == t);
            }
        }
        lemma_increasing_unique(ta, tb);
        assert(a =~= seq![a[0]] + ta);
        assert(b =~= seq![b[0]] + tb);
    }
}

} // verus!
