//! JSON values as plain data.
//!
//! Text is decoded and written by `serde_json`; everything the library does with a
//! decoded value is done on [`JsonValue`], whose view is a [`JsonTree`].
use crate::doubles;
use crate::doubles::plain_zero;
use crate::order;
use crate::text::same_text;
use vstd::prelude::*;
use vstd::string::*;

verus! {

/// One JSON number, in every reading that a caller may ask of it.
#[derive(Debug)]
pub struct JsonNumber {
    /// The number, where it is a non-negative integer that fits.
    pub unsigned: Option<u64>,
    /// The number, where it is an integer that fits.
    pub signed: Option<i64>,
    /// The IEEE 754 binary64 bits of the number read as a double.
    pub bits: u64,
    /// The number as it is rendered.
    pub text: String,
}

/// One JSON value. The members of an object stand in the order of their names,
/// and no name occurs twice.
#[derive(Debug)]
pub enum JsonValue {
    Null,
    Bool(bool),
    Number(JsonNumber),
    Text(String),
    Array(Vec<JsonValue>),
    Object(Vec<(String, JsonValue)>),
}

/// The view of a number.
pub struct NumberView {
    pub unsigned: Option<u64>,
    pub signed: Option<i64>,
    pub bits: u64,
    pub text: Seq<char>,
}

/// The view of a JSON value.
pub enum JsonTree {
    Null,
    Bool(bool),
    Number(NumberView),
    Text(Seq<char>),
    Array(Seq<JsonTree>),
    Object(Seq<(Seq<char>, JsonTree)>),
}

impl View for JsonNumber {
    type V = NumberView;

    open spec fn view(&self) -> NumberView {
        NumberView {
            unsigned: self.unsigned,
            signed: self.signed,
            bits: self.bits,
            text: self.text@,
        }
    }
}

/// The tree of a value.
pub open spec fn tree(value: JsonValue) -> JsonTree
    decreases value,
{
    match value {
        JsonValue::Null => JsonTree::Null,
        JsonValue::Bool(b) => JsonTree::Bool(b),
        JsonValue::Number(n) => JsonTree::Number(n@),
        JsonValue::Text(s) => JsonTree::Text(s@),
        JsonValue::Array(items) => JsonTree::Array(
            Seq::new(
                items@.len(),
                |i: int|
                    if 0 <= i < items@.len() {
                        tree(items@[i])
                    } else {
                        JsonTree::Null
                    },
            ),
        ),
        JsonValue::Object(members) => JsonTree::Object(
            Seq::new(
                members@.len(),
                |i: int|
                    if 0 <= i < members@.len() {
                        (members@[i].0@, tree(members@[i].1))
                    } else {
                        (Seq::empty(), JsonTree::Null)
                    },
            ),
        ),
    }
}

impl View for JsonValue {
    type V = JsonTree;

    open spec fn view(&self) -> JsonTree {
        tree(*self)
    }
}

/// The member of an object with a name, where it has one.
pub open spec fn member(members: Seq<(Seq<char>, JsonTree)>, name: Seq<char>) -> Option<JsonTree>
    decreases members.len(),
{
    if members.len() == 0 {
        None
    } else if members[0].0 == name {
        Some(members[0].1)
    } else {
        member(members.drop_first(), name)
    }
}

/// The member of a value with a name; nothing where the value is no object.
pub open spec fn field(value: JsonTree, name: Seq<char>) -> Option<JsonTree> {
    match value {
        JsonTree::Object(members) => member(members, name),
        _ => None,
    }
}

/// The text that a value is, where it is one.
pub open spec fn text_of(value: Option<JsonTree>) -> Option<Seq<char>> {
    match value {
        Some(JsonTree::Text(s)) => Some(s),
        _ => None,
    }
}

/// The views of the members of an object.
pub open spec fn member_views(members: Seq<(String, JsonValue)>) -> Seq<(Seq<char>, JsonTree)> {
    members.map_values(|m: (String, JsonValue)| (m.0@, tree(m.1)))
}

pub proof fn lemma_object_view(members: Vec<(String, JsonValue)>)
    ensures
        tree(JsonValue::Object(members)) == JsonTree::Object(member_views(members@)),
{
    assert(tree(JsonValue::Object(members))->Object_0 =~= member_views(members@));
}

pub proof fn lemma_array_view(items: Vec<JsonValue>)
    ensures
        tree(JsonValue::Array(items)) == JsonTree::Array(
            items@.map_values(|v: JsonValue| tree(v)),
        ),
{
    assert(tree(JsonValue::Array(items))->Array_0 =~= items@.map_values(|v: JsonValue| tree(v)));
}

/// Finds a member by its name.
pub fn find_member<'a>(members: &'a Vec<(String, JsonValue)>, name: &str) -> (r: Option<
    &'a JsonValue,
>)
    ensures
        match r {
            Some(v) => member(member_views(members@), name@) == Some(v@),
            None => member(member_views(members@), name@) is None,
        },
{
    let ghost all = member_views(members@);
    let mut i: usize = 0;
    assert(all.skip(0) =~= all);
    while i < members.len()
        invariant
            i <= members.len(),
            all == member_views(members@),
            member(all, name@) == member(all.skip(i as int), name@),
        decreases members.len() - i,
    {
        assert(all.skip(i as int)[0] == (members@[i as int].0@, tree(members@[i as int].1)));
        if same_text(members[i].0.as_str(), name) {
            return Some(&members[i].1);
        }
        assert(all.skip(i as int).drop_first() =~= all.skip(i + 1));
        i = i + 1;
    }
    None
}

impl JsonValue {
    /// The member with a name, where the value is an object that has it.
    pub fn get(&self, name: &str) -> (r: Option<&JsonValue>)
        ensures
            match r {
                Some(v) => field(self@, name@) == Some(v@),
                None => field(self@, name@) is None,
            },
    {
        match self {
            JsonValue::Object(members) => {
                proof {
                    lemma_object_view(*members);
                }
                find_member(members, name)
            },
            _ => None,
        }
    }

    /// The text, where the value is one.
    pub fn as_text(&self) -> (r: Option<&str>)
        ensures
            match r {
                Some(s) => self@ == JsonTree::Text(s@),
                None => !(self@ is Text),
            },
    {
        match self {
            JsonValue::Text(s) => Some(s.as_str()),
            _ => None,
        }
    }

    /// The non-negative integer, where the value is one that fits.
    pub fn as_unsigned(&self) -> (r: Option<u64>)
        ensures
            r == unsigned_of(self@),
    {
        match self {
            JsonValue::Number(n) => n.unsigned,
            _ => None,
        }
    }

    /// The integer, where the value is one that fits.
    pub fn as_signed(&self) -> (r: Option<i64>)
        ensures
            r == signed_of(self@),
    {
        match self {
            JsonValue::Number(n) => n.signed,
            _ => None,
        }
    }
}

/// The non-negative integer that a value is, where it is one that fits.
pub open spec fn unsigned_of(value: JsonTree) -> Option<u64> {
    match value {
        JsonTree::Number(n) => n.unsigned,
        _ => None,
    }
}

/// The integer that a value is, where it is one that fits.
pub open spec fn signed_of(value: JsonTree) -> Option<i64> {
    match value {
        JsonTree::Number(n) => n.signed,
        _ => None,
    }
}

/// The text of the member with a name, where it is a text.
pub fn member_text<'a>(value: &'a JsonValue, name: &str) -> (r: Option<&'a str>)
    ensures
        match r {
            Some(s) => text_of(field(value@, name@)) == Some(s@),
            None => text_of(field(value@, name@)) is None,
        },
{
    match value.get(name) {
        Some(v) => v.as_text(),
        None => None,
    }
}

/// Whether two values are the same value. Two numbers are the same where they
/// are the same integer, or the same double; the two zeros of a double are one.
pub open spec fn json_equal(a: JsonTree, b: JsonTree) -> bool
    decreases a,
{
    match (a, b) {
        (JsonTree::Null, JsonTree::Null) => true,
        (JsonTree::Bool(x), JsonTree::Bool(y)) => x == y,
        (JsonTree::Number(x), JsonTree::Number(y)) => x.unsigned == y.unsigned && x.signed
            == y.signed && doubles::without_negative_zero(x.bits) == doubles::without_negative_zero(y.bits),
        (JsonTree::Text(x), JsonTree::Text(y)) => x == y,
        (JsonTree::Array(x), JsonTree::Array(y)) => x.len() == y.len() && (forall|i: int|
            0 <= i < x.len() ==> json_equal(#[trigger] x[i], y[i])),
        (JsonTree::Object(x), JsonTree::Object(y)) => x.len() == y.len() && (forall|i: int|
            0 <= i < x.len() ==> (#[trigger] x[i]).0 == y[i].0 && json_equal(x[i].1, y[i].1)),
        _ => false,
    }
}

fn same_number(a: &JsonNumber, b: &JsonNumber) -> (r: bool)
    ensures
        r == json_equal(JsonTree::Number(a@), JsonTree::Number(b@)),
{
    let same_unsigned = match (a.unsigned, b.unsigned) {
        (Some(x), Some(y)) => x == y,
        (None, None) => true,
        _ => false,
    };
    let same_signed = match (a.signed, b.signed) {
        (Some(x), Some(y)) => x == y,
        (None, None) => true,
        _ => false,
    };
    same_unsigned && same_signed && plain_zero(a.bits) == plain_zero(b.bits)
}

/// Whether two values are the same value.
pub fn same_value(a: &JsonValue, b: &JsonValue) -> (r: bool)
    ensures
        r == json_equal(a@, b@),
    decreases a,
{
    match (a, b) {
        (JsonValue::Null, JsonValue::Null) => true,
        (JsonValue::Bool(x), JsonValue::Bool(y)) => *x == *y,
        (JsonValue::Number(x), JsonValue::Number(y)) => same_number(x, y),
        (JsonValue::Text(x), JsonValue::Text(y)) => same_text(x.as_str(), y.as_str()),
        (JsonValue::Array(x), JsonValue::Array(y)) => {
            proof {
                lemma_array_view(*x);
                lemma_array_view(*y);
            }
            if x.len() != y.len() {
                return false;
            }
            let mut i: usize = 0;
            while i < x.len()
                invariant
                    a == JsonValue::Array(*x),
                    b == JsonValue::Array(*y),
                    a@ == JsonTree::Array(x@.map_values(|v: JsonValue| tree(v))),
                    b@ == JsonTree::Array(y@.map_values(|v: JsonValue| tree(v))),
                    x.len() == y.len(),
                    i <= x.len(),
                    forall|j: int| 0 <= j < i ==> json_equal(tree(x@[j]), tree(y@[j])),
                decreases x.len() - i,
            {
                assert(decreases_to!(a => a->Array_0@[i as int]));
                if !same_value(&x[i], &y[i]) {
                    assert(!json_equal(a@->Array_0[i as int], b@->Array_0[i as int]));
                    return false;
                }
                i = i + 1;
            }
            true
        },
        (JsonValue::Object(x), JsonValue::Object(y)) => {
            proof {
                lemma_object_view(*x);
                lemma_object_view(*y);
            }
            if x.len() != y.len() {
                return false;
            }
            let mut i: usize = 0;
            while i < x.len()
                invariant
                    a == JsonValue::Object(*x),
                    b == JsonValue::Object(*y),
                    a@ == JsonTree::Object(member_views(x@)),
                    b@ == JsonTree::Object(member_views(y@)),
                    x.len() == y.len(),
                    i <= x.len(),
                    forall|j: int|
                        0 <= j < i ==> x@[j].0@ == y@[j].0@ && json_equal(
                            tree(x@[j].1),
                            tree(y@[j].1),
                        ),
                decreases x.len() - i,
            {
                assert(decreases_to!(a => a->Object_0@[i as int].1));
                if !same_text(x[i].0.as_str(), y[i].0.as_str()) || !same_value(&x[i].1, &y[i].1) {
                    assert(a@->Object_0[i as int].0 == x@[i as int].0@);
                    assert(b@->Object_0[i as int].0 == y@[i as int].0@);
                    return false;
                }
                i = i + 1;
            }
            assert forall|j: int| 0 <= j < a@->Object_0.len() implies (#[trigger] a@->Object_0[j]).0
                == b@->Object_0[j].0 && json_equal(a@->Object_0[j].1, b@->Object_0[j].1) by {
                assert(x@[j].0@ == y@[j].0@);
            }
            true
        },
        _ => false,
    }
}

/// What `serde_json` makes of a text: its value, or what is wrong with it.
pub uninterp spec fn decoded(text: Seq<char>) -> Result<JsonTree, Seq<char>>;

/// The compact JSON text that `serde_json` writes for a value.
pub uninterp spec fn rendered(value: JsonTree) -> Seq<char>;

/// `serde_json::Value`: what `serde_json::from_str` makes of a text.
#[verifier::external_type_specification]
#[verifier::external_body]
pub struct ExValue(serde_json::Value);

/// The plain value of a `serde_json::Value`, variant by variant: `decode` uses
/// it on what `serde_json::from_str` returned.
#[verifier::external_body]
fn plain(value: serde_json::Value) -> JsonValue {
    match value {
        serde_json::Value::Null => JsonValue::Null,
        serde_json::Value::Bool(b) => JsonValue::Bool(b),
        serde_json::Value::Number(n) => JsonValue::Number(JsonNumber {
            unsigned: n.as_u64(),
            signed: n.as_i64(),
            bits: n.as_f64().map_or(0, |x| x.to_bits()),
            text: n.to_string(),
        }),
        serde_json::Value::String(s) => JsonValue::Text(s),
        serde_json::Value::Array(v) => JsonValue::Array(v.into_iter().map(plain).collect()),
        serde_json::Value::Object(m) => JsonValue::Object(m.into_iter().map(|(k, v)| (k, plain(v))).collect()),
    }
}

/// Decodes a text with `serde_json::from_str`. The value, or the text of the
/// error, depends on the text alone.
#[verifier::external_body]
pub(crate) fn decode(text: &str) -> (r: Result<JsonValue, String>)
    ensures
        match r {
            Ok(value) => decoded(text@) == Ok::<JsonTree, Seq<char>>(value@),
            Err(detail) => decoded(text@) == Err::<JsonTree, Seq<char>>(detail@),
        },
{
    match serde_json::from_str::<serde_json::Value>(text) {
        Ok(value) => Ok(plain(value)),
        Err(error) => Err(error.to_string()),
    }
}

/// The `serde_json::Value` of a number: of an integer as it is, of any other as
/// `str::parse` reads its text.
#[verifier::external_body]
fn outside_number(n: &JsonNumber) -> serde_json::Value {
    match (n.unsigned, n.signed) {
        (Some(u), _) => serde_json::Value::from(u),
        (None, Some(i)) => serde_json::Value::from(i),
        (None, None) => {
            let number = n.text.parse().ok().and_then(serde_json::Number::from_f64);
            number.map_or(serde_json::Value::Null, serde_json::Value::Number)
        }
    }
}

/// The `serde_json::Value` of a plain value, variant by variant: `render` writes it.
#[verifier::external_body]
fn outside(value: &JsonValue) -> serde_json::Value {
    match value {
        JsonValue::Null => serde_json::Value::Null,
        JsonValue::Bool(b) => serde_json::Value::Bool(*b),
        JsonValue::Number(n) => outside_number(n),
        JsonValue::Text(s) => serde_json::Value::String(s.clone()),
        JsonValue::Array(v) => serde_json::Value::Array(v.iter().map(outside).collect()),
        JsonValue::Object(m) => serde_json::Value::Object(m.iter().map(|(k, v)| (k.clone(), outside(v))).collect()),
    }
}

/// Writes a value as compact JSON text with `serde_json`'s `Value::to_string`. What is
/// written depends on the value alone.
#[verifier::external_body]
pub(crate) fn render(value: &JsonValue) -> (r: String)
    ensures
        r@ == rendered(value@),
{
    outside(value).to_string()
}

/// The members with one more, which takes the place of one of the same name, or
/// stands before the first whose name is greater.
pub open spec fn with_member(
    members: Seq<(Seq<char>, JsonTree)>,
    name: Seq<char>,
    value: JsonTree,
) -> Seq<(Seq<char>, JsonTree)>
    decreases members.len(),
{
    if members.len() == 0 {
        seq![(name, value)]
    } else if members[0].0 == name {
        seq![(name, value)] + members.drop_first()
    } else if order::text_less(name, members[0].0) {
        seq![(name, value)] + members
    } else {
        seq![members[0]] + with_member(members.drop_first(), name, value)
    }
}

/// Looking a member up gives what was put in last under its name.
pub proof fn law_with_member(
    members: Seq<(Seq<char>, JsonTree)>,
    name: Seq<char>,
    value: JsonTree,
    other: Seq<char>,
)
    ensures
        member(with_member(members, name, value), other) == if other == name {
            Some(value)
        } else {
            member(members, other)
        },
    decreases members.len(),
{
    let after = with_member(members, name, value);
    if members.len() == 0 {
        assert(after.drop_first() =~= members);
    } else if members[0].0 == name {
        assert(after.drop_first() =~= members.drop_first());
    } else if order::text_less(name, members[0].0) {
        assert(after.drop_first() =~= members);
    } else {
        let rest = members.drop_first();
        law_with_member(rest, name, value, other);
        assert(after.drop_first() =~= with_member(rest, name, value));
    }
}

/// Puts a member under a name.
pub fn put_member(members: &mut Vec<(String, JsonValue)>, name: &str, value: JsonValue)
    ensures
        member_views(final(members)@) == with_member(member_views(old(members)@), name@, value@),
{
    let ghost all = member_views(members@);
    let ghost put = value@;
    let mut i: usize = 0;
    assert(all.skip(0) =~= all);
    assert(all.take(0) + with_member(all, name@, put) =~= with_member(all, name@, put));
    while i < members.len() && !same_text(members[i].0.as_str(), name) && !order::less(
        name,
        members[i].0.as_str(),
    )
        invariant
            i <= members.len(),
            members@ == old(members)@,
            all == member_views(members@),
            put == value@,
            with_member(all, name@, put) == all.take(i as int) + with_member(
                all.skip(i as int),
                name@,
                put,
            ),
        decreases members.len() - i,
    {
        proof {
            let rest = all.skip(i as int);
            assert(rest[0] == (members@[i as int].0@, tree(members@[i as int].1)));
            assert(rest.drop_first() =~= all.skip(i + 1));
            assert(all.take(i as int) + (seq![rest[0]] + with_member(all.skip(i + 1), name@, put))
                =~= all.take(i + 1) + with_member(all.skip(i + 1), name@, put));
        }
        i = i + 1;
    }
    if i < members.len() && same_text(members[i].0.as_str(), name) {
        members.set(i, (name.to_owned(), value));
        proof {
            let rest = all.skip(i as int);
            assert(rest[0].0 == name@);
            assert(member_views(members@) =~= all.take(i as int) + (seq![(name@, put)]
                + rest.drop_first()));
        }
    } else {
        members.insert(i, (name.to_owned(), value));
        proof {
            let rest = all.skip(i as int);
            if i < all.len() {
                assert(rest[0].0 == all[i as int].0);
                assert(all[i as int].0 == old(members)@[i as int].0@);
                assert(with_member(rest, name@, put) == seq![(name@, put)] + rest);
            } else {
                assert(with_member(rest, name@, put) =~= seq![(name@, put)] + rest);
            }
            assert(member_views(members@) =~= all.take(i as int) + (seq![(name@, put)] + rest));
        }
    }
}

impl JsonNumber {
    /// The same number once more.
    pub fn copied(&self) -> (r: JsonNumber)
        ensures
            r@ == self@,
    {
        JsonNumber {
            unsigned: self.unsigned,
            signed: self.signed,
            bits: self.bits,
            text: self.text.clone(),
        }
    }

    /// The number zero.
    pub fn zero() -> (r: JsonNumber)
        ensures
            r@ == zero_number(),
    {
        JsonNumber { unsigned: Some(0), signed: Some(0), bits: 0, text: "0".to_owned() }
    }
}

/// The number zero.
pub open spec fn zero_number() -> NumberView {
    NumberView { unsigned: Some(0), signed: Some(0), bits: 0, text: "0"@ }
}

/// A list of members once more.
pub fn copied_members(members: &Vec<(String, JsonValue)>) -> (r: Vec<(String, JsonValue)>)
    ensures
        member_views(r@) == member_views(members@),
{
    let mut out: Vec<(String, JsonValue)> = Vec::new();
    let mut i: usize = 0;
    while i < members.len()
        invariant
            i <= members.len(),
            out.len() == i,
            forall|j: int|
                0 <= j < i ==> out@[j].0@ == members@[j].0@ && tree(out@[j].1) == tree(
                    members@[j].1,
                ),
        decreases members.len() - i,
    {
        out.push((members[i].0.clone(), copied_value(&members[i].1)));
        i = i + 1;
    }
    assert(member_views(out@) =~= member_views(members@));
    out
}

/// A value once more.
pub fn copied_value(value: &JsonValue) -> (r: JsonValue)
    ensures
        r@ == value@,
    decreases value,
{
    match value {
        JsonValue::Null => JsonValue::Null,
        JsonValue::Bool(b) => JsonValue::Bool(*b),
        JsonValue::Number(n) => JsonValue::Number(n.copied()),
        JsonValue::Text(s) => JsonValue::Text(s.clone()),
        JsonValue::Array(items) => {
            let mut out: Vec<JsonValue> = Vec::new();
            let mut i: usize = 0;
            while i < items.len()
                invariant
                    value == JsonValue::Array(*items),
                    i <= items.len(),
                    out.len() == i,
                    forall|j: int| 0 <= j < i ==> tree(out@[j]) == tree(items@[j]),
                decreases items.len() - i,
            {
                assert(decreases_to!(value => value->Array_0@[i as int]));
                out.push(copied_value(&items[i]));
                i = i + 1;
            }
            proof {
                lemma_array_view(*items);
                lemma_array_view(out);
                assert(out@.map_values(|v: JsonValue| tree(v)) =~= items@.map_values(
                    |v: JsonValue| tree(v),
                ));
            }
            JsonValue::Array(out)
        },
        JsonValue::Object(members) => {
            let mut out: Vec<(String, JsonValue)> = Vec::new();
            let mut i: usize = 0;
            while i < members.len()
                invariant
                    value == JsonValue::Object(*members),
                    i <= members.len(),
                    out.len() == i,
                    forall|j: int|
                        0 <= j < i ==> out@[j].0@ == members@[j].0@ && tree(out@[j].1) == tree(
                            members@[j].1,
                        ),
                decreases members.len() - i,
            {
                assert(decreases_to!(value => value->Object_0@[i as int].1));
                out.push((members[i].0.clone(), copied_value(&members[i].1)));
                i = i + 1;
            }
            proof {
                lemma_object_view(*members);
                lemma_object_view(out);
                assert(member_views(out@) =~= member_views(members@));
            }
            JsonValue::Object(out)
        },
    }
}

/// Whether two lists of members are the same object.
pub fn same_members(a: &Vec<(String, JsonValue)>, b: &Vec<(String, JsonValue)>) -> (r: bool)
    ensures
        r == json_equal(
            JsonTree::Object(member_views(a@)),
            JsonTree::Object(member_views(b@)),
        ),
{
    let ghost x = member_views(a@);
    let ghost y = member_views(b@);
    if a.len() != b.len() {
        return false;
    }
    let mut i: usize = 0;
    while i < a.len()
        invariant
            x == member_views(a@),
            y == member_views(b@),
            a.len() == b.len(),
            i <= a.len(),
            forall|j: int| 0 <= j < i ==> (#[trigger] x[j]).0 == y[j].0 && json_equal(x[j].1, y[j].1),
        decreases a.len() - i,
    {
        assert(x[i as int] == (a@[i as int].0@, tree(a@[i as int].1)));
        assert(y[i as int] == (b@[i as int].0@, tree(b@[i as int].1)));
        if !same_text(a[i].0.as_str(), b[i].0.as_str()) || !same_value(&a[i].1, &b[i].1) {
            return false;
        }
        i = i + 1;
    }
    true
}

} // verus!
