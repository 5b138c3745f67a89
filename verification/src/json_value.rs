//! The passage between the library's JSON values and those of `serde_json`.

use vstd::prelude::*;
use vstd::utf8::encode_utf8;
use serde_json::{Error, Number, Value};
use crate::json::{entries_view, json_view, lemma_members_view, members_view, Json, JsonView};
use crate::string_map::{ascending, keys_of, lemma_lookup_at, StringMap};

verus! {

/// The JSON values of `serde_json`.
#[verifier::external_type_specification]
#[verifier::external_body]
pub struct ExValue(serde_json::Value);

/// The JSON numbers of `serde_json`.
#[verifier::external_type_specification]
#[verifier::external_body]
pub struct ExNumber(serde_json::Number);

/// The errors of `serde_json`.
#[verifier::external_type_specification]
#[verifier::external_body]
pub struct ExError(serde_json::Error);

/// One step of a walk through a JSON value. An array is announced with the
/// number of its items, an object with the number of its members, each of
/// which begins with its name.
pub enum Token {
    Null,
    Bool(bool),
    Unsigned(u64),
    Negative(i64),
    Float(Seq<char>),
    Text(Seq<char>),
    Array(nat),
    Object(nat),
    Key(Seq<char>),
}

/// The walk through `j`, an object's members in ascending order of their names.
pub open spec fn tokens(j: Json) -> Seq<Token>
    decreases j,
{
    match j {
        Json::Null => seq![Token::Null],
        Json::Bool(b) => seq![Token::Bool(b)],
        Json::Unsigned(n) => seq![Token::Unsigned(n)],
        Json::Negative(n) => seq![
            if n < 0 {
                Token::Negative(n)
            } else {
                Token::Unsigned(n as u64)
            },
        ],
        Json::Float(s) => seq![Token::Float(s@)],
        Json::Text(s) => seq![Token::Text(s@)],
        Json::Array(items) => seq![Token::Array(items@.len())] + items_tokens(items@),
        Json::Object(members) => {
            proof {
                members.lemma_entries_decrease();
            }
            seq![Token::Object(members.entries().len())] + entries_tokens(members.entries())
        },
    }
}

/// The walk through one value after the other.
pub open spec fn items_tokens(items: Seq<Json>) -> Seq<Token>
    decreases items,
{
    if items.len() == 0 {
        Seq::empty()
    } else {
        items_tokens(items.drop_last()) + tokens(items.last())
    }
}

/// The walk through one member after the other.
pub open spec fn entries_tokens(entries: Seq<(String, Json)>) -> Seq<Token>
    decreases entries,
{
    if entries.len() == 0 {
        Seq::empty()
    } else {
        entries_tokens(entries.drop_last()) + seq![Token::Key(entries.last().0@)] + tokens(entries.last().1)
    }
}

/// The walk through an array of strings.
pub open spec fn text_walk(list: Seq<Seq<char>>) -> Seq<Token> {
    seq![Token::Array(list.len())] + Seq::new(list.len(), |i: int| Token::Text(list[i]))
}

/// What `serde_json` holds in a value, as the walk through it. An object's
/// members come in ascending order of their names.
pub uninterp spec fn value_tokens(value: serde_json::Value) -> Seq<Token>;

/// What `serde_json` holds in a number, as the one step of the walk through it.
/// A number that is no integer in range is told by its shortest text.
pub uninterp spec fn number_tokens(number: serde_json::Number) -> Seq<Token>;

/// The number that `serde_json` reads in a text, if it reads one there.
pub uninterp spec fn number_reading(text: Seq<char>) -> Option<Token>;

/// The text that `serde_json` prints for a value with indentation.
pub uninterp spec fn pretty_text(walk: Seq<Token>) -> Seq<char>;

/// The text that `serde_json` prints for a value without white space.
pub uninterp spec fn compact_text(walk: Seq<Token>) -> Seq<char>;

/// What `serde_json` reads in a byte string: the walk through the value that
/// stands there, or what is wrong with it.
pub uninterp spec fn value_reading(bytes: Seq<u8>) -> Result<Seq<Token>, Seq<char>>;

/// Whether no more than `levels` arrays and objects of a value lie within each
/// other.
pub open spec fn nested_within(j: Json, levels: nat) -> bool
    decreases levels,
{
    match j {
        Json::Array(items) => levels > 0 && forall|i: int|
            0 <= i < items@.len() ==> nested_within(#[trigger] items@[i], (levels - 1) as nat),
        Json::Object(members) => levels > 0 && forall|i: int|
            0 <= i < members.entries().len() ==> nested_within(
                (#[trigger] members.entries()[i]).1,
                (levels - 1) as nat,
            ),
        _ => true,
    }
}

/// How deep a value may be nested that is read.
pub const MAX_NESTING: usize = 127;

/// Whether what a value says is read back as it was, once it is written: every
/// fractional number has the text that it is printed as, and no more than `levels`
/// arrays and objects lie within each other.
pub open spec fn readable(v: JsonView, levels: nat) -> bool
    decreases levels,
{
    match v {
        JsonView::Float(s) => number_reading(s) == Some(Token::Float(s)),
        JsonView::Array(items) => levels > 0 && forall|i: int|
            0 <= i < items.len() ==> readable(#[trigger] items[i], (levels - 1) as nat),
        JsonView::Object(members) => levels > 0 && forall|k: Seq<char>|
            members.contains_key(k) ==> readable(#[trigger] members[k], (levels - 1) as nat),
        _ => true,
    }
}

/// Whether the members of every object in a value ascend by their names.
pub open spec fn ordered(j: Json) -> bool
    decreases j,
{
    match j {
        Json::Array(items) => forall|i: int| 0 <= i < items@.len() ==> ordered(#[trigger] items@[i]),
        Json::Object(members) => {
            proof {
                members.lemma_entries_decrease();
            }
            ascending(members.keys()) && forall|i: int|
                0 <= i < members.entries().len() ==> ordered((#[trigger] members.entries()[i]).1)
        },
        _ => true,
    }
}

/// The walk through one value of `serde_json` after the other.
pub open spec fn values_tokens(values: Seq<Value>) -> Seq<Token>
    decreases values.len(),
{
    if values.len() == 0 {
        Seq::empty()
    } else {
        values_tokens(values.drop_last()) + value_tokens(values.last())
    }
}

/// The walk through one named value of `serde_json` after the other.
pub open spec fn members_tokens(members: Seq<(String, Value)>) -> Seq<Token>
    decreases members.len(),
{
    if members.len() == 0 {
        Seq::empty()
    } else {
        members_tokens(members.drop_last()) + seq![Token::Key(members.last().0@)] + value_tokens(members.last().1)
    }
}

/// `Value::Null`: the null value.
#[verifier::external_body]
fn null_value() -> (r: Value)
    ensures
        value_tokens(r) == seq![Token::Null],
{
    Value::Null
}

/// `Value::Bool`: a boolean.
#[verifier::external_body]
fn bool_value(b: bool) -> (r: Value)
    ensures
        value_tokens(r) == seq![Token::Bool(b)],
{
    Value::Bool(b)
}

/// `Value::from` on a `u64`: a non-negative integer is held as it is.
#[verifier::external_body]
fn unsigned_value(n: u64) -> (r: Value)
    ensures
        value_tokens(r) == seq![Token::Unsigned(n)],
{
    Value::from(n)
}

/// `Value::from` on an `i64`: a negative integer is held as it is, any other as
/// the unsigned integer that it is.
#[verifier::external_body]
fn signed_value(n: i64) -> (r: Value)
    ensures
        n < 0 ==> value_tokens(r) == seq![Token::Negative(n)],
        n >= 0 ==> value_tokens(r) == seq![Token::Unsigned(n as u64)],
{
    Value::from(n)
}

/// `Value::String`: a string.
#[verifier::external_body]
fn text_value(s: String) -> (r: Value)
    ensures
        value_tokens(r) == seq![Token::Text(s@)],
{
    Value::String(s)
}

/// `Value::Number`: a number.
#[verifier::external_body]
fn number_value(number: Number) -> (r: Value)
    ensures
        value_tokens(r) == number_tokens(number),
{
    Value::Number(number)
}

/// `Number::from_str`: reads a number, or fails where the text is none. What it
/// reads is a function of the text.
#[verifier::external_body]
fn read_number(text: &str) -> (r: Result<Number, Error>)
    ensures
        r is Ok <==> number_reading(text@) is Some,
        r matches Ok(n) ==> number_tokens(n) == seq![number_reading(text@)->0],
{
    text.parse::<Number>()
}

/// `Value::Array`: an array holds its items in the order given.
#[verifier::external_body]
fn array_value(items: Vec<Value>) -> (r: Value)
    ensures
        value_tokens(r) == seq![Token::Array(items@.len())] + values_tokens(items@),
{
    Value::Array(items)
}

/// `Map::from_iter` and `Value::Object`: an object walks its members in
/// ascending order of their names, so members given in that order stay in it.
#[verifier::external_body]
fn object_value(members: Vec<(String, Value)>) -> (r: Value)
    ensures
        ascending(keys_of(members@)) ==> value_tokens(r) == seq![Token::Object(members@.len())] + members_tokens(
            members@,
        ),
{
    Value::Object(members.into_iter().collect())
}

/// A value of `serde_json`, taken apart by its kind.
enum Opened {
    Null,
    Bool(bool),
    Number(Number),
    Text(String),
    Array(Vec<Value>),
    Object(Vec<(String, Value)>),
}

/// The variants of `Value`: which one a value is, with what it holds. The
/// members of an object come in ascending order of their names.
#[verifier::external_body]
fn open_value(value: Value) -> (r: Opened)
    ensures
        match r {
            Opened::Null => value_tokens(value) == seq![Token::Null],
            Opened::Bool(b) => value_tokens(value) == seq![Token::Bool(b)],
            Opened::Number(n) => value_tokens(value) == number_tokens(n),
            Opened::Text(s) => value_tokens(value) == seq![Token::Text(s@)],
            Opened::Array(items) => value_tokens(value) == seq![Token::Array(items@.len())] + values_tokens(items@),
            Opened::Object(members) => value_tokens(value) == seq![Token::Object(members@.len())] + members_tokens(
                members@,
            ) && ascending(keys_of(members@)),
        },
{
    match value {
        Value::Null => Opened::Null,
        Value::Bool(b) => Opened::Bool(b),
        Value::Number(n) => Opened::Number(n),
        Value::String(s) => Opened::Text(s),
        Value::Array(items) => Opened::Array(items),
        Value::Object(members) => Opened::Object(members.into_iter().collect()),
    }
}

/// `Number::as_u64`: the number, where it is held as a non-negative integer.
#[verifier::external_body]
fn number_as_u64(number: &Number) -> (r: Option<u64>)
    ensures
        match r {
            Some(n) => number_tokens(*number) == seq![Token::Unsigned(n)],
            None => !(number_tokens(*number)[0] is Unsigned),
        },
{
    number.as_u64()
}

/// `Number::as_i64`: the number, where it is held as an integer in the range of
/// `i64`.
#[verifier::external_body]
fn number_as_i64(number: &Number) -> (r: Option<i64>)
    ensures
        match r {
            Some(n) => number_tokens(*number) == seq![
                if n < 0 {
                    Token::Negative(n)
                } else {
                    Token::Unsigned(n as u64)
                },
            ],
            None => !(number_tokens(*number)[0] is Negative),
        },
{
    number.as_i64()
}

/// `Number::to_string`: the text of a number. One that is no integer in range
/// prints as the text that tells it, and reads back from it as the number that
/// it was.
#[verifier::external_body]
fn number_text(number: &Number) -> (r: String)
    ensures
        !(number_tokens(*number)[0] is Unsigned) && !(number_tokens(*number)[0] is Negative) ==> number_tokens(*number)
            == seq![Token::Float(r@)] && number_reading(r@) == Some(Token::Float(r@)),
{
    number.to_string()
}

/// `serde_json::to_string_pretty` on a value: never fails, and prints a text
/// that is a function of the value.
#[verifier::external_body]
fn print_pretty(value: &Value) -> (r: Result<String, Error>)
    ensures
        r is Ok,
        r->Ok_0@ == pretty_text(value_tokens(*value)),
{
    serde_json::to_string_pretty(value)
}

/// `serde_json::to_string` on a value: never fails, and prints a text that is a
/// function of the value and holds no line feed.
#[verifier::external_body]
fn print_compact(value: &Value) -> (r: Result<String, Error>)
    ensures
        r is Ok,
        r->Ok_0@ == compact_text(value_tokens(*value)),
        !r->Ok_0@.contains('\n'),
{
    serde_json::to_string(value)
}

/// `serde_json::to_vec` on a value: never fails, and gives the bytes of the text
/// without white space. What is read in them is the value, and it is read unless
/// it is nested too deeply.
#[verifier::external_body]
fn print_bytes(value: &Value) -> (r: Result<Vec<u8>, Error>)
    ensures
        r is Ok,
        r->Ok_0@ == encode_utf8(compact_text(value_tokens(*value))),
        value_reading(r->Ok_0@) matches Ok(walk) ==> walk == value_tokens(*value),
        forall|j: Json| #[trigger]
            tokens(j) == value_tokens(*value) && nested_within(j, MAX_NESTING as nat) ==> value_reading(r->Ok_0@) is Ok,
{
    serde_json::to_vec(value)
}

/// `serde_json::from_slice` into a value: the value that stands in the bytes, or
/// what is wrong with them. Either is a function of the bytes. No value is read
/// that is nested too deeply.
#[verifier::external_body]
fn parse_value(bytes: &Vec<u8>) -> (r: Result<Value, String>)
    ensures
        match r {
            Ok(value) => value_reading(bytes@) == Ok::<Seq<Token>, Seq<char>>(value_tokens(value)) && forall|j: Json|
                #[trigger] tokens(j) == value_tokens(value) ==> nested_within(j, MAX_NESTING as nat),
            Err(text) => value_reading(bytes@) == Err::<Seq<Token>, Seq<char>>(text@),
        },
{
    serde_json::from_slice(bytes).map_err(|error| error.to_string())
}

/// Whether every fractional number of a walk has a text that reads as a number.
pub open spec fn printable(walk: Seq<Token>) -> bool {
    forall|i: int| 0 <= i < walk.len() ==> (#[trigger] walk[i] matches Token::Float(s) ==> number_reading(s) is Some)
}

/// A walk with each fractional number replaced by what its text reads as.
pub open spec fn reread(walk: Seq<Token>) -> Seq<Token> {
    Seq::new(
        walk.len(),
        |i: int|
            match walk[i] {
                Token::Float(s) => number_reading(s)->0,
                t => t,
            },
    )
}

/// Whether every fractional number of a walk has the text that it is printed as.
pub open spec fn faithful(walk: Seq<Token>) -> bool {
    forall|i: int|
        0 <= i < walk.len() ==> (#[trigger] walk[i] matches Token::Float(s) ==> number_reading(s) == Some(
            Token::Float(s),
        ))
}

/// A value whose numbers have the texts that they are printed as can be handed
/// to `serde_json` and comes out as it was.
pub proof fn law_faithful_is_printed_as_it_is(walk: Seq<Token>)
    requires
        faithful(walk),
    ensures
        printable(walk),
        reread(walk) == walk,
{
    assert(reread(walk) =~= walk);
}

proof fn lemma_parts(a: Seq<Token>, b: Seq<Token>)
    ensures
        printable(a + b) <==> printable(a) && printable(b),
        faithful(a + b) <==> faithful(a) && faithful(b),
        reread(a + b) == reread(a) + reread(b),
{
    assert(reread(a + b) =~= reread(a) + reread(b));
    assert forall|i: int| 0 <= i < a.len() implies a[i] == #[trigger] (a + b)[i] by {}
    assert forall|i: int| 0 <= i < b.len() implies b[i] == #[trigger] (a + b)[i + a.len()] by {}
    if printable(a + b) {
        assert forall|i: int| 0 <= i < a.len() implies (#[trigger] a[i] matches Token::Float(s) ==> number_reading(
            s,
        ) is Some) by {
            assert(a[i] == (a + b)[i]);
        }
        assert forall|i: int| 0 <= i < b.len() implies (#[trigger] b[i] matches Token::Float(s) ==> number_reading(
            s,
        ) is Some) by {
            assert(b[i] == (a + b)[i + a.len()]);
        }
    }
    if faithful(a + b) {
        assert forall|i: int| 0 <= i < a.len() implies (#[trigger] a[i] matches Token::Float(s) ==> number_reading(s)
            == Some(Token::Float(s))) by {
            assert(a[i] == (a + b)[i]);
        }
        assert forall|i: int| 0 <= i < b.len() implies (#[trigger] b[i] matches Token::Float(s) ==> number_reading(s)
            == Some(Token::Float(s))) by {
            assert(b[i] == (a + b)[i + a.len()]);
        }
    }
}

proof fn lemma_items_split(items: Seq<Json>, i: int)
    requires
        0 <= i < items.len(),
    ensures
        items_tokens(items.take(i + 1)) == items_tokens(items.take(i)) + tokens(items[i]),
{
    assert(items.take(i + 1).drop_last() =~= items.take(i));
}

proof fn lemma_items_prefix(items: Seq<Json>, i: int)
    requires
        0 <= i <= items.len(),
    ensures
        printable(items_tokens(items)) ==> printable(items_tokens(items.take(i))),
    decreases items.len() - i,
{
    if i < items.len() {
        lemma_items_prefix(items, i + 1);
        lemma_items_split(items, i);
        lemma_parts(items_tokens(items.take(i)), tokens(items[i]));
    } else {
        assert(items.take(i) =~= items);
    }
}

proof fn lemma_entries_split(entries: Seq<(String, Json)>, i: int)
    requires
        0 <= i < entries.len(),
    ensures
        entries_tokens(entries.take(i + 1)) == entries_tokens(entries.take(i)) + seq![Token::Key(entries[i].0@)]
            + tokens(entries[i].1),
{
    assert(entries.take(i + 1).drop_last() =~= entries.take(i));
}

proof fn lemma_entries_parts(entries: Seq<(String, Json)>, i: int)
    requires
        0 <= i < entries.len(),
    ensures
        printable(entries_tokens(entries.take(i + 1))) <==> printable(entries_tokens(entries.take(i))) && printable(
            tokens(entries[i].1),
        ),
        reread(entries_tokens(entries.take(i + 1))) == reread(entries_tokens(entries.take(i))) + seq![
            Token::Key(entries[i].0@),
        ] + reread(tokens(entries[i].1)),
{
    lemma_entries_split(entries, i);
    let a = entries_tokens(entries.take(i));
    let k = seq![Token::Key(entries[i].0@)];
    lemma_parts(a, k);
    lemma_parts(a + k, tokens(entries[i].1));
    assert(reread(k) =~= k);
}

proof fn lemma_entries_prefix(entries: Seq<(String, Json)>, i: int)
    requires
        0 <= i <= entries.len(),
    ensures
        printable(entries_tokens(entries)) ==> printable(entries_tokens(entries.take(i))),
    decreases entries.len() - i,
{
    if i < entries.len() {
        lemma_entries_prefix(entries, i + 1);
        lemma_entries_parts(entries, i);
    } else {
        assert(entries.take(i) =~= entries);
    }
}

proof fn lemma_items_faithful(items: Seq<Json>)
    ensures
        faithful(items_tokens(items)) <==> forall|i: int|
            0 <= i < items.len() ==> faithful(tokens(#[trigger] items[i])),
    decreases items.len(),
{
    if items.len() > 0 {
        let rest = items.drop_last();
        lemma_items_faithful(rest);
        lemma_parts(items_tokens(rest), tokens(items.last()));
        assert(forall|i: int| 0 <= i < rest.len() ==> rest[i] == #[trigger] items[i]);
        if faithful(items_tokens(items)) {
            assert forall|i: int| 0 <= i < items.len() implies faithful(tokens(#[trigger] items[i])) by {
                if i < rest.len() {
                    assert(faithful(tokens(rest[i])));
                }
            }
        }
        if forall|i: int| 0 <= i < items.len() ==> faithful(tokens(#[trigger] items[i])) {
            assert forall|i: int| 0 <= i < rest.len() implies faithful(tokens(#[trigger] rest[i])) by {
                assert(faithful(tokens(items[i])));
            }
            assert(faithful(tokens(items[items.len() - 1])));
        }
    }
}

proof fn lemma_entries_faithful(entries: Seq<(String, Json)>)
    ensures
        faithful(entries_tokens(entries)) <==> forall|i: int|
            0 <= i < entries.len() ==> faithful(tokens((#[trigger] entries[i]).1)),
    decreases entries.len(),
{
    if entries.len() > 0 {
        let rest = entries.drop_last();
        let name = seq![Token::Key(entries.last().0@)];
        lemma_entries_faithful(rest);
        assert(faithful(name));
        lemma_parts(entries_tokens(rest), name);
        lemma_parts(entries_tokens(rest) + name, tokens(entries.last().1));
        assert(forall|i: int| 0 <= i < rest.len() ==> rest[i] == #[trigger] entries[i]);
        if faithful(entries_tokens(entries)) {
            assert forall|i: int| 0 <= i < entries.len() implies faithful(tokens((#[trigger] entries[i]).1)) by {
                if i < rest.len() {
                    assert(faithful(tokens(rest[i].1)));
                }
            }
        }
        if forall|i: int| 0 <= i < entries.len() ==> faithful(tokens((#[trigger] entries[i]).1)) {
            assert forall|i: int| 0 <= i < rest.len() implies faithful(tokens((#[trigger] rest[i]).1)) by {
                assert(faithful(tokens(entries[i].1)));
            }
            assert(faithful(tokens(entries[entries.len() - 1].1)));
        }
    }
}

proof fn lemma_entry_of(entries: Seq<(String, Json)>, k: Seq<char>) -> (i: int)
    requires
        entries_view(entries).contains_key(k),
    ensures
        0 <= i < entries.len(),
        entries[i].0@ == k,
        entries_view(entries)[k] == json_view(entries[i].1),
    decreases entries.len(),
{
    if entries.last().0@ == k {
        entries.len() - 1
    } else {
        let i = lemma_entry_of(entries.drop_last(), k);
        assert(entries.drop_last()[i] == entries[i]);
        i
    }
}

/// A value whose numbers have the texts that they are printed as, and that is not
/// nested too deeply, says what is read back as it was.
pub proof fn lemma_faithful_is_readable(j: Json, levels: nat)
    requires
        faithful(tokens(j)),
        nested_within(j, levels),
    ensures
        readable(json_view(j), levels),
    decreases levels,
{
    match j {
        Json::Float(s) => {
            assert(tokens(j)[0] == Token::Float(s@));
        },
        Json::Array(items) => {
            let below = (levels - 1) as nat;
            let said = json_view(j)->Array_0;
            lemma_parts(seq![Token::Array(items@.len())], items_tokens(items@));
            lemma_items_faithful(items@);
            assert forall|i: int| 0 <= i < said.len() implies readable(#[trigger] said[i], below) by {
                assert(nested_within(items@[i], below));
                lemma_faithful_is_readable(items@[i], below);
            }
        },
        Json::Object(members) => {
            let below = (levels - 1) as nat;
            let entries = members.entries();
            let said = entries_view(entries);
            lemma_parts(seq![Token::Object(entries.len())], entries_tokens(entries));
            lemma_entries_faithful(entries);
            assert forall|k: Seq<char>| said.contains_key(k) implies readable(#[trigger] said[k], below) by {
                let i = lemma_entry_of(entries, k);
                assert(nested_within(entries[i].1, below));
                lemma_faithful_is_readable(entries[i].1, below);
            }
        },
        _ => {},
    }
}

/// The members of an object that is read back are read back themselves.
pub proof fn law_members_are_read_back(members: Map<Seq<char>, JsonView>, k: Seq<char>, levels: nat)
    requires
        readable(JsonView::Object(members), levels),
        members.contains_key(k),
    ensures
        levels > 0,
        readable(members[k], (levels - 1) as nat),
{
    let v = JsonView::Object(members);
    let m = v->Object_0;
    assert(m.contains_key(k));
    assert(readable(m[k], (levels - 1) as nat));
}

/// An object that is read back is so with one more member that is read back.
pub proof fn law_a_member_more_is_read_back(
    members: Map<Seq<char>, JsonView>,
    k: Seq<char>,
    value: JsonView,
    levels: nat,
)
    requires
        readable(JsonView::Object(members), levels),
        levels > 0,
        readable(value, (levels - 1) as nat),
    ensures
        readable(JsonView::Object(members.insert(k, value)), levels),
{
    let all = JsonView::Object(members.insert(k, value))->Object_0;
    assert forall|other: Seq<char>| all.contains_key(other) implies readable(
        #[trigger] all[other],
        (levels - 1) as nat,
    ) by {
        if other != k {
            law_members_are_read_back(members, other, levels);
        }
    }
}

proof fn lemma_entry_is_said(members: StringMap<Json>, i: int)
    requires
        ascending(members.keys()),
        0 <= i < members.entries().len(),
    ensures
        members_view(members).contains_key(members.keys()[i]),
        members_view(members)[members.keys()[i]] == json_view(members.entries()[i].1),
{
    lemma_members_view(members);
    lemma_lookup_at(members.keys(), members.values(), i);
}

/// A value with its members in order is one whose numbers have the texts that they
/// are printed as and that is not nested too deeply, exactly if what it says is
/// read back as it was.
pub proof fn law_what_a_value_says_decides_whether_it_is_read_back(j: Json, levels: nat)
    requires
        ordered(j),
    ensures
        readable(json_view(j), levels) <==> faithful(tokens(j)) && nested_within(j, levels),
    decreases levels,
{
    if faithful(tokens(j)) && nested_within(j, levels) {
        lemma_faithful_is_readable(j, levels);
    }
    if readable(json_view(j), levels) {
        match j {
            Json::Array(items) => {
                let below = (levels - 1) as nat;
                let said = json_view(j)->Array_0;
                assert forall|i: int| 0 <= i < items@.len() implies faithful(tokens(#[trigger] items@[i]))
                    && nested_within(items@[i], below) by {
                    assert(said[i] == json_view(items@[i]));
                    assert(readable(said[i], below));
                    law_what_a_value_says_decides_whether_it_is_read_back(items@[i], below);
                }
                let head = seq![Token::Array(items@.len())];
                assert(faithful(head));
                lemma_items_faithful(items@);
                lemma_parts(head, items_tokens(items@));
            },
            Json::Object(members) => {
                let below = (levels - 1) as nat;
                let entries = members.entries();
                let said = entries_view(entries);
                assert(json_view(j) == JsonView::Object(said));
                assert(readable(JsonView::Object(said), levels));
                assert forall|i: int| 0 <= i < entries.len() implies faithful(tokens((#[trigger] entries[i]).1))
                    && nested_within(entries[i].1, below) by {
                    lemma_entry_is_said(members, i);
                    law_members_are_read_back(said, members.keys()[i], levels);
                    law_what_a_value_says_decides_whether_it_is_read_back(entries[i].1, below);
                }
                let head = seq![Token::Object(entries.len())];
                assert(faithful(head));
                lemma_entries_faithful(entries);
                lemma_parts(head, entries_tokens(entries));
            },
            _ => {},
        }
    }
}

/// What is read back within some levels is read back within more.
pub proof fn law_more_levels_are_enough(v: JsonView, fewer: nat, more: nat)
    requires
        readable(v, fewer),
        fewer <= more,
    ensures
        readable(v, more),
    decreases fewer,
{
    match v {
        JsonView::Array(items) => {
            assert forall|i: int| 0 <= i < items.len() implies readable(#[trigger] items[i], (more - 1) as nat) by {
                law_more_levels_are_enough(items[i], (fewer - 1) as nat, (more - 1) as nat);
            }
        },
        JsonView::Object(members) => {
            assert forall|k: Seq<char>| members.contains_key(k) implies readable(
                #[trigger] members[k],
                (more - 1) as nat,
            ) by {
                law_more_levels_are_enough(members[k], (fewer - 1) as nat, (more - 1) as nat);
            }
        },
        _ => {},
    }
}

impl Json {
    /// This value as one of `serde_json`, or nothing where the text of a
    /// fractional number in it is no number.
    pub fn to_value(&self) -> (r: Option<Value>)
        ensures
            r is Some <==> printable(tokens(*self)),
            r matches Some(v) ==> value_tokens(v) == reread(tokens(*self)),
            r is Some ==> ordered(*self),
            r is None ==> forall|n: nat| !(#[trigger] readable(self@, n)),
        decreases self,
    {
        match self {
            Json::Null => {
                assert(reread(tokens(*self)) =~= tokens(*self));
                Some(null_value())
            },
            Json::Bool(b) => {
                assert(reread(tokens(*self)) =~= tokens(*self));
                Some(bool_value(*b))
            },
            Json::Unsigned(n) => {
                assert(reread(tokens(*self)) =~= tokens(*self));
                Some(unsigned_value(*n))
            },
            Json::Negative(n) => {
                assert(reread(tokens(*self)) =~= tokens(*self));
                Some(signed_value(*n))
            },
            Json::Text(s) => {
                assert(reread(tokens(*self)) =~= tokens(*self));
                Some(text_value(s.clone()))
            },
            Json::Float(s) => {
                assert(tokens(*self)[0] == Token::Float(s@));
                match read_number(s.as_str()) {
                    Ok(n) => {
                        assert(reread(tokens(*self)) =~= seq![number_reading(s@)->0]);
                        Some(number_value(n))
                    },
                    Err(_) => None,
                }
            },
            Json::Array(items) => {
                let mut out: Vec<Value> = Vec::new();
                let mut i: usize = 0;
                let ghost head = seq![Token::Array(items@.len())];
                proof {
                    lemma_parts(head, items_tokens(items@));
                    assert(reread(head) =~= head);
                    assert(printable(head));
                    assert(values_tokens(out@) =~= reread(items_tokens(items@.take(0))));
                }
                while i < items.len()
                    invariant
                        i <= items@.len(),
                        *self == Json::Array(*items),
                        tokens(*self) == head + items_tokens(items@),
                        printable(tokens(*self)) <==> printable(items_tokens(items@)),
                        out@.len() == i,
                        forall|k: int| 0 <= k < i ==> ordered(#[trigger] items@[k]),
                        printable(items_tokens(items@.take(i as int))),
                        values_tokens(out@) == reread(items_tokens(items@.take(i as int))),
                    decreases items@.len() - i,
                {
                    proof {
                        lemma_items_split(items@, i as int);
                        lemma_items_prefix(items@, i + 1);
                        lemma_parts(items_tokens(items@.take(i as int)), tokens(items@[i as int]));
                    }
                    match items[i].to_value() {
                        Some(v) => {
                            let ghost so_far = out@;
                            out.push(v);
                            assert(out@.drop_last() =~= so_far);
                        },
                        None => {
                            proof {
                                assert forall|n: nat| !(#[trigger] readable(self@, n)) by {
                                    assert(self@->Array_0[i as int] == items@[i as int]@);
                                    assert(!readable(items@[i as int]@, (n - 1) as nat));
                                }
                            }
                            return None;
                        },
                    }
                    i = i + 1;
                }
                assert(items@.take(i as int) =~= items@);
                Some(array_value(out))
            },
            Json::Object(members) => {
                let mut out: Vec<(String, Value)> = Vec::new();
                let mut i: usize = 0;
                let count: usize = members.len();
                let ghost entries = members.entries();
                let ghost head = seq![Token::Object(entries.len())];
                proof {
                    lemma_parts(head, entries_tokens(entries));
                    assert(reread(head) =~= head);
                    assert(printable(head));
                    assert(members_tokens(out@) =~= reread(entries_tokens(entries.take(0))));
                }
                while i < count
                    invariant
                        i <= count == entries.len(),
                        entries == members.entries(),
                        *self == Json::Object(*members),
                        tokens(*self) == head + entries_tokens(entries),
                        printable(tokens(*self)) <==> printable(entries_tokens(entries)),
                        ascending(members.keys()),
                        out@.len() == i,
                        forall|k: int| 0 <= k < i ==> ordered((#[trigger] entries[k]).1),
                        forall|k: int| 0 <= k < i ==> (#[trigger] out@[k]).0 == entries[k].0,
                        printable(entries_tokens(entries.take(i as int))),
                        members_tokens(out@) == reread(entries_tokens(entries.take(i as int))),
                    decreases count - i,
                {
                    proof {
                        members.lemma_entries_decrease();
                        lemma_entries_prefix(entries, i + 1);
                        lemma_entries_parts(entries, i as int);
                    }
                    match members.value_at(i).to_value() {
                        Some(v) => {
                            let ghost so_far = out@;
                            out.push((members.key_at(i).clone(), v));
                            assert(out@.drop_last() =~= so_far);
                        },
                        None => {
                            proof {
                                lemma_entry_is_said(*members, i as int);
                                let said = members_view(*members);
                                assert(self@ == JsonView::Object(said));
                                assert forall|n: nat| !(#[trigger] readable(self@, n)) by {
                                    if readable(self@, n) {
                                        law_members_are_read_back(said, members.keys()[i as int], n);
                                        assert(!readable(members.entries()[i as int].1@, (n - 1) as nat));
                                    }
                                }
                            }
                            return None;
                        },
                    }
                    i = i + 1;
                }
                proof {
                    assert(entries.take(i as int) =~= entries);
                    assert(keys_of(out@) =~= members.keys());
                }
                Some(object_value(out))
            },
        }
    }

    /// The value that `value` is. Handed back to `serde_json`, it is the value
    /// that it was.
    pub fn from_value(value: Value) -> (r: Json)
        ensures
            tokens(r) == value_tokens(value),
            faithful(tokens(r)),
        decreases value_tokens(value).len(),
    {
        let ghost walk = value_tokens(value);
        match open_value(value) {
            Opened::Null => Json::Null,
            Opened::Bool(b) => Json::Bool(b),
            Opened::Text(s) => Json::Text(s),
            Opened::Number(n) => {
                match number_as_u64(&n) {
                    Some(u) => Json::Unsigned(u),
                    None => match number_as_i64(&n) {
                        Some(i) => {
                            if i >= 0 {
                                assert(number_tokens(n) == seq![Token::Unsigned(i as u64)]);
                            }
                            Json::Negative(i)
                        },
                        None => {
                            let s = number_text(&n);
                            assert(seq![Token::Float(s@)][0] == Token::Float(s@));
                            Json::Float(s)
                        },
                    },
                }
            },
            Opened::Array(items) => {
                let mut out: Vec<Json> = Vec::new();
                let ghost all = items@;
                for item in it: items
                    invariant
                        it.seq() == all,
                        walk == seq![Token::Array(all.len())] + values_tokens(all),
                        walk == value_tokens(value),
                        out@.len() == it.index(),
                        items_tokens(out@) == values_tokens(all.take(it.index() as int)),
                        faithful(items_tokens(out@)),
                {
                    let ghost k = it.index() as int;
                    proof {
                        lemma_value_shorter(all, k);
                        assert(all.take(k + 1).drop_last() =~= all.take(k));
                    }
                    let ghost so_far = out@;
                    let next = Json::from_value(item);
                    proof {
                        lemma_parts(items_tokens(so_far), tokens(next));
                    }
                    out.push(next);
                    assert(out@.drop_last() =~= so_far);
                }
                proof {
                    assert(all.take(all.len() as int) =~= all);
                    let head = seq![Token::Array(all.len())];
                    lemma_parts(head, items_tokens(out@));
                    assert(faithful(head));
                }
                Json::Array(out)
            },
            Opened::Object(members) => {
                let mut out: StringMap<Json> = StringMap::new();
                let ghost all = members@;
                for member in it: members
                    invariant
                        it.seq() == all,
                        ascending(keys_of(all)),
                        walk == seq![Token::Object(all.len())] + members_tokens(all),
                        walk == value_tokens(value),
                        out.entries().len() == it.index(),
                        forall|k: int| 0 <= k < it.index() ==> (#[trigger] out.entries()[k]).0 == all[k].0,
                        entries_tokens(out.entries()) == members_tokens(all.take(it.index() as int)),
                        faithful(entries_tokens(out.entries())),
                {
                    let ghost k = it.index() as int;
                    proof {
                        lemma_member_shorter(all, k);
                        assert(all.take(k + 1).drop_last() =~= all.take(k));
                    }
                    let ghost so_far = out.entries();
                    let (key, item) = member;
                    let next = Json::from_value(item);
                    proof {
                        let name = seq![Token::Key(key@)];
                        assert(faithful(name));
                        lemma_parts(entries_tokens(so_far), name);
                        lemma_parts(entries_tokens(so_far) + name, tokens(next));
                        assert forall|m: int| 0 <= m < out.keys().len() implies crate::order::text_less(
                            #[trigger] out.keys()[m],
                            key@,
                        ) by {
                            assert(out.keys()[m] == keys_of(all)[m]);
                            assert(key@ == keys_of(all)[k]);
                        }
                    }
                    out.insert(key, next);
                    assert(out.entries().drop_last() =~= so_far);
                }
                proof {
                    assert(all.take(all.len() as int) =~= all);
                    let head = seq![Token::Object(all.len())];
                    lemma_parts(head, entries_tokens(out.entries()));
                    assert(faithful(head));
                }
                Json::Object(out)
            },
        }
    }

    /// This value as indented text, or nothing where the text of a fractional
    /// number in it is no number.
    pub fn to_pretty(&self) -> (r: Option<String>)
        ensures
            r is Some <==> printable(tokens(*self)),
            r matches Some(s) ==> s@ == pretty_text(reread(tokens(*self))),
            r is None ==> forall|n: nat| !(#[trigger] readable(self@, n)),
    {
        match self.to_value() {
            Some(v) => match print_pretty(&v) {
                Ok(s) => Some(s),
                Err(_) => None,
            },
            None => None,
        }
    }

    /// This value as text on one line, or nothing where the text of a
    /// fractional number in it is no number.
    pub fn to_compact(&self) -> (r: Option<String>)
        ensures
            r is Some <==> printable(tokens(*self)),
            r matches Some(s) ==> s@ == compact_text(reread(tokens(*self))) && !s@.contains('\n'),
            r is None ==> forall|n: nat| !(#[trigger] readable(self@, n)),
    {
        match self.to_value() {
            Some(v) => match print_compact(&v) {
                Ok(s) => Some(s),
                Err(_) => None,
            },
            None => None,
        }
    }
}

impl Json {
    /// The bytes of this value as text without white space, or nothing where the
    /// text of a fractional number in it is no number. What is read back is read in
    /// them as it was.
    pub fn to_bytes(&self) -> (r: Option<Vec<u8>>)
        ensures
            r is Some <==> printable(tokens(*self)),
            r matches Some(bytes) ==> bytes@ == encode_utf8(compact_text(reread(tokens(*self)))),
            r is None ==> forall|n: nat| !(#[trigger] readable(self@, n)),
            readable(self@, MAX_NESTING as nat) ==> r is Some && value_reading(r->0@) == Ok::<Seq<Token>, Seq<char>>(
                tokens(*self),
            ),
    {
        match self.to_value() {
            Some(v) => {
                proof {
                    law_what_a_value_says_decides_whether_it_is_read_back(*self, MAX_NESTING as nat);
                    if faithful(tokens(*self)) {
                        law_faithful_is_printed_as_it_is(tokens(*self));
                    }
                }
                match print_bytes(&v) {
                    Ok(bytes) => {
                        assert(faithful(tokens(*self)) ==> tokens(*self) == value_tokens(v));
                        Some(bytes)
                    },
                    Err(_) => None,
                }
            },
            None => None,
        }
    }

    /// The value that stands in `bytes`, or what is wrong with them. Written again,
    /// it is read back as it was.
    pub fn from_bytes(bytes: &Vec<u8>) -> (r: Result<Json, String>)
        ensures
            match r {
                Ok(j) => value_reading(bytes@) == Ok::<Seq<Token>, Seq<char>>(tokens(j)) && faithful(tokens(j))
                    && nested_within(j, MAX_NESTING as nat) && readable(j@, MAX_NESTING as nat),
                Err(text) => value_reading(bytes@) == Err::<Seq<Token>, Seq<char>>(text@),
            },
    {
        match parse_value(bytes) {
            Ok(value) => {
                let j = Json::from_value(value);
                proof {
                    lemma_faithful_is_readable(j, MAX_NESTING as nat);
                }
                Ok(j)
            },
            Err(text) => Err(text),
        }
    }
}

/// What the value says that this is the walk through.
pub open spec fn walk_view(walk: Seq<Token>) -> JsonView {
    json_view(choose|j: Json| #[trigger] tokens(j) == walk)
}

/// The walk through a value tells all that the value says: no other value has
/// the same walk and says something else.
pub proof fn law_the_walk_tells_what_a_value_says(j: Json)
    ensures
        walk_view(tokens(j)) == json_view(j),
{
    lemma_equal_walks(choose|k: Json| #[trigger] tokens(k) == tokens(j), j);
}

/// Values with the same walk say the same and are nested as deeply.
pub proof fn lemma_equal_walks(a: Json, b: Json)
    requires
        tokens(a) == tokens(b),
    ensures
        json_view(a) == json_view(b),
        forall|n: nat| nested_within(a, n) == #[trigger] nested_within(b, n),
{
    let none = Seq::<Token>::empty();
    assert(tokens(a) + none == tokens(b) + none);
    lemma_same_walk(a, b, none, none);
}

proof fn lemma_same_walk(a: Json, b: Json, x: Seq<Token>, y: Seq<Token>)
    requires
        tokens(a) + x == tokens(b) + y,
    ensures
        json_view(a) == json_view(b),
        forall|n: nat| nested_within(a, n) == #[trigger] nested_within(b, n),
        x == y,
    decreases a,
{
    let p = tokens(a) + x;
    let q = tokens(b) + y;
    assert(p[0] == tokens(a)[0] && q[0] == tokens(b)[0]);
    assert(tokens(a)[0] == tokens(b)[0]);
    match a {
        Json::Array(items) => {
            assert(b is Array);
            let others = b->Array_0;
            assert(items@.len() == others@.len());
            assert(items_tokens(items@) + x =~= p.skip(1));
            assert(items_tokens(others@) + y =~= q.skip(1));
            lemma_same_items_walk(items@, others@, x, y);
            assert(json_view(a)->Array_0 =~= json_view(b)->Array_0);
            assert forall|n: nat| nested_within(a, n) == #[trigger] nested_within(b, n) by {
                if n > 0 {
                    let m = (n - 1) as nat;
                    if nested_within(a, n) {
                        assert forall|i: int| 0 <= i < others@.len() implies nested_within(#[trigger] others@[i], m) by {
                            assert(nested_within(items@[i], m));
                        }
                    }
                    if nested_within(b, n) {
                        assert forall|i: int| 0 <= i < items@.len() implies nested_within(#[trigger] items@[i], m) by {
                            assert(nested_within(others@[i], m));
                        }
                    }
                }
            }
        },
        Json::Object(members) => {
            assert(b is Object);
            let others = b->Object_0;
            members.lemma_entries_decrease();
            assert(members.entries().len() == others.entries().len());
            assert(entries_tokens(members.entries()) + x =~= p.skip(1));
            assert(entries_tokens(others.entries()) + y =~= q.skip(1));
            lemma_same_entries_walk(members.entries(), others.entries(), x, y);
            assert forall|n: nat| nested_within(a, n) == #[trigger] nested_within(b, n) by {
                let p = members.entries();
                let q = others.entries();
                if n > 0 {
                    let m = (n - 1) as nat;
                    if nested_within(a, n) {
                        assert forall|i: int| 0 <= i < q.len() implies nested_within((#[trigger] q[i]).1, m) by {
                            assert(nested_within(p[i].1, m));
                        }
                    }
                    if nested_within(b, n) {
                        assert forall|i: int| 0 <= i < p.len() implies nested_within((#[trigger] p[i]).1, m) by {
                            assert(nested_within(q[i].1, m));
                        }
                    }
                }
            }
        },
        _ => {
            assert(!(b is Array) && !(b is Object));
            assert(x =~= p.skip(1));
            assert(y =~= q.skip(1));
        },
    }
}

proof fn lemma_same_items_walk(a: Seq<Json>, b: Seq<Json>, x: Seq<Token>, y: Seq<Token>)
    requires
        a.len() == b.len(),
        items_tokens(a) + x == items_tokens(b) + y,
    ensures
        forall|i: int| 0 <= i < a.len() ==> json_view(#[trigger] a[i]) == json_view(b[i]),
        forall|i: int, n: nat| 0 <= i < a.len() ==> nested_within(a[i], n) == #[trigger] nested_within(b[i], n),
        x == y,
    decreases a,
{
    if a.len() == 0 {
        assert(x =~= items_tokens(a) + x);
        assert(y =~= items_tokens(b) + y);
    } else {
        let last = a.len() - 1;
        assert(items_tokens(a.drop_last()) + (tokens(a.last()) + x) =~= items_tokens(a) + x);
        assert(items_tokens(b.drop_last()) + (tokens(b.last()) + y) =~= items_tokens(b) + y);
        lemma_same_items_walk(a.drop_last(), b.drop_last(), tokens(a.last()) + x, tokens(b.last()) + y);
        lemma_same_walk(a.last(), b.last(), x, y);
        assert forall|i: int| 0 <= i < a.len() implies json_view(#[trigger] a[i]) == json_view(b[i]) by {
            if i < last {
                assert(a.drop_last()[i] == a[i] && b.drop_last()[i] == b[i]);
            }
        }
        assert forall|i: int, n: nat| 0 <= i < a.len() implies nested_within(a[i], n) == #[trigger] nested_within(
            b[i],
            n,
        ) by {
            if i < last {
                assert(a.drop_last()[i] == a[i] && b.drop_last()[i] == b[i]);
                assert(nested_within(b.drop_last()[i], n) == nested_within(a.drop_last()[i], n));
            }
        }
    }
}

proof fn lemma_same_entries_walk(a: Seq<(String, Json)>, b: Seq<(String, Json)>, x: Seq<Token>, y: Seq<Token>)
    requires
        a.len() == b.len(),
        entries_tokens(a) + x == entries_tokens(b) + y,
    ensures
        entries_view(a) == entries_view(b),
        forall|i: int, n: nat|
            0 <= i < a.len() ==> nested_within(a[i].1, n) == #[trigger] nested_within(b[i].1, n),
        x == y,
    decreases a,
{
    if a.len() == 0 {
        assert(x =~= entries_tokens(a) + x);
        assert(y =~= entries_tokens(b) + y);
    } else {
        let ka = seq![Token::Key(a.last().0@)];
        let kb = seq![Token::Key(b.last().0@)];
        let p = ka + tokens(a.last().1) + x;
        let q = kb + tokens(b.last().1) + y;
        assert(entries_tokens(a.drop_last()) + p =~= entries_tokens(a) + x);
        assert(entries_tokens(b.drop_last()) + q =~= entries_tokens(b) + y);
        lemma_same_entries_walk(a.drop_last(), b.drop_last(), p, q);
        assert(p[0] == Token::Key(a.last().0@) && q[0] == Token::Key(b.last().0@));
        assert(tokens(a.last().1) + x =~= p.skip(1));
        assert(tokens(b.last().1) + y =~= q.skip(1));
        lemma_same_walk(a.last().1, b.last().1, x, y);
        assert forall|i: int, n: nat| 0 <= i < a.len() implies nested_within(a[i].1, n) == #[trigger] nested_within(
            b[i].1,
            n,
        ) by {
            if i < a.len() - 1 {
                assert(a.drop_last()[i] == a[i] && b.drop_last()[i] == b[i]);
                assert(nested_within(b.drop_last()[i].1, n) == nested_within(a.drop_last()[i].1, n));
            }
        }
    }
}

proof fn lemma_value_shorter(values: Seq<Value>, i: int)
    requires
        0 <= i < values.len(),
    ensures
        value_tokens(values[i]).len() <= values_tokens(values).len(),
    decreases values.len(),
{
    if i < values.len() - 1 {
        lemma_value_shorter(values.drop_last(), i);
        assert(values.drop_last()[i] == values[i]);
    }
}

proof fn lemma_member_shorter(members: Seq<(String, Value)>, i: int)
    requires
        0 <= i < members.len(),
    ensures
        value_tokens(members[i].1).len() <= members_tokens(members).len(),
    decreases members.len(),
{
    if i < members.len() - 1 {
        lemma_member_shorter(members.drop_last(), i);
        assert(members.drop_last()[i] == members[i]);
    }
}

/// The walk through a list of texts announces how many there are and then names each of
/// them, in their order.
pub proof fn law_the_walk_through_texts(list: Seq<Seq<char>>)
    ensures
        text_walk(list).len() == list.len() + 1,
        text_walk(list)[0] == Token::Array(list.len()),
        forall|i: int| 0 < i <= list.len() ==> #[trigger] text_walk(list)[i] == Token::Text(list[i - 1]),
{
}

/// The walk through a value: a value that is neither an array nor an object is one step.
/// An array is its length and then its items, and an object the number of its members and
/// then each of them, its name first.
pub proof fn law_the_walk_through_a_value(j: Json)
    ensures
        match j {
            Json::Null => tokens(j) == seq![Token::Null],
            Json::Bool(b) => tokens(j) == seq![Token::Bool(b)],
            Json::Unsigned(n) => tokens(j) == seq![Token::Unsigned(n)],
            Json::Negative(n) => n < 0 ==> tokens(j) == seq![Token::Negative(n)],
            Json::Float(s) => tokens(j) == seq![Token::Float(s@)],
            Json::Text(s) => tokens(j) == seq![Token::Text(s@)],
            Json::Array(items) => tokens(j) == seq![Token::Array(items@.len())] + items_tokens(items@),
            Json::Object(members) => tokens(j) == seq![Token::Object(members.entries().len())] + entries_tokens(
                members.entries(),
            ),
        },
{
}

/// Items and members are walked through one after the other.
pub proof fn law_the_walk_goes_on(items: Seq<Json>, item: Json, entries: Seq<(String, Json)>, entry: (String, Json))
    ensures
        items_tokens(items.push(item)) == items_tokens(items) + tokens(item),
        entries_tokens(entries.push(entry)) == entries_tokens(entries) + seq![Token::Key(entry.0@)] + tokens(entry.1),
{
    assert(items.push(item).drop_last() =~= items);
    assert(entries.push(entry).drop_last() =~= entries);
}

} // verus!
