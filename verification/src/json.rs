//! JSON values as the library reads and builds them.

use vstd::prelude::*;
use crate::json_value::{entries_tokens, items_tokens, law_a_member_more_is_read_back, ordered, readable, text_walk, tokens, Token};
use crate::order::{lemma_text_less_irreflexive, text_less};
use crate::text::views;
use crate::string_map::{ascending, keys_of, lemma_lookup_at, StringMap};

verus! {

/// A JSON value. A number is held as the integer that it is, or, where it is
/// none that fits, as its shortest text.
#[derive(Debug, PartialEq)]
pub enum Json {
    Null,
    Bool(bool),
    Unsigned(u64),
    Negative(i64),
    Float(String),
    Text(String),
    Array(Vec<Json>),
    Object(StringMap<Json>),
}

/// What a JSON value says: the order of an object's members is no part of it.
pub enum JsonView {
    Null,
    Bool(bool),
    Unsigned(u64),
    Negative(i64),
    Float(Seq<char>),
    Text(Seq<char>),
    Array(Seq<JsonView>),
    Object(Map<Seq<char>, JsonView>),
}

/// What `j` says.
pub open spec fn json_view(j: Json) -> JsonView
    decreases j,
{
    match j {
        Json::Null => JsonView::Null,
        Json::Bool(b) => JsonView::Bool(b),
        Json::Unsigned(n) => JsonView::Unsigned(n),
        Json::Negative(n) => if n < 0 {
            JsonView::Negative(n)
        } else {
            JsonView::Unsigned(n as u64)
        },
        Json::Float(s) => JsonView::Float(s@),
        Json::Text(s) => JsonView::Text(s@),
        Json::Array(items) => JsonView::Array(
            Seq::new(
                items@.len(),
                |i: int|
                    if 0 <= i < items@.len() {
                        json_view(items@[i])
                    } else {
                        arbitrary()
                    },
            ),
        ),
        Json::Object(members) => {
            proof {
                members.lemma_entries_decrease();
            }
            JsonView::Object(entries_view(members.entries()))
        },
    }
}

/// What a list of members says, by their names.
pub open spec fn entries_view(entries: Seq<(String, Json)>) -> Map<Seq<char>, JsonView>
    decreases entries,
{
    if entries.len() == 0 {
        Map::empty()
    } else {
        entries_view(entries.drop_last()).insert(entries.last().0@, json_view(entries.last().1))
    }
}

/// What the members of an object say, by their names.
pub open spec fn members_view(members: StringMap<Json>) -> Map<Seq<char>, JsonView> {
    entries_view(members.entries())
}

impl View for Json {
    type V = JsonView;

    open spec fn view(&self) -> JsonView {
        json_view(*self)
    }
}

impl JsonView {
    /// The member of an object with this name. A value that is no object has none.
    pub open spec fn member(self, key: Seq<char>) -> Option<JsonView> {
        match self {
            JsonView::Object(members) => if members.contains_key(key) {
                Some(members[key])
            } else {
                None
            },
            _ => None,
        }
    }

    /// The text that a string value holds.
    pub open spec fn text(self) -> Option<Seq<char>> {
        match self {
            JsonView::Text(s) => Some(s),
            _ => None,
        }
    }

    /// The boolean that a value is.
    pub open spec fn boolean(self) -> Option<bool> {
        match self {
            JsonView::Bool(b) => Some(b),
            _ => None,
        }
    }

    /// The unsigned integer that a value is.
    pub open spec fn unsigned(self) -> Option<u64> {
        match self {
            JsonView::Unsigned(n) => Some(n),
            _ => None,
        }
    }

    /// The items of an array.
    pub open spec fn items(self) -> Option<Seq<JsonView>> {
        match self {
            JsonView::Array(items) => Some(items),
            _ => None,
        }
    }

    /// The members of an object.
    pub open spec fn members(self) -> Option<Map<Seq<char>, JsonView>> {
        match self {
            JsonView::Object(members) => Some(members),
            _ => None,
        }
    }
}

/// `v`, or `null` where there is none.
pub open spec fn or_null(v: Option<JsonView>) -> JsonView {
    match v {
        Some(v) => v,
        None => JsonView::Null,
    }
}

/// `s` as a JSON string, or `null` where there is none.
pub open spec fn text_or_null(s: Option<Seq<char>>) -> JsonView {
    match s {
        Some(s) => JsonView::Text(s),
        None => JsonView::Null,
    }
}

/// The texts of `list` as an array of JSON strings.
pub open spec fn text_array(list: Seq<Seq<char>>) -> JsonView {
    JsonView::Array(Seq::new(list.len(), |i: int| JsonView::Text(list[i])))
}

proof fn lemma_entries_view(entries: Seq<(String, Json)>)
    requires
        ascending(keys_of(entries)),
    ensures
        forall|i: int|
            0 <= i < entries.len() ==> entries_view(entries).contains_key((#[trigger] entries[i]).0@) && entries_view(
                entries,
            )[entries[i].0@] == json_view(entries[i].1),
        forall|k: Seq<char>| #[trigger]
            entries_view(entries).contains_key(k) ==> keys_of(entries).contains(k),
    decreases entries.len(),
{
    if entries.len() > 0 {
        let rest = entries.drop_last();
        let keys = keys_of(entries);
        let last = entries.len() - 1;
        assert forall|i: int, j: int| 0 <= i < j < keys_of(rest).len() implies text_less(
            #[trigger] keys_of(rest)[i],
            #[trigger] keys_of(rest)[j],
        ) by {
            assert(text_less(keys[i], keys[j]));
        }
        lemma_entries_view(rest);
        assert forall|i: int| 0 <= i < entries.len() implies entries_view(entries).contains_key(
            (#[trigger] entries[i]).0@,
        ) && entries_view(entries)[entries[i].0@] == json_view(entries[i].1) by {
            if i < last {
                assert(rest[i] == entries[i]);
                assert(text_less(keys[i], keys[last]));
                lemma_text_less_irreflexive(keys[i]);
            }
        }
        assert forall|k: Seq<char>| #[trigger] entries_view(entries).contains_key(k) implies keys.contains(k) by {
            if k == entries.last().0@ {
                assert(keys[last] == k);
            } else {
                assert(entries_view(rest).contains_key(k));
                let m = choose|m: int| 0 <= m < keys_of(rest).len() && keys_of(rest)[m] == k;
                assert(keys[m] == k);
            }
        }
    }
}

/// The members of an object are those of its map.
pub proof fn lemma_members_view(members: StringMap<Json>)
    requires
        ascending(members.keys()),
    ensures
        forall|k: Seq<char>| #[trigger]
            members_view(members).contains_key(k) <==> members.at(k) is Some,
        forall|k: Seq<char>|
            members.at(k) is Some ==> #[trigger] members_view(members)[k] == json_view(members.at(k)->0),
{
    let entries = members.entries();
    let keys = members.keys();
    lemma_entries_view(entries);
    assert forall|k: Seq<char>|
        (#[trigger] members_view(members).contains_key(k) <==> members.at(k) is Some) && (members.at(k) is Some
            ==> members_view(members)[k] == json_view(members.at(k)->0)) by {
        if exists|i: int| 0 <= i < keys.len() && keys[i] == k {
            let m = choose|i: int| 0 <= i < keys.len() && keys[i] == k;
            assert(entries[m].0@ == k);
            lemma_lookup_at(keys, members.values(), m);
        }
    }
    assert forall|k: Seq<char>| members.at(k) is Some implies #[trigger] members_view(members)[k] == json_view(
        members.at(k)->0,
    ) by {
        assert(members_view(members).contains_key(k));
    }
}

/// Sets a member of an object under construction.
pub fn put(members: &mut StringMap<Json>, key: &str, value: Json)
    ensures
        members_view(*final(members)) == members_view(*old(members)).insert(key@, value@),
        forall|n: nat|
            n > 0 && readable(JsonView::Object(members_view(*old(members))), n) && readable(value@, (n - 1) as nat)
                ==> #[trigger] readable(JsonView::Object(members_view(*final(members))), n),
{
    let _before: usize = members.len();
    let ghost before = *members;
    members.insert(key.to_owned(), value);
    let _after: usize = members.len();
    proof {
        lemma_members_view(before);
        lemma_members_view(*members);
        assert(members_view(*members) =~= members_view(before).insert(key@, value@));
        assert forall|n: nat|
            n > 0 && readable(JsonView::Object(members_view(before)), n) && readable(value@, (n - 1) as nat)
                implies #[trigger] readable(JsonView::Object(members_view(*members)), n) by {
            law_a_member_more_is_read_back(members_view(before), key@, value@, n);
        }
    }
}

/// An object under construction, with no members yet.
pub fn no_members() -> (r: StringMap<Json>)
    ensures
        members_view(r) == Map::<Seq<char>, JsonView>::empty(),
        ordered(Json::Object(r)),
        forall|n: nat| n > 0 ==> #[trigger] readable(JsonView::Object(members_view(r)), n),
{
    let r = StringMap::new();
    assert(members_view(r) =~= Map::<Seq<char>, JsonView>::empty());
    r
}

impl Clone for Json {
    fn clone(&self) -> (r: Self)
        ensures
            r@ == self@,
            tokens(r) == tokens(*self),
            ordered(r),
        decreases self,
    {
        match self {
            Json::Null => Json::Null,
            Json::Bool(b) => Json::Bool(*b),
            Json::Unsigned(n) => Json::Unsigned(*n),
            Json::Negative(n) => Json::Negative(*n),
            Json::Float(s) => Json::Float(s.clone()),
            Json::Text(s) => Json::Text(s.clone()),
            Json::Array(items) => {
                let mut out: Vec<Json> = Vec::new();
                let mut i: usize = 0;
                while i < items.len()
                    invariant
                        i <= items@.len(),
                        *self == Json::Array(*items),
                        out@.len() == i,
                        forall|k: int|
                            0 <= k < i ==> json_view(#[trigger] out@[k]) == json_view(items@[k]) && ordered(out@[k]),
                        items_tokens(out@) == items_tokens(
                            items@.take(i as int),
                        ),
                    decreases items@.len() - i,
                {
                    assert(decreases_to!(self => self->Array_0));
                    assert(decreases_to!(items@ => items@[i as int]));
                    assert(decreases_to!(self->Array_0 => items@));
                    let copy = items[i].clone();
                    let ghost so_far = out@;
                    out.push(copy);
                    proof {
                        assert(out@.drop_last() =~= so_far);
                        assert(items@.take(i + 1).drop_last() =~= items@.take(i as int));
                    }
                    i = i + 1;
                }
                proof {
                    assert(items@.take(i as int) =~= items@);
                    let a = json_view(Json::Array(out))->Array_0;
                    let b = json_view(*self)->Array_0;
                    assert(a =~= b);
                }
                Json::Array(out)
            },
            Json::Object(members) => {
                let mut out: StringMap<Json> = StringMap::new();
                let count: usize = members.len();
                let mut i: usize = 0;
                while i < count
                    invariant
                        i <= count == members.entries().len(),
                        ascending(members.keys()),
                        *self == Json::Object(*members),
                        out.entries().len() == i,
                        forall|k: int|
                            0 <= k < i ==> (#[trigger] out.entries()[k]).0 == members.entries()[k].0 && json_view(
                                out.entries()[k].1,
                            ) == json_view(members.entries()[k].1) && ordered(out.entries()[k].1),
                        entries_tokens(out.entries()) == entries_tokens(
                            members.entries().take(i as int),
                        ),
                    decreases count - i,
                {
                    proof {
                        members.lemma_entries_decrease();
                        assert(decreases_to!(self => self->Object_0));
                        assert(decreases_to!(members.entries() => members.entries()[i as int]));
                        assert(decreases_to!(members.entries()[i as int] => members.entries()[i as int].1));
                    }
                    let key = members.key_at(i).clone();
                    let value = members.value_at(i).clone();
                    let ghost so_far = out.entries();
                    proof {
                        assert forall|k: int| 0 <= k < out.keys().len() implies text_less(
                            #[trigger] out.keys()[k],
                            key@,
                        ) by {
                            assert(out.keys()[k] == members.keys()[k]);
                            assert(key@ == members.keys()[i as int]);
                        }
                    }
                    out.insert(key, value);
                    proof {
                        assert(out.entries().drop_last() =~= so_far);
                        assert(members.entries().take(i + 1).drop_last() =~= members.entries().take(i as int));
                    }
                    i = i + 1;
                }
                let _same: usize = out.len();
                proof {
                    assert(members.entries().take(i as int) =~= members.entries());
                    assert(out.keys() =~= members.keys());
                    lemma_members_view(out);
                    lemma_members_view(*members);
                    assert forall|k: Seq<char>| members.at(k) is Some implies json_view(out.at(k)->0) == json_view(
                        #[trigger] members.at(k)->0,
                    ) by {
                        let m = choose|m: int| 0 <= m < members.keys().len() && members.keys()[m] == k;
                        lemma_lookup_at(members.keys(), members.values(), m);
                        lemma_lookup_at(out.keys(), out.values(), m);
                        assert(out.entries()[m].0 == members.entries()[m].0);
                    }
                    assert(members_view(out) =~= members_view(*members));
                }
                Json::Object(out)
            },
        }
    }
}

impl Json {
    /// The member of an object with this name. A value that is no object has none.
    pub fn get(&self, key: &str) -> (r: Option<&Json>)
        ensures
            match r {
                Some(v) => self@.member(key@) == Some(v@),
                None => self@.member(key@) is None,
            },
    {
        match self {
            Json::Object(members) => {
                let _count: usize = members.len();
                proof {
                    lemma_members_view(*members);
                    assert(self@->Object_0 == members_view(*members));
                    assert(members_view(*members).contains_key(key@) <==> members.at(key@) is Some);
                }
                members.get(key)
            },
            _ => None,
        }
    }

    /// The text that a string value holds.
    pub fn as_str(&self) -> (r: Option<&String>)
        ensures
            match r {
                Some(s) => self@.text() == Some(s@),
                None => self@.text() is None,
            },
    {
        match self {
            Json::Text(s) => Some(s),
            _ => None,
        }
    }

    /// The boolean that a value is.
    pub fn as_bool(&self) -> (r: Option<bool>)
        ensures
            r == self@.boolean(),
    {
        match self {
            Json::Bool(b) => Some(*b),
            _ => None,
        }
    }

    /// The unsigned integer that a value is.
    pub fn as_u64(&self) -> (r: Option<u64>)
        ensures
            r == self@.unsigned(),
    {
        match self {
            Json::Unsigned(n) => Some(*n),
            Json::Negative(n) if *n >= 0 => Some(*n as u64),
            _ => None,
        }
    }

    /// The items of an array.
    pub fn as_array(&self) -> (r: Option<&Vec<Json>>)
        ensures
            match r {
                Some(items) => self@ == JsonView::Array(Seq::new(items@.len(), |i: int| items@[i]@)),
                None => self@.items() is None,
            },
    {
        match self {
            Json::Array(items) => {
                assert(self@->Array_0 =~= Seq::new(items@.len(), |i: int| items@[i]@));
                Some(items)
            },
            _ => None,
        }
    }

    /// The members of an object.
    pub fn as_object(&self) -> (r: Option<&StringMap<Json>>)
        ensures
            match r {
                Some(members) => self@ == JsonView::Object(members_view(*members)),
                None => self@.members() is None,
            },
    {
        match self {
            Json::Object(members) => Some(members),
            _ => None,
        }
    }

    /// `s` as a JSON string.
    pub fn string(s: &str) -> (r: Json)
        ensures
            r@ == JsonView::Text(s@),
    {
        Json::Text(s.to_owned())
    }

    /// `s` as a JSON string, or `null` where there is none.
    pub fn string_or_null(s: &Option<String>) -> (r: Json)
        ensures
            r@ == text_or_null(opt_view(*s)),
    {
        match s {
            Some(s) => Json::Text(s.clone()),
            None => Json::Null,
        }
    }

    /// `n` as a JSON number.
    pub fn number(n: usize) -> (r: Json)
        ensures
            r@ == JsonView::Unsigned(n as u64),
    {
        Json::Unsigned(n as u64)
    }

    /// `v`, or `null` where there is none.
    pub fn or_null(v: Option<&Json>) -> (r: Json)
        ensures
            r@ == match v {
                Some(v) => v@,
                None => JsonView::Null,
            },
            tokens(r) == match v {
                Some(v) => tokens(*v),
                None => seq![Token::Null],
            },
            ordered(r),
            forall|n: nat| (v matches Some(v) ==> readable(v@, n)) ==> #[trigger] readable(r@, n),
    {
        match v {
            Some(v) => v.clone(),
            None => Json::Null,
        }
    }

    /// The texts of `list` as an array of JSON strings.
    pub fn strings(list: &Vec<String>) -> (r: Json)
        ensures
            r@ == text_array(views(list@)),
            tokens(r) == text_walk(views(list@)),
            forall|n: nat| n > 0 ==> #[trigger] readable(r@, n),
    {
        let mut out: Vec<Json> = Vec::new();
        let mut i: usize = 0;
        while i < list.len()
            invariant
                i <= list@.len(),
                out@.len() == i,
                forall|k: int| 0 <= k < i ==> json_view(#[trigger] out@[k]) == JsonView::Text(list@[k]@),
                items_tokens(out@) == Seq::new(i as nat, |k: int| Token::Text(list@[k]@)),
            decreases list@.len() - i,
        {
            let ghost so_far = out@;
            out.push(Json::Text(list[i].clone()));
            i = i + 1;
            proof {
                assert(out@.drop_last() =~= so_far);
                assert(tokens(out@.last()) == seq![Token::Text(list@[i - 1]@)]);
                assert(items_tokens(out@) == items_tokens(so_far) + tokens(out@.last()));
                assert(items_tokens(out@) =~= Seq::new(i as nat, |k: int| Token::Text(list@[k]@)));
            }
        }
        let r = Json::Array(out);
        assert(tokens(r) =~= text_walk(views(list@)));
        assert(r@->Array_0 =~= text_array(views(list@))->Array_0);
        assert forall|n: nat| n > 0 implies #[trigger] readable(r@, n) by {
            let items = r@->Array_0;
            assert forall|i: int| 0 <= i < items.len() implies readable(#[trigger] items[i], (n - 1) as nat) by {}
        }
        r
    }
}

/// The view of an optional text.
pub open spec fn opt_view(s: Option<String>) -> Option<Seq<char>> {
    match s {
        Some(s) => Some(s@),
        None => None,
    }
}

/// What a value says can be asked for by its kind: the member of an object by its
/// name, and the text, the boolean, the number, the items or the members that a value
/// is. A value of another kind says nothing to such a question.
pub proof fn law_values_answer_by_their_kind(v: JsonView, key: Seq<char>)
    ensures
        v.member(key) == match v {
            JsonView::Object(m) => if m.contains_key(key) {
                Some(m[key])
            } else {
                None
            },
            _ => None,
        },
        v.text() is Some <==> v is Text,
        v is Text ==> v == JsonView::Text(v.text()->0),
        v.boolean() is Some <==> v is Bool,
        v is Bool ==> v == JsonView::Bool(v.boolean()->0),
        v.unsigned() is Some <==> v is Unsigned,
        v is Unsigned ==> v == JsonView::Unsigned(v.unsigned()->0),
        v.items() is Some <==> v is Array,
        v is Array ==> v == JsonView::Array(v.items()->0),
        v.members() is Some <==> v is Object,
        v is Object ==> v == JsonView::Object(v.members()->0),
        or_null(Some(v)) == v,
        or_null(None) == JsonView::Null,
{
}

/// What a value says is what it holds: the same kind and the same contents, an array
/// item by item, and a number that is not negative as an unsigned one.
pub proof fn law_a_value_says_what_it_holds(j: Json)
    ensures
        match j {
            Json::Null => j@ == JsonView::Null,
            Json::Bool(b) => j@ == JsonView::Bool(b),
            Json::Unsigned(n) => j@ == JsonView::Unsigned(n),
            Json::Negative(n) => if n < 0 {
                j@ == JsonView::Negative(n)
            } else {
                j@ == JsonView::Unsigned(n as u64)
            },
            Json::Float(s) => j@ == JsonView::Float(s@),
            Json::Text(s) => j@ == JsonView::Text(s@),
            Json::Array(list) => j@ matches JsonView::Array(items) && items.len() == list@.len() && forall|i: int|
                0 <= i < items.len() ==> #[trigger] items[i] == list@[i]@,
            Json::Object(map) => j@ matches JsonView::Object(members) && (ascending(map.keys()) ==> (forall|
                k: Seq<char>,
            | #[trigger]
                members.contains_key(k) <==> map.at(k) is Some) && (forall|k: Seq<char>|
                map.at(k) is Some ==> #[trigger] members[k] == map.at(k)->0@)),
        },
{
    if let Json::Object(map) = j {
        if ascending(map.keys()) {
            lemma_members_view(map);
        }
    }
}

} // verus!
