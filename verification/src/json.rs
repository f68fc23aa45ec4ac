//! JSON values: what a `serde_json::Value` holds, and the calls that read, build and print one.

use vstd::prelude::*;

use crate::ordered_map::MapKey;
use crate::text::{text_less, texts};

verus! {

/// A JSON value as a tree.
#[verifier::ext_equal]
pub enum Json {
    /// `null`.
    Null,
    /// `true` or `false`.
    Bool(bool),
    /// A whole number.
    Int(int),
    /// A number with a fraction or an exponent, by the bits of its double.
    Float(u64),
    /// A string.
    Str(Seq<char>),
    /// A list of values.
    Array(Seq<Json>),
    /// Values by name.
    Object(Map<Seq<char>, Json>),
}

/// Whether `t` holds no floating-point number and nests at most `depth` arrays and objects.
pub open spec fn plain_within(t: Json, depth: nat) -> bool
    decreases depth,
{
    match t {
        Json::Float(_) => false,
        Json::Array(items) => depth > 0 && forall|i: int|
            0 <= i < items.len() ==> plain_within(#[trigger] items[i], (depth - 1) as nat),
        Json::Object(members) => depth > 0 && forall|k: Seq<char>| #[trigger]
            members.contains_key(k) ==> plain_within(members[k], (depth - 1) as nat),
        _ => true,
    }
}

/// Whether `t` is a number.
pub open spec fn is_number(t: Json) -> bool {
    t is Int || t is Float
}

/// How deep the parser lets arrays and objects nest.
pub const PARSE_DEPTH: u8 = 127;

/// The member `name` of an object.
pub open spec fn member_of(t: Json, name: Seq<char>) -> Option<Json> {
    match t {
        Json::Object(members) => if members.contains_key(name) {
            Some(members[name])
        } else {
            None
        },
        _ => None,
    }
}

/// The string that `t` is.
pub open spec fn text_in(t: Option<Json>) -> Option<Seq<char>> {
    match t {
        Some(Json::Str(s)) => Some(s),
        _ => None,
    }
}

/// The truth value that `t` is.
pub open spec fn bool_in(t: Option<Json>) -> Option<bool> {
    match t {
        Some(Json::Bool(b)) => Some(b),
        _ => None,
    }
}

/// The items of the array that `t` is.
pub open spec fn items_in(t: Option<Json>) -> Option<Seq<Json>> {
    match t {
        Some(Json::Array(items)) => Some(items),
        _ => None,
    }
}

/// The members of the object that `t` is.
pub open spec fn members_in(t: Option<Json>) -> Option<Map<Seq<char>, Json>> {
    match t {
        Some(Json::Object(members)) => Some(members),
        _ => None,
    }
}

/// The strings that an array holds; `None` for anything but an array of strings.
pub open spec fn texts_in(t: Json) -> Option<Seq<Seq<char>>> {
    match t {
        Json::Array(items) => if forall|i: int|
            0 <= i < items.len() ==> (#[trigger] items[i]) is Str {
            Some(items.map_values(|j: Json| j->Str_0))
        } else {
            None
        },
        _ => None,
    }
}

/// `serde_json::Value`: a JSON value.
#[verifier::external_type_specification]
#[verifier::external_body]
pub struct ExValue(serde_json::Value);

/// `serde_json::Map`: the members of a JSON object.
#[verifier::external_type_specification]
#[verifier::external_body]
#[verifier::reject_recursive_types(K)]
#[verifier::reject_recursive_types(V)]
pub struct ExMap<K, V>(serde_json::Map<K, V>);

/// The tree that a value holds.
pub uninterp spec fn json_of(value: serde_json::Value) -> Json;

/// The members that a map holds.
pub uninterp spec fn json_entries(members: serde_json::Map<String, serde_json::Value>) -> Map<
    Seq<char>,
    Json,
>;

/// What `serde_json::from_str` makes of a text: a value, or the message of its error.
pub uninterp spec fn json_parsed(text: Seq<char>) -> Result<Json, Seq<char>>;

/// The text that `serde_json::to_string` prints for a value.
pub uninterp spec fn json_text(value: Json) -> Seq<char>;

/// What `serde_json::from_str` makes of a text as a list of strings: the strings, or the
/// message of its error.
pub uninterp spec fn texts_parsed(text: Seq<char>) -> Result<Seq<Seq<char>>, Seq<char>>;

/// The text that `serde_json::to_string` prints for a list of strings.
pub uninterp spec fn texts_json(items: Seq<Seq<char>>) -> Seq<char>;

/// The trees of a sequence of values.
pub open spec fn trees(values: Seq<serde_json::Value>) -> Seq<Json> {
    values.map_values(|v: serde_json::Value| json_of(v))
}

/// The tree of an optional value.
pub open spec fn json_opt(value: Option<serde_json::Value>) -> Option<Json> {
    match value {
        Some(v) => Some(json_of(v)),
        None => None,
    }
}

/// `Value::as_str`: the string, of a string only.
pub assume_specification[ serde_json::Value::as_str ](value: &serde_json::Value) -> (r: Option<
    &str,
>)
    ensures
        match r {
            Some(s) => json_of(*value) == Json::Str(s@),
            None => !(json_of(*value) is Str),
        },
;

/// `Value::as_bool`: the truth value, of a boolean only.
pub assume_specification[ serde_json::Value::as_bool ](value: &serde_json::Value) -> (r: Option<
    bool,
>)
    ensures
        match r {
            Some(b) => json_of(*value) == Json::Bool(b),
            None => !(json_of(*value) is Bool),
        },
;

/// `Value::as_array`: the items, of an array only.
pub assume_specification[ serde_json::Value::as_array ](value: &serde_json::Value) -> (r: Option<
    &Vec<serde_json::Value>,
>)
    ensures
        match r {
            Some(items) => json_of(*value) == Json::Array(trees(items@)),
            None => !(json_of(*value) is Array),
        },
;

/// `Value::as_object`: the members, of an object only.
pub assume_specification[ serde_json::Value::as_object ](value: &serde_json::Value) -> (r: Option<
    &serde_json::Map<String, serde_json::Value>,
>)
    ensures
        match r {
            Some(members) => json_of(*value) == Json::Object(json_entries(*members)),
            None => !(json_of(*value) is Object),
        },
;

/// `Value::clone`: a value with the same tree.
#[verifier::external_body]
pub(crate) fn copy_json(value: &serde_json::Value) -> (r: serde_json::Value)
    ensures
        json_of(r) == json_of(*value),
{
    value.clone()
}

/// `Value::get` by name: the member of an object with that name.
#[verifier::external_body]
pub(crate) fn member<'a>(value: &'a serde_json::Value, name: &str) -> (r: Option<
    &'a serde_json::Value,
>)
    ensures
        match r {
            Some(v) => member_of(json_of(*value), name@) == Some(json_of(*v)),
            None => member_of(json_of(*value), name@) is None,
        },
{
    value.get(name)
}

/// `Map::get`: the member with that name.
#[verifier::external_body]
pub(crate) fn entry<'a>(
    members: &'a serde_json::Map<String, serde_json::Value>,
    name: &str,
) -> (r: Option<&'a serde_json::Value>)
    ensures
        match r {
            Some(v) => json_entries(*members).contains_key(name@) && json_entries(*members)[name@]
                == json_of(*v),
            None => !json_entries(*members).contains_key(name@),
        },
{
    members.get(name)
}

/// `Map::keys`: every name of a member once, in the order of the strings (the map is a
/// `BTreeMap`, as the feature that keeps the order of insertion is off).
#[verifier::external_body]
pub(crate) fn names(members: &serde_json::Map<String, serde_json::Value>) -> (r: Vec<String>)
    ensures
        forall|k: Seq<char>| #[trigger]
            json_entries(*members).contains_key(k) <==> texts(r@).contains(k),
        forall|i: int, j: int|
            0 <= i < j < r@.len() ==> text_less(#[trigger] r@[i]@, #[trigger] r@[j]@),
{
    members.keys().cloned().collect()
}

/// Whether `names` are the names of the members, each once, in order.
pub open spec fn lists_names(names: Seq<Seq<char>>, members: Map<Seq<char>, Json>) -> bool {
    &&& forall|k: Seq<char>| #[trigger] members.contains_key(k) <==> names.contains(k)
    &&& forall|i: int, j: int|
        0 <= i < j < names.len() ==> text_less(#[trigger] names[i], #[trigger] names[j])
}

/// The names of the members, in order.
pub open spec fn names_of(members: Map<Seq<char>, Json>) -> Seq<Seq<char>> {
    choose|names: Seq<Seq<char>>| lists_names(names, members)
}

proof fn lemma_names_below(
    a: Seq<Seq<char>>,
    b: Seq<Seq<char>>,
    members: Map<Seq<char>, Json>,
    i: int,
)
    requires
        lists_names(a, members),
        lists_names(b, members),
        0 <= i < a.len(),
        forall|j: int| 0 <= j < i ==> j < b.len() && #[trigger] a[j] == b[j],
    ensures
        i < b.len() && !text_less(a[i], b[i]),
{
    assert(a.contains(a[i]));
    assert(members.contains_key(a[i]));
    let k = b.index_of(a[i]);
    assert(b.contains(a[i]));
    assert(b[k] == a[i]);
    <String as MapKey>::key_irreflexive(a[i]);
    if k < i {
        assert(a[k] == b[k]);
        assert(text_less(a[k], a[i]));
    }
    if text_less(a[i], b[i]) {
        if i < k {
            <String as MapKey>::key_transitive(a[i], b[i], b[k]);
        }
    }
}

/// Only one sequence lists the names of an object.
pub proof fn lemma_names_unique(
    a: Seq<Seq<char>>,
    b: Seq<Seq<char>>,
    members: Map<Seq<char>, Json>,
)
    requires
        lists_names(a, members),
        lists_names(b, members),
    ensures
        a == b,
{
    lemma_names_prefix(a, b, members, a.len() as int);
    lemma_names_prefix(b, a, members, b.len() as int);
    assert(a =~= b);
}

proof fn lemma_names_prefix(
    a: Seq<Seq<char>>,
    b: Seq<Seq<char>>,
    members: Map<Seq<char>, Json>,
    n: int,
)
    requires
        lists_names(a, members),
        lists_names(b, members),
        0 <= n <= a.len(),
    ensures
        n <= b.len(),
        forall|j: int| 0 <= j < n ==> #[trigger] a[j] == b[j],
    decreases n,
{
    if n > 0 {
        lemma_names_prefix(a, b, members, n - 1);
        lemma_names_below(a, b, members, n - 1);
        assert forall|j: int| 0 <= j < n - 1 implies j < a.len() && #[trigger] b[j] == a[j] by {
            assert(a[j] == b[j]);
        }
        lemma_names_below(b, a, members, n - 1);
        <String as MapKey>::key_total(a[n - 1], b[n - 1]);
    }
}

/// The names of the members, in order.
pub(crate) fn member_names(members: &serde_json::Map<String, serde_json::Value>) -> (r: Vec<String>)
    ensures
        texts(r@) == names_of(json_entries(*members)),
        lists_names(texts(r@), json_entries(*members)),
{
    let r = names(members);
    proof {
        assert(lists_names(texts(r@), json_entries(*members)));
        lemma_names_unique(
            texts(r@),
            names_of(json_entries(*members)),
            json_entries(*members),
        );
    }
    r
}

/// `Map::new`: no members.
pub assume_specification[ serde_json::Map::<String, serde_json::Value>::new ]() -> (r:
    serde_json::Map<String, serde_json::Value>)
    ensures
        json_entries(r).dom() == Set::<Seq<char>>::empty(),
;

/// `Map::insert`: the member with that name is now this value.
pub assume_specification[ serde_json::Map::<String, serde_json::Value>::insert ](
    members: &mut serde_json::Map<String, serde_json::Value>,
    name: String,
    value: serde_json::Value,
) -> (r: Option<serde_json::Value>)
    ensures
        json_entries(*final(members)) == json_entries(*old(members)).insert(name@, json_of(value)),
        match r {
            Some(v) => json_entries(*old(members)).contains_key(name@) && json_of(v)
                == json_entries(*old(members))[name@],
            None => !json_entries(*old(members)).contains_key(name@),
        },
;

/// `Value::Null`.
#[verifier::external_body]
pub(crate) fn null() -> (r: serde_json::Value)
    ensures
        json_of(r) == Json::Null,
{
    serde_json::Value::Null
}

/// `Value::Bool`.
#[verifier::external_body]
pub(crate) fn boolean(b: bool) -> (r: serde_json::Value)
    ensures
        json_of(r) == Json::Bool(b),
{
    serde_json::Value::Bool(b)
}

/// `Value::Number` of an `i64`.
#[verifier::external_body]
pub(crate) fn integer(n: i64) -> (r: serde_json::Value)
    ensures
        json_of(r) == Json::Int(n as int),
{
    serde_json::Value::Number(n.into())
}

/// `Value::Number` of a `u64`.
#[verifier::external_body]
pub(crate) fn natural(n: u64) -> (r: serde_json::Value)
    ensures
        json_of(r) == Json::Int(n as int),
{
    serde_json::Value::Number(n.into())
}

/// `Value::String`.
#[verifier::external_body]
pub(crate) fn string(s: String) -> (r: serde_json::Value)
    ensures
        json_of(r) == Json::Str(s@),
{
    serde_json::Value::String(s)
}

/// `Value::Array`.
#[verifier::external_body]
pub(crate) fn array(items: Vec<serde_json::Value>) -> (r: serde_json::Value)
    ensures
        json_of(r) == Json::Array(trees(items@)),
{
    serde_json::Value::Array(items)
}

/// `Value::Object`.
#[verifier::external_body]
pub(crate) fn object(members: serde_json::Map<String, serde_json::Value>) -> (r: serde_json::Value)
    ensures
        json_of(r) == Json::Object(json_entries(members)),
{
    serde_json::Value::Object(members)
}

/// `serde_json::from_str` as a value; an error is its message.
#[verifier::external_body]
pub(crate) fn parse(text: &str) -> (r: Result<serde_json::Value, String>)
    ensures
        match r {
            Ok(v) => json_parsed(text@) == Ok::<Json, Seq<char>>(json_of(v)),
            Err(e) => json_parsed(text@) == Err::<Json, Seq<char>>(e@),
        },
{
    serde_json::from_str::<serde_json::Value>(text).map_err(|e| e.to_string())
}

/// `serde_json::to_string` of a value. It prints every value, and the text reads back as the
/// same value: stated where the value holds no floating-point number, whose digits may read
/// back as a neighbour, and nests no deeper than the parser goes. The text of anything but a
/// number ends where the value ends: no part of it that stops earlier is JSON.
#[verifier::external_body]
pub(crate) fn print(value: &serde_json::Value) -> (r: Result<String, String>)
    ensures
        match r {
            Ok(s) => {
                &&& s@ == json_text(json_of(*value))
                &&& plain_within(json_of(*value), PARSE_DEPTH as nat) ==> json_parsed(s@) == Ok::<
                    Json,
                    Seq<char>,
                >(json_of(*value))
                &&& !is_number(json_of(*value)) ==> forall|n: int|
                    0 <= n < s@.len() ==> json_parsed(#[trigger] s@.take(n)) is Err
            },
            Err(_) => false,
        },
{
    serde_json::to_string(value).map_err(|e| e.to_string())
}

/// `serde_json::from_str` as a list of strings; an error is its message.
#[verifier::external_body]
pub(crate) fn parse_texts(text: &str) -> (r: Result<Vec<String>, String>)
    ensures
        match r {
            Ok(v) => texts_parsed(text@) == Ok::<Seq<Seq<char>>, Seq<char>>(texts(v@)),
            Err(e) => texts_parsed(text@) == Err::<Seq<Seq<char>>, Seq<char>>(e@),
        },
{
    serde_json::from_str::<Vec<String>>(text).map_err(|e| e.to_string())
}

/// `serde_json::to_string` of a list of strings. It prints every list, and the text reads
/// back as the same list.
#[verifier::external_body]
pub(crate) fn print_texts(items: &Vec<String>) -> (r: Result<String, String>)
    ensures
        match r {
            Ok(s) => {
                &&& s@ == texts_json(texts(items@))
                &&& texts_parsed(s@) == Ok::<Seq<Seq<char>>, Seq<char>>(texts(items@))
            },
            Err(_) => false,
        },
{
    serde_json::to_string(items).map_err(|e| e.to_string())
}

/// `serde_json::from_value` as a list of strings: the items of an array of strings only.
#[verifier::external_body]
pub(crate) fn texts_from_value(value: serde_json::Value) -> (r: Option<Vec<String>>)
    ensures
        match r {
            Some(v) => texts_in(json_of(value)) == Some(texts(v@)),
            None => texts_in(json_of(value)) is None,
        },
{
    serde_json::from_value::<Vec<String>>(value).ok()
}

/// A value gives what it is, and only as what it is: a string its text, a truth value itself, an
/// array its items, an object its members, and an object each of them by its name.
pub proof fn law_values_are_told_by_their_kind(
    t: Json,
    text: Seq<char>,
    truth: bool,
    items: Seq<Json>,
    members: Map<Seq<char>, Json>,
    name: Seq<char>,
    names: Seq<Seq<char>>,
)
    ensures
        text_in(Some(t)) == Some(text) <==> t == Json::Str(text),
        bool_in(Some(t)) == Some(truth) <==> t == Json::Bool(truth),
        items_in(Some(t)) == Some(items) <==> t == Json::Array(items),
        members_in(Some(t)) == Some(members) <==> t == Json::Object(members),
        text_in(None) is None && bool_in(None) is None && items_in(None) is None && members_in(None)
            is None,
        members.contains_key(name) ==> member_of(Json::Object(members), name) == Some(
            members[name],
        ),
        !members.contains_key(name) ==> member_of(Json::Object(members), name) is None,
        !(t is Object) ==> member_of(t, name) is None,
        !(t is Array) ==> texts_in(t) is None,
        (items.len() == names.len() && forall|i: int|
            0 <= i < items.len() ==> #[trigger] items[i] == Json::Str(names[i])) ==> texts_in(
            Json::Array(items),
        ) == Some(names),
        (exists|i: int| 0 <= i < items.len() && !((#[trigger] items[i]) is Str)) ==> texts_in(
            Json::Array(items),
        ) is None,
        PARSE_DEPTH == 127,
{
    if items.len() == names.len() && forall|i: int|
        0 <= i < items.len() ==> #[trigger] items[i] == Json::Str(names[i]) {
        assert(items.map_values(|j: Json| j->Str_0) =~= names);
    }
}

} // verus!
