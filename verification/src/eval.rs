//! What is made of the value at an attribute path.

use vstd::prelude::*;

use crate::config::WorkerConfig;
use crate::error::ErrorChain;
use crate::json::{
    array, boolean, copy_json, entry, integer, json_entries, json_of, json_opt, json_parsed, member,
    member_names, member_of, members_in, names_of, null, object, parse, plain_within, string,
    texts_from_value, texts_in, trees, Json,
};
use crate::model::{
    input_drvs_view, outputs_view, texts_opt, Derivation, DerivationView, EvalError, EvalErrorView,
    Event, EventView,
};
use crate::ordered_map::{copy_texts, OrderedMap};
use crate::scheduler::{attr_of, display_attr};
use crate::text::{concat3, has_prefix, same, starts_with, text_opt, texts};

verus! {

/// How deep an attribute path may go.
pub const MAX_TRAVERSAL_DEPTH: usize = 64;

/// How deep a `meta` attribute is read.
pub const META_DEPTH: u32 = 64;

/// The attribute that asks for the children of an attribute set.
pub const RECURSE_ATTR: &'static str = "recurseForDerivations";

/// What an evaluation attaches to its derivations.
#[derive(Debug)]
pub struct EvalOptions {
    /// Recurse into all attribute sets.
    pub force_recurse: bool,
    /// Where to register garbage-collector roots.
    pub gc_roots_dir: Option<String>,
    /// Attach `meta` attributes.
    pub meta: bool,
    /// Attach input derivations.
    pub show_input_drvs: bool,
}

impl EvalOptions {
    /// The options that a worker's configuration gives.
    pub fn of_config(config: &WorkerConfig) -> (r: Self)
        ensures
            r.force_recurse == config.force_recurse,
            r.gc_roots_dir == config.gc_roots_dir,
            r.meta == config.meta,
            r.show_input_drvs == config.show_input_drvs,
    {
        EvalOptions {
            force_recurse: config.force_recurse,
            gc_roots_dir: config.gc_roots_dir.clone(),
            meta: config.meta,
            show_input_drvs: config.show_input_drvs,
        }
    }
}

/// One move from the root towards the value at an attribute path.
#[derive(Debug)]
pub enum Move {
    /// Take the attribute with this name.
    Attr(String),
    /// Call the value with the automatic arguments if it is a function.
    Call,
}

/// What a [`Move`] says.
pub enum MoveView {
    /// See [`Move::Attr`].
    Attr(Seq<char>),
    /// See [`Move::Call`].
    Call,
}

impl View for Move {
    type V = MoveView;

    open spec fn view(&self) -> MoveView {
        match *self {
            Move::Attr(name) => MoveView::Attr(name@),
            Move::Call => MoveView::Call,
        }
    }
}

/// The moves of a list.
pub open spec fn moves_view(moves: Seq<Move>) -> Seq<MoveView> {
    moves.map_values(|m: Move| m@)
}

/// The moves along a path: each name, and a call of what it names; the root itself is called
/// only where the path is empty.
pub open spec fn moves_along(path: Seq<Seq<char>>) -> Seq<MoveView> {
    if path.len() == 0 {
        seq![MoveView::Call]
    } else {
        descent(path)
    }
}

/// Each name of the path, followed by a call.
pub open spec fn descent(path: Seq<Seq<char>>) -> Seq<MoveView>
    decreases path.len(),
{
    if path.len() == 0 {
        Seq::empty()
    } else {
        descent(path.drop_last()).push(MoveView::Attr(path.last())).push(MoveView::Call)
    }
}

/// How to get from the root to the value at `path`.
pub fn navigate(path: &[String]) -> (r: Vec<Move>)
    ensures
        moves_view(r@) == moves_along(texts(path@)),
{
    let mut out: Vec<Move> = Vec::new();
    if path.len() == 0 {
        out.push(Move::Call);
        proof {
            assert(moves_view(out@) =~= moves_along(texts(path@)));
        }
        return out;
    }
    let mut i: usize = 0;
    let ghost names = texts(path@);
    proof {
        assert(names.take(0).len() == 0);
        assert(moves_view(out@) =~= descent(names.take(0)));
    }
    while i < path.len()
        invariant
            i <= path.len(),
            names == texts(path@),
            moves_view(out@) == descent(names.take(i as int)),
        decreases path.len() - i,
    {
        let ghost before = moves_view(out@);
        out.push(Move::Attr(path[i].clone()));
        out.push(Move::Call);
        proof {
            let next = names.take(i + 1);
            assert(next.drop_last() =~= names.take(i as int));
            assert(next.last() == path@[i as int]@);
            assert(moves_view(out@) =~= before.push(MoveView::Attr(path@[i as int]@)).push(
                MoveView::Call,
            ));
        }
        i += 1;
    }
    proof {
        assert(names.take(i as int) =~= names);
    }
    out
}

/// A value as far as it could be forced. What could not be read is `None`.
#[derive(Debug)]
pub enum NixData {
    /// A value that could not be forced, or that has no counterpart: a thunk, a function or
    /// an external value.
    Opaque,
    /// The null value.
    Null,
    /// A truth value.
    Bool(Option<bool>),
    /// A whole number.
    Int(Option<i64>),
    /// A floating-point number as a JSON number; `None` also where it is not finite.
    Float(Option<serde_json::Value>),
    /// A string.
    Str(Option<String>),
    /// A path.
    Path(Option<String>),
    /// A list.
    List(Option<Vec<Option<NixData>>>),
    /// An attribute set.
    Attrs(Option<Vec<(String, Option<NixData>)>>),
}

/// The value as JSON, at most `depth` deep: what cannot be read is left out of an attribute
/// set and is null in a list; a list with an item that cannot be taken has no JSON.
pub open spec fn json_of_data(data: NixData, depth: nat) -> Option<Json>
    decreases depth, 0nat, 0nat,
{
    if depth == 0 {
        None
    } else {
        match data {
            NixData::Opaque => None,
            NixData::Null => Some(Json::Null),
            NixData::Bool(b) => match b {
                Some(b) => Some(Json::Bool(b)),
                None => None,
            },
            NixData::Int(n) => match n {
                Some(n) => Some(Json::Int(n as int)),
                None => None,
            },
            NixData::Float(v) => json_opt(v),
            NixData::Str(s) => match s {
                Some(s) => Some(Json::Str(s@)),
                None => None,
            },
            NixData::Path(s) => match s {
                Some(s) => Some(Json::Str(s@)),
                None => None,
            },
            NixData::List(items) => match items {
                Some(items) => if forall|i: int|
                    0 <= i < items@.len() ==> (#[trigger] items@[i]) is Some {
                    Some(Json::Array(items_json(items@, (depth - 1) as nat)))
                } else {
                    None
                },
                None => None,
            },
            NixData::Attrs(members) => match members {
                Some(members) => Some(
                    Json::Object(members_json(members@, (depth - 1) as nat)),
                ),
                None => None,
            },
        }
    }
}

/// An item of a list as JSON.
pub open spec fn item_json(data: NixData, depth: nat) -> Json
    decreases depth, 1nat, 0nat,
{
    match json_of_data(data, depth) {
        Some(t) => t,
        None => Json::Null,
    }
}

/// The items of a list as JSON.
pub open spec fn items_json(items: Seq<Option<NixData>>, depth: nat) -> Seq<Json>
    decreases depth, 2nat, 0nat,
{
    Seq::new(items.len(), |i: int| item_json(items[i]->Some_0, depth))
}

/// The members of an attribute set as JSON.
pub open spec fn members_json(members: Seq<(String, Option<NixData>)>, depth: nat) -> Map<
    Seq<char>,
    Json,
>
    decreases depth, 1nat, members.len(),
{
    if members.len() == 0 {
        Map::empty()
    } else {
        let rest = members_json(members.drop_last(), depth);
        match members.last().1 {
            Some(data) => match json_of_data(data, depth) {
                Some(t) => rest.insert(members.last().0@, t),
                None => rest,
            },
            None => rest,
        }
    }
}

/// The value as JSON.
pub fn value_to_json(data: &NixData, depth_remaining: u32) -> (r: Option<serde_json::Value>)
    ensures
        json_opt(r) == json_of_data(*data, depth_remaining as nat),
    decreases depth_remaining,
{
    if depth_remaining == 0 {
        return None;
    }
    match data {
        NixData::Opaque => None,
        NixData::Null => Some(null()),
        NixData::Bool(b) => match b {
            Some(b) => Some(boolean(*b)),
            None => None,
        },
        NixData::Int(n) => match n {
            Some(n) => Some(integer(*n)),
            None => None,
        },
        NixData::Float(v) => match v {
            Some(v) => Some(copy_json(v)),
            None => None,
        },
        NixData::Str(s) => match s {
            Some(s) => Some(string(s.clone())),
            None => None,
        },
        NixData::Path(s) => match s {
            Some(s) => Some(string(s.clone())),
            None => None,
        },
        NixData::List(items) => match items {
            Some(items) => list_to_json(items, depth_remaining),
            None => None,
        },
        NixData::Attrs(members) => match members {
            Some(members) => Some(attrs_to_json(members, depth_remaining)),
            None => None,
        },
    }
}

fn list_to_json(items: &Vec<Option<NixData>>, depth_remaining: u32) -> (r: Option<
    serde_json::Value,
>)
    requires
        depth_remaining > 0,
    ensures
        json_opt(r) == (if forall|i: int| 0 <= i < items@.len() ==> (#[trigger] items@[i]) is Some {
            Some(Json::Array(items_json(items@, (depth_remaining - 1) as nat)))
        } else {
            None
        }),
    decreases depth_remaining, 0nat,
{
    let ghost all = items_json(items@, (depth_remaining - 1) as nat);
    let mut out: Vec<serde_json::Value> = Vec::new();
    let mut i: usize = 0;
    while i < items.len()
        invariant
            i <= items.len(),
            depth_remaining > 0,
            all == items_json(items@, (depth_remaining - 1) as nat),
            trees(out@) == all.take(i as int),
            forall|j: int| 0 <= j < i ==> (#[trigger] items@[j]) is Some,
        decreases items.len() - i,
    {
        match &items[i] {
            None => {
                proof {
                    assert(!(items@[i as int] is Some));
                }
                return None;
            },
            Some(item) => {
                let ghost before = trees(out@);
                let value = match value_to_json(item, depth_remaining - 1) {
                    Some(value) => value,
                    None => null(),
                };
                out.push(value);
                proof {
                    assert(trees(out@) =~= before.push(json_of(value)));
                    assert(all.take(i + 1) =~= all.take(i as int).push(all[i as int]));
                }
            },
        }
        i += 1;
    }
    proof {
        assert(all.take(i as int) =~= all);
    }
    Some(array(out))
}

fn attrs_to_json(members: &Vec<(String, Option<NixData>)>, depth_remaining: u32) -> (r:
    serde_json::Value)
    requires
        depth_remaining > 0,
    ensures
        json_of(r) == Json::Object(members_json(members@, (depth_remaining - 1) as nat)),
    decreases depth_remaining, 0nat,
{
    let mut out = serde_json::Map::<String, serde_json::Value>::new();
    let mut i: usize = 0;
    let ghost depth = (depth_remaining - 1) as nat;
    proof {
        assert(members@.take(0).len() == 0);
        assert(json_entries(out) =~= members_json(members@.take(0), depth));
    }
    while i < members.len()
        invariant
            i <= members.len(),
            depth_remaining > 0,
            depth == (depth_remaining - 1) as nat,
            json_entries(out) == members_json(members@.take(i as int), depth),
        decreases members.len() - i,
    {
        proof {
            let next = members@.take(i + 1);
            assert(next.drop_last() =~= members@.take(i as int));
            assert(next.last() == members@[i as int]);
        }
        if let Some(child) = &members[i].1 {
            if let Some(value) = value_to_json(child, depth_remaining - 1) {
                let _ = out.insert(members[i].0.clone(), value);
            }
        }
        i += 1;
    }
    proof {
        assert(members@.take(i as int) =~= members@);
    }
    object(out)
}

/// Whether no floating-point number stands in the part of the value that is read.
pub open spec fn float_free(data: NixData, depth: nat) -> bool
    decreases depth,
{
    depth == 0 || match data {
        NixData::Float(v) => v is None,
        NixData::List(Some(items)) => forall|i: int|
            0 <= i < items@.len() ==> ((#[trigger] items@[i]) matches Some(d) ==> float_free(
                d,
                (depth - 1) as nat,
            )),
        NixData::Attrs(Some(members)) => forall|i: int|
            0 <= i < members@.len() ==> ((#[trigger] members@[i]).1 matches Some(d) ==> float_free(
                d,
                (depth - 1) as nat,
            )),
        _ => true,
    }
}

/// The JSON of a value nests no deeper than the value was read, and holds no floating-point
/// number where the value holds none.
pub proof fn law_json_depth(data: NixData, depth: nat)
    requires
        float_free(data, depth),
        json_of_data(data, depth) is Some,
    ensures
        plain_within(json_of_data(data, depth)->Some_0, depth),
    decreases depth, 0nat,
{
    match data {
        NixData::List(Some(items)) => {
            let out = items_json(items@, (depth - 1) as nat);
            assert forall|i: int| 0 <= i < out.len() implies plain_within(
                #[trigger] out[i],
                (depth - 1) as nat,
            ) by {
                let d = items@[i]->Some_0;
                assert(items@[i] is Some);
                if json_of_data(d, (depth - 1) as nat) is Some {
                    law_json_depth(d, (depth - 1) as nat);
                }
            }
            assert(json_of_data(data, depth)->Some_0 == Json::Array(out));
            assert(plain_within(Json::Array(out), depth));
        },
        NixData::Attrs(Some(members)) => {
            lemma_members_depth(members@, (depth - 1) as nat);
            let out = members_json(members@, (depth - 1) as nat);
            assert(json_of_data(data, depth)->Some_0 == Json::Object(out));
            assert(plain_within(Json::Object(out), depth));
        },
        _ => {},
    }
}

proof fn lemma_members_depth(members: Seq<(String, Option<NixData>)>, depth: nat)
    requires
        forall|i: int|
            0 <= i < members.len() ==> ((#[trigger] members[i]).1 matches Some(d) ==> float_free(
                d,
                depth,
            )),
    ensures
        forall|k: Seq<char>| #[trigger]
            members_json(members, depth).contains_key(k) ==> plain_within(
                members_json(members, depth)[k],
                depth,
            ),
    decreases depth, 1nat, members.len(),
{
    if members.len() > 0 {
        let init = members.drop_last();
        assert forall|i: int| 0 <= i < init.len() implies ((#[trigger] init[i]).1 matches Some(d)
            ==> float_free(d, depth)) by {
            assert(init[i] == members[i]);
        }
        lemma_members_depth(init, depth);
        assert(members.last() == members[members.len() - 1]);
        let rest = members_json(init, depth);
        let out = members_json(members, depth);
        assert forall|k: Seq<char>| #[trigger] out.contains_key(k) implies plain_within(
            out[k],
            depth,
        ) by {
            if rest.contains_key(k) {
                assert(plain_within(rest[k], depth));
            }
            if let Some(d) = members.last().1 {
                if json_of_data(d, depth) is Some {
                    law_json_depth(d, depth);
                }
            }
        }
    }
}

/// What could be read of one entry of a derivation's `outputs`.
pub struct OutputFacts {
    /// The output's name.
    pub name: String,
    /// The attribute of that name; `None` where there is none.
    pub value: Option<OutputValue>,
}

/// What could be read of an output attribute.
pub struct OutputValue {
    /// Its `outPath`, as a string.
    pub out_path: Option<String>,
    /// The attribute itself, as a string.
    pub as_string: Option<String>,
    /// The attribute itself, as a path.
    pub as_path: Option<String>,
}

/// The store path of an output: its `outPath`, else the attribute as a string or as a path.
pub open spec fn output_path(value: Option<OutputValue>) -> Option<Seq<char>> {
    match value {
        None => None,
        Some(v) => if v.out_path is Some {
            text_opt(v.out_path)
        } else if v.as_string is Some {
            text_opt(v.as_string)
        } else {
            text_opt(v.as_path)
        },
    }
}

/// The store path of each output; a later output replaces an earlier one of its name.
pub open spec fn outputs_of(list: Seq<Option<OutputFacts>>) -> Map<Seq<char>, Option<Seq<char>>>
    decreases list.len(),
{
    if list.len() == 0 {
        Map::empty()
    } else {
        let rest = outputs_of(list.drop_last());
        match list.last() {
            Some(facts) => rest.insert(facts.name@, output_path(facts.value)),
            None => rest,
        }
    }
}

/// The store path of a single output.
pub fn output_path_for(value: &Option<OutputValue>) -> (r: Option<String>)
    ensures
        text_opt(r) == output_path(*value),
{
    match value {
        None => None,
        Some(v) => {
            if let Some(path) = &v.out_path {
                return Some(path.clone());
            }
            if let Some(s) = &v.as_string {
                return Some(s.clone());
            }
            v.as_path.clone()
        },
    }
}

/// The store path of each output of a derivation. `list` is its `outputs`, with `None` for an
/// entry that could not be read; without a list there are no outputs.
pub fn output_paths(list: &Option<Vec<Option<OutputFacts>>>) -> (r: OrderedMap<
    String,
    Option<String>,
>)
    ensures
        outputs_view(r@) == match *list {
            Some(list) => outputs_of(list@),
            None => Map::empty(),
        },
{
    let mut map: OrderedMap<String, Option<String>> = OrderedMap::new();
    proof {
        assert(outputs_view(map@) =~= Map::empty());
    }
    match list {
        None => map,
        Some(list) => {
            let mut i: usize = 0;
            proof {
                assert(list@.take(0).len() == 0);
            }
            while i < list.len()
                invariant
                    i <= list.len(),
                    outputs_view(map@) == outputs_of(list@.take(i as int)),
                decreases list.len() - i,
            {
                let ghost before = map@;
                proof {
                    let next = list@.take(i + 1);
                    assert(next.drop_last() =~= list@.take(i as int));
                    assert(next.last() == list@[i as int]);
                }
                if let Some(facts) = &list[i] {
                    let path = output_path_for(&facts.value);
                    map.insert(facts.name.clone(), path);
                    proof {
                        assert(outputs_view(map@) =~= outputs_view(before).insert(
                            facts.name@,
                            output_path(facts.value),
                        ));
                    }
                }
                i += 1;
            }
            proof {
                assert(list@.take(i as int) =~= list@);
            }
            map
        },
    }
}

/// The `meta` attribute as JSON; `None` where the derivation has none.
pub fn read_meta(meta: &Option<NixData>) -> (r: Option<serde_json::Value>)
    ensures
        json_opt(r) == match *meta {
            Some(data) => json_of_data(data, META_DEPTH as nat),
            None => None,
        },
{
    match meta {
        Some(data) => value_to_json(data, META_DEPTH),
        None => None,
    }
}

/// The strings of a list, without the items that are none.
pub open spec fn readable(items: Seq<Option<String>>) -> Seq<Seq<char>>
    decreases items.len(),
{
    if items.len() == 0 {
        Seq::empty()
    } else {
        let rest = readable(items.drop_last());
        match items.last() {
            Some(s) => rest.push(s@),
            None => rest,
        }
    }
}

/// The constituents of an aggregate job; `None` where the derivation has no such list.
pub fn read_constituents(items: &Option<Vec<Option<String>>>) -> (r: Option<Vec<String>>)
    ensures
        texts_opt(r) == match *items {
            Some(items) => Some(readable(items@)),
            None => None,
        },
{
    match items {
        None => None,
        Some(items) => {
            let mut out: Vec<String> = Vec::new();
            let mut i: usize = 0;
            proof {
                assert(items@.take(0).len() == 0);
                assert(texts(out@) =~= readable(items@.take(0)));
            }
            while i < items.len()
                invariant
                    i <= items.len(),
                    texts(out@) == readable(items@.take(i as int)),
                decreases items.len() - i,
            {
                let ghost before = texts(out@);
                proof {
                    let next = items@.take(i + 1);
                    assert(next.drop_last() =~= items@.take(i as int));
                    assert(next.last() == items@[i as int]);
                }
                if let Some(s) = &items[i] {
                    out.push(s.clone());
                    proof {
                        assert(texts(out@) =~= before.push(s@));
                    }
                }
                i += 1;
            }
            proof {
                assert(items@.take(i as int) =~= items@);
            }
            Some(out)
        },
    }
}

/// The outputs used of an input derivation: its `outputs`, or the value itself.
pub open spec fn outputs_used(value: Json) -> Option<Seq<Seq<char>>> {
    match member_of(value, "outputs"@) {
        Some(outputs) => texts_in(outputs),
        None => texts_in(value),
    }
}

/// The outputs used of an input derivation.
pub fn input_drv_outputs(value: &serde_json::Value) -> (r: Option<Vec<String>>)
    ensures
        texts_opt(r) == outputs_used(json_of(*value)),
{
    match member(value, "outputs") {
        Some(outputs) => texts_from_value(copy_json(outputs)),
        None => texts_from_value(copy_json(value)),
    }
}

/// The absolute path of an input derivation.
pub open spec fn store_path(dir: Seq<char>, key: Seq<char>) -> Seq<char> {
    if has_prefix(key, "/"@) {
        key
    } else {
        dir + "/"@ + key
    }
}

/// The input derivations that are named, in this order, each with its outputs; those whose
/// outputs cannot be read are left out.
pub open spec fn inputs_named(
    names: Seq<Seq<char>>,
    drvs: Map<Seq<char>, Json>,
    dir: Seq<char>,
) -> Map<Seq<char>, Seq<Seq<char>>>
    decreases names.len(),
{
    if names.len() == 0 {
        Map::empty()
    } else {
        let rest = inputs_named(names.drop_last(), drvs, dir);
        match outputs_used(drvs[names.last()]) {
            Some(outputs) => rest.insert(store_path(dir, names.last()), outputs),
            None => rest,
        }
    }
}

/// The members of the object at `inputs.drvs`.
pub open spec fn drvs_in(root: Json) -> Option<Map<Seq<char>, Json>> {
    match member_of(root, "inputs"@) {
        Some(inputs) => members_in(member_of(inputs, "drvs"@)),
        None => None,
    }
}

/// The store directory where the store does not say.
pub open spec fn default_store_dir() -> Seq<char> {
    "/nix/store"@
}

/// The input derivations that a derivation's JSON names.
pub open spec fn inputs_in(root: Json, dir: Seq<char>) -> Map<Seq<char>, Seq<Seq<char>>> {
    match drvs_in(root) {
        Some(drvs) => inputs_named(names_of(drvs), drvs, dir),
        None => Map::empty(),
    }
}

/// The input derivations of a parsed derivation, each with the outputs used.
pub fn input_drvs_of(root: &serde_json::Value, store_dir: &str) -> (r: OrderedMap<
    String,
    Vec<String>,
>)
    ensures
        input_drvs_view(r@) == inputs_in(json_of(*root), store_dir@),
{
    let mut map: OrderedMap<String, Vec<String>> = OrderedMap::new();
    proof {
        assert(input_drvs_view(map@) =~= Map::empty());
    }
    let inputs = match member(root, "inputs") {
        Some(inputs) => inputs,
        None => {
            return map;
        },
    };
    let found = match member(inputs, "drvs") {
        Some(found) => found,
        None => {
            return map;
        },
    };
    let drvs = match found.as_object() {
        Some(drvs) => drvs,
        None => {
            return map;
        },
    };
    let keys = member_names(drvs);
    let mut i: usize = 0;
    let ghost all = texts(keys@);
    proof {
        assert(all.take(0).len() == 0);
        reveal_strlit("/");
    }
    while i < keys.len()
        invariant
            i <= keys.len(),
            all == texts(keys@),
            crate::json::lists_names(all, json_entries(*drvs)),
            input_drvs_view(map@) == inputs_named(
                all.take(i as int),
                json_entries(*drvs),
                store_dir@,
            ),
        decreases keys.len() - i,
    {
        let ghost before = map@;
        let key = &keys[i];
        proof {
            let next = all.take(i + 1);
            assert(next.drop_last() =~= all.take(i as int));
            assert(next.last() == key@);
            assert(all.contains(all[i as int]));
            assert(json_entries(*drvs).contains_key(key@));
        }
        let full_path = if starts_with(key.as_str(), "/") {
            key.clone()
        } else {
            concat3(store_dir, "/", key.as_str())
        };
        if let Some(value) = entry(drvs, key.as_str()) {
            if let Some(outputs) = input_drv_outputs(value) {
                map.insert(full_path, outputs);
                proof {
                    assert(input_drvs_view(map@) =~= input_drvs_view(before).insert(
                        full_path@,
                        texts(outputs@),
                    ));
                }
            }
        }
        i += 1;
    }
    proof {
        assert(all.take(i as int) =~= all);
    }
    map
}

/// The input derivations that a derivation's text names.
pub open spec fn inputs_read(
    drv_json: Option<Seq<char>>,
    store_dir: Option<Seq<char>>,
) -> Map<Seq<char>, Seq<Seq<char>>> {
    match drv_json {
        None => Map::empty(),
        Some(text) => match json_parsed(text) {
            Err(_) => Map::empty(),
            Ok(root) => inputs_in(
                root,
                match store_dir {
                    Some(dir) => dir,
                    None => default_store_dir(),
                },
            ),
        },
    }
}

/// The input derivations of a derivation, from its JSON form and the store's directory. A
/// derivation that could not be read or printed, or whose text is no JSON, has none.
pub fn read_input_drvs(drv_json: &Option<String>, store_dir: &Option<String>) -> (r: OrderedMap<
    String,
    Vec<String>,
>)
    ensures
        input_drvs_view(r@) == inputs_read(text_opt(*drv_json), text_opt(*store_dir)),
{
    let empty: OrderedMap<String, Vec<String>> = OrderedMap::new();
    proof {
        assert(input_drvs_view(empty@) =~= Map::empty());
    }
    match drv_json {
        None => empty,
        Some(text) => match parse(text.as_str()) {
            Err(_) => empty,
            Ok(root) => {
                let dir: &str = match store_dir {
                    Some(dir) => dir.as_str(),
                    None => "/nix/store",
                };
                input_drvs_of(&root, dir)
            },
        },
    }
}

/// What could be read of an attribute set that is no derivation.
pub struct SetFacts {
    /// Its names; `None` where they could not be listed.
    pub keys: Option<Vec<String>>,
    /// Its `recurseForDerivations`; `None` where it has none, or none that is a truth value.
    pub recurse: Option<bool>,
}

/// The names without the one that asks for recursion.
pub open spec fn without_marker(keys: Seq<Seq<char>>) -> Seq<Seq<char>>
    decreases keys.len(),
{
    if keys.len() == 0 {
        Seq::empty()
    } else if keys.last() == RECURSE_ATTR@ {
        without_marker(keys.drop_last())
    } else {
        without_marker(keys.drop_last()).push(keys.last())
    }
}

/// The names of an attribute set that are to be evaluated: all but the marker where
/// recursion is forced or asked for or the set is the root, else none.
pub open spec fn children_of(set: SetFacts, path: Seq<Seq<char>>, force: bool) -> Seq<Seq<char>> {
    match set.keys {
        Some(keys) => if force || path.len() == 0 || set.recurse == Some(true) {
            without_marker(texts(keys@))
        } else {
            Seq::empty()
        },
        None => Seq::empty(),
    }
}

/// The names of an attribute set that are to be evaluated.
pub fn collect_recurse(set: &SetFacts, path: &[String], force_recurse: bool) -> (r: Vec<String>)
    ensures
        texts(r@) == children_of(*set, texts(path@), force_recurse),
{
    let mut out: Vec<String> = Vec::new();
    proof {
        assert(texts(out@) =~= Seq::<Seq<char>>::empty());
    }
    match &set.keys {
        None => out,
        Some(keys) => {
            let asked: bool = match set.recurse {
                Some(b) => b,
                None => false,
            };
            if !(force_recurse || path.len() == 0 || asked) {
                return out;
            }
            let mut i: usize = 0;
            let ghost all = texts(keys@);
            proof {
                assert(all.take(0).len() == 0);
            }
            while i < keys.len()
                invariant
                    i <= keys.len(),
                    all == texts(keys@),
                    texts(out@) == without_marker(all.take(i as int)),
                decreases keys.len() - i,
            {
                let ghost before = texts(out@);
                proof {
                    let next = all.take(i + 1);
                    assert(next.drop_last() =~= all.take(i as int));
                    assert(next.last() == keys@[i as int]@);
                }
                if !same(keys[i].as_str(), RECURSE_ATTR) {
                    out.push(keys[i].clone());
                    proof {
                        assert(texts(out@) =~= before.push(keys@[i as int]@));
                    }
                }
                i += 1;
            }
            proof {
                assert(all.take(i as int) =~= all);
            }
            out
        },
    }
}

/// What could be read of a derivation.
pub struct JobFacts {
    /// The printed store path of its `.drv` file, or why it could not be printed.
    pub drv_path: Result<String, String>,
    /// Its `name`, or why it could not be read.
    pub name: Result<String, String>,
    /// Its `system`, where that is a string.
    pub system: Option<String>,
    /// The entries of its `outputs`, where that is a list.
    pub outputs: Option<Vec<Option<OutputFacts>>>,
    /// Its `meta`, where it has one.
    pub meta: Option<NixData>,
    /// The items of its `constituents`, where that is a list.
    pub constituents: Option<Vec<Option<String>>>,
    /// Its JSON form, where the store could read and print it.
    pub drv_json: Option<String>,
    /// The store's directory, where the store says.
    pub store_dir: Option<String>,
    /// Why its garbage-collector root could not be registered.
    pub gc_root_error: Option<String>,
}

/// The garbage-collector root that a derivation is to have.
pub open spec fn gc_root_of(facts: JobFacts, options: EvalOptions) -> Option<
    (Seq<char>, Seq<char>),
> {
    match (facts.drv_path, facts.name, options.gc_roots_dir) {
        (Ok(drv_path), Ok(_), Some(dir)) => Some((dir@, drv_path@)),
        _ => None,
    }
}

/// The garbage-collector root to register, as directory and store path: only of a derivation
/// that could be read, and only where roots are asked for.
pub fn gc_root_request(facts: &JobFacts, options: &EvalOptions) -> (r: Option<(String, String)>)
    ensures
        gc_root_of(*facts, *options) == match r {
            Some(p) => Some((p.0@, p.1@)),
            None => None,
        },
{
    match (&facts.drv_path, &facts.name, &options.gc_roots_dir) {
        (Ok(drv_path), Ok(_), Some(dir)) => Some((dir.clone(), drv_path.clone())),
        _ => None,
    }
}

/// The derivation that the facts describe, or the message of its error.
pub open spec fn job_of(path: Seq<Seq<char>>, facts: JobFacts, options: EvalOptions) -> Result<
    DerivationView,
    Seq<char>,
> {
    match (facts.drv_path, facts.name) {
        (Err(_), _) => Err("printing drv path"@),
        (Ok(_), Err(_)) => Err("reading .name"@),
        (Ok(drv_path), Ok(name)) => Ok(
            DerivationView {
                attr: attr_of(path),
                attr_path: path,
                name: name@,
                system: match facts.system {
                    Some(system) => system@,
                    None => Seq::empty(),
                },
                drv_path: drv_path@,
                outputs: match facts.outputs {
                    Some(list) => outputs_of(list@),
                    None => Map::empty(),
                },
                meta: if options.meta {
                    match facts.meta {
                        Some(data) => json_of_data(data, META_DEPTH as nat),
                        None => None,
                    }
                } else {
                    None
                },
                input_drvs: if options.show_input_drvs {
                    inputs_read(text_opt(facts.drv_json), text_opt(facts.store_dir))
                } else {
                    Map::empty()
                },
                constituents: match facts.constituents {
                    Some(items) => Some(readable(items@)),
                    None => None,
                },
                gc_root_error: if options.gc_roots_dir is Some {
                    text_opt(facts.gc_root_error)
                } else {
                    None
                },
            },
        ),
    }
}

/// The derivation that the facts describe. Only a store path that cannot be printed and a
/// name that cannot be read are errors.
pub fn make_job(path: &Vec<String>, facts: &JobFacts, options: &EvalOptions) -> (r: Result<
    Derivation,
    ErrorChain,
>)
    ensures
        match r {
            Ok(d) => {
                &&& job_of(texts(path@), *facts, *options) == Ok::<DerivationView, Seq<char>>(d@)
                &&& facts.name matches Ok(name) && d.name@ == name@
                &&& facts.drv_path matches Ok(drv_path) && d.drv_path@ == drv_path@
                &&& texts(d.attr_path@) == texts(path@)
                &&& facts.system matches Some(system) ==> d.system@ == system@
            },
            Err(e) => {
                &&& job_of(texts(path@), *facts, *options) == Err::<DerivationView, Seq<char>>(e@[0])
                &&& e@ == seq![
                    e@[0],
                    match facts.drv_path {
                        Err(cause) => cause@,
                        Ok(_) => facts.name->Err_0@,
                    },
                ]
            },
        },
{
    let drv_path = match &facts.drv_path {
        Ok(drv_path) => drv_path.clone(),
        Err(cause) => {
            return Err(ErrorChain::new(cause.as_str()).context("printing drv path"));
        },
    };
    let name = match &facts.name {
        Ok(name) => name.clone(),
        Err(cause) => {
            return Err(ErrorChain::new(cause.as_str()).context("reading .name"));
        },
    };
    let system = match &facts.system {
        Some(system) => system.clone(),
        None => String::new(),
    };
    let meta = if options.meta {
        read_meta(&facts.meta)
    } else {
        None
    };
    let input_drvs = if options.show_input_drvs {
        read_input_drvs(&facts.drv_json, &facts.store_dir)
    } else {
        OrderedMap::new()
    };
    let gc_root_error = if options.gc_roots_dir.is_some() {
        facts.gc_root_error.clone()
    } else {
        None
    };
    let d = Derivation {
        attr: display_attr(path.as_slice()),
        attr_path: copy_texts(path),
        name,
        system,
        drv_path,
        outputs: output_paths(&facts.outputs),
        meta,
        input_drvs,
        constituents: read_constituents(&facts.constituents),
        gc_root_error,
    };
    proof {
        if !options.show_input_drvs {
            assert(input_drvs_view(d.input_drvs@) =~= Map::empty());
        }
        assert(d@ =~= job_of(texts(path@), *facts, *options)->Ok_0);
    }
    Ok(d)
}

/// What was found at an attribute path.
pub enum Visit {
    /// The path could not be followed.
    Lost { error: String },
    /// A value that is no attribute set.
    Leaf,
    /// An attribute set that could not be checked for a derivation.
    Broken { error: String },
    /// A derivation.
    Job(JobFacts),
    /// Another attribute set.
    Children(SetFacts),
}

/// The message of a path that goes too deep.
pub open spec fn too_deep_text() -> Seq<char> {
    "maximum traversal depth exceeded"@
}

/// An error at an attribute path that does not end the evaluation.
pub open spec fn error_at(path: Seq<Seq<char>>, message: Seq<char>) -> EventView {
    EventView::Error(
        EvalErrorView { attr: attr_of(path), attr_path: path, error: message, fatal: false },
    )
}

/// The attribute set at a path, with the names that are to be evaluated.
pub open spec fn set_at(path: Seq<Seq<char>>, names: Seq<Seq<char>>) -> EventView {
    EventView::AttrSet { attr: attr_of(path), attr_path: path, attrs: names }
}

/// The event of an attribute path.
pub open spec fn event_of(path: Seq<Seq<char>>, visit: Visit, options: EvalOptions) -> EventView {
    if path.len() > MAX_TRAVERSAL_DEPTH {
        error_at(path, too_deep_text())
    } else {
        match visit {
            Visit::Lost { error } => error_at(path, error@),
            Visit::Leaf => set_at(path, Seq::empty()),
            Visit::Broken { error } => error_at(path, error@),
            Visit::Job(facts) => match job_of(path, facts, options) {
                Ok(d) => EventView::Derivation(d),
                Err(message) => error_at(path, message),
            },
            Visit::Children(set) => set_at(path, children_of(set, path, options.force_recurse)),
        }
    }
}

fn error_event(path: &Vec<String>, error: String) -> (r: Event)
    ensures
        r@ == error_at(texts(path@), error@),
{
    Event::Error(
        EvalError {
            attr: display_attr(path.as_slice()),
            attr_path: copy_texts(path),
            error,
            fatal: false,
        },
    )
}

fn set_event(path: &Vec<String>, attrs: Vec<String>) -> (r: Event)
    ensures
        r@ == set_at(texts(path@), texts(attrs@)),
{
    Event::AttrSet { attr: display_attr(path.as_slice()), attr_path: copy_texts(path), attrs }
}

/// Makes an event of what was found at an attribute path.
///
/// A derivation is described as far as the options ask. An attribute set that is none gives
/// the names to go on with, any other value an attribute set without names. What fails is an
/// error of this attribute alone, and so is a path that goes too deep.
pub fn process_attr(path: &Vec<String>, visit: &Visit, options: &EvalOptions) -> (r: Event)
    ensures
        r@ == event_of(texts(path@), *visit, *options),
{
    if path.len() > MAX_TRAVERSAL_DEPTH {
        return error_event(path, "maximum traversal depth exceeded".to_owned());
    }
    match visit {
        Visit::Lost { error } => error_event(path, error.clone()),
        Visit::Leaf => {
            let none: Vec<String> = Vec::new();
            proof {
                assert(texts(none@) =~= Seq::<Seq<char>>::empty());
            }
            set_event(path, none)
        },
        Visit::Broken { error } => error_event(path, error.clone()),
        Visit::Job(facts) => match make_job(path, facts, options) {
            Ok(d) => Event::Derivation(d),
            Err(e) => error_event(path, e.message()),
        },
        Visit::Children(set) => set_event(
            path,
            collect_recurse(set, path.as_slice(), options.force_recurse),
        ),
    }
}

/// No path beyond the limit leads on: its event is an error that does not end the evaluation,
/// so that even attribute sets that contain themselves are left behind.
pub proof fn law_traversal_is_bounded(path: Seq<Seq<char>>, visit: Visit, options: EvalOptions)
    ensures
        path.len() > MAX_TRAVERSAL_DEPTH ==> event_of(path, visit, options) == error_at(
            path,
            too_deep_text(),
        ),
        event_of(path, visit, options) matches EventView::AttrSet { attrs, .. } ==> attrs.len()
            == 0 || path.len() <= MAX_TRAVERSAL_DEPTH,
{
}

/// Nothing that is found at one attribute ends the evaluation of the others.
pub proof fn law_attribute_errors_are_not_fatal(
    path: Seq<Seq<char>>,
    visit: Visit,
    options: EvalOptions,
)
    ensures
        event_of(path, visit, options) matches EventView::Error(e) ==> !e.fatal,
{
}

/// The marker that asks for recursion is never a child, and a set below the root whose
/// recursion is neither forced nor asked for has no children.
pub proof fn law_children(set: SetFacts, path: Seq<Seq<char>>, force: bool)
    ensures
        !children_of(set, path, force).contains(RECURSE_ATTR@),
        path.len() > 0 && !force && set.recurse != Some(true) ==> children_of(
            set,
            path,
            force,
        ).len() == 0,
{
    if let Some(keys) = set.keys {
        lemma_without_marker(texts(keys@));
    }
}

proof fn lemma_without_marker(keys: Seq<Seq<char>>)
    ensures
        !without_marker(keys).contains(RECURSE_ATTR@),
    decreases keys.len(),
{
    if keys.len() > 0 {
        lemma_without_marker(keys.drop_last());
        if keys.last() != RECURSE_ATTR@ {
            let rest = without_marker(keys.drop_last());
            if rest.push(keys.last()).contains(RECURSE_ATTR@) {
                let i = rest.push(keys.last()).index_of(RECURSE_ATTR@);
                assert(rest[i] == RECURSE_ATTR@);
            }
        }
    }
}

/// The way to a path takes its names in order and calls what each of them names; the way to the
/// root is a call alone.
pub proof fn law_every_name_is_followed_and_called(path: Seq<Seq<char>>)
    ensures
        path.len() == 0 ==> moves_along(path) == seq![MoveView::Call],
        path.len() > 0 ==> moves_along(path).len() == 2 * path.len(),
        forall|i: int|
            0 <= i < path.len() ==> {
                &&& #[trigger] moves_along(path)[2 * i] == MoveView::Attr(path[i])
                &&& moves_along(path)[2 * i + 1] == MoveView::Call
            },
    decreases path.len(),
{
    if path.len() > 0 {
        let init = path.drop_last();
        law_every_name_is_followed_and_called(init);
        assert(descent(init).len() == 2 * init.len()) by {
            if init.len() == 0 {
                assert(descent(init).len() == 0);
            }
        }
        assert forall|i: int| 0 <= i < path.len() implies {
            &&& #[trigger] moves_along(path)[2 * i] == MoveView::Attr(path[i])
            &&& moves_along(path)[2 * i + 1] == MoveView::Call
        } by {
            if i < init.len() {
                assert(moves_along(init)[2 * i] == MoveView::Attr(init[i]));
                assert(moves_along(init)[2 * i + 1] == MoveView::Call);
            }
        }
    }
}

/// What can be read of a value that holds no others stands in its JSON as it is; what cannot be
/// read has none, and nothing has where no depth is left.
pub proof fn law_json_says_the_value(
    b: bool,
    n: i64,
    s: String,
    v: serde_json::Value,
    data: NixData,
    depth: nat,
)
    requires
        depth > 0,
    ensures
        json_of_data(NixData::Null, depth) == Some(Json::Null),
        json_of_data(NixData::Bool(Some(b)), depth) == Some(Json::Bool(b)),
        json_of_data(NixData::Int(Some(n)), depth) == Some(Json::Int(n as int)),
        json_of_data(NixData::Str(Some(s)), depth) == Some(Json::Str(s@)),
        json_of_data(NixData::Path(Some(s)), depth) == Some(Json::Str(s@)),
        json_of_data(NixData::Float(Some(v)), depth) == Some(json_of(v)),
        json_of_data(NixData::Opaque, depth) is None,
        json_of_data(NixData::Bool(None), depth) is None,
        json_of_data(NixData::Int(None), depth) is None,
        json_of_data(NixData::Float(None), depth) is None,
        json_of_data(NixData::Str(None), depth) is None,
        json_of_data(NixData::Path(None), depth) is None,
        json_of_data(NixData::List(None), depth) is None,
        json_of_data(NixData::Attrs(None), depth) is None,
        json_of_data(data, 0) is None,
{
}

/// Different values have different JSON: truth values, numbers, strings and paths are told apart
/// by it, and so are lists by their lengths.
pub proof fn law_json_tells_values_apart(
    b: bool,
    c: bool,
    n: i64,
    m: i64,
    s: String,
    t: String,
    p: Vec<Option<NixData>>,
    q: Vec<Option<NixData>>,
    depth: nat,
)
    requires
        depth > 0,
        json_of_data(NixData::List(Some(p)), depth) is Some,
    ensures
        json_of_data(NixData::Bool(Some(b)), depth) == json_of_data(NixData::Bool(Some(c)), depth)
            ==> b == c,
        json_of_data(NixData::Int(Some(n)), depth) == json_of_data(NixData::Int(Some(m)), depth)
            ==> n == m,
        json_of_data(NixData::Str(Some(s)), depth) == json_of_data(NixData::Str(Some(t)), depth)
            ==> s@ == t@,
        json_of_data(NixData::Path(Some(s)), depth) == json_of_data(NixData::Path(Some(t)), depth)
            ==> s@ == t@,
        json_of_data(NixData::List(Some(p)), depth) == json_of_data(NixData::List(Some(q)), depth)
            ==> p@.len() == q@.len(),
{
    let x = json_of_data(NixData::List(Some(p)), depth);
    let y = json_of_data(NixData::List(Some(q)), depth);
    if x == y {
        let short = items_json(p@, (depth - 1) as nat);
        let long = items_json(q@, (depth - 1) as nat);
        assert(x == Some(Json::Array(short)));
        assert(y == Some(Json::Array(long)));
        assert(short.len() == p@.len() && long.len() == q@.len());
    }
}

/// A list becomes an array of as many items, each the JSON of the item in its place, or null
/// where that has none; one item that cannot be taken leaves the whole list without JSON.
pub proof fn law_lists_keep_their_items(items: Vec<Option<NixData>>, depth: nat)
    requires
        depth > 0,
    ensures
        match json_of_data(NixData::List(Some(items)), depth) {
            Some(t) => {
                &&& t matches Json::Array(out)
                &&& out.len() == items@.len()
                &&& forall|i: int|
                    0 <= i < out.len() ==> {
                        &&& items@[i] matches Some(d)
                        &&& json_of_data(d, (depth - 1) as nat) matches Some(j) ==> #[trigger] out[i]
                            == j
                        &&& json_of_data(d, (depth - 1) as nat) is None ==> out[i] == Json::Null
                    }
            },
            None => exists|i: int| 0 <= i < items@.len() && (#[trigger] items@[i]) is None,
        },
{
    if forall|i: int| 0 <= i < items@.len() ==> (#[trigger] items@[i]) is Some {
        let out = items_json(items@, (depth - 1) as nat);
        assert(json_of_data(NixData::List(Some(items)), depth) == Some(Json::Array(out)));
        assert forall|i: int| 0 <= i < out.len() implies {
            &&& items@[i] matches Some(d)
            &&& json_of_data(d, (depth - 1) as nat) matches Some(j) ==> #[trigger] out[i] == j
            &&& json_of_data(d, (depth - 1) as nat) is None ==> out[i] == Json::Null
        } by {
            assert(items@[i] is Some);
        }
    }
}

/// An attribute set becomes an object: every attribute that has JSON stands there under its
/// name, and nothing else does. Of several attributes of one name the last that has JSON counts.
pub proof fn law_sets_keep_their_attributes(
    members: Vec<(String, Option<NixData>)>,
    depth: nat,
)
    requires
        depth > 0,
    ensures
        json_of_data(NixData::Attrs(Some(members)), depth) matches Some(Json::Object(out)) && {
            &&& forall|k: Seq<char>| #[trigger]
                out.contains_key(k) ==> exists|i: int|
                    0 <= i < members@.len() && (#[trigger] members@[i]).0@ == k && (
                    members@[i].1 matches Some(d) && json_of_data(d, (depth - 1) as nat) == Some(
                        out[k],
                    ))
            &&& forall|i: int|
                0 <= i < members@.len() && (#[trigger] members@[i]).1 is Some && json_of_data(
                    members@[i].1->Some_0,
                    (depth - 1) as nat,
                ) is Some ==> {
                    &&& out.contains_key(members@[i].0@)
                    &&& (forall|j: int|
                        i < j < members@.len() ==> (#[trigger] members@[j]).0@ != members@[i].0@)
                        ==> Some(out[members@[i].0@]) == json_of_data(
                        members@[i].1->Some_0,
                        (depth - 1) as nat,
                    )
                }
        },
{
    let out = members_json(members@, (depth - 1) as nat);
    assert(json_of_data(NixData::Attrs(Some(members)), depth) == Some(Json::Object(out)));
    lemma_members_are_there(members@, (depth - 1) as nat);
}

proof fn lemma_members_are_there(members: Seq<(String, Option<NixData>)>, depth: nat)
    ensures
        ({
            let out = members_json(members, depth);
            &&& forall|k: Seq<char>| #[trigger]
                out.contains_key(k) ==> exists|i: int|
                    0 <= i < members.len() && (#[trigger] members[i]).0@ == k && (
                    members[i].1 matches Some(d) && json_of_data(d, depth) == Some(out[k]))
            &&& forall|i: int|
                0 <= i < members.len() && (#[trigger] members[i]).1 is Some && json_of_data(
                    members[i].1->Some_0,
                    depth,
                ) is Some ==> {
                    &&& out.contains_key(members[i].0@)
                    &&& (forall|j: int|
                        i < j < members.len() ==> (#[trigger] members[j]).0@ != members[i].0@)
                        ==> Some(out[members[i].0@]) == json_of_data(members[i].1->Some_0, depth)
                }
        }),
    decreases members.len(),
{
    let out = members_json(members, depth);
    if members.len() > 0 {
        let init = members.drop_last();
        let last = members.len() - 1;
        lemma_members_are_there(init, depth);
        let rest = members_json(init, depth);
        assert(members.last() == members[last]);
        let adds = members.last().1 is Some && json_of_data(members.last().1->Some_0, depth)
            is Some;
        assert forall|k: Seq<char>| #[trigger] out.contains_key(k) implies exists|i: int|
            0 <= i < members.len() && (#[trigger] members[i]).0@ == k && (members[i].1 matches Some(d)
                && json_of_data(d, depth) == Some(out[k])) by {
            if adds && k == members.last().0@ {
                assert(members[last].0@ == k);
            } else {
                assert(rest.contains_key(k));
                let i = choose|i: int|
                    0 <= i < init.len() && (#[trigger] init[i]).0@ == k && (init[i].1 matches Some(d)
                        && json_of_data(d, depth) == Some(rest[k]));
                assert(members[i] == init[i]);
            }
        }
        assert forall|i: int|
            0 <= i < members.len() && (#[trigger] members[i]).1 is Some && json_of_data(
                members[i].1->Some_0,
                depth,
            ) is Some implies {
            &&& out.contains_key(members[i].0@)
            &&& (forall|j: int|
                i < j < members.len() ==> (#[trigger] members[j]).0@ != members[i].0@) ==> Some(
                out[members[i].0@],
            ) == json_of_data(members[i].1->Some_0, depth)
        } by {
            if i < last {
                assert(init[i] == members[i]);
                if forall|j: int|
                    i < j < members.len() ==> (#[trigger] members[j]).0@ != members[i].0@ {
                    assert(members[last].0@ != members[i].0@);
                    assert forall|j: int| i < j < init.len() implies (#[trigger] init[j]).0@
                        != init[i].0@ by {
                        assert(members[j].0@ != members[i].0@);
                    }
                }
            }
        }
    }
}

/// Every output that could be read is there under its name, and no other: with its `outPath`,
/// or else with the attribute itself as a string, or else as a path. Of several outputs of one
/// name the last counts.
pub proof fn law_outputs_have_their_paths(list: Seq<Option<OutputFacts>>)
    ensures
        forall|k: Seq<char>| #[trigger]
            outputs_of(list).contains_key(k) <==> exists|i: int|
                0 <= i < list.len() && ((#[trigger] list[i]) matches Some(f) && f.name@ == k),
        forall|i: int|
            0 <= i < list.len() && (#[trigger] list[i]) is Some && (forall|j: int|
                i < j < list.len() ==> ((#[trigger] list[j]) matches Some(f) ==> f.name@
                    != list[i]->Some_0.name@)) ==> outputs_of(list)[list[i]->Some_0.name@] == (
            match list[i]->Some_0.value {
                Some(OutputValue { out_path: Some(p), .. }) => Some(p@),
                Some(OutputValue { out_path: None, as_string: Some(p), .. }) => Some(p@),
                Some(OutputValue { out_path: None, as_string: None, as_path: Some(p) }) => Some(p@),
                _ => None,
            }),
    decreases list.len(),
{
    if list.len() > 0 {
        let init = list.drop_last();
        let last = list.len() - 1;
        law_outputs_have_their_paths(init);
        assert(list.last() == list[last]);
        let out = outputs_of(list);
        let rest = outputs_of(init);
        assert forall|k: Seq<char>| #[trigger] out.contains_key(k) <==> exists|i: int|
            0 <= i < list.len() && ((#[trigger] list[i]) matches Some(f) && f.name@ == k) by {
            if out.contains_key(k) {
                if list.last() is Some && list.last()->Some_0.name@ == k {
                    assert(list[last] matches Some(f) && f.name@ == k);
                } else {
                    assert(rest.contains_key(k));
                    let i = choose|i: int|
                        0 <= i < init.len() && ((#[trigger] init[i]) matches Some(f) && f.name@
                            == k);
                    assert(list[i] == init[i]);
                }
            }
            if exists|i: int|
                0 <= i < list.len() && ((#[trigger] list[i]) matches Some(f) && f.name@ == k) {
                let i = choose|i: int|
                    0 <= i < list.len() && ((#[trigger] list[i]) matches Some(f) && f.name@ == k);
                if i < last {
                    assert(init[i] == list[i]);
                    assert(rest.contains_key(k));
                }
            }
        }
        assert forall|i: int|
            0 <= i < list.len() && (#[trigger] list[i]) is Some && (forall|j: int|
                i < j < list.len() ==> ((#[trigger] list[j]) matches Some(f) ==> f.name@
                    != list[i]->Some_0.name@)) implies out[list[i]->Some_0.name@] == (
        match list[i]->Some_0.value {
            Some(OutputValue { out_path: Some(p), .. }) => Some(p@),
            Some(OutputValue { out_path: None, as_string: Some(p), .. }) => Some(p@),
            Some(OutputValue { out_path: None, as_string: None, as_path: Some(p) }) => Some(p@),
            _ => None,
        }) by {
            if i < last {
                assert(init[i] == list[i]);
                assert forall|j: int| i < j < init.len() implies ((#[trigger] init[j]) matches Some(
                    f,
                ) ==> f.name@ != init[i]->Some_0.name@) by {
                    assert(init[j] == list[j]);
                }
                assert(list[last] matches Some(f) ==> f.name@ != list[i]->Some_0.name@);
            }
        }
    }
}

/// Every constituent that is a string is kept, in order, and what is none is passed over.
pub proof fn law_constituents_are_kept(items: Seq<Option<String>>, s: String)
    ensures
        readable(Seq::empty()) == Seq::<Seq<char>>::empty(),
        readable(items.push(Some(s))) == readable(items).push(s@),
        readable(items.push(None)) == readable(items),
        (forall|i: int| 0 <= i < items.len() ==> (#[trigger] items[i]) is Some) ==> {
            &&& readable(items).len() == items.len()
            &&& forall|i: int|
                0 <= i < items.len() ==> #[trigger] readable(items)[i] == items[i]->Some_0@
        },
    decreases items.len(),
{
    assert(items.push(Some(s)).drop_last() =~= items);
    assert(items.push(None).drop_last() =~= items);
    if items.len() > 0 {
        let init = items.drop_last();
        law_constituents_are_kept(init, s);
        if forall|i: int| 0 <= i < items.len() ==> (#[trigger] items[i]) is Some {
            assert forall|i: int| 0 <= i < init.len() implies (#[trigger] init[i]) is Some by {
                assert(items[i] is Some);
            }
            assert(items[items.len() - 1] is Some);
            assert forall|i: int| 0 <= i < items.len() implies #[trigger] readable(items)[i]
                == items[i]->Some_0@ by {
                if i < init.len() {
                    assert(readable(init)[i] == init[i]->Some_0@);
                }
            }
        }
    }
}

/// Whether a value is the list of these strings.
pub open spec fn lists_strings(t: Json, names: Seq<Seq<char>>) -> bool {
    &&& t matches Json::Array(items)
    &&& items.len() == names.len()
    &&& forall|i: int| 0 <= i < items.len() ==> #[trigger] items[i] == Json::Str(names[i])
}

/// Whether these outputs of an input derivation are used: they are listed in its `outputs`, or
/// where it has none by the value itself.
pub open spec fn uses_outputs(t: Json, names: Seq<Seq<char>>) -> bool {
    match t {
        Json::Object(members) => members.contains_key("outputs"@) && lists_strings(
            members["outputs"@],
            names,
        ),
        _ => lists_strings(t, names),
    }
}

/// Whether an input derivation of this name stands at this path: at its name where that is an
/// absolute path, else below the store's directory.
pub open spec fn stands_at(name: Seq<char>, dir: Seq<char>, path: Seq<char>) -> bool {
    if name.len() > 0 && name[0] == '/' {
        path == name
    } else {
        path == dir + "/"@ + name
    }
}

proof fn lemma_lists_strings(t: Json, names: Seq<Seq<char>>)
    ensures
        lists_strings(t, names) <==> texts_in(t) == Some(names),
{
    if let Json::Array(items) = t {
        if lists_strings(t, names) {
            assert forall|i: int| 0 <= i < items.len() implies (#[trigger] items[i]) is Str by {
                assert(items[i] == Json::Str(names[i]));
            }
            assert(items.map_values(|j: Json| j->Str_0) =~= names);
        }
        if texts_in(t) == Some(names) {
            assert forall|i: int| 0 <= i < items.len() implies #[trigger] items[i] == Json::Str(
                names[i],
            ) by {
                assert(items[i] is Str);
                assert(names[i] == items.map_values(|j: Json| j->Str_0)[i]);
            }
        }
    }
}

proof fn lemma_stands_at(name: Seq<char>, dir: Seq<char>)
    ensures
        forall|path: Seq<char>| #[trigger] stands_at(name, dir, path) <==> path == store_path(
            dir,
            name,
        ),
{
    reveal_strlit("/");
    if name.len() > 0 {
        assert("/"@[0] == '/');
        assert(name.take(1)[0] == name[0]);
        if name[0] == '/' {
            assert(name.take(1) =~= "/"@);
        }
    }
}

proof fn lemma_inputs_named(
    names: Seq<Seq<char>>,
    drvs: Map<Seq<char>, Json>,
    dir: Seq<char>,
)
    ensures
        ({
            let found = inputs_named(names, drvs, dir);
            &&& forall|p: Seq<char>| #[trigger]
                found.contains_key(p) ==> exists|i: int|
                    0 <= i < names.len() && stands_at(#[trigger] names[i], dir, p) && uses_outputs(
                        drvs[names[i]],
                        found[p],
                    )
            &&& forall|i: int, p: Seq<char>, outs: Seq<Seq<char>>|
                #![trigger stands_at(names[i], dir, p), uses_outputs(drvs[names[i]], outs)]
                0 <= i < names.len() && stands_at(names[i], dir, p) && uses_outputs(
                    drvs[names[i]],
                    outs,
                ) ==> found.contains_key(p) && ((forall|j: int|
                    i < j < names.len() ==> !stands_at(#[trigger] names[j], dir, p)) ==> found[p]
                    == outs)
        }),
    decreases names.len(),
{
    let found = inputs_named(names, drvs, dir);
    if names.len() > 0 {
        let init = names.drop_last();
        let last = names.len() - 1;
        let rest = inputs_named(init, drvs, dir);
        lemma_inputs_named(init, drvs, dir);
        lemma_stands_at(names.last(), dir);
        let value = drvs[names.last()];
        assert forall|outs: Seq<Seq<char>>| #[trigger] uses_outputs(value, outs) <==> outputs_used(
            value,
        ) == Some(outs) by {
            lemma_lists_strings(value, outs);
            if let Json::Object(members) = value {
                lemma_lists_strings(members["outputs"@], outs);
            }
        }
        let at = store_path(dir, names.last());
        assert(stands_at(names[last], dir, at));
        assert forall|p: Seq<char>| #[trigger] found.contains_key(p) implies exists|i: int|
            0 <= i < names.len() && stands_at(#[trigger] names[i], dir, p) && uses_outputs(
                drvs[names[i]],
                found[p],
            ) by {
            if outputs_used(value) is Some && p == at {
                assert(uses_outputs(value, found[p]));
                assert(stands_at(names[last], dir, p));
            } else {
                assert(rest.contains_key(p));
                let i = choose|i: int|
                    0 <= i < init.len() && stands_at(#[trigger] init[i], dir, p) && uses_outputs(
                        drvs[init[i]],
                        rest[p],
                    );
                assert(names[i] == init[i]);
            }
        }
        assert forall|i: int, p: Seq<char>, outs: Seq<Seq<char>>|
            #![trigger stands_at(names[i], dir, p), uses_outputs(drvs[names[i]], outs)]
            0 <= i < names.len() && stands_at(names[i], dir, p) && uses_outputs(
                drvs[names[i]],
                outs,
            ) implies found.contains_key(p) && ((forall|j: int|
            i < j < names.len() ==> !stands_at(#[trigger] names[j], dir, p)) ==> found[p] == outs) by {
            if i < last {
                assert(init[i] == names[i]);
                assert(stands_at(init[i], dir, p) && uses_outputs(drvs[init[i]], outs));
                assert(rest.contains_key(p));
                if forall|j: int| i < j < names.len() ==> !stands_at(#[trigger] names[j], dir, p) {
                    assert(!stands_at(names[last], dir, p));
                    assert forall|j: int| i < j < init.len() implies !stands_at(
                        #[trigger] init[j],
                        dir,
                        p,
                    ) by {
                        assert(!stands_at(names[j], dir, p));
                    }
                    assert(rest[p] == outs);
                }
            } else {
                assert(uses_outputs(value, outs));
                assert(p == at);
            }
        }
    }
}

/// The input derivations of a derivation are those that its JSON names under `inputs.drvs`:
/// each at its path in the store, with the outputs that are used of it, and no others. One whose
/// outputs cannot be read is left out, and two of them at one path stand there once.
pub proof fn law_input_drvs_are_those_named(
    text: Seq<char>,
    store_dir: Option<Seq<char>>,
    root: Map<Seq<char>, Json>,
    inputs: Map<Seq<char>, Json>,
    drvs: Map<Seq<char>, Json>,
    names: Seq<Seq<char>>,
    dir: Seq<char>,
)
    requires
        store_dir matches Some(d) ==> dir == d,
        store_dir is None ==> dir == "/nix/store"@,
        json_parsed(text) == Ok::<Json, Seq<char>>(Json::Object(root)),
        root.contains_key("inputs"@) && root["inputs"@] == Json::Object(inputs),
        inputs.contains_key("drvs"@) && inputs["drvs"@] == Json::Object(drvs),
        crate::json::lists_names(names, drvs),
    ensures
        ({
            let found = inputs_read(Some(text), store_dir);
            &&& forall|p: Seq<char>| #[trigger]
                found.contains_key(p) ==> exists|k: Seq<char>| #[trigger]
                    drvs.contains_key(k) && stands_at(k, dir, p) && uses_outputs(drvs[k], found[p])
            &&& forall|k: Seq<char>, p: Seq<char>, outs: Seq<Seq<char>>|
                #![trigger stands_at(k, dir, p), uses_outputs(drvs[k], outs)]
                drvs.contains_key(k) && stands_at(k, dir, p) && uses_outputs(drvs[k], outs)
                    ==> found.contains_key(p) && ((forall|l: Seq<char>| #[trigger]
                    drvs.contains_key(l) && l != k ==> !stands_at(l, dir, p)) ==> found[p] == outs)
        }),
{
    let found = inputs_read(Some(text), store_dir);
    crate::json::lemma_names_unique(names, names_of(drvs), drvs);
    assert(found == inputs_named(names, drvs, dir));
    lemma_inputs_named(names, drvs, dir);
    assert forall|p: Seq<char>| #[trigger] found.contains_key(p) implies exists|k: Seq<char>|
        #[trigger] drvs.contains_key(k) && stands_at(k, dir, p) && uses_outputs(
            drvs[k],
            found[p],
        ) by {
        let i = choose|i: int|
            0 <= i < names.len() && stands_at(#[trigger] names[i], dir, p) && uses_outputs(
                drvs[names[i]],
                found[p],
            );
        assert(names.contains(names[i]));
        assert(drvs.contains_key(names[i]));
    }
    assert forall|k: Seq<char>, p: Seq<char>, outs: Seq<Seq<char>>|
        #![trigger stands_at(k, dir, p), uses_outputs(drvs[k], outs)]
        drvs.contains_key(k) && stands_at(k, dir, p) && uses_outputs(drvs[k], outs) implies
        found.contains_key(p) && ((forall|l: Seq<char>| #[trigger]
        drvs.contains_key(l) && l != k ==> !stands_at(l, dir, p)) ==> found[p] == outs) by {
        assert(names.contains(k));
        let i = names.index_of(k);
        assert(stands_at(names[i], dir, p) && uses_outputs(drvs[names[i]], outs));
        if forall|l: Seq<char>| #[trigger]
            drvs.contains_key(l) && l != k ==> !stands_at(l, dir, p) {
            assert forall|j: int| i < j < names.len() implies !stands_at(
                #[trigger] names[j],
                dir,
                p,
            ) by {
                assert(names.contains(names[j]));
                assert(drvs.contains_key(names[j]));
                assert(crate::text::text_less(names[i], names[j]));
                <String as crate::ordered_map::MapKey>::key_irreflexive(names[i]);
            }
        }
    }
}

/// A derivation that could not be read or printed, or whose text is no JSON or names no inputs,
/// has no input derivations.
pub proof fn law_unreadable_derivations_have_no_inputs(
    text: Seq<char>,
    store_dir: Option<Seq<char>>,
)
    ensures
        inputs_read(None, store_dir) == Map::<Seq<char>, Seq<Seq<char>>>::empty(),
        json_parsed(text) is Err ==> inputs_read(Some(text), store_dir) == Map::<
            Seq<char>,
            Seq<Seq<char>>,
        >::empty(),
        json_parsed(text) matches Ok(Json::Object(root)) && !root.contains_key("inputs"@)
            ==> inputs_read(Some(text), store_dir) == Map::<Seq<char>, Seq<Seq<char>>>::empty(),
{
}

/// Where recursion is forced or asked for, or the set is the root, every name of the set but the
/// marker is evaluated next, as often as and in the order in which it stands there; elsewhere no
/// name is.
pub proof fn law_every_name_but_the_marker_is_a_child(
    keys: Vec<String>,
    recurse: Option<bool>,
    path: Seq<Seq<char>>,
    force: bool,
)
    ensures
        ({
            let set = SetFacts { keys: Some(keys), recurse };
            let marker = "recurseForDerivations"@;
            if force || path.len() == 0 || recurse == Some(true) {
                &&& children_of(set, path, force) == texts(keys@).filter(
                    |k: Seq<char>| k != marker,
                )
                &&& forall|k: Seq<char>| #[trigger]
                    children_of(set, path, force).contains(k) <==> k != marker && exists|i: int|
                        0 <= i < keys@.len() && (#[trigger] keys@[i])@ == k
            } else {
                children_of(set, path, force).len() == 0
            }
        }),
        children_of(SetFacts { keys: None, recurse }, path, force).len() == 0,
{
    let marker = "recurseForDerivations"@;
    let names = texts(keys@);
    lemma_without_marker_filters(names);
    let plain = |k: Seq<char>| k != marker;
    assert(plain =~= (|k: Seq<char>| k != RECURSE_ATTR@));
    assert forall|k: Seq<char>| #[trigger] without_marker(names).contains(k) <==> k != marker
        && exists|i: int| 0 <= i < keys@.len() && (#[trigger] keys@[i])@ == k by {
        if without_marker(names).contains(k) {
            let i = names.index_of(k);
            assert(names.contains(k));
            assert(keys@[i]@ == k);
        }
        if k != marker && exists|i: int| 0 <= i < keys@.len() && (#[trigger] keys@[i])@ == k {
            let i = choose|i: int| 0 <= i < keys@.len() && (#[trigger] keys@[i])@ == k;
            assert(names[i] == k);
            assert(names.contains(k));
        }
    }
}

proof fn lemma_without_marker_filters(keys: Seq<Seq<char>>)
    ensures
        without_marker(keys) == keys.filter(|k: Seq<char>| k != RECURSE_ATTR@),
        forall|k: Seq<char>| #[trigger]
            without_marker(keys).contains(k) <==> keys.contains(k) && k != RECURSE_ATTR@,
    decreases keys.len(),
{
    reveal(Seq::filter);
    if keys.len() > 0 {
        let init = keys.drop_last();
        lemma_without_marker_filters(init);
        assert forall|k: Seq<char>| #[trigger] without_marker(keys).contains(k) <==> keys.contains(
            k,
        ) && k != RECURSE_ATTR@ by {
            let rest = without_marker(init);
            if without_marker(keys).contains(k) {
                let i = without_marker(keys).index_of(k);
                if i < rest.len() {
                    assert(rest[i] == k);
                    assert(rest.contains(k));
                    let j = init.index_of(k);
                    assert(keys[j] == k);
                } else {
                    assert(keys[keys.len() - 1] == k);
                }
            }
            if keys.contains(k) && k != RECURSE_ATTR@ {
                let j = keys.index_of(k);
                if j < init.len() {
                    assert(init[j] == k);
                    assert(init.contains(k));
                    assert(rest.contains(k));
                    let i = rest.index_of(k);
                    assert(without_marker(keys)[i] == k);
                } else {
                    assert(without_marker(keys)[rest.len() as int] == k);
                }
            }
        }
    } else {
        assert(keys.filter(|k: Seq<char>| k != RECURSE_ATTR@) =~= Seq::empty());
    }
}

/// A derivation whose store path and name could be read is described by them: each stands in its
/// own field, with the path at which the derivation was found, its system where it has one, and
/// of the rest what the options ask for.
pub proof fn law_derivations_are_described_by_their_facts(
    path: Seq<Seq<char>>,
    facts: JobFacts,
    options: EvalOptions,
    drv_path: String,
    name: String,
)
    requires
        facts.drv_path == Ok::<String, String>(drv_path),
        facts.name == Ok::<String, String>(name),
    ensures
        job_of(path, facts, options) matches Ok(d) && {
            &&& d.drv_path == drv_path@
            &&& d.name == name@
            &&& d.attr_path == path
            &&& path.len() == 0 ==> d.attr.len() == 0
            &&& path.len() == 1 ==> d.attr == path[0]
            &&& facts.system matches Some(system) ==> d.system == system@
            &&& facts.system is None ==> d.system.len() == 0
            &&& facts.outputs is None ==> d.outputs == Map::<Seq<char>, Option<Seq<char>>>::empty()
            &&& facts.outputs matches Some(list) ==> d.outputs == outputs_of(list@)
            &&& !options.meta ==> d.meta is None
            &&& options.meta && facts.meta is None ==> d.meta is None
            &&& options.meta ==> (facts.meta matches Some(data) ==> d.meta == json_of_data(
                data,
                64,
            ))
            &&& !options.show_input_drvs ==> d.input_drvs == Map::<
                Seq<char>,
                Seq<Seq<char>>,
            >::empty()
            &&& options.show_input_drvs ==> d.input_drvs == inputs_read(
                text_opt(facts.drv_json),
                text_opt(facts.store_dir),
            )
            &&& facts.constituents is None ==> d.constituents is None
            &&& facts.constituents matches Some(items) ==> d.constituents == Some(readable(items@))
            &&& options.gc_roots_dir is None ==> d.gc_root_error is None
            &&& options.gc_roots_dir is Some ==> (facts.gc_root_error matches Some(e)
                ==> d.gc_root_error == Some(e@))
            &&& facts.gc_root_error is None ==> d.gc_root_error is None
        },
{
    crate::scheduler::law_attributes_are_dotted(path, Seq::empty());
    if path.len() == 1 {
        crate::scheduler::law_attributes_are_dotted(Seq::empty(), path[0]);
        assert(path =~= seq![path[0]]);
    }
}

/// A derivation is refused exactly where its store path or its name could not be read, and what
/// is said tells which.
pub proof fn law_only_unreadable_derivations_are_refused(
    path: Seq<Seq<char>>,
    facts: JobFacts,
    options: EvalOptions,
)
    ensures
        job_of(path, facts, options) is Ok <==> facts.drv_path is Ok && facts.name is Ok,
        facts.drv_path is Err ==> job_of(path, facts, options) == Err::<DerivationView, Seq<char>>(
            "printing drv path"@,
        ),
        facts.drv_path is Ok && facts.name is Err ==> job_of(path, facts, options) == Err::<
            DerivationView,
            Seq<char>,
        >("reading .name"@),
{
}

/// A garbage-collector root is registered for a derivation exactly where a directory for roots
/// is given and the derivation could be read; it is the derivation's store path in that
/// directory.
pub proof fn law_roots_are_of_the_derivation(facts: JobFacts, options: EvalOptions)
    ensures
        gc_root_of(facts, options) is Some <==> options.gc_roots_dir is Some && facts.drv_path is Ok
            && facts.name is Ok,
        gc_root_of(facts, options) matches Some((dir, path)) ==> dir
            == options.gc_roots_dir->Some_0@ && path == facts.drv_path->Ok_0@,
{
}

/// What is found at a path within the limit makes its event: a derivation that can be described
/// is one, any other attribute set leads on, a value that is none leads nowhere, and what went
/// wrong is said of this path. Every event is at the path where it was found.
pub proof fn law_events_say_what_was_found(
    path: Seq<Seq<char>>,
    visit: Visit,
    options: EvalOptions,
)
    requires
        path.len() <= 64,
    ensures
        match visit {
            Visit::Lost { error } => event_of(path, visit, options) matches EventView::Error(e)
                && e.error == error@ && e.attr_path == path,
            Visit::Broken { error } => event_of(path, visit, options) matches EventView::Error(e)
                && e.error == error@ && e.attr_path == path,
            Visit::Leaf => event_of(path, visit, options) matches EventView::AttrSet {
                attr_path,
                attrs,
                ..
            } && attr_path == path && attrs.len() == 0,
            Visit::Children(set) => event_of(path, visit, options) matches EventView::AttrSet {
                attr_path,
                attrs,
                ..
            } && attr_path == path && attrs == children_of(set, path, options.force_recurse),
            Visit::Job(facts) => {
                &&& facts.drv_path is Ok && facts.name is Ok ==> (event_of(path, visit, options)
                    matches EventView::Derivation(d) && d.attr_path == path && d.drv_path
                    == facts.drv_path->Ok_0@ && d.name == facts.name->Ok_0@)
                &&& !(facts.drv_path is Ok && facts.name is Ok) ==> (event_of(path, visit, options)
                    matches EventView::Error(e) && e.attr_path == path)
            },
        },
{
}

/// A path of more than 64 names is not evaluated: it is an error of its own that says so and
/// does not end the evaluation, whatever is found there.
pub proof fn law_paths_beyond_the_limit_are_errors(
    path: Seq<Seq<char>>,
    visit: Visit,
    options: EvalOptions,
)
    requires
        path.len() > 64,
    ensures
        event_of(path, visit, options) matches EventView::Error(e) && e.error
            == "maximum traversal depth exceeded"@ && e.attr_path == path && !e.fatal,
{
}

/// A derivation is made of what was read of it, each part in its own place, and is refused only
/// where its store path or its name could not be read.
pub proof fn law_jobs_are_made_of_their_facts(
    path: Vec<String>,
    facts: JobFacts,
    options: EvalOptions,
    r: Result<Derivation, ErrorChain>,
)
    requires
        call_ensures(make_job, (&path, &facts, &options), r),
    ensures
        r is Ok <==> facts.drv_path is Ok && facts.name is Ok,
        r matches Ok(d) ==> {
            &&& d.name@ == facts.name->Ok_0@
            &&& d.drv_path@ == facts.drv_path->Ok_0@
            &&& texts(d.attr_path@) == texts(path@)
            &&& d.attr@ == attr_of(texts(path@))
            &&& facts.system matches Some(system) ==> d.system@ == system@
            &&& facts.system is None ==> d.system@.len() == 0
        },
        facts.drv_path matches Err(cause) ==> (r matches Err(e) && e@ == seq![
            "printing drv path"@,
            cause@,
        ]),
        facts.drv_path is Ok ==> (facts.name matches Err(cause) ==> (r matches Err(e) && e@ == seq![
            "reading .name"@,
            cause@,
        ])),
{
}

/// A truth value, a whole number and a text become the same in JSON, at every depth but none.
pub proof fn law_simple_values_stay_what_they_are(
    b: bool,
    n: i64,
    s: String,
    depth: u32,
    x: Option<serde_json::Value>,
    y: Option<serde_json::Value>,
    z: Option<serde_json::Value>,
)
    requires
        depth > 0,
        call_ensures(value_to_json, (&NixData::Bool(Some(b)), depth), x),
        call_ensures(value_to_json, (&NixData::Int(Some(n)), depth), y),
        call_ensures(value_to_json, (&NixData::Str(Some(s)), depth), z),
    ensures
        x matches Some(v) && json_of(v) == Json::Bool(b),
        y matches Some(v) && json_of(v) == Json::Int(n as int),
        z matches Some(v) && json_of(v) == Json::Str(s@),
{
}

} // verus!
