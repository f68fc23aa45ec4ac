//! Building JSON objects member by member.

use vstd::prelude::*;

use crate::json::{array, json_entries, json_of, null, object, string, trees, Json};
use crate::text::{text_opt, texts};

verus! {

/// The members of an object, from its names and values; a later one replaces an earlier one.
pub open spec fn object_of(fields: Seq<(Seq<char>, Json)>) -> Map<Seq<char>, Json>
    decreases fields.len(),
{
    if fields.len() == 0 {
        Map::empty()
    } else {
        object_of(fields.drop_last()).insert(fields.last().0, fields.last().1)
    }
}

/// An optional text: null where there is none.
pub open spec fn opt_tree(s: Option<Seq<char>>) -> Json {
    match s {
        Some(s) => Json::Str(s),
        None => Json::Null,
    }
}

/// A list of texts.
pub open spec fn texts_tree(items: Seq<Seq<char>>) -> Json {
    Json::Array(items.map_values(|s: Seq<char>| Json::Str(s)))
}

/// Whether no name occurs twice.
pub open spec fn distinct(fields: Seq<(Seq<char>, Json)>) -> bool {
    forall|i: int, j: int|
        0 <= i < j < fields.len() ==> (#[trigger] fields[i]).0 != (#[trigger] fields[j]).0
}

pub proof fn lemma_members(fields: Seq<(Seq<char>, Json)>)
    requires
        distinct(fields),
    ensures
        forall|i: int|
            0 <= i < fields.len() ==> object_of(fields).contains_key((#[trigger] fields[i]).0)
                && object_of(fields)[fields[i].0] == fields[i].1,
        forall|k: Seq<char>| #[trigger]
            object_of(fields).contains_key(k) ==> exists|i: int|
                0 <= i < fields.len() && (#[trigger] fields[i]).0 == k,
    decreases fields.len(),
{
    if fields.len() > 0 {
        let init = fields.drop_last();
        assert(distinct(init)) by {
            assert forall|i: int, j: int| 0 <= i < j < init.len() implies (#[trigger] init[i]).0
                != (#[trigger] init[j]).0 by {
                assert(init[i] == fields[i] && init[j] == fields[j]);
            }
        }
        lemma_members(init);
        let at = fields.len() - 1;
        assert(fields[at] == fields.last());
        assert forall|i: int| 0 <= i < fields.len() implies object_of(fields).contains_key(
            (#[trigger] fields[i]).0,
        ) && object_of(fields)[fields[i].0] == fields[i].1 by {
            if i < at {
                assert(init[i] == fields[i]);
                assert(fields[i].0 != fields[at].0);
            }
        }
        assert forall|k: Seq<char>| #[trigger] object_of(fields).contains_key(k) implies exists|i: int|
            0 <= i < fields.len() && (#[trigger] fields[i]).0 == k by {
            if k == fields.last().0 {
                assert(fields[at].0 == k);
            } else {
                assert(object_of(init).contains_key(k));
                let i = choose|i: int| 0 <= i < init.len() && (#[trigger] init[i]).0 == k;
                assert(fields[i].0 == k);
            }
        }
    }
}

/// The fields of an object.
pub(crate) struct Fields {
    pub(crate) members: serde_json::Map<String, serde_json::Value>,
    pub(crate) listed: Ghost<Seq<(Seq<char>, Json)>>,
}

impl Fields {
    pub(crate) open spec fn sound(self) -> bool {
        json_entries(self.members) == object_of(self.listed@)
    }

    pub(crate) fn new() -> (r: Self)
        ensures
            r.sound(),
            r.listed@ == Seq::<(Seq<char>, Json)>::empty(),
    {
        let entries = serde_json::Map::<String, serde_json::Value>::new();
        proof {
            assert(json_entries(entries) =~= object_of(Seq::empty()));
        }
        Fields { members: entries, listed: Ghost(Seq::empty()) }
    }

    pub(crate) fn field(&mut self, name: &str, value: serde_json::Value)
        requires
            old(self).sound(),
        ensures
            final(self).sound(),
            final(self).listed@ == old(self).listed@.push((name@, json_of(value))),
    {
        let ghost before = self.listed@;
        let ghost now = before.push((name@, json_of(value)));
        let _ = self.members.insert(name.to_owned(), value);
        self.listed = Ghost(now);
        proof {
            assert(now.drop_last() =~= before);
        }
    }

    pub(crate) fn build(self) -> (r: serde_json::Value)
        requires
            self.sound(),
        ensures
            json_of(r) == Json::Object(object_of(self.listed@)),
    {
        object(self.members)
    }
}

pub(crate) fn opt_value(s: &Option<String>) -> (r: serde_json::Value)
    ensures
        json_of(r) == opt_tree(text_opt(*s)),
{
    match s {
        Some(s) => string(s.clone()),
        None => null(),
    }
}

pub(crate) fn texts_value(items: &Vec<String>) -> (r: serde_json::Value)
    ensures
        json_of(r) == texts_tree(texts(items@)),
{
    let mut out: Vec<serde_json::Value> = Vec::new();
    let ghost all = texts(items@).map_values(|s: Seq<char>| Json::Str(s));
    let mut i: usize = 0;
    while i < items.len()
        invariant
            i <= items.len(),
            all == texts(items@).map_values(|s: Seq<char>| Json::Str(s)),
            trees(out@) == all.take(i as int),
        decreases items.len() - i,
    {
        let ghost before = trees(out@);
        let value = string(items[i].clone());
        out.push(value);
        proof {
            assert(trees(out@) =~= before.push(json_of(value)));
            assert(all.take(i + 1) =~= all.take(i as int).push(all[i as int]));
        }
        i += 1;
    }
    proof {
        assert(all.take(i as int) =~= all);
    }
    array(out)
}

/// An object holds what was last set under each name, a text that is absent is null, and a list
/// of texts is an array of strings in their order.
pub proof fn law_objects_hold_what_was_set(
    fields: Seq<(Seq<char>, Json)>,
    name: Seq<char>,
    value: Json,
    s: Seq<char>,
    items: Seq<Seq<char>>,
)
    ensures
        object_of(Seq::empty()) == Map::<Seq<char>, Json>::empty(),
        object_of(fields.push((name, value))) == object_of(fields).insert(name, value),
        opt_tree(Some(s)) == Json::Str(s),
        opt_tree(None) == Json::Null,
        texts_tree(items) matches Json::Array(v) && v.len() == items.len() && forall|i: int|
            0 <= i < v.len() ==> #[trigger] v[i] == Json::Str(items[i]),
{
    assert(fields.push((name, value)).drop_last() =~= fields);
}

} // verus!
