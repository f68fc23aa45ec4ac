//! The line that a worker writes for an event, and the arguments that a command line gives it.

use vstd::prelude::*;

use crate::error::ErrorChain;
use crate::json::{boolean, json_of, json_text, null, print, string, Json};
use crate::json_build::{
    distinct, lemma_members, object_of, opt_tree, texts_tree, texts_value, Fields,
};
use crate::master::{children_in, fatal_in, names_in};
use crate::model::{
    args_view, outputs_view, AutoArg, AutoArgView, Derivation, Event, EventView, Input, InputView,
};
use crate::ordered_map::OrderedMap;
use crate::text::texts;
use crate::worker::{over_limit, should_restart};

verus! {

/// The members of an event's object.
pub open spec fn event_fields(event: EventView) -> Seq<(Seq<char>, Json)> {
    match event {
        EventView::Error(e) => seq![
            ("attr"@, Json::Str(e.attr)),
            ("attrPath"@, texts_tree(e.attr_path)),
            ("error"@, Json::Str(e.error)),
            ("fatal"@, Json::Bool(e.fatal)),
        ],
        EventView::AttrSet { attr, attr_path, attrs } => seq![
            ("attr"@, Json::Str(attr)),
            ("attrPath"@, texts_tree(attr_path)),
            ("attrs"@, texts_tree(attrs)),
        ],
        EventView::Derivation(d) => seq![
            ("attr"@, Json::Str(d.attr)),
            ("attrPath"@, texts_tree(d.attr_path)),
            ("name"@, Json::Str(d.name)),
            ("system"@, Json::Str(d.system)),
            ("drvPath"@, Json::Str(d.drv_path)),
            ("outputs"@, outputs_tree(d.outputs)),
        ],
    }
}

/// The store path of each output; null where it is not known.
pub open spec fn outputs_tree(outputs: Map<Seq<char>, Option<Seq<char>>>) -> Json {
    Json::Object(outputs.map_values(|p: Option<Seq<char>>| opt_tree(p)))
}

/// The object of an event.
pub open spec fn event_tree(event: EventView) -> Json {
    Json::Object(object_of(event_fields(event)))
}

fn outputs_value(outputs: &OrderedMap<String, Option<String>>) -> (r: serde_json::Value)
    ensures
        json_of(r) == outputs_tree(outputs_view(outputs@)),
{
    let mut out = serde_json::Map::<String, serde_json::Value>::new();
    let n: usize = outputs.len();
    let ghost keys = outputs.keys();
    let ghost all = outputs_view(outputs@).map_values(|p: Option<Seq<char>>| opt_tree(p));
    let mut i: usize = 0;
    while i < n
        invariant
            i <= n,
            n == keys.len(),
            keys == outputs.keys(),
            all == outputs_view(outputs@).map_values(|p: Option<Seq<char>>| opt_tree(p)),
            forall|k: Seq<char>| #[trigger]
                crate::json::json_entries(out).contains_key(k) <==> keys.take(i as int).contains(k),
            forall|k: Seq<char>| #[trigger]
                crate::json::json_entries(out).contains_key(k) ==> crate::json::json_entries(out)[k]
                    == all[k],
        decreases n - i,
    {
        let ghost before = crate::json::json_entries(out);
        let key = outputs.key_at(i);
        let value = match outputs.value_at(i) {
            Some(path) => string(path.clone()),
            None => null(),
        };
        let _ = out.insert(key.clone(), value);
        proof {
            let next = keys.take(i + 1);
            assert(next[i as int] == key@);
            assert(json_of(value) == all[key@]);
            assert forall|k: Seq<char>| #[trigger]
                crate::json::json_entries(out).contains_key(k) <==> next.contains(k) by {
                if next.contains(k) && k != key@ {
                    let j = next.index_of(k);
                    assert(keys.take(i as int)[j] == k);
                }
                if keys.take(i as int).contains(k) {
                    let j = keys.take(i as int).index_of(k);
                    assert(next[j] == k);
                }
            }
        }
        i += 1;
    }
    proof {
        assert(keys.take(i as int) =~= keys);
        assert forall|k: Seq<char>| #[trigger]
            crate::json::json_entries(out).contains_key(k) <==> all.contains_key(k) by {
            assert(outputs@.contains_key(k) <==> keys.contains(k));
        }
        assert(crate::json::json_entries(out) =~= all);
    }
    crate::json::object(out)
}

/// The object of an event.
pub fn event_value(event: &Event) -> (r: serde_json::Value)
    ensures
        json_of(r) == event_tree(event@),
{
    let mut fields = Fields::new();
    match event {
        Event::Error(e) => {
            fields.field("attr", string(e.attr.clone()));
            fields.field("attrPath", texts_value(&e.attr_path));
            fields.field("error", string(e.error.clone()));
            fields.field("fatal", boolean(e.fatal));
        },
        Event::AttrSet { attr, attr_path, attrs } => {
            fields.field("attr", string(attr.clone()));
            fields.field("attrPath", texts_value(attr_path));
            fields.field("attrs", texts_value(attrs));
        },
        Event::Derivation(d) => {
            fields.field("attr", string(d.attr.clone()));
            fields.field("attrPath", texts_value(&d.attr_path));
            fields.field("name", string(d.name.clone()));
            fields.field("system", string(d.system.clone()));
            fields.field("drvPath", string(d.drv_path.clone()));
            fields.field("outputs", outputs_value(&d.outputs));
        },
    }
    proof {
        assert(fields.listed@ =~= event_fields(event@));
    }
    fields.build()
}

/// The line that a worker writes for an event.
pub fn event_line(event: &Event) -> (r: Result<String, ErrorChain>)
    ensures
        match r {
            Ok(line) => line@ == json_text(event_tree(event@)),
            Err(_) => false,
        },
{
    match print(&event_value(event)) {
        Ok(line) => Ok(line),
        Err(cause) => Err(ErrorChain::new(cause.as_str())),
    }
}

/// The line that a worker writes after its answer: that it asks for more work, or, once it has
/// used more memory than it may, that it ends and is to be replaced.
pub fn after_answer(max_rss_kb: usize, max_memory_mb: usize) -> (r: &'static str)
    ensures
        r@ == if over_limit(max_rss_kb as int, max_memory_mb as int) {
            "restart"@
        } else {
            "next"@
        },
{
    if should_restart(max_rss_kb, max_memory_mb) {
        "restart"
    } else {
        "next"
    }
}

proof fn lemma_names(event: EventView)
    ensures
        distinct(event_fields(event)),
        "attrs"@ != "attr"@ && "attrs"@ != "attrPath"@ && "attrs"@ != "error"@ && "attrs"@
            != "fatal"@ && "attrs"@ != "name"@ && "attrs"@ != "system"@ && "attrs"@ != "drvPath"@
            && "attrs"@ != "outputs"@,
        "fatal"@ != "attr"@ && "fatal"@ != "attrPath"@ && "fatal"@ != "name"@ && "fatal"@
            != "system"@ && "fatal"@ != "drvPath"@ && "fatal"@ != "outputs"@,
{
    reveal_strlit("attr");
    reveal_strlit("attrPath");
    reveal_strlit("attrs");
    reveal_strlit("error");
    reveal_strlit("fatal");
    reveal_strlit("name");
    reveal_strlit("system");
    reveal_strlit("drvPath");
    reveal_strlit("outputs");
    assert("attr"@.len() == 4 && "attrPath"@.len() == 8 && "attrs"@.len() == 5);
    assert("error"@.len() == 5 && "fatal"@.len() == 5 && "name"@.len() == 4);
    assert("system"@.len() == 6 && "drvPath"@.len() == 7 && "outputs"@.len() == 7);
    assert("attr"@[0] != "name"@[0]);
    assert("error"@[0] != "fatal"@[0]);
    assert("attrs"@[0] != "error"@[0]);
    assert("attrs"@[0] != "fatal"@[0]);
    assert("drvPath"@[0] != "outputs"@[0]);
    let f = event_fields(event);
    match event {
        EventView::Error(_) => {
            assert(f[0].0 == "attr"@ && f[1].0 == "attrPath"@ && f[2].0 == "error"@ && f[3].0
                == "fatal"@);
        },
        EventView::AttrSet { .. } => {
            assert(f[0].0 == "attr"@ && f[1].0 == "attrPath"@ && f[2].0 == "attrs"@);
        },
        EventView::Derivation(_) => {
            assert(f[0].0 == "attr"@ && f[1].0 == "attrPath"@ && f[2].0 == "name"@ && f[3].0
                == "system"@ && f[4].0 == "drvPath"@ && f[5].0 == "outputs"@);
        },
    }
    assert forall|i: int, j: int| 0 <= i < j < f.len() implies (#[trigger] f[i]).0 != (
    #[trigger] f[j]).0 by {
        assert(i == 0 || i == 1 || i == 2 || i == 3 || i == 4);
        assert(j == 1 || j == 2 || j == 3 || j == 4 || j == 5);
    }
}

proof fn lemma_texts_names(items: Seq<Seq<char>>)
    ensures
        names_in(items.map_values(|s: Seq<char>| Json::Str(s))) == items,
    decreases items.len(),
{
    let v = items.map_values(|s: Seq<char>| Json::Str(s));
    if items.len() > 0 {
        let init = items.drop_last();
        lemma_texts_names(init);
        assert(v.drop_last() =~= init.map_values(|s: Seq<char>| Json::Str(s)));
        assert(v.last() == Json::Str(items.last()));
        assert(init.push(items.last()) =~= items);
    } else {
        assert(names_in(v) =~= items);
    }
}

/// A collector reads from a worker's object what the event says: the children of an attribute
/// set, and whether an error ends the evaluation.
pub proof fn law_collector_reads_events(event: EventView)
    ensures
        children_in(event_tree(event)) == (match event {
            EventView::AttrSet { attrs, .. } => Some(attrs),
            _ => None,
        }),
        fatal_in(event_tree(event)) == (match event {
            EventView::Error(e) => if e.fatal {
                Some(e.error)
            } else {
                None
            },
            _ => None,
        }),
{
    let f = event_fields(event);
    lemma_names(event);
    lemma_members(f);
    let m = object_of(f);
    match event {
        EventView::AttrSet { attrs, .. } => {
            assert(m[f[2].0] == f[2].1);
            assert(m.contains_key(f[2].0));
            lemma_texts_names(attrs);
            assert(!m.contains_key("fatal"@)) by {
                if m.contains_key("fatal"@) {
                    let i = choose|i: int| 0 <= i < f.len() && (#[trigger] f[i]).0 == "fatal"@;
                    assert(i == 0 || i == 1 || i == 2);
                }
            }
        },
        EventView::Error(e) => {
            assert(m.contains_key(f[2].0) && m[f[2].0] == f[2].1);
            assert(m.contains_key(f[3].0) && m[f[3].0] == f[3].1);
            assert(!m.contains_key("attrs"@)) by {
                if m.contains_key("attrs"@) {
                    let i = choose|i: int| 0 <= i < f.len() && (#[trigger] f[i]).0 == "attrs"@;
                    assert(i == 0 || i == 1 || i == 2 || i == 3);
                }
            }
        },
        EventView::Derivation(d) => {
            assert(!m.contains_key("attrs"@)) by {
                if m.contains_key("attrs"@) {
                    let i = choose|i: int| 0 <= i < f.len() && (#[trigger] f[i]).0 == "attrs"@;
                    assert(i == 0 || i == 1 || i == 2 || i == 3 || i == 4 || i == 5);
                }
            }
            assert(!m.contains_key("fatal"@)) by {
                if m.contains_key("fatal"@) {
                    let i = choose|i: int| 0 <= i < f.len() && (#[trigger] f[i]).0 == "fatal"@;
                    assert(i == 0 || i == 1 || i == 2 || i == 3 || i == 4 || i == 5);
                }
            }
        },
    }
}

/// Pairs of names and texts, from a list in which they alternate.
pub open spec fn paired(list: Seq<Seq<char>>) -> Seq<(Seq<char>, Seq<char>)>
    decreases list.len(),
{
    if list.len() < 2 {
        Seq::empty()
    } else {
        seq![(list[0], list[1])] + paired(list.skip(2))
    }
}

/// The pairs as arguments.
pub open spec fn args_of(
    pairs: Seq<(Seq<char>, Seq<char>)>,
    expr: bool,
) -> Seq<(Seq<char>, AutoArgView)> {
    pairs.map_values(
        |p: (Seq<char>, Seq<char>)|
            (
                p.0,
                if expr {
                    AutoArgView::Expr(p.1)
                } else {
                    AutoArgView::Str(p.1)
                },
            ),
    )
}

fn push_args(out: &mut Vec<(String, AutoArg)>, list: &Vec<String>, expr: bool) -> (r: bool)
    ensures
        r == (list@.len() % 2 == 0),
        r ==> args_view(final(out)@) == args_view(old(out)@) + args_of(paired(texts(list@)), expr),
{
    let ghost all = texts(list@);
    let ghost start = args_view(out@);
    let ghost wanted = args_of(paired(all), expr);
    let mut i: usize = 0;
    proof {
        assert(all.skip(0) =~= all);
        assert(start + args_of(paired(all.skip(0)), expr) =~= start + wanted);
    }
    while i + 1 < list.len()
        invariant
            i <= list.len(),
            i % 2 == 0,
            list.len() <= usize::MAX,
            all == texts(list@),
            wanted == args_of(paired(all), expr),
            args_view(out@) + args_of(paired(all.skip(i as int)), expr) == start + wanted,
        decreases list.len() - i,
    {
        let ghost before = args_view(out@);
        let name = list[i].clone();
        let text = list[i + 1].clone();
        let arg = if expr {
            AutoArg::Expr(text)
        } else {
            AutoArg::Str(text)
        };
        out.push((name, arg));
        proof {
            let rest = all.skip(i as int);
            assert(rest[0] == list@[i as int]@ && rest[1] == list@[i + 1]@);
            assert(rest.skip(2) =~= all.skip(i + 2));
            assert(args_view(out@) =~= before.push((name@, arg@)));
            let tail = args_of(paired(rest.skip(2)), expr);
            assert(args_of(paired(rest), expr) =~= seq![(name@, arg@)] + tail);
            assert(before.push((name@, arg@)) + tail =~= before + (seq![(name@, arg@)] + tail));
        }
        i += 2;
    }
    proof {
        let rest = all.skip(i as int);
        assert(args_of(paired(rest), expr) =~= Seq::empty());
        assert(args_view(out@) + args_of(paired(rest), expr) =~= args_view(out@));
    }
    i == list.len()
}

/// The automatic arguments that a command line gives: the expressions first, then the strings.
/// A name without its value is an error.
pub fn paired_args(args: &Vec<String>, argstrs: &Vec<String>) -> (r: Result<
    Vec<(String, AutoArg)>,
    ErrorChain,
>)
    ensures
        match r {
            Ok(pairs) => {
                &&& args@.len() % 2 == 0 && argstrs@.len() % 2 == 0
                &&& args_view(pairs@) == args_of(paired(texts(args@)), true) + args_of(
                    paired(texts(argstrs@)),
                    false,
                )
            },
            Err(e) => if args@.len() % 2 != 0 {
                e@ == seq!["--arg: expected NAME EXPR pair"@]
            } else {
                argstrs@.len() % 2 != 0 && e@ == seq!["--argstr: expected NAME VALUE pair"@]
            },
        },
{
    let mut out: Vec<(String, AutoArg)> = Vec::new();
    let ghost exprs = args_of(paired(texts(args@)), true);
    proof {
        assert(args_view(out@) =~= Seq::empty());
        assert(args_view(out@) + exprs =~= exprs);
    }
    if !push_args(&mut out, args, true) {
        return Err(ErrorChain::new("--arg: expected NAME EXPR pair"));
    }
    if !push_args(&mut out, argstrs, false) {
        return Err(ErrorChain::new("--argstr: expected NAME VALUE pair"));
    }
    Ok(out)
}

/// The input that a command line names: a flake before an expression before a file.
pub fn choose_input(flake: &Option<String>, expr: &Option<String>, file: &Option<String>) -> (r:
    Result<Input, ErrorChain>)
    ensures
        match r {
            Ok(input) => input@ == match *flake {
                Some(s) => InputView::Flake(s@),
                None => match *expr {
                    Some(s) => InputView::Expr(s@),
                    None => InputView::File(file->Some_0@),
                },
            } && (flake is Some || expr is Some || file is Some),
            Err(e) => {
                &&& flake is None && expr is None && file is None
                &&& e@ == seq!["no input specified"@]
            },
        },
{
    match flake {
        Some(s) => Ok(Input::Flake(s.clone())),
        None => match expr {
            Some(s) => Ok(Input::Expr(s.clone())),
            None => match file {
                Some(s) => Ok(Input::File(s.clone())),
                None => Err(ErrorChain::new("no input specified")),
            },
        },
    }
}

/// Whether a value is the list of these strings.
pub open spec fn is_list_of(t: Json, names: Seq<Seq<char>>) -> bool {
    &&& t matches Json::Array(items)
    &&& items.len() == names.len()
    &&& forall|i: int| 0 <= i < items.len() ==> #[trigger] items[i] == Json::Str(names[i])
}

/// The line of an event is an object whose members are the parts of the event under their names:
/// every event has its dotted path and its path, a derivation its name, system, store path and
/// outputs, an attribute set the names to go on with, and an error its message and whether it is
/// fatal. An output without a path is null.
pub proof fn law_lines_say_the_event(event: EventView)
    ensures
        event_tree(event) matches Json::Object(m) && match event {
            EventView::Derivation(d) => {
                &&& m.dom() =~= set!["attr"@, "attrPath"@, "name"@, "system"@, "drvPath"@, "outputs"@]
                &&& m["attr"@] == Json::Str(d.attr)
                &&& is_list_of(m["attrPath"@], d.attr_path)
                &&& m["name"@] == Json::Str(d.name)
                &&& m["system"@] == Json::Str(d.system)
                &&& m["drvPath"@] == Json::Str(d.drv_path)
                &&& m["outputs"@] matches Json::Object(outputs)
                &&& outputs.dom() =~= d.outputs.dom()
                &&& forall|k: Seq<char>| #[trigger]
                    outputs.contains_key(k) ==> match d.outputs[k] {
                        Some(path) => outputs[k] == Json::Str(path),
                        None => outputs[k] == Json::Null,
                    }
            },
            EventView::AttrSet { attr, attr_path, attrs } => {
                &&& m.dom() =~= set!["attr"@, "attrPath"@, "attrs"@]
                &&& m["attr"@] == Json::Str(attr)
                &&& is_list_of(m["attrPath"@], attr_path)
                &&& is_list_of(m["attrs"@], attrs)
            },
            EventView::Error(e) => {
                &&& m.dom() =~= set!["attr"@, "attrPath"@, "error"@, "fatal"@]
                &&& m["attr"@] == Json::Str(e.attr)
                &&& is_list_of(m["attrPath"@], e.attr_path)
                &&& m["error"@] == Json::Str(e.error)
                &&& m["fatal"@] == Json::Bool(e.fatal)
            },
        },
{
    let f = event_fields(event);
    lemma_names(event);
    lemma_members(f);
    let m = object_of(f);
    assert(event_tree(event) == Json::Object(m));
    match event {
        EventView::Derivation(d) => {
            assert(m[f[0].0] == f[0].1 && m[f[1].0] == f[1].1 && m[f[2].0] == f[2].1);
            assert(m[f[3].0] == f[3].1 && m[f[4].0] == f[4].1 && m[f[5].0] == f[5].1);
            let names = set!["attr"@, "attrPath"@, "name"@, "system"@, "drvPath"@, "outputs"@];
            assert forall|k: Seq<char>| m.dom().contains(k) <==> names.contains(k) by {
                if m.contains_key(k) {
                    let i = choose|i: int| 0 <= i < f.len() && (#[trigger] f[i]).0 == k;
                    assert(i == 0 || i == 1 || i == 2 || i == 3 || i == 4 || i == 5);
                }
                assert(m.contains_key(f[0].0) && m.contains_key(f[1].0) && m.contains_key(f[2].0));
                assert(m.contains_key(f[3].0) && m.contains_key(f[4].0) && m.contains_key(f[5].0));
            }
            assert(m.dom() =~= names);
            let outputs = m["outputs"@]->Object_0;
            assert(outputs == d.outputs.map_values(|p: Option<Seq<char>>| opt_tree(p)));
        },
        EventView::AttrSet { attr, attr_path, attrs } => {
            assert(m[f[0].0] == f[0].1 && m[f[1].0] == f[1].1 && m[f[2].0] == f[2].1);
            let names = set!["attr"@, "attrPath"@, "attrs"@];
            assert forall|k: Seq<char>| m.dom().contains(k) <==> names.contains(k) by {
                if m.contains_key(k) {
                    let i = choose|i: int| 0 <= i < f.len() && (#[trigger] f[i]).0 == k;
                    assert(i == 0 || i == 1 || i == 2);
                }
                assert(m.contains_key(f[0].0) && m.contains_key(f[1].0) && m.contains_key(f[2].0));
            }
            assert(m.dom() =~= names);
        },
        EventView::Error(e) => {
            assert(m[f[0].0] == f[0].1 && m[f[1].0] == f[1].1 && m[f[2].0] == f[2].1);
            assert(m[f[3].0] == f[3].1);
            let names = set!["attr"@, "attrPath"@, "error"@, "fatal"@];
            assert forall|k: Seq<char>| m.dom().contains(k) <==> names.contains(k) by {
                if m.contains_key(k) {
                    let i = choose|i: int| 0 <= i < f.len() && (#[trigger] f[i]).0 == k;
                    assert(i == 0 || i == 1 || i == 2 || i == 3);
                }
                assert(m.contains_key(f[0].0) && m.contains_key(f[1].0) && m.contains_key(f[2].0));
                assert(m.contains_key(f[3].0));
            }
            assert(m.dom() =~= names);
        },
    }
}

/// Every second word of a list of arguments is a name, and the word behind it its value: none is
/// lost, and they keep their order. An expression stays one, and so does a string.
pub proof fn law_arguments_are_names_and_values(list: Seq<Seq<char>>, expr: bool)
    ensures
        paired(list).len() == list.len() / 2,
        forall|i: int|
            0 <= i < paired(list).len() ==> #[trigger] paired(list)[i] == (
                list[2 * i],
                list[2 * i + 1],
            ),
        args_of(paired(list), expr).len() == list.len() / 2,
        forall|i: int|
            0 <= i < list.len() / 2 ==> {
                let arg = #[trigger] args_of(paired(list), expr)[i];
                &&& arg.0 == list[2 * i]
                &&& expr ==> arg.1 == AutoArgView::Expr(list[2 * i + 1])
                &&& !expr ==> arg.1 == AutoArgView::Str(list[2 * i + 1])
            },
    decreases list.len(),
{
    if list.len() >= 2 {
        let rest = list.skip(2);
        law_arguments_are_names_and_values(rest, expr);
        assert forall|i: int| 0 <= i < paired(list).len() implies #[trigger] paired(list)[i] == (
            list[2 * i],
            list[2 * i + 1],
        ) by {
            if i > 0 {
                assert(paired(list)[i] == paired(rest)[i - 1]);
                assert(rest[2 * (i - 1)] == list[2 * i]);
                assert(rest[2 * (i - 1) + 1] == list[2 * i + 1]);
            }
        }
        assert forall|i: int| 0 <= i < list.len() / 2 implies {
            let arg = #[trigger] args_of(paired(list), expr)[i];
            &&& arg.0 == list[2 * i]
            &&& expr ==> arg.1 == AutoArgView::Expr(list[2 * i + 1])
            &&& !expr ==> arg.1 == AutoArgView::Str(list[2 * i + 1])
        } by {
            assert(paired(list)[i] == (list[2 * i], list[2 * i + 1]));
        }
    }
}

/// A flake is taken before an expression, and that before a file; with none of them there is no
/// input.
pub proof fn law_inputs_are_chosen_in_order(
    flake: Option<String>,
    expr: Option<String>,
    file: Option<String>,
    r: Result<Input, ErrorChain>,
)
    requires
        call_ensures(choose_input, (&flake, &expr, &file), r),
    ensures
        flake matches Some(s) ==> (r matches Ok(input) && input@ == InputView::Flake(s@)),
        flake is None ==> (expr matches Some(s) ==> (r matches Ok(input) && input@
            == InputView::Expr(s@))),
        flake is None && expr is None ==> (file matches Some(s) ==> (r matches Ok(input) && input@
            == InputView::File(s@))),
        flake is None && expr is None && file is None ==> (r matches Err(e) && e@ == seq![
            "no input specified"@,
        ]),
{
}

/// Arguments come in pairs, and one that is left over is named by its flag.
pub proof fn law_single_arguments_are_refused(
    args: Vec<String>,
    argstrs: Vec<String>,
    r: Result<Vec<(String, AutoArg)>, ErrorChain>,
)
    requires
        call_ensures(paired_args, (&args, &argstrs), r),
    ensures
        r is Ok <==> args@.len() % 2 == 0 && argstrs@.len() % 2 == 0,
        args@.len() % 2 == 1 ==> (r matches Err(e) && e@ == seq![
            "--arg: expected NAME EXPR pair"@,
        ]),
        args@.len() % 2 == 0 && argstrs@.len() % 2 == 1 ==> (r matches Err(e) && e@ == seq![
            "--argstr: expected NAME VALUE pair"@,
        ]),
{
}

} // verus!
