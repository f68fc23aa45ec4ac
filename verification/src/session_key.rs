//! The key of a daemon session: the values of a configuration that the daemon protocol
//! carries, as text.

use vstd::prelude::*;

use crate::config::{Config, WireView};
use crate::error::ErrorChain;
use crate::json::{
    array, boolean, json_of, json_text, plain_within, string, trees, Json, PARSE_DEPTH,
};
use crate::json_build::{opt_tree, opt_value, texts_tree, texts_value};
use crate::json_frame::{
    apart, comparable, items_view, lemma_first_member_same, lemma_leaf_apart, lemma_list_same,
    lemma_number_apart, lemma_object_same, list_text, members_view, object_text, print_leaf,
    print_list, print_object, reads_back,
};
use crate::model::{
    args_view, pairs_view, remotes_view, AutoArg, AutoArgView, Input, InputView, Remote, RemoteView,
};
use crate::text::{decimal, decimal_of, same, text_opt, texts};

verus! {

/// What an input is called.
pub open spec fn input_kind(input: InputView) -> Seq<char> {
    match input {
        InputView::Flake(_) => "flake"@,
        InputView::Expr(_) => "expr"@,
        InputView::File(_) => "file"@,
    }
}

/// What stands for an input.
pub open spec fn input_content(input: InputView) -> Seq<char> {
    match input {
        InputView::Flake(s) => s,
        InputView::Expr(s) => s,
        InputView::File(s) => s,
    }
}

/// The members of an input.
pub open spec fn input_fields(input: InputView) -> Seq<(Seq<char>, Seq<char>)> {
    seq![
        ("type"@, json_text(Json::Str(input_kind(input)))),
        (
            if input is File {
                "path"@
            } else {
                "value"@
            },
            json_text(Json::Str(input_content(input))),
        ),
    ]
}

/// What an argument is called.
pub open spec fn arg_kind(arg: AutoArgView) -> Seq<char> {
    match arg {
        AutoArgView::Expr(_) => "expr"@,
        AutoArgView::Str(_) => "str"@,
    }
}

/// What stands for an argument.
pub open spec fn arg_content(arg: AutoArgView) -> Seq<char> {
    match arg {
        AutoArgView::Expr(s) => s,
        AutoArgView::Str(s) => s,
    }
}

/// The members of an argument.
pub open spec fn arg_fields(arg: (Seq<char>, AutoArgView)) -> Seq<(Seq<char>, Seq<char>)> {
    seq![
        ("name"@, json_text(Json::Str(arg.0))),
        ("kind"@, json_text(Json::Str(arg_kind(arg.1)))),
        ("value"@, json_text(Json::Str(arg_content(arg.1)))),
    ]
}

/// The arguments, each as an object.
pub open spec fn args_items(args: Seq<(Seq<char>, AutoArgView)>) -> Seq<Seq<char>> {
    args.map_values(|a: (Seq<char>, AutoArgView)| object_text(arg_fields(a)))
}

/// A pair of texts.
pub open spec fn pair_tree(pair: (Seq<char>, Seq<char>)) -> Json {
    Json::Array(seq![Json::Str(pair.0), Json::Str(pair.1)])
}

/// Pairs of texts.
pub open spec fn pairs_tree(pairs: Seq<(Seq<char>, Seq<char>)>) -> Json {
    Json::Array(pairs.map_values(|p: (Seq<char>, Seq<char>)| pair_tree(p)))
}

/// The members of a remote endpoint.
pub open spec fn remote_fields(remote: RemoteView) -> Seq<(Seq<char>, Seq<char>)> {
    seq![
        ("endpoint"@, json_text(Json::Str(remote.endpoint))),
        ("systems"@, json_text(texts_tree(remote.systems))),
        ("workers"@, decimal_of(remote.workers as nat)),
        ("token"@, json_text(opt_tree(remote.token))),
    ]
}

/// The remote endpoints, each as an object.
pub open spec fn remotes_items(remotes: Seq<RemoteView>) -> Seq<Seq<char>> {
    remotes.map_values(|r: RemoteView| object_text(remote_fields(r)))
}

/// The members of a key, in the order in which a configuration lists them.
pub open spec fn key_fields(wire: WireView) -> Seq<(Seq<char>, Seq<char>)> {
    seq![
        ("input"@, object_text(input_fields(wire.input))),
        ("autoArgs"@, list_text(args_items(wire.auto_args))),
        ("forceRecurse"@, json_text(Json::Bool(wire.force_recurse))),
        ("gcRootsDir"@, json_text(opt_tree(wire.gc_roots_dir))),
        ("workers"@, decimal_of(wire.workers as nat)),
        ("maxMemorySize"@, decimal_of(wire.max_memory_size as nat)),
        ("itemTimeoutSeconds"@, decimal_of(wire.item_timeout_seconds as nat)),
        ("meta"@, json_text(Json::Bool(wire.meta))),
        ("showInputDrvs"@, json_text(Json::Bool(wire.show_input_drvs))),
        ("overrideInputs"@, json_text(pairs_tree(wire.override_inputs))),
        ("nixOptions"@, json_text(pairs_tree(wire.nix_options))),
        ("remotes"@, list_text(remotes_items(wire.remotes))),
    ]
}

/// The key of a configuration.
pub open spec fn key_text(wire: WireView) -> Seq<char> {
    object_text(key_fields(wire))
}

/// Whether what stands for an input reads back.
pub open spec fn input_reads_back(input: InputView) -> bool {
    reads_back(Json::Str(input_kind(input))) && reads_back(Json::Str(input_content(input)))
}

/// Whether what stands for an argument reads back.
pub open spec fn arg_reads_back(arg: (Seq<char>, AutoArgView)) -> bool {
    &&& reads_back(Json::Str(arg.0))
    &&& reads_back(Json::Str(arg_kind(arg.1)))
    &&& reads_back(Json::Str(arg_content(arg.1)))
}

/// Whether what stands for a remote endpoint reads back.
pub open spec fn remote_reads_back(remote: RemoteView) -> bool {
    &&& reads_back(Json::Str(remote.endpoint))
    &&& reads_back(texts_tree(remote.systems))
    &&& reads_back(opt_tree(remote.token))
}

/// Whether every value in a key reads back.
pub open spec fn key_reads_back(wire: WireView) -> bool {
    &&& input_reads_back(wire.input)
    &&& forall|i: int| 0 <= i < wire.auto_args.len() ==> arg_reads_back(#[trigger] wire.auto_args[i])
    &&& reads_back(Json::Bool(wire.force_recurse))
    &&& reads_back(opt_tree(wire.gc_roots_dir))
    &&& reads_back(Json::Bool(wire.meta))
    &&& reads_back(Json::Bool(wire.show_input_drvs))
    &&& reads_back(pairs_tree(wire.override_inputs))
    &&& reads_back(pairs_tree(wire.nix_options))
    &&& forall|i: int| 0 <= i < wire.remotes.len() ==> remote_reads_back(#[trigger] wire.remotes[i])
}

proof fn lemma_array_plain(items: Seq<Json>, depth: nat)
    requires
        forall|i: int| 0 <= i < items.len() ==> plain_within(#[trigger] items[i], depth),
    ensures
        plain_within(Json::Array(items), (depth + 1) as nat),
{
}

proof fn lemma_leaf_plain(t: Json, depth: nat)
    requires
        t is Null || t is Bool || t is Int || t is Str,
    ensures
        plain_within(t, depth),
{
}

proof fn lemma_texts_plain(items: Seq<Seq<char>>, depth: nat)
    ensures
        plain_within(texts_tree(items), (depth + 1) as nat),
{
    let v = items.map_values(|s: Seq<char>| Json::Str(s));
    assert forall|i: int| 0 <= i < v.len() implies plain_within(#[trigger] v[i], depth) by {
        lemma_leaf_plain(v[i], depth);
    }
    lemma_array_plain(v, depth);
}

proof fn lemma_pair_plain(pair: (Seq<char>, Seq<char>), depth: nat)
    ensures
        plain_within(pair_tree(pair), (depth + 1) as nat),
{
    let items = seq![Json::Str(pair.0), Json::Str(pair.1)];
    assert forall|i: int| 0 <= i < items.len() implies plain_within(#[trigger] items[i], depth) by {
        lemma_leaf_plain(items[i], depth);
    }
    lemma_array_plain(items, depth);
}

proof fn lemma_pairs_plain(pairs: Seq<(Seq<char>, Seq<char>)>)
    ensures
        plain_within(pairs_tree(pairs), PARSE_DEPTH as nat),
{
    let items = pairs.map_values(|p: (Seq<char>, Seq<char>)| pair_tree(p));
    assert forall|i: int| 0 <= i < items.len() implies plain_within(#[trigger] items[i], 126) by {
        lemma_pair_plain(pairs[i], 125);
    }
    lemma_array_plain(items, 126);
}

fn string_text(s: &str) -> (r: Result<String, String>)
    ensures
        match r {
            Ok(text) => text@ == json_text(Json::Str(s@)) && reads_back(Json::Str(s@)),
            Err(_) => false,
        },
{
    print_leaf(&string(s.to_owned()))
}

fn bool_text(b: bool) -> (r: Result<String, String>)
    ensures
        match r {
            Ok(text) => text@ == json_text(Json::Bool(b)) && reads_back(Json::Bool(b)),
            Err(_) => false,
        },
{
    print_leaf(&boolean(b))
}

fn opt_text(s: &Option<String>) -> (r: Result<String, String>)
    ensures
        match r {
            Ok(text) => text@ == json_text(opt_tree(text_opt(*s))) && reads_back(
                opt_tree(text_opt(*s)),
            ),
            Err(_) => false,
        },
{
    print_leaf(&opt_value(s))
}

fn texts_text(items: &Vec<String>) -> (r: Result<String, String>)
    ensures
        match r {
            Ok(text) => text@ == json_text(texts_tree(texts(items@))) && reads_back(
                texts_tree(texts(items@)),
            ),
            Err(_) => false,
        },
{
    proof {
        lemma_texts_plain(texts(items@), 126);
    }
    print_leaf(&texts_value(items))
}

fn pairs_text(pairs: &Vec<(String, String)>) -> (r: Result<String, String>)
    ensures
        match r {
            Ok(text) => text@ == json_text(pairs_tree(pairs_view(pairs@))) && reads_back(
                pairs_tree(pairs_view(pairs@)),
            ),
            Err(_) => false,
        },
{
    proof {
        lemma_pairs_plain(pairs_view(pairs@));
    }
    print_leaf(&pairs_value(pairs))
}

fn input_text(input: &Input) -> (r: Result<String, String>)
    ensures
        match r {
            Ok(text) => text@ == object_text(input_fields(input@)) && input_reads_back(input@),
            Err(_) => false,
        },
{
    let (kind, name, content): (&'static str, &'static str, &String) = match input {
        Input::Flake(s) => ("flake", "value", s),
        Input::Expr(s) => ("expr", "value", s),
        Input::File(s) => ("file", "path", s),
    };
    let mut fields: Vec<(&'static str, String)> = Vec::new();
    fields.push(("type", string_text(kind)?));
    fields.push((name, string_text(content.as_str())?));
    proof {
        assert(members_view(fields@) =~= input_fields(input@));
    }
    Ok(print_object(&fields))
}

fn arg_text(name: &String, arg: &AutoArg) -> (r: Result<String, String>)
    ensures
        match r {
            Ok(text) => text@ == object_text(arg_fields((name@, arg@))) && arg_reads_back(
                (name@, arg@),
            ),
            Err(_) => false,
        },
{
    let (kind, content): (&'static str, &String) = match arg {
        AutoArg::Expr(s) => ("expr", s),
        AutoArg::Str(s) => ("str", s),
    };
    let mut fields: Vec<(&'static str, String)> = Vec::new();
    fields.push(("name", string_text(name.as_str())?));
    fields.push(("kind", string_text(kind)?));
    fields.push(("value", string_text(content.as_str())?));
    proof {
        assert(members_view(fields@) =~= arg_fields((name@, arg@)));
    }
    Ok(print_object(&fields))
}

fn args_text(args: &Vec<(String, AutoArg)>) -> (r: Result<String, String>)
    ensures
        match r {
            Ok(text) => {
                &&& text@ == list_text(args_items(args_view(args@)))
                &&& forall|i: int|
                    0 <= i < args_view(args@).len() ==> arg_reads_back(
                        #[trigger] args_view(args@)[i],
                    )
            },
            Err(_) => false,
        },
{
    let mut out: Vec<String> = Vec::new();
    let ghost all = args_view(args@);
    let mut i: usize = 0;
    while i < args.len()
        invariant
            i <= args.len(),
            all == args_view(args@),
            items_view(out@) == args_items(all).take(i as int),
            forall|j: int| 0 <= j < i ==> arg_reads_back(#[trigger] all[j]),
        decreases args.len() - i,
    {
        let ghost before = items_view(out@);
        let text = arg_text(&args[i].0, &args[i].1)?;
        out.push(text);
        proof {
            assert(all[i as int] == (args@[i as int].0@, args@[i as int].1@));
            assert(items_view(out@) =~= before.push(text@));
            assert(args_items(all).take(i + 1) =~= args_items(all).take(i as int).push(
                args_items(all)[i as int],
            ));
        }
        i += 1;
    }
    proof {
        assert(args_items(all).take(i as int) =~= args_items(all));
    }
    Ok(print_list(&out))
}

pub(crate) fn pairs_value(pairs: &Vec<(String, String)>) -> (r: serde_json::Value)
    ensures
        json_of(r) == pairs_tree(pairs_view(pairs@)),
{
    let mut out: Vec<serde_json::Value> = Vec::new();
    let ghost all = pairs_view(pairs@).map_values(|p: (Seq<char>, Seq<char>)| pair_tree(p));
    let mut i: usize = 0;
    while i < pairs.len()
        invariant
            i <= pairs.len(),
            all == pairs_view(pairs@).map_values(|p: (Seq<char>, Seq<char>)| pair_tree(p)),
            trees(out@) == all.take(i as int),
        decreases pairs.len() - i,
    {
        let ghost before = trees(out@);
        let mut two: Vec<serde_json::Value> = Vec::new();
        two.push(string(pairs[i].0.clone()));
        two.push(string(pairs[i].1.clone()));
        proof {
            assert(trees(two@) =~= seq![
                Json::Str(pairs@[i as int].0@),
                Json::Str(pairs@[i as int].1@),
            ]);
        }
        let value = array(two);
        out.push(value);
        proof {
            assert(trees(out@) =~= before.push(json_of(value)));
            assert(all.take(i + 1) =~= all.take(i as int).push(all[i as int]));
        }
        i += 1;
    }
    proof {
        assert(all.take(i as int) =~= all);
    }
    array(out)
}

fn remote_text(remote: &Remote) -> (r: Result<String, String>)
    ensures
        match r {
            Ok(text) => text@ == object_text(remote_fields(remote@)) && remote_reads_back(remote@),
            Err(_) => false,
        },
{
    let mut fields: Vec<(&'static str, String)> = Vec::new();
    fields.push(("endpoint", string_text(remote.endpoint.as_str())?));
    fields.push(("systems", texts_text(&remote.systems)?));
    fields.push(("workers", decimal(remote.workers as u64)));
    fields.push(("token", opt_text(&remote.token)?));
    proof {
        assert(members_view(fields@) =~= remote_fields(remote@));
    }
    Ok(print_object(&fields))
}

fn remotes_text(remotes: &Vec<Remote>) -> (r: Result<String, String>)
    ensures
        match r {
            Ok(text) => {
                &&& text@ == list_text(remotes_items(remotes_view(remotes@)))
                &&& forall|i: int|
                    0 <= i < remotes_view(remotes@).len() ==> remote_reads_back(
                        #[trigger] remotes_view(remotes@)[i],
                    )
            },
            Err(_) => false,
        },
{
    let mut out: Vec<String> = Vec::new();
    let ghost all = remotes_view(remotes@);
    let mut i: usize = 0;
    while i < remotes.len()
        invariant
            i <= remotes.len(),
            all == remotes_view(remotes@),
            items_view(out@) == remotes_items(all).take(i as int),
            forall|j: int| 0 <= j < i ==> remote_reads_back(#[trigger] all[j]),
        decreases remotes.len() - i,
    {
        let ghost before = items_view(out@);
        let text = remote_text(&remotes[i])?;
        out.push(text);
        proof {
            assert(all[i as int] == remotes@[i as int]@);
            assert(items_view(out@) =~= before.push(text@));
            assert(remotes_items(all).take(i + 1) =~= remotes_items(all).take(i as int).push(
                remotes_items(all)[i as int],
            ));
        }
        i += 1;
    }
    proof {
        assert(remotes_items(all).take(i as int) =~= remotes_items(all));
    }
    Ok(print_list(&out))
}

fn config_text(config: &Config) -> (r: Result<String, String>)
    ensures
        match r {
            Ok(text) => text@ == key_text(config@.wire) && key_reads_back(config@.wire),
            Err(_) => false,
        },
{
    let mut fields: Vec<(&'static str, String)> = Vec::new();
    fields.push(("input", input_text(&config.input)?));
    fields.push(("autoArgs", args_text(&config.auto_args)?));
    fields.push(("forceRecurse", bool_text(config.force_recurse)?));
    fields.push(("gcRootsDir", opt_text(&config.gc_roots_dir)?));
    fields.push(("workers", decimal(config.workers as u64)));
    fields.push(("maxMemorySize", decimal(config.max_memory_size as u64)));
    fields.push(("itemTimeoutSeconds", decimal(config.item_timeout_seconds)));
    fields.push(("meta", bool_text(config.meta)?));
    fields.push(("showInputDrvs", bool_text(config.show_input_drvs)?));
    fields.push(("overrideInputs", pairs_text(&config.override_inputs)?));
    fields.push(("nixOptions", pairs_text(&config.nix_options)?));
    fields.push(("remotes", remotes_text(&config.remotes)?));
    proof {
        assert(members_view(fields@) =~= key_fields(config@.wire));
    }
    Ok(print_object(&fields))
}

/// The key of a configuration. Every value in it reads back, so that no two configurations
/// that differ in what the protocol carries share a key.
pub fn session_key(config: &Config) -> (r: Result<String, ErrorChain>)
    ensures
        match r {
            Ok(key) => key@ == key_text(config@.wire) && key_reads_back(config@.wire),
            Err(_) => false,
        },
{
    match config_text(config) {
        Ok(text) => Ok(text),
        Err(cause) => Err(ErrorChain::new(cause.as_str()).context("serializing session key")),
    }
}

proof fn lemma_input_injective(a: InputView, b: InputView)
    requires
        input_reads_back(a),
        input_reads_back(b),
    ensures
        apart(object_text(input_fields(a)), object_text(input_fields(b))),
        object_text(input_fields(a)) == object_text(input_fields(b)) ==> a == b,
{
    let f = input_fields(a);
    let g = input_fields(b);
    let v = object_text(f);
    let w = object_text(g);
    lemma_leaf_apart(Json::Str(input_kind(a)), Json::Str(input_kind(b)));
    lemma_leaf_apart(Json::Str(input_content(a)), Json::Str(input_content(b)));
    reveal_strlit("flake");
    reveal_strlit("expr");
    reveal_strlit("file");
    assert("expr"@[0] != "file"@[0]);
    assert("flake"@.len() != "expr"@.len() && "flake"@.len() != "file"@.len());
    assert forall|x: Seq<char>, y: Seq<char>| #![trigger v + x, w + y] v + x == w + y implies a
        == b by {
        lemma_first_member_same(f, g, x, y);
        assert(input_kind(a) == input_kind(b));
        assert(comparable(f, g));
        lemma_object_same(f, g, x, y);
        assert(f[1] == g[1]);
    }
    if v == w {
        assert(v + Seq::empty() == w + Seq::empty());
    }
}

proof fn lemma_arg_injective(a: (Seq<char>, AutoArgView), b: (Seq<char>, AutoArgView))
    requires
        arg_reads_back(a),
        arg_reads_back(b),
    ensures
        apart(object_text(arg_fields(a)), object_text(arg_fields(b))),
        object_text(arg_fields(a)) == object_text(arg_fields(b)) ==> a == b,
{
    let f = arg_fields(a);
    let g = arg_fields(b);
    let v = object_text(f);
    let w = object_text(g);
    lemma_leaf_apart(Json::Str(a.0), Json::Str(b.0));
    lemma_leaf_apart(Json::Str(arg_kind(a.1)), Json::Str(arg_kind(b.1)));
    lemma_leaf_apart(Json::Str(arg_content(a.1)), Json::Str(arg_content(b.1)));
    reveal_strlit("expr");
    reveal_strlit("str");
    assert("expr"@.len() != "str"@.len());
    assert(comparable(f, g));
    assert forall|x: Seq<char>, y: Seq<char>| #![trigger v + x, w + y] v + x == w + y implies a
        == b by {
        lemma_object_same(f, g, x, y);
        assert(f[0] == g[0] && f[1] == g[1] && f[2] == g[2]);
    }
    if v == w {
        assert(v + Seq::empty() == w + Seq::empty());
    }
}

proof fn lemma_args_injective(a: Seq<(Seq<char>, AutoArgView)>, b: Seq<(Seq<char>, AutoArgView)>)
    requires
        forall|i: int| 0 <= i < a.len() ==> arg_reads_back(#[trigger] a[i]),
        forall|i: int| 0 <= i < b.len() ==> arg_reads_back(#[trigger] b[i]),
    ensures
        apart(list_text(args_items(a)), list_text(args_items(b))),
        list_text(args_items(a)) == list_text(args_items(b)) ==> a == b,
{
    let f = args_items(a);
    let g = args_items(b);
    let v = list_text(f);
    let w = list_text(g);
    assert forall|i: int| 0 <= i < f.len() implies (#[trigger] f[i]).len() > 0 && f[i][0] != ']' by {
        assert(f[i] == object_text(arg_fields(a[i])));
    }
    assert forall|i: int| 0 <= i < g.len() implies (#[trigger] g[i]).len() > 0 && g[i][0] != ']' by {
        assert(g[i] == object_text(arg_fields(b[i])));
    }
    assert forall|i: int| 0 <= i < f.len() && i < g.len() implies apart(
        #[trigger] f[i],
        #[trigger] g[i],
    ) by {
        lemma_arg_injective(a[i], b[i]);
    }
    assert forall|x: Seq<char>, y: Seq<char>| #![trigger v + x, w + y] v + x == w + y implies a
        == b by {
        lemma_list_same(f, g, x, y);
        assert(f.len() == g.len());
        assert forall|i: int| 0 <= i < a.len() implies a[i] == b[i] by {
            assert(f[i] == g[i]);
            lemma_arg_injective(a[i], b[i]);
        }
        assert(a =~= b);
    }
    if v == w {
        assert(v + Seq::empty() == w + Seq::empty());
    }
}

proof fn lemma_texts_injective(a: Seq<Seq<char>>, b: Seq<Seq<char>>)
    requires
        texts_tree(a) == texts_tree(b),
    ensures
        a == b,
{
    let x = a.map_values(|s: Seq<char>| Json::Str(s));
    let y = b.map_values(|s: Seq<char>| Json::Str(s));
    assert(x == y);
    assert(x.len() == y.len());
    assert forall|i: int| 0 <= i < a.len() implies a[i] == b[i] by {
        assert(x[i] == y[i]);
    }
    assert(a =~= b);
}

proof fn lemma_remote_injective(a: RemoteView, b: RemoteView)
    requires
        remote_reads_back(a),
        remote_reads_back(b),
    ensures
        apart(object_text(remote_fields(a)), object_text(remote_fields(b))),
        object_text(remote_fields(a)) == object_text(remote_fields(b)) ==> a == b,
{
    let f = remote_fields(a);
    let g = remote_fields(b);
    let v = object_text(f);
    let w = object_text(g);
    lemma_leaf_apart(Json::Str(a.endpoint), Json::Str(b.endpoint));
    lemma_leaf_apart(texts_tree(a.systems), texts_tree(b.systems));
    lemma_number_apart(a.workers as nat, b.workers as nat);
    lemma_leaf_apart(opt_tree(a.token), opt_tree(b.token));
    assert(comparable(f, g));
    assert forall|x: Seq<char>, y: Seq<char>| #![trigger v + x, w + y] v + x == w + y implies a
        == b by {
        lemma_object_same(f, g, x, y);
        assert(f[0] == g[0] && f[1] == g[1] && f[2] == g[2] && f[3] == g[3]);
        lemma_texts_injective(a.systems, b.systems);
    }
    if v == w {
        assert(v + Seq::empty() == w + Seq::empty());
    }
}

proof fn lemma_remotes_injective(a: Seq<RemoteView>, b: Seq<RemoteView>)
    requires
        forall|i: int| 0 <= i < a.len() ==> remote_reads_back(#[trigger] a[i]),
        forall|i: int| 0 <= i < b.len() ==> remote_reads_back(#[trigger] b[i]),
    ensures
        apart(list_text(remotes_items(a)), list_text(remotes_items(b))),
        list_text(remotes_items(a)) == list_text(remotes_items(b)) ==> a == b,
{
    let f = remotes_items(a);
    let g = remotes_items(b);
    let v = list_text(f);
    let w = list_text(g);
    assert forall|i: int| 0 <= i < f.len() implies (#[trigger] f[i]).len() > 0 && f[i][0] != ']' by {
        assert(f[i] == object_text(remote_fields(a[i])));
    }
    assert forall|i: int| 0 <= i < g.len() implies (#[trigger] g[i]).len() > 0 && g[i][0] != ']' by {
        assert(g[i] == object_text(remote_fields(b[i])));
    }
    assert forall|i: int| 0 <= i < f.len() && i < g.len() implies apart(
        #[trigger] f[i],
        #[trigger] g[i],
    ) by {
        lemma_remote_injective(a[i], b[i]);
    }
    assert forall|x: Seq<char>, y: Seq<char>| #![trigger v + x, w + y] v + x == w + y implies a
        == b by {
        lemma_list_same(f, g, x, y);
        assert(f.len() == g.len());
        assert forall|i: int| 0 <= i < a.len() implies a[i] == b[i] by {
            assert(f[i] == g[i]);
            lemma_remote_injective(a[i], b[i]);
        }
        assert(a =~= b);
    }
    if v == w {
        assert(v + Seq::empty() == w + Seq::empty());
    }
}

proof fn lemma_pairs_injective(a: Seq<(Seq<char>, Seq<char>)>, b: Seq<(Seq<char>, Seq<char>)>)
    requires
        pairs_tree(a) == pairs_tree(b),
    ensures
        a == b,
{
    let x = a.map_values(|p: (Seq<char>, Seq<char>)| pair_tree(p));
    let y = b.map_values(|p: (Seq<char>, Seq<char>)| pair_tree(p));
    assert(x == y);
    assert(x.len() == y.len());
    assert forall|i: int| 0 <= i < a.len() implies a[i] == b[i] by {
        assert(x[i] == y[i]);
        let p = seq![Json::Str(a[i].0), Json::Str(a[i].1)];
        let q = seq![Json::Str(b[i].0), Json::Str(b[i].1)];
        assert(p == q);
        assert(p[0] == q[0] && p[1] == q[1]);
    }
    assert(a =~= b);
}

/// No two configurations that differ in anything that the daemon protocol carries share a
/// key.
pub proof fn law_keys_differ(a: WireView, b: WireView)
    requires
        key_reads_back(a),
        key_reads_back(b),
    ensures
        key_text(a) == key_text(b) <==> a == b,
{
    if key_text(a) == key_text(b) {
        let f = key_fields(a);
        let g = key_fields(b);
        lemma_input_injective(a.input, b.input);
        lemma_args_injective(a.auto_args, b.auto_args);
        lemma_leaf_apart(Json::Bool(a.force_recurse), Json::Bool(b.force_recurse));
        lemma_leaf_apart(opt_tree(a.gc_roots_dir), opt_tree(b.gc_roots_dir));
        lemma_number_apart(a.workers as nat, b.workers as nat);
        lemma_number_apart(a.max_memory_size as nat, b.max_memory_size as nat);
        lemma_number_apart(a.item_timeout_seconds as nat, b.item_timeout_seconds as nat);
        lemma_leaf_apart(Json::Bool(a.meta), Json::Bool(b.meta));
        lemma_leaf_apart(Json::Bool(a.show_input_drvs), Json::Bool(b.show_input_drvs));
        lemma_leaf_apart(pairs_tree(a.override_inputs), pairs_tree(b.override_inputs));
        lemma_leaf_apart(pairs_tree(a.nix_options), pairs_tree(b.nix_options));
        lemma_remotes_injective(a.remotes, b.remotes);
        assert(comparable(f, g));
        lemma_object_same(f, g, Seq::empty(), Seq::empty());
        assert(f[0] == g[0] && f[1] == g[1] && f[2] == g[2] && f[3] == g[3]);
        assert(f[4] == g[4] && f[5] == g[5] && f[6] == g[6] && f[7] == g[7]);
        assert(f[8] == g[8] && f[9] == g[9] && f[10] == g[10] && f[11] == g[11]);
        lemma_pairs_injective(a.override_inputs, b.override_inputs);
        lemma_pairs_injective(a.nix_options, b.nix_options);
        assert(a == b);
    }
}

/// Whether two configurations have the same key: exactly when they agree in everything that
/// the daemon protocol carries. The local worker executable plays no role.
pub fn same_session(a: &Config, b: &Config) -> (r: Result<bool, ErrorChain>)
    ensures
        r == Ok::<bool, ErrorChain>(a@.wire == b@.wire),
{
    match (session_key(a), session_key(b)) {
        (Ok(x), Ok(y)) => {
            proof {
                law_keys_differ(a@.wire, b@.wire);
            }
            Ok(same(x.as_str(), y.as_str()))
        },
        (Err(e), _) => Err(e),
        (_, Err(e)) => Err(e),
    }
}

} // verus!
