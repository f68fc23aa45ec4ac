//! The JSON form of what a client asks of a daemon.

use vstd::prelude::*;

use crate::config::{Config, ConfigView, WireView};
use crate::json::{array, boolean, json_of, member_of, natural, string, trees, Json};
use crate::json_build::{
    distinct, lemma_members, object_of, opt_tree, opt_value, texts_tree, texts_value, Fields,
};
use crate::model::{
    args_view, remotes_view, AutoArg, AutoArgView, Filter, FilterView, Input, InputView, Remote,
    RemoteView,
};
use crate::protocol::{Request, RequestView, DAEMON_PROTOCOL_VERSION};
use crate::session_key::{
    arg_content, arg_kind, input_content, input_kind, pairs_tree, pairs_value,
};

verus! {

/// The members of an input.
pub open spec fn input_members(input: InputView) -> Seq<(Seq<char>, Json)> {
    seq![
        ("type"@, Json::Str(input_kind(input))),
        (
            if input is File {
                "path"@
            } else {
                "value"@
            },
            Json::Str(input_content(input)),
        ),
    ]
}

/// The members of an argument.
pub open spec fn arg_members(arg: (Seq<char>, AutoArgView)) -> Seq<(Seq<char>, Json)> {
    seq![
        ("name"@, Json::Str(arg.0)),
        ("kind"@, Json::Str(arg_kind(arg.1))),
        ("value"@, Json::Str(arg_content(arg.1))),
    ]
}

/// The arguments, each as an object.
pub open spec fn args_tree(args: Seq<(Seq<char>, AutoArgView)>) -> Json {
    Json::Array(
        args.map_values(|a: (Seq<char>, AutoArgView)| Json::Object(object_of(arg_members(a)))),
    )
}

/// The members of a remote endpoint.
pub open spec fn remote_members(remote: RemoteView) -> Seq<(Seq<char>, Json)> {
    seq![
        ("endpoint"@, Json::Str(remote.endpoint)),
        ("systems"@, texts_tree(remote.systems)),
        ("workers"@, Json::Int(remote.workers as int)),
        ("token"@, opt_tree(remote.token)),
    ]
}

/// The remote endpoints, each as an object.
pub open spec fn remotes_tree(remotes: Seq<RemoteView>) -> Json {
    Json::Array(remotes.map_values(|r: RemoteView| Json::Object(object_of(remote_members(r)))))
}

/// The members of a configuration: all that it holds but the local worker executable.
pub open spec fn config_members(wire: WireView) -> Seq<(Seq<char>, Json)> {
    seq![
        ("input"@, Json::Object(object_of(input_members(wire.input)))),
        ("autoArgs"@, args_tree(wire.auto_args)),
        ("forceRecurse"@, Json::Bool(wire.force_recurse)),
        ("gcRootsDir"@, opt_tree(wire.gc_roots_dir)),
        ("workers"@, Json::Int(wire.workers as int)),
        ("maxMemorySize"@, Json::Int(wire.max_memory_size as int)),
        ("itemTimeoutSeconds"@, Json::Int(wire.item_timeout_seconds as int)),
        ("meta"@, Json::Bool(wire.meta)),
        ("showInputDrvs"@, Json::Bool(wire.show_input_drvs)),
        ("overrideInputs"@, pairs_tree(wire.override_inputs)),
        ("nixOptions"@, pairs_tree(wire.nix_options)),
        ("remotes"@, remotes_tree(wire.remotes)),
    ]
}

/// A configuration as an object.
pub open spec fn config_tree(wire: WireView) -> Json {
    Json::Object(object_of(config_members(wire)))
}

/// A filter as an object.
pub open spec fn filter_tree(filter: FilterView) -> Json {
    Json::Object(
        object_of(
            seq![
                ("attrPrefix"@, opt_tree(filter.attr_prefix)),
                ("system"@, opt_tree(filter.system)),
            ],
        ),
    )
}

/// What a request is called.
pub open spec fn request_kind(request: RequestView) -> Seq<char> {
    match request {
        RequestView::Eval(_, _) => "eval"@,
        RequestView::Watch(_, _) => "watch"@,
        RequestView::Query(_, _, _) => "query"@,
        RequestView::Diff(_, _) => "diff"@,
    }
}

/// What a request asks to have evaluated.
pub open spec fn request_wire(request: RequestView) -> WireView {
    match request {
        RequestView::Eval(_, config) => config.wire,
        RequestView::Watch(_, config) => config.wire,
        RequestView::Query(_, config, _) => config.wire,
        RequestView::Diff(_, config) => config.wire,
    }
}

/// The members of a request.
pub open spec fn request_members(request: RequestView) -> Seq<(Seq<char>, Json)> {
    let common = seq![
        ("type"@, Json::Str(request_kind(request))),
        ("protocolVersion"@, Json::Int(request.version() as int)),
        ("config"@, config_tree(request_wire(request))),
    ];
    match request {
        RequestView::Query(_, _, filter) => common.push(("filter"@, filter_tree(filter))),
        _ => common,
    }
}

/// A request as an object.
pub open spec fn request_tree(request: RequestView) -> Json {
    Json::Object(object_of(request_members(request)))
}

fn input_value(input: &Input) -> (r: serde_json::Value)
    ensures
        json_of(r) == Json::Object(object_of(input_members(input@))),
{
    let (kind, name, content): (&'static str, &'static str, &String) = match input {
        Input::Flake(s) => ("flake", "value", s),
        Input::Expr(s) => ("expr", "value", s),
        Input::File(s) => ("file", "path", s),
    };
    let mut fields = Fields::new();
    fields.field("type", string(kind.to_owned()));
    fields.field(name, string(content.clone()));
    proof {
        assert(fields.listed@ =~= input_members(input@));
    }
    fields.build()
}

fn arg_value(name: &String, arg: &AutoArg) -> (r: serde_json::Value)
    ensures
        json_of(r) == Json::Object(object_of(arg_members((name@, arg@)))),
{
    let (kind, content): (&'static str, &String) = match arg {
        AutoArg::Expr(s) => ("expr", s),
        AutoArg::Str(s) => ("str", s),
    };
    let mut fields = Fields::new();
    fields.field("name", string(name.clone()));
    fields.field("kind", string(kind.to_owned()));
    fields.field("value", string(content.clone()));
    proof {
        assert(fields.listed@ =~= arg_members((name@, arg@)));
    }
    fields.build()
}

fn args_value(args: &Vec<(String, AutoArg)>) -> (r: serde_json::Value)
    ensures
        json_of(r) == args_tree(args_view(args@)),
{
    let mut out: Vec<serde_json::Value> = Vec::new();
    let ghost all = args_tree(args_view(args@))->Array_0;
    let mut i: usize = 0;
    while i < args.len()
        invariant
            i <= args.len(),
            all == args_tree(args_view(args@))->Array_0,
            trees(out@) == all.take(i as int),
        decreases args.len() - i,
    {
        let ghost before = trees(out@);
        let value = arg_value(&args[i].0, &args[i].1);
        out.push(value);
        proof {
            assert(trees(out@) =~= before.push(json_of(value)));
            assert(all.take(i + 1) =~= all.take(i as int).push(all[i as int]));
        }
        i += 1;
    }
    proof {
        assert(all.take(i as int) =~= all);
    }
    array(out)
}

fn remote_value(remote: &Remote) -> (r: serde_json::Value)
    ensures
        json_of(r) == Json::Object(object_of(remote_members(remote@))),
{
    let mut fields = Fields::new();
    fields.field("endpoint", string(remote.endpoint.clone()));
    fields.field("systems", texts_value(&remote.systems));
    fields.field("workers", natural(remote.workers as u64));
    fields.field("token", opt_value(&remote.token));
    proof {
        assert(fields.listed@ =~= remote_members(remote@));
    }
    fields.build()
}

fn remotes_value(remotes: &Vec<Remote>) -> (r: serde_json::Value)
    ensures
        json_of(r) == remotes_tree(remotes_view(remotes@)),
{
    let mut out: Vec<serde_json::Value> = Vec::new();
    let ghost all = remotes_tree(remotes_view(remotes@))->Array_0;
    let mut i: usize = 0;
    while i < remotes.len()
        invariant
            i <= remotes.len(),
            all == remotes_tree(remotes_view(remotes@))->Array_0,
            trees(out@) == all.take(i as int),
        decreases remotes.len() - i,
    {
        let ghost before = trees(out@);
        let value = remote_value(&remotes[i]);
        out.push(value);
        proof {
            assert(trees(out@) =~= before.push(json_of(value)));
            assert(all.take(i + 1) =~= all.take(i as int).push(all[i as int]));
        }
        i += 1;
    }
    proof {
        assert(all.take(i as int) =~= all);
    }
    array(out)
}

fn config_value(config: &Config) -> (r: serde_json::Value)
    ensures
        json_of(r) == config_tree(config@.wire),
{
    let mut fields = Fields::new();
    fields.field("input", input_value(&config.input));
    fields.field("autoArgs", args_value(&config.auto_args));
    fields.field("forceRecurse", boolean(config.force_recurse));
    fields.field("gcRootsDir", opt_value(&config.gc_roots_dir));
    fields.field("workers", natural(config.workers as u64));
    fields.field("maxMemorySize", natural(config.max_memory_size as u64));
    fields.field("itemTimeoutSeconds", natural(config.item_timeout_seconds));
    fields.field("meta", boolean(config.meta));
    fields.field("showInputDrvs", boolean(config.show_input_drvs));
    fields.field("overrideInputs", pairs_value(&config.override_inputs));
    fields.field("nixOptions", pairs_value(&config.nix_options));
    fields.field("remotes", remotes_value(&config.remotes));
    proof {
        assert(fields.listed@ =~= config_members(config@.wire));
    }
    fields.build()
}

fn filter_value(filter: &Filter) -> (r: serde_json::Value)
    ensures
        json_of(r) == filter_tree(filter@),
{
    let mut fields = Fields::new();
    fields.field("attrPrefix", opt_value(&filter.attr_prefix));
    fields.field("system", opt_value(&filter.system));
    proof {
        assert(fields.listed@ =~= seq![
            ("attrPrefix"@, opt_tree(filter@.attr_prefix)),
            ("system"@, opt_tree(filter@.system)),
        ]);
    }
    fields.build()
}

/// The JSON form of a request.
pub fn request_json(request: &Request) -> (r: serde_json::Value)
    ensures
        json_of(r) == request_tree(request@),
{
    let (kind, version, config): (&'static str, u32, &Config) = match request {
        Request::Eval { protocol_version, config } => ("eval", *protocol_version, config),
        Request::Watch { protocol_version, config } => ("watch", *protocol_version, config),
        Request::Query { protocol_version, config, filter: _ } => (
            "query",
            *protocol_version,
            config,
        ),
        Request::Diff { protocol_version, config } => ("diff", *protocol_version, config),
    };
    let mut fields = Fields::new();
    fields.field("type", string(kind.to_owned()));
    fields.field("protocolVersion", natural(version as u64));
    fields.field("config", config_value(config));
    if let Request::Query { protocol_version: _, config: _, filter } = request {
        fields.field("filter", filter_value(filter));
    }
    proof {
        assert(fields.listed@ =~= request_members(request@));
    }
    fields.build()
}

/// The JSON form of a request says what is asked, of what, and in which version of the
/// protocol.
pub proof fn law_requests_carry_their_version(request: RequestView)
    ensures
        member_of(request_tree(request), "protocolVersion"@) == Some(
            Json::Int(request.version() as int),
        ),
        member_of(request_tree(request), "type"@) == Some(Json::Str(request_kind(request))),
        member_of(request_tree(request), "config"@) == Some(config_tree(request_wire(request))),
        request matches RequestView::Query(_, _, filter) ==> member_of(
            request_tree(request),
            "filter"@,
        ) == Some(filter_tree(filter)),
{
    let f = request_members(request);
    reveal_strlit("type");
    reveal_strlit("protocolVersion");
    reveal_strlit("config");
    reveal_strlit("filter");
    assert("type"@.len() == 4 && "protocolVersion"@.len() == 15);
    assert("config"@.len() == 6 && "filter"@.len() == 6);
    assert("config"@[0] != "filter"@[0]);
    assert(f[0].0 == "type"@ && f[1].0 == "protocolVersion"@ && f[2].0 == "config"@);
    assert(f.len() == 4 ==> f[3].0 == "filter"@);
    assert forall|i: int, j: int| 0 <= i < j < f.len() implies (#[trigger] f[i]).0 != (
    #[trigger] f[j]).0 by {
        assert(i == 0 || i == 1 || i == 2);
        assert(j == 1 || j == 2 || j == 3);
    }
    assert(distinct(f));
    lemma_members(f);
    assert(object_of(f).contains_key(f[0].0) && object_of(f).contains_key(f[1].0));
    assert(object_of(f).contains_key(f[2].0));
    if request is Query {
        assert(object_of(f).contains_key(f[3].0));
    }
}

/// Whatever a client asks, its request carries the version of the protocol that the client
/// speaks, and is not refused over it.
pub proof fn law_clients_say_their_version(config: ConfigView, filter: FilterView)
    ensures
        forall|request: RequestView|
            #![trigger request_tree(request)]
            request == RequestView::Eval(DAEMON_PROTOCOL_VERSION, config) || request
                == RequestView::Watch(DAEMON_PROTOCOL_VERSION, config) || request
                == RequestView::Query(DAEMON_PROTOCOL_VERSION, config, filter) || request
                == RequestView::Diff(DAEMON_PROTOCOL_VERSION, config) ==> {
                &&& request.version() == DAEMON_PROTOCOL_VERSION
                &&& member_of(request_tree(request), "protocolVersion"@) == Some(
                    Json::Int(DAEMON_PROTOCOL_VERSION as int),
                )
            },
{
    law_requests_carry_their_version(RequestView::Eval(DAEMON_PROTOCOL_VERSION, config));
    law_requests_carry_their_version(RequestView::Watch(DAEMON_PROTOCOL_VERSION, config));
    law_requests_carry_their_version(RequestView::Query(DAEMON_PROTOCOL_VERSION, config, filter));
    law_requests_carry_their_version(RequestView::Diff(DAEMON_PROTOCOL_VERSION, config));
}

proof fn lemma_config_names()
    ensures
        forall|wire: WireView| #[trigger] distinct(config_members(wire)),
{
    reveal_strlit("input");
    reveal_strlit("autoArgs");
    reveal_strlit("forceRecurse");
    reveal_strlit("gcRootsDir");
    reveal_strlit("workers");
    reveal_strlit("maxMemorySize");
    reveal_strlit("itemTimeoutSeconds");
    reveal_strlit("meta");
    reveal_strlit("showInputDrvs");
    reveal_strlit("overrideInputs");
    reveal_strlit("nixOptions");
    reveal_strlit("remotes");
    assert("input"@.len() == 5 && "autoArgs"@.len() == 8 && "forceRecurse"@.len() == 12);
    assert("gcRootsDir"@.len() == 10 && "workers"@.len() == 7 && "maxMemorySize"@.len() == 13);
    assert("itemTimeoutSeconds"@.len() == 18 && "meta"@.len() == 4 && "showInputDrvs"@.len() == 13);
    assert("overrideInputs"@.len() == 14 && "nixOptions"@.len() == 10 && "remotes"@.len() == 7);
    assert("gcRootsDir"@[0] != "nixOptions"@[0]);
    assert("workers"@[0] != "remotes"@[0]);
    assert("maxMemorySize"@[0] != "showInputDrvs"@[0]);
    let names = seq![
        "input"@,
        "autoArgs"@,
        "forceRecurse"@,
        "gcRootsDir"@,
        "workers"@,
        "maxMemorySize"@,
        "itemTimeoutSeconds"@,
        "meta"@,
        "showInputDrvs"@,
        "overrideInputs"@,
        "nixOptions"@,
        "remotes"@,
    ];
    assert forall|wire: WireView| #[trigger] distinct(config_members(wire)) by {
        let f = config_members(wire);
        assert(f.len() == 12);
        assert(f[0].0 == names[0] && f[1].0 == names[1] && f[2].0 == names[2]);
        assert(f[3].0 == names[3] && f[4].0 == names[4] && f[5].0 == names[5]);
        assert(f[6].0 == names[6] && f[7].0 == names[7] && f[8].0 == names[8]);
        assert(f[9].0 == names[9] && f[10].0 == names[10] && f[11].0 == names[11]);
        assert forall|i: int, j: int| 0 <= i < j < f.len() implies (#[trigger] f[i]).0 != (
        #[trigger] f[j]).0 by {
            assert(f[i].0 == names[i] && f[j].0 == names[j]);
            assert(names[i].len() != names[j].len() || names[i][0] != names[j][0]);
        }
    }
}

/// The configuration of a request is an object whose members are its settings, each under its
/// own name.
pub proof fn law_requests_say_every_setting(wire: WireView)
    ensures
        config_tree(wire) matches Json::Object(m) && {
            &&& m.contains_key("forceRecurse"@) && m["forceRecurse"@] == Json::Bool(
                wire.force_recurse,
            )
            &&& m.contains_key("workers"@) && m["workers"@] == Json::Int(wire.workers as int)
            &&& m.contains_key("maxMemorySize"@) && m["maxMemorySize"@] == Json::Int(
                wire.max_memory_size as int,
            )
            &&& m.contains_key("itemTimeoutSeconds"@) && m["itemTimeoutSeconds"@] == Json::Int(
                wire.item_timeout_seconds as int,
            )
            &&& m.contains_key("meta"@) && m["meta"@] == Json::Bool(wire.meta)
            &&& m.contains_key("showInputDrvs"@) && m["showInputDrvs"@] == Json::Bool(
                wire.show_input_drvs,
            )
            &&& m.contains_key("gcRootsDir"@) && match wire.gc_roots_dir {
                Some(dir) => m["gcRootsDir"@] == Json::Str(dir),
                None => m["gcRootsDir"@] == Json::Null,
            }
            &&& m.contains_key("nixOptions"@) && lists_the_pairs(m["nixOptions"@], wire.nix_options)
            &&& m.contains_key("overrideInputs"@) && lists_the_pairs(
                m["overrideInputs"@],
                wire.override_inputs,
            )
            &&& m.contains_key("input"@) && m.contains_key("autoArgs"@) && m.contains_key(
                "remotes"@,
            )
            &&& m["autoArgs"@] matches Json::Array(args) && args.len() == wire.auto_args.len()
            &&& m["remotes"@] matches Json::Array(remotes) && remotes.len() == wire.remotes.len()
        },
{
    lemma_config_names();
    let f = config_members(wire);
    assert(distinct(f));
    lemma_members(f);
    let m = object_of(f);
    assert(config_tree(wire) == Json::Object(m));
    assert(m.contains_key(f[0].0) && m[f[0].0] == f[0].1);
    assert(m.contains_key(f[1].0) && m[f[1].0] == f[1].1);
    assert(m.contains_key(f[2].0) && m[f[2].0] == f[2].1);
    assert(m.contains_key(f[3].0) && m[f[3].0] == f[3].1);
    assert(m.contains_key(f[4].0) && m[f[4].0] == f[4].1);
    assert(m.contains_key(f[5].0) && m[f[5].0] == f[5].1);
    assert(m.contains_key(f[6].0) && m[f[6].0] == f[6].1);
    assert(m.contains_key(f[7].0) && m[f[7].0] == f[7].1);
    assert(m.contains_key(f[8].0) && m[f[8].0] == f[8].1);
    assert(m.contains_key(f[9].0) && m[f[9].0] == f[9].1);
    assert(m.contains_key(f[10].0) && m[f[10].0] == f[10].1);
    assert(m.contains_key(f[11].0) && m[f[11].0] == f[11].1);
}

/// Whether a value lists these pairs, each as a list of two strings.
pub open spec fn lists_the_pairs(t: Json, pairs: Seq<(Seq<char>, Seq<char>)>) -> bool {
    &&& t matches Json::Array(items)
    &&& items.len() == pairs.len()
    &&& forall|i: int|
        0 <= i < items.len() ==> #[trigger] items[i] == Json::Array(
            seq![Json::Str(pairs[i].0), Json::Str(pairs[i].1)],
        )
}

/// What is asked is named by the kind of the request, and it is asked of the configuration that
/// the request holds.
pub proof fn law_requests_are_named_by_their_kind(v: u32, config: ConfigView, filter: FilterView)
    ensures
        member_of(request_tree(RequestView::Eval(v, config)), "type"@) == Some(Json::Str("eval"@)),
        member_of(request_tree(RequestView::Watch(v, config)), "type"@) == Some(
            Json::Str("watch"@),
        ),
        member_of(request_tree(RequestView::Query(v, config, filter)), "type"@) == Some(
            Json::Str("query"@),
        ),
        member_of(request_tree(RequestView::Diff(v, config)), "type"@) == Some(Json::Str("diff"@)),
        member_of(request_tree(RequestView::Eval(v, config)), "config"@) == Some(
            config_tree(config.wire),
        ),
        member_of(request_tree(RequestView::Watch(v, config)), "config"@) == Some(
            config_tree(config.wire),
        ),
        member_of(request_tree(RequestView::Query(v, config, filter)), "config"@) == Some(
            config_tree(config.wire),
        ),
        member_of(request_tree(RequestView::Diff(v, config)), "config"@) == Some(
            config_tree(config.wire),
        ),
{
    law_requests_carry_their_version(RequestView::Eval(v, config));
    law_requests_carry_their_version(RequestView::Watch(v, config));
    law_requests_carry_their_version(RequestView::Query(v, config, filter));
    law_requests_carry_their_version(RequestView::Diff(v, config));
}

/// An input, an argument and a remote endpoint are objects that say what they are and what
/// stands for them.
pub proof fn law_parts_of_requests_say_what_they_are(
    text: Seq<char>,
    name: Seq<char>,
    remote: RemoteView,
    filter: FilterView,
)
    ensures
        input_members(InputView::Flake(text)) == seq![
            ("type"@, Json::Str("flake"@)),
            ("value"@, Json::Str(text)),
        ],
        input_members(InputView::Expr(text)) == seq![
            ("type"@, Json::Str("expr"@)),
            ("value"@, Json::Str(text)),
        ],
        input_members(InputView::File(text)) == seq![
            ("type"@, Json::Str("file"@)),
            ("path"@, Json::Str(text)),
        ],
        arg_members((name, AutoArgView::Expr(text))) == seq![
            ("name"@, Json::Str(name)),
            ("kind"@, Json::Str("expr"@)),
            ("value"@, Json::Str(text)),
        ],
        arg_members((name, AutoArgView::Str(text))) == seq![
            ("name"@, Json::Str(name)),
            ("kind"@, Json::Str("str"@)),
            ("value"@, Json::Str(text)),
        ],
        remote_members(remote)[0] == ("endpoint"@, Json::Str(remote.endpoint)),
        remote_members(remote)[2] == ("workers"@, Json::Int(remote.workers as int)),
        remote.token matches Some(token) ==> remote_members(remote)[3] == (
            "token"@,
            Json::Str(token),
        ),
        remote.token is None ==> remote_members(remote)[3] == ("token"@, Json::Null),
{
}

/// A filter says the prefix and the system that it asks for, each under its own name, and `null`
/// for what it does not ask for.
pub proof fn law_filters_say_what_they_ask_for(filter: FilterView)
    ensures
        filter_tree(filter) matches Json::Object(members) && {
            &&& members.dom() == set!["attrPrefix"@, "system"@]
            &&& filter.attr_prefix matches Some(s) ==> members["attrPrefix"@] == Json::Str(s)
            &&& filter.attr_prefix is None ==> members["attrPrefix"@] == Json::Null
            &&& filter.system matches Some(s) ==> members["system"@] == Json::Str(s)
            &&& filter.system is None ==> members["system"@] == Json::Null
        },
{
    reveal_strlit("attrPrefix");
    reveal_strlit("system");
    assert("attrPrefix"@.len() == 10 && "system"@.len() == 6);
    let fields = seq![
        ("attrPrefix"@, opt_tree(filter.attr_prefix)),
        ("system"@, opt_tree(filter.system)),
    ];
    let one = fields.drop_last();
    assert(one =~= seq![("attrPrefix"@, opt_tree(filter.attr_prefix))]);
    assert(one.drop_last() =~= Seq::empty());
    reveal_with_fuel(object_of, 4);
    let members = object_of(fields);
    assert(members == Map::<Seq<char>, Json>::empty().insert(
        "attrPrefix"@,
        opt_tree(filter.attr_prefix),
    ).insert("system"@, opt_tree(filter.system)));
    assert(members.dom() =~= set!["attrPrefix"@, "system"@]);
}

} // verus!
