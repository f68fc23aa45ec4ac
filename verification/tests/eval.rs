use evix::config::{ConfigBuilder, WorkerConfig};
use evix::eval::{
    collect_recurse, gc_root_request, input_drv_outputs, make_job, navigate, output_path_for,
    process_attr, read_constituents, read_input_drvs, value_to_json, EvalOptions, JobFacts, Move,
    NixData, OutputFacts, OutputValue, SetFacts, Visit, MAX_TRAVERSAL_DEPTH,
};
use evix::model::Event;
use evix::ordered_map::OrderedMap;
use evix::text::{
    decimal, first_word, join, quote_list, split, split_once, strip_prefix, trim, Blank,
};
use evix::unix_path::{
    check_resolved_gc_dir, components, create_gc_root_link, file_name, gc_root_link, join_path,
    path_starts_with, sort_paths, validate_gc_roots_dir_path, Component, Found, NIX_GCROOTS_DIR,
};

fn options() -> EvalOptions {
    EvalOptions { force_recurse: false, gc_roots_dir: None, meta: false, show_input_drvs: false }
}

fn strings(items: &[&str]) -> Vec<String> {
    items.iter().map(|s| s.to_string()).collect()
}

fn job() -> JobFacts {
    JobFacts {
        drv_path: Ok("/nix/store/x.drv".into()),
        name: Ok("x".into()),
        system: Some("x86_64-linux".into()),
        outputs: None,
        meta: None,
        constituents: None,
        drv_json: None,
        store_dir: None,
        gc_root_error: None,
    }
}

fn output(out_path: Option<&str>, string: Option<&str>, path: Option<&str>) -> OutputValue {
    OutputValue {
        out_path: out_path.map(str::to_owned),
        as_string: string.map(str::to_owned),
        as_path: path.map(str::to_owned),
    }
}

#[test]
fn gc_root_dir_accepts_nix_gcroot_subdir() {
    assert_eq!(
        validate_gc_roots_dir_path("/nix/var/nix/gcroots/./evix/../evix").unwrap(),
        "/nix/var/nix/gcroots/evix"
    );
}

#[test]
fn gc_root_dir_rejects_paths_outside_nix_gcroot_tree() {
    let error = validate_gc_roots_dir_path("/tmp/evix-gcroots").unwrap_err();

    assert!(error.message().contains(NIX_GCROOTS_DIR), "{error:?}");
}

#[test]
fn gc_root_dir_rejects_parent_escape_from_nix_gcroot_tree() {
    let error = validate_gc_roots_dir_path("/nix/var/nix/gcroots/../bad").unwrap_err();

    assert!(error.message().contains(NIX_GCROOTS_DIR), "{error:?}");
}

#[test]
fn gc_root_dir_rejects_relative_path() {
    let error = validate_gc_roots_dir_path("gcroots").unwrap_err();

    assert!(error.message().contains("absolute"), "{error:?}");
}

#[test]
fn gc_root_dir_rejects_escapes_and_lookalikes() {
    let error = validate_gc_roots_dir_path("/..").unwrap_err();
    assert_eq!(error.message(), "path escapes filesystem root: /..");
    assert!(validate_gc_roots_dir_path("/nix/var/nix/gcroots-evil").is_err());
    assert_eq!(
        validate_gc_roots_dir_path("//nix/var/nix/gcroots/").unwrap(),
        "/nix/var/nix/gcroots"
    );
}

#[test]
fn gc_root_dir_must_resolve_inside_the_tree() {
    check_resolved_gc_dir("/g", "/nix/var/nix/gcroots/a", "/nix/var/nix/gcroots").unwrap();
    let error = check_resolved_gc_dir("/g", "/tmp", "/nix/var/nix/gcroots").unwrap_err();
    assert_eq!(error.message(), "gc roots dir resolves outside /nix/var/nix/gcroots: /g");
    assert!(!path_starts_with("/ab/c", "/a"));
    assert!(path_starts_with("/a//c", "/a/"));
}

#[test]
fn gc_root_link_treats_dangling_symlink_as_existing() {
    let drv_path = "/nix/store/00000000000000000000000000000000-evix.drv";
    let link = gc_root_link("/roots", drv_path).unwrap();
    assert_eq!(link, "/roots/00000000000000000000000000000000-evix.drv");

    assert!(create_gc_root_link(&link, &Found::Missing).unwrap());
    assert!(!create_gc_root_link(&link, &Found::Present).unwrap());
    let error = create_gc_root_link("/l", &Found::Failed("e".into())).unwrap_err();
    assert_eq!(error.messages(), vec!["checking gc root /l", "e"]);
    assert_eq!(gc_root_link("/r", "/").unwrap_err().message(), "drv path has no filename");
}

#[test]
fn path_components() {
    let shown: Vec<String> = components("./a//../b/.")
        .iter()
        .map(|c| match c {
            Component::RootDir => "/".to_string(),
            Component::CurDir => ".".to_string(),
            Component::ParentDir => "..".to_string(),
            Component::Normal(s) => s.clone(),
        })
        .collect();
    assert_eq!(shown, vec![".", "a", "..", "b"]);
    assert!(components("").is_empty());
    assert_eq!(file_name("/a/b/").as_deref(), Some("b"));
    assert!(file_name("a/..").is_none());
    assert_eq!(join_path("a", "b"), "a/b");
    assert_eq!(join_path("a/", "b"), "a/b");
    assert_eq!(join_path("a", "/b"), "/b");
    assert_eq!(join_path("", "b"), "b");
    assert_eq!(join_path("a", ""), "a/");
}

#[test]
fn paths_sort_by_components() {
    let sorted = sort_paths(&strings(&["a-b", "a/b", "a//b", "a", "./a"]));

    assert_eq!(sorted, strings(&["./a", "a", "a/b", "a-b"]));
}

#[test]
fn navigation_calls_what_it_passes() {
    assert!(matches!(navigate(&[])[..], [Move::Call]));
    let moves = navigate(&strings(&["a", "b"]));
    assert!(matches!(
        moves[..],
        [Move::Attr(ref a), Move::Call, Move::Attr(ref b), Move::Call] if a == "a" && b == "b"
    ));
}

#[test]
fn cyclic_attrsets_stop_at_the_traversal_depth_limit() {
    let keys = Visit::Children(SetFacts {
        keys: Some(strings(&["loop", "recurseForDerivations"])),
        recurse: Some(true),
    });
    let mut path: Vec<String> = vec![];
    let mut steps = 0;
    let error = loop {
        match process_attr(&path, &keys, &options()) {
            Event::AttrSet { attrs, .. } => {
                assert_eq!(attrs, strings(&["loop"]));
                path.push(attrs[0].clone());
            }
            Event::Error(error) => break error,
            Event::Derivation(_) => panic!("no derivation here"),
        }
        steps += 1;
        assert!(steps < 1000);
    };

    assert!(error.error.contains("maximum traversal depth"));
    assert!(!error.fatal);
    assert_eq!(path.len(), MAX_TRAVERSAL_DEPTH + 1);
}

#[test]
fn attribute_sets_are_traversed() {
    let root = Visit::Children(SetFacts {
        keys: Some(strings(&["hello", "recurseForDerivations"])),
        recurse: Some(true),
    });
    let Event::AttrSet { attr, attrs, .. } = process_attr(&vec![], &root, &options()) else {
        panic!("expected an attribute set");
    };
    assert_eq!(attr, "");
    assert_eq!(attrs, strings(&["hello"]));

    let Event::AttrSet { attr, attrs, .. } =
        process_attr(&strings(&["hello", "leaf"]), &Visit::Leaf, &options())
    else {
        panic!("expected an attribute set");
    };
    assert_eq!(attr, "hello.leaf");
    assert!(attrs.is_empty());
}

#[test]
fn recursion_is_asked_for_or_forced() {
    let silent = SetFacts { keys: Some(strings(&["a"])), recurse: None };
    let path = strings(&["x"]);
    assert!(collect_recurse(&silent, &path, false).is_empty());
    assert_eq!(collect_recurse(&silent, &path, true), strings(&["a"]));
    assert_eq!(collect_recurse(&silent, &[], false), strings(&["a"]));
    let refused = SetFacts { keys: Some(strings(&["a"])), recurse: Some(false) };
    assert!(collect_recurse(&refused, &path, false).is_empty());
    let unreadable = SetFacts { keys: None, recurse: Some(true) };
    assert!(collect_recurse(&unreadable, &path, true).is_empty());
}

#[test]
fn attribute_errors_are_not_fatal() {
    for visit in [
        Visit::Lost { error: "e".into() },
        Visit::Broken { error: "e".into() },
    ] {
        let Event::Error(error) = process_attr(&strings(&["a", "b"]), &visit, &options()) else {
            panic!("expected an error");
        };
        assert_eq!(error.attr, "a.b");
        assert_eq!(error.error, "e");
        assert!(!error.fatal);
    }
    let mut facts = job();
    facts.name = Err("missing".into());
    let Event::Error(error) = process_attr(&strings(&["a"]), &Visit::Job(facts), &options())
    else {
        panic!("expected an error");
    };
    assert_eq!(error.error, "reading .name");
}

#[test]
fn derivation_outputs_carry_store_paths() {
    let mut facts = job();
    facts.outputs = Some(vec![
        Some(OutputFacts {
            name: "out".into(),
            value: Some(output(Some("/nix/store/o"), Some("x"), None)),
        }),
        None,
        Some(OutputFacts {
            name: "dev".into(),
            value: Some(output(None, Some("/nix/store/d"), None)),
        }),
        Some(OutputFacts { name: "doc".into(), value: None }),
    ]);

    let Event::Derivation(drv) =
        process_attr(&strings(&["pkg"]), &Visit::Job(facts), &options())
    else {
        panic!("expected a derivation");
    };

    for name in ["out", "dev"] {
        let path = drv.outputs.get(&name.to_string()).unwrap();
        assert!(path.as_deref().is_some_and(|p| p.starts_with("/nix/store/")));
    }
    assert!(drv.outputs.get(&"doc".to_string()).unwrap().is_none());
    assert_eq!(drv.outputs.len(), 3);
    assert_eq!(
        output_path_for(&Some(output(None, None, Some("/p")))).as_deref(),
        Some("/p")
    );
}

#[test]
fn jobs_attach_what_is_asked_for() {
    let mut facts = job();
    facts.system = None;
    facts.meta = Some(NixData::Attrs(Some(vec![("a".into(), Some(NixData::Int(Some(1))))])));
    facts.drv_json = Some(r#"{"inputs": {"drvs": {"i.drv": ["out"]}}}"#.into());
    facts.constituents = Some(vec![Some("c".into()), None]);
    facts.gc_root_error = Some("no".into());
    let path = strings(&["a"]);

    let plain = make_job(&path, &facts, &options()).unwrap();
    assert_eq!(plain.system, "");
    assert!(plain.meta.is_none());
    assert_eq!(plain.input_drvs.len(), 0);
    assert!(plain.gc_root_error.is_none());
    assert_eq!(plain.constituents, Some(strings(&["c"])));
    assert!(gc_root_request(&facts, &options()).is_none());

    let config = ConfigBuilder::expr("1")
        .meta(true)
        .show_input_drvs(true)
        .gc_roots_dir("/g")
        .build();
    let all = EvalOptions::of_config(&WorkerConfig::from(&config));
    let full = make_job(&path, &facts, &all).unwrap();
    assert_eq!(full.meta.unwrap()["a"], 1);
    assert_eq!(
        full.input_drvs.get(&"/nix/store/i.drv".to_string()).unwrap(),
        &strings(&["out"])
    );
    assert_eq!(full.gc_root_error.as_deref(), Some("no"));
    assert_eq!(
        gc_root_request(&facts, &all),
        Some(("/g".to_string(), "/nix/store/x.drv".to_string()))
    );
}

#[test]
fn unprintable_store_paths_are_errors() {
    let mut facts = job();
    facts.drv_path = Err("bad".into());
    let error = make_job(&vec![], &facts, &options()).unwrap_err();

    assert_eq!(error.messages(), vec!["printing drv path", "bad"]);
}

#[test]
fn values_become_json() {
    let data = NixData::Attrs(Some(vec![
        ("null".into(), Some(NixData::Null)),
        ("yes".into(), Some(NixData::Bool(Some(true)))),
        ("n".into(), Some(NixData::Int(Some(-5)))),
        ("s".into(), Some(NixData::Str(Some("t".into())))),
        ("p".into(), Some(NixData::Path(Some("/p".into())))),
        ("f".into(), Some(NixData::Opaque)),
        ("gone".into(), None),
        (
            "list".into(),
            Some(NixData::List(Some(vec![
                Some(NixData::Int(Some(1))),
                Some(NixData::Opaque),
            ]))),
        ),
        ("broken".into(), Some(NixData::List(Some(vec![None])))),
    ]));

    let value = value_to_json(&data, 64).unwrap();

    let expected = r#"{"list":[1,null],"n":-5,"null":null,"p":"/p","s":"t","yes":true}"#;
    assert_eq!(serde_json::to_string(&value).unwrap(), expected);
}

#[test]
fn values_are_read_to_a_depth() {
    assert!(value_to_json(&NixData::Null, 0).is_none());
    let nested = NixData::Attrs(Some(vec![("a".into(), Some(NixData::Null))]));
    assert_eq!(
        serde_json::to_string(&value_to_json(&nested, 1).unwrap()).unwrap(),
        "{}"
    );
    let float = serde_json::Value::from(1.5);
    assert_eq!(value_to_json(&NixData::Float(Some(float)), 1).unwrap(), 1.5);
}

#[test]
fn constituents_skip_what_is_no_string() {
    assert!(read_constituents(&None).is_none());
    let items = Some(vec![Some("a".to_string()), None, Some("b".to_string())]);
    assert_eq!(read_constituents(&items).unwrap(), strings(&["a", "b"]));
}

#[test]
fn input_derivations_are_absolute() {
    let json = r#"{"inputs": {"drvs": {
        "b.drv": {"outputs": ["dev", "out"]},
        "/abs/a.drv": ["out"],
        "bad.drv": {"outputs": 3}
    }}}"#;
    let map = read_input_drvs(&Some(json.to_string()), &Some("/store".to_string()));

    assert_eq!(map.len(), 2);
    assert_eq!(map.get(&"/store/b.drv".to_string()).unwrap(), &strings(&["dev", "out"]));
    assert_eq!(map.get(&"/abs/a.drv".to_string()).unwrap(), &strings(&["out"]));
    assert_eq!(read_input_drvs(&None, &None).len(), 0);
    assert_eq!(read_input_drvs(&Some("{".into()), &None).len(), 0);
    assert_eq!(read_input_drvs(&Some("{}".into()), &None).len(), 0);
}

#[test]
fn input_derivation_outputs() {
    let list: serde_json::Value = serde_json::from_str(r#"["out"]"#).unwrap();
    assert_eq!(input_drv_outputs(&list).unwrap(), strings(&["out"]));
    let mixed: serde_json::Value = serde_json::from_str(r#"["out", 1]"#).unwrap();
    assert!(input_drv_outputs(&mixed).is_none());
}

#[test]
fn ordered_maps_replace_and_order() {
    let mut map: OrderedMap<String, u32> = OrderedMap::new();
    map.insert("b".into(), 1);
    map.insert("a".into(), 2);
    map.insert("b".into(), 3);

    assert_eq!(map.len(), 2);
    assert_eq!(map.key_at(0), "a");
    assert_eq!(*map.value_at(1), 3);
    assert!(map.get(&"c".to_string()).is_none());
    assert_eq!(map.copy().len(), 2);
}

#[test]
fn text_helpers() {
    assert_eq!(split("a..b", '.'), strings(&["a", "", "b"]));
    assert_eq!(split_once("a=b=c", '='), Some(("a", "b=c")));
    assert_eq!(strip_prefix("path:x", "path:"), Some("x"));
    assert_eq!(join(&strings(&["a", "b"]), ", "), "a, b");
    assert_eq!(trim("\u{3000} a\tb \n", Blank::White), "a\tb");
    assert_eq!(trim("\t a \r\n", Blank::LineEnd), "\t a");
    assert_eq!(first_word("  two words"), "two");
    assert_eq!(first_word("   "), "");
    assert_eq!(decimal(0), "0");
    assert_eq!(decimal(u64::MAX), "18446744073709551615");
    assert_eq!(quote_list(&strings(&["a\n", "b\""])), "[\"a\\n\", \"b\\\"\"]");
}
