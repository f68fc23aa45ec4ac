use evix::cli::{
    allows_local_fallback, command_log_level, daemon_connect_error, daemon_log_level,
    daemon_request, is_blank_line, is_watch, level_name, path_to_canonicalize, report,
    run_client_or_local, run_daemon_only, run_daemon_request, run_plan, CommandPlan, Connected,
    LocalRun, LogLevel, PlanAction, Reply, ReplyAction,
};
use evix::config::Config;
use evix::connection_limit::ConnectionLimiter;
use evix::daemon::{
    authorize_peer, bind_listener, default_socket_path, diff_base, fork_role, handle_connection,
    handle_diff, handle_eval, handle_query, handle_watch, pid_path, prepare_socket_path,
    serve_connections, socket_path, wait_for_connection_or_shutdown, wait_for_readiness,
    AcceptAction, BindStage, ForkRole, IoFailure, IoKind, PeerInput, PeerOutput, PollStep, Readiness,
    SocketFound,
};
use evix::error::{Error, ErrorChain};
use evix::flake_ref::daemon_flake_ref;
use evix::model::{AutoArg, Derivation, Diff, Event, Filter, Input, Remote};
use evix::ordered_map::OrderedMap;
use evix::protocol::{Request, Response, DAEMON_PROTOCOL_VERSION};
use evix::request_json::request_json;
use evix::request_line::{read_limited_line, read_request_line, LineReader, ReadStep};
use evix::session::Session;
use evix::session_cache::{DaemonState, SessionRegistry};
use evix::session_key::{same_session, session_key};
use evix::state::{EvalGraph, Evaluation, RunOutcome};

fn failure(kind: IoKind, message: &str) -> IoFailure {
    IoFailure { kind, message: message.into() }
}

fn derivation(name: &str) -> Derivation {
    Derivation {
        attr: name.into(),
        attr_path: vec![name.into()],
        name: name.into(),
        system: "x86_64-linux".into(),
        drv_path: format!("/nix/store/{name}.drv"),
        outputs: OrderedMap::new(),
        meta: None,
        input_drvs: OrderedMap::new(),
        constituents: None,
        gc_root_error: None,
    }
}

fn warm(names: &[&str]) -> Session {
    let mut graph = EvalGraph::new();
    for name in names {
        graph.record(derivation(name));
    }
    let mut session = Session::open(Config::default()).unwrap();
    session.stream();
    session.evaluate_initial(Ok(Evaluation {
        graph,
        errors: vec![],
        outcome: RunOutcome::Completed,
    }));
    session
}

#[test]
fn request_rejects_mismatched_protocol_version() {
    let request = Request::Eval {
        protocol_version: DAEMON_PROTOCOL_VERSION + 1,
        config: Config::default(),
    };

    let error = request.validate_protocol().unwrap_err().message();

    assert!(error.contains("unsupported daemon protocol version"));
    assert_eq!(error, "unsupported daemon protocol version 2; expected 1");
}

#[test]
fn requests_speak_the_current_version() {
    let config = Config::default();
    for request in [
        Request::eval(&config),
        Request::watch(&config),
        Request::query(&config, &Filter::default()),
        Request::diff(&config),
    ] {
        request.validate_protocol().unwrap();
    }
    assert!(is_watch(&Request::watch(&config)));
    assert!(!is_watch(&Request::eval(&config)));
}

#[test]
fn missing_warm_session_returns_protocol_error() {
    let mut state: DaemonState<u32> = DaemonState::default();
    let error = state.warm_session(&Config::default()).unwrap_err();

    let PeerOutput::Refuse { response, error } =
        handle_connection(PeerInput::Handled(Err(error)))
    else {
        panic!("expected a refusal");
    };
    let Response::Error { message } = response else {
        panic!("expected error response");
    };
    assert!(message.contains("no warm session for requested daemon config"));
    assert!(error.message().contains("no warm session for requested daemon config"));
}

#[test]
fn mismatched_protocol_version_returns_protocol_error() {
    let request = Request::Query {
        protocol_version: DAEMON_PROTOCOL_VERSION + 1,
        config: Config::default(),
        filter: Filter::default(),
    };

    let PeerOutput::Refuse { response, error } =
        handle_connection(PeerInput::Parsed(Ok(request)))
    else {
        panic!("expected a refusal");
    };
    let Response::Error { message } = response else {
        panic!("expected error response");
    };
    assert!(message.contains("unsupported daemon protocol version"));
    assert!(error.message().contains("unsupported daemon protocol version"));
}

#[test]
fn session_registry_evicts_least_recently_used_entry() {
    let mut registry = SessionRegistry::new(2);
    registry.insert("a".into(), 1);
    registry.insert("b".into(), 2);
    assert_eq!(registry.get("a"), Some(1));

    registry.insert("c".into(), 3);

    assert_eq!(registry.get("b"), None);
    assert_eq!(registry.get("a"), Some(1));
    assert_eq!(registry.get("c"), Some(3));
}

#[test]
fn session_registry_counts_the_entry_that_it_replaces() {
    let mut registry = SessionRegistry::new(2);
    registry.insert("a".into(), 1);
    registry.insert("b".into(), 2);

    registry.insert("b".into(), 3);

    assert_eq!(registry.get("a"), None);
    assert_eq!(registry.get("b"), Some(3));
    assert_eq!(registry.len(), 1);
}

#[test]
fn session_registry_always_keeps_the_last_entry() {
    let mut registry = SessionRegistry::new(0);
    registry.insert("a".into(), 1);
    registry.insert("b".into(), 2);

    assert_eq!(registry.len(), 1);
    assert_eq!(registry.get("b"), Some(2));
}

#[test]
fn connection_limiter_releases_slots_on_drop() {
    let mut limiter = ConnectionLimiter::new(1);
    assert!(limiter.acquire(), "first slot");

    assert!(!limiter.acquire());

    limiter.release();

    assert!(limiter.acquire());
    assert_eq!(limiter.active(), 1);
}

#[test]
fn session_key_includes_daemon_protocol_fields() {
    let base = Config::expr("{}");
    let mut different_gc_roots = base.clone();
    different_gc_roots.gc_roots_dir = Some("/nix/var/nix/gcroots/evix".into());

    let mut different_workers = base.clone();
    different_workers.workers = 16;

    let mut different_memory = base.clone();
    different_memory.max_memory_size = 8192;

    let mut different_timeout = base.clone();
    different_timeout.item_timeout_seconds = 7;

    let mut different_meta = base.clone();
    different_meta.meta = true;

    let mut different_input_drvs = base.clone();
    different_input_drvs.show_input_drvs = true;

    let mut different_remote = base.clone();
    different_remote.remotes.push(Remote {
        endpoint: "127.0.0.1:7357".into(),
        systems: vec!["x86_64-linux".into()],
        workers: 4,
        token: Some("secret".into()),
    });

    let base_key = session_key(&base).unwrap();
    for (field, config) in [
        ("gc_roots_dir", different_gc_roots),
        ("workers", different_workers),
        ("max_memory_size", different_memory),
        ("item_timeout_seconds", different_timeout),
        ("meta", different_meta),
        ("show_input_drvs", different_input_drvs),
        ("remotes", different_remote),
    ] {
        assert_ne!(
            base_key,
            session_key(&config).unwrap(),
            "{field} must affect the daemon session key"
        );
        assert!(!same_session(&base, &config).unwrap());
    }
}

#[test]
fn session_key_ignores_local_worker_executable() {
    let base = Config::expr("{}");
    let mut variant = base.clone();
    variant.worker_exe = Some("/bin/evix-worker".into());

    assert_eq!(session_key(&base).unwrap(), session_key(&variant).unwrap());
    assert!(same_session(&base, &variant).unwrap());
}

#[test]
fn session_key_keeps_evaluation_fields() {
    let base = Config::expr("{}");

    let mut different_input = base.clone();
    different_input.input = Input::Expr("{ changed = true; }".into());

    let mut different_arg = base.clone();
    different_arg.auto_args.push(("name".into(), AutoArg::Str("value".into())));

    let mut different_recurse = base.clone();
    different_recurse.force_recurse = true;

    let mut different_override = base.clone();
    different_override.override_inputs.push(("nixpkgs".into(), "github:NixOS/nixpkgs".into()));

    let mut different_option = base.clone();
    different_option.nix_options.push(("accept-flake-config".into(), "true".into()));

    let base_key = session_key(&base).unwrap();
    for config in [
        different_input,
        different_arg,
        different_recurse,
        different_override,
        different_option,
    ] {
        assert_ne!(base_key, session_key(&config).unwrap());
    }
}

#[test]
fn request_serializes_protocol_version() {
    let value = request_json(&Request::eval(&Config::default()));

    assert_eq!(value["protocolVersion"], DAEMON_PROTOCOL_VERSION);
}

#[test]
fn requests_have_a_json_form() {
    let mut config = Config::file("a.nix");
    config.auto_args.push(("x".into(), AutoArg::Str("1".into())));
    config.nix_options.push(("cores".into(), "2".into()));
    config.remotes.push(Remote {
        endpoint: "h:1".into(),
        systems: vec!["x86_64-linux".into()],
        workers: 12,
        token: Some("t".into()),
    });
    let filter = Filter { attr_prefix: Some("a".into()), system: None };
    let value = request_json(&Request::query(&config, &filter));

    assert_eq!(
        value.to_string(),
        [
            r#"{"config":{"autoArgs":[{"kind":"str","name":"x","value":"1"}],"#,
            r#""forceRecurse":false,"gcRootsDir":null,"#,
            r#""input":{"path":"a.nix","type":"file"},"itemTimeoutSeconds":600,"#,
            r#""maxMemorySize":4096,"meta":false,"nixOptions":[["cores","2"]],"#,
            r#""overrideInputs":[],"remotes":[{"endpoint":"h:1","systems":["x86_64-linux"],"#,
            r#""token":"t","workers":12}],"showInputDrvs":false,"workers":1},"#,
            r#""filter":{"attrPrefix":"a","system":null},"protocolVersion":1,"type":"query"}"#,
        ]
        .concat()
    );
    for (request, kind) in [
        (Request::eval(&config), "eval"),
        (Request::watch(&config), "watch"),
        (Request::diff(&config), "diff"),
    ] {
        let value = request_json(&request);
        assert_eq!(value["type"], kind);
        assert!(value.get("filter").is_none());
    }
}

#[test]
fn session_key_is_json() {
    let key = session_key(&Config::file("a.nix")).unwrap();
    let value: serde_json::Value = serde_json::from_str(&key).unwrap();

    assert_eq!(value["input"]["type"], "file");
    assert_eq!(value["input"]["path"], "a.nix");
    assert_eq!(value["workers"], 1);
    assert!(value["gcRootsDir"].is_null());
    assert_eq!(value["forceRecurse"], false);
}

#[test]
fn session_key_lists_the_configuration_in_order() {
    let mut config = Config::file("a \"b\".nix");
    config.auto_args.push(("x".into(), AutoArg::Expr("1".into())));
    config.auto_args.push(("y".into(), AutoArg::Str("s".into())));
    config.override_inputs.push(("nixpkgs".into(), "path:/n".into()));
    config.remotes.push(Remote {
        endpoint: "h:1".into(),
        systems: vec!["x86_64-linux".into()],
        workers: 12,
        token: None,
    });
    assert_eq!(
        session_key(&config).unwrap(),
        [
            r#"{"input":{"type":"file","path":"a \"b\".nix"},"#,
            r#""autoArgs":[{"name":"x","kind":"expr","value":"1"},"#,
            r#"{"name":"y","kind":"str","value":"s"}],"forceRecurse":false,"gcRootsDir":null,"#,
            r#""workers":1,"maxMemorySize":4096,"itemTimeoutSeconds":600,"meta":false,"#,
            r#""showInputDrvs":false,"overrideInputs":[["nixpkgs","path:/n"]],"nixOptions":[],"#,
            r#""remotes":[{"endpoint":"h:1","systems":["x86_64-linux"],"workers":12,"#,
            r#""token":null}]}"#,
        ]
        .concat()
    );
}

#[test]
fn session_keys_keep_values_apart() {
    let mut one = Config::expr("{}");
    one.nix_options.push(("a".into(), "b\"],[\"c".into()));
    let mut two = Config::expr("{}");
    two.nix_options.push(("a".into(), "b".into()));
    two.nix_options.push(("c".into(), "".into()));
    assert!(!same_session(&one, &two).unwrap());
}

#[test]
fn warm_session_rejects_daemon_protocol_field_variants() {
    let mut state: DaemonState<u32> = DaemonState::default();
    let base = Config::expr("{}");
    state.replace_session(&base, 7).unwrap();
    assert_eq!(state.warm_session(&base).unwrap(), 7);

    let mut query_config = base.clone();
    query_config.workers = 8;
    query_config.meta = true;

    let error = state
        .warm_session(&query_config)
        .err()
        .expect("changed daemon config must miss warm session")
        .message();

    assert!(error.contains("requested daemon config"));
}

#[test]
fn missing_warm_session_names_matching_fields() {
    let mut state: DaemonState<u32> = DaemonState::default();

    let error = state
        .warm_session(&Config::expr("{}"))
        .err()
        .expect("missing warm session must fail")
        .message();

    assert!(error.contains("all daemon-protocol config values"));
}

#[test]
fn request_reader_rejects_oversized_line() {
    let error = read_limited_line(&vec![b"abcdef\n".to_vec()], 4).unwrap_err();

    assert!(error.contains("daemon request exceeds 4 bytes"));
}

#[test]
fn request_reader_accepts_line_at_limit() {
    let line = read_limited_line(&vec![b"abc\n".to_vec()], 4).unwrap();

    assert_eq!(line, b"abc\n");
}

#[test]
fn request_reader_does_not_care_about_chunks() {
    for chunks in [
        vec![b"ab\ncd".to_vec()],
        vec![b"a".to_vec(), b"b\ncd".to_vec()],
        vec![b"a".to_vec(), b"b".to_vec(), b"\n".to_vec(), b"cd".to_vec()],
    ] {
        assert_eq!(read_limited_line(&chunks, 3).unwrap(), b"ab\n");
        assert!(read_limited_line(&chunks, 2).is_err());
    }
    assert_eq!(read_limited_line(&vec![b"ab".to_vec()], 2).unwrap(), b"ab");
    assert_eq!(read_limited_line(&vec![], 2).unwrap(), b"");
}

#[test]
fn line_reader_says_how_much_it_took() {
    let mut reader = LineReader::new(10);
    assert!(matches!(reader.feed(b"ab"), ReadStep::More(2)));
    let ReadStep::Line(taken, line) = reader.feed(b"c\nrest") else {
        panic!("expected a line");
    };
    assert_eq!(taken, 2);
    assert_eq!(line, b"abc\n");
}

#[test]
fn request_lines_lose_their_end() {
    assert_eq!(read_request_line(Ok(b"ab\r\n".to_vec())).unwrap(), "ab");
    assert_eq!(read_request_line(Ok(b"ab\n".to_vec())).unwrap(), "ab");
    assert_eq!(read_request_line(Ok(b"ab\r".to_vec())).unwrap(), "ab\r");
    let error = read_request_line(Ok(vec![0xff, b'\n'])).unwrap_err();
    assert_eq!(
        error.messages(),
        vec!["daemon request is not UTF-8", "invalid utf-8 sequence of 1 bytes from index 0"]
    );
    let error = read_request_line(Err("gone".into())).unwrap_err();
    assert_eq!(error.messages(), vec!["reading daemon request", "gone"]);
}

#[test]
fn runtime_paths() {
    assert_eq!(default_socket_path(1000), "/run/user/1000/evix.sock");
    assert_eq!(pid_path(0), "/run/user/0/evix.pid");
    assert_eq!(socket_path(Some("/a".into()), Some("/b".into()), 1), "/a");
    assert_eq!(socket_path(None, Some("/b".into()), 1), "/b");
    assert_eq!(socket_path(None, None, 1), "/run/user/1/evix.sock");
}

#[test]
fn polling_outcomes() {
    assert!(matches!(wait_for_connection_or_shutdown(&None, false, false), PollStep::Accept));
    assert!(matches!(wait_for_connection_or_shutdown(&None, false, true), PollStep::Shutdown));
    let interrupted = Some(failure(IoKind::Interrupted, "EINTR"));
    assert!(matches!(
        wait_for_connection_or_shutdown(&interrupted, false, false),
        PollStep::Retry
    ));
    assert!(matches!(
        wait_for_connection_or_shutdown(&interrupted, true, false),
        PollStep::Shutdown
    ));
    let PollStep::Fail(error) =
        wait_for_connection_or_shutdown(&Some(failure(IoKind::Other, "bad")), false, false)
    else {
        panic!("expected a failure");
    };
    assert_eq!(error.messages(), vec!["polling daemon listener", "bad"]);
}

#[test]
fn connections_beyond_the_limit_are_refused() {
    let mut limiter = ConnectionLimiter::new(1);
    assert!(matches!(serve_connections(&mut limiter, &None), AcceptAction::Serve));
    let AcceptAction::Refuse(Response::Error { message }) =
        serve_connections(&mut limiter, &None)
    else {
        panic!("expected a refusal");
    };
    assert_eq!(message, "daemon connection limit exceeded");
    assert!(matches!(
        serve_connections(&mut limiter, &Some(failure(IoKind::Interrupted, ""))),
        AcceptAction::Ignore
    ));
    assert!(matches!(
        serve_connections(&mut limiter, &Some(failure(IoKind::Other, "x"))),
        AcceptAction::Log(ref s) if s == "x"
    ));
}

#[test]
fn socket_startup_refuses_non_socket_path() {
    let error = prepare_socket_path("/run/evix/regular-file", &SocketFound::Other, &None)
        .unwrap_err()
        .message();

    assert!(error.contains("refusing to remove non-socket path"));
}

#[test]
fn socket_startup_reports_live_socket() {
    let error = prepare_socket_path("/run/evix/live-socket", &SocketFound::Socket, &None)
        .unwrap_err()
        .message();

    assert!(error.contains("live daemon socket already exists"));
}

#[test]
fn socket_startup_removes_stale_socket() {
    let refused = Some(failure(IoKind::ConnectionRefused, "Connection refused"));

    assert!(prepare_socket_path("/run/evix/stale-socket", &SocketFound::Socket, &refused).unwrap());
}

#[test]
fn readiness_reports_bind_failure() {
    let path = format!("/run/evix/{}", "a".repeat(200));
    let failed = bind_listener(BindStage::Bind, &path, ErrorChain::new("path too long"));

    assert!(failed.error.message().contains("binding"));
    let Some(Response::Error { message }) = failed.report else {
        panic!("expected a report");
    };
    assert!(message.contains("binding"));
}

#[test]
fn readiness_of_a_listening_daemon() {
    let answer = wait_for_readiness("/run/evix/ready", Ok(Response::Done));

    assert!(matches!(answer, Readiness::Listening(ref path) if path == "/run/evix/ready"));
}

#[test]
fn readiness_failure_removes_bound_socket() {
    let failed =
        bind_listener(BindStage::Ready, "/run/evix/ready", ErrorChain::new("ready failed"));

    assert!(failed.error.message().contains("ready failed"));
    assert!(failed.remove_socket);
}

#[test]
fn socket_paths_are_prepared_with_care() {
    let none = &None;
    assert!(!prepare_socket_path("/s", &SocketFound::Missing, none).unwrap());
    let error = prepare_socket_path("/s", &SocketFound::Other, none).unwrap_err();
    assert_eq!(error.message(), "refusing to remove non-socket path /s");
    let error = prepare_socket_path("/s", &SocketFound::Socket, none).unwrap_err();
    assert_eq!(error.message(), "live daemon socket already exists at /s");
    let refused = Some(failure(IoKind::ConnectionRefused, "refused"));
    assert!(prepare_socket_path("/s", &SocketFound::Socket, &refused).unwrap());
    let missing = Some(failure(IoKind::NotFound, "gone"));
    assert!(!prepare_socket_path("/s", &SocketFound::Socket, &missing).unwrap());
    let denied = Some(failure(IoKind::PermissionDenied, "denied"));
    let error = prepare_socket_path("/s", &SocketFound::Socket, &denied).unwrap_err();
    assert_eq!(error.messages(), vec!["probing existing socket /s", "denied"]);
    let error = prepare_socket_path("/s", &SocketFound::Failed("e".into()), none).unwrap_err();
    assert_eq!(error.messages(), vec!["checking existing socket path /s", "e"]);
}

#[test]
fn binding_failures() {
    let early = bind_listener(BindStage::Bind, "/s", ErrorChain::new("in use"));
    assert!(!early.remove_socket);
    assert_eq!(early.error.messages(), vec!["binding /s", "in use"]);
    assert!(matches!(
        early.report,
        Some(Response::Error { ref message }) if message == "binding /s"
    ));
    let late = bind_listener(BindStage::Permissions, "/s", ErrorChain::new("denied"));
    assert!(late.remove_socket && late.report.is_some());
    assert_eq!(late.error.message(), "setting permissions on /s");
    let last = bind_listener(BindStage::Ready, "/s", ErrorChain::new("ready failed"));
    assert!(last.remove_socket && last.report.is_none());
    assert_eq!(last.error.message(), "ready failed");
    let directory = bind_listener(BindStage::Directory, "/d", ErrorChain::new("x"));
    assert_eq!(directory.error.message(), "creating socket directory /d");
    let stale = bind_listener(BindStage::Stale, "/s", ErrorChain::new("x"));
    assert_eq!(stale.error.message(), "removing stale socket /s");
    let occupied = bind_listener(BindStage::Occupied, "/s", ErrorChain::new("occupied"));
    assert_eq!(occupied.error.messages(), vec!["occupied".to_owned()]);
    assert!(!occupied.remove_socket);
    assert!(matches!(occupied.report, Some(Response::Error { message }) if message == "occupied"));
}

#[test]
fn fork_roles() {
    assert!(matches!(fork_role(7, false), ForkRole::Parent));
    assert!(matches!(fork_role(0, true), ForkRole::Child));
    match fork_role(-1, false) {
        ForkRole::Failed(err) => assert_eq!(err.message(), "fork failed"),
        other => panic!("{other:?}"),
    }
    match fork_role(-1, true) {
        ForkRole::Failed(err) => assert_eq!(err.message(), "second fork failed"),
        other => panic!("{other:?}"),
    }
}

#[test]
fn readiness_answers() {
    assert!(matches!(
        wait_for_readiness("/s", Ok(Response::Done)),
        Readiness::Listening(ref s) if s == "/s"
    ));
    assert!(matches!(
        wait_for_readiness("/s", Ok(Response::error("no"))),
        Readiness::Failed(ref s) if s == "no"
    ));
    assert!(matches!(
        wait_for_readiness("/s", Err(ErrorChain::new("eof"))),
        Readiness::Lost(_)
    ));
    let diff = Diff { added: vec![], removed: vec![], changed: vec![], errors: vec![] };
    assert!(matches!(
        wait_for_readiness("/s", Ok(Response::diff(&diff))),
        Readiness::Unexpected(_)
    ));
}

#[test]
fn peers_must_be_the_same_user() {
    authorize_peer(5, 5).unwrap();
    assert_eq!(
        authorize_peer(6, 5).unwrap_err().message(),
        "refusing daemon connection from uid 6; expected 5"
    );
}

#[test]
fn connection_lines() {
    assert!(matches!(
        handle_connection(PeerInput::Line(Ok(" \t ".into()))),
        PeerOutput::Close
    ));
    assert!(matches!(
        handle_connection(PeerInput::Line(Ok(" {} ".into()))),
        PeerOutput::Parse(ref s) if s == "{}"
    ));
    let PeerOutput::Refuse { response: Response::Error { message }, .. } =
        handle_connection(PeerInput::Parsed(Err("bad json".into())))
    else {
        panic!("expected a refusal");
    };
    assert_eq!(message, "parsing daemon request");
    assert!(matches!(
        handle_connection(PeerInput::Parsed(Ok(Request::eval(&Config::default())))),
        PeerOutput::Dispatch(_)
    ));
    assert!(matches!(handle_connection(PeerInput::Handled(Ok(()))), PeerOutput::Close));
    assert!(matches!(
        handle_connection(PeerInput::Line(Err(ErrorChain::new("x")))),
        PeerOutput::Refuse { .. }
    ));
}

#[test]
fn streams_are_answered_item_by_item() {
    let event = Event::Derivation(derivation("a"));
    assert!(matches!(handle_eval(&Some(Ok(event))), Response::Event { .. }));
    assert!(matches!(
        handle_eval(&Some(Err(Error::Cancelled))),
        Response::Error { ref message } if message == "evaluation was cancelled"
    ));
    assert!(matches!(handle_eval(&None), Response::Done));

    let diff = Diff { added: vec![], removed: vec![], changed: vec![], errors: vec![] };
    assert!(matches!(handle_watch(&Some(Ok(diff))), Some(Response::Diff { .. })));
    assert!(matches!(
        handle_watch(&Some(Err(Error::Cancelled))),
        Some(Response::Error { .. })
    ));
    assert!(handle_watch(&None).is_none());
}

#[test]
fn queries_list_derivations_and_end() {
    let answers = handle_query(&warm(&["b", "a"]), &Filter::default()).unwrap();
    assert_eq!(answers.len(), 3);
    let Response::Event { event: Event::Derivation(first) } = &answers[0] else {
        panic!("expected a derivation");
    };
    assert_eq!(first.name, "a");
    assert!(matches!(answers[2], Response::Done));

    let cold = Session::open(Config::default()).unwrap();
    assert!(matches!(
        handle_query(&cold, &Filter::default()),
        Err(Error::SessionStillEvaluating)
    ));
    assert!(matches!(diff_base(&cold), Err(Error::SessionStillEvaluating)));
    assert_eq!(diff_base(&warm(&["a"])).unwrap().len(), 1);

    let diff = Diff { added: vec![], removed: vec![], changed: vec![], errors: vec![] };
    let answers = handle_diff(&diff);
    assert!(matches!(answers[0], Response::Diff { .. }));
    assert!(matches!(answers[1], Response::Done));
}

#[test]
fn finite_daemon_request_rejects_eof_before_done() {
    let request = Request::query(&Config::default(), &Filter::default());

    let ReplyAction::Fail(error) = run_daemon_request(is_watch(&request), Reply::End) else {
        panic!("expected a failure");
    };

    assert!(error.message().contains("daemon closed connection before completing request"));
}

#[test]
fn watch_daemon_request_allows_eof_without_done() {
    let request = Request::watch(&Config::default());

    assert!(matches!(
        run_daemon_request(is_watch(&request), Reply::End),
        ReplyAction::Finish
    ));
}

#[test]
fn daemon_replies_are_printed() {
    let event = Event::Derivation(derivation("a"));
    assert!(matches!(
        run_daemon_request(false, Reply::Parsed(Response::event(&event))),
        ReplyAction::PrintEvent(_)
    ));
    let diff = Diff { added: vec![], removed: vec![], changed: vec![], errors: vec![] };
    assert!(matches!(
        run_daemon_request(true, Reply::Parsed(Response::diff(&diff))),
        ReplyAction::PrintDiff(_)
    ));
    assert!(matches!(
        run_daemon_request(false, Reply::Parsed(Response::Done)),
        ReplyAction::Finish
    ));
    assert!(matches!(
        run_daemon_request(false, Reply::Parsed(Response::error("no"))),
        ReplyAction::Fail(ref e) if e.message() == "no"
    ));
    assert!(matches!(run_daemon_request(false, Reply::Blank), ReplyAction::Continue));
    assert!(matches!(
        run_daemon_request(false, Reply::Bad(ErrorChain::new("x"))),
        ReplyAction::Fail(_)
    ));
    assert!(is_blank_line(" \r\n"));
    assert!(!is_blank_line(" x "));
}

#[test]
fn daemon_only_reports_missing_socket_source() {
    let missing = Some(failure(IoKind::NotFound, "No such file or directory (os error 2)"));

    let Connected::Fail(error) = run_daemon_only("/tmp/missing.sock", &missing) else {
        panic!("expected a failure");
    };
    let messages = error.messages();

    assert!(messages[0].contains("connecting to evix daemon at /tmp/missing.sock"));
    assert!(messages.iter().any(|m| m.contains("No such file or directory")));
}

#[test]
fn daemon_only_reports_permission_denied_source() {
    let error = daemon_connect_error(
        "/tmp/permission-denied.sock",
        &failure(IoKind::PermissionDenied, "permission denied"),
    );
    let messages = error.messages();

    assert!(messages[0].contains("connecting to evix daemon at /tmp/permission-denied.sock"));
    assert!(messages.iter().any(|message| message.contains("permission denied")));
}

#[test]
fn client_or_local_falls_back_for_missing_socket() {
    let missing = Some(failure(IoKind::NotFound, "No such file or directory"));

    assert!(matches!(run_client_or_local("/s", &missing), Connected::Fallback));
    assert!(matches!(run_client_or_local("/s", &None), Connected::Ask));
    assert!(matches!(run_daemon_only("/s", &None), Connected::Ask));
}

#[test]
fn client_or_local_reports_connection_refused_source() {
    let refused = Some(failure(IoKind::ConnectionRefused, "Connection refused (os error 111)"));

    let Connected::Fail(error) = run_client_or_local("/tmp/fallback-refused.sock", &refused)
    else {
        panic!("expected a failure");
    };
    let messages = error.messages();

    assert!(messages[0].contains("connecting to evix daemon at /tmp/fallback-refused.sock"));
    assert!(messages.iter().any(|m| m.contains("Connection refused")));
}

#[test]
fn local_fallback_rejects_permission_denied() {
    assert!(!allows_local_fallback(IoKind::PermissionDenied));
}

#[test]
fn daemon_request_canonicalizes_file_input() {
    let config = Config::file("Cargo.toml");
    assert_eq!(path_to_canonicalize(&config).as_deref(), Some("Cargo.toml"));

    let request =
        daemon_request(Request::eval(&config), &Ok("/repo/Cargo.toml".into())).unwrap();

    let Request::Eval { config, .. } = request else {
        panic!("expected eval request");
    };
    let Input::File(path) = config.input else {
        panic!("expected file input");
    };
    assert_eq!(path, "/repo/Cargo.toml");
}

#[test]
fn daemon_request_reports_missing_files() {
    let error = daemon_request(Request::diff(&Config::file("x.nix")), &Err("ENOENT".into()))
        .unwrap_err();

    assert_eq!(error.messages(), vec!["canonicalizing input file x.nix", "ENOENT"]);
    let error = daemon_flake_ref("./a#b", &Err("ENOENT".into())).unwrap_err();
    assert_eq!(error.messages(), vec!["canonicalizing flake path \"./a\"", "ENOENT"]);
}

#[test]
fn daemon_request_rewrites_current_dir_flake_ref() {
    let config = Config::flake(".#hydraJobs");
    assert_eq!(path_to_canonicalize(&config).as_deref(), Some("."));

    let request = daemon_request(Request::eval(&config), &Ok("/cwd".into())).unwrap();

    let Request::Eval { config, .. } = request else {
        panic!("expected eval request");
    };
    let Input::Flake(reference) = config.input else {
        panic!("expected flake input");
    };
    assert_eq!(reference, "path:/cwd#hydraJobs");
}

#[test]
fn daemon_request_rewrites_path_flake_ref() {
    let reference = daemon_flake_ref("path:.#packages", &Ok("/cwd".into())).unwrap();

    assert_eq!(reference, "path:/cwd#packages");
}

#[test]
fn daemon_request_rewrites_relative_path_flake_ref() {
    let reference = daemon_flake_ref("path:Cargo.toml", &Ok("/cwd/Cargo.toml".into())).unwrap();

    assert_eq!(reference, "path:/cwd/Cargo.toml");
}

#[test]
fn daemon_request_preserves_non_path_flake_ref() {
    assert_eq!(
        daemon_flake_ref("github:NixOS/nixpkgs#hello", &Err("unused".into())).unwrap(),
        "github:NixOS/nixpkgs#hello"
    );
}

#[test]
fn plans_choose_how_to_run() {
    let unused = Err("unused".into());
    let local = CommandPlan::Eval { config: Config::expr("1"), socket: None, use_daemon: false };
    assert!(matches!(
        run_plan(local, &unused).unwrap(),
        PlanAction::Local(LocalRun::Eval(_))
    ));
    let shared = CommandPlan::Watch {
        config: Config::file("a"),
        socket: Some("/s".into()),
        use_daemon: true,
    };
    let PlanAction::ClientOrLocal { request, socket, local } =
        run_plan(shared, &Ok("/a".into())).unwrap()
    else {
        panic!("expected a client plan");
    };
    assert!(is_watch(&request));
    assert_eq!(socket.as_deref(), Some("/s"));
    assert!(matches!(
        local,
        LocalRun::Watch(Config { input: Input::File(ref p), .. }) if p == "a"
    ));
    let query = CommandPlan::Query {
        config: Config::file("a"),
        filter: Filter::default(),
        socket: None,
    };
    assert!(run_plan(query, &Err("ENOENT".into())).is_err());
    let diff = CommandPlan::Diff { config: Config::expr("1"), socket: None };
    assert!(matches!(
        run_plan(diff, &unused).unwrap(),
        PlanAction::DaemonOnly { request: Request::Diff { .. }, .. }
    ));
    let daemon = CommandPlan::Daemon { socket: None, foreground: true };
    assert!(matches!(
        run_plan(daemon, &unused).unwrap(),
        PlanAction::Daemon { foreground: true, .. }
    ));
    let worker = CommandPlan::Worker { listen: "l".into(), token: None };
    assert!(matches!(run_plan(worker, &unused).unwrap(), PlanAction::Worker { .. }));
}

#[test]
fn log_levels() {
    assert_eq!(command_log_level(0, 0), LogLevel::Warn);
    assert_eq!(command_log_level(0, 1), LogLevel::Error);
    assert_eq!(command_log_level(0, 9), LogLevel::Off);
    assert_eq!(command_log_level(2, 0), LogLevel::Debug);
    assert_eq!(command_log_level(255, 0), LogLevel::Trace);
    assert_eq!(daemon_log_level(0, 0), LogLevel::Info);
    assert_eq!(daemon_log_level(0, 3), LogLevel::Off);
    assert_eq!(daemon_log_level(2, 0), LogLevel::Trace);
    assert_eq!(level_name(LogLevel::Info), "info");
}

#[test]
fn reports_list_causes() {
    let chain = ErrorChain::new("c").context("b").context("a");

    assert_eq!(report(&chain), "a\n\nCaused by:\n    b\n\nCaused by:\n    c");
}
