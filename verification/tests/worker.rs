use evix::config::{Config, ConfigBuilder, WorkerConfig, DEFAULT_ITEM_TIMEOUT_SECONDS};
use evix::error::ErrorChain;
use evix::flake_ref::{
    flake_lock_mode, fragment_context, fragment_parts, is_local_flake_reference,
    is_relative_flake_path, local_flake_root, lock_context, override_context,
    split_flake_fragment, LockMode,
};
use evix::lines::{after_answer, choose_input, event_line, event_value, paired_args};
use evix::master::{
    read_command, worker_count, Collector, CollectorAction, CollectorInput, Command, Heard, State,
    Turn,
};
use evix::message_fields::{client_fields, client_record, server_fields, server_record};
use evix::messages::{
    expect_ready, read_client, read_server, write_client, write_server, AnswerError,
    ClientMessage, ClientRecord, EventRecord, ServerMessage, ServerRecord, StatusRecord,
    WorkerStatus,
};
use evix::model::{AutoArg, Derivation, EvalError, Event, Input};
use evix::ordered_map::OrderedMap;
use evix::remote_worker::{
    check_serve_token, token_matches, validate_remote_config, validate_store_dir,
    ConnectionAction, ConnectionInput, RemoteConnection, RemoteTimeouts, RemoteWorker,
};
use evix::wire::{
    list_index, list_len, local_reader_options, remote_reader_options, InputRecord, TextOptRecord,
    WireError, WORKER_PROTOCOL_VERSION,
};
use evix::worker::{
    build_auto_args, eval_root, get_maxrss_kb, root_context, should_restart, FlakePlan, RootPlan,
    Worker, WorkerInput, WorkerOutput, WorkerPhase,
};
use evix::worker_process::{
    append_startup_hint, default_nix_user_conf_file, exit_error, nix_user_conf_files,
    prepare_nix_options_env, read_event, read_ready, read_status, spawn_local,
    validate_nix_option_part, StderrCapture, STDERR_LINE_LIMIT, STDERR_TAIL_LIMIT,
};

fn attr_set(name: &str) -> Event {
    Event::AttrSet { attr: name.into(), attr_path: vec![name.into()], attrs: vec![] }
}

fn setup(config: WorkerConfig, token: Option<&str>, dir: Option<&str>) -> ClientMessage {
    ClientMessage::Setup {
        config,
        token: token.map(str::to_owned),
        expected_store_dir: dir.map(str::to_owned),
    }
}

fn worker_config() -> WorkerConfig {
    WorkerConfig::from(&Config::default())
}

fn full_derivation() -> Derivation {
    let mut outputs = OrderedMap::new();
    outputs.insert("out".to_string(), Some("/nix/store/o".to_string()));
    outputs.insert("dev".to_string(), None);
    let mut input_drvs = OrderedMap::new();
    input_drvs.insert("/nix/store/i.drv".to_string(), vec!["out".to_string()]);
    Derivation {
        attr: "a.b".into(),
        attr_path: vec!["a".into(), "b".into()],
        name: "n".into(),
        system: "x86_64-linux".into(),
        drv_path: "/nix/store/n.drv".into(),
        outputs,
        meta: Some(serde_json::from_str(r#"{"description": "d", "broken": false}"#).unwrap()),
        input_drvs,
        constituents: Some(vec!["c".into()]),
        gc_root_error: Some("no".into()),
    }
}

#[test]
fn setup_rejects_mismatched_protocol_version() {
    let ClientRecord::Setup(mut record) =
        write_client(&setup(worker_config(), None, None)).unwrap()
    else {
        panic!("expected setup");
    };
    record.protocol_version = WORKER_PROTOCOL_VERSION + 1;

    let error = read_client(&ClientRecord::Setup(record)).unwrap_err().chain().message();

    assert!(error.contains("unsupported worker protocol version"));
    assert_eq!(error, "unsupported worker protocol version 2; expected 1");
}

#[test]
fn setup_preserves_item_timeout_seconds() {
    let mut config = worker_config();
    config.item_timeout_seconds = 3_600;
    config.locked_flake_json = Some(r#"{"lockFile":{}}"#.into());

    let record = write_client(&setup(config, None, None)).unwrap();
    let ClientMessage::Setup { config, .. } = read_client(&record).unwrap() else {
        panic!("expected setup");
    };

    assert_eq!(config.item_timeout_seconds, 3_600);
    assert_eq!(config.locked_flake_json.as_deref(), Some(r#"{"lockFile":{}}"#));
}

#[test]
fn setup_without_timeout_gets_the_default() {
    let mut config = worker_config();
    config.item_timeout_seconds = 0;

    let record = write_client(&setup(config, Some("t"), Some("/nix/store"))).unwrap();
    let ClientMessage::Setup { config, token, expected_store_dir } =
        read_client(&record).unwrap()
    else {
        panic!("expected setup");
    };

    assert_eq!(config.item_timeout_seconds, DEFAULT_ITEM_TIMEOUT_SECONDS);
    assert_eq!(token.as_deref(), Some("t"));
    assert_eq!(expected_store_dir.as_deref(), Some("/nix/store"));
}

#[test]
fn worker_configs_survive_the_wire() {
    let config = ConfigBuilder::flake(".#x")
        .auto_arg_expr("a", "1")
        .auto_arg_str("b", "ü")
        .override_input("n", "r")
        .nix_option("k", "v")
        .gc_roots_dir("/g")
        .force_recurse(true)
        .max_memory_size(9)
        .build();

    let record = write_client(&setup(WorkerConfig::from(&config), None, None)).unwrap();
    let ClientMessage::Setup { config: back, .. } = read_client(&record).unwrap() else {
        panic!("expected setup");
    };

    assert!(matches!(back.input, Input::Flake(ref s) if s == ".#x"));
    assert!(matches!(back.auto_args[1].1, AutoArg::Str(ref s) if s == "ü"));
    assert_eq!(back.override_inputs, vec![("n".to_string(), "r".to_string())]);
    assert_eq!(back.nix_options, vec![("k".to_string(), "v".to_string())]);
    assert_eq!(back.gc_roots_dir.as_deref(), Some("/g"));
    assert!(back.force_recurse);
    assert_eq!(back.max_memory_size, 9);
}

#[test]
fn work_and_shutdown_survive_the_wire() {
    let record = write_client(&ClientMessage::Work(vec!["a".into(), "b".into()])).unwrap();
    assert!(matches!(
        read_client(&record).unwrap(),
        ClientMessage::Work(ref path) if path == &["a", "b"]
    ));
    let record = write_client(&ClientMessage::Shutdown).unwrap();
    assert!(matches!(read_client(&record).unwrap(), ClientMessage::Shutdown));
}

#[test]
fn derivations_survive_the_wire() {
    let message = ServerMessage::Event(Event::Derivation(full_derivation()));

    let record = write_server(&message).unwrap();
    let ServerRecord::Event(EventRecord::Derivation(wire)) = &record else {
        panic!("expected derivation");
    };
    assert_eq!(wire.outputs[0].name, b"dev");
    assert_eq!(wire.input_drvs[0].value_json, br#"["out"]"#);

    let ServerMessage::Event(Event::Derivation(back)) = read_server(&record).unwrap() else {
        panic!("expected derivation");
    };
    assert_eq!(back.attr_path, vec!["a", "b"]);
    assert_eq!(
        back.outputs.get(&"out".to_string()).unwrap().as_deref(),
        Some("/nix/store/o")
    );
    assert!(back.outputs.get(&"dev".to_string()).unwrap().is_none());
    assert_eq!(back.meta, full_derivation().meta);
    assert_eq!(back.input_drvs.get(&"/nix/store/i.drv".to_string()).unwrap(), &vec!["out"]);
    assert_eq!(back.constituents, Some(vec!["c".to_string()]));
    assert_eq!(back.gc_root_error.as_deref(), Some("no"));
}

#[test]
fn other_server_messages_survive_the_wire() {
    for status in [WorkerStatus::Ready, WorkerStatus::Restart] {
        let record = write_server(&ServerMessage::Status(status)).unwrap();
        assert!(matches!(
            read_server(&record).unwrap(),
            ServerMessage::Status(s) if s == status
        ));
    }
    let record = write_server(&ServerMessage::Error("e".into())).unwrap();
    assert!(matches!(read_server(&record).unwrap(), ServerMessage::Error(ref s) if s == "e"));
    let record = write_server(&ServerMessage::Event(attr_set("x"))).unwrap();
    assert!(matches!(
        read_server(&record).unwrap(),
        ServerMessage::Event(Event::AttrSet { ref attr, .. }) if attr == "x"
    ));
    let error = Event::Error(EvalError {
        attr: "x".into(),
        attr_path: vec!["x".into()],
        error: "e".into(),
        fatal: true,
    });
    let record = write_server(&ServerMessage::Event(error)).unwrap();
    assert!(matches!(
        read_server(&record).unwrap(),
        ServerMessage::Event(Event::Error(EvalError { fatal: true, .. }))
    ));
}

fn number(n: u64) -> Vec<u8> {
    n.to_le_bytes().to_vec()
}

#[test]
fn work_is_laid_out_as_fields() {
    let fields = client_fields(&ClientRecord::Work(vec![b"a".to_vec(), b"bc".to_vec()]));

    assert_eq!(fields, vec![number(1), number(2), b"a".to_vec(), b"bc".to_vec()]);
    assert_eq!(client_fields(&ClientRecord::Shutdown), vec![number(2)]);
    assert_eq!(client_fields(&ClientRecord::Unknown(7)), vec![number(7)]);
    assert_eq!(
        server_fields(&ServerRecord::Status(StatusRecord::Restart)),
        vec![number(2), number(1)]
    );
    assert_eq!(
        server_fields(&ServerRecord::Error(b"e".to_vec())),
        vec![number(3), b"e".to_vec()]
    );
}

#[test]
fn setups_cross_as_fields() {
    let mut config = WorkerConfig::from(
        &ConfigBuilder::file("f.nix")
            .auto_arg_expr("a", "1")
            .auto_arg_str("b", "ü")
            .override_input("n", "r")
            .nix_option("k", "v")
            .gc_roots_dir("/g")
            .force_recurse(true)
            .max_memory_size(9)
            .build(),
    );
    config.locked_flake_json = Some("{}".into());
    let record = write_client(&setup(config, Some("t"), None)).unwrap();

    let fields = client_fields(&record);
    assert_eq!(fields[0], number(0));
    assert_eq!(fields[1], number(1));
    assert_eq!(fields[2], number(2));
    assert_eq!(fields[3], b"f.nix");
    let back = client_record(&fields).unwrap();

    assert_eq!(client_fields(&back), fields);
    let ClientMessage::Setup { config, token, expected_store_dir } = read_client(&back).unwrap()
    else {
        panic!("expected setup");
    };
    assert!(matches!(config.input, Input::File(ref s) if s == "f.nix"));
    assert!(matches!(config.auto_args[0].1, AutoArg::Expr(ref s) if s == "1"));
    assert!(matches!(config.auto_args[1].1, AutoArg::Str(ref s) if s == "ü"));
    assert!(config.force_recurse);
    assert_eq!(config.max_memory_size, 9);
    assert_eq!(config.gc_roots_dir.as_deref(), Some("/g"));
    assert_eq!(config.override_inputs, vec![("n".to_string(), "r".to_string())]);
    assert_eq!(config.nix_options, vec![("k".to_string(), "v".to_string())]);
    assert_eq!(config.locked_flake_json.as_deref(), Some("{}"));
    assert_eq!(token.as_deref(), Some("t"));
    assert_eq!(expected_store_dir, None);
}

#[test]
fn worker_messages_cross_as_fields() {
    let message = ServerMessage::Event(Event::Derivation(full_derivation()));
    let fields = server_fields(&write_server(&message).unwrap());
    let back = server_record(&fields).unwrap();
    let ServerMessage::Event(Event::Derivation(d)) = read_server(&back).unwrap() else {
        panic!("expected derivation");
    };
    assert_eq!(d.attr, "a.b");
    assert_eq!(d.meta, full_derivation().meta);
    assert_eq!(d.constituents, Some(vec!["c".to_string()]));
    assert!(d.outputs.get(&"dev".to_string()).unwrap().is_none());
    assert_eq!(d.gc_root_error.as_deref(), Some("no"));

    let mut plain = full_derivation();
    plain.constituents = None;
    plain.meta = None;
    let fields =
        server_fields(&write_server(&ServerMessage::Event(Event::Derivation(plain))).unwrap());
    let back = read_server(&server_record(&fields).unwrap()).unwrap();
    assert!(matches!(
        back,
        ServerMessage::Event(Event::Derivation(Derivation { meta: None, constituents: None, .. }))
    ));

    for event in [
        attr_set("x"),
        Event::Error(EvalError {
            attr: "x".into(),
            attr_path: vec!["x".into()],
            error: "e".into(),
            fatal: true,
        }),
    ] {
        let fields = server_fields(&write_server(&ServerMessage::Event(event)).unwrap());
        let back = server_record(&fields).unwrap();
        assert_eq!(server_fields(&back), fields);
        assert!(read_server(&back).is_ok());
    }
    let fields = server_fields(&ServerRecord::Ready);
    assert!(matches!(server_record(&fields).unwrap(), ServerRecord::Ready));
}

#[test]
fn malformed_fields_are_refused() {
    let malformed = vec!["malformed worker message".to_string()];
    for fields in [
        vec![],
        vec![b"short".to_vec()],
        vec![number(0x1_0000)],
        vec![number(1)],
        vec![number(1), number(2), b"a".to_vec()],
        vec![number(0), number(0x1_0000_0000)],
        vec![number(0), number(1), number(9), b"content".to_vec()],
    ] {
        let error = client_record(&fields).err().unwrap();
        assert_eq!(error.chain().messages(), malformed);
    }
    let error = client_record(&vec![number(0), number(2), b"another layout".to_vec()]);
    assert_eq!(
        error.err().unwrap().chain().message(),
        "unsupported worker protocol version 2; expected 1"
    );
    assert!(server_record(&vec![number(3)]).is_err());
    assert!(server_record(&vec![number(2), b"s".to_vec()]).is_err());
    assert!(matches!(client_record(&vec![number(9)]).unwrap(), ClientRecord::Unknown(9)));
    assert!(matches!(
        server_record(&vec![number(2), number(5), b"more".to_vec()]).unwrap(),
        ServerRecord::Status(StatusRecord::Unknown(5))
    ));
    assert!(matches!(server_record(&vec![number(4)]).unwrap(), ServerRecord::Unknown(4)));
}

#[test]
fn numbers_that_do_not_fit_say_why() {
    assert_eq!(
        WireError::TooLong { field: "outputs" }.chain().messages(),
        vec![
            "outputs length exceeds Cap'n Proto list limit",
            "out of range integral type conversion attempted",
        ]
    );
    assert_eq!(
        WireError::MemoryTooLarge.chain().messages(),
        vec![
            "maxMemorySize exceeds this platform's usize",
            "out of range integral type conversion attempted",
        ]
    );
}

#[test]
fn bad_records_are_rejected() {
    let error = read_client(&ClientRecord::Unknown(9)).unwrap_err();
    assert_eq!(
        error.chain().message(),
        "Enum value or union discriminant 9 was not present in the schema."
    );
    let error = read_client(&ClientRecord::Work(vec![vec![0xff]])).unwrap_err();
    assert!(matches!(error, WireError::NotUtf8 { .. }));
    assert_eq!(
        error.chain().messages(),
        vec!["invalid utf-8 sequence of 1 bytes from index 0"]
    );
    let error = read_server(&ServerRecord::Status(StatusRecord::Unknown(3))).unwrap_err();
    assert!(matches!(error, WireError::Unknown(3)));

    let ClientRecord::Setup(mut record) =
        write_client(&setup(worker_config(), None, None)).unwrap()
    else {
        panic!("expected setup");
    };
    record.config.input = InputRecord::Unknown(4);
    record.token = TextOptRecord::Unknown(5);
    assert!(matches!(
        read_client(&ClientRecord::Setup(record)).unwrap_err(),
        WireError::Unknown(4)
    ));

    let message = ServerMessage::Event(Event::Derivation(full_derivation()));
    let ServerRecord::Event(EventRecord::Derivation(mut wire)) = write_server(&message).unwrap()
    else {
        panic!("expected derivation");
    };
    wire.meta_json = TextOptRecord::Present(b"{".to_vec());
    let error =
        read_server(&ServerRecord::Event(EventRecord::Derivation(wire))).unwrap_err();
    assert_eq!(error.chain().message(), "parsing meta JSON value");
    assert!(error.chain().source().is_some());
}

#[test]
fn list_lengths_fit_a_message() {
    assert_eq!(list_len(3, "x").unwrap(), 3);
    assert_eq!(list_index(4).unwrap(), 4);
    let error = list_len(u32::MAX as usize + 1, "input drvs").unwrap_err();
    assert_eq!(
        error.chain().message(),
        "input drvs length exceeds Cap'n Proto list limit"
    );
    assert!(list_index(u32::MAX as usize + 1).is_err());
}

#[test]
fn local_server_reads_use_larger_traversal_limit_than_remote_reads() {
    assert!(
        local_reader_options().traversal_limit_in_words
            > remote_reader_options().traversal_limit_in_words
    );

    let mut huge = full_derivation();
    huge.attr = "huge".into();
    huge.attr_path = vec!["huge".into()];
    let mut meta = serde_json::Map::new();
    meta.insert("description".into(), "x".repeat(64 * 1024).into());
    huge.meta = Some(serde_json::Value::Object(meta));
    let record = write_server(&ServerMessage::Event(Event::Derivation(huge))).unwrap();
    let ServerMessage::Event(Event::Derivation(derivation)) = read_server(&record).unwrap() else {
        panic!("expected derivation");
    };
    assert_eq!(derivation.attr, "huge");
}

#[test]
fn reads_are_limited() {
    assert_eq!(remote_reader_options().traversal_limit_in_words, Some(8 * 1024 * 1024));
    assert_eq!(remote_reader_options().nesting_limit, 64);
}

#[test]
fn remote_handshakes() {
    expect_ready(ServerMessage::Ready, "r").unwrap();
    assert!(matches!(
        expect_ready(ServerMessage::Error("e".into()), "r").unwrap_err(),
        AnswerError::Failed(ref s) if s == "remote worker r failed: e"
    ));
    assert!(matches!(
        expect_ready(ServerMessage::Event(attr_set("x")), "r").unwrap_err(),
        AnswerError::Unexpected { ref prefix, .. }
            if prefix == "remote worker r sent unexpected handshake: "
    ));
}

#[test]
fn remote_config_rejects_unsupported_nix_options() {
    let mut config = Config::default();
    config
        .nix_options
        .push(("allow-unsafe-native-code-during-evaluation".into(), "true".into()));
    let config = WorkerConfig::from(&config);

    let error = validate_remote_config(&config).unwrap_err().message();

    assert!(error.contains("unsupported nix option"));
    assert!(error.contains("\"allow-unsafe-native-code-during-evaluation\""));
}

#[test]
fn remote_config_accepts_allowlisted_nix_options() {
    let mut config = Config::default();
    config.nix_options.push(("restrict-eval".into(), "true".into()));
    let config = WorkerConfig::from(&config);

    validate_remote_config(&config).unwrap();
}

#[test]
fn store_dir_validation_accepts_absent_expectation() {
    validate_store_dir(None, &Err(ErrorChain::new("unused"))).unwrap();
}

#[test]
fn store_dir_validation_rejects_mismatch() {
    let error = validate_store_dir(Some("/not-the-local-store"), &Ok("/nix/store".into()))
        .unwrap_err()
        .message();

    assert!(error.contains("store dir mismatch"));
    validate_store_dir(Some("/nix/store"), &Ok("/nix/store".into())).unwrap();
    assert!(validate_store_dir(Some("/x"), &Err(ErrorChain::new("e"))).is_err());
}

#[test]
fn token_match_requires_exact_shared_secret() {
    assert!(token_matches(Some("secret"), Some("secret")));
    assert!(token_matches(None, None));
    assert!(!token_matches(Some("secret"), Some("SECRET")));
    assert!(!token_matches(Some("secret-extra"), Some("secret")));
    assert!(!token_matches(None, Some("secret")));
    assert!(!token_matches(Some("secret"), None));
}

#[test]
fn token_match_does_not_confuse_padding() {
    assert!(!token_matches(Some("a\0"), Some("a")));
    assert!(!token_matches(Some(""), None));
}

#[test]
fn remote_work_response_can_exceed_setup_timeout() {
    let worker = RemoteWorker {
        label: "remote-test".into(),
        open: true,
        timeouts: RemoteTimeouts { setup: 1, work_response: 5 },
    };
    let response_delay = 2;
    assert!(response_delay > worker.timeouts.setup);
    assert!(response_delay < worker.timeouts.work_response);

    assert!(matches!(
        worker.work(&vec!["slow".to_string()]).unwrap(),
        ClientMessage::Work(ref path) if path == &["slow"]
    ));
    let event = worker.take_event(ServerMessage::Event(attr_set("slow"))).unwrap();
    let status = worker.take_status(ServerMessage::Status(WorkerStatus::Ready)).unwrap();
    assert_eq!(status, WorkerStatus::Ready);
    assert!(matches!(event, Event::AttrSet { attr, .. } if attr == "slow"));
}

#[test]
fn remote_work_may_take_longer_than_a_setup() {
    let mut config = worker_config();
    config.item_timeout_seconds = 3600;
    let timeouts = RemoteTimeouts::from_config(&config);

    assert_eq!(timeouts.setup, 30);
    assert_eq!(timeouts.work_response, 3600);
}

#[test]
fn serve_needs_a_token_that_is_not_empty() {
    assert_eq!(
        check_serve_token(Some("")).unwrap_err().message(),
        "remote worker token must not be empty"
    );
    check_serve_token(Some("x")).unwrap();
    check_serve_token(None).unwrap();
}

#[test]
fn remote_worker_abort_drops_connection_without_shutdown() {
    let config = worker_config();
    let mut worker = RemoteWorker::connect("remote-test", &config, ServerMessage::Ready).unwrap();
    assert!(matches!(
        worker.work(&vec!["slow".to_string()]).unwrap(),
        ClientMessage::Work(ref path) if path == &["slow"]
    ));
    assert!(matches!(worker.stop(), Some(ClientMessage::Shutdown)));

    worker.abort();

    assert!(
        worker.stop().is_none(),
        "remote abort must close the connection, not send Shutdown"
    );
    assert_eq!(
        worker.work(&vec![]).unwrap_err().message(),
        "remote worker remote-test is closed"
    );
}

#[test]
fn remote_answers() {
    let worker =
        RemoteWorker::connect("r", &worker_config(), ServerMessage::Ready).unwrap();
    assert!(worker.take_event(ServerMessage::Event(attr_set("x"))).is_ok());
    assert!(matches!(
        worker.take_event(ServerMessage::Error("e".into())).unwrap_err(),
        AnswerError::Failed(ref s) if s == "remote worker r: e"
    ));
    assert_eq!(
        worker.take_status(ServerMessage::Status(WorkerStatus::Restart)).unwrap(),
        WorkerStatus::Restart
    );
    assert!(matches!(
        worker.take_status(ServerMessage::Ready).unwrap_err(),
        AnswerError::Unexpected { ref prefix, message: ServerMessage::Ready }
            if prefix == "remote worker r sent unexpected status response: "
    ));
    assert!(matches!(
        RemoteWorker::setup_message(&worker_config(), &Some("t".into()), "/nix/store"),
        ClientMessage::Setup { token: Some(_), expected_store_dir: Some(_), .. }
    ));
}

#[test]
fn connections_authenticate_before_anything_else() {
    let mut connection = RemoteConnection::new(Some("secret".into()));
    let message = setup(worker_config(), Some("wrong"), None);

    let actions = connection.serve_connection(ConnectionInput::Message(Ok(message)));

    assert_eq!(actions.len(), 2);
    assert!(matches!(
        actions[0],
        ConnectionAction::Send(ServerMessage::Error(ref s))
            if s == "remote worker authentication failed"
    ));
    assert!(matches!(actions[1], ConnectionAction::Fail(_)));
}

#[test]
fn connections_serve_items_and_replace_workers() {
    let mut connection = RemoteConnection::new(None);
    let message = setup(worker_config(), None, Some("/nix/store"));
    let actions = connection.serve_connection(ConnectionInput::Message(Ok(message)));
    assert!(matches!(actions[..], [ConnectionAction::FindStoreDir]));
    let actions = connection.serve_connection(ConnectionInput::StoreDir(Ok("/nix/store".into())));
    assert!(matches!(actions[..], [ConnectionAction::Spawn(_)]));
    let actions = connection.serve_connection(ConnectionInput::Spawned(Ok(())));
    assert!(matches!(actions[..], [ConnectionAction::Send(ServerMessage::Ready)]));

    let work = ClientMessage::Work(vec!["a".into()]);
    let actions = connection.serve_connection(ConnectionInput::Message(Ok(work)));
    assert!(matches!(actions[..], [ConnectionAction::Work(_)]));
    let done = Ok((attr_set("a"), WorkerStatus::Restart));
    let actions = connection.serve_connection(ConnectionInput::Finished(done));
    assert!(matches!(
        actions[..],
        [
            ConnectionAction::Send(ServerMessage::Event(_)),
            ConnectionAction::Send(ServerMessage::Status(WorkerStatus::Restart)),
            ConnectionAction::AwaitExit,
            ConnectionAction::Spawn(_)
        ]
    ));
    assert!(connection.serve_connection(ConnectionInput::Spawned(Ok(()))).is_empty());
    let actions =
        connection.serve_connection(ConnectionInput::Message(Ok(ClientMessage::Shutdown)));
    assert!(matches!(actions[..], [ConnectionAction::StopWorker, ConnectionAction::Close]));
}

#[test]
fn connections_abort_work_when_the_master_speaks() {
    for (message, text) in [
        (
            ClientMessage::Work(vec![]),
            "remote worker received new work while an attribute was in flight",
        ),
        (setup(worker_config(), None, None), "remote worker setup sent twice"),
    ] {
        let mut connection = RemoteConnection::new(None);
        connection
            .serve_connection(ConnectionInput::Message(Ok(setup(worker_config(), None, None))));
        connection.serve_connection(ConnectionInput::Spawned(Ok(())));
        connection.serve_connection(ConnectionInput::Message(Ok(ClientMessage::Work(vec![]))));
        let actions = connection.serve_connection(ConnectionInput::Message(Ok(message)));
        assert!(matches!(actions[0], ConnectionAction::AbortWorker));
        assert!(matches!(actions[1], ConnectionAction::Fail(ref e) if e.message() == text));
    }
}

#[test]
fn connections_reject_a_first_message_that_is_no_setup() {
    let mut connection = RemoteConnection::new(None);
    let actions =
        connection.serve_connection(ConnectionInput::Message(Ok(ClientMessage::Shutdown)));

    assert!(matches!(
        actions[..],
        [ConnectionAction::FailUnexpected(ClientMessage::Shutdown)]
    ));
}

#[test]
fn connections_check_store_and_options() {
    let mut connection = RemoteConnection::new(None);
    connection.serve_connection(ConnectionInput::Message(Ok(setup(
        worker_config(),
        None,
        Some("/a"),
    ))));
    let actions = connection.serve_connection(ConnectionInput::StoreDir(Ok("/b".into())));
    assert!(matches!(
        actions[..],
        [ConnectionAction::Fail(ref e)] if e.message().contains("store dir mismatch")
    ));

    let mut config = worker_config();
    config.nix_options.push(("builders".into(), "x".into()));
    let mut connection = RemoteConnection::new(None);
    let actions =
        connection.serve_connection(ConnectionInput::Message(Ok(setup(config, None, None))));
    assert!(matches!(
        actions[..],
        [ConnectionAction::Fail(ref e)] if e.message().contains("unsupported nix option")
    ));
}

#[test]
fn connections_report_failures() {
    let mut connection = RemoteConnection::new(None);
    connection.serve_connection(ConnectionInput::Message(Ok(setup(worker_config(), None, None))));
    connection.serve_connection(ConnectionInput::Spawned(Ok(())));
    connection.serve_connection(ConnectionInput::Message(Ok(ClientMessage::Work(vec![]))));
    let actions = connection
        .serve_connection(ConnectionInput::Finished(Err(ErrorChain::new("died"))));
    assert!(matches!(
        actions[..],
        [ConnectionAction::SendFailure(_), ConnectionAction::Fail(_)]
    ));

    let mut idle = RemoteConnection::new(None);
    idle.serve_connection(ConnectionInput::Message(Ok(setup(worker_config(), None, None))));
    idle.serve_connection(ConnectionInput::Spawned(Ok(())));
    let actions = idle.serve_connection(ConnectionInput::Message(Err(ErrorChain::new("eof"))));
    assert!(matches!(
        actions[..],
        [ConnectionAction::AbortWorker, ConnectionAction::Fail(ref e)]
            if e.messages() == ["reading remote worker request", "eof"]
    ));
}

#[test]
fn local_flake_root_accepts_path_refs_and_fragments() {
    assert_eq!(local_flake_root(".#hydraJobs").unwrap(), ".");
    assert_eq!(local_flake_root("path:/repo#jobs").unwrap(), "/repo");
    assert!(local_flake_root("github:owner/repo#jobs").is_none());
}

#[test]
fn local_flake_roots_of_other_forms() {
    assert_eq!(local_flake_root("#x").unwrap(), ".");
    assert_eq!(local_flake_root("..").unwrap(), "..");
    assert_eq!(local_flake_root("./a").unwrap(), "./a");
    assert!(local_flake_root("../a").is_none());
}

#[test]
fn local_flake_refs_require_checked_locks() {
    assert_eq!(flake_lock_mode(true), LockMode::Check);
    assert!(is_local_flake_reference(".#hydraJobs"));
    assert!(is_local_flake_reference("#hydraJobs"));
    assert!(is_local_flake_reference("path:/tmp/evix-fixture#hydraJobs"));
    assert!(is_local_flake_reference("../fixture#jobs"));
}

#[test]
fn non_path_flake_refs_keep_virtual_locks() {
    assert_eq!(flake_lock_mode(false), LockMode::Virtual);
    assert!(!is_local_flake_reference("github:NixOS/nixpkgs#hello"));
    assert!(!is_local_flake_reference("path:/tmp/no-fragment"));
}

#[test]
fn flake_parts_and_contexts() {
    assert_eq!(split_flake_fragment("a#b#c"), ("a", "#b#c".to_string()));
    assert_eq!(split_flake_fragment("a"), ("a", String::new()));
    assert!(is_relative_flake_path("../x") && is_relative_flake_path(""));
    assert!(!is_relative_flake_path("..") && !is_relative_flake_path("/x"));
    assert_eq!(fragment_parts("a.b"), vec!["a", "b"]);
    assert!(fragment_parts("").is_empty());
    assert_eq!(fragment_context("a", true), "auto-calling fragment \"a\"");
    assert_eq!(fragment_context("a", false), "fragment attr \"a\"");
    assert_eq!(
        override_context("n", "r", false),
        "parsing --override-input n reference \"r\""
    );
    assert_eq!(override_context("n", "r", true), "applying --override-input n");
    assert_eq!(lock_context(true), "locking local flake with an up-to-date flake.lock");
    assert_eq!(lock_context(false), "locking flake");
}

#[test]
fn memory_limits() {
    assert!(!should_restart(1024, 1));
    assert!(should_restart(1025, 1));
    assert!(!should_restart(usize::MAX, usize::MAX));
    assert_eq!(get_maxrss_kb(2048, false).unwrap(), 2048);
    assert_eq!(get_maxrss_kb(2048, true).unwrap(), 2);
    assert_eq!(
        get_maxrss_kb(-1, false).unwrap_err().message(),
        "getrusage returned a negative ru_maxrss"
    );
}

#[test]
fn root_plans() {
    let mut config = WorkerConfig::from(&Config::flake(".#x"));
    let plan = eval_root(&config);
    assert!(matches!(
        plan,
        RootPlan::Flake(FlakePlan::Locked { mode: LockMode::Check, .. })
    ));
    assert_eq!(root_context(&plan), "flake outputs");
    config.locked_flake_json = Some("{}".into());
    assert!(matches!(
        eval_root(&config),
        RootPlan::Flake(FlakePlan::Imported { ref graph, .. }) if graph == "{}"
    ));
    let plan = eval_root(&WorkerConfig::from(&Config::expr("1")));
    assert!(matches!(plan, RootPlan::Expr(ref s) if s == "1"));
    assert_eq!(root_context(&plan), "evaluating expression");
    assert!(matches!(
        eval_root(&WorkerConfig::from(&Config::file("f"))),
        RootPlan::File(_)
    ));
}

#[test]
fn automatic_arguments() {
    assert!(build_auto_args(&vec![]).is_none());
    let plans = build_auto_args(&vec![
        ("a".to_string(), AutoArg::Expr("1".into())),
        ("b".to_string(), AutoArg::Str("s".into())),
    ])
    .unwrap();
    assert!(plans[0].evaluate && !plans[1].evaluate);
    assert_eq!(plans[0].context, "--arg a");
    assert_eq!(plans[1].context, "--argstr b");
}

#[test]
fn workers_run_until_they_are_told_to_end() {
    let mut config = worker_config();
    config.max_memory_size = 1;
    let mut worker = Worker::new();
    assert!(matches!(
        worker.run(WorkerInput::Received(Ok(setup(config, None, None)))),
        WorkerOutput::Prepare(_)
    ));
    assert!(matches!(
        worker.run(WorkerInput::Prepared(Ok(()))),
        WorkerOutput::Send(ServerMessage::Ready)
    ));
    assert!(matches!(
        worker.run(WorkerInput::Received(Ok(ClientMessage::Work(vec!["a".into()])))),
        WorkerOutput::Evaluate(_)
    ));
    assert!(matches!(
        worker.run(WorkerInput::Produced(attr_set("a"))),
        WorkerOutput::Send(ServerMessage::Event(_))
    ));
    assert!(matches!(
        worker.run(WorkerInput::Measured(Ok(1024))),
        WorkerOutput::Send(ServerMessage::Status(WorkerStatus::Ready))
    ));
    assert!(matches!(
        worker.run(WorkerInput::Received(Ok(ClientMessage::Shutdown))),
        WorkerOutput::Exit
    ));
    assert_eq!(worker.phase, WorkerPhase::Ended);
}

#[test]
fn workers_restart_and_fail() {
    let mut worker = Worker { phase: WorkerPhase::Measuring, max_memory_size: 1 };
    assert!(matches!(
        worker.run(WorkerInput::Measured(Ok(1025))),
        WorkerOutput::SendAndExit(ServerMessage::Status(WorkerStatus::Restart))
    ));
    let mut worker = Worker { phase: WorkerPhase::Idle, max_memory_size: 1 };
    assert!(matches!(
        worker.run(WorkerInput::Received(Ok(setup(worker_config(), None, None)))),
        WorkerOutput::Fail(ref e) if e.message() == "worker setup sent twice"
    ));
    let mut worker = Worker::new();
    assert!(matches!(
        worker.run(WorkerInput::Received(Ok(ClientMessage::Shutdown))),
        WorkerOutput::FailUnexpected(_)
    ));
    let mut worker = Worker { phase: WorkerPhase::Measuring, max_memory_size: 1 };
    assert!(matches!(
        worker.run(WorkerInput::Measured(Err(ErrorChain::new("x")))),
        WorkerOutput::Fail(ref e) if e.message() == "checking worker memory usage"
    ));
}

#[test]
fn startup_hint_mentions_worker_dispatch() {
    let mut message = String::from("worker failed");

    append_startup_hint(&mut message, "handshake");

    assert!(message.contains("evix::run_worker_if_requested()"));
    assert!(message.contains("EVIX_WORKER"));
}

#[test]
fn startup_hint_is_limited_to_handshake_failures() {
    let mut message = String::from("worker failed");

    append_startup_hint(&mut message, "event");

    assert!(!message.contains("run_worker_if_requested"));
}

#[test]
fn captured_stderr_keeps_only_bounded_tail() {
    let mut capture = StderrCapture::new();
    capture.feed(&[b'a'; 10]);
    capture.feed(&vec![b'b'; STDERR_TAIL_LIMIT]);

    let captured = capture.tail_text();
    assert_eq!(captured.len(), STDERR_TAIL_LIMIT);
    assert!(captured.bytes().all(|byte| byte == b'b'));
}

#[test]
fn captured_stderr_lines() {
    let mut capture = StderrCapture::new();
    assert!(capture.feed(b"on").is_empty());
    let lines = capture.feed(b"e\ntwo\nthree");
    assert_eq!(lines[0].bytes, b"one");
    assert_eq!(lines[1].bytes, b"two");
    assert_eq!(capture.finish().unwrap().bytes, b"three");
    assert_eq!(capture.tail_text(), "one\ntwo\nthree");

    let mut long = StderrCapture::new();
    long.feed(&vec![b'x'; STDERR_LINE_LIMIT + 1]);
    let lines = long.feed(b"\n");
    assert_eq!(lines[0].bytes.len(), STDERR_LINE_LIMIT);
    assert!(lines[0].truncated);
    assert!(long.finish().is_none());

    let mut bad = StderrCapture::new();
    bad.feed(&[b'a', 0xff]);
    assert_eq!(bad.tail_text(), "a\u{fffd}");
}

#[test]
fn rejects_newlines_in_nix_option_parts() {
    assert!(validate_nix_option_part("key", "foo\nbar").is_err());
    assert!(validate_nix_option_part("value", "foo\rbar").is_err());
}

#[test]
fn rejects_include_directive_nix_option_parts() {
    assert!(validate_nix_option_part("key", " include /tmp/nix.conf").is_err());
    assert!(validate_nix_option_part("value", "!include /tmp/nix.conf").is_err());
    assert!(validate_nix_option_part("value", "allowed-uris").is_ok());
}

#[test]
fn nix_options_become_a_file() {
    assert!(prepare_nix_options_env(&vec![]).unwrap().is_none());
    let options = vec![
        ("restrict-eval".to_string(), "true".to_string()),
        ("a".to_string(), "b".to_string()),
    ];
    assert_eq!(
        prepare_nix_options_env(&options).unwrap().unwrap(),
        "restrict-eval = true\na = b\n"
    );
    let error =
        prepare_nix_options_env(&vec![("a".to_string(), "b\nc".to_string())]).unwrap_err();
    assert_eq!(error.message(), "nix option value must not contain newlines");
}

#[test]
fn nix_options_prepare_child_env_without_mutating_parent_env() {
    let list = nix_user_conf_files(
        "/tmp/evix-nix-options.conf",
        &Some("/tmp/nix-a.conf:/tmp/nix-b.conf".into()),
        &None,
    )
    .unwrap();
    let paths: Vec<&str> = list.split(':').collect();

    assert_eq!(paths[0], "/tmp/evix-nix-options.conf");
    assert_eq!(paths[1], "/tmp/nix-a.conf");
    assert_eq!(paths[2], "/tmp/nix-b.conf");
}

#[test]
fn nix_options_include_default_user_conf_file_when_env_is_absent() {
    let default = default_nix_user_conf_file(&Some("/xdg".into()), &Some("/home/u".into()));
    assert_eq!(default.as_deref(), Some("/xdg/nix/nix.conf"));
    assert_eq!(
        default_nix_user_conf_file(&None, &Some("/home/u".into())).as_deref(),
        Some("/home/u/.config/nix/nix.conf")
    );
    assert!(default_nix_user_conf_file(&None, &None).is_none());

    let list = nix_user_conf_files("/tmp/generated.conf", &Some("".into()), &default).unwrap();
    assert_eq!(list, "/tmp/generated.conf:/xdg/nix/nix.conf");
    let error = nix_user_conf_files("/a:b", &None, &None).unwrap_err();
    assert_eq!(error.message(), "joining NIX_USER_CONF_FILES");
}

#[test]
fn local_workers_are_marked_and_set_up() {
    let plan = spawn_local(&worker_config(), &Some("/w".into()), &Some("/c".into()));
    assert_eq!(plan.exe.as_deref(), Some("/w"));
    assert_eq!(plan.env[0], ("EVIX_WORKER".to_string(), "1".to_string()));
    assert_eq!(plan.env[1], ("NIX_USER_CONF_FILES".to_string(), "/c".to_string()));
    assert!(matches!(
        plan.setup,
        ClientMessage::Setup { token: None, expected_store_dir: None, .. }
    ));
    assert_eq!(spawn_local(&worker_config(), &None, &None).env.len(), 1);
}

#[test]
fn exits_are_explained() {
    let error = exit_error(
        "local#0",
        "event",
        "a.b",
        &ErrorChain::new("eof"),
        &Some("exit status: 1".into()),
        " oops \n",
    );
    assert_eq!(
        error.message(),
        "evix worker local#0 failed while reading event for a.b: eof (status: exit status: 1)\nworker stderr:\noops"
    );
    let error = exit_error("l", "handshake", "<startup>", &ErrorChain::new("eof"), &None, "");
    assert!(error.message().contains("hint:"));
}

#[test]
fn local_answers() {
    read_ready("l", ServerMessage::Ready).unwrap();
    assert!(matches!(
        read_ready("l", ServerMessage::Error("e".into())).unwrap_err(),
        AnswerError::Failed(ref s) if s == "worker l failed: e"
    ));
    assert!(read_event("l", &["a".to_string()], ServerMessage::Event(attr_set("a"))).is_ok());
    assert!(matches!(
        read_event("l", &["a".to_string(), "b".to_string()], ServerMessage::Ready).unwrap_err(),
        AnswerError::Unexpected { ref prefix, .. }
            if prefix == "unexpected worker event for [\"a\", \"b\"]: "
    ));
    assert_eq!(
        read_status("l", "a", ServerMessage::Status(WorkerStatus::Ready)).unwrap(),
        WorkerStatus::Ready
    );
    assert!(matches!(
        read_status("l", "a", ServerMessage::Ready).unwrap_err(),
        AnswerError::Unexpected { ref prefix, .. }
            if prefix == "unexpected worker status for a: "
    ));
}

#[test]
fn collectors_share_the_queue() {
    let mut state = State::new();
    assert!(matches!(state.hear(&Some("next\n".into())), Heard::Next));
    let Turn::Dispatch { path, line } = state.take_turn() else {
        panic!("expected dispatch");
    };
    assert!(path.is_empty());
    assert_eq!(line, "do []");
    assert!(matches!(state.take_turn(), Turn::Wait));

    let answer = event_line(&Event::AttrSet {
        attr: "".into(),
        attr_path: vec![],
        attrs: vec!["a".into(), "b".into()],
    })
    .unwrap();
    assert!(state.take_answer(&path, &Some(answer)).unwrap().is_none());
    let Turn::Dispatch { path, line } = state.take_turn() else {
        panic!("expected dispatch");
    };
    assert_eq!(line, r#"do ["a"]"#);
    let printed = state.take_answer(&path, &Some("{\"attr\":\"a\"}\r\n".into())).unwrap();
    assert_eq!(printed.as_deref(), Some("{\"attr\":\"a\"}"));
    let Turn::Dispatch { path, .. } = state.take_turn() else {
        panic!("expected dispatch");
    };
    state.take_answer(&path, &Some("{}".into())).unwrap();
    assert!(matches!(state.take_turn(), Turn::Finish));
    state.run_master().unwrap();
}

#[test]
fn collectors_run_until_nothing_is_left() {
    let line = |s: &str| CollectorInput::Line(Some(s.to_string()));
    let mut state = State::new();
    let mut first = Collector::new();
    let mut second = Collector::new();

    let actions = first.collector(&mut state, line("restart\n"));
    assert!(matches!(actions[..], [CollectorAction::Respawn]));
    let actions = first.collector(&mut state, line("next\n"));
    assert!(matches!(actions[..], [CollectorAction::Send(ref s)] if s == "do []"));
    assert!(second.collector(&mut state, line("next\n")).is_empty());

    let actions = first.collector(&mut state, line(r#"{"attrs": ["a", 1]}"#));
    assert!(matches!(actions[..], [CollectorAction::Notify]));
    let actions = second.collector(&mut state, CollectorInput::Changed);
    assert!(matches!(actions[..], [CollectorAction::Send(ref s)] if s == r#"do ["a"]"#));
    let actions = second.collector(&mut state, line(r#"{"attr": "a"}"#));
    assert!(matches!(
        actions[..],
        [CollectorAction::Print(ref s), CollectorAction::Notify] if s == r#"{"attr": "a"}"#
    ));
    let actions = first.collector(&mut state, line("next"));
    assert!(matches!(
        actions[..],
        [CollectorAction::Send(ref s), CollectorAction::Finish] if s == "exit"
    ));
    let actions = second.collector(&mut state, line(r#"{"error": "late"}"#));
    assert!(matches!(actions[..], [CollectorAction::Notify, CollectorAction::Fail(_)]));
    assert_eq!(state.run_master().unwrap_err().message(), "late");
}

#[test]
fn collectors_stop_at_fatal_errors() {
    let mut state = State::new();
    let Turn::Dispatch { path, .. } = state.take_turn() else {
        panic!("expected dispatch");
    };
    let fatal = Event::Error(EvalError {
        attr: "".into(),
        attr_path: vec![],
        error: "boom".into(),
        fatal: true,
    });
    let line = event_line(&fatal).unwrap();
    assert_eq!(state.take_answer(&path, &Some(line.clone())).unwrap(), Some(line));
    assert!(matches!(state.take_turn(), Turn::Fail(ref e) if e.message() == "boom"));
    assert_eq!(state.run_master().unwrap_err().message(), "boom");

    let mut state = State { todo: vec![], active: 1, error: None };
    state.take_answer(&vec![], &Some(r#"{"fatal": true}"#.into())).unwrap();
    assert_eq!(state.error.as_deref(), Some("fatal error"));
}

#[test]
fn collectors_reject_what_they_do_not_understand() {
    let mut state = State { todo: vec![], active: 1, error: None };
    assert!(matches!(state.hear(&Some(" restart\r\n".into())), Heard::Restart));
    assert!(matches!(
        state.hear(&None),
        Heard::Fail(ref e) if e.message() == "worker process closed unexpectedly"
    ));
    assert!(matches!(
        state.hear(&Some("what".into())),
        Heard::Fail(ref e) if e.message() == "unexpected worker message: what"
    ));
    assert!(state.error.is_none());
    assert!(matches!(
        state.hear(&Some(r#"{"error": "e"}"#.into())),
        Heard::Reported(ref e) if e.message() == "e"
    ));
    assert_eq!(state.error.as_deref(), Some("e"));

    let error = state.take_answer(&vec!["a".to_string()], &None).unwrap_err();
    assert_eq!(error.message(), "worker closed while reading response for [\"a\"]");
    let error = state.take_answer(&vec![], &Some("{".into())).unwrap_err();
    assert_eq!(error.message(), "parsing worker response: {");
    assert_eq!(state.active, 1);
    assert_eq!(worker_count(0), 1);
    assert_eq!(worker_count(5), 5);
}

#[test]
fn worker_commands() {
    assert!(matches!(read_command(&None).unwrap(), Command::Exit));
    assert!(matches!(read_command(&Some("exit\n".into())).unwrap(), Command::Exit));
    assert!(matches!(
        read_command(&Some("do  [\"a\", \"b\"] \n".into())).unwrap(),
        Command::Do(ref path) if path == &["a", "b"]
    ));
    assert_eq!(
        read_command(&Some("what".into())).unwrap_err().message(),
        "invalid worker command: what"
    );
    assert_eq!(
        read_command(&Some("do x".into())).unwrap_err().message(),
        "parsing attr path from master"
    );
}

#[test]
fn workers_ask_for_work_or_for_a_successor() {
    assert_eq!(after_answer(1024, 1), "next");
    assert_eq!(after_answer(1025, 1), "restart");
    assert_eq!(after_answer(usize::MAX, usize::MAX), "next");
    let mut state = State::new();
    assert!(matches!(state.hear(&Some(after_answer(0, 0).into())), Heard::Next));
    assert!(matches!(state.hear(&Some(after_answer(1, 0).into())), Heard::Restart));
}

#[test]
fn event_objects() {
    let value = event_value(&Event::Derivation(full_derivation()));
    assert_eq!(value["attr"], "a.b");
    assert_eq!(value["drvPath"], "/nix/store/n.drv");
    assert_eq!(value["outputs"]["out"], "/nix/store/o");
    assert!(value["outputs"]["dev"].is_null());
    assert!(value.get("attrs").is_none());
}

#[test]
fn command_line_arguments_come_in_pairs() {
    let list = |items: &[&str]| items.iter().map(|s| s.to_string()).collect::<Vec<_>>();
    let args = paired_args(&list(&["a", "1", "b", "2"]), &list(&["c", "s"])).unwrap();
    assert_eq!(args.len(), 3);
    assert!(matches!(args[1], (ref n, AutoArg::Expr(ref e)) if n == "b" && e == "2"));
    assert!(matches!(args[2], (ref n, AutoArg::Str(ref s)) if n == "c" && s == "s"));
    assert_eq!(
        paired_args(&list(&["a"]), &vec![]).unwrap_err().message(),
        "--arg: expected NAME EXPR pair"
    );
    assert_eq!(
        paired_args(&vec![], &list(&["a", "b", "c"])).unwrap_err().message(),
        "--argstr: expected NAME VALUE pair"
    );
}

#[test]
fn command_line_inputs() {
    let some = |s: &str| Some(s.to_string());
    assert!(matches!(
        choose_input(&some("f"), &some("e"), &some("p")).unwrap(),
        Input::Flake(_)
    ));
    assert!(matches!(choose_input(&None, &some("e"), &some("p")).unwrap(), Input::Expr(_)));
    assert!(matches!(choose_input(&None, &None, &some("p")).unwrap(), Input::File(_)));
    assert_eq!(
        choose_input(&None, &None, &None).unwrap_err().message(),
        "no input specified"
    );
}
