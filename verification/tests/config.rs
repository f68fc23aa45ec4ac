use evix::config::{
    validate_config, Config, ConfigBuilder, WorkerConfig, DEFAULT_ITEM_TIMEOUT_SECONDS,
};
use evix::error::{Error, ErrorChain, Operation};
use evix::model::{AutoArg, Input, Remote};
use evix::protocol;

fn remote(workers: usize) -> Remote {
    Remote {
        endpoint: "worker:7357".into(),
        systems: vec!["x86_64-linux".into()],
        workers,
        token: None,
    }
}

#[test]
fn config_constructors_set_input_and_defaults() {
    let expr = Config::expr("{}");
    let Input::Expr(value) = expr.input else {
        panic!("expected expr input");
    };
    assert_eq!(value, "{}");
    assert_eq!(expr.workers, Config::default().workers);

    let file = Config::file("default.nix");
    let Input::File(path) = file.input else {
        panic!("expected file input");
    };
    assert_eq!(path, "default.nix");

    let flake = Config::flake(".#checks");
    let Input::Flake(reference) = flake.input else {
        panic!("expected flake input");
    };
    assert_eq!(reference, ".#checks");
}

#[test]
fn config_builder_sets_library_options() {
    let config = ConfigBuilder::flake(".#hydraJobs")
        .workers(4)
        .max_memory_size(1024)
        .item_timeout_seconds(60)
        .meta(true)
        .show_input_drvs(true)
        .force_recurse(true)
        .gc_roots_dir("gcroots")
        .auto_arg_expr("pkgs", "import <nixpkgs> {}")
        .auto_arg_str("system", "x86_64-linux")
        .override_input("nixpkgs", "github:NixOS/nixpkgs/nixos-unstable")
        .nix_option("allow-import-from-derivation", "false")
        .remote(Remote {
            endpoint: "127.0.0.1:9000".into(),
            systems: vec!["x86_64-linux".into()],
            workers: 2,
            token: Some("secret".into()),
        })
        .worker_exe("evix-worker")
        .build();

    assert_eq!(config.workers, 4);
    assert_eq!(config.max_memory_size, 1024);
    assert_eq!(config.item_timeout_seconds, 60);
    assert!(config.meta);
    assert!(config.show_input_drvs);
    assert!(config.force_recurse);
    assert_eq!(config.gc_roots_dir, Some("gcroots".to_string()));
    assert_eq!(config.auto_args.len(), 2);
    assert_eq!(config.override_inputs.len(), 1);
    assert_eq!(config.nix_options.len(), 1);
    assert_eq!(config.remotes.len(), 1);
    assert_eq!(config.worker_exe, Some("evix-worker".to_string()));
}

#[test]
fn config_rejects_zero_remote_workers() {
    let config = Config { remotes: vec![remote(0)], ..Config::default() };

    let error = validate_config(&config).unwrap_err().message();
    assert!(error.contains("must be greater than zero"));
    assert!(error.contains("worker:7357"));
}

#[test]
fn config_allows_tokenless_remote() {
    let config = Config { remotes: vec![remote(1)], ..Config::default() };

    validate_config(&config).unwrap();
}

#[test]
fn config_rejects_zero_item_timeout() {
    let config = Config { item_timeout_seconds: 0, ..Config::default() };

    let error = validate_config(&config).unwrap_err().message();
    assert!(error.contains("item timeout"));
}

#[test]
fn default_config_values() {
    let config = Config::default();

    assert!(matches!(config.input, Input::Expr(ref s) if s == "{}"));
    assert_eq!(config.workers, 1);
    assert_eq!(config.max_memory_size, 4096);
    assert_eq!(config.item_timeout_seconds, DEFAULT_ITEM_TIMEOUT_SECONDS);
    assert!(config.worker_exe.is_none());
}

#[test]
fn builder_keeps_arguments_in_order() {
    let config = Config::expr("1")
        .builder()
        .auto_arg_str("a", "x")
        .auto_arg_expr("b", "2")
        .build();

    assert_eq!(config.auto_args[0].0, "a");
    assert!(matches!(config.auto_args[0].1, AutoArg::Str(ref s) if s == "x"));
    assert_eq!(config.auto_args[1].0, "b");
    assert!(matches!(config.auto_args[1].1, AutoArg::Expr(ref s) if s == "2"));
}

#[test]
fn wire_config_drops_the_worker_executable_only() {
    let config = ConfigBuilder::file("a.nix")
        .workers(3)
        .remote(remote(2))
        .nix_option("k", "v")
        .worker_exe("/bin/w")
        .build();

    let wire = protocol::Config::from(&config);
    assert_eq!(wire.workers, 3);
    let back = Config::from(wire);

    assert!(matches!(back.input, Input::File(ref s) if s == "a.nix"));
    assert_eq!(back.remotes[0].endpoint, "worker:7357");
    assert_eq!(back.nix_options, vec![("k".to_string(), "v".to_string())]);
    assert!(back.worker_exe.is_none());
}

#[test]
fn worker_config_has_no_locked_flake_yet() {
    let config = WorkerConfig::from(&ConfigBuilder::flake(".").max_memory_size(7).build());

    assert_eq!(config.max_memory_size, 7);
    assert!(config.locked_flake_json.is_none());
}

#[test]
fn internal_error_preserves_source_chain() {
    let error = Error::from(ErrorChain::new("root cause").context("outer context"));
    let source = error.source().expect("internal error source");

    assert_eq!(error.message(), "outer context");
    assert_eq!(source.message(), "outer context");
    assert_eq!(source.source().expect("inner source").message(), "root cause");
}

#[test]
fn error_messages() {
    assert_eq!(
        Error::SessionStreamConsumed.message(),
        "session stream has already been consumed"
    );
    assert_eq!(
        Error::InitialEvaluationIncomplete { operation: Operation::DiffOnce }.message(),
        "Session::diff_once requires a completed initial evaluation"
    );
    assert_eq!(Error::SessionStillEvaluating.message(), "session is still evaluating");
    assert_eq!(Error::Cancelled.message(), "evaluation was cancelled");
    assert_eq!(Error::EvaluationFailed { message: "x".into() }.message(), "x");
    assert!(Error::Cancelled.source().is_none());
}

#[test]
fn error_chain_lists_messages_outermost_first() {
    let chain = ErrorChain::new("c").context("b").context("a");

    assert_eq!(chain.messages(), vec!["a", "b", "c"]);
    assert_eq!(chain.len(), 3);
    assert!(ErrorChain::new("c").source().is_none());
}
