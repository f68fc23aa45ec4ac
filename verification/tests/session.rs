use evix::config::Config;
use evix::error::{Error, ErrorChain, Operation};
use evix::model::{Derivation, EvalError, Event, Filter, Input};
use evix::ordered_map::OrderedMap;
use evix::session::{
    bounded_capacity, stream_delivery, InitialEvaluation, Session, StreamStart,
};
use evix::state::{collect_event, diff_graphs, EvalGraph, Evaluation, RunOutcome, WarmState};
use evix::watch::{
    apply_watch_evaluation_result, lock_file, wait_for_initial_evaluation, watch_delivery,
    watch_step, watched_paths, InitialWait, WatchAction, WatchSignal, WatchStep,
};

fn derivation(name: &str) -> Derivation {
    Derivation {
        attr: name.into(),
        attr_path: vec![name.into()],
        name: name.into(),
        system: "x86_64-linux".into(),
        drv_path: format!("/nix/store/{name}.drv"),
        outputs: OrderedMap::new(),
        meta: None,
        input_drvs: OrderedMap::new(),
        constituents: None,
        gc_root_error: None,
    }
}

fn graph(names: &[&str]) -> EvalGraph {
    let mut graph = EvalGraph::new();
    for name in names {
        graph.record(derivation(name));
    }
    graph
}

fn completed(graph: EvalGraph) -> Result<Evaluation, ErrorChain> {
    Ok(Evaluation { graph, errors: vec![], outcome: RunOutcome::Completed })
}

fn session_in(initial: InitialEvaluation) -> Session {
    Session {
        config: Config::default(),
        cancelled: false,
        state: WarmState::default(),
        initial,
    }
}

#[test]
fn spawn_without_runtime_records_initial_error() {
    let mut session = session_in(InitialEvaluation::Running);

    let error = session.spawn_failed();

    assert_eq!(session.initial, InitialEvaluation::Finished);
    assert_eq!(
        session.state.error.as_deref(),
        Some("Session streams require an active Tokio runtime")
    );
    assert!(matches!(error, Error::RuntimeUnavailable { .. }));
}

#[test]
fn query_before_initial_eval_uses_matchable_error() {
    let session = Session::open(Config::default()).unwrap();
    let error = session.query_snapshot(&Filter::default()).unwrap_err();

    assert!(matches!(
        error,
        Error::InitialEvaluationIncomplete { operation: Operation::QuerySnapshot }
    ));
    assert_eq!(Operation::QuerySnapshot.name(), "query_snapshot");
}

#[test]
fn failed_initial_evaluation_is_reported_after_stream_consumed() {
    let mut session = Session::open(Config::expr("{}")).unwrap();
    assert!(matches!(session.stream(), StreamStart::Evaluate(_)));

    let failure = ErrorChain::new("no such file").context("spawning worker process for local#0");
    let first_error = session.evaluate_initial(Err(failure)).unwrap();

    assert!(first_error.source().is_some());
    assert!(first_error.message().contains("spawning worker process"));

    let StreamStart::Refused(second_error) = session.stream() else {
        panic!("expected a refused stream");
    };
    let query_error = session.query_snapshot(&Filter::default()).unwrap_err();
    let diff_error = session.diff_previous().unwrap_err();

    assert!(matches!(second_error, Error::EvaluationFailed { .. }));
    assert!(matches!(query_error, Error::EvaluationFailed { .. }));
    assert!(matches!(diff_error, Error::EvaluationFailed { .. }));
}

#[test]
fn duplicate_stream_uses_matchable_error() {
    let mut session = session_in(InitialEvaluation::Finished);

    let StreamStart::Refused(error) = session.stream() else {
        panic!("expected a refused stream");
    };

    assert!(matches!(error, Error::SessionStreamConsumed));
}

#[test]
fn duplicate_bounded_stream_uses_matchable_error() {
    let mut session = session_in(InitialEvaluation::Finished);

    let (capacity, start) = session.stream_bounded(1);

    assert_eq!(capacity, 1);
    let StreamStart::Refused(error) = start else {
        panic!("expected a refused stream");
    };
    assert!(matches!(error, Error::SessionStreamConsumed));
}

#[test]
fn bounded_capacity_has_minimum_one() {
    assert_eq!(bounded_capacity(0), 1);
    assert_eq!(bounded_capacity(8), 8);
}

#[test]
fn cancel_sets_session_cancellation_flag() {
    let mut session = session_in(InitialEvaluation::Idle);

    session.cancel();

    assert!(session.cancelled);
}

#[test]
fn bounded_streams_hold_at_least_one_item() {
    let mut session = session_in(InitialEvaluation::Idle);
    assert_eq!(session.stream_bounded(0).0, 1);

    let mut other = session_in(InitialEvaluation::Idle);
    let (capacity, start) = other.watch_bounded(0);
    assert_eq!(capacity, 1);
    assert!(start.start_initial);
    assert!(!other.watch().start_initial);
}

#[test]
fn completed_evaluation_answers_queries_and_diffs() {
    let mut session = Session::open(Config::default()).unwrap();
    session.stream();
    assert!(session.evaluate_initial(completed(graph(&["b", "a"]))).is_none());
    assert!(session.is_completed());
    session.require_completed().unwrap();

    let all = session.query(&Filter::default()).unwrap();
    let names: Vec<&str> = all.iter().map(|d| d.name.as_str()).collect();
    assert_eq!(names, vec!["a", "b"]);

    let filter = Filter { attr_prefix: Some("a".into()), system: None };
    assert_eq!(session.query_snapshot(&filter).unwrap().len(), 1);
    let none = Filter { attr_prefix: None, system: Some("riscv64-linux".into()) };
    assert!(session.query_snapshot(&none).unwrap().is_empty());

    let previous = session.diff_previous().unwrap();
    let diff = session.diff_once(&previous, completed(graph(&["b", "c"]))).unwrap();
    assert_eq!(diff.added.len(), 1);
    assert_eq!(diff.added[0].name, "c");
    assert_eq!(diff.removed[0].name, "a");
    assert!(diff.changed.is_empty());
    assert_eq!(session.query(&Filter::default()).unwrap().len(), 2);
}

#[test]
fn cancelled_initial_evaluation_keeps_nothing() {
    let mut session = Session::open(Config::default()).unwrap();
    session.stream();
    let run = Ok(Evaluation {
        graph: graph(&["partial"]),
        errors: vec![],
        outcome: RunOutcome::Cancelled,
    });

    assert!(matches!(session.evaluate_initial(run), Some(Error::Cancelled)));
    assert_eq!(session.state.graph.len(), 0);
    assert_eq!(
        session.require_completed().unwrap_err().message(),
        "evaluation was cancelled"
    );
}

#[test]
fn cancelled_or_failed_diff_leaves_the_session() {
    let mut session = Session::open(Config::default()).unwrap();
    session.stream();
    session.evaluate_initial(completed(graph(&["a"])));
    let previous = session.diff_previous().unwrap();

    let cancelled = Ok(Evaluation {
        graph: EvalGraph::new(),
        errors: vec![],
        outcome: RunOutcome::Cancelled,
    });
    assert!(matches!(session.diff_once(&previous, cancelled), Err(Error::Cancelled)));
    let failed = session.diff_once(&previous, Err(ErrorChain::new("x"))).unwrap_err();
    assert_eq!(failed.message(), "x");
    assert_eq!(session.state.graph.len(), 1);
}

#[test]
fn running_session_is_still_evaluating() {
    let session = session_in(InitialEvaluation::Running);

    assert!(matches!(session.require_completed(), Err(Error::SessionStillEvaluating)));
}

#[test]
fn undelivered_events_are_errors() {
    assert!(stream_delivery(true).is_ok());
    assert_eq!(
        stream_delivery(false).unwrap_err().message(),
        "session stream receiver was dropped"
    );
    assert!(watch_delivery(true).is_ok());
    assert_eq!(
        watch_delivery(false).unwrap_err().message(),
        "watch stream receiver was dropped"
    );
}

#[test]
fn diff_of_a_graph_with_itself_is_empty() {
    let before = graph(&["a", "b"]);
    let diff = diff_graphs(&before, &before.clone(), vec![]);

    assert!(diff.added.is_empty() && diff.removed.is_empty() && diff.changed.is_empty());
}

#[test]
fn diff_reports_changed_store_paths_and_errors() {
    let before = graph(&["a"]);
    let mut changed = derivation("a");
    changed.drv_path = "/nix/store/other.drv".into();
    let mut after = EvalGraph::new();
    after.record(changed);
    let errors = vec![EvalError {
        attr: "x".into(),
        attr_path: vec!["x".into()],
        error: "boom".into(),
        fatal: false,
    }];

    let diff = diff_graphs(&before, &after, errors);

    assert_eq!(diff.changed.len(), 1);
    assert_eq!(diff.changed[0].drv_path, "/nix/store/other.drv");
    assert_eq!(diff.errors[0].error, "boom");
}

#[test]
fn events_collect_into_graph_and_errors() {
    let mut found = EvalGraph::new();
    let mut errors = vec![];
    collect_event(&mut found, &mut errors, &Event::Derivation(derivation("a")));
    collect_event(
        &mut found,
        &mut errors,
        &Event::AttrSet { attr: "".into(), attr_path: vec![], attrs: vec!["a".into()] },
    );
    collect_event(
        &mut found,
        &mut errors,
        &Event::Error(EvalError {
            attr: "b".into(),
            attr_path: vec!["b".into()],
            error: "no".into(),
            fatal: false,
        }),
    );

    assert_eq!(found.len(), 1);
    assert!(found.get(&vec!["a".to_string()]).is_some());
    assert_eq!(errors.len(), 1);
}

#[test]
fn watch_eval_error_is_reported_without_replacing_warm_state() {
    let drv = derivation("old");
    let mut warm = EvalGraph::new();
    warm.record(drv.clone());
    let mut state = WarmState { graph: warm.clone(), completed: true, ..WarmState::default() };

    let outcome =
        apply_watch_evaluation_result(Err(ErrorChain::new("broken eval")), &warm, &mut state);

    assert_eq!(outcome.action, WatchAction::Continue);
    let error = outcome.item.unwrap().unwrap_err();
    assert!(error.message().contains("broken eval"));

    assert_eq!(state.graph.get(&drv.attr_path).unwrap().drv_path, drv.drv_path);
    assert!(state.completed);
    assert!(state.error.is_none());
}

#[test]
fn watch_reports_what_changed_and_keeps_it() {
    let previous = graph(&["a"]);
    let mut state = WarmState::default();

    let outcome = apply_watch_evaluation_result(completed(graph(&["a", "b"])), &previous, &mut state);

    let diff = outcome.item.unwrap().unwrap();
    assert_eq!(diff.added[0].name, "b");
    assert!(state.completed);
    assert_eq!(state.graph.len(), 2);
}

#[test]
fn cancelled_watch_evaluation_stops() {
    let mut state = WarmState::default();
    let run = Ok(Evaluation {
        graph: graph(&["a"]),
        errors: vec![],
        outcome: RunOutcome::Cancelled,
    });

    let outcome = apply_watch_evaluation_result(run, &EvalGraph::new(), &mut state);

    assert!(outcome.item.is_none());
    assert_eq!(outcome.action, WatchAction::Stop);
    assert_eq!(state.graph.len(), 0);
}

#[test]
fn watch_waits_for_the_initial_evaluation() {
    let mut state = WarmState::default();
    assert!(matches!(wait_for_initial_evaluation(false, &state), InitialWait::Pending));
    let InitialWait::Failed(error) = wait_for_initial_evaluation(true, &state) else {
        panic!("expected a failure");
    };
    assert_eq!(error.message(), "session dropped before initial evaluation completed");

    state.error = Some("bad".into());
    let InitialWait::Failed(error) = wait_for_initial_evaluation(false, &state) else {
        panic!("expected a failure");
    };
    assert_eq!(error.message(), "bad");

    state.completed = true;
    assert!(matches!(wait_for_initial_evaluation(false, &state), InitialWait::Ready));
}

#[test]
fn watch_signals_become_steps() {
    assert!(matches!(watch_step(false, &WatchSignal::Changed), WatchStep::Evaluate));
    assert!(matches!(watch_step(false, &WatchSignal::Quiet), WatchStep::Wait));
    assert!(matches!(watch_step(true, &WatchSignal::Changed), WatchStep::Stop));
    let WatchStep::Fail(error) = watch_step(false, &WatchSignal::Disconnected) else {
        panic!("expected a failure");
    };
    assert_eq!(error.message(), "filesystem watcher disconnected");
    let WatchStep::Report(error) = watch_step(false, &WatchSignal::Failed("e".into())) else {
        panic!("expected a report");
    };
    assert_eq!(error.message(), "filesystem watch error: e");
}

#[test]
fn watched_paths_rejects_expression_input() {
    let error = watched_paths(
        &Config { input: Input::Expr("{}".into()), ..Config::default() },
        &None,
    )
    .unwrap_err()
    .message();

    assert!(error.contains("watch requires a file or local flake input"));
}

#[test]
fn watched_paths_of_files_and_remote_flakes() {
    assert_eq!(watched_paths(&Config::file("a.nix"), &None).unwrap(), vec!["a.nix"]);
    let error = watched_paths(&Config::flake("github:a/b"), &None).unwrap_err();
    assert_eq!(error.message(), "flake reference is not a local path: github:a/b");
    assert!(lock_file(&Config::flake("github:a/b")).is_none());
}

#[test]
fn watched_flakes_include_their_local_inputs() {
    let config = Config::flake("path:/repo#jobs");
    assert_eq!(lock_file(&config).as_deref(), Some("/repo/flake.lock"));
    let lock = r#"{"nodes": {
        "z": {"locked": {"type": "path", "path": "sub"}},
        "a": {"locked": {"type": "path", "path": "/other"}},
        "b": {"locked": {"type": "path", "path": "/repo//sub/"}},
        "c": {"locked": {"type": "github", "path": "x"}},
        "root": {}
    }}"#;

    let paths = watched_paths(&config, &Some(lock.to_string())).unwrap();

    assert_eq!(paths, vec!["/other", "/repo", "/repo//sub/"]);
}

#[test]
fn watched_flakes_need_a_valid_lock_file() {
    let error = watched_paths(&Config::flake("."), &Some("{".into())).unwrap_err();

    assert_eq!(error.message(), "parsing flake.lock");
    assert!(error.source().is_some());
    assert_eq!(watched_paths(&Config::flake("."), &Some("{}".into())).unwrap(), vec!["."]);
}
