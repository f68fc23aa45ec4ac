use std::collections::{BTreeSet, HashMap, VecDeque};

use evix::config::Config;
use evix::error::ErrorChain;
use evix::model::{Derivation, EvalError, Event, Remote};
use evix::ordered_map::OrderedMap;
use evix::scheduler::{
    display_attr, pool_specs, worker_failure_event, NextWork, Scheduler, WorkItem, WorkerKind,
    WorkerSpec,
};
use evix::state::{evaluation_end, EvalGraph, RunOutcome};

fn derivation_at(path: &[String], system: &str) -> Event {
    Event::Derivation(Derivation {
        attr: display_attr(path),
        attr_path: path.to_vec(),
        name: path.join("-"),
        system: system.into(),
        drv_path: format!("/nix/store/{}.drv", path.join("-")),
        outputs: OrderedMap::new(),
        meta: None,
        input_drvs: OrderedMap::new(),
        constituents: None,
        gc_root_error: None,
    })
}

fn derivation(system: &str) -> Event {
    derivation_at(&["job".to_string()], system)
}

fn local_worker(id: usize) -> WorkerSpec {
    WorkerSpec {
        id,
        label: format!("local#{id}"),
        kind: WorkerKind::Local { worker_exe: None },
    }
}

fn remote_worker(id: usize, systems: &[&str]) -> WorkerSpec {
    WorkerSpec {
        id,
        label: format!("remote#{id}"),
        kind: WorkerKind::Remote(Remote {
            endpoint: format!("h{id}:7357"),
            systems: systems.iter().map(|s| (*s).to_string()).collect(),
            workers: 1,
            token: None,
        }),
    }
}

fn labelled(id: usize, label: &str, endpoint: &str, system: &str) -> WorkerSpec {
    WorkerSpec {
        id,
        label: label.into(),
        kind: WorkerKind::Remote(Remote {
            endpoint: endpoint.into(),
            systems: vec![system.into()],
            workers: 1,
            token: None,
        }),
    }
}

fn scheduler_with_work() -> Scheduler {
    Scheduler {
        todo: VecDeque::from([WorkItem { path: vec!["job".into()] }]),
        active: 0,
        error: None,
    }
}

#[test]
fn scheduler_reuses_derivation_when_pool_owns_system() {
    let workers = vec![
        labelled(0, "remote:x86", "x86:7357", "x86_64-linux"),
        labelled(1, "remote:aarch64", "aarch64:7357", "aarch64-linux"),
    ];
    let mut scheduler = scheduler_with_work();

    let item = match scheduler.next_for(workers[0].id) {
        NextWork::Dispatch(item) => item,
        _ => panic!("expected dispatch"),
    };
    let completed =
        scheduler.complete(&workers[0], &workers, item, &derivation("aarch64-linux"));
    assert!(completed.emit);
    assert!(completed.fatal_error.is_none());
    assert!(matches!(scheduler.next_for(workers[1].id), NextWork::Done));
}

#[test]
fn scheduler_reuses_derivation_when_local_worker_owns_system() {
    let workers =
        vec![labelled(0, "remote:x86", "x86:7357", "x86_64-linux"), local_worker(1)];
    let mut scheduler = scheduler_with_work();

    let item = match scheduler.next_for(workers[0].id) {
        NextWork::Dispatch(item) => item,
        _ => panic!("expected dispatch"),
    };
    let completed =
        scheduler.complete(&workers[0], &workers, item, &derivation("aarch64-linux"));
    assert!(completed.emit);
    assert!(completed.fatal_error.is_none());
    assert!(matches!(scheduler.next_for(workers[1].id), NextWork::Done));
}

#[test]
fn scheduler_fails_when_no_worker_accepts_derivation_system() {
    let workers = vec![labelled(0, "remote:x86", "x86:7357", "x86_64-linux")];
    let mut scheduler = scheduler_with_work();
    let item = match scheduler.next_for(workers[0].id) {
        NextWork::Dispatch(item) => item,
        _ => panic!("expected dispatch"),
    };

    let completed =
        scheduler.complete(&workers[0], &workers, item, &derivation("aarch64-linux"));
    assert!(!completed.emit);
    assert!(completed
        .fatal_error
        .as_deref()
        .is_some_and(|error| error.contains("aarch64-linux")));
    assert!(matches!(scheduler.next_for(0), NextWork::Fatal(_)));
}

#[test]
fn worker_failure_becomes_non_fatal_attribute_error() {
    let worker = local_worker(0);
    let item = WorkItem { path: vec!["jobs".into(), "bad".into()] };

    let event = worker_failure_event(&worker, &item, ErrorChain::new("process died"));

    let Event::Error(error) = event else {
        panic!("expected worker failure to become an evaluation error");
    };
    assert_eq!(error.attr, "jobs.bad");
    assert_eq!(error.attr_path, item.path);
    assert!(error.error.contains("worker local#0 failed"));
    assert!(error.error.contains("process died"));
    assert!(!error.fatal);
}

#[test]
fn scheduler_starts_with_the_root_and_waits_while_it_is_out() {
    let mut scheduler = Scheduler::new();
    let worker = local_worker(0);

    let NextWork::Dispatch(root) = scheduler.next_for(0) else {
        panic!("expected dispatch");
    };
    assert!(root.path.is_empty());
    assert!(matches!(scheduler.next_for(1), NextWork::Wait));

    let children = Event::AttrSet {
        attr: "".into(),
        attr_path: vec![],
        attrs: vec!["b".into(), "a".into()],
    };
    let completed = scheduler.complete(&worker, &[local_worker(0)], root, &children);
    assert!(completed.emit);

    let NextWork::Dispatch(first) = scheduler.next_for(0) else {
        panic!("expected dispatch");
    };
    let NextWork::Dispatch(second) = scheduler.next_for(0) else {
        panic!("expected dispatch");
    };
    assert_eq!(first.path, vec!["b"]);
    assert_eq!(second.path, vec!["a"]);
}

#[test]
fn fatal_errors_end_the_evaluation() {
    let mut scheduler = scheduler_with_work();
    let workers = vec![local_worker(0)];
    let NextWork::Dispatch(item) = scheduler.next_for(0) else {
        panic!("expected dispatch");
    };
    let event = Event::Error(EvalError {
        attr: "job".into(),
        attr_path: vec!["job".into()],
        error: "boom".into(),
        fatal: true,
    });

    let completed = scheduler.complete(&workers[0], &workers, item, &event);

    assert!(completed.emit);
    assert_eq!(completed.fatal_error.as_deref(), Some("boom"));
    assert!(matches!(scheduler.next_for(0), NextWork::Fatal(ref m) if m == "boom"));
}

struct Rng(u64);
impl Rng {
    fn new(seed: u64) -> Self {
        Self(seed | 1)
    }

    fn next_u64(&mut self) -> u64 {
        let mut x = self.0;
        x ^= x << 13;
        x ^= x >> 7;
        x ^= x << 17;
        self.0 = x;
        x
    }

    fn below(&mut self, n: usize) -> usize {
        (self.next_u64() % n as u64) as usize
    }

    fn chance(&mut self, pct: u64) -> bool {
        self.next_u64() % 100 < pct
    }
}

enum Node {
    Names(Vec<String>),
    Drv(String),
    Fails,
}

type Tree = HashMap<Vec<String>, Node>;

const SYSTEMS: [&str; 3] = ["x86_64-linux", "aarch64-linux", "riscv64-linux"];

fn gen_tree(rng: &mut Rng) -> Tree {
    let mut tree = Tree::new();
    build_node(&mut tree, Vec::new(), 0, rng);
    tree
}

fn build_node(tree: &mut Tree, path: Vec<String>, depth: usize, rng: &mut Rng) {
    let count = 1 + rng.below(4);
    let mut names = Vec::with_capacity(count);
    for i in 0..count {
        let name = format!("a{i}");
        let mut child = path.clone();
        child.push(name.clone());
        names.push(name);

        let leaf = depth >= 3 || rng.chance(55);
        if !leaf {
            build_node(tree, child, depth + 1, rng);
        } else if rng.chance(10) {
            tree.insert(child, Node::Fails);
        } else {
            let system = SYSTEMS[rng.below(SYSTEMS.len())].to_string();
            tree.insert(child, Node::Drv(system));
        }
    }
    tree.insert(path, Node::Names(names));
}

fn expected_drvs(tree: &Tree) -> BTreeSet<Vec<String>> {
    tree.iter()
        .filter(|(_, node)| matches!(node, Node::Drv(_)))
        .map(|(path, _)| path.clone())
        .collect()
}

fn systems_present(tree: &Tree) -> BTreeSet<String> {
    tree.values()
        .filter_map(|node| match node {
            Node::Drv(system) => Some(system.clone()),
            _ => None,
        })
        .collect()
}

fn produce(tree: &Tree, path: &[String]) -> Event {
    match tree.get(path).expect("dispatched a path absent from the tree") {
        Node::Names(names) => Event::AttrSet {
            attr: display_attr(path),
            attr_path: path.to_vec(),
            attrs: names.clone(),
        },
        Node::Drv(system) => derivation_at(path, system),
        Node::Fails => Event::Error(EvalError {
            attr: display_attr(path),
            attr_path: path.to_vec(),
            error: "synthetic non-fatal error".into(),
            fatal: false,
        }),
    }
}

enum SimResult {
    Done(Vec<Vec<String>>),
    Fatal(String),
}

fn run_sim(tree: &Tree, workers: &[WorkerSpec]) -> SimResult {
    let mut scheduler = Scheduler {
        todo: VecDeque::from([WorkItem { path: Vec::new() }]),
        active: 0,
        error: None,
    };
    let mut emitted: Vec<Vec<String>> = Vec::new();
    let cap = (tree.len() + 1) * (workers.len() + 1) * 64 + 1024;
    let mut steps = 0usize;
    let mut cursor = 0usize;
    let mut waits = 0usize;

    loop {
        steps += 1;
        assert!(steps < cap, "scheduler did not terminate (livelock?)");
        let worker = &workers[cursor % workers.len()];
        match scheduler.next_for(worker.id) {
            NextWork::Dispatch(item) => {
                let event = produce(tree, &item.path);
                let is_drv = matches!(event, Event::Derivation(_));
                let path = item.path.clone();
                let completed = scheduler.complete(worker, workers, item, &event);
                if completed.emit && is_drv {
                    emitted.push(path);
                }
                if let Some(error) = completed.fatal_error {
                    return SimResult::Fatal(error);
                }
                cursor = 0;
                waits = 0;
            }
            NextWork::Wait => {
                waits += 1;
                assert!(
                    waits <= workers.len(),
                    "every worker stalled while systems were covered"
                );
                cursor += 1;
            }
            NextWork::Done => return SimResult::Done(emitted),
            NextWork::Fatal(error) => return SimResult::Fatal(error),
        }
    }
}

fn covered_topologies() -> Vec<(&'static str, Vec<WorkerSpec>)> {
    vec![
        ("single local", vec![local_worker(0)]),
        ("three local", vec![local_worker(0), local_worker(1), local_worker(2)]),
        (
            "remote, one system each",
            vec![
                remote_worker(0, &["x86_64-linux"]),
                remote_worker(1, &["aarch64-linux"]),
                remote_worker(2, &["riscv64-linux"]),
            ],
        ),
        (
            "remote, overlapping ownership",
            vec![
                remote_worker(0, &["x86_64-linux", "aarch64-linux"]),
                remote_worker(1, &["aarch64-linux", "riscv64-linux"]),
                remote_worker(2, &["riscv64-linux", "x86_64-linux"]),
            ],
        ),
        (
            "local plus catch-all remote",
            vec![local_worker(0), remote_worker(1, &["x86_64-linux"]), remote_worker(2, &[])],
        ),
    ]
}

#[test]
fn distributed_eval_is_topology_invariant() {
    for seed in 1..=300u64 {
        let mut rng = Rng::new(seed.wrapping_mul(0x9E37_79B9_7F4A_7C15));
        let tree = gen_tree(&mut rng);
        let expected = expected_drvs(&tree);

        for (label, workers) in covered_topologies() {
            match run_sim(&tree, &workers) {
                SimResult::Done(emitted) => {
                    let set: BTreeSet<Vec<String>> = emitted.iter().cloned().collect();
                    assert_eq!(
                        set.len(),
                        emitted.len(),
                        "seed {seed} / {label}: a derivation was emitted more than once"
                    );
                    assert_eq!(
                        set, expected,
                        "seed {seed} / {label}: emitted derivation set diverged"
                    );
                }
                SimResult::Fatal(error) => {
                    panic!("seed {seed} / {label}: covered topology failed: {error}")
                }
            }
        }
    }
}

#[test]
fn distributed_eval_fails_when_a_system_is_unowned() {
    let mut exercised = 0usize;
    for seed in 1..=200u64 {
        let mut rng = Rng::new(seed.wrapping_mul(0x0100_0000_01B3));
        let tree = gen_tree(&mut rng);
        if !systems_present(&tree).contains("riscv64-linux") {
            continue;
        }
        exercised += 1;

        let workers =
            vec![remote_worker(0, &["x86_64-linux"]), remote_worker(1, &["aarch64-linux"])];
        match run_sim(&tree, &workers) {
            SimResult::Fatal(error) => {
                assert!(
                    error.contains("no worker accepted"),
                    "seed {seed}: unexpected failure message: {error}"
                )
            }
            SimResult::Done(_) => {
                panic!("seed {seed}: a pool with no riscv64 owner should have failed")
            }
        }
    }
    assert!(exercised > 0, "no generated tree exercised the unowned path");
}

#[test]
fn pools_hold_local_workers_and_then_remote_ones() {
    let mut config = Config::expr("{}");
    config.workers = 2;
    config.worker_exe = Some("/bin/w".into());
    config.remotes.push(Remote {
        endpoint: "h:1".into(),
        systems: vec!["x86_64-linux".into()],
        workers: 2,
        token: None,
    });
    config.remotes.push(Remote {
        endpoint: "i:2".into(),
        systems: vec![],
        workers: 1,
        token: Some("t".into()),
    });
    let pool = pool_specs(&config);
    let labels: Vec<&str> = pool.iter().map(|w| w.label.as_str()).collect();
    assert_eq!(labels, vec!["local#0", "local#1", "h:1#0", "h:1#1", "i:2#0"]);
    assert!(pool.iter().enumerate().all(|(i, w)| w.id == i));
    assert!(matches!(
        pool[0].kind,
        WorkerKind::Local { worker_exe: Some(ref exe) } if exe == "/bin/w"
    ));
    assert!(matches!(pool[4].kind, WorkerKind::Remote(ref r) if r.endpoint == "i:2"));
}

#[test]
fn runs_end_in_one_of_three_ways() {
    let failed = || Some(ErrorChain::new("boom"));
    let cancelled = evaluation_end(true, failed(), EvalGraph::new(), vec![]).unwrap();
    assert_eq!(cancelled.outcome, RunOutcome::Cancelled);
    let error = evaluation_end(false, failed(), EvalGraph::new(), vec![]).unwrap_err();
    assert_eq!(error.message(), "boom");
    let completed = evaluation_end(false, None, EvalGraph::new(), vec![]).unwrap();
    assert_eq!(completed.outcome, RunOutcome::Completed);
}
