//! The queue of attribute paths that a pool of workers shares.

use std::collections::VecDeque;

use vstd::prelude::*;

use crate::config::{Config, ConfigView};
use crate::error::ErrorChain;
use crate::model::{
    remotes_view, DerivationView, EvalError, EvalErrorView, Event, EventView, Remote, RemoteView,
};
use crate::ordered_map::copy_texts;
use crate::text::{
    concat2, concat3, decimal, decimal_of, has_prefix, join, joined, same, text_opt, texts,
};

verus! {

/// An attribute path that is to be evaluated.
#[derive(Debug)]
pub struct WorkItem {
    /// The attribute path.
    pub path: Vec<String>,
}

/// The paths of a queue.
pub open spec fn items_view(items: Seq<WorkItem>) -> Seq<Seq<Seq<char>>> {
    items.map_values(|w: WorkItem| texts(w.path@))
}

/// How a worker is run.
#[derive(Debug)]
pub enum WorkerKind {
    /// As a subprocess, of a dedicated executable if there is one.
    Local { worker_exe: Option<String> },
    /// At a remote endpoint.
    Remote(Remote),
}

/// A worker of a pool.
#[derive(Debug)]
pub struct WorkerSpec {
    /// Its number in the pool.
    pub id: usize,
    /// What messages call it.
    pub label: String,
    /// How it is run.
    pub kind: WorkerKind,
}

impl WorkerSpec {
    /// Whether the worker accepts derivations for `system`: a local one accepts all, a remote
    /// one those that its endpoint names, or all when it names none.
    pub open spec fn accepts_system(self, system: Seq<char>) -> bool {
        match self.kind {
            WorkerKind::Local { .. } => true,
            WorkerKind::Remote(remote) => remote.systems@.len() == 0 || texts(
                remote.systems@,
            ).contains(system),
        }
    }

    /// Whether the worker accepts derivations for `system`.
    pub fn accepts(&self, system: &str) -> (r: bool)
        ensures
            r == self.accepts_system(system@),
    {
        match &self.kind {
            WorkerKind::Local { worker_exe: _ } => true,
            WorkerKind::Remote(remote) => {
                let systems = &remote.systems;
                if systems.len() == 0 {
                    return true;
                }
                let mut i: usize = 0;
                while i < systems.len()
                    invariant
                        i <= systems.len(),
                        self.kind == WorkerKind::Remote(*remote),
                        *systems == remote.systems,
                        forall|j: int| 0 <= j < i ==> systems@[j]@ != system@,
                    decreases systems.len() - i,
                {
                    if same(systems[i].as_str(), system) {
                        proof {
                            assert(texts(systems@)[i as int] == system@);
                        }
                        return true;
                    }
                    i += 1;
                }
                proof {
                    assert forall|j: int| 0 <= j < texts(systems@).len() implies texts(systems@)[j]
                        != system@ by {}
                }
                false
            },
        }
    }
}

/// Whether a worker of the pool accepts derivations for `system`.
pub open spec fn pool_accepts(workers: Seq<WorkerSpec>, system: Seq<char>) -> bool {
    exists|i: int| 0 <= i < workers.len() && #[trigger] workers[i].accepts_system(system)
}

fn any_accepts(workers: &[WorkerSpec], system: &str) -> (r: bool)
    ensures
        r == pool_accepts(workers@, system@),
{
    let mut i: usize = 0;
    while i < workers.len()
        invariant
            i <= workers.len(),
            forall|j: int| 0 <= j < i ==> !(#[trigger] workers@[j].accepts_system(system@)),
        decreases workers.len() - i,
    {
        if workers[i].accepts(system) {
            return true;
        }
        i += 1;
    }
    false
}

/// What a [`WorkerKind`] says.
pub enum KindView {
    /// See [`WorkerKind::Local`].
    Local(Option<Seq<char>>),
    /// See [`WorkerKind::Remote`].
    Remote(RemoteView),
}

/// What a [`WorkerSpec`] says.
#[verifier::ext_equal]
pub struct SpecView {
    /// See [`WorkerSpec::id`].
    pub id: int,
    /// See [`WorkerSpec::label`].
    pub label: Seq<char>,
    /// See [`WorkerSpec::kind`].
    pub kind: KindView,
}

impl View for WorkerSpec {
    type V = SpecView;

    open spec fn view(&self) -> SpecView {
        SpecView {
            id: self.id as int,
            label: self.label@,
            kind: match self.kind {
                WorkerKind::Local { worker_exe } => KindView::Local(text_opt(worker_exe)),
                WorkerKind::Remote(remote) => KindView::Remote(remote@),
            },
        }
    }
}

/// The workers of a pool.
pub open spec fn specs_view(specs: Seq<WorkerSpec>) -> Seq<SpecView> {
    specs.map_values(|w: WorkerSpec| w@)
}

/// A local worker, by its number.
pub open spec fn local_spec(exe: Option<Seq<char>>, i: int) -> SpecView {
    SpecView { id: i, label: "local#"@ + decimal_of(i as nat), kind: KindView::Local(exe) }
}

/// A worker of a remote endpoint, by its number there; `start` workers come before the first.
pub open spec fn remote_spec(remote: RemoteView, start: int, i: int) -> SpecView {
    SpecView {
        id: start + i,
        label: remote.endpoint + "#"@ + decimal_of(i as nat),
        kind: KindView::Remote(remote),
    }
}

/// The workers of remote endpoints, as many of each as it has; `start` workers come before
/// them.
pub open spec fn remote_pool(remotes: Seq<RemoteView>, start: int) -> Seq<SpecView>
    decreases remotes.len(),
{
    if remotes.len() == 0 {
        Seq::empty()
    } else {
        let remote = remotes[0];
        Seq::new(remote.workers as nat, |i: int| remote_spec(remote, start, i)) + remote_pool(
            remotes.skip(1),
            start + remote.workers,
        )
    }
}

/// The pool of a configuration: its local workers, and then those of each remote endpoint.
pub open spec fn pool_of(config: ConfigView) -> Seq<SpecView> {
    Seq::new(config.wire.workers as nat, |i: int| local_spec(config.worker_exe, i)) + remote_pool(
        config.wire.remotes,
        config.wire.workers as int,
    )
}

fn push_remote(pool: &mut Vec<WorkerSpec>, remote: &Remote)
    ensures
        specs_view(final(pool)@) == specs_view(old(pool)@) + Seq::new(
            remote.workers as nat,
            |i: int| remote_spec(remote@, old(pool)@.len() as int, i),
        ),
{
    let ghost start = specs_view(pool@);
    let ghost all = Seq::new(
        remote.workers as nat,
        |i: int| remote_spec(remote@, old(pool)@.len() as int, i),
    );
    let mut i: usize = 0;
    proof {
        assert(start + all.take(0) =~= start);
    }
    while i < remote.workers
        invariant
            i <= remote.workers,
            start.len() == old(pool)@.len(),
            all == Seq::new(
                remote.workers as nat,
                |i: int| remote_spec(remote@, old(pool)@.len() as int, i),
            ),
            specs_view(pool@) == start + all.take(i as int),
            pool@.len() == start.len() + i,
        decreases remote.workers - i,
    {
        let ghost before = specs_view(pool@);
        let spec = WorkerSpec {
            id: pool.len(),
            label: concat3(remote.endpoint.as_str(), "#", decimal(i as u64).as_str()),
            kind: WorkerKind::Remote(remote.clone()),
        };
        proof {
            assert(spec@ == all[i as int]);
        }
        pool.push(spec);
        proof {
            assert(specs_view(pool@) =~= before.push(spec@));
            assert(start + all.take(i + 1) =~= (start + all.take(i as int)).push(all[i as int]));
        }
        i += 1;
    }
    proof {
        assert(all.take(i as int) =~= all);
    }
}

/// The pool of a configuration.
pub fn pool_specs(config: &Config) -> (r: Vec<WorkerSpec>)
    ensures
        specs_view(r@) == pool_of(config@),
{
    let mut pool: Vec<WorkerSpec> = Vec::new();
    let ghost locals = Seq::new(
        config.workers as nat,
        |i: int| local_spec(text_opt(config.worker_exe), i),
    );
    let mut i: usize = 0;
    proof {
        assert(specs_view(pool@) =~= locals.take(0));
    }
    while i < config.workers
        invariant
            i <= config.workers,
            locals == Seq::new(
                config.workers as nat,
                |i: int| local_spec(text_opt(config.worker_exe), i),
            ),
            specs_view(pool@) == locals.take(i as int),
            pool@.len() == i,
        decreases config.workers - i,
    {
        let ghost before = specs_view(pool@);
        let spec = WorkerSpec {
            id: i,
            label: concat2("local#", decimal(i as u64).as_str()),
            kind: WorkerKind::Local { worker_exe: config.worker_exe.clone() },
        };
        proof {
            assert(spec@ == locals[i as int]);
        }
        pool.push(spec);
        proof {
            assert(specs_view(pool@) =~= before.push(spec@));
            assert(locals.take(i + 1) =~= locals.take(i as int).push(locals[i as int]));
        }
        i += 1;
    }
    let ghost all = remotes_view(config.remotes@);
    let mut j: usize = 0;
    proof {
        assert(locals.take(i as int) =~= locals);
        assert(all.skip(0) =~= all);
        assert(specs_view(pool@) + remote_pool(all.skip(0), pool@.len() as int) =~= pool_of(config@));
    }
    while j < config.remotes.len()
        invariant
            j <= config.remotes.len(),
            all == remotes_view(config.remotes@),
            specs_view(pool@) + remote_pool(all.skip(j as int), pool@.len() as int) == pool_of(
                config@,
            ),
        decreases config.remotes.len() - j,
    {
        let ghost before = specs_view(pool@);
        let ghost start = pool@.len() as int;
        push_remote(&mut pool, &config.remotes[j]);
        proof {
            let rest = all.skip(j as int);
            let remote = config.remotes@[j as int]@;
            assert(rest[0] == remote);
            assert(rest.skip(1) =~= all.skip(j + 1));
            assert(pool@.len() == specs_view(pool@).len());
            assert(pool@.len() == start + remote.workers);
            let own = Seq::new(remote.workers as nat, |i: int| remote_spec(remote, start, i));
            assert(specs_view(pool@) + remote_pool(all.skip(j + 1), pool@.len() as int) =~= before
                + (own + remote_pool(all.skip(j + 1), start + remote.workers)));
        }
        j += 1;
    }
    proof {
        assert(all.skip(j as int).len() == 0);
        assert(specs_view(pool@) + remote_pool(all.skip(j as int), pool@.len() as int)
            =~= specs_view(pool@));
    }
    pool
}

proof fn lemma_remote_ids(remotes: Seq<RemoteView>, start: int)
    ensures
        forall|i: int|
            0 <= i < remote_pool(remotes, start).len() ==> (#[trigger] remote_pool(
                remotes,
                start,
            )[i]).id == start + i,
    decreases remotes.len(),
{
    if remotes.len() > 0 {
        lemma_remote_ids(remotes.skip(1), start + remotes[0].workers);
        let rest = remote_pool(remotes.skip(1), start + remotes[0].workers);
        let n = remotes[0].workers as int;
        assert forall|i: int| 0 <= i < remote_pool(remotes, start).len() implies (
        #[trigger] remote_pool(remotes, start)[i]).id == start + i by {
            if i >= n {
                assert(remote_pool(remotes, start)[i] == rest[i - n]);
            }
        }
    }
}

/// The workers of a pool are numbered in order, so that no two share a number.
pub proof fn law_pool_is_numbered(config: ConfigView)
    ensures
        forall|i: int|
            0 <= i < pool_of(config).len() ==> (#[trigger] pool_of(config)[i]).id == i,
{
    let n = config.wire.workers as int;
    let rest = remote_pool(config.wire.remotes, n);
    lemma_remote_ids(config.wire.remotes, n);
    assert forall|i: int| 0 <= i < pool_of(config).len() implies (#[trigger] pool_of(config)[i]).id
        == i by {
        if i >= n {
            assert(pool_of(config)[i] == rest[i - n]);
        }
    }
}

/// What a worker that asks for work is to do.
#[derive(Debug)]
pub enum NextWork {
    /// Evaluate this path.
    Dispatch(WorkItem),
    /// Ask again when another worker has finished an item.
    Wait,
    /// Stop: everything is evaluated.
    Done,
    /// Stop: the evaluation has failed.
    Fatal(String),
}

/// What a [`NextWork`] says.
pub enum NextView {
    /// See [`NextWork::Dispatch`].
    Dispatch(Seq<Seq<char>>),
    /// See [`NextWork::Wait`].
    Wait,
    /// See [`NextWork::Done`].
    Done,
    /// See [`NextWork::Fatal`].
    Fatal(Seq<char>),
}

impl View for NextWork {
    type V = NextView;

    open spec fn view(&self) -> NextView {
        match *self {
            NextWork::Dispatch(item) => NextView::Dispatch(texts(item.path@)),
            NextWork::Wait => NextView::Wait,
            NextWork::Done => NextView::Done,
            NextWork::Fatal(message) => NextView::Fatal(message@),
        }
    }
}

/// What is to become of a finished item.
#[derive(Debug)]
pub struct Completed {
    /// Whether its event is to be emitted.
    pub emit: bool,
    /// Why the evaluation fails with it.
    pub fatal_error: Option<String>,
}

/// What a [`Completed`] says.
#[verifier::ext_equal]
pub struct CompletedView {
    /// See [`Completed::emit`].
    pub emit: bool,
    /// See [`Completed::fatal_error`].
    pub fatal_error: Option<Seq<char>>,
}

impl View for Completed {
    type V = CompletedView;

    open spec fn view(&self) -> CompletedView {
        CompletedView { emit: self.emit, fatal_error: text_opt(self.fatal_error) }
    }
}

/// The work that is left, and how much of it is with workers.
#[derive(Debug)]
pub struct Scheduler {
    /// The paths that no worker has yet.
    pub todo: VecDeque<WorkItem>,
    /// How many paths are with workers.
    pub active: usize,
    /// Why the evaluation has failed.
    pub error: Option<String>,
}

/// What a [`Scheduler`] holds.
#[verifier::ext_equal]
pub struct SchedulerView {
    /// See [`Scheduler::todo`].
    pub todo: Seq<Seq<Seq<char>>>,
    /// See [`Scheduler::active`].
    pub active: int,
    /// See [`Scheduler::error`].
    pub error: Option<Seq<char>>,
}

impl View for Scheduler {
    type V = SchedulerView;

    open spec fn view(&self) -> SchedulerView {
        SchedulerView {
            todo: items_view(self.todo@),
            active: self.active as int,
            error: text_opt(self.error),
        }
    }
}

/// The paths of the children of `path`.
pub open spec fn children(path: Seq<Seq<char>>, names: Seq<Seq<char>>) -> Seq<Seq<Seq<char>>> {
    names.map_values(|n: Seq<char>| path.push(n))
}

/// The message of a derivation that no worker of the pool accepts.
pub open spec fn unowned_text(attr: Seq<char>, system: Seq<char>) -> Seq<char> {
    "no worker accepted derivation "@ + attr + " for system "@ + system
}

impl SchedulerView {
    /// The queue of a new evaluation: the root alone.
    pub open spec fn start() -> SchedulerView {
        SchedulerView { todo: seq![Seq::empty()], active: 0, error: None }
    }

    /// What a worker that asks for work is told.
    pub open spec fn next(self) -> NextView {
        match self.error {
            Some(message) => NextView::Fatal(message),
            None => if self.todo.len() > 0 {
                NextView::Dispatch(self.todo[0])
            } else if self.active == 0 {
                NextView::Done
            } else {
                NextView::Wait
            },
        }
    }

    /// The queue once a worker has been told: a dispatched path is with it.
    pub open spec fn after_next(self) -> SchedulerView {
        match self.next() {
            NextView::Dispatch(_) => SchedulerView {
                todo: self.todo.skip(1),
                active: self.active + 1,
                error: self.error,
            },
            _ => self,
        }
    }

    /// Why the evaluation fails with `event`: a fatal error, or a derivation that nobody builds.
    pub open spec fn fatal_of(workers: Seq<WorkerSpec>, event: EventView) -> Option<Seq<char>> {
        match event {
            EventView::Derivation(d) => if pool_accepts(workers, d.system) {
                None
            } else {
                Some(unowned_text(d.attr, d.system))
            },
            EventView::AttrSet { .. } => None,
            EventView::Error(e) => if e.fatal {
                Some(e.error)
            } else {
                None
            },
        }
    }

    /// What is to become of a finished item: everything is emitted but a derivation that
    /// nobody builds.
    pub open spec fn completed_of(workers: Seq<WorkerSpec>, event: EventView) -> CompletedView {
        CompletedView {
            emit: !(event is Derivation) || Self::fatal_of(workers, event) is None,
            fatal_error: Self::fatal_of(workers, event),
        }
    }

    /// The queue once `path` has come back with `event`: the children of an attribute set
    /// are to be evaluated.
    pub open spec fn after_complete(
        self,
        workers: Seq<WorkerSpec>,
        path: Seq<Seq<char>>,
        event: EventView,
    ) -> SchedulerView {
        SchedulerView {
            todo: match event {
                EventView::AttrSet { attrs, .. } => self.todo + children(path, attrs),
                _ => self.todo,
            },
            active: self.active - 1,
            error: match Self::fatal_of(workers, event) {
                Some(message) => Some(message),
                None => self.error,
            },
        }
    }
}

impl Scheduler {
    /// The queue of a new evaluation.
    pub fn new() -> (r: Self)
        ensures
            r@ == SchedulerView::start(),
    {
        let mut todo: VecDeque<WorkItem> = VecDeque::new();
        todo.push_back(WorkItem { path: Vec::new() });
        let r = Scheduler { todo, active: 0, error: None };
        proof {
            assert(r@.todo[0] =~= Seq::<Seq<char>>::empty());
            assert(r@.todo =~= seq![Seq::empty()]);
        }
        r
    }

    /// Tells a worker what to do next. Every worker is told the same: which derivations it
    /// accepts plays no role in which paths it evaluates.
    pub fn next_for(&mut self, worker: usize) -> (r: NextWork)
        requires
            old(self).active < usize::MAX,
        ensures
            r@ == old(self)@.next(),
            final(self)@ == old(self)@.after_next(),
    {
        if let Some(message) = &self.error {
            return NextWork::Fatal(message.clone());
        }
        match self.todo.pop_front() {
            Some(item) => {
                self.active = self.active + 1;
                proof {
                    assert(self@.todo =~= old(self)@.todo.skip(1));
                }
                NextWork::Dispatch(item)
            },
            None => {
                if self.active == 0 {
                    NextWork::Done
                } else {
                    NextWork::Wait
                }
            },
        }
    }

    /// Takes in the event that a worker returned for an item.
    pub fn complete(
        &mut self,
        worker: &WorkerSpec,
        workers: &[WorkerSpec],
        item: WorkItem,
        event: &Event,
    ) -> (r: Completed)
        requires
            old(self).active > 0,
        ensures
            r@ == SchedulerView::completed_of(workers@, event@),
            final(self)@ == old(self)@.after_complete(workers@, texts(item.path@), event@),
    {
        self.active = self.active - 1;
        match event {
            Event::Derivation(drv) => {
                if any_accepts(workers, drv.system.as_str()) {
                    Completed { emit: true, fatal_error: None }
                } else {
                    let mut message = concat3(
                        "no worker accepted derivation ",
                        drv.attr.as_str(),
                        " for system ",
                    );
                    message.append(drv.system.as_str());
                    self.error = Some(message.clone());
                    Completed { emit: false, fatal_error: Some(message) }
                }
            },
            Event::AttrSet { attr: _, attr_path: _, attrs } => {
                let mut i: usize = 0;
                let ghost start = old(self)@.todo;
                let ghost all = children(texts(item.path@), texts(attrs@));
                proof {
                    assert(self@.todo =~= start + all.take(0));
                }
                while i < attrs.len()
                    invariant
                        i <= attrs.len(),
                        all == children(texts(item.path@), texts(attrs@)),
                        self@.todo == start + all.take(i as int),
                        self.active == old(self).active - 1,
                        self.error == old(self).error,
                    decreases attrs.len() - i,
                {
                    let ghost before = self@.todo;
                    let mut path = copy_texts(&item.path);
                    path.push(attrs[i].clone());
                    proof {
                        assert(texts(path@) =~= texts(item.path@).push(attrs@[i as int]@));
                        assert(texts(path@) == all[i as int]);
                    }
                    self.todo.push_back(WorkItem { path });
                    proof {
                        assert(self@.todo =~= before.push(all[i as int]));
                        assert(start + all.take(i + 1) =~= (start + all.take(i as int)).push(
                            all[i as int],
                        ));
                    }
                    i += 1;
                }
                proof {
                    assert(all.take(i as int) =~= all);
                }
                Completed { emit: true, fatal_error: None }
            },
            Event::Error(e) => {
                if e.fatal {
                    self.error = Some(e.error.clone());
                    Completed { emit: true, fatal_error: Some(e.error.clone()) }
                } else {
                    Completed { emit: true, fatal_error: None }
                }
            },
        }
    }
}

/// The dotted form of an attribute path.
pub open spec fn attr_of(path: Seq<Seq<char>>) -> Seq<char> {
    joined(path, "."@)
}

/// The dotted form of an attribute path.
pub fn display_attr(path: &[String]) -> (r: String)
    ensures
        r@ == attr_of(texts(path@)),
{
    join(path, ".")
}

/// The event of an item whose worker failed.
pub open spec fn failure_event(
    label: Seq<char>,
    path: Seq<Seq<char>>,
    message: Seq<char>,
) -> EventView {
    EventView::Error(
        EvalErrorView {
            attr: attr_of(path),
            attr_path: path,
            error: "worker "@ + label + " failed: "@ + message,
            fatal: false,
        },
    )
}

/// The event of an item whose worker failed: an error of that attribute, which does not end
/// the evaluation.
pub fn worker_failure_event(worker: &WorkerSpec, item: &WorkItem, err: ErrorChain) -> (r: Event)
    ensures
        r@ == failure_event(worker.label@, texts(item.path@), err@[0]),
{
    let mut error = concat3("worker ", worker.label.as_str(), " failed: ");
    error.append(err.message().as_str());
    Event::Error(
        EvalError {
            attr: display_attr(item.path.as_slice()),
            attr_path: copy_texts(&item.path),
            error,
            fatal: false,
        },
    )
}

/// What is found at an attribute path.
pub enum Node {
    /// An attribute set with these names.
    Names(Seq<Seq<char>>),
    /// A derivation for this system.
    Drv(Seq<char>),
    /// An error that is not fatal.
    Fails,
}

/// Whether `path` is found by going down from the root along names of attribute sets.
pub open spec fn reachable(tree: Map<Seq<Seq<char>>, Node>, path: Seq<Seq<char>>) -> bool
    decreases path.len(),
{
    path.len() == 0 || {
        let parent = path.drop_last();
        &&& reachable(tree, parent)
        &&& tree[parent] matches Node::Names(names)
        &&& names.contains(path.last())
    }
}

/// Whether no attribute set that can be reached has a name twice.
pub open spec fn names_distinct(tree: Map<Seq<Seq<char>>, Node>) -> bool {
    forall|path: Seq<Seq<char>>| #[trigger]
        reachable(tree, path) ==> (tree[path] matches Node::Names(names)
            ==> names.no_duplicates())
}

/// Whether `event` is what a worker returns for `path`.
pub open spec fn produces(
    tree: Map<Seq<Seq<char>>, Node>,
    path: Seq<Seq<char>>,
    event: EventView,
) -> bool {
    match tree[path] {
        Node::Names(names) => event matches EventView::AttrSet { attrs, .. } && attrs == names,
        Node::Drv(system) => event matches EventView::Derivation(d) && d.system == system,
        Node::Fails => event matches EventView::Error(e) && !e.fatal,
    }
}

/// A moment of an evaluation.
#[verifier::ext_equal]
pub struct Moment {
    /// The queue.
    pub queue: SchedulerView,
    /// The paths that are with workers.
    pub out: Set<Seq<Seq<char>>>,
    /// The paths that came back.
    pub back: Set<Seq<Seq<char>>>,
    /// The paths of the derivations that were emitted, in order.
    pub emitted: Seq<Seq<Seq<char>>>,
}

impl Moment {
    /// The beginning of an evaluation.
    pub open spec fn start() -> Moment {
        Moment {
            queue: SchedulerView::start(),
            out: Set::empty(),
            back: Set::empty(),
            emitted: Seq::empty(),
        }
    }

    /// Whether `after` follows when some worker asks for work and gets it.
    pub open spec fn dispatches(self, after: Moment) -> bool {
        &&& self.queue.next() matches NextView::Dispatch(path)
        &&& after.queue == self.queue.after_next()
        &&& after.out == self.out.insert(path)
        &&& after.back == self.back
        &&& after.emitted == self.emitted
    }

    /// Whether `after` follows when some worker returns `path` with `event`.
    pub open spec fn hands_back(
        self,
        workers: Seq<WorkerSpec>,
        path: Seq<Seq<char>>,
        event: EventView,
        after: Moment,
    ) -> bool {
        &&& self.out.contains(path)
        &&& after.queue == self.queue.after_complete(workers, path, event)
        &&& after.out == self.out.remove(path)
        &&& after.back == self.back.insert(path)
        &&& after.emitted == if event is Derivation && SchedulerView::completed_of(
            workers,
            event,
        ).emit {
            self.emitted.push(path)
        } else {
            self.emitted
        }
    }

    /// Whether `after` follows by one step of any worker of the pool.
    pub open spec fn steps(
        self,
        tree: Map<Seq<Seq<char>>, Node>,
        workers: Seq<WorkerSpec>,
        after: Moment,
    ) -> bool {
        ||| self.dispatches(after)
        ||| exists|path: Seq<Seq<char>>, event: EventView|
            produces(tree, path, event) && #[trigger] self.hands_back(workers, path, event, after)
    }

    /// Whether a path has been found.
    pub open spec fn found(self, path: Seq<Seq<char>>) -> bool {
        self.queue.todo.contains(path) || self.out.contains(path) || self.back.contains(path)
    }

    /// What holds at every moment: each path found is in exactly one place, once; it is
    /// reachable, and its parent is back; the children of what is back are found; what is
    /// emitted are the derivations that are back.
    pub open spec fn sound(
        self,
        tree: Map<Seq<Seq<char>>, Node>,
        workers: Seq<WorkerSpec>,
    ) -> bool {
        &&& self.queue.todo.no_duplicates()
        &&& self.emitted.no_duplicates()
        &&& self.out.finite() && self.back.finite()
        &&& self.queue.active == self.out.len()
        &&& self.out.disjoint(self.back)
        &&& forall|p: Seq<Seq<char>>| #[trigger]
            self.queue.todo.contains(p) ==> !self.out.contains(p) && !self.back.contains(p)
        &&& self.found(Seq::empty())
        &&& forall|p: Seq<Seq<char>>| #[trigger] self.found(p) ==> reachable(tree, p)
        &&& forall|p: Seq<Seq<char>>| #[trigger]
            self.found(p) && p.len() > 0 ==> self.back.contains(p.drop_last())
        &&& forall|p: Seq<Seq<char>>, n: Seq<char>|
            self.back.contains(p) && (tree[p] matches Node::Names(names) && names.contains(n))
                ==> #[trigger] self.found(p.push(n))
        &&& forall|p: Seq<Seq<char>>| #[trigger]
            self.emitted.contains(p) <==> self.back.contains(p) && (tree[p] matches Node::Drv(s)
                && pool_accepts(workers, s))
        &&& self.queue.error is None ==> forall|p: Seq<Seq<char>>| #[trigger]
            self.back.contains(p) ==> (tree[p] matches Node::Drv(s) ==> pool_accepts(workers, s))
    }
}

/// Whether `moments` are the course of an evaluation, from its beginning, in whatever order
/// the workers ask and return.
pub open spec fn course(
    tree: Map<Seq<Seq<char>>, Node>,
    workers: Seq<WorkerSpec>,
    moments: Seq<Moment>,
) -> bool {
    &&& moments.len() > 0
    &&& moments[0] == Moment::start()
    &&& forall|i: int|
        0 < i < moments.len() ==> moments[i - 1].steps(tree, workers, #[trigger] moments[i])
}

proof fn lemma_start_sound(tree: Map<Seq<Seq<char>>, Node>, workers: Seq<WorkerSpec>)
    ensures
        Moment::start().sound(tree, workers),
{
    let m = Moment::start();
    let root: Seq<Seq<char>> = Seq::empty();
    assert(m.queue.todo[0] == root);
    assert(m.queue.todo.contains(root));
    assert forall|p: Seq<Seq<char>>| #[trigger] m.found(p) implies reachable(tree, p) && p.len()
        == 0 by {
        let i = m.queue.todo.index_of(p);
        assert(m.queue.todo[i] == root);
    }
}

proof fn lemma_dispatch_sound(
    tree: Map<Seq<Seq<char>>, Node>,
    workers: Seq<WorkerSpec>,
    m: Moment,
    after: Moment,
)
    requires
        m.sound(tree, workers),
        m.dispatches(after),
    ensures
        after.sound(tree, workers),
{
    let path = m.queue.todo[0];
    assert(m.queue.todo.contains(path));
    assert forall|p: Seq<Seq<char>>| #[trigger] after.queue.todo.contains(p) implies p != path
        && m.queue.todo.contains(p) by {
        let i = after.queue.todo.index_of(p);
        assert(m.queue.todo[i + 1] == p);
    }
    assert forall|p: Seq<Seq<char>>| #[trigger] after.found(p) <==> m.found(p) by {
        if m.queue.todo.contains(p) && p != path {
            let i = m.queue.todo.index_of(p);
            assert(after.queue.todo[i - 1] == p);
        }
    }
    assert(after.queue.todo.no_duplicates()) by {
        assert forall|i: int, j: int|
            0 <= i < after.queue.todo.len() && 0 <= j < after.queue.todo.len() && i != j implies after.queue.todo[i]
            != after.queue.todo[j] by {
            assert(after.queue.todo[i] == m.queue.todo[i + 1]);
            assert(after.queue.todo[j] == m.queue.todo[j + 1]);
        }
    }
    assert(after.found(Seq::empty()) == m.found(Seq::empty()));
}

proof fn lemma_return_sound(
    tree: Map<Seq<Seq<char>>, Node>,
    workers: Seq<WorkerSpec>,
    m: Moment,
    path: Seq<Seq<char>>,
    event: EventView,
    after: Moment,
)
    requires
        m.sound(tree, workers),
        names_distinct(tree),
        produces(tree, path, event),
        m.hands_back(workers, path, event, after),
    ensures
        after.sound(tree, workers),
{
    assert(m.found(path));
    let added = match event {
        EventView::AttrSet { attrs, .. } => children(path, attrs),
        _ => Seq::empty(),
    };
    assert(after.queue.todo =~= m.queue.todo + added);
    assert forall|p: Seq<Seq<char>>| #[trigger] added.contains(p) implies {
        &&& p.len() > 0
        &&& p.drop_last() == path
        &&& tree[path] matches Node::Names(names) && names.contains(p.last())
        &&& !m.found(p)
        &&& reachable(tree, p)
    } by {
        let i = added.index_of(p);
        let names = tree[path]->Names_0;
        assert(p == path.push(names[i]));
        assert(p.drop_last() =~= path);
        assert(p.last() == names[i]);
        assert(names.contains(names[i]));
        assert(!m.back.contains(path));
    }
    assert forall|p: Seq<Seq<char>>| #[trigger]
        after.queue.todo.contains(p) <==> m.queue.todo.contains(p) || added.contains(p) by {
        if m.queue.todo.contains(p) {
            let i = m.queue.todo.index_of(p);
            assert(after.queue.todo[i] == p);
        }
        if added.contains(p) {
            let i = added.index_of(p);
            assert(after.queue.todo[m.queue.todo.len() + i] == p);
        }
        if after.queue.todo.contains(p) {
            let i = after.queue.todo.index_of(p);
            if i < m.queue.todo.len() {
                assert(m.queue.todo[i] == p);
            } else {
                assert(added[i - m.queue.todo.len()] == p);
            }
        }
    }
    assert forall|p: Seq<Seq<char>>| #[trigger] after.found(p) <==> m.found(p) || added.contains(
        p,
    ) by {}
    assert(added.no_duplicates()) by {
        if event is AttrSet {
            let names = tree[path]->Names_0;
            assert(names.no_duplicates());
            assert forall|i: int, j: int|
                0 <= i < added.len() && 0 <= j < added.len() && i != j implies added[i]
                != added[j] by {
                assert(added[i].last() == names[i]);
                assert(added[j].last() == names[j]);
            }
        }
    }
    assert(after.queue.todo.no_duplicates()) by {
        let n = m.queue.todo.len() as int;
        assert forall|i: int, j: int|
            0 <= i < after.queue.todo.len() && 0 <= j < after.queue.todo.len() && i < j implies after.queue.todo[i]
            != after.queue.todo[j] by {
            if j < n {
                assert(after.queue.todo[i] == m.queue.todo[i]);
            } else if i < n {
                assert(added.contains(added[j - n]));
                assert(m.queue.todo.contains(m.queue.todo[i]));
                assert(m.found(m.queue.todo[i]));
            } else {
                assert(after.queue.todo[i] == added[i - n]);
                assert(after.queue.todo[j] == added[j - n]);
            }
        }
    }
    assert forall|p: Seq<Seq<char>>, n: Seq<char>|
        after.back.contains(p) && (tree[p] matches Node::Names(names) && names.contains(
            n,
        )) implies #[trigger] after.found(p.push(n)) by {
        if p == path {
            let names = tree[path]->Names_0;
            let i = names.index_of(n);
            assert(added[i] == p.push(n));
            assert(added.contains(p.push(n)));
        } else {
            assert(m.found(p.push(n)));
        }
    }
    assert forall|p: Seq<Seq<char>>| #[trigger] after.queue.todo.contains(p) implies !after.out.contains(
        p,
    ) && !after.back.contains(p) by {
        if added.contains(p) {
            assert(!m.found(p));
            assert(m.found(path));
        } else {
            assert(m.queue.todo.contains(p));
        }
    }
    assert forall|p: Seq<Seq<char>>| #[trigger]
        after.emitted.contains(p) <==> after.back.contains(p) && (tree[p] matches Node::Drv(s)
            && pool_accepts(workers, s)) by {
        if after.emitted.len() > m.emitted.len() {
            assert(after.emitted[m.emitted.len() as int] == path);
            if m.emitted.contains(p) {
                let i = m.emitted.index_of(p);
                assert(after.emitted[i] == p);
            }
            if after.emitted.contains(p) && p != path {
                let i = after.emitted.index_of(p);
                assert(m.emitted[i] == p);
            }
        }
    }
    assert(after.emitted.no_duplicates()) by {
        if after.emitted.len() > m.emitted.len() {
            assert(!m.emitted.contains(path));
            assert forall|i: int, j: int|
                0 <= i < j < after.emitted.len() implies after.emitted[i] != after.emitted[j] by {
                if j == m.emitted.len() {
                    assert(m.emitted.contains(m.emitted[i]));
                }
            }
        }
    }
    assert(after.found(Seq::empty())) by {
        assert(m.found(Seq::empty()));
    }
}

proof fn lemma_course_sound(
    tree: Map<Seq<Seq<char>>, Node>,
    workers: Seq<WorkerSpec>,
    moments: Seq<Moment>,
    i: int,
)
    requires
        names_distinct(tree),
        course(tree, workers, moments),
        0 <= i < moments.len(),
    ensures
        moments[i].sound(tree, workers),
        i == 2 * moments[i].back.len() + moments[i].out.len(),
    decreases i,
{
    if i == 0 {
        lemma_start_sound(tree, workers);
    } else {
        lemma_course_sound(tree, workers, moments, i - 1);
        let m = moments[i - 1];
        let after = moments[i];
        assert(m.steps(tree, workers, after));
        if m.dispatches(after) {
            lemma_dispatch_sound(tree, workers, m, after);
            assert(m.queue.todo.contains(m.queue.todo[0]));
        } else {
            let (path, event) = choose|path: Seq<Seq<char>>, event: EventView|
                produces(tree, path, event) && #[trigger] m.hands_back(workers, path, event, after);
            lemma_return_sound(tree, workers, m, path, event, after);
        }
    }
}

proof fn lemma_all_back(
    tree: Map<Seq<Seq<char>>, Node>,
    workers: Seq<WorkerSpec>,
    m: Moment,
    path: Seq<Seq<char>>,
)
    requires
        m.sound(tree, workers),
        m.queue.next() is Done,
        reachable(tree, path),
    ensures
        m.back.contains(path),
    decreases path.len(),
{
    assert(m.out =~= Set::empty()) by {
        assert forall|p: Seq<Seq<char>>| !m.out.contains(p) by {
            if m.out.contains(p) {
                assert(m.out.remove(p).len() + 1 == m.out.len());
            }
        }
    }
    if path.len() == 0 {
        assert(path =~= Seq::<Seq<char>>::empty());
        assert(m.found(path));
    } else {
        let parent = path.drop_last();
        lemma_all_back(tree, workers, m, parent);
        assert(parent.push(path.last()) =~= path);
        assert(m.found(parent.push(path.last())));
    }
}

/// Whatever the pool and in whatever order its workers ask and return: when the evaluation is
/// done, every derivation of the tree has been emitted, exactly once, and nothing else has.
pub proof fn law_topology_invariance(
    tree: Map<Seq<Seq<char>>, Node>,
    workers: Seq<WorkerSpec>,
    moments: Seq<Moment>,
)
    requires
        names_distinct(tree),
        course(tree, workers, moments),
        moments.last().queue.next() is Done,
    ensures
        moments.last().emitted.no_duplicates(),
        forall|p: Seq<Seq<char>>| #[trigger]
            moments.last().emitted.contains(p) <==> reachable(tree, p) && tree[p] is Drv,
{
    let m = moments.last();
    lemma_course_sound(tree, workers, moments, moments.len() - 1);
    assert forall|p: Seq<Seq<char>>| #[trigger]
        m.emitted.contains(p) <==> reachable(tree, p) && tree[p] is Drv by {
        if reachable(tree, p) && tree[p] is Drv {
            lemma_all_back(tree, workers, m, p);
        }
        if m.emitted.contains(p) {
            assert(m.found(p));
        }
    }
}

proof fn lemma_course_before(
    tree: Map<Seq<Seq<char>>, Node>,
    workers: Seq<WorkerSpec>,
    moments: Seq<Moment>,
)
    requires
        course(tree, workers, moments),
        moments.len() > 1,
    ensures
        course(tree, workers, moments.drop_last()),
        moments.drop_last().last() == moments[moments.len() - 2],
        moments.drop_last().last().steps(tree, workers, moments.last()),
{
    let init = moments.drop_last();
    assert forall|i: int| 0 < i < init.len() implies init[i - 1].steps(
        tree,
        workers,
        #[trigger] init[i],
    ) by {
        assert(init[i] == moments[i]);
        assert(init[i - 1] == moments[i - 1]);
    }
    assert(moments[moments.len() - 2].steps(tree, workers, moments[moments.len() - 1]));
}

/// Whether `message` says of the derivation `d`, which was found at `path`, that no worker of
/// the pool accepts it.
pub open spec fn blames(
    tree: Map<Seq<Seq<char>>, Node>,
    workers: Seq<WorkerSpec>,
    message: Seq<char>,
    path: Seq<Seq<char>>,
    d: DerivationView,
) -> bool {
    &&& reachable(tree, path)
    &&& produces(tree, path, EventView::Derivation(d))
    &&& !pool_accepts(workers, d.system)
    &&& message == unowned_text(d.attr, d.system)
}

/// An evaluation whose errors are not fatal fails only over a derivation of the tree that no
/// worker of the pool accepts, and the message names that derivation and its system.
pub proof fn law_failure_names_the_derivation(
    tree: Map<Seq<Seq<char>>, Node>,
    workers: Seq<WorkerSpec>,
    moments: Seq<Moment>,
)
    requires
        names_distinct(tree),
        course(tree, workers, moments),
    ensures
        moments.last().queue.error matches Some(message) ==> {
            &&& has_prefix(message, "no worker accepted derivation "@)
            &&& exists|path: Seq<Seq<char>>, d: DerivationView| #[trigger]
                blames(tree, workers, message, path, d)
        },
    decreases moments.len(),
{
    if moments.len() > 1 {
        lemma_course_before(tree, workers, moments);
        law_failure_names_the_derivation(tree, workers, moments.drop_last());
        lemma_course_sound(tree, workers, moments, moments.len() - 2);
        let m = moments.drop_last().last();
        let after = moments.last();
        if !m.dispatches(after) {
            let (path, event) = choose|path: Seq<Seq<char>>, event: EventView|
                produces(tree, path, event) && #[trigger] m.hands_back(workers, path, event, after);
            assert(m.found(path));
            if let EventView::Derivation(d) = event {
                if !pool_accepts(workers, d.system) {
                    let message = unowned_text(d.attr, d.system);
                    let start = "no worker accepted derivation "@;
                    assert(message.take(start.len() as int) =~= start);
                    assert(blames(tree, workers, message, path, d));
                }
            }
        }
    }
}

/// An evaluation with a derivation that no worker of the pool accepts is never done. What its
/// workers are told instead, once it has failed, is that no worker accepted a derivation.
pub proof fn law_unowned_system_is_not_done(
    tree: Map<Seq<Seq<char>>, Node>,
    workers: Seq<WorkerSpec>,
    moments: Seq<Moment>,
    path: Seq<Seq<char>>,
)
    requires
        names_distinct(tree),
        course(tree, workers, moments),
        reachable(tree, path),
        tree[path] matches Node::Drv(system) && !pool_accepts(workers, system),
    ensures
        !(moments.last().queue.next() is Done),
        moments.last().queue.next() matches NextView::Fatal(message) ==> has_prefix(
            message,
            "no worker accepted derivation "@,
        ),
{
    let m = moments.last();
    law_failure_names_the_derivation(tree, workers, moments);
    lemma_course_sound(tree, workers, moments, moments.len() - 1);
    if m.queue.next() is Done {
        lemma_all_back(tree, workers, m, path);
    }
}

/// A pool that accepts every derivation of the tree never fails.
pub proof fn law_covered_pool_does_not_fail(
    tree: Map<Seq<Seq<char>>, Node>,
    workers: Seq<WorkerSpec>,
    moments: Seq<Moment>,
)
    requires
        names_distinct(tree),
        course(tree, workers, moments),
        forall|p: Seq<Seq<char>>| #[trigger]
            reachable(tree, p) ==> (tree[p] matches Node::Drv(s) ==> pool_accepts(workers, s)),
    ensures
        moments.last().queue.error is None,
    decreases moments.len(),
{
    if moments.len() > 1 {
        let init = moments.drop_last();
        lemma_course_before(tree, workers, moments);
        law_covered_pool_does_not_fail(tree, workers, init);
        lemma_course_sound(tree, workers, moments, moments.len() - 2);
        let m = init.last();
        let after = moments.last();
        if !m.dispatches(after) {
            let (path, event) = choose|path: Seq<Seq<char>>, event: EventView|
                produces(tree, path, event) && #[trigger] m.hands_back(workers, path, event, after);
            assert(m.found(path));
            assert(reachable(tree, path));
        }
    }
}

/// A worker is told to wait only while some path is with a worker, so that somebody is there
/// to return it.
pub proof fn law_wait_is_for_somebody(
    tree: Map<Seq<Seq<char>>, Node>,
    workers: Seq<WorkerSpec>,
    moments: Seq<Moment>,
)
    requires
        names_distinct(tree),
        course(tree, workers, moments),
        moments.last().queue.next() is Wait,
    ensures
        exists|p: Seq<Seq<char>>| moments.last().out.contains(p),
{
    let m = moments.last();
    lemma_course_sound(tree, workers, moments, moments.len() - 1);
    assert(m.out.len() > 0);
    let p = m.out.choose();
    assert(m.out.contains(p));
}

/// An evaluation of finitely many paths ends: it has at most two steps for each of them.
pub proof fn law_evaluation_ends(
    tree: Map<Seq<Seq<char>>, Node>,
    workers: Seq<WorkerSpec>,
    moments: Seq<Moment>,
    all: Set<Seq<Seq<char>>>,
)
    requires
        names_distinct(tree),
        course(tree, workers, moments),
        all.finite(),
        forall|p: Seq<Seq<char>>| #[trigger] reachable(tree, p) ==> all.contains(p),
    ensures
        moments.len() <= 2 * all.len() + 1,
{
    let m = moments.last();
    lemma_course_sound(tree, workers, moments, moments.len() - 1);
    let known = m.out + m.back;
    assert forall|p: Seq<Seq<char>>| #[trigger] known.contains(p) implies all.contains(p) by {
        assert(m.found(p));
    }
    vstd::set_lib::lemma_set_disjoint_lens(m.out, m.back);
    vstd::set_lib::lemma_len_subset(known, all);
}

/// Once an evaluation has failed, every worker that asks is told so, whatever comes back.
pub proof fn law_failure_stays(
    queue: SchedulerView,
    workers: Seq<WorkerSpec>,
    path: Seq<Seq<char>>,
    event: EventView,
)
    requires
        queue.error is Some,
    ensures
        queue.next() is Fatal,
        queue.after_next() == queue,
        queue.after_complete(workers, path, event).next() is Fatal,
{
}

/// The dotted form of a path joins its names with dots: the root has none, a name at the top
/// stands for itself, and every further name follows a dot.
pub proof fn law_attributes_are_dotted(path: Seq<Seq<char>>, name: Seq<char>)
    ensures
        path.len() == 0 ==> attr_of(path).len() == 0 && attr_of(seq![name]) == name,
        path.len() > 0 ==> attr_of(path.push(name)) == attr_of(path) + seq!['.'] + name,
{
    reveal_strlit(".");
    assert("."@ =~= seq!['.']);
    assert(path.push(name).drop_last() =~= path);
}

/// A local worker accepts every system; a remote one accepts those that its endpoint names, and
/// every system where it names none. A pool accepts what one of its workers accepts.
pub proof fn law_workers_accept_their_systems(
    workers: Seq<WorkerSpec>,
    i: int,
    system: Seq<char>,
)
    requires
        0 <= i < workers.len(),
    ensures
        workers[i].kind is Local ==> workers[i].accepts_system(system),
        workers[i].kind matches WorkerKind::Remote(remote) ==> {
            &&& remote.systems@.len() == 0 ==> workers[i].accepts_system(system)
            &&& remote.systems@.len() > 0 ==> (workers[i].accepts_system(system) <==> exists|j: int|
                0 <= j < remote.systems@.len() && (#[trigger] remote.systems@[j])@ == system)
        },
        workers[i].accepts_system(system) ==> pool_accepts(workers, system),
        (forall|j: int| 0 <= j < workers.len() ==> !(#[trigger] workers[j]).accepts_system(system))
            ==> !pool_accepts(workers, system),
{
    if let WorkerKind::Remote(remote) = workers[i].kind {
        let names = texts(remote.systems@);
        if names.contains(system) {
            let j = names.index_of(system);
            assert(remote.systems@[j]@ == system);
        }
        if exists|j: int|
            0 <= j < remote.systems@.len() && (#[trigger] remote.systems@[j])@ == system {
            let j = choose|j: int|
                0 <= j < remote.systems@.len() && (#[trigger] remote.systems@[j])@ == system;
            assert(names[j] == system);
        }
    }
}

/// A pool begins with the local workers, each of the executable that is configured, and has the
/// workers of the remote endpoints behind them: an endpoint more adds as many workers as it
/// has, behind all others, each at that endpoint.
pub proof fn law_pools_hold_every_worker(config: ConfigView, remote: RemoteView)
    ensures
        config.wire.remotes.len() == 0 ==> pool_of(config).len() == config.wire.workers,
        forall|i: int|
            0 <= i < config.wire.workers ==> {
                let w = #[trigger] pool_of(config)[i];
                &&& w.kind == KindView::Local(config.worker_exe)
                &&& w.label == "local#"@ + decimal_of(i as nat)
            },
        ({
            let more = ConfigView {
                wire: crate::config::WireView {
                    remotes: config.wire.remotes.push(remote),
                    ..config.wire
                },
                ..config
            };
            let n = pool_of(config).len();
            &&& pool_of(more).len() == n + remote.workers
            &&& pool_of(more).take(n as int) == pool_of(config)
            &&& forall|i: int|
                0 <= i < remote.workers ==> {
                    let w = #[trigger] pool_of(more)[n + i];
                    &&& w.kind == KindView::Remote(remote)
                    &&& w.label == remote.endpoint + "#"@ + decimal_of(i as nat)
                }
        }),
{
    let more = ConfigView {
        wire: crate::config::WireView {
            remotes: config.wire.remotes.push(remote),
            ..config.wire
        },
        ..config
    };
    lemma_remote_pool_push(config.wire.remotes, remote, config.wire.workers as int);
    let locals = Seq::new(config.wire.workers as nat, |i: int| local_spec(config.worker_exe, i));
    let n = pool_of(config).len();
    let start = config.wire.workers + remote_pool(
        config.wire.remotes,
        config.wire.workers as int,
    ).len();
    let added = Seq::new(remote.workers as nat, |i: int| remote_spec(remote, start, i));
    assert(pool_of(more) =~= pool_of(config) + added);
    assert(pool_of(more).take(n as int) =~= pool_of(config));
    assert forall|i: int| 0 <= i < remote.workers implies {
        let w = #[trigger] pool_of(more)[n + i];
        &&& w.kind == KindView::Remote(remote)
        &&& w.label == remote.endpoint + "#"@ + decimal_of(i as nat)
    } by {
        assert(pool_of(more)[n + i] == added[i]);
    }
}

proof fn lemma_remote_pool_push(remotes: Seq<RemoteView>, remote: RemoteView, start: int)
    ensures
        ({
            let pool = remote_pool(remotes, start);
            remote_pool(remotes.push(remote), start) == pool + Seq::new(
                remote.workers as nat,
                |i: int| remote_spec(remote, start + pool.len(), i),
            )
        }),
    decreases remotes.len(),
{
    let all = remotes.push(remote);
    let pool = remote_pool(remotes, start);
    let added = Seq::new(
        remote.workers as nat,
        |i: int| remote_spec(remote, start + pool.len(), i),
    );
    if remotes.len() == 0 {
        assert(all.skip(1) =~= Seq::empty());
        assert(remote_pool(all.skip(1), start + remote.workers) =~= Seq::empty());
        assert(remote_pool(all, start) =~= pool + added);
    } else {
        let first = remotes[0];
        let own = Seq::new(first.workers as nat, |i: int| remote_spec(first, start, i));
        let next = start + first.workers;
        lemma_remote_pool_push(remotes.skip(1), remote, next);
        assert(all.skip(1) =~= remotes.skip(1).push(remote));
        let rest = remote_pool(remotes.skip(1), next);
        assert(pool =~= own + rest);
        let tail = Seq::new(
            remote.workers as nat,
            |i: int| remote_spec(remote, next + rest.len(), i),
        );
        assert(tail =~= added);
        assert(remote_pool(all, start) =~= own + (rest + tail));
        assert(own + (rest + tail) =~= pool + added);
    }
}

/// A new evaluation has the root to do, and nothing else. A worker that asks gets the path that
/// has been queued longest; without one it waits while a path is with a worker, and is done
/// otherwise; once the evaluation has failed it is told why.
pub proof fn law_work_is_handed_out_in_order(
    queue: SchedulerView,
    first: Seq<Seq<char>>,
    rest: Seq<Seq<Seq<char>>>,
)
    ensures
        SchedulerView::start().todo == seq![Seq::<Seq<char>>::empty()],
        SchedulerView::start().active == 0,
        SchedulerView::start().error is None,
        queue.error is None && queue.todo == seq![first] + rest ==> {
            &&& queue.next() == NextView::Dispatch(first)
            &&& queue.after_next().todo == rest
            &&& queue.after_next().active == queue.active + 1
            &&& queue.after_next().error is None
        },
        queue.error is None && queue.todo.len() == 0 ==> {
            &&& queue.active == 0 ==> queue.next() == NextView::Done
            &&& queue.active != 0 ==> queue.next() == NextView::Wait
            &&& queue.after_next() == queue
        },
        queue.error matches Some(message) ==> queue.next() == NextView::Fatal(message)
            && queue.after_next() == queue,
{
    if queue.todo == seq![first] + rest {
        assert(queue.todo.skip(1) =~= rest);
    }
}

/// An attribute set that comes back queues its children behind everything else: one for each
/// name, in order, each one name longer than the path that came back and beginning with it.
/// Anything else queues nothing. Either way one path less is with workers.
pub proof fn law_children_follow_their_parent(
    queue: SchedulerView,
    workers: Seq<WorkerSpec>,
    path: Seq<Seq<char>>,
    event: EventView,
)
    ensures
        queue.after_complete(workers, path, event).active == queue.active - 1,
        event matches EventView::AttrSet { attrs, .. } ==> {
            let todo = queue.after_complete(workers, path, event).todo;
            &&& todo.len() == queue.todo.len() + attrs.len()
            &&& todo.take(queue.todo.len() as int) == queue.todo
            &&& forall|i: int|
                0 <= i < attrs.len() ==> {
                    let child = #[trigger] todo[queue.todo.len() + i];
                    &&& child.len() == path.len() + 1
                    &&& child.take(path.len() as int) == path
                    &&& child.last() == attrs[i]
                }
        },
        !(event is AttrSet) ==> queue.after_complete(workers, path, event).todo == queue.todo,
{
    if let EventView::AttrSet { attrs, .. } = event {
        let todo = queue.after_complete(workers, path, event).todo;
        assert(todo.take(queue.todo.len() as int) =~= queue.todo);
        assert forall|i: int| 0 <= i < attrs.len() implies {
            let child = #[trigger] todo[queue.todo.len() + i];
            &&& child.len() == path.len() + 1
            &&& child.take(path.len() as int) == path
            &&& child.last() == attrs[i]
        } by {
            let child = todo[queue.todo.len() + i];
            assert(child == path.push(attrs[i]));
            assert(child.take(path.len() as int) =~= path);
        }
    }
}

/// Everything that comes back is emitted, but for a derivation that no worker of the pool
/// accepts. Such a derivation and a fatal error end the evaluation, each with its message, and
/// nothing else does.
pub proof fn law_what_comes_back_is_emitted(
    queue: SchedulerView,
    workers: Seq<WorkerSpec>,
    path: Seq<Seq<char>>,
    event: EventView,
)
    ensures
        ({
            let done = SchedulerView::completed_of(workers, event);
            let after = queue.after_complete(workers, path, event);
            match event {
                EventView::AttrSet { .. } => done.emit && done.fatal_error is None && after.error
                    == queue.error,
                EventView::Error(e) => {
                    &&& done.emit
                    &&& e.fatal ==> done.fatal_error == Some(e.error) && after.error == Some(
                        e.error,
                    )
                    &&& !e.fatal ==> done.fatal_error is None && after.error == queue.error
                },
                EventView::Derivation(d) => {
                    let why = "no worker accepted derivation "@ + d.attr + " for system "@
                        + d.system;
                    &&& pool_accepts(workers, d.system) ==> done.emit && done.fatal_error is None
                        && after.error == queue.error
                    &&& !pool_accepts(workers, d.system) ==> !done.emit && done.fatal_error == Some(
                        why,
                    ) && after.error == Some(why)
                },
            }
        }),
{
}

/// A worker that fails fails one attribute: the event is an error at its path that does not end
/// the evaluation, and names the worker and what it said.
pub proof fn law_worker_failures_are_errors_of_the_item(
    label: Seq<char>,
    path: Seq<Seq<char>>,
    message: Seq<char>,
)
    ensures
        failure_event(label, path, message) matches EventView::Error(e) && {
            &&& e.attr_path == path
            &&& path.len() == 1 ==> e.attr == path[0]
            &&& e.error == "worker "@ + label + " failed: "@ + message
            &&& !e.fatal
        },
{
}

/// What a queue, a worker of a pool and what it is told say is what stands in them.
pub proof fn law_schedulers_say_what_they_hold(
    s: Scheduler,
    w: WorkerSpec,
    item: WorkItem,
    message: String,
    done: Completed,
    i: int,
)
    ensures
        s@.todo.len() == s.todo@.len(),
        0 <= i < s.todo@.len() ==> s@.todo[i] == texts(s.todo@[i].path@),
        s@.active == s.active,
        s@.error == text_opt(s.error),
        w@.id == w.id,
        w@.label == w.label@,
        w.kind matches WorkerKind::Remote(remote) ==> w@.kind == KindView::Remote(remote@),
        w.kind matches WorkerKind::Local { worker_exe } ==> w@.kind == KindView::Local(
            text_opt(worker_exe),
        ),
        NextWork::Dispatch(item)@ == NextView::Dispatch(texts(item.path@)),
        NextWork::Wait@ == NextView::Wait,
        NextWork::Done@ == NextView::Done,
        NextWork::Fatal(message)@ == NextView::Fatal(message@),
        done@.emit == done.emit,
        done@.fatal_error == text_opt(done.fatal_error),
{
}

} // verus!
