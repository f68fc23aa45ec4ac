//! A worker: from its setup to its end, one attribute path at a time.

use vstd::prelude::*;

use crate::config::{WorkerConfig, WorkerConfigView};
use crate::error::ErrorChain;
use crate::flake_ref::{flake_lock_mode, is_local, is_local_flake_reference, LockMode};
use crate::messages::{ClientMessage, ClientView, ServerMessage, ServerView, WorkerStatus};
use crate::model::{
    args_view, copy_pairs, pairs_view, AutoArg, AutoArgView, Event, Input, InputView,
};
use crate::text::{concat2, texts};

verus! {

/// Whether a worker has used more memory than it may: its peak in kibibytes against its limit
/// in mebibytes.
pub open spec fn over_limit(max_rss_kb: int, max_memory_mb: int) -> bool {
    let limit = max_memory_mb * 1024;
    max_rss_kb > (if limit > usize::MAX {
        usize::MAX as int
    } else {
        limit
    })
}

/// Whether a worker has used more memory than it may.
pub fn should_restart(max_rss_kb: usize, max_memory_mb: usize) -> (r: bool)
    ensures
        r == over_limit(max_rss_kb as int, max_memory_mb as int),
{
    let limit: usize = match max_memory_mb.checked_mul(1024) {
        Some(limit) => limit,
        None => usize::MAX,
    };
    max_rss_kb > limit
}

/// A worker is within its limit exactly when its peak is at most as many kibibytes as its
/// mebibytes hold; a limit beyond what can be counted is never exceeded.
pub proof fn law_memory_limit(max_rss_kb: usize, max_memory_mb: usize)
    ensures
        over_limit(max_rss_kb as int, max_memory_mb as int) <==> max_rss_kb > max_memory_mb * 1024,
{
}

/// The peak memory of a process in kibibytes, from what the system reports: macOS counts in
/// bytes.
pub fn get_maxrss_kb(reported: i64, macos: bool) -> (r: Result<usize, ErrorChain>)
    ensures
        match r {
            Ok(kb) => {
                &&& 0 <= reported <= usize::MAX
                &&& kb == if macos {
                    reported / 1024
                } else {
                    reported as int
                }
            },
            Err(e) => {
                &&& reported < 0 || reported > usize::MAX
                &&& e@ == seq![
                    "getrusage returned a negative ru_maxrss"@,
                    "out of range integral type conversion attempted"@,
                ]
            },
        },
{
    match usize::try_from(reported) {
        Ok(rss) => if macos {
            Ok(rss / 1024)
        } else {
            Ok(rss)
        },
        Err(_) => Err(
            ErrorChain::new("out of range integral type conversion attempted").context(
                "getrusage returned a negative ru_maxrss",
            ),
        ),
    }
}

/// How the root value is found.
pub enum RootPlan {
    /// From a flake, whose outputs are taken as they are.
    Flake(FlakePlan),
    /// From an expression, called with the automatic arguments.
    Expr(String),
    /// From a file, called with the automatic arguments.
    File(String),
}

/// How the outputs of a flake are found.
pub enum FlakePlan {
    /// From the graph that the master locked.
    Imported { reference: String, graph: String },
    /// By locking it here.
    Locked { reference: String, mode: LockMode, override_inputs: Vec<(String, String)> },
}

/// How the root value is found: a flake from the graph that the master locked, if there is
/// one.
pub fn eval_root(config: &WorkerConfig) -> (r: RootPlan)
    ensures
        match config@.input {
            InputView::Expr(s) => r matches RootPlan::Expr(e) && e@ == s,
            InputView::File(s) => r matches RootPlan::File(f) && f@ == s,
            InputView::Flake(s) => match config@.locked_flake_json {
                Some(json) => r matches RootPlan::Flake(FlakePlan::Imported { reference, graph })
                    && reference@ == s && graph@ == json,
                None => r matches RootPlan::Flake(
                    FlakePlan::Locked { reference, mode, override_inputs },
                ) && reference@ == s && pairs_view(override_inputs@) == config@.override_inputs
                    && mode == (if is_local(s) {
                    LockMode::Check
                } else {
                    LockMode::Virtual
                }),
            },
        },
{
    match &config.input {
        Input::Expr(s) => RootPlan::Expr(s.clone()),
        Input::File(s) => RootPlan::File(s.clone()),
        Input::Flake(s) => match &config.locked_flake_json {
            Some(json) => RootPlan::Flake(
                FlakePlan::Imported { reference: s.clone(), graph: json.clone() },
            ),
            None => RootPlan::Flake(
                FlakePlan::Locked {
                    reference: s.clone(),
                    mode: flake_lock_mode(is_local_flake_reference(s.as_str())),
                    override_inputs: copy_pairs(&config.override_inputs),
                },
            ),
        },
    }
}

/// What a failure to evaluate the root is reported as.
pub fn root_context(plan: &RootPlan) -> (r: &'static str)
    ensures
        r@ == match *plan {
            RootPlan::Flake(_) => "flake outputs"@,
            RootPlan::Expr(_) => "evaluating expression"@,
            RootPlan::File(_) => "evaluating file"@,
        },
{
    match plan {
        RootPlan::Flake(_) => "flake outputs",
        RootPlan::Expr(_) => "evaluating expression",
        RootPlan::File(_) => "evaluating file",
    }
}

/// An automatic argument that is to be made.
pub struct ArgPlan {
    /// Its name.
    pub name: String,
    /// Its text.
    pub text: String,
    /// Whether the text is an expression to evaluate; else it is the string itself.
    pub evaluate: bool,
    /// What a failure to make it is reported as.
    pub context: String,
}

/// What an [`ArgPlan`] says.
#[verifier::ext_equal]
pub struct ArgPlanView {
    /// See [`ArgPlan::name`].
    pub name: Seq<char>,
    /// See [`ArgPlan::text`].
    pub text: Seq<char>,
    /// See [`ArgPlan::evaluate`].
    pub evaluate: bool,
    /// See [`ArgPlan::context`].
    pub context: Seq<char>,
}

/// How an argument is made.
pub open spec fn arg_plan(arg: (Seq<char>, AutoArgView)) -> ArgPlanView {
    match arg.1 {
        AutoArgView::Expr(s) => ArgPlanView {
            name: arg.0,
            text: s,
            evaluate: true,
            context: "--arg "@ + arg.0,
        },
        AutoArgView::Str(s) => ArgPlanView {
            name: arg.0,
            text: s,
            evaluate: false,
            context: "--argstr "@ + arg.0,
        },
    }
}

/// The plans of a list.
pub open spec fn plans_view(plans: Seq<ArgPlan>) -> Seq<ArgPlanView> {
    plans.map_values(
        |p: ArgPlan|
            ArgPlanView {
                name: p.name@,
                text: p.text@,
                evaluate: p.evaluate,
                context: p.context@,
            },
    )
}

/// How the automatic arguments are made, in order; `None` where there are none.
pub fn build_auto_args(args: &Vec<(String, AutoArg)>) -> (r: Option<Vec<ArgPlan>>)
    ensures
        match r {
            None => args@.len() == 0,
            Some(plans) => args@.len() > 0 && plans_view(plans@) == args_view(args@).map_values(
                |a: (Seq<char>, AutoArgView)| arg_plan(a),
            ),
        },
{
    if args.len() == 0 {
        return None;
    }
    let ghost all = args_view(args@).map_values(|a: (Seq<char>, AutoArgView)| arg_plan(a));
    let mut out: Vec<ArgPlan> = Vec::new();
    let mut i: usize = 0;
    proof {
        assert(plans_view(out@) =~= all.take(0));
    }
    while i < args.len()
        invariant
            i <= args.len(),
            all == args_view(args@).map_values(|a: (Seq<char>, AutoArgView)| arg_plan(a)),
            plans_view(out@) == all.take(i as int),
        decreases args.len() - i,
    {
        let ghost before = plans_view(out@);
        let name = args[i].0.clone();
        let plan = match &args[i].1 {
            AutoArg::Expr(s) => ArgPlan {
                context: concat2("--arg ", name.as_str()),
                name,
                text: s.clone(),
                evaluate: true,
            },
            AutoArg::Str(s) => ArgPlan {
                context: concat2("--argstr ", name.as_str()),
                name,
                text: s.clone(),
                evaluate: false,
            },
        };
        out.push(plan);
        proof {
            assert(plans_view(out@) =~= before.push(all[i as int]));
            assert(all.take(i + 1) =~= all.take(i as int).push(all[i as int]));
        }
        i += 1;
    }
    proof {
        assert(all.take(i as int) =~= all);
    }
    Some(out)
}

/// How far a worker is.
#[derive(Clone, Copy, PartialEq, Eq, Structural, Debug)]
pub enum WorkerPhase {
    /// It waits for its setup.
    Starting,
    /// It evaluates the root.
    Preparing,
    /// It waits for work.
    Idle,
    /// It evaluates an attribute path.
    Evaluating,
    /// It has sent an event, and its memory is measured.
    Measuring,
    /// It has ended.
    Ended,
}

/// A worker.
#[derive(Debug)]
pub struct Worker {
    /// How far it is.
    pub phase: WorkerPhase,
    /// Its memory limit, in mebibytes.
    pub max_memory_size: usize,
}

/// What happens to a worker.
#[derive(Debug)]
pub enum WorkerInput {
    /// Its master said something, or could not be heard.
    Received(Result<ClientMessage, ErrorChain>),
    /// The root is evaluated, or could not be.
    Prepared(Result<(), ErrorChain>),
    /// The evaluation of an attribute path yielded this.
    Produced(Event),
    /// The memory that it has used, or why that is not known.
    Measured(Result<usize, ErrorChain>),
}

/// What a worker does.
#[derive(Debug)]
pub enum WorkerOutput {
    /// Evaluate the root.
    Prepare(WorkerConfig),
    /// Evaluate an attribute path.
    Evaluate(Vec<String>),
    /// Say something to its master.
    Send(ServerMessage),
    /// Say that it ends, and end.
    SendAndExit(ServerMessage),
    /// End.
    Exit,
    /// Fail.
    Fail(ErrorChain),
    /// Fail because the first message was not a setup but this.
    FailUnexpected(ClientMessage),
}

/// Whether the input is one that the worker waits for.
pub open spec fn awaits(phase: WorkerPhase, input: WorkerInput) -> bool {
    match phase {
        WorkerPhase::Starting => input is Received,
        WorkerPhase::Preparing => input is Prepared,
        WorkerPhase::Idle => input is Received,
        WorkerPhase::Evaluating => input is Produced,
        WorkerPhase::Measuring => input is Measured,
        WorkerPhase::Ended => false,
    }
}

/// What a [`WorkerOutput`] says.
#[verifier::ext_equal]
pub enum OutputView {
    /// See [`WorkerOutput::Prepare`].
    Prepare(WorkerConfigView),
    /// See [`WorkerOutput::Evaluate`].
    Evaluate(Seq<Seq<char>>),
    /// See [`WorkerOutput::Send`].
    Send(ServerView),
    /// See [`WorkerOutput::SendAndExit`].
    SendAndExit(ServerView),
    /// See [`WorkerOutput::Exit`].
    Exit,
    /// See [`WorkerOutput::Fail`].
    Fail(Seq<Seq<char>>),
    /// See [`WorkerOutput::FailUnexpected`].
    FailUnexpected(ClientView),
}

impl View for WorkerOutput {
    type V = OutputView;

    open spec fn view(&self) -> OutputView {
        match *self {
            WorkerOutput::Prepare(config) => OutputView::Prepare(config@),
            WorkerOutput::Evaluate(path) => OutputView::Evaluate(texts(path@)),
            WorkerOutput::Send(m) => OutputView::Send(m@),
            WorkerOutput::SendAndExit(m) => OutputView::SendAndExit(m@),
            WorkerOutput::Exit => OutputView::Exit,
            WorkerOutput::Fail(e) => OutputView::Fail(e@),
            WorkerOutput::FailUnexpected(m) => OutputView::FailUnexpected(m@),
        }
    }
}

/// What a worker in this phase, with this memory limit, does about what happens to it: how far
/// it is then, its limit from there on, and what it does.
pub open spec fn worker_step(phase: WorkerPhase, limit: usize, input: WorkerInput) -> (
    WorkerPhase,
    usize,
    OutputView,
) {
    match input {
        WorkerInput::Received(Err(e)) => (WorkerPhase::Ended, limit, OutputView::Fail(e@)),
        WorkerInput::Received(Ok(message)) => if phase == WorkerPhase::Starting {
            match message@ {
                ClientView::Setup(config, _, _) => (
                    WorkerPhase::Preparing,
                    config.max_memory_size,
                    OutputView::Prepare(config),
                ),
                other => (WorkerPhase::Ended, limit, OutputView::FailUnexpected(other)),
            }
        } else {
            match message@ {
                ClientView::Work(path) => (
                    WorkerPhase::Evaluating,
                    limit,
                    OutputView::Evaluate(path),
                ),
                ClientView::Shutdown => (WorkerPhase::Ended, limit, OutputView::Exit),
                ClientView::Setup(_, _, _) => (
                    WorkerPhase::Ended,
                    limit,
                    OutputView::Fail(seq!["worker setup sent twice"@]),
                ),
            }
        },
        WorkerInput::Prepared(Ok(())) => (
            WorkerPhase::Idle,
            limit,
            OutputView::Send(ServerView::Ready),
        ),
        WorkerInput::Prepared(Err(e)) => (WorkerPhase::Ended, limit, OutputView::Fail(e@)),
        WorkerInput::Produced(event) => (
            WorkerPhase::Measuring,
            limit,
            OutputView::Send(ServerView::Event(event@)),
        ),
        WorkerInput::Measured(Ok(kb)) => if over_limit(kb as int, limit as int) {
            (
                WorkerPhase::Ended,
                limit,
                OutputView::SendAndExit(ServerView::Status(WorkerStatus::Restart)),
            )
        } else {
            (WorkerPhase::Idle, limit, OutputView::Send(ServerView::Status(WorkerStatus::Ready)))
        },
        WorkerInput::Measured(Err(e)) => (
            WorkerPhase::Ended,
            limit,
            OutputView::Fail(seq!["checking worker memory usage"@] + e@),
        ),
    }
}

impl Worker {
    /// A worker that waits for its setup.
    pub fn new() -> (r: Self)
        ensures
            r.phase == WorkerPhase::Starting,
    {
        Worker { phase: WorkerPhase::Starting, max_memory_size: 0 }
    }

    /// What a worker does about what happens to it.
    ///
    /// It takes its setup, evaluates the root and says that it is ready. For each attribute
    /// path it sends the event and then its status: ready for more, or over its memory limit
    /// and at its end. It ends when it is told to.
    pub fn run(&mut self, input: WorkerInput) -> (r: WorkerOutput)
        requires
            awaits(old(self).phase, input),
        ensures
            (final(self).phase, final(self).max_memory_size, r@) == worker_step(
                old(self).phase,
                old(self).max_memory_size,
                input,
            ),
            final(self).max_memory_size == (match input {
                WorkerInput::Received(Ok(ClientMessage::Setup { config, .. })) => if old(self).phase
                    == WorkerPhase::Starting {
                    config.max_memory_size
                } else {
                    old(self).max_memory_size
                },
                _ => old(self).max_memory_size,
            }),
            match input {
                WorkerInput::Received(Err(err)) => {
                    &&& final(self).phase == WorkerPhase::Ended
                    &&& r matches WorkerOutput::Fail(e) && e@ == err@
                },
                WorkerInput::Received(Ok(message)) => if old(self).phase == WorkerPhase::Starting {
                    match message@ {
                        ClientView::Setup(config, _, _) => {
                            &&& final(self).phase == WorkerPhase::Preparing
                            &&& r matches WorkerOutput::Prepare(c) && c@ == config
                        },
                        other => {
                            &&& final(self).phase == WorkerPhase::Ended
                            &&& r matches WorkerOutput::FailUnexpected(m) && m@ == other
                        },
                    }
                } else {
                    match message@ {
                        ClientView::Work(path) => {
                            &&& final(self).phase == WorkerPhase::Evaluating
                            &&& r matches WorkerOutput::Evaluate(p) && texts(p@) == path
                        },
                        ClientView::Shutdown => {
                            &&& final(self).phase == WorkerPhase::Ended
                            &&& r is Exit
                        },
                        ClientView::Setup(_, _, _) => {
                            &&& final(self).phase == WorkerPhase::Ended
                            &&& r matches WorkerOutput::Fail(e) && e@ == seq![
                                "worker setup sent twice"@,
                            ]
                        },
                    }
                },
                WorkerInput::Prepared(Ok(())) => {
                    &&& final(self).phase == WorkerPhase::Idle
                    &&& r matches WorkerOutput::Send(m) && m@ == ServerView::Ready
                },
                WorkerInput::Prepared(Err(err)) => {
                    &&& final(self).phase == WorkerPhase::Ended
                    &&& r matches WorkerOutput::Fail(e) && e@ == err@
                },
                WorkerInput::Produced(event) => {
                    &&& final(self).phase == WorkerPhase::Measuring
                    &&& r matches WorkerOutput::Send(m) && m@ == ServerView::Event(event@)
                },
                WorkerInput::Measured(Ok(kb)) => if over_limit(
                    kb as int,
                    old(self).max_memory_size as int,
                ) {
                    &&& final(self).phase == WorkerPhase::Ended
                    &&& r matches WorkerOutput::SendAndExit(m) && m@ == ServerView::Status(
                        WorkerStatus::Restart,
                    )
                } else {
                    &&& final(self).phase == WorkerPhase::Idle
                    &&& r matches WorkerOutput::Send(m) && m@ == ServerView::Status(
                        WorkerStatus::Ready,
                    )
                },
                WorkerInput::Measured(Err(err)) => {
                    &&& final(self).phase == WorkerPhase::Ended
                    &&& r matches WorkerOutput::Fail(e) && e@ == seq![
                        "checking worker memory usage"@,
                    ] + err@
                },
            },
    {
        match input {
            WorkerInput::Received(Err(err)) => {
                self.phase = WorkerPhase::Ended;
                WorkerOutput::Fail(err)
            },
            WorkerInput::Received(Ok(message)) => {
                if self.phase == WorkerPhase::Starting {
                    match message {
                        ClientMessage::Setup { config, token: _, expected_store_dir: _ } => {
                            self.phase = WorkerPhase::Preparing;
                            self.max_memory_size = config.max_memory_size;
                            WorkerOutput::Prepare(config)
                        },
                        other => {
                            self.phase = WorkerPhase::Ended;
                            WorkerOutput::FailUnexpected(other)
                        },
                    }
                } else {
                    match message {
                        ClientMessage::Work(path) => {
                            self.phase = WorkerPhase::Evaluating;
                            WorkerOutput::Evaluate(path)
                        },
                        ClientMessage::Shutdown => {
                            self.phase = WorkerPhase::Ended;
                            WorkerOutput::Exit
                        },
                        ClientMessage::Setup { config: _, token: _, expected_store_dir: _ } => {
                            self.phase = WorkerPhase::Ended;
                            WorkerOutput::Fail(ErrorChain::new("worker setup sent twice"))
                        },
                    }
                }
            },
            WorkerInput::Prepared(Ok(())) => {
                self.phase = WorkerPhase::Idle;
                WorkerOutput::Send(ServerMessage::Ready)
            },
            WorkerInput::Prepared(Err(err)) => {
                self.phase = WorkerPhase::Ended;
                WorkerOutput::Fail(err)
            },
            WorkerInput::Produced(event) => {
                self.phase = WorkerPhase::Measuring;
                WorkerOutput::Send(ServerMessage::Event(event))
            },
            WorkerInput::Measured(Ok(kb)) => {
                if should_restart(kb, self.max_memory_size) {
                    self.phase = WorkerPhase::Ended;
                    WorkerOutput::SendAndExit(ServerMessage::Status(WorkerStatus::Restart))
                } else {
                    self.phase = WorkerPhase::Idle;
                    WorkerOutput::Send(ServerMessage::Status(WorkerStatus::Ready))
                }
            },
            WorkerInput::Measured(Err(err)) => {
                self.phase = WorkerPhase::Ended;
                WorkerOutput::Fail(err.context("checking worker memory usage"))
            },
        }
    }
}

/// An argument is made under its own name from its own text: an expression is evaluated, and a
/// string is taken as it is.
pub proof fn law_arguments_are_made_from_their_text(name: Seq<char>, text: Seq<char>)
    ensures
        ({
            let plan = arg_plan((name, AutoArgView::Expr(text)));
            plan.name == name && plan.text == text && plan.evaluate && plan.context == "--arg "@
                + name
        }),
        ({
            let plan = arg_plan((name, AutoArgView::Str(text)));
            plan.name == name && plan.text == text && !plan.evaluate && plan.context
                == "--argstr "@ + name
        }),
{
}

/// A worker takes one kind of news at a time: a message at the start and between items, and the
/// outcome of what it does while it does something. A worker that has ended takes none.
pub proof fn law_workers_take_one_kind_of_news(input: WorkerInput, p: ArgPlan)
    ensures
        awaits(WorkerPhase::Starting, input) <==> input is Received,
        awaits(WorkerPhase::Idle, input) <==> input is Received,
        awaits(WorkerPhase::Preparing, input) <==> input is Prepared,
        awaits(WorkerPhase::Evaluating, input) <==> input is Produced,
        awaits(WorkerPhase::Measuring, input) <==> input is Measured,
        !awaits(WorkerPhase::Ended, input),
        plans_view(seq![p])[0].name == p.name@ && plans_view(seq![p])[0].text == p.text@,
        plans_view(seq![p])[0].evaluate == p.evaluate && plans_view(seq![p])[0].context
            == p.context@,
{
}

/// A worker answers every item: it evaluates the path that it is given, sends what that yields,
/// and then whether it is ready for more or, over the limit of its setup, at its end.
pub proof fn law_workers_answer_every_item(
    config: WorkerConfig,
    token: Option<String>,
    dir: Option<String>,
    path: Vec<String>,
    event: Event,
    kb: usize,
    before: usize,
)
    ensures
        ({
            let setup = WorkerInput::Received(
                Ok(ClientMessage::Setup { config, token, expected_store_dir: dir }),
            );
            let limit = config.max_memory_size;
            let work = WorkerInput::Received(Ok(ClientMessage::Work(path)));
            &&& worker_step(WorkerPhase::Starting, before, setup) == (
                WorkerPhase::Preparing,
                limit,
                OutputView::Prepare(config@),
            )
            &&& worker_step(WorkerPhase::Preparing, limit, WorkerInput::Prepared(Ok(()))) == (
                WorkerPhase::Idle,
                limit,
                OutputView::Send(ServerView::Ready),
            )
            &&& worker_step(WorkerPhase::Idle, limit, work) == (
                WorkerPhase::Evaluating,
                limit,
                OutputView::Evaluate(texts(path@)),
            )
            &&& worker_step(WorkerPhase::Evaluating, limit, WorkerInput::Produced(event)) == (
                WorkerPhase::Measuring,
                limit,
                OutputView::Send(ServerView::Event(event@)),
            )
            &&& kb <= limit * 1024 ==> worker_step(
                WorkerPhase::Measuring,
                limit,
                WorkerInput::Measured(Ok(kb)),
            ) == (
                WorkerPhase::Idle,
                limit,
                OutputView::Send(ServerView::Status(WorkerStatus::Ready)),
            )
            &&& kb > limit * 1024 ==> worker_step(
                WorkerPhase::Measuring,
                limit,
                WorkerInput::Measured(Ok(kb)),
            ) == (
                WorkerPhase::Ended,
                limit,
                OutputView::SendAndExit(ServerView::Status(WorkerStatus::Restart)),
            )
        }),
{
    law_memory_limit(kb, config.max_memory_size);
}

/// A worker ends when it is told to, when it is told what it cannot be told there, and when
/// something fails; it then says why.
pub proof fn law_workers_end_with_a_reason(
    phase: WorkerPhase,
    limit: usize,
    message: ClientMessage,
    e: ErrorChain,
)
    ensures
        phase != WorkerPhase::Starting && message is Shutdown ==> worker_step(
            phase,
            limit,
            WorkerInput::Received(Ok(message)),
        ) == (WorkerPhase::Ended, limit, OutputView::Exit),
        phase != WorkerPhase::Starting && message is Setup ==> worker_step(
            phase,
            limit,
            WorkerInput::Received(Ok(message)),
        ) == (WorkerPhase::Ended, limit, OutputView::Fail(seq!["worker setup sent twice"@])),
        !(message is Setup) ==> worker_step(
            WorkerPhase::Starting,
            limit,
            WorkerInput::Received(Ok(message)),
        ) == (WorkerPhase::Ended, limit, OutputView::FailUnexpected(message@)),
        worker_step(phase, limit, WorkerInput::Received(Err(e))) == (
            WorkerPhase::Ended,
            limit,
            OutputView::Fail(e@),
        ),
        worker_step(phase, limit, WorkerInput::Prepared(Err(e))) == (
            WorkerPhase::Ended,
            limit,
            OutputView::Fail(e@),
        ),
        worker_step(phase, limit, WorkerInput::Measured(Err(e))) == (
            WorkerPhase::Ended,
            limit,
            OutputView::Fail(seq!["checking worker memory usage"@] + e@),
        ),
{
}

/// The root is what the input says: an expression, a file or a flake, each with its own text. A
/// flake that the master locked is taken from its graph; any other is locked here, a local one
/// against its lock file.
pub proof fn law_roots_are_what_the_input_says(config: WorkerConfig, r: RootPlan)
    requires
        call_ensures(eval_root, (&config,), r),
    ensures
        config.input matches Input::Expr(s) ==> (r matches RootPlan::Expr(e) && e@ == s@),
        config.input matches Input::File(s) ==> (r matches RootPlan::File(f) && f@ == s@),
        config.input matches Input::Flake(s) ==> (r matches RootPlan::Flake(plan) && match plan {
            FlakePlan::Imported { reference, graph } => reference@ == s@ && (
            config.locked_flake_json matches Some(json) && graph@ == json@),
            FlakePlan::Locked { reference, mode, override_inputs } => {
                &&& reference@ == s@ && config.locked_flake_json is None
                &&& pairs_view(override_inputs@) == pairs_view(config.override_inputs@)
                &&& mode == LockMode::Check <==> is_local(s@)
            },
        }),
{
}

/// Memory is counted in kibibytes: macOS reports bytes, every other system kibibytes, and a
/// negative report is an error.
pub proof fn law_memory_is_counted_in_kibibytes(reported: i64, macos: bool, r: Result<usize, ErrorChain>)
    requires
        call_ensures(get_maxrss_kb, (reported, macos), r),
    ensures
        r is Ok <==> 0 <= reported <= usize::MAX,
        r matches Ok(kb) ==> (!macos ==> kb == reported) && (macos ==> kb * 1024 <= reported < (kb
            + 1) * 1024),
        reported < 0 ==> (r matches Err(e) && e@[0] == "getrusage returned a negative ru_maxrss"@),
{
}

} // verus!
