//! A long-lived evaluation session: when it evaluates, what it keeps, and what it answers.

use vstd::prelude::*;

use crate::config::{Config, ConfigView};
use crate::error::{Error, ErrorChain, ErrorView, Operation};
use crate::model::{derivations_view, errors_view, Derivation, Diff, EvalErrorView, Filter};
use crate::state::{
    diff_graphs, diff_of, EvalGraph, Evaluation, GraphView, RunOutcome, WarmState, WarmView,
};

verus! {

/// The buffer of a stream whose consumer names none: large enough for short bursts, and small
/// enough to hold a producer back.
pub const DEFAULT_STREAM_BUFFER_CAPACITY: usize = 1024;

/// How far the initial evaluation of a session is.
#[derive(Clone, Copy, PartialEq, Eq, Structural, Debug)]
pub enum InitialEvaluation {
    /// It has not been started.
    Idle,
    /// It is under way.
    Running,
    /// It has ended.
    Finished,
}

/// Long-lived evaluation session.
///
/// Initial event streams are single-use. After an initial evaluation failure, later stream,
/// query and diff calls report the stored failure instead of retrying.
pub struct Session {
    /// What is evaluated, and how.
    pub config: Config,
    /// Whether the session was cancelled.
    pub cancelled: bool,
    /// What is kept of its evaluations.
    pub state: WarmState,
    /// How far its initial evaluation is.
    pub initial: InitialEvaluation,
}

/// What a [`Session`] holds.
#[verifier::ext_equal]
pub struct SessionView {
    /// See [`Session::config`].
    pub config: ConfigView,
    /// See [`Session::cancelled`].
    pub cancelled: bool,
    /// See [`Session::state`].
    pub warm: WarmView,
    /// See [`Session::initial`].
    pub initial: InitialEvaluation,
}

impl View for Session {
    type V = SessionView;

    open spec fn view(&self) -> SessionView {
        SessionView {
            config: self.config@,
            cancelled: self.cancelled,
            warm: self.state@,
            initial: self.initial,
        }
    }
}

/// What an evaluation came to.
pub enum RunView {
    /// It completed, with this graph and these errors.
    Completed(GraphView, Seq<EvalErrorView>),
    /// It was cancelled.
    Cancelled,
    /// It failed, with this chain of messages.
    Failed(Seq<Seq<char>>),
}

/// What an evaluation came to.
pub open spec fn run_view(result: Result<Evaluation, ErrorChain>) -> RunView {
    match result {
        Ok(found) => match found.outcome {
            RunOutcome::Completed => RunView::Completed(found.graph@, errors_view(found.errors@)),
            RunOutcome::Cancelled => RunView::Cancelled,
        },
        Err(err) => RunView::Failed(err@),
    }
}

/// The message of a session without a runtime.
pub open spec fn no_runtime_text() -> Seq<char> {
    "Session streams require an active Tokio runtime"@
}

impl SessionView {
    /// A session that has not evaluated.
    pub open spec fn opened(config: ConfigView) -> SessionView {
        SessionView {
            config,
            cancelled: false,
            warm: WarmView::cold(),
            initial: InitialEvaluation::Idle,
        }
    }

    /// The session once its initial evaluation was asked for.
    pub open spec fn started(self) -> SessionView {
        if self.initial == InitialEvaluation::Idle {
            SessionView { initial: InitialEvaluation::Running, ..self }
        } else {
            self
        }
    }

    /// Why the stream cannot be had again.
    pub open spec fn unavailable(self) -> ErrorView {
        match self.warm.error {
            Some(message) => ErrorView::EvaluationFailed(message),
            None => ErrorView::SessionStreamConsumed,
        }
    }

    /// The session with a stored failure.
    pub open spec fn failed(self, message: Seq<char>) -> SessionView {
        SessionView {
            warm: WarmView { error: Some(message), ..self.warm },
            initial: InitialEvaluation::Finished,
            ..self
        }
    }

    /// The session once its initial evaluation has ended.
    pub open spec fn ended(self, run: RunView) -> SessionView {
        match run {
            RunView::Completed(graph, errors) => SessionView {
                warm: WarmView::filled(graph, errors),
                initial: InitialEvaluation::Finished,
                ..self
            },
            RunView::Cancelled => self.failed(ErrorView::Cancelled.text()),
            RunView::Failed(chain) => self.failed(chain[0]),
        }
    }

    /// What the stream of the initial evaluation reports at its end.
    pub open spec fn end_error(run: RunView) -> Option<ErrorView> {
        match run {
            RunView::Completed(_, _) => None,
            RunView::Cancelled => Some(ErrorView::Cancelled),
            RunView::Failed(chain) => Some(ErrorView::of_chain(chain)),
        }
    }

    /// Why a warm-graph operation cannot be had; `None` where it can.
    pub open spec fn not_warm(self, operation: Operation) -> Option<ErrorView> {
        if self.warm.completed {
            None
        } else {
            match self.warm.error {
                Some(message) => Some(ErrorView::EvaluationFailed(message)),
                None => Some(ErrorView::InitialEvaluationIncomplete(operation)),
            }
        }
    }
}

/// What a stream begins with.
pub enum StreamStart {
    /// It holds this error and nothing else.
    Refused(Error),
    /// It holds the events of an evaluation of this configuration.
    Evaluate(Config),
}

/// What a watch begins with.
pub struct WatchStart {
    /// What is evaluated.
    pub config: Config,
    /// Whether the initial evaluation is to be run first.
    pub start_initial: bool,
}

/// A capacity that can hold an item.
pub fn bounded_capacity(capacity: usize) -> (r: usize)
    ensures
        r == if capacity == 0 {
            1usize
        } else {
            capacity
        },
{
    if capacity == 0 {
        1
    } else {
        capacity
    }
}

/// Rejects an event that could not be sent because nobody listens any more.
pub fn stream_delivery(delivered: bool) -> (r: Result<(), ErrorChain>)
    ensures
        match r {
            Ok(()) => delivered,
            Err(e) => !delivered && e@ == seq!["session stream receiver was dropped"@],
        },
{
    if delivered {
        Ok(())
    } else {
        Err(ErrorChain::new("session stream receiver was dropped"))
    }
}

impl Session {
    /// Opens a session without starting an evaluation.
    pub fn open(config: Config) -> (r: Result<Self, Error>)
        ensures
            r matches Ok(s) && s@ == SessionView::opened(config@),
    {
        Ok(
            Session {
                config,
                cancelled: false,
                state: WarmState::default(),
                initial: InitialEvaluation::Idle,
            },
        )
    }

    /// Marks the initial evaluation as running, if nobody has asked for it before.
    pub fn start_initial_evaluation(&mut self) -> (r: bool)
        ensures
            r == (old(self)@.initial == InitialEvaluation::Idle),
            final(self)@ == old(self)@.started(),
    {
        match self.initial {
            InitialEvaluation::Idle => {
                self.initial = InitialEvaluation::Running;
                true
            },
            InitialEvaluation::Running => false,
            InitialEvaluation::Finished => false,
        }
    }

    /// Why the stream cannot be had again: the stored failure, or that it is used up.
    pub fn initial_unavailable_error(&self) -> (r: Error)
        ensures
            r@ == self@.unavailable(),
    {
        match &self.state.error {
            Some(error) => Error::EvaluationFailed { message: error.clone() },
            None => Error::SessionStreamConsumed,
        }
    }

    /// Begins the stream of events of the initial evaluation.
    ///
    /// The stream is single-use: whoever asks first gets it, and everybody else an error.
    pub fn stream(&mut self) -> (r: StreamStart)
        ensures
            final(self)@ == old(self)@.started(),
            match r {
                StreamStart::Evaluate(config) => {
                    &&& old(self)@.initial == InitialEvaluation::Idle
                    &&& config@ == old(self)@.config
                },
                StreamStart::Refused(e) => {
                    &&& old(self)@.initial != InitialEvaluation::Idle
                    &&& e@ == old(self)@.unavailable()
                },
            },
    {
        if !self.start_initial_evaluation() {
            return StreamStart::Refused(self.initial_unavailable_error());
        }
        StreamStart::Evaluate(self.config.clone())
    }

    /// Begins the stream of events with a bounded buffer, and says how many items the buffer
    /// holds: a capacity of zero is taken as one.
    pub fn stream_bounded(&mut self, capacity: usize) -> (r: (usize, StreamStart))
        ensures
            r.0 == if capacity == 0 {
                1usize
            } else {
                capacity
            },
            final(self)@ == old(self)@.started(),
            match r.1 {
                StreamStart::Evaluate(config) => {
                    &&& old(self)@.initial == InitialEvaluation::Idle
                    &&& config@ == old(self)@.config
                },
                StreamStart::Refused(e) => {
                    &&& old(self)@.initial != InitialEvaluation::Idle
                    &&& e@ == old(self)@.unavailable()
                },
            },
    {
        (bounded_capacity(capacity), self.stream())
    }

    /// Begins a watch: the initial evaluation is run first if nobody has asked for it before.
    pub fn watch(&mut self) -> (r: WatchStart)
        ensures
            final(self)@ == old(self)@.started(),
            r.config@ == old(self)@.config,
            r.start_initial == (old(self)@.initial == InitialEvaluation::Idle),
    {
        let config = self.config.clone();
        let start_initial = self.start_initial_evaluation();
        WatchStart { config, start_initial }
    }

    /// Begins a watch with a bounded buffer, and says how many items the buffer holds: a
    /// capacity of zero is taken as one.
    pub fn watch_bounded(&mut self, capacity: usize) -> (r: (usize, WatchStart))
        ensures
            r.0 == if capacity == 0 {
                1usize
            } else {
                capacity
            },
            final(self)@ == old(self)@.started(),
            r.1.config@ == old(self)@.config,
            r.1.start_initial == (old(self)@.initial == InitialEvaluation::Idle),
    {
        (bounded_capacity(capacity), self.watch())
    }

    /// Takes the outcome of the initial evaluation, and says what its stream reports at its
    /// end. A completed evaluation becomes the warm state. The graph of a cancelled one is
    /// partial: it is dropped, and the cancellation is stored as the session's failure.
    pub fn evaluate_initial(&mut self, result: Result<Evaluation, ErrorChain>) -> (r: Option<Error>)
        ensures
            final(self)@ == old(self)@.ended(run_view(result)),
            match r {
                Some(e) => SessionView::end_error(run_view(result)) == Some(e@),
                None => SessionView::end_error(run_view(result)) is None,
            },
    {
        match result {
            Ok(found) => match found.outcome {
                RunOutcome::Completed => {
                    self.state.fill(found.graph, found.errors);
                    self.finish_initial_evaluation();
                    None
                },
                RunOutcome::Cancelled => {
                    self.record_initial_error(Error::Cancelled.message());
                    Some(Error::Cancelled)
                },
            },
            Err(err) => {
                self.record_initial_error(err.message());
                Some(Error::internal(err))
            },
        }
    }

    fn finish_initial_evaluation(&mut self)
        ensures
            final(self)@ == (SessionView {
                initial: InitialEvaluation::Finished,
                ..old(self)@
            }),
    {
        self.initial = InitialEvaluation::Finished;
    }

    fn record_initial_error(&mut self, error: String)
        ensures
            final(self)@ == old(self)@.failed(error@),
    {
        self.state.error = Some(error);
        self.finish_initial_evaluation();
    }

    /// Takes note that the evaluation could not be started because there is no runtime, and
    /// says what the stream reports.
    pub fn spawn_failed(&mut self) -> (r: Error)
        ensures
            final(self)@ == old(self)@.failed(no_runtime_text()),
            r@ == ErrorView::RuntimeUnavailable(no_runtime_text()),
    {
        let message = "Session streams require an active Tokio runtime".to_owned();
        self.record_initial_error(message.clone());
        Error::RuntimeUnavailable { message }
    }

    fn require_warm(&self, operation: Operation) -> (r: Result<(), Error>)
        ensures
            match r {
                Ok(()) => self@.not_warm(operation) is None,
                Err(e) => self@.not_warm(operation) == Some(e@),
            },
    {
        if self.state.completed {
            return Ok(());
        }
        match &self.state.error {
            Some(error) => Err(Error::EvaluationFailed { message: error.clone() }),
            None => Err(Error::InitialEvaluationIncomplete { operation }),
        }
    }

    /// Queries a snapshot of the warm derivation graph.
    ///
    /// An initial evaluation must have completed before this is called.
    pub fn query_snapshot(&self, filter: &Filter) -> (r: Result<Vec<Derivation>, Error>)
        ensures
            match r {
                Ok(drvs) => {
                    &&& self@.not_warm(Operation::QuerySnapshot) is None
                    &&& derivations_view(drvs@) == self@.warm.graph.matching(filter@)
                },
                Err(e) => self@.not_warm(Operation::QuerySnapshot) == Some(e@),
            },
    {
        match self.require_warm(Operation::QuerySnapshot) {
            Ok(()) => Ok(self.state.graph.matching(filter)),
            Err(e) => Err(e),
        }
    }

    /// Another spelling of [`Self::query_snapshot`].
    pub fn query(&self, filter: &Filter) -> (r: Result<Vec<Derivation>, Error>)
        ensures
            match r {
                Ok(drvs) => {
                    &&& self@.not_warm(Operation::QuerySnapshot) is None
                    &&& derivations_view(drvs@) == self@.warm.graph.matching(filter@)
                },
                Err(e) => self@.not_warm(Operation::QuerySnapshot) == Some(e@),
            },
    {
        self.query_snapshot(filter)
    }

    /// The graph that a new evaluation is to be compared with.
    pub fn diff_previous(&self) -> (r: Result<EvalGraph, Error>)
        ensures
            match r {
                Ok(graph) => {
                    &&& self@.not_warm(Operation::DiffOnce) is None
                    &&& graph@ == self@.warm.graph
                },
                Err(e) => self@.not_warm(Operation::DiffOnce) == Some(e@),
            },
    {
        match self.require_warm(Operation::DiffOnce) {
            Ok(()) => Ok(self.state.graph.clone()),
            Err(e) => Err(e),
        }
    }

    /// Compares a full re-evaluation with the graph before it, and keeps its outcome. A failed
    /// or cancelled re-evaluation is an error and leaves the session as it was.
    pub fn diff_once(&mut self, previous: &EvalGraph, result: Result<Evaluation, ErrorChain>) -> (r:
        Result<Diff, Error>)
        ensures
            match run_view(result) {
                RunView::Completed(graph, errors) => {
                    &&& r matches Ok(diff) && diff@ == diff_of(previous@, graph, errors)
                    &&& final(self)@ == (SessionView {
                        warm: WarmView::filled(graph, errors),
                        ..old(self)@
                    })
                },
                RunView::Cancelled => {
                    &&& r matches Err(e) && e@ == ErrorView::Cancelled
                    &&& final(self)@ == old(self)@
                },
                RunView::Failed(chain) => {
                    &&& r matches Err(e) && e@ == ErrorView::of_chain(chain)
                    &&& final(self)@ == old(self)@
                },
            },
    {
        match result {
            Err(err) => Err(Error::internal(err)),
            Ok(found) => {
                if found.outcome == RunOutcome::Cancelled {
                    return Err(Error::Cancelled);
                }
                let errors = crate::model::copy_errors(&found.errors);
                let diff = diff_graphs(previous, &found.graph, errors);
                self.state.fill(found.graph, found.errors);
                Ok(diff)
            },
        }
    }

    /// Whether an evaluation has completed.
    pub fn is_completed(&self) -> (r: bool)
        ensures
            r == self@.warm.completed,
    {
        self.state.completed
    }

    /// Requests cancellation of this session's active evaluation or watch.
    pub fn cancel(&mut self)
        ensures
            final(self)@ == (SessionView { cancelled: true, ..old(self)@ }),
    {
        self.cancelled = true;
    }

    /// Rejects a session that has not completed an evaluation.
    pub fn require_completed(&self) -> (r: Result<(), Error>)
        ensures
            match r {
                Ok(()) => self@.warm.completed,
                Err(e) => !self@.warm.completed && e@ == match self@.warm.error {
                    Some(message) => ErrorView::EvaluationFailed(message),
                    None => ErrorView::SessionStillEvaluating,
                },
            },
    {
        if self.state.completed {
            return Ok(());
        }
        match &self.state.error {
            Some(error) => Err(Error::EvaluationFailed { message: error.clone() }),
            None => Err(Error::SessionStillEvaluating),
        }
    }
}

/// The stream is single-use: once it was asked for, nobody gets it again, whatever the
/// evaluation came to.
pub proof fn law_stream_is_single_use(s: SessionView, run: RunView)
    ensures
        s.started().initial != InitialEvaluation::Idle,
        s.started().ended(run).initial == InitialEvaluation::Finished,
        s.started().started() == s.started(),
        s.started().ended(run).started() == s.started().ended(run),
{
}

/// A failed or cancelled initial evaluation is reported again by every later stream, query and
/// diff, with the message that the stream reported.
pub proof fn law_failure_is_reported_again(config: ConfigView, run: RunView)
    requires
        !(run is Completed),
    ensures
        ({
            let s = SessionView::opened(config).started().ended(run);
            let message = SessionView::end_error(run)->Some_0.text();
            &&& s.unavailable() == ErrorView::EvaluationFailed(message)
            &&& s.not_warm(Operation::QuerySnapshot) == Some(ErrorView::EvaluationFailed(message))
            &&& s.not_warm(Operation::DiffOnce) == Some(ErrorView::EvaluationFailed(message))
        }),
{
}

/// A cancelled initial evaluation leaves no part of its graph behind.
pub proof fn law_cancelled_graph_is_dropped(config: ConfigView)
    ensures
        ({
            let s = SessionView::opened(config).started().ended(RunView::Cancelled);
            &&& s.warm.graph == WarmView::cold().graph
            &&& !s.warm.completed
        }),
{
}

/// Once an initial evaluation has completed, queries and diffs are answered from its graph.
pub proof fn law_completed_session_is_warm(
    s: SessionView,
    graph: GraphView,
    errors: Seq<EvalErrorView>,
)
    ensures
        ({
            let after = s.started().ended(RunView::Completed(graph, errors));
            &&& after.warm.completed
            &&& after.warm.graph == graph
            &&& after.not_warm(Operation::QuerySnapshot) is None
            &&& after.not_warm(Operation::DiffOnce) is None
        }),
{
}

/// Before an evaluation has ended, queries and diffs are refused as premature.
pub proof fn law_queries_wait_for_evaluation(config: ConfigView, operation: Operation)
    ensures
        SessionView::opened(config).not_warm(operation) == Some(
            ErrorView::InitialEvaluationIncomplete(operation),
        ),
        SessionView::opened(config).started().not_warm(operation) == Some(
            ErrorView::InitialEvaluationIncomplete(operation),
        ),
{
}

/// A new session has the configuration that it was opened with, and nothing has been evaluated,
/// cancelled or asked for.
pub proof fn law_new_sessions_are_idle(config: ConfigView)
    ensures
        SessionView::opened(config).config == config,
        !SessionView::opened(config).cancelled,
        SessionView::opened(config).initial == InitialEvaluation::Idle,
        !SessionView::opened(config).warm.completed,
        SessionView::opened(config).warm.error is None,
        SessionView::opened(config).warm.graph.paths.len() == 0,
        SessionView::opened(config).warm.errors.len() == 0,
{
}

/// Asking for the initial evaluation starts it where nobody has asked before, and changes
/// nothing else.
pub proof fn law_starting_changes_nothing_else(s: SessionView)
    ensures
        s.started().config == s.config,
        s.started().cancelled == s.cancelled,
        s.started().warm == s.warm,
        s.initial == InitialEvaluation::Idle ==> s.started().initial == InitialEvaluation::Running,
        s.initial != InitialEvaluation::Idle ==> s.started().initial == s.initial,
{
}

/// What a run came to is what it says: found everything, was cancelled, or failed with its chain
/// of messages.
pub proof fn law_runs_say_how_they_ended(found: Evaluation, err: ErrorChain)
    ensures
        found.outcome == RunOutcome::Completed ==> (run_view(
            Ok::<Evaluation, ErrorChain>(found),
        ) matches RunView::Completed(graph, errors) && graph == found.graph@ && errors.len()
            == found.errors@.len() && forall|i: int|
            0 <= i < errors.len() ==> #[trigger] errors[i] == found.errors@[i]@),
        found.outcome == RunOutcome::Cancelled ==> run_view(Ok::<Evaluation, ErrorChain>(found))
            == RunView::Cancelled,
        run_view(Err::<Evaluation, ErrorChain>(err)) == RunView::Failed(err@),
{
}

/// The end of an initial evaluation keeps the configuration and whether the session was
/// cancelled. A completed one keeps what was found and forgets earlier failures; any other keeps
/// what there was and stores why.
pub proof fn law_ends_are_stored(
    s: SessionView,
    graph: GraphView,
    errors: Seq<EvalErrorView>,
    chain: Seq<Seq<char>>,
)
    ensures
        ({
            let done = s.ended(RunView::Completed(graph, errors));
            &&& done.config == s.config && done.cancelled == s.cancelled
            &&& done.initial == InitialEvaluation::Finished
            &&& done.warm.graph == graph && done.warm.errors == errors
            &&& done.warm.completed && done.warm.error is None
        }),
        ({
            let lost = s.ended(RunView::Failed(chain));
            &&& lost.config == s.config && lost.cancelled == s.cancelled
            &&& lost.initial == InitialEvaluation::Finished
            &&& lost.warm.graph == s.warm.graph && lost.warm.errors == s.warm.errors
            &&& lost.warm.completed == s.warm.completed && lost.warm.error == Some(chain[0])
        }),
        ({
            let lost = s.ended(RunView::Cancelled);
            &&& lost.config == s.config && lost.cancelled == s.cancelled
            &&& lost.initial == InitialEvaluation::Finished
            &&& lost.warm.graph == s.warm.graph && lost.warm.errors == s.warm.errors
            &&& lost.warm.completed == s.warm.completed
            &&& lost.warm.error == Some("evaluation was cancelled"@)
        }),
        SessionView::end_error(RunView::Completed(graph, errors)) is None,
        SessionView::end_error(RunView::Cancelled) == Some(ErrorView::Cancelled),
        SessionView::end_error(RunView::Failed(chain)) == Some(
            ErrorView::Internal(chain[0], chain),
        ),
{
}

/// A session answers exactly when an evaluation has completed, whatever failed since; otherwise
/// it reports the failure that is stored, or that there has been no evaluation yet. A stream
/// that is asked for again reports the same failure, or that it is used up.
pub proof fn law_sessions_answer_once_completed(s: SessionView, operation: Operation)
    ensures
        s.not_warm(operation) is None <==> s.warm.completed,
        !s.warm.completed ==> (s.warm.error matches Some(message) ==> s.not_warm(operation) == Some(
            ErrorView::EvaluationFailed(message),
        )),
        !s.warm.completed && s.warm.error is None ==> s.not_warm(operation) == Some(
            ErrorView::InitialEvaluationIncomplete(operation),
        ),
        s.warm.error matches Some(message) ==> s.unavailable() == ErrorView::EvaluationFailed(
            message,
        ),
        s.warm.error is None ==> s.unavailable() == ErrorView::SessionStreamConsumed,
{
}

/// A session without a runtime says so, and keeps that as its failure.
pub proof fn law_missing_runtimes_are_stored(s: SessionView)
    ensures
        s.failed(no_runtime_text()).warm.error == Some(
            "Session streams require an active Tokio runtime"@,
        ),
        s.failed(no_runtime_text()).initial == InitialEvaluation::Finished,
        s.failed(no_runtime_text()).config == s.config,
        s.failed(no_runtime_text()).warm.completed == s.warm.completed,
        DEFAULT_STREAM_BUFFER_CAPACITY == 1024,
{
}

/// What a session says is what stands in it.
pub proof fn law_sessions_say_what_they_hold(s: Session)
    ensures
        s@.config == s.config@,
        s@.cancelled == s.cancelled,
        s@.initial == s.initial,
        s@.warm.graph == s.state.graph@,
        s@.warm.errors == errors_view(s.state.errors@),
        s@.warm.completed == s.state.completed,
        s.state.error matches Some(message) ==> s@.warm.error == Some(message@),
        s.state.error is None ==> s@.warm.error is None,
{
}

} // verus!
