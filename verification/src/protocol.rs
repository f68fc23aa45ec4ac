//! What a client and a daemon say to each other.

use vstd::prelude::*;

use crate::config::{Config as EvalConfig, ConfigView, WireView};
use crate::model::{
    args_view, pairs_view, remotes_view, AutoArg, Derivation, Diff, DiffView, Event, EventView,
    Filter, FilterView, Input, Remote,
};
use crate::text::{concat2, decimal, decimal_of, text_opt};

verus! {

/// The version of the protocol.
pub const DAEMON_PROTOCOL_VERSION: u32 = 1;

/// A configuration without what stays on the client's machine.
#[derive(Debug)]
pub struct Config {
    /// What to evaluate.
    pub input: Input,
    /// Arguments for the functions that evaluation calls by itself.
    pub auto_args: Vec<(String, AutoArg)>,
    /// Recurse into all attribute sets.
    pub force_recurse: bool,
    /// Where to register garbage-collector roots.
    pub gc_roots_dir: Option<String>,
    /// How many local workers to run.
    pub workers: usize,
    /// The memory limit of a worker, in mebibytes.
    pub max_memory_size: usize,
    /// Per-attribute evaluation timeout in seconds.
    pub item_timeout_seconds: u64,
    /// Attach `meta` attributes.
    pub meta: bool,
    /// Attach input derivations.
    pub show_input_drvs: bool,
    /// Flake input overrides.
    pub override_inputs: Vec<(String, String)>,
    /// Nix settings.
    pub nix_options: Vec<(String, String)>,
    /// Remote worker endpoints.
    pub remotes: Vec<Remote>,
}

impl View for Config {
    type V = WireView;

    open spec fn view(&self) -> WireView {
        WireView {
            input: self.input@,
            auto_args: args_view(self.auto_args@),
            force_recurse: self.force_recurse,
            gc_roots_dir: text_opt(self.gc_roots_dir),
            workers: self.workers,
            max_memory_size: self.max_memory_size,
            item_timeout_seconds: self.item_timeout_seconds,
            meta: self.meta,
            show_input_drvs: self.show_input_drvs,
            override_inputs: pairs_view(self.override_inputs@),
            nix_options: pairs_view(self.nix_options@),
            remotes: remotes_view(self.remotes@),
        }
    }
}

/// What a client asks of a daemon.
#[derive(Debug)]
pub enum Request {
    /// Evaluate, and stream the events.
    Eval { protocol_version: u32, config: EvalConfig },
    /// Evaluate, and stream what changes.
    Watch { protocol_version: u32, config: EvalConfig },
    /// List derivations of a warm session.
    Query { protocol_version: u32, config: EvalConfig, filter: Filter },
    /// Evaluate again, and say what changed.
    Diff { protocol_version: u32, config: EvalConfig },
}

/// What a [`Request`] says.
pub enum RequestView {
    /// See [`Request::Eval`].
    Eval(u32, ConfigView),
    /// See [`Request::Watch`].
    Watch(u32, ConfigView),
    /// See [`Request::Query`].
    Query(u32, ConfigView, FilterView),
    /// See [`Request::Diff`].
    Diff(u32, ConfigView),
}

impl View for Request {
    type V = RequestView;

    open spec fn view(&self) -> RequestView {
        match *self {
            Request::Eval { protocol_version, config } => RequestView::Eval(
                protocol_version,
                config@,
            ),
            Request::Watch { protocol_version, config } => RequestView::Watch(
                protocol_version,
                config@,
            ),
            Request::Query { protocol_version, config, filter } => RequestView::Query(
                protocol_version,
                config@,
                filter@,
            ),
            Request::Diff { protocol_version, config } => RequestView::Diff(
                protocol_version,
                config@,
            ),
        }
    }
}

impl RequestView {
    /// The version that the request speaks.
    pub open spec fn version(self) -> u32 {
        match self {
            RequestView::Eval(v, _) => v,
            RequestView::Watch(v, _) => v,
            RequestView::Query(v, _, _) => v,
            RequestView::Diff(v, _) => v,
        }
    }
}

impl Request {
    /// A request to evaluate.
    pub fn eval(config: &EvalConfig) -> (r: Self)
        ensures
            r@ == RequestView::Eval(DAEMON_PROTOCOL_VERSION, config@),
    {
        Request::Eval { protocol_version: DAEMON_PROTOCOL_VERSION, config: config.clone() }
    }

    /// A request to watch.
    pub fn watch(config: &EvalConfig) -> (r: Self)
        ensures
            r@ == RequestView::Watch(DAEMON_PROTOCOL_VERSION, config@),
    {
        Request::Watch { protocol_version: DAEMON_PROTOCOL_VERSION, config: config.clone() }
    }

    /// A request to list derivations.
    pub fn query(config: &EvalConfig, filter: &Filter) -> (r: Self)
        ensures
            r@ == RequestView::Query(DAEMON_PROTOCOL_VERSION, config@, filter@),
    {
        Request::Query {
            protocol_version: DAEMON_PROTOCOL_VERSION,
            config: config.clone(),
            filter: filter.clone(),
        }
    }

    /// A request to say what changed.
    pub fn diff(config: &EvalConfig) -> (r: Self)
        ensures
            r@ == RequestView::Diff(DAEMON_PROTOCOL_VERSION, config@),
    {
        Request::Diff { protocol_version: DAEMON_PROTOCOL_VERSION, config: config.clone() }
    }

    /// Rejects a request of another version of the protocol.
    pub fn validate_protocol(&self) -> (r: Result<(), ProtocolVersionError>)
        ensures
            match r {
                Ok(()) => self@.version() == DAEMON_PROTOCOL_VERSION,
                Err(e) => {
                    &&& self@.version() != DAEMON_PROTOCOL_VERSION
                    &&& e.actual == self@.version()
                    &&& e.expected == DAEMON_PROTOCOL_VERSION
                },
            },
    {
        let actual: u32 = match self {
            Request::Eval { protocol_version, config: _ } => *protocol_version,
            Request::Watch { protocol_version, config: _ } => *protocol_version,
            Request::Query { protocol_version, config: _, filter: _ } => *protocol_version,
            Request::Diff { protocol_version, config: _ } => *protocol_version,
        };
        if actual == DAEMON_PROTOCOL_VERSION {
            Ok(())
        } else {
            Err(ProtocolVersionError { actual, expected: DAEMON_PROTOCOL_VERSION })
        }
    }
}

/// A request of another version of the protocol.
#[derive(Debug, Clone, Copy, PartialEq, Eq, Structural)]
pub struct ProtocolVersionError {
    /// The version that was asked for.
    pub actual: u32,
    /// The version that is spoken.
    pub expected: u32,
}

impl ProtocolVersionError {
    /// The text of the error.
    pub open spec fn text(self) -> Seq<char> {
        "unsupported daemon protocol version "@ + decimal_of(self.actual as nat) + "; expected "@
            + decimal_of(self.expected as nat)
    }

    /// The text of the error.
    pub fn message(&self) -> (r: String)
        ensures
            r@ == self.text(),
    {
        let mut out = concat2(
            "unsupported daemon protocol version ",
            decimal(self.actual as u64).as_str(),
        );
        out.append("; expected ");
        out.append(decimal(self.expected as u64).as_str());
        out
    }
}

/// What a daemon answers.
#[derive(Debug)]
pub enum Response {
    /// An event of an evaluation.
    Event { event: Event },
    /// What changed.
    Diff { diff: Diff },
    /// The request is complete.
    Done,
    /// Something failed.
    Error { message: String },
}

/// What a [`Response`] says.
pub enum ResponseView {
    /// See [`Response::Event`].
    Event(EventView),
    /// See [`Response::Diff`].
    Diff(DiffView),
    /// See [`Response::Done`].
    Done,
    /// See [`Response::Error`].
    Error(Seq<char>),
}

impl View for Response {
    type V = ResponseView;

    open spec fn view(&self) -> ResponseView {
        match *self {
            Response::Event { event } => ResponseView::Event(event@),
            Response::Diff { diff } => ResponseView::Diff(diff@),
            Response::Done => ResponseView::Done,
            Response::Error { message } => ResponseView::Error(message@),
        }
    }
}

impl Response {
    /// The answer that carries an event.
    pub fn event(event: &Event) -> (r: Self)
        ensures
            r@ == ResponseView::Event(event@),
    {
        Response::Event { event: event.clone() }
    }

    /// The answer that carries a derivation.
    pub fn derivation_event(derivation: &Derivation) -> (r: Self)
        ensures
            r@ == ResponseView::Event(EventView::Derivation(derivation@)),
    {
        Response::Event { event: Event::Derivation(derivation.clone()) }
    }

    /// The answer that carries a diff.
    pub fn diff(diff: &Diff) -> (r: Self)
        ensures
            r@ == ResponseView::Diff(diff@),
    {
        Response::Diff { diff: diff.clone() }
    }

    /// The answer that carries an error.
    pub fn error(message: &str) -> (r: Self)
        ensures
            r@ == ResponseView::Error(message@),
    {
        Response::Error { message: message.to_owned() }
    }
}

/// A request speaks the version that stands in it, and says its configuration and its filter.
pub proof fn law_requests_say_their_version(v: u32, config: EvalConfig, filter: Filter)
    ensures
        (Request::Eval { protocol_version: v, config })@ == RequestView::Eval(v, config@),
        (Request::Watch { protocol_version: v, config })@ == RequestView::Watch(v, config@),
        (Request::Query { protocol_version: v, config, filter })@ == RequestView::Query(
            v,
            config@,
            filter@,
        ),
        (Request::Diff { protocol_version: v, config })@ == RequestView::Diff(v, config@),
        RequestView::Eval(v, config@).version() == v,
        RequestView::Watch(v, config@).version() == v,
        RequestView::Query(v, config@, filter@).version() == v,
        RequestView::Diff(v, config@).version() == v,
{
}

/// A version that is not spoken is named with the one that is, each in decimal.
pub proof fn law_version_errors_name_both(e: ProtocolVersionError, a: Seq<char>, b: Seq<char>)
    requires
        a == decimal_of(e.actual as nat),
        b == decimal_of(e.expected as nat),
    ensures
        e.text() == "unsupported daemon protocol version "@ + a + "; expected "@ + b,
        crate::text::number_of(a) == e.actual,
        crate::text::number_of(b) == e.expected,
{
    crate::text::law_decimal_digits_write_the_number(e.actual as nat);
    crate::text::law_decimal_digits_write_the_number(e.expected as nat);
}

/// What an answer says is what stands in it, and so is what a configuration that travels says.
pub proof fn law_responses_say_what_they_hold(
    event: Event,
    diff: Diff,
    message: String,
    config: Config,
)
    ensures
        (Response::Event { event })@ == ResponseView::Event(event@),
        (Response::Diff { diff })@ == ResponseView::Diff(diff@),
        Response::Done@ == ResponseView::Done,
        (Response::Error { message })@ == ResponseView::Error(message@),
        config@.input == config.input@,
        config@.auto_args == args_view(config.auto_args@),
        config@.force_recurse == config.force_recurse,
        config@.gc_roots_dir == text_opt(config.gc_roots_dir),
        config@.workers == config.workers,
        config@.max_memory_size == config.max_memory_size,
        config@.item_timeout_seconds == config.item_timeout_seconds,
        config@.meta == config.meta,
        config@.show_input_drvs == config.show_input_drvs,
        config@.override_inputs == pairs_view(config.override_inputs@),
        config@.nix_options == pairs_view(config.nix_options@),
        config@.remotes == remotes_view(config.remotes@),
{
}

/// Clients and daemons speak the first version of their protocol.
pub proof fn law_clients_and_daemons_speak_one_version()
    ensures
        DAEMON_PROTOCOL_VERSION == 1,
{
}

} // verus!
