//! The command line: what a command does, how it talks to a daemon, and how much it logs.

use vstd::prelude::*;

use crate::config::{Config, ConfigView, WireView};
use crate::daemon::{IoFailure, IoKind};
use crate::error::ErrorChain;
use crate::flake_ref::{daemon_flake_ref, flake_path_to_resolve, path_to_resolve};
use crate::model::{Diff, Event, Filter, FilterView, Input, InputView};
use crate::protocol::{Request, RequestView, Response, ResponseView, DAEMON_PROTOCOL_VERSION};
use crate::text::{concat2, joined, quoted, text_opt, trim, trimmed, Blank};

verus! {

/// What a command line asks for.
#[derive(Debug)]
pub enum CommandPlan {
    /// Evaluate.
    Eval { config: Config, socket: Option<String>, use_daemon: bool },
    /// Watch.
    Watch { config: Config, socket: Option<String>, use_daemon: bool },
    /// List derivations of a warm session.
    Query { config: Config, filter: Filter, socket: Option<String> },
    /// Say what changed.
    Diff { config: Config, socket: Option<String> },
    /// Be a daemon.
    Daemon { socket: Option<String>, foreground: bool },
    /// Be a remote worker.
    Worker { listen: String, token: Option<String> },
}

/// What is run without a daemon.
#[derive(Debug)]
pub enum LocalRun {
    /// An evaluation.
    Eval(Config),
    /// A watch.
    Watch(Config),
}

/// What a [`LocalRun`] says.
pub enum LocalView {
    /// See [`LocalRun::Eval`].
    Eval(ConfigView),
    /// See [`LocalRun::Watch`].
    Watch(ConfigView),
}

impl View for LocalRun {
    type V = LocalView;

    open spec fn view(&self) -> LocalView {
        match *self {
            LocalRun::Eval(c) => LocalView::Eval(c@),
            LocalRun::Watch(c) => LocalView::Watch(c@),
        }
    }
}

/// What a command does.
#[derive(Debug)]
pub enum PlanAction {
    /// Run it here.
    Local(LocalRun),
    /// Ask a daemon; where there is none, run it here.
    ClientOrLocal { request: Request, socket: Option<String>, local: LocalRun },
    /// Ask a daemon.
    DaemonOnly { request: Request, socket: Option<String> },
    /// Be a daemon.
    Daemon { socket: Option<String>, foreground: bool },
    /// Be a remote worker.
    Worker { listen: String, token: Option<String> },
}

/// What a [`PlanAction`] says.
#[verifier::ext_equal]
pub enum ActionView {
    /// See [`PlanAction::Local`].
    Local(LocalView),
    /// See [`PlanAction::ClientOrLocal`].
    ClientOrLocal(RequestView, Option<Seq<char>>, LocalView),
    /// See [`PlanAction::DaemonOnly`].
    DaemonOnly(RequestView, Option<Seq<char>>),
    /// See [`PlanAction::Daemon`].
    Daemon(Option<Seq<char>>, bool),
    /// See [`PlanAction::Worker`].
    Worker(Seq<char>, Option<Seq<char>>),
}

impl View for PlanAction {
    type V = ActionView;

    open spec fn view(&self) -> ActionView {
        match *self {
            PlanAction::Local(local) => ActionView::Local(local@),
            PlanAction::ClientOrLocal { request, socket, local } => ActionView::ClientOrLocal(
                request@,
                text_opt(socket),
                local@,
            ),
            PlanAction::DaemonOnly { request, socket } => ActionView::DaemonOnly(
                request@,
                text_opt(socket),
            ),
            PlanAction::Daemon { socket, foreground } => ActionView::Daemon(
                text_opt(socket),
                foreground,
            ),
            PlanAction::Worker { listen, token } => ActionView::Worker(listen@, text_opt(token)),
        }
    }
}

/// The request that a command makes of a daemon, if it may make one.
pub open spec fn plan_request(plan: CommandPlan) -> Option<RequestView> {
    match plan {
        CommandPlan::Eval { config, use_daemon, .. } => if use_daemon {
            Some(RequestView::Eval(DAEMON_PROTOCOL_VERSION, config@))
        } else {
            None
        },
        CommandPlan::Watch { config, use_daemon, .. } => if use_daemon {
            Some(RequestView::Watch(DAEMON_PROTOCOL_VERSION, config@))
        } else {
            None
        },
        CommandPlan::Query { config, filter, .. } => Some(
            RequestView::Query(DAEMON_PROTOCOL_VERSION, config@, filter@),
        ),
        CommandPlan::Diff { config, .. } => Some(
            RequestView::Diff(DAEMON_PROTOCOL_VERSION, config@),
        ),
        _ => None,
    }
}

/// What a command does with the request that it makes of a daemon.
pub open spec fn plan_action(plan: CommandPlan, sent: Option<RequestView>) -> ActionView {
    match plan {
        CommandPlan::Eval { config, socket, .. } => match sent {
            Some(request) => ActionView::ClientOrLocal(
                request,
                text_opt(socket),
                LocalView::Eval(config@),
            ),
            None => ActionView::Local(LocalView::Eval(config@)),
        },
        CommandPlan::Watch { config, socket, .. } => match sent {
            Some(request) => ActionView::ClientOrLocal(
                request,
                text_opt(socket),
                LocalView::Watch(config@),
            ),
            None => ActionView::Local(LocalView::Watch(config@)),
        },
        CommandPlan::Query { socket, .. } => ActionView::DaemonOnly(sent->Some_0, text_opt(socket)),
        CommandPlan::Diff { socket, .. } => ActionView::DaemonOnly(sent->Some_0, text_opt(socket)),
        CommandPlan::Daemon { socket, foreground } => ActionView::Daemon(
            text_opt(socket),
            foreground,
        ),
        CommandPlan::Worker { listen, token } => ActionView::Worker(listen@, text_opt(token)),
    }
}

/// What a command does, or why it does nothing.
pub open spec fn plan_of(plan: CommandPlan, canonical: Result<Seq<char>, Seq<char>>) -> Result<
    ActionView,
    Seq<Seq<char>>,
> {
    match plan_request(plan) {
        None => Ok(plan_action(plan, None)),
        Some(request) => match daemon_request_of(request, canonical) {
            Ok(sent) => Ok(plan_action(plan, Some(sent))),
            Err(chain) => Err(chain),
        },
    }
}

/// What a command does, where `canonical` is the canonical form of the path of its input, or
/// why there is none.
pub fn run_plan(plan: CommandPlan, canonical: &Result<String, String>) -> (r: Result<
    PlanAction,
    ErrorChain,
>)
    ensures
        match plan_of(plan, canonical_view(*canonical)) {
            Ok(action) => r matches Ok(a) && a@ == action,
            Err(chain) => r matches Err(e) && e@ == chain,
        },
        match plan {
            CommandPlan::Eval { config, socket, use_daemon } => if use_daemon {
                match daemon_config_of(config@, canonical_view(*canonical)) {
                    Ok(sent) => r matches Ok(PlanAction::ClientOrLocal { request, socket: s, local })
                        && request@ == RequestView::Eval(DAEMON_PROTOCOL_VERSION, sent) && s
                        == socket && local@ == LocalView::Eval(config@),
                    Err(chain) => r matches Err(e) && e@ == chain,
                }
            } else {
                r matches Ok(PlanAction::Local(local)) && local@ == LocalView::Eval(config@)
            },
            CommandPlan::Watch { config, socket, use_daemon } => if use_daemon {
                match daemon_config_of(config@, canonical_view(*canonical)) {
                    Ok(sent) => r matches Ok(PlanAction::ClientOrLocal { request, socket: s, local })
                        && request@ == RequestView::Watch(DAEMON_PROTOCOL_VERSION, sent) && s
                        == socket && local@ == LocalView::Watch(config@),
                    Err(chain) => r matches Err(e) && e@ == chain,
                }
            } else {
                r matches Ok(PlanAction::Local(local)) && local@ == LocalView::Watch(config@)
            },
            CommandPlan::Query { config, filter, socket } => match daemon_config_of(
                config@,
                canonical_view(*canonical),
            ) {
                Ok(sent) => r matches Ok(PlanAction::DaemonOnly { request, socket: s }) && request@
                    == RequestView::Query(DAEMON_PROTOCOL_VERSION, sent, filter@) && s == socket,
                Err(chain) => r matches Err(e) && e@ == chain,
            },
            CommandPlan::Diff { config, socket } => match daemon_config_of(
                config@,
                canonical_view(*canonical),
            ) {
                Ok(sent) => r matches Ok(PlanAction::DaemonOnly { request, socket: s }) && request@
                    == RequestView::Diff(DAEMON_PROTOCOL_VERSION, sent) && s == socket,
                Err(chain) => r matches Err(e) && e@ == chain,
            },
            CommandPlan::Daemon { socket, foreground } => r == Ok::<PlanAction, ErrorChain>(
                (PlanAction::Daemon { socket, foreground }),
            ),
            CommandPlan::Worker { listen, token } => r == Ok::<PlanAction, ErrorChain>(
                (PlanAction::Worker { listen, token }),
            ),
        },
{
    match plan {
        CommandPlan::Eval { config, socket, use_daemon } => {
            if use_daemon {
                let request = daemon_request(Request::eval(&config), canonical)?;
                Ok(PlanAction::ClientOrLocal { request, socket, local: LocalRun::Eval(config) })
            } else {
                Ok(PlanAction::Local(LocalRun::Eval(config)))
            }
        },
        CommandPlan::Watch { config, socket, use_daemon } => {
            if use_daemon {
                let request = daemon_request(Request::watch(&config), canonical)?;
                Ok(PlanAction::ClientOrLocal { request, socket, local: LocalRun::Watch(config) })
            } else {
                Ok(PlanAction::Local(LocalRun::Watch(config)))
            }
        },
        CommandPlan::Query { config, filter, socket } => {
            let request = daemon_request(Request::query(&config, &filter), canonical)?;
            Ok(PlanAction::DaemonOnly { request, socket })
        },
        CommandPlan::Diff { config, socket } => {
            let request = daemon_request(Request::diff(&config), canonical)?;
            Ok(PlanAction::DaemonOnly { request, socket })
        },
        CommandPlan::Daemon { socket, foreground } => Ok(PlanAction::Daemon { socket, foreground }),
        CommandPlan::Worker { listen, token } => Ok(PlanAction::Worker { listen, token }),
    }
}

/// The canonical form of a path, or why there is none.
pub open spec fn canonical_view(canonical: Result<String, String>) -> Result<Seq<char>, Seq<char>> {
    match canonical {
        Ok(s) => Ok(s@),
        Err(s) => Err(s@),
    }
}

/// The path of an input that is to be made canonical before a daemon gets it.
pub open spec fn input_path(input: InputView) -> Option<Seq<char>> {
    match input {
        InputView::File(path) => Some(path),
        InputView::Flake(reference) => match path_to_resolve(reference) {
            Some((path, _)) => Some(path),
            None => None,
        },
        InputView::Expr(_) => None,
    }
}

/// The path of an input that is to be made canonical before a daemon gets it.
pub fn path_to_canonicalize(config: &Config) -> (r: Option<String>)
    ensures
        text_opt(r) == input_path(config@.wire.input),
{
    match &config.input {
        Input::File(path) => Some(path.clone()),
        Input::Flake(reference) => match flake_path_to_resolve(reference.as_str()) {
            Some((path, _)) => Some(path),
            None => None,
        },
        Input::Expr(_) => None,
    }
}

/// The input that a daemon gets: one that means the same in its working directory.
pub open spec fn daemon_input_of(
    input: InputView,
    canonical: Result<Seq<char>, Seq<char>>,
) -> Result<InputView, Seq<Seq<char>>> {
    match input {
        InputView::File(path) => match canonical {
            Ok(c) => Ok(InputView::File(c)),
            Err(cause) => Err(seq!["canonicalizing input file "@ + path, cause]),
        },
        InputView::Flake(reference) => match path_to_resolve(reference) {
            None => Ok(InputView::Flake(reference)),
            Some((path, fragment)) => match canonical {
                Ok(c) => Ok(InputView::Flake("path:"@ + c + fragment)),
                Err(cause) => Err(seq!["canonicalizing flake path "@ + quoted(path), cause]),
            },
        },
        InputView::Expr(s) => Ok(InputView::Expr(s)),
    }
}

/// The configuration that a daemon gets.
pub open spec fn daemon_config_of(
    config: ConfigView,
    canonical: Result<Seq<char>, Seq<char>>,
) -> Result<ConfigView, Seq<Seq<char>>> {
    match daemon_input_of(config.wire.input, canonical) {
        Ok(input) => Ok(config.with_wire(WireView { input, ..config.wire })),
        Err(chain) => Err(chain),
    }
}

/// The configuration that a daemon gets, where `canonical` is the canonical form of the path
/// of its input, or why there is none.
pub fn daemon_config(config: Config, canonical: &Result<String, String>) -> (r: Result<
    Config,
    ErrorChain,
>)
    ensures
        match r {
            Ok(c) => daemon_config_of(config@, canonical_view(*canonical)) == Ok::<
                ConfigView,
                Seq<Seq<char>>,
            >(c@),
            Err(e) => daemon_config_of(config@, canonical_view(*canonical)) == Err::<
                ConfigView,
                Seq<Seq<char>>,
            >(e@),
        },
{
    let mut config = config;
    let input = match &config.input {
        Input::File(path) => match canonical {
            Ok(c) => Input::File(c.clone()),
            Err(cause) => {
                let e = ErrorChain::new(cause.as_str()).context(
                    concat2("canonicalizing input file ", path.as_str()).as_str(),
                );
                proof {
                    assert(e@ =~= seq!["canonicalizing input file "@ + path@, cause@]);
                }
                return Err(e);
            },
        },
        Input::Flake(reference) => {
            let s = daemon_flake_ref(reference.as_str(), canonical)?;
            Input::Flake(s)
        },
        Input::Expr(s) => Input::Expr(s.clone()),
    };
    config.input = input;
    Ok(config)
}

/// The request that a daemon gets.
pub open spec fn daemon_request_of(
    request: RequestView,
    canonical: Result<Seq<char>, Seq<char>>,
) -> Result<RequestView, Seq<Seq<char>>> {
    match request {
        RequestView::Eval(v, config) => match daemon_config_of(config, canonical) {
            Ok(c) => Ok(RequestView::Eval(v, c)),
            Err(chain) => Err(chain),
        },
        RequestView::Watch(v, config) => match daemon_config_of(config, canonical) {
            Ok(c) => Ok(RequestView::Watch(v, c)),
            Err(chain) => Err(chain),
        },
        RequestView::Query(v, config, filter) => match daemon_config_of(config, canonical) {
            Ok(c) => Ok(RequestView::Query(v, c, filter)),
            Err(chain) => Err(chain),
        },
        RequestView::Diff(v, config) => match daemon_config_of(config, canonical) {
            Ok(c) => Ok(RequestView::Diff(v, c)),
            Err(chain) => Err(chain),
        },
    }
}

/// The request that a daemon gets: the same, with an input that means the same in the daemon's
/// working directory.
pub fn daemon_request(request: Request, canonical: &Result<String, String>) -> (r: Result<
    Request,
    ErrorChain,
>)
    ensures
        match r {
            Ok(d) => daemon_request_of(request@, canonical_view(*canonical)) == Ok::<
                RequestView,
                Seq<Seq<char>>,
            >(d@),
            Err(e) => daemon_request_of(request@, canonical_view(*canonical)) == Err::<
                RequestView,
                Seq<Seq<char>>,
            >(e@),
        },
{
    match request {
        Request::Eval { protocol_version, config } => {
            let config = daemon_config(config, canonical)?;
            Ok(Request::Eval { protocol_version, config })
        },
        Request::Watch { protocol_version, config } => {
            let config = daemon_config(config, canonical)?;
            Ok(Request::Watch { protocol_version, config })
        },
        Request::Query { protocol_version, config, filter } => {
            let config = daemon_config(config, canonical)?;
            Ok(Request::Query { protocol_version, config, filter })
        },
        Request::Diff { protocol_version, config } => {
            let config = daemon_config(config, canonical)?;
            Ok(Request::Diff { protocol_version, config })
        },
    }
}

/// Whether a command that finds no daemon runs without one: only where there is no socket.
pub fn allows_local_fallback(kind: IoKind) -> (r: bool)
    ensures
        r == (kind == IoKind::NotFound),
{
    kind == IoKind::NotFound
}

/// What a failure to reach a daemon is reported as.
pub fn daemon_connect_context(socket: &str) -> (r: String)
    ensures
        r@ == "connecting to evix daemon at "@ + socket@,
{
    concat2("connecting to evix daemon at ", socket)
}

/// The error of a daemon that cannot be reached.
pub fn daemon_connect_error(socket: &str, failure: &IoFailure) -> (r: ErrorChain)
    ensures
        r@ == seq!["connecting to evix daemon at "@ + socket@, failure.message@],
{
    let r = ErrorChain::new(failure.message.as_str()).context(
        daemon_connect_context(socket).as_str(),
    );
    proof {
        assert(r@ =~= seq!["connecting to evix daemon at "@ + socket@, failure.message@]);
    }
    r
}

/// What a command does when it has tried to reach a daemon.
#[derive(Debug)]
pub enum Connected {
    /// Ask it.
    Ask,
    /// Run here.
    Fallback,
    /// Fail.
    Fail(ErrorChain),
}

/// What a command that can do without a daemon does when it has tried to reach one.
pub fn run_client_or_local(socket: &str, failure: &Option<IoFailure>) -> (r: Connected)
    ensures
        match *failure {
            None => r is Ask,
            Some(f) => if f.kind == IoKind::NotFound {
                r is Fallback
            } else {
                r matches Connected::Fail(e) && e@ == seq![
                    "connecting to evix daemon at "@ + socket@,
                    f.message@,
                ]
            },
        },
{
    match failure {
        None => Connected::Ask,
        Some(f) => {
            if allows_local_fallback(f.kind) {
                Connected::Fallback
            } else {
                Connected::Fail(daemon_connect_error(socket, f))
            }
        },
    }
}

/// What a command that needs a daemon does when it has tried to reach one.
pub fn run_daemon_only(socket: &str, failure: &Option<IoFailure>) -> (r: Connected)
    ensures
        match *failure {
            None => r is Ask,
            Some(f) => r matches Connected::Fail(e) && e@ == seq![
                "connecting to evix daemon at "@ + socket@,
                f.message@,
            ],
        },
{
    match failure {
        None => Connected::Ask,
        Some(f) => Connected::Fail(daemon_connect_error(socket, f)),
    }
}

/// What a client hears from a daemon.
#[derive(Debug)]
pub enum Reply {
    /// A line that holds nothing.
    Blank,
    /// A line that could be parsed.
    Parsed(Response),
    /// A line that could not be parsed, or could not be read.
    Bad(ErrorChain),
    /// The end of the connection.
    End,
}

/// What a client does about what it hears.
#[derive(Debug)]
pub enum ReplyAction {
    /// Read on.
    Continue,
    /// Print an event, and read on.
    PrintEvent(Event),
    /// Print a diff, and read on.
    PrintDiff(Diff),
    /// The request is complete.
    Finish,
    /// The request has failed.
    Fail(ErrorChain),
}

/// Whether a line of a daemon holds nothing.
pub fn is_blank_line(line: &str) -> (r: bool)
    ensures
        r == (trimmed(line@, Blank::White).len() == 0),
{
    trim(line, Blank::White).is_empty()
}

/// What a client does about what it hears. Only a watch may end without a word.
pub fn run_daemon_request(watching: bool, reply: Reply) -> (r: ReplyAction)
    ensures
        match reply {
            Reply::Blank => r is Continue,
            Reply::Bad(err) => r matches ReplyAction::Fail(e) && e@ == err@,
            Reply::End => if watching {
                r is Finish
            } else {
                r matches ReplyAction::Fail(e) && e@ == seq![
                    "daemon closed connection before completing request"@,
                ]
            },
            Reply::Parsed(response) => match response@ {
                ResponseView::Event(event) => r matches ReplyAction::PrintEvent(e) && e@ == event,
                ResponseView::Diff(diff) => r matches ReplyAction::PrintDiff(d) && d@ == diff,
                ResponseView::Done => r is Finish,
                ResponseView::Error(message) => r matches ReplyAction::Fail(e) && e@ == seq![
                    message,
                ],
            },
        },
{
    match reply {
        Reply::Blank => ReplyAction::Continue,
        Reply::Bad(err) => ReplyAction::Fail(err),
        Reply::End => {
            if watching {
                ReplyAction::Finish
            } else {
                ReplyAction::Fail(
                    ErrorChain::new("daemon closed connection before completing request"),
                )
            }
        },
        Reply::Parsed(Response::Event { event }) => ReplyAction::PrintEvent(event),
        Reply::Parsed(Response::Diff { diff }) => ReplyAction::PrintDiff(diff),
        Reply::Parsed(Response::Done) => ReplyAction::Finish,
        Reply::Parsed(Response::Error { message }) => ReplyAction::Fail(
            ErrorChain::from_message(message),
        ),
    }
}

/// Whether a request is answered until it is cancelled, and has no end of its own.
pub fn is_watch(request: &Request) -> (r: bool)
    ensures
        r == (request@ is Watch),
{
    match request {
        Request::Watch { protocol_version: _, config: _ } => true,
        _ => false,
    }
}

/// The text of an error with its causes: each cause in a paragraph of its own.
pub open spec fn report_text(chain: Seq<Seq<char>>) -> Seq<char> {
    joined(chain, "\n\nCaused by:\n    "@)
}

/// The text of an error with its causes.
pub fn report(err: &ErrorChain) -> (r: String)
    ensures
        r@ == report_text(err@),
{
    let messages = err.messages();
    crate::text::join(messages.as_slice(), "\n\nCaused by:\n    ")
}

/// How much is logged.
#[derive(Clone, Copy, PartialEq, Eq, Structural, Debug)]
pub enum LogLevel {
    /// Nothing.
    Off,
    /// Errors.
    Error,
    /// Warnings too.
    Warn,
    /// What goes on, too.
    Info,
    /// Details too.
    Debug,
    /// Everything.
    Trace,
}

/// The level on a scale from nothing to everything.
pub open spec fn level_rank(level: LogLevel) -> int {
    match level {
        LogLevel::Off => 0,
        LogLevel::Error => 1,
        LogLevel::Warn => 2,
        LogLevel::Info => 3,
        LogLevel::Debug => 4,
        LogLevel::Trace => 5,
    }
}

/// A number on the scale.
pub open spec fn clamped(n: int) -> int {
    if n < 0 {
        0
    } else if n > 5 {
        5
    } else {
        n
    }
}

fn level_at(n: i32) -> (r: LogLevel)
    ensures
        level_rank(r) == clamped(n as int),
{
    if n <= 0 {
        LogLevel::Off
    } else if n == 1 {
        LogLevel::Error
    } else if n == 2 {
        LogLevel::Warn
    } else if n == 3 {
        LogLevel::Info
    } else if n == 4 {
        LogLevel::Debug
    } else {
        LogLevel::Trace
    }
}

/// How much a command logs: warnings, and a level more or less for each flag.
pub fn command_log_level(verbose: u8, quiet: u8) -> (r: LogLevel)
    ensures
        level_rank(r) == clamped(2 + verbose - quiet),
{
    let n: i32 = 2 + verbose as i32 - quiet as i32;
    level_at(n)
}

/// How much a daemon logs: what goes on, and a level more or less for each flag.
pub fn daemon_log_level(verbose: u8, quiet: u8) -> (r: LogLevel)
    ensures
        level_rank(r) == clamped(3 + verbose - quiet),
{
    let n: i32 = 3 + verbose as i32 - quiet as i32;
    level_at(n)
}

/// The name of a level.
pub fn level_name(level: LogLevel) -> (r: &'static str)
    ensures
        r@ == match level {
            LogLevel::Off => "off"@,
            LogLevel::Error => "error"@,
            LogLevel::Warn => "warn"@,
            LogLevel::Info => "info"@,
            LogLevel::Debug => "debug"@,
            LogLevel::Trace => "trace"@,
        },
{
    match level {
        LogLevel::Off => "off",
        LogLevel::Error => "error",
        LogLevel::Warn => "warn",
        LogLevel::Info => "info",
        LogLevel::Debug => "debug",
        LogLevel::Trace => "trace",
    }
}

/// A request for a daemon keeps everything but a local path, and a reference that means the
/// same everywhere is kept whole.
pub proof fn law_daemon_request_keeps_the_rest(
    config: ConfigView,
    canonical: Result<Seq<char>, Seq<char>>,
)
    ensures
        daemon_config_of(config, canonical) matches Ok(sent) ==> sent == config.with_wire(
            (WireView { input: sent.wire.input, ..config.wire }),
        ),
        input_path(config.wire.input) is None ==> daemon_config_of(config, canonical) == Ok::<
            ConfigView,
            Seq<Seq<char>>,
        >(config),
{
}

/// A daemon gets the canonical path of a file and of a flake that is given by a path, the latter
/// behind `path:` and with its fragment; where there is no canonical path, that is said of the
/// path that was given. An expression goes as it is.
pub proof fn law_daemons_get_canonical_paths(
    path: Seq<char>,
    fragment: Seq<char>,
    canonical: Seq<char>,
    cause: Seq<char>,
)
    requires
        !path.contains('#'),
    ensures
        daemon_input_of(InputView::Expr(path), Ok(canonical)) == Ok::<InputView, Seq<Seq<char>>>(
            InputView::Expr(path),
        ),
        daemon_input_of(InputView::Expr(path), Err(cause)) == Ok::<InputView, Seq<Seq<char>>>(
            InputView::Expr(path),
        ),
        daemon_input_of(InputView::File(path), Ok(canonical)) == Ok::<InputView, Seq<Seq<char>>>(
            InputView::File(canonical),
        ),
        daemon_input_of(InputView::File(path), Err(cause)) == Err::<InputView, Seq<Seq<char>>>(
            seq!["canonicalizing input file "@ + path, cause],
        ),
        daemon_input_of(
            InputView::Flake("path:"@ + path + seq!['#'] + fragment),
            Ok(canonical),
        ) == Ok::<InputView, Seq<Seq<char>>>(
            InputView::Flake("path:"@ + canonical + (seq!['#'] + fragment)),
        ),
        daemon_input_of(InputView::Flake("path:"@ + path), Err(cause)) is Err,
        input_path(InputView::File(path)) == Some(path),
        input_path(InputView::Expr(path)) is None,
        path.len() > 0 ==> input_path(InputView::Flake("path:"@ + path + seq!['#'] + fragment))
            == Some(path),
        path.len() > 0 && path[0] == '/' ==> {
            &&& input_path(InputView::Flake(path)) == Some(path)
            &&& daemon_input_of(InputView::Flake(path + seq!['#'] + fragment), Ok(canonical)) == Ok::<
                InputView,
                Seq<Seq<char>>,
            >(InputView::Flake("path:"@ + canonical + (seq!['#'] + fragment)))
        },
{
    crate::flake_ref::law_daemons_resolve_paths(path, fragment);
    if path.len() > 0 && path[0] == '/' {
        reveal_strlit("path:");
        if path.len() >= 5 && path.take(5) == "path:"@ {
            assert(path.take(5)[0] == path[0]);
        }
    }
}

/// A request for a daemon is the same request with the configuration that a daemon gets: of the
/// same kind and version, and with the same filter. Where the configuration has no form that a
/// daemon could use, neither has the request.
pub proof fn law_daemon_requests_are_the_same_requests(
    v: u32,
    config: ConfigView,
    filter: FilterView,
    canonical: Result<Seq<char>, Seq<char>>,
)
    ensures
        match daemon_config_of(config, canonical) {
            Ok(sent) => {
                &&& daemon_request_of(RequestView::Eval(v, config), canonical) == Ok::<
                    RequestView,
                    Seq<Seq<char>>,
                >(RequestView::Eval(v, sent))
                &&& daemon_request_of(RequestView::Watch(v, config), canonical) == Ok::<
                    RequestView,
                    Seq<Seq<char>>,
                >(RequestView::Watch(v, sent))
                &&& daemon_request_of(RequestView::Query(v, config, filter), canonical) == Ok::<
                    RequestView,
                    Seq<Seq<char>>,
                >(RequestView::Query(v, sent, filter))
                &&& daemon_request_of(RequestView::Diff(v, config), canonical) == Ok::<
                    RequestView,
                    Seq<Seq<char>>,
                >(RequestView::Diff(v, sent))
                &&& daemon_input_of(config.wire.input, canonical) == Ok::<InputView, Seq<Seq<char>>>(
                    sent.wire.input,
                )
                &&& sent.worker_exe == config.worker_exe
                &&& sent.wire.auto_args == config.wire.auto_args
                &&& sent.wire.nix_options == config.wire.nix_options
                &&& sent.wire.override_inputs == config.wire.override_inputs
                &&& sent.wire.remotes == config.wire.remotes
                &&& sent.wire.workers == config.wire.workers
            },
            Err(chain) => {
                &&& daemon_input_of(config.wire.input, canonical) == Err::<
                    InputView,
                    Seq<Seq<char>>,
                >(chain)
                &&& daemon_request_of(RequestView::Eval(v, config), canonical) == Err::<
                    RequestView,
                    Seq<Seq<char>>,
                >(chain)
                &&& daemon_request_of(RequestView::Query(v, config, filter), canonical) == Err::<
                    RequestView,
                    Seq<Seq<char>>,
                >(chain)
            },
        },
{
}

/// The text of an error says its messages in order, the outermost first, each cause behind a
/// heading of its own.
pub proof fn law_reports_say_every_cause(chain: Seq<Seq<char>>, cause: Seq<char>)
    ensures
        report_text(seq![cause]) == cause,
        chain.len() > 0 ==> report_text(chain.push(cause)) == report_text(chain)
            + "\n\nCaused by:\n    "@ + cause,
{
    assert(chain.push(cause).drop_last() =~= chain);
}

/// The levels of a log are ranked from nothing to everything, and no flag leads beyond either.
pub proof fn law_log_levels_are_ranked(n: int)
    ensures
        level_rank(LogLevel::Off) < level_rank(LogLevel::Error) < level_rank(LogLevel::Warn)
            < level_rank(LogLevel::Info) < level_rank(LogLevel::Debug) < level_rank(LogLevel::Trace),
        level_rank(LogLevel::Warn) == 2,
        level_rank(LogLevel::Info) == 3,
        0 <= n <= 5 ==> clamped(n) == n,
        n < 0 ==> clamped(n) == level_rank(LogLevel::Off),
        n > 5 ==> clamped(n) == level_rank(LogLevel::Trace),
{
}

/// What is run without a daemon is what stands there, and so is a canonical path.
pub proof fn law_local_runs_say_what_they_are(config: Config, path: String)
    ensures
        LocalRun::Eval(config)@ == LocalView::Eval(config@),
        LocalRun::Watch(config)@ == LocalView::Watch(config@),
        canonical_view(Ok(path)) == Ok::<Seq<char>, Seq<char>>(path@),
        canonical_view(Err(path)) == Err::<Seq<char>, Seq<char>>(path@),
{
}

/// A command that may ask a daemon asks it for what it would do itself, of the socket that it was
/// given, and keeps its own configuration for the case that there is none; one that may not does
/// it itself. A query and a diff ask a daemon only.
pub proof fn law_commands_do_what_they_say(
    config: Config,
    filter: Filter,
    socket: Option<String>,
    token: Option<String>,
    listen: String,
    foreground: bool,
    canonical: Result<Seq<char>, Seq<char>>,
)
    ensures
        plan_of((CommandPlan::Eval { config, socket, use_daemon: false }), canonical) == Ok::<
            ActionView,
            Seq<Seq<char>>,
        >(ActionView::Local(LocalView::Eval(config@))),
        plan_of((CommandPlan::Watch { config, socket, use_daemon: false }), canonical) == Ok::<
            ActionView,
            Seq<Seq<char>>,
        >(ActionView::Local(LocalView::Watch(config@))),
        plan_of((CommandPlan::Daemon { socket, foreground }), canonical) == Ok::<
            ActionView,
            Seq<Seq<char>>,
        >(ActionView::Daemon(text_opt(socket), foreground)),
        plan_of((CommandPlan::Worker { listen, token }), canonical) == Ok::<
            ActionView,
            Seq<Seq<char>>,
        >(ActionView::Worker(listen@, text_opt(token))),
        ({
            let eval = plan_of((CommandPlan::Eval { config, socket, use_daemon: true }), canonical);
            let watch = plan_of(
                (CommandPlan::Watch { config, socket, use_daemon: true }),
                canonical,
            );
            let query = plan_of((CommandPlan::Query { config, filter, socket }), canonical);
            let diff = plan_of((CommandPlan::Diff { config, socket }), canonical);
            match daemon_config_of(config@, canonical) {
                Ok(sent) => {
                    &&& eval == Ok::<ActionView, Seq<Seq<char>>>(
                        ActionView::ClientOrLocal(
                            RequestView::Eval(1, sent),
                            text_opt(socket),
                            LocalView::Eval(config@),
                        ),
                    )
                    &&& watch == Ok::<ActionView, Seq<Seq<char>>>(
                        ActionView::ClientOrLocal(
                            RequestView::Watch(1, sent),
                            text_opt(socket),
                            LocalView::Watch(config@),
                        ),
                    )
                    &&& query == Ok::<ActionView, Seq<Seq<char>>>(
                        ActionView::DaemonOnly(
                            RequestView::Query(1, sent, filter@),
                            text_opt(socket),
                        ),
                    )
                    &&& diff == Ok::<ActionView, Seq<Seq<char>>>(
                        ActionView::DaemonOnly(RequestView::Diff(1, sent), text_opt(socket)),
                    )
                },
                Err(chain) => {
                    let refused = Err::<ActionView, Seq<Seq<char>>>(chain);
                    eval == refused && watch == refused && query == refused && diff == refused
                },
            }
        }),
{
}

/// A daemon that can be reached is asked. Where there is none, a command that can do without runs
/// here, but only where there is no socket; any other failure is reported.
pub proof fn law_commands_fall_back_only_without_a_socket(
    socket: &str,
    failure: Option<IoFailure>,
    a: Connected,
    b: Connected,
)
    requires
        call_ensures(run_client_or_local, (socket, &failure), a),
        call_ensures(run_daemon_only, (socket, &failure), b),
    ensures
        a is Ask <==> failure is None,
        b is Ask <==> failure is None,
        a is Fallback <==> (failure matches Some(f) && f.kind == IoKind::NotFound),
        !(b is Fallback),
        a matches Connected::Fail(e) ==> e@ == seq![
            "connecting to evix daemon at "@ + socket@,
            failure->Some_0.message@,
        ],
        b matches Connected::Fail(e) ==> e@ == seq![
            "connecting to evix daemon at "@ + socket@,
            failure->Some_0.message@,
        ],
{
}

/// A client prints what it is told, ends where the daemon is done, and fails with what the daemon
/// reports; a connection that ends before is a failure unless it is watched.
pub proof fn law_replies_are_acted_on(
    watching: bool,
    event: Event,
    diff: Diff,
    message: String,
    a: ReplyAction,
    b: ReplyAction,
    c: ReplyAction,
    d: ReplyAction,
    e: ReplyAction,
    f: ReplyAction,
)
    requires
        call_ensures(run_daemon_request, (watching, Reply::Parsed(Response::Event { event })), a),
        call_ensures(run_daemon_request, (watching, Reply::Parsed(Response::Diff { diff })), b),
        call_ensures(run_daemon_request, (watching, Reply::Parsed(Response::Done)), c),
        call_ensures(run_daemon_request, (watching, Reply::Parsed(Response::Error { message })), d),
        call_ensures(run_daemon_request, (watching, Reply::End), e),
        call_ensures(run_daemon_request, (watching, Reply::Blank), f),
    ensures
        a matches ReplyAction::PrintEvent(x) && x@ == event@,
        b matches ReplyAction::PrintDiff(x) && x@ == diff@,
        c is Finish,
        d matches ReplyAction::Fail(x) && x@ == seq![message@],
        watching ==> e is Finish,
        !watching ==> (e matches ReplyAction::Fail(x) && x@ == seq![
            "daemon closed connection before completing request"@,
        ]),
        f is Continue,
{
}

/// Without flags a command logs warnings and a daemon what goes on; every flag is a level more or
/// less, and the levels end at nothing and at everything.
pub proof fn law_flags_move_the_log_level(verbose: u8, quiet: u8, a: LogLevel, b: LogLevel)
    requires
        call_ensures(command_log_level, (verbose, quiet), a),
        call_ensures(daemon_log_level, (verbose, quiet), b),
    ensures
        verbose == quiet ==> a == LogLevel::Warn && b == LogLevel::Info,
        verbose == quiet + 1 ==> a == LogLevel::Info && b == LogLevel::Debug,
        verbose == quiet + 2 ==> a == LogLevel::Debug && b == LogLevel::Trace,
        verbose >= quiet + 3 ==> a == LogLevel::Trace && b == LogLevel::Trace,
        quiet == verbose + 1 ==> a == LogLevel::Error && b == LogLevel::Warn,
        quiet == verbose + 2 ==> a == LogLevel::Off && b == LogLevel::Error,
        quiet >= verbose + 3 ==> a == LogLevel::Off && b == LogLevel::Off,
{
}

} // verus!
