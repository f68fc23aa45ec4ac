//! A daemon: where it listens, whom it serves, and what it answers.

use vstd::prelude::*;

use crate::connection_limit::ConnectionLimiter;
use crate::error::{Error, ErrorChain, ErrorView};
use crate::model::{derivations_view, Derivation, DerivationView, Diff, Event, EventView, Filter};
use crate::protocol::{Request, Response, ResponseView, DAEMON_PROTOCOL_VERSION};
use crate::session::{Session, SessionView};
use crate::state::EvalGraph;
use crate::text::{concat2, concat3, decimal, decimal_of, trim, trimmed, Blank};

verus! {

/// How many connections a daemon serves at once.
pub const MAX_CONNECTIONS: usize = 64;

/// Why an operation of the system failed.
#[derive(Clone, Copy, PartialEq, Eq, Structural, Debug)]
pub enum IoKind {
    /// There is nothing of that name.
    NotFound,
    /// Nobody listens there.
    ConnectionRefused,
    /// It is not allowed.
    PermissionDenied,
    /// A signal came in between.
    Interrupted,
    /// Anything else.
    Other,
}

/// The failure of an operation of the system.
#[derive(Debug)]
pub struct IoFailure {
    /// Why it failed.
    pub kind: IoKind,
    /// What the system says.
    pub message: String,
}

/// The directory of a user's runtime files.
pub open spec fn runtime_file(uid: u32, name: Seq<char>) -> Seq<char> {
    "/run/user/"@ + decimal_of(uid as nat) + name
}

/// The socket of a user's daemon.
pub fn default_socket_path(uid: u32) -> (r: String)
    ensures
        r@ == runtime_file(uid, "/evix.sock"@),
{
    concat3("/run/user/", decimal(uid as u64).as_str(), "/evix.sock")
}

/// The file with the process of a user's daemon.
pub fn pid_path(uid: u32) -> (r: String)
    ensures
        r@ == runtime_file(uid, "/evix.pid"@),
{
    concat3("/run/user/", decimal(uid as u64).as_str(), "/evix.pid")
}

/// The socket to use: the one that was asked for, else the one of the environment, else the
/// user's.
pub fn socket_path(flag: Option<String>, environment: Option<String>, uid: u32) -> (r: String)
    ensures
        r@ == match flag {
            Some(path) => path@,
            None => match environment {
                Some(path) => path@,
                None => runtime_file(uid, "/evix.sock"@),
            },
        },
{
    match flag {
        Some(path) => path,
        None => match environment {
            Some(path) => path,
            None => default_socket_path(uid),
        },
    }
}

/// What waiting for a connection came to.
#[derive(Debug)]
pub enum PollStep {
    /// Wait again.
    Retry,
    /// The daemon is to end.
    Shutdown,
    /// A connection is there.
    Accept,
    /// Waiting failed.
    Fail(ErrorChain),
}

/// What waiting for a connection came to. `failure` is why the wait itself failed, and
/// `signalled` whether the shutdown pipe can be read.
pub fn wait_for_connection_or_shutdown(
    failure: &Option<IoFailure>,
    shutdown_requested: bool,
    signalled: bool,
) -> (r: PollStep)
    ensures
        match *failure {
            None => if shutdown_requested || signalled {
                r is Shutdown
            } else {
                r is Accept
            },
            Some(f) => if f.kind != IoKind::Interrupted {
                r matches PollStep::Fail(e) && e@ == seq!["polling daemon listener"@, f.message@]
            } else if shutdown_requested {
                r is Shutdown
            } else {
                r is Retry
            },
        },
{
    match failure {
        None => if shutdown_requested || signalled {
            PollStep::Shutdown
        } else {
            PollStep::Accept
        },
        Some(f) => {
            if f.kind != IoKind::Interrupted {
                return PollStep::Fail(
                    ErrorChain::new(f.message.as_str()).context("polling daemon listener"),
                );
            }
            if shutdown_requested {
                PollStep::Shutdown
            } else {
                PollStep::Retry
            }
        },
    }
}

/// What is done about a connection.
#[derive(Debug)]
pub enum AcceptAction {
    /// Serve it.
    Serve,
    /// Answer this and close it.
    Refuse(Response),
    /// Nothing.
    Ignore,
    /// Log why there is none.
    Log(String),
}

/// What is done about a connection, or about why there is none: it is served if the limit
/// leaves room.
pub fn serve_connections(limiter: &mut ConnectionLimiter, failure: &Option<IoFailure>) -> (r:
    AcceptAction)
    ensures
        match *failure {
            None => {
                &&& final(limiter)@ == old(limiter)@.acquired()
                &&& old(limiter)@.has_room() ==> r is Serve
                &&& !old(limiter)@.has_room() ==> (r matches AcceptAction::Refuse(response)
                    && response@ == ResponseView::Error("daemon connection limit exceeded"@))
            },
            Some(f) => {
                &&& *final(limiter) == *old(limiter)
                &&& f.kind == IoKind::Interrupted ==> r is Ignore
                &&& f.kind != IoKind::Interrupted ==> (r matches AcceptAction::Log(s) && s@
                    == f.message@)
            },
        },
{
    match failure {
        None => {
            if limiter.acquire() {
                AcceptAction::Serve
            } else {
                AcceptAction::Refuse(Response::error("daemon connection limit exceeded"))
            }
        },
        Some(f) => {
            if f.kind == IoKind::Interrupted {
                AcceptAction::Ignore
            } else {
                AcceptAction::Log(f.message.clone())
            }
        },
    }
}

/// What stands at the path of a socket.
#[derive(Debug)]
pub enum SocketFound {
    /// Nothing.
    Missing,
    /// A socket.
    Socket,
    /// Something else.
    Other,
    /// It is not known.
    Failed(String),
}

/// Whether a socket is there that is to be probed. What is no socket is never touched.
pub fn check_existing(socket: &str, found: &SocketFound) -> (r: Result<bool, ErrorChain>)
    ensures
        match *found {
            SocketFound::Missing => r == Ok::<bool, ErrorChain>(false),
            SocketFound::Socket => r == Ok::<bool, ErrorChain>(true),
            SocketFound::Other => r matches Err(e) && e@ == seq![
                "refusing to remove non-socket path "@ + socket@,
            ],
            SocketFound::Failed(cause) => r matches Err(e) && e@ == seq![
                "checking existing socket path "@ + socket@,
                cause@,
            ],
        },
{
    match found {
        SocketFound::Missing => Ok(false),
        SocketFound::Socket => Ok(true),
        SocketFound::Other => Err(
            ErrorChain::from_message(concat2("refusing to remove non-socket path ", socket)),
        ),
        SocketFound::Failed(cause) => Err(
            ErrorChain::new(cause.as_str()).context(
                concat2("checking existing socket path ", socket).as_str(),
            ),
        ),
    }
}

/// Whether a socket that was probed is to be removed: only where nobody listens any more.
/// `failure` is why nobody answered.
pub fn check_probe(socket: &str, failure: &Option<IoFailure>) -> (r: Result<bool, ErrorChain>)
    ensures
        match *failure {
            None => r matches Err(e) && e@ == seq!["live daemon socket already exists at "@ + socket@],
            Some(f) => match f.kind {
                IoKind::ConnectionRefused => r == Ok::<bool, ErrorChain>(true),
                IoKind::NotFound => r == Ok::<bool, ErrorChain>(false),
                _ => r matches Err(e) && e@ == seq![
                    "probing existing socket "@ + socket@,
                    f.message@,
                ],
            },
        },
{
    match failure {
        None => Err(
            ErrorChain::from_message(concat2("live daemon socket already exists at ", socket)),
        ),
        Some(f) => match f.kind {
            IoKind::ConnectionRefused => Ok(true),
            IoKind::NotFound => Ok(false),
            _ => Err(
                ErrorChain::new(f.message.as_str()).context(
                    concat2("probing existing socket ", socket).as_str(),
                ),
            ),
        },
    }
}

/// Whether a stale socket is to be removed before a daemon binds its own: what stands at its
/// path, and whether anybody answers there.
pub fn prepare_socket_path(socket: &str, found: &SocketFound, failure: &Option<IoFailure>) -> (r:
    Result<bool, ErrorChain>)
    ensures
        match *found {
            SocketFound::Missing => r == Ok::<bool, ErrorChain>(false),
            SocketFound::Socket => match *failure {
                None => r matches Err(e) && e@ == seq![
                    "live daemon socket already exists at "@ + socket@,
                ],
                Some(f) => match f.kind {
                    IoKind::ConnectionRefused => r == Ok::<bool, ErrorChain>(true),
                    IoKind::NotFound => r == Ok::<bool, ErrorChain>(false),
                    _ => r matches Err(e) && e@ == seq![
                        "probing existing socket "@ + socket@,
                        f.message@,
                    ],
                },
            },
            SocketFound::Other => r matches Err(e) && e@ == seq![
                "refusing to remove non-socket path "@ + socket@,
            ],
            SocketFound::Failed(cause) => r matches Err(e) && e@ == seq![
                "checking existing socket path "@ + socket@,
                cause@,
            ],
        },
{
    match check_existing(socket, found) {
        Err(e) => Err(e),
        Ok(false) => Ok(false),
        Ok(true) => check_probe(socket, failure),
    }
}

/// A step on the way to a socket that a daemon listens on.
#[derive(Clone, Copy, PartialEq, Eq, Structural, Debug)]
pub enum BindStage {
    /// Its directory is made.
    Directory,
    /// What stands at the path of the socket is looked at.
    Occupied,
    /// A stale socket is removed.
    Stale,
    /// It is bound.
    Bind,
    /// It is made private.
    Permissions,
    /// Whoever started the daemon is told that it listens.
    Ready,
}

/// What is done about a step that failed.
#[derive(Debug)]
pub struct BindFailure {
    /// Whether the socket, which is bound already, is removed.
    pub remove_socket: bool,
    /// What whoever started the daemon is told, unless telling is what failed.
    pub report: Option<Response>,
    /// What the daemon fails with.
    pub error: ErrorChain,
}

/// What a step that failed is called; a path that is not free, and the last step, are reported
/// as they are.
pub open spec fn stage_text(stage: BindStage, path: Seq<char>) -> Option<Seq<char>> {
    match stage {
        BindStage::Directory => Some("creating socket directory "@ + path),
        BindStage::Stale => Some("removing stale socket "@ + path),
        BindStage::Bind => Some("binding "@ + path),
        BindStage::Permissions => Some("setting permissions on "@ + path),
        BindStage::Occupied => None,
        BindStage::Ready => None,
    }
}

/// The error of a step that failed.
pub open spec fn stage_error(stage: BindStage, path: Seq<char>, cause: Seq<Seq<char>>) -> Seq<
    Seq<char>,
> {
    match stage_text(stage, path) {
        Some(text) => seq![text] + cause,
        None => cause,
    }
}

/// What is done about a step that failed on the way to a socket: one that is bound already is
/// removed, and whoever started the daemon is told, unless telling is what failed.
pub fn bind_listener(stage: BindStage, path: &str, cause: ErrorChain) -> (r: BindFailure)
    ensures
        r.error@ == stage_error(stage, path@, cause@),
        r.remove_socket == (stage == BindStage::Permissions || stage == BindStage::Ready),
        match r.report {
            Some(response) => stage != BindStage::Ready && response@ == ResponseView::Error(
                r.error@[0],
            ),
            None => stage == BindStage::Ready,
        },
{
    let error = match stage {
        BindStage::Directory => cause.context(concat2("creating socket directory ", path).as_str()),
        BindStage::Stale => cause.context(concat2("removing stale socket ", path).as_str()),
        BindStage::Bind => cause.context(concat2("binding ", path).as_str()),
        BindStage::Permissions => cause.context(concat2("setting permissions on ", path).as_str()),
        BindStage::Occupied => cause,
        BindStage::Ready => cause,
    };
    let bound: bool = stage == BindStage::Permissions || stage == BindStage::Ready;
    let report = if stage == BindStage::Ready {
        None
    } else {
        Some(Response::error(error.message().as_str()))
    };
    BindFailure { remove_socket: bound, report, error }
}

/// What a process is after a fork.
#[derive(Debug)]
pub enum ForkRole {
    /// The one that forked.
    Parent,
    /// The new one.
    Child,
    /// There is no new one.
    Failed(ErrorChain),
}

/// What a process is after the first or the second fork of a daemon.
pub fn fork_role(pid: i32, second: bool) -> (r: ForkRole)
    ensures
        pid > 0 ==> r is Parent,
        pid == 0 ==> r is Child,
        pid < 0 ==> (r matches ForkRole::Failed(e) && e@ == seq![
            if second {
                "second fork failed"@
            } else {
                "fork failed"@
            },
        ]),
{
    if pid > 0 {
        ForkRole::Parent
    } else if pid == 0 {
        ForkRole::Child
    } else if second {
        ForkRole::Failed(ErrorChain::new("second fork failed"))
    } else {
        ForkRole::Failed(ErrorChain::new("fork failed"))
    }
}

/// What a process that waited for its daemon prints and returns.
#[derive(Debug)]
pub enum Readiness {
    /// The daemon listens: print the socket, return success.
    Listening(String),
    /// It failed: print this, return failure.
    Failed(String),
    /// It answered something else: print that, return failure.
    Unexpected(Response),
    /// It did not answer: print this, return failure.
    Lost(ErrorChain),
}

/// What a process that waited for its daemon makes of the answer.
pub fn wait_for_readiness(socket: &str, answer: Result<Response, ErrorChain>) -> (r: Readiness)
    ensures
        match answer {
            Err(err) => r matches Readiness::Lost(e) && e@ == err@,
            Ok(response) => match response@ {
                ResponseView::Done => r matches Readiness::Listening(s) && s@ == socket@,
                ResponseView::Error(message) => r matches Readiness::Failed(s) && s@ == message,
                other => r matches Readiness::Unexpected(u) && u@ == other,
            },
        },
{
    match answer {
        Err(err) => Readiness::Lost(err),
        Ok(Response::Done) => Readiness::Listening(socket.to_owned()),
        Ok(Response::Error { message }) => Readiness::Failed(message),
        Ok(other) => Readiness::Unexpected(other),
    }
}

/// Rejects a peer of another user.
pub fn authorize_peer(peer_uid: u32, own_uid: u32) -> (r: Result<(), ErrorChain>)
    ensures
        match r {
            Ok(()) => peer_uid == own_uid,
            Err(e) => peer_uid != own_uid && e@ == seq![
                "refusing daemon connection from uid "@ + decimal_of(peer_uid as nat)
                    + "; expected "@ + decimal_of(own_uid as nat),
            ],
        },
{
    if peer_uid == own_uid {
        return Ok(());
    }
    let mut message = concat3(
        "refusing daemon connection from uid ",
        decimal(peer_uid as u64).as_str(),
        "; expected ",
    );
    message.append(decimal(own_uid as u64).as_str());
    Err(ErrorChain::from_message(message))
}

/// What happens to a connection.
#[derive(Debug)]
pub enum PeerInput {
    /// Its line was read, or could not be.
    Line(Result<String, ErrorChain>),
    /// Its line was parsed, or could not be.
    Parsed(Result<Request, String>),
    /// Its request was carried out, or failed.
    Handled(Result<(), ErrorChain>),
}

/// What is done for a connection.
#[derive(Debug)]
pub enum PeerOutput {
    /// Close it.
    Close,
    /// Parse this text.
    Parse(String),
    /// Carry out this request.
    Dispatch(Request),
    /// Answer this, and fail.
    Refuse { response: Response, error: ErrorChain },
}

/// Whether a failure is answered with its outermost message.
pub open spec fn refuses(r: PeerOutput, chain: Seq<Seq<char>>) -> bool {
    r matches PeerOutput::Refuse { response, error } && error@ == chain && response@
        == ResponseView::Error(chain[0])
}

fn refuse(error: ErrorChain) -> (r: PeerOutput)
    ensures
        refuses(r, error@),
{
    PeerOutput::Refuse { response: Response::error(error.message().as_str()), error }
}

/// What is done about what happens to a connection. An empty line is closed without an answer;
/// whatever fails is answered with its message; a request of another version of the protocol
/// is not carried out.
pub fn handle_connection(input: PeerInput) -> (r: PeerOutput)
    ensures
        match input {
            PeerInput::Line(Err(err)) => refuses(r, err@),
            PeerInput::Line(Ok(line)) => {
                let text = trimmed(line@, Blank::White);
                if text.len() == 0 {
                    r is Close
                } else {
                    r matches PeerOutput::Parse(s) && s@ == text
                }
            },
            PeerInput::Parsed(Err(cause)) => refuses(r, seq!["parsing daemon request"@, cause@]),
            PeerInput::Parsed(Ok(request)) => if request@.version() == DAEMON_PROTOCOL_VERSION {
                r matches PeerOutput::Dispatch(d) && d@ == request@
            } else {
                refuses(
                    r,
                    seq![
                        "unsupported daemon protocol version "@ + decimal_of(
                            request@.version() as nat,
                        ) + "; expected "@ + decimal_of(DAEMON_PROTOCOL_VERSION as nat),
                    ],
                )
            },
            PeerInput::Handled(Ok(())) => r is Close,
            PeerInput::Handled(Err(err)) => refuses(r, err@),
        },
{
    match input {
        PeerInput::Line(Err(err)) => refuse(err),
        PeerInput::Line(Ok(line)) => {
            let text = trim(line.as_str(), Blank::White);
            if text.is_empty() {
                PeerOutput::Close
            } else {
                PeerOutput::Parse(text.to_owned())
            }
        },
        PeerInput::Parsed(Err(cause)) => {
            let err = ErrorChain::new(cause.as_str()).context("parsing daemon request");
            proof {
                assert(err@ =~= seq!["parsing daemon request"@, cause@]);
            }
            refuse(err)
        },
        PeerInput::Parsed(Ok(request)) => match request.validate_protocol() {
            Ok(()) => PeerOutput::Dispatch(request),
            Err(err) => refuse(ErrorChain::from_message(err.message())),
        },
        PeerInput::Handled(Ok(())) => PeerOutput::Close,
        PeerInput::Handled(Err(err)) => refuse(err),
    }
}

/// The answer to an item of an event stream; its end is answered too.
pub fn handle_eval(item: &Option<Result<Event, Error>>) -> (r: Response)
    ensures
        r@ == match *item {
            Some(Ok(event)) => ResponseView::Event(event@),
            Some(Err(err)) => ResponseView::Error(err@.text()),
            None => ResponseView::Done,
        },
{
    match item {
        Some(Ok(event)) => Response::event(event),
        Some(Err(err)) => Response::error(err.message().as_str()),
        None => Response::Done,
    }
}

/// The answer to an item of a watch; its end is not answered.
pub fn handle_watch(item: &Option<Result<Diff, Error>>) -> (r: Option<Response>)
    ensures
        match *item {
            Some(Ok(diff)) => r matches Some(response) && response@ == ResponseView::Diff(diff@),
            Some(Err(err)) => r matches Some(response) && response@ == ResponseView::Error(
                err@.text(),
            ),
            None => r is None,
        },
{
    match item {
        Some(Ok(diff)) => Some(Response::diff(diff)),
        Some(Err(err)) => Some(Response::error(err.message().as_str())),
        None => None,
    }
}

/// The responses of a list.
pub open spec fn responses_view(v: Seq<Response>) -> Seq<ResponseView> {
    v.map_values(|r: Response| r@)
}

/// The answers to a query: the derivations, and the end.
pub open spec fn query_answers(drvs: Seq<DerivationView>) -> Seq<ResponseView> {
    drvs.map_values(|d: DerivationView| ResponseView::Event(EventView::Derivation(d))).push(
        ResponseView::Done,
    )
}

/// Why a session cannot answer; `None` where it can.
pub open spec fn not_completed(s: SessionView) -> Option<ErrorView> {
    if s.warm.completed {
        None
    } else {
        match s.warm.error {
            Some(message) => Some(ErrorView::EvaluationFailed(message)),
            None => Some(ErrorView::SessionStillEvaluating),
        }
    }
}

/// The answers to a query of a warm session: the derivations that the filter asks for, in the
/// order of their paths, and the end.
pub fn handle_query(session: &Session, filter: &Filter) -> (r: Result<Vec<Response>, Error>)
    ensures
        match r {
            Ok(answers) => {
                &&& not_completed(session@) is None
                &&& responses_view(answers@) == query_answers(session@.warm.graph.matching(filter@))
            },
            Err(e) => not_completed(session@) == Some(e@),
        },
{
    session.require_completed()?;
    let drvs = session.query_snapshot(filter)?;
    let ghost all = derivations_view(drvs@).map_values(
        |d: DerivationView| ResponseView::Event(EventView::Derivation(d)),
    );
    let mut out: Vec<Response> = Vec::new();
    let mut i: usize = 0;
    proof {
        assert(responses_view(out@) =~= all.take(0));
    }
    while i < drvs.len()
        invariant
            i <= drvs.len(),
            all == derivations_view(drvs@).map_values(
                |d: DerivationView| ResponseView::Event(EventView::Derivation(d)),
            ),
            responses_view(out@) == all.take(i as int),
        decreases drvs.len() - i,
    {
        let ghost before = responses_view(out@);
        let response = Response::derivation_event(&drvs[i]);
        out.push(response);
        proof {
            assert(responses_view(out@) =~= before.push(response@));
            assert(all.take(i + 1) =~= all.take(i as int).push(all[i as int]));
        }
        i += 1;
    }
    let ghost before = responses_view(out@);
    out.push(Response::Done);
    proof {
        assert(all.take(i as int) =~= all);
        assert(responses_view(out@) =~= before.push(ResponseView::Done));
    }
    Ok(out)
}

/// The graph that a session is compared with when it is evaluated again.
pub fn diff_base(session: &Session) -> (r: Result<EvalGraph, Error>)
    ensures
        match r {
            Ok(graph) => not_completed(session@) is None && graph@ == session@.warm.graph,
            Err(e) => not_completed(session@) == Some(e@),
        },
{
    session.require_completed()?;
    session.diff_previous()
}

/// The answers to a request for what changed: that, and the end.
pub fn handle_diff(diff: &Diff) -> (r: Vec<Response>)
    ensures
        responses_view(r@) == seq![ResponseView::Diff(diff@), ResponseView::Done],
{
    let mut out: Vec<Response> = Vec::new();
    out.push(Response::diff(diff));
    out.push(Response::Done);
    proof {
        assert(responses_view(out@) =~= seq![ResponseView::Diff(diff@), ResponseView::Done]);
    }
    out
}

/// The files of a user's daemon stand in the runtime directory of that user, which is named by
/// the user's number in decimal.
pub proof fn law_runtime_files_are_the_users(uid: u32, digits: Seq<char>, name: Seq<char>)
    requires
        runtime_file(uid, name) == "/run/user/"@ + digits + name,
    ensures
        crate::text::number_of(digits) == uid,
        digits.len() > 0,
        runtime_file(uid, "/evix.sock"@) == "/run/user/"@ + digits + "/evix.sock"@,
        runtime_file(uid, "/evix.pid"@) == "/run/user/"@ + digits + "/evix.pid"@,
{
    let start = "/run/user/"@;
    let own = decimal_of(uid as nat);
    crate::text::law_decimal_digits_write_the_number(uid as nat);
    let left = start + digits + name;
    let right = start + own + name;
    assert(left.len() == right.len());
    assert(left.subrange(start.len() as int, (start.len() + digits.len()) as int) =~= digits);
    assert(right.subrange(start.len() as int, (start.len() + own.len()) as int) =~= own);
}

/// A query is answered with each derivation, in order, as an event of its own, and then with the
/// end.
pub proof fn law_queries_are_answered_one_by_one(drvs: Seq<DerivationView>)
    ensures
        query_answers(drvs).len() == drvs.len() + 1,
        forall|i: int|
            0 <= i < drvs.len() ==> #[trigger] query_answers(drvs)[i] == ResponseView::Event(
                EventView::Derivation(drvs[i]),
            ),
        query_answers(drvs).last() == ResponseView::Done,
{
}

/// A daemon's session answers exactly when an evaluation has completed; else the stored failure
/// is reported, or that it is still evaluating.
pub proof fn law_unfinished_sessions_say_so(s: SessionView)
    ensures
        not_completed(s) is None <==> s.warm.completed,
        !s.warm.completed ==> (s.warm.error matches Some(message) ==> not_completed(s) == Some(
            ErrorView::EvaluationFailed(message),
        )),
        !s.warm.completed && s.warm.error is None ==> not_completed(s) == Some(
            ErrorView::SessionStillEvaluating,
        ),
{
}

/// A failure on the way to a socket is reported with what was tried, in front of its causes; an
/// occupied path and a starter that cannot be told are reported as they are.
pub proof fn law_bind_failures_say_what_was_tried(path: Seq<char>, cause: Seq<Seq<char>>)
    ensures
        stage_error(BindStage::Directory, path, cause) == seq!["creating socket directory "@ + path]
            + cause,
        stage_error(BindStage::Stale, path, cause) == seq!["removing stale socket "@ + path] + cause,
        stage_error(BindStage::Bind, path, cause) == seq!["binding "@ + path] + cause,
        stage_error(BindStage::Permissions, path, cause) == seq!["setting permissions on "@ + path]
            + cause,
        stage_error(BindStage::Occupied, path, cause) == cause,
        stage_error(BindStage::Ready, path, cause) == cause,
{
}

/// A failure is answered with its outermost message, and nothing else is.
pub proof fn law_refusals_are_answered(r: PeerOutput, chain: Seq<Seq<char>>)
    ensures
        refuses(r, chain) <==> (r matches PeerOutput::Refuse { response, error } && error@ == chain
            && (response matches Response::Error { message } && message@ == chain[0])),
{
}

/// A daemon serves sixty-four clients at a time.
pub proof fn law_daemons_serve_so_many_clients()
    ensures
        MAX_CONNECTIONS == 64,
{
}

/// The socket that was asked for is used before that of the environment, and that before the
/// user's own.
pub proof fn law_sockets_are_chosen_by_who_asks(
    flag: String,
    environment: Option<String>,
    other: String,
    uid: u32,
    a: String,
    b: String,
    c: String,
)
    requires
        call_ensures(socket_path, (Some(flag), environment, uid), a),
        call_ensures(socket_path, (None, Some(other), uid), b),
        call_ensures(socket_path, (None, None, uid), c),
    ensures
        a@ == flag@,
        b@ == other@,
        c@ == "/run/user/"@ + decimal_of(uid as nat) + "/evix.sock"@,
{
}

/// A daemon ends as soon as it is asked to and a wait is over, goes on waiting after a signal
/// that asks for nothing, and fails where waiting fails.
pub proof fn law_shutdown_is_heard(
    failure: Option<IoFailure>,
    shutdown_requested: bool,
    signalled: bool,
    r: PollStep,
)
    requires
        call_ensures(wait_for_connection_or_shutdown, (&failure, shutdown_requested, signalled), r),
    ensures
        r is Accept <==> failure is None && !shutdown_requested && !signalled,
        r is Fail <==> (failure matches Some(f) && f.kind != IoKind::Interrupted),
        r is Retry <==> (failure matches Some(f) && f.kind == IoKind::Interrupted)
            && !shutdown_requested,
        shutdown_requested ==> r is Shutdown || r is Fail,
        r matches PollStep::Fail(e) ==> e@[0] == "polling daemon listener"@ && e@.last()
            == failure->Some_0.message@,
{
}

/// A socket is removed only where it is a socket and nobody listens on it; a daemon that answers
/// keeps the next from starting.
pub proof fn law_only_stale_sockets_are_removed(
    socket: &str,
    found: SocketFound,
    failure: Option<IoFailure>,
    r: Result<bool, ErrorChain>,
)
    requires
        call_ensures(prepare_socket_path, (socket, &found, &failure), r),
    ensures
        r == Ok::<bool, ErrorChain>(true) <==> found is Socket && (failure matches Some(f) && f.kind
            == IoKind::ConnectionRefused),
        found is Socket && failure is None ==> (r matches Err(e) && e@ == seq![
            "live daemon socket already exists at "@ + socket@,
        ]),
        found is Missing ==> r == Ok::<bool, ErrorChain>(false),
        found is Other ==> (r matches Err(e) && e@ == seq![
            "refusing to remove non-socket path "@ + socket@,
        ]),
        found is Failed ==> (r matches Err(e) && e@[0] == "checking existing socket path "@
            + socket@),
        found is Socket && (failure matches Some(f) && f.kind != IoKind::ConnectionRefused && f.kind
            != IoKind::NotFound) ==> (r matches Err(e) && e@[0] == "probing existing socket "@
            + socket@ && e@.last() == failure->Some_0.message@),
{
}

/// Of a fork, the process with a number is the parent, that without one the child, and a
/// negative number says that there is no child.
pub proof fn law_forks_have_two_sides(pid: i32, second: bool, r: ForkRole)
    requires
        call_ensures(fork_role, (pid, second), r),
    ensures
        r is Parent <==> pid > 0,
        r is Child <==> pid == 0,
        r is Failed <==> pid < 0,
        r matches ForkRole::Failed(e) ==> (second ==> e@ == seq!["second fork failed"@]) && (!second
            ==> e@ == seq!["fork failed"@]),
{
}

/// Only the user that runs a daemon is served.
pub proof fn law_other_users_are_refused(peer: u32, own: u32, r: Result<(), ErrorChain>)
    requires
        call_ensures(authorize_peer, (peer, own), r),
    ensures
        r is Ok <==> peer == own,
        r matches Err(e) ==> e@ == seq![
            "refusing daemon connection from uid "@ + decimal_of(peer as nat) + "; expected "@
                + decimal_of(own as nat),
        ],
{
}

/// A daemon is ready where it says that it is done, and the socket is named; an error is passed
/// on, and so is its silence.
pub proof fn law_readiness_is_told(
    socket: &str,
    message: String,
    lost: ErrorChain,
    a: Readiness,
    b: Readiness,
    c: Readiness,
)
    requires
        call_ensures(wait_for_readiness, (socket, Ok(Response::Done)), a),
        call_ensures(wait_for_readiness, (socket, Ok(Response::Error { message })), b),
        call_ensures(wait_for_readiness, (socket, Err(lost)), c),
    ensures
        a matches Readiness::Listening(s) && s@ == socket@,
        b matches Readiness::Failed(s) && s@ == message@,
        c matches Readiness::Lost(e) && e@ == lost@,
{
}

/// A request of this version is carried out, and no other; a line that holds nothing is no
/// request.
pub proof fn law_requests_of_this_version_are_carried_out(
    request: Request,
    line: String,
    cause: String,
    a: PeerOutput,
    b: PeerOutput,
    c: PeerOutput,
    d: PeerOutput,
)
    requires
        call_ensures(handle_connection, (PeerInput::Parsed(Ok(request)),), a),
        call_ensures(handle_connection, (PeerInput::Line(Ok(line)),), b),
        call_ensures(handle_connection, (PeerInput::Parsed(Err(cause)),), c),
        call_ensures(handle_connection, (PeerInput::Handled(Ok(())),), d),
    ensures
        a is Dispatch <==> request@.version() == 1,
        a matches PeerOutput::Dispatch(sent) ==> sent@ == request@,
        !(a is Dispatch) ==> a is Refuse,
        b is Close <==> trimmed(line@, Blank::White).len() == 0,
        b matches PeerOutput::Parse(text) ==> text@ == trimmed(line@, Blank::White),
        b is Close || b is Parse,
        c matches PeerOutput::Refuse { response, error } && error@ == seq![
            "parsing daemon request"@,
            cause@,
        ] && response@ == ResponseView::Error("parsing daemon request"@),
        d is Close,
{
}

/// An event is answered with itself, a diff too, an error with its message; an evaluation ends
/// with a word, and a watch without one.
pub proof fn law_items_are_answered_with_themselves(
    event: Event,
    diff: Diff,
    err: Error,
    a: Response,
    b: Response,
    c: Response,
    d: Option<Response>,
    e: Option<Response>,
    f: Option<Response>,
    g: Vec<Response>,
)
    requires
        call_ensures(handle_eval, (&Some(Ok(event)),), a),
        call_ensures(handle_eval, (&Some(Err(err)),), b),
        call_ensures(handle_eval, (&None,), c),
        call_ensures(handle_watch, (&Some(Ok(diff)),), d),
        call_ensures(handle_watch, (&Some(Err(err)),), e),
        call_ensures(handle_watch, (&None,), f),
        call_ensures(handle_diff, (&diff,), g),
    ensures
        a@ == ResponseView::Event(event@),
        b@ == ResponseView::Error(err@.text()),
        c@ == ResponseView::Done,
        d matches Some(answer) && answer@ == ResponseView::Diff(diff@),
        e matches Some(answer) && answer@ == ResponseView::Error(err@.text()),
        f is None,
        g@.len() == 2 && g@[0]@ == ResponseView::Diff(diff@) && g@[1]@ == ResponseView::Done,
{
    assert(responses_view(g@).len() == 2);
    assert(responses_view(g@)[0] == g@[0]@ && responses_view(g@)[1] == g@[1]@);
}

} // verus!
