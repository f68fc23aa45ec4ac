//! A worker on another machine: who may use it, and what it answers.

use vstd::prelude::*;

use crate::config::{WorkerConfig, WorkerConfigView};
use crate::error::ErrorChain;
use crate::messages::{
    answer_event, answer_fault, answer_status, expect_ready, AnswerError, ClientMessage,
    ClientView, ServerMessage, ServerView, WorkerStatus,
};
use crate::model::{Event, EventView};
use crate::ordered_map::copy_texts;
use crate::text::{concat2, concat3, quote, quoted, same, text_opt, texts};
use crate::worker_process::copy_worker_config;

verus! {

/// How long a setup may take, in seconds.
pub const REMOTE_SETUP_TIMEOUT_SECONDS: u64 = 30;

/// How many masters are served at once.
pub const MAX_REMOTE_CONNECTIONS: usize = 64;

/// Whether a master may set a Nix option on this machine.
pub open spec fn option_allowed(key: Seq<char>) -> bool {
    ||| key == "accept-flake-config"@
    ||| key == "allow-import-from-derivation"@
    ||| key == "allowed-uris"@
    ||| key == "experimental-features"@
    ||| key == "extra-experimental-features"@
    ||| key == "restrict-eval"@
}

fn is_option_allowed(key: &str) -> (r: bool)
    ensures
        r == option_allowed(key@),
{
    same(key, "accept-flake-config") || same(key, "allow-import-from-derivation") || same(
        key,
        "allowed-uris",
    ) || same(key, "experimental-features") || same(key, "extra-experimental-features") || same(
        key,
        "restrict-eval",
    )
}

/// The message of an option that a master may not set.
pub open spec fn option_refused_text(key: Seq<char>) -> Seq<char> {
    "remote worker rejected unsupported nix option "@ + quoted(key)
}

/// The message of the first option that a master may not set.
pub open spec fn options_refused(options: Seq<(Seq<char>, Seq<char>)>) -> Option<Seq<char>>
    decreases options.len(),
{
    if options.len() == 0 {
        None
    } else if option_allowed(options[0].0) {
        options_refused(options.skip(1))
    } else {
        Some(option_refused_text(options[0].0))
    }
}

/// Rejects a configuration with an option that a master may not set.
pub fn validate_remote_config(config: &WorkerConfig) -> (r: Result<(), ErrorChain>)
    ensures
        match r {
            Ok(()) => options_refused(config@.nix_options) is None,
            Err(e) => options_refused(config@.nix_options) == Some(e@[0]) && e@ == seq![e@[0]],
        },
{
    let ghost all = config@.nix_options;
    let mut i: usize = 0;
    proof {
        assert(all.skip(0) =~= all);
    }
    while i < config.nix_options.len()
        invariant
            i <= config.nix_options.len(),
            all == config@.nix_options,
            options_refused(all) == options_refused(all.skip(i as int)),
        decreases config.nix_options.len() - i,
    {
        proof {
            assert(all.skip(i as int)[0].0 == config.nix_options@[i as int].0@);
            assert(all.skip(i as int).skip(1) =~= all.skip(i + 1));
        }
        let key = config.nix_options[i].0.as_str();
        if !is_option_allowed(key) {
            return Err(
                ErrorChain::from_message(
                    concat2(
                        "remote worker rejected unsupported nix option ",
                        quote(key).as_str(),
                    ),
                ),
            );
        }
        i += 1;
    }
    Ok(())
}

/// A configuration is accepted exactly when a master may set each of its options.
pub proof fn law_remote_options_are_allowlisted(options: Seq<(Seq<char>, Seq<char>)>)
    ensures
        options_refused(options) is None <==> forall|i: int|
            0 <= i < options.len() ==> option_allowed((#[trigger] options[i]).0),
    decreases options.len(),
{
    if options.len() > 0 {
        let rest = options.skip(1);
        law_remote_options_are_allowlisted(rest);
        if forall|i: int| 0 <= i < options.len() ==> option_allowed((#[trigger] options[i]).0) {
            assert forall|i: int| 0 <= i < rest.len() implies option_allowed(
                (#[trigger] rest[i]).0,
            ) by {
                assert(rest[i] == options[i + 1]);
            }
        }
        if options_refused(options) is None {
            assert forall|i: int| 0 <= i < options.len() implies option_allowed(
                (#[trigger] options[i]).0,
            ) by {
                if i > 0 {
                    assert(options[i] == rest[i - 1]);
                }
            }
        }
    }
}

/// The message of a master and a worker with different stores.
pub open spec fn store_mismatch_text(expected: Seq<char>, actual: Seq<char>) -> Seq<char> {
    "remote worker store dir mismatch: master uses "@ + expected + ", remote uses "@ + actual
}

/// What is wrong with the store of this machine, as a chain of messages.
pub open spec fn store_fault(
    expected: Option<Seq<char>>,
    actual: Result<Seq<char>, Seq<Seq<char>>>,
) -> Option<Seq<Seq<char>>> {
    match expected {
        None => None,
        Some(expected) => match actual {
            Err(chain) => Some(chain),
            Ok(dir) => if dir == expected {
                None
            } else {
                Some(seq![store_mismatch_text(expected, dir)])
            },
        },
    }
}

/// The store of this machine, or why it is not known.
pub open spec fn store_view(actual: Result<String, ErrorChain>) -> Result<
    Seq<char>,
    Seq<Seq<char>>,
> {
    match actual {
        Ok(dir) => Ok(dir@),
        Err(e) => Err(e@),
    }
}

/// Rejects a master whose store is another one; one that expects nothing is accepted.
pub fn validate_store_dir(expected: Option<&str>, actual: &Result<String, ErrorChain>) -> (r:
    Result<(), ErrorChain>)
    ensures
        match r {
            Ok(()) => store_fault(
                match expected {
                    Some(s) => Some(s@),
                    None => None,
                },
                store_view(*actual),
            ) is None,
            Err(e) => store_fault(
                match expected {
                    Some(s) => Some(s@),
                    None => None,
                },
                store_view(*actual),
            ) == Some(e@),
        },
{
    match expected {
        None => Ok(()),
        Some(expected) => match actual {
            Err(e) => Err(e.clone()),
            Ok(dir) => {
                if same(dir.as_str(), expected) {
                    Ok(())
                } else {
                    let mut message = concat3(
                        "remote worker store dir mismatch: master uses ",
                        expected,
                        ", remote uses ",
                    );
                    message.append(dir.as_str());
                    Err(ErrorChain::from_message(message))
                }
            },
        },
    }
}

proof fn lemma_bits(diff: u64, a: u8, b: u8)
    ensures
        (diff | ((a ^ b) as u64)) == 0 <==> diff == 0 && a == b,
{
    let x: u64 = (a ^ b) as u64;
    assert((diff | x) == 0 <==> diff == 0 && x == 0) by (bit_vector);
    assert((a ^ b) == 0 <==> a == b) by (bit_vector);
}

/// The byte at an index, or zero beyond the end.
pub open spec fn byte_at(bytes: Seq<u8>, i: int) -> u8 {
    if 0 <= i < bytes.len() {
        bytes[i]
    } else {
        0
    }
}

fn byte_or_zero(bytes: &[u8], i: usize) -> (r: u8)
    ensures
        r == byte_at(bytes@, i as int),
{
    if i < bytes.len() {
        bytes[i]
    } else {
        0
    }
}

/// Whether a master knows the shared secret: exactly the secret where there is one, and no
/// secret where there is none. The time that the comparison takes depends on the lengths
/// alone.
pub fn token_matches(actual: Option<&str>, expected: Option<&str>) -> (r: bool)
    ensures
        r == match (actual, expected) {
            (Some(a), Some(b)) => a@ == b@,
            (None, None) => true,
            _ => false,
        },
{
    let expected = match expected {
        Some(expected) => expected,
        None => {
            return actual.is_none();
        },
    };
    let actual = match actual {
        Some(actual) => actual,
        None => {
            return false;
        },
    };
    let a = actual.as_bytes();
    let b = expected.as_bytes();
    let x: u64 = a.len() as u64;
    let y: u64 = b.len() as u64;
    let mut diff: u64 = x ^ y;
    proof {
        assert((x ^ y) == 0 <==> x == y) by (bit_vector);
    }
    let n: usize = if a.len() < b.len() {
        b.len()
    } else {
        a.len()
    };
    let mut i: usize = 0;
    while i < n
        invariant
            i <= n,
            diff == 0 <==> a@.len() == b@.len() && forall|j: int|
                0 <= j < i ==> #[trigger] byte_at(a@, j) == byte_at(b@, j),
        decreases n - i,
    {
        let p: u8 = byte_or_zero(a, i);
        let q: u8 = byte_or_zero(b, i);
        proof {
            lemma_bits(diff, p, q);
        }
        diff = diff | ((p ^ q) as u64);
        i += 1;
    }
    proof {
        if diff == 0 {
            assert forall|j: int| 0 <= j < a@.len() implies a@[j] == b@[j] by {
                assert(byte_at(a@, j) == byte_at(b@, j));
            }
            assert(a@ =~= b@);
            vstd::utf8::encode_utf8_decode_utf8(actual@);
            vstd::utf8::encode_utf8_decode_utf8(expected@);
        } else if actual@ == expected@ {
            assert(a@ == b@);
        }
    }
    diff == 0
}

/// How long a master waits.
#[derive(Clone, Copy, PartialEq, Eq, Structural, Debug)]
pub struct RemoteTimeouts {
    /// For the answer to its setup, in seconds.
    pub setup: u64,
    /// For each answer to an item, in seconds.
    pub work_response: u64,
}

impl RemoteTimeouts {
    /// How long a master waits: for an item as long as its evaluation may take, however long
    /// the setup may.
    pub fn from_config(config: &WorkerConfig) -> (r: Self)
        ensures
            r.setup == REMOTE_SETUP_TIMEOUT_SECONDS,
            r.work_response == config.item_timeout_seconds,
    {
        RemoteTimeouts {
            setup: REMOTE_SETUP_TIMEOUT_SECONDS,
            work_response: config.item_timeout_seconds,
        }
    }
}

/// Rejects an empty secret.
pub fn check_serve_token(token: Option<&str>) -> (r: Result<(), ErrorChain>)
    ensures
        match r {
            Ok(()) => token matches Some(t) ==> t@.len() > 0,
            Err(e) => {
                &&& token matches Some(t) && t@.len() == 0
                &&& e@ == seq!["remote worker token must not be empty"@]
            },
        },
{
    match token {
        Some(t) => {
            if t.is_empty() {
                return Err(ErrorChain::new("remote worker token must not be empty"));
            }
            Ok(())
        },
        None => Ok(()),
    }
}

/// A remote worker as its master sees it.
#[derive(Debug)]
pub struct RemoteWorker {
    /// What messages call it.
    pub label: String,
    /// Whether the connection is open.
    pub open: bool,
    /// How long the master waits.
    pub timeouts: RemoteTimeouts,
}

impl RemoteWorker {
    /// The first message to a remote worker: the configuration, the secret, and the store of
    /// this machine, which must be that of the other one.
    pub fn setup_message(config: &WorkerConfig, token: &Option<String>, store_dir: &str) -> (r:
        ClientMessage)
        ensures
            r@ == ClientView::Setup(config@, text_opt(*token), Some(store_dir@)),
    {
        ClientMessage::Setup {
            config: copy_worker_config(config),
            token: token.clone(),
            expected_store_dir: Some(store_dir.to_owned()),
        }
    }

    /// A connection whose setup was answered.
    pub fn connect(label: &str, config: &WorkerConfig, answer: ServerMessage) -> (r: Result<
        Self,
        AnswerError,
    >)
        ensures
            match r {
                Ok(w) => {
                    &&& answer@ is Ready
                    &&& w.label@ == label@
                    &&& w.open
                    &&& w.timeouts.setup == REMOTE_SETUP_TIMEOUT_SECONDS
                    &&& w.timeouts.work_response == config.item_timeout_seconds
                },
                Err(e) => !(answer@ is Ready) && e@ == answer_fault(
                    answer@,
                    "remote worker "@ + label@ + " failed: "@,
                    "remote worker "@ + label@ + " sent unexpected handshake: "@,
                ),
            },
    {
        expect_ready(answer, label)?;
        Ok(
            RemoteWorker {
                label: label.to_owned(),
                open: true,
                timeouts: RemoteTimeouts::from_config(config),
            },
        )
    }

    /// The message that asks for an attribute path.
    pub fn work(&self, path: &Vec<String>) -> (r: Result<ClientMessage, ErrorChain>)
        ensures
            match r {
                Ok(m) => self.open && m@ == ClientView::Work(texts(path@)),
                Err(e) => !self.open && e@ == seq![
                    "remote worker "@ + self.label@ + " is closed"@,
                ],
            },
    {
        if self.open {
            Ok(ClientMessage::Work(copy_texts(path)))
        } else {
            Err(
                ErrorChain::from_message(
                    concat3("remote worker ", self.label.as_str(), " is closed"),
                ),
            )
        }
    }

    /// Takes the first answer to an item.
    pub fn take_event(&self, message: ServerMessage) -> (r: Result<Event, AnswerError>)
        ensures
            match r {
                Ok(event) => message@ == ServerView::Event(event@),
                Err(e) => !(message@ is Event) && e@ == answer_fault(
                    message@,
                    "remote worker "@ + self.label@ + ": "@,
                    "remote worker "@ + self.label@ + " sent unexpected event response: "@,
                ),
            },
    {
        let failed = concat3("remote worker ", self.label.as_str(), ": ");
        let unexpected = concat3(
            "remote worker ",
            self.label.as_str(),
            " sent unexpected event response: ",
        );
        answer_event(message, failed.as_str(), unexpected.as_str())
    }

    /// Takes the second answer to an item.
    pub fn take_status(&self, message: ServerMessage) -> (r: Result<WorkerStatus, AnswerError>)
        ensures
            match r {
                Ok(status) => message@ == ServerView::Status(status),
                Err(e) => !(message@ is Status) && e@ == answer_fault(
                    message@,
                    "remote worker "@ + self.label@ + ": "@,
                    "remote worker "@ + self.label@ + " sent unexpected status response: "@,
                ),
            },
    {
        let failed = concat3("remote worker ", self.label.as_str(), ": ");
        let unexpected = concat3(
            "remote worker ",
            self.label.as_str(),
            " sent unexpected status response: ",
        );
        answer_status(message, failed.as_str(), unexpected.as_str())
    }

    /// What an open connection is told before it is closed in good order.
    pub fn stop(&self) -> (r: Option<ClientMessage>)
        ensures
            match r {
                Some(m) => self.open && m@ == ClientView::Shutdown,
                None => !self.open,
            },
    {
        if self.open {
            Some(ClientMessage::Shutdown)
        } else {
            None
        }
    }

    /// Closes the connection without a word.
    pub fn abort(&mut self)
        ensures
            !final(self).open,
            final(self).label@ == old(self).label@,
            final(self).timeouts == old(self).timeouts,
    {
        self.open = false;
    }
}

/// How far a connection is.
#[derive(Debug)]
pub enum ConnectionPhase {
    /// The setup has not come.
    AwaitSetup,
    /// The store of this machine is looked up, to be compared with this one.
    CheckStore(String),
    /// A worker is started, for the first time or again.
    Spawning { again: bool },
    /// The master may ask for work.
    Idle,
    /// An attribute path is evaluated.
    Working,
    /// The connection is over.
    Closed,
}

/// What a [`ConnectionPhase`] says.
pub enum PhaseView {
    /// See [`ConnectionPhase::AwaitSetup`].
    AwaitSetup,
    /// See [`ConnectionPhase::CheckStore`].
    CheckStore(Seq<char>),
    /// See [`ConnectionPhase::Spawning`].
    Spawning(bool),
    /// See [`ConnectionPhase::Idle`].
    Idle,
    /// See [`ConnectionPhase::Working`].
    Working,
    /// See [`ConnectionPhase::Closed`].
    Closed,
}

impl View for ConnectionPhase {
    type V = PhaseView;

    open spec fn view(&self) -> PhaseView {
        match *self {
            ConnectionPhase::AwaitSetup => PhaseView::AwaitSetup,
            ConnectionPhase::CheckStore(dir) => PhaseView::CheckStore(dir@),
            ConnectionPhase::Spawning { again } => PhaseView::Spawning(again),
            ConnectionPhase::Idle => PhaseView::Idle,
            ConnectionPhase::Working => PhaseView::Working,
            ConnectionPhase::Closed => PhaseView::Closed,
        }
    }
}

/// A connection of a master.
#[derive(Debug)]
pub struct RemoteConnection {
    /// The secret that the master must know.
    pub token: Option<String>,
    /// How far the connection is.
    pub phase: ConnectionPhase,
    /// What the master set up.
    pub config: Option<WorkerConfig>,
}

/// What a [`RemoteConnection`] holds.
pub struct ConnectionView {
    /// See [`RemoteConnection::token`].
    pub token: Option<Seq<char>>,
    /// See [`RemoteConnection::phase`].
    pub phase: PhaseView,
    /// See [`RemoteConnection::config`].
    pub config: Option<WorkerConfigView>,
}

impl View for RemoteConnection {
    type V = ConnectionView;

    open spec fn view(&self) -> ConnectionView {
        ConnectionView {
            token: text_opt(self.token),
            phase: self.phase@,
            config: match self.config {
                Some(c) => Some(c@),
                None => None,
            },
        }
    }
}

/// What happens to a connection.
#[derive(Debug)]
pub enum ConnectionInput {
    /// The master said something, or could not be heard.
    Message(Result<ClientMessage, ErrorChain>),
    /// The store of this machine, or why it is not known.
    StoreDir(Result<String, ErrorChain>),
    /// The worker is ready, or could not be started.
    Spawned(Result<(), ErrorChain>),
    /// The worker has answered an item, or failed to.
    Finished(Result<(Event, WorkerStatus), ErrorChain>),
}

/// What a [`ConnectionInput`] says.
pub enum InputFact {
    /// The master said something.
    Message(ClientView),
    /// The master could not be heard.
    Lost(Seq<Seq<char>>),
    /// See [`ConnectionInput::StoreDir`].
    StoreDir(Result<Seq<char>, Seq<Seq<char>>>),
    /// The worker is ready.
    Spawned,
    /// The worker could not be started.
    SpawnFailed(Seq<Seq<char>>),
    /// The worker has answered an item.
    Finished(EventView, WorkerStatus),
    /// The worker failed to answer an item.
    WorkFailed(Seq<Seq<char>>),
}

impl View for ConnectionInput {
    type V = InputFact;

    open spec fn view(&self) -> InputFact {
        match *self {
            ConnectionInput::Message(Ok(m)) => InputFact::Message(m@),
            ConnectionInput::Message(Err(e)) => InputFact::Lost(e@),
            ConnectionInput::StoreDir(dir) => InputFact::StoreDir(store_view(dir)),
            ConnectionInput::Spawned(Ok(())) => InputFact::Spawned,
            ConnectionInput::Spawned(Err(e)) => InputFact::SpawnFailed(e@),
            ConnectionInput::Finished(Ok((event, status))) => InputFact::Finished(event@, status),
            ConnectionInput::Finished(Err(e)) => InputFact::WorkFailed(e@),
        }
    }
}

/// What is done for a connection.
#[derive(Debug)]
pub enum ConnectionAction {
    /// Say something to the master.
    Send(ServerMessage),
    /// Report a failure to the master, with its causes.
    SendFailure(ErrorChain),
    /// Look up the store of this machine.
    FindStoreDir,
    /// Start a worker.
    Spawn(WorkerConfig),
    /// Let the worker evaluate an attribute path, and listen to the master meanwhile.
    Work(Vec<String>),
    /// Wait until the worker has ended by itself.
    AwaitExit,
    /// Kill the worker.
    AbortWorker,
    /// Let the worker end.
    StopWorker,
    /// Close the connection.
    Close,
    /// Fail.
    Fail(ErrorChain),
    /// Fail because the first message was not a setup but this.
    FailUnexpected(ClientMessage),
}

/// What a [`ConnectionAction`] says.
pub enum ActionView {
    /// See [`ConnectionAction::Send`].
    Send(ServerView),
    /// See [`ConnectionAction::SendFailure`].
    SendFailure(Seq<Seq<char>>),
    /// See [`ConnectionAction::FindStoreDir`].
    FindStoreDir,
    /// See [`ConnectionAction::Spawn`].
    Spawn(WorkerConfigView),
    /// See [`ConnectionAction::Work`].
    Work(Seq<Seq<char>>),
    /// See [`ConnectionAction::AwaitExit`].
    AwaitExit,
    /// See [`ConnectionAction::AbortWorker`].
    AbortWorker,
    /// See [`ConnectionAction::StopWorker`].
    StopWorker,
    /// See [`ConnectionAction::Close`].
    Close,
    /// See [`ConnectionAction::Fail`].
    Fail(Seq<Seq<char>>),
    /// See [`ConnectionAction::FailUnexpected`].
    FailUnexpected(ClientView),
}

impl View for ConnectionAction {
    type V = ActionView;

    open spec fn view(&self) -> ActionView {
        match *self {
            ConnectionAction::Send(m) => ActionView::Send(m@),
            ConnectionAction::SendFailure(e) => ActionView::SendFailure(e@),
            ConnectionAction::FindStoreDir => ActionView::FindStoreDir,
            ConnectionAction::Spawn(c) => ActionView::Spawn(c@),
            ConnectionAction::Work(path) => ActionView::Work(texts(path@)),
            ConnectionAction::AwaitExit => ActionView::AwaitExit,
            ConnectionAction::AbortWorker => ActionView::AbortWorker,
            ConnectionAction::StopWorker => ActionView::StopWorker,
            ConnectionAction::Close => ActionView::Close,
            ConnectionAction::Fail(e) => ActionView::Fail(e@),
            ConnectionAction::FailUnexpected(m) => ActionView::FailUnexpected(m@),
        }
    }
}

/// The actions of a list.
pub open spec fn actions_view(actions: Seq<ConnectionAction>) -> Seq<ActionView> {
    actions.map_values(|a: ConnectionAction| a@)
}

/// The message of a master that does not know the secret.
pub open spec fn unauthenticated_text() -> Seq<char> {
    "remote worker authentication failed"@
}

/// The message of a second setup.
pub open spec fn setup_twice_text() -> Seq<char> {
    "remote worker setup sent twice"@
}

impl ConnectionView {
    /// A connection that has heard nothing.
    pub open spec fn opened(token: Option<Seq<char>>) -> ConnectionView {
        ConnectionView { token, phase: PhaseView::AwaitSetup, config: None }
    }

    /// Whether the input is one that the connection waits for.
    pub open spec fn awaits(self, input: InputFact) -> bool {
        match self.phase {
            PhaseView::AwaitSetup => input is Message || input is Lost,
            PhaseView::CheckStore(_) => input is StoreDir && self.config is Some,
            PhaseView::Spawning(_) => input is Spawned || input is SpawnFailed,
            PhaseView::Idle => input is Message || input is Lost,
            PhaseView::Working => (input is Message || input is Lost || input is Finished
                || input is WorkFailed) && self.config is Some,
            PhaseView::Closed => false,
        }
    }

    /// This connection in another phase.
    pub open spec fn with_phase(self, phase: PhaseView) -> ConnectionView {
        ConnectionView { phase, ..self }
    }

    /// Closed with a failure.
    pub open spec fn failed(self, chain: Seq<Seq<char>>) -> (ConnectionView, Seq<ActionView>) {
        (self.with_phase(PhaseView::Closed), seq![ActionView::Fail(chain)])
    }

    /// A worker is started for a configuration that passes the last check.
    pub open spec fn admitted(self, config: WorkerConfigView) -> (ConnectionView, Seq<ActionView>) {
        match options_refused(config.nix_options) {
            Some(message) => self.failed(seq![message]),
            None => (
                self.with_phase(PhaseView::Spawning(false)),
                seq![ActionView::Spawn(config)],
            ),
        }
    }

    /// The first message.
    pub open spec fn on_first(self, message: ClientView) -> (ConnectionView, Seq<ActionView>) {
        match message {
            ClientView::Setup(config, token, dir) => {
                if token != self.token {
                    (
                        self.with_phase(PhaseView::Closed),
                        seq![
                            ActionView::Send(ServerView::Error(unauthenticated_text())),
                            ActionView::Fail(seq![unauthenticated_text()]),
                        ],
                    )
                } else {
                    let known = ConnectionView { config: Some(config), ..self };
                    match dir {
                        Some(dir) => (
                            known.with_phase(PhaseView::CheckStore(dir)),
                            seq![ActionView::FindStoreDir],
                        ),
                        None => known.admitted(config),
                    }
                }
            },
            other => (
                self.with_phase(PhaseView::Closed),
                seq![ActionView::FailUnexpected(other)],
            ),
        }
    }

    /// A message between two items.
    pub open spec fn on_request(self, message: ClientView) -> (ConnectionView, Seq<ActionView>) {
        match message {
            ClientView::Work(path) => (
                self.with_phase(PhaseView::Working),
                seq![ActionView::Work(path)],
            ),
            ClientView::Shutdown => (
                self.with_phase(PhaseView::Closed),
                seq![ActionView::StopWorker, ActionView::Close],
            ),
            ClientView::Setup(_, _, _) => self.failed(seq![setup_twice_text()]),
        }
    }

    /// What becomes of a connection whose master speaks while an item is evaluated.
    pub open spec fn inflight(message: ClientView) -> ActionView {
        match message {
            ClientView::Shutdown => ActionView::Close,
            ClientView::Work(_) => ActionView::Fail(
                seq!["remote worker received new work while an attribute was in flight"@],
            ),
            ClientView::Setup(_, _, _) => ActionView::Fail(seq![setup_twice_text()]),
        }
    }

    /// What is done about an input.
    pub open spec fn step(self, input: InputFact) -> (ConnectionView, Seq<ActionView>) {
        match self.phase {
            PhaseView::AwaitSetup => match input {
                InputFact::Message(message) => self.on_first(message),
                InputFact::Lost(chain) => self.failed(chain),
                _ => (self, Seq::empty()),
            },
            PhaseView::CheckStore(expected) => match input {
                InputFact::StoreDir(actual) => match store_fault(Some(expected), actual) {
                    Some(chain) => self.failed(chain),
                    None => self.admitted(self.config->Some_0),
                },
                _ => (self, Seq::empty()),
            },
            PhaseView::Spawning(again) => match input {
                InputFact::Spawned => (
                    self.with_phase(PhaseView::Idle),
                    if again {
                        Seq::empty()
                    } else {
                        seq![ActionView::Send(ServerView::Ready)]
                    },
                ),
                InputFact::SpawnFailed(chain) => self.failed(chain),
                _ => (self, Seq::empty()),
            },
            PhaseView::Idle => match input {
                InputFact::Message(message) => self.on_request(message),
                InputFact::Lost(chain) => (
                    self.with_phase(PhaseView::Closed),
                    seq![
                        ActionView::AbortWorker,
                        ActionView::Fail(seq!["reading remote worker request"@] + chain),
                    ],
                ),
                _ => (self, Seq::empty()),
            },
            PhaseView::Working => match input {
                InputFact::Message(message) => (
                    self.with_phase(PhaseView::Closed),
                    seq![ActionView::AbortWorker, Self::inflight(message)],
                ),
                InputFact::Lost(chain) => (
                    self.with_phase(PhaseView::Closed),
                    seq![
                        ActionView::AbortWorker,
                        ActionView::Fail(
                            seq!["reading remote worker request during work"@] + chain,
                        ),
                    ],
                ),
                InputFact::Finished(event, status) => {
                    let answers = seq![
                        ActionView::Send(ServerView::Event(event)),
                        ActionView::Send(ServerView::Status(status)),
                    ];
                    if status == WorkerStatus::Restart {
                        (
                            self.with_phase(PhaseView::Spawning(true)),
                            answers + seq![
                                ActionView::AwaitExit,
                                ActionView::Spawn(self.config->Some_0),
                            ],
                        )
                    } else {
                        (self.with_phase(PhaseView::Idle), answers)
                    }
                },
                InputFact::WorkFailed(chain) => (
                    self.with_phase(PhaseView::Closed),
                    seq![ActionView::SendFailure(chain), ActionView::Fail(chain)],
                ),
                _ => (self, Seq::empty()),
            },
            PhaseView::Closed => (self, Seq::empty()),
        }
    }
}

/// What becomes of a connection whose master speaks while an item is evaluated: only the wish
/// to end is in order.
pub fn handle_inflight_client_message(message: ClientMessage) -> (r: ConnectionAction)
    ensures
        r@ == ConnectionView::inflight(message@),
{
    match message {
        ClientMessage::Shutdown => ConnectionAction::Close,
        ClientMessage::Work(_) => {
            let e = ErrorChain::new(
                "remote worker received new work while an attribute was in flight",
            );
            ConnectionAction::Fail(e)
        },
        ClientMessage::Setup { config: _, token: _, expected_store_dir: _ } => {
            ConnectionAction::Fail(ErrorChain::new("remote worker setup sent twice"))
        },
    }
}

fn one(action: ConnectionAction) -> (r: Vec<ConnectionAction>)
    ensures
        actions_view(r@) == seq![action@],
{
    let mut out: Vec<ConnectionAction> = Vec::new();
    out.push(action);
    proof {
        assert(actions_view(out@) =~= seq![action@]);
    }
    out
}

fn two(a: ConnectionAction, b: ConnectionAction) -> (r: Vec<ConnectionAction>)
    ensures
        actions_view(r@) == seq![a@, b@],
{
    let mut out: Vec<ConnectionAction> = Vec::new();
    out.push(a);
    out.push(b);
    proof {
        assert(actions_view(out@) =~= seq![a@, b@]);
    }
    out
}

fn token_text(token: &Option<String>) -> (r: Option<&str>)
    ensures
        match r {
            Some(s) => text_opt(*token) == Some(s@),
            None => *token is None,
        },
{
    match token {
        Some(s) => Some(s.as_str()),
        None => None,
    }
}

impl RemoteConnection {
    /// A connection that has heard nothing.
    pub fn new(token: Option<String>) -> (r: Self)
        ensures
            r@ == ConnectionView::opened(text_opt(token)),
    {
        RemoteConnection { token, phase: ConnectionPhase::AwaitSetup, config: None }
    }

    fn fail(&mut self, e: ErrorChain) -> (r: Vec<ConnectionAction>)
        ensures
            final(self)@ == old(self)@.failed(e@).0,
            actions_view(r@) == old(self)@.failed(e@).1,
    {
        self.phase = ConnectionPhase::Closed;
        one(ConnectionAction::Fail(e))
    }

    fn start_worker(&mut self, config: WorkerConfig) -> (r: Vec<ConnectionAction>)
        ensures
            final(self)@ == old(self)@.admitted(config@).0,
            actions_view(r@) == old(self)@.admitted(config@).1,
    {
        match validate_remote_config(&config) {
            Err(e) => self.fail(e),
            Ok(()) => {
                self.phase = ConnectionPhase::Spawning { again: false };
                one(ConnectionAction::Spawn(config))
            },
        }
    }

    fn first_message(&mut self, message: ClientMessage) -> (r: Vec<ConnectionAction>)
        ensures
            final(self)@ == old(self)@.on_first(message@).0,
            actions_view(r@) == old(self)@.on_first(message@).1,
    {
        match message {
            ClientMessage::Setup { config, token, expected_store_dir } => {
                if !token_matches(token_text(&token), token_text(&self.token)) {
                    self.phase = ConnectionPhase::Closed;
                    return two(
                        ConnectionAction::Send(
                            ServerMessage::Error("remote worker authentication failed".to_owned()),
                        ),
                        ConnectionAction::Fail(
                            ErrorChain::new("remote worker authentication failed"),
                        ),
                    );
                }
                self.config = Some(copy_worker_config(&config));
                match expected_store_dir {
                    Some(dir) => {
                        self.phase = ConnectionPhase::CheckStore(dir);
                        one(ConnectionAction::FindStoreDir)
                    },
                    None => self.start_worker(config),
                }
            },
            other => {
                self.phase = ConnectionPhase::Closed;
                one(ConnectionAction::FailUnexpected(other))
            },
        }
    }

    fn next_request(&mut self, message: ClientMessage) -> (r: Vec<ConnectionAction>)
        ensures
            final(self)@ == old(self)@.on_request(message@).0,
            actions_view(r@) == old(self)@.on_request(message@).1,
    {
        match message {
            ClientMessage::Work(path) => {
                self.phase = ConnectionPhase::Working;
                one(ConnectionAction::Work(path))
            },
            ClientMessage::Shutdown => {
                self.phase = ConnectionPhase::Closed;
                two(ConnectionAction::StopWorker, ConnectionAction::Close)
            },
            ClientMessage::Setup { config: _, token: _, expected_store_dir: _ } => self.fail(
                ErrorChain::new("remote worker setup sent twice"),
            ),
        }
    }

    fn stored_config(&self) -> (r: WorkerConfig)
        requires
            self@.config is Some,
        ensures
            r@ == self@.config->Some_0,
    {
        match &self.config {
            Some(config) => copy_worker_config(config),
            None => WorkerConfig::from(&crate::config::Config::default()),
        }
    }

    fn work_done(&mut self, event: Event, status: WorkerStatus) -> (r: Vec<ConnectionAction>)
        requires
            old(self)@.phase == PhaseView::Working,
            old(self)@.config is Some,
        ensures
            final(self)@ == old(self)@.step(InputFact::Finished(event@, status)).0,
            actions_view(r@) == old(self)@.step(InputFact::Finished(event@, status)).1,
    {
        let mut out = two(
            ConnectionAction::Send(ServerMessage::Event(event)),
            ConnectionAction::Send(ServerMessage::Status(status)),
        );
        let ghost answers = actions_view(out@);
        match status {
            WorkerStatus::Restart => {
                let config = self.stored_config();
                out.push(ConnectionAction::AwaitExit);
                out.push(ConnectionAction::Spawn(config));
                proof {
                    assert(actions_view(out@) =~= answers + seq![
                        ActionView::AwaitExit,
                        ActionView::Spawn(self@.config->Some_0),
                    ]);
                }
                self.phase = ConnectionPhase::Spawning { again: true };
            },
            WorkerStatus::Ready => {
                self.phase = ConnectionPhase::Idle;
            },
        }
        out
    }

    /// What is done about what happens to a connection.
    ///
    /// The first message must be a setup by a master that knows the secret, with the store of
    /// this machine if it names one, and with allowed options only. Then a worker is started,
    /// and each attribute path is answered with its event and its status; a worker at its end
    /// is replaced. A master that speaks while an attribute path is evaluated, or that cannot
    /// be heard any more, has its worker killed.
    pub fn serve_connection(&mut self, input: ConnectionInput) -> (r: Vec<ConnectionAction>)
        requires
            old(self)@.awaits(input@),
        ensures
            final(self)@ == old(self)@.step(input@).0,
            actions_view(r@) == old(self)@.step(input@).1,
    {
        match input {
            ConnectionInput::Message(Ok(message)) => match &self.phase {
                ConnectionPhase::AwaitSetup => self.first_message(message),
                ConnectionPhase::Idle => self.next_request(message),
                _ => {
                    self.phase = ConnectionPhase::Closed;
                    two(
                        ConnectionAction::AbortWorker,
                        handle_inflight_client_message(message),
                    )
                },
            },
            ConnectionInput::Message(Err(e)) => match &self.phase {
                ConnectionPhase::AwaitSetup => self.fail(e),
                ConnectionPhase::Idle => {
                    self.phase = ConnectionPhase::Closed;
                    two(
                        ConnectionAction::AbortWorker,
                        ConnectionAction::Fail(e.context("reading remote worker request")),
                    )
                },
                _ => {
                    self.phase = ConnectionPhase::Closed;
                    two(
                        ConnectionAction::AbortWorker,
                        ConnectionAction::Fail(
                            e.context("reading remote worker request during work"),
                        ),
                    )
                },
            },
            ConnectionInput::StoreDir(actual) => {
                let checked = match &self.phase {
                    ConnectionPhase::CheckStore(expected) => validate_store_dir(
                        Some(expected.as_str()),
                        &actual,
                    ),
                    _ => Ok(()),
                };
                match checked {
                    Err(e) => self.fail(e),
                    Ok(()) => {
                        let config = self.stored_config();
                        self.start_worker(config)
                    },
                }
            },
            ConnectionInput::Spawned(Ok(())) => {
                let again: bool = match &self.phase {
                    ConnectionPhase::Spawning { again } => *again,
                    _ => true,
                };
                self.phase = ConnectionPhase::Idle;
                if again {
                    let none: Vec<ConnectionAction> = Vec::new();
                    proof {
                        assert(actions_view(none@) =~= Seq::empty());
                    }
                    none
                } else {
                    one(ConnectionAction::Send(ServerMessage::Ready))
                }
            },
            ConnectionInput::Spawned(Err(e)) => self.fail(e),
            ConnectionInput::Finished(Ok((event, status))) => self.work_done(event, status),
            ConnectionInput::Finished(Err(e)) => {
                self.phase = ConnectionPhase::Closed;
                let report = e.clone();
                two(ConnectionAction::SendFailure(report), ConnectionAction::Fail(e))
            },
        }
    }
}

/// A master that does not know the secret is told so, and nothing is started for it.
pub proof fn law_unauthenticated_masters_get_nothing(
    s: ConnectionView,
    config: WorkerConfigView,
    token: Option<Seq<char>>,
    dir: Option<Seq<char>>,
)
    requires
        s.phase == PhaseView::AwaitSetup,
        token != s.token,
    ensures
        ({
            let (after, actions) = s.step(InputFact::Message(ClientView::Setup(config, token, dir)));
            &&& after.phase == PhaseView::Closed
            &&& actions == seq![
                ActionView::Send(ServerView::Error(unauthenticated_text())),
                ActionView::Fail(seq![unauthenticated_text()]),
            ]
        }),
{
}

/// A worker is first started only for a setup with the right secret, the right store where one
/// is named, and allowed options only.
pub proof fn law_workers_start_for_valid_setups(
    token: Option<Seq<char>>,
    message: ClientView,
    store: Result<Seq<char>, Seq<Seq<char>>>,
)
    ensures
        ({
            let (s, first) = ConnectionView::opened(token).step(InputFact::Message(message));
            let second = if s.phase is CheckStore {
                s.step(InputFact::StoreDir(store)).1
            } else {
                Seq::empty()
            };
            forall|config: WorkerConfigView|
                (#[trigger] first.contains(ActionView::Spawn(config)) || second.contains(
                    ActionView::Spawn(config),
                )) ==> {
                    &&& message matches ClientView::Setup(c, t, dir) && c == config && t == token
                        && store_fault(dir, store) is None
                    &&& options_refused(config.nix_options) is None
                }
        }),
{
    let (s, first) = ConnectionView::opened(token).step(InputFact::Message(message));
    let second = if s.phase is CheckStore {
        s.step(InputFact::StoreDir(store)).1
    } else {
        Seq::empty()
    };
    assert forall|config: WorkerConfigView|
        (#[trigger] first.contains(ActionView::Spawn(config)) || second.contains(
            ActionView::Spawn(config),
        )) implies {
        &&& message matches ClientView::Setup(c, t, dir) && c == config && t == token
            && store_fault(dir, store) is None
        &&& options_refused(config.nix_options) is None
    } by {
        if first.contains(ActionView::Spawn(config)) {
            let i = first.index_of(ActionView::Spawn(config));
            assert(first[i] == ActionView::Spawn(config));
        } else {
            let i = second.index_of(ActionView::Spawn(config));
            assert(second[i] == ActionView::Spawn(config));
        }
    }
}

/// Every attribute path that is answered is answered with its event and then its status, and
/// the connection goes on: at once, or with a new worker of the same configuration.
pub proof fn law_items_are_answered(s: ConnectionView, event: EventView, status: WorkerStatus)
    requires
        s.phase == PhaseView::Working,
        s.config is Some,
    ensures
        ({
            let (after, actions) = s.step(InputFact::Finished(event, status));
            &&& actions.len() >= 2
            &&& actions[0] == ActionView::Send(ServerView::Event(event))
            &&& actions[1] == ActionView::Send(ServerView::Status(status))
            &&& after.config == s.config
            &&& status == WorkerStatus::Ready ==> after.phase == PhaseView::Idle
            &&& status == WorkerStatus::Restart ==> actions.last() == ActionView::Spawn(
                s.config->Some_0,
            ) && after.step(InputFact::Spawned) == (
                after.with_phase(PhaseView::Idle),
                Seq::<ActionView>::empty(),
            )
        }),
{
}

/// A master may set six options on this machine and no other; the first option of a list that it
/// may not set is named in the refusal.
pub proof fn law_refused_options_are_named(options: Seq<(Seq<char>, Seq<char>)>, i: int)
    ensures
        forall|key: Seq<char>| #[trigger]
            option_allowed(key) <==> key == "accept-flake-config"@ || key
                == "allow-import-from-derivation"@ || key == "allowed-uris"@ || key
                == "experimental-features"@ || key == "extra-experimental-features"@ || key
                == "restrict-eval"@,
        0 <= i < options.len() && !option_allowed(options[i].0) && (forall|j: int|
            0 <= j < i ==> option_allowed((#[trigger] options[j]).0)) ==> options_refused(options)
            == Some("remote worker rejected unsupported nix option "@ + quoted(options[i].0)),
    decreases options.len(),
{
    if options.len() > 0 && i > 0 {
        let rest = options.skip(1);
        law_refused_options_are_named(rest, i - 1);
        if 0 <= i < options.len() && !option_allowed(options[i].0) && (forall|j: int|
            0 <= j < i ==> option_allowed((#[trigger] options[j]).0)) {
            assert(option_allowed(options[0].0));
            assert forall|j: int| 0 <= j < i - 1 implies option_allowed(
                (#[trigger] rest[j]).0,
            ) by {
                assert(rest[j] == options[j + 1]);
            }
        }
    }
}

/// A master that names no store gets any, one that names a store gets that one only, and where
/// the store of this machine is not known such a master is refused for that reason.
pub proof fn law_masters_get_the_store_they_name(
    expected: Seq<char>,
    dir: Seq<char>,
    chain: Seq<Seq<char>>,
    actual: Result<Seq<char>, Seq<Seq<char>>>,
)
    ensures
        store_fault(None, actual) is None,
        store_fault(Some(expected), Ok(expected)) is None,
        dir != expected ==> store_fault(Some(expected), Ok(dir)) == Some(
            seq![
                "remote worker store dir mismatch: master uses "@ + expected + ", remote uses "@
                    + dir,
            ],
        ),
        store_fault(Some(expected), Err(chain)) == Some(chain),
{
}

/// A setup with the right secret and allowed options is served: a worker is started with that
/// configuration, at once or once the store that it names turned out to be the one here. When
/// the worker is there the master is told, and the connection waits for work.
pub proof fn law_valid_setups_are_served(
    token: Option<Seq<char>>,
    config: WorkerConfigView,
    store: Seq<char>,
)
    requires
        forall|i: int|
            0 <= i < config.nix_options.len() ==> option_allowed(
                (#[trigger] config.nix_options[i]).0,
            ),
    ensures
        ({
            let s = ConnectionView::opened(token);
            let (at_once, first) = s.step(
                InputFact::Message(ClientView::Setup(config, token, None)),
            );
            let (asking, second) = s.step(
                InputFact::Message(ClientView::Setup(config, token, Some(store))),
            );
            let (checked, third) = asking.step(InputFact::StoreDir(Ok(store)));
            let (idle, ready) = at_once.step(InputFact::Spawned);
            &&& s.awaits(InputFact::Message(ClientView::Setup(config, token, None)))
            &&& first == seq![ActionView::Spawn(config)]
            &&& second == seq![ActionView::FindStoreDir]
            &&& asking.awaits(InputFact::StoreDir(Ok(store)))
            &&& third == seq![ActionView::Spawn(config)]
            &&& at_once.awaits(InputFact::Spawned) && checked.awaits(InputFact::Spawned)
            &&& ready == seq![ActionView::Send(ServerView::Ready)]
            &&& idle.phase == PhaseView::Idle && idle.config == Some(config) && idle.token == token
            &&& checked.step(InputFact::Spawned) == (idle, ready)
        }),
{
    law_remote_options_are_allowlisted(config.nix_options);
}

/// A setup with an option that is not allowed, or from a master with another store, starts
/// nothing, and the connection ends.
pub proof fn law_other_setups_are_refused(
    token: Option<Seq<char>>,
    config: WorkerConfigView,
    expected: Seq<char>,
    store: Seq<char>,
)
    ensures
        ({
            let s = ConnectionView::opened(token);
            let (after, actions) = s.step(
                InputFact::Message(ClientView::Setup(config, token, None)),
            );
            let (asking, _) = s.step(
                InputFact::Message(ClientView::Setup(config, token, Some(expected))),
            );
            let (end, last) = asking.step(InputFact::StoreDir(Ok(store)));
            &&& (exists|i: int|
                0 <= i < config.nix_options.len() && !option_allowed(
                    (#[trigger] config.nix_options[i]).0,
                )) ==> after.phase == PhaseView::Closed && actions.len() == 1 && actions[0] is Fail
            &&& store != expected ==> end.phase == PhaseView::Closed && last.len() == 1
                && last[0] is Fail
        }),
{
    law_remote_options_are_allowlisted(config.nix_options);
}

/// Between two items a connection takes an attribute path and lets the worker evaluate exactly
/// that, or lets the worker end when it is told to; a second setup is refused, and a master that
/// cannot be heard has its worker killed.
pub proof fn law_idle_connections_take_work(
    s: ConnectionView,
    path: Seq<Seq<char>>,
    config: WorkerConfigView,
    chain: Seq<Seq<char>>,
)
    requires
        s.phase == PhaseView::Idle,
    ensures
        s.step(InputFact::Message(ClientView::Work(path))).0.phase == PhaseView::Working,
        s.step(InputFact::Message(ClientView::Work(path))).0.config == s.config,
        s.step(InputFact::Message(ClientView::Work(path))).1 == seq![ActionView::Work(path)],
        s.step(InputFact::Message(ClientView::Shutdown)).0.phase == PhaseView::Closed,
        s.step(InputFact::Message(ClientView::Shutdown)).1 == seq![
            ActionView::StopWorker,
            ActionView::Close,
        ],
        s.step(InputFact::Message(ClientView::Setup(config, None, None))).0.phase
            == PhaseView::Closed,
        s.step(InputFact::Message(ClientView::Setup(config, None, None))).1 == seq![
            ActionView::Fail(seq!["remote worker setup sent twice"@]),
        ],
        s.step(InputFact::Lost(chain)).0.phase == PhaseView::Closed,
        s.step(InputFact::Lost(chain)).1 == seq![
            ActionView::AbortWorker,
            ActionView::Fail(seq!["reading remote worker request"@] + chain),
        ],
{
}

/// A master that says anything while an attribute path is evaluated, or that cannot be heard any
/// more, has its worker killed and the connection ended; only the wish to end is no failure. A
/// worker that fails is reported to the master.
pub proof fn law_masters_are_silent_while_work_is_done(
    s: ConnectionView,
    path: Seq<Seq<char>>,
    config: WorkerConfigView,
    chain: Seq<Seq<char>>,
)
    requires
        s.phase == PhaseView::Working,
    ensures
        s.step(InputFact::Message(ClientView::Shutdown)).1 == seq![
            ActionView::AbortWorker,
            ActionView::Close,
        ],
        s.step(InputFact::Message(ClientView::Work(path))).1 == seq![
            ActionView::AbortWorker,
            ActionView::Fail(
                seq!["remote worker received new work while an attribute was in flight"@],
            ),
        ],
        s.step(InputFact::Message(ClientView::Setup(config, None, None))).1 == seq![
            ActionView::AbortWorker,
            ActionView::Fail(seq!["remote worker setup sent twice"@]),
        ],
        s.step(InputFact::Lost(chain)).1 == seq![
            ActionView::AbortWorker,
            ActionView::Fail(seq!["reading remote worker request during work"@] + chain),
        ],
        s.step(InputFact::WorkFailed(chain)).1 == seq![
            ActionView::SendFailure(chain),
            ActionView::Fail(chain),
        ],
        s.step(InputFact::Message(ClientView::Shutdown)).0.phase == PhaseView::Closed,
        s.step(InputFact::Message(ClientView::Work(path))).0.phase == PhaseView::Closed,
        s.step(InputFact::Message(ClientView::Setup(config, None, None))).0.phase
            == PhaseView::Closed,
        s.step(InputFact::Lost(chain)).0.phase == PhaseView::Closed,
        s.step(InputFact::WorkFailed(chain)).0.phase == PhaseView::Closed,
{
}

/// A connection begins with a setup: anything else that comes first ends it, and so does a
/// master that cannot be heard or a worker that cannot be started.
pub proof fn law_connections_begin_with_a_setup(
    s: ConnectionView,
    path: Seq<Seq<char>>,
    chain: Seq<Seq<char>>,
    again: bool,
)
    ensures
        s.phase == PhaseView::AwaitSetup ==> {
            &&& s.step(InputFact::Message(ClientView::Work(path))).0.phase == PhaseView::Closed
            &&& s.step(InputFact::Message(ClientView::Work(path))).1 == seq![
                ActionView::FailUnexpected(ClientView::Work(path)),
            ]
            &&& s.step(InputFact::Message(ClientView::Shutdown)).1 == seq![
                ActionView::FailUnexpected(ClientView::Shutdown),
            ]
            &&& s.step(InputFact::Lost(chain)).0.phase == PhaseView::Closed
            &&& s.step(InputFact::Lost(chain)).1 == seq![ActionView::Fail(chain)]
        },
        s.phase == PhaseView::Spawning(again) ==> {
            &&& s.step(InputFact::SpawnFailed(chain)).0.phase == PhaseView::Closed
            &&& s.step(InputFact::SpawnFailed(chain)).1 == seq![ActionView::Fail(chain)]
        },
{
}

/// A master that does not know the secret is told that it could not be authenticated, and the
/// connection fails with the same words.
pub proof fn law_refused_masters_are_told_why(
    token: Option<Seq<char>>,
    config: WorkerConfigView,
    other: Option<Seq<char>>,
    dir: Option<Seq<char>>,
)
    requires
        other != token,
    ensures
        ConnectionView::opened(token).step(
            InputFact::Message(ClientView::Setup(config, other, dir)),
        ).1 == seq![
            ActionView::Send(ServerView::Error("remote worker authentication failed"@)),
            ActionView::Fail(seq!["remote worker authentication failed"@]),
        ],
        REMOTE_SETUP_TIMEOUT_SECONDS == 30,
        MAX_REMOTE_CONNECTIONS == 64,
{
}

/// What a connection, what happens to it and what is done for it say is what stands in them.
pub proof fn law_connections_say_what_they_do(
    c: RemoteConnection,
    dir: String,
    again: bool,
    client: ClientMessage,
    server: ServerMessage,
    e: ErrorChain,
    event: Event,
    status: WorkerStatus,
    config: WorkerConfig,
    path: Vec<String>,
)
    ensures
        c@.token == text_opt(c.token),
        c@.phase == c.phase@,
        c.config matches Some(config) ==> c@.config == Some(config@),
        c.config is None ==> c@.config is None,
        ConnectionPhase::AwaitSetup@ == PhaseView::AwaitSetup,
        ConnectionPhase::CheckStore(dir)@ == PhaseView::CheckStore(dir@),
        (ConnectionPhase::Spawning { again })@ == PhaseView::Spawning(again),
        ConnectionPhase::Idle@ == PhaseView::Idle,
        ConnectionPhase::Working@ == PhaseView::Working,
        ConnectionPhase::Closed@ == PhaseView::Closed,
        ConnectionInput::Message(Ok(client))@ == InputFact::Message(client@),
        ConnectionInput::Message(Err(e))@ == InputFact::Lost(e@),
        ConnectionInput::StoreDir(Ok(dir))@ == InputFact::StoreDir(Ok(dir@)),
        ConnectionInput::StoreDir(Err(e))@ == InputFact::StoreDir(Err(e@)),
        ConnectionInput::Spawned(Ok(()))@ == InputFact::Spawned,
        ConnectionInput::Spawned(Err(e))@ == InputFact::SpawnFailed(e@),
        ConnectionInput::Finished(Ok((event, status)))@ == InputFact::Finished(event@, status),
        ConnectionInput::Finished(Err(e))@ == InputFact::WorkFailed(e@),
        ConnectionAction::Send(server)@ == ActionView::Send(server@),
        ConnectionAction::SendFailure(e)@ == ActionView::SendFailure(e@),
        ConnectionAction::FindStoreDir@ == ActionView::FindStoreDir,
        ConnectionAction::Spawn(config)@ == ActionView::Spawn(config@),
        ConnectionAction::Work(path)@ == ActionView::Work(texts(path@)),
        ConnectionAction::AwaitExit@ == ActionView::AwaitExit,
        ConnectionAction::AbortWorker@ == ActionView::AbortWorker,
        ConnectionAction::StopWorker@ == ActionView::StopWorker,
        ConnectionAction::Close@ == ActionView::Close,
        ConnectionAction::Fail(e)@ == ActionView::Fail(e@),
        ConnectionAction::FailUnexpected(client)@ == ActionView::FailUnexpected(client@),
{
}

/// A remote worker is asked for work and told to stop only while the connection is open, its
/// setup carries the secret and the store of this machine, and it waits as long for an item as
/// the configuration says. A secret must not be empty.
pub proof fn law_remote_workers_are_asked_while_open(
    w: RemoteWorker,
    config: WorkerConfig,
    token: Option<String>,
    dir: &str,
    label: &str,
    path: Vec<String>,
    secret: Option<&str>,
    asked: Result<ClientMessage, ErrorChain>,
    stopped: Option<ClientMessage>,
    setup: ClientMessage,
    connected: Result<RemoteWorker, AnswerError>,
    checked: Result<(), ErrorChain>,
)
    requires
        call_ensures(RemoteWorker::work, (&w, &path), asked),
        call_ensures(RemoteWorker::stop, (&w,), stopped),
        call_ensures(RemoteWorker::setup_message, (&config, &token, dir), setup),
        call_ensures(RemoteWorker::connect, (label, &config, ServerMessage::Ready), connected),
        call_ensures(check_serve_token, (secret,), checked),
    ensures
        w.open ==> (asked matches Ok(m) && m@ == ClientView::Work(texts(path@))),
        !w.open ==> (asked matches Err(e) && e@ == seq![
            "remote worker "@ + w.label@ + " is closed"@,
        ]),
        stopped is Some <==> w.open,
        stopped matches Some(m) ==> m@ == ClientView::Shutdown,
        setup@ == ClientView::Setup(config@, text_opt(token), Some(dir@)),
        connected matches Ok(c) && c.open && c.label@ == label@ && c.timeouts.work_response
            == config.item_timeout_seconds,
        checked is Err <==> (secret matches Some(t) && t@.len() == 0),
        checked matches Err(e) ==> e@ == seq!["remote worker token must not be empty"@],
{
}

/// An answer is taken only where it is the one that is due; another is reported with the name of
/// the worker.
pub proof fn law_remote_answers_are_taken_in_turn(
    w: RemoteWorker,
    message: ServerMessage,
    event: Result<Event, AnswerError>,
    status: Result<WorkerStatus, AnswerError>,
)
    requires
        call_ensures(RemoteWorker::take_event, (&w, message), event),
        call_ensures(RemoteWorker::take_status, (&w, message), status),
    ensures
        event is Ok <==> message@ is Event,
        status is Ok <==> message@ is Status,
        event matches Ok(e) ==> message@ == ServerView::Event(e@),
        status matches Ok(s) ==> message@ == ServerView::Status(s),
        message@ matches ServerView::Error(text) ==> (event matches Err(e) && e@
            == crate::messages::AnswerFault::Failed("remote worker "@ + w.label@ + ": "@ + text))
            && (status matches Err(e) && e@ == crate::messages::AnswerFault::Failed(
            "remote worker "@ + w.label@ + ": "@ + text,
        )),
{
}

} // verus!
