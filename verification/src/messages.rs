//! The messages between a master and its workers, and the answers that each may get.

use vstd::prelude::*;

use crate::config::{WorkerConfig, WorkerConfigView};
use crate::model::{Derivation, EvalError, EvalErrorView, Event, EventView};
use crate::text::{concat3, text_opt, texts};
use crate::wire::{
    config_read, config_too_long, derivation_read, derivation_too_long, holds_config,
    holds_derivation, holds_opt, lemma_text_back, lists, meta_plain, opt_read, read_derivation,
    read_text, read_text_list, read_text_opt, read_worker_config, set_derivation, set_text_list,
    set_text_opt, set_worker_config, text_bytes, text_read, texts_read, timeout_read,
    DerivationRecord, TextOptRecord, WireError, WireFault, WorkerConfigRecord,
    WORKER_PROTOCOL_VERSION,
};

verus! {

/// What a worker says once an item is done.
#[derive(Clone, Copy, PartialEq, Eq, Structural, Debug)]
pub enum WorkerStatus {
    /// It can take more work.
    Ready,
    /// It has used too much memory and ends.
    Restart,
}

/// What a master says to a worker.
#[derive(Debug)]
pub enum ClientMessage {
    /// The first message: how to evaluate, and who asks.
    Setup { config: WorkerConfig, token: Option<String>, expected_store_dir: Option<String> },
    /// An attribute path to evaluate.
    Work(Vec<String>),
    /// The worker is to end.
    Shutdown,
}

/// What a [`ClientMessage`] says.
pub enum ClientView {
    /// See [`ClientMessage::Setup`].
    Setup(WorkerConfigView, Option<Seq<char>>, Option<Seq<char>>),
    /// See [`ClientMessage::Work`].
    Work(Seq<Seq<char>>),
    /// See [`ClientMessage::Shutdown`].
    Shutdown,
}

impl View for ClientMessage {
    type V = ClientView;

    open spec fn view(&self) -> ClientView {
        match *self {
            ClientMessage::Setup { config, token, expected_store_dir } => ClientView::Setup(
                config@,
                text_opt(token),
                text_opt(expected_store_dir),
            ),
            ClientMessage::Work(path) => ClientView::Work(texts(path@)),
            ClientMessage::Shutdown => ClientView::Shutdown,
        }
    }
}

/// What a worker says to its master.
#[derive(Debug)]
pub enum ServerMessage {
    /// It can take work.
    Ready,
    /// What the evaluation of an item yielded.
    Event(Event),
    /// The item is done.
    Status(WorkerStatus),
    /// It failed.
    Error(String),
}

/// What a [`ServerMessage`] says.
pub enum ServerView {
    /// See [`ServerMessage::Ready`].
    Ready,
    /// See [`ServerMessage::Event`].
    Event(EventView),
    /// See [`ServerMessage::Status`].
    Status(WorkerStatus),
    /// See [`ServerMessage::Error`].
    Error(Seq<char>),
}

impl View for ServerMessage {
    type V = ServerView;

    open spec fn view(&self) -> ServerView {
        match *self {
            ServerMessage::Ready => ServerView::Ready,
            ServerMessage::Event(event) => ServerView::Event(event@),
            ServerMessage::Status(status) => ServerView::Status(status),
            ServerMessage::Error(error) => ServerView::Error(error@),
        }
    }
}

/// A setup of a record.
pub struct SetupRecord {
    /// How to evaluate.
    pub config: WorkerConfigRecord,
    /// The shared secret.
    pub token: TextOptRecord,
    /// The store directory that the master uses.
    pub expected_store_dir: TextOptRecord,
    /// The version that the master speaks.
    pub protocol_version: u32,
}

/// A master's message on the wire.
pub enum ClientRecord {
    /// A setup.
    Setup(SetupRecord),
    /// An attribute path.
    Work(Vec<Vec<u8>>),
    /// The end.
    Shutdown,
    /// What this schema does not know.
    Unknown(u16),
}

/// Whether a record is that of a message.
pub open spec fn holds_client(record: ClientRecord, message: ClientView) -> bool {
    match message {
        ClientView::Setup(config, token, dir) => record matches ClientRecord::Setup(setup) && {
            &&& holds_config(setup.config, config)
            &&& holds_opt(setup.token, token)
            &&& holds_opt(setup.expected_store_dir, dir)
            &&& setup.protocol_version == WORKER_PROTOCOL_VERSION
        },
        ClientView::Work(path) => record matches ClientRecord::Work(list) && lists(list@, path),
        ClientView::Shutdown => record is Shutdown,
    }
}

/// The list of a message that is too long for a record.
pub open spec fn client_too_long(message: ClientView) -> Option<Seq<char>> {
    match message {
        ClientView::Setup(config, _, _) => config_too_long(config),
        ClientView::Work(path) => if path.len() > u32::MAX {
            Some("work attr path"@)
        } else {
            None
        },
        ClientView::Shutdown => None,
    }
}

/// A message as its receiver sees it: a setup without a timeout gets the default.
pub open spec fn client_received(message: ClientView) -> ClientView {
    match message {
        ClientView::Setup(config, token, dir) => ClientView::Setup(
            WorkerConfigView {
                item_timeout_seconds: timeout_read(config.item_timeout_seconds),
                ..config
            },
            token,
            dir,
        ),
        other => other,
    }
}

/// The message that a record holds. The version of a setup is looked at before anything else.
pub open spec fn client_read(record: ClientRecord) -> Result<ClientView, WireFault> {
    match record {
        ClientRecord::Setup(setup) => if setup.protocol_version != WORKER_PROTOCOL_VERSION {
            Err(WireFault::Version(setup.protocol_version))
        } else {
            match config_read(setup.config) {
                Err(e) => Err(e),
                Ok(config) => match opt_read(setup.token) {
                    Err(e) => Err(e),
                    Ok(token) => match opt_read(setup.expected_store_dir) {
                        Err(e) => Err(e),
                        Ok(dir) => Ok(ClientView::Setup(config, token, dir)),
                    },
                },
            }
        },
        ClientRecord::Work(list) => match texts_read(list@) {
            Ok(path) => Ok(ClientView::Work(path)),
            Err(e) => Err(e),
        },
        ClientRecord::Shutdown => Ok(ClientView::Shutdown),
        ClientRecord::Unknown(n) => Err(WireFault::Unknown(n)),
    }
}

/// Writes a master's message. What is read back is the message as its receiver sees it.
pub fn write_client(message: &ClientMessage) -> (r: Result<ClientRecord, WireError>)
    ensures
        match r {
            Ok(record) => {
                &&& client_too_long(message@) is None
                &&& holds_client(record, message@)
                &&& client_read(record) == Ok::<ClientView, WireFault>(client_received(message@))
            },
            Err(e) => client_too_long(message@) matches Some(field) && e@ == WireFault::TooLong(
                field,
            ),
        },
{
    match message {
        ClientMessage::Setup { config, token, expected_store_dir } => {
            let config = set_worker_config(config)?;
            Ok(
                ClientRecord::Setup(
                    SetupRecord {
                        config,
                        token: set_text_opt(token),
                        expected_store_dir: set_text_opt(expected_store_dir),
                        protocol_version: WORKER_PROTOCOL_VERSION,
                    },
                ),
            )
        },
        ClientMessage::Work(path) => {
            let list = set_text_list(path, "work attr path")?;
            Ok(ClientRecord::Work(list))
        },
        ClientMessage::Shutdown => Ok(ClientRecord::Shutdown),
    }
}

/// Rejects another version of the protocol.
pub fn validate_worker_protocol(actual: u32) -> (r: Result<(), WireError>)
    ensures
        match r {
            Ok(()) => actual == WORKER_PROTOCOL_VERSION,
            Err(e) => actual != WORKER_PROTOCOL_VERSION && e@ == WireFault::Version(actual),
        },
{
    if actual == WORKER_PROTOCOL_VERSION {
        Ok(())
    } else {
        Err(WireError::Version(actual))
    }
}

/// Reads a master's message.
pub fn read_client(record: &ClientRecord) -> (r: Result<ClientMessage, WireError>)
    ensures
        match r {
            Ok(message) => client_read(*record) == Ok::<ClientView, WireFault>(message@),
            Err(e) => client_read(*record) == Err::<ClientView, WireFault>(e@),
        },
{
    match record {
        ClientRecord::Setup(setup) => {
            validate_worker_protocol(setup.protocol_version)?;
            let config = read_worker_config(&setup.config)?;
            let token = read_text_opt(&setup.token)?;
            let expected_store_dir = read_text_opt(&setup.expected_store_dir)?;
            Ok(ClientMessage::Setup { config, token, expected_store_dir })
        },
        ClientRecord::Work(list) => {
            let path = read_text_list(list)?;
            Ok(ClientMessage::Work(path))
        },
        ClientRecord::Shutdown => Ok(ClientMessage::Shutdown),
        ClientRecord::Unknown(n) => Err(WireError::Unknown(*n)),
    }
}

/// An evaluation error of a record.
pub struct EvalErrorRecord {
    /// The dotted attribute path.
    pub attr: Vec<u8>,
    /// The attribute path.
    pub attr_path: Vec<Vec<u8>>,
    /// What went wrong.
    pub error: Vec<u8>,
    /// Whether the whole evaluation fails with it.
    pub fatal: bool,
}

/// An attribute set of a record.
pub struct AttrSetRecord {
    /// The dotted attribute path.
    pub attr: Vec<u8>,
    /// The attribute path.
    pub attr_path: Vec<Vec<u8>>,
    /// The names to go on with.
    pub attrs: Vec<Vec<u8>>,
}

/// An event of a record.
pub enum EventRecord {
    /// A derivation.
    Derivation(DerivationRecord),
    /// An attribute set.
    AttrSet(AttrSetRecord),
    /// An error.
    Error(EvalErrorRecord),
    /// What this schema does not know.
    Unknown(u16),
}

/// Whether a record is that of an evaluation error.
pub open spec fn holds_error(record: EvalErrorRecord, e: EvalErrorView) -> bool {
    &&& record.attr@ == text_bytes(e.attr)
    &&& lists(record.attr_path@, e.attr_path)
    &&& record.error@ == text_bytes(e.error)
    &&& record.fatal == e.fatal
}

/// Whether a record is that of an event.
pub open spec fn holds_event(record: EventRecord, event: Event) -> bool {
    match event {
        Event::Derivation(d) => record matches EventRecord::Derivation(w) && holds_derivation(w, d),
        Event::AttrSet { attr, attr_path, attrs } => record matches EventRecord::AttrSet(w) && {
            &&& w.attr@ == text_bytes(attr@)
            &&& lists(w.attr_path@, texts(attr_path@))
            &&& lists(w.attrs@, texts(attrs@))
        },
        Event::Error(e) => record matches EventRecord::Error(w) && holds_error(w, e@),
    }
}

/// The list of an event that is too long for a record.
pub open spec fn event_too_long(event: Event) -> Option<Seq<char>> {
    match event {
        Event::Derivation(d) => derivation_too_long(d),
        Event::AttrSet { attr, attr_path, attrs } => if attr_path@.len() > u32::MAX {
            Some("attr path"@)
        } else if attrs@.len() > u32::MAX {
            Some("attr set children"@)
        } else {
            None
        },
        Event::Error(e) => if e.attr_path@.len() > u32::MAX {
            Some("error attr path"@)
        } else {
            None
        },
    }
}

/// Whether the event carries no `meta` attribute that its text would not give back.
pub open spec fn event_plain(event: EventView) -> bool {
    event matches EventView::Derivation(d) ==> meta_plain(d.meta)
}

/// The evaluation error that a record holds.
pub open spec fn error_read(record: EvalErrorRecord) -> Result<EvalErrorView, WireFault> {
    match text_read(record.attr@) {
        Err(e) => Err(e),
        Ok(attr) => match texts_read(record.attr_path@) {
            Err(e) => Err(e),
            Ok(attr_path) => match text_read(record.error@) {
                Err(e) => Err(e),
                Ok(error) => Ok(EvalErrorView { attr, attr_path, error, fatal: record.fatal }),
            },
        },
    }
}

/// The attribute set that a record holds.
pub open spec fn set_read(record: AttrSetRecord) -> Result<EventView, WireFault> {
    match text_read(record.attr@) {
        Err(e) => Err(e),
        Ok(attr) => match texts_read(record.attr_path@) {
            Err(e) => Err(e),
            Ok(attr_path) => match texts_read(record.attrs@) {
                Err(e) => Err(e),
                Ok(attrs) => Ok(EventView::AttrSet { attr, attr_path, attrs }),
            },
        },
    }
}

/// The event that a record holds.
pub open spec fn event_read(record: EventRecord) -> Result<EventView, WireFault> {
    match record {
        EventRecord::Derivation(w) => match derivation_read(w) {
            Ok(d) => Ok(EventView::Derivation(d)),
            Err(e) => Err(e),
        },
        EventRecord::AttrSet(w) => set_read(w),
        EventRecord::Error(w) => match error_read(w) {
            Ok(e) => Ok(EventView::Error(e)),
            Err(e) => Err(e),
        },
        EventRecord::Unknown(n) => Err(WireFault::Unknown(n)),
    }
}

fn set_eval_error(error: &EvalError) -> (r: Result<EvalErrorRecord, WireError>)
    ensures
        match r {
            Ok(record) => {
                &&& error.attr_path@.len() <= u32::MAX
                &&& holds_error(record, error@)
                &&& error_read(record) == Ok::<EvalErrorView, WireFault>(error@)
            },
            Err(e) => error.attr_path@.len() > u32::MAX && e@ == WireFault::TooLong(
                "error attr path"@,
            ),
        },
{
    proof {
        lemma_text_back(error.attr@);
        lemma_text_back(error.error@);
    }
    let attr_path = set_text_list(&error.attr_path, "error attr path")?;
    Ok(
        EvalErrorRecord {
            attr: crate::wire::bytes_of(error.attr.as_str()),
            attr_path,
            error: crate::wire::bytes_of(error.error.as_str()),
            fatal: error.fatal,
        },
    )
}

fn read_eval_error(record: &EvalErrorRecord) -> (r: Result<EvalError, WireError>)
    ensures
        match r {
            Ok(v) => error_read(*record) == Ok::<EvalErrorView, WireFault>(v@),
            Err(e) => error_read(*record) == Err::<EvalErrorView, WireFault>(e@),
        },
{
    let attr = read_text(record.attr.as_slice())?;
    let attr_path = read_text_list(&record.attr_path)?;
    let error = read_text(record.error.as_slice())?;
    Ok(EvalError { attr, attr_path, error, fatal: record.fatal })
}

/// Writes an event. It reads back as it was, unless a `meta` attribute stands in the way.
pub fn set_event(event: &Event) -> (r: Result<EventRecord, WireError>)
    ensures
        match r {
            Ok(record) => {
                &&& event_too_long(*event) is None
                &&& holds_event(record, *event)
                &&& event_plain(event@) ==> event_read(record) == Ok::<EventView, WireFault>(event@)
            },
            Err(e) => event_too_long(*event) matches Some(field) && e@ == WireFault::TooLong(
                field,
            ),
        },
{
    match event {
        Event::Derivation(d) => {
            let record = set_derivation(d)?;
            Ok(EventRecord::Derivation(record))
        },
        Event::AttrSet { attr, attr_path, attrs } => {
            proof {
                lemma_text_back(attr@);
            }
            let path_record = set_text_list(attr_path, "attr path")?;
            let attrs_record = set_text_list(attrs, "attr set children")?;
            Ok(
                EventRecord::AttrSet(
                    AttrSetRecord {
                        attr: crate::wire::bytes_of(attr.as_str()),
                        attr_path: path_record,
                        attrs: attrs_record,
                    },
                ),
            )
        },
        Event::Error(e) => {
            let record = set_eval_error(e)?;
            Ok(EventRecord::Error(record))
        },
    }
}

/// Reads an event.
pub fn read_event(record: &EventRecord) -> (r: Result<Event, WireError>)
    ensures
        match r {
            Ok(event) => event_read(*record) == Ok::<EventView, WireFault>(event@),
            Err(e) => event_read(*record) == Err::<EventView, WireFault>(e@),
        },
{
    match record {
        EventRecord::Derivation(w) => {
            let d = read_derivation(w)?;
            Ok(Event::Derivation(d))
        },
        EventRecord::AttrSet(w) => {
            let attr = read_text(w.attr.as_slice())?;
            let attr_path = read_text_list(&w.attr_path)?;
            let attrs = read_text_list(&w.attrs)?;
            Ok(Event::AttrSet { attr, attr_path, attrs })
        },
        EventRecord::Error(w) => {
            let e = read_eval_error(w)?;
            Ok(Event::Error(e))
        },
        EventRecord::Unknown(n) => Err(WireError::Unknown(*n)),
    }
}

/// A status of a record.
#[derive(Clone, Copy)]
pub enum StatusRecord {
    /// The worker can take more work.
    Ready,
    /// The worker ends.
    Restart,
    /// What this schema does not know.
    Unknown(u16),
}

/// A worker's message on the wire.
pub enum ServerRecord {
    /// It can take work.
    Ready,
    /// An event.
    Event(EventRecord),
    /// A status.
    Status(StatusRecord),
    /// An error.
    Error(Vec<u8>),
    /// What this schema does not know.
    Unknown(u16),
}

/// Whether a record is that of a message.
pub open spec fn holds_server(record: ServerRecord, message: ServerMessage) -> bool {
    match message {
        ServerMessage::Ready => record is Ready,
        ServerMessage::Event(event) => record matches ServerRecord::Event(w) && holds_event(
            w,
            event,
        ),
        ServerMessage::Status(WorkerStatus::Ready) => record == ServerRecord::Status(
            StatusRecord::Ready,
        ),
        ServerMessage::Status(WorkerStatus::Restart) => record == ServerRecord::Status(
            StatusRecord::Restart,
        ),
        ServerMessage::Error(error) => record matches ServerRecord::Error(b) && b@ == text_bytes(
            error@,
        ),
    }
}

/// The list of a message that is too long for a record.
pub open spec fn server_too_long(message: ServerMessage) -> Option<Seq<char>> {
    match message {
        ServerMessage::Event(event) => event_too_long(event),
        _ => None,
    }
}

/// The message that a record holds.
pub open spec fn server_read(record: ServerRecord) -> Result<ServerView, WireFault> {
    match record {
        ServerRecord::Ready => Ok(ServerView::Ready),
        ServerRecord::Event(w) => match event_read(w) {
            Ok(event) => Ok(ServerView::Event(event)),
            Err(e) => Err(e),
        },
        ServerRecord::Status(StatusRecord::Ready) => Ok(ServerView::Status(WorkerStatus::Ready)),
        ServerRecord::Status(StatusRecord::Restart) => Ok(
            ServerView::Status(WorkerStatus::Restart),
        ),
        ServerRecord::Status(StatusRecord::Unknown(n)) => Err(WireFault::Unknown(n)),
        ServerRecord::Error(b) => match text_read(b@) {
            Ok(error) => Ok(ServerView::Error(error)),
            Err(e) => Err(e),
        },
        ServerRecord::Unknown(n) => Err(WireFault::Unknown(n)),
    }
}

/// Writes a worker's message. It reads back as it was, unless a `meta` attribute stands in the
/// way.
pub fn write_server(message: &ServerMessage) -> (r: Result<ServerRecord, WireError>)
    ensures
        match r {
            Ok(record) => {
                &&& server_too_long(*message) is None
                &&& holds_server(record, *message)
                &&& (message@ matches ServerView::Event(event) ==> event_plain(event))
                    ==> server_read(record) == Ok::<ServerView, WireFault>(message@)
            },
            Err(e) => server_too_long(*message) matches Some(field) && e@ == WireFault::TooLong(
                field,
            ),
        },
{
    match message {
        ServerMessage::Ready => Ok(ServerRecord::Ready),
        ServerMessage::Event(event) => {
            let record = set_event(event)?;
            Ok(ServerRecord::Event(record))
        },
        ServerMessage::Status(WorkerStatus::Ready) => Ok(ServerRecord::Status(StatusRecord::Ready)),
        ServerMessage::Status(WorkerStatus::Restart) => Ok(
            ServerRecord::Status(StatusRecord::Restart),
        ),
        ServerMessage::Error(error) => {
            proof {
                lemma_text_back(error@);
            }
            Ok(ServerRecord::Error(crate::wire::bytes_of(error.as_str())))
        },
    }
}

/// Reads a worker's message.
pub fn read_server(record: &ServerRecord) -> (r: Result<ServerMessage, WireError>)
    ensures
        match r {
            Ok(message) => server_read(*record) == Ok::<ServerView, WireFault>(message@),
            Err(e) => server_read(*record) == Err::<ServerView, WireFault>(e@),
        },
{
    match record {
        ServerRecord::Ready => Ok(ServerMessage::Ready),
        ServerRecord::Event(w) => {
            let event = read_event(w)?;
            Ok(ServerMessage::Event(event))
        },
        ServerRecord::Status(StatusRecord::Ready) => Ok(
            ServerMessage::Status(WorkerStatus::Ready),
        ),
        ServerRecord::Status(StatusRecord::Restart) => Ok(
            ServerMessage::Status(WorkerStatus::Restart),
        ),
        ServerRecord::Status(StatusRecord::Unknown(n)) => Err(WireError::Unknown(*n)),
        ServerRecord::Error(b) => {
            let error = read_text(b.as_slice())?;
            Ok(ServerMessage::Error(error))
        },
        ServerRecord::Unknown(n) => Err(WireError::Unknown(*n)),
    }
}

/// Why an answer of a peer is not the one that was due.
#[derive(Debug)]
pub enum AnswerError {
    /// The peer says that it failed; the message to report.
    Failed(String),
    /// The peer sent something else; what to report before it.
    Unexpected { prefix: String, message: ServerMessage },
}

/// What an [`AnswerError`] says.
pub enum AnswerFault {
    /// See [`AnswerError::Failed`].
    Failed(Seq<char>),
    /// See [`AnswerError::Unexpected`].
    Unexpected(Seq<char>, ServerView),
}

impl View for AnswerError {
    type V = AnswerFault;

    open spec fn view(&self) -> AnswerFault {
        match *self {
            AnswerError::Failed(message) => AnswerFault::Failed(message@),
            AnswerError::Unexpected { prefix, message } => AnswerFault::Unexpected(
                prefix@,
                message@,
            ),
        }
    }
}

/// What is wrong with an answer that is not the one that was due.
pub open spec fn answer_fault(
    message: ServerView,
    failed: Seq<char>,
    unexpected: Seq<char>,
) -> AnswerFault {
    match message {
        ServerView::Error(error) => AnswerFault::Failed(failed + error),
        other => AnswerFault::Unexpected(unexpected, other),
    }
}

/// Takes the answer to a setup: only `Ready` will do.
pub fn answer_ready(message: ServerMessage, failed: &str, unexpected: &str) -> (r: Result<
    (),
    AnswerError,
>)
    ensures
        match r {
            Ok(()) => message@ is Ready,
            Err(e) => !(message@ is Ready) && e@ == answer_fault(message@, failed@, unexpected@),
        },
{
    match message {
        ServerMessage::Ready => Ok(()),
        ServerMessage::Error(error) => Err(
            AnswerError::Failed(crate::text::concat2(failed, error.as_str())),
        ),
        other => Err(AnswerError::Unexpected { prefix: unexpected.to_owned(), message: other }),
    }
}

/// Takes the first answer to an item: only an event will do.
pub fn answer_event(message: ServerMessage, failed: &str, unexpected: &str) -> (r: Result<
    Event,
    AnswerError,
>)
    ensures
        match r {
            Ok(event) => message@ == ServerView::Event(event@),
            Err(e) => !(message@ is Event) && e@ == answer_fault(message@, failed@, unexpected@),
        },
{
    match message {
        ServerMessage::Event(event) => Ok(event),
        ServerMessage::Error(error) => Err(
            AnswerError::Failed(crate::text::concat2(failed, error.as_str())),
        ),
        other => Err(AnswerError::Unexpected { prefix: unexpected.to_owned(), message: other }),
    }
}

/// Takes the second answer to an item: only a status will do.
pub fn answer_status(message: ServerMessage, failed: &str, unexpected: &str) -> (r: Result<
    WorkerStatus,
    AnswerError,
>)
    ensures
        match r {
            Ok(status) => message@ == ServerView::Status(status),
            Err(e) => !(message@ is Status) && e@ == answer_fault(message@, failed@, unexpected@),
        },
{
    match message {
        ServerMessage::Status(status) => Ok(status),
        ServerMessage::Error(error) => Err(
            AnswerError::Failed(crate::text::concat2(failed, error.as_str())),
        ),
        other => Err(AnswerError::Unexpected { prefix: unexpected.to_owned(), message: other }),
    }
}

/// Takes a remote worker's answer to a setup.
pub fn expect_ready(message: ServerMessage, label: &str) -> (r: Result<(), AnswerError>)
    ensures
        match r {
            Ok(()) => message@ is Ready,
            Err(e) => !(message@ is Ready) && e@ == answer_fault(
                message@,
                "remote worker "@ + label@ + " failed: "@,
                "remote worker "@ + label@ + " sent unexpected handshake: "@,
            ),
        },
{
    let failed = concat3("remote worker ", label, " failed: ");
    let unexpected = concat3("remote worker ", label, " sent unexpected handshake: ");
    answer_ready(message, failed.as_str(), unexpected.as_str())
}

/// A master's message is received as it was sent, but that a setup without a timeout asks for
/// the default of ten minutes.
pub proof fn law_messages_are_received_as_sent(
    config: WorkerConfigView,
    token: Option<Seq<char>>,
    dir: Option<Seq<char>>,
    path: Seq<Seq<char>>,
)
    ensures
        client_received(ClientView::Work(path)) == ClientView::Work(path),
        client_received(ClientView::Shutdown) == ClientView::Shutdown,
        config.item_timeout_seconds > 0 ==> client_received(ClientView::Setup(config, token, dir))
            == ClientView::Setup(config, token, dir),
        config.item_timeout_seconds == 0 ==> client_received(ClientView::Setup(config, token, dir))
            == ClientView::Setup(
            WorkerConfigView { item_timeout_seconds: 600, ..config },
            token,
            dir,
        ),
{
}

/// A setup of another version is refused for that, whatever else it holds; what the schema does
/// not know is refused with its number.
pub proof fn law_other_versions_are_refused_first(setup: SetupRecord, n: u16)
    ensures
        setup.protocol_version != 1 ==> client_read(ClientRecord::Setup(setup)) == Err::<
            ClientView,
            WireFault,
        >(WireFault::Version(setup.protocol_version)),
        client_read(ClientRecord::Unknown(n)) == Err::<ClientView, WireFault>(WireFault::Unknown(n)),
        server_read(ServerRecord::Unknown(n)) == Err::<ServerView, WireFault>(WireFault::Unknown(n)),
        client_read(ClientRecord::Shutdown) == Ok::<ClientView, WireFault>(ClientView::Shutdown),
        server_read(ServerRecord::Ready) == Ok::<ServerView, WireFault>(ServerView::Ready),
        server_read(ServerRecord::Status(StatusRecord::Restart)) == Ok::<ServerView, WireFault>(
            ServerView::Status(WorkerStatus::Restart),
        ),
        server_read(ServerRecord::Status(StatusRecord::Ready)) == Ok::<ServerView, WireFault>(
            ServerView::Status(WorkerStatus::Ready),
        ),
{
}

/// An answer that is not the one that was due is reported as a failure where it is one, behind
/// what such failures are called, and else as what it is.
pub proof fn law_other_answers_are_reported(
    message: ServerView,
    error: Seq<char>,
    failed: Seq<char>,
    unexpected: Seq<char>,
)
    ensures
        answer_fault(ServerView::Error(error), failed, unexpected) == AnswerFault::Failed(
            failed + error,
        ),
        !(message is Error) ==> answer_fault(message, failed, unexpected)
            == AnswerFault::Unexpected(unexpected, message),
{
}

/// The record of an event holds its parts, each in its own place: the paths, the names to go on
/// with, the message of an error and whether it is fatal.
pub proof fn law_event_records_hold_their_parts(record: EventRecord, event: Event)
    requires
        holds_event(record, event),
    ensures
        event matches Event::Error(e) ==> (record matches EventRecord::Error(w) && w.attr@
            == text_bytes(e.attr@) && w.error@ == text_bytes(e.error@) && w.fatal == e.fatal),
        event matches Event::AttrSet { attr, attr_path, attrs } ==> (record
            matches EventRecord::AttrSet(w) && w.attr@ == text_bytes(attr@) && w.attr_path@.len()
            == attr_path@.len() && w.attrs@.len() == attrs@.len()),
        event matches Event::Derivation(d) ==> (record matches EventRecord::Derivation(w)
            && w.name@ == text_bytes(d@.name) && w.system@ == text_bytes(d@.system) && w.drv_path@
            == text_bytes(d@.drv_path) && w.attr@ == text_bytes(d@.attr)),
{
}

/// What a message says is what stands in it.
pub proof fn law_messages_say_what_they_hold(
    config: WorkerConfig,
    token: Option<String>,
    dir: Option<String>,
    path: Vec<String>,
    event: Event,
    status: WorkerStatus,
    text: String,
    other: ServerMessage,
)
    ensures
        (ClientMessage::Setup { config, token, expected_store_dir: dir })@ == ClientView::Setup(
            config@,
            text_opt(token),
            text_opt(dir),
        ),
        ClientMessage::Work(path)@ == ClientView::Work(texts(path@)),
        ClientMessage::Shutdown@ == ClientView::Shutdown,
        ServerMessage::Ready@ == ServerView::Ready,
        ServerMessage::Event(event)@ == ServerView::Event(event@),
        ServerMessage::Status(status)@ == ServerView::Status(status),
        ServerMessage::Error(text)@ == ServerView::Error(text@),
        AnswerError::Failed(text)@ == AnswerFault::Failed(text@),
        (AnswerError::Unexpected { prefix: text, message: other })@ == AnswerFault::Unexpected(
            text@,
            other@,
        ),
{
}

/// A message is received with everything that was sent, but for a timeout of zero, which is
/// received as ten minutes.
pub proof fn law_received_messages_are_those_sent(
    config: WorkerConfigView,
    token: Option<Seq<char>>,
    dir: Option<Seq<char>>,
    path: Seq<Seq<char>>,
)
    ensures
        client_received(ClientView::Work(path)) == ClientView::Work(path),
        client_received(ClientView::Shutdown) == ClientView::Shutdown,
        client_received(ClientView::Setup(config, token, dir)) == ClientView::Setup(
            WorkerConfigView {
                input: config.input,
                auto_args: config.auto_args,
                force_recurse: config.force_recurse,
                gc_roots_dir: config.gc_roots_dir,
                max_memory_size: config.max_memory_size,
                item_timeout_seconds: if config.item_timeout_seconds == 0 {
                    600
                } else {
                    config.item_timeout_seconds
                },
                meta: config.meta,
                show_input_drvs: config.show_input_drvs,
                override_inputs: config.override_inputs,
                nix_options: config.nix_options,
                locked_flake_json: config.locked_flake_json,
            },
            token,
            dir,
        ),
{
}

/// A list of a message is sent only where its length fits; the one that does not is named.
pub proof fn law_long_messages_are_named(
    config: WorkerConfigView,
    token: Option<Seq<char>>,
    dir: Option<Seq<char>>,
    path: Seq<Seq<char>>,
    attr: String,
    attr_path: Vec<String>,
    attrs: Vec<String>,
    d: Derivation,
    e: EvalError,
    event: Event,
    status: WorkerStatus,
)
    ensures
        client_too_long(ClientView::Shutdown) is None,
        client_too_long(ClientView::Setup(config, token, dir)) == config_too_long(config),
        path.len() <= 4294967295 ==> client_too_long(ClientView::Work(path)) is None,
        path.len() > 4294967295 ==> client_too_long(ClientView::Work(path)) == Some(
            "work attr path"@,
        ),
        event_too_long(Event::Derivation(d)) == derivation_too_long(d),
        e.attr_path@.len() <= 4294967295 ==> event_too_long(Event::Error(e)) is None,
        e.attr_path@.len() > 4294967295 ==> event_too_long(Event::Error(e)) == Some(
            "error attr path"@,
        ),
        ({
            let long = event_too_long(Event::AttrSet { attr, attr_path, attrs });
            &&& attr_path@.len() <= 4294967295 && attrs@.len() <= 4294967295 <==> long is None
            &&& attr_path@.len() > 4294967295 ==> long == Some("attr path"@)
            &&& attr_path@.len() <= 4294967295 && attrs@.len() > 4294967295 ==> long == Some(
                "attr set children"@,
            )
        }),
        server_too_long(ServerMessage::Event(event)) == event_too_long(event),
        server_too_long(ServerMessage::Ready) is None && server_too_long(ServerMessage::Error(attr))
            is None && server_too_long(ServerMessage::Status(status)) is None,
{
}

/// What a reader does not know is an error with the number that it found.
pub proof fn law_unknown_messages_are_refused(n: u16)
    ensures
        client_read(ClientRecord::Unknown(n)) == Err::<ClientView, WireFault>(
            WireFault::Unknown(n),
        ),
        server_read(ServerRecord::Unknown(n)) == Err::<ServerView, WireFault>(
            WireFault::Unknown(n),
        ),
        server_read(ServerRecord::Status(StatusRecord::Unknown(n))) == Err::<ServerView, WireFault>(
            WireFault::Unknown(n),
        ),
        server_read(ServerRecord::Event(EventRecord::Unknown(n))) == Err::<ServerView, WireFault>(
            WireFault::Unknown(n),
        ),
{
}

} // verus!
