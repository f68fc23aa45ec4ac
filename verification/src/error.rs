//! The errors of the library: chains of messages, and the error of its public operations.

use vstd::prelude::*;

use crate::ordered_map::copy_texts;
use crate::text::{concat3, texts};

verus! {

/// An error with its causes: messages, the outermost first. There is at least one.
#[derive(Debug)]
pub struct ErrorChain {
    first: String,
    causes: Vec<String>,
}

impl View for ErrorChain {
    type V = Seq<Seq<char>>;

    closed spec fn view(&self) -> Seq<Seq<char>> {
        seq![self.first@] + texts(self.causes@)
    }
}

impl ErrorChain {
    /// An error without a cause.
    pub fn new(message: &str) -> (r: Self)
        ensures
            r@ == seq![message@],
    {
        ErrorChain { first: message.to_owned(), causes: Vec::new() }
    }

    /// An error without a cause, from an owned message.
    pub fn from_message(message: String) -> (r: Self)
        ensures
            r@ == seq![message@],
    {
        ErrorChain { first: message, causes: Vec::new() }
    }

    /// This error as the cause of a new one.
    pub fn context(self, message: &str) -> (r: Self)
        ensures
            r@ == seq![message@] + self@,
    {
        let mut causes: Vec<String> = Vec::new();
        causes.push(self.first.clone());
        let mut i: usize = 0;
        while i < self.causes.len()
            invariant
                i <= self.causes.len(),
                causes@ == seq![self.first] + self.causes@.take(i as int),
            decreases self.causes.len() - i,
        {
            causes.push(self.causes[i].clone());
            i += 1;
        }
        proof {
            assert(self.causes@.take(i as int) == self.causes@);
            assert(texts(causes@) == self@);
        }
        ErrorChain { first: message.to_owned(), causes }
    }

    /// The number of messages.
    pub fn len(&self) -> (n: usize)
        requires
            self@.len() <= usize::MAX,
        ensures
            n == self@.len(),
    {
        self.causes.len() + 1
    }

    /// The outermost message.
    pub fn message(&self) -> (r: String)
        ensures
            self@.len() > 0,
            r@ == self@[0],
    {
        self.first.clone()
    }

    /// The error that caused this one.
    pub fn source(&self) -> (r: Option<ErrorChain>)
        ensures
            match r {
                Some(s) => self@.len() > 1 && s@ == self@.skip(1),
                None => self@.len() == 1,
            },
    {
        if self.causes.len() == 0 {
            return None;
        }
        let mut causes: Vec<String> = Vec::new();
        let mut i: usize = 1;
        while i < self.causes.len()
            invariant
                1 <= i <= self.causes.len(),
                causes@ == self.causes@.subrange(1, i as int),
            decreases self.causes.len() - i,
        {
            causes.push(self.causes[i].clone());
            i += 1;
        }
        let r = ErrorChain { first: self.causes[0].clone(), causes };
        proof {
            assert(r@ =~= self@.skip(1));
        }
        Some(r)
    }

    /// The messages, the outermost first.
    pub fn messages(&self) -> (r: Vec<String>)
        ensures
            texts(r@) == self@,
    {
        let mut out: Vec<String> = Vec::new();
        out.push(self.first.clone());
        let mut i: usize = 0;
        while i < self.causes.len()
            invariant
                i <= self.causes.len(),
                out@ == seq![self.first] + self.causes@.take(i as int),
            decreases self.causes.len() - i,
        {
            out.push(self.causes[i].clone());
            i += 1;
        }
        proof {
            assert(self.causes@.take(i as int) == self.causes@);
            assert(texts(out@) =~= self@);
        }
        out
    }
}

impl Clone for ErrorChain {
    fn clone(&self) -> (r: Self)
        ensures
            r@ == self@,
    {
        ErrorChain { first: self.first.clone(), causes: copy_texts(&self.causes) }
    }
}

/// A warm-graph operation of a session.
#[derive(Clone, Copy, PartialEq, Eq, Structural, Debug)]
pub enum Operation {
    /// `Session::query_snapshot`.
    QuerySnapshot,
    /// `Session::diff_once`.
    DiffOnce,
}

impl Operation {
    /// The operation's name.
    pub open spec fn name_of(self) -> Seq<char> {
        match self {
            Operation::QuerySnapshot => "query_snapshot"@,
            Operation::DiffOnce => "diff_once"@,
        }
    }

    /// The operation's name.
    pub fn name(self) -> (r: &'static str)
        ensures
            r@ == self.name_of(),
    {
        match self {
            Operation::QuerySnapshot => "query_snapshot",
            Operation::DiffOnce => "diff_once",
        }
    }
}

/// Error of the library's public operations.
#[derive(Debug)]
pub enum Error {
    /// A session's stream was requested after the single-use stream had already started or
    /// completed.
    SessionStreamConsumed,
    /// A warm-graph operation was requested before the initial evaluation completed.
    InitialEvaluationIncomplete { operation: Operation },
    /// A session operation requires completion, but the evaluation is still running.
    SessionStillEvaluating,
    /// The initial evaluation failed and the stored error is being reported again.
    EvaluationFailed { message: String },
    /// A background task could not be spawned because no runtime was active.
    RuntimeUnavailable { message: String },
    /// The evaluation was cancelled before it completed.
    Cancelled,
    /// An evaluator, worker, I/O, serialization or protocol error.
    Internal { message: String, source: ErrorChain },
}

/// What an [`Error`] says.
pub enum ErrorView {
    /// See [`Error::SessionStreamConsumed`].
    SessionStreamConsumed,
    /// See [`Error::InitialEvaluationIncomplete`].
    InitialEvaluationIncomplete(Operation),
    /// See [`Error::SessionStillEvaluating`].
    SessionStillEvaluating,
    /// See [`Error::EvaluationFailed`].
    EvaluationFailed(Seq<char>),
    /// See [`Error::RuntimeUnavailable`].
    RuntimeUnavailable(Seq<char>),
    /// See [`Error::Cancelled`].
    Cancelled,
    /// See [`Error::Internal`].
    Internal(Seq<char>, Seq<Seq<char>>),
}

impl View for Error {
    type V = ErrorView;

    open spec fn view(&self) -> ErrorView {
        match *self {
            Error::SessionStreamConsumed => ErrorView::SessionStreamConsumed,
            Error::InitialEvaluationIncomplete { operation } => {
                ErrorView::InitialEvaluationIncomplete(operation)
            },
            Error::SessionStillEvaluating => ErrorView::SessionStillEvaluating,
            Error::EvaluationFailed { message } => ErrorView::EvaluationFailed(message@),
            Error::RuntimeUnavailable { message } => ErrorView::RuntimeUnavailable(message@),
            Error::Cancelled => ErrorView::Cancelled,
            Error::Internal { message, source } => ErrorView::Internal(message@, source@),
        }
    }
}

impl ErrorView {
    /// The text of the error.
    pub open spec fn text(self) -> Seq<char> {
        match self {
            ErrorView::SessionStreamConsumed => "session stream has already been consumed"@,
            ErrorView::InitialEvaluationIncomplete(operation) => "Session::"@ + operation.name_of()
                + " requires a completed initial evaluation"@,
            ErrorView::SessionStillEvaluating => "session is still evaluating"@,
            ErrorView::Cancelled => "evaluation was cancelled"@,
            ErrorView::EvaluationFailed(message) => message,
            ErrorView::RuntimeUnavailable(message) => message,
            ErrorView::Internal(message, _) => message,
        }
    }

    /// The internal error of a chain: its outermost message, and the chain as its source.
    pub open spec fn of_chain(chain: Seq<Seq<char>>) -> ErrorView {
        ErrorView::Internal(chain[0], chain)
    }
}

impl Error {
    /// The error of a chain of messages, which it keeps whole as its source.
    pub fn internal(err: ErrorChain) -> (r: Self)
        ensures
            r@ == ErrorView::of_chain(err@),
    {
        Error::Internal { message: err.message(), source: err }
    }

    /// The text of the error.
    pub fn message(&self) -> (r: String)
        ensures
            r@ == self@.text(),
    {
        match self {
            Error::SessionStreamConsumed => "session stream has already been consumed".to_owned(),
            Error::InitialEvaluationIncomplete { operation } => concat3(
                "Session::",
                operation.name(),
                " requires a completed initial evaluation",
            ),
            Error::SessionStillEvaluating => "session is still evaluating".to_owned(),
            Error::Cancelled => "evaluation was cancelled".to_owned(),
            Error::EvaluationFailed { message } => message.clone(),
            Error::RuntimeUnavailable { message } => message.clone(),
            Error::Internal { message, source: _ } => message.clone(),
        }
    }

    /// The chain behind an internal error; the other errors have no source.
    pub fn source(&self) -> (r: Option<&ErrorChain>)
        ensures
            match r {
                Some(s) => self matches Error::Internal { message: _, source } && *s == source,
                None => !(self is Internal),
            },
    {
        match self {
            Error::Internal { message: _, source } => Some(source),
            _ => None,
        }
    }
}

impl From<ErrorChain> for Error {
    fn from(err: ErrorChain) -> (r: Error)
        ensures
            r@ == ErrorView::of_chain(err@),
    {
        Error::internal(err)
    }
}

impl vstd::std_specs::convert::FromSpecImpl<ErrorChain> for Error {
    open spec fn obeys_from_spec() -> bool {
        false
    }

    open spec fn from_spec(err: ErrorChain) -> Error {
        Error::Internal { message: arbitrary(), source: err }
    }
}

/// An internal error says what the outermost message of its chain says, and its source is
/// the whole chain: nothing of it is lost.
pub proof fn law_internal_keeps_chain(chain: Seq<Seq<char>>)
    requires
        chain.len() > 0,
    ensures
        ErrorView::of_chain(chain).text() == chain[0],
        ErrorView::of_chain(chain) == ErrorView::Internal(chain[0], chain),
{
}

/// What each error says: a stored failure and a missing runtime speak for themselves, an
/// internal error says the outermost message of its chain, and an operation that came too early
/// is named.
pub proof fn law_errors_say_what_happened(message: Seq<char>, chain: Seq<Seq<char>>)
    ensures
        ErrorView::EvaluationFailed(message).text() == message,
        ErrorView::RuntimeUnavailable(message).text() == message,
        ErrorView::Internal(message, chain).text() == message,
        ErrorView::Cancelled.text() == "evaluation was cancelled"@,
        ErrorView::SessionStreamConsumed.text() == "session stream has already been consumed"@,
        ErrorView::SessionStillEvaluating.text() == "session is still evaluating"@,
        ErrorView::InitialEvaluationIncomplete(Operation::QuerySnapshot).text()
            == "Session::query_snapshot requires a completed initial evaluation"@,
        ErrorView::InitialEvaluationIncomplete(Operation::DiffOnce).text()
            == "Session::diff_once requires a completed initial evaluation"@,
{
    reveal_strlit("Session::");
    reveal_strlit("query_snapshot");
    reveal_strlit("diff_once");
    reveal_strlit(" requires a completed initial evaluation");
    reveal_strlit("Session::query_snapshot requires a completed initial evaluation");
    reveal_strlit("Session::diff_once requires a completed initial evaluation");
    assert("Session::"@ + "query_snapshot"@ + " requires a completed initial evaluation"@
        =~= "Session::query_snapshot requires a completed initial evaluation"@);
    assert("Session::"@ + "diff_once"@ + " requires a completed initial evaluation"@
        =~= "Session::diff_once requires a completed initial evaluation"@);
}

/// What an error says is what stands in it.
pub proof fn law_errors_say_what_they_hold(message: String, source: ErrorChain, operation: Operation)
    ensures
        Error::SessionStreamConsumed@ == ErrorView::SessionStreamConsumed,
        (Error::InitialEvaluationIncomplete { operation })@
            == ErrorView::InitialEvaluationIncomplete(operation),
        Error::SessionStillEvaluating@ == ErrorView::SessionStillEvaluating,
        (Error::EvaluationFailed { message })@ == ErrorView::EvaluationFailed(message@),
        (Error::RuntimeUnavailable { message })@ == ErrorView::RuntimeUnavailable(message@),
        Error::Cancelled@ == ErrorView::Cancelled,
        (Error::Internal { message, source })@ == ErrorView::Internal(message@, source@),
{
}

} // verus!
