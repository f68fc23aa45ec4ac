//! What a master and a worker say to each other, and how it stands on the wire.
//!
//! A record holds texts as the bytes of a Cap'n Proto message, which need not be UTF-8, and
//! a union with the discriminants that a later schema may add. Writing turns a message into a
//! record; reading checks a record and turns it back.

use vstd::prelude::*;
use vstd::string::*;
use vstd::utf8::{decode_utf8, encode_utf8, valid_utf8};

use crate::config::{WorkerConfig, WorkerConfigView, DEFAULT_ITEM_TIMEOUT_SECONDS};
use crate::error::ErrorChain;
use crate::json::{
    json_opt, json_parsed, json_text, parse, parse_texts, plain_within, print, print_texts,
    texts_json, texts_parsed, Json, PARSE_DEPTH,
};
use crate::model::{
    args_view, input_drvs_view, outputs_view, pairs_view, texts_opt, AutoArg, AutoArgView,
    Derivation, DerivationView, Input, InputView,
};
use crate::ordered_map::OrderedMap;
use crate::text::{concat2, concat3, decimal, decimal_of, text_opt, texts};

verus! {

/// The version of the protocol between a master and its workers.
pub const WORKER_PROTOCOL_VERSION: u32 = 1;

/// How many words of a message from another machine are read.
pub const REMOTE_TRAVERSAL_LIMIT_WORDS: usize = 8388608;

/// How many words of a message from a worker on this machine are read.
pub const LOCAL_TRAVERSAL_LIMIT_WORDS: usize = 67108864;

/// How deep a message may nest.
pub const NESTING_LIMIT: i32 = 64;

/// How much of a message is read.
#[derive(Clone, Copy, PartialEq, Eq, Structural, Debug)]
pub struct ReaderLimits {
    /// The words that are read; no limit where there is none.
    pub traversal_limit_in_words: Option<usize>,
    /// The nesting that is followed.
    pub nesting_limit: i32,
}

/// The limits for messages from another machine.
pub fn remote_reader_options() -> (r: ReaderLimits)
    ensures
        r.traversal_limit_in_words == Some(REMOTE_TRAVERSAL_LIMIT_WORDS),
        r.nesting_limit == NESTING_LIMIT,
{
    ReaderLimits {
        traversal_limit_in_words: Some(REMOTE_TRAVERSAL_LIMIT_WORDS),
        nesting_limit: NESTING_LIMIT,
    }
}

/// The limits for messages from a worker on this machine.
pub fn local_reader_options() -> (r: ReaderLimits)
    ensures
        r.traversal_limit_in_words == Some(LOCAL_TRAVERSAL_LIMIT_WORDS),
        r.nesting_limit == NESTING_LIMIT,
{
    ReaderLimits {
        traversal_limit_in_words: Some(LOCAL_TRAVERSAL_LIMIT_WORDS),
        nesting_limit: NESTING_LIMIT,
    }
}

/// Why a message could not be written or a record could not be read.
#[derive(Debug)]
pub enum WireError {
    /// A text is not UTF-8.
    NotUtf8 { message: String },
    /// A union or an enumeration holds what this schema does not know.
    Unknown(u16),
    /// A list is longer than a message can hold.
    TooLong { field: &'static str },
    /// A text that must be JSON is not what it must be.
    BadJson { context: &'static str, cause: String },
    /// A memory limit does not fit this machine.
    MemoryTooLarge,
    /// The peer speaks another version of the protocol.
    Version(u32),
    /// The fields of a message do not make a record.
    Malformed,
}

/// What a [`WireError`] says.
pub enum WireFault {
    /// See [`WireError::NotUtf8`].
    NotUtf8(Seq<char>),
    /// See [`WireError::Unknown`].
    Unknown(u16),
    /// See [`WireError::TooLong`].
    TooLong(Seq<char>),
    /// See [`WireError::BadJson`].
    BadJson(Seq<char>, Seq<char>),
    /// See [`WireError::MemoryTooLarge`].
    MemoryTooLarge,
    /// See [`WireError::Version`].
    Version(u32),
    /// See [`WireError::Malformed`].
    Malformed,
}

impl View for WireError {
    type V = WireFault;

    open spec fn view(&self) -> WireFault {
        match *self {
            WireError::NotUtf8 { message } => WireFault::NotUtf8(message@),
            WireError::Unknown(n) => WireFault::Unknown(n),
            WireError::TooLong { field } => WireFault::TooLong(field@),
            WireError::BadJson { context, cause } => WireFault::BadJson(context@, cause@),
            WireError::MemoryTooLarge => WireFault::MemoryTooLarge,
            WireError::Version(n) => WireFault::Version(n),
            WireError::Malformed => WireFault::Malformed,
        }
    }
}

impl WireFault {
    /// The messages of the error, outermost first.
    pub open spec fn chain(self) -> Seq<Seq<char>> {
        match self {
            WireFault::NotUtf8(message) => seq![message],
            WireFault::Unknown(n) => seq![
                "Enum value or union discriminant "@ + decimal_of(n as nat)
                    + " was not present in the schema."@,
            ],
            WireFault::TooLong(field) => seq![
                field + " length exceeds Cap'n Proto list limit"@,
                out_of_range_text(),
            ],
            WireFault::BadJson(context, cause) => seq![context, cause],
            WireFault::MemoryTooLarge => seq![
                "maxMemorySize exceeds this platform's usize"@,
                out_of_range_text(),
            ],
            WireFault::Version(n) => seq![
                "unsupported worker protocol version "@ + decimal_of(n as nat) + "; expected "@
                    + decimal_of(WORKER_PROTOCOL_VERSION as nat),
            ],
            WireFault::Malformed => seq!["malformed worker message"@],
        }
    }
}

/// What an integer that does not fit its type is called.
pub open spec fn out_of_range_text() -> Seq<char> {
    "out of range integral type conversion attempted"@
}

fn out_of_range() -> (r: ErrorChain)
    ensures
        r@ == seq![out_of_range_text()],
{
    ErrorChain::new("out of range integral type conversion attempted")
}

impl WireError {
    /// The error as a chain of messages.
    pub fn chain(&self) -> (r: ErrorChain)
        ensures
            r@ == self@.chain(),
    {
        match self {
            WireError::NotUtf8 { message } => ErrorChain::new(message.as_str()),
            WireError::Unknown(n) => ErrorChain::from_message(
                concat3(
                    "Enum value or union discriminant ",
                    decimal(*n as u64).as_str(),
                    " was not present in the schema.",
                ),
            ),
            WireError::TooLong { field } => out_of_range().context(
                concat2(field, " length exceeds Cap'n Proto list limit").as_str(),
            ),
            WireError::BadJson { context, cause } => {
                ErrorChain::new(cause.as_str()).context(context)
            },
            WireError::MemoryTooLarge => out_of_range().context(
                "maxMemorySize exceeds this platform's usize",
            ),
            WireError::Version(n) => {
                let mut message = concat3(
                    "unsupported worker protocol version ",
                    decimal(*n as u64).as_str(),
                    "; expected ",
                );
                message.append(decimal(WORKER_PROTOCOL_VERSION as u64).as_str());
                ErrorChain::from_message(message)
            },
            WireError::Malformed => ErrorChain::new("malformed worker message"),
        }
    }
}

/// The bytes of a text.
pub open spec fn text_bytes(s: Seq<char>) -> Seq<u8> {
    encode_utf8(s)
}

/// The text that bytes spell.
pub open spec fn text_read(bytes: Seq<u8>) -> Result<Seq<char>, WireFault> {
    if valid_utf8(bytes) {
        Ok(decode_utf8(bytes))
    } else {
        Err(WireFault::NotUtf8(capnp_fault(bytes)))
    }
}

/// The bytes of a text spell it.
pub proof fn lemma_text_back(s: Seq<char>)
    ensures
        text_read(text_bytes(s)) == Ok::<Seq<char>, WireFault>(s),
{
    vstd::utf8::encode_utf8_valid_utf8(s);
    vstd::utf8::encode_utf8_decode_utf8(s);
}

pub(crate) fn bytes_of(s: &str) -> (r: Vec<u8>)
    ensures
        r@ == text_bytes(s@),
{
    s.as_bytes_vec()
}

/// What `capnp::text::Reader::to_string` says of bytes that are not UTF-8.
pub uninterp spec fn capnp_fault(bytes: Seq<u8>) -> Seq<char>;

/// `capnp::text::Reader::to_string`: the text, of bytes that are UTF-8 only. Of other bytes it
/// is the text of the error, which depends on the bytes alone.
#[verifier::external_body]
fn capnp_text(bytes: &[u8]) -> (r: Result<String, String>)
    ensures
        match r {
            Ok(s) => valid_utf8(bytes@) && s@ == decode_utf8(bytes@),
            Err(e) => !valid_utf8(bytes@) && e@ == capnp_fault(bytes@),
        },
{
    capnp::text::Reader(bytes).to_string().map_err(|e| format!("{e}"))
}

/// Reads a text.
pub fn read_text(bytes: &[u8]) -> (r: Result<String, WireError>)
    ensures
        match r {
            Ok(s) => text_read(bytes@) == Ok::<Seq<char>, WireFault>(s@),
            Err(e) => text_read(bytes@) == Err::<Seq<char>, WireFault>(e@),
        },
{
    match capnp_text(bytes) {
        Ok(s) => Ok(s),
        Err(message) => Err(WireError::NotUtf8 { message }),
    }
}

/// The length of a list as a message holds it.
pub fn list_len(len: usize, field: &'static str) -> (r: Result<u32, WireError>)
    ensures
        match r {
            Ok(n) => n == len,
            Err(e) => len > u32::MAX && e@ == WireFault::TooLong(field@),
        },
{
    match u32::try_from(len) {
        Ok(n) => Ok(n),
        Err(_) => Err(WireError::TooLong { field }),
    }
}

/// An index into a list as a message holds it.
pub fn list_index(index: usize) -> (r: Result<u32, ErrorChain>)
    ensures
        match r {
            Ok(n) => n == index,
            Err(e) => index > u32::MAX && e@ == seq![
                "Cap'n Proto list index exceeds u32"@,
                out_of_range_text(),
            ],
        },
{
    match u32::try_from(index) {
        Ok(n) => Ok(n),
        Err(_) => Err(out_of_range().context("Cap'n Proto list index exceeds u32")),
    }
}

/// Whether a record's texts are these.
pub open spec fn lists(record: Seq<Vec<u8>>, values: Seq<Seq<char>>) -> bool {
    &&& record.len() == values.len()
    &&& forall|i: int| 0 <= i < record.len() ==> (#[trigger] record[i])@ == text_bytes(values[i])
}

/// The texts that a record holds.
pub open spec fn texts_read(record: Seq<Vec<u8>>) -> Result<Seq<Seq<char>>, WireFault>
    decreases record.len(),
{
    if record.len() == 0 {
        Ok(Seq::empty())
    } else {
        match texts_read(record.drop_last()) {
            Err(e) => Err(e),
            Ok(rest) => match text_read(record.last()@) {
                Err(e) => Err(e),
                Ok(s) => Ok(rest.push(s)),
            },
        }
    }
}

proof fn lemma_texts_back(record: Seq<Vec<u8>>, values: Seq<Seq<char>>)
    requires
        lists(record, values),
    ensures
        texts_read(record) == Ok::<Seq<Seq<char>>, WireFault>(values),
    decreases record.len(),
{
    if record.len() == 0 {
        assert(values =~= Seq::empty());
    } else {
        let init = record.drop_last();
        assert forall|i: int| 0 <= i < init.len() implies (#[trigger] init[i])@ == text_bytes(
            values.drop_last()[i],
        ) by {
            assert(init[i] == record[i]);
        }
        lemma_texts_back(init, values.drop_last());
        lemma_text_back(values.last());
        assert(record.last() == record[record.len() - 1]);
        assert(values.drop_last().push(values.last()) =~= values);
    }
}

pub(crate) fn set_text_list(values: &Vec<String>, field: &'static str) -> (r: Result<Vec<Vec<u8>>, WireError>)
    ensures
        match r {
            Ok(record) => {
                &&& values@.len() <= u32::MAX
                &&& lists(record@, texts(values@))
                &&& texts_read(record@) == Ok::<Seq<Seq<char>>, WireFault>(texts(values@))
            },
            Err(e) => values@.len() > u32::MAX && e@ == WireFault::TooLong(field@),
        },
{
    let _ = list_len(values.len(), field)?;
    let mut out: Vec<Vec<u8>> = Vec::new();
    let mut i: usize = 0;
    while i < values.len()
        invariant
            i <= values.len(),
            out.len() == i,
            forall|j: int|
                0 <= j < i ==> (#[trigger] out@[j])@ == text_bytes(texts(values@)[j]),
        decreases values.len() - i,
    {
        out.push(bytes_of(values[i].as_str()));
        i += 1;
    }
    proof {
        lemma_texts_back(out@, texts(values@));
    }
    Ok(out)
}

pub(crate) fn read_text_list(record: &Vec<Vec<u8>>) -> (r: Result<Vec<String>, WireError>)
    ensures
        match r {
            Ok(v) => texts_read(record@) == Ok::<Seq<Seq<char>>, WireFault>(texts(v@)),
            Err(e) => texts_read(record@) == Err::<Seq<Seq<char>>, WireFault>(e@),
        },
{
    let mut out: Vec<String> = Vec::new();
    let mut i: usize = 0;
    proof {
        assert(record@.take(0).len() == 0);
        assert(texts(out@) =~= Seq::<Seq<char>>::empty());
    }
    while i < record.len()
        invariant
            i <= record.len(),
            texts_read(record@.take(i as int)) == Ok::<Seq<Seq<char>>, WireFault>(texts(out@)),
        decreases record.len() - i,
    {
        let ghost before = texts(out@);
        proof {
            let next = record@.take(i + 1);
            assert(next.drop_last() =~= record@.take(i as int));
            assert(next.last() == record@[i as int]);
        }
        match read_text(record[i].as_slice()) {
            Ok(s) => {
                out.push(s);
                proof {
                    assert(texts(out@) =~= before.push(s@));
                }
            },
            Err(e) => {
                proof {
                    lemma_texts_fault(record@, i + 1);
                }
                return Err(e);
            },
        }
        i += 1;
    }
    proof {
        assert(record@.take(i as int) =~= record@);
    }
    Ok(out)
}

proof fn lemma_texts_fault(record: Seq<Vec<u8>>, n: int)
    requires
        0 <= n <= record.len(),
        texts_read(record.take(n)) is Err,
    ensures
        texts_read(record) == texts_read(record.take(n)),
    decreases record.len() - n,
{
    if n == record.len() {
        assert(record.take(n) =~= record);
    } else {
        assert(record.take(n + 1).drop_last() =~= record.take(n));
        lemma_texts_fault(record, n + 1);
    }
}

/// An optional text of a record.
pub enum TextOptRecord {
    /// No text.
    Absent,
    /// A text.
    Present(Vec<u8>),
    /// What this schema does not know.
    Unknown(u16),
}

/// Whether a record's optional text is this.
pub open spec fn holds_opt(record: TextOptRecord, value: Option<Seq<char>>) -> bool {
    match value {
        None => record is Absent,
        Some(s) => record matches TextOptRecord::Present(b) && b@ == text_bytes(s),
    }
}

/// The optional text that a record holds.
pub open spec fn opt_read(record: TextOptRecord) -> Result<Option<Seq<char>>, WireFault> {
    match record {
        TextOptRecord::Absent => Ok(None),
        TextOptRecord::Present(b) => match text_read(b@) {
            Ok(s) => Ok(Some(s)),
            Err(e) => Err(e),
        },
        TextOptRecord::Unknown(n) => Err(WireFault::Unknown(n)),
    }
}

pub(crate) fn set_text_opt(value: &Option<String>) -> (r: TextOptRecord)
    ensures
        holds_opt(r, text_opt(*value)),
        opt_read(r) == Ok::<Option<Seq<char>>, WireFault>(text_opt(*value)),
{
    match value {
        Some(s) => {
            proof {
                lemma_text_back(s@);
            }
            TextOptRecord::Present(bytes_of(s.as_str()))
        },
        None => TextOptRecord::Absent,
    }
}

pub(crate) fn read_text_opt(record: &TextOptRecord) -> (r: Result<Option<String>, WireError>)
    ensures
        match r {
            Ok(v) => opt_read(*record) == Ok::<Option<Seq<char>>, WireFault>(text_opt(v)),
            Err(e) => opt_read(*record) == Err::<Option<Seq<char>>, WireFault>(e@),
        },
{
    match record {
        TextOptRecord::Absent => Ok(None),
        TextOptRecord::Present(b) => {
            let s = read_text(b.as_slice())?;
            Ok(Some(s))
        },
        TextOptRecord::Unknown(n) => Err(WireError::Unknown(*n)),
    }
}

/// A pair of texts of a record.
pub struct PairRecord {
    /// The first text.
    pub key: Vec<u8>,
    /// The second text.
    pub value: Vec<u8>,
}

/// Whether a record's pairs are these.
pub open spec fn lists_pairs(
    record: Seq<PairRecord>,
    values: Seq<(Seq<char>, Seq<char>)>,
) -> bool {
    &&& record.len() == values.len()
    &&& forall|i: int|
        0 <= i < record.len() ==> (#[trigger] record[i]).key@ == text_bytes(values[i].0)
            && record[i].value@ == text_bytes(values[i].1)
}

/// The pairs that a record holds.
pub open spec fn pairs_read(record: Seq<PairRecord>) -> Result<
    Seq<(Seq<char>, Seq<char>)>,
    WireFault,
>
    decreases record.len(),
{
    if record.len() == 0 {
        Ok(Seq::empty())
    } else {
        match pairs_read(record.drop_last()) {
            Err(e) => Err(e),
            Ok(rest) => match text_read(record.last().key@) {
                Err(e) => Err(e),
                Ok(k) => match text_read(record.last().value@) {
                    Err(e) => Err(e),
                    Ok(v) => Ok(rest.push((k, v))),
                },
            },
        }
    }
}

proof fn lemma_pairs_back(record: Seq<PairRecord>, values: Seq<(Seq<char>, Seq<char>)>)
    requires
        lists_pairs(record, values),
    ensures
        pairs_read(record) == Ok::<Seq<(Seq<char>, Seq<char>)>, WireFault>(values),
    decreases record.len(),
{
    if record.len() == 0 {
        assert(values =~= Seq::empty());
    } else {
        let init = record.drop_last();
        assert forall|i: int| 0 <= i < init.len() implies (#[trigger] init[i]).key@ == text_bytes(
            values.drop_last()[i].0,
        ) && init[i].value@ == text_bytes(values.drop_last()[i].1) by {
            assert(init[i] == record[i]);
        }
        lemma_pairs_back(init, values.drop_last());
        lemma_text_back(values.last().0);
        lemma_text_back(values.last().1);
        assert(record.last() == record[record.len() - 1]);
        assert(values.drop_last().push((values.last().0, values.last().1)) =~= values);
    }
}

proof fn lemma_pairs_fault(record: Seq<PairRecord>, n: int)
    requires
        0 <= n <= record.len(),
        pairs_read(record.take(n)) is Err,
    ensures
        pairs_read(record) == pairs_read(record.take(n)),
    decreases record.len() - n,
{
    if n == record.len() {
        assert(record.take(n) =~= record);
    } else {
        assert(record.take(n + 1).drop_last() =~= record.take(n));
        lemma_pairs_fault(record, n + 1);
    }
}

fn set_pairs(values: &Vec<(String, String)>, field: &'static str) -> (r: Result<
    Vec<PairRecord>,
    WireError,
>)
    ensures
        match r {
            Ok(record) => {
                &&& values@.len() <= u32::MAX
                &&& lists_pairs(record@, pairs_view(values@))
                &&& pairs_read(record@) == Ok::<Seq<(Seq<char>, Seq<char>)>, WireFault>(
                    pairs_view(values@),
                )
            },
            Err(e) => values@.len() > u32::MAX && e@ == WireFault::TooLong(field@),
        },
{
    let _ = list_len(values.len(), field)?;
    let mut out: Vec<PairRecord> = Vec::new();
    let mut i: usize = 0;
    while i < values.len()
        invariant
            i <= values.len(),
            out.len() == i,
            forall|j: int|
                0 <= j < i ==> (#[trigger] out@[j]).key@ == text_bytes(pairs_view(values@)[j].0)
                    && out@[j].value@ == text_bytes(pairs_view(values@)[j].1),
        decreases values.len() - i,
    {
        out.push(
            PairRecord {
                key: bytes_of(values[i].0.as_str()),
                value: bytes_of(values[i].1.as_str()),
            },
        );
        i += 1;
    }
    proof {
        lemma_pairs_back(out@, pairs_view(values@));
    }
    Ok(out)
}

fn read_pairs(record: &Vec<PairRecord>) -> (r: Result<Vec<(String, String)>, WireError>)
    ensures
        match r {
            Ok(v) => pairs_read(record@) == Ok::<Seq<(Seq<char>, Seq<char>)>, WireFault>(
                pairs_view(v@),
            ),
            Err(e) => pairs_read(record@) == Err::<Seq<(Seq<char>, Seq<char>)>, WireFault>(e@),
        },
{
    let mut out: Vec<(String, String)> = Vec::new();
    let mut i: usize = 0;
    proof {
        assert(record@.take(0).len() == 0);
        assert(pairs_view(out@) =~= Seq::<(Seq<char>, Seq<char>)>::empty());
    }
    while i < record.len()
        invariant
            i <= record.len(),
            pairs_read(record@.take(i as int)) == Ok::<Seq<(Seq<char>, Seq<char>)>, WireFault>(
                pairs_view(out@),
            ),
        decreases record.len() - i,
    {
        let ghost before = pairs_view(out@);
        proof {
            let next = record@.take(i + 1);
            assert(next.drop_last() =~= record@.take(i as int));
            assert(next.last() == record@[i as int]);
            if pairs_read(next) is Err {
                lemma_pairs_fault(record@, i + 1);
            }
        }
        let key = read_text(record[i].key.as_slice())?;
        let value = read_text(record[i].value.as_slice())?;
        out.push((key, value));
        proof {
            assert(pairs_view(out@) =~= before.push((key@, value@)));
        }
        i += 1;
    }
    proof {
        assert(record@.take(i as int) =~= record@);
    }
    Ok(out)
}

/// An input of a record.
pub enum InputRecord {
    /// A flake reference.
    Flake(Vec<u8>),
    /// An expression.
    Expr(Vec<u8>),
    /// The path of a file.
    File(Vec<u8>),
    /// What this schema does not know.
    Unknown(u16),
}

/// Whether a record's input is this.
pub open spec fn holds_input(record: InputRecord, input: InputView) -> bool {
    match input {
        InputView::Flake(s) => record matches InputRecord::Flake(b) && b@ == text_bytes(s),
        InputView::Expr(s) => record matches InputRecord::Expr(b) && b@ == text_bytes(s),
        InputView::File(s) => record matches InputRecord::File(b) && b@ == text_bytes(s),
    }
}

/// The input that a record holds.
pub open spec fn input_read(record: InputRecord) -> Result<InputView, WireFault> {
    match record {
        InputRecord::Flake(b) => match text_read(b@) {
            Ok(s) => Ok(InputView::Flake(s)),
            Err(e) => Err(e),
        },
        InputRecord::Expr(b) => match text_read(b@) {
            Ok(s) => Ok(InputView::Expr(s)),
            Err(e) => Err(e),
        },
        InputRecord::File(b) => match text_read(b@) {
            Ok(s) => Ok(InputView::File(s)),
            Err(e) => Err(e),
        },
        InputRecord::Unknown(n) => Err(WireFault::Unknown(n)),
    }
}

fn set_input(input: &Input) -> (r: InputRecord)
    ensures
        holds_input(r, input@),
        input_read(r) == Ok::<InputView, WireFault>(input@),
{
    match input {
        Input::Flake(s) => {
            proof {
                lemma_text_back(s@);
            }
            InputRecord::Flake(bytes_of(s.as_str()))
        },
        Input::Expr(s) => {
            proof {
                lemma_text_back(s@);
            }
            InputRecord::Expr(bytes_of(s.as_str()))
        },
        Input::File(s) => {
            proof {
                lemma_text_back(s@);
            }
            InputRecord::File(bytes_of(s.as_str()))
        },
    }
}

fn read_input(record: &InputRecord) -> (r: Result<Input, WireError>)
    ensures
        match r {
            Ok(v) => input_read(*record) == Ok::<InputView, WireFault>(v@),
            Err(e) => input_read(*record) == Err::<InputView, WireFault>(e@),
        },
{
    match record {
        InputRecord::Flake(b) => {
            let s = read_text(b.as_slice())?;
            Ok(Input::Flake(s))
        },
        InputRecord::Expr(b) => {
            let s = read_text(b.as_slice())?;
            Ok(Input::Expr(s))
        },
        InputRecord::File(b) => {
            let s = read_text(b.as_slice())?;
            Ok(Input::File(s))
        },
        InputRecord::Unknown(n) => Err(WireError::Unknown(*n)),
    }
}

/// The value of an argument of a record.
pub enum AutoArgValueRecord {
    /// An expression.
    Expr(Vec<u8>),
    /// A string.
    Str(Vec<u8>),
    /// What this schema does not know.
    Unknown(u16),
}

/// An argument of a record.
pub struct AutoArgRecord {
    /// Its name.
    pub name: Vec<u8>,
    /// Its value.
    pub value: AutoArgValueRecord,
}

/// Whether a record's argument is this.
pub open spec fn holds_arg(record: AutoArgRecord, arg: (Seq<char>, AutoArgView)) -> bool {
    &&& record.name@ == text_bytes(arg.0)
    &&& match arg.1 {
        AutoArgView::Expr(s) => record.value matches AutoArgValueRecord::Expr(b) && b@
            == text_bytes(s),
        AutoArgView::Str(s) => record.value matches AutoArgValueRecord::Str(b) && b@
            == text_bytes(s),
    }
}

/// Whether a record's arguments are these.
pub open spec fn lists_args(
    record: Seq<AutoArgRecord>,
    args: Seq<(Seq<char>, AutoArgView)>,
) -> bool {
    &&& record.len() == args.len()
    &&& forall|i: int| 0 <= i < record.len() ==> holds_arg(#[trigger] record[i], args[i])
}

/// The argument value that a record holds.
pub open spec fn arg_value_read(record: AutoArgValueRecord) -> Result<AutoArgView, WireFault> {
    match record {
        AutoArgValueRecord::Expr(b) => match text_read(b@) {
            Ok(s) => Ok(AutoArgView::Expr(s)),
            Err(e) => Err(e),
        },
        AutoArgValueRecord::Str(b) => match text_read(b@) {
            Ok(s) => Ok(AutoArgView::Str(s)),
            Err(e) => Err(e),
        },
        AutoArgValueRecord::Unknown(n) => Err(WireFault::Unknown(n)),
    }
}

/// The arguments that a record holds.
pub open spec fn args_read(record: Seq<AutoArgRecord>) -> Result<
    Seq<(Seq<char>, AutoArgView)>,
    WireFault,
>
    decreases record.len(),
{
    if record.len() == 0 {
        Ok(Seq::empty())
    } else {
        match args_read(record.drop_last()) {
            Err(e) => Err(e),
            Ok(rest) => match text_read(record.last().name@) {
                Err(e) => Err(e),
                Ok(name) => match arg_value_read(record.last().value) {
                    Err(e) => Err(e),
                    Ok(value) => Ok(rest.push((name, value))),
                },
            },
        }
    }
}

proof fn lemma_args_back(record: Seq<AutoArgRecord>, args: Seq<(Seq<char>, AutoArgView)>)
    requires
        lists_args(record, args),
    ensures
        args_read(record) == Ok::<Seq<(Seq<char>, AutoArgView)>, WireFault>(args),
    decreases record.len(),
{
    if record.len() == 0 {
        assert(args =~= Seq::empty());
    } else {
        let init = record.drop_last();
        assert forall|i: int| 0 <= i < init.len() implies holds_arg(
            #[trigger] init[i],
            args.drop_last()[i],
        ) by {
            assert(init[i] == record[i]);
        }
        lemma_args_back(init, args.drop_last());
        assert(holds_arg(record[record.len() - 1], args.last()));
        lemma_text_back(args.last().0);
        match args.last().1 {
            AutoArgView::Expr(s) => {
                lemma_text_back(s);
            },
            AutoArgView::Str(s) => {
                lemma_text_back(s);
            },
        }
        assert(args.drop_last().push((args.last().0, args.last().1)) =~= args);
    }
}

proof fn lemma_args_fault(record: Seq<AutoArgRecord>, n: int)
    requires
        0 <= n <= record.len(),
        args_read(record.take(n)) is Err,
    ensures
        args_read(record) == args_read(record.take(n)),
    decreases record.len() - n,
{
    if n == record.len() {
        assert(record.take(n) =~= record);
    } else {
        assert(record.take(n + 1).drop_last() =~= record.take(n));
        lemma_args_fault(record, n + 1);
    }
}

fn set_auto_args(args: &Vec<(String, AutoArg)>) -> (r: Result<Vec<AutoArgRecord>, WireError>)
    ensures
        match r {
            Ok(record) => {
                &&& args@.len() <= u32::MAX
                &&& lists_args(record@, args_view(args@))
                &&& args_read(record@) == Ok::<Seq<(Seq<char>, AutoArgView)>, WireFault>(
                    args_view(args@),
                )
            },
            Err(e) => args@.len() > u32::MAX && e@ == WireFault::TooLong("auto args"@),
        },
{
    let _ = list_len(args.len(), "auto args")?;
    let mut out: Vec<AutoArgRecord> = Vec::new();
    let mut i: usize = 0;
    while i < args.len()
        invariant
            i <= args.len(),
            out.len() == i,
            forall|j: int| 0 <= j < i ==> holds_arg(#[trigger] out@[j], args_view(args@)[j]),
        decreases args.len() - i,
    {
        let value = match &args[i].1 {
            AutoArg::Expr(s) => AutoArgValueRecord::Expr(bytes_of(s.as_str())),
            AutoArg::Str(s) => AutoArgValueRecord::Str(bytes_of(s.as_str())),
        };
        out.push(AutoArgRecord { name: bytes_of(args[i].0.as_str()), value });
        i += 1;
    }
    proof {
        lemma_args_back(out@, args_view(args@));
    }
    Ok(out)
}

fn read_arg_value(record: &AutoArgValueRecord) -> (r: Result<AutoArg, WireError>)
    ensures
        match r {
            Ok(v) => arg_value_read(*record) == Ok::<AutoArgView, WireFault>(v@),
            Err(e) => arg_value_read(*record) == Err::<AutoArgView, WireFault>(e@),
        },
{
    match record {
        AutoArgValueRecord::Expr(b) => {
            let s = read_text(b.as_slice())?;
            Ok(AutoArg::Expr(s))
        },
        AutoArgValueRecord::Str(b) => {
            let s = read_text(b.as_slice())?;
            Ok(AutoArg::Str(s))
        },
        AutoArgValueRecord::Unknown(n) => Err(WireError::Unknown(*n)),
    }
}

fn read_auto_args(record: &Vec<AutoArgRecord>) -> (r: Result<Vec<(String, AutoArg)>, WireError>)
    ensures
        match r {
            Ok(v) => args_read(record@) == Ok::<Seq<(Seq<char>, AutoArgView)>, WireFault>(
                args_view(v@),
            ),
            Err(e) => args_read(record@) == Err::<Seq<(Seq<char>, AutoArgView)>, WireFault>(e@),
        },
{
    let mut out: Vec<(String, AutoArg)> = Vec::new();
    let mut i: usize = 0;
    proof {
        assert(record@.take(0).len() == 0);
        assert(args_view(out@) =~= Seq::<(Seq<char>, AutoArgView)>::empty());
    }
    while i < record.len()
        invariant
            i <= record.len(),
            args_read(record@.take(i as int)) == Ok::<Seq<(Seq<char>, AutoArgView)>, WireFault>(
                args_view(out@),
            ),
        decreases record.len() - i,
    {
        let ghost before = args_view(out@);
        proof {
            let next = record@.take(i + 1);
            assert(next.drop_last() =~= record@.take(i as int));
            assert(next.last() == record@[i as int]);
            if args_read(next) is Err {
                lemma_args_fault(record@, i + 1);
            }
        }
        let name = read_text(record[i].name.as_slice())?;
        let value = read_arg_value(&record[i].value)?;
        out.push((name, value));
        proof {
            assert(args_view(out@) =~= before.push((name@, value@)));
        }
        i += 1;
    }
    proof {
        assert(record@.take(i as int) =~= record@);
    }
    Ok(out)
}

/// A worker's configuration of a record.
pub struct WorkerConfigRecord {
    /// What to evaluate.
    pub input: InputRecord,
    /// The arguments.
    pub auto_args: Vec<AutoArgRecord>,
    /// Recurse into all attribute sets.
    pub force_recurse: bool,
    /// Where to register garbage-collector roots.
    pub gc_roots_dir: TextOptRecord,
    /// The memory limit, in mebibytes.
    pub max_memory_size: u64,
    /// Per-attribute timeout in seconds; zero where the peer names none.
    pub item_timeout_seconds: u64,
    /// Attach `meta` attributes.
    pub meta: bool,
    /// Attach input derivations.
    pub show_input_drvs: bool,
    /// Flake input overrides.
    pub override_inputs: Vec<PairRecord>,
    /// Nix settings.
    pub nix_options: Vec<PairRecord>,
    /// The locked flake graph.
    pub locked_flake_json: TextOptRecord,
}

/// Whether a record is that of a configuration.
pub open spec fn holds_config(record: WorkerConfigRecord, config: WorkerConfigView) -> bool {
    &&& holds_input(record.input, config.input)
    &&& lists_args(record.auto_args@, config.auto_args)
    &&& record.force_recurse == config.force_recurse
    &&& holds_opt(record.gc_roots_dir, config.gc_roots_dir)
    &&& record.max_memory_size == config.max_memory_size
    &&& record.item_timeout_seconds == config.item_timeout_seconds
    &&& record.meta == config.meta
    &&& record.show_input_drvs == config.show_input_drvs
    &&& lists_pairs(record.override_inputs@, config.override_inputs)
    &&& lists_pairs(record.nix_options@, config.nix_options)
    &&& holds_opt(record.locked_flake_json, config.locked_flake_json)
}

/// The list of a configuration that is too long for a message.
pub open spec fn config_too_long(config: WorkerConfigView) -> Option<Seq<char>> {
    if config.auto_args.len() > u32::MAX {
        Some("auto args"@)
    } else if config.override_inputs.len() > u32::MAX {
        Some("override inputs"@)
    } else if config.nix_options.len() > u32::MAX {
        Some("nix options"@)
    } else {
        None
    }
}

/// The timeout that a record asks for: zero asks for the default.
pub open spec fn timeout_read(seconds: u64) -> u64 {
    if seconds == 0 {
        DEFAULT_ITEM_TIMEOUT_SECONDS
    } else {
        seconds
    }
}

/// The configuration that a record holds.
pub open spec fn config_read(record: WorkerConfigRecord) -> Result<WorkerConfigView, WireFault> {
    match input_read(record.input) {
        Err(e) => Err(e),
        Ok(input) => match args_read(record.auto_args@) {
            Err(e) => Err(e),
            Ok(auto_args) => match opt_read(record.gc_roots_dir) {
                Err(e) => Err(e),
                Ok(gc_roots_dir) => if record.max_memory_size > usize::MAX {
                    Err(WireFault::MemoryTooLarge)
                } else {
                    match pairs_read(record.override_inputs@) {
                        Err(e) => Err(e),
                        Ok(override_inputs) => match pairs_read(record.nix_options@) {
                            Err(e) => Err(e),
                            Ok(nix_options) => match opt_read(record.locked_flake_json) {
                                Err(e) => Err(e),
                                Ok(locked_flake_json) => Ok(
                                    WorkerConfigView {
                                        input,
                                        auto_args,
                                        force_recurse: record.force_recurse,
                                        gc_roots_dir,
                                        max_memory_size: record.max_memory_size as usize,
                                        item_timeout_seconds: timeout_read(
                                            record.item_timeout_seconds,
                                        ),
                                        meta: record.meta,
                                        show_input_drvs: record.show_input_drvs,
                                        override_inputs,
                                        nix_options,
                                        locked_flake_json,
                                    },
                                ),
                            },
                        },
                    }
                },
            },
        },
    }
}

/// Writes a worker's configuration. It reads back as it was; a timeout of zero reads back as
/// the default.
pub fn set_worker_config(config: &WorkerConfig) -> (r: Result<WorkerConfigRecord, WireError>)
    ensures
        match r {
            Ok(record) => {
                &&& config_too_long(config@) is None
                &&& holds_config(record, config@)
                &&& config_read(record) == Ok::<WorkerConfigView, WireFault>(
                    (WorkerConfigView {
                        item_timeout_seconds: timeout_read(config@.item_timeout_seconds),
                        ..config@
                    }),
                )
            },
            Err(e) => config_too_long(config@) matches Some(field) && e@ == WireFault::TooLong(
                field,
            ),
        },
{
    let input = set_input(&config.input);
    let auto_args = set_auto_args(&config.auto_args)?;
    let gc_roots_dir = set_text_opt(&config.gc_roots_dir);
    let override_inputs = set_pairs(&config.override_inputs, "override inputs")?;
    let nix_options = set_pairs(&config.nix_options, "nix options")?;
    let locked_flake_json = set_text_opt(&config.locked_flake_json);
    Ok(
        WorkerConfigRecord {
            input,
            auto_args,
            force_recurse: config.force_recurse,
            gc_roots_dir,
            max_memory_size: config.max_memory_size as u64,
            item_timeout_seconds: config.item_timeout_seconds,
            meta: config.meta,
            show_input_drvs: config.show_input_drvs,
            override_inputs,
            nix_options,
            locked_flake_json,
        },
    )
}

fn read_item_timeout_seconds(seconds: u64) -> (r: u64)
    ensures
        r == timeout_read(seconds),
{
    if seconds == 0 {
        DEFAULT_ITEM_TIMEOUT_SECONDS
    } else {
        seconds
    }
}

/// Reads a worker's configuration.
pub fn read_worker_config(record: &WorkerConfigRecord) -> (r: Result<WorkerConfig, WireError>)
    ensures
        match r {
            Ok(config) => config_read(*record) == Ok::<WorkerConfigView, WireFault>(config@),
            Err(e) => config_read(*record) == Err::<WorkerConfigView, WireFault>(e@),
        },
{
    let input = read_input(&record.input)?;
    let auto_args = read_auto_args(&record.auto_args)?;
    let gc_roots_dir = read_text_opt(&record.gc_roots_dir)?;
    let max_memory_size: usize = match usize::try_from(record.max_memory_size) {
        Ok(size) => size,
        Err(_) => {
            return Err(WireError::MemoryTooLarge);
        },
    };
    let override_inputs = read_pairs(&record.override_inputs)?;
    let nix_options = read_pairs(&record.nix_options)?;
    let locked_flake_json = read_text_opt(&record.locked_flake_json)?;
    Ok(
        WorkerConfig {
            input,
            auto_args,
            force_recurse: record.force_recurse,
            gc_roots_dir,
            max_memory_size,
            item_timeout_seconds: read_item_timeout_seconds(record.item_timeout_seconds),
            meta: record.meta,
            show_input_drvs: record.show_input_drvs,
            override_inputs,
            nix_options,
            locked_flake_json,
        },
    )
}

/// The path of an output of a record.
pub enum OutputPathRecord {
    /// No path.
    Absent,
    /// A path.
    Path(Vec<u8>),
    /// What this schema does not know.
    Unknown(u16),
}

/// An output of a record.
pub struct OutputRecord {
    /// Its name.
    pub name: Vec<u8>,
    /// Its path.
    pub path: OutputPathRecord,
}

/// An input derivation of a record.
pub struct InputDrvRecord {
    /// Its path.
    pub drv_path: Vec<u8>,
    /// The names of the outputs used, as JSON.
    pub value_json: Vec<u8>,
}

/// An optional list of texts of a record.
pub enum TextListOptRecord {
    /// No list.
    Absent,
    /// A list.
    Present(Vec<Vec<u8>>),
    /// What this schema does not know.
    Unknown(u16),
}

/// A derivation of a record.
pub struct DerivationRecord {
    /// The dotted attribute path.
    pub attr: Vec<u8>,
    /// The attribute path.
    pub attr_path: Vec<Vec<u8>>,
    /// The name.
    pub name: Vec<u8>,
    /// The system.
    pub system: Vec<u8>,
    /// The store path.
    pub drv_path: Vec<u8>,
    /// The outputs.
    pub outputs: Vec<OutputRecord>,
    /// The `meta` attribute, as JSON.
    pub meta_json: TextOptRecord,
    /// The input derivations.
    pub input_drvs: Vec<InputDrvRecord>,
    /// The constituents.
    pub constituents: TextListOptRecord,
    /// Why the garbage-collector root could not be registered.
    pub gc_root_error: TextOptRecord,
}

/// Whether a record's output is this.
pub open spec fn holds_output(
    record: OutputRecord,
    name: Seq<char>,
    path: Option<Seq<char>>,
) -> bool {
    &&& record.name@ == text_bytes(name)
    &&& match path {
        None => record.path is Absent,
        Some(s) => record.path matches OutputPathRecord::Path(b) && b@ == text_bytes(s),
    }
}

/// Whether a record's outputs are these, in this order.
pub open spec fn lists_outputs(
    record: Seq<OutputRecord>,
    names: Seq<Seq<char>>,
    outputs: Map<Seq<char>, Option<Seq<char>>>,
) -> bool {
    &&& record.len() == names.len()
    &&& forall|i: int|
        0 <= i < record.len() ==> holds_output(#[trigger] record[i], names[i], outputs[names[i]])
}

/// The output path that a record holds.
pub open spec fn output_path_read(record: OutputPathRecord) -> Result<
    Option<Seq<char>>,
    WireFault,
> {
    match record {
        OutputPathRecord::Absent => Ok(None),
        OutputPathRecord::Path(b) => match text_read(b@) {
            Ok(s) => Ok(Some(s)),
            Err(e) => Err(e),
        },
        OutputPathRecord::Unknown(n) => Err(WireFault::Unknown(n)),
    }
}

/// The outputs that a record holds; a later one replaces an earlier one of its name.
pub open spec fn outputs_read(record: Seq<OutputRecord>) -> Result<
    Map<Seq<char>, Option<Seq<char>>>,
    WireFault,
>
    decreases record.len(),
{
    if record.len() == 0 {
        Ok(Map::empty())
    } else {
        match outputs_read(record.drop_last()) {
            Err(e) => Err(e),
            Ok(rest) => match output_path_read(record.last().path) {
                Err(e) => Err(e),
                Ok(path) => match text_read(record.last().name@) {
                    Err(e) => Err(e),
                    Ok(name) => Ok(rest.insert(name, path)),
                },
            },
        }
    }
}

/// The entries of a map under the given names.
pub open spec fn restricted<V>(m: Map<Seq<char>, V>, names: Seq<Seq<char>>) -> Map<Seq<char>, V>
    decreases names.len(),
{
    if names.len() == 0 {
        Map::empty()
    } else {
        restricted(m, names.drop_last()).insert(names.last(), m[names.last()])
    }
}

proof fn lemma_restricted<V>(m: Map<Seq<char>, V>, names: Seq<Seq<char>>)
    ensures
        forall|k: Seq<char>| #[trigger]
            restricted(m, names).contains_key(k) <==> names.contains(k),
        forall|k: Seq<char>| #[trigger]
            restricted(m, names).contains_key(k) ==> restricted(m, names)[k] == m[k],
    decreases names.len(),
{
    if names.len() > 0 {
        let init = names.drop_last();
        lemma_restricted(m, init);
        assert forall|k: Seq<char>| names.contains(k) <==> #[trigger] init.contains(k) || k
            == names.last() by {
            if names.contains(k) && k != names.last() {
                let i = names.index_of(k);
                assert(init[i] == k);
            }
            if init.contains(k) {
                let i = init.index_of(k);
                assert(names[i] == k);
            }
            assert(names[names.len() - 1] == names.last());
        }
        assert forall|k: Seq<char>| #[trigger]
            restricted(m, names).contains_key(k) <==> names.contains(k) by {
            assert(restricted(m, init).contains_key(k) <==> init.contains(k));
        }
        assert forall|k: Seq<char>| #[trigger] restricted(m, names).contains_key(k) implies restricted(
            m,
            names,
        )[k] == m[k] by {
            if k != names.last() {
                assert(restricted(m, init).contains_key(k));
            }
        }
    }
}

proof fn lemma_restricted_all<V>(m: Map<Seq<char>, V>, names: Seq<Seq<char>>)
    requires
        forall|k: Seq<char>| #[trigger] m.contains_key(k) <==> names.contains(k),
    ensures
        restricted(m, names) == m,
{
    lemma_restricted(m, names);
    assert forall|k: Seq<char>| #[trigger] m.contains_key(k) <==> restricted(
        m,
        names,
    ).contains_key(k) by {}
    assert(restricted(m, names) =~= m);
}

proof fn lemma_outputs_back(
    record: Seq<OutputRecord>,
    names: Seq<Seq<char>>,
    outputs: Map<Seq<char>, Option<Seq<char>>>,
)
    requires
        lists_outputs(record, names, outputs),
    ensures
        outputs_read(record) == Ok::<Map<Seq<char>, Option<Seq<char>>>, WireFault>(
            restricted(outputs, names),
        ),
    decreases record.len(),
{
    if record.len() > 0 {
        let init = record.drop_last();
        assert forall|i: int| 0 <= i < init.len() implies holds_output(
            #[trigger] init[i],
            names.drop_last()[i],
            outputs[names.drop_last()[i]],
        ) by {
            assert(init[i] == record[i]);
        }
        lemma_outputs_back(init, names.drop_last(), outputs);
        assert(holds_output(record[record.len() - 1], names.last(), outputs[names.last()]));
        lemma_text_back(names.last());
        if let Some(s) = outputs[names.last()] {
            lemma_text_back(s);
        }
    }
}

proof fn lemma_outputs_fault(record: Seq<OutputRecord>, n: int)
    requires
        0 <= n <= record.len(),
        outputs_read(record.take(n)) is Err,
    ensures
        outputs_read(record) == outputs_read(record.take(n)),
    decreases record.len() - n,
{
    if n == record.len() {
        assert(record.take(n) =~= record);
    } else {
        assert(record.take(n + 1).drop_last() =~= record.take(n));
        lemma_outputs_fault(record, n + 1);
    }
}

fn set_outputs(outputs: &OrderedMap<String, Option<String>>) -> (r: Result<
    Vec<OutputRecord>,
    WireError,
>)
    ensures
        match r {
            Ok(record) => {
                &&& outputs.keys().len() <= u32::MAX
                &&& lists_outputs(record@, outputs.keys(), outputs_view(outputs@))
                &&& outputs_read(record@) == Ok::<Map<Seq<char>, Option<Seq<char>>>, WireFault>(
                    outputs_view(outputs@),
                )
            },
            Err(e) => outputs.keys().len() > u32::MAX && e@ == WireFault::TooLong(
                "derivation outputs"@,
            ),
        },
{
    let n: usize = outputs.len();
    let _ = list_len(n, "derivation outputs")?;
    let mut out: Vec<OutputRecord> = Vec::new();
    let mut i: usize = 0;
    let ghost names = outputs.keys();
    let ghost all = outputs_view(outputs@);
    while i < n
        invariant
            i <= n,
            n == outputs.keys().len(),
            names == outputs.keys(),
            all == outputs_view(outputs@),
            out.len() == i,
            forall|j: int|
                0 <= j < i ==> holds_output(#[trigger] out@[j], names[j], all[names[j]]),
        decreases n - i,
    {
        let name = outputs.key_at(i);
        let path = match outputs.value_at(i) {
            Some(s) => OutputPathRecord::Path(bytes_of(s.as_str())),
            None => OutputPathRecord::Absent,
        };
        out.push(OutputRecord { name: bytes_of(name.as_str()), path });
        i += 1;
    }
    proof {
        lemma_outputs_back(out@, names, all);
        assert forall|k: Seq<char>| #[trigger] all.contains_key(k) <==> names.contains(k) by {
            assert(outputs@.contains_key(k) <==> names.contains(k));
        }
        lemma_restricted_all(all, names);
    }
    Ok(out)
}

fn read_outputs(record: &Vec<OutputRecord>) -> (r: Result<
    OrderedMap<String, Option<String>>,
    WireError,
>)
    ensures
        match r {
            Ok(m) => outputs_read(record@) == Ok::<Map<Seq<char>, Option<Seq<char>>>, WireFault>(
                outputs_view(m@),
            ),
            Err(e) => outputs_read(record@) == Err::<Map<Seq<char>, Option<Seq<char>>>, WireFault>(
                e@,
            ),
        },
{
    let mut out: OrderedMap<String, Option<String>> = OrderedMap::new();
    let mut i: usize = 0;
    proof {
        assert(record@.take(0).len() == 0);
        assert(outputs_view(out@) =~= Map::empty());
    }
    while i < record.len()
        invariant
            i <= record.len(),
            outputs_read(record@.take(i as int)) == Ok::<
                Map<Seq<char>, Option<Seq<char>>>,
                WireFault,
            >(outputs_view(out@)),
        decreases record.len() - i,
    {
        let ghost before = outputs_view(out@);
        proof {
            let next = record@.take(i + 1);
            assert(next.drop_last() =~= record@.take(i as int));
            assert(next.last() == record@[i as int]);
            if outputs_read(next) is Err {
                lemma_outputs_fault(record@, i + 1);
            }
        }
        let path = match &record[i].path {
            OutputPathRecord::Absent => None,
            OutputPathRecord::Path(b) => {
                let s = read_text(b.as_slice())?;
                Some(s)
            },
            OutputPathRecord::Unknown(n) => {
                return Err(WireError::Unknown(*n));
            },
        };
        let name = read_text(record[i].name.as_slice())?;
        out.insert(name, path);
        proof {
            assert(outputs_view(out@) =~= before.insert(name@, text_opt(path)));
        }
        i += 1;
    }
    proof {
        assert(record@.take(i as int) =~= record@);
    }
    Ok(out)
}

/// Whether a record's input derivations are these, in this order.
pub open spec fn lists_inputs(
    record: Seq<InputDrvRecord>,
    names: Seq<Seq<char>>,
    inputs: Map<Seq<char>, Seq<Seq<char>>>,
) -> bool {
    &&& record.len() == names.len()
    &&& forall|i: int|
        0 <= i < record.len() ==> (#[trigger] record[i]).drv_path@ == text_bytes(names[i])
            && record[i].value_json@ == text_bytes(texts_json(inputs[names[i]]))
}

/// The list of strings that a text holds as JSON.
pub open spec fn json_list_read(bytes: Seq<u8>) -> Result<Seq<Seq<char>>, WireFault> {
    match text_read(bytes) {
        Err(e) => Err(e),
        Ok(text) => match texts_parsed(text) {
            Ok(items) => Ok(items),
            Err(cause) => Err(WireFault::BadJson("parsing inputDrv outputs"@, cause)),
        },
    }
}

/// The input derivations that a record holds; a later one replaces an earlier one of its path.
pub open spec fn inputs_read(record: Seq<InputDrvRecord>) -> Result<
    Map<Seq<char>, Seq<Seq<char>>>,
    WireFault,
>
    decreases record.len(),
{
    if record.len() == 0 {
        Ok(Map::empty())
    } else {
        match inputs_read(record.drop_last()) {
            Err(e) => Err(e),
            Ok(rest) => match text_read(record.last().drv_path@) {
                Err(e) => Err(e),
                Ok(drv_path) => match json_list_read(record.last().value_json@) {
                    Err(e) => Err(e),
                    Ok(outputs) => Ok(rest.insert(drv_path, outputs)),
                },
            },
        }
    }
}

proof fn lemma_inputs_back(
    record: Seq<InputDrvRecord>,
    names: Seq<Seq<char>>,
    inputs: Map<Seq<char>, Seq<Seq<char>>>,
)
    requires
        lists_inputs(record, names, inputs),
        forall|i: int|
            0 <= i < names.len() ==> texts_parsed(texts_json(inputs[#[trigger] names[i]])) == Ok::<
                Seq<Seq<char>>,
                Seq<char>,
            >(inputs[names[i]]),
    ensures
        inputs_read(record) == Ok::<Map<Seq<char>, Seq<Seq<char>>>, WireFault>(
            restricted(inputs, names),
        ),
    decreases record.len(),
{
    if record.len() > 0 {
        let init = record.drop_last();
        let fewer = names.drop_last();
        assert forall|i: int| 0 <= i < init.len() implies (#[trigger] init[i]).drv_path@
            == text_bytes(fewer[i]) && init[i].value_json@ == text_bytes(
            texts_json(inputs[fewer[i]]),
        ) by {
            assert(init[i] == record[i]);
        }
        assert forall|i: int| 0 <= i < fewer.len() implies texts_parsed(
            texts_json(inputs[#[trigger] fewer[i]]),
        ) == Ok::<Seq<Seq<char>>, Seq<char>>(inputs[fewer[i]]) by {
            assert(fewer[i] == names[i]);
        }
        lemma_inputs_back(init, fewer, inputs);
        assert(record[record.len() - 1] == record.last());
        assert(names[names.len() - 1] == names.last());
        lemma_text_back(names.last());
        lemma_text_back(texts_json(inputs[names.last()]));
    }
}

proof fn lemma_inputs_fault(record: Seq<InputDrvRecord>, n: int)
    requires
        0 <= n <= record.len(),
        inputs_read(record.take(n)) is Err,
    ensures
        inputs_read(record) == inputs_read(record.take(n)),
    decreases record.len() - n,
{
    if n == record.len() {
        assert(record.take(n) =~= record);
    } else {
        assert(record.take(n + 1).drop_last() =~= record.take(n));
        lemma_inputs_fault(record, n + 1);
    }
}

fn set_input_drvs(inputs: &OrderedMap<String, Vec<String>>) -> (r: Result<
    Vec<InputDrvRecord>,
    WireError,
>)
    ensures
        match r {
            Ok(record) => {
                &&& inputs.keys().len() <= u32::MAX
                &&& lists_inputs(record@, inputs.keys(), input_drvs_view(inputs@))
                &&& inputs_read(record@) == Ok::<Map<Seq<char>, Seq<Seq<char>>>, WireFault>(
                    input_drvs_view(inputs@),
                )
            },
            Err(e) => inputs.keys().len() > u32::MAX && e@ == WireFault::TooLong("input drvs"@),
        },
{
    let n: usize = inputs.len();
    let _ = list_len(n, "input drvs")?;
    let mut out: Vec<InputDrvRecord> = Vec::new();
    let mut i: usize = 0;
    let ghost names = inputs.keys();
    let ghost all = input_drvs_view(inputs@);
    while i < n
        invariant
            i <= n,
            n == inputs.keys().len(),
            names == inputs.keys(),
            all == input_drvs_view(inputs@),
            out.len() == i,
            forall|j: int|
                0 <= j < i ==> (#[trigger] out@[j]).drv_path@ == text_bytes(names[j])
                    && out@[j].value_json@ == text_bytes(texts_json(all[names[j]])),
            forall|j: int|
                0 <= j < i ==> texts_parsed(texts_json(all[#[trigger] names[j]])) == Ok::<
                    Seq<Seq<char>>,
                    Seq<char>,
                >(all[names[j]]),
        decreases n - i,
    {
        let name = inputs.key_at(i);
        let outputs = inputs.value_at(i);
        match print_texts(outputs) {
            Ok(text) => {
                out.push(
                    InputDrvRecord {
                        drv_path: bytes_of(name.as_str()),
                        value_json: bytes_of(text.as_str()),
                    },
                );
            },
            Err(cause) => {
                return Err(WireError::BadJson { context: "printing inputDrv outputs", cause });
            },
        }
        i += 1;
    }
    proof {
        lemma_inputs_back(out@, names, all);
        assert forall|k: Seq<char>| #[trigger] all.contains_key(k) <==> names.contains(k) by {
            assert(inputs@.contains_key(k) <==> names.contains(k));
        }
        lemma_restricted_all(all, names);
    }
    Ok(out)
}

fn read_json_list(bytes: &Vec<u8>) -> (r: Result<Vec<String>, WireError>)
    ensures
        match r {
            Ok(v) => json_list_read(bytes@) == Ok::<Seq<Seq<char>>, WireFault>(texts(v@)),
            Err(e) => json_list_read(bytes@) == Err::<Seq<Seq<char>>, WireFault>(e@),
        },
{
    let text = read_text(bytes.as_slice())?;
    match parse_texts(text.as_str()) {
        Ok(items) => Ok(items),
        Err(cause) => Err(WireError::BadJson { context: "parsing inputDrv outputs", cause }),
    }
}

fn read_input_drvs(record: &Vec<InputDrvRecord>) -> (r: Result<
    OrderedMap<String, Vec<String>>,
    WireError,
>)
    ensures
        match r {
            Ok(m) => inputs_read(record@) == Ok::<Map<Seq<char>, Seq<Seq<char>>>, WireFault>(
                input_drvs_view(m@),
            ),
            Err(e) => inputs_read(record@) == Err::<Map<Seq<char>, Seq<Seq<char>>>, WireFault>(e@),
        },
{
    let mut out: OrderedMap<String, Vec<String>> = OrderedMap::new();
    let mut i: usize = 0;
    proof {
        assert(record@.take(0).len() == 0);
        assert(input_drvs_view(out@) =~= Map::empty());
    }
    while i < record.len()
        invariant
            i <= record.len(),
            inputs_read(record@.take(i as int)) == Ok::<
                Map<Seq<char>, Seq<Seq<char>>>,
                WireFault,
            >(input_drvs_view(out@)),
        decreases record.len() - i,
    {
        let ghost before = input_drvs_view(out@);
        proof {
            let next = record@.take(i + 1);
            assert(next.drop_last() =~= record@.take(i as int));
            assert(next.last() == record@[i as int]);
            if inputs_read(next) is Err {
                lemma_inputs_fault(record@, i + 1);
            }
        }
        let drv_path = read_text(record[i].drv_path.as_slice())?;
        let outputs = read_json_list(&record[i].value_json)?;
        out.insert(drv_path, outputs);
        proof {
            assert(input_drvs_view(out@) =~= before.insert(drv_path@, texts(outputs@)));
        }
        i += 1;
    }
    proof {
        assert(record@.take(i as int) =~= record@);
    }
    Ok(out)
}

/// Whether a record's optional list is this.
pub open spec fn holds_list_opt(
    record: TextListOptRecord,
    values: Option<Seq<Seq<char>>>,
) -> bool {
    match values {
        None => record is Absent,
        Some(values) => record matches TextListOptRecord::Present(list) && lists(list@, values),
    }
}

/// The optional list that a record holds.
pub open spec fn list_opt_read(record: TextListOptRecord) -> Result<
    Option<Seq<Seq<char>>>,
    WireFault,
> {
    match record {
        TextListOptRecord::Absent => Ok(None),
        TextListOptRecord::Present(list) => match texts_read(list@) {
            Ok(values) => Ok(Some(values)),
            Err(e) => Err(e),
        },
        TextListOptRecord::Unknown(n) => Err(WireFault::Unknown(n)),
    }
}

fn read_text_list_opt(record: &TextListOptRecord) -> (r: Result<Option<Vec<String>>, WireError>)
    ensures
        match r {
            Ok(v) => list_opt_read(*record) == Ok::<Option<Seq<Seq<char>>>, WireFault>(
                texts_opt(v),
            ),
            Err(e) => list_opt_read(*record) == Err::<Option<Seq<Seq<char>>>, WireFault>(e@),
        },
{
    match record {
        TextListOptRecord::Absent => Ok(None),
        TextListOptRecord::Present(list) => {
            let v = read_text_list(list)?;
            Ok(Some(v))
        },
        TextListOptRecord::Unknown(n) => Err(WireError::Unknown(*n)),
    }
}

/// The text of an optional JSON value.
pub open spec fn meta_text(meta: Option<Json>) -> Option<Seq<char>> {
    match meta {
        Some(t) => Some(json_text(t)),
        None => None,
    }
}

/// The optional JSON value that an optional text holds.
pub open spec fn meta_read(record: TextOptRecord) -> Result<Option<Json>, WireFault> {
    match opt_read(record) {
        Err(e) => Err(e),
        Ok(None) => Ok(None),
        Ok(Some(text)) => match json_parsed(text) {
            Ok(t) => Ok(Some(t)),
            Err(cause) => Err(WireFault::BadJson("parsing meta JSON value"@, cause)),
        },
    }
}

/// Whether the `meta` attribute is one that its text gives back.
pub open spec fn meta_plain(meta: Option<Json>) -> bool {
    meta matches Some(t) ==> plain_within(t, PARSE_DEPTH as nat)
}

fn set_meta(meta: &Option<serde_json::Value>) -> (r: Result<TextOptRecord, WireError>)
    ensures
        r is Ok,
        holds_opt(r->Ok_0, meta_text(json_opt(*meta))),
        meta_plain(json_opt(*meta)) ==> meta_read(r->Ok_0) == Ok::<Option<Json>, WireFault>(
            json_opt(*meta),
        ),
{
    match meta {
        None => Ok(TextOptRecord::Absent),
        Some(value) => match print(value) {
            Ok(text) => {
                proof {
                    lemma_text_back(text@);
                }
                Ok(TextOptRecord::Present(bytes_of(text.as_str())))
            },
            Err(cause) => Err(WireError::BadJson { context: "printing meta JSON value", cause }),
        },
    }
}

fn read_meta(record: &TextOptRecord) -> (r: Result<Option<serde_json::Value>, WireError>)
    ensures
        match r {
            Ok(v) => meta_read(*record) == Ok::<Option<Json>, WireFault>(json_opt(v)),
            Err(e) => meta_read(*record) == Err::<Option<Json>, WireFault>(e@),
        },
{
    match read_text_opt(record)? {
        None => Ok(None),
        Some(text) => match parse(text.as_str()) {
            Ok(value) => Ok(Some(value)),
            Err(cause) => Err(WireError::BadJson { context: "parsing meta JSON value", cause }),
        },
    }
}

/// Whether a record is that of a derivation, with its outputs and inputs in order.
pub open spec fn holds_derivation(record: DerivationRecord, d: Derivation) -> bool {
    &&& record.attr@ == text_bytes(d@.attr)
    &&& lists(record.attr_path@, d@.attr_path)
    &&& record.name@ == text_bytes(d@.name)
    &&& record.system@ == text_bytes(d@.system)
    &&& record.drv_path@ == text_bytes(d@.drv_path)
    &&& lists_outputs(record.outputs@, d.outputs.keys(), d@.outputs)
    &&& holds_opt(record.meta_json, meta_text(d@.meta))
    &&& lists_inputs(record.input_drvs@, d.input_drvs.keys(), d@.input_drvs)
    &&& holds_list_opt(record.constituents, d@.constituents)
    &&& holds_opt(record.gc_root_error, d@.gc_root_error)
}

/// The list of a derivation that is too long for a message.
pub open spec fn derivation_too_long(d: Derivation) -> Option<Seq<char>> {
    if d.attr_path@.len() > u32::MAX {
        Some("derivation attr path"@)
    } else if d.outputs.keys().len() > u32::MAX {
        Some("derivation outputs"@)
    } else if d.input_drvs.keys().len() > u32::MAX {
        Some("input drvs"@)
    } else if d.constituents matches Some(v) && v@.len() > u32::MAX {
        Some("constituents"@)
    } else {
        None
    }
}

/// The texts of a derivation's record.
pub open spec fn derivation_texts_read(record: DerivationRecord) -> Result<
    (Seq<char>, Seq<Seq<char>>, Seq<char>, Seq<char>, Seq<char>),
    WireFault,
> {
    match text_read(record.attr@) {
        Err(e) => Err(e),
        Ok(attr) => match texts_read(record.attr_path@) {
            Err(e) => Err(e),
            Ok(attr_path) => match text_read(record.name@) {
                Err(e) => Err(e),
                Ok(name) => match text_read(record.system@) {
                    Err(e) => Err(e),
                    Ok(system) => match text_read(record.drv_path@) {
                        Err(e) => Err(e),
                        Ok(drv_path) => Ok((attr, attr_path, name, system, drv_path)),
                    },
                },
            },
        },
    }
}

/// The derivation that a record holds.
pub open spec fn derivation_read(record: DerivationRecord) -> Result<DerivationView, WireFault> {
    match outputs_read(record.outputs@) {
        Err(e) => Err(e),
        Ok(outputs) => match inputs_read(record.input_drvs@) {
            Err(e) => Err(e),
            Ok(input_drvs) => match derivation_texts_read(record) {
                Err(e) => Err(e),
                Ok((attr, attr_path, name, system, drv_path)) => match meta_read(
                    record.meta_json,
                ) {
                    Err(e) => Err(e),
                    Ok(meta) => match list_opt_read(record.constituents) {
                        Err(e) => Err(e),
                        Ok(constituents) => match opt_read(record.gc_root_error) {
                            Err(e) => Err(e),
                            Ok(gc_root_error) => Ok(
                                DerivationView {
                                    attr,
                                    attr_path,
                                    name,
                                    system,
                                    drv_path,
                                    outputs,
                                    meta,
                                    input_drvs,
                                    constituents,
                                    gc_root_error,
                                },
                            ),
                        },
                    },
                },
            },
        },
    }
}

/// Writes a derivation. It reads back as it was where its `meta` attribute holds no
/// floating-point number and nests no deeper than the parser goes.
pub fn set_derivation(d: &Derivation) -> (r: Result<DerivationRecord, WireError>)
    ensures
        match r {
            Ok(record) => {
                &&& derivation_too_long(*d) is None
                &&& holds_derivation(record, *d)
                &&& meta_plain(d@.meta) ==> derivation_read(record) == Ok::<
                    DerivationView,
                    WireFault,
                >(d@)
            },
            Err(e) => derivation_too_long(*d) matches Some(field) && e@ == WireFault::TooLong(
                field,
            ),
        },
{
    proof {
        lemma_text_back(d@.attr);
        lemma_text_back(d@.name);
        lemma_text_back(d@.system);
        lemma_text_back(d@.drv_path);
    }
    let attr = bytes_of(d.attr.as_str());
    let attr_path = set_text_list(&d.attr_path, "derivation attr path")?;
    let name = bytes_of(d.name.as_str());
    let system = bytes_of(d.system.as_str());
    let drv_path = bytes_of(d.drv_path.as_str());
    let outputs = set_outputs(&d.outputs)?;
    let meta_json = set_meta(&d.meta)?;
    let input_drvs = set_input_drvs(&d.input_drvs)?;
    let constituents = match &d.constituents {
        Some(values) => {
            let list = set_text_list(values, "constituents")?;
            TextListOptRecord::Present(list)
        },
        None => TextListOptRecord::Absent,
    };
    let gc_root_error = set_text_opt(&d.gc_root_error);
    let record = DerivationRecord {
        attr,
        attr_path,
        name,
        system,
        drv_path,
        outputs,
        meta_json,
        input_drvs,
        constituents,
        gc_root_error,
    };
    proof {
        assert(list_opt_read(record.constituents) == Ok::<Option<Seq<Seq<char>>>, WireFault>(
            d@.constituents,
        ));
        assert(derivation_texts_read(record) == Ok::<
            (Seq<char>, Seq<Seq<char>>, Seq<char>, Seq<char>, Seq<char>),
            WireFault,
        >((d@.attr, d@.attr_path, d@.name, d@.system, d@.drv_path)));
    }
    Ok(record)
}

/// Reads a derivation.
pub fn read_derivation(record: &DerivationRecord) -> (r: Result<Derivation, WireError>)
    ensures
        match r {
            Ok(d) => derivation_read(*record) == Ok::<DerivationView, WireFault>(d@),
            Err(e) => derivation_read(*record) == Err::<DerivationView, WireFault>(e@),
        },
{
    let outputs = read_outputs(&record.outputs)?;
    let input_drvs = read_input_drvs(&record.input_drvs)?;
    let attr = read_text(record.attr.as_slice())?;
    let attr_path = read_text_list(&record.attr_path)?;
    let name = read_text(record.name.as_slice())?;
    let system = read_text(record.system.as_slice())?;
    let drv_path = read_text(record.drv_path.as_slice())?;
    let meta = read_meta(&record.meta_json)?;
    let constituents = read_text_list_opt(&record.constituents)?;
    let gc_root_error = read_text_opt(&record.gc_root_error)?;
    Ok(
        Derivation {
            attr,
            attr_path,
            name,
            system,
            drv_path,
            outputs,
            meta,
            input_drvs,
            constituents,
            gc_root_error,
        },
    )
}

/// The record of a configuration holds its settings, each in its own place, and what is read of
/// a record are the settings that it holds; only a timeout of zero is read as ten minutes.
pub proof fn law_config_records_hold_their_settings(
    record: WorkerConfigRecord,
    config: WorkerConfigView,
)
    ensures
        holds_config(record, config) ==> {
            &&& record.force_recurse == config.force_recurse
            &&& record.max_memory_size == config.max_memory_size
            &&& record.item_timeout_seconds == config.item_timeout_seconds
            &&& record.meta == config.meta
            &&& record.show_input_drvs == config.show_input_drvs
            &&& record.auto_args@.len() == config.auto_args.len()
            &&& record.override_inputs@.len() == config.override_inputs.len()
            &&& record.nix_options@.len() == config.nix_options.len()
            &&& config.input matches InputView::Flake(s) ==> (record.input
                matches InputRecord::Flake(b) && b@ == text_bytes(s))
            &&& config.input matches InputView::Expr(s) ==> (record.input
                matches InputRecord::Expr(b) && b@ == text_bytes(s))
            &&& config.input matches InputView::File(s) ==> (record.input
                matches InputRecord::File(b) && b@ == text_bytes(s))
        },
        config_read(record) matches Ok(read) ==> {
            &&& read.force_recurse == record.force_recurse
            &&& read.max_memory_size == record.max_memory_size
            &&& record.item_timeout_seconds > 0 ==> read.item_timeout_seconds
                == record.item_timeout_seconds
            &&& record.item_timeout_seconds == 0 ==> read.item_timeout_seconds == 600
            &&& read.meta == record.meta
            &&& read.show_input_drvs == record.show_input_drvs
            &&& opt_read(record.gc_roots_dir) == Ok::<Option<Seq<char>>, WireFault>(
                read.gc_roots_dir,
            )
            &&& opt_read(record.locked_flake_json) == Ok::<Option<Seq<char>>, WireFault>(
                read.locked_flake_json,
            )
        },
{
}

/// An optional text is read as it stands in its record: absent, or the text that its bytes
/// spell. A text is written as its UTF-8 bytes, which spell it.
pub proof fn law_texts_are_their_utf8(s: Seq<char>, present: Vec<u8>, n: u16)
    requires
        present@ == vstd::utf8::encode_utf8(s),
    ensures
        text_bytes(s) == vstd::utf8::encode_utf8(s),
        text_read(present@) == Ok::<Seq<char>, WireFault>(s),
        opt_read(TextOptRecord::Present(present)) == Ok::<Option<Seq<char>>, WireFault>(Some(s)),
        opt_read(TextOptRecord::Absent) == Ok::<Option<Seq<char>>, WireFault>(None),
        opt_read(TextOptRecord::Unknown(n)) == Err::<Option<Seq<char>>, WireFault>(
            WireFault::Unknown(n),
        ),
{
    lemma_text_back(s);
}

/// What each fault of a message is reported as.
pub proof fn law_faults_are_reported(
    message: Seq<char>,
    cause: Seq<char>,
    n: u16,
    v: u32,
)
    ensures
        WireFault::NotUtf8(message).chain() == seq![message],
        WireFault::BadJson(message, cause).chain() == seq![message, cause],
        WireFault::Malformed.chain() == seq!["malformed worker message"@],
        WireFault::Unknown(n).chain() == seq![
            "Enum value or union discriminant "@ + decimal_of(n as nat)
                + " was not present in the schema."@,
        ],
        WireFault::TooLong(message).chain().len() == 2,
        WireFault::TooLong(message).chain()[0] == message
            + " length exceeds Cap'n Proto list limit"@,
        WireFault::MemoryTooLarge.chain()[0] == "maxMemorySize exceeds this platform's usize"@,
        WireFault::Version(v).chain() == seq![
            "unsupported worker protocol version "@ + decimal_of(v as nat) + "; expected "@
                + decimal_of(1),
        ],
{
}

/// What a fault of a message says is what stands in it.
pub proof fn law_wire_errors_say_what_they_hold(
    message: String,
    n: u16,
    v: u32,
    e: WireError,
)
    ensures
        (WireError::NotUtf8 { message })@ == WireFault::NotUtf8(message@),
        WireError::Unknown(n)@ == WireFault::Unknown(n),
        e matches WireError::TooLong { field } ==> e@ == WireFault::TooLong(field@),
        e matches WireError::BadJson { context, cause } ==> e@ == WireFault::BadJson(
            context@,
            cause@,
        ),
        WireError::MemoryTooLarge@ == WireFault::MemoryTooLarge,
        WireError::Version(v)@ == WireFault::Version(v),
        WireError::Malformed@ == WireFault::Malformed,
{
}

/// A timeout of zero, which stands for none, is read as the default of ten minutes; every other
/// is read as it is.
pub proof fn law_timeouts_are_read_with_their_default(seconds: u64)
    ensures
        timeout_read(0) == 600,
        seconds > 0 ==> timeout_read(seconds) == seconds,
{
}

/// A list is written only where its length fits into a message; the first that does not is
/// named.
pub proof fn law_long_lists_are_named(config: WorkerConfigView, d: Derivation)
    ensures
        ({
            let (a, o, n) = (
                config.auto_args.len() <= 4294967295,
                config.override_inputs.len() <= 4294967295,
                config.nix_options.len() <= 4294967295,
            );
            &&& a && o && n <==> config_too_long(config) is None
            &&& !a ==> config_too_long(config) == Some("auto args"@)
            &&& a && !o ==> config_too_long(config) == Some("override inputs"@)
            &&& a && o && !n ==> config_too_long(config) == Some("nix options"@)
        }),
        ({
            let (p, o, i) = (
                d.attr_path@.len() <= 4294967295,
                d.outputs.keys().len() <= 4294967295,
                d.input_drvs.keys().len() <= 4294967295,
            );
            let c = d.constituents matches Some(v) ==> v@.len() <= 4294967295;
            &&& p && o && i && c <==> derivation_too_long(d) is None
            &&& !p ==> derivation_too_long(d) == Some("derivation attr path"@)
            &&& p && !o ==> derivation_too_long(d) == Some("derivation outputs"@)
            &&& p && o && !i ==> derivation_too_long(d) == Some("input drvs"@)
            &&& p && o && i && !c ==> derivation_too_long(d) == Some("constituents"@)
        }),
{
}

/// What a reader does not know, or cannot read, is an error that says what it was.
pub proof fn law_unknown_records_are_refused(
    n: u16,
    b: Vec<u8>,
    cause: Seq<char>,
    record: WorkerConfigRecord,
)
    ensures
        opt_read(TextOptRecord::Unknown(n)) == Err::<Option<Seq<char>>, WireFault>(
            WireFault::Unknown(n),
        ),
        input_read(InputRecord::Unknown(n)) == Err::<InputView, WireFault>(WireFault::Unknown(n)),
        arg_value_read(AutoArgValueRecord::Unknown(n)) == Err::<AutoArgView, WireFault>(
            WireFault::Unknown(n),
        ),
        output_path_read(OutputPathRecord::Unknown(n)) == Err::<Option<Seq<char>>, WireFault>(
            WireFault::Unknown(n),
        ),
        list_opt_read(TextListOptRecord::Unknown(n)) == Err::<Option<Seq<Seq<char>>>, WireFault>(
            WireFault::Unknown(n),
        ),
        !valid_utf8(b@) ==> text_read(b@) == Err::<Seq<char>, WireFault>(
            WireFault::NotUtf8(capnp_fault(b@)),
        ),
        !valid_utf8(b@) ==> opt_read(TextOptRecord::Present(b)) is Err && input_read(
            InputRecord::Flake(b),
        ) is Err && input_read(InputRecord::Expr(b)) is Err && input_read(InputRecord::File(b))
            is Err,
        valid_utf8(b@) && json_parsed(decode_utf8(b@)) == Err::<Json, Seq<char>>(cause)
            ==> meta_read(TextOptRecord::Present(b)) == Err::<Option<Json>, WireFault>(
            WireFault::BadJson("parsing meta JSON value"@, cause),
        ),
        valid_utf8(b@) && texts_parsed(decode_utf8(b@)) == Err::<Seq<Seq<char>>, Seq<char>>(cause)
            ==> json_list_read(b@) == Err::<Seq<Seq<char>>, WireFault>(
            WireFault::BadJson("parsing inputDrv outputs"@, cause),
        ),
        config_read(record) is Ok ==> record.max_memory_size <= usize::MAX,
        record.max_memory_size > usize::MAX && input_read(record.input) is Ok && args_read(
            record.auto_args@,
        ) is Ok && opt_read(record.gc_roots_dir) is Ok ==> config_read(record) == Err::<
            WorkerConfigView,
            WireFault,
        >(WireFault::MemoryTooLarge),
{
}

/// Which protocol masters and workers speak, and how large a message either of them reads: eight
/// mebiwords from another machine, sixty-four from this one, nested sixty-four deep.
pub proof fn law_messages_are_bounded()
    ensures
        WORKER_PROTOCOL_VERSION == 1,
        REMOTE_TRAVERSAL_LIMIT_WORDS == 8 * 1024 * 1024,
        LOCAL_TRAVERSAL_LIMIT_WORDS == 64 * 1024 * 1024,
        NESTING_LIMIT == 64,
{
}

/// A number that does not fit is reported with what was to hold it.
pub proof fn law_numbers_out_of_range_are_reported(field: Seq<char>)
    ensures
        WireFault::TooLong(field).chain() == seq![
            field + " length exceeds Cap'n Proto list limit"@,
            "out of range integral type conversion attempted"@,
        ],
        WireFault::MemoryTooLarge.chain() == seq![
            "maxMemorySize exceeds this platform's usize"@,
            "out of range integral type conversion attempted"@,
        ],
{
}

} // verus!
