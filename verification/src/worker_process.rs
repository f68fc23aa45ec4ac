//! A worker subprocess: what it is started with, what is kept of its standard error, and what
//! its answers and its end mean.

use std::collections::VecDeque;

use vstd::prelude::*;
use vstd::utf8::{decode_utf8, valid_utf8};

use crate::config::WorkerConfig;
use crate::error::ErrorChain;
use crate::messages::{
    answer_event, answer_fault, answer_ready, answer_status, AnswerError, ClientMessage,
    ClientView, ServerMessage, ServerView, WorkerStatus,
};
use crate::model::{copy_args, copy_pairs, pairs_view, Event};
use crate::text::{
    chars_of, concat3, first_word, first_word_of, join, joined, quote_list, quoted_list, same,
    segments, split, text_opt, texts, trim, trimmed, Blank,
};
use crate::unix_path::{join_path, joined_path};

verus! {

/// The environment variable that tells a process to be a worker.
pub const WORKER_ENV: &'static str = "EVIX_WORKER";

/// The environment variable that lists a user's Nix configuration files.
pub const NIX_CONF_ENV: &'static str = "NIX_USER_CONF_FILES";

/// How many bytes are kept of the end of a worker's standard error.
pub const STDERR_TAIL_LIMIT: usize = 65536;

/// How many bytes are kept of a line of a worker's standard error.
pub const STDERR_LINE_LIMIT: usize = 16384;

/// What is wrong with a part of a Nix option.
pub open spec fn option_fault(label: Seq<char>, part: Seq<char>) -> Option<Seq<char>> {
    if part.contains('\n') || part.contains('\r') {
        Some("nix option "@ + label + " must not contain newlines"@)
    } else if first_word_of(part) == "include"@ || first_word_of(part) == "!include"@ {
        Some("nix option "@ + label + " must not start with include directives"@)
    } else {
        None
    }
}

/// Rejects a part of a Nix option that would be more than one line, or a directive, in a
/// configuration file.
pub fn validate_nix_option_part(label: &str, part: &str) -> (r: Result<(), ErrorChain>)
    ensures
        match r {
            Ok(()) => option_fault(label@, part@) is None,
            Err(e) => e@.len() == 1 && option_fault(label@, part@) == Some(e@[0]),
        },
{
    let chars = chars_of(part);
    let mut i: usize = 0;
    while i < chars.len()
        invariant
            i <= chars.len(),
            chars@ == part@,
            forall|j: int| 0 <= j < i ==> part@[j] != '\n' && part@[j] != '\r',
        decreases chars.len() - i,
    {
        if chars[i] == '\n' || chars[i] == '\r' {
            proof {
                assert(part@[i as int] == chars@[i as int]);
            }
            return Err(
                ErrorChain::from_message(concat3("nix option ", label, " must not contain newlines")),
            );
        }
        i += 1;
    }
    let word = first_word(part);
    if same(word.as_str(), "include") || same(word.as_str(), "!include") {
        return Err(
            ErrorChain::from_message(
                concat3("nix option ", label, " must not start with include directives"),
            ),
        );
    }
    Ok(())
}

/// What is wrong with the first faulty option of a list.
pub open spec fn options_fault(options: Seq<(Seq<char>, Seq<char>)>) -> Option<Seq<char>>
    decreases options.len(),
{
    if options.len() == 0 {
        None
    } else {
        match option_fault("key"@, options[0].0) {
            Some(message) => Some(message),
            None => match option_fault("value"@, options[0].1) {
                Some(message) => Some(message),
                None => options_fault(options.skip(1)),
            },
        }
    }
}

/// The configuration file of a list of options: a line for each.
pub open spec fn options_text(options: Seq<(Seq<char>, Seq<char>)>) -> Seq<char>
    decreases options.len(),
{
    if options.len() == 0 {
        Seq::empty()
    } else {
        options_text(options.drop_last()) + options.last().0 + " = "@ + options.last().1 + "\n"@
    }
}

/// The configuration file that a worker is given for its options; none where it has no
/// options.
pub fn prepare_nix_options_env(options: &Vec<(String, String)>) -> (r: Result<
    Option<String>,
    ErrorChain,
>)
    ensures
        match r {
            Ok(None) => options@.len() == 0,
            Ok(Some(contents)) => {
                &&& options@.len() > 0
                &&& options_fault(pairs_view(options@)) is None
                &&& contents@ == options_text(pairs_view(options@))
            },
            Err(e) => e@.len() == 1 && options_fault(pairs_view(options@)) == Some(e@[0]),
        },
{
    if options.len() == 0 {
        return Ok(None);
    }
    let ghost all = pairs_view(options@);
    let mut i: usize = 0;
    proof {
        assert(all.skip(0) =~= all);
    }
    while i < options.len()
        invariant
            i <= options.len(),
            all == pairs_view(options@),
            options_fault(all) == options_fault(all.skip(i as int)),
        decreases options.len() - i,
    {
        proof {
            assert(all.skip(i as int)[0] == (options@[i as int].0@, options@[i as int].1@));
            assert(all.skip(i as int).skip(1) =~= all.skip(i + 1));
        }
        validate_nix_option_part("key", options[i].0.as_str())?;
        validate_nix_option_part("value", options[i].1.as_str())?;
        i += 1;
    }
    let mut contents = String::new();
    let mut j: usize = 0;
    proof {
        assert(all.take(0).len() == 0);
        assert(contents@ =~= options_text(all.take(0)));
    }
    while j < options.len()
        invariant
            j <= options.len(),
            all == pairs_view(options@),
            contents@ == options_text(all.take(j as int)),
        decreases options.len() - j,
    {
        proof {
            let next = all.take(j + 1);
            assert(next.drop_last() =~= all.take(j as int));
            assert(next.last() == (options@[j as int].0@, options@[j as int].1@));
        }
        contents.append(options[j].0.as_str());
        contents.append(" = ");
        contents.append(options[j].1.as_str());
        contents.append("\n");
        j += 1;
    }
    proof {
        assert(all.take(j as int) =~= all);
    }
    Ok(Some(contents))
}

/// A Nix option that is accepted makes one line of its file, which begins no directive.
pub proof fn law_option_lines(key: Seq<char>, value: Seq<char>)
    requires
        options_fault(seq![(key, value)]) is None,
    ensures
        !key.contains('\n') && !value.contains('\n'),
        options_text(seq![(key, value)]) == key + " = "@ + value + "\n"@,
        first_word_of(key) != "include"@ && first_word_of(key) != "!include"@,
{
    let one = seq![(key, value)];
    assert(one.drop_last() =~= Seq::empty());
    assert(options_text(one.drop_last()) =~= Seq::empty());
    assert(options_text(one) =~= key + " = "@ + value + "\n"@);
}

/// The Nix configuration file of a user without a list of them.
pub open spec fn default_conf(xdg: Option<Seq<char>>, home: Option<Seq<char>>) -> Option<
    Seq<char>,
> {
    match xdg {
        Some(dir) => Some(joined_path(dir, "nix/nix.conf"@)),
        None => match home {
            Some(home) => Some(joined_path(joined_path(home, ".config"@), "nix/nix.conf"@)),
            None => None,
        },
    }
}

/// Where the Nix configuration file of a user would be: below their configuration directory,
/// or below the one in their home.
pub fn default_nix_user_conf_file(xdg: &Option<String>, home: &Option<String>) -> (r: Option<
    String,
>)
    ensures
        text_opt(r) == default_conf(text_opt(*xdg), text_opt(*home)),
{
    match xdg {
        Some(dir) => Some(join_path(dir.as_str(), "nix/nix.conf")),
        None => match home {
            Some(home) => Some(
                join_path(join_path(home.as_str(), ".config").as_str(), "nix/nix.conf"),
            ),
            None => None,
        },
    }
}

/// The configuration files of a worker: the generated one, and then those that the user had,
/// or the user's default one where it exists.
pub open spec fn conf_files(
    generated: Seq<char>,
    previous: Option<Seq<char>>,
    default: Option<Seq<char>>,
) -> Seq<Seq<char>> {
    match previous {
        Some(list) => if list.len() > 0 {
            seq![generated] + segments(list, ':')
        } else {
            conf_files_default(generated, default)
        },
        None => conf_files_default(generated, default),
    }
}

/// The configuration files of a worker whose user listed none.
pub open spec fn conf_files_default(generated: Seq<char>, default: Option<Seq<char>>) -> Seq<
    Seq<char>,
> {
    match default {
        Some(path) => seq![generated, path],
        None => seq![generated],
    }
}

/// Whether a path could not stand in a list of paths.
pub open spec fn any_colon(paths: Seq<Seq<char>>) -> bool {
    exists|i: int| 0 <= i < paths.len() && (#[trigger] paths[i]).contains(':')
}

fn has_colon(s: &str) -> (r: bool)
    ensures
        r == s@.contains(':'),
{
    let chars = chars_of(s);
    let mut i: usize = 0;
    while i < chars.len()
        invariant
            i <= chars.len(),
            chars@ == s@,
            forall|j: int| 0 <= j < i ==> s@[j] != ':',
        decreases chars.len() - i,
    {
        if chars[i] == ':' {
            proof {
                assert(s@[i as int] == ':');
            }
            return true;
        }
        i += 1;
    }
    false
}

/// The list of a worker's Nix configuration files. A path with a colon cannot be listed.
pub fn nix_user_conf_files(
    generated: &str,
    previous: &Option<String>,
    default: &Option<String>,
) -> (r: Result<String, ErrorChain>)
    ensures
        match r {
            Ok(list) => {
                let paths = conf_files(generated@, text_opt(*previous), text_opt(*default));
                !any_colon(paths) && list@ == joined(paths, ":"@)
            },
            Err(e) => {
                &&& any_colon(conf_files(generated@, text_opt(*previous), text_opt(*default)))
                &&& e@ == seq![
                    "joining NIX_USER_CONF_FILES"@,
                    "path segment contains separator `:`"@,
                ]
            },
        },
{
    let ghost wanted = conf_files(generated@, text_opt(*previous), text_opt(*default));
    let mut paths: Vec<String> = Vec::new();
    paths.push(generated.to_owned());
    let listed: bool = match previous {
        Some(list) => !list.as_str().is_empty(),
        None => false,
    };
    if listed {
        if let Some(list) = previous {
            let parts = split(list.as_str(), ':');
            let ghost all = texts(parts@);
            let mut i: usize = 0;
            proof {
                assert(texts(paths@) =~= seq![generated@] + all.take(0));
            }
            while i < parts.len()
                invariant
                    i <= parts.len(),
                    all == texts(parts@),
                    texts(paths@) == seq![generated@] + all.take(i as int),
                decreases parts.len() - i,
            {
                let ghost before = texts(paths@);
                paths.push(parts[i].clone());
                proof {
                    assert(texts(paths@) =~= before.push(all[i as int]));
                    assert(all.take(i + 1) =~= all.take(i as int).push(all[i as int]));
                    assert(seq![generated@] + all.take(i + 1) =~= (seq![generated@] + all.take(
                        i as int,
                    )).push(all[i as int]));
                }
                i += 1;
            }
            proof {
                assert(all.take(i as int) =~= all);
            }
        }
    } else if let Some(path) = default {
        paths.push(path.clone());
    }
    proof {
        assert(texts(paths@) =~= wanted);
    }
    let mut j: usize = 0;
    while j < paths.len()
        invariant
            j <= paths.len(),
            texts(paths@) == wanted,
            wanted == conf_files(generated@, text_opt(*previous), text_opt(*default)),
            forall|k: int| 0 <= k < j ==> !(#[trigger] wanted[k]).contains(':'),
        decreases paths.len() - j,
    {
        proof {
            assert(wanted[j as int] == paths@[j as int]@);
        }
        if has_colon(paths[j].as_str()) {
            return Err(
                ErrorChain::new("path segment contains separator `:`").context(
                    "joining NIX_USER_CONF_FILES",
                ),
            );
        }
        j += 1;
    }
    Ok(join(paths.as_slice(), ":"))
}

/// How a worker subprocess is started.
pub struct SpawnPlan {
    /// The executable; the running one where there is none.
    pub exe: Option<String>,
    /// What is added to its environment.
    pub env: Vec<(String, String)>,
    /// The first message that it gets.
    pub setup: ClientMessage,
}

/// A copy of a worker's configuration.
pub fn copy_worker_config(config: &WorkerConfig) -> (r: WorkerConfig)
    ensures
        r@ == config@,
{
    WorkerConfig {
        input: config.input.clone(),
        auto_args: copy_args(&config.auto_args),
        force_recurse: config.force_recurse,
        gc_roots_dir: config.gc_roots_dir.clone(),
        max_memory_size: config.max_memory_size,
        item_timeout_seconds: config.item_timeout_seconds,
        meta: config.meta,
        show_input_drvs: config.show_input_drvs,
        override_inputs: copy_pairs(&config.override_inputs),
        nix_options: copy_pairs(&config.nix_options),
        locked_flake_json: config.locked_flake_json.clone(),
    }
}

/// How a local worker is started: from its dedicated executable or the running one, marked as
/// a worker, with its Nix configuration files if it has options, and set up without a token.
pub fn spawn_local(
    config: &WorkerConfig,
    worker_exe: &Option<String>,
    conf_files: &Option<String>,
) -> (r: SpawnPlan)
    ensures
        text_opt(r.exe) == text_opt(*worker_exe),
        pairs_view(r.env@) == match *conf_files {
            Some(list) => seq![(WORKER_ENV@, "1"@), (NIX_CONF_ENV@, list@)],
            None => seq![(WORKER_ENV@, "1"@)],
        },
        r.setup@ == ClientView::Setup(config@, None, None),
{
    let mut env: Vec<(String, String)> = Vec::new();
    env.push((WORKER_ENV.to_owned(), "1".to_owned()));
    if let Some(list) = conf_files {
        env.push((NIX_CONF_ENV.to_owned(), list.clone()));
    }
    proof {
        match conf_files {
            Some(list) => {
                assert(pairs_view(env@) =~= seq![(WORKER_ENV@, "1"@), (NIX_CONF_ENV@, list@)]);
            },
            None => {
                assert(pairs_view(env@) =~= seq![(WORKER_ENV@, "1"@)]);
            },
        }
    }
    SpawnPlan {
        exe: worker_exe.clone(),
        env,
        setup: ClientMessage::Setup {
            config: copy_worker_config(config),
            token: None,
            expected_store_dir: None,
        },
    }
}

/// The last bytes of a stream, at most `limit` of them.
pub open spec fn last_bytes(bytes: Seq<u8>, limit: int) -> Seq<u8> {
    if bytes.len() > limit {
        bytes.skip(bytes.len() - limit)
    } else {
        bytes
    }
}

/// Adds bytes to a tail, which keeps the last of them.
pub fn push_tail(tail: &mut VecDeque<u8>, bytes: &[u8])
    requires
        old(tail)@.len() <= STDERR_TAIL_LIMIT,
    ensures
        final(tail)@ == last_bytes(old(tail)@ + bytes@, STDERR_TAIL_LIMIT as int),
{
    let ghost before = tail@;
    let mut i: usize = 0;
    proof {
        assert(before + bytes@.take(0) =~= before);
    }
    while i < bytes.len()
        invariant
            i <= bytes@.len(),
            tail@ == last_bytes(before + bytes@.take(i as int), STDERR_TAIL_LIMIT as int),
        decreases bytes@.len() - i,
    {
        let ghost so_far = before + bytes@.take(i as int);
        let ghost kept = tail@;
        if tail.len() == STDERR_TAIL_LIMIT {
            let _ = tail.pop_front();
        }
        tail.push_back(bytes[i]);
        proof {
            let next = before + bytes@.take(i + 1);
            assert(next =~= so_far.push(bytes@[i as int]));
            assert(tail@ =~= last_bytes(next, STDERR_TAIL_LIMIT as int));
        }
        i += 1;
    }
    proof {
        assert(bytes@.take(i as int) =~= bytes@);
    }
}

/// A line of a worker's standard error.
pub struct StderrLine {
    /// Its bytes, without its end.
    pub bytes: Vec<u8>,
    /// Whether more of it was dropped.
    pub truncated: bool,
}

/// What has been seen of a worker's standard error.
#[derive(Debug)]
pub struct StderrCapture {
    tail: VecDeque<u8>,
    line: Vec<u8>,
    truncated: bool,
}

/// What a [`StderrCapture`] holds.
#[verifier::ext_equal]
pub struct StderrView {
    /// The last bytes.
    pub tail: Seq<u8>,
    /// The bytes of the line that has not ended.
    pub line: Seq<u8>,
    /// Whether more of that line was dropped.
    pub truncated: bool,
}

impl View for StderrCapture {
    type V = StderrView;

    closed spec fn view(&self) -> StderrView {
        StderrView { tail: self.tail@, line: self.line@, truncated: self.truncated }
    }
}

/// The lines of a list.
pub open spec fn lines_view(lines: Seq<StderrLine>) -> Seq<(Seq<u8>, bool)> {
    lines.map_values(|l: StderrLine| (l.bytes@, l.truncated))
}

impl StderrView {
    /// Nothing seen.
    pub open spec fn start() -> StderrView {
        StderrView { tail: Seq::empty(), line: Seq::empty(), truncated: false }
    }

    /// What is held once a byte was seen.
    pub open spec fn after(self, byte: u8) -> StderrView {
        StderrView {
            tail: last_bytes(self.tail.push(byte), STDERR_TAIL_LIMIT as int),
            line: if byte == 10 {
                Seq::empty()
            } else if self.line.len() < STDERR_LINE_LIMIT {
                self.line.push(byte)
            } else {
                self.line
            },
            truncated: if byte == 10 {
                false
            } else {
                self.truncated || self.line.len() >= STDERR_LINE_LIMIT
            },
        }
    }

    /// What is held once bytes were seen.
    pub open spec fn after_all(self, bytes: Seq<u8>) -> StderrView
        decreases bytes.len(),
    {
        if bytes.len() == 0 {
            self
        } else {
            self.after_all(bytes.drop_last()).after(bytes.last())
        }
    }

    /// The lines that end within the bytes.
    pub open spec fn lines(self, bytes: Seq<u8>) -> Seq<(Seq<u8>, bool)>
        decreases bytes.len(),
    {
        if bytes.len() == 0 {
            Seq::empty()
        } else {
            let before = self.after_all(bytes.drop_last());
            let rest = self.lines(bytes.drop_last());
            if bytes.last() == 10 {
                rest.push((before.line, before.truncated))
            } else {
                rest
            }
        }
    }
}

impl StderrCapture {
    #[verifier::type_invariant]
    spec fn bounded(self) -> bool {
        &&& self.tail@.len() <= STDERR_TAIL_LIMIT
        &&& self.line@.len() <= STDERR_LINE_LIMIT
    }

    /// Nothing seen.
    pub fn new() -> (r: Self)
        ensures
            r@ == StderrView::start(),
    {
        StderrCapture { tail: VecDeque::new(), line: Vec::new(), truncated: false }
    }

    /// Takes in bytes of a worker's standard error, and hands out the lines that they end.
    pub fn feed(&mut self, bytes: &[u8]) -> (r: Vec<StderrLine>)
        ensures
            final(self)@ == old(self)@.after_all(bytes@),
            lines_view(r@) == old(self)@.lines(bytes@),
    {
        proof {
            use_type_invariant(&*self);
        }
        let ghost start = self@;
        let mut tail: VecDeque<u8> = VecDeque::new();
        let mut line: Vec<u8> = Vec::new();
        let mut truncated: bool = self.truncated;
        std::mem::swap(&mut tail, &mut self.tail);
        std::mem::swap(&mut line, &mut self.line);
        push_tail(&mut tail, bytes);
        let mut out: Vec<StderrLine> = Vec::new();
        let mut i: usize = 0;
        proof {
            assert(bytes@.take(0).len() == 0);
            assert(lines_view(out@) =~= Seq::empty());
        }
        while i < bytes.len()
            invariant
                i <= bytes@.len(),
                line@ == start.after_all(bytes@.take(i as int)).line,
                truncated == start.after_all(bytes@.take(i as int)).truncated,
                lines_view(out@) == start.lines(bytes@.take(i as int)),
                line@.len() <= STDERR_LINE_LIMIT,
            decreases bytes@.len() - i,
        {
            let byte: u8 = bytes[i];
            let ghost before = lines_view(out@);
            let ghost ended = line@;
            proof {
                let next = bytes@.take(i + 1);
                assert(next.drop_last() =~= bytes@.take(i as int));
                assert(next.last() == byte);
            }
            if byte == 10 {
                let mut done: Vec<u8> = Vec::new();
                std::mem::swap(&mut done, &mut line);
                out.push(StderrLine { bytes: done, truncated });
                proof {
                    assert(lines_view(out@) =~= before.push((ended, truncated)));
                    assert(line@ =~= Seq::empty());
                }
                truncated = false;
            } else if line.len() < STDERR_LINE_LIMIT {
                line.push(byte);
            } else {
                truncated = true;
            }
            i += 1;
        }
        proof {
            assert(bytes@.take(i as int) =~= bytes@);
            lemma_tail(start, bytes@);
        }
        self.truncated = truncated;
        self.line = line;
        self.tail = tail;
        out
    }

    /// The line that has not ended when the stream ends; none where nothing of it was seen.
    pub fn finish(&self) -> (r: Option<StderrLine>)
        ensures
            match r {
                Some(l) => {
                    &&& self@.line.len() > 0 || self@.truncated
                    &&& l.bytes@ == self@.line
                    &&& l.truncated == self@.truncated
                },
                None => self@.line.len() == 0 && !self@.truncated,
            },
    {
        if self.line.len() > 0 || self.truncated {
            Some(StderrLine { bytes: copy_bytes(&self.line), truncated: self.truncated })
        } else {
            None
        }
    }

    /// The text of the last bytes.
    pub fn tail_text(&self) -> (r: String)
        ensures
            r@ == lossy_text(self@.tail),
            valid_utf8(self@.tail) ==> r@ == decode_utf8(self@.tail),
    {
        let mut bytes: Vec<u8> = Vec::new();
        let n: usize = self.tail.len();
        let mut i: usize = 0;
        while i < n
            invariant
                i <= n,
                n == self.tail@.len(),
                bytes@ == self.tail@.take(i as int),
            decreases n - i,
        {
            bytes.push(self.tail[i]);
            i += 1;
        }
        proof {
            assert(self.tail@.take(n as int) =~= self.tail@);
        }
        lossy(bytes.as_slice())
    }
}

fn copy_bytes(v: &Vec<u8>) -> (r: Vec<u8>)
    ensures
        r@ == v@,
{
    let mut out: Vec<u8> = Vec::new();
    let mut i: usize = 0;
    while i < v.len()
        invariant
            i <= v.len(),
            out@ == v@.take(i as int),
        decreases v.len() - i,
    {
        out.push(v[i]);
        i += 1;
    }
    out
}

/// The text that bytes spell, with a mark in place of what is not UTF-8.
pub uninterp spec fn lossy_text(bytes: Seq<u8>) -> Seq<char>;

/// `String::from_utf8_lossy`: the text of bytes that are UTF-8, and of any others a text with
/// replacement characters. Where those stand is left open.
#[verifier::external_body]
pub(crate) fn lossy(bytes: &[u8]) -> (r: String)
    ensures
        r@ == lossy_text(bytes@),
        valid_utf8(bytes@) ==> r@ == decode_utf8(bytes@),
{
    String::from_utf8_lossy(bytes).into_owned()
}

proof fn lemma_tail(s: StderrView, bytes: Seq<u8>)
    requires
        s.tail.len() <= STDERR_TAIL_LIMIT,
    ensures
        s.after_all(bytes).tail == last_bytes(s.tail + bytes, STDERR_TAIL_LIMIT as int),
    decreases bytes.len(),
{
    if bytes.len() == 0 {
        assert(s.tail + bytes =~= s.tail);
    } else {
        let init = bytes.drop_last();
        lemma_tail(s, init);
        let so_far = s.tail + init;
        let next = s.tail + bytes;
        assert(next =~= so_far.push(bytes.last()));
        let limit = STDERR_TAIL_LIMIT as int;
        assert(last_bytes(last_bytes(so_far, limit).push(bytes.last()), limit) =~= last_bytes(
            next,
            limit,
        ));
    }
}

/// What is kept of a worker's standard error are its last bytes.
pub proof fn law_tail_is_the_end(bytes: Seq<u8>)
    ensures
        StderrView::start().after_all(bytes).tail == last_bytes(bytes, STDERR_TAIL_LIMIT as int),
        StderrView::start().after_all(bytes).tail.len() <= STDERR_TAIL_LIMIT,
{
    lemma_tail(StderrView::start(), bytes);
    assert(Seq::<u8>::empty() + bytes =~= bytes);
}

/// How a worker's standard error is cut into chunks plays no role.
pub proof fn law_capture_is_independent_of_chunks(s: StderrView, a: Seq<u8>, b: Seq<u8>)
    ensures
        s.after_all(a + b) == s.after_all(a).after_all(b),
        s.lines(a + b) == s.lines(a) + s.after_all(a).lines(b),
    decreases b.len(),
{
    if b.len() == 0 {
        assert(a + b =~= a);
        assert(s.lines(a) + s.after_all(a).lines(b) =~= s.lines(a));
    } else {
        law_capture_is_independent_of_chunks(s, a, b.drop_last());
        assert((a + b).drop_last() =~= a + b.drop_last());
        assert((a + b).last() == b.last());
        assert(s.lines(a + b) =~= s.lines(a) + s.after_all(a).lines(b));
    }
}

/// The hint that is added to a failed handshake.
pub open spec fn startup_hint() -> Seq<char> {
    "\nhint: if this binary embeds evix::Session, call evix::run_worker_if_requested() at process startup so EVIX_WORKER subprocesses enter the worker protocol"@
}

/// A message with the hint, where a handshake failed.
pub open spec fn hinted(message: Seq<char>, phase: Seq<char>) -> Seq<char> {
    if phase == "handshake"@ {
        message + startup_hint()
    } else {
        message
    }
}

/// Adds a hint to the message of a failed handshake.
pub fn append_startup_hint(message: &mut String, phase: &str)
    ensures
        final(message)@ == hinted(old(message)@, phase@),
{
    if !same(phase, "handshake") {
        return;
    }
    message.append(
        "\nhint: if this binary embeds evix::Session, call evix::run_worker_if_requested() at process startup so EVIX_WORKER subprocesses enter the worker protocol",
    );
}

/// The message of a worker that ended before it answered.
pub open spec fn exit_text(
    label: Seq<char>,
    phase: Seq<char>,
    attr: Seq<char>,
    source: Seq<char>,
    status: Option<Seq<char>>,
    stderr: Seq<char>,
) -> Seq<char> {
    let base = "evix worker "@ + label + " failed while reading "@ + phase + " for "@ + attr + ": "@
        + source;
    let with_status = match status {
        Some(status) => base + " (status: "@ + status + ")"@,
        None => base,
    };
    let shown = trimmed(stderr, Blank::White);
    let with_stderr = if shown.len() > 0 {
        with_status + "\nworker stderr:\n"@ + shown
    } else {
        with_status
    };
    hinted(with_stderr, phase)
}

/// The error of a worker that ended before it answered: what was waited for, how it ended, and
/// what it last wrote to its standard error.
pub fn exit_error(
    label: &str,
    phase: &str,
    attr: &str,
    source: &ErrorChain,
    status: &Option<String>,
    stderr: &str,
) -> (r: ErrorChain)
    ensures
        r@ == seq![exit_text(label@, phase@, attr@, source@[0], text_opt(*status), stderr@)],
{
    let mut message = concat3("evix worker ", label, " failed while reading ");
    message.append(phase);
    message.append(" for ");
    message.append(attr);
    message.append(": ");
    message.append(source.message().as_str());
    if let Some(status) = status {
        message.append(" (status: ");
        message.append(status.as_str());
        message.append(")");
    }
    let shown = trim(stderr, Blank::White);
    if !shown.is_empty() {
        message.append("\nworker stderr:\n");
        message.append(shown);
    }
    append_startup_hint(&mut message, phase);
    ErrorChain::from_message(message)
}

/// What a local worker's report of a failure is prefixed with.
pub open spec fn failed_prefix(label: Seq<char>) -> Seq<char> {
    "worker "@ + label + " failed: "@
}

/// Takes a local worker's answer to its setup.
pub fn read_ready(label: &str, message: ServerMessage) -> (r: Result<(), AnswerError>)
    ensures
        match r {
            Ok(()) => message@ is Ready,
            Err(e) => !(message@ is Ready) && e@ == answer_fault(
                message@,
                failed_prefix(label@),
                "unexpected worker handshake: "@,
            ),
        },
{
    let failed = concat3("worker ", label, " failed: ");
    answer_ready(message, failed.as_str(), "unexpected worker handshake: ")
}

/// Takes a local worker's first answer to an item.
pub fn read_event(label: &str, path: &[String], message: ServerMessage) -> (r: Result<
    Event,
    AnswerError,
>)
    ensures
        match r {
            Ok(event) => message@ == ServerView::Event(event@),
            Err(e) => !(message@ is Event) && e@ == answer_fault(
                message@,
                failed_prefix(label@),
                "unexpected worker event for "@ + quoted_list(texts(path@)) + ": "@,
            ),
        },
{
    let failed = concat3("worker ", label, " failed: ");
    let unexpected = concat3("unexpected worker event for ", quote_list(path).as_str(), ": ");
    answer_event(message, failed.as_str(), unexpected.as_str())
}

/// Takes a local worker's second answer to an item.
pub fn read_status(label: &str, attr: &str, message: ServerMessage) -> (r: Result<
    WorkerStatus,
    AnswerError,
>)
    ensures
        match r {
            Ok(status) => message@ == ServerView::Status(status),
            Err(e) => !(message@ is Status) && e@ == answer_fault(
                message@,
                failed_prefix(label@),
                "unexpected worker status for "@ + attr@ + ": "@,
            ),
        },
{
    let failed = concat3("worker ", label, " failed: ");
    let unexpected = concat3("unexpected worker status for ", attr, ": ");
    answer_status(message, failed.as_str(), unexpected.as_str())
}

/// A part of a Nix option is accepted exactly where it is one line and does not begin with a
/// directive to read another file; the refusal names the part.
pub proof fn law_option_parts_are_single_settings(label: Seq<char>, part: Seq<char>)
    ensures
        option_fault(label, part) is None <==> !part.contains('\n') && !part.contains('\r')
            && first_word_of(part) != "include"@ && first_word_of(part) != "!include"@,
        part.contains('\n') || part.contains('\r') ==> option_fault(label, part) == Some(
            "nix option "@ + label + " must not contain newlines"@,
        ),
        !part.contains('\n') && !part.contains('\r') && (first_word_of(part) == "include"@
            || first_word_of(part) == "!include"@) ==> option_fault(label, part) == Some(
            "nix option "@ + label + " must not start with include directives"@,
        ),
{
}

/// A list of options is accepted exactly where the name and the value of each of them is.
pub proof fn law_every_option_is_looked_at(options: Seq<(Seq<char>, Seq<char>)>)
    ensures
        options_fault(options) is None <==> forall|i: int|
            0 <= i < options.len() ==> option_fault("key"@, (#[trigger] options[i]).0) is None
                && option_fault("value"@, options[i].1) is None,
    decreases options.len(),
{
    if options.len() > 0 {
        let rest = options.skip(1);
        law_every_option_is_looked_at(rest);
        if forall|i: int|
            0 <= i < options.len() ==> option_fault("key"@, (#[trigger] options[i]).0) is None
                && option_fault("value"@, options[i].1) is None {
            assert forall|i: int| 0 <= i < rest.len() implies option_fault(
                "key"@,
                (#[trigger] rest[i]).0,
            ) is None && option_fault("value"@, rest[i].1) is None by {
                assert(rest[i] == options[i + 1]);
            }
            assert(option_fault("key"@, options[0].0) is None);
        }
        if options_fault(options) is None {
            assert forall|i: int| 0 <= i < options.len() implies option_fault(
                "key"@,
                (#[trigger] options[i]).0,
            ) is None && option_fault("value"@, options[i].1) is None by {
                if i > 0 {
                    assert(options[i] == rest[i - 1]);
                }
            }
        }
    }
}

/// The configuration file of a worker has a line for each option, in order: its name and its
/// value with an equals sign between them.
pub proof fn law_every_option_is_a_line(
    options: Seq<(Seq<char>, Seq<char>)>,
    key: Seq<char>,
    value: Seq<char>,
)
    ensures
        options_text(Seq::empty()).len() == 0,
        options_text(options.push((key, value))) == options_text(options) + key + " = "@ + value
            + "\n"@,
{
    assert(options.push((key, value)).drop_last() =~= options);
}

/// The default configuration file of a user stands below their configuration directory where
/// they name one, else below the one in their home; without either there is none.
pub proof fn law_default_configuration_files(dir: Seq<char>, home: Option<Seq<char>>)
    requires
        dir.len() > 0,
        dir.last() != '/',
    ensures
        default_conf(Some(dir), home) == Some(dir + seq!['/'] + "nix/nix.conf"@),
        default_conf(None, Some(dir)) == Some(
            dir + seq!['/'] + ".config"@ + seq!['/'] + "nix/nix.conf"@,
        ),
        default_conf(None, None) is None,
{
    reveal_strlit("nix/nix.conf");
    reveal_strlit(".config");
    crate::unix_path::law_paths_join_with_one_slash(dir, "nix/nix.conf"@);
    crate::unix_path::law_paths_join_with_one_slash(dir, ".config"@);
    let below = dir + seq!['/'] + ".config"@;
    assert(below.last() == 'g');
    crate::unix_path::law_paths_join_with_one_slash(below, "nix/nix.conf"@);
}

/// A worker reads its own configuration file first, and then those that its user listed, or
/// where they listed none the default one, if there is one.
pub proof fn law_configuration_files_of_the_user_are_kept(
    generated: Seq<char>,
    first: Seq<char>,
    rest: Seq<char>,
    default: Seq<char>,
)
    requires
        !first.contains(':'),
    ensures
        conf_files(generated, None, None) == seq![generated],
        conf_files(generated, None, Some(default)) == seq![generated, default],
        conf_files(generated, Some(Seq::empty()), Some(default)) == seq![generated, default],
        conf_files(generated, Some(Seq::empty()), None) == seq![generated],
        first.len() > 0 ==> conf_files(generated, Some(first), Some(default)) == seq![
            generated,
            first,
        ],
        conf_files(generated, Some(first + seq![':'] + rest), Some(default)) == seq![
            generated,
            first,
        ] + segments(rest, ':'),
{
    crate::text::law_splitting_goes_on_behind_a_separator(first, rest, ':');
    assert(seq![generated] + seq![first] =~= seq![generated, first]);
    assert(seq![generated] + (seq![first] + segments(rest, ':')) =~= seq![generated, first]
        + segments(rest, ':'));
}

/// The last bytes of a stream are its end: all of it while it is short, else as many as are kept.
pub proof fn law_last_bytes_are_the_end(bytes: Seq<u8>, limit: int)
    requires
        limit >= 0,
    ensures
        bytes.len() <= limit ==> last_bytes(bytes, limit) == bytes,
        bytes.len() > limit ==> last_bytes(bytes, limit).len() == limit && bytes == bytes.take(
            bytes.len() - limit,
        ) + last_bytes(bytes, limit),
{
    if bytes.len() > limit {
        assert(bytes =~= bytes.take(bytes.len() - limit) + last_bytes(bytes, limit));
    }
}

proof fn lemma_line_grows(s: StderrView, line: Seq<u8>)
    requires
        s.line.len() == 0 && !s.truncated,
        forall|i: int| 0 <= i < line.len() ==> #[trigger] line[i] != 10,
    ensures
        s.lines(line).len() == 0,
        s.after_all(line).line == if line.len() <= STDERR_LINE_LIMIT {
            line
        } else {
            line.take(STDERR_LINE_LIMIT as int)
        },
        s.after_all(line).truncated == (line.len() > STDERR_LINE_LIMIT),
    decreases line.len(),
{
    if line.len() == 0 {
        assert(s.line =~= line);
    } else {
        let init = line.drop_last();
        assert forall|i: int| 0 <= i < init.len() implies #[trigger] init[i] != 10 by {
            assert(line[i] != 10);
        }
        lemma_line_grows(s, init);
        assert(line[line.len() - 1] != 10);
        if line.len() <= STDERR_LINE_LIMIT {
            assert(init.push(line.last()) =~= line);
        } else {
            assert(init.take(STDERR_LINE_LIMIT as int) =~= line.take(STDERR_LINE_LIMIT as int));
            if init.len() == STDERR_LINE_LIMIT {
                assert(init =~= line.take(STDERR_LINE_LIMIT as int));
            }
        }
    }
}

/// Every line that a worker writes to its standard error is handed out when it ends, without its
/// end: whole where it is within the limit, else its beginning with a mark that it was cut. What
/// follows starts a line of its own.
pub proof fn law_lines_are_handed_out_when_they_end(s: StderrView, line: Seq<u8>)
    requires
        s.line.len() == 0 && !s.truncated,
        forall|i: int| 0 <= i < line.len() ==> #[trigger] line[i] != 10,
    ensures
        line.len() <= 16384 ==> s.lines(line.push(10)) == seq![(line, false)],
        line.len() > 16384 ==> s.lines(line.push(10)) == seq![(line.take(16384), true)],
        s.lines(line).len() == 0,
        s.after_all(line.push(10)).line.len() == 0,
        !s.after_all(line.push(10)).truncated,
{
    lemma_line_grows(s, line);
    assert(line.push(10).drop_last() =~= line);
    assert(s.lines(line) =~= Seq::empty());
    let before = s.after_all(line);
    assert(s.lines(line.push(10)) =~= seq![(before.line, before.truncated)]);
}

/// The message of a worker that ended before it answered says which worker it was, what was
/// waited for, for which attribute and why it failed, then how it ended and what it last wrote,
/// as far as these are known; a failed handshake has a hint at the end, and nothing else has.
pub proof fn law_exits_are_explained(
    label: Seq<char>,
    phase: Seq<char>,
    attr: Seq<char>,
    source: Seq<char>,
    status: Seq<char>,
    stderr: Seq<char>,
)
    ensures
        ({
            let base = "evix worker "@ + label + " failed while reading "@ + phase + " for "@ + attr
                + ": "@ + source;
            let shown = trimmed(stderr, Blank::White);
            let ended = base + " (status: "@ + status + ")"@;
            &&& phase != "handshake"@ && shown.len() == 0 ==> {
                &&& exit_text(label, phase, attr, source, None, stderr) == base
                &&& exit_text(label, phase, attr, source, Some(status), stderr) == ended
            }
            &&& phase != "handshake"@ && shown.len() > 0 ==> {
                &&& exit_text(label, phase, attr, source, None, stderr) == base
                    + "\nworker stderr:\n"@ + shown
                &&& exit_text(label, phase, attr, source, Some(status), stderr) == ended
                    + "\nworker stderr:\n"@ + shown
            }
        }),
        phase == "handshake"@ ==> crate::text::has_prefix(startup_hint(), "\nhint: "@)
            && hinted(source, phase) == source + startup_hint(),
        phase != "handshake"@ ==> hinted(source, phase) == source,
{
    reveal_strlit("\nhint: ");
    reveal_strlit(
        "\nhint: if this binary embeds evix::Session, call evix::run_worker_if_requested() at process startup so EVIX_WORKER subprocesses enter the worker protocol",
    );
    assert(startup_hint().take(7) =~= "\nhint: "@);
}

/// What a local worker reports is said with the name of the worker.
pub proof fn law_reports_name_the_worker(label: Seq<char>)
    ensures
        failed_prefix(label) == "worker "@ + label + " failed: "@,
{
}

/// Of a worker's standard error the last 64 kibibytes are kept, and of a line the first 16.
pub proof fn law_what_is_kept_of_standard_error(bytes: Seq<u8>)
    ensures
        bytes.len() <= 65536 ==> StderrView::start().after_all(bytes).tail == bytes,
        bytes.len() > 65536 ==> StderrView::start().after_all(bytes).tail == bytes.skip(
            bytes.len() - 65536,
        ),
        WORKER_ENV@ == "EVIX_WORKER"@,
        NIX_CONF_ENV@ == "NIX_USER_CONF_FILES"@,
{
    law_tail_is_the_end(bytes);
}

/// The first option that is not a single setting is reported: by its key, where that is wrong,
/// else by its value.
pub proof fn law_first_wrong_option_is_reported(options: Seq<(Seq<char>, Seq<char>)>, i: int)
    requires
        0 <= i < options.len(),
        forall|j: int|
            0 <= j < i ==> option_fault("key"@, (#[trigger] options[j]).0) is None && option_fault(
                "value"@,
                options[j].1,
            ) is None,
    ensures
        option_fault("key"@, options[i].0) is Some ==> options_fault(options) == option_fault(
            "key"@,
            options[i].0,
        ),
        option_fault("key"@, options[i].0) is None && option_fault("value"@, options[i].1) is Some
            ==> options_fault(options) == option_fault("value"@, options[i].1),
    decreases options.len(),
{
    if i > 0 {
        let rest = options.skip(1);
        assert forall|j: int| 0 <= j < i - 1 implies option_fault("key"@, (#[trigger] rest[j]).0)
            is None && option_fault("value"@, rest[j].1) is None by {
            assert(rest[j] == options[j + 1]);
        }
        assert(option_fault("key"@, options[0].0) is None);
        law_first_wrong_option_is_reported(rest, i - 1);
        assert(rest[i - 1] == options[i]);
    }
}

/// A local worker's answer is taken only where it is the one that is due; an error of the worker
/// is reported with its name.
pub proof fn law_local_answers_are_taken_in_turn(
    label: &str,
    attr: &str,
    message: ServerMessage,
    ready: Result<(), AnswerError>,
    status: Result<WorkerStatus, AnswerError>,
)
    requires
        call_ensures(read_ready, (label, message), ready),
        call_ensures(read_status, (label, attr, message), status),
    ensures
        ready is Ok <==> message@ is Ready,
        status is Ok <==> message@ is Status,
        status matches Ok(s) ==> message@ == ServerView::Status(s),
        message@ matches ServerView::Error(text) ==> (ready matches Err(e) && e@
            == crate::messages::AnswerFault::Failed("worker "@ + label@ + " failed: "@ + text)) && (
        status matches Err(e) && e@ == crate::messages::AnswerFault::Failed(
            "worker "@ + label@ + " failed: "@ + text,
        )),
{
}

/// A local worker is started from the executable that was given, marked as a worker, and with the
/// configuration files that were made for it.
pub proof fn law_local_workers_are_started_as_such(
    config: WorkerConfig,
    exe: Option<String>,
    list: String,
    with: SpawnPlan,
    without: SpawnPlan,
)
    requires
        call_ensures(spawn_local, (&config, &exe, &Some(list)), with),
        call_ensures(spawn_local, (&config, &exe, &None), without),
    ensures
        text_opt(with.exe) == text_opt(exe),
        pairs_view(with.env@) == seq![("EVIX_WORKER"@, "1"@), ("NIX_USER_CONF_FILES"@, list@)],
        pairs_view(without.env@) == seq![("EVIX_WORKER"@, "1"@)],
        with.setup@ == ClientView::Setup(config@, None, None),
{
}

} // verus!
