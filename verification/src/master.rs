//! A master whose workers speak lines of text: the queue that its collectors share, and what
//! a collector and a worker make of each line.

use vstd::prelude::*;

use crate::error::ErrorChain;
use crate::json::{
    bool_in, items_in, json_of, json_parsed, member, member_of, parse, parse_texts, print_texts,
    text_in, texts_json, texts_parsed, trees, Json,
};
use crate::ordered_map::copy_texts;
use crate::scheduler::{reachable, Node};
use crate::text::{
    concat2, quote_list, quoted_list, same, strip_prefix, text_opt, texts, trim, trimmed, Blank,
};

verus! {

/// The queue that the collectors of a master share.
#[derive(Debug)]
pub struct State {
    /// The attribute paths that no worker has yet.
    pub todo: Vec<Vec<String>>,
    /// How many attribute paths are with workers.
    pub active: usize,
    /// Why the evaluation has failed.
    pub error: Option<String>,
}

/// What a [`State`] holds.
#[verifier::ext_equal]
pub struct StateView {
    /// See [`State::todo`].
    pub todo: Seq<Seq<Seq<char>>>,
    /// See [`State::active`].
    pub active: int,
    /// See [`State::error`].
    pub error: Option<Seq<char>>,
}

/// The paths of a list.
pub open spec fn paths_view(paths: Seq<Vec<String>>) -> Seq<Seq<Seq<char>>> {
    paths.map_values(|p: Vec<String>| texts(p@))
}

impl View for State {
    type V = StateView;

    open spec fn view(&self) -> StateView {
        StateView {
            todo: paths_view(self.todo@),
            active: self.active as int,
            error: text_opt(self.error),
        }
    }
}

/// A line without the blanks at its ends.
pub open spec fn line_text(line: Seq<char>) -> Seq<char> {
    trimmed(line, Blank::LineEnd)
}

/// How many collectors a master runs: at least one.
pub fn worker_count(workers: usize) -> (r: usize)
    ensures
        r == if workers == 0 {
            1usize
        } else {
            workers
        },
{
    if workers == 0 {
        1
    } else {
        workers
    }
}

/// What a collector is to do with a worker that asks for work.
#[derive(Debug)]
pub enum Turn {
    /// Send it this line: the attribute path as JSON.
    Dispatch { path: Vec<String>, line: String },
    /// Send it away, and end.
    Finish,
    /// Wait until the queue has changed, and ask again.
    Wait,
    /// Send it away, and fail.
    Fail(ErrorChain),
}

/// What becomes of a worker's line.
#[derive(Debug)]
pub enum Heard {
    /// It asks for work.
    Next,
    /// It ends: start another one.
    Restart,
    /// It reports an error, with which the evaluation has failed.
    Reported(ErrorChain),
    /// It cannot be understood, or cannot be heard any more.
    Fail(ErrorChain),
}

/// The message of a line that reports an error.
pub open spec fn reported(line: Seq<char>) -> Option<Seq<char>> {
    match json_parsed(line) {
        Ok(t) => text_in(member_of(t, "error"@)),
        Err(_) => None,
    }
}

/// The names in an array, without what is no string.
pub open spec fn names_in(items: Seq<Json>) -> Seq<Seq<char>>
    decreases items.len(),
{
    if items.len() == 0 {
        Seq::empty()
    } else {
        let rest = names_in(items.drop_last());
        match items.last() {
            Json::Str(s) => rest.push(s),
            _ => rest,
        }
    }
}

/// Whether an answer names children.
pub open spec fn children_in(t: Json) -> Option<Seq<Seq<char>>> {
    match items_in(member_of(t, "attrs"@)) {
        Some(items) => Some(names_in(items)),
        None => None,
    }
}

/// Why an answer ends the evaluation.
pub open spec fn fatal_in(t: Json) -> Option<Seq<char>> {
    if bool_in(member_of(t, "fatal"@)) == Some(true) {
        match text_in(member_of(t, "error"@)) {
            Some(message) => Some(message),
            None => Some("fatal error"@),
        }
    } else {
        None
    }
}

/// The message of an object that reports an error.
pub fn reported_error(value: &serde_json::Value) -> (r: Option<String>)
    ensures
        text_opt(r) == text_in(member_of(json_of(*value), "error"@)),
{
    match member(value, "error") {
        Some(found) => match found.as_str() {
            Some(message) => Some(message.to_owned()),
            None => None,
        },
        None => None,
    }
}

impl StateView {
    /// The queue of a new evaluation: the root alone.
    pub open spec fn start() -> StateView {
        StateView { todo: seq![Seq::empty()], active: 0, error: None }
    }

    /// The queue once the next path was taken.
    pub open spec fn taken(self) -> StateView {
        StateView { todo: self.todo.skip(1), active: self.active + 1, error: self.error }
    }

    /// The queue once the answer to a path came in: its children are to be evaluated, or it
    /// ends the evaluation.
    pub open spec fn answered(self, path: Seq<Seq<char>>, t: Json) -> StateView {
        StateView {
            todo: match children_in(t) {
                Some(names) => self.todo + names.map_values(|n: Seq<char>| path.push(n)),
                None => self.todo,
            },
            active: self.active - 1,
            error: match children_in(t) {
                Some(_) => self.error,
                None => match fatal_in(t) {
                    Some(message) => Some(message),
                    None => self.error,
                },
            },
        }
    }
}

impl State {
    /// The queue of a new evaluation.
    pub fn new() -> (r: Self)
        ensures
            r@ == StateView::start(),
    {
        let mut todo: Vec<Vec<String>> = Vec::new();
        todo.push(Vec::new());
        let r = State { todo, active: 0, error: None };
        proof {
            assert(r@.todo[0] =~= Seq::<Seq<char>>::empty());
            assert(r@.todo =~= seq![Seq::empty()]);
        }
        r
    }

    /// What a worker's line means while work is not under way; `None` is the end of its
    /// output. An error that it reports is everybody's.
    pub fn hear(&mut self, line: &Option<String>) -> (r: Heard)
        ensures
            match *line {
                None => {
                    &&& r matches Heard::Fail(e) && e@ == seq!["worker process closed unexpectedly"@]
                    &&& *final(self) == *old(self)
                },
                Some(line) => {
                    let msg = line_text(line@);
                    if msg == "restart"@ {
                        r is Restart && *final(self) == *old(self)
                    } else if msg == "next"@ {
                        r is Next && *final(self) == *old(self)
                    } else {
                        match reported(msg) {
                            Some(message) => {
                                &&& r matches Heard::Reported(e) && e@ == seq![message]
                                &&& final(self)@ == (StateView {
                                    error: Some(message),
                                    ..old(self)@
                                })
                            },
                            None => {
                                &&& r matches Heard::Fail(e) && e@ == seq![
                                    "unexpected worker message: "@ + msg,
                                ]
                                &&& *final(self) == *old(self)
                            },
                        }
                    }
                },
            },
    {
        let line = match line {
            Some(line) => line,
            None => {
                return Heard::Fail(ErrorChain::new("worker process closed unexpectedly"));
            },
        };
        let msg = trim(line.as_str(), Blank::LineEnd);
        if same(msg, "restart") {
            return Heard::Restart;
        }
        if same(msg, "next") {
            return Heard::Next;
        }
        if let Ok(value) = parse(msg) {
            if let Some(message) = reported_error(&value) {
                self.error = Some(message.clone());
                return Heard::Reported(ErrorChain::from_message(message));
            }
        }
        Heard::Fail(ErrorChain::from_message(concat2("unexpected worker message: ", msg)))
    }

    /// What a worker that asks for work is to do. Nobody gets work once the evaluation has
    /// failed; a worker ends when nothing is left and nothing is under way.
    pub fn take_turn(&mut self) -> (r: Turn)
        requires
            old(self).active < usize::MAX,
        ensures
            match old(self)@.error {
                Some(message) => {
                    &&& r matches Turn::Fail(e) && e@ == seq![message]
                    &&& final(self)@ == old(self)@
                },
                None => if old(self)@.todo.len() > 0 {
                    &&& r matches Turn::Dispatch { path, line } && texts(path@) == old(self)@.todo[0]
                        && line@ == "do "@ + texts_json(texts(path@)) && texts_parsed(
                        texts_json(texts(path@)),
                    ) == Ok::<Seq<Seq<char>>, Seq<char>>(texts(path@))
                    &&& final(self)@ == old(self)@.taken()
                } else {
                    &&& old(self)@.active == 0 ==> r is Finish
                    &&& old(self)@.active != 0 ==> r is Wait
                    &&& final(self)@ == old(self)@
                },
            },
    {
        if let Some(message) = &self.error {
            return Turn::Fail(ErrorChain::new(message.as_str()));
        }
        if self.todo.len() > 0 {
            let path = self.todo.remove(0);
            self.active = self.active + 1;
            proof {
                assert(self@.todo =~= old(self)@.todo.skip(1));
            }
            return match print_texts(&path) {
                Ok(text) => Turn::Dispatch { line: concat2("do ", text.as_str()), path },
                Err(cause) => Turn::Fail(ErrorChain::new(cause.as_str())),
            };
        }
        if self.active == 0 {
            Turn::Finish
        } else {
            Turn::Wait
        }
    }

    /// Takes in a parsed answer to a path, and says whether its line is to be printed: all but
    /// those that name children are.
    pub fn answer(&mut self, path: &Vec<String>, value: &serde_json::Value) -> (r: bool)
        requires
            old(self).active > 0,
        ensures
            r == (children_in(json_of(*value)) is None),
            final(self)@ == old(self)@.answered(texts(path@), json_of(*value)),
    {
        self.active = self.active - 1;
        if let Some(attrs) = member(value, "attrs") {
            if let Some(items) = attrs.as_array() {
                let ghost all = trees(items@);
                let ghost start = old(self)@.todo;
                let mut i: usize = 0;
                proof {
                    assert(all.take(0).len() == 0);
                    assert(names_in(all.take(0)) =~= Seq::empty());
                    assert(self@.todo =~= start + names_in(all.take(0)).map_values(
                        |n: Seq<char>| texts(path@).push(n),
                    ));
                }
                while i < items.len()
                    invariant
                        i <= items.len(),
                        all == trees(items@),
                        self@.todo == start + names_in(all.take(i as int)).map_values(
                            |n: Seq<char>| texts(path@).push(n),
                        ),
                        self.active == old(self).active - 1,
                        self.error == old(self).error,
                    decreases items.len() - i,
                {
                    let ghost before = self@.todo;
                    let ghost known = names_in(all.take(i as int));
                    proof {
                        let next = all.take(i + 1);
                        assert(next.drop_last() =~= all.take(i as int));
                        assert(next.last() == json_of(items@[i as int]));
                    }
                    if let Some(name) = items[i].as_str() {
                        let mut child = copy_texts(path);
                        child.push(name.to_owned());
                        proof {
                            assert(texts(child@) =~= texts(path@).push(name@));
                        }
                        self.todo.push(child);
                        proof {
                            assert(self@.todo =~= before.push(texts(path@).push(name@)));
                            let f = |n: Seq<char>| texts(path@).push(n);
                            assert(known.push(name@).map_values(f) =~= known.map_values(f).push(
                                texts(path@).push(name@),
                            ));
                            assert(start + known.push(name@).map_values(f) =~= (start
                                + known.map_values(f)).push(texts(path@).push(name@)));
                        }
                    }
                    i += 1;
                }
                proof {
                    assert(all.take(i as int) =~= all);
                }
                return false;
            }
        }
        let fatal: bool = match member(value, "fatal") {
            Some(flag) => match flag.as_bool() {
                Some(b) => b,
                None => false,
            },
            None => false,
        };
        if fatal {
            self.error = match reported_error(value) {
                Some(message) => Some(message),
                None => Some("fatal error".to_owned()),
            };
        }
        true
    }

    /// Takes in a worker's line in answer to a path; `None` is the end of its output. What is
    /// returned is to be printed. An answer that is no JSON leaves the path under way.
    pub fn take_answer(&mut self, path: &Vec<String>, line: &Option<String>) -> (r: Result<
        Option<String>,
        ErrorChain,
    >)
        requires
            old(self).active > 0,
        ensures
            match *line {
                None => {
                    &&& r matches Err(e) && e@ == seq![
                        "worker closed while reading response for "@ + quoted_list(texts(path@)),
                    ]
                    &&& *final(self) == *old(self)
                },
                Some(line) => match json_parsed(line_text(line@)) {
                    Err(cause) => {
                        &&& r matches Err(e) && e@ == seq![
                            "parsing worker response: "@ + line_text(line@),
                            cause,
                        ]
                        &&& *final(self) == *old(self)
                    },
                    Ok(t) => {
                        &&& final(self)@ == old(self)@.answered(texts(path@), t)
                        &&& children_in(t) is Some ==> r == Ok::<Option<String>, ErrorChain>(None)
                        &&& children_in(t) is None ==> (r matches Ok(Some(s)) && s@ == line_text(
                            line@,
                        ))
                    },
                },
            },
    {
        let line = match line {
            Some(line) => line,
            None => {
                return Err(
                    ErrorChain::from_message(
                        concat2(
                            "worker closed while reading response for ",
                            quote_list(path.as_slice()).as_str(),
                        ),
                    ),
                );
            },
        };
        let resp = trim(line.as_str(), Blank::LineEnd);
        match parse(resp) {
            Err(cause) => Err(
                ErrorChain::new(cause.as_str()).context(
                    concat2("parsing worker response: ", resp).as_str(),
                ),
            ),
            Ok(value) => {
                if self.answer(path, &value) {
                    Ok(Some(resp.to_owned()))
                } else {
                    Ok(None)
                }
            },
        }
    }

    /// What a master reports when its collectors have ended.
    pub fn run_master(&self) -> (r: Result<(), ErrorChain>)
        ensures
            match r {
                Ok(()) => self@.error is None,
                Err(e) => self@.error == Some(e@[0]) && e@.len() == 1,
            },
    {
        match &self.error {
            Some(message) => Err(ErrorChain::new(message.as_str())),
            None => Ok(()),
        }
    }
}

/// How far a collector is with its worker.
#[derive(Debug)]
pub enum CollectorPhase {
    /// It waits for the worker to ask for work.
    Ready,
    /// It waits for the queue to change.
    Waiting,
    /// It waits for the answer to an attribute path.
    Answer(Vec<String>),
    /// It has ended.
    Ended,
}

/// What a [`CollectorPhase`] says.
pub enum CollectorView {
    /// See [`CollectorPhase::Ready`].
    Ready,
    /// See [`CollectorPhase::Waiting`].
    Waiting,
    /// See [`CollectorPhase::Answer`].
    Answer(Seq<Seq<char>>),
    /// See [`CollectorPhase::Ended`].
    Ended,
}

impl View for CollectorPhase {
    type V = CollectorView;

    open spec fn view(&self) -> CollectorView {
        match *self {
            CollectorPhase::Ready => CollectorView::Ready,
            CollectorPhase::Waiting => CollectorView::Waiting,
            CollectorPhase::Answer(path) => CollectorView::Answer(texts(path@)),
            CollectorPhase::Ended => CollectorView::Ended,
        }
    }
}

/// What happens to a collector.
#[derive(Debug)]
pub enum CollectorInput {
    /// The worker wrote a line; `None` is the end of its output.
    Line(Option<String>),
    /// The queue has changed.
    Changed,
}

/// What a [`CollectorInput`] says.
pub enum InputView {
    /// See [`CollectorInput::Line`].
    Line(Option<Seq<char>>),
    /// See [`CollectorInput::Changed`].
    Changed,
}

impl View for CollectorInput {
    type V = InputView;

    open spec fn view(&self) -> InputView {
        match *self {
            CollectorInput::Line(line) => InputView::Line(text_opt(line)),
            CollectorInput::Changed => InputView::Changed,
        }
    }
}

/// What a collector does.
#[derive(Debug)]
pub enum CollectorAction {
    /// Replace the worker.
    Respawn,
    /// Send the worker a line.
    Send(String),
    /// Print a line.
    Print(String),
    /// Tell the other collectors that the queue has changed.
    Notify,
    /// End.
    Finish,
    /// Fail.
    Fail(ErrorChain),
}

/// What a [`CollectorAction`] says.
pub enum ActionView {
    /// See [`CollectorAction::Respawn`].
    Respawn,
    /// See [`CollectorAction::Send`].
    Send(Seq<char>),
    /// See [`CollectorAction::Print`].
    Print(Seq<char>),
    /// See [`CollectorAction::Notify`].
    Notify,
    /// See [`CollectorAction::Finish`].
    Finish,
    /// See [`CollectorAction::Fail`].
    Fail(Seq<Seq<char>>),
}

impl View for CollectorAction {
    type V = ActionView;

    open spec fn view(&self) -> ActionView {
        match *self {
            CollectorAction::Respawn => ActionView::Respawn,
            CollectorAction::Send(line) => ActionView::Send(line@),
            CollectorAction::Print(line) => ActionView::Print(line@),
            CollectorAction::Notify => ActionView::Notify,
            CollectorAction::Finish => ActionView::Finish,
            CollectorAction::Fail(e) => ActionView::Fail(e@),
        }
    }
}

/// The actions of a list.
pub open spec fn actions_view(actions: Seq<CollectorAction>) -> Seq<ActionView> {
    actions.map_values(|a: CollectorAction| a@)
}

/// The queue, how far a collector is, and what it does.
#[verifier::ext_equal]
pub struct Course {
    /// The queue.
    pub queue: StateView,
    /// How far the collector is.
    pub phase: CollectorView,
    /// What it does.
    pub actions: Seq<ActionView>,
}

impl StateView {
    /// The turn of a worker that asks for work.
    pub open spec fn turn(self) -> Course {
        match self.error {
            Some(message) => Course {
                queue: self,
                phase: CollectorView::Ended,
                actions: seq![ActionView::Send("exit"@), ActionView::Fail(seq![message])],
            },
            None => if self.todo.len() > 0 {
                Course {
                    queue: self.taken(),
                    phase: CollectorView::Answer(self.todo[0]),
                    actions: seq![ActionView::Send("do "@ + texts_json(self.todo[0]))],
                }
            } else if self.active == 0 {
                Course {
                    queue: self,
                    phase: CollectorView::Ended,
                    actions: seq![ActionView::Send("exit"@), ActionView::Finish],
                }
            } else {
                Course { queue: self, phase: CollectorView::Waiting, actions: Seq::empty() }
            },
        }
    }

    /// A collector that fails.
    pub open spec fn failing(self, chain: Seq<Seq<char>>) -> Course {
        Course {
            queue: self,
            phase: CollectorView::Ended,
            actions: seq![ActionView::Fail(chain)],
        }
    }

    /// What becomes of a line of a worker that is to ask for work.
    pub open spec fn on_ready(self, line: Option<Seq<char>>) -> Course {
        match line {
            None => self.failing(seq!["worker process closed unexpectedly"@]),
            Some(line) => {
                let msg = line_text(line);
                if msg == "restart"@ {
                    Course {
                        queue: self,
                        phase: CollectorView::Ready,
                        actions: seq![ActionView::Respawn],
                    }
                } else if msg == "next"@ {
                    self.turn()
                } else {
                    match reported(msg) {
                        Some(message) => Course {
                            queue: StateView { error: Some(message), ..self },
                            phase: CollectorView::Ended,
                            actions: seq![ActionView::Notify, ActionView::Fail(seq![message])],
                        },
                        None => self.failing(seq!["unexpected worker message: "@ + msg]),
                    }
                }
            },
        }
    }

    /// What becomes of the line in answer to a path.
    pub open spec fn on_answer(self, path: Seq<Seq<char>>, line: Option<Seq<char>>) -> Course {
        match line {
            None => self.failing(
                seq!["worker closed while reading response for "@ + quoted_list(path)],
            ),
            Some(line) => match json_parsed(line_text(line)) {
                Err(cause) => self.failing(
                    seq!["parsing worker response: "@ + line_text(line), cause],
                ),
                Ok(t) => Course {
                    queue: self.answered(path, t),
                    phase: CollectorView::Ready,
                    actions: if children_in(t) is Some {
                        seq![ActionView::Notify]
                    } else {
                        seq![ActionView::Print(line_text(line)), ActionView::Notify]
                    },
                },
            },
        }
    }

    /// What a collector does about what happens to it.
    pub open spec fn step(self, phase: CollectorView, input: InputView) -> Course {
        match (phase, input) {
            (CollectorView::Ready, InputView::Line(line)) => self.on_ready(line),
            (CollectorView::Waiting, InputView::Changed) => self.turn(),
            (CollectorView::Answer(path), InputView::Line(line)) => self.on_answer(path, line),
            _ => Course { queue: self, phase, actions: Seq::empty() },
        }
    }
}

/// A collector: it hands the queue's paths to its worker, one at a time, and takes in the
/// answers.
#[derive(Debug)]
pub struct Collector {
    /// How far it is.
    pub phase: CollectorPhase,
}

fn one(action: CollectorAction) -> (r: Vec<CollectorAction>)
    ensures
        actions_view(r@) == seq![action@],
{
    let mut out: Vec<CollectorAction> = Vec::new();
    out.push(action);
    proof {
        assert(actions_view(out@) =~= seq![action@]);
    }
    out
}

fn two(a: CollectorAction, b: CollectorAction) -> (r: Vec<CollectorAction>)
    ensures
        actions_view(r@) == seq![a@, b@],
{
    let mut out: Vec<CollectorAction> = Vec::new();
    out.push(a);
    out.push(b);
    proof {
        assert(actions_view(out@) =~= seq![a@, b@]);
    }
    out
}

impl Collector {
    /// A collector whose worker was started.
    pub fn new() -> (r: Self)
        ensures
            r.phase@ == CollectorView::Ready,
    {
        Collector { phase: CollectorPhase::Ready }
    }

    fn turn(&mut self, state: &mut State) -> (r: Vec<CollectorAction>)
        requires
            old(state).active < usize::MAX,
        ensures
            final(state)@ == old(state)@.turn().queue,
            final(self).phase@ == old(state)@.turn().phase,
            actions_view(r@) == old(state)@.turn().actions,
    {
        match state.take_turn() {
            Turn::Dispatch { path, line } => {
                self.phase = CollectorPhase::Answer(path);
                one(CollectorAction::Send(line))
            },
            Turn::Finish => {
                self.phase = CollectorPhase::Ended;
                two(CollectorAction::Send("exit".to_owned()), CollectorAction::Finish)
            },
            Turn::Wait => {
                self.phase = CollectorPhase::Waiting;
                let none: Vec<CollectorAction> = Vec::new();
                proof {
                    assert(actions_view(none@) =~= Seq::empty());
                }
                none
            },
            Turn::Fail(e) => {
                self.phase = CollectorPhase::Ended;
                two(CollectorAction::Send("exit".to_owned()), CollectorAction::Fail(e))
            },
        }
    }

    fn ready(&mut self, state: &mut State, line: &Option<String>) -> (r: Vec<CollectorAction>)
        requires
            old(state).active < usize::MAX,
        ensures
            final(state)@ == old(state)@.on_ready(text_opt(*line)).queue,
            final(self).phase@ == old(state)@.on_ready(text_opt(*line)).phase,
            actions_view(r@) == old(state)@.on_ready(text_opt(*line)).actions,
    {
        match state.hear(line) {
            Heard::Restart => {
                self.phase = CollectorPhase::Ready;
                one(CollectorAction::Respawn)
            },
            Heard::Next => self.turn(state),
            Heard::Reported(e) => {
                self.phase = CollectorPhase::Ended;
                two(CollectorAction::Notify, CollectorAction::Fail(e))
            },
            Heard::Fail(e) => {
                self.phase = CollectorPhase::Ended;
                one(CollectorAction::Fail(e))
            },
        }
    }

    /// What a collector does about what happens to it.
    ///
    /// A worker that asks for work gets the first path of the queue. While nothing is left but
    /// something is under way, the collector waits; when nothing is under way either, it sends
    /// the worker away. An answer that names children puts them into the queue, and any other
    /// is printed. Once the evaluation has failed, every collector fails with it.
    pub fn collector(&mut self, state: &mut State, input: CollectorInput) -> (r: Vec<
        CollectorAction,
    >)
        requires
            old(state).active < usize::MAX,
            old(self).phase@ is Answer ==> old(state).active > 0,
        ensures
            final(state)@ == old(state)@.step(old(self).phase@, input@).queue,
            final(self).phase@ == old(state)@.step(old(self).phase@, input@).phase,
            actions_view(r@) == old(state)@.step(old(self).phase@, input@).actions,
    {
        let mut phase = CollectorPhase::Ended;
        std::mem::swap(&mut phase, &mut self.phase);
        match (phase, input) {
            (CollectorPhase::Ready, CollectorInput::Line(line)) => self.ready(state, &line),
            (CollectorPhase::Waiting, CollectorInput::Changed) => self.turn(state),
            (CollectorPhase::Answer(path), CollectorInput::Line(line)) => {
                match state.take_answer(&path, &line) {
                    Ok(Some(text)) => {
                        self.phase = CollectorPhase::Ready;
                        two(CollectorAction::Print(text), CollectorAction::Notify)
                    },
                    Ok(None) => {
                        self.phase = CollectorPhase::Ready;
                        one(CollectorAction::Notify)
                    },
                    Err(e) => {
                        self.phase = CollectorPhase::Ended;
                        one(CollectorAction::Fail(e))
                    },
                }
            },
            (other, _) => {
                self.phase = other;
                let none: Vec<CollectorAction> = Vec::new();
                proof {
                    assert(actions_view(none@) =~= Seq::empty());
                }
                none
            },
        }
    }
}

/// What a worker is told.
#[derive(Debug)]
pub enum Command {
    /// To end.
    Exit,
    /// To evaluate an attribute path.
    Do(Vec<String>),
}

/// The attribute path that a command names.
pub open spec fn command_path(cmd: Seq<char>) -> Seq<char> {
    trimmed(cmd.skip(3), Blank::White)
}

/// What a [`Command`] says.
#[verifier::ext_equal]
pub enum CommandView {
    /// See [`Command::Exit`].
    Exit,
    /// See [`Command::Do`].
    Do(Seq<Seq<char>>),
}

impl View for Command {
    type V = CommandView;

    open spec fn view(&self) -> CommandView {
        match *self {
            Command::Exit => CommandView::Exit,
            Command::Do(path) => CommandView::Do(texts(path@)),
        }
    }
}

/// The command of a line, or what is wrong with it.
pub open spec fn command_of(line: Option<Seq<char>>) -> Result<CommandView, Seq<Seq<char>>> {
    match line {
        None => Ok(CommandView::Exit),
        Some(line) => {
            let cmd = line_text(line);
            if cmd == "exit"@ {
                Ok(CommandView::Exit)
            } else if !crate::text::has_prefix(cmd, "do "@) {
                Err(seq!["invalid worker command: "@ + cmd])
            } else {
                match texts_parsed(command_path(cmd)) {
                    Ok(path) => Ok(CommandView::Do(path)),
                    Err(cause) => Err(seq!["parsing attr path from master"@, cause]),
                }
            }
        },
    }
}

/// Reads a command; the end of the input is a command to end.
pub fn read_command(line: &Option<String>) -> (r: Result<Command, ErrorChain>)
    ensures
        match command_of(text_opt(*line)) {
            Ok(command) => r matches Ok(c) && c@ == command,
            Err(chain) => r matches Err(e) && e@ == chain,
        },
        match *line {
            None => r matches Ok(Command::Exit),
            Some(line) => {
                let cmd = line_text(line@);
                if cmd == "exit"@ {
                    r matches Ok(Command::Exit)
                } else if !crate::text::has_prefix(cmd, "do "@) {
                    r matches Err(e) && e@ == seq!["invalid worker command: "@ + cmd]
                } else {
                    match texts_parsed(command_path(cmd)) {
                        Ok(path) => r matches Ok(Command::Do(p)) && texts(p@) == path,
                        Err(cause) => r matches Err(e) && e@ == seq![
                            "parsing attr path from master"@,
                            cause,
                        ],
                    }
                }
            },
        },
{
    let line = match line {
        Some(line) => line,
        None => {
            return Ok(Command::Exit);
        },
    };
    let cmd = trim(line.as_str(), Blank::LineEnd);
    if same(cmd, "exit") {
        return Ok(Command::Exit);
    }
    proof {
        reveal_strlit("do ");
    }
    match strip_prefix(cmd, "do ") {
        None => Err(ErrorChain::from_message(concat2("invalid worker command: ", cmd))),
        Some(rest) => match parse_texts(trim(rest, Blank::White)) {
            Ok(path) => Ok(Command::Do(path)),
            Err(cause) => Err(
                ErrorChain::new(cause.as_str()).context("parsing attr path from master"),
            ),
        },
    }
}

/// A collector sends a path out exactly when it counts it as under way, and counts it back
/// exactly when its answer was understood.
pub proof fn law_collector_counts_what_is_out(
    s: StateView,
    phase: CollectorView,
    input: InputView,
)
    ensures
        ({
            let after = s.step(phase, input);
            let out = if phase is Answer { 1int } else { 0int };
            let still = if after.phase is Answer { 1int } else { 0int };
            !(phase is Answer && after.phase is Ended) ==> after.queue.active - s.active == still
                - out
        }),
{
}

/// Once an evaluation has failed, no answer that names children makes that undone.
pub proof fn law_failure_is_kept(s: StateView, path: Seq<Seq<char>>, t: Json)
    requires
        s.error is Some,
    ensures
        s.answered(path, t).error is Some,
{
}

/// An evaluation is over exactly when nothing is left and nothing is under way, and an answer
/// to the last path under way either ends it or leaves new paths.
pub proof fn law_last_answer(s: StateView, path: Seq<Seq<char>>, t: Json)
    requires
        s.active == 1,
        s.todo.len() == 0,
        s.error is None,
    ensures
        s.answered(path, t).active == 0,
        s.answered(path, t).todo.len() > 0 <==> (children_in(t) matches Some(names) && names.len()
            > 0),
{
}

/// Whether an answer names these children, in this order.
pub open spec fn names_children(t: Json, names: Seq<Seq<char>>) -> bool {
    &&& t matches Json::Object(members)
    &&& members.contains_key("attrs"@)
    &&& members["attrs"@] matches Json::Array(items)
    &&& items.len() == names.len()
    &&& forall|i: int| 0 <= i < items.len() ==> #[trigger] items[i] == Json::Str(names[i])
}

/// Whether an answer has no list of children.
pub open spec fn names_nothing(t: Json) -> bool {
    t matches Json::Object(members) ==> members.contains_key("attrs"@) ==> !(members["attrs"@]
        is Array)
}

proof fn lemma_all_names(items: Seq<Json>, names: Seq<Seq<char>>)
    requires
        items.len() == names.len(),
        forall|i: int| 0 <= i < items.len() ==> #[trigger] items[i] == Json::Str(names[i]),
    ensures
        names_in(items) == names,
    decreases items.len(),
{
    if items.len() > 0 {
        let short = names.drop_last();
        assert forall|i: int| 0 <= i < items.drop_last().len() implies #[trigger] items.drop_last()[i]
            == Json::Str(short[i]) by {
            assert(items[i] == Json::Str(names[i]));
        }
        lemma_all_names(items.drop_last(), short);
        assert(items[items.len() - 1] == Json::Str(names[items.len() - 1]));
        assert(short.push(names.last()) =~= names);
    }
    assert(names_in(items) =~= names);
}

/// The children that an answer names are queued below its path: behind everything that was
/// queued before, in the order in which they are named, each of them one name longer than the
/// path that it begins with. One path less is under way, and nothing has failed by it.
pub proof fn law_children_are_queued_below_their_parent(
    s: StateView,
    path: Seq<Seq<char>>,
    t: Json,
    names: Seq<Seq<char>>,
)
    requires
        names_children(t, names),
    ensures
        s.answered(path, t).todo.len() == s.todo.len() + names.len(),
        s.answered(path, t).todo.take(s.todo.len() as int) == s.todo,
        forall|i: int|
            0 <= i < names.len() ==> {
                let child = #[trigger] s.answered(path, t).todo[s.todo.len() + i];
                &&& child.len() == path.len() + 1
                &&& child.take(path.len() as int) == path
                &&& child.last() == names[i]
            },
        s.answered(path, t).active == s.active - 1,
        s.answered(path, t).error == s.error,
{
    let items = t->Object_0["attrs"@]->Array_0;
    lemma_all_names(items, names);
    let after = s.answered(path, t).todo;
    assert(after.take(s.todo.len() as int) =~= s.todo);
    assert forall|i: int| 0 <= i < names.len() implies {
        let child = #[trigger] after[s.todo.len() + i];
        &&& child.len() == path.len() + 1
        &&& child.take(path.len() as int) == path
        &&& child.last() == names[i]
    } by {
        let child = after[s.todo.len() + i];
        assert(child == path.push(names[i]));
        assert(child.take(path.len() as int) =~= path);
    }
}

/// What stands in the list of children without being a string is passed over, and every string
/// is queued: one more item queues one more path where it is a string, and none else.
pub proof fn law_every_name_is_queued(
    s: StateView,
    path: Seq<Seq<char>>,
    members: Map<Seq<char>, Json>,
    items: Seq<Json>,
    item: Json,
)
    ensures
        s.answered(path, Json::Object(members.insert("attrs"@, Json::Array(Seq::empty())))).todo
            == s.todo,
        ({
            let shorter = Json::Object(members.insert("attrs"@, Json::Array(items)));
            let longer = Json::Object(members.insert("attrs"@, Json::Array(items.push(item))));
            s.answered(path, longer).todo == match item {
                Json::Str(name) => s.answered(path, shorter).todo.push(path.push(name)),
                _ => s.answered(path, shorter).todo,
            }
        }),
{
    let none = Json::Object(members.insert("attrs"@, Json::Array(Seq::empty())));
    assert(s.answered(path, none).todo =~= s.todo);
    let shorter = Json::Object(members.insert("attrs"@, Json::Array(items)));
    let longer = Json::Object(members.insert("attrs"@, Json::Array(items.push(item))));
    assert(items.push(item).drop_last() =~= items);
    if let Json::Str(name) = item {
        assert(names_in(items.push(item)) == names_in(items).push(name));
        assert(s.answered(path, longer).todo =~= s.answered(path, shorter).todo.push(
            path.push(name),
        ));
    }
}

/// An answer without a list of children queues nothing. It ends the evaluation exactly where
/// it is marked fatal, with its message where it has one.
pub proof fn law_other_answers_queue_nothing(s: StateView, path: Seq<Seq<char>>, t: Json)
    requires
        names_nothing(t),
    ensures
        s.answered(path, t).todo == s.todo,
        s.answered(path, t).active == s.active - 1,
        ({
            let fatal = t matches Json::Object(m) && m.contains_key("fatal"@) && m["fatal"@]
                == Json::Bool(true);
            &&& !fatal ==> s.answered(path, t).error == s.error
            &&& fatal ==> s.answered(path, t).error is Some
            &&& fatal && t->Object_0.contains_key("error"@) && t->Object_0["error"@] is Str
                ==> s.answered(path, t).error == Some(t->Object_0["error"@]->Str_0)
        }),
{
}

/// Every answer without a list of children is printed as it came, without the blanks at its
/// ends, and no other is. Either way the worker is to ask for more, and the other collectors
/// are told.
pub proof fn law_answers_are_printed_unless_they_name_children(
    s: StateView,
    path: Seq<Seq<char>>,
    line: Seq<char>,
    names: Seq<Seq<char>>,
)
    requires
        json_parsed(line_text(line)) is Ok,
    ensures
        s.step(CollectorView::Answer(path), InputView::Line(Some(line))).phase
            == CollectorView::Ready,
        s.step(CollectorView::Answer(path), InputView::Line(Some(line))).actions.contains(
            ActionView::Notify,
        ),
        names_nothing(json_parsed(line_text(line))->Ok_0) ==> s.step(
            CollectorView::Answer(path),
            InputView::Line(Some(line)),
        ).actions == seq![ActionView::Print(line_text(line)), ActionView::Notify],
        names_children(json_parsed(line_text(line))->Ok_0, names) ==> s.step(
            CollectorView::Answer(path),
            InputView::Line(Some(line)),
        ).actions == seq![ActionView::Notify],
{
    let actions = s.step(CollectorView::Answer(path), InputView::Line(Some(line))).actions;
    assert(actions[actions.len() - 1] == ActionView::Notify);
}

/// A worker that asks for work while nothing has failed gets the path that has been queued
/// longest, and the path leaves the queue. Only an empty queue makes it wait, as long as a path
/// is under way, and ends it otherwise; a failure ends it in any case.
pub proof fn law_paths_are_handed_out_in_order(s: StateView, first: Seq<Seq<char>>, rest: Seq<
    Seq<Seq<char>>,
>)
    ensures
        s.error is None && s.todo == seq![first] + rest ==> {
            &&& s.turn().phase == CollectorView::Answer(first)
            &&& s.turn().actions == seq![ActionView::Send("do "@ + texts_json(first))]
            &&& s.turn().queue.todo == rest
            &&& s.turn().queue.active == s.active + 1
            &&& s.turn().queue.error is None
        },
        s.error is None && s.todo.len() == 0 ==> {
            &&& s.turn().queue == s
            &&& s.active == 0 ==> s.turn().actions == seq![
                ActionView::Send("exit"@),
                ActionView::Finish,
            ]
            &&& s.active != 0 ==> s.turn().phase is Waiting && s.turn().actions.len() == 0
        },
        s.error matches Some(message) ==> {
            &&& s.turn().queue == s
            &&& s.turn().actions == seq![ActionView::Send("exit"@), ActionView::Fail(seq![message])]
        },
{
    if s.todo == seq![first] + rest {
        assert(s.todo.skip(1) =~= rest);
    }
}

/// A master whose collectors share a queue.
pub struct Crew {
    /// The queue.
    pub queue: StateView,
    /// How far each collector is.
    pub phases: Seq<CollectorView>,
    /// The paths that went out to workers, in order.
    pub sent: Seq<Seq<Seq<char>>>,
}

/// Something that happens to one of the collectors.
pub struct Happening {
    /// Which collector it happens to.
    pub who: int,
    /// What happens.
    pub input: InputView,
}

impl Crew {
    /// A master that has just started `n` workers.
    pub open spec fn start(n: nat) -> Crew {
        Crew {
            queue: StateView::start(),
            phases: Seq::new(n, |i: int| CollectorView::Ready),
            sent: Seq::empty(),
        }
    }

    /// What one of the collectors makes of what happens to it.
    pub open spec fn course(self, h: Happening) -> Course {
        self.queue.step(self.phases[h.who], h.input)
    }

    /// The master once it has happened.
    pub open spec fn after(self, h: Happening) -> Crew {
        let c = self.course(h);
        if 0 <= h.who < self.phases.len() {
            Crew {
                queue: c.queue,
                phases: self.phases.update(h.who, c.phase),
                sent: match c.phase {
                    CollectorView::Answer(path) => if self.phases[h.who] is Answer {
                        self.sent
                    } else {
                        self.sent.push(path)
                    },
                    _ => self.sent,
                },
            }
        } else {
            self
        }
    }
}

/// A master with `n` workers once all of this has happened.
pub open spec fn crew_after(n: nat, events: Seq<Happening>) -> Crew
    decreases events.len(),
{
    if events.len() == 0 {
        Crew::start(n)
    } else {
        crew_after(n, events.drop_last()).after(events.last())
    }
}

/// Whether an answer says what is found at its path.
pub open spec fn says_node(t: Json, node: Node) -> bool {
    match node {
        Node::Names(names) => names_children(t, names),
        _ => names_nothing(t),
    }
}

/// Whether every answer that can be read says what is found at its path.
pub open spec fn answers_from(
    tree: Map<Seq<Seq<char>>, Node>,
    n: nat,
    events: Seq<Happening>,
) -> bool
    decreases events.len(),
{
    events.len() > 0 ==> {
        let h = events.last();
        &&& answers_from(tree, n, events.drop_last())
        &&& 0 <= h.who < n
        &&& crew_after(n, events.drop_last()).phases[h.who] matches CollectorView::Answer(path)
            ==> h.input matches InputView::Line(Some(line)) ==> json_parsed(
            line_text(line),
        ) matches Ok(t) ==> says_node(t, tree[path])
    }
}

/// The path that each collector has with its worker, or had when it failed.
spec fn held_after(n: nat, events: Seq<Happening>) -> Seq<Option<Seq<Seq<char>>>>
    decreases events.len(),
{
    if events.len() == 0 {
        Seq::new(n, |i: int| None)
    } else {
        let held = held_after(n, events.drop_last());
        let h = events.last();
        let before = crew_after(n, events.drop_last()).phases[h.who];
        if 0 <= h.who < held.len() {
            held.update(
                h.who,
                match crew_after(n, events).phases[h.who] {
                    CollectorView::Answer(path) => Some(path),
                    CollectorView::Ended => if before is Answer || before is Ended {
                        held[h.who]
                    } else {
                        None
                    },
                    _ => None,
                },
            )
        } else {
            held
        }
    }
}

spec fn count_held(held: Seq<Option<Seq<Seq<char>>>>) -> int
    decreases held.len(),
{
    if held.len() == 0 {
        0
    } else {
        count_held(held.drop_last()) + if held.last() is Some {
            1int
        } else {
            0int
        }
    }
}

proof fn lemma_count_held(held: Seq<Option<Seq<Seq<char>>>>)
    ensures
        count_held(held) >= 0,
        count_held(held) == 0 ==> forall|i: int| 0 <= i < held.len() ==> (#[trigger] held[i]) is None,
    decreases held.len(),
{
    if held.len() > 0 {
        lemma_count_held(held.drop_last());
        if count_held(held) == 0 {
            assert forall|i: int| 0 <= i < held.len() implies (#[trigger] held[i]) is None by {
                if i < held.len() - 1 {
                    assert(held.drop_last()[i] is None);
                }
            }
        }
    }
}

proof fn lemma_count_update(
    held: Seq<Option<Seq<Seq<char>>>>,
    who: int,
    new: Option<Seq<Seq<char>>>,
)
    requires
        0 <= who < held.len(),
    ensures
        count_held(held.update(who, new)) == count_held(held) + (if new is Some {
            1int
        } else {
            0int
        }) - (if held[who] is Some {
            1int
        } else {
            0int
        }),
    decreases held.len(),
{
    let init = held.drop_last();
    if who == held.len() - 1 {
        assert(held.update(who, new).drop_last() =~= init);
    } else {
        lemma_count_update(init, who, new);
        assert(held.update(who, new).drop_last() =~= init.update(who, new));
    }
}

proof fn lemma_none_held(n: nat)
    ensures
        count_held(Seq::new(n, |i: int| None::<Seq<Seq<char>>>)) == 0,
    decreases n,
{
    let none = Seq::new(n, |i: int| None::<Seq<Seq<char>>>);
    if n > 0 {
        lemma_none_held((n - 1) as nat);
        assert(none.drop_last() =~= Seq::new((n - 1) as nat, |i: int| None::<Seq<Seq<char>>>));
    }
}

spec fn known(c: Crew, path: Seq<Seq<char>>) -> bool {
    c.sent.contains(path) || c.queue.todo.contains(path)
}

spec fn closed_below(tree: Map<Seq<Seq<char>>, Node>, c: Crew, path: Seq<Seq<char>>) -> bool {
    tree[path] matches Node::Names(names) ==> forall|k: Seq<char>| #[trigger]
        names.contains(k) ==> known(c, path.push(k))
}

spec fn crew_sound(
    tree: Map<Seq<Seq<char>>, Node>,
    c: Crew,
    held: Seq<Option<Seq<Seq<char>>>>,
) -> bool {
    &&& held.len() == c.phases.len()
    &&& c.queue.active == count_held(held)
    &&& known(c, Seq::empty())
    &&& forall|p: Seq<Seq<char>>| #[trigger] known(c, p) ==> reachable(tree, p)
    &&& forall|i: int|
        0 <= i < held.len() ==> match #[trigger] c.phases[i] {
            CollectorView::Answer(p) => held[i] == Some(p),
            CollectorView::Ended => true,
            _ => held[i] is None,
        }
    &&& forall|p: Seq<Seq<char>>| #[trigger]
        c.sent.contains(p) ==> closed_below(tree, c, p) || held.contains(Some(p))
}

proof fn lemma_known_grows(c: Crew, d: Crew)
    requires
        forall|p: Seq<Seq<char>>| #[trigger] known(c, p) ==> known(d, p),
    ensures
        forall|tree: Map<Seq<Seq<char>>, Node>, p: Seq<Seq<char>>| #[trigger]
            closed_below(tree, c, p) ==> closed_below(tree, d, p),
{
    assert forall|tree: Map<Seq<Seq<char>>, Node>, p: Seq<Seq<char>>| #[trigger]
        closed_below(tree, c, p) implies closed_below(tree, d, p) by {
        if let Node::Names(names) = tree[p] {
            assert forall|k: Seq<char>| #[trigger] names.contains(k) implies known(
                d,
                p.push(k),
            ) by {
                assert(known(c, p.push(k)));
            }
        }
    }
}

#[verifier::spinoff_prover]
proof fn lemma_dispatch_sound(
    tree: Map<Seq<Seq<char>>, Node>,
    c: Crew,
    held: Seq<Option<Seq<Seq<char>>>>,
    h: Happening,
)
    requires
        crew_sound(tree, c, held),
        0 <= h.who < c.phases.len(),
        !(c.phases[h.who] is Answer),
        c.course(h).phase is Answer,
    ensures
        crew_sound(tree, c.after(h), held.update(h.who, Some(c.course(h).phase->Answer_0))),
{
    let d = c.after(h);
    let path = c.course(h).phase->Answer_0;
    let next = held.update(h.who, Some(path));
    assert(path == c.queue.todo[0]);
    assert(d.queue.todo == c.queue.todo.skip(1));
    assert(!(c.phases[h.who] is Ended));
    assert(held[h.who] is None);
    lemma_count_update(held, h.who, Some(path));
    assert(c.queue.todo.contains(path));
    assert(known(c, path));
    assert forall|p: Seq<Seq<char>>| #[trigger] known(d, p) <==> known(c, p) by {
        if c.sent.contains(p) {
            let i = c.sent.index_of(p);
            assert(d.sent[i] == p);
        }
        if c.queue.todo.contains(p) {
            let i = c.queue.todo.index_of(p);
            if i == 0 {
                assert(d.sent[c.sent.len() as int] == p);
            } else {
                assert(d.queue.todo[i - 1] == p);
            }
        }
        if d.sent.contains(p) {
            let i = d.sent.index_of(p);
            if i < c.sent.len() {
                assert(c.sent[i] == p);
            }
        }
        if d.queue.todo.contains(p) {
            let i = d.queue.todo.index_of(p);
            assert(c.queue.todo[i + 1] == p);
        }
    }
    lemma_known_grows(c, d);
    assert forall|p: Seq<Seq<char>>| #[trigger] d.sent.contains(p) implies closed_below(tree, d, p)
        || next.contains(Some(p)) by {
        if c.sent.contains(p) {
            if closed_below(tree, c, p) {
            } else {
                let i = held.index_of(Some(p));
                assert(held[i] == Some(p));
                assert(next[i] == Some(p));
            }
        } else {
            let i = d.sent.index_of(p);
            assert(p == path);
            assert(next[h.who] == Some(p));
        }
    }
    assert forall|i: int| 0 <= i < next.len() implies match #[trigger] d.phases[i] {
        CollectorView::Answer(p) => next[i] == Some(p),
        CollectorView::Ended => true,
        _ => next[i] is None,
    } by {
        if i != h.who {
            assert(d.phases[i] == c.phases[i]);
        }
    }
    assert(known(d, Seq::empty()));
}

#[verifier::spinoff_prover]
proof fn lemma_answer_sound(
    tree: Map<Seq<Seq<char>>, Node>,
    c: Crew,
    held: Seq<Option<Seq<Seq<char>>>>,
    h: Happening,
    path: Seq<Seq<char>>,
    t: Json,
)
    requires
        crew_sound(tree, c, held),
        0 <= h.who < c.phases.len(),
        c.phases[h.who] == CollectorView::Answer(path),
        c.sent.contains(path),
        c.course(h).phase is Ready,
        c.course(h).queue == c.queue.answered(path, t),
        says_node(t, tree[path]),
    ensures
        crew_sound(tree, c.after(h), held.update(h.who, None)),
{
    let d = c.after(h);
    let next = held.update(h.who, None);
    assert(held[h.who] == Some(path));
    lemma_count_update(held, h.who, None);
    let todo = c.queue.todo;
    if let Node::Names(names) = tree[path] {
        law_children_are_queued_below_their_parent(c.queue, path, t, names);
        assert(d.queue.todo.len() == todo.len() + names.len());
    } else {
        law_other_answers_queue_nothing(c.queue, path, t);
    }
    assert(known(c, path));
    assert(reachable(tree, path));
    assert(d.queue.todo.take(todo.len() as int) =~= todo);
    assert forall|p: Seq<Seq<char>>| #[trigger] known(c, p) implies known(d, p) by {
        if todo.contains(p) {
            let i = todo.index_of(p);
            assert(d.queue.todo.take(todo.len() as int)[i] == p);
            assert(d.queue.todo[i] == p);
        }
    }
    lemma_known_grows(c, d);
    assert forall|p: Seq<Seq<char>>| #[trigger] known(d, p) implies reachable(tree, p) by {
        if !known(c, p) {
            let i = d.queue.todo.index_of(p);
            assert(d.queue.todo[i] == p);
            if i < todo.len() {
                assert(d.queue.todo.take(todo.len() as int)[i] == p);
                assert(todo[i] == p);
                assert(todo.contains(p));
            } else {
                let names = tree[path]->Names_0;
                let j = i - todo.len();
                assert(d.queue.todo[todo.len() + j] == p);
                assert(p.drop_last() =~= p.take(path.len() as int));
                assert(names[j] == p.last());
                assert(names.contains(p.last()));
            }
        }
    }
    assert(closed_below(tree, d, path)) by {
        if let Node::Names(names) = tree[path] {
            assert forall|k: Seq<char>| #[trigger] names.contains(k) implies known(
                d,
                path.push(k),
            ) by {
                let j = names.index_of(k);
                let child = d.queue.todo[todo.len() + j];
                assert(child =~= child.take(path.len() as int).push(child.last()));
                assert(child == path.push(k));
            }
        }
    }
    assert forall|p: Seq<Seq<char>>| #[trigger] d.sent.contains(p) implies closed_below(tree, d, p)
        || next.contains(Some(p)) by {
        if !closed_below(tree, c, p) {
            let i = held.index_of(Some(p));
            assert(held[i] == Some(p));
            if i == h.who {
                assert(p == path);
            } else {
                assert(next[i] == Some(p));
            }
        }
    }
    assert forall|i: int| 0 <= i < next.len() implies match #[trigger] d.phases[i] {
        CollectorView::Answer(p) => next[i] == Some(p),
        CollectorView::Ended => true,
        _ => next[i] is None,
    } by {
        if i != h.who {
            assert(d.phases[i] == c.phases[i]);
        }
    }
    assert(known(d, Seq::empty()));
}

#[verifier::spinoff_prover]
proof fn lemma_still_sound(
    tree: Map<Seq<Seq<char>>, Node>,
    c: Crew,
    held: Seq<Option<Seq<Seq<char>>>>,
    h: Happening,
    new: Option<Seq<Seq<char>>>,
)
    requires
        crew_sound(tree, c, held),
        0 <= h.who < c.phases.len(),
        c.course(h).queue.todo == c.queue.todo,
        c.course(h).queue.active == c.queue.active,
        c.course(h).phase is Answer ==> c.course(h).phase == c.phases[h.who],
        c.course(h).phase is Answer || c.course(h).phase is Ended || held[h.who] is None,
        new == held[h.who],
    ensures
        crew_sound(tree, c.after(h), held.update(h.who, new)),
{
    let d = c.after(h);
    assert(held.update(h.who, new) =~= held);
    assert(d.sent == c.sent);
    assert forall|p: Seq<Seq<char>>| #[trigger] known(d, p) <==> known(c, p) by {}
    lemma_known_grows(c, d);
    assert forall|i: int| 0 <= i < held.len() implies match #[trigger] d.phases[i] {
        CollectorView::Answer(p) => held[i] == Some(p),
        CollectorView::Ended => true,
        _ => held[i] is None,
    } by {
        if i != h.who {
            assert(d.phases[i] == c.phases[i]);
        } else {
            assert(c.phases[i] == c.phases[h.who]);
        }
    }
    assert(known(d, Seq::empty()));
}

proof fn lemma_phases_len(n: nat, events: Seq<Happening>)
    ensures
        crew_after(n, events).phases.len() == n,
        held_after(n, events).len() == n,
    decreases events.len(),
{
    if events.len() > 0 {
        lemma_phases_len(n, events.drop_last());
    }
}

/// Every path that a worker has was sent to it.
proof fn lemma_answers_were_sent(n: nat, events: Seq<Happening>, i: int)
    requires
        0 <= i < n,
    ensures
        crew_after(n, events).phases[i] matches CollectorView::Answer(path) ==> crew_after(
            n,
            events,
        ).sent.contains(path),
    decreases events.len(),
{
    lemma_phases_len(n, events);
    if events.len() > 0 {
        let init = events.drop_last();
        lemma_phases_len(n, init);
        lemma_answers_were_sent(n, init, i);
        let c = crew_after(n, init);
        let h = events.last();
        let d = crew_after(n, events);
        if let CollectorView::Answer(path) = d.phases[i] {
            if h.who == i {
                if c.phases[i] is Answer {
                    assert(c.course(h).phase == c.phases[i]);
                } else {
                    assert(d.sent[c.sent.len() as int] == path);
                }
            } else if d.sent != c.sent {
                let k = c.sent.index_of(path);
                assert(d.sent[k] == path);
            }
        }
    }
}

#[verifier::spinoff_prover]
proof fn lemma_crew_sound(tree: Map<Seq<Seq<char>>, Node>, n: nat, events: Seq<Happening>)
    requires
        answers_from(tree, n, events),
    ensures
        crew_sound(tree, crew_after(n, events), held_after(n, events)),
    decreases events.len(),
{
    lemma_phases_len(n, events);
    if events.len() == 0 {
        let c = Crew::start(n);
        lemma_none_held(n);
        assert(held_after(n, events) =~= Seq::new(n, |i: int| None::<Seq<Seq<char>>>));
        assert(c.queue.todo[0] == Seq::<Seq<char>>::empty());
        assert(c.queue.todo.contains(Seq::<Seq<char>>::empty()));
        assert forall|p: Seq<Seq<char>>| #[trigger] known(c, p) implies reachable(tree, p) by {
            assert(c.queue.todo.contains(p));
        }
    } else {
        let init = events.drop_last();
        let h = events.last();
        lemma_crew_sound(tree, n, init);
        lemma_phases_len(n, init);
        let c = crew_after(n, init);
        let held = held_after(n, init);
        let before = c.phases[h.who];
        let after = c.course(h);
        assert(crew_after(n, events).phases[h.who] == after.phase);
        if after.phase is Answer && !(before is Answer) {
            lemma_dispatch_sound(tree, c, held, h);
        } else {
            match before {
                CollectorView::Answer(path) => {
                    lemma_answers_were_sent(n, init, h.who);
                    if after.phase is Ready {
                        let line = h.input->Line_0->Some_0;
                        let t = json_parsed(line_text(line))->Ok_0;
                        lemma_answer_sound(tree, c, held, h, path, t);
                    } else {
                        lemma_still_sound(tree, c, held, h, held[h.who]);
                    }
                },
                _ => {
                    lemma_still_sound(tree, c, held, h, held[h.who]);
                },
            }
        }
    }
}

/// However many workers there are, and in whatever order they ask and answer: a master that
/// finishes has sent out the root and every path below it that the answers lead to along names
/// of attribute sets, and no other path.
pub proof fn law_every_path_is_sent_out(
    tree: Map<Seq<Seq<char>>, Node>,
    n: nat,
    events: Seq<Happening>,
    h: Happening,
)
    requires
        answers_from(tree, n, events),
        0 <= h.who < n,
        crew_after(n, events).course(h).actions.contains(ActionView::Finish),
    ensures
        forall|p: Seq<Seq<char>>| #[trigger]
            crew_after(n, events).sent.contains(p) <==> reachable(tree, p),
{
    let c = crew_after(n, events);
    let held = held_after(n, events);
    lemma_crew_sound(tree, n, events);
    lemma_phases_len(n, events);
    assert(c.queue.todo.len() == 0 && c.queue.active == 0);
    lemma_count_held(held);
    assert forall|p: Seq<Seq<char>>| #[trigger] c.sent.contains(p) <==> reachable(tree, p) by {
        if c.sent.contains(p) {
            assert(known(c, p));
        }
        if reachable(tree, p) {
            lemma_reached_was_sent(tree, c, held, p);
        }
    }
}

proof fn lemma_reached_was_sent(
    tree: Map<Seq<Seq<char>>, Node>,
    c: Crew,
    held: Seq<Option<Seq<Seq<char>>>>,
    p: Seq<Seq<char>>,
)
    requires
        crew_sound(tree, c, held),
        c.queue.todo.len() == 0,
        forall|i: int| 0 <= i < held.len() ==> (#[trigger] held[i]) is None,
        reachable(tree, p),
    ensures
        c.sent.contains(p),
    decreases p.len(),
{
    if p.len() == 0 {
        assert(p =~= Seq::<Seq<char>>::empty());
        assert(known(c, p));
    } else {
        let parent = p.drop_last();
        lemma_reached_was_sent(tree, c, held, parent);
        assert(closed_below(tree, c, parent)) by {
            if held.contains(Some(parent)) {
                let i = held.index_of(Some(parent));
                assert(held[i] is None);
            }
        }
        assert(parent.push(p.last()) =~= p);
        assert(known(c, p));
    }
}

/// What a queue, a collector and what it is told and does say is what stands in them.
pub proof fn law_collectors_say_what_they_do(
    s: State,
    path: Vec<String>,
    line: String,
    e: ErrorChain,
    i: int,
)
    ensures
        s@.todo.len() == s.todo@.len(),
        0 <= i < s.todo@.len() ==> s@.todo[i] == texts(s.todo@[i]@),
        s@.active == s.active,
        s.error matches Some(message) ==> s@.error == Some(message@),
        s.error is None ==> s@.error is None,
        CollectorPhase::Ready@ == CollectorView::Ready,
        CollectorPhase::Waiting@ == CollectorView::Waiting,
        CollectorPhase::Answer(path)@ == CollectorView::Answer(texts(path@)),
        CollectorPhase::Ended@ == CollectorView::Ended,
        CollectorInput::Line(Some(line))@ == InputView::Line(Some(line@)),
        CollectorInput::Line(None)@ == InputView::Line(None),
        CollectorInput::Changed@ == InputView::Changed,
        CollectorAction::Respawn@ == ActionView::Respawn,
        CollectorAction::Send(line)@ == ActionView::Send(line@),
        CollectorAction::Print(line)@ == ActionView::Print(line@),
        CollectorAction::Notify@ == ActionView::Notify,
        CollectorAction::Finish@ == ActionView::Finish,
        CollectorAction::Fail(e)@ == ActionView::Fail(e@),
{
}

/// A new evaluation has the root to do, and nothing else; a worker that ends is replaced, one
/// that asks for work gets its turn, and what a worker reports outside of an answer ends the
/// evaluation with that message.
pub proof fn law_workers_are_heard_between_answers(
    s: StateView,
    line: Seq<char>,
    members: Map<Seq<char>, Json>,
    message: Seq<char>,
)
    ensures
        StateView::start().todo == seq![Seq::<Seq<char>>::empty()],
        StateView::start().active == 0 && StateView::start().error is None,
        line_text(line) == "restart"@ ==> {
            let c = s.step(CollectorView::Ready, InputView::Line(Some(line)));
            c.queue == s && c.phase == CollectorView::Ready && c.actions == seq![ActionView::Respawn]
        },
        line_text(line) == "next"@ ==> s.step(CollectorView::Ready, InputView::Line(Some(line)))
            == s.turn(),
        s.step(CollectorView::Waiting, InputView::Changed) == s.turn(),
        line_text(line) != "restart"@ && line_text(line) != "next"@ && json_parsed(line_text(line))
            == Ok::<Json, Seq<char>>(Json::Object(members)) && members.contains_key("error"@)
            && members["error"@] == Json::Str(message) ==> {
            let c = s.step(CollectorView::Ready, InputView::Line(Some(line)));
            &&& c.queue.error == Some(message) && c.queue.todo == s.todo && c.queue.active
                == s.active
            &&& c.actions == seq![ActionView::Notify, ActionView::Fail(seq![message])]
        },
        s.step(CollectorView::Ready, InputView::Line(None)).actions == seq![
            ActionView::Fail(seq!["worker process closed unexpectedly"@]),
        ],
{
    reveal_strlit("restart");
    reveal_strlit("next");
    assert("restart"@.len() == 7 && "next"@.len() == 4);
}

/// A fatal answer without a message fails the evaluation all the same, and what a worker says
/// out of turn, or does not say, ends it with a message that shows it.
pub proof fn law_unreadable_workers_end_the_evaluation(
    s: StateView,
    path: Seq<Seq<char>>,
    line: Seq<char>,
    members: Map<Seq<char>, Json>,
)
    ensures
        !members.contains_key("attrs"@) && members.contains_key("fatal"@) && members["fatal"@]
            == Json::Bool(true) && !members.contains_key("error"@) ==> s.answered(
            path,
            Json::Object(members),
        ).error == Some("fatal error"@),
        ({
            let c = s.step(CollectorView::Answer(path), InputView::Line(None));
            &&& c.queue == s && c.phase == CollectorView::Ended
            &&& c.actions == seq![
                ActionView::Fail(
                    seq!["worker closed while reading response for "@ + quoted_list(path)],
                ),
            ]
        }),
        json_parsed(line_text(line)) matches Err(cause) ==> {
            let c = s.step(CollectorView::Answer(path), InputView::Line(Some(line)));
            &&& c.queue == s && c.phase == CollectorView::Ended
            &&& c.actions == seq![
                ActionView::Fail(seq!["parsing worker response: "@ + line_text(line), cause]),
            ]
        },
        json_parsed(line_text(line)) is Err && line_text(line) != "next"@ && line_text(line)
            != "restart"@ ==> {
            let c = s.step(CollectorView::Ready, InputView::Line(Some(line)));
            &&& c.queue == s && c.phase == CollectorView::Ended
            &&& c.actions == seq![
                ActionView::Fail(seq!["unexpected worker message: "@ + line_text(line)]),
            ]
        },
{
}

/// A command to evaluate a path names it: what stands behind `do` and a blank.
pub proof fn law_commands_name_their_path(text: Seq<char>)
    requires
        text.len() > 0,
        !crate::text::is_blank(Blank::White, text[0]),
        !crate::text::is_blank(Blank::White, text.last()),
    ensures
        command_path("do "@ + text) == text,
        command_path("do "@ + seq![' '] + text) == text,
{
    reveal_strlit("do ");
    assert("do "@.len() == 3);
    assert(("do "@ + text).skip(3) =~= text);
    let behind = ("do "@ + seq![' '] + text).skip(3);
    assert(behind =~= seq![' '] + text);
    assert(behind.skip(1) =~= text);
    assert(crate::text::is_blank(Blank::White, ' '));
    assert(crate::text::trimmed_start(text, Blank::White) == text);
    assert(crate::text::trimmed_end(text, Blank::White) == text);
    assert(behind[0] == ' ');
    assert(crate::text::trimmed_start(behind, Blank::White) == crate::text::trimmed_start(
        behind.skip(1),
        Blank::White,
    ));
}

/// A worker is told to evaluate the path that stands behind `do`, and to end by `exit` or by the
/// end of its input; anything else is refused, and so is a path that cannot be read.
pub proof fn law_commands_are_read(line: Seq<char>, text: Seq<char>)
    requires
        text.len() > 0,
        !crate::text::is_blank(Blank::White, text[0]),
        !crate::text::is_blank(Blank::White, text.last()),
    ensures
        command_of(None) == Ok::<CommandView, Seq<Seq<char>>>(CommandView::Exit),
        line_text(line) == "exit"@ ==> command_of(Some(line)) == Ok::<CommandView, Seq<Seq<char>>>(
            CommandView::Exit,
        ),
        line_text(line) == "do "@ + text ==> match texts_parsed(text) {
            Ok(path) => command_of(Some(line)) == Ok::<CommandView, Seq<Seq<char>>>(
                CommandView::Do(path),
            ),
            Err(cause) => command_of(Some(line)) == Err::<CommandView, Seq<Seq<char>>>(
                seq!["parsing attr path from master"@, cause],
            ),
        },
        line_text(line) != "exit"@ && !(line_text(line).len() >= 3 && line_text(line)[0] == 'd'
            && line_text(line)[1] == 'o' && line_text(line)[2] == ' ') ==> command_of(Some(line))
            == Err::<CommandView, Seq<Seq<char>>>(
            seq!["invalid worker command: "@ + line_text(line)],
        ),
        Command::Exit@ == CommandView::Exit,
{
    reveal_strlit("exit");
    reveal_strlit("do ");
    assert("exit"@.len() == 4 && "exit"@[0] == 'e');
    assert("do "@.len() == 3 && "do "@[0] == 'd' && "do "@[1] == 'o' && "do "@[2] == ' ');
    law_commands_name_their_path(text);
    let cmd = line_text(line);
    if cmd == "do "@ + text {
        assert(cmd[0] == 'd');
        assert(cmd.take(3) =~= "do "@);
    }
    if crate::text::has_prefix(cmd, "do "@) {
        assert(cmd.take(3)[0] == cmd[0] && cmd.take(3)[1] == cmd[1] && cmd.take(3)[2] == cmd[2]);
    }
}

} // verus!
