//! Watching the inputs of a session and evaluating again when they change.

use vstd::prelude::*;
use vstd::string::*;

use crate::config::Config;
use crate::error::{Error, ErrorChain, ErrorView};
use crate::flake_ref::{flake_root_of, local_flake_root};
use crate::json::{
    entry, json_entries, json_of, json_parsed, lists_names, member, member_names, member_of,
    members_in, names_of, parse, text_in, Json,
};
use crate::model::{errors_view, Diff, Input, InputView};
use crate::state::{diff_graphs, diff_of, EvalGraph, Evaluation, RunOutcome, WarmState, WarmView};
use crate::text::{concat2, same, text_opt, texts};
use crate::unix_path::{join_path, joined_path, sort_paths, sorts_paths};

verus! {

/// Whether a watch goes on.
#[derive(Clone, Copy, PartialEq, Eq, Structural, Debug)]
pub enum WatchAction {
    /// It goes on.
    Continue,
    /// It ends.
    Stop,
}

/// What comes of an evaluation under watch.
pub struct WatchOutcome {
    /// What to send to the watcher.
    pub item: Option<Result<Diff, Error>>,
    /// Whether the watch goes on.
    pub action: WatchAction,
}

/// Takes the outcome of an evaluation under watch. A failure is reported and changes nothing;
/// a cancelled evaluation ends the watch; a completed one replaces the warm state, and what
/// changed since the previous graph is reported.
pub fn apply_watch_evaluation_result(
    result: Result<Evaluation, ErrorChain>,
    previous: &EvalGraph,
    state: &mut WarmState,
) -> (r: WatchOutcome)
    ensures
        match result {
            Err(err) => {
                &&& r.item matches Some(Err(e)) && e@ == ErrorView::of_chain(err@)
                &&& r.action == WatchAction::Continue
                &&& *final(state) == *old(state)
            },
            Ok(found) => if found.outcome == RunOutcome::Cancelled {
                &&& r.item is None
                &&& r.action == WatchAction::Stop
                &&& *final(state) == *old(state)
            } else {
                &&& r.item matches Some(Ok(diff)) && diff@ == diff_of(
                    previous@,
                    found.graph@,
                    errors_view(found.errors@),
                )
                &&& r.action == WatchAction::Continue
                &&& final(state)@ == WarmView::filled(found.graph@, errors_view(found.errors@))
            },
        },
{
    match result {
        Err(err) => WatchOutcome {
            item: Some(Err(Error::internal(err))),
            action: WatchAction::Continue,
        },
        Ok(found) => {
            if found.outcome == RunOutcome::Cancelled {
                return WatchOutcome { item: None, action: WatchAction::Stop };
            }
            let errors = crate::model::copy_errors(&found.errors);
            let diff = diff_graphs(previous, &found.graph, errors);
            state.fill(found.graph, found.errors);
            WatchOutcome { item: Some(Ok(diff)), action: WatchAction::Continue }
        },
    }
}

/// Rejects what could not be sent because nobody listens any more.
pub fn watch_delivery(delivered: bool) -> (r: Result<(), ErrorChain>)
    ensures
        match r {
            Ok(()) => delivered,
            Err(e) => !delivered && e@ == seq!["watch stream receiver was dropped"@],
        },
{
    if delivered {
        Ok(())
    } else {
        Err(ErrorChain::new("watch stream receiver was dropped"))
    }
}

/// Whether a watch can begin.
pub enum InitialWait {
    /// The initial evaluation has completed.
    Ready,
    /// It has not ended: ask again when it has.
    Pending,
    /// It never will complete.
    Failed(ErrorChain),
}

/// Whether a watch can begin: once the initial evaluation has completed. It cannot once that
/// has failed, or once the session was cancelled, whatever else holds.
pub fn wait_for_initial_evaluation(cancelled: bool, state: &WarmState) -> (r: InitialWait)
    ensures
        r is Ready <==> !cancelled && state.completed,
        r is Pending <==> !cancelled && !state.completed && state.error is None,
        r matches InitialWait::Failed(e) ==> e@ == seq![
            if cancelled {
                "session dropped before initial evaluation completed"@
            } else {
                state.error->Some_0@
            },
        ],
{
    if cancelled {
        return InitialWait::Failed(
            ErrorChain::new("session dropped before initial evaluation completed"),
        );
    }
    if state.completed {
        return InitialWait::Ready;
    }
    match &state.error {
        Some(error) => InitialWait::Failed(ErrorChain::new(error.as_str())),
        None => InitialWait::Pending,
    }
}

/// What the file system watcher reports.
pub enum WatchSignal {
    /// Something changed.
    Changed,
    /// It failed, but goes on.
    Failed(String),
    /// It is gone.
    Disconnected,
    /// Nothing happened for a while.
    Quiet,
}

/// What a watch does next.
pub enum WatchStep {
    /// Let more changes come in, then evaluate.
    Evaluate,
    /// Report an error, then go on.
    Report(Error),
    /// Fail.
    Fail(ErrorChain),
    /// Go on.
    Wait,
    /// End.
    Stop,
}

/// What a watch does about a report of the file system watcher. `cancelled` is what held
/// before the report was waited for.
pub fn watch_step(cancelled: bool, signal: &WatchSignal) -> (r: WatchStep)
    ensures
        cancelled ==> r is Stop,
        !cancelled ==> match *signal {
            WatchSignal::Changed => r is Evaluate,
            WatchSignal::Failed(cause) => r matches WatchStep::Report(e) && e@
                == ErrorView::of_chain(seq!["filesystem watch error: "@ + cause@]),
            WatchSignal::Disconnected => r matches WatchStep::Fail(e) && e@ == seq![
                "filesystem watcher disconnected"@,
            ],
            WatchSignal::Quiet => r is Wait,
        },
{
    if cancelled {
        return WatchStep::Stop;
    }
    match signal {
        WatchSignal::Changed => WatchStep::Evaluate,
        WatchSignal::Failed(cause) => {
            let err = ErrorChain::from_message(
                concat2("filesystem watch error: ", cause.as_str()),
            );
            WatchStep::Report(Error::internal(err))
        },
        WatchSignal::Disconnected => WatchStep::Fail(
            ErrorChain::new("filesystem watcher disconnected"),
        ),
        WatchSignal::Quiet => WatchStep::Wait,
    }
}

/// The lock file whose local inputs are watched too; only a local flake has one.
pub open spec fn lock_file_of(input: InputView) -> Option<Seq<char>> {
    match input {
        InputView::Flake(reference) => match flake_root_of(reference) {
            Some(root) => Some(joined_path(root, "flake.lock"@)),
            None => None,
        },
        _ => None,
    }
}

/// The lock file to read before the watched paths are known.
pub fn lock_file(config: &Config) -> (r: Option<String>)
    ensures
        text_opt(r) == lock_file_of(config.input@),
{
    match &config.input {
        Input::Flake(reference) => match local_flake_root(reference.as_str()) {
            Some(root) => Some(join_path(root.as_str(), "flake.lock")),
            None => None,
        },
        _ => None,
    }
}

/// The path of a node of a lock file that is locked to a local path.
pub open spec fn local_path_of(node: Json) -> Option<Seq<char>> {
    match member_of(node, "locked"@) {
        None => None,
        Some(locked) => if text_in(member_of(locked, "type"@)) == Some("path"@) {
            text_in(member_of(locked, "path"@))
        } else {
            None
        },
    }
}

/// The local paths of the named nodes, below the flake's directory.
pub open spec fn local_paths(
    root: Seq<char>,
    names: Seq<Seq<char>>,
    nodes: Map<Seq<char>, Json>,
) -> Seq<Seq<char>>
    decreases names.len(),
{
    if names.len() == 0 {
        Seq::empty()
    } else {
        let rest = local_paths(root, names.drop_last(), nodes);
        match local_path_of(nodes[names.last()]) {
            Some(path) => rest.push(joined_path(root, path)),
            None => rest,
        }
    }
}

/// The local paths that a lock file names.
pub open spec fn lock_paths(root: Seq<char>, lock: Json) -> Seq<Seq<char>> {
    match members_in(member_of(lock, "nodes"@)) {
        Some(nodes) => local_paths(root, names_of(nodes), nodes),
        None => Seq::empty(),
    }
}

/// The local paths that the text of a lock file names, or the message of the parser; a lock
/// file that cannot be read names none.
pub open spec fn inputs_of_lock(root: Seq<char>, lock: Option<Seq<char>>) -> Result<
    Seq<Seq<char>>,
    Seq<char>,
> {
    match lock {
        None => Ok(Seq::empty()),
        Some(text) => match json_parsed(text) {
            Ok(t) => Ok(lock_paths(root, t)),
            Err(cause) => Err(cause),
        },
    }
}

fn node_path(node: &serde_json::Value) -> (r: Option<String>)
    ensures
        text_opt(r) == local_path_of(json_of(*node)),
{
    match member(node, "locked") {
        None => None,
        Some(locked) => {
            let is_path: bool = match member(locked, "type") {
                Some(kind) => match kind.as_str() {
                    Some(kind) => same(kind, "path"),
                    None => false,
                },
                None => false,
            };
            if !is_path {
                return None;
            }
            match member(locked, "path") {
                Some(path) => match path.as_str() {
                    Some(path) => Some(path.to_owned()),
                    None => None,
                },
                None => None,
            }
        },
    }
}

/// The local paths that a parsed lock file names, below the flake's directory.
pub fn lock_path_inputs(root: &str, lock: &serde_json::Value) -> (r: Vec<String>)
    ensures
        texts(r@) == lock_paths(root@, json_of(*lock)),
{
    let mut paths: Vec<String> = Vec::new();
    proof {
        assert(texts(paths@) =~= Seq::<Seq<char>>::empty());
    }
    let found = match member(lock, "nodes") {
        Some(found) => found,
        None => {
            return paths;
        },
    };
    let nodes = match found.as_object() {
        Some(nodes) => nodes,
        None => {
            return paths;
        },
    };
    let names = member_names(nodes);
    let ghost all = texts(names@);
    let ghost map = json_entries(*nodes);
    let mut i: usize = 0;
    proof {
        assert(all.take(0).len() == 0);
    }
    while i < names.len()
        invariant
            i <= names.len(),
            all == texts(names@),
            map == json_entries(*nodes),
            lists_names(all, map),
            texts(paths@) == local_paths(root@, all.take(i as int), map),
        decreases names.len() - i,
    {
        let ghost before = texts(paths@);
        proof {
            let next = all.take(i + 1);
            assert(next.drop_last() =~= all.take(i as int));
            assert(next.last() == names@[i as int]@);
            assert(all.contains(all[i as int]));
            assert(map.contains_key(names@[i as int]@));
        }
        if let Some(node) = entry(nodes, names[i].as_str()) {
            if let Some(path) = node_path(node) {
                let full = join_path(root, path.as_str());
                paths.push(full);
                proof {
                    assert(texts(paths@) =~= before.push(full@));
                }
            }
        }
        i += 1;
    }
    proof {
        assert(all.take(i as int) =~= all);
    }
    paths
}

/// The local inputs of a flake, from the text of its lock file.
pub fn local_path_inputs(root: &str, lock: &Option<String>) -> (r: Result<Vec<String>, ErrorChain>)
    ensures
        match r {
            Ok(paths) => inputs_of_lock(root@, text_opt(*lock)) == Ok::<
                Seq<Seq<char>>,
                Seq<char>,
            >(texts(paths@)),
            Err(e) => {
                &&& e@.len() == 2
                &&& e@[0] == "parsing flake.lock"@
                &&& inputs_of_lock(root@, text_opt(*lock)) == Err::<Seq<Seq<char>>, Seq<char>>(e@[1])
            },
        },
{
    match lock {
        None => {
            let none: Vec<String> = Vec::new();
            proof {
                assert(texts(none@) =~= Seq::<Seq<char>>::empty());
            }
            Ok(none)
        },
        Some(text) => match parse(text.as_str()) {
            Ok(value) => Ok(lock_path_inputs(root, &value)),
            Err(cause) => Err(ErrorChain::new(cause.as_str()).context("parsing flake.lock")),
        },
    }
}

/// What a watched flake answers: its directory and its local inputs, or why it cannot be
/// watched.
pub open spec fn flake_watch(reference: Seq<char>, lock: Option<Seq<char>>) -> Result<
    Seq<Seq<char>>,
    Seq<Seq<char>>,
> {
    match flake_root_of(reference) {
        None => Err(seq!["flake reference is not a local path: "@ + reference]),
        Some(root) => match inputs_of_lock(root, lock) {
            Ok(inputs) => Ok(seq![root] + inputs),
            Err(cause) => Err(seq!["parsing flake.lock"@, cause]),
        },
    }
}

/// The paths to watch for a local flake: its directory and the local inputs of its lock file,
/// in order and each once.
pub fn watched_flake_paths(reference: &str, lock: &Option<String>) -> (r: Result<
    Vec<String>,
    ErrorChain,
>)
    ensures
        match r {
            Ok(paths) => flake_watch(reference@, text_opt(*lock)) matches Ok(all) && sorts_paths(
                texts(paths@),
                all,
            ),
            Err(e) => flake_watch(reference@, text_opt(*lock)) == Err::<
                Seq<Seq<char>>,
                Seq<Seq<char>>,
            >(e@),
        },
{
    let root = match local_flake_root(reference) {
        Some(root) => root,
        None => {
            return Err(
                ErrorChain::from_message(
                    concat2("flake reference is not a local path: ", reference),
                ),
            );
        },
    };
    let inputs = match local_path_inputs(root.as_str(), lock) {
        Ok(inputs) => inputs,
        Err(e) => {
            proof {
                assert(e@ =~= seq!["parsing flake.lock"@, e@[1]]);
            }
            return Err(e);
        },
    };
    let ghost found = texts(inputs@);
    let mut paths: Vec<String> = Vec::new();
    paths.push(root.clone());
    let mut i: usize = 0;
    while i < inputs.len()
        invariant
            i <= inputs.len(),
            paths@ == seq![root] + inputs@.take(i as int),
        decreases inputs.len() - i,
    {
        paths.push(inputs[i].clone());
        i += 1;
    }
    proof {
        assert(inputs@.take(i as int) =~= inputs@);
        assert(texts(paths@) =~= seq![root@] + found);
    }
    Ok(sort_paths(&paths))
}

/// The paths to watch for a configuration, where `lock` is the text of its lock file if it has
/// one that could be read. An expression has no paths.
pub fn watched_paths(config: &Config, lock: &Option<String>) -> (r: Result<Vec<String>, ErrorChain>)
    ensures
        match config.input@ {
            InputView::File(path) => r matches Ok(paths) && texts(paths@) == seq![path],
            InputView::Expr(_) => r matches Err(e) && e@ == seq![
                "watch requires a file or local flake input"@,
            ],
            InputView::Flake(reference) => match flake_watch(reference, text_opt(*lock)) {
                Ok(all) => r matches Ok(paths) && sorts_paths(texts(paths@), all),
                Err(chain) => r matches Err(e) && e@ == chain,
            },
        },
{
    match &config.input {
        Input::File(path) => {
            let mut paths: Vec<String> = Vec::new();
            paths.push(path.clone());
            proof {
                assert(texts(paths@) =~= seq![path@]);
            }
            Ok(paths)
        },
        Input::Expr(_) => Err(ErrorChain::new("watch requires a file or local flake input")),
        Input::Flake(reference) => watched_flake_paths(reference.as_str(), lock),
    }
}

/// Whether a node of a lock file is locked to this local path.
pub open spec fn locked_to(node: Json, path: Seq<char>) -> bool {
    &&& node matches Json::Object(members)
    &&& members.contains_key("locked"@)
    &&& members["locked"@] matches Json::Object(locked)
    &&& locked.contains_key("type"@) && locked["type"@] == Json::Str("path"@)
    &&& locked.contains_key("path"@) && locked["path"@] == Json::Str(path)
}

proof fn lemma_locked_to(node: Json, path: Seq<char>)
    ensures
        locked_to(node, path) <==> local_path_of(node) == Some(path),
{
}

proof fn lemma_local_paths(root: Seq<char>, names: Seq<Seq<char>>, nodes: Map<Seq<char>, Json>)
    ensures
        forall|p: Seq<char>| #[trigger]
            local_paths(root, names, nodes).contains(p) ==> exists|i: int, q: Seq<char>|
                0 <= i < names.len() && locked_to(nodes[#[trigger] names[i]], q) && p
                    == #[trigger] joined_path(root, q),
        forall|i: int, q: Seq<char>|
            0 <= i < names.len() && #[trigger] locked_to(nodes[names[i]], q) ==> local_paths(
                root,
                names,
                nodes,
            ).contains(joined_path(root, q)),
    decreases names.len(),
{
    let all = local_paths(root, names, nodes);
    if names.len() > 0 {
        let init = names.drop_last();
        let last = names.len() - 1;
        let rest = local_paths(root, init, nodes);
        lemma_local_paths(root, init, nodes);
        assert(names.last() == names[last]);
        assert forall|p: Seq<char>| #[trigger] all.contains(p) implies exists|i: int, q: Seq<char>|
            0 <= i < names.len() && locked_to(nodes[#[trigger] names[i]], q) && p
                == #[trigger] joined_path(root, q) by {
            let k = all.index_of(p);
            if k < rest.len() {
                assert(rest[k] == p);
                assert(rest.contains(p));
                let (i, q) = choose|i: int, q: Seq<char>|
                    0 <= i < init.len() && locked_to(nodes[#[trigger] init[i]], q) && p
                        == #[trigger] joined_path(root, q);
                assert(names[i] == init[i]);
                assert(locked_to(nodes[names[i]], q) && p == joined_path(root, q));
            } else {
                let q = local_path_of(nodes[names.last()])->Some_0;
                lemma_locked_to(nodes[names[last]], q);
                assert(locked_to(nodes[names[last]], q) && p == joined_path(root, q));
            }
        }
        assert forall|i: int, q: Seq<char>|
            0 <= i < names.len() && #[trigger] locked_to(nodes[names[i]], q) implies all.contains(
            joined_path(root, q),
        ) by {
            lemma_locked_to(nodes[names[i]], q);
            if i < last {
                assert(init[i] == names[i]);
                assert(locked_to(nodes[init[i]], q));
                let k = rest.index_of(joined_path(root, q));
                assert(all[k] == joined_path(root, q));
            } else {
                assert(all[rest.len() as int] == joined_path(root, q));
            }
        }
    }
}

/// The local inputs of a flake are the paths, below its directory, that the nodes of its lock
/// file are locked to, and no others. Without a lock file there are none, and one that is no
/// JSON is refused.
pub proof fn law_local_inputs_are_those_locked_to_paths(
    root: Seq<char>,
    text: Seq<char>,
    members: Map<Seq<char>, Json>,
    nodes: Map<Seq<char>, Json>,
    names: Seq<Seq<char>>,
)
    requires
        json_parsed(text) == Ok::<Json, Seq<char>>(Json::Object(members)),
        members.contains_key("nodes"@) && members["nodes"@] == Json::Object(nodes),
        lists_names(names, nodes),
    ensures
        inputs_of_lock(root, None) == Ok::<Seq<Seq<char>>, Seq<char>>(Seq::empty()),
        inputs_of_lock(root, Some(text)) matches Ok(found) && {
            &&& forall|k: Seq<char>, q: Seq<char>|
                nodes.contains_key(k) && #[trigger] locked_to(nodes[k], q) ==> found.contains(
                    joined_path(root, q),
                )
            &&& forall|p: Seq<char>| #[trigger]
                found.contains(p) ==> exists|k: Seq<char>, q: Seq<char>|
                    nodes.contains_key(k) && #[trigger] locked_to(nodes[k], q) && p == joined_path(
                        root,
                        q,
                    )
        },
{
    crate::json::lemma_names_unique(names, names_of(nodes), nodes);
    let found = local_paths(root, names, nodes);
    assert(inputs_of_lock(root, Some(text)) == Ok::<Seq<Seq<char>>, Seq<char>>(found));
    lemma_local_paths(root, names, nodes);
    assert forall|k: Seq<char>, q: Seq<char>|
        nodes.contains_key(k) && #[trigger] locked_to(nodes[k], q) implies found.contains(
        joined_path(root, q),
    ) by {
        assert(names.contains(k));
        let i = names.index_of(k);
        assert(locked_to(nodes[names[i]], q));
    }
    assert forall|p: Seq<char>| #[trigger] found.contains(p) implies exists|
        k: Seq<char>,
        q: Seq<char>,
    |
        nodes.contains_key(k) && #[trigger] locked_to(nodes[k], q) && p == joined_path(root, q) by {
        let (i, q) = choose|i: int, q: Seq<char>|
            0 <= i < names.len() && locked_to(nodes[#[trigger] names[i]], q) && p
                == #[trigger] joined_path(root, q);
        assert(names.contains(names[i]));
        assert(nodes.contains_key(names[i]));
        assert(locked_to(nodes[names[i]], q));
    }
}

/// A lock file without nodes names no inputs, and one that is no JSON is refused with the
/// message of the parser.
pub proof fn law_other_lock_files(root: Seq<char>, text: Seq<char>)
    ensures
        json_parsed(text) matches Err(cause) ==> inputs_of_lock(root, Some(text)) == Err::<
            Seq<Seq<char>>,
            Seq<char>,
        >(cause),
        json_parsed(text) matches Ok(Json::Object(members)) && !members.contains_key("nodes"@)
            ==> inputs_of_lock(root, Some(text)) == Ok::<Seq<Seq<char>>, Seq<char>>(Seq::empty()),
{
}

/// A flake at a local path is watched there and at each of its local inputs, whether or not the
/// reference has a `path:` or a fragment, and its lock file is the `flake.lock` there. A flake
/// elsewhere has no lock file to look at and cannot be watched.
pub proof fn law_local_flakes_are_watched(
    path: Seq<char>,
    fragment: Seq<char>,
    lock: Option<Seq<char>>,
    inputs: Seq<Seq<char>>,
)
    requires
        !path.contains('#'),
        crate::flake_ref::watchable(path),
        inputs_of_lock(path, lock) == Ok::<Seq<Seq<char>>, Seq<char>>(inputs),
    ensures
        flake_watch(path, lock) == Ok::<Seq<Seq<char>>, Seq<Seq<char>>>(seq![path] + inputs),
        flake_watch(path + seq!['#'] + fragment, lock) == Ok::<Seq<Seq<char>>, Seq<Seq<char>>>(
            seq![path] + inputs,
        ),
        flake_watch("path:"@ + path + seq!['#'] + fragment, lock) == Ok::<
            Seq<Seq<char>>,
            Seq<Seq<char>>,
        >(seq![path] + inputs),
        path.last() != '/' ==> lock_file_of(InputView::Flake(path)) == Some(
            path + seq!['/'] + "flake.lock"@,
        ) && lock_file_of(InputView::Flake(path + seq!['#'] + fragment)) == Some(
            path + seq!['/'] + "flake.lock"@,
        ),
{
    crate::flake_ref::law_flake_roots_are_the_paths_given(path, fragment);
    reveal_strlit("flake.lock");
    crate::unix_path::law_paths_join_with_one_slash(path, "flake.lock"@);
}

/// Only flakes have lock files, and a flake that is not at a local path has none and cannot be
/// watched.
pub proof fn law_other_inputs_have_no_lock_file(
    path: Seq<char>,
    text: Seq<char>,
    lock: Option<Seq<char>>,
)
    requires
        path.len() > 0 && !path.contains('#') && !crate::flake_ref::watchable(path),
        !(path.len() >= 5 && path.take(5) == "path:"@),
    ensures
        lock_file_of(InputView::File(text)) is None,
        lock_file_of(InputView::Expr(text)) is None,
        lock_file_of(InputView::Flake(path)) is None,
        flake_watch(path, lock) is Err,
        flake_watch(path + seq!['#'] + text, lock) is Err,
{
    crate::flake_ref::law_flake_roots_are_the_paths_given(path, text);
}

/// A flake that is not at a local path cannot be watched, and neither can one with a lock file
/// that cannot be read; the message says which it is.
pub proof fn law_unwatchable_flakes_are_refused(
    reference: Seq<char>,
    root: Seq<char>,
    text: Seq<char>,
    cause: Seq<char>,
)
    ensures
        crate::flake_ref::flake_root_of(reference) is None ==> flake_watch(reference, Some(text))
            == Err::<Seq<Seq<char>>, Seq<Seq<char>>>(
            seq!["flake reference is not a local path: "@ + reference],
        ) && flake_watch(reference, None) == Err::<Seq<Seq<char>>, Seq<Seq<char>>>(
            seq!["flake reference is not a local path: "@ + reference],
        ),
        crate::flake_ref::flake_root_of(reference) == Some(root) && json_parsed(text) == Err::<
            Json,
            Seq<char>,
        >(cause) ==> flake_watch(reference, Some(text)) == Err::<Seq<Seq<char>>, Seq<Seq<char>>>(
            seq!["parsing flake.lock"@, cause],
        ),
{
}

/// A watch that is cancelled stops, whatever is reported; else a change is evaluated, a failure
/// reported, a watcher that is gone a failure of the watch, and quiet nothing.
pub proof fn law_watches_follow_the_watcher(
    cancelled: bool,
    cause: String,
    changed: WatchStep,
    failed: WatchStep,
    gone: WatchStep,
    quiet: WatchStep,
)
    requires
        call_ensures(watch_step, (cancelled, &WatchSignal::Changed), changed),
        call_ensures(watch_step, (cancelled, &WatchSignal::Failed(cause)), failed),
        call_ensures(watch_step, (cancelled, &WatchSignal::Disconnected), gone),
        call_ensures(watch_step, (cancelled, &WatchSignal::Quiet), quiet),
    ensures
        cancelled ==> changed is Stop && failed is Stop && gone is Stop && quiet is Stop,
        !cancelled ==> {
            &&& changed is Evaluate
            &&& failed matches WatchStep::Report(e) && e@.text() == "filesystem watch error: "@
                + cause@
            &&& gone matches WatchStep::Fail(e) && e@ == seq!["filesystem watcher disconnected"@]
            &&& quiet is Wait
        },
{
}

/// A watch begins once the initial evaluation has completed, waits while it may still, and fails
/// with what it failed with, or because the session is gone.
pub proof fn law_watches_begin_after_the_first_evaluation(
    cancelled: bool,
    state: WarmState,
    r: InitialWait,
    sent: Result<(), ErrorChain>,
    lost: Result<(), ErrorChain>,
)
    requires
        call_ensures(wait_for_initial_evaluation, (cancelled, &state), r),
        call_ensures(watch_delivery, (true,), sent),
        call_ensures(watch_delivery, (false,), lost),
    ensures
        r is Ready <==> !cancelled && state.completed,
        r is Pending <==> !cancelled && !state.completed && state.error is None,
        cancelled ==> (r matches InitialWait::Failed(e) && e@ == seq![
            "session dropped before initial evaluation completed"@,
        ]),
        !cancelled && !state.completed ==> (state.error matches Some(message) ==> (
        r matches InitialWait::Failed(e) && e@ == seq![message@])),
        sent is Ok,
        lost matches Err(e) && e@ == seq!["watch stream receiver was dropped"@],
{
}

} // verus!
