//! The warm graph of a session, and how two graphs differ.

use vstd::prelude::*;

use crate::error::ErrorChain;
use crate::model::{
    derivations_view, errors_view, matches_filter, Derivation, DerivationView, Diff, DiffView,
    EvalError, EvalErrorView, Event, EventView, Filter, FilterView,
};
use crate::ordered_map::{copy_texts, path_less, OrderedMap};
use crate::text::{same, text_opt, texts};

verus! {

/// The derivations that an evaluation found, each under its attribute path.
#[derive(Debug)]
pub struct EvalGraph {
    drvs: OrderedMap<Vec<String>, Derivation>,
}

/// What an [`EvalGraph`] holds.
#[verifier::ext_equal]
pub struct GraphView {
    /// The paths, in order.
    pub paths: Seq<Seq<Seq<char>>>,
    /// The derivation at each path.
    pub drvs: Map<Seq<Seq<char>>, DerivationView>,
}

impl View for EvalGraph {
    type V = GraphView;

    closed spec fn view(&self) -> GraphView {
        GraphView {
            paths: self.drvs.keys(),
            drvs: self.drvs@.map_values(|d: Derivation| d@),
        }
    }
}

impl GraphView {
    /// Each path occurs once, in the order of the paths, and holds a derivation of that path.
    pub open spec fn valid(self) -> bool {
        &&& forall|i: int, j: int|
            0 <= i < j < self.paths.len() ==> path_less(
                #[trigger] self.paths[i],
                #[trigger] self.paths[j],
            )
        &&& forall|k: Seq<Seq<char>>| #[trigger]
            self.drvs.contains_key(k) <==> self.paths.contains(k)
        &&& forall|k: Seq<Seq<char>>| #[trigger]
            self.drvs.contains_key(k) ==> self.drvs[k].attr_path == k
    }

    /// The derivations at the paths that `keep` names, in order.
    pub open spec fn pick(self, keep: spec_fn(Seq<Seq<char>>) -> bool) -> Seq<DerivationView> {
        self.paths.filter(keep).map_values(|k: Seq<Seq<char>>| self.drvs[k])
    }

    /// The derivations that `filter` asks for, in the order of their paths.
    pub open spec fn matching(self, filter: FilterView) -> Seq<DerivationView> {
        self.pick(|k: Seq<Seq<char>>| filter.matches(self.drvs[k]))
    }
}

/// How `after` differs from `before`.
pub open spec fn diff_of(
    before: GraphView,
    after: GraphView,
    errors: Seq<EvalErrorView>,
) -> DiffView {
    DiffView {
        added: after.pick(|k: Seq<Seq<char>>| !before.drvs.contains_key(k)),
        removed: before.pick(|k: Seq<Seq<char>>| !after.drvs.contains_key(k)),
        changed: after.pick(
            |k: Seq<Seq<char>>|
                before.drvs.contains_key(k) && before.drvs[k].drv_path != after.drvs[k].drv_path,
        ),
        errors,
    }
}

impl EvalGraph {
    #[verifier::type_invariant]
    spec fn filed(self) -> bool {
        forall|k: Seq<Seq<char>>| #[trigger]
            self.drvs@.contains_key(k) ==> texts(self.drvs@[k].attr_path@) == k
    }

    /// The graph without derivations.
    pub fn new() -> (r: Self)
        ensures
            r@.drvs == Map::<Seq<Seq<char>>, DerivationView>::empty(),
            r@.paths == Seq::<Seq<Seq<char>>>::empty(),
    {
        let r = EvalGraph { drvs: OrderedMap::new() };
        proof {
            assert(r@.drvs =~= Map::<Seq<Seq<char>>, DerivationView>::empty());
        }
        r
    }

    /// The number of derivations.
    pub fn len(&self) -> (n: usize)
        ensures
            n == self@.paths.len(),
            self@.valid(),
    {
        let n: usize = self.drvs.len();
        proof {
            use_type_invariant(self);
        }
        n
    }

    /// Files a derivation under its attribute path, in place of an earlier one there.
    pub fn record(&mut self, drv: Derivation)
        ensures
            final(self)@.drvs == old(self)@.drvs.insert(drv@.attr_path, drv@),
    {
        proof {
            use_type_invariant(&*self);
        }
        let mut drvs: OrderedMap<Vec<String>, Derivation> = OrderedMap::new();
        std::mem::swap(&mut drvs, &mut self.drvs);
        let ghost before = drvs@;
        drvs.insert(copy_texts(&drv.attr_path), drv);
        self.drvs = drvs;
        proof {
            assert(self@.drvs =~= old(self)@.drvs.insert(drv@.attr_path, drv@));
        }
    }

    /// The derivation at a path.
    pub fn get(&self, path: &Vec<String>) -> (r: Option<&Derivation>)
        ensures
            match r {
                Some(d) => self@.drvs.contains_key(texts(path@)) && d@ == self@.drvs[texts(path@)],
                None => !self@.drvs.contains_key(texts(path@)),
            },
    {
        self.drvs.get(path)
    }

    /// The path at an index.
    pub fn path_at(&self, i: usize) -> (r: &Vec<String>)
        requires
            i < self@.paths.len(),
        ensures
            texts(r@) == self@.paths[i as int],
    {
        self.drvs.key_at(i)
    }

    /// The derivation at an index, in the order of the paths.
    pub fn drv_at(&self, i: usize) -> (r: &Derivation)
        requires
            i < self@.paths.len(),
        ensures
            self@.drvs.contains_key(self@.paths[i as int]),
            r@ == self@.drvs[self@.paths[i as int]],
    {
        self.drvs.value_at(i)
    }

    /// The derivations that `filter` asks for, in the order of their paths.
    pub fn matching(&self, filter: &Filter) -> (r: Vec<Derivation>)
        ensures
            derivations_view(r@) == self@.matching(filter@),
    {
        let ghost keep = |k: Seq<Seq<char>>| filter@.matches(self@.drvs[k]);
        let n: usize = self.len();
        let mut out: Vec<Derivation> = Vec::new();
        let mut i: usize = 0;
        proof {
            reveal(Seq::filter);
            assert(self@.paths.take(0).filter(keep).len() == 0);
        }
        while i < n
            invariant
                i <= n,
                n == self@.paths.len(),
                keep == (|k: Seq<Seq<char>>| filter@.matches(self@.drvs[k])),
                derivations_view(out@) == self@.paths.take(i as int).filter(keep).map_values(
                    |k: Seq<Seq<char>>| self@.drvs[k],
                ),
            decreases n - i,
        {
            let ghost before = out@;
            let drv = self.drv_at(i);
            proof {
                lemma_filter_step(self@.paths, keep, i as int);
            }
            if matches_filter(drv, filter) {
                let item = drv.clone();
                out.push(item);
                proof {
                    assert(derivations_view(out@) =~= derivations_view(before).push(item@));
                    lemma_push_map(
                        self@.paths.take(i as int).filter(keep),
                        self@.paths[i as int],
                        |k: Seq<Seq<char>>| self@.drvs[k],
                    );
                }
            }
            i += 1;
        }
        proof {
            assert(self@.paths.take(n as int) =~= self@.paths);
        }
        out
    }
}

/// What one more element adds to the filtered prefix of a sequence.
pub proof fn lemma_filter_step<A>(s: Seq<A>, keep: spec_fn(A) -> bool, i: int)
    requires
        0 <= i < s.len(),
    ensures
        s.take(i + 1).filter(keep) == if keep(s[i]) {
            s.take(i).filter(keep).push(s[i])
        } else {
            s.take(i).filter(keep)
        },
{
    reveal(Seq::filter);
    assert(s.take(i + 1).drop_last() =~= s.take(i));
    assert(s.take(i + 1).last() == s[i]);
}

/// A filtered sequence holds the elements of the sequence that are kept, and no others.
pub proof fn lemma_filter_contains<A>(s: Seq<A>, keep: spec_fn(A) -> bool, x: A)
    ensures
        s.filter(keep).contains(x) <==> s.contains(x) && keep(x),
    decreases s.len(),
{
    reveal(Seq::filter);
    if s.len() > 0 {
        let init = s.drop_last();
        lemma_filter_contains(init, keep, x);
        let kept = init.filter(keep);
        assert(s.contains(x) <==> init.contains(x) || s.last() == x) by {
            if s.contains(x) && s.last() != x {
                let i = s.index_of(x);
                assert(init[i] == x);
            }
            if init.contains(x) {
                let i = init.index_of(x);
                assert(s[i] == x);
            }
            assert(s[s.len() - 1] == s.last());
        }
        if keep(s.last()) {
            let out = kept.push(s.last());
            assert(out.contains(x) <==> kept.contains(x) || s.last() == x) by {
                if kept.contains(x) {
                    let i = kept.index_of(x);
                    assert(out[i] == x);
                }
                if out.contains(x) && s.last() != x {
                    let i = out.index_of(x);
                    assert(kept[i] == x);
                }
                assert(out[kept.len() as int] == s.last());
            }
        }
    }
}

/// A mapped sequence grows by the image of what is pushed.
pub proof fn lemma_push_map<A, B>(s: Seq<A>, a: A, f: spec_fn(A) -> B)
    ensures
        s.push(a).map_values(f) == s.map_values(f).push(f(a)),
{
    assert(s.push(a).map_values(f) =~= s.map_values(f).push(f(a)));
}

impl Clone for EvalGraph {
    fn clone(&self) -> (r: Self)
        ensures
            r@ == self@,
    {
        proof {
            use_type_invariant(self);
        }
        let drvs = self.drvs.copy();
        proof {
            assert forall|k: Seq<Seq<char>>| #[trigger] self.drvs@.contains_key(k) implies drvs@[k]@
                == self.drvs@[k]@ by {
                assert(cloned::<Derivation>(self.drvs@[k], drvs@[k]));
            }
            assert forall|k: Seq<Seq<char>>| #[trigger] drvs@.contains_key(k) implies texts(
                drvs@[k].attr_path@,
            ) == k by {
                assert(self.drvs@.contains_key(k));
                assert(drvs@[k]@.attr_path == self.drvs@[k]@.attr_path);
            }
        }
        let r = EvalGraph { drvs };
        proof {
            assert(r@.drvs =~= self@.drvs);
        }
        r
    }
}

/// How `after` differs from `before`: the derivations that came, that went, and whose store
/// path is another one, with the errors of the later evaluation.
pub fn diff_graphs(before: &EvalGraph, after: &EvalGraph, errors: Vec<EvalError>) -> (r: Diff)
    ensures
        r@ == diff_of(before@, after@, errors_view(errors@)),
{
    let ghost is_new = |k: Seq<Seq<char>>| !before@.drvs.contains_key(k);
    let ghost is_gone = |k: Seq<Seq<char>>| !after@.drvs.contains_key(k);
    let ghost is_other = |k: Seq<Seq<char>>|
        before@.drvs.contains_key(k) && before@.drvs[k].drv_path != after@.drvs[k].drv_path;
    let ghost later = |k: Seq<Seq<char>>| after@.drvs[k];
    let ghost earlier = |k: Seq<Seq<char>>| before@.drvs[k];
    let mut added: Vec<Derivation> = Vec::new();
    let mut changed: Vec<Derivation> = Vec::new();
    let mut removed: Vec<Derivation> = Vec::new();
    let n: usize = after.len();
    let mut i: usize = 0;
    proof {
        reveal(Seq::filter);
        assert(after@.paths.take(0).filter(is_new).len() == 0);
        assert(after@.paths.take(0).filter(is_other).len() == 0);
        assert(before@.paths.take(0).filter(is_gone).len() == 0);
    }
    while i < n
        invariant
            i <= n,
            n == after@.paths.len(),
            is_new == (|k: Seq<Seq<char>>| !before@.drvs.contains_key(k)),
            is_other == (|k: Seq<Seq<char>>|
                before@.drvs.contains_key(k) && before@.drvs[k].drv_path
                    != after@.drvs[k].drv_path),
            later == (|k: Seq<Seq<char>>| after@.drvs[k]),
            derivations_view(added@) == after@.paths.take(i as int).filter(is_new).map_values(
                later,
            ),
            derivations_view(changed@) == after@.paths.take(i as int).filter(is_other).map_values(
                later,
            ),
        decreases n - i,
    {
        let ghost added_before = added@;
        let ghost changed_before = changed@;
        let drv = after.drv_at(i);
        let path = after.path_at(i);
        let item = drv.clone();
        proof {
            lemma_filter_step(after@.paths, is_new, i as int);
            lemma_filter_step(after@.paths, is_other, i as int);
            lemma_push_map(
                after@.paths.take(i as int).filter(is_new),
                after@.paths[i as int],
                later,
            );
            lemma_push_map(
                after@.paths.take(i as int).filter(is_other),
                after@.paths[i as int],
                later,
            );
        }
        match before.get(path) {
            None => {
                added.push(item);
                proof {
                    assert(derivations_view(added@) =~= derivations_view(added_before).push(item@));
                }
            },
            Some(old_drv) => {
                if !same(old_drv.drv_path.as_str(), drv.drv_path.as_str()) {
                    changed.push(item);
                    proof {
                        assert(derivations_view(changed@) =~= derivations_view(
                            changed_before,
                        ).push(item@));
                    }
                }
            },
        }
        i += 1;
    }
    let m: usize = before.len();
    let mut j: usize = 0;
    while j < m
        invariant
            j <= m,
            m == before@.paths.len(),
            is_gone == (|k: Seq<Seq<char>>| !after@.drvs.contains_key(k)),
            earlier == (|k: Seq<Seq<char>>| before@.drvs[k]),
            derivations_view(removed@) == before@.paths.take(j as int).filter(is_gone).map_values(
                earlier,
            ),
        decreases m - j,
    {
        let ghost removed_before = removed@;
        let drv = before.drv_at(j);
        proof {
            lemma_filter_step(before@.paths, is_gone, j as int);
            lemma_push_map(
                before@.paths.take(j as int).filter(is_gone),
                before@.paths[j as int],
                earlier,
            );
        }
        if after.get(before.path_at(j)).is_none() {
            let item = drv.clone();
            removed.push(item);
            proof {
                assert(derivations_view(removed@) =~= derivations_view(removed_before).push(item@));
            }
        }
        j += 1;
    }
    proof {
        assert(after@.paths.take(n as int) =~= after@.paths);
        assert(before@.paths.take(m as int) =~= before@.paths);
    }
    Diff { added, removed, changed, errors }
}

/// How a run of an evaluation ended.
#[derive(Clone, Copy, PartialEq, Eq, Structural, Debug)]
pub enum RunOutcome {
    /// Every attribute was evaluated.
    Completed,
    /// It was cancelled on the way.
    Cancelled,
}

/// What a run of an evaluation found.
#[derive(Debug)]
pub struct Evaluation {
    /// The derivations.
    pub graph: EvalGraph,
    /// The errors.
    pub errors: Vec<EvalError>,
    /// How it ended.
    pub outcome: RunOutcome,
}

/// Takes one event of a run into its graph and errors.
pub fn collect_event(graph: &mut EvalGraph, errors: &mut Vec<EvalError>, event: &Event)
    ensures
        final(graph)@.drvs == match event@ {
            EventView::Derivation(d) => old(graph)@.drvs.insert(d.attr_path, d),
            _ => old(graph)@.drvs,
        },
        errors_view(final(errors)@) == match event@ {
            EventView::Error(e) => errors_view(old(errors)@).push(e),
            _ => errors_view(old(errors)@),
        },
{
    match event {
        Event::Derivation(d) => {
            graph.record(d.clone());
        },
        Event::AttrSet { attr: _, attr_path: _, attrs: _ } => {},
        Event::Error(e) => {
            let item = e.clone();
            errors.push(item);
            proof {
                assert(errors_view(errors@) =~= errors_view(old(errors)@).push(item@));
            }
        },
    }
}

/// What a run of an evaluation comes to: it is cancelled if that was asked for, whatever else
/// happened; else it fails if anything failed; else it is completed.
pub fn evaluation_end(
    cancelled: bool,
    failure: Option<ErrorChain>,
    graph: EvalGraph,
    errors: Vec<EvalError>,
) -> (r: Result<Evaluation, ErrorChain>)
    ensures
        match r {
            Ok(found) => {
                &&& cancelled || failure is None
                &&& found.graph@ == graph@
                &&& found.errors@ == errors@
                &&& found.outcome == if cancelled {
                    RunOutcome::Cancelled
                } else {
                    RunOutcome::Completed
                }
            },
            Err(e) => !cancelled && failure == Some(e),
        },
{
    if cancelled {
        return Ok(Evaluation { graph, errors, outcome: RunOutcome::Cancelled });
    }
    match failure {
        Some(e) => Err(e),
        None => Ok(Evaluation { graph, errors, outcome: RunOutcome::Completed }),
    }
}

/// What a session keeps of its evaluations.
#[derive(Debug)]
pub struct WarmState {
    /// The derivations of the last completed evaluation.
    pub graph: EvalGraph,
    /// The errors of the last completed evaluation.
    pub errors: Vec<EvalError>,
    /// Whether an evaluation has completed.
    pub completed: bool,
    /// Why the initial evaluation failed.
    pub error: Option<String>,
}

/// What a [`WarmState`] says.
#[verifier::ext_equal]
pub struct WarmView {
    /// See [`WarmState::graph`].
    pub graph: GraphView,
    /// See [`WarmState::errors`].
    pub errors: Seq<EvalErrorView>,
    /// See [`WarmState::completed`].
    pub completed: bool,
    /// See [`WarmState::error`].
    pub error: Option<Seq<char>>,
}

impl View for WarmState {
    type V = WarmView;

    open spec fn view(&self) -> WarmView {
        WarmView {
            graph: self.graph@,
            errors: errors_view(self.errors@),
            completed: self.completed,
            error: text_opt(self.error),
        }
    }
}

impl WarmView {
    /// The state of a session that has evaluated nothing.
    pub open spec fn cold() -> WarmView {
        WarmView {
            graph: GraphView { paths: Seq::empty(), drvs: Map::empty() },
            errors: Seq::empty(),
            completed: false,
            error: None,
        }
    }

    /// The state after a completed evaluation.
    pub open spec fn filled(graph: GraphView, errors: Seq<EvalErrorView>) -> WarmView {
        WarmView { graph, errors, completed: true, error: None }
    }
}

impl Default for WarmState {
    fn default() -> (r: Self)
        ensures
            r@ == WarmView::cold(),
    {
        WarmState { graph: EvalGraph::new(), errors: Vec::new(), completed: false, error: None }
    }
}

impl WarmState {
    /// Replaces the state by the outcome of a completed evaluation.
    pub fn fill(&mut self, graph: EvalGraph, errors: Vec<EvalError>)
        ensures
            final(self)@ == WarmView::filled(graph@, errors_view(errors@)),
    {
        self.graph = graph;
        self.errors = errors;
        self.completed = true;
        self.error = None;
    }
}

/// The derivations of a list, each under its path.
pub open spec fn overlay(
    base: Map<Seq<Seq<char>>, DerivationView>,
    drvs: Seq<DerivationView>,
) -> Map<Seq<Seq<char>>, DerivationView>
    decreases drvs.len(),
{
    if drvs.len() == 0 {
        base
    } else {
        overlay(base, drvs.drop_last()).insert(drvs.last().attr_path, drvs.last())
    }
}

/// The paths of a list of derivations.
pub open spec fn paths_of(drvs: Seq<DerivationView>) -> Set<Seq<Seq<char>>> {
    Set::new(|k: Seq<Seq<char>>| exists|i: int| 0 <= i < drvs.len() && #[trigger] drvs[i].attr_path == k)
}

/// What a diff makes of a graph: without what was removed, with what was added or changed.
pub open spec fn patched(
    base: Map<Seq<Seq<char>>, DerivationView>,
    diff: DiffView,
) -> Map<Seq<Seq<char>>, DerivationView> {
    overlay(overlay(base.remove_keys(paths_of(diff.removed)), diff.added), diff.changed)
}

proof fn lemma_pick(g: GraphView, keep: spec_fn(Seq<Seq<char>>) -> bool, k: Seq<Seq<char>>)
    requires
        g.valid(),
    ensures
        paths_of(g.pick(keep)).contains(k) <==> g.drvs.contains_key(k) && keep(k),
        forall|i: int|
            0 <= i < g.pick(keep).len() ==> {
                &&& g.drvs.contains_key((#[trigger] g.pick(keep)[i]).attr_path)
                &&& keep(g.pick(keep)[i].attr_path)
                &&& g.drvs[g.pick(keep)[i].attr_path] == g.pick(keep)[i]
            },
{
    let kept = g.paths.filter(keep);
    let picked = g.pick(keep);
    lemma_filter_contains(g.paths, keep, k);
    assert forall|i: int| 0 <= i < picked.len() implies {
        &&& g.drvs.contains_key((#[trigger] picked[i]).attr_path)
        &&& keep(picked[i].attr_path)
        &&& g.drvs[picked[i].attr_path] == picked[i]
    } by {
        assert(kept.contains(kept[i]));
        lemma_filter_contains(g.paths, keep, kept[i]);
        assert(g.drvs.contains_key(kept[i]));
    }
    if paths_of(picked).contains(k) {
        let i = choose|i: int| 0 <= i < picked.len() && #[trigger] picked[i].attr_path == k;
    }
    if g.drvs.contains_key(k) && keep(k) {
        assert(g.paths.contains(k));
        assert(kept.contains(k));
        let i = kept.index_of(k);
        assert(picked[i].attr_path == k);
    }
}

proof fn lemma_overlay(
    base: Map<Seq<Seq<char>>, DerivationView>,
    drvs: Seq<DerivationView>,
    target: Map<Seq<Seq<char>>, DerivationView>,
    k: Seq<Seq<char>>,
)
    requires
        forall|i: int|
            0 <= i < drvs.len() ==> target.contains_key((#[trigger] drvs[i]).attr_path)
                && target[drvs[i].attr_path] == drvs[i],
    ensures
        paths_of(drvs).contains(k) ==> overlay(base, drvs).contains_key(k) && target.contains_key(k)
            && overlay(base, drvs)[k] == target[k],
        !paths_of(drvs).contains(k) ==> (overlay(base, drvs).contains_key(k) <==> base.contains_key(
            k,
        )) && overlay(base, drvs)[k] == base[k],
    decreases drvs.len(),
{
    if drvs.len() > 0 {
        let init = drvs.drop_last();
        assert forall|i: int| 0 <= i < init.len() implies target.contains_key(
            (#[trigger] init[i]).attr_path,
        ) && target[init[i].attr_path] == init[i] by {
            assert(init[i] == drvs[i]);
        }
        lemma_overlay(base, init, target, k);
        assert(drvs.last() == drvs[drvs.len() - 1]);
        if paths_of(init).contains(k) {
            let i = choose|i: int| 0 <= i < init.len() && #[trigger] init[i].attr_path == k;
            assert(drvs[i].attr_path == k);
        }
        if paths_of(drvs).contains(k) && drvs.last().attr_path != k {
            let i = choose|i: int| 0 <= i < drvs.len() && #[trigger] drvs[i].attr_path == k;
            assert(init[i].attr_path == k);
        }
    }
}

/// A graph does not differ from itself.
pub proof fn law_diff_of_equal_graphs(g: GraphView, errors: Seq<EvalErrorView>)
    requires
        g.valid(),
    ensures
        diff_of(g, g, errors) == (DiffView {
            added: Seq::empty(),
            removed: Seq::empty(),
            changed: Seq::empty(),
            errors,
        }),
{
    let d = diff_of(g, g, errors);
    let absent = |k: Seq<Seq<char>>| !g.drvs.contains_key(k);
    let other = |k: Seq<Seq<char>>|
        g.drvs.contains_key(k) && g.drvs[k].drv_path != g.drvs[k].drv_path;
    if g.pick(absent).len() > 0 {
        lemma_pick(g, absent, g.pick(absent)[0].attr_path);
    }
    if g.pick(other).len() > 0 {
        lemma_pick(g, other, g.pick(other)[0].attr_path);
    }
    assert(d.added =~= Seq::<DerivationView>::empty());
    assert(d.removed =~= Seq::<DerivationView>::empty());
    assert(d.changed =~= Seq::<DerivationView>::empty());
}

/// A diff says everything that happened to the store paths: put onto the earlier graph, it
/// gives the paths of the later graph with the later graph's store paths.
pub proof fn law_diff_patches(before: GraphView, after: GraphView, errors: Seq<EvalErrorView>)
    requires
        before.valid(),
        after.valid(),
    ensures
        patched(before.drvs, diff_of(before, after, errors)).dom() == after.drvs.dom(),
        forall|k: Seq<Seq<char>>| #[trigger]
            after.drvs.contains_key(k) ==> patched(before.drvs, diff_of(before, after, errors))[k].drv_path
                == after.drvs[k].drv_path,
{
    let d = diff_of(before, after, errors);
    let p = patched(before.drvs, d);
    let is_new = |k: Seq<Seq<char>>| !before.drvs.contains_key(k);
    let is_gone = |k: Seq<Seq<char>>| !after.drvs.contains_key(k);
    let is_other = |k: Seq<Seq<char>>|
        before.drvs.contains_key(k) && before.drvs[k].drv_path != after.drvs[k].drv_path;
    let base = before.drvs.remove_keys(paths_of(d.removed));
    assert forall|k: Seq<Seq<char>>|
        (#[trigger] p.contains_key(k) <==> after.drvs.contains_key(k)) && (after.drvs.contains_key(k)
            ==> p[k].drv_path == after.drvs[k].drv_path) by {
        lemma_pick(after, is_new, k);
        lemma_pick(before, is_gone, k);
        lemma_pick(after, is_other, k);
        lemma_overlay(base, d.added, after.drvs, k);
        lemma_overlay(overlay(base, d.added), d.changed, after.drvs, k);
    }
    assert(p.dom() =~= after.drvs.dom());
    assert forall|k: Seq<Seq<char>>| #[trigger] after.drvs.contains_key(k) implies p[k].drv_path
        == after.drvs[k].drv_path by {
        assert(p.contains_key(k));
    }
}

/// What came is what the later graph has at a path where the earlier one has nothing, what went
/// is what the earlier graph has where the later one has nothing, and what changed is what the
/// later graph has where the earlier one has another store path; the errors are those given.
pub proof fn law_diffs_say_what_came_went_and_changed(
    before: GraphView,
    after: GraphView,
    errors: Seq<EvalErrorView>,
    d: DerivationView,
)
    requires
        before.valid(),
        after.valid(),
    ensures
        ({
            let k = d.attr_path;
            let had = before.drvs.contains_key(k);
            let now = after.drvs.contains_key(k);
            let diff = diff_of(before, after, errors);
            &&& diff.added.contains(d) <==> !had && now && after.drvs[k] == d
            &&& diff.removed.contains(d) <==> had && !now && before.drvs[k] == d
            &&& diff.changed.contains(d) <==> had && now && after.drvs[k] == d
                && before.drvs[k].drv_path != d.drv_path
            &&& diff.errors == errors
        }),
{
    let is_new = |k: Seq<Seq<char>>| !before.drvs.contains_key(k);
    let is_gone = |k: Seq<Seq<char>>| !after.drvs.contains_key(k);
    let is_other = |k: Seq<Seq<char>>|
        before.drvs.contains_key(k) && before.drvs[k].drv_path != after.drvs[k].drv_path;
    lemma_picked(after, is_new, d);
    lemma_picked(before, is_gone, d);
    lemma_picked(after, is_other, d);
}

proof fn lemma_picked(g: GraphView, keep: spec_fn(Seq<Seq<char>>) -> bool, d: DerivationView)
    requires
        g.valid(),
    ensures
        g.pick(keep).contains(d) <==> g.drvs.contains_key(d.attr_path) && g.drvs[d.attr_path] == d
            && keep(d.attr_path),
{
    let k = d.attr_path;
    let picked = g.pick(keep);
    lemma_pick(g, keep, k);
    if picked.contains(d) {
        let i = picked.index_of(d);
        assert(picked[i] == d);
    }
    if g.drvs.contains_key(k) && g.drvs[k] == d && keep(k) {
        assert(paths_of(picked).contains(k));
        let i = choose|i: int| 0 <= i < picked.len() && #[trigger] picked[i].attr_path == k;
        assert(picked[i] == d);
    }
}

/// A query gives the derivations of the graph whose dotted path begins as asked and whose system
/// is the one asked for, where these are asked for, and no others; they come in the order of
/// their paths, each once.
pub proof fn law_queries_give_what_is_asked_for(
    g: GraphView,
    filter: FilterView,
    d: DerivationView,
)
    requires
        g.valid(),
    ensures
        g.matching(filter).contains(d) <==> {
            &&& g.drvs.contains_key(d.attr_path) && g.drvs[d.attr_path] == d
            &&& filter.attr_prefix matches Some(p) ==> p.len() <= d.attr.len() && d.attr.take(
                p.len() as int,
            ) == p
            &&& filter.system matches Some(s) ==> d.system == s
        },
        forall|i: int, j: int|
            0 <= i < j < g.matching(filter).len() ==> path_less(
                (#[trigger] g.matching(filter)[i]).attr_path,
                (#[trigger] g.matching(filter)[j]).attr_path,
            ),
{
    let keep = |k: Seq<Seq<char>>| filter.matches(g.drvs[k]);
    lemma_picked(g, keep, d);
    lemma_picked_in_order(g, keep);
}

proof fn lemma_filtered_in_order(paths: Seq<Seq<Seq<char>>>, keep: spec_fn(Seq<Seq<char>>) -> bool)
    requires
        forall|i: int, j: int|
            0 <= i < j < paths.len() ==> path_less(#[trigger] paths[i], #[trigger] paths[j]),
    ensures
        forall|i: int, j: int|
            0 <= i < j < paths.filter(keep).len() ==> path_less(
                #[trigger] paths.filter(keep)[i],
                #[trigger] paths.filter(keep)[j],
            ),
    decreases paths.len(),
{
    reveal(Seq::filter);
    if paths.len() > 0 {
        let init = paths.drop_last();
        let kept = init.filter(keep);
        lemma_filtered_in_order(init, keep);
        assert forall|i: int, j: int| 0 <= i < j < paths.filter(keep).len() implies path_less(
            #[trigger] paths.filter(keep)[i],
            #[trigger] paths.filter(keep)[j],
        ) by {
            if j < kept.len() {
                assert(path_less(kept[i], kept[j]));
            } else {
                assert(kept.contains(kept[i]));
                lemma_filter_contains(init, keep, kept[i]);
                let k = init.index_of(kept[i]);
                assert(path_less(paths[k], paths[paths.len() - 1]));
            }
        }
    }
}

proof fn lemma_picked_in_order(g: GraphView, keep: spec_fn(Seq<Seq<char>>) -> bool)
    requires
        g.valid(),
    ensures
        forall|i: int, j: int|
            0 <= i < j < g.pick(keep).len() ==> path_less(
                (#[trigger] g.pick(keep)[i]).attr_path,
                (#[trigger] g.pick(keep)[j]).attr_path,
            ),
{
    let kept = g.paths.filter(keep);
    lemma_filtered_in_order(g.paths, keep);
    assert forall|i: int, j: int| 0 <= i < j < g.pick(keep).len() implies path_less(
        (#[trigger] g.pick(keep)[i]).attr_path,
        (#[trigger] g.pick(keep)[j]).attr_path,
    ) by {
        assert(kept.contains(kept[i]) && kept.contains(kept[j]));
        lemma_filter_contains(g.paths, keep, kept[i]);
        lemma_filter_contains(g.paths, keep, kept[j]);
        assert(g.drvs.contains_key(kept[i]) && g.drvs.contains_key(kept[j]));
        assert(g.pick(keep)[i].attr_path == kept[i] && g.pick(keep)[j].attr_path == kept[j]);
        assert(path_less(kept[i], kept[j]));
    }
}

/// What a diff lists comes in the order of the paths.
pub proof fn law_diffs_are_in_order(
    before: GraphView,
    after: GraphView,
    errors: Seq<EvalErrorView>,
    i: int,
    j: int,
)
    requires
        before.valid(),
        after.valid(),
        0 <= i < j,
    ensures
        ({
            let d = diff_of(before, after, errors);
            &&& j < d.added.len() ==> path_less(d.added[i].attr_path, d.added[j].attr_path)
            &&& j < d.removed.len() ==> path_less(d.removed[i].attr_path, d.removed[j].attr_path)
            &&& j < d.changed.len() ==> path_less(d.changed[i].attr_path, d.changed[j].attr_path)
        }),
{
    lemma_picked_in_order(after, |k: Seq<Seq<char>>| !before.drvs.contains_key(k));
    lemma_picked_in_order(before, |k: Seq<Seq<char>>| !after.drvs.contains_key(k));
    lemma_picked_in_order(
        after,
        |k: Seq<Seq<char>>|
            before.drvs.contains_key(k) && before.drvs[k].drv_path != after.drvs[k].drv_path,
    );
}

/// A session that has evaluated nothing has nothing to give; one whose evaluation completed has
/// what that found, and no failure.
pub proof fn law_completed_evaluations_are_kept(graph: GraphView, errors: Seq<EvalErrorView>)
    ensures
        WarmView::filled(graph, errors).graph == graph,
        WarmView::filled(graph, errors).errors == errors,
        WarmView::filled(graph, errors).completed,
        WarmView::filled(graph, errors).error is None,
        !WarmView::cold().completed,
        WarmView::cold().error is None,
        WarmView::cold().graph.paths.len() == 0,
        WarmView::cold().errors.len() == 0,
{
}

/// An evaluation that is cancelled is so whatever else happened, one that fails fails with its
/// error, and any other is completed; what was found is kept.
pub proof fn law_evaluations_end_one_way(
    cancelled: bool,
    failure: Option<ErrorChain>,
    graph: EvalGraph,
    errors: Vec<EvalError>,
    r: Result<Evaluation, ErrorChain>,
)
    requires
        call_ensures(evaluation_end, (cancelled, failure, graph, errors), r),
    ensures
        r is Err <==> !cancelled && failure is Some,
        r matches Err(e) ==> failure == Some(e),
        r matches Ok(found) ==> found.graph@ == graph@ && found.errors@ == errors@ && (
        found.outcome == RunOutcome::Cancelled <==> cancelled),
{
}

} // verus!
