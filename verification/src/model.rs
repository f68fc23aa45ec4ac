//! What an evaluation is given and what it yields.

use vstd::prelude::*;

use crate::json::{copy_json, json_opt, Json};
use crate::ordered_map::{copy_texts, OrderedMap};
use crate::text::{same, starts_with, text_opt, texts};

verus! {

/// What to evaluate.
#[derive(Debug)]
pub enum Input {
    /// A flake reference.
    Flake(String),
    /// A Nix expression.
    Expr(String),
    /// The path of a Nix file.
    File(String),
}

/// What an [`Input`] says.
pub enum InputView {
    /// See [`Input::Flake`].
    Flake(Seq<char>),
    /// See [`Input::Expr`].
    Expr(Seq<char>),
    /// See [`Input::File`].
    File(Seq<char>),
}

impl View for Input {
    type V = InputView;

    open spec fn view(&self) -> InputView {
        match *self {
            Input::Flake(s) => InputView::Flake(s@),
            Input::Expr(s) => InputView::Expr(s@),
            Input::File(s) => InputView::File(s@),
        }
    }
}

impl Clone for Input {
    fn clone(&self) -> (r: Self)
        ensures
            r == *self,
    {
        match self {
            Input::Flake(s) => Input::Flake(s.clone()),
            Input::Expr(s) => Input::Expr(s.clone()),
            Input::File(s) => Input::File(s.clone()),
        }
    }
}

/// An argument for the functions that evaluation calls by itself.
#[derive(Debug)]
pub enum AutoArg {
    /// A Nix expression.
    Expr(String),
    /// A string.
    Str(String),
}

/// What an [`AutoArg`] says.
pub enum AutoArgView {
    /// See [`AutoArg::Expr`].
    Expr(Seq<char>),
    /// See [`AutoArg::Str`].
    Str(Seq<char>),
}

impl View for AutoArg {
    type V = AutoArgView;

    open spec fn view(&self) -> AutoArgView {
        match *self {
            AutoArg::Expr(s) => AutoArgView::Expr(s@),
            AutoArg::Str(s) => AutoArgView::Str(s@),
        }
    }
}

impl Clone for AutoArg {
    fn clone(&self) -> (r: Self)
        ensures
            r == *self,
    {
        match self {
            AutoArg::Expr(s) => AutoArg::Expr(s.clone()),
            AutoArg::Str(s) => AutoArg::Str(s.clone()),
        }
    }
}

/// The named arguments of a list.
pub open spec fn args_view(v: Seq<(String, AutoArg)>) -> Seq<(Seq<char>, AutoArgView)> {
    v.map_values(|p: (String, AutoArg)| (p.0@, p.1@))
}

/// The pairs of texts of a list.
pub open spec fn pairs_view(v: Seq<(String, String)>) -> Seq<(Seq<char>, Seq<char>)> {
    v.map_values(|p: (String, String)| (p.0@, p.1@))
}

/// A copy of a list of named arguments.
pub fn copy_args(v: &Vec<(String, AutoArg)>) -> (r: Vec<(String, AutoArg)>)
    ensures
        r@ == v@,
{
    let mut out: Vec<(String, AutoArg)> = Vec::new();
    let mut i: usize = 0;
    while i < v.len()
        invariant
            i <= v.len(),
            out@ == v@.take(i as int),
        decreases v.len() - i,
    {
        out.push((v[i].0.clone(), v[i].1.clone()));
        i += 1;
    }
    out
}

/// A copy of a list of pairs.
pub fn copy_pairs(v: &Vec<(String, String)>) -> (r: Vec<(String, String)>)
    ensures
        r@ == v@,
{
    let mut out: Vec<(String, String)> = Vec::new();
    let mut i: usize = 0;
    while i < v.len()
        invariant
            i <= v.len(),
            out@ == v@.take(i as int),
        decreases v.len() - i,
    {
        out.push((v[i].0.clone(), v[i].1.clone()));
        i += 1;
    }
    out
}

/// A remote worker endpoint.
#[derive(Debug)]
pub struct Remote {
    /// Where it listens.
    pub endpoint: String,
    /// The systems whose derivations it accepts; all when empty.
    pub systems: Vec<String>,
    /// How many workers to run there.
    pub workers: usize,
    /// The shared secret, if it asks for one.
    pub token: Option<String>,
}

/// What a [`Remote`] says.
#[verifier::ext_equal]
pub struct RemoteView {
    /// See [`Remote::endpoint`].
    pub endpoint: Seq<char>,
    /// See [`Remote::systems`].
    pub systems: Seq<Seq<char>>,
    /// See [`Remote::workers`].
    pub workers: usize,
    /// See [`Remote::token`].
    pub token: Option<Seq<char>>,
}

impl View for Remote {
    type V = RemoteView;

    open spec fn view(&self) -> RemoteView {
        RemoteView {
            endpoint: self.endpoint@,
            systems: texts(self.systems@),
            workers: self.workers,
            token: text_opt(self.token),
        }
    }
}

impl Clone for Remote {
    fn clone(&self) -> (r: Self)
        ensures
            r@ == self@,
    {
        Remote {
            endpoint: self.endpoint.clone(),
            systems: copy_texts(&self.systems),
            workers: self.workers,
            token: self.token.clone(),
        }
    }
}

/// The endpoints of a list.
pub open spec fn remotes_view(v: Seq<Remote>) -> Seq<RemoteView> {
    v.map_values(|r: Remote| r@)
}

/// A copy of a list of endpoints.
pub fn copy_remotes(v: &Vec<Remote>) -> (r: Vec<Remote>)
    ensures
        remotes_view(r@) == remotes_view(v@),
{
    let mut out: Vec<Remote> = Vec::new();
    let mut i: usize = 0;
    while i < v.len()
        invariant
            i <= v.len(),
            remotes_view(out@) == remotes_view(v@).take(i as int),
        decreases v.len() - i,
    {
        let ghost before = remotes_view(out@);
        let item = v[i].clone();
        out.push(item);
        proof {
            assert(remotes_view(out@) == before.push(item@));
        }
        i += 1;
    }
    out
}

/// A derivation that evaluation found.
#[derive(Debug)]
pub struct Derivation {
    /// The attribute path, joined with dots.
    pub attr: String,
    /// The attribute path.
    pub attr_path: Vec<String>,
    /// The derivation's name.
    pub name: String,
    /// The system that it is for.
    pub system: String,
    /// The store path of its `.drv` file.
    pub drv_path: String,
    /// The store path of each output, where it could be resolved.
    pub outputs: OrderedMap<String, Option<String>>,
    /// Its `meta` attribute.
    pub meta: Option<serde_json::Value>,
    /// The outputs used of each input derivation.
    pub input_drvs: OrderedMap<String, Vec<String>>,
    /// The constituents of an aggregate job.
    pub constituents: Option<Vec<String>>,
    /// Why its garbage-collector root could not be registered.
    pub gc_root_error: Option<String>,
}

/// What a [`Derivation`] says.
#[verifier::ext_equal]
pub struct DerivationView {
    /// See [`Derivation::attr`].
    pub attr: Seq<char>,
    /// See [`Derivation::attr_path`].
    pub attr_path: Seq<Seq<char>>,
    /// See [`Derivation::name`].
    pub name: Seq<char>,
    /// See [`Derivation::system`].
    pub system: Seq<char>,
    /// See [`Derivation::drv_path`].
    pub drv_path: Seq<char>,
    /// See [`Derivation::outputs`].
    pub outputs: Map<Seq<char>, Option<Seq<char>>>,
    /// See [`Derivation::meta`].
    pub meta: Option<Json>,
    /// See [`Derivation::input_drvs`].
    pub input_drvs: Map<Seq<char>, Seq<Seq<char>>>,
    /// See [`Derivation::constituents`].
    pub constituents: Option<Seq<Seq<char>>>,
    /// See [`Derivation::gc_root_error`].
    pub gc_root_error: Option<Seq<char>>,
}

/// The output paths of a map.
pub open spec fn outputs_view(m: Map<Seq<char>, Option<String>>) -> Map<
    Seq<char>,
    Option<Seq<char>>,
> {
    m.map_values(|p: Option<String>| text_opt(p))
}

/// The output names of a map.
pub open spec fn input_drvs_view(m: Map<Seq<char>, Vec<String>>) -> Map<
    Seq<char>,
    Seq<Seq<char>>,
> {
    m.map_values(|v: Vec<String>| texts(v@))
}

/// The texts of an optional list.
pub open spec fn texts_opt(v: Option<Vec<String>>) -> Option<Seq<Seq<char>>> {
    match v {
        Some(v) => Some(texts(v@)),
        None => None,
    }
}

impl View for Derivation {
    type V = DerivationView;

    open spec fn view(&self) -> DerivationView {
        DerivationView {
            attr: self.attr@,
            attr_path: texts(self.attr_path@),
            name: self.name@,
            system: self.system@,
            drv_path: self.drv_path@,
            outputs: outputs_view(self.outputs@),
            meta: json_opt(self.meta),
            input_drvs: input_drvs_view(self.input_drvs@),
            constituents: texts_opt(self.constituents),
            gc_root_error: text_opt(self.gc_root_error),
        }
    }
}

/// A copy of an optional list of texts.
pub fn copy_texts_opt(v: &Option<Vec<String>>) -> (r: Option<Vec<String>>)
    ensures
        texts_opt(r) == texts_opt(*v),
{
    match v {
        Some(v) => Some(copy_texts(v)),
        None => None,
    }
}

/// A copy of an optional JSON value.
pub fn copy_json_opt(v: &Option<serde_json::Value>) -> (r: Option<serde_json::Value>)
    ensures
        json_opt(r) == json_opt(*v),
{
    match v {
        Some(v) => Some(copy_json(v)),
        None => None,
    }
}

impl Clone for Derivation {
    fn clone(&self) -> (r: Self)
        ensures
            r@ == self@,
    {
        let r = Derivation {
            attr: self.attr.clone(),
            attr_path: copy_texts(&self.attr_path),
            name: self.name.clone(),
            system: self.system.clone(),
            drv_path: self.drv_path.clone(),
            outputs: self.outputs.copy(),
            meta: copy_json_opt(&self.meta),
            input_drvs: self.input_drvs.copy(),
            constituents: copy_texts_opt(&self.constituents),
            gc_root_error: self.gc_root_error.clone(),
        };
        proof {
            assert forall|k: Seq<char>| #[trigger] self.outputs@.contains_key(k) implies text_opt(
                self.outputs@[k],
            ) == text_opt(r.outputs@[k]) by {
                assert(cloned::<Option<String>>(self.outputs@[k], r.outputs@[k]));
            }
            assert forall|k: Seq<char>| #[trigger] self.input_drvs@.contains_key(k) implies texts(
                self.input_drvs@[k]@,
            ) == texts(r.input_drvs@[k]@) by {
                let a = self.input_drvs@[k];
                let b = r.input_drvs@[k];
                assert(cloned::<Vec<String>>(a, b));
                assert forall|i: int| 0 <= i < a@.len() implies a@[i] == b@[i] by {
                    assert(cloned::<String>(a@[i], b@[i]));
                }
                assert(texts(a@) =~= texts(b@));
            }
            assert(outputs_view(self.outputs@) =~= outputs_view(r.outputs@));
            assert(input_drvs_view(self.input_drvs@) =~= input_drvs_view(r.input_drvs@));
        }
        r
    }
}

/// An attribute that could not be evaluated.
#[derive(Debug)]
pub struct EvalError {
    /// The attribute path, joined with dots.
    pub attr: String,
    /// The attribute path.
    pub attr_path: Vec<String>,
    /// What went wrong.
    pub error: String,
    /// Whether the whole evaluation fails with it.
    pub fatal: bool,
}

/// What an [`EvalError`] says.
#[verifier::ext_equal]
pub struct EvalErrorView {
    /// See [`EvalError::attr`].
    pub attr: Seq<char>,
    /// See [`EvalError::attr_path`].
    pub attr_path: Seq<Seq<char>>,
    /// See [`EvalError::error`].
    pub error: Seq<char>,
    /// See [`EvalError::fatal`].
    pub fatal: bool,
}

impl View for EvalError {
    type V = EvalErrorView;

    open spec fn view(&self) -> EvalErrorView {
        EvalErrorView {
            attr: self.attr@,
            attr_path: texts(self.attr_path@),
            error: self.error@,
            fatal: self.fatal,
        }
    }
}

impl Clone for EvalError {
    fn clone(&self) -> (r: Self)
        ensures
            r@ == self@,
    {
        EvalError {
            attr: self.attr.clone(),
            attr_path: copy_texts(&self.attr_path),
            error: self.error.clone(),
            fatal: self.fatal,
        }
    }
}

/// The errors of a list.
pub open spec fn errors_view(v: Seq<EvalError>) -> Seq<EvalErrorView> {
    v.map_values(|e: EvalError| e@)
}

/// A copy of a list of errors.
pub fn copy_errors(v: &Vec<EvalError>) -> (r: Vec<EvalError>)
    ensures
        errors_view(r@) == errors_view(v@),
{
    let mut out: Vec<EvalError> = Vec::new();
    let mut i: usize = 0;
    while i < v.len()
        invariant
            i <= v.len(),
            errors_view(out@) == errors_view(v@).take(i as int),
        decreases v.len() - i,
    {
        let ghost before = errors_view(out@);
        let item = v[i].clone();
        out.push(item);
        proof {
            assert(errors_view(out@) == before.push(item@));
        }
        i += 1;
    }
    out
}

/// What the evaluation of one attribute path yields.
#[derive(Debug)]
pub enum Event {
    /// The attribute is a derivation.
    Derivation(Derivation),
    /// The attribute is an attribute set, whose children are to be evaluated.
    AttrSet { attr: String, attr_path: Vec<String>, attrs: Vec<String> },
    /// The attribute could not be evaluated.
    Error(EvalError),
}

/// What an [`Event`] says.
pub enum EventView {
    /// See [`Event::Derivation`].
    Derivation(DerivationView),
    /// See [`Event::AttrSet`].
    AttrSet { attr: Seq<char>, attr_path: Seq<Seq<char>>, attrs: Seq<Seq<char>> },
    /// See [`Event::Error`].
    Error(EvalErrorView),
}

impl View for Event {
    type V = EventView;

    open spec fn view(&self) -> EventView {
        match *self {
            Event::Derivation(d) => EventView::Derivation(d@),
            Event::AttrSet { attr, attr_path, attrs } => EventView::AttrSet {
                attr: attr@,
                attr_path: texts(attr_path@),
                attrs: texts(attrs@),
            },
            Event::Error(e) => EventView::Error(e@),
        }
    }
}

impl Clone for Event {
    fn clone(&self) -> (r: Self)
        ensures
            r@ == self@,
    {
        match self {
            Event::Derivation(d) => Event::Derivation(d.clone()),
            Event::AttrSet { attr, attr_path, attrs } => Event::AttrSet {
                attr: attr.clone(),
                attr_path: copy_texts(attr_path),
                attrs: copy_texts(attrs),
            },
            Event::Error(e) => Event::Error(e.clone()),
        }
    }
}

/// Which derivations a query asks for.
#[derive(Debug)]
pub struct Filter {
    /// What the dotted attribute path begins with.
    pub attr_prefix: Option<String>,
    /// The system that the derivation is for.
    pub system: Option<String>,
}

/// What a [`Filter`] says.
#[verifier::ext_equal]
pub struct FilterView {
    /// See [`Filter::attr_prefix`].
    pub attr_prefix: Option<Seq<char>>,
    /// See [`Filter::system`].
    pub system: Option<Seq<char>>,
}

impl View for Filter {
    type V = FilterView;

    open spec fn view(&self) -> FilterView {
        FilterView { attr_prefix: text_opt(self.attr_prefix), system: text_opt(self.system) }
    }
}

impl Clone for Filter {
    fn clone(&self) -> (r: Self)
        ensures
            r@ == self@,
    {
        Filter { attr_prefix: self.attr_prefix.clone(), system: self.system.clone() }
    }
}

impl Default for Filter {
    fn default() -> (r: Self)
        ensures
            r@ == (FilterView { attr_prefix: None, system: None }),
    {
        Filter { attr_prefix: None, system: None }
    }
}

impl FilterView {
    /// Whether a derivation is asked for: each part that the filter names must match.
    pub open spec fn matches(self, d: DerivationView) -> bool {
        &&& self.attr_prefix matches Some(p) ==> crate::text::has_prefix(d.attr, p)
        &&& self.system matches Some(s) ==> d.system == s
    }
}

/// Whether `filter` asks for `drv`.
pub fn matches_filter(drv: &Derivation, filter: &Filter) -> (r: bool)
    ensures
        r == filter@.matches(drv@),
{
    let prefix_matches: bool = match &filter.attr_prefix {
        Some(prefix) => starts_with(drv.attr.as_str(), prefix.as_str()),
        None => true,
    };
    let system_matches: bool = match &filter.system {
        Some(system) => same(drv.system.as_str(), system.as_str()),
        None => true,
    };
    prefix_matches && system_matches
}

/// The derivations of a list.
pub open spec fn derivations_view(v: Seq<Derivation>) -> Seq<DerivationView> {
    v.map_values(|d: Derivation| d@)
}

/// A copy of a list of derivations.
pub fn copy_derivations(v: &Vec<Derivation>) -> (r: Vec<Derivation>)
    ensures
        derivations_view(r@) == derivations_view(v@),
{
    let mut out: Vec<Derivation> = Vec::new();
    let mut i: usize = 0;
    while i < v.len()
        invariant
            i <= v.len(),
            derivations_view(out@) == derivations_view(v@).take(i as int),
        decreases v.len() - i,
    {
        let ghost before = derivations_view(out@);
        let item = v[i].clone();
        out.push(item);
        proof {
            assert(derivations_view(out@) == before.push(item@));
        }
        i += 1;
    }
    out
}

/// What changed between two evaluations.
#[derive(Debug)]
pub struct Diff {
    /// The derivations that only the later one has, in the order of their paths.
    pub added: Vec<Derivation>,
    /// The derivations that only the earlier one has, in the order of their paths.
    pub removed: Vec<Derivation>,
    /// The later one's derivations at paths where both have one, with different store paths.
    pub changed: Vec<Derivation>,
    /// The later one's errors.
    pub errors: Vec<EvalError>,
}

/// What a [`Diff`] says.
#[verifier::ext_equal]
pub struct DiffView {
    /// See [`Diff::added`].
    pub added: Seq<DerivationView>,
    /// See [`Diff::removed`].
    pub removed: Seq<DerivationView>,
    /// See [`Diff::changed`].
    pub changed: Seq<DerivationView>,
    /// See [`Diff::errors`].
    pub errors: Seq<EvalErrorView>,
}

impl View for Diff {
    type V = DiffView;

    open spec fn view(&self) -> DiffView {
        DiffView {
            added: derivations_view(self.added@),
            removed: derivations_view(self.removed@),
            changed: derivations_view(self.changed@),
            errors: errors_view(self.errors@),
        }
    }
}

impl Clone for Diff {
    fn clone(&self) -> (r: Self)
        ensures
            r@ == self@,
    {
        Diff {
            added: copy_derivations(&self.added),
            removed: copy_derivations(&self.removed),
            changed: copy_derivations(&self.changed),
            errors: copy_errors(&self.errors),
        }
    }
}

/// What a derivation, an error and a filter say is what stands in their fields, each under its
/// own name.
pub proof fn law_models_say_their_fields(d: Derivation, e: EvalError, f: Filter, r: Remote)
    ensures
        d@.attr == d.attr@,
        d@.attr_path == texts(d.attr_path@),
        d@.name == d.name@,
        d@.system == d.system@,
        d@.drv_path == d.drv_path@,
        d@.outputs == outputs_view(d.outputs@),
        d@.meta == json_opt(d.meta),
        d@.input_drvs == input_drvs_view(d.input_drvs@),
        d@.constituents == texts_opt(d.constituents),
        d@.gc_root_error == text_opt(d.gc_root_error),
        e@.attr == e.attr@,
        e@.attr_path == texts(e.attr_path@),
        e@.error == e.error@,
        e@.fatal == e.fatal,
        f@.attr_prefix == text_opt(f.attr_prefix),
        f@.system == text_opt(f.system),
        r@.endpoint == r.endpoint@,
        r@.systems == texts(r.systems@),
        r@.workers == r.workers,
        r@.token == text_opt(r.token),
{
}

/// Lists say their items, in order, and maps their entries: every name keeps its value.
pub proof fn law_lists_say_their_items(
    args: Seq<(String, AutoArg)>,
    pairs: Seq<(String, String)>,
    words: Seq<String>,
    outputs: Map<Seq<char>, Option<String>>,
    inputs: Map<Seq<char>, Vec<String>>,
    i: int,
    k: Seq<char>,
)
    ensures
        args_view(args).len() == args.len(),
        0 <= i < args.len() ==> args_view(args)[i] == (args[i].0@, args[i].1@),
        pairs_view(pairs).len() == pairs.len(),
        0 <= i < pairs.len() ==> pairs_view(pairs)[i] == (pairs[i].0@, pairs[i].1@),
        texts(words).len() == words.len(),
        0 <= i < words.len() ==> texts(words)[i] == words[i]@,
        outputs_view(outputs).dom() == outputs.dom(),
        outputs.contains_key(k) ==> outputs_view(outputs)[k] == text_opt(outputs[k]),
        input_drvs_view(inputs).dom() == inputs.dom(),
        inputs.contains_key(k) ==> input_drvs_view(inputs)[k] == texts(inputs[k]@),
{
    assert(outputs_view(outputs).dom() =~= outputs.dom());
    assert(input_drvs_view(inputs).dom() =~= inputs.dom());
}

/// A derivation is asked for exactly where its dotted path begins with the prefix of the filter
/// and its system is that of the filter, as far as the filter names them.
pub proof fn law_filters_ask_for_prefix_and_system(
    d: DerivationView,
    prefix: Seq<char>,
    system: Seq<char>,
)
    ensures
        (FilterView { attr_prefix: None, system: None }).matches(d),
        (FilterView { attr_prefix: Some(prefix), system: None }).matches(d) <==> prefix.len()
            <= d.attr.len() && d.attr.take(prefix.len() as int) == prefix,
        (FilterView { attr_prefix: None, system: Some(system) }).matches(d) <==> d.system == system,
        (FilterView { attr_prefix: Some(prefix), system: Some(system) }).matches(d) <==> (FilterView {
            attr_prefix: Some(prefix),
            system: None,
        }).matches(d) && d.system == system,
{
}

/// What an input, an argument, an event and a diff say is what stands in them.
pub proof fn law_events_say_what_they_hold(
    text: String,
    d: Derivation,
    e: EvalError,
    path: Vec<String>,
    names: Vec<String>,
    diff: Diff,
    i: int,
)
    ensures
        Input::Flake(text)@ == InputView::Flake(text@),
        Input::Expr(text)@ == InputView::Expr(text@),
        Input::File(text)@ == InputView::File(text@),
        AutoArg::Expr(text)@ == AutoArgView::Expr(text@),
        AutoArg::Str(text)@ == AutoArgView::Str(text@),
        Event::Derivation(d)@ == EventView::Derivation(d@),
        Event::Error(e)@ == EventView::Error(e@),
        (Event::AttrSet { attr: text, attr_path: path, attrs: names })@ == (EventView::AttrSet {
            attr: text@,
            attr_path: texts(path@),
            attrs: texts(names@),
        }),
        diff@.added.len() == diff.added@.len(),
        diff@.removed.len() == diff.removed@.len(),
        diff@.changed.len() == diff.changed@.len(),
        diff@.errors.len() == diff.errors@.len(),
        0 <= i < diff.added@.len() ==> diff@.added[i] == diff.added@[i]@,
        0 <= i < diff.removed@.len() ==> diff@.removed[i] == diff.removed@[i]@,
        0 <= i < diff.changed@.len() ==> diff@.changed[i] == diff.changed@[i]@,
        0 <= i < diff.errors@.len() ==> diff@.errors[i] == diff.errors@[i]@,
{
}

} // verus!
