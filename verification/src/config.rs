//! The configuration of an evaluation, as callers, clients and workers see it.

use vstd::prelude::*;

use crate::error::ErrorChain;
use crate::model::{
    args_view, copy_args, copy_pairs, copy_remotes, pairs_view, remotes_view, AutoArg, AutoArgView,
    Input, InputView, Remote, RemoteView,
};
use crate::protocol;
use crate::text::{concat3, text_opt};

verus! {

/// The per-attribute timeout of a configuration that names none, in seconds.
pub const DEFAULT_ITEM_TIMEOUT_SECONDS: u64 = 600;

/// The number of local workers of a configuration that names none.
pub const DEFAULT_WORKERS: usize = 1;

/// The memory limit of a configuration that names none, in mebibytes.
pub const DEFAULT_MAX_MEMORY_SIZE: usize = 4096;

/// Configuration for an evaluation session.
#[derive(Debug)]
pub struct Config {
    /// What to evaluate.
    pub input: Input,
    /// Arguments for the functions that evaluation calls by itself.
    pub auto_args: Vec<(String, AutoArg)>,
    /// Recurse into all attribute sets, ignoring `recurseForDerivations`.
    pub force_recurse: bool,
    /// Where to register garbage-collector roots.
    pub gc_roots_dir: Option<String>,
    /// How many local workers to run.
    pub workers: usize,
    /// The memory limit of a worker, in mebibytes.
    pub max_memory_size: usize,
    /// Per-attribute evaluation timeout in seconds.
    pub item_timeout_seconds: u64,
    /// Attach each derivation's `meta` attribute to emitted derivations.
    pub meta: bool,
    /// Attach input derivations read from the store.
    pub show_input_drvs: bool,
    /// Flake input overrides applied while locking, as pairs of input path and reference.
    pub override_inputs: Vec<(String, String)>,
    /// Nix settings applied to the evaluation context before evaluation.
    pub nix_options: Vec<(String, String)>,
    /// Remote worker endpoints available to the master.
    pub remotes: Vec<Remote>,
    /// Worker executable used for local worker subprocesses.
    pub worker_exe: Option<String>,
}

/// The part of a configuration that travels to a daemon.
#[verifier::ext_equal]
pub struct WireView {
    /// See [`Config::input`].
    pub input: InputView,
    /// See [`Config::auto_args`].
    pub auto_args: Seq<(Seq<char>, AutoArgView)>,
    /// See [`Config::force_recurse`].
    pub force_recurse: bool,
    /// See [`Config::gc_roots_dir`].
    pub gc_roots_dir: Option<Seq<char>>,
    /// See [`Config::workers`].
    pub workers: usize,
    /// See [`Config::max_memory_size`].
    pub max_memory_size: usize,
    /// See [`Config::item_timeout_seconds`].
    pub item_timeout_seconds: u64,
    /// See [`Config::meta`].
    pub meta: bool,
    /// See [`Config::show_input_drvs`].
    pub show_input_drvs: bool,
    /// See [`Config::override_inputs`].
    pub override_inputs: Seq<(Seq<char>, Seq<char>)>,
    /// See [`Config::nix_options`].
    pub nix_options: Seq<(Seq<char>, Seq<char>)>,
    /// See [`Config::remotes`].
    pub remotes: Seq<RemoteView>,
}

/// What a [`Config`] says.
#[verifier::ext_equal]
pub struct ConfigView {
    /// The part that travels to a daemon.
    pub wire: WireView,
    /// See [`Config::worker_exe`].
    pub worker_exe: Option<Seq<char>>,
}

impl View for Config {
    type V = ConfigView;

    open spec fn view(&self) -> ConfigView {
        ConfigView {
            wire: WireView {
                input: self.input@,
                auto_args: args_view(self.auto_args@),
                force_recurse: self.force_recurse,
                gc_roots_dir: text_opt(self.gc_roots_dir),
                workers: self.workers,
                max_memory_size: self.max_memory_size,
                item_timeout_seconds: self.item_timeout_seconds,
                meta: self.meta,
                show_input_drvs: self.show_input_drvs,
                override_inputs: pairs_view(self.override_inputs@),
                nix_options: pairs_view(self.nix_options@),
                remotes: remotes_view(self.remotes@),
            },
            worker_exe: text_opt(self.worker_exe),
        }
    }
}

impl ConfigView {
    /// The configuration that evaluates `input` and is the default in everything else.
    pub open spec fn of_input(input: InputView) -> ConfigView {
        ConfigView {
            wire: WireView {
                input,
                auto_args: Seq::empty(),
                force_recurse: false,
                gc_roots_dir: None,
                workers: DEFAULT_WORKERS,
                max_memory_size: DEFAULT_MAX_MEMORY_SIZE,
                item_timeout_seconds: DEFAULT_ITEM_TIMEOUT_SECONDS,
                meta: false,
                show_input_drvs: false,
                override_inputs: Seq::empty(),
                nix_options: Seq::empty(),
                remotes: Seq::empty(),
            },
            worker_exe: None,
        }
    }

    /// This configuration with another part that travels.
    pub open spec fn with_wire(self, wire: WireView) -> ConfigView {
        ConfigView { wire, worker_exe: self.worker_exe }
    }
}

impl Default for Config {
    fn default() -> (r: Self)
        ensures
            r@ == ConfigView::of_input(InputView::Expr("{}"@)),
    {
        Config::of_input(Input::Expr("{}".to_owned()))
    }
}

impl Clone for Config {
    fn clone(&self) -> (r: Self)
        ensures
            r@ == self@,
    {
        Config {
            input: self.input.clone(),
            auto_args: copy_args(&self.auto_args),
            force_recurse: self.force_recurse,
            gc_roots_dir: self.gc_roots_dir.clone(),
            workers: self.workers,
            max_memory_size: self.max_memory_size,
            item_timeout_seconds: self.item_timeout_seconds,
            meta: self.meta,
            show_input_drvs: self.show_input_drvs,
            override_inputs: copy_pairs(&self.override_inputs),
            nix_options: copy_pairs(&self.nix_options),
            remotes: copy_remotes(&self.remotes),
            worker_exe: self.worker_exe.clone(),
        }
    }
}

impl Config {
    fn of_input(input: Input) -> (r: Self)
        ensures
            r@ == ConfigView::of_input(input@),
    {
        Config {
            input,
            auto_args: Vec::new(),
            force_recurse: false,
            gc_roots_dir: None,
            workers: DEFAULT_WORKERS,
            max_memory_size: DEFAULT_MAX_MEMORY_SIZE,
            item_timeout_seconds: default_item_timeout_seconds(),
            meta: false,
            show_input_drvs: false,
            override_inputs: Vec::new(),
            nix_options: Vec::new(),
            remotes: Vec::new(),
            worker_exe: None,
        }
    }

    /// Create a config that evaluates a Nix expression string.
    #[must_use]
    pub fn expr(expr: &str) -> (r: Self)
        ensures
            r@ == ConfigView::of_input(InputView::Expr(expr@)),
    {
        Config::of_input(Input::Expr(expr.to_owned()))
    }

    /// Create a config that evaluates a Nix file path.
    #[must_use]
    pub fn file(path: &str) -> (r: Self)
        ensures
            r@ == ConfigView::of_input(InputView::File(path@)),
    {
        Config::of_input(Input::File(path.to_owned()))
    }

    /// Create a config that evaluates a flake reference.
    #[must_use]
    pub fn flake(reference: &str) -> (r: Self)
        ensures
            r@ == ConfigView::of_input(InputView::Flake(reference@)),
    {
        Config::of_input(Input::Flake(reference.to_owned()))
    }

    /// Start a chainable builder from this config.
    #[must_use]
    pub fn builder(self) -> (r: ConfigBuilder)
        ensures
            r@ == self@,
    {
        ConfigBuilder { config: self }
    }
}

/// Chainable builder for [`Config`].
#[derive(Debug)]
pub struct ConfigBuilder {
    config: Config,
}

impl View for ConfigBuilder {
    type V = ConfigView;

    closed spec fn view(&self) -> ConfigView {
        self.config@
    }
}

impl Clone for ConfigBuilder {
    fn clone(&self) -> (r: Self)
        ensures
            r@ == self@,
    {
        ConfigBuilder { config: self.config.clone() }
    }
}

impl ConfigBuilder {
    /// Start a builder for a Nix expression input.
    #[must_use]
    pub fn expr(expr: &str) -> (r: Self)
        ensures
            r@ == ConfigView::of_input(InputView::Expr(expr@)),
    {
        Config::expr(expr).builder()
    }

    /// Start a builder for a Nix file input.
    #[must_use]
    pub fn file(path: &str) -> (r: Self)
        ensures
            r@ == ConfigView::of_input(InputView::File(path@)),
    {
        Config::file(path).builder()
    }

    /// Start a builder for a flake reference input.
    #[must_use]
    pub fn flake(reference: &str) -> (r: Self)
        ensures
            r@ == ConfigView::of_input(InputView::Flake(reference@)),
    {
        Config::flake(reference).builder()
    }

    /// Recurse into all attribute sets or not.
    #[must_use]
    pub fn force_recurse(self, enabled: bool) -> (r: Self)
        ensures
            r@ == self@.with_wire(WireView { force_recurse: enabled, ..self@.wire }),
    {
        let mut config = self.config;
        config.force_recurse = enabled;
        ConfigBuilder { config }
    }

    /// Register garbage-collector roots in this directory.
    #[must_use]
    pub fn gc_roots_dir(self, path: &str) -> (r: Self)
        ensures
            r@ == self@.with_wire(WireView { gc_roots_dir: Some(path@), ..self@.wire }),
    {
        let mut config = self.config;
        config.gc_roots_dir = Some(path.to_owned());
        ConfigBuilder { config }
    }

    /// Run this many local workers.
    #[must_use]
    pub fn workers(self, workers: usize) -> (r: Self)
        ensures
            r@ == self@.with_wire(WireView { workers, ..self@.wire }),
    {
        let mut config = self.config;
        config.workers = workers;
        ConfigBuilder { config }
    }

    /// Limit the memory of a worker to this many mebibytes.
    #[must_use]
    pub fn max_memory_size(self, size: usize) -> (r: Self)
        ensures
            r@ == self@.with_wire(WireView { max_memory_size: size, ..self@.wire }),
    {
        let mut config = self.config;
        config.max_memory_size = size;
        ConfigBuilder { config }
    }

    /// Limit the evaluation of one attribute to this many seconds.
    #[must_use]
    pub fn item_timeout_seconds(self, seconds: u64) -> (r: Self)
        ensures
            r@ == self@.with_wire(WireView { item_timeout_seconds: seconds, ..self@.wire }),
    {
        let mut config = self.config;
        config.item_timeout_seconds = seconds;
        ConfigBuilder { config }
    }

    /// Attach `meta` attributes or not.
    #[must_use]
    pub fn meta(self, enabled: bool) -> (r: Self)
        ensures
            r@ == self@.with_wire(WireView { meta: enabled, ..self@.wire }),
    {
        let mut config = self.config;
        config.meta = enabled;
        ConfigBuilder { config }
    }

    /// Attach input derivations or not.
    #[must_use]
    pub fn show_input_drvs(self, enabled: bool) -> (r: Self)
        ensures
            r@ == self@.with_wire(WireView { show_input_drvs: enabled, ..self@.wire }),
    {
        let mut config = self.config;
        config.show_input_drvs = enabled;
        ConfigBuilder { config }
    }

    /// Add an argument that is a Nix expression.
    #[must_use]
    pub fn auto_arg_expr(self, name: &str, value: &str) -> (r: Self)
        ensures
            r@ == self@.with_wire(
                (WireView {
                    auto_args: self@.wire.auto_args.push((name@, AutoArgView::Expr(value@))),
                    ..self@.wire
                }),
            ),
    {
        let mut config = self.config;
        let ghost before = config.auto_args@;
        config.auto_args.push((name.to_owned(), AutoArg::Expr(value.to_owned())));
        proof {
            assert(args_view(config.auto_args@) =~= args_view(before).push(
                (name@, AutoArgView::Expr(value@)),
            ));
        }
        ConfigBuilder { config }
    }

    /// Add an argument that is a string.
    #[must_use]
    pub fn auto_arg_str(self, name: &str, value: &str) -> (r: Self)
        ensures
            r@ == self@.with_wire(
                (WireView {
                    auto_args: self@.wire.auto_args.push((name@, AutoArgView::Str(value@))),
                    ..self@.wire
                }),
            ),
    {
        let mut config = self.config;
        let ghost before = config.auto_args@;
        config.auto_args.push((name.to_owned(), AutoArg::Str(value.to_owned())));
        proof {
            assert(args_view(config.auto_args@) =~= args_view(before).push(
                (name@, AutoArgView::Str(value@)),
            ));
        }
        ConfigBuilder { config }
    }

    /// Add a flake input override.
    #[must_use]
    pub fn override_input(self, name: &str, reference: &str) -> (r: Self)
        ensures
            r@ == self@.with_wire(
                (WireView {
                    override_inputs: self@.wire.override_inputs.push((name@, reference@)),
                    ..self@.wire
                }),
            ),
    {
        let mut config = self.config;
        let ghost before = config.override_inputs@;
        config.override_inputs.push((name.to_owned(), reference.to_owned()));
        proof {
            assert(pairs_view(config.override_inputs@) =~= pairs_view(before).push(
                (name@, reference@),
            ));
        }
        ConfigBuilder { config }
    }

    /// Add a Nix setting.
    #[must_use]
    pub fn nix_option(self, key: &str, value: &str) -> (r: Self)
        ensures
            r@ == self@.with_wire(
                (WireView {
                    nix_options: self@.wire.nix_options.push((key@, value@)),
                    ..self@.wire
                }),
            ),
    {
        let mut config = self.config;
        let ghost before = config.nix_options@;
        config.nix_options.push((key.to_owned(), value.to_owned()));
        proof {
            assert(pairs_view(config.nix_options@) =~= pairs_view(before).push((key@, value@)));
        }
        ConfigBuilder { config }
    }

    /// Add a remote worker endpoint.
    #[must_use]
    pub fn remote(self, remote: Remote) -> (r: Self)
        ensures
            r@ == self@.with_wire(
                (WireView { remotes: self@.wire.remotes.push(remote@), ..self@.wire }),
            ),
    {
        let mut config = self.config;
        let ghost before = config.remotes@;
        config.remotes.push(remote);
        proof {
            assert(remotes_view(config.remotes@) =~= remotes_view(before).push(remote@));
        }
        ConfigBuilder { config }
    }

    /// Use a dedicated executable for local worker subprocesses.
    #[must_use]
    pub fn worker_exe(self, path: &str) -> (r: Self)
        ensures
            r@ == (ConfigView { wire: self@.wire, worker_exe: Some(path@) }),
    {
        let mut config = self.config;
        config.worker_exe = Some(path.to_owned());
        ConfigBuilder { config }
    }

    /// The configuration as built.
    #[must_use]
    pub fn build(self) -> (r: Config)
        ensures
            r@ == self@,
    {
        self.config
    }
}

impl From<protocol::Config> for Config {
    fn from(config: protocol::Config) -> (r: Self)
        ensures
            r@ == (ConfigView { wire: config@, worker_exe: None }),
    {
        Config {
            input: config.input,
            auto_args: config.auto_args,
            force_recurse: config.force_recurse,
            gc_roots_dir: config.gc_roots_dir,
            workers: config.workers,
            max_memory_size: config.max_memory_size,
            item_timeout_seconds: config.item_timeout_seconds,
            meta: config.meta,
            show_input_drvs: config.show_input_drvs,
            override_inputs: config.override_inputs,
            nix_options: config.nix_options,
            remotes: config.remotes,
            worker_exe: None,
        }
    }
}

impl vstd::std_specs::convert::FromSpecImpl<protocol::Config> for Config {
    open spec fn obeys_from_spec() -> bool {
        true
    }

    open spec fn from_spec(config: protocol::Config) -> Config {
        Config {
            input: config.input,
            auto_args: config.auto_args,
            force_recurse: config.force_recurse,
            gc_roots_dir: config.gc_roots_dir,
            workers: config.workers,
            max_memory_size: config.max_memory_size,
            item_timeout_seconds: config.item_timeout_seconds,
            meta: config.meta,
            show_input_drvs: config.show_input_drvs,
            override_inputs: config.override_inputs,
            nix_options: config.nix_options,
            remotes: config.remotes,
            worker_exe: None,
        }
    }
}

impl From<&Config> for protocol::Config {
    fn from(config: &Config) -> (r: Self)
        ensures
            r@ == config@.wire,
    {
        protocol::Config {
            input: config.input.clone(),
            auto_args: copy_args(&config.auto_args),
            force_recurse: config.force_recurse,
            gc_roots_dir: config.gc_roots_dir.clone(),
            workers: config.workers,
            max_memory_size: config.max_memory_size,
            item_timeout_seconds: config.item_timeout_seconds,
            meta: config.meta,
            show_input_drvs: config.show_input_drvs,
            override_inputs: copy_pairs(&config.override_inputs),
            nix_options: copy_pairs(&config.nix_options),
            remotes: copy_remotes(&config.remotes),
        }
    }
}

impl vstd::std_specs::convert::FromSpecImpl<&Config> for protocol::Config {
    open spec fn obeys_from_spec() -> bool {
        false
    }

    open spec fn from_spec(config: &Config) -> protocol::Config {
        arbitrary()
    }
}

impl From<Config> for protocol::Config {
    fn from(config: Config) -> (r: Self)
        ensures
            r@ == config@.wire,
    {
        protocol::Config::from(&config)
    }
}

impl vstd::std_specs::convert::FromSpecImpl<Config> for protocol::Config {
    open spec fn obeys_from_spec() -> bool {
        false
    }

    open spec fn from_spec(config: Config) -> protocol::Config {
        arbitrary()
    }
}

fn default_item_timeout_seconds() -> (r: u64)
    ensures
        r == DEFAULT_ITEM_TIMEOUT_SECONDS,
{
    DEFAULT_ITEM_TIMEOUT_SECONDS
}

/// What a worker is told.
#[derive(Debug)]
pub struct WorkerConfig {
    /// What to evaluate.
    pub input: Input,
    /// Arguments for the functions that evaluation calls by itself.
    pub auto_args: Vec<(String, AutoArg)>,
    /// Recurse into all attribute sets.
    pub force_recurse: bool,
    /// Where to register garbage-collector roots.
    pub gc_roots_dir: Option<String>,
    /// The memory limit, in mebibytes.
    pub max_memory_size: usize,
    /// Per-attribute evaluation timeout in seconds.
    pub item_timeout_seconds: u64,
    /// Attach `meta` attributes.
    pub meta: bool,
    /// Attach input derivations.
    pub show_input_drvs: bool,
    /// Flake input overrides.
    pub override_inputs: Vec<(String, String)>,
    /// Nix settings.
    pub nix_options: Vec<(String, String)>,
    /// The locked flake graph that the master exported.
    pub locked_flake_json: Option<String>,
}

/// What a [`WorkerConfig`] says.
#[verifier::ext_equal]
pub struct WorkerConfigView {
    /// See [`WorkerConfig::input`].
    pub input: InputView,
    /// See [`WorkerConfig::auto_args`].
    pub auto_args: Seq<(Seq<char>, AutoArgView)>,
    /// See [`WorkerConfig::force_recurse`].
    pub force_recurse: bool,
    /// See [`WorkerConfig::gc_roots_dir`].
    pub gc_roots_dir: Option<Seq<char>>,
    /// See [`WorkerConfig::max_memory_size`].
    pub max_memory_size: usize,
    /// See [`WorkerConfig::item_timeout_seconds`].
    pub item_timeout_seconds: u64,
    /// See [`WorkerConfig::meta`].
    pub meta: bool,
    /// See [`WorkerConfig::show_input_drvs`].
    pub show_input_drvs: bool,
    /// See [`WorkerConfig::override_inputs`].
    pub override_inputs: Seq<(Seq<char>, Seq<char>)>,
    /// See [`WorkerConfig::nix_options`].
    pub nix_options: Seq<(Seq<char>, Seq<char>)>,
    /// See [`WorkerConfig::locked_flake_json`].
    pub locked_flake_json: Option<Seq<char>>,
}

impl View for WorkerConfig {
    type V = WorkerConfigView;

    open spec fn view(&self) -> WorkerConfigView {
        WorkerConfigView {
            input: self.input@,
            auto_args: args_view(self.auto_args@),
            force_recurse: self.force_recurse,
            gc_roots_dir: text_opt(self.gc_roots_dir),
            max_memory_size: self.max_memory_size,
            item_timeout_seconds: self.item_timeout_seconds,
            meta: self.meta,
            show_input_drvs: self.show_input_drvs,
            override_inputs: pairs_view(self.override_inputs@),
            nix_options: pairs_view(self.nix_options@),
            locked_flake_json: text_opt(self.locked_flake_json),
        }
    }
}

impl WireView {
    /// What workers are told of this configuration before the flake is locked.
    pub open spec fn for_workers(self) -> WorkerConfigView {
        WorkerConfigView {
            input: self.input,
            auto_args: self.auto_args,
            force_recurse: self.force_recurse,
            gc_roots_dir: self.gc_roots_dir,
            max_memory_size: self.max_memory_size,
            item_timeout_seconds: self.item_timeout_seconds,
            meta: self.meta,
            show_input_drvs: self.show_input_drvs,
            override_inputs: self.override_inputs,
            nix_options: self.nix_options,
            locked_flake_json: None,
        }
    }
}

impl From<&Config> for WorkerConfig {
    fn from(config: &Config) -> (r: Self)
        ensures
            r@ == config@.wire.for_workers(),
    {
        WorkerConfig {
            input: config.input.clone(),
            auto_args: copy_args(&config.auto_args),
            force_recurse: config.force_recurse,
            gc_roots_dir: config.gc_roots_dir.clone(),
            max_memory_size: config.max_memory_size,
            item_timeout_seconds: config.item_timeout_seconds,
            meta: config.meta,
            show_input_drvs: config.show_input_drvs,
            override_inputs: copy_pairs(&config.override_inputs),
            nix_options: copy_pairs(&config.nix_options),
            locked_flake_json: None,
        }
    }
}

impl vstd::std_specs::convert::FromSpecImpl<&Config> for WorkerConfig {
    open spec fn obeys_from_spec() -> bool {
        false
    }

    open spec fn from_spec(config: &Config) -> WorkerConfig {
        arbitrary()
    }
}

/// The message of a configuration that lets no attribute take any time.
pub open spec fn zero_timeout_text() -> Seq<char> {
    "item timeout must be greater than zero seconds"@
}

/// The message of an endpoint that is to run no workers.
pub open spec fn zero_workers_text(endpoint: Seq<char>) -> Seq<char> {
    "worker count for remote "@ + endpoint + " must be greater than zero"@
}

/// What is wrong with a configuration: its timeout, else the first endpoint without workers.
pub open spec fn config_fault(config: WireView) -> Option<Seq<char>> {
    if config.item_timeout_seconds == 0 {
        Some(zero_timeout_text())
    } else {
        remote_fault(config.remotes)
    }
}

/// The message of the first endpoint without workers.
pub open spec fn remote_fault(remotes: Seq<RemoteView>) -> Option<Seq<char>>
    decreases remotes.len(),
{
    if remotes.len() == 0 {
        None
    } else if remotes[0].workers == 0 {
        Some(zero_workers_text(remotes[0].endpoint))
    } else {
        remote_fault(remotes.skip(1))
    }
}

/// Rejects a configuration under which nothing could be evaluated.
pub fn validate_config(config: &Config) -> (r: Result<(), ErrorChain>)
    ensures
        match r {
            Ok(()) => config_fault(config@.wire) is None,
            Err(e) => config_fault(config@.wire) == Some(e@[0]) && e@.len() == 1,
        },
{
    if config.item_timeout_seconds == 0 {
        return Err(ErrorChain::new("item timeout must be greater than zero seconds"));
    }
    let mut i: usize = 0;
    proof {
        assert(config@.wire.remotes.skip(0) =~= config@.wire.remotes);
    }
    while i < config.remotes.len()
        invariant
            i <= config.remotes.len(),
            config.item_timeout_seconds != 0,
            config_fault(config@.wire) == remote_fault(config@.wire.remotes.skip(i as int)),
        decreases config.remotes.len() - i,
    {
        proof {
            let rest = config@.wire.remotes.skip(i as int);
            assert(rest[0] == config.remotes@[i as int]@);
            assert(rest.skip(1) =~= config@.wire.remotes.skip(i + 1));
        }
        if config.remotes[i].workers == 0 {
            return Err(
                ErrorChain::from_message(
                    concat3(
                        "worker count for remote ",
                        config.remotes[i].endpoint.as_str(),
                        " must be greater than zero",
                    ),
                ),
            );
        }
        i += 1;
    }
    Ok(())
}

/// A configuration is valid exactly when its timeout is positive and every endpoint runs a
/// worker; a missing token does not make it invalid.
pub proof fn law_config_validity(config: WireView)
    ensures
        config_fault(config) is None <==> config.item_timeout_seconds > 0 && forall|i: int|
            0 <= i < config.remotes.len() ==> (#[trigger] config.remotes[i]).workers > 0,
{
    lemma_remote_fault(config.remotes);
}

proof fn lemma_remote_fault(remotes: Seq<RemoteView>)
    ensures
        remote_fault(remotes) is None <==> forall|i: int|
            0 <= i < remotes.len() ==> (#[trigger] remotes[i]).workers > 0,
    decreases remotes.len(),
{
    if remotes.len() > 0 {
        let rest = remotes.skip(1);
        lemma_remote_fault(rest);
        if forall|i: int| 0 <= i < remotes.len() ==> (#[trigger] remotes[i]).workers > 0 {
            assert forall|i: int| 0 <= i < rest.len() implies (#[trigger] rest[i]).workers > 0 by {
                assert(rest[i] == remotes[i + 1]);
            }
        }
        if remote_fault(remotes) is None {
            assert forall|i: int| 0 <= i < remotes.len() implies (#[trigger] remotes[i]).workers
                > 0 by {
                if i > 0 {
                    assert(remotes[i] == rest[i - 1]);
                }
            }
        }
    }
}

/// A configuration that goes over the wire comes back as it was, without the local worker
/// executable.
pub proof fn law_wire_round_trip(config: Config, wire: protocol::Config, back: Config)
    requires
        wire@ == config@.wire,
        back@ == (ConfigView { wire: wire@, worker_exe: None }),
    ensures
        back@ == (ConfigView { wire: config@.wire, worker_exe: None }),
        config@.worker_exe is None ==> back@ == config@,
{
}

/// A configuration that names only its input evaluates that, with one worker, a limit of 4096
/// mebibytes and ten minutes for each attribute, and asks for nothing else.
pub proof fn law_defaults(input: InputView)
    ensures
        ({
            let c = ConfigView::of_input(input);
            &&& c.wire.input == input
            &&& c.wire.workers == 1
            &&& c.wire.max_memory_size == 4096
            &&& c.wire.item_timeout_seconds == 600
            &&& !c.wire.force_recurse && !c.wire.meta && !c.wire.show_input_drvs
            &&& c.wire.gc_roots_dir is None && c.worker_exe is None
            &&& c.wire.auto_args.len() == 0 && c.wire.override_inputs.len() == 0
            &&& c.wire.nix_options.len() == 0 && c.wire.remotes.len() == 0
        }),
{
}

/// Workers are told what to evaluate and how, each setting as it stands, and no locked graph
/// before there is one. How many workers there are, and where, is not for them.
pub proof fn law_workers_are_told_the_settings(wire: WireView)
    ensures
        wire.for_workers().input == wire.input,
        wire.for_workers().auto_args == wire.auto_args,
        wire.for_workers().force_recurse == wire.force_recurse,
        wire.for_workers().gc_roots_dir == wire.gc_roots_dir,
        wire.for_workers().max_memory_size == wire.max_memory_size,
        wire.for_workers().item_timeout_seconds == wire.item_timeout_seconds,
        wire.for_workers().meta == wire.meta,
        wire.for_workers().show_input_drvs == wire.show_input_drvs,
        wire.for_workers().override_inputs == wire.override_inputs,
        wire.for_workers().nix_options == wire.nix_options,
        wire.for_workers().locked_flake_json is None,
{
}

/// A change of the part that travels keeps the local worker executable, and nothing else.
pub proof fn law_with_wire(config: ConfigView, wire: WireView)
    ensures
        config.with_wire(wire).wire == wire,
        config.with_wire(wire).worker_exe == config.worker_exe,
{
}

/// What a configuration is refused for names the first thing wrong with it: a timeout of zero,
/// else the first endpoint that is to run no worker.
pub proof fn law_faults_name_the_first_wrong_setting(config: WireView, i: int)
    ensures
        config.item_timeout_seconds == 0 ==> config_fault(config) == Some(
            "item timeout must be greater than zero seconds"@,
        ),
        config.item_timeout_seconds > 0 && 0 <= i < config.remotes.len() && config.remotes[i].workers
            == 0 && (forall|j: int| 0 <= j < i ==> (#[trigger] config.remotes[j]).workers > 0)
            ==> config_fault(config) == Some(
            "worker count for remote "@ + config.remotes[i].endpoint + " must be greater than zero"@,
        ),
{
    if 0 <= i < config.remotes.len() {
        lemma_first_fault(config.remotes, i);
    }
}

proof fn lemma_first_fault(remotes: Seq<RemoteView>, i: int)
    requires
        0 <= i < remotes.len(),
    ensures
        remotes[i].workers == 0 && (forall|j: int|
            0 <= j < i ==> (#[trigger] remotes[j]).workers > 0) ==> remote_fault(remotes) == Some(
            zero_workers_text(remotes[i].endpoint),
        ),
    decreases i,
{
    if i > 0 && remotes[i].workers == 0 && (forall|j: int|
        0 <= j < i ==> (#[trigger] remotes[j]).workers > 0) {
        let rest = remotes.skip(1);
        assert(remotes[0].workers > 0);
        assert forall|j: int| 0 <= j < i - 1 implies (#[trigger] rest[j]).workers > 0 by {
            assert(rest[j] == remotes[j + 1]);
        }
        lemma_first_fault(rest, i - 1);
    }
}

/// What a configuration says is what stands in its fields, each under its own name.
pub proof fn law_configs_say_their_fields(config: Config, worker: WorkerConfig)
    ensures
        config@.wire.input == config.input@,
        config@.wire.force_recurse == config.force_recurse,
        config@.wire.workers == config.workers,
        config@.wire.max_memory_size == config.max_memory_size,
        config@.wire.item_timeout_seconds == config.item_timeout_seconds,
        config@.wire.meta == config.meta,
        config@.wire.show_input_drvs == config.show_input_drvs,
        config@.wire.gc_roots_dir == text_opt(config.gc_roots_dir),
        config@.worker_exe == text_opt(config.worker_exe),
        config@.wire.auto_args == args_view(config.auto_args@),
        config@.wire.override_inputs == pairs_view(config.override_inputs@),
        config@.wire.nix_options == pairs_view(config.nix_options@),
        config@.wire.remotes == remotes_view(config.remotes@),
        worker@.input == worker.input@,
        worker@.force_recurse == worker.force_recurse,
        worker@.max_memory_size == worker.max_memory_size,
        worker@.item_timeout_seconds == worker.item_timeout_seconds,
        worker@.meta == worker.meta,
        worker@.show_input_drvs == worker.show_input_drvs,
        worker@.gc_roots_dir == text_opt(worker.gc_roots_dir),
        worker@.auto_args == args_view(worker.auto_args@),
        worker@.override_inputs == pairs_view(worker.override_inputs@),
        worker@.nix_options == pairs_view(worker.nix_options@),
        worker@.locked_flake_json == text_opt(worker.locked_flake_json),
{
}

} // verus!
