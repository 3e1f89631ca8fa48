//! The planning session: which question comes next, and what follows from the
//! answer.
//!
//! Planning asks Nix and the stores many things. A [`Planner`] makes every
//! decision between two questions; putting the questions is the caller's part.
//! Each call of [`Planner::advance`] takes the answer to the last request and
//! gives the next request, or the finished plan.

use vstd::pervasive::{arbitrary, unreached};
use vstd::prelude::*;

use crate::error::{outcome, Error, ErrorView, Result};
use crate::planner::assembly::{
    assemble, counts_of, Evidence, Findings, InputsView, PlanInputs,
};
use crate::planner::frontier::{demand_outputs, expand_frontier, Outputs, Paths, Round};
use crate::planner::graph::{
    derivation_key, full_path, graph_of, key_of, parse_graph, parse_roots, roots_of, store_path,
    DerivationGraph, DerivationNode, EntryView, NodeView, OutputEntry, OutputPaths,
};
use crate::planner::identity::plan_id_of;
use crate::planner::order::{dependency_first, in_dependency_order};
use crate::planner::outputs::{
    all_known, all_loaded, check_loaded, check_resolved, dry_run_args, dry_run_command,
    flake_installable_for_toplevel, missing_derivations, missing_keys, outputs_to_probe,
    owning_flake, record_entries, resolve_output_paths, show_args, show_command, sorted_out,
    unprobed, unresolved, unresolved_outputs, with_entries, OutputRef,
};
use crate::planner::plan::{
    no_counts, ClosurePlan, CountsView, DerivationPlan, DerivationView, HintView, PlanCounts,
    PlanRoot, PlanView, ProbeResult, ProbeView, RootView, RouteHintSpec, PLAN_SCHEMA_VERSION,
};
use crate::planner::probes::{
    answers_of, availability_of, distinct, not_local, pending_outputs, probed_availability,
    reported, unique_stores, StoreView,
};
use crate::policy::RealizationPolicy;
use crate::sorted::{ascending, members_of, SortedMap, SortedSet};
use crate::text;

verus! {

/// Most derivations or outputs that one command asks for.
pub const PLAN_BATCH: usize = 256;

// ---------------------------------------------------------------------------
// Requests and replies
// ---------------------------------------------------------------------------

/// What the planner needs next.
#[derive(Debug, PartialEq, Eq)]
pub enum Request {
    /// Nothing; planning goes on.
    Proceed,
    /// The entries that a dry run of `nix` with these arguments reports.
    DryRun {
        /// Arguments of `nix`.
        args: Vec<String>,
        /// The command as it is shown.
        label: String,
    },
    /// The derivations that `nix` with these arguments shows.
    Show {
        /// Arguments of `nix`.
        args: Vec<String>,
        /// The command as it is shown.
        label: String,
    },
    /// Which of the outputs the local store has.
    ProbeLocal {
        /// Output paths.
        outputs: Vec<String>,
    },
    /// Which of the outputs each of the stores has.
    ProbeStores {
        /// Store URLs, no two the same.
        stores: Vec<String>,
        /// Output paths.
        outputs: Vec<String>,
    },
}

/// Model of a [`Request`].
#[verifier::ext_equal]
pub enum RequestView {
    Proceed,
    DryRun { args: Seq<Seq<char>>, label: Seq<char> },
    Show { args: Seq<Seq<char>>, label: Seq<char> },
    ProbeLocal { outputs: Seq<Seq<char>> },
    ProbeStores { stores: Seq<Seq<char>>, outputs: Seq<Seq<char>> },
}

impl View for Request {
    type V = RequestView;

    open spec fn view(&self) -> RequestView {
        match self {
            Request::Proceed => RequestView::Proceed,
            Request::DryRun { args, label } => RequestView::DryRun {
                args: args.deep_view(),
                label: label@,
            },
            Request::Show { args, label } => RequestView::Show {
                args: args.deep_view(),
                label: label@,
            },
            Request::ProbeLocal { outputs } => RequestView::ProbeLocal {
                outputs: outputs.deep_view(),
            },
            Request::ProbeStores { stores, outputs } => RequestView::ProbeStores {
                stores: stores.deep_view(),
                outputs: outputs.deep_view(),
            },
        }
    }
}

/// The answer to a [`Request`].
#[derive(Debug)]
pub enum Reply {
    /// Answer to [`Request::Proceed`].
    Proceed,
    /// Answer to [`Request::DryRun`].
    Entries(Vec<OutputEntry>),
    /// Answer to [`Request::Show`]: the derivations by path.
    Derivations(SortedMap<DerivationNode>),
    /// Answer to [`Request::ProbeLocal`].
    Local(Result<SortedMap<bool>>),
    /// Answer to [`Request::ProbeStores`], one for each store, in order.
    Stores(Vec<Result<SortedMap<bool>>>),
}

/// Model of a [`Reply`]: a probe that failed answers nothing.
#[verifier::ext_equal]
pub enum ReplyView {
    Proceed,
    Entries(Seq<EntryView>),
    Derivations(Map<Seq<char>, NodeView>),
    Local(Option<Map<Seq<char>, bool>>),
    Stores(Seq<Option<Map<Seq<char>, bool>>>),
}

impl View for Reply {
    type V = ReplyView;

    open spec fn view(&self) -> ReplyView {
        match self {
            Reply::Proceed => ReplyView::Proceed,
            Reply::Entries(entries) => ReplyView::Entries(entries.deep_view()),
            Reply::Derivations(nodes) => ReplyView::Derivations(nodes.deep_view()),
            Reply::Local(probe) => ReplyView::Local(reported(*probe)),
            Reply::Stores(probes) => ReplyView::Stores(
                probes@.map_values(|probe: Result<SortedMap<bool>>| reported(probe)),
            ),
        }
    }
}

// ---------------------------------------------------------------------------
// State
// ---------------------------------------------------------------------------

/// What a session has found out so far.
#[derive(Debug)]
pub struct Work {
    inputs: PlanInputs,
    roots: Vec<PlanRoot>,
    hint_drvs: SortedMap<RouteHintSpec>,
    graph: DerivationGraph,
    required: SortedMap<SortedSet>,
    frontier: SortedMap<SortedSet>,
    output_paths: OutputPaths,
    availability: SortedMap<ProbeResult>,
}

/// Model of [`Work`].
#[verifier::ext_equal]
pub struct WorkView {
    /// What the plan is asked for.
    pub inputs: InputsView,
    /// The requested roots.
    pub roots: Seq<RootView>,
    /// The hints by derivation key.
    pub hint_drvs: Map<Seq<char>, HintView>,
    /// The known derivations.
    pub graph: Map<Seq<char>, NodeView>,
    /// The outputs that have to be realized.
    pub required: Outputs,
    /// The outputs that have entered the frontier.
    pub frontier: Outputs,
    /// The known output paths.
    pub paths: Paths,
    /// The probe result of each path.
    pub availability: Map<Seq<char>, ProbeView>,
}

impl View for Work {
    type V = WorkView;

    closed spec fn view(&self) -> WorkView {
        WorkView {
            inputs: self.inputs@,
            roots: self.roots.deep_view(),
            hint_drvs: self.hint_drvs.deep_view(),
            graph: self.graph@,
            required: self.required.deep_view(),
            frontier: self.frontier.deep_view(),
            paths: self.output_paths@,
            availability: self.availability.deep_view(),
        }
    }
}

/// What a session waits for.
#[derive(Debug)]
enum Stage {
    Roots,
    RootGraph,
    Hint { at: usize },
    Round,
    Load { keys: Vec<String>, next: usize },
    Resolve {
        outputs: Vec<(String, String)>,
        resolved: OutputPaths,
        pending: Vec<String>,
        next: usize,
    },
    Local { paths: Vec<String> },
    Stores { local: Result<SortedMap<bool>>, pending: Vec<String>, stores: Vec<String> },
}

/// Model of what a session waits for.
#[verifier::ext_equal]
pub enum StageView {
    /// The dry run of the toplevel.
    Roots,
    /// The derivation of the toplevel.
    RootGraph,
    /// The derivation of the hint at a position.
    Hint { at: nat },
    /// Nothing: a round begins.
    Round,
    /// The derivations of `keys` from `next` on.
    Load { keys: Seq<Seq<char>>, next: nat },
    /// The paths of the outputs `pending` from `next` on.
    Resolve {
        outputs: Seq<OutputRef>,
        resolved: Paths,
        pending: Seq<Seq<char>>,
        next: nat,
    },
    /// What the local store has of `paths`.
    Local { paths: Seq<Seq<char>> },
    /// What `stores` have of `pending`.
    Stores {
        local: Option<Map<Seq<char>, bool>>,
        pending: Seq<Seq<char>>,
        stores: Seq<Seq<char>>,
    },
}

impl View for Stage {
    type V = StageView;

    closed spec fn view(&self) -> StageView {
        match self {
            Stage::Roots => StageView::Roots,
            Stage::RootGraph => StageView::RootGraph,
            Stage::Hint { at } => StageView::Hint { at: *at as nat },
            Stage::Round => StageView::Round,
            Stage::Load { keys, next } => StageView::Load {
                keys: keys.deep_view(),
                next: *next as nat,
            },
            Stage::Resolve { outputs, resolved, pending, next } => StageView::Resolve {
                outputs: outputs.deep_view(),
                resolved: resolved@,
                pending: pending.deep_view(),
                next: *next as nat,
            },
            Stage::Local { paths } => StageView::Local { paths: paths.deep_view() },
            Stage::Stores { local, pending, stores } => StageView::Stores {
                local: reported(*local),
                pending: pending.deep_view(),
                stores: stores.deep_view(),
            },
        }
    }
}

/// A planning session between two requests.
#[derive(Debug)]
pub struct Planner {
    work: Work,
    stage: Stage,
}

/// Model of a [`Planner`].
#[verifier::ext_equal]
pub struct PlannerView {
    /// What has been found out.
    pub work: WorkView,
    /// What is waited for.
    pub stage: StageView,
}

impl View for Planner {
    type V = PlannerView;

    closed spec fn view(&self) -> PlannerView {
        PlannerView { work: self.work@, stage: self.stage@ }
    }
}

impl DeepView for Planner {
    type V = PlannerView;

    open spec fn deep_view(&self) -> PlannerView {
        self@
    }
}

/// Where a session stands after a step.
#[derive(Debug)]
pub enum Progress {
    /// The planner needs something.
    Ask {
        /// The session.
        planner: Planner,
        /// What it needs.
        request: Request,
    },
    /// The plan is finished.
    Done(ClosurePlan),
}

/// Model of a [`Progress`].
#[verifier::ext_equal]
pub enum ProgressView {
    Ask { planner: PlannerView, request: RequestView },
    Done(PlanView),
}

impl View for Progress {
    type V = ProgressView;

    open spec fn view(&self) -> ProgressView {
        match self {
            Progress::Ask { planner, request } => ProgressView::Ask {
                planner: planner@,
                request: request@,
            },
            Progress::Done(plan) => ProgressView::Done(plan@),
        }
    }
}

impl DeepView for Progress {
    type V = ProgressView;

    open spec fn deep_view(&self) -> ProgressView {
        self@
    }
}

// ---------------------------------------------------------------------------
// Model of a step
// ---------------------------------------------------------------------------

/// What a step leads to.
pub type StepView = std::result::Result<ProgressView, ErrorView>;

/// The step that asks for something.
pub open spec fn asking(work: WorkView, stage: StageView, request: RequestView) -> StepView {
    Ok(ProgressView::Ask { planner: PlannerView { work, stage }, request })
}

/// Where a batch that starts at `next` ends.
pub open spec fn batch_end(length: nat, next: nat) -> nat {
    if length - next > PLAN_BATCH {
        next + PLAN_BATCH as nat
    } else {
        length
    }
}

/// The batch that starts at `next`.
pub open spec fn batch(items: Seq<Seq<char>>, next: nat) -> Seq<Seq<char>> {
    items.subrange(next as int, batch_end(items.len(), next) as int)
}

/// The store paths of derivation keys.
pub open spec fn full_paths(keys: Seq<Seq<char>>) -> Seq<Seq<char>> {
    keys.map_values(|key: Seq<char>| full_path(key))
}

/// The outputs that the roots require.
pub open spec fn root_outputs(roots: Seq<RootView>) -> Outputs
    decreases roots.len(),
{
    if roots.len() == 0 {
        Map::empty()
    } else {
        let earlier = root_outputs(roots.drop_last());
        let key = key_of(roots.last().drv);
        earlier.insert(key, members_of(earlier, key).union(roots.last().outputs.to_set()))
    }
}

/// The request that shows one installable.
pub open spec fn show_one(installable: Seq<char>) -> RequestView {
    RequestView::Show {
        args: show_command(seq![installable]),
        label: "nix "@ + text::joined(show_command(seq![installable]), " "@),
    }
}

/// The finished plan with its identifier.
pub open spec fn sealed(plan: PlanView) -> PlanView {
    PlanView { plan_id: plan_id_of(plan), ..plan }
}

impl WorkView {
    /// The plan with given derivations.
    pub open spec fn plan(
        self,
        derivations: Seq<DerivationView>,
        counts: CountsView,
    ) -> PlanView {
        sealed(
            PlanView {
                schema_version: PLAN_SCHEMA_VERSION,
                plan_id: Seq::empty(),
                toplevel_installable: self.inputs.attr,
                flake_installable: owning_flake(self.inputs.attr),
                build_system: self.inputs.build_system,
                host_system: self.inputs.host_system,
                roots: self.roots,
                derivations,
                counts,
            },
        )
    }

    /// The session ends with given derivations. Without any substituter there
    /// is no plan, even where nothing had to be probed.
    pub open spec fn complete(
        self,
        derivations: Seq<DerivationView>,
        counts: CountsView,
    ) -> StepView {
        if self.inputs.substituters.len() == 0 {
            Err(ErrorView::PlannerNoSubstituters)
        } else {
            Ok(ProgressView::Done(self.plan(derivations, counts)))
        }
    }

    /// What the plan is assembled from.
    pub open spec fn findings(self) -> Findings {
        Findings {
            inputs: self.inputs,
            hint_drvs: self.hint_drvs,
            graph: self.graph,
            required: self.required,
            paths: self.paths,
            availability: self.availability,
        }
    }

    /// The frontier is complete: the plan is assembled.
    pub open spec fn finish(self) -> StepView {
        match self.findings().derivations(
            self.frontier,
            ascending(self.frontier.dom()),
            Seq::empty(),
        ) {
            Err(error) => Err(error),
            Ok(plans) => self.complete(in_dependency_order(plans, self.roots), counts_of(plans)),
        }
    }

    /// One round of expansion works on this.
    pub open spec fn round(self) -> Round {
        Round {
            graph: self.graph,
            required: self.required,
            frontier: self.frontier,
            paths: self.paths,
            availability: self.availability,
        }
    }

    /// Everything required is probed: the frontier is expanded. Another round
    /// follows as long as something enters it.
    pub open spec fn expand(self) -> StepView {
        let round = self.round();
        match round.verdict() {
            Err(error) => Err(error),
            Ok(changed) => {
                let next = WorkView {
                    required: round.next_required(),
                    frontier: round.next_frontier(),
                    ..self
                };
                if changed {
                    asking(next, StageView::Round, RequestView::Proceed)
                } else {
                    next.finish()
                }
            },
        }
    }

    /// All paths are known: those that have not been probed are.
    pub open spec fn probe(self) -> StepView {
        let outputs = ascending(
            unprobed(self.graph, self.hint_drvs, self.paths, self.availability),
        );
        if outputs.len() == 0 {
            self.expand()
        } else if self.inputs.substituters.len() == 0 {
            Err(ErrorView::PlannerNoSubstituters)
        } else {
            asking(
                self,
                StageView::Local { paths: outputs },
                RequestView::ProbeLocal { outputs },
            )
        }
    }

    /// The local store has answered: the substituters are asked for the rest.
    pub open spec fn probe_stores(
        self,
        outputs: Seq<Seq<char>>,
        local: Option<Map<Seq<char>, bool>>,
    ) -> StepView {
        let pending = not_local(outputs, local);
        let stores = distinct(self.inputs.substituters);
        asking(
            self,
            StageView::Stores { local, pending, stores },
            RequestView::ProbeStores { stores, outputs: pending },
        )
    }

    /// The substituters have answered.
    pub open spec fn probed(
        self,
        local: Option<Map<Seq<char>, bool>>,
        pending: Seq<Seq<char>>,
        stores: Seq<StoreView>,
    ) -> StepView {
        WorkView {
            availability: self.availability.union_prefer_right(
                availability_of(local, pending, stores),
            ),
            ..self
        }.expand()
    }

    /// The paths of `outputs` are known now.
    pub open spec fn resolved(self, outputs: Seq<OutputRef>, known: Paths) -> StepView {
        match all_known(outputs, known) {
            Err(error) => Err(error),
            Ok(_) => WorkView {
                paths: self.paths.union_prefer_right(known),
                ..self
            }.probe(),
        }
    }

    /// The paths of a batch of outputs are asked for.
    pub open spec fn ask_outputs(
        self,
        outputs: Seq<OutputRef>,
        resolved: Paths,
        pending: Seq<Seq<char>>,
        next: nat,
    ) -> StepView {
        let wanted = batch(pending, next);
        match dry_run_command(wanted, self.inputs.substituters, self.inputs.policy) {
            Err(error) => Err(error),
            Ok(args) => asking(
                self,
                StageView::Resolve { outputs, resolved, pending, next },
                RequestView::DryRun {
                    args,
                    label: "nix build --dry-run --json output-count="@ + text::decimal(
                        wanted.len(),
                    ),
                },
            ),
        }
    }

    /// All required derivations are known: the paths of their outputs are
    /// looked up.
    pub open spec fn resolve(self) -> StepView {
        let outputs = unresolved(self.required, self.paths);
        if outputs.len() == 0 {
            self.probe()
        } else {
            match sorted_out(self.graph, outputs, Map::empty(), Seq::empty()) {
                Err(error) => Err(error),
                Ok((known, pending)) => if pending.len() == 0 {
                    self.resolved(outputs, known)
                } else {
                    self.ask_outputs(outputs, known, pending, 0)
                },
            }
        }
    }

    /// A batch of derivations is asked for.
    pub open spec fn ask_derivations(self, keys: Seq<Seq<char>>, next: nat) -> StepView {
        let wanted = batch(keys, next);
        asking(
            self,
            StageView::Load { keys, next },
            RequestView::Show {
                args: show_command(full_paths(wanted)),
                label: "nix derivation show batch-count="@ + text::decimal(wanted.len()),
            },
        )
    }

    /// A round begins: unknown derivations are loaded.
    pub open spec fn begin_round(self) -> StepView {
        let missing = missing_keys(self.required, self.graph);
        if missing.len() == 0 {
            self.resolve()
        } else {
            self.ask_derivations(missing, 0)
        }
    }

    /// The hints from position `at` on are resolved.
    pub open spec fn ask_hint(self, at: nat) -> StepView {
        if at < self.inputs.hints.len() {
            asking(
                self,
                StageView::Hint { at },
                show_one(self.inputs.hints[at as int].installable),
            )
        } else {
            self.begin_round()
        }
    }

    /// The derivation of a hint is known.
    pub open spec fn hinted(self, at: nat, graph: Map<Seq<char>, NodeView>) -> StepView {
        let keys = ascending(graph.dom());
        let hint = self.inputs.hints[at as int];
        if keys.len() == 0 {
            Err(ErrorView::PlannerMissingDerivation { drv: hint.installable })
        } else {
            WorkView {
                hint_drvs: self.hint_drvs.insert(key_of(keys[0]), hint),
                ..self
            }.ask_hint(at + 1)
        }
    }

    /// The derivation of the toplevel is known.
    pub open spec fn rooted(self, graph: Map<Seq<char>, NodeView>) -> StepView {
        if self.roots.len() == 0 {
            self.complete(Seq::empty(), no_counts())
        } else {
            WorkView { graph, required: root_outputs(self.roots), ..self }.ask_hint(0)
        }
    }
}

/// Each store with its answer.
pub open spec fn stores_with_answers(
    stores: Seq<Seq<char>>,
    answers: Seq<Option<Map<Seq<char>, bool>>>,
) -> Seq<StoreView> {
    Seq::new(stores.len(), |i: int| (stores[i], answers[i]))
}

impl PlannerView {
    /// The reply answers what is waited for.
    pub open spec fn accepts(self, reply: ReplyView) -> bool {
        match (self.stage, reply) {
            (StageView::Roots, ReplyView::Entries(_)) => true,
            (StageView::RootGraph, ReplyView::Derivations(_)) => true,
            (StageView::Hint { .. }, ReplyView::Derivations(_)) => true,
            (StageView::Round, ReplyView::Proceed) => true,
            (StageView::Load { .. }, ReplyView::Derivations(_)) => true,
            (StageView::Resolve { .. }, ReplyView::Entries(_)) => true,
            (StageView::Local { .. }, ReplyView::Local(_)) => true,
            (StageView::Stores { stores, .. }, ReplyView::Stores(answers)) => stores.len()
                == answers.len(),
            _ => false,
        }
    }

    /// Positions that the session keeps are within bounds.
    pub open spec fn well_formed(self) -> bool {
        match self.stage {
            StageView::Hint { at } => at < self.work.inputs.hints.len(),
            StageView::Load { keys, next } => next < keys.len(),
            StageView::Resolve { pending, next, .. } => next < pending.len(),
            _ => true,
        }
    }

    /// What follows from a reply that is accepted.
    pub open spec fn advance(self, reply: ReplyView) -> StepView {
        let work = self.work;
        match (self.stage, reply) {
            (StageView::Roots, ReplyView::Entries(entries)) => asking(
                WorkView { roots: roots_of(entries), ..work },
                StageView::RootGraph,
                show_one(work.inputs.attr),
            ),
            (StageView::RootGraph, ReplyView::Derivations(nodes)) => work.rooted(graph_of(nodes)),
            (StageView::Hint { at }, ReplyView::Derivations(nodes)) => work.hinted(
                at,
                graph_of(nodes),
            ),
            (StageView::Round, _) => work.begin_round(),
            (StageView::Load { keys, next }, ReplyView::Derivations(nodes)) => match all_loaded(
                batch(keys, next),
                graph_of(nodes),
            ) {
                Err(error) => Err(error),
                Ok(_) => {
                    let loaded = WorkView {
                        graph: work.graph.union_prefer_right(graph_of(nodes)),
                        ..work
                    };
                    let end = batch_end(keys.len(), next);
                    if end < keys.len() {
                        loaded.ask_derivations(keys, end)
                    } else {
                        loaded.resolve()
                    }
                },
            },
            (
                StageView::Resolve { outputs, resolved, pending, next },
                ReplyView::Entries(entries),
            ) => {
                let known = with_entries(resolved, entries);
                let end = batch_end(pending.len(), next);
                if end < pending.len() {
                    work.ask_outputs(outputs, known, pending, end)
                } else {
                    work.resolved(outputs, known)
                }
            },
            (StageView::Local { paths }, ReplyView::Local(local)) => work.probe_stores(
                paths,
                local,
            ),
            (StageView::Stores { local, pending, stores }, ReplyView::Stores(answers)) =>
                work.probed(local, pending, stores_with_answers(stores, answers)),
            _ => arbitrary(),
        }
    }
}

/// The first step of a session.
pub open spec fn opening(inputs: InputsView) -> StepView {
    match dry_run_command(seq![inputs.attr], inputs.substituters, inputs.policy) {
        Err(error) => Err(error),
        Ok(args) => asking(
            WorkView {
                inputs,
                roots: Seq::empty(),
                hint_drvs: Map::empty(),
                graph: Map::empty(),
                required: Map::empty(),
                frontier: Map::empty(),
                paths: Map::empty(),
                availability: Map::empty(),
            },
            StageView::Roots,
            RequestView::DryRun { args, label: "nix build --dry-run --json "@ + inputs.attr },
        ),
    }
}

// ---------------------------------------------------------------------------
// Laws
// ---------------------------------------------------------------------------

/// A plan that a session may finish with: sealed, of the current schema, and
/// for what the session was asked for, with at least one cache to probe.
pub open spec fn answers_inputs(plan: PlanView, inputs: InputsView) -> bool {
    &&& inputs.substituters.len() > 0
    &&& plan.plan_id == plan_id_of(plan)
    &&& plan.schema_version == PLAN_SCHEMA_VERSION
    &&& plan.toplevel_installable == inputs.attr
    &&& plan.flake_installable == owning_flake(inputs.attr)
    &&& plan.build_system == inputs.build_system
    &&& plan.host_system == inputs.host_system
}

/// A step leads to an error, to a plan for `inputs`, or to a session that is
/// still about `inputs` and accepts a reply to its request.
pub open spec fn sound_step(step: StepView, inputs: InputsView) -> bool {
    match step {
        Err(_) => true,
        Ok(ProgressView::Done(plan)) => answers_inputs(plan, inputs),
        Ok(ProgressView::Ask { planner, request }) => {
            &&& planner.work.inputs == inputs
            &&& planner.well_formed()
            &&& fits(planner.stage, request)
        },
    }
}

/// The request asks for what the session waits for.
pub open spec fn fits(stage: StageView, request: RequestView) -> bool {
    match (stage, request) {
        (StageView::Roots, RequestView::DryRun { .. }) => true,
        (StageView::RootGraph, RequestView::Show { .. }) => true,
        (StageView::Hint { .. }, RequestView::Show { .. }) => true,
        (StageView::Round, RequestView::Proceed) => true,
        (StageView::Load { .. }, RequestView::Show { .. }) => true,
        (StageView::Resolve { .. }, RequestView::DryRun { .. }) => true,
        (StageView::Local { paths }, RequestView::ProbeLocal { outputs }) => paths == outputs,
        (
            StageView::Stores { pending, stores, .. },
            RequestView::ProbeStores { stores: asked, outputs },
        ) => stores == asked && pending == outputs,
        _ => false,
    }
}

proof fn lemma_plan_answers(
    work: WorkView,
    derivations: Seq<DerivationView>,
    counts: CountsView,
)
    requires
        work.inputs.substituters.len() > 0,
    ensures
        answers_inputs(work.plan(derivations, counts), work.inputs),
{
    let plan = work.plan(derivations, counts);
    let unsealed = PlanView { plan_id: Seq::empty(), ..plan };
    assert(plan == sealed(unsealed));
    crate::planner::identity::law_identifier_is_excluded(unsealed, plan.plan_id);
}

proof fn lemma_expand_sound(work: WorkView)
    ensures
        sound_step(work.expand(), work.inputs),
{
    let round = work.round();
    if let Ok(changed) = round.verdict() {
        let next = WorkView {
            required: round.next_required(),
            frontier: round.next_frontier(),
            ..work
        };
        if let Ok(plans) = next.findings().derivations(
            next.frontier,
            ascending(next.frontier.dom()),
            Seq::empty(),
        ) {
            if work.inputs.substituters.len() > 0 {
                lemma_plan_answers(next, in_dependency_order(plans, next.roots), counts_of(plans));
            }
        }
    }
}

proof fn lemma_probe_sound(work: WorkView)
    ensures
        sound_step(work.probe(), work.inputs),
{
    lemma_expand_sound(work);
}

proof fn lemma_resolved_sound(work: WorkView, outputs: Seq<OutputRef>, known: Paths)
    ensures
        sound_step(work.resolved(outputs, known), work.inputs),
{
    lemma_probe_sound(WorkView { paths: work.paths.union_prefer_right(known), ..work });
}

proof fn lemma_resolve_sound(work: WorkView)
    ensures
        sound_step(work.resolve(), work.inputs),
{
    lemma_probe_sound(work);
    let outputs = unresolved(work.required, work.paths);
    if let Ok((known, pending)) = sorted_out(work.graph, outputs, Map::empty(), Seq::empty()) {
        lemma_resolved_sound(work, outputs, known);
    }
}

proof fn lemma_begin_sound(work: WorkView)
    ensures
        sound_step(work.begin_round(), work.inputs),
{
    lemma_resolve_sound(work);
}

/// Every step is sound: a session keeps to what it was asked for, asks only
/// what it can take the answer to, and finishes only with a sealed plan of the
/// current schema, and not without a substituter.
pub proof fn law_steps_are_sound(planner: PlannerView, reply: ReplyView)
    requires
        planner.well_formed(),
        planner.accepts(reply),
    ensures
        sound_step(planner.advance(reply), planner.work.inputs),
{
    let work = planner.work;
    match (planner.stage, reply) {
        (StageView::RootGraph, ReplyView::Derivations(nodes)) => {
            if work.inputs.substituters.len() > 0 {
                lemma_plan_answers(work, Seq::empty(), no_counts());
            }
            lemma_begin_sound(
                WorkView { graph: graph_of(nodes), required: root_outputs(work.roots), ..work },
            );
        },
        (StageView::Hint { at }, ReplyView::Derivations(nodes)) => {
            let keys = ascending(graph_of(nodes).dom());
            let hint = work.inputs.hints[at as int];
            lemma_begin_sound(
                WorkView { hint_drvs: work.hint_drvs.insert(key_of(keys[0]), hint), ..work },
            );
        },
        (StageView::Round, _) => {
            lemma_begin_sound(work);
        },
        (StageView::Load { keys, next }, ReplyView::Derivations(nodes)) => {
            lemma_resolve_sound(
                WorkView { graph: work.graph.union_prefer_right(graph_of(nodes)), ..work },
            );
        },
        (
            StageView::Resolve { outputs, resolved, pending, next },
            ReplyView::Entries(entries),
        ) => {
            lemma_resolved_sound(work, outputs, with_entries(resolved, entries));
        },
        (StageView::Stores { local, pending, stores }, ReplyView::Stores(answers)) => {
            lemma_expand_sound(
                WorkView {
                    availability: work.availability.union_prefer_right(
                        availability_of(local, pending, stores_with_answers(stores, answers)),
                    ),
                    ..work
                },
            );
        },
        _ => {},
    }
}

/// The first step is sound.
pub proof fn law_opening_is_sound(inputs: InputsView)
    ensures
        sound_step(opening(inputs), inputs),
{
}

// ---------------------------------------------------------------------------
// Operations
// ---------------------------------------------------------------------------

fn ask(work: Work, stage: Stage, request: Request) -> (result: Result<Progress>)
    requires
        (PlannerView { work: work@, stage: stage@ }).well_formed(),
    ensures
        outcome(result) == asking(work@, stage@, request@),
{
    Ok(Progress::Ask { planner: Planner { work, stage }, request })
}

fn end_of_batch(length: usize, next: usize) -> (result: usize)
    requires
        next <= length,
    ensures
        result == batch_end(length as nat, next as nat),
        next <= result <= length,
        next < length ==> next < result,
{
    if length - next > PLAN_BATCH {
        next + PLAN_BATCH
    } else {
        length
    }
}

fn next_batch(items: &[String], next: usize) -> (result: Vec<String>)
    requires
        next <= items.len(),
    ensures
        result.deep_view() == batch(items.deep_view(), next as nat),
{
    let end = end_of_batch(items.len(), next);
    let mut out: Vec<String> = Vec::new();
    for i in next..end
        invariant
            next <= end <= items.len(),
            out.deep_view() == items.deep_view().subrange(next as int, i as int),
    {
        text::add_item(&mut out, items[i].clone());
        assert(items.deep_view()[i as int] == items@[i as int]@);
        assert(out.deep_view() =~= items.deep_view().subrange(next as int, i + 1));
    }
    out
}

fn store_paths(keys: &[String]) -> (result: Vec<String>)
    ensures
        result.deep_view() == full_paths(keys.deep_view()),
{
    let ghost all = full_paths(keys.deep_view());
    let mut out: Vec<String> = Vec::new();
    for i in 0..keys.len()
        invariant
            all == full_paths(keys.deep_view()),
            out.deep_view() == all.take(i as int),
    {
        text::add_item(&mut out, store_path(keys[i].as_str()));
        assert(keys.deep_view()[i as int] == keys@[i as int]@);
        assert(out.deep_view() =~= all.take(i + 1));
    }
    assert(all.take(keys.len() as int) =~= all);
    out
}

fn show_request(installable: &str) -> (result: Request)
    ensures
        result@ == show_one(installable@),
{
    let targets = vec![installable.to_owned()];
    assert(targets.deep_view() =~= seq![installable@]);
    let args = show_args(targets.as_slice());
    let label = "nix ".to_owned().concat(text::join(args.as_slice(), " ").as_str());
    Request::Show { args, label }
}

fn finish(work: Work) -> (result: Result<Progress>)
    ensures
        outcome(result) == work@.finish(),
{
    let evidence = Evidence {
        inputs: &work.inputs,
        hint_drvs: &work.hint_drvs,
        graph: &work.graph,
        required: &work.required,
        output_paths: &work.output_paths,
        availability: &work.availability,
    };
    assert(evidence@ == work@.findings());
    match assemble(&evidence, &work.frontier) {
        Ok((plans, counts)) => {
            let derivations = dependency_first(plans, work.roots.as_slice());
            finished(work, derivations, counts)
        },
        Err(error) => Err(error),
    }
}

fn finished(work: Work, derivations: Vec<DerivationPlan>, counts: PlanCounts) -> (result: Result<
    Progress,
>)
    ensures
        outcome(result) == work@.complete(derivations.deep_view(), counts@),
{
    if work.inputs.substituters.len() == 0 {
        return Err(Error::PlannerNoSubstituters);
    }
    let flake_installable = flake_installable_for_toplevel(work.inputs.attr.as_str());
    let plan = ClosurePlan {
        schema_version: PLAN_SCHEMA_VERSION,
        plan_id: String::new(),
        toplevel_installable: work.inputs.attr,
        flake_installable,
        build_system: work.inputs.build_system,
        host_system: work.inputs.host_system,
        roots: work.roots,
        derivations,
        counts,
    };
    assert(plan@.plan_id =~= Seq::<char>::empty());
    match plan.seal() {
        Ok(plan) => Ok(Progress::Done(plan)),
        Err(error) => Err(error),
    }
}

fn expand(work: Work) -> (result: Result<Progress>)
    ensures
        outcome(result) == work@.expand(),
{
    let mut work = work;
    match expand_frontier(
        &work.graph,
        &mut work.required,
        &mut work.frontier,
        &work.output_paths,
        &work.availability,
    ) {
        Ok(changed) => {
            if changed {
                ask(work, Stage::Round, Request::Proceed)
            } else {
                finish(work)
            }
        },
        Err(error) => Err(error),
    }
}

fn probe(work: Work) -> (result: Result<Progress>)
    ensures
        outcome(result) == work@.probe(),
{
    let outputs = outputs_to_probe(
        &work.graph,
        &work.hint_drvs,
        &work.output_paths,
        &work.availability,
    );
    if outputs.len() == 0 {
        return expand(work);
    }
    if work.inputs.substituters.len() == 0 {
        return Err(Error::PlannerNoSubstituters);
    }
    let copy = text::copy_list(outputs.as_slice());
    ask(work, Stage::Local { paths: outputs }, Request::ProbeLocal { outputs: copy })
}

fn probe_stores(work: Work, outputs: Vec<String>, local: Result<SortedMap<bool>>) -> (result:
    Result<Progress>)
    ensures
        outcome(result) == work@.probe_stores(outputs.deep_view(), reported(local)),
{
    let pending = pending_outputs(outputs.as_slice(), &local);
    let stores = unique_stores(work.inputs.substituters.as_slice());
    let asked = text::copy_list(stores.as_slice());
    let wanted = text::copy_list(pending.as_slice());
    ask(
        work,
        Stage::Stores { local, pending, stores },
        Request::ProbeStores { stores: asked, outputs: wanted },
    )
}

fn pair_answers(stores: Vec<String>, answers: Vec<Result<SortedMap<bool>>>) -> (result: Vec<
    (String, Result<SortedMap<bool>>),
>)
    requires
        stores.len() == answers.len(),
    ensures
        answers_of(result@) == stores_with_answers(
            stores.deep_view(),
            answers@.map_values(|probe: Result<SortedMap<bool>>| reported(probe)),
        ),
{
    let ghost names = stores.deep_view();
    let ghost all = answers@;
    let mut probes: Vec<(String, Result<SortedMap<bool>>)> = Vec::new();
    for answer in it: answers
        invariant
            it.seq() == all,
            all.len() == stores.len(),
            names == stores.deep_view(),
            probes.len() == it.index(),
            forall|i: int|
                0 <= i < probes.len() ==> (#[trigger] probes@[i]).0@ == names[i] && probes@[i].1
                    == all[i],
    {
        let at = probes.len();
        assert(names[at as int] == stores@[at as int]@);
        probes.push((stores[at].clone(), answer));
    }
    assert(answers_of(probes@) =~= stores_with_answers(
        names,
        all.map_values(|probe: Result<SortedMap<bool>>| reported(probe)),
    ));
    probes
}

fn probed(
    work: Work,
    local: Result<SortedMap<bool>>,
    pending: Vec<String>,
    probes: Vec<(String, Result<SortedMap<bool>>)>,
) -> (result: Result<Progress>)
    ensures
        outcome(result) == work@.probed(
            reported(local),
            pending.deep_view(),
            answers_of(probes@),
        ),
{
    let mut work = work;
    let ghost before = work.availability.deep_view();
    let answers = probed_availability(&local, pending.as_slice(), probes.as_slice());
    work.availability.extend(answers);
    assert(work.availability.deep_view() =~= before.union_prefer_right(answers.deep_view()));
    expand(work)
}

fn resolved_outputs(work: Work, outputs: Vec<(String, String)>, known: OutputPaths) -> (result:
    Result<Progress>)
    ensures
        outcome(result) == work@.resolved(outputs.deep_view(), known@),
{
    match check_resolved(outputs.as_slice(), &known) {
        Ok(_) => {
            let mut work = work;
            work.output_paths.extend(&known);
            probe(work)
        },
        Err(error) => Err(error),
    }
}

fn ask_outputs(
    work: Work,
    outputs: Vec<(String, String)>,
    resolved: OutputPaths,
    pending: Vec<String>,
    next: usize,
) -> (result: Result<Progress>)
    requires
        next < pending.len(),
    ensures
        outcome(result) == work@.ask_outputs(
            outputs.deep_view(),
            resolved@,
            pending.deep_view(),
            next as nat,
        ),
{
    let wanted = next_batch(pending.as_slice(), next);
    match dry_run_args(
        wanted.as_slice(),
        work.inputs.substituters.as_slice(),
        &work.inputs.policy,
    ) {
        Ok(args) => {
            let label = "nix build --dry-run --json output-count=".to_owned().concat(
                text::to_decimal(wanted.len() as u64).as_str(),
            );
            ask(
                work,
                Stage::Resolve { outputs, resolved, pending, next },
                Request::DryRun { args, label },
            )
        },
        Err(error) => Err(error),
    }
}

fn resolve(work: Work) -> (result: Result<Progress>)
    ensures
        outcome(result) == work@.resolve(),
{
    let outputs = unresolved_outputs(&work.required, &work.output_paths);
    if outputs.len() == 0 {
        return probe(work);
    }
    match resolve_output_paths(&work.graph, outputs.as_slice()) {
        Ok(resolution) => {
            if resolution.pending.len() == 0 {
                resolved_outputs(work, outputs, resolution.resolved)
            } else {
                ask_outputs(work, outputs, resolution.resolved, resolution.pending, 0)
            }
        },
        Err(error) => Err(error),
    }
}

fn ask_derivations(work: Work, keys: Vec<String>, next: usize) -> (result: Result<Progress>)
    requires
        next < keys.len(),
    ensures
        outcome(result) == work@.ask_derivations(keys.deep_view(), next as nat),
{
    let wanted = next_batch(keys.as_slice(), next);
    let args = show_args(store_paths(wanted.as_slice()).as_slice());
    let label = "nix derivation show batch-count=".to_owned().concat(
        text::to_decimal(wanted.len() as u64).as_str(),
    );
    ask(work, Stage::Load { keys, next }, Request::Show { args, label })
}

fn begin_round(work: Work) -> (result: Result<Progress>)
    ensures
        outcome(result) == work@.begin_round(),
{
    let missing = missing_derivations(&work.required, &work.graph);
    if missing.len() == 0 {
        resolve(work)
    } else {
        ask_derivations(work, missing, 0)
    }
}

fn ask_hint(work: Work, at: usize) -> (result: Result<Progress>)
    ensures
        outcome(result) == work@.ask_hint(at as nat),
{
    if at < work.inputs.hints.len() {
        let request = show_request(work.inputs.hints[at].installable.as_str());
        assert(work@.inputs.hints[at as int] == work.inputs.hints@[at as int]@);
        ask(work, Stage::Hint { at }, request)
    } else {
        begin_round(work)
    }
}

fn hinted(work: Work, at: usize, graph: DerivationGraph) -> (result: Result<Progress>)
    requires
        at < work@.inputs.hints.len(),
    ensures
        outcome(result) == work@.hinted(at as nat, graph@),
{
    assert(graph@.dom() =~= graph.derivations@.dom());
    assert(work@.inputs.hints.len() == work.inputs.hints.len());
    assert(work@.inputs.hints[at as int] == work.inputs.hints@[at as int]@);
    if graph.derivations.len() == 0 {
        return Err(
            Error::PlannerMissingDerivation {
                drv: work.inputs.hints[at].installable.clone(),
            },
        );
    }
    let key = derivation_key(graph.derivations.key_at(0).as_str());
    let hint = work.inputs.hints[at].clone();
    assert(at < work.inputs.hints.len());
    let mut work = work;
    let ghost before = work.hint_drvs.deep_view();
    work.hint_drvs.insert(key, hint);
    assert(work.hint_drvs.deep_view() =~= before.insert(key@, hint@));
    ask_hint(work, at + 1)
}

fn require_roots(roots: &[PlanRoot]) -> (result: SortedMap<SortedSet>)
    ensures
        result.deep_view() == root_outputs(roots.deep_view()),
{
    let ghost all = roots.deep_view();
    let mut required: SortedMap<SortedSet> = SortedMap::new();
    assert(all.take(0) =~= Seq::empty());
    assert(required.deep_view() =~= Map::empty());
    for i in 0..roots.len()
        invariant
            all == roots.deep_view(),
            required.deep_view() == root_outputs(all.take(i as int)),
    {
        assert(all.take(i + 1).drop_last() =~= all.take(i as int));
        assert(all.take(i + 1).last() == roots@[i as int]@);
        let key = derivation_key(roots[i].drv.as_str());
        demand_outputs(&mut required, key.as_str(), roots[i].outputs.as_slice());
    }
    assert(all.take(roots.len() as int) =~= all);
    required
}

fn rooted(work: Work, graph: DerivationGraph) -> (result: Result<Progress>)
    ensures
        outcome(result) == work@.rooted(graph@),
{
    if work.roots.len() == 0 {
        let none: Vec<DerivationPlan> = Vec::new();
        assert(none.deep_view() =~= Seq::empty());
        return finished(work, none, PlanCounts::default());
    }
    let mut work = work;
    work.graph = graph;
    work.required = require_roots(work.roots.as_slice());
    ask_hint(work, 0)
}

fn loaded(
    work: Work,
    keys: Vec<String>,
    next: usize,
    report: DerivationGraph,
) -> (result: Result<Progress>)
    requires
        next < keys.len(),
    ensures
        outcome(result) == match all_loaded(batch(keys.deep_view(), next as nat), report@) {
            Err(error) => Err(error),
            Ok(_) => {
                let after = WorkView {
                    graph: work@.graph.union_prefer_right(report@),
                    ..work@
                };
                let end = batch_end(keys.deep_view().len(), next as nat);
                if end < keys.deep_view().len() {
                    after.ask_derivations(keys.deep_view(), end)
                } else {
                    after.resolve()
                }
            },
        },
{
    let wanted = next_batch(keys.as_slice(), next);
    match check_loaded(wanted.as_slice(), &report) {
        Ok(_) => {
            let mut work = work;
            let ghost before = work.graph@;
            work.graph.derivations.extend(report.derivations);
            assert(work.graph@ =~= before.union_prefer_right(report@));
            let end = end_of_batch(keys.len(), next);
            if end < keys.len() {
                ask_derivations(work, keys, end)
            } else {
                resolve(work)
            }
        },
        Err(error) => Err(error),
    }
}

impl Planner {
    #[verifier::type_invariant]
    closed spec fn consistent(self) -> bool {
        self@.well_formed()
    }

    /// Whether `reply` answers what the session waits for.
    pub fn accepts(&self, reply: &Reply) -> (result: bool)
        ensures
            result == self@.accepts(reply@),
    {
        match (&self.stage, reply) {
            (Stage::Roots, Reply::Entries(_)) => true,
            (Stage::RootGraph, Reply::Derivations(_)) => true,
            (Stage::Hint { .. }, Reply::Derivations(_)) => true,
            (Stage::Round, Reply::Proceed) => true,
            (Stage::Load { .. }, Reply::Derivations(_)) => true,
            (Stage::Resolve { .. }, Reply::Entries(_)) => true,
            (Stage::Local { .. }, Reply::Local(_)) => true,
            (Stage::Stores { stores, .. }, Reply::Stores(answers)) => stores.len()
                == answers.len(),
            _ => false,
        }
    }

    /// Takes the reply to the last request and says what comes next.
    pub fn advance(self, reply: Reply) -> (result: Result<Progress>)
        requires
            self@.accepts(reply@),
        ensures
            outcome(result) == self@.advance(reply@),
            sound_step(self@.advance(reply@), self@.work.inputs),
    {
        proof {
            use_type_invariant(&self);
            law_steps_are_sound(self@, reply@);
        }
        let Planner { work, stage } = self;
        match (stage, reply) {
            (Stage::Roots, Reply::Entries(entries)) => {
                let mut work = work;
                work.roots = parse_roots(entries.as_slice());
                let request = show_request(work.inputs.attr.as_str());
                ask(work, Stage::RootGraph, request)
            },
            (Stage::RootGraph, Reply::Derivations(nodes)) => rooted(work, parse_graph(nodes)),
            (Stage::Hint { at }, Reply::Derivations(nodes)) => hinted(
                work,
                at,
                parse_graph(nodes),
            ),
            (Stage::Round, Reply::Proceed) => begin_round(work),
            (Stage::Load { keys, next }, Reply::Derivations(nodes)) => loaded(
                work,
                keys,
                next,
                parse_graph(nodes),
            ),
            (
                Stage::Resolve { outputs, mut resolved, pending, next },
                Reply::Entries(entries),
            ) => {
                record_entries(&mut resolved, entries.as_slice());
                let end = end_of_batch(pending.len(), next);
                if end < pending.len() {
                    ask_outputs(work, outputs, resolved, pending, end)
                } else {
                    resolved_outputs(work, outputs, resolved)
                }
            },
            (Stage::Local { paths }, Reply::Local(local)) => probe_stores(
                work,
                paths,
                local,
            ),
            (Stage::Stores { local, pending, stores }, Reply::Stores(answers)) => {
                let probes = pair_answers(stores, answers);
                probed(work, local, pending, probes)
            },
            _ => unreached(),
        }
    }
}

/// Opens the session that computes a structured plan from Nix's derivation
/// closure.
///
/// `nix build --dry-run --json` reports only the requested installable, not its
/// complete action set. The requested roots are loaded first, then the planner
/// loads and probes child derivations only below unavailable nodes. This keeps
/// substituted and locally present outputs as realization leaves, matching
/// Nix's behavior of not realizing the inputs of a cache hit. Human stderr is
/// never parsed.
pub fn plan_closure(
    attr: &str,
    build_system: &str,
    host_system: &str,
    substituter: &str,
    policy: &RealizationPolicy,
) -> (result: Result<Progress>)
    ensures
        outcome(result) == opening(
            InputsView {
                attr: attr@,
                build_system: build_system@,
                host_system: host_system@,
                substituters: seq![substituter@],
                policy: policy@,
                hints: Seq::empty(),
            },
        ),
{
    let substituters = vec![substituter.to_owned()];
    assert(substituters.deep_view() =~= seq![substituter@]);
    plan_closure_with_substituters(attr, build_system, host_system, substituters.as_slice(), policy)
}

/// Opens a planning session over the union of the supplied substituters.
///
/// Every substituter is asked for what the local store lacks; an output is
/// taken from the first that has it. Duplicate URLs are ignored. At least one
/// substituter is required so a failed configuration cannot be mistaken for a
/// cache-shaped closure.
pub fn plan_closure_with_substituters(
    attr: &str,
    build_system: &str,
    host_system: &str,
    substituters: &[String],
    policy: &RealizationPolicy,
) -> (result: Result<Progress>)
    ensures
        outcome(result) == opening(
            InputsView {
                attr: attr@,
                build_system: build_system@,
                host_system: host_system@,
                substituters: substituters.deep_view(),
                policy: policy@,
                hints: Seq::empty(),
            },
        ),
{
    let hints: Vec<RouteHintSpec> = Vec::new();
    assert(hints.deep_view() =~= Seq::empty());
    plan_closure_with_hints(
        attr,
        build_system,
        host_system,
        substituters,
        policy,
        hints.as_slice(),
    )
}

fn copy_hints(hints: &[RouteHintSpec]) -> (result: Vec<RouteHintSpec>)
    ensures
        result.deep_view() == hints.deep_view(),
{
    let ghost all = hints.deep_view();
    let mut out: Vec<RouteHintSpec> = Vec::new();
    for i in 0..hints.len()
        invariant
            all == hints.deep_view(),
            out.deep_view() == all.take(i as int),
    {
        let ghost before = out.deep_view();
        let hint = hints[i].clone();
        out.push(hint);
        assert(all[i as int] == hints@[i as int]@);
        assert(out.deep_view() =~= before.push(hint@));
        assert(out.deep_view() =~= all.take(i + 1));
    }
    assert(all.take(hints.len() as int) =~= all);
    out
}

/// Opens a planning session over the union of the supplied substituters and
/// explicit runtime route hints.
///
/// Hints bind to the exact derivation resolved from each hint's `installable`,
/// selected the same way the toplevel is resolved (frozen flake attributes).
/// `skip_probe` derivations are never queried against substituters; their
/// `on_miss` route is assumed. In all cases the dependency subtree shaped by
/// the realization frontier is still probed normally.
pub fn plan_closure_with_hints(
    attr: &str,
    build_system: &str,
    host_system: &str,
    substituters: &[String],
    policy: &RealizationPolicy,
    hints: &[RouteHintSpec],
) -> (result: Result<Progress>)
    ensures
        outcome(result) == opening(
            InputsView {
                attr: attr@,
                build_system: build_system@,
                host_system: host_system@,
                substituters: substituters.deep_view(),
                policy: policy@,
                hints: hints.deep_view(),
            },
        ),
{
    let wanted = vec![attr.to_owned()];
    assert(wanted.deep_view() =~= seq![attr@]);
    match dry_run_args(wanted.as_slice(), substituters, policy) {
        Ok(args) => {
            let label = "nix build --dry-run --json ".to_owned().concat(attr);
            let work = Work {
                inputs: PlanInputs {
                    attr: attr.to_owned(),
                    build_system: build_system.to_owned(),
                    host_system: host_system.to_owned(),
                    substituters: text::copy_list(substituters),
                    policy: policy.clone(),
                    hints: copy_hints(hints),
                },
                roots: Vec::new(),
                hint_drvs: SortedMap::new(),
                graph: DerivationGraph { derivations: SortedMap::new() },
                required: SortedMap::new(),
                frontier: SortedMap::new(),
                output_paths: OutputPaths::new(),
                availability: SortedMap::new(),
            };
            proof {
                assert(work@.roots =~= Seq::empty());
                assert(work@.hint_drvs =~= Map::empty());
                assert(work@.graph =~= Map::empty());
                assert(work@.required =~= Map::empty());
                assert(work@.frontier =~= Map::empty());
                assert(work@.availability =~= Map::empty());
            }
            ask(work, Stage::Roots, Request::DryRun { args, label })
        },
        Err(error) => Err(error),
    }
}

/// A session begins by asking Nix what it would build of the toplevel, and of
/// nothing else, with the given substituters. It does not begin where the policy
/// is refused.
pub proof fn law_sessions_begin_with_the_toplevel(inputs: InputsView)
    ensures
        match dry_run_command(seq![inputs.attr], inputs.substituters, inputs.policy) {
            Err(error) => opening(inputs) == Err::<ProgressView, ErrorView>(error),
            Ok(command) => opening(inputs) matches Ok(ProgressView::Ask { planner, request })
                && planner.work.inputs == inputs && (request matches RequestView::DryRun {
                args,
                label,
            } && args == command && label == "nix build --dry-run --json "@ + inputs.attr),
        },
{
}

/// What Nix reports of the toplevel are the roots, and the derivations of the
/// toplevel are asked for next.
pub proof fn law_reported_installables_are_the_roots(
    planner: PlannerView,
    entries: Seq<EntryView>,
)
    requires
        planner.stage is Roots,
    ensures
        planner.advance(ReplyView::Entries(entries)) matches Ok(
            ProgressView::Ask { planner: next, request },
        ) && next.work.roots == roots_of(entries) && next.work.inputs == planner.work.inputs && (
        request matches RequestView::Show { args, .. } && args == seq![
            "derivation"@,
            "show"@,
            "--no-pretty"@,
            planner.work.inputs.attr,
        ]),
{
    assert(show_command(seq![planner.work.inputs.attr]) =~= seq![
        "derivation"@,
        "show"@,
        "--no-pretty"@,
        planner.work.inputs.attr,
    ]);
}

/// Exactly the outputs of the roots are required at first.
pub proof fn law_exactly_the_root_outputs_are_required(
    roots: Seq<RootView>,
    key: Seq<char>,
    name: Seq<char>,
)
    ensures
        members_of(root_outputs(roots), key).contains(name) <==> exists|i: int|
            0 <= i < roots.len() && key_of((#[trigger] roots[i]).drv) == key
                && roots[i].outputs.contains(name),
    decreases roots.len(),
{
    if roots.len() > 0 {
        let rest = roots.drop_last();
        let last = roots[roots.len() - 1];
        assert(roots.last() == last);
        law_exactly_the_root_outputs_are_required(rest, key, name);
        if members_of(root_outputs(rest), key).contains(name) {
            let i = choose|i: int|
                0 <= i < rest.len() && key_of((#[trigger] rest[i]).drv) == key
                    && rest[i].outputs.contains(name);
            assert(roots[i] == rest[i]);
        }
        if exists|i: int|
            0 <= i < roots.len() && key_of((#[trigger] roots[i]).drv) == key
                && roots[i].outputs.contains(name) {
            let i = choose|i: int|
                0 <= i < roots.len() && key_of((#[trigger] roots[i]).drv) == key
                    && roots[i].outputs.contains(name);
            if i < rest.len() {
                assert(rest[i] == roots[i]);
            }
        }
    }
}

/// Once the derivations of the toplevel are known, the outputs of the roots are
/// required. The hints are bound next, the first one first. Without a root there
/// is nothing to plan.
pub proof fn law_roots_are_required(planner: PlannerView, nodes: Map<Seq<char>, NodeView>)
    requires
        planner.stage is RootGraph,
    ensures
        ({
            let step = planner.advance(ReplyView::Derivations(nodes));
            let work = planner.work;
            &&& work.roots.len() == 0 && work.inputs.substituters.len() > 0 ==> (step matches Ok(
                ProgressView::Done(plan),
            ) && plan.derivations.len() == 0 && plan.roots.len() == 0)
            &&& work.roots.len() == 0 && work.inputs.substituters.len() == 0 ==> step == Err::<
                ProgressView,
                ErrorView,
            >(ErrorView::PlannerNoSubstituters)
            &&& work.roots.len() > 0 && work.inputs.hints.len() > 0 ==> (step matches Ok(
                ProgressView::Ask { planner: next, request },
            ) && next.work.required == root_outputs(work.roots) && next.work.graph == graph_of(
                nodes,
            ) && (request matches RequestView::Show { args, .. } && args == show_command(
                seq![work.inputs.hints[0].installable],
            )))
        }),
{
}

/// A hint is bound to the first derivation that its installable names, and to no
/// other, and the next hint is asked for. A hint that names no derivation is an
/// error.
pub proof fn law_hints_are_bound_in_order(
    planner: PlannerView,
    at: nat,
    nodes: Map<Seq<char>, NodeView>,
)
    requires
        planner.stage == (StageView::Hint { at }),
        at < planner.work.inputs.hints.len(),
        nodes.dom().finite(),
    ensures
        ({
            let step = planner.advance(ReplyView::Derivations(nodes));
            let hints = planner.work.inputs.hints;
            let keys = ascending(graph_of(nodes).dom());
            &&& keys.len() == 0 ==> step == Err::<ProgressView, ErrorView>(
                ErrorView::PlannerMissingDerivation { drv: hints[at as int].installable },
            )
            &&& keys.len() > 0 ==> (step matches Ok(ProgressView::Ask { planner: next, .. })
                ==> next.work.hint_drvs == planner.work.hint_drvs.insert(
                key_of(keys[0]),
                hints[at as int],
            ))
            &&& keys.len() > 0 && at + 1 < hints.len() ==> (step matches Ok(
                ProgressView::Ask { request: RequestView::Show { args, .. }, .. },
            ) && args == show_command(seq![hints[(at + 1) as int].installable]))
        }),
{
}

/// Before a round goes on, every required derivation that is not known yet is
/// asked for, under its full store path, at most 256 at once.
pub proof fn law_required_derivations_are_asked_for(work: WorkView)
    ensures
        ({
            let missing = missing_keys(work.required, work.graph);
            missing.len() > 0 ==> (work.begin_round() matches Ok(
                ProgressView::Ask { planner: next, request: RequestView::Show { args, .. } },
            ) && next.work == work && args.len() == 3 + (if missing.len() > 256 {
                256
            } else {
                missing.len()
            }) && args.take(3) == seq!["derivation"@, "show"@, "--no-pretty"@] && forall|i: int|
                3 <= i < args.len() ==> #[trigger] args[i] == full_path(missing[i - 3]))
        }),
{
    let missing = missing_keys(work.required, work.graph);
    if missing.len() > 0 {
        let args = show_command(full_paths(batch(missing, 0)));
        assert(args.take(3) =~= seq!["derivation"@, "show"@, "--no-pretty"@]);
    }
}

/// Items are asked for batch by batch, each in exactly one: a batch begins where
/// the last one ended, holds at most 256, and is shorter only at the end.
pub proof fn law_items_are_asked_for_in_batches(items: Seq<Seq<char>>, next: nat)
    requires
        next < items.len(),
    ensures
        1 <= batch(items, next).len() <= 256,
        next + batch(items, next).len() == batch_end(items.len(), next) <= items.len(),
        batch_end(items.len(), next) < items.len() ==> batch(items, next).len() == 256,
        forall|k: int|
            0 <= k < batch(items, next).len() ==> #[trigger] batch(items, next)[k] == items[next
                + k],
{
}

/// The local store is asked for every path that has to be looked for, before any
/// substituter is. Where there is none, nothing is looked for.
pub proof fn law_the_local_store_is_asked_first(work: WorkView)
    ensures
        ({
            let outputs = ascending(
                unprobed(work.graph, work.hint_drvs, work.paths, work.availability),
            );
            &&& outputs.len() > 0 && work.inputs.substituters.len() == 0 ==> work.probe() == Err::<
                ProgressView,
                ErrorView,
            >(ErrorView::PlannerNoSubstituters)
            &&& outputs.len() > 0 && work.inputs.substituters.len() > 0 ==> (
            work.probe() matches Ok(ProgressView::Ask { planner, request }) && planner.work == work
                && request == (RequestView::ProbeLocal { outputs }))
        }),
{
}

/// Once the local store has answered, all substituters are asked, each once, for
/// exactly the paths that the local store does not have.
pub proof fn law_all_substituters_are_asked(
    planner: PlannerView,
    paths: Seq<Seq<char>>,
    local: Option<Map<Seq<char>, bool>>,
)
    requires
        planner.stage == (StageView::Local { paths }),
    ensures
        planner.advance(ReplyView::Local(local)) matches Ok(
            ProgressView::Ask { request: RequestView::ProbeStores { stores, outputs }, .. },
        ) && stores.no_duplicates() && stores.to_set()
            == planner.work.inputs.substituters.to_set() && outputs == not_local(paths, local),
{
    crate::planner::probes::law_stores_are_asked_once(
        planner.work.inputs.substituters,
        Seq::empty(),
    );
}

/// What the stores answer is kept: where a session goes on, each path that the
/// substituters were asked for has its verdict, what the local store has is
/// present, and what was known of other paths is not lost.
pub proof fn law_answers_of_stores_are_kept(
    planner: PlannerView,
    local: Option<Map<Seq<char>, bool>>,
    pending: Seq<Seq<char>>,
    stores: Seq<Seq<char>>,
    answers: Seq<Option<Map<Seq<char>, bool>>>,
    path: Seq<char>,
)
    requires
        planner.stage == (StageView::Stores { local, pending, stores }),
        answers.len() == stores.len(),
    ensures
        planner.advance(ReplyView::Stores(answers)) matches Ok(
            ProgressView::Ask { planner: next, .. },
        ) ==> {
            let found = availability_of(
                local,
                pending,
                Seq::new(stores.len(), |i: int| (stores[i], answers[i])),
            );
            &&& found.contains_key(path) ==> next.work.availability.contains_key(path)
                && next.work.availability[path] == found[path]
            &&& !found.contains_key(path) ==> next.work.availability.contains_key(path)
                == planner.work.availability.contains_key(path) && (
            planner.work.availability.contains_key(path) ==> next.work.availability[path]
                == planner.work.availability[path])
        },
{
}

/// Derivations that were asked for are kept, beside those that are known, and
/// one that the report lacks is an error.
pub proof fn law_reported_derivations_are_kept(
    planner: PlannerView,
    keys: Seq<Seq<char>>,
    next: nat,
    nodes: Map<Seq<char>, NodeView>,
    key: Seq<char>,
)
    requires
        planner.stage == (StageView::Load { keys, next }),
        next < keys.len(),
    ensures
        ({
            let step = planner.advance(ReplyView::Derivations(nodes));
            let found = graph_of(nodes);
            &&& all_loaded(batch(keys, next), found) matches Err(error) ==> step == Err::<
                ProgressView,
                ErrorView,
            >(error)
            &&& step matches Ok(ProgressView::Ask { planner: after, .. }) ==> {
                &&& found.contains_key(key) ==> after.work.graph.contains_key(key)
                    && after.work.graph[key] == found[key]
                &&& !found.contains_key(key) ==> after.work.graph.contains_key(key)
                    == planner.work.graph.contains_key(key) && (planner.work.graph.contains_key(key)
                    ==> after.work.graph[key] == planner.work.graph[key])
            }
        }),
{
}

/// A finished plan holds the planned derivations in dependency order, for the
/// roots of the session, and is sealed by the identifier of its content.
pub proof fn law_finished_plans_are_sealed(
    work: WorkView,
    derivations: Seq<DerivationView>,
    counts: CountsView,
)
    ensures
        work.inputs.substituters.len() == 0 ==> work.complete(derivations, counts) == Err::<
            ProgressView,
            ErrorView,
        >(ErrorView::PlannerNoSubstituters),
        work.inputs.substituters.len() > 0 ==> (work.complete(derivations, counts) matches Ok(
            ProgressView::Done(plan),
        ) && plan.schema_version == 2 && plan.plan_id == plan_id_of(plan)
            && plan.toplevel_installable == work.inputs.attr && plan.flake_installable
            == owning_flake(work.inputs.attr) && plan.build_system == work.inputs.build_system
            && plan.host_system == work.inputs.host_system && plan.roots == work.roots
            && plan.derivations == derivations && plan.counts == counts),
{
    crate::planner::identity::law_identifier_is_excluded(
        work.plan(derivations, counts),
        Seq::empty(),
    );
}

/// Outputs whose paths the derivations do not say are asked for: those of the
/// next batch, all together, with the given substituters and under the policy.
pub proof fn law_unknown_paths_are_asked_for(
    work: WorkView,
    outputs: Seq<OutputRef>,
    resolved: Paths,
    pending: Seq<Seq<char>>,
    next: nat,
)
    ensures
        match dry_run_command(
            batch(pending, next),
            work.inputs.substituters,
            work.inputs.policy,
        ) {
            Err(error) => work.ask_outputs(outputs, resolved, pending, next) == Err::<
                ProgressView,
                ErrorView,
            >(error),
            Ok(command) => work.ask_outputs(outputs, resolved, pending, next) matches Ok(
                ProgressView::Ask { planner, request: RequestView::DryRun { args, label } },
            ) && planner.work == work && args == command && label
                == "nix build --dry-run --json output-count="@ + text::decimal(
                batch(pending, next).len(),
            ),
        },
{
}

/// Where the paths of all required outputs are known, they are looked for next;
/// otherwise the derivations are asked what they say of them, and what they do
/// not say is asked of Nix.
pub proof fn law_required_outputs_get_their_paths(work: WorkView)
    ensures
        ({
            let outputs = unresolved(work.required, work.paths);
            &&& outputs.len() == 0 ==> work.resolve() == work.probe()
            &&& outputs.len() > 0 ==> match sorted_out(
                work.graph,
                outputs,
                Map::empty(),
                Seq::empty(),
            ) {
                Err(error) => work.resolve() == Err::<ProgressView, ErrorView>(error),
                Ok((known, pending)) => {
                    &&& pending.len() == 0 ==> work.resolve() == work.resolved(outputs, known)
                    &&& pending.len() > 0 ==> work.resolve() == work.ask_outputs(
                        outputs,
                        known,
                        pending,
                        0,
                    )
                },
            }
        }),
{
}

/// Paths that became known are kept, beside those that were known, and one that
/// is still unknown is an error.
pub proof fn law_resolved_paths_are_kept(
    work: WorkView,
    outputs: Seq<OutputRef>,
    known: Paths,
    output: OutputRef,
)
    ensures
        all_known(outputs, known) matches Err(error) ==> work.resolved(outputs, known) == Err::<
            ProgressView,
            ErrorView,
        >(error),
        work.resolved(outputs, known) matches Ok(ProgressView::Ask { planner, .. }) ==> {
            &&& known.contains_key(output) ==> planner.work.paths.contains_key(output)
                && planner.work.paths[output] == known[output]
            &&& !known.contains_key(output) ==> planner.work.paths.contains_key(output)
                == work.paths.contains_key(output) && (work.paths.contains_key(output)
                ==> planner.work.paths[output] == work.paths[output])
        },
{
}

/// A round that changed the frontier is followed by another; one that did not is
/// the last, and its frontier is planned.
pub proof fn law_rounds_go_on_until_nothing_changes(work: WorkView)
    ensures
        match work.round().verdict() {
            Err(error) => work.expand() == Err::<ProgressView, ErrorView>(error),
            Ok(changed) => {
                &&& changed ==> (work.expand() matches Ok(
                    ProgressView::Ask { planner, request: RequestView::Proceed },
                ) && planner.stage is Round && planner.work.required
                    == work.round().next_required() && planner.work.frontier
                    == work.round().next_frontier() && planner.work.paths == work.paths
                    && planner.work.availability == work.availability && planner.work.graph
                    == work.graph && planner.work.roots == work.roots && planner.work.hint_drvs
                    == work.hint_drvs)
                &&& !changed ==> (work.expand() matches Ok(progress) ==> progress is Done)
            },
        },
{
}

/// A request for derivations says how many it asks for, and a request for a
/// single installable is known by its whole command.
pub proof fn law_requests_are_known_by_what_they_ask(
    work: WorkView,
    keys: Seq<Seq<char>>,
    next: nat,
    installable: Seq<char>,
)
    ensures
        work.ask_derivations(keys, next) matches Ok(
            ProgressView::Ask { request: RequestView::Show { args, label }, .. },
        ) && label == "nix derivation show batch-count="@ + text::decimal((args.len() - 3) as nat),
        show_one(installable) matches RequestView::Show { args, label } && args == seq![
            "derivation"@,
            "show"@,
            "--no-pretty"@,
            installable,
        ] && label == "nix "@ + text::joined(args, seq![' ']),
{
    reveal_strlit(" ");
    assert(" "@ =~= seq![' ']);
}

} // verus!
