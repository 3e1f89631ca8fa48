//! Coverage: a finished plan realizes everything that was requested.
//!
//! The argument follows a session through its steps. What the roots request is
//! required from the start and stays so; a session ends only once everything
//! that is required has entered the frontier; and every derivation of the
//! frontier is planned.

use vstd::prelude::*;

use crate::error::ErrorView;
use crate::planner::assembly::{counts_of, edges, Findings, InputsView};
use crate::planner::frontier::{
    law_expansion_keeps_outputs, law_no_change_is_complete, lemma_nothing_done,
    lemma_plus_no_inputs, lemma_plus_one_input, lemma_required_after_leaf,
    lemma_required_after_open, plus_inputs, Outputs, Paths, Round,
};
use crate::planner::graph::{
    full_path, graph_of, key_of, keyed_nodes, law_key_keeps_store_path, law_store_path_idempotent,
    law_store_path_keeps_key, root_of, roots_of, EntryView, NodeView,
};
use crate::planner::order::{
    in_dependency_order, law_every_derivation_once, law_order_keeps_the_counts, lemma_plan_of,
    plan_of, planned,
};
use crate::planner::outputs::{
    all_loaded, missing_keys, sorted_out, unresolved, with_entries, OutputRef,
};
use crate::planner::plan::{no_counts, DerivationView, PlanView, RootView};
use crate::planner::probes::availability_of;
use crate::planner::session::{
    batch, batch_end, opening, root_outputs, stores_with_answers, PlannerView, ProgressView,
    ReplyView, StageView, StepView, WorkView,
};
use crate::sorted::{ascending, lemma_ascending_distinct, lemma_ascending_exists, members_of};

verus! {

// ---------------------------------------------------------------------------
// What is stated
// ---------------------------------------------------------------------------

/// The derivation of a root is planned, with an action for an output.
pub open spec fn realizes(plan: PlanView, drv: Seq<char>, output: Seq<char>) -> bool {
    exists|i: int, j: int|
        0 <= i < plan.derivations.len() && plan.derivations[i].drv == drv && 0 <= j
            < plan.derivations[i].actions.len() && #[trigger] plan.derivations[i].actions[j].output
            == output
}

/// No derivation is planned twice, and every requested output of every root has
/// its action.
pub open spec fn realizes_roots(plan: PlanView) -> bool {
    &&& planned(plan.derivations).no_duplicates()
    &&& forall|i: int, k: int|
        0 <= i < plan.roots.len() && 0 <= k < plan.roots[i].outputs.len() ==> realizes(
            plan,
            plan.roots[i].drv,
            #[trigger] plan.roots[i].outputs[k],
        )
}

/// Every output that a planned derivation depends on has its action.
pub open spec fn realizes_dependencies(plan: PlanView) -> bool {
    forall|i: int, e: int, k: int|
        0 <= i < plan.derivations.len() && 0 <= e < plan.derivations[i].dependencies.len() && 0
            <= k < plan.derivations[i].dependencies[e].outputs.len() ==> realizes(
            plan,
            plan.derivations[i].dependencies[e].drv,
            #[trigger] plan.derivations[i].dependencies[e].outputs[k],
        )
}

/// The store directory does not stand twice in front of a path.
pub open spec fn is_plain(path: Seq<char>) -> bool {
    !"/nix/store/"@.is_prefix_of(key_of(path))
}

/// The derivation has finitely many inputs, under plain paths.
pub open spec fn is_regular(node: NodeView) -> bool {
    &&& node.inputs.dom().finite()
    &&& forall|input: Seq<char>| #[trigger] node.inputs.contains_key(input) ==> is_plain(input)
}

/// The reply reports finitely many derivations, under plain paths.
pub open spec fn reports_regularly(reply: ReplyView) -> bool {
    match reply {
        ReplyView::Entries(entries) => forall|i: int|
            0 <= i < entries.len() ==> is_plain((#[trigger] entries[i]).drv_path),
        ReplyView::Derivations(nodes) => {
            &&& nodes.dom().finite()
            &&& forall|key: Seq<char>| #[trigger]
                nodes.contains_key(key) ==> is_regular(nodes[key])
        },
        _ => true,
    }
}

// ---------------------------------------------------------------------------
// What holds throughout a session
// ---------------------------------------------------------------------------

/// Finitely many outputs, of derivations with plain keys.
pub open spec fn are_regular(outputs: Outputs) -> bool {
    &&& outputs.dom().finite()
    &&& forall|key: Seq<char>| #[trigger]
        outputs.contains_key(key) ==> outputs[key].finite() && !"/nix/store/"@.is_prefix_of(key)
}

/// All derivations are regular.
pub open spec fn graph_is_regular(graph: Map<Seq<char>, NodeView>) -> bool {
    forall|key: Seq<char>| #[trigger] graph.contains_key(key) ==> is_regular(graph[key])
}

/// The roots are plain store paths.
pub open spec fn roots_are_plain(roots: Seq<RootView>) -> bool {
    forall|i: int|
        0 <= i < roots.len() ==> is_plain((#[trigger] roots[i]).drv) && full_path(roots[i].drv)
            == roots[i].drv
}

/// Everything that the roots request is required.
pub open spec fn requires_roots(required: Outputs, roots: Seq<RootView>) -> bool {
    forall|i: int, k: int|
        0 <= i < roots.len() && 0 <= k < roots[i].outputs.len() ==> members_of(
            required,
            key_of(roots[i].drv),
        ).contains(#[trigger] roots[i].outputs[k])
}

impl WorkView {
    /// The requirements stand, and a round may begin.
    pub open spec fn is_ready(self) -> bool {
        &&& roots_are_plain(self.roots)
        &&& requires_roots(self.required, self.roots)
        &&& are_regular(self.required)
        &&& are_regular(self.frontier)
        &&& graph_is_regular(self.graph)
    }

    /// Every required derivation is known.
    pub open spec fn is_loaded(self) -> bool {
        forall|key: Seq<char>| #[trigger]
            self.required.contains_key(key) ==> self.graph.contains_key(key)
    }
}

impl PlannerView {
    /// The session has lost nothing of what was requested.
    pub open spec fn is_grounded(self) -> bool {
        match self.stage {
            StageView::Roots => are_regular(self.work.frontier),
            StageView::RootGraph => are_regular(self.work.frontier) && roots_are_plain(
                self.work.roots,
            ),
            StageView::Hint { .. } => self.work.is_ready(),
            StageView::Round => self.work.is_ready(),
            StageView::Load { keys, next } => self.work.is_ready() && forall|key: Seq<char>|
                #[trigger]
                self.work.required.contains_key(key) ==> self.work.graph.contains_key(key)
                    || keys.skip(next as int).contains(key),
            StageView::Resolve { .. } => self.work.is_ready() && self.work.is_loaded(),
            StageView::Local { .. } => self.work.is_ready() && self.work.is_loaded(),
            StageView::Stores { .. } => self.work.is_ready() && self.work.is_loaded(),
        }
    }
}

/// A step leads to an error, to a session that has lost nothing, or to a plan
/// that realizes all roots and all that they depend on, and counts what it holds.
pub open spec fn covers(step: StepView) -> bool {
    match step {
        Err(_) => true,
        Ok(ProgressView::Ask { planner, .. }) => planner.is_grounded(),
        Ok(ProgressView::Done(plan)) => realizes_roots(plan) && realizes_dependencies(plan)
            && plan.counts == counts_of(plan.derivations),
    }
}

// ---------------------------------------------------------------------------
// Requirements stay finite
// ---------------------------------------------------------------------------

proof fn lemma_inserted_regular(outputs: Outputs, key: Seq<char>, more: Set<Seq<char>>)
    requires
        are_regular(outputs),
        !"/nix/store/"@.is_prefix_of(key),
        more.finite(),
    ensures
        are_regular(outputs.insert(key, members_of(outputs, key).union(more))),
{
    let after = outputs.insert(key, members_of(outputs, key).union(more));
    assert(after.dom() =~= outputs.dom().insert(key));
    assert(members_of(outputs, key).finite());
}

proof fn lemma_plus_inputs_regular(
    base: Outputs,
    inputs: Map<Seq<char>, Seq<Seq<char>>>,
    done: Set<Seq<char>>,
)
    requires
        are_regular(base),
        done.finite(),
        done.subset_of(inputs.dom()),
        forall|input: Seq<char>| #[trigger] inputs.contains_key(input) ==> is_plain(input),
    ensures
        are_regular(plus_inputs(base, inputs.restrict(done))),
    decreases done.len(),
{
    if done.len() == 0 {
        assert(done =~= Set::empty());
        assert(inputs.restrict(done) =~= Map::empty());
        lemma_plus_no_inputs(base);
    } else {
        let here = done.choose();
        let rest = done.remove(here);
        assert(done.contains(here));
        assert(inputs.contains_key(here));
        lemma_plus_inputs_regular(base, inputs, rest);
        lemma_plus_one_input(base, inputs, rest, here);
        assert(rest.insert(here) =~= done);
        lemma_inserted_regular(
            plus_inputs(base, inputs.restrict(rest)),
            key_of(here),
            inputs[here].to_set(),
        );
    }
}

proof fn lemma_required_after_regular(round: Round, done: Set<Seq<char>>)
    requires
        are_regular(round.required),
        graph_is_regular(round.graph),
        done.finite(),
    ensures
        are_regular(round.required_after(done)),
    decreases done.len(),
{
    if done.len() == 0 {
        assert(done =~= Set::empty());
        lemma_nothing_done(round);
    } else {
        let key = done.choose();
        let rest = done.remove(key);
        assert(rest.insert(key) =~= done);
        lemma_required_after_regular(round, rest);
        if round.opens(key) {
            lemma_required_after_open(round, rest, key);
            let inputs = round.graph[key].inputs;
            lemma_plus_inputs_regular(round.required_after(rest), inputs, inputs.dom());
            assert(inputs.restrict(inputs.dom()) =~= inputs);
        } else {
            lemma_required_after_leaf(round, rest, key);
        }
    }
}

proof fn lemma_frontier_after_regular(round: Round, done: Set<Seq<char>>)
    requires
        are_regular(round.required),
        are_regular(round.frontier),
        done.subset_of(round.required.dom()),
    ensures
        are_regular(round.frontier_after(done)),
{
    let after = round.frontier_after(done);
    assert(after.dom() =~= round.frontier.dom().union(done));
    assert(done.finite()) by {
        vstd::set_lib::lemma_set_subset_finite(round.required.dom(), done);
    }
    assert forall|key: Seq<char>| #[trigger] after.contains_key(key) implies after[key].finite()
        && !"/nix/store/"@.is_prefix_of(key) by {
        assert(members_of(round.frontier, key).finite());
        if !round.frontier.contains_key(key) {
            assert(round.required.contains_key(key));
        }
    }
}

// ---------------------------------------------------------------------------
// The end of a session
// ---------------------------------------------------------------------------

pub proof fn lemma_derivations_include(
    findings: Findings,
    frontier: Outputs,
    keys: Seq<Seq<char>>,
    plans: Seq<DerivationView>,
)
    ensures
        match findings.derivations(frontier, keys, plans) {
            Err(_) => true,
            Ok(all) => {
                &&& forall|plan: DerivationView| plans.contains(plan) ==> all.contains(plan)
                &&& forall|i: int|
                    0 <= i < keys.len() && findings.graph.contains_key(#[trigger] keys[i])
                        ==> all.contains(
                        findings.derivation(keys[i], ascending(frontier[keys[i]])),
                    )
                &&& forall|plan: DerivationView| #[trigger]
                    all.contains(plan) ==> plans.contains(plan) || exists|i: int|
                        0 <= i < keys.len() && plan == findings.derivation(
                            #[trigger] keys[i],
                            ascending(frontier[keys[i]]),
                        )
            },
        },
    decreases keys.len(),
{
    if keys.len() > 0 {
        let rest = keys.drop_first();
        let own = findings.derivation(keys[0], ascending(frontier[keys[0]]));
        let next = if findings.graph.contains_key(keys[0]) {
            plans.push(own)
        } else {
            plans
        };
        lemma_derivations_include(findings, frontier, rest, next);
        if let Ok(all) = findings.derivations(frontier, keys, plans) {
            assert(findings.derivations(frontier, rest, next) == Ok::<
                Seq<DerivationView>,
                ErrorView,
            >(all));
            assert forall|plan: DerivationView| plans.contains(plan) implies all.contains(plan) by {
                let i = plans.index_of(plan);
                assert(next[i] == plan);
                assert(next.contains(plan));
            }
            assert forall|i: int|
                0 <= i < keys.len() && findings.graph.contains_key(
                    #[trigger] keys[i],
                ) implies all.contains(
                findings.derivation(keys[i], ascending(frontier[keys[i]])),
            ) by {
                if i == 0 {
                    assert(next[plans.len() as int] == own);
                    assert(next.contains(own));
                } else {
                    assert(rest[i - 1] == keys[i]);
                }
            }
            assert forall|plan: DerivationView| #[trigger] all.contains(plan) implies plans.contains(
                plan,
            ) || exists|i: int|
                0 <= i < keys.len() && plan == findings.derivation(
                    #[trigger] keys[i],
                    ascending(frontier[keys[i]]),
                ) by {
                if next.contains(plan) {
                    let i = next.index_of(plan);
                    if i < plans.len() {
                        assert(plans[i] == plan);
                    } else {
                        assert(plan == findings.derivation(keys[0], ascending(frontier[keys[0]])));
                    }
                } else {
                    let i = choose|i: int|
                        0 <= i < rest.len() && plan == findings.derivation(
                            #[trigger] rest[i],
                            ascending(frontier[rest[i]]),
                        );
                    assert(keys[i + 1] == rest[i]);
                }
            }
        }
    }
}

proof fn lemma_plain_paths_differ(left: Seq<char>, right: Seq<char>)
    requires
        !"/nix/store/"@.is_prefix_of(left),
        !"/nix/store/"@.is_prefix_of(right),
        full_path(left) == full_path(right),
    ensures
        left == right,
{
    let n = "/nix/store/"@.len() as int;
    assert(full_path(left).skip(n) =~= left);
    assert(full_path(right).skip(n) =~= right);
}

proof fn lemma_derivations_distinct(
    findings: Findings,
    frontier: Outputs,
    keys: Seq<Seq<char>>,
    plans: Seq<DerivationView>,
)
    requires
        keys.no_duplicates(),
        forall|i: int| 0 <= i < keys.len() ==> !"/nix/store/"@.is_prefix_of(#[trigger] keys[i]),
        planned(plans).no_duplicates(),
        forall|i: int, k: int|
            0 <= i < plans.len() && 0 <= k < keys.len() ==> (#[trigger] plans[i]).drv != full_path(
                #[trigger] keys[k],
            ),
    ensures
        match findings.derivations(frontier, keys, plans) {
            Err(_) => true,
            Ok(all) => planned(all).no_duplicates(),
        },
    decreases keys.len(),
{
    if keys.len() > 0 {
        let rest = keys.drop_first();
        assert forall|i: int| 0 <= i < rest.len() implies !"/nix/store/"@.is_prefix_of(
            #[trigger] rest[i],
        ) by {
            assert(rest[i] == keys[i + 1]);
        }
        assert forall|i: int, j: int|
            0 <= i < rest.len() && 0 <= j < rest.len() && i != j implies rest[i] != rest[j] by {
            assert(keys[i + 1] != keys[j + 1]);
        }
        let next = if findings.graph.contains_key(keys[0]) {
            plans.push(findings.derivation(keys[0], ascending(frontier[keys[0]])))
        } else {
            plans
        };
        assert forall|i: int, k: int|
            0 <= i < next.len() && 0 <= k < rest.len() implies (#[trigger] next[i]).drv
            != full_path(#[trigger] rest[k]) by {
            assert(rest[k] == keys[k + 1]);
            if i < plans.len() {
                assert(plans[i].drv != full_path(keys[k + 1]));
            } else if full_path(keys[0]) == full_path(keys[k + 1]) {
                lemma_plain_paths_differ(keys[0], keys[k + 1]);
            }
        }
        assert(planned(next).no_duplicates()) by {
            assert forall|i: int, j: int|
                0 <= i < next.len() && 0 <= j < next.len() && i < j implies planned(next)[i]
                != planned(next)[j] by {
                if j < plans.len() {
                    assert(planned(plans)[i] != planned(plans)[j]);
                } else {
                    assert(plans[i].drv != full_path(keys[0]));
                }
            }
        }
        lemma_derivations_distinct(findings, frontier, rest, next);
    }
}

proof fn lemma_finish_covers(work: WorkView)
    requires
        work.is_ready(),
        work.is_loaded(),
        forall|key: Seq<char>, name: Seq<char>|
            members_of(work.required, key).contains(name) ==> #[trigger] members_of(
                work.frontier,
                key,
            ).contains(name),
    ensures
        covers(work.finish()),
{
    let findings = work.findings();
    let keys = ascending(work.frontier.dom());
    lemma_ascending_exists(work.frontier.dom());
    lemma_derivations_include(findings, work.frontier, keys, Seq::empty());
    if let Ok(plans) = findings.derivations(work.frontier, keys, Seq::empty()) {
        let ordered = in_dependency_order(plans, work.roots);
        law_every_derivation_once(plans, work.roots);
        assert forall|i: int| 0 <= i < keys.len() implies !"/nix/store/"@.is_prefix_of(
            #[trigger] keys[i],
        ) by {
            assert(keys.to_set().contains(keys[i]));
            assert(work.frontier.contains_key(keys[i]));
        }
        assert(keys.no_duplicates()) by {
            assert forall|i: int, j: int|
                0 <= i < keys.len() && 0 <= j < keys.len() && i < j implies keys[i] != keys[j] by {
                lemma_ascending_distinct(keys, j);
                assert(keys.take(j)[i] == keys[i]);
            }
        }
        lemma_derivations_distinct(findings, work.frontier, keys, Seq::empty());
        law_order_keeps_the_counts(plans, work.roots);
        let plan = work.plan(ordered, counts_of(plans));
        assert forall|i: int, k: int|
            0 <= i < plan.roots.len() && 0 <= k < plan.roots[i].outputs.len() implies realizes(
            plan,
            plan.roots[i].drv,
            #[trigger] plan.roots[i].outputs[k],
        ) by {
            let root = work.roots[i];
            law_key_keeps_store_path(root.drv);
            assert(members_of(work.required, key_of(root.drv)).contains(root.outputs[k]));
            lemma_required_is_realized(work, plans, keys, plan, key_of(root.drv), root.outputs[k]);
        }
        assert forall|i: int, e: int, k: int|
            0 <= i < plan.derivations.len() && 0 <= e < plan.derivations[i].dependencies.len() && 0
                <= k < plan.derivations[i].dependencies[e].outputs.len() implies realizes(
            plan,
            plan.derivations[i].dependencies[e].drv,
            #[trigger] plan.derivations[i].dependencies[e].outputs[k],
        ) by {
            let derivation = ordered[i];
            lemma_plan_of(plans, derivation.drv);
            assert(plans.contains(derivation));
            let at = choose|at: int|
                0 <= at < keys.len() && derivation == findings.derivation(
                    #[trigger] keys[at],
                    ascending(work.frontier[keys[at]]),
                );
            let inputs = work.graph[keys[at]].inputs;
            let key = lemma_edges(inputs, ascending(inputs.dom()), work.required, e);
            let outputs = derivation.dependencies[e].outputs;
            assert(outputs.contains(outputs[k]));
            lemma_required_is_realized(work, plans, keys, plan, key, outputs[k]);
        }
    }
}

/// A dependency names the store path of a derivation, and required outputs of
/// it.
proof fn lemma_edges(
    inputs: Map<Seq<char>, Seq<Seq<char>>>,
    keys: Seq<Seq<char>>,
    required: Outputs,
    at: int,
) -> (key: Seq<char>)
    requires
        0 <= at < edges(inputs, keys, required).len(),
    ensures
        edges(inputs, keys, required)[at].drv == full_path(key),
        forall|name: Seq<char>| #[trigger]
            edges(inputs, keys, required)[at].outputs.contains(name) ==> members_of(
                required,
                key,
            ).contains(name),
    decreases keys.len(),
{
    let earlier = edges(inputs, keys.drop_last(), required);
    if at < earlier.len() {
        lemma_edges(inputs, keys.drop_last(), required, at)
    } else {
        let drv = key_of(keys.last());
        let kept = |name: Seq<char>| required.contains_key(drv) && required[drv].contains(name);
        assert forall|name: Seq<char>|
            inputs[keys.last()].filter(kept).contains(name) implies members_of(
            required,
            drv,
        ).contains(name) by {
            let i = inputs[keys.last()].filter(kept).index_of(name);
            inputs[keys.last()].lemma_filter_pred(kept, i);
        }
        drv
    }
}

/// Where the action for an output that has entered the frontier stands in the
/// order of the plans.
pub proof fn lemma_where_planned(
    work: WorkView,
    plans: Seq<DerivationView>,
    keys: Seq<Seq<char>>,
    key: Seq<char>,
    name: Seq<char>,
) -> (place: (int, int))
    requires
        are_regular(work.frontier),
        keys == ascending(work.frontier.dom()),
        work.findings().derivations(work.frontier, keys, Seq::empty()) == Ok::<
            Seq<DerivationView>,
            ErrorView,
        >(plans),
        work.graph.contains_key(key),
        members_of(work.frontier, key).contains(name),
    ensures
        0 <= place.0 < in_dependency_order(plans, work.roots).len(),
        in_dependency_order(plans, work.roots)[place.0] == work.findings().derivation(
            key,
            ascending(work.frontier[key]),
        ),
        0 <= place.1 < ascending(work.frontier[key]).len(),
        ascending(work.frontier[key])[place.1] == name,
{
    let ordered = in_dependency_order(plans, work.roots);
    law_every_derivation_once(plans, work.roots);
    lemma_key_is_planned(work, plans, keys, key);
    assert(planned(ordered).contains(full_path(key)));
    let d = planned(ordered).index_of(full_path(key));
    assert(ordered[d].drv == full_path(key));
    let names = ascending(work.frontier[key]);
    lemma_ascending_exists(work.frontier[key]);
    assert(names.to_set().contains(name));
    (d, names.index_of(name))
}

/// A required output that has entered the frontier has its action in the plan
/// that the session finishes with.
pub proof fn lemma_required_is_realized(
    work: WorkView,
    plans: Seq<DerivationView>,
    keys: Seq<Seq<char>>,
    plan: PlanView,
    key: Seq<char>,
    name: Seq<char>,
)
    requires
        work.is_ready(),
        work.is_loaded(),
        keys == ascending(work.frontier.dom()),
        work.findings().derivations(work.frontier, keys, Seq::empty()) == Ok::<
            Seq<DerivationView>,
            ErrorView,
        >(plans),
        plan.derivations == in_dependency_order(plans, work.roots),
        members_of(work.required, key).contains(name),
        members_of(work.frontier, key).contains(name),
    ensures
        realizes(plan, full_path(key), name),
{
    assert(work.required.contains_key(key));
    let (d, j) = lemma_where_planned(work, plans, keys, key, name);
    assert(plan.derivations[d].actions[j].output == name);
}

/// The derivation of a frontier key is planned, and no other plan is for it.
proof fn lemma_key_is_planned(
    work: WorkView,
    plans: Seq<DerivationView>,
    keys: Seq<Seq<char>>,
    key: Seq<char>,
)
    requires
        are_regular(work.frontier),
        keys == ascending(work.frontier.dom()),
        work.findings().derivations(work.frontier, keys, Seq::empty()) == Ok::<
            Seq<DerivationView>,
            ErrorView,
        >(plans),
        work.frontier.contains_key(key),
        work.graph.contains_key(key),
    ensures
        planned(plans).contains(full_path(key)),
        plan_of(plans, full_path(key)) == Some(
            work.findings().derivation(key, ascending(work.frontier[key])),
        ),
{
    let findings = work.findings();
    let own = findings.derivation(key, ascending(work.frontier[key]));
    lemma_ascending_exists(work.frontier.dom());
    lemma_derivations_include(findings, work.frontier, keys, Seq::empty());
    assert(keys.to_set().contains(key));
    let at = keys.index_of(key);
    assert(keys[at] == key);
    assert(plans.contains(own));
    let place = plans.index_of(own);
    assert(planned(plans)[place] == full_path(key));
    lemma_plan_of(plans, full_path(key));
    let found = plan_of(plans, full_path(key))->0;
    assert(plans.contains(found) && found.drv == full_path(key));
    let i = choose|i: int|
        0 <= i < keys.len() && found == findings.derivation(
            #[trigger] keys[i],
            ascending(work.frontier[keys[i]]),
        );
    assert(keys.to_set().contains(keys[i]));
    assert(work.frontier.contains_key(keys[i]));
    lemma_plain_paths_differ(keys[i], key);
}

// ---------------------------------------------------------------------------
// The steps
// ---------------------------------------------------------------------------

/// What is required after a round is as regular as before, and holds the roots.
pub proof fn lemma_next_is_ready(work: WorkView, next: WorkView)
    requires
        work.is_ready(),
        work.round().verdict() is Ok,
        next == (WorkView {
            required: work.round().next_required(),
            frontier: work.round().next_frontier(),
            ..work
        }),
    ensures
        next.is_ready(),
{
    let round = work.round();
    let done = round.required.dom();
    lemma_required_after_regular(round, done);
    lemma_frontier_after_regular(round, done);
    assert forall|i: int, k: int|
        0 <= i < next.roots.len() && 0 <= k < next.roots[i].outputs.len() implies members_of(
        next.required,
        key_of(next.roots[i].drv),
    ).contains(#[trigger] next.roots[i].outputs[k]) by {
        law_expansion_keeps_outputs(round, key_of(work.roots[i].drv), work.roots[i].outputs[k]);
    }
}

proof fn lemma_expand_covers(work: WorkView)
    requires
        work.is_ready(),
        work.is_loaded(),
    ensures
        covers(work.expand()),
{
    let round = work.round();
    if let Ok(changed) = round.verdict() {
        let next = WorkView {
            required: round.next_required(),
            frontier: round.next_frontier(),
            ..work
        };
        lemma_next_is_ready(work, next);
        if !changed {
            law_no_change_is_complete(round);
            assert forall|key: Seq<char>, name: Seq<char>|
                members_of(next.required, key).contains(name) implies #[trigger] members_of(
                next.frontier,
                key,
            ).contains(name) by {
                assert(members_of(round.next_frontier(), key) == members_of(round.frontier, key));
                assert(members_of(round.frontier, key).contains(name));
            }
            lemma_finish_covers(next);
        }
    }
}

proof fn lemma_probe_covers(work: WorkView)
    requires
        work.is_ready(),
        work.is_loaded(),
    ensures
        covers(work.probe()),
{
    lemma_expand_covers(work);
}

proof fn lemma_resolved_covers(work: WorkView, outputs: Seq<OutputRef>, known: Paths)
    requires
        work.is_ready(),
        work.is_loaded(),
    ensures
        covers(work.resolved(outputs, known)),
{
    lemma_probe_covers(WorkView { paths: work.paths.union_prefer_right(known), ..work });
}

proof fn lemma_resolve_covers(work: WorkView)
    requires
        work.is_ready(),
        work.is_loaded(),
    ensures
        covers(work.resolve()),
{
    lemma_probe_covers(work);
    let outputs = unresolved(work.required, work.paths);
    if let Ok((known, pending)) = sorted_out(work.graph, outputs, Map::empty(), Seq::empty()) {
        lemma_resolved_covers(work, outputs, known);
    }
}

pub proof fn lemma_missing_keys(work: WorkView, key: Seq<char>)
    requires
        are_regular(work.required),
        work.required.contains_key(key),
    ensures
        work.graph.contains_key(key) || missing_keys(work.required, work.graph).contains(key),
{
    let order = ascending(work.required.dom());
    lemma_ascending_exists(work.required.dom());
    assert(order.to_set().contains(key));
    let lacks = |key: Seq<char>| !work.graph.contains_key(key);
    if !work.graph.contains_key(key) {
        let i = order.index_of(key);
        assert(order[i] == key && lacks(order[i]));
        order.lemma_filter_contains(lacks, i);
    }
}

proof fn lemma_begin_covers(work: WorkView)
    requires
        work.is_ready(),
    ensures
        covers(work.begin_round()),
{
    let missing = missing_keys(work.required, work.graph);
    assert forall|key: Seq<char>| #[trigger]
        work.required.contains_key(key) implies work.graph.contains_key(key)
        || missing.skip(0).contains(key) by {
        lemma_missing_keys(work, key);
        assert(missing.skip(0) =~= missing);
    }
    if missing.len() == 0 {
        assert(work.is_loaded());
        lemma_resolve_covers(work);
    }
}

proof fn lemma_ask_hint_covers(work: WorkView, at: nat)
    requires
        work.is_ready(),
    ensures
        covers(work.ask_hint(at)),
{
    lemma_begin_covers(work);
}

pub proof fn lemma_root_outputs(roots: Seq<RootView>)
    requires
        roots_are_plain(roots),
    ensures
        are_regular(root_outputs(roots)),
        requires_roots(root_outputs(roots), roots),
    decreases roots.len(),
{
    if roots.len() > 0 {
        let rest = roots.drop_last();
        assert forall|i: int| 0 <= i < rest.len() implies is_plain((#[trigger] rest[i]).drv)
            && full_path(rest[i].drv) == rest[i].drv by {
            assert(rest[i] == roots[i]);
        }
        lemma_root_outputs(rest);
        let last = roots.last();
        assert(last == roots[roots.len() - 1]);
        let earlier = root_outputs(rest);
        lemma_inserted_regular(earlier, key_of(last.drv), last.outputs.to_set());
        assert forall|i: int, k: int|
            0 <= i < roots.len() && 0 <= k < roots[i].outputs.len() implies members_of(
            root_outputs(roots),
            key_of(roots[i].drv),
        ).contains(#[trigger] roots[i].outputs[k]) by {
            if i < rest.len() {
                assert(rest[i].outputs[k] == roots[i].outputs[k]);
            } else {
                assert(last.outputs.to_set().contains(last.outputs[k]));
            }
        }
    }
}

proof fn lemma_keyed_nodes_regular(keys: Seq<Seq<char>>, nodes: Map<Seq<char>, NodeView>)
    requires
        forall|i: int| 0 <= i < keys.len() ==> is_regular(nodes[#[trigger] keys[i]]),
    ensures
        graph_is_regular(keyed_nodes(keys, nodes)),
    decreases keys.len(),
{
    if keys.len() > 0 {
        let rest = keys.drop_last();
        assert forall|i: int| 0 <= i < rest.len() implies is_regular(
            nodes[#[trigger] rest[i]],
        ) by {
            assert(rest[i] == keys[i]);
        }
        lemma_keyed_nodes_regular(rest, nodes);
        assert(is_regular(nodes[keys[keys.len() - 1]]));
    }
}

pub proof fn lemma_graph_of_regular(nodes: Map<Seq<char>, NodeView>)
    requires
        reports_regularly(ReplyView::Derivations(nodes)),
    ensures
        graph_is_regular(graph_of(nodes)),
{
    let keys = ascending(nodes.dom());
    lemma_ascending_exists(nodes.dom());
    assert forall|i: int| 0 <= i < keys.len() implies is_regular(nodes[#[trigger] keys[i]]) by {
        assert(keys.to_set().contains(keys[i]));
        assert(nodes.contains_key(keys[i]));
    }
    lemma_keyed_nodes_regular(keys, nodes);
}

proof fn lemma_roots_of_plain(entries: Seq<EntryView>)
    requires
        forall|i: int| 0 <= i < entries.len() ==> is_plain((#[trigger] entries[i]).drv_path),
    ensures
        roots_are_plain(roots_of(entries)),
{
    let roots = roots_of(entries);
    assert forall|i: int| 0 <= i < roots.len() implies is_plain((#[trigger] roots[i]).drv)
        && full_path(roots[i].drv) == roots[i].drv by {
        let entry = entries[i];
        assert(is_plain(entry.drv_path));
        assert(roots[i] == root_of(entry));
        law_store_path_keeps_key(entry.drv_path);
        law_store_path_idempotent(entry.drv_path);
    }
}

pub proof fn lemma_all_loaded(keys: Seq<Seq<char>>, graph: Map<Seq<char>, NodeView>)
    requires
        all_loaded(keys, graph) is Ok,
    ensures
        forall|i: int| 0 <= i < keys.len() ==> graph.contains_key(#[trigger] keys[i]),
    decreases keys.len(),
{
    if keys.len() > 0 {
        let rest = keys.drop_first();
        lemma_all_loaded(rest, graph);
        assert forall|i: int| 0 <= i < keys.len() implies graph.contains_key(
            #[trigger] keys[i],
        ) by {
            if i > 0 {
                assert(rest[i - 1] == keys[i]);
            }
        }
    }
}

proof fn lemma_load_covers(
    work: WorkView,
    keys: Seq<Seq<char>>,
    next: nat,
    nodes: Map<Seq<char>, NodeView>,
)
    requires
        (PlannerView { work, stage: StageView::Load { keys, next } }).is_grounded(),
        next < keys.len(),
        reports_regularly(ReplyView::Derivations(nodes)),
        all_loaded(batch(keys, next), graph_of(nodes)) is Ok,
    ensures
        ({
            let loaded = WorkView {
                graph: work.graph.union_prefer_right(graph_of(nodes)),
                ..work
            };
            let end = batch_end(keys.len(), next);
            covers(
                if end < keys.len() {
                    loaded.ask_derivations(keys, end)
                } else {
                    loaded.resolve()
                },
            )
        }),
{
    let report = graph_of(nodes);
    let loaded = WorkView { graph: work.graph.union_prefer_right(report), ..work };
    let end = batch_end(keys.len(), next);
    lemma_graph_of_regular(nodes);
    lemma_all_loaded(batch(keys, next), report);
    assert(loaded.is_ready());
    assert forall|key: Seq<char>| #[trigger]
        loaded.required.contains_key(key) implies loaded.graph.contains_key(key) || keys.skip(
        end as int,
    ).contains(key) by {
        if !work.graph.contains_key(key) {
            let waiting = keys.skip(next as int);
            assert(waiting.contains(key));
            let i = waiting.index_of(key);
            assert(keys[next + i] == key);
            if next + i < end {
                assert(batch(keys, next)[i] == key);
                assert(report.contains_key(key));
            } else {
                assert(keys.skip(end as int)[next + i - end] == key);
            }
        }
    }
    if end >= keys.len() {
        assert forall|key: Seq<char>| #[trigger]
            loaded.required.contains_key(key) implies loaded.graph.contains_key(key) by {
            assert(keys.skip(end as int).len() == 0);
        }
        lemma_resolve_covers(loaded);
    }
}

// ---------------------------------------------------------------------------
// Laws
// ---------------------------------------------------------------------------

/// A session starts without having lost anything.
pub proof fn law_opening_covers(inputs: InputsView)
    ensures
        covers(opening(inputs)),
{
    assert(are_regular(Map::empty()));
}

/// A session never loses anything of what was requested, and the plan it
/// finishes with realizes every requested output of every root, and every output
/// that a planned derivation depends on. Its counts are those of its derivations.
///
/// Paths with the store directory twice in front of them are left out: the keys
/// of two such derivations may stand for one store path.
pub proof fn law_steps_cover(planner: PlannerView, reply: ReplyView)
    requires
        planner.well_formed(),
        planner.is_grounded(),
        planner.accepts(reply),
        reports_regularly(reply),
    ensures
        covers(planner.advance(reply)),
{
    let work = planner.work;
    match (planner.stage, reply) {
        (StageView::Roots, ReplyView::Entries(entries)) => {
            lemma_roots_of_plain(entries);
        },
        (StageView::RootGraph, ReplyView::Derivations(nodes)) => {
            if work.roots.len() == 0 {
                let plan = work.plan(Seq::empty(), no_counts());
                assert(planned(plan.derivations) =~= Seq::empty());
            } else {
                lemma_graph_of_regular(nodes);
                lemma_root_outputs(work.roots);
                lemma_ask_hint_covers(
                    WorkView { graph: graph_of(nodes), required: root_outputs(work.roots), ..work },
                    0,
                );
            }
        },
        (StageView::Hint { at }, ReplyView::Derivations(nodes)) => {
            let keys = ascending(graph_of(nodes).dom());
            let hint = work.inputs.hints[at as int];
            lemma_ask_hint_covers(
                WorkView { hint_drvs: work.hint_drvs.insert(key_of(keys[0]), hint), ..work },
                at + 1,
            );
        },
        (StageView::Round, _) => {
            lemma_begin_covers(work);
        },
        (StageView::Load { keys, next }, ReplyView::Derivations(nodes)) => {
            if all_loaded(batch(keys, next), graph_of(nodes)) is Ok {
                lemma_load_covers(work, keys, next, nodes);
            }
        },
        (
            StageView::Resolve { outputs, resolved, pending, next },
            ReplyView::Entries(entries),
        ) => {
            lemma_resolved_covers(work, outputs, with_entries(resolved, entries));
        },
        (StageView::Stores { local, pending, stores }, ReplyView::Stores(answers)) => {
            lemma_expand_covers(
                WorkView {
                    availability: work.availability.union_prefer_right(
                        availability_of(local, pending, stores_with_answers(stores, answers)),
                    ),
                    ..work
                },
            );
        },
        _ => {},
    }
}

} // verus!
