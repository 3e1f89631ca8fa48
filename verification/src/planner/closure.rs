//! Closure: what has to be realized finds its inputs in the plan.
//!
//! An output that was found in no store has to be realized from the inputs of
//! its derivation. A session requires those inputs as soon as the output enters
//! the frontier, and forgets none of them before it finishes.

use vstd::prelude::*;
use vstd::set_lib::lemma_set_subset_finite;

use crate::error::ErrorView;
use crate::planner::assembly::{counts_of, InputsView};
use crate::planner::coverage::{
    are_regular, lemma_all_loaded, lemma_derivations_include, lemma_graph_of_regular,
    lemma_missing_keys, lemma_next_is_ready, lemma_required_is_realized, lemma_root_outputs,
    realizes, reports_regularly, roots_are_plain,
};
use crate::planner::frontier::{
    law_expansion_keeps_outputs, law_no_change_is_complete,
    law_unavailable_derivations_require_their_inputs, Outputs, Paths, Round,
};
use crate::planner::graph::{
    full_path, graph_of, key_of, law_store_path_keeps_key, EntryView, NodeView,
};
use crate::planner::order::{
    in_dependency_order, law_every_derivation_once, lemma_plan_of, planned,
};
use crate::planner::outputs::{
    all_loaded, entry_paths, missing_keys, output_spec, outputs_in, sorted_out, unprobed,
    unresolved, with_entries, OutputRef,
};
use crate::planner::plan::{no_counts, DerivationView, PlanView, ProbeView};
use crate::planner::probes::{availability_of, not_local, StoreView};
use crate::planner::session::{
    batch, batch_end, opening, root_outputs, stores_with_answers, PlannerView, ProgressView,
    ReplyView, StageView, StepView, WorkView,
};
use crate::sorted::{ascending, lemma_ascending_exists, members_of};

verus! {

// ---------------------------------------------------------------------------
// What is stated
// ---------------------------------------------------------------------------

/// Everything that a derivation takes as an input is required.
pub open spec fn are_required(required: Outputs, inputs: Map<Seq<char>, Seq<Seq<char>>>) -> bool {
    forall|input: Seq<char>, output: Seq<char>|
        inputs.contains_key(input) && #[trigger] inputs[input].contains(output) ==> members_of(
            required,
            key_of(input),
        ).contains(output)
}

impl WorkView {
    /// The output was found in a store, so nothing has to be done for it.
    pub open spec fn is_settled(self, key: Seq<char>, name: Seq<char>) -> bool {
        self.graph[key].system != "builtin"@ && self.round().is_available(key, name)
    }

    /// Every output that has entered the frontier was found, or has all its
    /// inputs required.
    pub open spec fn is_fed(self) -> bool {
        forall|key: Seq<char>, name: Seq<char>| #[trigger]
            members_of(self.frontier, key).contains(name) ==> self.graph.contains_key(key) && (
            self.is_settled(key, name) || are_required(self.required, self.graph[key].inputs))
    }
}

/// The plan was assembled from what is known in `work`, and for every action on
/// an output that was not found, all inputs of the derivation have their actions.
pub open spec fn closes(work: WorkView, plan: PlanView) -> bool {
    &&& work.finish() == Ok::<ProgressView, ErrorView>(ProgressView::Done(plan))
    &&& forall|i: int, j: int, input: Seq<char>, output: Seq<char>|
        #![trigger
            plan.derivations[i].actions[j],
            work.graph[key_of(plan.derivations[i].drv)].inputs[input].contains(output)
        ]
        0 <= i < plan.derivations.len() && 0 <= j < plan.derivations[i].actions.len()
            && !work.is_settled(
            key_of(plan.derivations[i].drv),
            plan.derivations[i].actions[j].output,
        ) && work.graph[key_of(plan.derivations[i].drv)].inputs.contains_key(input)
            && work.graph[key_of(plan.derivations[i].drv)].inputs[input].contains(output)
            ==> realizes(plan, full_path(key_of(input)), output)
}

/// Two partial accounts of output paths do not contradict each other.
pub open spec fn paths_agree(left: Paths, right: Paths) -> bool {
    forall|output: OutputRef|
        left.contains_key(output) && #[trigger] right.contains_key(output) ==> left[output]
            == right[output]
}

/// Of none of the outputs anything is known.
pub open spec fn are_unknown(
    outputs: Seq<Seq<char>>,
    availability: Map<Seq<char>, ProbeView>,
) -> bool {
    forall|i: int| 0 <= i < outputs.len() ==> !availability.contains_key(#[trigger] outputs[i])
}

impl PlannerView {
    /// The reply says of known derivations and outputs what has been reported
    /// of them before.
    pub open spec fn agrees_with(self, reply: ReplyView) -> bool {
        match (self.stage, reply) {
            (StageView::Load { .. }, ReplyView::Derivations(nodes)) => forall|key: Seq<char>|
                self.work.graph.contains_key(key) && #[trigger] graph_of(nodes).contains_key(key)
                    ==> graph_of(nodes)[key] == self.work.graph[key],
            (StageView::Resolve { .. }, ReplyView::Entries(entries)) => forall|i: int|
                0 <= i < entries.len() ==> (#[trigger] entries[i]).outputs.dom().finite()
                    && paths_agree(entry_paths(entries[i]), self.work.paths),
            _ => true,
        }
    }

    /// The session knows the inputs of all that it has to realize.
    pub open spec fn is_fed(self) -> bool {
        &&& self.work.is_fed()
        &&& self.work.paths.dom().finite()
        &&& match self.stage {
            StageView::Roots => self.work.frontier == Map::<Seq<char>, Set<Seq<char>>>::empty(),
            StageView::RootGraph => self.work.frontier == Map::<
                Seq<char>,
                Set<Seq<char>>,
            >::empty(),
            StageView::Resolve { resolved, .. } => resolved.dom().finite() && paths_agree(
                resolved,
                self.work.paths,
            ),
            StageView::Local { paths } => are_unknown(paths, self.work.availability),
            StageView::Stores { pending, .. } => are_unknown(pending, self.work.availability),
            _ => true,
        }
    }
}

/// A step leads to an error, to a session that knows the inputs of all that it
/// has to realize, or to a plan that is closed under inputs.
pub open spec fn feeds(step: StepView) -> bool {
    match step {
        Err(_) => true,
        Ok(ProgressView::Ask { planner, .. }) => planner.is_fed(),
        Ok(ProgressView::Done(plan)) => exists|work: WorkView| #[trigger] closes(work, plan),
    }
}

// ---------------------------------------------------------------------------
// Rounds
// ---------------------------------------------------------------------------

/// Knowing more takes nothing back.
proof fn lemma_more_is_fed(before: WorkView, after: WorkView)
    requires
        before.is_fed(),
        after.frontier == before.frontier,
        after.required == before.required,
        forall|key: Seq<char>| #[trigger]
            before.graph.contains_key(key) ==> after.graph.contains_key(key) && after.graph[key]
                == before.graph[key],
        forall|output: OutputRef| #[trigger]
            before.paths.contains_key(output) ==> after.paths.contains_key(output)
                && after.paths[output] == before.paths[output],
        forall|path: Seq<char>| #[trigger]
            before.availability.contains_key(path) && before.availability[path].is_available()
                ==> after.availability.contains_key(path)
                && after.availability[path].is_available(),
    ensures
        after.is_fed(),
{
    assert forall|key: Seq<char>, name: Seq<char>| #[trigger]
        members_of(after.frontier, key).contains(name) implies after.graph.contains_key(key) && (
    after.is_settled(key, name) || are_required(after.required, after.graph[key].inputs)) by {
        assert(members_of(before.frontier, key).contains(name));
        if before.is_settled(key, name) {
            assert(before.paths.contains_key((key, name)));
            assert(before.availability.contains_key(before.paths[(key, name)]));
            assert(after.is_settled(key, name));
        }
    }
}

proof fn lemma_round_is_fed(work: WorkView, next: WorkView)
    requires
        work.is_ready(),
        work.is_loaded(),
        work.is_fed(),
        work.round().verdict() is Ok,
        next == (WorkView {
            required: work.round().next_required(),
            frontier: work.round().next_frontier(),
            ..work
        }),
    ensures
        next.is_fed(),
{
    let round = work.round();
    assert forall|key: Seq<char>, name: Seq<char>| #[trigger]
        members_of(next.frontier, key).contains(name) implies next.graph.contains_key(key) && (
    next.is_settled(key, name) || are_required(next.required, next.graph[key].inputs)) by {
        if members_of(work.frontier, key).contains(name) {
            if !work.is_settled(key, name) {
                let inputs = work.graph[key].inputs;
                assert(are_required(work.required, inputs));
                assert forall|input: Seq<char>, output: Seq<char>|
                    inputs.contains_key(input) && #[trigger] inputs[input].contains(
                        output,
                    ) implies members_of(next.required, key_of(input)).contains(output) by {
                    law_expansion_keeps_outputs(round, key_of(input), output);
                }
            } else {
                assert(next.is_settled(key, name));
            }
        } else {
            lemma_entered_is_fed(work, next, key, name);
        }
    }
}

proof fn lemma_entered_is_fed(work: WorkView, next: WorkView, key: Seq<char>, name: Seq<char>)
    requires
        work.is_ready(),
        work.is_loaded(),
        work.round().verdict() is Ok,
        next == (WorkView {
            required: work.round().next_required(),
            frontier: work.round().next_frontier(),
            ..work
        }),
        members_of(next.frontier, key).contains(name),
        !members_of(work.frontier, key).contains(name),
    ensures
        next.graph.contains_key(key),
        next.is_settled(key, name) || are_required(next.required, next.graph[key].inputs),
{
    let round = work.round();
    assert(round.entering(key).contains(name));
    assert(round.required.contains_key(key));
    if round.is_leaf(key) {
        assert(round.is_available(key, name));
        assert(next.is_settled(key, name));
    } else {
        let inputs = work.graph[key].inputs;
        assert forall|input: Seq<char>, output: Seq<char>|
            inputs.contains_key(input) && #[trigger] inputs[input].contains(
                output,
            ) implies members_of(next.required, key_of(input)).contains(output) by {
            law_unavailable_derivations_require_their_inputs(round, key, input, output);
        }
    }
}

// ---------------------------------------------------------------------------
// The end of a session
// ---------------------------------------------------------------------------

/// Every planned derivation is that of a frontier key.
pub proof fn lemma_planned_from(work: WorkView, plan: PlanView, i: int) -> (key: Seq<char>)
    requires
        work.finish() == Ok::<ProgressView, ErrorView>(ProgressView::Done(plan)),
        are_regular(work.frontier),
        0 <= i < plan.derivations.len(),
    ensures
        work.frontier.contains_key(key),
        key_of(plan.derivations[i].drv) == key,
        plan.derivations[i] == work.findings().derivation(key, ascending(work.frontier[key])),
{
    let findings = work.findings();
    let keys = ascending(work.frontier.dom());
    lemma_ascending_exists(work.frontier.dom());
    lemma_derivations_include(findings, work.frontier, keys, Seq::empty());
    let plans = findings.derivations(work.frontier, keys, Seq::empty())->Ok_0;
    let derivation = in_dependency_order(plans, work.roots)[i];
    law_every_derivation_once(plans, work.roots);
    lemma_plan_of(plans, derivation.drv);
    assert(plans.contains(derivation));
    let at = choose|at: int|
        0 <= at < keys.len() && derivation == findings.derivation(
            #[trigger] keys[at],
            ascending(work.frontier[keys[at]]),
        );
    let key = keys[at];
    assert(keys.to_set().contains(key));
    law_store_path_keeps_key(key);
    key
}

proof fn lemma_finish_closes(work: WorkView)
    requires
        work.is_ready(),
        work.is_loaded(),
        work.is_fed(),
        forall|key: Seq<char>, name: Seq<char>|
            members_of(work.required, key).contains(name) ==> #[trigger] members_of(
                work.frontier,
                key,
            ).contains(name),
    ensures
        feeds(work.finish()),
{
    let keys = ascending(work.frontier.dom());
    if let Ok(ProgressView::Done(plan)) = work.finish() {
        let plans = work.findings().derivations(work.frontier, keys, Seq::empty())->Ok_0;
        assert forall|i: int, j: int, input: Seq<char>, output: Seq<char>|
            #![trigger
            plan.derivations[i].actions[j],
            work.graph[key_of(plan.derivations[i].drv)].inputs[input].contains(output)
        ]
            0 <= i < plan.derivations.len() && 0 <= j < plan.derivations[i].actions.len()
                && !work.is_settled(
                key_of(plan.derivations[i].drv),
                plan.derivations[i].actions[j].output,
            ) && work.graph[key_of(plan.derivations[i].drv)].inputs.contains_key(input)
                && work.graph[key_of(plan.derivations[i].drv)].inputs[input].contains(
                output,
            ) implies realizes(plan, full_path(key_of(input)), output) by {
            let derivation = plan.derivations[i];
            let key = lemma_planned_from(work, plan, i);
            let names = ascending(work.frontier[key]);
            lemma_ascending_exists(work.frontier[key]);
            assert(names.to_set().contains(names[j]));
            assert(members_of(work.frontier, key).contains(names[j]));
            assert(derivation.actions[j].output == names[j]);
            assert(are_required(work.required, work.graph[key].inputs));
            assert(members_of(work.required, key_of(input)).contains(output));
            lemma_required_is_realized(work, plans, keys, plan, key_of(input), output);
        }
        assert(closes(work, plan));
    }
}

/// Without roots there is nothing to realize.
proof fn lemma_nothing_closes(work: WorkView)
    requires
        work.roots.len() == 0,
        work.frontier == Map::<Seq<char>, Set<Seq<char>>>::empty(),
    ensures
        feeds(work.complete(Seq::empty(), no_counts())),
{
    let none = Seq::<DerivationView>::empty();
    let keys = ascending(work.frontier.dom());
    lemma_ascending_exists(work.frontier.dom());
    if keys.len() > 0 {
        assert(keys.to_set().contains(keys[0]));
    }
    assert(work.findings().derivations(work.frontier, keys, none) == Ok::<
        Seq<DerivationView>,
        ErrorView,
    >(none));
    let ordered = in_dependency_order(none, work.roots);
    law_every_derivation_once(none, work.roots);
    if ordered.len() > 0 {
        assert(planned(ordered).contains(planned(ordered)[0]));
        assert(planned(none).contains(planned(ordered)[0]));
    }
    assert(ordered =~= none);
    assert(counts_of(none) == no_counts());
    if let Ok(ProgressView::Done(plan)) = work.complete(none, no_counts()) {
        assert(closes(work, plan));
    }
}

// ---------------------------------------------------------------------------
// The steps
// ---------------------------------------------------------------------------

proof fn lemma_expand_feeds(work: WorkView)
    requires
        work.is_ready(),
        work.is_loaded(),
        work.is_fed(),
        work.paths.dom().finite(),
    ensures
        feeds(work.expand()),
{
    let round = work.round();
    if let Ok(changed) = round.verdict() {
        let next = WorkView {
            required: round.next_required(),
            frontier: round.next_frontier(),
            ..work
        };
        lemma_round_is_fed(work, next);
        if !changed {
            lemma_next_is_ready(work, next);
            law_no_change_is_complete(round);
            assert forall|key: Seq<char>, name: Seq<char>|
                members_of(next.required, key).contains(name) implies #[trigger] members_of(
                next.frontier,
                key,
            ).contains(name) by {
                assert(members_of(round.next_frontier(), key) == members_of(round.frontier, key));
                assert(members_of(round.frontier, key).contains(name));
            }
            lemma_finish_closes(next);
        }
    }
}

proof fn lemma_probe_feeds(work: WorkView)
    requires
        work.is_ready(),
        work.is_loaded(),
        work.is_fed(),
        work.paths.dom().finite(),
    ensures
        feeds(work.probe()),
{
    lemma_expand_feeds(work);
    let wanted = unprobed(work.graph, work.hint_drvs, work.paths, work.availability);
    work.paths.lemma_values_len();
    assert forall|path: Seq<char>| wanted.contains(path) implies work.paths.values().contains(
        path,
    ) by {
        let (key, name) = choose|key: Seq<char>, name: Seq<char>| #[trigger]
            work.paths.contains_key((key, name)) && work.paths[(key, name)] == path
                && work.graph.contains_key(key) && work.graph[key].system != "builtin"@;
        assert(work.paths.contains_key((key, name)));
    }
    lemma_set_subset_finite(work.paths.values(), wanted);
    lemma_ascending_exists(wanted);
    let outputs = ascending(wanted);
    assert forall|i: int| 0 <= i < outputs.len() implies !work.availability.contains_key(
        #[trigger] outputs[i],
    ) by {
        assert(outputs.to_set().contains(outputs[i]));
    }
}

proof fn lemma_resolved_feeds(work: WorkView, outputs: Seq<OutputRef>, known: Paths)
    requires
        work.is_ready(),
        work.is_loaded(),
        work.is_fed(),
        work.paths.dom().finite(),
        known.dom().finite(),
        paths_agree(known, work.paths),
    ensures
        feeds(work.resolved(outputs, known)),
{
    let after = WorkView { paths: work.paths.union_prefer_right(known), ..work };
    assert(after.paths.dom() =~= work.paths.dom().union(known.dom()));
    lemma_more_is_fed(work, after);
    lemma_probe_feeds(after);
}

proof fn lemma_sorted_out(
    graph: Map<Seq<char>, NodeView>,
    outputs: Seq<OutputRef>,
    known: Paths,
    pending: Seq<Seq<char>>,
)
    requires
        known.dom().finite(),
    ensures
        match sorted_out(graph, outputs, known, pending) {
            Err(_) => true,
            Ok((all, _)) => all.dom().finite() && forall|output: OutputRef| #[trigger]
                all.contains_key(output) ==> known.contains_key(output) || outputs.contains(output),
        },
    decreases outputs.len(),
{
    if outputs.len() > 0 {
        let rest = outputs.drop_first();
        let (key, name) = outputs[0];
        if graph.contains_key(key) && graph[key].outputs.contains_key(name) {
            match graph[key].outputs[name] {
                Some(path) => {
                    let more = known.insert((key, name), full_path(path));
                    lemma_sorted_out(graph, rest, more, pending);
                },
                None => {
                    let more = pending.push(output_spec((key, name)));
                    lemma_sorted_out(graph, rest, known, more);
                },
            }
        }
        assert forall|output: OutputRef| rest.contains(output) implies outputs.contains(output) by {
            let i = rest.index_of(output);
            assert(outputs[i + 1] == output);
        }
    }
}

/// The paths that the graph gives are those of outputs without a known path.
pub proof fn lemma_sorted_out_agrees(work: WorkView, outputs: Seq<OutputRef>)
    requires
        outputs == unresolved(work.required, work.paths),
    ensures
        match sorted_out(work.graph, outputs, Map::empty(), Seq::empty()) {
            Err(_) => true,
            Ok((known, _)) => known.dom().finite() && paths_agree(known, work.paths),
        },
{
    let all = outputs_in(work.required, ascending(work.required.dom()));
    let lacks = |output: OutputRef| !work.paths.contains_key(output);
    lemma_sorted_out(work.graph, outputs, Map::empty(), Seq::empty());
    if let Ok((known, pending)) = sorted_out(work.graph, outputs, Map::empty(), Seq::empty()) {
        assert forall|output: OutputRef|
            known.contains_key(output) && #[trigger] work.paths.contains_key(
                output,
            ) implies known[output] == work.paths[output] by {
            let i = outputs.index_of(output);
            all.lemma_filter_pred(lacks, i);
        }
    }
}

proof fn lemma_resolve_feeds(work: WorkView)
    requires
        work.is_ready(),
        work.is_loaded(),
        work.is_fed(),
        work.paths.dom().finite(),
    ensures
        feeds(work.resolve()),
{
    lemma_probe_feeds(work);
    let outputs = unresolved(work.required, work.paths);
    if let Ok((known, pending)) = sorted_out(work.graph, outputs, Map::empty(), Seq::empty()) {
        lemma_sorted_out_agrees(work, outputs);
        lemma_resolved_feeds(work, outputs, known);
    }
}

proof fn lemma_begin_feeds(work: WorkView)
    requires
        work.is_ready(),
        work.is_fed(),
        work.paths.dom().finite(),
    ensures
        feeds(work.begin_round()),
{
    let missing = missing_keys(work.required, work.graph);
    if missing.len() == 0 {
        assert forall|key: Seq<char>| #[trigger]
            work.required.contains_key(key) implies work.graph.contains_key(key) by {
            lemma_missing_keys(work, key);
        }
        lemma_resolve_feeds(work);
    }
}

proof fn lemma_ask_hint_feeds(work: WorkView, at: nat)
    requires
        work.is_ready(),
        work.is_fed(),
        work.paths.dom().finite(),
    ensures
        feeds(work.ask_hint(at)),
{
    lemma_begin_feeds(work);
}

proof fn lemma_entry_paths_finite(entry: EntryView)
    requires
        entry.outputs.dom().finite(),
    ensures
        entry_paths(entry).dom().finite(),
{
    let key = key_of(entry.drv_path);
    let named = |name: Seq<char>| (key, name);
    entry.outputs.dom().lemma_map_finite(named);
    assert forall|output: OutputRef| entry_paths(entry).dom().contains(
        output,
    ) implies entry.outputs.dom().map(named).contains(output) by {
        assert(named(output.1) == output);
    }
    lemma_set_subset_finite(entry.outputs.dom().map(named), entry_paths(entry).dom());
}

pub proof fn lemma_with_entries(known: Paths, entries: Seq<EntryView>, paths: Paths)
    requires
        known.dom().finite(),
        paths_agree(known, paths),
        forall|i: int|
            0 <= i < entries.len() ==> (#[trigger] entries[i]).outputs.dom().finite()
                && paths_agree(entry_paths(entries[i]), paths),
    ensures
        with_entries(known, entries).dom().finite(),
        paths_agree(with_entries(known, entries), paths),
    decreases entries.len(),
{
    if entries.len() > 0 {
        let rest = entries.drop_last();
        assert forall|i: int| 0 <= i < rest.len() implies (#[trigger] rest[i]).outputs.dom().finite()
            && paths_agree(entry_paths(rest[i]), paths) by {
            assert(rest[i] == entries[i]);
        }
        lemma_with_entries(known, rest, paths);
        let last = entries[entries.len() - 1];
        assert(entries.last() == last);
        lemma_entry_paths_finite(last);
        let all = with_entries(known, entries);
        assert(all.dom() =~= with_entries(known, rest).dom().union(entry_paths(last).dom()));
    }
}

proof fn lemma_load_feeds(
    work: WorkView,
    keys: Seq<Seq<char>>,
    next: nat,
    nodes: Map<Seq<char>, NodeView>,
)
    requires
        (PlannerView { work, stage: StageView::Load { keys, next } }).is_grounded(),
        (PlannerView { work, stage: StageView::Load { keys, next } }).is_fed(),
        (PlannerView { work, stage: StageView::Load { keys, next } }).agrees_with(
            ReplyView::Derivations(nodes),
        ),
        next < keys.len(),
        reports_regularly(ReplyView::Derivations(nodes)),
        all_loaded(batch(keys, next), graph_of(nodes)) is Ok,
    ensures
        ({
            let loaded = WorkView {
                graph: work.graph.union_prefer_right(graph_of(nodes)),
                ..work
            };
            let end = batch_end(keys.len(), next);
            feeds(
                if end < keys.len() {
                    loaded.ask_derivations(keys, end)
                } else {
                    loaded.resolve()
                },
            )
        }),
{
    let report = graph_of(nodes);
    let loaded = WorkView { graph: work.graph.union_prefer_right(report), ..work };
    let end = batch_end(keys.len(), next);
    lemma_more_is_fed(work, loaded);
    if end >= keys.len() {
        lemma_graph_of_regular(nodes);
        lemma_all_loaded(batch(keys, next), report);
        assert forall|key: Seq<char>| #[trigger]
            loaded.required.contains_key(key) implies loaded.graph.contains_key(key) by {
            if !work.graph.contains_key(key) {
                let waiting = keys.skip(next as int);
                assert(waiting.contains(key));
                let i = waiting.index_of(key);
                assert(batch(keys, next)[i] == key);
            }
        }
        assert(loaded.is_ready());
        lemma_resolve_feeds(loaded);
    }
}

proof fn lemma_probed_feeds(
    work: WorkView,
    local: Option<Map<Seq<char>, bool>>,
    pending: Seq<Seq<char>>,
    stores: Seq<StoreView>,
)
    requires
        work.is_ready(),
        work.is_loaded(),
        work.is_fed(),
        work.paths.dom().finite(),
        are_unknown(pending, work.availability),
    ensures
        feeds(work.probed(local, pending, stores)),
{
    let found = availability_of(local, pending, stores);
    let after = WorkView { availability: work.availability.union_prefer_right(found), ..work };
    assert forall|path: Seq<char>| #[trigger]
        work.availability.contains_key(path)
            && work.availability[path].is_available() implies after.availability.contains_key(path)
        && after.availability[path].is_available() by {
        if pending.to_set().contains(path) {
            let i = pending.index_of(path);
            assert(!work.availability.contains_key(pending[i]));
        }
    }
    lemma_more_is_fed(work, after);
    lemma_expand_feeds(after);
}

proof fn lemma_rooted_feeds(work: WorkView, nodes: Map<Seq<char>, NodeView>)
    requires
        are_regular(work.frontier),
        roots_are_plain(work.roots),
        work.frontier == Map::<Seq<char>, Set<Seq<char>>>::empty(),
        work.paths.dom().finite(),
        reports_regularly(ReplyView::Derivations(nodes)),
    ensures
        feeds(work.rooted(graph_of(nodes))),
{
    if work.roots.len() == 0 {
        lemma_nothing_closes(work);
    } else {
        let rooted = WorkView {
            graph: graph_of(nodes),
            required: root_outputs(work.roots),
            ..work
        };
        lemma_graph_of_regular(nodes);
        lemma_root_outputs(work.roots);
        assert(rooted.is_fed());
        lemma_ask_hint_feeds(rooted, 0);
    }
}

proof fn lemma_hinted_feeds(work: WorkView, at: nat, graph: Map<Seq<char>, NodeView>)
    requires
        work.is_ready(),
        work.is_fed(),
        work.paths.dom().finite(),
    ensures
        feeds(work.hinted(at, graph)),
{
    let keys = ascending(graph.dom());
    let hint = work.inputs.hints[at as int];
    let after = WorkView { hint_drvs: work.hint_drvs.insert(key_of(keys[0]), hint), ..work };
    lemma_more_is_fed(work, after);
    lemma_ask_hint_feeds(after, at + 1);
}

proof fn lemma_not_local_unknown(
    outputs: Seq<Seq<char>>,
    local: Option<Map<Seq<char>, bool>>,
    availability: Map<Seq<char>, ProbeView>,
)
    requires
        are_unknown(outputs, availability),
    ensures
        are_unknown(not_local(outputs, local), availability),
    decreases outputs.len(),
{
    reveal(Seq::filter);
    if outputs.len() > 0 {
        let rest = outputs.drop_last();
        assert forall|i: int| 0 <= i < rest.len() implies !availability.contains_key(
            #[trigger] rest[i],
        ) by {
            assert(rest[i] == outputs[i]);
        }
        lemma_not_local_unknown(rest, local, availability);
        assert(!availability.contains_key(outputs[outputs.len() - 1]));
    }
}

// ---------------------------------------------------------------------------
// Laws
// ---------------------------------------------------------------------------

/// A session starts with nothing to realize.
pub proof fn law_opening_feeds(inputs: InputsView)
    ensures
        feeds(opening(inputs)),
{
}

/// Whatever has to be realized finds its inputs in the plan: a session requires
/// the inputs of every output that it found in no store, and in the plan that it
/// finishes with they all have their actions.
///
/// Left out are paths with the store directory twice in front of them, and
/// replies that contradict what has been reported before.
pub proof fn law_steps_feed(planner: PlannerView, reply: ReplyView)
    requires
        planner.well_formed(),
        planner.is_grounded(),
        planner.is_fed(),
        planner.accepts(reply),
        reports_regularly(reply),
        planner.agrees_with(reply),
    ensures
        feeds(planner.advance(reply)),
{
    let work = planner.work;
    match (planner.stage, reply) {
        (StageView::RootGraph, ReplyView::Derivations(nodes)) => {
            lemma_rooted_feeds(work, nodes);
        },
        (StageView::Hint { at }, ReplyView::Derivations(nodes)) => {
            lemma_hinted_feeds(work, at, graph_of(nodes));
        },
        (StageView::Round, _) => {
            lemma_begin_feeds(work);
        },
        (StageView::Load { keys, next }, ReplyView::Derivations(nodes)) => {
            if all_loaded(batch(keys, next), graph_of(nodes)) is Ok {
                lemma_load_feeds(work, keys, next, nodes);
            }
        },
        (
            StageView::Resolve { outputs, resolved, pending, next },
            ReplyView::Entries(entries),
        ) => {
            lemma_with_entries(resolved, entries, work.paths);
            lemma_resolved_feeds(work, outputs, with_entries(resolved, entries));
        },
        (StageView::Local { paths }, ReplyView::Local(local)) => {
            lemma_not_local_unknown(paths, local, work.availability);
        },
        (StageView::Stores { local, pending, stores }, ReplyView::Stores(answers)) => {
            lemma_probed_feeds(work, local, pending, stores_with_answers(stores, answers));
        },
        _ => {},
    }
}

/// An output that no store was found to have, and an output of a derivation that
/// is built into Nix, is realized from its inputs: all of them have their actions.
pub proof fn law_unfound_outputs_have_their_inputs(
    work: WorkView,
    plan: PlanView,
    i: int,
    j: int,
    input: Seq<char>,
    output: Seq<char>,
)
    requires
        closes(work, plan),
        are_regular(work.frontier),
        0 <= i < plan.derivations.len(),
        0 <= j < plan.derivations[i].actions.len(),
        plan.derivations[i].actions[j].probe is Missing
            || plan.derivations[i].actions[j].probe is Indeterminate
            || plan.derivations[i].system == "builtin"@,
        work.graph[key_of(plan.derivations[i].drv)].inputs.contains_key(input),
        work.graph[key_of(plan.derivations[i].drv)].inputs[input].contains(output),
    ensures
        realizes(plan, full_path(key_of(input)), output),
{
    let derivation = plan.derivations[i];
    let key = lemma_planned_from(work, plan, i);
    let name = ascending(work.frontier[key])[j];
    assert(derivation.actions[j] == work.findings().action(key, name));
    assert(derivation.system == work.graph[key].system);
    assert(!work.is_settled(key, derivation.actions[j].output));
}

} // verus!
