//! Economy: nothing is planned that nothing needs.
//!
//! The inputs of an output that a store has are only build inputs for the
//! cached result. A session requires an output only because a root requests it,
//! or because a derivation takes it as an input of which some output was found
//! nowhere.

use vstd::prelude::*;
use vstd::set_lib::lemma_set_subset_finite;

use crate::error::ErrorView;
use crate::planner::assembly::{edges, InputsView};
use crate::planner::closure::{
    lemma_planned_from, lemma_sorted_out_agrees, lemma_with_entries, paths_agree,
};
use crate::planner::coverage::{
    are_regular, lemma_all_loaded, lemma_graph_of_regular, lemma_missing_keys, lemma_next_is_ready,
    lemma_root_outputs, lemma_where_planned, reports_regularly, roots_are_plain,
};
use crate::planner::frontier::{
    law_expansion_keeps_outputs, law_frontier_stays_within_requirements, law_no_change_is_complete,
    Outputs, Paths,
};
use crate::planner::graph::{full_path, graph_of, key_of, law_key_keeps_store_path, NodeView};
use crate::planner::outputs::{
    all_known, all_loaded, missing_keys, outputs_in, skipped_paths, sorted_out, unprobed,
    unresolved, with_entries, OutputRef,
};
use crate::planner::plan::{PlanView, RootView};
use crate::planner::probes::{availability_of, not_local, reports_hit, StoreView};
use crate::planner::session::{
    batch, batch_end, opening, root_outputs, stores_with_answers, PlannerView, ProgressView,
    ReplyView, StageView, StepView, WorkView,
};
use crate::sorted::{ascending, lemma_ascending_exists, members_of};

verus! {

// ---------------------------------------------------------------------------
// What is stated
// ---------------------------------------------------------------------------

/// A root requests the output.
pub open spec fn is_requested(roots: Seq<RootView>, drv: Seq<char>, output: Seq<char>) -> bool {
    exists|i: int, k: int|
        0 <= i < roots.len() && roots[i].drv == drv && 0 <= k < roots[i].outputs.len()
            && #[trigger] roots[i].outputs[k] == output
}

/// A planned derivation depends on the output, and some output of that
/// derivation was found nowhere.
pub open spec fn is_depended_on(plan: PlanView, drv: Seq<char>, output: Seq<char>) -> bool {
    exists|d: int, e: int, k: int, j: int|
        #![trigger plan.derivations[d].dependencies[e].outputs[k], plan.derivations[d].actions[j]]
        0 <= d < plan.derivations.len() && 0 <= e < plan.derivations[d].dependencies.len()
            && plan.derivations[d].dependencies[e].drv == drv && 0 <= k
            < plan.derivations[d].dependencies[e].outputs.len()
            && plan.derivations[d].dependencies[e].outputs[k] == output && 0 <= j
            < plan.derivations[d].actions.len()
            && !plan.derivations[d].actions[j].probe.is_available()
}

/// Every planned output is requested by a root, or something that has to be
/// realized depends on it.
pub open spec fn is_economical(plan: PlanView) -> bool {
    forall|i: int, j: int|
        0 <= i < plan.derivations.len() && 0 <= j < plan.derivations[i].actions.len()
            ==> is_requested(
            plan.roots,
            plan.derivations[i].drv,
            (#[trigger] plan.derivations[i].actions[j]).output,
        ) || is_depended_on(plan, plan.derivations[i].drv, plan.derivations[i].actions[j].output)
}

// ---------------------------------------------------------------------------
// What holds throughout a session
// ---------------------------------------------------------------------------

/// A root requests the output of a derivation key.
pub open spec fn is_root_output(roots: Seq<RootView>, key: Seq<char>, name: Seq<char>) -> bool {
    exists|i: int, k: int|
        0 <= i < roots.len() && key_of(roots[i].drv) == key && 0 <= k < roots[i].outputs.len()
            && #[trigger] roots[i].outputs[k] == name
}

impl WorkView {
    /// The output was looked for and not found, or is not to be looked for.
    pub open spec fn is_unfound(self, key: Seq<char>, name: Seq<char>) -> bool {
        self.graph.contains_key(key) && (self.graph[key].system == "builtin"@ || (
        self.paths.contains_key((key, name)) && if self.availability.contains_key(
            self.paths[(key, name)],
        ) {
            !self.availability[self.paths[(key, name)]].is_available()
        } else {
            skipped_paths(self.hint_drvs, self.paths).contains(self.paths[(key, name)])
        }))
    }

    /// The derivation takes the output as an input.
    pub open spec fn takes(self, user: Seq<char>, key: Seq<char>, name: Seq<char>) -> bool {
        exists|input: Seq<char>| #[trigger]
            self.graph[user].inputs.contains_key(input) && key_of(input) == key
                && self.graph[user].inputs[input].contains(name)
    }

    /// A derivation on the frontier takes the output, and some output of that
    /// derivation was found nowhere.
    pub open spec fn is_taken(self, key: Seq<char>, name: Seq<char>) -> bool {
        exists|user: Seq<char>, wanted: Seq<char>|
            members_of(self.frontier, user).contains(wanted) && #[trigger] self.is_unfound(
                user,
                wanted,
            ) && self.takes(user, key, name)
    }

    /// Nothing is required that nothing needs, and nothing else is on the
    /// frontier.
    pub open spec fn is_lean(self) -> bool {
        &&& forall|key: Seq<char>, name: Seq<char>| #[trigger]
            members_of(self.required, key).contains(name) ==> is_root_output(self.roots, key, name)
                || self.is_taken(key, name)
        &&& forall|key: Seq<char>| #[trigger]
            members_of(self.frontier, key).subset_of(members_of(self.required, key))
    }

    /// The paths of all required outputs are known.
    pub open spec fn is_resolved(self) -> bool {
        forall|key: Seq<char>, name: Seq<char>| #[trigger]
            members_of(self.required, key).contains(name) ==> self.paths.contains_key((key, name))
    }

    /// The paths that are still to be looked for.
    pub open spec fn unprobed(self) -> Set<Seq<char>> {
        unprobed(self.graph, self.hint_drvs, self.paths, self.availability)
    }
}

impl PlannerView {
    /// The session has required nothing that nothing needs.
    pub open spec fn is_lean(self) -> bool {
        match self.stage {
            StageView::Roots => self.work.frontier == Map::<Seq<char>, Set<Seq<char>>>::empty(),
            StageView::RootGraph => self.work.frontier == Map::<
                Seq<char>,
                Set<Seq<char>>,
            >::empty(),
            StageView::Hint { .. } => self.work.is_lean() && self.work.frontier == Map::<
                Seq<char>,
                Set<Seq<char>>,
            >::empty(),
            StageView::Round => self.work.is_lean(),
            StageView::Load { .. } => self.work.is_lean(),
            StageView::Resolve { outputs, .. } => self.work.is_lean() && outputs == unresolved(
                self.work.required,
                self.work.paths,
            ),
            StageView::Local { paths } => self.work.is_lean() && self.work.is_resolved()
                && paths.to_set() == self.work.unprobed(),
            StageView::Stores { local, pending, .. } => self.work.is_lean()
                && self.work.is_resolved() && forall|path: Seq<char>| #[trigger]
                self.work.unprobed().contains(path) <==> reports_hit(local, path)
                    || pending.contains(path),
        }
    }

    /// The local store reports on nothing but what it was asked for.
    pub open spec fn keeps_to(self, reply: ReplyView) -> bool {
        match (self.stage, reply) {
            (StageView::Local { paths }, ReplyView::Local(local)) => forall|path: Seq<char>|
                #[trigger] reports_hit(local, path) ==> paths.contains(path),
            _ => true,
        }
    }
}

/// A step leads to an error, to a session that has required nothing that nothing
/// needs, or to an economical plan.
pub open spec fn saves(step: StepView) -> bool {
    match step {
        Err(_) => true,
        Ok(ProgressView::Ask { planner, .. }) => planner.is_lean(),
        Ok(ProgressView::Done(plan)) => is_economical(plan),
    }
}

// ---------------------------------------------------------------------------
// Rounds
// ---------------------------------------------------------------------------

/// Knowing more makes nothing that was not found appear.
proof fn lemma_more_is_lean(before: WorkView, after: WorkView)
    requires
        before.is_lean(),
        after.roots == before.roots,
        after.frontier == before.frontier,
        after.required == before.required,
        after.hint_drvs == before.hint_drvs,
        forall|key: Seq<char>| #[trigger]
            before.graph.contains_key(key) ==> after.graph.contains_key(key) && after.graph[key]
                == before.graph[key],
        forall|output: OutputRef| #[trigger]
            before.paths.contains_key(output) ==> after.paths.contains_key(output)
                && after.paths[output] == before.paths[output],
        forall|path: Seq<char>| #[trigger]
            before.availability.contains_key(path) && !before.availability[path].is_available()
                ==> after.availability.contains_key(path)
                && !after.availability[path].is_available(),
        forall|path: Seq<char>|
            !before.availability.contains_key(path) && #[trigger] skipped_paths(
                before.hint_drvs,
                before.paths,
            ).contains(path) ==> !after.availability.contains_key(path),
    ensures
        after.is_lean(),
{
    assert forall|key: Seq<char>, name: Seq<char>| #[trigger]
        members_of(after.required, key).contains(name) implies is_root_output(
        after.roots,
        key,
        name,
    ) || after.is_taken(key, name) by {
        assert(members_of(before.required, key).contains(name));
        if !is_root_output(before.roots, key, name) {
            let (user, wanted) = choose|user: Seq<char>, wanted: Seq<char>|
                members_of(before.frontier, user).contains(wanted) && #[trigger] before.is_unfound(
                    user,
                    wanted,
                ) && before.takes(user, key, name);
            lemma_more_is_unfound(before, after, user, wanted);
            let input = choose|input: Seq<char>| #[trigger]
                before.graph[user].inputs.contains_key(input) && key_of(input) == key
                    && before.graph[user].inputs[input].contains(name);
            assert(after.graph[user].inputs.contains_key(input));
            assert(after.takes(user, key, name));
            assert(after.is_unfound(user, wanted));
        }
    }
}

proof fn lemma_more_is_unfound(
    before: WorkView,
    after: WorkView,
    user: Seq<char>,
    wanted: Seq<char>,
)
    requires
        before.is_unfound(user, wanted),
        after.hint_drvs == before.hint_drvs,
        forall|key: Seq<char>| #[trigger]
            before.graph.contains_key(key) ==> after.graph.contains_key(key) && after.graph[key]
                == before.graph[key],
        forall|output: OutputRef| #[trigger]
            before.paths.contains_key(output) ==> after.paths.contains_key(output)
                && after.paths[output] == before.paths[output],
        forall|path: Seq<char>| #[trigger]
            before.availability.contains_key(path) && !before.availability[path].is_available()
                ==> after.availability.contains_key(path)
                && !after.availability[path].is_available(),
        forall|path: Seq<char>|
            !before.availability.contains_key(path) && #[trigger] skipped_paths(
                before.hint_drvs,
                before.paths,
            ).contains(path) ==> !after.availability.contains_key(path),
    ensures
        after.is_unfound(user, wanted),
{
    assert(before.graph.contains_key(user));
    if before.graph[user].system != "builtin"@ {
        let output = (user, wanted);
        assert(before.paths.contains_key(output));
        let path = before.paths[output];
        if !before.availability.contains_key(path) {
            assert(skipped_paths(before.hint_drvs, before.paths).contains(path));
            let (key, name) = choose|key: Seq<char>, name: Seq<char>| #[trigger]
                before.paths.contains_key((key, name)) && before.paths[(key, name)] == path
                    && before.hint_drvs.contains_key(key) && before.hint_drvs[key].skip_probe;
            assert(before.paths.contains_key((key, name)));
            assert(after.paths.contains_key((key, name)));
            assert(skipped_paths(after.hint_drvs, after.paths).contains(path));
        }
    }
}

/// A derivation that opens has an output that was found nowhere, and it is on
/// the frontier after the round.
proof fn lemma_opened_is_unfound(work: WorkView, next: WorkView, user: Seq<char>) -> (wanted: Seq<
    char,
>)
    requires
        work.is_resolved(),
        work.unprobed() == Set::<Seq<char>>::empty(),
        work.round().verdict() is Ok,
        next == (WorkView {
            required: work.round().next_required(),
            frontier: work.round().next_frontier(),
            ..work
        }),
        work.required.contains_key(user),
        work.round().opens(user),
    ensures
        members_of(next.frontier, user).contains(wanted),
        next.is_unfound(user, wanted),
{
    let round = work.round();
    let entering = choose|name: Seq<char>| #[trigger] round.entering(user).contains(name);
    assert(members_of(round.required, user).contains(entering));
    assert forall|name: Seq<char>| members_of(round.required, user).contains(
        name,
    ) implies #[trigger] members_of(next.frontier, user).contains(name) by {
        if !members_of(round.frontier, user).contains(name) {
            assert(round.entering(user).contains(name));
        }
    }
    if work.graph[user].system == "builtin"@ {
        assert(members_of(next.frontier, user).contains(entering));
        entering
    } else {
        let wanted = choose|name: Seq<char>| #[trigger]
            members_of(round.required, user).contains(name) && !round.is_available(user, name);
        assert(members_of(work.required, user).contains(wanted));
        assert(work.paths.contains_key((user, wanted)));
        let path = work.paths[(user, wanted)];
        if !work.availability.contains_key(path) {
            assert(!work.unprobed().contains(path));
            assert(work.paths.contains_key((user, wanted)) && work.paths[(user, wanted)] == path
                && work.graph.contains_key(user));
            assert(skipped_paths(work.hint_drvs, work.paths).contains(path));
        }
        assert(members_of(next.frontier, user).contains(wanted));
        wanted
    }
}

proof fn lemma_round_is_lean(work: WorkView, next: WorkView)
    requires
        work.is_lean(),
        work.is_resolved(),
        work.unprobed() == Set::<Seq<char>>::empty(),
        work.round().verdict() is Ok,
        next == (WorkView {
            required: work.round().next_required(),
            frontier: work.round().next_frontier(),
            ..work
        }),
    ensures
        next.is_lean(),
{
    let round = work.round();
    law_frontier_stays_within_requirements(round);
    assert forall|key: Seq<char>, name: Seq<char>| #[trigger]
        members_of(next.required, key).contains(name) implies is_root_output(next.roots, key, name)
        || next.is_taken(key, name) by {
        if members_of(work.required, key).contains(name) {
            if !is_root_output(work.roots, key, name) {
                let (user, wanted) = choose|user: Seq<char>, wanted: Seq<char>|
                    members_of(work.frontier, user).contains(wanted)
                        && #[trigger] work.is_unfound(user, wanted) && work.takes(user, key, name);
                law_expansion_keeps_outputs(round, user, wanted);
                assert(next.is_unfound(user, wanted));
                assert(next.takes(user, key, name)) by {
                    let input = choose|input: Seq<char>| #[trigger]
                        work.graph[user].inputs.contains_key(input) && key_of(input) == key
                            && work.graph[user].inputs[input].contains(name);
                    assert(next.graph[user].inputs.contains_key(input));
                }
            }
        } else {
            let done = round.required.dom();
            assert(round.demanded_name(done, key, name));
            let (user, input) = choose|user: Seq<char>, input: Seq<char>|
                done.contains(user) && round.opens(user)
                    && #[trigger] round.graph[user].inputs.contains_key(input) && key_of(input)
                    == key && round.graph[user].inputs[input].contains(name);
            let wanted = lemma_opened_is_unfound(work, next, user);
            assert(next.graph[user].inputs.contains_key(input));
            assert(next.takes(user, key, name));
            assert(next.is_unfound(user, wanted));
        }
    }
}

// ---------------------------------------------------------------------------
// The end of a session
// ---------------------------------------------------------------------------

/// The dependency edge along an input, with a required output.
proof fn lemma_edge_stands(
    inputs: Map<Seq<char>, Seq<Seq<char>>>,
    keys: Seq<Seq<char>>,
    required: Outputs,
    input: Seq<char>,
    name: Seq<char>,
) -> (place: (int, int))
    requires
        keys.contains(input),
        inputs[input].contains(name),
        members_of(required, key_of(input)).contains(name),
    ensures
        0 <= place.0 < edges(inputs, keys, required).len(),
        edges(inputs, keys, required)[place.0].drv == full_path(key_of(input)),
        0 <= place.1 < edges(inputs, keys, required)[place.0].outputs.len(),
        edges(inputs, keys, required)[place.0].outputs[place.1] == name,
    decreases keys.len(),
{
    let earlier = edges(inputs, keys.drop_last(), required);
    if keys.last() == input {
        let drv = key_of(input);
        let kept = |output: Seq<char>|
            required.contains_key(drv) && required[drv].contains(output);
        let i = inputs[input].index_of(name);
        inputs[input].lemma_filter_contains(kept, i);
        let outputs = inputs[input].filter(kept);
        assert(outputs.contains(name));
        (earlier.len() as int, outputs.index_of(name))
    } else {
        let at = keys.index_of(input);
        assert(keys.drop_last()[at] == input);
        lemma_edge_stands(inputs, keys.drop_last(), required, input, name)
    }
}

proof fn lemma_finish_saves(work: WorkView)
    requires
        work.is_ready(),
        work.is_loaded(),
        work.is_lean(),
        forall|key: Seq<char>, name: Seq<char>|
            members_of(work.required, key).contains(name) ==> #[trigger] members_of(
                work.frontier,
                key,
            ).contains(name),
    ensures
        saves(work.finish()),
{
    if let Ok(ProgressView::Done(plan)) = work.finish() {
        assert forall|i: int, j: int|
            0 <= i < plan.derivations.len() && 0 <= j
                < plan.derivations[i].actions.len() implies is_requested(
            plan.roots,
            plan.derivations[i].drv,
            (#[trigger] plan.derivations[i].actions[j]).output,
        ) || is_depended_on(
            plan,
            plan.derivations[i].drv,
            plan.derivations[i].actions[j].output,
        ) by {
            let key = lemma_planned_from(work, plan, i);
            let names = ascending(work.frontier[key]);
            lemma_ascending_exists(work.frontier[key]);
            let name = names[j];
            assert(names.to_set().contains(name));
            assert(members_of(work.frontier, key).contains(name));
            assert(members_of(work.frontier, key).subset_of(members_of(work.required, key)));
            assert(plan.derivations[i].actions[j].output == name);
            assert(plan.derivations[i].drv == full_path(key));
            if is_root_output(work.roots, key, name) {
                let (r, k) = choose|r: int, k: int|
                    0 <= r < work.roots.len() && key_of(work.roots[r].drv) == key && 0 <= k
                        < work.roots[r].outputs.len() && #[trigger] work.roots[r].outputs[k]
                        == name;
                law_key_keeps_store_path(work.roots[r].drv);
                assert(plan.roots[r].outputs[k] == name);
            } else {
                lemma_taken_is_depended_on(work, plan, key, name);
            }
        }
    }
}

proof fn lemma_taken_is_depended_on(
    work: WorkView,
    plan: PlanView,
    key: Seq<char>,
    name: Seq<char>,
)
    requires
        work.is_ready(),
        work.is_loaded(),
        work.finish() == Ok::<ProgressView, ErrorView>(ProgressView::Done(plan)),
        work.is_taken(key, name),
        members_of(work.required, key).contains(name),
    ensures
        is_depended_on(plan, full_path(key), name),
{
    let (user, wanted) = choose|user: Seq<char>, wanted: Seq<char>|
        members_of(work.frontier, user).contains(wanted) && #[trigger] work.is_unfound(
            user,
            wanted,
        ) && work.takes(user, key, name);
    let keys = ascending(work.frontier.dom());
    let plans = work.findings().derivations(work.frontier, keys, Seq::empty())->Ok_0;
    let (d, j) = lemma_where_planned(work, plans, keys, user, wanted);
    let derivation = plan.derivations[d];
    assert(derivation == work.findings().derivation(user, ascending(work.frontier[user])));
    assert(derivation.actions[j] == work.findings().action(user, wanted));
    assert(!derivation.actions[j].probe.is_available());
    let inputs = work.graph[user].inputs;
    let input = choose|input: Seq<char>| #[trigger]
        inputs.contains_key(input) && key_of(input) == key && inputs[input].contains(name);
    lemma_ascending_exists(inputs.dom());
    assert(ascending(inputs.dom()).to_set().contains(input));
    let (e, k) = lemma_edge_stands(inputs, ascending(inputs.dom()), work.required, input, name);
    assert(derivation.dependencies[e].outputs[k] == name);
    assert(plan.derivations[d].dependencies[e].outputs[k] == name);
    assert(!plan.derivations[d].actions[j].probe.is_available());
}

// ---------------------------------------------------------------------------
// The steps
// ---------------------------------------------------------------------------

proof fn lemma_expand_saves(work: WorkView)
    requires
        work.is_ready(),
        work.is_loaded(),
        work.is_lean(),
        work.is_resolved(),
        work.unprobed() == Set::<Seq<char>>::empty(),
    ensures
        saves(work.expand()),
{
    let round = work.round();
    if let Ok(changed) = round.verdict() {
        let next = WorkView {
            required: round.next_required(),
            frontier: round.next_frontier(),
            ..work
        };
        lemma_round_is_lean(work, next);
        if !changed {
            lemma_next_is_ready(work, next);
            law_no_change_is_complete(round);
            assert forall|key: Seq<char>, name: Seq<char>|
                members_of(next.required, key).contains(name) implies #[trigger] members_of(
                next.frontier,
                key,
            ).contains(name) by {
                assert(members_of(round.next_frontier(), key) == members_of(round.frontier, key));
                assert(members_of(round.frontier, key).contains(name));
            }
            lemma_finish_saves(next);
        }
    }
}

proof fn lemma_probe_saves(work: WorkView)
    requires
        work.is_ready(),
        work.is_loaded(),
        work.is_lean(),
        work.is_resolved(),
        work.paths.dom().finite(),
    ensures
        saves(work.probe()),
{
    let wanted = work.unprobed();
    work.paths.lemma_values_len();
    assert forall|path: Seq<char>| wanted.contains(path) implies work.paths.values().contains(
        path,
    ) by {
        let (key, name) = choose|key: Seq<char>, name: Seq<char>| #[trigger]
            work.paths.contains_key((key, name)) && work.paths[(key, name)] == path
                && work.graph.contains_key(key) && work.graph[key].system != "builtin"@;
        assert(work.paths.contains_key((key, name)));
    }
    lemma_set_subset_finite(work.paths.values(), wanted);
    lemma_ascending_exists(wanted);
    if ascending(wanted).len() == 0 {
        assert(ascending(wanted).to_set() =~= Set::empty());
        lemma_expand_saves(work);
    }
}

proof fn lemma_all_known(outputs: Seq<OutputRef>, paths: Paths)
    requires
        all_known(outputs, paths) is Ok,
    ensures
        forall|i: int| 0 <= i < outputs.len() ==> paths.contains_key(#[trigger] outputs[i]),
    decreases outputs.len(),
{
    if outputs.len() > 0 {
        let rest = outputs.drop_first();
        lemma_all_known(rest, paths);
        assert forall|i: int| 0 <= i < outputs.len() implies paths.contains_key(
            #[trigger] outputs[i],
        ) by {
            if i > 0 {
                assert(rest[i - 1] == outputs[i]);
            }
        }
    }
}

proof fn lemma_outputs_in(
    required: Outputs,
    keys: Seq<Seq<char>>,
    key: Seq<char>,
    name: Seq<char>,
)
    requires
        keys.contains(key),
        required[key].finite(),
        required[key].contains(name),
    ensures
        outputs_in(required, keys).contains((key, name)),
    decreases keys.len(),
{
    let earlier = outputs_in(required, keys.drop_last());
    let own = ascending(required[keys.last()]).map_values(|name: Seq<char>| (keys.last(), name));
    let all = outputs_in(required, keys);
    if keys.last() == key {
        lemma_ascending_exists(required[key]);
        assert(ascending(required[key]).to_set().contains(name));
        let i = ascending(required[key]).index_of(name);
        assert(all[earlier.len() + i] == (key, name));
    } else {
        let at = keys.index_of(key);
        assert(keys.drop_last()[at] == key);
        lemma_outputs_in(required, keys.drop_last(), key, name);
        let i = earlier.index_of((key, name));
        assert(all[i] == (key, name));
    }
}

/// A required output has a known path, or is among the unresolved ones.
proof fn lemma_unresolved(work: WorkView, key: Seq<char>, name: Seq<char>)
    requires
        are_regular(work.required),
        members_of(work.required, key).contains(name),
    ensures
        work.paths.contains_key((key, name)) || unresolved(work.required, work.paths).contains(
            (key, name),
        ),
{
    let order = ascending(work.required.dom());
    lemma_ascending_exists(work.required.dom());
    assert(work.required.contains_key(key));
    assert(order.to_set().contains(key));
    lemma_outputs_in(work.required, order, key, name);
    let all = outputs_in(work.required, order);
    let lacks = |output: OutputRef| !work.paths.contains_key(output);
    if !work.paths.contains_key((key, name)) {
        let i = all.index_of((key, name));
        all.lemma_filter_contains(lacks, i);
    }
}

proof fn lemma_resolved_saves(
    work: WorkView,
    outputs: Seq<OutputRef>,
    known: Paths,
)
    requires
        work.is_ready(),
        work.is_loaded(),
        work.is_lean(),
        outputs == unresolved(work.required, work.paths),
        work.paths.dom().finite(),
        known.dom().finite(),
        paths_agree(known, work.paths),
    ensures
        saves(work.resolved(outputs, known)),
{
    if all_known(outputs, known) is Ok {
        let after = WorkView { paths: work.paths.union_prefer_right(known), ..work };
        assert(after.paths.dom() =~= work.paths.dom().union(known.dom()));
        lemma_more_is_lean(work, after);
        lemma_all_known(outputs, known);
        assert forall|key: Seq<char>, name: Seq<char>| #[trigger]
            members_of(after.required, key).contains(name) implies after.paths.contains_key(
            (key, name),
        ) by {
            lemma_unresolved(work, key, name);
            if !work.paths.contains_key((key, name)) {
                let i = outputs.index_of((key, name));
                assert(known.contains_key(outputs[i]));
            }
        }
        lemma_probe_saves(after);
    }
}

proof fn lemma_resolve_saves(work: WorkView)
    requires
        work.is_ready(),
        work.is_loaded(),
        work.is_lean(),
        work.paths.dom().finite(),
    ensures
        saves(work.resolve()),
{
    let outputs = unresolved(work.required, work.paths);
    if outputs.len() == 0 {
        assert forall|key: Seq<char>, name: Seq<char>| #[trigger]
            members_of(work.required, key).contains(name) implies work.paths.contains_key(
            (key, name),
        ) by {
            lemma_unresolved(work, key, name);
        }
        lemma_probe_saves(work);
    } else if let Ok((known, pending)) = sorted_out(
        work.graph,
        outputs,
        Map::empty(),
        Seq::empty(),
    ) {
        lemma_sorted_out_agrees(work, outputs);
        lemma_resolved_saves(work, outputs, known);
    }
}

proof fn lemma_begin_saves(work: WorkView)
    requires
        work.is_ready(),
        work.is_lean(),
        work.paths.dom().finite(),
    ensures
        saves(work.begin_round()),
{
    let missing = missing_keys(work.required, work.graph);
    if missing.len() == 0 {
        assert forall|key: Seq<char>| #[trigger]
            work.required.contains_key(key) implies work.graph.contains_key(key) by {
            lemma_missing_keys(work, key);
        }
        lemma_resolve_saves(work);
    }
}

proof fn lemma_ask_hint_saves(work: WorkView, at: nat)
    requires
        work.is_ready(),
        work.is_lean(),
        work.frontier == Map::<Seq<char>, Set<Seq<char>>>::empty(),
        work.paths.dom().finite(),
    ensures
        saves(work.ask_hint(at)),
{
    lemma_begin_saves(work);
}

/// With nothing on the frontier only the roots require anything.
proof fn lemma_only_roots(before: WorkView, after: WorkView)
    requires
        before.is_lean(),
        before.frontier == Map::<Seq<char>, Set<Seq<char>>>::empty(),
        after.frontier == before.frontier,
        after.required == before.required,
        after.roots == before.roots,
    ensures
        after.is_lean(),
{
    assert forall|key: Seq<char>, name: Seq<char>| #[trigger]
        members_of(after.required, key).contains(name) implies is_root_output(
        after.roots,
        key,
        name,
    ) by {
        assert(members_of(before.required, key).contains(name));
        if before.is_taken(key, name) {
            let (user, wanted) = choose|user: Seq<char>, wanted: Seq<char>|
                members_of(before.frontier, user).contains(wanted) && #[trigger] before.is_unfound(
                    user,
                    wanted,
                ) && before.takes(user, key, name);
            assert(members_of(before.frontier, user) == Set::<Seq<char>>::empty());
        }
    }
    assert forall|key: Seq<char>| #[trigger]
        members_of(after.frontier, key).subset_of(members_of(after.required, key)) by {
        assert(members_of(before.frontier, key).subset_of(members_of(before.required, key)));
    }
}

proof fn lemma_root_outputs_requested(roots: Seq<RootView>, key: Seq<char>, name: Seq<char>)
    requires
        members_of(root_outputs(roots), key).contains(name),
    ensures
        is_root_output(roots, key, name),
    decreases roots.len(),
{
    if roots.len() > 0 {
        let rest = roots.drop_last();
        let last = roots.len() - 1;
        if key_of(roots[last].drv) == key && roots[last].outputs.contains(name) {
            let k = roots[last].outputs.index_of(name);
            assert(roots[last].outputs[k] == name);
        } else {
            assert(members_of(root_outputs(rest), key).contains(name));
            lemma_root_outputs_requested(rest, key, name);
            let (i, k) = choose|i: int, k: int|
                0 <= i < rest.len() && key_of(rest[i].drv) == key && 0 <= k < rest[i].outputs.len()
                    && #[trigger] rest[i].outputs[k] == name;
            assert(roots[i].outputs[k] == name);
        }
    }
}

proof fn lemma_rooted_saves(work: WorkView, nodes: Map<Seq<char>, NodeView>)
    requires
        are_regular(work.frontier),
        roots_are_plain(work.roots),
        work.frontier == Map::<Seq<char>, Set<Seq<char>>>::empty(),
        work.paths.dom().finite(),
        reports_regularly(ReplyView::Derivations(nodes)),
    ensures
        saves(work.rooted(graph_of(nodes))),
{
    if work.roots.len() > 0 {
        let rooted = WorkView {
            graph: graph_of(nodes),
            required: root_outputs(work.roots),
            ..work
        };
        lemma_graph_of_regular(nodes);
        lemma_root_outputs(work.roots);
        assert forall|key: Seq<char>, name: Seq<char>| #[trigger]
            members_of(rooted.required, key).contains(name) implies is_root_output(
            rooted.roots,
            key,
            name,
        ) by {
            lemma_root_outputs_requested(work.roots, key, name);
        }
        assert forall|key: Seq<char>| #[trigger]
            members_of(rooted.frontier, key).subset_of(members_of(rooted.required, key)) by {}
        lemma_ask_hint_saves(rooted, 0);
    }
}

proof fn lemma_load_saves(
    work: WorkView,
    keys: Seq<Seq<char>>,
    next: nat,
    nodes: Map<Seq<char>, NodeView>,
)
    requires
        (PlannerView { work, stage: StageView::Load { keys, next } }).is_grounded(),
        (PlannerView { work, stage: StageView::Load { keys, next } }).agrees_with(
            ReplyView::Derivations(nodes),
        ),
        work.is_lean(),
        work.paths.dom().finite(),
        next < keys.len(),
        reports_regularly(ReplyView::Derivations(nodes)),
        all_loaded(batch(keys, next), graph_of(nodes)) is Ok,
    ensures
        ({
            let loaded = WorkView {
                graph: work.graph.union_prefer_right(graph_of(nodes)),
                ..work
            };
            let end = batch_end(keys.len(), next);
            saves(
                if end < keys.len() {
                    loaded.ask_derivations(keys, end)
                } else {
                    loaded.resolve()
                },
            )
        }),
{
    let report = graph_of(nodes);
    let loaded = WorkView { graph: work.graph.union_prefer_right(report), ..work };
    let end = batch_end(keys.len(), next);
    lemma_more_is_lean(work, loaded);
    if end >= keys.len() {
        lemma_graph_of_regular(nodes);
        lemma_all_loaded(batch(keys, next), report);
        assert forall|key: Seq<char>| #[trigger]
            loaded.required.contains_key(key) implies loaded.graph.contains_key(key) by {
            if !work.graph.contains_key(key) {
                let waiting = keys.skip(next as int);
                assert(waiting.contains(key));
                let i = waiting.index_of(key);
                assert(batch(keys, next)[i] == key);
            }
        }
        assert(loaded.is_ready());
        lemma_resolve_saves(loaded);
    }
}

proof fn lemma_probe_stores_saves(
    work: WorkView,
    paths: Seq<Seq<char>>,
    local: Option<Map<Seq<char>, bool>>,
)
    requires
        work.is_lean(),
        work.is_resolved(),
        paths.to_set() == work.unprobed(),
        forall|path: Seq<char>| #[trigger] reports_hit(local, path) ==> paths.contains(path),
    ensures
        saves(work.probe_stores(paths, local)),
{
    let pending = not_local(paths, local);
    assert forall|path: Seq<char>| #[trigger]
        work.unprobed().contains(path) <==> reports_hit(local, path) || pending.contains(path) by {
        lemma_not_local(paths, local, path);
        assert(work.unprobed().contains(path) == paths.contains(path));
    }
}

proof fn lemma_not_local(
    outputs: Seq<Seq<char>>,
    local: Option<Map<Seq<char>, bool>>,
    path: Seq<char>,
)
    ensures
        not_local(outputs, local).contains(path) <==> outputs.contains(path) && !reports_hit(
            local,
            path,
        ),
    decreases outputs.len(),
{
    reveal(Seq::filter);
    let kept = not_local(outputs, local);
    if outputs.len() > 0 {
        let rest = outputs.drop_last();
        let less = not_local(rest, local);
        lemma_not_local(rest, local, path);
        if less.contains(path) {
            let i = less.index_of(path);
            assert(kept[i] == path);
        }
        if rest.contains(path) {
            let i = rest.index_of(path);
            assert(outputs[i] == path);
        }
        if outputs.contains(path) && !rest.contains(path) {
            let i = outputs.index_of(path);
            assert(i == outputs.len() - 1) by {
                if i < rest.len() {
                    assert(rest[i] == path);
                }
            }
            if !reports_hit(local, path) {
                assert(kept[kept.len() - 1] == path);
            }
        }
        if kept.contains(path) && !less.contains(path) {
            let i = kept.index_of(path);
            if i < less.len() {
                assert(less[i] == path);
            }
            assert(path == outputs.last());
            assert(outputs[outputs.len() - 1] == path);
        }
    }
}

proof fn lemma_probed_saves(
    work: WorkView,
    local: Option<Map<Seq<char>, bool>>,
    pending: Seq<Seq<char>>,
    stores: Seq<StoreView>,
)
    requires
        work.is_ready(),
        work.is_loaded(),
        work.is_lean(),
        work.is_resolved(),
        forall|path: Seq<char>| #[trigger]
            work.unprobed().contains(path) <==> reports_hit(local, path) || pending.contains(path),
    ensures
        saves(work.probed(local, pending, stores)),
{
    let found = availability_of(local, pending, stores);
    let after = WorkView { availability: work.availability.union_prefer_right(found), ..work };
    assert forall|path: Seq<char>| #[trigger] found.contains_key(path) == work.unprobed().contains(
        path,
    ) by {
        assert(pending.to_set().contains(path) == pending.contains(path));
    }
    assert forall|path: Seq<char>| #[trigger]
        work.availability.contains_key(path)
            && !work.availability[path].is_available() implies after.availability.contains_key(path)
        && !after.availability[path].is_available() by {
        assert(!work.unprobed().contains(path));
        assert(!found.contains_key(path));
    }
    assert forall|path: Seq<char>|
        !work.availability.contains_key(path) && #[trigger] skipped_paths(
            work.hint_drvs,
            work.paths,
        ).contains(path) implies !after.availability.contains_key(path) by {
        assert(!work.unprobed().contains(path));
        assert(!found.contains_key(path));
    }
    lemma_more_is_lean(work, after);
    assert forall|path: Seq<char>| !after.unprobed().contains(path) by {
        if after.unprobed().contains(path) {
            assert(work.unprobed().contains(path));
            assert(found.contains_key(path));
        }
    }
    assert(after.unprobed() =~= Set::empty());
    lemma_expand_saves(after);
}

// ---------------------------------------------------------------------------
// Laws
// ---------------------------------------------------------------------------

/// A session starts without having required anything.
pub proof fn law_opening_saves(inputs: InputsView)
    ensures
        saves(opening(inputs)),
{
}

/// Nothing is planned that nothing needs: what only available outputs were
/// built from is no miss. In the plan that a session finishes with, a root
/// requests each output, or a derivation depends on it of which some output was
/// found nowhere.
///
/// Left out are paths with the store directory twice in front of them, replies
/// that contradict what has been reported before, and reports of the local
/// store on what it was not asked for.
pub proof fn law_steps_save(planner: PlannerView, reply: ReplyView)
    requires
        planner.well_formed(),
        planner.is_grounded(),
        planner.is_fed(),
        planner.is_lean(),
        planner.accepts(reply),
        reports_regularly(reply),
        planner.agrees_with(reply),
        planner.keeps_to(reply),
    ensures
        saves(planner.advance(reply)),
{
    let work = planner.work;
    match (planner.stage, reply) {
        (StageView::RootGraph, ReplyView::Derivations(nodes)) => {
            lemma_rooted_saves(work, nodes);
        },
        (StageView::Hint { at }, ReplyView::Derivations(nodes)) => {
            let keys = ascending(graph_of(nodes).dom());
            let hint = work.inputs.hints[at as int];
            let hint_drvs = work.hint_drvs.insert(key_of(keys[0]), hint);
            let after = WorkView { hint_drvs, ..work };
            lemma_only_roots(work, after);
            lemma_ask_hint_saves(after, at + 1);
        },
        (StageView::Round, _) => {
            lemma_begin_saves(work);
        },
        (StageView::Load { keys, next }, ReplyView::Derivations(nodes)) => {
            if all_loaded(batch(keys, next), graph_of(nodes)) is Ok {
                lemma_load_saves(work, keys, next, nodes);
            }
        },
        (
            StageView::Resolve { outputs, resolved, pending, next },
            ReplyView::Entries(entries),
        ) => {
            lemma_with_entries(resolved, entries, work.paths);
            lemma_resolved_saves(work, outputs, with_entries(resolved, entries));
        },
        (StageView::Local { paths }, ReplyView::Local(local)) => {
            lemma_probe_stores_saves(work, paths, local);
        },
        (StageView::Stores { local, pending, stores }, ReplyView::Stores(answers)) => {
            lemma_probed_saves(work, local, pending, stores_with_answers(stores, answers));
        },
        _ => {},
    }
}

} // verus!
