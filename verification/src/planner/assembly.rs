//! Assembly: from a complete frontier to the closure plan.

use vstd::prelude::*;

use crate::error::{outcome, Error, ErrorView, Result};
use crate::planner::frontier::{Outputs, Paths};
use crate::planner::graph::{
    derivation_key, full_path, key_of, store_path, DerivationGraph, DerivationNode, NodeView,
    OutputPaths,
};
use crate::planner::outputs::{all_known, OutputRef};
use crate::planner::plan::{
    no_counts, ActionView, CountsView, DependencyView, DerivationClass, DerivationPlan,
    DerivationView, HintView, OutputAction, PlanCounts, PlanDependency, ProbeResult, ProbeView,
    RouteHintSpec,
};
use crate::planner::probes::{summarize_probes, summary_probe};
use crate::planner::routes::{
    class_of, route_class, route_of, select_route, summarize_routes, summary_route,
};
use crate::policy::{PolicyView, RealizationPolicy};
use crate::sorted::{ascending, lookup, SortedMap, SortedSet};
use crate::text;

verus! {

/// What a plan is asked for.
#[derive(Debug)]
pub struct PlanInputs {
    /// Toplevel installable.
    pub attr: String,
    /// System of the build host.
    pub build_system: String,
    /// System of the target host.
    pub host_system: String,
    /// Stores to substitute from, in order.
    pub substituters: Vec<String>,
    /// Policy for missing derivations.
    pub policy: RealizationPolicy,
    /// Route hints.
    pub hints: Vec<RouteHintSpec>,
}

/// Model of [`PlanInputs`].
#[verifier::ext_equal]
pub struct InputsView {
    pub attr: Seq<char>,
    pub build_system: Seq<char>,
    pub host_system: Seq<char>,
    pub substituters: Seq<Seq<char>>,
    pub policy: PolicyView,
    pub hints: Seq<HintView>,
}

impl View for PlanInputs {
    type V = InputsView;

    open spec fn view(&self) -> InputsView {
        InputsView {
            attr: self.attr@,
            build_system: self.build_system@,
            host_system: self.host_system@,
            substituters: self.substituters.deep_view(),
            policy: self.policy@,
            hints: self.hints.deep_view(),
        }
    }
}

/// What a plan is assembled from.
#[verifier::ext_equal]
pub struct Findings {
    /// What the plan is asked for.
    pub inputs: InputsView,
    /// The hints by derivation key.
    pub hint_drvs: Map<Seq<char>, HintView>,
    /// The known derivations.
    pub graph: Map<Seq<char>, NodeView>,
    /// The outputs that have to be realized.
    pub required: Outputs,
    /// The known output paths.
    pub paths: Paths,
    /// The probe result of each path.
    pub availability: Map<Seq<char>, ProbeView>,
}

/// A name from the derivation, or else from its environment; an empty one
/// counts for nothing.
pub open spec fn reported_name(
    own: Option<Seq<char>>,
    env: Option<Seq<char>>,
) -> Option<Seq<char>> {
    let name = if own is Some {
        own
    } else {
        env
    };
    match name {
        Some(name) if name.len() > 0 => Some(name),
        _ => None,
    }
}

/// The dependency edges along the inputs `keys`: those outputs of each input
/// that are required, as long as there are any.
pub open spec fn edges(
    inputs: Map<Seq<char>, Seq<Seq<char>>>,
    keys: Seq<Seq<char>>,
    required: Outputs,
) -> Seq<DependencyView>
    decreases keys.len(),
{
    if keys.len() == 0 {
        Seq::empty()
    } else {
        let earlier = edges(inputs, keys.drop_last(), required);
        let drv = key_of(keys.last());
        let outputs = inputs[keys.last()].filter(
            |name: Seq<char>| required.contains_key(drv) && required[drv].contains(name),
        );
        if outputs.len() == 0 {
            earlier
        } else {
            earlier.push(DependencyView { drv: full_path(drv), outputs })
        }
    }
}

impl Findings {
    /// The hint of a derivation.
    pub open spec fn hint(self, key: Seq<char>) -> Option<HintView> {
        lookup(self.hint_drvs, key)
    }

    /// The probe result of an output; known-local derivations and those built
    /// into Nix are not probed.
    pub open spec fn probe(self, key: Seq<char>, name: Seq<char>) -> ProbeView {
        if self.graph[key].system == "builtin"@ || (self.hint(key) is Some && self.hint(
            key,
        )->0.skip_probe) {
            ProbeView::SkippedKnownLocal
        } else {
            match lookup(self.availability, self.paths[(key, name)]) {
                Some(probe) => probe,
                None => ProbeView::Indeterminate { errors: seq!["output was not probed"@] },
            }
        }
    }

    /// The action for an output.
    pub open spec fn action(self, key: Seq<char>, name: Seq<char>) -> ActionView {
        ActionView {
            output: name,
            path: self.paths[(key, name)],
            probe: self.probe(key, name),
            route: route_of(
                self.hint(key),
                self.probe(key, name),
                self.graph[key].system,
                self.inputs.build_system,
                self.inputs.host_system,
                self.inputs.policy,
            ),
        }
    }

    /// The actions for outputs of a derivation.
    pub open spec fn actions(self, key: Seq<char>, names: Seq<Seq<char>>) -> Seq<ActionView> {
        names.map_values(|name: Seq<char>| self.action(key, name))
    }

    /// The plan of a derivation.
    pub open spec fn derivation(self, key: Seq<char>, names: Seq<Seq<char>>) -> DerivationView {
        let node = self.graph[key];
        let actions = self.actions(key, names);
        DerivationView {
            drv: full_path(key),
            name: reported_name(node.name, node.env_name),
            pname: reported_name(node.pname, node.env_pname),
            output_names: names,
            outputs: names.map_values(|name: Seq<char>| self.paths[(key, name)]),
            system: node.system,
            class: class_of(summary_route(actions)),
            route: summary_route(actions),
            hint: match self.hint(key) {
                Some(hint) => Some(hint.label),
                None => None,
            },
            probe: Some(summary_probe(actions)),
            actions,
            dependencies: edges(node.inputs, ascending(node.inputs.dom()), self.required),
        }
    }

    /// The plans of the frontier derivations `keys`, behind those of `plans`.
    /// A derivation that the graph lacks is passed over; an output without a
    /// path is an error.
    pub open spec fn derivations(
        self,
        frontier: Outputs,
        keys: Seq<Seq<char>>,
        plans: Seq<DerivationView>,
    ) -> std::result::Result<Seq<DerivationView>, ErrorView>
        decreases keys.len(),
    {
        if keys.len() == 0 {
            Ok(plans)
        } else if !self.graph.contains_key(keys[0]) {
            self.derivations(frontier, keys.drop_first(), plans)
        } else {
            let names = ascending(frontier[keys[0]]);
            match all_known(outputs_of(keys[0], names), self.paths) {
                Err(error) => Err(error),
                Ok(_) => self.derivations(
                    frontier,
                    keys.drop_first(),
                    plans.push(self.derivation(keys[0], names)),
                ),
            }
        }
    }
}

/// Outputs of one derivation.
pub open spec fn outputs_of(key: Seq<char>, names: Seq<Seq<char>>) -> Seq<OutputRef> {
    names.map_values(|name: Seq<char>| (key, name))
}

/// The counts with one more derivation of a class.
pub open spec fn counted(counts: CountsView, class: DerivationClass) -> CountsView {
    match class {
        DerivationClass::LocalPresent => CountsView {
            local_present: counts.local_present + 1,
            ..counts
        },
        DerivationClass::HostSubstituted => CountsView {
            host_substituted: counts.host_substituted + 1,
            ..counts
        },
        DerivationClass::BuildLocal => CountsView {
            build_local: counts.build_local + 1,
            ..counts
        },
        DerivationClass::HostRemote => CountsView {
            host_remote: counts.host_remote + 1,
            ..counts
        },
        DerivationClass::Unhandled => CountsView { unhandled: counts.unhandled + 1, ..counts },
    }
}

/// The derivations of each class.
pub open spec fn counts_of(plans: Seq<DerivationView>) -> CountsView
    decreases plans.len(),
{
    if plans.len() == 0 {
        no_counts()
    } else {
        counted(counts_of(plans.drop_last()), plans.last().class)
    }
}

/// All derivations that are counted.
pub open spec fn total(counts: CountsView) -> nat {
    counts.host_substituted + counts.local_present + counts.build_local + counts.host_remote
        + counts.unhandled
}

/// Every derivation is counted in exactly one class.
pub proof fn law_counts_cover_all(plans: Seq<DerivationView>)
    ensures
        total(counts_of(plans)) == plans.len(),
    decreases plans.len(),
{
    if plans.len() > 0 {
        law_counts_cover_all(plans.drop_last());
    }
}

proof fn lemma_counts_without(plans: Seq<DerivationView>, i: int)
    requires
        0 <= i < plans.len(),
    ensures
        counts_of(plans) == counted(counts_of(plans.remove(i)), plans[i].class),
    decreases plans.len(),
{
    let rest = plans.drop_last();
    if i == plans.len() - 1 {
        assert(plans.remove(i) =~= rest);
    } else {
        lemma_counts_without(rest, i);
        assert(plans.remove(i).drop_last() =~= rest.remove(i));
        assert(plans.remove(i).last() == plans.last());
    }
}

/// Counts do not depend on the order: the same plans have the same counts.
pub proof fn law_counts_ignore_the_order(left: Seq<DerivationView>, right: Seq<DerivationView>)
    requires
        left.no_duplicates(),
        right.no_duplicates(),
        left.to_set() == right.to_set(),
    ensures
        counts_of(left) == counts_of(right),
    decreases left.len(),
{
    if left.len() == 0 {
        if right.len() > 0 {
            assert(right.to_set().contains(right[0]));
            assert(left.to_set().contains(right[0]));
        }
        assert(left =~= right);
    } else {
        let plan = left.last();
        assert(left[left.len() - 1] == plan);
        assert(left.to_set().contains(plan));
        assert(right.to_set().contains(plan));
        let i = right.index_of(plan);
        let rest = left.drop_last();
        let others = right.remove(i);
        assert forall|k: int, l: int|
            0 <= k < others.len() && 0 <= l < others.len() && k != l implies others[k]
            != others[l] by {
            let a = if k < i {
                k
            } else {
                k + 1
            };
            let b = if l < i {
                l
            } else {
                l + 1
            };
            assert(right[a] != right[b]);
        }
        assert forall|other: DerivationView| rest.to_set().contains(other)
            == others.to_set().contains(other) by {
            if rest.contains(other) {
                let k = rest.index_of(other);
                assert(left[k] == other && left[k] != left[left.len() - 1]);
                assert(left.to_set().contains(other));
                assert(right.to_set().contains(other));
                let l = right.index_of(other);
                assert(others[if l < i {
                    l
                } else {
                    l - 1
                }] == other);
            }
            if others.contains(other) {
                let l = others.index_of(other);
                let b = if l < i {
                    l
                } else {
                    l + 1
                };
                assert(right[b] == other && right[b] != right[i]);
                assert(right.to_set().contains(other));
                assert(left.to_set().contains(other));
                let k = left.index_of(other);
                assert(rest[k] == other);
            }
        }
        assert(rest.to_set() =~= others.to_set());
        law_counts_ignore_the_order(rest, others);
        lemma_counts_without(right, i);
    }
}

// ---------------------------------------------------------------------------
// Operations
// ---------------------------------------------------------------------------

fn name_of(own: &Option<String>, env: &Option<String>) -> (result: Option<String>)
    ensures
        result.deep_view() == reported_name(own.deep_view(), env.deep_view()),
{
    let name = match own {
        Some(_) => own,
        None => env,
    };
    match name {
        Some(name) => {
            if name.as_str().is_empty() {
                None
            } else {
                Some(name.clone())
            }
        },
        None => None,
    }
}

fn dependencies_of(node: &DerivationNode, required: &SortedMap<SortedSet>) -> (result: Vec<
    PlanDependency,
>)
    ensures
        result.deep_view() == edges(
            node@.inputs,
            ascending(node@.inputs.dom()),
            required.deep_view(),
        ),
{
    let inputs = &node.inputs.drvs;
    let ghost all = inputs.deep_view();
    let ghost needed = required.deep_view();
    let ghost order = inputs.order();
    assert(all.dom() =~= inputs@.dom());
    let count = inputs.len();
    let mut out: Vec<PlanDependency> = Vec::new();
    let mut i: usize = 0;
    assert(order.take(0) =~= Seq::empty());
    assert(out.deep_view() =~= Seq::empty());
    while i < count
        invariant
            all == inputs.deep_view(),
            needed == required.deep_view(),
            order == inputs.order(),
            count == order.len(),
            i <= count,
            out.deep_view() == edges(all, order.take(i as int), needed),
        decreases count - i,
    {
        let input_key = inputs.key_at(i);
        let input = inputs.value_at(i);
        let drv = derivation_key(input_key.as_str());
        assert(order.take(i + 1).drop_last() =~= order.take(i as int));
        assert(order.take(i + 1).last() == input_key@);
        assert(all[input_key@] == input@);
        let outputs = requested_outputs(drv.as_str(), input.outputs.as_slice(), required);
        if outputs.len() > 0 {
            let ghost before = out.deep_view();
            let edge = PlanDependency { drv: store_path(drv.as_str()), outputs };
            out.push(edge);
            assert(out.deep_view() =~= before.push(edge@));
        }
        i += 1;
    }
    assert(order.take(count as int) =~= order);
    out
}

fn requested_outputs(drv: &str, names: &[String], required: &SortedMap<SortedSet>) -> (result: Vec<
    String,
>)
    ensures
        result.deep_view() == names.deep_view().filter(
            |name: Seq<char>|
                required.deep_view().contains_key(drv@) && required.deep_view()[drv@].contains(
                    name,
                ),
        ),
{
    let ghost all = names.deep_view();
    let ghost needed = required.deep_view();
    let ghost wanted = |name: Seq<char>|
        needed.contains_key(drv@) && needed[drv@].contains(name);
    let mut out: Vec<String> = Vec::new();
    reveal(Seq::filter);
    assert(all.take(0).filter(wanted) =~= Seq::empty());
    for i in 0..names.len()
        invariant
            all == names.deep_view(),
            needed == required.deep_view(),
            wanted == (|name: Seq<char>| needed.contains_key(drv@) && needed[drv@].contains(name)),
            out.deep_view() == all.take(i as int).filter(wanted),
    {
        reveal(Seq::filter);
        assert(all.take(i + 1).drop_last() =~= all.take(i as int));
        assert(all.take(i + 1).last() == all[i as int]);
        assert(all[i as int] == names@[i as int]@);
        let found = match required.get(drv) {
            Some(requested) => requested.contains(names[i].as_str()),
            None => false,
        };
        assert(wanted(all[i as int]) == found);
        if found {
            text::add_item(&mut out, names[i].clone());
        }
    }
    assert(all.take(names.len() as int) =~= all);
    out
}

/// The path of an output.
pub fn output_path_for_name<'a>(
    output_paths: &'a OutputPaths,
    key: &str,
    name: &str,
) -> (result: Result<&'a String>)
    ensures
        match result {
            Ok(path) => output_paths@.contains_key((key@, name@)) && path@ == output_paths@[(
                key@,
                name@,
            )],
            Err(error) => !output_paths@.contains_key((key@, name@)) && error@ == (
            ErrorView::PlannerMissingOutput { drv: full_path(key@), output: name@ }),
        },
{
    match output_paths.get(key, name) {
        Some(path) => Ok(path),
        None => Err(
            Error::PlannerMissingOutput { drv: store_path(key), output: name.to_owned() },
        ),
    }
}

/// What a plan is assembled from.
pub struct Evidence<'a> {
    /// What the plan is asked for.
    pub inputs: &'a PlanInputs,
    /// The hints by derivation key.
    pub hint_drvs: &'a SortedMap<RouteHintSpec>,
    /// The known derivations.
    pub graph: &'a DerivationGraph,
    /// The outputs that have to be realized.
    pub required: &'a SortedMap<SortedSet>,
    /// The known output paths.
    pub output_paths: &'a OutputPaths,
    /// The probe result of each path.
    pub availability: &'a SortedMap<ProbeResult>,
}

impl<'a> View for Evidence<'a> {
    type V = Findings;

    open spec fn view(&self) -> Findings {
        Findings {
            inputs: self.inputs@,
            hint_drvs: self.hint_drvs.deep_view(),
            graph: self.graph@,
            required: self.required.deep_view(),
            paths: self.output_paths@,
            availability: self.availability.deep_view(),
        }
    }
}

fn output_action(evidence: &Evidence, key: &str, node: &DerivationNode, name: &str) -> (result:
    Result<OutputAction>)
    requires
        evidence@.graph.contains_key(key@),
        evidence@.graph[key@] == node@,
    ensures
        outcome(result) == if evidence@.paths.contains_key((key@, name@)) {
            Ok(evidence@.action(key@, name@))
        } else {
            Err(ErrorView::PlannerMissingOutput { drv: full_path(key@), output: name@ })
        },
{
    let path = match output_path_for_name(evidence.output_paths, key, name) {
        Ok(path) => path,
        Err(error) => {
            return Err(error);
        },
    };
    let skip = match evidence.hint_drvs.get(key) {
        Some(hint) => hint.skip_probe,
        None => false,
    };
    assert(skip == (evidence@.hint(key@) is Some && evidence@.hint(key@)->0.skip_probe));
    let probe = if text::same(node.system.as_str(), "builtin") || skip {
        ProbeResult::SkippedKnownLocal
    } else {
        match evidence.availability.get(path.as_str()) {
            Some(probe) => probe.clone(),
            None => {
                let errors = vec!["output was not probed".to_owned()];
                assert(errors.deep_view() =~= seq!["output was not probed"@]);
                ProbeResult::Indeterminate { errors }
            },
        }
    };
    assert(probe@ == evidence@.probe(key@, name@));
    let route = select_route(
        key,
        &probe,
        evidence.inputs.hints.as_slice(),
        evidence.hint_drvs,
        node.system.as_str(),
        evidence.inputs.build_system.as_str(),
        evidence.inputs.host_system.as_str(),
        &evidence.inputs.policy,
    );
    Ok(OutputAction { output: name.to_owned(), path: path.clone(), probe, route })
}

fn output_actions(
    evidence: &Evidence,
    key: &str,
    node: &DerivationNode,
    names: &[String],
) -> (result: Result<Vec<OutputAction>>)
    requires
        evidence@.graph.contains_key(key@),
        evidence@.graph[key@] == node@,
    ensures
        outcome(result) == match all_known(
            outputs_of(key@, names.deep_view()),
            evidence@.paths,
        ) {
            Ok(_) => Ok(evidence@.actions(key@, names.deep_view())),
            Err(error) => Err(error),
        },
{
    let ghost all = evidence@.actions(key@, names.deep_view());
    let ghost refs = outputs_of(key@, names.deep_view());
    let mut actions: Vec<OutputAction> = Vec::new();
    assert(refs.skip(0) =~= refs);
    for i in 0..names.len()
        invariant
            evidence@.graph.contains_key(key@),
            evidence@.graph[key@] == node@,
            all == evidence@.actions(key@, names.deep_view()),
            refs == outputs_of(key@, names.deep_view()),
            actions.deep_view() == all.take(i as int),
            all_known(refs, evidence@.paths) == all_known(refs.skip(i as int), evidence@.paths),
    {
        assert(names.deep_view()[i as int] == names@[i as int]@);
        assert(refs.skip(i as int)[0] == (key@, names@[i as int]@));
        assert(refs.skip(i as int).drop_first() =~= refs.skip(i + 1));
        let ghost before = actions.deep_view();
        match output_action(evidence, key, node, names[i].as_str()) {
            Ok(action) => {
                actions.push(action);
                assert(actions.deep_view() =~= before.push(action@));
                assert(actions.deep_view() =~= all.take(i + 1));
            },
            Err(error) => {
                return Err(error);
            },
        }
    }
    assert(refs.skip(names.len() as int) =~= Seq::empty());
    assert(all.take(names.len() as int) =~= all);
    Ok(actions)
}

fn action_paths(actions: &[OutputAction]) -> (result: Vec<String>)
    ensures
        result.deep_view() == actions.deep_view().map_values(|action: ActionView| action.path),
{
    let ghost all = actions.deep_view().map_values(|action: ActionView| action.path);
    let mut paths: Vec<String> = Vec::new();
    for i in 0..actions.len()
        invariant
            all == actions.deep_view().map_values(|action: ActionView| action.path),
            paths.deep_view() == all.take(i as int),
    {
        assert(actions.deep_view()[i as int] == actions@[i as int]@);
        text::add_item(&mut paths, actions[i].path.clone());
        assert(paths.deep_view() =~= all.take(i + 1));
    }
    assert(all.take(actions.len() as int) =~= all);
    paths
}

fn derivation_plan(
    evidence: &Evidence,
    key: &str,
    node: &DerivationNode,
    names: &SortedSet,
) -> (result: Result<DerivationPlan>)
    requires
        evidence@.graph.contains_key(key@),
        evidence@.graph[key@] == node@,
    ensures
        outcome(result) == match all_known(outputs_of(key@, names.order()), evidence@.paths) {
            Ok(_) => Ok(evidence@.derivation(key@, names.order())),
            Err(error) => Err(error),
        },
{
    let output_names = names.to_list();
    let actions = match output_actions(evidence, key, node, output_names.as_slice()) {
        Ok(actions) => actions,
        Err(error) => {
            return Err(error);
        },
    };
    let outputs = action_paths(actions.as_slice());
    assert(outputs.deep_view() =~= names.order().map_values(
        |name: Seq<char>| evidence@.paths[(key@, name)],
    ));
    let probe = summarize_probes(actions.as_slice());
    let route = summarize_routes(actions.as_slice());
    let class = route_class(&route);
    let hint = match evidence.hint_drvs.get(key) {
        Some(hint) => Some(hint.label.clone()),
        None => None,
    };
    let dependencies = dependencies_of(node, evidence.required);
    Ok(
        DerivationPlan {
            drv: store_path(key),
            name: name_of(&node.name, &node.env.name),
            pname: name_of(&node.pname, &node.env.pname),
            output_names,
            outputs,
            system: node.system.clone(),
            class,
            route,
            hint,
            probe: Some(probe),
            actions,
            dependencies,
        },
    )
}

/// The plans of the derivations in the frontier, and how many there are of
/// each class.
pub fn assemble(evidence: &Evidence, frontier: &SortedMap<SortedSet>) -> (result: Result<
    (Vec<DerivationPlan>, PlanCounts),
>)
    ensures
        outcome(result) == match evidence@.derivations(
            frontier.deep_view(),
            ascending(frontier.deep_view().dom()),
            Seq::empty(),
        ) {
            Ok(plans) => Ok((plans, counts_of(plans))),
            Err(error) => Err(error),
        },
{
    let ghost wanted = frontier.deep_view();
    let ghost order = frontier.order();
    assert(wanted.dom() =~= frontier@.dom());
    let ghost expected = evidence@.derivations(wanted, order, Seq::empty());
    let count = frontier.len();
    let mut plans: Vec<DerivationPlan> = Vec::new();
    let mut counts = PlanCounts::default();
    let mut i: usize = 0;
    assert(order.skip(0) =~= order);
    assert(plans.deep_view() =~= Seq::empty());
    while i < count
        invariant
            wanted == frontier.deep_view(),
            order == frontier.order(),
            count == order.len(),
            i <= count,
            expected == evidence@.derivations(wanted, order, Seq::empty()),
            wanted.dom() == frontier@.dom(),
            expected == evidence@.derivations(wanted, order.skip(i as int), plans.deep_view()),
            counts@ == counts_of(plans.deep_view()),
            plans.len() <= i,
        decreases count - i,
    {
        let key = frontier.key_at(i);
        let names = frontier.value_at(i);
        assert(order.skip(i as int)[0] == key@);
        assert(order.skip(i as int).drop_first() =~= order.skip(i + 1));
        assert(wanted[key@] == names@);
        if let Some(node) = evidence.graph.derivations.get(key.as_str()) {
            assert(evidence@.graph.contains_key(key@) && evidence@.graph[key@] == node@);
            match derivation_plan(evidence, key.as_str(), node, names) {
                Ok(plan) => {
                    let ghost before = plans.deep_view();
                    proof {
                        law_counts_cover_all(before);
                    }
                    match plan.class {
                        DerivationClass::LocalPresent => {
                            counts.local_present = counts.local_present + 1;
                        },
                        DerivationClass::HostSubstituted => {
                            counts.host_substituted = counts.host_substituted + 1;
                        },
                        DerivationClass::BuildLocal => {
                            counts.build_local = counts.build_local + 1;
                        },
                        DerivationClass::HostRemote => {
                            counts.host_remote = counts.host_remote + 1;
                        },
                        DerivationClass::Unhandled => {
                            counts.unhandled = counts.unhandled + 1;
                        },
                    }
                    plans.push(plan);
                    assert(plans.deep_view() =~= before.push(plan@));
                    assert(before.push(plan@).drop_last() =~= before);
                },
                Err(error) => {
                    return Err(error);
                },
            }
        } else {
            assert(!evidence@.graph.contains_key(key@));
        }
        i += 1;
    }
    assert(order.skip(count as int) =~= Seq::empty());
    Ok((plans, counts))
}

/// The counts of a plan are the numbers of its derivations of each class.
pub proof fn law_counts_are_those_of_the_classes(plans: Seq<DerivationView>)
    ensures
        counts_of(plans).host_substituted == plans.filter(
            |plan: DerivationView| plan.class == DerivationClass::HostSubstituted,
        ).len(),
        counts_of(plans).local_present == plans.filter(
            |plan: DerivationView| plan.class == DerivationClass::LocalPresent,
        ).len(),
        counts_of(plans).build_local == plans.filter(
            |plan: DerivationView| plan.class == DerivationClass::BuildLocal,
        ).len(),
        counts_of(plans).host_remote == plans.filter(
            |plan: DerivationView| plan.class == DerivationClass::HostRemote,
        ).len(),
        counts_of(plans).unhandled == plans.filter(
            |plan: DerivationView| plan.class == DerivationClass::Unhandled,
        ).len(),
    decreases plans.len(),
{
    reveal(Seq::filter);
    if plans.len() > 0 {
        law_counts_are_those_of_the_classes(plans.drop_last());
    }
}

/// A name that a derivation has itself comes before that of its environment, and
/// an empty name is none.
pub proof fn law_own_names_come_first(own: Option<Seq<char>>, env: Option<Seq<char>>)
    ensures
        own matches Some(name) ==> reported_name(own, env) == if name.len() > 0 {
            Some(name)
        } else {
            None
        },
        own is None ==> reported_name(own, env) == if env matches Some(name) && name.len() > 0 {
            env
        } else {
            None
        },
{
}

impl Findings {
    /// An output of a derivation is planned as it was found: what is built into
    /// Nix, and what a hint says not to look for, counts as known to be local;
    /// otherwise the probe of its path counts, and without one it is undecided.
    /// It is routed by that, its hint, its system and the policy.
    pub proof fn law_outputs_are_planned_as_found(self, key: Seq<char>, name: Seq<char>)
        ensures
            ({
                let action = self.action(key, name);
                let system = self.graph[key].system;
                let hint = if self.hint_drvs.contains_key(key) {
                    Some(self.hint_drvs[key])
                } else {
                    None
                };
                let path = self.paths[(key, name)];
                &&& action.output == name
                &&& action.path == path
                &&& system == "builtin"@ || (hint matches Some(spec) && spec.skip_probe)
                    ==> action.probe is SkippedKnownLocal
                &&& system != "builtin"@ && !(hint matches Some(spec) && spec.skip_probe)
                    ==> action.probe == if self.availability.contains_key(path) {
                    self.availability[path]
                } else {
                    ProbeView::Indeterminate { errors: seq!["output was not probed"@] }
                }
                &&& action.route == route_of(
                    hint,
                    action.probe,
                    system,
                    self.inputs.build_system,
                    self.inputs.host_system,
                    self.inputs.policy,
                )
            }),
    {
    }

    /// A derivation is planned with its outputs in order, one action for each,
    /// under its full path and its system. Its route is that of its actions
    /// together, its class that of its route, and its hint is named by its label.
    pub proof fn law_derivations_are_planned_with_their_outputs(
        self,
        key: Seq<char>,
        names: Seq<Seq<char>>,
        i: int,
    )
        requires
            0 <= i < names.len(),
        ensures
            ({
                let plan = self.derivation(key, names);
                &&& plan.drv == full_path(key)
                &&& plan.system == self.graph[key].system
                &&& plan.output_names == names
                &&& plan.outputs.len() == names.len()
                &&& plan.outputs[i] == self.paths[(key, names[i])]
                &&& plan.actions.len() == names.len()
                &&& plan.actions[i] == self.action(key, names[i])
                &&& plan.route == summary_route(plan.actions)
                &&& plan.class == class_of(plan.route)
                &&& plan.probe == Some(summary_probe(plan.actions))
                &&& self.hint_drvs.contains_key(key) ==> plan.hint == Some(
                    self.hint_drvs[key].label,
                )
                &&& !self.hint_drvs.contains_key(key) ==> plan.hint is None
                &&& plan.name == reported_name(self.graph[key].name, self.graph[key].env_name)
                &&& plan.pname == reported_name(self.graph[key].pname, self.graph[key].env_pname)
            }),
    {
    }
}

/// A derivation depends on those of its inputs that the plan requires: for each
/// input of which some output is required there is a dependency with exactly the
/// required ones, in order, and for no other.
pub proof fn law_dependencies_are_the_required_inputs(
    inputs: Map<Seq<char>, Seq<Seq<char>>>,
    keys: Seq<Seq<char>>,
    input: Seq<char>,
    required: Outputs,
)
    ensures
        edges(inputs, Seq::empty(), required) == Seq::<DependencyView>::empty(),
        ({
            let key = key_of(input);
            let needed = |name: Seq<char>|
                required.contains_key(key) && required[key].contains(name);
            let outputs = inputs[input].filter(needed);
            edges(inputs, keys.push(input), required) == if exists|i: int|
                0 <= i < inputs[input].len() && needed(#[trigger] inputs[input][i]) {
                edges(inputs, keys, required).push(
                    DependencyView { drv: full_path(key), outputs },
                )
            } else {
                edges(inputs, keys, required)
            }
        }),
{
    assert(keys.push(input).drop_last() =~= keys);
    let key = key_of(input);
    let needed = |name: Seq<char>| required.contains_key(key) && required[key].contains(name);
    let outputs = inputs[input].filter(needed);
    if outputs.len() > 0 {
        inputs[input].lemma_filter_pred(needed, 0);
        inputs[input].lemma_filter_contains_rev(needed, outputs[0]);
        let i = inputs[input].index_of(outputs[0]);
        assert(needed(inputs[input][i]));
    } else if exists|i: int|
        0 <= i < inputs[input].len() && needed(#[trigger] inputs[input][i]) {
        let i = choose|i: int| 0 <= i < inputs[input].len() && needed(#[trigger] inputs[input][i]);
        inputs[input].lemma_filter_contains(needed, i);
    }
}

} // verus!
