//! The order of a plan: dependencies come before what needs them.

use vstd::prelude::*;

use crate::planner::assembly::{counts_of, law_counts_ignore_the_order};
use crate::planner::plan::{DependencyView, DerivationPlan, DerivationView, PlanRoot, RootView};
use crate::sorted::{ascending, lemma_ascending_exists, lookup, SortedMap, SortedSet};
use crate::text;

verus! {

// ---------------------------------------------------------------------------
// Model
// ---------------------------------------------------------------------------

/// The plan of a derivation: the last of `plans` that is for it.
pub open spec fn plan_of(plans: Seq<DerivationView>, drv: Seq<char>) -> Option<DerivationView>
    decreases plans.len(),
{
    if plans.len() == 0 {
        None
    } else if plans.last().drv == drv {
        Some(plans.last())
    } else {
        plan_of(plans.drop_last(), drv)
    }
}

/// The derivations that dependency edges lead to.
pub open spec fn targets(dependencies: Seq<DependencyView>) -> Seq<Seq<char>> {
    dependencies.map_values(|dependency: DependencyView| dependency.drv)
}

/// The derivations that are planned.
pub open spec fn planned(plans: Seq<DerivationView>) -> Seq<Seq<char>> {
    plans.map_values(|plan: DerivationView| plan.drv)
}

/// Number of plans for derivations that have not been visited.
pub open spec fn unvisited(plans: Seq<DerivationView>, visited: Set<Seq<char>>) -> nat
    decreases plans.len(),
{
    if plans.len() == 0 {
        0
    } else if visited.contains(plans.last().drv) {
        unvisited(plans.drop_last(), visited)
    } else {
        unvisited(plans.drop_last(), visited) + 1
    }
}

/// Visits a derivation: its dependencies first, then the derivation itself. A
/// derivation is visited only once. Gives the visited derivations and the
/// order of the plans so far.
pub open spec fn visit(
    plans: Seq<DerivationView>,
    drv: Seq<char>,
    visited: Set<Seq<char>>,
    ordered: Seq<DerivationView>,
) -> (Set<Seq<char>>, Seq<DerivationView>)
    decreases unvisited(plans, visited), 0nat,
{
    if visited.contains(drv) {
        (visited, ordered)
    } else {
        match plan_of(plans, drv) {
            None => (visited.insert(drv), ordered),
            Some(plan) => {
                proof {
                    lemma_unvisited_decreases(plans, visited, drv);
                }
                let (seen, order) = visit_each(
                    plans,
                    targets(plan.dependencies),
                    visited.insert(drv),
                    ordered,
                );
                (seen, order.push(plan))
            },
        }
    }
}

/// Visits derivations one after the other.
pub open spec fn visit_each(
    plans: Seq<DerivationView>,
    drvs: Seq<Seq<char>>,
    visited: Set<Seq<char>>,
    ordered: Seq<DerivationView>,
) -> (Set<Seq<char>>, Seq<DerivationView>)
    decreases unvisited(plans, visited), drvs.len() + 1,
{
    if drvs.len() == 0 {
        (visited, ordered)
    } else {
        let (seen, order) = visit(plans, drvs[0], visited, ordered);
        if visited.subset_of(seen) {
            proof {
                lemma_unvisited_shrinks(plans, visited, seen);
            }
            visit_each(plans, drvs.drop_first(), seen, order)
        } else {
            (seen, order)
        }
    }
}

/// The plans in dependency order: the roots are visited first, then whatever
/// is left.
pub open spec fn in_dependency_order(
    plans: Seq<DerivationView>,
    roots: Seq<RootView>,
) -> Seq<DerivationView> {
    let (visited, ordered) = visit_each(
        plans,
        roots.map_values(|root: RootView| root.drv),
        Set::empty(),
        Seq::empty(),
    );
    visit_each(plans, ascending(planned(plans).to_set()), visited, ordered).1
}

// ---------------------------------------------------------------------------
// Termination
// ---------------------------------------------------------------------------

/// Visiting more leaves less unvisited.
pub proof fn lemma_unvisited_shrinks(
    plans: Seq<DerivationView>,
    visited: Set<Seq<char>>,
    seen: Set<Seq<char>>,
)
    requires
        visited.subset_of(seen),
    ensures
        unvisited(plans, seen) <= unvisited(plans, visited),
    decreases plans.len(),
{
    if plans.len() > 0 {
        lemma_unvisited_shrinks(plans.drop_last(), visited, seen);
    }
}

/// Visiting a planned derivation leaves strictly less unvisited.
pub proof fn lemma_unvisited_decreases(
    plans: Seq<DerivationView>,
    visited: Set<Seq<char>>,
    drv: Seq<char>,
)
    requires
        !visited.contains(drv),
        plan_of(plans, drv) is Some,
    ensures
        unvisited(plans, visited.insert(drv)) < unvisited(plans, visited),
    decreases plans.len(),
{
    if plans.len() > 0 {
        lemma_unvisited_shrinks(plans.drop_last(), visited, visited.insert(drv));
        if plans.last().drv != drv {
            lemma_unvisited_decreases(plans.drop_last(), visited, drv);
        }
    }
}

proof fn lemma_visit_grows(
    plans: Seq<DerivationView>,
    drv: Seq<char>,
    visited: Set<Seq<char>>,
    ordered: Seq<DerivationView>,
)
    ensures
        visited.insert(drv).subset_of(visit(plans, drv, visited, ordered).0),
    decreases unvisited(plans, visited), 0nat,
{
    if !visited.contains(drv) {
        if let Some(plan) = plan_of(plans, drv) {
            lemma_unvisited_decreases(plans, visited, drv);
            lemma_visit_each_grows(
                plans,
                targets(plan.dependencies),
                visited.insert(drv),
                ordered,
            );
        }
    }
}

proof fn lemma_visit_each_grows(
    plans: Seq<DerivationView>,
    drvs: Seq<Seq<char>>,
    visited: Set<Seq<char>>,
    ordered: Seq<DerivationView>,
)
    ensures
        visited.subset_of(visit_each(plans, drvs, visited, ordered).0),
        forall|i: int|
            0 <= i < drvs.len() ==> visit_each(plans, drvs, visited, ordered).0.contains(
                #[trigger] drvs[i],
            ),
    decreases unvisited(plans, visited), drvs.len() + 1,
{
    if drvs.len() > 0 {
        let (seen, order) = visit(plans, drvs[0], visited, ordered);
        lemma_visit_grows(plans, drvs[0], visited, ordered);
        lemma_unvisited_shrinks(plans, visited, seen);
        let rest = drvs.drop_first();
        lemma_visit_each_grows(plans, rest, seen, order);
        assert forall|i: int| 0 <= i < drvs.len() implies visit_each(
            plans,
            drvs,
            visited,
            ordered,
        ).0.contains(#[trigger] drvs[i]) by {
            if i > 0 {
                assert(rest[i - 1] == drvs[i]);
            }
        }
    }
}

// ---------------------------------------------------------------------------
// Laws
// ---------------------------------------------------------------------------

pub proof fn lemma_plan_of(plans: Seq<DerivationView>, drv: Seq<char>)
    ensures
        plan_of(plans, drv) is Some <==> planned(plans).contains(drv),
        plan_of(plans, drv) matches Some(plan) ==> plan.drv == drv && plans.contains(plan),
    decreases plans.len(),
{
    if plans.len() > 0 {
        let rest = plans.drop_last();
        lemma_plan_of(rest, drv);
        assert(planned(plans)[plans.len() - 1] == plans.last().drv);
        assert(plans[plans.len() - 1] == plans.last());
        if planned(rest).contains(drv) {
            let i = planned(rest).index_of(drv);
            assert(planned(plans)[i] == drv);
        }
        if planned(plans).contains(drv) && plans.last().drv != drv {
            let i = planned(plans).index_of(drv);
            assert(planned(rest)[i] == drv);
        }
        if plans.last().drv != drv {
            if let Some(plan) = plan_of(rest, drv) {
                let i = rest.index_of(plan);
                assert(plans[i] == plan);
            }
        }
    }
}

/// Where a visit stands: the visited derivations that have a plan are those
/// already in the order and those that are being visited.
spec fn consistent(
    plans: Seq<DerivationView>,
    visited: Set<Seq<char>>,
    ordered: Seq<DerivationView>,
    open: Set<Seq<char>>,
) -> bool {
    &&& planned(ordered).no_duplicates()
    &&& open.subset_of(visited)
    &&& forall|i: int|
        0 <= i < ordered.len() ==> visited.contains((#[trigger] ordered[i]).drv) && !open.contains(
            ordered[i].drv,
        ) && plan_of(plans, ordered[i].drv) == Some(ordered[i])
    &&& forall|drv: Seq<char>| #[trigger]
        visited.contains(drv) && plan_of(plans, drv) is Some && !open.contains(drv)
            ==> planned(ordered).contains(drv)
}

proof fn lemma_push_planned(ordered: Seq<DerivationView>, plan: DerivationView)
    ensures
        planned(ordered.push(plan)) == planned(ordered).push(plan.drv),
        forall|drv: Seq<char>| #[trigger]
            planned(ordered.push(plan)).contains(drv) <==> planned(ordered).contains(drv) || drv
                == plan.drv,
{
    let after = planned(ordered.push(plan));
    assert(after =~= planned(ordered).push(plan.drv));
    assert forall|drv: Seq<char>| #[trigger] after.contains(drv) <==> planned(ordered).contains(
        drv,
    ) || drv == plan.drv by {
        assert(after[ordered.len() as int] == plan.drv);
        if planned(ordered).contains(drv) {
            let i = planned(ordered).index_of(drv);
            assert(after[i] == drv);
        }
        if after.contains(drv) && drv != plan.drv {
            let i = after.index_of(drv);
            assert(planned(ordered)[i] == drv);
        }
    }
}

proof fn lemma_visit_consistent(
    plans: Seq<DerivationView>,
    drv: Seq<char>,
    visited: Set<Seq<char>>,
    ordered: Seq<DerivationView>,
    open: Set<Seq<char>>,
)
    requires
        consistent(plans, visited, ordered, open),
    ensures
        consistent(
            plans,
            visit(plans, drv, visited, ordered).0,
            visit(plans, drv, visited, ordered).1,
            open,
        ),
        ordered.is_prefix_of(visit(plans, drv, visited, ordered).1),
    decreases unvisited(plans, visited), 0nat,
{
    if !visited.contains(drv) {
        if let Some(plan) = plan_of(plans, drv) {
            lemma_unvisited_decreases(plans, visited, drv);
            lemma_plan_of(plans, drv);
            let entered = visited.insert(drv);
            let opened = open.insert(drv);
            assert(consistent(plans, entered, ordered, opened)) by {
                assert forall|other: Seq<char>| #[trigger]
                    entered.contains(other) && plan_of(plans, other) is Some && !opened.contains(
                        other,
                    ) implies planned(ordered).contains(other) by {
                    assert(visited.contains(other));
                }
            }
            let deps = targets(plan.dependencies);
            lemma_visit_each_consistent(plans, deps, entered, ordered, opened);
            lemma_visit_each_grows(plans, deps, entered, ordered);
            let (seen, order) = visit_each(plans, deps, entered, ordered);
            lemma_push_planned(order, plan);
            assert(!planned(order).contains(drv)) by {
                if planned(order).contains(drv) {
                    let i = planned(order).index_of(drv);
                    assert(order[i].drv == drv);
                    assert(!opened.contains(order[i].drv));
                }
            }
            let after = order.push(plan);
            assert(consistent(plans, seen, after, open)) by {
                assert forall|i: int| 0 <= i < after.len() implies seen.contains(
                    (#[trigger] after[i]).drv,
                ) && !open.contains(after[i].drv) && plan_of(plans, after[i].drv) == Some(
                    after[i],
                ) by {
                    if i < order.len() {
                        assert(after[i] == order[i]);
                        assert(!opened.contains(order[i].drv));
                    } else {
                        assert(after[i] == plan);
                        assert(entered.contains(drv));
                        assert(!open.contains(drv));
                    }
                }
                assert forall|other: Seq<char>| #[trigger]
                    seen.contains(other) && plan_of(plans, other) is Some && !open.contains(
                        other,
                    ) implies planned(after).contains(other) by {
                    if other != drv {
                        assert(!opened.contains(other));
                        assert(planned(order).contains(other));
                    }
                }
            }
            assert(ordered.is_prefix_of(after));
        } else {
            let entered = visited.insert(drv);
            assert(consistent(plans, entered, ordered, open)) by {
                assert forall|other: Seq<char>| #[trigger]
                    entered.contains(other) && plan_of(plans, other) is Some && !open.contains(
                        other,
                    ) implies planned(ordered).contains(other) by {
                    assert(visited.contains(other));
                }
            }
        }
    }
}

proof fn lemma_visit_each_consistent(
    plans: Seq<DerivationView>,
    drvs: Seq<Seq<char>>,
    visited: Set<Seq<char>>,
    ordered: Seq<DerivationView>,
    open: Set<Seq<char>>,
)
    requires
        consistent(plans, visited, ordered, open),
    ensures
        consistent(
            plans,
            visit_each(plans, drvs, visited, ordered).0,
            visit_each(plans, drvs, visited, ordered).1,
            open,
        ),
        ordered.is_prefix_of(visit_each(plans, drvs, visited, ordered).1),
    decreases unvisited(plans, visited), drvs.len() + 1,
{
    if drvs.len() > 0 {
        let (seen, order) = visit(plans, drvs[0], visited, ordered);
        lemma_visit_consistent(plans, drvs[0], visited, ordered, open);
        lemma_visit_grows(plans, drvs[0], visited, ordered);
        lemma_unvisited_shrinks(plans, visited, seen);
        lemma_visit_each_consistent(plans, drvs.drop_first(), seen, order, open);
    }
}

/// Ordering loses nothing and repeats nothing: every planned derivation is in
/// the order exactly once, with its own plan.
pub proof fn law_every_derivation_once(plans: Seq<DerivationView>, roots: Seq<RootView>)
    ensures
        planned(in_dependency_order(plans, roots)).no_duplicates(),
        forall|drv: Seq<char>| #[trigger]
            planned(in_dependency_order(plans, roots)).contains(drv) <==> planned(plans).contains(
                drv,
            ),
        forall|i: int|
            0 <= i < in_dependency_order(plans, roots).len() ==> plan_of(
                plans,
                (#[trigger] in_dependency_order(plans, roots)[i]).drv,
            ) == Some(in_dependency_order(plans, roots)[i]),
{
    let none = Set::<Seq<char>>::empty();
    let start = roots.map_values(|root: RootView| root.drv);
    assert(consistent(plans, none, Seq::empty(), none));
    lemma_visit_each_consistent(plans, start, none, Seq::empty(), none);
    let (visited, ordered) = visit_each(plans, start, none, Seq::empty());
    let rest = ascending(planned(plans).to_set());
    lemma_visit_each_consistent(plans, rest, visited, ordered, none);
    lemma_visit_each_grows(plans, rest, visited, ordered);
    lemma_ascending_exists(planned(plans).to_set());
    let seen = visit_each(plans, rest, visited, ordered).0;
    let result = in_dependency_order(plans, roots);
    assert forall|drv: Seq<char>| #[trigger] planned(result).contains(drv) <==> planned(
        plans,
    ).contains(drv) by {
        lemma_plan_of(plans, drv);
        if planned(result).contains(drv) {
            let i = planned(result).index_of(drv);
            assert(result[i].drv == drv);
        }
        if planned(plans).contains(drv) {
            assert(planned(plans).to_set().contains(drv));
            assert(rest.to_set().contains(drv));
            let i = rest.index_of(drv);
            assert(rest[i] == drv);
            assert(seen.contains(drv));
        }
    }
}

/// `rank` falls along every dependency edge between planned derivations, so
/// that the plans have no dependency cycle.
pub open spec fn falls_along_edges(
    plans: Seq<DerivationView>,
    rank: spec_fn(Seq<char>) -> nat,
) -> bool {
    forall|drv: Seq<char>, i: int|
        plan_of(plans, drv) matches Some(plan) && 0 <= i < plan.dependencies.len() && plan_of(
            plans,
            (#[trigger] plan_of(plans, drv)->0.dependencies[i]).drv,
        ) is Some ==> rank(plan_of(plans, drv)->0.dependencies[i].drv) < rank(drv)
}

/// Each planned dependency of a plan in the order stands before it.
pub open spec fn dependencies_first(
    plans: Seq<DerivationView>,
    ordered: Seq<DerivationView>,
) -> bool {
    forall|i: int, k: int|
        0 <= i < ordered.len() && 0 <= k < ordered[i].dependencies.len() && plan_of(
            plans,
            (#[trigger] ordered[i].dependencies[k]).drv,
        ) is Some ==> planned(ordered.take(i)).contains(ordered[i].dependencies[k].drv)
}

proof fn lemma_visit_ordered(
    plans: Seq<DerivationView>,
    rank: spec_fn(Seq<char>) -> nat,
    drv: Seq<char>,
    visited: Set<Seq<char>>,
    ordered: Seq<DerivationView>,
    open: Set<Seq<char>>,
)
    requires
        falls_along_edges(plans, rank),
        consistent(plans, visited, ordered, open),
        dependencies_first(plans, ordered),
        plan_of(plans, drv) is Some ==> forall|other: Seq<char>| #[trigger]
            open.contains(other) ==> rank(drv) < rank(other),
    ensures
        dependencies_first(plans, visit(plans, drv, visited, ordered).1),
    decreases unvisited(plans, visited), 0nat,
{
    if !visited.contains(drv) {
        if let Some(plan) = plan_of(plans, drv) {
            lemma_unvisited_decreases(plans, visited, drv);
            lemma_plan_of(plans, drv);
            let entered = visited.insert(drv);
            let opened = open.insert(drv);
            assert(consistent(plans, entered, ordered, opened)) by {
                assert forall|other: Seq<char>| #[trigger]
                    entered.contains(other) && plan_of(plans, other) is Some && !opened.contains(
                        other,
                    ) implies planned(ordered).contains(other) by {
                    assert(visited.contains(other));
                }
            }
            let deps = targets(plan.dependencies);
            assert forall|i: int, other: Seq<char>|
                0 <= i < deps.len() && plan_of(plans, #[trigger] deps[i]) is Some
                    && #[trigger] opened.contains(other) implies rank(deps[i]) < rank(other) by {
                assert(deps[i] == plan.dependencies[i].drv);
                assert(plan_of(plans, plan_of(plans, drv)->0.dependencies[i].drv) is Some);
                assert(rank(deps[i]) < rank(drv));
                if other != drv {
                    assert(open.contains(other));
                }
            }
            lemma_visit_each_ordered(plans, rank, deps, entered, ordered, opened);
            lemma_visit_each_consistent(plans, deps, entered, ordered, opened);
            lemma_visit_each_grows(plans, deps, entered, ordered);
            let (seen, order) = visit_each(plans, deps, entered, ordered);
            let after = order.push(plan);
            assert forall|i: int, k: int|
                0 <= i < after.len() && 0 <= k < after[i].dependencies.len() && plan_of(
                    plans,
                    (#[trigger] after[i].dependencies[k]).drv,
                ) is Some implies planned(after.take(i)).contains(
                after[i].dependencies[k].drv,
            ) by {
                let wanted = after[i].dependencies[k].drv;
                if i < order.len() {
                    assert(after[i] == order[i]);
                    assert(planned(order.take(i)).contains(order[i].dependencies[k].drv));
                    assert(after.take(i) =~= order.take(i));
                } else {
                    assert(after[i] == plan);
                    assert(after.take(i) =~= order);
                    assert(deps[k] == wanted);
                    assert(seen.contains(wanted));
                    assert(!opened.contains(wanted)) by {
                        if opened.contains(wanted) {
                            assert(rank(deps[k]) < rank(wanted));
                        }
                    }
                    assert(planned(order).contains(wanted));
                }
            }
        }
    }
}

proof fn lemma_visit_each_ordered(
    plans: Seq<DerivationView>,
    rank: spec_fn(Seq<char>) -> nat,
    drvs: Seq<Seq<char>>,
    visited: Set<Seq<char>>,
    ordered: Seq<DerivationView>,
    open: Set<Seq<char>>,
)
    requires
        falls_along_edges(plans, rank),
        consistent(plans, visited, ordered, open),
        dependencies_first(plans, ordered),
        forall|i: int, other: Seq<char>|
            0 <= i < drvs.len() && plan_of(plans, #[trigger] drvs[i]) is Some
                && #[trigger] open.contains(other) ==> rank(drvs[i]) < rank(other),
    ensures
        dependencies_first(plans, visit_each(plans, drvs, visited, ordered).1),
    decreases unvisited(plans, visited), drvs.len() + 1,
{
    if drvs.len() > 0 {
        let (seen, order) = visit(plans, drvs[0], visited, ordered);
        assert forall|other: Seq<char>| #[trigger]
            open.contains(other) && plan_of(plans, drvs[0]) is Some implies rank(drvs[0]) < rank(
            other,
        ) by {}
        lemma_visit_ordered(plans, rank, drvs[0], visited, ordered, open);
        lemma_visit_consistent(plans, drvs[0], visited, ordered, open);
        lemma_visit_grows(plans, drvs[0], visited, ordered);
        lemma_unvisited_shrinks(plans, visited, seen);
        let rest = drvs.drop_first();
        assert forall|i: int, other: Seq<char>|
            0 <= i < rest.len() && plan_of(plans, #[trigger] rest[i]) is Some
                && #[trigger] open.contains(other) implies rank(rest[i]) < rank(other) by {
            assert(drvs[i + 1] == rest[i]);
        }
        lemma_visit_each_ordered(plans, rank, rest, seen, order, open);
    }
}

/// The order holds the plans and nothing else, and is counted as they are.
pub proof fn law_order_keeps_the_counts(plans: Seq<DerivationView>, roots: Seq<RootView>)
    requires
        planned(plans).no_duplicates(),
    ensures
        in_dependency_order(plans, roots).to_set() == plans.to_set(),
        counts_of(in_dependency_order(plans, roots)) == counts_of(plans),
{
    let ordered = in_dependency_order(plans, roots);
    law_every_derivation_once(plans, roots);
    lemma_distinct_plans(plans);
    lemma_distinct_plans(ordered);
    assert forall|plan: DerivationView| ordered.to_set().contains(plan) == plans.to_set().contains(
        plan,
    ) by {
        if ordered.contains(plan) {
            let i = ordered.index_of(plan);
            assert(plan_of(plans, ordered[i].drv) == Some(ordered[i]));
            lemma_plan_of(plans, plan.drv);
        }
        if plans.contains(plan) {
            let i = plans.index_of(plan);
            assert(planned(plans)[i] == plan.drv);
            assert(planned(ordered).contains(plan.drv));
            let k = planned(ordered).index_of(plan.drv);
            assert(ordered[k].drv == plan.drv);
            lemma_plan_of(plans, plan.drv);
            let l = plans.index_of(ordered[k]);
            assert(planned(plans)[l] == plan.drv);
        }
    }
    assert(ordered.to_set() =~= plans.to_set());
    law_counts_ignore_the_order(ordered, plans);
}

proof fn lemma_distinct_plans(plans: Seq<DerivationView>)
    requires
        planned(plans).no_duplicates(),
    ensures
        plans.no_duplicates(),
{
    assert forall|i: int, j: int|
        0 <= i < plans.len() && 0 <= j < plans.len() && i != j implies plans[i] != plans[j] by {
        assert(planned(plans)[i] != planned(plans)[j]);
    }
}

/// The plans of a derivation are the same in both lists.
spec fn same_plans(left: Seq<DerivationView>, right: Seq<DerivationView>) -> bool {
    forall|drv: Seq<char>| #[trigger] plan_of(left, drv) == plan_of(right, drv)
}

proof fn lemma_same_visit(
    left: Seq<DerivationView>,
    right: Seq<DerivationView>,
    drv: Seq<char>,
    visited: Set<Seq<char>>,
    ordered: Seq<DerivationView>,
)
    requires
        same_plans(left, right),
    ensures
        visit(left, drv, visited, ordered) == visit(right, drv, visited, ordered),
    decreases unvisited(left, visited), 0nat,
{
    assert(plan_of(left, drv) == plan_of(right, drv));
    if !visited.contains(drv) {
        if let Some(plan) = plan_of(left, drv) {
            lemma_unvisited_decreases(left, visited, drv);
            lemma_same_visit_each(
                left,
                right,
                targets(plan.dependencies),
                visited.insert(drv),
                ordered,
            );
        }
    }
}

proof fn lemma_same_visit_each(
    left: Seq<DerivationView>,
    right: Seq<DerivationView>,
    drvs: Seq<Seq<char>>,
    visited: Set<Seq<char>>,
    ordered: Seq<DerivationView>,
)
    requires
        same_plans(left, right),
    ensures
        visit_each(left, drvs, visited, ordered) == visit_each(right, drvs, visited, ordered),
    decreases unvisited(left, visited), drvs.len() + 1,
{
    if drvs.len() > 0 {
        lemma_same_visit(left, right, drvs[0], visited, ordered);
        let (seen, order) = visit(left, drvs[0], visited, ordered);
        if visited.subset_of(seen) {
            lemma_unvisited_shrinks(left, visited, seen);
            lemma_same_visit_each(left, right, drvs.drop_first(), seen, order);
        }
    }
}

/// The order is stable: how the plans are listed does not matter, as long as
/// each derivation has one plan.
pub proof fn law_order_is_stable(
    left: Seq<DerivationView>,
    right: Seq<DerivationView>,
    roots: Seq<RootView>,
)
    requires
        planned(left).no_duplicates(),
        planned(right).no_duplicates(),
        left.to_set() == right.to_set(),
    ensures
        in_dependency_order(left, roots) == in_dependency_order(right, roots),
{
    assert forall|drv: Seq<char>| #[trigger] plan_of(left, drv) == plan_of(right, drv) by {
        lemma_plan_of(left, drv);
        lemma_plan_of(right, drv);
        lemma_listed_plan(left, right, drv);
        lemma_listed_plan(right, left, drv);
    }
    assert(planned(left).to_set() =~= planned(right).to_set()) by {
        assert forall|drv: Seq<char>| planned(left).to_set().contains(drv) == planned(
            right,
        ).to_set().contains(drv) by {
            lemma_plan_of(left, drv);
            lemma_plan_of(right, drv);
            assert(plan_of(left, drv) == plan_of(right, drv));
        }
    }
    let none = Set::<Seq<char>>::empty();
    let start = roots.map_values(|root: RootView| root.drv);
    lemma_same_visit_each(left, right, start, none, Seq::empty());
    let (visited, ordered) = visit_each(left, start, none, Seq::empty());
    lemma_same_visit_each(left, right, ascending(planned(left).to_set()), visited, ordered);
}

/// A plan that one list has for a derivation is the plan that the other has.
proof fn lemma_listed_plan(
    left: Seq<DerivationView>,
    right: Seq<DerivationView>,
    drv: Seq<char>,
)
    requires
        planned(right).no_duplicates(),
        left.to_set() == right.to_set(),
    ensures
        plan_of(left, drv) is Some ==> plan_of(left, drv) == plan_of(right, drv),
{
    lemma_plan_of(left, drv);
    lemma_plan_of(right, drv);
    if let Some(plan) = plan_of(left, drv) {
        assert(left.to_set().contains(plan));
        assert(right.to_set().contains(plan));
        let i = right.index_of(plan);
        assert(planned(right)[i] == drv);
        assert(planned(right).contains(drv));
        let other = plan_of(right, drv)->0;
        let k = right.index_of(other);
        assert(planned(right)[k] == drv);
    }
}

/// In a plan without dependency cycles every planned dependency stands before
/// what needs it.
pub proof fn law_dependencies_come_first(
    plans: Seq<DerivationView>,
    roots: Seq<RootView>,
    rank: spec_fn(Seq<char>) -> nat,
)
    requires
        falls_along_edges(plans, rank),
    ensures
        dependencies_first(plans, in_dependency_order(plans, roots)),
{
    let none = Set::<Seq<char>>::empty();
    let start = roots.map_values(|root: RootView| root.drv);
    assert(consistent(plans, none, Seq::empty(), none));
    lemma_visit_each_ordered(plans, rank, start, none, Seq::empty(), none);
    lemma_visit_each_consistent(plans, start, none, Seq::empty(), none);
    let (visited, ordered) = visit_each(plans, start, none, Seq::empty());
    lemma_visit_each_ordered(
        plans,
        rank,
        ascending(planned(plans).to_set()),
        visited,
        ordered,
        none,
    );
}

// ---------------------------------------------------------------------------
// Operation
// ---------------------------------------------------------------------------

/// The derivations that dependency edges lead to.
fn dependency_drvs(plan: &DerivationPlan) -> (result: Vec<String>)
    ensures
        result.deep_view() == targets(plan@.dependencies),
{
    let ghost all = targets(plan@.dependencies);
    let mut drvs: Vec<String> = Vec::new();
    for i in 0..plan.dependencies.len()
        invariant
            all == targets(plan@.dependencies),
            drvs.deep_view() == all.take(i as int),
    {
        text::add_item(&mut drvs, plan.dependencies[i].drv.clone());
        assert(plan@.dependencies[i as int] == plan.dependencies@[i as int]@);
        assert(drvs.deep_view() =~= all.take(i + 1));
    }
    assert(all.take(plan.dependencies.len() as int) =~= all);
    drvs
}

fn visit_derivation(
    drv: &str,
    by_drv: &mut SortedMap<DerivationPlan>,
    visited: &mut SortedSet,
    ordered: &mut Vec<DerivationPlan>,
    Ghost(plans): Ghost<Seq<DerivationView>>,
)
    requires
        forall|other: Seq<char>|
            !old(visited)@.contains(other) ==> #[trigger] lookup(old(by_drv).deep_view(), other)
                == plan_of(plans, other),
    ensures
        (final(visited)@, final(ordered).deep_view()) == visit(
            plans,
            drv@,
            old(visited)@,
            old(ordered).deep_view(),
        ),
        forall|other: Seq<char>|
            !final(visited)@.contains(other) ==> #[trigger] lookup(final(by_drv).deep_view(), other)
                == plan_of(plans, other),
        forall|other: Seq<char>|
            old(visited)@.contains(other) ==> #[trigger] lookup(final(by_drv).deep_view(), other)
                == lookup(old(by_drv).deep_view(), other),
    decreases unvisited(plans, old(visited)@),
{
    let ghost seen_before = visited@;
    let ghost order_before = ordered.deep_view();
    let ghost held_before = by_drv.deep_view();
    if !visited.insert(drv.to_owned()) {
        assert(visited@ =~= seen_before);
        return;
    }
    assert(lookup(held_before, drv@) == plan_of(plans, drv@));
    let dependencies = match by_drv.get(drv) {
        Some(plan) => dependency_drvs(plan),
        None => Vec::new(),
    };
    let ghost deps = dependencies.deep_view();
    let ghost entered = visited@;
    proof {
        if plan_of(plans, drv@) is Some {
            lemma_unvisited_decreases(plans, seen_before, drv@);
            assert(deps == targets(plan_of(plans, drv@)->0.dependencies));
        } else {
            assert(deps =~= Seq::empty());
        }
        assert(deps.skip(0) =~= deps);
    }
    for i in 0..dependencies.len()
        invariant
            deps == dependencies.deep_view(),
            deps.len() > 0 ==> unvisited(plans, entered) < unvisited(plans, seen_before),
            entered == seen_before.insert(drv@),
            seen_before == old(visited)@,
            entered.subset_of(visited@),
            visit_each(plans, deps, entered, order_before) == visit_each(
                plans,
                deps.skip(i as int),
                visited@,
                ordered.deep_view(),
            ),
            forall|other: Seq<char>|
                !visited@.contains(other) ==> #[trigger] lookup(by_drv.deep_view(), other)
                    == plan_of(plans, other),
            forall|other: Seq<char>|
                entered.contains(other) ==> #[trigger] lookup(by_drv.deep_view(), other) == lookup(
                    held_before,
                    other,
                ),
    {
        let ghost here = visited@;
        let ghost order_here = ordered.deep_view();
        proof {
            lemma_unvisited_shrinks(plans, entered, here);
            assert(deps.skip(i as int)[0] == dependencies@[i as int]@);
            assert(deps.skip(i as int).drop_first() =~= deps.skip(i + 1));
            lemma_visit_grows(plans, dependencies@[i as int]@, here, order_here);
        }
        visit_derivation(dependencies[i].as_str(), by_drv, visited, ordered, Ghost(plans));
    }
    assert(deps.skip(dependencies.len() as int) =~= Seq::empty());
    let ghost order_after = ordered.deep_view();
    assert(lookup(by_drv.deep_view(), drv@) == plan_of(plans, drv@));
    let ghost held = by_drv.deep_view();
    if let Some(plan) = by_drv.remove(drv) {
        ordered.push(plan);
        assert(ordered.deep_view() =~= order_after.push(plan@));
        assert(by_drv.deep_view() =~= held.remove(drv@));
    } else {
        assert(by_drv.deep_view() =~= held);
    }
    proof {
        let left = by_drv.deep_view();
        assert(entered.contains(drv@));
        assert forall|other: Seq<char>| !visited@.contains(other) implies #[trigger] lookup(
            left,
            other,
        ) == plan_of(plans, other) by {
            assert(lookup(held, other) == plan_of(plans, other));
        }
        assert forall|other: Seq<char>| seen_before.contains(other) implies #[trigger] lookup(
            left,
            other,
        ) == lookup(held_before, other) by {
            assert(entered.contains(other));
            assert(lookup(held, other) == lookup(held_before, other));
        }
    }
}

/// The plans by derivation; of two plans for one derivation the later holds.
fn plans_by_drv(plans: Vec<DerivationPlan>) -> (result: SortedMap<DerivationPlan>)
    ensures
        forall|drv: Seq<char>| #[trigger]
            lookup(result.deep_view(), drv) == plan_of(plans.deep_view(), drv),
{
    let ghost all = plans@;
    let ghost views = plans.deep_view();
    let mut by_drv: SortedMap<DerivationPlan> = SortedMap::new();
    assert(views.take(0) =~= Seq::empty());
    for plan in it: plans
        invariant
            it.seq() == all,
            views.len() == all.len(),
            forall|i: int| 0 <= i < all.len() ==> #[trigger] views[i] == all[i]@,
            forall|drv: Seq<char>| #[trigger]
                lookup(by_drv.deep_view(), drv) == plan_of(views.take(it.index()), drv),
    {
        let ghost at = it.index();
        let ghost before = by_drv.deep_view();
        by_drv.insert(plan.drv.clone(), plan);
        proof {
            assert(views[at] == all[at]@);
            assert(views.take(at + 1).drop_last() =~= views.take(at));
            assert(views.take(at + 1).last() == views[at]);
            assert(by_drv.deep_view() =~= before.insert(views[at].drv, views[at]));
            assert forall|drv: Seq<char>| #[trigger]
                lookup(by_drv.deep_view(), drv) == plan_of(views.take(at + 1), drv) by {
                assert(lookup(before, drv) == plan_of(views.take(at), drv));
            }
        }
    }
    assert(views.take(views.len() as int) =~= views);
    by_drv
}

/// Puts the plans into dependency order, starting from the roots.
pub fn dependency_first(plans: Vec<DerivationPlan>, roots: &[PlanRoot]) -> (result: Vec<
    DerivationPlan,
>)
    ensures
        result.deep_view() == in_dependency_order(plans.deep_view(), roots.deep_view()),
{
    let ghost all = plans.deep_view();
    let ghost start = roots.deep_view().map_values(|root: RootView| root.drv);
    let mut by_drv = plans_by_drv(plans);
    let keys = by_drv.keys();
    proof {
        assert(by_drv.deep_view().dom() =~= planned(all).to_set()) by {
            assert forall|drv: Seq<char>| by_drv.deep_view().dom().contains(drv) == planned(
                all,
            ).to_set().contains(drv) by {
                assert(lookup(by_drv.deep_view(), drv) == plan_of(all, drv));
                lemma_plan_of(all, drv);
            }
        }
        assert(by_drv.deep_view().dom() =~= by_drv@.dom());
    }
    let ghost rest = ascending(planned(all).to_set());
    assert(keys.deep_view() == rest);
    let mut ordered: Vec<DerivationPlan> = Vec::new();
    let mut visited = SortedSet::new();
    assert(ordered.deep_view() =~= Seq::empty());
    assert(start.skip(0) =~= start);
    for i in 0..roots.len()
        invariant
            start == roots.deep_view().map_values(|root: RootView| root.drv),
            visit_each(all, start, Set::empty(), Seq::empty()) == visit_each(
                all,
                start.skip(i as int),
                visited@,
                ordered.deep_view(),
            ),
            forall|other: Seq<char>|
                !visited@.contains(other) ==> #[trigger] lookup(by_drv.deep_view(), other)
                    == plan_of(all, other),
    {
        proof {
            assert(roots.deep_view()[i as int] == roots@[i as int]@);
            assert(start.skip(i as int)[0] == roots@[i as int].drv@);
            assert(start.skip(i as int).drop_first() =~= start.skip(i + 1));
            lemma_visit_grows(all, roots@[i as int].drv@, visited@, ordered.deep_view());
        }
        visit_derivation(
            roots[i].drv.as_str(),
            &mut by_drv,
            &mut visited,
            &mut ordered,
            Ghost(all),
        );
    }
    assert(start.skip(roots.len() as int) =~= Seq::empty());
    let ghost seen = visited@;
    let ghost order = ordered.deep_view();
    assert(rest.skip(0) =~= rest);
    for i in 0..keys.len()
        invariant
            keys.deep_view() == rest,
            visit_each(all, rest, seen, order) == visit_each(
                all,
                rest.skip(i as int),
                visited@,
                ordered.deep_view(),
            ),
            forall|other: Seq<char>|
                !visited@.contains(other) ==> #[trigger] lookup(by_drv.deep_view(), other)
                    == plan_of(all, other),
    {
        proof {
            assert(rest.skip(i as int)[0] == keys@[i as int]@);
            assert(rest.skip(i as int).drop_first() =~= rest.skip(i + 1));
            lemma_visit_grows(all, keys@[i as int]@, visited@, ordered.deep_view());
        }
        visit_derivation(keys[i].as_str(), &mut by_drv, &mut visited, &mut ordered, Ghost(all));
    }
    assert(rest.skip(keys.len() as int) =~= Seq::empty());
    ordered
}

} // verus!
