//! Routes: how each output is realized, and how a derivation is classified.

use vstd::prelude::*;

use crate::planner::plan::{
    ActionView, DerivationClass, HintView, MissRoute, OutputAction, ProbeResult, ProbeView,
    RealizationRoute, RouteHintSpec, RouteView,
};
use crate::policy::{PolicyView, RealizationPolicy};
use crate::sorted::{lookup, SortedMap};
use crate::text;

verus! {

// ---------------------------------------------------------------------------
// Model
// ---------------------------------------------------------------------------

/// The route that a hint gives a derivation which no store has.
pub open spec fn hinted_route(
    hint: HintView,
    system: Seq<char>,
    build_system: Seq<char>,
    policy: PolicyView,
) -> RouteView {
    match hint.on_miss {
        MissRoute::BuildLocal => if system == build_system {
            RouteView::BuildLocal
        } else {
            RouteView::Fail {
                reason: "hint `"@ + hint.label
                    + "` requests build-local but derivation runs on `"@ + system + "`"@,
            }
        },
        MissRoute::RemoteNative => match policy.eligible_builders() {
            Some(builders) => RouteView::RemoteNative { builders },
            None => RouteView::Fail {
                reason: "hint `"@ + hint.label
                    + "` requests remote-native but no eligible builder is declared"@,
            },
        },
        MissRoute::Fail => RouteView::Fail {
            reason: "hint `"@ + hint.label + "` requires substitution"@,
        },
    }
}

/// The route of a known-local derivation, whose outputs are not probed.
pub open spec fn known_local_route(
    hint: Option<HintView>,
    system: Seq<char>,
    build_system: Seq<char>,
    policy: PolicyView,
) -> RouteView {
    match hint {
        Some(hint) => hinted_route(hint, system, build_system, policy),
        None => if system == build_system {
            RouteView::BuildLocal
        } else {
            RouteView::Fail { reason: "known-local derivation not on the build system"@ }
        },
    }
}

/// The route of a derivation without a hint which no store has.
pub open spec fn unhinted_miss_route(
    system: Seq<char>,
    build_system: Seq<char>,
    host_system: Seq<char>,
    policy: PolicyView,
) -> RouteView {
    if system == build_system {
        RouteView::BuildLocal
    } else if system == host_system {
        match policy.eligible_builders() {
            Some(builders) => RouteView::RemoteNative { builders },
            None => RouteView::Fail {
                reason: "host-system miss with no eligible native builder"@,
            },
        }
    } else {
        RouteView::Fail { reason: "system `"@ + system + "` is neither build nor host"@ }
    }
}

/// The route of an output, given how it was probed.
pub open spec fn route_of(
    hint: Option<HintView>,
    probe: ProbeView,
    system: Seq<char>,
    build_system: Seq<char>,
    host_system: Seq<char>,
    policy: PolicyView,
) -> RouteView {
    if system == "builtin"@ {
        RouteView::BuildLocal
    } else {
        match probe {
            ProbeView::Present { substituter } => RouteView::Substitute { substituter },
            ProbeView::LocalPresent => RouteView::AlreadyPresent,
            ProbeView::SkippedKnownLocal => known_local_route(hint, system, build_system, policy),
            ProbeView::Indeterminate { errors } => RouteView::Fail {
                reason: "output probe indeterminate: "@ + text::joined(errors, ", "@),
            },
            ProbeView::Missing => match hint {
                Some(hint) => hinted_route(hint, system, build_system, policy),
                None => unhinted_miss_route(system, build_system, host_system, policy),
            },
        }
    }
}

/// How far a route is from needing no work; the least one stands for a derivation.
pub open spec fn route_rank(route: RouteView) -> nat {
    match route {
        RouteView::Fail { .. } => 0,
        RouteView::RemoteNative { .. } => 1,
        RouteView::BuildLocal => 2,
        RouteView::Substitute { .. } => 3,
        RouteView::AlreadyPresent => 4,
    }
}

/// The first route of least rank among the actions.
pub open spec fn least_route(actions: Seq<ActionView>) -> RouteView
    decreases actions.len(),
{
    if actions.len() <= 1 {
        actions[0].route
    } else {
        let least = least_route(actions.drop_last());
        if route_rank(actions.last().route) < route_rank(least) {
            actions.last().route
        } else {
            least
        }
    }
}

/// The route that stands for all actions of a derivation.
pub open spec fn summary_route(actions: Seq<ActionView>) -> RouteView {
    if actions.len() == 0 {
        RouteView::Fail { reason: "derivation has no output actions"@ }
    } else {
        least_route(actions)
    }
}

/// The class of a derivation with a given route.
pub open spec fn class_of(route: RouteView) -> DerivationClass {
    match route {
        RouteView::Substitute { .. } => DerivationClass::HostSubstituted,
        RouteView::AlreadyPresent => DerivationClass::LocalPresent,
        RouteView::BuildLocal => DerivationClass::BuildLocal,
        RouteView::RemoteNative { .. } => DerivationClass::HostRemote,
        RouteView::Fail { .. } => DerivationClass::Unhandled,
    }
}

// ---------------------------------------------------------------------------
// Laws
// ---------------------------------------------------------------------------

/// A probe that could not be completed always blocks the output: it is never
/// taken for a cache miss, whatever hint or policy is in force.
pub proof fn law_indeterminate_fails_closed(
    hint: Option<HintView>,
    errors: Seq<Seq<char>>,
    system: Seq<char>,
    build_system: Seq<char>,
    host_system: Seq<char>,
    policy: PolicyView,
)
    requires
        system != "builtin"@,
    ensures
        route_of(
            hint,
            ProbeView::Indeterminate { errors },
            system,
            build_system,
            host_system,
            policy,
        ) is Fail,
{
}

/// Work goes to remote builders only under a policy that declares some, and
/// then to exactly those.
pub proof fn law_remote_only_to_declared_builders(
    hint: Option<HintView>,
    probe: ProbeView,
    system: Seq<char>,
    build_system: Seq<char>,
    host_system: Seq<char>,
    policy: PolicyView,
)
    ensures
        route_of(hint, probe, system, build_system, host_system, policy) matches
            RouteView::RemoteNative { builders } ==> builders.len() > 0 && policy
            == (PolicyView::RemoteNative { builders }),
{
}

/// A derivation is built on the build host only if it runs there, or is built
/// into Nix itself.
pub proof fn law_build_local_only_on_build_system(
    hint: Option<HintView>,
    probe: ProbeView,
    system: Seq<char>,
    build_system: Seq<char>,
    host_system: Seq<char>,
    policy: PolicyView,
)
    ensures
        route_of(hint, probe, system, build_system, host_system, policy) is BuildLocal ==> system
            == build_system || system == "builtin"@,
{
}

/// An output is substituted exactly from the store that a probe found it in,
/// and left alone exactly when the local store has it.
pub proof fn law_hits_are_used(
    hint: Option<HintView>,
    probe: ProbeView,
    system: Seq<char>,
    build_system: Seq<char>,
    host_system: Seq<char>,
    policy: PolicyView,
)
    requires
        system != "builtin"@,
    ensures
        route_of(hint, probe, system, build_system, host_system, policy) matches
            RouteView::Substitute { substituter } ==> probe == (ProbeView::Present { substituter }),
        probe matches ProbeView::Present { substituter } ==> route_of(
            hint,
            probe,
            system,
            build_system,
            host_system,
            policy,
        ) == (RouteView::Substitute { substituter }),
        route_of(hint, probe, system, build_system, host_system, policy) is AlreadyPresent
            <==> probe is LocalPresent,
{
}

/// The least route is the route of some action, and no action ranks below it.
pub proof fn lemma_least_route(actions: Seq<ActionView>)
    requires
        actions.len() > 0,
    ensures
        exists|i: int| 0 <= i < actions.len() && #[trigger] actions[i].route == least_route(actions),
        forall|i: int|
            0 <= i < actions.len() ==> route_rank(least_route(actions)) <= route_rank(
                #[trigger] actions[i].route,
            ),
    decreases actions.len(),
{
    if actions.len() == 1 {
        assert(actions[0].route == least_route(actions));
    } else {
        let rest = actions.drop_last();
        lemma_least_route(rest);
        let at = choose|i: int|
            0 <= i < rest.len() && #[trigger] rest[i].route == least_route(rest);
        assert(actions[at].route == least_route(rest));
        assert(actions[actions.len() - 1].route == actions.last().route);
        assert forall|i: int| 0 <= i < actions.len() implies route_rank(least_route(actions))
            <= route_rank(#[trigger] actions[i].route) by {
            if i < rest.len() {
                assert(rest[i].route == actions[i].route);
            }
        }
    }
}

/// A derivation is unhandled exactly when it has no action, or when one of its
/// actions fails.
pub proof fn law_summary_fails_closed(actions: Seq<ActionView>)
    ensures
        summary_route(actions) is Fail <==> actions.len() == 0 || exists|i: int|
            0 <= i < actions.len() && #[trigger] actions[i].route is Fail,
        class_of(summary_route(actions)) == DerivationClass::Unhandled <==> summary_route(
            actions,
        ) is Fail,
{
    if actions.len() > 0 {
        lemma_least_route(actions);
        if exists|i: int| 0 <= i < actions.len() && #[trigger] actions[i].route is Fail {
            let i = choose|i: int| 0 <= i < actions.len() && #[trigger] actions[i].route is Fail;
            assert(route_rank(least_route(actions)) <= route_rank(actions[i].route));
        }
    }
}

/// What is built into Nix is built locally, wherever it was found.
pub proof fn law_builtin_derivations_are_built_locally(
    hint: Option<HintView>,
    probe: ProbeView,
    build_system: Seq<char>,
    host_system: Seq<char>,
    policy: PolicyView,
)
    ensures
        route_of(hint, probe, "builtin"@, build_system, host_system, policy)
            == RouteView::BuildLocal,
{
}

/// A miss without a hint goes where its system says. On the build system it is
/// built locally. On the host system it goes to the declared builders, all of
/// them, and is blocked if and only if none is declared. On any other system it
/// is blocked.
pub proof fn law_unhinted_misses_go_to_their_system(
    system: Seq<char>,
    build_system: Seq<char>,
    host_system: Seq<char>,
    builders: Seq<Seq<char>>,
)
    requires
        system != "builtin"@,
    ensures
        forall|policy: PolicyView|
            system == build_system ==> #[trigger] route_of(
                None,
                ProbeView::Missing,
                system,
                build_system,
                host_system,
                policy,
            ) == RouteView::BuildLocal,
        system != build_system && system == host_system && builders.len() > 0 ==> route_of(
            None,
            ProbeView::Missing,
            system,
            build_system,
            host_system,
            PolicyView::RemoteNative { builders },
        ) == (RouteView::RemoteNative { builders }),
        system != build_system && system == host_system ==> {
            let blocked = RouteView::Fail {
                reason: "host-system miss with no eligible native builder"@,
            };
            &&& builders.len() == 0 ==> route_of(
                None,
                ProbeView::Missing,
                system,
                build_system,
                host_system,
                PolicyView::RemoteNative { builders },
            ) == blocked
            &&& route_of(
                None,
                ProbeView::Missing,
                system,
                build_system,
                host_system,
                PolicyView::SubstituteOnly,
            ) == blocked
        },
        forall|policy: PolicyView|
            system != build_system && system != host_system ==> #[trigger] route_of(
                None,
                ProbeView::Missing,
                system,
                build_system,
                host_system,
                policy,
            ) == (RouteView::Fail {
                reason: "system `"@ + system + "` is neither build nor host"@,
            }),
{
}

/// A hint decides what becomes of a miss, whether the outputs were looked for or
/// not. One that asks for a local build is followed on the build system, one
/// that asks for a builder if any is declared, and one that asks for a
/// substitute never; otherwise the output is blocked, and the reason names the
/// hint.
pub proof fn law_hints_decide_misses(
    hint: HintView,
    probe: ProbeView,
    system: Seq<char>,
    build_system: Seq<char>,
    host_system: Seq<char>,
    policy: PolicyView,
)
    requires
        system != "builtin"@,
        probe is Missing || probe is SkippedKnownLocal,
    ensures
        ({
            let route = route_of(Some(hint), probe, system, build_system, host_system, policy);
            match hint.on_miss {
                MissRoute::BuildLocal => {
                    &&& system == build_system ==> route == RouteView::BuildLocal
                    &&& system != build_system ==> route == (RouteView::Fail {
                        reason: "hint `"@ + hint.label
                            + "` requests build-local but derivation runs on `"@ + system + "`"@,
                    })
                },
                MissRoute::RemoteNative => match policy {
                    PolicyView::RemoteNative { builders } if builders.len() > 0 => route == (
                    RouteView::RemoteNative { builders }),
                    _ => route == (RouteView::Fail {
                        reason: "hint `"@ + hint.label
                            + "` requests remote-native but no eligible builder is declared"@,
                    }),
                },
                MissRoute::Fail => route == (RouteView::Fail {
                    reason: "hint `"@ + hint.label + "` requires substitution"@,
                }),
            }
        }),
{
}

/// What is known to be local and has no hint is built on the build system, and
/// blocked on any other.
pub proof fn law_known_local_derivations_stay_on_the_build_system(
    system: Seq<char>,
    build_system: Seq<char>,
    host_system: Seq<char>,
    policy: PolicyView,
)
    requires
        system != "builtin"@,
    ensures
        route_of(
            None,
            ProbeView::SkippedKnownLocal,
            system,
            build_system,
            host_system,
            policy,
        ) == if system == build_system {
            RouteView::BuildLocal
        } else {
            RouteView::Fail { reason: "known-local derivation not on the build system"@ }
        },
{
}

/// A blocked output of an incomplete probe names every store that did not
/// answer.
pub proof fn law_incomplete_probes_name_their_stores(
    hint: Option<HintView>,
    errors: Seq<Seq<char>>,
    system: Seq<char>,
    build_system: Seq<char>,
    host_system: Seq<char>,
    policy: PolicyView,
)
    requires
        system != "builtin"@,
    ensures
        route_of(
            hint,
            ProbeView::Indeterminate { errors },
            system,
            build_system,
            host_system,
            policy,
        ) == (RouteView::Fail {
            reason: "output probe indeterminate: "@ + text::joined(errors, ", "@),
        }),
{
}

/// The route of a derivation is that of its hardest output, the first one of
/// several: a blocked one before one that needs a builder, that before a local
/// build, that before a substitute, and that before one that is already there.
pub proof fn law_the_hardest_output_decides(actions: Seq<ActionView>) -> (at: int)
    requires
        actions.len() > 0,
    ensures
        0 <= at < actions.len(),
        summary_route(actions) == actions[at].route,
        forall|i: int|
            0 <= i < actions.len() && #[trigger] actions[i].route is Fail
                ==> actions[at].route is Fail && at <= i,
        forall|i: int|
            0 <= i < actions.len() && #[trigger] actions[i].route is RemoteNative
                ==> actions[at].route is Fail || (actions[at].route is RemoteNative && at <= i),
        forall|i: int|
            0 <= i < actions.len() && #[trigger] actions[i].route is BuildLocal
                ==> actions[at].route is Fail || actions[at].route is RemoteNative || (
            actions[at].route is BuildLocal && at <= i),
        forall|i: int|
            0 <= i < actions.len() && #[trigger] actions[i].route is Substitute ==> !(
            actions[at].route is AlreadyPresent) && (actions[at].route is Substitute ==> at <= i),
        forall|i: int|
            0 <= i < actions.len() && #[trigger] actions[i].route is AlreadyPresent
                && actions[at].route is AlreadyPresent ==> at <= i,
    decreases actions.len(),
{
    if actions.len() == 1 {
        0
    } else {
        let rest = actions.drop_last();
        let at = law_the_hardest_output_decides(rest);
        let last = actions.len() - 1;
        assert(rest[at] == actions[at]);
        assert(actions.last() == actions[last]);
        assert forall|i: int| 0 <= i < rest.len() implies #[trigger] actions[i] == rest[i] by {
        }
        if route_rank(actions[last].route) < route_rank(actions[at].route) {
            last
        } else {
            at
        }
    }
}

/// The class of a derivation names its route.
pub proof fn law_classes_name_routes(route: RouteView)
    ensures
        class_of(route) == DerivationClass::HostSubstituted <==> route is Substitute,
        class_of(route) == DerivationClass::LocalPresent <==> route is AlreadyPresent,
        class_of(route) == DerivationClass::BuildLocal <==> route is BuildLocal,
        class_of(route) == DerivationClass::HostRemote <==> route is RemoteNative,
        class_of(route) == DerivationClass::Unhandled <==> route is Fail,
        summary_route(Seq::empty()) is Fail,
{
}

// ---------------------------------------------------------------------------
// Operations
// ---------------------------------------------------------------------------

/// Chooses the realization route for one frontier derivation.
pub fn select_route(
    key: &str,
    probe: &ProbeResult,
    hints: &[RouteHintSpec],
    hint_drvs: &SortedMap<RouteHintSpec>,
    system: &str,
    build_system: &str,
    host_system: &str,
    policy: &RealizationPolicy,
) -> (result: RealizationRoute)
    ensures
        result@ == route_of(
            lookup(hint_drvs.deep_view(), key@),
            probe@,
            system@,
            build_system@,
            host_system@,
            policy@,
        ),
{
    let hint = hint_drvs.get(key);
    if text::same(system, "builtin") {
        return RealizationRoute::BuildLocal;
    }
    match probe {
        ProbeResult::Present { substituter } => RealizationRoute::Substitute {
            substituter: substituter.clone(),
        },
        ProbeResult::LocalPresent => RealizationRoute::AlreadyPresent,
        ProbeResult::SkippedKnownLocal => route_for_miss(hint, system, build_system, policy),
        ProbeResult::Indeterminate { errors } => RealizationRoute::Fail {
            reason: "output probe indeterminate: ".to_owned().concat(
                text::join(errors.as_slice(), ", ").as_str(),
            ),
        },
        ProbeResult::Missing => {
            if let Some(hint) = hint {
                return route_for_hint(hint, hints, system, build_system, policy);
            }
            if text::same(system, build_system) {
                return RealizationRoute::BuildLocal;
            }
            if text::same(system, host_system) {
                return match policy.eligible_builders() {
                    Some(builders) => {
                        let copy = text::copy_list(builders.as_slice());
                        RealizationRoute::RemoteNative { builders: copy }
                    },
                    None => RealizationRoute::Fail {
                        reason: "host-system miss with no eligible native builder".to_owned(),
                    },
                };
            }
            RealizationRoute::Fail {
                reason: "system `".to_owned().concat(system).concat("` is neither build nor host"),
            }
        },
    }
}

/// Applies a hint to a derivation that no store has. The other hints of the
/// plan have no say in it.
pub fn route_for_hint(
    hint: &RouteHintSpec,
    _hints: &[RouteHintSpec],
    system: &str,
    build_system: &str,
    policy: &RealizationPolicy,
) -> (result: RealizationRoute)
    ensures
        result@ == hinted_route(hint@, system@, build_system@, policy@),
{
    match hint.on_miss {
        MissRoute::BuildLocal => {
            if text::same(system, build_system) {
                RealizationRoute::BuildLocal
            } else {
                RealizationRoute::Fail {
                    reason: "hint `".to_owned().concat(hint.label.as_str()).concat(
                        "` requests build-local but derivation runs on `",
                    ).concat(system).concat("`"),
                }
            }
        },
        MissRoute::RemoteNative => match policy.eligible_builders() {
            Some(builders) => {
                let copy = text::copy_list(builders.as_slice());
                RealizationRoute::RemoteNative { builders: copy }
            },
            None => RealizationRoute::Fail {
                reason: "hint `".to_owned().concat(hint.label.as_str()).concat(
                    "` requests remote-native but no eligible builder is declared",
                ),
            },
        },
        MissRoute::Fail => RealizationRoute::Fail {
            reason: "hint `".to_owned().concat(hint.label.as_str()).concat(
                "` requires substitution",
            ),
        },
    }
}

/// Applies the known-local (skip-probe) `on_miss` without probing.
pub fn route_for_miss(
    hint: Option<&RouteHintSpec>,
    system: &str,
    build_system: &str,
    policy: &RealizationPolicy,
) -> (result: RealizationRoute)
    ensures
        result@ == known_local_route(hint.deep_view(), system@, build_system@, policy@),
{
    match hint {
        Some(hint) => route_for_hint(hint, &[], system, build_system, policy),
        None => {
            if text::same(system, build_system) {
                RealizationRoute::BuildLocal
            } else {
                RealizationRoute::Fail {
                    reason: "known-local derivation not on the build system".to_owned(),
                }
            }
        },
    }
}

/// Maps a realization route back to the class used by existing gates.
pub fn route_class(route: &RealizationRoute) -> (result: DerivationClass)
    ensures
        result == class_of(route@),
{
    match route {
        RealizationRoute::Substitute { .. } => DerivationClass::HostSubstituted,
        RealizationRoute::AlreadyPresent => DerivationClass::LocalPresent,
        RealizationRoute::BuildLocal => DerivationClass::BuildLocal,
        RealizationRoute::RemoteNative { .. } => DerivationClass::HostRemote,
        RealizationRoute::Fail { .. } => DerivationClass::Unhandled,
    }
}

fn rank_of(route: &RealizationRoute) -> (result: u8)
    ensures
        result == route_rank(route@),
{
    match route {
        RealizationRoute::Fail { .. } => 0,
        RealizationRoute::RemoteNative { .. } => 1,
        RealizationRoute::BuildLocal => 2,
        RealizationRoute::Substitute { .. } => 3,
        RealizationRoute::AlreadyPresent => 4,
    }
}

/// The route that stands for all actions of a derivation.
pub fn summarize_routes(actions: &[OutputAction]) -> (result: RealizationRoute)
    ensures
        result@ == summary_route(actions.deep_view()),
{
    if actions.len() == 0 {
        return RealizationRoute::Fail { reason: "derivation has no output actions".to_owned() };
    }
    let ghost all = actions.deep_view();
    let mut least: usize = 0;
    let mut i: usize = 1;
    assert(all.take(1).len() == 1);
    while i < actions.len()
        invariant
            all == actions.deep_view(),
            1 <= i <= actions.len(),
            least < actions.len(),
            actions@[least as int].route@ == least_route(all.take(i as int)),
        decreases actions.len() - i,
    {
        assert(all[i as int] == actions@[i as int]@);
        assert(all.take(i + 1).drop_last() =~= all.take(i as int));
        assert(all.take(i + 1).last() == all[i as int]);
        if rank_of(&actions[i].route) < rank_of(&actions[least].route) {
            least = i;
        }
        i += 1;
    }
    assert(all.take(actions.len() as int) =~= all);
    actions[least].route.clone()
}

/// A derivation of which no output is wanted is blocked, and says so.
pub proof fn law_no_output_is_no_route()
    ensures
        summary_route(Seq::empty()) == (RouteView::Fail {
            reason: "derivation has no output actions"@,
        }),
{
}

} // verus!
