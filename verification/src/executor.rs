//! Execution of closure plans, and executor descriptors for package checks.

use vstd::prelude::*;

use crate::calls::{calls_since, commands_gave, Calls};
use crate::command::{carried_out, run_all, CommandLine, CommandRunner, CommandView};
use crate::error::{outcome, Error, ErrorView, Result};
use crate::planner::identity::plan_id_of;
use crate::planner::plan::{
    ActionView, ClosurePlan, DerivationPlan, DerivationView, OutputAction, PlanView,
    RealizationRoute, RouteView, PLAN_SCHEMA_VERSION,
};
use crate::policy::job_flags;
use crate::text;

verus! {

// ---------------------------------------------------------------------------
// What a plan is executed by
// ---------------------------------------------------------------------------

/// The arguments of `nix` that build one output without replanning it: nothing
/// is substituted, nothing falls back, and only the given builders are used.
pub open spec fn build_output_args(
    drv: Seq<char>,
    output: Seq<char>,
    builders: Seq<Seq<char>>,
    max_jobs: Option<u32>,
    remote_only: bool,
) -> Seq<Seq<char>> {
    seq![
        "build"@,
        "--no-link"@,
        drv + "^"@ + output,
        "--builders"@,
        text::joined(builders, "\n"@),
        "--option"@,
        "substitute"@,
        "false"@,
        "--option"@,
        "fallback"@,
        "false"@,
        "--option"@,
        "extra-platforms"@,
        Seq::empty(),
    ] + if remote_only {
        seq!["--max-jobs"@, "0"@]
    } else {
        job_flags(max_jobs)
    }
}

/// The command that runs `nix`.
pub open spec fn nix(args: Seq<Seq<char>>) -> CommandView {
    CommandView { program: "nix"@, args }
}

/// The command that asks the local daemon for a path.
pub open spec fn validation(path: Seq<char>) -> CommandView {
    nix(seq!["path-info"@, "--store"@, "daemon"@, path])
}

/// The commands that realize one output.
pub open spec fn realization(
    drv: Seq<char>,
    action: ActionView,
    max_jobs: Option<u32>,
) -> Seq<CommandView> {
    match action.route {
        RouteView::Substitute { substituter } => seq![
            nix(seq!["copy"@, "--from"@, substituter, action.path]),
        ],
        RouteView::AlreadyPresent => Seq::empty(),
        RouteView::BuildLocal => seq![
            nix(build_output_args(drv, action.output, Seq::empty(), max_jobs, false)),
        ],
        RouteView::RemoteNative { builders } => seq![
            nix(build_output_args(drv, action.output, builders, max_jobs, true)),
        ],
        RouteView::Fail { .. } => Seq::empty(),
    }
}

/// The commands for one output: it is realized, then validated.
pub open spec fn action_commands(
    drv: Seq<char>,
    action: ActionView,
    max_jobs: Option<u32>,
) -> Seq<CommandView> {
    realization(drv, action, max_jobs).push(validation(action.path))
}

/// The commands for the outputs of one derivation, in order.
pub open spec fn actions_commands(
    drv: Seq<char>,
    actions: Seq<ActionView>,
    max_jobs: Option<u32>,
) -> Seq<CommandView>
    decreases actions.len(),
{
    if actions.len() == 0 {
        Seq::empty()
    } else {
        actions_commands(drv, actions.drop_last(), max_jobs) + action_commands(
            drv,
            actions.last(),
            max_jobs,
        )
    }
}

/// The commands for derivations, in order.
pub open spec fn derivations_commands(
    derivations: Seq<DerivationView>,
    max_jobs: Option<u32>,
) -> Seq<CommandView>
    decreases derivations.len(),
{
    if derivations.len() == 0 {
        Seq::empty()
    } else {
        derivations_commands(derivations.drop_last(), max_jobs) + actions_commands(
            derivations.last().drv,
            derivations.last().actions,
            max_jobs,
        )
    }
}

/// The first of some outputs that the plan refuses to realize, and why.
pub open spec fn blocked_action(actions: Seq<ActionView>) -> Option<(Seq<char>, Seq<char>)>
    decreases actions.len(),
{
    if actions.len() == 0 {
        None
    } else {
        match actions[0].route {
            RouteView::Fail { reason } => Some((actions[0].path, reason)),
            _ => blocked_action(actions.drop_first()),
        }
    }
}

/// The first output of some derivations that the plan refuses to realize, and
/// why.
pub open spec fn blocked_output(derivations: Seq<DerivationView>) -> Option<(Seq<char>, Seq<char>)>
    decreases derivations.len(),
{
    if derivations.len() == 0 {
        None
    } else {
        match blocked_action(derivations[0].actions) {
            Some(blocked) => Some(blocked),
            None => blocked_output(derivations.drop_first()),
        }
    }
}

/// Why a plan is not executed.
pub open spec fn refusal(plan: PlanView) -> Option<ErrorView> {
    if plan.schema_version != PLAN_SCHEMA_VERSION {
        Some(ErrorView::UnsupportedPlanSchema { version: plan.schema_version })
    } else if plan.plan_id != plan_id_of(plan) {
        Some(ErrorView::PlanIdMismatch { expected: plan.plan_id, actual: plan_id_of(plan) })
    } else {
        match blocked_output(plan.derivations) {
            Some((path, reason)) => Some(ErrorView::PlanBlocked { path, reason }),
            None => None,
        }
    }
}

/// The commands that execute a plan, in order.
pub open spec fn planned_commands(
    plan: PlanView,
    max_jobs: Option<u32>,
) -> std::result::Result<Seq<CommandView>, ErrorView> {
    match refusal(plan) {
        Some(error) => Err(error),
        None => Ok(derivations_commands(plan.derivations, max_jobs)),
    }
}

// ---------------------------------------------------------------------------
// Laws
// ---------------------------------------------------------------------------

/// The plan refuses to realize some output.
pub open spec fn is_blocked(plan: PlanView) -> bool {
    exists|i: int, j: int|
        0 <= i < plan.derivations.len() && 0 <= j < plan.derivations[i].actions.len()
            && #[trigger] plan.derivations[i].actions[j].route is Fail
}

proof fn lemma_blocked_action(actions: Seq<ActionView>)
    ensures
        blocked_action(actions) is None <==> forall|j: int|
            0 <= j < actions.len() ==> !(#[trigger] actions[j].route is Fail),
    decreases actions.len(),
{
    if actions.len() > 0 {
        let rest = actions.drop_first();
        lemma_blocked_action(rest);
        if blocked_action(actions) is None {
            assert forall|j: int| 0 <= j < actions.len() implies !(#[trigger] actions[
                j
            ].route is Fail) by {
                if j > 0 {
                    assert(rest[j - 1] == actions[j]);
                }
            }
        } else if !(actions[0].route is Fail) {
            let j = choose|j: int| 0 <= j < rest.len() && #[trigger] rest[j].route is Fail;
            assert(actions[j + 1].route is Fail);
        }
    }
}

proof fn lemma_blocked_output(derivations: Seq<DerivationView>)
    ensures
        blocked_output(derivations) is None <==> forall|i: int|
            0 <= i < derivations.len() ==> blocked_action(
                (#[trigger] derivations[i]).actions,
            ) is None,
    decreases derivations.len(),
{
    if derivations.len() > 0 {
        let rest = derivations.drop_first();
        lemma_blocked_output(rest);
        if blocked_output(derivations) is None {
            assert forall|i: int| 0 <= i < derivations.len() implies blocked_action(
                (#[trigger] derivations[i]).actions,
            ) is None by {
                if i > 0 {
                    assert(rest[i - 1] == derivations[i]);
                }
            }
        } else if blocked_action(derivations[0].actions) is None {
            let i = choose|i: int|
                0 <= i < rest.len() && !(blocked_action((#[trigger] rest[i]).actions) is None);
            assert(derivations[i + 1] == rest[i]);
        }
    }
}

/// A plan is executed exactly when it has the known schema, holds the
/// identifier of its own content, and blocks no output. In every other case
/// there are no commands to run.
pub proof fn law_only_intact_plans_are_executed(plan: PlanView, max_jobs: Option<u32>)
    ensures
        planned_commands(plan, max_jobs) is Ok <==> plan.schema_version == PLAN_SCHEMA_VERSION
            && plan.plan_id == plan_id_of(plan) && !is_blocked(plan),
{
    lemma_blocked_output(plan.derivations);
    assert forall|i: int| 0 <= i < plan.derivations.len() implies (blocked_action(
        (#[trigger] plan.derivations[i]).actions,
    ) is None <==> forall|j: int|
        0 <= j < plan.derivations[i].actions.len() ==> !(#[trigger] plan.derivations[i].actions[
            j
        ].route is Fail)) by {
        lemma_blocked_action(plan.derivations[i].actions);
    }
    if blocked_output(plan.derivations) is None {
        assert(!is_blocked(plan));
    } else {
        let i = choose|i: int|
            0 <= i < plan.derivations.len() && !(blocked_action(
                (#[trigger] plan.derivations[i]).actions,
            ) is None);
        lemma_blocked_action(plan.derivations[i].actions);
        let j = choose|j: int|
            0 <= j < plan.derivations[i].actions.len() && #[trigger] plan.derivations[i].actions[
                j
            ].route is Fail;
        assert(plan.derivations[i].actions[j].route is Fail);
        assert(is_blocked(plan));
    }
}

/// `block` stands in `commands` from `at` on.
pub open spec fn stands_at(
    commands: Seq<CommandView>,
    block: Seq<CommandView>,
    at: int,
) -> bool {
    0 <= at && at + block.len() <= commands.len() && commands.subrange(at, at + block.len())
        == block
}

proof fn lemma_action_stands(
    drv: Seq<char>,
    actions: Seq<ActionView>,
    max_jobs: Option<u32>,
    j: int,
) -> (at: int)
    requires
        0 <= j < actions.len(),
    ensures
        stands_at(
            actions_commands(drv, actions, max_jobs),
            action_commands(drv, actions[j], max_jobs),
            at,
        ),
    decreases actions.len(),
{
    let all = actions_commands(drv, actions, max_jobs);
    let earlier = actions_commands(drv, actions.drop_last(), max_jobs);
    let block = action_commands(drv, actions[j], max_jobs);
    if j == actions.len() - 1 {
        assert(all.subrange(earlier.len() as int, all.len() as int) =~= block);
        earlier.len() as int
    } else {
        let at = lemma_action_stands(drv, actions.drop_last(), max_jobs, j);
        assert(all.subrange(at, at + block.len()) =~= earlier.subrange(at, at + block.len()));
        at
    }
}

/// When a plan is executed, each of its outputs is realized along its recorded
/// route, and validated right after that.
pub proof fn law_every_output_is_realized_and_validated(
    plan: PlanView,
    max_jobs: Option<u32>,
    i: int,
    j: int,
) -> (at: int)
    requires
        planned_commands(plan, max_jobs) is Ok,
        0 <= i < plan.derivations.len(),
        0 <= j < plan.derivations[i].actions.len(),
    ensures
        stands_at(
            planned_commands(plan, max_jobs)->Ok_0,
            action_commands(plan.derivations[i].drv, plan.derivations[i].actions[j], max_jobs),
            at,
        ),
{
    lemma_derivation_action_stands(plan.derivations, max_jobs, i, j)
}

proof fn lemma_derivation_action_stands(
    derivations: Seq<DerivationView>,
    max_jobs: Option<u32>,
    i: int,
    j: int,
) -> (at: int)
    requires
        0 <= i < derivations.len(),
        0 <= j < derivations[i].actions.len(),
    ensures
        stands_at(
            derivations_commands(derivations, max_jobs),
            action_commands(derivations[i].drv, derivations[i].actions[j], max_jobs),
            at,
        ),
    decreases derivations.len(),
{
    let all = derivations_commands(derivations, max_jobs);
    let earlier = derivations_commands(derivations.drop_last(), max_jobs);
    let block = action_commands(derivations[i].drv, derivations[i].actions[j], max_jobs);
    if i == derivations.len() - 1 {
        let own = actions_commands(derivations[i].drv, derivations[i].actions, max_jobs);
        let at = lemma_action_stands(derivations[i].drv, derivations[i].actions, max_jobs, j);
        let place = earlier.len() + at;
        assert(all.subrange(place, place + block.len()) =~= own.subrange(at, at + block.len()));
        place
    } else {
        let at = lemma_derivation_action_stands(derivations.drop_last(), max_jobs, i, j);
        assert(all.subrange(at, at + block.len()) =~= earlier.subrange(at, at + block.len()));
        at
    }
}

/// The commands of derivations that come first in a plan come first: executing
/// a longer plan begins with the commands of the shorter one.
pub proof fn law_commands_follow_the_recorded_order(
    derivations: Seq<DerivationView>,
    max_jobs: Option<u32>,
    count: int,
)
    requires
        0 <= count <= derivations.len(),
    ensures
        derivations_commands(derivations.take(count), max_jobs).is_prefix_of(
            derivations_commands(derivations, max_jobs),
        ),
    decreases derivations.len(),
{
    if count == derivations.len() {
        assert(derivations.take(count) =~= derivations);
    } else {
        let rest = derivations.drop_last();
        law_commands_follow_the_recorded_order(rest, max_jobs, count);
        assert(rest.take(count) =~= derivations.take(count));
        assert(derivations_commands(rest, max_jobs).is_prefix_of(
            derivations_commands(derivations, max_jobs),
        ));
    }
}

/// How many commands come of some outputs: one that asks for the path, and, but
/// for an output that is already there, one that realizes it before that.
pub open spec fn command_count(actions: Seq<ActionView>) -> int
    decreases actions.len(),
{
    if actions.len() == 0 {
        0
    } else {
        command_count(actions.drop_last()) + if actions.last().route is AlreadyPresent
            || actions.last().route is Fail {
            1int
        } else {
            2int
        }
    }
}

/// How many commands come of some derivations.
pub open spec fn total_count(derivations: Seq<DerivationView>) -> int
    decreases derivations.len(),
{
    if derivations.len() == 0 {
        0
    } else {
        total_count(derivations.drop_last()) + command_count(derivations.last().actions)
    }
}

proof fn lemma_action_place(
    drv: Seq<char>,
    actions: Seq<ActionView>,
    max_jobs: Option<u32>,
    j: int,
)
    requires
        0 <= j <= actions.len(),
    ensures
        actions_commands(drv, actions, max_jobs).len() == command_count(actions),
        command_count(actions.take(j)) <= command_count(actions),
        j < actions.len() ==> stands_at(
            actions_commands(drv, actions, max_jobs),
            action_commands(drv, actions[j], max_jobs),
            command_count(actions.take(j)),
        ),
    decreases actions.len(),
{
    assert(actions.take(actions.len() as int) =~= actions);
    if actions.len() > 0 {
        let rest = actions.drop_last();
        let all = actions_commands(drv, actions, max_jobs);
        let earlier = actions_commands(drv, rest, max_jobs);
        if j < actions.len() {
            lemma_action_place(drv, rest, max_jobs, j);
            let block = action_commands(drv, actions[j], max_jobs);
            let at = command_count(actions.take(j));
            assert(rest.take(j) =~= actions.take(j));
            if j == actions.len() - 1 {
                assert(rest.take(j) =~= rest);
                assert(all.subrange(at, at + block.len()) =~= block);
            } else {
                assert(rest[j] == actions[j]);
                assert(all.subrange(at, at + block.len()) =~= earlier.subrange(
                    at,
                    at + block.len(),
                ));
            }
        } else {
            lemma_action_place(drv, rest, max_jobs, 0);
        }
    }
}

proof fn lemma_derivation_place(
    derivations: Seq<DerivationView>,
    max_jobs: Option<u32>,
    i: int,
    j: int,
)
    requires
        0 <= i <= derivations.len(),
        i < derivations.len() ==> 0 <= j < derivations[i].actions.len(),
    ensures
        derivations_commands(derivations, max_jobs).len() == total_count(derivations),
        i < derivations.len() ==> stands_at(
            derivations_commands(derivations, max_jobs),
            action_commands(derivations[i].drv, derivations[i].actions[j], max_jobs),
            total_count(derivations.take(i)) + command_count(derivations[i].actions.take(j)),
        ),
    decreases derivations.len(),
{
    if derivations.len() > 0 {
        let rest = derivations.drop_last();
        let last = derivations.last();
        let all = derivations_commands(derivations, max_jobs);
        let earlier = derivations_commands(rest, max_jobs);
        let own = actions_commands(last.drv, last.actions, max_jobs);
        lemma_action_place(last.drv, last.actions, max_jobs, 0);
        if i < derivations.len() - 1 {
            lemma_derivation_place(rest, max_jobs, i, j);
            assert(rest[i] == derivations[i]);
            assert(rest.take(i) =~= derivations.take(i));
            let block = action_commands(derivations[i].drv, derivations[i].actions[j], max_jobs);
            let at = total_count(derivations.take(i)) + command_count(
                derivations[i].actions.take(j),
            );
            assert(all.subrange(at, at + block.len()) =~= earlier.subrange(at, at + block.len()));
        } else {
            lemma_derivation_place(rest, max_jobs, rest.len() as int, 0);
            if i == derivations.len() - 1 {
                lemma_action_place(last.drv, last.actions, max_jobs, j);
                assert(derivations.take(i) =~= rest);
                let block = action_commands(last.drv, last.actions[j], max_jobs);
                let at = command_count(last.actions.take(j));
                let place = earlier.len() + at;
                assert(all.subrange(place, place + block.len()) =~= own.subrange(
                    at,
                    at + block.len(),
                ));
            }
        }
    }
}

/// The arguments that build an output of a derivation on some builders: that
/// output alone, with nothing substituted, no fallback and no emulation.
pub open spec fn builds_on(
    args: Seq<Seq<char>>,
    drv: Seq<char>,
    output: Seq<char>,
    builders: Seq<char>,
) -> bool {
    &&& args.len() >= 14
    &&& args.take(3) == seq!["build"@, "--no-link"@, drv.push('^') + output]
    &&& args.subrange(3, 5) == seq!["--builders"@, builders]
    &&& args.subrange(5, 8) == seq!["--option"@, "substitute"@, "false"@]
    &&& args.subrange(8, 11) == seq!["--option"@, "fallback"@, "false"@]
    &&& args.subrange(11, 14) == seq!["--option"@, "extra-platforms"@, Seq::<char>::empty()]
}

/// Each output of a plan is realized along its recorded route, and then the
/// daemon is asked for its path; the commands of the outputs before it come
/// first, and there are no others. A substitute is copied from its store. What
/// goes to builders is built on exactly those, never on this host. What is built
/// here is offered to no builder, and kept under the cap. What is already there
/// is only asked for.
pub proof fn law_outputs_are_realized_as_recorded(
    plan: PlanView,
    max_jobs: Option<u32>,
    i: int,
    j: int,
)
    requires
        planned_commands(plan, max_jobs) is Ok,
        0 <= i < plan.derivations.len(),
        0 <= j < plan.derivations[i].actions.len(),
    ensures
        ({
            let commands = planned_commands(plan, max_jobs)->Ok_0;
            let drv = plan.derivations[i].drv;
            let action = plan.derivations[i].actions[j];
            let at = total_count(plan.derivations.take(i)) + command_count(
                plan.derivations[i].actions.take(j),
            );
            let asked = CommandView {
                program: "nix"@,
                args: seq!["path-info"@, "--store"@, "daemon"@, action.path],
            };
            &&& commands.len() == total_count(plan.derivations)
            &&& at < commands.len()
            &&& action.route is AlreadyPresent ==> commands[at] == asked
            &&& !(action.route is AlreadyPresent) ==> at + 1 < commands.len() && commands[at + 1]
                == asked && commands[at].program == "nix"@
            &&& action.route matches RouteView::Substitute { substituter } ==> commands[at].args
                == seq!["copy"@, "--from"@, substituter, action.path]
            &&& action.route is BuildLocal ==> {
                let args = commands[at].args;
                &&& builds_on(args, drv, action.output, Seq::empty())
                &&& match max_jobs {
                    None => args.len() == 14,
                    Some(jobs) => args.len() == 16 && args[14] == "--max-jobs"@ && text::u32_value(
                        args[15],
                    ) == Some(jobs) && args[15][0] != '+',
                }
            }
            &&& action.route matches RouteView::RemoteNative { builders } ==> {
                let args = commands[at].args;
                &&& builds_on(args, drv, action.output, args[4])
                &&& args.skip(14) == seq!["--max-jobs"@, seq!['0']]
                &&& builders.len() == 0 ==> args[4] == Seq::<char>::empty()
                &&& builders.len() == 1 ==> args[4] == builders[0]
                &&& builders.len() > 0 && (forall|k: int|
                    0 <= k < builders.len() ==> !(#[trigger] builders[k]).contains('\n'))
                    ==> text::pieces(args[4], '\n') == builders
            }
            &&& !(action.route is Fail)
        }),
{
    law_only_intact_plans_are_executed(plan, max_jobs);
    lemma_derivation_place(plan.derivations, max_jobs, i, j);
    let commands = planned_commands(plan, max_jobs)->Ok_0;
    let drv = plan.derivations[i].drv;
    let action = plan.derivations[i].actions[j];
    let at = total_count(plan.derivations.take(i)) + command_count(
        plan.derivations[i].actions.take(j),
    );
    let block = action_commands(drv, action, max_jobs);
    assert forall|k: int| 0 <= k < block.len() implies #[trigger] commands[at + k] == block[k] by {
        assert(commands.subrange(at, at + block.len())[k] == block[k]);
    }
    assert(commands[at + 0] == block[0]);
    if block.len() == 2 {
        assert(commands[at + 1] == block[1]);
    }
    assert(drv + "^"@ + action.output =~= drv.push('^') + action.output) by {
        reveal_strlit("^");
    }
    let args = commands[at].args;
    match action.route {
        RouteView::BuildLocal => {
            lemma_build_output_args(drv, action.output, Seq::empty(), max_jobs, false);
            if let Some(jobs) = max_jobs {
                text::law_decimal_reads_back(jobs);
                text::lemma_decimal_digits(jobs as nat);
                assert('0' <= text::decimal(jobs as nat)[0] <= '9');
            }
        },
        RouteView::RemoteNative { builders } => {
            lemma_build_output_args(drv, action.output, builders, max_jobs, true);
            reveal_strlit("\n");
            reveal_strlit("0");
            assert("0"@ =~= seq!['0']);
            assert("\n"@ =~= seq!['\n']);
            assert(args.skip(14) =~= seq!["--max-jobs"@, seq!['0']]);
            if builders.len() > 0 && (forall|k: int|
                0 <= k < builders.len() ==> !(#[trigger] builders[k]).contains('\n')) {
                text::law_joined_parts_split_back(builders, '\n');
            }
        },
        _ => {},
    }
}

proof fn lemma_build_output_args(
    drv: Seq<char>,
    output: Seq<char>,
    builders: Seq<Seq<char>>,
    max_jobs: Option<u32>,
    remote_only: bool,
)
    ensures
        builds_on(
            build_output_args(drv, output, builders, max_jobs, remote_only),
            drv,
            output,
            text::joined(builders, "\n"@),
        ),
{
    reveal_strlit("^");
    assert(drv + "^"@ + output =~= drv.push('^') + output);
    let args = build_output_args(drv, output, builders, max_jobs, remote_only);
    assert(args.take(3) =~= seq!["build"@, "--no-link"@, drv.push('^') + output]);
    assert(args.subrange(3, 5) =~= seq!["--builders"@, text::joined(builders, "\n"@)]);
    assert(args.subrange(5, 8) =~= seq!["--option"@, "substitute"@, "false"@]);
    assert(args.subrange(8, 11) =~= seq!["--option"@, "fallback"@, "false"@]);
    assert(args.subrange(11, 14) =~= seq!["--option"@, "extra-platforms"@, Seq::<char>::empty()]);
}

/// The build of an output is the same for any cap on local jobs once it may use
/// builders alone; otherwise the cap is passed on. One more builder is one more
/// line of the value of `--builders`.
pub proof fn law_builders_and_jobs_of_an_output(
    drv: Seq<char>,
    output: Seq<char>,
    builders: Seq<Seq<char>>,
    builder: Seq<char>,
    max_jobs: Option<u32>,
    remote_only: bool,
)
    ensures
        ({
            let args = build_output_args(drv, output, builders, max_jobs, remote_only);
            &&& builds_on(args, drv, output, args[4])
            &&& remote_only ==> args.skip(14) == seq!["--max-jobs"@, seq!['0']]
            &&& !remote_only ==> match max_jobs {
                None => args.len() == 14,
                Some(jobs) => args.len() == 16 && args[14] == "--max-jobs"@ && text::u32_value(
                    args[15],
                ) == Some(jobs) && args[15][0] != '+',
            }
            &&& builders.len() == 0 ==> args[4] == Seq::<char>::empty()
            &&& builders.len() == 1 ==> args[4] == builders[0]
            &&& builders.len() > 0 ==> build_output_args(
                drv,
                output,
                builders.push(builder),
                max_jobs,
                remote_only,
            )[4] == args[4].push('\n') + builder
        }),
{
    lemma_build_output_args(drv, output, builders, max_jobs, remote_only);
    let args = build_output_args(drv, output, builders, max_jobs, remote_only);
    reveal_strlit("0");
    reveal_strlit("\n");
    assert("0"@ =~= seq!['0']);
    assert("\n"@ =~= seq!['\n']);
    if remote_only {
        assert(args.skip(14) =~= seq!["--max-jobs"@, seq!['0']]);
    } else if let Some(jobs) = max_jobs {
        text::law_decimal_reads_back(jobs);
        text::lemma_decimal_digits(jobs as nat);
        assert('0' <= text::decimal(jobs as nat)[0] <= '9');
    }
    if builders.len() > 0 {
        text::lemma_joined_push(builders, builder, "\n"@);
        assert(args[4] + "\n"@ + builder =~= args[4].push('\n') + builder);
    }
}

/// A plan that is not executed says why: another schema first, then content that
/// does not match its identifier, then the first output that it blocks.
pub proof fn law_refusals_say_why(plan: PlanView, max_jobs: Option<u32>)
    ensures
        plan.schema_version != 2 ==> planned_commands(plan, max_jobs) == Err::<
            Seq<CommandView>,
            ErrorView,
        >(ErrorView::UnsupportedPlanSchema { version: plan.schema_version }),
        plan.schema_version == 2 && plan.plan_id != plan_id_of(plan) ==> planned_commands(
            plan,
            max_jobs,
        ) == Err::<Seq<CommandView>, ErrorView>(
            ErrorView::PlanIdMismatch { expected: plan.plan_id, actual: plan_id_of(plan) },
        ),
        forall|i: int, j: int|
            plan.schema_version == 2 && plan.plan_id == plan_id_of(plan) && is_first_blocked(
                plan.derivations,
                i,
                j,
            ) ==> planned_commands(plan, max_jobs) == Err::<Seq<CommandView>, ErrorView>(
                ErrorView::PlanBlocked {
                    path: (#[trigger] plan.derivations[i].actions[j]).path,
                    reason: plan.derivations[i].actions[j].route->reason,
                },
            ),
{
    assert forall|i: int, j: int|
        plan.schema_version == 2 && plan.plan_id == plan_id_of(plan) && is_first_blocked(
            plan.derivations,
            i,
            j,
        ) implies planned_commands(plan, max_jobs) == Err::<Seq<CommandView>, ErrorView>(
        ErrorView::PlanBlocked {
            path: (#[trigger] plan.derivations[i].actions[j]).path,
            reason: plan.derivations[i].actions[j].route->reason,
        },
    ) by {
        lemma_first_blocked(plan.derivations, i, j);
    }
}

/// The action is blocked, and none before it is.
pub open spec fn is_first_blocked(derivations: Seq<DerivationView>, i: int, j: int) -> bool {
    &&& 0 <= i < derivations.len()
    &&& 0 <= j < derivations[i].actions.len()
    &&& derivations[i].actions[j].route is Fail
    &&& forall|k: int| 0 <= k < j ==> !(#[trigger] derivations[i].actions[k].route is Fail)
    &&& forall|h: int, k: int|
        0 <= h < i && 0 <= k < derivations[h].actions.len() ==> !(
        #[trigger] derivations[h].actions[k].route is Fail)
}

proof fn lemma_first_blocked_action(actions: Seq<ActionView>, j: int)
    requires
        0 <= j < actions.len(),
        actions[j].route is Fail,
        forall|k: int| 0 <= k < j ==> !(#[trigger] actions[k].route is Fail),
    ensures
        blocked_action(actions) == Some((actions[j].path, actions[j].route->reason)),
    decreases j,
{
    if j > 0 {
        let rest = actions.drop_first();
        assert(!(actions[0].route is Fail));
        assert forall|k: int| 0 <= k < j - 1 implies !(#[trigger] rest[k].route is Fail) by {
            assert(rest[k] == actions[k + 1]);
        }
        lemma_first_blocked_action(rest, j - 1);
    }
}

proof fn lemma_first_blocked(derivations: Seq<DerivationView>, i: int, j: int)
    requires
        is_first_blocked(derivations, i, j),
    ensures
        blocked_output(derivations) == Some(
            (derivations[i].actions[j].path, derivations[i].actions[j].route->reason),
        ),
    decreases i,
{
    if i == 0 {
        lemma_first_blocked_action(derivations[0].actions, j);
    } else {
        lemma_blocked_action(derivations[0].actions);
        let rest = derivations.drop_first();
        assert(rest[i - 1] == derivations[i]);
        assert forall|h: int, k: int|
            0 <= h < i - 1 && 0 <= k < rest[h].actions.len() implies !(
        #[trigger] rest[h].actions[k].route is Fail) by {
            assert(rest[h] == derivations[h + 1]);
            assert(!(derivations[h + 1].actions[k].route is Fail));
        }
        assert(is_first_blocked(rest, i - 1, j));
        lemma_first_blocked(rest, i - 1, j);
    }
}

// ---------------------------------------------------------------------------
// Execution
// ---------------------------------------------------------------------------

/// The arguments of `nix` that build one output without replanning it.
pub fn realization_args(
    drv: &str,
    output: &str,
    builders: &[String],
    max_jobs: Option<u32>,
    remote_only: bool,
) -> (result: Vec<String>)
    ensures
        result.deep_view() == build_output_args(
            drv@,
            output@,
            builders.deep_view(),
            max_jobs,
            remote_only,
        ),
{
    let mut args = vec![
        "build".to_owned(),
        "--no-link".to_owned(),
        drv.to_owned().concat("^").concat(output),
        "--builders".to_owned(),
        text::join(builders, "\n"),
        "--option".to_owned(),
        "substitute".to_owned(),
        "false".to_owned(),
        "--option".to_owned(),
        "fallback".to_owned(),
        "false".to_owned(),
        "--option".to_owned(),
        "extra-platforms".to_owned(),
        String::new(),
    ];
    if remote_only {
        args.push("--max-jobs".to_owned());
        args.push("0".to_owned());
    } else if let Some(jobs) = max_jobs {
        args.push("--max-jobs".to_owned());
        args.push(text::to_decimal(jobs as u64));
    }
    assert(args.deep_view() =~= build_output_args(
        drv@,
        output@,
        builders.deep_view(),
        max_jobs,
        remote_only,
    ));
    args
}

fn nix_command(args: Vec<String>) -> (result: CommandLine)
    ensures
        result@ == nix(args.deep_view()),
{
    CommandLine { program: "nix".to_owned(), args }
}

fn validation_command(path: &str) -> (result: CommandLine)
    ensures
        result@ == validation(path@),
{
    let args = vec![
        "path-info".to_owned(),
        "--store".to_owned(),
        "daemon".to_owned(),
        path.to_owned(),
    ];
    assert(args.deep_view() =~= seq!["path-info"@, "--store"@, "daemon"@, path@]);
    nix_command(args)
}

fn realization_command(drv: &str, action: &OutputAction, max_jobs: Option<u32>) -> (result: Option<
    CommandLine,
>)
    ensures
        match result {
            Some(command) => realization(drv@, action@, max_jobs) == seq![command@],
            None => realization(drv@, action@, max_jobs) == Seq::<CommandView>::empty(),
        },
{
    match &action.route {
        RealizationRoute::Substitute { substituter } => {
            let args = vec![
                "copy".to_owned(),
                "--from".to_owned(),
                substituter.clone(),
                action.path.clone(),
            ];
            assert(args.deep_view() =~= seq!["copy"@, "--from"@, substituter@, action.path@]);
            Some(nix_command(args))
        },
        RealizationRoute::AlreadyPresent => None,
        RealizationRoute::BuildLocal => {
            let none: Vec<String> = Vec::new();
            assert(none.deep_view() =~= Seq::<Seq<char>>::empty());
            Some(
                nix_command(
                    realization_args(
                        drv,
                        action.output.as_str(),
                        none.as_slice(),
                        max_jobs,
                        false,
                    ),
                ),
            )
        },
        RealizationRoute::RemoteNative { builders } => Some(
            nix_command(
                realization_args(drv, action.output.as_str(), builders.as_slice(), max_jobs, true),
            ),
        ),
        RealizationRoute::Fail { .. } => None,
    }
}

fn add_action_commands(
    commands: &mut Vec<CommandLine>,
    drv: &str,
    actions: &[OutputAction],
    max_jobs: Option<u32>,
)
    ensures
        final(commands).deep_view() == old(commands).deep_view() + actions_commands(
            drv@,
            actions.deep_view(),
            max_jobs,
        ),
{
    let ghost start = commands.deep_view();
    let ghost all = actions.deep_view();
    assert(all.take(0) =~= Seq::empty());
    assert(start + Seq::empty() =~= start);
    for i in 0..actions.len()
        invariant
            all == actions.deep_view(),
            commands.deep_view() == start + actions_commands(drv@, all.take(i as int), max_jobs),
    {
        let action = &actions[i];
        assert(all.take(i + 1).drop_last() =~= all.take(i as int));
        assert(all.take(i + 1).last() == action@);
        let ghost before = commands.deep_view();
        let ghost own = realization(drv@, action@, max_jobs);
        if let Some(command) = realization_command(drv, action, max_jobs) {
            let ghost view = command@;
            commands.push(command);
            assert(commands.deep_view() =~= before.push(view));
            assert(before.push(view) =~= before + seq![view]);
        } else {
            assert(before =~= before + own);
        }
        assert(commands.deep_view() =~= before + own);
        let last = validation_command(action.path.as_str());
        let ghost view = last@;
        let ghost middle = commands.deep_view();
        commands.push(last);
        assert(commands.deep_view() =~= middle.push(view));
        assert(middle.push(view) =~= start + (actions_commands(drv@, all.take(i as int), max_jobs)
            + own.push(view)));
    }
    assert(all.take(actions.len() as int) =~= all);
}

fn first_blocked_action(actions: &[OutputAction]) -> (result: Option<(String, String)>)
    ensures
        result.deep_view() == blocked_action(actions.deep_view()),
{
    let ghost all = actions.deep_view();
    assert(all.skip(0) =~= all);
    for i in 0..actions.len()
        invariant
            all == actions.deep_view(),
            blocked_action(all) == blocked_action(all.skip(i as int)),
    {
        assert(all.skip(i as int)[0] == actions@[i as int]@);
        assert(all.skip(i as int).drop_first() =~= all.skip(i + 1));
        if let RealizationRoute::Fail { reason } = &actions[i].route {
            return Some((actions[i].path.clone(), reason.clone()));
        }
    }
    None
}

fn first_blocked_output(derivations: &[DerivationPlan]) -> (result: Option<(String, String)>)
    ensures
        result.deep_view() == blocked_output(derivations.deep_view()),
{
    let ghost all = derivations.deep_view();
    assert(all.skip(0) =~= all);
    for i in 0..derivations.len()
        invariant
            all == derivations.deep_view(),
            blocked_output(all) == blocked_output(all.skip(i as int)),
    {
        assert(all.skip(i as int)[0] == derivations@[i as int]@);
        assert(all.skip(i as int).drop_first() =~= all.skip(i + 1));
        let blocked = first_blocked_action(derivations[i].actions.as_slice());
        if blocked.is_some() {
            return blocked;
        }
    }
    None
}

/// The commands that execute a plan, in order.
///
/// A plan of another schema, a plan whose content no longer matches its
/// identifier, and a plan that blocks an output are refused.
pub fn plan_commands(plan: &ClosurePlan, max_jobs: Option<u32>) -> (result: Result<
    Vec<CommandLine>,
>)
    ensures
        outcome(result) == planned_commands(plan@, max_jobs),
{
    if plan.schema_version != PLAN_SCHEMA_VERSION {
        return Err(Error::UnsupportedPlanSchema { version: plan.schema_version });
    }
    let actual = match plan.canonical_plan_id() {
        Ok(actual) => actual,
        Err(error) => {
            return Err(error);
        },
    };
    if !text::same(plan.plan_id.as_str(), actual.as_str()) {
        return Err(Error::PlanIdMismatch { expected: plan.plan_id.clone(), actual });
    }
    if let Some((path, reason)) = first_blocked_output(plan.derivations.as_slice()) {
        return Err(Error::PlanBlocked { path, reason });
    }
    let ghost all = plan.derivations.deep_view();
    let mut commands: Vec<CommandLine> = Vec::new();
    assert(all.take(0) =~= Seq::empty());
    assert(commands.deep_view() =~= Seq::empty());
    for i in 0..plan.derivations.len()
        invariant
            all == plan.derivations.deep_view(),
            commands.deep_view() == derivations_commands(all.take(i as int), max_jobs),
    {
        let derivation = &plan.derivations[i];
        assert(all.take(i + 1).drop_last() =~= all.take(i as int));
        assert(all.take(i + 1).last() == derivation@);
        add_action_commands(
            &mut commands,
            derivation.drv.as_str(),
            derivation.actions.as_slice(),
            max_jobs,
        );
    }
    assert(all.take(plan.derivations.len() as int) =~= all);
    Ok(commands)
}

/// Executes an authoritative closure plan without asking Nix to replan it.
///
/// Actions run in the dependency-first order recorded in the plan. Every
/// expected output is validated through the local Nix daemon after its action.
pub fn execute_plan<T: CommandRunner>(
    plan: &ClosurePlan,
    max_jobs: Option<u32>,
    calls: &mut Calls<'_, T>,
) -> (result: Result<()>)
    ensures
        final(calls).continues(old(calls)),
        carried_out(
            planned_commands(plan@, max_jobs),
            calls_since(old(calls)@, final(calls)@),
            result,
        ),
        commands_gave(final(calls).party(), calls_since(old(calls)@, final(calls)@)),
{
    match plan_commands(plan, max_jobs) {
        Ok(commands) => run_all(commands.as_slice(), calls),
        Err(error) => Err(error),
    }
}

// ---------------------------------------------------------------------------
// Executor descriptors
// ---------------------------------------------------------------------------

/// Executor descriptor accepted by Crossbow check planning.
#[derive(Debug, PartialEq, Eq)]
pub enum ExecutorDescriptor {
    /// Check by requiring a native builder for the host system.
    NativeBuilder {
        /// Optional builder names accepted by the descriptor.
        builders: Vec<String>,
    },
    /// Mark the check as intentionally skipped with a human-readable reason.
    Skip {
        /// Human-readable skip reason.
        reason: String,
    },
    /// Declared WASI executor stub.
    Wasmtime {
        /// Whether a concrete wasmtime package was supplied by the caller.
        configured: bool,
    },
    /// Declared Windows/Wine executor stub.
    Wine {
        /// Whether a concrete wine package was supplied by the caller.
        configured: bool,
    },
}

/// Model of an [`ExecutorDescriptor`].
#[verifier::ext_equal]
pub enum DescriptorView {
    NativeBuilder { builders: Seq<Seq<char>> },
    Skip { reason: Seq<char> },
    Wasmtime { configured: bool },
    Wine { configured: bool },
}

impl View for ExecutorDescriptor {
    type V = DescriptorView;

    open spec fn view(&self) -> DescriptorView {
        match self {
            ExecutorDescriptor::NativeBuilder { builders } => DescriptorView::NativeBuilder {
                builders: builders.deep_view(),
            },
            ExecutorDescriptor::Skip { reason } => DescriptorView::Skip { reason: reason@ },
            ExecutorDescriptor::Wasmtime { configured } => DescriptorView::Wasmtime {
                configured: *configured,
            },
            ExecutorDescriptor::Wine { configured } => DescriptorView::Wine {
                configured: *configured,
            },
        }
    }
}

impl DeepView for ExecutorDescriptor {
    type V = DescriptorView;

    open spec fn deep_view(&self) -> DescriptorView {
        self@
    }
}

impl Clone for ExecutorDescriptor {
    fn clone(&self) -> (result: Self)
        ensures
            result@ == self@,
    {
        match self {
            ExecutorDescriptor::NativeBuilder { builders } => {
                let copy = text::copy_list(builders.as_slice());
                ExecutorDescriptor::NativeBuilder { builders: copy }
            },
            ExecutorDescriptor::Skip { reason } => ExecutorDescriptor::Skip {
                reason: reason.clone(),
            },
            ExecutorDescriptor::Wasmtime { configured } => ExecutorDescriptor::Wasmtime {
                configured: *configured,
            },
            ExecutorDescriptor::Wine { configured } => ExecutorDescriptor::Wine {
                configured: *configured,
            },
        }
    }
}

/// Planned check behavior derived from an [`ExecutorDescriptor`].
#[derive(Debug, PartialEq, Eq)]
pub enum CheckPlan {
    /// Native-builder checks record the system that must be executable.
    NativeBuilder {
        /// Host system required by the check.
        required_system: String,
    },
    /// Skipped checks emit the supplied reason.
    Skipped {
        /// Human-readable skip reason.
        reason: String,
    },
}

/// Model of a [`CheckPlan`].
#[verifier::ext_equal]
pub enum CheckView {
    NativeBuilder { required_system: Seq<char> },
    Skipped { reason: Seq<char> },
}

impl View for CheckPlan {
    type V = CheckView;

    open spec fn view(&self) -> CheckView {
        match self {
            CheckPlan::NativeBuilder { required_system } => CheckView::NativeBuilder {
                required_system: required_system@,
            },
            CheckPlan::Skipped { reason } => CheckView::Skipped { reason: reason@ },
        }
    }
}

impl DeepView for CheckPlan {
    type V = CheckView;

    open spec fn deep_view(&self) -> CheckView {
        self@
    }
}

impl Clone for CheckPlan {
    fn clone(&self) -> (result: Self)
        ensures
            result@ == self@,
    {
        match self {
            CheckPlan::NativeBuilder { required_system } => CheckPlan::NativeBuilder {
                required_system: required_system.clone(),
            },
            CheckPlan::Skipped { reason } => CheckPlan::Skipped { reason: reason.clone() },
        }
    }
}

/// The check that a descriptor asks for.
pub open spec fn planned_check(
    executor: DescriptorView,
    host_system: Seq<char>,
    check_name: Seq<char>,
) -> std::result::Result<CheckView, ErrorView> {
    match executor {
        DescriptorView::Skip { reason } => Ok(CheckView::Skipped { reason }),
        DescriptorView::NativeBuilder { .. } => if host_system.len() == 0 {
            Err(ErrorView::NativeBuilderMissingHost { check_name })
        } else {
            Ok(CheckView::NativeBuilder { required_system: host_system })
        },
        DescriptorView::Wasmtime { .. } => Err(
            ErrorView::ExecutorNotImplemented { kind: "wasmtime"@ },
        ),
        DescriptorView::Wine { .. } => Err(ErrorView::ExecutorNotImplemented { kind: "wine"@ }),
    }
}

/// Validates an executor descriptor for a package check.
///
/// # Errors
///
/// Returns [`Error::NativeBuilderMissingHost`] when a native-builder check has
/// no host system, and [`Error::ExecutorNotImplemented`] for declared stubs.
pub fn plan_executor_check(
    executor: &ExecutorDescriptor,
    host_system: &str,
    check_name: &str,
) -> (result: Result<CheckPlan>)
    ensures
        outcome(result) == planned_check(executor@, host_system@, check_name@),
{
    match executor {
        ExecutorDescriptor::Skip { reason } => Ok(CheckPlan::Skipped { reason: reason.clone() }),
        ExecutorDescriptor::NativeBuilder { .. } => {
            if host_system.is_empty() {
                return Err(
                    Error::NativeBuilderMissingHost { check_name: check_name.to_owned() },
                );
            }
            Ok(CheckPlan::NativeBuilder { required_system: host_system.to_owned() })
        },
        ExecutorDescriptor::Wasmtime { .. } => Err(
            Error::ExecutorNotImplemented { kind: "wasmtime".to_owned() },
        ),
        ExecutorDescriptor::Wine { .. } => Err(
            Error::ExecutorNotImplemented { kind: "wine".to_owned() },
        ),
    }
}

/// The descriptor that a kind names.
pub open spec fn described(kind: Seq<char>) -> std::result::Result<DescriptorView, ErrorView> {
    if kind == "native-builder"@ {
        Ok(DescriptorView::NativeBuilder { builders: Seq::empty() })
    } else if kind == "skip"@ {
        Ok(DescriptorView::Skip { reason: "crossbow check skipped"@ })
    } else if kind == "wasmtime"@ {
        Ok(DescriptorView::Wasmtime { configured: false })
    } else if kind == "wine"@ {
        Ok(DescriptorView::Wine { configured: false })
    } else {
        Err(ErrorView::UnknownExecutor { kind })
    }
}

/// Parses an executor kind name into an [`ExecutorDescriptor`].
///
/// # Errors
///
/// Returns [`Error::UnknownExecutor`] for names Crossbow does not recognize.
pub fn parse_executor_kind(kind: &str) -> (result: Result<ExecutorDescriptor>)
    ensures
        outcome(result) == described(kind@),
{
    if text::same(kind, "native-builder") {
        let builders: Vec<String> = Vec::new();
        assert(builders.deep_view() =~= Seq::<Seq<char>>::empty());
        Ok(ExecutorDescriptor::NativeBuilder { builders })
    } else if text::same(kind, "skip") {
        Ok(ExecutorDescriptor::Skip { reason: "crossbow check skipped".to_owned() })
    } else if text::same(kind, "wasmtime") {
        Ok(ExecutorDescriptor::Wasmtime { configured: false })
    } else if text::same(kind, "wine") {
        Ok(ExecutorDescriptor::Wine { configured: false })
    } else {
        Err(Error::UnknownExecutor { kind: kind.to_owned() })
    }
}

/// A check that is skipped keeps its reason. One that needs a native builder
/// needs one for the host system, and is refused without a host system. The
/// other kinds are not implemented.
pub proof fn law_checks_need_their_host(
    executor: DescriptorView,
    host_system: Seq<char>,
    check_name: Seq<char>,
)
    ensures
        executor matches DescriptorView::Skip { reason } ==> planned_check(
            executor,
            host_system,
            check_name,
        ) == Ok::<CheckView, ErrorView>(CheckView::Skipped { reason }),
        executor is NativeBuilder && host_system.len() > 0 ==> planned_check(
            executor,
            host_system,
            check_name,
        ) == Ok::<CheckView, ErrorView>(CheckView::NativeBuilder { required_system: host_system }),
        executor is NativeBuilder && host_system.len() == 0 ==> planned_check(
            executor,
            host_system,
            check_name,
        ) == Err::<CheckView, ErrorView>(ErrorView::NativeBuilderMissingHost { check_name }),
        executor is Wasmtime ==> planned_check(executor, host_system, check_name) == Err::<
            CheckView,
            ErrorView,
        >(ErrorView::ExecutorNotImplemented { kind: "wasmtime"@ }),
        executor is Wine ==> planned_check(executor, host_system, check_name) == Err::<
            CheckView,
            ErrorView,
        >(ErrorView::ExecutorNotImplemented { kind: "wine"@ }),
{
}

/// A kind of executor is known by its name, and by no other.
pub proof fn law_executors_are_known_by_name(kind: Seq<char>)
    ensures
        described("native-builder"@) == Ok::<DescriptorView, ErrorView>(
            DescriptorView::NativeBuilder { builders: Seq::empty() },
        ),
        described("skip"@) == Ok::<DescriptorView, ErrorView>(
            DescriptorView::Skip { reason: "crossbow check skipped"@ },
        ),
        described("wasmtime"@) == Ok::<DescriptorView, ErrorView>(
            DescriptorView::Wasmtime { configured: false },
        ),
        described("wine"@) == Ok::<DescriptorView, ErrorView>(
            DescriptorView::Wine { configured: false },
        ),
        kind != "native-builder"@ && kind != "skip"@ && kind != "wasmtime"@ && kind != "wine"@
            ==> described(kind) == Err::<DescriptorView, ErrorView>(
            ErrorView::UnknownExecutor { kind },
        ),
{
    reveal_strlit("native-builder");
    reveal_strlit("skip");
    reveal_strlit("wasmtime");
    reveal_strlit("wine");
    assert("native-builder"@.len() == 14);
    assert("skip"@.len() == 4);
    assert("wasmtime"@.len() == 8);
    assert("wine"@.len() == 4);
    assert("skip"@[0] == 's');
    assert("wine"@[0] == 'w');
}

} // verus!
