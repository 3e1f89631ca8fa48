//! Cache-shaped NixOS switches: prepare a toplevel, publish and verify its
//! closure, then activate exactly what was prepared.

use vstd::prelude::*;
use vstd::utf8::{encode_utf8, encode_utf8_decode_utf8};

use crate::calls::{cache_gave, calls_since, commands_gave, runner_gave, Call, Calls};
use crate::command::{carried_out, run_all, CommandLine, CommandRunner, CommandView};
use crate::delivery::{missing_paths, Delivery, Stage};
use crate::error::{outcome, Error, ErrorView, Result};
use crate::executor::{plan_commands, planned_commands};
use crate::planner::coverage::realizes_roots;
use crate::planner::identity::{digest_name, is_digest_name, name_of_digest};
use crate::planner::order::planned;
use crate::planner::plan::{
    ActionView, ClosurePlan, DerivationPlan, DerivationView, OutputAction, PlanView,
};
use crate::publish::{Publisher, Verifier};
use crate::request::{PreparedSwitch, PreparedSwitchView, SwitchPlan, SwitchView};
use crate::text;

verus! {

// ---------------------------------------------------------------------------
// The stages of a switch
// ---------------------------------------------------------------------------

/// Carries out the stages of a switch that reach outside.
pub trait Runner {
    /// Realizes the toplevel and returns its path.
    fn build_toplevel(&self, plan: &SwitchPlan<'_>) -> Result<String>;

    /// The store paths that must be published for a toplevel.
    fn closure_to_publish(&self, toplevel: &str) -> Result<Vec<String>>;

    /// Activates a prepared toplevel.
    fn activate(&self, plan: &SwitchPlan<'_>, prepared: &PreparedSwitch) -> Result<()>;
}

/// The runner built the toplevel and ended with `result`.
pub open spec fn built<R: Runner>(runner: &R, plan: SwitchView, result: Result<String>) -> bool {
    exists|switch: &SwitchPlan<'_>|
        #![trigger call_ensures(R::build_toplevel, (runner, switch), result)]
        switch@ == plan && call_ensures(R::build_toplevel, (runner, switch), result)
}

/// The runner was asked for the closure of a toplevel and ended with `result`.
pub open spec fn closed<R: Runner>(
    runner: &R,
    toplevel: Seq<char>,
    result: Result<Vec<String>>,
) -> bool {
    exists|path: &str|
        #![trigger call_ensures(R::closure_to_publish, (runner, path), result)]
        path@ == toplevel && call_ensures(R::closure_to_publish, (runner, path), result)
}

/// The runner activated what was prepared and ended with `result`.
pub open spec fn activated<R: Runner>(
    runner: &R,
    plan: SwitchView,
    prepared: PreparedSwitchView,
    result: Result<()>,
) -> bool {
    exists|switch: &SwitchPlan<'_>, toplevel: &PreparedSwitch|
        #![trigger call_ensures(R::activate, (runner, switch, toplevel), result)]
        switch@ == plan && toplevel@ == prepared && call_ensures(
            R::activate,
            (runner, switch, toplevel),
            result,
        )
}

/// A publisher, a verifier and a runner, as one party.
///
/// A call is passed on once to the party concerned. The contracts say with what
/// and what came of it; a shared reference keeps no count of the calls that go
/// through it.
pub struct Parties<'a, P, Q, R> {
    /// Publishes the closure.
    pub publisher: &'a P,
    /// Verifies that the cache has it.
    pub verifier: &'a Q,
    /// Carries out the other stages.
    pub runner: &'a R,
}

impl<'a, P: Publisher, Q, R> Publisher for Parties<'a, P, Q, R> {
    fn publish(&self, paths: &[String]) -> (result: Result<()>)
        ensures
            call_ensures(P::publish, (self.publisher, paths), result),
    {
        self.publisher.publish(paths)
    }
}

impl<'a, P, Q: Verifier, R> Verifier for Parties<'a, P, Q, R> {
    fn verify_present(&self, paths: &[String]) -> (result: Result<Vec<String>>)
        ensures
            call_ensures(Q::verify_present, (self.verifier, paths), result),
    {
        self.verifier.verify_present(paths)
    }
}

impl<'a, P, Q, R: Runner> Runner for Parties<'a, P, Q, R> {
    fn build_toplevel(&self, plan: &SwitchPlan<'_>) -> (result: Result<String>)
        ensures
            call_ensures(R::build_toplevel, (self.runner, plan), result),
    {
        self.runner.build_toplevel(plan)
    }

    fn closure_to_publish(&self, toplevel: &str) -> (result: Result<Vec<String>>)
        ensures
            call_ensures(R::closure_to_publish, (self.runner, toplevel), result),
    {
        self.runner.closure_to_publish(toplevel)
    }

    fn activate(&self, plan: &SwitchPlan<'_>, prepared: &PreparedSwitch) -> (result: Result<()>)
        ensures
            call_ensures(R::activate, (self.runner, plan, prepared), result),
    {
        self.runner.activate(plan, prepared)
    }
}

impl<'a, P, Q, R: CommandRunner> CommandRunner for Parties<'a, P, Q, R> {
    fn run(&self, program: &str, args: &[String]) -> (result: Result<()>)
        ensures
            call_ensures(R::run, (self.runner, program, args), result),
    {
        self.runner.run(program, args)
    }
}

// ---------------------------------------------------------------------------
// Preparation
// ---------------------------------------------------------------------------

/// What the fingerprint of a prepared switch is made of.
pub open spec fn fingerprint_parts(
    plan: SwitchView,
    toplevel: Seq<char>,
    closure: Seq<Seq<char>>,
) -> Seq<Seq<char>> {
    seq![plan.flake_attr, plan.toplevel_attr, toplevel] + closure
}

/// The bytes that the fingerprint of a prepared switch is the digest of: its
/// parts, with a zero byte between them.
pub open spec fn fingerprint_bytes(
    plan: SwitchView,
    toplevel: Seq<char>,
    closure: Seq<Seq<char>>,
) -> Seq<u8> {
    encode_utf8(text::joined(fingerprint_parts(plan, toplevel, closure), "\0"@))
}

/// A toplevel with its closure, prepared for activation.
pub open spec fn prepared_with(
    plan: SwitchView,
    toplevel: Seq<char>,
    closure: Seq<Seq<char>>,
) -> PreparedSwitchView {
    PreparedSwitchView {
        frozen_flake: plan.flake_attr,
        toplevel_attr: plan.toplevel_attr,
        toplevel,
        closure,
        fingerprint: digest_name(fingerprint_bytes(plan, toplevel, closure)),
    }
}

fn fingerprint_of(plan: &SwitchPlan<'_>, toplevel: &str, closure: &[String]) -> (result: String)
    ensures
        result@ == digest_name(fingerprint_bytes(plan@, toplevel@, closure.deep_view())),
        is_digest_name(result@),
{
    let mut parts: Vec<String> = vec![
        plan.flake_attr.to_owned(),
        plan.toplevel_attr.to_owned(),
        toplevel.to_owned(),
    ];
    assert(parts.deep_view() =~= seq![plan.flake_attr@, plan.toplevel_attr@, toplevel@]);
    text::extend(&mut parts, text::copy_list(closure));
    let input = text::join(parts.as_slice(), "\0");
    name_of_digest(input.as_str().as_bytes())
}

/// The last stage of a preparation, once the toplevel is there: the closure is
/// looked up where it is captured.
pub open spec fn preparation_finished(
    plan: SwitchView,
    toplevel: Seq<char>,
    calls: Seq<Call>,
    result: Result<PreparedSwitch>,
) -> bool {
    if plan.capture {
        calls.len() == 1 && match calls[0] {
            Call::Closure { toplevel: path, result: closure } => {
                &&& path == toplevel
                &&& match closure {
                    Err(error) => result == Err::<PreparedSwitch, Error>(error),
                    Ok(paths) => outcome(result) == Ok::<PreparedSwitchView, ErrorView>(
                        prepared_with(plan, toplevel, paths.deep_view()),
                    ),
                }
            },
            _ => false,
        }
    } else {
        calls.len() == 0 && outcome(result) == Ok::<PreparedSwitchView, ErrorView>(
            prepared_with(plan, toplevel, Seq::empty()),
        )
    }
}

fn finish_prepared_switch<T: Runner>(
    plan: &SwitchPlan<'_>,
    toplevel: String,
    calls: &mut Calls<'_, T>,
) -> (result: Result<PreparedSwitch>)
    ensures
        final(calls).continues(old(calls)),
        preparation_finished(
            plan@,
            toplevel@,
            calls_since(old(calls)@, final(calls)@),
            result,
        ),
        runner_gave(final(calls).party(), calls_since(old(calls)@, final(calls)@)),
        result matches Ok(prepared) ==> is_digest_name(prepared@.fingerprint),
{
    let ghost before = calls@;
    let closure: Vec<String> = if plan.capture {
        let answer = calls.closure_to_publish(toplevel.as_str());
        assert(calls_since(before, calls@) =~= seq![
            Call::Closure { toplevel: toplevel@, result: answer },
        ]);
        match answer {
            Ok(closure) => closure,
            Err(error) => {
                return Err(error);
            },
        }
    } else {
        let none: Vec<String> = Vec::new();
        assert(none.deep_view() =~= Seq::<Seq<char>>::empty());
        none
    };
    let fingerprint = fingerprint_of(plan, toplevel.as_str(), closure.as_slice());
    Ok(
        PreparedSwitch {
            frozen_flake: plan.flake_attr.to_owned(),
            toplevel_attr: plan.toplevel_attr.to_owned(),
            toplevel,
            closure,
            fingerprint,
        },
    )
}

/// A preparation: the toplevel is built first.
pub open spec fn switch_prepared(
    plan: SwitchView,
    calls: Seq<Call>,
    result: Result<PreparedSwitch>,
) -> bool {
    calls.len() > 0 && match calls[0] {
        Call::Build { plan: switch, result: toplevel } => {
            &&& switch == plan
            &&& match toplevel {
                Err(error) => calls.len() == 1 && result == Err::<PreparedSwitch, Error>(error),
                Ok(path) => preparation_finished(plan, path@, calls.skip(1), result),
            }
        },
        _ => false,
    }
}

/// Realizes one switch toplevel and captures its exact closure.
pub fn prepare_switch<T: Runner>(plan: &SwitchPlan<'_>, calls: &mut Calls<'_, T>) -> (result:
    Result<PreparedSwitch>)
    ensures
        final(calls).continues(old(calls)),
        switch_prepared(plan@, calls_since(old(calls)@, final(calls)@), result),
        runner_gave(final(calls).party(), calls_since(old(calls)@, final(calls)@)),
        result matches Ok(prepared) ==> is_digest_name(prepared@.fingerprint),
{
    let ghost before = calls@;
    let toplevel = calls.build_toplevel(plan);
    let ghost middle = calls@;
    let ghost first = Call::Build { plan: plan@, result: toplevel };
    assert(calls_since(before, middle) =~= seq![first]);
    match toplevel {
        Ok(path) => {
            let result = finish_prepared_switch(plan, path, calls);
            proof {
                lemma_calls_join(before, middle, calls@);
                assert(calls_since(before, calls@).skip(1) =~= calls_since(middle, calls@));
            }
            result
        },
        Err(error) => Err(error),
    }
}

/// What was made in two parts was made in one.
proof fn lemma_calls_join(before: Seq<Call>, middle: Seq<Call>, after: Seq<Call>)
    requires
        before.is_prefix_of(middle),
        middle.is_prefix_of(after),
    ensures
        before.is_prefix_of(after),
        calls_since(before, after) == calls_since(before, middle) + calls_since(middle, after),
{
    assert(calls_since(before, after) =~= calls_since(before, middle) + calls_since(middle, after));
}

// ---------------------------------------------------------------------------
// Preparation from a closure plan
// ---------------------------------------------------------------------------

/// Why a closure plan is not the plan for a switch.
pub open spec fn identity_refusal(switch: SwitchView, plan: PlanView) -> Option<ErrorView> {
    if plan.toplevel_installable != switch.toplevel_attr {
        Some(
            ErrorView::PlanIdentityMismatch {
                field: "toplevel_installable"@,
                planned: plan.toplevel_installable,
                requested: switch.toplevel_attr,
            },
        )
    } else if plan.flake_installable != switch.flake_attr {
        Some(
            ErrorView::PlanIdentityMismatch {
                field: "flake_installable"@,
                planned: plan.flake_installable,
                requested: switch.flake_attr,
            },
        )
    } else {
        None
    }
}

fn validate_plan_identity(switch: &SwitchPlan<'_>, plan: &ClosurePlan) -> (result: Result<()>)
    ensures
        outcome(result) == match identity_refusal(switch@, plan@) {
            Some(error) => Err::<(), ErrorView>(error),
            None => Ok(()),
        },
{
    if !text::same(plan.toplevel_installable.as_str(), switch.toplevel_attr) {
        return Err(
            Error::PlanIdentityMismatch {
                field: "toplevel_installable",
                planned: plan.toplevel_installable.clone(),
                requested: switch.toplevel_attr.to_owned(),
            },
        );
    }
    if !text::same(plan.flake_installable.as_str(), switch.flake_attr) {
        return Err(
            Error::PlanIdentityMismatch {
                field: "flake_installable",
                planned: plan.flake_installable.clone(),
                requested: switch.flake_attr.to_owned(),
            },
        );
    }
    Ok(())
}

/// The first of some actions that is for an output.
pub open spec fn action_for(actions: Seq<ActionView>, output: Seq<char>) -> Option<ActionView>
    decreases actions.len(),
{
    if actions.len() == 0 {
        None
    } else if actions[0].output == output {
        Some(actions[0])
    } else {
        action_for(actions.drop_first(), output)
    }
}

/// The first of some derivations that has a path.
pub open spec fn derivation_at(derivations: Seq<DerivationView>, drv: Seq<char>) -> Option<
    DerivationView,
>
    decreases derivations.len(),
{
    if derivations.len() == 0 {
        None
    } else if derivations[0].drv == drv {
        Some(derivations[0])
    } else {
        derivation_at(derivations.drop_first(), drv)
    }
}

/// The toplevel that a plan realizes: the path of the one output of its one
/// root.
pub open spec fn planned_toplevel(switch: SwitchView, plan: PlanView) -> std::result::Result<
    Seq<char>,
    ErrorView,
> {
    if plan.roots.len() != 1 {
        Err(
            ErrorView::PlannerMissingOutput {
                drv: switch.toplevel_attr,
                output: "single requested root"@,
            },
        )
    } else {
        let root = plan.roots[0];
        if root.outputs.len() != 1 {
            Err(
                ErrorView::PlannerMissingOutput {
                    drv: root.drv,
                    output: "single requested output"@,
                },
            )
        } else {
            let missing = ErrorView::PlannerMissingOutput {
                drv: root.drv,
                output: root.outputs[0],
            };
            match derivation_at(plan.derivations, root.drv) {
                None => Err(missing),
                Some(derivation) => match action_for(derivation.actions, root.outputs[0]) {
                    None => Err(missing),
                    Some(action) => Ok(action.path),
                },
            }
        }
    }
}

fn find_action<'a>(actions: &'a [OutputAction], output: &str) -> (result: Option<&'a OutputAction>)
    ensures
        result.deep_view() == action_for(actions.deep_view(), output@),
{
    let ghost all = actions.deep_view();
    assert(all.skip(0) =~= all);
    for i in 0..actions.len()
        invariant
            all == actions.deep_view(),
            action_for(all, output@) == action_for(all.skip(i as int), output@),
    {
        assert(all.skip(i as int)[0] == actions@[i as int]@);
        assert(all.skip(i as int).drop_first() =~= all.skip(i + 1));
        if text::same(actions[i].output.as_str(), output) {
            return Some(&actions[i]);
        }
    }
    None
}

fn find_derivation<'a>(derivations: &'a [DerivationPlan], drv: &str) -> (result: Option<
    &'a DerivationPlan,
>)
    ensures
        result.deep_view() == derivation_at(derivations.deep_view(), drv@),
{
    let ghost all = derivations.deep_view();
    assert(all.skip(0) =~= all);
    for i in 0..derivations.len()
        invariant
            all == derivations.deep_view(),
            derivation_at(all, drv@) == derivation_at(all.skip(i as int), drv@),
    {
        assert(all.skip(i as int)[0] == derivations@[i as int]@);
        assert(all.skip(i as int).drop_first() =~= all.skip(i + 1));
        if text::same(derivations[i].drv.as_str(), drv) {
            return Some(&derivations[i]);
        }
    }
    None
}

/// The toplevel that a plan realizes.
pub fn find_planned_toplevel(switch: &SwitchPlan<'_>, plan: &ClosurePlan) -> (result: Result<
    String,
>)
    ensures
        outcome(result) == planned_toplevel(switch@, plan@),
{
    if plan.roots.len() != 1 {
        return Err(
            Error::PlannerMissingOutput {
                drv: switch.toplevel_attr.to_owned(),
                output: "single requested root".to_owned(),
            },
        );
    }
    let root = &plan.roots[0];
    assert(plan@.roots[0] == root@);
    if root.outputs.len() != 1 {
        return Err(
            Error::PlannerMissingOutput {
                drv: root.drv.clone(),
                output: "single requested output".to_owned(),
            },
        );
    }
    let output = &root.outputs[0];
    assert(root@.outputs[0] == output@);
    if let Some(derivation) = find_derivation(plan.derivations.as_slice(), root.drv.as_str()) {
        if let Some(action) = find_action(derivation.actions.as_slice(), output.as_str()) {
            return Ok(action.path.clone());
        }
    }
    Err(Error::PlannerMissingOutput { drv: root.drv.clone(), output: output.clone() })
}

/// The commands that execute a closure plan for a switch. A plan for something
/// else is refused.
pub open spec fn commands_for_switch(switch: SwitchView, plan: PlanView) -> std::result::Result<
    Seq<CommandView>,
    ErrorView,
> {
    match identity_refusal(switch, plan) {
        Some(error) => Err(error),
        None => planned_commands(plan, switch.max_jobs),
    }
}

/// The commands that execute a closure plan for a switch, in order.
pub fn planned_switch_commands(switch: &SwitchPlan<'_>, plan: &ClosurePlan) -> (result: Result<
    Vec<CommandLine>,
>)
    ensures
        outcome(result) == commands_for_switch(switch@, plan@),
{
    match validate_plan_identity(switch, plan) {
        Ok(_) => plan_commands(plan, switch.max_jobs),
        Err(error) => Err(error),
    }
}

/// A preparation from a closure plan: the first `ran` calls execute the plan,
/// once, and the others look up the closure of the toplevel that it names.
pub open spec fn planned_in(
    switch: SwitchView,
    plan: PlanView,
    calls: Seq<Call>,
    ran: int,
    executed: Result<()>,
    result: Result<PreparedSwitch>,
) -> bool {
    &&& 0 <= ran <= calls.len()
    &&& carried_out(commands_for_switch(switch, plan), calls.take(ran), executed)
    &&& match executed {
        Err(error) => ran == calls.len() && result == Err::<PreparedSwitch, Error>(error),
        Ok(()) => match planned_toplevel(switch, plan) {
            Err(error) => ran == calls.len() && outcome(result) == Err::<
                PreparedSwitchView,
                ErrorView,
            >(error),
            Ok(toplevel) => preparation_finished(switch, toplevel, calls.skip(ran), result),
        },
    }
}

/// A preparation from a closure plan. A plan for something else is refused
/// before anything is called.
pub open spec fn planned_switch_prepared(
    switch: SwitchView,
    plan: PlanView,
    calls: Seq<Call>,
    result: Result<PreparedSwitch>,
) -> bool {
    exists|ran: int, executed: Result<()>|
        planned_in(switch, plan, calls, ran, executed, result)
}

/// Executes a recorded closure plan, then captures the prepared toplevel
/// without a generic `nix build` replan.
pub fn prepare_planned_switch<T: CommandRunner + Runner>(
    switch: &SwitchPlan<'_>,
    closure_plan: &ClosurePlan,
    calls: &mut Calls<'_, T>,
) -> (result: Result<PreparedSwitch>)
    ensures
        final(calls).continues(old(calls)),
        planned_switch_prepared(
            switch@,
            closure_plan@,
            calls_since(old(calls)@, final(calls)@),
            result,
        ),
        commands_gave(final(calls).party(), calls_since(old(calls)@, final(calls)@)),
        runner_gave(final(calls).party(), calls_since(old(calls)@, final(calls)@)),
        result matches Ok(prepared) ==> is_digest_name(prepared@.fingerprint),
{
    let ghost before = calls@;
    let commands = match planned_switch_commands(switch, closure_plan) {
        Ok(commands) => commands,
        Err(error) => {
            proof {
                let none = calls_since(before, calls@);
                assert(none.take(0) =~= none);
                assert(planned_in(
                    switch@,
                    closure_plan@,
                    none,
                    0,
                    Err(error),
                    Err::<PreparedSwitch, Error>(error),
                ));
            }
            return Err(error);
        },
    };
    let executed = run_all(commands.as_slice(), calls);
    let ghost middle = calls@;
    let ghost ran = calls_since(before, middle).len() as int;
    assert(calls_since(before, middle).take(ran) =~= calls_since(before, middle));
    match executed {
        Ok(done) => {
            assert(done == ());
        },
        Err(error) => {
            assert(planned_in(
                switch@,
                closure_plan@,
                calls_since(before, calls@),
                ran,
                executed,
                Err::<PreparedSwitch, Error>(error),
            ));
            return Err(error);
        },
    }
    match find_planned_toplevel(switch, closure_plan) {
        Ok(toplevel) => {
            let result = finish_prepared_switch(switch, toplevel, calls);
            proof {
                lemma_calls_join(before, middle, calls@);
                let all = calls_since(before, calls@);
                assert(all.take(ran) =~= calls_since(before, middle));
                assert(all.skip(ran) =~= calls_since(middle, calls@));
                assert(planned_in(switch@, closure_plan@, all, ran, executed, result));
            }
            result
        },
        Err(error) => {
            assert(planned_in(
                switch@,
                closure_plan@,
                calls_since(before, calls@),
                ran,
                executed,
                Err::<PreparedSwitch, Error>(error),
            ));
            Err(error)
        },
    }
}

// ---------------------------------------------------------------------------
// Publication and activation
// ---------------------------------------------------------------------------

/// The last stage of a switch. The `build` action stops before it.
pub open spec fn activation_stage(
    plan: SwitchView,
    prepared: PreparedSwitchView,
    calls: Seq<Call>,
    result: Result<()>,
) -> bool {
    if plan.action == "build"@ {
        calls.len() == 0 && result == Ok::<(), Error>(())
    } else {
        calls == seq![Call::Activate { plan, prepared, result }]
    }
}

/// The stages of a switch once its closure has been published.
pub open spec fn verification_stage(
    plan: SwitchView,
    prepared: PreparedSwitchView,
    calls: Seq<Call>,
    result: Result<()>,
) -> bool {
    calls.len() > 0 && match calls[0] {
        Call::Verify { paths, result: answer } => {
            &&& paths == prepared.closure
            &&& match answer {
                Err(error) => calls.len() == 1 && result == Err::<(), Error>(error),
                Ok(missing) => if missing.deep_view().len() > 0 {
                    calls.len() == 1 && outcome(result) == Err::<(), ErrorView>(
                        missing_paths(missing.deep_view()),
                    )
                } else {
                    activation_stage(plan, prepared, calls.skip(1), result)
                },
            }
        },
        _ => false,
    }
}

/// The stages of a switch once it has been prepared. A captured closure is
/// published and verified first; a failure of either ends the switch.
pub open spec fn switch_finished(
    plan: SwitchView,
    prepared: PreparedSwitchView,
    calls: Seq<Call>,
    result: Result<()>,
) -> bool {
    if plan.capture {
        calls.len() > 0 && match calls[0] {
            Call::Publish { paths, result: ended } => {
                &&& paths == prepared.closure
                &&& match ended {
                    Err(error) => calls.len() == 1 && result == Err::<(), Error>(error),
                    Ok(_) => verification_stage(plan, prepared, calls.skip(1), result),
                }
            },
            _ => false,
        }
    } else {
        activation_stage(plan, prepared, calls, result)
    }
}

fn finish_switch<T: Publisher + Verifier + Runner>(
    plan: &SwitchPlan<'_>,
    prepared: &PreparedSwitch,
    calls: &mut Calls<'_, T>,
) -> (result: Result<()>)
    ensures
        final(calls).continues(old(calls)),
        switch_finished(plan@, prepared@, calls_since(old(calls)@, final(calls)@), result),
        runner_gave(final(calls).party(), calls_since(old(calls)@, final(calls)@)),
        cache_gave(final(calls).party(), calls_since(old(calls)@, final(calls)@)),
{
    let ghost before = calls@;
    let ghost mut made = Seq::<Call>::empty();
    let paths = prepared.closure.as_slice();
    let mut delivery = Delivery::begin(plan);
    assert(calls_since(before, calls@) =~= made);
    if let Stage::Publish = delivery.stage() {
        let ended = calls.publish(paths);
        proof {
            made = made.push(Call::Publish { paths: prepared@.closure, result: ended });
            assert(calls_since(before, calls@) =~= made);
        }
        match delivery.published(ended) {
            Ok(next) => {
                delivery = next;
            },
            Err(error) => {
                return Err(error);
            },
        }
        let answer = calls.verify_present(paths);
        proof {
            made = made.push(Call::Verify { paths: prepared@.closure, result: answer });
            assert(calls_since(before, calls@) =~= made);
            assert(made.skip(1) =~= seq![
                Call::Verify { paths: prepared@.closure, result: answer },
            ]);
            assert(made.skip(1).skip(1) =~= Seq::empty());
        }
        match delivery.verified(answer) {
            Ok(next) => {
                delivery = next;
            },
            Err(error) => {
                return Err(error);
            },
        }
    }
    if let Stage::Activate = delivery.stage() {
        let ended = calls.activate(plan, prepared);
        proof {
            let last = Call::Activate { plan: plan@, prepared: prepared@, result: ended };
            assert(calls_since(before, calls@) =~= made.push(last));
            if plan@.capture {
                assert(made.push(last).skip(1).skip(1) =~= seq![last]);
            } else {
                assert(made.push(last) =~= seq![last]);
            }
        }
        return match delivery.activated(ended) {
            Ok(_) => {
                assert(ended->Ok_0 == ());
                Ok(())
            },
            Err(error) => Err(error),
        };
    }
    Ok(())
}

/// A switch: the first `count` calls prepare it, and the others deliver what was
/// prepared.
pub open spec fn switch_in(
    plan: SwitchView,
    calls: Seq<Call>,
    count: int,
    prepared: Result<PreparedSwitch>,
    result: Result<()>,
) -> bool {
    &&& 0 <= count <= calls.len()
    &&& switch_prepared(plan, calls.take(count), prepared)
    &&& match prepared {
        Err(error) => count == calls.len() && result == Err::<(), Error>(error),
        Ok(toplevel) => switch_finished(plan, toplevel@, calls.skip(count), result),
    }
}

/// The calls of a switch, and what follows from how they end.
pub open spec fn switch_ended(plan: SwitchView, calls: Seq<Call>, result: Result<()>) -> bool {
    exists|count: int, prepared: Result<PreparedSwitch>|
        switch_in(plan, calls, count, prepared, result)
}

/// Builds, optionally publishes and verifies, then runs a cache-shaped rebuild.
///
/// Build, publish, and verify failures all return `Err` before activation is
/// attempted. The `build` action stops after capture, matching
/// `nixos-rebuild build` semantics.
pub fn run_cache_shaped_switch<T: Publisher + Verifier + Runner>(
    plan: &SwitchPlan<'_>,
    calls: &mut Calls<'_, T>,
) -> (result: Result<()>)
    ensures
        final(calls).continues(old(calls)),
        switch_ended(plan@, calls_since(old(calls)@, final(calls)@), result),
        runner_gave(final(calls).party(), calls_since(old(calls)@, final(calls)@)),
        cache_gave(final(calls).party(), calls_since(old(calls)@, final(calls)@)),
{
    let ghost before = calls@;
    let prepared = prepare_switch(plan, calls);
    let ghost middle = calls@;
    let ghost count = calls_since(before, middle).len() as int;
    proof {
        assert(calls_since(before, middle).take(count) =~= calls_since(before, middle));
        lemma_preparing_calls(plan@, calls_since(before, middle), prepared);
    }
    match prepared {
        Ok(ref toplevel) => {
            let result = finish_switch(plan, toplevel, calls);
            proof {
                lemma_calls_join(before, middle, calls@);
                let all = calls_since(before, calls@);
                assert(all.take(count) =~= calls_since(before, middle));
                assert(all.skip(count) =~= calls_since(middle, calls@));
                assert(switch_in(plan@, all, count, prepared, result));
            }
            result
        },
        Err(error) => {
            assert(switch_in(
                plan@,
                calls_since(before, calls@),
                count,
                Err::<PreparedSwitch, Error>(error),
                Err::<(), Error>(error),
            ));
            Err(error)
        },
    }
}

/// A preparation neither publishes nor verifies.
proof fn lemma_preparing_calls(
    plan: SwitchView,
    calls: Seq<Call>,
    result: Result<PreparedSwitch>,
)
    requires
        switch_prepared(plan, calls, result),
    ensures
        forall|i: int| 0 <= i < calls.len() ==> #[trigger] calls[i] is Build || calls[i] is Closure,
{
    assert forall|i: int| 0 <= i < calls.len() implies #[trigger] calls[i] is Build
        || calls[i] is Closure by {
        if i > 0 {
            assert(calls.skip(1)[i - 1] == calls[i]);
            assert(calls.skip(1).len() == 1);
            assert(calls.skip(1)[0] is Closure);
        }
    }
}

/// A planned switch: the first `count` calls prepare it, and the others deliver
/// what was prepared.
pub open spec fn planned_switch_in(
    switch: SwitchView,
    plan: PlanView,
    calls: Seq<Call>,
    count: int,
    prepared: Result<PreparedSwitch>,
    result: Result<()>,
) -> bool {
    &&& 0 <= count <= calls.len()
    &&& planned_switch_prepared(switch, plan, calls.take(count), prepared)
    &&& match prepared {
        Err(error) => count == calls.len() && result == Err::<(), Error>(error),
        Ok(toplevel) => switch_finished(switch, toplevel@, calls.skip(count), result),
    }
}

/// The calls of a planned switch, and what follows from how they end.
pub open spec fn planned_switch_ended(
    switch: SwitchView,
    plan: PlanView,
    calls: Seq<Call>,
    result: Result<()>,
) -> bool {
    exists|count: int, prepared: Result<PreparedSwitch>|
        planned_switch_in(switch, plan, calls, count, prepared, result)
}

/// Executes an authoritative plan, optionally publishes its prepared closure,
/// and activates that exact toplevel without reevaluation.
pub fn run_planned_switch<T: Publisher + Verifier + CommandRunner + Runner>(
    switch: &SwitchPlan<'_>,
    closure_plan: &ClosurePlan,
    calls: &mut Calls<'_, T>,
) -> (result: Result<()>)
    ensures
        final(calls).continues(old(calls)),
        planned_switch_ended(
            switch@,
            closure_plan@,
            calls_since(old(calls)@, final(calls)@),
            result,
        ),
        commands_gave(final(calls).party(), calls_since(old(calls)@, final(calls)@)),
        runner_gave(final(calls).party(), calls_since(old(calls)@, final(calls)@)),
        cache_gave(final(calls).party(), calls_since(old(calls)@, final(calls)@)),
{
    let ghost before = calls@;
    let prepared = prepare_planned_switch(switch, closure_plan, calls);
    let ghost middle = calls@;
    let ghost count = calls_since(before, middle).len() as int;
    proof {
        assert(calls_since(before, middle).take(count) =~= calls_since(before, middle));
        lemma_planned_calls(switch@, closure_plan@, calls_since(before, middle), prepared);
    }
    match prepared {
        Ok(ref toplevel) => {
            let result = finish_switch(switch, toplevel, calls);
            proof {
                lemma_calls_join(before, middle, calls@);
                let all = calls_since(before, calls@);
                assert(all.take(count) =~= calls_since(before, middle));
                assert(all.skip(count) =~= calls_since(middle, calls@));
                lemma_delivering_calls(switch@, toplevel@, all.skip(count), result);
                assert(planned_switch_in(switch@, closure_plan@, all, count, prepared, result));
            }
            result
        },
        Err(error) => {
            assert(planned_switch_in(
                switch@,
                closure_plan@,
                calls_since(before, calls@),
                count,
                Err::<PreparedSwitch, Error>(error),
                Err::<(), Error>(error),
            ));
            Err(error)
        },
    }
}

/// A preparation from a plan runs commands and looks up the closure, and does
/// nothing else.
proof fn lemma_planned_calls(
    switch: SwitchView,
    plan: PlanView,
    calls: Seq<Call>,
    result: Result<PreparedSwitch>,
)
    requires
        planned_switch_prepared(switch, plan, calls, result),
    ensures
        forall|i: int| 0 <= i < calls.len() ==> #[trigger] calls[i] is Run || calls[i] is Closure,
{
    let (ran, executed) = choose|ran: int, executed: Result<()>|
        planned_in(switch, plan, calls, ran, executed, result);
    assert forall|i: int| 0 <= i < calls.len() implies #[trigger] calls[i] is Run
        || calls[i] is Closure by {
        if i < ran {
            assert(calls.take(ran)[i] == calls[i]);
        } else {
            assert(calls.skip(ran)[i - ran] == calls[i]);
            assert(calls.skip(ran).len() == 1);
            assert(calls.skip(ran)[0] is Closure);
        }
    }
}

/// The calls of a delivery, by their places.
proof fn lemma_delivering_calls(
    plan: SwitchView,
    prepared: PreparedSwitchView,
    calls: Seq<Call>,
    result: Result<()>,
)
    requires
        switch_finished(plan, prepared, calls, result),
    ensures
        plan.capture ==> {
            &&& 1 <= calls.len() <= 3
            &&& calls[0] matches Call::Publish { paths, .. } && paths == prepared.closure
            &&& calls.len() > 1 ==> (calls[1] matches Call::Verify { paths, .. } && paths
                == prepared.closure)
            &&& calls.len() > 2 ==> calls[2] == (Call::Activate { plan, prepared, result })
        },
        !plan.capture ==> {
            &&& calls.len() <= 1
            &&& calls.len() > 0 ==> calls[0] == (Call::Activate { plan, prepared, result })
        },
{
    if plan.capture {
        let rest = calls.skip(1);
        assert(rest.len() == calls.len() - 1);
        if calls.len() > 1 {
            assert(calls[1] == rest[0]);
            let last = rest.skip(1);
            assert(last.len() == calls.len() - 2);
            if calls.len() > 2 {
                assert(calls[2] == last[0]);
            }
        }
    }
}

// ---------------------------------------------------------------------------
// Laws
// ---------------------------------------------------------------------------

/// What kind of call it is.
pub enum Step {
    Build,
    Closure,
    Publish,
    Verify,
    Activate,
    Run,
    Query,
}

/// The kind of a call.
pub open spec fn step_of(call: Call) -> Step {
    match call {
        Call::Build { .. } => Step::Build,
        Call::Closure { .. } => Step::Closure,
        Call::Publish { .. } => Step::Publish,
        Call::Verify { .. } => Step::Verify,
        Call::Activate { .. } => Step::Activate,
        Call::Run { .. } => Step::Run,
        Call::Query { .. } => Step::Query,
    }
}

/// The steps in which what was prepared is delivered.
pub open spec fn delivery_steps(plan: SwitchView) -> Seq<Step> {
    (if plan.capture {
        seq![Step::Publish, Step::Verify]
    } else {
        Seq::empty()
    }) + if plan.action == "build"@ {
        Seq::empty()
    } else {
        seq![Step::Activate]
    }
}

/// The steps of a whole switch.
pub open spec fn switch_steps(plan: SwitchView) -> Seq<Step> {
    (if plan.capture {
        seq![Step::Build, Step::Closure]
    } else {
        seq![Step::Build]
    }) + delivery_steps(plan)
}

/// Why a call ends a switch, where it does: it failed, or the cache lacks paths.
pub open spec fn failure_of(call: Call) -> Option<ErrorView> {
    match call {
        Call::Build { result: Err(error), .. } => Some(error@),
        Call::Closure { result: Err(error), .. } => Some(error@),
        Call::Publish { result: Err(error), .. } => Some(error@),
        Call::Verify { result: Err(error), .. } => Some(error@),
        Call::Verify { result: Ok(missing), .. } => if missing.deep_view().len() > 0 {
            Some(missing_paths(missing.deep_view()))
        } else {
            None
        },
        Call::Activate { result: Err(error), .. } => Some(error@),
        Call::Run { result: Err(error), .. } => Some(error@),
        Call::Query { result: Err(error), .. } => Some(error@),
        _ => None,
    }
}

/// The steps are taken in order, each once, up to the first that fails. Its
/// failure is the result; there is none where all steps were taken.
pub open spec fn goes_through(
    steps: Seq<Step>,
    calls: Seq<Call>,
    result: std::result::Result<(), ErrorView>,
) -> bool {
    &&& calls.len() <= steps.len()
    &&& forall|i: int| 0 <= i < calls.len() ==> step_of(#[trigger] calls[i]) == steps[i]
    &&& forall|i: int| 0 <= i < calls.len() - 1 ==> failure_of(#[trigger] calls[i]) is None
    &&& match result {
        Ok(_) => calls.len() == steps.len() && (calls.len() > 0 ==> failure_of(
            calls.last(),
        ) is None),
        Err(error) => calls.len() > 0 && failure_of(calls.last()) == Some(error),
    }
}

proof fn lemma_delivery_goes_through(
    plan: SwitchView,
    prepared: PreparedSwitchView,
    calls: Seq<Call>,
    result: Result<()>,
)
    requires
        switch_finished(plan, prepared, calls, result),
    ensures
        goes_through(delivery_steps(plan), calls, outcome(result)),
{
    lemma_delivering_calls(plan, prepared, calls, result);
    if plan.capture {
        let rest = calls.skip(1);
        assert(rest.len() == calls.len() - 1);
        if calls.len() > 1 {
            assert(calls[1] == rest[0]);
            assert(rest.skip(1).len() == calls.len() - 2);
        }
    }
}

/// A switch goes through its steps: it is built first, a captured closure is
/// looked up, published and verified, and then, but for the `build` action, the
/// toplevel is activated. The first failure ends it, and is its result.
pub proof fn law_switches_go_through_their_steps(
    plan: SwitchView,
    calls: Seq<Call>,
    result: Result<()>,
)
    requires
        switch_ended(plan, calls, result),
    ensures
        goes_through(switch_steps(plan), calls, outcome(result)),
{
    let (count, prepared) = choose|count: int, prepared: Result<PreparedSwitch>|
        switch_in(plan, calls, count, prepared, result);
    let first = calls.take(count);
    let rest = calls.skip(count);
    assert(first[0] == calls[0]);
    if first.len() > 1 {
        assert(first.skip(1)[0] == calls[1]);
        assert(first[1] == calls[1]);
    }
    assert(count <= 2) by {
        if count > 1 {
            assert(first.skip(1).len() == count - 1);
        }
    }
    if let Ok(toplevel) = prepared {
        lemma_delivery_goes_through(plan, toplevel@, rest, result);
        assert(count == if plan.capture {
            2int
        } else {
            1int
        }) by {
            assert(first.skip(1).len() == count - 1);
        }
        assert forall|i: int| 0 <= i < calls.len() implies step_of(#[trigger] calls[i])
            == switch_steps(plan)[i] by {
            if i >= count {
                assert(rest[i - count] == calls[i]);
            }
        }
        assert forall|i: int| 0 <= i < calls.len() - 1 implies failure_of(
            #[trigger] calls[i],
        ) is None by {
            if i >= count {
                assert(rest[i - count] == calls[i]);
            }
        }
        if rest.len() > 0 {
            assert(rest.last() == calls.last());
        } else {
            assert(calls.last() == calls[count - 1]);
        }
    } else {
        assert(calls.last() == calls[count - 1]);
    }
}

/// Activation is attempted exactly when everything before it has succeeded: it
/// is the last call then, and otherwise the last call failed. The `build` action
/// never comes to it.
pub proof fn law_activation_is_attempted_after_success(
    plan: SwitchView,
    calls: Seq<Call>,
    result: Result<()>,
)
    requires
        switch_ended(plan, calls, result),
    ensures
        plan.action == "build"@ ==> forall|i: int|
            0 <= i < calls.len() ==> !(#[trigger] calls[i] is Activate),
        plan.action != "build"@ ==> calls.len() > 0 && (calls.last() is Activate
            || failure_of(calls.last()) is Some),
        forall|i: int|
            0 <= i < calls.len() && #[trigger] calls[i] is Activate ==> i == calls.len() - 1
                && calls.len() == switch_steps(plan).len(),
        forall|i: int| 0 <= i < calls.len() - 1 ==> failure_of(#[trigger] calls[i]) is None,
{
    law_switches_go_through_their_steps(plan, calls, result);
    let steps = switch_steps(plan);
    assert forall|i: int| 0 <= i < calls.len() && #[trigger] calls[i] is Activate implies i
        == calls.len() - 1 && calls.len() == steps.len() && plan.action != "build"@ by {
        assert(steps[i] == Step::Activate);
    }
    if plan.action != "build"@ && failure_of(calls.last()) is None {
        assert(outcome(result) is Ok);
        assert(steps.last() == Step::Activate);
    }
}

/// A switch that captures nothing has nothing to do with the cache: neither the
/// publisher nor the verifier is called, and the closure is not looked up.
pub proof fn law_uncaptured_switches_leave_the_cache_alone(
    plan: SwitchView,
    calls: Seq<Call>,
    result: Result<()>,
)
    requires
        switch_ended(plan, calls, result),
        !plan.capture,
    ensures
        forall|i: int|
            0 <= i < calls.len() ==> #[trigger] calls[i] is Build || calls[i] is Activate,
{
    law_switches_go_through_their_steps(plan, calls, result);
    assert forall|i: int| 0 <= i < calls.len() implies #[trigger] calls[i] is Build
        || calls[i] is Activate by {
        assert(step_of(calls[i]) == switch_steps(plan)[i]);
    }
}

/// A switch succeeds only after its captured closure has been published and
/// verified, and, but for the `build` action, after the prepared toplevel has
/// been activated.
pub proof fn law_success_was_published_and_activated(
    plan: SwitchView,
    prepared: PreparedSwitchView,
    calls: Seq<Call>,
    result: Result<()>,
)
    requires
        switch_finished(plan, prepared, calls, result),
        result is Ok,
    ensures
        plan.capture ==> calls.len() >= 2 && calls[0] == (Call::Publish {
            paths: prepared.closure,
            result: Ok(()),
        }) && (calls[1] matches Call::Verify { paths, result: Ok(missing) } && paths
            == prepared.closure && missing.deep_view().len() == 0),
        plan.action != "build"@ ==> calls.len() > 0 && calls.last() == (Call::Activate {
            plan,
            prepared,
            result: Ok(()),
        }),
{
    assert(result->Ok_0 == ());
    if plan.capture {
        let rest = calls.skip(1);
        let last = rest.skip(1);
        assert(calls[0]->Publish_result->Ok_0 == ());
        assert(calls[1] == rest[0]);
        if plan.action != "build"@ {
            assert(last.len() == calls.len() - 2);
            assert(calls.last() == last[0]);
        }
    }
}

/// What is prepared is the toplevel that was built, with the flake ref and the
/// attribute of the switch.
pub proof fn law_prepared_is_what_was_built(
    plan: SwitchView,
    calls: Seq<Call>,
    result: Result<PreparedSwitch>,
)
    requires
        switch_prepared(plan, calls, result),
    ensures
        match result {
            Ok(prepared) => {
                &&& prepared@.frozen_flake == plan.flake_attr
                &&& prepared@.toplevel_attr == plan.toplevel_attr
                &&& calls[0] matches Call::Build { plan: switch, result: Ok(path) } && switch
                    == plan && path@ == prepared@.toplevel
                &&& !plan.capture ==> prepared@.closure.len() == 0
            },
            Err(_) => true,
        },
{
}

/// If the call delivers something, it is the toplevel: its closure, as it was
/// looked up, or what was prepared of it.
pub open spec fn delivers(
    plan: SwitchView,
    toplevel: Seq<char>,
    calls: Seq<Call>,
    call: Call,
) -> bool {
    match call {
        Call::Publish { paths, .. } => looked_up(toplevel, calls, paths),
        Call::Verify { paths, .. } => looked_up(toplevel, calls, paths),
        Call::Activate { plan: switch, prepared, .. } => {
            &&& switch == plan
            &&& prepared.toplevel == toplevel
            &&& prepared.frozen_flake == plan.flake_attr
            &&& prepared.toplevel_attr == plan.toplevel_attr
            &&& prepared == prepared_with(plan, toplevel, prepared.closure)
            &&& if plan.capture {
                looked_up(toplevel, calls, prepared.closure)
            } else {
                prepared.closure.len() == 0
            }
        },
        _ => true,
    }
}

/// The paths were looked up as the closure of the toplevel.
pub open spec fn looked_up(toplevel: Seq<char>, calls: Seq<Call>, paths: Seq<Seq<char>>) -> bool {
    exists|i: int|
        0 <= i < calls.len() && (#[trigger] calls[i] matches Call::Closure {
            toplevel: path,
            result: Ok(closure),
        } && path == toplevel && closure.deep_view() == paths)
}

proof fn lemma_delivers(
    plan: SwitchView,
    toplevel: Seq<char>,
    calls: Seq<Call>,
    count: int,
    prepared: PreparedSwitch,
    result: Result<()>,
)
    requires
        0 <= count <= calls.len(),
        exists|begun: int|
            0 <= begun <= count && #[trigger] preparation_finished(
                plan,
                toplevel,
                calls.subrange(begun, count),
                Ok(prepared),
            ),
        switch_finished(plan, prepared@, calls.skip(count), result),
    ensures
        forall|i: int|
            count <= i < calls.len() ==> delivers(plan, toplevel, calls, #[trigger] calls[i]),
{
    let begun = choose|begun: int|
        0 <= begun <= count && #[trigger] preparation_finished(
            plan,
            toplevel,
            calls.subrange(begun, count),
            Ok(prepared),
        );
    if plan.capture {
        assert(calls.subrange(begun, count)[0] == calls[begun]);
        assert(looked_up(toplevel, calls, prepared@.closure));
    }
    let rest = calls.skip(count);
    lemma_delivering_calls(plan, prepared@, rest, result);
    assert forall|i: int| count <= i < calls.len() implies delivers(
        plan,
        toplevel,
        calls,
        #[trigger] calls[i],
    ) by {
        assert(rest[i - count] == calls[i]);
    }
}

/// Whatever is delivered is exactly what was built: the paths that are published
/// and verified are those that were looked up for the toplevel that was built,
/// and it is that toplevel which is activated.
pub proof fn law_what_was_built_is_delivered(
    plan: SwitchView,
    calls: Seq<Call>,
    result: Result<()>,
)
    requires
        switch_ended(plan, calls, result),
    ensures
        forall|i: int|
            1 <= i < calls.len() ==> (calls[0] matches Call::Build { result: Ok(toplevel), .. }
                && delivers(plan, toplevel@, calls, #[trigger] calls[i])),
{
    let (count, prepared) = choose|count: int, prepared: Result<PreparedSwitch>|
        switch_in(plan, calls, count, prepared, result);
    let first = calls.take(count);
    assert(first[0] == calls[0]);
    if let Call::Build { result: Ok(toplevel), .. } = calls[0] {
        assert(first.skip(1) =~= calls.subrange(1, count));
        if let Ok(switch) = prepared {
            assert(preparation_finished(
                plan,
                toplevel@,
                calls.subrange(1, count),
                Ok(switch),
            ));
            lemma_delivers(plan, toplevel@, calls, count, switch, result);
        }
        assert forall|i: int| 1 <= i < count implies delivers(
            plan,
            toplevel@,
            calls,
            #[trigger] calls[i],
        ) by {
            assert(first.skip(1)[i - 1] == calls[i]);
            assert(first.skip(1)[0] is Closure);
        }
    }
}

/// Whatever a planned switch delivers is exactly what the plan realizes: the
/// paths that are published and verified are those that were looked up for the
/// planned toplevel, and it is that toplevel which is activated.
pub proof fn law_what_was_planned_is_delivered(
    switch: SwitchView,
    plan: PlanView,
    calls: Seq<Call>,
    result: Result<()>,
)
    requires
        planned_switch_ended(switch, plan, calls, result),
    ensures
        forall|i: int|
            0 <= i < calls.len() ==> #[trigger] calls[i] is Run || (planned_toplevel(
                switch,
                plan,
            ) matches Ok(toplevel) && delivers(switch, toplevel, calls, calls[i])),
{
    let (count, prepared) = choose|count: int, prepared: Result<PreparedSwitch>|
        planned_switch_in(switch, plan, calls, count, prepared, result);
    let first = calls.take(count);
    let (ran, executed) = choose|ran: int, executed: Result<()>|
        planned_in(switch, plan, first, ran, executed, prepared);
    assert(first.skip(ran) =~= calls.subrange(ran, count));
    if let Ok(done) = prepared {
        let toplevel = planned_toplevel(switch, plan)->Ok_0;
        assert(preparation_finished(switch, toplevel, calls.subrange(ran, count), Ok(done)));
        lemma_delivers(switch, toplevel, calls, count, done, result);
    }
    assert forall|i: int| 0 <= i < count implies #[trigger] calls[i] is Run || (planned_toplevel(
        switch,
        plan,
    ) matches Ok(toplevel) && delivers(switch, toplevel, calls, calls[i])) by {
        if i < ran {
            assert(first.take(ran)[i] == calls[i]);
        } else {
            assert(first.skip(ran)[i - ran] == calls[i]);
            assert(first.skip(ran)[0] is Closure);
        }
    }
}

/// A plan for another installable is refused before anything is called: no
/// command is run, nothing is published, verified or activated.
pub proof fn law_plans_for_others_are_refused(
    switch: SwitchView,
    plan: PlanView,
    calls: Seq<Call>,
    result: Result<()>,
)
    requires
        planned_switch_ended(switch, plan, calls, result),
        plan.toplevel_installable != switch.toplevel_attr || plan.flake_installable
            != switch.flake_attr,
    ensures
        calls.len() == 0,
        identity_refusal(switch, plan) matches Some(error) && outcome(result) == Err::<
            (),
            ErrorView,
        >(error),
{
    let (count, prepared) = choose|count: int, prepared: Result<PreparedSwitch>|
        planned_switch_in(switch, plan, calls, count, prepared, result);
    let (ran, executed) = choose|ran: int, executed: Result<()>|
        planned_in(switch, plan, calls.take(count), ran, executed, prepared);
    assert(calls.take(count).take(ran).len() == ran);
}

/// A plan is executed once: its commands are run at the beginning, each once and
/// in order, and no command is run after that. Where they all succeed, the
/// closure is looked up next, and then what was prepared is delivered.
pub proof fn law_plans_are_executed_once(
    switch: SwitchView,
    plan: PlanView,
    calls: Seq<Call>,
    result: Result<()>,
) -> (ran: int)
    requires
        planned_switch_ended(switch, plan, calls, result),
    ensures
        0 <= ran <= calls.len(),
        exists|executed: Result<()>|
            carried_out(commands_for_switch(switch, plan), calls.take(ran), executed) && (
            executed is Err ==> ran == calls.len() && outcome(result) == outcome(executed)),
        forall|i: int| ran <= i < calls.len() ==> !(#[trigger] calls[i] is Run),
        !switch.capture ==> forall|i: int|
            ran <= i < calls.len() ==> #[trigger] calls[i] is Activate,
{
    let (count, prepared) = choose|count: int, prepared: Result<PreparedSwitch>|
        planned_switch_in(switch, plan, calls, count, prepared, result);
    let first = calls.take(count);
    let (ran, executed) = choose|ran: int, executed: Result<()>|
        planned_in(switch, plan, first, ran, executed, prepared);
    assert(first.take(ran) =~= calls.take(ran));
    assert(carried_out(commands_for_switch(switch, plan), calls.take(ran), executed));
    if let Ok(toplevel) = prepared {
        lemma_delivering_calls(switch, toplevel@, calls.skip(count), result);
    }
    assert forall|i: int| ran <= i < calls.len() implies !(#[trigger] calls[i] is Run) by {
        if i < count {
            assert(first.skip(ran)[i - ran] == calls[i]);
            assert(first.skip(ran)[0] is Closure);
        } else {
            assert(calls.skip(count)[i - count] == calls[i]);
        }
    }
    if !switch.capture {
        assert(first.skip(ran).len() == count - ran);
        assert forall|i: int| ran <= i < calls.len() implies #[trigger] calls[i] is Activate by {
            assert(calls.skip(count)[i - count] == calls[i]);
        }
    }
    ran
}

/// A failure ends a planned switch and is its result. Activation, if it is
/// attempted, comes last, so everything before it has succeeded; a switch
/// succeeds only with it, but for the `build` action, which never comes to it.
pub proof fn law_planned_switches_stop_at_a_failure(
    switch: SwitchView,
    plan: PlanView,
    calls: Seq<Call>,
    result: Result<()>,
)
    requires
        planned_switch_ended(switch, plan, calls, result),
    ensures
        forall|i: int| 0 <= i < calls.len() - 1 ==> failure_of(#[trigger] calls[i]) is None,
        calls.len() > 0 ==> match failure_of(calls.last()) {
            Some(error) => outcome(result) == Err::<(), ErrorView>(error),
            None => true,
        },
        forall|i: int|
            0 <= i < calls.len() && #[trigger] calls[i] is Activate ==> i == calls.len() - 1
                && switch.action != "build"@,
        result is Ok && switch.action != "build"@ ==> calls.len() > 0 && calls.last() is Activate,
{
    let (count, prepared) = choose|count: int, prepared: Result<PreparedSwitch>|
        planned_switch_in(switch, plan, calls, count, prepared, result);
    let first = calls.take(count);
    let rest = calls.skip(count);
    let (ran, executed) = choose|ran: int, executed: Result<()>|
        planned_in(switch, plan, first, ran, executed, prepared);
    assert forall|i: int| 0 <= i < ran implies #[trigger] calls[i] is Run && (failure_of(
        calls[i],
    ) is Some ==> i == ran - 1 && executed is Err && failure_of(calls[i]) == Some(
        executed->Err_0@,
    )) by {
        assert(first.take(ran)[i] == calls[i]);
    }
    assert forall|i: int| ran <= i < count implies #[trigger] calls[i] is Closure && i == ran && i
        == count - 1 && (failure_of(calls[i]) is Some ==> prepared is Err && failure_of(calls[i])
        == Some(prepared->Err_0@)) by {
        assert(first.skip(ran)[i - ran] == calls[i]);
        assert(first.skip(ran).len() == count - ran);
    }
    if let Ok(toplevel) = prepared {
        lemma_delivery_goes_through(switch, toplevel@, rest, result);
        lemma_delivering_calls(switch, toplevel@, rest, result);
        assert forall|i: int| count <= i < calls.len() implies #[trigger] calls[i] == rest[i
            - count] by {
        }
        if rest.len() > 0 {
            assert(rest.last() == calls.last());
        }
        assert forall|i: int|
            0 <= i < calls.len() && #[trigger] calls[i] is Activate implies i == calls.len() - 1
            && switch.action != "build"@ by {
            if i >= count {
                let steps = delivery_steps(switch);
                assert(step_of(rest[i - count]) == steps[i - count]);
                assert(steps[i - count] == Step::Activate);
            }
        }
        if result is Ok && switch.action != "build"@ {
            assert(delivery_steps(switch).last() == Step::Activate);
        }
    }
}

proof fn lemma_derivation_at(derivations: Seq<DerivationView>, at: int)
    requires
        planned(derivations).no_duplicates(),
        0 <= at < derivations.len(),
    ensures
        derivation_at(derivations, derivations[at].drv) == Some(derivations[at]),
    decreases derivations.len(),
{
    if at > 0 {
        let rest = derivations.drop_first();
        assert(planned(derivations)[0] != planned(derivations)[at]);
        assert forall|i: int, j: int|
            0 <= i < rest.len() && 0 <= j < rest.len() && i != j implies planned(rest)[i]
            != planned(rest)[j] by {
            assert(planned(rest)[i] == planned(derivations)[i + 1]);
            assert(planned(rest)[j] == planned(derivations)[j + 1]);
        }
        lemma_derivation_at(rest, at - 1);
    }
}

proof fn lemma_action_for(actions: Seq<ActionView>, at: int)
    requires
        0 <= at < actions.len(),
    ensures
        action_for(actions, actions[at].output) is Some,
    decreases actions.len(),
{
    if actions[0].output != actions[at].output {
        lemma_action_for(actions.drop_first(), at - 1);
    }
}

/// The toplevel of a plan that realizes its roots is found if and only if the
/// plan asks for one output of one root. Finished plans realize their roots.
pub proof fn law_one_realized_output_is_the_toplevel(switch: SwitchView, plan: PlanView)
    requires
        realizes_roots(plan),
    ensures
        planned_toplevel(switch, plan) is Ok <==> plan.roots.len() == 1
            && plan.roots[0].outputs.len() == 1,
{
    if plan.roots.len() == 1 && plan.roots[0].outputs.len() == 1 {
        let root = plan.roots[0];
        let output = root.outputs[0];
        assert(plan.roots[0].outputs[0] == output);
        let (i, j) = choose|i: int, j: int|
            0 <= i < plan.derivations.len() && plan.derivations[i].drv == root.drv && 0 <= j
                < plan.derivations[i].actions.len()
                && #[trigger] plan.derivations[i].actions[j].output == output;
        lemma_derivation_at(plan.derivations, i);
        lemma_action_for(plan.derivations[i].actions, j);
    }
}

proof fn lemma_joined_determines(left: Seq<Seq<char>>, right: Seq<Seq<char>>, separator: char)
    requires
        left.len() > 0,
        right.len() > 0,
        forall|i: int| 0 <= i < left.len() ==> !(#[trigger] left[i]).contains(separator),
        forall|i: int| 0 <= i < right.len() ==> !(#[trigger] right[i]).contains(separator),
        text::joined(left, seq![separator]) == text::joined(right, seq![separator]),
    ensures
        left == right,
    decreases left.len(),
{
    let all = text::joined(left, seq![separator]);
    lemma_last_part(left, separator);
    lemma_last_part(right, separator);
    assert(left.last() == right.last());
    if left.len() == 1 || right.len() == 1 {
        assert(left =~= right);
    } else {
        let earlier = left.drop_last();
        let others = right.drop_last();
        assert forall|i: int| 0 <= i < earlier.len() implies !(
        #[trigger] earlier[i]).contains(separator) by {
            assert(earlier[i] == left[i]);
        }
        assert forall|i: int| 0 <= i < others.len() implies !(#[trigger] others[i]).contains(
            separator,
        ) by {
            assert(others[i] == right[i]);
        }
        lemma_joined_determines(earlier, others, separator);
        assert(earlier.push(left.last()) =~= left);
        assert(others.push(right.last()) =~= right);
    }
}

/// Where the last part of joined parts begins.
proof fn lemma_last_part(parts: Seq<Seq<char>>, separator: char)
    requires
        parts.len() > 0,
        forall|i: int| 0 <= i < parts.len() ==> !(#[trigger] parts[i]).contains(separator),
    ensures
        ({
            let all = text::joined(parts, seq![separator]);
            let at = text::last_index(all, separator);
            &&& at == -1 <==> parts.len() == 1
            &&& parts.last() == all.skip(at + 1)
            &&& parts.len() > 1 ==> text::joined(parts.drop_last(), seq![separator]) == all.take(at)
        }),
{
    let all = text::joined(parts, seq![separator]);
    let last = parts.last();
    assert(!parts[parts.len() - 1].contains(separator));
    if parts.len() == 1 {
        text::lemma_last_index(all, separator);
        assert(all.skip(0) =~= all);
    } else {
        let earlier = text::joined(parts.drop_last(), seq![separator]);
        let at = earlier.len() as int;
        assert(all == earlier + seq![separator] + last);
        assert(all[at] == separator);
        assert forall|i: int| at < i < all.len() implies #[trigger] all[i] != separator by {
            assert(all[i] == last[i - at - 1]);
        }
        text::lemma_last_index_is(all, separator, at);
        assert(all.skip(at + 1) =~= last);
        assert(all.take(at) =~= earlier);
    }
}

/// The fingerprinted bytes determine the flake ref, the attribute, the toplevel
/// and the closure, as long as none of them holds a zero character.
pub proof fn law_fingerprint_input_determines_switch(
    left: SwitchView,
    left_toplevel: Seq<char>,
    left_closure: Seq<Seq<char>>,
    right: SwitchView,
    right_toplevel: Seq<char>,
    right_closure: Seq<Seq<char>>,
)
    requires
        fingerprint_bytes(left, left_toplevel, left_closure) == fingerprint_bytes(
            right,
            right_toplevel,
            right_closure,
        ),
        forall|i: int|
            0 <= i < left_closure.len() + 3 ==> !(#[trigger] fingerprint_parts(
                left,
                left_toplevel,
                left_closure,
            )[i]).contains('\0'),
        forall|i: int|
            0 <= i < right_closure.len() + 3 ==> !(#[trigger] fingerprint_parts(
                right,
                right_toplevel,
                right_closure,
            )[i]).contains('\0'),
    ensures
        left.flake_attr == right.flake_attr,
        left.toplevel_attr == right.toplevel_attr,
        left_toplevel == right_toplevel,
        left_closure == right_closure,
{
    reveal_strlit("\0");
    assert("\0"@ =~= seq!['\0']);
    let these = fingerprint_parts(left, left_toplevel, left_closure);
    let those = fingerprint_parts(right, right_toplevel, right_closure);
    encode_utf8_decode_utf8(text::joined(these, "\0"@));
    encode_utf8_decode_utf8(text::joined(those, "\0"@));
    lemma_joined_determines(these, those, '\0');
    assert(these[0] == those[0] && these[1] == those[1] && these[2] == those[2]);
    assert(these.skip(3) =~= left_closure);
    assert(those.skip(3) =~= right_closure);
}

/// A plan is for a switch if and only if it is for its toplevel and its flake;
/// otherwise the error names what differs, the toplevel first.
pub proof fn law_plans_are_for_one_toplevel_and_flake(switch: SwitchView, plan: PlanView)
    ensures
        plan.toplevel_installable == switch.toplevel_attr && plan.flake_installable
            == switch.flake_attr <==> identity_refusal(switch, plan) is None,
        plan.toplevel_installable != switch.toplevel_attr ==> identity_refusal(switch, plan)
            == Some(
            ErrorView::PlanIdentityMismatch {
                field: "toplevel_installable"@,
                planned: plan.toplevel_installable,
                requested: switch.toplevel_attr,
            },
        ),
        plan.toplevel_installable == switch.toplevel_attr && plan.flake_installable
            != switch.flake_attr ==> identity_refusal(switch, plan) == Some(
            ErrorView::PlanIdentityMismatch {
                field: "flake_installable"@,
                planned: plan.flake_installable,
                requested: switch.flake_attr,
            },
        ),
        identity_refusal(switch, plan) is None ==> commands_for_switch(switch, plan)
            == planned_commands(plan, switch.max_jobs),
        identity_refusal(switch, plan) matches Some(error) ==> commands_for_switch(switch, plan)
            == Err::<Seq<CommandView>, ErrorView>(error),
{
}

/// The toplevel of a plan is the path of the output that it was asked for: of the
/// first action for it, in the first derivation of the root.
pub proof fn law_the_toplevel_is_the_requested_output(
    switch: SwitchView,
    plan: PlanView,
    i: int,
    j: int,
)
    requires
        plan.roots.len() == 1,
        plan.roots[0].outputs.len() == 1,
        0 <= i < plan.derivations.len(),
        plan.derivations[i].drv == plan.roots[0].drv,
        forall|k: int|
            0 <= k < i ==> (#[trigger] plan.derivations[k]).drv != plan.roots[0].drv,
        0 <= j < plan.derivations[i].actions.len(),
        plan.derivations[i].actions[j].output == plan.roots[0].outputs[0],
        forall|k: int|
            0 <= k < j ==> (#[trigger] plan.derivations[i].actions[k]).output
                != plan.roots[0].outputs[0],
    ensures
        planned_toplevel(switch, plan) == Ok::<Seq<char>, ErrorView>(
            plan.derivations[i].actions[j].path,
        ),
{
    lemma_first_derivation(plan.derivations, plan.roots[0].drv, i);
    lemma_first_action(plan.derivations[i].actions, plan.roots[0].outputs[0], j);
}

proof fn lemma_first_derivation(derivations: Seq<DerivationView>, drv: Seq<char>, i: int)
    requires
        0 <= i < derivations.len(),
        derivations[i].drv == drv,
        forall|k: int| 0 <= k < i ==> (#[trigger] derivations[k]).drv != drv,
    ensures
        derivation_at(derivations, drv) == Some(derivations[i]),
    decreases i,
{
    if i > 0 {
        let rest = derivations.drop_first();
        assert(derivations[0].drv != drv);
        assert forall|k: int| 0 <= k < i - 1 implies (#[trigger] rest[k]).drv != drv by {
            assert(rest[k] == derivations[k + 1]);
        }
        lemma_first_derivation(rest, drv, i - 1);
    }
}

proof fn lemma_first_action(actions: Seq<ActionView>, output: Seq<char>, j: int)
    requires
        0 <= j < actions.len(),
        actions[j].output == output,
        forall|k: int| 0 <= k < j ==> (#[trigger] actions[k]).output != output,
    ensures
        action_for(actions, output) == Some(actions[j]),
    decreases j,
{
    if j > 0 {
        let rest = actions.drop_first();
        assert(actions[0].output != output);
        assert forall|k: int| 0 <= k < j - 1 implies (#[trigger] rest[k]).output != output by {
            assert(rest[k] == actions[k + 1]);
        }
        lemma_first_action(rest, output, j - 1);
    }
}

/// A plan that was not asked for one output of one root has no toplevel, and the
/// error says which it lacks.
pub proof fn law_other_plans_have_no_toplevel(switch: SwitchView, plan: PlanView)
    ensures
        plan.roots.len() != 1 ==> planned_toplevel(switch, plan) == Err::<Seq<char>, ErrorView>(
            ErrorView::PlannerMissingOutput {
                drv: switch.toplevel_attr,
                output: "single requested root"@,
            },
        ),
        plan.roots.len() == 1 && plan.roots[0].outputs.len() != 1 ==> planned_toplevel(switch, plan)
            == Err::<Seq<char>, ErrorView>(
            ErrorView::PlannerMissingOutput {
                drv: plan.roots[0].drv,
                output: "single requested output"@,
            },
        ),
        plan.roots.len() == 1 && plan.roots[0].outputs.len() == 1 ==> (planned_toplevel(
            switch,
            plan,
        ) matches Err(error) ==> error == (ErrorView::PlannerMissingOutput {
            drv: plan.roots[0].drv,
            output: plan.roots[0].outputs[0],
        })),
{
}

/// The fingerprint of what was prepared is the digest of the flake, of the
/// attribute, of the toplevel and of every path of the closure, in this order,
/// with a zero between neighbours.
pub proof fn law_fingerprints_are_of_every_part(
    plan: SwitchView,
    toplevel: Seq<char>,
    closure: Seq<Seq<char>>,
)
    ensures
        prepared_with(plan, toplevel, closure).fingerprint == digest_name(
            encode_utf8(
                text::joined(
                    seq![plan.flake_attr, plan.toplevel_attr, toplevel] + closure,
                    seq!['\0'],
                ),
            ),
        ),
        prepared_with(plan, toplevel, closure).closure == closure,
        prepared_with(plan, toplevel, closure).toplevel == toplevel,
{
    reveal_strlit("\0");
    assert("\0"@ =~= seq!['\0']);
}

/// What was prepared is delivered step by step. A captured closure is published,
/// and verified once it was published; paths that are missing then, or a step
/// that fails, end the delivery. What is left is activated, but for the `build`
/// action, and the result is that of the activation.
pub proof fn law_each_step_needs_the_one_before(
    plan: SwitchView,
    prepared: PreparedSwitchView,
    calls: Seq<Call>,
    result: Result<()>,
)
    requires
        switch_finished(plan, prepared, calls, result),
    ensures
        !plan.capture && plan.action == "build"@ ==> calls.len() == 0 && result is Ok,
        !plan.capture && plan.action != "build"@ ==> calls == seq![
            Call::Activate { plan, prepared, result },
        ],
        plan.capture ==> calls.len() > 0 && (calls[0] matches Call::Publish {
            paths,
            result: published,
        } && paths == prepared.closure && (published is Err ==> calls.len() == 1 && result
            == published) && (published is Ok ==> calls.len() > 1 && (calls[1] matches Call::Verify {
            paths: verified,
            result: answer,
        } && verified == prepared.closure && match answer {
            Err(error) => calls.len() == 2 && result == Err::<(), Error>(error),
            Ok(missing) => if missing.deep_view().len() > 0 {
                calls.len() == 2 && outcome(result) == Err::<(), ErrorView>(
                    missing_paths(missing.deep_view()),
                )
            } else if plan.action == "build"@ {
                calls.len() == 2 && result is Ok
            } else {
                calls.len() == 3 && calls[2] == (Call::Activate { plan, prepared, result })
            },
        }))),
{
    if plan.capture && calls.len() > 1 {
        let rest = calls.skip(1);
        assert(rest[0] == calls[1]);
        assert(rest.len() == calls.len() - 1);
        let last = rest.skip(1);
        assert(last.len() == calls.len() - 2);
        if calls.len() > 2 {
            assert(last[0] == calls[2]);
        }
    }
}

/// A switch is prepared by building it. A build that fails is the result. The
/// closure of what was built is looked up if and only if it is captured, and is
/// the closure of what is prepared as it was found.
pub proof fn law_closures_are_captured_as_found(
    plan: SwitchView,
    calls: Seq<Call>,
    result: Result<PreparedSwitch>,
)
    requires
        switch_prepared(plan, calls, result),
    ensures
        calls.len() > 0,
        calls[0] matches Call::Build { plan: switch, result: built } && switch == plan
            && match built {
            Err(error) => calls.len() == 1 && result == Err::<PreparedSwitch, Error>(error),
            Ok(toplevel) => if plan.capture {
                calls.len() == 2 && (calls[1] matches Call::Closure { toplevel: path, result: found }
                    && path == toplevel@ && match found {
                    Err(error) => result == Err::<PreparedSwitch, Error>(error),
                    Ok(paths) => result matches Ok(prepared) && prepared@.toplevel == toplevel@
                        && prepared@.closure == paths.deep_view(),
                })
            } else {
                calls.len() == 1 && (result matches Ok(prepared) && prepared@.toplevel == toplevel@
                    && prepared@.closure.len() == 0)
            },
        },
{
    let rest = calls.skip(1);
    assert(rest.len() == calls.len() - 1);
    if calls.len() > 1 {
        assert(rest[0] == calls[1]);
    }
}

/// A runner that could not have ended so on the switch, the toplevel or what was
/// prepared was not handed it with that end.
pub proof fn law_runners_are_handed_the_switch<R: Runner>(
    runner: &R,
    plan: SwitchView,
    prepared: PreparedSwitchView,
    toplevel: Seq<char>,
    path: Result<String>,
    closure: Result<Vec<String>>,
    ended: Result<()>,
)
    ensures
        (forall|switch: &SwitchPlan<'_>|
            switch@ == plan ==> !#[trigger] call_ensures(
                R::build_toplevel,
                (runner, switch),
                path,
            )) ==> !built(runner, plan, path),
        (forall|built: &str|
            built@ == toplevel ==> !#[trigger] call_ensures(
                R::closure_to_publish,
                (runner, built),
                closure,
            )) ==> !closed(runner, toplevel, closure),
        (forall|switch: &SwitchPlan<'_>, done: &PreparedSwitch|
            switch@ == plan && done@ == prepared ==> !#[trigger] call_ensures(
                R::activate,
                (runner, switch, done),
                ended,
            )) ==> !activated(runner, plan, prepared, ended),
{
}

} // verus!
