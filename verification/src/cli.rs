//! Command-line arguments: what an invocation asks for.

use vstd::prelude::*;

use crate::calls::{cache_gave, calls_since, runner_gave, Call, Calls};
use crate::error::{outcome, Error, ErrorView, Result};
use crate::planner::plan::{
    ClosurePlan, DerivationClass, DerivationView, HintView, MissRoute, PlanView, RouteHintSpec,
};
use crate::policy::{PolicyView, RealizationPolicy};
use crate::publish::{published, verified, Publisher, TrustPublish, Verifier};
use crate::request::{PreparedSwitch, SwitchPlan, SwitchView};
use crate::switch::{
    failure_of, law_switches_go_through_their_steps, run_cache_shaped_switch, step_of,
    switch_ended, switch_steps, Runner, Step,
};
use crate::text;

verus! {

/// Parsed options for one `crossbow-switch` CLI invocation.
#[derive(Debug, Clone, PartialEq, Eq)]
pub struct CliOptions {
    /// Rebuild action passed to `nixos-rebuild`.
    pub action: String,
    /// Flake reference passed to `nixos-rebuild --flake`.
    pub flake_attr: String,
    /// Attribute built first to realise the system toplevel.
    pub toplevel_attr: String,
    /// Optional SSH target passed to `nixos-rebuild --target-host`.
    pub target_ssh: Option<String>,
    /// Whether activation should pass `--use-substitutes`.
    pub use_substitutes: bool,
    /// Whether the closure should be published and verified before activation.
    pub capture: bool,
    /// Whether local activation should run `nixos-rebuild` through `sudo`.
    pub sudo: bool,
    /// Whether remote activation should run through sudo on the target host.
    pub remote_sudo: bool,
    /// Shell command that receives store paths on stdin and publishes them.
    pub publish_command: Option<String>,
    /// Shell command that receives store paths on stdin and prints missing paths.
    pub verify_command: Option<String>,
    /// --max-jobs value for nix build, caps build parallelism.
    pub max_jobs: Option<u32>,
    /// Explicit policy for realizing missing host-system derivations.
    pub realization_policy: RealizationPolicy,
}

/// Model of [`CliOptions`].
#[verifier::ext_equal]
pub struct CliView {
    pub action: Seq<char>,
    pub flake_attr: Seq<char>,
    pub toplevel_attr: Seq<char>,
    pub target_ssh: Option<Seq<char>>,
    pub use_substitutes: bool,
    pub capture: bool,
    pub sudo: bool,
    pub remote_sudo: bool,
    pub publish_command: Option<Seq<char>>,
    pub verify_command: Option<Seq<char>>,
    pub max_jobs: Option<u32>,
    pub realization_policy: PolicyView,
}

impl View for CliOptions {
    type V = CliView;

    open spec fn view(&self) -> CliView {
        CliView {
            action: self.action@,
            flake_attr: self.flake_attr@,
            toplevel_attr: self.toplevel_attr@,
            target_ssh: self.target_ssh.deep_view(),
            use_substitutes: self.use_substitutes,
            capture: self.capture,
            sudo: self.sudo,
            remote_sudo: self.remote_sudo,
            publish_command: self.publish_command.deep_view(),
            verify_command: self.verify_command.deep_view(),
            max_jobs: self.max_jobs,
            realization_policy: self.realization_policy@,
        }
    }
}

impl DeepView for CliOptions {
    type V = CliView;

    open spec fn deep_view(&self) -> CliView {
        self@
    }
}

/// Parsed options for the read-only structured planner.
#[derive(Debug, Clone, PartialEq, Eq)]
pub struct PlanOptions {
    /// Toplevel installable whose complete derivation closure is planned.
    pub toplevel_attr: String,
    /// Crossbow build-host system.
    pub build_system: String,
    /// Target host system.
    pub host_system: String,
    /// Store URLs used for read-only cache probes.
    pub substituters: Vec<String>,
    /// Whether to emit the complete machine-readable report.
    pub json: bool,
    /// Explicit policy for missing derivations.
    pub realization_policy: RealizationPolicy,
    /// Runtime route hints binding installables to miss routes.
    pub route_hints: Vec<RouteHintSpec>,
}

/// Model of [`PlanOptions`].
#[verifier::ext_equal]
pub struct PlanOptionsView {
    pub toplevel_attr: Seq<char>,
    pub build_system: Seq<char>,
    pub host_system: Seq<char>,
    pub substituters: Seq<Seq<char>>,
    pub json: bool,
    pub realization_policy: PolicyView,
    pub route_hints: Seq<HintView>,
}

impl View for PlanOptions {
    type V = PlanOptionsView;

    open spec fn view(&self) -> PlanOptionsView {
        PlanOptionsView {
            toplevel_attr: self.toplevel_attr@,
            build_system: self.build_system@,
            host_system: self.host_system@,
            substituters: self.substituters.deep_view(),
            json: self.json,
            realization_policy: self.realization_policy@,
            route_hints: self.route_hints.deep_view(),
        }
    }
}

impl DeepView for PlanOptions {
    type V = PlanOptionsView;

    open spec fn deep_view(&self) -> PlanOptionsView {
        self@
    }
}

// ---------------------------------------------------------------------------
// Usage
// ---------------------------------------------------------------------------

/// The usage text of a switch.
pub open spec fn usage_text() -> Seq<char> {
    "usage: crossbow-switch --flake <flake-attr> --toplevel <toplevel-attr> [--action switch|boot|test|build] [--target-host <ssh-host>] [--use-substitutes] [--use-remote-sudo] [--capture --publish-command <command>] [--verify-command <command>] [--sudo] [--max-jobs <N>] [--realization-policy substitute-only|remote-native] [--remote-builder <builder-spec>]"@
}

/// The usage text of the planner.
pub open spec fn plan_usage_text() -> Seq<char> {
    "usage: crossbow-switch plan --toplevel <toplevel-attr> --build-system <system> --host-system <system> --substituter <store> [--substituter <store> ...] [--json] [--realization-policy substitute-only|remote-native] [--remote-builder <builder-spec>] [--route-hint <label>@<installable>:<fail|build-local|remote-native>] [--skip-probe <label>]"@
}

/// Returns the command-line usage string.
#[must_use]
pub fn usage() -> (result: &'static str)
    ensures
        result@ == usage_text(),
{
    "usage: crossbow-switch --flake <flake-attr> --toplevel <toplevel-attr> [--action switch|boot|test|build] [--target-host <ssh-host>] [--use-substitutes] [--use-remote-sudo] [--capture --publish-command <command>] [--verify-command <command>] [--sudo] [--max-jobs <N>] [--realization-policy substitute-only|remote-native] [--remote-builder <builder-spec>]"
}

/// Returns the usage string for the read-only planner.
#[must_use]
pub fn plan_usage() -> (result: &'static str)
    ensures
        result@ == plan_usage_text(),
{
    "usage: crossbow-switch plan --toplevel <toplevel-attr> --build-system <system> --host-system <system> --substituter <store> [--substituter <store> ...] [--json] [--realization-policy substitute-only|remote-native] [--remote-builder <builder-spec>] [--route-hint <label>@<installable>:<fail|build-local|remote-native>] [--skip-probe <label>]"
}

// ---------------------------------------------------------------------------
// Values
// ---------------------------------------------------------------------------

/// The value of a flag: the argument behind it, unless there is none or it is
/// a flag itself.
pub open spec fn value_at(args: Seq<Seq<char>>, at: int, flag: Seq<char>) -> std::result::Result<
    Seq<char>,
    ErrorView,
> {
    if at < args.len() && !"--"@.is_prefix_of(args[at]) {
        Ok(args[at])
    } else {
        Err(ErrorView::MissingArgumentValue { flag })
    }
}

/// The value of a flag.
pub fn required_value<'a>(args: &'a [String], index: usize, flag: &str) -> (result: Result<&'a str>)
    ensures
        outcome(result) == value_at(args.deep_view(), index as int, flag@),
{
    if index >= args.len() {
        return Err(Error::MissingArgumentValue { flag: flag.to_owned() });
    }
    assert(args.deep_view()[index as int] == args@[index as int]@);
    if text::starts_with(args[index].as_str(), "--") {
        return Err(Error::MissingArgumentValue { flag: flag.to_owned() });
    }
    Ok(args[index].as_str())
}

/// The policy that two flags describe.
pub open spec fn policy_named(policy: Seq<char>, builders: Seq<Seq<char>>) -> std::result::Result<
    PolicyView,
    ErrorView,
> {
    if policy == "substitute-only"@ && builders.len() == 0 {
        Ok(PolicyView::SubstituteOnly)
    } else if policy == "remote-native"@ {
        Ok(PolicyView::RemoteNative { builders })
    } else {
        Err(ErrorView::InvalidRealizationPolicy { value: policy })
    }
}

fn parse_policy(policy: String, builders: Vec<String>) -> (result: Result<RealizationPolicy>)
    ensures
        outcome(result) == policy_named(policy@, builders.deep_view()),
{
    if text::same(policy.as_str(), "substitute-only") && builders.len() == 0 {
        Ok(RealizationPolicy::SubstituteOnly)
    } else if text::same(policy.as_str(), "remote-native") {
        Ok(RealizationPolicy::RemoteNative { builders })
    } else {
        Err(Error::InvalidRealizationPolicy { value: policy })
    }
}

/// A text that must be there.
pub open spec fn present(value: Option<Seq<char>>, flag: Seq<char>) -> std::result::Result<
    Seq<char>,
    ErrorView,
> {
    match value {
        Some(value) => Ok(value),
        None => Err(ErrorView::MissingRequiredArgument { flag }),
    }
}

fn require(value: Option<String>, flag: &str) -> (result: Result<String>)
    ensures
        outcome(result) == present(value.deep_view(), flag@),
{
    match value {
        Some(value) => Ok(value),
        None => Err(Error::MissingRequiredArgument { flag: flag.to_owned() }),
    }
}

// ---------------------------------------------------------------------------
// Switch
// ---------------------------------------------------------------------------

/// What the arguments of a switch have said so far.
struct SwitchArgs {
    action: String,
    flake_attr: Option<String>,
    toplevel_attr: Option<String>,
    target_ssh: Option<String>,
    use_substitutes: bool,
    capture: bool,
    sudo: bool,
    remote_sudo: bool,
    publish_command: Option<String>,
    verify_command: Option<String>,
    max_jobs: Option<u32>,
    policy: String,
    builders: Vec<String>,
}

/// Model of what the arguments of a switch have said so far.
#[verifier::ext_equal]
pub struct SwitchArgsView {
    pub action: Seq<char>,
    pub flake_attr: Option<Seq<char>>,
    pub toplevel_attr: Option<Seq<char>>,
    pub target_ssh: Option<Seq<char>>,
    pub use_substitutes: bool,
    pub capture: bool,
    pub sudo: bool,
    pub remote_sudo: bool,
    pub publish_command: Option<Seq<char>>,
    pub verify_command: Option<Seq<char>>,
    pub max_jobs: Option<u32>,
    pub policy: Seq<char>,
    pub builders: Seq<Seq<char>>,
}

impl View for SwitchArgs {
    type V = SwitchArgsView;

    closed spec fn view(&self) -> SwitchArgsView {
        SwitchArgsView {
            action: self.action@,
            flake_attr: self.flake_attr.deep_view(),
            toplevel_attr: self.toplevel_attr.deep_view(),
            target_ssh: self.target_ssh.deep_view(),
            use_substitutes: self.use_substitutes,
            capture: self.capture,
            sudo: self.sudo,
            remote_sudo: self.remote_sudo,
            publish_command: self.publish_command.deep_view(),
            verify_command: self.verify_command.deep_view(),
            max_jobs: self.max_jobs,
            policy: self.policy@,
            builders: self.builders.deep_view(),
        }
    }
}

impl DeepView for SwitchArgs {
    type V = SwitchArgsView;

    open spec fn deep_view(&self) -> SwitchArgsView {
        self@
    }
}

/// What holds when no argument says otherwise.
pub open spec fn switch_defaults() -> SwitchArgsView {
    SwitchArgsView {
        action: "switch"@,
        flake_attr: None,
        toplevel_attr: None,
        target_ssh: None,
        use_substitutes: false,
        capture: false,
        sudo: false,
        remote_sudo: false,
        publish_command: None,
        verify_command: None,
        max_jobs: None,
        policy: "substitute-only"@,
        builders: Seq::empty(),
    }
}

/// The flags of a switch that take a value.
pub open spec fn switch_flag_takes_value(flag: Seq<char>) -> bool {
    ||| flag == "--action"@
    ||| flag == "--flake"@
    ||| flag == "--toplevel"@
    ||| flag == "--target-host"@
    ||| flag == "--publish-command"@
    ||| flag == "--verify-command"@
    ||| flag == "--max-jobs"@
    ||| flag == "--realization-policy"@
    ||| flag == "--remote-builder"@
}

/// What holds once a flag with a value has been read.
pub open spec fn switch_with_value(
    args: SwitchArgsView,
    flag: Seq<char>,
    value: Seq<char>,
) -> std::result::Result<SwitchArgsView, ErrorView> {
    if flag == "--action"@ {
        Ok(SwitchArgsView { action: value, ..args })
    } else if flag == "--flake"@ {
        Ok(SwitchArgsView { flake_attr: Some(value), ..args })
    } else if flag == "--toplevel"@ {
        Ok(SwitchArgsView { toplevel_attr: Some(value), ..args })
    } else if flag == "--target-host"@ {
        Ok(SwitchArgsView { target_ssh: Some(value), ..args })
    } else if flag == "--publish-command"@ {
        Ok(SwitchArgsView { publish_command: Some(value), ..args })
    } else if flag == "--verify-command"@ {
        Ok(SwitchArgsView { verify_command: Some(value), ..args })
    } else if flag == "--max-jobs"@ {
        match text::u32_value(value) {
            Some(jobs) => Ok(SwitchArgsView { max_jobs: Some(jobs), ..args }),
            None => Err(ErrorView::InvalidMaxJobs { value }),
        }
    } else if flag == "--realization-policy"@ {
        Ok(SwitchArgsView { policy: value, ..args })
    } else {
        Ok(SwitchArgsView { builders: args.builders.push(value), ..args })
    }
}

/// What holds once a flag without a value has been read.
pub open spec fn switch_with_flag(args: SwitchArgsView, flag: Seq<char>) -> std::result::Result<
    SwitchArgsView,
    ErrorView,
> {
    if flag == "--use-substitutes"@ {
        Ok(SwitchArgsView { use_substitutes: true, ..args })
    } else if flag == "--use-remote-sudo"@ {
        Ok(SwitchArgsView { remote_sudo: true, ..args })
    } else if flag == "--capture"@ {
        Ok(SwitchArgsView { capture: true, ..args })
    } else if flag == "--no-capture"@ {
        Ok(SwitchArgsView { capture: false, ..args })
    } else if flag == "--sudo"@ {
        Ok(SwitchArgsView { sudo: true, ..args })
    } else {
        Err(ErrorView::UnknownArgument { argument: flag, usage: usage_text() })
    }
}

/// What the arguments from `at` on say.
pub open spec fn switch_scanned(
    said: SwitchArgsView,
    args: Seq<Seq<char>>,
    at: int,
) -> std::result::Result<SwitchArgsView, ErrorView>
    decreases args.len() - at,
{
    if at >= args.len() {
        Ok(said)
    } else if switch_flag_takes_value(args[at]) {
        match value_at(args, at + 1, args[at]) {
            Err(error) => Err(error),
            Ok(value) => match switch_with_value(said, args[at], value) {
                Err(error) => Err(error),
                Ok(next) => switch_scanned(next, args, at + 2),
            },
        }
    } else {
        match switch_with_flag(said, args[at]) {
            Err(error) => Err(error),
            Ok(next) => switch_scanned(next, args, at + 1),
        }
    }
}

/// The rebuild actions.
pub open spec fn is_action(action: Seq<char>) -> bool {
    action == "switch"@ || action == "boot"@ || action == "test"@ || action == "build"@
}

/// The options that arguments amount to.
pub open spec fn switch_options(said: SwitchArgsView) -> std::result::Result<CliView, ErrorView> {
    if !is_action(said.action) {
        Err(ErrorView::UnsupportedAction { action: said.action })
    } else if said.capture && said.publish_command is None {
        Err(ErrorView::CaptureRequiresPublishCommand)
    } else {
        match policy_named(said.policy, said.builders) {
            Err(error) => Err(error),
            Ok(realization_policy) => match present(said.flake_attr, "--flake"@) {
                Err(error) => Err(error),
                Ok(flake_attr) => match present(said.toplevel_attr, "--toplevel"@) {
                    Err(error) => Err(error),
                    Ok(toplevel_attr) => Ok(
                        CliView {
                            action: said.action,
                            flake_attr,
                            toplevel_attr,
                            target_ssh: said.target_ssh,
                            use_substitutes: said.use_substitutes,
                            capture: said.capture,
                            sudo: said.sudo,
                            remote_sudo: said.remote_sudo,
                            publish_command: said.publish_command,
                            verify_command: said.verify_command,
                            max_jobs: said.max_jobs,
                            realization_policy,
                        },
                    ),
                },
            },
        }
    }
}

/// The options of a switch.
pub open spec fn parsed_switch(args: Seq<Seq<char>>) -> std::result::Result<CliView, ErrorView> {
    match switch_scanned(switch_defaults(), args, 0) {
        Err(error) => Err(error),
        Ok(said) => switch_options(said),
    }
}

fn takes_switch_value(flag: &str) -> (result: bool)
    ensures
        result == switch_flag_takes_value(flag@),
{
    text::same(flag, "--action") || text::same(flag, "--flake") || text::same(flag, "--toplevel")
        || text::same(flag, "--target-host") || text::same(flag, "--publish-command")
        || text::same(flag, "--verify-command") || text::same(flag, "--max-jobs") || text::same(
        flag,
        "--realization-policy",
    ) || text::same(flag, "--remote-builder")
}

fn read_switch_value(args: SwitchArgs, flag: &str, value: &str) -> (result: Result<SwitchArgs>)
    ensures
        outcome(result) == switch_with_value(args@, flag@, value@),
{
    let mut args = args;
    let value_text = value.to_owned();
    if text::same(flag, "--action") {
        args.action = value_text;
    } else if text::same(flag, "--flake") {
        args.flake_attr = Some(value_text);
    } else if text::same(flag, "--toplevel") {
        args.toplevel_attr = Some(value_text);
    } else if text::same(flag, "--target-host") {
        args.target_ssh = Some(value_text);
    } else if text::same(flag, "--publish-command") {
        args.publish_command = Some(value_text);
    } else if text::same(flag, "--verify-command") {
        args.verify_command = Some(value_text);
    } else if text::same(flag, "--max-jobs") {
        match text::parse_u32(value) {
            Some(jobs) => {
                args.max_jobs = Some(jobs);
            },
            None => {
                return Err(Error::InvalidMaxJobs { value: value_text });
            },
        }
    } else if text::same(flag, "--realization-policy") {
        args.policy = value_text;
    } else {
        text::add_item(&mut args.builders, value_text);
    }
    Ok(args)
}

fn read_switch_flag(args: SwitchArgs, flag: &str) -> (result: Result<SwitchArgs>)
    ensures
        outcome(result) == switch_with_flag(args@, flag@),
{
    let mut args = args;
    if text::same(flag, "--use-substitutes") {
        args.use_substitutes = true;
    } else if text::same(flag, "--use-remote-sudo") {
        args.remote_sudo = true;
    } else if text::same(flag, "--capture") {
        args.capture = true;
    } else if text::same(flag, "--no-capture") {
        args.capture = false;
    } else if text::same(flag, "--sudo") {
        args.sudo = true;
    } else {
        return Err(
            Error::UnknownArgument { argument: flag.to_owned(), usage: usage().to_owned() },
        );
    }
    Ok(args)
}

/// Parses CLI arguments into [`CliOptions`].
///
/// # Errors
///
/// Returns [`Error`] for unknown flags, missing required values,
/// unsupported rebuild actions, or capture mode without a publish command.
pub fn parse_args(args: &[String]) -> (result: Result<CliOptions>)
    ensures
        outcome(result) == parsed_switch(args.deep_view()),
{
    let ghost all = args.deep_view();
    let mut said = SwitchArgs {
        action: "switch".to_owned(),
        flake_attr: None,
        toplevel_attr: None,
        target_ssh: None,
        use_substitutes: false,
        capture: false,
        sudo: false,
        remote_sudo: false,
        publish_command: None,
        verify_command: None,
        max_jobs: None,
        policy: "substitute-only".to_owned(),
        builders: Vec::new(),
    };
    assert(said@ =~= switch_defaults()) by {
        assert(said.builders.deep_view() =~= Seq::empty());
    }
    let mut index: usize = 0;
    while index < args.len()
        invariant
            all == args.deep_view(),
            switch_scanned(switch_defaults(), all, 0) == switch_scanned(said@, all, index as int),
        decreases args.len() - index,
    {
        assert(all[index as int] == args@[index as int]@);
        let flag = args[index].as_str();
        if takes_switch_value(flag) {
            let value = match required_value(args, index + 1, flag) {
                Ok(value) => value,
                Err(error) => {
                    return Err(error);
                },
            };
            said =
            match read_switch_value(said, flag, value) {
                Ok(said) => said,
                Err(error) => {
                    return Err(error);
                },
            };
            index = index + 2;
        } else {
            said =
            match read_switch_flag(said, flag) {
                Ok(said) => said,
                Err(error) => {
                    return Err(error);
                },
            };
            index = index + 1;
        }
    }
    build_switch_options(said)
}

fn build_switch_options(said: SwitchArgs) -> (result: Result<CliOptions>)
    ensures
        outcome(result) == switch_options(said@),
{
    let action = said.action.as_str();
    if !(text::same(action, "switch") || text::same(action, "boot") || text::same(action, "test")
        || text::same(action, "build")) {
        return Err(Error::UnsupportedAction { action: said.action });
    }
    if said.capture && said.publish_command.is_none() {
        return Err(Error::CaptureRequiresPublishCommand);
    }
    let realization_policy = match parse_policy(said.policy, said.builders) {
        Ok(policy) => policy,
        Err(error) => {
            return Err(error);
        },
    };
    let flake_attr = match require(said.flake_attr, "--flake") {
        Ok(value) => value,
        Err(error) => {
            return Err(error);
        },
    };
    let toplevel_attr = match require(said.toplevel_attr, "--toplevel") {
        Ok(value) => value,
        Err(error) => {
            return Err(error);
        },
    };
    Ok(
        CliOptions {
            action: said.action,
            flake_attr,
            toplevel_attr,
            target_ssh: said.target_ssh,
            use_substitutes: said.use_substitutes,
            capture: said.capture,
            sudo: said.sudo,
            remote_sudo: said.remote_sudo,
            publish_command: said.publish_command,
            verify_command: said.verify_command,
            max_jobs: said.max_jobs,
            realization_policy,
        },
    )
}

/// Accepted arguments always ask for a known action, and capture only with a
/// command that publishes.
pub proof fn law_accepted_switch_is_complete(args: Seq<Seq<char>>)
    ensures
        parsed_switch(args) matches Ok(options) ==> is_action(options.action) && (options.capture
            ==> options.publish_command is Some),
{
}

// ---------------------------------------------------------------------------
// Route hints
// ---------------------------------------------------------------------------

/// The miss route with a given name.
pub open spec fn route_named(name: Seq<char>) -> Option<MissRoute> {
    if name == "fail"@ {
        Some(MissRoute::Fail)
    } else if name == "build-local"@ {
        Some(MissRoute::BuildLocal)
    } else if name == "remote-native"@ {
        Some(MissRoute::RemoteNative)
    } else {
        None
    }
}

/// The name of a miss route.
pub open spec fn route_name(route: MissRoute) -> Seq<char> {
    match route {
        MissRoute::Fail => "fail"@,
        MissRoute::BuildLocal => "build-local"@,
        MissRoute::RemoteNative => "remote-native"@,
    }
}

/// The hint that a text of the form `label@installable:route` describes.
pub open spec fn hint_of(spec_text: Seq<char>) -> std::result::Result<HintView, ErrorView> {
    match text::split_last(spec_text, ':') {
        None => Err(ErrorView::MissingArgumentValue { flag: "--route-hint"@ }),
        Some((target, route)) => match route_named(route) {
            None => Err(
                ErrorView::UnknownArgument {
                    argument: "--route-hint route `"@ + route + "`"@,
                    usage: plan_usage_text(),
                },
            ),
            Some(on_miss) => match text::split_first(target, '@') {
                None => Err(ErrorView::MissingArgumentValue { flag: "--route-hint"@ }),
                Some((label, installable)) => Ok(
                    HintView { label, installable, on_miss, origin: None, skip_probe: false },
                ),
            },
        },
    }
}

/// Parses a hint of the form `label@installable:route`.
pub fn parse_route_hint(hint: &str) -> (result: Result<RouteHintSpec>)
    ensures
        outcome(result) == hint_of(hint@),
{
    let (target, route) = match text::rsplit_once(hint, ':') {
        Some(parts) => parts,
        None => {
            return Err(Error::MissingArgumentValue { flag: "--route-hint".to_owned() });
        },
    };
    let on_miss = if text::same(route.as_str(), "fail") {
        MissRoute::Fail
    } else if text::same(route.as_str(), "build-local") {
        MissRoute::BuildLocal
    } else if text::same(route.as_str(), "remote-native") {
        MissRoute::RemoteNative
    } else {
        return Err(
            Error::UnknownArgument {
                argument: "--route-hint route `".to_owned().concat(route.as_str()).concat("`"),
                usage: plan_usage().to_owned(),
            },
        );
    };
    match text::split_once(target.as_str(), '@') {
        Some((label, installable)) => Ok(
            RouteHintSpec { label, installable, on_miss, origin: None, skip_probe: false },
        ),
        None => Err(Error::MissingArgumentValue { flag: "--route-hint".to_owned() }),
    }
}

/// A hint that is written out reads back as it was, whatever its installable
/// is; its label must not hold the character that ends it.
pub proof fn law_route_hint_reads_back(
    label: Seq<char>,
    installable: Seq<char>,
    route: MissRoute,
)
    requires
        !label.contains('@'),
    ensures
        hint_of(label + "@"@ + installable + ":"@ + route_name(route)) == Ok::<
            HintView,
            ErrorView,
        >(HintView { label, installable, on_miss: route, origin: None, skip_probe: false }),
{
    reveal_strlit("@");
    reveal_strlit(":");
    reveal_strlit("fail");
    reveal_strlit("build-local");
    reveal_strlit("remote-native");
    let name = route_name(route);
    assert("fail"@.len() == 4 && "build-local"@.len() == 11 && "remote-native"@.len() == 13);
    assert(route_named(name) == Some(route));
    let target = label + "@"@ + installable;
    let whole = target + ":"@ + name;
    let at = target.len() as int;
    assert(whole[at] == ':');
    assert forall|i: int| at < i < whole.len() implies #[trigger] whole[i] != ':' by {
        assert(whole[i] == name[i - at - 1]);
        lemma_route_name_has_no_colon(route, i - at - 1);
    }
    text::lemma_last_index_is(whole, ':', at);
    assert(whole.contains(':'));
    assert(whole.take(at) =~= target);
    assert(whole.skip(at + 1) =~= name);
    let to = label.len() as int;
    assert(target[to] == '@');
    assert forall|i: int| 0 <= i < to implies #[trigger] target[i] != '@' by {
        assert(target[i] == label[i]);
        assert(label.contains(label[i]));
    }
    text::lemma_first_index_is(target, '@', to);
    assert(target.contains('@'));
    assert(target.take(to) =~= label);
    assert(target.skip(to + 1) =~= installable);
}

proof fn lemma_route_name_has_no_colon(route: MissRoute, i: int)
    requires
        0 <= i < route_name(route).len(),
    ensures
        route_name(route)[i] != ':',
{
    reveal_strlit("fail");
    reveal_strlit("build-local");
    reveal_strlit("remote-native");
    match route {
        MissRoute::Fail => {
            assert("fail"@ =~= seq!['f', 'a', 'i', 'l']);
        },
        MissRoute::BuildLocal => {
            assert("build-local"@ =~= seq![
                'b',
                'u',
                'i',
                'l',
                'd',
                '-',
                'l',
                'o',
                'c',
                'a',
                'l',
            ]);
        },
        MissRoute::RemoteNative => {
            assert("remote-native"@ =~= seq![
                'r',
                'e',
                'm',
                'o',
                't',
                'e',
                '-',
                'n',
                'a',
                't',
                'i',
                'v',
                'e',
            ]);
        },
    }
}

// ---------------------------------------------------------------------------
// Planner
// ---------------------------------------------------------------------------

/// What the arguments of the planner have said so far.
struct PlanArgs {
    toplevel_attr: Option<String>,
    build_system: Option<String>,
    host_system: Option<String>,
    substituters: Vec<String>,
    json: bool,
    policy: String,
    builders: Vec<String>,
    route_hints: Vec<RouteHintSpec>,
}

/// Model of what the arguments of the planner have said so far.
#[verifier::ext_equal]
pub struct PlanArgsView {
    pub toplevel_attr: Option<Seq<char>>,
    pub build_system: Option<Seq<char>>,
    pub host_system: Option<Seq<char>>,
    pub substituters: Seq<Seq<char>>,
    pub json: bool,
    pub policy: Seq<char>,
    pub builders: Seq<Seq<char>>,
    pub route_hints: Seq<HintView>,
}

impl View for PlanArgs {
    type V = PlanArgsView;

    closed spec fn view(&self) -> PlanArgsView {
        PlanArgsView {
            toplevel_attr: self.toplevel_attr.deep_view(),
            build_system: self.build_system.deep_view(),
            host_system: self.host_system.deep_view(),
            substituters: self.substituters.deep_view(),
            json: self.json,
            policy: self.policy@,
            builders: self.builders.deep_view(),
            route_hints: self.route_hints.deep_view(),
        }
    }
}

impl DeepView for PlanArgs {
    type V = PlanArgsView;

    open spec fn deep_view(&self) -> PlanArgsView {
        self@
    }
}

/// What holds when no argument says otherwise.
pub open spec fn plan_defaults() -> PlanArgsView {
    PlanArgsView {
        toplevel_attr: None,
        build_system: None,
        host_system: None,
        substituters: Seq::empty(),
        json: false,
        policy: "substitute-only"@,
        builders: Seq::empty(),
        route_hints: Seq::empty(),
    }
}

/// The flags of the planner that take a value.
pub open spec fn plan_flag_takes_value(flag: Seq<char>) -> bool {
    ||| flag == "--toplevel"@
    ||| flag == "--build-system"@
    ||| flag == "--host-system"@
    ||| flag == "--substituter"@
    ||| flag == "--route-hint"@
    ||| flag == "--skip-probe"@
    ||| flag == "--realization-policy"@
    ||| flag == "--remote-builder"@
}

/// A hint, known to be local when it has the label.
pub open spec fn marked(hint: HintView, label: Seq<char>) -> HintView {
    if hint.label == label {
        HintView { skip_probe: true, ..hint }
    } else {
        hint
    }
}

/// The hints, those with the label known to be local.
pub open spec fn all_marked(hints: Seq<HintView>, label: Seq<char>) -> Seq<HintView> {
    hints.map_values(|hint: HintView| marked(hint, label))
}

/// What holds once a flag with a value has been read.
pub open spec fn plan_with_value(
    args: PlanArgsView,
    flag: Seq<char>,
    value: Seq<char>,
) -> std::result::Result<PlanArgsView, ErrorView> {
    if flag == "--toplevel"@ {
        Ok(PlanArgsView { toplevel_attr: Some(value), ..args })
    } else if flag == "--build-system"@ {
        Ok(PlanArgsView { build_system: Some(value), ..args })
    } else if flag == "--host-system"@ {
        Ok(PlanArgsView { host_system: Some(value), ..args })
    } else if flag == "--substituter"@ {
        Ok(PlanArgsView { substituters: args.substituters.push(value), ..args })
    } else if flag == "--route-hint"@ {
        match hint_of(value) {
            Err(error) => Err(error),
            Ok(hint) => Ok(PlanArgsView { route_hints: args.route_hints.push(hint), ..args }),
        }
    } else if flag == "--skip-probe"@ {
        if exists|i: int|
            0 <= i < args.route_hints.len() && (#[trigger] args.route_hints[i]).label == value {
            Ok(PlanArgsView { route_hints: all_marked(args.route_hints, value), ..args })
        } else {
            Err(
                ErrorView::UnknownArgument {
                    argument: "--skip-probe "@ + value,
                    usage: plan_usage_text(),
                },
            )
        }
    } else if flag == "--realization-policy"@ {
        Ok(PlanArgsView { policy: value, ..args })
    } else {
        Ok(PlanArgsView { builders: args.builders.push(value), ..args })
    }
}

/// What holds once a flag without a value has been read.
pub open spec fn plan_with_flag(args: PlanArgsView, flag: Seq<char>) -> std::result::Result<
    PlanArgsView,
    ErrorView,
> {
    if flag == "--json"@ {
        Ok(PlanArgsView { json: true, ..args })
    } else {
        Err(ErrorView::UnknownArgument { argument: flag, usage: plan_usage_text() })
    }
}

/// What the arguments from `at` on say.
pub open spec fn plan_scanned(
    said: PlanArgsView,
    args: Seq<Seq<char>>,
    at: int,
) -> std::result::Result<PlanArgsView, ErrorView>
    decreases args.len() - at,
{
    if at >= args.len() {
        Ok(said)
    } else if plan_flag_takes_value(args[at]) {
        match value_at(args, at + 1, args[at]) {
            Err(error) => Err(error),
            Ok(value) => match plan_with_value(said, args[at], value) {
                Err(error) => Err(error),
                Ok(next) => plan_scanned(next, args, at + 2),
            },
        }
    } else {
        match plan_with_flag(said, args[at]) {
            Err(error) => Err(error),
            Ok(next) => plan_scanned(next, args, at + 1),
        }
    }
}

/// The options that arguments amount to.
pub open spec fn plan_options(said: PlanArgsView) -> std::result::Result<
    PlanOptionsView,
    ErrorView,
> {
    match policy_named(said.policy, said.builders) {
        Err(error) => Err(error),
        Ok(realization_policy) => match present(said.toplevel_attr, "--toplevel"@) {
            Err(error) => Err(error),
            Ok(toplevel_attr) => match present(said.build_system, "--build-system"@) {
                Err(error) => Err(error),
                Ok(build_system) => match present(said.host_system, "--host-system"@) {
                    Err(error) => Err(error),
                    Ok(host_system) => if said.substituters.len() == 0 {
                        Err(ErrorView::MissingRequiredArgument { flag: "--substituter"@ })
                    } else {
                        Ok(
                            PlanOptionsView {
                                toplevel_attr,
                                build_system,
                                host_system,
                                substituters: said.substituters,
                                json: said.json,
                                realization_policy,
                                route_hints: said.route_hints,
                            },
                        )
                    },
                },
            },
        },
    }
}

/// The options of the planner.
pub open spec fn parsed_plan(args: Seq<Seq<char>>) -> std::result::Result<
    PlanOptionsView,
    ErrorView,
> {
    match plan_scanned(plan_defaults(), args, 0) {
        Err(error) => Err(error),
        Ok(said) => plan_options(said),
    }
}

/// Accepted arguments of the planner always name a store to probe, so that an
/// empty configuration is never taken for a cache that has nothing.
pub proof fn law_accepted_plan_names_a_store(args: Seq<Seq<char>>)
    ensures
        parsed_plan(args) matches Ok(options) ==> options.substituters.len() > 0,
{
}

fn takes_plan_value(flag: &str) -> (result: bool)
    ensures
        result == plan_flag_takes_value(flag@),
{
    text::same(flag, "--toplevel") || text::same(flag, "--build-system") || text::same(
        flag,
        "--host-system",
    ) || text::same(flag, "--substituter") || text::same(flag, "--route-hint") || text::same(
        flag,
        "--skip-probe",
    ) || text::same(flag, "--realization-policy") || text::same(flag, "--remote-builder")
}

/// Marks the hints with a label as known to be local, and says whether there
/// was one.
fn mark_hints(hints: &mut Vec<RouteHintSpec>, label: &str) -> (result: bool)
    ensures
        final(hints).deep_view() == all_marked(old(hints).deep_view(), label@),
        result == (exists|i: int|
            0 <= i < old(hints).deep_view().len() && (#[trigger] old(hints).deep_view()[i]).label
                == label@),
{
    let ghost before = hints.deep_view();
    let mut found = false;
    let count = hints.len();
    let mut i: usize = 0;
    while i < count
        invariant
            before == old(hints).deep_view(),
            count == before.len(),
            hints.len() == count,
            i <= count,
            found == (exists|k: int| 0 <= k < i && (#[trigger] before[k]).label == label@),
            forall|k: int|
                0 <= k < i ==> (#[trigger] hints@[k])@ == marked(before[k], label@),
            forall|k: int| i <= k < count ==> (#[trigger] hints@[k])@ == before[k],
        decreases count - i,
    {
        let ghost here = hints@;
        assert(here[i as int]@ == before[i as int]);
        if text::same(hints[i].label.as_str(), label) {
            let mut hint = hints[i].clone();
            hint.skip_probe = true;
            hints.set(i, hint);
            found = true;
            assert(before[i as int].label == label@);
        }
        i += 1;
    }
    assert(hints.deep_view() =~= all_marked(before, label@));
    found
}

fn read_plan_value(args: PlanArgs, flag: &str, value: &str) -> (result: Result<PlanArgs>)
    ensures
        outcome(result) == plan_with_value(args@, flag@, value@),
{
    let mut args = args;
    let value_text = value.to_owned();
    if text::same(flag, "--toplevel") {
        args.toplevel_attr = Some(value_text);
    } else if text::same(flag, "--build-system") {
        args.build_system = Some(value_text);
    } else if text::same(flag, "--host-system") {
        args.host_system = Some(value_text);
    } else if text::same(flag, "--substituter") {
        text::add_item(&mut args.substituters, value_text);
    } else if text::same(flag, "--route-hint") {
        match parse_route_hint(value) {
            Ok(hint) => {
                let ghost before = args.route_hints.deep_view();
                args.route_hints.push(hint);
                assert(args.route_hints.deep_view() =~= before.push(hint@));
            },
            Err(error) => {
                return Err(error);
            },
        }
    } else if text::same(flag, "--skip-probe") {
        if !mark_hints(&mut args.route_hints, value) {
            return Err(
                Error::UnknownArgument {
                    argument: "--skip-probe ".to_owned().concat(value),
                    usage: plan_usage().to_owned(),
                },
            );
        }
    } else if text::same(flag, "--realization-policy") {
        args.policy = value_text;
    } else {
        text::add_item(&mut args.builders, value_text);
    }
    Ok(args)
}

fn read_plan_flag(args: PlanArgs, flag: &str) -> (result: Result<PlanArgs>)
    ensures
        outcome(result) == plan_with_flag(args@, flag@),
{
    let mut args = args;
    if text::same(flag, "--json") {
        args.json = true;
        Ok(args)
    } else {
        Err(
            Error::UnknownArgument { argument: flag.to_owned(), usage: plan_usage().to_owned() },
        )
    }
}

/// Parses arguments for the read-only structured planner.
pub fn parse_plan_args(args: &[String]) -> (result: Result<PlanOptions>)
    ensures
        outcome(result) == parsed_plan(args.deep_view()),
{
    let ghost all = args.deep_view();
    let mut said = PlanArgs {
        toplevel_attr: None,
        build_system: None,
        host_system: None,
        substituters: Vec::new(),
        json: false,
        policy: "substitute-only".to_owned(),
        builders: Vec::new(),
        route_hints: Vec::new(),
    };
    assert(said@ =~= plan_defaults()) by {
        assert(said.substituters.deep_view() =~= Seq::empty());
        assert(said.builders.deep_view() =~= Seq::empty());
        assert(said.route_hints.deep_view() =~= Seq::empty());
    }
    let mut index: usize = 0;
    while index < args.len()
        invariant
            all == args.deep_view(),
            plan_scanned(plan_defaults(), all, 0) == plan_scanned(said@, all, index as int),
        decreases args.len() - index,
    {
        assert(all[index as int] == args@[index as int]@);
        let flag = args[index].as_str();
        if takes_plan_value(flag) {
            let value = match required_value(args, index + 1, flag) {
                Ok(value) => value,
                Err(error) => {
                    return Err(error);
                },
            };
            said =
            match read_plan_value(said, flag, value) {
                Ok(said) => said,
                Err(error) => {
                    return Err(error);
                },
            };
            index = index + 2;
        } else {
            said =
            match read_plan_flag(said, flag) {
                Ok(said) => said,
                Err(error) => {
                    return Err(error);
                },
            };
            index = index + 1;
        }
    }
    build_plan_options(said)
}

fn build_plan_options(said: PlanArgs) -> (result: Result<PlanOptions>)
    ensures
        outcome(result) == plan_options(said@),
{
    let realization_policy = match parse_policy(said.policy, said.builders) {
        Ok(policy) => policy,
        Err(error) => {
            return Err(error);
        },
    };
    let toplevel_attr = match require(said.toplevel_attr, "--toplevel") {
        Ok(value) => value,
        Err(error) => {
            return Err(error);
        },
    };
    let build_system = match require(said.build_system, "--build-system") {
        Ok(value) => value,
        Err(error) => {
            return Err(error);
        },
    };
    let host_system = match require(said.host_system, "--host-system") {
        Ok(value) => value,
        Err(error) => {
            return Err(error);
        },
    };
    if said.substituters.len() == 0 {
        return Err(Error::MissingRequiredArgument { flag: "--substituter".to_owned() });
    }
    Ok(
        PlanOptions {
            toplevel_attr,
            build_system,
            host_system,
            substituters: said.substituters,
            json: said.json,
            realization_policy,
            route_hints: said.route_hints,
        },
    )
}

// ---------------------------------------------------------------------------
// Invocation
// ---------------------------------------------------------------------------

/// What an invocation asks for.
#[derive(Debug, Clone, PartialEq, Eq)]
pub enum Invocation {
    /// Show how the planner is used.
    PlanHelp,
    /// Compute a plan.
    Plan(PlanOptions),
    /// Show how a switch is used.
    Help,
    /// Switch.
    Switch(CliOptions),
}

/// Model of an [`Invocation`].
#[verifier::ext_equal]
pub enum InvocationView {
    PlanHelp,
    Plan(PlanOptionsView),
    Help,
    Switch(CliView),
}

impl View for Invocation {
    type V = InvocationView;

    open spec fn view(&self) -> InvocationView {
        match self {
            Invocation::PlanHelp => InvocationView::PlanHelp,
            Invocation::Plan(options) => InvocationView::Plan(options@),
            Invocation::Help => InvocationView::Help,
            Invocation::Switch(options) => InvocationView::Switch(options@),
        }
    }
}

impl DeepView for Invocation {
    type V = InvocationView;

    open spec fn deep_view(&self) -> InvocationView {
        self@
    }
}

/// One of the arguments asks for help.
pub open spec fn asks_for_help(args: Seq<Seq<char>>) -> bool {
    args.contains("-h"@) || args.contains("--help"@)
}

/// What the arguments behind the program name ask for.
pub open spec fn invoked(args: Seq<Seq<char>>) -> std::result::Result<InvocationView, ErrorView> {
    if args.len() > 0 && args[0] == "plan"@ {
        let rest = args.drop_first();
        if asks_for_help(rest) {
            Ok(InvocationView::PlanHelp)
        } else {
            match parsed_plan(rest) {
                Ok(options) => Ok(InvocationView::Plan(options)),
                Err(error) => Err(error),
            }
        }
    } else if asks_for_help(args) {
        Ok(InvocationView::Help)
    } else {
        match parsed_switch(args) {
            Ok(options) => Ok(InvocationView::Switch(options)),
            Err(error) => Err(error),
        }
    }
}

/// Reads the arguments behind the program name.
pub fn parse_invocation(args: &[String]) -> (result: Result<Invocation>)
    ensures
        outcome(result) == invoked(args.deep_view()),
{
    let ghost all = args.deep_view();
    if args.len() > 0 && text::same(args[0].as_str(), "plan") {
        assert(all[0] == args@[0]@);
        let mut rest: Vec<String> = Vec::new();
        for i in 1..args.len()
            invariant
                all == args.deep_view(),
                args.len() > 0,
                rest.deep_view() == all.subrange(1, i as int),
        {
            text::add_item(&mut rest, args[i].clone());
            assert(all[i as int] == args@[i as int]@);
            assert(rest.deep_view() =~= all.subrange(1, i + 1));
        }
        assert(rest.deep_view() =~= all.drop_first());
        if text::list_contains(rest.as_slice(), "-h") || text::list_contains(
            rest.as_slice(),
            "--help",
        ) {
            return Ok(Invocation::PlanHelp);
        }
        return match parse_plan_args(rest.as_slice()) {
            Ok(options) => Ok(Invocation::Plan(options)),
            Err(error) => Err(error),
        };
    }
    proof {
        if args.len() > 0 {
            assert(all[0] == args@[0]@);
        }
    }
    if text::list_contains(args, "-h") || text::list_contains(args, "--help") {
        return Ok(Invocation::Help);
    }
    match parse_args(args) {
        Ok(options) => Ok(Invocation::Switch(options)),
        Err(error) => Err(error),
    }
}

// ---------------------------------------------------------------------------
// Report
// ---------------------------------------------------------------------------

/// The heading of a class in a report.
pub open spec fn class_heading(class: DerivationClass) -> Seq<char> {
    match class {
        DerivationClass::LocalPresent => "LocalPresent:"@,
        DerivationClass::HostSubstituted => "HostSubstituted:"@,
        DerivationClass::BuildLocal => "BuildLocal:"@,
        DerivationClass::HostRemote => "HostRemote:"@,
        DerivationClass::Unhandled => "Unhandled:"@,
    }
}

/// The line of a derivation in a report.
pub open spec fn derivation_line(derivation: DerivationView) -> Seq<char> {
    "  "@ + derivation.display_label() + " ["@ + derivation.drv + "]"@
}

/// The derivations of one class.
pub open spec fn of_class(derivations: Seq<DerivationView>, class: DerivationClass) -> Seq<
    DerivationView,
> {
    derivations.filter(|derivation: DerivationView| derivation.class == class)
}

/// The part of a report on one class; nothing when the class is empty.
pub open spec fn class_section(
    derivations: Seq<DerivationView>,
    class: DerivationClass,
) -> Seq<Seq<char>> {
    let members = of_class(derivations, class);
    if members.len() == 0 {
        Seq::empty()
    } else {
        seq![class_heading(class)] + members.map_values(
            |derivation: DerivationView| derivation_line(derivation),
        )
    }
}

/// The lines of the report on a plan.
pub open spec fn report_lines(plan: PlanView) -> Seq<Seq<char>> {
    seq![
        "build-system="@ + plan.build_system,
        "host-system="@ + plan.host_system,
        "local-present="@ + text::decimal(plan.counts.local_present),
        "host-substituted="@ + text::decimal(plan.counts.host_substituted),
        "build-local="@ + text::decimal(plan.counts.build_local),
        "host-remote="@ + text::decimal(plan.counts.host_remote),
        "unhandled="@ + text::decimal(plan.counts.unhandled),
    ] + class_section(plan.derivations, DerivationClass::BuildLocal) + class_section(
        plan.derivations,
        DerivationClass::HostRemote,
    ) + class_section(plan.derivations, DerivationClass::Unhandled)
}

fn heading(class: DerivationClass) -> (result: String)
    ensures
        result@ == class_heading(class),
{
    match class {
        DerivationClass::LocalPresent => "LocalPresent:".to_owned(),
        DerivationClass::HostSubstituted => "HostSubstituted:".to_owned(),
        DerivationClass::BuildLocal => "BuildLocal:".to_owned(),
        DerivationClass::HostRemote => "HostRemote:".to_owned(),
        DerivationClass::Unhandled => "Unhandled:".to_owned(),
    }
}

fn section(plan: &ClosurePlan, class: DerivationClass) -> (result: Vec<String>)
    ensures
        result.deep_view() == class_section(plan@.derivations, class),
{
    let ghost all = plan@.derivations;
    let ghost in_class = |derivation: DerivationView| derivation.class == class;
    let ghost line = |derivation: DerivationView| derivation_line(derivation);
    let mut lines: Vec<String> = Vec::new();
    reveal(Seq::filter);
    assert(all.take(0).filter(in_class).map_values(line) =~= Seq::empty());
    for i in 0..plan.derivations.len()
        invariant
            all == plan.derivations.deep_view(),
            in_class == (|derivation: DerivationView| derivation.class == class),
            line == (|derivation: DerivationView| derivation_line(derivation)),
            lines.deep_view() == all.take(i as int).filter(in_class).map_values(line),
    {
        reveal(Seq::filter);
        let derivation = &plan.derivations[i];
        assert(all[i as int] == derivation@);
        assert(all.take(i + 1).drop_last() =~= all.take(i as int));
        assert(all.take(i + 1).last() == derivation@);
        if derivation.class == class {
            let ghost before = all.take(i as int).filter(in_class);
            let label = derivation.display_label();
            text::add_item(
                &mut lines,
                "  ".to_owned().concat(label.as_str()).concat(" [").concat(
                    derivation.drv.as_str(),
                ).concat("]"),
            );
            assert(in_class(derivation@));
            assert(before.push(derivation@).map_values(line) =~= before.map_values(line).push(
                derivation_line(derivation@),
            ));
        } else {
            assert(!in_class(derivation@));
        }
    }
    assert(all.take(plan.derivations.len() as int) =~= all);
    if lines.len() == 0 {
        return lines;
    }
    let mut out = vec![heading(class)];
    assert(out.deep_view() =~= seq![class_heading(class)]);
    text::extend(&mut out, lines);
    out
}

fn count_line(name: &str, count: usize) -> (result: String)
    ensures
        result@ == name@ + text::decimal(count as nat),
{
    name.to_owned().concat(text::to_decimal(count as u64).as_str())
}

/// The lines of the report on a plan.
pub fn plan_report(plan: &ClosurePlan) -> (result: Vec<String>)
    ensures
        result.deep_view() == report_lines(plan@),
{
    let mut lines = vec![
        "build-system=".to_owned().concat(plan.build_system.as_str()),
        "host-system=".to_owned().concat(plan.host_system.as_str()),
        count_line("local-present=", plan.counts.local_present),
        count_line("host-substituted=", plan.counts.host_substituted),
        count_line("build-local=", plan.counts.build_local),
        count_line("host-remote=", plan.counts.host_remote),
        count_line("unhandled=", plan.counts.unhandled),
    ];
    assert(lines.deep_view() =~= seq![
        "build-system="@ + plan@.build_system,
        "host-system="@ + plan@.host_system,
        "local-present="@ + text::decimal(plan@.counts.local_present),
        "host-substituted="@ + text::decimal(plan@.counts.host_substituted),
        "build-local="@ + text::decimal(plan@.counts.build_local),
        "host-remote="@ + text::decimal(plan@.counts.host_remote),
        "unhandled="@ + text::decimal(plan@.counts.unhandled),
    ]);
    text::extend(&mut lines, section(plan, DerivationClass::BuildLocal));
    text::extend(&mut lines, section(plan, DerivationClass::HostRemote));
    text::extend(&mut lines, section(plan, DerivationClass::Unhandled));
    lines
}

// ---------------------------------------------------------------------------
// Running a switch
// ---------------------------------------------------------------------------

/// Runs shell commands that are fed store paths.
pub trait PathCommand {
    /// Runs a shell command, with the paths on its standard input, and returns
    /// what it prints.
    fn run(&self, command: &str, paths: &[String]) -> Result<String>;
}

/// The shell was handed the command and the paths, and answered with `result`.
pub open spec fn answered<S: PathCommand>(
    shell: &S,
    command: Seq<char>,
    paths: Seq<Seq<char>>,
    result: Result<String>,
) -> bool {
    exists|line: &str, list: &[String]|
        #![trigger call_ensures(S::run, (shell, line, list), result)]
        line@ == command && list.deep_view() == paths && call_ensures(
            S::run,
            (shell, line, list),
            result,
        )
}

/// The command published the paths.
pub open spec fn command_published<S: PathCommand>(
    shell: &S,
    command: Seq<char>,
    paths: Seq<Seq<char>>,
    result: Result<()>,
) -> bool {
    exists|answer: Result<String>|
        #![trigger answered(shell, command, paths, answer)]
        answered(shell, command, paths, answer) && match answer {
            Ok(_) => result == Ok::<(), Error>(()),
            Err(error) => result == Err::<(), Error>(error),
        }
}

/// The command verified the paths, and printed those that are missing.
pub open spec fn command_verified<S: PathCommand>(
    shell: &S,
    command: Seq<char>,
    paths: Seq<Seq<char>>,
    result: Result<Vec<String>>,
) -> bool {
    exists|answer: Result<String>|
        #![trigger answered(shell, command, paths, answer)]
        answered(shell, command, paths, answer) && match answer {
            Ok(printed) => outcome(result) == Ok::<Seq<Seq<char>>, ErrorView>(
                text::trimmed_lines(printed@),
            ),
            Err(error) => result == Err::<Vec<String>, Error>(error),
        }
}

/// The parties that the options of an invocation ask for: shell commands publish
/// and verify, and a runner carries out the other stages.
///
/// A call is passed on once. The contracts say with what and what came of it; a
/// shared reference keeps no count of the calls that go through it.
pub struct CliParties<'a, S: PathCommand, R: Runner> {
    /// The options.
    pub options: &'a CliOptions,
    /// Runs the publish command and the verify command.
    pub shell: &'a S,
    /// Carries out the other stages.
    pub runner: &'a R,
}

impl<'a, S: PathCommand, R: Runner> Publisher for CliParties<'a, S, R> {
    /// Publishes by the publish command; without one nothing can be published.
    fn publish(&self, paths: &[String]) -> (result: Result<()>)
        ensures
            match self.options@.publish_command {
                None => outcome(result) == Err::<(), ErrorView>(ErrorView::NoPublisherConfigured),
                Some(command) => command_published(
                    self.shell,
                    command,
                    paths.deep_view(),
                    result,
                ),
            },
    {
        match &self.options.publish_command {
            None => Err(Error::NoPublisherConfigured),
            Some(command) => {
                assert(self.options@.publish_command == Some(command@));
                let answer = self.shell.run(command.as_str(), paths);
                assert(answered(self.shell, command@, paths.deep_view(), answer));
                let result = match answer {
                    Ok(_) => Ok(()),
                    Err(error) => Err(error),
                };
                assert(command_published(self.shell, command@, paths.deep_view(), result));
                result
            },
        }
    }
}

impl<'a, S: PathCommand, R: Runner> Verifier for CliParties<'a, S, R> {
    /// Verifies by the verify command, which prints the paths that are missing;
    /// without one the publisher is trusted.
    fn verify_present(&self, paths: &[String]) -> (result: Result<Vec<String>>)
        ensures
            match self.options@.verify_command {
                None => outcome(result) == Ok::<Seq<Seq<char>>, ErrorView>(Seq::empty()),
                Some(command) => command_verified(self.shell, command, paths.deep_view(), result),
            },
    {
        match &self.options.verify_command {
            None => TrustPublish.verify_present(paths),
            Some(command) => {
                assert(self.options@.verify_command == Some(command@));
                let answer = self.shell.run(command.as_str(), paths);
                assert(answered(self.shell, command@, paths.deep_view(), answer));
                let result = match answer {
                    Ok(printed) => Ok(text::nonblank_lines(printed.as_str())),
                    Err(error) => Err(error),
                };
                assert(command_verified(self.shell, command@, paths.deep_view(), result));
                result
            },
        }
    }
}

impl<'a, S: PathCommand, R: Runner> Runner for CliParties<'a, S, R> {
    fn build_toplevel(&self, plan: &SwitchPlan<'_>) -> (result: Result<String>)
        ensures
            call_ensures(R::build_toplevel, (self.runner, plan), result),
    {
        self.runner.build_toplevel(plan)
    }

    fn closure_to_publish(&self, toplevel: &str) -> (result: Result<Vec<String>>)
        ensures
            call_ensures(R::closure_to_publish, (self.runner, toplevel), result),
    {
        self.runner.closure_to_publish(toplevel)
    }

    fn activate(&self, plan: &SwitchPlan<'_>, prepared: &PreparedSwitch) -> (result: Result<()>)
        ensures
            call_ensures(R::activate, (self.runner, plan, prepared), result),
    {
        self.runner.activate(plan, prepared)
    }
}

impl CliView {
    /// The switch that the options ask for.
    pub open spec fn requested_switch(self) -> SwitchView {
        SwitchView {
            action: self.action,
            flake_attr: self.flake_attr,
            toplevel_attr: self.toplevel_attr,
            target_ssh: self.target_ssh,
            use_substitutes: self.use_substitutes,
            capture: self.capture,
            sudo: self.sudo,
            remote_sudo: self.remote_sudo,
            max_jobs: self.max_jobs,
            realization_policy: self.realization_policy,
        }
    }
}

/// Runs one CLI switch invocation from already-parsed options, those that the
/// party serves.
///
/// # Errors
///
/// Returns [`Error`] for the same build, publish, verify, and activation
/// failures as [`run_cache_shaped_switch`].
pub fn run_with_options<S: PathCommand, R: Runner>(
    calls: &mut Calls<'_, CliParties<'_, S, R>>,
) -> (result: Result<()>)
    ensures
        final(calls).continues(old(calls)),
        switch_ended(
            old(calls).party().options@.requested_switch(),
            calls_since(old(calls)@, final(calls)@),
            result,
        ),
        runner_gave(final(calls).party(), calls_since(old(calls)@, final(calls)@)),
        cache_gave(final(calls).party(), calls_since(old(calls)@, final(calls)@)),
{
    let options = calls.options();
    let target_ssh = match &options.target_ssh {
        Some(target) => Some(target.as_str()),
        None => None,
    };
    let plan = SwitchPlan {
        action: options.action.as_str(),
        flake_attr: options.flake_attr.as_str(),
        toplevel_attr: options.toplevel_attr.as_str(),
        target_ssh,
        use_substitutes: options.use_substitutes,
        capture: options.capture,
        sudo: options.sudo,
        remote_sudo: options.remote_sudo,
        max_jobs: options.max_jobs,
        realization_policy: options.realization_policy.clone(),
    };
    assert(plan@ =~= options@.requested_switch());
    run_cache_shaped_switch(&plan, calls)
}

/// A captured switch does not succeed without a publish command: once its
/// closure is known it fails with the error that says so, the cache is asked for
/// nothing, and nothing is activated.
pub proof fn law_capture_needs_a_publisher<S: PathCommand, R: Runner>(
    party: &CliParties<'_, S, R>,
    calls: Seq<Call>,
    result: Result<()>,
)
    requires
        switch_ended(party.options@.requested_switch(), calls, result),
        cache_gave(party, calls),
        party.options@.capture,
        party.options@.publish_command is None,
    ensures
        result is Err,
        forall|i: int|
            0 <= i < calls.len() ==> !(#[trigger] calls[i] is Verify) && !(calls[i] is Activate),
        calls.len() > 0 && calls.last() is Publish ==> outcome(result) == Err::<(), ErrorView>(
            ErrorView::NoPublisherConfigured,
        ),
{
    let plan = party.options@.requested_switch();
    law_switches_go_through_their_steps(plan, calls, result);
    let steps = switch_steps(plan);
    assert(steps[0] == Step::Build && steps[1] == Step::Closure && steps[2] == Step::Publish);
    assert(steps.len() >= 4);
    if calls.len() > 2 {
        assert(calls[2] is Publish);
        let paths = calls[2]->Publish_paths;
        let ended = calls[2]->Publish_result;
        assert(published(party, paths, ended));
        let list = choose|list: &[String]|
            #![trigger call_ensures(CliParties::<'_, S, R>::publish, (party, list), ended)]
            list.deep_view() == paths && call_ensures(
                CliParties::<'_, S, R>::publish,
                (party, list),
                ended,
            );
        assert(call_ensures(CliParties::<'_, S, R>::publish, (party, list), ended));
        assert(failure_of(calls[2]) == Some(ErrorView::NoPublisherConfigured));
        assert(calls.len() == 3);
    }
    assert forall|i: int| 0 <= i < calls.len() implies !(#[trigger] calls[i] is Verify) && !(
    calls[i] is Activate) by {
        assert(step_of(calls[i]) == steps[i]);
    }
    if calls.len() > 0 && calls.last() is Publish {
        assert(step_of(calls[calls.len() - 1]) == steps[calls.len() - 1]);
    }
}

// ---------------------------------------------------------------------------
// Laws of the arguments
// ---------------------------------------------------------------------------

/// What was read so far does not depend on what follows.
proof fn lemma_switch_read_so_far(
    before: SwitchArgsView,
    args: Seq<Seq<char>>,
    more: Seq<Seq<char>>,
    at: int,
)
    requires
        0 <= at <= args.len(),
        switch_scanned(before, args, at) is Ok,
    ensures
        switch_scanned(before, args + more, at) == switch_scanned(
            switch_scanned(before, args, at)->Ok_0,
            args + more,
            args.len() as int,
        ),
    decreases args.len() - at,
{
    let all = args + more;
    if at < args.len() {
        assert(all[at] == args[at]);
        if switch_flag_takes_value(args[at]) {
            assert(at + 1 < args.len());
            assert(all[at + 1] == args[at + 1]);
            let next = switch_with_value(before, args[at], args[at + 1])->Ok_0;
            lemma_switch_read_so_far(next, args, more, at + 2);
        } else {
            let next = switch_with_flag(before, args[at])->Ok_0;
            lemma_switch_read_so_far(next, args, more, at + 1);
        }
    }
}

proof fn lemma_switch_value_is_read(
    args: Seq<Seq<char>>,
    said: SwitchArgsView,
    flag: Seq<char>,
    value: Seq<char>,
)
    requires
        switch_scanned(switch_defaults(), args, 0) == Ok::<SwitchArgsView, ErrorView>(said),
        switch_flag_takes_value(flag),
        !"--"@.is_prefix_of(value),
    ensures
        switch_scanned(switch_defaults(), args + seq![flag, value], 0) == switch_with_value(
            said,
            flag,
            value,
        ),
{
    let all = args + seq![flag, value];
    let at = args.len() as int;
    lemma_switch_read_so_far(switch_defaults(), args, seq![flag, value], 0);
    assert(all[at] == flag);
    assert(all[at + 1] == value);
    assert(all.len() == at + 2);
    if let Ok(next) = switch_with_value(said, flag, value) {
        assert(switch_scanned(next, all, at + 2) == Ok::<SwitchArgsView, ErrorView>(next));
    }
}

proof fn lemma_switch_flag_is_read(args: Seq<Seq<char>>, said: SwitchArgsView, flag: Seq<char>)
    requires
        switch_scanned(switch_defaults(), args, 0) == Ok::<SwitchArgsView, ErrorView>(said),
        !switch_flag_takes_value(flag),
    ensures
        switch_scanned(switch_defaults(), args + seq![flag], 0) == switch_with_flag(said, flag),
{
    let all = args + seq![flag];
    let at = args.len() as int;
    lemma_switch_read_so_far(switch_defaults(), args, seq![flag], 0);
    assert(all[at] == flag);
    assert(all.len() == at + 1);
    if let Ok(next) = switch_with_flag(said, flag) {
        assert(switch_scanned(next, all, at + 1) == Ok::<SwitchArgsView, ErrorView>(next));
    }
}

/// An argument with a value sets what it names, whatever was said before, and
/// changes nothing else; one more builder comes after those that were named.
pub proof fn law_switch_values_are_read(
    args: Seq<Seq<char>>,
    said: SwitchArgsView,
    value: Seq<char>,
)
    requires
        switch_scanned(switch_defaults(), args, 0) == Ok::<SwitchArgsView, ErrorView>(said),
        !"--"@.is_prefix_of(value),
    ensures
        switch_scanned(switch_defaults(), args + seq!["--action"@, value], 0) == Ok::<
            SwitchArgsView,
            ErrorView,
        >(SwitchArgsView { action: value, ..said }),
        switch_scanned(switch_defaults(), args + seq!["--flake"@, value], 0) == Ok::<
            SwitchArgsView,
            ErrorView,
        >(SwitchArgsView { flake_attr: Some(value), ..said }),
        switch_scanned(switch_defaults(), args + seq!["--toplevel"@, value], 0) == Ok::<
            SwitchArgsView,
            ErrorView,
        >(SwitchArgsView { toplevel_attr: Some(value), ..said }),
        switch_scanned(switch_defaults(), args + seq!["--target-host"@, value], 0) == Ok::<
            SwitchArgsView,
            ErrorView,
        >(SwitchArgsView { target_ssh: Some(value), ..said }),
        switch_scanned(switch_defaults(), args + seq!["--publish-command"@, value], 0) == Ok::<
            SwitchArgsView,
            ErrorView,
        >(SwitchArgsView { publish_command: Some(value), ..said }),
        switch_scanned(switch_defaults(), args + seq!["--verify-command"@, value], 0) == Ok::<
            SwitchArgsView,
            ErrorView,
        >(SwitchArgsView { verify_command: Some(value), ..said }),
        switch_scanned(switch_defaults(), args + seq!["--realization-policy"@, value], 0) == Ok::<
            SwitchArgsView,
            ErrorView,
        >(SwitchArgsView { policy: value, ..said }),
        switch_scanned(switch_defaults(), args + seq!["--remote-builder"@, value], 0) == Ok::<
            SwitchArgsView,
            ErrorView,
        >(SwitchArgsView { builders: said.builders.push(value), ..said }),
        switch_scanned(switch_defaults(), args + seq!["--max-jobs"@, value], 0)
            == match text::u32_value(value) {
            Some(jobs) => Ok::<SwitchArgsView, ErrorView>(
                SwitchArgsView { max_jobs: Some(jobs), ..said },
            ),
            None => Err(ErrorView::InvalidMaxJobs { value }),
        },
{
    reveal_strlit("--action");
    reveal_strlit("--flake");
    reveal_strlit("--toplevel");
    reveal_strlit("--target-host");
    reveal_strlit("--publish-command");
    reveal_strlit("--verify-command");
    reveal_strlit("--max-jobs");
    reveal_strlit("--realization-policy");
    reveal_strlit("--remote-builder");
    reveal_strlit("--use-substitutes");
    reveal_strlit("--use-remote-sudo");
    reveal_strlit("--capture");
    reveal_strlit("--no-capture");
    reveal_strlit("--sudo");
    assert("--action"@.len() == 8);
    assert("--flake"@.len() == 7);
    assert("--toplevel"@.len() == 10);
    assert("--target-host"@.len() == 13);
    assert("--publish-command"@.len() == 17);
    assert("--verify-command"@.len() == 16);
    assert("--max-jobs"@.len() == 10);
    assert("--realization-policy"@.len() == 20);
    assert("--remote-builder"@.len() == 16);
    assert("--use-substitutes"@.len() == 17);
    assert("--use-remote-sudo"@.len() == 17);
    assert("--capture"@.len() == 9);
    assert("--no-capture"@.len() == 12);
    assert("--sudo"@.len() == 6);
    assert("--toplevel"@[2] == 't');
    assert("--max-jobs"@[2] == 'm');
    assert("--publish-command"@[2] == 'p');
    assert("--use-substitutes"@[2] == 'u');
    assert("--publish-command"@[2] == 'p');
    assert("--use-remote-sudo"@[2] == 'u');
    assert("--verify-command"@[2] == 'v');
    assert("--remote-builder"@[2] == 'r');
    assert("--use-substitutes"@[6] == 's');
    assert("--use-remote-sudo"@[6] == 'r');
    lemma_switch_value_is_read(args, said, "--action"@, value);
    lemma_switch_value_is_read(args, said, "--flake"@, value);
    lemma_switch_value_is_read(args, said, "--toplevel"@, value);
    lemma_switch_value_is_read(args, said, "--target-host"@, value);
    lemma_switch_value_is_read(args, said, "--publish-command"@, value);
    lemma_switch_value_is_read(args, said, "--verify-command"@, value);
    lemma_switch_value_is_read(args, said, "--max-jobs"@, value);
    lemma_switch_value_is_read(args, said, "--realization-policy"@, value);
    lemma_switch_value_is_read(args, said, "--remote-builder"@, value);
}

/// A flag without a value switches on what it names, or off again, whatever was
/// said before, and changes nothing else.
pub proof fn law_switch_flags_are_read(args: Seq<Seq<char>>, said: SwitchArgsView)
    requires
        switch_scanned(switch_defaults(), args, 0) == Ok::<SwitchArgsView, ErrorView>(said),
    ensures
        switch_scanned(switch_defaults(), args + seq!["--use-substitutes"@], 0) == Ok::<
            SwitchArgsView,
            ErrorView,
        >(SwitchArgsView { use_substitutes: true, ..said }),
        switch_scanned(switch_defaults(), args + seq!["--use-remote-sudo"@], 0) == Ok::<
            SwitchArgsView,
            ErrorView,
        >(SwitchArgsView { remote_sudo: true, ..said }),
        switch_scanned(switch_defaults(), args + seq!["--capture"@], 0) == Ok::<
            SwitchArgsView,
            ErrorView,
        >(SwitchArgsView { capture: true, ..said }),
        switch_scanned(switch_defaults(), args + seq!["--no-capture"@], 0) == Ok::<
            SwitchArgsView,
            ErrorView,
        >(SwitchArgsView { capture: false, ..said }),
        switch_scanned(switch_defaults(), args + seq!["--sudo"@], 0) == Ok::<
            SwitchArgsView,
            ErrorView,
        >(SwitchArgsView { sudo: true, ..said }),
{
    reveal_strlit("--action");
    reveal_strlit("--flake");
    reveal_strlit("--toplevel");
    reveal_strlit("--target-host");
    reveal_strlit("--publish-command");
    reveal_strlit("--verify-command");
    reveal_strlit("--max-jobs");
    reveal_strlit("--realization-policy");
    reveal_strlit("--remote-builder");
    reveal_strlit("--use-substitutes");
    reveal_strlit("--use-remote-sudo");
    reveal_strlit("--capture");
    reveal_strlit("--no-capture");
    reveal_strlit("--sudo");
    assert("--action"@.len() == 8);
    assert("--flake"@.len() == 7);
    assert("--toplevel"@.len() == 10);
    assert("--target-host"@.len() == 13);
    assert("--publish-command"@.len() == 17);
    assert("--verify-command"@.len() == 16);
    assert("--max-jobs"@.len() == 10);
    assert("--realization-policy"@.len() == 20);
    assert("--remote-builder"@.len() == 16);
    assert("--use-substitutes"@.len() == 17);
    assert("--use-remote-sudo"@.len() == 17);
    assert("--capture"@.len() == 9);
    assert("--no-capture"@.len() == 12);
    assert("--sudo"@.len() == 6);
    assert("--toplevel"@[2] == 't');
    assert("--max-jobs"@[2] == 'm');
    assert("--publish-command"@[2] == 'p');
    assert("--use-substitutes"@[2] == 'u');
    assert("--publish-command"@[2] == 'p');
    assert("--use-remote-sudo"@[2] == 'u');
    assert("--verify-command"@[2] == 'v');
    assert("--remote-builder"@[2] == 'r');
    assert("--use-substitutes"@[6] == 's');
    assert("--use-remote-sudo"@[6] == 'r');
    lemma_switch_flag_is_read(args, said, "--use-substitutes"@);
    lemma_switch_flag_is_read(args, said, "--use-remote-sudo"@);
    lemma_switch_flag_is_read(args, said, "--capture"@);
    lemma_switch_flag_is_read(args, said, "--no-capture"@);
    lemma_switch_flag_is_read(args, said, "--sudo"@);
}

/// What was read so far does not depend on what follows.
proof fn lemma_plan_read_so_far(
    before: PlanArgsView,
    args: Seq<Seq<char>>,
    more: Seq<Seq<char>>,
    at: int,
)
    requires
        0 <= at <= args.len(),
        plan_scanned(before, args, at) is Ok,
    ensures
        plan_scanned(before, args + more, at) == plan_scanned(
            plan_scanned(before, args, at)->Ok_0,
            args + more,
            args.len() as int,
        ),
    decreases args.len() - at,
{
    let all = args + more;
    if at < args.len() {
        assert(all[at] == args[at]);
        if plan_flag_takes_value(args[at]) {
            assert(at + 1 < args.len());
            assert(all[at + 1] == args[at + 1]);
            let next = plan_with_value(before, args[at], args[at + 1])->Ok_0;
            lemma_plan_read_so_far(next, args, more, at + 2);
        } else {
            let next = plan_with_flag(before, args[at])->Ok_0;
            lemma_plan_read_so_far(next, args, more, at + 1);
        }
    }
}

proof fn lemma_plan_value_is_read(
    args: Seq<Seq<char>>,
    said: PlanArgsView,
    flag: Seq<char>,
    value: Seq<char>,
)
    requires
        plan_scanned(plan_defaults(), args, 0) == Ok::<PlanArgsView, ErrorView>(said),
        plan_flag_takes_value(flag),
        !"--"@.is_prefix_of(value),
    ensures
        plan_scanned(plan_defaults(), args + seq![flag, value], 0) == plan_with_value(
            said,
            flag,
            value,
        ),
{
    let all = args + seq![flag, value];
    let at = args.len() as int;
    lemma_plan_read_so_far(plan_defaults(), args, seq![flag, value], 0);
    assert(all[at] == flag);
    assert(all[at + 1] == value);
    assert(all.len() == at + 2);
    if let Ok(next) = plan_with_value(said, flag, value) {
        assert(plan_scanned(next, all, at + 2) == Ok::<PlanArgsView, ErrorView>(next));
    }
}

proof fn lemma_plan_flag_is_read(args: Seq<Seq<char>>, said: PlanArgsView, flag: Seq<char>)
    requires
        plan_scanned(plan_defaults(), args, 0) == Ok::<PlanArgsView, ErrorView>(said),
        !plan_flag_takes_value(flag),
    ensures
        plan_scanned(plan_defaults(), args + seq![flag], 0) == plan_with_flag(said, flag),
{
    let all = args + seq![flag];
    let at = args.len() as int;
    lemma_plan_read_so_far(plan_defaults(), args, seq![flag], 0);
    assert(all[at] == flag);
    assert(all.len() == at + 1);
    if let Ok(next) = plan_with_flag(said, flag) {
        assert(plan_scanned(next, all, at + 1) == Ok::<PlanArgsView, ErrorView>(next));
    }
}

/// An argument of the planner sets what it names, whatever was said before, and
/// changes nothing else. Stores, builders and hints come after those that were
/// named before. Hints that are named by their label are not looked for.
pub proof fn law_plan_arguments_are_read(
    args: Seq<Seq<char>>,
    said: PlanArgsView,
    value: Seq<char>,
)
    requires
        plan_scanned(plan_defaults(), args, 0) == Ok::<PlanArgsView, ErrorView>(said),
        !"--"@.is_prefix_of(value),
    ensures
        plan_scanned(plan_defaults(), args + seq!["--toplevel"@, value], 0) == Ok::<
            PlanArgsView,
            ErrorView,
        >(PlanArgsView { toplevel_attr: Some(value), ..said }),
        plan_scanned(plan_defaults(), args + seq!["--build-system"@, value], 0) == Ok::<
            PlanArgsView,
            ErrorView,
        >(PlanArgsView { build_system: Some(value), ..said }),
        plan_scanned(plan_defaults(), args + seq!["--host-system"@, value], 0) == Ok::<
            PlanArgsView,
            ErrorView,
        >(PlanArgsView { host_system: Some(value), ..said }),
        plan_scanned(plan_defaults(), args + seq!["--substituter"@, value], 0) == Ok::<
            PlanArgsView,
            ErrorView,
        >(PlanArgsView { substituters: said.substituters.push(value), ..said }),
        plan_scanned(plan_defaults(), args + seq!["--realization-policy"@, value], 0) == Ok::<
            PlanArgsView,
            ErrorView,
        >(PlanArgsView { policy: value, ..said }),
        plan_scanned(plan_defaults(), args + seq!["--remote-builder"@, value], 0) == Ok::<
            PlanArgsView,
            ErrorView,
        >(PlanArgsView { builders: said.builders.push(value), ..said }),
        plan_scanned(plan_defaults(), args + seq!["--json"@], 0) == Ok::<PlanArgsView, ErrorView>(
            PlanArgsView { json: true, ..said },
        ),
        plan_scanned(plan_defaults(), args + seq!["--route-hint"@, value], 0) == match hint_of(
            value,
        ) {
            Ok(hint) => Ok::<PlanArgsView, ErrorView>(
                PlanArgsView { route_hints: said.route_hints.push(hint), ..said },
            ),
            Err(error) => Err(error),
        },
        plan_scanned(plan_defaults(), args + seq!["--skip-probe"@, value], 0) matches Ok(after) ==> {
            &&& after == (PlanArgsView { route_hints: after.route_hints, ..said })
            &&& after.route_hints.len() == said.route_hints.len()
            &&& forall|i: int|
                0 <= i < said.route_hints.len() ==> #[trigger] after.route_hints[i] == (HintView {
                    skip_probe: said.route_hints[i].skip_probe || said.route_hints[i].label
                        == value,
                    ..said.route_hints[i]
                })
        },
        plan_scanned(plan_defaults(), args + seq!["--skip-probe"@, value], 0) is Ok
            <==> exists|i: int|
            0 <= i < said.route_hints.len() && (#[trigger] said.route_hints[i]).label == value,
{
    reveal_strlit("--toplevel");
    reveal_strlit("--build-system");
    reveal_strlit("--host-system");
    reveal_strlit("--substituter");
    reveal_strlit("--route-hint");
    reveal_strlit("--skip-probe");
    reveal_strlit("--realization-policy");
    reveal_strlit("--remote-builder");
    reveal_strlit("--json");
    assert("--toplevel"@.len() == 10);
    assert("--build-system"@.len() == 14);
    assert("--host-system"@.len() == 13);
    assert("--substituter"@.len() == 13);
    assert("--route-hint"@.len() == 12);
    assert("--skip-probe"@.len() == 12);
    assert("--realization-policy"@.len() == 20);
    assert("--remote-builder"@.len() == 16);
    assert("--json"@.len() == 6);
    assert("--host-system"@[2] == 'h');
    assert("--substituter"@[2] == 's');
    assert("--route-hint"@[2] == 'r');
    assert("--skip-probe"@[2] == 's');
    lemma_plan_value_is_read(args, said, "--toplevel"@, value);
    lemma_plan_value_is_read(args, said, "--build-system"@, value);
    lemma_plan_value_is_read(args, said, "--host-system"@, value);
    lemma_plan_value_is_read(args, said, "--substituter"@, value);
    lemma_plan_value_is_read(args, said, "--route-hint"@, value);
    lemma_plan_value_is_read(args, said, "--skip-probe"@, value);
    lemma_plan_value_is_read(args, said, "--realization-policy"@, value);
    lemma_plan_value_is_read(args, said, "--remote-builder"@, value);
    lemma_plan_flag_is_read(args, said, "--json"@);
}

/// An argument that is not known is an error that names it, and one that lacks
/// its value is an error that says so; what looks like a flag is no value.
pub proof fn law_unreadable_arguments_are_refused(
    args: Seq<Seq<char>>,
    argument: Seq<char>,
    next: Seq<char>,
)
    requires
        "--"@.is_prefix_of(next),
    ensures
        switch_scanned(switch_defaults(), args, 0) is Ok ==> {
            &&& switch_flag_takes_value(argument) ==> switch_scanned(
                switch_defaults(),
                args + seq![argument],
                0,
            ) == Err::<SwitchArgsView, ErrorView>(
                ErrorView::MissingArgumentValue { flag: argument },
            ) && switch_scanned(switch_defaults(), args + seq![argument, next], 0) == Err::<
                SwitchArgsView,
                ErrorView,
            >(ErrorView::MissingArgumentValue { flag: argument })
            &&& !switch_flag_takes_value(argument) && !(argument == "--use-substitutes"@ || argument
                == "--use-remote-sudo"@ || argument == "--capture"@ || argument == "--no-capture"@
                || argument == "--sudo"@) ==> switch_scanned(
                switch_defaults(),
                args + seq![argument],
                0,
            ) == Err::<SwitchArgsView, ErrorView>(
                ErrorView::UnknownArgument { argument, usage: usage_text() },
            )
        },
        plan_scanned(plan_defaults(), args, 0) is Ok ==> {
            &&& plan_flag_takes_value(argument) ==> plan_scanned(
                plan_defaults(),
                args + seq![argument],
                0,
            ) == Err::<PlanArgsView, ErrorView>(
                ErrorView::MissingArgumentValue { flag: argument },
            ) && plan_scanned(plan_defaults(), args + seq![argument, next], 0) == Err::<
                PlanArgsView,
                ErrorView,
            >(ErrorView::MissingArgumentValue { flag: argument })
            &&& !plan_flag_takes_value(argument) && argument != "--json"@ ==> plan_scanned(
                plan_defaults(),
                args + seq![argument],
                0,
            ) == Err::<PlanArgsView, ErrorView>(
                ErrorView::UnknownArgument { argument, usage: plan_usage_text() },
            )
        },
{
    let at = args.len() as int;
    let one = seq![argument];
    let two = seq![argument, next];
    assert((args + one)[at] == argument);
    assert((args + two)[at] == argument);
    assert((args + two)[at + 1] == next);
    if switch_scanned(switch_defaults(), args, 0) is Ok {
        lemma_switch_read_so_far(switch_defaults(), args, one, 0);
        lemma_switch_read_so_far(switch_defaults(), args, two, 0);
    }
    if plan_scanned(plan_defaults(), args, 0) is Ok {
        lemma_plan_read_so_far(plan_defaults(), args, one, 0);
        lemma_plan_read_so_far(plan_defaults(), args, two, 0);
    }
}

/// Without any argument a switch is asked for, of nothing yet, with nothing
/// switched on and under the policy that only substitutes; and a plan of nothing
/// under that policy.
pub proof fn law_nothing_is_said_at_first()
    ensures
        switch_scanned(switch_defaults(), Seq::empty(), 0) matches Ok(said) && said.action
            == "switch"@ && said.flake_attr is None && said.toplevel_attr is None
            && said.target_ssh is None && !said.use_substitutes && !said.capture && !said.sudo
            && !said.remote_sudo && said.publish_command is None && said.verify_command is None
            && said.max_jobs is None && said.policy == "substitute-only"@ && said.builders.len()
            == 0,
        plan_scanned(plan_defaults(), Seq::empty(), 0) matches Ok(said) && said.toplevel_attr is None
            && said.build_system is None && said.host_system is None && said.substituters.len() == 0
            && !said.json && said.policy == "substitute-only"@ && said.builders.len() == 0
            && said.route_hints.len() == 0,
{
}

/// What was said of a switch is what is done: its options are those that were
/// read, under the policy of the name, with the builders that were named. It is
/// refused for an action that is none, for a capture without a publish command,
/// for a policy that is none or that takes no builders, and for want of a flake
/// or a toplevel, in this order.
pub proof fn law_switches_are_as_said(args: Seq<Seq<char>>, said: SwitchArgsView)
    requires
        switch_scanned(switch_defaults(), args, 0) == Ok::<SwitchArgsView, ErrorView>(said),
    ensures
        ({
            let acts = said.action == "switch"@ || said.action == "boot"@ || said.action == "test"@
                || said.action == "build"@;
            let captures = !said.capture || said.publish_command is Some;
            let substitutes = said.policy == "substitute-only"@ && said.builders.len() == 0;
            let builds = said.policy == "remote-native"@;
            let result = parsed_switch(args);
            &&& result is Ok <==> acts && captures && (substitutes || builds)
                && said.flake_attr is Some && said.toplevel_attr is Some
            &&& result matches Ok(options) ==> {
                &&& options.action == said.action
                &&& said.flake_attr == Some(options.flake_attr)
                &&& said.toplevel_attr == Some(options.toplevel_attr)
                &&& options.target_ssh == said.target_ssh
                &&& options.use_substitutes == said.use_substitutes
                &&& options.capture == said.capture
                &&& options.sudo == said.sudo
                &&& options.remote_sudo == said.remote_sudo
                &&& options.publish_command == said.publish_command
                &&& options.verify_command == said.verify_command
                &&& options.max_jobs == said.max_jobs
                &&& options.realization_policy == if builds {
                    PolicyView::RemoteNative { builders: said.builders }
                } else {
                    PolicyView::SubstituteOnly
                }
            }
            &&& !acts ==> result == Err::<CliView, ErrorView>(
                ErrorView::UnsupportedAction { action: said.action },
            )
            &&& acts && !captures ==> result == Err::<CliView, ErrorView>(
                ErrorView::CaptureRequiresPublishCommand,
            )
            &&& acts && captures && !substitutes && !builds ==> result == Err::<CliView, ErrorView>(
                ErrorView::InvalidRealizationPolicy { value: said.policy },
            )
            &&& acts && captures && (substitutes || builds) && said.flake_attr is None ==> result
                == Err::<CliView, ErrorView>(
                ErrorView::MissingRequiredArgument { flag: "--flake"@ },
            )
            &&& acts && captures && (substitutes || builds) && said.flake_attr is Some
                && said.toplevel_attr is None ==> result == Err::<CliView, ErrorView>(
                ErrorView::MissingRequiredArgument { flag: "--toplevel"@ },
            )
        }),
{
    lemma_policies_differ();
}

proof fn lemma_policies_differ()
    ensures
        "substitute-only"@ != "remote-native"@,
{
    reveal_strlit("substitute-only");
    reveal_strlit("remote-native");
    assert("substitute-only"@.len() == 15);
    assert("remote-native"@.len() == 13);
}

/// What was said of a plan is what is planned, and a plan is refused for a policy
/// that is none or that takes no builders, and for want of a toplevel, of either
/// system or of a store, in this order.
pub proof fn law_plans_are_as_said(args: Seq<Seq<char>>, said: PlanArgsView)
    requires
        plan_scanned(plan_defaults(), args, 0) == Ok::<PlanArgsView, ErrorView>(said),
    ensures
        ({
            let substitutes = said.policy == "substitute-only"@ && said.builders.len() == 0;
            let builds = said.policy == "remote-native"@;
            let result = parsed_plan(args);
            &&& result is Ok <==> (substitutes || builds) && said.toplevel_attr is Some
                && said.build_system is Some && said.host_system is Some && said.substituters.len()
                > 0
            &&& result matches Ok(options) ==> {
                &&& said.toplevel_attr == Some(options.toplevel_attr)
                &&& said.build_system == Some(options.build_system)
                &&& said.host_system == Some(options.host_system)
                &&& options.substituters == said.substituters
                &&& options.json == said.json
                &&& options.route_hints == said.route_hints
                &&& options.realization_policy == if builds {
                    PolicyView::RemoteNative { builders: said.builders }
                } else {
                    PolicyView::SubstituteOnly
                }
            }
            &&& !substitutes && !builds ==> result == Err::<PlanOptionsView, ErrorView>(
                ErrorView::InvalidRealizationPolicy { value: said.policy },
            )
            &&& (substitutes || builds) && said.toplevel_attr is None ==> result == Err::<
                PlanOptionsView,
                ErrorView,
            >(ErrorView::MissingRequiredArgument { flag: "--toplevel"@ })
            &&& (substitutes || builds) && said.toplevel_attr is Some && said.build_system is None
                ==> result == Err::<PlanOptionsView, ErrorView>(
                ErrorView::MissingRequiredArgument { flag: "--build-system"@ },
            )
            &&& (substitutes || builds) && said.toplevel_attr is Some && said.build_system is Some
                && said.host_system is None ==> result == Err::<PlanOptionsView, ErrorView>(
                ErrorView::MissingRequiredArgument { flag: "--host-system"@ },
            )
            &&& (substitutes || builds) && said.toplevel_attr is Some && said.build_system is Some
                && said.host_system is Some && said.substituters.len() == 0 ==> result == Err::<
                PlanOptionsView,
                ErrorView,
            >(ErrorView::MissingRequiredArgument { flag: "--substituter"@ })
        }),
{
    lemma_policies_differ();
}

/// A route hint without a colon or without an at sign is no hint, and one with a
/// route that is none names it.
pub proof fn law_malformed_hints_are_refused(
    target: Seq<char>,
    route: Seq<char>,
)
    requires
        !route.contains(':'),
    ensures
        hint_of(route) == Err::<HintView, ErrorView>(
            ErrorView::MissingArgumentValue { flag: "--route-hint"@ },
        ),
        route != "fail"@ && route != "build-local"@ && route != "remote-native"@ ==> hint_of(
            target.push(':') + route,
        ) == Err::<HintView, ErrorView>(
            ErrorView::UnknownArgument {
                argument: "--route-hint route `"@ + route + "`"@,
                usage: plan_usage_text(),
            },
        ),
        (route == "fail"@ || route == "build-local"@ || route == "remote-native"@)
            && !target.contains('@') ==> hint_of(target.push(':') + route) == Err::<
            HintView,
            ErrorView,
        >(ErrorView::MissingArgumentValue { flag: "--route-hint"@ }),
{
    text::law_splits_leave_out_the_character(target, ':', route);
    text::law_splits_leave_out_the_character(route, ':', route);
    text::law_splits_leave_out_the_character(target, '@', target);
}

/// A hint is for the route that it names.
pub proof fn law_hints_are_for_the_route_they_name()
    ensures
        route_name(MissRoute::Fail) == "fail"@,
        route_name(MissRoute::BuildLocal) == "build-local"@,
        route_name(MissRoute::RemoteNative) == "remote-native"@,
{
}

/// The first word decides what is invoked: after `plan` it is the planner, and
/// otherwise a switch. Asking for help, anywhere, gives help and nothing else.
pub proof fn law_the_first_word_decides(args: Seq<Seq<char>>)
    ensures
        ({
            let helps = args.contains("-h"@) || args.contains("--help"@);
            &&& invoked(seq!["plan"@] + args) == if helps {
                Ok::<InvocationView, ErrorView>(InvocationView::PlanHelp)
            } else {
                match parsed_plan(args) {
                    Ok(options) => Ok(InvocationView::Plan(options)),
                    Err(error) => Err(error),
                }
            }
            &&& !(args.len() > 0 && args[0] == "plan"@) ==> invoked(args) == if helps {
                Ok::<InvocationView, ErrorView>(InvocationView::Help)
            } else {
                match parsed_switch(args) {
                    Ok(options) => Ok(InvocationView::Switch(options)),
                    Err(error) => Err(error),
                }
            }
        }),
{
    assert((seq!["plan"@] + args).drop_first() =~= args);
}

/// A switch does what its options say, each of them.
pub proof fn law_options_are_followed(options: CliView)
    ensures
        ({
            let switch = options.requested_switch();
            &&& switch.action == options.action
            &&& switch.flake_attr == options.flake_attr
            &&& switch.toplevel_attr == options.toplevel_attr
            &&& switch.target_ssh == options.target_ssh
            &&& switch.use_substitutes == options.use_substitutes
            &&& switch.capture == options.capture
            &&& switch.sudo == options.sudo
            &&& switch.remote_sudo == options.remote_sudo
            &&& switch.max_jobs == options.max_jobs
            &&& switch.realization_policy == options.realization_policy
        }),
{
}

/// A report begins with the systems and the counts of a plan. What has to be
/// built here, what goes to a builder, and what is not handled follow, each under
/// its heading and in the order of the plan; without any there is no heading.
pub proof fn law_reports_list_what_needs_work(plan: PlanView)
    ensures
        ({
            let head = seq![
                "build-system="@ + plan.build_system,
                "host-system="@ + plan.host_system,
                "local-present="@ + text::decimal(plan.counts.local_present),
                "host-substituted="@ + text::decimal(plan.counts.host_substituted),
                "build-local="@ + text::decimal(plan.counts.build_local),
                "host-remote="@ + text::decimal(plan.counts.host_remote),
                "unhandled="@ + text::decimal(plan.counts.unhandled),
            ];
            report_lines(plan) == head + class_section(
                plan.derivations,
                DerivationClass::BuildLocal,
            ) + class_section(plan.derivations, DerivationClass::HostRemote) + class_section(
                plan.derivations,
                DerivationClass::Unhandled,
            )
        }),
{
}

/// A section lists the derivations of its class, in order: one more derivation
/// of the class is one more line, below the heading, and one of another class
/// changes nothing.
pub proof fn law_sections_list_their_class(
    derivations: Seq<DerivationView>,
    derivation: DerivationView,
    class: DerivationClass,
)
    ensures
        class_section(Seq::empty(), class) == Seq::<Seq<char>>::empty(),
        derivation.class != class ==> class_section(derivations.push(derivation), class)
            == class_section(derivations, class),
        derivation.class == class ==> {
            let line = "  "@ + derivation.display_label() + " ["@ + derivation.drv + "]"@;
            let before = class_section(derivations, class);
            class_section(derivations.push(derivation), class) == if before.len() == 0 {
                seq![class_heading(class), line]
            } else {
                before.push(line)
            }
        },
        class_heading(DerivationClass::BuildLocal) == "BuildLocal:"@,
        class_heading(DerivationClass::HostRemote) == "HostRemote:"@,
        class_heading(DerivationClass::Unhandled) == "Unhandled:"@,
{
    reveal(Seq::filter);
    let of = |derivation: DerivationView| derivation.class == class;
    let line = |derivation: DerivationView| derivation_line(derivation);
    let all = derivations.push(derivation);
    assert(all.drop_last() =~= derivations);
    let members = derivations.filter(of);
    assert(members.push(derivation).map_values(line) =~= members.map_values(line).push(
        derivation_line(derivation),
    ));
    if members.len() == 0 {
        assert(members =~= Seq::empty());
        assert(seq![class_heading(class)] + members.push(derivation).map_values(line) =~= seq![
            class_heading(class),
            derivation_line(derivation),
        ]);
    } else {
        assert(seq![class_heading(class)] + members.map_values(line).push(
            derivation_line(derivation),
        ) =~= (seq![class_heading(class)] + members.map_values(line)).push(
            derivation_line(derivation),
        ));
    }
}

/// The publish command is what publishes, and nothing is published without one:
/// it is fed the paths, and its failure is the failure of the publication.
pub proof fn law_publish_commands_publish<S: PathCommand, R: Runner>(
    party: &CliParties<'_, S, R>,
    paths: Seq<Seq<char>>,
    result: Result<()>,
)
    requires
        published(party, paths, result),
    ensures
        party.options@.publish_command is None ==> outcome(result) == Err::<(), ErrorView>(
            ErrorView::NoPublisherConfigured,
        ),
        party.options@.publish_command matches Some(command) ==> exists|answer: Result<String>|
         #[trigger]
            answered(party.shell, command, paths, answer) && (result is Ok <==> answer is Ok) && (
            result is Err ==> answer is Err && result->Err_0 == answer->Err_0),
{
    let list = choose|list: &[String]|
        #![trigger call_ensures(CliParties::<'_, S, R>::publish, (party, list), result)]
        list.deep_view() == paths && call_ensures(
            CliParties::<'_, S, R>::publish,
            (party, list),
            result,
        );
    assert(call_ensures(CliParties::<'_, S, R>::publish, (party, list), result));
    if let Some(command) = party.options@.publish_command {
        assert(command_published(party.shell, command, paths, result));
        let answer = choose|answer: Result<String>|
            #![trigger answered(party.shell, command, paths, answer)]
            answered(party.shell, command, paths, answer) && match answer {
                Ok(_) => result == Ok::<(), Error>(()),
                Err(error) => result == Err::<(), Error>(error),
            };
        assert(answered(party.shell, command, paths, answer));
    }
}

/// The verify command is what verifies: it is fed the paths, and every line that
/// it prints, but for blank ones, is a path that is missing. Without one nothing
/// is missing.
pub proof fn law_verify_commands_verify<S: PathCommand, R: Runner>(
    party: &CliParties<'_, S, R>,
    paths: Seq<Seq<char>>,
    result: Result<Vec<String>>,
)
    requires
        verified(party, paths, result),
    ensures
        party.options@.verify_command is None ==> (result matches Ok(missing)
            && missing.deep_view().len() == 0),
        party.options@.verify_command matches Some(command) ==> exists|answer: Result<String>|
         #[trigger]
            answered(party.shell, command, paths, answer) && match answer {
                Ok(printed) => result matches Ok(missing) && missing.deep_view()
                    == text::trimmed_lines(printed@),
                Err(error) => result == Err::<Vec<String>, Error>(error),
            },
{
    let list = choose|list: &[String]|
        #![trigger call_ensures(CliParties::<'_, S, R>::verify_present, (party, list), result)]
        list.deep_view() == paths && call_ensures(
            CliParties::<'_, S, R>::verify_present,
            (party, list),
            result,
        );
    assert(call_ensures(CliParties::<'_, S, R>::verify_present, (party, list), result));
    if let Some(command) = party.options@.verify_command {
        assert(command_verified(party.shell, command, paths, result));
        let answer = choose|answer: Result<String>|
            #![trigger answered(party.shell, command, paths, answer)]
            answered(party.shell, command, paths, answer) && match answer {
                Ok(printed) => outcome(result) == Ok::<Seq<Seq<char>>, ErrorView>(
                    text::trimmed_lines(printed@),
                ),
                Err(error) => result == Err::<Vec<String>, Error>(error),
            };
        assert(answered(party.shell, command, paths, answer));
    }
}

/// A shell that could not have given the answer to the command, fed the paths,
/// was not handed them with that answer.
pub proof fn law_shells_are_handed_the_paths<S: PathCommand>(
    shell: &S,
    command: Seq<char>,
    paths: Seq<Seq<char>>,
    result: Result<String>,
)
    requires
        forall|line: &str, list: &[String]|
            line@ == command && list.deep_view() == paths ==> !#[trigger] call_ensures(
                S::run,
                (shell, line, list),
                result,
            ),
    ensures
        !answered(shell, command, paths, result),
{
}

} // verus!
