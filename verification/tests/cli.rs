//! Command-line arguments.

use std::cell::RefCell;

use crossbow_switch::cli::{
    parse_args, parse_invocation, parse_plan_args, parse_route_hint, plan_report, plan_usage,
    run_with_options, usage, CliOptions, CliParties, Invocation, PathCommand,
};
use crossbow_switch::switch::Runner;
use crossbow_switch::{
    Calls, ClosurePlan, DerivationClass, DerivationPlan, Error, MissRoute, PlanCounts,
    PreparedSwitch, RealizationPolicy, RealizationRoute, Result, SwitchPlan, PLAN_SCHEMA_VERSION,
};

fn args(list: &[&str]) -> Vec<String> {
    list.iter().map(|arg| (*arg).to_owned()).collect()
}

#[test]
fn parser_builds_default_switch_options() -> Result<()> {
    let options = parse_args(&args(&[
        "--flake",
        ".#host",
        "--toplevel",
        ".#nixosConfigurations.host.config.system.build.toplevel",
    ]))?;

    assert_eq!(options.action, "switch");
    assert_eq!(options.flake_attr, ".#host");
    assert!(!options.capture);
    assert!(!options.use_substitutes);
    assert!(!options.remote_sudo);
    assert_eq!(
        options.realization_policy,
        RealizationPolicy::SubstituteOnly
    );
    Ok(())
}

#[test]
fn planner_parser_requires_read_only_inputs() {
    let error = parse_plan_args(&args(&["--toplevel", ".#top"])).unwrap_err();
    assert!(error.to_string().contains("--build-system"));
}

#[test]
fn planner_parser_accepts_machine_readable_substitute_only_plan() -> Result<()> {
    let options = parse_plan_args(&args(&[
        "--toplevel",
        ".#top",
        "--build-system",
        "x86_64-linux",
        "--host-system",
        "aarch64-linux",
        "--substituter",
        "https://cache.example",
        "--json",
    ]))?;

    assert!(options.json);
    assert_eq!(options.substituters, vec!["https://cache.example"]);
    assert_eq!(
        options.realization_policy,
        RealizationPolicy::SubstituteOnly
    );
    Ok(())
}

#[test]
fn planner_parser_accepts_repeated_substituters() -> Result<()> {
    let options = parse_plan_args(&args(&[
        "--toplevel",
        ".#top",
        "--build-system",
        "x86_64-linux",
        "--host-system",
        "aarch64-linux",
        "--substituter",
        "https://private.example",
        "--substituter",
        "https://cache.nixos.org",
    ]))?;

    assert_eq!(
        options.substituters,
        vec![
            "https://private.example".to_string(),
            "https://cache.nixos.org".to_string()
        ]
    );
    Ok(())
}

#[test]
fn planner_parser_accepts_route_hints() -> Result<()> {
    let options = parse_plan_args(&args(&[
        "--toplevel",
        ".#top",
        "--build-system",
        "x86_64-linux",
        "--host-system",
        "aarch64-linux",
        "--substituter",
        "https://cache.example",
        "--route-hint",
        "grpc@.#packages.x86_64-linux.grpc:build-local",
        "--route-hint",
        "plugin@.#plugin:remote-native",
        "--skip-probe",
        "grpc",
    ]))?;

    assert_eq!(options.route_hints.len(), 2);
    assert_eq!(options.route_hints[0].label, "grpc");
    assert_eq!(
        options.route_hints[0].installable,
        ".#packages.x86_64-linux.grpc"
    );
    assert_eq!(options.route_hints[0].on_miss, MissRoute::BuildLocal);
    assert!(options.route_hints[0].skip_probe);
    assert_eq!(options.route_hints[1].label, "plugin");
    assert_eq!(options.route_hints[1].on_miss, MissRoute::RemoteNative);
    assert!(!options.route_hints[1].skip_probe);
    Ok(())
}

#[test]
fn planner_parser_rejects_unknown_route_hint_route() {
    let error = parse_plan_args(&args(&[
        "--toplevel",
        ".#top",
        "--build-system",
        "x86_64-linux",
        "--host-system",
        "aarch64-linux",
        "--substituter",
        "https://cache.example",
        "--route-hint",
        "x@.#x:substitute",
    ]))
    .unwrap_err();
    assert!(error.to_string().contains("route `substitute`"));
}

#[test]
fn planner_parser_rejects_unknown_skip_probe_label() {
    let error = parse_plan_args(&args(&[
        "--toplevel",
        ".#top",
        "--build-system",
        "x86_64-linux",
        "--host-system",
        "aarch64-linux",
        "--substituter",
        "https://cache.example",
        "--skip-probe",
        "nope",
    ]))
    .unwrap_err();
    assert!(error.to_string().contains("--skip-probe nope"));
}

#[test]
fn parser_accepts_explicit_remote_native_builder() -> Result<()> {
    let options = parse_args(&args(&[
        "--flake",
        ".#host",
        "--toplevel",
        ".#top",
        "--realization-policy",
        "remote-native",
        "--remote-builder",
        "ssh-ng://arm aarch64-linux - 1 1",
    ]))?;

    assert_eq!(
        options.realization_policy,
        RealizationPolicy::RemoteNative {
            builders: vec!["ssh-ng://arm aarch64-linux - 1 1".to_string()]
        }
    );
    Ok(())
}

#[test]
fn parser_accepts_capture_with_publisher() -> Result<()> {
    let options = parse_args(&args(&[
        "--action",
        "build",
        "--flake",
        ".#host",
        "--toplevel",
        ".#top",
        "--target-host",
        "root@example",
        "--use-substitutes",
        "--use-remote-sudo",
        "--capture",
        "--publish-command",
        "cat >/tmp/paths",
        "--verify-command",
        "cat >/dev/null",
    ]))?;

    assert_eq!(options.action, "build");
    assert_eq!(options.target_ssh.as_deref(), Some("root@example"));
    assert!(options.use_substitutes);
    assert!(options.remote_sudo);
    assert!(options.capture);
    assert_eq!(options.publish_command.as_deref(), Some("cat >/tmp/paths"));
    Ok(())
}

#[test]
fn parser_rejects_capture_without_publisher() {
    let error =
        parse_args(&args(&["--flake", ".#host", "--toplevel", ".#top", "--capture"])).unwrap_err();

    assert!(error.to_string().contains("--publish-command"));
}

#[test]
fn parser_rejects_missing_required_flake() {
    let error = parse_args(&args(&["--toplevel", ".#top"])).unwrap_err();

    assert!(error.to_string().contains("missing --flake"));
}

#[test]
fn parser_rejects_flag_without_value() {
    let error =
        parse_args(&args(&["--flake", ".#host", "--toplevel", ".#top", "--action"])).unwrap_err();

    assert!(error.to_string().contains("--action requires a value"));
}

#[test]
fn parser_no_capture_overrides_capture() -> Result<()> {
    let options = parse_args(&args(&[
        "--flake",
        ".#host",
        "--toplevel",
        ".#top",
        "--capture",
        "--no-capture",
    ]))?;

    assert!(!options.capture);
    Ok(())
}

#[test]
fn parser_rejects_unknown_action() {
    let error = parse_args(&args(&[
        "--flake",
        ".#host",
        "--toplevel",
        ".#top",
        "--action",
        "dry-run",
    ]))
    .unwrap_err();

    assert!(
        error
            .to_string()
            .contains("unsupported nixos-rebuild action")
    );
}

#[test]
fn every_switch_flag_is_read() -> Result<()> {
    let options = parse_args(&args(&[
        "--flake", "f", "--toplevel", "t", "--sudo", "--max-jobs", "12", "--action", "boot",
    ]))?;
    assert!(options.sudo);
    assert_eq!(options.max_jobs, Some(12));
    assert_eq!(options.action, "boot");
    Ok(())
}

#[test]
fn unusable_switch_arguments_are_refused() {
    let refused = |list: &[&str]| parse_args(&args(list)).unwrap_err();
    assert_eq!(
        refused(&["--max-jobs", "many"]),
        Error::InvalidMaxJobs { value: "many".to_owned() }
    );
    assert_eq!(
        refused(&["--bogus"]),
        Error::UnknownArgument { argument: "--bogus".to_owned(), usage: usage().to_owned() }
    );
    assert_eq!(
        refused(&["-h"]),
        Error::UnknownArgument { argument: "-h".to_owned(), usage: usage().to_owned() }
    );
    assert_eq!(
        refused(&["--flake", "--toplevel"]),
        Error::MissingArgumentValue { flag: "--flake".to_owned() }
    );
    assert_eq!(
        refused(&["--flake", "f"]),
        Error::MissingRequiredArgument { flag: "--toplevel".to_owned() }
    );
    assert_eq!(
        refused(&["--flake", "f", "--toplevel", "t", "--realization-policy", "x"]),
        Error::InvalidRealizationPolicy { value: "x".to_owned() }
    );
    assert_eq!(
        refused(&["--flake", "f", "--toplevel", "t", "--remote-builder", "b"]),
        Error::InvalidRealizationPolicy { value: "substitute-only".to_owned() }
    );
}

#[test]
fn unusable_plan_arguments_are_refused() {
    let refused = |list: &[&str]| parse_plan_args(&args(list)).unwrap_err();
    assert_eq!(
        refused(&["--toplevel", "t", "--build-system", "b", "--host-system", "h"]),
        Error::MissingRequiredArgument { flag: "--substituter".to_owned() }
    );
    for hint in ["x@y", "xy:fail"] {
        assert_eq!(
            refused(&["--route-hint", hint]),
            Error::MissingArgumentValue { flag: "--route-hint".to_owned() }
        );
    }
    assert_eq!(
        refused(&["--sudo"]),
        Error::UnknownArgument { argument: "--sudo".to_owned(), usage: plan_usage().to_owned() }
    );
}

#[test]
fn route_hints_split_at_the_first_at_and_the_last_colon() -> Result<()> {
    let hint = parse_route_hint("a@b@c:d:fail")?;
    assert_eq!(hint.label, "a");
    assert_eq!(hint.installable, "b@c:d");
    assert_eq!(hint.on_miss, MissRoute::Fail);
    assert!(!hint.skip_probe);
    Ok(())
}

#[test]
fn invocations_are_told_apart() -> Result<()> {
    assert_eq!(parse_invocation(&args(&["--sudo", "-h"]))?, Invocation::Help);
    assert_eq!(parse_invocation(&args(&["plan", "--help"]))?, Invocation::PlanHelp);
    assert!(matches!(
        parse_invocation(&args(&["--flake", "f", "--toplevel", "t"]))?,
        Invocation::Switch(_)
    ));
    assert!(matches!(
        parse_invocation(&args(&[
            "plan", "--toplevel", "t", "--build-system", "b", "--host-system", "h",
            "--substituter", "s",
        ]))?,
        Invocation::Plan(_)
    ));
    assert!(parse_invocation(&args(&["--flake", "plan"])).is_err());
    Ok(())
}

fn derivation(drv: &str, class: DerivationClass) -> DerivationPlan {
    DerivationPlan {
        drv: drv.to_owned(),
        name: None,
        pname: None,
        output_names: vec![],
        outputs: vec![],
        system: String::new(),
        class,
        route: RealizationRoute::BuildLocal,
        hint: None,
        probe: None,
        actions: vec![],
        dependencies: vec![],
    }
}

#[test]
fn a_plan_is_reported_by_class() {
    let plan = ClosurePlan {
        schema_version: PLAN_SCHEMA_VERSION,
        plan_id: String::new(),
        toplevel_installable: String::new(),
        flake_installable: String::new(),
        build_system: "x86_64-linux".to_owned(),
        host_system: "aarch64-linux".to_owned(),
        roots: vec![],
        derivations: vec![
            derivation("/nix/store/b.drv", DerivationClass::Unhandled),
            derivation("/nix/store/a.drv", DerivationClass::BuildLocal),
            derivation("/nix/store/c.drv", DerivationClass::HostSubstituted),
            derivation("/nix/store/d.drv", DerivationClass::BuildLocal),
        ],
        counts: PlanCounts {
            build_local: 2,
            host_substituted: 1,
            unhandled: 1,
            ..PlanCounts::default()
        },
    };
    assert_eq!(
        plan_report(&plan),
        [
            "build-system=x86_64-linux",
            "host-system=aarch64-linux",
            "local-present=0",
            "host-substituted=1",
            "build-local=2",
            "host-remote=0",
            "unhandled=1",
            "BuildLocal:",
            "  a [/nix/store/a.drv]",
            "  d [/nix/store/d.drv]",
            "Unhandled:",
            "  b [/nix/store/b.drv]",
        ]
    );
}

/// A shell that answers each command from a script.
struct ScriptedShell {
    answer: &'static str,
    seen: RefCell<Vec<(String, Vec<String>)>>,
}

impl PathCommand for ScriptedShell {
    fn run(&self, command: &str, paths: &[String]) -> Result<String> {
        self.seen.borrow_mut().push((command.to_owned(), paths.to_vec()));
        Ok(self.answer.to_owned())
    }
}

struct SimpleRunner {
    activated: RefCell<Vec<String>>,
}

impl Runner for SimpleRunner {
    fn build_toplevel(&self, plan: &SwitchPlan<'_>) -> Result<String> {
        Ok(format!("/nix/store/{}", plan.toplevel_attr))
    }

    fn closure_to_publish(&self, toplevel: &str) -> Result<Vec<String>> {
        Ok(vec![toplevel.to_owned()])
    }

    fn activate(&self, plan: &SwitchPlan<'_>, prepared: &PreparedSwitch) -> Result<()> {
        self.activated.borrow_mut().push(format!("{} {}", plan.action, prepared.toplevel));
        Ok(())
    }
}

fn capture_options(verify: Option<&str>) -> CliOptions {
    let mut options = parse_args(&args(&[
        "--flake", "f", "--toplevel", "t", "--capture", "--publish-command", "publish",
    ]))
    .unwrap();
    options.verify_command = verify.map(str::to_owned);
    options
}

fn run_over(options: &CliOptions, shell: &ScriptedShell, runner: &SimpleRunner) -> Result<()> {
    run_with_options(&mut Calls::on(&CliParties { options, shell, runner }))
}

#[test]
fn commands_publish_and_verify_what_is_captured() -> Result<()> {
    let shell = ScriptedShell { answer: " \n", seen: RefCell::new(vec![]) };
    let runner = SimpleRunner { activated: RefCell::new(vec![]) };
    run_over(&capture_options(Some("verify")), &shell, &runner)?;
    let paths = vec!["/nix/store/t".to_owned()];
    assert_eq!(
        *shell.seen.borrow(),
        [("publish".to_owned(), paths.clone()), ("verify".to_owned(), paths)]
    );
    assert_eq!(*runner.activated.borrow(), ["switch /nix/store/t"]);
    Ok(())
}

#[test]
fn paths_that_the_verify_command_prints_are_missing() {
    let shell = ScriptedShell { answer: "\n /nix/store/t \n", seen: RefCell::new(vec![]) };
    let runner = SimpleRunner { activated: RefCell::new(vec![]) };
    assert_eq!(
        run_over(&capture_options(Some("verify")), &shell, &runner).unwrap_err(),
        Error::MissingCachePaths { count: 1, preview: "/nix/store/t".to_owned() }
    );
    assert!(runner.activated.borrow().is_empty());
}

#[test]
fn without_a_verify_command_a_publish_is_trusted() -> Result<()> {
    let shell = ScriptedShell { answer: "anything", seen: RefCell::new(vec![]) };
    let runner = SimpleRunner { activated: RefCell::new(vec![]) };
    run_over(&capture_options(None), &shell, &runner)?;
    assert_eq!(shell.seen.borrow().len(), 1);
    Ok(())
}

#[test]
fn a_capture_without_a_publish_command_fails() {
    let shell = ScriptedShell { answer: "", seen: RefCell::new(vec![]) };
    let runner = SimpleRunner { activated: RefCell::new(vec![]) };
    let mut options = capture_options(None);
    options.publish_command = None;
    assert_eq!(
        run_over(&options, &shell, &runner).unwrap_err(),
        Error::NoPublisherConfigured
    );
    assert!(runner.activated.borrow().is_empty());
}

#[test]
fn without_capture_no_command_is_run() -> Result<()> {
    let shell = ScriptedShell { answer: "/nix/store/t\n", seen: RefCell::new(vec![]) };
    let runner = SimpleRunner { activated: RefCell::new(vec![]) };
    let mut options = capture_options(Some("verify"));
    options.capture = false;
    run_over(&options, &shell, &runner)?;
    assert!(shell.seen.borrow().is_empty());
    assert_eq!(*runner.activated.borrow(), ["switch /nix/store/t"]);
    Ok(())
}
