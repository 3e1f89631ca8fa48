//! Plan execution and executor descriptors.

use std::cell::RefCell;

use crossbow_switch::command::CommandRunner;
use crossbow_switch::executor::{
    execute_plan, parse_executor_kind, plan_executor_check, realization_args, CheckPlan,
    ExecutorDescriptor,
};
use crossbow_switch::planner::ProbeResult;
use crossbow_switch::{
    Calls, ClosurePlan, DerivationClass, DerivationPlan, Error, OutputAction, PlanCounts,
    PlanDependency, PlanRoot, RealizationRoute, Result, PLAN_SCHEMA_VERSION,
};

#[test]
fn native_builder_requires_host_system() {
    let error = plan_executor_check(
        &ExecutorDescriptor::NativeBuilder {
            builders: Vec::new(),
        },
        "",
        "tiny",
    )
    .unwrap_err();

    assert!(error.to_string().contains("non-empty host system"));
}

#[test]
fn native_builder_returns_required_system() -> Result<()> {
    let plan = plan_executor_check(
        &ExecutorDescriptor::NativeBuilder {
            builders: Vec::new(),
        },
        "aarch64-linux",
        "tiny",
    )?;

    assert_eq!(
        plan,
        CheckPlan::NativeBuilder {
            required_system: "aarch64-linux".to_owned(),
        }
    );
    Ok(())
}

#[test]
fn skip_executor_preserves_reason() -> Result<()> {
    let plan = plan_executor_check(
        &ExecutorDescriptor::Skip {
            reason: "no runner".to_owned(),
        },
        "wasm32-wasi",
        "tiny",
    )?;

    assert_eq!(
        plan,
        CheckPlan::Skipped {
            reason: "no runner".to_owned(),
        }
    );
    Ok(())
}

#[test]
fn parse_executor_kind_accepts_known_kinds() -> Result<()> {
    assert_eq!(
        parse_executor_kind("native-builder")?,
        ExecutorDescriptor::NativeBuilder {
            builders: Vec::new(),
        }
    );
    assert_eq!(
        parse_executor_kind("skip")?,
        ExecutorDescriptor::Skip {
            reason: "crossbow check skipped".to_owned(),
        }
    );
    assert_eq!(
        parse_executor_kind("wasmtime")?,
        ExecutorDescriptor::Wasmtime { configured: false }
    );
    assert_eq!(
        parse_executor_kind("wine")?,
        ExecutorDescriptor::Wine { configured: false }
    );
    Ok(())
}

#[test]
fn parse_executor_kind_rejects_unknown_kind() {
    let error = parse_executor_kind("qemu").unwrap_err();

    assert!(error.to_string().contains("unknown executor `qemu`"));
}

#[test]
fn declared_stub_executors_report_phase_1_error() {
    let wasmtime = plan_executor_check(
        &ExecutorDescriptor::Wasmtime { configured: false },
        "x",
        "tiny",
    )
    .unwrap_err();
    let wine =
        plan_executor_check(&ExecutorDescriptor::Wine { configured: false }, "x", "tiny")
            .unwrap_err();

    assert!(wasmtime.to_string().contains("not implemented in phase 1"));
    assert!(wine.to_string().contains("not implemented in phase 1"));
}

#[derive(Default)]
struct RecordingRunner {
    calls: RefCell<Vec<(String, Vec<String>)>>,
}

impl CommandRunner for RecordingRunner {
    fn run(&self, program: &str, args: &[String]) -> Result<()> {
        self.calls
            .borrow_mut()
            .push((program.to_owned(), args.to_vec()));
        Ok(())
    }
}

fn action(output: &str, path: &str, route: RealizationRoute) -> OutputAction {
    OutputAction {
        output: output.to_owned(),
        path: path.to_owned(),
        probe: match &route {
            RealizationRoute::Substitute { substituter } => ProbeResult::Present {
                substituter: substituter.clone(),
            },
            RealizationRoute::AlreadyPresent => ProbeResult::LocalPresent,
            _ => ProbeResult::Missing,
        },
        route,
    }
}

fn executable_plan() -> ClosurePlan {
    let dependency = DerivationPlan {
        drv: "/nix/store/dependency.drv".to_owned(),
        name: None,
        pname: None,
        output_names: vec!["out".to_owned()],
        outputs: vec!["/nix/store/dependency".to_owned()],
        system: "x86_64-linux".to_owned(),
        class: DerivationClass::BuildLocal,
        route: RealizationRoute::BuildLocal,
        hint: None,
        probe: Some(ProbeResult::Missing),
        actions: vec![action(
            "out",
            "/nix/store/dependency",
            RealizationRoute::BuildLocal,
        )],
        dependencies: vec![],
    };
    let root = DerivationPlan {
        drv: "/nix/store/root.drv".to_owned(),
        name: None,
        pname: None,
        output_names: vec!["dev".to_owned(), "out".to_owned()],
        outputs: vec![
            "/nix/store/root-dev".to_owned(),
            "/nix/store/root".to_owned(),
        ],
        system: "x86_64-linux".to_owned(),
        class: DerivationClass::BuildLocal,
        route: RealizationRoute::BuildLocal,
        hint: None,
        probe: Some(ProbeResult::Missing),
        actions: vec![
            action(
                "dev",
                "/nix/store/root-dev",
                RealizationRoute::Substitute {
                    substituter: "https://first.example".to_owned(),
                },
            ),
            action("out", "/nix/store/root", RealizationRoute::BuildLocal),
        ],
        dependencies: vec![PlanDependency {
            drv: dependency.drv.clone(),
            outputs: vec!["out".to_owned()],
        }],
    };
    let mut plan = ClosurePlan {
        schema_version: PLAN_SCHEMA_VERSION,
        plan_id: String::new(),
        toplevel_installable: "/nix/store/source#top".to_owned(),
        flake_installable: "/nix/store/source#host".to_owned(),
        build_system: "x86_64-linux".to_owned(),
        host_system: "aarch64-linux".to_owned(),
        roots: vec![PlanRoot {
            drv: root.drv.clone(),
            outputs: vec!["out".to_owned()],
        }],
        derivations: vec![dependency, root],
        counts: PlanCounts {
            build_local: 2,
            ..PlanCounts::default()
        },
    };
    plan.plan_id = plan.canonical_plan_id().unwrap();
    plan
}

#[test]
fn executes_recorded_mixed_routes_in_dependency_order() {
    let runner = RecordingRunner::default();
    execute_plan(&executable_plan(), Some(2), &mut Calls::on(&runner)).unwrap();
    let calls = runner.calls.borrow();

    assert_eq!(calls[0].1[2], "/nix/store/dependency.drv^out");
    assert!(
        calls[0]
            .1
            .windows(3)
            .any(|args| args == ["--option", "substitute", "false"])
    );
    assert!(
        calls[0]
            .1
            .windows(3)
            .any(|args| args == ["--option", "fallback", "false"])
    );
    assert!(calls[0].1.windows(2).any(|args| args == ["--builders", ""]));
    assert_eq!(
        calls[2].1,
        [
            "copy",
            "--from",
            "https://first.example",
            "/nix/store/root-dev"
        ]
    );
    assert_eq!(calls[4].1[2], "/nix/store/root.drv^out");
    assert_eq!(
        calls[5].1,
        ["path-info", "--store", "daemon", "/nix/store/root"]
    );
}

#[test]
fn rejects_modified_plan_before_running_commands() {
    let runner = RecordingRunner::default();
    let mut plan = executable_plan();
    plan.derivations[0].actions[0].path = "/nix/store/tampered".to_owned();

    assert!(matches!(
        execute_plan(&plan, None, &mut Calls::on(&runner)),
        Err(Error::PlanIdMismatch { .. })
    ));
    assert!(runner.calls.borrow().is_empty());
}

#[test]
fn executes_builtin_dependency_before_consumer() {
    let runner = RecordingRunner::default();
    let mut plan = executable_plan();
    plan.derivations[0].system = "builtin".to_owned();
    plan.plan_id = plan.canonical_plan_id().unwrap();

    execute_plan(&plan, None, &mut Calls::on(&runner)).unwrap();
    let calls = runner.calls.borrow();
    assert_eq!(calls[0].1[2], "/nix/store/dependency.drv^out");
    assert_eq!(calls[2].1[0], "copy");
}

#[test]
fn realization_flags_separate_local_and_recorded_remote_routes() {
    let local = realization_args("/nix/store/a.drv", "out", &[], Some(3), false);
    assert!(
        local
            .windows(3)
            .any(|args| args == ["--option", "substitute", "false"])
    );
    assert!(local.windows(2).any(|args| args == ["--builders", ""]));
    assert!(local.windows(2).any(|args| args == ["--max-jobs", "3"]));

    let remote = realization_args(
        "/nix/store/a.drv",
        "out",
        &["ssh-ng://arm aarch64-linux - 1 1".to_owned()],
        Some(3),
        true,
    );
    assert!(
        remote
            .windows(2)
            .any(|args| { args == ["--builders", "ssh-ng://arm aarch64-linux - 1 1"] })
    );
    assert!(remote.windows(2).any(|args| args == ["--max-jobs", "0"]));
    assert!(!remote.windows(2).any(|args| args == ["--max-jobs", "3"]));
}

#[test]
fn plan_identifier_is_the_digest_of_the_canonical_document() {
    assert_eq!(
        executable_plan().plan_id,
        "sha256-423430b17d49dc5320d2fc2d3dc7c5c18b932ca943d3ea583b6d72e6c0a0ff45"
    );
    let empty = ClosurePlan {
        toplevel_installable: "/nix/store/source#top-a".to_owned(),
        roots: vec![],
        derivations: vec![],
        counts: PlanCounts::default(),
        ..executable_plan()
    };
    assert_eq!(
        empty.canonical_plan_id().unwrap(),
        "sha256-0a8a0c154fde3adb4a08f8fe1e49db53638ef7a2228b2edad08b23528ece0425"
    );
}

#[test]
fn refused_plans_run_no_command() {
    let runner = RecordingRunner::default();

    let mut plan = executable_plan();
    plan.schema_version = 1;
    assert_eq!(
        execute_plan(&plan, None, &mut Calls::on(&runner)).unwrap_err(),
        Error::UnsupportedPlanSchema { version: 1 }
    );

    let mut plan = executable_plan();
    plan.derivations[1].actions[1].route =
        RealizationRoute::Fail { reason: "no builder".to_owned() };
    plan.plan_id = plan.canonical_plan_id().unwrap();
    let error = execute_plan(&plan, None, &mut Calls::on(&runner)).unwrap_err();
    assert_eq!(
        error,
        Error::PlanBlocked {
            path: "/nix/store/root".to_owned(),
            reason: "no builder".to_owned(),
        }
    );
    assert!(runner.calls.borrow().is_empty());
}

#[test]
fn present_outputs_are_only_validated() {
    let runner = RecordingRunner::default();
    let mut plan = executable_plan();
    plan.derivations.truncate(1);
    plan.derivations[0].actions[0].route = RealizationRoute::AlreadyPresent;
    plan.plan_id = plan.canonical_plan_id().unwrap();

    execute_plan(&plan, None, &mut Calls::on(&runner)).unwrap();
    let calls = runner.calls.borrow();
    assert_eq!(calls.len(), 1);
    assert_eq!(calls[0].0, "nix");
    assert_eq!(calls[0].1, ["path-info", "--store", "daemon", "/nix/store/dependency"]);
}

#[test]
fn execution_stops_at_the_first_failure() {
    struct FailingRunner {
        calls: RefCell<usize>,
    }

    impl CommandRunner for FailingRunner {
        fn run(&self, program: &str, args: &[String]) -> Result<()> {
            *self.calls.borrow_mut() += 1;
            if *self.calls.borrow() == 3 {
                return Err(Error::CommandFailed {
                    command: format!("{program} {}", args[0]),
                    stderr: String::new(),
                });
            }
            Ok(())
        }
    }

    let runner = FailingRunner { calls: RefCell::new(0) };
    let error = execute_plan(&executable_plan(), None, &mut Calls::on(&runner)).unwrap_err();
    assert_eq!(
        error,
        Error::CommandFailed { command: "nix copy".to_owned(), stderr: String::new() }
    );
    assert_eq!(*runner.calls.borrow(), 3);
}

#[test]
fn local_builds_carry_the_job_limit_last() {
    assert_eq!(
        realization_args("/nix/store/a.drv", "out", &[], Some(7), false),
        [
            "build",
            "--no-link",
            "/nix/store/a.drv^out",
            "--builders",
            "",
            "--option",
            "substitute",
            "false",
            "--option",
            "fallback",
            "false",
            "--option",
            "extra-platforms",
            "",
            "--max-jobs",
            "7",
        ]
    );
}

#[test]
fn plan_identifiers_are_digest_names() {
    let plan = executable_plan();
    let id = plan.canonical_plan_id().unwrap();
    let digits = id.strip_prefix("sha256-").unwrap();
    assert_eq!(digits.len(), 64);
    assert!(digits.chars().all(|c| c.is_ascii_digit() || ('a'..='f').contains(&c)));

    let renamed = ClosurePlan { plan_id: "other".to_owned(), ..executable_plan() };
    assert_eq!(renamed.canonical_plan_id().unwrap(), id);
    let changed = ClosurePlan { flake_installable: "other".to_owned(), ..executable_plan() };
    assert_ne!(changed.canonical_plan_id().unwrap(), id);
}
