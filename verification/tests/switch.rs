//! Orchestration of a switch.

use std::cell::{Cell, RefCell};
use std::rc::Rc;

use crossbow_switch::activation::{
    activate_prepared_with_runner, remote_activation_script, remote_store_url, shell_quote,
};
use crossbow_switch::command::CommandRunner;
use crossbow_switch::delivery::{Delivery, Stage};
use crossbow_switch::planner::ProbeResult;
use crossbow_switch::publish::{filter_publish_paths, StoreQuery};
use crossbow_switch::switch::Runner;
use crossbow_switch::{
    closure_to_publish, prepare_planned_switch, prepare_switch, run_cache_shaped_switch,
    run_planned_switch, Calls, ClosurePlan, DerivationClass, DerivationPlan, Error, OutputAction,
    Parties, PlanCounts, PlanRoot, PreparedSwitch, Publisher, RealizationPolicy, RealizationRoute,
    Result, SwitchPlan, TrustPublish, Verifier, PLAN_SCHEMA_VERSION,
};

fn unused_runner() -> FakeRunner {
    FakeRunner { publish_paths: Vec::new(), activated: Rc::new(Cell::new(false)) }
}

struct FakePublisher {
    error: Option<&'static str>,
    seen_paths: Rc<Cell<bool>>,
}

impl Publisher for FakePublisher {
    fn publish(&self, paths: &[String]) -> Result<()> {
        self.seen_paths.set(!paths.is_empty());
        if let Some(stderr) = self.error {
            Err(Error::CommandFailed {
                command: "publish".to_owned(),
                stderr: stderr.to_owned(),
            })
        } else {
            Ok(())
        }
    }
}

struct FakeVerifier {
    missing: Vec<String>,
    error: Option<&'static str>,
}

impl Verifier for FakeVerifier {
    fn verify_present(&self, _paths: &[String]) -> Result<Vec<String>> {
        if let Some(stderr) = self.error {
            Err(Error::CommandFailed {
                command: "verify".to_owned(),
                stderr: stderr.to_owned(),
            })
        } else {
            Ok(self.missing.clone())
        }
    }
}

struct FakeRunner {
    publish_paths: Vec<String>,
    activated: Rc<Cell<bool>>,
}

#[derive(Default)]
struct RecordingActivationRunner {
    calls: RefCell<Vec<(String, Vec<String>)>>,
}

impl CommandRunner for RecordingActivationRunner {
    fn run(&self, program: &str, args: &[String]) -> Result<()> {
        self.calls
            .borrow_mut()
            .push((program.to_owned(), args.to_vec()));
        Ok(())
    }
}

impl Runner for FakeRunner {
    fn build_toplevel(&self, _plan: &SwitchPlan<'_>) -> Result<String> {
        Ok("/nix/store/example-system".to_owned())
    }

    fn closure_to_publish(&self, _toplevel: &str) -> Result<Vec<String>> {
        Ok(self.publish_paths.clone())
    }

    fn activate(&self, _plan: &SwitchPlan<'_>, _prepared: &PreparedSwitch) -> Result<()> {
        self.activated.set(true);
        Ok(())
    }
}

/// Has commands run by one and the rest of a switch done by another.
struct Together<'a, C, R> {
    executor: &'a C,
    runner: &'a R,
}

impl<C: CommandRunner, R> CommandRunner for Together<'_, C, R> {
    fn run(&self, program: &str, args: &[String]) -> Result<()> {
        self.executor.run(program, args)
    }
}

impl<C, R: Runner> Runner for Together<'_, C, R> {
    fn build_toplevel(&self, plan: &SwitchPlan<'_>) -> Result<String> {
        self.runner.build_toplevel(plan)
    }

    fn closure_to_publish(&self, toplevel: &str) -> Result<Vec<String>> {
        self.runner.closure_to_publish(toplevel)
    }

    fn activate(&self, plan: &SwitchPlan<'_>, prepared: &PreparedSwitch) -> Result<()> {
        self.runner.activate(plan, prepared)
    }
}

/// Prepares a planned switch whose commands are run by `executor`.
fn prepare_with_executor(
    switch: &SwitchPlan<'_>,
    plan: &ClosurePlan,
    executor: &impl CommandRunner,
) -> Result<PreparedSwitch> {
    let party = Together { executor, runner: &unused_runner() };
    prepare_planned_switch(switch, plan, &mut Calls::on(&party))
}

/// Runs a switch over three parties.
fn run_switch(
    plan: &SwitchPlan<'_>,
    publisher: &impl Publisher,
    verifier: &impl Verifier,
    runner: &impl Runner,
) -> Result<()> {
    let parties = Parties { publisher, verifier, runner };
    run_cache_shaped_switch(plan, &mut Calls::on(&parties))
}

fn switch_plan(action: &str) -> SwitchPlan<'_> {
    SwitchPlan {
        action,
        flake_attr: ".#host-crossbow",
        toplevel_attr: ".#nixosConfigurations.host.config.system.build.toplevel",
        target_ssh: Some("root@example"),
        use_substitutes: true,
        capture: true,
        sudo: false,
        remote_sudo: false,
        max_jobs: None,
        realization_policy: RealizationPolicy::SubstituteOnly,
    }
}

#[test]
fn filter_publish_paths_drops_blank_and_derivation_paths() {
    assert_eq!(
        filter_publish_paths(
            "\n/nix/store/keep\n/nix/store/source.drv\n/nix/store/also-keep\n   \n"
        ),
        vec!["/nix/store/keep", "/nix/store/also-keep"]
    );
}

#[test]
fn prepared_switch_carries_one_exact_closure() {
    let activated = Rc::new(Cell::new(false));
    let runner = FakeRunner {
        publish_paths: vec!["/nix/store/path".to_string()],
        activated,
    };
    let prepared = prepare_switch(&switch_plan("build"), &mut Calls::on(&runner)).unwrap();

    assert_eq!(prepared.frozen_flake, ".#host-crossbow");
    assert_eq!(prepared.toplevel, "/nix/store/example-system");
    assert_eq!(prepared.closure, vec!["/nix/store/path"]);
    assert!(!prepared.fingerprint.is_empty());
}

fn authoritative_plan() -> ClosurePlan {
    let mut plan = ClosurePlan {
        schema_version: PLAN_SCHEMA_VERSION,
        plan_id: String::new(),
        toplevel_installable:
            "/nix/store/source#nixosConfigurations.host.config.system.build.toplevel".to_owned(),
        flake_installable: "/nix/store/source#host".to_owned(),
        build_system: "x86_64-linux".to_owned(),
        host_system: "aarch64-linux".to_owned(),
        roots: vec![],
        derivations: vec![],
        counts: PlanCounts::default(),
    };
    plan.plan_id = plan.canonical_plan_id().unwrap();
    plan
}

fn authoritative_switch<'a>(flake: &'a str, toplevel: &'a str) -> SwitchPlan<'a> {
    SwitchPlan {
        action: "build",
        flake_attr: flake,
        toplevel_attr: toplevel,
        target_ssh: None,
        use_substitutes: false,
        capture: false,
        sudo: false,
        remote_sudo: false,
        max_jobs: None,
        realization_policy: RealizationPolicy::SubstituteOnly,
    }
}

#[test]
fn toplevel_mismatch_rejects_before_executor_runs() {
    let plan = authoritative_plan();
    let switch = authoritative_switch(
        "/nix/store/source#host-crossbow",
        "/nix/store/source#nixosConfigurations.other.config.system.build.toplevel",
    );
    let executor = RecordingActivationRunner::default();
    let error = prepare_with_executor(&switch, &plan, &executor).unwrap_err();
    assert!(matches!(error, Error::PlanIdentityMismatch { .. }));
    assert!(executor.calls.borrow().is_empty());
}

#[test]
fn flake_installable_mismatch_rejects_before_executor_runs() {
    let plan = authoritative_plan();
    let switch =
        authoritative_switch("/nix/store/source#other-host", &plan.toplevel_installable);
    let executor = RecordingActivationRunner::default();
    let error = prepare_with_executor(&switch, &plan, &executor).unwrap_err();
    assert!(matches!(error, Error::PlanIdentityMismatch { .. }));
    assert!(executor.calls.borrow().is_empty());
}

#[test]
fn remote_switch_copies_and_activates_exact_toplevel() {
    let mut plan = switch_plan("switch");
    plan.capture = false;
    plan.remote_sudo = true;
    let prepared = PreparedSwitch {
        frozen_flake: plan.flake_attr.to_owned(),
        toplevel_attr: plan.toplevel_attr.to_owned(),
        toplevel: "/nix/store/candidate-system".to_owned(),
        closure: vec![],
        fingerprint: "sha256-test".to_owned(),
    };
    let runner = RecordingActivationRunner::default();

    activate_prepared_with_runner(&plan, &prepared, &mut Calls::on(&runner)).unwrap();
    let calls = runner.calls.borrow();
    assert_eq!(calls[0].0, "nix");
    assert_eq!(
        calls[0].1,
        [
            "copy",
            "--to",
            "ssh-ng://root@example",
            "/nix/store/candidate-system",
            "--no-check-sigs",
            "--substitute-on-destination"
        ]
    );
    assert_eq!(calls[1].0, "ssh");
    assert_eq!(calls[1].1[0], "--");
    assert_eq!(calls[1].1[1], "root@example");
    let remote = &calls[1].1[2];
    let persist = remote.find("nix-env").unwrap();
    let verify = remote
        .find("readlink -f /nix/var/nix/profiles/system")
        .unwrap();
    let activate = remote.find("switch-to-configuration").unwrap();
    assert!(persist < verify && verify < activate, "{remote}");
    assert!(remote.starts_with("sudo flock -n /tmp/crossbow-switch.lock sh -c '"));
    assert!(!remote.contains("nixos-rebuild"));
}

#[test]
fn remote_test_does_not_persist_system_profile() {
    let mut plan = switch_plan("test");
    plan.capture = false;
    plan.use_substitutes = false;
    let prepared = PreparedSwitch {
        frozen_flake: plan.flake_attr.to_owned(),
        toplevel_attr: plan.toplevel_attr.to_owned(),
        toplevel: "/nix/store/candidate-system".to_owned(),
        closure: vec![],
        fingerprint: "sha256-test".to_owned(),
    };
    let runner = RecordingActivationRunner::default();

    activate_prepared_with_runner(&plan, &prepared, &mut Calls::on(&runner)).unwrap();
    let calls = runner.calls.borrow();
    assert!(
        !calls[0]
            .1
            .contains(&"--substitute-on-destination".to_owned())
    );
    assert!(!calls[1].1[2].contains("nix-env"));
    assert!(calls[1].1[2].contains("switch-to-configuration"));
}

#[test]
fn shell_quote_handles_single_quotes() {
    assert_eq!(shell_quote("a'b"), "'a'\"'\"'b'");
}

#[test]
fn trust_publish_reports_no_missing_paths() -> Result<()> {
    assert!(
        TrustPublish
            .verify_present(&["/nix/store/path".to_string()])?
            .is_empty()
    );
    Ok(())
}

#[test]
fn publish_error_aborts_before_activation() {
    let activated = Rc::new(Cell::new(false));
    let seen_paths = Rc::new(Cell::new(false));
    let runner = FakeRunner {
        publish_paths: vec!["/nix/store/path".to_string()],
        activated: Rc::clone(&activated),
    };
    let publisher = FakePublisher {
        error: Some("publish failed"),
        seen_paths: Rc::clone(&seen_paths),
    };
    let verifier = FakeVerifier {
        missing: Vec::new(),
        error: None,
    };

    let error = run_switch(&switch_plan("switch"), &publisher, &verifier, &runner).unwrap_err();

    assert!(error.to_string().contains("publish failed"));
    assert!(seen_paths.get());
    assert!(!activated.get());
}

#[test]
fn verifier_error_aborts_before_activation() {
    let activated = Rc::new(Cell::new(false));
    let runner = FakeRunner {
        publish_paths: vec!["/nix/store/path".to_string()],
        activated: Rc::clone(&activated),
    };
    let publisher = FakePublisher {
        error: None,
        seen_paths: Rc::new(Cell::new(false)),
    };
    let verifier = FakeVerifier {
        missing: Vec::new(),
        error: Some("verify failed"),
    };

    let error = run_switch(&switch_plan("switch"), &publisher, &verifier, &runner).unwrap_err();

    assert!(error.to_string().contains("verify failed"));
    assert!(!activated.get());
}

#[test]
fn missing_paths_abort_before_activation() {
    let activated = Rc::new(Cell::new(false));
    let runner = FakeRunner {
        publish_paths: vec!["/nix/store/path".to_string()],
        activated: Rc::clone(&activated),
    };
    let publisher = FakePublisher {
        error: None,
        seen_paths: Rc::new(Cell::new(false)),
    };
    let verifier = FakeVerifier {
        missing: vec!["/nix/store/missing".to_string()],
        error: None,
    };

    let error = run_switch(&switch_plan("switch"), &publisher, &verifier, &runner).unwrap_err();

    assert!(error.to_string().contains("1 paths are missing from cache"));
    assert!(!activated.get());
}

#[test]
fn build_action_does_not_activate() -> Result<()> {
    let activated = Rc::new(Cell::new(false));
    let runner = FakeRunner {
        publish_paths: vec!["/nix/store/path".to_string()],
        activated: Rc::clone(&activated),
    };
    let publisher = FakePublisher {
        error: None,
        seen_paths: Rc::new(Cell::new(false)),
    };
    let verifier = FakeVerifier {
        missing: Vec::new(),
        error: None,
    };

    run_switch(&switch_plan("build"), &publisher, &verifier, &runner)?;

    assert!(!activated.get());
    Ok(())
}

#[test]
fn fingerprint_is_the_digest_of_the_prepared_parts() {
    let runner = FakeRunner {
        publish_paths: vec!["/nix/store/path".to_string()],
        activated: Rc::new(Cell::new(false)),
    };
    let prepared = prepare_switch(&switch_plan("build"), &mut Calls::on(&runner)).unwrap();
    assert_eq!(
        prepared.fingerprint,
        "sha256-e4caa30bdb253f155ea566fd1ab8797c7e7385db04f431c7fd67eb272dc862ab"
    );

    let mut plan = switch_plan("build");
    plan.capture = false;
    let uncaptured = prepare_switch(&plan, &mut Calls::on(&runner)).unwrap();
    assert!(uncaptured.closure.is_empty());
    assert_ne!(uncaptured.fingerprint, prepared.fingerprint);
}

fn candidate(plan: &SwitchPlan<'_>) -> PreparedSwitch {
    PreparedSwitch {
        frozen_flake: plan.flake_attr.to_owned(),
        toplevel_attr: plan.toplevel_attr.to_owned(),
        toplevel: "/nix/store/candidate-system".to_owned(),
        closure: vec![],
        fingerprint: "sha256-test".to_owned(),
    }
}

fn activation_calls(plan: &SwitchPlan<'_>) -> Vec<(String, Vec<String>)> {
    let runner = RecordingActivationRunner::default();
    activate_prepared_with_runner(plan, &candidate(plan), &mut Calls::on(&runner)).unwrap();
    runner.calls.into_inner()
}

#[test]
fn local_switch_sets_the_profile_and_switches() {
    let mut plan = switch_plan("boot");
    plan.target_ssh = None;
    let calls = activation_calls(&plan);
    assert_eq!(calls.len(), 2);
    assert_eq!(calls[0].0, "nix-env");
    assert_eq!(
        calls[0].1,
        ["-p", "/nix/var/nix/profiles/system", "--set", "/nix/store/candidate-system"]
    );
    assert_eq!(calls[1].0, "/nix/store/candidate-system/bin/switch-to-configuration");
    assert_eq!(calls[1].1, ["boot"]);

    plan.sudo = true;
    let calls = activation_calls(&plan);
    assert_eq!(calls[0].0, "sudo");
    assert_eq!(calls[0].1[0], "nix-env");
    assert_eq!(calls[1].0, "sudo");
    assert_eq!(
        calls[1].1,
        ["/nix/store/candidate-system/bin/switch-to-configuration", "boot"]
    );
}

#[test]
fn local_test_only_switches() {
    let mut plan = switch_plan("test");
    plan.target_ssh = None;
    let calls = activation_calls(&plan);
    assert_eq!(calls.len(), 1);
    assert_eq!(calls[0].1, ["test"]);
}

#[test]
fn other_actions_are_not_activated() {
    for action in ["build", "dry-run", ""] {
        let plan = switch_plan(action);
        let runner = RecordingActivationRunner::default();
        let error =
            activate_prepared_with_runner(&plan, &candidate(&plan), &mut Calls::on(&runner)).unwrap_err();
        assert_eq!(error, Error::UnsupportedAction { action: action.to_owned() });
        assert!(runner.calls.borrow().is_empty());
    }
}

#[test]
fn remote_script_is_exact() {
    assert_eq!(
        remote_activation_script("boot", "/nix/store/x"),
        "set -eu; /run/current-system/sw/bin/nix-env -p /nix/var/nix/profiles/system --set \
         '/nix/store/x'; actual=$(readlink -f /nix/var/nix/profiles/system); [ \"$actual\" = \
         '/nix/store/x' ] || { printf '%s\\n' 'system profile did not advance to candidate' >&2; \
         exit 1; }; exec '/nix/store/x/bin/switch-to-configuration' 'boot'"
    );
    assert_eq!(
        remote_activation_script("test", "/nix/store/x"),
        "set -eu; exec '/nix/store/x/bin/switch-to-configuration' 'test'"
    );
}

#[test]
fn remote_command_quotes_its_script() {
    let plan = switch_plan("test");
    let calls = activation_calls(&plan);
    assert_eq!(
        calls[1].1[2],
        format!(
            "flock -n /tmp/crossbow-switch.lock sh -c {}",
            shell_quote(&remote_activation_script("test", "/nix/store/candidate-system"))
        )
    );
}

#[test]
fn store_urls_are_kept_and_hosts_get_one() {
    assert_eq!(remote_store_url("root@host"), "ssh-ng://root@host");
    assert_eq!(remote_store_url("ssh://root@host"), "ssh://root@host");
}

/// Reads a word as a POSIX shell does, where it is quoted as a whole.
fn shell_word(word: &str) -> String {
    let mut read = String::new();
    let mut quote = None;
    for c in word.chars() {
        match quote {
            None => quote = Some(c),
            Some(open) if open == c => quote = None,
            Some(_) => read.push(c),
        }
    }
    assert!(quote.is_none());
    read
}

#[test]
fn quoted_texts_read_back() {
    for text in ["", "plain", "a'b", "''", "'", "$HOME `x` \"y\" \\", "line\nbreak", "\u{20ac}'"] {
        assert_eq!(shell_word(&shell_quote(text)), text);
    }
}

#[test]
fn missing_paths_are_counted_and_previewed() {
    let runner = unused_runner();
    let publisher = FakePublisher { error: None, seen_paths: Rc::new(Cell::new(false)) };
    let verifier = FakeVerifier {
        missing: (0..7).map(|i| format!("/nix/store/{i}")).collect(),
        error: None,
    };
    let error =
        run_switch(&switch_plan("switch"), &publisher, &verifier, &runner).unwrap_err();
    assert_eq!(
        error,
        Error::MissingCachePaths {
            count: 7,
            preview: "/nix/store/0, /nix/store/1, /nix/store/2, /nix/store/3, /nix/store/4"
                .to_owned(),
        }
    );
}

#[test]
fn an_uncaptured_switch_is_activated_without_publication() -> Result<()> {
    let activated = Rc::new(Cell::new(false));
    let runner = FakeRunner { publish_paths: vec![], activated: Rc::clone(&activated) };
    let publisher = FakePublisher {
        error: Some("not reached"),
        seen_paths: Rc::new(Cell::new(false)),
    };
    let mut plan = switch_plan("switch");
    plan.capture = false;
    run_switch(&plan, &publisher, &TrustPublish, &runner)?;
    assert!(activated.get());
    Ok(())
}

fn planned(outputs: &[&str]) -> ClosurePlan {
    let mut plan = authoritative_plan();
    plan.roots = vec![PlanRoot {
        drv: "/nix/store/top.drv".to_owned(),
        outputs: outputs.iter().map(|name| (*name).to_owned()).collect(),
    }];
    plan.derivations = vec![DerivationPlan {
        drv: "/nix/store/top.drv".to_owned(),
        name: None,
        pname: None,
        output_names: vec!["out".to_owned()],
        outputs: vec!["/nix/store/top".to_owned()],
        system: "x86_64-linux".to_owned(),
        class: DerivationClass::LocalPresent,
        route: RealizationRoute::AlreadyPresent,
        hint: None,
        probe: Some(ProbeResult::LocalPresent),
        actions: vec![OutputAction {
            output: "out".to_owned(),
            path: "/nix/store/top".to_owned(),
            probe: ProbeResult::LocalPresent,
            route: RealizationRoute::AlreadyPresent,
        }],
        dependencies: vec![],
    }];
    plan.plan_id = plan.canonical_plan_id().unwrap();
    plan
}

#[test]
fn a_planned_switch_activates_the_planned_toplevel() -> Result<()> {
    struct Watching {
        toplevel: RefCell<String>,
    }

    impl Runner for Watching {
        fn build_toplevel(&self, _plan: &SwitchPlan<'_>) -> Result<String> {
            unreachable!("the plan names the toplevel")
        }

        fn closure_to_publish(&self, _toplevel: &str) -> Result<Vec<String>> {
            unreachable!("the closure is not captured")
        }

        fn activate(&self, _plan: &SwitchPlan<'_>, prepared: &PreparedSwitch) -> Result<()> {
            *self.toplevel.borrow_mut() = prepared.toplevel.clone();
            Ok(())
        }
    }

    let plan = planned(&["out"]);
    let mut switch =
        authoritative_switch(&plan.flake_installable, &plan.toplevel_installable);
    switch.action = "switch";
    let executor = RecordingActivationRunner::default();
    let runner = Watching { toplevel: RefCell::new(String::new()) };
    let publisher = FakePublisher { error: None, seen_paths: Rc::new(Cell::new(false)) };
    let both = Together { executor: &executor, runner: &runner };
    let parties = Parties { publisher: &publisher, verifier: &TrustPublish, runner: &both };
    run_planned_switch(&switch, &plan, &mut Calls::on(&parties))?;
    assert_eq!(*runner.toplevel.borrow(), "/nix/store/top");
    assert_eq!(
        executor.calls.borrow()[0].1,
        ["path-info", "--store", "daemon", "/nix/store/top"]
    );
    Ok(())
}

#[test]
fn a_plan_must_name_one_output_of_one_root() {
    let executor = RecordingActivationRunner::default();
    let cases = [
        (authoritative_plan(), "single requested root"),
        (planned(&[]), "single requested output"),
        (planned(&["dev", "out"]), "single requested output"),
        (planned(&["dev"]), "dev"),
    ];
    for (plan, output) in cases {
        let switch = authoritative_switch(&plan.flake_installable, &plan.toplevel_installable);
        let error = prepare_with_executor(&switch, &plan, &executor).unwrap_err();
        let drv = if output == "single requested root" {
            plan.toplevel_installable.clone()
        } else {
            "/nix/store/top.drv".to_owned()
        };
        assert_eq!(error, Error::PlannerMissingOutput { drv, output: output.to_owned() });
    }
}

/// A store that answers from a script.
struct ScriptedStore {
    deriver: Result<&'static str>,
    requisites: &'static str,
    asked: RefCell<Vec<(Vec<String>, String)>>,
}

impl StoreQuery for ScriptedStore {
    fn query(&self, args: &[String], path: &str) -> Result<String> {
        self.asked.borrow_mut().push((args.to_vec(), path.to_owned()));
        if args.len() == 2 {
            match &self.deriver {
                Ok(answer) => Ok((*answer).to_owned()),
                Err(_) => Err(Error::NixStoreFailed {
                    args: args.join(" "),
                    stderr: "down".to_owned(),
                }),
            }
        } else {
            Ok(self.requisites.to_owned())
        }
    }
}

#[test]
fn the_closure_is_that_of_the_deriver() {
    let store = ScriptedStore {
        deriver: Ok("\n/nix/store/top.drv\n"),
        requisites: "/nix/store/top.drv\n/nix/store/top\n\n /nix/store/lib \n",
        asked: RefCell::new(Vec::new()),
    };
    assert_eq!(
        closure_to_publish("/nix/store/top", &mut Calls::on(&store)).unwrap(),
        ["/nix/store/top", "/nix/store/lib"]
    );
    let asked = store.asked.borrow();
    assert_eq!(asked[0].0, ["--query", "--deriver"]);
    assert_eq!(asked[0].1, "/nix/store/top");
    assert_eq!(asked[1].0, ["--query", "--requisites", "--include-outputs"]);
    assert_eq!(asked[1].1, "/nix/store/top.drv");
}

#[test]
fn without_a_known_deriver_the_toplevel_itself_is_asked_about() {
    let store = ScriptedStore {
        deriver: Ok("unknown-deriver\n"),
        requisites: "/nix/store/top\n",
        asked: RefCell::new(Vec::new()),
    };
    closure_to_publish("/nix/store/top", &mut Calls::on(&store)).unwrap();
    assert_eq!(store.asked.borrow()[1].1, "/nix/store/top");
}

#[test]
fn a_store_that_names_no_deriver_is_an_error() {
    let store = ScriptedStore {
        deriver: Ok(" \n"),
        requisites: "",
        asked: RefCell::new(Vec::new()),
    };
    assert_eq!(
        closure_to_publish("/nix/store/top", &mut Calls::on(&store)).unwrap_err(),
        Error::NixStoreNoDeriver { toplevel: "/nix/store/top".to_owned() }
    );
    let store = ScriptedStore {
        deriver: Err(Error::NoPublisherConfigured),
        requisites: "",
        asked: RefCell::new(Vec::new()),
    };
    let error = closure_to_publish("/nix/store/top", &mut Calls::on(&store)).unwrap_err();
    assert!(error.to_string().contains("--query --deriver"));
    assert_eq!(store.asked.borrow().len(), 1);
}

#[test]
fn a_delivery_activates_only_after_publication_and_verification() {
    let plan = switch_plan("switch");
    let delivery = Delivery::begin(&plan);
    assert_eq!(delivery.stage(), Stage::Publish);
    let delivery = delivery.published(Ok(())).unwrap();
    assert_eq!(delivery.stage(), Stage::Verify);
    let delivery = delivery.verified(Ok(Vec::new())).unwrap();
    assert_eq!(delivery.stage(), Stage::Activate);
    let delivery = delivery.activated(Ok(())).unwrap();
    assert_eq!(delivery.stage(), Stage::Delivered);

    let built = Delivery::begin(&switch_plan("build")).published(Ok(())).unwrap();
    assert_eq!(built.verified(Ok(Vec::new())).unwrap().stage(), Stage::Delivered);

    let uncaptured = SwitchPlan { capture: false, ..switch_plan("test") };
    assert_eq!(Delivery::begin(&uncaptured).stage(), Stage::Activate);
    let uncaptured = SwitchPlan { capture: false, ..switch_plan("build") };
    assert_eq!(Delivery::begin(&uncaptured).stage(), Stage::Delivered);
}

#[test]
fn a_failure_ends_a_delivery() {
    fn failure() -> Error {
        Error::CommandFailed { command: "step".to_owned(), stderr: "no".to_owned() }
    }
    let plan = switch_plan("switch");
    let begun = || Delivery::begin(&plan);
    let published = || begun().published(Ok(())).unwrap();
    let verified = || published().verified(Ok(Vec::new())).unwrap();
    assert_eq!(begun().published(Err(failure())).unwrap_err(), failure());
    assert_eq!(published().verified(Err(failure())).unwrap_err(), failure());
    assert_eq!(
        published().verified(Ok(vec!["/nix/store/a".to_owned()])).unwrap_err(),
        Error::MissingCachePaths { count: 1, preview: "/nix/store/a".to_owned() }
    );
    assert_eq!(verified().activated(Err(failure())).unwrap_err(), failure());
}

/// Keeps the order in which the parties of a switch are called, and fails where
/// it is told to.
#[derive(Default)]
struct Journal {
    steps: RefCell<Vec<String>>,
    failing: Option<&'static str>,
}

impl Journal {
    fn step(&self, step: &str) -> Result<()> {
        self.steps.borrow_mut().push(step.to_owned());
        if self.failing == Some(step) {
            return Err(Error::CommandFailed { command: step.to_owned(), stderr: "no".to_owned() });
        }
        Ok(())
    }
}

impl Publisher for Journal {
    fn publish(&self, paths: &[String]) -> Result<()> {
        self.step(&format!("publish {}", paths.join(" ")))
    }
}

impl Verifier for Journal {
    fn verify_present(&self, paths: &[String]) -> Result<Vec<String>> {
        self.step(&format!("verify {}", paths.join(" ")))?;
        Ok(Vec::new())
    }
}

impl CommandRunner for Journal {
    fn run(&self, program: &str, _args: &[String]) -> Result<()> {
        self.step(&format!("run {program}"))
    }
}

impl Runner for Journal {
    fn build_toplevel(&self, plan: &SwitchPlan<'_>) -> Result<String> {
        self.step(&format!("build {}", plan.toplevel_attr))?;
        Ok("/nix/store/built".to_owned())
    }

    fn closure_to_publish(&self, toplevel: &str) -> Result<Vec<String>> {
        self.step(&format!("closure {toplevel}"))?;
        Ok(vec!["/nix/store/built".to_owned(), "/nix/store/lib".to_owned()])
    }

    fn activate(&self, plan: &SwitchPlan<'_>, prepared: &PreparedSwitch) -> Result<()> {
        self.step(&format!("{} {}", plan.action, prepared.toplevel))
    }
}

fn steps_of(plan: &SwitchPlan<'_>, failing: Option<&'static str>) -> (Result<()>, Vec<String>) {
    let journal = Journal { failing, ..Journal::default() };
    let parties = Parties { publisher: &journal, verifier: &journal, runner: &journal };
    let result = run_cache_shaped_switch(plan, &mut Calls::on(&parties));
    (result, journal.steps.into_inner())
}

fn example_plan(capture: bool, action: &str) -> SwitchPlan<'_> {
    SwitchPlan { toplevel_attr: "top", capture, ..switch_plan(action) }
}

#[test]
fn a_captured_switch_takes_each_step_once_and_in_order() {
    let steps = [
        "build top",
        "closure /nix/store/built",
        "publish /nix/store/built /nix/store/lib",
        "verify /nix/store/built /nix/store/lib",
        "switch /nix/store/built",
    ];
    let plan = example_plan(true, "switch");
    assert_eq!(steps_of(&plan, None), (Ok(()), steps.map(str::to_owned).to_vec()));
    let build = example_plan(true, "build");
    assert_eq!(steps_of(&build, None).1, steps[..4]);
    for (taken, failing) in steps.iter().enumerate() {
        let (result, seen) = steps_of(&plan, Some(*failing));
        assert_eq!(
            result.unwrap_err(),
            Error::CommandFailed { command: (*failing).to_owned(), stderr: "no".to_owned() }
        );
        assert_eq!(seen, steps[..taken + 1]);
    }
}

#[test]
fn an_uncaptured_switch_leaves_publisher_and_verifier_alone() {
    let (result, seen) = steps_of(&example_plan(false, "switch"), None);
    assert_eq!(result, Ok(()));
    assert_eq!(seen, ["build top", "switch /nix/store/built"]);
    let (result, seen) = steps_of(&example_plan(false, "build"), None);
    assert_eq!(result, Ok(()));
    assert_eq!(seen, ["build top"]);
}

#[test]
fn a_planned_switch_for_another_toplevel_calls_nobody() {
    let plan = planned(&["out"]);
    for (flake, toplevel) in [
        (plan.flake_installable.as_str(), "/nix/store/source#other"),
        ("/nix/store/source#other-host", plan.toplevel_installable.as_str()),
    ] {
        let switch = SwitchPlan {
            action: "switch",
            capture: true,
            ..authoritative_switch(flake, toplevel)
        };
        let journal = Journal::default();
        let parties = Parties { publisher: &journal, verifier: &journal, runner: &journal };
        let error = run_planned_switch(&switch, &plan, &mut Calls::on(&parties)).unwrap_err();
        assert!(matches!(error, Error::PlanIdentityMismatch { .. }));
        assert!(journal.steps.borrow().is_empty());
    }
}

#[test]
fn a_plan_is_executed_once_for_a_switch() {
    let plan = planned(&["out"]);
    let switch = SwitchPlan {
        action: "switch",
        capture: true,
        ..authoritative_switch(&plan.flake_installable, &plan.toplevel_installable)
    };
    let steps = [
        "run nix",
        "closure /nix/store/top",
        "publish /nix/store/built /nix/store/lib",
        "verify /nix/store/built /nix/store/lib",
        "switch /nix/store/top",
    ];
    for (taken, failing) in [(5, None), (1, Some("run nix")), (2, Some(steps[1]))] {
        let journal = Journal { failing, ..Journal::default() };
        let parties = Parties { publisher: &journal, verifier: &journal, runner: &journal };
        let result = run_planned_switch(&switch, &plan, &mut Calls::on(&parties));
        assert_eq!(result.is_ok(), failing.is_none());
        assert_eq!(*journal.steps.borrow(), steps[..taken]);
    }
}
