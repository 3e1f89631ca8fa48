//! Whole planning sessions against a small world of derivations and stores.

use std::collections::{BTreeMap, BTreeSet};

use crossbow_switch::executor::plan_commands;
use crossbow_switch::planner::graph::{
    store_path, DerivationEnv, DerivationInput, DerivationInputs, DerivationNode, DerivationOutput,
    OutputEntry,
};
use crossbow_switch::planner::session::{Progress, Reply, Request};
use crossbow_switch::planner::ProbeResult;
use crossbow_switch::sorted::SortedMap;
use crossbow_switch::{
    plan_closure, plan_closure_with_hints, plan_closure_with_substituters, ClosurePlan,
    DerivationClass, Error, MissRoute, RealizationPolicy, RealizationRoute, Result, RouteHintSpec,
};

#[derive(Clone)]
struct Derivation {
    system: &'static str,
    outputs: Vec<(&'static str, Option<&'static str>)>,
    inputs: Vec<(&'static str, Vec<&'static str>)>,
}

/// Derivations by key, installables by name, and the paths that stores have.
#[derive(Clone, Default)]
struct World {
    derivations: BTreeMap<&'static str, Derivation>,
    installables: BTreeMap<&'static str, (&'static str, Vec<&'static str>)>,
    stores: BTreeMap<&'static str, Option<BTreeSet<String>>>,
    asked: Vec<String>,
}

impl World {
    fn node(derivation: &Derivation) -> DerivationNode {
        DerivationNode {
            system: derivation.system.to_owned(),
            name: None,
            pname: None,
            env: DerivationEnv { name: Some("env-name".to_owned()), pname: None },
            outputs: SortedMap::from_entries(
                derivation
                    .outputs
                    .iter()
                    .map(|(name, path)| {
                        let path = path.map(str::to_owned);
                        ((*name).to_owned(), DerivationOutput { path })
                    })
                    .collect(),
            ),
            inputs: DerivationInputs {
                drvs: SortedMap::from_entries(
                    derivation
                        .inputs
                        .iter()
                        .map(|(key, names)| {
                            let outputs = names.iter().map(|name| (*name).to_owned()).collect();
                            ((*key).to_owned(), DerivationInput { outputs })
                        })
                        .collect(),
                ),
            },
        }
    }

    fn show(&self, target: &str) -> Option<(String, DerivationNode)> {
        let key = match self.installables.get(target) {
            Some((key, _)) => *key,
            None => target.strip_prefix("/nix/store/").unwrap(),
        };
        let derivation = self.derivations.get(key)?;
        Some((format!("/nix/store/{key}"), Self::node(derivation)))
    }

    /// The path of an output that its derivation does not name.
    fn late_path(key: &str, name: &str) -> String {
        format!("/nix/store/late-{}-{name}", key.trim_end_matches(".drv"))
    }

    fn entry(&self, target: &str) -> Option<OutputEntry> {
        let (key, names) = match self.installables.get(target) {
            Some((key, names)) => (*key, names.clone()),
            None => {
                let (drv, name) = target.split_once('^')?;
                (drv.strip_prefix("/nix/store/")?, vec![name])
            }
        };
        let outputs = names
            .iter()
            .map(|name| ((*name).to_owned(), Self::late_path(key, name)))
            .collect();
        Some(OutputEntry {
            drv_path: format!("/nix/store/{key}"),
            outputs: SortedMap::from_entries(outputs),
        })
    }

    fn probe(&self, store: &str, outputs: &[String]) -> Result<SortedMap<bool>> {
        match self.stores.get(store) {
            Some(Some(paths)) => Ok(SortedMap::from_entries(
                outputs.iter().map(|path| (path.clone(), paths.contains(path))).collect(),
            )),
            _ => Err(Error::PlannerCacheProbeFailed {
                substituter: store.to_owned(),
                output: outputs.first().cloned().unwrap_or_default(),
                stderr: "down".to_owned(),
            }),
        }
    }

    fn answer(&mut self, request: &Request) -> Reply {
        match request {
            Request::Proceed => Reply::Proceed,
            Request::DryRun { args, label } => {
                self.asked.push(label.clone());
                assert_eq!(args[..4], ["build", "--dry-run", "--json", "--no-link"]);
                let end = args.iter().position(|arg| arg == "--builders").unwrap();
                Reply::Entries(args[4..end].iter().filter_map(|arg| self.entry(arg)).collect())
            }
            Request::Show { args, label } => {
                self.asked.push(label.clone());
                assert_eq!(args[..3], ["derivation", "show", "--no-pretty"]);
                Reply::Derivations(SortedMap::from_entries(
                    args[3..].iter().filter_map(|arg| self.show(arg)).collect(),
                ))
            }
            Request::ProbeLocal { outputs } => {
                self.asked.push(format!("probe local {}", outputs.len()));
                Reply::Local(self.probe("daemon", outputs))
            }
            Request::ProbeStores { stores, outputs } => {
                self.asked.push(format!("probe {} {}", stores.join(","), outputs.len()));
                Reply::Stores(stores.iter().map(|store| self.probe(store, outputs)).collect())
            }
        }
    }

    fn run(&mut self, opened: Result<Progress>) -> Result<ClosurePlan> {
        let mut progress = opened?;
        loop {
            match progress {
                Progress::Done(plan) => return Ok(plan),
                Progress::Ask { planner, request } => {
                    let reply = self.answer(&request);
                    assert!(planner.accepts(&reply));
                    assert!(!planner.accepts(&Reply::Stores(vec![])));
                    progress = planner.advance(reply)?;
                }
            }
        }
    }
}

fn paths(list: &[&str]) -> Option<BTreeSet<String>> {
    Some(list.iter().map(|path| (*path).to_owned()).collect())
}

/// `top` needs `lib` and `tool`; `lib` is cached and needs `deep`, which is
/// nowhere.
fn world() -> World {
    let derivation = |system, outputs, inputs| Derivation { system, outputs, inputs };
    World {
        derivations: BTreeMap::from([
            (
                "top.drv",
                derivation(
                    "x86_64-linux",
                    vec![("out", Some("top"))],
                    vec![("lib.drv", vec!["out"]), ("tool.drv", vec!["bin", "out"])],
                ),
            ),
            (
                "lib.drv",
                derivation(
                    "aarch64-linux",
                    vec![("out", Some("/nix/store/lib"))],
                    vec![("deep.drv", vec!["out"])],
                ),
            ),
            ("deep.drv", derivation("aarch64-linux", vec![("out", Some("deep"))], vec![])),
            (
                "tool.drv",
                derivation("builtin", vec![("bin", None), ("out", Some("tool"))], vec![]),
            ),
        ]),
        installables: BTreeMap::from([
            ("flake#nixosConfigurations.h.config.system.build.toplevel", ("top.drv", vec!["out"])),
            ("flake#lib", ("lib.drv", vec!["out"])),
            ("flake#none", ("absent.drv", vec!["out"])),
        ]),
        stores: BTreeMap::from([
            ("daemon", paths(&[])),
            ("https://one", paths(&[])),
            ("https://two", paths(&["/nix/store/lib"])),
        ]),
        asked: Vec::new(),
    }
}

const TOP: &str = "flake#nixosConfigurations.h.config.system.build.toplevel";

fn stores(list: &[&str]) -> Vec<String> {
    list.iter().map(|store| (*store).to_owned()).collect()
}

fn open(substituters: &[&str], hints: &[RouteHintSpec]) -> Result<Progress> {
    plan_closure_with_hints(
        TOP,
        "x86_64-linux",
        "aarch64-linux",
        &stores(substituters),
        &RealizationPolicy::SubstituteOnly,
        hints,
    )
}

fn hint(installable: &str, on_miss: MissRoute, skip_probe: bool) -> RouteHintSpec {
    RouteHintSpec {
        label: "hinted".to_owned(),
        installable: installable.to_owned(),
        on_miss,
        origin: None,
        skip_probe,
    }
}

#[test]
fn a_closure_is_planned_below_what_is_missing() {
    let mut world = world();
    let plan = world.run(open(&["https://one", "https://two", "https://one"], &[])).unwrap();

    assert_eq!(plan.toplevel_installable, TOP);
    assert_eq!(plan.flake_installable, "flake#h");
    assert_eq!(plan.plan_id, plan.canonical_plan_id().unwrap());
    assert_eq!(plan.roots.len(), 1);
    assert_eq!(plan.roots[0].drv, "/nix/store/top.drv");

    let drvs: Vec<&str> = plan.derivations.iter().map(|plan| plan.drv.as_str()).collect();
    assert_eq!(drvs, ["/nix/store/lib.drv", "/nix/store/tool.drv", "/nix/store/top.drv"]);

    let lib = &plan.derivations[0];
    assert_eq!(lib.class, DerivationClass::HostSubstituted);
    assert_eq!(
        lib.actions[0].route,
        RealizationRoute::Substitute { substituter: "https://two".to_owned() }
    );
    assert_eq!(lib.name.as_deref(), Some("env-name"));

    let tool = &plan.derivations[1];
    assert_eq!(tool.output_names, ["bin", "out"]);
    assert_eq!(tool.outputs, ["/nix/store/late-tool-bin", "/nix/store/tool"]);
    assert!(tool.actions.iter().all(|action| action.probe == ProbeResult::SkippedKnownLocal));
    assert!(tool.actions.iter().all(|action| action.route == RealizationRoute::BuildLocal));

    let top = &plan.derivations[2];
    assert_eq!(top.class, DerivationClass::BuildLocal);
    assert_eq!(top.dependencies.len(), 2);
    assert_eq!(top.dependencies[1].outputs, ["bin", "out"]);

    assert_eq!(plan.counts.build_local, 2);
    assert_eq!(plan.counts.host_substituted, 1);
    assert_eq!(
        world.asked,
        [
            format!("nix build --dry-run --json {TOP}"),
            format!("nix derivation show --no-pretty {TOP}"),
            "probe local 1".to_owned(),
            "probe https://one,https://two 1".to_owned(),
            "nix derivation show batch-count=2".to_owned(),
            "nix build --dry-run --json output-count=1".to_owned(),
            "probe local 1".to_owned(),
            "probe https://one,https://two 1".to_owned(),
        ]
    );
    // A build, a copy, two builds, each validated.
    assert_eq!(plan_commands(&plan, None).unwrap().len(), 8);
}

#[test]
fn what_is_present_is_a_leaf() {
    let mut world = world();
    world.stores.insert("daemon", paths(&["/nix/store/top"]));
    let plan = world.run(open(&["https://one"], &[])).unwrap();
    assert_eq!(plan.derivations.len(), 1);
    assert_eq!(plan.derivations[0].route, RealizationRoute::AlreadyPresent);
    assert_eq!(plan.counts.local_present, 1);
    assert!(plan.derivations[0].dependencies.is_empty());
}

#[test]
fn a_store_that_is_down_blocks_the_plan() {
    let mut world = world();
    world.stores.insert("https://two", None);
    let plan = world.run(open(&["https://one", "https://two"], &[])).unwrap();
    assert!(plan.counts.unhandled > 0);
    let top = plan.derivations.last().unwrap();
    assert_eq!(
        top.actions[0].probe,
        ProbeResult::Indeterminate { errors: vec!["https://two".to_owned()] }
    );
    assert!(matches!(plan_commands(&plan, None), Err(Error::PlanBlocked { .. })));
}

#[test]
fn hints_bind_to_the_derivation_they_resolve_to() {
    let mut world = world();
    world.stores.insert("https://two", paths(&[]));
    let hints = [hint("flake#lib", MissRoute::Fail, true)];
    let plan = world.run(open(&["https://two"], &hints)).unwrap();
    let lib = plan.derivations.iter().find(|plan| plan.drv == "/nix/store/lib.drv").unwrap();
    assert_eq!(lib.hint.as_deref(), Some("hinted"));
    assert_eq!(lib.actions[0].probe, ProbeResult::SkippedKnownLocal);
    assert!(matches!(lib.actions[0].route, RealizationRoute::Fail { .. }));

    let hints = [hint("flake#none", MissRoute::Fail, false)];
    assert_eq!(
        world.run(open(&["https://two"], &hints)).unwrap_err(),
        Error::PlannerMissingDerivation { drv: "flake#none".to_owned() }
    );
}

#[test]
fn derivations_and_outputs_that_nix_leaves_out_are_errors() {
    let mut world = world();
    world.derivations.remove("tool.drv");
    assert_eq!(
        world.run(open(&["https://one"], &[])).unwrap_err(),
        Error::PlannerMissingDerivation { drv: "/nix/store/tool.drv".to_owned() }
    );

    let mut world = self::world();
    world.derivations.get_mut("tool.drv").unwrap().outputs.remove(0);
    assert_eq!(
        world.run(open(&["https://one"], &[])).unwrap_err(),
        Error::PlannerMissingOutput {
            drv: "/nix/store/tool.drv".to_owned(),
            output: "bin".to_owned(),
        }
    );
}

#[test]
fn no_plan_is_made_without_a_substituter() {
    let mut world = world();
    assert_eq!(world.run(open(&[], &[])).unwrap_err(), Error::PlannerNoSubstituters);

    // Not even where nothing has to be probed.
    world.installables.insert(TOP, ("top.drv", vec![]));
    let hints: [RouteHintSpec; 0] = [];
    assert!(world.run(open(&["https://one"], &hints)).is_ok());
    assert_eq!(world.run(open(&[], &hints)).unwrap_err(), Error::PlannerNoSubstituters);
}

#[test]
fn a_policy_without_builders_is_refused_at_once() {
    let opened = plan_closure_with_substituters(
        TOP,
        "x86_64-linux",
        "aarch64-linux",
        &stores(&["https://one"]),
        &RealizationPolicy::RemoteNative { builders: vec![] },
    );
    assert_eq!(opened.unwrap_err(), Error::RemoteNativeRequiresBuilder);
}

#[test]
fn one_substituter_is_a_list_of_one() {
    let mut world = world();
    let single = plan_closure(
        TOP,
        "x86_64-linux",
        "aarch64-linux",
        "https://two",
        &RealizationPolicy::SubstituteOnly,
    );
    let single = world.run(single).unwrap();
    let listed = world.run(open(&["https://two"], &[])).unwrap();
    assert_eq!(single, listed);
}

#[test]
fn cycles_do_not_keep_a_session_from_ending() {
    let mut world = world();
    world.derivations.get_mut("tool.drv").unwrap().inputs = vec![("top.drv", vec!["out"])];
    let plan = world.run(open(&["https://two"], &[])).unwrap();
    assert_eq!(plan.derivations.len(), 3);
}

#[test]
fn store_paths_are_stable() {
    assert_eq!(store_path("x.drv"), "/nix/store/x.drv");
    assert_eq!(store_path("/nix/store/x.drv"), "/nix/store/x.drv");
}

#[test]
fn every_requested_output_has_an_action() {
    let mut world = world();
    world.installables.insert(TOP, ("tool.drv", vec!["bin", "out"]));
    for paths_present in [&[][..], &["/nix/store/tool"][..]] {
        world.stores.insert("daemon", paths(paths_present));
        let plan = world.run(open(&["https://one"], &[])).unwrap();
        assert_eq!(plan.roots.len(), 1);
        assert_eq!(plan.roots[0].outputs, ["bin", "out"]);
        let planned: Vec<_> =
            plan.derivations.iter().filter(|found| found.drv == plan.roots[0].drv).collect();
        assert_eq!(planned.len(), 1);
        for output in &plan.roots[0].outputs {
            assert!(planned[0].actions.iter().any(|action| &action.output == output));
        }
    }
}

#[test]
fn what_has_to_be_realized_finds_its_inputs_in_the_plan() {
    let mut world = world();
    let plan = world.run(open(&["https://one", "https://two"], &[])).unwrap();
    let mut inputs_seen = 0;
    for derivation in &plan.derivations {
        let key = derivation.drv.strip_prefix("/nix/store/").unwrap();
        if derivation.actions.iter().all(|action| action.probe.is_available()) {
            continue;
        }
        for (input, outputs) in &world.derivations[key].inputs {
            let drv = format!("/nix/store/{input}");
            let planned = plan.derivations.iter().find(|found| found.drv == drv).unwrap();
            for output in outputs {
                assert!(planned.actions.iter().any(|action| action.output == *output));
                inputs_seen += 1;
            }
        }
    }
    assert_eq!(inputs_seen, 3);
}

#[test]
fn nothing_is_planned_that_nothing_needs() {
    let mut world = world();
    let plan = world.run(open(&["https://one", "https://two"], &[])).unwrap();
    // `deep` is only a build input of `lib`, which a store has.
    assert!(plan.derivations.iter().all(|found| found.drv != "/nix/store/deep.drv"));
    for derivation in &plan.derivations {
        for action in &derivation.actions {
            let requested = plan.roots.iter().any(|root| {
                root.drv == derivation.drv && root.outputs.contains(&action.output)
            });
            let depended_on = plan.derivations.iter().any(|user| {
                user.actions.iter().any(|action| !action.probe.is_available())
                    && user.dependencies.iter().any(|dependency| {
                        dependency.drv == derivation.drv
                            && dependency.outputs.contains(&action.output)
                    })
            });
            assert!(requested || depended_on);
        }
    }
}

#[test]
fn a_finished_plan_counts_its_derivations() {
    let mut present = world();
    present.stores.insert("daemon", paths(&["/nix/store/top"]));
    let mut down = world();
    down.stores.insert("https://two", None);
    let mut missing = world();
    missing.stores.insert("https://two", paths(&[]));
    let local = hint("flake#lib", MissRoute::BuildLocal, false);
    let plans = [
        world().run(open(&["https://one", "https://two"], &[])).unwrap(),
        missing.run(open(&["https://two"], &[local])).unwrap(),
        present.run(open(&["https://one"], &[])).unwrap(),
        down.run(open(&["https://one", "https://two"], &[])).unwrap(),
    ];
    for plan in &plans {
        let of = |class| plan.derivations.iter().filter(|found| found.class == class).count();
        assert_eq!(plan.counts.host_substituted, of(DerivationClass::HostSubstituted));
        assert_eq!(plan.counts.local_present, of(DerivationClass::LocalPresent));
        assert_eq!(plan.counts.build_local, of(DerivationClass::BuildLocal));
        assert_eq!(plan.counts.host_remote, of(DerivationClass::HostRemote));
        assert_eq!(plan.counts.unhandled, of(DerivationClass::Unhandled));
    }
}
