//! Closure planning.

use crossbow_switch::planner::frontier::expand_frontier;
use crossbow_switch::planner::graph::{
    parse_graph, parse_roots, DerivationEnv, DerivationGraph, DerivationInput, DerivationInputs,
    DerivationNode, DerivationOutput, OutputEntry, OutputPaths,
};
use crossbow_switch::planner::order::dependency_first;
use crossbow_switch::planner::outputs::{
    check_resolved, dry_run_args, hint_skip_probe_paths, resolve_output_paths, unresolved_outputs,
};
use crossbow_switch::planner::probes::{
    derive_probe_result, merge_store_probe_results, merge_store_probes,
    merge_store_probes_with_errors, pending_outputs, probed_availability,
};
use crossbow_switch::planner::routes::{route_class, route_for_hint, select_route};
use crossbow_switch::planner::ProbeResult;
use crossbow_switch::sorted::{SortedMap, SortedSet};
use crossbow_switch::{
    ClosurePlan, DerivationClass, DerivationPlan, Error, MissRoute, PlanCounts, PlanDependency,
    PlanRoot, RealizationPolicy, RealizationRoute, RouteHintSpec, PLAN_SCHEMA_VERSION,
};
use serde_json::Value;

fn map<V>(entries: Vec<(&str, V)>) -> SortedMap<V> {
    SortedMap::from_entries(
        entries.into_iter().map(|(key, value)| (key.to_owned(), value)).collect(),
    )
}

fn set(items: &[&str]) -> SortedSet {
    let items: Vec<String> = items.iter().map(|item| (*item).to_owned()).collect();
    SortedSet::from_list(&items)
}

fn paths(entries: &[(&str, &str, &str)]) -> OutputPaths {
    let mut paths = OutputPaths::new();
    for (key, name, path) in entries {
        paths.insert(key, name, (*path).to_owned());
    }
    paths
}

fn text_at(value: &Value, name: &str) -> Option<String> {
    value.get(name).and_then(Value::as_str).map(str::to_owned)
}

fn fields<V>(value: Option<&Value>, read: impl Fn(&Value) -> V) -> SortedMap<V> {
    let Some(Value::Object(record)) = value else {
        return SortedMap::new();
    };
    SortedMap::from_entries(
        record.iter().map(|(name, value)| (name.clone(), read(value))).collect(),
    )
}

fn names(value: &Value) -> DerivationInput {
    let outputs = value.get("outputs").and_then(Value::as_array).unwrap();
    DerivationInput {
        outputs: outputs.iter().map(|name| name.as_str().unwrap().to_owned()).collect(),
    }
}

fn node(value: &Value) -> DerivationNode {
    let inputs = value.get("inputs").and_then(|inputs| inputs.get("drvs"));
    DerivationNode {
        system: text_at(value, "system").unwrap(),
        name: text_at(value, "name"),
        pname: text_at(value, "pname"),
        env: DerivationEnv { name: None, pname: None },
        outputs: fields(value.get("outputs"), |output| DerivationOutput {
            path: text_at(output, "path"),
        }),
        inputs: DerivationInputs { drvs: fields(inputs, names) },
    }
}

fn read_graph(text: &str) -> DerivationGraph {
    let document: Value = serde_json::from_str(text).unwrap();
    parse_graph(fields(document.get("derivations"), node))
}

fn read_roots(text: &str) -> Vec<PlanRoot> {
    let document: Value = serde_json::from_str(text).unwrap();
    let entries: Vec<OutputEntry> = document
        .as_array()
        .unwrap()
        .iter()
        .map(|entry| OutputEntry {
            drv_path: text_at(entry, "drvPath").unwrap(),
            outputs: fields(entry.get("outputs"), |path| path.as_str().unwrap().to_owned()),
        })
        .collect();
    parse_roots(&entries)
}

#[test]
fn parse_graph_normalizes_paths_and_reads_names() {
    let graph = read_graph(
        r#"
        {"derivations": {
          "/nix/store/root.drv": {
            "name": "root-1.0",
            "pname": "root",
            "system": "x86_64-linux",
            "outputs": {"out": {"path": "root"}}
          }
        }, "version": 4}
        "#,
    );

    let node = graph.derivations.get("root.drv").unwrap();
    assert_eq!(node.name.as_deref(), Some("root-1.0"));
    assert_eq!(node.pname.as_deref(), Some("root"));
}

#[test]
fn root_parser_preserves_only_requested_outputs() {
    let roots = read_roots(
        r#"[{"drvPath":"/nix/store/root.drv","outputs":{"dev":"/nix/store/root-dev"}}]"#,
    );
    assert_eq!(
        roots,
        vec![PlanRoot {
            drv: "/nix/store/root.drv".to_owned(),
            outputs: vec!["dev".to_owned()]
        }]
    );
}

#[test]
fn later_required_output_of_known_derivation_is_unresolved() {
    let mut required = map(vec![("shared.drv", set(&["out"]))]);
    let paths = paths(&[("shared.drv", "out", "/nix/store/shared")]);
    assert!(unresolved_outputs(&required, &paths).is_empty());

    let mut names = required.remove("shared.drv").unwrap();
    names.insert("dev".to_owned());
    required.insert("shared.drv".to_owned(), names);
    assert_eq!(
        unresolved_outputs(&required, &paths),
        vec![("shared.drv".to_owned(), "dev".to_owned())]
    );
}

#[test]
fn frontier_expansion_keeps_every_required_dependency_output() {
    let graph = read_graph(
        r#"{"derivations": {
          "root.drv": {"system":"x86_64-linux","outputs":{"out":{"path":"root"}},"inputs":{"drvs":{"dependency.drv":{"outputs":["man","out"]}}}},
          "dependency.drv": {"system":"aarch64-linux","outputs":{"man":{"path":"dependency-man"},"out":{"path":"dependency"}},"inputs":{"drvs":{}}}
        },"version":4}"#,
    );
    let mut required = map(vec![("root.drv", set(&["out"]))]);
    let mut frontier = SortedMap::new();
    let paths = paths(&[("root.drv", "out", "/nix/store/root")]);
    let availability = map(vec![("/nix/store/root", ProbeResult::Missing)]);

    expand_frontier(&graph, &mut required, &mut frontier, &paths, &availability).unwrap();

    assert_eq!(required.get("dependency.drv"), Some(&set(&["man", "out"])));
}

#[test]
fn later_frontier_expansion_resolves_new_output_of_known_derivation() {
    let graph = read_graph(
        r#"{"derivations": {
          "root.drv": {"system":"x86_64-linux","outputs":{"out":{"path":"root"}},"inputs":{"drvs":{"first.drv":{"outputs":["out"]}}}},
          "first.drv": {"system":"x86_64-linux","outputs":{"out":{"path":"first"}},"inputs":{"drvs":{"shared.drv":{"outputs":["out"]},"later.drv":{"outputs":["out"]}}}},
          "later.drv": {"system":"x86_64-linux","outputs":{"out":{"path":"later"}},"inputs":{"drvs":{"shared.drv":{"outputs":["dev"]}}}},
          "shared.drv": {"system":"x86_64-linux","outputs":{"out":{"path":"shared"},"dev":{"path":"shared-dev"}},"inputs":{"drvs":{}}}
        },"version":4}"#,
    );
    let mut required = map(vec![("root.drv", set(&["out"]))]);
    let mut frontier = SortedMap::new();
    let mut paths = paths(&[
        ("root.drv", "out", "/nix/store/root"),
        ("first.drv", "out", "/nix/store/first"),
        ("later.drv", "out", "/nix/store/later"),
        ("shared.drv", "out", "/nix/store/shared"),
    ]);
    let availability = SortedMap::from_entries(
        paths.entries().into_iter().map(|(_, _, path)| (path, ProbeResult::Missing)).collect(),
    );

    for _ in 0..3 {
        expand_frontier(&graph, &mut required, &mut frontier, &paths, &availability).unwrap();
    }
    let unresolved = unresolved_outputs(&required, &paths);
    assert_eq!(unresolved, vec![("shared.drv".to_owned(), "dev".to_owned())]);
    let resolution = resolve_output_paths(&graph, &unresolved).unwrap();
    assert!(resolution.pending.is_empty());
    check_resolved(&unresolved, &resolution.resolved).unwrap();
    paths.extend(&resolution.resolved);
    assert_eq!(
        paths.get("shared.drv", "dev").map(String::as_str),
        Some("/nix/store/shared-dev")
    );
}

#[test]
fn planner_dry_runs_pin_only_ordered_substituters() {
    let args = dry_run_args(
        &["/nix/store/root.drv^out".to_owned()],
        &["https://private".to_owned(), "https://public".to_owned()],
        &RealizationPolicy::SubstituteOnly,
    )
    .unwrap();
    assert!(args.windows(3).any(|args| {
        args == ["--option", "substituters", "https://private https://public"]
    }));
    assert_eq!(
        args.iter()
            .filter(|arg| arg.as_str() == "substituters")
            .count(),
        1
    );
    assert!(!args.iter().any(|arg| arg.contains("trusted-public-keys")));
}

#[test]
fn frontier_expansion_prunes_inputs_of_substituted_nodes() {
    let graph = read_graph(
        r#"
    {"derivations": {
      "root.drv": {
        "system": "x86_64-linux",
        "outputs": {"out": {"path": "root"}},
        "inputs": {"drvs": {"cached.drv": {"outputs": ["out"]}}}
      },
      "cached.drv": {
        "system": "aarch64-linux",
        "outputs": {"out": {"path": "cached"}},
        "inputs": {"drvs": {"missing.drv": {"outputs": ["out"]}}}
      },
      "missing.drv": {
        "system": "aarch64-linux",
        "outputs": {"out": {"path": "missing"}},
        "inputs": {"drvs": {}}
      }
    }, "version": 4}
    "#,
    );
    let mut required = map(vec![("root.drv", set(&["out"]))]);
    let mut frontier = SortedMap::new();
    let output_paths = paths(&[
        ("root.drv", "out", "/nix/store/root"),
        ("cached.drv", "out", "/nix/store/cached"),
        ("missing.drv", "out", "/nix/store/missing"),
    ]);
    let availability = map(vec![
        ("/nix/store/root", ProbeResult::Missing),
        (
            "/nix/store/cached",
            ProbeResult::Present {
                substituter: "https://cache.example".to_owned(),
            },
        ),
        ("/nix/store/missing", ProbeResult::Missing),
    ]);

    assert!(
        expand_frontier(
            &graph,
            &mut required,
            &mut frontier,
            &output_paths,
            &availability,
        )
        .unwrap()
    );
    assert!(
        expand_frontier(
            &graph,
            &mut required,
            &mut frontier,
            &output_paths,
            &availability,
        )
        .unwrap()
    );

    assert!(frontier.contains_key("root.drv"));
    assert!(frontier.contains_key("cached.drv"));
    assert!(!required.contains_key("missing.drv"));
}

#[test]
fn parallel_probe_merges_a_hit_from_one_store_despite_another_missing() {
    // Both stores answer; the output is present in exactly one.
    let hits = map(vec![("/nix/store/a", true)]);
    let misses = map(vec![("/nix/store/a", false)]);
    let merged = merge_store_probes(&["store-1", "store-2"], &[hits, misses]);
    assert_eq!(
        merged.get("/nix/store/a"),
        Some(&ProbeResult::Present {
            substituter: "store-1".to_owned()
        })
    );
}

#[test]
fn all_misses_yield_missing() {
    let merged = merge_store_probes(
        &["store-1", "store-2"],
        &[
            map(vec![("/nix/store/a", false)]),
            map(vec![("/nix/store/a", false)]),
        ],
    );
    assert_eq!(merged.get("/nix/store/a"), Some(&ProbeResult::Missing));
}

#[test]
fn missing_plus_store_failure_is_indeterminate_not_missing() {
    let merged = merge_store_probes_with_errors(
        &["store-1", "store-2"],
        &[map(vec![("/nix/store/a", false)])],
        &["store-2"],
    );
    assert!(matches!(
        merged.get("/nix/store/a").unwrap(),
        ProbeResult::Indeterminate { errors } if errors.iter().all(|e| e == "store-2")
    ));
}

#[test]
fn probe_merge_preserves_substituter_order_and_failure_attribution() {
    let output = "/nix/store/a".to_owned();
    let probes = vec![
        (
            "second".to_owned(),
            Ok(map(vec![(output.as_str(), true)])),
        ),
        (
            "first".to_owned(),
            Ok(map(vec![(output.as_str(), true)])),
        ),
    ];
    assert_eq!(
        merge_store_probe_results(std::slice::from_ref(&output), &probes, false).get(&output),
        Some(&ProbeResult::Present {
            substituter: "second".to_owned()
        })
    );

    let failed = vec![(
        "private".to_owned(),
        Err(Error::PlannerCacheProbeFailed {
            substituter: "private".to_owned(),
            output: output.clone(),
            stderr: "down".to_owned(),
        }),
    )];
    assert_eq!(
        merge_store_probe_results(std::slice::from_ref(&output), &failed, true).get(&output),
        Some(&ProbeResult::Indeterminate {
            errors: vec!["daemon".to_owned(), "private".to_owned()]
        })
    );
}

#[test]
fn indeterminate_probe_always_fails_closed() {
    let route = select_route(
        "root.drv",
        &ProbeResult::Indeterminate {
            errors: vec!["cache".to_owned()],
        },
        &[],
        &SortedMap::new(),
        "x86_64-linux",
        "x86_64-linux",
        "aarch64-linux",
        &RealizationPolicy::SubstituteOnly,
    );
    assert!(matches!(route, RealizationRoute::Fail { .. }));
}

#[test]
fn dependency_order_and_plan_id_are_stable() {
    fn plan(drv: &str, dependencies: Vec<PlanDependency>) -> DerivationPlan {
        DerivationPlan {
            drv: drv.to_owned(),
            name: None,
            pname: None,
            output_names: vec![],
            outputs: vec![],
            system: "x86_64-linux".to_owned(),
            class: DerivationClass::BuildLocal,
            route: RealizationRoute::BuildLocal,
            hint: None,
            probe: None,
            actions: vec![],
            dependencies,
        }
    }
    let dependency = plan("/nix/store/z-dependency.drv", vec![]);
    let root = plan(
        "/nix/store/a-root.drv",
        vec![PlanDependency {
            drv: dependency.drv.clone(),
            outputs: vec!["out".to_owned()],
        }],
    );
    let ordered = dependency_first(
        vec![root.clone(), dependency.clone()],
        &[PlanRoot {
            drv: root.drv.clone(),
            outputs: vec!["out".to_owned()],
        }],
    );
    assert_eq!(ordered[0].drv, dependency.drv);
    assert_eq!(ordered[1].drv, root.drv);

    let plan = ClosurePlan {
        schema_version: PLAN_SCHEMA_VERSION,
        plan_id: "ignored".to_owned(),
        toplevel_installable: "/nix/store/source#top".to_owned(),
        flake_installable: "/nix/store/source#host".to_owned(),
        build_system: "x86_64-linux".to_owned(),
        host_system: "aarch64-linux".to_owned(),
        roots: vec![],
        derivations: ordered,
        counts: PlanCounts::default(),
    };
    assert_eq!(
        plan.canonical_plan_id().unwrap(),
        plan.canonical_plan_id().unwrap()
    );
}

#[test]
fn installable_identity_is_part_of_plan_id() {
    let mut first = ClosurePlan {
        schema_version: PLAN_SCHEMA_VERSION,
        plan_id: String::new(),
        toplevel_installable: "/nix/store/source#top-a".to_owned(),
        flake_installable: "/nix/store/source#host".to_owned(),
        build_system: "x86_64-linux".to_owned(),
        host_system: "aarch64-linux".to_owned(),
        roots: vec![],
        derivations: vec![],
        counts: PlanCounts::default(),
    };
    let first_id = first.canonical_plan_id().unwrap();
    first.toplevel_installable = "/nix/store/source#top-b".to_owned();
    assert_ne!(first_id, first.canonical_plan_id().unwrap());
    first.toplevel_installable = "/nix/store/source#top-a".to_owned();
    first.flake_installable = "/nix/store/source#other-host".to_owned();
    assert_ne!(first_id, first.canonical_plan_id().unwrap());
}

#[test]
fn builtin_dependency_is_ordered_before_its_consumer_and_build_local() {
    let builtin_route = select_route(
        "builtin.drv",
        &ProbeResult::SkippedKnownLocal,
        &[],
        &SortedMap::new(),
        "builtin",
        "x86_64-linux",
        "aarch64-linux",
        &RealizationPolicy::SubstituteOnly,
    );
    assert_eq!(builtin_route, RealizationRoute::BuildLocal);

    let builtin = DerivationPlan {
        drv: "/nix/store/builtin.drv".to_owned(),
        name: None,
        pname: None,
        output_names: vec!["out".to_owned()],
        outputs: vec!["/nix/store/builtin".to_owned()],
        system: "builtin".to_owned(),
        class: DerivationClass::BuildLocal,
        route: builtin_route,
        hint: None,
        probe: Some(ProbeResult::SkippedKnownLocal),
        actions: vec![],
        dependencies: vec![],
    };
    let root = DerivationPlan {
        drv: "/nix/store/root.drv".to_owned(),
        name: None,
        pname: None,
        output_names: vec!["out".to_owned()],
        outputs: vec!["/nix/store/root".to_owned()],
        system: "x86_64-linux".to_owned(),
        class: DerivationClass::BuildLocal,
        route: RealizationRoute::BuildLocal,
        hint: None,
        probe: Some(ProbeResult::Missing),
        actions: vec![],
        dependencies: vec![PlanDependency {
            drv: builtin.drv.clone(),
            outputs: vec!["out".to_owned()],
        }],
    };
    let ordered = dependency_first(
        vec![root.clone(), builtin.clone()],
        &[PlanRoot {
            drv: root.drv,
            outputs: vec!["out".to_owned()],
        }],
    );
    assert_eq!(ordered[0].drv, builtin.drv);
}

#[test]
fn local_presence_requires_a_daemon_probe_hit() {
    let path = "/nix/store/example".to_owned();
    let local = Ok(map(vec![(path.as_str(), true)]));
    let pending = pending_outputs(std::slice::from_ref(&path), &local);
    assert!(pending.is_empty());
    let availability = probed_availability(&local, &pending, &[]);

    assert_eq!(availability.get(&path), Some(&ProbeResult::LocalPresent));
}

#[test]
fn known_local_hint_skips_probe_and_routes_build_local() {
    let hints = vec![RouteHintSpec {
        label: "identity-cli".into(),
        installable: ".#identity-cli".into(),
        on_miss: MissRoute::BuildLocal,
        origin: None,
        skip_probe: true,
    }];
    let hint_drvs = map(vec![("identity.drv", hints[0].clone())]);
    let output_paths = paths(&[("identity.drv", "out", "/nix/store/identity")]);
    let skipped = hint_skip_probe_paths(&hint_drvs, &output_paths);
    assert_eq!(skipped, set(&["/nix/store/identity"]));

    let probe = derive_probe_result(
        "identity.drv",
        &hint_drvs,
        &["/nix/store/identity".to_owned()],
        &SortedMap::new(),
    );
    assert_eq!(probe, ProbeResult::SkippedKnownLocal);

    let route = select_route(
        "identity.drv",
        &probe,
        &hints,
        &hint_drvs,
        "x86_64-linux",
        "x86_64-linux",
        "aarch64-linux",
        &RealizationPolicy::SubstituteOnly,
    );
    assert_eq!(route, RealizationRoute::BuildLocal);
}

#[test]
fn local_present_probe_routes_already_present() {
    let route = select_route(
        "local.drv",
        &ProbeResult::LocalPresent,
        &[],
        &SortedMap::new(),
        "x86_64-linux",
        "x86_64-linux",
        "aarch64-linux",
        &RealizationPolicy::SubstituteOnly,
    );
    assert_eq!(route, RealizationRoute::AlreadyPresent);
    assert_eq!(route_class(&route), DerivationClass::LocalPresent);
}

#[test]
fn hint_on_miss_fail_blocks_substitution_requirement() {
    let spec = RouteHintSpec {
        label: "must-substitute".into(),
        installable: ".#pkg".into(),
        on_miss: MissRoute::Fail,
        origin: None,
        skip_probe: false,
    };
    let route = route_for_hint(
        &spec,
        &[],
        "aarch64-linux",
        "x86_64-linux",
        &RealizationPolicy::SubstituteOnly,
    );
    assert!(matches!(route, RealizationRoute::Fail { .. }));
}

#[test]
fn remote_native_route_requires_a_declared_builder() {
    let spec = RouteHintSpec {
        label: "remote".into(),
        installable: ".#pkg".into(),
        on_miss: MissRoute::RemoteNative,
        origin: None,
        skip_probe: false,
    };
    let no_builder = route_for_hint(
        &spec,
        &[],
        "aarch64-linux",
        "x86_64-linux",
        &RealizationPolicy::SubstituteOnly,
    );
    assert!(matches!(no_builder, RealizationRoute::Fail { .. }));

    let with_builder = route_for_hint(
        &spec,
        &[],
        "aarch64-linux",
        "x86_64-linux",
        &RealizationPolicy::RemoteNative {
            builders: vec!["ssh://builder".into()],
        },
    );
    assert_eq!(
        with_builder,
        RealizationRoute::RemoteNative {
            builders: vec!["ssh://builder".into()]
        }
    );
}

#[test]
fn build_local_hint_on_wrong_system_fails() {
    let spec = RouteHintSpec {
        label: "cross".into(),
        installable: ".#pkg".into(),
        on_miss: MissRoute::BuildLocal,
        origin: None,
        skip_probe: false,
    };
    let route = route_for_hint(
        &spec,
        &[],
        "aarch64-linux",
        "x86_64-linux",
        &RealizationPolicy::SubstituteOnly,
    );
    assert!(matches!(route, RealizationRoute::Fail { .. }));
}

#[test]
fn display_label_prefers_package_name_and_keeps_derivation_name() {
    let plan = DerivationPlan {
        drv: "/nix/store/hash-canix-1.0.drv".to_owned(),
        name: Some("canix-1.0".to_owned()),
        pname: Some("canix".to_owned()),
        output_names: Vec::new(),
        outputs: Vec::new(),
        system: "x86_64-linux".to_owned(),
        class: DerivationClass::BuildLocal,
        route: RealizationRoute::BuildLocal,
        hint: None,
        probe: None,
        actions: Vec::new(),
        dependencies: Vec::new(),
    };

    assert_eq!(plan.display_label(), "canix (canix-1.0)");
}

#[test]
fn a_derivation_enters_the_frontier_once() {
    let graph = read_graph(
        r#"{"derivations": {
          "r.drv": {"system":"x86_64-linux","outputs":{"dev":{"path":"r-dev"},"out":{"path":"r"}},"inputs":{"drvs":{}}}
        },"version":4}"#,
    );
    let mut required = map(vec![("r.drv", set(&["dev", "out"]))]);
    let mut frontier = SortedMap::new();
    let paths = paths(&[("r.drv", "dev", "/nix/store/r-dev"), ("r.drv", "out", "/nix/store/r")]);
    let availability = map(vec![
        ("/nix/store/r-dev", ProbeResult::Missing),
        ("/nix/store/r", ProbeResult::Missing),
    ]);

    assert_eq!(
        expand_frontier(&graph, &mut required, &mut frontier, &paths, &availability),
        Ok(true)
    );
    assert_eq!(frontier.get("r.drv"), Some(&set(&["dev", "out"])));
    assert_eq!(
        expand_frontier(&graph, &mut required, &mut frontier, &paths, &availability),
        Ok(false)
    );
    assert_eq!(frontier.get("r.drv"), Some(&set(&["dev", "out"])));
    assert_eq!(required.get("r.drv"), Some(&set(&["dev", "out"])));

    // An output that becomes required later enters for itself.
    required = map(vec![("r.drv", set(&["dev", "doc", "out"]))]);
    assert_eq!(
        expand_frontier(&graph, &mut required, &mut frontier, &paths, &availability),
        Ok(true)
    );
    assert_eq!(frontier.get("r.drv"), Some(&set(&["dev", "doc", "out"])));
}
