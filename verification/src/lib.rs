//! Runtime support for Crossbow cache-shaped NixOS switch orchestration.
//!
//! A switch builds a system toplevel, collects the closure to publish, checks
//! that a cache has it, and activates the exact toplevel that was prepared,
//! without reevaluating it. This crate decides what is run and what the answers
//! mean; running processes and reading files is left to its callers, who hand
//! it plain values.

/// Activation of a prepared toplevel.
pub mod activation;
/// Calls to the outside, in the order in which they are made.
pub mod calls;
/// Command-line arguments and the invocations they ask for.
pub mod cli;
/// Commands that are handed out to be run, and what their ends mean.
pub mod command;
/// Delivery of a prepared switch, stage by stage.
pub mod delivery;
/// Classification and redaction of realization diagnostics.
pub mod diagnostics;
/// Error and result types shared by the library and its callers.
pub mod error;
/// Plan execution and executor descriptors for check planning.
pub mod executor;
/// Typed access to Crossbow's shared target and profile metadata.
pub mod metadata;
/// Outside functions and what the library relies on of them.
pub mod outside;
/// Structured derivation-closure planning for cache-shaped realizations.
pub mod planner;
/// Realization policy and the Nix flags that follow from it.
pub mod policy;
/// Publication and verification of store paths.
pub mod publish;
/// Realization of a toplevel.
pub mod realize;
/// One switch attempt: what is asked for, and what has been prepared.
pub mod request;
/// Parsed Crossbow requirements artifact (roots, drvs, fingerprint).
pub mod requirements;
/// Maps and sets of texts in ascending order.
pub mod sorted;
/// Generic prepared-state persistence for prerequisite roots.
pub mod state;
/// Bounded capture of a command's standard error.
pub mod stderr;
/// Orchestration of a switch.
pub mod switch;
/// Operations on texts.
pub mod text;

pub use calls::Calls;
pub use error::{
    Error, MissingPrerequisite, RealizationFailureKind, Result, MAX_REALIZATION_DIAGNOSTIC_BYTES,
};
pub use executor::execute_plan;
pub use planner::{
    plan_closure, plan_closure_with_hints, plan_closure_with_substituters, ClosurePlan,
    DerivationClass, DerivationPlan, MissRoute, OutputAction, PlanCounts, PlanDependency, PlanRoot,
    RealizationRoute, RouteHintSpec, PLAN_SCHEMA_VERSION,
};
pub use policy::{
    cache_shaped_build_args, cache_shaped_build_args_with_policy, cache_shaped_nix_flags,
    cache_shaped_switch_flags, realization_nix_flags, RealizationPolicy,
};
pub use publish::{closure_to_publish, Publisher, TrustPublish, Verifier};
pub use request::{PreparedSwitch, SwitchPlan};
pub use requirements::{diff_roots, label_roots, LabeledRoot, RequirementsArtifact, RootDiff};
pub use state::{
    load_prepared_state, state_file_path, state_to_labeled_roots, PreparedState, StateStatus,
};
pub use switch::{
    prepare_planned_switch, prepare_switch, run_cache_shaped_switch, run_planned_switch, Parties,
};
