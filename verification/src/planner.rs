//! Structured planning for cache-shaped Crossbow realizations.
//!
//! A plan covers the derivation closure of a toplevel: for each derivation that
//! must be there it records where each output comes from, in an order in which
//! dependencies come first.

/// Assembly of a plan from what was found.
pub mod assembly;
/// What a finished plan holds for what has to be realized.
pub mod closure;
/// What a finished plan covers.
pub mod coverage;
/// What a finished plan is free of.
pub mod economy;
/// Growth of the frontier of derivations that must be realized.
pub mod frontier;
/// Derivations as Nix reports them.
pub mod graph;
/// The stable identifier of a plan.
pub mod identity;
/// Dependency-first order.
pub mod order;
/// Resolution of output paths.
pub mod outputs;
/// The plan itself.
pub mod plan;
/// Merging of what several stores answered.
pub mod probes;
/// Choice of a realization route.
pub mod routes;
/// Planning, one request at a time.
pub mod session;
/// The probe of one store.
pub mod store_probe;

pub use plan::{
    ClosurePlan, DerivationClass, DerivationPlan, MissRoute, OutputAction, PlanCounts,
    PlanDependency, PlanRoot, ProbeResult, RealizationRoute, RouteHintSpec, PLAN_SCHEMA_VERSION,
};
pub use session::{plan_closure, plan_closure_with_hints, plan_closure_with_substituters};
