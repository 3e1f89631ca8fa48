//! The realization plan: its types and their models.

use vstd::prelude::*;

use crate::text;

verus! {

/// Current version of the authoritative closure-plan schema.
pub const PLAN_SCHEMA_VERSION: u32 = 2;

/// The realization class assigned to one derivation.
#[derive(Debug, Clone, Copy, PartialEq, Eq, Structural)]
pub enum DerivationClass {
    /// Every requested output is already present in the local Nix store.
    LocalPresent,
    /// The output is available from the queried substituter.
    HostSubstituted,
    /// The derivation will be built on the Crossbow build host.
    BuildLocal,
    /// The host-system miss is eligible for a declared native builder.
    HostRemote,
    /// The derivation does not match either declared platform.
    Unhandled,
}

/// What to do with a derivation that is not available from any substituter.
#[derive(Debug, Clone, Copy, PartialEq, Eq, Structural)]
pub enum MissRoute {
    /// Abort the plan; the derivation must substitute or the build is blocked.
    Fail,
    /// Build the derivation on the Crossbow build host.
    BuildLocal,
    /// Route the derivation to an explicitly declared native builder.
    RemoteNative,
}

/// A stable label describing which cache answered a probe for one output path.
#[derive(Debug, PartialEq, Eq)]
pub enum ProbeResult {
    /// The output path is present in the named substituter.
    Present {
        /// Substituter store URL that served the path.
        substituter: String,
    },
    /// The output path is already present in the local Nix store.
    LocalPresent,
    /// No queried substituter reported the output path.
    Missing,
    /// At least one substituter could not be queried, and none reported a hit.
    /// This must not be treated as a cache miss.
    Indeterminate {
        /// Store URLs whose probe failed.
        errors: Vec<String>,
    },
    /// Probing was intentionally skipped for this known-local derivation.
    SkippedKnownLocal,
}

/// Model of a [`ProbeResult`].
#[verifier::ext_equal]
pub enum ProbeView {
    Present { substituter: Seq<char> },
    LocalPresent,
    Missing,
    Indeterminate { errors: Seq<Seq<char>> },
    SkippedKnownLocal,
}

impl View for ProbeResult {
    type V = ProbeView;

    open spec fn view(&self) -> ProbeView {
        match self {
            ProbeResult::Present { substituter } => ProbeView::Present {
                substituter: substituter@,
            },
            ProbeResult::LocalPresent => ProbeView::LocalPresent,
            ProbeResult::Missing => ProbeView::Missing,
            ProbeResult::Indeterminate { errors } => ProbeView::Indeterminate {
                errors: errors.deep_view(),
            },
            ProbeResult::SkippedKnownLocal => ProbeView::SkippedKnownLocal,
        }
    }
}

impl DeepView for ProbeResult {
    type V = ProbeView;

    open spec fn deep_view(&self) -> ProbeView {
        self@
    }
}

impl Clone for ProbeResult {
    fn clone(&self) -> (result: Self)
        ensures
            result@ == self@,
    {
        match self {
            ProbeResult::Present { substituter } => ProbeResult::Present {
                substituter: substituter.clone(),
            },
            ProbeResult::LocalPresent => ProbeResult::LocalPresent,
            ProbeResult::Missing => ProbeResult::Missing,
            ProbeResult::Indeterminate { errors } => {
                let copy = text::copy_list(errors.as_slice());
                ProbeResult::Indeterminate { errors: copy }
            },
            ProbeResult::SkippedKnownLocal => ProbeResult::SkippedKnownLocal,
        }
    }
}

impl ProbeView {
    /// The output needs no realization work.
    pub open spec fn is_available(self) -> bool {
        self is Present || self is LocalPresent
    }
}

impl ProbeResult {
    /// Whether the output needs no realization work.
    pub fn is_available(&self) -> (result: bool)
        ensures
            result == self@.is_available(),
    {
        matches!(self, ProbeResult::Present { .. } | ProbeResult::LocalPresent)
    }
}

/// Runtime routing policy binding a flake installable to a miss route.
///
/// Hints are exact: they bind to the derivation resolved from `installable`
/// against the frozen flake, never to an attribute name or package name.
#[derive(Debug, PartialEq, Eq)]
pub struct RouteHintSpec {
    /// Stable label surfaced in the plan and in diagnostics.
    pub label: String,
    /// Flake installable whose resolved derivation receives the hint.
    pub installable: String,
    /// Route applied when the hinted derivation misses every substituter.
    pub on_miss: MissRoute,
    /// Optional diagnostic provenance (e.g. the policy root that produced it).
    pub origin: Option<String>,
    /// When set, the hinted derivation's outputs are never probed and the
    /// `on_miss` route is assumed. Dependency outputs are still probed.
    pub skip_probe: bool,
}

/// Model of a [`RouteHintSpec`].
#[verifier::ext_equal]
pub struct HintView {
    pub label: Seq<char>,
    pub installable: Seq<char>,
    pub on_miss: MissRoute,
    pub origin: Option<Seq<char>>,
    pub skip_probe: bool,
}

impl View for RouteHintSpec {
    type V = HintView;

    open spec fn view(&self) -> HintView {
        HintView {
            label: self.label@,
            installable: self.installable@,
            on_miss: self.on_miss,
            origin: self.origin.deep_view(),
            skip_probe: self.skip_probe,
        }
    }
}

impl DeepView for RouteHintSpec {
    type V = HintView;

    open spec fn deep_view(&self) -> HintView {
        self@
    }
}

impl Clone for RouteHintSpec {
    fn clone(&self) -> (result: Self)
        ensures
            result@ == self@,
    {
        RouteHintSpec {
            label: self.label.clone(),
            installable: self.installable.clone(),
            on_miss: self.on_miss,
            origin: self.origin.clone(),
            skip_probe: self.skip_probe,
        }
    }
}

/// How one derivation will be realized, decided at plan time.
#[derive(Debug, PartialEq, Eq)]
pub enum RealizationRoute {
    /// Substitute from the named store.
    Substitute {
        /// Substituter store URL that serves the outputs.
        substituter: String,
    },
    /// The output is already present in the local store; nothing to do.
    AlreadyPresent,
    /// Build on the Crossbow build host.
    BuildLocal,
    /// Route to an explicitly declared native builder.
    RemoteNative {
        /// Nix builder specifications eligible for this derivation.
        builders: Vec<String>,
    },
    /// The plan is blocked for this derivation.
    Fail {
        /// Why the derivation cannot be realized.
        reason: String,
    },
}

/// Model of a [`RealizationRoute`].
#[verifier::ext_equal]
pub enum RouteView {
    Substitute { substituter: Seq<char> },
    AlreadyPresent,
    BuildLocal,
    RemoteNative { builders: Seq<Seq<char>> },
    Fail { reason: Seq<char> },
}

impl View for RealizationRoute {
    type V = RouteView;

    open spec fn view(&self) -> RouteView {
        match self {
            RealizationRoute::Substitute { substituter } => RouteView::Substitute {
                substituter: substituter@,
            },
            RealizationRoute::AlreadyPresent => RouteView::AlreadyPresent,
            RealizationRoute::BuildLocal => RouteView::BuildLocal,
            RealizationRoute::RemoteNative { builders } => RouteView::RemoteNative {
                builders: builders.deep_view(),
            },
            RealizationRoute::Fail { reason } => RouteView::Fail { reason: reason@ },
        }
    }
}

impl DeepView for RealizationRoute {
    type V = RouteView;

    open spec fn deep_view(&self) -> RouteView {
        self@
    }
}

impl Clone for RealizationRoute {
    fn clone(&self) -> (result: Self)
        ensures
            result@ == self@,
    {
        match self {
            RealizationRoute::Substitute { substituter } => RealizationRoute::Substitute {
                substituter: substituter.clone(),
            },
            RealizationRoute::AlreadyPresent => RealizationRoute::AlreadyPresent,
            RealizationRoute::BuildLocal => RealizationRoute::BuildLocal,
            RealizationRoute::RemoteNative { builders } => {
                let copy = text::copy_list(builders.as_slice());
                RealizationRoute::RemoteNative { builders: copy }
            },
            RealizationRoute::Fail { reason } => RealizationRoute::Fail { reason: reason.clone() },
        }
    }
}

impl Default for RealizationRoute {
    fn default() -> (result: Self)
        ensures
            result@ == (RouteView::Fail { reason: Seq::empty() }),
    {
        RealizationRoute::Fail { reason: String::new() }
    }
}

/// Authoritative probe and route decision for one derivation output.
#[derive(Debug, Clone, PartialEq, Eq)]
pub struct OutputAction {
    /// Output name from the derivation.
    pub output: String,
    /// Expected output store path.
    pub path: String,
    /// Probe result used to select `route`.
    pub probe: ProbeResult,
    /// Exact route the executor must follow.
    pub route: RealizationRoute,
}

/// Model of a [`OutputAction`].
#[verifier::ext_equal]
pub struct ActionView {
    pub output: Seq<char>,
    pub path: Seq<char>,
    pub probe: ProbeView,
    pub route: RouteView,
}

impl View for OutputAction {
    type V = ActionView;

    open spec fn view(&self) -> ActionView {
        ActionView {
            output: self.output@,
            path: self.path@,
            probe: self.probe@,
            route: self.route@,
        }
    }
}

impl DeepView for OutputAction {
    type V = ActionView;

    open spec fn deep_view(&self) -> ActionView {
        self@
    }
}

/// One dependency edge retained in the executable plan.
#[derive(Debug, Clone, PartialEq, Eq)]
pub struct PlanDependency {
    /// Dependency derivation store path.
    pub drv: String,
    /// Outputs required from the dependency.
    pub outputs: Vec<String>,
}

/// Model of a [`PlanDependency`].
#[verifier::ext_equal]
pub struct DependencyView {
    pub drv: Seq<char>,
    pub outputs: Seq<Seq<char>>,
}

impl View for PlanDependency {
    type V = DependencyView;

    open spec fn view(&self) -> DependencyView {
        DependencyView {
            drv: self.drv@,
            outputs: self.outputs.deep_view(),
        }
    }
}

impl DeepView for PlanDependency {
    type V = DependencyView;

    open spec fn deep_view(&self) -> DependencyView {
        self@
    }
}

/// Exact outputs requested from one root derivation.
#[derive(Debug, Clone, PartialEq, Eq)]
pub struct PlanRoot {
    /// Root derivation store path.
    pub drv: String,
    /// Requested root output names, without implicit expansion to every output.
    pub outputs: Vec<String>,
}

/// Model of a [`PlanRoot`].
#[verifier::ext_equal]
pub struct RootView {
    pub drv: Seq<char>,
    pub outputs: Seq<Seq<char>>,
}

impl View for PlanRoot {
    type V = RootView;

    open spec fn view(&self) -> RootView {
        RootView {
            drv: self.drv@,
            outputs: self.outputs.deep_view(),
        }
    }
}

impl DeepView for PlanRoot {
    type V = RootView;

    open spec fn deep_view(&self) -> RootView {
        self@
    }
}

/// One derivation discovered from Nix's derivation closure.
#[derive(Debug, Clone, PartialEq, Eq)]
pub struct DerivationPlan {
    /// Full derivation store path.
    pub drv: String,
    /// Full derivation name, when Nix reported one.
    pub name: Option<String>,
    /// Package name, when Nix reported one.
    pub pname: Option<String>,
    /// Requested output names (one per entry in `outputs`).
    pub output_names: Vec<String>,
    /// Output store paths reported by Nix.
    pub outputs: Vec<String>,
    /// Nix's build system for the derivation.
    pub system: String,
    /// Classification under the selected realization policy.
    pub class: DerivationClass,
    /// Concrete realization route selected at plan time.
    pub route: RealizationRoute,
    /// Hint label that produced this route, when a hint bound to the derivation.
    pub hint: Option<String>,
    /// Outcome of probing the requested outputs against the substituters.
    pub probe: Option<ProbeResult>,
    /// Authoritative independent actions for the requested outputs.
    pub actions: Vec<OutputAction>,
    /// Direct dependency edges retained from the realization frontier.
    pub dependencies: Vec<PlanDependency>,
}

/// Model of a [`DerivationPlan`].
#[verifier::ext_equal]
pub struct DerivationView {
    pub drv: Seq<char>,
    pub name: Option<Seq<char>>,
    pub pname: Option<Seq<char>>,
    pub output_names: Seq<Seq<char>>,
    pub outputs: Seq<Seq<char>>,
    pub system: Seq<char>,
    pub class: DerivationClass,
    pub route: RouteView,
    pub hint: Option<Seq<char>>,
    pub probe: Option<ProbeView>,
    pub actions: Seq<ActionView>,
    pub dependencies: Seq<DependencyView>,
}

impl View for DerivationPlan {
    type V = DerivationView;

    open spec fn view(&self) -> DerivationView {
        DerivationView {
            drv: self.drv@,
            name: self.name.deep_view(),
            pname: self.pname.deep_view(),
            output_names: self.output_names.deep_view(),
            outputs: self.outputs.deep_view(),
            system: self.system@,
            class: self.class,
            route: self.route@,
            hint: self.hint.deep_view(),
            probe: self.probe.deep_view(),
            actions: self.actions.deep_view(),
            dependencies: self.dependencies.deep_view(),
        }
    }
}

impl DeepView for DerivationPlan {
    type V = DerivationView;

    open spec fn deep_view(&self) -> DerivationView {
        self@
    }
}

/// The last component of a derivation path without its `.drv` suffix; the
/// whole path when the component does not end in `.drv`.
pub open spec fn path_label(drv: Seq<char>) -> Seq<char> {
    match text::without_suffix(text::after_last(drv, '/'), ".drv"@) {
        Some(stem) => stem,
        None => drv,
    }
}

impl DerivationView {
    /// The human label: the package name, with the derivation name behind it
    /// when the two differ.
    pub open spec fn display_label(self) -> Seq<char> {
        match (self.pname, self.name) {
            (Some(pname), Some(name)) => if pname != name {
                pname + " ("@ + name + ")"@
            } else {
                pname
            },
            (Some(pname), None) => pname,
            (None, Some(name)) => name,
            (None, None) => path_label(self.drv),
        }
    }
}

impl DerivationPlan {
    /// Returns the most useful stable human label for this derivation.
    #[must_use]
    pub fn display_label(&self) -> (result: String)
        ensures
            result@ == self@.display_label(),
    {
        match (&self.pname, &self.name) {
            (Some(pname), Some(name)) => {
                if !text::same(pname.as_str(), name.as_str()) {
                    pname.clone().concat(" (").concat(name.as_str()).concat(")")
                } else {
                    pname.clone()
                }
            },
            (Some(pname), None) => pname.clone(),
            (None, Some(name)) => name.clone(),
            (None, None) => {
                let last = text::rest_after_last(self.drv.as_str(), '/');
                match text::strip_suffix(last.as_str(), ".drv") {
                    Some(stem) => stem,
                    None => self.drv.clone(),
                }
            },
        }
    }
}

/// Counts for a structured closure plan.
#[derive(Debug, Clone, Copy, PartialEq, Eq)]
pub struct PlanCounts {
    /// Outputs already available from the configured substituters.
    pub host_substituted: usize,
    /// Derivations whose requested outputs are already in the local store.
    pub local_present: usize,
    /// Derivations Nix will build on the build host.
    pub build_local: usize,
    /// Host-system misses routed to a declared native builder.
    pub host_remote: usize,
    /// Derivations that could not be safely classified.
    pub unhandled: usize,
}

/// Model of a [`PlanCounts`].
#[verifier::ext_equal]
pub struct CountsView {
    pub host_substituted: nat,
    pub local_present: nat,
    pub build_local: nat,
    pub host_remote: nat,
    pub unhandled: nat,
}

impl View for PlanCounts {
    type V = CountsView;

    open spec fn view(&self) -> CountsView {
        CountsView {
            host_substituted: self.host_substituted as nat,
            local_present: self.local_present as nat,
            build_local: self.build_local as nat,
            host_remote: self.host_remote as nat,
            unhandled: self.unhandled as nat,
        }
    }
}

impl DeepView for PlanCounts {
    type V = CountsView;

    open spec fn deep_view(&self) -> CountsView {
        self@
    }
}

/// Counts of an empty plan.
pub open spec fn no_counts() -> CountsView {
    CountsView {
        host_substituted: 0,
        local_present: 0,
        build_local: 0,
        host_remote: 0,
        unhandled: 0,
    }
}

impl Default for PlanCounts {
    fn default() -> (result: Self)
        ensures
            result@ == no_counts(),
    {
        PlanCounts {
            host_substituted: 0,
            local_present: 0,
            build_local: 0,
            host_remote: 0,
            unhandled: 0,
        }
    }
}

/// Complete machine-readable realization plan.
#[derive(Debug, Clone, PartialEq, Eq)]
pub struct ClosurePlan {
    /// Version of this executable plan schema.
    pub schema_version: u32,
    /// SHA-256 identifier over canonical plan content, excluding this field.
    pub plan_id: String,
    /// Exact toplevel installable requested during planning.
    pub toplevel_installable: String,
    /// Exact frozen flake installable that owns `toplevel_installable`.
    pub flake_installable: String,
    /// Build system running Crossbow.
    pub build_system: String,
    /// Target host system.
    pub host_system: String,
    /// Exact root outputs requested by the installable.
    pub roots: Vec<PlanRoot>,
    /// Derivations in the realized closure graph.
    pub derivations: Vec<DerivationPlan>,
    /// Aggregate class counts.
    pub counts: PlanCounts,
}

/// Model of a [`ClosurePlan`].
#[verifier::ext_equal]
pub struct PlanView {
    pub schema_version: u32,
    pub plan_id: Seq<char>,
    pub toplevel_installable: Seq<char>,
    pub flake_installable: Seq<char>,
    pub build_system: Seq<char>,
    pub host_system: Seq<char>,
    pub roots: Seq<RootView>,
    pub derivations: Seq<DerivationView>,
    pub counts: CountsView,
}

impl View for ClosurePlan {
    type V = PlanView;

    open spec fn view(&self) -> PlanView {
        PlanView {
            schema_version: self.schema_version,
            plan_id: self.plan_id@,
            toplevel_installable: self.toplevel_installable@,
            flake_installable: self.flake_installable@,
            build_system: self.build_system@,
            host_system: self.host_system@,
            roots: self.roots.deep_view(),
            derivations: self.derivations.deep_view(),
            counts: self.counts@,
        }
    }
}

impl DeepView for ClosurePlan {
    type V = PlanView;

    open spec fn deep_view(&self) -> PlanView {
        self@
    }
}

/// An output needs no work if and only if some store has it.
pub proof fn law_found_outputs_need_no_work(probe: ProbeView)
    ensures
        probe.is_available() <==> probe is Present || probe is LocalPresent,
{
}

/// A derivation is shown by its package name, with its own name behind it where
/// that differs, and otherwise by the one that it has. Without either, it is
/// shown by its path: without the directory and the ending of a derivation.
pub proof fn law_derivations_are_shown_by_name(plan: DerivationView, dir: Seq<char>, stem: Seq<char>)
    ensures
        plan.pname matches Some(pname) ==> match plan.name {
            Some(name) if name != pname => plan.display_label() == pname + seq![' ', '(']
                + name.push(')'),
            _ => plan.display_label() == pname,
        },
        plan.pname is None ==> (plan.name matches Some(name) ==> plan.display_label() == name),
        plan.pname is None && plan.name is None && !stem.contains('/') && plan.drv == dir.push('/')
            + stem + ".drv"@ ==> plan.display_label() == stem,
{
    reveal_strlit(" (");
    reveal_strlit(")");
    assert(" ("@ =~= seq![' ', '(']);
    if let (Some(pname), Some(name)) = (plan.pname, plan.name) {
        assert(pname + " ("@ + name + ")"@ =~= pname + seq![' ', '('] + name.push(')'));
    }
    if !stem.contains('/') {
        reveal_strlit(".drv");
        let last = stem + ".drv"@;
        assert(!last.contains('/')) by {
            if last.contains('/') {
                let i = last.index_of('/');
                if i < stem.len() {
                    assert(stem[i] == '/');
                } else {
                    assert(".drv"@[i - stem.len()] == '/');
                }
            }
        }
        text::law_splits_leave_out_the_character(dir, '/', last);
        assert(dir.push('/') + stem + ".drv"@ =~= dir.push('/') + last);
        assert(".drv"@.is_suffix_of(last)) by {
            assert(last.subrange(last.len() - 4, last.len() as int) =~= ".drv"@);
        }
        assert(last.take(last.len() - 4) =~= stem);
    }
}

} // verus!
