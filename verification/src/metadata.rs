//! Typed access to Crossbow's shared target and profile metadata.

use vstd::prelude::*;

use crate::error::{outcome, Error, ErrorView, Result};
use crate::sorted::{ascending, SortedMap};
use crate::text;

verus! {

// ---------------------------------------------------------------------------
// Types
// ---------------------------------------------------------------------------

/// Nix target descriptor used by Crossbow public metadata APIs.
#[derive(Debug, Clone, PartialEq, Eq)]
pub struct TargetDescriptor {
    /// Nix system string for the target.
    pub system: String,
    /// GNU-style target config string.
    pub config: String,
}

/// Model of a [`TargetDescriptor`].
#[verifier::ext_equal]
pub struct TargetView {
    pub system: Seq<char>,
    pub config: Seq<char>,
}

impl View for TargetDescriptor {
    type V = TargetView;

    open spec fn view(&self) -> TargetView {
        TargetView {
            system: self.system@,
            config: self.config@,
        }
    }
}

impl DeepView for TargetDescriptor {
    type V = TargetView;

    open spec fn deep_view(&self) -> TargetView {
        self@
    }
}

/// Compiler target mappings keyed by Nix system string.
#[derive(Debug, Clone, PartialEq, Eq)]
pub struct PlatformMappings {
    /// Zig target triples keyed by Nix system string.
    pub zig_targets: SortedMap<String>,
    /// GNU config triples keyed by Nix system string.
    pub gnu_configs: SortedMap<String>,
}

/// Model of a [`PlatformMappings`].
#[verifier::ext_equal]
pub struct MappingsView {
    pub zig_targets: Map<Seq<char>, Seq<char>>,
    pub gnu_configs: Map<Seq<char>, Seq<char>>,
}

impl View for PlatformMappings {
    type V = MappingsView;

    open spec fn view(&self) -> MappingsView {
        MappingsView {
            zig_targets: self.zig_targets.deep_view(),
            gnu_configs: self.gnu_configs.deep_view(),
        }
    }
}

impl DeepView for PlatformMappings {
    type V = MappingsView;

    open spec fn deep_view(&self) -> MappingsView {
        self@
    }
}

/// Public descriptor for a Crossbow cache mode.
#[derive(Debug, Clone, PartialEq, Eq)]
pub struct CacheMode {
    /// Stable cache mode name.
    pub name: String,
    /// What the mode proves operationally.
    pub proves: String,
    /// Expected binary-cache reuse behavior.
    pub cache_expectation: String,
}

/// Model of a [`CacheMode`].
#[verifier::ext_equal]
pub struct CacheModeView {
    pub name: Seq<char>,
    pub proves: Seq<char>,
    pub cache_expectation: Seq<char>,
}

impl View for CacheMode {
    type V = CacheModeView;

    open spec fn view(&self) -> CacheModeView {
        CacheModeView {
            name: self.name@,
            proves: self.proves@,
            cache_expectation: self.cache_expectation@,
        }
    }
}

impl DeepView for CacheMode {
    type V = CacheModeView;

    open spec fn deep_view(&self) -> CacheModeView {
        self@
    }
}

/// GCC/Clang architecture and tune settings.
#[derive(Debug, PartialEq, Eq)]
pub struct GccMetadata {
    /// `-march` value represented as nixpkgs platform metadata.
    pub arch: Option<String>,
    /// `-mtune` value represented as nixpkgs platform metadata.
    pub tune: Option<String>,
}

/// Model of a [`GccMetadata`].
#[verifier::ext_equal]
pub struct GccView {
    pub arch: Option<Seq<char>>,
    pub tune: Option<Seq<char>>,
}

impl View for GccMetadata {
    type V = GccView;

    open spec fn view(&self) -> GccView {
        GccView {
            arch: self.arch.deep_view(),
            tune: self.tune.deep_view(),
        }
    }
}

impl DeepView for GccMetadata {
    type V = GccView;

    open spec fn deep_view(&self) -> GccView {
        self@
    }
}

impl Clone for GccMetadata {
    fn clone(&self) -> (result: Self)
        ensures
            result@ == self@,
    {
        GccMetadata { arch: self.arch.clone(), tune: self.tune.clone() }
    }
}

/// Partial Nix platform metadata carried by hardware profiles.
#[derive(Debug, PartialEq, Eq)]
pub struct PlatformMetadata {
    /// GCC/Clang architecture and tuning metadata.
    pub gcc: Option<GccMetadata>,
}

/// Model of a [`PlatformMetadata`].
#[verifier::ext_equal]
pub struct PlatformView {
    pub gcc: Option<GccView>,
}

impl View for PlatformMetadata {
    type V = PlatformView;

    open spec fn view(&self) -> PlatformView {
        PlatformView {
            gcc: self.gcc.deep_view(),
        }
    }
}

impl DeepView for PlatformMetadata {
    type V = PlatformView;

    open spec fn deep_view(&self) -> PlatformView {
        self@
    }
}

impl Clone for PlatformMetadata {
    fn clone(&self) -> (result: Self)
        ensures
            result@ == self@,
    {
        let gcc = match &self.gcc {
            Some(gcc) => Some(gcc.clone()),
            None => None,
        };
        PlatformMetadata { gcc }
    }
}

/// Hardware-specific compiler tuning profile.
#[derive(Debug, PartialEq, Eq)]
pub struct HardwareProfile {
    /// Stable profile name.
    pub name: String,
    /// Nix system the profile applies to, when constrained.
    pub system: Option<String>,
    /// Hardware vendor name, when known.
    pub vendor: Option<String>,
    /// System-on-chip identifier, when known.
    pub soc: Option<String>,
    /// Human-readable profile description.
    pub description: Option<String>,
    /// Platform metadata merged into the host platform.
    pub platform: Option<PlatformMetadata>,
}

/// Model of a [`HardwareProfile`].
#[verifier::ext_equal]
pub struct HardwareView {
    pub name: Seq<char>,
    pub system: Option<Seq<char>>,
    pub vendor: Option<Seq<char>>,
    pub soc: Option<Seq<char>>,
    pub description: Option<Seq<char>>,
    pub platform: Option<PlatformView>,
}

impl View for HardwareProfile {
    type V = HardwareView;

    open spec fn view(&self) -> HardwareView {
        HardwareView {
            name: self.name@,
            system: self.system.deep_view(),
            vendor: self.vendor.deep_view(),
            soc: self.soc.deep_view(),
            description: self.description.deep_view(),
            platform: self.platform.deep_view(),
        }
    }
}

impl DeepView for HardwareProfile {
    type V = HardwareView;

    open spec fn deep_view(&self) -> HardwareView {
        self@
    }
}

impl Clone for HardwareProfile {
    fn clone(&self) -> (result: Self)
        ensures
            result@ == self@,
    {
        let platform = match &self.platform {
            Some(platform) => Some(platform.clone()),
            None => None,
        };
        HardwareProfile {
            name: self.name.clone(),
            system: self.system.clone(),
            vendor: self.vendor.clone(),
            soc: self.soc.clone(),
            description: self.description.clone(),
            platform,
        }
    }
}

/// Build optimization profile shared between Nix and Rust validation.
#[derive(Debug, Clone, PartialEq, Eq)]
pub struct BuildOptimizationProfile {
    /// Stable profile name.
    pub name: String,
    /// Whether applying the profile changes derivation hashes.
    pub changes_hashes: bool,
    /// C compiler flags.
    pub c_flags: Vec<String>,
    /// Linker flags.
    pub link_flags: Vec<String>,
    /// Rust compiler flags.
    pub rust_flags: Vec<String>,
    /// Go compiler flags.
    pub go_flags: Vec<String>,
    /// Go linker flags.
    pub go_ldflags: Vec<String>,
    /// Go environment overrides.
    pub go_env: SortedMap<String>,
    /// Human-readable profile description.
    pub description: String,
}

/// Model of a [`BuildOptimizationProfile`].
#[verifier::ext_equal]
pub struct BuildProfileView {
    pub name: Seq<char>,
    pub changes_hashes: bool,
    pub c_flags: Seq<Seq<char>>,
    pub link_flags: Seq<Seq<char>>,
    pub rust_flags: Seq<Seq<char>>,
    pub go_flags: Seq<Seq<char>>,
    pub go_ldflags: Seq<Seq<char>>,
    pub go_env: Map<Seq<char>, Seq<char>>,
    pub description: Seq<char>,
}

impl View for BuildOptimizationProfile {
    type V = BuildProfileView;

    open spec fn view(&self) -> BuildProfileView {
        BuildProfileView {
            name: self.name@,
            changes_hashes: self.changes_hashes,
            c_flags: self.c_flags.deep_view(),
            link_flags: self.link_flags.deep_view(),
            rust_flags: self.rust_flags.deep_view(),
            go_flags: self.go_flags.deep_view(),
            go_ldflags: self.go_ldflags.deep_view(),
            go_env: self.go_env.deep_view(),
            description: self.description@,
        }
    }
}

impl DeepView for BuildOptimizationProfile {
    type V = BuildProfileView;

    open spec fn deep_view(&self) -> BuildProfileView {
        self@
    }
}

/// Complete Crossbow metadata.
#[derive(Debug, Clone, PartialEq, Eq)]
pub struct Metadata {
    /// Canonical host target descriptors keyed by Crossbow target name.
    pub targets: SortedMap<TargetDescriptor>,
    /// Nix-system to compiler-target mappings.
    pub platform_mappings: PlatformMappings,
    /// Named cache strategy descriptors.
    pub cache_modes: SortedMap<CacheMode>,
    /// Named hardware optimization profiles.
    pub hardware_profiles: SortedMap<HardwareProfile>,
    /// Named build optimization profiles.
    pub build_optimization_profiles: SortedMap<BuildOptimizationProfile>,
}

/// Model of a [`Metadata`].
#[verifier::ext_equal]
pub struct MetadataView {
    pub targets: Map<Seq<char>, TargetView>,
    pub platform_mappings: MappingsView,
    pub cache_modes: Map<Seq<char>, CacheModeView>,
    pub hardware_profiles: Map<Seq<char>, HardwareView>,
    pub build_optimization_profiles: Map<Seq<char>, BuildProfileView>,
}

impl View for Metadata {
    type V = MetadataView;

    open spec fn view(&self) -> MetadataView {
        MetadataView {
            targets: self.targets.deep_view(),
            platform_mappings: self.platform_mappings@,
            cache_modes: self.cache_modes.deep_view(),
            hardware_profiles: self.hardware_profiles.deep_view(),
            build_optimization_profiles: self.build_optimization_profiles.deep_view(),
        }
    }
}

impl DeepView for Metadata {
    type V = MetadataView;

    open spec fn deep_view(&self) -> MetadataView {
        self@
    }
}

/// Host platform after applying optional hardware optimization metadata.
#[derive(Debug, Clone, PartialEq, Eq)]
pub struct OptimizedHostPlatform {
    /// Nix system string for the optimized host platform.
    pub system: String,
    /// GNU-style target config string preserved from the host target.
    pub config: String,
    /// Optional GCC/Clang platform tuning metadata.
    pub gcc: Option<GccMetadata>,
}

/// Model of an [`OptimizedHostPlatform`].
#[verifier::ext_equal]
pub struct HostPlatformView {
    pub system: Seq<char>,
    pub config: Seq<char>,
    pub gcc: Option<GccView>,
}

impl View for OptimizedHostPlatform {
    type V = HostPlatformView;

    open spec fn view(&self) -> HostPlatformView {
        HostPlatformView {
            system: self.system@,
            config: self.config@,
            gcc: self.gcc.deep_view(),
        }
    }
}

impl DeepView for OptimizedHostPlatform {
    type V = HostPlatformView;

    open spec fn deep_view(&self) -> HostPlatformView {
        self@
    }
}

/// Hardware optimization input accepted by the lookups.
#[derive(Debug, Clone, PartialEq, Eq)]
pub enum HardwareOptimization<'a> {
    /// Lookup a named profile from [`Metadata::hardware_profiles`].
    Named(&'a str),
    /// Use a caller-provided custom profile.
    Custom(HardwareProfile),
}

/// Model of a [`HardwareOptimization`].
#[verifier::ext_equal]
pub enum OptimizationView {
    Named(Seq<char>),
    Custom(HardwareView),
}

impl<'a> View for HardwareOptimization<'a> {
    type V = OptimizationView;

    open spec fn view(&self) -> OptimizationView {
        match self {
            HardwareOptimization::Named(name) => OptimizationView::Named(name@),
            HardwareOptimization::Custom(profile) => OptimizationView::Custom(profile@),
        }
    }
}

impl<'a> DeepView for HardwareOptimization<'a> {
    type V = OptimizationView;

    open spec fn deep_view(&self) -> OptimizationView {
        self@
    }
}

// ---------------------------------------------------------------------------
// Lookups
// ---------------------------------------------------------------------------

/// The names that a table knows, as they are listed in an error.
pub open spec fn known_names<T>(table: Map<Seq<char>, T>) -> Seq<char> {
    text::joined(ascending(table.dom()), ", "@)
}

fn list_names<T: DeepView>(table: &SortedMap<T>) -> (result: String)
    ensures
        result@ == known_names(table.deep_view()),
{
    assert(table.deep_view().dom() =~= table@.dom());
    text::join(table.keys().as_slice(), ", ")
}

/// The descriptor of a target.
pub open spec fn target_of(metadata: MetadataView, system: Seq<char>) -> std::result::Result<
    TargetView,
    ErrorView,
> {
    if metadata.targets.contains_key(system) {
        Ok(metadata.targets[system])
    } else {
        Err(ErrorView::UnsupportedHostPlatform { system })
    }
}

/// Looks up a target descriptor by Crossbow target name.
///
/// # Errors
///
/// Returns [`Error::UnsupportedHostPlatform`] when `system` is not present in
/// [`Metadata::targets`].
pub fn target_for<'a>(metadata: &'a Metadata, system: &str) -> (result: Result<
    &'a TargetDescriptor,
>)
    ensures
        outcome(result) == target_of(metadata@, system@),
{
    match metadata.targets.get(system) {
        Some(target) => Ok(target),
        None => Err(Error::UnsupportedHostPlatform { system: system.to_owned() }),
    }
}

/// The mapping of a system in a table.
pub open spec fn mapping_of(
    name: Seq<char>,
    table: Map<Seq<char>, Seq<char>>,
    system: Seq<char>,
) -> std::result::Result<Seq<char>, ErrorView> {
    if table.contains_key(system) {
        Ok(table[system])
    } else {
        Err(ErrorView::MissingPlatformMapping { name, system })
    }
}

fn lookup_platform_mapping(name: &str, table: &SortedMap<String>, system: &str) -> (result: Result<
    String,
>)
    ensures
        outcome(result) == mapping_of(name@, table.deep_view(), system@),
{
    match table.get(system) {
        Some(mapping) => Ok(mapping.clone()),
        None => Err(
            Error::MissingPlatformMapping { name: name.to_owned(), system: system.to_owned() },
        ),
    }
}

/// Looks up the Zig target triple for a Nix system string.
///
/// # Errors
///
/// Returns [`Error::MissingPlatformMapping`] if no Zig mapping exists.
pub fn nix_system_to_zig_target(metadata: &Metadata, system: &str) -> (result: Result<String>)
    ensures
        outcome(result) == mapping_of(
            "Zig target"@,
            metadata@.platform_mappings.zig_targets,
            system@,
        ),
{
    lookup_platform_mapping("Zig target", &metadata.platform_mappings.zig_targets, system)
}

/// Looks up the GNU config triple for a Nix system string.
///
/// # Errors
///
/// Returns [`Error::MissingPlatformMapping`] if no GNU config mapping exists.
pub fn nix_system_to_gnu_config(metadata: &Metadata, system: &str) -> (result: Result<String>)
    ensures
        outcome(result) == mapping_of(
            "GNU config"@,
            metadata@.platform_mappings.gnu_configs,
            system@,
        ),
{
    lookup_platform_mapping("GNU config", &metadata.platform_mappings.gnu_configs, system)
}

/// The descriptor of a cache mode.
pub open spec fn cache_mode_of(metadata: MetadataView, mode: Seq<char>) -> std::result::Result<
    CacheModeView,
    ErrorView,
> {
    if metadata.cache_modes.contains_key(mode) {
        Ok(metadata.cache_modes[mode])
    } else {
        Err(
            ErrorView::UnsupportedCacheMode { mode, expected: known_names(metadata.cache_modes) },
        )
    }
}

/// Looks up a named cache mode.
///
/// # Errors
///
/// Returns [`Error::UnsupportedCacheMode`] if `mode` is unknown.
pub fn cache_mode_for<'a>(metadata: &'a Metadata, mode: &str) -> (result: Result<&'a CacheMode>)
    ensures
        outcome(result) == cache_mode_of(metadata@, mode@),
{
    match metadata.cache_modes.get(mode) {
        Some(descriptor) => Ok(descriptor),
        None => Err(
            Error::UnsupportedCacheMode {
                mode: mode.to_owned(),
                expected: list_names(&metadata.cache_modes),
            },
        ),
    }
}

/// The profile that a hardware optimization asks for.
pub open spec fn profile_of(
    metadata: MetadataView,
    hardware_optimization: Option<OptimizationView>,
) -> std::result::Result<Option<HardwareView>, ErrorView> {
    match hardware_optimization {
        None => Ok(None),
        Some(OptimizationView::Custom(profile)) => Ok(Some(profile)),
        Some(OptimizationView::Named(name)) => if metadata.hardware_profiles.contains_key(name) {
            Ok(Some(metadata.hardware_profiles[name]))
        } else {
            Err(
                ErrorView::UnsupportedHardwareProfile {
                    profile: name,
                    expected: known_names(metadata.hardware_profiles),
                },
            )
        },
    }
}

/// Resolves optional hardware optimization input to a profile.
///
/// # Errors
///
/// Returns [`Error::UnsupportedHardwareProfile`] when a named profile is not
/// present in [`Metadata::hardware_profiles`].
pub fn hardware_profile_for<'a>(
    metadata: &'a Metadata,
    hardware_optimization: Option<HardwareOptimization<'a>>,
) -> (result: Result<Option<HardwareProfile>>)
    ensures
        outcome(result) == profile_of(metadata@, hardware_optimization.deep_view()),
{
    match hardware_optimization {
        None => Ok(None),
        Some(HardwareOptimization::Custom(profile)) => Ok(Some(profile)),
        Some(HardwareOptimization::Named(name)) => match metadata.hardware_profiles.get(name) {
            Some(profile) => Ok(Some(profile.clone())),
            None => Err(
                Error::UnsupportedHardwareProfile {
                    profile: name.to_owned(),
                    expected: list_names(&metadata.hardware_profiles),
                },
            ),
        },
    }
}

/// The name of the profile that a hardware optimization asks for.
pub open spec fn profile_name_of(
    metadata: MetadataView,
    hardware_optimization: Option<OptimizationView>,
) -> std::result::Result<Option<Seq<char>>, ErrorView> {
    match profile_of(metadata, hardware_optimization) {
        Err(error) => Err(error),
        Ok(None) => Ok(None),
        Ok(Some(profile)) => Ok(Some(profile.name)),
    }
}

/// Returns the display name for optional hardware optimization input.
///
/// # Errors
///
/// Returns [`Error::UnsupportedHardwareProfile`] when a named profile is not
/// present in [`Metadata::hardware_profiles`].
pub fn hardware_optimization_name(
    metadata: &Metadata,
    hardware_optimization: Option<HardwareOptimization<'_>>,
) -> (result: Result<Option<String>>)
    ensures
        outcome(result) == profile_name_of(metadata@, hardware_optimization.deep_view()),
{
    match hardware_profile_for(metadata, hardware_optimization) {
        Err(error) => Err(error),
        Ok(None) => Ok(None),
        Ok(Some(profile)) => Ok(Some(profile.name)),
    }
}

/// The tuning that a profile asks for.
pub open spec fn tuning_of(profile: HardwareView) -> Option<GccView> {
    match profile.platform {
        Some(platform) => platform.gcc,
        None => None,
    }
}

/// The host platform with a hardware optimization applied.
pub open spec fn host_platform_of(
    metadata: MetadataView,
    host: Seq<char>,
    hardware_optimization: Option<OptimizationView>,
) -> std::result::Result<HostPlatformView, ErrorView> {
    match target_of(metadata, host) {
        Err(error) => Err(error),
        Ok(target) => match profile_of(metadata, hardware_optimization) {
            Err(error) => Err(error),
            Ok(None) => Ok(HostPlatformView { system: host, config: target.config, gcc: None }),
            Ok(Some(profile)) => match profile.system {
                Some(system) if system != host => Err(
                    ErrorView::HardwareProfileHostMismatch {
                        profile: profile.name,
                        profile_system: system,
                        host,
                    },
                ),
                _ => Ok(
                    HostPlatformView {
                        system: host,
                        config: target.config,
                        gcc: tuning_of(profile),
                    },
                ),
            },
        },
    }
}

/// Merges a hardware profile into a host platform descriptor.
///
/// # Errors
///
/// Returns [`Error::UnsupportedHostPlatform`] when `host` is unknown,
/// [`Error::UnsupportedHardwareProfile`] when a named profile is unknown, or
/// [`Error::HardwareProfileHostMismatch`] when the profile targets another
/// system.
pub fn optimized_host_platform(
    metadata: &Metadata,
    host: &str,
    hardware_optimization: Option<HardwareOptimization<'_>>,
) -> (result: Result<OptimizedHostPlatform>)
    ensures
        outcome(result) == host_platform_of(metadata@, host@, hardware_optimization.deep_view()),
{
    let target = match target_for(metadata, host) {
        Ok(target) => target,
        Err(error) => {
            return Err(error);
        },
    };
    let profile = match hardware_profile_for(metadata, hardware_optimization) {
        Err(error) => {
            return Err(error);
        },
        Ok(None) => {
            return Ok(
                OptimizedHostPlatform {
                    system: host.to_owned(),
                    config: target.config.clone(),
                    gcc: None,
                },
            );
        },
        Ok(Some(profile)) => profile,
    };
    if let Some(system) = &profile.system {
        if !text::same(system.as_str(), host) {
            return Err(
                Error::HardwareProfileHostMismatch {
                    profile: profile.name.clone(),
                    profile_system: system.clone(),
                    host: host.to_owned(),
                },
            );
        }
    }
    let gcc = match profile.platform {
        Some(platform) => platform.gcc,
        None => None,
    };
    Ok(OptimizedHostPlatform { system: host.to_owned(), config: target.config.clone(), gcc })
}

/// A build optimization profile by name; `cache-first` when none is named.
pub open spec fn build_profile_of(
    metadata: MetadataView,
    profile: Option<Seq<char>>,
) -> std::result::Result<BuildProfileView, ErrorView> {
    let name = match profile {
        Some(name) => name,
        None => "cache-first"@,
    };
    if metadata.build_optimization_profiles.contains_key(name) {
        Ok(metadata.build_optimization_profiles[name])
    } else {
        Err(
            ErrorView::UnsupportedBuildOptimizationProfile {
                profile: name,
                expected: known_names(metadata.build_optimization_profiles),
            },
        )
    }
}

/// Looks up a build optimization profile, defaulting to `cache-first`.
///
/// # Errors
///
/// Returns [`Error::UnsupportedBuildOptimizationProfile`] when `profile` names
/// an unknown profile.
pub fn build_optimization_profile_for<'a>(
    metadata: &'a Metadata,
    profile: Option<&str>,
) -> (result: Result<&'a BuildOptimizationProfile>)
    ensures
        outcome(result) == build_profile_of(metadata@, profile.deep_view()),
{
    let name = match profile {
        Some(name) => name,
        None => "cache-first",
    };
    match metadata.build_optimization_profiles.get(name) {
        Some(found) => Ok(found),
        None => Err(
            Error::UnsupportedBuildOptimizationProfile {
                profile: name.to_owned(),
                expected: list_names(&metadata.build_optimization_profiles),
            },
        ),
    }
}

// ---------------------------------------------------------------------------
// System strings
// ---------------------------------------------------------------------------

/// The system runs Linux.
pub open spec fn names_linux(system: Seq<char>) -> bool {
    text::after_last(system, '-') == "linux"@
}

/// The system runs Darwin.
pub open spec fn names_darwin(system: Seq<char>) -> bool {
    text::after_last(system, '-') == "darwin"@
}

/// The system runs Windows.
pub open spec fn names_windows(system: Seq<char>) -> bool {
    text::after_last(system, '-') == "windows"@
}

/// The system is WebAssembly.
pub open spec fn names_wasm(system: Seq<char>) -> bool {
    "wasm"@.is_prefix_of(system)
}

/// Why a pair of systems has no toolchain.
pub open spec fn toolchain_message(
    build: Seq<char>,
    host: Seq<char>,
    darwin_sdk: Option<Seq<char>>,
) -> Seq<char> {
    if names_wasm(host) {
        "crossbow: wasm toolchain is declared but not implemented in phase 1"@
    } else if names_windows(host) {
        "crossbow: windows toolchain is declared but not implemented in phase 1"@
    } else if names_linux(build) && names_darwin(host) && darwin_sdk is None {
        "crossbow: linux-to-darwin cross-compilation requires darwinSdk.\nSet darwinSdk = /path/to/MacOSX.sdk and configure osxcross.\n"@
    } else if names_darwin(host) {
        "crossbow: darwin toolchain is declared but not implemented in phase 1"@
    } else {
        "crossbow: unsupported toolchain pair `"@ + build + "` -> `"@ + host + "`"@
    }
}

/// Returns the public unsupported-toolchain message for a build/host pair.
#[must_use]
pub fn unsupported_toolchain_message(build: &str, host: &str, darwin_sdk: Option<&str>) -> (result:
    String)
    ensures
        result@ == toolchain_message(build@, host@, darwin_sdk.deep_view()),
{
    if is_wasm(host) {
        "crossbow: wasm toolchain is declared but not implemented in phase 1".to_owned()
    } else if is_windows(host) {
        "crossbow: windows toolchain is declared but not implemented in phase 1".to_owned()
    } else if is_linux(build) && is_darwin(host) && darwin_sdk.is_none() {
        "crossbow: linux-to-darwin cross-compilation requires darwinSdk.\nSet darwinSdk = /path/to/MacOSX.sdk and configure osxcross.\n".to_owned()
    } else if is_darwin(host) {
        "crossbow: darwin toolchain is declared but not implemented in phase 1".to_owned()
    } else {
        "crossbow: unsupported toolchain pair `".to_owned().concat(build).concat("` -> `").concat(
            host,
        ).concat("`")
    }
}

/// Returns the operating-system suffix from a Nix system string.
///
/// A string without a hyphen is its own suffix, so there always is one.
#[must_use]
pub fn os_of(system: &str) -> (result: Option<String>)
    ensures
        result.deep_view() == Some(text::after_last(system@, '-')),
{
    Some(text::rest_after_last(system, '-'))
}

fn runs(system: &str, os: &str) -> (result: bool)
    ensures
        result == (text::after_last(system@, '-') == os@),
{
    match os_of(system) {
        Some(suffix) => text::same(suffix.as_str(), os),
        None => false,
    }
}

/// Returns true when `system` is a Linux Nix system.
#[must_use]
pub fn is_linux(system: &str) -> (result: bool)
    ensures
        result == names_linux(system@),
{
    runs(system, "linux")
}

/// Returns true when `system` is a Darwin Nix system.
#[must_use]
pub fn is_darwin(system: &str) -> (result: bool)
    ensures
        result == names_darwin(system@),
{
    runs(system, "darwin")
}

/// Returns true when `system` is a Windows Nix system.
#[must_use]
pub fn is_windows(system: &str) -> (result: bool)
    ensures
        result == names_windows(system@),
{
    runs(system, "windows")
}

/// Returns true when `system` is a WebAssembly Nix system.
#[must_use]
pub fn is_wasm(system: &str) -> (result: bool)
    ensures
        result == names_wasm(system@),
{
    text::starts_with(system, "wasm")
}

// ---------------------------------------------------------------------------
// Laws
// ---------------------------------------------------------------------------

/// An optimized host platform keeps the system and the config of the host: a
/// hardware profile only adds tuning, and one for another system is refused.
pub proof fn law_optimization_keeps_the_platform(
    metadata: MetadataView,
    host: Seq<char>,
    hardware_optimization: Option<OptimizationView>,
)
    ensures
        match host_platform_of(metadata, host, hardware_optimization) {
            Ok(platform) => {
                &&& platform.system == host
                &&& platform.config == metadata.targets[host].config
                &&& match profile_of(metadata, hardware_optimization) {
                    Ok(None) => platform.gcc is None,
                    Ok(Some(profile)) => platform.gcc == tuning_of(profile) && (
                    profile.system is None || profile.system == Some(host)),
                    Err(_) => false,
                }
            },
            Err(_) => true,
        },
{
}

/// A system runs at most one operating system.
pub proof fn law_one_operating_system(system: Seq<char>)
    ensures
        !(names_linux(system) && names_darwin(system)),
        !(names_linux(system) && names_windows(system)),
        !(names_darwin(system) && names_windows(system)),
{
    reveal_strlit("linux");
    reveal_strlit("darwin");
    reveal_strlit("windows");
    assert("linux"@.len() == 5);
    assert("darwin"@.len() == 6);
    assert("windows"@.len() == 7);
}

/// What is declared under a name is found under it, and only that is found: a
/// system, a mapping of it, a cache mode, a build profile. What is not declared
/// is an error that names it.
pub proof fn law_declared_names_are_found(
    metadata: MetadataView,
    name: Seq<char>,
    table: Map<Seq<char>, Seq<char>>,
    kind: Seq<char>,
)
    ensures
        metadata.targets.contains_key(name) ==> target_of(metadata, name) == Ok::<
            TargetView,
            ErrorView,
        >(metadata.targets[name]),
        !metadata.targets.contains_key(name) ==> target_of(metadata, name) == Err::<
            TargetView,
            ErrorView,
        >(ErrorView::UnsupportedHostPlatform { system: name }),
        table.contains_key(name) ==> mapping_of(kind, table, name) == Ok::<Seq<char>, ErrorView>(
            table[name],
        ),
        !table.contains_key(name) ==> mapping_of(kind, table, name) == Err::<Seq<char>, ErrorView>(
            ErrorView::MissingPlatformMapping { name: kind, system: name },
        ),
        metadata.cache_modes.contains_key(name) ==> cache_mode_of(metadata, name) == Ok::<
            CacheModeView,
            ErrorView,
        >(metadata.cache_modes[name]),
        !metadata.cache_modes.contains_key(name) ==> cache_mode_of(metadata, name) == Err::<
            CacheModeView,
            ErrorView,
        >(
            ErrorView::UnsupportedCacheMode {
                mode: name,
                expected: text::joined(ascending(metadata.cache_modes.dom()), ", "@),
            },
        ),
        metadata.build_optimization_profiles.contains_key(name) ==> build_profile_of(
            metadata,
            Some(name),
        ) == Ok::<BuildProfileView, ErrorView>(metadata.build_optimization_profiles[name]),
        !metadata.build_optimization_profiles.contains_key(name) ==> build_profile_of(
            metadata,
            Some(name),
        ) == Err::<BuildProfileView, ErrorView>(
            ErrorView::UnsupportedBuildOptimizationProfile {
                profile: name,
                expected: text::joined(
                    ascending(metadata.build_optimization_profiles.dom()),
                    ", "@,
                ),
            },
        ),
        build_profile_of(metadata, None) == build_profile_of(metadata, Some("cache-first"@)),
{
}

/// A hardware profile is the one that is given, or the declared one of the given
/// name; without either there is none.
pub proof fn law_hardware_profiles_are_found(metadata: MetadataView, profile: OptimizationView)
    ensures
        profile_of(metadata, None) == Ok::<Option<HardwareView>, ErrorView>(None),
        profile_name_of(metadata, None) == Ok::<Option<Seq<char>>, ErrorView>(None),
        profile matches OptimizationView::Custom(custom) ==> profile_of(metadata, Some(profile))
            == Ok::<Option<HardwareView>, ErrorView>(Some(custom)) && profile_name_of(
            metadata,
            Some(profile),
        ) == Ok::<Option<Seq<char>>, ErrorView>(Some(custom.name)),
        profile matches OptimizationView::Named(name) ==> if metadata.hardware_profiles.contains_key(
            name,
        ) {
            profile_of(metadata, Some(profile)) == Ok::<Option<HardwareView>, ErrorView>(
                Some(metadata.hardware_profiles[name]),
            ) && profile_name_of(metadata, Some(profile)) == Ok::<Option<Seq<char>>, ErrorView>(
                Some(metadata.hardware_profiles[name].name),
            )
        } else {
            let missing = ErrorView::UnsupportedHardwareProfile {
                profile: name,
                expected: text::joined(ascending(metadata.hardware_profiles.dom()), ", "@),
            };
            profile_of(metadata, Some(profile)) == Err::<Option<HardwareView>, ErrorView>(missing)
                && profile_name_of(metadata, Some(profile)) == Err::<Option<Seq<char>>, ErrorView>(
                missing,
            )
        },
{
}

/// A host platform is given for every declared host: without a profile it is not
/// tuned, with one for any system or for this one it is tuned as the profile
/// says, and one for another system is refused.
pub proof fn law_declared_hosts_have_a_platform(
    metadata: MetadataView,
    host: Seq<char>,
    hardware_optimization: Option<OptimizationView>,
    profile: HardwareView,
)
    requires
        metadata.targets.contains_key(host),
    ensures
        ({
            let config = metadata.targets[host].config;
            let result = host_platform_of(metadata, host, hardware_optimization);
            &&& hardware_optimization is None ==> result == Ok::<HostPlatformView, ErrorView>(
                HostPlatformView { system: host, config, gcc: None },
            )
            &&& profile_of(metadata, hardware_optimization) == Ok::<
                Option<HardwareView>,
                ErrorView,
            >(Some(profile)) ==> match profile.system {
                Some(system) if system != host => result == Err::<HostPlatformView, ErrorView>(
                    ErrorView::HardwareProfileHostMismatch {
                        profile: profile.name,
                        profile_system: system,
                        host,
                    },
                ),
                _ => result matches Ok(platform) && platform.system == host && platform.config
                    == config && (profile.platform is None ==> platform.gcc is None) && (
                profile.platform matches Some(tuned) ==> platform.gcc == tuned.gcc),
            }
            &&& profile_of(metadata, hardware_optimization) matches Err(error) ==> result == Err::<
                HostPlatformView,
                ErrorView,
            >(error)
        }),
{
}

/// A host that is not declared has no platform, whatever the profile.
pub proof fn law_undeclared_hosts_have_no_platform(
    metadata: MetadataView,
    host: Seq<char>,
    hardware_optimization: Option<OptimizationView>,
)
    requires
        !metadata.targets.contains_key(host),
    ensures
        host_platform_of(metadata, host, hardware_optimization) == Err::<
            HostPlatformView,
            ErrorView,
        >(ErrorView::UnsupportedHostPlatform { system: host }),
{
}

/// The operating system of a system is what follows its last hyphen.
pub proof fn law_the_operating_system_comes_last(arch: Seq<char>, os: Seq<char>)
    requires
        !os.contains('-'),
    ensures
        text::after_last(arch.push('-') + os, '-') == os,
        names_linux(arch.push('-') + os) <==> os == "linux"@,
        names_darwin(arch.push('-') + os) <==> os == "darwin"@,
        names_windows(arch.push('-') + os) <==> os == "windows"@,
        names_wasm("wasm"@ + arch),
        names_wasm(arch) ==> arch.len() >= 4 && arch.take(4) == "wasm"@,
{
    text::law_splits_leave_out_the_character(arch, '-', os);
    reveal_strlit("wasm");
    assert("wasm"@.len() == 4);
    assert("wasm"@.is_prefix_of("wasm"@ + arch));
}

/// What is said of a toolchain that is not there: that it is not implemented yet
/// for a host on WebAssembly, Windows or Darwin, that Darwin needs its SDK from
/// Linux, and otherwise that the pair is not supported.
pub proof fn law_unsupported_toolchains_say_why(
    build: Seq<char>,
    host: Seq<char>,
    darwin_sdk: Option<Seq<char>>,
)
    ensures
        names_wasm(host) ==> toolchain_message(build, host, darwin_sdk)
            == "crossbow: wasm toolchain is declared but not implemented in phase 1"@,
        !names_wasm(host) && names_windows(host) ==> toolchain_message(build, host, darwin_sdk)
            == "crossbow: windows toolchain is declared but not implemented in phase 1"@,
        !names_wasm(host) && names_darwin(host) ==> toolchain_message(build, host, darwin_sdk)
            == if names_linux(build) && darwin_sdk is None {
            "crossbow: linux-to-darwin cross-compilation requires darwinSdk.\nSet darwinSdk = /path/to/MacOSX.sdk and configure osxcross.\n"@
        } else {
            "crossbow: darwin toolchain is declared but not implemented in phase 1"@
        },
        !names_wasm(host) && !names_windows(host) && !names_darwin(host) ==> toolchain_message(
            build,
            host,
            darwin_sdk,
        ) == "crossbow: unsupported toolchain pair `"@ + build + "` -> `"@ + host + "`"@,
{
    law_one_operating_system(host);
}

} // verus!
