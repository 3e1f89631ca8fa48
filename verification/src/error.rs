//! Errors of the library, their models and their messages.

use vstd::prelude::*;

use crate::text;

verus! {

/// Maximum diagnostic size retained for a failed realization.
pub const MAX_REALIZATION_DIAGNOSTIC_BYTES: usize = 4096;

/// The bounded class of prerequisite or realization failure reported by Nix.
#[derive(Debug, Clone, Copy, PartialEq, Eq, Structural)]
pub enum RealizationFailureKind {
    /// A required output was not available from the configured substituters.
    MissingCacheRoot,
    /// A required output belongs to a platform unavailable on the build host.
    WrongPlatform,
    /// An explicitly selected remote builder failed or could not be reached.
    RemoteBuilder,
    /// Nix rejected or failed the realization without a more specific class.
    NixRealization,
    /// The failure did not match a known Nix diagnostic.
    Unknown,
}

impl RealizationFailureKind {
    /// The stable name of the class.
    pub open spec fn label(self) -> Seq<char> {
        match self {
            RealizationFailureKind::MissingCacheRoot => "missing-cache-root"@,
            RealizationFailureKind::WrongPlatform => "wrong-platform"@,
            RealizationFailureKind::RemoteBuilder => "remote-builder"@,
            RealizationFailureKind::NixRealization => "nix-realization"@,
            RealizationFailureKind::Unknown => "unknown"@,
        }
    }

    /// The stable name of the class.
    pub fn to_string(&self) -> (result: String)
        ensures
            result@ == self.label(),
    {
        match self {
            RealizationFailureKind::MissingCacheRoot => "missing-cache-root".to_owned(),
            RealizationFailureKind::WrongPlatform => "wrong-platform".to_owned(),
            RealizationFailureKind::RemoteBuilder => "remote-builder".to_owned(),
            RealizationFailureKind::NixRealization => "nix-realization".to_owned(),
            RealizationFailureKind::Unknown => "unknown".to_owned(),
        }
    }
}

/// Bounded, redacted context for a failed realization prerequisite.
#[derive(Debug, Clone, PartialEq, Eq)]
pub struct MissingPrerequisite {
    /// Failed requirement or realization root.
    pub root: String,
    /// Affected Nix system, or `unknown` when Nix did not identify one.
    pub system: String,
    /// Non-sensitive cache or builder context.
    pub cache_context: String,
    /// Whether explicit native recovery may satisfy this prerequisite.
    pub recoverable_by_native_recovery: bool,
    /// Bounded, redacted diagnostic preview.
    pub diagnostic: String,
    /// Stable failure classification.
    pub kind: RealizationFailureKind,
}

/// Model of a [`MissingPrerequisite`].
#[verifier::ext_equal]
pub struct PrerequisiteView {
    pub root: Seq<char>,
    pub system: Seq<char>,
    pub cache_context: Seq<char>,
    pub recoverable_by_native_recovery: bool,
    pub diagnostic: Seq<char>,
    pub kind: RealizationFailureKind,
}

impl View for MissingPrerequisite {
    type V = PrerequisiteView;

    open spec fn view(&self) -> PrerequisiteView {
        PrerequisiteView {
            root: self.root@,
            system: self.system@,
            cache_context: self.cache_context@,
            recoverable_by_native_recovery: self.recoverable_by_native_recovery,
            diagnostic: self.diagnostic@,
            kind: self.kind,
        }
    }
}

/// The text of a truth value.
pub open spec fn bool_text(value: bool) -> Seq<char> {
    if value {
        "true"@
    } else {
        "false"@
    }
}

impl PrerequisiteView {
    /// The message that describes the prerequisite.
    pub open spec fn message(self) -> Seq<char> {
        self.kind.label() + " root="@ + self.root + " system="@ + self.system + " context="@
            + self.cache_context + " recoverable_by_native_recovery="@ + bool_text(
            self.recoverable_by_native_recovery,
        ) + ": "@ + self.diagnostic
    }
}

impl MissingPrerequisite {
    /// The message that describes the prerequisite.
    pub fn to_string(&self) -> (result: String)
        ensures
            result@ == self@.message(),
    {
        let recoverable = if self.recoverable_by_native_recovery {
            "true"
        } else {
            "false"
        };
        self.kind.to_string().concat(" root=").concat(self.root.as_str()).concat(
            " system=",
        ).concat(self.system.as_str()).concat(" context=").concat(
            self.cache_context.as_str(),
        ).concat(" recoverable_by_native_recovery=").concat(recoverable).concat(": ").concat(
            self.diagnostic.as_str(),
        )
    }
}

/// The text of an optional process exit code.
pub open spec fn status_text(status: Option<i32>) -> Seq<char> {
    match status {
        Some(code) => "Some("@ + text::signed_decimal(code as int) + ")"@,
        None => "None"@,
    }
}

fn status_to_text(status: Option<i32>) -> (result: String)
    ensures
        result@ == status_text(status),
{
    match status {
        Some(code) => "Some(".to_owned().concat(text::to_signed_decimal(code).as_str()).concat(")"),
        None => "None".to_owned(),
    }
}

/// Errors produced by Crossbow switch planning, metadata lookup, and runtime commands.
///
/// A `source` field holds the message of the failure that caused the error.
#[derive(Debug, PartialEq, Eq)]
#[non_exhaustive]
pub enum Error {
    /// A target system was not present in the shared metadata.
    UnsupportedHostPlatform {
        /// Unsupported Nix system string.
        system: String,
    },
    /// A Nix system did not have the requested compiler target mapping.
    MissingPlatformMapping {
        /// Mapping table name.
        name: String,
        /// Nix system string that was missing.
        system: String,
    },
    /// A cache mode name was not present in the shared metadata.
    UnsupportedCacheMode {
        /// Unsupported cache mode.
        mode: String,
        /// Comma-separated supported cache modes.
        expected: String,
    },
    /// A hardware optimization profile name was not present in the shared metadata.
    UnsupportedHardwareProfile {
        /// Unsupported profile name.
        profile: String,
        /// Comma-separated supported profile names.
        expected: String,
    },
    /// A hardware optimization profile was used with the wrong host system.
    HardwareProfileHostMismatch {
        /// Profile name.
        profile: String,
        /// System the profile supports.
        profile_system: String,
        /// Host system requested by the caller.
        host: String,
    },
    /// A build optimization profile name was not present in the shared metadata.
    UnsupportedBuildOptimizationProfile {
        /// Unsupported profile name.
        profile: String,
        /// Comma-separated supported profile names.
        expected: String,
    },
    /// A native-builder check was planned without a host system.
    NativeBuilderMissingHost {
        /// Check derivation name.
        check_name: String,
    },
    /// A declared executor exists in metadata but has no phase-1 implementation.
    ExecutorNotImplemented {
        /// Executor kind.
        kind: String,
    },
    /// An executor kind string is not recognized by Crossbow.
    UnknownExecutor {
        /// Unknown executor kind.
        kind: String,
    },
    /// A CLI argument was not recognized.
    UnknownArgument {
        /// Unknown argument.
        argument: String,
        /// Usage text shown to the user.
        usage: String,
    },
    /// A CLI option that requires a value was not followed by one.
    MissingArgumentValue {
        /// CLI flag missing its value.
        flag: String,
    },
    /// A required CLI option was absent.
    MissingRequiredArgument {
        /// Required CLI flag.
        flag: String,
    },
    /// A rebuild action is not supported by the switch CLI.
    UnsupportedAction {
        /// Unsupported rebuild action.
        action: String,
    },
    /// An invalid value was passed to `--max-jobs`.
    InvalidMaxJobs {
        /// Invalid value passed to --max-jobs.
        value: String,
    },
    /// A remote-native realization was requested without a builder.
    RemoteNativeRequiresBuilder,
    /// An unknown realization policy name was supplied.
    InvalidRealizationPolicy {
        /// Policy name supplied by the caller.
        value: String,
    },
    /// A machine-readable planner command could not be spawned.
    PlannerCommand {
        /// Command text.
        command: String,
        /// Underlying spawn failure.
        source: String,
    },
    /// A machine-readable planner command failed.
    PlannerCommandFailed {
        /// Command text.
        command: String,
        /// Captured stderr.
        stderr: String,
    },
    /// A planner command emitted invalid UTF-8.
    PlannerUtf8 {
        /// Command text.
        command: String,
        /// Underlying UTF-8 error.
        source: String,
    },
    /// Nix planner JSON was invalid.
    PlannerJson {
        /// JSON parsing failure.
        source: String,
    },
    /// Nix omitted one requested derivation from `nix derivation show`.
    PlannerMissingDerivation {
        /// Missing derivation path.
        drv: String,
    },
    /// Nix omitted one requested output while resolving a derivation output.
    PlannerMissingOutput {
        /// Derivation path.
        drv: String,
        /// Output name.
        output: String,
    },
    /// The exact planner was invoked without any cache to probe.
    PlannerNoSubstituters,
    /// An executable plan uses an unsupported schema version.
    UnsupportedPlanSchema {
        /// Unsupported schema version.
        version: u32,
    },
    /// An executable plan's content no longer matches its stable identifier.
    PlanIdMismatch {
        /// Identifier recorded in the plan.
        expected: String,
        /// Identifier computed from canonical content.
        actual: String,
    },
    /// A caller attempted to execute a plan for another installable identity.
    PlanIdentityMismatch {
        /// Identity field that differed.
        field: &'static str,
        /// Identity sealed into the plan.
        planned: String,
        /// Identity supplied by the executor caller.
        requested: String,
    },
    /// A fail-closed output action prevents execution.
    PlanBlocked {
        /// Output path that cannot be realized safely.
        path: String,
        /// Planner reason for refusing execution.
        reason: String,
    },
    /// A cache probe could not be spawned.
    PlannerCacheProbe {
        /// Substituter store URL.
        substituter: String,
        /// Output path being queried.
        output: String,
        /// Underlying spawn failure.
        source: String,
    },
    /// A cache probe failed without returning a per-path JSON answer.
    PlannerCacheProbeFailed {
        /// Substituter store URL.
        substituter: String,
        /// Output path being queried.
        output: String,
        /// Captured stderr.
        stderr: String,
    },
    /// A cache probe returned malformed or incomplete JSON.
    PlannerCacheProbeJson {
        /// Substituter store URL.
        substituter: String,
        /// Output path being queried.
        output: String,
        /// Why the response could not be used.
        reason: String,
    },
    /// Capture mode was requested without a publication command.
    CaptureRequiresPublishCommand,
    /// Runtime switch orchestration reached publish without a publisher.
    NoPublisherConfigured,
    /// A shell command used for publish/verify could not be spawned.
    CommandSpawn {
        /// Shell command text.
        command: String,
        /// Underlying spawn failure.
        source: String,
    },
    /// A shell command did not expose stdin for store paths.
    CommandStdinUnavailable {
        /// Shell command text.
        command: String,
    },
    /// Writing store paths to a shell command failed.
    CommandWriteStdin {
        /// Shell command text.
        command: String,
        /// Underlying write failure.
        source: String,
    },
    /// Waiting for a shell command failed.
    CommandWait {
        /// Shell command text.
        command: String,
        /// Underlying wait failure.
        source: String,
    },
    /// A shell command exited unsuccessfully.
    CommandFailed {
        /// Shell command text.
        command: String,
        /// Captured stderr.
        stderr: String,
    },
    /// A shell command produced stdout that was not UTF-8.
    CommandUtf8 {
        /// Shell command text.
        command: String,
        /// UTF-8 decoding failure.
        source: String,
    },
    /// Spawning `nix build` failed.
    NixBuildRun {
        /// Nix attribute passed to `nix build`.
        attr: String,
        /// Underlying spawn failure.
        source: String,
    },
    /// The initial Crossbow toplevel realization failed.
    RealizationFailed {
        /// Nix attribute passed to `nix build`.
        attr: String,
        /// Process exit code, or `None` when the process ended without one.
        status: Option<i32>,
        /// Captured stderr.
        stderr: String,
    },
    /// The initial realization failed with a structured prerequisite context.
    RealizationMissingPrerequisite {
        /// Nix attribute passed to `nix build`.
        attr: String,
        /// Process exit code, or `None` when the process ended without one.
        status: Option<i32>,
        /// Bounded context for the failed prerequisite.
        prerequisite: Box<MissingPrerequisite>,
    },
    /// `nix build` printed stdout that was not UTF-8.
    NixBuildUtf8 {
        /// Nix attribute passed to `nix build`.
        attr: String,
        /// UTF-8 decoding failure.
        source: String,
    },
    /// `nix build --print-out-paths` printed no output path.
    NixBuildNoOutput {
        /// Nix attribute passed to `nix build`.
        attr: String,
    },
    /// Spawning `nix-store` failed.
    NixStoreRun {
        /// Arguments passed to `nix-store`.
        args: String,
        /// Underlying spawn failure.
        source: String,
    },
    /// `nix-store` exited unsuccessfully.
    NixStoreFailed {
        /// Arguments passed to `nix-store`.
        args: String,
        /// Captured stderr.
        stderr: String,
    },
    /// `nix-store` printed stdout that was not UTF-8.
    NixStoreUtf8 {
        /// Arguments passed to `nix-store`.
        args: String,
        /// UTF-8 decoding failure.
        source: String,
    },
    /// `nix-store --query --deriver` returned no deriver path.
    NixStoreNoDeriver {
        /// Toplevel store path queried for its deriver.
        toplevel: String,
    },
    /// Reading a Nix store file (e.g. from a `crossbowRequirements` artifact) failed.
    NixStoreRead {
        /// File path that failed to read.
        file: String,
        /// Underlying I/O error.
        source: String,
    },
    /// Spawning `nixos-rebuild` failed.
    NixosRebuildRun {
        /// Rebuild action.
        action: String,
        /// Flake reference passed to `nixos-rebuild`.
        flake_attr: String,
        /// Underlying spawn failure.
        source: String,
    },
    /// `nixos-rebuild` exited unsuccessfully.
    NixosRebuildFailed {
        /// Rebuild action.
        action: String,
        /// Flake reference passed to `nixos-rebuild`.
        flake_attr: String,
        /// Captured stderr.
        stderr: String,
    },
    /// Cache verification reported paths missing after publication.
    MissingCachePaths {
        /// Number of missing paths.
        count: usize,
        /// Preview of missing paths.
        preview: String,
    },
    /// Embedded JSON metadata failed to deserialize.
    MetadataJson {
        /// JSON parsing failure.
        source: String,
    },
}

/// Model of an [`Error`].
#[verifier::ext_equal]
pub enum ErrorView {
    UnsupportedHostPlatform { system: Seq<char> },
    MissingPlatformMapping { name: Seq<char>, system: Seq<char> },
    UnsupportedCacheMode { mode: Seq<char>, expected: Seq<char> },
    UnsupportedHardwareProfile { profile: Seq<char>, expected: Seq<char> },
    HardwareProfileHostMismatch { profile: Seq<char>, profile_system: Seq<char>, host: Seq<char> },
    UnsupportedBuildOptimizationProfile { profile: Seq<char>, expected: Seq<char> },
    NativeBuilderMissingHost { check_name: Seq<char> },
    ExecutorNotImplemented { kind: Seq<char> },
    UnknownExecutor { kind: Seq<char> },
    UnknownArgument { argument: Seq<char>, usage: Seq<char> },
    MissingArgumentValue { flag: Seq<char> },
    MissingRequiredArgument { flag: Seq<char> },
    UnsupportedAction { action: Seq<char> },
    InvalidMaxJobs { value: Seq<char> },
    RemoteNativeRequiresBuilder,
    InvalidRealizationPolicy { value: Seq<char> },
    PlannerCommand { command: Seq<char>, source: Seq<char> },
    PlannerCommandFailed { command: Seq<char>, stderr: Seq<char> },
    PlannerUtf8 { command: Seq<char>, source: Seq<char> },
    PlannerJson { source: Seq<char> },
    PlannerMissingDerivation { drv: Seq<char> },
    PlannerMissingOutput { drv: Seq<char>, output: Seq<char> },
    PlannerNoSubstituters,
    UnsupportedPlanSchema { version: u32 },
    PlanIdMismatch { expected: Seq<char>, actual: Seq<char> },
    PlanIdentityMismatch { field: Seq<char>, planned: Seq<char>, requested: Seq<char> },
    PlanBlocked { path: Seq<char>, reason: Seq<char> },
    PlannerCacheProbe { substituter: Seq<char>, output: Seq<char>, source: Seq<char> },
    PlannerCacheProbeFailed { substituter: Seq<char>, output: Seq<char>, stderr: Seq<char> },
    PlannerCacheProbeJson { substituter: Seq<char>, output: Seq<char>, reason: Seq<char> },
    CaptureRequiresPublishCommand,
    NoPublisherConfigured,
    CommandSpawn { command: Seq<char>, source: Seq<char> },
    CommandStdinUnavailable { command: Seq<char> },
    CommandWriteStdin { command: Seq<char>, source: Seq<char> },
    CommandWait { command: Seq<char>, source: Seq<char> },
    CommandFailed { command: Seq<char>, stderr: Seq<char> },
    CommandUtf8 { command: Seq<char>, source: Seq<char> },
    NixBuildRun { attr: Seq<char>, source: Seq<char> },
    RealizationFailed { attr: Seq<char>, status: Option<i32>, stderr: Seq<char> },
    RealizationMissingPrerequisite {
        attr: Seq<char>,
        status: Option<i32>,
        prerequisite: PrerequisiteView,
    },
    NixBuildUtf8 { attr: Seq<char>, source: Seq<char> },
    NixBuildNoOutput { attr: Seq<char> },
    NixStoreRun { args: Seq<char>, source: Seq<char> },
    NixStoreFailed { args: Seq<char>, stderr: Seq<char> },
    NixStoreUtf8 { args: Seq<char>, source: Seq<char> },
    NixStoreNoDeriver { toplevel: Seq<char> },
    NixStoreRead { file: Seq<char>, source: Seq<char> },
    NixosRebuildRun { action: Seq<char>, flake_attr: Seq<char>, source: Seq<char> },
    NixosRebuildFailed { action: Seq<char>, flake_attr: Seq<char>, stderr: Seq<char> },
    MissingCachePaths { count: usize, preview: Seq<char> },
    MetadataJson { source: Seq<char> },
}

impl View for Error {
    type V = ErrorView;

    open spec fn view(&self) -> ErrorView {
        match self {
            Error::UnsupportedHostPlatform { system } => ErrorView::UnsupportedHostPlatform {
                system: system@,
            },
            Error::MissingPlatformMapping { name, system } => ErrorView::MissingPlatformMapping {
                name: name@,
                system: system@,
            },
            Error::UnsupportedCacheMode { mode, expected } => ErrorView::UnsupportedCacheMode {
                mode: mode@,
                expected: expected@,
            },
            Error::UnsupportedHardwareProfile { profile, expected } => {
                ErrorView::UnsupportedHardwareProfile {
                    profile: profile@,
                    expected: expected@,
                }
            },
            Error::HardwareProfileHostMismatch { profile, profile_system, host } => {
                ErrorView::HardwareProfileHostMismatch {
                    profile: profile@,
                    profile_system: profile_system@,
                    host: host@,
                }
            },
            Error::UnsupportedBuildOptimizationProfile { profile, expected } => {
                ErrorView::UnsupportedBuildOptimizationProfile {
                    profile: profile@,
                    expected: expected@,
                }
            },
            Error::NativeBuilderMissingHost { check_name } => ErrorView::NativeBuilderMissingHost {
                check_name: check_name@,
            },
            Error::ExecutorNotImplemented { kind } => ErrorView::ExecutorNotImplemented {
                kind: kind@,
            },
            Error::UnknownExecutor { kind } => ErrorView::UnknownExecutor { kind: kind@ },
            Error::UnknownArgument { argument, usage } => ErrorView::UnknownArgument {
                argument: argument@,
                usage: usage@,
            },
            Error::MissingArgumentValue { flag } => ErrorView::MissingArgumentValue { flag: flag@ },
            Error::MissingRequiredArgument { flag } => ErrorView::MissingRequiredArgument {
                flag: flag@,
            },
            Error::UnsupportedAction { action } => ErrorView::UnsupportedAction { action: action@ },
            Error::InvalidMaxJobs { value } => ErrorView::InvalidMaxJobs { value: value@ },
            Error::RemoteNativeRequiresBuilder => ErrorView::RemoteNativeRequiresBuilder,
            Error::InvalidRealizationPolicy { value } => ErrorView::InvalidRealizationPolicy {
                value: value@,
            },
            Error::PlannerCommand { command, source } => ErrorView::PlannerCommand {
                command: command@,
                source: source@,
            },
            Error::PlannerCommandFailed { command, stderr } => ErrorView::PlannerCommandFailed {
                command: command@,
                stderr: stderr@,
            },
            Error::PlannerUtf8 { command, source } => ErrorView::PlannerUtf8 {
                command: command@,
                source: source@,
            },
            Error::PlannerJson { source } => ErrorView::PlannerJson { source: source@ },
            Error::PlannerMissingDerivation { drv } => ErrorView::PlannerMissingDerivation {
                drv: drv@,
            },
            Error::PlannerMissingOutput { drv, output } => ErrorView::PlannerMissingOutput {
                drv: drv@,
                output: output@,
            },
            Error::PlannerNoSubstituters => ErrorView::PlannerNoSubstituters,
            Error::UnsupportedPlanSchema { version } => ErrorView::UnsupportedPlanSchema {
                version: *version,
            },
            Error::PlanIdMismatch { expected, actual } => ErrorView::PlanIdMismatch {
                expected: expected@,
                actual: actual@,
            },
            Error::PlanIdentityMismatch { field, planned, requested } => {
                ErrorView::PlanIdentityMismatch {
                    field: field@,
                    planned: planned@,
                    requested: requested@,
                }
            },
            Error::PlanBlocked { path, reason } => ErrorView::PlanBlocked {
                path: path@,
                reason: reason@,
            },
            Error::PlannerCacheProbe { substituter, output, source } => {
                ErrorView::PlannerCacheProbe {
                    substituter: substituter@,
                    output: output@,
                    source: source@,
                }
            },
            Error::PlannerCacheProbeFailed { substituter, output, stderr } => {
                ErrorView::PlannerCacheProbeFailed {
                    substituter: substituter@,
                    output: output@,
                    stderr: stderr@,
                }
            },
            Error::PlannerCacheProbeJson { substituter, output, reason } => {
                ErrorView::PlannerCacheProbeJson {
                    substituter: substituter@,
                    output: output@,
                    reason: reason@,
                }
            },
            Error::CaptureRequiresPublishCommand => ErrorView::CaptureRequiresPublishCommand,
            Error::NoPublisherConfigured => ErrorView::NoPublisherConfigured,
            Error::CommandSpawn { command, source } => ErrorView::CommandSpawn {
                command: command@,
                source: source@,
            },
            Error::CommandStdinUnavailable { command } => ErrorView::CommandStdinUnavailable {
                command: command@,
            },
            Error::CommandWriteStdin { command, source } => ErrorView::CommandWriteStdin {
                command: command@,
                source: source@,
            },
            Error::CommandWait { command, source } => ErrorView::CommandWait {
                command: command@,
                source: source@,
            },
            Error::CommandFailed { command, stderr } => ErrorView::CommandFailed {
                command: command@,
                stderr: stderr@,
            },
            Error::CommandUtf8 { command, source } => ErrorView::CommandUtf8 {
                command: command@,
                source: source@,
            },
            Error::NixBuildRun { attr, source } => ErrorView::NixBuildRun {
                attr: attr@,
                source: source@,
            },
            Error::RealizationFailed { attr, status, stderr } => ErrorView::RealizationFailed {
                attr: attr@,
                status: *status,
                stderr: stderr@,
            },
            Error::RealizationMissingPrerequisite { attr, status, prerequisite } => {
                ErrorView::RealizationMissingPrerequisite {
                    attr: attr@,
                    status: *status,
                    prerequisite: prerequisite@,
                }
            },
            Error::NixBuildUtf8 { attr, source } => ErrorView::NixBuildUtf8 {
                attr: attr@,
                source: source@,
            },
            Error::NixBuildNoOutput { attr } => ErrorView::NixBuildNoOutput { attr: attr@ },
            Error::NixStoreRun { args, source } => ErrorView::NixStoreRun {
                args: args@,
                source: source@,
            },
            Error::NixStoreFailed { args, stderr } => ErrorView::NixStoreFailed {
                args: args@,
                stderr: stderr@,
            },
            Error::NixStoreUtf8 { args, source } => ErrorView::NixStoreUtf8 {
                args: args@,
                source: source@,
            },
            Error::NixStoreNoDeriver { toplevel } => ErrorView::NixStoreNoDeriver {
                toplevel: toplevel@,
            },
            Error::NixStoreRead { file, source } => ErrorView::NixStoreRead {
                file: file@,
                source: source@,
            },
            Error::NixosRebuildRun { action, flake_attr, source } => ErrorView::NixosRebuildRun {
                action: action@,
                flake_attr: flake_attr@,
                source: source@,
            },
            Error::NixosRebuildFailed { action, flake_attr, stderr } => {
                ErrorView::NixosRebuildFailed {
                    action: action@,
                    flake_attr: flake_attr@,
                    stderr: stderr@,
                }
            },
            Error::MissingCachePaths { count, preview } => ErrorView::MissingCachePaths {
                count: *count,
                preview: preview@,
            },
            Error::MetadataJson { source } => ErrorView::MetadataJson { source: source@ },
        }
    }
}

impl DeepView for Error {
    type V = ErrorView;

    open spec fn deep_view(&self) -> ErrorView {
        self@
    }
}

impl ErrorView {
    /// The message shown for the error.
    pub open spec fn message(self) -> Seq<char> {
        match self {
            ErrorView::UnsupportedHostPlatform { system } => {
                "crossbow: unsupported host platform `"@ + system
                    + "`; add it to lib/targets.nix and lib/platform-map.nix first"@
            },
            ErrorView::MissingPlatformMapping { name, system } => {
                "crossbow: no "@ + name + " mapping for `"@ + system + "`"@
            },
            ErrorView::UnsupportedCacheMode { mode, expected } => {
                "crossbow: unsupported cache mode `"@ + mode + "`; expected one of "@ + expected
            },
            ErrorView::UnsupportedHardwareProfile { profile, expected } => {
                "crossbow: unsupported hardware optimization profile `"@ + profile
                    + "`; expected one of "@ + expected
            },
            ErrorView::HardwareProfileHostMismatch { profile, profile_system, host } => {
                "crossbow: hardware optimization profile `"@ + profile + "` is for `"@
                    + profile_system + "` but host is `"@ + host + "`"@
            },
            ErrorView::UnsupportedBuildOptimizationProfile { profile, expected } => {
                "crossbow: unsupported build optimization profile `"@ + profile
                    + "`; expected one of "@ + expected
            },
            ErrorView::NativeBuilderMissingHost { check_name } => {
                "crossbow: native-builder check `"@ + check_name
                    + "` requires a non-empty host system"@
            },
            ErrorView::ExecutorNotImplemented { kind } => {
                "crossbow: executor `"@ + kind + "` is declared but not implemented in phase 1"@
            },
            ErrorView::UnknownExecutor { kind } => "crossbow: unknown executor `"@ + kind + "`"@,
            ErrorView::UnknownArgument { argument, usage } => {
                "crossbow: unknown argument `"@ + argument + "`\n"@ + usage
            },
            ErrorView::MissingArgumentValue { flag } => {
                "crossbow: "@ + flag + " requires a value; pass it as `"@ + flag + " <value>`"@
            },
            ErrorView::MissingRequiredArgument { flag } => {
                "crossbow: missing "@ + flag + "; pass `"@ + flag + " <value>`"@
            },
            ErrorView::UnsupportedAction { action } => {
                "crossbow: unsupported nixos-rebuild action `"@ + action + "`"@
            },
            ErrorView::InvalidMaxJobs { value } => {
                "crossbow: invalid --max-jobs value `"@ + value + "`; expected a positive integer"@
            },
            ErrorView::RemoteNativeRequiresBuilder => {
                "crossbow: remote-native realization requires at least one explicit builder"@
            },
            ErrorView::InvalidRealizationPolicy { value } => {
                "crossbow: invalid realization policy `"@ + value
                    + "`; expected substitute-only or remote-native"@
            },
            ErrorView::PlannerCommand { command, .. } => {
                "crossbow: failed to run planner command `"@ + command + "`"@
            },
            ErrorView::PlannerCommandFailed { command, stderr } => {
                "crossbow: planner command `"@ + command + "` failed: "@ + stderr
            },
            ErrorView::PlannerUtf8 { command, .. } => {
                "crossbow: planner command `"@ + command + "` emitted non-UTF-8 output"@
            },
            ErrorView::PlannerJson { .. } => "crossbow: planner JSON is invalid"@,
            ErrorView::PlannerMissingDerivation { drv } => {
                "crossbow: planner could not find derivation `"@ + drv
                    + "` in nix derivation show output"@
            },
            ErrorView::PlannerMissingOutput { drv, output } => {
                "crossbow: planner could not resolve output `"@ + output + "` of `"@ + drv + "`"@
            },
            ErrorView::PlannerNoSubstituters => {
                "crossbow: exact planner requires at least one configured substituter"@
            },
            ErrorView::UnsupportedPlanSchema { version } => {
                "crossbow: unsupported closure plan schema version "@
                    + text::decimal(version as nat)
            },
            ErrorView::PlanIdMismatch { expected, actual } => {
                "crossbow: closure plan ID mismatch: expected `"@ + expected + "`, computed `"@
                    + actual + "`"@
            },
            ErrorView::PlanIdentityMismatch { field, planned, requested } => {
                "crossbow: closure plan identity mismatch for `"@ + field + "`: planned `"@
                    + planned + "`, requested `"@ + requested + "`"@
            },
            ErrorView::PlanBlocked { path, reason } => {
                "crossbow: closure plan is blocked for `"@ + path + "`: "@ + reason
            },
            ErrorView::PlannerCacheProbe { substituter, output, .. } => {
                "crossbow: failed to probe `"@ + output + "` in substituter `"@ + substituter + "`"@
            },
            ErrorView::PlannerCacheProbeFailed { substituter, output, stderr } => {
                "crossbow: cache probe for `"@ + output + "` in `"@ + substituter + "` failed: "@
                    + stderr
            },
            ErrorView::PlannerCacheProbeJson { substituter, output, reason } => {
                "crossbow: cache probe JSON for `"@ + output + "` in `"@ + substituter
                    + "` is invalid: "@ + reason
            },
            ErrorView::CaptureRequiresPublishCommand => {
                "crossbow: --capture requires --publish-command; provide the cache publication command or use --no-capture"@
            },
            ErrorView::NoPublisherConfigured => {
                "crossbow: no publisher configured; pass --publish-command when capture is enabled"@
            },
            ErrorView::CommandSpawn { command, .. } => {
                "crossbow: failed to spawn shell command `"@ + command + "`"@
            },
            ErrorView::CommandStdinUnavailable { command } => {
                "crossbow: shell command `"@ + command + "` did not open stdin for store paths"@
            },
            ErrorView::CommandWriteStdin { command, .. } => {
                "crossbow: failed to write store paths to shell command `"@ + command + "`"@
            },
            ErrorView::CommandWait { command, .. } => {
                "crossbow: failed to wait for shell command `"@ + command + "`"@
            },
            ErrorView::CommandFailed { command, stderr } => {
                "crossbow: shell command `"@ + command + "` failed: "@ + stderr
            },
            ErrorView::CommandUtf8 { command, .. } => {
                "crossbow: shell command `"@ + command + "` produced non-UTF-8 output"@
            },
            ErrorView::NixBuildRun { attr, .. } => {
                "crossbow: failed to run `nix build --no-link --print-out-paths "@ + attr + "`"@
            },
            ErrorView::RealizationFailed { attr, status, stderr } => {
                "crossbow: realization of `"@ + attr + "` failed (exit status "@
                    + status_text(status) + "): "@ + stderr
            },
            ErrorView::RealizationMissingPrerequisite { attr, status, prerequisite } => {
                "crossbow: realization of `"@ + attr + "` failed (exit status "@
                    + status_text(status) + "): "@ + prerequisite.message()
            },
            ErrorView::NixBuildUtf8 { attr, .. } => {
                "crossbow: `nix build --no-link --print-out-paths "@ + attr
                    + "` produced non-UTF-8 output"@
            },
            ErrorView::NixBuildNoOutput { attr } => {
                "crossbow: `nix build --no-link --print-out-paths "@ + attr
                    + "` printed no output path"@
            },
            ErrorView::NixStoreRun { args, .. } => {
                "crossbow: failed to run `nix-store "@ + args + "`"@
            },
            ErrorView::NixStoreFailed { args, stderr } => {
                "crossbow: `nix-store "@ + args + "` failed: "@ + stderr
            },
            ErrorView::NixStoreUtf8 { args, .. } => {
                "crossbow: `nix-store "@ + args + "` produced non-UTF-8 output"@
            },
            ErrorView::NixStoreNoDeriver { toplevel } => {
                "crossbow: `nix-store --query --deriver "@ + toplevel + "` returned no deriver"@
            },
            ErrorView::NixStoreRead { file, .. } => "crossbow: failed to read `"@ + file + "`"@,
            ErrorView::NixosRebuildRun { action, flake_attr, .. } => {
                "crossbow: failed to run `nixos-rebuild "@ + action + " --flake "@ + flake_attr
                    + "`"@
            },
            ErrorView::NixosRebuildFailed { action, flake_attr, stderr } => {
                "crossbow: `nixos-rebuild "@ + action + " --flake "@ + flake_attr + "` failed: "@
                    + stderr
            },
            ErrorView::MissingCachePaths { count, preview } => {
                "crossbow: "@ + text::decimal(count as nat)
                    + " paths are missing from cache after publish; first missing paths: "@
                    + preview
            },
            ErrorView::MetadataJson { .. } => "crossbow: embedded metadata JSON is invalid"@,
        }
    }
}

impl Error {
    /// The message shown for the error.
    pub fn to_string(&self) -> (result: String)
        ensures
            result@ == self@.message(),
    {
        match self {
            Error::UnsupportedHostPlatform { system } => {
                "crossbow: unsupported host platform `".to_owned()
                    .concat(system.as_str())
                    .concat("`; add it to lib/targets.nix and lib/platform-map.nix first")
            },
            Error::MissingPlatformMapping { name, system } => {
                "crossbow: no ".to_owned()
                    .concat(name.as_str())
                    .concat(" mapping for `")
                    .concat(system.as_str())
                    .concat("`")
            },
            Error::UnsupportedCacheMode { mode, expected } => {
                "crossbow: unsupported cache mode `".to_owned()
                    .concat(mode.as_str())
                    .concat("`; expected one of ")
                    .concat(expected.as_str())
            },
            Error::UnsupportedHardwareProfile { profile, expected } => {
                "crossbow: unsupported hardware optimization profile `".to_owned()
                    .concat(profile.as_str())
                    .concat("`; expected one of ")
                    .concat(expected.as_str())
            },
            Error::HardwareProfileHostMismatch { profile, profile_system, host } => {
                "crossbow: hardware optimization profile `".to_owned()
                    .concat(profile.as_str())
                    .concat("` is for `")
                    .concat(profile_system.as_str())
                    .concat("` but host is `")
                    .concat(host.as_str())
                    .concat("`")
            },
            Error::UnsupportedBuildOptimizationProfile { profile, expected } => {
                "crossbow: unsupported build optimization profile `".to_owned()
                    .concat(profile.as_str())
                    .concat("`; expected one of ")
                    .concat(expected.as_str())
            },
            Error::NativeBuilderMissingHost { check_name } => {
                "crossbow: native-builder check `".to_owned()
                    .concat(check_name.as_str())
                    .concat("` requires a non-empty host system")
            },
            Error::ExecutorNotImplemented { kind } => {
                "crossbow: executor `".to_owned()
                    .concat(kind.as_str())
                    .concat("` is declared but not implemented in phase 1")
            },
            Error::UnknownExecutor { kind } => {
                "crossbow: unknown executor `".to_owned()
                    .concat(kind.as_str())
                    .concat("`")
            },
            Error::UnknownArgument { argument, usage } => {
                "crossbow: unknown argument `".to_owned()
                    .concat(argument.as_str())
                    .concat("`\n")
                    .concat(usage.as_str())
            },
            Error::MissingArgumentValue { flag } => {
                "crossbow: ".to_owned()
                    .concat(flag.as_str())
                    .concat(" requires a value; pass it as `")
                    .concat(flag.as_str())
                    .concat(" <value>`")
            },
            Error::MissingRequiredArgument { flag } => {
                "crossbow: missing ".to_owned()
                    .concat(flag.as_str())
                    .concat("; pass `")
                    .concat(flag.as_str())
                    .concat(" <value>`")
            },
            Error::UnsupportedAction { action } => {
                "crossbow: unsupported nixos-rebuild action `".to_owned()
                    .concat(action.as_str())
                    .concat("`")
            },
            Error::InvalidMaxJobs { value } => {
                "crossbow: invalid --max-jobs value `".to_owned()
                    .concat(value.as_str())
                    .concat("`; expected a positive integer")
            },
            Error::RemoteNativeRequiresBuilder => {
                "crossbow: remote-native realization requires at least one explicit builder".to_owned()
            },
            Error::InvalidRealizationPolicy { value } => {
                "crossbow: invalid realization policy `".to_owned()
                    .concat(value.as_str())
                    .concat("`; expected substitute-only or remote-native")
            },
            Error::PlannerCommand { command, .. } => {
                "crossbow: failed to run planner command `".to_owned()
                    .concat(command.as_str())
                    .concat("`")
            },
            Error::PlannerCommandFailed { command, stderr } => {
                "crossbow: planner command `".to_owned()
                    .concat(command.as_str())
                    .concat("` failed: ")
                    .concat(stderr.as_str())
            },
            Error::PlannerUtf8 { command, .. } => {
                "crossbow: planner command `".to_owned()
                    .concat(command.as_str())
                    .concat("` emitted non-UTF-8 output")
            },
            Error::PlannerJson { .. } => "crossbow: planner JSON is invalid".to_owned(),
            Error::PlannerMissingDerivation { drv } => {
                "crossbow: planner could not find derivation `".to_owned()
                    .concat(drv.as_str())
                    .concat("` in nix derivation show output")
            },
            Error::PlannerMissingOutput { drv, output } => {
                "crossbow: planner could not resolve output `".to_owned()
                    .concat(output.as_str())
                    .concat("` of `")
                    .concat(drv.as_str())
                    .concat("`")
            },
            Error::PlannerNoSubstituters => {
                "crossbow: exact planner requires at least one configured substituter".to_owned()
            },
            Error::UnsupportedPlanSchema { version } => {
                "crossbow: unsupported closure plan schema version ".to_owned()
                    .concat(text::to_decimal(*version as u64).as_str())
            },
            Error::PlanIdMismatch { expected, actual } => {
                "crossbow: closure plan ID mismatch: expected `".to_owned()
                    .concat(expected.as_str())
                    .concat("`, computed `")
                    .concat(actual.as_str())
                    .concat("`")
            },
            Error::PlanIdentityMismatch { field, planned, requested } => {
                "crossbow: closure plan identity mismatch for `".to_owned()
                    .concat(field)
                    .concat("`: planned `")
                    .concat(planned.as_str())
                    .concat("`, requested `")
                    .concat(requested.as_str())
                    .concat("`")
            },
            Error::PlanBlocked { path, reason } => {
                "crossbow: closure plan is blocked for `".to_owned()
                    .concat(path.as_str())
                    .concat("`: ")
                    .concat(reason.as_str())
            },
            Error::PlannerCacheProbe { substituter, output, .. } => {
                "crossbow: failed to probe `".to_owned()
                    .concat(output.as_str())
                    .concat("` in substituter `")
                    .concat(substituter.as_str())
                    .concat("`")
            },
            Error::PlannerCacheProbeFailed { substituter, output, stderr } => {
                "crossbow: cache probe for `".to_owned()
                    .concat(output.as_str())
                    .concat("` in `")
                    .concat(substituter.as_str())
                    .concat("` failed: ")
                    .concat(stderr.as_str())
            },
            Error::PlannerCacheProbeJson { substituter, output, reason } => {
                "crossbow: cache probe JSON for `".to_owned()
                    .concat(output.as_str())
                    .concat("` in `")
                    .concat(substituter.as_str())
                    .concat("` is invalid: ")
                    .concat(reason.as_str())
            },
            Error::CaptureRequiresPublishCommand => {
                "crossbow: --capture requires --publish-command; provide the cache publication command or use --no-capture".to_owned()
            },
            Error::NoPublisherConfigured => {
                "crossbow: no publisher configured; pass --publish-command when capture is enabled".to_owned()
            },
            Error::CommandSpawn { command, .. } => {
                "crossbow: failed to spawn shell command `".to_owned()
                    .concat(command.as_str())
                    .concat("`")
            },
            Error::CommandStdinUnavailable { command } => {
                "crossbow: shell command `".to_owned()
                    .concat(command.as_str())
                    .concat("` did not open stdin for store paths")
            },
            Error::CommandWriteStdin { command, .. } => {
                "crossbow: failed to write store paths to shell command `".to_owned()
                    .concat(command.as_str())
                    .concat("`")
            },
            Error::CommandWait { command, .. } => {
                "crossbow: failed to wait for shell command `".to_owned()
                    .concat(command.as_str())
                    .concat("`")
            },
            Error::CommandFailed { command, stderr } => {
                "crossbow: shell command `".to_owned()
                    .concat(command.as_str())
                    .concat("` failed: ")
                    .concat(stderr.as_str())
            },
            Error::CommandUtf8 { command, .. } => {
                "crossbow: shell command `".to_owned()
                    .concat(command.as_str())
                    .concat("` produced non-UTF-8 output")
            },
            Error::NixBuildRun { attr, .. } => {
                "crossbow: failed to run `nix build --no-link --print-out-paths ".to_owned()
                    .concat(attr.as_str())
                    .concat("`")
            },
            Error::RealizationFailed { attr, status, stderr } => {
                "crossbow: realization of `".to_owned()
                    .concat(attr.as_str())
                    .concat("` failed (exit status ")
                    .concat(status_to_text(*status).as_str())
                    .concat("): ")
                    .concat(stderr.as_str())
            },
            Error::RealizationMissingPrerequisite { attr, status, prerequisite } => {
                "crossbow: realization of `".to_owned()
                    .concat(attr.as_str())
                    .concat("` failed (exit status ")
                    .concat(status_to_text(*status).as_str())
                    .concat("): ")
                    .concat(prerequisite.to_string().as_str())
            },
            Error::NixBuildUtf8 { attr, .. } => {
                "crossbow: `nix build --no-link --print-out-paths ".to_owned()
                    .concat(attr.as_str())
                    .concat("` produced non-UTF-8 output")
            },
            Error::NixBuildNoOutput { attr } => {
                "crossbow: `nix build --no-link --print-out-paths ".to_owned()
                    .concat(attr.as_str())
                    .concat("` printed no output path")
            },
            Error::NixStoreRun { args, .. } => {
                "crossbow: failed to run `nix-store ".to_owned()
                    .concat(args.as_str())
                    .concat("`")
            },
            Error::NixStoreFailed { args, stderr } => {
                "crossbow: `nix-store ".to_owned()
                    .concat(args.as_str())
                    .concat("` failed: ")
                    .concat(stderr.as_str())
            },
            Error::NixStoreUtf8 { args, .. } => {
                "crossbow: `nix-store ".to_owned()
                    .concat(args.as_str())
                    .concat("` produced non-UTF-8 output")
            },
            Error::NixStoreNoDeriver { toplevel } => {
                "crossbow: `nix-store --query --deriver ".to_owned()
                    .concat(toplevel.as_str())
                    .concat("` returned no deriver")
            },
            Error::NixStoreRead { file, .. } => {
                "crossbow: failed to read `".to_owned()
                    .concat(file.as_str())
                    .concat("`")
            },
            Error::NixosRebuildRun { action, flake_attr, .. } => {
                "crossbow: failed to run `nixos-rebuild ".to_owned()
                    .concat(action.as_str())
                    .concat(" --flake ")
                    .concat(flake_attr.as_str())
                    .concat("`")
            },
            Error::NixosRebuildFailed { action, flake_attr, stderr } => {
                "crossbow: `nixos-rebuild ".to_owned()
                    .concat(action.as_str())
                    .concat(" --flake ")
                    .concat(flake_attr.as_str())
                    .concat("` failed: ")
                    .concat(stderr.as_str())
            },
            Error::MissingCachePaths { count, preview } => {
                "crossbow: ".to_owned()
                    .concat(text::to_decimal(*count as u64).as_str())
                    .concat(" paths are missing from cache after publish; first missing paths: ")
                    .concat(preview.as_str())
            },
            Error::MetadataJson { .. } => "crossbow: embedded metadata JSON is invalid".to_owned(),
        }
    }
}

/// Result of a fallible operation of the library.
pub type Result<T> = std::result::Result<T, Error>;

/// Model of a [`Result`]: the model of the value, or of the error.
pub open spec fn outcome<T: DeepView>(result: Result<T>) -> std::result::Result<T::V, ErrorView> {
    match result {
        Ok(value) => Ok(value.deep_view()),
        Err(error) => Err(error@),
    }
}

/// What is said of a missing prerequisite names its kind, its root, its system,
/// where it was looked for, whether it can be recovered, and what was printed.
pub proof fn law_prerequisites_are_named_whole(prerequisite: PrerequisiteView)
    ensures
        prerequisite.message() == prerequisite.kind.label() + " root="@ + prerequisite.root
            + " system="@ + prerequisite.system + " context="@ + prerequisite.cache_context
            + " recoverable_by_native_recovery="@ + (
        if prerequisite.recoverable_by_native_recovery {
            "true"@
        } else {
            "false"@
        }) + ": "@ + prerequisite.diagnostic,
        status_text(None) == "None"@,
        RealizationFailureKind::MissingCacheRoot.label() == "missing-cache-root"@,
        RealizationFailureKind::WrongPlatform.label() == "wrong-platform"@,
        RealizationFailureKind::RemoteBuilder.label() == "remote-builder"@,
        RealizationFailureKind::NixRealization.label() == "nix-realization"@,
        RealizationFailureKind::Unknown.label() == "unknown"@,
{
}

/// The exit status of a failed build is shown as it was, with its sign.
pub proof fn law_exit_statuses_are_shown(code: i32)
    ensures
        code >= 0 ==> status_text(Some(code)) == "Some("@ + text::decimal(code as nat) + ")"@,
        code < 0 ==> status_text(Some(code)) == "Some("@ + (seq!['-'] + text::decimal(
            (-code) as nat,
        )) + ")"@,
{
}

/// Every message says that it is from crossbow, and what was wrong: the message
/// of an error holds the texts that it was given.
pub proof fn law_messages_hold_what_was_wrong(path: Seq<char>, reason: Seq<char>, other: Seq<char>)
    ensures
        (ErrorView::PlanBlocked { path, reason }).message()
            == "crossbow: closure plan is blocked for `"@ + path + "`: "@ + reason,
        (ErrorView::CommandFailed { command: path, stderr: reason }).message()
            == "crossbow: shell command `"@ + path + "` failed: "@ + reason,
        (ErrorView::PlanIdMismatch { expected: path, actual: reason }).message()
            == "crossbow: closure plan ID mismatch: expected `"@ + path + "`, computed `"@ + reason
            + "`"@,
        (ErrorView::PlanIdentityMismatch {
            field: other,
            planned: path,
            requested: reason,
        }).message() == "crossbow: closure plan identity mismatch for `"@ + other + "`: planned `"@
            + path + "`, requested `"@ + reason + "`"@,
        (ErrorView::PlannerMissingOutput { drv: path, output: other }).message()
            == "crossbow: planner could not resolve output `"@ + other + "` of `"@ + path + "`"@,
        (ErrorView::UnsupportedAction { action: path }).message()
            == "crossbow: unsupported nixos-rebuild action `"@ + path + "`"@,
{
}

} // verus!
