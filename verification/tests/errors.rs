//! Messages of errors.

use crossbow_switch::{Error, MissingPrerequisite, RealizationFailureKind};

fn text(text: &str) -> String {
    text.to_owned()
}

fn prerequisite() -> MissingPrerequisite {
    MissingPrerequisite {
        root: text(".#top"),
        system: text("aarch64-linux"),
        cache_context: text("configured substituters"),
        recoverable_by_native_recovery: true,
        diagnostic: text("path is required"),
        kind: RealizationFailureKind::MissingCacheRoot,
    }
}

#[test]
fn configuration_errors_say_what_is_expected() {
    assert_eq!(
        Error::UnsupportedHostPlatform { system: text("riscv64-linux") }.to_string(),
        "crossbow: unsupported host platform `riscv64-linux`; add it to lib/targets.nix and lib/platform-map.nix first"
    );
    assert_eq!(
        Error::MissingPlatformMapping {
            name: text("gccArch"),
            system: text("riscv64-linux"),
        }
        .to_string(),
        "crossbow: no gccArch mapping for `riscv64-linux`"
    );
    assert_eq!(
        Error::UnsupportedCacheMode { mode: text("warm"), expected: text("a, b") }.to_string(),
        "crossbow: unsupported cache mode `warm`; expected one of a, b"
    );
    assert_eq!(
        Error::UnsupportedHardwareProfile {
            profile: text("fast"),
            expected: text("a, b"),
        }
        .to_string(),
        "crossbow: unsupported hardware optimization profile `fast`; expected one of a, b"
    );
    assert_eq!(
        Error::HardwareProfileHostMismatch {
            profile: text("fast"),
            profile_system: text("aarch64-linux"),
            host: text("x86_64-linux"),
        }
        .to_string(),
        "crossbow: hardware optimization profile `fast` is for `aarch64-linux` but host is `x86_64-linux`"
    );
    assert_eq!(
        Error::UnsupportedBuildOptimizationProfile {
            profile: text("fast"),
            expected: text("a, b"),
        }
        .to_string(),
        "crossbow: unsupported build optimization profile `fast`; expected one of a, b"
    );
    assert_eq!(
        Error::NativeBuilderMissingHost { check_name: text("smoke") }.to_string(),
        "crossbow: native-builder check `smoke` requires a non-empty host system"
    );
    assert_eq!(
        Error::ExecutorNotImplemented { kind: text("qemu") }.to_string(),
        "crossbow: executor `qemu` is declared but not implemented in phase 1"
    );
    assert_eq!(
        Error::UnknownExecutor { kind: text("qemu") }.to_string(),
        "crossbow: unknown executor `qemu`"
    );
    assert_eq!(
        Error::UnknownArgument { argument: text("--nope"), usage: text("Usage") }.to_string(),
        "crossbow: unknown argument `--nope`\nUsage"
    );
    assert_eq!(
        Error::MissingArgumentValue { flag: text("--flake") }.to_string(),
        "crossbow: --flake requires a value; pass it as `--flake <value>`"
    );
    assert_eq!(
        Error::MissingRequiredArgument { flag: text("--flake") }.to_string(),
        "crossbow: missing --flake; pass `--flake <value>`"
    );
    assert_eq!(
        Error::UnsupportedAction { action: text("boot") }.to_string(),
        "crossbow: unsupported nixos-rebuild action `boot`"
    );
    assert_eq!(
        Error::InvalidMaxJobs { value: text("zero") }.to_string(),
        "crossbow: invalid --max-jobs value `zero`; expected a positive integer"
    );
    assert_eq!(
        Error::RemoteNativeRequiresBuilder.to_string(),
        "crossbow: remote-native realization requires at least one explicit builder"
    );
    assert_eq!(
        Error::InvalidRealizationPolicy { value: text("zero") }.to_string(),
        "crossbow: invalid realization policy `zero`; expected substitute-only or remote-native"
    );
}

#[test]
fn planner_errors_name_what_failed() {
    assert_eq!(
        Error::PlannerCommand { command: text("nix show"), source: text("denied") }.to_string(),
        "crossbow: failed to run planner command `nix show`"
    );
    assert_eq!(
        Error::PlannerCommandFailed { command: text("nix show"), stderr: text("no") }.to_string(),
        "crossbow: planner command `nix show` failed: no"
    );
    assert_eq!(
        Error::PlannerUtf8 { command: text("nix show"), source: text("denied") }.to_string(),
        "crossbow: planner command `nix show` emitted non-UTF-8 output"
    );
    assert_eq!(
        Error::PlannerJson { source: text("denied") }.to_string(),
        "crossbow: planner JSON is invalid"
    );
    assert_eq!(
        Error::PlannerMissingDerivation { drv: text("/nix/store/a.drv") }.to_string(),
        "crossbow: planner could not find derivation `/nix/store/a.drv` in nix derivation show output"
    );
    assert_eq!(
        Error::PlannerMissingOutput {
            drv: text("/nix/store/a.drv"),
            output: text("out"),
        }
        .to_string(),
        "crossbow: planner could not resolve output `out` of `/nix/store/a.drv`"
    );
    assert_eq!(
        Error::PlannerNoSubstituters.to_string(),
        "crossbow: exact planner requires at least one configured substituter"
    );
    assert_eq!(
        Error::UnsupportedPlanSchema { version: 7 }.to_string(),
        "crossbow: unsupported closure plan schema version 7"
    );
    assert_eq!(
        Error::PlanIdMismatch { expected: text("a, b"), actual: text("plan-2") }.to_string(),
        "crossbow: closure plan ID mismatch: expected `a, b`, computed `plan-2`"
    );
    assert_eq!(
        Error::PlanIdentityMismatch {
            field: "toplevel",
            planned: text("x"),
            requested: text("y"),
        }
        .to_string(),
        "crossbow: closure plan identity mismatch for `toplevel`: planned `x`, requested `y`"
    );
    assert_eq!(
        Error::PlanBlocked { path: text("/nix/store/a"), reason: text("down") }.to_string(),
        "crossbow: closure plan is blocked for `/nix/store/a`: down"
    );
    assert_eq!(
        Error::PlannerCacheProbe {
            substituter: text("https://cache"),
            output: text("out"),
            source: text("denied"),
        }
        .to_string(),
        "crossbow: failed to probe `out` in substituter `https://cache`"
    );
    assert_eq!(
        Error::PlannerCacheProbeFailed {
            substituter: text("https://cache"),
            output: text("out"),
            stderr: text("no"),
        }
        .to_string(),
        "crossbow: cache probe for `out` in `https://cache` failed: no"
    );
    assert_eq!(
        Error::PlannerCacheProbeJson {
            substituter: text("https://cache"),
            output: text("out"),
            reason: text("down"),
        }
        .to_string(),
        "crossbow: cache probe JSON for `out` in `https://cache` is invalid: down"
    );
}

#[test]
fn command_errors_name_the_command() {
    assert_eq!(
        Error::CaptureRequiresPublishCommand.to_string(),
        "crossbow: --capture requires --publish-command; provide the cache publication command or use --no-capture"
    );
    assert_eq!(
        Error::NoPublisherConfigured.to_string(),
        "crossbow: no publisher configured; pass --publish-command when capture is enabled"
    );
    assert_eq!(
        Error::CommandSpawn { command: text("nix show"), source: text("denied") }.to_string(),
        "crossbow: failed to spawn shell command `nix show`"
    );
    assert_eq!(
        Error::CommandStdinUnavailable { command: text("nix show") }.to_string(),
        "crossbow: shell command `nix show` did not open stdin for store paths"
    );
    assert_eq!(
        Error::CommandWriteStdin { command: text("nix show"), source: text("denied") }.to_string(),
        "crossbow: failed to write store paths to shell command `nix show`"
    );
    assert_eq!(
        Error::CommandWait { command: text("nix show"), source: text("denied") }.to_string(),
        "crossbow: failed to wait for shell command `nix show`"
    );
    assert_eq!(
        Error::CommandFailed { command: text("nix show"), stderr: text("no") }.to_string(),
        "crossbow: shell command `nix show` failed: no"
    );
    assert_eq!(
        Error::CommandUtf8 { command: text("nix show"), source: text("denied") }.to_string(),
        "crossbow: shell command `nix show` produced non-UTF-8 output"
    );
}

#[test]
fn realization_errors_name_the_attribute() {
    assert_eq!(
        Error::NixBuildRun { attr: text(".#top"), source: text("denied") }.to_string(),
        "crossbow: failed to run `nix build --no-link --print-out-paths .#top`"
    );
    assert_eq!(
        Error::RealizationFailed {
            attr: text(".#top"),
            status: Some(-2),
            stderr: text("no"),
        }
        .to_string(),
        "crossbow: realization of `.#top` failed (exit status Some(-2)): no"
    );
    assert_eq!(
        Error::RealizationMissingPrerequisite {
            attr: text(".#top"),
            status: Some(-2),
            prerequisite: Box::new(prerequisite()),
        }
        .to_string(),
        "crossbow: realization of `.#top` failed (exit status Some(-2)): \
         missing-cache-root root=.#top system=aarch64-linux context=configured substituters \
         recoverable_by_native_recovery=true: path is required"
    );
    assert_eq!(
        Error::NixBuildUtf8 { attr: text(".#top"), source: text("denied") }.to_string(),
        "crossbow: `nix build --no-link --print-out-paths .#top` produced non-UTF-8 output"
    );
    assert_eq!(
        Error::NixBuildNoOutput { attr: text(".#top") }.to_string(),
        "crossbow: `nix build --no-link --print-out-paths .#top` printed no output path"
    );
}

#[test]
fn store_and_cache_errors_name_what_was_asked() {
    assert_eq!(
        Error::NixStoreRun { args: text("--query x"), source: text("denied") }.to_string(),
        "crossbow: failed to run `nix-store --query x`"
    );
    assert_eq!(
        Error::NixStoreFailed { args: text("--query x"), stderr: text("no") }.to_string(),
        "crossbow: `nix-store --query x` failed: no"
    );
    assert_eq!(
        Error::NixStoreUtf8 { args: text("--query x"), source: text("denied") }.to_string(),
        "crossbow: `nix-store --query x` produced non-UTF-8 output"
    );
    assert_eq!(
        Error::NixStoreNoDeriver { toplevel: text("/nix/store/top") }.to_string(),
        "crossbow: `nix-store --query --deriver /nix/store/top` returned no deriver"
    );
    assert_eq!(
        Error::NixStoreRead { file: text("roots"), source: text("denied") }.to_string(),
        "crossbow: failed to read `roots`"
    );
    assert_eq!(
        Error::NixosRebuildRun {
            action: text("boot"),
            flake_attr: text(".#host"),
            source: text("denied"),
        }
        .to_string(),
        "crossbow: failed to run `nixos-rebuild boot --flake .#host`"
    );
    assert_eq!(
        Error::NixosRebuildFailed {
            action: text("boot"),
            flake_attr: text(".#host"),
            stderr: text("no"),
        }
        .to_string(),
        "crossbow: `nixos-rebuild boot --flake .#host` failed: no"
    );
    assert_eq!(
        Error::MissingCachePaths { count: 3, preview: text("/nix/store/a") }.to_string(),
        "crossbow: 3 paths are missing from cache after publish; first missing paths: /nix/store/a"
    );
    assert_eq!(
        Error::MetadataJson { source: text("denied") }.to_string(),
        "crossbow: embedded metadata JSON is invalid"
    );
}

#[test]
fn a_process_without_an_exit_code_has_no_status() {
    let error = Error::RealizationFailed { attr: text("a"), status: None, stderr: text("s") };
    assert_eq!(error.to_string(), "crossbow: realization of `a` failed (exit status None): s");
}

#[test]
fn failure_classes_have_stable_names() {
    let names = [
        (RealizationFailureKind::MissingCacheRoot, "missing-cache-root"),
        (RealizationFailureKind::WrongPlatform, "wrong-platform"),
        (RealizationFailureKind::RemoteBuilder, "remote-builder"),
        (RealizationFailureKind::NixRealization, "nix-realization"),
        (RealizationFailureKind::Unknown, "unknown"),
    ];
    for (kind, name) in names {
        assert_eq!(kind.to_string(), name);
        let prerequisite = MissingPrerequisite {
            recoverable_by_native_recovery: false,
            kind,
            ..prerequisite()
        };
        assert_eq!(
            prerequisite.to_string(),
            format!(
                "{name} root=.#top system=aarch64-linux context=configured substituters \
                 recoverable_by_native_recovery=false: path is required"
            )
        );
    }
}
