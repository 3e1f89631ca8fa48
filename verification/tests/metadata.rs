//! Shared target and profile metadata.

use crossbow_switch::metadata::{
    build_optimization_profile_for, cache_mode_for, hardware_optimization_name,
    hardware_profile_for, is_darwin, is_linux, is_wasm, is_windows, nix_system_to_gnu_config,
    nix_system_to_zig_target, optimized_host_platform, os_of, target_for,
    unsupported_toolchain_message, BuildOptimizationProfile, CacheMode, GccMetadata,
    HardwareOptimization, HardwareProfile, Metadata, PlatformMappings, PlatformMetadata,
    TargetDescriptor,
};
use crossbow_switch::sorted::SortedMap;
use crossbow_switch::{Error, Result};

fn texts(list: &[&str]) -> Vec<String> {
    list.iter().map(|text| (*text).to_owned()).collect()
}

fn table<T>(entries: Vec<(&str, T)>) -> SortedMap<T> {
    SortedMap::from_entries(
        entries.into_iter().map(|(key, value)| (key.to_owned(), value)).collect(),
    )
}

fn target(system: &str, config: &str) -> TargetDescriptor {
    TargetDescriptor { system: system.to_owned(), config: config.to_owned() }
}

fn cache_mode(name: &str) -> CacheMode {
    CacheMode {
        name: name.to_owned(),
        proves: String::new(),
        cache_expectation: String::new(),
    }
}

fn build_profile(name: &str, rust_flags: &[&str]) -> BuildOptimizationProfile {
    BuildOptimizationProfile {
        name: name.to_owned(),
        changes_hashes: !rust_flags.is_empty(),
        c_flags: Vec::new(),
        link_flags: Vec::new(),
        rust_flags: texts(rust_flags),
        go_flags: Vec::new(),
        go_ldflags: Vec::new(),
        go_env: SortedMap::new(),
        description: String::new(),
    }
}

fn rockpro64() -> HardwareProfile {
    HardwareProfile {
        name: "rockpro64".to_owned(),
        system: Some("aarch64-linux".to_owned()),
        vendor: None,
        soc: None,
        description: None,
        platform: Some(PlatformMetadata {
            gcc: Some(GccMetadata {
                arch: Some("armv8-a".to_owned()),
                tune: Some("cortex-a72.cortex-a53".to_owned()),
            }),
        }),
    }
}

fn metadata() -> Result<Metadata> {
    Ok(Metadata {
        targets: table(vec![
            ("x86_64-linux", target("x86_64-linux", "x86_64-unknown-linux-gnu")),
            ("aarch64-linux", target("aarch64-linux", "aarch64-unknown-linux-gnu")),
        ]),
        platform_mappings: PlatformMappings {
            zig_targets: table(vec![("aarch64-linux", "aarch64-linux-gnu".to_owned())]),
            gnu_configs: table(vec![("aarch64-linux", "aarch64-unknown-linux-gnu".to_owned())]),
        },
        cache_modes: table(vec![
            ("strict-cross", cache_mode("strict-cross")),
            (
                "cache-shaped-with-cross-overrides",
                cache_mode("cache-shaped-with-cross-overrides"),
            ),
            ("native-substituted", cache_mode("native-substituted")),
            ("remote-native", cache_mode("remote-native")),
        ]),
        hardware_profiles: table(vec![("rockpro64", rockpro64())]),
        build_optimization_profiles: table(vec![
            ("cache-first", build_profile("cache-first", &[])),
            (
                "fast-local",
                build_profile("fast-local", &["-C", "lto=thin", "-C", "link-arg=-fuse-ld=mold"]),
            ),
        ]),
    })
}

#[test]
fn shared_metadata_loads_expected_public_values() -> Result<()> {
    let metadata = metadata()?;

    assert_eq!(
        target_for(&metadata, "aarch64-linux")?,
        &TargetDescriptor {
            system: "aarch64-linux".to_owned(),
            config: "aarch64-unknown-linux-gnu".to_owned(),
        }
    );
    assert_eq!(
        nix_system_to_zig_target(&metadata, "aarch64-linux")?,
        "aarch64-linux-gnu"
    );
    assert_eq!(
        nix_system_to_gnu_config(&metadata, "aarch64-linux")?,
        "aarch64-unknown-linux-gnu"
    );
    assert_eq!(
        cache_mode_for(&metadata, "cache-shaped-with-cross-overrides")?.name,
        "cache-shaped-with-cross-overrides"
    );
    assert_eq!(
        build_optimization_profile_for(&metadata, Some("fast-local"))?.rust_flags,
        vec!["-C", "lto=thin", "-C", "link-arg=-fuse-ld=mold"]
    );

    Ok(())
}

#[test]
fn linux_to_darwin_without_sdk_mentions_darwin_sdk() {
    let message = unsupported_toolchain_message("x86_64-linux", "aarch64-darwin", None);

    assert!(message.contains("darwinSdk"));
    assert!(message.contains("osxcross"));
}

#[test]
fn metadata_lookup_errors_include_offending_value() -> Result<()> {
    let metadata = metadata()?;

    let target = target_for(&metadata, "mips-linux").unwrap_err();
    let zig = nix_system_to_zig_target(&metadata, "mips-linux").unwrap_err();
    let cache_mode = cache_mode_for(&metadata, "mystery-cache").unwrap_err();

    assert!(target.to_string().contains("mips-linux"));
    assert!(zig.to_string().contains("mips-linux"));
    assert!(cache_mode.to_string().contains("mystery-cache"));
    assert!(cache_mode.to_string().contains("strict-cross"));
    Ok(())
}

#[test]
fn build_optimization_profile_defaults_to_cache_first() -> Result<()> {
    let metadata = metadata()?;

    assert_eq!(
        build_optimization_profile_for(&metadata, None)?.name,
        "cache-first"
    );
    Ok(())
}

#[test]
fn hardware_optimization_name_handles_absent_and_named_profiles() -> Result<()> {
    let metadata = metadata()?;

    assert_eq!(hardware_optimization_name(&metadata, None)?, None);
    assert_eq!(
        hardware_optimization_name(&metadata, Some(HardwareOptimization::Named("rockpro64")))?,
        Some("rockpro64".to_owned())
    );
    Ok(())
}

#[test]
fn system_classifiers_follow_nix_system_suffixes() {
    assert_eq!(os_of("x86_64-linux").as_deref(), Some("linux"));
    assert!(is_linux("x86_64-linux"));
    assert!(is_darwin("aarch64-darwin"));
    assert!(is_windows("x86_64-windows"));
    assert!(is_wasm("wasm32-wasi"));
    assert!(!is_linux("wasm32-wasi"));
}

#[test]
fn incompatible_hardware_profile_reports_host_mismatch() -> Result<()> {
    let metadata = metadata()?;
    let error = optimized_host_platform(
        &metadata,
        "x86_64-linux",
        Some(HardwareOptimization::Named("rockpro64")),
    )
    .unwrap_err();

    assert!(
        error
            .to_string()
            .contains("is for `aarch64-linux` but host is `x86_64-linux`")
    );
    Ok(())
}

#[test]
fn optimized_host_platform_merges_gcc_profile() -> Result<()> {
    let metadata = metadata()?;
    let platform = optimized_host_platform(
        &metadata,
        "aarch64-linux",
        Some(HardwareOptimization::Named("rockpro64")),
    )?;

    assert_eq!(platform.system, "aarch64-linux");
    assert_eq!(platform.config, "aarch64-unknown-linux-gnu");
    assert_eq!(
        platform.gcc,
        Some(GccMetadata {
            arch: Some("armv8-a".to_owned()),
            tune: Some("cortex-a72.cortex-a53".to_owned()),
        })
    );
    Ok(())
}

#[test]
fn unknown_names_list_the_known_ones_in_order() -> Result<()> {
    let metadata = metadata()?;

    assert_eq!(
        cache_mode_for(&metadata, "x").unwrap_err(),
        Error::UnsupportedCacheMode {
            mode: "x".to_owned(),
            expected: "cache-shaped-with-cross-overrides, native-substituted, remote-native, \
                       strict-cross"
                .to_owned(),
        }
    );
    assert_eq!(
        hardware_profile_for(&metadata, Some(HardwareOptimization::Named("x"))).unwrap_err(),
        Error::UnsupportedHardwareProfile {
            profile: "x".to_owned(),
            expected: "rockpro64".to_owned(),
        }
    );
    assert_eq!(
        build_optimization_profile_for(&metadata, Some("x")).unwrap_err(),
        Error::UnsupportedBuildOptimizationProfile {
            profile: "x".to_owned(),
            expected: "cache-first, fast-local".to_owned(),
        }
    );
    assert_eq!(
        nix_system_to_gnu_config(&metadata, "x").unwrap_err(),
        Error::MissingPlatformMapping { name: "GNU config".to_owned(), system: "x".to_owned() }
    );
    assert_eq!(
        optimized_host_platform(&metadata, "x", None).unwrap_err(),
        Error::UnsupportedHostPlatform { system: "x".to_owned() }
    );
    Ok(())
}

#[test]
fn a_custom_profile_without_a_system_fits_every_host() -> Result<()> {
    let metadata = metadata()?;
    let mut profile = rockpro64();
    profile.system = None;
    let platform = optimized_host_platform(
        &metadata,
        "x86_64-linux",
        Some(HardwareOptimization::Custom(profile)),
    )?;
    assert_eq!(platform.system, "x86_64-linux");
    assert_eq!(platform.config, "x86_64-unknown-linux-gnu");
    assert!(platform.gcc.is_some());

    let plain = optimized_host_platform(&metadata, "x86_64-linux", None)?;
    assert!(plain.gcc.is_none());
    Ok(())
}

#[test]
fn each_unsupported_toolchain_pair_has_its_message() {
    assert_eq!(
        unsupported_toolchain_message("x86_64-linux", "wasm32-wasi", None),
        "crossbow: wasm toolchain is declared but not implemented in phase 1"
    );
    assert_eq!(
        unsupported_toolchain_message("x86_64-linux", "x86_64-windows", None),
        "crossbow: windows toolchain is declared but not implemented in phase 1"
    );
    assert_eq!(
        unsupported_toolchain_message("x86_64-linux", "aarch64-darwin", None),
        "crossbow: linux-to-darwin cross-compilation requires darwinSdk.\nSet darwinSdk = \
         /path/to/MacOSX.sdk and configure osxcross.\n"
    );
    assert_eq!(
        unsupported_toolchain_message("x86_64-linux", "aarch64-darwin", Some("/sdk")),
        "crossbow: darwin toolchain is declared but not implemented in phase 1"
    );
    assert_eq!(
        unsupported_toolchain_message("riscv64-linux", "aarch64-linux", None),
        "crossbow: unsupported toolchain pair `riscv64-linux` -> `aarch64-linux`"
    );
}

#[test]
fn a_system_without_a_hyphen_is_its_own_suffix() {
    assert_eq!(os_of("linux").as_deref(), Some("linux"));
    assert_eq!(os_of("").as_deref(), Some(""));
    assert_eq!(os_of("a-b-").as_deref(), Some(""));
    assert!(is_linux("linux"));
    assert!(!is_linux("linux-x86_64"));
}
