//! Realization policy and its Nix flags.

use crossbow_switch::{
    cache_shaped_build_args, cache_shaped_build_args_with_policy, cache_shaped_nix_flags,
    cache_shaped_switch_flags, realization_nix_flags, RealizationPolicy,
};

#[test]
fn cache_shaped_nix_flags_are_exact() {
    assert_eq!(
        cache_shaped_nix_flags(),
        vec![
            "--builders",
            "",
            "--option",
            "extra-platforms",
            "",
            "--option",
            "always-allow-substitutes",
            "true",
        ]
    );
}

#[test]
fn remote_native_flags_use_only_explicit_builders() {
    let flags = realization_nix_flags(&RealizationPolicy::RemoteNative {
        builders: vec!["ssh-ng://arm aarch64-linux - 1 1".to_string()],
    })
    .unwrap();
    assert_eq!(flags[0], "--builders");
    assert_eq!(flags[1], "ssh-ng://arm aarch64-linux - 1 1");
    assert_eq!(flags[4], "");
}

#[test]
fn remote_native_requires_a_builder() {
    let error = realization_nix_flags(&RealizationPolicy::RemoteNative {
        builders: Vec::new(),
    })
    .unwrap_err();
    assert!(error.to_string().contains("requires at least one"));
}

#[test]
fn cache_shaped_switch_flags_without_substitutes_are_exact() {
    assert_eq!(
        cache_shaped_switch_flags(false),
        vec![
            "--no-reexec",
            "--builders",
            "",
            "--option",
            "extra-platforms",
            "",
            "--option",
            "always-allow-substitutes",
            "true",
        ]
    );
}

#[test]
fn cache_shaped_switch_flags_with_substitutes_are_exact() {
    assert_eq!(
        cache_shaped_switch_flags(true),
        vec![
            "--no-reexec",
            "--builders",
            "",
            "--option",
            "extra-platforms",
            "",
            "--option",
            "always-allow-substitutes",
            "true",
            "--use-substitutes",
        ]
    );
}

#[test]
fn cache_shaped_build_args_disable_builders_and_extra_platforms() {
    assert_eq!(
        cache_shaped_build_args(".#host", None),
        vec![
            "build",
            "--no-link",
            "--print-out-paths",
            ".#host",
            "--builders",
            "",
            "--option",
            "extra-platforms",
            "",
            "--option",
            "always-allow-substitutes",
            "true",
        ]
    );
}

#[test]
fn cache_shaped_build_args_with_max_jobs() {
    assert_eq!(
        cache_shaped_build_args(".#host", Some(4)),
        vec![
            "build",
            "--no-link",
            "--print-out-paths",
            ".#host",
            "--max-jobs",
            "4",
            "--builders",
            "",
            "--option",
            "extra-platforms",
            "",
            "--option",
            "always-allow-substitutes",
            "true",
        ]
    );
}

#[test]
fn every_policy_keeps_extra_platforms_empty() {
    let remote = RealizationPolicy::RemoteNative { builders: vec!["ssh://b".to_owned()] };
    for policy in [RealizationPolicy::SubstituteOnly, remote] {
        let flags = realization_nix_flags(&policy).unwrap();
        let at = flags.iter().position(|flag| flag == "extra-platforms").unwrap();
        assert_eq!(flags[at + 1], "");
        let args = cache_shaped_build_args_with_policy(".#x", None, &policy).unwrap();
        assert!(args.windows(flags.len()).any(|window| window == flags));
    }
}

#[test]
fn a_substitute_only_policy_uses_no_builders() {
    let policy = RealizationPolicy::SubstituteOnly;
    assert_eq!(policy.builders_value().unwrap(), "");
    assert_eq!(realization_nix_flags(&policy).unwrap(), cache_shaped_nix_flags());
    assert_eq!(
        cache_shaped_build_args_with_policy(".#x", Some(2), &policy).unwrap(),
        cache_shaped_build_args(".#x", Some(2))
    );
    assert!(policy.eligible_builders().is_none());
}
