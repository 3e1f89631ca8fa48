//! Classification and redaction of realization diagnostics.

use crossbow_switch::diagnostics::{
    affected_system, cache_context, classify_nix_build_failure, classify_realization_failure,
    redact_diagnostic, truncate_diagnostic,
};
use crossbow_switch::stderr::BoundedStderr;
use crossbow_switch::{
    Error, RealizationFailureKind, RealizationPolicy, MAX_REALIZATION_DIAGNOSTIC_BYTES,
};

#[test]
fn realization_failure_retains_typed_context() {
    let error = Error::RealizationFailed {
        attr: ".#nixosConfigurations.thething".to_owned(),
        status: Some(1),
        stderr: "platform mismatch".to_owned(),
    };

    assert!(error.to_string().contains("thething"));
    assert!(error.to_string().contains("platform mismatch"));
}

#[test]
fn missing_cache_root_is_structured_and_recoverable() {
    let error = classify_nix_build_failure(
        ".#thething-crossbow",
        Some(1),
        "path '/nix/store/root' is required but is not available from any substituter",
        &RealizationPolicy::SubstituteOnly,
    );

    let Error::RealizationMissingPrerequisite { prerequisite, .. } = error else {
        panic!("missing cache root should be typed");
    };
    assert_eq!(prerequisite.kind, RealizationFailureKind::MissingCacheRoot);
    assert_eq!(prerequisite.root, ".#thething-crossbow");
    assert_eq!(prerequisite.system, "unknown");
    assert_eq!(prerequisite.cache_context, "configured substituters");
    assert!(prerequisite.recoverable_by_native_recovery);
}

#[test]
fn failed_substitution_is_a_missing_cache_root() {
    let error = classify_nix_build_failure(
        ".#thething-crossbow",
        Some(1),
        "failed substitution for the required output",
        &RealizationPolicy::SubstituteOnly,
    );

    let Error::RealizationMissingPrerequisite { prerequisite, .. } = error else {
        panic!("failed substitution should be typed");
    };
    assert_eq!(prerequisite.kind, RealizationFailureKind::MissingCacheRoot);
}

#[test]
fn wrong_platform_is_structured_and_recoverable() {
    let error = classify_nix_build_failure(
        ".#thething-crossbow",
        Some(1),
        "a 'aarch64-linux' with features is required, but I am a 'x86_64-linux'",
        &RealizationPolicy::SubstituteOnly,
    );

    let Error::RealizationMissingPrerequisite { prerequisite, .. } = error else {
        panic!("wrong platform should be typed");
    };
    assert_eq!(prerequisite.kind, RealizationFailureKind::WrongPlatform);
    assert_eq!(prerequisite.system, "aarch64-linux");
    assert!(prerequisite.recoverable_by_native_recovery);
}

#[test]
fn remote_builder_failure_is_structured_without_builder_details() {
    let error = classify_nix_build_failure(
        ".#thething-crossbow",
        Some(1),
        "remote builder ssh-ng://arm failed to realize the output",
        &RealizationPolicy::RemoteNative {
            builders: vec!["ssh-ng://arm aarch64-linux - 1 1".to_owned()],
        },
    );

    let Error::RealizationMissingPrerequisite { prerequisite, .. } = error else {
        panic!("remote builder failure should be typed");
    };
    assert_eq!(prerequisite.kind, RealizationFailureKind::RemoteBuilder);
    assert_eq!(prerequisite.cache_context, "explicit remote builders");
    assert!(!prerequisite.recoverable_by_native_recovery);
    assert!(!prerequisite.diagnostic.contains("ssh-ng://arm"));
}

#[test]
fn realization_failure_is_structured_when_nix_names_the_failure() {
    let error = classify_nix_build_failure(
        ".#thething-crossbow",
        Some(1),
        "nix build failed while realizing the requested output",
        &RealizationPolicy::SubstituteOnly,
    );

    let Error::RealizationMissingPrerequisite { prerequisite, .. } = error else {
        panic!("named realization failure should be typed");
    };
    assert_eq!(prerequisite.kind, RealizationFailureKind::NixRealization);
    assert!(!prerequisite.recoverable_by_native_recovery);
}

#[test]
fn unknown_failure_falls_back_to_bounded_redacted_error() {
    let error = classify_nix_build_failure(
        ".#thething-crossbow",
        Some(1),
        &format!(
            "unexpected failure token=super-secret /home/can/private\n{}",
            "x".repeat(MAX_REALIZATION_DIAGNOSTIC_BYTES * 2)
        ),
        &RealizationPolicy::SubstituteOnly,
    );

    let Error::RealizationFailed { stderr, .. } = error else {
        panic!("unknown failure should retain the generic fallback");
    };
    assert!(stderr.len() <= MAX_REALIZATION_DIAGNOSTIC_BYTES);
    assert!(!stderr.contains("super-secret"));
    assert!(!stderr.contains("/home/can/private"));
}

#[test]
fn bounded_stderr_never_exposes_credentials_or_private_query_values() {
    let credential = "credential-value-that-must-not-leak";
    let query = "private-query-value-that-must-not-leak";
    let path = "/home/can/private/config";
    let oversized = format!(
        "Authorization: Bearer {credential}{}\n",
        "x".repeat(MAX_REALIZATION_DIAGNOSTIC_BYTES * 2)
    );
    let remaining = format!(
        "fetch https://cache.example/path?signature={query} failed\nread {path} failed\nsafe build progress\n"
    );
    let mut capture = BoundedStderr::default();
    for chunk in oversized
        .as_bytes()
        .chunks(37)
        .chain(remaining.as_bytes().chunks(19))
    {
        capture.push(chunk);
    }

    let captured = String::from_utf8(capture.finish()).unwrap();
    assert!(captured.len() <= MAX_REALIZATION_DIAGNOSTIC_BYTES);
    assert!(!captured.contains(credential));
    let diagnostic = redact_diagnostic(&captured);
    assert!(diagnostic.contains("safe build progress"));
    assert!(diagnostic.contains("<endpoint>"));
    assert!(diagnostic.contains("<path>"));
    assert!(!diagnostic.contains(credential));
    assert!(!diagnostic.contains(query));
    assert!(!diagnostic.contains(path));
}

#[test]
fn redaction_replaces_builders_endpoints_and_private_paths() {
    assert_eq!(
        redact_diagnostic("copy SSH-NG://arm  'https://cache' (/etc/x) '/nix/store/y' plain"),
        "copy <builder> <endpoint> <path> '/nix/store/y' plain"
    );
    assert_eq!(redact_diagnostic("a\r\n\n  b\tc \n"), "a\nb c");
}

#[test]
fn redaction_drops_sensitive_lines_in_any_case() {
    for line in [
        "AUTHORIZATION: x",
        "bearer x",
        "Set-Cookie: x",
        "Credentials x",
        "PassWord x",
        "a Secret",
        "my_token",
        "API_KEY=1",
        "private_key",
    ] {
        assert_eq!(redact_diagnostic(line), "<no safe diagnostic>", "{line}");
        assert_eq!(redact_diagnostic(&format!("kept\n{line}\nalso kept")), "kept\nalso kept");
    }
    assert_eq!(redact_diagnostic("bearer\tx"), "bearer x");
}

#[test]
fn redaction_of_nothing_says_so() {
    assert_eq!(redact_diagnostic(""), "<no safe diagnostic>");
    assert_eq!(redact_diagnostic(" \n\t\n"), "<no safe diagnostic>");
}

#[test]
fn long_diagnostics_are_cut_between_characters() {
    let limit = MAX_REALIZATION_DIAGNOSTIC_BYTES;
    let fits = "x".repeat(limit);
    assert_eq!(truncate_diagnostic(&fits), fits);
    assert_eq!(
        truncate_diagnostic(&format!("{fits}x")),
        format!("{}...", "x".repeat(limit - 3))
    );
    let wide = "\u{20ac}".repeat(limit);
    let cut = truncate_diagnostic(&wide);
    assert_eq!(cut, format!("{}...", "\u{20ac}".repeat((limit - 3) / 3)));
    assert!(cut.len() <= limit);
}

#[test]
fn every_kind_of_failure_is_recognised() {
    let cases = [
        ("Platform mismatch", Some(RealizationFailureKind::WrongPlatform)),
        ("a remote builder", Some(RealizationFailureKind::RemoteBuilder)),
        ("builder for x unreachable", Some(RealizationFailureKind::RemoteBuilder)),
        ("builder for x could not connect", Some(RealizationFailureKind::RemoteBuilder)),
        ("builder for x", None),
        ("no substitute", Some(RealizationFailureKind::MissingCacheRoot)),
        ("substituter unavailable", Some(RealizationFailureKind::MissingCacheRoot)),
        ("required path not available", Some(RealizationFailureKind::MissingCacheRoot)),
        ("build failed", Some(RealizationFailureKind::NixRealization)),
        ("something else", None),
    ];
    for (stderr, kind) in cases {
        assert_eq!(classify_realization_failure(stderr), kind, "{stderr}");
    }
}

#[test]
fn contexts_and_systems_are_named() {
    let remote = RealizationPolicy::RemoteNative { builders: vec!["b".to_owned()] };
    let local = RealizationPolicy::SubstituteOnly;
    assert_eq!(
        cache_context(&RealizationFailureKind::RemoteBuilder, &local),
        "remote builders disabled"
    );
    assert_eq!(
        cache_context(&RealizationFailureKind::RemoteBuilder, &remote),
        "explicit remote builders"
    );
    assert_eq!(cache_context(&RealizationFailureKind::Unknown, &local), "nix realization");
    assert_eq!(
        cache_context(&RealizationFailureKind::WrongPlatform, &local),
        "host-platform cache"
    );
    assert_eq!(affected_system("x86_64-linux and wasm32-wasi"), "x86_64-linux");
    assert_eq!(affected_system("on i686-linux"), "i686-linux");
    assert_eq!(affected_system("AARCH64-LINUX"), "unknown");
}

fn captured(stream: &[u8], size: usize) -> Vec<u8> {
    let mut capture = BoundedStderr::default();
    for chunk in stream.chunks(size) {
        capture.push(chunk);
    }
    capture.finish()
}

#[test]
fn short_streams_are_kept_whole() {
    assert_eq!(captured(b"one\ntwo", 2), b"one\ntwo");
    assert_eq!(captured(b"", 1), b"");
}

#[test]
fn how_a_stream_is_cut_into_chunks_does_not_matter() {
    let limit = MAX_REALIZATION_DIAGNOSTIC_BYTES;
    let stream = format!(
        "{}\n{}\nfirst\n{}\nlast",
        "a".repeat(limit - 1),
        "b".repeat(limit),
        "c".repeat(limit - 20)
    );
    let whole = captured(stream.as_bytes(), stream.len());
    assert_eq!(whole, format!("first\n{}\nlast", "c".repeat(limit - 20)).as_bytes());
    for size in [1, 7, 4096, 4097] {
        assert_eq!(captured(stream.as_bytes(), size), whole);
    }
}

#[test]
fn the_last_lines_that_fit_are_kept() {
    let limit = MAX_REALIZATION_DIAGNOSTIC_BYTES;
    let lines: Vec<String> = (0..100).map(|i| format!("{i:099}\n")).collect();
    let kept = captured(lines.concat().as_bytes(), 1000);
    assert_eq!(kept, lines[100 - limit / 100..].concat().as_bytes());
}

#[test]
fn no_word_of_a_redacted_text_is_a_private_path() {
    let redacted = redact_diagnostic("at /home/me/x, (/tmp/y): '/nix/store/a'\n\"/etc/z\" //w end");
    assert_eq!(redacted, "at <path> <path> '/nix/store/a'\n<path> <path> end");
    for word in redacted.split_whitespace() {
        let bare = word.trim_matches(|c: char| "'\"()[]{}<>,;:".contains(c));
        assert!(!bare.starts_with('/') || bare.starts_with("/nix/store/"));
    }
}
