use wasm_harness::forwarding::{
    env_assignment, forwarded_env_pair, forwarded_name, host_env_to_js_arg,
};

#[test]
fn forwards_whitelisted_names_unchanged() {
    assert_eq!(forwarded_name("CRITERION_HOME"), Some("CRITERION_HOME"));
    assert_eq!(forwarded_name("RUST_BACKTRACE"), Some("RUST_BACKTRACE"));
    assert_eq!(
        forwarded_name("RAYON_NUM_THREADS"),
        Some("RAYON_NUM_THREADS")
    );
    assert_eq!(forwarded_name("NO_COLOR"), Some("NO_COLOR"));
}

#[test]
fn rewrites_explicit_opt_in_prefix() {
    assert_eq!(forwarded_name("WASM_HARNESS_ENV_FOO"), Some("FOO"));
    assert_eq!(forwarded_name("WASM_HARNESS_ENV_FOO_BAR"), Some("FOO_BAR"));
}

#[test]
fn drops_unrelated_names() {
    assert_eq!(forwarded_name("PATH"), None);
    assert_eq!(forwarded_name("HOME"), None);
    assert_eq!(forwarded_name("CRITERION"), None);
    assert_eq!(forwarded_name("WASM_HARNESS_ENV_"), None);
}

#[test]
fn host_env_to_js_arg_inherit_passes_unknowns() {
    let arg = host_env_to_js_arg(b"PATH", b"/usr/bin", true).unwrap();
    assert_eq!(String::from_utf8_lossy(&arg), "--env=PATH=/usr/bin");
}

#[test]
fn host_env_to_js_arg_default_drops_unknowns() {
    assert!(host_env_to_js_arg(b"PATH", b"/usr/bin", false).is_none());
}

#[test]
fn prefixes_alone_are_whitelisted() {
    assert_eq!(forwarded_name("CRITERION_"), Some("CRITERION_"));
    assert_eq!(forwarded_name("RUST_"), Some("RUST_"));
    assert_eq!(forwarded_name("RAYON_"), Some("RAYON_"));
    assert_eq!(forwarded_name("NO_COLOR_"), None);
    assert_eq!(forwarded_name("rust_log"), None);
    assert_eq!(forwarded_name("XRUST_LOG"), None);
    assert_eq!(forwarded_name(""), None);
}

#[test]
fn opt_in_prefix_is_dropped_once() {
    assert_eq!(
        forwarded_name("WASM_HARNESS_ENV_WASM_HARNESS_ENV_X"),
        Some("WASM_HARNESS_ENV_X")
    );
    assert_eq!(forwarded_name("WASM_HARNESS_ENV_\u{fc}\u{20ac}"), Some("\u{fc}\u{20ac}"));
    assert_eq!(forwarded_name("WASM_HARNESS_ENV_RUST_LOG"), Some("RUST_LOG"));
    assert_eq!(forwarded_name("WASM_HARNESS_ENGINE"), None);
}

#[test]
fn values_are_never_changed() {
    let value = b"a=b \xff\n";
    assert_eq!(
        forwarded_env_pair(b"RUST_LOG", value, false),
        Some((&b"RUST_LOG"[..], &value[..]))
    );
    assert_eq!(
        forwarded_env_pair(b"WASM_HARNESS_ENV_X", value, false),
        Some((&b"X"[..], &value[..]))
    );
    assert_eq!(
        forwarded_env_pair(b"WASM_HARNESS_ENV_X", value, true),
        Some((&b"WASM_HARNESS_ENV_X"[..], &value[..]))
    );
    assert_eq!(
        host_env_to_js_arg(b"WASM_HARNESS_ENV_X", value, false).unwrap(),
        b"--env=X=a=b \xff\n"
    );
}

#[test]
fn inherited_names_need_not_be_utf8() {
    for key in [&b"\xff"[..], b"RUST_\xff", b"\xed\xa0\x80", b"\xc3\xbc", b""] {
        assert_eq!(
            forwarded_env_pair(key, b"1", true),
            Some((key, &b"1"[..]))
        );
    }
    assert_eq!(
        host_env_to_js_arg(b"\xff", b"1", true).unwrap(),
        b"--env=\xff=1"
    );
}

#[test]
fn whitelisted_names_need_not_be_utf8() {
    assert_eq!(
        forwarded_env_pair(b"RUST_\xff", b"1", false),
        Some((&b"RUST_\xff"[..], &b"1"[..]))
    );
    assert_eq!(
        forwarded_env_pair(b"WASM_HARNESS_ENV_\xff", b"1", false),
        Some((&b"\xff"[..], &b"1"[..]))
    );
    assert_eq!(forwarded_env_pair(b"\xff", b"1", false), None);
    assert_eq!(forwarded_env_pair(b"\xffRUST_", b"1", false), None);
    assert_eq!(forwarded_env_pair(b"WASM_HARNESS_ENV_", b"1", false), None);
    assert_eq!(forwarded_env_pair(b"", b"1", false), None);
}

#[test]
fn keys_and_names_go_by_one_rule() {
    for name in ["RUST_LOG", "NO_COLOR", "PATH", "WASM_HARNESS_ENV_\u{fc}", "WASM_HARNESS_ENV_", ""] {
        assert_eq!(
            forwarded_env_pair(name.as_bytes(), b"", false).map(|pair| pair.0),
            forwarded_name(name).map(|dest| dest.as_bytes())
        );
    }
}

#[test]
fn assignment_joins_name_and_value() {
    assert_eq!(env_assignment(b"K", b"V"), b"K=V");
    assert_eq!(env_assignment(b"K", b""), b"K=");
}
