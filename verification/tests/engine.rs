use wasm_harness::engine::{
    classify_engine, is_executable, known_engines, looks_like_path, EngineKind, FileMeta,
};
use wasm_harness::host_paths::UnixPaths;

#[test]
fn looks_like_path_recognises_path_separators() {
    assert!(looks_like_path(&UnixPaths, "/usr/bin/d8"));
    assert!(looks_like_path(&UnixPaths, "./d8"));
    assert!(looks_like_path(&UnixPaths, "../d8"));
    assert!(!looks_like_path(&UnixPaths, "d8"));
    assert!(!looks_like_path(&UnixPaths, "v8"));
    assert!(!looks_like_path(&UnixPaths, "spidermonkey"));
}

#[test]
fn classify_engine_recognises_wasmtime() {
    assert_eq!(classify_engine(&UnixPaths, b"/usr/bin/wasmtime"), EngineKind::Wasmtime);
    assert_eq!(
        classify_engine(&UnixPaths, b"/home/x/.cargo/bin/wasmtime"),
        EngineKind::Wasmtime
    );
    assert_eq!(classify_engine(&UnixPaths, b"/usr/bin/d8"), EngineKind::JsShell);
    assert_eq!(classify_engine(&UnixPaths, b"sm"), EngineKind::JsShell);
}

#[test]
fn classification_ignores_case_and_extension() {
    assert_eq!(classify_engine(&UnixPaths, b"/opt/WasmTime.EXE"), EngineKind::Wasmtime);
    assert_eq!(classify_engine(&UnixPaths, b"wasmtime.1"), EngineKind::Wasmtime);
    assert_eq!(classify_engine(&UnixPaths, b"/opt/wasmtime/"), EngineKind::Wasmtime);
    assert_eq!(classify_engine(&UnixPaths, b"/opt/wasmtime-32"), EngineKind::JsShell);
    assert_eq!(classify_engine(&UnixPaths, b"wasmtime.tar.gz"), EngineKind::JsShell);
    assert_eq!(classify_engine(&UnixPaths, b"/opt/wasmtime/d8"), EngineKind::JsShell);
    assert_eq!(classify_engine(&UnixPaths, b"/opt/\xff/wasmtime"), EngineKind::Wasmtime);
    assert_eq!(classify_engine(&UnixPaths, b""), EngineKind::JsShell);
    assert_eq!(classify_engine(&UnixPaths, b"/"), EngineKind::JsShell);
}

#[test]
fn looks_like_path_edge_cases() {
    assert!(looks_like_path(&UnixPaths, "."));
    assert!(looks_like_path(&UnixPaths, ".d8"));
    assert!(looks_like_path(&UnixPaths, "bin/d8"));
    assert!(looks_like_path(&UnixPaths, "d8/"));
    assert!(!looks_like_path(&UnixPaths, ""));
    assert!(!looks_like_path(&UnixPaths, "d8.sh"));
}

#[test]
fn known_engines_in_order() {
    assert_eq!(
        known_engines(),
        vec!["wasmtime", "d8", "v8", "sm", "spidermonkey", "js"]
    );
}

#[test]
fn executables_are_files_with_an_execute_bit() {
    let meta = |is_file: bool, mode: Option<u32>| Some(FileMeta { is_file, mode });
    assert!(is_executable(meta(true, Some(0o755))));
    assert!(is_executable(meta(true, Some(0o100))));
    assert!(is_executable(meta(true, Some(0o010))));
    assert!(is_executable(meta(true, Some(0o001))));
    assert!(!is_executable(meta(true, Some(0o666))));
    assert!(!is_executable(meta(false, Some(0o755))));
    assert!(is_executable(meta(true, None)));
    assert!(!is_executable(meta(false, None)));
    assert!(!is_executable(None));
}
