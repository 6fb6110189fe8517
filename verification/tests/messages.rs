use wasm_harness::messages::{
    driver_context, error_message, known_engine_list, not_found_message, request_context,
    spawn_context,
};
use wasm_harness::search::ResolveError;

#[test]
fn unknown_name_lists_the_known_engines() {
    assert_eq!(
        error_message(ResolveError::NotFound, "nope"),
        "\"nope\" not found on $PATH or in ~/.jsvu/bin/. \
         Known engine names: wasmtime, d8, v8, sm, spidermonkey, js."
    );
    assert_eq!(
        not_found_message("<x>"),
        "<x> not found on $PATH or in ~/.jsvu/bin/. \
         Known engine names: wasmtime, d8, v8, sm, spidermonkey, js."
    );
}

#[test]
fn unknown_name_is_escaped() {
    let name = "a\"b\n\u{7f}";
    let expected = format!("{:?} not found", name);
    assert!(error_message(ResolveError::NotFound, name).starts_with(&expected));
    assert!(expected.contains("\\n"));
}

#[test]
fn path_that_is_not_executable() {
    assert_eq!(
        error_message(ResolveError::NotExecutable, "./d8"),
        "./d8 is not an executable file"
    );
}

#[test]
fn no_engine_at_all() {
    let expected = "no engine found on $PATH or in ~/.jsvu/bin/. Install wasmtime, \
         or install jsvu (https://github.com/GoogleChromeLabs/jsvu) and \
         run `jsvu`, or pass --engine <path-or-name>.";
    assert_eq!(error_message(ResolveError::NoEngine, ""), expected);
    assert_eq!(error_message(ResolveError::NoEngine, "d8"), expected);
}

#[test]
fn request_is_quoted_in_the_context() {
    assert_eq!(request_context("d8"), "resolving engine \"d8\"");
    assert_eq!(request_context("a\tb"), "resolving engine \"a\\tb\"");
}

#[test]
fn known_engines_as_a_list() {
    assert_eq!(known_engine_list(), "wasmtime, d8, v8, sm, spidermonkey, js");
}

#[test]
fn contexts_name_the_path() {
    assert_eq!(
        driver_context("/tmp/wasm-harness-driver.js"),
        "writing driver script to /tmp/wasm-harness-driver.js"
    );
    assert_eq!(
        spawn_context("/usr/bin/d8"),
        "failed to spawn engine at /usr/bin/d8"
    );
}
