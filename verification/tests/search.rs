use wasm_harness::engine::EngineKind;
use wasm_harness::search::{
    engine_search_dirs, find_in, jsvu_bin_dir, resolve_engine, EngineSearch, ResolveError,
    SearchStep,
};
use wasm_harness::host_paths::UnixPaths;

fn paths(texts: &[&str]) -> Vec<Vec<u8>> {
    texts.iter().map(|text| text.as_bytes().to_vec()).collect()
}

/// Runs a search on a host with the given executables, and notes what it probed.
fn run(
    mut search: EngineSearch,
    executables: &[&str],
) -> (Result<(String, EngineKind), ResolveError>, Vec<String>) {
    let mut probed = Vec::new();
    loop {
        let answer = match search.step(&UnixPaths) {
            SearchStep::Probe(path) => {
                let path = String::from_utf8(path.to_vec()).unwrap();
                probed.push(path.clone());
                executables.contains(&path.as_str())
            }
            SearchStep::Resolved(path, kind) => {
                let path = String::from_utf8(path.to_vec()).unwrap();
                return (Ok((path, kind)), probed);
            }
            SearchStep::Failed(error) => return (Err(error), probed),
        };
        search.observe(answer);
    }
}

#[test]
fn requested_path_is_used_verbatim() {
    let dirs = paths(&["/usr/bin"]);
    let (found, probed) = run(resolve_engine(&UnixPaths, Some("./d8"), &dirs), &["./d8", "/usr/bin/d8"]);
    assert_eq!(found, Ok(("./d8".to_string(), EngineKind::JsShell)));
    assert_eq!(probed, ["./d8"]);
}

#[test]
fn requested_path_must_be_executable() {
    let dirs = paths(&["/usr/bin"]);
    let (found, probed) = run(resolve_engine(&UnixPaths, Some("/opt/d8"), &dirs), &["/usr/bin/d8"]);
    assert_eq!(found, Err(ResolveError::NotExecutable));
    assert_eq!(probed, ["/opt/d8"]);
}

#[test]
fn requested_name_is_looked_up_in_order() {
    let dirs = paths(&["/a", "/b/", "/c"]);
    let (found, probed) = run(resolve_engine(&UnixPaths, Some("sm"), &dirs), &["/b/sm", "/c/sm", "/a/d8"]);
    assert_eq!(found, Ok(("/b/sm".to_string(), EngineKind::JsShell)));
    assert_eq!(probed, ["/a/sm", "/b/sm"]);
}

#[test]
fn requested_name_does_not_fall_back() {
    let dirs = paths(&["/a"]);
    let (found, probed) = run(resolve_engine(&UnixPaths, Some("sm"), &dirs), &["/a/wasmtime", "/a/d8"]);
    assert_eq!(found, Err(ResolveError::NotFound));
    assert_eq!(probed, ["/a/sm"]);
}

#[test]
fn request_beats_auto_search() {
    let dirs = paths(&["/a"]);
    let (found, _) = run(resolve_engine(&UnixPaths, Some("d8"), &dirs), &["/a/wasmtime", "/a/d8"]);
    assert_eq!(found, Ok(("/a/d8".to_string(), EngineKind::JsShell)));
}

#[test]
fn auto_search_prefers_names_over_directories() {
    let dirs = paths(&["/a", "/b"]);
    let (found, probed) = run(
        resolve_engine(&UnixPaths, None, &dirs),
        &["/a/js", "/a/v8", "/b/d8", "/a/sm"],
    );
    assert_eq!(found, Ok(("/b/d8".to_string(), EngineKind::JsShell)));
    assert_eq!(probed, ["/a/wasmtime", "/b/wasmtime", "/a/d8", "/b/d8"]);

    let (found, _) = run(resolve_engine(&UnixPaths, None, &dirs), &["/a/d8", "/b/wasmtime"]);
    assert_eq!(found, Ok(("/b/wasmtime".to_string(), EngineKind::Wasmtime)));
}

#[test]
fn auto_search_fails_without_engines() {
    let dirs = paths(&["/a", "/b"]);
    let (found, probed) = run(resolve_engine(&UnixPaths, None, &dirs), &["/a/node"]);
    assert_eq!(found, Err(ResolveError::NoEngine));
    assert_eq!(probed.len(), 12);

    let (found, probed) = run(resolve_engine(&UnixPaths, None, &Vec::new()), &["wasmtime"]);
    assert_eq!(found, Err(ResolveError::NoEngine));
    assert!(probed.is_empty());
}

#[test]
fn candidates_follow_the_directories() {
    let dirs = paths(&["/a", "", "/b/"]);
    assert_eq!(find_in(&UnixPaths, &dirs, "js"), paths(&["/a/js", "js", "/b/js"]));
}

#[test]
fn jsvu_directory_is_below_home() {
    assert_eq!(jsvu_bin_dir(&UnixPaths, Some(b"/home/x")).unwrap(), b"/home/x/.jsvu/bin");
    assert_eq!(jsvu_bin_dir(&UnixPaths, Some(b"/home/x/")).unwrap(), b"/home/x/.jsvu/bin");
    assert_eq!(jsvu_bin_dir(&UnixPaths, Some(b"")).unwrap(), b".jsvu/bin");
    assert!(jsvu_bin_dir(&UnixPaths, None).is_none());
}

#[test]
fn jsvu_directory_comes_last() {
    assert_eq!(
        engine_search_dirs(&UnixPaths, paths(&["/usr/bin", "/bin"]), Some(b"/home/x")),
        paths(&["/usr/bin", "/bin", "/home/x/.jsvu/bin"])
    );
    assert_eq!(
        engine_search_dirs(&UnixPaths, Vec::new(), Some(b"/home/x")),
        paths(&["/home/x/.jsvu/bin"])
    );
}

#[test]
fn jsvu_directory_is_not_repeated() {
    let dirs = paths(&["/home/x//.jsvu/./bin/", "/bin"]);
    assert_eq!(engine_search_dirs(&UnixPaths, dirs.clone(), Some(b"/home/x")), dirs);
    assert_eq!(engine_search_dirs(&UnixPaths, dirs.clone(), None), dirs);
}
