use wasm_harness::command::driver_script_path;
use wasm_harness::engine::{classify_engine, looks_like_path, EngineKind};
use wasm_harness::host_paths::{HostPaths, UnixPaths};
use wasm_harness::search::{engine_search_dirs, find_in};

/// A host whose paths have backslashes and may start with a drive, as in `C:x`.
struct Drives;

fn name_start(path: &[u8]) -> usize {
    path.iter()
        .rposition(|byte| [b'/', b'\\', b':'].contains(byte))
        .map_or(0, |at| at + 1)
}

impl HostPaths for Drives {
    fn separator(&self) -> char {
        '\\'
    }

    fn join(&self, dir: &[u8], name: &[u8]) -> Vec<u8> {
        let mut path = dir.to_vec();
        if name.contains(&b':') {
            path.clear();
        } else if name_start(dir) < dir.len() {
            path.push(b'\\');
        }
        path.extend_from_slice(name);
        path
    }

    fn file_stem(&self, path: &[u8]) -> Option<Vec<u8>> {
        let name = &path[name_start(path)..];
        let end = name.iter().position(|byte| *byte == b'.');
        Some(name[..end.unwrap_or(name.len())].to_vec())
    }

    fn parent(&self, path: &[u8]) -> Option<Vec<u8>> {
        Some(path[..name_start(path)].to_vec())
    }

    fn same_path(&self, a: &[u8], b: &[u8]) -> bool {
        a.eq_ignore_ascii_case(b)
    }
}

#[test]
fn separator_of_the_host_makes_a_path() {
    assert!(looks_like_path(&Drives, "a\\b"));
    assert!(looks_like_path(&Drives, "a/b"));
    assert!(looks_like_path(&Drives, ".d8"));
    assert!(!looks_like_path(&Drives, "C:d8"));
    assert!(!looks_like_path(&UnixPaths, "a\\b"));
}

#[test]
fn stem_of_the_host_makes_the_kind() {
    let path = b"C:\\bin\\wasmtime.exe";
    assert_eq!(classify_engine(&Drives, path), EngineKind::Wasmtime);
    assert_eq!(classify_engine(&UnixPaths, path), EngineKind::JsShell);
}

#[test]
fn joins_of_the_host_make_the_candidates() {
    let dirs = vec![b"C:\\bin".to_vec(), b"D:".to_vec()];
    assert_eq!(
        find_in(&Drives, &dirs, "d8"),
        vec![b"C:\\bin\\d8".to_vec(), b"D:d8".to_vec()]
    );
    assert_eq!(
        find_in(&Drives, &dirs, "E:d8"),
        vec![b"E:d8".to_vec(), b"E:d8".to_vec()]
    );
}

#[test]
fn parent_of_the_host_holds_the_driver() {
    assert_eq!(
        driver_script_path(&Drives, b"C:bench.wasm"),
        b"C:wasm-harness-driver.js"
    );
}

#[test]
fn equality_of_the_host_decides_on_the_jsvu_directory() {
    let listed = vec![b"c:\\x\\.JSVU\\bin".to_vec()];
    assert_eq!(engine_search_dirs(&Drives, listed.clone(), Some(b"C:\\x")), listed);
    assert_eq!(
        engine_search_dirs(&Drives, Vec::new(), Some(b"C:\\x")),
        vec![b"C:\\x\\.jsvu\\bin".to_vec()]
    );
}

#[test]
fn unix_rules() {
    assert_eq!(UnixPaths.separator(), '/');
    assert_eq!(UnixPaths.join(b"/a", b"b"), b"/a/b");
    assert_eq!(UnixPaths.file_stem(b"/a/b.c").unwrap(), b"b");
    assert_eq!(UnixPaths.parent(b"/a/b").unwrap(), b"/a");
    assert!(UnixPaths.parent(b"/").is_none());
    assert!(UnixPaths.same_path(b"/a//b", b"/a/b/"));
    assert!(!UnixPaths.same_path(b"/a", b"/A"));
}
