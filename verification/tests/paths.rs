use std::path::Path;
use wasm_harness::paths::{path_eq, path_file_name, path_file_stem, path_join, path_parent};

/// All texts of up to `len` characters out of a slash, a dot and a letter.
fn texts(len: usize) -> Vec<String> {
    let mut all = vec![String::new()];
    let mut last = vec![String::new()];
    for _ in 0..len {
        let mut next = Vec::new();
        for text in &last {
            for c in ['/', '.', 'a'] {
                next.push(format!("{}{}", text, c));
            }
        }
        all.extend(next.iter().cloned());
        last = next;
    }
    all
}

#[test]
fn file_names_and_stems_agree_with_std() {
    for text in texts(7) {
        let path = Path::new(&text);
        let name = path.file_name().map(|n| n.to_str().unwrap().as_bytes());
        let stem = path.file_stem().map(|n| n.to_str().unwrap().as_bytes());
        assert_eq!(path_file_name(text.as_bytes()), name, "{}", text);
        assert_eq!(path_file_stem(text.as_bytes()), stem, "{}", text);
    }
}

#[test]
fn parents_agree_with_std() {
    for text in texts(7) {
        let parent = Path::new(&text)
            .parent()
            .map(|p| p.to_str().unwrap().as_bytes());
        assert_eq!(path_parent(text.as_bytes()), parent, "{}", text);
    }
}

#[test]
fn joins_and_equality_agree_with_std() {
    for a in texts(4) {
        for b in texts(4) {
            let joined = Path::new(&a).join(&b);
            assert_eq!(
                path_join(a.as_bytes(), b.as_bytes()),
                joined.to_str().unwrap().as_bytes(),
                "{} {}",
                a,
                b
            );
            assert_eq!(
                path_eq(a.as_bytes(), b.as_bytes()),
                Path::new(&a) == Path::new(&b),
                "{} {}",
                a,
                b
            );
        }
    }
}

#[test]
fn stems_of_usual_names() {
    assert_eq!(path_file_stem(b"/usr/bin/wasmtime"), Some(&b"wasmtime"[..]));
    assert_eq!(path_file_stem(b"wasmtime.exe"), Some(&b"wasmtime"[..]));
    assert_eq!(path_file_stem(b"a.tar.gz"), Some(&b"a.tar"[..]));
    assert_eq!(path_file_stem(b".profile"), Some(&b".profile"[..]));
    assert_eq!(path_file_stem(b"bin/.."), None);
    assert_eq!(path_file_stem(b"/"), None);
}

#[test]
fn joined_name_is_the_last_component() {
    for dir in [&b""[..], b"/", b"/opt/bin", b"/opt/bin/", b"./x/."] {
        let path = path_join(dir, b"d8");
        assert_eq!(path_file_name(&path), Some(&b"d8"[..]));
        assert!(path_eq(path_parent(&path).unwrap(), dir));
    }
}

#[test]
fn paths_need_not_be_text() {
    assert_eq!(path_join(b"/x\xff", b"d8"), b"/x\xff/d8");
    assert_eq!(path_file_stem(b"/x\xff/d\xfe.exe"), Some(&b"d\xfe"[..]));
    assert!(path_eq(b"/x\xff//d8/", b"/x\xff/./d8"));
}
