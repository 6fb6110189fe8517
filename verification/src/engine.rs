//! The engines: their names, their kinds, and what a request for one looks like.

use crate::host_paths::{HostPaths, UnixPaths};
use crate::paths::{is_plain_name, join, lemma_join_plain_name, lemma_last_dot, stem, DOT, SLASH};
use crate::text::{
    bytes_eq_ignore_case, each_view, equal_ignoring_case, lemma_equal_ignoring_case, starts_with,
};
use vstd::prelude::*;
use vstd::utf8::{encode_utf8, is_ascii_chars_encode_utf8};

verus! {

/// How an engine is driven: a JavaScript shell goes through the bundled driver
/// script, `wasmtime` runs the wasm file directly.
#[derive(Debug, Clone, Copy, PartialEq, Eq, Structural)]
pub enum EngineKind {
    JsShell,
    Wasmtime,
}

/// The kind of the engine at `path`: `wasmtime`, in any case and with any extension,
/// or else a JavaScript shell.
pub open spec fn engine_kind<H: HostPaths>(host: H, path: Seq<u8>) -> EngineKind {
    match host.file_stem_spec(path) {
        Some(stem) => if equal_ignoring_case(stem, encode_utf8("wasmtime"@)) {
            EngineKind::Wasmtime
        } else {
            EngineKind::JsShell
        },
        None => EngineKind::JsShell,
    }
}

/// Classifies a resolved engine by the stem of its file name. Whatever is not
/// recognised as `wasmtime` is taken for a JavaScript shell.
pub fn classify_engine<H: HostPaths>(host: &H, path: &[u8]) -> (res: EngineKind)
    ensures
        res == engine_kind(*host, path@),
        res == EngineKind::Wasmtime <==> {
            &&& host.file_stem_spec(path@) matches Some(stem)
            &&& stem.len() == 8
            &&& stem[0] == 0x77 || stem[0] == 0x57
            &&& stem[1] == 0x61 || stem[1] == 0x41
            &&& stem[2] == 0x73 || stem[2] == 0x53
            &&& stem[3] == 0x6d || stem[3] == 0x4d
            &&& stem[4] == 0x74 || stem[4] == 0x54
            &&& stem[5] == 0x69 || stem[5] == 0x49
            &&& stem[6] == 0x6d || stem[6] == 0x4d
            &&& stem[7] == 0x65 || stem[7] == 0x45
        },
{
    proof {
        lemma_wasmtime_stems(*host, path@);
    }
    match host.file_stem(path) {
        Some(stem) => if bytes_eq_ignore_case(stem.as_slice(), "wasmtime".as_bytes()) {
            EngineKind::Wasmtime
        } else {
            EngineKind::JsShell
        },
        None => EngineKind::JsShell,
    }
}

/// An engine is driven as `wasmtime` just where the stem of its file name has the eight
/// letters of that name, each small or capital. A stem with any other byte in it, or of
/// any other length, makes a JavaScript shell.
pub proof fn lemma_wasmtime_stems<H: HostPaths>(host: H, path: Seq<u8>)
    ensures
        engine_kind(host, path) == EngineKind::Wasmtime <==> {
            &&& host.file_stem_spec(path) matches Some(stem)
            &&& stem.len() == 8
            &&& stem[0] == 0x77 || stem[0] == 0x57
            &&& stem[1] == 0x61 || stem[1] == 0x41
            &&& stem[2] == 0x73 || stem[2] == 0x53
            &&& stem[3] == 0x6d || stem[3] == 0x4d
            &&& stem[4] == 0x74 || stem[4] == 0x54
            &&& stem[5] == 0x69 || stem[5] == 0x49
            &&& stem[6] == 0x6d || stem[6] == 0x4d
            &&& stem[7] == 0x65 || stem[7] == 0x45
        },
{
    reveal_strlit("wasmtime");
    is_ascii_chars_encode_utf8("wasmtime"@);
    let name = encode_utf8("wasmtime"@);
    assert(name =~= seq![0x77u8, 0x61, 0x73, 0x6d, 0x74, 0x69, 0x6d, 0x65]) by {
        assert("wasmtime"@.len() == 8);
        assert forall|i: int| 0 <= i < 8 implies name[i] == "wasmtime"@[i] as u8 by {}
    }
    if let Some(stem) = host.file_stem_spec(path) {
        lemma_equal_ignoring_case(stem, name);
        if equal_ignoring_case(stem, name) {
            assert(stem[0] == name[0] || stem[0] + 0x20 == name[0]);
            assert(stem[1] == name[1] || stem[1] + 0x20 == name[1]);
            assert(stem[2] == name[2] || stem[2] + 0x20 == name[2]);
            assert(stem[3] == name[3] || stem[3] + 0x20 == name[3]);
            assert(stem[4] == name[4] || stem[4] + 0x20 == name[4]);
            assert(stem[5] == name[5] || stem[5] + 0x20 == name[5]);
            assert(stem[6] == name[6] || stem[6] + 0x20 == name[6]);
            assert(stem[7] == name[7] || stem[7] + 0x20 == name[7]);
        }
    }
}

/// A request that names a path rather than an engine.
pub open spec fn is_path_like<H: HostPaths>(host: H, request: Seq<char>) -> bool {
    ||| request.contains(host.separator_spec())
    ||| request.contains('/')
    ||| "."@.is_prefix_of(request)
}

/// A request names a path just where one of its characters, wherever it stands, is a
/// slash or the host's separator, or where the first one is a dot.
pub proof fn lemma_path_like_requests<H: HostPaths>(host: H, request: Seq<char>)
    ensures
        is_path_like(host, request) <==> {
            ||| exists|i: int|
                0 <= i < request.len() && (#[trigger] request[i] == '/' || request[i]
                    == host.separator_spec())
            ||| request.len() > 0 && request[0] == '.'
        },
{
    reveal_strlit(".");
    if "."@.is_prefix_of(request) {
        assert(request.take(1)[0] == '.');
    }
    if request.len() > 0 && request[0] == '.' {
        assert("."@ =~= request.subrange(0, 1));
    }
    assert forall|i: int| 0 <= i < request.len() && (#[trigger] request[i] == '/' || request[i]
        == host.separator_spec()) implies is_path_like(host, request) by {
        assert(request.contains(request[i]));
    }
}

/// Whether a request names a path: it holds the host's separator or a slash, or starts
/// with a dot.
pub fn looks_like_path<H: HostPaths>(host: &H, s: &str) -> (res: bool)
    ensures
        res == is_path_like(*host, s@),
        res <==> {
            ||| exists|i: int|
                0 <= i < s@.len() && (#[trigger] s@[i] == '/' || s@[i] == host.separator_spec())
            ||| s@.len() > 0 && s@[0] == '.'
        },
{
    proof {
        lemma_path_like_requests(*host, s@);
    }
    let separator = host.separator();
    let len: usize = s.unicode_len();
    for i in 0..len
        invariant
            len == s@.len(),
            separator == host.separator_spec(),
            forall|j: int| 0 <= j < i ==> s@[j] != '/' && s@[j] != separator,
    {
        let c = s.get_char(i);
        if c == separator || c == '/' {
            assert(s@.contains(s@[i as int]));
            return true;
        }
    }
    starts_with(s, ".")
}

/// The names of the known engines, the preferred ones first. `js` is last because
/// other programs go by that name too.
pub open spec fn engine_names() -> Seq<Seq<char>> {
    seq!["wasmtime"@, "d8"@, "v8"@, "sm"@, "spidermonkey"@, "js"@]
}

/// The names of the known engines, the preferred ones first.
pub fn known_engines() -> (res: Vec<&'static str>)
    ensures
        each_view(res@) == engine_names(),
        res@.len() == 6,
        res@[0]@ == "wasmtime"@,
        res@[1]@ == "d8"@,
        res@[2]@ == "v8"@,
        res@[3]@ == "sm"@,
        res@[4]@ == "spidermonkey"@,
        res@[5]@ == "js"@,
{
    let res = vec!["wasmtime", "d8", "v8", "sm", "spidermonkey", "js"];
    assert(each_view(res@) =~= engine_names());
    res
}

/// The known engines are these six, in this order.
pub proof fn lemma_engine_names()
    ensures
        engine_names().len() == 6,
        engine_names()[0] == "wasmtime"@,
        engine_names()[1] == "d8"@,
        engine_names()[2] == "v8"@,
        engine_names()[3] == "sm"@,
        engine_names()[4] == "spidermonkey"@,
        engine_names()[5] == "js"@,
{
}

/// What the host says of a file that exists.
pub struct FileMeta {
    pub is_file: bool,
    /// The permission bits, on hosts that have them.
    pub mode: Option<u32>,
}

/// Whether there is a file that can be executed: a regular file for which some
/// execute permission is set, on hosts that have permissions.
pub fn is_executable(meta: Option<FileMeta>) -> (res: bool)
    ensures
        res <==> {
            &&& meta is Some
            &&& meta->0.is_file
            &&& meta->0.mode matches Some(mode) ==> mode & 0o111 != 0
        },
{
    match meta {
        Some(meta) => meta.is_file && match meta.mode {
            Some(mode) => mode & 0o111 != 0,
            None => true,
        },
        None => false,
    }
}

/// On Unix the kind of an engine goes by its file name, not by the directory that it is
/// in.
pub proof fn lemma_kind_ignores_directory(dir: Seq<u8>, other: Seq<u8>, name: Seq<u8>)
    requires
        is_plain_name(name),
    ensures
        engine_kind(UnixPaths, join(dir, name)) == engine_kind(UnixPaths, join(other, name)),
{
    lemma_join_plain_name(dir, name);
    lemma_join_plain_name(other, name);
}

/// Wherever on Unix an engine is found under one of the known names, it is driven as
/// `wasmtime` just where that is its name.
pub proof fn lemma_known_engine_kinds(dir: Seq<u8>, k: int)
    requires
        0 <= k < engine_names().len(),
    ensures
        engine_kind(UnixPaths, join(dir, encode_utf8(engine_names()[k]))) == if engine_names()[k]
            == "wasmtime"@ {
            EngineKind::Wasmtime
        } else {
            EngineKind::JsShell
        },
{
    reveal_strlit("wasmtime");
    reveal_strlit("d8");
    reveal_strlit("v8");
    reveal_strlit("sm");
    reveal_strlit("spidermonkey");
    reveal_strlit("js");
    let chars = engine_names()[k];
    let name = encode_utf8(chars);
    is_ascii_chars_encode_utf8(chars);
    is_ascii_chars_encode_utf8("wasmtime"@);
    assert forall|i: int| 0 <= i < name.len() implies name[i] != SLASH && name[i] != DOT by {
        assert(chars[i] != '/' && chars[i] != '.');
    }
    assert(is_plain_name(name));
    lemma_join_plain_name(dir, name);
    lemma_last_dot(name);
    assert(stem(name) == name);
}

} // verus!
