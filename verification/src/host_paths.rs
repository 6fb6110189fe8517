//! The path rules of the host that the runner runs on.
//!
//! What separates components, and what the parts of a path are, differs from host to
//! host. The decisions of this library take the host's rules as an argument and hold
//! for any. Those of Unix are [`UnixPaths`].

use crate::paths::{
    components, file_stem, join, parent, path_eq, path_file_stem, path_join, path_parent,
};
use crate::text::{copy_bytes, optional_view};
use vstd::prelude::*;

verus! {

/// The path rules of a host. Paths are byte strings, in the host's own encoding and
/// with the host's own separators.
///
/// The specification functions name what the host answers. Nothing is claimed of the
/// answers here but that they depend on the arguments alone.
pub trait HostPaths: Sized {
    /// The separator that the host writes between components.
    closed spec fn separator_spec(&self) -> char {
        vstd::pervasive::arbitrary()
    }

    /// `dir` extended by `name`, or what takes its place.
    closed spec fn join_spec(&self, dir: Seq<u8>, name: Seq<u8>) -> Seq<u8> {
        vstd::pervasive::arbitrary()
    }

    /// The file name of a path without its extension.
    closed spec fn file_stem_spec(&self, path: Seq<u8>) -> Option<Seq<u8>> {
        vstd::pervasive::arbitrary()
    }

    /// The path without its last component.
    closed spec fn parent_spec(&self, path: Seq<u8>) -> Option<Seq<u8>> {
        vstd::pervasive::arbitrary()
    }

    /// The two paths have the same components.
    closed spec fn same_path_spec(&self, a: Seq<u8>, b: Seq<u8>) -> bool {
        vstd::pervasive::arbitrary()
    }

    /// The separator that the host writes between components.
    fn separator(&self) -> (res: char)
        ensures
            res == self.separator_spec(),
    ;

    /// `dir` extended by `name`, or what takes its place.
    fn join(&self, dir: &[u8], name: &[u8]) -> (res: Vec<u8>)
        ensures
            res@ == self.join_spec(dir@, name@),
    ;

    /// The file name of a path without its extension.
    fn file_stem(&self, path: &[u8]) -> (res: Option<Vec<u8>>)
        ensures
            optional_view(res) == self.file_stem_spec(path@),
    ;

    /// The path without its last component.
    fn parent(&self, path: &[u8]) -> (res: Option<Vec<u8>>)
        ensures
            optional_view(res) == self.parent_spec(path@),
    ;

    /// Whether two paths have the same components.
    fn same_path(&self, a: &[u8], b: &[u8]) -> (res: bool)
        ensures
            res == self.same_path_spec(a@, b@),
    ;
}

/// The path rules of Unix: components are separated by slashes, and any other byte can
/// stand in them.
#[derive(Debug, Clone, Copy)]
pub struct UnixPaths;

impl HostPaths for UnixPaths {
    open spec fn separator_spec(&self) -> char {
        '/'
    }

    open spec fn join_spec(&self, dir: Seq<u8>, name: Seq<u8>) -> Seq<u8> {
        join(dir, name)
    }

    open spec fn file_stem_spec(&self, path: Seq<u8>) -> Option<Seq<u8>> {
        file_stem(path)
    }

    open spec fn parent_spec(&self, path: Seq<u8>) -> Option<Seq<u8>> {
        parent(path)
    }

    open spec fn same_path_spec(&self, a: Seq<u8>, b: Seq<u8>) -> bool {
        components(a) == components(b)
    }

    fn separator(&self) -> (res: char) {
        '/'
    }

    fn join(&self, dir: &[u8], name: &[u8]) -> (res: Vec<u8>) {
        path_join(dir, name)
    }

    fn file_stem(&self, path: &[u8]) -> (res: Option<Vec<u8>>) {
        match path_file_stem(path) {
            Some(stem) => Some(copy_bytes(stem)),
            None => None,
        }
    }

    fn parent(&self, path: &[u8]) -> (res: Option<Vec<u8>>) {
        match path_parent(path) {
            Some(dir) => Some(copy_bytes(dir)),
            None => None,
        }
    }

    fn same_path(&self, a: &[u8], b: &[u8]) -> (res: bool) {
        path_eq(a, b)
    }
}

/// On Unix the separator is the slash, and the parts of a path are those of
/// [`crate::paths`].
pub proof fn lemma_unix_rules(a: Seq<u8>, b: Seq<u8>)
    ensures
        UnixPaths.separator_spec() == '/',
        UnixPaths.join_spec(a, b) == join(a, b),
        UnixPaths.file_stem_spec(a) == file_stem(a),
        UnixPaths.parent_spec(a) == parent(a),
        UnixPaths.same_path_spec(a, b) <==> components(a) == components(b),
{
}

} // verus!
