//! Unix paths as byte strings.
//!
//! A path is a sequence of components. Repeated and trailing slashes separate
//! nothing, and a `.` component counts only at the front of a relative path.

use crate::text::{bytes_eq, optional_view, push_bytes};
use vstd::prelude::*;
use vstd::slice::slice_subrange;

verus! {

/// The byte that separates components, and that starts an absolute path.
pub const SLASH: u8 = 0x2f;

/// The byte before a file name's extension.
pub const DOT: u8 = 0x2e;

/// `path` without what stands behind its last component: trailing slashes, and `.`
/// components that do not stand at the front.
pub open spec fn trimmed(path: Seq<u8>) -> Seq<u8>
    decreases path.len(),
{
    if path.len() <= 1 {
        path
    } else if path.last() == SLASH {
        trimmed(path.drop_last())
    } else if path.last() == DOT && path[path.len() - 2] == SLASH {
        trimmed(path.drop_last())
    } else {
        path
    }
}

/// Where the text behind the last slash starts.
pub open spec fn segment_start(path: Seq<u8>) -> int
    decreases path.len(),
{
    if path.len() == 0 || path.last() == SLASH {
        path.len() as int
    } else {
        segment_start(path.drop_last())
    }
}

/// The text behind the last slash.
pub open spec fn last_segment(path: Seq<u8>) -> Seq<u8> {
    path.skip(segment_start(path))
}

/// Trimming cuts bytes off the end only, and leaves no trailing slash but the root's.
pub proof fn lemma_trimmed(path: Seq<u8>)
    ensures
        trimmed(path).len() <= path.len(),
        trimmed(path) == path.take(trimmed(path).len() as int),
        trimmed(trimmed(path)) == trimmed(path),
        trimmed(path).len() > 1 ==> trimmed(path).last() != SLASH,
        path.len() > 0 ==> trimmed(path).len() > 0,
    decreases path.len(),
{
    if path.len() > 1 && (path.last() == SLASH || (path.last() == DOT && path[path.len() - 2]
        == SLASH)) {
        lemma_trimmed(path.drop_last());
        assert(trimmed(path) =~= path.take(trimmed(path).len() as int));
    } else {
        assert(path =~= path.take(path.len() as int));
    }
}

/// The last segment holds no slash, and a slash stands before it unless it is the
/// whole path.
pub proof fn lemma_last_segment(path: Seq<u8>)
    ensures
        0 <= segment_start(path) <= path.len(),
        forall|i: int| segment_start(path) <= i < path.len() ==> path[i] != SLASH,
        segment_start(path) > 0 ==> path[segment_start(path) - 1] == SLASH,
        !last_segment(path).contains(SLASH),
    decreases path.len(),
{
    let start = segment_start(path);
    if path.len() > 0 && path.last() != SLASH {
        lemma_last_segment(path.drop_last());
        assert forall|i: int| start <= i < path.len() implies path[i] != SLASH by {
            if i < path.len() - 1 {
                assert(path.drop_last()[i] == path[i]);
            }
        }
    }
    assert forall|i: int| 0 <= i < last_segment(path).len() implies last_segment(path)[i]
        != SLASH by {
        assert(last_segment(path)[i] == path[start + i]);
    }
}

/// The components of a path, in order, with a single slash for the root.
pub open spec fn components(path: Seq<u8>) -> Seq<Seq<u8>>
    decreases path.len(),
{
    let text = trimmed(path);
    let start = segment_start(text);
    if text.len() == 0 {
        Seq::empty()
    } else if start == text.len() {
        seq![seq![SLASH]]
    } else {
        proof {
            lemma_trimmed(path);
            lemma_last_segment(text);
        }
        components(text.take(start)).push(last_segment(text))
    }
}

/// The last component, where that is a name: not the root, `.` or `..`.
pub open spec fn file_name(path: Seq<u8>) -> Option<Seq<u8>> {
    let name = last_segment(trimmed(path));
    if name.len() == 0 || name == seq![DOT] || name == seq![DOT, DOT] {
        None
    } else {
        Some(name)
    }
}

/// Where the last dot of a file name stands, or -1.
pub open spec fn last_dot(name: Seq<u8>) -> int
    decreases name.len(),
{
    if name.len() == 0 || name.last() == DOT {
        name.len() - 1
    } else {
        last_dot(name.drop_last())
    }
}

/// The last dot is a dot, and none comes behind it.
pub proof fn lemma_last_dot(name: Seq<u8>)
    ensures
        -1 <= last_dot(name) < name.len(),
        last_dot(name) >= 0 ==> name[last_dot(name)] == DOT,
        forall|i: int| last_dot(name) < i < name.len() ==> name[i] != DOT,
    decreases name.len(),
{
    if name.len() > 0 && name.last() != DOT {
        lemma_last_dot(name.drop_last());
        assert forall|i: int| last_dot(name) < i < name.len() implies name[i] != DOT by {
            if i < name.len() - 1 {
                assert(name.drop_last()[i] == name[i]);
            }
        }
    }
}

/// A file name without its extension: what stands before the last dot, or all of it
/// where there is no dot or where the only dot comes first.
pub open spec fn stem(name: Seq<u8>) -> Seq<u8> {
    if last_dot(name) <= 0 {
        name
    } else {
        name.take(last_dot(name))
    }
}

/// The file name of a path without its extension.
pub open spec fn file_stem(path: Seq<u8>) -> Option<Seq<u8>> {
    match file_name(path) {
        Some(name) => Some(stem(name)),
        None => None,
    }
}

/// The path without its last component. The root and the empty path have no parent.
pub open spec fn parent(path: Seq<u8>) -> Option<Seq<u8>> {
    let text = trimmed(path);
    if segment_start(text) == text.len() {
        None
    } else {
        Some(trimmed(text.take(segment_start(text))))
    }
}

/// `dir` extended by the relative path `name`, or `name` itself where it is
/// absolute.
pub open spec fn join(dir: Seq<u8>, name: Seq<u8>) -> Seq<u8> {
    if name.len() > 0 && name[0] == SLASH {
        name
    } else if dir.len() == 0 || dir.last() == SLASH {
        dir + name
    } else {
        dir + seq![SLASH] + name
    }
}

/// A name that can stand for one component of its own.
pub open spec fn is_plain_name(name: Seq<u8>) -> bool {
    &&& name.len() > 0
    &&& !name.contains(SLASH)
    &&& name != seq![DOT]
    &&& name != seq![DOT, DOT]
}

proof fn lemma_segment_start_of(head: Seq<u8>, name: Seq<u8>)
    requires
        head.len() == 0 || head.last() == SLASH,
        !name.contains(SLASH),
    ensures
        segment_start(head + name) == head.len(),
    decreases name.len(),
{
    if name.len() == 0 {
        assert(head + name =~= head);
    } else {
        let rest = name.drop_last();
        assert(name.contains(name.last()));
        assert forall|i: int| 0 <= i < rest.len() implies rest[i] != SLASH by {
            assert(name.contains(name[i]));
        }
        assert((head + name).drop_last() =~= head + rest);
        lemma_segment_start_of(head, rest);
    }
}

/// Joining a plain name to a directory adds it as one more component: it is the file
/// name of the joined path, and the parent is the directory again.
pub proof fn lemma_join_plain_name(dir: Seq<u8>, name: Seq<u8>)
    requires
        is_plain_name(name),
    ensures
        file_name(join(dir, name)) == Some(name),
        parent(join(dir, name)) == Some(trimmed(dir)),
        components(join(dir, name)) == components(dir).push(name),
{
    let head = if dir.len() == 0 || dir.last() == SLASH {
        dir
    } else {
        dir + seq![SLASH]
    };
    let path = join(dir, name);
    assert(name.contains(name[0]) && name.contains(name.last()));
    assert(path =~= head + name);
    assert(head.len() == 0 || head.last() == SLASH);
    assert(trimmed(path) == path) by {
        if name.len() == 1 {
            assert(name.last() == DOT ==> name =~= seq![DOT]);
        } else {
            assert(name.contains(name[name.len() - 2]));
        }
    }
    lemma_segment_start_of(head, name);
    assert(path.skip(head.len() as int) =~= name);
    assert(path.take(head.len() as int) =~= head);
    assert(trimmed(head) == trimmed(dir)) by {
        if head != dir {
            assert(head.drop_last() =~= dir);
        }
    }
    lemma_components_of_trimmed(head, dir);
}

/// What trimming cuts off makes no component.
proof fn lemma_components_of_trimmed(a: Seq<u8>, b: Seq<u8>)
    requires
        trimmed(a) == trimmed(b),
    ensures
        components(a) == components(b),
{
}

/// Trimming keeps the first `n` bytes just where all behind them are slashes, and dots
/// that follow one, and where the byte before is neither. A path that has a first byte
/// keeps it.
pub proof fn lemma_trimmed_keeps(path: Seq<u8>, n: int)
    requires
        0 <= n <= path.len(),
        path.len() > 0 ==> n > 0,
        forall|i: int|
            n <= i < path.len() ==> #[trigger] path[i] == 0x2f || path[i] == 0x2e && path[i - 1]
                == 0x2f,
        n > 1 ==> path[n - 1] != 0x2f && (path[n - 1] != 0x2e || path[n - 2] != 0x2f),
    ensures
        trimmed(path) == path.take(n),
    decreases path.len(),
{
    if n == path.len() {
        assert(path.take(n) =~= path);
    } else {
        let init = path.drop_last();
        assert(path[path.len() - 1] == path.last());
        assert forall|i: int| n <= i < init.len() implies #[trigger] init[i] == 0x2f || init[i]
            == 0x2e && init[i - 1] == 0x2f by {
            assert(init[i] == path[i]);
        }
        lemma_trimmed_keeps(init, n);
        assert(init.take(n) =~= path.take(n));
    }
}

/// A path whose last component stands from `a` up to `b` has that component as its file
/// name, unless it is `.` or `..`, and what stands before it as its parent. Its
/// components are those of what stands before, and that one.
pub proof fn lemma_last_component(path: Seq<u8>, a: int, b: int)
    requires
        0 <= a < b <= path.len(),
        a > 0 ==> path[a - 1] == 0x2f,
        forall|i: int| a <= i < b ==> #[trigger] path[i] != 0x2f,
        forall|i: int|
            b <= i < path.len() ==> #[trigger] path[i] == 0x2f || path[i] == 0x2e && path[i - 1]
                == 0x2f,
        a > 0 ==> path.subrange(a, b) != seq![0x2eu8],
    ensures
        file_name(path) == if path.subrange(a, b) == seq![0x2eu8] || path.subrange(a, b) == seq![
            0x2eu8,
            0x2e,
        ] {
            None
        } else {
            Some(path.subrange(a, b))
        },
        parent(path) == Some(trimmed(path.take(a))),
        components(path) == components(path.take(a)).push(path.subrange(a, b)),
{
    let head = path.take(a);
    let name = path.subrange(a, b);
    let text = path.take(b);
    if b > 1 && path[b - 1] == 0x2e && path[b - 2] == 0x2f {
        assert(a == b - 1);
        assert(name =~= seq![0x2eu8]);
    }
    lemma_trimmed_keeps(path, b);
    assert forall|i: int| 0 <= i < name.len() implies name[i] != SLASH by {
        assert(name[i] == path[a + i]);
    }
    assert(head + name =~= text);
    lemma_segment_start_of(head, name);
    assert(text.skip(a) =~= name);
    assert(text.take(a) =~= head);
}

/// The empty path, and the root in whatever spelling, have neither a file name nor a
/// parent. The root is a component of its own.
pub proof fn lemma_no_last_component(path: Seq<u8>)
    requires
        path.len() > 0 ==> path[0] == 0x2f,
        forall|i: int|
            0 < i < path.len() ==> #[trigger] path[i] == 0x2f || path[i] == 0x2e && path[i - 1]
                == 0x2f,
    ensures
        file_name(path) is None,
        file_stem(path) is None,
        parent(path) is None,
        components(path) == if path.len() == 0 {
            Seq::empty()
        } else {
            seq![seq![0x2fu8]]
        },
{
    let n: int = if path.len() == 0 {
        0
    } else {
        1
    };
    lemma_trimmed_keeps(path, n);
    assert(trimmed(path) =~= path.take(n));
    assert(n == 1 ==> path.take(n).last() == SLASH);
}

/// The stem of a file name is what stands before its last dot, unless that dot comes
/// first.
pub proof fn lemma_stem_ends_at_last_dot(name: Seq<u8>, dot: int)
    requires
        0 < dot < name.len(),
        name[dot] == 0x2e,
        forall|i: int| dot < i < name.len() ==> #[trigger] name[i] != 0x2e,
    ensures
        stem(name) == name.take(dot),
{
    lemma_last_dot(name);
    assert(last_dot(name) == dot);
}

/// A file name without a dot behind its first byte is its own stem.
pub proof fn lemma_stem_without_dot(name: Seq<u8>)
    requires
        forall|i: int| 0 < i < name.len() ==> #[trigger] name[i] != 0x2e,
    ensures
        stem(name) == name,
{
    lemma_last_dot(name);
}

/// The stem of a path is the stem of its file name, where it has one.
pub proof fn lemma_file_stem(path: Seq<u8>)
    ensures
        file_name(path) is None ==> file_stem(path) is None,
        file_name(path) matches Some(name) ==> file_stem(path) == Some(stem(name)),
{
}

/// An absolute name takes the place of the directory. Any other comes behind it, with
/// one slash between them where the directory does not end in one and is not empty.
pub proof fn lemma_join(dir: Seq<u8>, name: Seq<u8>)
    ensures
        name.len() > 0 && name[0] == 0x2f ==> join(dir, name) == name,
        name.len() == 0 || name[0] != 0x2f ==> {
            &&& dir.len() == 0 ==> join(dir, name) == name
            &&& dir.len() > 0 && dir[dir.len() - 1] == 0x2f ==> join(dir, name) == dir + name
            &&& dir.len() > 0 && dir[dir.len() - 1] != 0x2f ==> join(dir, name) == dir + seq![
                0x2fu8,
            ] + name
        },
{
    if dir.len() == 0 {
        assert(dir + name =~= name);
    }
}

/// A plain name is any byte string without a slash but the empty one, `.` and `..`.
pub proof fn lemma_plain_name(name: Seq<u8>)
    requires
        name.len() > 0,
        forall|i: int| 0 <= i < name.len() ==> #[trigger] name[i] != 0x2f,
        name != seq![0x2eu8],
        name != seq![0x2eu8, 0x2e],
    ensures
        is_plain_name(name),
{
}

/// How many bytes of `path` its trimmed form keeps.
fn trimmed_len(path: &[u8]) -> (len: usize)
    ensures
        len == trimmed(path@).len(),
{
    let mut len: usize = path.len();
    assert(path@.take(len as int) =~= path@);
    while len > 1 && (path[len - 1] == SLASH || (path[len - 1] == DOT && path[len - 2] == SLASH))
        invariant
            len <= path@.len(),
            trimmed(path@) == trimmed(path@.take(len as int)),
        decreases len,
    {
        assert(path@.take(len as int).drop_last() =~= path@.take(len - 1));
        len = len - 1;
    }
    len
}

/// Cuts off what stands behind the last component.
fn trim(path: &[u8]) -> (res: &[u8])
    ensures
        res@ == trimmed(path@),
{
    proof {
        lemma_trimmed(path@);
    }
    slice_subrange(path, 0, trimmed_len(path))
}

/// Finds the start of the text behind the last slash.
fn find_segment(path: &[u8]) -> (start: usize)
    ensures
        start == segment_start(path@),
{
    let mut start: usize = path.len();
    assert(path@.take(start as int) =~= path@);
    while start > 0 && path[start - 1] != SLASH
        invariant
            start <= path@.len(),
            segment_start(path@) == segment_start(path@.take(start as int)),
        decreases start,
    {
        assert(path@.take(start as int).drop_last() =~= path@.take(start - 1));
        start = start - 1;
    }
    start
}

/// The last component of a path, where that is a name.
pub fn path_file_name(path: &[u8]) -> (res: Option<&[u8]>)
    ensures
        optional_view(res) == file_name(path@),
{
    let text = trim(path);
    let start = find_segment(text);
    proof {
        lemma_last_segment(text@);
    }
    let name = slice_subrange(text, start, text.len());
    let len: usize = name.len();
    proof {
        assert(name@ =~= last_segment(text@));
        assert(len == 1 && name@[0] == DOT ==> name@ =~= seq![DOT]);
        assert(len == 2 && name@[0] == DOT && name@[1] == DOT ==> name@ =~= seq![DOT, DOT]);
    }
    if len == 0 || (len == 1 && name[0] == DOT) || (len == 2 && name[0] == DOT && name[1] == DOT) {
        None
    } else {
        Some(name)
    }
}

/// The file name of a path without its extension.
pub fn path_file_stem(path: &[u8]) -> (res: Option<&[u8]>)
    ensures
        optional_view(res) == file_stem(path@),
{
    match path_file_name(path) {
        None => None,
        Some(name) => {
            let mut end: usize = name.len();
            assert(name@.take(end as int) =~= name@);
            while end > 0 && name[end - 1] != DOT
                invariant
                    end <= name@.len(),
                    last_dot(name@) == last_dot(name@.take(end as int)),
                decreases end,
            {
                assert(name@.take(end as int).drop_last() =~= name@.take(end - 1));
                end = end - 1;
            }
            if end <= 1 {
                Some(name)
            } else {
                Some(slice_subrange(name, 0, end - 1))
            }
        },
    }
}

/// The path without its last component.
pub fn path_parent(path: &[u8]) -> (res: Option<&[u8]>)
    ensures
        optional_view(res) == parent(path@),
{
    let text = trim(path);
    let start = find_segment(text);
    if start == text.len() {
        None
    } else {
        proof {
            lemma_last_segment(text@);
            assert(text@.take(start as int) =~= text@.subrange(0, start as int));
        }
        Some(trim(slice_subrange(text, 0, start)))
    }
}

/// `dir` extended by the relative path `name`, or `name` itself where it is
/// absolute.
pub fn path_join(dir: &[u8], name: &[u8]) -> (res: Vec<u8>)
    ensures
        res@ == join(dir@, name@),
{
    let mut res: Vec<u8> = Vec::new();
    if name.len() > 0 && name[0] == SLASH {
        push_bytes(&mut res, name);
    } else {
        push_bytes(&mut res, dir);
        if dir.len() > 0 && dir[dir.len() - 1] != SLASH {
            res.push(SLASH);
        }
        push_bytes(&mut res, name);
    }
    res
}

/// Whether two paths have the same components.
pub fn path_eq(a: &[u8], b: &[u8]) -> (res: bool)
    ensures
        res == (components(a@) == components(b@)),
    decreases a@.len(),
{
    let text_a = trim(a);
    let text_b = trim(b);
    if text_a.len() == 0 || text_b.len() == 0 {
        assert(components(a@).len() == 0 <==> text_a@.len() == 0);
        assert(components(b@).len() == 0 <==> text_b@.len() == 0);
        assert(components(a@).len() == 0 && components(b@).len() == 0 ==> components(a@)
            =~= components(b@));
        return text_a.len() == text_b.len();
    }
    let start_a = find_segment(text_a);
    let start_b = find_segment(text_b);
    proof {
        lemma_trimmed(a@);
        lemma_last_segment(text_a@);
        lemma_last_segment(text_b@);
    }
    let name_a = slice_subrange(text_a, start_a, text_a.len());
    let name_b = slice_subrange(text_b, start_b, text_b.len());
    proof {
        assert(name_a@ =~= last_segment(text_a@));
        assert(name_b@ =~= last_segment(text_b@));
        assert(text_a@.take(start_a as int) =~= text_a@.subrange(0, start_a as int));
        assert(text_b@.take(start_b as int) =~= text_b@.subrange(0, start_b as int));
        assert(seq![SLASH].contains(SLASH)) by {
            assert(seq![SLASH][0] == SLASH);
        }
        let ca = components(a@);
        let cb = components(b@);
        assert(ca.last() == if name_a@.len() == 0 { seq![SLASH] } else { name_a@ });
        assert(cb.last() == if name_b@.len() == 0 { seq![SLASH] } else { name_b@ });
    }
    if !bytes_eq(name_a, name_b) {
        proof {
            assert(!name_a@.contains(SLASH) && !name_b@.contains(SLASH));
            assert(name_a@ != name_b@);
            assert(name_a@.len() == 0 && name_b@.len() == 0 ==> name_a@ =~= name_b@);
            assert(components(a@).last() != components(b@).last());
        }
        return false;
    }
    if name_a.len() == 0 {
        return true;
    }
    let res = path_eq(slice_subrange(text_a, 0, start_a), slice_subrange(text_b, 0, start_b));
    proof {
        assert(components(a@).drop_last() =~= components(text_a@.take(start_a as int)));
        assert(components(b@).drop_last() =~= components(text_b@.take(start_b as int)));
    }
    res
}

} // verus!
