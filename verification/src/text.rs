//! Strings and byte strings.

use vstd::prelude::*;
use vstd::utf8::{
    decode_utf8_split, encode_utf8, encode_utf8_decode_utf8, encode_utf8_valid_utf8,
    is_char_boundary, pop_first_scalar, valid_utf8,
};

verus! {

/// What an optional value stands for.
pub open spec fn optional_view<T: View>(value: Option<T>) -> Option<T::V> {
    match value {
        Some(inner) => Some(inner@),
        None => None,
    }
}

/// What the values of a list stand for.
pub open spec fn each_view<T: View>(values: Seq<T>) -> Seq<T::V> {
    values.map_values(|value: T| value@)
}

/// Appends all of `more` to `bytes`.
pub fn push_bytes(bytes: &mut Vec<u8>, more: &[u8])
    ensures
        final(bytes)@ == old(bytes)@ + more@,
{
    bytes.extend_from_slice(more);
}

/// A copy of a byte string.
pub fn copy_bytes(bytes: &[u8]) -> (res: Vec<u8>)
    ensures
        res@ == bytes@,
{
    let mut res: Vec<u8> = Vec::new();
    push_bytes(&mut res, bytes);
    res
}

/// The bytes of a string.
pub fn str_bytes(s: &str) -> (res: Vec<u8>)
    ensures
        res@ == encode_utf8(s@),
{
    copy_bytes(s.as_bytes())
}

/// Whether two byte strings are the same.
pub fn bytes_eq(a: &[u8], b: &[u8]) -> (res: bool)
    ensures
        res == (a@ == b@),
{
    if a.len() != b.len() {
        return false;
    }
    for i in 0..a.len()
        invariant
            a@.len() == b@.len(),
            forall|j: int| 0 <= j < i ==> a@[j] == b@[j],
    {
        if a[i] != b[i] {
            return false;
        }
    }
    assert(a@ =~= b@);
    true
}

/// A byte with ASCII capitals made small.
pub open spec fn ascii_lowercase(byte: u8) -> u8 {
    if 0x41 <= byte <= 0x5a {
        (byte + 0x20) as u8
    } else {
        byte
    }
}

/// Two byte strings differ in the case of ASCII letters at most.
pub open spec fn equal_ignoring_case(a: Seq<u8>, b: Seq<u8>) -> bool {
    &&& a.len() == b.len()
    &&& forall|i: int|
        0 <= i < a.len() ==> ascii_lowercase(#[trigger] a[i]) == ascii_lowercase(b[i])
}

/// An optional value stands for what the value inside stands for.
pub proof fn lemma_optional_view<T: View>(value: T)
    ensures
        optional_view(Some(value)) == Some(value@),
        optional_view(None::<T>) == None::<T::V>,
{
}

/// A list stands for what its values stand for, one by one and in order.
pub proof fn lemma_each_view<T: View>(values: Seq<T>)
    ensures
        each_view(values).len() == values.len(),
        forall|i: int| 0 <= i < values.len() ==> #[trigger] each_view(values)[i] == values[i]@,
{
}

/// Two byte strings are the same but for case just where each byte is the same, or the
/// one is an ASCII capital and the other that letter made small.
pub proof fn lemma_equal_ignoring_case(a: Seq<u8>, b: Seq<u8>)
    ensures
        equal_ignoring_case(a, b) <==> a.len() == b.len() && forall|i: int|
            0 <= i < a.len() ==> {
                ||| #[trigger] a[i] == b[i]
                ||| 0x41 <= a[i] <= 0x5a && b[i] == a[i] + 0x20
                ||| 0x41 <= b[i] <= 0x5a && a[i] == b[i] + 0x20
            },
{
}

fn lowercase(byte: u8) -> (res: u8)
    ensures
        res == ascii_lowercase(byte),
{
    if 0x41 <= byte && byte <= 0x5a {
        byte + 0x20
    } else {
        byte
    }
}

/// Whether two byte strings differ in the case of ASCII letters at most.
pub fn bytes_eq_ignore_case(a: &[u8], b: &[u8]) -> (res: bool)
    ensures
        res == equal_ignoring_case(a@, b@),
        res <==> a@.len() == b@.len() && forall|i: int|
            0 <= i < a@.len() ==> {
                ||| #[trigger] a@[i] == b@[i]
                ||| 0x41 <= a@[i] <= 0x5a && b@[i] == a@[i] + 0x20
                ||| 0x41 <= b@[i] <= 0x5a && a@[i] == b@[i] + 0x20
            },
{
    proof {
        lemma_equal_ignoring_case(a@, b@);
    }
    if a.len() != b.len() {
        return false;
    }
    for i in 0..a.len()
        invariant
            a@.len() == b@.len(),
            forall|j: int|
                0 <= j < i ==> ascii_lowercase(#[trigger] a@[j]) == ascii_lowercase(b@[j]),
    {
        if lowercase(a[i]) != lowercase(b[i]) {
            return false;
        }
    }
    true
}

/// Whether `s` starts with `prefix`.
pub fn starts_with(s: &str, prefix: &str) -> (res: bool)
    ensures
        res == prefix@.is_prefix_of(s@),
{
    let b = bytes_start_with(s.as_bytes(), prefix.as_bytes());
    proof {
        lemma_encode_prefix(prefix@, s@);
    }
    b
}

/// Whether `bytes` start with `prefix`.
pub fn bytes_start_with(bytes: &[u8], prefix: &[u8]) -> (res: bool)
    ensures
        res == prefix@.is_prefix_of(bytes@),
{
    if bytes.len() < prefix.len() {
        return false;
    }
    for i in 0..prefix.len()
        invariant
            prefix@.len() <= bytes@.len(),
            forall|j: int| 0 <= j < i ==> prefix@[j] == bytes@[j],
    {
        if bytes[i] != prefix[i] {
            assert(bytes@.take(prefix@.len() as int)[i as int] != prefix@[i as int]);
            return false;
        }
    }
    assert(prefix@ =~= bytes@.take(prefix@.len() as int));
    true
}

/// Encoding two strings in a row is encoding them in turn.
pub proof fn lemma_encode_concat(a: Seq<char>, b: Seq<char>)
    ensures
        encode_utf8(a + b) == encode_utf8(a) + encode_utf8(b),
    decreases a.len(),
{
    if a.len() == 0 {
        assert(a + b =~= b);
        assert(encode_utf8(a) + encode_utf8(b) =~= encode_utf8(b));
    } else {
        assert((a + b).drop_first() =~= a.drop_first() + b);
        lemma_encode_concat(a.drop_first(), b);
        assert(encode_utf8(a + b) =~= encode_utf8(a) + encode_utf8(b));
    }
}

/// Different strings have different bytes.
pub proof fn lemma_encode_injective(a: Seq<char>, b: Seq<char>)
    requires
        encode_utf8(a) == encode_utf8(b),
    ensures
        a == b,
{
    encode_utf8_decode_utf8(a);
    encode_utf8_decode_utf8(b);
}

proof fn lemma_boundary(a: Seq<u8>, b: Seq<u8>)
    requires
        valid_utf8(a),
        valid_utf8(a + b),
    ensures
        is_char_boundary(a + b, a.len() as int),
    decreases a.len(),
{
    if a.len() > 0 {
        let rest = pop_first_scalar(a);
        assert(pop_first_scalar(a + b) =~= rest + b);
        lemma_boundary(rest, b);
    }
}

/// A string starts with another just where its bytes start with the other's bytes,
/// and then the remaining bytes are those of the remaining string.
pub proof fn lemma_encode_prefix(prefix: Seq<char>, s: Seq<char>)
    ensures
        prefix.is_prefix_of(s) <==> encode_utf8(prefix).is_prefix_of(encode_utf8(s)),
        prefix.is_prefix_of(s) ==> {
            let cut = encode_utf8(prefix).len() as int;
            &&& is_char_boundary(encode_utf8(s), cut)
            &&& encode_utf8(s).skip(cut) == encode_utf8(s.skip(prefix.len() as int))
        },
{
    let head = encode_utf8(prefix);
    let bytes = encode_utf8(s);
    encode_utf8_valid_utf8(prefix);
    encode_utf8_valid_utf8(s);
    if head.is_prefix_of(bytes) {
        let cut = head.len() as int;
        let tail = bytes.skip(cut);
        assert(head + tail =~= bytes);
        lemma_boundary(head, tail);
        assert(bytes.subrange(0, cut) =~= head);
        decode_utf8_split(bytes, cut);
        encode_utf8_decode_utf8(prefix);
        encode_utf8_decode_utf8(s);
        assert(s.take(prefix.len() as int) =~= prefix);
    }
    if prefix.is_prefix_of(s) {
        let rest = s.skip(prefix.len() as int);
        assert(prefix + rest =~= s);
        lemma_encode_concat(prefix, rest);
        encode_utf8_valid_utf8(rest);
        assert(bytes.take(head.len() as int) =~= head);
        assert(bytes.skip(head.len() as int) =~= encode_utf8(rest));
        lemma_boundary(head, encode_utf8(rest));
    }
}

} // verus!
