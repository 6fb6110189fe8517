//! Which host environment variables the wasm program gets to see, and under what
//! names.
//!
//! By default that is a whitelist: `NO_COLOR` and every name that starts with
//! `CRITERION_`, `RUST_` or `RAYON_` keep their names, and `WASM_HARNESS_ENV_X` is
//! handed over as `X`. On request every variable is handed over under its own name.
//! Names and values are byte strings throughout: neither need be valid UTF-8.

use crate::text::{
    bytes_eq, bytes_start_with, copy_bytes, lemma_encode_injective,
    lemma_encode_prefix, optional_view, push_bytes, str_bytes,
};
use vstd::prelude::*;
use vstd::slice::slice_subrange;
use vstd::utf8::{encode_utf8, is_ascii_chars_encode_utf8};

verus! {

/// A variable of the host environment. Neither half need be valid UTF-8.
pub struct EnvVar {
    pub key: Vec<u8>,
    pub value: Vec<u8>,
}

impl View for EnvVar {
    type V = (Seq<u8>, Seq<u8>);

    open spec fn view(&self) -> (Seq<u8>, Seq<u8>) {
        (self.key@, self.value@)
    }
}

/// Names that are handed over unchanged.
pub open spec fn is_whitelisted(name: Seq<char>) -> bool {
    ||| name == "NO_COLOR"@
    ||| "CRITERION_"@.is_prefix_of(name)
    ||| "RUST_"@.is_prefix_of(name)
    ||| "RAYON_"@.is_prefix_of(name)
}

/// Names that ask for a variable to be handed over under the rest of the name.
pub open spec fn is_opt_in(name: Seq<char>) -> bool {
    "WASM_HARNESS_ENV_"@.is_prefix_of(name) && name.len() > "WASM_HARNESS_ENV_"@.len()
}

/// The name under which the whitelist hands a variable over, if it does.
pub open spec fn forwarded_as(name: Seq<char>) -> Option<Seq<char>> {
    if is_opt_in(name) {
        Some(name.skip("WASM_HARNESS_ENV_"@.len() as int))
    } else if is_whitelisted(name) {
        Some(name)
    } else {
        None
    }
}

/// Keys that are handed over unchanged: [`is_whitelisted`], on bytes.
pub open spec fn is_whitelisted_key(key: Seq<u8>) -> bool {
    ||| key == encode_utf8("NO_COLOR"@)
    ||| encode_utf8("CRITERION_"@).is_prefix_of(key)
    ||| encode_utf8("RUST_"@).is_prefix_of(key)
    ||| encode_utf8("RAYON_"@).is_prefix_of(key)
}

/// Keys that ask for a variable to be handed over under the rest of the key:
/// [`is_opt_in`], on bytes.
pub open spec fn is_opt_in_key(key: Seq<u8>) -> bool {
    &&& encode_utf8("WASM_HARNESS_ENV_"@).is_prefix_of(key)
    &&& key.len() > encode_utf8("WASM_HARNESS_ENV_"@).len()
}

/// The key under which a variable is handed over, if it is: every one under its own
/// where the environment is inherited, else as the whitelist says.
pub open spec fn destination(key: Seq<u8>, inherit_env: bool) -> Option<Seq<u8>> {
    if inherit_env {
        Some(key)
    } else if is_opt_in_key(key) {
        Some(key.skip(encode_utf8("WASM_HARNESS_ENV_"@).len() as int))
    } else if is_whitelisted_key(key) {
        Some(key)
    } else {
        None
    }
}

/// `key=value`.
pub open spec fn assignment(key: Seq<u8>, value: Seq<u8>) -> Seq<u8> {
    key + encode_utf8("="@) + value
}

/// The argument that hands one variable to the driver script.
pub open spec fn js_env_arg(key: Seq<u8>, value: Seq<u8>) -> Seq<u8> {
    encode_utf8("--env="@) + assignment(key, value)
}

/// The variables that are handed over, with their new keys, in the order of the
/// host's.
pub open spec fn forwarded_vars(vars: Seq<(Seq<u8>, Seq<u8>)>, inherit_env: bool) -> Seq<
    (Seq<u8>, Seq<u8>),
>
    decreases vars.len(),
{
    if vars.len() == 0 {
        Seq::empty()
    } else {
        let before = forwarded_vars(vars.drop_last(), inherit_env);
        match destination(vars.last().0, inherit_env) {
            Some(key) => before.push((key, vars.last().1)),
            None => before,
        }
    }
}

/// How many bytes the whitelist cuts off the front of a key that it hands over.
fn bytes_to_drop(key: &[u8]) -> (res: Option<usize>)
    ensures
        res == if is_opt_in_key(key@) {
            Some(encode_utf8("WASM_HARNESS_ENV_"@).len() as usize)
        } else if is_whitelisted_key(key@) {
            Some(0)
        } else {
            None
        },
        res matches Some(n) ==> n <= key@.len(),
{
    let opt_in = "WASM_HARNESS_ENV_".as_bytes();
    if bytes_start_with(key, opt_in) && key.len() > opt_in.len() {
        return Some(opt_in.len());
    }
    if bytes_eq(key, "NO_COLOR".as_bytes()) || bytes_start_with(key, "CRITERION_".as_bytes())
        || bytes_start_with(key, "RUST_".as_bytes()) || bytes_start_with(key, "RAYON_".as_bytes()) {
        return Some(0);
    }
    None
}

/// On names that are text, the rule for keys is the rule for names.
pub proof fn lemma_keys_follow_names(name: Seq<char>)
    ensures
        is_whitelisted_key(encode_utf8(name)) == is_whitelisted(name),
        is_opt_in_key(encode_utf8(name)) == is_opt_in(name),
        destination(encode_utf8(name), false) == match forwarded_as(name) {
            Some(dest) => Some(encode_utf8(dest)),
            None => None,
        },
{
    let key = encode_utf8(name);
    let prefix = "WASM_HARNESS_ENV_"@;
    lemma_encode_prefix("CRITERION_"@, name);
    lemma_encode_prefix("RUST_"@, name);
    lemma_encode_prefix("RAYON_"@, name);
    lemma_encode_prefix(prefix, name);
    if key == encode_utf8("NO_COLOR"@) {
        lemma_encode_injective(name, "NO_COLOR"@);
    }
    if prefix.is_prefix_of(name) {
        let rest = name.skip(prefix.len() as int);
        assert(rest.len() == 0 ==> encode_utf8(rest).len() == 0);
        assert(encode_utf8(rest).len() == 0 ==> rest.len() == 0) by {
            if encode_utf8(rest).len() == 0 {
                assert(encode_utf8(rest) =~= encode_utf8(Seq::<char>::empty()));
                lemma_encode_injective(rest, Seq::empty());
            }
        }
        assert(key.skip(encode_utf8(prefix).len() as int) == encode_utf8(rest));
    }
}

/// Maps the name of a host variable to its name in the wasm program, or to `None`
/// where the whitelist drops it.
pub fn forwarded_name(name: &str) -> (res: Option<&str>)
    ensures
        optional_view(res) == forwarded_as(name@),
{
    proof {
        lemma_keys_follow_names(name@);
        lemma_encode_prefix("WASM_HARNESS_ENV_"@, name@);
        reveal_strlit("WASM_HARNESS_ENV_");
        is_ascii_chars_encode_utf8("WASM_HARNESS_ENV_"@);
    }
    match bytes_to_drop(name.as_bytes()) {
        Some(n) => {
            if n == 0 {
                return Some(name);
            }
            let (_, rest) = name.split_at(n);
            proof {
                let dest = name@.skip("WASM_HARNESS_ENV_"@.len() as int);
                assert(encode_utf8(rest@) =~= encode_utf8(dest));
                lemma_encode_injective(rest@, dest);
            }
            Some(rest)
        },
        None => None,
    }
}

/// Decides whether a host variable is handed over, and under what key. The value is
/// handed over as it is.
pub fn forwarded_env_pair<'a>(key: &'a [u8], value: &'a [u8], inherit_env: bool) -> (res: Option<
    (&'a [u8], &'a [u8]),
>)
    ensures
        res matches Some(pair) ==> destination(key@, inherit_env) == Some(pair.0@) && pair.1@
            == value@,
        res is None ==> destination(key@, inherit_env) is None,
{
    if inherit_env {
        return Some((key, value));
    }
    match bytes_to_drop(key) {
        Some(n) => {
            let dest = slice_subrange(key, n, key.len());
            assert(dest@ =~= key@.skip(n as int));
            assert(n == 0 ==> dest@ =~= key@);
            Some((dest, value))
        },
        None => None,
    }
}

/// Writes `key=value`.
pub fn env_assignment(key: &[u8], value: &[u8]) -> (res: Vec<u8>)
    ensures
        res@ == assignment(key@, value@),
        res@ == key@ + seq![0x3du8] + value@,
{
    proof {
        lemma_assignment(key@, value@);
    }
    let mut res = copy_bytes(key);
    push_bytes(&mut res, "=".as_bytes());
    push_bytes(&mut res, value);
    res
}

/// Renders a variable as the `--env=KEY=VALUE` argument of the driver script, where
/// it is handed over.
pub fn host_env_to_js_arg(key: &[u8], value: &[u8], inherit_env: bool) -> (res: Option<Vec<u8>>)
    ensures
        optional_view(res) == match destination(key@, inherit_env) {
            Some(dest) => Some(js_env_arg(dest, value@)),
            None => None,
        },
        destination(key@, inherit_env) is None <==> res is None,
        destination(key@, inherit_env) matches Some(dest) ==> res->0@ == encode_utf8("--env="@)
            + dest + seq![0x3du8] + value@,
{
    proof {
        if let Some(dest) = destination(key@, inherit_env) {
            lemma_assignment(dest, value@);
        }
    }
    match forwarded_env_pair(key, value, inherit_env) {
        Some((dest, value)) => {
            let mut arg = str_bytes("--env=");
            push_bytes(&mut arg, env_assignment(dest, value).as_slice());
            Some(arg)
        },
        None => None,
    }
}

/// A whitelisted name is handed over unchanged.
pub proof fn lemma_whitelisted_names_are_kept(name: Seq<char>)
    requires
        is_whitelisted(name),
    ensures
        forwarded_as(name) == Some(name),
{
    reveal_strlit("WASM_HARNESS_ENV_");
    reveal_strlit("NO_COLOR");
    reveal_strlit("CRITERION_");
    reveal_strlit("RUST_");
    reveal_strlit("RAYON_");
    assert(name[0] == 'N' || name[0] == 'C' || name[0] == 'R') by {
        assert(forall|prefix: Seq<char>| #[trigger]
            prefix.is_prefix_of(name) && prefix.len() > 0 ==> name.take(prefix.len() as int)[0]
                == prefix[0]);
    }
    assert("WASM_HARNESS_ENV_"@.is_prefix_of(name) ==> name.take(17)[0] == 'W');
}

/// For any non-empty `X`, `WASM_HARNESS_ENV_X` is handed over as `X`.
pub proof fn lemma_opt_in_drops_the_prefix(name: Seq<char>)
    requires
        name.len() > 0,
    ensures
        forwarded_as("WASM_HARNESS_ENV_"@ + name) == Some(name),
{
    let prefix = "WASM_HARNESS_ENV_"@;
    assert((prefix + name).take(prefix.len() as int) =~= prefix);
    assert((prefix + name).skip(prefix.len() as int) =~= name);
}

/// A name that is neither whitelisted nor asks to be handed over is dropped.
pub proof fn lemma_other_names_are_dropped(name: Seq<char>)
    ensures
        forwarded_as(name) is None <==> !is_whitelisted(name) && !is_opt_in(name),
{
}

/// By default the same holds of all keys, text or not: a whitelisted one is handed over
/// unchanged, one with the opt-in prefix without it, and no other.
pub proof fn lemma_default_destinations(key: Seq<u8>)
    ensures
        is_whitelisted_key(key) ==> destination(key, false) == Some(key),
        key.len() > 0 ==> destination(encode_utf8("WASM_HARNESS_ENV_"@) + key, false) == Some(key),
        destination(key, false) is None <==> !is_whitelisted_key(key) && !is_opt_in_key(key),
{
    let prefix = encode_utf8("WASM_HARNESS_ENV_"@);
    assert((prefix + key).take(prefix.len() as int) =~= prefix);
    assert((prefix + key).skip(prefix.len() as int) =~= key);
    if is_whitelisted_key(key) && is_opt_in_key(key) {
        reveal_strlit("WASM_HARNESS_ENV_");
        reveal_strlit("NO_COLOR");
        reveal_strlit("CRITERION_");
        reveal_strlit("RUST_");
        reveal_strlit("RAYON_");
        is_ascii_chars_encode_utf8("WASM_HARNESS_ENV_"@);
        is_ascii_chars_encode_utf8("NO_COLOR"@);
        is_ascii_chars_encode_utf8("CRITERION_"@);
        is_ascii_chars_encode_utf8("RUST_"@);
        is_ascii_chars_encode_utf8("RAYON_"@);
        assert(key.take(prefix.len() as int)[0] == 'W' as u8);
        assert(key[0] == 'N' as u8 || key[0] == 'C' as u8 || key[0] == 'R' as u8) by {
            assert(forall|head: Seq<u8>| #[trigger]
                head.is_prefix_of(key) && head.len() > 0 ==> key.take(head.len() as int)[0]
                    == head[0]);
        }
    }
}

/// Where the environment is inherited every variable is handed over, in the host's
/// order, with its key and its value unchanged.
pub proof fn lemma_inherited_vars_are_kept(vars: Seq<(Seq<u8>, Seq<u8>)>)
    ensures
        forwarded_vars(vars, true) == vars,
    decreases vars.len(),
{
    if vars.len() > 0 {
        lemma_inherited_vars_are_kept(vars.drop_last());
    }
    assert(forwarded_vars(vars, true) =~= vars);
}

/// Each variable is decided on by itself, and the order of the host is kept: what is
/// handed over of two lists in a row is what is handed over of the one, then of the
/// other.
pub proof fn lemma_vars_are_independent(
    first: Seq<(Seq<u8>, Seq<u8>)>,
    second: Seq<(Seq<u8>, Seq<u8>)>,
    inherit_env: bool,
)
    ensures
        forwarded_vars(first + second, inherit_env) == forwarded_vars(first, inherit_env)
            + forwarded_vars(second, inherit_env),
    decreases second.len(),
{
    if second.len() == 0 {
        assert(first + second =~= first);
    } else {
        assert((first + second).drop_last() =~= first + second.drop_last());
        lemma_vars_are_independent(first, second.drop_last(), inherit_env);
    }
    assert(forwarded_vars(first + second, inherit_env) =~= forwarded_vars(first, inherit_env)
        + forwarded_vars(second, inherit_env));
}

/// How long the prefixes and the name that the rules speak of are, and how they start.
proof fn lemma_rule_bytes()
    ensures
        encode_utf8("WASM_HARNESS_ENV_"@).len() == 17,
        encode_utf8("WASM_HARNESS_ENV_"@)[0] == 0x57,
        encode_utf8("NO_COLOR"@).len() == 8 && encode_utf8("NO_COLOR"@)[0] == 0x4e,
        encode_utf8("CRITERION_"@).len() == 10 && encode_utf8("CRITERION_"@)[0] == 0x43,
        encode_utf8("RUST_"@).len() == 5 && encode_utf8("RUST_"@)[0] == 0x52,
        encode_utf8("RAYON_"@).len() == 6 && encode_utf8("RAYON_"@)[0] == 0x52,
{
    reveal_strlit("WASM_HARNESS_ENV_");
    is_ascii_chars_encode_utf8("WASM_HARNESS_ENV_"@);
    reveal_strlit("NO_COLOR");
    is_ascii_chars_encode_utf8("NO_COLOR"@);
    reveal_strlit("CRITERION_");
    is_ascii_chars_encode_utf8("CRITERION_"@);
    reveal_strlit("RUST_");
    is_ascii_chars_encode_utf8("RUST_"@);
    reveal_strlit("RAYON_");
    is_ascii_chars_encode_utf8("RAYON_"@);
}

/// `key=value` is the key, one `=` and the value, and the driver script's argument is
/// `--env=` before that: nothing of either half is lost or added.
pub proof fn lemma_assignment(key: Seq<u8>, value: Seq<u8>)
    ensures
        assignment(key, value) == key + seq![0x3du8] + value,
        js_env_arg(key, value) == encode_utf8("--env="@) + key + seq![0x3du8] + value,
{
    reveal_strlit("=");
    is_ascii_chars_encode_utf8("="@);
    assert(encode_utf8("="@) =~= seq![0x3du8]);
    assert(js_env_arg(key, value) =~= encode_utf8("--env="@) + key + seq![0x3du8] + value);
}

/// A host variable stands for its key and its value.
pub proof fn lemma_env_var_view(var: EnvVar)
    ensures
        var@ == (var.key@, var.value@),
{
}

/// Where the environment is inherited, every key is handed over as it is.
pub proof fn lemma_inherited_keys(key: Seq<u8>)
    ensures
        destination(key, true) == Some(key),
{
}

/// By default, whatever stands behind them, keys that start with `CRITERION_`, `RUST_`
/// or `RAYON_` are handed over as they are, and so is `NO_COLOR`. What stands behind
/// `WASM_HARNESS_ENV_` is handed over without it, unless there is nothing.
pub proof fn lemma_default_keys(rest: Seq<u8>)
    ensures
        destination(encode_utf8("NO_COLOR"@), false) == Some(encode_utf8("NO_COLOR"@)),
        destination(encode_utf8("CRITERION_"@) + rest, false) == Some(
            encode_utf8("CRITERION_"@) + rest,
        ),
        destination(encode_utf8("RUST_"@) + rest, false) == Some(encode_utf8("RUST_"@) + rest),
        destination(encode_utf8("RAYON_"@) + rest, false) == Some(encode_utf8("RAYON_"@) + rest),
        destination(encode_utf8("WASM_HARNESS_ENV_"@) + rest, false) == if rest.len() > 0 {
            Some(rest)
        } else {
            None
        },
{
    lemma_rule_bytes();
    lemma_default_destinations(encode_utf8("NO_COLOR"@));
    lemma_default_destinations(encode_utf8("CRITERION_"@) + rest);
    lemma_default_destinations(encode_utf8("RUST_"@) + rest);
    lemma_default_destinations(encode_utf8("RAYON_"@) + rest);
    lemma_default_destinations(rest);
    assert(encode_utf8("CRITERION_"@) =~= (encode_utf8("CRITERION_"@) + rest).subrange(0, 10));
    assert(encode_utf8("RUST_"@) =~= (encode_utf8("RUST_"@) + rest).subrange(0, 5));
    assert(encode_utf8("RAYON_"@) =~= (encode_utf8("RAYON_"@) + rest).subrange(0, 6));
    if rest.len() == 0 {
        let key = encode_utf8("WASM_HARNESS_ENV_"@) + rest;
        assert(key[0] == 0x57);
        assert forall|prefix: Seq<u8>| #[trigger]
            prefix.is_prefix_of(key) && prefix.len() > 0 implies prefix[0] == 0x57 by {
            assert(key.subrange(0, prefix.len() as int)[0] == prefix[0]);
        }
    }
}

/// By default a key that is not `NO_COLOR` and that starts with none of the prefixes is
/// dropped.
pub proof fn lemma_other_keys_are_dropped(key: Seq<u8>)
    requires
        key != encode_utf8("NO_COLOR"@),
        !encode_utf8("CRITERION_"@).is_prefix_of(key),
        !encode_utf8("RUST_"@).is_prefix_of(key),
        !encode_utf8("RAYON_"@).is_prefix_of(key),
        !encode_utf8("WASM_HARNESS_ENV_"@).is_prefix_of(key),
    ensures
        destination(key, false) is None,
{
}

/// The same of names that are text: which ones are handed over under their own name, and
/// which ones without their prefix.
pub proof fn lemma_default_names(rest: Seq<char>)
    ensures
        forwarded_as("NO_COLOR"@) == Some("NO_COLOR"@),
        forwarded_as("CRITERION_"@ + rest) == Some("CRITERION_"@ + rest),
        forwarded_as("RUST_"@ + rest) == Some("RUST_"@ + rest),
        forwarded_as("RAYON_"@ + rest) == Some("RAYON_"@ + rest),
        forwarded_as("WASM_HARNESS_ENV_"@ + rest) == if rest.len() > 0 {
            Some(rest)
        } else {
            None
        },
{
    reveal_strlit("WASM_HARNESS_ENV_");
    reveal_strlit("NO_COLOR");
    reveal_strlit("CRITERION_");
    reveal_strlit("RUST_");
    reveal_strlit("RAYON_");
    lemma_whitelisted_names_are_kept("NO_COLOR"@);
    assert("CRITERION_"@ =~= ("CRITERION_"@ + rest).subrange(0, 10));
    assert("RUST_"@ =~= ("RUST_"@ + rest).subrange(0, 5));
    assert("RAYON_"@ =~= ("RAYON_"@ + rest).subrange(0, 6));
    lemma_whitelisted_names_are_kept("CRITERION_"@ + rest);
    lemma_whitelisted_names_are_kept("RUST_"@ + rest);
    lemma_whitelisted_names_are_kept("RAYON_"@ + rest);
    if rest.len() > 0 {
        lemma_opt_in_drops_the_prefix(rest);
    } else {
        let name = "WASM_HARNESS_ENV_"@ + rest;
        assert(name[0] == 'W');
        assert forall|prefix: Seq<char>| #[trigger]
            prefix.is_prefix_of(name) && prefix.len() > 0 implies prefix[0] == 'W' by {
            assert(name.subrange(0, prefix.len() as int)[0] == prefix[0]);
        }
    }
}

/// A name that is not `NO_COLOR` and that starts with none of the prefixes is dropped.
pub proof fn lemma_other_texts_are_dropped(name: Seq<char>)
    requires
        name != "NO_COLOR"@,
        !"CRITERION_"@.is_prefix_of(name),
        !"RUST_"@.is_prefix_of(name),
        !"RAYON_"@.is_prefix_of(name),
        !"WASM_HARNESS_ENV_"@.is_prefix_of(name),
    ensures
        forwarded_as(name) is None,
{
}

/// Of one variable, that one is handed over under the key that is its destination, with
/// its value, and nothing is where it has none.
pub proof fn lemma_one_var(key: Seq<u8>, value: Seq<u8>, inherit_env: bool)
    ensures
        forwarded_vars(Seq::empty(), inherit_env) == Seq::<(Seq<u8>, Seq<u8>)>::empty(),
        forwarded_vars(seq![(key, value)], inherit_env) == match destination(key, inherit_env) {
            Some(dest) => seq![(dest, value)],
            None => Seq::empty(),
        },
{
    let var = seq![(key, value)];
    assert(var.drop_last() =~= Seq::<(Seq<u8>, Seq<u8>)>::empty());
    assert(forwarded_vars(var.drop_last(), inherit_env) =~= Seq::<(Seq<u8>, Seq<u8>)>::empty());
    if let Some(dest) = destination(key, inherit_env) {
        assert(forwarded_vars(var, inherit_env) =~= seq![(dest, value)]);
    }
}

/// No variable is left out: each one of the host's that has a destination is among those
/// handed over, under that key and with its value, behind as many as the variables before
/// it gave.
pub proof fn lemma_every_var_is_handed_over(
    vars: Seq<(Seq<u8>, Seq<u8>)>,
    inherit_env: bool,
    i: int,
)
    requires
        0 <= i < vars.len(),
        destination(vars[i].0, inherit_env) is Some,
    ensures
        ({
            let sent = forwarded_vars(vars, inherit_env);
            let at = forwarded_vars(vars.take(i), inherit_env).len() as int;
            &&& at < sent.len()
            &&& sent[at] == (destination(vars[i].0, inherit_env)->0, vars[i].1)
            &&& sent.contains((destination(vars[i].0, inherit_env)->0, vars[i].1))
        }),
{
    let (key, value) = vars[i];
    let behind = vars.skip(i + 1);
    assert(vars =~= vars.take(i) + (seq![(key, value)] + behind));
    lemma_vars_are_independent(vars.take(i), seq![(key, value)] + behind, inherit_env);
    lemma_vars_are_independent(seq![(key, value)], behind, inherit_env);
    lemma_one_var(key, value, inherit_env);
    let at = forwarded_vars(vars.take(i), inherit_env).len() as int;
    assert(forwarded_vars(vars, inherit_env)[at] == (
        destination(key, inherit_env)->0,
        value,
    ));
}

/// What the wasm program gets to see by default comes from a variable of the host
/// with the same value, whose key is whitelisted and the same, or is the program's
/// with the opt-in prefix before it.
pub proof fn lemma_default_env_is_the_whitelist(vars: Seq<(Seq<u8>, Seq<u8>)>, i: int)
    requires
        0 <= i < forwarded_vars(vars, false).len(),
    ensures
        ({
            let (key, value) = forwarded_vars(vars, false)[i];
            ||| is_whitelisted_key(key) && vars.contains((key, value))
            ||| vars.contains((encode_utf8("WASM_HARNESS_ENV_"@) + key, value))
        }),
    decreases vars.len(),
{
    let init = vars.drop_last();
    let (key, value) = forwarded_vars(vars, false)[i];
    if i < forwarded_vars(init, false).len() {
        lemma_default_env_is_the_whitelist(init, i);
        assert forall|var: (Seq<u8>, Seq<u8>)| init.contains(var) implies vars.contains(var) by {
            let j = choose|j: int| 0 <= j < init.len() && init[j] == var;
            assert(vars[j] == var);
        }
    } else {
        let host_key = vars.last().0;
        if is_opt_in_key(host_key) {
            assert(encode_utf8("WASM_HARNESS_ENV_"@) + key =~= host_key);
        }
        assert(vars.contains(vars.last()));
        assert(vars.last() == (host_key, value));
    }
}

} // verus!
