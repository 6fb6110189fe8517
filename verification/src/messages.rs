//! What the user is told when no engine is found, or when it cannot be run.

use crate::engine::{engine_names, known_engines, lemma_engine_names};
use crate::search::ResolveError;
use crate::text::each_view;
use vstd::prelude::*;

verus! {

/// A string in double quotes, with whatever does not print as itself escaped, as the
/// `Debug` format writes it.
pub uninterp spec fn debug_quoted(s: Seq<char>) -> Seq<char>;

/// A string of ASCII letters and digits alone.
pub open spec fn is_alphanumeric(s: Seq<char>) -> bool {
    forall|i: int|
        0 <= i < s.len() ==> {
            ||| 'a' <= #[trigger] s[i] <= 'z'
            ||| 'A' <= s[i] <= 'Z'
            ||| '0' <= s[i] <= '9'
        }
}

/// `format!` with `{:?}`, on a string.
///
/// Believed of it: the result depends on the string alone, and a string of ASCII
/// letters and digits comes out as it is, between double quotes. How other
/// characters are escaped is left open.
#[verifier::external_body]
fn quote(s: &str) -> (res: String)
    ensures
        res@ == debug_quoted(s@),
        is_alphanumeric(s@) ==> res@ == seq!['"'] + s@ + seq!['"'],
{
    format!("{:?}", s)
}

/// Texts one after the other, with a comma and a space between them.
pub open spec fn comma_separated(texts: Seq<Seq<char>>) -> Seq<char>
    decreases texts.len(),
{
    if texts.len() == 0 {
        Seq::empty()
    } else if texts.len() == 1 {
        texts[0]
    } else {
        comma_separated(texts.drop_last()) + ", "@ + texts.last()
    }
}

/// What is said of a name that no search directory holds.
pub open spec fn not_found_text(quoted: Seq<char>) -> Seq<char> {
    quoted + " not found on $PATH or in ~/.jsvu/bin/. Known engine names: "@ + comma_separated(
        engine_names(),
    ) + "."@
}

/// What is said of a search that failed. `request` is the engine that was asked for,
/// if any was.
pub open spec fn error_text(error: ResolveError, request: Seq<char>) -> Seq<char> {
    match error {
        ResolveError::NotExecutable => request + " is not an executable file"@,
        ResolveError::NotFound => not_found_text(debug_quoted(request)),
        ResolveError::NoEngine =>
            "no engine found on $PATH or in ~/.jsvu/bin/. Install wasmtime, or install jsvu (https://github.com/GoogleChromeLabs/jsvu) and run `jsvu`, or pass --engine <path-or-name>."@,
    }
}

/// Of no texts the list is empty, of one it is that text, and each further text comes
/// behind a comma and a space.
pub proof fn lemma_comma_separated(texts: Seq<Seq<char>>, next: Seq<char>)
    ensures
        comma_separated(Seq::empty()) == Seq::<char>::empty(),
        comma_separated(seq![next]) == next,
        texts.len() > 0 ==> comma_separated(texts.push(next)) == comma_separated(texts)
            + seq![',', ' '] + next,
{
    reveal_strlit(", ");
    assert(", "@ =~= seq![',', ' ']);
    assert(texts.push(next).drop_last() =~= texts);
}

/// The list of the known engines, as it is written.
pub proof fn lemma_known_engine_list()
    ensures
        comma_separated(engine_names()) == "wasmtime, d8, v8, sm, spidermonkey, js"@,
{
    let names = engine_names();
    lemma_engine_names();
    lemma_comma_separated(names.take(1), names[1]);
    lemma_comma_separated(names.take(2), names[2]);
    lemma_comma_separated(names.take(3), names[3]);
    lemma_comma_separated(names.take(4), names[4]);
    lemma_comma_separated(names.take(5), names[5]);
    assert(names.take(2) =~= names.take(1).push(names[1]));
    assert(names.take(3) =~= names.take(2).push(names[2]));
    assert(names.take(4) =~= names.take(3).push(names[3]));
    assert(names.take(5) =~= names.take(4).push(names[4]));
    assert(names =~= names.take(5).push(names[5]));
    reveal_strlit("wasmtime");
    reveal_strlit("d8");
    reveal_strlit("v8");
    reveal_strlit("sm");
    reveal_strlit("spidermonkey");
    reveal_strlit("js");
    reveal_strlit("wasmtime, d8, v8, sm, spidermonkey, js");
    assert(comma_separated(names) =~= "wasmtime, d8, v8, sm, spidermonkey, js"@);
}

/// What is said of a name that was not found: the name, as it was quoted, and then this.
pub proof fn lemma_not_found_text(quoted: Seq<char>)
    ensures
        not_found_text(quoted) == quoted
            + " not found on $PATH or in ~/.jsvu/bin/. Known engine names: wasmtime, d8, v8, sm, spidermonkey, js."@,
{
    lemma_known_engine_list();
    reveal_strlit(" not found on $PATH or in ~/.jsvu/bin/. Known engine names: ");
    reveal_strlit("wasmtime, d8, v8, sm, spidermonkey, js");
    reveal_strlit(".");
    reveal_strlit(
        " not found on $PATH or in ~/.jsvu/bin/. Known engine names: wasmtime, d8, v8, sm, spidermonkey, js.",
    );
    assert(not_found_text(quoted) =~= quoted
        + " not found on $PATH or in ~/.jsvu/bin/. Known engine names: wasmtime, d8, v8, sm, spidermonkey, js."@);
}

/// What is said of each failure, whatever was asked for.
pub proof fn lemma_error_texts(request: Seq<char>)
    ensures
        error_text(ResolveError::NotExecutable, request) == request
            + " is not an executable file"@,
        error_text(ResolveError::NotFound, request) == debug_quoted(request)
            + " not found on $PATH or in ~/.jsvu/bin/. Known engine names: wasmtime, d8, v8, sm, spidermonkey, js."@,
        error_text(ResolveError::NoEngine, request)
            == "no engine found on $PATH or in ~/.jsvu/bin/. Install wasmtime, or install jsvu (https://github.com/GoogleChromeLabs/jsvu) and run `jsvu`, or pass --engine <path-or-name>."@,
{
    lemma_not_found_text(debug_quoted(request));
}

/// Which strings are made of ASCII letters and digits alone.
pub proof fn lemma_alphanumeric(s: Seq<char>)
    ensures
        is_alphanumeric(s) <==> forall|i: int|
            0 <= i < s.len() ==> {
                ||| '0' <= #[trigger] s[i] <= '9'
                ||| 'A' <= s[i] <= 'Z'
                ||| 'a' <= s[i] <= 'z'
            },
{
}

/// Writes the names of the known engines, separated by commas.
pub fn known_engine_list() -> (res: String)
    ensures
        res@ == comma_separated(engine_names()),
        res@ == "wasmtime, d8, v8, sm, spidermonkey, js"@,
{
    proof {
        lemma_known_engine_list();
    }
    let names = known_engines();
    let mut list = String::new();
    assert(list@ =~= comma_separated(engine_names().take(0)));
    for i in 0..names.len()
        invariant
            each_view(names@) == engine_names(),
            list@ == comma_separated(engine_names().take(i as int)),
    {
        proof {
            assert(engine_names()[i as int] == names@[i as int]@);
            assert(engine_names().take(i + 1).drop_last() =~= engine_names().take(i as int));
            assert(i == 0 ==> list@ + names@[i as int]@ =~= names@[i as int]@);
        }
        if i > 0 {
            list.append(", ");
        }
        list.append(names[i]);
    }
    assert(engine_names().take(names@.len() as int) =~= engine_names());
    list
}

/// The message for a name that no search directory holds, given the name in quotes.
pub fn not_found_message(quoted: &str) -> (res: String)
    ensures
        res@ == not_found_text(quoted@),
        res@ == quoted@
            + " not found on $PATH or in ~/.jsvu/bin/. Known engine names: wasmtime, d8, v8, sm, spidermonkey, js."@,
{
    proof {
        lemma_not_found_text(quoted@);
    }
    let mut message = quoted.to_owned();
    message.append(" not found on $PATH or in ~/.jsvu/bin/. Known engine names: ");
    message.append(known_engine_list().as_str());
    message.append(".");
    message
}

/// The message for a search that failed. `request` is the engine that was asked for,
/// if any was.
pub fn error_message(error: ResolveError, request: &str) -> (res: String)
    ensures
        res@ == error_text(error, request@),
        error == ResolveError::NotFound && is_alphanumeric(request@) ==> res@ == not_found_text(
            seq!['"'] + request@ + seq!['"'],
        ),
        error == ResolveError::NotExecutable ==> res@ == request@ + " is not an executable file"@,
        error == ResolveError::NotFound ==> res@ == debug_quoted(request@)
            + " not found on $PATH or in ~/.jsvu/bin/. Known engine names: wasmtime, d8, v8, sm, spidermonkey, js."@,
        error == ResolveError::NoEngine ==> res@
            == "no engine found on $PATH or in ~/.jsvu/bin/. Install wasmtime, or install jsvu (https://github.com/GoogleChromeLabs/jsvu) and run `jsvu`, or pass --engine <path-or-name>."@,
{
    proof {
        lemma_error_texts(request@);
    }
    match error {
        ResolveError::NotExecutable => {
            let mut message = request.to_owned();
            message.append(" is not an executable file");
            message
        },
        ResolveError::NotFound => not_found_message(quote(request).as_str()),
        ResolveError::NoEngine =>
            "no engine found on $PATH or in ~/.jsvu/bin/. Install wasmtime, or install jsvu (https://github.com/GoogleChromeLabs/jsvu) and run `jsvu`, or pass --engine <path-or-name>.".to_owned(),
    }
}

/// The line that goes before the message for a requested engine.
pub fn request_context(request: &str) -> (res: String)
    ensures
        res@ == "resolving engine "@ + debug_quoted(request@),
        is_alphanumeric(request@) ==> res@ == "resolving engine "@ + (seq!['"'] + request@
            + seq!['"']),
{
    let mut context = "resolving engine ".to_owned();
    context.append(quote(request).as_str());
    context
}

/// The line that goes before the error for a driver script that cannot be written.
/// `path` is its path, as displayed.
pub fn driver_context(path: &str) -> (res: String)
    ensures
        res@ == "writing driver script to "@ + path@,
{
    let mut context = "writing driver script to ".to_owned();
    context.append(path);
    context
}

/// The line that goes before the error for an engine that cannot be started. `path` is
/// its path, as displayed.
pub fn spawn_context(path: &str) -> (res: String)
    ensures
        res@ == "failed to spawn engine at "@ + path@,
{
    let mut context = "failed to spawn engine at ".to_owned();
    context.append(path);
    context
}

} // verus!
