//! The command line that runs a wasm program under an engine.

use crate::engine::EngineKind;
use crate::forwarding::{
    assignment, destination, env_assignment, forwarded_env_pair, forwarded_vars,
    host_env_to_js_arg, js_env_arg, lemma_assignment, lemma_every_var_is_handed_over, EnvVar,
};
use crate::host_paths::{HostPaths, UnixPaths};
use crate::paths::{
    file_name, is_plain_name, lemma_join_plain_name, lemma_trimmed, parent, segment_start, trimmed,
    SLASH,
};
use crate::text::{copy_bytes, each_view, lemma_each_view, optional_view, push_bytes, str_bytes};
use vstd::prelude::*;
use vstd::utf8::{encode_utf8, is_ascii_chars_encode_utf8};

verus! {

/// The name under which the driver script is written next to the wasm file.
pub const DRIVER_FILE_NAME: &'static str = "wasm-harness-driver.js";

/// What the user asked the runner to do.
pub struct Cli {
    /// The engine to use: a path or a short name.
    pub engine: Option<String>,
    /// Extra flags for the engine itself.
    pub engine_flags: Vec<String>,
    /// Hand every host variable to the wasm program, not just the whitelist.
    pub inherit_env: bool,
    /// The wasm file to run.
    pub wasm: Vec<u8>,
    /// Arguments for the wasm program.
    pub program_args: Vec<String>,
}

/// An engine and its arguments.
pub struct CommandLine {
    pub program: Vec<u8>,
    pub args: Vec<Vec<u8>>,
}

/// A list of strings as arguments.
pub open spec fn string_args(strings: Seq<String>) -> Seq<Seq<u8>> {
    strings.map_values(|s: String| encode_utf8(s@))
}

/// The arguments that hand variables to the driver script: one `--env=KEY=VALUE`
/// for each.
pub open spec fn js_env_args(vars: Seq<(Seq<u8>, Seq<u8>)>) -> Seq<Seq<u8>> {
    vars.map_values(|var: (Seq<u8>, Seq<u8>)| js_env_arg(var.0, var.1))
}

/// The arguments that hand variables to `wasmtime`: an `--env` and a `KEY=VALUE` for
/// each.
pub open spec fn wasmtime_env_args(vars: Seq<(Seq<u8>, Seq<u8>)>) -> Seq<Seq<u8>>
    decreases vars.len(),
{
    if vars.len() == 0 {
        Seq::empty()
    } else {
        wasmtime_env_args(vars.drop_last()) + seq![
            encode_utf8("--env"@),
            assignment(vars.last().0, vars.last().1),
        ]
    }
}

/// The arguments of a JavaScript shell:
/// `[flags] <driver> -- <wasm> --driver-path=<driver> [args] [--env=K=V ...]`.
pub open spec fn js_shell_args(cli: Cli, driver: Seq<u8>, vars: Seq<(Seq<u8>, Seq<u8>)>) -> Seq<
    Seq<u8>,
> {
    string_args(cli.engine_flags@) + seq![
        driver,
        encode_utf8("--"@),
        cli.wasm@,
        encode_utf8("--driver-path="@) + driver,
    ] + string_args(cli.program_args@) + js_env_args(forwarded_vars(vars, cli.inherit_env))
}

/// The arguments of `wasmtime`: `run [flags] [--env K=V ...] -- <wasm> [args]`.
///
/// The `--` stands before the wasm file so that `wasmtime` does not take the
/// program's arguments for its own.
pub open spec fn wasmtime_args(cli: Cli, vars: Seq<(Seq<u8>, Seq<u8>)>) -> Seq<Seq<u8>> {
    seq![encode_utf8("run"@)] + string_args(cli.engine_flags@) + wasmtime_env_args(
        forwarded_vars(vars, cli.inherit_env),
    ) + seq![encode_utf8("--"@), cli.wasm@] + string_args(cli.program_args@)
}

/// The `i`-th of several arguments is the `i`-th string, as bytes.
pub proof fn lemma_string_args(strings: Seq<String>)
    ensures
        string_args(strings).len() == strings.len(),
        forall|i: int|
            0 <= i < strings.len() ==> #[trigger] string_args(strings)[i] == encode_utf8(
                strings[i]@,
            ),
{
}

/// The `i`-th argument that hands a variable to the driver script is `--env=`, the key
/// of the `i`-th variable, `=` and its value.
pub proof fn lemma_js_env_args(vars: Seq<(Seq<u8>, Seq<u8>)>)
    ensures
        js_env_args(vars).len() == vars.len(),
        forall|i: int|
            0 <= i < vars.len() ==> #[trigger] js_env_args(vars)[i] == encode_utf8("--env="@)
                + vars[i].0 + seq![0x3du8] + vars[i].1,
{
    assert forall|i: int| 0 <= i < vars.len() implies #[trigger] js_env_args(vars)[i]
        == encode_utf8("--env="@) + vars[i].0 + seq![0x3du8] + vars[i].1 by {
        lemma_assignment(vars[i].0, vars[i].1);
    }
}

/// The `i`-th pair of arguments that hands a variable to `wasmtime` is `--env`, and the
/// key of the `i`-th variable, `=` and its value.
pub proof fn lemma_wasmtime_env_args(vars: Seq<(Seq<u8>, Seq<u8>)>, i: int)
    requires
        0 <= i < vars.len(),
    ensures
        wasmtime_env_args(vars).len() == 2 * vars.len(),
        wasmtime_env_args(vars)[2 * i] == encode_utf8("--env"@),
        wasmtime_env_args(vars)[2 * i + 1] == vars[i].0 + seq![0x3du8] + vars[i].1,
    decreases vars.len(),
{
    lemma_assignment(vars[i].0, vars[i].1);
    lemma_wasmtime_env_args_len(vars);
    lemma_wasmtime_env_args_len(vars.drop_last());
    if i < vars.len() - 1 {
        lemma_wasmtime_env_args(vars.drop_last(), i);
    }
}

/// What stands at a fixed place among the arguments of a JavaScript shell, and how many
/// there are: behind the flags come the driver, the `--`, the wasm file and the driver's
/// path, then the program's arguments and the variables that are handed over.
pub proof fn lemma_js_shell_args(cli: Cli, driver: Seq<u8>, vars: Seq<(Seq<u8>, Seq<u8>)>)
    ensures
        js_shell_args(cli, driver, vars).len() == cli.engine_flags@.len() + 4
            + cli.program_args@.len() + forwarded_vars(vars, cli.inherit_env).len(),
        js_shell_args(cli, driver, vars)[cli.engine_flags@.len() as int] == driver,
        js_shell_args(cli, driver, vars)[cli.engine_flags@.len() + 1int] == encode_utf8("--"@),
        js_shell_args(cli, driver, vars)[cli.engine_flags@.len() + 2int] == cli.wasm@,
        js_shell_args(cli, driver, vars)[cli.engine_flags@.len() + 3int] == encode_utf8(
            "--driver-path="@,
        ) + driver,
{
}

/// A JavaScript shell gets the `i`-th flag as its `i`-th argument.
pub proof fn lemma_js_shell_flag(
    cli: Cli,
    driver: Seq<u8>,
    vars: Seq<(Seq<u8>, Seq<u8>)>,
    i: int,
)
    requires
        0 <= i < cli.engine_flags@.len(),
    ensures
        js_shell_args(cli, driver, vars)[i] == encode_utf8(cli.engine_flags@[i]@),
{
    lemma_string_args(cli.engine_flags@);
    assert(js_shell_args(cli, driver, vars)[i] == string_args(cli.engine_flags@)[i]);
}

/// A JavaScript shell gets the `i`-th argument of the program as the `i`-th one behind the
/// wasm file and the driver's path.
pub proof fn lemma_js_shell_program_arg(
    cli: Cli,
    driver: Seq<u8>,
    vars: Seq<(Seq<u8>, Seq<u8>)>,
    i: int,
)
    requires
        0 <= i < cli.program_args@.len(),
    ensures
        js_shell_args(cli, driver, vars)[cli.engine_flags@.len() + 4 + i] == encode_utf8(
            cli.program_args@[i]@,
        ),
{
    lemma_string_args(cli.program_args@);
    assert(js_shell_args(cli, driver, vars)[cli.engine_flags@.len() + 4 + i] == string_args(
        cli.program_args@,
    )[i]);
}

/// A JavaScript shell gets the `i`-th variable that is handed over as the `i`-th argument
/// behind those of the program.
pub proof fn lemma_js_shell_var(
    cli: Cli,
    driver: Seq<u8>,
    vars: Seq<(Seq<u8>, Seq<u8>)>,
    i: int,
)
    requires
        0 <= i < forwarded_vars(vars, cli.inherit_env).len(),
    ensures
        js_shell_args(
            cli,
            driver,
            vars,
        )[cli.engine_flags@.len() + 4 + cli.program_args@.len() + i] == encode_utf8("--env="@)
            + forwarded_vars(vars, cli.inherit_env)[i].0 + seq![0x3du8] + forwarded_vars(
            vars,
            cli.inherit_env,
        )[i].1,
{
    let sent = forwarded_vars(vars, cli.inherit_env);
    lemma_js_env_args(sent);
    assert(js_shell_args(
        cli,
        driver,
        vars,
    )[cli.engine_flags@.len() + 4 + cli.program_args@.len() + i] == js_env_args(sent)[i]);
}

/// What stands at a fixed place among the arguments of `wasmtime`, and how many there
/// are: the `run` comes first, then the flags and two arguments for each variable that is
/// handed over, then the `--`, the wasm file and the program's arguments.
pub proof fn lemma_wasmtime_args(cli: Cli, vars: Seq<(Seq<u8>, Seq<u8>)>)
    ensures
        wasmtime_args(cli, vars).len() == 1 + cli.engine_flags@.len() + 2 * forwarded_vars(
            vars,
            cli.inherit_env,
        ).len() + 2 + cli.program_args@.len(),
        wasmtime_args(cli, vars)[0] == encode_utf8("run"@),
        wasmtime_args(cli, vars)[wasmtime_args(cli, vars).len() - cli.program_args@.len() - 2]
            == encode_utf8("--"@),
        wasmtime_args(cli, vars)[wasmtime_args(cli, vars).len() - cli.program_args@.len() - 1]
            == cli.wasm@,
{
    lemma_wasmtime_env_args_len(forwarded_vars(vars, cli.inherit_env));
}

/// `wasmtime` gets the `i`-th flag as the `i`-th argument behind the `run`.
pub proof fn lemma_wasmtime_flag(cli: Cli, vars: Seq<(Seq<u8>, Seq<u8>)>, i: int)
    requires
        0 <= i < cli.engine_flags@.len(),
    ensures
        wasmtime_args(cli, vars)[1 + i] == encode_utf8(cli.engine_flags@[i]@),
{
    lemma_string_args(cli.engine_flags@);
    assert(wasmtime_args(cli, vars)[1 + i] == string_args(cli.engine_flags@)[i]);
}

/// `wasmtime` gets the `i`-th variable that is handed over as the `i`-th pair of
/// arguments behind the flags.
pub proof fn lemma_wasmtime_var(cli: Cli, vars: Seq<(Seq<u8>, Seq<u8>)>, i: int)
    requires
        0 <= i < forwarded_vars(vars, cli.inherit_env).len(),
    ensures
        wasmtime_args(cli, vars)[1 + cli.engine_flags@.len() + 2 * i] == encode_utf8("--env"@),
        wasmtime_args(cli, vars)[2 + cli.engine_flags@.len() + 2 * i] == forwarded_vars(
            vars,
            cli.inherit_env,
        )[i].0 + seq![0x3du8] + forwarded_vars(vars, cli.inherit_env)[i].1,
{
    let sent = forwarded_vars(vars, cli.inherit_env);
    let flags = cli.engine_flags@.len() as int;
    lemma_wasmtime_env_args(sent, i);
    assert(wasmtime_args(cli, vars)[1 + flags + 2 * i] == wasmtime_env_args(sent)[2 * i]);
    assert(wasmtime_args(cli, vars)[2 + flags + 2 * i] == wasmtime_env_args(sent)[2 * i + 1]);
}

/// `wasmtime` gets the `i`-th argument of the program as the `i`-th one behind the wasm
/// file.
pub proof fn lemma_wasmtime_program_arg(cli: Cli, vars: Seq<(Seq<u8>, Seq<u8>)>, i: int)
    requires
        0 <= i < cli.program_args@.len(),
    ensures
        wasmtime_args(cli, vars)[wasmtime_args(cli, vars).len() - cli.program_args@.len() + i]
            == encode_utf8(cli.program_args@[i]@),
{
    lemma_string_args(cli.program_args@);
    lemma_wasmtime_env_args_len(forwarded_vars(vars, cli.inherit_env));
    assert(wasmtime_args(
        cli,
        vars,
    )[wasmtime_args(cli, vars).len() - cli.program_args@.len() + i] == string_args(
        cli.program_args@,
    )[i]);
}

/// Either kind of engine is handed every variable of the host's that has a destination,
/// under that key and with its value: none is left out.
pub proof fn lemma_engines_see_every_var(
    cli: Cli,
    driver: Seq<u8>,
    vars: Seq<(Seq<u8>, Seq<u8>)>,
    i: int,
)
    requires
        0 <= i < vars.len(),
        destination(vars[i].0, cli.inherit_env) is Some,
    ensures
        ({
            let dest = destination(vars[i].0, cli.inherit_env)->0;
            let js = js_shell_args(cli, driver, vars);
            let wasmtime = wasmtime_args(cli, vars);
            &&& js.contains(encode_utf8("--env="@) + dest + seq![0x3du8] + vars[i].1)
            &&& exists|j: int|
                0 <= j < wasmtime.len() - 1 && #[trigger] wasmtime[j] == encode_utf8("--env"@)
                    && wasmtime[j + 1] == dest + seq![0x3du8] + vars[i].1
        }),
{
    let js = js_shell_args(cli, driver, vars);
    let wasmtime = wasmtime_args(cli, vars);
    let sent = forwarded_vars(vars, cli.inherit_env);
    let flags = cli.engine_flags@.len() as int;
    let own = cli.program_args@.len() as int;
    let at = forwarded_vars(vars.take(i), cli.inherit_env).len() as int;
    lemma_every_var_is_handed_over(vars, cli.inherit_env, i);
    lemma_js_shell_args(cli, driver, vars);
    lemma_js_shell_var(cli, driver, vars, at);
    lemma_wasmtime_args(cli, vars);
    lemma_wasmtime_var(cli, vars, at);
    assert(js[flags + 4 + own + at] == encode_utf8("--env="@) + sent[at].0 + seq![0x3du8]
        + sent[at].1);
    assert(wasmtime[1 + flags + 2 * at] == encode_utf8("--env"@));
}

/// Where arguments were added behind others, those that were there before stand where
/// they stood, and each added one stands as far behind them as it did on its own.
proof fn lemma_args_behind(before: Seq<Vec<u8>>, added: Seq<Seq<u8>>, after: Seq<Vec<u8>>)
    requires
        each_view(after) == each_view(before) + added,
    ensures
        after.len() == before.len() + added.len(),
        forall|i: int| 0 <= i < before.len() ==> (#[trigger] after[i])@ == before[i]@,
        forall|i: int|
            before.len() <= i < after.len() ==> (#[trigger] after[i])@ == added[i - before.len()],
{
    lemma_each_view(before);
    lemma_each_view(after);
    assert forall|i: int| 0 <= i < after.len() implies (#[trigger] after[i])@ == each_view(
        after,
    )[i] by {}
    assert forall|i: int| 0 <= i < before.len() implies (#[trigger] before[i])@ == each_view(
        before,
    )[i] by {}
}

impl CommandLine {
    /// An engine without arguments.
    pub fn new(program: Vec<u8>) -> (res: CommandLine)
        ensures
            res.program == program,
            each_view(res.args@) == Seq::<Seq<u8>>::empty(),
            res.args@.len() == 0,
    {
        let args: Vec<Vec<u8>> = Vec::new();
        assert(each_view(args@) =~= Seq::<Seq<u8>>::empty());
        CommandLine { program, args }
    }

    /// Adds one argument.
    pub fn arg(&mut self, arg: Vec<u8>)
        ensures
            final(self).program == old(self).program,
            each_view(final(self).args@) == each_view(old(self).args@).push(arg@),
            final(self).args@ == old(self).args@.push(arg),
    {
        self.args.push(arg);
        assert(each_view(self.args@) =~= each_view(old(self).args@).push(arg@));
    }

    /// Adds each of several arguments.
    pub fn args(&mut self, args: &Vec<String>)
        ensures
            final(self).program == old(self).program,
            each_view(final(self).args@) == each_view(old(self).args@) + string_args(args@),
            final(self).args@.len() == old(self).args@.len() + args@.len(),
            forall|i: int|
                0 <= i < old(self).args@.len() ==> #[trigger] final(self).args@[i] == old(
                    self,
                ).args@[i],
            forall|i: int|
                0 <= i < args@.len() ==> final(self).args@[old(self).args@.len() + i]@
                    == encode_utf8((#[trigger] args@[i])@),
    {
        let ghost before = each_view(self.args@);
        assert(before =~= before + string_args(args@).take(0));
        for i in 0..args.len()
            invariant
                self.program == old(self).program,
                each_view(self.args@) == before + string_args(args@).take(i as int),
                self.args@.len() == old(self).args@.len() + i,
                forall|j: int|
                    0 <= j < old(self).args@.len() ==> #[trigger] self.args@[j] == old(
                        self,
                    ).args@[j],
                forall|j: int|
                    0 <= j < i ==> self.args@[old(self).args@.len() + j]@ == encode_utf8(
                        (#[trigger] args@[j])@,
                    ),
        {
            self.arg(str_bytes(args[i].as_str()));
            assert(before + string_args(args@).take(i + 1) =~= (before + string_args(args@).take(
                i as int,
            )).push(encode_utf8(args@[i as int]@)));
        }
        assert(string_args(args@).take(args@.len() as int) =~= string_args(args@));
    }
}

/// Adds the arguments that run the wasm program under a JavaScript shell by way of
/// the driver script at `driver_js`. `vars` is the host environment.
pub fn build_js_shell_command(
    cmd: &mut CommandLine,
    cli: &Cli,
    driver_js: &[u8],
    vars: &Vec<EnvVar>,
)
    ensures
        final(cmd).program == old(cmd).program,
        each_view(final(cmd).args@) == each_view(old(cmd).args@) + js_shell_args(
            *cli,
            driver_js@,
            each_view(vars@),
        ),
        final(cmd).args@.len() == old(cmd).args@.len() + cli.engine_flags@.len() + 4
            + cli.program_args@.len() + forwarded_vars(each_view(vars@), cli.inherit_env).len(),
        forall|i: int|
            0 <= i < old(cmd).args@.len() ==> (#[trigger] final(cmd).args@[i])@ == old(
                cmd,
            ).args@[i]@,
        forall|i: int|
            0 <= i < cli.engine_flags@.len() ==> final(cmd).args@[old(cmd).args@.len() + i]@
                == encode_utf8((#[trigger] cli.engine_flags@[i])@),
        forall|i: int|
            0 <= i < cli.program_args@.len() ==> final(cmd).args@[old(cmd).args@.len()
                + cli.engine_flags@.len() + 4 + i]@ == encode_utf8(
                (#[trigger] cli.program_args@[i])@,
            ),
{
    cmd.args(&cli.engine_flags);
    cmd.arg(copy_bytes(driver_js));
    cmd.arg(str_bytes("--"));
    cmd.arg(copy_bytes(cli.wasm.as_slice()));
    let mut driver_path_arg = str_bytes("--driver-path=");
    push_bytes(&mut driver_path_arg, driver_js);
    cmd.arg(driver_path_arg);
    cmd.args(&cli.program_args);

    let ghost host = each_view(vars@);
    let ghost before = each_view(cmd.args@);
    assert(before =~= before + js_env_args(forwarded_vars(host.take(0), cli.inherit_env)));
    for i in 0..vars.len()
        invariant
            host == each_view(vars@),
            cmd.program == old(cmd).program,
            each_view(cmd.args@) == before + js_env_args(
                forwarded_vars(host.take(i as int), cli.inherit_env),
            ),
    {
        assert(host.take(i + 1).drop_last() =~= host.take(i as int));
        let ghost now = each_view(cmd.args@);
        let var = &vars[i];
        if let Some(injection) = host_env_to_js_arg(
            var.key.as_slice(),
            var.value.as_slice(),
            cli.inherit_env,
        ) {
            let ghost arg = injection@;
            cmd.arg(injection);
            assert(now.push(arg) =~= before + js_env_args(
                forwarded_vars(host.take(i + 1), cli.inherit_env),
            ));
        }
    }
    assert(host.take(vars@.len() as int) =~= host);
    assert(each_view(cmd.args@) =~= each_view(old(cmd).args@) + js_shell_args(
        *cli,
        driver_js@,
        host,
    ));
    proof {
        let n = old(cmd).args@.len() as int;
        let added = js_shell_args(*cli, driver_js@, host);
        lemma_js_shell_args(*cli, driver_js@, host);
        lemma_args_behind(old(cmd).args@, added, cmd.args@);
        assert forall|i: int| 0 <= i < cli.engine_flags@.len() implies cmd.args@[n + i]@
            == encode_utf8((#[trigger] cli.engine_flags@[i])@) by {
            lemma_js_shell_flag(*cli, driver_js@, host, i);
        }
        assert forall|i: int| 0 <= i < cli.program_args@.len() implies cmd.args@[n
            + cli.engine_flags@.len() + 4 + i]@ == encode_utf8(
            (#[trigger] cli.program_args@[i])@,
        ) by {
            lemma_js_shell_program_arg(*cli, driver_js@, host, i);
        }
    }
}

/// Adds the arguments that run the wasm program under `wasmtime`. `vars` is the host
/// environment.
pub fn build_wasmtime_command(cmd: &mut CommandLine, cli: &Cli, vars: &Vec<EnvVar>)
    ensures
        final(cmd).program == old(cmd).program,
        each_view(final(cmd).args@) == each_view(old(cmd).args@) + wasmtime_args(
            *cli,
            each_view(vars@),
        ),
        final(cmd).args@.len() == old(cmd).args@.len() + 1 + cli.engine_flags@.len() + 2
            * forwarded_vars(each_view(vars@), cli.inherit_env).len() + 2
            + cli.program_args@.len(),
        forall|i: int|
            0 <= i < old(cmd).args@.len() ==> (#[trigger] final(cmd).args@[i])@ == old(
                cmd,
            ).args@[i]@,
        forall|i: int|
            0 <= i < cli.engine_flags@.len() ==> final(cmd).args@[old(cmd).args@.len() + 1 + i]@
                == encode_utf8((#[trigger] cli.engine_flags@[i])@),
        forall|i: int|
            0 <= i < cli.program_args@.len() ==> final(cmd).args@[final(cmd).args@.len()
                - cli.program_args@.len() + i]@ == encode_utf8((#[trigger] cli.program_args@[i])@),
{
    cmd.arg(str_bytes("run"));
    cmd.args(&cli.engine_flags);

    let ghost host = each_view(vars@);
    let ghost before = each_view(cmd.args@);
    assert(before =~= before + wasmtime_env_args(forwarded_vars(host.take(0), cli.inherit_env)));
    for i in 0..vars.len()
        invariant
            host == each_view(vars@),
            cmd.program == old(cmd).program,
            each_view(cmd.args@) == before + wasmtime_env_args(
                forwarded_vars(host.take(i as int), cli.inherit_env),
            ),
    {
        assert(host.take(i + 1).drop_last() =~= host.take(i as int));
        let ghost now = each_view(cmd.args@);
        let var = &vars[i];
        if let Some((key, value)) = forwarded_env_pair(
            var.key.as_slice(),
            var.value.as_slice(),
            cli.inherit_env,
        ) {
            cmd.arg(str_bytes("--env"));
            cmd.arg(env_assignment(key, value));
            proof {
                let sent = forwarded_vars(host.take(i as int), cli.inherit_env);
                assert(sent.push((key@, value@)).drop_last() =~= sent);
                assert(each_view(cmd.args@) =~= before + wasmtime_env_args(
                    sent.push((key@, value@)),
                ));
            }
        }
    }
    assert(host.take(vars@.len() as int) =~= host);

    cmd.arg(str_bytes("--"));
    cmd.arg(copy_bytes(cli.wasm.as_slice()));
    cmd.args(&cli.program_args);
    assert(each_view(cmd.args@) =~= each_view(old(cmd).args@) + wasmtime_args(*cli, host));
    proof {
        let n = old(cmd).args@.len() as int;
        let added = wasmtime_args(*cli, host);
        lemma_wasmtime_args(*cli, host);
        lemma_args_behind(old(cmd).args@, added, cmd.args@);
        assert forall|i: int| 0 <= i < cli.engine_flags@.len() implies cmd.args@[n + 1 + i]@
            == encode_utf8((#[trigger] cli.engine_flags@[i])@) by {
            lemma_wasmtime_flag(*cli, host, i);
        }
        assert forall|i: int| 0 <= i < cli.program_args@.len() implies cmd.args@[cmd.args@.len()
            - cli.program_args@.len() + i]@ == encode_utf8((#[trigger] cli.program_args@[i])@) by {
            lemma_wasmtime_program_arg(*cli, host, i);
        }
    }
}

/// Where the driver script goes: next to the wasm file.
pub open spec fn driver_path<H: HostPaths>(host: H, wasm: Seq<u8>) -> Seq<u8> {
    let dir = match host.parent_spec(wasm) {
        Some(dir) => dir,
        None => encode_utf8("."@),
    };
    host.join_spec(dir, encode_utf8(DRIVER_FILE_NAME@))
}

/// Where to write the driver script for a wasm file.
pub fn driver_script_path<H: HostPaths>(host: &H, wasm: &[u8]) -> (res: Vec<u8>)
    ensures
        res@ == driver_path(*host, wasm@),
        host.parent_spec(wasm@) matches Some(dir) ==> res@ == host.join_spec(
            dir,
            encode_utf8("wasm-harness-driver.js"@),
        ),
        host.parent_spec(wasm@) is None ==> res@ == host.join_spec(
            encode_utf8("."@),
            encode_utf8("wasm-harness-driver.js"@),
        ),
{
    let dir = match host.parent(wasm) {
        Some(dir) => dir,
        None => str_bytes("."),
    };
    host.join(dir.as_slice(), DRIVER_FILE_NAME.as_bytes())
}

/// The driver script to write before an engine is run. Only a JavaScript shell needs
/// one: `wasmtime` skips it.
pub fn driver_to_write<H: HostPaths>(host: &H, kind: EngineKind, wasm: &[u8]) -> (res: Option<
    Vec<u8>,
>)
    ensures
        optional_view(res) == if kind == EngineKind::JsShell {
            Some(driver_path(*host, wasm@))
        } else {
            None
        },
        kind == EngineKind::JsShell <==> res is Some,
        res matches Some(path) ==> path@ == driver_path(*host, wasm@),
{
    match kind {
        EngineKind::JsShell => Some(driver_script_path(host, wasm)),
        EngineKind::Wasmtime => None,
    }
}

/// The driver script is joined to the host's parent of the wasm file, or to `.` where
/// the host knows none.
pub proof fn lemma_driver_path<H: HostPaths>(host: H, wasm: Seq<u8>)
    ensures
        host.parent_spec(wasm) matches Some(dir) ==> driver_path(host, wasm) == host.join_spec(
            dir,
            encode_utf8("wasm-harness-driver.js"@),
        ),
        host.parent_spec(wasm) is None ==> driver_path(host, wasm) == host.join_spec(
            encode_utf8("."@),
            encode_utf8("wasm-harness-driver.js"@),
        ),
{
}

/// The arguments of an engine, by its kind.
pub open spec fn engine_args<H: HostPaths>(
    host: H,
    kind: EngineKind,
    cli: Cli,
    vars: Seq<(Seq<u8>, Seq<u8>)>,
) -> Seq<Seq<u8>> {
    match kind {
        EngineKind::JsShell => js_shell_args(cli, driver_path(host, cli.wasm@), vars),
        EngineKind::Wasmtime => wasmtime_args(cli, vars),
    }
}

/// A JavaScript shell is run on the driver script that is written for the wasm file, and
/// `wasmtime` on the wasm file itself.
pub proof fn lemma_engine_args<H: HostPaths>(
    host: H,
    cli: Cli,
    vars: Seq<(Seq<u8>, Seq<u8>)>,
)
    ensures
        engine_args(host, EngineKind::JsShell, cli, vars) == js_shell_args(
            cli,
            driver_path(host, cli.wasm@),
            vars,
        ),
        engine_args(host, EngineKind::Wasmtime, cli, vars) == wasmtime_args(cli, vars),
{
}

/// Adds the arguments that run the wasm program under an engine of the given kind.
/// `vars` is the host environment.
pub fn build_engine_command<H: HostPaths>(
    cmd: &mut CommandLine,
    host: &H,
    kind: EngineKind,
    cli: &Cli,
    vars: &Vec<EnvVar>,
)
    ensures
        final(cmd).program == old(cmd).program,
        each_view(final(cmd).args@) == each_view(old(cmd).args@) + engine_args(
            *host,
            kind,
            *cli,
            each_view(vars@),
        ),
{
    match kind {
        EngineKind::JsShell => {
            let driver_js = driver_script_path(host, cli.wasm.as_slice());
            build_js_shell_command(cmd, cli, driver_js.as_slice(), vars);
        },
        EngineKind::Wasmtime => build_wasmtime_command(cmd, cli, vars),
    }
}

/// The runner's exit code, given the engine's: the same, or 1 where the engine was
/// ended by a signal and has none.
pub fn exit_code(engine: Option<i32>) -> (res: i32)
    ensures
        res == match engine {
            Some(code) => code,
            None => 1,
        },
{
    engine.unwrap_or(1)
}

proof fn lemma_wasmtime_env_args_len(vars: Seq<(Seq<u8>, Seq<u8>)>)
    ensures
        wasmtime_env_args(vars).len() == 2 * vars.len(),
    decreases vars.len(),
{
    if vars.len() > 0 {
        lemma_wasmtime_env_args_len(vars.drop_last());
    }
}

/// Both kinds of engine are handed the same variables, in the same order: the driver
/// script gets `--env=KEY=VALUE` where `wasmtime` gets `--env` and `KEY=VALUE`.
pub proof fn lemma_engines_see_the_same_env(vars: Seq<(Seq<u8>, Seq<u8>)>, i: int)
    requires
        0 <= i < vars.len(),
    ensures
        js_env_args(vars).len() == vars.len(),
        wasmtime_env_args(vars).len() == 2 * vars.len(),
        wasmtime_env_args(vars)[2 * i] == encode_utf8("--env"@),
        js_env_args(vars)[i] == encode_utf8("--env="@) + wasmtime_env_args(vars)[2 * i + 1],
    decreases vars.len(),
{
    lemma_wasmtime_env_args_len(vars);
    lemma_wasmtime_env_args_len(vars.drop_last());
    if i < vars.len() - 1 {
        lemma_engines_see_the_same_env(vars.drop_last(), i);
        assert(js_env_args(vars)[i] == js_env_args(vars.drop_last())[i]);
    }
}

/// `wasmtime` gets no argument of the wasm program before the `--`: what stands up to
/// it is settled by the engine's flags and the environment alone, and behind it stand
/// the wasm file and the program's arguments, unchanged and in order.
pub proof fn lemma_wasmtime_separates_program_args(
    cli: Cli,
    other: Cli,
    vars: Seq<(Seq<u8>, Seq<u8>)>,
)
    requires
        cli.engine_flags == other.engine_flags,
        cli.inherit_env == other.inherit_env,
    ensures
        ({
            let args = wasmtime_args(cli, vars);
            let env = forwarded_vars(vars, cli.inherit_env);
            let separator = 1 + cli.engine_flags@.len() as int + 2 * env.len() as int;
            &&& args[separator] == encode_utf8("--"@)
            &&& args.take(separator) == wasmtime_args(other, vars).take(separator)
            &&& args.skip(separator + 1) == seq![cli.wasm@] + string_args(cli.program_args@)
        }),
{
    let sent = forwarded_vars(vars, cli.inherit_env);
    lemma_wasmtime_env_args_len(sent);
    let own = seq![encode_utf8("run"@)] + string_args(cli.engine_flags@) + wasmtime_env_args(sent);
    let separator = own.len() as int;
    assert(wasmtime_args(cli, vars).take(separator) =~= own);
    assert(wasmtime_args(other, vars).take(separator) =~= own);
    assert(wasmtime_args(cli, vars).skip(separator + 1) =~= seq![cli.wasm@] + string_args(
        cli.program_args@,
    ));
}

/// A JavaScript shell gets nothing of the wasm program's before the `--` either: only
/// the engine's flags and the driver script. Behind it come the wasm file, the path of
/// the driver, the program's arguments, unchanged and in order, and the environment.
pub proof fn lemma_js_shell_separates_program_args(
    cli: Cli,
    driver: Seq<u8>,
    vars: Seq<(Seq<u8>, Seq<u8>)>,
)
    ensures
        ({
            let args = js_shell_args(cli, driver, vars);
            let separator = cli.engine_flags@.len() as int + 1;
            &&& args[separator] == encode_utf8("--"@)
            &&& args.take(separator) == string_args(cli.engine_flags@).push(driver)
            &&& args.skip(separator + 1) == seq![
                cli.wasm@,
                encode_utf8("--driver-path="@) + driver,
            ] + string_args(cli.program_args@) + js_env_args(forwarded_vars(vars, cli.inherit_env))
        }),
{
    let args = js_shell_args(cli, driver, vars);
    let separator = cli.engine_flags@.len() as int + 1;
    assert(args.take(separator) =~= string_args(cli.engine_flags@).push(driver));
    assert(args.skip(separator + 1) =~= seq![
        cli.wasm@,
        encode_utf8("--driver-path="@) + driver,
    ] + string_args(cli.program_args@) + js_env_args(forwarded_vars(vars, cli.inherit_env)));
}

/// On Unix the driver script is written under its own name into the directory of the wasm
/// file, or into the current one for a path without a parent.
pub proof fn lemma_driver_is_next_to_wasm(wasm: Seq<u8>)
    ensures
        file_name(driver_path(UnixPaths, wasm)) == Some(encode_utf8(DRIVER_FILE_NAME@)),
        parent(driver_path(UnixPaths, wasm)) == match parent(wasm) {
            Some(dir) => Some(dir),
            None => Some(encode_utf8("."@)),
        },
{
    let name = encode_utf8(DRIVER_FILE_NAME@);
    let dir = match parent(wasm) {
        Some(dir) => dir,
        None => encode_utf8("."@),
    };
    reveal_strlit("wasm-harness-driver.js");
    reveal_strlit(".");
    is_ascii_chars_encode_utf8(DRIVER_FILE_NAME@);
    is_ascii_chars_encode_utf8("."@);
    assert(is_plain_name(name)) by {
        assert(name.len() == 22);
        assert forall|i: int| 0 <= i < name.len() implies name[i] != SLASH by {
            assert(DRIVER_FILE_NAME@[i] != '/');
        }
    }
    lemma_trimmed(trimmed(wasm).take(segment_start(trimmed(wasm))));
    lemma_join_plain_name(dir, name);
}

} // verus!
