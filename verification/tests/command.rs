use wasm_harness::command::{
    build_engine_command, build_js_shell_command, build_wasmtime_command, driver_script_path,
    driver_to_write, exit_code, Cli, CommandLine, DRIVER_FILE_NAME,
};
use wasm_harness::engine::EngineKind;
use wasm_harness::forwarding::EnvVar;
use wasm_harness::paths::{path_file_name, path_parent};
use wasm_harness::host_paths::UnixPaths;

fn cli(inherit_env: bool) -> Cli {
    Cli {
        engine: None,
        engine_flags: vec!["-W".to_string(), "threads=y".to_string()],
        inherit_env,
        wasm: b"/tmp/bench.wasm".to_vec(),
        program_args: vec!["--bench".to_string(), "fib".to_string()],
    }
}

fn vars() -> Vec<EnvVar> {
    let var = |key: &[u8], value: &[u8]| EnvVar {
        key: key.to_vec(),
        value: value.to_vec(),
    };
    vec![
        var(b"PATH", b"/bin"),
        var(b"RUST_LOG", b"info"),
        var(b"\xff", b"x"),
        var(b"WASM_HARNESS_ENV_A", b"\xfe"),
    ]
}

fn texts(cmd: &CommandLine) -> Vec<&[u8]> {
    cmd.args.iter().map(|arg| arg.as_slice()).collect()
}

#[test]
fn js_shell_command_line() {
    let mut cmd = CommandLine::new(b"/usr/bin/d8".to_vec());
    build_js_shell_command(&mut cmd, &cli(false), b"/tmp/driver.js", &vars());
    assert_eq!(cmd.program, b"/usr/bin/d8");
    let expected: Vec<&[u8]> = vec![
        b"-W",
        b"threads=y",
        b"/tmp/driver.js",
        b"--",
        b"/tmp/bench.wasm",
        b"--driver-path=/tmp/driver.js",
        b"--bench",
        b"fib",
        b"--env=RUST_LOG=info",
        b"--env=A=\xfe",
    ];
    assert_eq!(texts(&cmd), expected);
}

#[test]
fn wasmtime_command_line() {
    let mut cmd = CommandLine::new(b"wasmtime".to_vec());
    build_wasmtime_command(&mut cmd, &cli(false), &vars());
    assert_eq!(cmd.program, b"wasmtime");
    let expected: Vec<&[u8]> = vec![
        b"run",
        b"-W",
        b"threads=y",
        b"--env",
        b"RUST_LOG=info",
        b"--env",
        b"A=\xfe",
        b"--",
        b"/tmp/bench.wasm",
        b"--bench",
        b"fib",
    ];
    assert_eq!(texts(&cmd), expected);
}

#[test]
fn inherited_environment_keeps_names() {
    let mut cmd = CommandLine::new(b"wasmtime".to_vec());
    build_wasmtime_command(&mut cmd, &cli(true), &vars());
    let expected: Vec<&[u8]> = vec![
        b"run",
        b"-W",
        b"threads=y",
        b"--env",
        b"PATH=/bin",
        b"--env",
        b"RUST_LOG=info",
        b"--env",
        b"\xff=x",
        b"--env",
        b"WASM_HARNESS_ENV_A=\xfe",
        b"--",
        b"/tmp/bench.wasm",
        b"--bench",
        b"fib",
    ];
    assert_eq!(texts(&cmd), expected);
}

#[test]
fn both_engines_get_the_same_environment() {
    for inherit_env in [false, true] {
        let mut js = CommandLine::new(Vec::new());
        let mut native = CommandLine::new(Vec::new());
        build_js_shell_command(&mut js, &cli(inherit_env), b"d.js", &vars());
        build_wasmtime_command(&mut native, &cli(inherit_env), &vars());
        let from_js: Vec<Vec<u8>> = js
            .args
            .iter()
            .filter(|arg| arg.starts_with(b"--env="))
            .map(|arg| arg[6..].to_vec())
            .collect();
        let mut from_native: Vec<Vec<u8>> = Vec::new();
        for i in 1..native.args.len() {
            if native.args[i - 1] == b"--env" {
                from_native.push(native.args[i].clone());
            }
        }
        assert_eq!(from_js, from_native);
    }
}

#[test]
fn builders_append() {
    let mut cmd = CommandLine::new(b"e".to_vec());
    cmd.arg(b"first".to_vec());
    let mut bare = cli(false);
    bare.engine_flags.clear();
    bare.program_args.clear();
    build_wasmtime_command(&mut cmd, &bare, &Vec::new());
    let expected: Vec<&[u8]> = vec![b"first", b"run", b"--", b"/tmp/bench.wasm"];
    assert_eq!(texts(&cmd), expected);
}

#[test]
fn driver_goes_next_to_the_wasm_file() {
    assert_eq!(
        driver_script_path(&UnixPaths, b"/tmp/x/bench.wasm"),
        b"/tmp/x/wasm-harness-driver.js"
    );
    assert_eq!(driver_script_path(&UnixPaths, b"bench.wasm"), b"wasm-harness-driver.js");
    assert_eq!(
        driver_script_path(&UnixPaths, b"./bench.wasm"),
        b"./wasm-harness-driver.js"
    );
    assert_eq!(driver_script_path(&UnixPaths, b"/bench.wasm"), b"/wasm-harness-driver.js");
    assert_eq!(driver_script_path(&UnixPaths, b""), b"./wasm-harness-driver.js");
    assert_eq!(driver_script_path(&UnixPaths, b"/"), b"./wasm-harness-driver.js");
    let driver = driver_script_path(&UnixPaths, b"/a//b/./c.wasm");
    assert_eq!(path_parent(&driver), path_parent(b"/a//b/./c.wasm"));
    assert_eq!(path_file_name(&driver), Some(DRIVER_FILE_NAME.as_bytes()));
}

#[test]
fn wasmtime_skips_the_driver() {
    assert_eq!(
        driver_to_write(&UnixPaths, EngineKind::JsShell, b"/tmp/bench.wasm").unwrap(),
        b"/tmp/wasm-harness-driver.js"
    );
    assert!(driver_to_write(&UnixPaths, EngineKind::Wasmtime, b"/tmp/bench.wasm").is_none());
}

#[test]
fn command_goes_by_the_kind_of_engine() {
    let mut js = CommandLine::new(b"d8".to_vec());
    build_engine_command(&mut js, &UnixPaths, EngineKind::JsShell, &cli(false), &vars());
    let mut expected = CommandLine::new(b"d8".to_vec());
    let driver = driver_script_path(&UnixPaths, b"/tmp/bench.wasm");
    build_js_shell_command(&mut expected, &cli(false), &driver, &vars());
    assert_eq!(texts(&js), texts(&expected));

    let mut native = CommandLine::new(b"wasmtime".to_vec());
    build_engine_command(&mut native, &UnixPaths, EngineKind::Wasmtime, &cli(false), &vars());
    let mut expected = CommandLine::new(b"wasmtime".to_vec());
    build_wasmtime_command(&mut expected, &cli(false), &vars());
    assert_eq!(texts(&native), texts(&expected));
}

#[test]
fn exit_code_is_passed_on() {
    assert_eq!(exit_code(Some(0)), 0);
    assert_eq!(exit_code(Some(101)), 101);
    assert_eq!(exit_code(Some(-1)), -1);
    assert_eq!(exit_code(None), 1);
}
