# wasm-harness

Benchmark and test WebAssembly under a chosen engine: a JavaScript shell
(V8 as `d8` or `v8`, SpiderMonkey as `js`, `sm` or `spidermonkey`) or `wasmtime`.

```toml
[target.wasm32-wasip1]
runner = ["wasm-harness"]
```

- `src/` is the library, verified with Verus: which engine runs the program
  (`search`, `engine`), which host variables it gets to see (`forwarding`), the
  command line it is run with (`command`), what is said where there is no engine
  (`messages`), the host's path rules and those of Unix (`host_paths`, `paths`),
  string functions (`text`), and sample computations to test and time (`workload`).
- `app/` is the program around it: arguments, the file system, the environment,
  the engine's process, and the path rules of hosts other than Unix. `app/driver.rs` holds the script that runs a wasm
  program under a JavaScript shell, in a single thread.
- `tests/` runs the library on concrete values.

## Engines

`--engine` and `$WASM_HARNESS_ENGINE` take a path, which is used verbatim, or a
name, which is looked up on `$PATH` and in `~/.jsvu/bin/`. The flag wins over the
variable. Without either, the known names are looked up in the order `wasmtime`,
`d8`, `v8`, `sm`, `spidermonkey`, `js`.

## Environment

The program sees `CRITERION_*`, `RUST_*`, `RAYON_*` and `NO_COLOR`, and
`WASM_HARNESS_ENV_X` as `X`. With `--inherit-env` it sees every variable, under its
own name. Names and values need not be valid UTF-8.
