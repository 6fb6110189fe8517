//! The decisions of a runner that tests and benchmarks WebAssembly under a chosen
//! engine: which engine to run, which host environment variables to hand over, and
//! what command line to run.
//!
//! Nothing here touches the host. Strings of the host are byte strings, the host's path
//! rules are an argument, what the host has to be asked is asked by value, and the
//! program around this library does the asking.

pub mod command;
pub mod engine;
pub mod forwarding;
pub mod host_paths;
pub mod messages;
pub mod paths;
pub mod search;
pub mod text;
pub mod workload;
