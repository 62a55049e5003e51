//! A command-shell core library: a typed environment store, an immutable
//! command algebra with structural composition laws, program resolution,
//! built-in command logic, and the planning half of a fork/exec pipeline
//! driver. Process creation and the interactive front end live outside the
//! library; everything here is specified and verified.

pub mod builtins;
pub mod command_spec;
pub mod envlaws;
pub mod environment;
pub mod envvalue;
pub mod inttext;
pub mod overlay;
pub mod repl_core;
pub mod resolve;
pub mod runnable;
pub mod strutil;
pub mod sysinfo;
pub mod textform;
