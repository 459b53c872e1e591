//! The options a run is started with.
use vstd::prelude::*;

verus! {

/// The command-line options: help, version, the user class path, and the
/// remaining arguments.
#[derive(Debug)]
pub struct Cmd {
    pub help: bool,
    pub version: bool,
    pub classpath: String,
    pub args: Vec<String>,
}

} // verus!
