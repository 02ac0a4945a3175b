//! The low-level side of running containers: sandboxes built on the host where a container
//! runs, the commands run in them, and their processes.
use super::host::Resources;
use crate::text::strs_view;
use crate::Result;
use std::collections::BTreeMap;
use std::path::PathBuf;
use std::time::Duration;
use vstd::prelude::*;

verus! {

/// What a sandbox is built from: the layers to overlay, its environment, resources, time
/// limit and the command it starts with.
pub struct SandboxSpec {
    layers: Vec<PathBuf>,
    environment: BTreeMap<String, String>,
    resources: Resources,
    time_limit: Option<Duration>,
    command: Option<Command>,
}

/// A command to run in a sandbox.
#[derive(Clone, Debug, PartialEq, Eq)]
pub struct Command {
    pub program: String,
    pub args: Vec<String>,
    pub env: BTreeMap<String, String>,
    pub working_dir: Option<PathBuf>,
}

impl Command {
    /// A command that runs `program` with no arguments, an empty environment and no
    /// working directory.
    pub fn new(program: String) -> (c: Self)
        ensures
            c.program@ == program@,
            strs_view(c.args@) == Seq::<Seq<char>>::empty(),
            c.env@ == Map::<String, String>::empty(),
            c.working_dir is None,
    {
        let args: Vec<String> = Vec::new();
        assert(strs_view(args@) =~= Seq::<Seq<char>>::empty());
        Self { program, args, env: BTreeMap::new(), working_dir: None }
    }
}

#[derive(Clone, Copy, Debug, PartialEq, Eq, Structural)]
pub struct ProcessExit {
    pub code: Option<i32>,
}

#[derive(Clone, Debug, PartialEq, Eq)]
pub struct ProcessOutput {
    pub exit: ProcessExit,
    pub stdout: Vec<u8>,
    pub stderr: Vec<u8>,
}

/// A process in a sandbox.
pub trait Process: Send + Sync {
    fn exit(&self) -> Result<ProcessExit>;

    fn stdout(&self) -> Result<Vec<u8>>;

    fn stderr(&self) -> Result<Vec<u8>>;
}

/// A process that can be waited for and written to.
pub trait AttachedProcess: Process {
    fn wait(&mut self) -> Result<ProcessExit>;

    fn send_stdin(&mut self, bytes: &[u8]) -> Result<usize>;
}

} // verus!
