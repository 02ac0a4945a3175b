//! A stand-in Apptainer engine: every container it launches has already finished
//! successfully, and its diff is a remote layer named after the container.
use crate::runtime::{
    AttachedProcess, CommandSpec, ContainerEngine, ContainerLaunch, ContainerStatus,
    ContainerStatusV, EngineContainer, Layer, LayerReference, ProcessExit, ProcessOutput,
};
use crate::slurm::FinishedAttachedProcess;
use crate::text::{concat, decimal, decimal_string};
use crate::Result;
use std::sync::atomic::{AtomicU64, Ordering};
use std::sync::Arc;
use vstd::prelude::*;

verus! {

/// The id of the container launched with sequence number `n`: `apptainer-stub-` and `n`.
pub open spec fn stub_id_spec(n: nat) -> Seq<char> {
    "apptainer-stub-"@ + decimal(n)
}

/// The id of the container launched with sequence number `n`.
pub fn stub_id(n: u64) -> (id: String)
    ensures
        id@ == stub_id_spec(n as nat),
{
    let digits = decimal_string(n as u128);
    concat("apptainer-stub-", digits.as_str())
}

/// The checksum of a container's diff: `stub-diff:` and the container id.
pub open spec fn stub_diff_checksum(container_id: Seq<char>) -> Seq<char> {
    "stub-diff:"@ + container_id
}

/// The engine; it numbers the containers it launches.
#[derive(Debug)]
pub struct Apptainer {
    next_id: AtomicU64,
}

impl Apptainer {
    /// An engine whose first container gets number 0.
    pub fn new() -> Self {
        Self { next_id: AtomicU64::new(0) }
    }

    /// The next sequence number; the counter moves on by one (wrapping at the top).
    fn take_number(&self) -> u64 {
        self.next_id.fetch_add(1, Ordering::Relaxed)
    }

    /// A new engine behind an `Arc`, to share between schedulers and hosts.
    pub fn shared() -> Arc<Self> {
        Arc::new(Self::new())
    }
}

impl ContainerEngine for Apptainer {
    fn name(&self) -> (r: &str)
        ensures
            r@ == "apptainer"@,
    {
        "apptainer"
    }

    /// Takes the next sequence number and reports a container with that id, the request's
    /// layer, and a status of having finished with exit code 0.
    fn launch(&self, request: ContainerLaunch) -> (r: Result<EngineContainer>)
        ensures
            r matches Ok(c) && {
                &&& exists|n: nat| c.id@ == stub_id_spec(n)
                &&& c.base_layer == request.layer
                &&& c.status@ == ContainerStatusV::Finished(ProcessExit { code: Some(0) })
            },
    {
        let n = self.take_number();
        let id = stub_id(n);
        let ghost k: nat = n as nat;
        assert(id@ == stub_id_spec(k));
        Ok(EngineContainer {
            id,
            base_layer: request.layer,
            status: ContainerStatus::Finished(ProcessExit { code: Some(0) }),
        })
    }

    /// A process that has already exited with code 0.
    fn attach(&self, _container_id: &str) -> (r: Result<Box<dyn AttachedProcess>>)
        ensures
            r is Ok,
    {
        Ok(Box::new(FinishedAttachedProcess::success()))
    }

    /// Exit code 0 with no output.
    fn exec(&self, _container_id: &str, _command: CommandSpec) -> (r: Result<ProcessOutput>)
        ensures
            r matches Ok(o) && {
                &&& o.exit == (ProcessExit { code: Some(0) })
                &&& o.stdout@.len() == 0
                &&& o.stderr@.len() == 0
            },
    {
        Ok(ProcessOutput { exit: ProcessExit { code: Some(0) }, stdout: Vec::new(), stderr: Vec::new() })
    }

    /// A layer with no parent, stored remotely at `apptainer://stub` under the container id,
    /// whose checksum is `stub-diff:` and the container id.
    fn diff(&self, container_id: &str) -> (r: Result<Option<Layer>>)
        ensures
            r matches Ok(Some(l)) && {
                &&& l.spec_parent() is None
                &&& l.spec_reference() matches LayerReference::Remote { store_url, path } && store_url@
                    == "apptainer://stub"@ && path@ == container_id@
                &&& l.spec_checksum() == stub_diff_checksum(container_id@)
            },
    {
        let reference = LayerReference::Remote {
            store_url: String::from_str("apptainer://stub"),
            path: String::from_str(container_id),
        };
        let checksum = concat("stub-diff:", container_id);
        Ok(Some(Layer::new(None, reference, checksum)))
    }
}

} // verus!
