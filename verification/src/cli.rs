//! The command-line tool's requests, the launch behind `run`, and the lines it prints.
use crate::apptainer::{stub_id_spec, Apptainer};
use crate::runtime::{
    CommandSpec, Container, ContainerEngine, Host, HostConfig, Layer, LayerReference,
    ResourceLimits, Resources,
};
use crate::slurm::{host_id_spec, registry_poisoned, SlurmCluster, SlurmScheduler};
use crate::state::{now_unix_secs, HostRecord};
use crate::text::{concat, decimal, decimal_string, strs_view};
use crate::Result;
use std::path::PathBuf;
use std::time::Duration;
use vstd::prelude::*;

verus! {

/// The tool's arguments: where its state is kept, and what to do.
pub struct Cli {
    pub state: Option<PathBuf>,
    pub command: Command,
}

/// What the tool is asked to do.
pub enum Command {
    Build(BuildArgs),
    Run(RunArgs),
    Ps,
    SlurmInfo,
}

/// `build`: the Dockerfile to parse and the build context.
pub struct BuildArgs {
    pub file: PathBuf,
    pub context: PathBuf,
}

/// `run`: the resources to ask for, the image, and the command to run in it.
pub struct RunArgs {
    pub cpus: u32,
    pub gpus: u32,
    pub memory_bytes: u64,
    pub time_limit_secs: Option<u64>,
    pub partition: Option<String>,
    pub image: String,
    pub command: Vec<String>,
}

/// The duration of a whole number of seconds, as `Duration::from_secs` makes it.
pub uninterp spec fn secs_duration(secs: u64) -> Duration;

/// Calls `Duration::from_secs`; its result is the name `secs_duration` of the seconds.
#[verifier::external_body]
fn duration_from_secs(secs: u64) -> (d: Duration)
    ensures
        d == secs_duration(secs),
{
    Duration::from_secs(secs)
}

/// The time limit asked for, as a duration.
pub open spec fn time_limit_of(secs: Option<u64>) -> Option<Duration> {
    match secs {
        Some(s) => Some(secs_duration(s)),
        None => None,
    }
}

/// What `run` leaves to record and report: the host it created and the container's id.
pub struct RunOutcome {
    pub host: HostRecord,
    pub container_id: String,
}

/// The layer `run` starts a container from: no parent, stored under the image's name in the
/// `image` store, with the image's name as its checksum.
pub fn image_layer(image: String) -> (l: Layer)
    ensures
        l.spec_parent() is None,
        l.spec_reference() matches LayerReference::Remote { store_url, path } && store_url@ == "image"@
            && path@ == image@,
        l.spec_checksum() == image@,
{
    let reference = LayerReference::Remote { store_url: String::from_str("image"), path: image.clone() };
    Layer::new(None, reference, image)
}

/// The command `run` runs in the container: the first word as the program and the rest as
/// its arguments, with no environment or working directory; none when there are no words.
pub fn run_command(words: &Vec<String>) -> (c: Option<CommandSpec>)
    ensures
        words@.len() == 0 ==> c is None,
        words@.len() > 0 ==> (c matches Some(cs) && {
            &&& cs.program@ == words@[0]@
            &&& strs_view(cs.args@) == strs_view(words@).drop_first()
            &&& cs.env@ == Map::<String, String>::empty()
            &&& cs.working_dir is None
        }),
{
    if words.len() == 0 {
        return None;
    }
    let mut command = CommandSpec::new(words[0].clone());
    command.args = crate::text::clone_range(words, 1, words.len());
    assert(strs_view(words@.subrange(1, words@.len() as int)) =~= strs_view(words@).drop_first());
    Some(command)
}

/// `run` up to recording the host: asks a local Slurm scheduler on the Apptainer engine for
/// an unnamed host with the given resources, time limit and partition, launches a container
/// from the image's layer on it (the engine gets the host's id, the layer, no command and the
/// limits), and runs the command there when there is one. The host record names the host and
/// the `local-slurm` scheduler, has no Slurm job, the requested resources and the host's time
/// limit; the container id is one of the engine's. The only error is a poisoned host registry.
pub fn launch_run(args: RunArgs) -> (r: Result<RunOutcome>)
    ensures
        match r {
            Ok(o) => {
                &&& exists|m: nat| o.host@.id == host_id_spec(None, m)
                &&& o.host@.scheduler_id == "local-slurm"@
                &&& o.host@.slurm_job_id is None
                &&& o.host@.resources == (Resources {
                    cpus: args.cpus,
                    gpus: args.gpus,
                    memory_bytes: args.memory_bytes,
                })
                &&& o.host@.time_limit == time_limit_of(args.time_limit_secs)
                &&& exists|n: nat| o.container_id@ == stub_id_spec(n)
            },
            Err(e) => e@ == registry_poisoned(),
        },
{
    let engine = Apptainer::shared();
    let scheduler = SlurmScheduler::new(String::from_str("local-slurm"), engine.clone());
    let resources = Resources { cpus: args.cpus, gpus: args.gpus, memory_bytes: args.memory_bytes };
    let time_limit = match args.time_limit_secs {
        Some(s) => Some(duration_from_secs(s)),
        None => None,
    };
    let limits = ResourceLimits { resources, time_limit };
    let config = HostConfig { name: None, partition: args.partition, resources, time_limit };
    let host = match scheduler.create_slurm_host(config) {
        Ok(h) => h,
        Err(e) => {
            return Err(e);
        },
    };
    let layer = image_layer(args.image);
    // The host's launch: its request, the engine's launch, and the container wrapping the
    // engine's report. The engine is the Apptainer one, whose own contract applies.
    let request = host.launch_request(layer, None, limits);
    let launched = engine.launch(request);
    let container = match host.container_from(launched) {
        Ok(c) => c,
        Err(e) => {
            return Err(e);
        },
    };
    match run_command(&args.command) {
        Some(command) => {
            // The container's `exec`, which hands the command to its engine.
            match engine.exec(container.id(), command) {
                Ok(_) => {},
                Err(e) => {
                    return Err(e);
                },
            }
        },
        None => {},
    }
    let host_record = HostRecord {
        id: String::from_str(host.id()),
        scheduler_id: String::from_str("local-slurm"),
        slurm_job_id: None,
        resources,
        time_limit: host.time_limit(),
        created_at_unix_secs: now_unix_secs(),
    };
    Ok(RunOutcome { host: host_record, container_id: String::from_str(container.id()) })
}

/// `a` followed by the decimal text of `n`.
fn with_number(a: &str, n: u128) -> (s: String)
    ensures
        s@ == a@ + decimal(n as nat),
{
    let d = decimal_string(n);
    concat(a, d.as_str())
}

/// The line `ps` prints for a host: id, scheduler, CPUs, GPUs and memory, tab-separated.
pub open spec fn host_line_spec(h: crate::state::HostRecordV) -> Seq<char> {
    h.id + "\t"@ + h.scheduler_id + "\t"@ + decimal(h.resources.cpus as nat) + " cpu(s)\t"@
        + decimal(h.resources.gpus as nat) + " gpu(s)\t"@ + decimal(h.resources.memory_bytes as nat)
        + " bytes"@
}

/// The line `ps` prints for a host.
pub fn host_line(h: &HostRecord) -> (s: String)
    ensures
        s@ == host_line_spec(h@),
{
    let a = concat(h.id.as_str(), "\t");
    let b = concat(a.as_str(), h.scheduler_id.as_str());
    let c = concat(b.as_str(), "\t");
    let d = with_number(c.as_str(), h.resources.cpus as u128);
    let e = concat(d.as_str(), " cpu(s)\t");
    let f = with_number(e.as_str(), h.resources.gpus as u128);
    let g = concat(f.as_str(), " gpu(s)\t");
    let i = with_number(g.as_str(), h.resources.memory_bytes as u128);
    concat(i.as_str(), " bytes")
}

/// The line `slurm-info` prints: how many nodes, partitions and jobs the cluster has.
pub open spec fn cluster_summary_spec(nodes: nat, partitions: nat, jobs: nat) -> Seq<char> {
    decimal(nodes) + " node(s), "@ + decimal(partitions) + " partition(s), "@ + decimal(jobs)
        + " job(s)"@
}

/// The line `slurm-info` prints for a cluster.
pub fn cluster_summary(c: &SlurmCluster) -> (s: String)
    ensures
        s@ == cluster_summary_spec(c.nodes@.dom().len(), c.partitions@.dom().len(), c.jobs@.dom().len()),
{
    let n = c.nodes.len();
    let p = c.partitions.len();
    let j = crate::slurm::job_count(&c.jobs);
    let a = decimal_string(n as u128);
    let b = concat(a.as_str(), " node(s), ");
    let d = with_number(b.as_str(), p as u128);
    let e = concat(d.as_str(), " partition(s), ");
    let f = with_number(e.as_str(), j as u128);
    concat(f.as_str(), " job(s)")
}

/// The line `build` prints: how many top-level instructions were parsed, from which file
/// and with which context (both as displayed).
pub open spec fn build_summary_spec(count: nat, file: Seq<char>, context: Seq<char>) -> Seq<char> {
    "parsed "@ + decimal(count) + " root instruction(s) from "@ + file + " using context "@
        + context
}

/// The line `build` prints.
pub fn build_summary(count: usize, file: &str, context: &str) -> (s: String)
    ensures
        s@ == build_summary_spec(count as nat, file@, context@),
{
    let a = with_number("parsed ", count as u128);
    let b = concat(a.as_str(), " root instruction(s) from ");
    let d = concat(b.as_str(), file);
    let e = concat(d.as_str(), " using context ");
    concat(e.as_str(), context)
}

} // verus!
