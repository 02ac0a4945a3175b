//! Slurm cluster inventory read from `scontrol` output, and the planning of the commands
//! that containers run.
pub mod parser;

use crate::dockerfile::{
    instr_view, instrs_view, Healthcheck, HealthcheckV, Instruction, InstructionV, ShellOrExec,
    ShellOrExecV,
};
use crate::runtime::{
    AttachedProcess, CommandSpec, CommandSpecV, Container, ContainerEngine, ContainerLaunch,
    ContainerStatus, EngineContainer, Host, HostConfig, HostInfo, Layer, ProcessExit, ProcessOutput,
    ResourceLimits, Resources, Scheduler,
};
use std::sync::{Arc, Mutex};
use std::time::Duration;
use crate::strmap::StrMap;
use crate::text::{
    chars_of, concat, is_blank, join, parse_u32, parse_u32_spec,
    parse_u64, parse_u64_spec, ranges_view, split_char, split_once, split_ranges, str_eq,
    strs_view, string_of, trim, trim_bounds, find_char,
};
use crate::{Error, ErrorV, Result};
use parser::{SlurmRecord, SlurmValue};
use vstd::prelude::*;

verus! {

// ---------------------------------------------------------------------------
// Inventory types
// ---------------------------------------------------------------------------

#[derive(Debug, PartialEq, Eq)]
pub struct SlurmPartition {
    pub name: String,
    pub state: PartitionState,
    pub nodes: Option<String>,
    pub total_cpus: Option<u32>,
    pub total_nodes: Option<u32>,
    pub tres: Option<StrMap<String>>,
}

#[derive(Clone, Copy, Debug, PartialEq, Eq, Structural)]
pub enum PartitionState {
    Up,
    Down,
    Unknown,
}

#[derive(Debug, PartialEq, Eq)]
pub struct SlurmNode {
    pub name: String,
    pub state: NodeState,
    pub cpu_alloc: Option<u32>,
    pub cpus: Option<u32>,
    pub real_memory_mb: Option<u64>,
    pub alloc_memory_mb: Option<u64>,
    pub free_memory_mb: Option<u64>,
    pub gres: Option<String>,
    pub partitions: Vec<String>,
    pub configured_tres: StrMap<String>,
    pub allocated_tres: StrMap<String>,
}

#[derive(Clone, Copy, Debug, PartialEq, Eq, Structural)]
pub enum NodeState {
    Idle,
    Allocated,
    Mixed,
    Down,
    Drain,
    Unknown,
}

#[derive(Debug, PartialEq, Eq)]
pub struct SlurmJob {
    pub job_id: u64,
    pub name: String,
    pub partition: Option<String>,
    pub user: Option<String>,
    pub state: JobState,
    pub num_cpus: Option<u32>,
    pub num_nodes: Option<String>,
    pub node_list: Vec<String>,
    pub requested_tres: StrMap<String>,
    pub allocated_tres: StrMap<String>,
    pub command: Option<String>,
    pub work_dir: Option<String>,
    pub time_limit: Option<String>,
}

#[derive(Clone, Copy, Debug, PartialEq, Eq, Structural)]
pub enum JobState {
    Running,
    Pending,
    Completed,
    Failed,
    Cancelled,
    Unknown,
}

/// The text of a map of texts.
pub open spec fn tres_view(m: Map<Seq<char>, String>) -> Map<Seq<char>, Seq<char>> {
    m.map_values(|s: String| s@)
}

pub open spec fn opt_tres_view(m: Option<StrMap<String>>) -> Option<Map<Seq<char>, Seq<char>>> {
    match m {
        Some(m) => Some(tres_view(m@)),
        None => None,
    }
}

pub struct SlurmPartitionV {
    pub name: Seq<char>,
    pub state: PartitionState,
    pub nodes: Option<Seq<char>>,
    pub total_cpus: Option<u32>,
    pub total_nodes: Option<u32>,
    pub tres: Option<Map<Seq<char>, Seq<char>>>,
}

pub struct SlurmNodeV {
    pub name: Seq<char>,
    pub state: NodeState,
    pub cpu_alloc: Option<u32>,
    pub cpus: Option<u32>,
    pub real_memory_mb: Option<u64>,
    pub alloc_memory_mb: Option<u64>,
    pub free_memory_mb: Option<u64>,
    pub gres: Option<Seq<char>>,
    pub partitions: Seq<Seq<char>>,
    pub configured_tres: Map<Seq<char>, Seq<char>>,
    pub allocated_tres: Map<Seq<char>, Seq<char>>,
}

pub struct SlurmJobV {
    pub job_id: u64,
    pub name: Seq<char>,
    pub partition: Option<Seq<char>>,
    pub user: Option<Seq<char>>,
    pub state: JobState,
    pub num_cpus: Option<u32>,
    pub num_nodes: Option<Seq<char>>,
    pub node_list: Seq<Seq<char>>,
    pub requested_tres: Map<Seq<char>, Seq<char>>,
    pub allocated_tres: Map<Seq<char>, Seq<char>>,
    pub command: Option<Seq<char>>,
    pub work_dir: Option<Seq<char>>,
    pub time_limit: Option<Seq<char>>,
}

impl View for SlurmPartition {
    type V = SlurmPartitionV;

    open spec fn view(&self) -> SlurmPartitionV {
        SlurmPartitionV {
            name: self.name@,
            state: self.state,
            nodes: crate::text::opt_view(self.nodes),
            total_cpus: self.total_cpus,
            total_nodes: self.total_nodes,
            tres: opt_tres_view(self.tres),
        }
    }
}

impl View for SlurmNode {
    type V = SlurmNodeV;

    open spec fn view(&self) -> SlurmNodeV {
        SlurmNodeV {
            name: self.name@,
            state: self.state,
            cpu_alloc: self.cpu_alloc,
            cpus: self.cpus,
            real_memory_mb: self.real_memory_mb,
            alloc_memory_mb: self.alloc_memory_mb,
            free_memory_mb: self.free_memory_mb,
            gres: crate::text::opt_view(self.gres),
            partitions: strs_view(self.partitions@),
            configured_tres: tres_view(self.configured_tres@),
            allocated_tres: tres_view(self.allocated_tres@),
        }
    }
}

impl View for SlurmJob {
    type V = SlurmJobV;

    open spec fn view(&self) -> SlurmJobV {
        SlurmJobV {
            job_id: self.job_id,
            name: self.name@,
            partition: crate::text::opt_view(self.partition),
            user: crate::text::opt_view(self.user),
            state: self.state,
            num_cpus: self.num_cpus,
            num_nodes: crate::text::opt_view(self.num_nodes),
            node_list: strs_view(self.node_list@),
            requested_tres: tres_view(self.requested_tres@),
            allocated_tres: tres_view(self.allocated_tres@),
            command: crate::text::opt_view(self.command),
            work_dir: crate::text::opt_view(self.work_dir),
            time_limit: crate::text::opt_view(self.time_limit),
        }
    }
}

// ---------------------------------------------------------------------------
// Reading fields
// ---------------------------------------------------------------------------

/// The values of a record's field, if present.
pub open spec fn field(r: Map<Seq<char>, Seq<Seq<char>>>, name: Seq<char>) -> Option<Seq<Seq<char>>> {
    if r.contains_key(name) {
        Some(r[name])
    } else {
        None
    }
}

/// An optional text field: absent is `None`; a repeated key does not read as text.
/// The outer `None` marks a field that does not read.
pub open spec fn opt_text(f: Option<Seq<Seq<char>>>) -> Option<Option<Seq<char>>> {
    match f {
        None => Some(None),
        Some(vs) => if vs.len() == 1 {
            Some(Some(vs[0]))
        } else {
            None
        },
    }
}

/// A required text field.
pub open spec fn req_text(f: Option<Seq<Seq<char>>>) -> Option<Seq<char>> {
    match opt_text(f) {
        Some(Some(s)) => Some(s),
        _ => None,
    }
}

/// An optional `u32` field.
pub open spec fn opt_u32(f: Option<Seq<Seq<char>>>) -> Option<Option<u32>> {
    match f {
        None => Some(None),
        Some(vs) => if vs.len() == 1 {
            match parse_u32_spec(vs[0]) {
                Some(n) => Some(Some(n)),
                None => None,
            }
        } else {
            None
        },
    }
}

/// An optional `u64` field.
pub open spec fn opt_u64(f: Option<Seq<Seq<char>>>) -> Option<Option<u64>> {
    match f {
        None => Some(None),
        Some(vs) => if vs.len() == 1 {
            match parse_u64_spec(vs[0]) {
                Some(n) => Some(Some(n)),
                None => None,
            }
        } else {
            None
        },
    }
}

/// A required `u64` field.
pub open spec fn req_u64(f: Option<Seq<Seq<char>>>) -> Option<u64> {
    match opt_u64(f) {
        Some(Some(n)) => Some(n),
        _ => None,
    }
}

/// A list field: absent is empty; one value is split at commas; a repeated key gives its
/// values.
pub open spec fn texts(f: Option<Seq<Seq<char>>>) -> Seq<Seq<char>> {
    match f {
        None => Seq::empty(),
        Some(vs) => if vs.len() == 1 {
            split_char(vs[0], ',')
        } else {
            vs
        },
    }
}

/// The `KEY=VALUE` pairs of the non-blank comma-separated pieces of a value; `None` when a
/// piece has no `=`.
pub open spec fn tres_pairs(pieces: Seq<Seq<char>>) -> Option<Seq<(Seq<char>, Seq<char>)>>
    decreases pieces.len(),
{
    if pieces.len() == 0 {
        Some(Seq::empty())
    } else {
        match tres_pairs(pieces.drop_last()) {
            None => None,
            Some(ps) => if is_blank(pieces.last()) {
                Some(ps)
            } else {
                match split_once(trim(pieces.last()), '=') {
                    Some(kv) => Some(ps.push(kv)),
                    None => None,
                }
            },
        }
    }
}

/// The map of pairs, a later pair replacing an earlier one with the same key.
pub open spec fn pairs_map(ps: Seq<(Seq<char>, Seq<char>)>) -> Map<Seq<char>, Seq<char>>
    decreases ps.len(),
{
    if ps.len() == 0 {
        Map::empty()
    } else {
        pairs_map(ps.drop_last()).insert(ps.last().0, ps.last().1)
    }
}

/// A map value `K=V,K=V,...`.
pub open spec fn tres_text(v: Seq<char>) -> Option<Map<Seq<char>, Seq<char>>> {
    match tres_pairs(split_char(v, ',')) {
        Some(ps) => Some(pairs_map(ps)),
        None => None,
    }
}

/// A map field: absent is empty; a repeated key does not read as a map.
pub open spec fn tres(f: Option<Seq<Seq<char>>>) -> Option<Map<Seq<char>, Seq<char>>> {
    match f {
        None => Some(Map::empty()),
        Some(vs) => if vs.len() == 1 {
            tres_text(vs[0])
        } else {
            None
        },
    }
}

/// An optional map field.
pub open spec fn opt_tres(f: Option<Seq<Seq<char>>>) -> Option<Option<Map<Seq<char>, Seq<char>>>> {
    match f {
        None => Some(None),
        Some(vs) => if vs.len() == 1 {
            match tres_text(vs[0]) {
                Some(m) => Some(Some(m)),
                None => None,
            }
        } else {
            None
        },
    }
}

pub open spec fn partition_state_of(s: Seq<char>) -> PartitionState {
    if s == "UP"@ {
        PartitionState::Up
    } else if s == "DOWN"@ {
        PartitionState::Down
    } else {
        PartitionState::Unknown
    }
}

pub open spec fn node_state_of(s: Seq<char>) -> NodeState {
    if s == "IDLE"@ {
        NodeState::Idle
    } else if s == "ALLOCATED"@ {
        NodeState::Allocated
    } else if s == "MIX"@ {
        NodeState::Mixed
    } else if s == "DOWN"@ {
        NodeState::Down
    } else if s == "DRAIN"@ {
        NodeState::Drain
    } else {
        NodeState::Unknown
    }
}

pub open spec fn job_state_of(s: Seq<char>) -> JobState {
    if s == "RUNNING"@ {
        JobState::Running
    } else if s == "PENDING"@ {
        JobState::Pending
    } else if s == "COMPLETED"@ {
        JobState::Completed
    } else if s == "FAILED"@ {
        JobState::Failed
    } else if s == "CANCELLED"@ {
        JobState::Cancelled
    } else {
        JobState::Unknown
    }
}

/// Each field of a node read from a record comes from its own key: the name and state are
/// the single values under `NodeName` and `State`; a number, text or map field is read from
/// the single value under its key, and is absent (or empty) when the key is.
pub proof fn law_node_fields(r: Map<Seq<char>, Seq<Seq<char>>>)
    requires
        node_spec(r) is Some,
    ensures
        ({
            let x = node_spec(r)->0;
            &&& r.contains_key("NodeName"@) && r["NodeName"@] == seq![x.name]
            &&& r.contains_key("State"@) && r["State"@].len() == 1 && x.state == node_state_of(r["State"@][0])
            &&& x.cpu_alloc == (if r.contains_key("CPUAlloc"@) {
                parse_u32_spec(r["CPUAlloc"@][0])
            } else {
                None
            })
            &&& x.cpus == (if r.contains_key("CPUTot"@) {
                parse_u32_spec(r["CPUTot"@][0])
            } else {
                None
            })
            &&& x.real_memory_mb == (if r.contains_key("RealMemory"@) {
                parse_u64_spec(r["RealMemory"@][0])
            } else {
                None
            })
            &&& x.alloc_memory_mb == (if r.contains_key("AllocMem"@) {
                parse_u64_spec(r["AllocMem"@][0])
            } else {
                None
            })
            &&& x.free_memory_mb == (if r.contains_key("FreeMem"@) {
                parse_u64_spec(r["FreeMem"@][0])
            } else {
                None
            })
            &&& x.gres == (if r.contains_key("Gres"@) {
                Some(r["Gres"@][0])
            } else {
                None
            })
            &&& x.partitions == (if !r.contains_key("Partitions"@) {
                Seq::<Seq<char>>::empty()
            } else if r["Partitions"@].len() == 1 {
                split_char(r["Partitions"@][0], ',')
            } else {
                r["Partitions"@]
            })
            &&& x.configured_tres == (if r.contains_key("CfgTRES"@) {
                tres_text(r["CfgTRES"@][0])->0
            } else {
                Map::<Seq<char>, Seq<char>>::empty()
            })
            &&& x.allocated_tres == (if r.contains_key("AllocTRES"@) {
                tres_text(r["AllocTRES"@][0])->0
            } else {
                Map::<Seq<char>, Seq<char>>::empty()
            })
        }),
{
        assert(r.contains_key("NodeName"@) ==> r["NodeName"@] =~= seq![r["NodeName"@][0]]);
}

/// Each field of a partition read from a record comes from its own key.
pub proof fn law_partition_fields(r: Map<Seq<char>, Seq<Seq<char>>>)
    requires
        partition_spec(r) is Some,
    ensures
        ({
            let x = partition_spec(r)->0;
            &&& r.contains_key("PartitionName"@) && r["PartitionName"@] == seq![x.name]
            &&& r.contains_key("State"@) && r["State"@].len() == 1 && x.state == partition_state_of(r["State"@][0])
            &&& x.nodes == (if r.contains_key("Nodes"@) {
                Some(r["Nodes"@][0])
            } else {
                None
            })
            &&& x.total_cpus == (if r.contains_key("TotalCPUs"@) {
                parse_u32_spec(r["TotalCPUs"@][0])
            } else {
                None
            })
            &&& x.total_nodes == (if r.contains_key("TotalNodes"@) {
                parse_u32_spec(r["TotalNodes"@][0])
            } else {
                None
            })
            &&& x.tres == (if r.contains_key("TRES"@) {
                Some(tres_text(r["TRES"@][0])->0)
            } else {
                None
            })
        }),
{
        assert(r.contains_key("PartitionName"@) ==> r["PartitionName"@] =~= seq![r["PartitionName"@][0]]);
}

/// Each field of a job read from a record comes from its own key: the id is the number
/// under `JobId`, the requested resources are read from `ReqTRES` and the allocated ones from
/// `AllocTRES`, and so on for every field.
pub proof fn law_job_fields(r: Map<Seq<char>, Seq<Seq<char>>>)
    requires
        job_spec(r) is Some,
    ensures
        ({
            let x = job_spec(r)->0;
            &&& r.contains_key("JobId"@) && r["JobId"@].len() == 1 && parse_u64_spec(r["JobId"@][0]) == Some(x.job_id)
            &&& r.contains_key("JobName"@) && r["JobName"@] == seq![x.name]
            &&& x.partition == (if r.contains_key("Partition"@) {
                Some(r["Partition"@][0])
            } else {
                None
            })
            &&& x.user == (if r.contains_key("UserId"@) {
                Some(r["UserId"@][0])
            } else {
                None
            })
            &&& r.contains_key("JobState"@) && r["JobState"@].len() == 1 && x.state == job_state_of(r["JobState"@][0])
            &&& x.num_cpus == (if r.contains_key("NumCPUs"@) {
                parse_u32_spec(r["NumCPUs"@][0])
            } else {
                None
            })
            &&& x.num_nodes == (if r.contains_key("NumNodes"@) {
                Some(r["NumNodes"@][0])
            } else {
                None
            })
            &&& x.node_list == (if !r.contains_key("NodeList"@) {
                Seq::<Seq<char>>::empty()
            } else if r["NodeList"@].len() == 1 {
                split_char(r["NodeList"@][0], ',')
            } else {
                r["NodeList"@]
            })
            &&& x.requested_tres == (if r.contains_key("ReqTRES"@) {
                tres_text(r["ReqTRES"@][0])->0
            } else {
                Map::<Seq<char>, Seq<char>>::empty()
            })
            &&& x.allocated_tres == (if r.contains_key("AllocTRES"@) {
                tres_text(r["AllocTRES"@][0])->0
            } else {
                Map::<Seq<char>, Seq<char>>::empty()
            })
            &&& x.command == (if r.contains_key("Command"@) {
                Some(r["Command"@][0])
            } else {
                None
            })
            &&& x.work_dir == (if r.contains_key("WorkDir"@) {
                Some(r["WorkDir"@][0])
            } else {
                None
            })
            &&& x.time_limit == (if r.contains_key("TimeLimit"@) {
                Some(r["TimeLimit"@][0])
            } else {
                None
            })
        }),
{
        assert(r.contains_key("JobName"@) ==> r["JobName"@] =~= seq![r["JobName"@][0]]);
}

/// The states are read by their `scontrol` names: each named state comes from exactly its
/// name, and any other text is an unknown state.
pub proof fn law_state_names(s: Seq<char>)
    ensures
        (partition_state_of(s) == PartitionState::Up) == (s == "UP"@),
        (partition_state_of(s) == PartitionState::Down) == (s == "DOWN"@),
        (node_state_of(s) == NodeState::Idle) == (s == "IDLE"@),
        (node_state_of(s) == NodeState::Allocated) == (s == "ALLOCATED"@),
        (node_state_of(s) == NodeState::Mixed) == (s == "MIX"@),
        (node_state_of(s) == NodeState::Down) == (s == "DOWN"@),
        (node_state_of(s) == NodeState::Drain) == (s == "DRAIN"@),
        (job_state_of(s) == JobState::Running) == (s == "RUNNING"@),
        (job_state_of(s) == JobState::Pending) == (s == "PENDING"@),
        (job_state_of(s) == JobState::Completed) == (s == "COMPLETED"@),
        (job_state_of(s) == JobState::Failed) == (s == "FAILED"@),
        (job_state_of(s) == JobState::Cancelled) == (s == "CANCELLED"@),
{
    reveal_strlit("UP");
    reveal_strlit("DOWN");
    reveal_strlit("IDLE");
    reveal_strlit("ALLOCATED");
    reveal_strlit("MIX");
    reveal_strlit("DRAIN");
    reveal_strlit("RUNNING");
    reveal_strlit("PENDING");
    reveal_strlit("COMPLETED");
    reveal_strlit("FAILED");
    reveal_strlit("CANCELLED");
    assert("UP"@.len() == 2 && "UP"@[0] == 'U');
    assert("DOWN"@.len() == 4 && "DOWN"@[0] == 'D');
    assert("IDLE"@.len() == 4 && "IDLE"@[0] == 'I');
    assert("ALLOCATED"@.len() == 9 && "ALLOCATED"@[0] == 'A');
    assert("MIX"@.len() == 3 && "MIX"@[0] == 'M');
    assert("DRAIN"@.len() == 5 && "DRAIN"@[0] == 'D');
    assert("RUNNING"@.len() == 7 && "RUNNING"@[0] == 'R');
    assert("PENDING"@.len() == 7 && "PENDING"@[0] == 'P');
    assert("COMPLETED"@.len() == 9 && "COMPLETED"@[0] == 'C');
    assert("FAILED"@.len() == 6 && "FAILED"@[0] == 'F');
    assert("CANCELLED"@.len() == 9 && "CANCELLED"@[0] == 'C' && "CANCELLED"@[1] == 'A');
    assert("COMPLETED"@[1] == 'O');
}

/// The error text for a field given more than once where one value is expected.
pub open spec fn seq_err(expected: Seq<char>) -> Seq<char> {
    "invalid type: sequence, expected "@ + expected
}

/// The error text for an absent required field.
pub open spec fn missing_err(name: Seq<char>) -> Seq<char> {
    "missing field `"@ + name + "`"@
}

/// The error of reading a field as one text (`expected` names what was expected).
pub open spec fn text_err(f: Option<Seq<Seq<char>>>, expected: Seq<char>) -> Option<Seq<char>> {
    match f {
        Some(vs) => if vs.len() == 1 {
            None
        } else {
            Some(seq_err(expected))
        },
        None => None,
    }
}

/// The error of reading a field as a `u32`.
pub open spec fn u32_err(f: Option<Seq<Seq<char>>>) -> Option<Seq<char>> {
    match f {
        Some(vs) => if vs.len() == 1 {
            if parse_u32_spec(vs[0]) is Some {
                None
            } else {
                Some("invalid number: "@ + vs[0])
            }
        } else {
            Some(seq_err("u32"@))
        },
        None => None,
    }
}

/// The error of reading a field as a `u64`.
pub open spec fn u64_err(f: Option<Seq<Seq<char>>>) -> Option<Seq<char>> {
    match f {
        Some(vs) => if vs.len() == 1 {
            if parse_u64_spec(vs[0]) is Some {
                None
            } else {
                Some("invalid number: "@ + vs[0])
            }
        } else {
            Some(seq_err("u64"@))
        },
        None => None,
    }
}

/// The error of reading `KEY=VALUE` pieces: the first non-blank piece without `=`.
pub open spec fn pieces_err(pieces: Seq<Seq<char>>) -> Option<Seq<char>>
    decreases pieces.len(),
{
    if pieces.len() == 0 {
        None
    } else {
        match pieces_err(pieces.drop_last()) {
            Some(e) => Some(e),
            None => if !is_blank(pieces.last()) && split_once(trim(pieces.last()), '=') is None {
                Some("invalid key-value pair: "@ + pieces.last())
            } else {
                None
            },
        }
    }
}

/// The error of reading a value `K=V,K=V,...` as a map.
pub open spec fn tres_err(v: Seq<char>) -> Option<Seq<char>> {
    pieces_err(split_char(v, ','))
}

/// The error of reading a field as a map.
pub open spec fn map_err(f: Option<Seq<Seq<char>>>) -> Option<Seq<char>> {
    match f {
        Some(vs) => if vs.len() == 1 {
            tres_err(vs[0])
        } else {
            Some(seq_err("a map"@))
        },
        None => None,
    }
}

/// The error for a required field, when it is absent.
pub open spec fn missing(f: Option<Seq<Seq<char>>>, name: Seq<char>) -> Option<Seq<char>> {
    if f is None {
        Some(missing_err(name))
    } else {
        None
    }
}

/// The first error of two.
pub open spec fn or_else(a: Option<Seq<char>>, b: Option<Seq<char>>) -> Option<Seq<char>> {
    if a is Some {
        a
    } else {
        b
    }
}

/// An error in a prefix of the pieces is the error of all of them.
proof fn lemma_pieces_err_prefix(p: Seq<Seq<char>>, j: int)
    requires
        0 <= j <= p.len(),
        pieces_err(p.take(j)) is Some,
    ensures
        pieces_err(p) == pieces_err(p.take(j)),
    decreases p.len() - j,
{
    if j < p.len() {
        assert(p.take(j + 1).drop_last() =~= p.take(j));
        lemma_pieces_err_prefix(p, j + 1);
    } else {
        assert(p.take(j) =~= p);
    }
}

/// What a partition record's error is, when it does not read: the first value that does
/// not read, in the order of the fields, else the first required field that is absent.
pub open spec fn partition_err(r: Map<Seq<char>, Seq<Seq<char>>>) -> Option<Seq<char>> {
    or_else(text_err(field(r, "PartitionName"@), "a string"@),
    or_else(text_err(field(r, "State"@), "enum PartitionState"@),
    or_else(text_err(field(r, "Nodes"@), "a string"@),
    or_else(u32_err(field(r, "TotalCPUs"@)),
    or_else(u32_err(field(r, "TotalNodes"@)),
    or_else(map_err(field(r, "TRES"@)),
    or_else(missing(field(r, "PartitionName"@), "PartitionName"@),
    missing(field(r, "State"@), "State"@))))))))
}

/// What a node record's error is, when it does not read: the first value that does not
/// read, in the order of the fields, else the first required field that is absent.
pub open spec fn node_err(r: Map<Seq<char>, Seq<Seq<char>>>) -> Option<Seq<char>> {
    or_else(text_err(field(r, "NodeName"@), "a string"@),
    or_else(text_err(field(r, "State"@), "enum NodeState"@),
    or_else(u32_err(field(r, "CPUAlloc"@)),
    or_else(u32_err(field(r, "CPUTot"@)),
    or_else(u64_err(field(r, "RealMemory"@)),
    or_else(u64_err(field(r, "AllocMem"@)),
    or_else(u64_err(field(r, "FreeMem"@)),
    or_else(text_err(field(r, "Gres"@), "a string"@),
    or_else(map_err(field(r, "CfgTRES"@)),
    or_else(map_err(field(r, "AllocTRES"@)),
    or_else(missing(field(r, "NodeName"@), "NodeName"@),
    missing(field(r, "State"@), "State"@))))))))))))
}

/// What a job record's error is, when it does not read: the first value that does not read,
/// in the order of the fields, else the first required field that is absent.
pub open spec fn job_err(r: Map<Seq<char>, Seq<Seq<char>>>) -> Option<Seq<char>> {
    or_else(u64_err(field(r, "JobId"@)),
    or_else(text_err(field(r, "JobName"@), "a string"@),
    or_else(text_err(field(r, "Partition"@), "a string"@),
    or_else(text_err(field(r, "UserId"@), "a string"@),
    or_else(text_err(field(r, "JobState"@), "enum JobState"@),
    or_else(u32_err(field(r, "NumCPUs"@)),
    or_else(text_err(field(r, "NumNodes"@), "a string"@),
    or_else(map_err(field(r, "ReqTRES"@)),
    or_else(map_err(field(r, "AllocTRES"@)),
    or_else(text_err(field(r, "Command"@), "a string"@),
    or_else(text_err(field(r, "WorkDir"@), "a string"@),
    or_else(text_err(field(r, "TimeLimit"@), "a string"@),
    or_else(missing(field(r, "JobId"@), "JobId"@),
    or_else(missing(field(r, "JobName"@), "JobName"@),
    missing(field(r, "JobState"@), "JobState"@)))))))))))))))
}

/// A partition record: `PartitionName` and `State` are required.
pub open spec fn partition_spec(r: Map<Seq<char>, Seq<Seq<char>>>) -> Option<SlurmPartitionV> {
    let name = req_text(field(r, "PartitionName"@));
    let state = req_text(field(r, "State"@));
    let nodes = opt_text(field(r, "Nodes"@));
    let total_cpus = opt_u32(field(r, "TotalCPUs"@));
    let total_nodes = opt_u32(field(r, "TotalNodes"@));
    let tres = opt_tres(field(r, "TRES"@));
    if name is Some && state is Some && nodes is Some && total_cpus is Some && total_nodes is Some
        && tres is Some {
        Some(
            SlurmPartitionV {
                name: name->0,
                state: partition_state_of(state->0),
                nodes: nodes->0,
                total_cpus: total_cpus->0,
                total_nodes: total_nodes->0,
                tres: tres->0,
            },
        )
    } else {
        None
    }
}

/// A node record: `NodeName` and `State` are required.
pub open spec fn node_spec(r: Map<Seq<char>, Seq<Seq<char>>>) -> Option<SlurmNodeV> {
    let name = req_text(field(r, "NodeName"@));
    let state = req_text(field(r, "State"@));
    let cpu_alloc = opt_u32(field(r, "CPUAlloc"@));
    let cpus = opt_u32(field(r, "CPUTot"@));
    let real_mem = opt_u64(field(r, "RealMemory"@));
    let alloc = opt_u64(field(r, "AllocMem"@));
    let free = opt_u64(field(r, "FreeMem"@));
    let gres = opt_text(field(r, "Gres"@));
    let cfg = tres(field(r, "CfgTRES"@));
    let alloc_tres = tres(field(r, "AllocTRES"@));
    if name is Some && state is Some && cpu_alloc is Some && cpus is Some && real_mem is Some
        && alloc is Some && free is Some && gres is Some && cfg is Some && alloc_tres is Some {
        Some(
            SlurmNodeV {
                name: name->0,
                state: node_state_of(state->0),
                cpu_alloc: cpu_alloc->0,
                cpus: cpus->0,
                real_memory_mb: real_mem->0,
                alloc_memory_mb: alloc->0,
                free_memory_mb: free->0,
                gres: gres->0,
                partitions: texts(field(r, "Partitions"@)),
                configured_tres: cfg->0,
                allocated_tres: alloc_tres->0,
            },
        )
    } else {
        None
    }
}

/// A job record: `JobId`, `JobName` and `JobState` are required.
pub open spec fn job_spec(r: Map<Seq<char>, Seq<Seq<char>>>) -> Option<SlurmJobV> {
    let id = req_u64(field(r, "JobId"@));
    let name = req_text(field(r, "JobName"@));
    let partition = opt_text(field(r, "Partition"@));
    let user = opt_text(field(r, "UserId"@));
    let state = req_text(field(r, "JobState"@));
    let num_cpus = opt_u32(field(r, "NumCPUs"@));
    let num_nodes = opt_text(field(r, "NumNodes"@));
    let req = tres(field(r, "ReqTRES"@));
    let alloc = tres(field(r, "AllocTRES"@));
    let command = opt_text(field(r, "Command"@));
    let work_dir = opt_text(field(r, "WorkDir"@));
    let time_limit = opt_text(field(r, "TimeLimit"@));
    if id is Some && name is Some && partition is Some && user is Some && state is Some
        && num_cpus is Some && num_nodes is Some && req is Some && alloc is Some && command is Some
        && work_dir is Some && time_limit is Some {
        Some(
            SlurmJobV {
                job_id: id->0,
                name: name->0,
                partition: partition->0,
                user: user->0,
                state: job_state_of(state->0),
                num_cpus: num_cpus->0,
                num_nodes: num_nodes->0,
                node_list: texts(field(r, "NodeList"@)),
                requested_tres: req->0,
                allocated_tres: alloc->0,
                command: command->0,
                work_dir: work_dir->0,
                time_limit: time_limit->0,
            },
        )
    } else {
        None
    }
}


// ---------------------------------------------------------------------------
// Field readers
// ---------------------------------------------------------------------------

type FieldResult<T> = core::result::Result<T, parser::Error>;

/// The error for a field given more than once where one value is expected.
fn sequence_error(expected: &str) -> (e: parser::Error)
    ensures
        e@ == "invalid type: sequence, expected "@ + expected@,
{
    parser::Error::custom(concat("invalid type: sequence, expected ", expected))
}

/// The error for a required field that is absent.
fn missing_field(name: &str) -> (e: parser::Error)
    ensures
        e@ == "missing field `"@ + name@ + "`"@,
{
    let m = concat("missing field `", name);
    parser::Error::custom(concat(m.as_str(), "`"))
}

/// An optional text field; `expected` names what a repeated key was expected to be.
fn text_field(r: &SlurmRecord, name: &str, expected: &str) -> (res: FieldResult<Option<String>>)
    ensures
        match res {
            Ok(o) => opt_text(field(r@, name@)) == Some(crate::text::opt_view(o))
                && text_err(field(r@, name@), expected@) is None,
            Err(e) => opt_text(field(r@, name@)) is None && text_err(field(r@, name@), expected@)
                == Some(e@),
        },
{
    match r.get(name) {
        None => Ok(None),
        Some(SlurmValue::Single(s)) => Ok(Some(s.clone())),
        Some(SlurmValue::Repeated(_)) => Err(sequence_error(expected)),
    }
}

/// An optional `u32` field.
fn u32_field(r: &SlurmRecord, name: &str) -> (res: FieldResult<Option<u32>>)
    ensures
        match res {
            Ok(o) => opt_u32(field(r@, name@)) == Some(o) && u32_err(field(r@, name@)) is None,
            Err(e) => opt_u32(field(r@, name@)) is None && u32_err(field(r@, name@)) == Some(e@),
        },
{
    match r.get(name) {
        None => Ok(None),
        Some(SlurmValue::Single(s)) => match parse_u32(s.as_str()) {
            Some(n) => Ok(Some(n)),
            None => Err(parser::Error::custom(concat("invalid number: ", s.as_str()))),
        },
        Some(SlurmValue::Repeated(_)) => Err(sequence_error("u32")),
    }
}

/// An optional `u64` field.
fn u64_field(r: &SlurmRecord, name: &str) -> (res: FieldResult<Option<u64>>)
    ensures
        match res {
            Ok(o) => opt_u64(field(r@, name@)) == Some(o) && u64_err(field(r@, name@)) is None,
            Err(e) => opt_u64(field(r@, name@)) is None && u64_err(field(r@, name@)) == Some(e@),
        },
{
    match r.get(name) {
        None => Ok(None),
        Some(SlurmValue::Single(s)) => match parse_u64(s.as_str()) {
            Some(n) => Ok(Some(n)),
            None => Err(parser::Error::custom(concat("invalid number: ", s.as_str()))),
        },
        Some(SlurmValue::Repeated(_)) => Err(sequence_error("u64")),
    }
}

/// The value of a required field that has read: its absence is the error.
fn require<T>(v: Option<T>, name: &str) -> (res: FieldResult<T>)
    ensures
        match v {
            Some(x) => res == Ok::<T, parser::Error>(x),
            None => res matches Err(e) && e@ == missing_err(name@),
        },
{
    match v {
        Some(x) => Ok(x),
        None => Err(missing_field(name)),
    }
}

/// The comma-separated pieces of a value.
fn split_commas(s: &str) -> (parts: Vec<String>)
    ensures
        strs_view(parts@) == split_char(s@, ','),
{
    let v = chars_of(s);
    assert(v@.subrange(0, v@.len() as int) =~= v@);
    let rs = split_ranges(&v, 0, v.len(), ',');
    let mut parts: Vec<String> = Vec::new();
    let mut k: usize = 0;
    while k < rs.len()
        invariant
            k <= rs@.len(),
            ranges_view(v@, rs@) == split_char(s@, ','),
            forall|j: int| 0 <= j < rs@.len() ==> #[trigger] rs@[j].0 <= rs@[j].1 <= v@.len(),
            strs_view(parts@) == ranges_view(v@, rs@).take(k as int),
        decreases rs@.len() - k,
    {
        let (a, b) = rs[k];
        let ghost prev = parts@;
        parts.push(string_of(&v, a, b));
        assert(strs_view(parts@) =~= strs_view(prev).push(v@.subrange(a as int, b as int)));
        assert(ranges_view(v@, rs@).take(k + 1) =~= ranges_view(v@, rs@).take(k as int).push(
            v@.subrange(a as int, b as int),
        ));
        k += 1;
    }
    assert(ranges_view(v@, rs@).take(rs@.len() as int) =~= ranges_view(v@, rs@));
    parts
}

/// A list field.
fn texts_field(r: &SlurmRecord, name: &str) -> (res: Vec<String>)
    ensures
        strs_view(res@) == texts(field(r@, name@)),
{
    match r.get(name) {
        None => {
            let v: Vec<String> = Vec::new();
            assert(strs_view(v@) =~= Seq::<Seq<char>>::empty());
            v
        },
        Some(SlurmValue::Single(s)) => split_commas(s.as_str()),
        Some(SlurmValue::Repeated(vs)) => {
            let c = crate::text::clone_range(vs, 0, vs.len());
            assert(vs@.subrange(0, vs@.len() as int) =~= vs@);
            c
        },
    }
}


proof fn lemma_tres_pairs_none(p: Seq<Seq<char>>, j: int)
    requires
        0 <= j <= p.len(),
        tres_pairs(p.take(j)) is None,
    ensures
        tres_pairs(p.take(p.len() as int)) is None,
    decreases p.len() - j,
{
    if j < p.len() {
        assert(p.take(j + 1).drop_last() =~= p.take(j));
        lemma_tres_pairs_none(p, j + 1);
    }
}

/// The map of a value `K=V,K=V,...`.
fn tres_value(s: &str) -> (res: FieldResult<StrMap<String>>)
    ensures
        match res {
            Ok(m) => tres_text(s@) == Some(tres_view(m@)) && tres_err(s@) is None,
            Err(e) => tres_text(s@) is None && tres_err(s@) == Some(e@),
        },
{
    let v = chars_of(s);
    assert(v@.subrange(0, v@.len() as int) =~= v@);
    let rs = split_ranges(&v, 0, v.len(), ',');
    let ghost pieces = ranges_view(v@, rs@);
    let mut m: StrMap<String> = StrMap::new();
    let mut k: usize = 0;
    let ghost mut ps: Seq<(Seq<char>, Seq<char>)> = Seq::empty();
    assert(pieces.take(0) =~= Seq::<Seq<char>>::empty());
    assert(tres_view(m@) =~= pairs_map(ps));
    while k < rs.len()
        invariant
            k <= rs@.len(),
            pieces == ranges_view(v@, rs@),
            pieces == split_char(s@, ','),
            forall|j: int| 0 <= j < rs@.len() ==> #[trigger] rs@[j].0 <= rs@[j].1 <= v@.len(),
            tres_pairs(pieces.take(k as int)) == Some(ps),
            pieces_err(pieces.take(k as int)) is None,
            tres_view(m@) == pairs_map(ps),
        decreases rs@.len() - k,
    {
        let (a, b) = rs[k];
        let ghost piece = v@.subrange(a as int, b as int);
        assert(pieces[k as int] == piece);
        assert(pieces.take(k + 1).drop_last() =~= pieces.take(k as int));
        assert(pieces.take(k + 1).last() == piece);
        let (ta, tb) = trim_bounds(&v, a, b);
        if ta < tb {
            let ghost t = v@.subrange(ta as int, tb as int);
            match find_char(&v, ta, tb, '=') {
                Some(i) => {
                    let key = string_of(&v, ta, i);
                    let val = string_of(&v, i + 1, tb);
                    proof {
                        assert(t.take(i - ta) =~= v@.subrange(ta as int, i as int));
                        assert(t.skip(i - ta + 1) =~= v@.subrange(i + 1, tb as int));
                        let kv = (key@, val@);
                        assert(pairs_map(ps.push(kv)).insert(kv.0, kv.1) == pairs_map(ps.push(kv))) by {
                            assert(ps.push(kv).drop_last() =~= ps);
                        }
                    }
                    let ghost prev_m = m@;
                    m.insert(key, val);
                    proof {
                        let kv = (v@.subrange(ta as int, i as int), v@.subrange(i + 1, tb as int));
                        assert(ps.push(kv).drop_last() =~= ps);
                        assert(tres_view(m@) =~= tres_view(prev_m).insert(kv.0, kv.1));
                        ps = ps.push(kv);
                    }
                },
                None => {
                    proof {
                        assert(tres_pairs(pieces.take(k + 1)) is None);
                        lemma_tres_pairs_none(pieces, k + 1);
                        assert(pieces.take(pieces.len() as int) =~= pieces);
                        assert(pieces_err(pieces.take(k + 1)) == Some("invalid key-value pair: "@ + piece));
                        lemma_pieces_err_prefix(pieces, k + 1);
                    }
                    let piece_text = string_of(&v, a, b);
                    return Err(
                        parser::Error::custom(
                            concat("invalid key-value pair: ", piece_text.as_str()),
                        ),
                    );
                },
            }
        }
        k += 1;
    }
    assert(pieces.take(rs@.len() as int) =~= pieces);
    Ok(m)
}

/// A map field.
fn tres_field(r: &SlurmRecord, name: &str) -> (res: FieldResult<StrMap<String>>)
    ensures
        match res {
            Ok(m) => tres(field(r@, name@)) == Some(tres_view(m@)) && map_err(field(r@, name@)) is None,
            Err(e) => tres(field(r@, name@)) is None && map_err(field(r@, name@)) == Some(e@),
        },
{
    match r.get(name) {
        None => {
            let m: StrMap<String> = StrMap::new();
            assert(tres_view(m@) =~= Map::<Seq<char>, Seq<char>>::empty());
            Ok(m)
        },
        Some(SlurmValue::Single(s)) => tres_value(s.as_str()),
        Some(SlurmValue::Repeated(_)) => Err(sequence_error("a map")),
    }
}

/// An optional map field.
fn opt_tres_field(r: &SlurmRecord, name: &str) -> (res: FieldResult<Option<StrMap<String>>>)
    ensures
        match res {
            Ok(m) => opt_tres(field(r@, name@)) == Some(opt_tres_view(m)) && map_err(field(r@, name@)) is None,
            Err(e) => opt_tres(field(r@, name@)) is None && map_err(field(r@, name@)) == Some(e@),
        },
{
    match r.get(name) {
        None => Ok(None),
        Some(SlurmValue::Single(s)) => match tres_value(s.as_str()) {
            Ok(m) => Ok(Some(m)),
            Err(e) => Err(e),
        },
        Some(SlurmValue::Repeated(_)) => Err(sequence_error("a map")),
    }
}

fn partition_state(s: &str) -> (st: PartitionState)
    ensures
        st == partition_state_of(s@),
{
    if str_eq(s, "UP") {
        PartitionState::Up
    } else if str_eq(s, "DOWN") {
        PartitionState::Down
    } else {
        PartitionState::Unknown
    }
}

fn node_state(s: &str) -> (st: NodeState)
    ensures
        st == node_state_of(s@),
{
    if str_eq(s, "IDLE") {
        NodeState::Idle
    } else if str_eq(s, "ALLOCATED") {
        NodeState::Allocated
    } else if str_eq(s, "MIX") {
        NodeState::Mixed
    } else if str_eq(s, "DOWN") {
        NodeState::Down
    } else if str_eq(s, "DRAIN") {
        NodeState::Drain
    } else {
        NodeState::Unknown
    }
}

fn job_state(s: &str) -> (st: JobState)
    ensures
        st == job_state_of(s@),
{
    if str_eq(s, "RUNNING") {
        JobState::Running
    } else if str_eq(s, "PENDING") {
        JobState::Pending
    } else if str_eq(s, "COMPLETED") {
        JobState::Completed
    } else if str_eq(s, "FAILED") {
        JobState::Failed
    } else if str_eq(s, "CANCELLED") {
        JobState::Cancelled
    } else {
        JobState::Unknown
    }
}

impl SlurmPartition {
    /// Reads a partition from a record of `scontrol show partitions`. The error is the first
    /// value that does not read, in the order of the fields, else the first required field
    /// that is absent.
    pub fn from_record(r: &SlurmRecord) -> (res: FieldResult<Self>)
        ensures
            match res {
                Ok(p) => partition_spec(r@) == Some(p@) && partition_err(r@) is None,
                Err(e) => partition_spec(r@) is None && partition_err(r@) == Some(e@),
            },
    {
        let name = match text_field(r, "PartitionName", "a string") {
            Ok(x) => x,
            Err(e) => return Err(e),
        };
        let state = match text_field(r, "State", "enum PartitionState") {
            Ok(x) => x,
            Err(e) => return Err(e),
        };
        let nodes = match text_field(r, "Nodes", "a string") {
            Ok(x) => x,
            Err(e) => return Err(e),
        };
        let total_cpus = match u32_field(r, "TotalCPUs") {
            Ok(x) => x,
            Err(e) => return Err(e),
        };
        let total_nodes = match u32_field(r, "TotalNodes") {
            Ok(x) => x,
            Err(e) => return Err(e),
        };
        let tres = match opt_tres_field(r, "TRES") {
            Ok(x) => x,
            Err(e) => return Err(e),
        };
        let name = match require(name, "PartitionName") {
            Ok(x) => x,
            Err(e) => return Err(e),
        };
        let state = match require(state, "State") {
            Ok(x) => x,
            Err(e) => return Err(e),
        };
        Ok(
            SlurmPartition {
                name,
                state: partition_state(state.as_str()),
                nodes,
                total_cpus,
                total_nodes,
                tres,
            },
        )
    }
}

impl SlurmNode {
    /// Reads a node from a record of `scontrol show nodes`. The error is the first value that
    /// does not read, in the order of the fields, else the first required field that is
    /// absent.
    pub fn from_record(r: &SlurmRecord) -> (res: FieldResult<Self>)
        ensures
            match res {
                Ok(n) => node_spec(r@) == Some(n@) && node_err(r@) is None,
                Err(e) => node_spec(r@) is None && node_err(r@) == Some(e@),
            },
    {
        let name = match text_field(r, "NodeName", "a string") {
            Ok(x) => x,
            Err(e) => return Err(e),
        };
        let state = match text_field(r, "State", "enum NodeState") {
            Ok(x) => x,
            Err(e) => return Err(e),
        };
        let cpu_alloc = match u32_field(r, "CPUAlloc") {
            Ok(x) => x,
            Err(e) => return Err(e),
        };
        let cpus = match u32_field(r, "CPUTot") {
            Ok(x) => x,
            Err(e) => return Err(e),
        };
        let real_memory_mb = match u64_field(r, "RealMemory") {
            Ok(x) => x,
            Err(e) => return Err(e),
        };
        let alloc_memory_mb = match u64_field(r, "AllocMem") {
            Ok(x) => x,
            Err(e) => return Err(e),
        };
        let free_memory_mb = match u64_field(r, "FreeMem") {
            Ok(x) => x,
            Err(e) => return Err(e),
        };
        let gres = match text_field(r, "Gres", "a string") {
            Ok(x) => x,
            Err(e) => return Err(e),
        };
        let partitions = texts_field(r, "Partitions");
        let configured_tres = match tres_field(r, "CfgTRES") {
            Ok(x) => x,
            Err(e) => return Err(e),
        };
        let allocated_tres = match tres_field(r, "AllocTRES") {
            Ok(x) => x,
            Err(e) => return Err(e),
        };
        let name = match require(name, "NodeName") {
            Ok(x) => x,
            Err(e) => return Err(e),
        };
        let state = match require(state, "State") {
            Ok(x) => x,
            Err(e) => return Err(e),
        };
        Ok(
            SlurmNode {
                name,
                state: node_state(state.as_str()),
                cpu_alloc,
                cpus,
                real_memory_mb,
                alloc_memory_mb,
                free_memory_mb,
                gres,
                partitions,
                configured_tres,
                allocated_tres,
            },
        )
    }
}

impl SlurmJob {
    /// Reads a job from a record of `scontrol show jobs`. The error is the first value that
    /// does not read, in the order of the fields, else the first required field that is
    /// absent.
    pub fn from_record(r: &SlurmRecord) -> (res: FieldResult<Self>)
        ensures
            match res {
                Ok(j) => job_spec(r@) == Some(j@) && job_err(r@) is None,
                Err(e) => job_spec(r@) is None && job_err(r@) == Some(e@),
            },
    {
        let job_id = match u64_field(r, "JobId") {
            Ok(x) => x,
            Err(e) => return Err(e),
        };
        let name = match text_field(r, "JobName", "a string") {
            Ok(x) => x,
            Err(e) => return Err(e),
        };
        let partition = match text_field(r, "Partition", "a string") {
            Ok(x) => x,
            Err(e) => return Err(e),
        };
        let user = match text_field(r, "UserId", "a string") {
            Ok(x) => x,
            Err(e) => return Err(e),
        };
        let state = match text_field(r, "JobState", "enum JobState") {
            Ok(x) => x,
            Err(e) => return Err(e),
        };
        let num_cpus = match u32_field(r, "NumCPUs") {
            Ok(x) => x,
            Err(e) => return Err(e),
        };
        let num_nodes = match text_field(r, "NumNodes", "a string") {
            Ok(x) => x,
            Err(e) => return Err(e),
        };
        let node_list = texts_field(r, "NodeList");
        let requested_tres = match tres_field(r, "ReqTRES") {
            Ok(x) => x,
            Err(e) => return Err(e),
        };
        let allocated_tres = match tres_field(r, "AllocTRES") {
            Ok(x) => x,
            Err(e) => return Err(e),
        };
        let command = match text_field(r, "Command", "a string") {
            Ok(x) => x,
            Err(e) => return Err(e),
        };
        let work_dir = match text_field(r, "WorkDir", "a string") {
            Ok(x) => x,
            Err(e) => return Err(e),
        };
        let time_limit = match text_field(r, "TimeLimit", "a string") {
            Ok(x) => x,
            Err(e) => return Err(e),
        };
        let job_id = match require(job_id, "JobId") {
            Ok(x) => x,
            Err(e) => return Err(e),
        };
        let name = match require(name, "JobName") {
            Ok(x) => x,
            Err(e) => return Err(e),
        };
        let state = match require(state, "JobState") {
            Ok(x) => x,
            Err(e) => return Err(e),
        };
        Ok(
            SlurmJob {
                job_id,
                name,
                partition,
                user,
                state: job_state(state.as_str()),
                num_cpus,
                num_nodes,
                node_list,
                requested_tres,
                allocated_tres,
                command,
                work_dir,
                time_limit,
            },
        )
    }
}

// ---------------------------------------------------------------------------
// Record lists and the cluster
// ---------------------------------------------------------------------------

/// The field maps of the records of `scontrol` output.
pub open spec fn records_of(input: Seq<char>) -> Seq<Map<Seq<char>, Seq<Seq<char>>>> {
    parser::records_spec(input).map_values(|r: Seq<char>| parser::record_spec(r))
}

/// Every record read by `conv`; `None` when one does not read.
pub open spec fn read_all<T>(recs: Seq<Map<Seq<char>, Seq<Seq<char>>>>, conv: spec_fn(Map<Seq<char>, Seq<Seq<char>>>) -> Option<T>) -> Option<Seq<T>>
    decreases recs.len(),
{
    if recs.len() == 0 {
        Some(Seq::empty())
    } else {
        match (read_all(recs.drop_last(), conv), conv(recs.last())) {
            (Some(xs), Some(x)) => Some(xs.push(x)),
            _ => None,
        }
    }
}

/// `parse_records`: blank input has no records; otherwise every record must read.
pub open spec fn parse_records_spec<T>(input: Seq<char>, conv: spec_fn(Map<Seq<char>, Seq<Seq<char>>>) -> Option<T>) -> Option<Seq<T>> {
    if is_blank(input) {
        Some(Seq::empty())
    } else {
        read_all(records_of(input), conv)
    }
}

pub open spec fn nodes_spec(input: Seq<char>) -> Option<Seq<SlurmNodeV>> {
    parse_records_spec(input, |r: Map<Seq<char>, Seq<Seq<char>>>| node_spec(r))
}

pub open spec fn partitions_spec(input: Seq<char>) -> Option<Seq<SlurmPartitionV>> {
    parse_records_spec(input, |r: Map<Seq<char>, Seq<Seq<char>>>| partition_spec(r))
}

pub open spec fn jobs_spec(input: Seq<char>) -> Option<Seq<SlurmJobV>> {
    parse_records_spec(input, |r: Map<Seq<char>, Seq<Seq<char>>>| job_spec(r))
}

/// The error of reading records: that of the first record that does not read.
pub open spec fn read_err(
    recs: Seq<Map<Seq<char>, Seq<Seq<char>>>>,
    err: spec_fn(Map<Seq<char>, Seq<Seq<char>>>) -> Option<Seq<char>>,
) -> Option<Seq<char>>
    decreases recs.len(),
{
    if recs.len() == 0 {
        None
    } else {
        match read_err(recs.drop_last(), err) {
            Some(e) => Some(e),
            None => err(recs.last()),
        }
    }
}

/// The error of reading records from `scontrol` output: blank output has none.
pub open spec fn parse_records_err(
    input: Seq<char>,
    err: spec_fn(Map<Seq<char>, Seq<Seq<char>>>) -> Option<Seq<char>>,
) -> Option<Seq<char>> {
    if is_blank(input) {
        None
    } else {
        read_err(records_of(input), err)
    }
}

pub open spec fn nodes_err(input: Seq<char>) -> Option<Seq<char>> {
    parse_records_err(input, |r: Map<Seq<char>, Seq<Seq<char>>>| node_err(r))
}

pub open spec fn partitions_err(input: Seq<char>) -> Option<Seq<char>> {
    parse_records_err(input, |r: Map<Seq<char>, Seq<Seq<char>>>| partition_err(r))
}

pub open spec fn jobs_err(input: Seq<char>) -> Option<Seq<char>> {
    parse_records_err(input, |r: Map<Seq<char>, Seq<Seq<char>>>| job_err(r))
}

/// An error in a prefix of the records is the error of all of them.
proof fn lemma_read_err_prefix(
    recs: Seq<Map<Seq<char>, Seq<Seq<char>>>>,
    err: spec_fn(Map<Seq<char>, Seq<Seq<char>>>) -> Option<Seq<char>>,
    j: int,
)
    requires
        0 <= j <= recs.len(),
        read_err(recs.take(j), err) is Some,
    ensures
        read_err(recs, err) == read_err(recs.take(j), err),
    decreases recs.len() - j,
{
    if j < recs.len() {
        assert(recs.take(j + 1).drop_last() =~= recs.take(j));
        lemma_read_err_prefix(recs, err, j + 1);
    } else {
        assert(recs.take(j) =~= recs);
    }
}

proof fn lemma_read_all_none<T>(recs: Seq<Map<Seq<char>, Seq<Seq<char>>>>, conv: spec_fn(Map<Seq<char>, Seq<Seq<char>>>) -> Option<T>, j: int)
    requires
        0 <= j <= recs.len(),
        read_all(recs.take(j), conv) is None,
    ensures
        read_all(recs, conv) is None,
    decreases recs.len() - j,
{
    if j < recs.len() {
        assert(recs.take(j + 1).drop_last() =~= recs.take(j));
        lemma_read_all_none(recs, conv, j + 1);
    } else {
        assert(recs.take(j) =~= recs);
    }
}

/// Reading the records of two sequences reads each in turn.
proof fn lemma_read_all_concat<T>(
    x: Seq<Map<Seq<char>, Seq<Seq<char>>>>,
    y: Seq<Map<Seq<char>, Seq<Seq<char>>>>,
    conv: spec_fn(Map<Seq<char>, Seq<Seq<char>>>) -> Option<T>,
)
    ensures
        read_all(x + y, conv) == match (read_all(x, conv), read_all(y, conv)) {
            (Some(p), Some(q)) => Some(p + q),
            _ => None::<Seq<T>>,
        },
    decreases y.len(),
{
    if y.len() == 0 {
        assert(x + y =~= x);
        match read_all(x, conv) {
            Some(p) => assert(p + Seq::<T>::empty() =~= p),
            None => {},
        }
    } else {
        lemma_read_all_concat(x, y.drop_last(), conv);
        assert((x + y).drop_last() =~= x + y.drop_last());
        assert((x + y).last() == y.last());
        match (read_all(x, conv), read_all(y.drop_last(), conv), conv(y.last())) {
            (Some(p), Some(q), Some(v)) => {
                assert((p + q).push(v) =~= p + q.push(v));
            },
            _ => {},
        }
    }
}

/// Reading blank input gives what reading its (absent) records gives.
proof fn lemma_parse_records_reads_all<T>(
    input: Seq<char>,
    conv: spec_fn(Map<Seq<char>, Seq<Seq<char>>>) -> Option<T>,
)
    ensures
        parse_records_spec(input, conv) == read_all(records_of(input), conv),
{
    if is_blank(input) {
        parser::lemma_blank_no_records(input);
        assert(records_of(input).len() == 0);
    }
}

/// Outputs joined by a blank line read as the records of the first followed by those of
/// the second, and fail when either fails (the first has no blank line and does not end in a
/// newline). This holds for nodes, partitions and jobs alike.
pub proof fn law_parse_records_join<T>(
    a: Seq<char>,
    b: Seq<char>,
    conv: spec_fn(Map<Seq<char>, Seq<Seq<char>>>) -> Option<T>,
)
    requires
        forall|j: int| 0 <= j && j + 1 < a.len() ==> !(#[trigger] a[j] == '\n' && a[j + 1] == '\n'),
        a.len() > 0 ==> a.last() != '\n',
    ensures
        parse_records_spec(a + "\n\n"@ + b, conv) == match (
            parse_records_spec(a, conv),
            parse_records_spec(b, conv),
        ) {
            (Some(p), Some(q)) => Some(p + q),
            _ => None::<Seq<T>>,
        },
{
    let s = a + "\n\n"@ + b;
    parser::law_records_join(a, b);
    assert(records_of(s) =~= records_of(a) + records_of(b));
    lemma_read_all_concat(records_of(a), records_of(b), conv);
    lemma_parse_records_reads_all(s, conv);
    lemma_parse_records_reads_all(a, conv);
    lemma_parse_records_reads_all(b, conv);
}

/// Whether `s` holds only whitespace.
fn blank(s: &str) -> (r: bool)
    ensures
        r == is_blank(s@),
{
    let v = chars_of(s);
    assert(v@.subrange(0, v@.len() as int) =~= v@);
    crate::text::blank_range(&v, 0, v.len())
}

pub open spec fn nodes_view(v: Seq<SlurmNode>) -> Seq<SlurmNodeV> {
    v.map_values(|n: SlurmNode| n@)
}

pub open spec fn partitions_view(v: Seq<SlurmPartition>) -> Seq<SlurmPartitionV> {
    v.map_values(|p: SlurmPartition| p@)
}

pub open spec fn jobs_view(v: Seq<SlurmJob>) -> Seq<SlurmJobV> {
    v.map_values(|j: SlurmJob| j@)
}

/// Reads the nodes of `scontrol show nodes` output.
pub fn parse_nodes(input: &str) -> (res: Result<Vec<SlurmNode>>)
    ensures
        match res {
            Ok(ns) => nodes_spec(input@) == Some(nodes_view(ns@)),
            Err(e) => nodes_spec(input@) is None && nodes_err(input@) is Some && e@ == ErrorV::SlurmParse(
                nodes_err(input@)->0,
            ),
        },
{
    let ghost conv = |r: Map<Seq<char>, Seq<Seq<char>>>| node_spec(r);
    let ghost errf = |r: Map<Seq<char>, Seq<Seq<char>>>| node_err(r);
    let mut out: Vec<SlurmNode> = Vec::new();
    if blank(input) {
        assert(nodes_view(out@) =~= Seq::<SlurmNodeV>::empty());
        return Ok(out);
    }
    let recs = parser::SlurmDeserializer::from_str(input).deserialize_seq();
    let ghost rv = records_of(input@);
    let mut k: usize = 0;
    assert(rv.take(0) =~= Seq::<Map<Seq<char>, Seq<Seq<char>>>>::empty());
    assert(nodes_view(out@) =~= Seq::<SlurmNodeV>::empty());
    while k < recs.len()
        invariant
            k <= recs@.len(),
            recs@.len() == rv.len(),
            rv == records_of(input@),
            !is_blank(input@),
            forall|i: int| 0 <= i < recs@.len() ==> (#[trigger] recs@[i])@ == rv[i],
            read_all(rv.take(k as int), conv) == Some(nodes_view(out@)),
            conv == (|r: Map<Seq<char>, Seq<Seq<char>>>| node_spec(r)),
            errf == (|r: Map<Seq<char>, Seq<Seq<char>>>| node_err(r)),
            read_err(rv.take(k as int), errf) is None,
        decreases recs@.len() - k,
    {
        assert(rv.take(k + 1).drop_last() =~= rv.take(k as int));
        assert(rv.take(k + 1).last() == recs@[k as int]@);
        match SlurmNode::from_record(&recs[k]) {
            Ok(n) => {
                let ghost prev = out@;
                out.push(n);
                assert(nodes_view(out@) =~= nodes_view(prev).push(n@));
            },
            Err(e) => {
                proof {
                    lemma_read_all_none(rv, conv, k + 1);
                    lemma_read_err_prefix(rv, errf, k + 1);
                }
                return Err(Error::SlurmParse(e.message()));
            },
        }
        k += 1;
    }
    assert(rv.take(recs@.len() as int) =~= rv);
    Ok(out)
}

/// Reads the partitions of `scontrol show partitions` output.
pub fn parse_partitions(input: &str) -> (res: Result<Vec<SlurmPartition>>)
    ensures
        match res {
            Ok(ps) => partitions_spec(input@) == Some(partitions_view(ps@)),
            Err(e) => partitions_spec(input@) is None && partitions_err(input@) is Some && e@ == ErrorV::SlurmParse(
                partitions_err(input@)->0,
            ),
        },
{
    let ghost conv = |r: Map<Seq<char>, Seq<Seq<char>>>| partition_spec(r);
    let ghost errf = |r: Map<Seq<char>, Seq<Seq<char>>>| partition_err(r);
    let mut out: Vec<SlurmPartition> = Vec::new();
    if blank(input) {
        assert(partitions_view(out@) =~= Seq::<SlurmPartitionV>::empty());
        return Ok(out);
    }
    let recs = parser::SlurmDeserializer::from_str(input).deserialize_seq();
    let ghost rv = records_of(input@);
    let mut k: usize = 0;
    assert(rv.take(0) =~= Seq::<Map<Seq<char>, Seq<Seq<char>>>>::empty());
    assert(partitions_view(out@) =~= Seq::<SlurmPartitionV>::empty());
    while k < recs.len()
        invariant
            k <= recs@.len(),
            recs@.len() == rv.len(),
            rv == records_of(input@),
            !is_blank(input@),
            forall|i: int| 0 <= i < recs@.len() ==> (#[trigger] recs@[i])@ == rv[i],
            read_all(rv.take(k as int), conv) == Some(partitions_view(out@)),
            conv == (|r: Map<Seq<char>, Seq<Seq<char>>>| partition_spec(r)),
            errf == (|r: Map<Seq<char>, Seq<Seq<char>>>| partition_err(r)),
            read_err(rv.take(k as int), errf) is None,
        decreases recs@.len() - k,
    {
        assert(rv.take(k + 1).drop_last() =~= rv.take(k as int));
        assert(rv.take(k + 1).last() == recs@[k as int]@);
        match SlurmPartition::from_record(&recs[k]) {
            Ok(p) => {
                let ghost prev = out@;
                out.push(p);
                assert(partitions_view(out@) =~= partitions_view(prev).push(p@));
            },
            Err(e) => {
                proof {
                    lemma_read_all_none(rv, conv, k + 1);
                    lemma_read_err_prefix(rv, errf, k + 1);
                }
                return Err(Error::SlurmParse(e.message()));
            },
        }
        k += 1;
    }
    assert(rv.take(recs@.len() as int) =~= rv);
    Ok(out)
}

/// Reads the jobs of `scontrol show jobs` output.
pub fn parse_jobs(input: &str) -> (res: Result<Vec<SlurmJob>>)
    ensures
        match res {
            Ok(js) => jobs_spec(input@) == Some(jobs_view(js@)),
            Err(e) => jobs_spec(input@) is None && jobs_err(input@) is Some && e@ == ErrorV::SlurmParse(
                jobs_err(input@)->0,
            ),
        },
{
    let ghost conv = |r: Map<Seq<char>, Seq<Seq<char>>>| job_spec(r);
    let ghost errf = |r: Map<Seq<char>, Seq<Seq<char>>>| job_err(r);
    let mut out: Vec<SlurmJob> = Vec::new();
    if blank(input) {
        assert(jobs_view(out@) =~= Seq::<SlurmJobV>::empty());
        return Ok(out);
    }
    let recs = parser::SlurmDeserializer::from_str(input).deserialize_seq();
    let ghost rv = records_of(input@);
    let mut k: usize = 0;
    assert(rv.take(0) =~= Seq::<Map<Seq<char>, Seq<Seq<char>>>>::empty());
    assert(jobs_view(out@) =~= Seq::<SlurmJobV>::empty());
    while k < recs.len()
        invariant
            k <= recs@.len(),
            recs@.len() == rv.len(),
            rv == records_of(input@),
            !is_blank(input@),
            forall|i: int| 0 <= i < recs@.len() ==> (#[trigger] recs@[i])@ == rv[i],
            read_all(rv.take(k as int), conv) == Some(jobs_view(out@)),
            conv == (|r: Map<Seq<char>, Seq<Seq<char>>>| job_spec(r)),
            errf == (|r: Map<Seq<char>, Seq<Seq<char>>>| job_err(r)),
            read_err(rv.take(k as int), errf) is None,
        decreases recs@.len() - k,
    {
        assert(rv.take(k + 1).drop_last() =~= rv.take(k as int));
        assert(rv.take(k + 1).last() == recs@[k as int]@);
        match SlurmJob::from_record(&recs[k]) {
            Ok(j) => {
                let ghost prev = out@;
                out.push(j);
                assert(jobs_view(out@) =~= jobs_view(prev).push(j@));
            },
            Err(e) => {
                proof {
                    lemma_read_all_none(rv, conv, k + 1);
                    lemma_read_err_prefix(rv, errf, k + 1);
                }
                return Err(Error::SlurmParse(e.message()));
            },
        }
        k += 1;
    }
    assert(rv.take(recs@.len() as int) =~= rv);
    Ok(out)
}


/// The output of the three `scontrol show` commands.
#[derive(Clone, Debug, Default, PartialEq, Eq)]
pub struct RawSlurmInfo {
    pub nodes: String,
    pub partitions: String,
    pub jobs: String,
}

/// The cluster's nodes and partitions by name, and its jobs by id.
#[derive(Debug, PartialEq, Eq)]
pub struct SlurmCluster {
    pub nodes: StrMap<SlurmNode>,
    pub partitions: StrMap<SlurmPartition>,
    pub jobs: std::collections::BTreeMap<u64, SlurmJob>,
}

pub struct SlurmClusterV {
    pub nodes: Map<Seq<char>, SlurmNodeV>,
    pub partitions: Map<Seq<char>, SlurmPartitionV>,
    pub jobs: Map<u64, SlurmJobV>,
}

impl View for SlurmCluster {
    type V = SlurmClusterV;

    open spec fn view(&self) -> SlurmClusterV {
        SlurmClusterV {
            nodes: self.nodes@.map_values(|n: SlurmNode| n@),
            partitions: self.partitions@.map_values(|p: SlurmPartition| p@),
            jobs: self.jobs@.map_values(|j: SlurmJob| j@),
        }
    }
}

/// Nodes by name; a later node with the same name replaces an earlier one.
pub open spec fn nodes_by_name(ns: Seq<SlurmNodeV>) -> Map<Seq<char>, SlurmNodeV>
    decreases ns.len(),
{
    if ns.len() == 0 {
        Map::empty()
    } else {
        nodes_by_name(ns.drop_last()).insert(ns.last().name, ns.last())
    }
}

/// Partitions by name; a later partition with the same name replaces an earlier one.
pub open spec fn partitions_by_name(ps: Seq<SlurmPartitionV>) -> Map<Seq<char>, SlurmPartitionV>
    decreases ps.len(),
{
    if ps.len() == 0 {
        Map::empty()
    } else {
        partitions_by_name(ps.drop_last()).insert(ps.last().name, ps.last())
    }
}

/// Jobs by id; a later job with the same id replaces an earlier one.
pub open spec fn jobs_by_id(js: Seq<SlurmJobV>) -> Map<u64, SlurmJobV>
    decreases js.len(),
{
    if js.len() == 0 {
        Map::empty()
    } else {
        jobs_by_id(js.drop_last()).insert(js.last().job_id, js.last())
    }
}

/// Each node is filed under its own name, and every node read is filed under its name.
proof fn lemma_nodes_by_name(ns: Seq<SlurmNodeV>)
    ensures
        forall|k: Seq<char>| #[trigger] nodes_by_name(ns).contains_key(k) ==> nodes_by_name(ns)[k].name == k,
        forall|i: int| 0 <= i < ns.len() ==> nodes_by_name(ns).contains_key(#[trigger] ns[i].name),
    decreases ns.len(),
{
    if ns.len() > 0 {
        lemma_nodes_by_name(ns.drop_last());
        assert forall|i: int| 0 <= i < ns.len() implies nodes_by_name(ns).contains_key(#[trigger] ns[i].name) by {
            if i < ns.len() - 1 {
                assert(ns.drop_last()[i] == ns[i]);
            }
        }
    }
}

/// Each partition is filed under its own name, and every partition read is filed under it.
proof fn lemma_partitions_by_name(ps: Seq<SlurmPartitionV>)
    ensures
        forall|k: Seq<char>| #[trigger] partitions_by_name(ps).contains_key(k) ==> partitions_by_name(ps)[k].name == k,
        forall|i: int| 0 <= i < ps.len() ==> partitions_by_name(ps).contains_key(#[trigger] ps[i].name),
    decreases ps.len(),
{
    if ps.len() > 0 {
        lemma_partitions_by_name(ps.drop_last());
        assert forall|i: int| 0 <= i < ps.len() implies partitions_by_name(ps).contains_key(#[trigger] ps[i].name) by {
            if i < ps.len() - 1 {
                assert(ps.drop_last()[i] == ps[i]);
            }
        }
    }
}

/// Each job is filed under its own id, and every job read is filed under its id.
proof fn lemma_jobs_by_id(js: Seq<SlurmJobV>)
    ensures
        forall|k: u64| #[trigger] jobs_by_id(js).contains_key(k) ==> jobs_by_id(js)[k].job_id == k,
        forall|i: int| 0 <= i < js.len() ==> jobs_by_id(js).contains_key(#[trigger] js[i].job_id),
    decreases js.len(),
{
    if js.len() > 0 {
        lemma_jobs_by_id(js.drop_last());
        assert forall|i: int| 0 <= i < js.len() implies jobs_by_id(js).contains_key(#[trigger] js[i].job_id) by {
            if i < js.len() - 1 {
                assert(js.drop_last()[i] == js[i]);
            }
        }
    }
}

/// A parsed cluster files each node and partition under its own name and each job under
/// its own id, and files every node, partition and job that was read.
pub proof fn law_cluster_keys_match(nodes: Seq<char>, partitions: Seq<char>, jobs: Seq<char>)
    requires
        cluster_spec(nodes, partitions, jobs) is Some,
    ensures
        ({
            let c = cluster_spec(nodes, partitions, jobs)->0;
            &&& forall|k: Seq<char>| #[trigger] c.nodes.contains_key(k) ==> c.nodes[k].name == k
            &&& forall|k: Seq<char>| #[trigger] c.partitions.contains_key(k) ==> c.partitions[k].name == k
            &&& forall|k: u64| #[trigger] c.jobs.contains_key(k) ==> c.jobs[k].job_id == k
            &&& forall|i: int| 0 <= i < nodes_spec(nodes)->0.len() ==> c.nodes.contains_key(#[trigger] nodes_spec(nodes)->0[i].name)
            &&& forall|i: int| 0 <= i < partitions_spec(partitions)->0.len() ==> c.partitions.contains_key(#[trigger] partitions_spec(partitions)->0[i].name)
            &&& forall|i: int| 0 <= i < jobs_spec(jobs)->0.len() ==> c.jobs.contains_key(#[trigger] jobs_spec(jobs)->0[i].job_id)
        }),
{
    lemma_nodes_by_name(nodes_spec(nodes)->0);
    lemma_partitions_by_name(partitions_spec(partitions)->0);
    lemma_jobs_by_id(jobs_spec(jobs)->0);
}

/// `SlurmCluster::parse`: all three outputs must read.
pub open spec fn cluster_spec(nodes: Seq<char>, partitions: Seq<char>, jobs: Seq<char>) -> Option<SlurmClusterV> {
    match (nodes_spec(nodes), partitions_spec(partitions), jobs_spec(jobs)) {
        (Some(ns), Some(ps), Some(js)) => Some(
            SlurmClusterV {
                nodes: nodes_by_name(ns),
                partitions: partitions_by_name(ps),
                jobs: jobs_by_id(js),
            },
        ),
        _ => None,
    }
}

/// The error of `SlurmCluster::parse`: that of the first output that does not read, in the
/// order nodes, partitions, jobs.
pub open spec fn cluster_err(nodes: Seq<char>, partitions: Seq<char>, jobs: Seq<char>) -> Option<Seq<char>> {
    if nodes_spec(nodes) is None {
        nodes_err(nodes)
    } else if partitions_spec(partitions) is None {
        partitions_err(partitions)
    } else {
        jobs_err(jobs)
    }
}

/// `BTreeMap::insert` on jobs by id.
fn insert_job(jobs: &mut std::collections::BTreeMap<u64, SlurmJob>, id: u64, job: SlurmJob)
    ensures
        final(jobs)@ == old(jobs)@.insert(id, job),
{
    broadcast use vstd::laws_cmp::group_laws_cmp;

    jobs.insert(id, job);
}

/// The number of jobs in a map of jobs by id.
pub fn job_count(jobs: &std::collections::BTreeMap<u64, SlurmJob>) -> (n: usize)
    ensures
        n == jobs@.dom().len(),
{
    broadcast use vstd::laws_cmp::group_laws_cmp;

    jobs.len()
}

impl SlurmCluster {
    /// Reads the cluster from the output of `scontrol show nodes`, `... partitions` and
    /// `... jobs`, keying nodes and partitions by name and jobs by id.
    pub fn parse(raw: &RawSlurmInfo) -> (res: Result<Self>)
        ensures
            match res {
                Ok(c) => cluster_spec(raw.nodes@, raw.partitions@, raw.jobs@) == Some(c@),
                Err(e) => cluster_spec(raw.nodes@, raw.partitions@, raw.jobs@) is None
                    && cluster_err(raw.nodes@, raw.partitions@, raw.jobs@) is Some
                    && e@ == ErrorV::SlurmParse(cluster_err(raw.nodes@, raw.partitions@, raw.jobs@)->0),
            },
    {
        let node_list = match parse_nodes(raw.nodes.as_str()) {
            Ok(x) => x,
            Err(e) => return Err(e),
        };
        let partition_list = match parse_partitions(raw.partitions.as_str()) {
            Ok(x) => x,
            Err(e) => return Err(e),
        };
        let job_list = match parse_jobs(raw.jobs.as_str()) {
            Ok(x) => x,
            Err(e) => return Err(e),
        };
        let ghost nv = nodes_view(node_list@);
        let ghost pv = partitions_view(partition_list@);
        let ghost jv = jobs_view(job_list@);
        let mut nodes: StrMap<SlurmNode> = StrMap::new();
        let mut rest = node_list;
        let mut k: usize = 0;
        let n = rest.len();
        assert(nv.take(0) =~= Seq::<SlurmNodeV>::empty());
        assert(nodes@.map_values(|x: SlurmNode| x@) =~= Map::<Seq<char>, SlurmNodeV>::empty());
        while rest.len() > 0
            invariant
                k <= n == nv.len(),
                rest@.len() == n - k,
                forall|i: int| 0 <= i < rest@.len() ==> (#[trigger] rest@[i])@ == nv[k + i],
                nodes@.map_values(|x: SlurmNode| x@) == nodes_by_name(nv.take(k as int)),
            decreases rest@.len(),
        {
            let node = rest.remove(0);
            assert(node@ == nv[k as int]);
            assert(nv.take(k + 1).drop_last() =~= nv.take(k as int));
            let ghost prev = nodes@;
            let name = node.name.clone();
            nodes.insert(name, node);
            assert(nodes@.map_values(|x: SlurmNode| x@) =~= prev.map_values(|x: SlurmNode| x@).insert(
                nv[k as int].name,
                nv[k as int],
            ));
            assert forall|i: int| 0 <= i < rest@.len() implies (#[trigger] rest@[i])@ == nv[k + 1 + i] by {}
            k += 1;
        }
        assert(nv.take(n as int) =~= nv);
        let mut partitions: StrMap<SlurmPartition> = StrMap::new();
        let mut rest = partition_list;
        let mut k: usize = 0;
        let n = rest.len();
        assert(pv.take(0) =~= Seq::<SlurmPartitionV>::empty());
        assert(partitions@.map_values(|x: SlurmPartition| x@) =~= Map::<Seq<char>, SlurmPartitionV>::empty());
        while rest.len() > 0
            invariant
                k <= n == pv.len(),
                rest@.len() == n - k,
                forall|i: int| 0 <= i < rest@.len() ==> (#[trigger] rest@[i])@ == pv[k + i],
                partitions@.map_values(|x: SlurmPartition| x@) == partitions_by_name(pv.take(k as int)),
            decreases rest@.len(),
        {
            let part = rest.remove(0);
            assert(part@ == pv[k as int]);
            assert(pv.take(k + 1).drop_last() =~= pv.take(k as int));
            let ghost prev = partitions@;
            let name = part.name.clone();
            partitions.insert(name, part);
            assert(partitions@.map_values(|x: SlurmPartition| x@) =~= prev.map_values(
                |x: SlurmPartition| x@,
            ).insert(pv[k as int].name, pv[k as int]));
            assert forall|i: int| 0 <= i < rest@.len() implies (#[trigger] rest@[i])@ == pv[k + 1 + i] by {}
            k += 1;
        }
        assert(pv.take(n as int) =~= pv);
        let mut jobs: std::collections::BTreeMap<u64, SlurmJob> = std::collections::BTreeMap::new();
        let mut rest = job_list;
        let mut k: usize = 0;
        let n = rest.len();
        assert(jv.take(0) =~= Seq::<SlurmJobV>::empty());
        assert(jobs@.map_values(|x: SlurmJob| x@) =~= Map::<u64, SlurmJobV>::empty());
        while rest.len() > 0
            invariant
                k <= n == jv.len(),
                rest@.len() == n - k,
                forall|i: int| 0 <= i < rest@.len() ==> (#[trigger] rest@[i])@ == jv[k + i],
                jobs@.map_values(|x: SlurmJob| x@) == jobs_by_id(jv.take(k as int)),
            decreases rest@.len(),
        {
            let job = rest.remove(0);
            assert(job@ == jv[k as int]);
            assert(jv.take(k + 1).drop_last() =~= jv.take(k as int));
            let ghost prev = jobs@;
            let id = job.job_id;
            insert_job(&mut jobs, id, job);
            assert(jobs@.map_values(|x: SlurmJob| x@) =~= prev.map_values(|x: SlurmJob| x@).insert(
                jv[k as int].job_id,
                jv[k as int],
            ));
            assert forall|i: int| 0 <= i < rest@.len() implies (#[trigger] rest@[i])@ == jv[k + 1 + i] by {}
            k += 1;
        }
        assert(jv.take(n as int) =~= jv);
        Ok(SlurmCluster { nodes, partitions, jobs })
    }
}


// ---------------------------------------------------------------------------
// Commands for instructions
// ---------------------------------------------------------------------------

/// A command's program and arguments.
pub struct Cmd {
    pub program: Seq<char>,
    pub args: Seq<Seq<char>>,
}

/// `command` with a plain environment: no variables and no working directory.
pub open spec fn is_cmd(c: CommandSpecV, cmd: Cmd) -> bool {
    &&& c.program == cmd.program
    &&& c.args == cmd.args
    &&& c.env == Map::<String, String>::empty()
    &&& c.working_dir is None
}

/// `/bin/sh -lc COMMAND`.
pub open spec fn shell_cmd(command: Seq<char>) -> Cmd {
    Cmd { program: "/bin/sh"@, args: seq!["-lc"@, command] }
}

/// The command of a shell or exec form: the shell form runs through `/bin/sh -lc`; the
/// exec form runs its first word (`true` when there is none) with the rest as arguments.
pub open spec fn form_cmd(c: ShellOrExecV) -> Cmd {
    match c {
        ShellOrExecV::Shell(s) => shell_cmd(s),
        ShellOrExecV::Exec(parts) => if parts.len() > 0 {
            Cmd { program: parts[0], args: parts.drop_first() }
        } else {
            Cmd { program: "true"@, args: Seq::empty() }
        },
    }
}

/// The command that does nothing: `/bin/sh -lc true`.
pub open spec fn noop_cmd() -> Cmd {
    shell_cmd("true"@)
}

/// The command a container runs for an instruction: `RUN`, `CMD`, `ENTRYPOINT` and a
/// `HEALTHCHECK` command run their command; a stage runs the programs of its instructions
/// joined by ` && ` through the shell (nothing when that text is empty); every other
/// instruction runs the command that does nothing.
pub open spec fn instruction_cmd(i: InstructionV) -> Cmd
    decreases i, 1int,
{
    match i {
        InstructionV::Run(c) => form_cmd(c),
        InstructionV::Cmd(c) => form_cmd(c),
        InstructionV::Entrypoint(c) => form_cmd(c),
        InstructionV::Healthcheck(HealthcheckV::Command { command, .. }) => form_cmd(command),
        InstructionV::Stage { body, .. } => {
            let joined = join(programs_of(body), " && "@);
            if joined.len() == 0 {
                noop_cmd()
            } else {
                shell_cmd(joined)
            }
        },
        _ => noop_cmd(),
    }
}

/// The programs of the commands for a sequence of instructions.
pub open spec fn programs_of(body: Seq<InstructionV>) -> Seq<Seq<char>>
    decreases body, 0int,
{
    if body.len() == 0 {
        Seq::empty()
    } else {
        programs_of(body.subrange(0, body.len() - 1)).push(instruction_cmd(body[body.len() - 1]).program)
    }
}

/// `RUN`, `CMD` and `ENTRYPOINT` each run their own command, and a `HEALTHCHECK` its
/// command: a shell form through `/bin/sh -lc`, an exec form as its first word with the rest
/// as arguments (`true` when it has none). Instructions that run nothing of their own run
/// `/bin/sh -lc true`.
pub proof fn law_instruction_commands(c: ShellOrExecV, options: Seq<Seq<char>>, i: InstructionV)
    ensures
        instruction_cmd(InstructionV::Run(c)) == form_cmd(c),
        instruction_cmd(InstructionV::Cmd(c)) == form_cmd(c),
        instruction_cmd(InstructionV::Entrypoint(c)) == form_cmd(c),
        instruction_cmd(InstructionV::Healthcheck(HealthcheckV::Command { options, command: c }))
            == form_cmd(c),
        c matches ShellOrExecV::Shell(t) ==> form_cmd(c) == (Cmd {
            program: "/bin/sh"@,
            args: seq!["-lc"@, t],
        }),
        c matches ShellOrExecV::Exec(p) ==> form_cmd(c) == (if p.len() > 0 {
            Cmd { program: p[0], args: p.drop_first() }
        } else {
            Cmd { program: "true"@, args: Seq::empty() }
        }),
        !(i is Run || i is Cmd || i is Entrypoint || i is Stage || i matches InstructionV::Healthcheck(
            HealthcheckV::Command { .. },
        )) ==> instruction_cmd(i) == (Cmd { program: "/bin/sh"@, args: seq!["-lc"@, "true"@] }),
{
}

/// A stage runs, through the shell, the programs of the commands of its instructions in
/// order, joined by ` && `; one program per instruction. With nothing to join it runs
/// `/bin/sh -lc true`.
pub proof fn law_stage_command(from: crate::dockerfile::FromV, body: Seq<InstructionV>)
    ensures
        programs_of(body).len() == body.len(),
        forall|k: int| 0 <= k < body.len() ==> #[trigger] programs_of(body)[k] == instruction_cmd(body[k]).program,
        instruction_cmd(InstructionV::Stage { from, body }) == (if join(programs_of(body), " && "@).len() == 0 {
            Cmd { program: "/bin/sh"@, args: seq!["-lc"@, "true"@] }
        } else {
            Cmd { program: "/bin/sh"@, args: seq!["-lc"@, join(programs_of(body), " && "@)] }
        }),
    decreases body.len(),
{
    if body.len() > 0 {
        let init = body.subrange(0, body.len() - 1);
        law_stage_command(from, init);
        assert forall|k: int| 0 <= k < body.len() implies #[trigger] programs_of(body)[k] == instruction_cmd(body[k]).program by {
            if k < body.len() - 1 {
                assert(init[k] == body[k]);
                assert(programs_of(body)[k] == programs_of(init)[k]);
            }
        }
    }
}

/// `/bin/sh -lc COMMAND`.
pub fn shell_command(command: String) -> (c: CommandSpec)
    ensures
        is_cmd(c@, shell_cmd(command@)),
{
    let mut spec = CommandSpec::new(String::from_str("/bin/sh"));
    let mut args: Vec<String> = Vec::new();
    args.push(String::from_str("-lc"));
    args.push(command);
    spec.args = args;
    assert(crate::text::strs_view(spec.args@) =~= seq!["-lc"@, command@]);
    spec
}

/// The command that does nothing.
pub fn noop_command() -> (c: CommandSpec)
    ensures
        is_cmd(c@, noop_cmd()),
{
    command_spec(&ShellOrExec::Shell(String::from_str("true")))
}

/// The command of a shell or exec form.
pub fn command_spec(command: &ShellOrExec) -> (c: CommandSpec)
    ensures
        is_cmd(c@, form_cmd(command@)),
{
    match command {
        ShellOrExec::Shell(s) => shell_command(s.clone()),
        ShellOrExec::Exec(parts) => {
            let program = if parts.len() > 0 {
                parts[0].clone()
            } else {
                String::from_str("true")
            };
            let mut spec = CommandSpec::new(program);
            if parts.len() > 0 {
                spec.args = crate::text::clone_range(parts, 1, parts.len());
                assert(strs_view(parts@.subrange(1, parts@.len() as int)) =~= strs_view(parts@).drop_first());
            } else {
                assert(strs_view(spec.args@) =~= Seq::<Seq<char>>::empty());
            }
            spec
        },
    }
}

/// The command a container runs for an instruction; there always is one.
pub fn command_for_instruction(instruction: &Instruction) -> (r: Result<Option<CommandSpec>>)
    ensures
        r matches Ok(Some(c)) && is_cmd(c@, instruction_cmd(instruction@)),
    decreases instruction,
{
    match instruction {
        Instruction::Run(command) => Ok(Some(command_spec(command))),
        Instruction::Cmd(command) => Ok(Some(command_spec(command))),
        Instruction::Entrypoint(command) => Ok(Some(command_spec(command))),
        Instruction::Healthcheck(Healthcheck::Command { command, .. }) => Ok(Some(command_spec(command))),
        Instruction::Stage { dockerfile, .. } => {
            let body = dockerfile.instructions();
            let ghost bv = instrs_view(body@);
            let mut programs: Vec<String> = Vec::new();
            let mut k: usize = 0;
            proof {
                crate::dockerfile::lemma_instrs_view(body@);
                assert(bv.subrange(0, 0) =~= Seq::<InstructionV>::empty());
                assert(strs_view(programs@) =~= Seq::<Seq<char>>::empty());
            }
            while k < body.len()
                invariant
                    k <= body@.len(),
                    body@ == dockerfile.instructions@,
                    *instruction matches Instruction::Stage { dockerfile: d, .. } && d == *dockerfile,
                    bv == instrs_view(body@),
                    bv == body@.map_values(|i: Instruction| instr_view(i)),
                    strs_view(programs@) == programs_of(bv.subrange(0, k as int)),
                decreases body@.len() - k,
            {
                let ghost prev = strs_view(programs@);
                proof {
                    assert(decreases_to!(*instruction => dockerfile.instructions@[k as int]));
                }
                match command_for_instruction(&body[k]) {
                    Ok(Some(c)) => {
                        programs.push(c.program);
                    },
                    _ => {},
                }
                proof {
                    let sub = bv.subrange(0, k + 1);
                    assert(sub.subrange(0, sub.len() - 1) =~= bv.subrange(0, k as int));
                    assert(sub[sub.len() - 1] == instr_view(body@[k as int]));
                    assert(strs_view(programs@) =~= prev.push(instruction_cmd(instr_view(body@[k as int])).program));
                }
                k += 1;
            }
            assert(bv.subrange(0, body@.len() as int) =~= bv);
            let joined = crate::text::join_strings(&programs, 0, " && ");
            assert(programs@.skip(0) =~= programs@);
            if joined.as_str().is_empty() {
                Ok(Some(noop_command()))
            } else {
                Ok(Some(shell_command(joined)))
            }
        },
        _ => Ok(Some(noop_command())),
    }
}


// ---------------------------------------------------------------------------
// Scheduler, hosts and containers
// ---------------------------------------------------------------------------

/// Milliseconds since the Unix epoch by the system clock; 0 when the clock reads a time
/// before the epoch.
pub fn unix_millis() -> (ms: u128)
    ensures
        exists|reading: Option<Duration>| ms == crate::clock::millis_of_reading_spec(reading),
{
    let now = crate::clock::system_now();
    let reading = crate::clock::since_unix_epoch(&now);
    crate::clock::millis_of_reading(reading)
}

#[verifier::external_type_specification]
#[verifier::external_body]
#[verifier::reject_recursive_types(T)]
pub struct ExMutex<T: ?Sized>(std::sync::Mutex<T>);

/// `Mutex::new` puts the value in a new, unlocked mutex. What a mutex holds is opaque
/// here, so nothing is stated of the result.
pub assume_specification<T>[ std::sync::Mutex::<T>::new ](t: T) -> std::sync::Mutex<T>;

/// Locks the registry with `Mutex::lock` and clones the list it guards; `None` stands for
/// the lock's error, which it gives when the lock is poisoned. The list is shared state that
/// other holders change, so nothing is stated of it.
#[verifier::external_body]
fn registry_snapshot(hosts: &Mutex<Vec<HostInfo>>) -> Option<Vec<HostInfo>> {
    match hosts.lock() {
        Ok(guard) => Some(guard.clone()),
        Err(_) => None,
    }
}

/// Locks the registry with `Mutex::lock` and pushes `info` onto the list it guards; `false`
/// stands for the lock's error, which it gives when the lock is poisoned. The list is shared
/// state that other holders change, so nothing is stated of it.
#[verifier::external_body]
fn registry_push(hosts: &Mutex<Vec<HostInfo>>, info: HostInfo) -> bool {
    match hosts.lock() {
        Ok(mut guard) => {
            guard.push(info);
            true
        },
        Err(_) => false,
    }
}

/// The error for a poisoned host registry.
pub open spec fn registry_poisoned() -> ErrorV {
    ErrorV::SlurmParse("host registry lock poisoned"@)
}

/// The id of a new host: its configured name, else `slurm-host-` and the clock reading in
/// milliseconds.
pub open spec fn host_id_spec(name: Option<Seq<char>>, millis: nat) -> Seq<char> {
    match name {
        Some(n) => n,
        None => "slurm-host-"@ + crate::text::decimal(millis),
    }
}

/// The id of a new host, given the clock reading in milliseconds.
pub fn host_id(name: &Option<String>, millis: u128) -> (id: String)
    ensures
        id@ == host_id_spec(crate::text::opt_view(*name), millis as nat),
{
    match name {
        Some(n) => n.clone(),
        None => {
            let digits = crate::text::decimal_string(millis);
            concat("slurm-host-", digits.as_str())
        },
    }
}

/// The registry's record of the host with id `id` made for `config`: that id, the configured
/// name, resources and time limit.
pub fn host_info(id: &String, config: &HostConfig) -> (i: HostInfo)
    ensures
        i.id@ == id@,
        crate::text::opt_view(i.name) == crate::text::opt_view(config.name),
        i.resources == config.resources,
        i.time_limit == config.time_limit,
{
    let name = match &config.name {
        Some(n) => Some(n.clone()),
        None => None,
    };
    HostInfo { id: id.clone(), name, resources: config.resources, time_limit: config.time_limit }
}

/// A scheduler that places hosts on a Slurm cluster and runs their containers through an
/// engine; it records the hosts it created.
pub struct SlurmScheduler<E: ContainerEngine + ?Sized> {
    id: String,
    engine: Arc<E>,
    hosts: Arc<Mutex<Vec<HostInfo>>>,
}

impl<E: ContainerEngine + ?Sized> SlurmScheduler<E> {
    pub closed spec fn spec_id(&self) -> Seq<char> {
        self.id@
    }

    pub closed spec fn spec_engine(&self) -> Arc<E> {
        self.engine
    }

    /// A scheduler with the given id and engine and an empty host registry.
    pub fn new(id: String, engine: Arc<E>) -> (s: Self)
        ensures
            s.spec_id() == id@,
            s.spec_engine() == engine,
    {
        let hosts: Vec<HostInfo> = Vec::new();
        Self { id, engine, hosts: Arc::new(Mutex::new(hosts)) }
    }

    /// Records a host for `config` and returns it. Its id is the configured name, else
    /// `slurm-host-` and the clock in milliseconds; it keeps the configured resources, time
    /// limit and partition and runs on this scheduler's engine. The only error is a poisoned
    /// registry.
    pub fn create_slurm_host(&self, config: HostConfig) -> (r: Result<SlurmHost<E>>)
        ensures
            match r {
                Ok(h) => {
                    &&& exists|m: nat| h.spec_id() == host_id_spec(crate::text::opt_view(config.name), m)
                    &&& config.name matches Some(n) ==> h.spec_id() == n@
                    &&& h.spec_resources() == config.resources
                    &&& h.spec_time_limit() == config.time_limit
                    &&& h.spec_partition() == crate::text::opt_view(config.partition)
                    &&& h.spec_engine() == self.spec_engine()
                },
                Err(e) => e@ == registry_poisoned(),
            },
    {
        let millis = match &config.name {
            Some(_) => 0,
            None => unix_millis(),
        };
        let id = host_id(&config.name, millis);
        let info = host_info(&id, &config);
        if !registry_push(&self.hosts, info) {
            return Err(Error::SlurmParse(String::from_str("host registry lock poisoned")));
        }
        let ghost m = millis as nat;
        assert(id@ == host_id_spec(crate::text::opt_view(config.name), m));
        Ok(SlurmHost {
            id,
            resources: config.resources,
            time_limit: config.time_limit,
            partition: config.partition,
            engine: self.engine.clone(),
        })
    }
}

impl<E: ContainerEngine + ?Sized + 'static> Scheduler for SlurmScheduler<E> {
    fn id(&self) -> (r: &str)
        ensures
            r@ == self.spec_id(),
    {
        self.id.as_str()
    }

    /// The hosts this scheduler has created; the only error is a poisoned registry.
    fn hosts(&self) -> (r: Result<Vec<HostInfo>>)
        ensures
            r matches Err(e) ==> e@ == registry_poisoned(),
    {
        match registry_snapshot(&self.hosts) {
            Some(v) => Ok(v),
            None => Err(Error::SlurmParse(String::from_str("host registry lock poisoned"))),
        }
    }

    /// Records a host for `config` and returns it: its id is the configured name, else
    /// `slurm-host-` and the clock in milliseconds; it has the configured resources and time
    /// limit. The only error is a poisoned registry.
    fn create_host(&self, config: HostConfig) -> (r: Result<Box<dyn Host>>)
        ensures
            match r {
                Ok(h) => {
                    &&& exists|m: nat| h.spec_id() == host_id_spec(crate::text::opt_view(config.name), m)
                    &&& config.name matches Some(n) ==> h.spec_id() == n@
                    &&& h.spec_resources() == config.resources
                    &&& h.spec_time_limit() == config.time_limit
                },
                Err(e) => e@ == registry_poisoned(),
            },
    {
        match self.create_slurm_host(config) {
            Ok(h) => Ok(Box::new(h)),
            Err(e) => Err(e),
        }
    }
}

/// A host placed on the Slurm cluster.
pub struct SlurmHost<E: ContainerEngine + ?Sized> {
    id: String,
    resources: Resources,
    time_limit: Option<Duration>,
    partition: Option<String>,
    engine: Arc<E>,
}

impl<E: ContainerEngine + ?Sized> SlurmHost<E> {
    pub closed spec fn spec_partition(&self) -> Option<Seq<char>> {
        crate::text::opt_view(self.partition)
    }

    pub closed spec fn spec_engine(&self) -> Arc<E> {
        self.engine
    }

    /// The partition the host was placed in, if one was configured.
    pub fn partition(&self) -> (p: Option<&str>)
        ensures
            match p {
                Some(s) => self.spec_partition() == Some(s@),
                None => self.spec_partition() is None,
            },
    {
        match &self.partition {
            Some(s) => Some(s.as_str()),
            None => None,
        }
    }

    /// The request for a container on this host.
    pub fn launch_request(&self, layer: Layer, command: Option<CommandSpec>, limits: ResourceLimits) -> (r: ContainerLaunch)
        ensures
            r.host_id@ == self.spec_id(),
            r.layer == layer,
            r.command == command,
            r.limits == limits,
    {
        ContainerLaunch { host_id: self.id.clone(), layer, command, limits }
    }

    /// The request for a container that runs an instruction on this host: this host's id,
    /// the layer, the instruction's command and the limits.
    pub fn instruction_request(&self, instruction: &Instruction, layer: Layer, limits: ResourceLimits) -> (r: ContainerLaunch)
        ensures
            r.host_id@ == self.spec_id(),
            r.layer == layer,
            r.command matches Some(c) && is_cmd(c@, instruction_cmd(instruction@)),
            r.limits == limits,
    {
        let command = match command_for_instruction(instruction) {
            Ok(c) => c,
            Err(_) => None,
        };
        self.launch_request(layer, command, limits)
    }

    /// What the engine reported of a launch, as a container on this host: the engine's
    /// container wrapped with this host's id and engine, or the engine's error unchanged.
    pub fn container_from(&self, launched: Result<EngineContainer>) -> (r: Result<SlurmContainer<E>>)
        ensures
            match launched {
                Ok(ec) => r matches Ok(c) && {
                    &&& c.spec_engine_container() == ec
                    &&& c.spec_host_id() == self.spec_id()
                    &&& c.spec_engine() == self.spec_engine()
                },
                Err(e) => r == Err::<SlurmContainer<E>, Error>(e),
            },
    {
        match launched {
            Ok(engine_container) => Ok(SlurmContainer {
                host_id: self.id.clone(),
                engine: self.engine.clone(),
                engine_container,
            }),
            Err(e) => Err(e),
        }
    }

    /// Launches the container through the engine and wraps what the engine reports.
    fn start(&self, request: ContainerLaunch) -> (r: Result<SlurmContainer<E>>)
        ensures
            r matches Ok(c) ==> c.spec_host_id() == self.spec_id() && c.spec_engine() == self.spec_engine(),
    {
        let launched = self.engine.launch(request);
        self.container_from(launched)
    }
}

impl<E: ContainerEngine + ?Sized + 'static> Host for SlurmHost<E> {
    closed spec fn spec_id(&self) -> Seq<char> {
        self.id@
    }

    closed spec fn spec_resources(&self) -> Resources {
        self.resources
    }

    closed spec fn spec_time_limit(&self) -> Option<Duration> {
        self.time_limit
    }

    fn id(&self) -> (r: &str) {
        self.id.as_str()
    }

    fn resources(&self) -> (r: &Resources) {
        &self.resources
    }

    fn time_limit(&self) -> (r: Option<Duration>) {
        self.time_limit
    }

    /// Launches a container with no command on this host: the engine gets this host's id,
    /// the layer, no command and the limits; the container runs on this host.
    fn launch_container(&self, layer: Layer, limits: ResourceLimits) -> (r: Result<Box<dyn Container>>)
        ensures
            r matches Ok(c) ==> c.spec_host_id() == self.spec_id(),
    {
        let request = self.launch_request(layer, None, limits);
        match self.start(request) {
            Ok(c) => Ok(Box::new(c)),
            Err(e) => Err(e),
        }
    }

    /// Launches a container that runs the instruction's command on this host: the engine
    /// gets this host's id, the layer, the instruction's command and the limits; the container
    /// runs on this host.
    fn launch_instruction(&self, instruction: &Instruction, layer: Layer, limits: ResourceLimits) -> (r: Result<
        Box<dyn Container>,
    >)
        ensures
            r matches Ok(c) ==> c.spec_host_id() == self.spec_id(),
    {
        let request = self.instruction_request(instruction, layer, limits);
        match self.start(request) {
            Ok(c) => Ok(Box::new(c)),
            Err(e) => Err(e),
        }
    }
}

/// A container on a Slurm host, driven through the host's engine.
pub struct SlurmContainer<E: ContainerEngine + ?Sized> {
    host_id: String,
    engine: Arc<E>,
    engine_container: EngineContainer,
}

impl<E: ContainerEngine + ?Sized> SlurmContainer<E> {
    pub closed spec fn spec_engine(&self) -> Arc<E> {
        self.engine
    }

    pub closed spec fn spec_engine_container(&self) -> EngineContainer {
        self.engine_container
    }
}

impl<E: ContainerEngine + ?Sized> Container for SlurmContainer<E> {
    closed spec fn spec_id(&self) -> Seq<char> {
        self.engine_container.id@
    }

    closed spec fn spec_host_id(&self) -> Seq<char> {
        self.host_id@
    }

    closed spec fn spec_base_layer(&self) -> Layer {
        self.engine_container.base_layer
    }

    fn id(&self) -> (r: &str)
        ensures
            r@ == self.spec_engine_container().id@,
    {
        self.engine_container.id.as_str()
    }

    fn host_id(&self) -> (r: &str) {
        self.host_id.as_str()
    }

    fn base_layer(&self) -> (r: &Layer)
        ensures
            *r == self.spec_engine_container().base_layer,
    {
        &self.engine_container.base_layer
    }

    fn status(&self) -> (r: Result<ContainerStatus>)
        ensures
            r matches Ok(st) && st@ == self.spec_engine_container().status@,
    {
        Ok(self.engine_container.status.duplicate())
    }

    fn attach_root(&self) -> Result<Box<dyn AttachedProcess>> {
        self.engine.attach(self.engine_container.id.as_str())
    }

    fn exec(&self, command: CommandSpec) -> Result<ProcessOutput> {
        self.engine.exec(self.engine_container.id.as_str(), command)
    }

    fn final_layer(&self) -> Result<Option<Layer>> {
        self.engine.diff(self.engine_container.id.as_str())
    }
}

/// A process that has already exited.
pub struct FinishedAttachedProcess {
    exit: ProcessExit,
}

impl FinishedAttachedProcess {
    pub closed spec fn spec_exit(&self) -> ProcessExit {
        self.exit
    }

    /// A process that exited with code 0.
    pub fn success() -> (p: Self)
        ensures
            p.spec_exit() == (ProcessExit { code: Some(0) }),
    {
        Self { exit: ProcessExit { code: Some(0) } }
    }
}

impl AttachedProcess for FinishedAttachedProcess {
    /// The recorded exit.
    fn wait(&mut self) -> (r: Result<ProcessExit>)
        ensures
            r == Ok::<ProcessExit, Error>(old(self).spec_exit()),
            final(self).spec_exit() == old(self).spec_exit(),
    {
        Ok(self.exit)
    }

    /// A finished process takes no input.
    fn send_stdin(&mut self, _bytes: &[u8]) -> (r: Result<usize>)
        ensures
            r matches Err(e) && e@ == ErrorV::Unsupported("cannot send stdin to a completed process"@),
            final(self).spec_exit() == old(self).spec_exit(),
    {
        Err(Error::Unsupported(String::from_str("cannot send stdin to a completed process")))
    }
}

} // verus!
