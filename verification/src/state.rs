//! What the command-line tool remembers between runs: its schedulers and the hosts it
//! created, and where that record is kept.
use crate::runtime::Resources;
use std::path::{Path, PathBuf};
use std::time::Duration;
use vstd::prelude::*;

verus! {

#[verifier::external_type_specification]
#[verifier::external_body]
pub struct ExJsonValue(serde_json::Value);

/// `serde_json::Value::clone` makes a deep copy. A JSON value is opaque here, so nothing is
/// stated of the copy.
pub assume_specification[ <serde_json::Value as Clone>::clone ](v: &serde_json::Value) -> serde_json::Value;

#[verifier::external_type_specification]
#[verifier::external_body]
pub struct ExPath(std::path::Path);

/// Builds the JSON value `{}` with `serde_json::Value::Object(serde_json::Map::new())`. A
/// JSON value is opaque here, so that it is the empty object is not stated.
#[verifier::external_body]
fn empty_json_object() -> serde_json::Value {
    serde_json::Value::Object(serde_json::Map::new())
}

/// The path a `PathBuf` holds, as `PathBuf::as_path` borrows it.
pub uninterp spec fn path_of(p: PathBuf) -> &'static Path;

/// Calls `PathBuf::as_path`; the borrowed path is the name `path_of` of the buffer.
#[verifier::external_body]
fn as_path(p: &PathBuf) -> (r: &Path)
    ensures
        r == path_of(*p),
{
    p.as_path()
}

/// The kinds of scheduler the tool knows.
#[derive(Clone, Copy, Debug, PartialEq, Eq, Structural)]
pub enum SchedulerKind {
    Slurm,
}

/// A scheduler the tool knows of, with its configuration.
#[derive(Clone, Debug, PartialEq, Eq)]
pub struct SchedulerRecord {
    pub id: String,
    pub kind: SchedulerKind,
    pub config: serde_json::Value,
    pub created_at_unix_secs: u64,
}

/// A host the tool created.
#[derive(Clone, Debug, PartialEq, Eq)]
pub struct HostRecord {
    pub id: String,
    pub scheduler_id: String,
    pub slurm_job_id: Option<u64>,
    pub resources: Resources,
    pub time_limit: Option<Duration>,
    pub created_at_unix_secs: u64,
}

pub struct HostRecordV {
    pub id: Seq<char>,
    pub scheduler_id: Seq<char>,
    pub slurm_job_id: Option<u64>,
    pub resources: Resources,
    pub time_limit: Option<Duration>,
    pub created_at_unix_secs: u64,
}

impl View for HostRecord {
    type V = HostRecordV;

    open spec fn view(&self) -> HostRecordV {
        HostRecordV {
            id: self.id@,
            scheduler_id: self.scheduler_id@,
            slurm_job_id: self.slurm_job_id,
            resources: self.resources,
            time_limit: self.time_limit,
            created_at_unix_secs: self.created_at_unix_secs,
        }
    }
}

impl HostRecord {
    /// A copy of the record.
    pub fn duplicate(&self) -> (r: Self)
        ensures
            r@ == self@,
    {
        HostRecord {
            id: self.id.clone(),
            scheduler_id: self.scheduler_id.clone(),
            slurm_job_id: self.slurm_job_id,
            resources: self.resources,
            time_limit: self.time_limit,
            created_at_unix_secs: self.created_at_unix_secs,
        }
    }
}

/// The views of a sequence of host records.
pub open spec fn hosts_view(v: Seq<HostRecord>) -> Seq<HostRecordV> {
    v.map_values(|h: HostRecord| h@)
}

/// The records of `hs` whose id is not `id`, in their order.
pub open spec fn without_id(hs: Seq<HostRecordV>, id: Seq<char>) -> Seq<HostRecordV>
    decreases hs.len(),
{
    if hs.len() == 0 {
        hs
    } else {
        let rest = without_id(hs.drop_last(), id);
        if hs.last().id == id {
            rest
        } else {
            rest.push(hs.last())
        }
    }
}

/// No two records have the same id.
pub open spec fn ids_distinct(hs: Seq<HostRecordV>) -> bool {
    forall|i: int, j: int| 0 <= i < j < hs.len() ==> hs[i].id != hs[j].id
}

/// The records after `host` is added: any record with its id leaves, and `host` comes last.
pub open spec fn add_host_spec(hs: Seq<HostRecordV>, host: HostRecordV) -> Seq<HostRecordV> {
    without_id(hs, host.id).push(host)
}

/// What `without_id` keeps: records of `hs` whose id is not `id`, each id at most once
/// when the ids of `hs` are distinct.
proof fn lemma_without_id(hs: Seq<HostRecordV>, id: Seq<char>)
    ensures
        forall|i: int| 0 <= i < without_id(hs, id).len() ==> {
            &&& (#[trigger] without_id(hs, id)[i]).id != id
            &&& hs.contains(without_id(hs, id)[i])
        },
        ids_distinct(hs) ==> ids_distinct(without_id(hs, id)),
        forall|i: int| 0 <= i < hs.len() && hs[i].id != id ==> without_id(hs, id).contains(#[trigger] hs[i]),
    decreases hs.len(),
{
    if hs.len() > 0 {
        let init = hs.drop_last();
        lemma_without_id(init, id);
        let r = without_id(hs, id);
        let ri = without_id(init, id);
        assert forall|i: int| 0 <= i < r.len() implies (#[trigger] r[i]).id != id && hs.contains(r[i]) by {
            if i < ri.len() {
                let j = choose|j: int| 0 <= j < init.len() && init[j] == ri[i];
                assert(hs[j] == ri[i]);
            } else {
                assert(hs[hs.len() - 1] == r[i]);
            }
        }
        if ids_distinct(hs) {
            assert(ids_distinct(init));
            if hs.last().id != id {
                assert forall|a: int, b: int| 0 <= a < b < r.len() implies r[a].id != r[b].id by {
                    if b == r.len() - 1 {
                        let j = choose|j: int| 0 <= j < init.len() && init[j] == ri[a];
                        assert(hs[j] == r[a]);
                        assert(hs[hs.len() - 1] == r[b]);
                    } else {
                        assert(r[a] == ri[a] && r[b] == ri[b]);
                    }
                }
            }
        }
        assert forall|i: int| 0 <= i < hs.len() && hs[i].id != id implies r.contains(#[trigger] hs[i]) by {
            if i < hs.len() - 1 {
                assert(init[i] == hs[i]);
                let j = choose|j: int| 0 <= j < ri.len() && ri[j] == init[i];
                assert(r[j] == hs[i]);
            } else {
                assert(r[r.len() - 1] == hs[i]);
            }
        }
    }
}

/// Adding a host to records with distinct ids leaves records with distinct ids; the new
/// host is the last record and the only one with its id, and every other record stays.
pub proof fn law_add_host_replaces_by_id(hs: Seq<HostRecordV>, host: HostRecordV)
    requires
        ids_distinct(hs),
    ensures
        ids_distinct(add_host_spec(hs, host)),
        add_host_spec(hs, host).last() == host,
        forall|i: int| 0 <= i < add_host_spec(hs, host).len() - 1 ==> (#[trigger] add_host_spec(hs, host)[i]).id != host.id,
        forall|i: int| 0 <= i < hs.len() && hs[i].id != host.id ==> add_host_spec(hs, host).contains(#[trigger] hs[i]),
{
    lemma_without_id(hs, host.id);
    let w = without_id(hs, host.id);
    let r = add_host_spec(hs, host);
    assert forall|i: int| 0 <= i < r.len() - 1 implies (#[trigger] r[i]).id != host.id by {
        assert(r[i] == w[i]);
    }
    assert forall|a: int, b: int| 0 <= a < b < r.len() implies r[a].id != r[b].id by {
        if b == r.len() - 1 {
            assert(r[a] == w[a]);
        } else {
            assert(r[a] == w[a] && r[b] == w[b]);
        }
    }
    assert forall|i: int| 0 <= i < hs.len() && hs[i].id != host.id implies r.contains(#[trigger] hs[i]) by {
        let j = choose|j: int| 0 <= j < w.len() && w[j] == hs[i];
        assert(r[j] == hs[i]);
    }
}

/// Everything the tool remembers.
#[derive(Clone, Debug, PartialEq, Eq)]
pub struct CliState {
    pub schedulers: Vec<SchedulerRecord>,
    pub hosts: Vec<HostRecord>,
}

impl CliState {
    /// Records `host`, replacing any host with the same id; the other hosts keep their order
    /// and `host` comes last.
    pub fn add_host(&mut self, host: HostRecord)
        ensures
            hosts_view(final(self).hosts@) == add_host_spec(hosts_view(old(self).hosts@), host@),
            final(self).schedulers@ == old(self).schedulers@,
    {
        let ghost old_hosts = hosts_view(self.hosts@);
        let mut kept: Vec<HostRecord> = Vec::new();
        let mut k: usize = 0;
        while k < self.hosts.len()
            invariant
                k <= self.hosts@.len(),
                old_hosts == hosts_view(self.hosts@),
                hosts_view(kept@) == without_id(old_hosts.take(k as int), host@.id),
            decreases self.hosts@.len() - k,
        {
            proof {
                assert(old_hosts.take(k + 1).drop_last() =~= old_hosts.take(k as int));
            }
            if !crate::text::str_eq(self.hosts[k].id.as_str(), host.id.as_str()) {
                let h = self.hosts[k].duplicate();
                let ghost before = hosts_view(kept@);
                kept.push(h);
                assert(hosts_view(kept@) =~= before.push(h@));
            }
            k += 1;
        }
        assert(old_hosts.take(self.hosts@.len() as int) =~= old_hosts);
        let ghost before = hosts_view(kept@);
        let ghost hv = host@;
        kept.push(host);
        assert(hosts_view(kept@) =~= before.push(hv));
        self.hosts = kept;
    }
}

/// Where the tool's state is kept.
#[derive(Clone, Debug)]
pub struct StateStore {
    path: PathBuf,
}

impl StateStore {
    pub closed spec fn spec_path(&self) -> PathBuf {
        self.path
    }

    /// A store kept at `path`.
    pub fn new(path: PathBuf) -> (s: Self)
        ensures
            s.spec_path() == path,
    {
        Self { path }
    }

    /// The file the state is kept in: the path the store was made with.
    pub fn path(&self) -> (r: &Path)
        ensures
            r == path_of(self.spec_path()),
    {
        as_path(&self.path)
    }
}

/// Seconds since the Unix epoch by the system clock; 0 when the clock reads a time before
/// the epoch.
pub fn now_unix_secs() -> (s: u64)
    ensures
        exists|reading: Option<Duration>| s == crate::clock::secs_of_reading_spec(reading),
{
    let now = crate::clock::system_now();
    let reading = crate::clock::since_unix_epoch(&now);
    crate::clock::secs_of_reading(reading)
}

impl Default for CliState {
    /// The state of a new installation: the local Slurm scheduler, with an empty
    /// configuration, created now, and no hosts.
    fn default() -> (s: Self)
        ensures
            s.schedulers@.len() == 1,
            s.schedulers@[0].id@ == "local-slurm"@,
            s.schedulers@[0].kind == SchedulerKind::Slurm,
            s.hosts@.len() == 0,
    {
        let record = SchedulerRecord {
            id: String::from_str("local-slurm"),
            kind: SchedulerKind::Slurm,
            config: empty_json_object(),
            created_at_unix_secs: now_unix_secs(),
        };
        let mut schedulers: Vec<SchedulerRecord> = Vec::new();
        schedulers.push(record);
        CliState { schedulers, hosts: Vec::new() }
    }
}

} // verus!
