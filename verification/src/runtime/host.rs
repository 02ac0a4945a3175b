//! Hosts as a resource map: what a host offers, how one is asked for, and the states of the
//! containers on it.
use super::engine::ProcessExit;
use std::collections::BTreeMap;
use std::sync::Arc;
use std::time::Duration;
use vstd::prelude::*;

verus! {

/// An amount of one named resource.
#[derive(Clone, Debug, PartialEq, Eq)]
pub struct Resource {
    pub id: Arc<String>,
    pub amount: u64,
}

impl Default for Resource {
    /// No amount of the resource with the empty name.
    fn default() -> (r: Self)
        ensures
            r.id@ == Seq::<char>::empty(),
            r.amount == 0,
    {
        Resource { id: Arc::new(String::new()), amount: 0 }
    }
}

/// Resources by their name.
#[derive(Clone, Debug, PartialEq, Eq)]
pub struct Resources {
    pub resources: BTreeMap<Arc<String>, Resource>,
}

impl Default for Resources {
    /// No resources.
    fn default() -> (r: Self)
        ensures
            r.resources@ == Map::<Arc<String>, Resource>::empty(),
    {
        Resources { resources: BTreeMap::new() }
    }
}

/// What a host is asked for.
#[derive(Clone, Debug, PartialEq, Eq)]
pub struct HostConfig {
    pub name: Option<String>,
    pub partition: Option<String>,
    pub resources: Resources,
    pub time_limit: Option<Duration>,
}

#[derive(Clone, Debug, PartialEq, Eq)]
pub enum ContainerStatus {
    Created,
    Running,
    Finished(ProcessExit),
    Failed(String),
}

} // verus!
