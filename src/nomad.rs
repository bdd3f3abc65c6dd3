//! The orchestrator's job records, as its job API describes them.
use vstd::prelude::*;

verus! {

/// An entry of the job list.
#[derive(Debug)]
pub struct JobListEntry {
    pub id: String,
    pub parent_id: String,
    pub name: String,
    pub type_: String,
    pub priority: usize,
}

/// A job in detail.
#[derive(Debug)]
pub struct ReadJobResponse {
    pub id: String,
    pub name: String,
    pub parent_id: String,
    pub task_groups: Vec<ReadJobTaskGroup>,
}

/// A group of tasks of a job.
#[derive(Debug)]
pub struct ReadJobTaskGroup {
    pub name: String,
    pub count: usize,
    pub tasks: Vec<ReadJobTask>,
}

/// A task, with the configuration of the driver that runs it.
#[derive(Debug)]
pub struct ReadJobTask {
    pub name: String,
    pub config: ReadJobConfig,
}

/// A task's driver and its configuration.
#[derive(Debug)]
pub enum ReadJobConfig {
    Docker { image: String },
    RawExec {},
}

impl ReadJobConfig {
    /// A copy of the configuration.
    pub fn duplicate(&self) -> (r: ReadJobConfig)
        ensures
            r == *self,
    {
        match self {
            ReadJobConfig::Docker { image } => ReadJobConfig::Docker { image: image.clone() },
            ReadJobConfig::RawExec {} => ReadJobConfig::RawExec {},
        }
    }
}

} // verus!
