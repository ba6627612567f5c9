use vstd::prelude::*;

verus! {

/// Scheduler state of a job.
#[derive(Debug, Clone, Copy, PartialEq, Eq, Structural)]
pub enum JobState {
    Pending,
    Running,
    Completed,
    Failed,
    Timeout,
    NodeFail,
    Boot,
    Cancelled,
    Other,
}

/// One scheduler job record of a snapshot.
#[derive(Debug, Clone)]
pub struct Job {
    pub id: String,
    pub name: String,
    pub user: String,
    pub state: JobState,
    pub partition: String,
    pub qos: String,
    pub nodes: u32,
    pub node: Option<String>,
    pub cpus: u32,
    pub time: String,
    pub memory: String,
    pub account: Option<String>,
    pub priority: Option<u32>,
    pub work_dir: Option<String>,
    pub submit_time: Option<String>,
    pub start_time: Option<String>,
    pub end_time: Option<String>,
    pub pending_reason: Option<String>,
}

/// Kind of a displayed column.
#[derive(Debug, Clone, Copy, PartialEq, Eq, Structural)]
pub enum JobColumn {
    Id,
    Name,
    User,
    State,
    Partition,
    QoS,
    Nodes,
    Node,
    CPUs,
    Time,
    Memory,
    Account,
    Priority,
    WorkDir,
    SubmitTime,
    StartTime,
    EndTime,
    PReason,
}

/// Direction of a sort.
#[derive(Debug, Clone, Copy, PartialEq, Eq, Structural)]
pub enum SortOrder {
    Ascending,
    Descending,
}

/// One active sort: a column kind and a direction.
#[derive(Debug, Clone, Copy, PartialEq, Eq, Structural)]
pub struct SortColumn {
    pub column: JobColumn,
    pub order: SortOrder,
}

} // verus!
