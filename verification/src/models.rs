use vstd::prelude::*;

verus! {

/// Lifecycle state of a download task.
#[derive(Clone, Copy, Debug, PartialEq, Eq, Structural)]
pub enum TaskStatus {
    Queued,
    Running,
    Paused,
    Completed,
    Failed,
}

/// The name under which a status is stored.
pub open spec fn status_name(s: TaskStatus) -> Seq<char> {
    match s {
        TaskStatus::Queued => "queued"@,
        TaskStatus::Running => "running"@,
        TaskStatus::Paused => "paused"@,
        TaskStatus::Completed => "completed"@,
        TaskStatus::Failed => "failed"@,
    }
}

impl TaskStatus {
    /// The name under which this status is stored.
    pub fn as_str(self) -> (name: &'static str)
        ensures
            name@ == status_name(self),
    {
        match self {
            TaskStatus::Queued => "queued",
            TaskStatus::Running => "running",
            TaskStatus::Paused => "paused",
            TaskStatus::Completed => "completed",
            TaskStatus::Failed => "failed",
        }
    }
}

/// Distinct statuses are stored under distinct names, so a stored name
/// identifies its status.
pub proof fn lemma_status_names_distinct(a: TaskStatus, b: TaskStatus)
    ensures
        status_name(a) == status_name(b) ==> a == b,
{
    reveal_strlit("queued");
    reveal_strlit("running");
    reveal_strlit("paused");
    reveal_strlit("completed");
    reveal_strlit("failed");
    if status_name(a) == status_name(b) {
        assert(status_name(a).len() == status_name(b).len());
        assert(status_name(a)[0] == status_name(b)[0]);
        assert(status_name(a)[1] == status_name(b)[1]);
    }
}

/// Lifecycle state of a chunk of a task.
#[derive(Clone, Copy, Debug, PartialEq, Eq, Structural)]
pub enum ChunkStatus {
    Queued,
    Downloading,
    Done,
    Failed,
}

/// The name under which a chunk status is stored.
pub open spec fn chunk_status_name(s: ChunkStatus) -> Seq<char> {
    match s {
        ChunkStatus::Queued => "queued"@,
        ChunkStatus::Downloading => "downloading"@,
        ChunkStatus::Done => "done"@,
        ChunkStatus::Failed => "failed"@,
    }
}

impl ChunkStatus {
    /// The name under which this chunk status is stored.
    pub fn as_str(self) -> (name: &'static str)
        ensures
            name@ == chunk_status_name(self),
    {
        match self {
            ChunkStatus::Queued => "queued",
            ChunkStatus::Downloading => "downloading",
            ChunkStatus::Done => "done",
            ChunkStatus::Failed => "failed",
        }
    }
}

/// Distinct chunk statuses are stored under distinct names, so a stored name
/// identifies its status.
pub proof fn lemma_chunk_status_names_distinct(a: ChunkStatus, b: ChunkStatus)
    ensures
        chunk_status_name(a) == chunk_status_name(b) ==> a == b,
{
    reveal_strlit("queued");
    reveal_strlit("downloading");
    reveal_strlit("done");
    reveal_strlit("failed");
    if chunk_status_name(a) == chunk_status_name(b) {
        assert(chunk_status_name(a).len() == chunk_status_name(b).len());
        assert(chunk_status_name(a)[0] == chunk_status_name(b)[0]);
    }
}

/// Persisted state of one byte range of a task.
#[derive(Clone, Debug)]
pub struct ChunkState {
    pub id: i64,
    pub task_id: i64,
    pub start_offset: i64,
    pub end_offset: i64,
    pub downloaded: i64,
    pub status: String,
    pub retries: i64,
}

/// A byte range handed to a worker: inclusive `start..=end`, of which the
/// first `downloaded` bytes are already on disk.
#[derive(Clone, Copy, Debug, PartialEq, Eq, Structural)]
pub struct ChunkWork {
    pub chunk_id: i64,
    pub start: u64,
    pub end: u64,
    pub downloaded: u64,
    pub retries: u32,
}

} // verus!
