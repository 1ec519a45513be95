//! Data shared by the parsers and the editors.
use vstd::prelude::*;

verus! {

/// Priority of a task, as written with `!!` (high), `!` (medium) or nothing (low).
#[derive(Clone, Copy, PartialEq, Eq, Debug, Structural)]
pub enum Priority {
    High,
    Medium,
    Low,
}

/// A known tag or person name with the number of times it has been used.
#[derive(Clone, Debug, PartialEq, Eq)]
pub struct MetadataCatalogEntry {
    pub name: String,
    pub usage_count: usize,
}

/// The kinds of stored records.
#[derive(Clone, Copy, PartialEq, Eq, Debug, Structural)]
pub enum RecordType {
    Task,
    Event,
    Idea,
    Note,
}

/// The progress of a task.
#[derive(Clone, Copy, PartialEq, Eq, Debug, Structural)]
pub enum TaskStatus {
    Todo,
    InProgress,
    Done,
    Cancelled,
}

/// What the search, the lists and the previews read of a stored record.
/// Instants are nanoseconds since the Unix epoch.
#[derive(Clone, Debug, PartialEq, Eq)]
pub struct Record {
    pub id: u128,
    pub record_type: RecordType,
    pub title: Option<String>,
    pub content: String,
    pub tags: Vec<String>,
    pub persons: Vec<String>,
    pub priority: Option<Priority>,
    pub status: Option<TaskStatus>,
    pub completed_at: Option<i128>,
    pub due_date: Option<i128>,
    pub created_at: i128,
    pub updated_at: i128,
}

/// Whether a stored attachment can be shown.
#[derive(Clone, Copy, PartialEq, Eq, Debug, Structural)]
pub enum AttachmentStatus {
    Ready,
    Processing,
    Failed,
}

/// Where the bytes of a stored attachment live.
#[derive(Clone, Copy, PartialEq, Eq, Debug, Structural)]
pub enum AttachmentStorageBackend {
    DatabaseBlob,
    FilePathFallback,
    NoPayload,
}

} // verus!
