use vstd::prelude::*;
use crate::chunks::{Chunk, ChunkStatus};

verus! {

broadcast use vstd::string::group_string_axioms;

/// Where a download task stands.
#[derive(Debug, PartialEq)]
pub enum TaskStatus {
    Pending,
    Resolving,
    Running,
    Paused,
    Completed,
    Failed(String),
}

impl Clone for TaskStatus {
    fn clone(&self) -> (r: Self)
        ensures
            r == *self,
    {
        match self {
            TaskStatus::Pending => TaskStatus::Pending,
            TaskStatus::Resolving => TaskStatus::Resolving,
            TaskStatus::Running => TaskStatus::Running,
            TaskStatus::Paused => TaskStatus::Paused,
            TaskStatus::Completed => TaskStatus::Completed,
            TaskStatus::Failed(e) => TaskStatus::Failed(e.clone()),
        }
    }
}

/// Digests of a finished file, as lowercase hexadecimal text.
#[derive(Debug)]
pub struct Checksums {
    pub md5: Option<String>,
    pub sha256: Option<String>,
}

/// A copy of an optional string.
pub fn clone_opt_string(s: &Option<String>) -> (r: Option<String>)
    ensures
        r == *s,
{
    match s {
        Some(v) => Some(v.clone()),
        None => None,
    }
}

impl Clone for Checksums {
    fn clone(&self) -> (r: Self)
        ensures
            r == *self,
    {
        Checksums { md5: clone_opt_string(&self.md5), sha256: clone_opt_string(&self.sha256) }
    }
}

impl Default for Checksums {
    fn default() -> (r: Self)
        ensures
            r.md5 is None,
            r.sha256 is None,
    {
        Checksums { md5: None, sha256: None }
    }
}

/// A copy of optional checksums.
pub fn clone_opt_checksums(c: &Option<Checksums>) -> (r: Option<Checksums>)
    ensures
        r == *c,
{
    match c {
        Some(v) => Some(v.clone()),
        None => None,
    }
}

/// How a chunk is recorded on disk: only finished chunks stay finished.
#[derive(Clone, Copy, Debug, PartialEq, Eq, Structural)]
pub enum ChunkStatusState {
    Idle,
    Done,
}

/// A chunk as recorded on disk.
#[derive(Clone, Copy, Debug, PartialEq, Eq, Structural)]
pub struct ChunkState {
    pub index: usize,
    pub start: u64,
    pub end: u64,
    pub status: ChunkStatusState,
}

/// A task status as recorded on disk.
#[derive(Debug, PartialEq)]
pub enum TaskStatusState {
    Pending,
    Resolving,
    Running,
    Paused,
    Completed,
    Failed(String),
}

/// Everything recorded on disk about a task.
#[derive(Debug)]
pub struct TaskState {
    pub task_id: String,
    pub original_url: String,
    pub final_url: String,
    pub save_path: String,
    pub file_size: u64,
    pub chunks: Vec<ChunkState>,
    pub status: TaskStatusState,
    pub checksums: Option<Checksums>,
    pub custom_file_name: Option<String>,
}

/// The record of a chunk: its range, and done or not.
pub open spec fn saved_chunk(c: Chunk) -> ChunkState {
    ChunkState {
        index: c.index,
        start: c.start,
        end: c.end,
        status: if c.status is Done { ChunkStatusState::Done } else { ChunkStatusState::Idle },
    }
}

/// The chunk read back from its record: never tried, and done only if it was
/// recorded done.
pub open spec fn restored_chunk(c: ChunkState) -> Chunk {
    Chunk {
        index: c.index,
        start: c.start,
        end: c.end,
        status: if c.status is Done { ChunkStatus::Done } else { ChunkStatus::Idle },
        retries: 0,
    }
}

/// The record of a status.
pub open spec fn saved_status(s: TaskStatus) -> TaskStatusState {
    match s {
        TaskStatus::Pending => TaskStatusState::Pending,
        TaskStatus::Resolving => TaskStatusState::Resolving,
        TaskStatus::Running => TaskStatusState::Running,
        TaskStatus::Paused => TaskStatusState::Paused,
        TaskStatus::Completed => TaskStatusState::Completed,
        TaskStatus::Failed(e) => TaskStatusState::Failed(e),
    }
}

/// The status read back from its record: a task that was waiting, resolving
/// or running starts over as pending.
pub open spec fn restored_status(s: TaskStatusState) -> TaskStatus {
    match s {
        TaskStatusState::Pending => TaskStatus::Pending,
        TaskStatusState::Resolving => TaskStatus::Pending,
        TaskStatusState::Running => TaskStatus::Pending,
        TaskStatusState::Paused => TaskStatus::Paused,
        TaskStatusState::Completed => TaskStatus::Completed,
        TaskStatusState::Failed(e) => TaskStatus::Failed(e),
    }
}

/// The record of each chunk, in order.
pub fn chunk_states(chunks: &Vec<Chunk>) -> (r: Vec<ChunkState>)
    ensures
        r@.len() == chunks@.len(),
        forall|i: int| 0 <= i < r@.len() ==> #[trigger] r@[i] == saved_chunk(chunks@[i]),
{
    let mut r: Vec<ChunkState> = Vec::new();
    let mut i: usize = 0;
    while i < chunks.len()
        invariant
            i <= chunks@.len(),
            r@.len() == i,
            forall|j: int| 0 <= j < i ==> #[trigger] r@[j] == saved_chunk(chunks@[j]),
        decreases chunks@.len() - i,
    {
        let c = chunks[i];
        let st = match c.status {
            ChunkStatus::Done => ChunkStatusState::Done,
            _ => ChunkStatusState::Idle,
        };
        r.push(ChunkState { index: c.index, start: c.start, end: c.end, status: st });
        i = i + 1;
    }
    r
}

/// The record of a status.
pub fn status_state(s: &TaskStatus) -> (r: TaskStatusState)
    ensures
        r == saved_status(*s),
{
    match s {
        TaskStatus::Pending => TaskStatusState::Pending,
        TaskStatus::Resolving => TaskStatusState::Resolving,
        TaskStatus::Running => TaskStatusState::Running,
        TaskStatus::Paused => TaskStatusState::Paused,
        TaskStatus::Completed => TaskStatusState::Completed,
        TaskStatus::Failed(e) => TaskStatusState::Failed(e.clone()),
    }
}

impl TaskState {
    /// The record of a task from its current fields.
    pub fn capture(
        task_id: &String,
        original_url: &String,
        final_url: &String,
        save_path: &String,
        file_size: u64,
        chunks: &Vec<Chunk>,
        status: &TaskStatus,
        checksums: &Option<Checksums>,
        custom_file_name: &Option<String>,
    ) -> (r: TaskState)
        ensures
            r.task_id == *task_id,
            r.original_url == *original_url,
            r.final_url == *final_url,
            r.save_path == *save_path,
            r.file_size == file_size,
            r.chunks@.len() == chunks@.len(),
            forall|i: int| 0 <= i < r.chunks@.len() ==> #[trigger] r.chunks@[i] == saved_chunk(chunks@[i]),
            r.status == saved_status(*status),
            r.checksums == *checksums,
            r.custom_file_name == *custom_file_name,
    {
        TaskState {
            task_id: task_id.clone(),
            original_url: original_url.clone(),
            final_url: final_url.clone(),
            save_path: save_path.clone(),
            file_size,
            chunks: chunk_states(chunks),
            status: status_state(status),
            checksums: clone_opt_checksums(checksums),
            custom_file_name: clone_opt_string(custom_file_name),
        }
    }
}

/// The chunks and status a task resumes with after being read back.
pub struct RestoredTask {
    pub chunks: Vec<Chunk>,
    pub status: TaskStatus,
}

/// Reading a task back: a task of unknown size is pending; a task whose file
/// is gone loses its progress and is paused; otherwise waiting, resolving or
/// running tasks become pending and the rest keep their status.
pub open spec fn restore_result(
    saved: Seq<ChunkState>,
    status: TaskStatusState,
    file_size: u64,
    file_present: bool,
    r_chunks: Seq<Chunk>,
    r_status: TaskStatus,
) -> bool {
    &&& r_chunks.len() == saved.len()
    &&& if file_size == 0 {
        &&& r_status == TaskStatus::Pending
        &&& forall|i: int| 0 <= i < saved.len() ==> #[trigger] r_chunks[i] == restored_chunk(saved[i])
    } else if !file_present {
        &&& r_status == TaskStatus::Paused
        &&& forall|i: int|
            0 <= i < saved.len() ==> #[trigger] r_chunks[i] == Chunk {
                status: ChunkStatus::Idle,
                ..restored_chunk(saved[i])
            }
    } else {
        &&& r_status == restored_status(status)
        &&& forall|i: int| 0 <= i < saved.len() ==> #[trigger] r_chunks[i] == restored_chunk(saved[i])
    }
}

/// Rebuilds the chunks and status of a task from its record. `file_present`
/// tells whether the downloaded file still exists; it is only consulted when
/// the record knows the file size.
pub fn restore_task(saved: &Vec<ChunkState>, status: &TaskStatusState, file_size: u64, file_present: bool) -> (r: RestoredTask)
    ensures
        restore_result(saved@, *status, file_size, file_present, r.chunks@, r.status),
{
    let mut chunks: Vec<Chunk> = Vec::new();
    let lost = file_size != 0 && !file_present;
    let mut i: usize = 0;
    while i < saved.len()
        invariant
            lost == (file_size != 0 && !file_present),
            i <= saved@.len(),
            chunks@.len() == i,
            forall|j: int|
                0 <= j < i ==> #[trigger] chunks@[j] == if lost {
                    Chunk { status: ChunkStatus::Idle, ..restored_chunk(saved@[j]) }
                } else {
                    restored_chunk(saved@[j])
                },
        decreases saved@.len() - i,
    {
        let cs = saved[i];
        let st = if lost {
            ChunkStatus::Idle
        } else {
            match cs.status {
                ChunkStatusState::Done => ChunkStatus::Done,
                ChunkStatusState::Idle => ChunkStatus::Idle,
            }
        };
        chunks.push(Chunk { index: cs.index, start: cs.start, end: cs.end, status: st, retries: 0 });
        i = i + 1;
    }
    let restored = match status {
        TaskStatusState::Pending | TaskStatusState::Resolving | TaskStatusState::Running => TaskStatus::Pending,
        TaskStatusState::Paused => TaskStatus::Paused,
        TaskStatusState::Completed => TaskStatus::Completed,
        TaskStatusState::Failed(e) => TaskStatus::Failed(e.clone()),
    };
    let final_status = if file_size == 0 {
        TaskStatus::Pending
    } else if !file_present {
        TaskStatus::Paused
    } else {
        restored
    };
    RestoredTask { chunks, status: final_status }
}

/// Law of persistence: a task written to its record and read back with its
/// file in place keeps every chunk's range, keeps finished chunks finished,
/// makes unfinished ones idle with no retries, and keeps its status except
/// that waiting, resolving or running tasks wait again.
pub proof fn lemma_save_then_restore(
    chunks: Seq<Chunk>,
    status: TaskStatus,
    file_size: u64,
    r_chunks: Seq<Chunk>,
    r_status: TaskStatus,
)
    requires
        file_size > 0,
        restore_result(chunks.map_values(|c: Chunk| saved_chunk(c)), saved_status(status), file_size, true, r_chunks, r_status),
    ensures
        r_chunks.len() == chunks.len(),
        forall|i: int|
            0 <= i < chunks.len() ==> {
                &&& (#[trigger] r_chunks[i]).index == chunks[i].index
                &&& r_chunks[i].start == chunks[i].start
                &&& r_chunks[i].end == chunks[i].end
                &&& r_chunks[i].retries == 0
                &&& (r_chunks[i].status is Done <==> chunks[i].status is Done)
                &&& (!(chunks[i].status is Done) ==> r_chunks[i].status is Idle)
            },
        r_status == match status {
            TaskStatus::Pending | TaskStatus::Resolving | TaskStatus::Running => TaskStatus::Pending,
            other => other,
        },
{
    let saved = chunks.map_values(|c: Chunk| saved_chunk(c));
    assert forall|i: int| 0 <= i < chunks.len() implies {
        &&& (#[trigger] r_chunks[i]).index == chunks[i].index
        &&& r_chunks[i].start == chunks[i].start
        &&& r_chunks[i].end == chunks[i].end
        &&& r_chunks[i].retries == 0
        &&& (r_chunks[i].status is Done <==> chunks[i].status is Done)
        &&& (!(chunks[i].status is Done) ==> r_chunks[i].status is Idle)
    } by {
        assert(saved[i] == saved_chunk(chunks[i]));
        assert(r_chunks[i] == restored_chunk(saved[i]));
    }
}

} // verus!
