use vstd::prelude::*;
use crate::chunks::{Chunk, PIECE_SIZE, all_done, all_done_spec};
use crate::task::TaskStatus;
use crate::text::{after_last, before_first, chars_after_last, chars_before_first, chars_of, is_blank, is_blank_text, string_from_chars};

verus! {

broadcast use vstd::string::group_string_axioms;

/// At most this many tasks run at once unless the configuration says
/// otherwise.
pub const DEFAULT_MAX_TASKS: u32 = 16;

/// A worker stops after this many failures in a row.
pub const MAX_CONSECUTIVE_FAILURES: u32 = 10;

/// Why a task operation was refused.
#[derive(Clone, Copy, Debug, PartialEq, Eq, Structural)]
pub enum TaskError {
    NotFound,
    NotRunning,
    NotResumable,
    ResolveFailed,
    PausedWhileResolving,
}

impl TaskError {
    /// The message reported for the error.
    pub fn message(&self) -> (m: String)
        ensures
            m@ == match *self {
                TaskError::NotFound => "Task not found"@,
                TaskError::NotRunning => "Task is not running or pending"@,
                TaskError::NotResumable => "Task is not paused or failed"@,
                TaskError::ResolveFailed => "Failed to resolve URL"@,
                TaskError::PausedWhileResolving => "Task paused during resolving"@,
            },
    {
        match self {
            TaskError::NotFound => "Task not found".to_owned(),
            TaskError::NotRunning => "Task is not running or pending".to_owned(),
            TaskError::NotResumable => "Task is not paused or failed".to_owned(),
            TaskError::ResolveFailed => "Failed to resolve URL".to_owned(),
            TaskError::PausedWhileResolving => "Task paused during resolving".to_owned(),
        }
    }
}

/// A task counts against the running limit while it resolves or runs.
pub open spec fn is_active(s: TaskStatus) -> bool {
    s is Running || s is Resolving
}

/// Pausing: a running, waiting or resolving task becomes paused; any other
/// is refused.
pub open spec fn pause_result(s: TaskStatus) -> Result<TaskStatus, TaskError> {
    if s is Running || s is Pending || s is Resolving {
        Ok(TaskStatus::Paused)
    } else {
        Err(TaskError::NotRunning)
    }
}

/// Resuming: a paused or failed task waits again; any other is refused.
pub open spec fn resume_result(s: TaskStatus) -> Result<TaskStatus, TaskError> {
    if s is Paused || s is Failed {
        Ok(TaskStatus::Pending)
    } else {
        Err(TaskError::NotResumable)
    }
}

/// The status a task gets when paused, or why it cannot be.
pub fn pause_status(status: &TaskStatus) -> (r: Result<TaskStatus, TaskError>)
    ensures
        r == pause_result(*status),
{
    match status {
        TaskStatus::Running | TaskStatus::Pending | TaskStatus::Resolving => Ok(TaskStatus::Paused),
        _ => Err(TaskError::NotRunning),
    }
}

/// The status a task gets when resumed, or why it cannot be.
pub fn resume_status(status: &TaskStatus) -> (r: Result<TaskStatus, TaskError>)
    ensures
        r == resume_result(*status),
{
    match status {
        TaskStatus::Paused | TaskStatus::Failed(_) => Ok(TaskStatus::Pending),
        _ => Err(TaskError::NotResumable),
    }
}

/// Law of the pause and resume pair: a task that could be paused can be
/// resumed and then waits to be started again; a paused task cannot be paused
/// a second time; and a task is never both pausable and resumable.
pub proof fn lemma_pause_then_resume(s: TaskStatus)
    ensures
        pause_result(s) is Ok ==> resume_result(pause_result(s)->Ok_0) == Ok::<TaskStatus, TaskError>(TaskStatus::Pending),
        pause_result(s) is Ok ==> pause_result(pause_result(s)->Ok_0) == Err::<TaskStatus, TaskError>(TaskError::NotRunning),
        !(pause_result(s) is Ok && resume_result(s) is Ok),
{
}

/// Deleting a task removes its file unless the task is complete and the
/// caller keeps completed files.
pub fn removes_file_on_delete(status: &TaskStatus, delete_completed_file: bool) -> (b: bool)
    ensures
        b == (!(status is Completed) || delete_completed_file),
{
    match status {
        TaskStatus::Completed => delete_completed_file,
        _ => true,
    }
}

/// Number of active tasks.
pub open spec fn active_count(s: Seq<TaskStatus>) -> int
    decreases s.len(),
{
    if s.len() == 0 {
        0
    } else {
        active_count(s.drop_last()) + if is_active(s.last()) { 1int } else { 0int }
    }
}

/// Positions of the waiting tasks, in order.
pub open spec fn pending_positions(s: Seq<TaskStatus>) -> Seq<usize>
    decreases s.len(),
{
    if s.len() == 0 {
        Seq::empty()
    } else if s.last() is Pending {
        pending_positions(s.drop_last()).push((s.len() - 1) as usize)
    } else {
        pending_positions(s.drop_last())
    }
}

/// How many waiting tasks may start: the free places under the limit, but no
/// more than there are waiting tasks.
pub open spec fn start_quota(s: Seq<TaskStatus>, max_tasks: int) -> int {
    let free = max_tasks - active_count(s);
    if free <= 0 {
        0
    } else if free < pending_positions(s).len() {
        free
    } else {
        pending_positions(s).len() as int
    }
}

proof fn lemma_counts_bounded(s: Seq<TaskStatus>)
    ensures
        0 <= active_count(s) <= s.len(),
        pending_positions(s).len() <= s.len(),
        forall|j: int| 0 <= j < pending_positions(s).len() ==> (#[trigger] pending_positions(s)[j]) < s.len(),
    decreases s.len(),
{
    if s.len() > 0 {
        lemma_counts_bounded(s.drop_last());
    }
}

/// The waiting tasks to start now, given the status of every task and the
/// running limit: the first waiting tasks, in order, as many as the free
/// places allow.
pub fn select_pending_starts(statuses: &Vec<TaskStatus>, max_tasks: usize) -> (r: Vec<usize>)
    ensures
        r@ == pending_positions(statuses@).take(start_quota(statuses@, max_tasks as int)),
{
    let ghost s = statuses@;
    let mut running: usize = 0;
    let mut pending: Vec<usize> = Vec::new();
    let mut i: usize = 0;
    while i < statuses.len()
        invariant
            s == statuses@,
            i <= s.len(),
            running == active_count(s.take(i as int)),
            pending@ == pending_positions(s.take(i as int)),
        decreases s.len() - i,
    {
        let ghost t = s.take(i + 1);
        assert(t.drop_last() =~= s.take(i as int));
        assert(t.last() == s[i as int]);
        proof {
            lemma_counts_bounded(s.take(i as int));
        }
        match &statuses[i] {
            TaskStatus::Running | TaskStatus::Resolving => {
                running = running + 1;
            },
            TaskStatus::Pending => {
                pending.push(i);
            },
            _ => {},
        }
        i = i + 1;
    }
    assert(s.take(s.len() as int) =~= s);
    proof {
        lemma_counts_bounded(s);
    }
    let quota: usize = if running >= max_tasks {
        0
    } else if max_tasks - running < pending.len() {
        max_tasks - running
    } else {
        pending.len()
    };
    assert(quota == start_quota(s, max_tasks as int));
    let mut started: Vec<usize> = Vec::new();
    let mut k: usize = 0;
    while k < quota
        invariant
            quota <= pending@.len(),
            k <= quota,
            started@ == pending@.take(k as int),
        decreases quota - k,
    {
        started.push(pending[k]);
        assert(started@ =~= pending@.take(k + 1));
        k = k + 1;
    }
    started
}

/// Law of the running limit: starting the selected tasks never lifts the
/// number of active tasks above the limit, when it was not above it already.
pub proof fn lemma_starts_respect_limit(s: Seq<TaskStatus>, max_tasks: int)
    requires
        active_count(s) <= max_tasks,
    ensures
        active_count(s) + start_quota(s, max_tasks) <= max_tasks,
        start_quota(s, max_tasks) <= pending_positions(s).len(),
{
    lemma_counts_bounded(s);
}

/// Position of the first task whose original address is `url`.
pub fn find_task_by_url(urls: &Vec<String>, url: &str) -> (r: Option<usize>)
    ensures
        match r {
            Some(i) => i < urls@.len() && urls@[i as int]@ == url@ && forall|j: int| 0 <= j < i ==> (#[trigger] urls@[j])@ != url@,
            None => forall|j: int| 0 <= j < urls@.len() ==> (#[trigger] urls@[j])@ != url@,
        },
{
    let target = url.to_owned();
    let mut i: usize = 0;
    while i < urls.len()
        invariant
            target@ == url@,
            i <= urls@.len(),
            forall|j: int| 0 <= j < i ==> (#[trigger] urls@[j])@ != url@,
        decreases urls@.len() - i,
    {
        if urls[i] == target {
            return Some(i);
        }
        i = i + 1;
    }
    None
}

/// The file name a download address suggests: the text after the last `/`,
/// cut at the first `?`.
pub open spec fn url_file_name(url: Seq<char>) -> Seq<char> {
    before_first(after_last(url, '/'), '?')
}

/// The name under which a task starts: a non-blank name chosen by the user,
/// else the name the address suggests, else `download`.
pub open spec fn initial_name(custom: Option<String>, url: Seq<char>) -> Seq<char> {
    match custom {
        Some(n) if !is_blank_text(n@) => n@,
        _ => if url_file_name(url).len() == 0 { "download"@ } else { url_file_name(url) },
    }
}

/// The name under which a resolved task is saved: a non-blank name chosen by
/// the user; else the name the original address suggests, unless that is
/// empty or `download`, in which case the name the final address suggests;
/// and `download` when that is empty too.
pub open spec fn resolved_name(custom: Option<String>, url: Seq<char>, final_url: Seq<char>) -> Seq<char> {
    match custom {
        Some(n) if !is_blank_text(n@) => n@,
        _ => {
            let first = url_file_name(url);
            let second = if first.len() == 0 || first == "download"@ { url_file_name(final_url) } else { first };
            if second.len() == 0 { "download"@ } else { second }
        },
    }
}

/// The name the address suggests.
pub fn file_name_from_url(url: &str) -> (r: Vec<char>)
    ensures
        r@ == url_file_name(url@),
{
    let v = chars_of(url);
    let tail = chars_after_last(&v, '/');
    chars_before_first(&tail, '?')
}

/// A non-blank name chosen by the user, if there is one.
pub fn chosen_name(custom: &Option<String>) -> (r: Option<String>)
    ensures
        match *custom {
            Some(n) if !is_blank_text(n@) => r == Some(n),
            _ => r is None,
        },
{
    match custom {
        Some(n) => {
            if is_blank(n.as_str()) {
                None
            } else {
                Some(n.clone())
            }
        },
        None => None,
    }
}

/// The name under which a new task starts.
pub fn initial_file_name(custom: &Option<String>, url: &str) -> (r: String)
    ensures
        r@ == initial_name(*custom, url@),
{
    match chosen_name(custom) {
        Some(n) => n,
        None => {
            let name = file_name_from_url(url);
            if name.len() == 0 {
                "download".to_owned()
            } else {
                string_from_chars(&name)
            }
        },
    }
}

/// The name under which a resolved task is saved.
pub fn resolved_file_name(custom: &Option<String>, url: &str, final_url: &str) -> (r: String)
    ensures
        r@ == resolved_name(*custom, url@, final_url@),
{
    match chosen_name(custom) {
        Some(n) => n,
        None => {
            let first = string_from_chars(&file_name_from_url(url));
            let fallback = "download".to_owned();
            let second = if first.as_str().is_empty() || first == fallback {
                string_from_chars(&file_name_from_url(final_url))
            } else {
                first
            };
            if second.as_str().is_empty() {
                fallback
            } else {
                second
            }
        },
    }
}

/// Before looking at the file on disk: progress starts over when the size is
/// new (no earlier size, or a different one).
pub fn reset_by_size(old_size: u64, new_size: u64) -> (b: bool)
    ensures
        b == (old_size == 0 || new_size != old_size),
{
    old_size == 0 || new_size != old_size
}

/// Progress also starts over when the file on disk is gone (`None`), empty,
/// or shorter than both the download and one kibibyte.
pub fn reset_by_file(new_size: u64, on_disk: Option<u64>) -> (b: bool)
    ensures
        b == match on_disk {
            None => true,
            Some(actual) => actual == 0 || (actual < new_size && actual < 1024),
        },
{
    match on_disk {
        None => true,
        Some(actual) => actual == 0 || (actual < new_size && actual < 1024),
    }
}

/// Pieces are 5 MiB when the server honours ranges, else the whole file.
pub fn piece_size_for(support_range: bool, file_size: u64) -> (p: u64)
    ensures
        p == if support_range { PIECE_SIZE } else { file_size },
{
    if support_range { PIECE_SIZE } else { file_size }
}

/// A resolution is usable when it reports a file of positive size.
pub fn accept_resolution(size: Option<u64>) -> (r: Result<u64, TaskError>)
    ensures
        r == match size {
            Some(s) if s > 0 => Ok::<u64, TaskError>(s),
            _ => Err::<u64, TaskError>(TaskError::ResolveFailed),
        },
{
    match size {
        Some(s) => if s > 0 { Ok(s) } else { Err(TaskError::ResolveFailed) },
        None => Err(TaskError::ResolveFailed),
    }
}

/// A resolution that ends the task instead of starting it: the status the
/// task is left in and the error reported.
pub struct ResolutionStop {
    pub status: TaskStatus,
    pub error: TaskError,
}

/// How resolving an address ends: cancelled while resolving, the task is
/// paused; else a usable size (positive) starts the download; anything else
/// leaves the task failed with `Failed to resolve URL or size is 0`.
pub fn settle_resolution(cancelled: bool, size: Option<u64>) -> (r: Result<u64, ResolutionStop>)
    ensures
        cancelled ==> (r matches Err(stop) && stop.status == TaskStatus::Paused && stop.error == TaskError::PausedWhileResolving),
        !cancelled && (size matches Some(n) && n > 0) ==> r == Ok::<u64, ResolutionStop>(size->0),
        !cancelled && !(size matches Some(n) && n > 0) ==> (r matches Err(stop) && stop.error == TaskError::ResolveFailed
            && (stop.status matches TaskStatus::Failed(m) && m@ == "Failed to resolve URL or size is 0"@)),
{
    if cancelled {
        return Err(ResolutionStop { status: TaskStatus::Paused, error: TaskError::PausedWhileResolving });
    }
    match accept_resolution(size) {
        Ok(n) => Ok(n),
        Err(e) => Err(ResolutionStop { status: TaskStatus::Failed("Failed to resolve URL or size is 0".to_owned()), error: e }),
    }
}

/// When the workers of a running task have all ended: complete if every chunk
/// is done, failed otherwise; a task no longer running is left as it is.
pub fn finish_status(status: &TaskStatus, chunks: &Vec<Chunk>) -> (r: Option<TaskStatus>)
    ensures
        !(status is Running) ==> r is None,
        status is Running && all_done_spec(chunks@) ==> r == Some(TaskStatus::Completed),
        status is Running && !all_done_spec(chunks@) ==> (r matches Some(TaskStatus::Failed(m)) && m@ == "All peers disconnected"@),
{
    match status {
        TaskStatus::Running => {
            if all_done(chunks) {
                Some(TaskStatus::Completed)
            } else {
                Some(TaskStatus::Failed("All peers disconnected".to_owned()))
            }
        },
        _ => None,
    }
}

/// What a progress query does when the file on disk is gone while the size is
/// known: a running, paused or waiting task fails and its transfers are
/// cancelled (`true`); a completed task fails; anything else is unchanged.
pub fn missing_file_status(status: &TaskStatus, file_present: bool, file_size: u64) -> (r: Option<(TaskStatus, bool)>)
    ensures
        (file_present || file_size == 0) ==> r is None,
        (!file_present && file_size > 0) ==> {
            if status is Running || status is Paused || status is Pending {
                r matches Some((TaskStatus::Failed(msg), true)) && msg@ == "Save file missing"@
            } else if status is Completed {
                r matches Some((TaskStatus::Failed(msg), false)) && msg@ == "Completed file missing"@
            } else {
                r is None
            }
        },
{
    if file_present || file_size == 0 {
        return None;
    }
    match status {
        TaskStatus::Running | TaskStatus::Paused | TaskStatus::Pending => Some(
            (TaskStatus::Failed("Save file missing".to_owned()), true),
        ),
        TaskStatus::Completed => Some((TaskStatus::Failed("Completed file missing".to_owned()), false)),
        _ => None,
    }
}

/// The status as shown to users.
pub open spec fn status_text(s: TaskStatus) -> Seq<char> {
    match s {
        TaskStatus::Pending => "Pending"@,
        TaskStatus::Resolving => "Resolving"@,
        TaskStatus::Running => "Running"@,
        TaskStatus::Paused => "Paused"@,
        TaskStatus::Completed => "Completed"@,
        TaskStatus::Failed(e) => "Failed: "@ + e@,
    }
}

/// The status as shown to users.
pub fn status_label(s: &TaskStatus) -> (r: String)
    ensures
        r@ == status_text(*s),
{
    match s {
        TaskStatus::Pending => "Pending".to_owned(),
        TaskStatus::Resolving => "Resolving".to_owned(),
        TaskStatus::Running => "Running".to_owned(),
        TaskStatus::Paused => "Paused".to_owned(),
        TaskStatus::Completed => "Completed".to_owned(),
        TaskStatus::Failed(e) => {
            let mut r = "Failed: ".to_owned();
            r.append(e.as_str());
            r
        },
    }
}

/// The name shown for a task: a non-blank name chosen by the user, else the
/// last component of the save path, else `unknown`.
pub fn display_file_name(custom: &Option<String>, path_name: &Option<String>) -> (r: String)
    ensures
        r@ == match *custom {
            Some(n) if !is_blank_text(n@) => n@,
            _ => match *path_name {
                Some(p) => p@,
                None => "unknown"@,
            },
        },
{
    match chosen_name(custom) {
        Some(n) => n,
        None => match path_name {
            Some(p) => p.clone(),
            None => "unknown".to_owned(),
        },
    }
}

/// A worker stops when its task is cancelled or no longer running, or after
/// too many failures in a row.
pub fn worker_should_stop(cancelled: bool, status: &TaskStatus, consecutive_failures: u32) -> (b: bool)
    ensures
        b == (cancelled || !(status is Running) || consecutive_failures >= MAX_CONSECUTIVE_FAILURES),
{
    cancelled || !matches!(status, TaskStatus::Running) || consecutive_failures >= MAX_CONSECUTIVE_FAILURES
}

} // verus!

verus! {

/// Where an attempt to resolve an address goes.
#[derive(Clone, Copy, Debug, PartialEq, Eq, Structural)]
pub enum ResolveSource {
    /// This node resolves it itself.
    Local,
    /// The peer at this position in the list of peers resolves it.
    Peer(usize),
    /// Every source failed.
    GiveUp,
}

/// Attempt number `attempt` (counting from zero) at resolving an address
/// when `peers` peers can be asked: this node first, then each peer in turn,
/// then giving up. The first attempt that succeeds ends the search.
pub fn resolve_source(attempt: usize, peers: usize) -> (r: ResolveSource)
    ensures
        attempt == 0 ==> r == ResolveSource::Local,
        0 < attempt <= peers ==> r == ResolveSource::Peer((attempt - 1) as usize),
        attempt > 0 && attempt > peers ==> r == ResolveSource::GiveUp,
{
    if attempt == 0 {
        ResolveSource::Local
    } else if attempt <= peers {
        ResolveSource::Peer(attempt - 1)
    } else {
        ResolveSource::GiveUp
    }
}

} // verus!

verus! {

/// Law of resuming: only a paused or failed task can be resumed, and then it
/// waits to be started again; a completed, running, waiting or resolving task
/// is refused as not resumable.
pub proof fn lemma_only_stopped_tasks_resume(s: TaskStatus)
    ensures
        resume_result(s) is Ok <==> (s is Paused || s is Failed),
        resume_result(s) is Ok ==> resume_result(s) == Ok::<TaskStatus, TaskError>(TaskStatus::Pending),
        !(s is Paused || s is Failed) ==> resume_result(s) == Err::<TaskStatus, TaskError>(TaskError::NotResumable),
        s is Completed ==> resume_result(s) is Err,
{
}

} // verus!
