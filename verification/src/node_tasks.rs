use vstd::prelude::*;
use crate::text::{decimal, decimal_string};

verus! {

broadcast use vstd::string::group_string_axioms;

/// A download another node handed to this one, with the chunks assigned so
/// far as (index, start, end).
#[derive(Debug)]
pub struct PeerTask {
    pub task_id: String,
    pub url: String,
    pub final_url: String,
    pub file_size: u64,
    pub support_range: bool,
    pub chunks: Vec<(u32, u64, u64)>,
    pub downloaded: u64,
}

/// The tasks handed to this node, each task id at most once.
pub struct PeerTaskTable {
    tasks: Vec<PeerTask>,
}

/// The plain contents of a handed-over task.
pub struct PeerTaskView {
    pub task_id: Seq<char>,
    pub url: Seq<char>,
    pub final_url: Seq<char>,
    pub file_size: u64,
    pub support_range: bool,
    pub chunks: Seq<(u32, u64, u64)>,
    pub downloaded: u64,
}

impl View for PeerTask {
    type V = PeerTaskView;

    open spec fn view(&self) -> PeerTaskView {
        PeerTaskView {
            task_id: self.task_id@,
            url: self.url@,
            final_url: self.final_url@,
            file_size: self.file_size,
            support_range: self.support_range,
            chunks: self.chunks@,
            downloaded: self.downloaded,
        }
    }
}

impl View for PeerTaskTable {
    type V = Seq<PeerTaskView>;

    closed spec fn view(&self) -> Seq<PeerTaskView> {
        self.tasks@.map_values(|t: PeerTask| t@)
    }
}

/// Position of the task with id `id`.
pub open spec fn task_position(s: Seq<PeerTaskView>, id: Seq<char>) -> Option<int> {
    if exists|i: int| 0 <= i < s.len() && (#[trigger] s[i]).task_id == id {
        Some(choose|i: int| 0 <= i < s.len() && (#[trigger] s[i]).task_id == id)
    } else {
        None
    }
}

/// No task id occurs twice.
pub open spec fn task_ids_unique(s: Seq<PeerTaskView>) -> bool {
    forall|i: int, j: int| 0 <= i < s.len() && 0 <= j < s.len() && i != j ==> (#[trigger] s[i]).task_id != (#[trigger] s[j]).task_id
}

/// How a handed-over task stands: `NotFound`, `Pending` before any chunk is
/// assigned, `Completed` once the downloaded count reaches the size, else
/// `Downloading`.
pub open spec fn node_task_status(t: Option<PeerTaskView>) -> Seq<char> {
    match t {
        None => "NotFound"@,
        Some(v) => if v.chunks.len() == 0 {
            "Pending"@
        } else if v.downloaded >= v.file_size {
            "Completed"@
        } else {
            "Downloading"@
        },
    }
}

impl PeerTaskTable {
    /// The table is well formed: no task id occurs twice.
    pub open spec fn wf(&self) -> bool {
        task_ids_unique(self@)
    }

    /// An empty table.
    pub fn new() -> (t: Self)
        ensures
            t@.len() == 0,
            t.wf(),
    {
        let t = PeerTaskTable { tasks: Vec::new() };
        assert(t@ =~= Seq::<PeerTaskView>::empty());
        t
    }

    fn find(&self, task_id: &String) -> (r: Option<usize>)
        requires
            self.wf(),
        ensures
            match r {
                Some(i) => task_position(self@, task_id@) == Some(i as int),
                None => task_position(self@, task_id@) is None,
            },
    {
        let mut i: usize = 0;
        while i < self.tasks.len()
            invariant
                i <= self.tasks@.len(),
                self@.len() == self.tasks@.len(),
                task_ids_unique(self@),
                forall|j: int| 0 <= j < i ==> (#[trigger] self@[j]).task_id != task_id@,
            decreases self.tasks@.len() - i,
        {
            assert(self@[i as int] == self.tasks@[i as int]@);
            if self.tasks[i].task_id == *task_id {
                proof {
                    let k = choose|k: int| 0 <= k < self@.len() && (#[trigger] self@[k]).task_id == task_id@;
                    assert(k == i) by {
                        if k != i {
                            assert(self@[k].task_id != self@[i as int].task_id);
                        }
                    }
                }
                return Some(i);
            }
            i = i + 1;
        }
        None
    }

    /// Accepts a task handed over by another node, unless its id is already
    /// known; says whether it was accepted.
    pub fn dispatch(&mut self, task_id: String, url: String, final_url: String, file_size: u64, support_range: bool) -> (accepted: bool)
        requires
            old(self).wf(),
        ensures
            final(self).wf(),
            accepted == task_position(old(self)@, task_id@) is None,
            accepted ==> final(self)@ == old(self)@.push(
                PeerTaskView {
                    task_id: task_id@,
                    url: url@,
                    final_url: final_url@,
                    file_size: file_size,
                    support_range: support_range,
                    chunks: Seq::empty(),
                    downloaded: 0,
                },
            ),
            !accepted ==> final(self)@ == old(self)@,
    {
        if self.find(&task_id).is_some() {
            return false;
        }
        let ghost s = self@;
        let t = PeerTask { task_id, url, final_url, file_size, support_range, chunks: Vec::new(), downloaded: 0 };
        self.tasks.push(t);
        proof {
            assert(self@ =~= s.push(t@));
            assert forall|i: int, j: int| 0 <= i < self@.len() && 0 <= j < self@.len() && i != j implies (#[trigger] self@[i]).task_id
                != (#[trigger] self@[j]).task_id by {
                if i < s.len() && j < s.len() {
                    assert(self@[i] == s[i] && self@[j] == s[j]);
                } else if i < s.len() {
                    assert(self@[i] == s[i]);
                } else {
                    assert(self@[j] == s[j]);
                }
            }
        }
        true
    }

    /// Adds chunk assignments to a known task; says whether it was known.
    pub fn assign(&mut self, task_id: &String, chunks: &Vec<(u32, u64, u64)>) -> (found: bool)
        requires
            old(self).wf(),
        ensures
            final(self).wf(),
            found == task_position(old(self)@, task_id@) is Some,
            found ==> {
                let i = task_position(old(self)@, task_id@)->0;
                final(self)@ == old(self)@.update(i, PeerTaskView { chunks: old(self)@[i].chunks + chunks@, ..old(self)@[i] })
            },
            !found ==> final(self)@ == old(self)@,
    {
        let ghost s = self@;
        match self.find(task_id) {
            None => false,
            Some(i) => {
                assert(s[i as int] == self.tasks@[i as int]@);
                let mut k: usize = 0;
                while k < chunks.len()
                    invariant
                        i < self.tasks@.len(),
                        self.tasks@.len() == s.len(),
                        k <= chunks@.len(),
                        forall|x: int| 0 <= x < s.len() && x != i ==> #[trigger] self.tasks@[x]@ == s[x],
                        self.tasks@[i as int]@ == (PeerTaskView { chunks: s[i as int].chunks + chunks@.take(k as int), ..s[i as int] }),
                    decreases chunks@.len() - k,
                {
                    self.tasks[i].chunks.push(chunks[k]);
                    assert(s[i as int].chunks + chunks@.take(k + 1) =~= (s[i as int].chunks + chunks@.take(k as int)).push(chunks@[k as int]));
                    k = k + 1;
                }
                proof {
                    assert(chunks@.take(chunks@.len() as int) =~= chunks@);
                    let target = s.update(i as int, PeerTaskView { chunks: s[i as int].chunks + chunks@, ..s[i as int] });
                    assert(self@ =~= target);
                    assert forall|a: int, b: int| 0 <= a < self@.len() && 0 <= b < self@.len() && a != b implies (#[trigger] self@[a]).task_id
                        != (#[trigger] self@[b]).task_id by {
                        assert(self@[a].task_id == s[a].task_id);
                        assert(self@[b].task_id == s[b].task_id);
                    }
                }
                true
            },
        }
    }

    /// How the task stands, with its downloaded count and size (zeros for an
    /// unknown task).
    pub fn status(&self, task_id: &String) -> (r: (String, u64, u64))
        requires
            self.wf(),
        ensures
            ({
                let t = match task_position(self@, task_id@) {
                    Some(i) => Some(self@[i]),
                    None => None,
                };
                &&& r.0@ == node_task_status(t)
                &&& r.1 == match t { Some(v) => v.downloaded, None => 0 }
                &&& r.2 == match t { Some(v) => v.file_size, None => 0 }
            }),
    {
        match self.find(task_id) {
            None => ("NotFound".to_owned(), 0, 0),
            Some(i) => {
                let t = &self.tasks[i];
                assert(self@[i as int] == t@);
                let label = if t.chunks.len() == 0 {
                    "Pending".to_owned()
                } else if t.downloaded >= t.file_size {
                    "Completed".to_owned()
                } else {
                    "Downloading".to_owned()
                };
                (label, t.downloaded, t.file_size)
            },
        }
    }
}

/// The reply to a handed-over task.
pub open spec fn dispatch_message_text(task_id: Seq<char>, accepted: bool) -> Seq<char> {
    if accepted {
        "Task "@ + task_id + " dispatched successfully"@
    } else {
        "Task "@ + task_id + " already exists"@
    }
}

/// The reply to a handed-over task.
pub fn dispatch_message(task_id: &String, accepted: bool) -> (m: String)
    ensures
        m@ == dispatch_message_text(task_id@, accepted),
{
    let mut m = "Task ".to_owned();
    m.append(task_id.as_str());
    if accepted {
        m.append(" dispatched successfully");
    } else {
        m.append(" already exists");
    }
    m
}

/// The reply to a chunk assignment.
pub open spec fn assign_message_text(task_id: Seq<char>, count: nat, found: bool) -> Seq<char> {
    if found {
        "Assigned "@ + decimal(count) + " chunks to task "@ + task_id
    } else {
        "Task "@ + task_id + " not found"@
    }
}

/// The reply to a chunk assignment.
pub fn assign_message(task_id: &String, count: usize, found: bool) -> (m: String)
    ensures
        m@ == assign_message_text(task_id@, count as nat, found),
{
    if found {
        let mut m = "Assigned ".to_owned();
        m.append(decimal_string(count as u64).as_str());
        m.append(" chunks to task ");
        m.append(task_id.as_str());
        m
    } else {
        let mut m = "Task ".to_owned();
        m.append(task_id.as_str());
        m.append(" not found");
        m
    }
}

} // verus!

verus! {

/// Law of handing a task over: once a task with a new id is accepted, a
/// status query for that id finds it, waiting for its first chunks, with
/// nothing downloaded and the size it was handed over with.
pub proof fn lemma_dispatched_task_is_pending(s: Seq<PeerTaskView>, t: PeerTaskView)
    requires
        task_ids_unique(s),
        task_position(s, t.task_id) is None,
        t.chunks.len() == 0,
        t.downloaded == 0,
    ensures
        task_position(s.push(t), t.task_id) == Some(s.len() as int),
        node_task_status(Some(s.push(t)[s.len() as int])) == "Pending"@,
        s.push(t)[s.len() as int].file_size == t.file_size,
{
    let u = s.push(t);
    assert(u[s.len() as int] == t);
    assert forall|i: int| 0 <= i < u.len() && (#[trigger] u[i]).task_id == t.task_id implies i == s.len() by {
        if i < s.len() {
            assert(u[i] == s[i]);
        }
    }
}

} // verus!
