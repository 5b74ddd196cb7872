use vstd::prelude::*;
use crate::clock::{now_millis, millis_between};

verus! {

/// Size of one piece of a download that supports ranged requests.
pub const PIECE_SIZE: u64 = 5 * 1024 * 1024;

/// A chunk in progress for longer than this is handed out again.
pub const TAIL_LATENCY_TIMEOUT_MS: u64 = 15000;

/// A chunk claimed more often than this is released and its count reset.
pub const MAX_RETRIES: u32 = 5;

/// Where a chunk stands; a chunk in progress carries the millisecond at
/// which it was last handed out.
#[derive(Clone, Copy, Debug, PartialEq, Eq, Structural)]
pub enum ChunkStatus {
    Idle,
    InProgress(u64),
    Done,
}

/// One byte range `start..=end` of a download.
#[derive(Clone, Copy, Debug, PartialEq, Eq, Structural)]
pub struct Chunk {
    pub index: usize,
    pub start: u64,
    pub end: u64,
    pub status: ChunkStatus,
    pub retries: u32,
}

/// The chunk as it is after being handed out at `now`.
pub open spec fn claimed(c: Chunk, now: u64) -> Chunk {
    Chunk { status: ChunkStatus::InProgress(now), retries: (c.retries + 1) as u32, ..c }
}

/// `i` is the first idle chunk.
pub open spec fn is_first_idle(s: Seq<Chunk>, i: int) -> bool {
    &&& 0 <= i < s.len()
    &&& s[i].status is Idle
    &&& forall|j: int| 0 <= j < i ==> !(#[trigger] s[j].status is Idle)
}

/// Some chunk is idle.
pub open spec fn has_idle(s: Seq<Chunk>) -> bool {
    exists|i: int| 0 <= i < s.len() && #[trigger] s[i].status is Idle
}

/// `i` is the chunk that has been in progress the longest (the first such
/// one on a tie), counting only those handed out before `now`.
pub open spec fn is_oldest_in_progress(s: Seq<Chunk>, i: int, now: u64) -> bool {
    &&& 0 <= i < s.len()
    &&& s[i].status is InProgress
    &&& s[i].status->0 < now
    &&& forall|j: int| 0 <= j < i && (#[trigger] s[j].status) is InProgress ==> s[j].status->0 > s[i].status->0
    &&& forall|j: int| i < j < s.len() && (#[trigger] s[j].status) is InProgress ==> s[j].status->0 >= s[i].status->0
}

/// A chunk handed out at `start` has been in progress too long at `now`.
pub open spec fn overdue(start: u64, now: u64) -> bool {
    millis_between(start, now) > TAIL_LATENCY_TIMEOUT_MS
}

/// Every chunk can take one more claim without its retry count overflowing.
pub open spec fn retries_below_max(s: Seq<Chunk>) -> bool {
    forall|i: int| 0 <= i < s.len() ==> (#[trigger] s[i]).retries < u32::MAX
}

/// Hands out the next chunk to download at the current time of the system
/// clock; see `next_chunk_at`, which takes the time from the caller (for
/// instance a monotonic reading).
pub fn get_next_chunk(chunks: &mut Vec<Chunk>) -> (r: Option<Chunk>)
    requires
        retries_below_max(old(chunks)@),
    ensures
        exists|now: u64| #[trigger] next_chunk_result(old(chunks)@, now, r, final(chunks)@),
{
    let now = now_millis();
    next_chunk_at(chunks, now)
}

/// What `next_chunk_at` does at `now`: the first idle chunk is claimed;
/// without an idle chunk, the longest-running chunk is claimed again when it
/// is overdue; otherwise nothing changes.
pub open spec fn next_chunk_result(old: Seq<Chunk>, now: u64, r: Option<Chunk>, new: Seq<Chunk>) -> bool {
    &&& forall|i: int| #[trigger] is_first_idle(old, i) ==> {
        &&& r == Some(claimed(old[i], now))
        &&& new == old.update(i, claimed(old[i], now))
    }
    &&& !has_idle(old) ==> {
        &&& forall|i: int| #[trigger] is_oldest_in_progress(old, i, now) ==> {
            if overdue(old[i].status->0, now) {
                &&& r == Some(claimed(old[i], now))
                &&& new == old.update(i, claimed(old[i], now))
            } else {
                &&& r is None
                &&& new == old
            }
        }
        &&& (forall|i: int| !#[trigger] is_oldest_in_progress(old, i, now)) ==> {
            &&& r is None
            &&& new == old
        }
    }
}

proof fn lemma_first_idle_unique(s: Seq<Chunk>, i: int, k: int)
    requires
        is_first_idle(s, i),
        is_first_idle(s, k),
    ensures
        i == k,
{
    if i < k {
        assert(!(s[i].status is Idle));
    } else if k < i {
        assert(!(s[k].status is Idle));
    }
}

proof fn lemma_oldest_unique(s: Seq<Chunk>, i: int, k: int, now: u64)
    requires
        is_oldest_in_progress(s, i, now),
        is_oldest_in_progress(s, k, now),
    ensures
        i == k,
{
    if i < k {
        assert(s[k].status is InProgress);
        assert(s[i].status is InProgress);
    } else if k < i {
        assert(s[k].status is InProgress);
        assert(s[i].status is InProgress);
    }
}

/// Hands out the next chunk at time `now`. The first idle chunk is marked in
/// progress and its retry count raised; with no idle chunk, the chunk that has
/// been in progress the longest is handed out again once it is overdue.
pub fn next_chunk_at(chunks: &mut Vec<Chunk>, now: u64) -> (r: Option<Chunk>)
    requires
        retries_below_max(old(chunks)@),
    ensures
        next_chunk_result(old(chunks)@, now, r, final(chunks)@),
{
    let ghost s = chunks@;
    let n = chunks.len();
    let mut target: Option<usize> = None;
    let mut oldest: u64 = now;
    let mut i: usize = 0;
    while i < n
        invariant
            chunks@ == s,
            s == old(chunks)@,
            n == s.len(),
            retries_below_max(s),
            i <= n,
            forall|j: int| 0 <= j < i ==> !(#[trigger] s[j].status is Idle),
            target is None ==> oldest == now,
            target is None ==> forall|j: int| 0 <= j < i && (#[trigger] s[j].status) is InProgress ==> s[j].status->0 >= now,
            target is Some ==> {
                let k = target->0 as int;
                &&& 0 <= k < i
                &&& s[k].status == ChunkStatus::InProgress(oldest)
                &&& oldest < now
                &&& forall|j: int| 0 <= j < k && (#[trigger] s[j].status) is InProgress ==> s[j].status->0 > oldest
                &&& forall|j: int| k < j < i && (#[trigger] s[j].status) is InProgress ==> s[j].status->0 >= oldest
            },
        decreases n - i,
    {
        let c = chunks[i];
        match c.status {
            ChunkStatus::Idle => {
                let nc = Chunk { status: ChunkStatus::InProgress(now), retries: c.retries + 1, ..c };
                chunks.set(i, nc);
                proof {
                    assert(c == s[i as int]);
                    assert(nc == claimed(s[i as int], now));
                    assert(chunks@ == s.update(i as int, claimed(s[i as int], now)));
                    assert(is_first_idle(s, i as int));
                    assert forall|k: int| #[trigger] is_first_idle(s, k) implies k == i by {
                        lemma_first_idle_unique(s, i as int, k);
                    }
                    assert(has_idle(s));
                }
                return Some(nc);
            },
            ChunkStatus::InProgress(t) => {
                if t < oldest {
                    oldest = t;
                    target = Some(i);
                }
            },
            ChunkStatus::Done => {},
        }
        i = i + 1;
    }
    proof {
        assert forall|j: int| !(0 <= j < s.len() && #[trigger] s[j].status is Idle) by {}
        assert(!has_idle(s));
        assert forall|k: int| #[trigger] is_first_idle(s, k) implies false by {}
    }
    match target {
        Some(idx) => {
            proof {
                assert(is_oldest_in_progress(s, idx as int, now));
                assert forall|k: int| #[trigger] is_oldest_in_progress(s, k, now) implies k == idx by {
                    lemma_oldest_unique(s, idx as int, k, now);
                }
            }
            if now - oldest > TAIL_LATENCY_TIMEOUT_MS {
                let c = chunks[idx];
                let nc = Chunk { status: ChunkStatus::InProgress(now), retries: c.retries + 1, ..c };
                chunks.set(idx, nc);
                return Some(nc);
            }
            None
        },
        None => {
            proof {
                assert forall|k: int| !#[trigger] is_oldest_in_progress(s, k, now) by {
                    if is_oldest_in_progress(s, k, now) {
                        assert(s[k].status is InProgress);
                    }
                }
            }
            None
        },
    }
}

/// Once every chunk is done, nothing is handed out and nothing changes.
pub proof fn lemma_finished_download_hands_out_nothing(s: Seq<Chunk>, now: u64, r: Option<Chunk>, new: Seq<Chunk>)
    requires
        all_done_spec(s),
        next_chunk_result(s, now, r, new),
    ensures
        r is None,
        new == s,
{
    assert(!has_idle(s)) by {
        assert forall|i: int| !(0 <= i < s.len() && #[trigger] s[i].status is Idle) by {
            if 0 <= i < s.len() {
                assert(s[i].status is Done);
            }
        }
    }
    assert forall|i: int| !#[trigger] is_oldest_in_progress(s, i, now) by {
        if 0 <= i < s.len() {
            assert(s[i].status is Done);
        }
    }
}

/// Every chunk is done.
pub open spec fn all_done_spec(s: Seq<Chunk>) -> bool {
    forall|i: int| 0 <= i < s.len() ==> (#[trigger] s[i]).status is Done
}

/// Whether every chunk is done.
pub fn all_done(chunks: &Vec<Chunk>) -> (b: bool)
    ensures
        b == all_done_spec(chunks@),
{
    let mut i: usize = 0;
    while i < chunks.len()
        invariant
            i <= chunks@.len(),
            forall|j: int| 0 <= j < i ==> (#[trigger] chunks@[j]).status is Done,
        decreases chunks@.len() - i,
    {
        match chunks[i].status {
            ChunkStatus::Done => {},
            _ => {
                return false;
            },
        }
        i = i + 1;
    }
    true
}

/// Number of bytes a chunk covers.
pub open spec fn chunk_len(c: Chunk) -> int {
    c.end - c.start + 1
}

/// Bytes covered by the done chunks.
pub open spec fn done_bytes(s: Seq<Chunk>) -> int
    decreases s.len(),
{
    if s.len() == 0 {
        0
    } else if s.last().status is Done {
        done_bytes(s.drop_last()) + chunk_len(s.last())
    } else {
        done_bytes(s.drop_last())
    }
}

/// Each done chunk is a proper range whose length fits in a `u64`.
pub open spec fn done_ranges_valid(s: Seq<Chunk>) -> bool {
    forall|i: int|
        0 <= i < s.len() && (#[trigger] s[i]).status is Done ==> s[i].start <= s[i].end && s[i].end
            - s[i].start < u64::MAX
}

proof fn lemma_done_bytes_monotone(s: Seq<Chunk>, k: int)
    requires
        done_ranges_valid(s),
        0 <= k <= s.len(),
    ensures
        0 <= done_bytes(s.take(k)) <= done_bytes(s),
    decreases s.len() - k,
{
    if k < s.len() {
        lemma_done_bytes_monotone(s, k + 1);
        let t = s.take(k + 1);
        assert(t.drop_last() =~= s.take(k));
        assert(t.last() == s[k]);
        assert(done_ranges_valid(s.take(k))) by {
            assert forall|i: int| 0 <= i < s.take(k).len() && (#[trigger] s.take(k)[i]).status is Done
                implies s.take(k)[i].start <= s.take(k)[i].end && s.take(k)[i].end - s.take(k)[i].start < u64::MAX by {
                assert(s.take(k)[i] == s[i]);
            }
        }
        lemma_done_bytes_nonneg(s.take(k));
    } else {
        assert(s.take(k) =~= s);
        lemma_done_bytes_nonneg(s);
    }
}

proof fn lemma_done_bytes_nonneg(s: Seq<Chunk>)
    requires
        done_ranges_valid(s),
    ensures
        done_bytes(s) >= 0,
    decreases s.len(),
{
    if s.len() > 0 {
        assert(done_ranges_valid(s.drop_last())) by {
            assert forall|i: int| 0 <= i < s.drop_last().len() && (#[trigger] s.drop_last()[i]).status is Done
                implies s.drop_last()[i].start <= s.drop_last()[i].end && s.drop_last()[i].end - s.drop_last()[i].start < u64::MAX by {
                assert(s.drop_last()[i] == s[i]);
            }
        }
        lemma_done_bytes_nonneg(s.drop_last());
        assert(s.last() == s[s.len() - 1]);
    }
}

/// Bytes already downloaded: the sum of the lengths of the done chunks, or
/// nothing when a done chunk's range is malformed or the sum does not fit in
/// a `u64` (cases in which the sum cannot be formed).
pub fn downloaded_bytes(chunks: &Vec<Chunk>) -> (r: Option<u64>)
    ensures
        r is Some <==> done_ranges_valid(chunks@) && done_bytes(chunks@) <= u64::MAX,
        r is Some ==> r->0 == done_bytes(chunks@),
{
    let ghost s = chunks@;
    let mut total: u64 = 0;
    let mut i: usize = 0;
    while i < chunks.len()
        invariant
            s == chunks@,
            i <= s.len(),
            done_ranges_valid(s.take(i as int)),
            total == done_bytes(s.take(i as int)),
        decreases s.len() - i,
    {
        let c = chunks[i];
        let ghost t = s.take(i + 1);
        assert(t.drop_last() =~= s.take(i as int));
        assert(t.last() == c);
        match c.status {
            ChunkStatus::Done => {
                if c.end < c.start || c.end - c.start == u64::MAX {
                    assert(!done_ranges_valid(s)) by {
                        assert(s[i as int] == c);
                    }
                    return None;
                }
                let len = c.end - c.start + 1;
                if total > u64::MAX - len {
                    proof {
                        assert(done_bytes(t) > u64::MAX);
                        if done_ranges_valid(s) {
                            lemma_done_bytes_monotone(s, i + 1);
                        }
                    }
                    return None;
                }
                total = total + len;
            },
            _ => {},
        }
        assert(done_ranges_valid(t)) by {
            assert forall|j: int| 0 <= j < t.len() && (#[trigger] t[j]).status is Done
                implies t[j].start <= t[j].end && t[j].end - t[j].start < u64::MAX by {
                if j < i {
                    assert(t[j] == s.take(i as int)[j]);
                }
            }
        }
        i = i + 1;
    }
    assert(s.take(s.len() as int) =~= s);
    Some(total)
}

/// The chunk with the status it gets when its transfer is abandoned: a chunk
/// in progress becomes idle, any other is unchanged.
pub open spec fn released(c: Chunk) -> Chunk {
    if c.status is InProgress { Chunk { status: ChunkStatus::Idle, ..c } } else { c }
}

/// The chunk as it is after a restart: a chunk in progress becomes idle with
/// its retry count cleared, any other is unchanged.
pub open spec fn restarted(c: Chunk) -> Chunk {
    if c.status is InProgress { Chunk { status: ChunkStatus::Idle, retries: 0, ..c } } else { c }
}

/// Makes every chunk in progress idle again (pausing a task).
pub fn release_in_progress(chunks: &mut Vec<Chunk>)
    ensures
        final(chunks)@.len() == old(chunks)@.len(),
        forall|i: int| 0 <= i < old(chunks)@.len() ==> #[trigger] final(chunks)@[i] == released(old(chunks)@[i]),
{
    let ghost s = chunks@;
    let mut i: usize = 0;
    while i < chunks.len()
        invariant
            chunks@.len() == s.len(),
            i <= s.len(),
            forall|j: int| 0 <= j < i ==> #[trigger] chunks@[j] == released(s[j]),
            forall|j: int| i <= j < s.len() ==> #[trigger] chunks@[j] == s[j],
        decreases s.len() - i,
    {
        let c = chunks[i];
        match c.status {
            ChunkStatus::InProgress(_) => {
                chunks.set(i, Chunk { status: ChunkStatus::Idle, ..c });
            },
            _ => {},
        }
        i = i + 1;
    }
}

/// Makes every chunk in progress idle again and clears its retry count
/// (restarting a task on its existing file).
pub fn restart_in_progress(chunks: &mut Vec<Chunk>)
    ensures
        final(chunks)@.len() == old(chunks)@.len(),
        forall|i: int| 0 <= i < old(chunks)@.len() ==> #[trigger] final(chunks)@[i] == restarted(old(chunks)@[i]),
{
    let ghost s = chunks@;
    let mut i: usize = 0;
    while i < chunks.len()
        invariant
            chunks@.len() == s.len(),
            i <= s.len(),
            forall|j: int| 0 <= j < i ==> #[trigger] chunks@[j] == restarted(s[j]),
            forall|j: int| i <= j < s.len() ==> #[trigger] chunks@[j] == s[j],
        decreases s.len() - i,
    {
        let c = chunks[i];
        match c.status {
            ChunkStatus::InProgress(_) => {
                chunks.set(i, Chunk { status: ChunkStatus::Idle, retries: 0, ..c });
            },
            _ => {},
        }
        i = i + 1;
    }
}

} // verus!

verus! {

/// How many pieces of `piece` bytes cover `file_size` bytes.
pub open spec fn chunk_count(file_size: int, piece: int) -> int {
    (file_size + piece - 1) / piece
}

/// The smaller of two integers.
pub open spec fn min_int(a: int, b: int) -> int {
    if a <= b { a } else { b }
}

/// The `i`-th piece of a file of `file_size` bytes cut into pieces of
/// `piece` bytes: idle, never tried, and ending at the end of the file at the
/// latest.
pub open spec fn planned_chunk(i: int, file_size: u64, piece: u64) -> Chunk {
    Chunk {
        index: i as usize,
        start: (i * piece) as u64,
        end: min_int((i + 1) * piece - 1, file_size - 1) as u64,
        status: ChunkStatus::Idle,
        retries: 0,
    }
}

proof fn lemma_below_count(i: int, f: int, p: int)
    requires
        p > 0,
        f >= 0,
        i >= 0,
    ensures
        (i * p < f) <==> (i < chunk_count(f, p)),
        i * p >= 0,
{
    assert(i * p >= 0) by (nonlinear_arith)
        requires i >= 0, p > 0;
    if i * p < f {
        assert(i < (f + p - 1) / p) by (nonlinear_arith)
            requires i * p < f, p > 0, i >= 0;
    } else {
        assert(i >= (f + p - 1) / p) by (nonlinear_arith)
            requires i * p >= f, p > 0, i >= 0;
    }
}

/// Cuts a file of `file_size` bytes into consecutive pieces of `piece_size`
/// bytes, the last one possibly shorter, all idle.
pub fn plan_chunks(file_size: u64, piece_size: u64) -> (r: Vec<Chunk>)
    requires
        piece_size > 0,
        chunk_count(file_size as int, piece_size as int) <= usize::MAX,
    ensures
        r@.len() == chunk_count(file_size as int, piece_size as int),
        forall|i: int| 0 <= i < r@.len() ==> #[trigger] r@[i] == planned_chunk(i, file_size, piece_size),
{
    let mut chunks: Vec<Chunk> = Vec::new();
    let mut current: u64 = 0;
    let mut index: usize = 0;
    let ghost count = chunk_count(file_size as int, piece_size as int);
    proof {
        lemma_below_count(0, file_size as int, piece_size as int);
    }
    while current < file_size
        invariant
            piece_size > 0,
            count == chunk_count(file_size as int, piece_size as int),
            count <= usize::MAX,
            index <= count,
            index < count ==> current == index * piece_size,
            index == count ==> current == file_size,
            (current < file_size) <==> (index < count),
            chunks@.len() == index,
            forall|i: int| 0 <= i < index ==> #[trigger] chunks@[i] == planned_chunk(i, file_size, piece_size),
        decreases count - index,
    {
        let last = file_size - current <= piece_size;
        let end = if last { file_size - 1 } else { current + piece_size - 1 };
        proof {
            assert((index + 1) * piece_size == index * piece_size + piece_size) by (nonlinear_arith);
            lemma_below_count(index + 1, file_size as int, piece_size as int);
        }
        let c = Chunk { index, start: current, end, status: ChunkStatus::Idle, retries: 0 };
        assert(c == planned_chunk(index as int, file_size, piece_size));
        chunks.push(c);
        current = if last { file_size } else { current + piece_size };
        index = index + 1;
    }
    chunks
}

/// Bytes covered by the first `k` planned pieces.
pub open spec fn planned_bytes(file_size: u64, piece: u64, k: int) -> int
    decreases k,
{
    if k <= 0 { 0 } else { planned_bytes(file_size, piece, k - 1) + chunk_len(planned_chunk(k - 1, file_size, piece)) }
}

proof fn lemma_planned_prefix(file_size: u64, piece: u64, k: int)
    requires
        piece > 0,
        0 <= k <= chunk_count(file_size as int, piece as int),
    ensures
        planned_bytes(file_size, piece, k) == min_int(k * piece, file_size as int),
    decreases k,
{
    if k > 0 {
        lemma_planned_prefix(file_size, piece, k - 1);
        lemma_below_count(k - 1, file_size as int, piece as int);
        assert(k * piece == (k - 1) * piece + piece) by (nonlinear_arith);
        assert((k - 1) * piece >= 0) by (nonlinear_arith)
            requires k >= 1, piece > 0;
    }
}

/// Laws of the piece plan for a non-empty file: the pieces start at byte
/// zero, each begins right after the one before, each is a proper range, the
/// last ends at the last byte, and together they cover exactly the file.
pub proof fn lemma_plan_tiles_file(file_size: u64, piece: u64)
    requires
        piece > 0,
        file_size > 0,
    ensures
        chunk_count(file_size as int, piece as int) >= 1,
        planned_chunk(0, file_size, piece).start == 0,
        forall|i: int|
            0 <= i < chunk_count(file_size as int, piece as int) - 1 ==> (#[trigger] planned_chunk(i + 1, file_size, piece)).start
                == planned_chunk(i, file_size, piece).end + 1,
        forall|i: int|
            0 <= i < chunk_count(file_size as int, piece as int) ==> (#[trigger] planned_chunk(i, file_size, piece)).start
                <= planned_chunk(i, file_size, piece).end,
        planned_chunk(chunk_count(file_size as int, piece as int) - 1, file_size, piece).end == file_size - 1,
        planned_bytes(file_size, piece, chunk_count(file_size as int, piece as int)) == file_size,
{
    let f = file_size as int;
    let p = piece as int;
    let n = chunk_count(f, p);
    lemma_below_count(0, f, p);
    lemma_below_count(n, f, p);
    lemma_below_count(n - 1, f, p);
    assert forall|i: int| 0 <= i < n - 1 implies (#[trigger] planned_chunk(i + 1, file_size, piece)).start
        == planned_chunk(i, file_size, piece).end + 1 by {
        lemma_below_count(i + 1, f, p);
        assert((i + 1) * p == i * p + p) by (nonlinear_arith);
        assert(i * p >= 0) by (nonlinear_arith) requires i >= 0, p > 0;
    }
    assert forall|i: int| 0 <= i < n implies (#[trigger] planned_chunk(i, file_size, piece)).start
        <= planned_chunk(i, file_size, piece).end by {
        lemma_below_count(i, f, p);
        assert((i + 1) * p == i * p + p) by (nonlinear_arith);
    }
    assert(n * p == (n - 1) * p + p) by (nonlinear_arith);
    lemma_planned_prefix(file_size, piece, n);
}

/// Law of progress accounting: when every piece of a plan is done, the
/// downloaded byte count is the file size.
pub proof fn lemma_finished_plan_counts_whole_file(file_size: u64, piece: u64, s: Seq<Chunk>)
    requires
        piece > 0,
        s.len() == chunk_count(file_size as int, piece as int),
        forall|i: int|
            0 <= i < s.len() ==> (#[trigger] s[i]).start == planned_chunk(i, file_size, piece).start && s[i].end
                == planned_chunk(i, file_size, piece).end && s[i].status is Done,
    ensures
        done_bytes(s) == file_size,
{
    lemma_done_prefix(file_size, piece, s, s.len() as int);
    assert(s.take(s.len() as int) =~= s);
    if file_size > 0 {
        lemma_plan_tiles_file(file_size, piece);
    } else {
        assert(chunk_count(0, piece as int) == 0) by (nonlinear_arith) requires piece > 0;
    }
}

proof fn lemma_done_prefix(file_size: u64, piece: u64, s: Seq<Chunk>, k: int)
    requires
        piece > 0,
        s.len() == chunk_count(file_size as int, piece as int),
        0 <= k <= s.len(),
        forall|i: int|
            0 <= i < s.len() ==> (#[trigger] s[i]).start == planned_chunk(i, file_size, piece).start && s[i].end
                == planned_chunk(i, file_size, piece).end && s[i].status is Done,
    ensures
        done_bytes(s.take(k)) == planned_bytes(file_size, piece, k),
    decreases k,
{
    if k > 0 {
        lemma_done_prefix(file_size, piece, s, k - 1);
        let t = s.take(k);
        assert(t.drop_last() =~= s.take(k - 1));
        assert(t.last() == s[k - 1]);
    }
}

} // verus!

verus! {

/// A worker's verdict on a chunk it was handed.
#[derive(Clone, Copy, Debug, PartialEq, Eq, Structural)]
pub enum ClaimVerdict {
    /// Download it.
    Fetch,
    /// It was tried too often: it has been made idle with its count cleared,
    /// and the worker counts a failure and reconnects.
    GiveUp,
}

/// Decides on a chunk just handed out (a copy of the chunk at `claimed.index`):
/// one tried more than `MAX_RETRIES` times is made idle again with its
/// retry count cleared.
pub fn vet_claim(chunks: &mut Vec<Chunk>, claimed: &Chunk) -> (v: ClaimVerdict)
    requires
        claimed.index < old(chunks)@.len(),
    ensures
        claimed.retries > MAX_RETRIES ==> {
            &&& v == ClaimVerdict::GiveUp
            &&& final(chunks)@ == old(chunks)@.update(
                claimed.index as int,
                Chunk { status: ChunkStatus::Idle, retries: 0, ..old(chunks)@[claimed.index as int] },
            )
        },
        claimed.retries <= MAX_RETRIES ==> v == ClaimVerdict::Fetch && final(chunks)@ == old(chunks)@,
{
    if claimed.retries > MAX_RETRIES {
        let c = chunks[claimed.index];
        chunks.set(claimed.index, Chunk { status: ChunkStatus::Idle, retries: 0, ..c });
        ClaimVerdict::GiveUp
    } else {
        ClaimVerdict::Fetch
    }
}

/// Records that the chunk at `index` arrived.
pub fn mark_done(chunks: &mut Vec<Chunk>, index: usize)
    requires
        index < old(chunks)@.len(),
    ensures
        final(chunks)@ == old(chunks)@.update(index as int, Chunk { status: ChunkStatus::Done, ..old(chunks)@[index as int] }),
{
    let c = chunks[index];
    chunks.set(index, Chunk { status: ChunkStatus::Done, ..c });
}

/// Gives the chunk at `index` back after a failed transfer: if still in
/// progress it becomes idle.
pub fn release_after_failure(chunks: &mut Vec<Chunk>, index: usize)
    requires
        index < old(chunks)@.len(),
    ensures
        final(chunks)@ == old(chunks)@.update(index as int, released(old(chunks)@[index as int])),
{
    let c = chunks[index];
    match c.status {
        ChunkStatus::InProgress(_) => {
            chunks.set(index, Chunk { status: ChunkStatus::Idle, ..c });
        },
        _ => {
            assert(chunks@ =~= chunks@.update(index as int, released(c)));
        },
    }
}

} // verus!

verus! {

proof fn lemma_first_idle_exists(s: Seq<Chunk>)
    requires
        has_idle(s),
    ensures
        exists|i: int| #[trigger] is_first_idle(s, i),
    decreases s.len(),
{
    let d = s.drop_last();
    if has_idle(d) {
        lemma_first_idle_exists(d);
        let i = choose|i: int| #[trigger] is_first_idle(d, i);
        assert(is_first_idle(s, i)) by {
            assert forall|j: int| 0 <= j < i implies !(#[trigger] s[j].status is Idle) by {
                assert(s[j] == d[j]);
            }
            assert(s[i] == d[i]);
        }
    } else {
        let k = choose|k: int| 0 <= k < s.len() && #[trigger] s[k].status is Idle;
        if k < s.len() - 1 {
            assert(d[k] == s[k]);
            assert(false);
        }
        assert(is_first_idle(s, s.len() - 1)) by {
            assert forall|j: int| 0 <= j < s.len() - 1 implies !(#[trigger] s[j].status is Idle) by {
                assert(s[j] == d[j]);
            }
        }
    }
}

/// Law of claiming a chunk: whatever is handed out is one of the chunks, with
/// the same range, now in progress since `now`, and tried exactly once more
/// than before; it is stored back in place and nothing else changes. When
/// nothing is handed out, nothing changes.
pub proof fn lemma_claim_counts_one_more_try(old: Seq<Chunk>, now: u64, r: Option<Chunk>, new: Seq<Chunk>)
    requires
        retries_below_max(old),
        next_chunk_result(old, now, r, new),
    ensures
        r is None ==> new == old,
        r matches Some(c) ==> exists|i: int|
            0 <= i < old.len() && c.index == old[i].index && c.start == old[i].start && c.end == old[i].end
                && c.status == ChunkStatus::InProgress(now) && c.retries == old[i].retries + 1
                && #[trigger] new[i] == c && new == old.update(i, c),
{
    if has_idle(old) {
        lemma_first_idle_exists(old);
        let i = choose|i: int| #[trigger] is_first_idle(old, i);
        assert(old[i].retries < u32::MAX);
        assert(new[i] == claimed(old[i], now));
    } else if exists|i: int| #[trigger] is_oldest_in_progress(old, i, now) {
        let i = choose|i: int| #[trigger] is_oldest_in_progress(old, i, now);
        assert(old[i].retries < u32::MAX);
        if overdue(old[i].status->0, now) {
            assert(new[i] == claimed(old[i], now));
        }
    }
}

/// Laws of progress accounting: only finished chunks count. A chunk that is
/// not done adds nothing to the downloaded bytes, a done one adds its length;
/// and changing the state of a chunk that is neither before nor after done
/// leaves the count as it was.
pub proof fn lemma_only_done_chunks_count(s: Seq<Chunk>, c: Chunk, i: int)
    ensures
        !(c.status is Done) ==> done_bytes(s.push(c)) == done_bytes(s),
        c.status is Done ==> done_bytes(s.push(c)) == done_bytes(s) + c.end - c.start + 1,
        0 <= i < s.len() && !(s[i].status is Done) && !(c.status is Done) ==> done_bytes(s.update(i, c)) == done_bytes(s),
    decreases s.len(),
{
    assert(s.push(c).drop_last() =~= s);
    if 0 <= i < s.len() && !(s[i].status is Done) && !(c.status is Done) {
        if i == s.len() - 1 {
            assert(s.update(i, c).drop_last() =~= s.drop_last());
        } else {
            lemma_only_done_chunks_count(s.drop_last(), c, i);
            assert(s.update(i, c).drop_last() =~= s.drop_last().update(i, c));
            assert(s.update(i, c).last() == s.last());
        }
    }
}

} // verus!
