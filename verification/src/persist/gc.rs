//! Which of the stored scrollback is given up.

use crate::history::db::ChunkRow;
use crate::text::chars_of;
use vstd::prelude::*;

verus! {

/// How many days a chunk is kept.
pub const RETENTION_DAYS: i64 = 30;

/// How many milliseconds a chunk is kept.
pub const RETENTION_MS: i64 = 2_592_000_000;

/// How many bytes a session may have.
pub const SESSION_CHUNK_CAP_BYTES: i64 = 209_715_200;

/// How many bytes all sessions may have together.
pub const TOTAL_SCROLLBACK_CAP_BYTES: i64 = 2_147_483_648;

/// How many commands the history may have.
pub const RUNS_CAP: i64 = 50_000;

/// The limits of a pass.
#[derive(Debug, Clone, Copy, PartialEq, Eq, Structural)]
pub struct GcCaps {
    pub session_bytes: i64,
    pub total_bytes: i64,
    pub retention_ms: i64,
    pub runs: i64,
}

impl Default for GcCaps {
    fn default() -> (r: GcCaps)
        ensures
            r.session_bytes == SESSION_CHUNK_CAP_BYTES,
            r.total_bytes == TOTAL_SCROLLBACK_CAP_BYTES,
            r.retention_ms == RETENTION_MS,
            r.runs == RUNS_CAP,
    {
        GcCaps {
            session_bytes: SESSION_CHUNK_CAP_BYTES,
            total_bytes: TOTAL_SCROLLBACK_CAP_BYTES,
            retention_ms: RETENTION_MS,
            runs: RUNS_CAP,
        }
    }
}

/// What a pass reclaimed.
#[derive(Debug, Clone, Copy, PartialEq, Eq, Structural)]
pub struct GcReport {
    pub chunks_deleted: usize,
    pub bytes_reclaimed: i64,
    pub tmp_files_deleted: usize,
    pub runs_trimmed: usize,
    pub sessions_skipped_live: usize,
}

impl Default for GcReport {
    fn default() -> (r: GcReport)
        ensures
            r == (GcReport {
                chunks_deleted: 0,
                bytes_reclaimed: 0,
                tmp_files_deleted: 0,
                runs_trimmed: 0,
                sessions_skipped_live: 0,
            }),
    {
        GcReport {
            chunks_deleted: 0,
            bytes_reclaimed: 0,
            tmp_files_deleted: 0,
            runs_trimmed: 0,
            sessions_skipped_live: 0,
        }
    }
}

// ---- liveness ----------------------------------------------------------

/// What came of trying to take a session's lock.
#[derive(Debug, Clone, Copy, PartialEq, Eq, Structural)]
pub enum LockAttempt {
    /// The lock was free: nobody runs the session.
    Acquired,
    /// Somebody holds the lock.
    Held,
    /// It could not be tried.
    Failed,
}

/// Is the session dead? Only a lock that was free proves it.
pub fn proves_dead(attempt: LockAttempt) -> (r: bool)
    ensures
        r == (attempt == LockAttempt::Acquired),
{
    match attempt {
        LockAttempt::Acquired => true,
        LockAttempt::Held => false,
        LockAttempt::Failed => false,
    }
}

/// What a try to lock a file came back with.
#[derive(Debug, Clone, Copy, PartialEq, Eq, Structural)]
pub enum LockReply {
    Taken,
    Contended,
    /// A signal came in between.
    Interrupted,
    /// Any other fault.
    Fault,
}

/// What to make of a reply; none means to try again: an interrupted try says
/// nothing about who holds the lock.
pub fn judge_lock_reply(reply: LockReply) -> (r: Option<LockAttempt>)
    ensures
        r == (match reply {
            LockReply::Taken => Some(LockAttempt::Acquired),
            LockReply::Contended => Some(LockAttempt::Held),
            LockReply::Interrupted => None::<LockAttempt>,
            LockReply::Fault => Some(LockAttempt::Failed),
        }),
{
    match reply {
        LockReply::Taken => Some(LockAttempt::Acquired),
        LockReply::Contended => Some(LockAttempt::Held),
        LockReply::Interrupted => None,
        LockReply::Fault => Some(LockAttempt::Failed),
    }
}

/// The sessions of some rows, each once, in the order in which they come up.
pub open spec fn row_sessions(rows: Seq<ChunkRow>) -> Seq<i64>
    decreases rows.len(),
{
    if rows.len() == 0 {
        Seq::empty()
    } else {
        let rest = row_sessions(rows.drop_last());
        if rest.contains(rows.last().session_id) {
            rest
        } else {
            rest.push(rows.last().session_id)
        }
    }
}

/// Is `x` among `xs`?
fn holds(xs: &Vec<i64>, x: i64) -> (r: bool)
    ensures
        r == xs@.contains(x),
{
    let mut i: usize = 0;
    while i < xs.len()
        invariant
            i <= xs@.len(),
            forall|k: int| 0 <= k < i ==> xs@[k] != x,
        decreases xs@.len() - i,
    {
        if xs[i] == x {
            return true;
        }
        i += 1;
    }
    false
}

/// The sessions of some rows: those whose locks a pass tries.
pub fn sessions_of(rows: &Vec<ChunkRow>) -> (r: Vec<i64>)
    ensures
        r@ == row_sessions(rows@),
{
    let mut out: Vec<i64> = Vec::new();
    let mut i: usize = 0;
    assert(rows@.take(0) =~= Seq::empty());
    while i < rows.len()
        invariant
            i <= rows@.len(),
            out@ == row_sessions(rows@.take(i as int)),
        decreases rows@.len() - i,
    {
        assert(rows@.take(i + 1).drop_last() =~= rows@.take(i as int));
        let session: i64 = rows[i].session_id;
        if !holds(&out, session) {
            out.push(session);
        }
        i += 1;
    }
    assert(rows@.take(i as int) =~= rows@);
    out
}

/// How many of the sessions are not dead.
pub open spec fn live_count(sessions: Seq<i64>, dead: Seq<i64>) -> nat
    decreases sessions.len(),
{
    if sessions.len() == 0 {
        0
    } else {
        live_count(sessions.drop_last(), dead) + (if dead.contains(sessions.last()) {
            0nat
        } else {
            1nat
        })
    }
}

/// How many sessions of the rows a pass skips because they live.
pub fn count_live(rows: &Vec<ChunkRow>, dead: &Vec<i64>) -> (r: usize)
    ensures
        r == live_count(row_sessions(rows@), dead@),
{
    let sessions = sessions_of(rows);
    let mut n: usize = 0;
    let mut i: usize = 0;
    while i < sessions.len()
        invariant
            n <= i <= sessions@.len(),
            n == live_count(sessions@.take(i as int), dead@),
        decreases sessions@.len() - i,
    {
        assert(sessions@.take(i + 1).drop_last() =~= sessions@.take(i as int));
        if !holds(dead, sessions[i]) {
            n += 1;
        }
        i += 1;
    }
    assert(sessions@.take(i as int) =~= sessions@);
    n
}

// ---- what goes ---------------------------------------------------------

/// Does the first chunk go before the second: is it older, or as old and of the
/// lower id?
pub open spec fn older(a: ChunkRow, b: ChunkRow) -> bool {
    a.end_time < b.end_time || (a.end_time == b.end_time && a.id < b.id)
}

/// Has each chunk an id of its own?
pub open spec fn distinct_ids(rows: Seq<ChunkRow>) -> bool {
    forall|i: int, j: int|
        0 <= i < j < rows.len() ==> (#[trigger] rows[i]).id != (#[trigger] rows[j]).id
}

/// The bytes of the chunks that are marked.
pub open spec fn bytes_where(rows: Seq<ChunkRow>, marked: Seq<bool>) -> int
    decreases rows.len(),
{
    if rows.len() == 0 || marked.len() != rows.len() {
        0
    } else {
        bytes_where(rows.drop_last(), marked.drop_last()) + (if marked.last() {
            rows.last().byte_size as int
        } else {
            0
        })
    }
}

/// The marked chunks that are older than chunk `j`.
pub open spec fn older_marks(rows: Seq<ChunkRow>, marked: Seq<bool>, j: int) -> Seq<bool> {
    Seq::new(rows.len(), |i: int| marked[i] && older(rows[i], rows[j]))
}

/// What is left of `total` bytes once the candidates older than chunk `j` are
/// gone.
pub open spec fn left_before(rows: Seq<ChunkRow>, candidates: Seq<bool>, total: int, j: int) -> int {
    total - bytes_where(rows, older_marks(rows, candidates, j))
}

/// Does chunk `i` go so that `total` bytes come down to the cap? The candidates
/// go oldest first, as long as what is left is over the cap.
pub open spec fn evicted(
    rows: Seq<ChunkRow>,
    candidates: Seq<bool>,
    total: int,
    cap: int,
    i: int,
) -> bool {
    &&& candidates[i]
    &&& forall|j: int|
        0 <= j < rows.len() && candidates[j] && (j == i || older(rows[j], rows[i]))
            ==> #[trigger] left_before(rows, candidates, total, j) > cap
}

/// All chunks that go so that `total` bytes come down to the cap.
pub open spec fn evictions(rows: Seq<ChunkRow>, candidates: Seq<bool>, total: int, cap: int) -> Seq<
    bool,
> {
    Seq::new(rows.len(), |i: int| evicted(rows, candidates, total, cap, i))
}

/// The chunks of dead sessions that ended before the cutoff.
pub open spec fn aged(rows: Seq<ChunkRow>, dead: Seq<i64>, cutoff: int) -> Seq<bool> {
    Seq::new(
        rows.len(),
        |i: int| dead.contains(rows[i].session_id) && rows[i].end_time < cutoff,
    )
}

/// The chunks of dead sessions that are not marked yet.
pub open spec fn deletable(rows: Seq<ChunkRow>, dead: Seq<i64>, marked: Seq<bool>) -> Seq<bool> {
    Seq::new(rows.len(), |i: int| dead.contains(rows[i].session_id) && !marked[i])
}

/// The chunks that are not marked.
pub open spec fn unmarked(marked: Seq<bool>) -> Seq<bool> {
    Seq::new(marked.len(), |i: int| !marked[i])
}

/// The chunks marked in either.
pub open spec fn either(a: Seq<bool>, b: Seq<bool>) -> Seq<bool> {
    Seq::new(a.len(), |i: int| a[i] || b[i])
}

/// The chunks that go for their age, or so that all together come down to the
/// total cap.
pub open spec fn over_total(rows: Seq<ChunkRow>, dead: Seq<i64>, cutoff: int, cap: int) -> Seq<
    bool,
> {
    let old = aged(rows, dead, cutoff);
    either(
        old,
        evictions(
            rows,
            deletable(rows, dead, old),
            bytes_where(rows, unmarked(old)),
            cap,
        ),
    )
}

/// The deletable chunks of a session.
pub open spec fn session_part(
    rows: Seq<ChunkRow>,
    dead: Seq<i64>,
    marked: Seq<bool>,
    session: i64,
) -> Seq<bool> {
    Seq::new(
        rows.len(),
        |i: int| deletable(rows, dead, marked)[i] && rows[i].session_id == session,
    )
}

/// The chunks of a session that go so that it comes down to its cap.
pub open spec fn over_session(
    rows: Seq<ChunkRow>,
    dead: Seq<i64>,
    marked: Seq<bool>,
    cap: int,
    session: i64,
) -> Seq<bool> {
    let part = session_part(rows, dead, marked, session);
    evictions(rows, part, bytes_where(rows, part), cap)
}

/// The chunks that a pass deletes: for their age; then the oldest of all, down
/// to the total cap; then the oldest of each session, down to its cap.
pub open spec fn doomed(rows: Seq<ChunkRow>, dead: Seq<i64>, cutoff: int, caps: GcCaps) -> Seq<
    bool,
> {
    let marked = over_total(rows, dead, cutoff, caps.total_bytes as int);
    Seq::new(
        rows.len(),
        |i: int|
            marked[i] || over_session(
                rows,
                dead,
                marked,
                caps.session_bytes as int,
                rows[i].session_id,
            )[i],
    )
}

/// Marking one chunk more adds its bytes.
proof fn lemma_mark_one(rows: Seq<ChunkRow>, marked: Seq<bool>, at: int)
    requires
        marked.len() == rows.len(),
        0 <= at < rows.len(),
        !marked[at],
    ensures
        bytes_where(rows, marked.update(at, true)) == bytes_where(rows, marked)
            + rows[at].byte_size,
    decreases rows.len(),
{
    let more = marked.update(at, true);
    if at == rows.len() - 1 {
        assert(more.drop_last() =~= marked.drop_last());
    } else {
        lemma_mark_one(rows.drop_last(), marked.drop_last(), at);
        assert(more.drop_last() =~= marked.drop_last().update(at, true));
    }
}

/// The bytes of marked chunks are bounded by their number.
proof fn lemma_bytes_bounded(rows: Seq<ChunkRow>, marked: Seq<bool>)
    ensures
        -0x8000_0000_0000_0000 * rows.len() <= bytes_where(rows, marked) <= 0x8000_0000_0000_0000
            * rows.len(),
    decreases rows.len(),
{
    if rows.len() > 0 && marked.len() == rows.len() {
        lemma_bytes_bounded(rows.drop_last(), marked.drop_last());
    }
}

/// Nothing marked is no bytes.
proof fn lemma_no_bytes(rows: Seq<ChunkRow>, marked: Seq<bool>)
    requires
        forall|i: int| 0 <= i < marked.len() ==> !marked[i],
    ensures
        bytes_where(rows, marked) == 0,
    decreases rows.len(),
{
    if rows.len() > 0 && marked.len() == rows.len() {
        lemma_no_bytes(rows.drop_last(), marked.drop_last());
    }
}

/// The bytes of the marked chunks.
fn add_bytes(rows: &Vec<ChunkRow>, marked: &Vec<bool>) -> (r: i128)
    requires
        marked@.len() == rows@.len(),
    ensures
        r == bytes_where(rows@, marked@),
{
    let mut sum: i128 = 0;
    let n: usize = rows.len();
    let mut i: usize = 0;
    while i < n
        invariant
            i <= n,
            n == rows@.len(),
            marked@.len() == rows@.len(),
            sum == bytes_where(rows@.take(i as int), marked@.take(i as int)),
        decreases n - i,
    {
        let ghost some = rows@.take(i + 1);
        let ghost marks = marked@.take(i + 1);
        assert(some.drop_last() =~= rows@.take(i as int));
        assert(marks.drop_last() =~= marked@.take(i as int));
        proof {
            lemma_bytes_bounded(rows@.take(i as int), marked@.take(i as int));
        }
        if marked[i] {
            sum = sum + rows[i].byte_size as i128;
        }
        i += 1;
    }
    assert(rows@.take(i as int) =~= rows@);
    assert(marked@.take(i as int) =~= marked@);
    sum
}

/// Does the first chunk go before the second?
fn is_older(a: &ChunkRow, b: &ChunkRow) -> (r: bool)
    ensures
        r == older(*a, *b),
{
    a.end_time < b.end_time || (a.end_time == b.end_time && a.id < b.id)
}

/// Is every chunk that is gone a candidate, and older than every candidate that
/// is left?
spec fn oldest_gone(rows: Seq<ChunkRow>, candidates: Seq<bool>, gone: Seq<bool>) -> bool {
    &&& gone.len() == rows.len()
    &&& forall|i: int| 0 <= i < rows.len() && #[trigger] gone[i] ==> candidates[i]
    &&& forall|i: int, j: int|
        0 <= i < rows.len() && 0 <= j < rows.len() && #[trigger] gone[i] && candidates[j]
            && !#[trigger] gone[j] ==> older(rows[i], rows[j])
}

/// The oldest candidate that is left.
fn oldest_left(rows: &Vec<ChunkRow>, candidates: &Vec<bool>, gone: &Vec<bool>) -> (r: Option<usize>)
    requires
        candidates@.len() == rows@.len(),
        gone@.len() == rows@.len(),
        distinct_ids(rows@),
    ensures
        match r {
            Some(at) => {
                &&& at < rows@.len()
                &&& candidates@[at as int] && !gone@[at as int]
                &&& forall|j: int|
                    0 <= j < rows@.len() && j != at && candidates@[j] && !#[trigger] gone@[j]
                        ==> older(rows@[at as int], rows@[j])
            },
            None => forall|j: int|
                0 <= j < rows@.len() && candidates@[j] ==> #[trigger] gone@[j],
        },
{
    let mut best: Option<usize> = None;
    let mut i: usize = 0;
    while i < rows.len()
        invariant
            i <= rows@.len(),
            candidates@.len() == rows@.len(),
            gone@.len() == rows@.len(),
            distinct_ids(rows@),
            match best {
                Some(at) => {
                    &&& at < i
                    &&& candidates@[at as int] && !gone@[at as int]
                    &&& forall|j: int|
                        0 <= j < i && j != at && candidates@[j] && !#[trigger] gone@[j] ==> older(
                            rows@[at as int],
                            rows@[j],
                        )
                },
                None => forall|j: int| 0 <= j < i && candidates@[j] ==> #[trigger] gone@[j],
            },
        decreases rows@.len() - i,
    {
        if candidates[i] && !gone[i] {
            match best {
                Some(at) => {
                    assert(rows@[at as int].id != rows@[i as int].id);
                    if is_older(&rows[i], &rows[at]) {
                        best = Some(i);
                    }
                },
                None => {
                    best = Some(i);
                },
            }
        }
        i += 1;
    }
    best
}

/// How many chunks are not marked.
spec fn unmarked_count(marked: Seq<bool>) -> nat
    decreases marked.len(),
{
    if marked.len() == 0 {
        0
    } else {
        unmarked_count(marked.drop_last()) + (if marked.last() {
            0nat
        } else {
            1nat
        })
    }
}

/// Marking one more leaves one fewer unmarked.
proof fn lemma_unmarked_count(marked: Seq<bool>, at: int)
    requires
        0 <= at < marked.len(),
        !marked[at],
    ensures
        unmarked_count(marked.update(at, true)) == unmarked_count(marked) - 1,
    decreases marked.len(),
{
    let more = marked.update(at, true);
    if at == marked.len() - 1 {
        assert(more.drop_last() =~= marked.drop_last());
    } else {
        lemma_unmarked_count(marked.drop_last(), at);
        assert(more.drop_last() =~= marked.drop_last().update(at, true));
    }
}

/// The chunks of the pool that are not gone.
spec fn remaining(pool: Seq<bool>, gone: Seq<bool>) -> Seq<bool> {
    Seq::new(pool.len(), |i: int| pool[i] && !gone[i])
}

/// What is left of a pool is the pool without what is gone from it.
proof fn lemma_remaining(rows: Seq<ChunkRow>, pool: Seq<bool>, gone: Seq<bool>)
    requires
        pool.len() == rows.len(),
        gone.len() == rows.len(),
        forall|i: int| 0 <= i < rows.len() && #[trigger] gone[i] ==> pool[i],
    ensures
        bytes_where(rows, remaining(pool, gone)) == bytes_where(rows, pool) - bytes_where(
            rows,
            gone,
        ),
    decreases rows.len(),
{
    if rows.len() > 0 {
        let p = pool.drop_last();
        let g = gone.drop_last();
        assert forall|i: int| 0 <= i < rows.drop_last().len() && #[trigger] g[i] implies p[i] by {
            assert(gone[i]);
        }
        lemma_remaining(rows.drop_last(), p, g);
        assert(remaining(pool, gone).drop_last() =~= remaining(p, g));
        assert(gone.last() ==> pool.last()) by {
            assert(gone[rows.len() - 1] ==> pool[rows.len() - 1]);
        }
    }
}

/// The candidates older than the oldest that is left are those that are gone.
proof fn lemma_older_are_gone(rows: Seq<ChunkRow>, cand: Seq<bool>, gone: Seq<bool>, at: int)
    requires
        cand.len() == rows.len(),
        oldest_gone(rows, cand, gone),
        0 <= at < rows.len(),
        cand[at] && !gone[at],
        forall|j: int|
            0 <= j < rows.len() && j != at && cand[j] && !#[trigger] gone[j] ==> older(
                rows[at],
                rows[j],
            ),
    ensures
        older_marks(rows, cand, at) == gone,
{
    let marks = older_marks(rows, cand, at);
    assert forall|i: int| 0 <= i < rows.len() implies marks[i] == gone[i] by {
        if gone[i] {
            assert(older(rows[i], rows[at]));
        }
    }
    assert(marks =~= gone);
}

/// Where what is left is under the cap, what is gone is what had to go.
proof fn lemma_stop_here(
    rows: Seq<ChunkRow>,
    cand: Seq<bool>,
    gone: Seq<bool>,
    total: int,
    cap: int,
    at: int,
)
    requires
        cand.len() == rows.len(),
        oldest_gone(rows, cand, gone),
        0 <= at < rows.len(),
        cand[at] && !gone[at],
        forall|j: int|
            0 <= j < rows.len() && j != at && cand[j] && !#[trigger] gone[j] ==> older(
                rows[at],
                rows[j],
            ),
        forall|i: int|
            0 <= i < rows.len() && #[trigger] gone[i] ==> left_before(rows, cand, total, i) > cap,
        left_before(rows, cand, total, at) <= cap,
    ensures
        gone == evictions(rows, cand, total, cap),
{
    let all = evictions(rows, cand, total, cap);
    assert forall|i: int| 0 <= i < rows.len() implies gone[i] == all[i] by {
        if gone[i] {
            assert forall|j: int|
                0 <= j < rows.len() && cand[j] && (j == i || older(rows[j], rows[i])) implies
                #[trigger] left_before(rows, cand, total, j) > cap by {
                if !gone[j] {
                    assert(older(rows[i], rows[j]));
                }
            }
        } else if cand[i] {
            assert(at == i || older(rows[at], rows[i]));
            assert(left_before(rows, cand, total, at) <= cap);
        }
    }
    assert(gone =~= all);
}

/// Where nothing is left, all that is gone had to go.
proof fn lemma_all_gone(
    rows: Seq<ChunkRow>,
    cand: Seq<bool>,
    gone: Seq<bool>,
    total: int,
    cap: int,
)
    requires
        cand.len() == rows.len(),
        oldest_gone(rows, cand, gone),
        forall|j: int| 0 <= j < rows.len() && cand[j] ==> #[trigger] gone[j],
        forall|i: int|
            0 <= i < rows.len() && #[trigger] gone[i] ==> left_before(rows, cand, total, i) > cap,
    ensures
        gone == evictions(rows, cand, total, cap),
{
    let all = evictions(rows, cand, total, cap);
    assert forall|i: int| 0 <= i < rows.len() implies gone[i] == all[i] by {
        if gone[i] {
            assert forall|j: int|
                0 <= j < rows.len() && cand[j] && (j == i || older(rows[j], rows[i])) implies
                #[trigger] left_before(rows, cand, total, j) > cap by {
                assert(gone[j]);
            }
        }
    }
    assert(gone =~= all);
}

/// Marks nothing.
fn no_marks(n: usize) -> (r: Vec<bool>)
    ensures
        r@.len() == n,
        forall|k: int| 0 <= k < n ==> !#[trigger] r@[k],
{
    let mut marks: Vec<bool> = Vec::new();
    let mut i: usize = 0;
    while i < n
        invariant
            i <= n,
            marks@.len() == i,
            forall|k: int| 0 <= k < i ==> !#[trigger] marks@[k],
        decreases n - i,
    {
        marks.push(false);
        i += 1;
    }
    marks
}

/// Marks the candidates that go so that the bytes of the pool, of which they
/// are a part, come down to the cap.
fn evict(
    rows: &Vec<ChunkRow>,
    candidates: &Vec<bool>,
    total: i128,
    cap: i64,
    Ghost(pool): Ghost<Seq<bool>>,
) -> (gone: Vec<bool>)
    requires
        candidates@.len() == rows@.len(),
        pool.len() == rows@.len(),
        distinct_ids(rows@),
        total == bytes_where(rows@, pool),
        forall|i: int| 0 <= i < rows@.len() && #[trigger] candidates@[i] ==> pool[i],
    ensures
        gone@ == evictions(rows@, candidates@, total as int, cap as int),
{
    let n: usize = rows.len();
    let mut gone = no_marks(n);
    proof {
        lemma_no_bytes(rows@, gone@);
    }
    let mut left: i128 = total;
    let ghost cand = candidates@;
    loop
        invariant
            n == rows@.len(),
            cand == candidates@,
            candidates@.len() == rows@.len(),
            pool.len() == rows@.len(),
            distinct_ids(rows@),
            oldest_gone(rows@, cand, gone@),
            total == bytes_where(rows@, pool),
            forall|i: int| 0 <= i < rows@.len() && #[trigger] candidates@[i] ==> pool[i],
            left == total - bytes_where(rows@, gone@),
            forall|i: int|
                0 <= i < n && #[trigger] gone@[i] ==> left_before(rows@, cand, total as int, i)
                    > cap,
        ensures
            gone@ == evictions(rows@, cand, total as int, cap as int),
        decreases unmarked_count(gone@),
    {
        let at: usize = match oldest_left(rows, candidates, &gone) {
            Some(at) => at,
            None => {
                proof {
                    lemma_all_gone(rows@, cand, gone@, total as int, cap as int);
                }
                break ;
            },
        };
        proof {
            lemma_older_are_gone(rows@, cand, gone@, at as int);
        }
        assert(left == left_before(rows@, cand, total as int, at as int));
        if left <= cap as i128 {
            proof {
                lemma_stop_here(rows@, cand, gone@, total as int, cap as int, at as int);
            }
            break ;
        }
        let ghost before = gone@;
        let ghost after = gone@.update(at as int, true);
        proof {
            lemma_mark_one(rows@, before, at as int);
            lemma_unmarked_count(before, at as int);
            assert forall|i: int| 0 <= i < rows@.len() && #[trigger] after[i] implies pool[i] by {
                if i != at {
                    assert(before[i]);
                }
                assert(candidates@[i]);
            }
            lemma_remaining(rows@, pool, after);
            lemma_bytes_bounded(rows@, remaining(pool, after));
        }
        left = left - rows[at].byte_size as i128;
        gone.set(at, true);
        assert(gone@ =~= after);
        assert(oldest_gone(rows@, cand, gone@)) by {
            assert forall|i: int, j: int|
                0 <= i < rows@.len() && 0 <= j < rows@.len() && #[trigger] after[i] && cand[j]
                    && !#[trigger] after[j] implies older(rows@[i], rows@[j]) by {
                assert(!before[j]);
                if i != at {
                    assert(before[i]);
                }
            }
        }
    }
    gone
}

/// The chunks that a pass deletes. `dead` lists the sessions that are proved
/// dead; every other one is taken to live.
pub fn plan(rows: &Vec<ChunkRow>, dead: &Vec<i64>, now_ms: i64, caps: &GcCaps) -> (r: Vec<bool>)
    requires
        distinct_ids(rows@),
        i64::MIN <= now_ms - caps.retention_ms <= i64::MAX,
    ensures
        r@ == doomed(rows@, dead@, now_ms - caps.retention_ms, *caps),
{
    let n: usize = rows.len();
    let cutoff: i64 = now_ms - caps.retention_ms;
    let mut marked: Vec<bool> = Vec::new();
    let mut kept: Vec<bool> = Vec::new();
    let mut candidates: Vec<bool> = Vec::new();
    let mut i: usize = 0;
    while i < n
        invariant
            i <= n,
            n == rows@.len(),
            marked@.len() == i,
            kept@.len() == i,
            candidates@.len() == i,
            forall|k: int|
                0 <= k < i ==> {
                    &&& #[trigger] marked@[k] == aged(rows@, dead@, cutoff as int)[k]
                    &&& kept@[k] == !marked@[k]
                    &&& candidates@[k] == (dead@.contains(rows@[k].session_id) && !marked@[k])
                },
        decreases n - i,
    {
        let is_dead = holds(dead, rows[i].session_id);
        let old = is_dead && rows[i].end_time < cutoff;
        marked.push(old);
        kept.push(!old);
        candidates.push(is_dead && !old);
        i += 1;
    }
    let ghost old = aged(rows@, dead@, cutoff as int);
    assert(marked@ =~= old);
    assert(kept@ =~= unmarked(old));
    assert forall|k: int| 0 <= k < n implies candidates@[k] == deletable(rows@, dead@, old)[k] by {
        assert(marked@[k] == old[k]);
    }
    assert(candidates@ =~= deletable(rows@, dead@, old));
    let total: i128 = add_bytes(rows, &kept);
    let gone = evict(rows, &candidates, total, caps.total_bytes, Ghost(kept@));
    let mut first: Vec<bool> = Vec::new();
    let mut i: usize = 0;
    while i < n
        invariant
            i <= n,
            n == marked@.len(),
            n == gone@.len(),
            first@.len() == i,
            forall|k: int| 0 <= k < i ==> #[trigger] first@[k] == (marked@[k] || gone@[k]),
        decreases n - i,
    {
        first.push(marked[i] || gone[i]);
        i += 1;
    }
    assert(first@ =~= over_total(rows@, dead@, cutoff as int, caps.total_bytes as int));
    let out = plan_sessions(rows, dead, &first, caps.session_bytes);
    assert(out@ =~= doomed(rows@, dead@, cutoff as int, *caps));
    out
}

/// Every session of the rows is listed, and once.
proof fn lemma_row_sessions(rows: Seq<ChunkRow>)
    ensures
        forall|i: int|
            0 <= i < rows.len() ==> row_sessions(rows).contains((#[trigger] rows[i]).session_id),
        row_sessions(rows).no_duplicates(),
    decreases rows.len(),
{
    if rows.len() > 0 {
        let rest = rows.drop_last();
        lemma_row_sessions(rest);
        let all = row_sessions(rows);
        let some = row_sessions(rest);
        assert forall|i: int| 0 <= i < rows.len() implies all.contains(
            (#[trigger] rows[i]).session_id,
        ) by {
            if i < rows.len() - 1 {
                assert(rest[i] == rows[i]);
                let k = some.index_of(rows[i].session_id);
                assert(some.contains(rest[i].session_id));
                assert(all[k] == rows[i].session_id);
            } else if !some.contains(rows[i].session_id) {
                assert(all.last() == rows[i].session_id);
            }
        }
    }
}

/// Adds to the marked chunks those that go so that each session comes down to
/// its cap.
fn plan_sessions(rows: &Vec<ChunkRow>, dead: &Vec<i64>, marked: &Vec<bool>, cap: i64) -> (r: Vec<
    bool,
>)
    requires
        marked@.len() == rows@.len(),
        distinct_ids(rows@),
    ensures
        r@.len() == rows@.len(),
        forall|i: int|
            0 <= i < rows@.len() ==> #[trigger] r@[i] == (marked@[i] || over_session(
                rows@,
                dead@,
                marked@,
                cap as int,
                rows@[i].session_id,
            )[i]),
{
    let n: usize = rows.len();
    let sessions = sessions_of(rows);
    let mut out = no_marks(n);
    let mut s: usize = 0;
    proof {
        lemma_row_sessions(rows@);
    }
    while s < sessions.len()
        invariant
            s <= sessions@.len(),
            n == rows@.len(),
            marked@.len() == rows@.len(),
            out@.len() == rows@.len(),
            distinct_ids(rows@),
            sessions@.no_duplicates(),
            forall|i: int|
                0 <= i < n ==> #[trigger] out@[i] == (sessions@.take(s as int).contains(
                    rows@[i].session_id,
                ) && over_session(rows@, dead@, marked@, cap as int, rows@[i].session_id)[i]),
        decreases sessions@.len() - s,
    {
        let session: i64 = sessions[s];
        let is_dead = holds(dead, session);
        let mut part: Vec<bool> = Vec::new();
        let mut i: usize = 0;
        while i < n
            invariant
                i <= n,
                n == rows@.len(),
                marked@.len() == rows@.len(),
                is_dead == dead@.contains(session),
                part@.len() == i,
                forall|k: int|
                    0 <= k < i ==> #[trigger] part@[k] == session_part(
                        rows@,
                        dead@,
                        marked@,
                        session,
                    )[k],
            decreases n - i,
        {
            part.push(is_dead && !marked[i] && rows[i].session_id == session);
            i += 1;
        }
        assert(part@ =~= session_part(rows@, dead@, marked@, session));
        let total: i128 = add_bytes(rows, &part);
        let gone = evict(rows, &part, total, cap, Ghost(part@));
        assert(gone@ == over_session(rows@, dead@, marked@, cap as int, session));
        let ghost before = out@;
        let ghost done = sessions@.take(s as int);
        let ghost more = sessions@.take(s + 1);
        assert(more =~= done.push(session));
        let mut i: usize = 0;
        while i < n
            invariant
                i <= n,
                n == rows@.len(),
                n == gone@.len(),
                out@.len() == n,
                before.len() == n,
                forall|k: int| 0 <= k < i ==> #[trigger] out@[k] == (before[k] || gone@[k]),
                forall|k: int| i <= k < n ==> #[trigger] out@[k] == before[k],
            decreases n - i,
        {
            if gone[i] {
                out.set(i, true);
            }
            i += 1;
        }
        assert forall|i: int| 0 <= i < n implies #[trigger] out@[i] == (more.contains(
            rows@[i].session_id,
        ) && over_session(rows@, dead@, marked@, cap as int, rows@[i].session_id)[i]) by {
            let sid = rows@[i].session_id;
            assert(before[i] == (done.contains(sid) && over_session(
                rows@,
                dead@,
                marked@,
                cap as int,
                sid,
            )[i]));
            if sid == session {
                assert(more.last() == session);
                assert(!done.contains(session)) by {
                    if done.contains(session) {
                        let k = done.index_of(session);
                        assert(sessions@[k] == sessions@[s as int]);
                    }
                }
            } else {
                assert(!gone@[i]);
                assert(done.contains(sid) == more.contains(sid)) by {
                    if more.contains(sid) {
                        let k = more.index_of(sid);
                        assert(k < s);
                        assert(done[k] == sid);
                    }
                    if done.contains(sid) {
                        let k = done.index_of(sid);
                        assert(more[k] == sid);
                    }
                }
            }
        }
        s += 1;
    }
    assert(sessions@.take(s as int) =~= sessions@);
    let mut i: usize = 0;
    let ghost before = out@;
    while i < n
        invariant
            i <= n,
            n == marked@.len(),
            out@.len() == n,
            before.len() == n,
            forall|k: int| 0 <= k < i ==> #[trigger] out@[k] == (marked@[k] || before[k]),
            forall|k: int| i <= k < n ==> #[trigger] out@[k] == before[k],
        decreases n - i,
    {
        if marked[i] {
            out.set(i, true);
        }
        i += 1;
    }
    assert forall|i: int| 0 <= i < rows@.len() implies #[trigger] out@[i] == (marked@[i]
        || over_session(rows@, dead@, marked@, cap as int, rows@[i].session_id)[i]) by {
        assert(sessions@.contains(rows@[i].session_id));
        assert(before[i] == over_session(rows@, dead@, marked@, cap as int, rows@[i].session_id)[i]);
    }
    out
}

// ---- carrying it out ---------------------------------------------------

/// How many chunks are marked.
pub open spec fn marks_count(marked: Seq<bool>) -> nat
    decreases marked.len(),
{
    if marked.len() == 0 {
        0
    } else {
        marks_count(marked.drop_last()) + (if marked.last() {
            1nat
        } else {
            0nat
        })
    }
}

/// What a pass reports of the chunks it deletes: their number and their bytes.
pub fn tally(rows: &Vec<ChunkRow>, marked: &Vec<bool>) -> (r: (usize, i64))
    requires
        marked@.len() == rows@.len(),
        forall|k: int|
            0 <= k <= rows@.len() ==> i64::MIN <= #[trigger] bytes_where(
                rows@.take(k),
                marked@.take(k),
            ) <= i64::MAX,
    ensures
        r.0 == marks_count(marked@),
        r.1 == bytes_where(rows@, marked@),
{
    let n: usize = rows.len();
    let mut chunks: usize = 0;
    let mut bytes: i64 = 0;
    let mut i: usize = 0;
    while i < n
        invariant
            chunks <= i <= n,
            n == rows@.len(),
            marked@.len() == rows@.len(),
            chunks == marks_count(marked@.take(i as int)),
            bytes == bytes_where(rows@.take(i as int), marked@.take(i as int)),
            forall|k: int|
                0 <= k <= rows@.len() ==> i64::MIN <= #[trigger] bytes_where(
                    rows@.take(k),
                    marked@.take(k),
                ) <= i64::MAX,
        decreases n - i,
    {
        assert(rows@.take(i + 1).drop_last() =~= rows@.take(i as int));
        assert(marked@.take(i + 1).drop_last() =~= marked@.take(i as int));
        assert(i64::MIN <= bytes_where(rows@.take(i + 1), marked@.take(i + 1)) <= i64::MAX);
        if marked[i] {
            chunks += 1;
            bytes += rows[i].byte_size;
        }
        i += 1;
    }
    assert(rows@.take(i as int) =~= rows@);
    assert(marked@.take(i as int) =~= marked@);
    (chunks, bytes)
}

/// Has the history more commands than it may have?
pub fn runs_over_cap(count: i64, caps: &GcCaps) -> (r: bool)
    ensures
        r == (count > caps.runs),
{
    count > caps.runs
}

/// Is this the name of a file that was being written when the program stopped:
/// has it the extension `tmp`?
pub open spec fn temp_name(name: Seq<char>) -> bool {
    name.len() > 4 && name.skip(name.len() - 4) == seq!['.', 't', 'm', 'p']
}

/// Is this the name of a file that was being written when the program stopped?
pub fn is_temp_file(name: &str) -> (r: bool)
    ensures
        r == temp_name(name@),
{
    let chars = chars_of(name);
    let n: usize = chars.len();
    if n <= 4 {
        return false;
    }
    let r = chars[n - 4] == '.' && chars[n - 3] == 't' && chars[n - 2] == 'm' && chars[n - 1]
        == 'p';
    proof {
        let tail = chars@.skip(n - 4);
        let tmp = seq!['.', 't', 'm', 'p'];
        assert(tmp.len() == 4 && tmp[0] == '.' && tmp[1] == 't' && tmp[2] == 'm' && tmp[3] == 'p');
        assert(tail[0] == chars@[n - 4] && tail[1] == chars@[n - 3] && tail[2] == chars@[n - 2]
            && tail[3] == chars@[n - 1]);
        if r {
            assert(tail =~= tmp);
        }
    }
    r
}

// ---- laws --------------------------------------------------------------

/// Nothing of a session that may live is ever deleted.
pub proof fn law_live_sessions_keep_everything(
    rows: Seq<ChunkRow>,
    dead: Seq<i64>,
    cutoff: int,
    caps: GcCaps,
    i: int,
)
    requires
        0 <= i < rows.len(),
        doomed(rows, dead, cutoff, caps)[i],
    ensures
        dead.contains(rows[i].session_id),
{
}

/// A dead chunk past its age is always deleted.
pub proof fn law_aged_chunks_go(
    rows: Seq<ChunkRow>,
    dead: Seq<i64>,
    cutoff: int,
    caps: GcCaps,
    i: int,
)
    requires
        0 <= i < rows.len(),
        dead.contains(rows[i].session_id),
        rows[i].end_time < cutoff,
    ensures
        doomed(rows, dead, cutoff, caps)[i],
{
}

/// Chunks go oldest first: where one goes for a cap, so do all older candidates.
pub proof fn law_oldest_go_first(
    rows: Seq<ChunkRow>,
    candidates: Seq<bool>,
    total: int,
    cap: int,
    i: int,
    j: int,
)
    requires
        0 <= i < rows.len(),
        0 <= j < rows.len(),
        evicted(rows, candidates, total, cap, i),
        candidates[j],
        older(rows[j], rows[i]),
    ensures
        evicted(rows, candidates, total, cap, j),
{
    assert forall|k: int|
        0 <= k < rows.len() && candidates[k] && (k == j || older(rows[k], rows[j])) implies
        #[trigger] left_before(rows, candidates, total, k) > cap by {
        assert(k == i || older(rows[k], rows[i]));
    }
}

/// The oldest candidate that is not evicted.
proof fn lemma_first_kept(
    rows: Seq<ChunkRow>,
    candidates: Seq<bool>,
    total: int,
    cap: int,
    i: int,
) -> (j: int)
    requires
        distinct_ids(rows),
        0 <= i < rows.len(),
        candidates[i],
        !evicted(rows, candidates, total, cap, i),
    ensures
        0 <= j < rows.len(),
        candidates[j],
        !evicted(rows, candidates, total, cap, j),
        forall|k: int|
            0 <= k < rows.len() && candidates[k] && older(rows[k], rows[j]) ==> #[trigger] evicted(
                rows,
                candidates,
                total,
                cap,
                k,
            ),
    decreases age_rank(rows, i),
{
    if forall|k: int|
        0 <= k < rows.len() && candidates[k] && older(rows[k], rows[i]) ==> #[trigger] evicted(
            rows,
            candidates,
            total,
            cap,
            k,
        ) {
        i
    } else {
        let k = choose|k: int|
            0 <= k < rows.len() && candidates[k] && older(rows[k], rows[i]) && !#[trigger] evicted(
                rows,
                candidates,
                total,
                cap,
                k,
            );
        lemma_rank_decreases(rows, k, i, rows.len() as int);
        lemma_first_kept(rows, candidates, total, cap, k)
    }
}

/// How many of the first `n` chunks are older than chunk `i`.
spec fn rank_upto(rows: Seq<ChunkRow>, i: int, n: int) -> nat
    decreases n,
{
    if n <= 0 {
        0
    } else {
        rank_upto(rows, i, n - 1) + (if older(rows[n - 1], rows[i]) {
            1nat
        } else {
            0nat
        })
    }
}

/// How many chunks are older than chunk `i`.
spec fn age_rank(rows: Seq<ChunkRow>, i: int) -> nat {
    rank_upto(rows, i, rows.len() as int)
}

/// An older chunk has fewer chunks before it.
proof fn lemma_rank_decreases(rows: Seq<ChunkRow>, k: int, i: int, n: int)
    requires
        0 <= n <= rows.len(),
        0 <= k < rows.len(),
        0 <= i < rows.len(),
        older(rows[k], rows[i]),
    ensures
        rank_upto(rows, k, n) <= rank_upto(rows, i, n),
        k < n ==> rank_upto(rows, k, n) < rank_upto(rows, i, n),
    decreases n,
{
    if n > 0 {
        lemma_rank_decreases(rows, k, i, n - 1);
    }
}

/// An eviction keeps to the cap: where a candidate is left, what is left is under
/// it.
pub proof fn law_cap_is_kept(
    rows: Seq<ChunkRow>,
    candidates: Seq<bool>,
    total: int,
    cap: int,
    i: int,
)
    requires
        distinct_ids(rows),
        candidates.len() == rows.len(),
        0 <= i < rows.len(),
        candidates[i],
        !evicted(rows, candidates, total, cap, i),
    ensures
        total - bytes_where(rows, evictions(rows, candidates, total, cap)) <= cap,
{
    let j = lemma_first_kept(rows, candidates, total, cap, i);
    let all = evictions(rows, candidates, total, cap);
    let before = older_marks(rows, candidates, j);
    assert(left_before(rows, candidates, total, j) <= cap) by {
        let m = choose|m: int|
            0 <= m < rows.len() && candidates[m] && (m == j || older(rows[m], rows[j]))
                && #[trigger] left_before(rows, candidates, total, m) <= cap;
        if m != j {
            assert(evicted(rows, candidates, total, cap, m));
            assert(left_before(rows, candidates, total, m) > cap);
        }
    }
    assert forall|k: int| 0 <= k < rows.len() implies all[k] == before[k] by {
        if before[k] {
            assert(evicted(rows, candidates, total, cap, k));
        }
        if all[k] && !before[k] {
            assert(k == j || older(rows[j], rows[k])) by {
                if k != j {
                    assert(rows[j].id != rows[k].id);
                }
            }
            assert(left_before(rows, candidates, total, j) > cap);
        }
    }
    assert(all =~= before);
}

/// The chunks of a session that are not gone.
pub open spec fn session_left(rows: Seq<ChunkRow>, gone: Seq<bool>, session: i64) -> Seq<bool> {
    Seq::new(rows.len(), |i: int| !gone[i] && rows[i].session_id == session)
}

/// After a whole pass every dead session is within its cap, or nothing of it is
/// left.
pub proof fn law_pass_keeps_session_caps(
    rows: Seq<ChunkRow>,
    dead: Seq<i64>,
    cutoff: int,
    caps: GcCaps,
    session: i64,
)
    requires
        distinct_ids(rows),
        dead.contains(session),
    ensures
        ({
            let left = session_left(rows, doomed(rows, dead, cutoff, caps), session);
            bytes_where(rows, left) <= caps.session_bytes || forall|i: int|
                0 <= i < rows.len() ==> !#[trigger] left[i]
        }),
{
    let cap = caps.session_bytes as int;
    let marked = over_total(rows, dead, cutoff, caps.total_bytes as int);
    let part = session_part(rows, dead, marked, session);
    let total = bytes_where(rows, part);
    let gone = evictions(rows, part, total, cap);
    let left = session_left(rows, doomed(rows, dead, cutoff, caps), session);
    assert(left =~= remaining(part, gone));
    lemma_remaining(rows, part, gone);
    if exists|i: int| 0 <= i < rows.len() && #[trigger] left[i] {
        let i = choose|i: int| 0 <= i < rows.len() && #[trigger] left[i];
        assert(part[i] && !gone[i]);
        law_cap_is_kept(rows, part, total, cap, i);
    }
}

/// After a whole pass all chunks together are within the total cap, or no chunk
/// of a dead session is left.
pub proof fn law_pass_keeps_total_cap(
    rows: Seq<ChunkRow>,
    dead: Seq<i64>,
    cutoff: int,
    caps: GcCaps,
)
    requires
        distinct_ids(rows),
        forall|k: int| 0 <= k < rows.len() ==> (#[trigger] rows[k]).byte_size >= 0,
    ensures
        ({
            let left = unmarked(doomed(rows, dead, cutoff, caps));
            bytes_where(rows, left) <= caps.total_bytes || forall|i: int|
                0 <= i < rows.len() && #[trigger] left[i] ==> !dead.contains(rows[i].session_id)
        }),
{
    let cap = caps.total_bytes as int;
    let old = aged(rows, dead, cutoff);
    let pool = unmarked(old);
    let cand = deletable(rows, dead, old);
    let total = bytes_where(rows, pool);
    let gone = evictions(rows, cand, total, cap);
    let marked = over_total(rows, dead, cutoff, cap);
    let left = unmarked(doomed(rows, dead, cutoff, caps));
    if exists|i: int|
        0 <= i < rows.len() && #[trigger] left[i] && dead.contains(rows[i].session_id) {
        let i = choose|i: int|
            0 <= i < rows.len() && #[trigger] left[i] && dead.contains(rows[i].session_id);
        assert(cand[i] && !gone[i]);
        law_cap_is_kept(rows, cand, total, cap, i);
        assert forall|k: int| 0 <= k < rows.len() && #[trigger] gone[k] implies pool[k] by {
            assert(cand[k]);
        }
        lemma_remaining(rows, pool, gone);
        assert(unmarked(marked) =~= remaining(pool, gone));
        assert forall|k: int| 0 <= k < rows.len() && #[trigger] left[k] implies unmarked(
            marked,
        )[k] by {
            assert(!doomed(rows, dead, cutoff, caps)[k]);
        }
        lemma_part_of_whole(rows, left, unmarked(marked));
    }
}

/// Nothing goes that need not: each chunk that goes for a cap goes while what is
/// left is over it.
pub proof fn law_nothing_goes_under_the_cap(
    rows: Seq<ChunkRow>,
    candidates: Seq<bool>,
    total: int,
    cap: int,
    i: int,
)
    requires
        0 <= i < rows.len(),
        evicted(rows, candidates, total, cap, i),
    ensures
        left_before(rows, candidates, total, i) > cap,
{
}

/// A fresh, small store keeps everything: with nothing past its age and every
/// cap kept, no chunk goes.
pub proof fn law_small_fresh_store_is_kept(
    rows: Seq<ChunkRow>,
    dead: Seq<i64>,
    cutoff: int,
    caps: GcCaps,
    i: int,
)
    requires
        distinct_ids(rows),
        0 <= i < rows.len(),
        forall|k: int| 0 <= k < rows.len() ==> (#[trigger] rows[k]).end_time >= cutoff,
        forall|k: int| 0 <= k < rows.len() ==> (#[trigger] rows[k]).byte_size >= 0,
        bytes_where(rows, Seq::new(rows.len(), |k: int| true)) <= caps.total_bytes,
        bytes_where(rows, Seq::new(rows.len(), |k: int| true)) <= caps.session_bytes,
    ensures
        !doomed(rows, dead, cutoff, caps)[i],
{
    let every = Seq::new(rows.len(), |k: int| true);
    let old = aged(rows, dead, cutoff);
    assert(unmarked(old) =~= every);
    let first = deletable(rows, dead, old);
    let total = bytes_where(rows, every);
    lemma_under_cap(rows, first, total, caps.total_bytes as int, i);
    let marked = over_total(rows, dead, cutoff, caps.total_bytes as int);
    let session = rows[i].session_id;
    let part = session_part(rows, dead, marked, session);
    lemma_part_of_whole(rows, part, every);
    lemma_under_cap(rows, part, bytes_where(rows, part), caps.session_bytes as int, i);
}

/// The bytes of some chunks are not negative, and no more than those of more.
proof fn lemma_part_of_whole(rows: Seq<ChunkRow>, part: Seq<bool>, whole: Seq<bool>)
    requires
        part.len() == rows.len(),
        whole.len() == rows.len(),
        forall|k: int| 0 <= k < rows.len() ==> (#[trigger] rows[k]).byte_size >= 0,
        forall|k: int| 0 <= k < rows.len() && #[trigger] part[k] ==> whole[k],
    ensures
        0 <= bytes_where(rows, part) <= bytes_where(rows, whole),
    decreases rows.len(),
{
    if rows.len() > 0 {
        let p = part.drop_last();
        let w = whole.drop_last();
        assert forall|k: int| 0 <= k < rows.drop_last().len() && #[trigger] p[k] implies w[k] by {
            assert(part[k]);
        }
        lemma_part_of_whole(rows.drop_last(), p, w);
        assert(rows.last().byte_size >= 0) by {
            assert(rows[rows.len() - 1].byte_size >= 0);
        }
        assert(part.last() ==> whole.last()) by {
            assert(part[rows.len() - 1] ==> whole[rows.len() - 1]);
        }
    }
}

/// With the total under the cap and no negative size, nothing is evicted.
proof fn lemma_under_cap(rows: Seq<ChunkRow>, cand: Seq<bool>, total: int, cap: int, i: int)
    requires
        0 <= i < rows.len(),
        cand.len() == rows.len(),
        total <= cap,
        forall|k: int| 0 <= k < rows.len() ==> (#[trigger] rows[k]).byte_size >= 0,
    ensures
        !evicted(rows, cand, total, cap, i),
{
    lemma_part_of_whole(rows, older_marks(rows, cand, i), older_marks(rows, cand, i));
    assert(left_before(rows, cand, total, i) <= cap);
}

/// Chunks go by age: of two the one that ended earlier, and of two that ended together
/// the one of the lower number.
pub proof fn law_older_chunks(a: ChunkRow, b: ChunkRow)
    ensures
        a.end_time < b.end_time ==> older(a, b) && !older(b, a),
        a.end_time == b.end_time && a.id < b.id ==> older(a, b) && !older(b, a),
        a.end_time == b.end_time && a.id == b.id ==> !older(a, b),
{
}

/// A chunk goes for no other reason than these: its session is dead, and it ended before
/// the cutoff, or all chunks together are over the total cap while it and what is younger
/// is left, or its session is over its cap while it and what is younger is left.
pub proof fn law_why_a_chunk_goes(
    rows: Seq<ChunkRow>,
    dead: Seq<i64>,
    cutoff: int,
    caps: GcCaps,
    i: int,
)
    requires
        0 <= i < rows.len(),
        doomed(rows, dead, cutoff, caps)[i],
    ensures
        ({
            let old = Seq::new(
                rows.len(),
                |k: int| dead.contains(rows[k].session_id) && rows[k].end_time < cutoff,
            );
            let fresh = Seq::new(rows.len(), |k: int| !old[k]);
            let before = Seq::new(
                rows.len(),
                |k: int|
                    dead.contains(rows[k].session_id) && !old[k] && older(rows[k], rows[i]),
            );
            let marked = over_total(rows, dead, cutoff, caps.total_bytes as int);
            let mine = Seq::new(
                rows.len(),
                |k: int| !marked[k] && rows[k].session_id == rows[i].session_id,
            );
            let mine_before = Seq::new(rows.len(), |k: int| mine[k] && older(rows[k], rows[i]));
            &&& dead.contains(rows[i].session_id)
            &&& {
                ||| rows[i].end_time < cutoff
                ||| bytes_where(rows, fresh) - bytes_where(rows, before) > caps.total_bytes
                ||| bytes_where(rows, mine) - bytes_where(rows, mine_before) > caps.session_bytes
            }
        }),
{
    let old = Seq::new(
        rows.len(),
        |k: int| dead.contains(rows[k].session_id) && rows[k].end_time < cutoff,
    );
    let fresh = Seq::new(rows.len(), |k: int| !old[k]);
    let before = Seq::new(
        rows.len(),
        |k: int| dead.contains(rows[k].session_id) && !old[k] && older(rows[k], rows[i]),
    );
    let marked = over_total(rows, dead, cutoff, caps.total_bytes as int);
    let mine = Seq::new(
        rows.len(),
        |k: int| !marked[k] && rows[k].session_id == rows[i].session_id,
    );
    let mine_before = Seq::new(rows.len(), |k: int| mine[k] && older(rows[k], rows[i]));
    assert(old =~= aged(rows, dead, cutoff));
    assert(fresh =~= unmarked(old));
    let candidates = deletable(rows, dead, old);
    assert(before =~= older_marks(rows, candidates, i));
    let part = session_part(rows, dead, marked, rows[i].session_id);
    if dead.contains(rows[i].session_id) {
        assert(mine =~= part);
        assert(mine_before =~= older_marks(rows, part, i));
    }
    if marked[i] && !old[i] {
        assert(evicted(
            rows,
            candidates,
            bytes_where(rows, fresh),
            caps.total_bytes as int,
            i,
        ));
        assert(left_before(rows, candidates, bytes_where(rows, fresh), i) > caps.total_bytes);
    }
    if !marked[i] {
        assert(evicted(rows, part, bytes_where(rows, part), caps.session_bytes as int, i));
        assert(left_before(rows, part, bytes_where(rows, part), i) > caps.session_bytes);
    }
}

/// The bytes of marked chunks add up, chunk by chunk, and so does their number.
pub proof fn law_marked_chunks_add_up(rows: Seq<ChunkRow>, marked: Seq<bool>, row: ChunkRow, mark: bool)
    requires
        marked.len() == rows.len(),
    ensures
        bytes_where(rows.push(row), marked.push(mark)) == bytes_where(rows, marked) + (if mark {
            row.byte_size as int
        } else {
            0
        }),
        bytes_where(Seq::<ChunkRow>::empty(), Seq::<bool>::empty()) == 0,
        marks_count(marked.push(mark)) == marks_count(marked) + (if mark {
            1int
        } else {
            0
        }),
        marks_count(Seq::<bool>::empty()) == 0,
{
    assert(rows.push(row).drop_last() =~= rows);
    assert(marked.push(mark).drop_last() =~= marked);
}

/// The sessions of some chunks are listed, each once, and no other.
pub proof fn law_sessions_are_listed_once(rows: Seq<ChunkRow>, session: i64)
    ensures
        row_sessions(rows).contains(session) <==> exists|i: int|
            0 <= i < rows.len() && (#[trigger] rows[i]).session_id == session,
        row_sessions(rows).no_duplicates(),
    decreases rows.len(),
{
    lemma_row_sessions(rows);
    if rows.len() > 0 {
        let rest = rows.drop_last();
        law_sessions_are_listed_once(rest, session);
        if row_sessions(rows).contains(session) {
            if row_sessions(rest).contains(session) {
                let i = choose|i: int|
                    0 <= i < rest.len() && (#[trigger] rest[i]).session_id == session;
                assert(rows[i].session_id == session);
            } else {
                let all = row_sessions(rows);
                let k = choose|k: int| 0 <= k < all.len() && all[k] == session;
                if k < row_sessions(rest).len() {
                    assert(row_sessions(rest)[k] == session);
                }
                assert(rows[rows.len() - 1].session_id == session);
            }
        }
    }
}

/// A session counts as live unless it is proved dead.
pub proof fn law_live_sessions_are_counted(sessions: Seq<i64>, dead: Seq<i64>, session: i64)
    ensures
        live_count(sessions.push(session), dead) == live_count(sessions, dead) + (if dead.contains(
            session,
        ) {
            0int
        } else {
            1
        }),
        live_count(Seq::<i64>::empty(), dead) == 0,
{
    assert(sessions.push(session).drop_last() =~= sessions);
}

/// A file that was being written is one with a name and the ending `.tmp`.
pub proof fn law_files_that_were_being_written(name: Seq<char>)
    ensures
        name.len() > 0 ==> temp_name(name + seq!['.', 't', 'm', 'p']),
        temp_name(name) ==> name.len() > 4 && name[name.len() - 4] == '.' && name[name.len() - 3]
            == 't' && name[name.len() - 2] == 'm' && name[name.len() - 1] == 'p',
{
    let tmp = seq!['.', 't', 'm', 'p'];
    let all = name + tmp;
    assert(all.skip(all.len() - 4) =~= tmp);
    if temp_name(name) {
        let tail = name.skip(name.len() - 4);
        assert(tail[0] == tmp[0] && tail[1] == tmp[1] && tail[2] == tmp[2] && tail[3] == tmp[3]);
    }
}

/// A chunk is kept for 30 days, a session for 200 MiB, all together for 2 GiB, and the
/// history for 50000 commands.
pub proof fn law_limits()
    ensures
        RETENTION_DAYS == 30,
        RETENTION_MS == 30 * 24 * 60 * 60 * 1000,
        SESSION_CHUNK_CAP_BYTES == 200 * 1024 * 1024,
        TOTAL_SCROLLBACK_CAP_BYTES == 2 * 1024 * 1024 * 1024,
        RUNS_CAP == 50_000,
{
}

/// Only a lock that was free proves a session dead; a try that was interrupted is made
/// again, and one that failed proves nothing.
pub proof fn law_what_proves_a_session_dead(
    attempt: LockAttempt,
    dead: bool,
    reply: LockReply,
    judged: Option<LockAttempt>,
)
    requires
        call_ensures(proves_dead, (attempt,), dead),
        call_ensures(judge_lock_reply, (reply,), judged),
    ensures
        dead <==> attempt == LockAttempt::Acquired,
        judged == Some(LockAttempt::Acquired) <==> reply == LockReply::Taken,
        judged == Some(LockAttempt::Held) <==> reply == LockReply::Contended,
        judged == Some(LockAttempt::Failed) <==> reply == LockReply::Fault,
        judged is None <==> reply == LockReply::Interrupted,
{
}

} // verus!
