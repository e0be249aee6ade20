//! The queue store: tasks with a kind, an opaque payload, a lifecycle state
//! and timestamps, and the transitions between those states.

use vstd::prelude::*;
use crate::text::{chars_of, same_chars, string_of};
use crate::worker::{ERR_MALFORMED_PAYLOAD, ERR_NO_DOMAIN, ERR_UNKNOWN_KIND, ERR_UNSUPPORTED_DOMAIN};

verus! {

/// Lifecycle state of a task.
#[derive(PartialEq, Eq, Structural, Clone, Copy, Debug)]
pub enum TaskState {
    Wait,
    Wip,
    Error,
    Done,
    Fail,
}

/// The stable text that stands for each state.
pub open spec fn state_wire(s: TaskState) -> Seq<char> {
    match s {
        TaskState::Wait => seq!['W', 'A', 'I', 'T'],
        TaskState::Wip => seq!['W', 'I', 'P'],
        TaskState::Error => seq!['E', 'R', 'R'],
        TaskState::Done => seq!['D', 'O', 'N', 'E'],
        TaskState::Fail => seq!['F', 'A', 'I', 'L'],
    }
}

impl TaskState {
    /// The wire text of this state.
    pub fn wire(&self) -> (r: String)
        ensures
            r@ == state_wire(*self),
    {
        let v = match self {
            TaskState::Wait => vec!['W', 'A', 'I', 'T'],
            TaskState::Wip => vec!['W', 'I', 'P'],
            TaskState::Error => vec!['E', 'R', 'R'],
            TaskState::Done => vec!['D', 'O', 'N', 'E'],
            TaskState::Fail => vec!['F', 'A', 'I', 'L'],
        };
        assert(v@ =~= state_wire(*self));
        string_of(&v)
    }

    /// The state whose wire text is `s`, if any.
    pub fn from_wire(s: &str) -> (r: Option<TaskState>)
        ensures
            match r {
                Some(st) => state_wire(st) == s@,
                None => forall|st: TaskState| state_wire(st) != s@,
            },
    {
        let c = chars_of(s);
        let all = vec![TaskState::Wait, TaskState::Wip, TaskState::Error, TaskState::Done, TaskState::Fail];
        let mut i: usize = 0;
        while i < all.len()
            invariant
                i <= all.len(),
                c@ == s@,
                all@ == seq![TaskState::Wait, TaskState::Wip, TaskState::Error, TaskState::Done, TaskState::Fail],
                forall|k: int| 0 <= k < i ==> state_wire(#[trigger] all@[k]) != s@,
            decreases all.len() - i,
        {
            let st = all[i];
            let w = st.wire();
            if same_chars(&chars_of(w.as_str()), &c) {
                return Some(st);
            }
            i = i + 1;
        }
        assert forall|st: TaskState| state_wire(st) != s@ by {
            match st {
                TaskState::Wait => assert(state_wire(all@[0]) != s@),
                TaskState::Wip => assert(state_wire(all@[1]) != s@),
                TaskState::Error => assert(state_wire(all@[2]) != s@),
                TaskState::Done => assert(state_wire(all@[3]) != s@),
                TaskState::Fail => assert(state_wire(all@[4]) != s@),
            }
        }
        None
    }
}

/// The operation a task performs.
#[derive(PartialEq, Eq, Structural, Clone, Copy, Debug)]
pub enum TaskKind {
    VideoDownload,
    ChannelAdd,
    ChannelFetch,
}

/// The stable, case-sensitive text that stands for each kind.
pub open spec fn kind_wire(k: TaskKind) -> Seq<char> {
    match k {
        TaskKind::VideoDownload => seq![
            'V', 'I', 'D', 'E', 'O', '-', 'D', 'O', 'W', 'N', 'L', 'O', 'A', 'D',
        ],
        TaskKind::ChannelAdd => seq!['C', 'H', 'A', 'N', 'N', 'E', 'L', '-', 'A', 'D', 'D'],
        TaskKind::ChannelFetch => seq![
            'C', 'H', 'A', 'N', 'N', 'E', 'L', '-', 'F', 'E', 'T', 'C', 'H',
        ],
    }
}

impl TaskKind {
    /// The wire text of this kind.
    pub fn wire(&self) -> (r: String)
        ensures
            r@ == kind_wire(*self),
    {
        let v = match self {
            TaskKind::VideoDownload => vec![
                'V', 'I', 'D', 'E', 'O', '-', 'D', 'O', 'W', 'N', 'L', 'O', 'A', 'D',
            ],
            TaskKind::ChannelAdd => vec!['C', 'H', 'A', 'N', 'N', 'E', 'L', '-', 'A', 'D', 'D'],
            TaskKind::ChannelFetch => vec![
                'C', 'H', 'A', 'N', 'N', 'E', 'L', '-', 'F', 'E', 'T', 'C', 'H',
            ],
        };
        assert(v@ =~= kind_wire(*self));
        string_of(&v)
    }

    /// The kind whose wire text is `s`, if any.
    pub fn from_wire(s: &str) -> (r: Option<TaskKind>)
        ensures
            match r {
                Some(k) => kind_wire(k) == s@,
                None => forall|k: TaskKind| kind_wire(k) != s@,
            },
    {
        let c = chars_of(s);
        let all = vec![TaskKind::VideoDownload, TaskKind::ChannelAdd, TaskKind::ChannelFetch];
        let mut i: usize = 0;
        while i < all.len()
            invariant
                i <= all.len(),
                c@ == s@,
                all@ == seq![TaskKind::VideoDownload, TaskKind::ChannelAdd, TaskKind::ChannelFetch],
                forall|j: int| 0 <= j < i ==> kind_wire(#[trigger] all@[j]) != s@,
            decreases all.len() - i,
        {
            let k = all[i];
            let w = k.wire();
            if same_chars(&chars_of(w.as_str()), &c) {
                return Some(k);
            }
            i = i + 1;
        }
        assert forall|k: TaskKind| kind_wire(k) != s@ by {
            match k {
                TaskKind::VideoDownload => assert(kind_wire(all@[0]) != s@),
                TaskKind::ChannelAdd => assert(kind_wire(all@[1]) != s@),
                TaskKind::ChannelFetch => assert(kind_wire(all@[2]) != s@),
            }
        }
        None
    }
}


/// A unit of queued work. Timestamps are seconds on the store's clock.
pub struct Task {
    pub id: isize,
    pub kind: String,
    pub payload: String,
    pub state: TaskState,
    pub retry_count: u32,
    /// The code of the last failure, 0 while there was none.
    pub error_code: isize,
    pub created_at: u64,
    pub updated_at: u64,
}

/// Whether the identifiers of `ts` increase strictly along the sequence.
pub open spec fn ids_increasing(ts: Seq<Task>) -> bool {
    forall|i: int, j: int| 0 <= i < j < ts.len() ==> (#[trigger] ts[i]).id < (#[trigger] ts[j]).id
}

/// The identifiers of the waiting tasks, in queue order.
pub open spec fn waiting_ids(ts: Seq<Task>) -> Seq<isize>
    decreases ts.len(),
{
    if ts.len() == 0 {
        seq![]
    } else if ts.last().state == TaskState::Wait {
        waiting_ids(ts.drop_last()).push(ts.last().id)
    } else {
        waiting_ids(ts.drop_last())
    }
}

/// Whether a task may move from `from` to `to` by [`TaskQueue::mark`]: a
/// waiting task is claimed or refused, a claimed task ends in DONE or ERR.
/// Every other pair, a terminal task in particular, is left as it is.
pub open spec fn may_mark(from: TaskState, to: TaskState) -> bool {
    (from == TaskState::Wait && (to == TaskState::Wip || to == TaskState::Error)) || (from
        == TaskState::Wip && (to == TaskState::Done || to == TaskState::Error))
}

/// A task after `mark(id, to, now)`.
pub open spec fn marked_task(t: Task, id: isize, to: TaskState, now: u64) -> Task {
    if t.id == id && may_mark(t.state, to) {
        Task { state: to, updated_at: now, ..t }
    } else {
        t
    }
}

/// The tasks after `mark(id, to, now)`.
pub open spec fn marked(ts: Seq<Task>, id: isize, to: TaskState, now: u64) -> Seq<Task> {
    ts.map_values(|t: Task| marked_task(t, id, to, now))
}

/// Whether a failure code marks a task that no retry can mend: its payload
/// is malformed, its domain is not supported, or its kind is unknown.
pub open spec fn is_permanent(code: isize) -> bool {
    code == ERR_MALFORMED_PAYLOAD || code == ERR_UNSUPPORTED_DOMAIN || code == ERR_NO_DOMAIN || code
        == ERR_UNKNOWN_KIND
}

/// The tasks after the failure code of task `id` is noted as `code`.
pub open spec fn with_code(ts: Seq<Task>, id: isize, code: isize) -> Seq<Task> {
    ts.map_values(|t: Task| if t.id == id { Task { error_code: code, ..t } } else { t })
}

/// A task after the retry step: a failed task goes back to WAIT with one
/// more retry while it has retries left, and to FAIL once it has none. A
/// task that failed for good stays in ERR; other tasks are unchanged.
pub open spec fn retried(t: Task, limit: u32, now: u64) -> Task {
    if t.state != TaskState::Error || is_permanent(t.error_code) {
        t
    } else if t.retry_count < limit {
        Task { state: TaskState::Wait, retry_count: (t.retry_count + 1) as u32, updated_at: now, ..t }
    } else {
        Task { state: TaskState::Fail, updated_at: now, ..t }
    }
}

/// Whether a finished task is past the retention window at `now`.
pub open spec fn is_stale(t: Task, now: u64, retention: u64) -> bool {
    (t.state == TaskState::Done || t.state == TaskState::Fail) && t.updated_at + retention <= now
}

/// The queue store: tasks in order of identifier, and the next identifier
/// to hand out.
pub struct TaskQueue {
    pub tasks: Vec<Task>,
    pub next_id: isize,
}

impl TaskQueue {
    /// Identifiers increase along the queue, and all lie below `next_id`.
    pub open spec fn wf(&self) -> bool {
        &&& ids_increasing(self.tasks@)
        &&& 1 <= self.next_id
        &&& forall|i: int| 0 <= i < self.tasks@.len() ==> 1 <= #[trigger] self.tasks@[i].id < self.next_id
    }

    /// Whether the queue holds a task with identifier `id`.
    pub open spec fn has(&self, id: isize) -> bool {
        exists|i: int| 0 <= i < self.tasks@.len() && (#[trigger] self.tasks@[i]).id == id
    }

    /// Whether the task with identifier `id` is in state `s`.
    pub open spec fn in_state(&self, id: isize, s: TaskState) -> bool {
        exists|i: int|
            0 <= i < self.tasks@.len() && (#[trigger] self.tasks@[i]).id == id && self.tasks@[i].state == s
    }

    /// An empty queue.
    pub fn new() -> (r: TaskQueue)
        ensures
            r.wf(),
            r.tasks@.len() == 0,
            r.next_id == 1,
    {
        TaskQueue { tasks: Vec::new(), next_id: 1 }
    }

    /// Appends a waiting task and returns its identifier.
    pub fn enqueue(&mut self, kind: String, payload: String, now: u64) -> (id: isize)
        requires
            old(self).wf(),
            old(self).next_id < isize::MAX,
        ensures
            final(self).wf(),
            id == old(self).next_id,
            final(self).next_id == id + 1,
            final(self).tasks@ == old(self).tasks@.push(
                Task {
                    id,
                    kind,
                    payload,
                    state: TaskState::Wait,
                    retry_count: 0,
                    error_code: 0,
                    created_at: now,
                    updated_at: now,
                },
            ),
    {
        let id = self.next_id;
        let t = Task {
            id,
            kind,
            payload,
            state: TaskState::Wait,
            retry_count: 0,
            error_code: 0,
            created_at: now,
            updated_at: now,
        };
        self.tasks.push(t);
        self.next_id = id + 1;
        id
    }

    /// Takes in a task that the store already holds, such as a row read back
    /// at startup or inserted by another writer. It is accepted when its
    /// identifier is above every identifier in the queue.
    pub fn restore(&mut self, task: Task) -> (accepted: bool)
        requires
            old(self).wf(),
        ensures
            final(self).wf(),
            accepted == (old(self).next_id <= task.id && task.id < isize::MAX),
            accepted ==> final(self).tasks@ == old(self).tasks@.push(task) && final(self).next_id
                == task.id + 1,
            !accepted ==> *final(self) == *old(self),
    {
        if task.id < self.next_id || task.id == isize::MAX {
            return false;
        }
        let id = task.id;
        self.tasks.push(task);
        self.next_id = id + 1;
        true
    }

    /// The position of the task with identifier `id`.
    pub fn position(&self, id: isize) -> (r: Option<usize>)
        ensures
            match r {
                Some(i) => i < self.tasks@.len() && self.tasks@[i as int].id == id,
                None => !self.has(id),
            },
    {
        let mut i: usize = 0;
        while i < self.tasks.len()
            invariant
                i <= self.tasks.len(),
                forall|k: int| 0 <= k < i ==> (#[trigger] self.tasks@[k]).id != id,
            decreases self.tasks.len() - i,
        {
            if self.tasks[i].id == id {
                return Some(i);
            }
            i = i + 1;
        }
        None
    }

    /// The state of the task with identifier `id`.
    pub fn state_of(&self, id: isize) -> (r: Option<TaskState>)
        requires
            self.wf(),
        ensures
            match r {
                Some(s) => self.in_state(id, s),
                None => !self.has(id),
            },
    {
        match self.position(id) {
            Some(i) => Some(self.tasks[i].state),
            None => None,
        }
    }

    /// The identifiers of at most `limit` waiting tasks, oldest first. Only
    /// this call selects waiting work for dispatch.
    pub fn claim_waiting(&self, limit: usize) -> (r: Vec<isize>)
        ensures
            r@ == waiting_ids(self.tasks@).take(
                if limit < waiting_ids(self.tasks@).len() {
                    limit as int
                } else {
                    waiting_ids(self.tasks@).len() as int
                },
            ),
    {
        let mut r: Vec<isize> = Vec::new();
        let mut i: usize = 0;
        while i < self.tasks.len() && r.len() < limit
            invariant
                i <= self.tasks.len(),
                r.len() <= limit,
                r@ == waiting_ids(self.tasks@.take(i as int)),
            decreases self.tasks.len() - i,
        {
            assert(self.tasks@.take(i + 1).drop_last() =~= self.tasks@.take(i as int));
            if self.tasks[i].state == TaskState::Wait {
                r.push(self.tasks[i].id);
            }
            i = i + 1;
        }
        proof {
            lemma_waiting_prefix(self.tasks@, i as int);
            if i == self.tasks.len() {
                assert(self.tasks@.take(i as int) =~= self.tasks@);
            }
        }
        r
    }

    /// Moves the task with identifier `id` to `to` when [`may_mark`] allows
    /// it, stamping `now`; returns whether it moved. Any other call, on a
    /// finished task in particular, changes nothing.
    pub fn mark(&mut self, id: isize, to: TaskState, now: u64) -> (moved: bool)
        requires
            old(self).wf(),
        ensures
            final(self).wf(),
            final(self).next_id == old(self).next_id,
            final(self).tasks@.len() == old(self).tasks@.len(),
            moved == exists|i: int|
                0 <= i < old(self).tasks@.len() && (#[trigger] old(self).tasks@[i]).id == id
                    && may_mark(old(self).tasks@[i].state, to),
            final(self).tasks@ == marked(old(self).tasks@, id, to, now),
    {
        match self.position(id) {
            None => {
                assert(self.tasks@ =~= marked(old(self).tasks@, id, to, now));
                false
            },
            Some(i) => {
                proof {
                    lemma_unique_position(self.tasks@, i as int);
                }
                let from = self.tasks[i].state;
                if (from == TaskState::Wait && (to == TaskState::Wip || to == TaskState::Error)) || (
                from == TaskState::Wip && (to == TaskState::Done || to == TaskState::Error)) {
                    let mut t = self.tasks.remove(i);
                    t.state = to;
                    t.updated_at = now;
                    self.tasks.insert(i, t);
                    assert(self.tasks@ =~= marked(old(self).tasks@, id, to, now));
                    true
                } else {
                    assert(self.tasks@ =~= marked(old(self).tasks@, id, to, now));
                    false
                }
            },
        }
    }

    /// Notes `code` as the failure code of the task with identifier `id`.
    pub fn note_error(&mut self, id: isize, code: isize)
        requires
            old(self).wf(),
        ensures
            final(self).wf(),
            final(self).next_id == old(self).next_id,
            final(self).tasks@ == with_code(old(self).tasks@, id, code),
    {
        let ghost before = self.tasks@;
        let mut i: usize = 0;
        while i < self.tasks.len()
            invariant
                i <= self.tasks.len() == before.len(),
                self.next_id == old(self).next_id,
                before == old(self).tasks@,
                forall|k: int| 0 <= k < i ==> #[trigger] self.tasks@[k] == (if before[k].id == id { Task { error_code: code, ..before[k] } } else { before[k] }),
                forall|k: int| i <= k < before.len() ==> #[trigger] self.tasks@[k] == before[k],
            decreases before.len() - i,
        {
            if self.tasks[i].id == id {
                self.tasks[i].error_code = code;
            }
            i = i + 1;
        }
        assert(self.tasks@ =~= with_code(before, id, code));
    }

    /// The retry step: each failed task goes back to WAIT with one more
    /// retry while its count is below `limit`, and to FAIL once it is not;
    /// a task that failed for good stays in ERR.
    pub fn retry_failed(&mut self, limit: u32, now: u64)
        requires
            old(self).wf(),
        ensures
            final(self).wf(),
            final(self).next_id == old(self).next_id,
            final(self).tasks@ == old(self).tasks@.map_values(|t: Task| retried(t, limit, now)),
    {
        let ghost before = self.tasks@;
        let mut i: usize = 0;
        while i < self.tasks.len()
            invariant
                i <= self.tasks.len() == before.len(),
                self.next_id == old(self).next_id,
                before == old(self).tasks@,
                forall|k: int| 0 <= k < i ==> #[trigger] self.tasks@[k] == retried(before[k], limit, now),
                forall|k: int| i <= k < before.len() ==> #[trigger] self.tasks@[k] == before[k],
            decreases before.len() - i,
        {
            let code = self.tasks[i].error_code;
            let permanent = code == ERR_MALFORMED_PAYLOAD || code == ERR_UNSUPPORTED_DOMAIN || code
                == ERR_NO_DOMAIN || code == ERR_UNKNOWN_KIND;
            if self.tasks[i].state == TaskState::Error && !permanent {
                if self.tasks[i].retry_count < limit {
                    self.tasks[i].state = TaskState::Wait;
                    self.tasks[i].retry_count = self.tasks[i].retry_count + 1;
                } else {
                    self.tasks[i].state = TaskState::Fail;
                }
                self.tasks[i].updated_at = now;
            }
            i = i + 1;
        }
        assert(self.tasks@ =~= before.map_values(|t: Task| retried(t, limit, now)));
    }

    /// Moves every claimed task to ERR: used when the queue is read back
    /// after a stop, since no worker holds those tasks any more.
    pub fn release_abandoned(&mut self, now: u64)
        requires
            old(self).wf(),
        ensures
            final(self).wf(),
            final(self).next_id == old(self).next_id,
            final(self).tasks@.len() == old(self).tasks@.len(),
            forall|k: int|
                0 <= k < old(self).tasks@.len() ==> #[trigger] final(self).tasks@[k] == if old(
                    self,
                ).tasks@[k].state == TaskState::Wip {
                    Task { state: TaskState::Error, updated_at: now, ..old(self).tasks@[k] }
                } else {
                    old(self).tasks@[k]
                },
            forall|k: int|
                0 <= k < final(self).tasks@.len() ==> (#[trigger] final(self).tasks@[k]).state
                    != TaskState::Wip,
    {
        let ghost before = self.tasks@;
        let mut i: usize = 0;
        while i < self.tasks.len()
            invariant
                i <= self.tasks.len() == before.len(),
                self.next_id == old(self).next_id,
                before == old(self).tasks@,
                forall|k: int|
                    0 <= k < i ==> #[trigger] self.tasks@[k] == if before[k].state == TaskState::Wip {
                        Task { state: TaskState::Error, updated_at: now, ..before[k] }
                    } else {
                        before[k]
                    },
                forall|k: int| i <= k < before.len() ==> #[trigger] self.tasks@[k] == before[k],
            decreases before.len() - i,
        {
            if self.tasks[i].state == TaskState::Wip {
                self.tasks[i].state = TaskState::Error;
                self.tasks[i].updated_at = now;
            }
            i = i + 1;
        }
    }

    /// Deletes the DONE and FAIL tasks last stamped `retention` seconds or
    /// more before `now`.
    pub fn sweep_stale(&mut self, now: u64, retention: u64)
        requires
            old(self).wf(),
        ensures
            final(self).wf(),
            final(self).next_id == old(self).next_id,
            final(self).tasks@ == old(self).tasks@.filter(|t: Task| !is_stale(t, now, retention)),
    {
        let ghost before = self.tasks@;
        let ghost keep = |t: Task| !is_stale(t, now, retention);
        let mut i: usize = self.tasks.len();
        assert(before.skip(i as int) =~= Seq::<Task>::empty());
        assert(before.take(i as int) =~= before);
        while i > 0
            invariant
                i <= before.len(),
                before == old(self).tasks@,
                self.next_id == old(self).next_id,
                self.wf(),
                keep == (|t: Task| !is_stale(t, now, retention)),
                self.tasks@ == before.take(i as int) + before.skip(i as int).filter(keep),
            decreases i,
        {
            let j = i - 1;
            proof {
                before.skip(j as int).drop_first().lemma_filter_prepend(before[j as int], keep);
                assert(before.skip(j as int) =~= seq![before[j as int]] + before.skip(i as int));
                assert(before.skip(j as int).drop_first() =~= before.skip(i as int));
                assert(before.take(i as int) =~= before.take(j as int).push(before[j as int]));
                assert(self.tasks@[j as int] == before[j as int]);
            }
            let stale = (self.tasks[j].state == TaskState::Done || self.tasks[j].state
                == TaskState::Fail) && self.tasks[j].updated_at as u128 + retention as u128
                <= now as u128;
            if stale {
                let ghost prev = self.tasks@;
                self.tasks.remove(j);
                assert(self.tasks@ =~= before.take(j as int) + before.skip(j as int).filter(keep));
                assert forall|a: int, b: int| 0 <= a < b < self.tasks@.len() implies (
                #[trigger] self.tasks@[a]).id < (#[trigger] self.tasks@[b]).id by {
                    let pa = if a < j { a } else { a + 1 };
                    let pb = if b < j { b } else { b + 1 };
                    assert(self.tasks@[a] == prev[pa]);
                    assert(self.tasks@[b] == prev[pb]);
                }
                assert forall|k: int| 0 <= k < self.tasks@.len() implies 1 <= #[trigger] self.tasks@[k].id
                    < self.next_id by {
                    let pk = if k < j { k } else { k + 1 };
                    assert(self.tasks@[k] == prev[pk]);
                }
            } else {
                assert(self.tasks@ =~= before.take(j as int) + before.skip(j as int).filter(keep));
            }
            i = j;
        }
        assert(before.skip(0) =~= before);
        assert(before.take(0) =~= Seq::<Task>::empty());
        assert(self.tasks@ =~= before.filter(keep));
    }
}

proof fn lemma_unique_position(ts: Seq<Task>, i: int)
    requires
        ids_increasing(ts),
        0 <= i < ts.len(),
    ensures
        forall|j: int| 0 <= j < ts.len() && j != i ==> (#[trigger] ts[j]).id != ts[i].id,
{
    assert forall|j: int| 0 <= j < ts.len() && j != i implies (#[trigger] ts[j]).id != ts[i].id by {
        if j < i {
            assert(ts[j].id < ts[i].id);
        } else {
            assert(ts[i].id < ts[j].id);
        }
    }
}

proof fn lemma_waiting_prefix(ts: Seq<Task>, i: int)
    requires
        0 <= i <= ts.len(),
    ensures
        waiting_ids(ts.take(i)).len() <= waiting_ids(ts).len(),
        waiting_ids(ts.take(i)) == waiting_ids(ts).take(waiting_ids(ts.take(i)).len() as int),
    decreases ts.len() - i,
{
    if i < ts.len() {
        lemma_waiting_prefix(ts, i + 1);
        assert(ts.take(i + 1).drop_last() =~= ts.take(i));
        let a = waiting_ids(ts.take(i));
        let b = waiting_ids(ts.take(i + 1));
        assert(a =~= b.take(a.len() as int));
    } else {
        assert(ts.take(i) =~= ts);
    }
}

} // verus!
