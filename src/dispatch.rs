//! The dispatcher: claims waiting tasks up to a concurrency budget, hands
//! them to workers, and records the single outcome each worker reports.
//! The loop around it (sleeping, spawning, draining a channel) runs it one
//! tick and one outcome at a time.

use vstd::prelude::*;
use crate::worker::ERR_UNKNOWN_KIND;
use crate::queue::{
    ids_increasing, is_permanent, is_stale, kind_wire, marked, with_code, marked_task, may_mark, retried, waiting_ids, Task, TaskKind, TaskQueue,
    TaskState,
};

verus! {

/// The outcome a worker reports for its task: success, or failure with a
/// negative error code.
#[derive(PartialEq, Eq, Structural, Clone, Copy, Debug)]
pub enum TaskResult {
    Success(isize),
    Failure(isize, isize),
}

impl TaskResult {
    /// The task the outcome is for.
    pub open spec fn task_id(self) -> isize {
        match self {
            TaskResult::Success(id) => id,
            TaskResult::Failure(id, _) => id,
        }
    }

    /// The tasks after this outcome is recorded: the task ends its attempt,
    /// and a failure notes its code.
    pub open spec fn applied(self, ts: Seq<Task>, now: u64) -> Seq<Task> {
        match self {
            TaskResult::Success(id) => marked(ts, id, TaskState::Done, now),
            TaskResult::Failure(id, code) => with_code(marked(ts, id, TaskState::Error, now), id, code),
        }
    }

    /// The state the task ends its attempt in.
    pub open spec fn end_state(self) -> TaskState {
        match self {
            TaskResult::Success(_) => TaskState::Done,
            TaskResult::Failure(_, _) => TaskState::Error,
        }
    }
}

/// A claimed task to hand to the worker for its kind.
pub struct Launch {
    pub task_id: isize,
    pub kind: TaskKind,
    pub payload: String,
}

/// Whether the task with identifier `id` is claimed in `ts`.
pub open spec fn is_wip(ts: Seq<Task>, id: isize) -> bool {
    exists|i: int| 0 <= i < ts.len() && (#[trigger] ts[i]).id == id && ts[i].state == TaskState::Wip
}

/// Whether the task with identifier `id` is waiting in `ts`.
pub open spec fn is_waiting(ts: Seq<Task>, id: isize) -> bool {
    exists|i: int| 0 <= i < ts.len() && (#[trigger] ts[i]).id == id && ts[i].state == TaskState::Wait
}

/// The identifiers of `ls`, in order.
pub open spec fn launch_ids(ls: Seq<Launch>) -> Seq<isize> {
    ls.map_values(|l: Launch| l.task_id)
}

/// Whether `s` increases strictly.
pub open spec fn increasing(s: Seq<isize>) -> bool {
    forall|i: int, j: int| 0 <= i < j < s.len() ==> s[i] < s[j]
}

proof fn lemma_waiting_ids(ts: Seq<Task>)
    requires
        ids_increasing(ts),
    ensures
        increasing(waiting_ids(ts)),
        forall|k: int| 0 <= k < waiting_ids(ts).len() ==> is_waiting(ts, #[trigger] waiting_ids(ts)[k]),
        forall|k: int| 0 <= k < waiting_ids(ts).len() ==> exists|i: int| 0 <= i < ts.len() && (#[trigger] waiting_ids(ts)[k]) == ts[i].id,
    decreases ts.len(),
{
    if ts.len() > 0 {
        let init = ts.drop_last();
        assert(ids_increasing(init)) by {
            assert forall|i: int, j: int| 0 <= i < j < init.len() implies (#[trigger] init[i]).id < (#[trigger] init[j]).id by {
                assert(init[i] == ts[i] && init[j] == ts[j]);
            }
        }
        lemma_waiting_ids(init);
        let w = waiting_ids(init);
        assert forall|k: int| 0 <= k < w.len() implies is_waiting(ts, #[trigger] w[k]) by {
            let i = choose|i: int| 0 <= i < init.len() && (#[trigger] init[i]).id == w[k] && init[i].state == TaskState::Wait;
            assert(ts[i] == init[i]);
        }
        assert forall|k: int| 0 <= k < w.len() implies exists|i: int| 0 <= i < ts.len() && (#[trigger] w[k]) == ts[i].id by {
            let i = choose|i: int| 0 <= i < init.len() && (#[trigger] w[k]) == init[i].id;
            assert(ts[i] == init[i]);
        }
        if ts.last().state == TaskState::Wait {
            let l = ts.len() - 1;
            assert forall|k: int| 0 <= k < w.len() implies (#[trigger] w[k]) < ts[l].id by {
                let i = choose|i: int| 0 <= i < init.len() && (#[trigger] w[k]) == init[i].id;
                assert(ts[i] == init[i]);
                assert(ts[i].id < ts[l].id);
            }
            let w2 = waiting_ids(ts);
            assert(w2 == w.push(ts[l].id));
            assert forall|k: int| 0 <= k < w2.len() implies is_waiting(ts, #[trigger] w2[k]) by {
                if k < w.len() {
                    assert(w2[k] == w[k]);
                } else {
                    assert(ts[l].id == w2[k]);
                }
            }
            assert forall|k: int| 0 <= k < w2.len() implies exists|i: int| 0 <= i < ts.len() && (#[trigger] w2[k]) == ts[i].id by {
                if k < w.len() {
                    assert(w2[k] == w[k]);
                } else {
                    assert(ts[l].id == w2[k]);
                }
            }
            assert forall|i: int, j: int| 0 <= i < j < w2.len() implies w2[i] < w2[j] by {
                if j < w.len() {
                    assert(w2[i] == w[i] && w2[j] == w[j]);
                } else {
                    assert(w2[i] == w[i]);
                    assert(w[i] < ts[l].id);
                }
            }
        }
    }
}

proof fn lemma_marked_other(ts: Seq<Task>, id: isize, to: TaskState, now: u64, other: isize)
    requires
        other != id,
    ensures
        is_wip(marked(ts, id, to, now), other) == is_wip(ts, other),
        is_waiting(marked(ts, id, to, now), other) == is_waiting(ts, other),
{
    let m = marked(ts, id, to, now);
    if is_wip(ts, other) {
        let i = choose|i: int| 0 <= i < ts.len() && (#[trigger] ts[i]).id == other && ts[i].state == TaskState::Wip;
        assert(m[i] == marked_task(ts[i], id, to, now));
    }
    if is_wip(m, other) {
        let i = choose|i: int| 0 <= i < m.len() && (#[trigger] m[i]).id == other && m[i].state == TaskState::Wip;
        assert(m[i] == marked_task(ts[i], id, to, now));
    }
    if is_waiting(ts, other) {
        let i = choose|i: int| 0 <= i < ts.len() && (#[trigger] ts[i]).id == other && ts[i].state == TaskState::Wait;
        assert(m[i] == marked_task(ts[i], id, to, now));
    }
    if is_waiting(m, other) {
        let i = choose|i: int| 0 <= i < m.len() && (#[trigger] m[i]).id == other && m[i].state == TaskState::Wait;
        assert(m[i] == marked_task(ts[i], id, to, now));
    }
}

proof fn lemma_marked_self(ts: Seq<Task>, id: isize, to: TaskState, now: u64)
    requires
        ids_increasing(ts),
    ensures
        is_waiting(ts, id) && may_mark(TaskState::Wait, to) ==> !is_waiting(marked(ts, id, to, now), id),
        is_waiting(ts, id) && may_mark(TaskState::Wait, to) ==> (is_wip(marked(ts, id, to, now), id) <==> to == TaskState::Wip),
        is_wip(ts, id) && may_mark(TaskState::Wip, to) ==> !is_wip(marked(ts, id, to, now), id),
        is_wip(ts, id) && may_mark(TaskState::Wip, to) ==> exists|i: int| 0 <= i < ts.len() && (#[trigger] marked(ts, id, to, now)[i]).id == id && marked(ts, id, to, now)[i].state == to,
{
    let m = marked(ts, id, to, now);
    assert forall|i: int, j: int| 0 <= i < ts.len() && 0 <= j < ts.len() && ts[i].id == id && ts[j].id == id implies i == j by {
        if i < j {
            assert(ts[i].id < ts[j].id);
        } else if j < i {
            assert(ts[j].id < ts[i].id);
        }
    }
    if is_waiting(ts, id) && may_mark(TaskState::Wait, to) {
        let i = choose|i: int| 0 <= i < ts.len() && (#[trigger] ts[i]).id == id && ts[i].state == TaskState::Wait;
        assert(m[i] == marked_task(ts[i], id, to, now));
        if is_waiting(m, id) {
            let j = choose|j: int| 0 <= j < m.len() && (#[trigger] m[j]).id == id && m[j].state == TaskState::Wait;
            assert(m[j] == marked_task(ts[j], id, to, now));
        }
        if is_wip(m, id) {
            let j = choose|j: int| 0 <= j < m.len() && (#[trigger] m[j]).id == id && m[j].state == TaskState::Wip;
            assert(m[j] == marked_task(ts[j], id, to, now));
        }
    }
    if is_wip(ts, id) && may_mark(TaskState::Wip, to) {
        let i = choose|i: int| 0 <= i < ts.len() && (#[trigger] ts[i]).id == id && ts[i].state == TaskState::Wip;
        assert(m[i] == marked_task(ts[i], id, to, now));
        if is_wip(m, id) {
            let j = choose|j: int| 0 <= j < m.len() && (#[trigger] m[j]).id == id && m[j].state == TaskState::Wip;
            assert(m[j] == marked_task(ts[j], id, to, now));
        }
    }
}

/// Whether a task's kind is one the workers know.
pub open spec fn known_kind(t: Task) -> bool {
    exists|k: TaskKind| kind_wire(k) == t.kind@
}

/// Whether `l` launches a task of `ts` with its kind and payload.
pub open spec fn launches_task(ts: Seq<Task>, l: Launch) -> bool {
    exists|i: int|
        0 <= i < ts.len() && (#[trigger] ts[i]).id == l.task_id && kind_wire(l.kind) == ts[i].kind@
            && l.payload@ == ts[i].payload@
}

/// Whether the task with identifier `id` in `ts` has a known kind.
pub open spec fn known_id(ts: Seq<Task>, id: isize) -> bool {
    exists|i: int| 0 <= i < ts.len() && (#[trigger] ts[i]).id == id && known_kind(ts[i])
}

/// A task after a tick that claimed `claimed`: a claimed task of a known
/// kind is WIP; one of an unknown kind is ERR with the code that keeps it
/// from being retried; both are stamped `now`.
pub open spec fn after_claim(t: Task, claimed: Seq<isize>, now: u64) -> Task {
    if claimed.contains(t.id) {
        if known_kind(t) {
            Task { state: TaskState::Wip, updated_at: now, ..t }
        } else {
            Task { state: TaskState::Error, error_code: ERR_UNKNOWN_KIND, updated_at: now, ..t }
        }
    } else {
        t
    }
}

/// The tasks a tick claims: none while stopping or with the budget spent,
/// else the oldest waiting ones, as many as the budget has room for.
pub open spec fn claimed_by_tick(d: Dispatcher) -> Seq<isize> {
    let w = waiting_ids(d.queue.tasks@);
    if d.stopping || d.in_flight@.len() >= d.budget {
        seq![]
    } else if d.budget - d.in_flight@.len() < w.len() {
        w.take(d.budget - d.in_flight@.len())
    } else {
        w
    }
}

proof fn lemma_claim_step(q0: Seq<Task>, cur: Seq<Task>, ids: Seq<isize>, j: int, to: TaskState, now: u64)
    requires
        ids_increasing(q0),
        increasing(ids),
        0 <= j < ids.len(),
        is_waiting(q0, ids[j]),
        cur == q0.map_values(|t: Task| after_claim(t, ids.take(j), now)),
        to == (if known_id(q0, ids[j]) { TaskState::Wip } else { TaskState::Error }),
    ensures
        (if known_id(q0, ids[j]) {
            marked(cur, ids[j], to, now)
        } else {
            with_code(marked(cur, ids[j], to, now), ids[j], ERR_UNKNOWN_KIND)
        }) == q0.map_values(|t: Task| after_claim(t, ids.take(j + 1), now)),
        forall|x: isize| #[trigger] ids.take(j + 1).contains(x) <==> (ids.take(j).contains(x) || x == ids[j]),
{
    let id = ids[j];
    let t0 = ids.take(j);
    let t1 = ids.take(j + 1);
    assert(t1 =~= t0.push(id));
    assert forall|x: isize| #[trigger] t1.contains(x) <==> (t0.contains(x) || x == id) by {
        if t1.contains(x) {
            let k = choose|k: int| 0 <= k < t1.len() && t1[k] == x;
            if k < j {
                assert(t0[k] == x);
            }
        }
        if t0.contains(x) {
            let k = choose|k: int| 0 <= k < t0.len() && t0[k] == x;
            assert(t1[k] == x);
        }
        if x == id {
            assert(t1[j] == x);
        }
    }
    assert(!t0.contains(id)) by {
        if t0.contains(id) {
            let k = choose|k: int| 0 <= k < t0.len() && t0[k] == id;
            assert(ids[k] < ids[j]);
        }
    }
    let w = choose|i: int| 0 <= i < q0.len() && (#[trigger] q0[i]).id == id && q0[i].state == TaskState::Wait;
    let mm = marked(cur, id, to, now);
    let m = if known_id(q0, id) {
        mm
    } else {
        with_code(mm, id, ERR_UNKNOWN_KIND)
    };
    let goal = q0.map_values(|t: Task| after_claim(t, t1, now));
    assert forall|i: int| 0 <= i < q0.len() implies #[trigger] m[i] == goal[i] by {
        assert(mm[i] == marked_task(cur[i], id, to, now));
        assert(cur[i] == after_claim(q0[i], t0, now));
        if q0[i].id == id {
            if i != w {
                if i < w {
                    assert(q0[i].id < q0[w].id);
                } else {
                    assert(q0[w].id < q0[i].id);
                }
            }
            assert(cur[i] == q0[i]);
            if known_id(q0, id) {
                let v = choose|v: int| 0 <= v < q0.len() && (#[trigger] q0[v]).id == id && known_kind(q0[v]);
                if v != i {
                    if v < i {
                        assert(q0[v].id < q0[i].id);
                    } else {
                        assert(q0[i].id < q0[v].id);
                    }
                }
            } else {
                assert(!known_kind(q0[i]));
            }
        }
    }
    assert(m =~= goal);
}

proof fn lemma_with_code_states(ts: Seq<Task>, id: isize, code: isize)
    ensures
        forall|x: isize| #[trigger] is_wip(with_code(ts, id, code), x) == is_wip(ts, x),
        forall|x: isize| #[trigger] is_waiting(with_code(ts, id, code), x) == is_waiting(ts, x),
{
    let w = with_code(ts, id, code);
    assert forall|i: int| 0 <= i < ts.len() implies (#[trigger] w[i]).id == ts[i].id && w[i].state == ts[i].state by {}
    assert forall|x: isize| #[trigger] is_wip(w, x) == is_wip(ts, x) by {
        if is_wip(w, x) {
            let i = choose|i: int| 0 <= i < w.len() && (#[trigger] w[i]).id == x && w[i].state == TaskState::Wip;
            assert(ts[i].id == x);
        }
        if is_wip(ts, x) {
            let i = choose|i: int| 0 <= i < ts.len() && (#[trigger] ts[i]).id == x && ts[i].state == TaskState::Wip;
            assert(w[i].id == x);
        }
    }
    assert forall|x: isize| #[trigger] is_waiting(w, x) == is_waiting(ts, x) by {
        if is_waiting(w, x) {
            let i = choose|i: int| 0 <= i < w.len() && (#[trigger] w[i]).id == x && w[i].state == TaskState::Wait;
            assert(ts[i].id == x);
        }
        if is_waiting(ts, x) {
            let i = choose|i: int| 0 <= i < ts.len() && (#[trigger] ts[i]).id == x && ts[i].state == TaskState::Wait;
            assert(w[i].id == x);
        }
    }
}

/// The dispatcher's state: the queue, the tasks that workers hold, the
/// concurrency budget, and whether shutdown was asked for.
pub struct Dispatcher {
    pub queue: TaskQueue,
    pub in_flight: Vec<isize>,
    pub budget: usize,
    pub stopping: bool,
}

impl Dispatcher {
    /// The queue is well formed, no more tasks are in flight than the budget
    /// allows, each in-flight task is held once, and a task is claimed
    /// exactly when a worker holds it.
    pub open spec fn wf(&self) -> bool {
        &&& self.queue.wf()
        &&& self.in_flight@.len() <= self.budget
        &&& self.in_flight@.no_duplicates()
        &&& forall|id: isize| #[trigger] self.in_flight@.contains(id) <==> is_wip(self.queue.tasks@, id)
    }

    /// A dispatcher over `queue`. Tasks left claimed by an earlier run have
    /// no worker any more: they are moved to ERR first.
    pub fn new(queue: TaskQueue, budget: usize, now: u64) -> (r: Dispatcher)
        requires
            queue.wf(),
        ensures
            r.wf(),
            r.budget == budget,
            !r.stopping,
            r.in_flight@.len() == 0,
            r.queue.next_id == queue.next_id,
            r.queue.tasks@.len() == queue.tasks@.len(),
            forall|k: int|
                0 <= k < queue.tasks@.len() ==> #[trigger] r.queue.tasks@[k] == if queue.tasks@[k].state
                    == TaskState::Wip {
                    Task { state: TaskState::Error, updated_at: now, ..queue.tasks@[k] }
                } else {
                    queue.tasks@[k]
                },
    {
        let mut queue = queue;
        queue.release_abandoned(now);
        let r = Dispatcher { queue, in_flight: Vec::new(), budget, stopping: false };
        assert forall|id: isize| #[trigger] r.in_flight@.contains(id) <==> is_wip(r.queue.tasks@, id) by {
            if is_wip(r.queue.tasks@, id) {
                let i = choose|i: int|
                    0 <= i < r.queue.tasks@.len() && (#[trigger] r.queue.tasks@[i]).id == id
                        && r.queue.tasks@[i].state == TaskState::Wip;
                assert(r.queue.tasks@[i].state != TaskState::Wip);
            }
        }
        r
    }

    /// One tick: unless shutdown was asked for or the budget is spent,
    /// claims the oldest waiting tasks up to the budget left. Each claimed
    /// task of a known kind becomes WIP and is returned for launch; one of
    /// an unknown kind goes to ERR at once and is not launched.
    pub fn tick(&mut self, now: u64) -> (r: Vec<Launch>)
        requires
            old(self).wf(),
        ensures
            final(self).wf(),
            final(self).budget == old(self).budget,
            final(self).stopping == old(self).stopping,
            final(self).queue.next_id == old(self).queue.next_id,
            final(self).queue.tasks@.len() == old(self).queue.tasks@.len(),
            old(self).stopping || old(self).in_flight@.len() >= old(self).budget ==> r@.len() == 0
                && final(self).queue.tasks@ == old(self).queue.tasks@ && final(self).in_flight@
                == old(self).in_flight@,
            final(self).in_flight@ == old(self).in_flight@ + launch_ids(r@),
            launch_ids(r@).no_duplicates(),
            forall|k: int|
                0 <= k < r@.len() ==> is_waiting(old(self).queue.tasks@, #[trigger] r@[k].task_id)
                    && is_wip(final(self).queue.tasks@, r@[k].task_id) && waiting_ids(
                    old(self).queue.tasks@,
                ).contains(r@[k].task_id),
            final(self).queue.tasks@ == old(self).queue.tasks@.map_values(
                |t: Task| after_claim(t, claimed_by_tick(*old(self)), now),
            ),
            forall|x: isize|
                #[trigger] launch_ids(r@).contains(x) <==> (claimed_by_tick(*old(self)).contains(x)
                    && known_id(old(self).queue.tasks@, x)),
            increasing(launch_ids(r@)),
            forall|k: int| 0 <= k < r@.len() ==> launches_task(old(self).queue.tasks@, #[trigger] r@[k]),
    {
        let ghost q0 = self.queue.tasks@;
        let mut launches: Vec<Launch> = Vec::new();
        if self.stopping || self.in_flight.len() >= self.budget {
            assert(launch_ids(launches@) =~= Seq::<isize>::empty());
            assert(self.in_flight@ =~= self.in_flight@ + launch_ids(launches@));
            assert(q0.map_values(|t: Task| after_claim(t, claimed_by_tick(*old(self)), now)) =~= q0);
            return launches;
        }
        let ids = self.queue.claim_waiting(self.budget - self.in_flight.len());
        proof {
            lemma_waiting_ids(q0);
        }
        let ghost f0 = self.in_flight@;
        let mut j: usize = 0;
        while j < ids.len()
            invariant
                self.queue.wf(),
                self.budget == old(self).budget,
                self.stopping == old(self).stopping,
                self.queue.next_id == old(self).queue.next_id,
                self.queue.tasks@.len() == q0.len(),
                q0 == old(self).queue.tasks@,
                f0 == old(self).in_flight@,
                f0.len() + ids@.len() <= self.budget,
                f0.no_duplicates(),
                forall|id: isize| #[trigger] f0.contains(id) <==> is_wip(q0, id),
                j <= ids@.len(),
                increasing(waiting_ids(q0)),
                ids@ == waiting_ids(q0).take(ids@.len() as int),
                ids@.len() <= waiting_ids(q0).len(),
                forall|k: int| 0 <= k < waiting_ids(q0).len() ==> is_waiting(q0, #[trigger] waiting_ids(q0)[k]),
                forall|k: int| j <= k < ids@.len() ==> is_waiting(self.queue.tasks@, #[trigger] ids@[k]),
                self.in_flight@ == f0 + launch_ids(launches@),
                self.in_flight@.len() <= f0.len() + j,
                self.in_flight@.no_duplicates(),
                forall|id: isize| #[trigger] self.in_flight@.contains(id) <==> is_wip(self.queue.tasks@, id),
                forall|k: int| 0 <= k < launches@.len() ==> (exists|m: int| 0 <= m < j && ids@[m] == #[trigger] launches@[k].task_id),
                forall|k: int| 0 <= k < launches@.len() ==> is_waiting(q0, #[trigger] launches@[k].task_id)
                    && is_wip(self.queue.tasks@, launches@[k].task_id) && waiting_ids(q0).contains(launches@[k].task_id),
                ids@ == claimed_by_tick(*old(self)),
                ids_increasing(q0),
                self.queue.tasks@ == q0.map_values(|t: Task| after_claim(t, ids@.take(j as int), now)),
                forall|x: isize| #[trigger] launch_ids(launches@).contains(x) <==> (ids@.take(j as int).contains(x) && known_id(q0, x)),
                increasing(launch_ids(launches@)),
                forall|k: int| 0 <= k < launches@.len() ==> launches_task(q0, #[trigger] launches@[k]),
            decreases ids@.len() - j,
        {
            let id = ids[j];
            let ghost qb = self.queue.tasks@;
            let ghost fb = self.in_flight@;
            assert(ids@[j as int] == waiting_ids(q0)[j as int]);
            assert(waiting_ids(q0).contains(id));
            assert forall|k: int| j < k < ids@.len() implies #[trigger] ids@[k] != id by {
                assert(ids@[k] == waiting_ids(q0)[k]);
            }
            assert(!fb.contains(id)) by {
                if fb.contains(id) {
                    let i = choose|i: int| 0 <= i < qb.len() && (#[trigger] qb[i]).id == id && qb[i].state == TaskState::Wip;
                    let i2 = choose|i: int| 0 <= i < qb.len() && (#[trigger] qb[i]).id == id && qb[i].state == TaskState::Wait;
                    if i < i2 { assert(qb[i].id < qb[i2].id); } else if i2 < i { assert(qb[i2].id < qb[i].id); }
                }
            }
            let pos = self.queue.position(id);
            match pos {
                Some(p) => {
                    match TaskKind::from_wire(self.queue.tasks[p].kind.as_str()) {
                        Some(kind) => {
                            let payload = self.queue.tasks[p].payload.clone();
                            proof {
                                assert(qb[p as int] == after_claim(q0[p as int], ids@.take(j as int), now));
                                assert(known_kind(q0[p as int]));
                                assert(known_id(q0, id));
                                lemma_claim_step(q0, qb, ids@, j as int, TaskState::Wip, now);
                            }
                            self.queue.mark(id, TaskState::Wip, now);
                            proof {
                                lemma_marked_self(qb, id, TaskState::Wip, now);
                                assert forall|other: isize| other != id implies (is_wip(self.queue.tasks@, other) == is_wip(qb, other)
                                    && is_waiting(self.queue.tasks@, other) == is_waiting(qb, other)) by {
                                    lemma_marked_other(qb, id, TaskState::Wip, now, other);
                                }
                            }
                            let ghost lb = launches@;
                            self.in_flight.push(id);
                            launches.push(Launch { task_id: id, kind, payload });
                            assert(launch_ids(launches@) =~= launch_ids(lb).push(id));
                            assert(self.in_flight@ =~= f0 + launch_ids(launches@));
                            assert forall|x: isize| #[trigger] self.in_flight@.contains(x) <==> is_wip(self.queue.tasks@, x) by {
                                if x != id {
                                    if fb.contains(x) {
                                        let i = choose|i: int| 0 <= i < fb.len() && fb[i] == x;
                                        assert(self.in_flight@[i] == x);
                                    }
                                    if self.in_flight@.contains(x) {
                                        let i = choose|i: int| 0 <= i < self.in_flight@.len() && self.in_flight@[i] == x;
                                        assert(i < fb.len());
                                        assert(fb[i] == x);
                                    }
                                } else {
                                    assert(self.in_flight@[fb.len() as int] == id);
                                }
                            }
                            assert forall|k: int| 0 <= k < launches@.len() implies (exists|m: int| 0 <= m < j + 1 && ids@[m] == #[trigger] launches@[k].task_id) by {
                                if k < lb.len() {
                                    assert(launches@[k] == lb[k]);
                                } else {
                                    assert(ids@[j as int] == launches@[k].task_id);
                                }
                            }
                            assert forall|k: int| 0 <= k < launches@.len() implies is_waiting(q0, #[trigger] launches@[k].task_id)
                                && is_wip(self.queue.tasks@, launches@[k].task_id) && waiting_ids(q0).contains(launches@[k].task_id) by {
                                if k < lb.len() {
                                    assert(launches@[k] == lb[k]);
                                    let m = choose|m: int| 0 <= m < j && ids@[m] == #[trigger] lb[k].task_id;
                                    assert(ids@[m] == waiting_ids(q0)[m]);
                                    assert(waiting_ids(q0)[m] < waiting_ids(q0)[j as int]);
                                } else {
                                    assert(launches@[k].task_id == id);
                                    assert(is_waiting(q0, waiting_ids(q0)[j as int]));
                                }
                            }
                            assert forall|x: isize| #[trigger] launch_ids(launches@).contains(x) <==> (ids@.take(j + 1).contains(x) && known_id(q0, x)) by {
                                let li = launch_ids(launches@);
                                let l0 = launch_ids(lb);
                                if li.contains(x) {
                                    let k = choose|k: int| 0 <= k < li.len() && li[k] == x;
                                    if k < l0.len() {
                                        assert(l0[k] == x);
                                    }
                                }
                                if ids@.take(j + 1).contains(x) && known_id(q0, x) {
                                    if x == id {
                                        assert(li[l0.len() as int] == x);
                                    } else {
                                        assert(l0.contains(x));
                                        let k = choose|k: int| 0 <= k < l0.len() && l0[k] == x;
                                        assert(li[k] == x);
                                    }
                                }
                            }
                        },
                        None => {
                            proof {
                                assert(qb[p as int] == after_claim(q0[p as int], ids@.take(j as int), now));
                                assert(!known_kind(q0[p as int]));
                                assert(!known_id(q0, id)) by {
                                    if known_id(q0, id) {
                                        let v = choose|v: int| 0 <= v < q0.len() && (#[trigger] q0[v]).id == id && known_kind(q0[v]);
                                        if v < p as int {
                                            assert(q0[v].id < q0[p as int].id);
                                        } else if v > p as int {
                                            assert(q0[p as int].id < q0[v].id);
                                        }
                                    }
                                }
                                lemma_claim_step(q0, qb, ids@, j as int, TaskState::Error, now);
                            }
                            self.queue.mark(id, TaskState::Error, now);
                            let ghost qm = self.queue.tasks@;
                            self.queue.note_error(id, ERR_UNKNOWN_KIND);
                            proof {
                                lemma_with_code_states(qm, id, ERR_UNKNOWN_KIND);
                                assert forall|x: isize| #[trigger] launch_ids(launches@).contains(x) <==> (ids@.take(j + 1).contains(x) && known_id(q0, x)) by {
                                }
                                lemma_marked_self(qb, id, TaskState::Error, now);
                                assert forall|other: isize| other != id implies (is_wip(self.queue.tasks@, other) == is_wip(qb, other)
                                    && is_waiting(self.queue.tasks@, other) == is_waiting(qb, other)) by {
                                    lemma_marked_other(qb, id, TaskState::Error, now, other);
                                }
                                assert forall|k: int| 0 <= k < launches@.len() implies (exists|m: int| 0 <= m < j + 1 && ids@[m] == #[trigger] launches@[k].task_id) by {
                                    let m = choose|m: int| 0 <= m < j && ids@[m] == #[trigger] launches@[k].task_id;
                                }
                                assert forall|k: int| 0 <= k < launches@.len() implies is_wip(self.queue.tasks@, #[trigger] launches@[k].task_id) by {
                                    let m = choose|m: int| 0 <= m < j && ids@[m] == #[trigger] launches@[k].task_id;
                                    assert(ids@[m] == waiting_ids(q0)[m]);
                                    assert(waiting_ids(q0)[m] < waiting_ids(q0)[j as int]);
                                }
                            }
                        },
                    }
                },
                None => {
                    assert(false);
                },
            }
            j = j + 1;
        }
        assert(ids@.take(j as int) =~= ids@);
        proof {
            assert forall|a: int, b: int| 0 <= a < b < launch_ids(launches@).len() implies launch_ids(launches@)[a] != launch_ids(launches@)[b] by {
                assert(self.in_flight@[f0.len() + a] == launch_ids(launches@)[a]);
                assert(self.in_flight@[f0.len() + b] == launch_ids(launches@)[b]);
            }
        }
        launches
    }

    /// Records the outcome a worker reported: its task leaves the in-flight
    /// set and ends its attempt in DONE or ERR. An outcome for a task that
    /// is not in flight, a second report in particular, changes nothing.
    pub fn complete(&mut self, result: TaskResult, now: u64) -> (accepted: bool)
        requires
            old(self).wf(),
        ensures
            final(self).wf(),
            final(self).budget == old(self).budget,
            final(self).stopping == old(self).stopping,
            final(self).queue.next_id == old(self).queue.next_id,
            accepted == old(self).in_flight@.contains(result.task_id()),
            accepted ==> final(self).queue.tasks@ == result.applied(old(self).queue.tasks@, now),
            accepted ==> final(self).in_flight@.len() + 1 == old(self).in_flight@.len(),
            accepted ==> !final(self).in_flight@.contains(result.task_id()),
            accepted ==> exists|i: int|
                0 <= i < final(self).queue.tasks@.len() && (#[trigger] final(self).queue.tasks@[i]).id
                    == result.task_id() && final(self).queue.tasks@[i].state == result.end_state(),
            forall|x: isize|
                x != result.task_id() ==> (#[trigger] final(self).in_flight@.contains(x)
                    == old(self).in_flight@.contains(x)),
            !accepted ==> final(self).queue.tasks@ == old(self).queue.tasks@ && final(self).in_flight@
                == old(self).in_flight@,
    {
        let (id, end) = match result {
            TaskResult::Success(id) => (id, TaskState::Done),
            TaskResult::Failure(id, _) => (id, TaskState::Error),
        };
        let mut p: usize = 0;
        while p < self.in_flight.len()
            invariant
                p <= self.in_flight@.len(),
                forall|k: int| 0 <= k < p ==> self.in_flight@[k] != id,
            ensures
                p <= self.in_flight@.len(),
                p < self.in_flight@.len() ==> self.in_flight@[p as int] == id,
                forall|k: int| 0 <= k < p ==> self.in_flight@[k] != id,
            decreases self.in_flight@.len() - p,
        {
            if self.in_flight[p] == id {
                break;
            }
            p = p + 1;
        }
        if p == self.in_flight.len() {
            return false;
        }
        let ghost qb = self.queue.tasks@;
        let ghost fb = self.in_flight@;
        assert(fb[p as int] == id);
        assert(fb.contains(id));
        self.in_flight.remove(p);
        self.queue.mark(id, end, now);
        proof {
            lemma_marked_self(qb, id, end, now);
            assert forall|x: isize| #[trigger] self.in_flight@.contains(x) <==> is_wip(self.queue.tasks@, x) by {
                if x != id {
                    lemma_marked_other(qb, id, end, now, x);
                    if fb.contains(x) {
                        let i = choose|i: int| 0 <= i < fb.len() && fb[i] == x;
                        if i < p {
                            assert(self.in_flight@[i] == x);
                        } else {
                            assert(self.in_flight@[i - 1] == x);
                        }
                    }
                    if self.in_flight@.contains(x) {
                        let i = choose|i: int| 0 <= i < self.in_flight@.len() && self.in_flight@[i] == x;
                        if i < p {
                            assert(fb[i] == x);
                        } else {
                            assert(fb[i + 1] == x);
                        }
                    }
                } else {
                    if self.in_flight@.contains(x) {
                        let i = choose|i: int| 0 <= i < self.in_flight@.len() && self.in_flight@[i] == x;
                        if i < p {
                            assert(fb[i] == x);
                        } else {
                            assert(fb[i + 1] == x);
                        }
                    }
                }
            }
            assert forall|x: isize| x != id implies (#[trigger] self.in_flight@.contains(x) == fb.contains(x)) by {
                if fb.contains(x) {
                    let i = choose|i: int| 0 <= i < fb.len() && fb[i] == x;
                    if i < p {
                        assert(self.in_flight@[i] == x);
                    } else {
                        assert(self.in_flight@[i - 1] == x);
                    }
                }
                if self.in_flight@.contains(x) {
                    let i = choose|i: int| 0 <= i < self.in_flight@.len() && self.in_flight@[i] == x;
                    if i < p {
                        assert(fb[i] == x);
                    } else {
                        assert(fb[i + 1] == x);
                    }
                }
            }
        }
        let ghost qm = self.queue.tasks@;
        if let TaskResult::Failure(_, code) = result {
            self.queue.note_error(id, code);
            proof {
                assert forall|x: isize| is_wip(self.queue.tasks@, x) == is_wip(qm, x) by {
                    if is_wip(self.queue.tasks@, x) {
                        let k = choose|k: int| 0 <= k < self.queue.tasks@.len() && (#[trigger] self.queue.tasks@[k]).id == x
                            && self.queue.tasks@[k].state == TaskState::Wip;
                        assert(self.queue.tasks@[k].state == qm[k].state && self.queue.tasks@[k].id == qm[k].id);
                    }
                    if is_wip(qm, x) {
                        let k = choose|k: int| 0 <= k < qm.len() && (#[trigger] qm[k]).id == x && qm[k].state == TaskState::Wip;
                        assert(self.queue.tasks@[k].state == qm[k].state && self.queue.tasks@[k].id == qm[k].id);
                    }
                }
                let k = choose|k: int| 0 <= k < qm.len() && (#[trigger] qm[k]).id == id && qm[k].state == end;
                assert(self.queue.tasks@[k].id == id && self.queue.tasks@[k].state == end);
            }
        }
        true
    }

    /// Asks the dispatcher to stop: later ticks claim nothing, and outcomes
    /// of tasks already in flight are still recorded.
    pub fn request_shutdown(&mut self)
        requires
            old(self).wf(),
        ensures
            final(self).wf(),
            final(self).stopping,
            final(self).queue == old(self).queue,
            final(self).in_flight@ == old(self).in_flight@,
            final(self).budget == old(self).budget,
    {
        self.stopping = true;
    }

    /// Appends a waiting task and returns its identifier.
    pub fn enqueue(&mut self, kind: String, payload: String, now: u64) -> (id: isize)
        requires
            old(self).wf(),
            old(self).queue.next_id < isize::MAX,
        ensures
            final(self).wf(),
            final(self).budget == old(self).budget,
            final(self).stopping == old(self).stopping,
            final(self).in_flight@ == old(self).in_flight@,
            id == old(self).queue.next_id,
            final(self).queue.tasks@ == old(self).queue.tasks@.push(
                Task {
                    id,
                    kind,
                    payload,
                    state: TaskState::Wait,
                    retry_count: 0,
                    error_code: 0,
                    created_at: now,
                    updated_at: now,
                },
            ),
    {
        let ghost qb = self.queue.tasks@;
        let id = self.queue.enqueue(kind, payload, now);
        proof {
            assert forall|x: isize| is_wip(self.queue.tasks@, x) == is_wip(qb, x) by {
                if is_wip(self.queue.tasks@, x) {
                    let i = choose|i: int| 0 <= i < self.queue.tasks@.len() && (#[trigger] self.queue.tasks@[i]).id == x
                        && self.queue.tasks@[i].state == TaskState::Wip;
                    assert(i < qb.len());
                    assert(qb[i] == self.queue.tasks@[i]);
                }
                if is_wip(qb, x) {
                    let i = choose|i: int| 0 <= i < qb.len() && (#[trigger] qb[i]).id == x && qb[i].state == TaskState::Wip;
                    assert(qb[i] == self.queue.tasks@[i]);
                }
            }
        }
        id
    }

    /// Takes in a waiting task that another writer put in the store. It is
    /// accepted when it is waiting and its identifier is above every
    /// identifier in the queue.
    pub fn take_in(&mut self, task: Task) -> (accepted: bool)
        requires
            old(self).wf(),
        ensures
            final(self).wf(),
            final(self).budget == old(self).budget,
            final(self).stopping == old(self).stopping,
            final(self).in_flight@ == old(self).in_flight@,
            accepted == (task.state == TaskState::Wait && old(self).queue.next_id <= task.id
                && task.id < isize::MAX),
            accepted ==> final(self).queue.tasks@ == old(self).queue.tasks@.push(task),
            !accepted ==> final(self).queue == old(self).queue,
    {
        if task.state != TaskState::Wait {
            return false;
        }
        let ghost qb = self.queue.tasks@;
        let ghost t = task;
        let accepted = self.queue.restore(task);
        proof {
            if accepted {
                assert forall|x: isize| is_wip(self.queue.tasks@, x) == is_wip(qb, x) by {
                    if is_wip(self.queue.tasks@, x) {
                        let i = choose|i: int| 0 <= i < self.queue.tasks@.len() && (#[trigger] self.queue.tasks@[i]).id == x
                            && self.queue.tasks@[i].state == TaskState::Wip;
                        assert(i < qb.len());
                        assert(qb[i] == self.queue.tasks@[i]);
                    }
                    if is_wip(qb, x) {
                        let i = choose|i: int| 0 <= i < qb.len() && (#[trigger] qb[i]).id == x && qb[i].state == TaskState::Wip;
                        assert(qb[i] == self.queue.tasks@[i]);
                    }
                }
            }
        }
        accepted
    }

    /// The retry step on the queue (see [`TaskQueue::retry_failed`]).
    pub fn retry_failed(&mut self, limit: u32, now: u64)
        requires
            old(self).wf(),
        ensures
            final(self).wf(),
            final(self).budget == old(self).budget,
            final(self).stopping == old(self).stopping,
            final(self).in_flight@ == old(self).in_flight@,
            final(self).queue.next_id == old(self).queue.next_id,
            final(self).queue.tasks@ == old(self).queue.tasks@.map_values(
                |t: Task| retried(t, limit, now),
            ),
    {
        let ghost qb = self.queue.tasks@;
        self.queue.retry_failed(limit, now);
        proof {
            assert forall|x: isize| is_wip(self.queue.tasks@, x) == is_wip(qb, x) by {
                if is_wip(self.queue.tasks@, x) {
                    let i = choose|i: int| 0 <= i < self.queue.tasks@.len() && (#[trigger] self.queue.tasks@[i]).id == x
                        && self.queue.tasks@[i].state == TaskState::Wip;
                    assert(self.queue.tasks@[i] == retried(qb[i], limit, now));
                }
                if is_wip(qb, x) {
                    let i = choose|i: int| 0 <= i < qb.len() && (#[trigger] qb[i]).id == x && qb[i].state == TaskState::Wip;
                    assert(self.queue.tasks@[i] == retried(qb[i], limit, now));
                }
            }
        }
    }

    /// Deletes the finished tasks past the retention window (see
    /// [`TaskQueue::sweep_stale`]).
    pub fn sweep_stale(&mut self, now: u64, retention: u64)
        requires
            old(self).wf(),
        ensures
            final(self).wf(),
            final(self).budget == old(self).budget,
            final(self).stopping == old(self).stopping,
            final(self).in_flight@ == old(self).in_flight@,
            final(self).queue.next_id == old(self).queue.next_id,
            final(self).queue.tasks@ == old(self).queue.tasks@.filter(
                |t: Task| !is_stale(t, now, retention),
            ),
    {
        let ghost qb = self.queue.tasks@;
        let ghost keep = |t: Task| !is_stale(t, now, retention);
        self.queue.sweep_stale(now, retention);
        proof {
            broadcast use vstd::seq_lib::group_filter_ensures;
            assert forall|x: isize| is_wip(self.queue.tasks@, x) == is_wip(qb, x) by {
                let f = self.queue.tasks@;
                assert(f == qb.filter(keep));
                if is_wip(f, x) {
                    let i = choose|i: int| 0 <= i < f.len() && (#[trigger] f[i]).id == x && f[i].state == TaskState::Wip;
                    assert(f.contains(f[i]));
                    qb.lemma_filter_contains_rev(keep, f[i]);
                    let j = choose|j: int| 0 <= j < qb.len() && qb[j] == f[i];
                    assert(qb[j].id == x);
                }
                if is_wip(qb, x) {
                    let i = choose|i: int| 0 <= i < qb.len() && (#[trigger] qb[i]).id == x && qb[i].state == TaskState::Wip;
                    assert(keep(qb[i]));
                    qb.lemma_filter_contains(keep, i);
                    assert(f.contains(qb[i]));
                    let j = choose|j: int| 0 <= j < f.len() && f[j] == qb[i];
                    assert(f[j].id == x);
                }
            }
        }
    }
}


/// A DONE or FAIL task is terminal: no mark moves it and the retry step
/// leaves it as it is.
pub proof fn lemma_terminal_states_are_final(t: Task, id: isize, to: TaskState, limit: u32, now: u64)
    requires
        t.state == TaskState::Done || t.state == TaskState::Fail,
    ensures
        !may_mark(t.state, to),
        marked_task(t, id, to, now) == t,
        retried(t, limit, now) == t,
{
}

/// A claimed task is held by a worker, and the outcome that worker reports
/// ends the attempt: the task is then DONE or ERR, and no longer claimed.
pub proof fn lemma_outcome_ends_attempt(d: Dispatcher, result: TaskResult, now: u64)
    requires
        d.wf(),
        is_wip(d.queue.tasks@, result.task_id()),
    ensures
        d.in_flight@.contains(result.task_id()),
        !is_wip(result.applied(d.queue.tasks@, now), result.task_id()),
        exists|i: int|
            0 <= i < d.queue.tasks@.len() && (#[trigger] result.applied(d.queue.tasks@, now)[i]).id
                == result.task_id() && result.applied(d.queue.tasks@, now)[i].state == result.end_state(),
{
    let id = result.task_id();
    let ts = d.queue.tasks@;
    lemma_marked_self(ts, id, result.end_state(), now);
    let m = marked(ts, id, result.end_state(), now);
    let a = result.applied(ts, now);
    assert(a.len() == m.len());
    assert forall|k: int| 0 <= k < m.len() implies #[trigger] a[k].id == m[k].id && a[k].state == m[k].state by {}
    let k = choose|k: int| 0 <= k < ts.len() && (#[trigger] m[k]).id == id && m[k].state == result.end_state();
    assert(a[k].id == id && a[k].state == result.end_state());
    if is_wip(a, id) {
        let j = choose|j: int| 0 <= j < a.len() && (#[trigger] a[j]).id == id && a[j].state == TaskState::Wip;
        assert(m[j].id == id && m[j].state == TaskState::Wip);
    }
}

/// A failed task is re-queued with one more retry while it has retries
/// left, and ends in FAIL once it has none: at most `limit` retries come
/// before FAIL. A task that failed for good is never re-queued.
pub proof fn lemma_retries_run_out(t: Task, limit: u32, now: u64)
    requires
        t.state == TaskState::Error,
    ensures
        is_permanent(t.error_code) ==> retried(t, limit, now) == t,
        !is_permanent(t.error_code) && t.retry_count >= limit ==> retried(t, limit, now).state
            == TaskState::Fail,
        !is_permanent(t.error_code) && t.retry_count < limit ==> retried(t, limit, now).state
            == TaskState::Wait && retried(t, limit, now).retry_count == t.retry_count + 1
            && retried(t, limit, now).retry_count <= limit,
{
}

/// Claims are exclusive: a claimed task is one row of the queue and is
/// held by exactly one entry of the in-flight set.
pub proof fn lemma_claims_are_exclusive(d: Dispatcher, id: isize)
    requires
        d.wf(),
        is_wip(d.queue.tasks@, id),
    ensures
        d.in_flight@.contains(id),
        forall|a: int, b: int|
            0 <= a < d.in_flight@.len() && 0 <= b < d.in_flight@.len() && d.in_flight@[a] == id
                && d.in_flight@[b] == id ==> a == b,
        forall|a: int, b: int|
            0 <= a < d.queue.tasks@.len() && 0 <= b < d.queue.tasks@.len()
                && (#[trigger] d.queue.tasks@[a]).id == id && (#[trigger] d.queue.tasks@[b]).id == id
                ==> a == b,
{
    assert forall|a: int, b: int|
        0 <= a < d.queue.tasks@.len() && 0 <= b < d.queue.tasks@.len()
            && (#[trigger] d.queue.tasks@[a]).id == id && (#[trigger] d.queue.tasks@[b]).id == id
            implies a == b by {
        if a < b {
            assert(d.queue.tasks@[a].id < d.queue.tasks@[b].id);
        } else if b < a {
            assert(d.queue.tasks@[b].id < d.queue.tasks@[a].id);
        }
    }
}

/// Waiting tasks make progress: while not stopping, a tick claims the
/// `k`-th oldest waiting task whenever the budget has room for more than
/// `k` tasks, and the claimed task leaves WAIT for WIP, or for ERR when its
/// kind is unknown. With the outcome of its worker (see
/// [`lemma_outcome_ends_attempt`]) and the bounded retries (see
/// [`lemma_retries_run_out`]), every task ends in DONE, ERR or FAIL.
pub proof fn lemma_waiting_tasks_are_claimed(d: Dispatcher, k: int, now: u64)
    requires
        d.wf(),
        !d.stopping,
        0 <= k < waiting_ids(d.queue.tasks@).len(),
        d.in_flight@.len() + k < d.budget,
    ensures
        claimed_by_tick(d).contains(waiting_ids(d.queue.tasks@)[k]),
        forall|i: int|
            0 <= i < d.queue.tasks@.len() && d.queue.tasks@[i].id == waiting_ids(d.queue.tasks@)[k]
                ==> (#[trigger] after_claim(d.queue.tasks@[i], claimed_by_tick(d), now)).state == if known_kind(
                d.queue.tasks@[i],
            ) {
                TaskState::Wip
            } else {
                TaskState::Error
            },
{
    let c = claimed_by_tick(d);
    assert(c[k] == waiting_ids(d.queue.tasks@)[k]);
}

} // verus!
