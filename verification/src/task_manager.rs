//! Rendering tasks and the lifecycle of their segments.

use crate::assoc_map::AssocMap;
use crate::types::{
    EntryType, LotteryEntry, RenderingTask, Segment, SegmentId, SegmentStatus, TaskId, WorkerId,
};
use vstd::prelude::*;

verus! {

/// How many of the segments in `s` belong to task `t`.
pub open spec fn count_task_segments(s: Seq<(SegmentId, Segment)>, t: u64) -> nat
    decreases s.len(),
{
    if s.len() == 0 {
        0
    } else {
        count_task_segments(s.drop_last(), t) + if s.last().1.task_id.0 == t {
            1nat
        } else {
            0nat
        }
    }
}

/// The completions (segment and the worker who completed it) of task `t`,
/// in completion order.
pub open spec fn completed_of_task(c: Seq<(SegmentId, WorkerId)>, t: u64) -> Seq<(SegmentId, WorkerId)>
    decreases c.len(),
{
    if c.len() == 0 {
        Seq::empty()
    } else if c.last().0.task_id.0 == t {
        completed_of_task(c.drop_last(), t).push(c.last())
    } else {
        completed_of_task(c.drop_last(), t)
    }
}

/// The pending segments of `s`, in order.
pub open spec fn pending_of(s: Seq<(SegmentId, Segment)>) -> Seq<Segment>
    decreases s.len(),
{
    if s.len() == 0 {
        Seq::empty()
    } else if s.last().1.status == SegmentStatus::Pending {
        pending_of(s.drop_last()).push(s.last().1)
    } else {
        pending_of(s.drop_last())
    }
}

/// `s` handed to worker `w` and moved to status `st`.
pub open spec fn with_assignment(s: Segment, w: WorkerId, st: SegmentStatus) -> Segment {
    Segment { assigned_to: Some(w), status: st, ..s }
}

/// `new` is `old` with segment `seg` (if known) given to worker `w` with
/// status `st`, and the assignment recorded; the segments keep their order.
pub open spec fn assignment_recorded(
    new: &TaskManager,
    old: &TaskManager,
    seg: SegmentId,
    w: WorkerId,
    st: SegmentStatus,
) -> bool {
    &&& new.wf()
    &&& old.segment_table()@.contains_key(seg@) ==> new.segment_table()@
        == old.segment_table()@.insert(seg@, with_assignment(old.segment_table()@[seg@], w, st))
    &&& !old.segment_table()@.contains_key(seg@) ==> new.segment_table() == old.segment_table()
    &&& new.segment_table().pairs().len() == old.segment_table().pairs().len()
    &&& forall|i: int|
        0 <= i < old.segment_table().pairs().len() ==> #[trigger] new.segment_table().pairs()[i] == if old.segment_table().pairs()[i].0@
            == seg@ {
            (
                old.segment_table().pairs()[i].0,
                with_assignment(old.segment_table().pairs()[i].1, w, st),
            )
        } else {
            old.segment_table().pairs()[i]
        }
    &&& new.assignment_table()@ == old.assignment_table()@.insert(seg@, w)
    &&& new.task_table() == old.task_table()
}

/// Segment `seg` is among the completions `c`.
pub open spec fn is_completed_in(c: Seq<(SegmentId, WorkerId)>, seg: SegmentId) -> bool {
    exists|i: int| 0 <= i < c.len() && (#[trigger] c[i]).0 == seg
}

/// No segment occurs twice among the completions `c`.
pub open spec fn completions_distinct(c: Seq<(SegmentId, WorkerId)>) -> bool {
    forall|i: int, j: int| 0 <= i < j < c.len() ==> (#[trigger] c[i]).0 != (#[trigger] c[j]).0
}

/// `new` is `old` after `w` completed `seg`: the segment (if known) is
/// given to `w` and verified, the assignment is recorded, and, when the
/// segment is known and was not completed before, the completion by `w` is
/// appended; a segment is completed once, by the first worker to complete it.
pub open spec fn completion_recorded(new: &TaskManager, old: &TaskManager, seg: SegmentId, w: WorkerId) -> bool {
    &&& assignment_recorded(new, old, seg, w, SegmentStatus::Verified)
    &&& new.completions() == if old.segment_table()@.contains_key(seg@) && !is_completed_in(
        old.completions(),
        seg,
    ) {
        old.completions().push((seg, w))
    } else {
        old.completions()
    }
}

/// `e` is the `j`-th lottery entry of task `t`, for completion `c`: the
/// segment and the worker who completed it.
pub open spec fn is_lottery_entry(e: LotteryEntry, j: int, t: u64, c: (SegmentId, WorkerId)) -> bool {
    &&& e.id == j
    &&& e.task_id == TaskId(t)
    &&& e.segment_id == c.0
    &&& e.worker_id == c.1
    &&& e.entry_type == EntryType::SegmentCompletion
    &&& e.created_at == 0
}

/// The completions of one task are among all the completions, and no
/// segment occurs twice among them when none does among all.
pub proof fn lemma_completed_of_task(c: Seq<(SegmentId, WorkerId)>, t: u64)
    ensures
        forall|j: int|
            0 <= j < completed_of_task(c, t).len() ==> exists|i: int|
                0 <= i < c.len() && c[i] == #[trigger] completed_of_task(c, t)[j],
        forall|j: int|
            0 <= j < completed_of_task(c, t).len() ==> (#[trigger] completed_of_task(c, t)[j]).0.task_id.0
                == t,
        completions_distinct(c) ==> completions_distinct(completed_of_task(c, t)),
        completed_of_task(c, t).len() <= c.len(),
    decreases c.len(),
{
    if c.len() > 0 {
        let p = c.drop_last();
        lemma_completed_of_task(p, t);
        let f = completed_of_task(c, t);
        let fp = completed_of_task(p, t);
        assert forall|j: int| 0 <= j < f.len() implies exists|i: int|
            0 <= i < c.len() && c[i] == #[trigger] f[j] by {
            if j < fp.len() {
                let i = choose|i: int| 0 <= i < p.len() && p[i] == fp[j];
                assert(f[j] == fp[j]);
                assert(c[i] == p[i]);
            } else {
                assert(c[c.len() - 1] == f[j]);
            }
        }
        if completions_distinct(c) {
            assert(completions_distinct(p)) by {
                assert forall|a: int, b: int| 0 <= a < b < p.len() implies (#[trigger] p[a]).0 != (
                #[trigger] p[b]).0 by {
                    assert(p[a] == c[a]);
                    assert(p[b] == c[b]);
                }
            }
            assert forall|a: int, b: int| 0 <= a < b < f.len() implies (#[trigger] f[a]).0 != (
            #[trigger] f[b]).0 by {
                if b < fp.len() {
                    assert(f[a] == fp[a]);
                    assert(f[b] == fp[b]);
                } else {
                    assert(f[a] == fp[a]);
                    let i = choose|i: int| 0 <= i < p.len() && p[i] == fp[a];
                    assert(c[i] == p[i]);
                    assert(f[b] == c[c.len() - 1]);
                }
            }
        }
    }
}

/// Manages rendering tasks and their segments.
pub struct TaskManager {
    tasks: AssocMap<TaskId, RenderingTask>,
    segments: AssocMap<SegmentId, Segment>,
    segment_assignments: AssocMap<SegmentId, WorkerId>,
    completed_segments: Vec<(SegmentId, WorkerId)>,
}

impl TaskManager {
    /// The tasks, by identifier.
    pub closed spec fn task_table(&self) -> AssocMap<TaskId, RenderingTask> {
        self.tasks
    }

    /// The segments, by identifier, in the order they were added.
    pub closed spec fn segment_table(&self) -> AssocMap<SegmentId, Segment> {
        self.segments
    }

    /// The worker each segment was last given to.
    pub closed spec fn assignment_table(&self) -> AssocMap<SegmentId, WorkerId> {
        self.segment_assignments
    }

    /// The completed segments, each with the worker who completed it, in
    /// completion order.
    pub closed spec fn completions(&self) -> Seq<(SegmentId, WorkerId)> {
        self.completed_segments@
    }

    /// No key occurs twice in a table, each task and segment is stored under
    /// its own identifier, and each known segment is completed at most once.
    pub open spec fn wf(&self) -> bool {
        &&& self.task_table().wf()
        &&& self.segment_table().wf()
        &&& self.assignment_table().wf()
        &&& forall|t: u64| #[trigger] self.task_table()@.contains_key(t) ==> self.task_table()@[t].id.0 == t
        &&& forall|k: (u64, u32)|
            #[trigger] self.segment_table()@.contains_key(k) ==> self.segment_table()@[k].id@ == k
        &&& completions_distinct(self.completions())
        &&& forall|i: int|
            0 <= i < self.completions().len() ==> self.segment_table()@.contains_key(
                (#[trigger] self.completions()[i]).0@,
            )
    }

    /// There are no more completions than a vector can hold.
    pub proof fn lemma_completions_fit(&self)
        ensures
            self.completions().len() <= usize::MAX,
    {
        assert(self.completed_segments@.len() == self.completed_segments.len());
    }

    /// Whether every segment of task `t` has been completed.
    pub open spec fn task_complete(&self, t: u64) -> bool {
        let total = count_task_segments(self.segment_table().pairs(), t);
        total > 0 && total == completed_of_task(self.completions(), t).len()
    }

    pub fn new() -> (m: Self)
        ensures
            m.wf(),
            m.task_table()@ == Map::<u64, RenderingTask>::empty(),
            m.segment_table().pairs() == Seq::<(SegmentId, Segment)>::empty(),
            m.assignment_table()@ == Map::<(u64, u32), WorkerId>::empty(),
            m.completions() == Seq::<(SegmentId, WorkerId)>::empty(),
    {
        TaskManager {
            tasks: AssocMap::new(),
            segments: AssocMap::new(),
            segment_assignments: AssocMap::new(),
            completed_segments: Vec::new(),
        }
    }

    pub fn add_task(&mut self, task: RenderingTask)
        requires
            old(self).wf(),
        ensures
            final(self).wf(),
            final(self).task_table()@ == old(self).task_table()@.insert(task.id.0, task),
            final(self).segment_table() == old(self).segment_table(),
            final(self).assignment_table() == old(self).assignment_table(),
            final(self).completions() == old(self).completions(),
    {
        let id = task.id;
        self.tasks.insert(id, task);
    }

    pub fn add_segment(&mut self, segment: Segment)
        requires
            old(self).wf(),
        ensures
            final(self).wf(),
            final(self).segment_table()@ == old(self).segment_table()@.insert(segment.id@, segment),
            old(self).segment_table()@.contains_key(segment.id@) ==> final(self).segment_table().pairs().len()
                == old(self).segment_table().pairs().len(),
            !old(self).segment_table()@.contains_key(segment.id@) ==> final(self).segment_table().pairs()
                == old(self).segment_table().pairs().push((segment.id, segment)),
            final(self).task_table() == old(self).task_table(),
            final(self).assignment_table() == old(self).assignment_table(),
            final(self).completions() == old(self).completions(),
    {
        let id = segment.id;
        self.segments.insert(id, segment);
    }

    /// Gives the segment `segment_id`, if it is known, to `worker_id` with
    /// status `status`, and records the assignment.
    fn set_assignment(&mut self, segment_id: &SegmentId, worker_id: &WorkerId, status: SegmentStatus)
        requires
            old(self).wf(),
        ensures
            assignment_recorded(final(self), old(self), *segment_id, *worker_id, status),
            final(self).completions() == old(self).completions(),
    {
        match self.segments.index_of(segment_id) {
            Some(i) => {
                proof {
                    self.segments.lemma_view();
                }
                let (key, mut segment) = self.segments.remove_at(i);
                segment.assigned_to = Some(worker_id.clone());
                segment.status = status;
                self.segments.insert_at(i, key, segment);
                proof {
                    assert(self.segments@ =~= old(self).segments@.insert(
                        segment_id@,
                        with_assignment(old(self).segments@[segment_id@], *worker_id, status),
                    ));
                    let op = old(self).segments.pairs();
                    assert forall|j: int| 0 <= j < op.len() implies #[trigger] self.segments.pairs()[j]
                        == if op[j].0@ == segment_id@ {
                        (op[j].0, with_assignment(op[j].1, *worker_id, status))
                    } else {
                        op[j]
                    } by {
                        if j != i {
                            if j < i {
                                assert(op[j].0@ != op[i as int].0@);
                            } else {
                                assert(op[i as int].0@ != op[j].0@);
                            }
                        }
                    }
                }
            },
            None => {
                proof {
                    self.segments.lemma_view();
                    let op = self.segments.pairs();
                    assert forall|j: int| 0 <= j < op.len() implies op[j].0@ != segment_id@ by {
                        assert(self.segments@.contains_key(op[j].0@));
                    }
                }
            },
        }
        self.segment_assignments.insert(*segment_id, worker_id.clone());
    }

    /// Whether segment `segment_id` has been completed.
    fn is_completed(&self, segment_id: &SegmentId) -> (b: bool)
        ensures
            b == is_completed_in(self.completions(), *segment_id),
    {
        let mut i: usize = 0;
        while i < self.completed_segments.len()
            invariant
                i <= self.completions().len(),
                forall|j: int| 0 <= j < i ==> (#[trigger] self.completions()[j]).0 != *segment_id,
            decreases self.completed_segments.len() - i,
        {
            let c = self.completed_segments[i].0;
            if c.task_id.0 == segment_id.task_id.0 && c.segment_index == segment_id.segment_index {
                assert(self.completions()[i as int].0 == *segment_id);
                return true;
            }
            i = i + 1;
        }
        false
    }

    /// Records that `worker_id` completed `segment_id`: the segment, if
    /// known, is given to the worker and verified, and the assignment is
    /// recorded; a known segment not completed before is recorded as
    /// completed by the worker (a segment is completed once, and earns one
    /// lottery entry, for the first worker to complete it).
    pub fn mark_segment_completed(&mut self, segment_id: &SegmentId, worker_id: &WorkerId)
        requires
            old(self).wf(),
        ensures
            final(self).wf(),
            completion_recorded(final(self), old(self), *segment_id, *worker_id),
    {
        let known = self.segments.contains_key(segment_id);
        let done = self.is_completed(segment_id);
        self.set_assignment(segment_id, worker_id, SegmentStatus::Verified);
        if known && !done {
            let ghost before = self.completions();
            self.completed_segments.push((*segment_id, worker_id.clone()));
            proof {
                let c = self.completions();
                assert forall|a: int, b: int| 0 <= a < b < c.len() implies (#[trigger] c[a]).0 != (
                #[trigger] c[b]).0 by {
                    if b == c.len() - 1 {
                        assert(c[a] == before[a]);
                        if c[a].0 == *segment_id {
                            assert(is_completed_in(before, *segment_id));
                        }
                    } else {
                        assert(c[a] == before[a]);
                        assert(c[b] == before[b]);
                    }
                }
                assert forall|i: int| 0 <= i < c.len() implies self.segment_table()@.contains_key(
                    (#[trigger] c[i]).0@,
                ) by {
                    if i < before.len() {
                        assert(c[i] == before[i]);
                    }
                }
            }
        }
    }

    /// Gives the segment `segment_id`, if known, to `worker_id`, and records
    /// the assignment.
    pub fn assign_segment(&mut self, segment_id: &SegmentId, worker_id: &WorkerId)
        requires
            old(self).wf(),
        ensures
            assignment_recorded(final(self), old(self), *segment_id, *worker_id, SegmentStatus::Assigned),
            final(self).completions() == old(self).completions(),
    {
        self.set_assignment(segment_id, worker_id, SegmentStatus::Assigned);
    }

    /// Whether the task has segments and as many completions as segments.
    pub fn is_task_complete(&self, task_id: TaskId) -> (b: bool)
        requires
            self.wf(),
        ensures
            b == self.task_complete(task_id.0),
    {
        let t = task_id.0;
        let mut total: usize = 0;
        let mut i: usize = 0;
        let n = self.segments.len();
        while i < n
            invariant
                self.wf(),
                n == self.segment_table().pairs().len(),
                i <= n,
                total == count_task_segments(self.segment_table().pairs().subrange(0, i as int), t),
                total <= i,
            decreases n - i,
        {
            let ghost s = self.segment_table().pairs();
            proof {
                assert(s.subrange(0, i + 1).drop_last() =~= s.subrange(0, i as int));
            }
            if self.segments.value_at(i).task_id.0 == t {
                total = total + 1;
            }
            i = i + 1;
        }
        proof {
            let s = self.segment_table().pairs();
            assert(s.subrange(0, n as int) =~= s);
        }
        let mut done: usize = 0;
        let mut j: usize = 0;
        let m = self.completed_segments.len();
        while j < m
            invariant
                m == self.completions().len(),
                j <= m,
                done == completed_of_task(self.completions().subrange(0, j as int), t).len(),
                done <= j,
            decreases m - j,
        {
            let ghost c = self.completions();
            proof {
                assert(c.subrange(0, j + 1).drop_last() =~= c.subrange(0, j as int));
            }
            if self.completed_segments[j].0.task_id.0 == t {
                done = done + 1;
            }
            j = j + 1;
        }
        proof {
            let c = self.completions();
            assert(c.subrange(0, m as int) =~= c);
        }
        total > 0 && total == done
    }

    /// One lottery entry per completed segment of the task, numbered from
    /// zero in completion order, each naming the worker who completed the
    /// segment; no segment has two entries.
    pub fn get_lottery_entries(&self, task_id: TaskId) -> (entries: Vec<LotteryEntry>)
        requires
            self.wf(),
        ensures
            entries@.len() == completed_of_task(self.completions(), task_id.0).len(),
            forall|j: int|
                0 <= j < entries@.len() ==> is_lottery_entry(
                    #[trigger] entries@[j],
                    j,
                    task_id.0,
                    completed_of_task(self.completions(), task_id.0)[j],
                ),
            forall|a: int, b: int|
                0 <= a < b < entries@.len() ==> (#[trigger] entries@[a]).segment_id != (#[trigger] entries@[b]).segment_id,
    {
        let t = task_id.0;
        let mut entries: Vec<LotteryEntry> = Vec::new();
        let mut i: usize = 0;
        let m = self.completed_segments.len();
        while i < m
            invariant
                self.wf(),
                m == self.completions().len(),
                i <= m,
                entries@.len() == completed_of_task(self.completions().subrange(0, i as int), t).len(),
                entries@.len() <= i,
                forall|j: int|
                    0 <= j < entries@.len() ==> is_lottery_entry(
                        #[trigger] entries@[j],
                        j,
                        t,
                        completed_of_task(self.completions().subrange(0, i as int), t)[j],
                    ),
            decreases m - i,
        {
            let ghost c = self.completions();
            let ghost before = completed_of_task(c.subrange(0, i as int), t);
            proof {
                assert(c.subrange(0, i + 1).drop_last() =~= c.subrange(0, i as int));
            }
            let seg_id = self.completed_segments[i].0;
            if seg_id.task_id.0 == t {
                let worker_id = self.completed_segments[i].1.clone();
                let idx = entries.len() as u64;
                entries.push(
                    LotteryEntry {
                        id: idx,
                        task_id: TaskId(t),
                        worker_id,
                        segment_id: seg_id,
                        entry_type: EntryType::SegmentCompletion,
                        created_at: 0,
                    },
                );
                proof {
                    let after = completed_of_task(c.subrange(0, i + 1), t);
                    assert(after == before.push(c[i as int]));
                    assert forall|j: int| 0 <= j < entries@.len() implies is_lottery_entry(
                        #[trigger] entries@[j],
                        j,
                        t,
                        after[j],
                    ) by {
                        if j < before.len() {
                            assert(after[j] == before[j]);
                        }
                    }
                }
            }
            i = i + 1;
        }
        proof {
            let c = self.completions();
            assert(c.subrange(0, m as int) =~= c);
            lemma_completed_of_task(c, t);
            let f = completed_of_task(c, t);
            assert forall|a: int, b: int| 0 <= a < b < entries@.len() implies (#[trigger] entries@[a]).segment_id
                != (#[trigger] entries@[b]).segment_id by {
                assert(is_lottery_entry(entries@[a], a, t, f[a]));
                assert(is_lottery_entry(entries@[b], b, t, f[b]));
            }
        }
        entries
    }

    pub fn get_task(&self, task_id: TaskId) -> (r: Option<RenderingTask>)
        requires
            self.wf(),
        ensures
            match r {
                Some(t) => self.task_table()@.contains_key(task_id.0) && t.same_as(
                    &self.task_table()@[task_id.0],
                ),
                None => !self.task_table()@.contains_key(task_id.0),
            },
    {
        match self.tasks.get(&task_id) {
            Some(t) => Some(t.clone()),
            None => None,
        }
    }

    /// Copies of the first `limit` pending segments, in the order the
    /// segments were added.
    pub fn get_pending_segments(&self, limit: usize) -> (r: Vec<Segment>)
        requires
            self.wf(),
        ensures
            ({
                let pending = pending_of(self.segment_table().pairs());
                &&& r@.len() == if limit < pending.len() {
                    limit as int
                } else {
                    pending.len() as int
                }
                &&& forall|j: int| 0 <= j < r@.len() ==> (#[trigger] r@[j]).same_as(&pending[j])
            }),
            forall|j: int|
                0 <= j < r@.len() ==> self.segment_table()@.contains_key((#[trigger] r@[j]).id@)
                    && r@[j].status == SegmentStatus::Pending,
            forall|a: int, b: int| 0 <= a < b < r@.len() ==> (#[trigger] r@[a]).id@ != (#[trigger] r@[b]).id@,
    {
        let mut r: Vec<Segment> = Vec::new();
        let mut i: usize = 0;
        let n = self.segments.len();
        while i < n && r.len() < limit
            invariant
                self.wf(),
                n == self.segment_table().pairs().len(),
                i <= n,
                r@.len() <= limit,
                r@.len() == pending_of(self.segment_table().pairs().subrange(0, i as int)).len(),
                forall|j: int|
                    0 <= j < r@.len() ==> (#[trigger] r@[j]).same_as(
                        &pending_of(self.segment_table().pairs().subrange(0, i as int))[j],
                    ),
            decreases n - i,
        {
            let ghost s = self.segment_table().pairs();
            let ghost before = pending_of(s.subrange(0, i as int));
            proof {
                assert(s.subrange(0, i + 1).drop_last() =~= s.subrange(0, i as int));
            }
            let seg = self.segments.value_at(i);
            if seg.status == SegmentStatus::Pending {
                r.push(seg.clone());
                proof {
                    let after = pending_of(s.subrange(0, i + 1));
                    assert forall|j: int| 0 <= j < r@.len() implies (#[trigger] r@[j]).same_as(
                        &after[j],
                    ) by {
                        if j < before.len() {
                            assert(after[j] == before[j]);
                        }
                    }
                }
            }
            i = i + 1;
        }
        proof {
            let s = self.segment_table().pairs();
            if i == n {
                assert(s.subrange(0, n as int) =~= s);
            } else {
                lemma_pending_prefix(s, i as int);
            }
            crate::assoc_map::lemma_map_of_index(s);
            assert forall|k: int| 0 <= k < s.len() implies (#[trigger] s[k]).1.id@ == s[k].0@ by {
                assert(self.segment_table()@.contains_key(s[k].0@));
            }
            lemma_pending_ids(s);
            let pending = pending_of(s);
            assert forall|j: int| 0 <= j < r@.len() implies self.segment_table()@.contains_key(
                (#[trigger] r@[j]).id@,
            ) && r@[j].status == SegmentStatus::Pending by {
                let k = choose|k: int| 0 <= k < s.len() && s[k].1 == pending[j];
                assert(r@[j].same_as(&pending[j]));
                assert(self.segment_table()@.contains_key(s[k].0@));
            }
            assert forall|a: int, b: int| 0 <= a < b < r@.len() implies (#[trigger] r@[a]).id@ != (
            #[trigger] r@[b]).id@ by {
                assert(r@[a].same_as(&pending[a]));
                assert(r@[b].same_as(&pending[b]));
            }
        }
        r
    }

    pub fn task_count(&self) -> (n: u64)
        requires
            self.wf(),
        ensures
            n == self.task_table()@.len(),
    {
        self.tasks.len() as u64
    }

    pub fn pending_segment_count(&self) -> (n: u64)
        requires
            self.wf(),
        ensures
            n == pending_of(self.segment_table().pairs()).len(),
    {
        let mut count: usize = 0;
        let mut i: usize = 0;
        let n = self.segments.len();
        while i < n
            invariant
                self.wf(),
                n == self.segment_table().pairs().len(),
                i <= n,
                count == pending_of(self.segment_table().pairs().subrange(0, i as int)).len(),
                count <= i,
            decreases n - i,
        {
            let ghost s = self.segment_table().pairs();
            proof {
                assert(s.subrange(0, i + 1).drop_last() =~= s.subrange(0, i as int));
            }
            if self.segments.value_at(i).status == SegmentStatus::Pending {
                count = count + 1;
            }
            i = i + 1;
        }
        proof {
            let s = self.segment_table().pairs();
            assert(s.subrange(0, n as int) =~= s);
        }
        count as u64
    }

    pub fn completed_segment_count(&self) -> (n: u64)
        ensures
            n == self.completions().len(),
    {
        self.completed_segments.len() as u64
    }
}

/// Each pending segment of `s` is one of the segments of `s`, pending, and
/// when each segment is stored under its own identifier and no key occurs
/// twice, no two pending segments share an identifier.
pub proof fn lemma_pending_ids(s: Seq<(SegmentId, Segment)>)
    requires
        crate::assoc_map::keys_distinct(s),
        forall|i: int| 0 <= i < s.len() ==> (#[trigger] s[i]).1.id@ == s[i].0@,
    ensures
        forall|j: int|
            0 <= j < pending_of(s).len() ==> exists|i: int|
                0 <= i < s.len() && s[i].1 == #[trigger] pending_of(s)[j],
        forall|j: int|
            0 <= j < pending_of(s).len() ==> (#[trigger] pending_of(s)[j]).status == SegmentStatus::Pending,
        forall|a: int, b: int|
            0 <= a < b < pending_of(s).len() ==> (#[trigger] pending_of(s)[a]).id@ != (
            #[trigger] pending_of(s)[b]).id@,
    decreases s.len(),
{
    if s.len() > 0 {
        let p = s.drop_last();
        assert(crate::assoc_map::keys_distinct(p)) by {
            assert forall|a: int, b: int| 0 <= a < b < p.len() implies p[a].0@ != p[b].0@ by {
                assert(p[a] == s[a]);
                assert(p[b] == s[b]);
            }
        }
        assert forall|i: int| 0 <= i < p.len() implies (#[trigger] p[i]).1.id@ == p[i].0@ by {
            assert(p[i] == s[i]);
        }
        lemma_pending_ids(p);
        let f = pending_of(s);
        let fp = pending_of(p);
        assert forall|j: int| 0 <= j < f.len() implies exists|i: int|
            0 <= i < s.len() && s[i].1 == #[trigger] f[j] by {
            if j < fp.len() {
                let i = choose|i: int| 0 <= i < p.len() && p[i].1 == fp[j];
                assert(f[j] == fp[j]);
                assert(s[i] == p[i]);
            } else {
                assert(s[s.len() - 1].1 == f[j]);
            }
        }
        assert forall|a: int, b: int| 0 <= a < b < f.len() implies (#[trigger] f[a]).id@ != (
        #[trigger] f[b]).id@ by {
            if b < fp.len() {
                assert(f[a] == fp[a]);
                assert(f[b] == fp[b]);
            } else {
                assert(f[a] == fp[a]);
                let i = choose|i: int| 0 <= i < p.len() && p[i].1 == fp[a];
                assert(s[i] == p[i]);
                assert(f[b] == s[s.len() - 1].1);
                assert(s[i].0@ != s[s.len() - 1].0@);
            }
        }
    }
}

/// The pending segments of a prefix are a prefix of the pending segments.
proof fn lemma_pending_prefix(s: Seq<(SegmentId, Segment)>, i: int)
    requires
        0 <= i <= s.len(),
    ensures
        pending_of(s.subrange(0, i)).len() <= pending_of(s).len(),
        forall|j: int|
            0 <= j < pending_of(s.subrange(0, i)).len() ==> #[trigger] pending_of(s.subrange(0, i))[j]
                == pending_of(s)[j],
    decreases s.len() - i,
{
    if i < s.len() {
        lemma_pending_prefix(s, i + 1);
        let a = s.subrange(0, i);
        let b = s.subrange(0, i + 1);
        assert(b.drop_last() =~= a);
        assert forall|j: int| 0 <= j < pending_of(a).len() implies #[trigger] pending_of(a)[j]
            == pending_of(s)[j] by {
            assert(pending_of(a)[j] == pending_of(b)[j]);
        }
    } else {
        assert(s.subrange(0, i) =~= s);
    }
}

} // verus!
