//! The lottery state that coordinators replicate and merge with each other.

use crate::assoc_map::{keys_distinct, lemma_map_of_index, map_of, AssocMap, MapKey};
use crate::clock::unix_time_secs;
use crate::types::{status_rank, ParticipantRecord, RenderingTask, Segment, SegmentId, TaskId, WorkerId, WorkerNode, LotteryResult};
use vstd::prelude::*;

verus! {

/// Merge of two maps in which a key present on both sides takes the other
/// side's value only when `newer` says it is newer than this side's.
pub open spec fn merge_newer<K, V>(
    mine: Map<K, V>,
    theirs: Map<K, V>,
    newer: spec_fn(V, V) -> bool,
) -> Map<K, V> {
    Map::new(
        |k: K| mine.contains_key(k) || theirs.contains_key(k),
        |k: K|
            if theirs.contains_key(k) && (!mine.contains_key(k) || newer(theirs[k], mine[k])) {
                theirs[k]
            } else {
                mine[k]
            },
    )
}

/// Values that carry a version: of two values for one key, a merge keeps
/// the newer.
pub trait Versioned: Sized {
    /// `a` is newer than `b`.
    spec fn newer(a: Self, b: Self) -> bool;

    /// Whether this value is newer than `other`.
    fn is_newer(&self, other: &Self) -> (b: bool)
        ensures
            b == Self::newer(*self, *other),
    ;
}

/// The "newer" relation of a versioned type.
pub open spec fn newer_of<V: Versioned>() -> spec_fn(V, V) -> bool {
    |a: V, b: V| V::newer(a, b)
}

/// A task replaces another when it was created later.
impl Versioned for RenderingTask {
    open spec fn newer(a: Self, b: Self) -> bool {
        a.created_at > b.created_at
    }

    fn is_newer(&self, other: &Self) -> (b: bool) {
        self.created_at > other.created_at
    }
}

/// A segment replaces another when its status is further along.
impl Versioned for Segment {
    open spec fn newer(a: Self, b: Self) -> bool {
        status_rank(a.status) > status_rank(b.status)
    }

    fn is_newer(&self, other: &Self) -> (b: bool) {
        self.status.rank() > other.status.rank()
    }
}

/// A worker replaces another when its heartbeat is more recent.
impl Versioned for WorkerNode {
    open spec fn newer(a: Self, b: Self) -> bool {
        a.last_heartbeat > b.last_heartbeat
    }

    fn is_newer(&self, other: &Self) -> (b: bool) {
        self.last_heartbeat > other.last_heartbeat
    }
}

/// A participant record replaces another when it was updated later.
impl Versioned for ParticipantRecord {
    open spec fn newer(a: Self, b: Self) -> bool {
        a.last_updated > b.last_updated
    }

    fn is_newer(&self, other: &Self) -> (b: bool) {
        self.last_updated > other.last_updated
    }
}

/// A task replaces another when it was created later.
pub open spec fn newer_task() -> spec_fn(RenderingTask, RenderingTask) -> bool {
    newer_of::<RenderingTask>()
}

/// A segment replaces another when its status is further along.
pub open spec fn further_segment() -> spec_fn(Segment, Segment) -> bool {
    newer_of::<Segment>()
}

/// A worker replaces another when its heartbeat is more recent.
pub open spec fn fresher_worker() -> spec_fn(WorkerNode, WorkerNode) -> bool {
    newer_of::<WorkerNode>()
}

/// A participant record replaces another when it was updated later.
pub open spec fn later_record() -> spec_fn(ParticipantRecord, ParticipantRecord) -> bool {
    newer_of::<ParticipantRecord>()
}

/// The larger of two numbers.
pub open spec fn max_u64(a: u64, b: u64) -> u64 {
    if a >= b {
        a
    } else {
        b
    }
}

/// One step of a keyed merge: folding one more pair of the other side into
/// the merge of a prefix.
pub proof fn lemma_merge_newer_step<K: View, V>(
    mine: Map<K::V, V>,
    p: Seq<(K, V)>,
    k: K,
    v: V,
    newer: spec_fn(V, V) -> bool,
)
    requires
        keys_distinct(p.push((k, v))),
    ensures
        ({
            let cur = merge_newer(mine, map_of(p), newer);
            &&& cur.contains_key(k@) <==> mine.contains_key(k@)
            &&& cur.contains_key(k@) ==> cur[k@] == mine[k@]
            &&& merge_newer(mine, map_of(p.push((k, v))), newer) == if cur.contains_key(k@)
                && !newer(v, cur[k@]) {
                cur
            } else {
                cur.insert(k@, v)
            }
        }),
{
    let q = p.push((k, v));
    assert(q.drop_last() =~= p);
    assert(keys_distinct(p)) by {
        assert forall|a: int, b: int| 0 <= a < b < p.len() implies p[a].0@ != p[b].0@ by {
            assert(q[a] == p[a]);
            assert(q[b] == p[b]);
        }
    }
    lemma_map_of_index(p);
    assert(!map_of(p).contains_key(k@)) by {
        if map_of(p).contains_key(k@) {
            let i = choose|i: int| 0 <= i < p.len() && p[i].0@ == k@;
            assert(q[i] == p[i]);
            assert(q[q.len() - 1] == (k, v));
        }
    }
    let cur = merge_newer(mine, map_of(p), newer);
    let rhs = if cur.contains_key(k@) && !newer(v, cur[k@]) {
        cur
    } else {
        cur.insert(k@, v)
    };
    assert(merge_newer(mine, map_of(q), newer) =~= rhs);
}

/// Merges the pairs of `other` into `mine`: a key on both sides takes the
/// other side's value only when it is newer.
pub fn merge_map<K: MapKey, V: Versioned>(mine: &mut AssocMap<K, V>, other: AssocMap<K, V>)
    requires
        old(mine).wf(),
        other.wf(),
    ensures
        final(mine).wf(),
        final(mine)@ == merge_newer(old(mine)@, other@, newer_of::<V>()),
{
    let ghost start = mine@;
    let ghost theirs = other.pairs();
    let mut rest = other.into_pairs();
    let ghost mut done: int = 0;
    proof {
        assert(theirs.subrange(0, 0) =~= Seq::<(K, V)>::empty());
        assert(merge_newer(start, map_of(theirs.subrange(0, 0)), newer_of::<V>()) =~= start);
        assert(rest@ =~= theirs.subrange(0, theirs.len() as int));
    }
    while rest.len() > 0
        invariant
            mine.wf(),
            keys_distinct(theirs),
            0 <= done <= theirs.len(),
            rest@ == theirs.subrange(done, theirs.len() as int),
            mine@ == merge_newer(start, map_of(theirs.subrange(0, done)), newer_of::<V>()),
        decreases rest.len(),
    {
        let (k, v) = rest.remove(0);
        proof {
            let p = theirs.subrange(0, done);
            assert(theirs.subrange(0, done + 1) =~= p.push((k, v)));
            assert(keys_distinct(p.push((k, v)))) by {
                let q = p.push((k, v));
                assert forall|a: int, b: int| 0 <= a < b < q.len() implies q[a].0@ != q[b].0@ by {
                    assert(q[a] == theirs[a]);
                    assert(q[b] == theirs[b]);
                }
            }
            lemma_merge_newer_step(start, p, k, v, newer_of::<V>());
            mine.lemma_view();
        }
        match mine.index_of(&k) {
            Some(i) => {
                if v.is_newer(mine.value_at(i)) {
                    mine.set_value_at(i, v);
                }
            },
            None => {
                mine.insert(k, v);
            },
        }
        proof {
            done = done + 1;
            assert(rest@ =~= theirs.subrange(done, theirs.len() as int));
        }
    }
    proof {
        assert(theirs.subrange(0, done) =~= theirs);
    }
}

/// Mergeable state that coordinators replicate across the network.
#[derive(Debug)]
pub struct LotteryState {
    pub epoch: u64,
    pub tasks: AssocMap<TaskId, RenderingTask>,
    pub segments: AssocMap<SegmentId, Segment>,
    pub workers: AssocMap<WorkerId, WorkerNode>,
    pub lottery_results: Vec<LotteryResult>,
    pub participant_records: AssocMap<WorkerId, ParticipantRecord>,
    pub last_updated: u64,
}

impl LotteryState {
    /// Every map holds each key once.
    pub open spec fn wf(&self) -> bool {
        &&& self.tasks.wf()
        &&& self.segments.wf()
        &&& self.workers.wf()
        &&& self.participant_records.wf()
    }

    /// Two states can be merged without overflowing the epoch.
    pub open spec fn mergeable(&self, other: &Self) -> bool {
        max_u64(self.epoch, other.epoch) < u64::MAX
    }

    /// `new` is the merge of `other` into `old`, apart from the time stamp.
    pub open spec fn merged_from(new: &Self, old: &Self, other: &Self) -> bool {
        &&& new.wf()
        &&& new.tasks@ == merge_newer(old.tasks@, other.tasks@, newer_task())
        &&& new.segments@ == merge_newer(old.segments@, other.segments@, further_segment())
        &&& new.workers@ == merge_newer(old.workers@, other.workers@, fresher_worker())
        &&& new.lottery_results@ == old.lottery_results@ + other.lottery_results@
        &&& new.participant_records@ == merge_newer(
            old.participant_records@,
            other.participant_records@,
            later_record(),
        )
        &&& new.epoch == max_u64(old.epoch, other.epoch) + 1
    }

    pub fn new() -> (s: Self)
        ensures
            s.wf(),
            s.epoch == 0,
            s.last_updated == 0,
            s.tasks@ == Map::<u64, RenderingTask>::empty(),
            s.segments@ == Map::<(u64, u32), Segment>::empty(),
            s.workers@ == Map::<Seq<char>, WorkerNode>::empty(),
            s.lottery_results@ == Seq::<LotteryResult>::empty(),
            s.participant_records@ == Map::<Seq<char>, ParticipantRecord>::empty(),
    {
        LotteryState {
            epoch: 0,
            tasks: AssocMap::new(),
            segments: AssocMap::new(),
            workers: AssocMap::new(),
            lottery_results: Vec::new(),
            participant_records: AssocMap::new(),
            last_updated: 0,
        }
    }

    /// Merges the state of another node into this one (see `merge_at`) and
    /// stamps it with the current time.
    pub fn merge(&mut self, other: Self)
        requires
            old(self).wf(),
            other.wf(),
            old(self).mergeable(&other),
        ensures
            Self::merged_from(final(self), old(self), &other),
    {
        let now = unix_time_secs();
        self.merge_at(other, now);
    }

    /// Merges the state of another node into this one: tasks keep the most
    /// recently created version, segments the status furthest along, workers
    /// the most recent heartbeat; lottery results are appended; participant
    /// records present on both sides keep the one updated last, whole. The epoch becomes one more than the larger of
    /// the two, and the state is stamped with `now`.
    pub fn merge_at(&mut self, other: Self, now: u64)
        requires
            old(self).wf(),
            other.wf(),
            old(self).mergeable(&other),
        ensures
            Self::merged_from(final(self), old(self), &other),
            final(self).last_updated == now,
    {
        let LotteryState {
            epoch: other_epoch,
            tasks: other_tasks,
            segments: other_segments,
            workers: other_workers,
            lottery_results: mut other_results,
            participant_records: other_records,
            last_updated: _,
        } = other;
        merge_map(&mut self.tasks, other_tasks);
        merge_map(&mut self.segments, other_segments);
        merge_map(&mut self.workers, other_workers);
        self.lottery_results.append(&mut other_results);
        merge_map(&mut self.participant_records, other_records);
        let e = if self.epoch >= other_epoch {
            self.epoch
        } else {
            other_epoch
        };
        self.epoch = e + 1;
        self.last_updated = now;
    }

}

} // verus!
