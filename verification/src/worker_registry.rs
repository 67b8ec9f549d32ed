//! The registry of worker nodes and their health.

use crate::assoc_map::AssocMap;
use crate::clock::unix_time_secs;
use crate::types::{WorkerId, WorkerNode};
use vstd::prelude::*;

verus! {

/// The identifiers of the workers in `s` whose last heartbeat is more than
/// `timeout` seconds before `now`, in order.
pub open spec fn stale_ids(s: Seq<(WorkerId, WorkerNode)>, now: u64, timeout: u64) -> Seq<WorkerId>
    decreases s.len(),
{
    if s.len() == 0 {
        Seq::empty()
    } else if now - s.last().1.last_heartbeat > timeout {
        stale_ids(s.drop_last(), now, timeout).push(s.last().1.id)
    } else {
        stale_ids(s.drop_last(), now, timeout)
    }
}

/// The workers of `m` heard from within `timeout` seconds before `now`.
pub open spec fn fresh_workers(m: Map<Seq<char>, WorkerNode>, now: u64, timeout: u64) -> Map<Seq<char>, WorkerNode> {
    Map::new(|w: Seq<char>| m.contains_key(w) && now - m[w].last_heartbeat <= timeout, |w: Seq<char>| m[w])
}

/// Each stale identifier of `s` is the key of a stale worker of `s`, each
/// stale worker's key is among them, and, with distinct keys, each worker
/// stored under its own identifier, no identifier occurs twice.
pub proof fn lemma_stale_ids(s: Seq<(WorkerId, WorkerNode)>, now: u64, timeout: u64)
    requires
        crate::assoc_map::keys_distinct(s),
        forall|i: int| 0 <= i < s.len() ==> (#[trigger] s[i]).1.id@ == s[i].0@,
    ensures
        forall|j: int|
            0 <= j < stale_ids(s, now, timeout).len() ==> exists|i: int|
                0 <= i < s.len() && s[i].0@ == (#[trigger] stale_ids(s, now, timeout)[j])@ && now
                    - s[i].1.last_heartbeat > timeout,
        forall|i: int|
            0 <= i < s.len() && now - (#[trigger] s[i]).1.last_heartbeat > timeout ==> exists|j: int|
                0 <= j < stale_ids(s, now, timeout).len() && stale_ids(s, now, timeout)[j]@ == s[i].0@,
        forall|a: int, b: int|
            0 <= a < b < stale_ids(s, now, timeout).len() ==> (#[trigger] stale_ids(s, now, timeout)[a])@ != (
            #[trigger] stale_ids(s, now, timeout)[b])@,
    decreases s.len(),
{
    if s.len() > 0 {
        let p = s.drop_last();
        assert(crate::assoc_map::keys_distinct(p)) by {
            assert forall|a: int, b: int| 0 <= a < b < p.len() implies p[a].0@ != p[b].0@ by {
                assert(p[a] == s[a]);
                assert(p[b] == s[b]);
            }
        }
        assert forall|i: int| 0 <= i < p.len() implies (#[trigger] p[i]).1.id@ == p[i].0@ by {
            assert(p[i] == s[i]);
        }
        lemma_stale_ids(p, now, timeout);
        let f = stale_ids(s, now, timeout);
        let fp = stale_ids(p, now, timeout);
        let last = s[s.len() - 1];
        assert forall|j: int| 0 <= j < f.len() implies exists|i: int|
            0 <= i < s.len() && s[i].0@ == (#[trigger] f[j])@ && now - s[i].1.last_heartbeat > timeout by {
            if j < fp.len() {
                assert(f[j] == fp[j]);
                let i = choose|i: int|
                    0 <= i < p.len() && p[i].0@ == fp[j]@ && now - p[i].1.last_heartbeat > timeout;
                assert(s[i] == p[i]);
            } else {
                assert(f[j] == last.1.id);
            }
        }
        assert forall|i: int| 0 <= i < s.len() && now - (#[trigger] s[i]).1.last_heartbeat > timeout implies exists|j: int|
            0 <= j < f.len() && f[j]@ == s[i].0@ by {
            if i < p.len() {
                assert(p[i] == s[i]);
                let j = choose|j: int| 0 <= j < fp.len() && fp[j]@ == p[i].0@;
                assert(f[j] == fp[j]);
            } else {
                assert(f[f.len() - 1] == last.1.id);
            }
        }
        assert forall|a: int, b: int| 0 <= a < b < f.len() implies (#[trigger] f[a])@ != (#[trigger] f[b])@ by {
            if b < fp.len() {
                assert(f[a] == fp[a]);
                assert(f[b] == fp[b]);
            } else {
                assert(f[a] == fp[a]);
                assert(f[b] == last.1.id);
                if f[a]@ == last.1.id@ {
                    let i = choose|i: int|
                        0 <= i < p.len() && p[i].0@ == fp[a]@ && now - p[i].1.last_heartbeat > timeout;
                    assert(s[i] == p[i]);
                }
            }
        }
    }
}

/// The workers in `s` that are not working on a segment, in order.
pub open spec fn idle_workers(s: Seq<(WorkerId, WorkerNode)>) -> Seq<WorkerNode>
    decreases s.len(),
{
    if s.len() == 0 {
        Seq::empty()
    } else if s.last().1.current_segment is None {
        idle_workers(s.drop_last()).push(s.last().1)
    } else {
        idle_workers(s.drop_last())
    }
}

/// `w` after a successful completion, with the scores the caller derived.
pub open spec fn after_completion(w: WorkerNode, reputation_bits: u64, completion_bits: u64) -> WorkerNode {
    WorkerNode {
        reputation_score_bits: reputation_bits,
        completion_rate_bits: completion_bits,
        total_segments_completed: (w.total_segments_completed + 1) as u64,
        ..w
    }
}

/// `w` after a proof of work it sent was rejected, with the reputation score
/// the caller lowered.
pub open spec fn after_rejection(w: WorkerNode, reputation_bits: u64) -> WorkerNode {
    WorkerNode { reputation_score_bits: reputation_bits, ..w }
}

/// Registry of active worker nodes.
pub struct WorkerRegistry {
    workers: AssocMap<WorkerId, WorkerNode>,
}

impl WorkerRegistry {
    /// The workers, by identifier, in the order they registered.
    pub closed spec fn worker_table(&self) -> AssocMap<WorkerId, WorkerNode> {
        self.workers
    }

    /// No worker is registered twice, and each is stored under its own
    /// identifier.
    pub open spec fn wf(&self) -> bool {
        &&& self.worker_table().wf()
        &&& forall|w: Seq<char>|
            #[trigger] self.worker_table()@.contains_key(w) ==> self.worker_table()@[w].id@ == w
    }

    /// No worker's heartbeat is later than `now`.
    pub open spec fn heartbeats_up_to(&self, now: u64) -> bool {
        forall|i: int|
            0 <= i < self.worker_table().pairs().len() ==> (#[trigger] self.worker_table().pairs()[i]).1.last_heartbeat
                <= now
    }

    pub fn new() -> (r: Self)
        ensures
            r.wf(),
            r.worker_table().pairs() == Seq::<(WorkerId, WorkerNode)>::empty(),
            r.worker_table()@ == Map::<Seq<char>, WorkerNode>::empty(),
    {
        WorkerRegistry { workers: AssocMap::new() }
    }

    /// Registers a worker under its identifier, replacing any earlier entry.
    pub fn register_worker(&mut self, worker: WorkerNode)
        requires
            old(self).wf(),
        ensures
            final(self).wf(),
            final(self).worker_table()@ == old(self).worker_table()@.insert(worker.id@, worker),
    {
        let id = worker.id.clone();
        self.workers.insert(id, worker);
    }

    pub fn remove_worker(&mut self, worker_id: &WorkerId)
        requires
            old(self).wf(),
        ensures
            final(self).wf(),
            final(self).worker_table()@ == old(self).worker_table()@.remove(worker_id@),
    {
        self.workers.remove(worker_id);
    }

    pub fn get_worker(&self, worker_id: &WorkerId) -> (r: Option<WorkerNode>)
        requires
            self.wf(),
        ensures
            match r {
                Some(w) => self.worker_table()@.contains_key(worker_id@) && w == self.worker_table()@[worker_id@],
                None => !self.worker_table()@.contains_key(worker_id@),
            },
    {
        match self.workers.get(worker_id) {
            Some(w) => Some(w.clone()),
            None => None,
        }
    }

    /// Whether no worker's heartbeat is later than `now`.
    pub fn all_heartbeats_up_to(&self, now: u64) -> (b: bool)
        requires
            self.wf(),
        ensures
            b == self.heartbeats_up_to(now),
    {
        let n = self.workers.len();
        let mut i: usize = 0;
        while i < n
            invariant
                n == self.worker_table().pairs().len(),
                i <= n,
                forall|j: int| 0 <= j < i ==> (#[trigger] self.worker_table().pairs()[j]).1.last_heartbeat <= now,
            decreases n - i,
        {
            if self.workers.value_at(i).last_heartbeat > now {
                return false;
            }
            i = i + 1;
        }
        true
    }

    /// The workers whose last heartbeat is more than `timeout` seconds
    /// before `now`.
    pub fn stale_workers_at(&self, now: u64, timeout_secs: u64) -> (r: Vec<WorkerId>)
        requires
            self.wf(),
            self.heartbeats_up_to(now),
        ensures
            r@ == stale_ids(self.worker_table().pairs(), now, timeout_secs),
            forall|a: int, b: int| 0 <= a < b < r@.len() ==> (#[trigger] r@[a])@ != (#[trigger] r@[b])@,
            forall|j: int|
                0 <= j < r@.len() ==> self.worker_table()@.contains_key((#[trigger] r@[j])@) && now
                    - self.worker_table()@[r@[j]@].last_heartbeat > timeout_secs,
    {
        let mut r: Vec<WorkerId> = Vec::new();
        let n = self.workers.len();
        let mut i: usize = 0;
        while i < n
            invariant
                self.wf(),
                self.heartbeats_up_to(now),
                n == self.worker_table().pairs().len(),
                i <= n,
                r@ == stale_ids(self.worker_table().pairs().subrange(0, i as int), now, timeout_secs),
            decreases n - i,
        {
            let ghost s = self.worker_table().pairs();
            proof {
                assert(s.subrange(0, i + 1).drop_last() =~= s.subrange(0, i as int));
                assert(s[i as int].1.last_heartbeat <= now);
            }
            let w = self.workers.value_at(i);
            if now - w.last_heartbeat > timeout_secs {
                r.push(w.id.clone());
            }
            i = i + 1;
        }
        proof {
            let s = self.worker_table().pairs();
            assert(s.subrange(0, n as int) =~= s);
            self.lemma_keys_are_ids();
            lemma_stale_ids(s, now, timeout_secs);
            crate::assoc_map::lemma_map_of_index(s);
            assert forall|j: int| 0 <= j < r@.len() implies self.worker_table()@.contains_key((#[trigger] r@[j])@)
                && now - self.worker_table()@[r@[j]@].last_heartbeat > timeout_secs by {
                let i = choose|i: int|
                    0 <= i < s.len() && s[i].0@ == r@[j]@ && now - s[i].1.last_heartbeat > timeout_secs;
                assert(self.worker_table()@.contains_key(s[i].0@));
            }
        }
        r
    }

    /// Each pair's key is the identifier of its worker.
    pub proof fn lemma_keys_are_ids(&self)
        requires
            self.wf(),
        ensures
            forall|i: int|
                0 <= i < self.worker_table().pairs().len() ==> (#[trigger] self.worker_table().pairs()[i]).1.id@
                    == self.worker_table().pairs()[i].0@,
    {
        let s = self.worker_table().pairs();
        crate::assoc_map::lemma_map_of_index(s);
        assert forall|i: int| 0 <= i < s.len() implies (#[trigger] s[i]).1.id@ == s[i].0@ by {
            assert(self.worker_table()@.contains_key(s[i].0@));
        }
    }

    /// The workers whose last heartbeat is more than `timeout` seconds before
    /// the current time, or `None` when some heartbeat is later than the
    /// clock's reading.
    pub fn get_stale_workers(&self, timeout_secs: u64) -> (r: Option<Vec<WorkerId>>)
        requires
            self.wf(),
        ensures
            match r {
                Some(v) => {
                    &&& exists|now: u64|
                        self.heartbeats_up_to(now) && v@ == stale_ids(self.worker_table().pairs(), now, timeout_secs)
                    &&& forall|a: int, b: int| 0 <= a < b < v@.len() ==> (#[trigger] v@[a])@ != (#[trigger] v@[b])@
                },
                None => exists|now: u64| !self.heartbeats_up_to(now),
            },
    {
        let now = unix_time_secs();
        if self.all_heartbeats_up_to(now) {
            Some(self.stale_workers_at(now, timeout_secs))
        } else {
            None
        }
    }

    /// Copies of the workers that are not working on a segment, in the order
    /// they registered: the candidates among which the best available worker
    /// is chosen by reputation.
    pub fn available_workers(&self) -> (r: Vec<WorkerNode>)
        requires
            self.wf(),
        ensures
            r@ == idle_workers(self.worker_table().pairs()),
    {
        let mut r: Vec<WorkerNode> = Vec::new();
        let n = self.workers.len();
        let mut i: usize = 0;
        while i < n
            invariant
                self.wf(),
                n == self.worker_table().pairs().len(),
                i <= n,
                r@ == idle_workers(self.worker_table().pairs().subrange(0, i as int)),
            decreases n - i,
        {
            let ghost s = self.worker_table().pairs();
            proof {
                assert(s.subrange(0, i + 1).drop_last() =~= s.subrange(0, i as int));
            }
            let w = self.workers.value_at(i);
            if w.current_segment.is_none() {
                r.push(w.clone());
            }
            i = i + 1;
        }
        proof {
            let s = self.worker_table().pairs();
            assert(s.subrange(0, n as int) =~= s);
        }
        r
    }

    /// Records a successful completion by `worker_id`, if registered: one
    /// more completed segment, and the reputation and completion scores the
    /// caller derived from the worker's current ones.
    pub fn record_successful_completion(
        &mut self,
        worker_id: &WorkerId,
        processing_time_ms: u64,
        reputation_score_bits: u64,
        completion_rate_bits: u64,
    )
        requires
            old(self).wf(),
            old(self).worker_table()@.contains_key(worker_id@) ==> old(self).worker_table()@[worker_id@].total_segments_completed
                < u64::MAX,
        ensures
            final(self).wf(),
            old(self).worker_table()@.contains_key(worker_id@) ==> final(self).worker_table()@
                == old(self).worker_table()@.insert(
                worker_id@,
                after_completion(
                    old(self).worker_table()@[worker_id@],
                    reputation_score_bits,
                    completion_rate_bits,
                ),
            ),
            !old(self).worker_table()@.contains_key(worker_id@) ==> final(self).worker_table()@
                == old(self).worker_table()@,
    {
        match self.workers.index_of(worker_id) {
            Some(i) => {
                proof {
                    self.workers.lemma_view();
                }
                let (key, mut w) = self.workers.remove_at(i);
                w.reputation_score_bits = reputation_score_bits;
                w.completion_rate_bits = completion_rate_bits;
                w.total_segments_completed = w.total_segments_completed + 1;
                self.workers.insert_at(i, key, w);
                proof {
                    assert(self.workers@ =~= old(self).workers@.insert(
                        worker_id@,
                        after_completion(
                            old(self).workers@[worker_id@],
                            reputation_score_bits,
                            completion_rate_bits,
                        ),
                    ));
                }
            },
            None => {},
        }
    }

    /// Records that a proof of work sent by `worker_id`, if registered, was
    /// rejected: its reputation score becomes the lowered one the caller
    /// derived from its current one.
    pub fn record_rejected_proof(&mut self, worker_id: &WorkerId, reputation_score_bits: u64)
        requires
            old(self).wf(),
        ensures
            final(self).wf(),
            old(self).worker_table()@.contains_key(worker_id@) ==> final(self).worker_table()@
                == old(self).worker_table()@.insert(
                worker_id@,
                after_rejection(old(self).worker_table()@[worker_id@], reputation_score_bits),
            ),
            !old(self).worker_table()@.contains_key(worker_id@) ==> final(self).worker_table()@
                == old(self).worker_table()@,
    {
        match self.workers.index_of(worker_id) {
            Some(i) => {
                proof {
                    self.workers.lemma_view();
                }
                let (key, mut w) = self.workers.remove_at(i);
                w.reputation_score_bits = reputation_score_bits;
                self.workers.insert_at(i, key, w);
                proof {
                    assert(self.workers@ =~= old(self).workers@.insert(
                        worker_id@,
                        after_rejection(old(self).workers@[worker_id@], reputation_score_bits),
                    ));
                }
            },
            None => {},
        }
    }

    pub fn worker_count(&self) -> (n: u64)
        requires
            self.wf(),
        ensures
            n == self.worker_table()@.len(),
    {
        self.workers.len() as u64
    }
}

} // verus!
