//! The coordinator node's logic: splitting tasks into segments, accepting
//! results, aggregating complete tasks and drawing their lotteries.

use crate::assoc_map::AssocMap;
use crate::freenet_scaffold::{credit_fits, credited, entry_workers, participation_rewarded, FreenetScaffoldState};
use crate::hashing::{
    append_hex, content_address, hex_of, le_bytes_u32, push_all, push_char, push_le_u32, sha256,
    sha256_digest,
};
use crate::lottery_engine::{winner_index, LotteryEngine};
use crate::proof_of_work::{check_difficulty, meets_difficulty};
use crate::result_aggregator::{aggregate_output, ResultAggregator};
use crate::lottery_state::LotteryState;
use crate::task_manager::{completed_of_task, completion_recorded, is_lottery_entry, pending_of, TaskManager};
use crate::types::{
    LotteryResult, ParticipantRecord, ProofOfWork, RenderingTask, Segment, SegmentId, SegmentResult, SegmentStatus,
    TaskId, WorkerId, WorkerNode,
};
use crate::worker_registry::{after_completion, after_rejection, fresh_workers, stale_ids, WorkerRegistry};
use vstd::prelude::*;
use vstd::utf8::encode_utf8;

verus! {

/// Bytes per segment: the content size divided by the segment count,
/// rounded up.
pub open spec fn segment_size(task: RenderingTask) -> int {
    (task.content_size + task.segment_count - 1) / (task.segment_count as int)
}

/// First byte of segment `i`.
pub open spec fn segment_start(task: RenderingTask, i: int) -> int {
    i * segment_size(task)
}

/// One past the last byte of segment `i`.
pub open spec fn segment_end(task: RenderingTask, i: int) -> int {
    let e = (i + 1) * segment_size(task);
    if e < task.content_size {
        e
    } else {
        task.content_size as int
    }
}

/// The task can be split: it has segments, the content size plus the
/// segment count fits in 64 bits, and no segment starts past the end of the
/// content.
pub open spec fn decomposable(task: RenderingTask) -> bool {
    &&& task.segment_count > 0
    &&& task.content_size + task.segment_count <= u64::MAX
    &&& (task.segment_count - 1) * segment_size(task) <= task.content_size
}

/// Content address of segment `i` of the task: "Qm", the task's content
/// address, "/", and the hex SHA-256 digest of the task's content address
/// followed by the segment index (four bytes, least significant first).
pub open spec fn segment_data_hash(task: RenderingTask, i: u32) -> Seq<char> {
    seq!['Q', 'm'] + task.content_hash@ + seq!['/'] + hex_of(
        sha256(encode_utf8(task.content_hash@) + le_bytes_u32(i)),
    )
}

/// `s` is segment `i` of the task, pending and unassigned.
pub open spec fn is_task_segment(task: RenderingTask, i: u32, s: Segment) -> bool {
    &&& s.id == SegmentId { task_id: task.id, segment_index: i }
    &&& s.task_id == task.id
    &&& s.segment_index == i
    &&& s.data_hash@ == segment_data_hash(task, i)
    &&& s.data_size == segment_end(task, i as int) - segment_start(task, i as int)
    &&& s.parameters.pairs() == task.parameters.pairs()
    &&& s.assigned_to is None
    &&& s.status == SegmentStatus::Pending
    &&& s.proof_of_work is None
}

/// The total data size of some segments.
pub open spec fn total_data_size(s: Seq<Segment>) -> int
    decreases s.len(),
{
    if s.len() == 0 {
        0
    } else {
        total_data_size(s.drop_last()) + s.last().data_size
    }
}

/// `segs` is the decomposition of the task: its segments in index order.
pub open spec fn is_decomposition(task: RenderingTask, segs: Seq<Segment>) -> bool {
    &&& segs.len() == task.segment_count
    &&& forall|i: int| 0 <= i < segs.len() ==> is_task_segment(task, i as u32, #[trigger] segs[i])
}

/// Arithmetic facts behind the segment boundaries.
proof fn lemma_segment_bounds(task: RenderingTask, i: int)
    requires
        decomposable(task),
        0 <= i < task.segment_count,
    ensures
        0 <= segment_start(task, i) <= task.content_size,
        (i + 1) * segment_size(task) <= u64::MAX,
        (i + 1) * segment_size(task) == segment_start(task, i) + segment_size(task),
        segment_start(task, i) <= segment_end(task, i),
        segment_size(task) >= 0,
{
    let n = task.segment_count as int;
    let c = task.content_size as int;
    let s = segment_size(task);
    assert(s >= 0) by {
        vstd::arithmetic::div_mod::lemma_fundamental_div_mod(c + n - 1, n);
        vstd::arithmetic::div_mod::lemma_mod_pos_bound(c + n - 1, n);
        assert(n * s >= 0) by (nonlinear_arith)
            requires
                n * s + (c + n - 1) % n == c + n - 1,
                0 <= (c + n - 1) % n < n,
                c >= 0,
        ;
        assert(s >= 0) by (nonlinear_arith)
            requires
                n * s >= 0,
                n > 0,
        ;
    }
    vstd::arithmetic::mul::lemma_mul_inequality(i, n - 1, s);
    vstd::arithmetic::mul::lemma_mul_inequality(0, i, s);
    vstd::arithmetic::mul::lemma_mul_inequality(i + 1, n, s);
    vstd::arithmetic::mul::lemma_mul_is_distributive_add_other_way(s, i, 1);
    vstd::arithmetic::div_mod::lemma_fundamental_div_mod(c + n - 1, n);
    vstd::arithmetic::div_mod::lemma_mod_pos_bound(c + n - 1, n);
    vstd::arithmetic::mul::lemma_mul_is_commutative(n, s);
}

/// The segments together cover the content exactly.
pub proof fn lemma_content_covered(task: RenderingTask)
    requires
        decomposable(task),
    ensures
        segment_end(task, task.segment_count - 1) == task.content_size,
{
    let n = task.segment_count as int;
    let c = task.content_size as int;
    let s = segment_size(task);
    vstd::arithmetic::div_mod::lemma_fundamental_div_mod(c + n - 1, n);
    vstd::arithmetic::div_mod::lemma_mod_pos_bound(c + n - 1, n);
    vstd::arithmetic::mul::lemma_mul_is_commutative(n, s);
    assert(n * s >= c);
}

/// Whether the task can be split (see `decomposable`).
pub fn can_decompose(task: &RenderingTask) -> (b: bool)
    ensures
        b == decomposable(*task),
{
    let n = task.segment_count as u64;
    if n == 0 || task.content_size > u64::MAX - n {
        return false;
    }
    let size = (task.content_size + n - 1) / n;
    assert(((n - 1) as u128) * (size as u128) <= 0xffff_ffff_0000_0000_0000_0000u128) by (nonlinear_arith)
        requires
            n <= 0xffff_ffff,
            size <= 0xffff_ffff_ffff_ffff,
            n >= 1,
    ;
    let last_start: u128 = ((n - 1) as u128) * (size as u128);
    last_start <= task.content_size as u128
}

/// Splits the task into its segments, in index order.
pub fn decompose(task: &RenderingTask) -> (r: Result<Vec<Segment>, String>)
    requires
        decomposable(*task),
    ensures
        r matches Ok(segs) && is_decomposition(*task, segs@) && total_data_size(segs@)
            == task.content_size,
{
    let mut segments: Vec<Segment> = Vec::new();
    let n = task.segment_count;
    let seg_len = (task.content_size + n as u64 - 1) / n as u64;
    let mut i: u32 = 0;
    while i < n
        invariant
            decomposable(*task),
            n == task.segment_count,
            seg_len == segment_size(*task),
            i <= n,
            segments@.len() == i,
            forall|j: int| 0 <= j < i ==> is_task_segment(*task, j as u32, #[trigger] segments@[j]),
            i == 0 ==> total_data_size(segments@) == 0,
            i > 0 ==> total_data_size(segments@) == segment_end(*task, i - 1),
        decreases n - i,
    {
        proof {
            lemma_segment_bounds(*task, i as int);
            if i > 0 {
                lemma_segment_bounds(*task, i - 1);
            }
        }
        let start_byte = i as u64 * seg_len;
        let next = (i + 1) as u64 * seg_len;
        let end_byte = if next < task.content_size {
            next
        } else {
            task.content_size
        };
        let seg_size = end_byte - start_byte;

        let mut input: Vec<u8> = Vec::new();
        push_all(&mut input, task.content_hash.as_str().as_bytes());
        push_le_u32(&mut input, i);
        let digest = sha256_digest(input.as_slice());
        let mut data_hash = String::new();
        push_char(&mut data_hash, 'Q');
        push_char(&mut data_hash, 'm');
        data_hash.append(task.content_hash.as_str());
        push_char(&mut data_hash, '/');
        append_hex(&mut data_hash, digest.as_slice());
        proof {
            assert(input@ =~= encode_utf8(task.content_hash@) + le_bytes_u32(i));
            assert(data_hash@ =~= segment_data_hash(*task, i));
        }

        let segment = Segment {
            id: SegmentId { task_id: task.id, segment_index: i },
            task_id: task.id,
            segment_index: i,
            data_hash,
            data_size: seg_size,
            parameters: task.parameters.clone(),
            assigned_to: None,
            status: SegmentStatus::Pending,
            proof_of_work: None,
        };
        let ghost before = segments@;
        segments.push(segment);
        proof {
            assert(segments@.drop_last() =~= before);
            assert(total_data_size(segments@) == total_data_size(before) + seg_size);
            assert(start_byte == segment_start(*task, i as int));
            assert(end_byte == segment_end(*task, i as int));
            if i > 0 {
                assert(segment_end(*task, i - 1) == segment_start(*task, i as int));
            } else {
                assert(segment_start(*task, 0) == 0) by {
                    vstd::arithmetic::mul::lemma_mul_basics(segment_size(*task));
                }
            }
            assert(total_data_size(segments@) == segment_end(*task, i as int));
        }
        i = i + 1;
    }
    proof {
        lemma_content_covered(*task);
    }
    Ok(segments)
}


/// The segment map after adding `segs` in order.
pub open spec fn insert_segments(m: Map<(u64, u32), Segment>, segs: Seq<Segment>) -> Map<(u64, u32), Segment>
    decreases segs.len(),
{
    if segs.len() == 0 {
        m
    } else {
        insert_segments(m, segs.drop_last()).insert(segs.last().id@, segs.last())
    }
}

/// The segment map after adding `segs` holds the keys it held before and
/// those of `segs`, and no others.
pub proof fn lemma_insert_segments_keys(m: Map<(u64, u32), Segment>, segs: Seq<Segment>, k: (u64, u32))
    ensures
        insert_segments(m, segs).contains_key(k) <==> (m.contains_key(k) || exists|j: int|
            0 <= j < segs.len() && (#[trigger] segs[j]).id@ == k),
    decreases segs.len(),
{
    if segs.len() > 0 {
        let p = segs.drop_last();
        lemma_insert_segments_keys(m, p, k);
        if exists|j: int| 0 <= j < p.len() && (#[trigger] p[j]).id@ == k {
            let j = choose|j: int| 0 <= j < p.len() && (#[trigger] p[j]).id@ == k;
            assert(segs[j] == p[j]);
        }
        if exists|j: int| 0 <= j < segs.len() && (#[trigger] segs[j]).id@ == k {
            let j = choose|j: int| 0 <= j < segs.len() && (#[trigger] segs[j]).id@ == k;
            if j < p.len() {
                assert(p[j] == segs[j]);
            }
        }
    }
}

/// The pairs a segment table gets from `segs`: each segment under its
/// identifier, in order.
pub open spec fn segment_pairs(segs: Seq<Segment>) -> Seq<(SegmentId, Segment)> {
    Seq::new(segs.len(), |i: int| (segs[i].id, segs[i]))
}

/// The pending segments of two runs of pairs are those of the first run
/// followed by those of the second.
pub proof fn lemma_pending_append(a: Seq<(SegmentId, Segment)>, b: Seq<(SegmentId, Segment)>)
    ensures
        pending_of(a + b) == pending_of(a) + pending_of(b),
    decreases b.len(),
{
    if b.len() == 0 {
        assert(a + b =~= a);
        assert(pending_of(a) + pending_of(b) =~= pending_of(a));
    } else {
        lemma_pending_append(a, b.drop_last());
        assert((a + b).drop_last() =~= a + b.drop_last());
        assert((a + b).last() == b.last());
        if b.last().1.status == SegmentStatus::Pending {
            assert(pending_of(a) + pending_of(b) =~= (pending_of(a) + pending_of(b.drop_last())).push(
                b.last().1,
            ));
        }
    }
}

/// A run of pending segments is all pending.
pub proof fn lemma_pending_all(segs: Seq<Segment>)
    requires
        forall|i: int| 0 <= i < segs.len() ==> (#[trigger] segs[i]).status == SegmentStatus::Pending,
    ensures
        pending_of(segment_pairs(segs)) == segs,
    decreases segs.len(),
{
    if segs.len() > 0 {
        let p = segs.drop_last();
        lemma_pending_all(p);
        assert(segment_pairs(segs).drop_last() =~= segment_pairs(p));
        assert(segs =~= p.push(segs.last()));
    } else {
        assert(segment_pairs(segs) =~= Seq::<(SegmentId, Segment)>::empty());
    }
}

/// A worker is left after removing the workers `ids` exactly when it was
/// there and is not among them, and it is left unchanged.
pub proof fn lemma_remove_workers(m: Map<Seq<char>, WorkerNode>, ids: Seq<WorkerId>, k: Seq<char>)
    ensures
        remove_workers(m, ids).contains_key(k) <==> (m.contains_key(k) && !exists|j: int|
            0 <= j < ids.len() && (#[trigger] ids[j])@ == k),
        remove_workers(m, ids).contains_key(k) ==> remove_workers(m, ids)[k] == m[k],
    decreases ids.len(),
{
    if ids.len() > 0 {
        let p = ids.drop_last();
        lemma_remove_workers(m, p, k);
        if exists|j: int| 0 <= j < p.len() && (#[trigger] p[j])@ == k {
            let j = choose|j: int| 0 <= j < p.len() && (#[trigger] p[j])@ == k;
            assert(ids[j] == p[j]);
        }
        if exists|j: int| 0 <= j < ids.len() && (#[trigger] ids[j])@ == k {
            let j = choose|j: int| 0 <= j < ids.len() && (#[trigger] ids[j])@ == k;
            if j < p.len() {
                assert(p[j] == ids[j]);
            }
        }
    }
}

/// Removing the stale workers leaves exactly the workers heard from within
/// the timeout.
pub proof fn lemma_eviction_keeps_fresh(reg: WorkerRegistry, stale: Seq<WorkerId>, now: u64, timeout_secs: u64)
    requires
        reg.wf(),
        reg.heartbeats_up_to(now),
        stale == stale_ids(reg.worker_table().pairs(), now, timeout_secs),
    ensures
        remove_workers(reg.worker_table()@, stale) == fresh_workers(reg.worker_table()@, now, timeout_secs),
{
    let start = reg.worker_table()@;
    let ps = reg.worker_table().pairs();
    reg.lemma_keys_are_ids();
    crate::worker_registry::lemma_stale_ids(ps, now, timeout_secs);
    crate::assoc_map::lemma_map_of_index(ps);
    let fresh = fresh_workers(start, now, timeout_secs);
    let fin = remove_workers(start, stale);
    assert forall|k: Seq<char>| #[trigger] fin.contains_key(k) <==> fresh.contains_key(k) by {
        lemma_remove_workers(start, stale, k);
        if start.contains_key(k) {
            let i = choose|i: int| crate::assoc_map::has_key_at(ps, k, i);
            assert(start[k] == ps[i].1);
            if now - ps[i].1.last_heartbeat > timeout_secs {
                let j = choose|j: int| 0 <= j < stale.len() && stale[j]@ == ps[i].0@;
            }
            if exists|j: int| 0 <= j < stale.len() && (#[trigger] stale[j])@ == k {
                let j = choose|j: int| 0 <= j < stale.len() && (#[trigger] stale[j])@ == k;
                let i2 = choose|i2: int|
                    0 <= i2 < ps.len() && ps[i2].0@ == stale[j]@ && now - ps[i2].1.last_heartbeat > timeout_secs;
                assert(start.contains_key(ps[i2].0@));
            }
        }
    }
    assert forall|k: Seq<char>| #[trigger] fin.contains_key(k) implies fin[k] == fresh[k] by {
        lemma_remove_workers(start, stale, k);
    }
    assert(fin =~= fresh);
}

/// The worker map after removing the workers `ids`.
pub open spec fn remove_workers(m: Map<Seq<char>, WorkerNode>, ids: Seq<WorkerId>) -> Map<Seq<char>, WorkerNode>
    decreases ids.len(),
{
    if ids.len() == 0 {
        m
    } else {
        remove_workers(m, ids.drop_last()).remove(ids.last()@)
    }
}

/// Network handle of a coordinator (the messages it sends are the
/// application's concern).
pub struct LibP2PCoordinatorHandle;

impl LibP2PCoordinatorHandle {
    pub fn new() -> Self {
        LibP2PCoordinatorHandle
    }
}

/// Coordinator status snapshot.
#[derive(Debug)]
pub struct CoordinatorStatus {
    pub node_id: String,
    pub active_tasks: u64,
    pub pending_segments: u64,
    pub completed_segments: u64,
    pub active_workers: u64,
    pub lottery_results: u64,
    pub state_epoch: u64,
}

/// The completions of task `t`, one lottery entry each.
pub open spec fn entries_of(tasks: TaskManager, t: u64) -> Seq<(SegmentId, WorkerId)> {
    completed_of_task(tasks.completions(), t)
}

/// The workers named by the lottery entries of task `t`, in order.
pub open spec fn entry_names(tasks: TaskManager, t: u64) -> Seq<WorkerId> {
    entries_of(tasks, t).map_values(|p: (SegmentId, WorkerId)| p.1)
}

/// What a draw takes from outside: its random value, and the raised
/// reputation scores (bit patterns) the caller derived for the participants
/// who do not win (their trust rises by one), by worker.
pub struct DrawInputs {
    pub randomness: Vec<u8>,
    pub trust_bits: AssocMap<WorkerId, u64>,
}

/// Position of the winning entry of task `t` for the draw's random value.
pub open spec fn winning_position(tasks: TaskManager, t: u64, randomness: Seq<u8>) -> int {
    winner_index(sha256(randomness), entries_of(tasks, t).len())
}

/// The name of the worker who wins task `t`'s lottery.
pub open spec fn winning_name(tasks: TaskManager, t: u64, randomness: Seq<u8>) -> Seq<char> {
    entries_of(tasks, t)[winning_position(tasks, t, randomness)].1@
}

/// Crediting task `t`'s reward to its lottery winner does not overflow.
pub open spec fn credit_ok(
    tasks: TaskManager,
    scaffold: FreenetScaffoldState,
    t: u64,
    randomness: Seq<u8>,
) -> bool {
    entries_of(tasks, t).len() > 0 && tasks.task_table()@.contains_key(t) ==> credit_fits(
        scaffold.lottery_state().participant_records@,
        winning_name(tasks, t, randomness),
        tasks.task_table()@[t].reward_pool,
    )
}

/// The outcome `r` of drawing task `t`'s lottery at time `now` with the
/// task manager `tasks`, taking the replica from `before` to `after`.
pub open spec fn drawn(
    tasks: TaskManager,
    before: FreenetScaffoldState,
    after: FreenetScaffoldState,
    t: u64,
    randomness: Seq<u8>,
    trust: Map<Seq<char>, u64>,
    now: u64,
    r: Result<LotteryResult, String>,
) -> bool {
    let entries = entries_of(tasks, t);
    &&& after.wf()
    &&& entries.len() == 0 ==> {
        &&& r matches Err(m) && m@ == "No lottery entries for task"@
        &&& after == before
    }
    &&& entries.len() > 0 && !tasks.task_table()@.contains_key(t) ==> {
        &&& r matches Err(m) && m@ == "Task not found"@
        &&& after == before
    }
    &&& entries.len() > 0 && tasks.task_table()@.contains_key(t) ==> {
        let pos = winning_position(tasks, t, randomness);
        let task = tasks.task_table()@[t];
        let b = before.lottery_state();
        let a = after.lottery_state();
        &&& r matches Ok(res)
        &&& res.task_id == TaskId(t)
        &&& res.epoch == 0
        &&& is_lottery_entry(res.winning_entry, pos, t, entries[pos])
        &&& res.winner_id == res.winning_entry.worker_id
        &&& res.total_entries == entries.len()
        &&& res.reward_amount == task.reward_pool
        &&& res.drawn_at == now
        &&& res.vrf_proof@ == hex_of(sha256(randomness))
        &&& a.lottery_results@ == b.lottery_results@.push(res)
        &&& exists|mid: Map<Seq<char>, ParticipantRecord>|
            {
                &&& #[trigger] credited(mid, b.participant_records@, res.winner_id, task.reward_pool, now)
                &&& participation_rewarded(
                    a.participant_records@,
                    mid,
                    entry_names(tasks, t),
                    res.winner_id@,
                    trust,
                    now,
                )
            }
        &&& a == (LotteryState {
            lottery_results: a.lottery_results,
            participant_records: a.participant_records,
            ..b
        })
    }
}

/// The scores a worker gets from a result, derived by the caller from its
/// current ones: after a completion, and after a rejected proof of work.
#[derive(Debug, Clone, Copy)]
pub struct ScoreUpdate {
    /// Reputation score bits after one more completion.
    pub completed_reputation_bits: u64,
    /// Completion rate bits after one more completion.
    pub completed_rate_bits: u64,
    /// Lowered reputation score bits after a rejected proof of work.
    pub penalized_reputation_bits: u64,
}

/// The state of a coordinator node.
pub struct CoordinatorNode {
    node_id: String,
    task_manager: TaskManager,
    worker_registry: WorkerRegistry,
    result_aggregator: ResultAggregator,
    lottery_engine: LotteryEngine,
    freenet_state: FreenetScaffoldState,
    libp2p_handle: LibP2PCoordinatorHandle,
}

impl CoordinatorNode {
    pub closed spec fn name(&self) -> String {
        self.node_id
    }

    pub closed spec fn tasks(&self) -> TaskManager {
        self.task_manager
    }

    pub closed spec fn registry(&self) -> WorkerRegistry {
        self.worker_registry
    }

    pub closed spec fn aggregator(&self) -> ResultAggregator {
        self.result_aggregator
    }

    pub closed spec fn scaffold(&self) -> FreenetScaffoldState {
        self.freenet_state
    }

    /// Each part is well formed, and every stored segment belongs to a
    /// stored task.
    pub open spec fn wf(&self) -> bool {
        &&& self.tasks().wf()
        &&& self.registry().wf()
        &&& self.aggregator().wf()
        &&& self.scaffold().wf()
        &&& forall|k: (u64, u32)|
            #[trigger] self.tasks().segment_table()@.contains_key(k) ==> self.tasks().task_table()@.contains_key(k.0)
    }

    /// Crediting task `t`'s reward to its lottery winner, drawn with
    /// `randomness`, does not overflow.
    pub open spec fn winner_credit_fits(&self, t: u64, randomness: Seq<u8>) -> bool {
        credit_ok(self.tasks(), self.scaffold(), t, randomness)
    }

    /// The outcome of drawing task `t`'s lottery, from `old` to `new`.
    pub open spec fn lottery_drawn(
        new: &Self,
        old: &Self,
        t: u64,
        randomness: Seq<u8>,
        trust: Map<Seq<char>, u64>,
        now: u64,
        r: Result<LotteryResult, String>,
    ) -> bool {
        &&& new.wf()
        &&& new.name() == old.name()
        &&& new.tasks() == old.tasks()
        &&& new.registry() == old.registry()
        &&& drawn(old.tasks(), old.scaffold(), new.scaffold(), t, randomness, trust, now, r)
    }

    /// The outcome of aggregating task `t` (with the task manager `tasks`)
    /// and drawing its lottery, from the aggregator and replica of `old` to
    /// those of `new`.
    pub open spec fn aggregated(
        new: &Self,
        old: &Self,
        tasks: TaskManager,
        t: u64,
        randomness: Seq<u8>,
        trust: Map<Seq<char>, u64>,
        r: Result<String, String>,
    ) -> bool {
        &&& new.aggregator().cache()@.dom() == old.aggregator().cache()@.dom().insert(t)
        &&& new.aggregator().cache()@[t]@ == aggregate_output()
        &&& credit_ok(tasks, old.scaffold(), t, randomness) ==> exists|d: Result<LotteryResult, String>, now: u64|
            {
                &&& #[trigger] drawn(tasks, old.scaffold(), new.scaffold(), t, randomness, trust, now, d)
                &&& d is Ok ==> (r matches Ok(h) && h@ == content_address(aggregate_output()))
                &&& d matches Err(e) ==> r == Err::<String, String>(e)
            }
        &&& !credit_ok(tasks, old.scaffold(), t, randomness) ==> {
            &&& r matches Err(m) && m@ == "Credit balance overflow"@
            &&& new.scaffold() == old.scaffold()
        }
    }

    /// A coordinator named `node_id` with no tasks, workers or results.
    pub fn new(node_id: String) -> (c: Self)
        ensures
            c.wf(),
            c.name() == node_id,
            c.tasks().task_table()@ == Map::<u64, RenderingTask>::empty(),
            c.tasks().segment_table().pairs() == Seq::<(SegmentId, Segment)>::empty(),
            c.tasks().completions() == Seq::<(SegmentId, WorkerId)>::empty(),
            c.registry().worker_table()@ == Map::<Seq<char>, WorkerNode>::empty(),
            c.aggregator().cache()@ == Map::<u64, Vec<u8>>::empty(),
            c.scaffold().lottery_state().epoch == 0,
            c.scaffold().lottery_state().tasks@ == Map::<u64, RenderingTask>::empty(),
            c.scaffold().lottery_state().lottery_results@ == Seq::<LotteryResult>::empty(),
            c.scaffold().lottery_state().participant_records@ == Map::<Seq<char>, crate::types::ParticipantRecord>::empty(),
    {
        CoordinatorNode {
            node_id,
            task_manager: TaskManager::new(),
            worker_registry: WorkerRegistry::new(),
            result_aggregator: ResultAggregator::new(),
            lottery_engine: LotteryEngine::new(),
            freenet_state: FreenetScaffoldState::new(),
            libp2p_handle: LibP2PCoordinatorHandle::new(),
        }
    }

    pub fn node_id(&self) -> (s: &String)
        ensures
            *s == self.name(),
    {
        &self.node_id
    }

    pub fn task_manager(&self) -> (m: &TaskManager)
        ensures
            *m == self.tasks(),
    {
        &self.task_manager
    }

    pub fn worker_registry(&self) -> (r: &WorkerRegistry)
        ensures
            *r == self.registry(),
    {
        &self.worker_registry
    }

    pub fn freenet_state(&self) -> (s: &FreenetScaffoldState)
        ensures
            *s == self.scaffold(),
    {
        &self.freenet_state
    }

    /// Splits a task into its segments (see `decompose`).
    pub fn decompose_task(&self, task: &RenderingTask) -> (r: Result<Vec<Segment>, String>)
        requires
            decomposable(*task),
        ensures
            r matches Ok(segs) && is_decomposition(*task, segs@) && total_data_size(segs@)
                == task.content_size,
    {
        decompose(task)
    }

    /// Accepts a task: records it, splits it into segments that are recorded
    /// in index order, and records it in the replicated state.
    pub fn submit_task(&mut self, task: RenderingTask) -> (r: Result<TaskId, String>)
        requires
            old(self).wf(),
            decomposable(task),
        ensures
            final(self).wf(),
            r == Ok::<TaskId, String>(task.id),
            final(self).tasks().task_table()@.contains_key(task.id.0),
            final(self).tasks().task_table()@[task.id.0].same_as(&task),
            final(self).tasks().task_table()@.remove(task.id.0) == old(self).tasks().task_table()@.remove(
                task.id.0,
            ),
            exists|segs: Seq<Segment>|
                {
                    &&& #[trigger] is_decomposition(task, segs)
                    &&& final(self).tasks().segment_table()@ == insert_segments(
                        old(self).tasks().segment_table()@,
                        segs,
                    )
                    &&& (!old(self).tasks().task_table()@.contains_key(task.id.0) || forall|j: int|
                        0 <= j < segs.len() ==> !old(self).tasks().segment_table()@.contains_key(
                            (#[trigger] segs[j]).id@,
                        )) ==> {
                        &&& final(self).tasks().segment_table().pairs() == old(self).tasks().segment_table().pairs()
                            + segment_pairs(segs)
                        &&& pending_of(final(self).tasks().segment_table().pairs()) == pending_of(
                            old(self).tasks().segment_table().pairs(),
                        ) + segs
                        &&& pending_of(final(self).tasks().segment_table().pairs()).len() == pending_of(
                            old(self).tasks().segment_table().pairs(),
                        ).len() + task.segment_count
                    }
                },
            final(self).tasks().assignment_table() == old(self).tasks().assignment_table(),
            final(self).tasks().completions() == old(self).tasks().completions(),
            final(self).scaffold().lottery_state().tasks@.contains_key(task.id.0),
            final(self).scaffold().lottery_state().tasks@[task.id.0].same_as(&task),
            final(self).scaffold().lottery_state().tasks@.remove(task.id.0) == old(self).scaffold().lottery_state().tasks@.remove(task.id.0),
            final(self).scaffold().lottery_state() == (LotteryState {
                tasks: final(self).scaffold().lottery_state().tasks,
                ..old(self).scaffold().lottery_state()
            }),
            final(self).registry() == old(self).registry(),
            final(self).aggregator() == old(self).aggregator(),
            final(self).name() == old(self).name(),
    {
        let id = task.id;
        self.task_manager.add_task(task.clone());
        let segments = match self.decompose_task(&task) {
            Ok(s) => s,
            Err(e) => {
                return Err(e);
            },
        };
        let ghost segs = segments@;
        let ghost mid = self.task_manager;
        let ghost fresh = forall|j: int|
            0 <= j < segs.len() ==> !mid.segment_table()@.contains_key((#[trigger] segs[j]).id@);
        proof {
            if !old(self).tasks().task_table()@.contains_key(task.id.0) {
                assert forall|j: int| 0 <= j < segs.len() implies !mid.segment_table()@.contains_key(
                    (#[trigger] segs[j]).id@,
                ) by {
                    assert(is_task_segment(task, j as u32, segs[j]));
                    if mid.segment_table()@.contains_key(segs[j].id@) {
                        assert(old(self).tasks().segment_table()@.contains_key(segs[j].id@));
                    }
                }
            }
        }
        let mut rest = segments;
        let ghost mut done: int = 0;
        proof {
            assert(segs.subrange(0, 0) =~= Seq::<Segment>::empty());
            assert(rest@ =~= segs.subrange(0, segs.len() as int));
            assert(segment_pairs(segs.subrange(0, 0)) =~= Seq::<(SegmentId, Segment)>::empty());
            assert(mid.segment_table().pairs() + segment_pairs(segs.subrange(0, 0)) =~= mid.segment_table().pairs());
        }
        while rest.len() > 0
            invariant
                self.task_manager.wf(),
                0 <= done <= segs.len(),
                rest@ == segs.subrange(done, segs.len() as int),
                self.task_manager.segment_table()@ == insert_segments(
                    mid.segment_table()@,
                    segs.subrange(0, done),
                ),
                self.task_manager.task_table() == mid.task_table(),
                self.task_manager.assignment_table() == mid.assignment_table(),
                self.task_manager.completions() == mid.completions(),
                is_decomposition(task, segs),
                fresh == forall|j: int|
                    0 <= j < segs.len() ==> !mid.segment_table()@.contains_key((#[trigger] segs[j]).id@),
                fresh ==> self.task_manager.segment_table().pairs() == mid.segment_table().pairs()
                    + segment_pairs(segs.subrange(0, done)),
                mid.task_table()@.contains_key(task.id.0),
                forall|k: (u64, u32)|
                    #[trigger] self.task_manager.segment_table()@.contains_key(k)
                        ==> self.task_manager.task_table()@.contains_key(k.0),
                self.freenet_state == old(self).freenet_state,
                self.worker_registry == old(self).worker_registry,
                self.result_aggregator == old(self).result_aggregator,
                self.node_id == old(self).node_id,
            decreases rest.len(),
        {
            let seg = rest.remove(0);
            proof {
                assert(segs.subrange(0, done + 1).drop_last() =~= segs.subrange(0, done));
                assert(segs[done] == seg);
                assert(is_task_segment(task, done as u32, segs[done]));
                if fresh {
                    lemma_insert_segments_keys(mid.segment_table()@, segs.subrange(0, done), seg.id@);
                    assert(!mid.segment_table()@.contains_key(segs[done].id@));
                    assert forall|j: int| 0 <= j < done implies (#[trigger] segs.subrange(0, done)[j]).id@
                        != seg.id@ by {
                        assert(segs.subrange(0, done)[j] == segs[j]);
                        assert(is_task_segment(task, j as u32, segs[j]));
                        assert(is_task_segment(task, done as u32, segs[done]));
                    }
                }
            }
            self.task_manager.add_segment(seg);
            proof {
                if fresh {
                    assert(mid.segment_table().pairs() + segment_pairs(segs.subrange(0, done + 1)) =~= (
                    mid.segment_table().pairs() + segment_pairs(segs.subrange(0, done))).push((seg.id, seg)));
                }
                done = done + 1;
                assert(rest@ =~= segs.subrange(done, segs.len() as int));
            }
        }
        proof {
            assert(segs.subrange(0, done) =~= segs);
            if fresh {
                lemma_pending_append(mid.segment_table().pairs(), segment_pairs(segs));
                assert forall|i: int| 0 <= i < segs.len() implies (#[trigger] segs[i]).status
                    == SegmentStatus::Pending by {
                    assert(is_task_segment(task, i as u32, segs[i]));
                }
                lemma_pending_all(segs);
            }
        }
        self.freenet_state.add_task(task);
        Ok(id)
    }

    /// Whether the proof is genuine: its hash is the digest of its
    /// computation hash and nonce, and has the leading zeros its difficulty
    /// asks for.
    pub fn validate_proof_of_work(&self, proof: &ProofOfWork) -> (b: bool)
        ensures
            b == meets_difficulty(*proof),
    {
        check_difficulty(proof)
    }

    /// Accepts a worker's result. A result whose proof of work is not
    /// genuine is refused, and the worker's reputation is lowered to
    /// `scores.penalized_reputation_bits`. Otherwise the segment is recorded
    /// as completed by the worker, the worker's completion is recorded with
    /// the scores in `scores`, and, when the segment's task is now complete,
    /// its results are aggregated and its lottery drawn with `inputs`;
    /// the result is then the aggregated output's content address.
    pub fn process_result(
        &mut self,
        result: &SegmentResult,
        scores: ScoreUpdate,
        inputs: &DrawInputs,
    ) -> (r: Result<Option<String>, String>)
        requires
            old(self).wf(),
            inputs.trust_bits.wf(),
            old(self).registry().worker_table()@.contains_key(result.worker_id@) ==> old(self).registry().worker_table()@[result.worker_id@].total_segments_completed < u64::MAX,
        ensures
            final(self).wf(),
            final(self).name() == old(self).name(),
            !meets_difficulty(result.proof_of_work) ==> {
                &&& r matches Err(m) && m@ == "Invalid proof of work"@
                &&& final(self).tasks() == old(self).tasks()
                &&& final(self).aggregator() == old(self).aggregator()
                &&& final(self).scaffold() == old(self).scaffold()
                &&& old(self).registry().worker_table()@.contains_key(result.worker_id@) ==> final(self).registry().worker_table()@ == old(self).registry().worker_table()@.insert(
                    result.worker_id@,
                    after_rejection(
                        old(self).registry().worker_table()@[result.worker_id@],
                        scores.penalized_reputation_bits,
                    ),
                )
                &&& !old(self).registry().worker_table()@.contains_key(result.worker_id@) ==> final(self).registry().worker_table()@ == old(self).registry().worker_table()@
            },
            meets_difficulty(result.proof_of_work) ==> {
                let t = result.segment_id.task_id.0;
                &&& completion_recorded(
                    &final(self).tasks(),
                    &old(self).tasks(),
                    result.segment_id,
                    result.worker_id,
                )
                &&& old(self).registry().worker_table()@.contains_key(result.worker_id@) ==> final(self).registry().worker_table()@ == old(self).registry().worker_table()@.insert(
                    result.worker_id@,
                    after_completion(
                        old(self).registry().worker_table()@[result.worker_id@],
                        scores.completed_reputation_bits,
                        scores.completed_rate_bits,
                    ),
                )
                &&& !old(self).registry().worker_table()@.contains_key(result.worker_id@) ==> final(self).registry().worker_table()@ == old(self).registry().worker_table()@
                &&& !final(self).tasks().task_complete(t) ==> {
                    &&& r == Ok::<Option<String>, String>(None)
                    &&& final(self).aggregator() == old(self).aggregator()
                    &&& final(self).scaffold() == old(self).scaffold()
                }
                &&& final(self).tasks().task_complete(t) ==> exists|a: Result<String, String>|
                    {
                        &&& #[trigger] Self::aggregated(final(self), old(self), final(self).tasks(), t, inputs.randomness@, inputs.trust_bits@, a)
                        &&& a matches Ok(h) ==> r == Ok::<Option<String>, String>(Some(h))
                        &&& a matches Err(e) ==> r == Err::<Option<String>, String>(e)
                    }
            },
    {
        if !self.validate_proof_of_work(&result.proof_of_work) {
            self.worker_registry.record_rejected_proof(&result.worker_id, scores.penalized_reputation_bits);
            return Err(String::from_str("Invalid proof of work"));
        }
        self.task_manager.mark_segment_completed(&result.segment_id, &result.worker_id);
        self.worker_registry.record_successful_completion(
            &result.worker_id,
            result.processing_time_ms,
            scores.completed_reputation_bits,
            scores.completed_rate_bits,
        );
        if !self.task_manager.is_task_complete(result.segment_id.task_id) {
            return Ok(None);
        }
        let ghost mid = *self;
        let a = self.aggregate_task_results(result.segment_id.task_id, inputs);
        proof {
            assert(Self::aggregated(self, &mid, mid.tasks(), result.segment_id.task_id.0, inputs.randomness@, inputs.trust_bits@, a));
            assert(mid.aggregator() == old(self).aggregator());
            assert(mid.scaffold() == old(self).scaffold());
            assert(Self::aggregated(self, old(self), self.tasks(), result.segment_id.task_id.0, inputs.randomness@, inputs.trust_bits@, a));
        }
        match a {
            Ok(h) => Ok(Some(h)),
            Err(e) => Err(e),
        }
    }

    /// Records a successful completion by a worker, with the reputation and
    /// completion scores the caller derived from its current ones.
    pub fn record_worker_completion(
        &mut self,
        worker_id: &WorkerId,
        processing_time_ms: u64,
        reputation_score_bits: u64,
        completion_rate_bits: u64,
    )
        requires
            old(self).wf(),
            old(self).registry().worker_table()@.contains_key(worker_id@) ==> old(self).registry().worker_table()@[worker_id@].total_segments_completed
                < u64::MAX,
        ensures
            final(self).wf(),
            old(self).registry().worker_table()@.contains_key(worker_id@) ==> final(self).registry().worker_table()@
                == old(self).registry().worker_table()@.insert(
                worker_id@,
                crate::worker_registry::after_completion(
                    old(self).registry().worker_table()@[worker_id@],
                    reputation_score_bits,
                    completion_rate_bits,
                ),
            ),
            !old(self).registry().worker_table()@.contains_key(worker_id@) ==> final(self).registry().worker_table()@
                == old(self).registry().worker_table()@,
            final(self).tasks() == old(self).tasks(),
            final(self).aggregator() == old(self).aggregator(),
            final(self).scaffold() == old(self).scaffold(),
            final(self).name() == old(self).name(),
    {
        self.worker_registry.record_successful_completion(
            worker_id,
            processing_time_ms,
            reputation_score_bits,
            completion_rate_bits,
        );
    }

    /// Registers a worker.
    pub fn register_worker(&mut self, worker: WorkerNode)
        requires
            old(self).wf(),
        ensures
            final(self).wf(),
            final(self).registry().worker_table()@ == old(self).registry().worker_table()@.insert(
                worker.id@,
                worker,
            ),
            final(self).tasks() == old(self).tasks(),
            final(self).aggregator() == old(self).aggregator(),
            final(self).scaffold() == old(self).scaffold(),
            final(self).name() == old(self).name(),
    {
        self.worker_registry.register_worker(worker);
    }

    /// Draws the lottery of a task at time `now` with the random value
    /// `randomness`: one entry per completed segment, the winner chosen by
    /// the lottery engine from the value's digest, which the result carries
    /// as its proof; the result is recorded in the replicated state and the
    /// task's reward is credited to the winner.
    #[verifier::spinoff_prover]
    pub fn draw_lottery_at(
        &mut self,
        task_id: TaskId,
        final_hash: String,
        inputs: &DrawInputs,
        now: u64,
    ) -> (r: Result<LotteryResult, String>)
        requires
            old(self).wf(),
            inputs.trust_bits.wf(),
            old(self).winner_credit_fits(task_id.0, inputs.randomness@),
        ensures
            Self::lottery_drawn(final(self), old(self), task_id.0, inputs.randomness@, inputs.trust_bits@, now, r),
            final(self).aggregator() == old(self).aggregator(),
    {
        let entries = self.task_manager.get_lottery_entries(task_id);
        if entries.len() == 0 {
            return Err(String::from_str("No lottery entries for task"));
        }
        let winner = match self.lottery_engine.draw_winner(entries.as_slice(), inputs.randomness.as_slice()) {
            Ok(w) => w,
            Err(e) => {
                return Err(e);
            },
        };
        let task = match self.task_manager.get_task(task_id) {
            Some(t) => t,
            None => {
                return Err(String::from_str("Task not found"));
            },
        };
        let digest = sha256_digest(inputs.randomness.as_slice());
        let mut vrf_proof = String::new();
        append_hex(&mut vrf_proof, digest.as_slice());
        let result = LotteryResult {
            task_id,
            epoch: 0,
            winner_id: winner.worker_id.clone(),
            winning_entry: winner.clone(),
            total_entries: entries.len() as u64,
            reward_amount: task.reward_pool,
            drawn_at: now,
            vrf_proof,
        };
        self.freenet_state.add_lottery_result(result.clone());
        self.freenet_state.update_participant_credits_at(&winner.worker_id, task.reward_pool, now);
        let ghost mid = self.freenet_state.lottery_state().participant_records@;
        self.freenet_state.reward_participants_at(entries.as_slice(), &winner.worker_id, &inputs.trust_bits, now);
        proof {
            assert(entry_workers(entries@) =~= entry_names(old(self).tasks(), task_id.0));
            assert(credited(
                mid,
                old(self).scaffold().lottery_state().participant_records@,
                result.winner_id,
                task.reward_pool,
                now,
            ));
            assert(drawn(
                old(self).tasks(),
                old(self).scaffold(),
                self.scaffold(),
                task_id.0,
                inputs.randomness@,
                inputs.trust_bits@,
                now,
                Ok(result),
            ));
        }
        Ok(result)
    }

    /// Draws the lottery of a task (see `draw_lottery_at`), at the time the
    /// system clock reads.
    pub fn draw_lottery_for_task(&mut self, task_id: TaskId, final_hash: String, inputs: &DrawInputs) -> (r: Result<
        LotteryResult,
        String,
    >)
        requires
            old(self).wf(),
            inputs.trust_bits.wf(),
            old(self).winner_credit_fits(task_id.0, inputs.randomness@),
        ensures
            exists|now: u64| Self::lottery_drawn(final(self), old(self), task_id.0, inputs.randomness@, inputs.trust_bits@, now, r),
            final(self).aggregator() == old(self).aggregator(),
    {
        let now = crate::clock::unix_time_secs();
        self.draw_lottery_at(task_id, final_hash, inputs, now)
    }

    /// Whether crediting a task's reward to its lottery winner, drawn with
    /// `randomness`, would keep the winner's balance within 64 bits.
    pub fn can_credit_winner(&self, task_id: TaskId, randomness: &[u8]) -> (b: bool)
        requires
            self.wf(),
        ensures
            b == self.winner_credit_fits(task_id.0, randomness@),
    {
        let entries = self.task_manager.get_lottery_entries(task_id);
        if entries.len() == 0 {
            return true;
        }
        let task = match self.task_manager.get_task(task_id) {
            Some(t) => t,
            None => {
                return true;
            },
        };
        let winner = match self.lottery_engine.draw_winner(entries.as_slice(), randomness) {
            Ok(w) => w,
            Err(_) => {
                return true;
            },
        };
        match self.freenet_state.state().participant_records.get(&winner.worker_id) {
            Some(rec) => rec.credits_balance <= u64::MAX - task.reward_pool,
            None => true,
        }
    }

    /// Aggregates a complete task's results and draws its lottery with
    /// `randomness`; returns the content address of the aggregated output.
    /// When crediting the reward would overflow the winner's balance,
    /// nothing is drawn and an error is returned.
    pub fn aggregate_task_results(&mut self, task_id: TaskId, inputs: &DrawInputs) -> (r: Result<String, String>)
        requires
            old(self).wf(),
            inputs.trust_bits.wf(),
        ensures
            final(self).wf(),
            Self::aggregated(final(self), old(self), old(self).tasks(), task_id.0, inputs.randomness@, inputs.trust_bits@, r),
            final(self).tasks() == old(self).tasks(),
            final(self).registry() == old(self).registry(),
            final(self).name() == old(self).name(),
    {
        let final_hash = match self.result_aggregator.aggregate(task_id) {
            Ok(h) => h,
            Err(e) => {
                return Err(e);
            },
        };
        if !self.can_credit_winner(task_id, inputs.randomness.as_slice()) {
            return Err(String::from_str("Credit balance overflow"));
        }
        let hash_copy = final_hash.clone();
        let ghost mid = *self;
        let drawn_result = self.draw_lottery_for_task(task_id, hash_copy, inputs);
        proof {
            let now = choose|now: u64|
                Self::lottery_drawn(self, &mid, task_id.0, inputs.randomness@, inputs.trust_bits@, now, drawn_result);
            assert(drawn(
                old(self).tasks(),
                old(self).scaffold(),
                self.scaffold(),
                task_id.0,
                inputs.randomness@,
                inputs.trust_bits@,
                now,
                drawn_result,
            ));
        }
        match drawn_result {
            Ok(_) => Ok(final_hash),
            Err(e) => Err(e),
        }
    }

    /// Removes the workers whose last heartbeat is more than `timeout_secs`
    /// seconds old, and returns them; `None` (and nothing removed) when some
    /// heartbeat is later than the clock's reading.
    pub fn evict_stale_workers(&mut self, timeout_secs: u64) -> (r: Option<Vec<WorkerId>>)
        requires
            old(self).wf(),
        ensures
            final(self).wf(),
            match r {
                Some(v) => {
                    &&& exists|now: u64|
                        {
                            &&& #[trigger] old(self).registry().heartbeats_up_to(now)
                            &&& v@ == stale_ids(old(self).registry().worker_table().pairs(), now, timeout_secs)
                            &&& final(self).registry().worker_table()@ == fresh_workers(
                                old(self).registry().worker_table()@,
                                now,
                                timeout_secs,
                            )
                        }
                    &&& final(self).registry().worker_table()@ == remove_workers(
                        old(self).registry().worker_table()@,
                        v@,
                    )
                },
                None => {
                    &&& final(self).registry() == old(self).registry()
                    &&& exists|now: u64| !old(self).registry().heartbeats_up_to(now)
                },
            },
            final(self).tasks() == old(self).tasks(),
            final(self).aggregator() == old(self).aggregator(),
            final(self).scaffold() == old(self).scaffold(),
            final(self).name() == old(self).name(),
    {
        let stale = match self.worker_registry.get_stale_workers(timeout_secs) {
            Some(v) => v,
            None => {
                return None;
            },
        };
        let ghost start = self.worker_registry.worker_table()@;
        let mut i: usize = 0;
        while i < stale.len()
            invariant
                self.worker_registry.wf(),
                i <= stale@.len(),
                self.worker_registry.worker_table()@ == remove_workers(start, stale@.subrange(0, i as int)),
                self.task_manager == old(self).task_manager,
                self.freenet_state == old(self).freenet_state,
                self.result_aggregator == old(self).result_aggregator,
                self.node_id == old(self).node_id,
            decreases stale.len() - i,
        {
            proof {
                assert(stale@.subrange(0, i + 1).drop_last() =~= stale@.subrange(0, i as int));
            }
            self.worker_registry.remove_worker(&stale[i]);
            i = i + 1;
        }
        proof {
            assert(stale@.subrange(0, stale@.len() as int) =~= stale@);
            let reg = old(self).registry();
            let now = choose|now: u64|
                reg.heartbeats_up_to(now) && stale@ == stale_ids(reg.worker_table().pairs(), now, timeout_secs);
            lemma_eviction_keeps_fresh(reg, stale@, now, timeout_secs);
        }
        Some(stale)
    }

    /// Gives pending segments, in order, to the available workers, in the
    /// order given (best first), one segment per worker: as many as there
    /// are pending segments, workers, and at most `limit`. Returns copies of
    /// the segments as they were before.
    pub fn assign_pending_segments(&mut self, workers: &Vec<WorkerId>, limit: usize) -> (r: Vec<Segment>)
        requires
            old(self).wf(),
            forall|a: int, b: int| 0 <= a < b < workers@.len() ==> (#[trigger] workers@[a])@ != (#[trigger] workers@[b])@,
        ensures
            final(self).wf(),
            ({
                let pending = crate::task_manager::pending_of(old(self).tasks().segment_table().pairs());
                let n = if limit < workers@.len() {
                    limit as int
                } else {
                    workers@.len() as int
                };
                &&& r@.len() == if n < pending.len() {
                    n
                } else {
                    pending.len() as int
                }
                &&& forall|j: int| 0 <= j < r@.len() ==> (#[trigger] r@[j]).same_as(&pending[j])
            }),
            forall|a: int, b: int| 0 <= a < b < r@.len() ==> (#[trigger] r@[a]).id@ != (#[trigger] r@[b]).id@,
            forall|j: int|
                0 <= j < r@.len() ==> final(self).tasks().assignment_table()@[(#[trigger] r@[j]).id@]
                    == workers@[j],
            forall|j: int|
                0 <= j < r@.len() ==> final(self).tasks().segment_table()@.contains_key((#[trigger] r@[j]).id@)
                    && final(self).tasks().segment_table()@[r@[j].id@].status == SegmentStatus::Assigned
                    && final(self).tasks().segment_table()@[r@[j].id@].assigned_to == Some(workers@[j]),
            final(self).tasks().task_table() == old(self).tasks().task_table(),
            final(self).tasks().completions() == old(self).tasks().completions(),
            final(self).registry() == old(self).registry(),
            final(self).aggregator() == old(self).aggregator(),
            final(self).scaffold() == old(self).scaffold(),
            final(self).name() == old(self).name(),
    {
        let n = if limit < workers.len() {
            limit
        } else {
            workers.len()
        };
        let pending = self.task_manager.get_pending_segments(n);
        let mut i: usize = 0;
        while i < pending.len()
            invariant
                self.wf(),
                pending@.len() <= n,
                n <= workers@.len(),
                i <= pending@.len(),
                forall|a: int, b: int| 0 <= a < b < pending@.len() ==> (#[trigger] pending@[a]).id@ != (#[trigger] pending@[b]).id@,
                forall|j: int|
                    0 <= j < pending@.len() ==> self.task_manager.segment_table()@.contains_key(
                        (#[trigger] pending@[j]).id@,
                    ),
                forall|j: int|
                    0 <= j < i ==> self.task_manager.assignment_table()@[(#[trigger] pending@[j]).id@]
                        == workers@[j],
                forall|j: int|
                    0 <= j < i ==> self.task_manager.segment_table()@[(#[trigger] pending@[j]).id@].status
                        == SegmentStatus::Assigned && self.task_manager.segment_table()@[pending@[j].id@].assigned_to
                        == Some(workers@[j]),
                self.task_manager.task_table() == old(self).task_manager.task_table(),
                self.task_manager.completions() == old(self).task_manager.completions(),
                self.worker_registry == old(self).worker_registry,
                self.result_aggregator == old(self).result_aggregator,
                self.freenet_state == old(self).freenet_state,
                self.node_id == old(self).node_id,
            decreases pending.len() - i,
        {
            let ghost before = self.task_manager;
            self.task_manager.assign_segment(&pending[i].id, &workers[i]);
            proof {
                assert forall|j: int| 0 <= j < pending@.len() implies self.task_manager.segment_table()@.contains_key(
                    (#[trigger] pending@[j]).id@,
                ) by {
                    assert(before.segment_table()@.contains_key(pending@[j].id@));
                }
                assert forall|j: int| 0 <= j < i + 1 implies self.task_manager.assignment_table()@[(
                #[trigger] pending@[j]).id@] == workers@[j] by {
                    if j < i {
                        assert(pending@[j].id@ != pending@[i as int].id@);
                    }
                }
                assert forall|j: int| 0 <= j < i + 1 implies self.task_manager.segment_table()@[(
                #[trigger] pending@[j]).id@].status == SegmentStatus::Assigned
                    && self.task_manager.segment_table()@[pending@[j].id@].assigned_to == Some(workers@[j]) by {
                    if j < i {
                        assert(pending@[j].id@ != pending@[i as int].id@);
                    }
                }
            }
            i = i + 1;
        }
        pending
    }

    /// Merges a peer coordinator's replicated state into this one.
    pub fn sync_with_peer(&mut self, peer_state: FreenetScaffoldState)
        requires
            old(self).wf(),
            peer_state.wf(),
            old(self).scaffold().lottery_state().mergeable(&peer_state.lottery_state()),
        ensures
            final(self).wf(),
            crate::lottery_state::LotteryState::merged_from(
                &final(self).scaffold().lottery_state(),
                &old(self).scaffold().lottery_state(),
                &peer_state.lottery_state(),
            ),
            final(self).tasks() == old(self).tasks(),
            final(self).registry() == old(self).registry(),
            final(self).aggregator() == old(self).aggregator(),
            final(self).name() == old(self).name(),
    {
        self.freenet_state.merge(peer_state);
    }

    /// A snapshot of the coordinator's counters.
    pub fn get_status(&self) -> (s: CoordinatorStatus)
        requires
            self.wf(),
        ensures
            s.node_id == self.name(),
            s.active_tasks == self.tasks().task_table()@.len(),
            s.pending_segments == crate::task_manager::pending_of(self.tasks().segment_table().pairs()).len(),
            s.completed_segments == self.tasks().completions().len(),
            s.active_workers == self.registry().worker_table()@.len(),
            s.lottery_results == self.scaffold().lottery_state().lottery_results@.len(),
            s.state_epoch == self.scaffold().lottery_state().epoch,
    {
        CoordinatorStatus {
            node_id: self.node_id.clone(),
            active_tasks: self.task_manager.task_count(),
            pending_segments: self.task_manager.pending_segment_count(),
            completed_segments: self.task_manager.completed_segment_count(),
            active_workers: self.worker_registry.worker_count(),
            lottery_results: self.freenet_state.lottery_results_count(),
            state_epoch: self.freenet_state.epoch(),
        }
    }
}

} // verus!
