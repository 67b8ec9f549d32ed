//! Properties of the library as a whole: how replicas merge, how lotteries
//! are drawn and credited, how tasks are split, and how proofs of work pass
//! from workers to coordinators.

use crate::coordinator::{decomposable, segment_end, segment_size, segment_start};
use crate::freenet_scaffold::credited;
use crate::lottery_engine::winner_index;
use crate::lottery_state::{max_u64, LotteryState};
use crate::proof_of_work::{meets_difficulty, proves_work};
use crate::task_manager::{completed_of_task, count_task_segments, TaskManager};
use crate::types::{status_rank, ParticipantRecord, RenderingTask, SegmentStatus, WorkerId};
use vstd::prelude::*;

verus! {

/// Merging advances the epoch past the epochs of both replicas.
pub proof fn law_merge_advances_epoch(new: &LotteryState, old: &LotteryState, other: &LotteryState)
    requires
        LotteryState::merged_from(new, old, other),
    ensures
        new.epoch > old.epoch,
        new.epoch > other.epoch,
{
}

/// Lottery results are an append-only log: a merge keeps this replica's
/// results, in their order, followed by the other replica's.
pub proof fn law_merge_appends_results(new: &LotteryState, old: &LotteryState, other: &LotteryState)
    requires
        LotteryState::merged_from(new, old, other),
    ensures
        new.lottery_results@.len() == old.lottery_results@.len() + other.lottery_results@.len(),
        new.lottery_results@.subrange(0, old.lottery_results@.len() as int) == old.lottery_results@,
        new.lottery_results@.subrange(old.lottery_results@.len() as int, new.lottery_results@.len() as int)
            == other.lottery_results@,
{
    assert(new.lottery_results@.subrange(0, old.lottery_results@.len() as int) =~= old.lottery_results@);
    assert(new.lottery_results@.subrange(
        old.lottery_results@.len() as int,
        new.lottery_results@.len() as int,
    ) =~= other.lottery_results@);
}

/// A merge loses no task, segment, worker or participant, and invents none:
/// each is known afterwards exactly when one of the replicas knew it.
pub proof fn law_merge_keeps_everyone(new: &LotteryState, old: &LotteryState, other: &LotteryState)
    requires
        LotteryState::merged_from(new, old, other),
    ensures
        new.tasks@.dom() == old.tasks@.dom().union(other.tasks@.dom()),
        new.segments@.dom() == old.segments@.dom().union(other.segments@.dom()),
        new.workers@.dom() == old.workers@.dom().union(other.workers@.dom()),
        new.participant_records@.dom() == old.participant_records@.dom().union(
            other.participant_records@.dom(),
        ),
{
    assert(new.tasks@.dom() =~= old.tasks@.dom().union(other.tasks@.dom()));
    assert(new.segments@.dom() =~= old.segments@.dom().union(other.segments@.dom()));
    assert(new.workers@.dom() =~= old.workers@.dom().union(other.workers@.dom()));
    assert(new.participant_records@.dom() =~= old.participant_records@.dom().union(
        other.participant_records@.dom(),
    ));
}

/// A segment's status never moves back in a merge: the merged status is the
/// one furthest along of the two replicas' statuses.
pub proof fn law_merge_status_never_regresses(
    new: &LotteryState,
    old: &LotteryState,
    other: &LotteryState,
    k: (u64, u32),
)
    requires
        LotteryState::merged_from(new, old, other),
        new.segments@.contains_key(k),
    ensures
        old.segments@.contains_key(k) ==> status_rank(new.segments@[k].status) >= status_rank(
            old.segments@[k].status,
        ),
        other.segments@.contains_key(k) ==> status_rank(new.segments@[k].status) >= status_rank(
            other.segments@[k].status,
        ),
{
}

/// A merge keeps, for each task, the most recent creation time, and for each
/// worker, the most recent heartbeat, of the two replicas.
pub proof fn law_merge_keeps_latest(
    new: &LotteryState,
    old: &LotteryState,
    other: &LotteryState,
    t: u64,
    w: Seq<char>,
)
    requires
        LotteryState::merged_from(new, old, other),
    ensures
        old.tasks@.contains_key(t) && other.tasks@.contains_key(t) ==> new.tasks@[t].created_at
            == max_u64(old.tasks@[t].created_at, other.tasks@[t].created_at),
        old.workers@.contains_key(w) && other.workers@.contains_key(w) ==> new.workers@[w].last_heartbeat
            == max_u64(old.workers@[w].last_heartbeat, other.workers@[w].last_heartbeat),
{
}

/// A participant known to both replicas keeps, whole, the record updated
/// last (this replica's on a tie); one known to only one replica keeps that
/// replica's record.
pub proof fn law_merge_participants(
    new: &LotteryState,
    old: &LotteryState,
    other: &LotteryState,
    w: Seq<char>,
)
    requires
        LotteryState::merged_from(new, old, other),
    ensures
        old.participant_records@.contains_key(w) && other.participant_records@.contains_key(w) ==> new.participant_records@[w]
            == if other.participant_records@[w].last_updated > old.participant_records@[w].last_updated {
            other.participant_records@[w]
        } else {
            old.participant_records@[w]
        },
        old.participant_records@.contains_key(w) && !other.participant_records@.contains_key(w)
            ==> new.participant_records@[w] == old.participant_records@[w],
        !old.participant_records@.contains_key(w) && other.participant_records@.contains_key(w)
            ==> new.participant_records@[w] == other.participant_records@[w],
{
}

/// Merging a replica with a copy of itself leaves its tasks, segments,
/// workers and participant records as they were (only the append-only
/// results log grows, and the epoch advances).
pub proof fn law_merge_with_own_copy(new: &LotteryState, old: &LotteryState, copy: &LotteryState)
    requires
        LotteryState::merged_from(new, old, copy),
        copy.tasks@ == old.tasks@,
        copy.segments@ == old.segments@,
        copy.workers@ == old.workers@,
        copy.participant_records@ == old.participant_records@,
    ensures
        new.tasks@ == old.tasks@,
        new.segments@ == old.segments@,
        new.workers@ == old.workers@,
        new.participant_records@ == old.participant_records@,
{
    assert(new.tasks@ =~= old.tasks@);
    assert(new.segments@ =~= old.segments@);
    assert(new.workers@ =~= old.workers@);
    assert(new.participant_records@ =~= old.participant_records@);
}

/// Merging a fresh replica (one with nothing recorded) changes nothing but
/// the epoch, which advances by one.
pub proof fn law_merge_with_fresh_replica(new: &LotteryState, old: &LotteryState, other: &LotteryState)
    requires
        LotteryState::merged_from(new, old, other),
        other.epoch == 0,
        other.tasks@ == Map::<u64, RenderingTask>::empty(),
        other.segments@.dom() == Set::<(u64, u32)>::empty(),
        other.workers@.dom() == Set::<Seq<char>>::empty(),
        other.lottery_results@.len() == 0,
        other.participant_records@ == Map::<Seq<char>, ParticipantRecord>::empty(),
    ensures
        new.tasks@ == old.tasks@,
        new.segments@ == old.segments@,
        new.workers@ == old.workers@,
        new.lottery_results@ == old.lottery_results@,
        new.participant_records@ == old.participant_records@,
        new.epoch == old.epoch + 1,
{
    assert(new.tasks@ =~= old.tasks@);
    assert(new.segments@ =~= old.segments@);
    assert(new.workers@ =~= old.workers@);
    assert(new.lottery_results@ =~= old.lottery_results@);
    assert(new.participant_records@ =~= old.participant_records@);
}

/// Merging in either direction gives the same epoch, the same known
/// entities, the same number of lottery results, and the same task creation
/// times, segment status ranks, worker heartbeats and record update times.
pub proof fn law_merge_direction_agrees(
    ab: &LotteryState,
    ba: &LotteryState,
    a: &LotteryState,
    b: &LotteryState,
)
    requires
        LotteryState::merged_from(ab, a, b),
        LotteryState::merged_from(ba, b, a),
    ensures
        ab.epoch == ba.epoch,
        ab.tasks@.dom() == ba.tasks@.dom(),
        ab.segments@.dom() == ba.segments@.dom(),
        ab.workers@.dom() == ba.workers@.dom(),
        ab.participant_records@.dom() == ba.participant_records@.dom(),
        ab.lottery_results@.len() == ba.lottery_results@.len(),
        forall|t: u64| #[trigger] ab.tasks@.contains_key(t) ==> ab.tasks@[t].created_at == ba.tasks@[t].created_at,
        forall|k: (u64, u32)|
            #[trigger] ab.segments@.contains_key(k) ==> status_rank(ab.segments@[k].status) == status_rank(
                ba.segments@[k].status,
            ),
        forall|w: Seq<char>|
            #[trigger] ab.workers@.contains_key(w) ==> ab.workers@[w].last_heartbeat == ba.workers@[w].last_heartbeat,
        forall|w: Seq<char>|
            #[trigger] ab.participant_records@.contains_key(w) ==> ab.participant_records@[w].last_updated
                == ba.participant_records@[w].last_updated,
{
    assert(ab.tasks@.dom() =~= ba.tasks@.dom());
    assert(ab.segments@.dom() =~= ba.segments@.dom());
    assert(ab.workers@.dom() =~= ba.workers@.dom());
    assert(ab.participant_records@.dom() =~= ba.participant_records@.dom());
}

/// The winning position always designates one of the entries.
pub proof fn law_winner_is_an_entry(digest: Seq<u8>, n: nat)
    requires
        0 < n <= usize::MAX,
    ensures
        0 <= winner_index(digest, n) < n,
{
}

/// A coordinator's draw for a task with entries always picks one of them,
/// whatever the random value.
pub proof fn law_draw_picks_an_entry(c: crate::coordinator::CoordinatorNode, t: u64, randomness: Seq<u8>)
    requires
        c.wf(),
        crate::coordinator::entries_of(c.tasks(), t).len() > 0,
    ensures
        0 <= crate::coordinator::winning_position(c.tasks(), t, randomness) < crate::coordinator::entries_of(
            c.tasks(),
            t,
        ).len(),
{
    c.tasks().lemma_completions_fit();
    crate::task_manager::lemma_completed_of_task(c.tasks().completions(), t);
}

/// Each completed segment is one lottery entry: when a task is complete, its
/// lottery has exactly as many entries as the task has segments.
pub proof fn law_complete_task_has_one_entry_per_segment(tm: &TaskManager, t: u64)
    requires
        tm.task_complete(t),
    ensures
        completed_of_task(tm.completions(), t).len() == count_task_segments(tm.segment_table().pairs(), t),
        completed_of_task(tm.completions(), t).len() > 0,
{
}

/// A proof of work that a worker produces is accepted by a coordinator's
/// validation.
pub proof fn law_worker_proofs_pass_validation(p: crate::types::ProofOfWork, data: Seq<u8>, difficulty: u32)
    requires
        proves_work(p, data, difficulty),
    ensures
        meets_difficulty(p),
{
}

/// Crediting a participant raises its balance by exactly the credits (from
/// zero for a new participant), stamps its record with the time of the
/// change, and leaves every other participant as it was.
pub proof fn law_credit_adds_exactly(
    new: Map<Seq<char>, ParticipantRecord>,
    old: Map<Seq<char>, ParticipantRecord>,
    w: WorkerId,
    credits: u64,
    now: u64,
)
    requires
        credited(new, old, w, credits, now),
        old.contains_key(w@) ==> old[w@].credits_balance + credits <= u64::MAX,
    ensures
        new.contains_key(w@),
        new[w@].credits_balance == (if old.contains_key(w@) {
            old[w@].credits_balance as int
        } else {
            0
        }) + credits,
        new[w@].last_updated == now,
        forall|v: Seq<char>| v != w@ ==> (#[trigger] new.contains_key(v) <==> old.contains_key(v)),
        forall|v: Seq<char>| v != w@ && #[trigger] old.contains_key(v) ==> new[v] == old[v],
{
    if !old.contains_key(w@) {
        assert forall|v: Seq<char>| v != w@ implies (#[trigger] new.contains_key(v) <==> old.contains_key(v)) by {
            assert(new.remove(w@).contains_key(v) == new.contains_key(v));
        }
        assert forall|v: Seq<char>| v != w@ && #[trigger] old.contains_key(v) implies new[v] == old[v] by {
            assert(new.remove(w@)[v] == new[v]);
        }
    }
}

/// Crediting a participant twice at one time gives the same records as
/// crediting it once with the sum.
pub proof fn law_credit_twice_is_credit_of_sum(
    m0: Map<Seq<char>, ParticipantRecord>,
    m1: Map<Seq<char>, ParticipantRecord>,
    m2: Map<Seq<char>, ParticipantRecord>,
    w: WorkerId,
    c1: u64,
    c2: u64,
    now: u64,
)
    requires
        credited(m1, m0, w, c1, now),
        credited(m2, m1, w, c2, now),
        c1 + c2 <= u64::MAX,
        m0.contains_key(w@) ==> m0[w@].credits_balance + c1 + c2 <= u64::MAX,
    ensures
        credited(m2, m0, w, (c1 + c2) as u64, now),
{
    if m0.contains_key(w@) {
        assert(m2 =~= m0.insert(
            w@,
            ParticipantRecord {
                credits_balance: (m0[w@].credits_balance + (c1 + c2) as u64) as u64,
                last_updated: now,
                ..m0[w@]
            },
        ));
    } else {
        assert(m1.contains_key(w@));
        assert(m2.dom() =~= m0.dom().insert(w@));
        assert(m2.remove(w@) =~= m1.remove(w@));
    }
}

/// A draw rewards every participant who did not win: once, with its
/// participation credits (so its balance rises, unless already at the
/// largest balance) and the raised trust the caller gave for it.
pub proof fn law_draw_rewards_participants(
    tasks: TaskManager,
    before: crate::freenet_scaffold::FreenetScaffoldState,
    after: crate::freenet_scaffold::FreenetScaffoldState,
    t: u64,
    randomness: Seq<u8>,
    trust: Map<Seq<char>, u64>,
    now: u64,
    res: crate::types::LotteryResult,
    w: Seq<char>,
)
    requires
        crate::coordinator::drawn(tasks, before, after, t, randomness, trust, now, Ok(res)),
        crate::freenet_scaffold::has_entry_before(
            crate::coordinator::entry_names(tasks, t),
            w,
            crate::coordinator::entry_names(tasks, t).len() as int,
        ),
        w != res.winner_id@,
    ensures
        after.lottery_state().participant_records@.contains_key(w),
        crate::freenet_scaffold::participant_rewarded(
            after.lottery_state().participant_records@[w],
            before.lottery_state().participant_records@,
            w,
            crate::freenet_scaffold::entry_count(crate::coordinator::entry_names(tasks, t), w),
            trust,
            now,
        ),
        before.lottery_state().participant_records@.contains_key(w) ==> after.lottery_state().participant_records@[w].credits_balance
            > before.lottery_state().participant_records@[w].credits_balance || after.lottery_state().participant_records@[w].credits_balance
            == u64::MAX,
        after.lottery_state().participant_records@[w].credits_balance >= 1,
        ({
            let k = crate::freenet_scaffold::entry_count(crate::coordinator::entry_names(tasks, t), w);
            let base: int = if before.lottery_state().participant_records@.contains_key(w) {
                before.lottery_state().participant_records@[w].credits_balance as int
            } else {
                0
            };
            let due: int = base + crate::freenet_scaffold::PARTICIPATION_CREDITS + k
                * crate::freenet_scaffold::CREDITS_PER_SEGMENT;
            after.lottery_state().participant_records@[w].credits_balance == if due > u64::MAX {
                u64::MAX as int
            } else {
                due
            }
        }),
{
    let b = before.lottery_state().participant_records@;
    let task = tasks.task_table()@[t];
    let mid = choose|mid: Map<Seq<char>, ParticipantRecord>|
        #[trigger] credited(mid, b, res.winner_id, task.reward_pool, now)
            && crate::freenet_scaffold::participation_rewarded(
            after.lottery_state().participant_records@,
            mid,
            crate::coordinator::entry_names(tasks, t),
            res.winner_id@,
            trust,
            now,
        );
    if !b.contains_key(res.winner_id@) {
        assert(mid.remove(res.winner_id@).contains_key(w) == mid.contains_key(w));
        if mid.contains_key(w) {
            assert(mid.remove(res.winner_id@)[w] == mid[w]);
        }
    }
    assert(mid.contains_key(w) == b.contains_key(w));
    assert(mid.contains_key(w) ==> mid[w] == b[w]);
}

/// A participant's reward grows with its entries: one more entry gives one
/// more contribution credit (until the balance is capped).
pub proof fn law_participation_grows_with_entries(k: nat)
    ensures
        crate::freenet_scaffold::participation_credits(k + 1) == crate::freenet_scaffold::participation_credits(k)
            + crate::freenet_scaffold::CREDITS_PER_SEGMENT,
        crate::freenet_scaffold::participation_credits(k) == crate::freenet_scaffold::PARTICIPATION_CREDITS + k
            * crate::freenet_scaffold::CREDITS_PER_SEGMENT,
        crate::freenet_scaffold::participation_credits(1) == 2,
        crate::freenet_scaffold::participation_credits(2) == 3,
{
}

/// Evicting the stale workers leaves in the registry exactly the workers
/// heard from within the timeout, as they were.
pub proof fn law_eviction_keeps_fresh_workers(
    reg: crate::worker_registry::WorkerRegistry,
    stale: Seq<WorkerId>,
    now: u64,
    timeout_secs: u64,
)
    requires
        reg.wf(),
        reg.heartbeats_up_to(now),
        stale == crate::worker_registry::stale_ids(reg.worker_table().pairs(), now, timeout_secs),
    ensures
        crate::coordinator::remove_workers(reg.worker_table()@, stale) == crate::worker_registry::fresh_workers(
            reg.worker_table()@,
            now,
            timeout_secs,
        ),
{
    crate::coordinator::lemma_eviction_keeps_fresh(reg, stale, now, timeout_secs);
}

/// A task can be split exactly when it has segments, its size plus its
/// segment count fits in 64 bits, and the last segment, with segments of
/// the content size divided by the count rounded up, starts within the
/// content; the content size need not be a multiple of the count (the last
/// segment is cut at the end of the content).
pub proof fn law_splittable_tasks(task: RenderingTask)
    ensures
        decomposable(task) <==> {
            &&& task.segment_count > 0
            &&& task.content_size + task.segment_count <= u64::MAX
            &&& (task.segment_count - 1) * ((task.content_size + task.segment_count - 1) / (
            task.segment_count as int)) <= task.content_size
        },
{
}

/// Ten bytes split into four segments: segments of three bytes, the last
/// cut to one byte at the end of the content.
pub proof fn law_uneven_split(task: RenderingTask)
    requires
        task.content_size == 10,
        task.segment_count == 4,
    ensures
        decomposable(task),
        segment_size(task) == 3,
        segment_end(task, 3) - segment_start(task, 3) == 1,
{
    assert(segment_size(task) == 3);
    assert(segment_start(task, 3) == 9);
}

/// The lifecycle order of segment statuses: each status is further along
/// than the one declared before it.
pub proof fn law_status_lifecycle_order()
    ensures
        status_rank(SegmentStatus::Pending) < status_rank(SegmentStatus::Assigned),
        status_rank(SegmentStatus::Assigned) < status_rank(SegmentStatus::Processing),
        status_rank(SegmentStatus::Processing) < status_rank(SegmentStatus::Completed),
        status_rank(SegmentStatus::Completed) < status_rank(SegmentStatus::Verified),
        status_rank(SegmentStatus::Verified) < status_rank(SegmentStatus::Failed),
{
}

/// Merging a pending segment with one that has moved on keeps the one that
/// has moved on, in either direction: an assigned segment never goes back to
/// pending; and a failed segment stays failed.
pub proof fn law_merge_moves_segments_on(
    new: &LotteryState,
    old: &LotteryState,
    other: &LotteryState,
    k: (u64, u32),
)
    requires
        LotteryState::merged_from(new, old, other),
        old.segments@.contains_key(k),
        other.segments@.contains_key(k),
    ensures
        old.segments@[k].status == SegmentStatus::Pending && other.segments@[k].status != SegmentStatus::Pending
            ==> new.segments@[k].status == other.segments@[k].status,
        other.segments@[k].status == SegmentStatus::Pending ==> new.segments@[k].status == old.segments@[k].status,
        old.segments@[k].status == SegmentStatus::Pending && other.segments@[k].status == SegmentStatus::Assigned
            ==> new.segments@[k].status == SegmentStatus::Assigned,
        old.segments@[k].status == SegmentStatus::Failed || other.segments@[k].status == SegmentStatus::Failed
            ==> new.segments@[k].status == SegmentStatus::Failed,
{
}

/// Consecutive segments of a task meet with neither gap nor overlap: the
/// first starts at byte zero, each ends where the next starts, and the last
/// ends at the end of the content.
pub proof fn law_segments_tile_content(task: RenderingTask, i: int)
    requires
        decomposable(task),
        0 <= i < task.segment_count,
    ensures
        segment_start(task, 0) == 0,
        i + 1 < task.segment_count ==> segment_end(task, i) == segment_start(task, i + 1),
        segment_end(task, task.segment_count - 1) == task.content_size,
{
    let n = task.segment_count as int;
    let s = segment_size(task);
    vstd::arithmetic::mul::lemma_mul_basics(s);
    if i + 1 < n {
        vstd::arithmetic::mul::lemma_mul_inequality(i + 1, n - 1, s);
    }
    crate::coordinator::lemma_content_covered(task);
}

} // verus!
