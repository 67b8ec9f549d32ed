//! The coordinator's replica of the lottery state.

use crate::assoc_map::AssocMap;
use crate::lottery_state::LotteryState;
use crate::types::{LotteryEntry, LotteryResult, ParticipantRecord, RenderingTask, WorkerId};
use vstd::prelude::*;

verus! {

/// Bit pattern of the reputation score a new participant starts with (the
/// IEEE-754 double for fifty).
pub const INITIAL_REPUTATION_BITS: u64 = 0x4049_0000_0000_0000;

/// `r` is the record a participant gets when first credited with `credits`
/// at time `now`: one lottery win, nothing else accumulated, and no badges.
pub open spec fn is_new_participant(r: ParticipantRecord, w: WorkerId, credits: u64, now: u64) -> bool {
    &&& r.worker_id == w
    &&& r.credits_balance == credits
    &&& r.reputation_score_bits == INITIAL_REPUTATION_BITS
    &&& r.segments_completed == 0
    &&& r.lottery_wins == 1
    &&& r.tasks_submitted == 0
    &&& r.joined_at == 0
    &&& r.badges@.len() == 0
    &&& r.last_updated == now
}

/// `new` is the participant records `old` after crediting `credits` to `w`
/// at time `now`.
pub open spec fn credited(
    new: Map<Seq<char>, ParticipantRecord>,
    old: Map<Seq<char>, ParticipantRecord>,
    w: WorkerId,
    credits: u64,
    now: u64,
) -> bool {
    &&& old.contains_key(w@) ==> new == old.insert(
        w@,
        ParticipantRecord {
            credits_balance: (old[w@].credits_balance + credits) as u64,
            last_updated: now,
            ..old[w@]
        },
    )
    &&& !old.contains_key(w@) ==> {
        &&& new.dom() == old.dom().insert(w@)
        &&& new.remove(w@) == old
        &&& is_new_participant(new[w@], w, credits, now)
    }
}

/// Crediting `credits` to `w` does not overflow its balance.
pub open spec fn credit_fits(recs: Map<Seq<char>, ParticipantRecord>, w: Seq<char>, credits: u64) -> bool {
    recs.contains_key(w) ==> recs[w].credits_balance + credits <= u64::MAX
}

/// Credits every participant who did not win a draw receives once for
/// taking part (the participation reward).
pub const PARTICIPATION_CREDITS: u64 = 1;

/// Credits a participant who did not win a draw receives for each of its
/// entries (the contribution credit).
pub const CREDITS_PER_SEGMENT: u64 = 1;

/// How many of the entries `ws` belong to the worker named `w`.
pub open spec fn entry_count(ws: Seq<WorkerId>, w: Seq<char>) -> nat
    decreases ws.len(),
{
    if ws.len() == 0 {
        0
    } else {
        entry_count(ws.drop_last(), w) + if ws.last()@ == w {
            1nat
        } else {
            0nat
        }
    }
}

/// The worker named `w` holds one of the first `i` entries of `ws`.
pub open spec fn has_entry_before(ws: Seq<WorkerId>, w: Seq<char>, i: int) -> bool {
    exists|j: int| 0 <= j < i && j < ws.len() && (#[trigger] ws[j])@ == w
}

/// The credits a participant with `k` entries receives.
pub open spec fn participation_credits(k: nat) -> int {
    PARTICIPATION_CREDITS + k * CREDITS_PER_SEGMENT
}

/// `x` capped at the largest balance.
pub open spec fn capped(x: int) -> u64 {
    if x > u64::MAX {
        u64::MAX
    } else {
        x as u64
    }
}

/// `r` is the record of the participant named `w`, holding `k` entries,
/// after its reward at time `now`: its balance (zero for a new participant)
/// grows by its participation credits, capped at the largest balance; its
/// reputation becomes the raised score the caller gave for it in `trust`
/// (kept as it was if none was given); a new participant has won nothing.
pub open spec fn participant_rewarded(
    r: ParticipantRecord,
    old: Map<Seq<char>, ParticipantRecord>,
    w: Seq<char>,
    k: nat,
    trust: Map<Seq<char>, u64>,
    now: u64,
) -> bool {
    let bits = if trust.contains_key(w) {
        trust[w]
    } else if old.contains_key(w) {
        old[w].reputation_score_bits
    } else {
        INITIAL_REPUTATION_BITS
    };
    &&& old.contains_key(w) ==> r == ParticipantRecord {
        credits_balance: capped(old[w].credits_balance + participation_credits(k)),
        reputation_score_bits: bits,
        last_updated: now,
        ..old[w]
    }
    &&& !old.contains_key(w) ==> {
        &&& r.worker_id@ == w
        &&& r.credits_balance == capped(participation_credits(k))
        &&& r.reputation_score_bits == bits
        &&& r.segments_completed == 0
        &&& r.lottery_wins == 0
        &&& r.tasks_submitted == 0
        &&& r.joined_at == 0
        &&& r.badges@.len() == 0
        &&& r.last_updated == now
    }
}

/// `new` is `old` after rewarding, once each, the workers holding one of the
/// first `i` entries of `ws`, except the winner.
pub open spec fn participation_rewarded_upto(
    new: Map<Seq<char>, ParticipantRecord>,
    old: Map<Seq<char>, ParticipantRecord>,
    ws: Seq<WorkerId>,
    i: int,
    winner: Seq<char>,
    trust: Map<Seq<char>, u64>,
    now: u64,
) -> bool {
    &&& forall|w: Seq<char>|
        #[trigger] has_entry_before(ws, w, i) && w != winner ==> new.contains_key(w) && participant_rewarded(
            new[w],
            old,
            w,
            entry_count(ws, w),
            trust,
            now,
        )
    &&& forall|w: Seq<char>|
        #![trigger new.contains_key(w)]
        #![trigger old.contains_key(w)]
        !(has_entry_before(ws, w, i) && w != winner) ==> (new.contains_key(w) <==> old.contains_key(w)) && (
        old.contains_key(w) ==> new[w] == old[w])
}

/// `new` is `old` after rewarding every worker holding an entry of `ws`,
/// once, except the winner.
pub open spec fn participation_rewarded(
    new: Map<Seq<char>, ParticipantRecord>,
    old: Map<Seq<char>, ParticipantRecord>,
    ws: Seq<WorkerId>,
    winner: Seq<char>,
    trust: Map<Seq<char>, u64>,
    now: u64,
) -> bool {
    participation_rewarded_upto(new, old, ws, ws.len() as int, winner, trust, now)
}

/// The workers named by lottery entries, in order.
pub open spec fn entry_workers(entries: Seq<LotteryEntry>) -> Seq<WorkerId> {
    entries.map_values(|e: LotteryEntry| e.worker_id)
}

/// Distributed lottery state kept by a coordinator.
pub struct FreenetScaffoldState {
    state: LotteryState,
}

impl FreenetScaffoldState {
    /// The replicated state.
    pub closed spec fn lottery_state(&self) -> LotteryState {
        self.state
    }

    pub open spec fn wf(&self) -> bool {
        self.lottery_state().wf()
    }

    pub fn new() -> (s: Self)
        ensures
            s.wf(),
            s.lottery_state().epoch == 0,
            s.lottery_state().tasks@ == Map::<u64, RenderingTask>::empty(),
            s.lottery_state().segments@ == Map::<(u64, u32), crate::types::Segment>::empty(),
            s.lottery_state().workers@ == Map::<Seq<char>, crate::types::WorkerNode>::empty(),
            s.lottery_state().lottery_results@ == Seq::<LotteryResult>::empty(),
            s.lottery_state().participant_records@ == Map::<Seq<char>, ParticipantRecord>::empty(),
    {
        FreenetScaffoldState { state: LotteryState::new() }
    }

    /// The replicated state.
    pub fn state(&self) -> (s: &LotteryState)
        ensures
            *s == self.lottery_state(),
    {
        &self.state
    }

    pub fn add_task(&mut self, task: RenderingTask)
        requires
            old(self).wf(),
        ensures
            final(self).wf(),
            final(self).lottery_state().tasks@ == old(self).lottery_state().tasks@.insert(task.id.0, task),
            final(self).lottery_state() == (LotteryState { tasks: final(self).lottery_state().tasks, ..old(self).lottery_state() }),
    {
        let id = task.id;
        self.state.tasks.insert(id, task);
    }

    pub fn add_lottery_result(&mut self, result: LotteryResult)
        requires
            old(self).wf(),
        ensures
            final(self).wf(),
            final(self).lottery_state().lottery_results@ == old(self).lottery_state().lottery_results@.push(
                result,
            ),
            final(self).lottery_state() == (LotteryState {
                lottery_results: final(self).lottery_state().lottery_results,
                ..old(self).lottery_state()
            }),
    {
        self.state.lottery_results.push(result);
    }

    /// Credits a participant with the system clock's reading as the time of
    /// the change (see `update_participant_credits_at`).
    pub fn update_participant_credits(&mut self, worker_id: &WorkerId, credits: u64)
        requires
            old(self).wf(),
            credit_fits(old(self).lottery_state().participant_records@, worker_id@, credits),
        ensures
            final(self).wf(),
            exists|now: u64|
                credited(
                    final(self).lottery_state().participant_records@,
                    old(self).lottery_state().participant_records@,
                    *worker_id,
                    credits,
                    now,
                ),
            final(self).lottery_state() == (LotteryState {
                participant_records: final(self).lottery_state().participant_records,
                ..old(self).lottery_state()
            }),
    {
        let now = crate::clock::unix_time_secs();
        self.update_participant_credits_at(worker_id, credits, now);
    }

    /// Credits a participant at time `now`: an existing record's balance
    /// grows by `credits`; a participant without a record gets a new one
    /// holding `credits` and one lottery win. The record is stamped with
    /// `now`; nothing else in the state changes.
    pub fn update_participant_credits_at(&mut self, worker_id: &WorkerId, credits: u64, now: u64)
        requires
            old(self).wf(),
            credit_fits(old(self).lottery_state().participant_records@, worker_id@, credits),
        ensures
            final(self).wf(),
            credited(
                final(self).lottery_state().participant_records@,
                old(self).lottery_state().participant_records@,
                *worker_id,
                credits,
                now,
            ),
            final(self).lottery_state() == (LotteryState {
                participant_records: final(self).lottery_state().participant_records,
                ..old(self).lottery_state()
            }),
    {
        match self.state.participant_records.index_of(worker_id) {
            Some(i) => {
                proof {
                    self.state.participant_records.lemma_view();
                }
                let (key, mut rec) = self.state.participant_records.remove_at(i);
                rec.credits_balance = rec.credits_balance + credits;
                rec.last_updated = now;
                self.state.participant_records.insert_at(i, key, rec);
                proof {
                    let old_recs = old(self).state.participant_records@;
                    assert(self.state.participant_records@ =~= old_recs.insert(
                        worker_id@,
                        ParticipantRecord {
                            credits_balance: (old_recs[worker_id@].credits_balance + credits) as u64,
                            last_updated: now,
                            ..old_recs[worker_id@]
                        },
                    ));
                }
            },
            None => {
                let rec = ParticipantRecord {
                    worker_id: worker_id.clone(),
                    credits_balance: credits,
                    reputation_score_bits: INITIAL_REPUTATION_BITS,
                    segments_completed: 0,
                    lottery_wins: 1,
                    tasks_submitted: 0,
                    joined_at: 0,
                    badges: Vec::new(),
                    last_updated: now,
                };
                self.state.participant_records.insert(worker_id.clone(), rec);
                proof {
                    let old_recs = old(self).state.participant_records@;
                    assert(self.state.participant_records@.remove(worker_id@) =~= old_recs);
                }
            },
        }
    }

    /// Rewards, at time `now`, every worker holding one of `entries` except
    /// the winner: once each, its participation credits (see
    /// `participant_rewarded`), and the raised reputation the caller gave
    /// for it in `trust`. Nothing else in the state changes.
    pub fn reward_participants_at(
        &mut self,
        entries: &[LotteryEntry],
        winner: &WorkerId,
        trust: &AssocMap<WorkerId, u64>,
        now: u64,
    )
        requires
            old(self).wf(),
            trust.wf(),
        ensures
            final(self).wf(),
            participation_rewarded(
                final(self).lottery_state().participant_records@,
                old(self).lottery_state().participant_records@,
                entry_workers(entries@),
                winner@,
                trust@,
                now,
            ),
            final(self).lottery_state() == (LotteryState {
                participant_records: final(self).lottery_state().participant_records,
                ..old(self).lottery_state()
            }),
    {
        let ghost ws = entry_workers(entries@);
        let ghost start = self.state.participant_records@;
        let mut i: usize = 0;
        while i < entries.len()
            invariant
                self.wf(),
                trust.wf(),
                ws == entry_workers(entries@),
                i <= entries@.len(),
                participation_rewarded_upto(
                    self.state.participant_records@,
                    start,
                    ws,
                    i as int,
                    winner@,
                    trust@,
                    now,
                ),
                self.state == (LotteryState { participant_records: self.state.participant_records, ..old(self).state }),
                start == old(self).state.participant_records@,
            decreases entries.len() - i,
        {
            let w = &entries[i].worker_id;
            assert(ws[i as int] == *w);
            let ghost cur = self.state.participant_records@;
            let is_winner = w.0 == winner.0;
            let mut seen = false;
            let mut j: usize = 0;
            while j < i
                invariant
                    j <= i,
                    i < entries@.len(),
                    ws == entry_workers(entries@),
                    w@ == ws[i as int]@,
                    seen == has_entry_before(ws, w@, j as int),
                decreases i - j,
            {
                assert(ws[j as int] == entries@[j as int].worker_id);
                if entries[j].worker_id.0 == w.0 {
                    seen = true;
                }
                j = j + 1;
            }
            if !is_winner && !seen {
                let mut k: u64 = 0;
                let mut m: usize = 0;
                while m < entries.len()
                    invariant
                        m <= entries@.len(),
                        ws == entry_workers(entries@),
                        k == entry_count(ws.subrange(0, m as int), w@),
                        k <= m,
                    decreases entries.len() - m,
                {
                    proof {
                        assert(ws.subrange(0, m + 1).drop_last() =~= ws.subrange(0, m as int));
                        assert(ws[m as int] == entries@[m as int].worker_id);
                    }
                    if entries[m].worker_id.0 == w.0 {
                        k = k + 1;
                    }
                    m = m + 1;
                }
                proof {
                    assert(ws.subrange(0, entries@.len() as int) =~= ws);
                }
                let add: u128 = PARTICIPATION_CREDITS as u128 + (k as u128) * (CREDITS_PER_SEGMENT as u128);
                let bits_given = match trust.get(w) {
                    Some(b) => Some(*b),
                    None => None,
                };
                match self.state.participant_records.index_of(w) {
                    Some(pos) => {
                        proof {
                            self.state.participant_records.lemma_view();
                        }
                        let (key, mut rec) = self.state.participant_records.remove_at(pos);
                        let total: u128 = rec.credits_balance as u128 + add;
                        rec.credits_balance = if total > 0xffff_ffff_ffff_ffffu128 {
                            u64::MAX
                        } else {
                            total as u64
                        };
                        match bits_given {
                            Some(b) => {
                                rec.reputation_score_bits = b;
                            },
                            None => {},
                        }
                        rec.last_updated = now;
                        self.state.participant_records.insert_at(pos, key, rec);
                    },
                    None => {
                        let credits: u64 = if add > 0xffff_ffff_ffff_ffffu128 {
                            u64::MAX
                        } else {
                            add as u64
                        };
                        let bits = match bits_given {
                            Some(b) => b,
                            None => INITIAL_REPUTATION_BITS,
                        };
                        let rec = ParticipantRecord {
                            worker_id: w.clone(),
                            credits_balance: credits,
                            reputation_score_bits: bits,
                            segments_completed: 0,
                            lottery_wins: 0,
                            tasks_submitted: 0,
                            joined_at: 0,
                            badges: Vec::new(),
                            last_updated: now,
                        };
                        self.state.participant_records.insert(w.clone(), rec);
                    },
                }
                proof {
                    let new = self.state.participant_records@;
                    assert(!has_entry_before(ws, w@, i as int));
                    assert(!cur.contains_key(w@) || cur[w@] == start[w@]);
                    assert(cur.contains_key(w@) == start.contains_key(w@));
                    assert forall|v: Seq<char>| #[trigger] has_entry_before(ws, v, i + 1) && v != winner@ implies new.contains_key(v)
                        && participant_rewarded(new[v], start, v, entry_count(ws, v), trust@, now) by {
                        if v != w@ {
                            let jj = choose|jj: int| 0 <= jj < i + 1 && jj < ws.len() && (#[trigger] ws[jj])@ == v;
                            assert(has_entry_before(ws, v, i as int));
                        }
                    }
                    assert forall|v: Seq<char>|
                        #![trigger new.contains_key(v)]
                        #![trigger start.contains_key(v)]
                        !(has_entry_before(ws, v, i + 1) && v != winner@) implies (new.contains_key(v)
                        <==> start.contains_key(v)) && (start.contains_key(v) ==> new[v] == start[v]) by {
                        if v != w@ {
                            if has_entry_before(ws, v, i as int) {
                                let jj = choose|jj: int| 0 <= jj < i && jj < ws.len() && (#[trigger] ws[jj])@ == v;
                                assert(has_entry_before(ws, v, i + 1));
                            }
                        } else {
                            assert(has_entry_before(ws, v, i + 1));
                        }
                    }
                }
            } else {
                proof {
                    let new = self.state.participant_records@;
                    if !is_winner {
                        assert(has_entry_before(ws, w@, i as int));
                    }
                    assert forall|v: Seq<char>| #[trigger] has_entry_before(ws, v, i + 1) && v != winner@ implies new.contains_key(v)
                        && participant_rewarded(new[v], start, v, entry_count(ws, v), trust@, now) by {
                        let jj = choose|jj: int| 0 <= jj < i + 1 && jj < ws.len() && (#[trigger] ws[jj])@ == v;
                        if jj < i {
                            assert(has_entry_before(ws, v, i as int));
                        } else {
                            assert(has_entry_before(ws, w@, i as int));
                        }
                    }
                    assert forall|v: Seq<char>|
                        #![trigger new.contains_key(v)]
                        #![trigger start.contains_key(v)]
                        !(has_entry_before(ws, v, i + 1) && v != winner@) implies (new.contains_key(v)
                        <==> start.contains_key(v)) && (start.contains_key(v) ==> new[v] == start[v]) by {
                        if has_entry_before(ws, v, i as int) {
                            let jj = choose|jj: int| 0 <= jj < i && jj < ws.len() && (#[trigger] ws[jj])@ == v;
                            assert(has_entry_before(ws, v, i + 1));
                        }
                    }
                }
            }
            i = i + 1;
        }
    }

    /// Merges another coordinator's replica into this one.
    pub fn merge(&mut self, other: Self)
        requires
            old(self).wf(),
            other.wf(),
            old(self).lottery_state().mergeable(&other.lottery_state()),
        ensures
            LotteryState::merged_from(
                &final(self).lottery_state(),
                &old(self).lottery_state(),
                &other.lottery_state(),
            ),
    {
        self.state.merge(other.state);
    }

    /// Merges another coordinator's replica into this one, stamping it with `now`.
    pub fn merge_at(&mut self, other: Self, now: u64)
        requires
            old(self).wf(),
            other.wf(),
            old(self).lottery_state().mergeable(&other.lottery_state()),
        ensures
            LotteryState::merged_from(
                &final(self).lottery_state(),
                &old(self).lottery_state(),
                &other.lottery_state(),
            ),
            final(self).lottery_state().last_updated == now,
    {
        self.state.merge_at(other.state, now);
    }

    pub fn lottery_results_count(&self) -> (n: u64)
        ensures
            n == self.lottery_state().lottery_results@.len(),
    {
        self.state.lottery_results.len() as u64
    }

    pub fn epoch(&self) -> (e: u64)
        ensures
            e == self.lottery_state().epoch,
    {
        self.state.epoch
    }
}

} // verus!
