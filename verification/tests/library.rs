use freenet_lottery::assoc_map::AssocMap;
use freenet_lottery::hashing::content_address_of;
use freenet_lottery::coordinator::can_decompose;
use freenet_lottery::proof_of_work::count_leading_zeros;
use freenet_lottery::segment_processor::{pow_gives_up, search_nonces};
use freenet_lottery::{
    ComputeCapacity, CoordinatorNode, DrawInputs, EntryType, FreenetScaffoldState, LotteryEngine,
    LotteryEntry, LotteryResult, LotteryState, Parameters, ParticipantRecord, ProcessingError,
    ProofOfWork, RenderKind, RenderingTask, RenderingType, ResultAggregator, ScoreUpdate, Segment, SegmentId,
    SegmentProcessor, SegmentResult, SegmentStatus, TaskId, TaskManager, WorkerId, WorkerMetrics, WorkerNode,
    WorkerNodeServer, WorkerRegistry,
};
use sha2::Digest;

fn capacity() -> ComputeCapacity {
    ComputeCapacity {
        cpu_cores: 4,
        gpu_vram_mb: 1024,
        available_disk_mb: 5_000,
        network_speed_mbps: 50,
    }
}

fn task(id: u64, size: u64, count: u32, created_at: u64, reward: u64) -> RenderingTask {
    RenderingTask {
        id: TaskId(id),
        content_hash: "QmContent".to_string(),
        content_size: size,
        segment_count: count,
        rendering_type: RenderingType::VideoFrame,
        parameters: Parameters::new(),
        created_at,
        deadline: 0,
        reward_pool: reward,
        priority: 1,
    }
}

fn segment(task_id: u64, index: u32, status: SegmentStatus) -> Segment {
    Segment {
        id: SegmentId { task_id: TaskId(task_id), segment_index: index },
        task_id: TaskId(task_id),
        segment_index: index,
        data_hash: format!("Qm{}/{}", task_id, index),
        data_size: 10,
        parameters: Parameters::new(),
        assigned_to: None,
        status,
        proof_of_work: None,
    }
}

fn worker(name: &str, heartbeat: u64, busy: bool) -> WorkerNode {
    WorkerNode {
        id: WorkerId(name.to_string()),
        peer_id: format!("peer-{}", name),
        compute_capacity: capacity(),
        reputation_score_bits: 50.0f64.to_bits(),
        completion_rate_bits: 100.0f64.to_bits(),
        avg_processing_speed_bits: 1.5f64.to_bits(),
        joined_at: 0,
        last_heartbeat: heartbeat,
        current_segment: if busy {
            Some(SegmentId { task_id: TaskId(9), segment_index: 0 })
        } else {
            None
        },
        total_segments_completed: 0,
    }
}

fn record(name: &str, credits: u64, segments: u64, wins: u64, submitted: u64) -> ParticipantRecord {
    ParticipantRecord {
        worker_id: WorkerId(name.to_string()),
        credits_balance: credits,
        reputation_score_bits: 10.0f64.to_bits(),
        segments_completed: segments,
        lottery_wins: wins,
        tasks_submitted: submitted,
        joined_at: 7,
        badges: vec![],
        last_updated: 0,
    }
}

fn record_at(name: &str, credits: u64, updated: u64) -> ParticipantRecord {
    ParticipantRecord { last_updated: updated, ..record(name, credits, 1, 0, 0) }
}

fn entry(id: u64, name: &str) -> LotteryEntry {
    LotteryEntry {
        id,
        task_id: TaskId(1),
        worker_id: WorkerId(name.to_string()),
        segment_id: SegmentId { task_id: TaskId(1), segment_index: id as u32 },
        entry_type: EntryType::SegmentCompletion,
        created_at: 0,
    }
}

fn sha_hex(data: &[u8]) -> String {
    format!("{:x}", sha2::Sha256::digest(data))
}

fn pow_proof(hash: &str, difficulty: u32) -> ProofOfWork {
    ProofOfWork {
        nonce: 0,
        difficulty,
        hash: hash.to_string(),
        computation_hash: "abc".to_string(),
        elapsed_micros: 0,
    }
}

fn nonce_hash_of(comp: &str, n: u64) -> String {
    let mut input = comp.as_bytes().to_vec();
    input.extend_from_slice(&n.to_le_bytes());
    sha_hex(&input)
}

fn zero_bits(hex: &str) -> u32 {
    let mut bits = 0;
    for c in hex.chars() {
        let v = c.to_digit(16).unwrap();
        if v == 0 {
            bits += 4;
        } else {
            bits += v.leading_zeros() - 28;
            break;
        }
    }
    bits
}

/// A genuine proof over the computation hash "abc" at the given difficulty.
fn genuine_proof(difficulty: u32) -> ProofOfWork {
    let mut n = 0;
    while zero_bits(&nonce_hash_of("abc", n)) < difficulty {
        n += 1;
    }
    ProofOfWork {
        nonce: n,
        difficulty,
        hash: nonce_hash_of("abc", n),
        computation_hash: "abc".to_string(),
        elapsed_micros: 0,
    }
}

fn inputs(randomness: &[u8]) -> DrawInputs {
    DrawInputs { randomness: randomness.to_vec(), trust_bits: AssocMap::new() }
}

fn scores() -> ScoreUpdate {
    ScoreUpdate {
        completed_reputation_bits: 60.0f64.to_bits(),
        completed_rate_bits: 90.0f64.to_bits(),
        penalized_reputation_bits: 5.0f64.to_bits(),
    }
}

#[test]
fn content_address_is_qm_and_sha256_hex() {
    assert_eq!(
        content_address_of(b"abc"),
        "Qmba7816bf8f01cfea414140de5dae2223b00361a396177a9cb410ff61f20015ad"
    );
    assert_eq!(content_address_of(b""), format!("Qm{}", sha_hex(b"")));
}

#[test]
fn assoc_map_insert_get_remove() {
    let mut m: AssocMap<TaskId, u64> = AssocMap::new();
    m.insert(TaskId(3), 30);
    m.insert(TaskId(1), 10);
    m.insert(TaskId(3), 33);
    assert_eq!(m.len(), 2);
    assert_eq!(m.get(&TaskId(3)), Some(&33));
    assert_eq!(m.key_at(0), &TaskId(3));
    m.remove(&TaskId(3));
    assert_eq!(m.get(&TaskId(3)), None);
    assert_eq!(m.len(), 1);
}

#[test]
fn merge_keeps_newest_task_and_furthest_segment() {
    let mut a = LotteryState::new();
    let mut b = LotteryState::new();
    a.tasks.insert(TaskId(1), task(1, 10, 1, 5, 0));
    b.tasks.insert(TaskId(1), task(1, 20, 1, 9, 0));
    a.tasks.insert(TaskId(2), task(2, 30, 1, 9, 0));
    b.tasks.insert(TaskId(2), task(2, 40, 1, 3, 0));
    let s = SegmentId { task_id: TaskId(1), segment_index: 0 };
    a.segments.insert(s, segment(1, 0, SegmentStatus::Completed));
    b.segments.insert(s, segment(1, 0, SegmentStatus::Assigned));
    let s2 = SegmentId { task_id: TaskId(1), segment_index: 1 };
    a.segments.insert(s2, segment(1, 1, SegmentStatus::Pending));
    b.segments.insert(s2, segment(1, 1, SegmentStatus::Verified));
    a.merge_at(b, 1234);
    assert_eq!(a.tasks.get(&TaskId(1)).unwrap().content_size, 20);
    assert_eq!(a.tasks.get(&TaskId(2)).unwrap().content_size, 30);
    assert_eq!(a.segments.get(&s).unwrap().status, SegmentStatus::Completed);
    assert_eq!(a.segments.get(&s2).unwrap().status, SegmentStatus::Verified);
    assert_eq!(a.last_updated, 1234);
    assert_eq!(a.epoch, 1);
}

#[test]
fn merge_keeps_freshest_worker_and_latest_record() {
    let mut a = LotteryState::new();
    let mut b = LotteryState::new();
    a.workers.insert(WorkerId("w".into()), worker("w", 10, false));
    b.workers.insert(WorkerId("w".into()), worker("w", 20, true));
    b.workers.insert(WorkerId("v".into()), worker("v", 1, false));
    a.participant_records.insert(WorkerId("w".into()), record_at("w", 100, 3));
    b.participant_records.insert(WorkerId("w".into()), record_at("w", 70, 8));
    b.participant_records.insert(WorkerId("z".into()), record("z", 9, 0, 0, 0));
    a.epoch = 4;
    b.epoch = 2;
    a.merge(b);
    let w = a.workers.get(&WorkerId("w".into())).unwrap();
    assert_eq!(w.last_heartbeat, 20);
    assert!(w.current_segment.is_some());
    assert_eq!(a.workers.len(), 2);
    // The record updated last wins, whole.
    let r = a.participant_records.get(&WorkerId("w".into())).unwrap();
    assert_eq!(r.credits_balance, 70);
    assert_eq!(r.last_updated, 8);
    assert_eq!(a.participant_records.get(&WorkerId("z".into())).unwrap().credits_balance, 9);
    assert_eq!(a.epoch, 5);
}

fn lottery_result(task_id: u64, winner: &str) -> LotteryResult {
    LotteryResult {
        task_id: TaskId(task_id),
        epoch: 0,
        winner_id: WorkerId(winner.to_string()),
        winning_entry: entry(0, winner),
        total_entries: 1,
        reward_amount: 5,
        drawn_at: 0,
        vrf_proof: "p".to_string(),
    }
}

#[test]
fn merge_appends_lottery_results_in_order() {
    let mut a = LotteryState::new();
    let mut b = LotteryState::new();
    a.lottery_results.push(lottery_result(1, "x"));
    b.lottery_results.push(lottery_result(2, "y"));
    b.lottery_results.push(lottery_result(3, "z"));
    a.merge_at(b, 0);
    let ids: Vec<u64> = a.lottery_results.iter().map(|r| r.task_id.0).collect();
    assert_eq!(ids, vec![1, 2, 3]);
}

#[test]
fn merge_with_fresh_state_only_advances_epoch() {
    let mut a = LotteryState::new();
    a.tasks.insert(TaskId(1), task(1, 10, 1, 5, 0));
    a.epoch = 6;
    a.merge_at(LotteryState::new(), 0);
    assert_eq!(a.epoch, 7);
    assert_eq!(a.tasks.len(), 1);
    assert_eq!(a.lottery_results.len(), 0);
}

#[test]
fn task_manager_completion_and_entries() {
    let mut tm = TaskManager::new();
    tm.add_task(task(1, 20, 2, 0, 50));
    tm.add_segment(segment(1, 0, SegmentStatus::Pending));
    tm.add_segment(segment(1, 1, SegmentStatus::Pending));
    tm.add_segment(segment(2, 0, SegmentStatus::Pending));
    assert!(!tm.is_task_complete(TaskId(1)));
    assert!(!tm.is_task_complete(TaskId(7)));
    assert_eq!(tm.pending_segment_count(), 3);

    let s0 = SegmentId { task_id: TaskId(1), segment_index: 0 };
    let s1 = SegmentId { task_id: TaskId(1), segment_index: 1 };
    tm.mark_segment_completed(&s0, &WorkerId("alice".into()));
    assert!(!tm.is_task_complete(TaskId(1)));
    tm.mark_segment_completed(&s1, &WorkerId("bob".into()));
    assert!(tm.is_task_complete(TaskId(1)));
    assert_eq!(tm.completed_segment_count(), 2);
    assert_eq!(tm.pending_segment_count(), 1);

    let entries = tm.get_lottery_entries(TaskId(1));
    assert_eq!(entries.len(), 2);
    assert_eq!(entries[0].id, 0);
    assert_eq!(entries[0].worker_id, WorkerId("alice".into()));
    assert_eq!(entries[1].id, 1);
    assert_eq!(entries[1].segment_id, s1);
    assert_eq!(entries[1].entry_type, EntryType::SegmentCompletion);
    assert!(tm.get_lottery_entries(TaskId(2)).is_empty());
}

#[test]
fn segment_completed_twice_gives_one_entry_to_first_worker() {
    let mut tm = TaskManager::new();
    tm.add_segment(segment(4, 0, SegmentStatus::Pending));
    tm.add_segment(segment(4, 1, SegmentStatus::Pending));
    let s = SegmentId { task_id: TaskId(4), segment_index: 0 };
    tm.mark_segment_completed(&s, &WorkerId("carol".into()));
    tm.mark_segment_completed(&s, &WorkerId("dave".into()));
    // One entry per segment, earned by the worker who completed it first.
    let entries = tm.get_lottery_entries(TaskId(4));
    assert_eq!(entries.len(), 1);
    assert_eq!(entries[0].worker_id, WorkerId("carol".into()));
    assert!(!tm.is_task_complete(TaskId(4)));
    // A later assignment does not move the entry.
    tm.assign_segment(&s, &WorkerId("erin".into()));
    assert_eq!(tm.get_lottery_entries(TaskId(4))[0].worker_id, WorkerId("carol".into()));

    // An unknown segment earns no entry.
    let mut tm2 = TaskManager::new();
    tm2.mark_segment_completed(&s, &WorkerId("erin".into()));
    assert!(tm2.get_lottery_entries(TaskId(4)).is_empty());
    assert_eq!(tm2.completed_segment_count(), 0);
}

#[test]
fn pending_segments_are_limited_and_assignable() {
    let mut tm = TaskManager::new();
    for i in 0..5 {
        tm.add_segment(segment(1, i, SegmentStatus::Pending));
    }
    tm.add_segment(segment(1, 9, SegmentStatus::Failed));
    let pending = tm.get_pending_segments(3);
    assert_eq!(pending.len(), 3);
    assert_eq!(pending[2].segment_index, 2);
    tm.assign_segment(&pending[0].id, &WorkerId("w".into()));
    assert_eq!(tm.pending_segment_count(), 4);
    assert_eq!(tm.get_pending_segments(100).len(), 4);
    assert_eq!(tm.get_task(TaskId(1)).is_none(), true);
}

#[test]
fn registry_stale_available_and_completion() {
    let mut reg = WorkerRegistry::new();
    reg.register_worker(worker("old", 100, false));
    reg.register_worker(worker("new", 290, false));
    reg.register_worker(worker("busy", 300, true));
    assert_eq!(reg.worker_count(), 3);
    let stale = reg.stale_workers_at(300, 120);
    assert_eq!(stale, vec![WorkerId("old".into())]);
    assert!(reg.all_heartbeats_up_to(300));
    assert!(!reg.all_heartbeats_up_to(299));
    let idle: Vec<String> = reg.available_workers().into_iter().map(|w| w.id.0).collect();
    assert_eq!(idle, vec!["old".to_string(), "new".to_string()]);

    reg.record_successful_completion(&WorkerId("new".into()), 15, 7, 8);
    let w = reg.get_worker(&WorkerId("new".into())).unwrap();
    assert_eq!(w.total_segments_completed, 1);
    assert_eq!(w.reputation_score_bits, 7);
    assert_eq!(w.completion_rate_bits, 8);
    reg.record_successful_completion(&WorkerId("nobody".into()), 15, 7, 8);
    assert_eq!(reg.worker_count(), 3);

    reg.remove_worker(&WorkerId("old".into()));
    assert!(reg.get_worker(&WorkerId("old".into())).is_none());
    assert_eq!(reg.worker_count(), 2);
    // The real clock is far past these heartbeats.
    assert_eq!(reg.get_stale_workers(120).unwrap().len(), 2);
}

#[test]
fn registry_reports_heartbeats_from_the_future() {
    let mut reg = WorkerRegistry::new();
    reg.register_worker(worker("ahead", u64::MAX, false));
    assert!(reg.get_stale_workers(1).is_none());
}

#[test]
fn aggregate_returns_content_address_of_output() {
    let mut agg = ResultAggregator::new();
    let h = agg.aggregate(TaskId(5)).unwrap();
    let expected = format!("Qm{}", sha_hex(&vec![42u8; 10_000_000]));
    assert_eq!(h, expected);
}

#[test]
fn draw_winner_uses_the_draws_random_value() {
    let engine = LotteryEngine::new();
    let empty: Vec<LotteryEntry> = vec![];
    assert_eq!(engine.draw_winner(&empty, b"r").unwrap_err(), "No entries to draw from");
    let entries: Vec<LotteryEntry> = (0..7).map(|i| entry(i, &format!("w{}", i))).collect();
    let mut seen = std::collections::HashSet::new();
    for k in 0u32..64 {
        let randomness = k.to_le_bytes();
        let seed = sha2::Sha256::digest(randomness);
        let mut first = [0u8; 8];
        first.copy_from_slice(&seed[0..8]);
        let idx = (u64::from_le_bytes(first) as usize) % entries.len();
        let winner = engine.draw_winner(&entries, &randomness).unwrap();
        assert_eq!(winner.id, idx as u64);
        seen.insert(winner.id);
    }
    // Different random values pick different winners.
    assert!(seen.len() > 1);
}

#[test]
fn draw_with_seed_picks_by_little_endian_prefix() {
    let engine = LotteryEngine::new();
    let entries: Vec<LotteryEntry> = (0..4).map(|i| entry(i, "w")).collect();
    let digest = [6u8, 1, 0, 0, 0, 0, 0, 0, 99];
    // 0x0106 = 262, and 262 % 4 = 2.
    assert_eq!(engine.draw_with_seed(&entries, &digest).unwrap().id, 2);
    assert!(engine.draw_with_seed(&[], &digest).is_err());
}

#[test]
fn scaffold_credits_new_and_existing_participants() {
    let mut st = FreenetScaffoldState::new();
    let w = WorkerId("winner".into());
    st.update_participant_credits_at(&w, 40, 11);
    let r = st.state().participant_records.get(&w).unwrap();
    assert_eq!(r.credits_balance, 40);
    assert_eq!(r.lottery_wins, 1);
    assert_eq!(r.last_updated, 11);
    assert_eq!(f64::from_bits(r.reputation_score_bits), 50.0);
    st.update_participant_credits(&w, 2);
    let r = st.state().participant_records.get(&w).unwrap();
    assert_eq!(r.credits_balance, 42);
    assert!(r.last_updated > 11);
    st.add_lottery_result(lottery_result(1, "winner"));
    assert_eq!(st.lottery_results_count(), 1);
    st.add_task(task(1, 1, 1, 0, 0));
    assert_eq!(st.state().tasks.len(), 1);
    let mut other = FreenetScaffoldState::new();
    other.add_lottery_result(lottery_result(2, "x"));
    st.merge(other);
    assert_eq!(st.epoch(), 1);
    assert_eq!(st.lottery_results_count(), 2);
}

#[test]
fn decompose_hashes_and_covers_content() {
    let coord = CoordinatorNode::new("c".into());
    let t = task(3, 10, 4, 0, 0);
    let segs = coord.decompose_task(&t).unwrap();
    let sizes: Vec<u64> = segs.iter().map(|s| s.data_size).collect();
    assert_eq!(sizes, vec![3, 3, 3, 1]);
    for (i, s) in segs.iter().enumerate() {
        let mut input = b"QmContent".to_vec();
        input.extend_from_slice(&(i as u32).to_le_bytes());
        assert_eq!(s.data_hash, format!("QmQmContent/{}", sha_hex(&input)));
        assert_eq!(s.status, SegmentStatus::Pending);
        assert_eq!(s.id, SegmentId { task_id: TaskId(3), segment_index: i as u32 });
    }
}

#[test]
fn validate_segment_errors() {
    let p = SegmentProcessor::new(WorkerId("w".into()), capacity());
    let mut s = segment(1, u32::MAX, SegmentStatus::Pending);
    match p.validate_segment(&s) {
        Err(ProcessingError::InvalidSegment(m)) => assert_eq!(m, "Invalid segment index"),
        _ => panic!("expected an invalid index"),
    }
    s.segment_index = 0;
    s.data_size = 0;
    match p.validate_segment(&s) {
        Err(ProcessingError::InvalidSegment(m)) => assert_eq!(m, "Empty segment data"),
        _ => panic!("expected empty data"),
    }
    s.data_size = 10_000_000_001;
    match p.validate_segment(&s) {
        Err(ProcessingError::InvalidSegment(m)) => assert_eq!(m, "Segment too large"),
        _ => panic!("expected a segment too large"),
    }
    s.data_size = 10_000_000_000;
    assert!(p.validate_segment(&s).is_ok());
}

#[test]
fn error_messages() {
    assert_eq!(ProcessingError::InvalidSegment("x".into()).message(), "Invalid segment: x");
    assert_eq!(ProcessingError::ProofOfWorkTimeout.message(), "Proof of work computation timed out");
    assert_eq!(ProcessingError::Timeout.message(), "Processing timeout");
    assert_eq!(ProcessingError::IpfsUploadError("u".into()).message(), "IPFS upload error: u");
    assert_eq!(ProcessingError::ComputeCapacityExceeded.message(), "Compute capacity exceeded");
}

#[test]
fn render_kind_follows_parameter() {
    let p = SegmentProcessor::new(WorkerId("w".into()), capacity());
    let mut s = segment(1, 0, SegmentStatus::Pending);
    assert_eq!(p.render_kind(&s), RenderKind::Default);
    s.parameters.insert("rendering_type".to_string(), "ml_inference".to_string());
    assert_eq!(p.render_kind(&s), RenderKind::MlInference);
    s.parameters.insert("rendering_type".to_string(), "3d_render".to_string());
    assert_eq!(p.render_kind(&s), RenderKind::ThreeD);
    s.parameters.insert("rendering_type".to_string(), "other".to_string());
    assert_eq!(p.render_kind(&s), RenderKind::Default);
}

#[test]
fn rendering_transforms() {
    let p = SegmentProcessor::new(WorkerId("w".into()), capacity());
    let data = vec![0u8, 1, 213, 255];
    let img = p.process_image(&data).unwrap();
    let expected: Vec<u8> = data
        .iter()
        .map(|b| b.wrapping_add(42).wrapping_mul(13).wrapping_add(1))
        .collect();
    assert_eq!(img, expected);
    assert_eq!(img[0], 35);

    let long: Vec<u8> = (0..70u32).map(|i| (i * 3) as u8).collect();
    assert_eq!(p.process_ml_inference(&long).unwrap(), vec![0, 6, 2]);
    assert!(p.process_ml_inference(&[]).unwrap().is_empty());

    assert_eq!(p.process_audio(&data).unwrap(), data);
    assert_eq!(p.process_default(&data).unwrap(), data);
    assert_eq!(p.process_3d(&[7, 200]).unwrap(), vec![7, 0, 200, 0]);
}

#[test]
fn proof_of_work_is_minimal_and_validates() {
    let p = SegmentProcessor::with_difficulty(WorkerId("w".into()), capacity(), 1);
    let data = b"rendered".to_vec();
    let pow = p.generate_proof_of_work(&data).unwrap();
    let comp = sha_hex(&data);
    assert_eq!(pow.computation_hash, comp);
    assert_eq!(pow.difficulty, 1);
    assert_eq!(pow.hash, nonce_hash_of(&comp, pow.nonce));
    assert!(zero_bits(&pow.hash) >= 1);
    for n in 0..pow.nonce {
        assert_eq!(zero_bits(&nonce_hash_of(&comp, n)), 0);
    }
    let coord = CoordinatorNode::new("c".into());
    assert!(coord.validate_proof_of_work(&pow));

    let easy = SegmentProcessor::with_difficulty(WorkerId("w".into()), capacity(), 0);
    assert_eq!(easy.generate_proof_of_work(&data).unwrap().nonce, 0);
}

#[test]
fn coordinator_validates_proofs_cryptographically() {
    let coord = CoordinatorNode::new("c".into());
    let good = genuine_proof(3);
    assert!(coord.validate_proof_of_work(&good));
    // The same hash with another nonce is not genuine.
    assert!(!coord.validate_proof_of_work(&ProofOfWork { nonce: good.nonce + 1, ..good.clone() }));
    // A made-up hash full of zeros is not genuine.
    assert!(!coord.validate_proof_of_work(&pow_proof(&"0".repeat(64), 2)));
    // A genuine hash that falls short of the claimed difficulty fails.
    let weak = genuine_proof(0);
    let claimed = zero_bits(&weak.hash) + 1;
    assert!(!coord.validate_proof_of_work(&ProofOfWork { difficulty: claimed, ..weak }));
}

#[test]
fn leading_zero_bits_of_hex() {
    assert_eq!(count_leading_zeros("00ab"), 8);
    assert_eq!(count_leading_zeros("0f"), 4);
    assert_eq!(count_leading_zeros("1f"), 3);
    assert_eq!(count_leading_zeros("3"), 2);
    assert_eq!(count_leading_zeros("7"), 1);
    assert_eq!(count_leading_zeros("8"), 0);
    assert_eq!(count_leading_zeros(""), 0);
}

fn result_for(task_id: u64, index: u32, name: &str, genuine: bool) -> SegmentResult {
    SegmentResult {
        segment_id: SegmentId { task_id: TaskId(task_id), segment_index: index },
        worker_id: WorkerId(name.to_string()),
        result_hash: "Qmr".to_string(),
        result_size: 1,
        processing_time_ms: 5,
        proof_of_work: if genuine { genuine_proof(1) } else { pow_proof("0f", 1) },
        timestamp: 0,
    }
}

#[test]
fn coordinator_runs_task_to_lottery() {
    let mut coord = CoordinatorNode::new("c".into());
    coord.register_worker(worker("alice", 0, false));
    assert_eq!(coord.submit_task(task(8, 100, 2, 0, 30)), Ok(TaskId(8)));
    let st = coord.get_status();
    assert_eq!(st.active_tasks, 1);
    assert_eq!(st.pending_segments, 2);
    assert_eq!(st.state_epoch, 0);
    assert_eq!(coord.freenet_state().state().tasks.len(), 1);

    // A fake proof is refused and lowers the worker's reputation.
    assert_eq!(
        coord.process_result(&result_for(8, 0, "alice", false), scores(), &inputs(b"r")),
        Err("Invalid proof of work".to_string())
    );
    assert_eq!(coord.get_status().completed_segments, 0);
    let alice = coord.worker_registry().get_worker(&WorkerId("alice".into())).unwrap();
    assert_eq!(f64::from_bits(alice.reputation_score_bits), 5.0);

    assert_eq!(coord.process_result(&result_for(8, 0, "alice", true), scores(), &inputs(b"r")), Ok(None));
    let alice = coord.worker_registry().get_worker(&WorkerId("alice".into())).unwrap();
    assert_eq!(alice.total_segments_completed, 1);
    assert_eq!(f64::from_bits(alice.reputation_score_bits), 60.0);
    // Completing the same segment again earns nothing more.
    assert_eq!(coord.process_result(&result_for(8, 0, "bob", true), scores(), &inputs(b"r")), Ok(None));
    assert_eq!(coord.get_status().completed_segments, 1);

    // The last segment completes the task: it is aggregated and drawn.
    let hash = coord.process_result(&result_for(8, 1, "bob", true), scores(), &inputs(b"r")).unwrap().unwrap();
    assert_eq!(hash, format!("Qm{}", sha_hex(&vec![42u8; 10_000_000])));

    let assigned = coord.assign_pending_segments(&vec![WorkerId("alice".into())], 100);
    assert!(assigned.is_empty());

    let state = coord.freenet_state().state();
    assert_eq!(state.lottery_results.len(), 1);
    let res = &state.lottery_results[0];
    assert_eq!(res.total_entries, 2);
    assert_eq!(res.reward_amount, 30);
    assert_eq!(res.vrf_proof, sha_hex(b"r"));
    let seed = sha2::Sha256::digest(b"r");
    let mut first = [0u8; 8];
    first.copy_from_slice(&seed[0..8]);
    let expected = if u64::from_le_bytes(first) % 2 == 0 { "alice" } else { "bob" };
    assert_eq!(res.winner_id.0, expected);
    let credited = state.participant_records.get(&res.winner_id).unwrap();
    assert_eq!(credited.credits_balance, 30);
    assert_eq!(credited.last_updated, res.drawn_at);
    // The other participant gets its participation reward: one credit for
    // taking part and one for its segment.
    let other = if expected == "alice" { "bob" } else { "alice" };
    let rewarded = state.participant_records.get(&WorkerId(other.into())).unwrap();
    assert_eq!(rewarded.credits_balance, 2);
    assert_eq!(rewarded.lottery_wins, 0);
    assert_eq!(coord.get_status().lottery_results, 1);
}

#[test]
fn lottery_errors_without_entries_or_task() {
    let mut coord = CoordinatorNode::new("c".into());
    assert_eq!(
        coord.draw_lottery_at(TaskId(1), "h".into(), &inputs(b"r"), 5).unwrap_err(),
        "No lottery entries for task"
    );
    // A segment that was never submitted earns no entry.
    assert_eq!(coord.process_result(&result_for(1, 0, "x", true), scores(), &inputs(b"r")), Ok(None));
    assert_eq!(coord.get_status().completed_segments, 0);
    assert_eq!(
        coord.draw_lottery_for_task(TaskId(1), "h".into(), &inputs(b"r")).unwrap_err(),
        "No lottery entries for task"
    );
}

#[test]
fn lottery_at_a_given_time_records_it() {
    let mut coord = CoordinatorNode::new("c".into());
    coord.submit_task(task(3, 10, 2, 0, 7)).unwrap();
    assert_eq!(coord.process_result(&result_for(3, 0, "ann", true), scores(), &inputs(b"x")), Ok(None));
    let res = coord.draw_lottery_at(TaskId(3), "h".into(), &inputs(b"x"), 5).unwrap();
    assert_eq!(res.drawn_at, 5);
    assert_eq!(res.winner_id, WorkerId("ann".into()));
    assert_eq!(res.total_entries, 1);
    let rec = coord.freenet_state().state().participant_records.get(&WorkerId("ann".into())).unwrap();
    assert_eq!(rec.credits_balance, 7);
    assert_eq!(rec.last_updated, 5);
}

#[test]
fn coordinator_assigns_and_evicts() {
    let mut coord = CoordinatorNode::new("c".into());
    coord.submit_task(task(2, 9, 3, 0, 0)).unwrap();
    // One segment per available worker in a tick.
    let one = coord.assign_pending_segments(&vec![WorkerId("a".into())], 100);
    assert_eq!(one.len(), 1);
    assert_eq!(coord.get_status().pending_segments, 2);
    let workers = vec![WorkerId("b".into()), WorkerId("c".into()), WorkerId("d".into())];
    let assigned = coord.assign_pending_segments(&workers, 1);
    assert_eq!(assigned.len(), 1);
    assert_eq!(coord.get_status().pending_segments, 1);
    let rest = coord.assign_pending_segments(&workers, 100);
    assert_eq!(rest.len(), 1);
    assert_eq!(coord.get_status().pending_segments, 0);
    coord.register_worker(worker("gone", 0, false));
    let evicted = coord.evict_stale_workers(120).unwrap();
    assert_eq!(evicted, vec![WorkerId("gone".into())]);
    assert_eq!(coord.get_status().active_workers, 0);
    coord.sync_with_peer(FreenetScaffoldState::new());
    assert_eq!(coord.get_status().state_epoch, 1);
}

#[test]
fn worker_node_stores_tasks_and_handle() {
    let mut w = WorkerNodeServer::new(WorkerId("n".into()), capacity());
    assert_eq!(w.peer_id(), "worker-n");
    let h = w.init_libp2p();
    assert_eq!(h.peer_id(), "worker-n");
    assert_eq!(h.pubsub_channel(), "freenet-lottery-tasks");
    assert_eq!(h.bootstrap_peers().len(), 2);
    w.store_task(segment(5, 0, SegmentStatus::Pending));
    w.store_task(segment(5, 1, SegmentStatus::Pending));
    assert_eq!(w.current_task_count(), 1);
    w.record_success(10, 20);
    w.record_failure();
    assert_eq!(w.metrics().segments_processed, 1);
    assert_eq!(w.metrics().failed_segments, 1);
    assert_eq!(w.metrics().average_proof_difficulty_solved, 10);
    assert!(w.metrics().last_heartbeat > 0);
}

#[test]
fn finish_segment_builds_result() {
    let p = SegmentProcessor::with_difficulty(WorkerId("w".into()), capacity(), 0);
    let s = segment(1, 2, SegmentStatus::Assigned);
    let start = std::time::Instant::now();
    let r = p.finish_segment(&s, b"out", &start).unwrap();
    assert_eq!(r.segment_id, s.id);
    assert_eq!(r.worker_id, WorkerId("w".into()));
    assert_eq!(r.result_hash, format!("Qm{}", sha_hex(b"out")));
    assert_eq!(r.result_size, 3);
    assert_eq!(r.proof_of_work.nonce, 0);
}

fn sample_state(first: bool) -> LotteryState {
    let mut s = LotteryState::new();
    if first {
        s.epoch = 3;
        s.tasks.insert(TaskId(1), task(1, 1, 1, 4, 0));
        s.workers.insert(WorkerId("w".into()), worker("w", 50, false));
        s.participant_records.insert(WorkerId("w".into()), ParticipantRecord { last_updated: 1, ..record("w", 10, 1, 0, 0) });
        s.lottery_results.push(lottery_result(1, "w"));
    } else {
        s.epoch = 8;
        s.tasks.insert(TaskId(1), task(1, 2, 1, 6, 0));
        s.tasks.insert(TaskId(2), task(2, 2, 1, 1, 0));
        s.workers.insert(WorkerId("w".into()), worker("w", 40, false));
        s.participant_records.insert(WorkerId("w".into()), ParticipantRecord { last_updated: 2, ..record("w", 25, 2, 1, 0) });
    }
    s
}

#[test]
fn merge_direction_agrees_on_known_entities_and_balances() {
    let mut ab = sample_state(true);
    ab.merge_at(sample_state(false), 0);
    let mut ba = sample_state(false);
    ba.merge_at(sample_state(true), 0);
    assert_eq!(ab.epoch, 9);
    assert_eq!(ab.epoch, ba.epoch);
    assert_eq!(ab.tasks.len(), ba.tasks.len());
    assert_eq!(
        ab.tasks.get(&TaskId(1)).unwrap().created_at,
        ba.tasks.get(&TaskId(1)).unwrap().created_at
    );
    let w = WorkerId("w".into());
    assert_eq!(ab.workers.get(&w).unwrap().last_heartbeat, 50);
    assert_eq!(ba.workers.get(&w).unwrap().last_heartbeat, 50);
    assert_eq!(ab.participant_records.get(&w).unwrap().credits_balance, 25);
    assert_eq!(ba.participant_records.get(&w).unwrap().credits_balance, 25);
    assert_eq!(ab.lottery_results.len(), ba.lottery_results.len());
}

#[test]
fn merging_a_state_with_its_copy_keeps_records() {
    let mut a = sample_state(false);
    a.merge_at(sample_state(false), 0);
    let r = a.participant_records.get(&WorkerId("w".into())).unwrap();
    assert_eq!(r.credits_balance, 25);
    assert_eq!(r.segments_completed, 2);
    assert_eq!(r.lottery_wins, 1);
    assert_eq!(a.tasks.len(), 2);
    assert_eq!(a.epoch, 9);
}

#[test]
fn can_decompose_matches_the_split_rules() {
    assert!(can_decompose(&task(1, 1000, 10, 0, 0)));
    assert!(!can_decompose(&task(1, 1000, 0, 0, 0)));
    assert!(!can_decompose(&task(1, u64::MAX, 2, 0, 0)));
    // Ten bytes in eight segments: segments of two bytes would start past the end.
    assert!(!can_decompose(&task(1, 10, 8, 0, 0)));
    assert!(can_decompose(&task(1, 10, 5, 0, 0)));
}

#[test]
fn render_segment_dispatches_on_rendering_type() {
    let p = SegmentProcessor::new(WorkerId("w".into()), capacity());
    let with = |kind: &str| {
        let mut s = segment(1, 0, SegmentStatus::Assigned);
        s.parameters.insert("rendering_type".to_string(), kind.to_string());
        s
    };
    let data = vec![1u8, 2, 3];
    assert!(p.render_segment(&with("video_frame"), &data).is_none());
    assert_eq!(p.render_segment(&with("audio_processing"), &data).unwrap().unwrap(), data);
    assert_eq!(p.render_segment(&with("3d_render"), &data).unwrap().unwrap(), vec![1, 0, 2, 0, 3, 0]);
    assert_eq!(p.render_segment(&with("ml_inference"), &data).unwrap().unwrap(), vec![1]);
    assert_eq!(
        p.render_segment(&with("image_processing"), &[0]).unwrap().unwrap(),
        vec![42u8.wrapping_mul(13).wrapping_add(1)]
    );
    assert_eq!(p.render_segment(&segment(1, 0, SegmentStatus::Assigned), &data).unwrap().unwrap(), data);
}

#[test]
fn metrics_at_given_times() {
    let mut m = WorkerMetrics::new();
    m.record_success_at(100, 20, 7);
    assert_eq!(m.last_heartbeat, 7);
    m.record_failure_at(9);
    assert_eq!(m.last_heartbeat, 9);
    m.set_heartbeat(12);
    assert_eq!(m.last_heartbeat, 12);
    assert_eq!(m.success_ratio(), (1, 2));
    let now = m.update_heartbeat();
    assert_eq!(m.last_heartbeat, now);
    assert_eq!(WorkerMetrics::new().success_ratio(), (0, 1));
}

#[test]
fn search_nonces_finds_the_first_in_range() {
    let comp = "abc".to_string();
    let first = genuine_proof(2).nonce;
    assert_eq!(search_nonces(&comp, 2, 0, first + 1).unwrap().0, first);
    assert!(search_nonces(&comp, 2, 0, first).is_none());
    assert_eq!(search_nonces(&comp, 0, 5, 6).unwrap(), (5, nonce_hash_of("abc", 5)));
}

#[test]
fn pending_segments_have_distinct_ids() {
    let mut tm = TaskManager::new();
    tm.add_segment(segment(1, 0, SegmentStatus::Pending));
    tm.add_segment(segment(1, 0, SegmentStatus::Pending));
    tm.add_segment(segment(1, 1, SegmentStatus::Pending));
    let pending = tm.get_pending_segments(10);
    assert_eq!(pending.len(), 2);
    assert_ne!(pending[0].id, pending[1].id);
}

#[test]
fn proof_of_work_gives_up_only_after_time_limit_or_exhaustion() {
    assert!(!pow_gives_up(0, false));
    assert!(!pow_gives_up(60, false));
    assert!(pow_gives_up(61, false));
    assert!(pow_gives_up(0, true));
}

#[test]
fn worker_handles_outcomes() {
    let mut w = WorkerNodeServer::new(WorkerId("n".into()), capacity());
    let p = SegmentProcessor::with_difficulty(WorkerId("n".into()), capacity(), 0);
    let s = segment(1, 0, SegmentStatus::Assigned);
    let ok = p.finish_segment(&s, b"x", &std::time::Instant::now());
    assert!(w.handle_outcome_at(&ok, 5));
    assert_eq!(w.metrics().segments_processed, 1);
    assert_eq!(w.metrics().last_heartbeat, 5);
    let err: Result<SegmentResult, ProcessingError> = Err(ProcessingError::Timeout);
    assert!(!w.handle_outcome_at(&err, 6));
    assert_eq!(w.metrics().failed_segments, 1);
    assert_eq!(w.metrics().last_heartbeat, 6);
}

#[test]
fn draw_rewards_participants_with_credits_and_trust() {
    let mut coord = CoordinatorNode::new("c".into());
    coord.submit_task(task(6, 30, 3, 0, 100)).unwrap();
    let mut trust = AssocMap::new();
    trust.insert(WorkerId("p".into()), 51.0f64.to_bits());
    trust.insert(WorkerId("q".into()), 51.0f64.to_bits());
    let draw = DrawInputs { randomness: b"seed".to_vec(), trust_bits: trust };
    assert_eq!(coord.process_result(&result_for(6, 0, "p", true), scores(), &draw), Ok(None));
    assert_eq!(coord.process_result(&result_for(6, 1, "p", true), scores(), &draw), Ok(None));
    assert!(coord.process_result(&result_for(6, 2, "q", true), scores(), &draw).unwrap().is_some());
    let state = coord.freenet_state().state();
    let res = &state.lottery_results[0];
    assert_eq!(res.drawn_at, state.participant_records.get(&res.winner_id).unwrap().last_updated);
    for (name, entries) in [("p", 2u64), ("q", 1u64)] {
        let rec = state.participant_records.get(&WorkerId(name.into())).unwrap();
        if res.winner_id.0 == name {
            assert_eq!(rec.credits_balance, 100);
        } else {
            assert_eq!(rec.credits_balance, 1 + entries);
            assert_eq!(f64::from_bits(rec.reputation_score_bits), 51.0);
            assert_eq!(rec.lottery_wins, 0);
        }
    }
}
