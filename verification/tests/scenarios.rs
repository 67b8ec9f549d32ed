use freenet_lottery::{
    ComputeCapacity, CoordinatorNode, LotteryState, Parameters, RenderingTask, RenderingType,
    Segment, SegmentId, SegmentProcessor, SegmentStatus, TaskId, WorkerId, WorkerMetrics,
    WorkerNodeServer,
};

fn capacity() -> ComputeCapacity {
    ComputeCapacity {
        cpu_cores: 8,
        gpu_vram_mb: 2048,
        available_disk_mb: 100_000,
        network_speed_mbps: 100,
    }
}

#[test]
fn test_lottery_state_merge() {
    let mut state1 = LotteryState::new();
    let mut state2 = LotteryState::new();

    state1.epoch = 1;
    state2.epoch = 2;

    state1.merge(state2);
    assert_eq!(state1.epoch, 3);
}

#[test]
fn test_coordinator_creation() {
    let coord = CoordinatorNode::new("test-coord".to_string());
    assert_eq!(coord.node_id(), "test-coord");
}

#[test]
fn test_decompose_task() {
    let coord = CoordinatorNode::new("test".to_string());
    let task = RenderingTask {
        id: TaskId(1),
        content_hash: "QmTest".to_string(),
        content_size: 1000,
        segment_count: 10,
        rendering_type: RenderingType::ImageProcessing,
        parameters: Parameters::new(),
        created_at: 0,
        deadline: 0,
        reward_pool: 100,
        priority: 5,
    };

    let segments = coord.decompose_task(&task).unwrap();
    assert_eq!(segments.len(), 10);
    assert_eq!(segments[0].data_size, 100);
}

#[test]
fn test_worker_creation() {
    let worker = WorkerNodeServer::new(WorkerId("test-worker".into()), capacity());
    assert_eq!(worker.worker_id().0, "test-worker");
    assert!(worker.peer_id().contains("test-worker"));
}

#[test]
fn test_processor_creation() {
    let processor = SegmentProcessor::new(WorkerId("test-worker".into()), capacity());
    assert_eq!(processor.worker_id().0, "test-worker");
}

#[test]
fn test_metrics() {
    let mut metrics = WorkerMetrics::new();
    metrics.record_success(100, 20);
    metrics.record_success(120, 20);
    metrics.record_failure();

    assert_eq!(metrics.segments_processed, 2);
    assert_eq!(metrics.failed_segments, 1);
    let (successes, attempts) = metrics.success_ratio();
    assert_eq!(successes as f64 / attempts as f64, 2.0 / 3.0);
}

#[test]
fn test_segment_validation() {
    let processor = SegmentProcessor::new(WorkerId("test".into()), capacity());

    let valid_segment = Segment {
        id: SegmentId {
            task_id: TaskId(1),
            segment_index: 0,
        },
        task_id: TaskId(1),
        segment_index: 0,
        data_hash: "QmTest".into(),
        data_size: 1000,
        parameters: Parameters::new(),
        assigned_to: None,
        status: SegmentStatus::Assigned,
        proof_of_work: None,
    };

    assert!(processor.validate_segment(&valid_segment).is_ok());
}

#[test]
fn test_worker_status() {
    let worker = WorkerNodeServer::new(WorkerId("test".into()), capacity());
    let metrics = worker.metrics();
    assert_eq!(metrics.segments_processed, 0);
    let (successes, attempts) = metrics.success_ratio();
    assert_eq!(successes as f64 / attempts as f64, 0.0);
    assert_eq!(worker.current_task_count(), 0);
}
