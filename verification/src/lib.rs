//! A distributed rendering lottery: tasks are split into segments, workers
//! render the segments and prove their work, and every completed segment is an
//! entry in a lottery drawn when the task is complete.

pub mod assoc_map;
pub mod clock;
pub mod coordinator;
pub mod freenet_scaffold;
pub mod hashing;
pub mod laws;
pub mod lottery_engine;
pub mod lottery_state;
pub mod proof_of_work;
pub mod result_aggregator;
pub mod segment_processor;
pub mod task_manager;
pub mod worker_registry;
pub mod types;
pub mod worker_node;

pub use coordinator::{CoordinatorNode, CoordinatorStatus, DrawInputs, LibP2PCoordinatorHandle, ScoreUpdate};
pub use freenet_scaffold::FreenetScaffoldState;
pub use lottery_engine::LotteryEngine;
pub use lottery_state::LotteryState;
pub use result_aggregator::ResultAggregator;
pub use segment_processor::{ProcessingError, RenderKind, SegmentProcessor, WorkerMetrics};
pub use task_manager::TaskManager;
pub use types::{
    Badge, ComputeCapacity, EntryType, LotteryEntry, LotteryResult, Parameters, ParticipantRecord,
    ProofOfWork, RenderingTask, RenderingType, Segment, SegmentId, SegmentResult, SegmentStatus,
    TaskId, WorkerId, WorkerNode,
};
pub use worker_node::{LibP2PHandle, TaskAssignment, WorkerNodeServer};
pub use worker_registry::WorkerRegistry;
