//! The records that coordinators and workers exchange: tasks, segments,
//! results, proofs of work, workers, lottery entries and results, and
//! participant accounts.
//!
//! Quantities that the network keeps as floating-point numbers (reputation
//! and completion scores, processing speeds) are held here as the IEEE-754
//! bit patterns of those numbers, so that they travel through the verified
//! logic unchanged; the arithmetic on them is done outside the library.

use crate::assoc_map::{AssocMap, MapKey};
use vstd::prelude::*;

verus! {

/// Unique identifier for a rendering task.
#[derive(Debug, Clone, Copy, PartialEq, Eq, Hash, Structural)]
pub struct TaskId(pub u64);

impl View for TaskId {
    type V = u64;

    open spec fn view(&self) -> u64 {
        self.0
    }
}

impl MapKey for TaskId {
    fn key_eq(&self, other: &Self) -> (same: bool) {
        self.0 == other.0
    }
}

/// Unique identifier for a worker node.
#[derive(Debug, PartialEq, Eq, Hash)]
pub struct WorkerId(pub String);

impl View for WorkerId {
    type V = Seq<char>;

    open spec fn view(&self) -> Seq<char> {
        self.0@
    }
}

impl Clone for WorkerId {
    fn clone(&self) -> (r: Self)
        ensures
            r == *self,
    {
        WorkerId(self.0.clone())
    }
}

impl MapKey for WorkerId {
    fn key_eq(&self, other: &Self) -> (same: bool) {
        self.0 == other.0
    }
}

impl MapKey for String {
    fn key_eq(&self, other: &Self) -> (same: bool) {
        *self == *other
    }
}

impl MapKey for u64 {
    fn key_eq(&self, other: &Self) -> (same: bool) {
        *self == *other
    }
}

/// Unique identifier for a rendered segment.
#[derive(Debug, Clone, Copy, PartialEq, Eq, Hash, Structural)]
pub struct SegmentId {
    pub task_id: TaskId,
    pub segment_index: u32,
}

impl View for SegmentId {
    type V = (u64, u32);

    open spec fn view(&self) -> (u64, u32) {
        (self.task_id.0, self.segment_index)
    }
}

impl MapKey for SegmentId {
    fn key_eq(&self, other: &Self) -> (same: bool) {
        self.task_id.0 == other.task_id.0 && self.segment_index == other.segment_index
    }
}

/// String parameters of a task, by name.
pub type Parameters = AssocMap<String, String>;

impl Clone for AssocMap<String, String> {
    fn clone(&self) -> (r: Self)
        ensures
            r.wf() == self.wf(),
            r.pairs() == self.pairs(),
    {
        self.copy_pairs()
    }
}

/// A rendering task submitted by a user.
#[derive(Debug)]
pub struct RenderingTask {
    pub id: TaskId,
    /// Content address of the content to render.
    pub content_hash: String,
    /// Size of the content in bytes.
    pub content_size: u64,
    /// How many segments the content is split into.
    pub segment_count: u32,
    pub rendering_type: RenderingType,
    pub parameters: Parameters,
    /// Unix timestamp.
    pub created_at: u64,
    /// Unix timestamp.
    pub deadline: u64,
    /// Credits for the lottery.
    pub reward_pool: u64,
    /// Higher is more urgent.
    pub priority: u8,
}

impl RenderingTask {
    /// Equal field by field, the parameters pair by pair.
    pub open spec fn same_as(&self, other: &Self) -> bool {
        &&& self.id == other.id
        &&& self.content_hash == other.content_hash
        &&& self.content_size == other.content_size
        &&& self.segment_count == other.segment_count
        &&& self.rendering_type == other.rendering_type
        &&& self.parameters.pairs() == other.parameters.pairs()
        &&& self.created_at == other.created_at
        &&& self.deadline == other.deadline
        &&& self.reward_pool == other.reward_pool
        &&& self.priority == other.priority
    }
}

impl Clone for RenderingTask {
    fn clone(&self) -> (r: Self)
        ensures
            r.same_as(self),
    {
        RenderingTask {
            id: self.id,
            content_hash: self.content_hash.clone(),
            content_size: self.content_size,
            segment_count: self.segment_count,
            rendering_type: self.rendering_type.clone(),
            parameters: self.parameters.clone(),
            created_at: self.created_at,
            deadline: self.deadline,
            reward_pool: self.reward_pool,
            priority: self.priority,
        }
    }
}

/// Types of rendering operations supported.
#[derive(Debug)]
pub enum RenderingType {
    ImageProcessing,
    VideoFrame,
    ThreeDRender,
    MLInference,
    AudioProcessing,
    DataTransformation,
    Custom(String),
}

impl Clone for RenderingType {
    fn clone(&self) -> (r: Self)
        ensures
            r == *self,
    {
        match self {
            RenderingType::ImageProcessing => RenderingType::ImageProcessing,
            RenderingType::VideoFrame => RenderingType::VideoFrame,
            RenderingType::ThreeDRender => RenderingType::ThreeDRender,
            RenderingType::MLInference => RenderingType::MLInference,
            RenderingType::AudioProcessing => RenderingType::AudioProcessing,
            RenderingType::DataTransformation => RenderingType::DataTransformation,
            RenderingType::Custom(s) => RenderingType::Custom(s.clone()),
        }
    }
}

/// A single segment of work.
#[derive(Debug)]
pub struct Segment {
    pub id: SegmentId,
    pub task_id: TaskId,
    pub segment_index: u32,
    /// Content address of the segment's data.
    pub data_hash: String,
    pub data_size: u64,
    pub parameters: Parameters,
    pub assigned_to: Option<WorkerId>,
    pub status: SegmentStatus,
    pub proof_of_work: Option<ProofOfWork>,
}

impl Segment {
    /// Equal field by field, the parameters pair by pair.
    pub open spec fn same_as(&self, other: &Self) -> bool {
        &&& self.id == other.id
        &&& self.task_id == other.task_id
        &&& self.segment_index == other.segment_index
        &&& self.data_hash == other.data_hash
        &&& self.data_size == other.data_size
        &&& self.parameters.pairs() == other.parameters.pairs()
        &&& self.assigned_to == other.assigned_to
        &&& self.status == other.status
        &&& self.proof_of_work == other.proof_of_work
    }
}

impl Clone for Segment {
    fn clone(&self) -> (r: Self)
        ensures
            r.same_as(self),
    {
        let assigned_to = match &self.assigned_to {
            Some(w) => Some(w.clone()),
            None => None,
        };
        let proof_of_work = match &self.proof_of_work {
            Some(p) => Some(p.clone()),
            None => None,
        };
        Segment {
            id: self.id,
            task_id: self.task_id,
            segment_index: self.segment_index,
            data_hash: self.data_hash.clone(),
            data_size: self.data_size,
            parameters: self.parameters.clone(),
            assigned_to,
            status: self.status,
            proof_of_work,
        }
    }
}

/// Status of a segment throughout its lifecycle, in the order in which a
/// segment moves through them.
#[derive(Debug, Clone, Copy, PartialEq, Eq, Structural)]
pub enum SegmentStatus {
    /// Waiting for a worker.
    Pending,
    /// Given to a worker.
    Assigned,
    /// A worker is working on it.
    Processing,
    /// A worker returned results.
    Completed,
    /// The proof of work was validated.
    Verified,
    /// The worker failed or timed out.
    Failed,
}

/// The position of a status in the lifecycle order.
pub open spec fn status_rank(s: SegmentStatus) -> nat {
    match s {
        SegmentStatus::Pending => 0,
        SegmentStatus::Assigned => 1,
        SegmentStatus::Processing => 2,
        SegmentStatus::Completed => 3,
        SegmentStatus::Verified => 4,
        SegmentStatus::Failed => 5,
    }
}

impl SegmentStatus {
    /// The position of this status in the lifecycle order.
    pub fn rank(&self) -> (r: u8)
        ensures
            r == status_rank(*self),
    {
        match self {
            SegmentStatus::Pending => 0,
            SegmentStatus::Assigned => 1,
            SegmentStatus::Processing => 2,
            SegmentStatus::Completed => 3,
            SegmentStatus::Verified => 4,
            SegmentStatus::Failed => 5,
        }
    }
}

/// Result of segment processing from a worker.
#[derive(Debug)]
pub struct SegmentResult {
    pub segment_id: SegmentId,
    pub worker_id: WorkerId,
    /// Content address of the result data.
    pub result_hash: String,
    pub result_size: u64,
    pub processing_time_ms: u64,
    pub proof_of_work: ProofOfWork,
    pub timestamp: u64,
}

impl Clone for SegmentResult {
    fn clone(&self) -> (r: Self)
        ensures
            r == *self,
    {
        SegmentResult {
            segment_id: self.segment_id,
            worker_id: self.worker_id.clone(),
            result_hash: self.result_hash.clone(),
            result_size: self.result_size,
            processing_time_ms: self.processing_time_ms,
            proof_of_work: self.proof_of_work.clone(),
            timestamp: self.timestamp,
        }
    }
}

/// Proof that work was actually done.
#[derive(Debug)]
pub struct ProofOfWork {
    /// The value that, hashed with the computation hash, meets the difficulty.
    pub nonce: u64,
    /// How many leading zero bits the hash must have.
    pub difficulty: u32,
    /// Hex SHA-256 hash meeting the difficulty.
    pub hash: String,
    /// Hex SHA-256 hash of the computation's result.
    pub computation_hash: String,
    /// Time spent searching for the nonce, in microseconds; the work factor
    /// (CPU-minutes) that the network reports is derived from it.
    pub elapsed_micros: u64,
}

impl Clone for ProofOfWork {
    fn clone(&self) -> (r: Self)
        ensures
            r == *self,
    {
        ProofOfWork {
            nonce: self.nonce,
            difficulty: self.difficulty,
            hash: self.hash.clone(),
            computation_hash: self.computation_hash.clone(),
            elapsed_micros: self.elapsed_micros,
        }
    }
}

/// Worker node registration and state.
#[derive(Debug)]
pub struct WorkerNode {
    pub id: WorkerId,
    /// Peer identifier on the network.
    pub peer_id: String,
    pub compute_capacity: ComputeCapacity,
    /// Bit pattern of the reputation score (a float between 0 and 100).
    pub reputation_score_bits: u64,
    /// Bit pattern of the completion rate (a float percentage).
    pub completion_rate_bits: u64,
    /// Bit pattern of the average processing speed (a float, MB/s).
    pub avg_processing_speed_bits: u64,
    pub joined_at: u64,
    pub last_heartbeat: u64,
    pub current_segment: Option<SegmentId>,
    pub total_segments_completed: u64,
}

impl Clone for WorkerNode {
    fn clone(&self) -> (r: Self)
        ensures
            r == *self,
    {
        WorkerNode {
            id: self.id.clone(),
            peer_id: self.peer_id.clone(),
            compute_capacity: self.compute_capacity,
            reputation_score_bits: self.reputation_score_bits,
            completion_rate_bits: self.completion_rate_bits,
            avg_processing_speed_bits: self.avg_processing_speed_bits,
            joined_at: self.joined_at,
            last_heartbeat: self.last_heartbeat,
            current_segment: self.current_segment,
            total_segments_completed: self.total_segments_completed,
        }
    }
}

/// A worker's compute resources.
#[derive(Debug, Clone, Copy)]
pub struct ComputeCapacity {
    pub cpu_cores: u32,
    pub gpu_vram_mb: u32,
    pub available_disk_mb: u64,
    pub network_speed_mbps: u32,
}

/// Lottery entry for a participant.
#[derive(Debug)]
pub struct LotteryEntry {
    pub id: u64,
    pub task_id: TaskId,
    pub worker_id: WorkerId,
    pub segment_id: SegmentId,
    pub entry_type: EntryType,
    pub created_at: u64,
}

impl Clone for LotteryEntry {
    fn clone(&self) -> (r: Self)
        ensures
            r == *self,
    {
        LotteryEntry {
            id: self.id,
            task_id: self.task_id,
            worker_id: self.worker_id.clone(),
            segment_id: self.segment_id,
            entry_type: self.entry_type,
            created_at: self.created_at,
        }
    }
}

/// Different kinds of lottery entries.
#[derive(Debug, Clone, Copy, PartialEq, Eq, Structural)]
pub enum EntryType {
    /// Completed a rendering segment.
    SegmentCompletion,
    /// Exceptionally fast completion.
    QualityBonus,
    /// Nth consecutive completed segment.
    ConsistencyBonus,
}

/// Lottery drawing result.
#[derive(Debug)]
pub struct LotteryResult {
    pub task_id: TaskId,
    pub epoch: u64,
    pub winner_id: WorkerId,
    pub winning_entry: LotteryEntry,
    pub total_entries: u64,
    pub reward_amount: u64,
    pub drawn_at: u64,
    /// Proof of the randomness used in the draw.
    pub vrf_proof: String,
}

impl Clone for LotteryResult {
    fn clone(&self) -> (r: Self)
        ensures
            r == *self,
    {
        LotteryResult {
            task_id: self.task_id,
            epoch: self.epoch,
            winner_id: self.winner_id.clone(),
            winning_entry: self.winning_entry.clone(),
            total_entries: self.total_entries,
            reward_amount: self.reward_amount,
            drawn_at: self.drawn_at,
            vrf_proof: self.vrf_proof.clone(),
        }
    }
}

/// A participant's account and reputation.
#[derive(Debug)]
pub struct ParticipantRecord {
    pub worker_id: WorkerId,
    pub credits_balance: u64,
    /// Bit pattern of the reputation score (a float).
    pub reputation_score_bits: u64,
    pub segments_completed: u64,
    pub lottery_wins: u64,
    pub tasks_submitted: u64,
    pub joined_at: u64,
    pub badges: Vec<Badge>,
    /// When the record was last changed (Unix seconds); of two replicas'
    /// records for one participant, the later one wins a merge.
    pub last_updated: u64,
}

/// Achievement badge.
#[derive(Debug)]
pub struct Badge {
    pub name: String,
    pub description: String,
    pub earned_at: u64,
}

impl Clone for Badge {
    fn clone(&self) -> (r: Self)
        ensures
            r == *self,
    {
        Badge { name: self.name.clone(), description: self.description.clone(), earned_at: self.earned_at }
    }
}

impl Clone for ParticipantRecord {
    fn clone(&self) -> (r: Self)
        ensures
            r.worker_id == self.worker_id,
            r.credits_balance == self.credits_balance,
            r.reputation_score_bits == self.reputation_score_bits,
            r.segments_completed == self.segments_completed,
            r.lottery_wins == self.lottery_wins,
            r.tasks_submitted == self.tasks_submitted,
            r.joined_at == self.joined_at,
            r.badges@ == self.badges@,
            r.last_updated == self.last_updated,
    {
        ParticipantRecord {
            worker_id: self.worker_id.clone(),
            credits_balance: self.credits_balance,
            reputation_score_bits: self.reputation_score_bits,
            segments_completed: self.segments_completed,
            lottery_wins: self.lottery_wins,
            tasks_submitted: self.tasks_submitted,
            joined_at: self.joined_at,
            badges: self.badges.clone(),
            last_updated: self.last_updated,
        }
    }
}

} // verus!
