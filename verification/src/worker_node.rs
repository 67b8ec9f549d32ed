//! The state of a worker node: its identity, processor, metrics and the
//! segments it has been given.

use crate::assoc_map::AssocMap;
use crate::segment_processor::{ProcessingError, SegmentProcessor, WorkerMetrics, POW_DIFFICULTY};
use crate::types::{ComputeCapacity, Segment, SegmentResult, WorkerId};
use vstd::prelude::*;

verus! {

/// Network handle of a worker: its peer identifier, the channel it listens
/// to for tasks, and the peers it first connects to.
pub struct LibP2PHandle {
    peer_id: String,
    pubsub_channel: String,
    bootstrap_peers: Vec<String>,
}

impl LibP2PHandle {
    pub closed spec fn peer(&self) -> String {
        self.peer_id
    }

    pub closed spec fn channel(&self) -> String {
        self.pubsub_channel
    }

    pub closed spec fn bootstrap(&self) -> Seq<String> {
        self.bootstrap_peers@
    }

    pub fn peer_id(&self) -> (s: &String)
        ensures
            *s == self.peer(),
    {
        &self.peer_id
    }

    pub fn pubsub_channel(&self) -> (s: &String)
        ensures
            *s == self.channel(),
    {
        &self.pubsub_channel
    }

    pub fn bootstrap_peers(&self) -> (v: &Vec<String>)
        ensures
            v@ == self.bootstrap(),
    {
        &self.bootstrap_peers
    }
}

/// Task assignment received from a coordinator.
#[derive(Debug)]
pub struct TaskAssignment {
    pub segment: Segment,
    pub coordinator_peer: String,
    pub deadline_seconds: u64,
}

/// The state of a worker node.
pub struct WorkerNodeServer {
    worker_id: WorkerId,
    processor: SegmentProcessor,
    metrics: WorkerMetrics,
    peer_id: String,
    current_tasks: AssocMap<u64, Segment>,
}

impl WorkerNodeServer {
    pub closed spec fn worker(&self) -> WorkerId {
        self.worker_id
    }

    pub closed spec fn peer(&self) -> String {
        self.peer_id
    }

    pub closed spec fn segment_processor(&self) -> SegmentProcessor {
        self.processor
    }

    pub closed spec fn worker_metrics(&self) -> WorkerMetrics {
        self.metrics
    }

    /// The segments received, by task identifier.
    pub closed spec fn tasks(&self) -> AssocMap<u64, Segment> {
        self.current_tasks
    }

    pub open spec fn wf(&self) -> bool {
        self.tasks().wf()
    }

    /// A worker named `worker_id`, known on the network as "worker-"
    /// followed by its name, with fresh metrics and no segments.
    pub fn new(worker_id: WorkerId, compute_capacity: ComputeCapacity) -> (w: Self)
        ensures
            w.wf(),
            w.worker() == worker_id,
            w.peer()@ == "worker-"@ + worker_id.0@,
            w.segment_processor().worker() == worker_id,
            w.segment_processor().capacity() == compute_capacity,
            w.segment_processor().difficulty() == POW_DIFFICULTY,
            w.worker_metrics().segments_processed == 0,
            w.worker_metrics().failed_segments == 0,
            w.worker_metrics().total_processing_time == 0,
            w.worker_metrics().last_heartbeat == 0,
            w.tasks()@ == Map::<u64, Segment>::empty(),
    {
        let processor = SegmentProcessor::new(worker_id.clone(), compute_capacity);
        let peer_id = String::from_str("worker-").concat(worker_id.0.as_str());
        WorkerNodeServer {
            worker_id,
            processor,
            metrics: WorkerMetrics::new(),
            peer_id,
            current_tasks: AssocMap::new(),
        }
    }

    pub fn worker_id(&self) -> (w: &WorkerId)
        ensures
            *w == self.worker(),
    {
        &self.worker_id
    }

    pub fn peer_id(&self) -> (s: &String)
        ensures
            *s == self.peer(),
    {
        &self.peer_id
    }

    pub fn processor(&self) -> (p: &SegmentProcessor)
        ensures
            *p == self.segment_processor(),
    {
        &self.processor
    }

    pub fn metrics(&self) -> (m: &WorkerMetrics)
        ensures
            *m == self.worker_metrics(),
    {
        &self.metrics
    }

    /// The network handle of this worker.
    pub fn init_libp2p(&self) -> (h: LibP2PHandle)
        ensures
            h.peer() == self.peer(),
            h.channel()@ == "freenet-lottery-tasks"@,
            h.bootstrap().len() == 2,
            h.bootstrap()[0]@ == "/ip4/127.0.0.1/tcp/30333/p2p/QmBootstrap1"@,
            h.bootstrap()[1]@ == "/ip4/127.0.0.1/tcp/30334/p2p/QmBootstrap2"@,
    {
        let mut bootstrap_peers: Vec<String> = Vec::new();
        bootstrap_peers.push(String::from_str("/ip4/127.0.0.1/tcp/30333/p2p/QmBootstrap1"));
        bootstrap_peers.push(String::from_str("/ip4/127.0.0.1/tcp/30334/p2p/QmBootstrap2"));
        LibP2PHandle {
            peer_id: self.peer_id.clone(),
            pubsub_channel: String::from_str("freenet-lottery-tasks"),
            bootstrap_peers,
        }
    }

    /// Keeps a received segment under its task's identifier.
    pub fn store_task(&mut self, segment: Segment)
        requires
            old(self).wf(),
        ensures
            final(self).wf(),
            final(self).tasks()@ == old(self).tasks()@.insert(segment.id.task_id.0, segment),
            final(self).worker_metrics() == old(self).worker_metrics(),
            final(self).worker() == old(self).worker(),
            final(self).peer() == old(self).peer(),
    {
        let key = segment.id.task_id.0;
        self.current_tasks.insert(key, segment);
    }

    /// How many segments the worker holds.
    pub fn current_task_count(&self) -> (n: usize)
        requires
            self.wf(),
        ensures
            n == self.tasks()@.len(),
    {
        self.current_tasks.len()
    }

    /// Handles the outcome of processing a segment at time `now`: a result
    /// is recorded as a success and is to be sent to the coordinator (the
    /// answer is `true`); an error is recorded as a failure and nothing is
    /// sent (`false`).
    pub fn handle_outcome_at(&mut self, outcome: &Result<SegmentResult, ProcessingError>, now: u64) -> (send: bool)
        requires
            outcome matches Ok(res) ==> {
                &&& old(self).worker_metrics().segments_processed < u64::MAX
                &&& old(self).worker_metrics().total_processing_time + res.processing_time_ms <= u64::MAX
                &&& old(self).worker_metrics().average_proof_difficulty_solved + res.proof_of_work.difficulty
                    <= u32::MAX
            },
            outcome is Err ==> old(self).worker_metrics().failed_segments < u64::MAX,
        ensures
            send == outcome is Ok,
            outcome matches Ok(res) ==> final(self).worker_metrics().recorded_success(
                &old(self).worker_metrics(),
                res.processing_time_ms,
                res.proof_of_work.difficulty,
                now,
            ),
            outcome is Err ==> final(self).worker_metrics().recorded_failure(&old(self).worker_metrics(), now),
            final(self).tasks() == old(self).tasks(),
            final(self).worker() == old(self).worker(),
            final(self).peer() == old(self).peer(),
            final(self).segment_processor() == old(self).segment_processor(),
    {
        match outcome {
            Ok(res) => {
                self.metrics.record_success_at(res.processing_time_ms, res.proof_of_work.difficulty, now);
                true
            },
            Err(_) => {
                self.metrics.record_failure_at(now);
                false
            },
        }
    }

    /// Records a processed segment in the metrics.
    pub fn record_success(&mut self, processing_time_ms: u64, difficulty: u32)
        requires
            old(self).worker_metrics().segments_processed < u64::MAX,
            old(self).worker_metrics().total_processing_time + processing_time_ms <= u64::MAX,
            old(self).worker_metrics().average_proof_difficulty_solved + difficulty <= u32::MAX,
        ensures
            final(self).worker_metrics().segments_processed == old(self).worker_metrics().segments_processed + 1,
            final(self).worker_metrics().total_processing_time == old(self).worker_metrics().total_processing_time
                + processing_time_ms,
            final(self).worker_metrics().average_proof_difficulty_solved == (old(self).worker_metrics().average_proof_difficulty_solved + difficulty) / 2,
            final(self).worker_metrics().failed_segments == old(self).worker_metrics().failed_segments,
            final(self).tasks() == old(self).tasks(),
            final(self).worker() == old(self).worker(),
            final(self).peer() == old(self).peer(),
    {
        self.metrics.record_success(processing_time_ms, difficulty);
    }

    /// Records a failed segment in the metrics.
    pub fn record_failure(&mut self)
        requires
            old(self).worker_metrics().failed_segments < u64::MAX,
        ensures
            final(self).worker_metrics().failed_segments == old(self).worker_metrics().failed_segments + 1,
            final(self).worker_metrics().segments_processed == old(self).worker_metrics().segments_processed,
            final(self).worker_metrics().total_processing_time == old(self).worker_metrics().total_processing_time,
            final(self).tasks() == old(self).tasks(),
            final(self).worker() == old(self).worker(),
            final(self).peer() == old(self).peer(),
    {
        self.metrics.record_failure();
    }
}

} // verus!
