//! The worker's processing of a segment: validation, the rendering
//! transforms, the proof of work, and the result record.

use crate::clock::{instant_now, micros_since, millis_since, secs_since, unix_time_secs};
use crate::hashing::{append_hex, content_address, content_address_of, hex_of, push_all, push_le_u64, sha256, sha256_digest};
use crate::proof_of_work::{compute_nonce_hash, count_leading_zeros, leading_zeros, nonce_hash, proves_work};
use crate::types::{ComputeCapacity, ProofOfWork, Segment, SegmentResult, WorkerId};
use vstd::prelude::*;

verus! {

/// Leading zero bits a worker's proofs of work must have.
pub const POW_DIFFICULTY: u32 = 20;

/// How many nonces are tried between two readings of the clock; the first
/// batch is always tried in full.
pub const POW_BATCH: u64 = 1024;

/// Seconds after which the search for a proof of work gives up.
pub const POW_TIME_LIMIT_SECS: u64 = 60;

/// Largest segment a worker accepts, in bytes.
pub const MAX_SEGMENT_BYTES: u64 = 10_000_000_000;

/// Errors that can occur during segment processing.
#[derive(Debug)]
pub enum ProcessingError {
    InvalidSegment(String),
    IpfsFetchError(String),
    RenderingError(String),
    ProofOfWorkTimeout,
    IpfsUploadError(String),
    ComputeCapacityExceeded,
    Timeout,
}

impl Clone for ProcessingError {
    fn clone(&self) -> (r: Self)
        ensures
            r == *self,
    {
        match self {
            ProcessingError::InvalidSegment(s) => ProcessingError::InvalidSegment(s.clone()),
            ProcessingError::IpfsFetchError(s) => ProcessingError::IpfsFetchError(s.clone()),
            ProcessingError::RenderingError(s) => ProcessingError::RenderingError(s.clone()),
            ProcessingError::ProofOfWorkTimeout => ProcessingError::ProofOfWorkTimeout,
            ProcessingError::IpfsUploadError(s) => ProcessingError::IpfsUploadError(s.clone()),
            ProcessingError::ComputeCapacityExceeded => ProcessingError::ComputeCapacityExceeded,
            ProcessingError::Timeout => ProcessingError::Timeout,
        }
    }
}

/// The human-readable text of an error.
pub open spec fn error_message(e: ProcessingError) -> Seq<char> {
    match e {
        ProcessingError::InvalidSegment(s) => "Invalid segment: "@ + s@,
        ProcessingError::IpfsFetchError(s) => "IPFS fetch error: "@ + s@,
        ProcessingError::RenderingError(s) => "Rendering error: "@ + s@,
        ProcessingError::ProofOfWorkTimeout => "Proof of work computation timed out"@,
        ProcessingError::IpfsUploadError(s) => "IPFS upload error: "@ + s@,
        ProcessingError::ComputeCapacityExceeded => "Compute capacity exceeded"@,
        ProcessingError::Timeout => "Processing timeout"@,
    }
}

impl ProcessingError {
    /// The human-readable text of the error.
    pub fn message(&self) -> (m: String)
        ensures
            m@ == error_message(*self),
    {
        match self {
            ProcessingError::InvalidSegment(s) => String::from_str("Invalid segment: ").concat(s.as_str()),
            ProcessingError::IpfsFetchError(s) => String::from_str("IPFS fetch error: ").concat(s.as_str()),
            ProcessingError::RenderingError(s) => String::from_str("Rendering error: ").concat(s.as_str()),
            ProcessingError::ProofOfWorkTimeout => String::from_str("Proof of work computation timed out"),
            ProcessingError::IpfsUploadError(s) => String::from_str("IPFS upload error: ").concat(s.as_str()),
            ProcessingError::ComputeCapacityExceeded => String::from_str("Compute capacity exceeded"),
            ProcessingError::Timeout => String::from_str("Processing timeout"),
        }
    }
}

/// The renderer a segment asks for through its "rendering_type" parameter.
#[derive(Debug, Clone, Copy, PartialEq, Eq, Structural)]
pub enum RenderKind {
    ImageProcessing,
    VideoFrame,
    MlInference,
    AudioProcessing,
    ThreeD,
    Default,
}

/// The renderer named by a segment's parameters.
pub open spec fn render_kind_of(params: Map<Seq<char>, String>) -> RenderKind {
    if !params.contains_key("rendering_type"@) {
        RenderKind::Default
    } else {
        let v = params["rendering_type"@]@;
        if v == "image_processing"@ {
            RenderKind::ImageProcessing
        } else if v == "video_frame"@ {
            RenderKind::VideoFrame
        } else if v == "ml_inference"@ {
            RenderKind::MlInference
        } else if v == "audio_processing"@ {
            RenderKind::AudioProcessing
        } else if v == "3d_render"@ {
            RenderKind::ThreeD
        } else {
            RenderKind::Default
        }
    }
}

/// One byte of the image filter: add 42, multiply by 13, add 1, each
/// modulo 256.
pub open spec fn image_byte(b: u8) -> u8 {
    ((((((b + 42) % 256) * 13) % 256) + 1) % 256) as u8
}

/// The class label of a 32-byte chunk: its first byte modulo 10.
pub open spec fn ml_output(data: Seq<u8>) -> Seq<u8> {
    Seq::new(((data.len() + 31) / 32) as nat, |j: int| (data[32 * j] % 10) as u8)
}

/// The 3D output: each byte followed by a zero byte.
pub open spec fn render_3d_output(data: Seq<u8>) -> Seq<u8> {
    Seq::new(2 * data.len(), |k: int| if k % 2 == 0 { data[k / 2] } else { 0u8 })
}

/// Multiplies two bytes, stopping at 255.
fn saturating_mul_u8(a: u8, b: u8) -> (r: u8)
    ensures
        r == if a * b > 255 { 255 } else { a * b },
{
    assert((a as u16) * (b as u16) <= 65025) by (nonlinear_arith);
    let p: u16 = a as u16 * b as u16;
    if p > 255 {
        255
    } else {
        p as u8
    }
}

/// The smallest nonce from `from` up to (not including) `to` whose nonce
/// hash with `computation_hash` starts with `target` zero bits, with that
/// hash; `None` when no nonce in the range does.
pub fn search_nonces(computation_hash: &String, target: u32, from: u64, to: u64) -> (r: Option<(u64, String)>)
    ensures
        match r {
            Some((n, h)) => {
                &&& from <= n < to
                &&& h@ == nonce_hash(computation_hash@, n)
                &&& leading_zeros(h@) >= target
                &&& forall|m: u64|
                    from <= m < n ==> leading_zeros(#[trigger] nonce_hash(computation_hash@, m)) < target
            },
            None => forall|m: u64|
                from <= m < to ==> leading_zeros(#[trigger] nonce_hash(computation_hash@, m)) < target,
        },
{
    let mut n = from;
    while n < to
        invariant
            from <= n,
            forall|m: u64| from <= m < n ==> leading_zeros(#[trigger] nonce_hash(computation_hash@, m)) < target,
        decreases to - n,
    {
        let candidate = compute_nonce_hash(computation_hash, n);
        let leading = count_leading_zeros(candidate.as_str());
        if leading >= target as usize {
            return Some((n, candidate));
        }
        n = n + 1;
    }
    None
}

/// Whether the search for a proof of work gives up after a batch: when the
/// nonces have run out, or when more than the time limit has elapsed.
pub fn pow_gives_up(elapsed_secs: u64, nonces_exhausted: bool) -> (b: bool)
    ensures
        b == (nonces_exhausted || elapsed_secs > POW_TIME_LIMIT_SECS),
{
    nonces_exhausted || elapsed_secs > POW_TIME_LIMIT_SECS
}

/// Main segment processor of a worker.
pub struct SegmentProcessor {
    worker_id: WorkerId,
    compute_capacity: ComputeCapacity,
    pow_difficulty: u32,
}

impl SegmentProcessor {
    pub closed spec fn worker(&self) -> WorkerId {
        self.worker_id
    }

    pub closed spec fn capacity(&self) -> ComputeCapacity {
        self.compute_capacity
    }

    pub closed spec fn difficulty(&self) -> u32 {
        self.pow_difficulty
    }

    pub fn new(worker_id: WorkerId, compute_capacity: ComputeCapacity) -> (p: Self)
        ensures
            p.worker() == worker_id,
            p.capacity() == compute_capacity,
            p.difficulty() == POW_DIFFICULTY,
    {
        SegmentProcessor { worker_id, compute_capacity, pow_difficulty: POW_DIFFICULTY }
    }

    /// A processor whose proofs of work need `pow_difficulty` leading zeros.
    pub fn with_difficulty(worker_id: WorkerId, compute_capacity: ComputeCapacity, pow_difficulty: u32) -> (p: Self)
        ensures
            p.worker() == worker_id,
            p.capacity() == compute_capacity,
            p.difficulty() == pow_difficulty,
    {
        SegmentProcessor { worker_id, compute_capacity, pow_difficulty }
    }

    pub fn compute_capacity(&self) -> (c: ComputeCapacity)
        ensures
            c == self.capacity(),
    {
        self.compute_capacity
    }

    pub fn worker_id(&self) -> (w: &WorkerId)
        ensures
            *w == self.worker(),
    {
        &self.worker_id
    }

    pub fn pow_difficulty(&self) -> (d: u32)
        ensures
            d == self.difficulty(),
    {
        self.pow_difficulty
    }

    /// Checks that a segment is well formed: a valid index and a data size
    /// that is neither zero nor above the maximum.
    pub fn validate_segment(&self, segment: &Segment) -> (r: Result<(), ProcessingError>)
        ensures
            segment.segment_index == u32::MAX ==> (r matches Err(ProcessingError::InvalidSegment(m))
                && m@ == "Invalid segment index"@),
            segment.segment_index != u32::MAX && segment.data_size == 0 ==> (r matches Err(
                ProcessingError::InvalidSegment(m),
            ) && m@ == "Empty segment data"@),
            segment.segment_index != u32::MAX && segment.data_size != 0 && segment.data_size
                > MAX_SEGMENT_BYTES ==> (r matches Err(ProcessingError::InvalidSegment(m)) && m@
                == "Segment too large"@),
            segment.segment_index != u32::MAX && segment.data_size != 0 && segment.data_size
                <= MAX_SEGMENT_BYTES ==> r is Ok,
    {
        if segment.segment_index == u32::MAX {
            return Err(ProcessingError::InvalidSegment(String::from_str("Invalid segment index")));
        }
        if segment.data_size == 0 {
            return Err(ProcessingError::InvalidSegment(String::from_str("Empty segment data")));
        }
        if segment.data_size > MAX_SEGMENT_BYTES {
            return Err(ProcessingError::InvalidSegment(String::from_str("Segment too large")));
        }
        Ok(())
    }

    /// The renderer the segment asks for.
    pub fn render_kind(&self, segment: &Segment) -> (k: RenderKind)
        requires
            segment.parameters.wf(),
        ensures
            k == render_kind_of(segment.parameters@),
    {
        let key = String::from_str("rendering_type");
        match segment.parameters.get(&key) {
            None => RenderKind::Default,
            Some(v) => {
                if *v == String::from_str("image_processing") {
                    RenderKind::ImageProcessing
                } else if *v == String::from_str("video_frame") {
                    RenderKind::VideoFrame
                } else if *v == String::from_str("ml_inference") {
                    RenderKind::MlInference
                } else if *v == String::from_str("audio_processing") {
                    RenderKind::AudioProcessing
                } else if *v == String::from_str("3d_render") {
                    RenderKind::ThreeD
                } else {
                    RenderKind::Default
                }
            },
        }
    }

    /// Renders the segment's data with the renderer the segment asks for;
    /// `None` for video frames, whose renderer works on floating-point
    /// numbers and is run by the caller.
    pub fn render_segment(&self, segment: &Segment, data: &[u8]) -> (r: Option<Result<Vec<u8>, ProcessingError>>)
        requires
            segment.parameters.wf(),
            render_kind_of(segment.parameters@) == RenderKind::ThreeD ==> 2 * data@.len() <= usize::MAX,
        ensures
            r is None <==> render_kind_of(segment.parameters@) == RenderKind::VideoFrame,
            r matches Some(x) ==> x matches Ok(out) && out@ == match render_kind_of(segment.parameters@) {
                RenderKind::ImageProcessing => data@.map_values(|b: u8| image_byte(b)),
                RenderKind::MlInference => ml_output(data@),
                RenderKind::ThreeD => render_3d_output(data@),
                _ => data@,
            },
    {
        match self.render_kind(segment) {
            RenderKind::ImageProcessing => Some(self.process_image(data)),
            RenderKind::VideoFrame => None,
            RenderKind::MlInference => Some(self.process_ml_inference(data)),
            RenderKind::AudioProcessing => Some(self.process_audio(data)),
            RenderKind::ThreeD => Some(self.process_3d(data)),
            RenderKind::Default => Some(self.process_default(data)),
        }
    }

    /// Image processing: every byte goes through the image filter.
    pub fn process_image(&self, data: &[u8]) -> (r: Result<Vec<u8>, ProcessingError>)
        ensures
            r matches Ok(out) && out@ == data@.map_values(|b: u8| image_byte(b)),
    {
        let mut processed: Vec<u8> = Vec::new();
        let mut i: usize = 0;
        while i < data.len()
            invariant
                i <= data@.len(),
                processed@ == data@.subrange(0, i as int).map_values(|b: u8| image_byte(b)),
            decreases data.len() - i,
        {
            let b = data[i];
            let v = b.wrapping_add(42).wrapping_mul(13).wrapping_add(1);
            assert(v == image_byte(b));
            processed.push(v);
            proof {
                assert(processed@ =~= data@.subrange(0, i + 1).map_values(|b: u8| image_byte(b)));
            }
            i = i + 1;
        }
        proof {
            assert(data@.subrange(0, data@.len() as int) =~= data@);
        }
        Ok(processed)
    }

    /// ML inference: one class label (0 to 9) per chunk of 32 bytes.
    pub fn process_ml_inference(&self, data: &[u8]) -> (r: Result<Vec<u8>, ProcessingError>)
        ensures
            r matches Ok(out) && out@ == ml_output(data@),
    {
        let n = data.len();
        let chunks = n / 32 + if n % 32 != 0 {
            1
        } else {
            0
        };
        assert(chunks == (n + 31) / 32);
        let mut output: Vec<u8> = Vec::new();
        let mut j: usize = 0;
        while j < chunks
            invariant
                chunks == (data@.len() + 31) / 32,
                n == data@.len(),
                j <= chunks,
                output@ == ml_output(data@).subrange(0, j as int),
            decreases chunks - j,
        {
            assert(32 * j < n);
            let prediction = data[32 * j] % 10;
            output.push(prediction);
            proof {
                assert(output@ =~= ml_output(data@).subrange(0, j + 1));
            }
            j = j + 1;
        }
        proof {
            assert(output@ =~= ml_output(data@));
        }
        Ok(output)
    }

    /// Audio processing: every byte multiplied by one, stopping at 255,
    /// which leaves it as it is.
    pub fn process_audio(&self, data: &[u8]) -> (r: Result<Vec<u8>, ProcessingError>)
        ensures
            r matches Ok(out) && out@ == data@,
    {
        let mut processed: Vec<u8> = Vec::new();
        let mut i: usize = 0;
        while i < data.len()
            invariant
                i <= data@.len(),
                processed@ == data@.subrange(0, i as int),
            decreases data.len() - i,
        {
            processed.push(saturating_mul_u8(data[i], 1));
            proof {
                assert(processed@ =~= data@.subrange(0, i + 1));
            }
            i = i + 1;
        }
        proof {
            assert(data@.subrange(0, data@.len() as int) =~= data@);
        }
        Ok(processed)
    }

    /// 3D rendering: each byte followed by its high byte as a 16-bit
    /// number, which is zero; the output is twice as long.
    pub fn process_3d(&self, data: &[u8]) -> (r: Result<Vec<u8>, ProcessingError>)
        requires
            2 * data@.len() <= usize::MAX,
        ensures
            r matches Ok(out) && out@ == render_3d_output(data@),
    {
        let mut rendered: Vec<u8> = Vec::new();
        let mut i: usize = 0;
        while i < data.len()
            invariant
                i <= data@.len(),
                rendered@ == render_3d_output(data@).subrange(0, 2 * i),
            decreases data.len() - i,
        {
            let b = data[i];
            rendered.push(b);
            let high = ((b as u16) >> 8) as u8;
            assert(high == 0) by (bit_vector)
                requires
                    high == ((b as u16) >> 8) as u8,
            ;
            rendered.push(high);
            proof {
                assert(rendered@ =~= render_3d_output(data@).subrange(0, 2 * (i + 1)));
            }
            i = i + 1;
        }
        proof {
            assert(rendered@ =~= render_3d_output(data@));
        }
        Ok(rendered)
    }

    /// Default processing: the data passes through unchanged.
    pub fn process_default(&self, data: &[u8]) -> (r: Result<Vec<u8>, ProcessingError>)
        ensures
            r matches Ok(out) && out@ == data@,
    {
        let mut out: Vec<u8> = Vec::new();
        push_all(&mut out, data);
        assert(out@ =~= data@);
        Ok(out)
    }

    /// Searches for the smallest nonce whose hash, with the hex hash of the
    /// data, has the processor's difficulty in leading zero bits. Nonces are
    /// tried in batches of `POW_BATCH`, and the clock is read after each
    /// batch (not after each nonce); the search gives up as `pow_gives_up`
    /// decides, once the time limit has passed or the nonces run out.
    pub fn generate_proof_of_work(&self, data: &[u8]) -> (r: Result<ProofOfWork, ProcessingError>)
        ensures
            match r {
                Ok(p) => proves_work(p, data@, self.difficulty()),
                Err(e) => {
                    &&& e == ProcessingError::ProofOfWorkTimeout
                    &&& forall|n: u64|
                        n < POW_BATCH ==> leading_zeros(#[trigger] nonce_hash(hex_of(sha256(data@)), n))
                            < self.difficulty()
                },
            },
    {
        let start = instant_now();
        let digest = sha256_digest(data);
        let mut computation_hash = String::new();
        append_hex(&mut computation_hash, digest.as_slice());
        assert(computation_hash@ =~= hex_of(sha256(data@)));
        let target = self.pow_difficulty;
        let mut nonce: u64 = 0;
        loop
            invariant
                computation_hash@ == hex_of(sha256(data@)),
                target == self.difficulty(),
                nonce == 0 || nonce >= POW_BATCH,
                forall|n: u64| n < nonce ==> leading_zeros(#[trigger] nonce_hash(computation_hash@, n)) < target,
            decreases u64::MAX - nonce,
        {
            let end = if nonce <= u64::MAX - POW_BATCH {
                nonce + POW_BATCH
            } else {
                u64::MAX
            };
            match search_nonces(&computation_hash, target, nonce, end) {
                Some((n, hash)) => {
                    let elapsed_micros = micros_since(&start);
                    return Ok(
                        ProofOfWork { nonce: n, difficulty: target, hash, computation_hash, elapsed_micros },
                    );
                },
                None => {},
            }
            let elapsed = secs_since(&start);
            if pow_gives_up(elapsed, end == u64::MAX) {
                return Err(ProcessingError::ProofOfWorkTimeout);
            }
            nonce = end;
        }
    }

    /// Completes a segment from its rendered data: proves the work, takes
    /// the content address of the data, and records the time spent since
    /// `start` and the current time. It fails only when the proof of work
    /// times out, which cannot happen when one of the first `POW_BATCH`
    /// nonces meets the difficulty.
    pub fn finish_segment(
        &self,
        segment: &Segment,
        processed_data: &[u8],
        start: &std::time::Instant,
    ) -> (r: Result<SegmentResult, ProcessingError>)
        ensures
            match r {
                Ok(res) => {
                    &&& res.segment_id == segment.id
                    &&& res.worker_id == self.worker()
                    &&& res.result_hash@ == content_address(processed_data@)
                    &&& res.result_size == processed_data@.len()
                    &&& proves_work(res.proof_of_work, processed_data@, self.difficulty())
                },
                Err(e) => {
                    &&& e == ProcessingError::ProofOfWorkTimeout
                    &&& forall|n: u64|
                        n < POW_BATCH ==> leading_zeros(#[trigger] nonce_hash(hex_of(sha256(processed_data@)), n))
                            < self.difficulty()
                },
            },
    {
        let proof = match self.generate_proof_of_work(processed_data) {
            Ok(p) => p,
            Err(e) => {
                return Err(e);
            },
        };
        let result_hash = content_address_of(processed_data);
        let processing_time_ms = millis_since(start);
        Ok(SegmentResult {
            segment_id: segment.id,
            worker_id: self.worker_id.clone(),
            result_hash,
            result_size: processed_data.len() as u64,
            processing_time_ms,
            proof_of_work: proof,
            timestamp: unix_time_secs(),
        })
    }
}

/// Worker health metrics.
#[derive(Debug, Clone, Copy)]
pub struct WorkerMetrics {
    pub segments_processed: u64,
    /// Milliseconds.
    pub total_processing_time: u64,
    pub failed_segments: u64,
    pub average_proof_difficulty_solved: u32,
    pub last_heartbeat: u64,
}

impl WorkerMetrics {
    pub fn new() -> (m: Self)
        ensures
            m.segments_processed == 0,
            m.total_processing_time == 0,
            m.failed_segments == 0,
            m.average_proof_difficulty_solved == 0,
            m.last_heartbeat == 0,
    {
        WorkerMetrics {
            segments_processed: 0,
            total_processing_time: 0,
            failed_segments: 0,
            average_proof_difficulty_solved: 0,
            last_heartbeat: 0,
        }
    }

    /// Records a processed segment at the system clock's time (see
    /// `record_success_at`).
    pub fn record_success(&mut self, processing_time_ms: u64, difficulty: u32)
        requires
            old(self).segments_processed < u64::MAX,
            old(self).total_processing_time + processing_time_ms <= u64::MAX,
            old(self).average_proof_difficulty_solved + difficulty <= u32::MAX,
        ensures
            exists|now: u64| final(self).recorded_success(old(self), processing_time_ms, difficulty, now),
    {
        let now = unix_time_secs();
        self.record_success_at(processing_time_ms, difficulty, now);
    }

    /// `self` is `old` after a processed segment recorded at time `now`.
    pub open spec fn recorded_success(&self, old: &Self, processing_time_ms: u64, difficulty: u32, now: u64) -> bool {
        &&& self.segments_processed == old.segments_processed + 1
        &&& self.total_processing_time == old.total_processing_time + processing_time_ms
        &&& self.average_proof_difficulty_solved == (old.average_proof_difficulty_solved + difficulty) / 2
        &&& self.failed_segments == old.failed_segments
        &&& self.last_heartbeat == now
    }

    /// Records a processed segment at time `now`: one more success, its time
    /// added, the difficulty averaged with the previous average, and the
    /// heartbeat set to `now`.
    pub fn record_success_at(&mut self, processing_time_ms: u64, difficulty: u32, now: u64)
        requires
            old(self).segments_processed < u64::MAX,
            old(self).total_processing_time + processing_time_ms <= u64::MAX,
            old(self).average_proof_difficulty_solved + difficulty <= u32::MAX,
        ensures
            final(self).recorded_success(old(self), processing_time_ms, difficulty, now),
    {
        self.segments_processed = self.segments_processed + 1;
        self.total_processing_time = self.total_processing_time + processing_time_ms;
        self.average_proof_difficulty_solved = (self.average_proof_difficulty_solved + difficulty) / 2;
        self.set_heartbeat(now);
    }

    /// Records a failed segment at the system clock's time (see
    /// `record_failure_at`).
    pub fn record_failure(&mut self)
        requires
            old(self).failed_segments < u64::MAX,
        ensures
            exists|now: u64| final(self).recorded_failure(old(self), now),
    {
        let now = unix_time_secs();
        self.record_failure_at(now);
    }

    /// `self` is `old` after a failed segment recorded at time `now`.
    pub open spec fn recorded_failure(&self, old: &Self, now: u64) -> bool {
        &&& self.failed_segments == old.failed_segments + 1
        &&& self.segments_processed == old.segments_processed
        &&& self.total_processing_time == old.total_processing_time
        &&& self.average_proof_difficulty_solved == old.average_proof_difficulty_solved
        &&& self.last_heartbeat == now
    }

    /// Records a failed segment at time `now`, and sets the heartbeat to it.
    pub fn record_failure_at(&mut self, now: u64)
        requires
            old(self).failed_segments < u64::MAX,
        ensures
            final(self).recorded_failure(old(self), now),
    {
        self.failed_segments = self.failed_segments + 1;
        self.set_heartbeat(now);
    }

    /// Sets the heartbeat to the system clock's reading, which it returns;
    /// the counters are unchanged.
    pub fn update_heartbeat(&mut self) -> (now: u64)
        ensures
            *final(self) == (WorkerMetrics { last_heartbeat: now, ..*old(self) }),
    {
        let now = unix_time_secs();
        self.set_heartbeat(now);
        now
    }

    /// Sets the heartbeat to `now`; the counters are unchanged.
    pub fn set_heartbeat(&mut self, now: u64)
        ensures
            *final(self) == (WorkerMetrics { last_heartbeat: now, ..*old(self) }),
    {
        self.last_heartbeat = now;
    }

    /// The share of successes among all processed segments, as a fraction:
    /// successes over attempts, or zero over one before any attempt.
    pub fn success_ratio(&self) -> (r: (u64, u64))
        requires
            self.segments_processed + self.failed_segments <= u64::MAX,
        ensures
            self.segments_processed + self.failed_segments == 0 ==> r == (0u64, 1u64),
            self.segments_processed + self.failed_segments > 0 ==> r == (
                self.segments_processed,
                (self.segments_processed + self.failed_segments) as u64,
            ),
    {
        let total = self.segments_processed + self.failed_segments;
        if total == 0 {
            (0, 1)
        } else {
            (self.segments_processed, total)
        }
    }
}

} // verus!
