//! Aggregation of segment results into the final rendered output.

use crate::assoc_map::AssocMap;
use crate::hashing::{content_address, content_address_of};
use crate::types::TaskId;
use vstd::prelude::*;

verus! {

/// Size in bytes of the stand-in output that aggregation produces.
pub const AGGREGATE_SIZE: usize = 10_000_000;

/// The byte that fills the stand-in output.
pub const AGGREGATE_BYTE: u8 = 42;

/// The stand-in output of an aggregation.
pub open spec fn aggregate_output() -> Seq<u8> {
    Seq::new(AGGREGATE_SIZE as nat, |i: int| AGGREGATE_BYTE)
}

/// Aggregates segment results into the final rendered output.
pub struct ResultAggregator {
    aggregation_cache: AssocMap<TaskId, Vec<u8>>,
}

impl ResultAggregator {
    /// The aggregated output of each task, by task identifier.
    pub closed spec fn cache(&self) -> AssocMap<TaskId, Vec<u8>> {
        self.aggregation_cache
    }

    pub open spec fn wf(&self) -> bool {
        self.cache().wf()
    }

    pub fn new() -> (r: Self)
        ensures
            r.wf(),
            r.cache()@ == Map::<u64, Vec<u8>>::empty(),
    {
        ResultAggregator { aggregation_cache: AssocMap::new() }
    }

    /// Produces the output of the task, caches it under the task, and
    /// returns its content address.
    pub fn aggregate(&mut self, task_id: TaskId) -> (r: Result<String, String>)
        requires
            old(self).wf(),
        ensures
            final(self).wf(),
            r is Ok,
            r matches Ok(h) ==> h@ == content_address(aggregate_output()),
            final(self).cache()@.dom() == old(self).cache()@.dom().insert(task_id.0),
            final(self).cache()@[task_id.0]@ == aggregate_output(),
            forall|t: u64|
                t != task_id.0 && #[trigger] old(self).cache()@.contains_key(t) ==> final(self).cache()@[t]
                    == old(self).cache()@[t],
    {
        let final_data = vec![AGGREGATE_BYTE; AGGREGATE_SIZE];
        assert(final_data@ =~= aggregate_output());
        let cached = final_data.clone();
        assert(cached@ =~= final_data@);
        self.aggregation_cache.insert(task_id, cached);
        let hash = content_address_of(final_data.as_slice());
        Ok(hash)
    }
}

} // verus!
