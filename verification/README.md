# freenet_lottery

A distributed rendering lottery. A coordinator splits each rendering task
into segments; workers render the segments and attach a proof of work; every
completed segment is an entry in the task's lottery, drawn when the task is
complete, and the winner is credited with the task's reward. Coordinators
keep a replicated lottery state that they merge with each other.

Layout:

- `src/` — the library, verified with Verus: the shared records
  (`types`), a map kept in insertion order (`assoc_map`), hashing
  (`hashing`), the mergeable state (`lottery_state`), task and segment
  bookkeeping (`task_manager`), the worker registry (`worker_registry`),
  aggregation (`result_aggregator`), the lottery draw (`lottery_engine`), the
  coordinator's replica (`freenet_scaffold`), the coordinator's decisions
  (`coordinator`), proofs of work (`proof_of_work`), the worker's processing
  (`segment_processor`, `worker_node`), and properties of the whole
  (`laws`).
- `tests/` — tests of the library.
- `app/` — the coordinator and worker programs: async loops, network
  messages, logging, serializable copies of the records, and the
  floating-point arithmetic on scores.

Notes on choices:

- Keyed tables are `AssocMap`s (a vector of pairs without repeated keys)
  rather than `HashMap`s: vstd's `HashMap` specification only describes the
  map when the key type obeys its key model, which could not be established
  for the `String` and struct keys used here, so its contracts gave no usable
  view of the tables. With `AssocMap` every table has a proved view, and the
  order of its pairs is known where results depend on it.
- The proof-of-work search reads the clock after each batch of
  `POW_BATCH` nonces rather than after each nonce; the first batch is always
  searched in full, and the decision to give up (`pow_gives_up`) is taken
  only when the nonces are exhausted or the time limit has passed.
- Participant records merge last-write-wins on their `last_updated` stamps;
  a draw credits the winner with the task's reward and every other
  participant with a participation reward (`PARTICIPATION_CREDITS` plus
  `CREDITS_PER_SEGMENT` per entry, capped at the largest balance) and the
  raised trust score the caller computes; pending segments are handed out
  one per available worker.
