//! The batching loop as an explicit state machine with two suspension
//! points: waiting on the queue and waiting on a backend call. The driver
//! asks for the next action, performs the backend call it names, and hands
//! the outcome back.

use vstd::prelude::*;
use crate::types::{CachedBatch, CachedBatchView, RequestsStatus, InferError};
use crate::entry::{EntryMap, EntryView};
use crate::response::{Emission, EmissionView};
use crate::processor::{TokenProcessor, StepOutcome, StepCtx, success_entries, success_emissions,
    success_completed, fail_seq, step_seq, input_seq_effect, dec_consistent, has_tok};
use crate::entry::{has_id, entry_of};
use crate::queue::{Queue, Batch, BatchingConfig, BatchType, NewRequest, screen_seq, sel_len,
    total_weight, stamped, lemma_sel_len_bound};
use crate::types::{Token, TokenDecode, InputTokens, GenerateError};

verus! {

/// Steps a batch must have been waited on before growth is even considered;
/// prevents growing on every step.
pub const GROW_WARMUP_TOKENS: u32 = 5;

/// What the driver must do next.
pub enum Action {
    /// Nothing to run: wait for ingress or queue events.
    Wait,
    /// Call `prefill` with this batch, asking the backend to prune the
    /// completed entries of `to_prune` server-side.
    CallPrefill { batch: Batch, to_prune: Vec<CachedBatch>, start_id: Option<u64> },
    /// Call `next_token` on the active batches.
    CallNextToken { batches: Vec<CachedBatch> },
}

/// Where the loop stands between calls.
#[derive(Clone, Copy)]
pub enum Phase {
    /// In-flight map empty or abandoned; waiting on the queue.
    Waiting,
    /// A prefill call is outstanding. `start_id` is set when it grows an
    /// existing batch: on failure only entries with `id >= start_id` are
    /// lost.
    AwaitPrefill { start_id: Option<u64> },
    /// A next-token call is outstanding.
    AwaitStep,
    /// A step result has been applied; the next action is due.
    Deciding,
}

/// The growth rule: a warmup has elapsed, there is room, and either the
/// waiting bound is reached, an entry completed, or the queue head is at
/// risk.
pub open spec fn spec_should_grow(entries_len: int, waiting_tokens: u32, max_batch_size: int,
    max_waiting_tokens: u32, requests_completed: bool, head_waiting_too_long: bool) -> bool {
    &&& waiting_tokens > GROW_WARMUP_TOKENS
    &&& entries_len < max_batch_size
    &&& (waiting_tokens >= max_waiting_tokens || requests_completed || head_waiting_too_long)
}

/// A batch reported completions, or did not say (treated as "some may
/// have", to allow growth).
pub open spec fn spec_some_completed(cb: CachedBatchView) -> bool {
    match cb.status {
        Some(ids) => ids.len() > 0,
        None => true,
    }
}

/// Whether `batch` reports that entries completed since the last report.
pub fn some_completed(batch: &CachedBatch) -> (r: bool)
    ensures
        r == spec_some_completed(batch@),
{
    match &batch.status {
        Some(rs) => rs.completed_ids.len() > 0,
        None => true,
    }
}

/// Whether the scheduler should try to pull more requests from the queue.
pub fn should_try_to_grow_batch(entries: &EntryMap, queue: &Queue, max_batch_size: usize,
    waiting_tokens: u32, max_waiting_tokens: u32, requests_completed: bool, now: u64) -> (r: bool)
    ensures
        r == spec_should_grow(entries@.len() as int, waiting_tokens, max_batch_size as int,
            max_waiting_tokens, requests_completed, head_waiting_too_long(*queue, now)),
{
    waiting_tokens > GROW_WARMUP_TOKENS && entries.len() < max_batch_size && (
        waiting_tokens >= max_waiting_tokens
            || requests_completed
            || queue.next_entry_waiting_too_long(now)
    )
}

/// The queue's head entry has been waiting beyond the configured threshold.
pub open spec fn head_waiting_too_long(q: Queue, now: u64) -> bool {
    q@.len() > 0 && now >= q@[0].queue_time
        && now - q@[0].queue_time >= q.config.waiting_too_long_threshold
}

/// The views of a list of cached batches.
pub open spec fn batch_views(v: Seq<CachedBatch>) -> Seq<CachedBatchView> {
    v.map_values(|b: CachedBatch| b@)
}

/// Rebuild a cached-batch list, preserving its value.
pub fn copy_cached_batches(v: &Vec<CachedBatch>) -> (r: Vec<CachedBatch>)
    ensures
        batch_views(r@) == batch_views(v@),
{
    let n: usize = v.len();
    let mut out: Vec<CachedBatch> = Vec::new();
    let mut j: usize = 0;
    while j < n
        invariant
            n == v@.len(),
            0 <= j <= n,
            out@.len() == j,
            forall|a: int| 0 <= a < j ==> (#[trigger] out@[a])@ == v@[a]@,
        decreases n - j,
    {
        let b: &CachedBatch = &v[j];
        let status: Option<RequestsStatus> = match &b.status {
            Some(rs) => {
                let mut ids: Vec<u64> = Vec::new();
                let m: usize = rs.completed_ids.len();
                let mut x: usize = 0;
                while x < m
                    invariant
                        m == rs.completed_ids@.len(),
                        0 <= x <= m,
                        ids@ == rs.completed_ids@.take(x as int),
                    decreases m - x,
                {
                    ids.push(rs.completed_ids[x]);
                    x = x + 1;
                    proof {
                        assert(ids@ =~= rs.completed_ids@.take(x as int));
                    }
                }
                proof {
                    assert(ids@ =~= rs.completed_ids@);
                }
                Some(RequestsStatus { completed_ids: ids })
            },
            None => None,
        };
        let nb = CachedBatch { batch_id: b.batch_id, status };
        proof {
            assert(nb@ =~= b@);
        }
        out.push(nb);
        j = j + 1;
    }
    proof {
        assert(batch_views(out@) =~= batch_views(v@));
    }
    out
}


/// The active batches after a growth prefill: the first batch's locally
/// tracked completions are cleared (the server has pruned them), or the
/// handle is dropped if it never reported a status; the new cached batch,
/// if any, is appended.
pub open spec fn grown_batches(old_batches: Seq<CachedBatchView>, new_cb: Option<CachedBatchView>)
    -> Seq<CachedBatchView> {
    let base = if old_batches.len() > 0 && old_batches[0].status is Some {
        old_batches.update(0, CachedBatchView {
            batch_id: old_batches[0].batch_id,
            status: Some(Seq::<u64>::empty()),
        })
    } else {
        Seq::<CachedBatchView>::empty()
    };
    match new_cb {
        Some(cb) => base.push(cb),
        None => base,
    }
}

/// The scheduler: sole owner of the queue, the in-flight map (through the
/// token processor) and the active cached batches.
pub struct Scheduler {
    pub queue: Queue,
    pub processor: TokenProcessor,
    pub batches: Vec<CachedBatch>,
    pub waiting_tokens: u32,
    pub max_waiting_tokens: u32,
    pub phase: Phase,
}

impl Scheduler {
    /// Scheduler invariant: both owned structures sound, every in-flight id
    /// below every pending id and below the next id to be assigned, and at
    /// least one active batch while a growth prefill is outstanding.
    pub open spec fn inv(self) -> bool {
        &&& self.queue.inv()
        &&& self.processor.inv()
        &&& forall|a: int, b: int| 0 <= a < self.processor.entries@.len()
            && 0 <= b < self.queue@.len()
            ==> self.processor.entries@[a].id < self.queue@[b].id
        &&& forall|a: int| 0 <= a < self.processor.entries@.len()
            ==> (#[trigger] self.processor.entries@[a]).id < self.queue.next_id
        &&& (self.phase matches Phase::AwaitPrefill { start_id: Some(_) }
            ==> self.batches@.len() >= 1)
    }

    pub fn new(config: BatchingConfig, batch_type: BatchType, max_waiting_tokens: u32,
        eos_token_id: u32, seq2seq: bool) -> (r: Scheduler)
        ensures
            r.inv(),
            r.queue@ == Seq::<EntryView>::empty(),
            r.processor.entries@ == Seq::<EntryView>::empty(),
            r.phase is Waiting,
            r.queue.config == config,
            r.queue.batch_type == batch_type,
            r.max_waiting_tokens == max_waiting_tokens,
            r.processor.eos_token_id == eos_token_id,
            r.processor.seq2seq == seq2seq,
    {
        Scheduler {
            queue: Queue::new(config, batch_type),
            processor: TokenProcessor::new(eos_token_id, seq2seq),
            batches: Vec::new(),
            waiting_tokens: 0,
            max_waiting_tokens,
            phase: Phase::Waiting,
        }
    }

    /// Admit new requests, all or none; `RequestQueueFull` exactly when the
    /// queue cannot hold them.
    pub fn enqueue(&mut self, requests: Vec<NewRequest>, now: u64) -> (r: Result<(), InferError>)
        requires
            old(self).inv(),
            forall|i: int| 0 <= i < requests@.len()
                ==> (#[trigger] requests@[i]).request@.parameters.wf(),
            old(self).queue.next_id + requests@.len() <= u64::MAX,
        ensures
            final(self).inv(),
            final(self).processor == old(self).processor,
            final(self).phase == old(self).phase,
            final(self).batches == old(self).batches,
            final(self).waiting_tokens == old(self).waiting_tokens,
            r is Err <==> old(self).queue@.len() + requests@.len()
                > old(self).queue.config.capacity,
            r matches Err(e) ==> e@ == crate::types::InferErrorView::RequestQueueFull
                && final(self).queue == old(self).queue,
            r is Ok ==> {
                &&& final(self).queue@.len() == old(self).queue@.len() + requests@.len()
                &&& final(self).queue@.take(old(self).queue@.len() as int) == old(self).queue@
            },
    {
        let r = self.queue.enqueue(requests, now);
        proof {
            if r is Ok {
                assert forall|a: int, b: int| 0 <= a < self.processor.entries@.len()
                    && 0 <= b < self.queue@.len() implies
                    self.processor.entries@[a].id < self.queue@[b].id by {
                    if b < old(self).queue@.len() {
                        assert(self.queue@.take(old(self).queue@.len() as int)[b]
                            == self.queue@[b]);
                    } else {
                        let i2 = b - old(self).queue@.len();
                        assert(0 <= i2 < requests@.len());
                        let req_i = requests@[i2];
                        let entry_i = self.queue@[old(self).queue@.len() + i2];
                        assert(self.queue@[old(self).queue@.len() + i2].id
                            == (old(self).queue.next_id + i2) as u64);
                        assert(self.queue@[b].id >= old(self).queue.next_id);
                    }
                }
            }
        }
        r
    }

    /// The length of the FIFO prefix a batch formed at `now` would admit.
    pub open spec fn admissible_len(self, now: u64) -> int {
        sel_len(screen_seq(self.queue@, now).0, self.processor.entries@.len() as int,
            total_weight(self.processor.entries@), self.queue.config.size_limit as int,
            self.queue.batch_type)
    }

    /// Whether the loop would try to grow the current batch at `now`.
    pub open spec fn wants_growth(self, now: u64) -> bool {
        self.batches@.len() > 0 && spec_should_grow(self.processor.entries@.len() as int,
            self.waiting_tokens, self.queue.config.size_limit as int, self.max_waiting_tokens,
            spec_some_completed(batch_views(self.batches@)[0]),
            head_waiting_too_long(self.queue, now))
    }

    /// The queue and in-flight map after a batch is formed at `now` (the
    /// deadline pre-screen always runs; admission moves the prefix).
    pub open spec fn formed_queue(self, now: u64) -> Seq<EntryView> {
        let scr = screen_seq(self.queue@, now).0;
        if self.admissible_len(now) == 0 {
            scr
        } else {
            scr.skip(self.admissible_len(now))
        }
    }

    pub open spec fn formed_entries(self, now: u64) -> Seq<EntryView> {
        let scr = screen_seq(self.queue@, now).0;
        if self.admissible_len(now) == 0 {
            self.processor.entries@
        } else {
            self.processor.entries@ + scr.take(self.admissible_len(now)).map_values(
                |e: EntryView| stamped(e, now))
        }
    }

    /// Decide the next step: from the queue-wait, form and prefill an
    /// initial batch when one is admissible; from a step boundary, grow the
    /// batch if the growth rule says so, else step the active batches.
    pub fn next_action(&mut self, now: u64, emissions: &mut Vec<Emission>) -> (r: Action)
        requires
            old(self).inv(),
            old(self).phase is Waiting || old(self).phase is Deciding,
            old(self).queue.batch_counter < u64::MAX,
        ensures
            final(self).inv(),
            final(self).processor.eos_token_id == old(self).processor.eos_token_id,
            final(self).processor.seq2seq == old(self).processor.seq2seq,
            final(self).max_waiting_tokens == old(self).max_waiting_tokens,
            final(self).waiting_tokens == old(self).waiting_tokens,
            final(self).batches == old(self).batches,
            final(self).queue.next_id == old(self).queue.next_id,
            final(self).queue.config == old(self).queue.config,
            final(self).queue.batch_type == old(self).queue.batch_type,
            old(self).phase is Waiting ==> {
                let scr = screen_seq(old(self).queue@, now).0;
                let k = old(self).admissible_len(now);
                &&& final(self).queue@ == old(self).formed_queue(now)
                &&& final(self).processor.entries@ == old(self).formed_entries(now)
                &&& final(emissions)@.map_values(|em: Emission| em@) == old(emissions)@.map_values(
                    |em: Emission| em@) + screen_seq(old(self).queue@, now).1
                &&& (k == 0 ==> r is Wait && final(self).phase is Waiting)
                &&& (k > 0 ==> (r matches Action::CallPrefill { batch, to_prune, start_id } && ({
                    &&& batch.request_ids@ == scr.take(k).map_values(|e: EntryView| e.id)
                    &&& batch.id == old(self).queue.batch_counter + 1
                    &&& to_prune@.len() == 0
                    &&& start_id is None
                    &&& final(self).phase matches Phase::AwaitPrefill { start_id: None }
                })))
            },
            old(self).phase is Deciding && !old(self).wants_growth(now) ==> {
                &&& final(self).queue == old(self).queue
                &&& final(self).processor == old(self).processor
                &&& final(emissions)@ == old(emissions)@
                &&& r matches Action::CallNextToken { batches }
                    && batch_views(batches@) == batch_views(old(self).batches@)
                &&& final(self).phase is AwaitStep
            },
            old(self).phase is Deciding && old(self).wants_growth(now) ==> {
                let scr = screen_seq(old(self).queue@, now).0;
                let k = old(self).admissible_len(now);
                &&& final(self).queue@ == old(self).formed_queue(now)
                &&& final(self).processor.entries@ == old(self).formed_entries(now)
                &&& final(emissions)@.map_values(|em: Emission| em@) == old(emissions)@.map_values(
                    |em: Emission| em@) + screen_seq(old(self).queue@, now).1
                &&& (k == 0 ==> (r matches Action::CallNextToken { batches }
                    && batch_views(batches@) == batch_views(old(self).batches@)
                    && final(self).phase is AwaitStep))
                &&& (k > 0 ==> (r matches Action::CallPrefill { batch, to_prune, start_id } && ({
                    &&& batch.request_ids@ == scr.take(k).map_values(|e: EntryView| e.id)
                    &&& batch.id == old(self).queue.batch_counter + 1
                    &&& start_id matches Some(sid) && sid == scr.take(k)[0].id
                    &&& final(self).phase == (Phase::AwaitPrefill {
                        start_id: Some(scr.take(k)[0].id),
                    })
                    &&& batch_views(to_prune@) == (if batch_views(old(self).batches@)[0].status
                        matches Some(c) && c.len() == 0 {
                        Seq::<CachedBatchView>::empty()
                    } else {
                        batch_views(old(self).batches@)
                    })
                })))
            },
    {
        let is_waiting: bool = match self.phase {
            Phase::Waiting => true,
            _ => false,
        };
        if is_waiting {
            match self.queue.try_next_batch(&mut self.processor.entries, now, emissions) {
                Some(batch) => {
                    self.phase = Phase::AwaitPrefill { start_id: None };
                    Action::CallPrefill { batch, to_prune: Vec::new(), start_id: None }
                },
                None => Action::Wait,
            }
        } else {
            let mut grow: bool = false;
            if self.batches.len() > 0 {
                let sc: bool = some_completed(&self.batches[0]);
                proof {
                    assert(self.batches@[0]@ == batch_views(self.batches@)[0]);
                }
                grow = should_try_to_grow_batch(&self.processor.entries, &self.queue,
                    self.queue.config.size_limit, self.waiting_tokens, self.max_waiting_tokens,
                    sc, now);
            }
            if grow {
                match self.queue.try_next_batch(&mut self.processor.entries, now, emissions) {
                    Some(new_batch) => {
                        proof {
                            let scr = screen_seq(old(self).queue@, now).0;
                            let k = old(self).admissible_len(now);
                            lemma_sel_len_bound(scr, old(self).processor.entries@.len() as int,
                                total_weight(old(self).processor.entries@),
                                old(self).queue.config.size_limit as int,
                                old(self).queue.batch_type);
                            assert(new_batch.request_ids@
                                == scr.take(k).map_values(|e: EntryView| e.id));
                            assert(new_batch.request_ids@.len() == k);
                            assert(new_batch.request_ids@[0] == scr.take(k)[0].id);
                        }
                        let first_new_id: u64 = new_batch.request_ids[0];
                        let prune_nothing: bool = match &self.batches[0].status {
                            Some(rs) => rs.completed_ids.len() == 0,
                            None => false,
                        };
                        let to_prune: Vec<CachedBatch> = if prune_nothing {
                            Vec::new()
                        } else {
                            copy_cached_batches(&self.batches)
                        };
                        proof {
                            assert(self.batches@[0]@ == batch_views(self.batches@)[0]);
                            if prune_nothing {
                                assert(batch_views(to_prune@)
                                    =~= Seq::<CachedBatchView>::empty());
                            }
                        }
                        self.phase = Phase::AwaitPrefill { start_id: Some(first_new_id) };
                        Action::CallPrefill {
                            batch: new_batch,
                            to_prune,
                            start_id: Some(first_new_id),
                        }
                    },
                    None => {
                        self.phase = Phase::AwaitStep;
                        Action::CallNextToken { batches: copy_cached_batches(&self.batches) }
                    },
                }
            } else {
                self.phase = Phase::AwaitStep;
                Action::CallNextToken { batches: copy_cached_batches(&self.batches) }
            }
        }
    }

    /// Apply the outcome of the backend call the last action asked for:
    /// process the response, update the active batches, the waiting
    /// counter and the phase. On a lost call the covered entries have been
    /// terminated; after an ordinary (non-growth) loss the in-flight map is
    /// empty.
    #[verifier::rlimit(100)]
    pub fn apply_result(&mut self, outcome: &StepOutcome, now: u64, closed: &Vec<u64>,
        emissions: &mut Vec<Emission>)
        requires
            old(self).inv(),
            old(self).phase is AwaitPrefill || old(self).phase is AwaitStep,
            outcome matches StepOutcome::Success { tokens, decs, input_tokens, errors,
                next_batch_id } ==> {
                let ins = input_tokens@.map_values(|it: InputTokens| it@);
                let dvs = decs@.map_values(|d: TokenDecode| d@);
                let m = old(self).processor.entries@;
                &&& decs@.len() == tokens@.len()
                &&& (forall|i: int, j: int| 0 <= i < j < ins.len()
                    ==> ins[i].request_id != ins[j].request_id)
                &&& (forall|i: int| 0 <= i < ins.len()
                    ==> has_id(m, #[trigger] ins[i].request_id))
                &&& (forall|i: int| 0 <= i < ins.len() ==> entry_of(m,
                    #[trigger] ins[i].request_id).generated_tokens == 0)
                &&& (forall|i: int| 0 <= i < ins.len()
                    ==> (#[trigger] ins[i]).tokens.len() <= u32::MAX)
                &&& (forall|i: int, j: int| 0 <= i < j < tokens@.len()
                    ==> tokens@[i].request_id != tokens@[j].request_id)
                &&& (forall|i: int| 0 <= i < tokens@.len()
                    ==> has_id(m, #[trigger] tokens@[i].request_id))
                &&& (forall|i: int| 0 <= i < tokens@.len() ==> dec_consistent(entry_of(m,
                    #[trigger] tokens@[i].request_id), dvs[i]))
                &&& (forall|i: int, j: int| 0 <= i < j < errors@.len()
                    ==> errors@[i].request_id != errors@[j].request_id)
                &&& (forall|i: int| 0 <= i < errors@.len()
                    ==> has_id(m, #[trigger] errors@[i].request_id))
                &&& (forall|i: int| 0 <= i < errors@.len()
                    ==> !has_tok(tokens@, #[trigger] errors@[i].request_id))
            },
        ensures
            final(self).inv(),
            final(self).queue == old(self).queue,
            final(self).max_waiting_tokens == old(self).max_waiting_tokens,
            final(self).processor.eos_token_id == old(self).processor.eos_token_id,
            final(self).processor.seq2seq == old(self).processor.seq2seq,
            // the waiting counter: reset by any prefill, advanced by a step
            final(self).waiting_tokens == (if old(self).phase is AwaitPrefill {
                1u32
            } else if old(self).waiting_tokens < u32::MAX {
                (old(self).waiting_tokens + 1) as u32
            } else {
                u32::MAX
            }),
            // what happened to the in-flight map and the emitted events
            outcome matches StepOutcome::Success { tokens, decs, input_tokens, errors,
                next_batch_id } ==> {
                let ins = input_tokens@.map_values(|it: InputTokens| it@);
                let ctx = old(self).processor.step_ctx(tokens@,
                    decs@.map_values(|d: TokenDecode| d@),
                    errors@.map_values(|g: GenerateError| g@), now, closed@);
                &&& final(self).processor.entries@ == success_entries(
                    old(self).processor.entries@, ins, ctx)
                &&& final(emissions)@.map_values(|em: Emission| em@)
                    == old(emissions)@.map_values(|em: Emission| em@)
                        + success_emissions(old(self).processor.entries@, ins, ctx)
                &&& final(self).processor.generation_healthy
                &&& final(self).phase is Deciding
            },
            outcome is Exhausted ==> {
                &&& final(self).processor.entries@ == old(self).processor.entries@
                &&& final(emissions)@ == old(emissions)@
                &&& final(self).processor.generation_healthy
                    == old(self).processor.generation_healthy
            },
            outcome matches StepOutcome::Failure(err) ==> {
                let sid = (match old(self).phase {
                    Phase::AwaitPrefill { start_id } => start_id,
                    _ => None,
                });
                &&& final(self).processor.entries@ == fail_seq(old(self).processor.entries@,
                    sid, err@).0
                &&& final(emissions)@.map_values(|em: Emission| em@)
                    == old(emissions)@.map_values(|em: Emission| em@)
                        + fail_seq(old(self).processor.entries@, sid, err@).1
                &&& !final(self).processor.generation_healthy
                &&& (sid is None ==> final(self).processor.entries@
                    == Seq::<EntryView>::empty())
            },
            // phase and batches
            (outcome is Exhausted || outcome is Failure) ==> {
                if old(self).phase matches Phase::AwaitPrefill { start_id: Some(_) } {
                    final(self).phase is Deciding
                        && batch_views(final(self).batches@) == grown_batches(batch_views(
                            old(self).batches@), None)
                } else {
                    final(self).phase is Waiting && final(self).batches@.len() == 0
                }
            },
            outcome matches StepOutcome::Success { tokens, decs, input_tokens, errors,
                next_batch_id } ==> ({
                let ins = input_tokens@.map_values(|it: InputTokens| it@);
                let ctx = old(self).processor.step_ctx(tokens@,
                    decs@.map_values(|d: TokenDecode| d@),
                    errors@.map_values(|g: GenerateError| g@), now, closed@);
                let done = success_completed(old(self).processor.entries@, ins, ctx);
                let cb = (CachedBatchView {
                    batch_id: *next_batch_id,
                    status: if done.len() == tokens@.len() {
                        None
                    } else {
                        Some(done)
                    },
                });
                if old(self).phase matches Phase::AwaitPrefill { start_id: Some(_) } {
                    batch_views(final(self).batches@) == grown_batches(batch_views(
                        old(self).batches@), Some(cb))
                } else {
                    batch_views(final(self).batches@) == seq![cb]
                }
            }),
    {
        let start_id: Option<u64> = match self.phase {
            Phase::AwaitPrefill { start_id } => start_id,
            _ => None,
        };
        let is_grow: bool = match start_id {
            Some(_) => true,
            None => false,
        };
        let is_prefill: bool = match self.phase {
            Phase::AwaitPrefill { .. } => true,
            _ => false,
        };
        let cb: Option<CachedBatch> = self.processor.process_step_result(outcome, start_id, now,
            closed, emissions);
        proof {
            let old_map = old(self).processor.entries@;
            let new_map = self.processor.entries@;
            match outcome {
                StepOutcome::Failure(e2) => {
                    if start_id is None {
                        lemma_fail_seq_none(old_map, e2@);
                    }
                    crate::processor::lemma_fail_seq_inv(old_map, start_id, e2@);
                },
                StepOutcome::Success { tokens, decs, input_tokens, errors, next_batch_id } => {
                    let ins = input_tokens@.map_values(|it: InputTokens| it@);
                    let ctx = old(self).processor.step_ctx(tokens@,
                        decs@.map_values(|d: TokenDecode| d@),
                        errors@.map_values(|g: GenerateError| g@), now, closed@);
                    let mid = input_seq_effect(old_map, ins).0;
                    crate::processor::lemma_input_seq_effect_inv(old_map, ins);
                    assert forall|a: int, b: int| 0 <= a < b < mid.len() implies
                        mid[a].id < mid[b].id by {
                        assert(mid[a].id == old_map[a].id);
                        assert(mid[b].id == old_map[b].id);
                    }
                    crate::processor::lemma_step_seq_inv(mid, ctx);
                },
                StepOutcome::Exhausted => {},
            }
            assert forall|a: int| 0 <= a < new_map.len() implies
                exists|j: int| 0 <= j < old_map.len()
                    && (#[trigger] new_map[a]).id == old_map[j].id by {
                match outcome {
                    StepOutcome::Failure(e2) => {
                        assert(new_map.contains(new_map[a]));
                        assert(old_map.contains(new_map[a]));
                        let j = choose|j: int| 0 <= j < old_map.len()
                            && old_map[j] == new_map[a];
                        assert(new_map[a].id == old_map[j].id);
                    },
                    StepOutcome::Success { tokens, decs, input_tokens, errors,
                        next_batch_id } => {
                        let ins = input_tokens@.map_values(|it: InputTokens| it@);
                        let ctx = old(self).processor.step_ctx(tokens@,
                            decs@.map_values(|d: TokenDecode| d@),
                            errors@.map_values(|g: GenerateError| g@), now, closed@);
                        let mid = input_seq_effect(old_map, ins).0;
                        let j = choose|j: int| 0 <= j < mid.len()
                            && new_map[a].id == mid[j].id;
                        assert(mid[j].id == old_map[j].id);
                        assert(new_map[a].id == old_map[j].id);
                    },
                    StepOutcome::Exhausted => {
                        assert(new_map[a].id == old_map[a].id);
                    },
                }
            }
            assert forall|a: int, b: int| 0 <= a < new_map.len() && 0 <= b < self.queue@.len()
                implies new_map[a].id < self.queue@[b].id by {
                let j = choose|j: int| 0 <= j < old_map.len() && new_map[a].id == old_map[j].id;
                assert(old_map[j].id < self.queue@[b].id);
            }
            assert forall|a: int| 0 <= a < new_map.len() implies
                (#[trigger] new_map[a]).id < self.queue.next_id by {
                let j = choose|j: int| 0 <= j < old_map.len() && new_map[a].id == old_map[j].id;
                assert(old_map[j].id < self.queue.next_id);
            }
        }
        if is_prefill {
            self.waiting_tokens = 1;
        } else if self.waiting_tokens < u32::MAX {
            self.waiting_tokens = self.waiting_tokens + 1;
        }
        if is_grow {
            // Growth prefill: the server has synchronized with our pruning
            // view, so clear the completions we tracked locally, or drop
            // the batch handle if it never reported any status.
            let clear_ids: bool = match &self.batches[0].status {
                Some(_) => true,
                None => false,
            };
            if clear_ids {
                let mut b0: CachedBatch = self.batches.remove(0);
                match &mut b0.status {
                    Some(rs) => {
                        rs.completed_ids.clear();
                    },
                    None => {},
                }
                self.batches.insert(0, b0);
            } else {
                self.batches.clear();
            }
            match cb {
                Some(b) => {
                    self.batches.push(b);
                },
                None => {},
            }
            self.phase = Phase::Deciding;
        } else {
            match cb {
                Some(b) => {
                    let mut v: Vec<CachedBatch> = Vec::new();
                    v.push(b);
                    self.batches = v;
                    self.phase = Phase::Deciding;
                },
                None => {
                    self.batches = Vec::new();
                    self.phase = Phase::Waiting;
                },
            }
        }
    }
}

/// A failed ordinary call (no `start_id`) retains nothing: the in-flight
/// map empties, so the loop returns to the queue-wait with no leaked entry.
pub proof fn lemma_fail_seq_none(s: Seq<EntryView>, err: crate::types::ClientErrorView)
    ensures
        fail_seq(s, None, err).0 == Seq::<EntryView>::empty(),
        fail_seq(s, None, err).1.len() == s.len(),
    decreases s.len(),
{
    if s.len() > 0 {
        lemma_fail_seq_none(s.drop_last(), err);
        assert(fail_seq(s, None, err).0 =~= Seq::<EntryView>::empty());
    }
}

} // verus!
