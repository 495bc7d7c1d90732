//! Bounded FIFO admission queue with deadline pre-screening and a
//! batch-formation policy: a legal batch is always a prefix of the FIFO.

use vstd::prelude::*;
use crate::types::{GenerateRequest, InferError, Token};
use crate::entry::{Entry, EntryView, EntryMap};
use crate::response::{InferResponse, InferResponseView, Emission, EmissionView};

verus! {

/// One request as ingress hands it to the queue, before an id is assigned.
pub struct NewRequest {
    pub request: GenerateRequest,
    pub input_length: u32,
    /// True for a streaming reply channel, false for a unary one.
    pub stream: bool,
}

/// Queue configuration.
pub struct BatchingConfig {
    /// Bound of the ingress queue; admission beyond it is refused.
    pub capacity: usize,
    /// Maximum number of in-flight entries.
    pub size_limit: usize,
    /// Age of the head entry (in time units) past which it counts as
    /// waiting too long.
    pub waiting_too_long_threshold: u64,
}

/// Backend shape constraints on batch formation, as a pure policy over the
/// candidate entries plus the current in-flight entries.
pub enum BatchType {
    /// Only the batch-size limit constrains admission.
    SizeOnly,
    /// A total token budget: prompt length plus maximum new tokens, summed
    /// over in-flight and candidate entries, must stay within the limit.
    TokenBudget { weight_limit: u64 },
}

/// The token budget one entry claims.
pub open spec fn entry_weight(e: EntryView) -> int {
    e.input_length + e.request.parameters.max_new_tokens
}

/// The token budget a set of entries claims.
pub open spec fn total_weight(s: Seq<EntryView>) -> int
    decreases s.len(),
{
    if s.len() == 0 {
        0
    } else {
        total_weight(s.drop_last()) + entry_weight(s.last())
    }
}

/// Whether a combined weight satisfies the policy.
pub open spec fn weight_ok(bt: BatchType, w: int) -> bool {
    match bt {
        BatchType::SizeOnly => true,
        BatchType::TokenBudget { weight_limit } => w <= weight_limit,
    }
}

/// How many head entries of `s` can be admitted on top of `count` in-flight
/// entries of combined weight `weight`: the longest FIFO prefix each of
/// whose steps respects the size limit and the policy.
pub open spec fn sel_len(s: Seq<EntryView>, count: int, weight: int, size_limit: int,
    bt: BatchType) -> int
    decreases s.len(),
{
    if s.len() == 0 {
        0
    } else if count + 1 <= size_limit && weight_ok(bt, weight + entry_weight(s[0])) {
        1 + sel_len(s.drop_first(), count + 1, weight + entry_weight(s[0]), size_limit, bt)
    } else {
        0
    }
}

/// An entry whose deadline has already passed at `now`.
pub open spec fn expired(e: EntryView, now: u64) -> bool {
    match e.request.parameters.deadline {
        Some(d) => now > d,
        None => false,
    }
}

/// An entry as admitted to a batch at `now`.
pub open spec fn stamped(e: EntryView, now: u64) -> EntryView {
    EntryView { batch_time: Some(now), ..e }
}

/// The deadline pre-screen: expired entries are removed, each terminated
/// with a `TimeLimit` response; the rest stay in order.
pub open spec fn screen_seq(s: Seq<EntryView>, now: u64) -> (Seq<EntryView>, Seq<EmissionView>)
    decreases s.len(),
{
    if s.len() == 0 {
        (Seq::<EntryView>::empty(), Seq::<EmissionView>::empty())
    } else {
        let prefix = screen_seq(s.drop_last(), now);
        if expired(s.last(), now) {
            (prefix.0, prefix.1 + seq![EmissionView {
                request_id: s.last().id,
                response: Ok(InferResponseView::early_timeout_spec(stamped(s.last(), now), now)),
            }])
        } else {
            (prefix.0 + seq![s.last()], prefix.1)
        }
    }
}

/// A formed batch: the admitted entry ids in FIFO order, under the batch id
/// the queue assigned.
pub struct Batch {
    pub id: u64,
    pub request_ids: Vec<u64>,
}

/// The admission queue: pending entries in FIFO order, with monotone id
/// assignment and bounded capacity.
pub struct Queue {
    pub pending: Vec<Entry>,
    pub next_id: u64,
    pub batch_counter: u64,
    pub config: BatchingConfig,
    pub batch_type: BatchType,
}

impl View for Queue {
    type V = Seq<EntryView>;

    open spec fn view(&self) -> Seq<EntryView> {
        self.pending@.map_values(|e: Entry| e@)
    }
}

impl Queue {
    /// Queue invariant: pending entries are fresh (nothing generated yet),
    /// well formed, in strictly increasing id order, below the next id.
    pub open spec fn inv(self) -> bool {
        &&& forall|i: int, j: int| 0 <= i < j < self@.len() ==> self@[i].id < self@[j].id
        &&& forall|i: int| 0 <= i < self@.len() ==> (#[trigger] self@[i]).wf()
        &&& forall|i: int| 0 <= i < self@.len() ==> (#[trigger] self@[i]).generated_tokens == 0
        &&& forall|i: int| 0 <= i < self@.len() ==> (#[trigger] self@[i]).id < self.next_id
    }

    pub fn new(config: BatchingConfig, batch_type: BatchType) -> (r: Queue)
        ensures
            r.inv(),
            r@ == Seq::<EntryView>::empty(),
            r.next_id == 1,
            r.config == config,
            r.batch_type == batch_type,
    {
        let r = Queue {
            pending: Vec::new(),
            next_id: 1,
            batch_counter: 0,
            config,
            batch_type,
        };
        assert(r@ =~= Seq::<EntryView>::empty());
        r
    }

    pub fn len(&self) -> (r: usize)
        ensures
            r == self@.len(),
    {
        self.pending.len()
    }

    /// Atomic multi-insert: all entries are admitted, with fresh monotone
    /// ids and `now` as their queue time, or admission is refused with
    /// `RequestQueueFull` and nothing changes. Refusal happens exactly when
    /// the batch would overflow the queue's capacity.
    pub fn enqueue(&mut self, requests: Vec<NewRequest>, now: u64) -> (r: Result<(), InferError>)
        requires
            old(self).inv(),
            forall|i: int| 0 <= i < requests@.len()
                ==> (#[trigger] requests@[i]).request@.parameters.wf(),
            old(self).next_id + requests@.len() <= u64::MAX,
        ensures
            final(self).inv(),
            final(self).config == old(self).config,
            final(self).batch_type == old(self).batch_type,
            final(self).batch_counter == old(self).batch_counter,
            r is Err <==> old(self)@.len() + requests@.len() > old(self).config.capacity,
            r matches Err(e) ==> e@ == crate::types::InferErrorView::RequestQueueFull
                && *final(self) == *old(self),
            r is Ok ==> {
                &&& final(self)@.len() == old(self)@.len() + requests@.len()
                &&& final(self)@.take(old(self)@.len() as int) == old(self)@
                &&& forall|i: int| 0 <= i < requests@.len() ==> final(self)@[old(self)@.len() + i]
                    == (EntryView {
                        id: (old(self).next_id + i) as u64,
                        input_length: requests@[i].input_length,
                        request: requests@[i].request@,
                        queue_time: now,
                        batch_time: None,
                        generated_tokens: 0,
                        token_ids: Seq::<u32>::empty(),
                        tokens: Seq::<Token>::empty(),
                        input_tokens: Seq::<Token>::empty(),
                        output: None,
                        stream: requests@[i].stream,
                    })
                &&& final(self).next_id == old(self).next_id + requests@.len()
            },
    {
        let n: usize = requests.len();
        let cur: usize = self.pending.len();
        if cur > self.config.capacity || n > self.config.capacity - cur {
            return Err(InferError::RequestQueueFull);
        }
        let ghost old_view: Seq<EntryView> = self@;
        let ghost id0: u64 = self.next_id;
        let ghost reqs: Seq<NewRequest> = requests@;
        let mut requests = requests;
        let mut i: usize = 0;
        while i < n
            invariant
                n == reqs.len(),
                0 <= i <= n,
                id0 + n <= u64::MAX,
                requests@ == reqs.skip(i as int),
                self.next_id == id0 + i,
                self.config == old(self).config,
                self.batch_type == old(self).batch_type,
                self.batch_counter == old(self).batch_counter,
                self@.len() == old_view.len() + i,
                self@.take(old_view.len() as int) == old_view,
                forall|k: int| 0 <= k < i ==> self@[old_view.len() + k] == (EntryView {
                    id: (id0 + k) as u64,
                    input_length: reqs[k].input_length,
                    request: reqs[k].request@,
                    queue_time: now,
                    batch_time: None,
                    generated_tokens: 0,
                    token_ids: Seq::<u32>::empty(),
                    tokens: Seq::<Token>::empty(),
                    input_tokens: Seq::<Token>::empty(),
                    output: None,
                    stream: reqs[k].stream,
                }),
                forall|k: int| 0 <= k < reqs.len()
                    ==> (#[trigger] reqs[k]).request@.parameters.wf(),
                self.inv(),
            decreases n - i,
        {
            let ghost pre: Seq<EntryView> = self@;
            let nr: NewRequest = requests.remove(0);
            proof {
                assert(nr == reqs.skip(i as int)[0]);
                assert(reqs.skip(i as int)[0] == reqs[i as int]);
                assert(requests@ =~= reqs.skip(i + 1));
            }
            let id: u64 = self.next_id;
            let e: Entry = Entry::fresh(id, nr.request, nr.input_length, nr.stream, now);
            self.pending.push(e);
            self.next_id = self.next_id + 1;
            i = i + 1;
            proof {
                assert(self@ =~= pre.push(e@));
                assert(self@.take(old_view.len() as int) =~= old_view);
            }
        }
        Ok(())
    }

    /// Form the next batch, if a legal one exists: pre-screen expired
    /// entries (terminating each with `TimeLimit`), then admit the longest
    /// legal FIFO prefix into the in-flight map, stamped with `now` as its
    /// batch time. Selection never reorders: every admitted id precedes
    /// every id left pending.
    #[verifier::rlimit(60)]
    pub fn try_next_batch(&mut self, entries: &mut EntryMap, now: u64,
        emissions: &mut Vec<Emission>) -> (r: Option<Batch>)
        requires
            old(self).inv(),
            old(entries).inv(),
            old(self).batch_counter < u64::MAX,
            forall|a: int, b: int| 0 <= a < old(entries)@.len() && 0 <= b < old(self)@.len()
                ==> old(entries)@[a].id < old(self)@[b].id,
            forall|a: int| 0 <= a < old(entries)@.len()
                ==> (#[trigger] old(entries)@[a]).id < old(self).next_id,
        ensures
            final(self).inv(),
            final(entries).inv(),
            final(self).next_id == old(self).next_id,
            final(self).config == old(self).config,
            final(self).batch_type == old(self).batch_type,
            final(emissions)@.map_values(|em: Emission| em@) == old(emissions)@.map_values(
                |em: Emission| em@) + screen_seq(old(self)@, now).1,
            ({
                let scr = screen_seq(old(self)@, now).0;
                let k = sel_len(scr, old(entries)@.len() as int, total_weight(old(entries)@),
                    old(self).config.size_limit as int, old(self).batch_type);
                &&& (r is None <==> k == 0)
                &&& (r is None ==> final(self)@ == scr && final(entries)@ == old(entries)@
                    && final(self).batch_counter == old(self).batch_counter)
                &&& (r matches Some(b) ==> {
                    &&& final(self)@ == scr.skip(k)
                    &&& final(entries)@ == old(entries)@
                        + scr.take(k).map_values(|e: EntryView| stamped(e, now))
                    &&& b.request_ids@ == scr.take(k).map_values(|e: EntryView| e.id)
                    &&& b.id == old(self).batch_counter + 1
                    &&& final(self).batch_counter == old(self).batch_counter + 1
                })
            }),
            forall|a: int, b: int| 0 <= a < final(entries)@.len() && 0 <= b < final(self)@.len()
                ==> final(entries)@[a].id < final(self)@[b].id,
            forall|a: int| 0 <= a < final(entries)@.len()
                ==> (#[trigger] final(entries)@[a]).id < final(self).next_id,
    {
        let ghost old_pending: Seq<EntryView> = self@;
        let ghost old_map: Seq<EntryView> = entries@;
        let ghost old_emissions: Seq<EmissionView> = emissions@.map_values(|em: Emission| em@);
        let ghost id0: u64 = self.next_id;
        let ghost bc0: u64 = self.batch_counter;

        // Phase 1: deadline pre-screen.
        let total: usize = self.pending.len();
        let mut kept: Vec<Entry> = Vec::new();
        let mut i: usize = 0;
        while i < total
            invariant
                total == old_pending.len(),
                0 <= i <= total,
                self.next_id == id0,
                self.batch_counter == bc0,
                self.config == old(self).config,
                self.batch_type == old(self).batch_type,
                self.pending@.map_values(|e: Entry| e@) == old_pending.subrange(
                    i as int, total as int),
                kept@.map_values(|e: Entry| e@) =~= screen_seq(old_pending.take(i as int), now).0,
                emissions@.map_values(|em: Emission| em@) =~= old_emissions + screen_seq(
                    old_pending.take(i as int), now).1,
                forall|a: int, b: int| 0 <= a < b < old_pending.len()
                    ==> old_pending[a].id < old_pending[b].id,
                forall|a: int| 0 <= a < old_pending.len() ==> (#[trigger] old_pending[a]).wf(),
                forall|a: int| 0 <= a < old_pending.len()
                    ==> (#[trigger] old_pending[a]).generated_tokens == 0,
                forall|a: int| 0 <= a < old_pending.len()
                    ==> (#[trigger] old_pending[a]).id < id0,
            decreases total - i,
        {
            let ghost prev_vec: Seq<Entry> = self.pending@;
            let ghost pre_em: Seq<EmissionView> = emissions@.map_values(|em: Emission| em@);
            proof {
                assert(prev_vec.map_values(|e: Entry| e@).len() == total - i);
            }
            let mut e: Entry = self.pending.remove(0);
            let ghost e0: EntryView = e@;
            proof {
                assert(prev_vec.map_values(|e: Entry| e@)[0] == prev_vec[0]@);
                assert(old_pending.subrange(i as int, total as int)[0] == old_pending[i as int]);
                assert(e0 == old_pending[i as int]);
                assert forall|k: int| 0 <= k < total - (i + 1) implies
                    (#[trigger] self.pending@[k])@ == old_pending[i + 1 + k] by {
                    assert(self.pending@[k] == prev_vec[k + 1]);
                    assert(prev_vec.map_values(|e: Entry| e@)[k + 1] == prev_vec[k + 1]@);
                    assert(old_pending.subrange(i as int, total as int)[k + 1]
                        == old_pending[i + 1 + k]);
                }
                assert(self.pending@.map_values(|e: Entry| e@) =~= old_pending.subrange(
                    i + 1, total as int));
            }
            let is_expired: bool = match e.request.parameters.deadline {
                Some(d) => now > d,
                None => false,
            };
            if is_expired {
                e.batch_time = Some(now);
                proof {
                    assert(e@ =~~= stamped(e0, now));
                }
                let resp = InferResponse::early_timeout(&e, now);
                let em = Emission { request_id: e.id, response: Ok(resp) };
                proof {
                    assert(em@ =~~= (EmissionView {
                        request_id: e0.id,
                        response: Ok(InferResponseView::early_timeout_spec(stamped(e0, now), now)),
                    }));
                }
                emissions.push(em);
                proof {
                    assert(emissions@.map_values(|em2: Emission| em2@) =~= pre_em.push(
                        EmissionView {
                            request_id: e0.id,
                            response: Ok(InferResponseView::early_timeout_spec(stamped(e0, now),
                                now)),
                        }));
                }
            } else {
                kept.push(e);
            }
            i = i + 1;
            proof {
                assert(old_pending.take(i as int).drop_last() =~= old_pending.take(i - 1));
                assert(old_pending.take(i as int).last() == e0);
                if expired(e0, now) {
                    assert(screen_seq(old_pending.take(i as int), now).1
                        =~= screen_seq(old_pending.take(i - 1), now).1 + seq![EmissionView {
                            request_id: e0.id,
                            response: Ok(InferResponseView::early_timeout_spec(stamped(e0, now),
                                now)),
                        }]);
                } else {
                    assert(screen_seq(old_pending.take(i as int), now).1
                        =~= screen_seq(old_pending.take(i - 1), now).1);
                }
                assert(kept@.map_values(|e2: Entry| e2@) =~= screen_seq(
                    old_pending.take(i as int), now).0);
                assert(emissions@.map_values(|em: Emission| em@) =~= old_emissions + screen_seq(
                    old_pending.take(i as int), now).1);
            }
        }
        self.pending = kept;
        let ghost scr: Seq<EntryView> = screen_seq(old_pending, now).0;
        proof {
            assert(old_pending.take(total as int) =~= old_pending);
            assert(self@ =~= scr);
            lemma_screen_inv(old_pending, now, id0);
            assert forall|a: int, b: int| 0 <= a < old_map.len() && 0 <= b < scr.len() implies
                old_map[a].id < scr[b].id by {
                assert(scr.contains(scr[b]));
                assert(old_pending.contains(scr[b]));
                let x = choose|x: int| 0 <= x < old_pending.len() && old_pending[x] == scr[b];
                assert(old_map[a].id < old_pending[x].id);
            }
        }

        // Phase 2: the in-flight weight under the policy.
        let mw: u128 = entries_weight(&entries.entries);
        let ghost c0: int = old_map.len() as int;
        let ghost w0: int = total_weight(old_map);

        // Phase 3: longest admissible FIFO prefix.
        let scr_len: usize = self.pending.len();
        let map_len: usize = entries.len();
        let size_limit: usize = self.config.size_limit;
        let mut j: usize = 0;
        let mut cw: u128 = mw;
        let mut done: bool = false;
        proof {
            assert(scr.skip(0) =~= scr);
            assert(scr.take(0) =~= Seq::<EntryView>::empty());
        }
        while j < scr_len && !done
            invariant
                scr_len == scr.len(),
                map_len == c0,
                0 <= j <= scr_len,
                self@ == scr,
                self.config == old(self).config,
                self.batch_type == old(self).batch_type,
                size_limit == self.config.size_limit,
                cw == w0 + total_weight(scr.take(j as int)),
                cw <= (map_len + j) * 0x4_0000_0000u128,
                !done ==> sel_len(scr, c0, w0, size_limit as int, self.batch_type)
                    == j + sel_len(scr.skip(j as int), c0 + j, w0 + total_weight(
                        scr.take(j as int)), size_limit as int, self.batch_type),
                done ==> sel_len(scr, c0, w0, size_limit as int, self.batch_type) == j,
                forall|a: int| 0 <= a < scr.len() ==> (#[trigger] scr[a]).wf(),
            decreases scr_len - j + (if done { 0int } else { 1int }),
        {
            let e: &Entry = &self.pending[j];
            proof {
                assert(e@ == scr[j as int]);
            }
            let w: u128 = e.input_length as u128 + e.request.parameters.max_new_tokens as u128;
            let fits_size: bool = j < size_limit && map_len <= size_limit - (j + 1);
            let fits_weight: bool = match self.batch_type {
                BatchType::SizeOnly => true,
                BatchType::TokenBudget { weight_limit } => cw + w <= weight_limit as u128,
            };
            proof {
                assert(w == entry_weight(scr[j as int]));
                assert(scr.skip(j as int)[0] == scr[j as int]);
                assert(scr.skip(j as int).drop_first() =~= scr.skip(j + 1));
                assert(scr.take(j + 1).drop_last() =~= scr.take(j as int));
                assert(scr.take(j + 1).last() == scr[j as int]);
                assert(total_weight(scr.take(j + 1)) == total_weight(scr.take(j as int))
                    + entry_weight(scr[j as int]));
            }
            if fits_size && fits_weight {
                cw = cw + w;
                j = j + 1;
            } else {
                proof {
                    assert(sel_len(scr.skip(j as int), c0 + j, w0 + total_weight(
                        scr.take(j as int)), size_limit as int, self.batch_type) == 0);
                }
                done = true;
            }
        }
        let k: usize = j;
        proof {
            if !done {
                assert(scr.skip(k as int) =~= Seq::<EntryView>::empty());
            }
            assert(sel_len(scr, c0, w0, size_limit as int, self.batch_type) == k);
        }
        if k == 0 {
            return None;
        }

        // Phase 4: admit the prefix.
        let mut request_ids: Vec<u64> = Vec::new();
        let mut m: usize = 0;
        while m < k
            invariant
                0 <= m <= k,
                k <= scr.len(),
                self.next_id == id0,
                self.batch_counter == bc0,
                self.config == old(self).config,
                self.batch_type == old(self).batch_type,
                self.pending@.map_values(|e: Entry| e@) == scr.skip(m as int),
                entries@ =~= old_map + scr.take(m as int).map_values(
                    |e: EntryView| stamped(e, now)),
                request_ids@ =~= scr.take(m as int).map_values(|e: EntryView| e.id),
                entries.inv(),
                forall|a: int, b: int| 0 <= a < b < scr.len() ==> scr[a].id < scr[b].id,
                forall|a: int| 0 <= a < scr.len() ==> (#[trigger] scr[a]).wf(),
                forall|a: int| 0 <= a < scr.len() ==> (#[trigger] scr[a]).generated_tokens == 0,
                forall|a: int| 0 <= a < scr.len() ==> (#[trigger] scr[a]).id < id0,
                forall|a: int, b: int| 0 <= a < old_map.len() && 0 <= b < scr.len()
                    ==> old_map[a].id < scr[b].id,
            decreases k - m,
        {
            let ghost prev_vec: Seq<Entry> = self.pending@;
            let ghost pre_map: Seq<EntryView> = entries@;
            proof {
                assert(prev_vec.map_values(|e: Entry| e@).len() == scr.len() - m);
            }
            let mut e: Entry = self.pending.remove(0);
            let ghost e0: EntryView = e@;
            proof {
                assert(prev_vec.map_values(|e: Entry| e@)[0] == prev_vec[0]@);
                assert(scr.skip(m as int)[0] == scr[m as int]);
                assert(e0 == scr[m as int]);
                assert forall|x: int| 0 <= x < scr.len() - (m + 1) implies
                    (#[trigger] self.pending@[x])@ == scr[m + 1 + x] by {
                    assert(self.pending@[x] == prev_vec[x + 1]);
                    assert(prev_vec.map_values(|e: Entry| e@)[x + 1] == prev_vec[x + 1]@);
                    assert(scr.skip(m as int)[x + 1] == scr[m + 1 + x]);
                }
                assert(self.pending@.map_values(|e: Entry| e@) =~= scr.skip(m + 1));
            }
            request_ids.push(e.id);
            e.batch_time = Some(now);
            proof {
                assert(e@ =~~= stamped(e0, now));
                assert forall|a: int| 0 <= a < entries@.len() implies
                    (#[trigger] entries@[a]).id < e@.id by {
                    if a < old_map.len() {
                        assert(entries@[a] == old_map[a]);
                    } else {
                        let b = a - old_map.len();
                        assert(entries@[a] == stamped(scr.take(m as int)[b], now));
                        assert(scr.take(m as int)[b] == scr[b]);
                        assert(scr[b].id < scr[m as int].id);
                    }
                }
                assert(e@.wf());
                assert(e@.live());
            }
            entries.push_entry(e);
            m = m + 1;
            proof {
                assert(scr.take(m as int).drop_last() =~= scr.take(m - 1));
                assert(scr.take(m as int).last() == e0);
                assert(scr.take(m as int).map_values(|e2: EntryView| stamped(e2, now))
                    =~= scr.take(m - 1).map_values(|e2: EntryView| stamped(e2, now))
                        .push(stamped(e0, now)));
                assert(entries@ =~= old_map + scr.take(m as int).map_values(
                    |e2: EntryView| stamped(e2, now)));
                assert(scr.take(m as int).map_values(|e2: EntryView| e2.id)
                    =~= scr.take(m - 1).map_values(|e2: EntryView| e2.id).push(e0.id));
                assert(request_ids@ =~= scr.take(m as int).map_values(|e2: EntryView| e2.id));
            }
        }
        self.batch_counter = self.batch_counter + 1;
        proof {
            assert(self@ =~= scr.skip(k as int));
            assert forall|a: int, b: int| 0 <= a < entries@.len() && 0 <= b < self@.len() implies
                (#[trigger] entries@[a]).id < (#[trigger] self@[b]).id by {
                assert(self@[b] == scr[k + b]);
                if a < old_map.len() {
                    assert(entries@[a] == old_map[a]);
                } else {
                    let c = a - old_map.len();
                    assert(entries@[a] == stamped(scr.take(k as int)[c], now));
                    assert(scr.take(k as int)[c] == scr[c]);
                    assert(scr[c].id < scr[k + b].id);
                }
            }
            assert forall|a: int| 0 <= a < entries@.len() implies
                (#[trigger] entries@[a]).id < self.next_id by {
                if a < old_map.len() {
                    assert(entries@[a] == old_map[a]);
                } else {
                    let c = a - old_map.len();
                    assert(entries@[a] == stamped(scr.take(k as int)[c], now));
                    assert(scr.take(k as int)[c] == scr[c]);
                }
            }
        }
        Some(Batch { id: self.batch_counter, request_ids })
    }

    /// Whether the head entry has been waiting longer than the configured
    /// threshold at `now`.
    pub fn next_entry_waiting_too_long(&self, now: u64) -> (r: bool)
        ensures
            r == (self@.len() > 0 && now >= self@[0].queue_time
                && now - self@[0].queue_time >= self.config.waiting_too_long_threshold),
    {
        if self.pending.len() == 0 {
            return false;
        }
        let qt: u64 = self.pending[0].queue_time;
        proof {
            assert(self@[0] == self.pending@[0]@);
        }
        now >= qt && now - qt >= self.config.waiting_too_long_threshold
    }
}

/// The pre-screen keeps entries in order, well formed, fresh, and below the
/// id bound; it removes only expired ones.
pub proof fn lemma_screen_inv(s: Seq<EntryView>, now: u64, id_bound: u64)
    requires
        forall|a: int, b: int| 0 <= a < b < s.len() ==> s[a].id < s[b].id,
        forall|a: int| 0 <= a < s.len() ==> (#[trigger] s[a]).wf(),
        forall|a: int| 0 <= a < s.len() ==> (#[trigger] s[a]).generated_tokens == 0,
        forall|a: int| 0 <= a < s.len() ==> (#[trigger] s[a]).id < id_bound,
    ensures
        forall|a: int, b: int| 0 <= a < b < screen_seq(s, now).0.len()
            ==> screen_seq(s, now).0[a].id < screen_seq(s, now).0[b].id,
        forall|a: int| 0 <= a < screen_seq(s, now).0.len()
            ==> (#[trigger] screen_seq(s, now).0[a]).wf(),
        forall|a: int| 0 <= a < screen_seq(s, now).0.len()
            ==> (#[trigger] screen_seq(s, now).0[a]).generated_tokens == 0,
        forall|a: int| 0 <= a < screen_seq(s, now).0.len()
            ==> (#[trigger] screen_seq(s, now).0[a]).id < id_bound,
        forall|e: EntryView| #[trigger] screen_seq(s, now).0.contains(e) ==> s.contains(e),
    decreases s.len(),
{
    if s.len() > 0 {
        assert forall|a: int, b: int| 0 <= a < b < s.drop_last().len() implies
            s.drop_last()[a].id < s.drop_last()[b].id by {
            assert(s.drop_last()[a] == s[a]);
            assert(s.drop_last()[b] == s[b]);
        }
        assert forall|a: int| 0 <= a < s.drop_last().len() implies
            ((#[trigger] s.drop_last()[a]).wf() && s.drop_last()[a].generated_tokens == 0
                && s.drop_last()[a].id < id_bound) by {
            assert(s.drop_last()[a] == s[a]);
        }
        lemma_screen_inv(s.drop_last(), now, id_bound);
        let prefix = screen_seq(s.drop_last(), now);
        let whole = screen_seq(s, now);
        assert forall|e: EntryView| #[trigger] whole.0.contains(e) implies s.contains(e) by {
            let i = choose|i: int| 0 <= i < whole.0.len() && whole.0[i] == e;
            if i < prefix.0.len() {
                assert(prefix.0[i] == e);
                assert(prefix.0.contains(e));
                assert(s.drop_last().contains(e));
                let j = choose|j: int| 0 <= j < s.drop_last().len() && s.drop_last()[j] == e;
                assert(s[j] == e);
            } else {
                assert(e == s.last());
            }
        }
        if !expired(s.last(), now) {
            assert forall|a: int, b: int| 0 <= a < b < whole.0.len() implies
                whole.0[a].id < whole.0[b].id by {
                if b < prefix.0.len() {
                    assert(whole.0[a] == prefix.0[a]);
                    assert(whole.0[b] == prefix.0[b]);
                } else {
                    assert(whole.0[b] == s.last());
                    assert(whole.0[a] == prefix.0[a]);
                    assert(prefix.0.contains(prefix.0[a]));
                    assert(s.drop_last().contains(prefix.0[a]));
                    let x = choose|x: int| 0 <= x < s.drop_last().len()
                        && s.drop_last()[x] == prefix.0[a];
                    assert(s.drop_last()[x] == s[x]);
                    assert(s[x].id < s[s.len() - 1].id);
                }
            }
        } else {
            assert(whole.0 =~= prefix.0);
        }
    }
}

/// The combined token budget of the in-flight entries.
pub fn entries_weight(v: &Vec<Entry>) -> (r: u128)
    ensures
        r == total_weight(v@.map_values(|e: Entry| e@)),
        r <= v@.len() * 0x4_0000_0000u128,
{
    let ghost s: Seq<EntryView> = v@.map_values(|e: Entry| e@);
    let n: usize = v.len();
    let mut sum: u128 = 0;
    let mut j: usize = 0;
    while j < n
        invariant
            n == s.len(),
            n == v@.len(),
            0 <= j <= n,
            forall|a: int| 0 <= a < n ==> (#[trigger] v@[a])@ == s[a],
            sum == total_weight(s.take(j as int)),
            sum <= j * 0x4_0000_0000u128,
        decreases n - j,
    {
        let e: &Entry = &v[j];
        let w: u128 = e.input_length as u128 + e.request.parameters.max_new_tokens as u128;
        proof {
            assert(e@ == s[j as int]);
            assert(w == entry_weight(s[j as int]));
            assert(s.take(j + 1).drop_last() =~= s.take(j as int));
            assert(s.take(j + 1).last() == s[j as int]);
        }
        sum = sum + w;
        j = j + 1;
    }
    proof {
        assert(s.take(n as int) =~= s);
    }
    sum
}

/// The admissible prefix never exceeds the queue.
pub proof fn lemma_sel_len_bound(s: Seq<EntryView>, count: int, weight: int, size_limit: int,
    bt: BatchType)
    ensures
        0 <= sel_len(s, count, weight, size_limit, bt) <= s.len(),
    decreases s.len(),
{
    if s.len() > 0 {
        if count + 1 <= size_limit && weight_ok(bt, weight + entry_weight(s[0])) {
            lemma_sel_len_bound(s.drop_first(), count + 1, weight + entry_weight(s[0]),
                size_limit, bt);
        }
    }
}

/// FIFO admission: a batch is a contiguous FIFO prefix, so of any two
/// pending entries the earlier one is admitted no later than the other:
/// every admitted id precedes every id still pending.
pub proof fn lemma_fifo_admission(scr: Seq<EntryView>, k: int)
    requires
        forall|a: int, b: int| 0 <= a < b < scr.len() ==> scr[a].id < scr[b].id,
        0 <= k <= scr.len(),
    ensures
        forall|i: int, j: int| 0 <= i < k && 0 <= j < scr.skip(k).len()
            ==> scr.take(k)[i].id < scr.skip(k)[j].id,
{
    assert forall|i: int, j: int| 0 <= i < k && 0 <= j < scr.skip(k).len() implies
        scr.take(k)[i].id < scr.skip(k)[j].id by {
        assert(scr.take(k)[i] == scr[i]);
        assert(scr.skip(k)[j] == scr[k + j]);
    }
}

} // verus!
