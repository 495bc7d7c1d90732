//! Per-request in-flight state and the map that owns it.

use vstd::prelude::*;
use crate::types::{GenerateRequest, GenerateRequestView, Token};

verus! {

/// One request's server-side state for its lifetime.
///
/// The reply channel of the original design is represented by the `stream`
/// tag: a streaming entry receives an event per step, a unary entry a single
/// terminal response. Delivery itself happens outside the core; the core
/// returns the events it emits.
pub struct Entry {
    /// Unique, monotonically assigned; used as the batching key.
    pub id: u64,
    /// Token count of the prompt.
    pub input_length: u32,
    /// The request: prompt bytes plus immutable parameters.
    pub request: GenerateRequest,
    /// When the entry was enqueued.
    pub queue_time: u64,
    /// When the entry was admitted to a batch, once it has been.
    pub batch_time: Option<u64>,
    /// Number of tokens generated so far.
    pub generated_tokens: u32,
    /// Generated token ids, kept only for unary deferred detokenization.
    pub token_ids: Vec<u32>,
    /// Generated token metadata, kept only if the request asked for it.
    pub tokens: Vec<Token>,
    /// Prompt tokens, stashed from the first backend response (unary only).
    pub input_tokens: Vec<Token>,
    /// Accumulated incrementally decoded output; present exactly while stop
    /// sequences require decoding in the batching loop.
    pub output: Option<Vec<u8>>,
    /// True for a streaming reply channel, false for a unary one.
    pub stream: bool,
}

impl View for Entry {
    type V = EntryView;

    open spec fn view(&self) -> EntryView {
        EntryView {
            id: self.id,
            input_length: self.input_length,
            request: self.request@,
            queue_time: self.queue_time,
            batch_time: self.batch_time,
            generated_tokens: self.generated_tokens,
            token_ids: self.token_ids@,
            tokens: self.tokens@,
            input_tokens: self.input_tokens@,
            output: match self.output {
                Some(ref o) => Some(o@),
                None => None,
            },
            stream: self.stream,
        }
    }
}

#[verifier::ext_equal]
pub ghost struct EntryView {
    pub id: u64,
    pub input_length: u32,
    pub request: GenerateRequestView,
    pub queue_time: u64,
    pub batch_time: Option<u64>,
    pub generated_tokens: u32,
    pub token_ids: Seq<u32>,
    pub tokens: Seq<Token>,
    pub input_tokens: Seq<Token>,
    pub output: Option<Seq<u8>>,
    pub stream: bool,
}

impl EntryView {
    /// Structurally sound entry: well-formed parameters, and the decoded
    /// accumulator present exactly when stop sequences require decoding
    /// and generation has begun.
    pub open spec fn wf(self) -> bool {
        &&& self.request.parameters.wf()
        &&& ((self.output is Some) <==> (self.request.parameters.stop_seqs.len() > 0
            && self.generated_tokens > 0))
    }

    /// An entry still eligible to generate: its counter is strictly below
    /// the limit that would have terminated it.
    pub open spec fn live(self) -> bool {
        self.generated_tokens < self.request.parameters.max_new_tokens
    }
}

impl Entry {
    /// A fresh entry as ingress hands it to the queue.
    pub fn fresh(id: u64, request: GenerateRequest, input_length: u32, stream: bool,
        queue_time: u64) -> (r: Entry)
        ensures
            r@ == (EntryView {
                id,
                input_length,
                request: request@,
                queue_time,
                batch_time: None,
                generated_tokens: 0,
                token_ids: Seq::<u32>::empty(),
                tokens: Seq::<Token>::empty(),
                input_tokens: Seq::<Token>::empty(),
                output: None,
                stream,
            }),
    {
        let r = Entry {
            id,
            input_length,
            request,
            queue_time,
            batch_time: None,
            generated_tokens: 0,
            token_ids: Vec::new(),
            tokens: Vec::new(),
            input_tokens: Vec::new(),
            output: None,
            stream,
        };
        assert(r@ =~= (EntryView {
            id,
            input_length,
            request: r.request@,
            queue_time,
            batch_time: None,
            generated_tokens: 0,
            token_ids: Seq::<u32>::empty(),
            tokens: Seq::<Token>::empty(),
            input_tokens: Seq::<Token>::empty(),
            output: None,
            stream,
        }));
        r
    }
}

/// The ids of the entries of `s`, in order.
pub open spec fn ids_of(s: Seq<EntryView>) -> Seq<u64> {
    s.map_values(|e: EntryView| e.id)
}

/// Some entry of `s` carries `id`.
pub open spec fn has_id(s: Seq<EntryView>, id: u64) -> bool {
    exists|i: int| 0 <= i < s.len() && s[i].id == id
}

/// The index of the entry of `s` carrying `id`.
pub open spec fn idx_of(s: Seq<EntryView>, id: u64) -> int {
    choose|i: int| 0 <= i < s.len() && s[i].id == id
}

/// The entry of `s` carrying `id`.
pub open spec fn entry_of(s: Seq<EntryView>, id: u64) -> EntryView {
    s[idx_of(s, id)]
}

/// The in-flight map: the live entries, in strictly increasing id order.
/// Ids are assigned monotonically at admission, so FIFO insertion keeps
/// the order and makes every id unique.
pub struct EntryMap {
    pub entries: Vec<Entry>,
}

impl View for EntryMap {
    type V = Seq<EntryView>;

    open spec fn view(&self) -> Seq<EntryView> {
        self.entries@.map_values(|e: Entry| e@)
    }
}

impl EntryMap {
    /// Invariant of the in-flight map: ids strictly increase, every entry is
    /// well formed, still live, and stamped with its batch admission time.
    pub open spec fn inv(self) -> bool {
        &&& forall|i: int, j: int| 0 <= i < j < self@.len() ==> self@[i].id < self@[j].id
        &&& forall|i: int| 0 <= i < self@.len() ==> (#[trigger] self@[i]).wf()
        &&& forall|i: int| 0 <= i < self@.len() ==> (#[trigger] self@[i]).live()
        &&& forall|i: int| 0 <= i < self@.len() ==> (#[trigger] self@[i]).batch_time is Some
    }

    pub fn new() -> (r: EntryMap)
        ensures
            r@ == Seq::<EntryView>::empty(),
            r.inv(),
    {
        let r = EntryMap { entries: Vec::new() };
        assert(r@ =~= Seq::<EntryView>::empty());
        r
    }

    pub fn len(&self) -> (r: usize)
        ensures
            r == self@.len(),
    {
        self.entries.len()
    }

    /// Append an entry whose id exceeds every id in the map.
    pub fn push_entry(&mut self, e: Entry)
        requires
            old(self).inv(),
            forall|i: int| 0 <= i < old(self)@.len() ==> (#[trigger] old(self)@[i]).id < e@.id,
            e@.wf(),
            e@.live(),
            e@.batch_time is Some,
        ensures
            final(self)@ == old(self)@.push(e@),
            final(self).inv(),
    {
        self.entries.push(e);
        assert(self@ =~= old(self)@.push(e@));
    }

    /// The ids of the in-flight entries, in map order.
    pub fn ids(&self) -> (r: Vec<u64>)
        ensures
            r@ == ids_of(self@),
    {
        let n: usize = self.entries.len();
        let mut out: Vec<u64> = Vec::new();
        let mut j: usize = 0;
        while j < n
            invariant
                n == self.entries@.len(),
                0 <= j <= n,
                out@.len() == j,
                forall|k: int| 0 <= k < j ==> out@[k] == (#[trigger] self.entries@[k])@.id,
            decreases n - j,
        {
            out.push(self.entries[j].id);
            j = j + 1;
        }
        proof {
            assert(out@ =~= ids_of(self@));
        }
        out
    }

}

} // verus!
