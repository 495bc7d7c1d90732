//! Per-step bookkeeping: apply generated tokens to their entries, evaluate
//! stopping criteria, emit responses, and handle per-entry and batch-wide
//! failures.
//!
//! The processor is specified entry by entry: each backend response carries
//! at most one token or one error per live entry, so the effect of a step
//! on the in-flight map is the independent effect on each of its entries,
//! in map order. (No cross-entry event ordering is promised.)

use vstd::prelude::*;
use crate::types::{StopReason, Token, TokenDecode, TokenDecodeView, InputTokens, InputTokensView,
    GenerateError, GenerateErrorView, ClientError, ClientErrorView, CachedBatch, RequestsStatus};
use crate::entry::{Entry, EntryView, EntryMap, has_id, entry_of, idx_of};
use crate::response::{InferResponse, InferResponseView, Emission, EmissionView};
use crate::stopping::{spec_stopping_criteria, check_stopping_criteria, output_of};
use crate::bytes::{copy_bytes, append_bytes, prefixed_error_message, build_prefixed_error_message};

verus! {

// ---------------------------------------------------------------------------
// Context of one backend step, as the spec sees it.
// ---------------------------------------------------------------------------

/// Everything one backend response contributes to a step, in spec form.
#[verifier::ext_equal]
pub ghost struct StepCtx {
    /// One generated token per live entry that generated one.
    pub outputs: Seq<Token>,
    /// What the incremental detokenizer produced for each token, aligned
    /// with `outputs`.
    pub decs: Seq<TokenDecodeView>,
    /// Per-entry generation failures; disjoint from `outputs`.
    pub errors: Seq<GenerateErrorView>,
    pub eos_token_id: u32,
    pub now: u64,
    /// Ids whose reply-channel receiver is gone.
    pub closed: Seq<u64>,
    pub seq2seq: bool,
}

pub open spec fn has_tok(outputs: Seq<Token>, id: u64) -> bool {
    exists|i: int| 0 <= i < outputs.len() && outputs[i].request_id == id
}

pub open spec fn tok_idx(outputs: Seq<Token>, id: u64) -> int {
    choose|i: int| 0 <= i < outputs.len() && outputs[i].request_id == id
}

pub open spec fn has_err(errors: Seq<GenerateErrorView>, id: u64) -> bool {
    exists|i: int| 0 <= i < errors.len() && errors[i].request_id == id
}

pub open spec fn err_idx(errors: Seq<GenerateErrorView>, id: u64) -> int {
    choose|i: int| 0 <= i < errors.len() && errors[i].request_id == id
}

// ---------------------------------------------------------------------------
// The effect of one token on one entry.
// ---------------------------------------------------------------------------

/// Instantiate the incremental-decoding accumulator lazily: at the first
/// generated token, and only when stop sequences require decoding in the
/// batching loop.
pub open spec fn with_decoder(e: EntryView) -> EntryView {
    if e.generated_tokens == 0 && e.request.parameters.stop_seqs.len() > 0 {
        EntryView { output: Some(Seq::<u8>::empty()), ..e }
    } else {
        e
    }
}

/// The detokenizer report is consistent with the entry: text or a failure
/// exactly when the entry decodes incrementally.
pub open spec fn dec_consistent(e: EntryView, dec: TokenDecodeView) -> bool {
    (dec is NotDecoded) <==> (with_decoder(e).output is None)
}

/// Bookkeeping of one generated token: count it, stash ids and metadata for
/// a unary entry, and append the decoded delta to the accumulator.
pub open spec fn with_token(e: EntryView, tok: Token, dec: TokenDecodeView) -> EntryView {
    let e1 = with_decoder(e);
    let e2 = EntryView {
        generated_tokens: (e1.generated_tokens + 1) as u32,
        token_ids: if e1.stream {
            e1.token_ids
        } else {
            e1.token_ids.push(tok.token_id)
        },
        tokens: if !e1.stream && e1.request.parameters.include_gen_tokens {
            e1.tokens.push(tok)
        } else {
            e1.tokens
        },
        ..e1
    };
    match (e2.output, dec) {
        (Some(o), TokenDecodeView::Text { delta, remainder }) => EntryView {
            output: Some(o + delta),
            ..e2
        },
        _ => e2,
    }
}

/// The text decoded for this step, if the entry decodes incrementally.
pub open spec fn step_text(e: EntryView, dec: TokenDecodeView) -> Option<Seq<u8>> {
    match dec {
        TokenDecodeView::Text { delta, remainder } => Some(delta),
        _ => None,
    }
}

/// On termination the detokenizer's buffered remainder is flushed into the
/// accumulator, exactly once.
pub open spec fn with_flush(e: EntryView, dec: TokenDecodeView) -> EntryView {
    match (e.output, dec) {
        (Some(o), TokenDecodeView::Text { delta, remainder }) => EntryView {
            output: Some(o + remainder),
            ..e
        },
        _ => e,
    }
}

/// The text of a terminal response: the step's delta plus the flushed
/// remainder.
pub open spec fn terminal_text(dec: TokenDecodeView) -> Option<Seq<u8>> {
    match dec {
        TokenDecodeView::Text { delta, remainder } => Some(delta + remainder),
        _ => None,
    }
}

/// The stop reason evaluated for `e` after applying `tok`.
pub open spec fn reason_of(e: EntryView, tok: Token, dec: TokenDecodeView, ctx: StepCtx)
    -> StopReason {
    spec_stopping_criteria(with_token(e, tok, dec), tok.token_id, ctx.eos_token_id,
        step_text(e, dec), ctx.now)
}

/// The full effect of one generated token on its entry: the retained entry
/// (if any), the event emitted on its reply channel (if any, and if the
/// receiver is still there), and whether the entry completed this step.
pub open spec fn token_step(e: EntryView, tok: Token, dec: TokenDecodeView, ctx: StepCtx)
    -> (Option<EntryView>, Seq<EmissionView>, Seq<u64>) {
    if dec is Failed {
        // Detokenization failure: abort this entry alone.
        (None, seq![EmissionView {
            request_id: e.id,
            response: Err(ClientErrorView::Generation(dec->Failed_message)),
        }], seq![e.id])
    } else {
        let e2 = with_token(e, tok, dec);
        let text = step_text(e, dec);
        let reason = reason_of(e, tok, dec, ctx);
        if reason != StopReason::NotFinished {
            let e3 = with_flush(e2, dec);
            let resp = if e3.stream {
                InferResponseView::stream_final_spec(tok, terminal_text(dec), e3, reason, ctx.now)
            } else {
                InferResponseView::unary_spec(e3, ctx.seq2seq, reason, ctx.now)
            };
            (None, seq![EmissionView { request_id: e.id, response: Ok(resp) }], seq![e.id])
        } else if e2.stream {
            if ctx.closed.contains(e.id) {
                // Receiver gone: cancel the entry; nothing can be delivered.
                (None, Seq::<EmissionView>::empty(), seq![e.id])
            } else {
                (Some(e2), seq![EmissionView {
                    request_id: e.id,
                    response: Ok(InferResponseView::stream_inprog_spec(tok, e2.generated_tokens,
                        text)),
                }], Seq::<u64>::empty())
            }
        } else if e2.generated_tokens % 16 == 0 && ctx.closed.contains(e.id) {
            // Unary receivers are polled for closure every 16 tokens only.
            (None, Seq::<EmissionView>::empty(), seq![e.id])
        } else {
            (Some(e2), Seq::<EmissionView>::empty(), Seq::<u64>::empty())
        }
    }
}

/// The message of a per-entry generation failure, prefixed with the token
/// count when generation had begun.
pub open spec fn error_message_of(e: EntryView, msg: Seq<u8>) -> Seq<u8> {
    if e.generated_tokens == 0 {
        msg
    } else {
        prefixed_error_message(e.generated_tokens as nat, msg)
    }
}

/// The effect of a per-entry generation failure: terminate the entry.
pub open spec fn error_step(e: EntryView, msg: Seq<u8>) -> (Option<EntryView>, Seq<EmissionView>,
    Seq<u64>) {
    (None, seq![EmissionView {
        request_id: e.id,
        response: Err(ClientErrorView::Generation(error_message_of(e, msg))),
    }], seq![e.id])
}

/// The effect of one backend step on one entry.
pub open spec fn entry_step(e: EntryView, ctx: StepCtx) -> (Option<EntryView>, Seq<EmissionView>,
    Seq<u64>) {
    if has_tok(ctx.outputs, e.id) {
        let i = tok_idx(ctx.outputs, e.id);
        token_step(e, ctx.outputs[i], ctx.decs[i], ctx)
    } else if has_err(ctx.errors, e.id) {
        error_step(e, ctx.errors[err_idx(ctx.errors, e.id)].message)
    } else {
        (Some(e), Seq::<EmissionView>::empty(), Seq::<u64>::empty())
    }
}

pub open spec fn opt_seq(o: Option<EntryView>) -> Seq<EntryView> {
    match o {
        Some(e) => seq![e],
        None => Seq::<EntryView>::empty(),
    }
}

/// The effect of one backend step on the whole in-flight map, entry by
/// entry in map order: retained entries, emitted events, completed ids.
pub open spec fn step_seq(s: Seq<EntryView>, ctx: StepCtx) -> (Seq<EntryView>, Seq<EmissionView>,
    Seq<u64>)
    decreases s.len(),
{
    if s.len() == 0 {
        (Seq::<EntryView>::empty(), Seq::<EmissionView>::empty(), Seq::<u64>::empty())
    } else {
        let prefix = step_seq(s.drop_last(), ctx);
        let last = entry_step(s.last(), ctx);
        (prefix.0 + opt_seq(last.0), prefix.1 + last.1, prefix.2 + last.2)
    }
}

// ---------------------------------------------------------------------------
// Search helpers.
// ---------------------------------------------------------------------------

/// Find the generated token for `id`, if any.
pub fn find_token(outputs: &Vec<Token>, id: u64) -> (r: Option<usize>)
    ensures
        r matches Some(i) ==> i < outputs@.len() && outputs@[i as int].request_id == id,
        r is None ==> !has_tok(outputs@, id),
{
    let n: usize = outputs.len();
    let mut j: usize = 0;
    while j < n
        invariant
            n == outputs@.len(),
            0 <= j <= n,
            forall|k: int| 0 <= k < j ==> outputs@[k].request_id != id,
        decreases n - j,
    {
        if outputs[j].request_id == id {
            return Some(j);
        }
        j = j + 1;
    }
    None
}

/// Find the generation failure for `id`, if any.
pub fn find_error(errors: &Vec<GenerateError>, id: u64) -> (r: Option<usize>)
    ensures
        r matches Some(i) ==> i < errors@.len() && errors@[i as int].request_id == id,
        r is None ==> !has_err(errors@.map_values(|g: GenerateError| g@), id),
{
    let n: usize = errors.len();
    let mut j: usize = 0;
    while j < n
        invariant
            n == errors@.len(),
            0 <= j <= n,
            forall|k: int| 0 <= k < j ==> errors@[k].request_id != id,
        decreases n - j,
    {
        if errors[j].request_id == id {
            return Some(j);
        }
        j = j + 1;
    }
    proof {
        let evs = errors@.map_values(|g: GenerateError| g@);
        assert forall|i: int| 0 <= i < evs.len() implies evs[i].request_id != id by {
            assert(evs[i] == errors@[i]@);
        }
    }
    None
}

/// Membership in a plain id list.
pub fn contains_id_vec(v: &Vec<u64>, id: u64) -> (r: bool)
    ensures
        r == v@.contains(id),
{
    let n: usize = v.len();
    let mut j: usize = 0;
    while j < n
        invariant
            n == v@.len(),
            0 <= j <= n,
            forall|k: int| 0 <= k < j ==> v@[k] != id,
        decreases n - j,
    {
        if v[j] == id {
            return true;
        }
        j = j + 1;
    }
    false
}

// ---------------------------------------------------------------------------
// Input-token distribution (first response for each entry).
// ---------------------------------------------------------------------------

pub open spec fn has_input(inputs: Seq<InputTokensView>, id: u64) -> bool {
    exists|i: int| 0 <= i < inputs.len() && inputs[i].request_id == id
}

pub open spec fn input_idx(inputs: Seq<InputTokensView>, id: u64) -> int {
    choose|i: int| 0 <= i < inputs.len() && inputs[i].request_id == id
}

/// The effect of input-token distribution on one entry: a streaming entry
/// gets a dedicated input-info event at once, a unary entry stashes the
/// tokens for its final response.
pub open spec fn input_step(e: EntryView, inputs: Seq<InputTokensView>) -> (EntryView,
    Seq<EmissionView>) {
    if has_input(inputs, e.id) {
        let it = inputs[input_idx(inputs, e.id)];
        if e.stream {
            (e, seq![EmissionView {
                request_id: e.id,
                response: Ok(InferResponseView::stream_input_info_spec(it.tokens)),
            }])
        } else {
            (EntryView { input_tokens: it.tokens, ..e }, Seq::<EmissionView>::empty())
        }
    } else {
        (e, Seq::<EmissionView>::empty())
    }
}

/// Input-token distribution over the whole map, in map order.
pub open spec fn input_seq_effect(s: Seq<EntryView>, inputs: Seq<InputTokensView>)
    -> (Seq<EntryView>, Seq<EmissionView>)
    decreases s.len(),
{
    if s.len() == 0 {
        (Seq::<EntryView>::empty(), Seq::<EmissionView>::empty())
    } else {
        let prefix = input_seq_effect(s.drop_last(), inputs);
        let last = input_step(s.last(), inputs);
        (prefix.0 + seq![last.0], prefix.1 + last.1)
    }
}

/// Find the input tokens for `id`, if any.
pub fn find_input(inputs: &Vec<InputTokens>, id: u64) -> (r: Option<usize>)
    ensures
        r matches Some(i) ==> i < inputs@.len() && inputs@[i as int].request_id == id,
        r is None ==> !has_input(inputs@.map_values(|it: InputTokens| it@), id),
{
    let n: usize = inputs.len();
    let mut j: usize = 0;
    while j < n
        invariant
            n == inputs@.len(),
            0 <= j <= n,
            forall|k: int| 0 <= k < j ==> inputs@[k].request_id != id,
        decreases n - j,
    {
        if inputs[j].request_id == id {
            return Some(j);
        }
        j = j + 1;
    }
    proof {
        let ivs = inputs@.map_values(|it: InputTokens| it@);
        assert forall|i: int| 0 <= i < ivs.len() implies ivs[i].request_id != id by {
            assert(ivs[i] == inputs@[i]@);
        }
    }
    None
}

/// A fresh vector holding the same tokens.
pub fn copy_tokens(src: &Vec<Token>) -> (r: Vec<Token>)
    ensures
        r@ == src@,
{
    let n: usize = src.len();
    let mut out: Vec<Token> = Vec::new();
    let mut j: usize = 0;
    while j < n
        invariant
            n == src@.len(),
            0 <= j <= n,
            out@ == src@.subrange(0, j as int),
        decreases n - j,
    {
        out.push(src[j]);
        j = j + 1;
        assert(out@ =~= src@.subrange(0, j as int));
    }
    assert(out@ =~= src@);
    out
}

/// Rebuild a backend error, preserving its value.
pub fn copy_client_error(e: &ClientError) -> (r: ClientError)
    ensures
        r@ == e@,
{
    match e {
        ClientError::Connection(m) => ClientError::Connection(copy_bytes(m)),
        ClientError::Generation(m) => ClientError::Generation(copy_bytes(m)),
    }
}

// ---------------------------------------------------------------------------
// Batch-wide failure handling.
// ---------------------------------------------------------------------------

/// On a failed backend call, an entry survives only if the call covered a
/// newly added batch (`start_id` given) and the entry predates it.
pub open spec fn retained_on_failure(e: EntryView, start_id: Option<u64>) -> bool {
    match start_id {
        Some(sid) => e.id < sid,
        None => false,
    }
}

/// The effect of a failed backend call on the map: entries of the failed
/// batches are removed, each with one terminal error event.
pub open spec fn fail_seq(s: Seq<EntryView>, start_id: Option<u64>, err: ClientErrorView)
    -> (Seq<EntryView>, Seq<EmissionView>)
    decreases s.len(),
{
    if s.len() == 0 {
        (Seq::<EntryView>::empty(), Seq::<EmissionView>::empty())
    } else {
        let prefix = fail_seq(s.drop_last(), start_id, err);
        if retained_on_failure(s.last(), start_id) {
            (prefix.0 + seq![s.last()], prefix.1)
        } else {
            (prefix.0, prefix.1 + seq![EmissionView {
                request_id: s.last().id,
                response: Err(err),
            }])
        }
    }
}

/// Failure scope: a failed call with `start_id` terminates exactly the
/// entries of the newly added batch (`id >= start_id`), leaving older
/// entries in place and in order.
pub proof fn lemma_failure_scope(s: Seq<EntryView>, sid: u64, err: ClientErrorView)
    requires
        forall|a: int, b: int| 0 <= a < b < s.len() ==> s[a].id < s[b].id,
    ensures
        forall|e: EntryView| fail_seq(s, Some(sid), err).0.contains(e)
            <==> (s.contains(e) && e.id < sid),
        forall|i: int, j: int| 0 <= i < j < fail_seq(s, Some(sid), err).0.len()
            ==> fail_seq(s, Some(sid), err).0[i].id < fail_seq(s, Some(sid), err).0[j].id,
    decreases s.len(),
{
    if s.len() == 0 {
    } else {
        assert forall|a: int, b: int| 0 <= a < b < s.drop_last().len() implies
            s.drop_last()[a].id < s.drop_last()[b].id by {
            assert(s.drop_last()[a] == s[a]);
            assert(s.drop_last()[b] == s[b]);
        }
        lemma_failure_scope(s.drop_last(), sid, err);
        let prefix = fail_seq(s.drop_last(), sid_opt(sid), err);
        let whole = fail_seq(s, sid_opt(sid), err);
        assert forall|e: EntryView| whole.0.contains(e) implies (s.contains(e) && e.id < sid) by {
            let i = choose|i: int| 0 <= i < whole.0.len() && whole.0[i] == e;
            if i < prefix.0.len() {
                assert(prefix.0.contains(e));
                assert(s.drop_last().contains(e));
                let j = choose|j: int| 0 <= j < s.drop_last().len() && s.drop_last()[j] == e;
                assert(s[j] == e);
            } else {
                assert(e == s.last());
            }
        }
        assert forall|e: EntryView| (s.contains(e) && e.id < sid) implies whole.0.contains(e) by {
            let i = choose|i: int| 0 <= i < s.len() && s[i] == e;
            if i < s.len() - 1 {
                assert(s.drop_last()[i] == e);
                assert(s.drop_last().contains(e));
                assert(prefix.0.contains(e));
                let j = choose|j: int| 0 <= j < prefix.0.len() && prefix.0[j] == e;
                assert(whole.0[j] == e);
            } else {
                assert(e == s.last());
                if retained_on_failure(e, Some(sid)) {
                    assert(whole.0[whole.0.len() - 1] == e);
                }
            }
        }
        if retained_on_failure(s.last(), Some(sid)) {
            assert forall|i: int, j: int| 0 <= i < j < whole.0.len() implies
                whole.0[i].id < whole.0[j].id by {
                if j < prefix.0.len() {
                    assert(whole.0[i] == prefix.0[i]);
                    assert(whole.0[j] == prefix.0[j]);
                } else {
                    assert(whole.0[j] == s.last());
                    assert(whole.0[i] == prefix.0[i]);
                    assert(prefix.0.contains(prefix.0[i]));
                    assert(s.drop_last().contains(prefix.0[i]));
                    let k = choose|k: int| 0 <= k < s.drop_last().len()
                        && s.drop_last()[k] == prefix.0[i];
                    assert(s.drop_last()[k] == s[k]);
                    assert(s[k] == prefix.0[i]);
                    assert(s[k].id < s[s.len() - 1].id);
                }
            }
        } else {
            assert(whole.0 =~= prefix.0);
        }
    }
}

pub open spec fn sid_opt(sid: u64) -> Option<u64> {
    Some(sid)
}

// ---------------------------------------------------------------------------
// The processor.
// ---------------------------------------------------------------------------

/// Owner of the in-flight map and of all per-step bookkeeping. Constructed
/// once by the scheduler; the backend health flag mirrors the outcome of
/// the latest backend call for external probes.
pub struct TokenProcessor {
    pub entries: EntryMap,
    /// Token id that terminates generation with `EosToken`.
    pub eos_token_id: u32,
    /// Whether the model is sequence-to-sequence (affects unary echo text).
    pub seq2seq: bool,
    /// Health of the backend as seen by the latest call.
    pub generation_healthy: bool,
}

impl TokenProcessor {
    pub open spec fn inv(self) -> bool {
        self.entries.inv()
    }

    pub fn new(eos_token_id: u32, seq2seq: bool) -> (r: TokenProcessor)
        ensures
            r.entries@ == Seq::<EntryView>::empty(),
            r.inv(),
            r.eos_token_id == eos_token_id,
            r.seq2seq == seq2seq,
            r.generation_healthy,
    {
        TokenProcessor {
            entries: EntryMap::new(),
            eos_token_id,
            seq2seq,
            generation_healthy: true,
        }
    }

    /// Add returned input tokens to their corresponding entries, emitting
    /// the dedicated input-info event for streaming entries.
    #[verifier::rlimit(50)]
    pub fn process_input_tokens(&mut self, inputs: &Vec<InputTokens>, emissions: &mut Vec<Emission>)
        requires
            old(self).inv(),
            forall|i: int, j: int| 0 <= i < j < inputs@.len()
                ==> inputs@[i].request_id != inputs@[j].request_id,
            forall|i: int| 0 <= i < inputs@.len()
                ==> has_id(old(self).entries@, #[trigger] inputs@[i].request_id),
            forall|i: int| 0 <= i < inputs@.len()
                ==> entry_of(old(self).entries@, #[trigger] inputs@[i].request_id).generated_tokens
                    == 0,
            forall|i: int| 0 <= i < inputs@.len() ==> (#[trigger] inputs@[i]).tokens@.len()
                <= u32::MAX,
        ensures
            final(self).inv(),
            final(self).entries@ == input_seq_effect(old(self).entries@,
                inputs@.map_values(|it: InputTokens| it@)).0,
            final(emissions)@.map_values(|em: Emission| em@) == old(emissions)@.map_values(
                |em: Emission| em@) + input_seq_effect(old(self).entries@,
                inputs@.map_values(|it: InputTokens| it@)).1,
            final(self).eos_token_id == old(self).eos_token_id,
            final(self).seq2seq == old(self).seq2seq,
            final(self).generation_healthy == old(self).generation_healthy,
    {
        let ghost old_entries: Seq<EntryView> = self.entries@;
        let ghost inputs_view: Seq<InputTokensView> = inputs@.map_values(|it: InputTokens| it@);
        let ghost old_emissions: Seq<EmissionView> = emissions@.map_values(|em: Emission| em@);
        let ghost eos0: u32 = self.eos_token_id;
        let ghost s2s0: bool = self.seq2seq;
        let ghost health0: bool = self.generation_healthy;
        let total: usize = self.entries.entries.len();
        let mut kept: Vec<Entry> = Vec::new();
        let mut i: usize = 0;
        while i < total
            invariant
                total == old_entries.len(),
                0 <= i <= total,
                self.eos_token_id == eos0,
                self.seq2seq == s2s0,
                self.generation_healthy == health0,
                inputs_view == inputs@.map_values(|it: InputTokens| it@),
                self.entries.entries@.map_values(|e: Entry| e@) == old_entries.subrange(
                    i as int, total as int),
                forall|k: int, j: int| 0 <= k < j < inputs_view.len()
                    ==> inputs_view[k].request_id != inputs_view[j].request_id,
                forall|k: int| 0 <= k < inputs_view.len()
                    ==> has_id(old_entries, #[trigger] inputs_view[k].request_id),
                forall|k: int| 0 <= k < inputs_view.len()
                    ==> entry_of(old_entries, #[trigger] inputs_view[k].request_id).generated_tokens
                        == 0,
                forall|k: int| 0 <= k < inputs_view.len()
                    ==> (#[trigger] inputs_view[k]).tokens.len() <= u32::MAX,
                forall|k: int| 0 <= k < inputs@.len() ==> (#[trigger] inputs@[k])@
                    == inputs_view[k],
                kept@.map_values(|e: Entry| e@) =~= input_seq_effect(old_entries.take(i as int),
                    inputs_view).0,
                emissions@.map_values(|em: Emission| em@) =~= old_emissions + input_seq_effect(
                    old_entries.take(i as int), inputs_view).1,
                forall|a: int, b: int| 0 <= a < b < old_entries.len()
                    ==> old_entries[a].id < old_entries[b].id,
                forall|a: int| 0 <= a < old_entries.len() ==> (#[trigger] old_entries[a]).wf(),
                forall|a: int| 0 <= a < old_entries.len() ==> (#[trigger] old_entries[a]).live(),
                forall|a: int| 0 <= a < old_entries.len()
                    ==> (#[trigger] old_entries[a]).batch_time is Some,
            decreases total - i,
        {
            let ghost prev_vec: Seq<Entry> = self.entries.entries@;
            let ghost pre_em: Seq<EmissionView> = emissions@.map_values(|em: Emission| em@);
            proof {
                assert(prev_vec.map_values(|e: Entry| e@).len() == total - i);
            }
            let mut e: Entry = self.entries.entries.remove(0);
            let ghost e0: EntryView = e@;
            proof {
                assert(prev_vec.map_values(|e: Entry| e@)[0] == prev_vec[0]@);
                assert(old_entries.subrange(i as int, total as int)[0] == old_entries[i as int]);
                assert(e0 == old_entries[i as int]);
                assert forall|k: int| 0 <= k < total - (i + 1) implies
                    (#[trigger] self.entries.entries@[k])@ == old_entries[i + 1 + k] by {
                    assert(self.entries.entries@[k] == prev_vec[k + 1]);
                    assert(prev_vec.map_values(|e: Entry| e@)[k + 1] == prev_vec[k + 1]@);
                    assert(old_entries.subrange(i as int, total as int)[k + 1]
                        == old_entries[i + 1 + k]);
                }
                assert(self.entries.entries@.map_values(|e: Entry| e@) =~= old_entries.subrange(
                    i + 1, total as int));
            }
            match find_input(inputs, e.id) {
                Some(ii) => {
                    proof {
                        assert(inputs@[ii as int]@ == inputs_view[ii as int]);
                        assert(has_input(inputs_view, e0.id));
                        let ci = input_idx(inputs_view, e0.id);
                        assert(inputs_view[ci].request_id == e0.id);
                        if ci != ii {
                            assert(inputs_view[ci].request_id != inputs_view[ii as int].request_id);
                        }
                        assert(input_idx(inputs_view, e0.id) == ii as int);
                    }
                    let toks: Vec<Token> = copy_tokens(&inputs[ii].tokens);
                    let ghost toks_view: Seq<Token> = toks@;
                    proof {
                        assert(toks_view == inputs_view[ii as int].tokens);
                    }
                    if e.stream {
                        let resp = InferResponse::stream_input_info(toks);
                        let em = Emission { request_id: e.id, response: Ok(resp) };
                        proof {
                            assert(em@ =~~= input_step(e0, inputs_view).1[0]);
                        }
                        emissions.push(em);
                        kept.push(e);
                        proof {
                            assert(emissions@.map_values(|em2: Emission| em2@)
                                =~= pre_em + input_step(e0, inputs_view).1);
                        }
                    } else {
                        e.input_tokens = toks;
                        proof {
                            assert(e@ =~= (EntryView {
                                input_tokens: inputs_view[input_idx(inputs_view, e0.id)].tokens,
                                ..e0
                            }));
                        }
                        kept.push(e);
                        proof {
                            assert(emissions@.map_values(|em2: Emission| em2@)
                                =~= pre_em + input_step(e0, inputs_view).1);
                        }
                    }
                },
                None => {
                    proof {
                        assert(!has_input(inputs_view, e0.id));
                    }
                    kept.push(e);
                    proof {
                        assert(emissions@.map_values(|em2: Emission| em2@)
                            =~= pre_em + input_step(e0, inputs_view).1);
                    }
                },
            }
            i = i + 1;
            proof {
                assert(old_entries.take(i as int).drop_last() =~= old_entries.take(i - 1));
                assert(old_entries.take(i as int).last() == e0);
                assert(input_seq_effect(old_entries.take(i as int), inputs_view).1
                    =~= input_seq_effect(old_entries.take(i - 1), inputs_view).1
                        + input_step(e0, inputs_view).1);
                assert(kept@.map_values(|e: Entry| e@) =~= input_seq_effect(
                    old_entries.take(i as int), inputs_view).0);
                assert(emissions@.map_values(|em: Emission| em@)
                    =~= pre_em + input_step(e0, inputs_view).1);
                assert(emissions@.map_values(|em: Emission| em@) =~= old_emissions
                    + input_seq_effect(old_entries.take(i as int), inputs_view).1);
            }
        }
        self.entries.entries = kept;
        proof {
            assert(old_entries.take(total as int) =~= old_entries);
            assert(self.entries@ =~= input_seq_effect(old_entries, inputs_view).0);
            lemma_input_seq_effect_inv(old_entries, inputs_view);
        }
    }

    /// Terminate the entries covered by a failed backend call with its
    /// error. With a `start_id` only the newly added batch (`id >=
    /// start_id`) is covered; without one, every entry is.
    pub fn send_errors(&mut self, error: &ClientError, start_id: Option<u64>,
        emissions: &mut Vec<Emission>)
        requires
            old(self).inv(),
        ensures
            final(self).inv(),
            final(self).entries@ == fail_seq(old(self).entries@, start_id, error@).0,
            final(emissions)@.map_values(|em: Emission| em@) == old(emissions)@.map_values(
                |em: Emission| em@) + fail_seq(old(self).entries@, start_id, error@).1,
            final(self).eos_token_id == old(self).eos_token_id,
            final(self).seq2seq == old(self).seq2seq,
            final(self).generation_healthy == old(self).generation_healthy,
    {
        let ghost old_entries: Seq<EntryView> = self.entries@;
        let ghost err_view: ClientErrorView = error@;
        let ghost old_emissions: Seq<EmissionView> = emissions@.map_values(|em: Emission| em@);
        let ghost eos0: u32 = self.eos_token_id;
        let ghost s2s0: bool = self.seq2seq;
        let ghost health0: bool = self.generation_healthy;
        let total: usize = self.entries.entries.len();
        let mut kept: Vec<Entry> = Vec::new();
        let mut i: usize = 0;
        while i < total
            invariant
                total == old_entries.len(),
                0 <= i <= total,
                self.eos_token_id == eos0,
                self.seq2seq == s2s0,
                self.generation_healthy == health0,
                err_view == error@,
                self.entries.entries@.map_values(|e: Entry| e@) == old_entries.subrange(
                    i as int, total as int),
                kept@.map_values(|e: Entry| e@) =~= fail_seq(old_entries.take(i as int),
                    start_id, err_view).0,
                emissions@.map_values(|em: Emission| em@) =~= old_emissions + fail_seq(
                    old_entries.take(i as int), start_id, err_view).1,
                forall|a: int, b: int| 0 <= a < b < old_entries.len()
                    ==> old_entries[a].id < old_entries[b].id,
                forall|a: int| 0 <= a < old_entries.len() ==> (#[trigger] old_entries[a]).wf(),
                forall|a: int| 0 <= a < old_entries.len() ==> (#[trigger] old_entries[a]).live(),
                forall|a: int| 0 <= a < old_entries.len()
                    ==> (#[trigger] old_entries[a]).batch_time is Some,
            decreases total - i,
        {
            let ghost prev_vec: Seq<Entry> = self.entries.entries@;
            let ghost pre_em: Seq<EmissionView> = emissions@.map_values(|em: Emission| em@);
            proof {
                assert(prev_vec.map_values(|e: Entry| e@).len() == total - i);
            }
            let e: Entry = self.entries.entries.remove(0);
            let ghost e0: EntryView = e@;
            proof {
                assert(prev_vec.map_values(|e: Entry| e@)[0] == prev_vec[0]@);
                assert(old_entries.subrange(i as int, total as int)[0] == old_entries[i as int]);
                assert(e0 == old_entries[i as int]);
                assert forall|k: int| 0 <= k < total - (i + 1) implies
                    (#[trigger] self.entries.entries@[k])@ == old_entries[i + 1 + k] by {
                    assert(self.entries.entries@[k] == prev_vec[k + 1]);
                    assert(prev_vec.map_values(|e: Entry| e@)[k + 1] == prev_vec[k + 1]@);
                    assert(old_entries.subrange(i as int, total as int)[k + 1]
                        == old_entries[i + 1 + k]);
                }
                assert(self.entries.entries@.map_values(|e: Entry| e@) =~= old_entries.subrange(
                    i + 1, total as int));
            }
            let retained: bool = match start_id {
                Some(sid) => e.id < sid,
                None => false,
            };
            if retained {
                kept.push(e);
                proof {
                    assert(emissions@.map_values(|em2: Emission| em2@) =~= pre_em);
                }
            } else {
                let em = Emission {
                    request_id: e.id,
                    response: Err(copy_client_error(error)),
                };
                proof {
                    assert(em@ =~= (EmissionView { request_id: e0.id, response: Err(err_view) }));
                }
                emissions.push(em);
                proof {
                    assert(emissions@.map_values(|em2: Emission| em2@)
                        =~= pre_em.push(EmissionView { request_id: e0.id, response: Err(err_view) }));
                }
            }
            i = i + 1;
            proof {
                assert(old_entries.take(i as int).drop_last() =~= old_entries.take(i - 1));
                assert(old_entries.take(i as int).last() == e0);
                assert(retained == retained_on_failure(e0, start_id));
                assert(kept@.map_values(|e: Entry| e@) =~= fail_seq(
                    old_entries.take(i as int), start_id, err_view).0);
                assert(emissions@.map_values(|em: Emission| em@) =~= old_emissions
                    + fail_seq(old_entries.take(i as int), start_id, err_view).1);
            }
        }
        self.entries.entries = kept;
        proof {
            assert(old_entries.take(total as int) =~= old_entries);
            assert(self.entries@ =~= fail_seq(old_entries, start_id, err_view).0);
            lemma_fail_seq_inv(old_entries, start_id, err_view);
            assert forall|a: int| 0 <= a < self.entries@.len() implies
                ((#[trigger] self.entries@[a]).wf() && self.entries@[a].live()
                    && self.entries@[a].batch_time is Some) by {
                assert(self.entries@.contains(self.entries@[a]));
                assert(old_entries.contains(self.entries@[a]));
                let j = choose|j: int| 0 <= j < old_entries.len()
                    && old_entries[j] == self.entries@[a];
                assert(old_entries[j].wf());
            }
        }
    }
    /// The spec-side context of one backend response, as this processor
    /// sees it.
    pub open spec fn step_ctx(self, outputs: Seq<Token>, decs: Seq<TokenDecodeView>,
        errors: Seq<GenerateErrorView>, now: u64, closed: Seq<u64>) -> StepCtx {
        StepCtx {
            outputs,
            decs,
            errors,
            eos_token_id: self.eos_token_id,
            now,
            closed,
            seq2seq: self.seq2seq,
        }
    }

    /// Store the next token for each entry, evaluate its stopping criteria,
    /// and emit its in-progress or terminal event; then terminate the
    /// entries named in `errors`. Returns the ids completed this step, or
    /// nothing when every entry that generated a token completed.
    #[verifier::rlimit(60)]
    pub fn process_next_tokens(&mut self, outputs: &Vec<Token>, decs: &Vec<TokenDecode>,
        errors: &Vec<GenerateError>, now: u64, closed: &Vec<u64>, emissions: &mut Vec<Emission>)
        -> (completed: Option<Vec<u64>>)
        requires
            old(self).inv(),
            decs@.len() == outputs@.len(),
            forall|i: int, j: int| 0 <= i < j < outputs@.len()
                ==> outputs@[i].request_id != outputs@[j].request_id,
            forall|i: int| 0 <= i < outputs@.len()
                ==> has_id(old(self).entries@, #[trigger] outputs@[i].request_id),
            forall|i: int| 0 <= i < outputs@.len() ==> dec_consistent(entry_of(old(self).entries@,
                #[trigger] outputs@[i].request_id), decs@.map_values(|d: TokenDecode| d@)[i]),
            forall|i: int, j: int| 0 <= i < j < errors@.len()
                ==> errors@[i].request_id != errors@[j].request_id,
            forall|i: int| 0 <= i < errors@.len()
                ==> has_id(old(self).entries@, #[trigger] errors@[i].request_id),
            forall|i: int| 0 <= i < errors@.len()
                ==> !has_tok(outputs@, #[trigger] errors@[i].request_id),
        ensures
            final(self).inv(),
            final(self).entries@ == step_seq(old(self).entries@, old(self).step_ctx(outputs@,
                decs@.map_values(|d: TokenDecode| d@), errors@.map_values(|g: GenerateError| g@),
                now, closed@)).0,
            final(emissions)@.map_values(|em: Emission| em@) == old(emissions)@.map_values(
                |em: Emission| em@) + step_seq(old(self).entries@, old(self).step_ctx(outputs@,
                decs@.map_values(|d: TokenDecode| d@), errors@.map_values(|g: GenerateError| g@),
                now, closed@)).1,
            ({
                let done = step_seq(old(self).entries@, old(self).step_ctx(outputs@,
                    decs@.map_values(|d: TokenDecode| d@),
                    errors@.map_values(|g: GenerateError| g@), now, closed@)).2;
                match completed {
                    Some(c) => c@ == done && done.len() != outputs@.len(),
                    None => done.len() == outputs@.len(),
                }
            }),
            final(self).eos_token_id == old(self).eos_token_id,
            final(self).seq2seq == old(self).seq2seq,
            final(self).generation_healthy == old(self).generation_healthy,
    {
        let ghost old_entries: Seq<EntryView> = self.entries@;
        let ghost ctx: StepCtx = self.step_ctx(outputs@, decs@.map_values(|d: TokenDecode| d@),
            errors@.map_values(|g: GenerateError| g@), now, closed@);
        let ghost old_emissions: Seq<EmissionView> = emissions@.map_values(|em: Emission| em@);
        let ghost eos0: u32 = self.eos_token_id;
        let ghost s2s0: bool = self.seq2seq;
        let ghost health0: bool = self.generation_healthy;
        let total: usize = self.entries.entries.len();
        let mut kept: Vec<Entry> = Vec::new();
        let mut completed_ids: Vec<u64> = Vec::new();
        let mut i: usize = 0;
        while i < total
            invariant
                total == old_entries.len(),
                0 <= i <= total,
                self.eos_token_id == eos0,
                self.seq2seq == s2s0,
                self.generation_healthy == health0,
                decs@.len() == outputs@.len(),
                ctx == (StepCtx {
                    outputs: outputs@,
                    decs: decs@.map_values(|d: TokenDecode| d@),
                    errors: errors@.map_values(|g: GenerateError| g@),
                    eos_token_id: eos0,
                    now,
                    closed: closed@,
                    seq2seq: s2s0,
                }),
                self.entries.entries@.map_values(|e: Entry| e@) == old_entries.subrange(
                    i as int, total as int),
                kept@.map_values(|e: Entry| e@) =~= step_seq(old_entries.take(i as int), ctx).0,
                emissions@.map_values(|em: Emission| em@) =~= old_emissions + step_seq(
                    old_entries.take(i as int), ctx).1,
                completed_ids@ =~= step_seq(old_entries.take(i as int), ctx).2,
                forall|a: int, b: int| 0 <= a < b < outputs@.len()
                    ==> outputs@[a].request_id != outputs@[b].request_id,
                forall|a: int| 0 <= a < outputs@.len()
                    ==> has_id(old_entries, #[trigger] outputs@[a].request_id),
                forall|a: int| 0 <= a < outputs@.len() ==> dec_consistent(entry_of(old_entries,
                    #[trigger] outputs@[a].request_id), ctx.decs[a]),
                forall|a: int, b: int| 0 <= a < b < errors@.len()
                    ==> errors@[a].request_id != errors@[b].request_id,
                forall|a: int| 0 <= a < errors@.len()
                    ==> !has_tok(outputs@, #[trigger] errors@[a].request_id),
                forall|a: int, b: int| 0 <= a < b < old_entries.len()
                    ==> old_entries[a].id < old_entries[b].id,
                forall|a: int| 0 <= a < old_entries.len() ==> (#[trigger] old_entries[a]).wf(),
                forall|a: int| 0 <= a < old_entries.len() ==> (#[trigger] old_entries[a]).live(),
                forall|a: int| 0 <= a < old_entries.len()
                    ==> (#[trigger] old_entries[a]).batch_time is Some,
            decreases total - i,
        {
            let ghost prev_vec: Seq<Entry> = self.entries.entries@;
            let ghost pre_em: Seq<EmissionView> = emissions@.map_values(|em: Emission| em@);
            let ghost pre_kept: Seq<EntryView> = kept@.map_values(|e: Entry| e@);
            let ghost pre_c: Seq<u64> = completed_ids@;
            proof {
                assert(prev_vec.map_values(|e: Entry| e@).len() == total - i);
            }
            let mut e: Entry = self.entries.entries.remove(0);
            let ghost e0: EntryView = e@;
            proof {
                assert(prev_vec.map_values(|e: Entry| e@)[0] == prev_vec[0]@);
                assert(old_entries.subrange(i as int, total as int)[0] == old_entries[i as int]);
                assert(e0 == old_entries[i as int]);
                assert forall|k: int| 0 <= k < total - (i + 1) implies
                    (#[trigger] self.entries.entries@[k])@ == old_entries[i + 1 + k] by {
                    assert(self.entries.entries@[k] == prev_vec[k + 1]);
                    assert(prev_vec.map_values(|e: Entry| e@)[k + 1] == prev_vec[k + 1]@);
                    assert(old_entries.subrange(i as int, total as int)[k + 1]
                        == old_entries[i + 1 + k]);
                }
                assert(self.entries.entries@.map_values(|e: Entry| e@) =~= old_entries.subrange(
                    i + 1, total as int));
                // this entry is the unique carrier of its id
                assert(has_id(old_entries, e0.id));
                let ci = idx_of(old_entries, e0.id);
                if ci != i {
                    assert(old_entries[ci].id != old_entries[i as int].id);
                }
                assert(entry_of(old_entries, e0.id) == e0);
            }
            match find_token(outputs, e.id) {
                Some(ti) => {
                    proof {
                        assert(has_tok(ctx.outputs, e0.id));
                        let wi = tok_idx(ctx.outputs, e0.id);
                        if wi != ti {
                            assert(outputs@[wi].request_id != outputs@[ti as int].request_id);
                        }
                        assert(tok_idx(ctx.outputs, e0.id) == ti as int);
                        assert(ctx.decs[ti as int] == decs@[ti as int]@);
                        assert(dec_consistent(e0, ctx.decs[ti as int]));
                    }
                    let tok: Token = outputs[ti];
                    let ghost dv: TokenDecodeView = decs@[ti as int]@;
                    if e.generated_tokens == 0 && e.request.parameters.stop_seqs.len() > 0 {
                        e.output = Some(Vec::new());
                    }
                    proof {
                        assert(e@ =~~= with_decoder(e0));
                    }
                    match &decs[ti] {
                        TokenDecode::Failed { message } => {
                            let em = Emission {
                                request_id: e.id,
                                response: Err(ClientError::Generation(copy_bytes(message))),
                            };
                            proof {
                                assert(em@ =~~= entry_step(e0, ctx).1[0]);
                            }
                            emissions.push(em);
                            completed_ids.push(e.id);
                            proof {
                                assert(emissions@.map_values(|em2: Emission| em2@)
                                    =~= pre_em + entry_step(e0, ctx).1);
                                assert(kept@.map_values(|e2: Entry| e2@)
                                    =~= pre_kept + opt_seq(entry_step(e0, ctx).0));
                                assert(completed_ids@ =~= pre_c + entry_step(e0, ctx).2);
                            }
                        },
                        _ => {
                            proof {
                                assert(e0.live());
                                assert(e0.wf());
                            }
                            e.generated_tokens = e.generated_tokens + 1;
                            let is_stream: bool = e.stream;
                            if !is_stream {
                                e.token_ids.push(tok.token_id);
                                if e.request.parameters.include_gen_tokens {
                                    e.tokens.push(tok);
                                }
                            }
                            let mut text_opt: Option<Vec<u8>> = None;
                            match &decs[ti] {
                                TokenDecode::Text { delta, remainder } => {
                                    match &mut e.output {
                                        Some(o) => {
                                            append_bytes(o, delta);
                                        },
                                        None => {
                                            proof {
                                                assert(false);
                                            }
                                        },
                                    }
                                    text_opt = Some(copy_bytes(delta));
                                },
                                _ => {},
                            }
                            proof {
                                assert(e@ =~~= with_token(e0, tok, dv));
                            }
                            let reason: StopReason = check_stopping_criteria(&e, tok.token_id,
                                self.eos_token_id, match &text_opt {
                                    Some(t) => Some(t),
                                    None => None,
                                }, now);
                            proof {
                                assert(match text_opt {
                                    Some(ref t) => Some(t@),
                                    None => None,
                                } == step_text(e0, dv));
                                assert(reason == reason_of(e0, tok, dv, ctx));
                            }
                            if !matches!(reason, StopReason::NotFinished) {
                                let mut text_final = text_opt;
                                match &decs[ti] {
                                    TokenDecode::Text { delta, remainder } => {
                                        match &mut text_final {
                                            Some(t) => {
                                                append_bytes(t, remainder);
                                            },
                                            None => {
                                                proof {
                                                    assert(false);
                                                }
                                            },
                                        }
                                        match &mut e.output {
                                            Some(o) => {
                                                append_bytes(o, remainder);
                                            },
                                            None => {
                                                proof {
                                                    assert(false);
                                                }
                                            },
                                        }
                                    },
                                    _ => {},
                                }
                                proof {
                                    assert(e@ =~~= with_flush(with_token(e0, tok, dv), dv));
                                    assert(match text_final {
                                        Some(ref t) => Some(t@),
                                        None => None,
                                    } == terminal_text(dv));
                                }
                                let id: u64 = e.id;
                                let resp: InferResponse = if is_stream {
                                    InferResponse::stream_final(tok, text_final, &e, reason, now)
                                } else {
                                    InferResponse::unary(e, self.seq2seq, reason, now)
                                };
                                let em = Emission { request_id: id, response: Ok(resp) };
                                proof {
                                    assert(em@ =~~= entry_step(e0, ctx).1[0]);
                                }
                                emissions.push(em);
                                completed_ids.push(id);
                                proof {
                                    assert(emissions@.map_values(|em2: Emission| em2@)
                                        =~= pre_em + entry_step(e0, ctx).1);
                                    assert(kept@.map_values(|e2: Entry| e2@)
                                        =~= pre_kept + opt_seq(entry_step(e0, ctx).0));
                                    assert(completed_ids@ =~= pre_c + entry_step(e0, ctx).2);
                                }
                            } else if is_stream {
                                if contains_id_vec(closed, e.id) {
                                    completed_ids.push(e.id);
                                    proof {
                                        assert(emissions@.map_values(|em2: Emission| em2@)
                                            =~= pre_em + entry_step(e0, ctx).1);
                                        assert(kept@.map_values(|e2: Entry| e2@)
                                            =~= pre_kept + opt_seq(entry_step(e0, ctx).0));
                                        assert(completed_ids@ =~= pre_c + entry_step(e0, ctx).2);
                                    }
                                } else {
                                    let count: u32 = e.generated_tokens;
                                    let em = Emission {
                                        request_id: e.id,
                                        response: Ok(InferResponse::stream_inprog(tok, count,
                                            text_opt)),
                                    };
                                    proof {
                                        assert(em@ =~~= entry_step(e0, ctx).1[0]);
                                    }
                                    emissions.push(em);
                                    kept.push(e);
                                    proof {
                                        assert(emissions@.map_values(|em2: Emission| em2@)
                                            =~= pre_em + entry_step(e0, ctx).1);
                                        assert(kept@.map_values(|e2: Entry| e2@)
                                            =~= pre_kept + opt_seq(entry_step(e0, ctx).0));
                                        assert(completed_ids@ =~= pre_c + entry_step(e0, ctx).2);
                                    }
                                }
                            } else if e.generated_tokens % 16 == 0 && contains_id_vec(closed, e.id) {
                                completed_ids.push(e.id);
                                proof {
                                    assert(emissions@.map_values(|em2: Emission| em2@)
                                        =~= pre_em + entry_step(e0, ctx).1);
                                    assert(kept@.map_values(|e2: Entry| e2@)
                                        =~= pre_kept + opt_seq(entry_step(e0, ctx).0));
                                    assert(completed_ids@ =~= pre_c + entry_step(e0, ctx).2);
                                }
                            } else {
                                kept.push(e);
                                proof {
                                    assert(emissions@.map_values(|em2: Emission| em2@)
                                        =~= pre_em + entry_step(e0, ctx).1);
                                    assert(kept@.map_values(|e2: Entry| e2@)
                                        =~= pre_kept + opt_seq(entry_step(e0, ctx).0));
                                    assert(completed_ids@ =~= pre_c + entry_step(e0, ctx).2);
                                }
                            }
                        },
                    }
                },
                None => {
                    proof {
                        assert(!has_tok(ctx.outputs, e0.id));
                    }
                    match find_error(errors, e.id) {
                        Some(ei) => {
                            proof {
                                assert(errors@[ei as int]@ == ctx.errors[ei as int]);
                                assert(has_err(ctx.errors, e0.id));
                                let wi = err_idx(ctx.errors, e0.id);
                                if wi != ei {
                                    assert(errors@[wi].request_id
                                        != errors@[ei as int].request_id);
                                }
                                assert(err_idx(ctx.errors, e0.id) == ei as int);
                            }
                            let msg: Vec<u8> = if e.generated_tokens == 0 {
                                copy_bytes(&errors[ei].message)
                            } else {
                                build_prefixed_error_message(e.generated_tokens,
                                    &errors[ei].message)
                            };
                            let em = Emission {
                                request_id: e.id,
                                response: Err(ClientError::Generation(msg)),
                            };
                            proof {
                                assert(em@ =~~= entry_step(e0, ctx).1[0]);
                            }
                            emissions.push(em);
                            completed_ids.push(e.id);
                            proof {
                                assert(emissions@.map_values(|em2: Emission| em2@)
                                    =~= pre_em + entry_step(e0, ctx).1);
                                assert(kept@.map_values(|e2: Entry| e2@)
                                    =~= pre_kept + opt_seq(entry_step(e0, ctx).0));
                                assert(completed_ids@ =~= pre_c + entry_step(e0, ctx).2);
                            }
                        },
                        None => {
                            proof {
                                assert(!has_err(ctx.errors, e0.id));
                            }
                            kept.push(e);
                            proof {
                                assert(emissions@.map_values(|em2: Emission| em2@)
                                    =~= pre_em + entry_step(e0, ctx).1);
                                assert(kept@.map_values(|e2: Entry| e2@)
                                    =~= pre_kept + opt_seq(entry_step(e0, ctx).0));
                                assert(completed_ids@ =~= pre_c + entry_step(e0, ctx).2);
                            }
                        },
                    }
                },
            }
            i = i + 1;
            proof {
                assert(old_entries.take(i as int).drop_last() =~= old_entries.take(i - 1));
                assert(old_entries.take(i as int).last() == e0);
                assert(step_seq(old_entries.take(i as int), ctx).0
                    =~= step_seq(old_entries.take(i - 1), ctx).0 + opt_seq(entry_step(e0, ctx).0));
                assert(step_seq(old_entries.take(i as int), ctx).1
                    =~= step_seq(old_entries.take(i - 1), ctx).1 + entry_step(e0, ctx).1);
                assert(step_seq(old_entries.take(i as int), ctx).2
                    =~= step_seq(old_entries.take(i - 1), ctx).2 + entry_step(e0, ctx).2);
                assert(kept@.map_values(|e2: Entry| e2@) =~= step_seq(
                    old_entries.take(i as int), ctx).0);
                assert(emissions@.map_values(|em: Emission| em@) =~= old_emissions + step_seq(
                    old_entries.take(i as int), ctx).1);
                assert(completed_ids@ =~= step_seq(old_entries.take(i as int), ctx).2);
            }
        }
        self.entries.entries = kept;
        proof {
            assert(old_entries.take(total as int) =~= old_entries);
            assert(self.entries@ =~= step_seq(old_entries, ctx).0);
            assert(completed_ids@ =~= step_seq(old_entries, ctx).2);
            lemma_step_seq_inv(old_entries, ctx);
        }
        let all: usize = outputs.len();
        if completed_ids.len() == all {
            None
        } else {
            Some(completed_ids)
        }
    }
}

/// A failed call removes entries and never invents one; what it keeps
/// stays sorted and well formed.
pub proof fn lemma_fail_seq_inv(s: Seq<EntryView>, start_id: Option<u64>, err: ClientErrorView)
    requires
        forall|a: int, b: int| 0 <= a < b < s.len() ==> s[a].id < s[b].id,
    ensures
        forall|e: EntryView| #[trigger] fail_seq(s, start_id, err).0.contains(e)
            ==> s.contains(e),
        forall|a: int, b: int| 0 <= a < b < fail_seq(s, start_id, err).0.len()
            ==> fail_seq(s, start_id, err).0[a].id < fail_seq(s, start_id, err).0[b].id,
    decreases s.len(),
{
    if s.len() > 0 {
        assert forall|a: int, b: int| 0 <= a < b < s.drop_last().len() implies
            s.drop_last()[a].id < s.drop_last()[b].id by {
            assert(s.drop_last()[a] == s[a]);
            assert(s.drop_last()[b] == s[b]);
        }
        lemma_fail_seq_inv(s.drop_last(), start_id, err);
        let prefix = fail_seq(s.drop_last(), start_id, err);
        let whole = fail_seq(s, start_id, err);
        assert forall|e: EntryView| #[trigger] whole.0.contains(e) implies s.contains(e) by {
            let i = choose|i: int| 0 <= i < whole.0.len() && whole.0[i] == e;
            if i < prefix.0.len() {
                assert(prefix.0[i] == e);
                assert(prefix.0.contains(e));
                assert(s.drop_last().contains(e));
                let j = choose|j: int| 0 <= j < s.drop_last().len() && s.drop_last()[j] == e;
                assert(s[j] == e);
            } else {
                assert(e == s.last());
            }
        }
        if retained_on_failure(s.last(), start_id) {
            assert forall|a: int, b: int| 0 <= a < b < whole.0.len() implies
                whole.0[a].id < whole.0[b].id by {
                if b < prefix.0.len() {
                    assert(whole.0[a] == prefix.0[a]);
                    assert(whole.0[b] == prefix.0[b]);
                } else {
                    assert(whole.0[b] == s.last());
                    assert(whole.0[a] == prefix.0[a]);
                    assert(prefix.0.contains(prefix.0[a]));
                    assert(s.drop_last().contains(prefix.0[a]));
                    let k = choose|k: int| 0 <= k < s.drop_last().len()
                        && s.drop_last()[k] == prefix.0[a];
                    assert(s.drop_last()[k] == s[k]);
                    assert(s[k].id < s[s.len() - 1].id);
                }
            }
        } else {
            assert(whole.0 =~= prefix.0);
        }
    }
}

/// One step keeps a retained entry well formed, live, stamped, and under
/// its own id.
pub proof fn lemma_entry_step_props(e: EntryView, ctx: StepCtx)
    requires
        e.wf(),
        e.live(),
        e.batch_time is Some,
    ensures
        entry_step(e, ctx).0 matches Some(e2) ==> {
            &&& e2.wf()
            &&& e2.live()
            &&& e2.batch_time is Some
            &&& e2.id == e.id
        },
{
    if has_tok(ctx.outputs, e.id) {
        let i = tok_idx(ctx.outputs, e.id);
        let tok = ctx.outputs[i];
        let dec = ctx.decs[i];
        if !(dec is Failed) {
            let e2 = with_token(e, tok, dec);
            let reason = reason_of(e, tok, dec, ctx);
            if reason == StopReason::NotFinished {
                assert(e2.generated_tokens < e2.request.parameters.max_new_tokens);
            }
        }
    }
}

/// One step keeps the in-flight map sorted; retained entries keep the map
/// invariant.
pub proof fn lemma_step_seq_inv(s: Seq<EntryView>, ctx: StepCtx)
    requires
        forall|a: int, b: int| 0 <= a < b < s.len() ==> s[a].id < s[b].id,
        forall|a: int| 0 <= a < s.len() ==> (#[trigger] s[a]).wf(),
        forall|a: int| 0 <= a < s.len() ==> (#[trigger] s[a]).live(),
        forall|a: int| 0 <= a < s.len() ==> (#[trigger] s[a]).batch_time is Some,
    ensures
        forall|a: int, b: int| 0 <= a < b < step_seq(s, ctx).0.len()
            ==> step_seq(s, ctx).0[a].id < step_seq(s, ctx).0[b].id,
        forall|a: int| 0 <= a < step_seq(s, ctx).0.len()
            ==> (#[trigger] step_seq(s, ctx).0[a]).wf(),
        forall|a: int| 0 <= a < step_seq(s, ctx).0.len()
            ==> (#[trigger] step_seq(s, ctx).0[a]).live(),
        forall|a: int| 0 <= a < step_seq(s, ctx).0.len()
            ==> (#[trigger] step_seq(s, ctx).0[a]).batch_time is Some,
        forall|a: int| 0 <= a < step_seq(s, ctx).0.len()
            ==> exists|j: int| 0 <= j < s.len()
                && (#[trigger] step_seq(s, ctx).0[a]).id == s[j].id,
    decreases s.len(),
{
    if s.len() > 0 {
        assert forall|a: int, b: int| 0 <= a < b < s.drop_last().len() implies
            s.drop_last()[a].id < s.drop_last()[b].id by {
            assert(s.drop_last()[a] == s[a]);
            assert(s.drop_last()[b] == s[b]);
        }
        assert forall|a: int| 0 <= a < s.drop_last().len() implies
            ((#[trigger] s.drop_last()[a]).wf() && s.drop_last()[a].live()
                && s.drop_last()[a].batch_time is Some) by {
            assert(s.drop_last()[a] == s[a]);
        }
        lemma_step_seq_inv(s.drop_last(), ctx);
        lemma_entry_step_props(s.last(), ctx);
        let prefix = step_seq(s.drop_last(), ctx);
        let whole = step_seq(s, ctx);
        let last = entry_step(s.last(), ctx);
        assert forall|a: int| 0 <= a < whole.0.len() implies
            ((#[trigger] whole.0[a]).wf() && whole.0[a].live() && whole.0[a].batch_time is Some
                && exists|j: int| 0 <= j < s.len() && whole.0[a].id == s[j].id) by {
            if a < prefix.0.len() {
                assert(whole.0[a] == prefix.0[a]);
                let j = choose|j: int| 0 <= j < s.drop_last().len()
                    && prefix.0[a].id == s.drop_last()[j].id;
                assert(s.drop_last()[j] == s[j]);
                assert(whole.0[a].id == s[j].id);
            } else {
                assert(last.0 matches Some(e2) && whole.0[a] == e2);
                assert(whole.0[a].id == s[s.len() - 1].id);
            }
        }
        assert forall|a: int, b: int| 0 <= a < b < whole.0.len() implies
            whole.0[a].id < whole.0[b].id by {
            if b < prefix.0.len() {
                assert(whole.0[a] == prefix.0[a]);
                assert(whole.0[b] == prefix.0[b]);
            } else {
                assert(whole.0[a] == prefix.0[a]);
                let j = choose|j: int| 0 <= j < s.drop_last().len()
                    && prefix.0[a].id == s.drop_last()[j].id;
                assert(s.drop_last()[j] == s[j]);
                assert(s[j].id < s[s.len() - 1].id);
                assert(last.0 matches Some(e2) && whole.0[b] == e2);
            }
        }
    }
}

/// Input-token distribution keeps every entry, its id, and the map
/// invariant: only `input_tokens` changes.
pub proof fn lemma_input_seq_effect_inv(s: Seq<EntryView>, inputs: Seq<InputTokensView>)
    ensures
        input_seq_effect(s, inputs).0.len() == s.len(),
        forall|i: int| 0 <= i < s.len() ==> #[trigger] input_seq_effect(s, inputs).0[i]
            == input_step(s[i], inputs).0,
        forall|i: int| 0 <= i < s.len() ==> (#[trigger] input_seq_effect(s, inputs).0[i]).id
            == s[i].id,
        forall|i: int| 0 <= i < s.len() ==> ((#[trigger] input_seq_effect(s, inputs).0[i]).wf()
            <==> s[i].wf()),
        forall|i: int| 0 <= i < s.len() ==> ((#[trigger] input_seq_effect(s, inputs).0[i]).live()
            <==> s[i].live()),
        forall|i: int| 0 <= i < s.len()
            ==> ((#[trigger] input_seq_effect(s, inputs).0[i]).batch_time is Some
                <==> s[i].batch_time is Some),
    decreases s.len(),
{
    if s.len() > 0 {
        lemma_input_seq_effect_inv(s.drop_last(), inputs);
        assert forall|i: int| 0 <= i < s.len() implies #[trigger] input_seq_effect(s, inputs).0[i]
            == input_step(s[i], inputs).0 by {
            if i < s.len() - 1 {
                assert(input_seq_effect(s, inputs).0[i]
                    == input_seq_effect(s.drop_last(), inputs).0[i]);
                assert(s.drop_last()[i] == s[i]);
            } else {
                assert(s.last() == s[i]);
            }
        }
    }
}

// ---------------------------------------------------------------------------
// One whole backend call.
// ---------------------------------------------------------------------------

/// The outcome of one `prefill` or `next_token` backend call, as data: a
/// response, "nothing live remains", or an error that loses the batches
/// covered by the call.
pub enum StepOutcome {
    Success {
        tokens: Vec<Token>,
        /// What the incremental detokenizer produced for each token.
        decs: Vec<TokenDecode>,
        input_tokens: Vec<InputTokens>,
        errors: Vec<GenerateError>,
        next_batch_id: u64,
    },
    Exhausted,
    Failure(ClientError),
}

/// The in-flight map after a successful backend call: input tokens
/// distributed, then one generated token applied per entry.
pub open spec fn success_entries(s: Seq<EntryView>, ins: Seq<InputTokensView>, ctx: StepCtx)
    -> Seq<EntryView> {
    step_seq(input_seq_effect(s, ins).0, ctx).0
}

/// The events emitted by a successful backend call, input-info events
/// first.
pub open spec fn success_emissions(s: Seq<EntryView>, ins: Seq<InputTokensView>, ctx: StepCtx)
    -> Seq<EmissionView> {
    input_seq_effect(s, ins).1 + step_seq(input_seq_effect(s, ins).0, ctx).1
}

/// The ids completed by a successful backend call.
pub open spec fn success_completed(s: Seq<EntryView>, ins: Seq<InputTokensView>, ctx: StepCtx)
    -> Seq<u64> {
    step_seq(input_seq_effect(s, ins).0, ctx).2
}

impl TokenProcessor {
    /// Apply the outcome of one backend call: distribute input tokens,
    /// process generated tokens and per-entry errors, update the health
    /// flag, and report the cached batch the backend kept, with the ids it
    /// may prune. On a failed call, terminate the covered entries
    /// (`id >= start_id` if given, all otherwise) and drop the batch.
    #[verifier::rlimit(60)]
    pub fn process_step_result(&mut self, outcome: &StepOutcome, start_id: Option<u64>, now: u64,
        closed: &Vec<u64>, emissions: &mut Vec<Emission>) -> (r: Option<CachedBatch>)
        requires
            old(self).inv(),
            outcome matches StepOutcome::Success { tokens, decs, input_tokens, errors,
                next_batch_id } ==> {
                let ins = input_tokens@.map_values(|it: InputTokens| it@);
                let dvs = decs@.map_values(|d: TokenDecode| d@);
                &&& decs@.len() == tokens@.len()
                &&& (forall|i: int, j: int| 0 <= i < j < ins.len()
                    ==> ins[i].request_id != ins[j].request_id)
                &&& (forall|i: int| 0 <= i < ins.len()
                    ==> has_id(old(self).entries@, #[trigger] ins[i].request_id))
                &&& (forall|i: int| 0 <= i < ins.len() ==> entry_of(old(self).entries@,
                    #[trigger] ins[i].request_id).generated_tokens == 0)
                &&& (forall|i: int| 0 <= i < ins.len()
                    ==> (#[trigger] ins[i]).tokens.len() <= u32::MAX)
                &&& (forall|i: int, j: int| 0 <= i < j < tokens@.len()
                    ==> tokens@[i].request_id != tokens@[j].request_id)
                &&& (forall|i: int| 0 <= i < tokens@.len()
                    ==> has_id(old(self).entries@, #[trigger] tokens@[i].request_id))
                &&& (forall|i: int| 0 <= i < tokens@.len() ==> dec_consistent(entry_of(
                    old(self).entries@, #[trigger] tokens@[i].request_id), dvs[i]))
                &&& (forall|i: int, j: int| 0 <= i < j < errors@.len()
                    ==> errors@[i].request_id != errors@[j].request_id)
                &&& (forall|i: int| 0 <= i < errors@.len()
                    ==> has_id(old(self).entries@, #[trigger] errors@[i].request_id))
                &&& (forall|i: int| 0 <= i < errors@.len()
                    ==> !has_tok(tokens@, #[trigger] errors@[i].request_id))
            },
        ensures
            final(self).inv(),
            final(self).eos_token_id == old(self).eos_token_id,
            final(self).seq2seq == old(self).seq2seq,
            outcome matches StepOutcome::Success { tokens, decs, input_tokens, errors,
                next_batch_id } ==> {
                let ins = input_tokens@.map_values(|it: InputTokens| it@);
                let ctx = old(self).step_ctx(tokens@, decs@.map_values(|d: TokenDecode| d@),
                    errors@.map_values(|g: GenerateError| g@), now, closed@);
                &&& final(self).entries@ == success_entries(old(self).entries@, ins, ctx)
                &&& final(emissions)@.map_values(|em: Emission| em@) == old(emissions)@.map_values(
                    |em: Emission| em@) + success_emissions(old(self).entries@, ins, ctx)
                &&& final(self).generation_healthy
                &&& (r matches Some(cb) && cb@ == (crate::types::CachedBatchView {
                    batch_id: *next_batch_id,
                    status: if success_completed(old(self).entries@, ins, ctx).len()
                        == tokens@.len() {
                        None
                    } else {
                        Some(success_completed(old(self).entries@, ins, ctx))
                    },
                }))
            },
            outcome is Exhausted ==> {
                &&& *final(self) == *old(self)
                &&& final(emissions)@ == old(emissions)@
                &&& r is None
            },
            outcome matches StepOutcome::Failure(err) ==> {
                &&& final(self).entries@ == fail_seq(old(self).entries@, start_id, err@).0
                &&& final(emissions)@.map_values(|em: Emission| em@) == old(emissions)@.map_values(
                    |em: Emission| em@) + fail_seq(old(self).entries@, start_id, err@).1
                &&& !final(self).generation_healthy
                &&& r is None
            },
    {
        match outcome {
            StepOutcome::Success { tokens, decs, input_tokens, errors, next_batch_id } => {
                let ghost old_entries: Seq<EntryView> = self.entries@;
                let ghost ins: Seq<InputTokensView> = input_tokens@.map_values(
                    |it: InputTokens| it@);
                let ghost ctx: StepCtx = self.step_ctx(tokens@,
                    decs@.map_values(|d: TokenDecode| d@),
                    errors@.map_values(|g: GenerateError| g@), now, closed@);
                proof {
                    assert forall|i: int| 0 <= i < input_tokens@.len() implies
                        (#[trigger] input_tokens@[i])@ == ins[i] by {
                    }
                }
                self.process_input_tokens(input_tokens, emissions);
                proof {
                    lemma_input_seq_effect_inv(old_entries, ins);
                    let mid = self.entries@;
                    assert(mid == input_seq_effect(old_entries, ins).0);
                    assert forall|id: u64| #[trigger] has_id(old_entries, id) implies
                        (has_id(mid, id) && entry_of(mid, id).generated_tokens
                            == entry_of(old_entries, id).generated_tokens
                        && entry_of(mid, id).request == entry_of(old_entries, id).request
                        && entry_of(mid, id).output == entry_of(old_entries, id).output) by {
                        let i = choose|i: int| 0 <= i < old_entries.len()
                            && old_entries[i].id == id;
                        assert(mid[i].id == old_entries[i].id);
                        assert(has_id(mid, id));
                        let ci = idx_of(old_entries, id);
                        if ci != i {
                            assert(old_entries[ci].id != old_entries[i].id);
                        }
                        assert(entry_of(old_entries, id) == old_entries[i]);
                        let mi = idx_of(mid, id);
                        if mi != i {
                            assert(mid[mi].id == mid[i].id);
                            assert(mid[mi].id == input_seq_effect(old_entries, ins).0[mi].id);
                            assert(old_entries[mi].id != old_entries[i].id);
                        }
                        assert(entry_of(mid, id) == mid[i]);
                        assert(mid[i] == input_step(old_entries[i], ins).0);
                    }
                    assert forall|i: int| 0 <= i < tokens@.len() implies dec_consistent(
                        entry_of(mid, #[trigger] tokens@[i].request_id),
                        decs@.map_values(|d: TokenDecode| d@)[i]) by {
                        let id = tokens@[i].request_id;
                        assert(dec_consistent(entry_of(old_entries, id),
                            decs@.map_values(|d: TokenDecode| d@)[i]));
                        assert(entry_of(mid, id).generated_tokens
                            == entry_of(old_entries, id).generated_tokens);
                    }
                }
                let completed: Option<Vec<u64>> = self.process_next_tokens(tokens, decs, errors,
                    now, closed, emissions);
                self.generation_healthy = true;
                let status: Option<RequestsStatus> = match completed {
                    Some(c) => Some(RequestsStatus { completed_ids: c }),
                    None => None,
                };
                let cb = CachedBatch { batch_id: *next_batch_id, status };
                proof {
                    assert(self.entries@ == success_entries(old_entries, ins, ctx));
                    assert(emissions@.map_values(|em: Emission| em@) =~= old(
                        emissions)@.map_values(|em: Emission| em@) + success_emissions(
                        old_entries, ins, ctx));
                }
                Some(cb)
            },
            StepOutcome::Exhausted => None,
            StepOutcome::Failure(err) => {
                self.generation_healthy = false;
                self.send_errors(err, start_id, emissions);
                None
            },
        }
    }
}

// ---------------------------------------------------------------------------
// Step-level laws.
// ---------------------------------------------------------------------------

/// Single-terminal delivery, entry level: one backend step emits at most
/// one event for an entry, always under the entry's id; the entry leaves
/// the map exactly when it is reported completed; a terminal event is
/// emitted only as the entry leaves, and a retained entry only ever gets an
/// in-progress event. (A cancelled entry leaves silently: its receiver is
/// gone, so nothing can be delivered.)
pub proof fn lemma_entry_step_single_terminal(e: EntryView, ctx: StepCtx)
    ensures
        entry_step(e, ctx).1.len() <= 1,
        forall|i: int| 0 <= i < entry_step(e, ctx).1.len()
            ==> (#[trigger] entry_step(e, ctx).1[i]).request_id == e.id,
        (entry_step(e, ctx).0 is None) <==> (entry_step(e, ctx).2 == seq![e.id]),
        (entry_step(e, ctx).0 is Some) ==> entry_step(e, ctx).2 == Seq::<u64>::empty(),
        forall|i: int| 0 <= i < entry_step(e, ctx).1.len()
            && (#[trigger] entry_step(e, ctx).1[i]).is_terminal()
            ==> entry_step(e, ctx).0 is None,
        entry_step(e, ctx).0 is Some ==> (forall|i: int| 0 <= i < entry_step(e, ctx).1.len()
            ==> !(#[trigger] entry_step(e, ctx).1[i]).is_terminal()),
{
    if entry_step(e, ctx).0 is Some {
        assert(entry_step(e, ctx).2 =~= Seq::<u64>::empty());
    } else {
        assert(entry_step(e, ctx).2 =~= seq![e.id]);
    }
}

/// Single-terminal delivery, map level: one backend step emits at most one
/// event per entry id over the whole in-flight map.
pub proof fn lemma_step_seq_single_terminal(s: Seq<EntryView>, ctx: StepCtx)
    requires
        forall|a: int, b: int| 0 <= a < b < s.len() ==> s[a].id != s[b].id,
    ensures
        forall|i: int, j: int| 0 <= i < j < step_seq(s, ctx).1.len()
            ==> step_seq(s, ctx).1[i].request_id != step_seq(s, ctx).1[j].request_id,
        forall|i: int| 0 <= i < step_seq(s, ctx).1.len()
            ==> exists|a: int| 0 <= a < s.len()
                && (#[trigger] step_seq(s, ctx).1[i]).request_id == s[a].id,
    decreases s.len(),
{
    if s.len() > 0 {
        assert forall|a: int, b: int| 0 <= a < b < s.drop_last().len() implies
            s.drop_last()[a].id != s.drop_last()[b].id by {
            assert(s.drop_last()[a] == s[a]);
            assert(s.drop_last()[b] == s[b]);
        }
        lemma_step_seq_single_terminal(s.drop_last(), ctx);
        lemma_entry_step_single_terminal(s.last(), ctx);
        let prefix = step_seq(s.drop_last(), ctx);
        let whole = step_seq(s, ctx);
        assert forall|i: int| 0 <= i < whole.1.len() implies
            exists|a: int| 0 <= a < s.len()
                && (#[trigger] whole.1[i]).request_id == s[a].id by {
            if i < prefix.1.len() {
                assert(whole.1[i] == prefix.1[i]);
                let a = choose|a: int| 0 <= a < s.drop_last().len()
                    && prefix.1[i].request_id == s.drop_last()[a].id;
                assert(s.drop_last()[a] == s[a]);
                assert(whole.1[i].request_id == s[a].id);
            } else {
                assert(whole.1[i] == entry_step(s.last(), ctx).1[i - prefix.1.len()]);
                assert(whole.1[i].request_id == s[s.len() - 1].id);
            }
        }
        assert forall|i: int, j: int| 0 <= i < j < whole.1.len() implies
            whole.1[i].request_id != whole.1[j].request_id by {
            if j < prefix.1.len() {
                assert(whole.1[i] == prefix.1[i]);
                assert(whole.1[j] == prefix.1[j]);
            } else {
                assert(whole.1[j].request_id == s[s.len() - 1].id);
                assert(whole.1[i] == prefix.1[i]);
                let a = choose|a: int| 0 <= a < s.drop_last().len()
                    && prefix.1[i].request_id == s.drop_last()[a].id;
                assert(s.drop_last()[a] == s[a]);
                assert(s[a].id != s[s.len() - 1].id);
            }
        }
    }
}

/// Monotone generation count, entry level: a step never decreases an
/// entry's token counter, and every response event it emits for the entry
/// carries the updated count.
pub proof fn lemma_entry_step_monotone(e: EntryView, ctx: StepCtx)
    requires
        e.wf(),
        e.live(),
    ensures
        entry_step(e, ctx).0 matches Some(e2)
            ==> e2.generated_tokens >= e.generated_tokens,
        has_tok(ctx.outputs, e.id) && !(ctx.decs[tok_idx(ctx.outputs, e.id)] is Failed)
            ==> (forall|i: int| 0 <= i < entry_step(e, ctx).1.len()
                ==> ((#[trigger] entry_step(e, ctx).1[i]).response matches Ok(resp)
                    && resp.gen_token_count == e.generated_tokens + 1)),
{
}


} // verus!
