//! Response events delivered on per-entry reply channels, and their
//! spec-level constructions.

use vstd::prelude::*;
use crate::types::{StopReason, Times, Token, ClientError, ClientErrorView};
use crate::entry::{Entry, EntryView};
use crate::bytes::append_bytes;

verus! {

/// Token metadata after detokenization.
#[derive(Debug)]
pub struct TokenInfo {
    pub text: Vec<u8>,
    pub token_id: u32,
}

impl View for TokenInfo {
    type V = TokenInfoView;

    open spec fn view(&self) -> TokenInfoView {
        TokenInfoView { text: self.text@, token_id: self.token_id }
    }
}

#[verifier::ext_equal]
pub ghost struct TokenInfoView {
    pub text: Seq<u8>,
    pub token_id: u32,
}

/// Token metadata, first as ids from the backend, then decoded to text
/// for the outward response.
#[derive(Debug)]
pub enum TokenInfos {
    WithIds(Vec<Token>),
    WithStrings(Vec<TokenInfo>),
}

impl View for TokenInfos {
    type V = TokenInfosView;

    open spec fn view(&self) -> TokenInfosView {
        match self {
            TokenInfos::WithIds(toks) => TokenInfosView::WithIds(toks@),
            TokenInfos::WithStrings(tis) => TokenInfosView::WithStrings(
                tis@.map_values(|t: TokenInfo| t@),
            ),
        }
    }
}

#[verifier::ext_equal]
pub ghost enum TokenInfosView {
    WithIds(Seq<Token>),
    WithStrings(Seq<TokenInfoView>),
}

impl TokenInfosView {
    pub open spec fn is_empty_spec(self) -> bool {
        match self {
            TokenInfosView::WithIds(s) => s.len() == 0,
            TokenInfosView::WithStrings(s) => s.len() == 0,
        }
    }

    /// The decoded form, given the text of each token in order.
    pub open spec fn decoded(self, texts: Seq<Seq<u8>>) -> TokenInfosView {
        match self {
            TokenInfosView::WithIds(toks) => TokenInfosView::WithStrings(
                Seq::new(toks.len(), |i: int| TokenInfoView {
                    text: texts[i],
                    token_id: toks[i].token_id,
                }),
            ),
            TokenInfosView::WithStrings(tis) => TokenInfosView::WithStrings(tis),
        }
    }
}

impl TokenInfos {
    /// The initial, undecoded empty collection.
    pub fn empty() -> (r: TokenInfos)
        ensures
            r@ == TokenInfosView::WithIds(Seq::<Token>::empty()),
    {
        let r = TokenInfos::WithIds(Vec::new());
        assert(r@ =~= TokenInfosView::WithIds(Seq::<Token>::empty()));
        r
    }

    pub fn clear(&mut self)
        ensures
            final(self)@.is_empty_spec(),
            final(self)@ is WithIds <==> old(self)@ is WithIds,
    {
        match self {
            TokenInfos::WithStrings(tis) => {
                tis.clear();
                assert(self@ =~= TokenInfosView::WithStrings(Seq::<TokenInfoView>::empty()));
            },
            TokenInfos::WithIds(tis) => {
                tis.clear();
            },
        }
    }

    pub fn is_empty(&self) -> (r: bool)
        ensures
            r == self@.is_empty_spec(),
    {
        match self {
            TokenInfos::WithStrings(tis) => tis.len() == 0,
            TokenInfos::WithIds(tis) => tis.len() == 0,
        }
    }

    /// The decoded metadata, or nothing if decoding never happened.
    pub fn to_final_vec(self) -> (r: Vec<TokenInfo>)
        ensures
            self@ matches TokenInfosView::WithStrings(tis)
                ==> r@.map_values(|t: TokenInfo| t@) == tis,
            self@ is WithIds ==> r@.len() == 0,
    {
        match self {
            TokenInfos::WithStrings(tis) => tis,
            TokenInfos::WithIds(_) => Vec::new(),
        }
    }

    /// One token's metadata given its decoded text.
    pub fn decode_token_info(with_ids: &Token, text: Vec<u8>) -> (r: TokenInfo)
        ensures
            r@ == (TokenInfoView { text: text@, token_id: with_ids.token_id }),
    {
        TokenInfo { text, token_id: with_ids.token_id }
    }

    /// Replace token ids with decoded metadata; `texts` carries the decoded
    /// text of each token, in order.
    pub fn decode(&mut self, texts: Vec<Vec<u8>>)
        requires
            old(self)@ matches TokenInfosView::WithIds(toks) ==> texts@.len() == toks.len(),
        ensures
            final(self)@ == old(self)@.decoded(texts.deep_view()),
    {
        let ghost texts_view: Seq<Seq<u8>> = texts.deep_view();
        match self {
            TokenInfos::WithIds(toks) => {
                let mut tis: Vec<TokenInfo> = Vec::new();
                let n: usize = toks.len();
                let mut texts = texts;
                let mut j: usize = 0;
                while j < n
                    invariant
                        n == toks@.len(),
                        texts_view.len() == n,
                        0 <= j <= n,
                        texts@.len() == n - j,
                        forall|k: int| 0 <= k < n - j ==> texts@[k]@ == texts_view[j + k],
                        tis@.len() == j,
                        forall|i: int| 0 <= i < j ==> (#[trigger] tis@[i])@
                            == (TokenInfoView { text: texts_view[i], token_id: toks@[i].token_id }),
                    decreases n - j,
                {
                    assert(texts@[0]@ == texts_view[j as int]);
                    let ghost prev_texts: Seq<Vec<u8>> = texts@;
                    let text = texts.remove(0);
                    assert(text@ == texts_view[j as int]);
                    assert forall|k: int| 0 <= k < n - (j + 1) implies
                        texts@[k]@ == texts_view[j + 1 + k] by {
                        assert(texts@[k] == prev_texts[k + 1]);
                        assert(prev_texts[k + 1]@ == texts_view[j + (k + 1)]);
                    }
                    tis.push(TokenInfo { text, token_id: toks[j].token_id });
                    j = j + 1;
                }
                assert(tis@.map_values(|t: TokenInfo| t@) =~= Seq::new(n as nat,
                    |i: int| TokenInfoView { text: texts_view[i], token_id: toks@[i].token_id }));
                *self = TokenInfos::WithStrings(tis);
                assert(self@ =~= old(self)@.decoded(texts_view));
            },
            TokenInfos::WithStrings(_) => {
                assert(self@ =~= old(self)@.decoded(texts_view));
            },
        }
    }
}

/// The timestamps attached to a terminal response.
pub open spec fn times_of(e: EntryView, now: u64) -> Times
    recommends
        e.batch_time is Some,
{
    Times {
        queued: e.queue_time,
        start: match e.batch_time {
            Some(t) => t,
            None => 0,
        },
        end: now,
    }
}

/// An event on a reply channel: an input-info event, an in-progress event
/// or a terminal response.
#[derive(Debug)]
pub struct InferResponse {
    pub output_text: Vec<u8>,
    /// Whether `output_text` already carries the decoded text, or token ids
    /// still await deferred detokenization.
    pub is_decoded: bool,
    /// Total generated tokens so far.
    pub gen_token_count: u32,
    /// Generated token ids; set only for unary responses.
    pub token_ids: Vec<u32>,
    /// At most one token in the streaming case; set in the unary case only
    /// if extra token info was requested.
    pub tokens: TokenInfos,
    pub in_tokens: TokenInfos,
    pub reason: StopReason,
    pub in_token_count: u32,
    pub times: Option<Times>,
    /// Random seed used, if sampling.
    pub seed: u64,
}

impl View for InferResponse {
    type V = InferResponseView;

    open spec fn view(&self) -> InferResponseView {
        InferResponseView {
            output_text: self.output_text@,
            is_decoded: self.is_decoded,
            gen_token_count: self.gen_token_count,
            token_ids: self.token_ids@,
            tokens: self.tokens@,
            in_tokens: self.in_tokens@,
            reason: self.reason,
            in_token_count: self.in_token_count,
            times: self.times,
            seed: self.seed,
        }
    }
}

#[verifier::ext_equal]
pub ghost struct InferResponseView {
    pub output_text: Seq<u8>,
    pub is_decoded: bool,
    pub gen_token_count: u32,
    pub token_ids: Seq<u32>,
    pub tokens: TokenInfosView,
    pub in_tokens: TokenInfosView,
    pub reason: StopReason,
    pub in_token_count: u32,
    pub times: Option<Times>,
    pub seed: u64,
}

impl InferResponseView {
    /// The all-default event every construction starts from.
    pub open spec fn empty_spec() -> InferResponseView {
        InferResponseView {
            output_text: Seq::<u8>::empty(),
            is_decoded: false,
            gen_token_count: 0,
            token_ids: Seq::<u32>::empty(),
            tokens: TokenInfosView::WithIds(Seq::<Token>::empty()),
            in_tokens: TokenInfosView::WithIds(Seq::<Token>::empty()),
            reason: StopReason::NotFinished,
            in_token_count: 0,
            times: None,
            seed: 0,
        }
    }

    /// The dedicated input-token-info event of a streaming entry.
    pub open spec fn stream_input_info_spec(in_tokens: Seq<Token>) -> InferResponseView {
        InferResponseView {
            in_token_count: in_tokens.len() as u32,
            in_tokens: TokenInfosView::WithIds(in_tokens),
            is_decoded: true,
            ..Self::empty_spec()
        }
    }

    /// An in-progress streaming event.
    pub open spec fn stream_inprog_spec(token: Token, count: u32, text: Option<Seq<u8>>)
        -> InferResponseView {
        InferResponseView {
            is_decoded: text is Some,
            output_text: match text {
                Some(t) => t,
                None => Seq::<u8>::empty(),
            },
            gen_token_count: count,
            tokens: TokenInfosView::WithIds(seq![token]),
            ..Self::empty_spec()
        }
    }

    /// The terminal streaming event.
    pub open spec fn stream_final_spec(token: Token, text: Option<Seq<u8>>, e: EntryView,
        reason: StopReason, now: u64) -> InferResponseView {
        InferResponseView {
            is_decoded: text is Some,
            output_text: match text {
                Some(t) => t,
                None => Seq::<u8>::empty(),
            },
            gen_token_count: e.generated_tokens,
            tokens: TokenInfosView::WithIds(seq![token]),
            reason,
            times: Some(times_of(e, now)),
            seed: match e.request.parameters.seed {
                Some(s) => s,
                None => 0,
            },
            ..Self::empty_spec()
        }
    }

    /// The accumulated output text of a unary terminal response.
    pub open spec fn unary_text_spec(e: EntryView, seq2seq: bool) -> Seq<u8> {
        let head = if e.request.parameters.include_input_text {
            if seq2seq {
                e.request.inputs + seq![10u8, 10u8]
            } else {
                e.request.inputs
            }
        } else {
            Seq::<u8>::empty()
        };
        match e.output {
            Some(out) => if head.len() == 0 {
                out
            } else {
                head + out
            },
            None => head,
        }
    }

    /// The unary terminal response.
    pub open spec fn unary_spec(e: EntryView, seq2seq: bool, reason: StopReason, now: u64)
        -> InferResponseView {
        InferResponseView {
            output_text: Self::unary_text_spec(e, seq2seq),
            is_decoded: e.output is Some,
            gen_token_count: e.generated_tokens,
            token_ids: e.token_ids,
            tokens: TokenInfosView::WithIds(e.tokens),
            in_tokens: TokenInfosView::WithIds(e.input_tokens),
            reason,
            times: Some(times_of(e, now)),
            in_token_count: e.input_length,
            seed: match e.request.parameters.seed {
                Some(s) => s,
                None => 0,
            },
        }
    }

    /// The terminal response of an entry whose deadline expired before
    /// generation started. The input token count is reported only in the
    /// unary case: a streaming entry has already received it.
    pub open spec fn early_timeout_spec(e: EntryView, now: u64) -> InferResponseView {
        InferResponseView {
            reason: StopReason::TimeLimit,
            is_decoded: true,
            in_token_count: if !e.stream {
                e.input_length
            } else {
                0
            },
            times: Some(times_of(e, now)),
            ..Self::empty_spec()
        }
    }
}

impl InferResponse {
    /// The all-default event.
    pub fn empty() -> (r: InferResponse)
        ensures
            r@ == InferResponseView::empty_spec(),
    {
        let r = InferResponse {
            output_text: Vec::new(),
            is_decoded: false,
            gen_token_count: 0,
            token_ids: Vec::new(),
            tokens: TokenInfos::empty(),
            in_tokens: TokenInfos::empty(),
            reason: StopReason::NotFinished,
            in_token_count: 0,
            times: None,
            seed: 0,
        };
        assert(r@ =~= InferResponseView::empty_spec());
        r
    }

    /// A dedicated message with the input token info, sent first on a
    /// streaming channel.
    pub fn stream_input_info(in_tokens: Vec<Token>) -> (r: InferResponse)
        requires
            in_tokens@.len() <= u32::MAX,
        ensures
            r@ == InferResponseView::stream_input_info_spec(in_tokens@),
    {
        let mut r = InferResponse::empty();
        r.in_token_count = in_tokens.len() as u32;
        r.in_tokens = TokenInfos::WithIds(in_tokens);
        r.is_decoded = true;
        assert(r@ =~= InferResponseView::stream_input_info_spec(r.in_tokens->WithIds_0@));
        r
    }

    /// Response message for an in-progress stream.
    pub fn stream_inprog(token: Token, count: u32, text: Option<Vec<u8>>) -> (r: InferResponse)
        ensures
            r@ == InferResponseView::stream_inprog_spec(token, count, match text {
                Some(t) => Some(t@),
                None => None,
            }),
    {
        let ghost text_view: Option<Seq<u8>> = match text {
            Some(ref t) => Some(t@),
            None => None,
        };
        let mut r = InferResponse::empty();
        r.is_decoded = text.is_some();
        r.output_text = match text {
            Some(t) => t,
            None => Vec::new(),
        };
        r.gen_token_count = count;
        let mut tok_vec: Vec<Token> = Vec::new();
        tok_vec.push(token);
        r.tokens = TokenInfos::WithIds(tok_vec);
        assert(r@ =~= InferResponseView::stream_inprog_spec(token, count, text_view));
        r
    }

    /// Final stream response message.
    pub fn stream_final(token: Token, text: Option<Vec<u8>>, entry: &Entry,
        stop_reason: StopReason, now: u64) -> (r: InferResponse)
        ensures
            r@ == InferResponseView::stream_final_spec(token, match text {
                Some(t) => Some(t@),
                None => None,
            }, entry@, stop_reason, now),
    {
        let ghost text_view: Option<Seq<u8>> = match text {
            Some(ref t) => Some(t@),
            None => None,
        };
        let mut r = InferResponse::stream_inprog(token, entry.generated_tokens, text);
        r.reason = stop_reason;
        r.times = Some(Times {
            queued: entry.queue_time,
            start: match entry.batch_time {
                Some(t) => t,
                None => 0,
            },
            end: now,
        });
        r.seed = match entry.request.parameters.seed {
            Some(s) => s,
            None => 0,
        };
        assert(r@ =~= InferResponseView::stream_final_spec(token, text_view, entry@, stop_reason,
            now));
        r
    }

    /// Unary terminal response message; consumes the entry's accumulators.
    pub fn unary(entry: Entry, seq2seq: bool, stop_reason: StopReason, now: u64)
        -> (r: InferResponse)
        ensures
            r@ == InferResponseView::unary_spec(entry@, seq2seq, stop_reason, now),
    {
        let ghost e_view: EntryView = entry@;
        let mut text: Vec<u8> = Vec::new();
        if entry.request.parameters.include_input_text {
            append_bytes(&mut text, &entry.request.inputs);
            if seq2seq {
                text.push(10);
                text.push(10);
            }
        }
        let is_decoded: bool = entry.output.is_some();
        let text = match entry.output {
            Some(out) => {
                if text.len() == 0 {
                    out
                } else {
                    let mut text = text;
                    append_bytes(&mut text, &out);
                    text
                }
            },
            None => text,
        };
        let r = InferResponse {
            output_text: text,
            is_decoded,
            gen_token_count: entry.generated_tokens,
            token_ids: entry.token_ids,
            tokens: TokenInfos::WithIds(entry.tokens),
            in_tokens: TokenInfos::WithIds(entry.input_tokens),
            reason: stop_reason,
            times: Some(Times {
                queued: entry.queue_time,
                start: match entry.batch_time {
                    Some(t) => t,
                    None => 0,
                },
                end: now,
            }),
            in_token_count: entry.input_length,
            seed: match entry.request.parameters.seed {
                Some(s) => s,
                None => 0,
            },
        };
        assert(r@.output_text =~= InferResponseView::unary_text_spec(e_view, seq2seq));
        assert(r@ =~= InferResponseView::unary_spec(e_view, seq2seq, stop_reason, now));
        r
    }

    /// Terminal response when the time limit expired before generation
    /// started.
    pub fn early_timeout(entry: &Entry, now: u64) -> (r: InferResponse)
        ensures
            r@ == InferResponseView::early_timeout_spec(entry@, now),
    {
        let mut r = InferResponse::empty();
        r.reason = StopReason::TimeLimit;
        r.is_decoded = true;
        r.in_token_count = if !entry.stream {
            entry.input_length
        } else {
            0
        };
        r.times = Some(Times {
            queued: entry.queue_time,
            start: match entry.batch_time {
                Some(t) => t,
                None => 0,
            },
            end: now,
        });
        assert(r@ =~= InferResponseView::early_timeout_spec(entry@, now));
        r
    }

    /// Fill in the deferred decoded output text; `decoded` is the
    /// detokenization of `token_ids`.
    pub fn decode_output_text(&mut self, decoded: &Vec<u8>)
        ensures
            final(self)@ == (InferResponseView {
                output_text: if old(self)@.is_decoded {
                    old(self)@.output_text
                } else {
                    old(self)@.output_text + decoded@
                },
                is_decoded: true,
                ..old(self)@
            }),
    {
        if !self.is_decoded {
            append_bytes(&mut self.output_text, decoded);
            self.is_decoded = true;
        }
        assert(self@ =~= (InferResponseView {
            output_text: if old(self)@.is_decoded {
                old(self)@.output_text
            } else {
                old(self)@.output_text + decoded@
            },
            is_decoded: true,
            ..old(self)@
        }));
    }

    /// Replace generated and input token ids with decoded metadata.
    pub fn decode_token_infos(&mut self, gen_texts: Vec<Vec<u8>>, in_texts: Vec<Vec<u8>>)
        requires
            old(self)@.tokens matches TokenInfosView::WithIds(toks)
                ==> gen_texts@.len() == toks.len(),
            old(self)@.in_tokens matches TokenInfosView::WithIds(toks)
                ==> in_texts@.len() == toks.len(),
        ensures
            final(self)@ == (InferResponseView {
                tokens: old(self)@.tokens.decoded(gen_texts.deep_view()),
                in_tokens: old(self)@.in_tokens.decoded(in_texts.deep_view()),
                ..old(self)@
            }),
    {
        self.tokens.decode(gen_texts);
        self.in_tokens.decode(in_texts);
        assert(self@ =~= (InferResponseView {
            tokens: old(self)@.tokens.decoded(gen_texts.deep_view()),
            in_tokens: old(self)@.in_tokens.decoded(in_texts.deep_view()),
            ..old(self)@
        }));
    }
}

/// One event the core asks to be delivered on an entry's reply channel.
pub struct Emission {
    pub request_id: u64,
    pub response: Result<InferResponse, ClientError>,
}

impl View for Emission {
    type V = EmissionView;

    open spec fn view(&self) -> EmissionView {
        EmissionView {
            request_id: self.request_id,
            response: match self.response {
                Ok(ref r) => Ok(r@),
                Err(ref e) => Err(e@),
            },
        }
    }
}

#[verifier::ext_equal]
pub ghost struct EmissionView {
    pub request_id: u64,
    pub response: Result<InferResponseView, ClientErrorView>,
}

impl EmissionView {
    /// A delivered terminal event: an error, or a response carrying a
    /// terminal stop reason.
    pub open spec fn is_terminal(self) -> bool {
        match self.response {
            Ok(r) => r.reason != StopReason::NotFinished,
            Err(_) => true,
        }
    }
}

} // verus!
