//! Consumer-side adapter over an entry's streaming reply channel: per-item
//! bookkeeping, deferred detokenization when no stop sequences forced it in
//! the loop, the skip-empty rule, and the summary reported when the
//! consumer goes away.

use vstd::prelude::*;
use crate::types::{StopReason, Times, ClientError, InferError, InferErrorView, TokenDecode,
    GenerateRequest};
use crate::response::{InferResponse, InferResponseView, TokenInfos, TokenInfosView};
use crate::bytes::append_bytes;

verus! {

/// Accumulated output text of a stream: already decoded by the batching
/// loop (stop sequences present), or decoded here, off the hot path.
pub enum Accumulator {
    /// Stop sequences exist: the loop decodes; the adapter concatenates the
    /// text deltas it receives.
    Collected(Vec<u8>),
    /// No stop sequences: the adapter decodes token ids itself.
    Decoding(Vec<u8>),
}

impl View for Accumulator {
    type V = AccumulatorView;

    open spec fn view(&self) -> AccumulatorView {
        match self {
            Accumulator::Collected(b) => AccumulatorView::Collected(b@),
            Accumulator::Decoding(b) => AccumulatorView::Decoding(b@),
        }
    }
}

#[verifier::ext_equal]
pub ghost enum AccumulatorView {
    Collected(Seq<u8>),
    Decoding(Seq<u8>),
}

impl AccumulatorView {
    /// The text gathered so far, whichever way it was produced.
    pub open spec fn text(self) -> Seq<u8> {
        match self {
            AccumulatorView::Collected(b) => b,
            AccumulatorView::Decoding(b) => b,
        }
    }
}

impl Accumulator {
    /// The accumulated text, consuming the accumulator.
    pub fn into_string(self) -> (r: Vec<u8>)
        ensures
            r@ == self@.text(),
    {
        match self {
            Accumulator::Collected(b) => b,
            Accumulator::Decoding(b) => b,
        }
    }
}

/// State associated with one ongoing response stream.
pub struct ResponseStream {
    pub include_token_info: bool,
    pub token_count: u32,
    pub output: Accumulator,
    pub times: Option<Times>,
    pub stop_reason: StopReason,
    pub err: Option<InferError>,
}

impl ResponseStream {
    /// A stream adapter for a request, together with the first event of
    /// the stream: the input token count, the echoed input text if asked
    /// for, and the effective seed.
    pub fn start(request: &GenerateRequest, input_length: u32) -> (r: (ResponseStream,
        InferResponse))
        ensures
            r.0.include_token_info == request.parameters.include_gen_tokens,
            r.0.token_count == 0,
            r.0.output@ == (if request@.parameters.stop_seqs.len() > 0 {
                AccumulatorView::Collected(Seq::<u8>::empty())
            } else {
                AccumulatorView::Decoding(Seq::<u8>::empty())
            }),
            r.0.times is None,
            r.0.stop_reason == StopReason::NotFinished,
            r.0.err is None,
            r.1@ == (InferResponseView {
                in_token_count: input_length,
                output_text: if request@.parameters.include_input_text {
                    request@.inputs
                } else {
                    Seq::<u8>::empty()
                },
                seed: match request@.parameters.seed {
                    Some(s) => s,
                    None => 0,
                },
                ..InferResponseView::empty_spec()
            }),
    {
        let mut first = InferResponse::empty();
        first.in_token_count = input_length;
        if request.parameters.include_input_text {
            append_bytes(&mut first.output_text, &request.inputs);
        }
        first.seed = match request.parameters.seed {
            Some(s) => s,
            None => 0,
        };
        let stream = ResponseStream {
            include_token_info: request.parameters.include_gen_tokens,
            token_count: 0,
            output: if request.parameters.stop_seqs.len() > 0 {
                Accumulator::Collected(Vec::new())
            } else {
                Accumulator::Decoding(Vec::new())
            },
            times: None,
            stop_reason: StopReason::NotFinished,
            err: None,
        };
        proof {
            assert(first@ =~= (InferResponseView {
                in_token_count: input_length,
                output_text: if request@.parameters.include_input_text {
                    request@.inputs
                } else {
                    Seq::<u8>::empty()
                },
                seed: match request@.parameters.seed {
                    Some(s) => s,
                    None => 0,
                },
                ..InferResponseView::empty_spec()
            }));
        }
        (stream, first)
    }

    /// The first token of an event, if any is attached.
    pub open spec fn first_token_present(ir: InferResponseView) -> bool {
        ir.tokens matches TokenInfosView::WithIds(toks) && toks.len() > 0
    }

    /// What the adapter needs from the detokenizer for one event: a decode
    /// report exactly when it decodes itself and a token arrived or a
    /// flush is due.
    pub open spec fn dec_wanted(self, ir: InferResponseView, dec: crate::types::TokenDecodeView)
        -> bool {
        if self.output@ is Decoding
            && (Self::first_token_present(ir) || ir.reason != StopReason::NotFinished) {
            !(dec is NotDecoded)
        } else {
            dec is NotDecoded
        }
    }

    /// Process one received event: record counters, reason and times,
    /// produce or gather the text delta, decode token metadata, and either
    /// hand the event on or skip it when it carries nothing and is neither
    /// first nor terminal. `dec` is the detokenizer's report for the
    /// event's token; `gen_texts` and `in_texts` give the decoded text of
    /// its token metadata.
    #[verifier::rlimit(30)]
    pub fn on_item(&mut self, item: Result<InferResponse, ClientError>, dec: &TokenDecode,
        gen_texts: Vec<Vec<u8>>, in_texts: Vec<Vec<u8>>)
        -> (r: Option<Result<InferResponse, InferError>>)
        requires
            item matches Ok(ir) ==> old(self).dec_wanted(ir@, dec@),
            item matches Ok(ir) ==> (ir@.tokens matches TokenInfosView::WithIds(toks)
                ==> gen_texts@.len() == toks.len()),
            item matches Ok(ir) ==> (ir@.in_tokens matches TokenInfosView::WithIds(toks)
                ==> in_texts@.len() == toks.len()),
        ensures
            final(self).include_token_info == old(self).include_token_info,
            item matches Err(ce) ==> {
                &&& final(self).err matches Some(e)
                    && e@ == InferErrorView::GenerationError(ce@.message())
                &&& final(self).token_count == old(self).token_count
                &&& final(self).stop_reason == old(self).stop_reason
                &&& final(self).output@ == old(self).output@
                &&& r matches Some(res) && res matches Err(e2)
                    && e2@ == InferErrorView::GenerationError(ce@.message())
            },
            item matches Ok(ir) ==> {
                &&& final(self).token_count == ir@.gen_token_count
                &&& final(self).stop_reason == ir@.reason
                &&& final(self).times == (if ir@.times is Some {
                    ir@.times
                } else {
                    old(self).times
                })
                &&& (old(self).output@ matches AccumulatorView::Collected(buf) ==> {
                    &&& final(self).output@ == AccumulatorView::Collected(buf + ir@.output_text)
                    &&& final(self).err == old(self).err
                    &&& (r is None <==> skip_event(ir@, ir@.output_text, old(self)
                        .include_token_info))
                    &&& (r matches Some(res) ==> res matches Ok(out)
                        && out@ == delivered(ir@, ir@.output_text, old(self).include_token_info,
                            gen_texts.deep_view(), in_texts.deep_view()))
                })
                &&& (old(self).output@ matches AccumulatorView::Decoding(buf)
                    ==> (dec@ matches crate::types::TokenDecodeView::Failed { message } ==> {
                    &&& final(self).err matches Some(e)
                        && e@ == InferErrorView::DetokenizationError(message)
                    &&& r matches Some(res) && res matches Err(e2)
                        && e2@ == InferErrorView::DetokenizationError(message)
                }))
                &&& (old(self).output@ matches AccumulatorView::Decoding(buf)
                    ==> (dec@ matches crate::types::TokenDecodeView::Text { delta, remainder }
                        ==> ({
                    let text = if ir@.reason != StopReason::NotFinished {
                        delta + remainder
                    } else {
                        delta
                    };
                    &&& final(self).output@ == AccumulatorView::Decoding(buf + text)
                    &&& final(self).err == old(self).err
                    &&& (r is None <==> skip_event(ir@, text, old(self).include_token_info))
                    &&& (r matches Some(res) ==> res matches Ok(out)
                        && out@ == delivered(ir@, text, old(self).include_token_info,
                            gen_texts.deep_view(), in_texts.deep_view()))
                })))
                &&& (old(self).output@ matches AccumulatorView::Decoding(buf)
                    ==> (dec@ is NotDecoded ==> {
                    &&& final(self).output@ == old(self).output@
                    &&& final(self).err == old(self).err
                    &&& (r is None <==> skip_event(ir@, Seq::<u8>::empty(),
                        old(self).include_token_info))
                    &&& (r matches Some(res) ==> res matches Ok(out)
                        && out@ == delivered(ir@, Seq::<u8>::empty(),
                            old(self).include_token_info, gen_texts.deep_view(),
                            in_texts.deep_view()))
                }))
            },
    {
        match item {
            Err(ce) => {
                let msg = crate::bytes::copy_bytes(ce.message());
                let e = InferError::GenerationError(msg);
                self.err = Some(InferError::GenerationError(crate::bytes::copy_bytes(
                    ce.message())));
                Some(Err(e))
            },
            Ok(ir) => {
                let mut ir = ir;
                let ghost ir0: InferResponseView = ir@;
                let ghost gen_texts0: Seq<Seq<u8>> = gen_texts.deep_view();
                let mut gen_texts = gen_texts;
                self.token_count = ir.gen_token_count;
                self.stop_reason = ir.reason;
                if ir.times.is_some() {
                    self.times = ir.times;
                }
                let ghost old_acc: AccumulatorView = self.output@;
                let mut failed: Option<Vec<u8>> = None;
                match &mut self.output {
                    Accumulator::Collected(buf) => {
                        append_bytes(buf, &ir.output_text);
                    },
                    Accumulator::Decoding(buf) => {
                        match dec {
                            TokenDecode::Text { delta, remainder } => {
                                let mut text = crate::bytes::copy_bytes(delta);
                                if !matches!(ir.reason, StopReason::NotFinished) {
                                    append_bytes(&mut text, remainder);
                                }
                                append_bytes(buf, &text);
                                ir.output_text = text;
                            },
                            TokenDecode::Failed { message } => {
                                failed = Some(crate::bytes::copy_bytes(message));
                            },
                            TokenDecode::NotDecoded => {
                                ir.output_text = Vec::new();
                            },
                        }
                    },
                }
                match failed {
                    Some(msg) => {
                        let e = InferError::DetokenizationError(crate::bytes::copy_bytes(&msg));
                        self.err = Some(InferError::DetokenizationError(msg));
                        return Some(Err(e));
                    },
                    None => {},
                }
                let ghost text_now: Seq<u8> = ir@.output_text;
                if !self.include_token_info {
                    ir.tokens.clear();
                    gen_texts = Vec::new();
                }
                ir.decode_token_infos(gen_texts, in_texts);
                proof {
                    assert(ir@ =~~= delivered(ir0, text_now, old(self).include_token_info,
                        gen_texts0, in_texts.deep_view()));
                }
                let skip: bool = ir.tokens.is_empty() && ir.output_text.len() == 0
                    && matches!(ir.reason, StopReason::NotFinished) && ir.gen_token_count != 0;
                if skip {
                    None
                } else {
                    Some(Ok(ir))
                }
            },
        }
    }

    /// The summary handed to the accounting sink when the stream is
    /// dropped: if no terminal reason was observed, the stream counts as
    /// cancelled, or as failed when an error is pending.
    pub fn finish(self) -> (r: (u32, StopReason, Option<Times>, Vec<u8>, Option<InferError>))
        ensures
            r.0 == self.token_count,
            r.1 == (if self.stop_reason == StopReason::NotFinished {
                if self.err is Some {
                    StopReason::Error
                } else {
                    StopReason::Cancelled
                }
            } else {
                self.stop_reason
            }),
            r.2 == self.times,
            r.3@ == self.output@.text(),
            r.4 == self.err,
    {
        let reason: StopReason = if matches!(self.stop_reason, StopReason::NotFinished) {
            if self.err.is_some() {
                StopReason::Error
            } else {
                StopReason::Cancelled
            }
        } else {
            self.stop_reason
        };
        (self.token_count, reason, self.times, self.output.into_string(), self.err)
    }
}

/// An event is skipped when it surfaces no token info and no text, is not
/// terminal, and is not the very first event of the stream.
pub open spec fn skip_event(ir: InferResponseView, text: Seq<u8>, include_token_info: bool)
    -> bool {
    &&& shown_tokens(ir, include_token_info).is_empty_spec()
    &&& text.len() == 0
    &&& ir.reason == StopReason::NotFinished
    &&& ir.gen_token_count != 0
}

/// The token metadata an event surfaces: cleared unless asked for.
pub open spec fn shown_tokens(ir: InferResponseView, include_token_info: bool) -> TokenInfosView {
    if include_token_info {
        ir.tokens
    } else {
        match ir.tokens {
            TokenInfosView::WithIds(_) => TokenInfosView::WithIds(Seq::empty()),
            TokenInfosView::WithStrings(_) => TokenInfosView::WithStrings(Seq::empty()),
        }
    }
}

/// The event as delivered to the consumer: its text replaced by the
/// decoded delta, its token metadata filtered and decoded.
pub open spec fn delivered(ir: InferResponseView, text: Seq<u8>, include_token_info: bool,
    gen_texts: Seq<Seq<u8>>, in_texts: Seq<Seq<u8>>) -> InferResponseView {
    InferResponseView {
        output_text: text,
        tokens: shown_tokens(ir, include_token_info).decoded(gen_texts),
        in_tokens: ir.in_tokens.decoded(in_texts),
        ..ir
    }
}

} // verus!
