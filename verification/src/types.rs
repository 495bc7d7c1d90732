//! Plain data carried between the core, its callers and the backend facade.
//!
//! All text is carried as bytes: stop-sequence matching is defined on the
//! bytes of the accumulated output, and incremental detokenization may emit
//! partial characters, so byte strings are the honest currency throughout.

use vstd::prelude::*;

verus! {

/// Why an entry stopped generating, or that it has not stopped yet.
#[derive(Clone, Copy, Debug, PartialEq, Eq, Structural)]
pub enum StopReason {
    NotFinished,
    EosToken,
    MaxTokens,
    TokenLimit,
    StopSequence,
    TimeLimit,
    Cancelled,
    Error,
}

/// Monotonic timestamps of one request: enqueued, first prefill, completion.
#[derive(Clone, Copy, Debug, PartialEq, Eq, Structural)]
pub struct Times {
    pub queued: u64,
    pub start: u64,
    pub end: u64,
}

/// One generated token as returned by the backend.
#[derive(Clone, Copy, Debug, PartialEq, Eq, Structural)]
pub struct Token {
    pub request_id: u64,
    pub token_id: u32,
}

/// The prompt tokens of one entry, returned on its first backend response.
pub struct InputTokens {
    pub request_id: u64,
    pub tokens: Vec<Token>,
}

impl View for InputTokens {
    type V = InputTokensView;

    open spec fn view(&self) -> InputTokensView {
        InputTokensView { request_id: self.request_id, tokens: self.tokens@ }
    }
}

pub ghost struct InputTokensView {
    pub request_id: u64,
    pub tokens: Seq<Token>,
}

/// A per-entry generation failure reported inside an otherwise successful
/// backend response.
pub struct GenerateError {
    pub request_id: u64,
    pub message: Vec<u8>,
}

impl View for GenerateError {
    type V = GenerateErrorView;

    open spec fn view(&self) -> GenerateErrorView {
        GenerateErrorView { request_id: self.request_id, message: self.message@ }
    }
}

pub ghost struct GenerateErrorView {
    pub request_id: u64,
    pub message: Seq<u8>,
}

/// Which of a batch's entries have completed since the last report.
pub struct RequestsStatus {
    pub completed_ids: Vec<u64>,
}

/// Backend-side handle to a batch's retained state between steps.
/// An absent `status` means the backend did not say which entries
/// completed; the scheduler treats that as "some may have".
pub struct CachedBatch {
    pub batch_id: u64,
    pub status: Option<RequestsStatus>,
}

impl View for CachedBatch {
    type V = CachedBatchView;

    open spec fn view(&self) -> CachedBatchView {
        CachedBatchView {
            batch_id: self.batch_id,
            status: match self.status {
                Some(ref rs) => Some(rs.completed_ids@),
                None => None,
            },
        }
    }
}

#[verifier::ext_equal]
pub ghost struct CachedBatchView {
    pub batch_id: u64,
    pub status: Option<Seq<u64>>,
}

/// Error reported by the model-serving backend.
#[derive(Debug)]
pub enum ClientError {
    Connection(Vec<u8>),
    Generation(Vec<u8>),
}

impl View for ClientError {
    type V = ClientErrorView;

    open spec fn view(&self) -> ClientErrorView {
        match self {
            ClientError::Connection(m) => ClientErrorView::Connection(m@),
            ClientError::Generation(m) => ClientErrorView::Generation(m@),
        }
    }
}

#[verifier::ext_equal]
pub ghost enum ClientErrorView {
    Connection(Seq<u8>),
    Generation(Seq<u8>),
}

impl ClientError {
    /// The human-readable message carried by the error.
    pub fn message(&self) -> (r: &Vec<u8>)
        ensures
            r@ == self@.message(),
    {
        match self {
            ClientError::Connection(m) => m,
            ClientError::Generation(m) => m,
        }
    }
}

impl ClientErrorView {
    pub open spec fn message(self) -> Seq<u8> {
        match self {
            ClientErrorView::Connection(m) => m,
            ClientErrorView::Generation(m) => m,
        }
    }
}

/// Error visible at the core boundary.
#[derive(Debug)]
pub enum InferError {
    GenerationError(Vec<u8>),
    DetokenizationError(Vec<u8>),
    RequestQueueFull,
}

impl View for InferError {
    type V = InferErrorView;

    open spec fn view(&self) -> InferErrorView {
        match self {
            InferError::GenerationError(m) => InferErrorView::GenerationError(m@),
            InferError::DetokenizationError(m) => InferErrorView::DetokenizationError(m@),
            InferError::RequestQueueFull => InferErrorView::RequestQueueFull,
        }
    }
}

#[verifier::ext_equal]
pub ghost enum InferErrorView {
    GenerationError(Seq<u8>),
    DetokenizationError(Seq<u8>),
    RequestQueueFull,
}

/// `"Server too busy"` as bytes: the message of a refused admission.
pub open spec fn queue_full_message() -> Seq<u8> {
    seq![83u8, 101u8, 114u8, 118u8, 101u8, 114u8, 32u8, 116u8, 111u8, 111u8, 32u8, 98u8,
        117u8, 115u8, 121u8]
}

impl InferErrorView {
    pub open spec fn message(self) -> Seq<u8> {
        match self {
            InferErrorView::GenerationError(m) => m,
            InferErrorView::DetokenizationError(m) => m,
            InferErrorView::RequestQueueFull => queue_full_message(),
        }
    }
}

impl InferError {
    /// The human-readable message carried by the error.
    pub fn message(&self) -> (r: Vec<u8>)
        ensures
            r@ == self@.message(),
    {
        match self {
            InferError::GenerationError(m) => crate::bytes::copy_bytes(m),
            InferError::DetokenizationError(m) => crate::bytes::copy_bytes(m),
            InferError::RequestQueueFull => {
                let mut v: Vec<u8> = Vec::new();
                v.push(83);
                v.push(101);
                v.push(114);
                v.push(118);
                v.push(101);
                v.push(114);
                v.push(32);
                v.push(116);
                v.push(111);
                v.push(111);
                v.push(32);
                v.push(98);
                v.push(117);
                v.push(115);
                v.push(121);
                proof {
                    assert(v@ =~= queue_full_message());
                }
                v
            },
        }
    }
}

/// What the incremental detokenizer produced for one generated token.
/// `remainder` is the text still buffered at the boundary, emitted only
/// if the entry terminates on this token.
#[derive(Debug)]
pub enum TokenDecode {
    NotDecoded,
    Text { delta: Vec<u8>, remainder: Vec<u8> },
    Failed { message: Vec<u8> },
}

impl View for TokenDecode {
    type V = TokenDecodeView;

    open spec fn view(&self) -> TokenDecodeView {
        match self {
            TokenDecode::NotDecoded => TokenDecodeView::NotDecoded,
            TokenDecode::Text { delta, remainder } => TokenDecodeView::Text {
                delta: delta@,
                remainder: remainder@,
            },
            TokenDecode::Failed { message } => TokenDecodeView::Failed { message: message@ },
        }
    }
}

#[verifier::ext_equal]
pub ghost enum TokenDecodeView {
    NotDecoded,
    Text { delta: Seq<u8>, remainder: Seq<u8> },
    Failed { message: Seq<u8> },
}

/// Immutable generation parameters of one request.
pub struct GenerateParams {
    pub min_new_tokens: u32,
    pub max_new_tokens: u32,
    pub max_is_token_limit: bool,
    pub stop_seqs: Vec<Vec<u8>>,
    pub deadline: Option<u64>,
    pub seed: Option<u64>,
    pub include_input_text: bool,
    pub include_gen_tokens: bool,
}

impl View for GenerateParams {
    type V = GenerateParamsView;

    open spec fn view(&self) -> GenerateParamsView {
        GenerateParamsView {
            min_new_tokens: self.min_new_tokens,
            max_new_tokens: self.max_new_tokens,
            max_is_token_limit: self.max_is_token_limit,
            stop_seqs: self.stop_seqs.deep_view(),
            deadline: self.deadline,
            seed: self.seed,
            include_input_text: self.include_input_text,
            include_gen_tokens: self.include_gen_tokens,
        }
    }
}

#[verifier::ext_equal]
pub ghost struct GenerateParamsView {
    pub min_new_tokens: u32,
    pub max_new_tokens: u32,
    pub max_is_token_limit: bool,
    pub stop_seqs: Seq<Seq<u8>>,
    pub deadline: Option<u64>,
    pub seed: Option<u64>,
    pub include_input_text: bool,
    pub include_gen_tokens: bool,
}

impl GenerateParamsView {
    /// Parameters the core can work with: stop sequences are nonempty and
    /// the token limits are consistent, so counters stay bounded.
    pub open spec fn wf(self) -> bool {
        &&& forall|i: int| 0 <= i < self.stop_seqs.len() ==> #[trigger] self.stop_seqs[i].len() > 0
        &&& self.min_new_tokens <= self.max_new_tokens
        &&& 1 <= self.max_new_tokens
    }
}

/// One generation request: prompt bytes plus parameters.
pub struct GenerateRequest {
    pub inputs: Vec<u8>,
    pub parameters: GenerateParams,
}

impl View for GenerateRequest {
    type V = GenerateRequestView;

    open spec fn view(&self) -> GenerateRequestView {
        GenerateRequestView { inputs: self.inputs@, parameters: self.parameters@ }
    }
}

#[verifier::ext_equal]
pub ghost struct GenerateRequestView {
    pub inputs: Seq<u8>,
    pub parameters: GenerateParamsView,
}

} // verus!
