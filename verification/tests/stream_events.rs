use batcher::types::{GenerateParams, GenerateRequest, StopReason, Token, TokenDecode,
    ClientError};
use batcher::response::{InferResponse, TokenInfos};
use batcher::stream::{Accumulator, ResponseStream};

fn request(stop_seqs: Vec<Vec<u8>>, include_gen_tokens: bool) -> GenerateRequest {
    GenerateRequest {
        inputs: b"prompt".to_vec(),
        parameters: GenerateParams {
            min_new_tokens: 0,
            max_new_tokens: 10,
            max_is_token_limit: false,
            stop_seqs,
            deadline: None,
            seed: Some(9),
            include_input_text: true,
            include_gen_tokens,
        },
    }
}

fn inprog(text: &[u8], count: u32, token_id: u32) -> InferResponse {
    let mut r = InferResponse::empty();
    r.output_text = text.to_vec();
    r.gen_token_count = count;
    r.tokens = TokenInfos::WithIds(vec![Token { request_id: 1, token_id }]);
    r
}

#[test]
fn start_event_carries_input_info_and_seed() {
    let (stream, first) = ResponseStream::start(&request(vec![b"X".to_vec()], false), 3);
    assert_eq!(first.in_token_count, 3);
    assert_eq!(first.output_text, b"prompt".to_vec());
    assert_eq!(first.seed, 9);
    assert_eq!(stream.token_count, 0);
    assert_eq!(stream.stop_reason, StopReason::NotFinished);
}

#[test]
fn collected_stream_concatenates_deltas() {
    let (mut stream, _) = ResponseStream::start(&request(vec![b"X".to_vec()], false), 3);
    let r = stream.on_item(Ok(inprog(b"ab", 1, 7)), &TokenDecode::NotDecoded,
        vec![b"t".to_vec()], Vec::new());
    let out = r.unwrap().unwrap();
    assert_eq!(out.output_text, b"ab".to_vec());
    assert_eq!(stream.token_count, 1);
    let r2 = stream.on_item(Ok(inprog(b"cd", 2, 8)), &TokenDecode::NotDecoded,
        vec![b"t".to_vec()], Vec::new());
    assert!(r2.is_some());
    let (count, reason, _, text, err) = stream.finish();
    assert_eq!(count, 2);
    // dropped before any terminal reason: the stream counts as cancelled
    assert_eq!(reason, StopReason::Cancelled);
    assert_eq!(text, b"abcd".to_vec());
    assert!(err.is_none());
}

#[test]
fn empty_inprogress_events_are_skipped() {
    let (mut stream, _) = ResponseStream::start(&request(vec![b"X".to_vec()], false), 3);
    let mut ir = InferResponse::empty();
    ir.gen_token_count = 2;
    let r = stream.on_item(Ok(ir), &TokenDecode::NotDecoded, Vec::new(), Vec::new());
    assert!(r.is_none());
    assert_eq!(stream.token_count, 2);
}

#[test]
fn decoding_stream_detokenizes_and_flushes() {
    // no stop sequences: the adapter decodes the token ids itself
    let (mut stream, _) = ResponseStream::start(&request(vec![], true), 3);
    let r = stream.on_item(Ok(inprog(b"", 1, 7)),
        &TokenDecode::Text { delta: b"he".to_vec(), remainder: Vec::new() },
        vec![b"he".to_vec()], Vec::new());
    let out = r.unwrap().unwrap();
    assert_eq!(out.output_text, b"he".to_vec());
    let mut last = inprog(b"", 2, 8);
    last.reason = StopReason::EosToken;
    let r2 = stream.on_item(Ok(last),
        &TokenDecode::Text { delta: b"y".to_vec(), remainder: b"!".to_vec() },
        vec![b"y!".to_vec()], Vec::new());
    let out2 = r2.unwrap().unwrap();
    // the terminal event carries the delta plus the flushed remainder
    assert_eq!(out2.output_text, b"y!".to_vec());
    let (count, reason, _, text, err) = stream.finish();
    assert_eq!(count, 2);
    assert_eq!(reason, StopReason::EosToken);
    assert_eq!(text, b"hey!".to_vec());
    assert!(err.is_none());
}

#[test]
fn decode_failure_surfaces_as_detokenization_error() {
    let (mut stream, _) = ResponseStream::start(&request(vec![], false), 3);
    let r = stream.on_item(Ok(inprog(b"", 1, 7)),
        &TokenDecode::Failed { message: b"boundary".to_vec() }, vec![b"t".to_vec()],
        Vec::new());
    let e = r.unwrap().unwrap_err();
    assert_eq!(e.message(), b"boundary".to_vec());
    let (_, reason, _, _, err) = stream.finish();
    // dropped with a pending error: the stream counts as failed
    assert_eq!(reason, StopReason::Error);
    assert!(err.is_some());
}

#[test]
fn channel_error_is_passed_through() {
    let (mut stream, _) = ResponseStream::start(&request(vec![b"X".to_vec()], false), 3);
    let r = stream.on_item(Err(ClientError::Generation(b"lost".to_vec())),
        &TokenDecode::NotDecoded, Vec::new(), Vec::new());
    let e = r.unwrap().unwrap_err();
    assert_eq!(e.message(), b"lost".to_vec());
}

#[test]
fn into_string_returns_accumulated_bytes() {
    assert_eq!(Accumulator::Collected(b"abc".to_vec()).into_string(), b"abc".to_vec());
    assert_eq!(Accumulator::Decoding(b"xy".to_vec()).into_string(), b"xy".to_vec());
}
