use batcher::types::{GenerateParams, GenerateRequest, Token, InputTokens, GenerateError,
    TokenDecode, StopReason, InferError};
use batcher::queue::{BatchingConfig, BatchType, NewRequest, Queue};
use batcher::entry::EntryMap;
use batcher::processor::StepOutcome;
use batcher::scheduler::{Scheduler, Action};
use batcher::response::{Emission, TokenInfos};

fn params(min_new: u32, max_new: u32) -> GenerateParams {
    GenerateParams {
        min_new_tokens: min_new,
        max_new_tokens: max_new,
        max_is_token_limit: false,
        stop_seqs: Vec::new(),
        deadline: None,
        seed: None,
        include_input_text: false,
        include_gen_tokens: false,
    }
}

fn req(p: GenerateParams, stream: bool) -> NewRequest {
    NewRequest {
        request: GenerateRequest { inputs: b"hi".to_vec(), parameters: p },
        input_length: 2,
        stream,
    }
}

fn sched(capacity: usize, size_limit: usize, max_waiting: u32, eos: u32) -> Scheduler {
    Scheduler::new(
        BatchingConfig { capacity, size_limit, waiting_too_long_threshold: 1_000_000 },
        BatchType::SizeOnly,
        max_waiting,
        eos,
        false,
    )
}

fn ok_step(tokens: Vec<Token>, decs: Vec<TokenDecode>, input_tokens: Vec<InputTokens>,
    errors: Vec<GenerateError>, next_batch_id: u64) -> StepOutcome {
    StepOutcome::Success { tokens, decs, input_tokens, errors, next_batch_id }
}

fn tok(id: u64, t: u32) -> Token {
    Token { request_id: id, token_id: t }
}

fn no_dec() -> TokenDecode {
    TokenDecode::NotDecoded
}

fn text_dec(delta: &[u8]) -> TokenDecode {
    TokenDecode::Text { delta: delta.to_vec(), remainder: Vec::new() }
}

/// One full backend step for a single unary entry.
fn drive_one(s: &mut Scheduler, id: u64, token_id: u32, now: u64, closed: &Vec<u64>,
    em: &mut Vec<Emission>) {
    let a = s.next_action(now, em);
    assert!(matches!(a, Action::CallNextToken { .. }));
    s.apply_result(&ok_step(vec![tok(id, token_id)], vec![no_dec()], vec![], vec![], 1), now,
        closed, em);
}

#[test]
fn unary_eos_terminates_with_counts() {
    let mut s = sched(10, 8, 20, 42);
    let mut em: Vec<Emission> = Vec::new();
    let mut p = params(1, 10);
    p.seed = Some(5);
    s.enqueue(vec![req(p, false)], 100).unwrap();
    let a = s.next_action(100, &mut em);
    match a {
        Action::CallPrefill { batch, to_prune, start_id } => {
            assert_eq!(batch.request_ids, vec![1]);
            assert!(to_prune.is_empty());
            assert!(start_id.is_none());
        },
        _ => panic!("expected prefill"),
    }
    let inputs = vec![InputTokens { request_id: 1, tokens: vec![tok(1, 5), tok(1, 6)] }];
    s.apply_result(&ok_step(vec![tok(1, 7)], vec![no_dec()], inputs, vec![], 1), 101,
        &Vec::new(), &mut em);
    assert!(em.is_empty());
    drive_one(&mut s, 1, 8, 102, &Vec::new(), &mut em);
    assert!(em.is_empty());
    drive_one(&mut s, 1, 42, 105, &Vec::new(), &mut em);
    assert_eq!(em.len(), 1);
    let e = &em[0];
    assert_eq!(e.request_id, 1);
    let r = e.response.as_ref().unwrap();
    assert_eq!(r.reason, StopReason::EosToken);
    assert_eq!(r.gen_token_count, 3);
    assert_eq!(r.in_token_count, 2);
    assert_eq!(r.token_ids, vec![7, 8, 42]);
    assert_eq!(r.seed, 5);
    let t = r.times.unwrap();
    assert_eq!(t.queued, 100);
    assert_eq!(t.start, 100);
    assert!(t.end >= t.start);
    assert_eq!(s.processor.entries.len(), 0);
}

#[test]
fn token_limit_vs_max_tokens() {
    for (flag, expected) in [(true, StopReason::TokenLimit), (false, StopReason::MaxTokens)] {
        let mut s = sched(10, 8, 20, 42);
        let mut em: Vec<Emission> = Vec::new();
        let mut p = params(0, 2);
        p.max_is_token_limit = flag;
        s.enqueue(vec![req(p, false)], 100).unwrap();
        s.next_action(100, &mut em);
        s.apply_result(&ok_step(vec![tok(1, 7)], vec![no_dec()], vec![], vec![], 1), 101,
            &Vec::new(), &mut em);
        assert!(em.is_empty());
        drive_one(&mut s, 1, 8, 102, &Vec::new(), &mut em);
        assert_eq!(em.len(), 1);
        let r = em[0].response.as_ref().unwrap();
        assert_eq!(r.reason, expected);
        assert_eq!(r.gen_token_count, 2);
    }
}

#[test]
fn stop_sequence_across_token_boundary() {
    let mut s = sched(10, 8, 20, 999);
    let mut em: Vec<Emission> = Vec::new();
    let mut p = params(0, 10);
    p.stop_seqs = vec![b"END".to_vec()];
    s.enqueue(vec![req(p, false)], 100).unwrap();
    s.next_action(100, &mut em);
    s.apply_result(&ok_step(vec![tok(1, 7)], vec![text_dec(b"E")], vec![], vec![], 1), 101,
        &Vec::new(), &mut em);
    assert!(em.is_empty());
    let a = s.next_action(102, &mut em);
    assert!(matches!(a, Action::CallNextToken { .. }));
    s.apply_result(&ok_step(vec![tok(1, 8)], vec![text_dec(b"ND")], vec![], vec![], 1), 103,
        &Vec::new(), &mut em);
    assert_eq!(em.len(), 1);
    let r = em[0].response.as_ref().unwrap();
    assert_eq!(r.reason, StopReason::StopSequence);
    assert_eq!(r.gen_token_count, 2);
    assert_eq!(r.output_text, b"END".to_vec());
    assert!(r.is_decoded);
}

#[test]
fn growth_mid_flight_admits_waiting_entry() {
    let mut s = sched(10, 8, 6, 999);
    let mut em: Vec<Emission> = Vec::new();
    s.enqueue(vec![req(params(0, 100), true)], 100).unwrap();
    s.next_action(100, &mut em);
    s.apply_result(&ok_step(vec![tok(1, 7)], vec![no_dec()],
        vec![InputTokens { request_id: 1, tokens: vec![] }], vec![], 1), 100, &Vec::new(),
        &mut em);
    s.enqueue(vec![req(params(0, 100), true)], 101).unwrap();
    // five more ordinary steps bring waiting_tokens to 6
    for n in 0..5u32 {
        let a = s.next_action(102 + n as u64, &mut em);
        assert!(matches!(a, Action::CallNextToken { .. }), "step {} must not grow yet", n);
        s.apply_result(&ok_step(vec![tok(1, 8 + n)], vec![no_dec()], vec![], vec![], 1),
            102 + n as u64, &Vec::new(), &mut em);
    }
    // now the growth rule fires and admits entry 2
    let a = s.next_action(110, &mut em);
    match a {
        Action::CallPrefill { batch, start_id, .. } => {
            assert_eq!(batch.request_ids, vec![2]);
            assert_eq!(start_id, Some(2));
        },
        _ => panic!("expected growth prefill"),
    }
    s.apply_result(&ok_step(vec![tok(2, 50)], vec![no_dec()],
        vec![InputTokens { request_id: 2, tokens: vec![] }], vec![], 2), 110, &Vec::new(),
        &mut em);
    // entry 2's first in-progress event carries count 1
    let b_events: Vec<u32> = em.iter()
        .filter(|e| e.request_id == 2)
        .filter_map(|e| e.response.as_ref().ok())
        .filter(|r| r.reason == StopReason::NotFinished && r.gen_token_count > 0)
        .map(|r| r.gen_token_count)
        .collect();
    assert_eq!(b_events, vec![1]);
    // a joint step advances both, with no step of entry 1 skipped
    let a = s.next_action(111, &mut em);
    match &a {
        Action::CallNextToken { batches } => assert_eq!(batches.len(), 2),
        _ => panic!("expected joint step"),
    }
    s.apply_result(&ok_step(vec![tok(1, 20), tok(2, 51)], vec![no_dec(), no_dec()], vec![],
        vec![], 1), 111, &Vec::new(), &mut em);
    let a_counts: Vec<u32> = em.iter()
        .filter(|e| e.request_id == 1)
        .filter_map(|e| e.response.as_ref().ok())
        .filter(|r| r.gen_token_count > 0)
        .map(|r| r.gen_token_count)
        .collect();
    assert_eq!(a_counts, vec![1, 2, 3, 4, 5, 6, 7]);
}

#[test]
fn per_entry_generation_error_spares_the_rest() {
    let mut s = sched(10, 8, 20, 999);
    let mut em: Vec<Emission> = Vec::new();
    s.enqueue(vec![req(params(0, 100), false), req(params(0, 100), false)], 100).unwrap();
    s.next_action(100, &mut em);
    s.apply_result(&ok_step(vec![tok(1, 7), tok(2, 7)], vec![no_dec(), no_dec()], vec![],
        vec![], 1), 100, &Vec::new(), &mut em);
    for n in 0..2u32 {
        s.next_action(101 + n as u64, &mut em);
        s.apply_result(&ok_step(vec![tok(1, 8), tok(2, 8)], vec![no_dec(), no_dec()], vec![],
            vec![], 1), 101 + n as u64, &Vec::new(), &mut em);
    }
    // entry 1 has generated 3 tokens; the backend now reports its failure
    s.next_action(104, &mut em);
    s.apply_result(&ok_step(vec![tok(2, 9)], vec![no_dec()], vec![],
        vec![GenerateError { request_id: 1, message: b"bad".to_vec() }], 1), 104, &Vec::new(),
        &mut em);
    assert_eq!(em.len(), 1);
    assert_eq!(em[0].request_id, 1);
    let err = em[0].response.as_ref().unwrap_err();
    assert_eq!(err.message(), &b"Error after generating 3 tokens: bad".to_vec());
    assert_eq!(s.processor.entries.len(), 1);
    // entry 2 keeps generating
    drive_one(&mut s, 2, 10, 105, &Vec::new(), &mut em);
    assert_eq!(s.processor.entries.len(), 1);
}

#[test]
fn full_queue_rejects_exactly_the_overflow() {
    let mut s = sched(2, 2, 20, 42);
    let mut em: Vec<Emission> = Vec::new();
    assert!(s.enqueue(vec![req(params(0, 5), false)], 100).is_ok());
    assert!(s.enqueue(vec![req(params(0, 5), false)], 100).is_ok());
    let r = s.enqueue(vec![req(params(0, 5), false)], 100);
    assert!(matches!(r, Err(InferError::RequestQueueFull)));
    // the two admitted requests complete normally
    s.next_action(100, &mut em);
    s.apply_result(&ok_step(vec![tok(1, 42), tok(2, 42)], vec![no_dec(), no_dec()], vec![],
        vec![], 1), 101, &Vec::new(), &mut em);
    assert_eq!(em.len(), 2);
    for e in &em {
        assert_eq!(e.response.as_ref().unwrap().reason, StopReason::EosToken);
    }
    assert_eq!(s.processor.entries.len(), 0);
}

#[test]
fn unary_cancel_detected_within_sixteen_steps() {
    let mut s = sched(10, 8, 20, 999);
    let mut em: Vec<Emission> = Vec::new();
    let closed = vec![1u64];
    s.enqueue(vec![req(params(0, 100), false)], 100).unwrap();
    s.next_action(100, &mut em);
    s.apply_result(&ok_step(vec![tok(1, 7)], vec![no_dec()], vec![], vec![], 1), 100, &closed,
        &mut em);
    let mut steps = 1;
    while s.processor.entries.len() > 0 {
        drive_one(&mut s, 1, 8, 100 + steps, &closed, &mut em);
        steps += 1;
        assert!(steps <= 16, "cancellation not detected within 16 steps");
    }
    assert_eq!(steps, 16);
    // the receiver is gone: nothing was delivered
    assert!(em.is_empty());
}

#[test]
fn streaming_cancel_detected_in_one_step() {
    let mut s = sched(10, 8, 20, 999);
    let mut em: Vec<Emission> = Vec::new();
    let closed = vec![1u64];
    s.enqueue(vec![req(params(0, 100), true)], 100).unwrap();
    s.next_action(100, &mut em);
    s.apply_result(&ok_step(vec![tok(1, 7)], vec![no_dec()], vec![], vec![], 1), 100, &closed,
        &mut em);
    assert_eq!(s.processor.entries.len(), 0);
    assert!(em.is_empty());
}

#[test]
fn growth_failure_terminates_only_new_entries() {
    let mut s = sched(10, 8, 6, 999);
    let mut em: Vec<Emission> = Vec::new();
    s.enqueue(vec![req(params(0, 100), false)], 100).unwrap();
    s.next_action(100, &mut em);
    s.apply_result(&ok_step(vec![tok(1, 7)], vec![no_dec()], vec![], vec![], 1), 100,
        &Vec::new(), &mut em);
    s.enqueue(vec![req(params(0, 100), false)], 101).unwrap();
    for n in 0..5u32 {
        s.next_action(102 + n as u64, &mut em);
        s.apply_result(&ok_step(vec![tok(1, 8)], vec![no_dec()], vec![], vec![], 1),
            102 + n as u64, &Vec::new(), &mut em);
    }
    let a = s.next_action(110, &mut em);
    assert!(matches!(a, Action::CallPrefill { start_id: Some(2), .. }));
    // the growth prefill is lost: only entry 2 is terminated
    s.apply_result(&StepOutcome::Failure(batcher::types::ClientError::Generation(
        b"shard gone".to_vec())), 110, &Vec::new(), &mut em);
    assert_eq!(s.processor.entries.len(), 1);
    assert!(!s.processor.generation_healthy);
    assert_eq!(em.len(), 1);
    assert_eq!(em[0].request_id, 2);
    assert!(em[0].response.is_err());
    // entry 1 is retained and advances on subsequent steps
    drive_one(&mut s, 1, 9, 111, &Vec::new(), &mut em);
    assert_eq!(s.processor.entries.len(), 1);
}

#[test]
fn step_failure_terminates_everything() {
    let mut s = sched(10, 8, 20, 999);
    let mut em: Vec<Emission> = Vec::new();
    s.enqueue(vec![req(params(0, 100), false), req(params(0, 100), false)], 100).unwrap();
    s.next_action(100, &mut em);
    s.apply_result(&ok_step(vec![tok(1, 7), tok(2, 7)], vec![no_dec(), no_dec()], vec![],
        vec![], 1), 100, &Vec::new(), &mut em);
    s.next_action(101, &mut em);
    s.apply_result(&StepOutcome::Failure(batcher::types::ClientError::Generation(
        b"down".to_vec())), 101, &Vec::new(), &mut em);
    // no entry leaks: the map is empty and the loop is back at the queue-wait
    assert_eq!(s.processor.entries.len(), 0);
    assert_eq!(em.len(), 2);
    assert!(em.iter().all(|e| e.response.is_err()));
}

#[test]
fn deadline_prescreen_times_out_before_admission() {
    let mut s = sched(10, 8, 20, 999);
    let mut em: Vec<Emission> = Vec::new();
    let mut p = params(0, 10);
    p.deadline = Some(50);
    s.enqueue(vec![req(p, false)], 40).unwrap();
    let a = s.next_action(100, &mut em);
    assert!(matches!(a, Action::Wait));
    assert_eq!(em.len(), 1);
    let r = em[0].response.as_ref().unwrap();
    assert_eq!(r.reason, StopReason::TimeLimit);
    assert_eq!(r.gen_token_count, 0);
    assert_eq!(r.in_token_count, 2);
}

#[test]
fn deadline_beats_minimum_tokens_in_flight() {
    let mut s = sched(10, 8, 20, 999);
    let mut em: Vec<Emission> = Vec::new();
    let mut p = params(5, 10);
    p.deadline = Some(200);
    s.enqueue(vec![req(p, false)], 100).unwrap();
    s.next_action(100, &mut em);
    s.apply_result(&ok_step(vec![tok(1, 7)], vec![no_dec()], vec![], vec![], 1), 101,
        &Vec::new(), &mut em);
    assert!(em.is_empty());
    // past the deadline the very next token terminates, min_new_tokens notwithstanding
    drive_one(&mut s, 1, 8, 300, &Vec::new(), &mut em);
    assert_eq!(em.len(), 1);
    assert_eq!(em[0].response.as_ref().unwrap().reason, StopReason::TimeLimit);
    assert_eq!(s.processor.entries.len(), 0);
}

#[test]
fn min_new_tokens_overrides_eos() {
    let mut s = sched(10, 8, 20, 42);
    let mut em: Vec<Emission> = Vec::new();
    s.enqueue(vec![req(params(2, 10), false)], 100).unwrap();
    s.next_action(100, &mut em);
    // an eos token on the first step is ignored: the minimum is not met
    s.apply_result(&ok_step(vec![tok(1, 42)], vec![no_dec()], vec![], vec![], 1), 101,
        &Vec::new(), &mut em);
    assert!(em.is_empty());
    assert_eq!(s.processor.entries.len(), 1);
    drive_one(&mut s, 1, 42, 102, &Vec::new(), &mut em);
    assert_eq!(em[0].response.as_ref().unwrap().reason, StopReason::EosToken);
}

#[test]
fn fifo_batches_are_queue_prefixes() {
    let mut q = Queue::new(
        BatchingConfig { capacity: 10, size_limit: 2, waiting_too_long_threshold: 1000 },
        BatchType::SizeOnly,
    );
    let mut map = EntryMap::new();
    let mut em: Vec<Emission> = Vec::new();
    q.enqueue(vec![req(params(0, 5), false), req(params(0, 5), false),
        req(params(0, 5), false)], 100).unwrap();
    let b1 = q.try_next_batch(&mut map, 100, &mut em).unwrap();
    assert_eq!(b1.request_ids, vec![1, 2]);
    assert_eq!(q.len(), 1);
    assert_eq!(map.len(), 2);
}

#[test]
fn token_budget_policy_limits_admission() {
    // each entry weighs input_length + max_new_tokens = 2 + 5 = 7
    let mut q = Queue::new(
        BatchingConfig { capacity: 10, size_limit: 8, waiting_too_long_threshold: 1000 },
        BatchType::TokenBudget { weight_limit: 10 },
    );
    let mut map = EntryMap::new();
    let mut em: Vec<Emission> = Vec::new();
    q.enqueue(vec![req(params(0, 5), false), req(params(0, 5), false)], 100).unwrap();
    let b = q.try_next_batch(&mut map, 100, &mut em).unwrap();
    assert_eq!(b.request_ids, vec![1]);
    assert_eq!(q.len(), 1);
}

#[test]
fn detokenization_failure_aborts_one_entry() {
    let mut s = sched(10, 8, 20, 999);
    let mut em: Vec<Emission> = Vec::new();
    let mut p = params(0, 10);
    p.stop_seqs = vec![b"X".to_vec()];
    s.enqueue(vec![req(p, false), req(params(0, 10), false)], 100).unwrap();
    s.next_action(100, &mut em);
    s.apply_result(&ok_step(vec![tok(1, 7), tok(2, 7)],
        vec![TokenDecode::Failed { message: b"bad utf8".to_vec() }, no_dec()], vec![], vec![],
        1), 100, &Vec::new(), &mut em);
    assert_eq!(em.len(), 1);
    assert_eq!(em[0].request_id, 1);
    assert_eq!(em[0].response.as_ref().unwrap_err().message(), &b"bad utf8".to_vec());
    assert_eq!(s.processor.entries.len(), 1);
}

#[test]
fn error_message_prefix_is_exact() {
    let m = batcher::bytes::build_prefixed_error_message(3, &b"bad".to_vec());
    assert_eq!(m, b"Error after generating 3 tokens: bad".to_vec());
    let m0 = batcher::bytes::build_prefixed_error_message(4294967295, &b"x".to_vec());
    assert_eq!(m0, b"Error after generating 4294967295 tokens: x".to_vec());
}

#[test]
fn token_infos_decode_to_final_vec() {
    let mut ti = TokenInfos::WithIds(vec![tok(1, 7), tok(1, 8)]);
    assert!(!ti.is_empty());
    ti.decode(vec![b"a".to_vec(), b"b".to_vec()]);
    let v = ti.to_final_vec();
    assert_eq!(v.len(), 2);
    assert_eq!(v[0].text, b"a".to_vec());
    assert_eq!(v[0].token_id, 7);
    assert_eq!(v[1].text, b"b".to_vec());
    assert_eq!(v[1].token_id, 8);
}

#[test]
fn error_messages_are_accessible() {
    let c = batcher::types::ClientError::Connection(b"refused".to_vec());
    assert_eq!(c.message(), &b"refused".to_vec());
    let g = batcher::types::ClientError::Generation(b"oom".to_vec());
    assert_eq!(g.message(), &b"oom".to_vec());
    assert_eq!(InferError::RequestQueueFull.message(), b"Server too busy".to_vec());
    assert_eq!(InferError::DetokenizationError(b"bad".to_vec()).message(), b"bad".to_vec());
}

#[test]
fn streaming_early_timeout_omits_input_count() {
    // a streaming entry already received its input info in the first event
    let mut s = sched(10, 8, 20, 999);
    let mut em: Vec<Emission> = Vec::new();
    let mut p = params(0, 10);
    p.deadline = Some(50);
    s.enqueue(vec![req(p, true)], 40).unwrap();
    let a = s.next_action(100, &mut em);
    assert!(matches!(a, Action::Wait));
    assert_eq!(em.len(), 1);
    let r = em[0].response.as_ref().unwrap();
    assert_eq!(r.reason, StopReason::TimeLimit);
    assert_eq!(r.in_token_count, 0);
}
