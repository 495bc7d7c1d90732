//! Per-step stopping criteria: deadline, token limits, end-of-sequence
//! token and stop-sequence matching on the accumulated output bytes.

use vstd::prelude::*;
use crate::types::StopReason;
use crate::entry::{Entry, EntryView};
use crate::bytes::{contains_at, contains_seq, slice_matches_at};

verus! {

/// The accumulated decoded output of an entry (empty if it has none).
pub open spec fn output_of(e: EntryView) -> Seq<u8> {
    match e.output {
        Some(o) => o,
        None => Seq::<u8>::empty(),
    }
}

/// `ss` occurs in `output` at a position whose end lies within the window
/// that touches the `added` bytes appended by the current step. Exactly one
/// token was appended since the last check, so any new occurrence must
/// reach into that suffix.
pub open spec fn matches_in_window(output: Seq<u8>, added: nat, ss: Seq<u8>) -> bool {
    exists|p: int| contains_at(output, p, ss) && p + ss.len() + added > output.len()
}

/// Some stop sequence of `e` matches the tail window of its accumulated
/// output after `last_text` was appended this step.
pub open spec fn spec_matches_stop_sequence(e: EntryView, last_text: Option<Seq<u8>>) -> bool {
    match last_text {
        Some(t) => exists|k: int| 0 <= k < e.request.parameters.stop_seqs.len()
            && matches_in_window(output_of(e), t.len(), #[trigger] e.request.parameters.stop_seqs[k]),
        None => false,
    }
}

/// A window match is in particular an occurrence in the whole output.
pub proof fn lemma_window_match_is_occurrence(output: Seq<u8>, added: nat, ss: Seq<u8>)
    requires
        matches_in_window(output, added, ss),
    ensures
        contains_seq(output, ss),
{
    let p = choose|p: int| contains_at(output, p, ss) && p + ss.len() + added > output.len();
    assert(contains_at(output, p, ss));
}

/// Byte-level stop-sequence check over the suffix window of the entry's
/// accumulated output, as newly extended by `last_text`.
pub fn matches_stop_sequence(e: &Entry, last_text: Option<&Vec<u8>>) -> (r: bool)
    requires
        e@.request.parameters.wf(),
        last_text matches Some(t) ==> {
            &&& e@.output is Some
            &&& t@.len() <= output_of(e@).len()
        },
    ensures
        r == spec_matches_stop_sequence(e@, match last_text {
            Some(t) => Some(t@),
            None => None,
        }),
{
    let text = match last_text {
        Some(t) => t,
        None => {
            return false;
        },
    };
    let output: &Vec<u8> = match &e.output {
        Some(o) => o,
        None => {
            proof {
                assert(false);
            }
            return false;
        },
    };
    let ghost out_view: Seq<u8> = output@;
    let ghost added: nat = text@.len();
    let out_len: usize = output.len();
    // All bytes up to `out_len - added` were already checked last step, so
    // only matches that end beyond that boundary are new.
    let checked: usize = out_len - text.len();
    let nss: usize = e.request.parameters.stop_seqs.len();
    let mut k: usize = 0;
    while k < nss
        invariant
            nss == e@.request.parameters.stop_seqs.len(),
            out_len == out_view.len(),
            added <= out_len,
            checked == out_len - added,
            out_view == output_of(e@),
            e@.output is Some,
            added == text@.len(),
            last_text matches Some(lt) && lt@ == text@,
            0 <= k <= nss,
            forall|k2: int| 0 <= k2 < k ==> !matches_in_window(out_view, added,
                #[trigger] e@.request.parameters.stop_seqs[k2]),
            // re-bind the borrowed pieces for the isolated loop
            e.output matches Some(o) && o@ == out_view,
            e.request.parameters.stop_seqs@.len() == nss,
            forall|k2: int| 0 <= k2 < nss ==> #[trigger] e.request.parameters.stop_seqs@[k2]@
                == e@.request.parameters.stop_seqs[k2],
            e@.request.parameters.wf(),
        decreases nss - k,
    {
        let ss: &Vec<u8> = &e.request.parameters.stop_seqs[k];
        let len: usize = ss.len();
        if len <= out_len {
            let lo: usize = if checked >= len {
                checked - len + 1
            } else {
                0
            };
            let hi: usize = out_len - len;
            let output: &Vec<u8> = match &e.output {
                Some(o) => o,
                None => {
                    proof {
                        assert(false);
                    }
                    return false;
                },
            };
            let mut p: usize = lo;
            while p <= hi
                invariant
                    k < nss,
                    nss == e@.request.parameters.stop_seqs.len(),
                    ss@ == e@.request.parameters.stop_seqs[k as int],
                    e@.output is Some,
                    out_view == output_of(e@),
                    added == text@.len(),
                    last_text matches Some(lt) && lt@ == text@,
                    out_len == out_view.len(),
                    added <= out_len,
                    checked == out_len - added,
                    len == ss@.len(),
                    1 <= len <= out_len,
                    hi == out_len - len,
                    lo == if checked >= len { checked - len + 1 } else { 0 },
                    lo <= p <= hi + 1,
                    output@ == out_view,
                    forall|p2: int| lo <= p2 < p ==> !contains_at(out_view, p2, ss@),
                decreases hi + 1 - p,
            {
                if slice_matches_at(output, p, ss) {
                    proof {
                        assert(contains_at(out_view, p as int, ss@));
                        assert(p + ss@.len() + added > out_view.len());
                        assert(matches_in_window(out_view, added, ss@));
                        assert(e@.request.parameters.stop_seqs[k as int] == ss@);
                    }
                    return true;
                }
                p = p + 1;
            }
            proof {
                assert forall|q: int| !(contains_at(out_view, q, ss@)
                    && q + ss@.len() + added > out_view.len()) by {
                    if contains_at(out_view, q, ss@) && q + ss@.len() + added > out_view.len() {
                        assert(0 <= q);
                        assert(q + len <= out_len);
                        assert(q <= hi);
                        assert(q + len + added > out_len);
                        assert(q >= lo);
                        assert(!contains_at(out_view, q, ss@));
                    }
                }
                assert(!matches_in_window(out_view, added, ss@));
            }
        } else {
            proof {
                assert forall|q: int| !(contains_at(out_view, q, ss@)
                    && q + ss@.len() + added > out_view.len()) by {
                }
                assert(!matches_in_window(out_view, added, ss@));
            }
        }
        proof {
            assert(e@.request.parameters.stop_seqs[k as int] == ss@);
        }
        k = k + 1;
    }
    proof {
        assert(!spec_matches_stop_sequence(e@, Some(text@)));
    }
    false
}

/// Stopping criteria in priority order: deadline, minimum tokens still
/// owed, end-of-sequence token, token limit, stop sequence.
pub open spec fn spec_stopping_criteria(e: EntryView, last_token_id: u32, eos_token_id: u32,
    last_text: Option<Seq<u8>>, now: u64) -> StopReason {
    let params = e.request.parameters;
    if params.deadline matches Some(d) && now > d {
        StopReason::TimeLimit
    } else if e.generated_tokens < params.min_new_tokens {
        StopReason::NotFinished
    } else if last_token_id == eos_token_id {
        StopReason::EosToken
    } else if e.generated_tokens >= params.max_new_tokens {
        if params.max_is_token_limit {
            StopReason::TokenLimit
        } else {
            StopReason::MaxTokens
        }
    } else if spec_matches_stop_sequence(e, last_text) {
        StopReason::StopSequence
    } else {
        StopReason::NotFinished
    }
}

/// Evaluate the stopping criteria for `e` after its latest token.
pub fn check_stopping_criteria(e: &Entry, last_token_id: u32, eos_token_id: u32,
    last_text: Option<&Vec<u8>>, now: u64) -> (r: StopReason)
    requires
        e@.request.parameters.wf(),
        last_text matches Some(t) ==> {
            &&& e@.output is Some
            &&& t@.len() <= output_of(e@).len()
        },
    ensures
        r == spec_stopping_criteria(e@, last_token_id, eos_token_id, match last_text {
            Some(t) => Some(t@),
            None => None,
        }, now),
{
    let params = &e.request.parameters;
    match params.deadline {
        Some(d) if now > d => StopReason::TimeLimit,
        _ => {
            if e.generated_tokens < params.min_new_tokens {
                StopReason::NotFinished
            } else if last_token_id == eos_token_id {
                StopReason::EosToken
            } else if e.generated_tokens >= params.max_new_tokens {
                if params.max_is_token_limit {
                    StopReason::TokenLimit
                } else {
                    StopReason::MaxTokens
                }
            } else if matches_stop_sequence(e, last_text) {
                StopReason::StopSequence
            } else {
                StopReason::NotFinished
            }
        },
    }
}

/// Deadline respect: once an entry's deadline has elapsed, the stopping
/// criteria yield `TimeLimit` and nothing else, whatever else holds.
pub proof fn lemma_deadline_respect(e: EntryView, last_token_id: u32, eos_token_id: u32,
    last_text: Option<Seq<u8>>, now: u64)
    requires
        e.request.parameters.deadline matches Some(d) && now > d,
    ensures
        spec_stopping_criteria(e, last_token_id, eos_token_id, last_text, now)
            == StopReason::TimeLimit,
{
}

/// Stop-sequence correctness: if the criteria say `StopSequence`, some stop
/// sequence of the entry occurs in its accumulated output.
pub proof fn lemma_stop_sequence_in_output(e: EntryView, last_token_id: u32, eos_token_id: u32,
    last_text: Option<Seq<u8>>, now: u64)
    requires
        spec_stopping_criteria(e, last_token_id, eos_token_id, last_text, now)
            == StopReason::StopSequence,
    ensures
        exists|k: int| 0 <= k < e.request.parameters.stop_seqs.len()
            && contains_seq(output_of(e), #[trigger] e.request.parameters.stop_seqs[k]),
{
    let t = last_text->0;
    let k = choose|k: int| 0 <= k < e.request.parameters.stop_seqs.len()
        && matches_in_window(output_of(e), t.len(), #[trigger] e.request.parameters.stop_seqs[k]);
    lemma_window_match_is_occurrence(output_of(e), t.len(), e.request.parameters.stop_seqs[k]);
}

} // verus!
