use gpuf_c::generation::{
    c_output_bytes, generation_limit, prefill_plan, sampler_chain, GenerationLoop, LoopAction,
    SamplerKind, EOS_TOKEN,
};
use gpuf_c::worker::{
    login_outcome, p2p_udp_candidates, parse_worker_type, pull_model_outcome, relay_candidate,
    reported_model_id, status_for_c_buffer, CandidateKind, WorkerFailure, WorkerType,
};

#[test]
fn prompt_split_into_batches() {
    let plan = prefill_plan(300, 128);
    assert_eq!(plan.len(), 3);
    assert_eq!((plan[0].start, plan[0].end), (0, 128));
    assert_eq!((plan[1].start, plan[1].end), (128, 256));
    assert_eq!((plan[2].start, plan[2].end), (256, 300));
    assert_eq!(plan[1].positions[0], 128);
    assert_eq!(plan[2].positions[43], 299);
    assert!(plan[0].logits.iter().all(|&l| l == 0));
    assert_eq!(plan[2].logits[43], 1);
    assert_eq!(plan[2].logits.iter().filter(|&&l| l == 1).count(), 1);

    let one = prefill_plan(5, 0);
    assert_eq!(one.len(), 1);
    assert_eq!(one[0].positions, vec![0, 1, 2, 3, 4]);
    assert_eq!(one[0].logits, vec![0, 0, 0, 0, 1]);
    assert!(prefill_plan(0, 64).is_empty());
}

#[test]
fn limits_and_samplers() {
    assert_eq!(generation_limit(100, 4096, 10), 100);
    assert_eq!(generation_limit(5000, 4096, 10), 4086);
    assert_eq!(generation_limit(-1, 4096, 10), -1);
    assert_eq!(
        sampler_chain(true, 40, true, true),
        vec![
            SamplerKind::RepeatPenalty,
            SamplerKind::TopK,
            SamplerKind::TopP,
            SamplerKind::Temperature,
            SamplerKind::Distribution
        ]
    );
    assert_eq!(sampler_chain(false, 0, false, false), vec![SamplerKind::Distribution]);
}

#[test]
fn completion_loop_stops_at_eos() {
    let mut g = GenerationLoop::new(10, 3);
    assert_eq!(g.next_action(), LoopAction::Sample(2));
    assert_eq!(g.on_token(42), Some(3));
    g.on_decoded(true);
    assert_eq!(g.next_action(), LoopAction::Sample(0));
    assert_eq!(g.on_token(43), Some(4));
    g.on_decoded(true);
    assert_eq!(g.on_token(EOS_TOKEN), None);
    assert_eq!(g.next_action(), LoopAction::Finish);
}

#[test]
fn completion_loop_stops_at_max_tokens_and_on_failure() {
    let mut g = GenerationLoop::new(2, 1);
    assert_eq!(g.on_token(5), Some(1));
    g.on_decoded(true);
    assert_eq!(g.on_token(6), Some(2));
    g.on_decoded(true);
    assert_eq!(g.next_action(), LoopAction::Finish);

    let mut h = GenerationLoop::new(8, 1);
    assert_eq!(h.on_token(5), Some(1));
    h.on_decoded(false);
    assert_eq!(h.next_action(), LoopAction::Finish);

    let none = GenerationLoop::new(0, 1);
    assert_eq!(none.next_action(), LoopAction::Finish);
}

#[test]
fn c_buffer_copies() {
    assert_eq!(c_output_bytes(b"hello", 4), b"hel\0".to_vec());
    assert_eq!(c_output_bytes(b"hi", 10), b"hi\0".to_vec());
    assert_eq!(c_output_bytes(b"hi", 1), b"\0".to_vec());
    assert_eq!(status_for_c_buffer("Running", 8), Some(b"Running\0".to_vec()));
    assert_eq!(status_for_c_buffer("Running", 7), None);
    assert_eq!(status_for_c_buffer("a\0b", 10), None);
}

#[test]
fn login_and_pull_answers() {
    let pods = vec![Some("llama3".to_string()), None, Some("qwen".to_string())];
    assert_eq!(login_outcome(true, &pods), Ok(vec!["llama3".to_string(), "qwen".to_string()]));
    assert_eq!(login_outcome(true, &[]), Err(WorkerFailure::NoCompatibleModel));
    assert_eq!(login_outcome(false, &pods), Err(WorkerFailure::LoginFailed));
    assert_eq!(pull_model_outcome(true, &pods), Err(WorkerFailure::PullFailed));
    assert_eq!(pull_model_outcome(false, &[]), Err(WorkerFailure::NoCompatibleModel));
    assert_eq!(pull_model_outcome(false, &[None]), Ok(Vec::new()));
}

#[test]
fn reported_model_ids() {
    assert_eq!(reported_model_id(Some("/sdcard/Llama-3.2-1B.gguf")), "llama3");
    assert_eq!(reported_model_id(Some("/sdcard/qwen2-1.5b.gguf")), "qwen2-1.5b");
    assert_eq!(reported_model_id(None), "android");
}

#[test]
fn candidates_for_the_data_plane() {
    let c = p2p_udp_candidates("192.168.1.5", 40123, Some("203.0.113.9:5000".to_string()));
    assert_eq!(c.len(), 2);
    assert_eq!((c[0].kind, c[0].addr.as_str(), c[0].priority), (CandidateKind::Host, "192.168.1.5:40123", 200));
    assert_eq!((c[1].kind, c[1].addr.as_str(), c[1].priority), (CandidateKind::Srflx, "203.0.113.9:5000", 100));
    let only = p2p_udp_candidates("10.0.0.1", 0, None);
    assert_eq!(only.len(), 1);
    assert_eq!(only[0].addr, "10.0.0.1:0");
    let r = relay_candidate("198.51.100.2:3478".to_string());
    assert_eq!((r.kind, r.addr.as_str(), r.priority), (CandidateKind::Relay, "198.51.100.2:3478", 50));
}

#[test]
fn worker_types() {
    assert_eq!(parse_worker_type("TCP"), Some(WorkerType::TCP));
    assert_eq!(parse_worker_type("WS"), Some(WorkerType::WS));
    assert_eq!(parse_worker_type("tcp"), None);
    assert_eq!(parse_worker_type(""), None);
}


#[test]
fn generation_loop_respects_a_small_context_and_stops_on_request() {
    // A context of 5 tokens with a prompt of 3 leaves room for 2 tokens.
    let mut g = GenerationLoop::with_context(100, 3, 5);
    assert_eq!(g.next_action(), LoopAction::Sample(2));
    assert_eq!(g.on_token(7), Some(3));
    g.on_decoded(true);
    assert_eq!(g.on_token(8), Some(4));
    g.on_decoded(true);
    assert_eq!(g.next_action(), LoopAction::Finish);

    let mut h = GenerationLoop::with_context(100, 3, 4096);
    assert_eq!(h.on_token(7), Some(3));
    h.on_decoded(true);
    h.stop();
    assert_eq!(h.next_action(), LoopAction::Finish);
    assert_eq!(GenerationLoop::with_context(10, 4, 4).next_action(), LoopAction::Finish);
}
