use lord_of_the_files::ai::{MockTransform, ParsePath, ParsedReply};
use lord_of_the_files::generation::{
    after_attempt, cancelled_chunk, classify_round_trip, connection_probe, connection_verdict,
    dispatch_limits, finish_chunk, finish_generation, friendly_error, merge_outcomes, mock_failure,
    mock_items, mock_success, order_by_chunk, report_outcome, request_facts, undispatched,
    AttemptOutcome, AttemptStep,
    ChunkError, ChunkOutcome, ParsedChunk, RoundTrip, MAX_ATTEMPTS,
};
use lord_of_the_files::settings::ProviderProfile;
use lord_of_the_files::types::{AiChunkDetail, AiResultItem, FileEntry};

fn item(id: &str, name: &str) -> AiResultItem {
    AiResultItem { id: id.to_string(), new_name: name.to_string() }
}

fn detail(chunk_index: usize) -> AiChunkDetail {
    AiChunkDetail {
        chunk_index,
        file_count: 1,
        user_prompt: String::new(),
        raw_response: None,
        error: None,
        parse_path: None,
        elapsed_ms: 0,
        model_count: None,
        dropped_unknown: None,
        sanitized_count: None,
        missing_ids: Vec::new(),
    }
}

fn ok_outcome(chunk_index: usize, names: &[&str]) -> ChunkOutcome {
    ChunkOutcome {
        chunk_index,
        result: Ok(names.iter().map(|n| item(n, n)).collect()),
        detail: detail(chunk_index),
    }
}

fn err_outcome(chunk_index: usize, msg: &str) -> ChunkOutcome {
    ChunkOutcome { chunk_index, result: Err(msg.to_string()), detail: detail(chunk_index) }
}

fn profile(chunk_size: u32, concurrency: u32, timeout_secs: u32) -> ProviderProfile {
    ProviderProfile {
        id: "p".to_string(),
        label: "P".to_string(),
        base_url: "http://localhost".to_string(),
        model: "m".to_string(),
        chunk_size,
        concurrency,
        max_len: 300,
        timeout_secs,
        has_key: false,
    }
}

fn parsed(names: &[&str]) -> ParsedChunk {
    ParsedChunk {
        items: names.iter().map(|n| item(n, n)).collect(),
        parse_path: ParsePath::BareArray,
        raw_text: "raw".to_string(),
    }
}

// ---- merging ----------------------------------------------------------------------

#[test]
fn merge_all_succeeded_has_no_warning() {
    let m = merge_outcomes(vec![ok_outcome(0, &["a"]), ok_outcome(1, &["b", "c"])]);
    assert_eq!(m.results.len(), 3);
    assert_eq!(m.results[2].id, "c");
    assert_eq!(m.failed_chunks, 0);
    assert_eq!(m.total_chunks, 2);
    assert!(m.warning.is_none());
    assert!(m.error.is_none());
    assert_eq!(m.chunks.len(), 2);
}

#[test]
fn merge_mixed_reports_warning() {
    let m = merge_outcomes(vec![ok_outcome(0, &["a"]), err_outcome(1, "boom")]);
    assert!(m.error.is_none());
    assert_eq!(m.total_chunks, 2);
    assert_eq!(m.failed_chunks, 1);
    assert_eq!(m.results.len(), 1);
    assert_eq!(m.warning.as_deref(), Some("Suggested 1 name(s); 1 of 2 batch(es) failed."));
    assert_eq!(m.chunks.len(), 2);
}

#[test]
fn merge_all_failed_reports_first_error() {
    let m = merge_outcomes(vec![err_outcome(0, "first"), err_outcome(1, "second")]);
    assert_eq!(m.error.as_deref(), Some("first"));
    assert!(m.warning.is_none());
    assert_eq!(m.failed_chunks, 2);
    assert!(m.results.is_empty());
}

#[test]
fn merge_nothing_is_ok() {
    let m = merge_outcomes(Vec::new());
    assert!(m.error.is_none());
    assert!(m.warning.is_none());
    assert_eq!(m.total_chunks, 0);
}

#[test]
fn outcomes_are_put_back_in_chunk_order() {
    let ordered = order_by_chunk(vec![ok_outcome(2, &["c"]), ok_outcome(0, &["a"]), err_outcome(1, "x")]);
    let idx: Vec<usize> = ordered.iter().map(|o| o.chunk_index).collect();
    assert_eq!(idx, vec![0, 1, 2]);
    let m = finish_generation(vec![ok_outcome(1, &["b"]), ok_outcome(0, &["a"])]);
    assert_eq!(m.results[0].id, "a");
    assert_eq!(m.results[1].id, "b");
    assert_eq!(m.chunks[0].chunk_index, 0);
}

#[test]
fn undispatched_carries_error_only() {
    let m = undispatched("Cancelled".to_string());
    assert_eq!(m.error.as_deref(), Some("Cancelled"));
    assert_eq!(m.total_chunks, 0);
    assert!(m.chunks.is_empty());
}

// ---- attempts -----------------------------------------------------------------------

#[test]
fn timeout_is_retried_once_then_fails() {
    assert_eq!(MAX_ATTEMPTS, 2);
    assert!(matches!(after_attempt(1, AttemptOutcome::TimedOut, 60), AttemptStep::Retry));
    match after_attempt(2, AttemptOutcome::TimedOut, 60) {
        AttemptStep::Finish(Err(e)) => {
            assert_eq!(e.message, "Timed out after 60s (retried once)");
            assert!(e.message.contains("Timed out"));
            assert!(e.message.contains("retried"));
            assert!(e.raw_response.is_none());
        },
        _ => panic!("expected a final timeout"),
    }
}

#[test]
fn success_after_retry_finishes() {
    match after_attempt(2, AttemptOutcome::Success(parsed(&["a"])), 5) {
        AttemptStep::Finish(Ok(p)) => assert_eq!(p.items[0].id, "a"),
        _ => panic!("expected success"),
    }
}

#[test]
fn other_failures_are_not_retried() {
    let e = ChunkError { message: "bad key".to_string(), raw_response: None };
    match after_attempt(1, AttemptOutcome::Failed(e), 5) {
        AttemptStep::Finish(Err(e)) => assert_eq!(e.message, "bad key"),
        _ => panic!("expected the failure to stand"),
    }
    match after_attempt(1, AttemptOutcome::Cancelled, 5) {
        AttemptStep::Finish(Err(e)) => {
            assert_eq!(e.message, "Cancelled");
            assert!(!e.message.contains("Timed out"));
        },
        _ => panic!("expected cancellation"),
    }
}

#[test]
fn friendly_error_names_rejected_keys() {
    assert_eq!(friendly_error(Some(401), "API error".to_string()), "Provider rejected the API key");
    assert_eq!(friendly_error(Some(403), "API error".to_string()), "Provider rejected the API key");
    assert_eq!(friendly_error(Some(500), "API error: 500".to_string()), "API error: 500");
    assert_eq!(friendly_error(None, "network".to_string()), "network");
}

#[test]
fn round_trips_classify() {
    assert!(matches!(classify_round_trip(RoundTrip::TimedOut), AttemptOutcome::TimedOut));
    assert!(matches!(classify_round_trip(RoundTrip::Cancelled), AttemptOutcome::Cancelled));
    match classify_round_trip(RoundTrip::NoText) {
        AttemptOutcome::Failed(e) => assert_eq!(e.message, "Model returned no text content"),
        _ => panic!("expected failure"),
    }
    match classify_round_trip(RoundTrip::ProviderError { status: Some(401), message: "x".to_string() }) {
        AttemptOutcome::Failed(e) => assert_eq!(e.message, "Provider rejected the API key"),
        _ => panic!("expected failure"),
    }
    let rt = RoundTrip::Text { text: "garbage".to_string(), parsed: Err("nope".to_string()) };
    match classify_round_trip(rt) {
        AttemptOutcome::Failed(e) => {
            assert_eq!(e.message, "nope");
            assert_eq!(e.raw_response.as_deref(), Some("garbage"));
        },
        _ => panic!("expected failure"),
    }
    let reply = ParsedReply { items: vec![item("a", "A")], path: ParsePath::SubstringWrapped };
    match classify_round_trip(RoundTrip::Text { text: "t".to_string(), parsed: Ok(reply) }) {
        AttemptOutcome::Success(p) => {
            assert_eq!(p.raw_text, "t");
            assert_eq!(p.parse_path, ParsePath::SubstringWrapped);
        },
        _ => panic!("expected success"),
    }
}

// ---- finished chunks ----------------------------------------------------------------

#[test]
fn finished_chunk_records_reconcile_counts() {
    let ids = vec!["a".to_string(), "b".to_string()];
    let exts = vec!["txt".to_string(), "txt".to_string()];
    let p = ParsedChunk {
        items: vec![item("a", "Alpha.txt"), item("zz", "Ghost")],
        parse_path: ParsePath::WrappedObject,
        raw_text: "{}".to_string(),
    };
    let o = finish_chunk(3, 2, "prompt".to_string(), Ok(p), &ids, &exts, 17);
    assert_eq!(o.chunk_index, 3);
    let items = o.result.as_ref().unwrap();
    assert_eq!(items.len(), 1);
    assert_eq!(items[0].new_name, "Alpha");
    assert_eq!(o.detail.parse_path.as_deref(), Some("wrapped_object"));
    assert_eq!(o.detail.model_count, Some(2));
    assert_eq!(o.detail.dropped_unknown, Some(1));
    assert_eq!(o.detail.sanitized_count, Some(1));
    assert_eq!(o.detail.missing_ids, vec!["b".to_string()]);
    assert_eq!(o.detail.raw_response.as_deref(), Some("{}"));
    assert_eq!(o.detail.elapsed_ms, 17);
}

#[test]
fn failed_chunk_records_error_and_reply() {
    let ids = vec!["a".to_string()];
    let exts = vec!["txt".to_string()];
    let e = ChunkError { message: "bad".to_string(), raw_response: Some("text".to_string()) };
    let o = finish_chunk(0, 1, "p".to_string(), Err(e), &ids, &exts, 5);
    assert_eq!(o.result.as_ref().err().map(|s| s.as_str()), Some("bad"));
    assert_eq!(o.detail.error.as_deref(), Some("bad"));
    assert_eq!(o.detail.raw_response.as_deref(), Some("text"));
    assert!(o.detail.parse_path.is_none());
}

#[test]
fn cancelled_chunk_is_marked() {
    let o = cancelled_chunk(4, 2, "p".to_string());
    assert_eq!(o.result.as_ref().err().map(|s| s.as_str()), Some("Cancelled"));
    assert_eq!(o.detail.error.as_deref(), Some("Cancelled"));
    assert_eq!(o.detail.elapsed_ms, 0);
}

#[test]
fn mock_chunk_transforms_stems() {
    let chunk = vec![FileEntry {
        id: "a".to_string(),
        path: "/t/old.txt".to_string(),
        parent_dir: "/t".to_string(),
        stem: "old".to_string(),
        ext: "txt".to_string(),
        is_dir: false,
        size: 0,
        modified: None,
    }];
    let items = mock_items(&chunk, MockTransform::Uppercase);
    assert_eq!(items[0].id, "a");
    assert_eq!(items[0].new_name, "OLD");
    let p = mock_success(items, "{}".to_string());
    assert_eq!(p.parse_path, ParsePath::WrappedObject);
    assert!(mock_failure().message.contains("simulated"));
}

// ---- dispatch -------------------------------------------------------------------------

#[test]
fn zero_limits_count_as_one() {
    let l = dispatch_limits(&profile(0, 0, 0));
    assert_eq!((l.chunk_size, l.concurrency, l.timeout_secs), (1, 1, 1));
    let l = dispatch_limits(&profile(40, 3, 60));
    assert_eq!((l.chunk_size, l.concurrency, l.timeout_secs), (40, 3, 60));
}

#[test]
fn connection_test_probe_and_verdict() {
    let (entries, prompt) = connection_probe();
    assert_eq!(entries.len(), 1);
    assert_eq!(entries[0].path, "/test/file.txt");
    assert_eq!(prompt, "Echo the original name");
    assert_eq!(connection_verdict(None), Ok("ok".to_string()));
    assert_eq!(connection_verdict(Some("down".to_string())), Err("down".to_string()));
}

#[test]
fn request_facts_and_outcome() {
    let f = request_facts(&profile(0, 4, 30), "sk", true);
    assert_eq!((f.chunk_size, f.concurrency, f.timeout_secs, f.max_len), (1, 4, 30, 300));
    assert!(f.has_key);
    assert!(f.mock);
    assert!(!request_facts(&profile(40, 3, 60), "", false).has_key);
    assert_eq!(report_outcome(Some("down".to_string()), 7), Err("down".to_string()));
    assert_eq!(report_outcome(None, 7), Ok(7));
}
