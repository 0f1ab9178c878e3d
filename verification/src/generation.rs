//! One AI generation from dispatch to report: the limits a profile is run with, what each
//! chunk's round trip turns into, the single retry after a timeout, and how the per-chunk
//! outcomes merge into the report. The application performs the round trips (and the waits
//! and cancellations around them) and hands their results to these functions.

use vstd::prelude::*;

use crate::ai::{
    apply_mock_transform, items_view, kept_items, missing_spec, mock_transform_spec,
    parse_path_name, reconcile, sanitized_count_spec, strings_view, unknown_count, MockTransform,
    ParsePath, ParsedReply,
};
use crate::text::{copy_str, dec_digits, push_all, push_str, str_to_chars, string_from_chars, u64_to_dec};
use crate::settings::ProviderProfile;
use crate::types::{AiChunkDetail, AiResultItem, FileEntry};

verus! {

// ---------------------------------------------------------------------------------------
// Ordering and merging chunk outcomes
// ---------------------------------------------------------------------------------------

/// What one chunk came to: the suggestions it produced, or the message it failed with, and
/// the detail recorded for it.
pub struct ChunkOutcome {
    pub chunk_index: usize,
    pub result: Result<Vec<AiResultItem>, String>,
    pub detail: AiChunkDetail,
}

pub open spec fn sorted_by_chunk(s: Seq<ChunkOutcome>) -> bool {
    forall|i: int, j: int| 0 <= i < j < s.len() ==> s[i].chunk_index <= s[j].chunk_index
}

proof fn empty_to_multiset<A>(s: Seq<A>)
    requires
        s.len() == 0,
    ensures
        s.to_multiset() =~= vstd::multiset::Multiset::empty(),
{
    s.to_multiset_ensures();
    vstd::multiset::lemma_multiset_empty_len(s.to_multiset());
}

/// Outcomes arrive in completion order; this puts them back in chunk order.
pub fn order_by_chunk(outcomes: Vec<ChunkOutcome>) -> (r: Vec<ChunkOutcome>)
    ensures
        r@.to_multiset() =~= outcomes@.to_multiset(),
        sorted_by_chunk(r@),
{
    let ghost all = outcomes@.to_multiset();
    let mut rest = outcomes;
    let mut out: Vec<ChunkOutcome> = Vec::new();
    proof {
        empty_to_multiset(out@);
    }
    while rest.len() > 0
        invariant
            out@.to_multiset().add(rest@.to_multiset()) =~= all,
            sorted_by_chunk(out@),
        decreases rest.len(),
    {
        let ghost before = rest@;
        let x = rest.pop().unwrap();
        proof {
            assert(before =~= rest@.push(x));
            vstd::seq_lib::to_multiset_build(rest@, x);
        }
        let mut pos: usize = 0;
        while pos < out.len() && out[pos].chunk_index <= x.chunk_index
            invariant
                pos <= out.len(),
                forall|k: int| 0 <= k < pos ==> out@[k].chunk_index <= x.chunk_index,
            decreases out.len() - pos,
        {
            pos = pos + 1;
        }
        let ghost o0 = out@;
        out.insert(pos, x);
        proof {
            vstd::seq_lib::to_multiset_insert(o0, pos as int, x);
            assert(out@ =~= o0.insert(pos as int, x));
            assert forall|i: int, j: int| 0 <= i < j < out@.len() implies out@[i].chunk_index
                <= out@[j].chunk_index by {
                if j < pos {
                } else if j == pos {
                } else if i < pos {
                    assert(o0[i].chunk_index <= x.chunk_index);
                    assert(x.chunk_index < o0[pos as int].chunk_index);
                    assert(o0[pos as int].chunk_index <= o0[j - 1].chunk_index);
                } else if i == pos {
                    assert(x.chunk_index < o0[pos as int].chunk_index);
                    assert(o0[pos as int].chunk_index <= o0[j - 1].chunk_index);
                } else {
                    assert(o0[i - 1].chunk_index <= o0[j - 1].chunk_index);
                }
            }
        }
    }
    proof {
        empty_to_multiset(rest@);
    }
    out
}

/// The suggestions of the chunks that succeeded, in the order given.
pub open spec fn ok_items(s: Seq<ChunkOutcome>) -> Seq<AiResultItem>
    decreases s.len(),
{
    if s.len() == 0 {
        seq![]
    } else {
        ok_items(s.drop_last()) + match s.last().result {
            Ok(v) => v@,
            Err(_) => seq![],
        }
    }
}

/// How many chunks failed.
pub open spec fn failed_count(s: Seq<ChunkOutcome>) -> nat
    decreases s.len(),
{
    if s.len() == 0 {
        0
    } else {
        failed_count(s.drop_last()) + if s.last().result is Err {
            1nat
        } else {
            0nat
        }
    }
}

/// The message of the first chunk that failed.
pub open spec fn first_error(s: Seq<ChunkOutcome>) -> Option<Seq<char>>
    decreases s.len(),
{
    if s.len() == 0 {
        None
    } else {
        match first_error(s.drop_last()) {
            Some(e) => Some(e),
            None => match s.last().result {
                Err(e) => Some(e@),
                Ok(_) => None,
            },
        }
    }
}

/// The note on a generation where some, not all, chunks failed.
pub open spec fn partial_warning(suggested: nat, failed: nat, total: nat) -> Seq<char> {
    "Suggested "@ + dec_digits(suggested) + " name(s); "@ + dec_digits(failed) + " of "@
        + dec_digits(total) + " batch(es) failed."@
}

/// Everything a generation reports besides the request it was made with.
pub struct ChunkMerge {
    pub results: Vec<AiResultItem>,
    pub failed_chunks: u32,
    pub total_chunks: u32,
    pub warning: Option<String>,
    pub error: Option<String>,
    pub chunks: Vec<AiChunkDetail>,
}

/// `m` is the merge of the outcomes `s`, taken in that order: every suggestion of the
/// chunks that succeeded, every chunk's detail, the failure count; an error (the first
/// chunk's message) when every chunk failed, otherwise a warning when some did.
pub open spec fn merge_matches(m: ChunkMerge, s: Seq<ChunkOutcome>) -> bool {
    let failed = failed_count(s);
    &&& m.results@ == ok_items(s)
    &&& m.chunks@ == s.map_values(|o: ChunkOutcome| o.detail)
    &&& m.failed_chunks == failed
    &&& m.total_chunks == s.len()
    &&& if s.len() > 0 && failed == s.len() {
        &&& m.warning is None
        &&& opt_view(m.error) == Some(
            match first_error(s) {
                Some(e) => e,
                None => "AI generation failed"@,
            },
        )
    } else {
        &&& m.error is None
        &&& opt_view(m.warning) == if failed > 0 {
            Some(partial_warning(ok_items(s).len(), failed, s.len()))
        } else {
            None
        }
    }
}

pub open spec fn opt_view(o: Option<String>) -> Option<Seq<char>> {
    match o {
        Some(x) => Some(x@),
        None => None,
    }
}

fn decimal(n: u64) -> (r: Vec<char>)
    ensures
        r@ == dec_digits(n as nat),
{
    u64_to_dec(n)
}

/// Merges outcomes already in chunk order.
pub fn merge_outcomes(outcomes: Vec<ChunkOutcome>) -> (r: ChunkMerge)
    requires
        outcomes.len() <= u32::MAX,
    ensures
        merge_matches(r, outcomes@),
{
    let ghost all = outcomes@;
    let total = outcomes.len();
    let mut rest = outcomes;
    let mut results: Vec<AiResultItem> = Vec::new();
    let mut failed_chunks: u32 = 0;
    let mut first: Option<String> = None;
    let mut chunks: Vec<AiChunkDetail> = Vec::new();
    let mut i: usize = 0;
    while rest.len() > 0
        invariant
            i + rest@.len() == total,
            total == all.len(),
            total <= u32::MAX,
            rest@ == all.skip(i as int),
            results@ == ok_items(all.take(i as int)),
            chunks@ == all.take(i as int).map_values(|o: ChunkOutcome| o.detail),
            failed_chunks == failed_count(all.take(i as int)),
            failed_chunks <= i,
            opt_view(first) == first_error(all.take(i as int)),
        decreases rest.len(),
    {
        let o = rest.remove(0);
        proof {
            assert(o == all[i as int]);
            assert(all.take(i + 1).drop_last() =~= all.take(i as int));
            assert(all.take(i + 1).last() == o);
            assert(rest@ =~= all.skip(i + 1));
        }
        let ghost c0 = chunks@;
        chunks.push(o.detail);
        assert(chunks@ =~= all.take(i + 1).map_values(|o: ChunkOutcome| o.detail));
        match o.result {
            Ok(items) => {
                let mut items = items;
                results.append(&mut items);
            },
            Err(e) => {
                failed_chunks = failed_chunks + 1;
                if first.is_none() {
                    first = Some(e);
                }
            },
        }
        i = i + 1;
    }
    proof {
        assert(all.take(i as int) =~= all);
    }
    let total32 = total as u32;
    if total > 0 && failed_chunks == total32 {
        let err = match first {
            Some(e) => e,
            None => string_from_chars(str_to_chars("AI generation failed").as_slice()),
        };
        return ChunkMerge {
            results,
            failed_chunks,
            total_chunks: total32,
            warning: None,
            error: Some(err),
            chunks,
        };
    }
    let warning = if failed_chunks > 0 {
        let mut w = str_to_chars("Suggested ");
        let n = decimal(results.len() as u64);
        push_all(&mut w, &n);
        push_str(&mut w, " name(s); ");
        let f = decimal(failed_chunks as u64);
        push_all(&mut w, &f);
        push_str(&mut w, " of ");
        let t = decimal(total32 as u64);
        push_all(&mut w, &t);
        push_str(&mut w, " batch(es) failed.");
        Some(string_from_chars(w.as_slice()))
    } else {
        None
    };
    ChunkMerge { results, failed_chunks, total_chunks: total32, warning, error: None, chunks }
}

/// The report of a generation whose outcomes arrived in completion order: they are put back
/// in chunk order and merged.
pub fn finish_generation(outcomes: Vec<ChunkOutcome>) -> (r: ChunkMerge)
    requires
        outcomes.len() <= u32::MAX,
    ensures
        exists|q: Seq<ChunkOutcome>|
            #![trigger merge_matches(r, q)]
            q.to_multiset() =~= outcomes@.to_multiset() && sorted_by_chunk(q) && merge_matches(
                r,
                q,
            ),
{
    let ordered = order_by_chunk(outcomes);
    proof {
        ordered@.to_multiset_ensures();
        outcomes@.to_multiset_ensures();
    }
    let r = merge_outcomes(ordered);
    assert(merge_matches(r, ordered@));
    r
}

// ---------------------------------------------------------------------------------------
// One chunk's round trip
// ---------------------------------------------------------------------------------------

/// A chunk is tried at most this often: one attempt, and one retry after a timeout.
pub const MAX_ATTEMPTS: u32 = 2;

/// Suggestions parsed from a reply, with the reply's text.
pub struct ParsedChunk {
    pub items: Vec<AiResultItem>,
    pub parse_path: ParsePath,
    pub raw_text: String,
}

/// A chunk's final failure, with whatever reply text was received.
pub struct ChunkError {
    pub message: String,
    pub raw_response: Option<String>,
}

/// What one attempt came to.
pub enum AttemptOutcome {
    Success(ParsedChunk),
    TimedOut,
    Cancelled,
    Failed(ChunkError),
}

/// What to do after an attempt: try again, or stop with the chunk's result.
pub enum AttemptStep {
    Retry,
    Finish(Result<ParsedChunk, ChunkError>),
}

/// The message of a chunk whose retry timed out as well.
pub open spec fn timeout_message(secs: nat) -> Seq<char> {
    "Timed out after "@ + dec_digits(secs) + "s (retried once)"@
}

/// Decides after attempt number `attempt_num`: a success or a failure ends the chunk, a
/// cancellation ends it as cancelled, and a timeout is retried once.
pub fn after_attempt(attempt_num: u32, outcome: AttemptOutcome, timeout_secs: u64) -> (r:
    AttemptStep)
    requires
        1 <= attempt_num <= MAX_ATTEMPTS,
    ensures
        attempt_num == MAX_ATTEMPTS ==> r is Finish,
        match outcome {
            AttemptOutcome::Success(p) => r == AttemptStep::Finish(Ok(p)),
            AttemptOutcome::Failed(e) => r == AttemptStep::Finish(Err(e)),
            AttemptOutcome::Cancelled => r matches AttemptStep::Finish(Err(e)) && e.message@
                == "Cancelled"@ && e.raw_response is None,
            AttemptOutcome::TimedOut => if attempt_num < MAX_ATTEMPTS {
                r is Retry
            } else {
                r matches AttemptStep::Finish(Err(e)) && e.message@ == timeout_message(
                    timeout_secs as nat,
                ) && e.raw_response is None
            },
        },
{
    match outcome {
        AttemptOutcome::Success(p) => AttemptStep::Finish(Ok(p)),
        AttemptOutcome::Failed(e) => AttemptStep::Finish(Err(e)),
        AttemptOutcome::Cancelled => AttemptStep::Finish(
            Err(
                ChunkError {
                    message: string_from_chars(str_to_chars("Cancelled").as_slice()),
                    raw_response: None,
                },
            ),
        ),
        AttemptOutcome::TimedOut => {
            if attempt_num < MAX_ATTEMPTS {
                AttemptStep::Retry
            } else {
                let mut m = str_to_chars("Timed out after ");
                let d = decimal(timeout_secs);
                push_all(&mut m, &d);
                push_str(&mut m, "s (retried once)");
                AttemptStep::Finish(
                    Err(ChunkError { message: string_from_chars(m.as_slice()), raw_response: None }),
                )
            }
        },
    }
}

/// The message shown for a provider error: a rejected key (HTTP 401 or 403) is said in
/// words, anything else keeps the provider's own message.
pub open spec fn friendly_error_spec(status: Option<u16>, message: Seq<char>) -> Seq<char> {
    if status == Some(401u16) || status == Some(403u16) {
        "Provider rejected the API key"@
    } else {
        message
    }
}

/// The message for a provider error with HTTP status `status` (when it had one) and
/// displayed text `message`.
pub fn friendly_error(status: Option<u16>, message: String) -> (r: String)
    ensures
        r@ == friendly_error_spec(status, message@),
{
    match status {
        Some(code) => {
            if code == 401 || code == 403 {
                return string_from_chars(str_to_chars("Provider rejected the API key").as_slice());
            }
        },
        None => {},
    }
    message
}

/// How one provider round trip ended.
pub enum RoundTrip {
    /// The generation was cancelled while waiting.
    Cancelled,
    /// No reply within the timeout.
    TimedOut,
    /// The provider answered with an error (its HTTP status, when it had one).
    ProviderError { status: Option<u16>, message: String },
    /// A reply without any text.
    NoText,
    /// A reply's text, and what parsing it came to.
    Text { text: String, parsed: Result<ParsedReply, String> },
}

/// The attempt a round trip amounts to.
pub fn classify_round_trip(rt: RoundTrip) -> (r: AttemptOutcome)
    ensures
        match rt {
            RoundTrip::Cancelled => r is Cancelled,
            RoundTrip::TimedOut => r is TimedOut,
            RoundTrip::ProviderError { status, message } => r matches AttemptOutcome::Failed(e)
                && e.message@ == friendly_error_spec(status, message@) && e.raw_response is None,
            RoundTrip::NoText => r matches AttemptOutcome::Failed(e) && e.message@
                == "Model returned no text content"@ && e.raw_response is None,
            RoundTrip::Text { text, parsed } => match parsed {
                Ok(p) => r == AttemptOutcome::Success(
                    ParsedChunk { items: p.items, parse_path: p.path, raw_text: text },
                ),
                Err(m) => r == AttemptOutcome::Failed(
                    ChunkError { message: m, raw_response: Some(text) },
                ),
            },
        },
{
    match rt {
        RoundTrip::Cancelled => AttemptOutcome::Cancelled,
        RoundTrip::TimedOut => AttemptOutcome::TimedOut,
        RoundTrip::ProviderError { status, message } => AttemptOutcome::Failed(
            ChunkError { message: friendly_error(status, message), raw_response: None },
        ),
        RoundTrip::NoText => AttemptOutcome::Failed(
            ChunkError {
                message: string_from_chars(str_to_chars("Model returned no text content").as_slice()),
                raw_response: None,
            },
        ),
        RoundTrip::Text { text, parsed } => match parsed {
            Ok(p) => AttemptOutcome::Success(
                ParsedChunk { items: p.items, parse_path: p.path, raw_text: text },
            ),
            Err(m) => AttemptOutcome::Failed(ChunkError { message: m, raw_response: Some(text) }),
        },
    }
}

// ---------------------------------------------------------------------------------------
// What a finished chunk records
// ---------------------------------------------------------------------------------------

/// The outcome of a chunk that was never sent because the generation was already cancelled.
pub fn cancelled_chunk(chunk_index: usize, file_count: usize, user_prompt: String) -> (r:
    ChunkOutcome)
    ensures
        r.chunk_index == chunk_index,
        r.result matches Err(e) && e@ == "Cancelled"@,
        r.detail.chunk_index == chunk_index,
        r.detail.file_count == file_count,
        r.detail.user_prompt@ == user_prompt@,
        r.detail.raw_response is None,
        opt_view(r.detail.error) == Some("Cancelled"@),
        r.detail.parse_path is None,
        r.detail.elapsed_ms == 0,
        r.detail.model_count is None,
        r.detail.dropped_unknown is None,
        r.detail.sanitized_count is None,
        r.detail.missing_ids@.len() == 0,
{
    let detail = AiChunkDetail {
        chunk_index,
        file_count,
        user_prompt,
        raw_response: None,
        error: Some(string_from_chars(str_to_chars("Cancelled").as_slice())),
        parse_path: None,
        elapsed_ms: 0,
        model_count: None,
        dropped_unknown: None,
        sanitized_count: None,
        missing_ids: Vec::new(),
    };
    ChunkOutcome {
        chunk_index,
        result: Err(string_from_chars(str_to_chars("Cancelled").as_slice())),
        detail,
    }
}

/// The outcome of a chunk whose round trip finished after `elapsed_ms`: a success keeps the
/// suggestions that reconcile with the chunk's files (`ids[k]` has extension `exts[k]`)
/// and records the reply and the reconcile counts; a failure records its message and
/// whatever reply text there was.
pub fn finish_chunk(
    chunk_index: usize,
    file_count: usize,
    user_prompt: String,
    outcome: Result<ParsedChunk, ChunkError>,
    ids: &Vec<String>,
    exts: &Vec<String>,
    elapsed_ms: u64,
) -> (r: ChunkOutcome)
    requires
        ids.len() == exts.len(),
    ensures
        r.chunk_index == chunk_index,
        r.detail.chunk_index == chunk_index,
        r.detail.file_count == file_count,
        r.detail.user_prompt@ == user_prompt@,
        r.detail.elapsed_ms == elapsed_ms,
        match outcome {
            Ok(p) => {
                let iv = items_view(p.items@);
                let idv = strings_view(ids@);
                let exv = strings_view(exts@);
                &&& r.result matches Ok(v) && items_view(v@) == kept_items(iv, idv, exv)
                &&& opt_view(r.detail.raw_response) == Some(p.raw_text@)
                &&& r.detail.error is None
                &&& opt_view(r.detail.parse_path) == Some(parse_path_name(p.parse_path))
                &&& r.detail.model_count == Some(p.items.len())
                &&& r.detail.dropped_unknown matches Some(n) && n == unknown_count(iv, idv)
                &&& r.detail.sanitized_count matches Some(n) && n == sanitized_count_spec(
                    iv,
                    idv,
                    exv,
                )
                &&& strings_view(r.detail.missing_ids@) == missing_spec(
                    idv,
                    iv.map_values(|it: (Seq<char>, Seq<char>)| it.0),
                )
            },
            Err(e) => {
                &&& r.result matches Err(m) && m@ == e.message@
                &&& opt_view(r.detail.raw_response) == opt_view(e.raw_response)
                &&& opt_view(r.detail.error) == Some(e.message@)
                &&& r.detail.parse_path is None
                &&& r.detail.model_count is None
                &&& r.detail.dropped_unknown is None
                &&& r.detail.sanitized_count is None
                &&& r.detail.missing_ids@.len() == 0
            },
        },
{
    match outcome {
        Ok(parsed) => {
            let model_count = parsed.items.len();
            let report = reconcile(parsed.items, ids, exts);
            let path = parsed.parse_path.as_str();
            let detail = AiChunkDetail {
                chunk_index,
                file_count,
                user_prompt,
                raw_response: Some(parsed.raw_text),
                error: None,
                parse_path: Some(string_from_chars(str_to_chars(path).as_slice())),
                elapsed_ms,
                model_count: Some(report.model_count),
                dropped_unknown: Some(report.dropped_unknown),
                sanitized_count: Some(report.sanitized_count),
                missing_ids: report.missing_ids,
            };
            ChunkOutcome { chunk_index, result: Ok(report.items), detail }
        },
        Err(e) => {
            let message = copy_str(e.message.as_str());
            let detail = AiChunkDetail {
                chunk_index,
                file_count,
                user_prompt,
                raw_response: e.raw_response,
                error: Some(e.message),
                parse_path: None,
                elapsed_ms,
                model_count: None,
                dropped_unknown: None,
                sanitized_count: None,
                missing_ids: Vec::new(),
            };
            ChunkOutcome { chunk_index, result: Err(message), detail }
        },
    }
}

// ---------------------------------------------------------------------------------------
// The simulated provider
// ---------------------------------------------------------------------------------------

/// The suggestions a simulated chunk makes: each file keeps its id and gets its stem run
/// through `transform`.
pub fn mock_items(chunk: &Vec<FileEntry>, transform: MockTransform) -> (r: Vec<AiResultItem>)
    ensures
        r.len() == chunk.len(),
        forall|i: int|
            0 <= i < chunk.len() ==> (#[trigger] r@[i]).id@ == chunk@[i].id@ && r@[i].new_name@
                == mock_transform_spec(transform, chunk@[i].stem@),
{
    let mut out: Vec<AiResultItem> = Vec::new();
    let mut i: usize = 0;
    while i < chunk.len()
        invariant
            i <= chunk.len(),
            out.len() == i,
            forall|k: int|
                0 <= k < i ==> (#[trigger] out@[k]).id@ == chunk@[k].id@ && out@[k].new_name@
                    == mock_transform_spec(transform, chunk@[k].stem@),
        decreases chunk.len() - i,
    {
        let e = &chunk[i];
        let new_name = apply_mock_transform(transform, e.stem.as_str());
        out.push(AiResultItem { id: copy_str(e.id.as_str()), new_name });
        i = i + 1;
    }
    out
}

/// A simulated chunk that succeeded: its suggestions, as if parsed from `{"results":[...]}`,
/// with `raw_text` their rendering.
pub fn mock_success(items: Vec<AiResultItem>, raw_text: String) -> (r: ParsedChunk)
    ensures
        r.items@ == items@,
        r.parse_path == ParsePath::WrappedObject,
        r.raw_text@ == raw_text@,
{
    ParsedChunk { items, parse_path: ParsePath::WrappedObject, raw_text }
}

/// A simulated provider failure.
pub fn mock_failure() -> (r: ChunkError)
    ensures
        r.message@ == "Mock AI: simulated provider failure"@,
        r.raw_response is None,
{
    ChunkError {
        message: string_from_chars(str_to_chars("Mock AI: simulated provider failure").as_slice()),
        raw_response: None,
    }
}

// ---------------------------------------------------------------------------------------
// Dispatch
// ---------------------------------------------------------------------------------------

/// The limits a generation runs with: chunk size, number of chunks in flight, and the
/// per-attempt timeout in seconds, each at least one.
pub struct DispatchLimits {
    pub chunk_size: usize,
    pub concurrency: usize,
    pub timeout_secs: u64,
}

pub open spec fn at_least_one(x: u32) -> nat {
    if x == 0 {
        1
    } else {
        x as nat
    }
}

/// The limits of a profile, a zero setting counting as one.
pub fn dispatch_limits(profile: &ProviderProfile) -> (r: DispatchLimits)
    ensures
        r.chunk_size == at_least_one(profile.chunk_size),
        r.concurrency == at_least_one(profile.concurrency),
        r.timeout_secs == at_least_one(profile.timeout_secs),
{
    let c = if profile.chunk_size == 0 {
        1
    } else {
        profile.chunk_size
    };
    let n = if profile.concurrency == 0 {
        1
    } else {
        profile.concurrency
    };
    let t = if profile.timeout_secs == 0 {
        1
    } else {
        profile.timeout_secs
    };
    DispatchLimits { chunk_size: c as usize, concurrency: n as usize, timeout_secs: t as u64 }
}

/// The report of a generation that never dispatched a chunk (cancelled first, or the
/// provider client could not be built).
pub fn undispatched(error: String) -> (r: ChunkMerge)
    ensures
        r.results@.len() == 0,
        r.failed_chunks == 0,
        r.total_chunks == 0,
        r.warning is None,
        opt_view(r.error) == Some(error@),
        r.chunks@.len() == 0,
{
    ChunkMerge {
        results: Vec::new(),
        failed_chunks: 0,
        total_chunks: 0,
        warning: None,
        error: Some(error),
        chunks: Vec::new(),
    }
}

/// The one file and the instruction a connection test sends.
pub fn connection_probe() -> (r: (Vec<FileEntry>, String))
    ensures
        r.0@.len() == 1,
        r.0@[0].id@ == "test"@,
        r.0@[0].path@ == "/test/file.txt"@,
        r.0@[0].parent_dir@ == "/test"@,
        r.0@[0].stem@ == "file"@,
        r.0@[0].ext@ == "txt"@,
        !r.0@[0].is_dir,
        r.0@[0].size == 0,
        r.0@[0].modified is None,
        r.1@ == "Echo the original name"@,
{
    let e = FileEntry {
        id: copy_str("test"),
        path: copy_str("/test/file.txt"),
        parent_dir: copy_str("/test"),
        stem: copy_str("file"),
        ext: copy_str("txt"),
        is_dir: false,
        size: 0,
        modified: None,
    };
    let mut v: Vec<FileEntry> = Vec::new();
    v.push(e);
    (v, copy_str("Echo the original name"))
}

/// A connection test passes, with `ok`, when its generation reported no error; otherwise
/// it fails with that error.
pub fn connection_verdict(error: Option<String>) -> (r: Result<String, String>)
    ensures
        match error {
            None => r matches Ok(s) && s@ == "ok"@,
            Some(e) => r matches Err(m) && m@ == e@,
        },
{
    match error {
        None => Ok(copy_str("ok")),
        Some(e) => Err(e),
    }
}

/// The limits and flags a generation's request is recorded with: the profile's chunk size
/// and concurrency as dispatched (at least one), its timeout and length limit as
/// configured, whether a key was supplied, and whether the provider is simulated.
pub struct RequestFacts {
    pub chunk_size: u32,
    pub concurrency: u32,
    pub timeout_secs: u32,
    pub max_len: u32,
    pub has_key: bool,
    pub mock: bool,
}

/// What a generation's request is recorded with.
pub fn request_facts(profile: &ProviderProfile, api_key: &str, mock: bool) -> (r: RequestFacts)
    ensures
        r.chunk_size == at_least_one(profile.chunk_size),
        r.concurrency == at_least_one(profile.concurrency),
        r.timeout_secs == profile.timeout_secs,
        r.max_len == profile.max_len,
        r.has_key == (api_key@.len() > 0),
        r.mock == mock,
{
    let limits = dispatch_limits(profile);
    let has_key = str_to_chars(api_key).len() > 0;
    RequestFacts {
        chunk_size: limits.chunk_size as u32,
        concurrency: limits.concurrency as u32,
        timeout_secs: profile.timeout_secs,
        max_len: profile.max_len,
        has_key,
        mock,
    }
}

/// A finished generation as the caller sees it: its error when it has one, otherwise the
/// report.
pub fn report_outcome<T>(error: Option<String>, report: T) -> (r: Result<T, String>)
    ensures
        match error {
            Some(e) => r matches Err(m) && m@ == e@,
            None => r == Ok::<T, String>(report),
        },
{
    match error {
        Some(e) => Err(e),
        None => Ok(report),
    }
}

} // verus!
