//! How past AI generations are listed: the status each one is shown with, and how many
//! are kept. The SQLite tables themselves belong to the application.

use vstd::prelude::*;

use crate::text::copy_str;

verus! {

/// Number of most recent generations kept; older ones are pruned with their chunks.
pub const MAX_RETAINED_GENERATIONS: usize = 200;

/// A past generation as listed: enough to identify and triage it without its chunks.
pub struct AiGenerationSummary {
    pub id: String,
    pub created_at: String,
    pub profile_label: String,
    pub model: String,
    pub instruction: String,
    pub entry_count: i64,
    pub total_chunks: i64,
    pub failed_chunks: i64,
    pub warning: Option<String>,
    pub error: Option<String>,
    pub mock: bool,
    /// "ok", "partial" or "failed".
    pub status: String,
}

/// A stored generation as read back, before its status is derived.
pub struct AiGenerationRow {
    pub id: String,
    pub created_at: String,
    pub profile_label: String,
    pub model: String,
    pub instruction: String,
    pub entry_count: i64,
    pub total_chunks: i64,
    pub failed_chunks: i64,
    pub warning: Option<String>,
    pub error: Option<String>,
    pub mock: bool,
}

/// A generation with an error failed; one without, but with failed chunks, is partial;
/// otherwise it is ok.
pub open spec fn status_spec(has_error: bool, failed_chunks: i64) -> Seq<char> {
    if has_error {
        "failed"@
    } else if failed_chunks > 0 {
        "partial"@
    } else {
        "ok"@
    }
}

/// The status a generation is listed with.
pub fn derive_status(error: &Option<String>, failed_chunks: i64) -> (r: String)
    ensures
        r@ == status_spec(error is Some, failed_chunks),
{
    if error.is_some() {
        copy_str("failed")
    } else if failed_chunks > 0 {
        copy_str("partial")
    } else {
        copy_str("ok")
    }
}

/// The listed form of a stored generation: its fields, and its derived status.
pub fn summarize(row: AiGenerationRow) -> (r: AiGenerationSummary)
    ensures
        r.id@ == row.id@,
        r.created_at@ == row.created_at@,
        r.profile_label@ == row.profile_label@,
        r.model@ == row.model@,
        r.instruction@ == row.instruction@,
        r.entry_count == row.entry_count,
        r.total_chunks == row.total_chunks,
        r.failed_chunks == row.failed_chunks,
        r.warning == row.warning,
        r.error == row.error,
        r.mock == row.mock,
        r.status@ == status_spec(row.error is Some, row.failed_chunks),
{
    let status = derive_status(&row.error, row.failed_chunks);
    AiGenerationSummary {
        id: row.id,
        created_at: row.created_at,
        profile_label: row.profile_label,
        model: row.model,
        instruction: row.instruction,
        entry_count: row.entry_count,
        total_chunks: row.total_chunks,
        failed_chunks: row.failed_chunks,
        warning: row.warning,
        error: row.error,
        mock: row.mock,
        status,
    }
}

} // verus!
