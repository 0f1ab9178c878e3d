//! The data the engine works on: selected files, pipeline steps and preview rows.

use vstd::prelude::*;

verus! {

/// A single file (or directory) selected for renaming.
pub struct FileEntry {
    /// Stable id used to correlate rows across preview/apply (the path).
    pub id: String,
    /// Absolute path on disk.
    pub path: String,
    /// Absolute path of the containing directory.
    pub parent_dir: String,
    /// Filename without the extension (e.g. `archive.tar` for `archive.tar.gz`).
    pub stem: String,
    /// Extension without the leading dot (`gz`), or empty when there is none.
    pub ext: String,
    pub is_dir: bool,
    pub size: u64,
    /// Modified time as unix seconds, if available.
    pub modified: Option<i64>,
}

/// Which part of the filename a step operates on.
#[derive(Clone, Copy, Debug, PartialEq, Eq, Structural)]
pub enum Scope {
    /// The name without extension (honours "preserve extension").
    Stem,
    /// The extension only.
    Ext,
    /// The whole filename including extension.
    Full,
}

#[derive(Clone, Copy, Debug, PartialEq, Eq, Structural)]
pub enum CaseMode {
    Lower,
    Upper,
    Title,
    Sentence,
    Camel,
    Snake,
    Kebab,
}

#[derive(Clone, Copy, Debug, PartialEq, Eq, Structural)]
pub enum InsertPosition {
    Prefix,
    Suffix,
    AtIndex,
}

#[derive(Clone, Copy, Debug, PartialEq, Eq, Structural)]
pub enum RemoveFrom {
    Start,
    End,
    Index,
}

#[derive(Clone, Copy, Debug, PartialEq, Eq, Structural)]
pub enum AffixPosition {
    Prefix,
    Suffix,
}

/// A suggested new stem for one file, cached on an AI step.
pub struct AiResultItem {
    pub id: String,
    pub new_name: String,
}

/// Full detail of one dispatched AI chunk: the prompt sent, the raw text received (or
/// whatever was available on failure) and the reconcile diagnostics.
pub struct AiChunkDetail {
    pub chunk_index: usize,
    pub file_count: usize,
    pub user_prompt: String,
    pub raw_response: Option<String>,
    pub error: Option<String>,
    pub parse_path: Option<String>,
    pub elapsed_ms: u64,
    pub model_count: Option<usize>,
    pub dropped_unknown: Option<usize>,
    pub sanitized_count: Option<usize>,
    pub missing_ids: Vec<String>,
}

/// The transform variants.
pub enum Step {
    FindReplace { find: String, replace: String, case_sensitive: bool, all_occurrences: bool },
    Regex {
        pattern: String,
        replacement: String,
        ignore_case: bool,
        dotall: bool,
        multiline: bool,
    },
    ChangeCase { mode: CaseMode },
    Insert {
        text: String,
        position: InsertPosition,
        /// Character index used when `position == AtIndex`.
        index: i64,
    },
    Remove {
        from: RemoveFrom,
        /// Number of characters to remove.
        count: usize,
        /// Character index used when `from == Index`.
        index: usize,
    },
    CleanUp {
        trim: bool,
        collapse_whitespace: bool,
        /// When set, spaces are replaced with this string (e.g. "-" or "_").
        spaces_to: Option<String>,
        strip_diacritics: bool,
    },
    Counter {
        start: i64,
        step: i64,
        /// Zero-padding width (e.g. 3 -> `007`).
        padding: usize,
        separator: String,
        position: AffixPosition,
        reset_per_directory: bool,
    },
    Ai {
        prompt: String,
        /// Cached suggestions, keyed by file id at apply time.
        results: Option<Vec<AiResultItem>>,
    },
}

/// One configured step in the pipeline.
pub struct StepConfig {
    pub id: String,
    pub enabled: bool,
    pub scope: Scope,
    pub step: Step,
}

/// An ordered list of steps applied in sequence.
pub struct Pipeline {
    pub steps: Vec<StepConfig>,
}

/// Status of a single previewed rename.
#[derive(Clone, Copy, Debug, PartialEq, Eq, Structural)]
pub enum RowStatus {
    Unchanged,
    Changed,
    Conflict,
    Invalid,
}

/// A single row of the two-column preview.
pub struct PreviewRow {
    pub id: String,
    pub original: String,
    pub new_name: String,
    pub status: RowStatus,
    /// Human-readable explanation for Conflict/Invalid rows.
    pub message: Option<String>,
}

/// An error attached to a specific step (e.g. an invalid regex pattern).
pub struct StepError {
    pub step_id: String,
    pub message: String,
}

/// The full result of a preview.
pub struct PreviewResult {
    pub rows: Vec<PreviewRow>,
    pub step_errors: Vec<StepError>,
}

} // verus!
