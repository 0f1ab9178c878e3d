use lord_of_the_files::ai_history::{derive_status, summarize, AiGenerationRow, MAX_RETAINED_GENERATIONS};

fn row(error: Option<&str>, failed_chunks: i64) -> AiGenerationRow {
    AiGenerationRow {
        id: "gen-1".to_string(),
        created_at: "2024-01-01T00:00:00Z".to_string(),
        profile_label: "Test Provider".to_string(),
        model: "m".to_string(),
        instruction: "rename".to_string(),
        entry_count: 2,
        total_chunks: 2,
        failed_chunks,
        warning: None,
        error: error.map(|e| e.to_string()),
        mock: false,
    }
}

#[test]
fn status_derives_failed_partial_ok() {
    assert_eq!(derive_status(&Some("x".to_string()), 0), "failed");
    assert_eq!(derive_status(&Some("x".to_string()), 2), "failed");
    assert_eq!(derive_status(&None, 1), "partial");
    assert_eq!(derive_status(&None, 0), "ok");
}

#[test]
fn summary_keeps_fields_and_derives_status() {
    let s = summarize(row(None, 1));
    assert_eq!(s.id, "gen-1");
    assert_eq!(s.profile_label, "Test Provider");
    assert_eq!(s.status, "partial");
    assert_eq!(summarize(row(Some("boom"), 2)).status, "failed");
    assert_eq!(MAX_RETAINED_GENERATIONS, 200);
}
