use lord_of_the_files::ai::{
    apply_mock_transform, choose_parse, chunk_entries, json_framing, prompt_files, reconcile,
    sanitize_name, system_prompt, trunc_log, user_prompt, MockTransform, ParseAttempt, ParsePath,
    ParsedReply,
};
use lord_of_the_files::conflicts::validate_name;
use lord_of_the_files::types::{AiResultItem, FileEntry};

fn entry(id: &str, stem: &str, ext: &str) -> FileEntry {
    FileEntry {
        id: id.to_string(),
        path: format!("/tmp/{id}"),
        parent_dir: "/tmp".to_string(),
        stem: stem.to_string(),
        ext: ext.to_string(),
        is_dir: false,
        size: 0,
        modified: None,
    }
}

/// Reads a JSON array of `{"id": .., "newName": ..}` objects.
fn items_of(v: &serde_json::Value) -> Option<Vec<AiResultItem>> {
    let arr = v.as_array()?;
    let mut out = Vec::new();
    for it in arr {
        let id = it.get("id")?.as_str()?;
        let new_name = it.get("newName")?.as_str()?;
        out.push(AiResultItem { id: id.to_string(), new_name: new_name.to_string() });
    }
    Some(out)
}

/// Both typed parses of one candidate text.
fn parse_attempt(text: &str) -> ParseAttempt {
    match serde_json::from_str::<serde_json::Value>(text) {
        Ok(v) => ParseAttempt {
            wrapped: v.get("results").and_then(items_of),
            bare: items_of(&v),
        },
        Err(_) => ParseAttempt { wrapped: None, bare: None },
    }
}

fn extract_results(text: &str) -> Result<ParsedReply, String> {
    let framing = json_framing(text);
    let full = parse_attempt(&framing.trimmed);
    let span = framing.span.as_deref().map(parse_attempt);
    choose_parse(full, span, &framing.trimmed)
}

// ---- extract_results -----------------------------------------------------------

#[test]
fn extract_results_clean_object() {
    let got = extract_results(r#"{"results":[{"id":"a","newName":"A"}]}"#).unwrap();
    assert_eq!(got.path, ParsePath::WrappedObject);
    assert_eq!(got.items.len(), 1);
    assert_eq!(got.items[0].id, "a");
    assert_eq!(got.items[0].new_name, "A");
}

#[test]
fn extract_results_bare_array() {
    let got = extract_results(r#"[{"id":"a","newName":"A"}]"#).unwrap();
    assert_eq!(got.path, ParsePath::BareArray);
    assert_eq!(got.items.len(), 1);
}

#[test]
fn extract_results_fenced() {
    let got =
        extract_results("```json\n{\"results\":[{\"id\":\"a\",\"newName\":\"A\"}]}\n```").unwrap();
    assert_eq!(got.items.len(), 1);
}

#[test]
fn extract_results_prose_wrapped() {
    let got = extract_results(
        "Sure, here you go:\n{\"results\":[{\"id\":\"a\",\"newName\":\"A\"}]}\nHope that helps!",
    )
    .unwrap();
    assert_eq!(got.items.len(), 1);
}

#[test]
fn extract_results_garbage_errs() {
    assert!(extract_results("not json at all").is_err());
}

#[test]
fn extract_results_garbage_message_quotes_reply() {
    let err = extract_results("  not json at all ").err().unwrap();
    assert_eq!(err, "Could not parse model response as JSON: not json at all");
}

#[test]
fn extract_results_substring_paths_are_named() {
    let got = extract_results("Here: [{\"id\":\"a\",\"newName\":\"A\"}] done").unwrap();
    assert_eq!(got.path, ParsePath::SubstringArray);
    assert_eq!(got.path.as_str(), "substring_array");
    let got = extract_results("x {\"results\":[]} y").unwrap();
    assert_eq!(got.path, ParsePath::SubstringWrapped);
    assert!(got.items.is_empty());
}

#[test]
fn json_framing_finds_bracketed_span() {
    let f = json_framing("  pre {a} post ]  ");
    assert_eq!(f.trimmed, "pre {a} post ]");
    assert_eq!(f.span.as_deref(), Some("{a} post ]"));
    let f = json_framing("} nothing {");
    assert!(f.span.is_none());
}

#[test]
fn trunc_log_cuts_long_text() {
    assert_eq!(trunc_log("short", 10), "short");
    assert_eq!(trunc_log("abcdefghij", 4), "abcd… (10 chars total)");
}

// ---- chunk_entries ---------------------------------------------------------------

#[test]
fn chunk_entries_splits_evenly() {
    let entries: Vec<FileEntry> = (0..95).map(|i| entry(&i.to_string(), "f", "txt")).collect();
    let chunks = chunk_entries(entries, 40);
    assert_eq!(chunks.len(), 3);
    assert_eq!(chunks[0].len(), 40);
    assert_eq!(chunks[1].len(), 40);
    assert_eq!(chunks[2].len(), 15);
}

#[test]
fn chunk_entries_keeps_order_and_handles_edges() {
    let entries: Vec<FileEntry> = (0..5).map(|i| entry(&i.to_string(), "f", "txt")).collect();
    let chunks = chunk_entries(entries, 0);
    assert_eq!(chunks.len(), 5);
    assert_eq!(chunks[3][0].id, "3");
    assert!(chunk_entries(Vec::new(), 10).is_empty());
}

// ---- reconcile ---------------------------------------------------------------

#[test]
fn reconcile_drops_unknown_ids_and_strips_extension() {
    let ids = vec!["a".to_string()];
    let exts = vec!["txt".to_string()];
    let items = vec![
        AiResultItem { id: "a".to_string(), new_name: "New Name.txt".to_string() },
        AiResultItem { id: "unknown".to_string(), new_name: "Ghost".to_string() },
    ];
    let report = reconcile(items, &ids, &exts);
    assert_eq!(report.items.len(), 1);
    assert_eq!(report.items[0].new_name, "New Name");
    assert_eq!(report.dropped_unknown, 1);
    assert_eq!(report.sanitized_count, 1);
}

#[test]
fn reconcile_reports_missing_ids_once() {
    let ids = vec!["a".to_string(), "b".to_string(), "b".to_string()];
    let exts = vec!["".to_string(), "".to_string(), "".to_string()];
    let items = vec![AiResultItem { id: "a".to_string(), new_name: "  A  ".to_string() }];
    let report = reconcile(items, &ids, &exts);
    assert_eq!(report.model_count, 1);
    assert_eq!(report.items[0].new_name, "A");
    assert_eq!(report.sanitized_count, 0);
    assert_eq!(report.missing_ids, vec!["b".to_string()]);
}

// ---- sanitize_name -------------------------------------------------------------

#[test]
fn sanitize_strips_path_separators() {
    assert_eq!(sanitize_name("a/b\\c.txt", "txt"), "abc");
}

#[test]
fn sanitize_replaces_colon_with_dash() {
    assert_eq!(
        sanitize_name("Windows Security Internals: A Deep Dive - James Forshaw", ""),
        "Windows Security Internals - A Deep Dive - James Forshaw"
    );
}

#[test]
fn sanitize_strips_other_invalid_chars() {
    assert_eq!(sanitize_name("Report <v2> \"final\"?*|", ""), "Report v2 final");
}

#[test]
fn sanitize_strips_control_chars() {
    assert_eq!(sanitize_name("Bad\u{0007}Name\u{0001}Here", ""), "BadNameHere");
}

#[test]
fn sanitize_strips_trailing_dot() {
    assert_eq!(sanitize_name("Trailing Dot.", ""), "Trailing Dot");
}

#[test]
fn sanitize_still_strips_leaked_extension() {
    assert_eq!(sanitize_name("New Name.txt", "txt"), "New Name");
}

#[test]
fn sanitize_handles_leaked_extension_exposing_trailing_dot() {
    assert_eq!(sanitize_name("Foo..txt", "txt"), "Foo");
}

#[test]
fn sanitize_trims_extra_whitespace_around_colon() {
    assert_eq!(sanitize_name("Title  :   Subtitle", ""), "Title - Subtitle");
}

#[test]
fn sanitize_output_has_no_invalid_chars() {
    let out = sanitize_name("a:b/c<d>e\"f|g?h*i\u{1}j", "");
    assert_eq!(out, "a -bcdefghij");
    assert!(!out.chars().any(|c| "<>:\"/\\|?*".contains(c) || (c as u32) < 0x20));
}

// ---- mock transforms and prompts ------------------------------------------------

#[test]
fn apply_mock_transform_variants() {
    assert_eq!(apply_mock_transform(MockTransform::Suffix, "photo"), "photo_mock");
    assert_eq!(apply_mock_transform(MockTransform::Uppercase, "photo"), "PHOTO");
    assert_eq!(apply_mock_transform(MockTransform::Lowercase, "PHOTO"), "photo");
    assert_eq!(apply_mock_transform(MockTransform::Reverse, "abc"), "cba");
    assert_eq!(apply_mock_transform(MockTransform::Slugify, "My Photo!!"), "my-photo");
}

#[test]
fn system_prompt_states_length_limit() {
    let p = system_prompt(300);
    assert!(p.starts_with("You rename files."));
    assert!(p.contains("keep under 300 chars; don't invent ids."));
}

#[test]
fn user_prompt_lists_files_with_batch_index() {
    let chunk = vec![entry("a", "one", "txt"), entry("b", "two", "md")];
    let files = prompt_files(&chunk, 40);
    assert_eq!(files.len(), 2);
    assert_eq!(files[1].id, "b");
    assert_eq!(files[1].name, "two");
    assert_eq!(files[1].ext, "md");
    assert_eq!(files[1].parent_hint, "/tmp");
    assert_eq!(files[1].index, 41);
    assert_eq!(user_prompt("tidy", "[]"), "Instruction: tidy\n\nFiles: []");
}

#[test]
fn sanitized_names_never_fail_for_characters() {
    use_validate("Q3 <draft>: notes/2024?.", "");
    use_validate("a. .", "");
    use_validate("***", "");
}

fn use_validate(raw: &str, ext: &str) {
    let name = sanitize_name(raw, ext);
    if let Some(msg) = validate_name(&name) {
        assert!(msg == "Name is empty" || msg == "Name ends with a space or dot", "{msg}");
    }
}

#[test]
fn trunc_log_cuts_at_a_character_boundary() {
    // Byte 500 falls inside the two-byte 'é' that starts at byte 499.
    let text = format!("{}é{}", "a".repeat(499), "b".repeat(99));
    assert_eq!(text.len(), 600);
    let cut = trunc_log(&text, 500);
    assert_eq!(cut, format!("{}… (600 chars total)", "a".repeat(499)));
}

#[test]
fn extract_results_never_panics_on_long_prose() {
    let text = format!("{}é{}", "a".repeat(499), "b".repeat(99));
    let err = extract_results(&text).err().unwrap();
    assert!(err.starts_with("Could not parse model response as JSON: "));
    assert!(err.ends_with("… (600 chars total)"));
}
