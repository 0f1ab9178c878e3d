use lord_of_the_files::settings::{
    default_chunk_size, default_concurrency, default_max_len, default_mock_latency_ms,
    default_timeout_secs, has_api_key, keychain_unavailable_message, resolve_api_key,
    validate_base_url, ProviderProfile, SettingsState,
};

fn profile(id: &str, label: &str) -> ProviderProfile {
    ProviderProfile {
        id: id.to_string(),
        label: label.to_string(),
        base_url: "https://api.example.com/v1".to_string(),
        model: "m".to_string(),
        chunk_size: 40,
        concurrency: 3,
        max_len: 300,
        timeout_secs: 60,
        has_key: false,
    }
}

#[test]
fn validate_base_url_accepts_http_and_https() {
    assert!(validate_base_url("https://api.openai.com/v1").is_ok());
    assert!(validate_base_url("http://localhost:11434/v1").is_ok()); // Ollama-style
}

#[test]
fn validate_base_url_rejects_non_http_schemes() {
    assert!(validate_base_url("file:///etc/passwd").is_err());
    assert!(validate_base_url("javascript:alert(1)").is_err());
    assert!(validate_base_url("data:text/plain,hello").is_err());
    assert!(validate_base_url("ftp://example.com").is_err());
}

#[test]
fn validate_base_url_rejects_empty_or_malformed() {
    assert!(validate_base_url("").is_err());
    assert!(validate_base_url("not a url").is_err());
}

#[test]
fn validate_base_url_messages() {
    assert_eq!(
        validate_base_url("ftp://example.com"),
        Err("Provider URL must use http:// or https:// (got \"ftp:\")".to_string())
    );
    assert!(validate_base_url("not a url").unwrap_err().starts_with("Invalid provider URL: "));
    assert!(validate_base_url("  HTTPS://Example.com  ").is_ok());
}

#[test]
fn defaults_match_documented_values() {
    assert_eq!(default_chunk_size(), 40);
    assert_eq!(default_concurrency(), 3);
    assert_eq!(default_max_len(), 300);
    assert_eq!(default_timeout_secs(), 60);
    assert_eq!(default_mock_latency_ms(), 500);
}

#[test]
fn has_api_key_needs_non_empty_key() {
    assert!(has_api_key(&Some("sk-test".to_string())));
    assert!(!has_api_key(&Some(String::new())));
    assert!(!has_api_key(&None));
}

#[test]
fn no_active_profile_points_at_settings() {
    let mut s = SettingsState::new();
    assert_eq!(
        s.active_profile().err().unwrap(),
        "No active provider / no key — open Settings"
    );
    s.upsert_profile(profile("p1", "One"));
    s.active_profile_id = Some("ghost".to_string());
    assert!(s.active_profile().is_err());
}

#[test]
fn set_active_then_active_profile() {
    let mut s = SettingsState::new();
    s.upsert_profile(profile("p1", "One"));
    s.upsert_profile(profile("p2", "Two"));
    assert_eq!(s.set_active_profile("nope"), Err("No such profile: nope".to_string()));
    assert!(s.active_profile_id.is_none());
    assert!(s.set_active_profile("p2").is_ok());
    assert_eq!(s.active_profile().unwrap().label, "Two");
}

#[test]
fn upsert_replaces_same_id_in_place() {
    let mut s = SettingsState::new();
    s.upsert_profile(profile("p1", "One"));
    s.upsert_profile(profile("p2", "Two"));
    s.upsert_profile(profile("p1", "Uno"));
    assert_eq!(s.profiles.len(), 2);
    assert_eq!(s.profiles[0].label, "Uno");
    assert_eq!(s.find_profile("p1").unwrap().label, "Uno");
    assert_eq!(s.find_profile("p3").err().unwrap(), "No such profile: p3");
}

#[test]
fn delete_profile_clears_active() {
    let mut s = SettingsState::new();
    s.upsert_profile(profile("p1", "One"));
    s.upsert_profile(profile("p2", "Two"));
    s.set_active_profile("p1").unwrap();
    s.delete_profile("p2");
    assert_eq!(s.active_profile_id.as_deref(), Some("p1"));
    s.delete_profile("p1");
    assert!(s.profiles.is_empty());
    assert!(s.active_profile_id.is_none());
}

#[test]
fn key_flags_are_set_per_profile() {
    let mut s = SettingsState::new();
    s.upsert_profile(profile("p1", "One"));
    s.upsert_profile(profile("p2", "Two"));
    s.set_key_flags(&vec![false, true]);
    assert!(!s.profiles[0].has_key);
    assert!(s.profiles[1].has_key);
    assert_eq!(s.profiles[1].label, "Two");
}

#[test]
fn keychain_key_wins_over_environment() {
    assert_eq!(resolve_api_key(Some("k".to_string()), Some("e".to_string())), Some("k".to_string()));
    assert_eq!(resolve_api_key(None, Some("e".to_string())), Some("e".to_string()));
    assert_eq!(resolve_api_key(None, None), None);
    assert_eq!(
        keychain_unavailable_message("no backend"),
        "No OS keychain available (no backend) — install gnome-keyring/KWallet, or set LOTF_API_KEY"
    );
}

#[test]
fn key_flags_come_from_stored_keys_only() {
    let mut a = SettingsState::new();
    a.upsert_profile(profile("p1", "One"));
    a.upsert_profile(profile("p2", "Two"));
    a.upsert_profile(profile("p3", "Three"));
    a.refresh_key_flags(&vec![Some("sk-1".to_string()), Some(String::new()), None]);
    let flags: Vec<bool> = a.profiles.iter().map(|p| p.has_key).collect();
    assert_eq!(flags, vec![true, false, false]);
    assert_eq!(a.profiles[0].label, "One");
}
