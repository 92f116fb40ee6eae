use transparent_proxy::doc::DocMap;
use transparent_proxy::doc::FieldValue;
use transparent_proxy::envfile::EnvFile;
use transparent_proxy::envfile::configure_gemini_env;
use transparent_proxy::envfile::gemini_backup_env;
use transparent_proxy::envfile::merge_gemini_env;
use transparent_proxy::profiles::settings_active_config;
use transparent_proxy::profiles::credentials_backup_doc;
use transparent_proxy::profiles::first_provider_base_url;
use transparent_proxy::profiles::merge_settings_profile;
use transparent_proxy::profiles::merge_codex_auth;
use transparent_proxy::profiles::merge_codex_config;
use transparent_proxy::profiles::profile_from_filename;

fn text(s: &str) -> FieldValue {
    FieldValue::Text(s.to_string())
}

fn get_text<'a>(doc: &'a DocMap, key: &str) -> Option<&'a String> {
    doc.get_text(key)
}

#[test]
fn profile_names_come_from_the_file_name() {
    assert_eq!(
        profile_from_filename("settings.work.json", "settings.", ".json").as_deref(),
        Some("work")
    );
    // the bare active file is not a profile
    assert_eq!(profile_from_filename("settings.json", "settings.", ".json"), None);
    assert_eq!(profile_from_filename("config.team.toml", "config.", ".toml").as_deref(), Some("team"));
    assert_eq!(profile_from_filename(".env.prod", ".env.", "").as_deref(), Some("prod"));
    assert_eq!(profile_from_filename("other.txt", "settings.", ".json"), None);
}

#[test]
fn active_config_reads_and_masks() {
    let mut env = DocMap::new();
    env.set("AI_AUTH_TOKEN".to_string(), text("sk-secret-abcd"));
    env.set("AI_BASE_URL".to_string(), text("https://api.example.com"));
    let mut doc = DocMap::new();
    doc.set("env".to_string(), FieldValue::Object(env));
    let (key, url) = settings_active_config(&doc);
    assert_eq!(key, "sk-s...abcd");
    assert_eq!(url, "https://api.example.com");

    let bare = DocMap::new();
    let (key2, url2) = settings_active_config(&bare);
    assert_eq!(key2, "未配置");
    assert_eq!(url2, "未配置");
}

#[test]
fn first_provider_with_a_base_url_wins() {
    let mut p1 = DocMap::new();
    p1.set("name".to_string(), text("broken"));
    let mut p2 = DocMap::new();
    p2.set("base_url".to_string(), text("https://up.example.com/v1"));
    let mut providers = DocMap::new();
    providers.set("a".to_string(), FieldValue::Object(p1));
    providers.set("b".to_string(), FieldValue::Object(p2));
    let mut cfg = DocMap::new();
    cfg.set("model_providers".to_string(), FieldValue::Object(providers));
    assert_eq!(
        first_provider_base_url(&cfg).as_deref(),
        Some("https://up.example.com/v1")
    );
    assert_eq!(first_provider_base_url(&DocMap::new()), None);
}

#[test]
fn backup_doc_holds_exactly_the_credentials() {
    let doc = credentials_backup_doc("sk-b", "https://b");
    assert_eq!(doc.entries.len(), 1);
    match doc.get("env") {
        Some(FieldValue::Object(m)) => {
            assert_eq!(m.entries.len(), 2);
            assert_eq!(m.get_text("AI_AUTH_TOKEN").map(|s| s.as_str()), Some("sk-b"));
            assert_eq!(m.get_text("AI_BASE_URL").map(|s| s.as_str()), Some("https://b"));
        }
        _ => panic!("env object expected"),
    }
}

#[test]
fn settings_profile_merge_copies_only_the_credentials() {
    let mut active_env = DocMap::new();
    active_env.set("AI_AUTH_TOKEN".to_string(), text("sk-old"));
    active_env.set("OTHER".to_string(), text("keep"));
    let mut active = DocMap::new();
    active.set("env".to_string(), FieldValue::Object(active_env));
    active.set("model".to_string(), text("opus"));

    let backup = credentials_backup_doc("sk-new", "https://new");
    let merged = merge_settings_profile(active, backup);
    match merged.get("env") {
        Some(FieldValue::Object(m)) => {
            assert_eq!(m.get_text("AI_AUTH_TOKEN").map(|s| s.as_str()), Some("sk-new"));
            assert_eq!(m.get_text("AI_BASE_URL").map(|s| s.as_str()), Some("https://new"));
            assert_eq!(m.get_text("OTHER").map(|s| s.as_str()), Some("keep"));
        }
        _ => panic!("env object expected"),
    }
    assert_eq!(get_text(&merged, "model").map(|s| s.as_str()), Some("opus"));
}

#[test]
fn settings_profile_merge_without_backup_env_changes_nothing() {
    let mut active = DocMap::new();
    active.set("model".to_string(), text("opus"));
    let merged = merge_settings_profile(active, DocMap::new());
    assert_eq!(merged.entries.len(), 1);
    assert_eq!(get_text(&merged, "model").map(|s| s.as_str()), Some("opus"));
}

#[test]
fn codex_auth_merge_replaces_the_key() {
    let mut active = DocMap::new();
    active.set("OPENAI_API_KEY".to_string(), text("old"));
    active.set("tokens".to_string(), FieldValue::Opaque("{}".to_string()));
    let mut backup = DocMap::new();
    backup.set("OPENAI_API_KEY".to_string(), text("new"));
    let merged = merge_codex_auth(active, backup);
    assert_eq!(merged.get_text("OPENAI_API_KEY").map(|s| s.as_str()), Some("new"));
    assert!(matches!(merged.get("tokens"), Some(FieldValue::Opaque(_))));
}

#[test]
fn codex_config_merge_overwrites_managed_fields_and_providers() {
    let mut active_provider = DocMap::new();
    active_provider.set("base_url".to_string(), text("https://old"));
    let mut active_providers = DocMap::new();
    active_providers.set("duck".to_string(), FieldValue::Object(active_provider));
    let mut active = DocMap::new();
    active.set("model".to_string(), text("gpt-old"));
    active.set("sandbox".to_string(), text("workspace-write"));
    active.set("model_providers".to_string(), FieldValue::Object(active_providers));

    let mut backup_provider = DocMap::new();
    backup_provider.set("base_url".to_string(), text("https://new"));
    let mut backup_providers = DocMap::new();
    backup_providers.set("duck".to_string(), FieldValue::Object(backup_provider));
    let mut backup = DocMap::new();
    backup.set("model".to_string(), text("gpt-new"));
    backup.set("model_provider".to_string(), text("duck"));
    backup.set("model_providers".to_string(), FieldValue::Object(backup_providers));

    let merged = merge_codex_config(active, backup);
    assert_eq!(merged.get_text("model").map(|s| s.as_str()), Some("gpt-new"));
    assert_eq!(merged.get_text("model_provider").map(|s| s.as_str()), Some("duck"));
    // an unmanaged field stays
    assert_eq!(merged.get_text("sandbox").map(|s| s.as_str()), Some("workspace-write"));
    match merged.get("model_providers") {
        Some(FieldValue::Object(ps)) => match ps.get("duck") {
            Some(FieldValue::Object(p)) => {
                assert_eq!(p.get_text("base_url").map(|s| s.as_str()), Some("https://new"));
            }
            _ => panic!("provider table expected"),
        },
        _ => panic!("providers table expected"),
    }
}

#[test]
fn codex_config_merge_without_backup_providers_keeps_the_table() {
    let mut active = DocMap::new();
    active.set("model".to_string(), text("gpt-old"));
    let mut backup = DocMap::new();
    backup.set("model".to_string(), text("gpt-new"));
    let merged = merge_codex_config(active, backup);
    assert_eq!(merged.get_text("model").map(|s| s.as_str()), Some("gpt-new"));
    assert!(merged.get("model_providers").is_none());
}

#[test]
fn env_file_parse_and_render_round_trip() {
    let parsed = EnvFile::parse("A=1\n# comment\n\nB = 2 \nA=3\n");
    assert_eq!(
        parsed.entries,
        vec![("A".to_string(), "3".to_string()), ("B".to_string(), "2".to_string())]
    );
    assert_eq!(parsed.render(), "A=3\nB=2\n");
    let empty = EnvFile::parse("");
    assert_eq!(empty.render(), "\n");
    let no_eq = EnvFile::parse("JUSTAWORD\n");
    assert!(no_eq.entries.is_empty());
}

#[test]
fn gemini_configure_sets_fields_and_default_model() {
    let env = EnvFile::parse("GEMINI_MODEL=custom\nEXTRA=x\n");
    let out = configure_gemini_env(env, "key-1", "https://g");
    assert_eq!(out.get("GOOGLE_GEMINI_BASE_URL").map(|s| s.as_str()), Some("https://g"));
    assert_eq!(out.get("GEMINI_API_KEY").map(|s| s.as_str()), Some("key-1"));
    // an explicit model is kept
    assert_eq!(out.get("GEMINI_MODEL").map(|s| s.as_str()), Some("custom"));
    assert_eq!(out.get("EXTRA").map(|s| s.as_str()), Some("x"));

    let fresh = configure_gemini_env(EnvFile::new(), "key-2", "https://h");
    assert_eq!(fresh.get("GEMINI_MODEL").map(|s| s.as_str()), Some("gemini-2.5-pro"));
}

#[test]
fn gemini_profile_merge_copies_the_managed_fields() {
    let active = EnvFile::parse("GEMINI_API_KEY=old\nEXTRA=keep\n");
    let backup = EnvFile::parse("GEMINI_API_KEY=new\nGOOGLE_GEMINI_BASE_URL=https://n\n");
    let merged = merge_gemini_env(active, &backup);
    assert_eq!(merged.get("GEMINI_API_KEY").map(|s| s.as_str()), Some("new"));
    assert_eq!(merged.get("GOOGLE_GEMINI_BASE_URL").map(|s| s.as_str()), Some("https://n"));
    assert_eq!(merged.get("EXTRA").map(|s| s.as_str()), Some("keep"));
}

#[test]
fn gemini_backup_snapshot_is_exact() {
    assert_eq!(
        gemini_backup_env("k", "https://g"),
        "GOOGLE_GEMINI_BASE_URL=https://g\nGEMINI_API_KEY=k\nGEMINI_MODEL=gemini-2.5-pro\n"
    );
}
