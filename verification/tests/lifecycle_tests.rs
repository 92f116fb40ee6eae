use transparent_proxy::ProxyError;
use transparent_proxy::doc::DocMap;
use transparent_proxy::doc::FieldValue;
use transparent_proxy::lifecycle::GlobalConfig;
use transparent_proxy::lifecycle::Tool;
use transparent_proxy::lifecycle::TransparentProxyConfigService;
use transparent_proxy::lifecycle::local_proxy_url;

fn supported() -> Tool {
    Tool { id: "cc-cli".to_string() }
}

fn text(s: &str) -> FieldValue {
    FieldValue::Text(s.to_string())
}

fn settings_doc(api_key: &str, base_url: &str) -> DocMap {
    let mut env = DocMap::new();
    env.set("AI_AUTH_TOKEN".to_string(), text(api_key));
    env.set("AI_BASE_URL".to_string(), text(base_url));
    env.set("CC_CLI_MAX_OUTPUT_TOKENS".to_string(), text("32000"));
    let mut doc = DocMap::new();
    doc.set("permissions".to_string(), FieldValue::Opaque("{\"allow\":[]}".to_string()));
    doc.set("env".to_string(), FieldValue::Object(env));
    doc.set("model".to_string(), text("opus"));
    doc
}

fn empty_store() -> GlobalConfig {
    GlobalConfig {
        transparent_proxy_real_api_key: None,
        transparent_proxy_real_base_url: None,
    }
}

fn field_values_equal(a: &FieldValue, b: &FieldValue) -> bool {
    match (a, b) {
        (FieldValue::Text(x), FieldValue::Text(y)) => x == y,
        (FieldValue::Opaque(x), FieldValue::Opaque(y)) => x == y,
        (FieldValue::Object(m), FieldValue::Object(n)) => docs_equal(m, n),
        _ => false,
    }
}

fn docs_equal(a: &DocMap, b: &DocMap) -> bool {
    a.entries.len() == b.entries.len()
        && a.entries
            .iter()
            .zip(b.entries.iter())
            .all(|(x, y)| x.0 == y.0 && field_values_equal(&x.1, &y.1))
}

fn env_text<'a>(doc: &'a DocMap, key: &str) -> &'a String {
    match doc.get("env") {
        Some(FieldValue::Object(m)) => m.get_text(key).expect("env field present"),
        _ => panic!("env object present"),
    }
}

#[test]
fn enable_swaps_credentials_and_saves_the_real_ones() {
    let doc = settings_doc("sk-real-123", "https://api.example.com");
    let mut store = empty_store();
    let out = TransparentProxyConfigService::enable_transparent_proxy(
        &supported(),
        Some(doc),
        &mut store,
        3210,
        "local-key",
    )
    .expect("enable succeeds");
    assert_eq!(store.transparent_proxy_real_api_key.as_deref(), Some("sk-real-123"));
    assert_eq!(
        store.transparent_proxy_real_base_url.as_deref(),
        Some("https://api.example.com")
    );
    assert_eq!(env_text(&out, "AI_AUTH_TOKEN"), "local-key");
    assert_eq!(env_text(&out, "AI_BASE_URL"), "http://127.0.0.1:3210");
    // the rest of the document is untouched
    assert_eq!(env_text(&out, "CC_CLI_MAX_OUTPUT_TOKENS"), "32000");
    assert!(matches!(out.get("permissions"), Some(FieldValue::Opaque(_))));
}

#[test]
fn enable_fails_without_api_key_and_saves_nothing() {
    // the API-key field is missing: FieldMissing, and no record is created
    let mut env = DocMap::new();
    env.set("AI_BASE_URL".to_string(), text("https://api.example.com"));
    let mut doc = DocMap::new();
    doc.set("env".to_string(), FieldValue::Object(env));
    let mut store = empty_store();
    let r = TransparentProxyConfigService::enable_transparent_proxy(
        &supported(),
        Some(doc),
        &mut store,
        3210,
        "local-key",
    );
    assert_eq!(r.err(), Some(ProxyError::FieldMissing));
    assert!(store.transparent_proxy_real_api_key.is_none());
    assert!(store.transparent_proxy_real_base_url.is_none());
}

#[test]
fn enable_fails_without_base_url() {
    let mut env = DocMap::new();
    env.set("AI_AUTH_TOKEN".to_string(), text("sk-x"));
    let mut doc = DocMap::new();
    doc.set("env".to_string(), FieldValue::Object(env));
    let mut store = empty_store();
    let r = TransparentProxyConfigService::enable_transparent_proxy(
        &supported(),
        Some(doc),
        &mut store,
        3210,
        "local-key",
    );
    assert_eq!(r.err(), Some(ProxyError::FieldMissing));
    assert!(store.transparent_proxy_real_api_key.is_none());
}

#[test]
fn enable_fails_without_env_object() {
    let doc = DocMap::new();
    let mut store = empty_store();
    let r = TransparentProxyConfigService::enable_transparent_proxy(
        &supported(),
        Some(doc),
        &mut store,
        3210,
        "local-key",
    );
    assert_eq!(r.err(), Some(ProxyError::FieldMissing));
}

#[test]
fn enable_fails_without_settings_file() {
    let mut store = empty_store();
    let r = TransparentProxyConfigService::enable_transparent_proxy(
        &supported(),
        None,
        &mut store,
        3210,
        "local-key",
    );
    assert_eq!(r.err(), Some(ProxyError::ConfigMissing));
}

#[test]
fn lifecycle_rejects_other_tools() {
    let other = Tool { id: "codex".to_string() };
    let mut store = empty_store();
    let r = TransparentProxyConfigService::enable_transparent_proxy(
        &other,
        Some(DocMap::new()),
        &mut store,
        3210,
        "k",
    );
    assert_eq!(r.err(), Some(ProxyError::UnsupportedTool));
    let r2 = TransparentProxyConfigService::disable_transparent_proxy(&other, &store, None);
    assert_eq!(r2.err(), Some(ProxyError::UnsupportedTool));
    let r3 = TransparentProxyConfigService::update_real_config(&other, &mut store, "k", "u");
    assert_eq!(r3.err(), Some(ProxyError::UnsupportedTool));
    let r4 = TransparentProxyConfigService::read_real_config_from_backup(&other, None);
    assert_eq!(r4.err(), Some(ProxyError::UnsupportedTool));
}

#[test]
fn enable_then_disable_restores_the_document() {
    // round trip for an arbitrary valid credential pair
    let original = settings_doc("sk-original", "https://real.example.com/v1");
    let reference = settings_doc("sk-original", "https://real.example.com/v1");
    let mut store = empty_store();
    let proxied = TransparentProxyConfigService::enable_transparent_proxy(
        &supported(),
        Some(original),
        &mut store,
        8787,
        "proxy-local",
    )
    .expect("enable succeeds");
    let restored = TransparentProxyConfigService::disable_transparent_proxy(
        &supported(),
        &store,
        Some(proxied),
    )
    .expect("disable succeeds");
    assert!(docs_equal(&restored, &reference));
}

#[test]
fn disable_twice_succeeds_and_stays_restored() {
    let original = settings_doc("sk-original", "https://real.example.com");
    let mut store = empty_store();
    let proxied = TransparentProxyConfigService::enable_transparent_proxy(
        &supported(),
        Some(original),
        &mut store,
        8787,
        "proxy-local",
    )
    .expect("enable succeeds");
    let once = TransparentProxyConfigService::disable_transparent_proxy(
        &supported(),
        &store,
        Some(proxied),
    )
    .expect("first disable succeeds");
    // already pointed at the real credentials after the first call
    assert_eq!(env_text(&once, "AI_AUTH_TOKEN"), "sk-original");
    assert_eq!(env_text(&once, "AI_BASE_URL"), "https://real.example.com");
    let reference = settings_doc("sk-original", "https://real.example.com");
    assert!(docs_equal(&once, &reference));
    // the record stays in the store, so a second disable works too
    let twice = TransparentProxyConfigService::disable_transparent_proxy(
        &supported(),
        &store,
        Some(once),
    )
    .expect("second disable succeeds");
    assert!(docs_equal(&twice, &reference));
}

#[test]
fn disable_without_record_fails() {
    let store = empty_store();
    let r = TransparentProxyConfigService::disable_transparent_proxy(&supported(), &store, None);
    assert_eq!(r.err(), Some(ProxyError::NoSavedCredentials));
}

#[test]
fn disable_builds_a_document_when_the_file_is_missing() {
    let store = GlobalConfig {
        transparent_proxy_real_api_key: Some("sk-r".to_string()),
        transparent_proxy_real_base_url: Some("https://r".to_string()),
    };
    let doc = TransparentProxyConfigService::disable_transparent_proxy(&supported(), &store, None)
        .expect("disable succeeds");
    assert_eq!(env_text(&doc, "AI_AUTH_TOKEN"), "sk-r");
    assert_eq!(env_text(&doc, "AI_BASE_URL"), "https://r");
}

#[test]
fn update_real_config_touches_only_the_store() {
    let mut store = GlobalConfig {
        transparent_proxy_real_api_key: Some("old-key".to_string()),
        transparent_proxy_real_base_url: Some("old-url".to_string()),
    };
    TransparentProxyConfigService::update_real_config(&supported(), &mut store, "new-key", "new-url")
        .expect("update succeeds");
    let (k, u) = TransparentProxyConfigService::get_real_config(&store).expect("read succeeds");
    assert_eq!(k, "new-key");
    assert_eq!(u, "new-url");
}

#[test]
fn get_real_config_requires_both_halves() {
    assert_eq!(
        TransparentProxyConfigService::get_real_config(&empty_store()).err(),
        Some(ProxyError::NoSavedCredentials)
    );
    let half = GlobalConfig {
        transparent_proxy_real_api_key: Some("k".to_string()),
        transparent_proxy_real_base_url: None,
    };
    assert_eq!(
        TransparentProxyConfigService::get_real_config(&half).err(),
        Some(ProxyError::NoSavedCredentials)
    );
}

#[test]
fn backup_reading_accepts_both_layouts() {
    // flat layout
    let mut flat = DocMap::new();
    flat.set("AI_AUTH_TOKEN".to_string(), text("sk-flat"));
    flat.set("AI_BASE_URL".to_string(), text("https://flat"));
    let (k, u) = TransparentProxyConfigService::read_real_config_from_backup(
        &supported(),
        Some(&flat),
    )
    .expect("flat layout read");
    assert_eq!(k, "sk-flat");
    assert_eq!(u, "https://flat");

    // nested layout
    let nested = settings_doc("sk-nested", "https://nested");
    let (k2, u2) = TransparentProxyConfigService::read_real_config_from_backup(
        &supported(),
        Some(&nested),
    )
    .expect("nested layout read");
    assert_eq!(k2, "sk-nested");
    assert_eq!(u2, "https://nested");
}

#[test]
fn backup_reading_reports_missing_pieces() {
    let r = TransparentProxyConfigService::read_real_config_from_backup(&supported(), None);
    assert_eq!(r.err(), Some(ProxyError::ConfigMissing));
    let mut partial = DocMap::new();
    partial.set("AI_AUTH_TOKEN".to_string(), text("sk-x"));
    let r2 = TransparentProxyConfigService::read_real_config_from_backup(
        &supported(),
        Some(&partial),
    );
    assert_eq!(r2.err(), Some(ProxyError::FieldMissing));
}

#[test]
fn local_proxy_url_formats_the_port() {
    assert_eq!(local_proxy_url(3210), "http://127.0.0.1:3210");
    assert_eq!(local_proxy_url(80), "http://127.0.0.1:80");
    assert_eq!(local_proxy_url(65535), "http://127.0.0.1:65535");
}

#[test]
fn error_descriptions_are_fixed() {
    assert_eq!(ProxyError::NotConfigured.describe(), "proxy not configured");
    assert_eq!(ProxyError::Unauthorized.describe(), "Unauthorized: Invalid API Key");
    assert_eq!(ProxyError::AlreadyRunning.describe(), "transparent proxy is already running");
    assert_eq!(ProxyError::BindFailed.describe(), "failed to bind the proxy port");
    assert_eq!(ProxyError::UpstreamFailure.describe(), "upstream request failed");
    assert_eq!(ProxyError::ConfigMissing.describe(), "tool configuration file not found");
    assert_eq!(
        ProxyError::NoSavedCredentials.describe(),
        "no saved real credentials"
    );
}
