use transparent_proxy::tools::TokenRecord;
use transparent_proxy::tools::extended_path;
use transparent_proxy::tools::install_success_message;
use transparent_proxy::tools::mask_api_key;
use transparent_proxy::tools::newest_token_key;
use transparent_proxy::tools::npm_package_for_tool;
use transparent_proxy::tools::token_request_meta;
use transparent_proxy::tools::token_search_url;
use transparent_proxy::tools::tool_statuses;
use transparent_proxy::tools::update_command;
use transparent_proxy::tools::usage_window;

#[test]
fn mask_api_key_hides_the_middle() {
    assert_eq!(mask_api_key("sk-abcdefgh"), "sk-a...efgh");
    assert_eq!(mask_api_key("abc"), "****");
    assert_eq!(mask_api_key("12345678"), "****");
    assert_eq!(mask_api_key("123456789"), "1234...6789");
    assert_eq!(mask_api_key(""), "****");
}

#[test]
fn npm_packages_are_fixed_per_tool() {
    assert_eq!(npm_package_for_tool("cc-cli"), Some("@cc-ai/cc-cli"));
    assert_eq!(npm_package_for_tool("codex"), Some("@openai/codex"));
    assert_eq!(npm_package_for_tool("gemini-cli"), Some("@google/gemini-cli"));
    assert_eq!(npm_package_for_tool("something-else"), None);
}

#[test]
fn update_commands_choose_npm_or_brew() {
    let cc = update_command("cc-cli", None).unwrap();
    assert_eq!(cc.program, "npm");
    assert_eq!(cc.args, vec!["install", "-g", "@cc-ai/cc-cli@latest"]);

    let brew_path = "/opt/homebrew/bin/codex".to_string();
    let codex_brew = update_command("codex", Some(&brew_path)).unwrap();
    assert_eq!(codex_brew.program, "brew");
    assert_eq!(codex_brew.args, vec!["upgrade", "codex"]);

    let npm_path = "/home/u/.npm-global/bin/codex".to_string();
    let codex_npm = update_command("codex", Some(&npm_path)).unwrap();
    assert_eq!(codex_npm.program, "npm");
    assert_eq!(codex_npm.args, vec!["install", "-g", "@openai/codex@latest"]);

    let codex_unresolved = update_command("codex", None).unwrap();
    assert_eq!(codex_unresolved.program, "npm");

    assert!(update_command("nonesuch", None).is_none());
}

#[test]
fn token_request_meta_names_the_tool() {
    let (name, group) = token_request_meta("cc-cli").unwrap();
    assert_eq!(name, "CC CLI一键创建");
    assert_eq!(group, "CC CLI专用");
    assert!(token_request_meta("nonesuch").is_none());
}

#[test]
fn newest_token_wins_and_ties_go_first() {
    let tokens = vec![
        TokenRecord { id: 1, key: "aaa".to_string() },
        TokenRecord { id: 5, key: "bbb".to_string() },
        TokenRecord { id: 3, key: "ccc".to_string() },
    ];
    assert_eq!(newest_token_key(&tokens).as_deref(), Some("sk-bbb"));

    let ties = vec![
        TokenRecord { id: 7, key: "first".to_string() },
        TokenRecord { id: 7, key: "second".to_string() },
    ];
    assert_eq!(newest_token_key(&ties).as_deref(), Some("sk-first"));

    let empty: Vec<TokenRecord> = vec![];
    assert_eq!(newest_token_key(&empty), None);
}

#[test]
fn token_search_url_percent_encodes_the_name() {
    // would fail if the encoder handed its argument back unchanged
    assert_eq!(
        token_search_url("a b"),
        "https://duckcoding.com/api/token/search?keyword=a%20b"
    );
    assert_eq!(
        token_search_url("plain"),
        "https://duckcoding.com/api/token/search?keyword=plain"
    );
}

#[test]
fn tool_statuses_reflect_the_probes() {
    let r = tool_statuses(Some("2.0.1".to_string()), None, Some("0.9.0".to_string()));
    assert_eq!(r.len(), 3);
    assert_eq!(r[0].id, "cc-cli");
    assert_eq!(r[0].name, "CC CLI");
    assert!(r[0].installed);
    assert_eq!(r[0].version.as_deref(), Some("2.0.1"));
    assert_eq!(r[1].id, "codex");
    assert!(!r[1].installed);
    assert_eq!(r[1].version, None);
    assert_eq!(r[2].id, "gemini-cli");
    assert!(r[2].installed);
}

#[test]
fn install_message_is_exact() {
    assert_eq!(
        install_success_message("codex", "npm"),
        "codex installed successfully via npm"
    );
}

#[test]
fn extended_path_lists_the_bins_then_the_inherited_path() {
    assert_eq!(
        extended_path("/home/u", "/usr/games"),
        "/home/u/.local/bin:/home/u/.cc-cli/bin:/opt/homebrew/bin:/usr/local/bin:/usr/bin:/bin:/usr/sbin:/sbin:/usr/games"
    );
}

#[test]
fn usage_window_ends_at_beijing_midnight() {
    // epoch: the Beijing day ends 57600 seconds in
    assert_eq!(usage_window(0), (57600 - 2592000, 57600));
    // one full day later
    assert_eq!(usage_window(86400), (144000 - 2592000, 144000));
    // mid-day stays within the same window
    assert_eq!(usage_window(86400 + 12 * 3600), (144000 - 2592000, 144000));
}
