use transparent_proxy::version::compare_versions;
use transparent_proxy::version::extract_version;
use transparent_proxy::version::extract_version_for_tool;

#[test]
fn extract_version_finds_the_first_match() {
    // through the regex engine: the text is searched, not echoed back
    assert_eq!(extract_version("v 1.2.3 beta").as_deref(), Some("1.2.3"));
    assert_eq!(extract_version("1.2.3 then 4.5.6").as_deref(), Some("1.2.3"));
    assert_eq!(extract_version("no version here"), None);
    assert_eq!(extract_version(""), None);
    assert_eq!(extract_version("10.20.30").as_deref(), Some("10.20.30"));
}

#[test]
fn extract_version_for_tool_reads_the_block() {
    let listing = "tools:\n✓ CC CLI\n  版本: 2.0.14\n✓ CodeX\n  版本: 0.36.0\n";
    assert_eq!(
        extract_version_for_tool(listing, "cc-cli").as_deref(),
        Some("2.0.14")
    );
    assert_eq!(extract_version_for_tool(listing, "codex").as_deref(), Some("0.36.0"));
    assert_eq!(extract_version_for_tool(listing, "gemini-cli"), None);
    assert_eq!(extract_version_for_tool(listing, "unknown-tool"), None);
}

#[test]
fn extract_version_for_tool_needs_the_version_line() {
    // a heading without a version line underneath yields nothing
    let listing = "✓ CC CLI\nnot a version line\n";
    assert_eq!(extract_version_for_tool(listing, "cc-cli"), None);
    // a heading as the last line has no next line at all
    let tail = "✓ CC CLI";
    assert_eq!(extract_version_for_tool(tail, "cc-cli"), None);
}

#[test]
fn compare_versions_is_component_wise() {
    assert!(compare_versions("1.2.3", "1.2.4"));
    assert!(compare_versions("1.2.3", "1.3.0"));
    assert!(compare_versions("1.2.3", "2.0.0"));
    assert!(!compare_versions("1.2.3", "1.2.3"));
    assert!(!compare_versions("2.0.0", "1.9.9"));
    assert!(!compare_versions("1.2.4", "1.2.3"));
}

#[test]
fn compare_versions_reads_missing_parts_as_zero() {
    assert!(compare_versions("1.2", "1.2.1"));
    assert!(!compare_versions("1.2.0", "1.2"));
    assert!(compare_versions("", "0.0.1"));
}

#[test]
fn compare_versions_drops_unparsable_parts() {
    // "1.x.2" keeps only [1, 2], so it reads as 1.2.0
    assert!(!compare_versions("1.x.2", "1.0.2"));
    assert!(compare_versions("1.x.2", "1.3.0"));
}
