use orchestra_core::segments::normalize_pull_request_url;

#[test]
fn normalized_pull_request_links_normalize_to_themselves() {
    let once = normalize_pull_request_url("  https://github.com/openai/codex/pull/0042/?tab=files#top ").expect("a link");
    assert_eq!(once, "https://github.com/openai/codex/pull/42");
    assert_eq!(normalize_pull_request_url(&once).as_deref(), Some(once.as_str()));
    assert_eq!(normalize_pull_request_url("https://github.com/openai/codex/issues/1"), None);
}
