use bplus::search::{
    SearchResult, ProviderConfig, AdapterKind, adapter_kind, is_generic, effective_providers,
    dedup_results, rank_results, merge_and_rank,
};

fn r(title: &str, url: &str, engine: &str) -> SearchResult {
    SearchResult {
        title: title.to_string(),
        url: url.to_string(),
        content: "c".to_string(),
        engine: engine.to_string(),
    }
}

#[test]
fn dedup_keeps_first_of_same_url() {
    // Several results share one URL, possibly from different providers:
    // exactly the earliest-iterated one survives.
    let input = vec![
        r("from provider one", "https://same", "p1"),
        r("from provider two", "https://same", "p2"),
        r("from provider three", "https://same", "p3"),
    ];
    let out = dedup_results(&input);
    assert_eq!(out.len(), 1);
    assert_eq!(out[0].title, "from provider one");
    assert_eq!(out[0].engine, "p1");
}

#[test]
fn dedup_keeps_distinct_urls_in_order() {
    let input = vec![
        r("a", "https://a", "x"),
        r("b", "https://b", "x"),
        r("a again", "https://a", "y"),
        r("c", "https://c", "x"),
    ];
    let out = dedup_results(&input);
    assert_eq!(out.len(), 3);
    assert_eq!(out[0].url, "https://a");
    assert_eq!(out[1].url, "https://b");
    assert_eq!(out[2].url, "https://c");
    assert_eq!(out[0].engine, "x");
}

#[test]
fn rank_puts_title_matches_first_stably() {
    // Matching is case-insensitive, and input order is kept in each group.
    let input = vec![
        r("Unrelated news", "https://1", "x"),
        r("Rust Ownership Guide", "https://2", "x"),
        r("Other result", "https://3", "x"),
        r("more RUST OWNERSHIP tips", "https://4", "x"),
    ];
    let out = rank_results(input, "rust ownership");
    assert_eq!(out.len(), 4);
    assert_eq!(out[0].url, "https://2");
    assert_eq!(out[1].url, "https://4");
    assert_eq!(out[2].url, "https://1");
    assert_eq!(out[3].url, "https://3");
}

#[test]
fn rank_depends_on_case_folding() {
    // An uppercase query only matches a lowercase title through folding; a
    // folding that handed text back unchanged would rank this result last.
    let input = vec![r("plain", "https://p", "x"), r("rust", "https://q", "x")];
    let out = rank_results(input, "RUST");
    assert_eq!(out[0].url, "https://q");
    assert_eq!(out[1].url, "https://p");
}

#[test]
fn fault_isolation_keeps_sibling_results() {
    // One provider failed (its list is empty); the sibling's result stands.
    let good = vec![r("Rust Ownership Guide", "https://a", "x")];
    let failed: Vec<SearchResult> = Vec::new();
    let out = merge_and_rank(vec![failed, good], "rust ownership");
    assert_eq!(out.len(), 1);
    assert_eq!(out[0].url, "https://a");
}

#[test]
fn merge_and_rank_end_to_end() {
    // Two providers; duplicates collapse to the earliest, then matches lead.
    let p1 = vec![r("nothing here", "https://dup", "p1")];
    let p2 = vec![
        r("rust ownership explained", "https://dup", "p2"),
        r("rust ownership explained", "https://fresh", "p2"),
    ];
    let out = merge_and_rank(vec![p1, p2], "rust ownership");
    assert_eq!(out.len(), 2);
    // https://dup survives as provider one's result, which does not match,
    // so provider two's fresh match leads.
    assert_eq!(out[0].url, "https://fresh");
    assert_eq!(out[1].url, "https://dup");
    assert_eq!(out[1].engine, "p1");
}

#[test]
fn adapter_kinds_resolve() {
    assert!(matches!(adapter_kind("native_local_db"), AdapterKind::LocalArchive));
    assert!(matches!(adapter_kind("native_ddg"), AdapterKind::Ddg));
    assert!(matches!(adapter_kind("native_qwant"), AdapterKind::Qwant));
    assert!(matches!(adapter_kind("native_mojeek"), AdapterKind::Mojeek));
    assert!(matches!(adapter_kind("native_wiki"), AdapterKind::Wikipedia));
    assert!(matches!(adapter_kind("native_reddit"), AdapterKind::Reddit));
    assert!(matches!(adapter_kind("native_stack"), AdapterKind::StackExchange));
    assert!(matches!(adapter_kind("native_searxng"), AdapterKind::Searxng));
    assert!(matches!(adapter_kind("native_other"), AdapterKind::Unknown));
}

#[test]
fn empty_provider_list_gets_local_default() {
    let out = effective_providers(Vec::new());
    assert_eq!(out.len(), 1);
    assert_eq!(out[0].name, "Local Database");
    assert_eq!(out[0].type_, "native");
    assert_eq!(out[0].api_url.as_deref(), Some("native_local_db"));
    assert!(out[0].is_enabled);
    assert!(!is_generic(&out[0]));
}

#[test]
fn non_empty_provider_list_is_kept() {
    let p = ProviderConfig {
        id: 3,
        name: "Mine".to_string(),
        type_: "generic".to_string(),
        api_url: Some("https://x/{q}".to_string()),
        api_headers: None,
        result_path: None,
        title_path: None,
        url_path: None,
        content_path: None,
        is_enabled: true,
    };
    let out = effective_providers(vec![p]);
    assert_eq!(out.len(), 1);
    assert_eq!(out[0].name, "Mine");
    assert!(is_generic(&out[0]));
}
