use bplus::json::JsonValue;
use bplus::engines::{
    ddg_url, qwant_url, mojeek_url, wikipedia_url, reddit_url, stackexchange_url, searxng_url,
    suggest_url, searxng_results, wikipedia_results, reddit_results, stackexchange_results,
    suggestions_from,
};

#[test]
fn ddg_url_maps_timeframes() {
    let day = "day".to_string();
    let week = "week".to_string();
    let month = "month".to_string();
    let odd = "fortnight".to_string();
    assert_eq!(
        ddg_url("rust lang", Some(&day)),
        "https://duckduckgo.com/html/?q=rust%20lang&kp=1&df=d"
    );
    assert_eq!(ddg_url("q", Some(&week)), "https://duckduckgo.com/html/?q=q&kp=1&df=w");
    assert_eq!(ddg_url("q", Some(&month)), "https://duckduckgo.com/html/?q=q&kp=1&df=m");
    // unrecognized values apply no filter
    assert_eq!(ddg_url("q", Some(&odd)), "https://duckduckgo.com/html/?q=q&kp=1");
    assert_eq!(ddg_url("q", None), "https://duckduckgo.com/html/?q=q&kp=1");
}

#[test]
fn fixed_engine_urls() {
    assert_eq!(qwant_url("a b"), "https://www.qwant.com/?q=a%20b&t=web");
    assert_eq!(mojeek_url("x"), "https://www.mojeek.com/search?q=x");
    assert_eq!(
        wikipedia_url("cats"),
        "https://en.wikipedia.org/w/api.php?action=query&list=search&utf8=1&format=json&srsearch=cats"
    );
    assert_eq!(
        reddit_url("cats"),
        "https://www.reddit.com/search.json?q=cats&sort=relevance&limit=10"
    );
    assert_eq!(
        stackexchange_url("cats"),
        "https://api.stackexchange.com/2.3/search/advanced?order=desc&sort=relevance&q=cats&site=stackoverflow"
    );
}

#[test]
fn searxng_url_needs_base() {
    let day = "day".to_string();
    assert!(searxng_url("", "q", None).is_none());
    assert_eq!(
        searxng_url("http://sx:8080", "a b", Some(&day)).unwrap(),
        "http://sx:8080/search?q=a%20b&format=json&time_range=day"
    );
    assert_eq!(
        searxng_url("http://sx:8080", "q", None).unwrap(),
        "http://sx:8080/search?q=q&format=json"
    );
}

#[test]
fn suggest_url_skips_empty_query() {
    assert!(suggest_url("").is_none());
    // the suggestion query rides along unencoded, as the source sends it
    assert_eq!(
        suggest_url("he ll").unwrap(),
        "https://duckduckgo.com/ac/?type=list&q=he ll"
    );
}

fn s(v: &str) -> JsonValue {
    JsonValue::Str(v.to_string())
}

#[test]
fn searxng_shaping() {
    let body = JsonValue::Obj(vec![(
        "results".to_string(),
        JsonValue::Arr(vec![JsonValue::Obj(vec![
            ("title".to_string(), s("T")),
            ("url".to_string(), s("https://u")),
            ("content".to_string(), s("C")),
        ])]),
    )]);
    let out = searxng_results(&body);
    assert_eq!(out.len(), 1);
    assert_eq!(out[0].title, "T");
    assert_eq!(out[0].url, "https://u");
    assert_eq!(out[0].content, "C");
    assert_eq!(out[0].engine, "SearXNG");
    // no results array: nothing
    assert!(searxng_results(&JsonValue::Null).is_empty());
}

#[test]
fn wikipedia_shaping_strips_highlights() {
    let body = JsonValue::Obj(vec![(
        "query".to_string(),
        JsonValue::Obj(vec![(
            "search".to_string(),
            JsonValue::Arr(vec![JsonValue::Obj(vec![
                ("title".to_string(), s("Rust (programming language)")),
                (
                    "snippet".to_string(),
                    s("<span class=\"searchmatch\">Rust</span> is a language"),
                ),
            ])]),
        )]),
    )]);
    let out = wikipedia_results(&body);
    assert_eq!(out.len(), 1);
    assert_eq!(out[0].title, "Rust (programming language)");
    assert_eq!(
        out[0].url,
        "https://en.wikipedia.org/wiki/Rust_(programming_language)"
    );
    assert_eq!(out[0].content, "Rust is a language");
    assert_eq!(out[0].engine, "Wikipedia");
}

#[test]
fn reddit_shaping_truncates_body() {
    let long_body: String = "x".repeat(300);
    let body = JsonValue::Obj(vec![(
        "data".to_string(),
        JsonValue::Obj(vec![(
            "children".to_string(),
            JsonValue::Arr(vec![JsonValue::Obj(vec![(
                "data".to_string(),
                JsonValue::Obj(vec![
                    ("title".to_string(), s("Post")),
                    ("permalink".to_string(), s("/r/rust/1")),
                    ("selftext".to_string(), s(&long_body)),
                ]),
            )])]),
        )]),
    )]);
    let out = reddit_results(&body);
    assert_eq!(out.len(), 1);
    assert_eq!(out[0].url, "https://www.reddit.com/r/rust/1");
    assert_eq!(out[0].content.chars().count(), 200);
    assert_eq!(out[0].engine, "Reddit");
}

#[test]
fn stackexchange_shaping_prints_score() {
    let body = JsonValue::Obj(vec![(
        "items".to_string(),
        JsonValue::Arr(vec![JsonValue::Obj(vec![
            ("title".to_string(), s("How do I borrow?")),
            ("link".to_string(), s("https://so/1")),
            ("score".to_string(), JsonValue::Num("42".to_string())),
        ])]),
    )]);
    let out = stackexchange_results(&body);
    assert_eq!(out.len(), 1);
    assert_eq!(out[0].content, "Score: 42");
    assert_eq!(out[0].engine, "StackOverflow");
}

#[test]
fn suggestions_keep_text_entries() {
    let body = JsonValue::Arr(vec![
        s("query"),
        JsonValue::Arr(vec![s("one"), JsonValue::Num("2".to_string()), s("three")]),
    ]);
    let out = suggestions_from(&body);
    assert_eq!(out, vec!["one".to_string(), "three".to_string()]);
    assert!(suggestions_from(&JsonValue::Null).is_empty());
}
