use bplus::api::{
    CreateConv, trim_history, filter_providers, conv_title_or_default, ensure_db_suffix,
};
use bplus::llm::Message;
use bplus::search::ProviderConfig;
use bplus::json::{JsonValue, write_json};
use bplus::text::{lowercase, uppercase, url_encode, i64_to_chars, parse_usize_chars};

fn m(role: &str, content: &str) -> Message {
    Message { role: role.to_string(), content: content.to_string() }
}

fn p(id: i64) -> ProviderConfig {
    ProviderConfig {
        id,
        name: format!("p{}", id),
        type_: "native".to_string(),
        api_url: Some("native_ddg".to_string()),
        api_headers: None,
        result_path: None,
        title_path: None,
        url_path: None,
        content_path: None,
        is_enabled: true,
    }
}

#[test]
fn trailing_user_entry_is_dropped() {
    let history = vec![m("user", "a"), m("assistant", "b"), m("user", "c")];
    let out = trim_history(history);
    assert_eq!(out.len(), 2);
    assert_eq!(out[1].content, "b");
}

#[test]
fn history_ending_in_assistant_is_kept() {
    let history = vec![m("user", "a"), m("assistant", "b")];
    let out = trim_history(history);
    assert_eq!(out.len(), 2);
    let empty = trim_history(Vec::new());
    assert!(empty.is_empty());
}

#[test]
fn provider_selection_filters_by_id() {
    let providers = vec![p(1), p(2), p(3)];
    let sel = vec![3, 1];
    let out = filter_providers(providers, Some(&sel));
    assert_eq!(out.len(), 2);
    assert_eq!(out[0].id, 1);
    assert_eq!(out[1].id, 3);
    let all = filter_providers(vec![p(1), p(2)], None);
    assert_eq!(all.len(), 2);
}

#[test]
fn conversation_title_defaults() {
    assert_eq!(conv_title_or_default(CreateConv { title: None }), "New Chat");
    assert_eq!(
        conv_title_or_default(CreateConv { title: Some("Mine".to_string()) }),
        "Mine"
    );
}

#[test]
fn db_suffix_is_appended_once() {
    assert_eq!(ensure_db_suffix("notes"), "notes.db");
    assert_eq!(ensure_db_suffix("notes.db"), "notes.db");
    assert_eq!(ensure_db_suffix(""), ".db");
}

#[test]
fn case_folding_helpers() {
    // the uppercase transcript labels and lowercase ranking both rely on
    // real case folding, not on text handed back unchanged
    assert_eq!(lowercase("MiXeD"), "mixed");
    assert_eq!(uppercase("assistant"), "ASSISTANT");
}

#[test]
fn url_encoding_is_applied() {
    assert_eq!(url_encode("a b&c"), "a%20b%26c");
    assert_eq!(url_encode("plain-text_0.9~"), "plain-text_0.9~");
}

#[test]
fn integer_formatting() {
    let v: String = i64_to_chars(0).into_iter().collect();
    assert_eq!(v, "0");
    let v: String = i64_to_chars(-12034).into_iter().collect();
    assert_eq!(v, "-12034");
    let v: String = i64_to_chars(i64::MIN).into_iter().collect();
    assert_eq!(v, "-9223372036854775808");
}

#[test]
fn index_parsing_matches_std() {
    let cases = ["0", "17", "+4", "007", "", "a", "1a", "-1", "99999999999999999999999"];
    for c in cases {
        let chars: Vec<char> = c.chars().collect();
        assert_eq!(parse_usize_chars(&chars), c.parse::<usize>().ok(), "case {:?}", c);
    }
}

#[test]
fn json_writer_matches_reference() {
    let v = JsonValue::Obj(vec![
        ("a".to_string(), JsonValue::Arr(vec![
            JsonValue::Null,
            JsonValue::Bool(false),
            JsonValue::Num("1.5".to_string()),
            JsonValue::Str("q\"\\\u{0007}\t".to_string()),
        ])),
    ]);
    let mine: String = write_json(&v).into_iter().collect();
    let mut map = serde_json::Map::new();
    map.insert(
        "a".to_string(),
        serde_json::Value::Array(vec![
            serde_json::Value::Null,
            serde_json::Value::Bool(false),
            serde_json::from_str("1.5").unwrap(),
            serde_json::Value::String("q\"\\\u{0007}\t".to_string()),
        ]),
    );
    let reference = serde_json::Value::Object(map);
    assert_eq!(mine, serde_json::to_string(&reference).unwrap());
}
