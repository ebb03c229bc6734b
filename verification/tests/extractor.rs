use bplus::json::JsonValue;
use bplus::extract::{GenericApiProvider, extract_value};
use bplus::search::ProviderConfig;

fn cfg(
    api_url: Option<&str>,
    result_path: Option<&str>,
    title_path: Option<&str>,
    url_path: Option<&str>,
    content_path: Option<&str>,
) -> ProviderConfig {
    ProviderConfig {
        id: 7,
        name: "MyApi".to_string(),
        type_: "generic".to_string(),
        api_url: api_url.map(|s| s.to_string()),
        api_headers: None,
        result_path: result_path.map(|s| s.to_string()),
        title_path: title_path.map(|s| s.to_string()),
        url_path: url_path.map(|s| s.to_string()),
        content_path: content_path.map(|s| s.to_string()),
        is_enabled: true,
    }
}

fn sample_tree() -> JsonValue {
    JsonValue::Obj(vec![
        ("name".to_string(), JsonValue::Str("alpha".to_string())),
        (
            "items".to_string(),
            JsonValue::Arr(vec![
                JsonValue::Obj(vec![
                    ("id".to_string(), JsonValue::Num("12".to_string())),
                    ("ok".to_string(), JsonValue::Bool(true)),
                ]),
                JsonValue::Str("second".to_string()),
            ]),
        ),
        ("empty".to_string(), JsonValue::Null),
    ])
}

#[test]
fn extract_none_path_is_empty() {
    assert_eq!(extract_value(&sample_tree(), None), "");
}

#[test]
fn extract_empty_path_is_empty() {
    let p = String::new();
    assert_eq!(extract_value(&sample_tree(), Some(&p)), "");
}

#[test]
fn extract_field() {
    let p = "name".to_string();
    assert_eq!(extract_value(&sample_tree(), Some(&p)), "alpha");
}

#[test]
fn extract_nested_index_and_field() {
    let p = "items.0.id".to_string();
    assert_eq!(extract_value(&sample_tree(), Some(&p)), "12");
    let p2 = "items.0.ok".to_string();
    assert_eq!(extract_value(&sample_tree(), Some(&p2)), "true");
    let p3 = "items.1".to_string();
    assert_eq!(extract_value(&sample_tree(), Some(&p3)), "second");
}

#[test]
fn extract_absent_field_is_empty() {
    let p = "missing".to_string();
    assert_eq!(extract_value(&sample_tree(), Some(&p)), "");
    // resolution continues through the null marker and still degrades to "".
    let p2 = "missing.deeper.again".to_string();
    assert_eq!(extract_value(&sample_tree(), Some(&p2)), "");
}

#[test]
fn extract_index_out_of_bounds_is_empty() {
    let p = "items.2".to_string();
    assert_eq!(extract_value(&sample_tree(), Some(&p)), "");
    // a numeric segment against a non-array falls back to a field lookup,
    // which on a string node degrades to empty text.
    let p2 = "name.0".to_string();
    assert_eq!(extract_value(&sample_tree(), Some(&p2)), "");
}

#[test]
fn extract_numeric_segment_reads_numeric_object_key() {
    // on a non-array node a numeric segment is an object-field lookup, so a
    // member whose key happens to be digits is reachable
    let tree = JsonValue::Obj(vec![("0".to_string(), JsonValue::Str("x".to_string()))]);
    let p = "0".to_string();
    assert_eq!(extract_value(&tree, Some(&p)), "x");
    let nested = JsonValue::Obj(vec![(
        "counts".to_string(),
        JsonValue::Obj(vec![("12".to_string(), JsonValue::Num("5".to_string()))]),
    )]);
    let p2 = "counts.12".to_string();
    assert_eq!(extract_value(&nested, Some(&p2)), "5");
}

#[test]
fn extract_non_scalar_terminal_is_empty() {
    let p = "items".to_string();
    assert_eq!(extract_value(&sample_tree(), Some(&p)), "");
    let p2 = "empty".to_string();
    assert_eq!(extract_value(&sample_tree(), Some(&p2)), "");
}

#[test]
fn generic_results_shape_items() {
    let body = JsonValue::Obj(vec![(
        "data".to_string(),
        JsonValue::Obj(vec![(
            "hits".to_string(),
            JsonValue::Arr(vec![
                JsonValue::Obj(vec![
                    ("t".to_string(), JsonValue::Str("First".to_string())),
                    ("u".to_string(), JsonValue::Str("https://one".to_string())),
                    ("c".to_string(), JsonValue::Str("text".to_string())),
                ]),
                // no URL: discarded
                JsonValue::Obj(vec![("t".to_string(), JsonValue::Str("NoUrl".to_string()))]),
                // no title: placeholder
                JsonValue::Obj(vec![(
                    "u".to_string(),
                    JsonValue::Str("https://two".to_string()),
                )]),
            ]),
        )]),
    )]);
    let provider = GenericApiProvider::new(cfg(
        Some("https://api.example/search?q={q}"),
        Some("data.hits"),
        Some("t"),
        Some("u"),
        Some("c"),
    ));
    let results = provider.results_from(&body);
    assert_eq!(results.len(), 2);
    assert_eq!(results[0].title, "First");
    assert_eq!(results[0].url, "https://one");
    assert_eq!(results[0].content, "text");
    assert_eq!(results[0].engine, "MyApi");
    assert_eq!(results[1].title, "No Title");
    assert_eq!(results[1].url, "https://two");
    assert_eq!(results[1].content, "");
}

#[test]
fn generic_request_url_encodes_query() {
    let provider = GenericApiProvider::new(cfg(
        Some("https://api.example/search?q={q}&n=5"),
        None,
        None,
        None,
        None,
    ));
    let url = provider.request_url("rust & ownership").unwrap();
    assert_eq!(url, "https://api.example/search?q=rust%20%26%20ownership&n=5");
}

#[test]
fn generic_request_url_without_template() {
    let provider = GenericApiProvider::new(cfg(None, None, None, None, None));
    assert!(provider.request_url("q").is_none());
    let provider2 = GenericApiProvider::new(cfg(Some(""), None, None, None, None));
    assert!(provider2.request_url("q").is_none());
}
