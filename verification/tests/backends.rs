use bplus::json::{JsonValue, write_json};
use bplus::llm::{
    Message, models_request, lmstudio_models, openai_models, openrouter_models, google_models,
    chat_messages, chat_body, google_body, google_url, api_base_for, chat_url, sse_data_payloads,
    delta_content, google_chunk_text,
};

fn model_entry(id: &str) -> JsonValue {
    JsonValue::Obj(vec![("id".to_string(), JsonValue::Str(id.to_string()))])
}

#[test]
fn models_request_per_provider() {
    let lm = models_request("lmstudio", "http://localhost:1234/v1").unwrap();
    assert_eq!(lm.url, "http://localhost:1234/v1/models");
    assert!(lm.headers.is_empty());

    let oa = models_request("openai", "SECRET-REDACTED").unwrap();
    assert_eq!(oa.url, "https://api.openai.com/v1/models");
    assert_eq!(oa.headers.len(), 1);
    assert_eq!(oa.headers[0].0, "Authorization");
    assert_eq!(oa.headers[0].1, "Bearer SECRET-REDACTED");

    let orr = models_request("openrouter", "SECRET-REDACTED").unwrap();
    assert_eq!(orr.url, "https://openrouter.ai/api/v1/models");

    let g = models_request("google", "SECRET-REDACTED").unwrap();
    assert_eq!(
        g.url,
        "https://generativelanguage.googleapis.com/v1beta/models?key=SECRET-REDACTED"
    );
    assert!(g.headers.is_empty());

    // no provider, or a dangling key, asks nothing
    assert!(models_request("other", "x").is_none());
    assert!(models_request("google", "").is_none());
}

#[test]
fn lmstudio_listing_takes_all_ids() {
    let body = JsonValue::Obj(vec![(
        "data".to_string(),
        JsonValue::Arr(vec![model_entry("m1"), model_entry("m2")]),
    )]);
    let out = lmstudio_models(&body);
    assert_eq!(out.len(), 2);
    assert_eq!(out[0].id, "m1");
    assert_eq!(out[0].name, "m1");
    assert_eq!(out[1].id, "m2");
}

#[test]
fn openai_listing_filters_prefixes() {
    let body = JsonValue::Obj(vec![(
        "data".to_string(),
        JsonValue::Arr(vec![
            model_entry("gpt-4o"),
            model_entry("whisper-1"),
            model_entry("o1-mini"),
        ]),
    )]);
    let out = openai_models(&body);
    assert_eq!(out.len(), 2);
    assert_eq!(out[0].id, "gpt-4o");
    assert_eq!(out[1].id, "o1-mini");
}

#[test]
fn openrouter_listing_prefers_names() {
    let with_name = JsonValue::Obj(vec![
        ("id".to_string(), JsonValue::Str("vendor/model".to_string())),
        ("name".to_string(), JsonValue::Str("Nice Model".to_string())),
    ]);
    let body = JsonValue::Obj(vec![(
        "data".to_string(),
        JsonValue::Arr(vec![with_name, model_entry("vendor/other")]),
    )]);
    let out = openrouter_models(&body);
    assert_eq!(out.len(), 2);
    assert_eq!(out[0].id, "vendor/model");
    assert_eq!(out[0].name, "Nice Model");
    assert_eq!(out[1].name, "vendor/other");
}

#[test]
fn google_listing_requires_generate_content() {
    let yes = JsonValue::Obj(vec![
        ("name".to_string(), JsonValue::Str("models/gem".to_string())),
        ("displayName".to_string(), JsonValue::Str("Gem".to_string())),
        (
            "supportedGenerationMethods".to_string(),
            JsonValue::Arr(vec![
                JsonValue::Str("embedContent".to_string()),
                JsonValue::Str("generateContent".to_string()),
            ]),
        ),
    ]);
    let no = JsonValue::Obj(vec![
        ("name".to_string(), JsonValue::Str("models/embed".to_string())),
        ("displayName".to_string(), JsonValue::Str("Embed".to_string())),
        (
            "supportedGenerationMethods".to_string(),
            JsonValue::Arr(vec![JsonValue::Str("embedContent".to_string())]),
        ),
    ]);
    let body = JsonValue::Obj(vec![("models".to_string(), JsonValue::Arr(vec![yes, no]))]);
    let out = google_models(&body);
    assert_eq!(out.len(), 1);
    assert_eq!(out[0].id, "models/gem");
    assert_eq!(out[0].name, "Gem");
}

#[test]
fn chat_roll_wraps_history() {
    let history = vec![
        Message { role: "user".to_string(), content: "earlier".to_string() },
        Message { role: "assistant".to_string(), content: "answer".to_string() },
    ];
    let roll = chat_messages("be helpful", history, "now this");
    assert_eq!(roll.len(), 4);
    assert_eq!(roll[0].role, "system");
    assert_eq!(roll[0].content, "be helpful");
    assert_eq!(roll[1].content, "earlier");
    assert_eq!(roll[2].role, "assistant");
    assert_eq!(roll[3].role, "user");
    assert_eq!(roll[3].content, "now this");
}

#[test]
fn chat_body_serializes() {
    let roll = vec![Message { role: "system".to_string(), content: "s".to_string() }];
    let body = chat_body("gpt-4o", roll);
    let text: String = write_json(&body).into_iter().collect();
    assert_eq!(
        text,
        "{\"messages\":[{\"role\":\"system\",\"content\":\"s\"}],\"model\":\"gpt-4o\",\"stream\":true}"
    );
}

#[test]
fn google_body_serializes() {
    let body = google_body("sys", "user q");
    let text: String = write_json(&body).into_iter().collect();
    assert_eq!(text, "{\"contents\":[{\"parts\":[{\"text\":\"sys\\n\\nuser q\"}]}]}");
}

#[test]
fn google_url_strips_models_prefix() {
    let url = google_url("models/gemini-pro", "SECRET-REDACTED");
    assert_eq!(
        url,
        "https://generativelanguage.googleapis.com/v1beta/models/gemini-pro:streamGenerateContent?key=SECRET-REDACTED"
    );
}

#[test]
fn api_bases_per_provider() {
    assert_eq!(api_base_for("openai", None), "https://api.openai.com/v1");
    assert_eq!(api_base_for("openrouter", None), "https://openrouter.ai/api/v1");
    assert_eq!(api_base_for("lmstudio", Some("http://box:9")), "http://box:9");
    assert_eq!(api_base_for("lmstudio", None), "http://localhost:1234/v1");
    assert_eq!(chat_url("https://api.openai.com/v1"), "https://api.openai.com/v1/chat/completions");
}

#[test]
fn sse_payloads_stop_at_done() {
    let chunk = "data: {\"a\":1}\r\nnot data\ndata: {\"b\":2}\n\ndata: [DONE]\ndata: {\"c\":3}\n";
    let payloads = sse_data_payloads(chunk);
    assert_eq!(payloads.len(), 2);
    assert_eq!(payloads[0], "{\"a\":1}");
    assert_eq!(payloads[1], "{\"b\":2}");
}

#[test]
fn delta_content_reads_first_choice() {
    let payload = JsonValue::Obj(vec![(
        "choices".to_string(),
        JsonValue::Arr(vec![JsonValue::Obj(vec![(
            "delta".to_string(),
            JsonValue::Obj(vec![("content".to_string(), JsonValue::Str("tok".to_string()))]),
        )])]),
    )]);
    assert_eq!(delta_content(&payload).as_deref(), Some("tok"));
    let no_content = JsonValue::Obj(vec![(
        "choices".to_string(),
        JsonValue::Arr(vec![JsonValue::Obj(vec![(
            "delta".to_string(),
            JsonValue::Obj(Vec::new()),
        )])]),
    )]);
    assert!(delta_content(&no_content).is_none());
}

#[test]
fn google_chunk_text_unescapes() {
    let chunk = "{\n  \"text\": \"Hello\\nWorld\"\n}";
    assert_eq!(google_chunk_text(chunk).as_deref(), Some("Hello\nWorld"));
    assert!(google_chunk_text("no marker here").is_none());
    assert!(google_chunk_text("\"text\": \"unterminated").is_none());
}
