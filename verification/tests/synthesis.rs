use bplus::orchestrate::{Synthesis, SynthStep, LlmChunk, results_to_json, build_prompt};
use bplus::search::{SearchResult, merge_and_rank};

fn r(title: &str, url: &str, content: &str, engine: &str) -> SearchResult {
    SearchResult {
        title: title.to_string(),
        url: url.to_string(),
        content: content.to_string(),
        engine: engine.to_string(),
    }
}

#[test]
fn empty_results_path() {
    // No results: exactly one summary chunk with the fixed notice, an
    // assistant turn persisted with empty provenance, and the backend never
    // invoked.
    let (mut synth, begin_steps) = Synthesis::begin("anything".to_string());
    assert_eq!(begin_steps.len(), 1);
    assert!(matches!(&begin_steps[0], SynthStep::PersistUser { content } if content == "anything"));
    let steps = synth.on_search_results(Vec::new());
    assert_eq!(steps.len(), 3);
    assert!(matches!(&steps[0], SynthStep::EmitResults(rs) if rs.is_empty()));
    let mut chunk_count = 0;
    for s in &steps {
        match s {
            SynthStep::EmitSummaryChunk(t) => {
                chunk_count += 1;
                assert_eq!(t, "No search results found to summarize.");
            },
            SynthStep::InvokeBackend { .. } => panic!("backend invoked on the empty path"),
            SynthStep::EmitSummaryStart => panic!("streaming started on the empty path"),
            _ => {},
        }
    }
    assert_eq!(chunk_count, 1);
    assert!(matches!(
        &steps[2],
        SynthStep::PersistAssistant { content, sources }
            if content == "No search results found to summarize." && sources == "[]"
    ));
}

#[test]
fn end_to_end_two_providers_one_failing() {
    // Query "rust ownership"; one provider answers with one result, the
    // other timed out (empty list). The dispatcher yields the one-element
    // list; the orchestrator emits it, streams a non-empty summary, and
    // finishes with the persisted id.
    let good = vec![r("Rust Ownership Guide", "https://a", "...", "x")];
    let timed_out: Vec<SearchResult> = Vec::new();
    let merged = merge_and_rank(vec![good, timed_out], "rust ownership");
    assert_eq!(merged.len(), 1);
    assert_eq!(merged[0].url, "https://a");

    let (mut synth, _) = Synthesis::begin("rust ownership".to_string());
    let steps = synth.on_search_results(merged);
    assert_eq!(steps.len(), 3);
    match &steps[0] {
        SynthStep::EmitResults(rs) => {
            assert_eq!(rs.len(), 1);
            assert_eq!(rs[0].title, "Rust Ownership Guide");
        },
        _ => panic!("results event missing"),
    }
    assert!(matches!(&steps[1], SynthStep::EmitSummaryStart));
    match &steps[2] {
        SynthStep::InvokeBackend { prompt } => {
            assert!(prompt.contains("rust ownership"));
            assert!(prompt.contains("[x] Rust Ownership Guide"));
        },
        _ => panic!("backend not invoked"),
    }

    let s1 = synth.on_chunk(LlmChunk::Text("Ownership ".to_string()));
    assert!(matches!(&s1[0], SynthStep::EmitSummaryChunk(t) if t == "Ownership "));
    let s2 = synth.on_chunk(LlmChunk::Text("moves values.".to_string()));
    assert!(matches!(&s2[0], SynthStep::EmitSummaryChunk(t) if t == "moves values."));

    let s3 = synth.on_stream_end();
    assert_eq!(s3.len(), 1);
    match &s3[0] {
        SynthStep::PersistAssistant { content, sources } => {
            assert_eq!(content, "Ownership moves values.");
            assert!(sources.contains("\"url\":\"https://a\""));
        },
        _ => panic!("assistant turn not persisted"),
    }

    let s4 = synth.on_persisted(42);
    assert_eq!(s4.len(), 1);
    assert!(matches!(&s4[0], SynthStep::EmitSummaryDone(42)));
}

#[test]
fn backend_fault_becomes_error_event() {
    let (mut synth, _) = Synthesis::begin("q".to_string());
    let _ = synth.on_search_results(vec![r("q result", "https://a", "c", "x")]);
    let before = synth.on_chunk(LlmChunk::Text("partial".to_string()));
    assert!(matches!(&before[0], SynthStep::EmitSummaryChunk(_)));
    let fault = synth.on_chunk(LlmChunk::Fault("connection reset".to_string()));
    assert_eq!(fault.len(), 1);
    assert!(matches!(&fault[0], SynthStep::EmitError(m) if m == "connection reset"));
    // already-accumulated text still gets persisted
    let end = synth.on_stream_end();
    assert!(matches!(&end[0], SynthStep::PersistAssistant { content, .. } if content == "partial"));
}

#[test]
fn results_truncate_to_fifteen() {
    let mut many = Vec::new();
    for k in 0..20 {
        many.push(r(&format!("t{}", k), &format!("https://u{}", k), "c", "x"));
    }
    let (mut synth, _) = Synthesis::begin("t".to_string());
    let steps = synth.on_search_results(many);
    match &steps[0] {
        SynthStep::EmitResults(rs) => {
            assert_eq!(rs.len(), 15);
            assert_eq!(rs[14].url, "https://u14");
        },
        _ => panic!("results event missing"),
    }
}

#[test]
fn provenance_serialization_escapes() {
    let rs = vec![r("a \"quoted\" title", "https://a", "line\nbreak", "x")];
    let json = results_to_json(&rs);
    assert_eq!(
        json,
        "[{\"title\":\"a \\\"quoted\\\" title\",\"url\":\"https://a\",\"content\":\"line\\nbreak\",\"engine\":\"x\"}]"
    );
    let empty: Vec<SearchResult> = Vec::new();
    assert_eq!(results_to_json(&empty), "[]");
}

#[test]
fn prompt_format_is_exact() {
    let rs = vec![r("T", "https://u", "C", "E")];
    let prompt = build_prompt("my query", &rs);
    assert_eq!(
        prompt,
        "Based on the following search results, write a clear, concise summary answering my latest prompt: \"my query\".\n\nSearch Results:\n[E] T\nURL: https://u\nSnippet: C"
    );
}

#[test]
fn snippets_are_separated_by_rules() {
    let rs = vec![r("A", "https://a", "ca", "e1"), r("B", "https://b", "cb", "e2")];
    let prompt = build_prompt("q", &rs);
    assert!(prompt.contains("[e1] A\nURL: https://a\nSnippet: ca\n\n---\n\n[e2] B\nURL: https://b\nSnippet: cb"));
}
