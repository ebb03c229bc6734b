//! Orchestration of one synthesis request.
//!
//! One request runs: persist the user turn, retrieve and truncate results,
//! emit them, then either close with the fixed notice when nothing was found
//! or stream a grounded summary and persist it with the serialized result
//! set as provenance. The machine here decides every step; the surrounding
//! application performs the effects (persistence, the backend call, event
//! delivery) and feeds back what happened. A backend fault becomes an error
//! event, never a failure of the request; a failed final persist is reported
//! with a message id of zero.

use vstd::prelude::*;
use crate::search::SearchResult;
use crate::json::quoted;

verus! {

/// What the streaming backend handed back: a piece of summary text, or a
/// fault (a transport error, a refused request).
pub enum LlmChunk {
    Text(String),
    Fault(String),
}

/// One step the application must perform, in order.
pub enum SynthStep {
    /// Record the user's query as a `user` message (best effort).
    PersistUser { content: String },
    /// Deliver the ranked, truncated result set to the caller.
    EmitResults(Vec<SearchResult>),
    /// Deliver one piece of summary text.
    EmitSummaryChunk(String),
    /// Announce that summary streaming begins.
    EmitSummaryStart,
    /// Deliver a backend error to the caller; the stream stands.
    EmitError(String),
    /// Ask the streaming backend for a completion of this prompt.
    InvokeBackend { prompt: String },
    /// Record the assistant turn with its provenance (best effort).
    PersistAssistant { content: String, sources: String },
    /// Announce completion, carrying the persisted message's id.
    EmitSummaryDone(i64),
}

/// Where a request stands.
pub enum SynthPhase {
    Searching,
    Streaming,
    AwaitingPersist,
    Done,
}

/// The state of one synthesis request.
pub struct Synthesis {
    pub phase: SynthPhase,
    pub query: String,
    pub acc: String,
    pub sources_json: String,
}

// ---------------------------------------------------------------------------
// The fixed texts and formats
// ---------------------------------------------------------------------------

/// The notice that stands in for a summary when retrieval found nothing.
pub open spec fn empty_notice_text() -> Seq<char> {
    "No search results found to summarize."@
}

/// At most fifteen results go into the prompt and the provenance.
pub open spec fn truncate_results_spec(s: Seq<SearchResult>) -> Seq<SearchResult> {
    if s.len() <= 15 {
        s
    } else {
        s.take(15)
    }
}

/// One result's snippet block.
pub open spec fn snippet_of(r: SearchResult) -> Seq<char> {
    seq!['['] + r.engine@ + "] "@ + r.title@ + "\nURL: "@ + r.url@ + "\nSnippet: "@ + r.content@
}

/// All snippet blocks, separated by rules.
pub open spec fn snippets_of(s: Seq<SearchResult>) -> Seq<char>
    decreases s.len(),
{
    if s.len() == 0 {
        Seq::<char>::empty()
    } else if s.len() == 1 {
        snippet_of(s[0])
    } else {
        snippets_of(s.drop_last()) + "\n\n---\n\n"@ + snippet_of(s.last())
    }
}

/// The grounding prompt handed to the backend: the query and the snippets.
pub open spec fn grounding_prompt(q: Seq<char>, rs: Seq<SearchResult>) -> Seq<char> {
    "Based on the following search results, write a clear, concise summary answering my latest prompt: \""@
        + q + "\".\n\nSearch Results:\n"@ + snippets_of(rs)
}

/// One result as a JSON object, fields in declaration order.
pub open spec fn result_obj_text(r: SearchResult) -> Seq<char> {
    "{\"title\":"@ + quoted(r.title@) + ",\"url\":"@ + quoted(r.url@) + ",\"content\":"@ + quoted(
        r.content@,
    ) + ",\"engine\":"@ + quoted(r.engine@) + seq!['}']
}

/// The serialized result set: a JSON array of result objects.
pub open spec fn results_json_text(s: Seq<SearchResult>) -> Seq<char> {
    seq!['['] + results_json_items(s) + seq![']']
}

/// The array's elements, comma-separated.
pub open spec fn results_json_items(s: Seq<SearchResult>) -> Seq<char>
    decreases s.len(),
{
    if s.len() == 0 {
        Seq::<char>::empty()
    } else if s.len() == 1 {
        result_obj_text(s[0])
    } else {
        results_json_items(s.drop_last()) + seq![','] + result_obj_text(s.last())
    }
}

// ---------------------------------------------------------------------------
// Builders
// ---------------------------------------------------------------------------

/// Appends one result's JSON object.
fn push_result_obj(out: &mut Vec<char>, r: &SearchResult)
    ensures
        final(out)@ == old(out)@ + result_obj_text(*r),
{
    crate::text::append_str(out, "{\"title\":");
    let t = crate::text::string_to_chars(&r.title);
    crate::json::push_quoted(out, &t);
    crate::text::append_str(out, ",\"url\":");
    let u = crate::text::string_to_chars(&r.url);
    crate::json::push_quoted(out, &u);
    crate::text::append_str(out, ",\"content\":");
    let c = crate::text::string_to_chars(&r.content);
    crate::json::push_quoted(out, &c);
    crate::text::append_str(out, ",\"engine\":");
    let e = crate::text::string_to_chars(&r.engine);
    crate::json::push_quoted(out, &e);
    out.push('}');
    proof {
        assert(out@ =~= old(out)@ + result_obj_text(*r));
    }
}

/// Serializes a result set as the provenance attached to an assistant turn.
pub fn results_to_json(rs: &Vec<SearchResult>) -> (r: String)
    ensures
        r@ == results_json_text(rs@),
{
    let n = rs.len();
    let mut out: Vec<char> = Vec::new();
    out.push('[');
    proof {
        assert(rs@.take(0) =~= Seq::<SearchResult>::empty());
        assert(out@ =~= seq!['['] + results_json_items(rs@.take(0)));
    }
    let mut k: usize = 0;
    while k < n
        invariant
            k <= n,
            n == rs@.len(),
            out@ == seq!['['] + results_json_items(rs@.take(k as int)),
        decreases n - k,
    {
        proof {
            assert(rs@.take(k + 1).drop_last() =~= rs@.take(k as int));
            assert(rs@.take(k + 1).last() == rs@[k as int]);
            assert(rs@.take(k + 1)[0] == rs@[0]);
        }
        if k > 0 {
            out.push(',');
        }
        push_result_obj(&mut out, &rs[k]);
        proof {
            assert(out@ =~= seq!['['] + results_json_items(rs@.take(k + 1)));
        }
        k += 1;
    }
    out.push(']');
    proof {
        assert(rs@.take(n as int) =~= rs@);
        assert(out@ =~= results_json_text(rs@));
    }
    crate::text::chars_to_string(&out)
}

/// Formats the snippet block of a result set.
pub fn build_snippets(rs: &Vec<SearchResult>) -> (r: String)
    ensures
        r@ == snippets_of(rs@),
{
    let n = rs.len();
    let mut out: Vec<char> = Vec::new();
    proof {
        assert(rs@.take(0) =~= Seq::<SearchResult>::empty());
        assert(out@ =~= snippets_of(rs@.take(0)));
    }
    let mut k: usize = 0;
    while k < n
        invariant
            k <= n,
            n == rs@.len(),
            out@ == snippets_of(rs@.take(k as int)),
        decreases n - k,
    {
        proof {
            assert(rs@.take(k + 1).drop_last() =~= rs@.take(k as int));
            assert(rs@.take(k + 1).last() == rs@[k as int]);
            assert(rs@.take(k + 1)[0] == rs@[0]);
        }
        if k > 0 {
            crate::text::append_str(&mut out, "\n\n---\n\n");
        }
        out.push('[');
        let e = crate::text::string_to_chars(&rs[k].engine);
        crate::text::append_chars(&mut out, &e);
        crate::text::append_str(&mut out, "] ");
        let t = crate::text::string_to_chars(&rs[k].title);
        crate::text::append_chars(&mut out, &t);
        crate::text::append_str(&mut out, "\nURL: ");
        let u = crate::text::string_to_chars(&rs[k].url);
        crate::text::append_chars(&mut out, &u);
        crate::text::append_str(&mut out, "\nSnippet: ");
        let c = crate::text::string_to_chars(&rs[k].content);
        crate::text::append_chars(&mut out, &c);
        proof {
            assert(out@ =~= snippets_of(rs@.take(k + 1)));
        }
        k += 1;
    }
    proof {
        assert(rs@.take(n as int) =~= rs@);
    }
    crate::text::chars_to_string(&out)
}

/// Composes the grounding prompt for a query and its results.
pub fn build_prompt(query: &str, rs: &Vec<SearchResult>) -> (r: String)
    ensures
        r@ == grounding_prompt(query@, rs@),
{
    let snippets = build_snippets(rs);
    let snippet_chars = crate::text::string_to_chars(&snippets);
    let mut out: Vec<char> = Vec::new();
    crate::text::append_str(
        &mut out,
        "Based on the following search results, write a clear, concise summary answering my latest prompt: \"",
    );
    crate::text::append_str(&mut out, query);
    crate::text::append_str(&mut out, "\".\n\nSearch Results:\n");
    crate::text::append_chars(&mut out, &snippet_chars);
    proof {
        assert(out@ =~= grounding_prompt(query@, rs@));
    }
    crate::text::chars_to_string(&out)
}

// ---------------------------------------------------------------------------
// The state machine
// ---------------------------------------------------------------------------

impl Synthesis {
    /// Opens a request: the query is recorded as a `user` turn first, best
    /// effort — a failed write degrades the flow, it does not stop it.
    pub fn begin(query: String) -> (r: (Synthesis, Vec<SynthStep>))
        ensures
            r.0.phase is Searching,
            r.0.query@ == query@,
            r.0.acc@ == Seq::<char>::empty(),
            r.1@.len() == 1,
            (r.1@[0] matches SynthStep::PersistUser { content } && content@ == query@),
    {
        let content = query.clone();
        let s = Synthesis {
            phase: SynthPhase::Searching,
            query,
            acc: String::new(),
            sources_json: String::new(),
        };
        let mut steps: Vec<SynthStep> = Vec::new();
        steps.push(SynthStep::PersistUser { content });
        (s, steps)
    }

    /// Takes the merged, ranked results: truncates to fifteen, emits them,
    /// and either closes the empty path — exactly one summary chunk with the
    /// fixed notice, an assistant turn persisted with empty provenance, and
    /// the backend never invoked — or starts streaming with the grounding
    /// prompt.
    pub fn on_search_results(&mut self, merged: Vec<SearchResult>) -> (steps: Vec<SynthStep>)
        requires
            old(self).phase is Searching,
        ensures
            final(self).query@ == old(self).query@,
            final(self).sources_json@ == results_json_text(truncate_results_spec(merged@)),
            final(self).acc@ == old(self).acc@,
            steps@.len() >= 1,
            (steps@[0] matches SynthStep::EmitResults(rs) && rs@ == truncate_results_spec(
                merged@,
            )),
            truncate_results_spec(merged@).len() == 0 ==> {
                &&& final(self).phase is Done
                &&& steps@.len() == 3
                &&& (steps@[1] matches SynthStep::EmitSummaryChunk(t) && t@ == empty_notice_text())
                &&& (steps@[2] matches SynthStep::PersistAssistant { content, sources }
                    && content@ == empty_notice_text() && sources@ == "[]"@)
                &&& forall|i: int| 0 <= i < steps@.len() ==> !(#[trigger] steps@[i] is InvokeBackend)
            },
            truncate_results_spec(merged@).len() > 0 ==> {
                &&& final(self).phase is Streaming
                &&& steps@.len() == 3
                &&& steps@[1] is EmitSummaryStart
                &&& (steps@[2] matches SynthStep::InvokeBackend { prompt } && prompt@
                    == grounding_prompt(old(self).query@, truncate_results_spec(merged@)))
            },
    {
        let mut results = merged;
        if results.len() > 15 {
            results.truncate(15);
        }
        proof {
            assert(results@ == truncate_results_spec(results@));
        }
        let sources = results_to_json(&results);
        self.sources_json = sources;
        let mut steps: Vec<SynthStep> = Vec::new();
        if results.len() == 0 {
            steps.push(SynthStep::EmitResults(results));
            steps.push(SynthStep::EmitSummaryChunk(String::from_str(
                "No search results found to summarize.",
            )));
            let mut empty_sources: Vec<char> = Vec::new();
            empty_sources.push('[');
            empty_sources.push(']');
            proof {
                reveal_strlit("[]");
                assert(empty_sources@ =~= "[]"@);
            }
            steps.push(SynthStep::PersistAssistant {
                content: String::from_str("No search results found to summarize."),
                sources: crate::text::chars_to_string(&empty_sources),
            });
            self.phase = SynthPhase::Done;
            steps
        } else {
            let prompt = build_prompt(self.query.as_str(), &results);
            steps.push(SynthStep::EmitResults(results));
            steps.push(SynthStep::EmitSummaryStart);
            steps.push(SynthStep::InvokeBackend { prompt });
            self.phase = SynthPhase::Streaming;
            steps
        }
    }

    /// Takes one backend chunk: text is forwarded and accumulated, a fault
    /// becomes an error event and stops nothing.
    pub fn on_chunk(&mut self, chunk: LlmChunk) -> (steps: Vec<SynthStep>)
        requires
            old(self).phase is Streaming,
        ensures
            final(self).phase is Streaming,
            final(self).query@ == old(self).query@,
            final(self).sources_json@ == old(self).sources_json@,
            steps@.len() == 1,
            (chunk matches LlmChunk::Text(t) ==> final(self).acc@ == old(self).acc@ + t@ && (
            steps@[0] matches SynthStep::EmitSummaryChunk(c) && c@ == t@)),
            (chunk matches LlmChunk::Fault(m) ==> final(self).acc@ == old(self).acc@ && (
            steps@[0] matches SynthStep::EmitError(e) && e@ == m@)),
    {
        let mut steps: Vec<SynthStep> = Vec::new();
        match chunk {
            LlmChunk::Text(t) => {
                let piece = t.clone();
                self.acc.append(t.as_str());
                steps.push(SynthStep::EmitSummaryChunk(piece));
            },
            LlmChunk::Fault(m) => {
                steps.push(SynthStep::EmitError(m));
            },
        }
        steps
    }

    /// The backend stream is drained (fully or after a fault): the
    /// accumulated text is persisted as the assistant turn, with the full
    /// serialized result set as provenance.
    pub fn on_stream_end(&mut self) -> (steps: Vec<SynthStep>)
        requires
            old(self).phase is Streaming,
        ensures
            final(self).phase is AwaitingPersist,
            final(self).acc@ == old(self).acc@,
            final(self).query@ == old(self).query@,
            final(self).sources_json@ == old(self).sources_json@,
            steps@.len() == 1,
            (steps@[0] matches SynthStep::PersistAssistant { content, sources } && content@ == old(
                self,
            ).acc@ && sources@ == old(self).sources_json@),
    {
        self.phase = SynthPhase::AwaitingPersist;
        let content = self.acc.clone();
        let sources = self.sources_json.clone();
        let mut steps: Vec<SynthStep> = Vec::new();
        steps.push(SynthStep::PersistAssistant { content, sources });
        steps
    }

    /// The assistant turn is persisted (its id, or zero when the write
    /// failed): completion is announced and the request is done.
    pub fn on_persisted(&mut self, message_id: i64) -> (steps: Vec<SynthStep>)
        requires
            old(self).phase is AwaitingPersist,
        ensures
            final(self).phase is Done,
            steps@.len() == 1,
            steps@[0] == SynthStep::EmitSummaryDone(message_id),
    {
        self.phase = SynthPhase::Done;
        let mut steps: Vec<SynthStep> = Vec::new();
        steps.push(SynthStep::EmitSummaryDone(message_id));
        steps
    }
}

} // verus!
