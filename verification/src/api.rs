//! The plain value types of the service boundary, and the store-side rules.
//!
//! The HTTP routes, their marshaling and the conversation store's SQL live
//! in the surrounding application; these are the values they exchange, with
//! the few rules the core imposes on them: the trailing user turn is dropped
//! from loaded history (the live query is supplied separately), a provider
//! selection filters the enabled providers, a conversation gets a default
//! title, and a saved archive file always carries the database suffix.

use vstd::prelude::*;
use crate::llm::Message;
use crate::search::ProviderConfig;
use crate::text::{ends_with_seq, ends_with_chars};

verus! {

/// One conversation, as listed to the caller.
pub struct Conversation {
    pub id: i64,
    pub title: String,
    pub created_at: String,
}

/// A request to open a conversation, with an optional title.
pub struct CreateConv {
    pub title: Option<String>,
}

/// A request to save a conversation's note.
pub struct NoteReq {
    pub content: String,
}

/// A request to add a generic provider.
pub struct AddProviderReq {
    pub name: String,
    pub api_url: String,
    pub api_headers: String,
    pub result_path: String,
    pub title_path: String,
    pub url_path: String,
    pub content_path: String,
}

/// A request naming an archive file.
pub struct FileReq {
    pub filename: String,
}

/// One synthesis request: the query, an optional recency timeframe, an
/// optional provider selection, and the backend, model and system prompt to
/// summarize with.
pub struct QueryRequest {
    pub query: String,
    pub timeframe: Option<String>,
    pub providers: Option<Vec<i64>>,
    pub provider: String,
    pub model: String,
    pub system_prompt: String,
}

// ---------------------------------------------------------------------------
// History loading
// ---------------------------------------------------------------------------

/// Loaded history without a trailing `user` entry: the live query is the
/// active prompt and must not appear twice. When persistence of the user
/// turn and the history load race, the heuristic can drop a genuine earlier
/// user message; that limitation is kept as designed.
pub open spec fn trim_history_spec(ms: Seq<Message>) -> Seq<Message> {
    if ms.len() > 0 && ms.last().role@ == "user"@ {
        ms.drop_last()
    } else {
        ms
    }
}

/// Drops a trailing `user` entry from loaded history.
pub fn trim_history(history: Vec<Message>) -> (out: Vec<Message>)
    ensures
        out@ == trim_history_spec(history@),
{
    let n = history.len();
    if n == 0 {
        return history;
    }
    let role = crate::text::string_to_chars(&history[n - 1].role);
    if crate::text::chars_eq_str(&role, "user") {
        let mut out = history;
        out.pop();
        out
    } else {
        history
    }
}

// ---------------------------------------------------------------------------
// Provider selection
// ---------------------------------------------------------------------------

/// The enabled providers a retrieval uses: all of them, or only those whose
/// id the request selected.
pub open spec fn filter_providers_spec(ps: Seq<ProviderConfig>, ids: Option<Seq<i64>>) -> Seq<
    ProviderConfig,
>
    decreases ps.len(),
{
    match ids {
        None => ps,
        Some(sel) => if ps.len() == 0 {
            Seq::<ProviderConfig>::empty()
        } else {
            let pre = filter_providers_spec(ps.drop_last(), Some(sel));
            if sel.contains(ps.last().id) {
                pre.push(ps.last())
            } else {
                pre
            }
        },
    }
}

/// Scans a selection for an id.
fn id_selected(sel: &Vec<i64>, id: i64) -> (b: bool)
    ensures
        b == sel@.contains(id),
{
    let n = sel.len();
    let mut k: usize = 0;
    while k < n
        invariant
            k <= n,
            n == sel@.len(),
            forall|j: int| 0 <= j < k ==> sel@[j] != id,
        decreases n - k,
    {
        if sel[k] == id {
            return true;
        }
        k += 1;
    }
    false
}

/// Keeps the providers the request selected, all of them when it selected
/// none.
pub fn filter_providers(providers: Vec<ProviderConfig>, ids: Option<&Vec<i64>>) -> (out: Vec<
    ProviderConfig,
>)
    ensures
        out@ == filter_providers_spec(providers@, match ids {
            Some(sel) => Some(sel@),
            None => None,
        }),
{
    let sel = match ids {
        Some(sel) => sel,
        None => {
            return providers;
        },
    };
    filter_loop(providers, sel)
}

fn filter_loop(providers: Vec<ProviderConfig>, sel: &Vec<i64>) -> (out: Vec<ProviderConfig>)
    ensures
        out@ == filter_providers_spec(providers@, Some(sel@)),
{
    let n = providers.len();
    let mut out: Vec<ProviderConfig> = Vec::new();
    proof {
        assert(providers@.take(0) =~= Seq::<ProviderConfig>::empty());
        assert(out@ =~= filter_providers_spec(providers@.take(0), Some(sel@)));
    }
    let mut k: usize = 0;
    while k < n
        invariant
            k <= n,
            n == providers@.len(),
            out@ == filter_providers_spec(providers@.take(k as int), Some(sel@)),
        decreases n - k,
    {
        proof {
            assert(providers@.take(k + 1).drop_last() =~= providers@.take(k as int));
            assert(providers@.take(k + 1).last() == providers@[k as int]);
        }
        if id_selected(sel, providers[k].id) {
            let p = clone_provider(&providers[k]);
            out.push(p);
        }
        k += 1;
    }
    proof {
        assert(providers@.take(n as int) =~= providers@);
    }
    out
}

/// Copies a provider configuration.
pub fn clone_provider(c: &ProviderConfig) -> (r: ProviderConfig)
    ensures
        r == *c,
{
    ProviderConfig {
        id: c.id,
        name: c.name.clone(),
        type_: c.type_.clone(),
        api_url: clone_opt(&c.api_url),
        api_headers: clone_opt(&c.api_headers),
        result_path: clone_opt(&c.result_path),
        title_path: clone_opt(&c.title_path),
        url_path: clone_opt(&c.url_path),
        content_path: clone_opt(&c.content_path),
        is_enabled: c.is_enabled,
    }
}

fn clone_opt(o: &Option<String>) -> (r: Option<String>)
    ensures
        r == *o,
{
    match o {
        Some(s) => Some(s.clone()),
        None => None,
    }
}

// ---------------------------------------------------------------------------
// Small boundary rules
// ---------------------------------------------------------------------------

/// The default title of a conversation opened without one.
pub open spec fn conv_title_spec(req: CreateConv) -> Seq<char> {
    match req.title {
        Some(t) => t@,
        None => "New Chat"@,
    }
}

/// The title a new conversation gets.
pub fn conv_title_or_default(req: CreateConv) -> (r: String)
    ensures
        r@ == conv_title_spec(req),
{
    match req.title {
        Some(t) => t,
        None => String::from_str("New Chat"),
    }
}

/// A saved archive file always carries the database suffix.
pub open spec fn db_filename_spec(f: Seq<char>) -> Seq<char> {
    if ends_with_seq(f, ".db"@) {
        f
    } else {
        f + ".db"@
    }
}

/// Appends the database suffix to a filename that lacks it.
pub fn ensure_db_suffix(filename: &str) -> (r: String)
    ensures
        r@ == db_filename_spec(filename@),
{
    let f = crate::text::str_to_chars(filename);
    let suffix = crate::text::str_to_chars(".db");
    if ends_with_chars(&f, &suffix) {
        return String::from_str(filename);
    }
    let mut out = f;
    crate::text::append_chars(&mut out, &suffix);
    crate::text::chars_to_string(&out)
}

} // verus!
