//! The built-in search engine integrations: request URLs and response
//! shaping.
//!
//! Each native adapter requests one URL built from the query (and for some,
//! the recency timeframe), and shapes what came back into plain results. The
//! HTTP transport lives in the surrounding application, as does the HTML
//! scraping of the engines that answer with a results page — the selectors
//! are swappable parsers outside this crate's scope. The JSON-answering
//! engines are shaped here in full.

use vstd::prelude::*;
use crate::json::{JsonValue, field_of, item_of, str_of, str_or_empty, arr_of, json_text};
use crate::text::{url_encoded_of, replace_all};
use crate::search::{SearchResult, SearchResultView};

verus! {

// ---------------------------------------------------------------------------
// Request URLs
// ---------------------------------------------------------------------------

/// The recency filter of the primary web engine: `d`, `w` or `m` appended
/// for the known timeframes, nothing otherwise.
pub open spec fn ddg_recency(tf: Option<Seq<char>>) -> Seq<char> {
    match tf {
        Some(t) => if t == "day"@ {
            "&df=d"@
        } else if t == "week"@ {
            "&df=w"@
        } else if t == "month"@ {
            "&df=m"@
        } else {
            Seq::<char>::empty()
        },
        None => Seq::<char>::empty(),
    }
}

/// The primary web engine's results-page URL.
pub open spec fn ddg_url_spec(q: Seq<char>, tf: Option<Seq<char>>) -> Seq<char> {
    "https://duckduckgo.com/html/?q="@ + url_encoded_of(q) + "&kp=1"@ + ddg_recency(tf)
}

/// Builds the primary web engine's URL, mapping the timeframe to its recency
/// filter and ignoring unrecognized values.
pub fn ddg_url(query: &str, timeframe: Option<&String>) -> (r: String)
    ensures
        r@ == ddg_url_spec(query@, match timeframe {
            Some(t) => Some(t@),
            None => None,
        }),
{
    let mut u: Vec<char> = Vec::new();
    crate::text::append_str(&mut u, "https://duckduckgo.com/html/?q=");
    let enc = crate::text::url_encode(query);
    crate::text::append_str(&mut u, enc.as_str());
    crate::text::append_str(&mut u, "&kp=1");
    match timeframe {
        Some(t) => {
            let tc = crate::text::string_to_chars(t);
            if crate::text::chars_eq_str(&tc, "day") {
                crate::text::append_str(&mut u, "&df=d");
            } else if crate::text::chars_eq_str(&tc, "week") {
                crate::text::append_str(&mut u, "&df=w");
            } else if crate::text::chars_eq_str(&tc, "month") {
                crate::text::append_str(&mut u, "&df=m");
            }
        },
        None => {
        },
    }
    proof {
        assert(u@ =~= ddg_url_spec(query@, match timeframe {
            Some(t) => Some(t@),
            None => None::<Seq<char>>,
        }));
    }
    crate::text::chars_to_string(&u)
}

/// The secondary web engine's URL.
pub open spec fn qwant_url_spec(q: Seq<char>) -> Seq<char> {
    "https://www.qwant.com/?q="@ + url_encoded_of(q) + "&t=web"@
}

/// Builds the secondary web engine's URL.
pub fn qwant_url(query: &str) -> (r: String)
    ensures
        r@ == qwant_url_spec(query@),
{
    let mut u: Vec<char> = Vec::new();
    crate::text::append_str(&mut u, "https://www.qwant.com/?q=");
    let enc = crate::text::url_encode(query);
    crate::text::append_str(&mut u, enc.as_str());
    crate::text::append_str(&mut u, "&t=web");
    proof {
        assert(u@ =~= qwant_url_spec(query@));
    }
    crate::text::chars_to_string(&u)
}

/// The alternate web engine's URL.
pub open spec fn mojeek_url_spec(q: Seq<char>) -> Seq<char> {
    "https://www.mojeek.com/search?q="@ + url_encoded_of(q)
}

/// Builds the alternate web engine's URL.
pub fn mojeek_url(query: &str) -> (r: String)
    ensures
        r@ == mojeek_url_spec(query@),
{
    let mut u: Vec<char> = Vec::new();
    crate::text::append_str(&mut u, "https://www.mojeek.com/search?q=");
    let enc = crate::text::url_encode(query);
    crate::text::append_str(&mut u, enc.as_str());
    proof {
        assert(u@ =~= mojeek_url_spec(query@));
    }
    crate::text::chars_to_string(&u)
}

/// The encyclopedia search API URL.
pub open spec fn wikipedia_url_spec(q: Seq<char>) -> Seq<char> {
    "https://en.wikipedia.org/w/api.php?action=query&list=search&utf8=1&format=json&srsearch="@
        + url_encoded_of(q)
}

/// Builds the encyclopedia search URL.
pub fn wikipedia_url(query: &str) -> (r: String)
    ensures
        r@ == wikipedia_url_spec(query@),
{
    let mut u: Vec<char> = Vec::new();
    crate::text::append_str(
        &mut u,
        "https://en.wikipedia.org/w/api.php?action=query&list=search&utf8=1&format=json&srsearch=",
    );
    let enc = crate::text::url_encode(query);
    crate::text::append_str(&mut u, enc.as_str());
    proof {
        assert(u@ =~= wikipedia_url_spec(query@));
    }
    crate::text::chars_to_string(&u)
}

/// The forum search API URL.
pub open spec fn reddit_url_spec(q: Seq<char>) -> Seq<char> {
    "https://www.reddit.com/search.json?q="@ + url_encoded_of(q) + "&sort=relevance&limit=10"@
}

/// Builds the forum search URL.
pub fn reddit_url(query: &str) -> (r: String)
    ensures
        r@ == reddit_url_spec(query@),
{
    let mut u: Vec<char> = Vec::new();
    crate::text::append_str(&mut u, "https://www.reddit.com/search.json?q=");
    let enc = crate::text::url_encode(query);
    crate::text::append_str(&mut u, enc.as_str());
    crate::text::append_str(&mut u, "&sort=relevance&limit=10");
    proof {
        assert(u@ =~= reddit_url_spec(query@));
    }
    crate::text::chars_to_string(&u)
}

/// The question-and-answer search API URL.
pub open spec fn stackexchange_url_spec(q: Seq<char>) -> Seq<char> {
    "https://api.stackexchange.com/2.3/search/advanced?order=desc&sort=relevance&q="@
        + url_encoded_of(q) + "&site=stackoverflow"@
}

/// Builds the question-and-answer search URL.
pub fn stackexchange_url(query: &str) -> (r: String)
    ensures
        r@ == stackexchange_url_spec(query@),
{
    let mut u: Vec<char> = Vec::new();
    crate::text::append_str(
        &mut u,
        "https://api.stackexchange.com/2.3/search/advanced?order=desc&sort=relevance&q=",
    );
    let enc = crate::text::url_encode(query);
    crate::text::append_str(&mut u, enc.as_str());
    crate::text::append_str(&mut u, "&site=stackoverflow");
    proof {
        assert(u@ =~= stackexchange_url_spec(query@));
    }
    crate::text::chars_to_string(&u)
}

/// The self-hosted aggregator's timeframe filter, for the known values only.
pub open spec fn searxng_recency(tf: Option<Seq<char>>) -> Seq<char> {
    match tf {
        Some(t) => if t == "day"@ || t == "week"@ || t == "month"@ {
            "&time_range="@ + t
        } else {
            Seq::<char>::empty()
        },
        None => Seq::<char>::empty(),
    }
}

/// The self-hosted aggregator's URL under its configured base; no base, no
/// request, zero results.
pub open spec fn searxng_url_spec(base: Seq<char>, q: Seq<char>, tf: Option<Seq<char>>) -> Option<
    Seq<char>,
> {
    if base.len() == 0 {
        None
    } else {
        Some(base + "/search?q="@ + url_encoded_of(q) + "&format=json"@ + searxng_recency(tf))
    }
}

/// Builds the aggregator URL when a base is configured.
pub fn searxng_url(base: &str, query: &str, timeframe: Option<&String>) -> (r: Option<String>)
    ensures
        match r {
            Some(u) => searxng_url_spec(base@, query@, match timeframe {
                Some(t) => Some(t@),
                None => None,
            }) == Some(u@),
            None => searxng_url_spec(base@, query@, match timeframe {
                Some(t) => Some(t@),
                None => None,
            }) is None,
        },
{
    let base_chars = crate::text::str_to_chars(base);
    if base_chars.len() == 0 {
        return None;
    }
    let mut u: Vec<char> = Vec::new();
    crate::text::append_chars(&mut u, &base_chars);
    crate::text::append_str(&mut u, "/search?q=");
    let enc = crate::text::url_encode(query);
    crate::text::append_str(&mut u, enc.as_str());
    crate::text::append_str(&mut u, "&format=json");
    match timeframe {
        Some(t) => {
            let tc = crate::text::string_to_chars(t);
            if crate::text::chars_eq_str(&tc, "day") || crate::text::chars_eq_str(&tc, "week")
                || crate::text::chars_eq_str(&tc, "month") {
                crate::text::append_str(&mut u, "&time_range=");
                crate::text::append_chars(&mut u, &tc);
            }
        },
        None => {
        },
    }
    proof {
        assert(Some(u@) =~~= searxng_url_spec(base@, query@, match timeframe {
            Some(t) => Some(t@),
            None => None::<Seq<char>>,
        }));
    }
    Some(crate::text::chars_to_string(&u))
}

/// The suggestion endpoint's URL; an empty query asks nothing. The query
/// rides along as given.
pub open spec fn suggest_url_spec(q: Seq<char>) -> Option<Seq<char>> {
    if q.len() == 0 {
        None
    } else {
        Some("https://duckduckgo.com/ac/?type=list&q="@ + q)
    }
}

/// Builds the suggestion URL for a non-empty query.
pub fn suggest_url(query: &str) -> (r: Option<String>)
    ensures
        match r {
            Some(u) => suggest_url_spec(query@) == Some(u@),
            None => suggest_url_spec(query@) is None,
        },
{
    if query.unicode_len() == 0 {
        return None;
    }
    let mut u: Vec<char> = Vec::new();
    crate::text::append_str(&mut u, "https://duckduckgo.com/ac/?type=list&q=");
    crate::text::append_str(&mut u, query);
    proof {
        assert(Some(u@) =~~= suggest_url_spec(query@));
    }
    Some(crate::text::chars_to_string(&u))
}


// ---------------------------------------------------------------------------
// Shaping JSON answers
// ---------------------------------------------------------------------------

/// The result one aggregator entry yields.
pub open spec fn searxng_result_of(item: JsonValue) -> SearchResultView {
    SearchResultView {
        title: str_or_empty(field_of(item, "title"@)),
        url: str_or_empty(field_of(item, "url"@)),
        content: str_or_empty(field_of(item, "content"@)),
        engine: "SearXNG"@,
    }
}

/// All aggregator entries, in order.
pub open spec fn searxng_results_of(items: Seq<JsonValue>) -> Seq<SearchResultView>
    decreases items.len(),
{
    if items.len() == 0 {
        Seq::<SearchResultView>::empty()
    } else {
        searxng_results_of(items.drop_last()).push(searxng_result_of(items.last()))
    }
}

/// What the aggregator's answer yields: every entry of `results`.
pub open spec fn searxng_results_spec(body: JsonValue) -> Seq<SearchResultView> {
    match arr_of(field_of(body, "results"@)) {
        Some(items) => searxng_results_of(items),
        None => Seq::<SearchResultView>::empty(),
    }
}

/// Shapes the aggregator's answer.
pub fn searxng_results(body: &JsonValue) -> (out: Vec<SearchResult>)
    ensures
        out.deep_view() == searxng_results_spec(*body),
{
    let field = crate::text::str_to_chars("results");
    let v = crate::json::get_field(body, &field);
    let items = match crate::json::as_array(v) {
        Some(items) => items,
        None => {
            let out: Vec<SearchResult> = Vec::new();
            proof {
                assert(out.deep_view() =~= searxng_results_spec(*body));
            }
            return out;
        },
    };
    let n = items.len();
    let mut out: Vec<SearchResult> = Vec::new();
    proof {
        assert(items@.take(0) =~= Seq::<JsonValue>::empty());
        assert(out.deep_view() =~= searxng_results_of(items@.take(0)));
    }
    let mut k: usize = 0;
    while k < n
        invariant
            k <= n,
            n == items@.len(),
            arr_of(field_of(*body, "results"@)) == Some(items@),
            out.deep_view() == searxng_results_of(items@.take(k as int)),
        decreases n - k,
    {
        proof {
            assert(items@.take(k + 1).drop_last() =~= items@.take(k as int));
            assert(items@.take(k + 1).last() == items@[k as int]);
        }
        let title = field_string(&items[k], "title");
        let url = field_string(&items[k], "url");
        let content = field_string(&items[k], "content");
        let ghost old_out = out;
        out.push(
            SearchResult { title, url, content, engine: String::from_str("SearXNG") },
        );
        proof {
            assert(out.deep_view() =~~= old_out.deep_view().push(
                searxng_result_of(items@[k as int]),
            ));
        }
        k += 1;
    }
    proof {
        assert(items@.take(n as int) =~= items@);
    }
    out
}

/// Reads a field's text, or empty text.
fn field_string(item: &JsonValue, name: &str) -> (r: String)
    ensures
        r@ == str_or_empty(field_of(*item, name@)),
{
    let n = crate::text::str_to_chars(name);
    let v = crate::json::get_field(item, &n);
    let chars = crate::json::str_or_empty_chars(v);
    crate::text::chars_to_string(&chars)
}

/// The markup stripped from encyclopedia snippets.
pub open spec fn strip_highlight(s: Seq<char>) -> Seq<char> {
    replace_all(replace_all(s, "<span class=\"searchmatch\">"@, Seq::<char>::empty()), "</span>"@, Seq::<char>::empty())
}

/// The result one encyclopedia entry yields: the article URL is derived from
/// the title with spaces as underscores, and highlight markup is stripped
/// from the snippet.
pub open spec fn wikipedia_result_of(item: JsonValue) -> SearchResultView {
    SearchResultView {
        title: str_or_empty(field_of(item, "title"@)),
        url: "https://en.wikipedia.org/wiki/"@ + replace_all(
            str_or_empty(field_of(item, "title"@)),
            seq![' '],
            seq!['_'],
        ),
        content: strip_highlight(str_or_empty(field_of(item, "snippet"@))),
        engine: "Wikipedia"@,
    }
}

/// All encyclopedia entries, in order.
pub open spec fn wikipedia_results_of(items: Seq<JsonValue>) -> Seq<SearchResultView>
    decreases items.len(),
{
    if items.len() == 0 {
        Seq::<SearchResultView>::empty()
    } else {
        wikipedia_results_of(items.drop_last()).push(wikipedia_result_of(items.last()))
    }
}

/// What the encyclopedia's answer yields: every entry of `query.search`.
pub open spec fn wikipedia_results_spec(body: JsonValue) -> Seq<SearchResultView> {
    match arr_of(field_of(field_of(body, "query"@), "search"@)) {
        Some(items) => wikipedia_results_of(items),
        None => Seq::<SearchResultView>::empty(),
    }
}

/// Shapes the encyclopedia's answer.
pub fn wikipedia_results(body: &JsonValue) -> (out: Vec<SearchResult>)
    ensures
        out.deep_view() == wikipedia_results_spec(*body),
{
    let query_name = crate::text::str_to_chars("query");
    let search_name = crate::text::str_to_chars("search");
    let q = crate::json::get_field(body, &query_name);
    let v = crate::json::get_field(q, &search_name);
    let items = match crate::json::as_array(v) {
        Some(items) => items,
        None => {
            let out: Vec<SearchResult> = Vec::new();
            proof {
                assert(out.deep_view() =~= wikipedia_results_spec(*body));
            }
            return out;
        },
    };
    let space: Vec<char> = vec!['\u{0020}'];
    let under: Vec<char> = vec!['_'];
    let span_open = crate::text::str_to_chars("<span class=\"searchmatch\">");
    let span_close = crate::text::str_to_chars("</span>");
    let nothing: Vec<char> = Vec::new();
    proof {
        reveal_strlit("<span class=\"searchmatch\">");
        reveal_strlit("</span>");
        assert(space@ =~= seq![' ']);
        assert(under@ =~= seq!['_']);
        assert(nothing@ =~= Seq::<char>::empty());
    }
    let n = items.len();
    let mut out: Vec<SearchResult> = Vec::new();
    proof {
        assert(items@.take(0) =~= Seq::<JsonValue>::empty());
        assert(out.deep_view() =~= wikipedia_results_of(items@.take(0)));
    }
    let mut k: usize = 0;
    while k < n
        invariant
            k <= n,
            n == items@.len(),
            space@ == seq![' '],
            under@ == seq!['_'],
            span_open@ == "<span class=\"searchmatch\">"@,
            span_open@.len() > 0,
            span_close@ == "</span>"@,
            span_close@.len() > 0,
            nothing@ == Seq::<char>::empty(),
            arr_of(field_of(field_of(*body, "query"@), "search"@)) == Some(items@),
            out.deep_view() == wikipedia_results_of(items@.take(k as int)),
        decreases n - k,
    {
        proof {
            assert(items@.take(k + 1).drop_last() =~= items@.take(k as int));
            assert(items@.take(k + 1).last() == items@[k as int]);
        }
        let title = field_string(&items[k], "title");
        let title_chars = crate::text::string_to_chars(&title);
        let underscored = crate::text::replace_chars(&title_chars, &space, &under);
        let mut u: Vec<char> = Vec::new();
        crate::text::append_str(&mut u, "https://en.wikipedia.org/wiki/");
        crate::text::append_chars(&mut u, &underscored);
        let snippet = field_string(&items[k], "snippet");
        let snippet_chars = crate::text::string_to_chars(&snippet);
        let no_open = crate::text::replace_chars(&snippet_chars, &span_open, &nothing);
        let cleaned = crate::text::replace_chars(&no_open, &span_close, &nothing);
        let ghost old_out = out;
        out.push(
            SearchResult {
                title,
                url: crate::text::chars_to_string(&u),
                content: crate::text::chars_to_string(&cleaned),
                engine: String::from_str("Wikipedia"),
            },
        );
        proof {
            assert(out.deep_view() =~~= old_out.deep_view().push(
                wikipedia_result_of(items@[k as int]),
            ));
        }
        k += 1;
    }
    proof {
        assert(items@.take(n as int) =~= items@);
    }
    out
}

/// The result one forum entry yields: the permalink under the site's host,
/// the post body cut to two hundred characters.
pub open spec fn reddit_result_of(item: JsonValue) -> SearchResultView {
    SearchResultView {
        title: str_or_empty(field_of(field_of(item, "data"@), "title"@)),
        url: "https://www.reddit.com"@ + str_or_empty(field_of(field_of(item, "data"@), "permalink"@)),
        content: str_or_empty(field_of(field_of(item, "data"@), "selftext"@)).take(
            if str_or_empty(field_of(field_of(item, "data"@), "selftext"@)).len() <= 200 {
                str_or_empty(field_of(field_of(item, "data"@), "selftext"@)).len() as int
            } else {
                200
            },
        ),
        engine: "Reddit"@,
    }
}

/// All forum entries, in order.
pub open spec fn reddit_results_of(items: Seq<JsonValue>) -> Seq<SearchResultView>
    decreases items.len(),
{
    if items.len() == 0 {
        Seq::<SearchResultView>::empty()
    } else {
        reddit_results_of(items.drop_last()).push(reddit_result_of(items.last()))
    }
}

/// What the forum's answer yields: every entry of `data.children`.
pub open spec fn reddit_results_spec(body: JsonValue) -> Seq<SearchResultView> {
    match arr_of(field_of(field_of(body, "data"@), "children"@)) {
        Some(items) => reddit_results_of(items),
        None => Seq::<SearchResultView>::empty(),
    }
}

/// Shapes the forum's answer.
pub fn reddit_results(body: &JsonValue) -> (out: Vec<SearchResult>)
    ensures
        out.deep_view() == reddit_results_spec(*body),
{
    let data_name = crate::text::str_to_chars("data");
    let children_name = crate::text::str_to_chars("children");
    let d = crate::json::get_field(body, &data_name);
    let v = crate::json::get_field(d, &children_name);
    let items = match crate::json::as_array(v) {
        Some(items) => items,
        None => {
            let out: Vec<SearchResult> = Vec::new();
            proof {
                assert(out.deep_view() =~= reddit_results_spec(*body));
            }
            return out;
        },
    };
    let n = items.len();
    let mut out: Vec<SearchResult> = Vec::new();
    proof {
        assert(items@.take(0) =~= Seq::<JsonValue>::empty());
        assert(out.deep_view() =~= reddit_results_of(items@.take(0)));
    }
    let mut k: usize = 0;
    while k < n
        invariant
            k <= n,
            n == items@.len(),
            arr_of(field_of(field_of(*body, "data"@), "children"@)) == Some(items@),
            out.deep_view() == reddit_results_of(items@.take(k as int)),
        decreases n - k,
    {
        proof {
            assert(items@.take(k + 1).drop_last() =~= items@.take(k as int));
            assert(items@.take(k + 1).last() == items@[k as int]);
        }
        let inner_name = crate::text::str_to_chars("data");
        let inner = crate::json::get_field(&items[k], &inner_name);
        let title = field_string(inner, "title");
        let permalink = field_string(inner, "permalink");
        let mut u: Vec<char> = Vec::new();
        crate::text::append_str(&mut u, "https://www.reddit.com");
        crate::text::append_str(&mut u, permalink.as_str());
        let selftext = field_string(inner, "selftext");
        let selftext_chars = crate::text::string_to_chars(&selftext);
        let cut = crate::text::take_chars(&selftext_chars, 200);
        let ghost old_out = out;
        out.push(
            SearchResult {
                title,
                url: crate::text::chars_to_string(&u),
                content: crate::text::chars_to_string(&cut),
                engine: String::from_str("Reddit"),
            },
        );
        proof {
            assert(out.deep_view() =~~= old_out.deep_view().push(
                reddit_result_of(items@[k as int]),
            ));
        }
        k += 1;
    }
    proof {
        assert(items@.take(n as int) =~= items@);
    }
    out
}

/// The result one question-and-answer entry yields: its numeric score is
/// surfaced as the display content, printed as the JSON text of the field.
pub open spec fn stackexchange_result_of(item: JsonValue) -> SearchResultView {
    SearchResultView {
        title: str_or_empty(field_of(item, "title"@)),
        url: str_or_empty(field_of(item, "link"@)),
        content: "Score: "@ + json_text(field_of(item, "score"@)),
        engine: "StackOverflow"@,
    }
}

/// All question-and-answer entries, in order.
pub open spec fn stackexchange_results_of(items: Seq<JsonValue>) -> Seq<SearchResultView>
    decreases items.len(),
{
    if items.len() == 0 {
        Seq::<SearchResultView>::empty()
    } else {
        stackexchange_results_of(items.drop_last()).push(stackexchange_result_of(items.last()))
    }
}

/// What the question-and-answer site's answer yields: every entry of
/// `items`.
pub open spec fn stackexchange_results_spec(body: JsonValue) -> Seq<SearchResultView> {
    match arr_of(field_of(body, "items"@)) {
        Some(items) => stackexchange_results_of(items),
        None => Seq::<SearchResultView>::empty(),
    }
}

/// Shapes the question-and-answer site's answer.
pub fn stackexchange_results(body: &JsonValue) -> (out: Vec<SearchResult>)
    ensures
        out.deep_view() == stackexchange_results_spec(*body),
{
    let field = crate::text::str_to_chars("items");
    let v = crate::json::get_field(body, &field);
    let items = match crate::json::as_array(v) {
        Some(items) => items,
        None => {
            let out: Vec<SearchResult> = Vec::new();
            proof {
                assert(out.deep_view() =~= stackexchange_results_spec(*body));
            }
            return out;
        },
    };
    let n = items.len();
    let mut out: Vec<SearchResult> = Vec::new();
    proof {
        assert(items@.take(0) =~= Seq::<JsonValue>::empty());
        assert(out.deep_view() =~= stackexchange_results_of(items@.take(0)));
    }
    let mut k: usize = 0;
    while k < n
        invariant
            k <= n,
            n == items@.len(),
            arr_of(field_of(*body, "items"@)) == Some(items@),
            out.deep_view() == stackexchange_results_of(items@.take(k as int)),
        decreases n - k,
    {
        proof {
            assert(items@.take(k + 1).drop_last() =~= items@.take(k as int));
            assert(items@.take(k + 1).last() == items@[k as int]);
        }
        let title = field_string(&items[k], "title");
        let url = field_string(&items[k], "link");
        let score_name = crate::text::str_to_chars("score");
        let score = crate::json::get_field(&items[k], &score_name);
        let score_text = crate::json::write_json(score);
        let mut c: Vec<char> = Vec::new();
        crate::text::append_str(&mut c, "Score: ");
        crate::text::append_chars(&mut c, &score_text);
        let ghost old_out = out;
        out.push(
            SearchResult {
                title,
                url,
                content: crate::text::chars_to_string(&c),
                engine: String::from_str("StackOverflow"),
            },
        );
        proof {
            assert(out.deep_view() =~~= old_out.deep_view().push(
                stackexchange_result_of(items@[k as int]),
            ));
        }
        k += 1;
    }
    proof {
        assert(items@.take(n as int) =~= items@);
    }
    out
}

/// The suggestions an answer carries: the text entries of the array at
/// index one.
pub open spec fn suggestions_of(items: Seq<JsonValue>) -> Seq<Seq<char>>
    decreases items.len(),
{
    if items.len() == 0 {
        Seq::<Seq<char>>::empty()
    } else {
        let pre = suggestions_of(items.drop_last());
        match str_of(items.last()) {
            Some(t) => pre.push(t),
            None => pre,
        }
    }
}

/// What the suggestion answer yields.
pub open spec fn suggestions_spec(body: JsonValue) -> Seq<Seq<char>> {
    match arr_of(item_of(body, 1)) {
        Some(items) => suggestions_of(items),
        None => Seq::<Seq<char>>::empty(),
    }
}

/// Shapes a suggestion answer: the text entries of its second element.
pub fn suggestions_from(body: &JsonValue) -> (out: Vec<String>)
    ensures
        out.deep_view() == suggestions_spec(*body),
{
    let second = crate::json::get_item(body, 1);
    let items = match crate::json::as_array(second) {
        Some(items) => items,
        None => {
            let out: Vec<String> = Vec::new();
            proof {
                assert(out.deep_view() =~= suggestions_spec(*body));
            }
            return out;
        },
    };
    let n = items.len();
    let mut out: Vec<String> = Vec::new();
    proof {
        assert(items@.take(0) =~= Seq::<JsonValue>::empty());
        assert(out.deep_view() =~= suggestions_of(items@.take(0)));
    }
    let mut k: usize = 0;
    while k < n
        invariant
            k <= n,
            n == items@.len(),
            arr_of(item_of(*body, 1)) == Some(items@),
            out.deep_view() == suggestions_of(items@.take(k as int)),
        decreases n - k,
    {
        proof {
            assert(items@.take(k + 1).drop_last() =~= items@.take(k as int));
            assert(items@.take(k + 1).last() == items@[k as int]);
        }
        match &items[k] {
            JsonValue::Str(t) => {
                let ghost old_out = out;
                out.push(t.clone());
                proof {
                    assert(out.deep_view() =~~= old_out.deep_view().push(
                        str_of(items@[k as int]).unwrap(),
                    ));
                }
            },
            _ => {
            },
        }
        k += 1;
    }
    proof {
        assert(items@.take(n as int) =~= items@);
    }
    out
}

} // verus!
