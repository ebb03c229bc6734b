//! The declarative path extractor and the generic JSON API provider.
//!
//! A generic provider describes an arbitrary search API by a URL template
//! and four dotted paths: where the result array sits, and where each item's
//! title, URL and snippet sit. The extractor resolves such a path against a
//! JSON tree: a segment that parses as a non-negative integer indexes the
//! current node when it is an array (out of range ends the walk with empty
//! text); any other segment — and a numeric one on a non-array — is an
//! object-field lookup that degrades to `Null` when absent. Absence of data
//! is always representable as empty text; extraction never fails.

use vstd::prelude::*;
use crate::json::{JsonValue, field_of, coerce_spec, arr_of};
use crate::text::{split_on, parse_usize_spec, replace_all, url_encoded_of};
use crate::search::{SearchResult, SearchResultView, ProviderConfig};

verus! {

// ---------------------------------------------------------------------------
// Path resolution
// ---------------------------------------------------------------------------

/// One resolution step. A numeric segment indexes an array, and an index out
/// of bounds stops the walk empty-handed; on any other node a numeric
/// segment is treated as an object-field lookup, like every non-numeric
/// segment, yielding `Null` when missing so the walk goes on.
pub open spec fn resolve_step(v: JsonValue, seg: Seq<char>) -> Option<JsonValue> {
    match parse_usize_spec(seg) {
        Some(idx) => match v {
            JsonValue::Arr(items) => if idx < items@.len() {
                Some(items@[idx as int])
            } else {
                None
            },
            _ => Some(field_of(v, seg)),
        },
        None => Some(field_of(v, seg)),
    }
}

/// Resolves the path segments left to right.
pub open spec fn resolve_path(v: JsonValue, segs: Seq<Seq<char>>) -> Option<JsonValue>
    decreases segs.len(),
{
    if segs.len() == 0 {
        Some(v)
    } else {
        match resolve_step(v, segs[0]) {
            Some(v2) => resolve_path(v2, segs.drop_first()),
            None => None,
        }
    }
}

/// What extraction returns: empty text for an absent or empty path, and
/// otherwise the terminal value the dot-separated path reaches, coerced to
/// text — empty when the walk stopped or ended on a non-scalar.
pub open spec fn extract_spec(v: JsonValue, path: Option<Seq<char>>) -> Seq<char> {
    match path {
        None => Seq::<char>::empty(),
        Some(p) => if p.len() == 0 {
            Seq::<char>::empty()
        } else {
            match resolve_path(v, split_on(p, '.')) {
                Some(t) => coerce_spec(t),
                None => Seq::<char>::empty(),
            }
        },
    }
}

/// Resolves a dot-separated path against `val` and coerces the terminal
/// value to text.
pub fn extract_value(val: &JsonValue, path: Option<&String>) -> (r: String)
    ensures
        r@ == extract_spec(*val, match path {
            Some(p) => Some(p@),
            None => None,
        }),
{
    let p = match path {
        Some(p) => p,
        None => {
            return String::new();
        },
    };
    let chars = crate::text::string_to_chars(p);
    if chars.len() == 0 {
        return String::new();
    }
    let parts = crate::text::split_chars(&chars, '.');
    let ghost segs = split_on(p@, '.');
    let m = parts.len();
    proof {
        assert(parts.deep_view().len() == parts@.len());
        assert(segs.subrange(0, m as int) =~= segs);
    }
    let mut curr: &JsonValue = val;
    let mut k: usize = 0;
    while k < m
        invariant
            k <= m,
            m == parts@.len(),
            parts.deep_view() == segs,
            segs == split_on(p@, '.'),
            p@.len() > 0,
            path == Some(p),
            resolve_path(*val, segs) == resolve_path(*curr, segs.subrange(k as int, m as int)),
        decreases m - k,
    {
        let ghost rest = segs.subrange(k as int, m as int);
        proof {
            assert(rest[0] == segs[k as int]);
            assert(rest.drop_first() =~= segs.subrange(k + 1, m as int));
            assert(parts@[k as int]@ == parts.deep_view()[k as int]);
        }
        let seg = &parts[k];
        match crate::text::parse_usize_chars(seg) {
            Some(idx) => {
                match crate::json::as_array(curr) {
                    Some(items) => {
                        if idx < items.len() {
                            curr = &items[idx];
                        } else {
                            proof {
                                assert(resolve_step(*curr, rest[0]) is None);
                                assert(resolve_path(*val, segs) is None);
                            }
                            return String::new();
                        }
                    },
                    None => {
                        curr = crate::json::get_field(curr, seg);
                    },
                }
            },
            None => {
                curr = crate::json::get_field(curr, seg);
            },
        }
        k += 1;
    }
    proof {
        assert(segs.subrange(m as int, m as int) =~= Seq::<Seq<char>>::empty());
        assert(resolve_path(*val, segs) == Some(*curr));
    }
    let out = crate::json::coerce(curr);
    crate::text::chars_to_string(&out)
}

// ---------------------------------------------------------------------------
// Laws of extraction
// ---------------------------------------------------------------------------

/// Law: extraction with an absent path is empty text.
pub proof fn lemma_extract_none_empty(v: JsonValue)
    ensures
        extract_spec(v, None) == Seq::<char>::empty(),
{
}

/// Law: when every segment of the path resolves, extraction returns the
/// coerced terminal value; in particular, a walk that ends on an absent
/// field coerces `Null` to empty text.
pub proof fn lemma_extract_resolved(v: JsonValue, p: Seq<char>, t: JsonValue)
    requires
        p.len() > 0,
        resolve_path(v, split_on(p, '.')) == Some(t),
    ensures
        extract_spec(v, Some(p)) == coerce_spec(t),
{
}

/// Law: an array-index segment that is out of bounds makes the whole
/// extraction empty text — the only way a walk stops early.
pub proof fn lemma_extract_stopped(v: JsonValue, p: Seq<char>)
    requires
        p.len() > 0,
        resolve_path(v, split_on(p, '.')) is None,
    ensures
        extract_spec(v, Some(p)) == Seq::<char>::empty(),
{
}


/// Law: a path of plain field names never stops the walk — every segment
/// resolves, an absent field resolving to `Null`.
pub proof fn lemma_field_path_total(v: JsonValue, segs: Seq<Seq<char>>)
    requires
        forall|i: int| 0 <= i < segs.len() ==> parse_usize_spec(#[trigger] segs[i]) is None,
    ensures
        resolve_path(v, segs) is Some,
    decreases segs.len(),
{
    if segs.len() > 0 {
        assert(parse_usize_spec(segs[0]) is None);
        assert(forall|i: int|
            0 <= i < segs.drop_first().len() ==> parse_usize_spec(
                #[trigger] segs.drop_first()[i],
            ) is None);
        lemma_field_path_total(field_of(v, segs[0]), segs.drop_first());
    }
}

/// Law: once the walk stands on `Null` — an absent field — every further
/// field lookup stays on `Null`, so the extraction degrades to empty text.
pub proof fn lemma_absent_stays_null(segs: Seq<Seq<char>>)
    requires
        forall|i: int| 0 <= i < segs.len() ==> parse_usize_spec(#[trigger] segs[i]) is None,
    ensures
        resolve_path(JsonValue::Null, segs) == Some(JsonValue::Null),
        coerce_spec(JsonValue::Null) == Seq::<char>::empty(),
    decreases segs.len(),
{
    if segs.len() > 0 {
        assert(field_of(JsonValue::Null, segs[0]) == JsonValue::Null);
        assert(forall|i: int|
            0 <= i < segs.drop_first().len() ==> parse_usize_spec(
                #[trigger] segs.drop_first()[i],
            ) is None);
        lemma_absent_stays_null(segs.drop_first());
    }
}

// ---------------------------------------------------------------------------
// The generic provider
// ---------------------------------------------------------------------------

/// Navigates object fields along `segs`, skipping empty segments, as the
/// generic provider locates its result array.
pub open spec fn nav_fields(v: JsonValue, segs: Seq<Seq<char>>) -> JsonValue
    decreases segs.len(),
{
    if segs.len() == 0 {
        v
    } else if segs[0].len() == 0 {
        nav_fields(v, segs.drop_first())
    } else {
        nav_fields(field_of(v, segs[0]), segs.drop_first())
    }
}

/// Where the result array sits: the root itself without a configured result
/// path, and the object fields along the dotted path otherwise.
pub open spec fn result_root(v: JsonValue, result_path: Option<Seq<char>>) -> JsonValue {
    match result_path {
        None => v,
        Some(p) => nav_fields(v, split_on(p, '.')),
    }
}

/// The result one item yields, when its extracted URL is non-empty: a
/// missing title becomes the placeholder, a missing snippet empty text, and
/// the provider's name labels the engine.
pub open spec fn item_result(cfg: crate::search::ProviderConfigView, item: JsonValue) -> Option<
    SearchResultView,
> {
    let url = extract_spec(item, cfg.url_path);
    if url.len() == 0 {
        None
    } else {
        let title = extract_spec(item, cfg.title_path);
        Some(
            SearchResultView {
                title: if title.len() == 0 {
                    "No Title"@
                } else {
                    title
                },
                url: url,
                content: extract_spec(item, cfg.content_path),
                engine: cfg.name,
            },
        )
    }
}

/// The results of all items, in item order, items without a URL discarded.
pub open spec fn items_results(cfg: crate::search::ProviderConfigView, items: Seq<JsonValue>) -> Seq<
    SearchResultView,
>
    decreases items.len(),
{
    if items.len() == 0 {
        Seq::<SearchResultView>::empty()
    } else {
        let pre = items_results(cfg, items.drop_last());
        match item_result(cfg, items.last()) {
            Some(r) => pre.push(r),
            None => pre,
        }
    }
}

/// What the generic provider makes of a response body: navigate to the
/// result array and shape every item; any other value than an array there
/// yields nothing.
pub open spec fn generic_results_spec(cfg: crate::search::ProviderConfigView, body: JsonValue) -> Seq<
    SearchResultView,
> {
    match arr_of(result_root(body, cfg.result_path)) {
        Some(items) => items_results(cfg, items),
        None => Seq::<SearchResultView>::empty(),
    }
}

/// The request URL of a generic provider: the configured template with every
/// `{q}` placeholder replaced by the percent-encoded query; no template, or
/// an empty one, means no request and zero results.
pub open spec fn generic_url_spec(cfg: crate::search::ProviderConfigView, q: Seq<char>) -> Option<
    Seq<char>,
> {
    match cfg.api_url {
        Some(tmpl) => if tmpl.len() == 0 {
            None
        } else {
            Some(replace_all(tmpl, "{q}"@, url_encoded_of(q)))
        },
        None => None,
    }
}

/// A generic JSON API provider: one provider configuration, interpreted
/// declaratively.
pub struct GenericApiProvider {
    pub config: ProviderConfig,
}

impl GenericApiProvider {
    /// Wraps a configuration.
    pub fn new(config: ProviderConfig) -> (p: Self)
        ensures
            p.config == config,
    {
        GenericApiProvider { config }
    }

    /// Resolves a dot-separated path against `val` and coerces the terminal
    /// value to text.
    pub fn extract(&self, val: &JsonValue, path: Option<&String>) -> (r: String)
        ensures
            r@ == extract_spec(*val, match path {
                Some(p) => Some(p@),
                None => None,
            }),
    {
        extract_value(val, path)
    }

    /// The URL this provider requests for `query`, when it has a template.
    pub fn request_url(&self, query: &str) -> (r: Option<String>)
        ensures
            match r {
                Some(u) => generic_url_spec(self.config@, query@) == Some(u@),
                None => generic_url_spec(self.config@, query@) is None,
            },
    {
        let tmpl = match &self.config.api_url {
            Some(t) => t,
            None => {
                return None;
            },
        };
        let tmpl_chars = crate::text::string_to_chars(tmpl);
        if tmpl_chars.len() == 0 {
            return None;
        }
        let encoded = crate::text::url_encode(query);
        let encoded_chars = crate::text::string_to_chars(&encoded);
        let pat = crate::text::str_to_chars("{q}");
        proof {
            reveal_strlit("{q}");
        }
        let out = crate::text::replace_chars(&tmpl_chars, &pat, &encoded_chars);
        Some(crate::text::chars_to_string(&out))
    }

    /// Shapes a response body into results: navigate to the configured
    /// result array, extract title, URL and snippet of every item, discard
    /// items without a URL, default missing titles to the placeholder.
    pub fn results_from(&self, body: &JsonValue) -> (out: Vec<SearchResult>)
        ensures
            out.deep_view() == generic_results_spec(self.config@, *body),
    {
        let root = self.navigate_root(body);
        let items = match crate::json::as_array(root) {
            Some(items) => items,
            None => {
                let out: Vec<SearchResult> = Vec::new();
                proof {
                    assert(out.deep_view() =~= generic_results_spec(self.config@, *body));
                }
                return out;
            },
        };
        let n = items.len();
        let mut out: Vec<SearchResult> = Vec::new();
        proof {
            assert(items@.take(0) =~= Seq::<JsonValue>::empty());
            assert(out.deep_view() =~= items_results(self.config@, items@.take(0)));
        }
        let mut k: usize = 0;
        while k < n
            invariant
                k <= n,
                n == items@.len(),
                arr_of(result_root(*body, self.config@.result_path)) == Some(items@),
                out.deep_view() == items_results(self.config@, items@.take(k as int)),
            decreases n - k,
        {
            proof {
                assert(items@.take(k + 1).drop_last() =~= items@.take(k as int));
                assert(items@.take(k + 1).last() == items@[k as int]);
            }
            let item = &items[k];
            let url = self.extract(item, self.config.url_path.as_ref());
            if url.unicode_len() != 0 {
                let title = self.extract(item, self.config.title_path.as_ref());
                let content = self.extract(item, self.config.content_path.as_ref());
                let r = SearchResult {
                    title: if title.unicode_len() == 0 {
                        String::from_str("No Title")
                    } else {
                        title
                    },
                    url,
                    content,
                    engine: self.config.name.clone(),
                };
                let ghost old_out = out;
                out.push(r);
                proof {
                    assert(out.deep_view() =~~= old_out.deep_view().push(
                        item_result(self.config@, items@[k as int]).unwrap(),
                    ));
                }
            }
            k += 1;
        }
        proof {
            assert(items@.take(n as int) =~= items@);
        }
        out
    }

    /// Follows the configured result path, field by field.
    fn navigate_root<'a>(&self, body: &'a JsonValue) -> (r: &'a JsonValue)
        ensures
            *r == result_root(*body, self.config@.result_path),
    {
        let p = match &self.config.result_path {
            Some(p) => p,
            None => {
                return body;
            },
        };
        let chars = crate::text::string_to_chars(p);
        let parts = crate::text::split_chars(&chars, '.');
        let ghost segs = split_on(p@, '.');
        let m = parts.len();
        proof {
            assert(segs.subrange(0, m as int) =~= segs);
        }
        let mut curr: &JsonValue = body;
        let mut k: usize = 0;
        while k < m
            invariant
                k <= m,
                m == parts@.len(),
                parts.deep_view() == segs,
                segs == split_on(p@, '.'),
                self.config@.result_path == Some(p@),
                nav_fields(*body, segs) == nav_fields(*curr, segs.subrange(k as int, m as int)),
            decreases m - k,
        {
            let ghost rest = segs.subrange(k as int, m as int);
            proof {
                assert(rest[0] == segs[k as int]);
                assert(rest.drop_first() =~= segs.subrange(k + 1, m as int));
                assert(parts@[k as int]@ == parts.deep_view()[k as int]);
            }
            let seg = &parts[k];
            if seg.len() != 0 {
                curr = crate::json::get_field(curr, seg);
            }
            k += 1;
        }
        proof {
            assert(segs.subrange(m as int, m as int) =~= Seq::<Seq<char>>::empty());
        }
        curr
    }
}

} // verus!
