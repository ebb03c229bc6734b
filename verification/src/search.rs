//! Retrieval dispatch: merging, deduplicating and ranking search results.
//!
//! Provider adapters run outside this crate (they do network and file I/O)
//! and each hands back a plain list of results; a failed adapter hands back
//! an empty list. This module owns everything after that hand-off: the
//! synthetic default provider, flattening the per-provider lists in
//! configuration order, deduplication by URL keeping the first occurrence,
//! and the stable ranking that puts title matches first.

use vstd::prelude::*;
use crate::text::{contains_seq, lower_of};

verus! {

/// One search result. The `url` is the identity of a result within one
/// retrieval pass.
pub struct SearchResult {
    pub title: String,
    pub url: String,
    pub content: String,
    pub engine: String,
}

/// The characters of a result's fields.
#[verifier::ext_equal]
pub struct SearchResultView {
    pub title: Seq<char>,
    pub url: Seq<char>,
    pub content: Seq<char>,
    pub engine: Seq<char>,
}

impl View for SearchResult {
    type V = SearchResultView;

    open spec fn view(&self) -> SearchResultView {
        SearchResultView {
            title: self.title@,
            url: self.url@,
            content: self.content@,
            engine: self.engine@,
        }
    }
}

impl DeepView for SearchResult {
    type V = SearchResultView;

    open spec fn deep_view(&self) -> SearchResultView {
        self.view()
    }
}

impl Clone for SearchResult {
    fn clone(&self) -> (r: Self)
        ensures
            r == *self,
    {
        SearchResult {
            title: self.title.clone(),
            url: self.url.clone(),
            content: self.content.clone(),
            engine: self.engine.clone(),
        }
    }
}

/// The configuration of one provider, as the configuration store hands it
/// over. For a `generic` provider `api_url` is a URL template with a `{q}`
/// placeholder; for a native provider it is the symbolic identifier of the
/// built-in adapter to run.
pub struct ProviderConfig {
    pub id: i64,
    pub name: String,
    pub type_: String,
    pub api_url: Option<String>,
    pub api_headers: Option<String>,
    pub result_path: Option<String>,
    pub title_path: Option<String>,
    pub url_path: Option<String>,
    pub content_path: Option<String>,
    pub is_enabled: bool,
}

/// The characters of an optional string.
pub open spec fn opt_view(o: Option<String>) -> Option<Seq<char>> {
    match o {
        Some(s) => Some(s@),
        None => None,
    }
}

/// The characters of a provider configuration's fields.
#[verifier::ext_equal]
pub struct ProviderConfigView {
    pub id: i64,
    pub name: Seq<char>,
    pub type_: Seq<char>,
    pub api_url: Option<Seq<char>>,
    pub api_headers: Option<Seq<char>>,
    pub result_path: Option<Seq<char>>,
    pub title_path: Option<Seq<char>>,
    pub url_path: Option<Seq<char>>,
    pub content_path: Option<Seq<char>>,
    pub is_enabled: bool,
}

impl View for ProviderConfig {
    type V = ProviderConfigView;

    open spec fn view(&self) -> ProviderConfigView {
        ProviderConfigView {
            id: self.id,
            name: self.name@,
            type_: self.type_@,
            api_url: opt_view(self.api_url),
            api_headers: opt_view(self.api_headers),
            result_path: opt_view(self.result_path),
            title_path: opt_view(self.title_path),
            url_path: opt_view(self.url_path),
            content_path: opt_view(self.content_path),
            is_enabled: self.is_enabled,
        }
    }
}

// ---------------------------------------------------------------------------
// Native adapter selection
// ---------------------------------------------------------------------------

/// The closed set of built-in adapters a native provider can select through
/// its symbolic identifier.
#[derive(Clone, Copy, PartialEq, Eq, Structural)]
pub enum AdapterKind {
    LocalArchive,
    Ddg,
    Qwant,
    Mojeek,
    Wikipedia,
    Reddit,
    StackExchange,
    Searxng,
    Unknown,
}

/// Which adapter a symbolic identifier selects; an unrecognized identifier
/// selects none and yields zero results.
pub open spec fn adapter_kind_spec(id: Seq<char>) -> AdapterKind {
    if id == "native_local_db"@ {
        AdapterKind::LocalArchive
    } else if id == "native_ddg"@ {
        AdapterKind::Ddg
    } else if id == "native_qwant"@ {
        AdapterKind::Qwant
    } else if id == "native_mojeek"@ {
        AdapterKind::Mojeek
    } else if id == "native_wiki"@ {
        AdapterKind::Wikipedia
    } else if id == "native_reddit"@ {
        AdapterKind::Reddit
    } else if id == "native_stack"@ {
        AdapterKind::StackExchange
    } else if id == "native_searxng"@ {
        AdapterKind::Searxng
    } else {
        AdapterKind::Unknown
    }
}

/// Resolves a native provider's symbolic identifier to an adapter.
pub fn adapter_kind(id: &str) -> (k: AdapterKind)
    ensures
        k == adapter_kind_spec(id@),
{
    let v = crate::text::str_to_chars(id);
    if crate::text::chars_eq_str(&v, "native_local_db") {
        AdapterKind::LocalArchive
    } else if crate::text::chars_eq_str(&v, "native_ddg") {
        AdapterKind::Ddg
    } else if crate::text::chars_eq_str(&v, "native_qwant") {
        AdapterKind::Qwant
    } else if crate::text::chars_eq_str(&v, "native_mojeek") {
        AdapterKind::Mojeek
    } else if crate::text::chars_eq_str(&v, "native_wiki") {
        AdapterKind::Wikipedia
    } else if crate::text::chars_eq_str(&v, "native_reddit") {
        AdapterKind::Reddit
    } else if crate::text::chars_eq_str(&v, "native_stack") {
        AdapterKind::StackExchange
    } else if crate::text::chars_eq_str(&v, "native_searxng") {
        AdapterKind::Searxng
    } else {
        AdapterKind::Unknown
    }
}

/// A provider is dispatched generically when its type is exactly `generic`;
/// every other type is treated as native.
pub open spec fn is_generic_spec(c: ProviderConfigView) -> bool {
    c.type_ == "generic"@
}

/// Tests whether a provider is a generic JSON API provider.
pub fn is_generic(c: &ProviderConfig) -> (b: bool)
    ensures
        b == is_generic_spec(c@),
{
    let v = crate::text::string_to_chars(&c.type_);
    crate::text::chars_eq_str(&v, "generic")
}

// ---------------------------------------------------------------------------
// The synthetic default provider
// ---------------------------------------------------------------------------

/// The configuration substituted when no provider is selected: the local
/// archive adapter, so that retrieval is useful with nothing configured.
pub open spec fn default_provider_view() -> ProviderConfigView {
    ProviderConfigView {
        id: 0,
        name: "Local Database"@,
        type_: "native"@,
        api_url: Some("native_local_db"@),
        api_headers: None,
        result_path: None,
        title_path: None,
        url_path: None,
        content_path: None,
        is_enabled: true,
    }
}

/// Replaces an empty provider list by the single synthetic default.
pub fn effective_providers(providers: Vec<ProviderConfig>) -> (out: Vec<ProviderConfig>)
    ensures
        providers@.len() > 0 ==> out == providers,
        providers@.len() == 0 ==> out@.len() == 1 && out@[0]@ == default_provider_view(),
{
    if providers.len() > 0 {
        return providers;
    }
    let d = ProviderConfig {
        id: 0,
        name: String::from_str("Local Database"),
        type_: String::from_str("native"),
        api_url: Some(String::from_str("native_local_db")),
        api_headers: None,
        result_path: None,
        title_path: None,
        url_path: None,
        content_path: None,
        is_enabled: true,
    };
    let mut out: Vec<ProviderConfig> = Vec::new();
    out.push(d);
    out
}

// ---------------------------------------------------------------------------
// Deduplication by URL
// ---------------------------------------------------------------------------

/// The URLs of a result list, in order.
pub open spec fn urls_of(s: Seq<SearchResult>) -> Seq<Seq<char>> {
    s.map_values(|r: SearchResult| r.url@)
}

/// `s` with every result whose URL already occurred earlier removed: the
/// first occurrence of each URL survives, in its original position.
pub open spec fn dedup_by_url(s: Seq<SearchResult>) -> Seq<SearchResult>
    decreases s.len(),
{
    if s.len() == 0 {
        Seq::<SearchResult>::empty()
    } else {
        let pre = dedup_by_url(s.drop_last());
        if urls_of(s.drop_last()).contains(s.last().url@) {
            pre
        } else {
            pre.push(s.last())
        }
    }
}

/// Scans a list of already-seen URLs.
fn url_seen(seen: &Vec<Vec<char>>, url: &Vec<char>) -> (b: bool)
    ensures
        b == seen.deep_view().contains(url@),
{
    let n = seen.len();
    let mut k: usize = 0;
    while k < n
        invariant
            k <= n,
            n == seen@.len(),
            forall|j: int| 0 <= j < k ==> seen.deep_view()[j] != url@,
        decreases n - k,
    {
        if crate::text::chars_eq(&seen[k], url) {
            proof {
                assert(seen.deep_view()[k as int] == url@);
            }
            return true;
        }
        proof {
            assert(seen.deep_view()[k as int] == seen@[k as int]@);
        }
        k += 1;
    }
    false
}

/// Removes every result whose URL occurred earlier in the list, keeping the
/// first occurrence of each URL in input order.
pub fn dedup_results(rs: &Vec<SearchResult>) -> (out: Vec<SearchResult>)
    ensures
        out@ == dedup_by_url(rs@),
{
    let n = rs.len();
    let mut out: Vec<SearchResult> = Vec::new();
    let mut seen: Vec<Vec<char>> = Vec::new();
    proof {
        assert(rs@.take(0) =~= Seq::<SearchResult>::empty());
        assert(out@ =~= dedup_by_url(rs@.take(0)));
        assert(seen.deep_view() =~~= urls_of(rs@.take(0)));
    }
    let mut i: usize = 0;
    while i < n
        invariant
            i <= n,
            n == rs@.len(),
            out@ == dedup_by_url(rs@.take(i as int)),
            seen.deep_view() == urls_of(rs@.take(i as int)),
        decreases n - i,
    {
        let url = crate::text::string_to_chars(&rs[i].url);
        proof {
            assert(rs@.take(i + 1).drop_last() =~= rs@.take(i as int));
            assert(rs@.take(i + 1).last() == rs@[i as int]);
        }
        if !url_seen(&seen, &url) {
            out.push(rs[i].clone());
        }
        let ghost old_seen = seen;
        seen.push(url);
        proof {
            assert(seen.deep_view() =~~= old_seen.deep_view().push(rs@[i as int].url@));
            assert(seen.deep_view() =~~= urls_of(rs@.take(i + 1)));
        }
        i += 1;
    }
    proof {
        assert(rs@.take(n as int) =~= rs@);
    }
    out
}

// ---------------------------------------------------------------------------
// Ranking
// ---------------------------------------------------------------------------

/// A result ranks first when its title contains the query, both lowercased.
pub open spec fn title_match(r: SearchResult, q: Seq<char>) -> bool {
    contains_seq(lower_of(r.title@), lower_of(q))
}

/// The results of `s` whose title matches `q`, in order.
pub open spec fn hits_of(s: Seq<SearchResult>, q: Seq<char>) -> Seq<SearchResult>
    decreases s.len(),
{
    if s.len() == 0 {
        Seq::<SearchResult>::empty()
    } else {
        let pre = hits_of(s.drop_last(), q);
        if title_match(s.last(), q) {
            pre.push(s.last())
        } else {
            pre
        }
    }
}

/// The results of `s` whose title does not match `q`, in order.
pub open spec fn misses_of(s: Seq<SearchResult>, q: Seq<char>) -> Seq<SearchResult>
    decreases s.len(),
{
    if s.len() == 0 {
        Seq::<SearchResult>::empty()
    } else {
        let pre = misses_of(s.drop_last(), q);
        if !title_match(s.last(), q) {
            pre.push(s.last())
        } else {
            pre
        }
    }
}

/// The stable partition of `s`: results whose title matches `q` first,
/// followed by the rest, input order preserved within each group.
pub open spec fn rank_spec(s: Seq<SearchResult>, q: Seq<char>) -> Seq<SearchResult> {
    hits_of(s, q) + misses_of(s, q)
}

/// Partitions `rs` so that every result whose lowercased title contains the
/// lowercased query precedes every result whose title does not, keeping
/// input order within each group.
pub fn rank_results(rs: Vec<SearchResult>, query: &str) -> (out: Vec<SearchResult>)
    ensures
        out@ == rank_spec(rs@, query@),
{
    let q_low_s = crate::text::lowercase(query);
    let q_low = crate::text::string_to_chars(&q_low_s);
    let n = rs.len();
    let mut hits: Vec<SearchResult> = Vec::new();
    let mut misses: Vec<SearchResult> = Vec::new();
    proof {
        assert(rs@.take(0) =~= Seq::<SearchResult>::empty());
        assert(hits@ =~= hits_of(rs@.take(0), query@));
        assert(misses@ =~= misses_of(rs@.take(0), query@));
    }
    let mut i: usize = 0;
    while i < n
        invariant
            i <= n,
            n == rs@.len(),
            q_low@ == lower_of(query@),
            hits@ == hits_of(rs@.take(i as int), query@),
            misses@ == misses_of(rs@.take(i as int), query@),
        decreases n - i,
    {
        let t_low_s = crate::text::lowercase(rs[i].title.as_str());
        let t_low = crate::text::string_to_chars(&t_low_s);
        let ghost t1 = rs@.take(i + 1);
        proof {
            assert(t1.len() == i + 1);
            assert(t1.drop_last() =~= rs@.take(i as int));
            assert(t1.last() == rs@[i as int]);
        }
        if crate::text::contains_chars(&t_low, &q_low) {
            proof {
                assert(title_match(rs@[i as int], query@));
            }
            hits.push(rs[i].clone());
        } else {
            proof {
                assert(!title_match(rs@[i as int], query@));
            }
            misses.push(rs[i].clone());
        }
        i += 1;
    }
    proof {
        assert(rs@.take(n as int) =~= rs@);
    }
    let mut out = hits;
    append_results(&mut out, &misses);
    out
}

/// Appends copies of all results of `src` to `dst`.
pub fn append_results(dst: &mut Vec<SearchResult>, src: &Vec<SearchResult>)
    ensures
        final(dst)@ == old(dst)@ + src@,
{
    let n = src.len();
    let mut i: usize = 0;
    while i < n
        invariant
            i <= n,
            n == src@.len(),
            dst@ == old(dst)@ + src@.take(i as int),
        decreases n - i,
    {
        dst.push(src[i].clone());
        proof {
            assert(old(dst)@ + src@.take(i + 1) =~= (old(dst)@ + src@.take(i as int)).push(
                src@[i as int],
            ));
        }
        i += 1;
    }
    proof {
        assert(src@.take(n as int) =~= src@);
    }
}

// ---------------------------------------------------------------------------
// Merging provider lists
// ---------------------------------------------------------------------------

/// All per-provider result lists, concatenated in provider order.
pub open spec fn concat_lists(ls: Seq<Seq<SearchResult>>) -> Seq<SearchResult>
    decreases ls.len(),
{
    if ls.len() == 0 {
        Seq::<SearchResult>::empty()
    } else {
        concat_lists(ls.drop_last()) + ls.last()
    }
}

/// Concatenates the per-provider result lists in order.
pub fn merge_lists(lists: Vec<Vec<SearchResult>>) -> (out: Vec<SearchResult>)
    ensures
        out@ == concat_lists(lists@.map_values(|l: Vec<SearchResult>| l@)),
{
    let n = lists.len();
    let ghost lv = lists@.map_values(|l: Vec<SearchResult>| l@);
    let mut out: Vec<SearchResult> = Vec::new();
    proof {
        assert(lv.take(0) =~= Seq::<Seq<SearchResult>>::empty());
        assert(out@ =~= concat_lists(lv.take(0)));
    }
    let mut i: usize = 0;
    while i < n
        invariant
            i <= n,
            n == lists@.len(),
            lv == lists@.map_values(|l: Vec<SearchResult>| l@),
            out@ == concat_lists(lv.take(i as int)),
        decreases n - i,
    {
        proof {
            assert(lv.take(i + 1).drop_last() =~= lv.take(i as int));
            assert(lv.take(i + 1).last() == lv[i as int]);
            assert(lv[i as int] == lists@[i as int]@);
        }
        append_results(&mut out, &lists[i]);
        i += 1;
    }
    proof {
        assert(lv.take(n as int) =~= lv);
    }
    out
}

/// The value retrieval produces from the per-provider lists: concatenate in
/// provider order, keep the first result for each URL, then rank.
pub open spec fn retrieve_spec(ls: Seq<Seq<SearchResult>>, q: Seq<char>) -> Seq<SearchResult> {
    rank_spec(dedup_by_url(concat_lists(ls)), q)
}

/// Merges the per-provider result lists: concatenation in provider order,
/// deduplication by URL keeping the first occurrence, then the stable
/// title-match ranking.
pub fn merge_and_rank(lists: Vec<Vec<SearchResult>>, query: &str) -> (out: Vec<SearchResult>)
    ensures
        out@ == retrieve_spec(lists@.map_values(|l: Vec<SearchResult>| l@), query@),
{
    let merged = merge_lists(lists);
    let unique = dedup_results(&merged);
    rank_results(unique, query)
}


// ---------------------------------------------------------------------------
// Laws of deduplication and ranking
// ---------------------------------------------------------------------------

/// Law: every survivor of deduplication is the first occurrence of its URL
/// in the input — the result contributed by the earliest-iterated provider.
pub proof fn lemma_dedup_first_occurrences(s: Seq<SearchResult>)
    ensures
        forall|k: int| 0 <= k < dedup_by_url(s).len() ==> exists|j: int|
            0 <= j < s.len() && #[trigger] dedup_by_url(s)[k] == s[j] && (forall|j2: int|
                0 <= j2 < j ==> s[j2].url@ != s[j].url@),
    decreases s.len(),
{
    if s.len() == 0 {
    } else {
        let dl = s.drop_last();
        let pre = dedup_by_url(dl);
        lemma_dedup_first_occurrences(dl);
        assert forall|k: int| 0 <= k < dedup_by_url(s).len() implies exists|j: int|
            0 <= j < s.len() && #[trigger] dedup_by_url(s)[k] == s[j] && (forall|j2: int|
                0 <= j2 < j ==> s[j2].url@ != s[j].url@) by {
            if k < pre.len() {
                let j = choose|j: int|
                    0 <= j < dl.len() && pre[k] == dl[j] && (forall|j2: int|
                        0 <= j2 < j ==> dl[j2].url@ != dl[j].url@);
                assert(s[j] == dl[j]);
                assert(forall|j2: int| 0 <= j2 < j ==> s[j2] == dl[j2]);
                assert(dedup_by_url(s)[k] == pre[k]);
                assert(dedup_by_url(s)[k] == s[j] && (forall|j2: int|
                    0 <= j2 < j ==> s[j2].url@ != s[j].url@));
            } else {
                let j = s.len() - 1;
                assert(!urls_of(dl).contains(s.last().url@));
                assert(dedup_by_url(s)[k] == s[j]);
                assert forall|j2: int| 0 <= j2 < j implies s[j2].url@ != s[j].url@ by {
                    assert(urls_of(dl)[j2] == dl[j2].url@);
                }
            }
        }
    }
}

/// Law: after deduplication no two results share a URL.
pub proof fn lemma_dedup_distinct(s: Seq<SearchResult>)
    ensures
        forall|k1: int, k2: int|
            0 <= k1 < k2 < dedup_by_url(s).len() ==> dedup_by_url(s)[k1].url@ != dedup_by_url(
                s,
            )[k2].url@,
    decreases s.len(),
{
    if s.len() == 0 {
    } else {
        let dl = s.drop_last();
        let pre = dedup_by_url(dl);
        lemma_dedup_distinct(dl);
        lemma_dedup_first_occurrences(dl);
        assert forall|k1: int, k2: int|
            0 <= k1 < k2 < dedup_by_url(s).len() implies dedup_by_url(s)[k1].url@ != dedup_by_url(
            s,
        )[k2].url@ by {
            if k2 < pre.len() {
            } else {
                assert(!urls_of(dl).contains(s.last().url@));
                let j = choose|j: int|
                    0 <= j < dl.len() && pre[k1] == dl[j] && (forall|j2: int|
                        0 <= j2 < j ==> dl[j2].url@ != dl[j].url@);
                assert(urls_of(dl)[j] == dl[j].url@);
                assert(pre[k1].url@ != s.last().url@);
            }
        }
    }
}

/// Law: deduplication loses no URL — every URL of the input is the URL of
/// some survivor. A provider whose list was merged keeps its results in the
/// output whatever the other providers returned.
pub proof fn lemma_dedup_complete(s: Seq<SearchResult>)
    ensures
        forall|u: Seq<char>|
            urls_of(s).contains(u) ==> urls_of(#[trigger] dedup_by_url(s)).contains(u),
    decreases s.len(),
{
    if s.len() == 0 {
    } else {
        let dl = s.drop_last();
        let pre = dedup_by_url(dl);
        lemma_dedup_complete(dl);
        assert forall|u: Seq<char>|
            urls_of(s).contains(u) implies urls_of(#[trigger] dedup_by_url(s)).contains(u) by {
            let idx = choose|idx: int| 0 <= idx < urls_of(s).len() && urls_of(s)[idx] == u;
            assert(urls_of(s)[idx] == s[idx].url@);
            if urls_of(dl).contains(u) {
                assert(urls_of(pre).contains(u));
                let k = choose|k: int| 0 <= k < urls_of(pre).len() && urls_of(pre)[k] == u;
                if !urls_of(dl).contains(s.last().url@) {
                    assert(dedup_by_url(s) == pre.push(s.last()));
                    assert(urls_of(dedup_by_url(s))[k] == u);
                } else {
                    assert(dedup_by_url(s) == pre);
                }
            } else {
                if idx < s.len() - 1 {
                    assert(dl[idx] == s[idx]);
                    assert(urls_of(dl)[idx] == u);
                    assert(false);
                }
                assert(u == s.last().url@);
                assert(dedup_by_url(s) == pre.push(s.last()));
                assert(urls_of(dedup_by_url(s))[pre.len() as int] == s.last().url@);
            }
        }
    }
}

/// Law: when every result of a non-empty list carries the same URL, exactly
/// the first one survives deduplication.
pub proof fn lemma_dedup_same_url(s: Seq<SearchResult>)
    requires
        s.len() > 0,
        forall|i: int| 0 <= i < s.len() ==> (#[trigger] s[i]).url@ == s[0].url@,
    ensures
        dedup_by_url(s) == seq![s[0]],
    decreases s.len(),
{
    if s.len() == 1 {
        let dl = s.drop_last();
        assert(dl.len() == 0);
        assert(dedup_by_url(dl) =~= Seq::<SearchResult>::empty());
        assert(urls_of(dl).len() == 0);
        assert(!urls_of(dl).contains(s.last().url@));
        assert(dedup_by_url(s) =~= seq![s[0]]);
    } else {
        let dl = s.drop_last();
        assert(forall|i: int| 0 <= i < dl.len() ==> (#[trigger] dl[i]).url@ == dl[0].url@);
        lemma_dedup_same_url(dl);
        assert(urls_of(dl)[0] == dl[0].url@);
        assert(urls_of(dl).contains(s.last().url@));
        assert(dedup_by_url(s) == dedup_by_url(dl));
        assert(dl[0] == s[0]);
    }
}

/// Law: every result of the ranked list's first group matches the query and
/// every result of the second group does not; within each group the input
/// order is kept, the groups being `hits_of` and `misses_of` verbatim.
pub proof fn lemma_rank_partition(s: Seq<SearchResult>, q: Seq<char>)
    ensures
        rank_spec(s, q).len() == s.len(),
        forall|k: int| 0 <= k < hits_of(s, q).len() ==> title_match(rank_spec(s, q)[k], q),
        forall|k: int|
            hits_of(s, q).len() <= k < rank_spec(s, q).len() ==> !title_match(
                rank_spec(s, q)[k],
                q,
            ),
{
    lemma_partition_members(s, q);
    assert(forall|k: int|
        0 <= k < hits_of(s, q).len() ==> rank_spec(s, q)[k] == hits_of(s, q)[k]);
    assert(forall|k: int|
        hits_of(s, q).len() <= k < rank_spec(s, q).len() ==> rank_spec(s, q)[k] == misses_of(
            s,
            q,
        )[k - hits_of(s, q).len()]);
}

proof fn lemma_partition_members(s: Seq<SearchResult>, q: Seq<char>)
    ensures
        hits_of(s, q).len() + misses_of(s, q).len() == s.len(),
        forall|k: int| 0 <= k < hits_of(s, q).len() ==> title_match(#[trigger] hits_of(s, q)[k], q),
        forall|k: int|
            0 <= k < misses_of(s, q).len() ==> !title_match(#[trigger] misses_of(s, q)[k], q),
    decreases s.len(),
{
    if s.len() > 0 {
        lemma_partition_members(s.drop_last(), q);
    }
}

/// Law: ranking loses no result — it permutes the deduplicated list, so a
/// result present after deduplication is present after ranking.
pub proof fn lemma_rank_complete(s: Seq<SearchResult>, q: Seq<char>)
    ensures
        forall|idx: int| 0 <= idx < s.len() ==> rank_spec(s, q).contains(s[idx]),
    decreases s.len(),
{
    if s.len() == 0 {
    } else {
        let dl = s.drop_last();
        lemma_rank_complete(dl, q);
        lemma_partition_members(dl, q);
        lemma_partition_members(s, q);
        assert forall|idx: int| 0 <= idx < s.len() implies rank_spec(s, q).contains(s[idx]) by {
            if idx == s.len() - 1 {
                if title_match(s.last(), q) {
                    let k = hits_of(s, q).len() - 1;
                    assert(hits_of(s, q)[k] == s.last());
                    assert(rank_spec(s, q)[k] == s.last());
                } else {
                    let k = rank_spec(s, q).len() - 1;
                    assert(misses_of(s, q).last() == s.last());
                    assert(rank_spec(s, q)[k] == s.last());
                }
            } else {
                assert(dl[idx] == s[idx]);
                assert(rank_spec(dl, q).contains(dl[idx]));
                let k = choose|k: int|
                    0 <= k < rank_spec(dl, q).len() && rank_spec(dl, q)[k] == dl[idx];
                if k < hits_of(dl, q).len() {
                    assert(rank_spec(dl, q)[k] == hits_of(dl, q)[k]);
                    assert(hits_of(s, q)[k] == hits_of(dl, q)[k]);
                    assert(rank_spec(s, q)[k] == s[idx]);
                } else {
                    let m = k - hits_of(dl, q).len();
                    assert(rank_spec(dl, q)[k] == misses_of(dl, q)[m]);
                    assert(misses_of(s, q)[m] == misses_of(dl, q)[m]);
                    let k2 = hits_of(s, q).len() + m;
                    assert(rank_spec(s, q)[k2] == misses_of(s, q)[m]);
                    assert(rank_spec(s, q)[k2] == s[idx]);
                }
            }
        }
    }
}

/// Law: a fault in one provider cannot suppress another provider's results.
/// A failed adapter contributes an empty list; whatever the other lists
/// hold, every result of every list keeps a representative with its URL in
/// the merged, deduplicated, ranked output.
pub proof fn lemma_fault_isolation(ls: Seq<Seq<SearchResult>>, q: Seq<char>, i: int, j: int)
    requires
        0 <= i < ls.len(),
        0 <= j < ls[i].len(),
    ensures
        exists|k: int|
            0 <= k < retrieve_spec(ls, q).len() && retrieve_spec(ls, q)[k].url@ == ls[i][j].url@,
{
    let merged = concat_lists(ls);
    lemma_concat_contains(ls, i, j);
    let idx = choose|idx: int| 0 <= idx < merged.len() && merged[idx] == ls[i][j];
    assert(urls_of(merged)[idx] == merged[idx].url@);
    lemma_dedup_complete(merged);
    assert(urls_of(merged).contains(ls[i][j].url@));
    let d = dedup_by_url(merged);
    assert(urls_of(d).contains(ls[i][j].url@));
    let k0 = choose|k0: int| 0 <= k0 < urls_of(d).len() && urls_of(d)[k0] == ls[i][j].url@;
    assert(d[k0].url@ == ls[i][j].url@);
    lemma_rank_complete(d, q);
    assert(rank_spec(d, q).contains(d[k0]));
    let k = choose|k: int| 0 <= k < rank_spec(d, q).len() && rank_spec(d, q)[k] == d[k0];
    assert(retrieve_spec(ls, q)[k].url@ == ls[i][j].url@);
}

proof fn lemma_concat_contains(ls: Seq<Seq<SearchResult>>, i: int, j: int)
    requires
        0 <= i < ls.len(),
        0 <= j < ls[i].len(),
    ensures
        concat_lists(ls).contains(ls[i][j]),
    decreases ls.len(),
{
    let dl = ls.drop_last();
    if i == ls.len() - 1 {
        let pos = concat_lists(dl).len() + j;
        assert(concat_lists(ls)[pos] == ls[i][j]);
    } else {
        lemma_concat_contains(dl, i, j);
        assert(dl[i] == ls[i]);
        let idx = choose|idx: int|
            0 <= idx < concat_lists(dl).len() && concat_lists(dl)[idx] == ls[i][j];
        assert(concat_lists(ls)[idx] == ls[i][j]);
    }
}

} // verus!
