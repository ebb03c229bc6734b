//! Search over saved conversation archives.
//!
//! The surrounding application discovers archive files, opens each one
//! read-only and loads its rows; a file that cannot be opened contributes
//! nothing. Message matching comes from two sources: an archive that carries
//! a full-text index is matched token-wise by that index — a read against
//! what is on disk, performed by the application, which hands the raw hits
//! in as plain values — and an archive without one is matched here by
//! substring containment. Everything after the match is owned and verified
//! here: the notes stage, the recency ordering and raw-hit cap, the
//! per-conversation diversity filter, the bounded context window around each
//! surviving hit, and the transcript and locator formatting.

use vstd::prelude::*;
use crate::text::{contains_seq, upper_of, int_str};
use crate::search::{SearchResult, SearchResultView};

verus! {

/// One conversation of an archive.
pub struct ArchiveConversation {
    pub id: i64,
    pub title: String,
}

/// One message of an archive.
pub struct ArchiveMessage {
    pub id: i64,
    pub conversation_id: i64,
    pub role: String,
    pub content: String,
    pub created_at: String,
}

/// One note of an archive, a saved summary of a conversation.
pub struct ArchiveNote {
    pub conversation_id: i64,
    pub content: String,
    pub updated_at: String,
}

/// The rows of one archive file.
pub struct Archive {
    pub filename: String,
    pub conversations: Vec<ArchiveConversation>,
    pub messages: Vec<ArchiveMessage>,
    pub notes: Vec<ArchiveNote>,
}

/// One full-text hit before diversity filtering and context expansion.
pub struct RawHit {
    pub id: i64,
    pub conversation_id: i64,
    pub created_at: String,
}

impl Clone for ArchiveMessage {
    fn clone(&self) -> (r: Self)
        ensures
            r == *self,
    {
        ArchiveMessage {
            id: self.id,
            conversation_id: self.conversation_id,
            role: self.role.clone(),
            content: self.content.clone(),
            created_at: self.created_at.clone(),
        }
    }
}

impl Clone for RawHit {
    fn clone(&self) -> (r: Self)
        ensures
            r == *self,
    {
        RawHit {
            id: self.id,
            conversation_id: self.conversation_id,
            created_at: self.created_at.clone(),
        }
    }
}

// ---------------------------------------------------------------------------
// Lexicographic comparison of timestamps
// ---------------------------------------------------------------------------

/// `a` is lexicographically at most `b`, comparing characters from the
/// front; a prefix precedes every extension of itself. Timestamps in the
/// archive's text form compare chronologically this way.
pub open spec fn lex_le(a: Seq<char>, b: Seq<char>) -> bool
    decreases a.len(),
{
    if a.len() == 0 {
        true
    } else if b.len() == 0 {
        false
    } else if a[0] != b[0] {
        a[0] < b[0]
    } else {
        lex_le(a.drop_first(), b.drop_first())
    }
}

proof fn lemma_lex_skip(a: Seq<char>, b: Seq<char>, k: int)
    requires
        0 <= k <= a.len(),
        k <= b.len(),
        forall|j: int| 0 <= j < k ==> a[j] == b[j],
    ensures
        lex_le(a, b) == lex_le(a.skip(k), b.skip(k)),
    decreases k,
{
    if k > 0 {
        assert(a.len() > 0 && b.len() > 0 && a[0] == b[0]);
        assert(lex_le(a, b) == lex_le(a.drop_first(), b.drop_first()));
        lemma_lex_skip(a.drop_first(), b.drop_first(), k - 1);
        assert(a.drop_first().skip(k - 1) =~= a.skip(k));
        assert(b.drop_first().skip(k - 1) =~= b.skip(k));
    } else {
        assert(a.skip(0) =~= a);
        assert(b.skip(0) =~= b);
    }
}

/// Compares two character vectors lexicographically.
pub fn lex_le_chars(a: &Vec<char>, b: &Vec<char>) -> (r: bool)
    ensures
        r == lex_le(a@, b@),
{
    let an = a.len();
    let bn = b.len();
    let mut i: usize = 0;
    while i < an && i < bn
        invariant
            i <= an,
            i <= bn,
            an == a@.len(),
            bn == b@.len(),
            forall|j: int| 0 <= j < i ==> a@[j] == b@[j],
        decreases an - i,
    {
        let x = a[i];
        let y = b[i];
        if x != y {
            proof {
                lemma_lex_skip(a@, b@, i as int);
                assert(a@.skip(i as int)[0] == a@[i as int]);
                assert(b@.skip(i as int)[0] == b@[i as int]);
            }
            return x < y;
        }
        i += 1;
    }
    proof {
        lemma_lex_skip(a@, b@, i as int);
        if i == an {
            assert(a@.skip(i as int).len() == 0);
        } else {
            assert(b@.skip(i as int).len() == 0);
            assert(a@.skip(i as int).len() > 0);
        }
    }
    an <= bn
}

// ---------------------------------------------------------------------------
// Sorting hits by recency (newest timestamp first, stable)
// ---------------------------------------------------------------------------

/// Inserts `h` after every hit whose timestamp is at least `h`'s: a stable
/// descending insertion.
pub open spec fn insert_hit_desc(h: RawHit, s: Seq<RawHit>) -> Seq<RawHit>
    decreases s.len(),
{
    if s.len() > 0 && lex_le(h.created_at@, s[0].created_at@) {
        seq![s[0]] + insert_hit_desc(h, s.drop_first())
    } else {
        seq![h] + s
    }
}

/// The hits sorted by timestamp, newest first, ties keeping input order.
pub open spec fn sort_hits_desc(s: Seq<RawHit>) -> Seq<RawHit>
    decreases s.len(),
{
    if s.len() == 0 {
        Seq::<RawHit>::empty()
    } else {
        insert_hit_desc(s.last(), sort_hits_desc(s.drop_last()))
    }
}

proof fn lemma_insert_hit_at(h: RawHit, s: Seq<RawHit>, p: int)
    requires
        0 <= p <= s.len(),
        forall|j: int| 0 <= j < p ==> lex_le(h.created_at@, (#[trigger] s[j]).created_at@),
        p < s.len() ==> !lex_le(h.created_at@, s[p].created_at@),
    ensures
        insert_hit_desc(h, s) == s.take(p) + seq![h] + s.skip(p),
    decreases p,
{
    if p == 0 {
        assert(insert_hit_desc(h, s) == seq![h] + s);
        assert(s.take(0) + seq![h] + s.skip(0) =~= seq![h] + s);
    } else {
        assert(lex_le(h.created_at@, s[0].created_at@));
        let rest = s.drop_first();
        assert(forall|j: int| 0 <= j < p - 1 ==> rest[j] == s[j + 1]);
        assert(forall|j: int|
            0 <= j < p - 1 ==> lex_le(h.created_at@, (#[trigger] rest[j]).created_at@));
        lemma_insert_hit_at(h, rest, p - 1);
        assert(seq![s[0]] + (rest.take(p - 1) + seq![h] + rest.skip(p - 1)) =~= s.take(p) + seq![h]
            + s.skip(p));
    }
}

/// The position where a hit with timestamp `h.created_at` is inserted: just
/// past the hits whose timestamp is at least it.
fn hit_insert_pos(out: &Vec<RawHit>, h: &RawHit) -> (p: usize)
    ensures
        p <= out@.len(),
        forall|j: int| 0 <= j < p ==> lex_le(h.created_at@, (#[trigger] out@[j]).created_at@),
        p < out@.len() ==> !lex_le(h.created_at@, out@[p as int].created_at@),
{
    let hd = crate::text::string_to_chars(&h.created_at);
    let m = out.len();
    let mut p: usize = 0;
    while p < m
        invariant
            p <= m,
            m == out@.len(),
            hd@ == h.created_at@,
            forall|j: int| 0 <= j < p ==> lex_le(h.created_at@, (#[trigger] out@[j]).created_at@),
        decreases m - p,
    {
        let cd = crate::text::string_to_chars(&out[p].created_at);
        if !lex_le_chars(&hd, &cd) {
            return p;
        }
        p += 1;
    }
    p
}

/// Sorts hits by timestamp, newest first, keeping input order among equal
/// timestamps.
pub fn sort_hits(v: Vec<RawHit>) -> (out: Vec<RawHit>)
    ensures
        out@ == sort_hits_desc(v@),
{
    let n = v.len();
    let mut out: Vec<RawHit> = Vec::new();
    proof {
        assert(v@.take(0) =~= Seq::<RawHit>::empty());
        assert(out@ =~= sort_hits_desc(v@.take(0)));
    }
    let mut i: usize = 0;
    while i < n
        invariant
            i <= n,
            n == v@.len(),
            out@ == sort_hits_desc(v@.take(i as int)),
        decreases n - i,
    {
        let h = v[i].clone();
        let p = hit_insert_pos(&out, &h);
        let ghost before = out@;
        out.insert(p, h);
        proof {
            lemma_insert_hit_at(h, before, p as int);
            assert(out@ =~= before.take(p as int) + seq![h] + before.skip(p as int));
            assert(v@.take(i + 1).drop_last() =~= v@.take(i as int));
            assert(v@.take(i + 1).last() == v@[i as int]);
            assert(h == v@[i as int]);
            assert(out@ =~= sort_hits_desc(v@.take(i + 1)));
        }
        i += 1;
    }
    proof {
        assert(v@.take(n as int) =~= v@);
    }
    out
}

// ---------------------------------------------------------------------------
// Sorting context messages by id (ascending, stable)
// ---------------------------------------------------------------------------

/// Inserts `m` after every message whose id is at most `m`'s: a stable
/// ascending insertion.
pub open spec fn insert_msg_asc(m: ArchiveMessage, s: Seq<ArchiveMessage>) -> Seq<ArchiveMessage>
    decreases s.len(),
{
    if s.len() > 0 && s[0].id <= m.id {
        seq![s[0]] + insert_msg_asc(m, s.drop_first())
    } else {
        seq![m] + s
    }
}

/// The messages sorted by id, smallest first, ties keeping input order.
pub open spec fn sort_msgs_asc(s: Seq<ArchiveMessage>) -> Seq<ArchiveMessage>
    decreases s.len(),
{
    if s.len() == 0 {
        Seq::<ArchiveMessage>::empty()
    } else {
        insert_msg_asc(s.last(), sort_msgs_asc(s.drop_last()))
    }
}

proof fn lemma_insert_msg_at(m: ArchiveMessage, s: Seq<ArchiveMessage>, p: int)
    requires
        0 <= p <= s.len(),
        forall|j: int| 0 <= j < p ==> (#[trigger] s[j]).id <= m.id,
        p < s.len() ==> s[p].id > m.id,
    ensures
        insert_msg_asc(m, s) == s.take(p) + seq![m] + s.skip(p),
    decreases p,
{
    if p == 0 {
        assert(insert_msg_asc(m, s) == seq![m] + s);
        assert(s.take(0) + seq![m] + s.skip(0) =~= seq![m] + s);
    } else {
        let rest = s.drop_first();
        assert(forall|j: int| 0 <= j < p - 1 ==> rest[j] == s[j + 1]);
        assert(forall|j: int| 0 <= j < p - 1 ==> (#[trigger] rest[j]).id <= m.id);
        lemma_insert_msg_at(m, rest, p - 1);
        assert(seq![s[0]] + (rest.take(p - 1) + seq![m] + rest.skip(p - 1)) =~= s.take(p) + seq![m]
            + s.skip(p));
    }
}

/// Sorts messages by id ascending, keeping input order among equal ids.
pub fn sort_msgs(v: Vec<ArchiveMessage>) -> (out: Vec<ArchiveMessage>)
    ensures
        out@ == sort_msgs_asc(v@),
{
    let n = v.len();
    let mut out: Vec<ArchiveMessage> = Vec::new();
    proof {
        assert(v@.take(0) =~= Seq::<ArchiveMessage>::empty());
        assert(out@ =~= sort_msgs_asc(v@.take(0)));
    }
    let mut i: usize = 0;
    while i < n
        invariant
            i <= n,
            n == v@.len(),
            out@ == sort_msgs_asc(v@.take(i as int)),
        decreases n - i,
    {
        let m0 = v[i].clone();
        let mlen = out.len();
        let mut p: usize = 0;
        while p < mlen && out[p].id <= m0.id
            invariant
                p <= mlen,
                mlen == out@.len(),
                forall|j: int| 0 <= j < p ==> (#[trigger] out@[j]).id <= m0.id,
            decreases mlen - p,
        {
            p += 1;
        }
        let ghost before = out@;
        out.insert(p, m0);
        proof {
            lemma_insert_msg_at(m0, before, p as int);
            assert(out@ =~= before.take(p as int) + seq![m0] + before.skip(p as int));
            assert(v@.take(i + 1).drop_last() =~= v@.take(i as int));
            assert(v@.take(i + 1).last() == v@[i as int]);
            assert(m0 == v@[i as int]);
            assert(out@ =~= sort_msgs_asc(v@.take(i + 1)));
        }
        i += 1;
    }
    proof {
        assert(v@.take(n as int) =~= v@);
    }
    out
}


// ---------------------------------------------------------------------------
// Conversation titles
// ---------------------------------------------------------------------------

/// The title of the first conversation with the given id.
pub open spec fn conv_title(cs: Seq<ArchiveConversation>, id: i64) -> Option<Seq<char>>
    decreases cs.len(),
{
    if cs.len() == 0 {
        None
    } else if cs[0].id == id {
        Some(cs[0].title@)
    } else {
        conv_title(cs.drop_first(), id)
    }
}

/// Looks up the title of a conversation.
pub fn find_conv_title(cs: &Vec<ArchiveConversation>, id: i64) -> (r: Option<String>)
    ensures
        match r {
            Some(t) => conv_title(cs@, id) == Some(t@),
            None => conv_title(cs@, id) is None,
        },
{
    let n = cs.len();
    proof {
        assert(cs@.subrange(0, n as int) =~= cs@);
    }
    let mut k: usize = 0;
    while k < n
        invariant
            k <= n,
            n == cs@.len(),
            conv_title(cs@, id) == conv_title(cs@.subrange(k as int, n as int), id),
        decreases n - k,
    {
        let ghost rest = cs@.subrange(k as int, n as int);
        proof {
            assert(rest[0] == cs@[k as int]);
            assert(rest.drop_first() =~= cs@.subrange(k + 1, n as int));
        }
        if cs[k].id == id {
            return Some(cs[k].title.clone());
        }
        k += 1;
    }
    None
}

// ---------------------------------------------------------------------------
// The notes stage
// ---------------------------------------------------------------------------

/// The result a note yields when it matches: a note matches when its content
/// or its conversation's title contains the query; a note whose conversation
/// is missing yields nothing.
pub open spec fn note_result(
    file: Seq<char>,
    cs: Seq<ArchiveConversation>,
    n: ArchiveNote,
    q: Seq<char>,
) -> Option<SearchResultView> {
    match conv_title(cs, n.conversation_id) {
        Some(title) => if contains_seq(n.content@, q) || contains_seq(title, q) {
            Some(
                SearchResultView {
                    title: "[Local: "@ + file + "] NOTE: "@ + title,
                    url: "local://"@ + file + "/notes/"@ + title,
                    content: "(Summary updated: "@ + n.updated_at@ + ") "@ + n.content@,
                    engine: "LocalDB"@,
                },
            )
        } else {
            None
        },
        None => None,
    }
}

/// The results of all matching notes, in archive order.
pub open spec fn notes_results(
    file: Seq<char>,
    cs: Seq<ArchiveConversation>,
    ns: Seq<ArchiveNote>,
    q: Seq<char>,
) -> Seq<SearchResultView>
    decreases ns.len(),
{
    if ns.len() == 0 {
        Seq::<SearchResultView>::empty()
    } else {
        let pre = notes_results(file, cs, ns.drop_last(), q);
        match note_result(file, cs, ns.last(), q) {
            Some(r) => pre.push(r),
            None => pre,
        }
    }
}

/// The notes stage keeps at most three matching notes.
pub open spec fn notes_stage_spec(
    file: Seq<char>,
    cs: Seq<ArchiveConversation>,
    ns: Seq<ArchiveNote>,
    q: Seq<char>,
) -> Seq<SearchResultView> {
    let all = notes_results(file, cs, ns, q);
    if all.len() <= 3 {
        all
    } else {
        all.take(3)
    }
}

/// Builds one note's result.
fn build_note_result(file: &Vec<char>, title: &String, n: &ArchiveNote) -> (r: SearchResult)
    ensures
        r@ == (SearchResultView {
            title: "[Local: "@ + file@ + "] NOTE: "@ + title@,
            url: "local://"@ + file@ + "/notes/"@ + title@,
            content: "(Summary updated: "@ + n.updated_at@ + ") "@ + n.content@,
            engine: "LocalDB"@,
        }),
{
    let title_chars = crate::text::string_to_chars(title);
    let mut t: Vec<char> = Vec::new();
    crate::text::append_str(&mut t, "[Local: ");
    crate::text::append_chars(&mut t, file);
    crate::text::append_str(&mut t, "] NOTE: ");
    crate::text::append_chars(&mut t, &title_chars);
    let mut u: Vec<char> = Vec::new();
    crate::text::append_str(&mut u, "local://");
    crate::text::append_chars(&mut u, file);
    crate::text::append_str(&mut u, "/notes/");
    crate::text::append_chars(&mut u, &title_chars);
    let mut c: Vec<char> = Vec::new();
    crate::text::append_str(&mut c, "(Summary updated: ");
    let upd = crate::text::string_to_chars(&n.updated_at);
    crate::text::append_chars(&mut c, &upd);
    crate::text::append_str(&mut c, ") ");
    let body = crate::text::string_to_chars(&n.content);
    crate::text::append_chars(&mut c, &body);
    SearchResult {
        title: crate::text::chars_to_string(&t),
        url: crate::text::chars_to_string(&u),
        content: crate::text::chars_to_string(&c),
        engine: String::from_str("LocalDB"),
    }
}

/// The notes stage: at most three notes whose content or conversation title
/// contains the query, shaped as pre-summarized results.
pub fn notes_stage(a: &Archive, query: &str) -> (out: Vec<SearchResult>)
    ensures
        out.deep_view() == notes_stage_spec(a.filename@, a.conversations@, a.notes@, query@),
{
    let file = crate::text::string_to_chars(&a.filename);
    let q = crate::text::str_to_chars(query);
    let n = a.notes.len();
    let mut out: Vec<SearchResult> = Vec::new();
    proof {
        assert(a.notes@.take(0) =~= Seq::<ArchiveNote>::empty());
        assert(out.deep_view() =~= notes_results(a.filename@, a.conversations@, a.notes@.take(0), query@));
    }
    let mut k: usize = 0;
    while k < n
        invariant
            k <= n,
            n == a.notes@.len(),
            file@ == a.filename@,
            q@ == query@,
            out.deep_view() == notes_results(
                a.filename@,
                a.conversations@,
                a.notes@.take(k as int),
                query@,
            ),
        decreases n - k,
    {
        proof {
            assert(a.notes@.take(k + 1).drop_last() =~= a.notes@.take(k as int));
            assert(a.notes@.take(k + 1).last() == a.notes@[k as int]);
        }
        let note = &a.notes[k];
        match find_conv_title(&a.conversations, note.conversation_id) {
            Some(title) => {
                let body = crate::text::string_to_chars(&note.content);
                let title_chars = crate::text::string_to_chars(&title);
                if crate::text::contains_chars(&body, &q) || crate::text::contains_chars(
                    &title_chars,
                    &q,
                ) {
                    let r = build_note_result(&file, &title, note);
                    let ghost old_out = out;
                    out.push(r);
                    proof {
                        assert(out.deep_view() =~~= old_out.deep_view().push(
                            note_result(
                                a.filename@,
                                a.conversations@,
                                a.notes@[k as int],
                                query@,
                            ).unwrap(),
                        ));
                    }
                }
            },
            None => {
            },
        }
        k += 1;
    }
    proof {
        assert(a.notes@.take(n as int) =~= a.notes@);
    }
    if out.len() > 3 {
        let ghost before = out@;
        out.truncate(3);
        proof {
            assert(out.deep_view() =~~= notes_stage_spec(
                a.filename@,
                a.conversations@,
                a.notes@,
                query@,
            ));
        }
    }
    proof {
        assert(out.deep_view() =~~= notes_stage_spec(a.filename@, a.conversations@, a.notes@, query@));
    }
    out
}

// ---------------------------------------------------------------------------
// The message stage: raw hits
// ---------------------------------------------------------------------------

/// The hit a message contributes.
pub open spec fn hit_of(m: ArchiveMessage) -> RawHit {
    RawHit { id: m.id, conversation_id: m.conversation_id, created_at: m.created_at }
}

/// The hits of all messages whose content contains the query, in archive
/// order.
pub open spec fn matching_hits(ms: Seq<ArchiveMessage>, q: Seq<char>) -> Seq<RawHit>
    decreases ms.len(),
{
    if ms.len() == 0 {
        Seq::<RawHit>::empty()
    } else {
        let pre = matching_hits(ms.drop_last(), q);
        if contains_seq(ms.last().content@, q) {
            pre.push(hit_of(ms.last()))
        } else {
            pre
        }
    }
}

/// Hits ordered newest first and capped at one hundred, whatever matching
/// produced them.
pub open spec fn capped_hits(hits: Seq<RawHit>) -> Seq<RawHit> {
    let sorted = sort_hits_desc(hits);
    if sorted.len() <= 100 {
        sorted
    } else {
        sorted.take(100)
    }
}

/// The substring message stage's raw hits: matching messages ordered newest
/// first, capped at one hundred before diversity filtering.
pub open spec fn raw_hits_spec(ms: Seq<ArchiveMessage>, q: Seq<char>) -> Seq<RawHit> {
    capped_hits(matching_hits(ms, q))
}

/// Orders hits newest first and caps them at one hundred.
pub fn rank_hits(hits: Vec<RawHit>) -> (out: Vec<RawHit>)
    ensures
        out@ == capped_hits(hits@),
{
    let mut sorted = sort_hits(hits);
    if sorted.len() > 100 {
        sorted.truncate(100);
    }
    sorted
}

/// Collects the raw full-text hits of an archive's messages.
pub fn raw_hits(a: &Archive, query: &str) -> (out: Vec<RawHit>)
    ensures
        out@ == raw_hits_spec(a.messages@, query@),
{
    let q = crate::text::str_to_chars(query);
    let n = a.messages.len();
    let mut matches: Vec<RawHit> = Vec::new();
    proof {
        assert(a.messages@.take(0) =~= Seq::<ArchiveMessage>::empty());
        assert(matches@ =~= matching_hits(a.messages@.take(0), query@));
    }
    let mut k: usize = 0;
    while k < n
        invariant
            k <= n,
            n == a.messages@.len(),
            q@ == query@,
            matches@ == matching_hits(a.messages@.take(k as int), query@),
        decreases n - k,
    {
        proof {
            assert(a.messages@.take(k + 1).drop_last() =~= a.messages@.take(k as int));
            assert(a.messages@.take(k + 1).last() == a.messages@[k as int]);
        }
        let m = &a.messages[k];
        let body = crate::text::string_to_chars(&m.content);
        if crate::text::contains_chars(&body, &q) {
            let hit = RawHit {
                id: m.id,
                conversation_id: m.conversation_id,
                created_at: m.created_at.clone(),
            };
            matches.push(hit);
        }
        k += 1;
    }
    proof {
        assert(a.messages@.take(n as int) =~= a.messages@);
    }
    rank_hits(matches)
}

// ---------------------------------------------------------------------------
// The diversity filter
// ---------------------------------------------------------------------------

/// The conversation ids of a hit list, in order.
pub open spec fn conv_ids_of(s: Seq<RawHit>) -> Seq<i64> {
    s.map_values(|h: RawHit| h.conversation_id)
}

/// `s` with every hit whose conversation already produced an earlier hit
/// removed: at most one hit per conversation survives, the first seen.
pub open spec fn diversify_spec(s: Seq<RawHit>) -> Seq<RawHit>
    decreases s.len(),
{
    if s.len() == 0 {
        Seq::<RawHit>::empty()
    } else {
        let pre = diversify_spec(s.drop_last());
        if conv_ids_of(s.drop_last()).contains(s.last().conversation_id) {
            pre
        } else {
            pre.push(s.last())
        }
    }
}

/// Scans a list of already-seen conversation ids.
fn conv_seen(seen: &Vec<i64>, id: i64) -> (b: bool)
    ensures
        b == seen@.contains(id),
{
    let n = seen.len();
    let mut k: usize = 0;
    while k < n
        invariant
            k <= n,
            n == seen@.len(),
            forall|j: int| 0 <= j < k ==> seen@[j] != id,
        decreases n - k,
    {
        if seen[k] == id {
            return true;
        }
        k += 1;
    }
    false
}

/// Keeps at most one hit per conversation: the first in recency order.
pub fn diversify(hits: &Vec<RawHit>) -> (out: Vec<RawHit>)
    ensures
        out@ == diversify_spec(hits@),
{
    let n = hits.len();
    let mut out: Vec<RawHit> = Vec::new();
    let mut seen: Vec<i64> = Vec::new();
    proof {
        assert(hits@.take(0) =~= Seq::<RawHit>::empty());
        assert(out@ =~= diversify_spec(hits@.take(0)));
        assert(seen@ =~= conv_ids_of(hits@.take(0)));
    }
    let mut i: usize = 0;
    while i < n
        invariant
            i <= n,
            n == hits@.len(),
            out@ == diversify_spec(hits@.take(i as int)),
            seen@ == conv_ids_of(hits@.take(i as int)),
        decreases n - i,
    {
        proof {
            assert(hits@.take(i + 1).drop_last() =~= hits@.take(i as int));
            assert(hits@.take(i + 1).last() == hits@[i as int]);
        }
        let id = hits[i].conversation_id;
        if !conv_seen(&seen, id) {
            out.push(hits[i].clone());
        }
        seen.push(id);
        proof {
            assert(seen@ =~= conv_ids_of(hits@.take(i + 1)));
        }
        i += 1;
    }
    proof {
        assert(hits@.take(n as int) =~= hits@);
    }
    out
}

// ---------------------------------------------------------------------------
// Laws of the diversity filter
// ---------------------------------------------------------------------------

/// Law: every survivor of the diversity filter is the first hit of its
/// conversation in the input order.
pub proof fn lemma_diversify_first_occurrences(s: Seq<RawHit>)
    ensures
        forall|k: int| 0 <= k < diversify_spec(s).len() ==> exists|j: int|
            0 <= j < s.len() && #[trigger] diversify_spec(s)[k] == s[j] && (forall|j2: int|
                0 <= j2 < j ==> s[j2].conversation_id != s[j].conversation_id),
    decreases s.len(),
{
    if s.len() == 0 {
    } else {
        let dl = s.drop_last();
        let pre = diversify_spec(dl);
        lemma_diversify_first_occurrences(dl);
        assert forall|k: int| 0 <= k < diversify_spec(s).len() implies exists|j: int|
            0 <= j < s.len() && #[trigger] diversify_spec(s)[k] == s[j] && (forall|j2: int|
                0 <= j2 < j ==> s[j2].conversation_id != s[j].conversation_id) by {
            if k < pre.len() {
                let j = choose|j: int|
                    0 <= j < dl.len() && pre[k] == dl[j] && (forall|j2: int|
                        0 <= j2 < j ==> dl[j2].conversation_id != dl[j].conversation_id);
                assert(s[j] == dl[j]);
                assert(forall|j2: int| 0 <= j2 < j ==> s[j2] == dl[j2]);
                assert(diversify_spec(s)[k] == pre[k]);
                assert(diversify_spec(s)[k] == s[j] && (forall|j2: int|
                    0 <= j2 < j ==> s[j2].conversation_id != s[j].conversation_id));
            } else {
                let j = s.len() - 1;
                assert(!conv_ids_of(dl).contains(s.last().conversation_id));
                assert(diversify_spec(s)[k] == s[j]);
                assert forall|j2: int| 0 <= j2 < j implies s[j2].conversation_id
                    != s[j].conversation_id by {
                    assert(conv_ids_of(dl)[j2] == dl[j2].conversation_id);
                }
            }
        }
    }
}

/// Law: after the diversity filter no two hits share a conversation.
pub proof fn lemma_diversify_distinct(s: Seq<RawHit>)
    ensures
        forall|k1: int, k2: int|
            0 <= k1 < k2 < diversify_spec(s).len() ==> diversify_spec(s)[k1].conversation_id
                != diversify_spec(s)[k2].conversation_id,
    decreases s.len(),
{
    if s.len() == 0 {
    } else {
        let dl = s.drop_last();
        let pre = diversify_spec(dl);
        lemma_diversify_distinct(dl);
        lemma_diversify_first_occurrences(dl);
        assert forall|k1: int, k2: int|
            0 <= k1 < k2 < diversify_spec(s).len() implies diversify_spec(s)[k1].conversation_id
            != diversify_spec(s)[k2].conversation_id by {
            if k2 < pre.len() {
            } else {
                assert(!conv_ids_of(dl).contains(s.last().conversation_id));
                let j = choose|j: int|
                    0 <= j < dl.len() && pre[k1] == dl[j] && (forall|j2: int|
                        0 <= j2 < j ==> dl[j2].conversation_id != dl[j].conversation_id);
                assert(conv_ids_of(dl)[j] == dl[j].conversation_id);
                assert(pre[k1].conversation_id != s.last().conversation_id);
            }
        }
    }
}

/// Law: the diversity filter drops no conversation — every conversation with
/// a hit in the input keeps exactly its first hit in the output.
pub proof fn lemma_diversify_complete(s: Seq<RawHit>)
    ensures
        forall|c: i64|
            conv_ids_of(s).contains(c) ==> conv_ids_of(#[trigger] diversify_spec(s)).contains(c),
    decreases s.len(),
{
    if s.len() == 0 {
    } else {
        let dl = s.drop_last();
        let pre = diversify_spec(dl);
        lemma_diversify_complete(dl);
        assert forall|c: i64|
            conv_ids_of(s).contains(c) implies conv_ids_of(
            #[trigger] diversify_spec(s),
        ).contains(c) by {
            let idx = choose|idx: int| 0 <= idx < conv_ids_of(s).len() && conv_ids_of(s)[idx] == c;
            assert(conv_ids_of(s)[idx] == s[idx].conversation_id);
            if conv_ids_of(dl).contains(c) {
                assert(conv_ids_of(pre).contains(c));
                let k = choose|k: int| 0 <= k < conv_ids_of(pre).len() && conv_ids_of(pre)[k] == c;
                if !conv_ids_of(dl).contains(s.last().conversation_id) {
                    assert(diversify_spec(s) == pre.push(s.last()));
                    assert(conv_ids_of(diversify_spec(s))[k] == c);
                } else {
                    assert(diversify_spec(s) == pre);
                }
            } else {
                if idx < s.len() - 1 {
                    assert(dl[idx] == s[idx]);
                    assert(conv_ids_of(dl)[idx] == c);
                    assert(false);
                }
                assert(c == s.last().conversation_id);
                assert(diversify_spec(s) == pre.push(s.last()));
                assert(conv_ids_of(diversify_spec(s))[pre.len() as int] == c);
            }
        }
    }
}


// ---------------------------------------------------------------------------
// The context window
// ---------------------------------------------------------------------------

/// A message belongs to the context window of a hit when it sits in the same
/// conversation and its id is within three of the hit's id.
pub open spec fn in_window(m: ArchiveMessage, c: i64, h: i64) -> bool {
    m.conversation_id == c && h as int - 3 <= m.id as int <= h as int + 3
}

/// The window's messages in archive order, before ordering by id.
pub open spec fn window_msgs(ms: Seq<ArchiveMessage>, c: i64, h: i64) -> Seq<ArchiveMessage>
    decreases ms.len(),
{
    if ms.len() == 0 {
        Seq::<ArchiveMessage>::empty()
    } else {
        let pre = window_msgs(ms.drop_last(), c, h);
        if in_window(ms.last(), c, h) {
            pre.push(ms.last())
        } else {
            pre
        }
    }
}

/// The context window of a hit: its conversation's messages with ids within
/// three of the hit's, ordered oldest to newest.
pub open spec fn window_spec(ms: Seq<ArchiveMessage>, c: i64, h: i64) -> Seq<ArchiveMessage> {
    sort_msgs_asc(window_msgs(ms, c, h))
}

/// Expands a hit into its context window.
pub fn context_window(ms: &Vec<ArchiveMessage>, conversation_id: i64, hit_id: i64) -> (out: Vec<
    ArchiveMessage,
>)
    ensures
        out@ == window_spec(ms@, conversation_id, hit_id),
{
    let n = ms.len();
    let mut picked: Vec<ArchiveMessage> = Vec::new();
    proof {
        assert(ms@.take(0) =~= Seq::<ArchiveMessage>::empty());
        assert(picked@ =~= window_msgs(ms@.take(0), conversation_id, hit_id));
    }
    let mut k: usize = 0;
    while k < n
        invariant
            k <= n,
            n == ms@.len(),
            picked@ == window_msgs(ms@.take(k as int), conversation_id, hit_id),
        decreases n - k,
    {
        proof {
            assert(ms@.take(k + 1).drop_last() =~= ms@.take(k as int));
            assert(ms@.take(k + 1).last() == ms@[k as int]);
        }
        let m = &ms[k];
        let lo = hit_id as i128 - 3;
        let hi = hit_id as i128 + 3;
        if m.conversation_id == conversation_id && lo <= m.id as i128 && m.id as i128 <= hi {
            picked.push(m.clone());
        }
        k += 1;
    }
    proof {
        assert(ms@.take(n as int) =~= ms@);
    }
    sort_msgs(picked)
}

proof fn lemma_insert_msg_membership(m: ArchiveMessage, s: Seq<ArchiveMessage>, x: ArchiveMessage)
    ensures
        insert_msg_asc(m, s).contains(x) <==> (x == m || s.contains(x)),
    decreases s.len(),
{
    if s.len() > 0 && s[0].id <= m.id {
        let rest = s.drop_first();
        lemma_insert_msg_membership(m, rest, x);
        let ins = insert_msg_asc(m, s);
        assert(ins == seq![s[0]] + insert_msg_asc(m, rest));
        if ins.contains(x) {
            let k = choose|k: int| 0 <= k < ins.len() && ins[k] == x;
            if k == 0 {
                assert(s[0] == x);
                assert(s.contains(x));
            } else {
                assert(insert_msg_asc(m, rest)[k - 1] == x);
                assert(insert_msg_asc(m, rest).contains(x));
                if rest.contains(x) {
                    let k2 = choose|k2: int| 0 <= k2 < rest.len() && rest[k2] == x;
                    assert(s[k2 + 1] == x);
                    assert(s.contains(x));
                }
            }
        }
        if x == m || s.contains(x) {
            if x == m {
                assert(insert_msg_asc(m, rest).contains(x));
                let k = choose|k: int|
                    0 <= k < insert_msg_asc(m, rest).len() && insert_msg_asc(m, rest)[k] == x;
                assert(ins[k + 1] == x);
            } else {
                let k2 = choose|k2: int| 0 <= k2 < s.len() && s[k2] == x;
                if k2 == 0 {
                    assert(ins[0] == x);
                } else {
                    assert(rest[k2 - 1] == x);
                    assert(rest.contains(x));
                    assert(insert_msg_asc(m, rest).contains(x));
                    let k = choose|k: int|
                        0 <= k < insert_msg_asc(m, rest).len() && insert_msg_asc(m, rest)[k] == x;
                    assert(ins[k + 1] == x);
                }
            }
            assert(ins.contains(x));
        }
    } else {
        let ins = insert_msg_asc(m, s);
        assert(ins == seq![m] + s);
        if ins.contains(x) {
            let k = choose|k: int| 0 <= k < ins.len() && ins[k] == x;
            if k > 0 {
                assert(s[k - 1] == x);
                assert(s.contains(x));
            }
        }
        if x == m {
            assert(ins[0] == x);
        }
        if s.contains(x) {
            let k2 = choose|k2: int| 0 <= k2 < s.len() && s[k2] == x;
            assert(ins[k2 + 1] == x);
        }
    }
}

proof fn lemma_sort_msgs_membership(s: Seq<ArchiveMessage>, x: ArchiveMessage)
    ensures
        sort_msgs_asc(s).contains(x) <==> s.contains(x),
    decreases s.len(),
{
    if s.len() > 0 {
        let dl = s.drop_last();
        lemma_sort_msgs_membership(dl, x);
        lemma_insert_msg_membership(s.last(), sort_msgs_asc(dl), x);
        if s.contains(x) {
            let k = choose|k: int| 0 <= k < s.len() && s[k] == x;
            if k < s.len() - 1 {
                assert(dl[k] == x);
                assert(dl.contains(x));
            }
        }
        if dl.contains(x) {
            let k = choose|k: int| 0 <= k < dl.len() && dl[k] == x;
            assert(s[k] == x);
            assert(s.contains(x));
        }
    }
}

/// Law: the context window of a hit holds exactly the messages of the hit's
/// conversation whose ids lie within three of the hit's id — ids three away
/// are included, ids four away are not.
pub proof fn lemma_window_membership(ms: Seq<ArchiveMessage>, c: i64, h: i64)
    ensures
        forall|k: int|
            0 <= k < window_spec(ms, c, h).len() ==> in_window(
                #[trigger] window_spec(ms, c, h)[k],
                c,
                h,
            ),
        forall|i: int|
            0 <= i < ms.len() && in_window(#[trigger] ms[i], c, h) ==> window_spec(
                ms,
                c,
                h,
            ).contains(ms[i]),
{
    lemma_window_msgs_bounds(ms, c, h);
    assert forall|k: int| 0 <= k < window_spec(ms, c, h).len() implies in_window(
        #[trigger] window_spec(ms, c, h)[k],
        c,
        h,
    ) by {
        let w = window_msgs(ms, c, h);
        assert(window_spec(ms, c, h).contains(window_spec(ms, c, h)[k]));
        lemma_sort_msgs_membership(w, window_spec(ms, c, h)[k]);
        let j = choose|j: int| 0 <= j < w.len() && w[j] == window_spec(ms, c, h)[k];
    }
    assert forall|i: int|
        0 <= i < ms.len() && in_window(#[trigger] ms[i], c, h) implies window_spec(
        ms,
        c,
        h,
    ).contains(ms[i]) by {
        lemma_window_msgs_complete(ms, c, h, i);
        lemma_sort_msgs_membership(window_msgs(ms, c, h), ms[i]);
    }
}

proof fn lemma_window_msgs_bounds(ms: Seq<ArchiveMessage>, c: i64, h: i64)
    ensures
        forall|k: int|
            0 <= k < window_msgs(ms, c, h).len() ==> in_window(
                #[trigger] window_msgs(ms, c, h)[k],
                c,
                h,
            ),
    decreases ms.len(),
{
    if ms.len() > 0 {
        let pre = window_msgs(ms.drop_last(), c, h);
        lemma_window_msgs_bounds(ms.drop_last(), c, h);
        assert forall|k: int| 0 <= k < window_msgs(ms, c, h).len() implies in_window(
            #[trigger] window_msgs(ms, c, h)[k],
            c,
            h,
        ) by {
            if k < pre.len() {
                assert(window_msgs(ms, c, h)[k] == pre[k]);
            } else {
                assert(window_msgs(ms, c, h)[k] == ms.last());
            }
        }
    }
}

proof fn lemma_window_msgs_complete(ms: Seq<ArchiveMessage>, c: i64, h: i64, i: int)
    requires
        0 <= i < ms.len(),
        in_window(ms[i], c, h),
    ensures
        window_msgs(ms, c, h).contains(ms[i]),
    decreases ms.len(),
{
    let dl = ms.drop_last();
    if i == ms.len() - 1 {
        let w = window_msgs(ms, c, h);
        assert(w.last() == ms[i]);
        assert(w.contains(ms[i]));
    } else {
        assert(dl[i] == ms[i]);
        lemma_window_msgs_complete(dl, c, h, i);
        let k = choose|k: int|
            0 <= k < window_msgs(dl, c, h).len() && window_msgs(dl, c, h)[k] == ms[i];
        assert(window_msgs(ms, c, h)[k] == ms[i]);
    }
}

// ---------------------------------------------------------------------------
// Transcripts and expanded results
// ---------------------------------------------------------------------------

/// One transcript line: the timestamp in parentheses, the uppercased role,
/// and the message text.
pub open spec fn line_of(m: ArchiveMessage) -> Seq<char> {
    seq!['('] + m.created_at@ + ") "@ + upper_of(m.role@) + ": "@ + m.content@
}

/// The transcript: the window's lines joined by blank lines.
pub open spec fn transcript_of(ms: Seq<ArchiveMessage>) -> Seq<char>
    decreases ms.len(),
{
    if ms.len() == 0 {
        Seq::<char>::empty()
    } else if ms.len() == 1 {
        line_of(ms[0])
    } else {
        transcript_of(ms.drop_last()) + "\n\n"@ + line_of(ms.last())
    }
}

/// Appends one transcript line.
fn push_line(out: &mut Vec<char>, m: &ArchiveMessage)
    ensures
        final(out)@ == old(out)@ + line_of(*m),
{
    out.push('(');
    let date = crate::text::string_to_chars(&m.created_at);
    crate::text::append_chars(out, &date);
    crate::text::append_str(out, ") ");
    let role_up = crate::text::uppercase(m.role.as_str());
    let role_chars = crate::text::string_to_chars(&role_up);
    crate::text::append_chars(out, &role_chars);
    crate::text::append_str(out, ": ");
    let body = crate::text::string_to_chars(&m.content);
    crate::text::append_chars(out, &body);
    proof {
        assert(out@ =~= old(out)@ + line_of(*m));
    }
}

/// Formats a context window as one transcript block, one line per message,
/// blank lines between.
pub fn format_transcript(ms: &Vec<ArchiveMessage>) -> (r: String)
    ensures
        r@ == transcript_of(ms@),
{
    let n = ms.len();
    let mut out: Vec<char> = Vec::new();
    proof {
        assert(ms@.take(0) =~= Seq::<ArchiveMessage>::empty());
        assert(out@ =~= transcript_of(ms@.take(0)));
    }
    let mut k: usize = 0;
    while k < n
        invariant
            k <= n,
            n == ms@.len(),
            out@ == transcript_of(ms@.take(k as int)),
        decreases n - k,
    {
        proof {
            assert(ms@.take(k + 1).drop_last() =~= ms@.take(k as int));
            assert(ms@.take(k + 1).last() == ms@[k as int]);
            assert(ms@.take(k + 1)[0] == ms@[0]);
        }
        if k > 0 {
            crate::text::append_str(&mut out, "\n\n");
        }
        push_line(&mut out, &ms[k]);
        proof {
            assert(out@ =~= transcript_of(ms@.take(k + 1)));
        }
        k += 1;
    }
    proof {
        assert(ms@.take(n as int) =~= ms@);
    }
    crate::text::chars_to_string(&out)
}

/// The result one surviving hit expands to: the conversation's title (or a
/// plain placeholder), a synthetic locator naming the archive file, the
/// conversation and the message id, and the window's transcript.
pub open spec fn hit_result(
    file: Seq<char>,
    cs: Seq<ArchiveConversation>,
    ms: Seq<ArchiveMessage>,
    hit: RawHit,
) -> SearchResultView {
    let title = match conv_title(cs, hit.conversation_id) {
        Some(t) => t,
        None => "Chat"@,
    };
    SearchResultView {
        title: "[Local: "@ + file + "] Chat: "@ + title,
        url: "local://"@ + file + "/chat/"@ + title + seq!['/'] + int_str(hit.id as int),
        content: transcript_of(window_spec(ms, hit.conversation_id, hit.id)),
        engine: "LocalDB"@,
    }
}

/// The expanded results of the surviving hits, in order.
pub open spec fn hits_results(
    file: Seq<char>,
    cs: Seq<ArchiveConversation>,
    ms: Seq<ArchiveMessage>,
    hits: Seq<RawHit>,
) -> Seq<SearchResultView>
    decreases hits.len(),
{
    if hits.len() == 0 {
        Seq::<SearchResultView>::empty()
    } else {
        hits_results(file, cs, ms, hits.drop_last()).push(
            hit_result(file, cs, ms, hits.last()),
        )
    }
}

/// Expands each surviving hit into a transcript-backed result.
pub fn expand_hits(a: &Archive, hits: &Vec<RawHit>) -> (out: Vec<SearchResult>)
    ensures
        out.deep_view() == hits_results(a.filename@, a.conversations@, a.messages@, hits@),
{
    let file = crate::text::string_to_chars(&a.filename);
    let n = hits.len();
    let mut out: Vec<SearchResult> = Vec::new();
    proof {
        assert(hits@.take(0) =~= Seq::<RawHit>::empty());
        assert(out.deep_view() =~= hits_results(
            a.filename@,
            a.conversations@,
            a.messages@,
            hits@.take(0),
        ));
    }
    let mut k: usize = 0;
    while k < n
        invariant
            k <= n,
            n == hits@.len(),
            file@ == a.filename@,
            out.deep_view() == hits_results(
                a.filename@,
                a.conversations@,
                a.messages@,
                hits@.take(k as int),
            ),
        decreases n - k,
    {
        proof {
            assert(hits@.take(k + 1).drop_last() =~= hits@.take(k as int));
            assert(hits@.take(k + 1).last() == hits@[k as int]);
        }
        let hit = &hits[k];
        let title = match find_conv_title(&a.conversations, hit.conversation_id) {
            Some(t) => t,
            None => String::from_str("Chat"),
        };
        let title_chars = crate::text::string_to_chars(&title);
        let mut t: Vec<char> = Vec::new();
        crate::text::append_str(&mut t, "[Local: ");
        crate::text::append_chars(&mut t, &file);
        crate::text::append_str(&mut t, "] Chat: ");
        crate::text::append_chars(&mut t, &title_chars);
        let mut u: Vec<char> = Vec::new();
        crate::text::append_str(&mut u, "local://");
        crate::text::append_chars(&mut u, &file);
        crate::text::append_str(&mut u, "/chat/");
        crate::text::append_chars(&mut u, &title_chars);
        u.push('/');
        let id_chars = crate::text::i64_to_chars(hit.id);
        crate::text::append_chars(&mut u, &id_chars);
        let window = context_window(&a.messages, hit.conversation_id, hit.id);
        let transcript = format_transcript(&window);
        let r = SearchResult {
            title: crate::text::chars_to_string(&t),
            url: crate::text::chars_to_string(&u),
            content: transcript,
            engine: String::from_str("LocalDB"),
        };
        let ghost old_out = out;
        out.push(r);
        proof {
            assert(out.deep_view() =~~= old_out.deep_view().push(
                hit_result(a.filename@, a.conversations@, a.messages@, hits@[k as int]),
            ));
        }
        k += 1;
    }
    proof {
        assert(hits@.take(n as int) =~= hits@);
    }
    out
}

// ---------------------------------------------------------------------------
// Searching one archive, and all of them
// ---------------------------------------------------------------------------

/// One archive together with what its full-text index answered: `Some` hits
/// when the archive carries an index (the application ran the token match
/// against it), `None` when it does not, in which case the messages are
/// matched here by substring containment.
pub struct ArchiveScan {
    pub archive: Archive,
    pub index_hits: Option<Vec<RawHit>>,
}

/// The raw hits a scan starts from: the index's answer when there is one,
/// substring matches otherwise.
pub open spec fn scan_hits(s: ArchiveScan, q: Seq<char>) -> Seq<RawHit> {
    match s.index_hits {
        Some(h) => h@,
        None => matching_hits(s.archive.messages@, q),
    }
}

/// What the message stage makes of a batch of raw hits: newest first, capped
/// at one hundred, at most one per conversation, each expanded into its
/// context window.
pub open spec fn message_stage_spec(a: Archive, hits: Seq<RawHit>) -> Seq<SearchResultView> {
    hits_results(a.filename@, a.conversations@, a.messages@, diversify_spec(capped_hits(hits)))
}

/// Runs the message stage on a batch of raw hits, wherever they came from.
pub fn process_hits(a: &Archive, hits: Vec<RawHit>) -> (out: Vec<SearchResult>)
    ensures
        out.deep_view() == message_stage_spec(*a, hits@),
{
    let ranked = rank_hits(hits);
    let diverse = diversify(&ranked);
    expand_hits(a, &diverse)
}

/// What searching one archive by substring containment yields: the notes
/// stage first, then the message stage over the substring matches.
pub open spec fn archive_results_spec(a: Archive, q: Seq<char>) -> Seq<SearchResultView> {
    notes_stage_spec(a.filename@, a.conversations@, a.notes@, q) + message_stage_spec(
        a,
        matching_hits(a.messages@, q),
    )
}

/// Searches one archive without an index: matching notes first, then at most
/// one expanded message hit per conversation, newest first.
pub fn search_archive(a: &Archive, query: &str) -> (out: Vec<SearchResult>)
    ensures
        out.deep_view() == archive_results_spec(*a, query@),
{
    let mut out = notes_stage(a, query);
    let hits = raw_hits(a, query);
    let diverse = diversify(&hits);
    let expanded = expand_hits(a, &diverse);
    append_results_arch(&mut out, &expanded);
    proof {
        assert(out.deep_view() =~~= archive_results_spec(*a, query@));
    }
    out
}

/// What searching one scan yields: the notes stage, then the message stage
/// over the scan's hits — the index's answer, or the substring matches.
pub open spec fn scan_results_spec(s: ArchiveScan, q: Seq<char>) -> Seq<SearchResultView> {
    notes_stage_spec(s.archive.filename@, s.archive.conversations@, s.archive.notes@, q)
        + message_stage_spec(s.archive, scan_hits(s, q))
}

/// Copies a batch of hits.
fn clone_hits(hits: &Vec<RawHit>) -> (out: Vec<RawHit>)
    ensures
        out@ == hits@,
{
    let n = hits.len();
    let mut out: Vec<RawHit> = Vec::new();
    let mut k: usize = 0;
    while k < n
        invariant
            k <= n,
            n == hits@.len(),
            out@ == hits@.take(k as int),
        decreases n - k,
    {
        out.push(hits[k].clone());
        proof {
            assert(hits@.take(k + 1) =~= hits@.take(k as int).push(hits@[k as int]));
        }
        k += 1;
    }
    proof {
        assert(hits@.take(n as int) =~= hits@);
    }
    out
}

/// Searches one scan: the notes stage, then the message stage over the
/// index's hits when the archive has an index, over substring matches
/// otherwise.
pub fn search_scan(s: &ArchiveScan, query: &str) -> (out: Vec<SearchResult>)
    ensures
        out.deep_view() == scan_results_spec(*s, query@),
{
    let mut out = notes_stage(&s.archive, query);
    let hits = match &s.index_hits {
        Some(h) => clone_hits(h),
        None => {
            let collected = raw_hits(&s.archive, query);
            let diverse = diversify(&collected);
            let expanded = expand_hits(&s.archive, &diverse);
            append_results_arch(&mut out, &expanded);
            proof {
                assert(out.deep_view() =~~= scan_results_spec(*s, query@));
            }
            return out;
        },
    };
    let expanded = process_hits(&s.archive, hits);
    append_results_arch(&mut out, &expanded);
    proof {
        assert(out.deep_view() =~~= scan_results_spec(*s, query@));
    }
    out
}

/// Appends copies of all results of `src` to `dst`.
fn append_results_arch(dst: &mut Vec<SearchResult>, src: &Vec<SearchResult>)
    ensures
        final(dst)@ == old(dst)@ + src@,
{
    crate::search::append_results(dst, src);
}

/// What searching all scans yields, file by file in discovery order.
pub open spec fn archives_results_spec(scans: Seq<ArchiveScan>, q: Seq<char>) -> Seq<
    SearchResultView,
>
    decreases scans.len(),
{
    if scans.len() == 0 {
        Seq::<SearchResultView>::empty()
    } else {
        archives_results_spec(scans.drop_last(), q) + scan_results_spec(scans.last(), q)
    }
}

/// Searches every archive, in the order the application discovered them; an
/// archive that could not be opened is simply not in the list.
pub fn search_archives(scans: &Vec<ArchiveScan>, query: &str) -> (out: Vec<SearchResult>)
    ensures
        out.deep_view() == archives_results_spec(scans@, query@),
{
    let n = scans.len();
    let mut out: Vec<SearchResult> = Vec::new();
    proof {
        assert(scans@.take(0) =~= Seq::<ArchiveScan>::empty());
        assert(out.deep_view() =~= archives_results_spec(scans@.take(0), query@));
    }
    let mut k: usize = 0;
    while k < n
        invariant
            k <= n,
            n == scans@.len(),
            out.deep_view() == archives_results_spec(scans@.take(k as int), query@),
        decreases n - k,
    {
        proof {
            assert(scans@.take(k + 1).drop_last() =~= scans@.take(k as int));
            assert(scans@.take(k + 1).last() == scans@[k as int]);
        }
        let found = search_scan(&scans[k], query);
        append_results_arch(&mut out, &found);
        proof {
            assert(out.deep_view() =~~= archives_results_spec(scans@.take(k + 1), query@));
        }
        k += 1;
    }
    proof {
        assert(scans@.take(n as int) =~= scans@);
    }
    out
}

/// How the query is handed to a full-text index: its double quotes removed,
/// for a broader token match.
pub open spec fn fts_query_spec(q: Seq<char>) -> Seq<char> {
    crate::text::replace_all(q, seq!['"'], Seq::<char>::empty())
}

/// Strips double quotes from the query before a full-text index match.
pub fn fts_match_query(query: &str) -> (r: String)
    ensures
        r@ == fts_query_spec(query@),
{
    let q = crate::text::str_to_chars(query);
    let mut pat: Vec<char> = Vec::new();
    pat.push('"');
    let nothing: Vec<char> = Vec::new();
    proof {
        assert(pat@ =~= seq!['"']);
        assert(nothing@ =~= Seq::<char>::empty());
    }
    let out = crate::text::replace_chars(&q, &pat, &nothing);
    crate::text::chars_to_string(&out)
}


// ---------------------------------------------------------------------------
// Laws of the orderings
// ---------------------------------------------------------------------------

proof fn lemma_lex_le_total(a: Seq<char>, b: Seq<char>)
    ensures
        lex_le(a, b) || lex_le(b, a),
    decreases a.len(),
{
    if a.len() > 0 && b.len() > 0 && a[0] == b[0] {
        lemma_lex_le_total(a.drop_first(), b.drop_first());
    }
}

proof fn lemma_lex_le_trans(a: Seq<char>, b: Seq<char>, c: Seq<char>)
    requires
        lex_le(a, b),
        lex_le(b, c),
    ensures
        lex_le(a, c),
    decreases a.len(),
{
    if a.len() > 0 && c.len() > 0 {
        if b.len() > 0 {
            if a[0] == b[0] && b[0] == c[0] {
                lemma_lex_le_trans(a.drop_first(), b.drop_first(), c.drop_first());
            }
        }
    }
}

/// Hits in descending timestamp order: each later entry is no newer.
pub open spec fn hits_sorted_desc(s: Seq<RawHit>) -> bool {
    forall|i: int, j: int|
        0 <= i < j < s.len() ==> lex_le(
            (#[trigger] s[j]).created_at@,
            (#[trigger] s[i]).created_at@,
        )
}

proof fn lemma_insert_hit_sorted(h: RawHit, s: Seq<RawHit>)
    requires
        hits_sorted_desc(s),
    ensures
        hits_sorted_desc(insert_hit_desc(h, s)),
    decreases s.len(),
{
    if s.len() > 0 && lex_le(h.created_at@, s[0].created_at@) {
        let rest = s.drop_first();
        assert(forall|i: int, j: int|
            0 <= i < j < rest.len() ==> lex_le(
                (#[trigger] rest[j]).created_at@,
                (#[trigger] rest[i]).created_at@,
            ));
        lemma_insert_hit_sorted(h, rest);
        let ins = insert_hit_desc(h, s);
        let tail = insert_hit_desc(h, rest);
        assert(ins == seq![s[0]] + tail);
        assert forall|i: int, j: int|
            0 <= i < j < ins.len() implies lex_le(
            (#[trigger] ins[j]).created_at@,
            (#[trigger] ins[i]).created_at@,
        ) by {
            if i == 0 {
                let x = ins[j];
                assert(x == tail[j - 1]);
                lemma_insert_member_le(h, rest, j - 1);
                if x == h {
                    assert(lex_le(x.created_at@, s[0].created_at@));
                } else {
                    assert(rest.contains(x) ==> lex_le(x.created_at@, s[0].created_at@));
                }
            } else {
                assert(ins[i] == tail[i - 1]);
                assert(ins[j] == tail[j - 1]);
            }
        }
    } else {
        let ins = insert_hit_desc(h, s);
        assert(ins == seq![h] + s);
        if s.len() > 0 {
            lemma_lex_le_total(h.created_at@, s[0].created_at@);
        }
        assert forall|i: int, j: int|
            0 <= i < j < ins.len() implies lex_le(
            (#[trigger] ins[j]).created_at@,
            (#[trigger] ins[i]).created_at@,
        ) by {
            if i == 0 {
                assert(ins[j] == s[j - 1]);
                assert(lex_le(s[0].created_at@, h.created_at@));
                if j - 1 > 0 {
                    assert(lex_le(s[j - 1].created_at@, s[0].created_at@));
                    lemma_lex_le_trans(ins[j].created_at@, s[0].created_at@, h.created_at@);
                }
            } else {
                assert(ins[i] == s[i - 1]);
                assert(ins[j] == s[j - 1]);
            }
        }
    }
}

proof fn lemma_insert_member_le(h: RawHit, s: Seq<RawHit>, k: int)
    requires
        0 <= k < insert_hit_desc(h, s).len(),
    ensures
        insert_hit_desc(h, s)[k] == h || s.contains(insert_hit_desc(h, s)[k]),
    decreases s.len(),
{
    let ins = insert_hit_desc(h, s);
    if s.len() > 0 && lex_le(h.created_at@, s[0].created_at@) {
        if k == 0 {
            assert(s[0] == ins[0]);
            assert(s.contains(ins[0]));
        } else {
            lemma_insert_member_le(h, s.drop_first(), k - 1);
            let rest = s.drop_first();
            if insert_hit_desc(h, rest).contains(ins[k]) || rest.contains(ins[k]) {
            }
            if ins[k] != h {
                assert(rest.contains(insert_hit_desc(h, rest)[k - 1]));
                let j = choose|j: int| 0 <= j < rest.len() && rest[j] == ins[k];
                assert(s[j + 1] == ins[k]);
                assert(s.contains(ins[k]));
            }
        }
    } else {
        if k > 0 {
            assert(ins[k] == s[k - 1]);
            assert(s.contains(ins[k]));
        }
    }
}

/// Law: the message stage's hits come newest first — after sorting, every
/// later hit carries a timestamp no newer than every earlier one.
pub proof fn lemma_sort_hits_sorted(s: Seq<RawHit>)
    ensures
        hits_sorted_desc(sort_hits_desc(s)),
    decreases s.len(),
{
    if s.len() > 0 {
        lemma_sort_hits_sorted(s.drop_last());
        lemma_insert_hit_sorted(s.last(), sort_hits_desc(s.drop_last()));
    }
}

/// Messages in ascending id order: oldest to newest.
pub open spec fn msgs_sorted_asc(s: Seq<ArchiveMessage>) -> bool {
    forall|i: int, j: int|
        0 <= i < j < s.len() ==> (#[trigger] s[i]).id <= (#[trigger] s[j]).id
}

proof fn lemma_insert_msg_sorted(m: ArchiveMessage, s: Seq<ArchiveMessage>)
    requires
        msgs_sorted_asc(s),
    ensures
        msgs_sorted_asc(insert_msg_asc(m, s)),
    decreases s.len(),
{
    if s.len() > 0 && s[0].id <= m.id {
        let rest = s.drop_first();
        assert(forall|i: int, j: int|
            0 <= i < j < rest.len() ==> (#[trigger] rest[i]).id <= (#[trigger] rest[j]).id);
        lemma_insert_msg_sorted(m, rest);
        let ins = insert_msg_asc(m, s);
        let tail = insert_msg_asc(m, rest);
        assert(ins == seq![s[0]] + tail);
        assert forall|i: int, j: int|
            0 <= i < j < ins.len() implies (#[trigger] ins[i]).id <= (#[trigger] ins[j]).id by {
            if i == 0 {
                lemma_insert_msg_member(m, rest, j - 1);
                let x = ins[j];
                if x != m {
                    assert(rest.contains(x));
                    let w = choose|w: int| 0 <= w < rest.len() && rest[w] == x;
                    assert(s[w + 1] == x);
                }
            } else {
                assert(ins[i] == tail[i - 1]);
                assert(ins[j] == tail[j - 1]);
            }
        }
    } else {
        let ins = insert_msg_asc(m, s);
        assert(ins == seq![m] + s);
        assert forall|i: int, j: int|
            0 <= i < j < ins.len() implies (#[trigger] ins[i]).id <= (#[trigger] ins[j]).id by {
            if i == 0 {
                assert(ins[j] == s[j - 1]);
                if j - 1 > 0 {
                    assert(s[0].id <= s[j - 1].id);
                }
            } else {
                assert(ins[i] == s[i - 1]);
                assert(ins[j] == s[j - 1]);
            }
        }
    }
}

proof fn lemma_insert_msg_member(m: ArchiveMessage, s: Seq<ArchiveMessage>, k: int)
    requires
        0 <= k < insert_msg_asc(m, s).len(),
    ensures
        insert_msg_asc(m, s)[k] == m || s.contains(insert_msg_asc(m, s)[k]),
    decreases s.len(),
{
    let ins = insert_msg_asc(m, s);
    if s.len() > 0 && s[0].id <= m.id {
        if k == 0 {
            assert(s.contains(ins[0]));
        } else {
            lemma_insert_msg_member(m, s.drop_first(), k - 1);
            let rest = s.drop_first();
            if ins[k] != m {
                let j = choose|j: int| 0 <= j < rest.len() && rest[j] == ins[k];
                assert(s[j + 1] == ins[k]);
                assert(s.contains(ins[k]));
            }
        }
    } else {
        if k > 0 {
            assert(ins[k] == s[k - 1]);
            assert(s.contains(ins[k]));
        }
    }
}

/// Law: a context window reads oldest to newest — after sorting, ids never
/// decrease.
pub proof fn lemma_window_sorted(ms: Seq<ArchiveMessage>, c: i64, h: i64)
    ensures
        msgs_sorted_asc(window_spec(ms, c, h)),
{
    lemma_sort_msgs_sorted(window_msgs(ms, c, h));
}

proof fn lemma_sort_msgs_sorted(s: Seq<ArchiveMessage>)
    ensures
        msgs_sorted_asc(sort_msgs_asc(s)),
    decreases s.len(),
{
    if s.len() > 0 {
        lemma_sort_msgs_sorted(s.drop_last());
        lemma_insert_msg_sorted(s.last(), sort_msgs_asc(s.drop_last()));
    }
}

} // verus!
