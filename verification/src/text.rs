//! Character-level string utilities.
//!
//! All text handling in this crate works over `Vec<char>` so that every
//! operation has an exact specification over `Seq<char>`. Conversions from
//! and to `String` happen at the edges of the public functions.

use vstd::prelude::*;

verus! {

// ---------------------------------------------------------------------------
// Substring containment
// ---------------------------------------------------------------------------

/// `needle` occurs in `hay` starting at position `i`.
pub open spec fn matches_at(hay: Seq<char>, needle: Seq<char>, i: int) -> bool {
    0 <= i && i + needle.len() <= hay.len() && hay.subrange(i, i + needle.len()) == needle
}

/// `needle` occurs somewhere in `hay` (true for an empty needle, as for
/// `str::contains`).
pub open spec fn contains_seq(hay: Seq<char>, needle: Seq<char>) -> bool {
    exists|i: int| matches_at(hay, needle, i)
}

/// `s` starts with `prefix`.
pub open spec fn starts_with_seq(s: Seq<char>, prefix: Seq<char>) -> bool {
    s.len() >= prefix.len() && s.subrange(0, prefix.len() as int) == prefix
}

/// Compares `hay[i..i + needle.len()]` with `needle`.
pub fn matches_here(hay: &Vec<char>, needle: &Vec<char>, i: usize) -> (b: bool)
    requires
        i + needle@.len() <= hay@.len(),
    ensures
        b == matches_at(hay@, needle@, i as int),
{
    let h = hay.len();
    let n = needle.len();
    let mut j: usize = 0;
    while j < n
        invariant
            j <= n,
            n == needle@.len(),
            h == hay@.len(),
            i + n <= h,
            forall|k: int| 0 <= k < j ==> hay@[i + k] == needle@[k],
        decreases n - j,
    {
        if hay[i + j] != needle[j] {
            proof {
                assert(hay@.subrange(i as int, i + needle@.len())[j as int] == hay@[i + j]);
            }
            return false;
        }
        j += 1;
    }
    proof {
        assert(hay@.subrange(i as int, i + needle@.len()) =~= needle@);
    }
    true
}

/// Substring search; reports whether `needle` occurs in `hay`.
pub fn contains_chars(hay: &Vec<char>, needle: &Vec<char>) -> (b: bool)
    ensures
        b == contains_seq(hay@, needle@),
{
    match find_chars(hay, needle) {
        Some(_) => true,
        None => false,
    }
}

/// Position of the first occurrence of `needle` in `hay`, if any.
pub fn find_chars(hay: &Vec<char>, needle: &Vec<char>) -> (r: Option<usize>)
    ensures
        match r {
            Some(i) => matches_at(hay@, needle@, i as int) && forall|j: int|
                0 <= j < i ==> !matches_at(hay@, needle@, j),
            None => !contains_seq(hay@, needle@),
        },
{
    let h = hay.len();
    let n = needle.len();
    if n > h {
        return None;
    }
    if n == 0 {
        proof {
            assert(hay@.subrange(0, 0) =~= needle@);
        }
        return Some(0);
    }
    let mut i: usize = 0;
    while i <= h - n
        invariant
            0 < n <= h,
            h == hay@.len(),
            n == needle@.len(),
            i <= h - n + 1,
            forall|j: int| 0 <= j < i ==> !matches_at(hay@, needle@, j),
        decreases h - i,
    {
        if matches_here(hay, needle, i) {
            return Some(i);
        }
        i += 1;
    }
    None
}

/// Prefix test.
pub fn starts_with_chars(s: &Vec<char>, prefix: &Vec<char>) -> (b: bool)
    ensures
        b == starts_with_seq(s@, prefix@),
{
    if prefix.len() > s.len() {
        return false;
    }
    matches_here(s, prefix, 0)
}

// ---------------------------------------------------------------------------
// Splitting on a separator character
// ---------------------------------------------------------------------------

/// Prepends `pre` to the first piece of `parts`.
pub open spec fn prepend_first(pre: Seq<char>, parts: Seq<Seq<char>>) -> Seq<Seq<char>>
    recommends
        parts.len() > 0,
{
    seq![pre + parts[0]] + parts.drop_first()
}

/// The pieces of `s` between occurrences of `sep`, in order; always at least
/// one piece, as for `str::split`.
pub open spec fn split_on(s: Seq<char>, sep: char) -> Seq<Seq<char>>
    decreases s.len(),
{
    if s.len() == 0 {
        seq![Seq::<char>::empty()]
    } else if s[0] == sep {
        seq![Seq::<char>::empty()] + split_on(s.drop_first(), sep)
    } else {
        prepend_first(seq![s[0]], split_on(s.drop_first(), sep))
    }
}

pub proof fn lemma_split_on_len(s: Seq<char>, sep: char)
    ensures
        split_on(s, sep).len() >= 1,
    decreases s.len(),
{
    if s.len() != 0 {
        lemma_split_on_len(s.drop_first(), sep);
    }
}

/// Splits `s` at every occurrence of `sep`.
pub fn split_chars(s: &Vec<char>, sep: char) -> (parts: Vec<Vec<char>>)
    ensures
        parts.deep_view() == split_on(s@, sep),
{
    let n = s.len();
    let mut parts: Vec<Vec<char>> = Vec::new();
    let mut cur: Vec<char> = Vec::new();
    proof {
        lemma_split_on_len(s@, sep);
        assert(s@.subrange(0, n as int) =~= s@);
        assert(parts.deep_view() =~= Seq::<Seq<char>>::empty());
        assert(prepend_first(cur@, split_on(s@, sep)) =~~= split_on(s@, sep));
        assert(parts.deep_view() + split_on(s@, sep) =~~= split_on(s@, sep));
    }
    let mut i: usize = 0;
    while i < n
        invariant
            i <= n,
            n == s@.len(),
            split_on(s@, sep) == parts.deep_view() + prepend_first(
                cur@,
                split_on(s@.subrange(i as int, n as int), sep),
            ),
        decreases n - i,
    {
        let ghost rest = s@.subrange(i as int, n as int);
        let ghost rest_next = s@.subrange(i + 1, n as int);
        proof {
            assert(rest.len() > 0);
            assert(rest[0] == s@[i as int]);
            assert(rest.drop_first() =~= rest_next);
            lemma_split_on_len(rest_next, sep);
        }
        let c = s[i];
        if c == sep {
            let ghost old_parts = parts;
            let ghost old_cur = cur;
            parts.push(cur);
            cur = Vec::new();
            proof {
                assert(split_on(rest, sep) == seq![Seq::<char>::empty()] + split_on(
                    rest_next,
                    sep,
                ));
                assert(prepend_first(old_cur@, split_on(rest, sep)) =~~= seq![old_cur@]
                    + split_on(rest_next, sep));
                assert(prepend_first(cur@, split_on(rest_next, sep)) =~~= split_on(
                    rest_next,
                    sep,
                ));
                assert(parts.deep_view() =~~= old_parts.deep_view() + seq![old_cur@]);
                assert(split_on(s@, sep) =~~= parts.deep_view() + prepend_first(
                    cur@,
                    split_on(rest_next, sep),
                ));
            }
        } else {
            let ghost old_cur = cur;
            cur.push(c);
            proof {
                assert(split_on(rest, sep) == prepend_first(
                    seq![s@[i as int]],
                    split_on(rest_next, sep),
                ));
                assert(prepend_first(old_cur@, split_on(rest, sep)) =~~= prepend_first(
                    cur@,
                    split_on(rest_next, sep),
                ));
            }
        }
        i += 1;
    }
    let ghost old_parts = parts;
    let ghost last_cur = cur;
    parts.push(cur);
    proof {
        assert(s@.subrange(n as int, n as int) =~= Seq::<char>::empty());
        assert(split_on(s@.subrange(n as int, n as int), sep) == seq![Seq::<char>::empty()]);
        assert(prepend_first(last_cur@, seq![Seq::<char>::empty()]) =~~= seq![last_cur@]);
        assert(parts.deep_view() =~~= old_parts.deep_view() + seq![last_cur@]);
        assert(parts.deep_view() =~~= split_on(s@, sep));
    }
    parts
}

// ---------------------------------------------------------------------------
// String <-> Vec<char> conversions
// ---------------------------------------------------------------------------

/// Collects the characters of a string slice.
pub fn str_to_chars(s: &str) -> (v: Vec<char>)
    ensures
        v@ == s@,
{
    let n = s.unicode_len();
    let mut v: Vec<char> = Vec::new();
    let mut i: usize = 0;
    while i < n
        invariant
            i <= n,
            n == s@.len(),
            v@ == s@.subrange(0, i as int),
        decreases n - i,
    {
        let c = s.get_char(i);
        v.push(c);
        proof {
            assert(v@ =~= s@.subrange(0, i + 1));
        }
        i += 1;
    }
    proof {
        assert(v@ =~= s@);
    }
    v
}

/// Collects the characters of a string.
pub fn string_to_chars(s: &String) -> (v: Vec<char>)
    ensures
        v@ == s@,
{
    str_to_chars(s.as_str())
}

/// Relies on `String: FromIterator<char>`: collecting characters yields the
/// string with exactly those characters in order.
#[verifier::external_body]
pub fn chars_to_string(v: &Vec<char>) -> (s: String)
    ensures
        s@ == v@,
{
    v.iter().collect()
}

// ---------------------------------------------------------------------------
// Building and slicing character vectors
// ---------------------------------------------------------------------------

/// Appends all characters of `src` to `dst`.
pub fn append_chars(dst: &mut Vec<char>, src: &Vec<char>)
    ensures
        final(dst)@ == old(dst)@ + src@,
{
    let n = src.len();
    let mut i: usize = 0;
    while i < n
        invariant
            i <= n,
            n == src@.len(),
            dst@ == old(dst)@ + src@.subrange(0, i as int),
        decreases n - i,
    {
        let c = src[i];
        dst.push(c);
        proof {
            assert(old(dst)@ + src@.subrange(0, i + 1) =~= (old(dst)@ + src@.subrange(
                0,
                i as int,
            )).push(src@[i as int]));
        }
        i += 1;
    }
    proof {
        assert(src@.subrange(0, n as int) =~= src@);
    }
}

/// Appends all characters of a string slice to `dst`.
pub fn append_str(dst: &mut Vec<char>, src: &str)
    ensures
        final(dst)@ == old(dst)@ + src@,
{
    let v = str_to_chars(src);
    append_chars(dst, &v);
}

/// Copies `s[lo..hi]` into a fresh vector.
pub fn copy_range(s: &Vec<char>, lo: usize, hi: usize) -> (r: Vec<char>)
    requires
        lo <= hi <= s@.len(),
    ensures
        r@ == s@.subrange(lo as int, hi as int),
{
    let mut r: Vec<char> = Vec::new();
    let mut i: usize = lo;
    while i < hi
        invariant
            lo <= i <= hi <= s@.len(),
            r@ == s@.subrange(lo as int, i as int),
        decreases hi - i,
    {
        let c = s[i];
        r.push(c);
        proof {
            assert(s@.subrange(lo as int, i + 1) =~= s@.subrange(lo as int, i as int).push(
                s@[i as int],
            ));
        }
        i += 1;
    }
    r
}

/// The first `k` characters of `s`, or all of `s` when it is shorter.
pub fn take_chars(s: &Vec<char>, k: usize) -> (r: Vec<char>)
    ensures
        r@ == s@.take(if k <= s@.len() {
            k as int
        } else {
            s@.len() as int
        }),
{
    let n = s.len();
    let hi = if k <= n {
        k
    } else {
        n
    };
    let r = copy_range(s, 0, hi);
    proof {
        assert(r@ =~= s@.take(hi as int));
    }
    r
}

// ---------------------------------------------------------------------------
// Trimming whitespace
// ---------------------------------------------------------------------------

/// The characters with the Unicode `White_Space` property, the set that
/// `char::is_whitespace` recognizes.
pub open spec fn is_white(c: char) -> bool {
    ('\u{0009}' <= c && c <= '\u{000D}') || c == ' ' || c == '\u{0085}' || c == '\u{00A0}' || c
        == '\u{1680}' || ('\u{2000}' <= c && c <= '\u{200A}') || c == '\u{2028}' || c == '\u{2029}'
        || c == '\u{202F}' || c == '\u{205F}' || c == '\u{3000}'
}

/// Executable form of `is_white`.
pub fn white(c: char) -> (b: bool)
    ensures
        b == is_white(c),
{
    ('\u{0009}' <= c && c <= '\u{000D}') || c == ' ' || c == '\u{0085}' || c == '\u{00A0}' || c
        == '\u{1680}' || ('\u{2000}' <= c && c <= '\u{200A}') || c == '\u{2028}' || c
        == '\u{2029}' || c == '\u{202F}' || c == '\u{205F}' || c == '\u{3000}'
}

/// `s` without its leading whitespace.
pub open spec fn trim_start_spec(s: Seq<char>) -> Seq<char>
    decreases s.len(),
{
    if s.len() > 0 && is_white(s[0]) {
        trim_start_spec(s.drop_first())
    } else {
        s
    }
}

/// `s` without its trailing whitespace.
pub open spec fn trim_end_spec(s: Seq<char>) -> Seq<char>
    decreases s.len(),
{
    if s.len() > 0 && is_white(s.last()) {
        trim_end_spec(s.drop_last())
    } else {
        s
    }
}

/// `s` without leading and trailing whitespace, as for `str::trim`.
pub open spec fn trim_spec(s: Seq<char>) -> Seq<char> {
    trim_end_spec(trim_start_spec(s))
}

proof fn lemma_trim_start_skip(s: Seq<char>, k: int)
    requires
        0 <= k <= s.len(),
        forall|j: int| 0 <= j < k ==> is_white(s[j]),
    ensures
        trim_start_spec(s) == trim_start_spec(s.subrange(k, s.len() as int)),
    decreases k,
{
    if k > 0 {
        assert(trim_start_spec(s) == trim_start_spec(s.drop_first()));
        lemma_trim_start_skip(s.drop_first(), k - 1);
        assert(s.drop_first().subrange(k - 1, s.drop_first().len() as int) =~= s.subrange(
            k,
            s.len() as int,
        ));
    } else {
        assert(s.subrange(0, s.len() as int) =~= s);
    }
}

proof fn lemma_trim_end_cut(s: Seq<char>, k: int)
    requires
        0 <= k <= s.len(),
        forall|j: int| k <= j < s.len() ==> is_white(s[j]),
    ensures
        trim_end_spec(s) == trim_end_spec(s.subrange(0, k)),
    decreases s.len() - k,
{
    if k < s.len() {
        assert(is_white(s.last()));
        assert(trim_end_spec(s) == trim_end_spec(s.drop_last()));
        lemma_trim_end_cut(s.drop_last(), k);
        assert(s.drop_last().subrange(0, k) =~= s.subrange(0, k));
    } else {
        assert(s.subrange(0, s.len() as int) =~= s);
    }
}

/// Removes leading and trailing whitespace.
pub fn trim_chars(s: &Vec<char>) -> (r: Vec<char>)
    ensures
        r@ == trim_spec(s@),
{
    let n = s.len();
    let mut lo: usize = 0;
    while lo < n && white(s[lo])
        invariant
            lo <= n,
            n == s@.len(),
            forall|j: int| 0 <= j < lo ==> is_white(s@[j]),
        decreases n - lo,
    {
        lo += 1;
    }
    proof {
        lemma_trim_start_skip(s@, lo as int);
        if lo < n {
            assert(!is_white(s@.subrange(lo as int, n as int)[0]));
        }
        assert(trim_start_spec(s@) == s@.subrange(lo as int, n as int));
    }
    let mut hi: usize = n;
    while hi > lo && white(s[hi - 1])
        invariant
            lo <= hi <= n,
            n == s@.len(),
            forall|j: int| hi <= j < n ==> is_white(s@[j]),
        decreases hi,
    {
        hi -= 1;
    }
    let ghost started = s@.subrange(lo as int, n as int);
    proof {
        assert(forall|j: int|
            hi - lo <= j < started.len() ==> is_white(#[trigger] started[j]));
        lemma_trim_end_cut(started, hi - lo);
        assert(started.subrange(0, hi - lo) =~= s@.subrange(lo as int, hi as int));
        if hi > lo {
            assert(s@.subrange(lo as int, hi as int).last() == s@[hi - 1]);
        }
        assert(trim_end_spec(started) == s@.subrange(lo as int, hi as int));
    }
    copy_range(s, lo, hi)
}

// ---------------------------------------------------------------------------
// Repeated prefix stripping (as for str::trim_start_matches)
// ---------------------------------------------------------------------------

/// `s` with every repetition of the leading `pre` removed, as for
/// `str::trim_start_matches`.
pub open spec fn strip_prefix_rec(s: Seq<char>, pre: Seq<char>) -> Seq<char>
    decreases s.len(),
{
    if pre.len() > 0 && starts_with_seq(s, pre) {
        strip_prefix_rec(s.skip(pre.len() as int), pre)
    } else {
        s
    }
}

/// Removes every repetition of the prefix `pre` from the front of `s`.
pub fn strip_prefix_chars(s: &Vec<char>, pre: &Vec<char>) -> (r: Vec<char>)
    ensures
        r@ == strip_prefix_rec(s@, pre@),
{
    let n = s.len();
    let p = pre.len();
    if p == 0 {
        return copy_range(s, 0, n);
    }
    let mut lo: usize = 0;
    proof {
        assert(s@.subrange(0, n as int) =~= s@);
    }
    while p <= n - lo && matches_here(s, pre, lo)
        invariant
            p == pre@.len(),
            0 < p,
            n == s@.len(),
            lo <= n,
            strip_prefix_rec(s@, pre@) == strip_prefix_rec(s@.subrange(lo as int, n as int), pre@),
        decreases n - lo,
    {
        let ghost rest = s@.subrange(lo as int, n as int);
        proof {
            assert(rest.subrange(0, p as int) =~= s@.subrange(lo as int, lo + p));
            assert(starts_with_seq(rest, pre@));
            assert(rest.skip(p as int) =~= s@.subrange(lo + p, n as int));
        }
        lo += p;
    }
    proof {
        let rest = s@.subrange(lo as int, n as int);
        if p <= n - lo {
            assert(rest.subrange(0, p as int) =~= s@.subrange(lo as int, lo + p));
            assert(!starts_with_seq(rest, pre@));
        }
        assert(strip_prefix_rec(rest, pre@) == rest);
    }
    copy_range(s, lo, n)
}

// ---------------------------------------------------------------------------
// Replacing occurrences of a pattern (as for str::replace)
// ---------------------------------------------------------------------------

/// `s` with every occurrence of `pat` replaced by `to`, scanning left to
/// right without revisiting replaced text, as for `str::replace`.
pub open spec fn replace_all(s: Seq<char>, pat: Seq<char>, to: Seq<char>) -> Seq<char>
    recommends
        pat.len() > 0,
    decreases s.len(),
{
    if pat.len() == 0 || s.len() < pat.len() {
        s
    } else if s.subrange(0, pat.len() as int) == pat {
        to + replace_all(s.skip(pat.len() as int), pat, to)
    } else {
        seq![s[0]] + replace_all(s.drop_first(), pat, to)
    }
}

/// Replaces every occurrence of `pat` in `s` by `to`.
pub fn replace_chars(s: &Vec<char>, pat: &Vec<char>, to: &Vec<char>) -> (r: Vec<char>)
    requires
        pat@.len() > 0,
    ensures
        r@ == replace_all(s@, pat@, to@),
{
    let n = s.len();
    let p = pat.len();
    let mut out: Vec<char> = Vec::new();
    proof {
        assert(s@.subrange(0, n as int) =~= s@);
        assert(out@ + replace_all(s@, pat@, to@) =~= replace_all(s@, pat@, to@));
    }
    let mut i: usize = 0;
    while i < n
        invariant
            i <= n,
            n == s@.len(),
            p == pat@.len(),
            0 < p,
            replace_all(s@, pat@, to@) == out@ + replace_all(
                s@.subrange(i as int, n as int),
                pat@,
                to@,
            ),
        decreases n - i,
    {
        let ghost rest = s@.subrange(i as int, n as int);
        if p <= n - i && matches_here(s, pat, i) {
            proof {
                assert(rest.subrange(0, p as int) =~= s@.subrange(i as int, i + p));
                assert(rest.subrange(0, p as int) == pat@);
                assert(rest.skip(p as int) =~= s@.subrange(i + p, n as int));
            }
            append_chars(&mut out, to);
            i += p;
        } else if p <= n - i {
            proof {
                assert(rest.subrange(0, p as int) =~= s@.subrange(i as int, i + p));
                assert(rest.subrange(0, p as int) != pat@);
                assert(rest[0] == s@[i as int]);
                assert(rest.drop_first() =~= s@.subrange(i + 1, n as int));
            }
            let c = s[i];
            out.push(c);
            i += 1;
        } else {
            proof {
                assert(rest.len() < p);
                assert(replace_all(rest, pat@, to@) == rest);
            }
            let tail = copy_range(s, i, n);
            append_chars(&mut out, &tail);
            i = n;
            proof {
                assert(s@.subrange(n as int, n as int) =~= Seq::<char>::empty());
                assert(out@ + Seq::<char>::empty() =~= out@);
            }
        }
    }
    proof {
        assert(s@.subrange(n as int, n as int) =~= Seq::<char>::empty());
        assert(out@ + Seq::<char>::empty() =~= out@);
    }
    out
}

/// `s` ends with `suffix`.
pub open spec fn ends_with_seq(s: Seq<char>, suffix: Seq<char>) -> bool {
    s.len() >= suffix.len() && s.skip(s.len() - suffix.len()) == suffix
}

/// Suffix test.
pub fn ends_with_chars(s: &Vec<char>, suffix: &Vec<char>) -> (b: bool)
    ensures
        b == ends_with_seq(s@, suffix@),
{
    let n = s.len();
    let m = suffix.len();
    if m > n {
        return false;
    }
    let r = crate::text::matches_here(s, suffix, n - m);
    proof {
        assert(s@.subrange(n - m, n as int) =~= s@.skip(n - m));
    }
    r
}

// ---------------------------------------------------------------------------
// Comparing with literals
// ---------------------------------------------------------------------------

/// Compares two character vectors.
pub fn chars_eq(a: &Vec<char>, b: &Vec<char>) -> (r: bool)
    ensures
        r == (a@ == b@),
{
    if a.len() != b.len() {
        return false;
    }
    let r = matches_here(a, b, 0);
    proof {
        assert(a@.subrange(0, b@.len() as int) =~= a@);
    }
    r
}

/// Compares the characters of `v` with those of `s`.
pub fn chars_eq_str(v: &Vec<char>, s: &str) -> (b: bool)
    ensures
        b == (v@ == s@),
{
    let w = str_to_chars(s);
    if v.len() != w.len() {
        return false;
    }
    let r = matches_here(v, &w, 0);
    proof {
        assert(v@.subrange(0, w@.len() as int) =~= v@);
    }
    r
}

// ---------------------------------------------------------------------------
// Line splitting (as for str::lines)
// ---------------------------------------------------------------------------

/// `line` without one trailing carriage return.
pub open spec fn strip_cr(line: Seq<char>) -> Seq<char> {
    if line.len() > 0 && line.last() == '\r' {
        line.drop_last()
    } else {
        line
    }
}

/// The lines of `s`, split at newlines, each without a trailing carriage
/// return, and without a final empty line when `s` ends in a newline, as for
/// `str::lines`.
pub open spec fn lines_of(s: Seq<char>) -> Seq<Seq<char>> {
    if s.len() == 0 {
        Seq::<Seq<char>>::empty()
    } else {
        let parts = split_on(s, '\n');
        let kept = if s.last() == '\n' {
            parts.drop_last()
        } else {
            parts
        };
        kept.map_values(|l: Seq<char>| strip_cr(l))
    }
}

/// Splits `s` into lines.
pub fn lines_chars(s: &Vec<char>) -> (r: Vec<Vec<char>>)
    ensures
        r.deep_view() == lines_of(s@),
{
    let n = s.len();
    if n == 0 {
        let r: Vec<Vec<char>> = Vec::new();
        proof {
            assert(r.deep_view() =~= lines_of(s@));
        }
        return r;
    }
    let mut parts = split_chars(s, '\n');
    proof {
        lemma_split_on_len(s@, '\n');
        assert(parts.deep_view().len() == parts@.len());
    }
    if s[n - 1] == '\n' {
        let ghost before = parts;
        parts.pop();
        proof {
            assert(parts.deep_view() =~= before.deep_view().drop_last());
        }
    }
    let ghost kept = parts.deep_view();
    let m = parts.len();
    let mut out: Vec<Vec<char>> = Vec::new();
    let mut k: usize = 0;
    while k < m
        invariant
            k <= m,
            m == parts@.len(),
            kept == parts.deep_view(),
            out@.len() == k,
            forall|j: int| 0 <= j < k ==> out.deep_view()[j] == strip_cr(kept[j]),
        decreases m - k,
    {
        let part = &parts[k];
        let pl = part.len();
        let line = if pl > 0 && part[pl - 1] == '\r' {
            copy_range(part, 0, pl - 1)
        } else {
            copy_range(part, 0, pl)
        };
        proof {
            if pl > 0 && part@[pl - 1] == '\r' {
                assert(part@.subrange(0, pl - 1) =~= part@.drop_last());
            } else {
                assert(part@.subrange(0, pl as int) =~= part@);
            }
            assert(kept[k as int] == part@);
        }
        let ghost old_out = out;
        out.push(line);
        proof {
            assert(out.deep_view() =~~= old_out.deep_view().push(line@));
        }
        k += 1;
    }
    proof {
        assert(out.deep_view() =~~= kept.map_values(|l: Seq<char>| strip_cr(l)));
    }
    out
}

// ---------------------------------------------------------------------------
// Decimal numbers
// ---------------------------------------------------------------------------

/// An ASCII decimal digit.
pub open spec fn is_ascii_digit(c: char) -> bool {
    '0' <= c && c <= '9'
}

/// The numeric value of a decimal digit character.
pub open spec fn digit_val(c: char) -> nat
    recommends
        is_ascii_digit(c),
{
    (c as u32 - '0' as u32) as nat
}

/// Every character of `s` is a decimal digit.
pub open spec fn all_digits(s: Seq<char>) -> bool {
    forall|i: int| 0 <= i < s.len() ==> is_ascii_digit(s[i])
}

/// The value of a sequence of decimal digits.
pub open spec fn dec_val(s: Seq<char>) -> nat
    recommends
        all_digits(s),
    decreases s.len(),
{
    if s.len() == 0 {
        0
    } else {
        dec_val(s.drop_last()) * 10 + digit_val(s.last())
    }
}

/// How `str::parse::<usize>` reads `s`: an optional leading plus sign, then
/// at least one digit, and the value must fit in `usize`.
pub open spec fn parse_usize_spec(s: Seq<char>) -> Option<usize> {
    let body = if s.len() > 0 && s[0] == '+' {
        s.drop_first()
    } else {
        s
    };
    if body.len() > 0 && all_digits(body) && dec_val(body) <= usize::MAX as nat {
        Some(dec_val(body) as usize)
    } else {
        None
    }
}

proof fn lemma_dec_val_take_le(s: Seq<char>, k: int)
    requires
        0 <= k <= s.len(),
    ensures
        dec_val(s.take(k)) <= dec_val(s),
    decreases s.len() - k,
{
    if k == s.len() {
        assert(s.take(k) =~= s);
    } else {
        lemma_dec_val_take_le(s.drop_last(), k);
        assert(s.drop_last().take(k) =~= s.take(k));
        assert(dec_val(s.drop_last()) <= dec_val(s.drop_last()) * 10 + digit_val(s.last()));
    }
}

/// The numeric value of a decimal digit character, executably.
pub fn char_digit_val(c: char) -> (d: usize)
    requires
        is_ascii_digit(c),
    ensures
        d as nat == digit_val(c),
        d < 10,
{
    if c == '0' {
        0
    } else if c == '1' {
        1
    } else if c == '2' {
        2
    } else if c == '3' {
        3
    } else if c == '4' {
        4
    } else if c == '5' {
        5
    } else if c == '6' {
        6
    } else if c == '7' {
        7
    } else if c == '8' {
        8
    } else {
        9
    }
}

/// Parses a non-negative decimal integer as `str::parse::<usize>` does.
pub fn parse_usize_chars(s: &Vec<char>) -> (r: Option<usize>)
    ensures
        r == parse_usize_spec(s@),
{
    let n = s.len();
    let start: usize = if n > 0 && s[0] == '+' {
        1
    } else {
        0
    };
    let ghost body = if s@.len() > 0 && s@[0] == '+' {
        s@.drop_first()
    } else {
        s@
    };
    proof {
        assert(body =~= s@.subrange(start as int, n as int));
    }
    if start == n {
        return None;
    }
    let mut acc: usize = 0;
    let mut i: usize = start;
    while i < n
        invariant
            start <= i <= n,
            n == s@.len(),
            body == s@.subrange(start as int, n as int),
            body == (if s@.len() > 0 && s@[0] == '+' {
                s@.drop_first()
            } else {
                s@
            }),
            body.len() == n - start,
            forall|j: int| 0 <= j < i - start ==> is_ascii_digit(body[j]),
            acc as nat == dec_val(body.take(i - start)),
        decreases n - i,
    {
        let c = s[i];
        proof {
            assert(body[i - start] == s@[i as int]);
        }
        if c < '0' || c > '9' {
            proof {
                assert(!is_ascii_digit(body[i - start]));
                assert(!all_digits(body));
            }
            return None;
        }
        let d = char_digit_val(c);
        let ghost prefix = body.take(i - start);
        let ghost prefix2 = body.take(i + 1 - start);
        proof {
            assert(is_ascii_digit(body[i - start]));
            assert(prefix2.len() == i + 1 - start);
            assert(prefix2.drop_last() =~= prefix);
            assert(prefix2.last() == body[i - start]);
            assert(dec_val(prefix2) == dec_val(prefix2.drop_last()) * 10 + digit_val(
                prefix2.last(),
            ));
            assert(dec_val(prefix2) == dec_val(prefix) * 10 + digit_val(body[i - start]));
            assert(digit_val(body[i - start]) == d as nat);
        }
        let big = acc.checked_mul(10);
        match big {
            Some(m) => {
                let bigger = m.checked_add(d);
                match bigger {
                    Some(v) => {
                        acc = v;
                    },
                    None => {
                        proof {
                            lemma_dec_val_take_le(body, i + 1 - start);
                            assert(dec_val(body) > usize::MAX as nat);
                        }
                        return None;
                    },
                }
            },
            None => {
                proof {
                    lemma_dec_val_take_le(body, i + 1 - start);
                    assert(dec_val(prefix2) >= acc as nat * 10);
                    assert(dec_val(body) > usize::MAX as nat);
                }
                return None;
            },
        }
        i += 1;
    }
    proof {
        assert(body.take(n - start) =~= body);
    }
    Some(acc)
}

/// The decimal digit character for value `d`.
pub open spec fn digit_char(d: nat) -> char
    recommends
        d < 10,
{
    ((d + 48) as u8) as char
}

/// The decimal digits of `n`, most significant first, without leading zeros
/// (a single `'0'` for zero), as `u64` values display.
pub open spec fn dec_digits(n: nat) -> Seq<char>
    decreases n,
{
    if n < 10 {
        seq![digit_char(n)]
    } else {
        dec_digits(n / 10) + seq![digit_char(n % 10)]
    }
}

/// The decimal form of an integer, with a leading minus sign when negative,
/// as `i64` values display.
pub open spec fn int_str(v: int) -> Seq<char> {
    if v < 0 {
        seq!['-'] + dec_digits((-v) as nat)
    } else {
        dec_digits(v as nat)
    }
}

fn push_u64_digits(m: u64, out: &mut Vec<char>)
    ensures
        final(out)@ == old(out)@ + dec_digits(m as nat),
    decreases m,
{
    if m >= 10 {
        push_u64_digits(m / 10, out);
    }
    let d = ((m % 10) as u8 + 48) as char;
    let ghost before = out@;
    out.push(d);
    proof {
        if m >= 10 {
            assert(out@ =~= old(out)@ + dec_digits((m / 10) as nat) + seq![
                digit_char((m % 10) as nat),
            ]);
            assert(dec_digits(m as nat) == dec_digits((m / 10) as nat) + seq![
                digit_char((m % 10) as nat),
            ]);
            assert(out@ =~= old(out)@ + dec_digits(m as nat));
        } else {
            assert(out@ =~= old(out)@ + seq![digit_char(m as nat)]);
        }
    }
}

/// Writes `v` in decimal, as `format!("{}", v)` would for an `i64`.
pub fn i64_to_chars(v: i64) -> (r: Vec<char>)
    ensures
        r@ == int_str(v as int),
{
    let mut out: Vec<char> = Vec::new();
    if v >= 0 {
        push_u64_digits(v as u64, &mut out);
        proof {
            assert(out@ =~= int_str(v as int));
        }
    } else {
        out.push('-');
        let m = ((-(v + 1)) as u64) + 1;
        proof {
            assert(m as nat == (-(v as int)) as nat);
        }
        push_u64_digits(m, &mut out);
        proof {
            assert(out@ =~= seq!['-'] + dec_digits((-(v as int)) as nat));
        }
    }
    out
}

// ---------------------------------------------------------------------------
// Case folding and percent-encoding (outside this crate's logic)
// ---------------------------------------------------------------------------

/// Unicode lowercasing as performed by `str::to_lowercase`: a function of the
/// input characters alone.
pub uninterp spec fn lower_of(s: Seq<char>) -> Seq<char>;

/// Relies on `str::to_lowercase`: the result depends on the input characters
/// alone, and an empty input gives an empty result.
#[verifier::external_body]
pub fn lowercase(s: &str) -> (r: String)
    ensures
        r@ == lower_of(s@),
        s@.len() == 0 ==> r@.len() == 0,
{
    s.to_lowercase()
}

/// Unicode uppercasing as performed by `str::to_uppercase`: a function of the
/// input characters alone.
pub uninterp spec fn upper_of(s: Seq<char>) -> Seq<char>;

/// Relies on `str::to_uppercase`: the result depends on the input characters
/// alone, and an empty input gives an empty result.
#[verifier::external_body]
pub fn uppercase(s: &str) -> (r: String)
    ensures
        r@ == upper_of(s@),
        s@.len() == 0 ==> r@.len() == 0,
{
    s.to_uppercase()
}

/// A character that `urlencoding::encode` passes through unchanged.
pub open spec fn is_url_unreserved(c: char) -> bool {
    ('0' <= c && c <= '9') || ('A' <= c && c <= 'Z') || ('a' <= c && c <= 'z') || c == '-' || c
        == '.' || c == '_' || c == '~'
}

/// Percent-encoding as performed by `urlencoding::encode`: a function of the
/// input characters alone.
pub uninterp spec fn url_encoded_of(s: Seq<char>) -> Seq<char>;

/// Relies on `urlencoding::encode`: it percent-encodes every byte except
/// ASCII alphanumerics and `-`, `.`, `_`, `~`, so an input made only of those
/// characters comes back unchanged.
#[verifier::external_body]
pub fn url_encode(s: &str) -> (r: String)
    ensures
        r@ == url_encoded_of(s@),
        (forall|i: int| 0 <= i < s@.len() ==> is_url_unreserved(s@[i])) ==> r@ == s@,
{
    urlencoding::encode(s).into_owned()
}

} // verus!
