//! Placeholder scanner: finds every `{{...}}`-shaped placeholder of a text,
//! leftmost first and non-greedy, and keeps the distinct ones in order of
//! first appearance.

use vstd::prelude::*;
use vstd::string::StrSliceExecFns;

use crate::text::contains_string;
use crate::text::lemma_deep_view_push;
use crate::text::match_at;

verus! {

// ---------------------------------------------------------------------------
// The placeholder grammar
// ---------------------------------------------------------------------------

/// An opening double brace stands at position `i`.
pub open spec fn open_at(s: Seq<char>, i: int) -> bool {
    &&& 0 <= i
    &&& i + 2 <= s.len()
    &&& s[i] == '{'
    &&& s[i + 1] == '{'
}

/// A closing double brace stands at position `i`.
pub open spec fn close_at(s: Seq<char>, i: int) -> bool {
    &&& 0 <= i
    &&& i + 2 <= s.len()
    &&& s[i] == '}'
    &&& s[i + 1] == '}'
}

/// Least position `k >= j` holding a closing double brace, provided no line
/// feed stands in between: a placeholder's content may not cross a line, so
/// a line feed blocks the match.
pub open spec fn find_close_from(s: Seq<char>, j: int) -> Option<int>
    decreases s.len() - j
        when 0 <= j
{
    if j + 2 > s.len() {
        None
    } else if close_at(s, j) {
        Some(j)
    } else if s[j] == '\n' {
        None
    } else {
        find_close_from(s, j + 1)
    }
}

/// A found closing position lies at or after `j` and really closes.
pub proof fn lemma_find_close_bounds(s: Seq<char>, j: int)
    requires
        0 <= j,
    ensures
        match find_close_from(s, j) {
            Some(k) => j <= k && close_at(s, k),
            None => true,
        },
    decreases s.len() - j,
{
    if j + 2 > s.len() {
    } else if close_at(s, j) {
    } else if s[j] == '\n' {
    } else {
        lemma_find_close_bounds(s, j + 1);
    }
}

/// Every placeholder of `s` at or after position `p`, leftmost first: an
/// opening double brace, the nearest closing double brace with no line feed
/// in between, and everything between them; scanning resumes after each
/// match, so matches do not overlap.  Duplicates are kept.
pub open spec fn raw_tokens_from(s: Seq<char>, p: int) -> Seq<Seq<char>>
    decreases s.len() - p
        when 0 <= p
{
    if p + 4 > s.len() {
        Seq::empty()
    } else if open_at(s, p) {
        match find_close_from(s, p + 2) {
            Option::Some(k) => {
                proof {
                    lemma_find_close_bounds(s, p + 2);
                }
                seq![s.subrange(p, k + 2)] + raw_tokens_from(s, k + 2)
            },
            Option::None => raw_tokens_from(s, p + 1),
        }
    } else {
        raw_tokens_from(s, p + 1)
    }
}

/// The distinct elements of `ts`, each kept at its first appearance.
pub open spec fn dedup_first(ts: Seq<Seq<char>>) -> Seq<Seq<char>>
    decreases ts.len(),
{
    if ts.len() == 0 {
        Seq::empty()
    } else {
        let pre = dedup_first(ts.drop_last());
        if pre.contains(ts.last()) {
            pre
        } else {
            pre.push(ts.last())
        }
    }
}

/// The ordered set of distinct placeholders of `s`.
pub open spec fn found_tokens(s: Seq<char>) -> Seq<Seq<char>> {
    dedup_first(raw_tokens_from(s, 0))
}

// ---------------------------------------------------------------------------
// First-occurrence order
// ---------------------------------------------------------------------------

/// Index of the first element of `ts` equal to `x` (meaningful when `ts`
/// contains `x`).
pub open spec fn first_occurrence(ts: Seq<Seq<char>>, x: Seq<char>) -> int
    decreases ts.len(),
{
    if ts.len() == 0 {
        0
    } else if ts[0] == x {
        0
    } else {
        1 + first_occurrence(ts.drop_first(), x)
    }
}

proof fn lemma_first_occurrence_basic(ts: Seq<Seq<char>>, x: Seq<char>)
    requires
        ts.contains(x),
    ensures
        0 <= first_occurrence(ts, x) < ts.len(),
        ts[first_occurrence(ts, x)] == x,
        forall|m: int| 0 <= m < first_occurrence(ts, x) ==> ts[m] != x,
    decreases ts.len(),
{
    if ts[0] == x {
    } else {
        let i = choose|i: int| 0 <= i < ts.len() && ts[i] == x;
        assert(ts.drop_first()[i - 1] == x);
        assert(ts.drop_first().contains(x));
        lemma_first_occurrence_basic(ts.drop_first(), x);
        let f = first_occurrence(ts.drop_first(), x);
        assert(ts[1 + f] == ts.drop_first()[f]);
        assert forall|m: int| 0 <= m < 1 + f implies ts[m] != x by {
            if m > 0 {
                assert(ts[m] == ts.drop_first()[m - 1]);
            }
        }
    }
}

proof fn lemma_first_occurrence_drop_last(ts: Seq<Seq<char>>, x: Seq<char>)
    requires
        ts.len() > 0,
        ts.drop_last().contains(x),
    ensures
        first_occurrence(ts, x) == first_occurrence(ts.drop_last(), x),
    decreases ts.len(),
{
    let dl = ts.drop_last();
    if ts[0] == x {
        assert(dl[0] == ts[0]);
    } else {
        let df = ts.drop_first();
        let i = choose|i: int| 0 <= i < dl.len() && dl[i] == x;
        assert(i >= 1) by {
            assert(dl[0] == ts[0]);
        }
        assert(df.drop_last() =~= dl.drop_first());
        assert(df.drop_last()[i - 1] == dl[i]);
        assert(df.drop_last().contains(x));
        lemma_first_occurrence_drop_last(df, x);
        assert(dl[0] != x);
        assert(first_occurrence(dl, x) == 1 + first_occurrence(dl.drop_first(), x));
    }
}

proof fn lemma_first_occurrence_of_last(ts: Seq<Seq<char>>, x: Seq<char>)
    requires
        ts.len() > 0,
        ts.last() == x,
        !ts.drop_last().contains(x),
    ensures
        first_occurrence(ts, x) == ts.len() - 1,
    decreases ts.len(),
{
    let dl = ts.drop_last();
    if ts.len() == 1 {
        assert(ts[0] == x);
    } else if ts[0] == x {
        assert(dl[0] == ts[0]);
        assert(dl.contains(x));
        assert(false);
    } else {
        let df = ts.drop_first();
        assert(df.last() == ts.last());
        assert forall|m: int| 0 <= m < df.drop_last().len() implies df.drop_last()[m] != x by {
            assert(df.drop_last()[m] == ts[m + 1]);
            assert(dl[m + 1] == ts[m + 1]);
        }
        assert(!df.drop_last().contains(x));
        lemma_first_occurrence_of_last(df, x);
    }
}

/// The distinct token list keeps exactly the members of `ts`, each once, in
/// order of first appearance.
pub proof fn lemma_dedup_first_props(ts: Seq<Seq<char>>)
    ensures
        forall|x: Seq<char>| #[trigger] dedup_first(ts).contains(x) <==> ts.contains(x),
        forall|i: int| 0 <= i < dedup_first(ts).len() ==> ts.contains(#[trigger] dedup_first(ts)[i]),
        forall|i: int, j: int|
            0 <= i < j < dedup_first(ts).len() ==> dedup_first(ts)[i] != dedup_first(ts)[j],
        forall|i: int, j: int|
            0 <= i < j < dedup_first(ts).len() ==> first_occurrence(ts, dedup_first(ts)[i])
                < first_occurrence(ts, dedup_first(ts)[j]),
    decreases ts.len(),
{
    if ts.len() == 0 {
    } else {
        let dl = ts.drop_last();
        let l = ts.last();
        let pre = dedup_first(dl);
        let d = dedup_first(ts);
        lemma_dedup_first_props(dl);
        assert forall|x: Seq<char>| ts.contains(x) implies (dl.contains(x) || x == l) by {
            let i = choose|i: int| 0 <= i < ts.len() && ts[i] == x;
            if i < ts.len() - 1 {
                assert(dl[i] == x);
            }
        }
        assert forall|x: Seq<char>| dl.contains(x) implies ts.contains(x) by {
            let i = choose|i: int| 0 <= i < dl.len() && dl[i] == x;
            assert(ts[i] == x);
        }
        assert(ts.contains(l)) by {
            assert(ts[ts.len() - 1] == l);
        }
        if pre.contains(l) {
            assert(d == pre);
            assert forall|x: Seq<char>| #[trigger] d.contains(x) <==> ts.contains(x) by {
                if ts.contains(x) {
                    if x == l {
                        assert(d.contains(x));
                    } else {
                        assert(dl.contains(x));
                    }
                }
            }
        } else {
            assert(d == pre.push(l));
            assert(!dl.contains(l));
            assert forall|x: Seq<char>| #[trigger] d.contains(x) <==> ts.contains(x) by {
                if d.contains(x) {
                    let i = choose|i: int| 0 <= i < d.len() && d[i] == x;
                    if i < pre.len() {
                        assert(pre[i] == x);
                        assert(pre.contains(x));
                    } else {
                        assert(x == l);
                    }
                }
                if ts.contains(x) {
                    if x == l {
                        assert(d[d.len() - 1] == l);
                        assert(d.contains(x));
                    } else {
                        assert(dl.contains(x));
                        assert(pre.contains(x));
                        let i = choose|i: int| 0 <= i < pre.len() && pre[i] == x;
                        assert(d[i] == x);
                        assert(d.contains(x));
                    }
                }
            }
            // Distinctness of the extended list.
            assert forall|i: int, j: int| 0 <= i < j < d.len() implies d[i] != d[j] by {
                if j < pre.len() {
                } else {
                    assert(d[j] == l);
                    assert(d[i] == pre[i]);
                    if pre[i] == l {
                        assert(pre.contains(l));
                        assert(false);
                    }
                }
            }
            // First-occurrence order of the extended list.
            lemma_first_occurrence_of_last(ts, l);
            assert forall|i: int, j: int| 0 <= i < j < d.len() implies first_occurrence(ts, d[i])
                < first_occurrence(ts, d[j]) by {
                if j < pre.len() {
                    assert(pre.contains(pre[i]));
                    assert(pre.contains(pre[j]));
                    assert(dl.contains(d[i]));
                    assert(dl.contains(d[j]));
                    lemma_first_occurrence_drop_last(ts, d[i]);
                    lemma_first_occurrence_drop_last(ts, d[j]);
                } else {
                    assert(d[j] == l);
                    assert(d[i] == pre[i]);
                    assert(pre.contains(pre[i]));
                    assert(dl.contains(d[i]));
                    lemma_first_occurrence_drop_last(ts, d[i]);
                    lemma_first_occurrence_basic(dl, d[i]);
                }
            }
        }
        // Lifting the order for the unchanged list.
        if pre.contains(l) {
            assert forall|i: int, j: int| 0 <= i < j < d.len() implies first_occurrence(ts, d[i])
                < first_occurrence(ts, d[j]) by {
                assert(pre.contains(pre[i]));
                assert(pre.contains(pre[j]));
                assert(dl.contains(d[i]));
                assert(dl.contains(d[j]));
                lemma_first_occurrence_drop_last(ts, d[i]);
                lemma_first_occurrence_drop_last(ts, d[j]);
            }
        }
    }
}

/// Every raw token is at least four characters long, is wrapped in double
/// braces, and occurs literally in the text.
pub proof fn lemma_raw_tokens_shape(s: Seq<char>, p: int)
    requires
        0 <= p,
    ensures
        forall|t: Seq<char>| #[trigger] raw_tokens_from(s, p).contains(t) ==> {
            &&& t.len() >= 4
            &&& t[0] == '{'
            &&& t[1] == '{'
            &&& t[t.len() - 2] == '}'
            &&& t[t.len() - 1] == '}'
            &&& exists|q: int| match_at(s, t, q)
        },
    decreases s.len() - p,
{
    if p + 4 > s.len() {
    } else if open_at(s, p) {
        match find_close_from(s, p + 2) {
            Option::Some(k) => {
                lemma_find_close_bounds(s, p + 2);
                assert(find_close_from(s, p + 2) == Some(k));
                assert(p + 2 <= k && close_at(s, k));
                assert(k + 2 <= s.len());
                lemma_raw_tokens_shape(s, k + 2);
                let t0 = s.subrange(p, k + 2);
                let rest = raw_tokens_from(s, k + 2);
                assert(raw_tokens_from(s, p) == seq![t0] + rest);
                assert forall|t: Seq<char>| #[trigger] raw_tokens_from(s, p).contains(t) implies {
                    &&& t.len() >= 4
                    &&& t[0] == '{'
                    &&& t[1] == '{'
                    &&& t[t.len() - 2] == '}'
                    &&& t[t.len() - 1] == '}'
                    &&& exists|q: int| match_at(s, t, q)
                } by {
                    let i = choose|i: int|
                        0 <= i < raw_tokens_from(s, p).len() && raw_tokens_from(s, p)[i] == t;
                    if i > 0 {
                        assert(rest[i - 1] == t);
                        assert(rest.contains(t));
                    } else {
                        assert(t == t0);
                        assert(match_at(s, t0, p));
                        assert(match_at(s, t, p));
                        assert(t0[0] == s[p]);
                        assert(t0[1] == s[p + 1]);
                        assert(t0[t0.len() - 2] == s[k]);
                        assert(t0[t0.len() - 1] == s[k + 1]);
                    }
                }
            },
            Option::None => {
                lemma_raw_tokens_shape(s, p + 1);
                assert(raw_tokens_from(s, p) == raw_tokens_from(s, p + 1));
            },
        }
    } else {
        lemma_raw_tokens_shape(s, p + 1);
        assert(raw_tokens_from(s, p) == raw_tokens_from(s, p + 1));
    }
}

/// Law: the scanned token list holds exactly the placeholders of the text,
/// each exactly once, ordered by first appearance, and each wrapped in
/// double braces and occurring literally in the text.
pub proof fn lemma_found_tokens_props(s: Seq<char>)
    ensures
        forall|x: Seq<char>| #[trigger] found_tokens(s).contains(x) <==> raw_tokens_from(
            s,
            0,
        ).contains(x),
        forall|i: int, j: int|
            0 <= i < j < found_tokens(s).len() ==> found_tokens(s)[i] != found_tokens(s)[j],
        forall|i: int, j: int|
            0 <= i < j < found_tokens(s).len() ==> first_occurrence(
                raw_tokens_from(s, 0),
                found_tokens(s)[i],
            ) < first_occurrence(raw_tokens_from(s, 0), found_tokens(s)[j]),
        forall|i: int| 0 <= i < found_tokens(s).len() ==> {
            let t = #[trigger] found_tokens(s)[i];
            &&& t.len() >= 4
            &&& t[0] == '{'
            &&& t[1] == '{'
            &&& t[t.len() - 2] == '}'
            &&& t[t.len() - 1] == '}'
            &&& exists|q: int| match_at(s, t, q)
        },
{
    lemma_dedup_first_props(raw_tokens_from(s, 0));
    lemma_raw_tokens_shape(s, 0);
}

// ---------------------------------------------------------------------------
// Executable scanner
// ---------------------------------------------------------------------------

fn find_close(s: &str, j: usize) -> (r: Option<usize>)
    requires
        j <= s@.len(),
    ensures
        match r {
            Some(k) => {
                &&& j <= k
                &&& k + 2 <= s@.len()
                &&& find_close_from(s@, j as int) == Some(k as int)
            },
            None => find_close_from(s@, j as int) is None,
        },
{
    let n = s.unicode_len();
    let mut m: usize = j;
    while n - m >= 2
        invariant
            j <= m <= n,
            n == s@.len(),
            find_close_from(s@, j as int) == find_close_from(s@, m as int),
        decreases n - m,
    {
        let c0 = s.get_char(m);
        if c0 == '}' && s.get_char(m + 1) == '}' {
            return Some(m);
        }
        if c0 == '\n' {
            return None;
        }
        proof {
            assert(find_close_from(s@, m as int) == find_close_from(s@, m + 1));
        }
        m += 1;
    }
    None
}

fn scan_raw(s: &str, p: usize) -> (r: Vec<String>)
    requires
        p <= s@.len(),
    ensures
        r.deep_view() == raw_tokens_from(s@, p as int),
    decreases s@.len() - p,
{
    let n = s.unicode_len();
    if n < 4 || p > n - 4 {
        let r: Vec<String> = Vec::new();
        proof {
            assert(r.deep_view() =~~= raw_tokens_from(s@, p as int));
        }
        return r;
    }
    if s.get_char(p) == '{' && s.get_char(p + 1) == '{' {
        match find_close(s, p + 2) {
            Option::Some(k) => {
                let token = s.substring_char(p, k + 2).to_owned();
                let mut rest = scan_raw(s, k + 2);
                let mut r: Vec<String> = Vec::new();
                r.push(token);
                r.append(&mut rest);
                proof {
                    assert(r.deep_view() =~~= raw_tokens_from(s@, p as int));
                }
                r
            },
            Option::None => scan_raw(s, p + 1),
        }
    } else {
        scan_raw(s, p + 1)
    }
}

/// Scans `document` for placeholders and returns the distinct ones in order
/// of first appearance.
pub fn scan_text(document: &str) -> (r: Vec<String>)
    ensures
        r.deep_view() == found_tokens(document@),
{
    let raw = scan_raw(document, 0);
    let ghost rdv = raw.deep_view();
    let mut out: Vec<String> = Vec::new();
    let mut i: usize = 0;
    while i < raw.len()
        invariant
            0 <= i <= raw@.len(),
            rdv == raw.deep_view(),
            out.deep_view() == dedup_first(rdv.take(i as int)),
        decreases raw@.len() - i,
    {
        proof {
            assert(rdv[i as int] == raw@[i as int]@);
            assert(rdv.take(i + 1).drop_last() =~= rdv.take(i as int));
            assert(rdv.take(i + 1).last() == rdv[i as int]);
        }
        let hit = contains_string(&out, &raw[i]);
        if !hit {
            let t = raw[i].clone();
            let ghost gt = t;
            let ghost pre = out;
            out.push(t);
            proof {
                lemma_deep_view_push(pre, out, gt);
            }
        }
        i += 1;
    }
    proof {
        assert(rdv.take(raw@.len() as int) =~= rdv);
    }
    out
}

} // verus!