//! Verified string utilities: literal matching, replacement, splitting,
//! trimming and line handling, together with the spec functions that model
//! them over `Seq<char>`.

use vstd::prelude::*;
use vstd::string::StrSliceExecFns;
use vstd::string::StringExecFns;

verus! {

// ---------------------------------------------------------------------------
// Matching a literal pattern inside a character sequence
// ---------------------------------------------------------------------------

/// `pat` occurs in `s` starting at position `i`.
pub open spec fn match_at(s: Seq<char>, pat: Seq<char>, i: int) -> bool {
    &&& 0 <= i
    &&& i + pat.len() <= s.len()
    &&& s.subrange(i, i + pat.len()) == pat
}

/// Position of the first occurrence of a non-empty `pat` in `s` at or after `i`.
pub open spec fn find_from(s: Seq<char>, pat: Seq<char>, i: int) -> Option<int>
    decreases s.len() - i
        when 0 <= i && pat.len() > 0
{
    if i + pat.len() > s.len() {
        None
    } else if match_at(s, pat, i) {
        Some(i)
    } else {
        find_from(s, pat, i + 1)
    }
}

/// `find_from` returns the first match position, and `None` exactly when
/// there is no match at or after `i`.
pub proof fn lemma_find_from(s: Seq<char>, pat: Seq<char>, i: int)
    requires
        0 <= i,
        pat.len() > 0,
    ensures
        match find_from(s, pat, i) {
            Some(k) => {
                &&& i <= k
                &&& match_at(s, pat, k)
                &&& forall|m: int| i <= m < k ==> !match_at(s, pat, m)
            },
            None => forall|m: int| i <= m ==> !match_at(s, pat, m),
        },
    decreases s.len() - i,
{
    if i + pat.len() > s.len() {
    } else if match_at(s, pat, i) {
    } else {
        lemma_find_from(s, pat, i + 1);
    }
}

/// Executable counterpart of `match_at`.
pub fn check_match(s: &str, i: usize, pat: &str) -> (r: bool)
    ensures
        r == match_at(s@, pat@, i as int),
{
    let n = s.unicode_len();
    let m = pat.unicode_len();
    if i > n || m > n - i {
        return false;
    }
    let mut j: usize = 0;
    while j < m
        invariant
            0 <= j <= m,
            i + m <= n,
            n == s@.len(),
            m == pat@.len(),
            forall|k: int| 0 <= k < j ==> s@[i + k] == pat@[k],
        decreases m - j,
    {
        if s.get_char(i + j) != pat.get_char(j) {
            proof {
                assert(s@.subrange(i as int, i + m)[j as int] == s@[i + j]);
            }
            return false;
        }
        j += 1;
    }
    proof {
        assert(s@.subrange(i as int, i + m) =~= pat@);
    }
    true
}

/// Executable counterpart of `find_from`.
pub fn find_index(s: &str, pat: &str, i: usize) -> (r: Option<usize>)
    requires
        pat@.len() > 0,
    ensures
        match r {
            Some(k) => {
                &&& i <= k
                &&& k + pat@.len() <= s@.len()
                &&& find_from(s@, pat@, i as int) == Some(k as int)
            },
            None => find_from(s@, pat@, i as int) is None,
        },
{
    let n = s.unicode_len();
    let m = pat.unicode_len();
    if m > n || i > n - m {
        return None;
    }
    let mut j: usize = i;
    while j <= n - m
        invariant
            i <= j,
            0 < m <= n,
            n == s@.len(),
            m == pat@.len(),
            find_from(s@, pat@, i as int) == find_from(s@, pat@, j as int),
        decreases n - j,
    {
        if check_match(s, j, pat) {
            return Some(j);
        }
        proof {
            assert(find_from(s@, pat@, j as int) == find_from(s@, pat@, j + 1));
        }
        j += 1;
    }
    None
}

// ---------------------------------------------------------------------------
// Literal replacement
// ---------------------------------------------------------------------------

/// The text left when every occurrence of `from` in `s` at or after `i` is
/// replaced, left to right and without overlap, by `to`.  An empty `from`
/// matches at every position, so `to` is inserted around every character.
pub open spec fn replaced_from(s: Seq<char>, from: Seq<char>, to: Seq<char>, i: int) -> Seq<char>
    decreases s.len() - i
        when 0 <= i <= s.len()
{
    if from.len() == 0 {
        if i == s.len() {
            to
        } else {
            to + seq![s[i]] + replaced_from(s, from, to, i + 1)
        }
    } else if match_at(s, from, i) {
        to + replaced_from(s, from, to, i + from.len() as int)
    } else if i < s.len() {
        seq![s[i]] + replaced_from(s, from, to, i + 1)
    } else {
        Seq::empty()
    }
}

/// Every occurrence of `from` in `s` replaced by `to`.
pub open spec fn replaced(s: Seq<char>, from: Seq<char>, to: Seq<char>) -> Seq<char> {
    replaced_from(s, from, to, 0)
}

fn replace_from_idx(s: &str, from: &str, to: &str, i: usize) -> (r: String)
    requires
        i <= s@.len(),
    ensures
        r@ == replaced_from(s@, from@, to@, i as int),
    decreases s@.len() - i,
{
    let n = s.unicode_len();
    if from.unicode_len() == 0 {
        if i == n {
            return to.to_owned();
        }
        let mut r = to.to_owned();
        r.append(s.substring_char(i, i + 1));
        let rest = replace_from_idx(s, from, to, i + 1);
        r.append(rest.as_str());
        proof {
            assert(s@.subrange(i as int, i + 1) =~= seq![s@[i as int]]);
        }
        r
    } else if check_match(s, i, from) {
        let mut r = to.to_owned();
        let rest = replace_from_idx(s, from, to, i + from.unicode_len());
        r.append(rest.as_str());
        r
    } else if i < n {
        let mut r = s.substring_char(i, i + 1).to_owned();
        let rest = replace_from_idx(s, from, to, i + 1);
        r.append(rest.as_str());
        proof {
            assert(s@.subrange(i as int, i + 1) =~= seq![s@[i as int]]);
        }
        r
    } else {
        String::new()
    }
}

/// Replaces every occurrence of the literal `from` in `input` by `to`,
/// scanning left to right without overlap.
pub fn replace_literal(input: &str, from: &str, to: &str) -> (r: String)
    ensures
        r@ == replaced(input@, from@, to@),
{
    replace_from_idx(input, from, to, 0)
}

// ---------------------------------------------------------------------------
// Sequential token substitution
// ---------------------------------------------------------------------------

/// `s` after the replacements for tokens `i..` have been applied, each step
/// working on the result of the previous one.
pub open spec fn substituted_from(
    s: Seq<char>,
    tokens: Seq<Seq<char>>,
    values: Seq<Seq<char>>,
    i: int,
) -> Seq<char>
    decreases tokens.len() - i
        when 0 <= i <= tokens.len() && values.len() == tokens.len()
{
    if i == tokens.len() {
        s
    } else {
        substituted_from(replaced(s, tokens[i], values[i]), tokens, values, i + 1)
    }
}

/// `s` with every token replaced by its paired value, applied sequentially in
/// ascending index order.  Because the replacement is sequential rather than
/// simultaneous, a value that contains another token's text is itself
/// replaced by a later step; this mirrors the engine's documented behaviour.
pub open spec fn substituted(s: Seq<char>, tokens: Seq<Seq<char>>, values: Seq<Seq<char>>) -> Seq<
    char,
> {
    substituted_from(s, tokens, values, 0)
}

/// Fills `input` with the given values in place of the given tokens, one
/// sequential literal replacement per token/value pair.
pub fn replace_tokens(input: &str, tokens: &Vec<String>, values: &Vec<String>) -> (r: String)
    requires
        tokens@.len() == values@.len(),
    ensures
        r@ == substituted(input@, tokens.deep_view(), values.deep_view()),
{
    let ghost tdv = tokens.deep_view();
    let ghost vdv = values.deep_view();
    let mut cur = input.to_owned();
    let mut i: usize = 0;
    while i < tokens.len()
        invariant
            0 <= i <= tokens@.len(),
            tokens@.len() == values@.len(),
            tdv == tokens.deep_view(),
            vdv == values.deep_view(),
            substituted_from(cur@, tdv, vdv, i as int) == substituted(input@, tdv, vdv),
        decreases tokens@.len() - i,
    {
        proof {
            assert(tdv[i as int] == tokens@[i as int]@);
            assert(vdv[i as int] == values@[i as int]@);
        }
        let next = replace_literal(cur.as_str(), tokens[i].as_str(), values[i].as_str());
        cur = next;
        i += 1;
    }
    cur
}

// ---------------------------------------------------------------------------
// Deep views of string vectors
// ---------------------------------------------------------------------------

/// Pushing a string onto a vector pushes its view onto the deep view.
pub proof fn lemma_deep_view_push(pre: Vec<String>, post: Vec<String>, x: String)
    requires
        post@ == pre@.push(x),
    ensures
        post.deep_view() == pre.deep_view().push(x@),
{
    assert forall|k: int| 0 <= k < post@.len() implies post.deep_view()[k] == pre.deep_view().push(
        x@,
    )[k] by {
        assert(post.deep_view()[k] == post@[k]@);
        if k < pre@.len() {
            assert(post@[k] == pre@[k]);
            assert(pre.deep_view()[k] == pre@[k]@);
        } else {
            assert(post@[k] == x);
        }
    }
    assert(post.deep_view() =~~= pre.deep_view().push(x@));
}

/// Whether some element of `v` equals the string `x`.
pub fn contains_string(v: &Vec<String>, x: &String) -> (r: bool)
    ensures
        r == v.deep_view().contains(x@),
{
    let mut i: usize = 0;
    while i < v.len()
        invariant
            0 <= i <= v@.len(),
            forall|k: int| 0 <= k < i ==> v.deep_view()[k] != x@,
        decreases v@.len() - i,
    {
        if v[i] == *x {
            proof {
                assert(v.deep_view()[i as int] == x@);
            }
            return true;
        }
        proof {
            assert(v.deep_view()[i as int] == v@[i as int]@);
        }
        i += 1;
    }
    false
}

// ---------------------------------------------------------------------------
// Splitting on a separator
// ---------------------------------------------------------------------------

/// The pieces of `s` from position `i` on, cut at each occurrence of the
/// non-empty separator `sep`, scanning left to right.
pub open spec fn split_from(s: Seq<char>, sep: Seq<char>, i: int) -> Seq<Seq<char>>
    decreases s.len() - i
        when 0 <= i <= s.len() && sep.len() > 0
{
    match find_from(s, sep, i) {
        Option::None => seq![s.subrange(i, s.len() as int)],
        Option::Some(k) => {
            proof {
                lemma_find_from(s, sep, i);
            }
            seq![s.subrange(i, k)] + split_from(s, sep, k + sep.len() as int)
        },
    }
}

/// The pieces of `s` cut at each occurrence of `sep`.  An empty separator
/// matches at every character boundary, so the pieces are an empty piece,
/// one piece per character, and a final empty piece.
pub open spec fn split_by(s: Seq<char>, sep: Seq<char>) -> Seq<Seq<char>> {
    if sep.len() == 0 {
        seq![Seq::<char>::empty()] + Seq::new(s.len(), |i: int| seq![s[i]]) + seq![
            Seq::<char>::empty(),
        ]
    } else {
        split_from(s, sep, 0)
    }
}

fn split_from_idx(s: &str, sep: &str, i: usize) -> (r: Vec<String>)
    requires
        i <= s@.len(),
        sep@.len() > 0,
    ensures
        r.deep_view() == split_from(s@, sep@, i as int),
    decreases s@.len() - i,
{
    match find_index(s, sep, i) {
        Option::None => {
            let piece = s.substring_char(i, s.unicode_len()).to_owned();
            let mut r: Vec<String> = Vec::new();
            r.push(piece);
            proof {
                assert(r.deep_view() =~~= split_from(s@, sep@, i as int));
            }
            r
        },
        Option::Some(k) => {
            proof {
                lemma_find_from(s@, sep@, i as int);
            }
            let n = s.unicode_len();
            let piece = s.substring_char(i, k).to_owned();
            let mut rest = split_from_idx(s, sep, k + sep.unicode_len());
            let mut r: Vec<String> = Vec::new();
            r.push(piece);
            r.append(&mut rest);
            proof {
                assert(r.deep_view() =~~= split_from(s@, sep@, i as int));
            }
            r
        },
    }
}

/// Splits `input` at every occurrence of `separator`.
pub fn split_string(input: &str, separator: &str) -> (r: Vec<String>)
    ensures
        r.deep_view() == split_by(input@, separator@),
{
    let n = input.unicode_len();
    if separator.unicode_len() == 0 {
        let mut r: Vec<String> = Vec::new();
        r.push(String::new());
        let mut i: usize = 0;
        while i < n
            invariant
                0 <= i <= n,
                n == input@.len(),
                r.deep_view() =~~= seq![Seq::<char>::empty()] + Seq::new(
                    i as nat,
                    |k: int| seq![input@[k]],
                ),
            decreases n - i,
        {
            let piece = input.substring_char(i, i + 1).to_owned();
            let ghost gp = piece;
            let ghost pre = r;
            r.push(piece);
            proof {
                lemma_deep_view_push(pre, r, gp);
                assert(input@.subrange(i as int, i + 1) =~= seq![input@[i as int]]);
                assert(r.deep_view() =~~= seq![Seq::<char>::empty()] + Seq::new(
                    (i + 1) as nat,
                    |k: int| seq![input@[k]],
                ));
            }
            i += 1;
        }
        r.push(String::new());
        proof {
            assert(r.deep_view() =~~= split_by(input@, separator@));
        }
        r
    } else {
        split_from_idx(input, separator, 0)
    }
}

// ---------------------------------------------------------------------------
// Whitespace trimming
// ---------------------------------------------------------------------------

/// Whether a character counts as whitespace for trimming; the meaning of
/// `char::is_whitespace`, a function of the character alone.
pub uninterp spec fn char_is_white(c: char) -> bool;

/// Relies on char::is_whitespace: whether `c` has the Unicode White_Space
/// property, a property of the character alone.
#[verifier::external_body]
fn is_white(c: char) -> (r: bool)
    ensures
        r == char_is_white(c),
{
    c.is_whitespace()
}

/// Index just past the whitespace prefix of `s` that starts at `i`.
pub open spec fn white_prefix_end(s: Seq<char>, i: int) -> int
    decreases s.len() - i
        when 0 <= i <= s.len()
{
    if i == s.len() {
        i
    } else if char_is_white(s[i]) {
        white_prefix_end(s, i + 1)
    } else {
        i
    }
}

/// Start of the whitespace suffix of `s` that ends just before `j`.
pub open spec fn white_suffix_start(s: Seq<char>, j: int) -> int
    decreases j
        when 0 <= j <= s.len()
{
    if j == 0 {
        0
    } else if char_is_white(s[j - 1]) {
        white_suffix_start(s, j - 1)
    } else {
        j
    }
}

/// `s` without its leading and trailing whitespace.
pub open spec fn trimmed(s: Seq<char>) -> Seq<char> {
    let a = white_prefix_end(s, 0);
    let b = white_suffix_start(s, s.len() as int);
    if a <= b {
        s.subrange(a, b)
    } else {
        Seq::empty()
    }
}

/// Removes leading and trailing whitespace from `s`.
pub fn trim_string(s: &str) -> (r: String)
    ensures
        r@ == trimmed(s@),
{
    let n = s.unicode_len();
    let mut a: usize = 0;
    while a < n && is_white(s.get_char(a))
        invariant
            0 <= a <= n,
            n == s@.len(),
            white_prefix_end(s@, 0) == white_prefix_end(s@, a as int),
        decreases n - a,
    {
        a += 1;
    }
    let mut b: usize = n;
    while b > 0 && is_white(s.get_char(b - 1))
        invariant
            0 <= b <= n,
            n == s@.len(),
            white_suffix_start(s@, n as int) == white_suffix_start(s@, b as int),
        decreases b,
    {
        b -= 1;
    }
    if a <= b {
        s.substring_char(a, b).to_owned()
    } else {
        String::new()
    }
}

/// The fields of one line: the line split at `sep`, each field trimmed.
pub open spec fn line_values(l: Seq<char>, sep: Seq<char>) -> Seq<Seq<char>> {
    split_by(l, sep).map(|_i: int, p: Seq<char>| trimmed(p))
}

/// Parses one line of input into a pack of values: split at `separator`,
/// each resulting field trimmed of surrounding whitespace.
pub fn string_to_values(input: &str, separator: &str) -> (r: Vec<String>)
    ensures
        r.deep_view() == line_values(input@, separator@),
{
    let pieces = split_string(input, separator);
    let mut r: Vec<String> = Vec::new();
    let mut i: usize = 0;
    while i < pieces.len()
        invariant
            0 <= i <= pieces@.len(),
            pieces.deep_view() == split_by(input@, separator@),
            r.deep_view() =~~= split_by(input@, separator@).take(i as int).map(
                |_k: int, p: Seq<char>| trimmed(p),
            ),
        decreases pieces@.len() - i,
    {
        proof {
            assert(pieces.deep_view()[i as int] == pieces@[i as int]@);
        }
        let t = trim_string(pieces[i].as_str());
        let ghost gt = t;
        let ghost pre = r;
        r.push(t);
        proof {
            lemma_deep_view_push(pre, r, gt);
            assert(r.deep_view() =~~= split_by(input@, separator@).take(i + 1).map(
                |_k: int, p: Seq<char>| trimmed(p),
            ));
        }
        i += 1;
    }
    proof {
        assert(split_by(input@, separator@).take(pieces@.len() as int) =~= split_by(
            input@,
            separator@,
        ));
        assert(r.deep_view() =~~= line_values(input@, separator@));
    }
    r
}

// ---------------------------------------------------------------------------
// Lines
// ---------------------------------------------------------------------------

/// A line with one trailing carriage return removed.
pub open spec fn strip_cr(l: Seq<char>) -> Seq<char> {
    if l.len() > 0 && l.last() == '\r' {
        l.drop_last()
    } else {
        l
    }
}

/// The lines of `s`: pieces cut at every line feed, each piece except a
/// final unterminated one losing one trailing carriage return; a trailing
/// line feed ends the last line rather than opening an empty one.
pub open spec fn lines_of(s: Seq<char>) -> Seq<Seq<char>> {
    if s.len() == 0 {
        Seq::empty()
    } else {
        let ps = split_from(s, seq!['\n'], 0);
        if s.last() == '\n' {
            ps.drop_last().map(|_i: int, l: Seq<char>| strip_cr(l))
        } else {
            Seq::new(
                ps.len(),
                |i: int|
                    if i == ps.len() - 1 {
                        ps[i]
                    } else {
                        strip_cr(ps[i])
                    },
            )
        }
    }
}

/// A non-empty text has at least one line.
pub proof fn lemma_lines_of_nonempty(s: Seq<char>)
    requires
        s.len() > 0,
    ensures
        lines_of(s).len() >= 1,
{
    let nl = seq!['\n'];
    let ps = split_from(s, nl, 0);
    assert(ps.len() >= 1);
    if s.last() == '\n' {
        lemma_find_from(s, nl, 0);
        assert(match_at(s, nl, s.len() - 1)) by {
            assert(s.subrange(s.len() - 1, s.len() as int) =~= nl);
        }
        assert(find_from(s, nl, 0) is Some);
        let k = find_from(s, nl, 0)->Some_0;
        assert(0 <= k && k + 1 <= s.len());
        assert(split_from(s, nl, k + 1).len() >= 1);
        assert(ps.len() >= 2);
    }
}

fn strip_cr_exec(l: &String) -> (r: String)
    ensures
        r@ == strip_cr(l@),
{
    let n = l.as_str().unicode_len();
    if n > 0 && l.as_str().get_char(n - 1) == '\r' {
        proof {
            assert(l@.subrange(0, l@.len() - 1) =~= l@.drop_last());
        }
        l.as_str().substring_char(0, n - 1).to_owned()
    } else {
        l.clone()
    }
}

/// Cuts `text` into its lines.
pub fn text_lines(text: &str) -> (r: Vec<String>)
    ensures
        r.deep_view() == lines_of(text@),
{
    let n = text.unicode_len();
    if n == 0 {
        let r: Vec<String> = Vec::new();
        proof {
            assert(r.deep_view() =~~= lines_of(text@));
        }
        return r;
    }
    proof {
        reveal_strlit("\n");
        assert("\n"@ =~= seq!['\n']);
    }
    let pieces = split_string(text, "\n");
    let ghost ps = split_from(text@, seq!['\n'], 0);
    proof {
        assert(pieces.deep_view() == ps);
        assert(ps.len() >= 1);
    }
    let ends_nl = text.get_char(n - 1) == '\n';
    let count = if ends_nl {
        pieces.len() - 1
    } else {
        pieces.len()
    };
    let mut r: Vec<String> = Vec::new();
    let mut i: usize = 0;
    while i < count
        invariant
            0 <= i <= count,
            count <= pieces@.len(),
            pieces.deep_view() == ps,
            ends_nl == (text@.len() > 0 && text@.last() == '\n'),
            text@.len() > 0,
            ps == split_from(text@, seq!['\n'], 0),
            count == if ends_nl {
                ps.len() - 1
            } else {
                ps.len() as int
            },
            r@.len() == i,
            forall|k: int|
                0 <= k < i ==> r.deep_view()[k] == if !ends_nl && k == count - 1 {
                    ps[k]
                } else {
                    strip_cr(ps[k])
                },
        decreases count - i,
    {
        proof {
            assert(pieces.deep_view()[i as int] == pieces@[i as int]@);
        }
        let piece = if !ends_nl && i == count - 1 {
            pieces[i].clone()
        } else {
            strip_cr_exec(&pieces[i])
        };
        let ghost gp = piece;
        let ghost pre = r;
        r.push(piece);
        proof {
            lemma_deep_view_push(pre, r, gp);
        }
        i += 1;
    }
    proof {
        assert(r.deep_view() =~~= lines_of(text@));
    }
    r
}

// ---------------------------------------------------------------------------
// Decimal numerals
// ---------------------------------------------------------------------------

/// Relies on String::push: appends one character at the end of the string.
#[verifier::external_body]
pub fn push_char(s: &mut String, c: char)
    ensures
        final(s)@ == old(s)@.push(c),
{
    s.push(c);
}

/// The decimal digit character for `d`.
pub open spec fn digit_char(d: int) -> char {
    if d == 0 {
        '0'
    } else if d == 1 {
        '1'
    } else if d == 2 {
        '2'
    } else if d == 3 {
        '3'
    } else if d == 4 {
        '4'
    } else if d == 5 {
        '5'
    } else if d == 6 {
        '6'
    } else if d == 7 {
        '7'
    } else if d == 8 {
        '8'
    } else {
        '9'
    }
}

/// The decimal numeral of `n`, most significant digit first.
pub open spec fn dec_seq(n: nat) -> Seq<char>
    decreases n,
{
    if n < 10 {
        seq![digit_char(n as int)]
    } else {
        dec_seq(n / 10).push(digit_char((n % 10) as int))
    }
}

fn digit_of(d: u64) -> (r: char)
    requires
        d < 10,
    ensures
        r == digit_char(d as int),
{
    if d == 0 {
        '0'
    } else if d == 1 {
        '1'
    } else if d == 2 {
        '2'
    } else if d == 3 {
        '3'
    } else if d == 4 {
        '4'
    } else if d == 5 {
        '5'
    } else if d == 6 {
        '6'
    } else if d == 7 {
        '7'
    } else if d == 8 {
        '8'
    } else {
        '9'
    }
}

/// Renders `n` as its decimal numeral.
pub fn decimal_string(n: u64) -> (r: String)
    ensures
        r@ == dec_seq(n as nat),
    decreases n,
{
    if n < 10 {
        let mut s = String::new();
        push_char(&mut s, digit_of(n));
        s
    } else {
        let mut s = decimal_string(n / 10);
        push_char(&mut s, digit_of(n % 10));
        s
    }
}

// ---------------------------------------------------------------------------
// Suffix check
// ---------------------------------------------------------------------------

/// The required extension of a generated document's filename.
pub open spec fn docx_suffix() -> Seq<char> {
    ".docx"@
}

/// `s` ends with `suffix`.
pub open spec fn ends_with(s: Seq<char>, suffix: Seq<char>) -> bool {
    &&& suffix.len() <= s.len()
    &&& match_at(s, suffix, s.len() - suffix.len())
}

/// Whether `s` ends with the literal `suffix`.
pub fn str_ends_with(s: &str, suffix: &str) -> (r: bool)
    ensures
        r == ends_with(s@, suffix@),
{
    let n = s.unicode_len();
    let m = suffix.unicode_len();
    if m > n {
        return false;
    }
    check_match(s, n - m, suffix)
}

} // verus!
