//! Patterns for names and paths. In a pattern `*` stands for any run of
//! characters, the empty one too, and `?` for any one character; every
//! other character stands for itself.

use vstd::prelude::*;
use vstd::string::StrSliceExecFns;

verus! {

/// The pattern from `i` on matches the text from `j` on.
pub open spec fn matches_at(pattern: Seq<char>, i: int, text: Seq<char>, j: int) -> bool
    decreases pattern.len() - i, text.len() - j,
{
    if i < 0 || j < 0 || j > text.len() {
        false
    } else if i >= pattern.len() {
        j == text.len()
    } else if pattern[i] == '*' {
        matches_at(pattern, i + 1, text, j) || (j < text.len() && matches_at(
            pattern,
            i,
            text,
            j + 1,
        ))
    } else {
        j < text.len() && (pattern[i] == '?' || pattern[i] == text[j]) && matches_at(
            pattern,
            i + 1,
            text,
            j + 1,
        )
    }
}

/// The pattern matches the whole text.
pub open spec fn matches_text(pattern: Seq<char>, text: Seq<char>) -> bool {
    matches_at(pattern, 0, text, 0)
}

/// The pattern holds no `*` and no `?` at or after `from`.
pub open spec fn literal(pattern: Seq<char>, from: int) -> bool {
    forall|i: int| from <= i < pattern.len() ==> pattern[i] != '*' && pattern[i] != '?'
}

/// A pattern without `*` and `?` matches one text: itself.
pub proof fn lemma_literal_matches_itself(pattern: Seq<char>, text: Seq<char>, i: int)
    requires
        0 <= i <= pattern.len(),
        i <= text.len(),
        literal(pattern, i),
    ensures
        matches_at(pattern, i, text, i) <==> pattern.subrange(i, pattern.len() as int)
            == text.subrange(i, text.len() as int),
    decreases pattern.len() - i,
{
    let p = pattern.subrange(i, pattern.len() as int);
    let t = text.subrange(i, text.len() as int);
    if i >= pattern.len() {
        if i == text.len() {
            assert(p =~= t);
        } else {
            assert(p.len() != t.len());
        }
    } else if i >= text.len() {
        assert(p.len() != t.len());
    } else {
        lemma_literal_matches_itself(pattern, text, i + 1);
        let p_rest = pattern.subrange(i + 1, pattern.len() as int);
        let t_rest = text.subrange(i + 1, text.len() as int);
        if p == t {
            assert(p[0] == t[0]);
            assert(p_rest =~= p.subrange(1, p.len() as int));
            assert(t_rest =~= t.subrange(1, t.len() as int));
        }
        if pattern[i] == text[i] && p_rest == t_rest {
            assert(p =~= seq![pattern[i]] + p_rest);
            assert(t =~= seq![text[i]] + t_rest);
        }
        if p != t && pattern[i] == text[i] {
            assert(p_rest != t_rest);
        }
    }
}

/// A pattern without `*` and `?` matches exactly the text that equals
/// it.
pub proof fn lemma_literal(pattern: Seq<char>, text: Seq<char>)
    requires
        literal(pattern, 0),
    ensures
        matches_text(pattern, text) <==> pattern == text,
{
    lemma_literal_matches_itself(pattern, text, 0);
    assert(pattern.subrange(0, pattern.len() as int) =~= pattern);
    assert(text.subrange(0, text.len() as int) =~= text);
}

/// The pattern `*` matches every text.
pub proof fn lemma_star_matches_all(pattern: Seq<char>, text: Seq<char>, j: int)
    requires
        pattern == seq!['*'],
        0 <= j <= text.len(),
    ensures
        matches_at(pattern, 0, text, j),
    decreases text.len() - j,
{
    if j < text.len() {
        lemma_star_matches_all(pattern, text, j + 1);
    } else {
        assert(matches_at(pattern, 1, text, j));
    }
}

/// A pattern that ends in `*` matches, from that `*` on, whatever is left
/// of the text.
pub proof fn lemma_trailing_star(pattern: Seq<char>, text: Seq<char>, j: int)
    requires
        pattern.len() > 0,
        pattern[pattern.len() - 1] == '*',
        0 <= j <= text.len(),
    ensures
        matches_at(pattern, pattern.len() - 1, text, j),
    decreases text.len() - j,
{
    if j < text.len() {
        lemma_trailing_star(pattern, text, j + 1);
    } else {
        assert(matches_at(pattern, pattern.len() as int, text, j));
    }
}

/// A pattern made of plain characters and a `*` at its end matches, from
/// `i` on, the texts that hold the same characters up to the `*`.
pub proof fn lemma_prefix_star_at(pattern: Seq<char>, text: Seq<char>, i: int)
    requires
        pattern.len() > 0,
        pattern[pattern.len() - 1] == '*',
        0 <= i < pattern.len(),
        forall|k: int| i <= k < pattern.len() - 1 ==> pattern[k] != '*' && pattern[k] != '?',
    ensures
        matches_at(pattern, i, text, i) <==> (pattern.len() - 1 <= text.len() && forall|k: int|
            i <= k < pattern.len() - 1 ==> pattern[k] == text[k]),
    decreases pattern.len() - i,
{
    let n = pattern.len() - 1;
    if i == n {
        if n <= text.len() {
            lemma_trailing_star(pattern, text, n);
        }
    } else {
        lemma_prefix_star_at(pattern, text, i + 1);
    }
}

/// A pattern made of a plain text and a `*` matches exactly the texts
/// that begin with the plain text.
pub proof fn lemma_prefix_star(prefix: Seq<char>, text: Seq<char>)
    requires
        literal(prefix, 0),
    ensures
        matches_text(prefix.push('*'), text) <==> (prefix.len() <= text.len() && text.subrange(
            0,
            prefix.len() as int,
        ) == prefix),
{
    let pattern = prefix.push('*');
    lemma_prefix_star_at(pattern, text, 0);
    if prefix.len() <= text.len() {
        let head = text.subrange(0, prefix.len() as int);
        if head == prefix {
            assert forall|k: int| 0 <= k < prefix.len() implies pattern[k] == text[k] by {
                assert(head[k] == text[k]);
            }
        }
        if forall|k: int| 0 <= k < prefix.len() ==> pattern[k] == text[k] {
            assert(head =~= prefix);
        }
    }
}

/// Whether the pattern matches the whole text, both given by their
/// characters.
pub fn chars_match(pattern: &Vec<char>, text: &Vec<char>) -> (res: bool)
    ensures
        res == matches_text(pattern@, text@),
{
    let n = pattern.len();
    let m = text.len();
    // `row[j]` says whether the pattern from `i` on matches the text
    // from `j` on; the rows are filled from the pattern's end.
    let mut row: Vec<bool> = Vec::new();
    let mut j: usize = 0;
    while j < m
        invariant
            j <= m,
            m == text@.len(),
            n == pattern@.len(),
            row@.len() == j,
            forall|k: int| 0 <= k < j ==> row@[k] == matches_at(pattern@, n as int, text@, k),
        decreases m - j,
    {
        row.push(false);
        j += 1;
    }
    row.push(true);
    let mut i: usize = n;
    while i > 0
        invariant
            i <= n,
            m == text@.len(),
            n == pattern@.len(),
            row@.len() == m + 1,
            forall|k: int| 0 <= k <= m ==> row@[k] == matches_at(pattern@, i as int, text@, k),
        decreases i,
    {
        i -= 1;
        let c = pattern[i];
        let ghost below = row@;
        // at the text's end only `*` can still match
        let mut after: bool = row[m];
        let last = c == '*' && after;
        row.set(m, last);
        let mut k: usize = m;
        while k > 0
            invariant
                k <= m,
                i < n,
                c == pattern@[i as int],
                m == text@.len(),
                n == pattern@.len(),
                row@.len() == m + 1,
                below.len() == m + 1,
                forall|q: int| 0 <= q <= m ==> below[q] == matches_at(
                    pattern@,
                    i + 1,
                    text@,
                    q,
                ),
                forall|q: int| k <= q <= m ==> row@[q] == matches_at(pattern@, i as int, text@, q),
                forall|q: int| 0 <= q < k ==> row@[q] == below[q],
                after == below[k as int],
            decreases k,
        {
            k -= 1;
            let under = row[k];
            let here = if c == '*' {
                under || row[k + 1]
            } else {
                (c == '?' || c == text[k]) && after
            };
            assert(under == below[k as int]);
            assert(here == matches_at(pattern@, i as int, text@, k as int));
            row.set(k, here);
            after = under;
        }
    }
    row[0]
}

/// The characters of a text.
pub fn text_chars(text: &str) -> (res: Vec<char>)
    ensures
        res@ == text@,
{
    let n = text.unicode_len();
    let mut out: Vec<char> = Vec::new();
    let mut i: usize = 0;
    while i < n
        invariant
            i <= n,
            n == text@.len(),
            out@ == text@.subrange(0, i as int),
        decreases n - i,
    {
        out.push(text.get_char(i));
        assert(text@.subrange(0, i + 1) =~= text@.subrange(0, i as int).push(text@[i as int]));
        i += 1;
    }
    assert(text@.subrange(0, n as int) =~= text@);
    out
}

/// Whether the pattern matches the whole text.
pub fn is_match(pattern: &str, text: &str) -> (res: bool)
    ensures
        res == matches_text(pattern@, text@),
{
    let p = text_chars(pattern);
    let t = text_chars(text);
    chars_match(&p, &t)
}

} // verus!
