//! Shell wildcards: `*` stands for any run of characters, `?` for any one
//! character. In the pattern of a path neither stands for a `/`.

use vstd::prelude::*;

verus! {

/// Whether a wildcard may stand for `c`.
pub open spec fn wild(pathname: bool, c: char) -> bool {
    !(pathname && c == '/')
}

/// Whether the pattern from `i` on matches the text from `j` on.
pub open spec fn matches_from(pathname: bool, p: Seq<char>, i: int, t: Seq<char>, j: int) -> bool
    decreases p.len() - i, t.len() - j,
{
    if !(0 <= i < p.len()) {
        j >= t.len()
    } else if p[i] == '*' {
        matches_from(pathname, p, i + 1, t, j) || (0 <= j < t.len() && wild(pathname, t[j])
            && matches_from(pathname, p, i, t, j + 1))
    } else if p[i] == '?' {
        0 <= j < t.len() && wild(pathname, t[j]) && matches_from(pathname, p, i + 1, t, j + 1)
    } else {
        0 <= j < t.len() && t[j] == p[i] && matches_from(pathname, p, i + 1, t, j + 1)
    }
}

/// Whether the pattern matches the whole text.
pub open spec fn glob_matches(pathname: bool, pattern: Seq<char>, text: Seq<char>) -> bool {
    matches_from(pathname, pattern, 0, text, 0)
}

/// A pattern without wildcards matches itself and nothing else.
pub proof fn lemma_literal_pattern(pathname: bool, p: Seq<char>, i: int, t: Seq<char>, j: int)
    requires
        0 <= i <= p.len(),
        0 <= j <= t.len(),
        forall|k: int| i <= k < p.len() ==> p[k] != '*' && p[k] != '?',
    ensures
        matches_from(pathname, p, i, t, j) == (p.skip(i) == t.skip(j)),
    decreases p.len() - i,
{
    if i == p.len() {
        assert(p.skip(i).len() == 0);
        if j < t.len() {
            assert(t.skip(j).len() > 0);
        } else {
            assert(t.skip(j) =~= p.skip(i));
        }
    } else if j < t.len() {
        lemma_literal_pattern(pathname, p, i + 1, t, j + 1);
        assert(p.skip(i)[0] == p[i]);
        assert(t.skip(j)[0] == t[j]);
        assert(p.skip(i).skip(1) == p.skip(i + 1));
        assert(t.skip(j).skip(1) == t.skip(j + 1));
        if p[i] == t[j] && p.skip(i + 1) == t.skip(j + 1) {
            assert(p.skip(i) =~= seq![p[i]] + p.skip(i + 1));
            assert(t.skip(j) =~= seq![t[j]] + t.skip(j + 1));
        }
    } else {
        assert(t.skip(j).len() == 0);
        assert(p.skip(i).len() > 0);
    }
}

/// Tells whether `pattern` matches the whole of `text`.
pub fn glob(pathname: bool, pattern: &Vec<char>, text: &Vec<char>) -> (r: bool)
    ensures
        r == glob_matches(pathname, pattern@, text@),
{
    let n = text.len();
    // `row[j]` tells whether the pattern from `i` on matches the text from `j`
    // on, and `end` tells the same for the empty text behind the last character
    let mut row: Vec<bool> = Vec::new();
    let mut end = true;
    let mut j: usize = 0;
    while j < n
        invariant
            j <= n,
            n == text.len(),
            row.len() == j,
            forall|k: int|
                0 <= k < j ==> row@[k] == matches_from(
                    pathname,
                    pattern@,
                    pattern.len() as int,
                    text@,
                    k,
                ),
        decreases n - j,
    {
        row.push(false);
        j += 1;
    }
    let mut i = pattern.len();
    while i > 0
        invariant
            i <= pattern.len(),
            n == text.len(),
            row.len() == n,
            end == matches_from(pathname, pattern@, i as int, text@, n as int),
            forall|k: int|
                0 <= k < n ==> row@[k] == matches_from(pathname, pattern@, i as int, text@, k),
        decreases i,
    {
        i -= 1;
        let c = pattern[i];
        let next_end = c == '*' && end;
        let mut next = row.clone();
        // fill from the end of the text, where nothing is left to match
        let mut j = n;
        while j > 0
            invariant
                j <= n,
                n == text.len(),
                i < pattern.len(),
                c == pattern@[i as int],
                row.len() == n,
                next.len() == n,
                end == matches_from(pathname, pattern@, i + 1, text@, n as int),
                next_end == matches_from(pathname, pattern@, i as int, text@, n as int),
                forall|k: int|
                    0 <= k < n ==> row@[k] == matches_from(pathname, pattern@, i + 1, text@, k),
                forall|k: int|
                    j <= k < n ==> next@[k] == matches_from(
                        pathname,
                        pattern@,
                        i as int,
                        text@,
                        k,
                    ),
            decreases j,
        {
            j -= 1;
            let may = !(pathname && text[j] == '/');
            let after = if j + 1 < n {
                row[j + 1]
            } else {
                end
            };
            let value = if c == '*' {
                let longer = if j + 1 < n {
                    next[j + 1]
                } else {
                    next_end
                };
                row[j] || (may && longer)
            } else if c == '?' {
                may && after
            } else {
                text[j] == c && after
            };
            next.set(j, value);
        }
        row = next;
        end = next_end;
    }
    if n == 0 {
        end
    } else {
        row[0]
    }
}

} // verus!
