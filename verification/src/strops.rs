//! More string operations: stripping repeated characters at either end,
//! substring search and replacement.
use vstd::prelude::*;
use crate::text::{
    chars_of, lemma_strip_leading_skip, push_char, push_str, range_starts_with, starts_with,
    string_from, strip_leading,
};

verus! {

/// `str::trim_end_matches(c)`: every trailing `c` removed.
pub open spec fn strip_trailing(s: Seq<char>, c: char) -> Seq<char>
    decreases s.len(),
{
    if s.len() > 0 && s.last() == c {
        strip_trailing(s.drop_last(), c)
    } else {
        s
    }
}

proof fn lemma_strip_trailing_cut(s: Seq<char>, c: char, j: int)
    requires
        0 <= j <= s.len(),
        forall|k: int| j <= k < s.len() ==> #[trigger] s[k] == c,
    ensures
        strip_trailing(s, c) == strip_trailing(s.subrange(0, j), c),
    decreases s.len() - j,
{
    if j < s.len() {
        let t = s.drop_last();
        assert forall|k: int| j <= k < t.len() implies #[trigger] t[k] == c by {
            assert(t[k] == s[k]);
        }
        lemma_strip_trailing_cut(t, c, j);
        assert(t.subrange(0, j) =~= s.subrange(0, j));
    } else {
        assert(s.subrange(0, j) =~= s);
    }
}

/// `str::trim_start_matches(c)`.
pub fn trim_start_matches(s: &str, c: char) -> (r: String)
    ensures
        r@ == strip_leading(s@, c),
{
    let v = chars_of(s);
    let mut i: usize = 0;
    while i < v.len() && v[i] == c
        invariant
            0 <= i <= v.len(),
            v@ == s@,
            forall|j: int| 0 <= j < i ==> #[trigger] v@[j] == c,
        decreases v.len() - i,
    {
        i = i + 1;
    }
    proof {
        lemma_strip_leading_skip(v@, c, i as int);
    }
    string_from(&v, i, v.len())
}

/// `str::trim_end_matches(c)`.
pub fn trim_end_matches(s: &str, c: char) -> (r: String)
    ensures
        r@ == strip_trailing(s@, c),
{
    let v = chars_of(s);
    let mut j: usize = v.len();
    while j > 0 && v[j - 1] == c
        invariant
            0 <= j <= v.len(),
            v@ == s@,
            forall|k: int| j <= k < v.len() ==> #[trigger] v@[k] == c,
        decreases j,
    {
        j = j - 1;
    }
    proof {
        lemma_strip_trailing_cut(v@, c, j as int);
    }
    string_from(&v, 0, j)
}

/// `p` occurs in `s` at `i`.
pub open spec fn occurs_at(s: Seq<char>, p: Seq<char>, i: int) -> bool {
    0 <= i && i + p.len() <= s.len() && s.subrange(i, i + p.len()) == p
}

/// `str::contains` with a string pattern.
pub open spec fn contains_seq(s: Seq<char>, p: Seq<char>) -> bool {
    exists|i: int| occurs_at(s, p, i)
}

/// `str::contains`.
pub fn str_contains(s: &str, p: &str) -> (b: bool)
    ensures
        b == contains_seq(s@, p@),
{
    let v = chars_of(s);
    let pv = chars_of(p);
    if pv.len() > v.len() {
        proof {
            assert forall|i: int| !occurs_at(s@, p@, i) by {}
        }
        return false;
    }
    let mut i: usize = 0;
    let last: usize = v.len() - pv.len();
    loop
        invariant
            last == v.len() - pv.len(),
            v@ == s@,
            pv@ == p@,
            pv.len() <= v.len(),
            0 <= i <= last,
            forall|j: int| 0 <= j < i ==> !occurs_at(s@, p@, j),
        ensures
            forall|j: int| 0 <= j <= last ==> !occurs_at(s@, p@, j),
        decreases last - i,
    {
        proof {
            assert(v@.subrange(i as int, v.len() as int).subrange(0, pv.len() as int) =~= v@.subrange(
                i as int,
                i + pv.len(),
            ));
        }
        if range_starts_with(&v, i, v.len(), &pv) {
            assert(occurs_at(s@, p@, i as int));
            return true;
        }
        if i == last {
            break;
        }
        i = i + 1;
    }
    proof {
        assert forall|j: int| !occurs_at(s@, p@, j) by {
            if j > last {
                assert(j + p@.len() > s@.len());
            }
        }
    }
    false
}

/// `str::replace(pat, rep)` for a non-empty pattern: the leftmost
/// non-overlapping occurrences of `pat` replaced by `rep`.
pub open spec fn replace_all(s: Seq<char>, pat: Seq<char>, rep: Seq<char>) -> Seq<char>
    decreases s.len(),
{
    if s.len() == 0 || pat.len() == 0 {
        s
    } else if starts_with(s, pat) {
        rep + replace_all(s.subrange(pat.len() as int, s.len() as int), pat, rep)
    } else {
        seq![s[0]] + replace_all(s.subrange(1, s.len() as int), pat, rep)
    }
}

/// Replacing by something shorter never lengthens, and shortens when the
/// pattern occurs.
pub proof fn lemma_replace_all_shrinks(s: Seq<char>, pat: Seq<char>, rep: Seq<char>)
    requires
        pat.len() > 0,
        rep.len() < pat.len(),
    ensures
        replace_all(s, pat, rep).len() <= s.len(),
        contains_seq(s, pat) ==> replace_all(s, pat, rep).len() < s.len(),
    decreases s.len(),
{
    if s.len() > 0 {
        if starts_with(s, pat) {
            lemma_replace_all_shrinks(s.subrange(pat.len() as int, s.len() as int), pat, rep);
        } else {
            let t = s.subrange(1, s.len() as int);
            lemma_replace_all_shrinks(t, pat, rep);
            if contains_seq(s, pat) {
                let i = choose|i: int| occurs_at(s, pat, i);
                if i == 0 {
                    assert(s.subrange(0, pat.len() as int) == pat);
                } else {
                    assert(t.subrange(i - 1, i - 1 + pat.len()) =~= s.subrange(i, i + pat.len()));
                    assert(occurs_at(t, pat, i - 1));
                }
            }
        }
    } else {
        if contains_seq(s, pat) {
            let i = choose|i: int| occurs_at(s, pat, i);
        }
    }
}

/// `str::replace` for a non-empty pattern.
pub fn replace_str(s: &str, pat: &str, rep: &str) -> (r: String)
    requires
        pat@.len() > 0,
    ensures
        r@ == replace_all(s@, pat@, rep@),
{
    let v = chars_of(s);
    let pv = chars_of(pat);
    let mut out = String::new();
    let mut i: usize = 0;
    assert(v@.subrange(0, v.len() as int) =~= v@);
    assert(out@ + replace_all(v@, pat@, rep@) =~= replace_all(v@, pat@, rep@));
    while i < v.len()
        invariant
            v@ == s@,
            pv@ == pat@,
            pv.len() > 0,
            0 <= i <= v.len(),
            out@ + replace_all(v@.subrange(i as int, v.len() as int), pat@, rep@) == replace_all(
                s@,
                pat@,
                rep@,
            ),
        decreases v.len() - i,
    {
        let ghost t = v@.subrange(i as int, v.len() as int);
        if range_starts_with(&v, i, v.len(), &pv) {
            proof {
                assert(t.subrange(pv.len() as int, t.len() as int) =~= v@.subrange(
                    i + pv.len(),
                    v.len() as int,
                ));
                assert(out@ + rep@ + replace_all(
                    v@.subrange(i + pv.len(), v.len() as int),
                    pat@,
                    rep@,
                ) =~= out@ + replace_all(t, pat@, rep@));
            }
            push_str(&mut out, rep);
            i = i + pv.len();
        } else {
            proof {
                assert(t.subrange(1, t.len() as int) =~= v@.subrange(i + 1, v.len() as int));
                assert(out@.push(v@[i as int]) + replace_all(
                    v@.subrange(i + 1, v.len() as int),
                    pat@,
                    rep@,
                ) =~= out@ + replace_all(t, pat@, rep@));
            }
            push_char(&mut out, v[i]);
            i = i + 1;
        }
    }
    proof {
        assert(v@.subrange(v.len() as int, v.len() as int) =~= Seq::<char>::empty());
        assert(out@ + Seq::<char>::empty() =~= out@);
    }
    out
}

/// Replaces `pat` by the shorter `rep` until `pat` no longer occurs.
pub open spec fn collapse(s: Seq<char>, pat: Seq<char>, rep: Seq<char>) -> Seq<char>
    decreases s.len(),
{
    if pat.len() > 0 && rep.len() < pat.len() && contains_seq(s, pat) {
        proof {
            lemma_replace_all_shrinks(s, pat, rep);
        }
        collapse(replace_all(s, pat, rep), pat, rep)
    } else {
        s
    }
}

/// Replaces `pat` by the shorter `rep` until `pat` no longer occurs.
pub fn collapse_str(s: String, pat: &str, rep: &str) -> (r: String)
    requires
        pat@.len() > 0,
        rep@.len() < pat@.len(),
    ensures
        r@ == collapse(s@, pat@, rep@),
{
    let mut cur = s;
    while str_contains(cur.as_str(), pat)
        invariant
            pat@.len() > 0,
            rep@.len() < pat@.len(),
            collapse(cur@, pat@, rep@) == collapse(s@, pat@, rep@),
        decreases cur@.len(),
    {
        proof {
            lemma_replace_all_shrinks(cur@, pat@, rep@);
        }
        cur = replace_str(cur.as_str(), pat, rep);
    }
    cur
}

} // verus!
