//! Top-level sections of a YAML document, located and replaced as text.
//!
//! A section of key `K` starts at the first line that begins (in column 0)
//! with `K:`. It runs over the lines that follow as long as they are indented
//! (space or tab), start with `-`, are blank, or are column-0 `#` comments,
//! and it ends after the last indented or `-` line: blank and comment lines
//! between the section and the next top-level line stay outside it.
use vstd::prelude::*;
use crate::text::{
    chars_of, find_char, find_char_in, lemma_find_char, push_range, push_str, starts_with,
};

verus! {

/// Index of the `\n` that ends the line starting at `j`, or `s.len()`.
pub open spec fn line_end(s: Seq<char>, j: int) -> int {
    let f = find_char(s.subrange(j, s.len() as int), '\n');
    if f < 0 {
        s.len() as int
    } else {
        j + f
    }
}

/// Start of the line after the one starting at `j`.
pub open spec fn next_line(s: Seq<char>, j: int) -> int {
    let e = line_end(s, j);
    if e < s.len() {
        e + 1
    } else {
        s.len() as int
    }
}

pub open spec fn is_blank(l: Seq<char>) -> bool {
    forall|i: int| 0 <= i < l.len() ==> (#[trigger] l[i] == ' ' || l[i] == '\t' || l[i] == '\r')
}

/// Where the section body that continues at line `j` ends; `end` is the end
/// of the last indented line seen so far.
pub open spec fn section_end_from(s: Seq<char>, j: int, end: int) -> int
    recommends
        0 <= j <= s.len(),
    decreases s.len() - j,
{
    if j < 0 || j >= s.len() {
        end
    } else {
        let e = line_end(s, j);
        let n = next_line(s, j);
        let l = s.subrange(j, e);
        if n <= j {
            end
        } else if is_blank(l) || l[0] == '#' {
            section_end_from(s, n, end)
        } else if l[0] == ' ' || l[0] == '\t' || l[0] == '-' {
            section_end_from(s, n, n)
        } else {
            end
        }
    }
}

/// `K:` as characters.
pub open spec fn key_colon(key: Seq<char>) -> Seq<char> {
    key.push(':')
}

/// First line start at or after `j` (itself a line start) whose line begins
/// with `K:`, or -1.
pub open spec fn find_key_line(s: Seq<char>, key: Seq<char>, j: int) -> int
    decreases s.len() - j,
{
    if j < 0 || j >= s.len() {
        -1
    } else if starts_with(s.subrange(j, s.len() as int), key_colon(key)) {
        j
    } else {
        let n = next_line(s, j);
        if n <= j {
            -1
        } else {
            find_key_line(s, key, n)
        }
    }
}

/// The byte range `[start, end)` of the first top-level section of `key`.
pub open spec fn spec_section_range(s: Seq<char>, key: Seq<char>) -> Option<(int, int)> {
    let st = find_key_line(s, key, 0);
    if st < 0 {
        None
    } else {
        let n = next_line(s, st);
        Some((st, section_end_from(s, n, n)))
    }
}

/// `s` with the first section of `key` replaced by `text`, or with `text`
/// appended (after a line break when `s` does not end with one) when there
/// is no such section.
pub open spec fn spec_replace_section(s: Seq<char>, key: Seq<char>, text: Seq<char>) -> Seq<char> {
    match spec_section_range(s, key) {
        Some((st, en)) => s.subrange(0, st) + text + s.subrange(en, s.len() as int),
        None => if s.len() > 0 && s.last() != '\n' {
            s + seq!['\n'] + text
        } else {
            s + text
        },
    }
}

proof fn lemma_line_end(s: Seq<char>, j: int)
    requires
        0 <= j <= s.len(),
    ensures
        j <= line_end(s, j) <= s.len(),
        line_end(s, j) < s.len() ==> s[line_end(s, j)] == '\n',
        forall|k: int| j <= k < line_end(s, j) ==> s[k] != '\n',
        j < next_line(s, j) || j == s.len(),
        next_line(s, j) <= s.len(),
{
    let t = s.subrange(j, s.len() as int);
    lemma_find_char(t, '\n');
    assert forall|k: int| j <= k < line_end(s, j) implies s[k] != '\n' by {
        assert(t[k - j] == s[k]);
    }
    if find_char(t, '\n') >= 0 {
        assert(t[find_char(t, '\n')] == s[j + find_char(t, '\n')]);
    }
}

proof fn lemma_section_end_bound(s: Seq<char>, j: int, end: int)
    requires
        0 <= j <= s.len(),
        0 <= end <= j,
    ensures
        0 <= section_end_from(s, j, end) <= s.len(),
        end <= section_end_from(s, j, end),
    decreases s.len() - j,
{
    if j < s.len() {
        lemma_line_end(s, j);
        let n = next_line(s, j);
        lemma_section_end_bound(s, n, end);
        lemma_section_end_bound(s, n, n);
    }
}

/// Index of the `\n` ending the line at `j`, or `v.len()`.
fn line_end_exec(v: &Vec<char>, j: usize) -> (e: usize)
    requires
        j <= v.len(),
    ensures
        e as int == line_end(v@, j as int),
{
    match find_char_in(v, j, v.len(), '\n') {
        Some(i) => i,
        None => v.len(),
    }
}

fn section_end_exec(v: &Vec<char>, j0: usize) -> (r: usize)
    requires
        j0 <= v.len(),
    ensures
        r as int == section_end_from(v@, j0 as int, j0 as int),
        j0 <= r <= v.len(),
{
    let ghost s = v@;
    proof {
        lemma_section_end_bound(s, j0 as int, j0 as int);
    }
    let mut j = j0;
    let mut end = j0;
    while j < v.len()
        invariant
            j0 <= end <= j <= v.len(),
            s == v@,
            section_end_from(s, j as int, end as int) == section_end_from(s, j0 as int, j0 as int),
        decreases v.len() - j,
    {
        let e = line_end_exec(v, j);
        proof {
            lemma_line_end(s, j as int);
        }
        let n = if e < v.len() {
            e + 1
        } else {
            v.len()
        };
        let mut blank = true;
        let mut k = j;
        while k < e
            invariant
                j <= k <= e <= v.len(),
                blank <==> forall|m: int| j <= m < k ==> (v@[m] == ' ' || v@[m] == '\t' || v@[m] == '\r'),
            decreases e - k,
        {
            if !(v[k] == ' ' || v[k] == '\t' || v[k] == '\r') {
                blank = false;
            }
            k = k + 1;
        }
        proof {
            let l = s.subrange(j as int, e as int);
            if blank {
                assert forall|i: int| 0 <= i < l.len() implies (#[trigger] l[i] == ' ' || l[i] == '\t'
                    || l[i] == '\r') by {
                    assert(l[i] == s[j + i]);
                }
            } else {
                let m = choose|m: int| j <= m < e && !(v@[m] == ' ' || v@[m] == '\t' || v@[m] == '\r');
                assert(l[m - j] == s[m]);
            }
            assert(blank == is_blank(l));
            if e > j {
                assert(l[0] == s[j as int]);
            }
        }
        if blank || v[j] == '#' {
            j = n;
        } else if v[j] == ' ' || v[j] == '\t' || v[j] == '-' {
            j = n;
            end = n;
        } else {
            return end;
        }
    }
    end
}

/// The range `[start, end)` of the first top-level section of `key` in `raw`.
pub fn find_yaml_section_range(raw: &str, key: &str) -> (r: Option<(usize, usize)>)
    ensures
        match r {
            Some((a, b)) => spec_section_range(raw@, key@) == Some((a as int, b as int)),
            None => spec_section_range(raw@, key@) is None,
        },
{
    let v = chars_of(raw);
    let mut kc = chars_of(key);
    kc.push(':');
    let ghost s = v@;
    let mut j: usize = 0;
    while j < v.len()
        invariant
            j <= v.len(),
            s == v@,
            s == raw@,
            kc@ == key_colon(key@),
            find_key_line(s, key@, j as int) == find_key_line(s, key@, 0),
        decreases v.len() - j,
    {
        if crate::text::range_starts_with(&v, j, v.len(), &kc) {
            let e = line_end_exec(&v, j);
            proof {
                lemma_line_end(s, j as int);
            }
            let n = if e < v.len() {
                e + 1
            } else {
                v.len()
            };
            let end = section_end_exec(&v, n);
            return Some((j, end));
        }
        let e = line_end_exec(&v, j);
        proof {
            lemma_line_end(s, j as int);
        }
        j = if e < v.len() {
            e + 1
        } else {
            v.len()
        };
    }
    None
}

/// The text of the first top-level section of `key`.
pub fn section_text(raw: &str, key: &str) -> (r: Option<String>)
    ensures
        match r {
            Some(t) => match spec_section_range(raw@, key@) {
                Some((a, b)) => t@ == raw@.subrange(a, b),
                None => false,
            },
            None => spec_section_range(raw@, key@) is None,
        },
{
    match find_yaml_section_range(raw, key) {
        Some((a, b)) => {
            let v = chars_of(raw);
            proof {
                lemma_range_valid(raw@, key@);
            }
            Some(crate::text::string_from(&v, a, b))
        },
        None => None,
    }
}

proof fn lemma_range_valid(s: Seq<char>, key: Seq<char>)
    ensures
        match spec_section_range(s, key) {
            Some((a, b)) => 0 <= a < b <= s.len(),
            None => true,
        },
{
    lemma_find_key_line(s, key, 0);
    let st = find_key_line(s, key, 0);
    if st >= 0 {
        lemma_line_end(s, st);
        let n = next_line(s, st);
        lemma_section_end_bound(s, n, n);
    }
}

proof fn lemma_find_key_line(s: Seq<char>, key: Seq<char>, j: int)
    requires
        0 <= j,
    ensures
        find_key_line(s, key, j) == -1 || (j <= find_key_line(s, key, j) < s.len()),
    decreases s.len() - j,
{
    if j < s.len() && !starts_with(s.subrange(j, s.len() as int), key_colon(key)) {
        lemma_line_end(s, j);
        let n = next_line(s, j);
        if n > j {
            lemma_find_key_line(s, key, n);
        }
    }
}

/// Replaces the first top-level section of `key` in `raw` with `text` (a
/// serialized `key: ...` mapping), keeping every character outside the
/// section; appends `text` when there is no such section.
pub fn replace_yaml_section(raw: &str, key: &str, text: &str) -> (r: String)
    ensures
        r@ == spec_replace_section(raw@, key@, text@),
{
    let v = chars_of(raw);
    let mut out = String::new();
    match find_yaml_section_range(raw, key) {
        Some((a, b)) => {
            proof {
                lemma_range_valid(raw@, key@);
            }
            push_range(&mut out, &v, 0, a);
            push_str(&mut out, text);
            push_range(&mut out, &v, b, v.len());
            assert(out@ =~= spec_replace_section(raw@, key@, text@));
        },
        None => {
            push_range(&mut out, &v, 0, v.len());
            if v.len() > 0 && v[v.len() - 1] != '\n' {
                crate::text::push_char(&mut out, '\n');
            }
            push_str(&mut out, text);
            assert(v@.subrange(0, v@.len() as int) =~= v@);
            assert(out@ =~= spec_replace_section(raw@, key@, text@));
        },
    }
    out
}

/// `s` with every top-level section of `key` removed.
pub open spec fn spec_remove_all_sections(s: Seq<char>, key: Seq<char>) -> Seq<char>
    decreases s.len(),
{
    match spec_section_range(s, key) {
        Some((st, en)) => if 0 <= st < en <= s.len() {
            spec_remove_all_sections(s.subrange(0, st) + s.subrange(en, s.len() as int), key)
        } else {
            s
        },
        None => s,
    }
}

/// Removes every top-level section of `key`, keeping everything else.
pub fn remove_all_sections(raw: &str, key: &str) -> (r: String)
    ensures
        r@ == spec_remove_all_sections(raw@, key@),
{
    let mut cur = crate::text::to_string(raw);
    loop
        invariant
            spec_remove_all_sections(cur@, key@) == spec_remove_all_sections(raw@, key@),
        decreases cur@.len(),
    {
        match find_yaml_section_range(cur.as_str(), key) {
            Some((a, b)) => {
                proof {
                    lemma_range_valid(cur@, key@);
                }
                let v = chars_of(cur.as_str());
                let mut next = String::new();
                push_range(&mut next, &v, 0, a);
                push_range(&mut next, &v, b, v.len());
                assert(next@ =~= cur@.subrange(0, a as int) + cur@.subrange(b as int, cur@.len() as int));
                cur = next;
            },
            None => {
                return cur;
            },
        }
    }
}


/// Replacing a section keeps every character outside it: what precedes the
/// section and what follows it are unchanged (and a document without the
/// section keeps all of its text, before the appended section).
pub proof fn law_replace_keeps_outside(s: Seq<char>, key: Seq<char>, text: Seq<char>)
    ensures
        match spec_section_range(s, key) {
            Some((st, en)) => {
                let r = spec_replace_section(s, key, text);
                &&& 0 <= st < en <= s.len()
                &&& r.subrange(0, st) == s.subrange(0, st)
                &&& r.subrange(st, st + text.len()) == text
                &&& r.subrange(st + text.len(), r.len() as int) == s.subrange(en, s.len() as int)
            },
            None => {
                let r = spec_replace_section(s, key, text);
                &&& r.subrange(0, s.len() as int) == s
                &&& r.subrange(r.len() - text.len(), r.len() as int) == text
            },
        },
{
    lemma_range_valid(s, key);
    let r = spec_replace_section(s, key, text);
    match spec_section_range(s, key) {
        Some((st, en)) => {
            assert(r.subrange(0, st) =~= s.subrange(0, st));
            assert(r.subrange(st, st + text.len()) =~= text);
            assert(r.subrange(st + text.len(), r.len() as int) =~= s.subrange(en, s.len() as int));
        },
        None => {
            assert(r.subrange(0, s.len() as int) =~= s);
            assert(r.subrange(r.len() - text.len(), r.len() as int) =~= text);
        },
    }
}

} // verus!
