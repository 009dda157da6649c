//! Version strings of the managed command-line tools.
use vstd::prelude::*;
use crate::text::{
    chars_of, decimal, find_char, find_char_in, is_digit, leading_digits, lemma_leading_digits_skip,
    lemma_strip_leading_skip, opt_view, parse_u64, parse_u64_range, push_char, push_decimal,
    rfind_char, rfind_char_in, string_from, strip_leading, trim, trim_range,
};

verus! {

/// `major.minor.patch` read from `text`: surrounding whitespace and leading
/// `v`s ignored, major and minor required, the patch taken from the digits
/// that start the third part (0 when there is none).
pub open spec fn spec_parse_version(text: Seq<char>) -> Option<(u64, u64, u64)> {
    let t = strip_leading(trim(text), 'v');
    let i1 = find_char(t, '.');
    let major_s = if i1 < 0 {
        t
    } else {
        t.subrange(0, i1)
    };
    if i1 < 0 {
        None
    } else {
        let r1 = t.subrange(i1 + 1, t.len() as int);
        let i2 = find_char(r1, '.');
        let minor_s = if i2 < 0 {
            r1
        } else {
            r1.subrange(0, i2)
        };
        match (parse_u64(major_s), parse_u64(minor_s)) {
            (Some(major), Some(minor)) => {
                let patch = if i2 < 0 {
                    0
                } else {
                    match parse_u64(leading_digits(r1.subrange(i2 + 1, r1.len() as int))) {
                        Some(p) => p,
                        None => 0,
                    }
                };
                Some((major, minor, patch))
            },
            _ => None,
        }
    }
}

/// Lexicographic order of versions.
pub open spec fn version_lt(a: (u64, u64, u64), b: (u64, u64, u64)) -> bool {
    ||| a.0 < b.0
    ||| (a.0 == b.0 && a.1 < b.1)
    ||| (a.0 == b.0 && a.1 == b.1 && a.2 < b.2)
}

/// `major.minor.patch` in decimal.
pub open spec fn version_text(v: (u64, u64, u64)) -> Seq<char> {
    decimal(v.0 as nat) + seq!['.'] + decimal(v.1 as nat) + seq!['.'] + decimal(v.2 as nat)
}

/// The version in `omp --version` output: the part after the last `/`
/// (`omp/17.2.2`), or the whole text.
pub open spec fn spec_extract_omp_version(text: Seq<char>) -> Option<Seq<char>> {
    let t = trim(text);
    let j = rfind_char(t, '/');
    let seg = if j < 0 {
        t
    } else {
        t.subrange(j + 1, t.len() as int)
    };
    match spec_parse_version(trim(seg)) {
        Some(v) => Some(version_text(v)),
        None => None,
    }
}

/// The patch number: the value of the digits that start `v[from..hi]`, or 0.
fn patch_value(v: &Vec<char>, from: usize, hi: usize) -> (r: u64)
    requires
        from <= hi <= v.len(),
    ensures
        r == match parse_u64(leading_digits(v@.subrange(from as int, hi as int))) {
            Some(p) => p,
            None => 0,
        },
{
    let mut q = from;
    while q < hi && '0' <= v[q] && v[q] <= '9'
        invariant
            from <= q <= hi <= v.len(),
            forall|k: int| from <= k < q ==> is_digit(#[trigger] v@[k]),
        decreases hi - q,
    {
        q = q + 1;
    }
    proof {
        let r2 = v@.subrange(from as int, hi as int);
        assert forall|k: int| 0 <= k < q - from implies is_digit(#[trigger] r2[k]) by {
            assert(r2[k] == v@[k + from]);
        }
        lemma_leading_digits_skip(r2, q - from);
        let rest = r2.subrange(q - from, r2.len() as int);
        if rest.len() > 0 {
            assert(rest[0] == v@[q as int]);
        }
        assert(leading_digits(rest) =~= Seq::<char>::empty());
        assert(r2.subrange(0, q - from) =~= v@.subrange(from as int, q as int));
        assert(leading_digits(r2) =~= v@.subrange(from as int, q as int));
    }
    match parse_u64_range(v, from, q) {
        Some(p) => p,
        None => 0,
    }
}

/// Bounds of `strip_leading(trim(v[lo..hi]), 'v')`.
fn version_bounds(v: &Vec<char>, lo: usize, hi: usize) -> (r: (usize, usize))
    requires
        lo <= hi <= v.len(),
    ensures
        lo <= r.0 <= r.1 <= hi,
        v@.subrange(r.0 as int, r.1 as int) == strip_leading(
            trim(v@.subrange(lo as int, hi as int)),
            'v',
        ),
{
    let (a0, b) = trim_range(v, lo, hi);
    let mut a = a0;
    while a < b && v[a] == 'v'
        invariant
            a0 <= a <= b <= v.len(),
            forall|k: int| a0 <= k < a ==> v@[k] == 'v',
        decreases b - a,
    {
        a = a + 1;
    }
    proof {
        let t = v@.subrange(a as int, b as int);
        let tt = v@.subrange(a0 as int, b as int);
        assert forall|k: int| 0 <= k < a - a0 implies #[trigger] tt[k] == 'v' by {
            assert(tt[k] == v@[k + a0]);
        }
        lemma_strip_leading_skip(tt, 'v', a - a0);
        assert(tt.subrange(a - a0, tt.len() as int) =~= t);
        if t.len() > 0 {
            assert(t[0] == v@[a as int]);
        }
        assert(strip_leading(t, 'v') == t);
    }
    (a, b)
}

fn parse_version_range(v: &Vec<char>, lo: usize, hi: usize) -> (r: Option<(u64, u64, u64)>)
    requires
        lo <= hi <= v.len(),
    ensures
        r == spec_parse_version(v@.subrange(lo as int, hi as int)),
{
    let (a, b) = version_bounds(v, lo, hi);
    let ghost t = v@.subrange(a as int, b as int);
    let i1 = match find_char_in(v, a, b, '.') {
        None => {
            return None;
        },
        Some(i) => i,
    };
    assert(t.subrange(0, i1 - a) =~= v@.subrange(a as int, i1 as int));
    let major = parse_u64_range(v, a, i1);
    let ghost r1 = t.subrange(i1 - a + 1, t.len() as int);
    assert(r1 =~= v@.subrange(i1 + 1, b as int));
    let i2 = find_char_in(v, i1 + 1, b, '.');
    let minor_end = match i2 {
        Some(i) => i,
        None => b,
    };
    proof {
        if i2 is Some {
            assert(r1.subrange(0, minor_end - (i1 + 1)) =~= v@.subrange(i1 + 1, minor_end as int));
        } else {
            assert(v@.subrange(i1 + 1, minor_end as int) =~= r1);
        }
    }
    let minor = parse_u64_range(v, i1 + 1, minor_end);
    match (major, minor) {
        (Some(ma), Some(mi)) => {
            let patch = match i2 {
                None => 0,
                Some(j) => {
                    assert(v@.subrange(j + 1, b as int) =~= r1.subrange(j - i1, r1.len() as int));
                    patch_value(v, j + 1, b)
                },
            };
            Some((ma, mi, patch))
        },
        _ => None,
    }
}

/// `(major, minor, patch)` of a version string such as `17.2.2`, `v0.52.7`
/// or `1.0.0-beta.3`.
pub fn parse_version(text: &str) -> (r: Option<(u64, u64, u64)>)
    ensures
        r == spec_parse_version(text@),
{
    let v = chars_of(text);
    assert(v@.subrange(0, v@.len() as int) =~= v@);
    parse_version_range(&v, 0, v.len())
}

/// Extracts the normalized version from `omp --version` output.
pub fn extract_omp_version(text: &str) -> (r: Option<String>)
    ensures
        opt_view(r) == spec_extract_omp_version(text@),
{
    let v = chars_of(text);
    let (a, b) = trim_range(&v, 0, v.len());
    assert(v@.subrange(0, v@.len() as int) =~= v@);
    let start = match rfind_char_in(&v, a, b, '/') {
        Some(j) => j + 1,
        None => a,
    };
    proof {
        let t = v@.subrange(a as int, b as int);
        let j = rfind_char(t, '/');
        if j >= 0 {
            assert(t.subrange(j + 1, t.len() as int) =~= v@.subrange(start as int, b as int));
        } else {
            assert(t =~= v@.subrange(start as int, b as int));
        }
    }
    let (c, d) = trim_range(&v, start, b);
    let candidate = string_from(&v, c, d);
    match parse_version(candidate.as_str()) {
        Some((ma, mi, pa)) => {
            let mut out = String::new();
            push_decimal(&mut out, ma);
            push_char(&mut out, '.');
            push_decimal(&mut out, mi);
            push_char(&mut out, '.');
            push_decimal(&mut out, pa);
            assert(out@ =~= version_text((ma, mi, pa)));
            Some(out)
        },
        None => None,
    }
}

/// Lexicographic comparison of two versions.
pub fn version_less(a: (u64, u64, u64), b: (u64, u64, u64)) -> (r: bool)
    ensures
        r == version_lt(a, b),
{
    a.0 < b.0 || (a.0 == b.0 && a.1 < b.1) || (a.0 == b.0 && a.1 == b.1 && a.2 < b.2)
}

/// Whether a detected version is known to be older than `min`: both parse,
/// and the detected one orders first.
pub open spec fn spec_known_older(detected: Option<Seq<char>>, min: Seq<char>) -> bool {
    match detected {
        Some(d) => match (spec_parse_version(d), spec_parse_version(min)) {
            (Some(found), Some(m)) => version_lt(found, m),
            _ => false,
        },
        None => false,
    }
}

/// Whether `detected` is known to be older than `min`.
pub fn known_older(detected: Option<&str>, min: &str) -> (r: bool)
    ensures
        r == spec_known_older(
            match detected {
                Some(d) => Some(d@),
                None => None,
            },
            min@,
        ),
{
    match detected {
        Some(d) => match (parse_version(d), parse_version(min)) {
            (Some(found), Some(m)) => version_less(found, m),
            _ => false,
        },
        None => false,
    }
}

} // verus!
