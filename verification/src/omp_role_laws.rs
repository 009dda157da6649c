//! What removing an Omp provider does to `modelRoles`: every role that
//! pointed at it is gone, every other role is kept.
use vstd::prelude::*;
use crate::json::{vstr, JsonView};
use crate::omp_config::{
    key_index, lemma_role_index, remove_keys, role_get, role_index, stale_keys, string_roles,
    swap_remove, RolesView,
};
use crate::text::starts_with;

verus! {

/// No two roles share a key (a YAML mapping).
pub open spec fn role_keys_unique(r: RolesView) -> bool {
    forall|i: int, j: int| 0 <= i < j < r.len() ==> #[trigger] r[i].0 != #[trigger] r[j].0
}

/// A role whose selector is a string starting with `prefix`.
pub open spec fn points_at(v: JsonView, prefix: Seq<char>) -> bool {
    match vstr(Some(v)) {
        Some(s) => starts_with(s, prefix),
        None => false,
    }
}

proof fn lemma_key_index(r: RolesView, k: JsonView)
    ensures
        key_index(r, k) == -1 <==> forall|j: int| 0 <= j < r.len() ==> r[j].0 != k,
        key_index(r, k) != -1 ==> 0 <= key_index(r, k) < r.len() && r[key_index(r, k)].0 == k,
    decreases r.len(),
{
    if r.len() > 0 && r[0].0 != k {
        let t = r.subrange(1, r.len() as int);
        lemma_key_index(t, k);
        if key_index(t, k) == -1 {
            assert forall|j: int| 0 <= j < r.len() implies r[j].0 != k by {
                if j > 0 {
                    assert(r[j] == t[j - 1]);
                }
            }
        } else {
            assert(r[key_index(t, k) + 1] == t[key_index(t, k)]);
        }
        if key_index(t, k) != -1 {
            assert(!(forall|j: int| 0 <= j < r.len() ==> r[j].0 != k)) by {
                assert(r[key_index(t, k) + 1].0 == k);
            }
        }
    }
}

proof fn lemma_swap_remove(r: RolesView, i: int)
    requires
        role_keys_unique(r),
        0 <= i < r.len(),
    ensures
        role_keys_unique(swap_remove(r, i)),
        forall|e: (JsonView, JsonView)|
            #![trigger swap_remove(r, i).contains(e)]
            swap_remove(r, i).contains(e) <==> (r.contains(e) && e.0 != r[i].0),
{
    let n = r.len();
    let t = swap_remove(r, i);
    if i == n - 1 {
        assert(t =~= r.subrange(0, n - 1));
    } else {
        assert(t.len() == n - 1);
        assert forall|j: int| 0 <= j < t.len() implies t[j] == if j == i {
            r[n - 1]
        } else {
            r[j]
        } by {}
    }
    assert forall|a: int, b: int| 0 <= a < b < t.len() implies #[trigger] t[a].0 != #[trigger] t[b].0 by {
        let ia = if i < n - 1 && a == i { n - 1 } else { a };
        let ib = if i < n - 1 && b == i { n - 1 } else { b };
        assert(t[a] == r[ia]);
        assert(t[b] == r[ib]);
        assert(ia != ib);
        if ia < ib {
            assert(r[ia].0 != r[ib].0);
        } else {
            assert(r[ib].0 != r[ia].0);
        }
    }
    assert forall|e: (JsonView, JsonView)| t.contains(e) <==> (r.contains(e) && e.0 != r[i].0) by {
        if t.contains(e) {
            let j = choose|j: int| 0 <= j < t.len() && t[j] == e;
            let ij = if i < n - 1 && j == i { n - 1 } else { j };
            assert(t[j] == r[ij]);
            assert(ij != i);
            if ij < i {
                assert(r[ij].0 != r[i].0);
            } else {
                assert(r[i].0 != r[ij].0);
            }
        }
        if r.contains(e) && e.0 != r[i].0 {
            let j = choose|j: int| 0 <= j < r.len() && r[j] == e;
            assert(j != i);
            if j == n - 1 {
                assert(t[i] == e);
            } else {
                assert(t[j] == e);
            }
        }
    }
}

proof fn lemma_remove_keys(r: RolesView, ks: Seq<JsonView>)
    requires
        role_keys_unique(r),
    ensures
        role_keys_unique(remove_keys(r, ks)),
        forall|e: (JsonView, JsonView)|
            #![trigger remove_keys(r, ks).contains(e)]
            remove_keys(r, ks).contains(e) <==> (r.contains(e) && !ks.contains(e.0)),
    decreases ks.len(),
{
    if ks.len() > 0 {
        let k0 = ks.drop_last();
        let k = ks.last();
        lemma_remove_keys(r, k0);
        let r1 = remove_keys(r, k0);
        lemma_key_index(r1, k);
        let i = key_index(r1, k);
        assert forall|x: JsonView| ks.contains(x) <==> (k0.contains(x) || x == k) by {
            if ks.contains(x) {
                let j = choose|j: int| 0 <= j < ks.len() && ks[j] == x;
                if j < ks.len() - 1 {
                    assert(k0[j] == x);
                }
            }
            if k0.contains(x) {
                let j = choose|j: int| 0 <= j < k0.len() && k0[j] == x;
                assert(ks[j] == x);
            }
            if x == k {
                assert(ks[ks.len() - 1] == x);
            }
        }
        if 0 <= i < r1.len() {
            lemma_swap_remove(r1, i);
            assert forall|e: (JsonView, JsonView)|
                remove_keys(r, ks).contains(e) <==> (r.contains(e) && !ks.contains(e.0)) by {
                assert(remove_keys(r, ks) == swap_remove(r1, i));
                assert(swap_remove(r1, i).contains(e) <==> (r1.contains(e) && e.0 != r1[i].0));
                assert(r1.contains(e) <==> (r.contains(e) && !k0.contains(e.0)));
            }
        } else {
            assert forall|e: (JsonView, JsonView)|
                remove_keys(r, ks).contains(e) <==> (r.contains(e) && !ks.contains(e.0)) by {
                assert(remove_keys(r, ks) == r1);
                assert(r1.contains(e) <==> (r.contains(e) && !k0.contains(e.0)));
                if r1.contains(e) {
                    let j = choose|j: int| 0 <= j < r1.len() && r1[j] == e;
                    assert(r1[j].0 != k);
                }
            }
        }
    }
}

proof fn lemma_stale_keys(r: RolesView, prefix: Seq<char>)
    ensures
        forall|e: (JsonView, JsonView)| r.contains(e) && points_at(e.1, prefix) ==> stale_keys(r, prefix).contains(e.0),
        forall|k: JsonView|
            #![trigger stale_keys(r, prefix).contains(k)]
            stale_keys(r, prefix).contains(k) ==> exists|j: int|
                0 <= j < r.len() && r[j].0 == k && points_at(r[j].1, prefix),
    decreases r.len(),
{
    if r.len() > 0 {
        let r0 = r.drop_last();
        lemma_stale_keys(r0, prefix);
        let s0 = stale_keys(r0, prefix);
        let s = stale_keys(r, prefix);
        let last = r.last();
        assert(s == s0 || s == s0.push(last.0));
        assert forall|e: (JsonView, JsonView)| r.contains(e) && points_at(e.1, prefix) implies s.contains(
            e.0,
        ) by {
            let j = choose|j: int| 0 <= j < r.len() && r[j] == e;
            if j < r.len() - 1 {
                assert(r0[j] == e);
                assert(r0.contains(e));
                let m = choose|m: int| 0 <= m < s0.len() && s0[m] == e.0;
                if s != s0 {
                    assert(s[m] == e.0);
                }
            } else {
                assert(s == s0.push(last.0));
                assert(s[s.len() - 1] == e.0);
            }
        }
        assert forall|k: JsonView| s.contains(k) implies exists|j: int|
            0 <= j < r.len() && r[j].0 == k && points_at(r[j].1, prefix) by {
            let m = choose|m: int| 0 <= m < s.len() && s[m] == k;
            if m < s0.len() {
                assert(s0[m] == k);
                assert(s0.contains(k));
                let j = choose|j: int| 0 <= j < r0.len() && r0[j].0 == k && points_at(r0[j].1, prefix);
                assert(r[j] == r0[j]);
            } else {
                assert(r[r.len() - 1].0 == k);
            }
        }
    }
}

/// Removing a provider's roles (those whose selector starts with
/// `<id>/`) leaves no role pointing at it and keeps every other role.
pub proof fn law_remove_strips_roles(r: RolesView, id: Seq<char>)
    requires
        role_keys_unique(r),
    ensures
        ({
            let out = remove_keys(r, stale_keys(r, id.push('/')));
            &&& role_keys_unique(out)
            &&& forall|j: int| 0 <= j < out.len() ==> !points_at(#[trigger] out[j].1, id.push('/'))
            &&& forall|j: int|
                0 <= j < r.len() && !points_at(#[trigger] r[j].1, id.push('/')) ==> out.contains(r[j])
        }),
{
    let p = id.push('/');
    let ks = stale_keys(r, p);
    let out = remove_keys(r, ks);
    lemma_remove_keys(r, ks);
    lemma_stale_keys(r, p);
    assert forall|j: int| 0 <= j < out.len() implies !points_at(#[trigger] out[j].1, p) by {
        let e = out[j];
        assert(out.contains(e));
        if points_at(e.1, p) {
            assert(r.contains(e));
            assert(ks.contains(e.0));
        }
    }
    assert forall|j: int| 0 <= j < r.len() && !points_at(#[trigger] r[j].1, p) implies out.contains(
        r[j],
    ) by {
        let e = r[j];
        assert(r.contains(e));
        if ks.contains(e.0) {
            let i = choose|i: int| 0 <= i < r.len() && r[i].0 == e.0 && points_at(r[i].1, p);
            if i != j {
                if i < j {
                    assert(r[i].0 != r[j].0);
                } else {
                    assert(r[j].0 != r[i].0);
                }
            }
        }
    }
}

proof fn lemma_string_roles_member(r: RolesView, k: Seq<char>, v: Seq<char>)
    ensures
        string_roles(r).contains((k, v)) <==> exists|i: int|
            0 <= i < r.len() && #[trigger] r[i] == (JsonView::Str(k), JsonView::Str(v)),
    decreases r.len(),
{
    if r.len() > 0 {
        let p = r.drop_last();
        lemma_string_roles_member(p, k, v);
        let sp = string_roles(p);
        if string_roles(r).contains((k, v)) {
            let j = choose|j: int| 0 <= j < string_roles(r).len() && string_roles(r)[j] == (k, v);
            match (r.last().0, r.last().1) {
                (JsonView::Str(a), JsonView::Str(b)) => {
                    if j == sp.len() {
                        assert(r[r.len() - 1] == (JsonView::Str(k), JsonView::Str(v)));
                    } else {
                        assert(sp[j] == (k, v));
                        assert(sp.contains((k, v)));
                        let i = choose|i: int|
                            0 <= i < p.len() && #[trigger] p[i] == (JsonView::Str(k), JsonView::Str(v));
                        assert(r[i] == p[i]);
                    }
                },
                _ => {
                    assert(sp.contains((k, v)));
                    let i = choose|i: int|
                        0 <= i < p.len() && #[trigger] p[i] == (JsonView::Str(k), JsonView::Str(v));
                    assert(r[i] == p[i]);
                },
            }
        }
        if exists|i: int| 0 <= i < r.len() && #[trigger] r[i] == (JsonView::Str(k), JsonView::Str(v)) {
            let i = choose|i: int|
                0 <= i < r.len() && #[trigger] r[i] == (JsonView::Str(k), JsonView::Str(v));
            if i == r.len() - 1 {
                assert(string_roles(r) == sp.push((k, v)));
                assert(string_roles(r)[sp.len() as int] == (k, v));
            } else {
                assert(p[i] == r[i]);
                assert(sp.contains((k, v)));
                let j = choose|j: int| 0 <= j < sp.len() && sp[j] == (k, v);
                match (r.last().0, r.last().1) {
                    (JsonView::Str(a), JsonView::Str(b)) => {
                        assert(string_roles(r)[j] == sp[j]);
                    },
                    _ => {
                        assert(string_roles(r) == sp);
                    },
                }
            }
        }
    }
}

/// The selector that the `default` role has in the roles as listed (only
/// string keys and values) is the one from which the default provider is
/// read: `role_get` sees a string `sel` under `default` exactly when the
/// listed roles hold (`default`, `sel`).
pub proof fn law_default_role_is_the_listed_selector(r: RolesView, sel: Seq<char>)
    requires
        role_keys_unique(r),
    ensures
        vstr(role_get(r, "default"@)) == Some(sel) <==> string_roles(r).contains(("default"@, sel)),
{
    lemma_role_index(r, "default"@);
    lemma_string_roles_member(r, "default"@, sel);
    let i = role_index(r, "default"@);
    if string_roles(r).contains(("default"@, sel)) {
        let j = choose|j: int|
            0 <= j < r.len() && #[trigger] r[j] == (JsonView::Str("default"@), JsonView::Str(sel));
        assert(r[j].0 == JsonView::Str("default"@));
        assert(0 <= i <= j);
        if i != j {
            assert(r[i].0 == r[j].0);
        }
    }
    if vstr(role_get(r, "default"@)) == Some(sel) {
        assert(r[i] == (JsonView::Str("default"@), JsonView::Str(sel)));
    }
}

} // verus!
