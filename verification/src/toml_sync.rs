//! Bringing a written TOML document in line with its edited model while
//! keeping what did not change as it was written: the plan lists, per
//! table, the keys to drop, the items to write anew and the sub-tables to
//! descend into. Keys whose value is unchanged get no edit, so their text,
//! comments included, stays untouched.
use vstd::prelude::*;
use crate::json::{
    keys_unique, clone_json, json_eq, jview, jview_entries, lemma_jview_entries, lemma_vindex, obj_get,
    obj_index, vget, vindex, JsonValue, JsonView, ObjView,
};

verus! {

/// One edit of a table.
#[derive(Debug)]
pub enum TomlEdit {
    /// Drop the item under this key.
    Remove(String),
    /// Write this value under the key, in place of what is there.
    Put(String, JsonValue),
    /// Both sides are tables: descend with these edits (the new value is
    /// what to write where the written item is no table after all).
    Merge(String, JsonValue, Vec<TomlEdit>),
}

/// Model of an edit.
pub enum EditView {
    Remove(Seq<char>),
    Put(Seq<char>, JsonView),
    Merge(Seq<char>, JsonView, Seq<EditView>),
}

pub open spec fn edit_view(e: TomlEdit) -> EditView
    decreases e,
{
    match e {
        TomlEdit::Remove(k) => EditView::Remove(k@),
        TomlEdit::Put(k, v) => EditView::Put(k@, jview(v)),
        TomlEdit::Merge(k, v, es) => EditView::Merge(k@, jview(v), edits_view(es@)),
    }
}

pub open spec fn edits_view(s: Seq<TomlEdit>) -> Seq<EditView>
    decreases s,
{
    if s.len() == 0 {
        seq![]
    } else {
        seq![edit_view(s[0])] + edits_view(s.subrange(1, s.len() as int))
    }
}

/// The key an edit is about.
pub open spec fn edit_key(e: EditView) -> Seq<char> {
    match e {
        EditView::Remove(k) => k,
        EditView::Put(k, _) => k,
        EditView::Merge(k, _, _) => k,
    }
}

/// The removals: each key of `old` (in order) that `new` does not have.
pub open spec fn spec_removals(old: ObjView, new: ObjView, n: int) -> Seq<EditView>
    decreases n,
{
    if n <= 0 || n > old.len() {
        seq![]
    } else if vindex(new, old[n - 1].0) == -1 {
        spec_removals(old, new, n - 1).push(EditView::Remove(old[n - 1].0))
    } else {
        spec_removals(old, new, n - 1)
    }
}

/// The edit for the entry `new[i]`: none when `old` holds the same value
/// under its key; a descent when both values are tables; else a write.
#[verifier::opaque]
pub open spec fn entry_edit(old: ObjView, new: ObjView, i: int) -> Option<EditView>
    decreases new, 0int, 0int,
{
    if 0 <= i < new.len() {
        match vget(old, new[i].0) {
            Some(b) => if b == new[i].1 {
                None
            } else {
                match (b, new[i].1) {
                    (JsonView::Object(bo), JsonView::Object(vo)) => Some(
                        EditView::Merge(new[i].0, new[i].1, spec_plan(bo, vo)),
                    ),
                    _ => Some(EditView::Put(new[i].0, new[i].1)),
                }
            },
            None => Some(EditView::Put(new[i].0, new[i].1)),
        }
    } else {
        None
    }
}

/// The edits for the first `n` entries of `new`, in order.
pub open spec fn spec_updates(old: ObjView, new: ObjView, n: int) -> Seq<EditView>
    decreases new, 1int, n,
{
    if n <= 0 || n > new.len() {
        seq![]
    } else {
        match entry_edit(old, new, n - 1) {
            Some(e) => spec_updates(old, new, n - 1).push(e),
            None => spec_updates(old, new, n - 1),
        }
    }
}

/// The plan that turns the table written as `old` into `new`: the
/// removals first, then the entries of `new` that differ, in its order.
pub open spec fn spec_plan(old: ObjView, new: ObjView) -> Seq<EditView>
    decreases new, 2int, 0int,
{
    spec_removals(old, new, old.len() as int) + spec_updates(old, new, new.len() as int)
}

pub proof fn lemma_edits_view(s: Seq<TomlEdit>)
    ensures
        edits_view(s).len() == s.len(),
        forall|i: int| 0 <= i < s.len() ==> #[trigger] edits_view(s)[i] == edit_view(s[i]),
    decreases s.len(),
{
    if s.len() > 0 {
        let t = s.subrange(1, s.len() as int);
        lemma_edits_view(t);
        assert forall|i: int| 0 <= i < s.len() implies #[trigger] edits_view(s)[i] == edit_view(
        s[i]) by {
            if i > 0 {
                assert(t[i - 1] == s[i]);
            }
        }
    }
}

proof fn lemma_edits_view_push(s: Seq<TomlEdit>, e: TomlEdit)
    ensures
        edits_view(s.push(e)) == edits_view(s).push(edit_view(e)),
{
    lemma_edits_view(s);
    lemma_edits_view(s.push(e));
    assert(edits_view(s.push(e)) =~= edits_view(s).push(edit_view(e)));
}

/// The edits that bring the table written as `old` in line with `new`
/// (see [`spec_plan`]).
pub fn plan_table_sync(old: &Vec<(String, JsonValue)>, new: &Vec<(String, JsonValue)>) -> (r: Vec<
    TomlEdit,
>)
    ensures
        edits_view(r@) == spec_plan(jview_entries(old@), jview_entries(new@)),
    decreases new,
{
    let ghost o = jview_entries(old@);
    let ghost w = jview_entries(new@);
    proof {
        lemma_jview_entries(old@);
        lemma_jview_entries(new@);
    }
    let mut out: Vec<TomlEdit> = Vec::new();
    let mut i: usize = 0;
    while i < old.len()
        invariant
            0 <= i <= old.len(),
            o == jview_entries(old@),
            w == jview_entries(new@),
            o.len() == old.len(),
            forall|j: int| 0 <= j < o.len() ==> #[trigger] o[j] == (old@[j].0@, jview(old@[j].1)),
            edits_view(out@) == spec_removals(o, w, i as int),
        decreases old.len() - i,
    {
        if obj_index(new, old[i].0.as_str()).is_none() {
            let k = old[i].0.clone();
            proof {
                lemma_edits_view_push(out@, TomlEdit::Remove(k));
            }
            out.push(TomlEdit::Remove(k));
        }
        i = i + 1;
    }
    let ghost removed = out@;
    let mut n: usize = 0;
    while n < new.len()
        invariant
            0 <= n <= new.len(),
            o == jview_entries(old@),
            w == jview_entries(new@),
            w.len() == new.len(),
            forall|j: int| 0 <= j < w.len() ==> #[trigger] w[j] == (new@[j].0@, jview(new@[j].1)),
            edits_view(removed) == spec_removals(o, w, o.len() as int),
            out@.len() >= removed.len(),
            out@.subrange(0, removed.len() as int) == removed,
            edits_view(out@.subrange(removed.len() as int, out@.len() as int)) == spec_updates(
                o,
                w,
                n as int,
            ),
        decreases new.len() - n,
    {
        let k = &new[n].0;
        let v = &new[n].1;
        let ghost before = out@;
        let edit: Option<TomlEdit> = match obj_get(old, k.as_str()) {
            Some(b) => {
                if json_eq(b, v) {
                    None
                } else {
                    match (b, v) {
                        (JsonValue::Object(bo), JsonValue::Object(vo)) => {
                            let sub = plan_table_sync(bo, vo);
                            Some(TomlEdit::Merge(k.clone(), clone_json(v), sub))
                        },
                        _ => Some(TomlEdit::Put(k.clone(), clone_json(v))),
                    }
                }
            },
            None => Some(TomlEdit::Put(k.clone(), clone_json(v))),
        };
        assert(w[n as int] == (new@[n as int].0@, jview(new@[n as int].1)));
        proof {
            reveal(entry_edit);
        }
        match edit {
            Some(e) => {
                assert(entry_edit(o, w, n as int) == Some(edit_view(e)));
                proof {
                    lemma_edits_view_push(
                        before.subrange(removed.len() as int, before.len() as int),
                        e,
                    );
                }
                out.push(e);
                assert(out@.subrange(0, removed.len() as int) =~= before.subrange(
                    0,
                    removed.len() as int,
                ));
                assert(out@.subrange(removed.len() as int, out@.len() as int) =~= before.subrange(
                    removed.len() as int,
                    before.len() as int,
                ).push(e));
            },
            None => {
                assert(entry_edit(o, w, n as int) is None);
            },
        }
        n = n + 1;
    }
    proof {
        assert(out@ =~= removed + out@.subrange(removed.len() as int, out@.len() as int));
        assert(edits_view(out@) == edits_view(removed) + edits_view(
            out@.subrange(removed.len() as int, out@.len() as int),
        )) by {
            let tail = out@.subrange(removed.len() as int, out@.len() as int);
            lemma_edits_view(out@);
            lemma_edits_view(removed);
            lemma_edits_view(tail);
            assert(edits_view(out@) =~= edits_view(removed) + edits_view(tail));
        }
    }
    out
}

/// Entry `i` of `old` has a key that `new` lacks.
pub open spec fn gone(old: ObjView, new: ObjView, i: int) -> bool {
    vindex(new, old[i].0) == -1
}

/// `e` removes the key of one of the first `n` entries of `old`, a key
/// that `new` lacks.
pub open spec fn removes_gone(old: ObjView, new: ObjView, n: int, e: EditView) -> bool {
    exists|i: int| 0 <= i < n && #[trigger] gone(old, new, i) && e == EditView::Remove(old[i].0)
}

proof fn lemma_removals_sound(old: ObjView, new: ObjView, n: int)
    requires
        0 <= n <= old.len(),
    ensures
        forall|j: int|
            0 <= j < spec_removals(old, new, n).len() ==> removes_gone(
                old,
                new,
                n,
                #[trigger] spec_removals(old, new, n)[j],
            ),
    decreases n,
{
    let s = spec_removals(old, new, n);
    if n > 0 {
        lemma_removals_sound(old, new, n - 1);
        let p = spec_removals(old, new, n - 1);
        assert forall|j: int| #![trigger s[j]] 0 <= j < s.len() implies exists|i: int|
            0 <= i < n && #[trigger] gone(old, new, i) && s[j] == EditView::Remove(old[i].0) by {
            if j < p.len() {
                assert(s[j] == p[j]);
                assert(removes_gone(old, new, n - 1, p[j]));
                let i = choose|i: int|
                    0 <= i < n - 1 && #[trigger] gone(old, new, i) && p[j] == EditView::Remove(
                        old[i].0,
                    );
                assert(gone(old, new, i));
            } else {
                assert(gone(old, new, n - 1));
            }
        }
        assert forall|j: int| 0 <= j < s.len() implies removes_gone(old, new, n, #[trigger] s[j]) by {
            assert(s[j] == spec_removals(old, new, n)[j]);
        }
    }
}

proof fn lemma_removals_complete(old: ObjView, new: ObjView, n: int)
    requires
        0 <= n <= old.len(),
    ensures
        forall|i: int|
            0 <= i < n && #[trigger] gone(old, new, i) ==> exists|j: int|
                0 <= j < spec_removals(old, new, n).len() && #[trigger] spec_removals(old, new, n)[j]
                    == EditView::Remove(old[i].0),
    decreases n,
{
    let s = spec_removals(old, new, n);
    if n > 0 {
        lemma_removals_complete(old, new, n - 1);
        let p = spec_removals(old, new, n - 1);
        assert forall|i: int| 0 <= i < n && #[trigger] gone(old, new, i) implies exists|j: int|
            0 <= j < s.len() && #[trigger] s[j] == EditView::Remove(old[i].0) by {
            if i == n - 1 {
                assert(s[p.len() as int] == EditView::Remove(old[i].0));
            } else {
                let j = choose|j: int| 0 <= j < p.len() && #[trigger] p[j] == EditView::Remove(old[i].0);
                assert(s[j] == p[j]);
            }
        }
    }
}

/// Entry `i` of `new` gives the edit `e`.
#[verifier::opaque]
pub open spec fn gives(old: ObjView, new: ObjView, i: int, e: EditView) -> bool {
    entry_edit(old, new, i) == Some(e)
}

proof fn lemma_updates_unfold(old: ObjView, new: ObjView, n: int)
    requires
        0 < n <= new.len(),
    ensures
        spec_updates(old, new, n) == match entry_edit(old, new, n - 1) {
            Some(e) => spec_updates(old, new, n - 1).push(e),
            None => spec_updates(old, new, n - 1),
        },
{
    reveal(entry_edit);
}

/// `e` is the edit of one of the first `n` entries of `new`.
pub open spec fn from_entry(old: ObjView, new: ObjView, n: int, e: EditView) -> bool {
    exists|i: int| 0 <= i < n && #[trigger] gives(old, new, i, e)
}

proof fn lemma_updates_sound(old: ObjView, new: ObjView, n: int)
    requires
        0 <= n <= new.len(),
    ensures
        forall|j: int|
            0 <= j < spec_updates(old, new, n).len() ==> from_entry(
                old,
                new,
                n,
                #[trigger] spec_updates(old, new, n)[j],
            ),
    decreases n,
{
    let s = spec_updates(old, new, n);
    if n > 0 {
        lemma_updates_sound(old, new, n - 1);
        lemma_updates_unfold(old, new, n);
        let p = spec_updates(old, new, n - 1);
        assert forall|j: int| #![trigger s[j]] 0 <= j < s.len() implies exists|i: int|
            0 <= i < n && #[trigger] gives(old, new, i, s[j]) by {
            if j < p.len() {
                assert(s[j] == p[j]);
                assert(from_entry(old, new, n - 1, p[j]));
                let i = choose|i: int| 0 <= i < n - 1 && #[trigger] gives(old, new, i, p[j]);
                assert(gives(old, new, i, s[j]));
            } else {
                assert(gives(old, new, n - 1, s[j])) by {
                    reveal(gives);
                }
            }
        }
        assert forall|j: int| 0 <= j < s.len() implies from_entry(old, new, n, #[trigger] s[j]) by {
            assert(s[j] == spec_updates(old, new, n)[j]);
        }
    } else {
        assert(s.len() == 0) by {
            reveal(entry_edit);
        }
    }
}

proof fn lemma_updates_complete(old: ObjView, new: ObjView, n: int)
    requires
        0 <= n <= new.len(),
    ensures
        forall|i: int|
            0 <= i < n && (#[trigger] entry_edit(old, new, i)) is Some ==> exists|j: int|
                0 <= j < spec_updates(old, new, n).len() && #[trigger] gives(
                    old,
                    new,
                    i,
                    spec_updates(old, new, n)[j],
                ),
    decreases n,
{
    let s = spec_updates(old, new, n);
    if n > 0 {
        lemma_updates_complete(old, new, n - 1);
        lemma_updates_unfold(old, new, n);
        let p = spec_updates(old, new, n - 1);
        assert forall|i: int| 0 <= i < n && (#[trigger] entry_edit(old, new, i)) is Some implies exists|
            j: int,
        | 0 <= j < s.len() && #[trigger] gives(old, new, i, s[j]) by {
            if i == n - 1 {
                assert(gives(old, new, i, s[p.len() as int])) by {
                    reveal(gives);
                }
            } else {
                let j = choose|j: int| 0 <= j < p.len() && #[trigger] gives(old, new, i, p[j]);
                assert(s[j] == p[j]);
                assert(gives(old, new, i, s[j]));
            }
        }
    }
}

/// A sync touches only what changed: every edit of the plan names a key
/// whose value differs between the written table and the new one.
pub proof fn law_sync_touches_only_changed_keys(old: ObjView, new: ObjView)
    requires
        keys_unique(new),
    ensures
        forall|j: int|
            0 <= j < spec_plan(old, new).len() ==> vget(old, edit_key(#[trigger] spec_plan(old, new)[j]))
                != vget(new, edit_key(spec_plan(old, new)[j])),
{
    let rm = spec_removals(old, new, old.len() as int);
    let up = spec_updates(old, new, new.len() as int);
    let plan = spec_plan(old, new);
    lemma_removals_sound(old, new, old.len() as int);
    lemma_updates_sound(old, new, new.len() as int);
    assert forall|j: int| 0 <= j < plan.len() implies vget(old, edit_key(#[trigger] plan[j])) != vget(
        new,
        edit_key(plan[j]),
    ) by {
        if j < rm.len() {
            assert(plan[j] == rm[j]);
            let i = choose|i: int|
                0 <= i < old.len() && gone(old, new, i) && #[trigger] rm[j] == EditView::Remove(
                    old[i].0,
                );
            lemma_vindex(old, old[i].0);
            lemma_vindex(new, old[i].0);
        } else {
            assert(plan[j] == up[j - rm.len()]);
            let i = choose|i: int| 0 <= i < new.len() && #[trigger] gives(old, new, i, up[j - rm.len()]);
            reveal(gives);
            let k = new[i].0;
            reveal(entry_edit);
            lemma_vindex(new, k);
            assert(vindex(new, k) == i);
            assert(edit_key(up[j - rm.len()]) == k);
        }
    }
}

/// A sync misses nothing: every key whose value differs between the
/// written table and the new one is named by an edit of the plan.
pub proof fn law_sync_covers_changed_keys(old: ObjView, new: ObjView, k: Seq<char>)
    requires
        vget(old, k) != vget(new, k),
    ensures
        exists|j: int| 0 <= j < spec_plan(old, new).len() && edit_key(spec_plan(old, new)[j]) == k,
{
    let rm = spec_removals(old, new, old.len() as int);
    let up = spec_updates(old, new, new.len() as int);
    let plan = spec_plan(old, new);
    lemma_removals_complete(old, new, old.len() as int);
    lemma_updates_complete(old, new, new.len() as int);
    lemma_vindex(old, k);
    lemma_vindex(new, k);
    if vindex(new, k) == -1 {
        let i = vindex(old, k);
        assert(old[i].0 == k);
        assert(gone(old, new, i));
        let j = choose|j: int| 0 <= j < rm.len() && rm[j] == EditView::Remove(old[i].0);
        assert(plan[j] == rm[j]);
    } else {
        let i = vindex(new, k);
        reveal(entry_edit);
        assert(entry_edit(old, new, i) is Some);
        let j = choose|j: int| 0 <= j < up.len() && gives(old, new, i, up[j]);
        reveal(gives);
        assert(plan[rm.len() + j] == up[j]);
        assert(edit_key(up[j]) == k);
    }
}

} // verus!
