//! JSON values as the configuration logic sees them, with a mathematical model.
//!
//! Objects keep their entries in order; a key is looked up at its first
//! occurrence, an insert replaces the value of an existing key in place or
//! appends, and a remove drops every entry with that key.
use vstd::prelude::*;

verus! {

/// A JSON number.
#[derive(Debug)]
pub enum JsonNumber {
    /// A non-negative integer.
    PosInt(u64),
    /// A negative integer.
    NegInt(i64),
    /// A floating-point number: its text, and its value clamped below at zero
    /// and converted into `u64` the way an `as` cast does (towards zero,
    /// saturating).
    Float(String, u64),
    /// A non-integer number known by its text alone (a TOML float as
    /// written in the file).
    Decimal(String),
}

/// A JSON value.
#[derive(Debug)]
pub enum JsonValue {
    Null,
    Bool(bool),
    Number(JsonNumber),
    Str(String),
    Array(Vec<JsonValue>),
    Object(Vec<(String, JsonValue)>),
}

/// Model of a JSON number.
pub enum NumView {
    PosInt(u64),
    NegInt(i64),
    Float(Seq<char>, u64),
    Decimal(Seq<char>),
}

/// Model of a JSON value.
pub enum JsonView {
    Null,
    Bool(bool),
    Number(NumView),
    Str(Seq<char>),
    Array(Seq<JsonView>),
    Object(Seq<(Seq<char>, JsonView)>),
}

pub open spec fn num_view(n: JsonNumber) -> NumView {
    match n {
        JsonNumber::PosInt(u) => NumView::PosInt(u),
        JsonNumber::NegInt(i) => NumView::NegInt(i),
        JsonNumber::Float(s, t) => NumView::Float(s@, t),
        JsonNumber::Decimal(s) => NumView::Decimal(s@),
    }
}

/// The model of a JSON value.
pub open spec fn jview(v: JsonValue) -> JsonView
    decreases v,
{
    match v {
        JsonValue::Null => JsonView::Null,
        JsonValue::Bool(b) => JsonView::Bool(b),
        JsonValue::Number(n) => JsonView::Number(num_view(n)),
        JsonValue::Str(s) => JsonView::Str(s@),
        JsonValue::Array(a) => JsonView::Array(jview_seq(a@)),
        JsonValue::Object(e) => JsonView::Object(jview_entries(e@)),
    }
}

pub open spec fn jview_seq(s: Seq<JsonValue>) -> Seq<JsonView>
    decreases s,
{
    if s.len() == 0 {
        seq![]
    } else {
        seq![jview(s[0])] + jview_seq(s.subrange(1, s.len() as int))
    }
}

pub open spec fn jview_entries(s: Seq<(String, JsonValue)>) -> Seq<(Seq<char>, JsonView)>
    decreases s,
{
    if s.len() == 0 {
        seq![]
    } else {
        seq![(s[0].0@, jview(s[0].1))] + jview_entries(s.subrange(1, s.len() as int))
    }
}

/// Model of an object's entries.
pub type ObjView = Seq<(Seq<char>, JsonView)>;

/// Index of the first entry with key `k`, or -1.
pub open spec fn vindex(o: ObjView, k: Seq<char>) -> int
    decreases o.len(),
{
    if o.len() == 0 {
        -1
    } else if o[0].0 == k {
        0
    } else {
        let r = vindex(o.subrange(1, o.len() as int), k);
        if r < 0 {
            -1
        } else {
            r + 1
        }
    }
}

/// Value of key `k` (its first entry).
pub open spec fn vget(o: ObjView, k: Seq<char>) -> Option<JsonView> {
    let i = vindex(o, k);
    if 0 <= i < o.len() {
        Some(o[i].1)
    } else {
        None
    }
}

/// `o` with key `k` set to `v`: in place when present, appended otherwise.
pub open spec fn vinsert(o: ObjView, k: Seq<char>, v: JsonView) -> ObjView {
    let i = vindex(o, k);
    if 0 <= i < o.len() {
        o.update(i, (k, v))
    } else {
        o.push((k, v))
    }
}

/// `o` without any entry with key `k`.
pub open spec fn vremove(o: ObjView, k: Seq<char>) -> ObjView
    decreases o.len(),
{
    if o.len() == 0 {
        o
    } else if o[0].0 == k {
        vremove(o.subrange(1, o.len() as int), k)
    } else {
        seq![o[0]] + vremove(o.subrange(1, o.len() as int), k)
    }
}

/// No key occurs twice.
pub open spec fn keys_unique(o: ObjView) -> bool {
    forall|i: int, j: int| 0 <= i < j < o.len() ==> o[i].0 != o[j].0
}

/// Key `k` of a value that is an object.
pub open spec fn vfield(v: JsonView, k: Seq<char>) -> Option<JsonView> {
    match v {
        JsonView::Object(o) => vget(o, k),
        _ => None,
    }
}

/// The string held by an optional value.
pub open spec fn vstr(v: Option<JsonView>) -> Option<Seq<char>> {
    match v {
        Some(JsonView::Str(s)) => Some(s),
        _ => None,
    }
}

/// The boolean held by an optional value.
pub open spec fn vbool(v: Option<JsonView>) -> Option<bool> {
    match v {
        Some(JsonView::Bool(b)) => Some(b),
        _ => None,
    }
}

/// `Value::as_u64`.
pub open spec fn vu64(v: Option<JsonView>) -> Option<u64> {
    match v {
        Some(JsonView::Number(NumView::PosInt(u))) => Some(u),
        _ => None,
    }
}

/// `Value::as_i64`.
pub open spec fn vi64(v: Option<JsonView>) -> Option<i64> {
    match v {
        Some(JsonView::Number(NumView::PosInt(u))) => if u <= i64::MAX {
            Some(u as i64)
        } else {
            None
        },
        Some(JsonView::Number(NumView::NegInt(i))) => Some(i),
        _ => None,
    }
}

pub open spec fn vis_object(v: JsonView) -> bool {
    v is Object
}

pub open spec fn vobj(v: JsonView) -> ObjView {
    match v {
        JsonView::Object(o) => o,
        _ => seq![],
    }
}

pub open spec fn varr(v: Option<JsonView>) -> Option<Seq<JsonView>> {
    match v {
        Some(JsonView::Array(a)) => Some(a),
        _ => None,
    }
}

/// A value is well formed when no object in it repeats a key.
pub open spec fn wf(v: JsonView) -> bool
    decreases v,
{
    match v {
        JsonView::Array(a) => forall|i: int| 0 <= i < a.len() ==> #[trigger] wf_at(a, i),
        JsonView::Object(o) => keys_unique(o) && forall|i: int|
            0 <= i < o.len() ==> #[trigger] wf_entry_at(o, i),
        _ => true,
    }
}

pub open spec fn wf_at(a: Seq<JsonView>, i: int) -> bool
    decreases a, 0int,
{
    if 0 <= i < a.len() {
        wf(a[i])
    } else {
        true
    }
}

pub open spec fn wf_entry_at(o: ObjView, i: int) -> bool
    decreases o, 0int,
{
    if 0 <= i < o.len() {
        wf(o[i].1)
    } else {
        true
    }
}

// ---------------------------------------------------------------------------
// Lemmas
// ---------------------------------------------------------------------------

pub proof fn lemma_jview_entries(s: Seq<(String, JsonValue)>)
    ensures
        jview_entries(s).len() == s.len(),
        forall|i: int|
            0 <= i < s.len() ==> #[trigger] jview_entries(s)[i] == (s[i].0@, jview(s[i].1)),
    decreases s.len(),
{
    if s.len() > 0 {
        let t = s.subrange(1, s.len() as int);
        lemma_jview_entries(t);
        assert forall|i: int| 0 <= i < s.len() implies #[trigger] jview_entries(s)[i] == (
        s[i].0@, jview(s[i].1)) by {
            if i > 0 {
                assert(t[i - 1] == s[i]);
            }
        }
    }
}

pub proof fn lemma_jview_seq(s: Seq<JsonValue>)
    ensures
        jview_seq(s).len() == s.len(),
        forall|i: int| 0 <= i < s.len() ==> #[trigger] jview_seq(s)[i] == jview(s[i]),
    decreases s.len(),
{
    if s.len() > 0 {
        let t = s.subrange(1, s.len() as int);
        lemma_jview_seq(t);
        assert forall|i: int| 0 <= i < s.len() implies #[trigger] jview_seq(s)[i] == jview(
        s[i]) by {
            if i > 0 {
                assert(t[i - 1] == s[i]);
            }
        }
    }
}

/// Two entry sequences with the same elements pointwise have the same model.
pub proof fn lemma_jview_entries_ext(a: Seq<(String, JsonValue)>, b: Seq<(String, JsonValue)>)
    requires
        a.len() == b.len(),
        forall|i: int| 0 <= i < a.len() ==> a[i].0@ == b[i].0@ && jview(a[i].1) == jview(b[i].1),
    ensures
        jview_entries(a) == jview_entries(b),
{
    lemma_jview_entries(a);
    lemma_jview_entries(b);
    assert(jview_entries(a) =~= jview_entries(b));
}

pub proof fn lemma_jview_seq_ext(a: Seq<JsonValue>, b: Seq<JsonValue>)
    requires
        a.len() == b.len(),
        forall|i: int| 0 <= i < a.len() ==> jview(a[i]) == jview(b[i]),
    ensures
        jview_seq(a) == jview_seq(b),
{
    lemma_jview_seq(a);
    lemma_jview_seq(b);
    assert(jview_seq(a) =~= jview_seq(b));
}

pub proof fn lemma_vindex(o: ObjView, k: Seq<char>)
    ensures
        -1 <= vindex(o, k) < o.len(),
        vindex(o, k) >= 0 ==> o[vindex(o, k)].0 == k,
        forall|j: int| 0 <= j < o.len() && o[j].0 == k ==> vindex(o, k) >= 0 && vindex(o, k) <= j,
    decreases o.len(),
{
    if o.len() > 0 && o[0].0 != k {
        let t = o.subrange(1, o.len() as int);
        lemma_vindex(t, k);
        if vindex(t, k) >= 0 {
            assert(o[vindex(t, k) + 1] == t[vindex(t, k)]);
        }
        assert forall|j: int| 0 <= j < o.len() && o[j].0 == k implies vindex(o, k) >= 0
            && vindex(o, k) <= j by {
            assert(j > 0);
            assert(t[j - 1] == o[j]);
        }
    }
}

/// The value of a key in a concatenation: from the first part when it has
/// the key, else from the second.
pub proof fn lemma_vget_concat(a: ObjView, b: ObjView, k: Seq<char>)
    ensures
        vget(a + b, k) == if vget(a, k) is Some {
            vget(a, k)
        } else {
            vget(b, k)
        },
{
    let c = a + b;
    lemma_vindex(a, k);
    lemma_vindex(b, k);
    lemma_vindex(c, k);
    let ia = vindex(a, k);
    let ib = vindex(b, k);
    let ic = vindex(c, k);
    if ia >= 0 {
        assert(c[ia].0 == k);
        if ic < ia {
            assert(a[ic] == c[ic]);
        }
        assert(ic == ia);
        assert(c[ic] == a[ia]);
    } else {
        assert forall|j: int| 0 <= j < a.len() implies c[j].0 != k by {
            assert(c[j] == a[j]);
        }
        if ib >= 0 {
            assert(c[a.len() + ib] == b[ib]);
            assert(ic >= a.len());
            assert(b[ic - a.len()] == c[ic]);
            assert(ic == a.len() + ib);
        } else {
            if ic >= 0 {
                assert(ic >= a.len());
                assert(b[ic - a.len()] == c[ic]);
            }
        }
    }
}

pub proof fn lemma_vinsert(o: ObjView, k: Seq<char>, v: JsonView)
    ensures
        forall|k2: Seq<char>| #[trigger]
            vget(vinsert(o, k, v), k2) == if k2 == k {
                Some(v)
            } else {
                vget(o, k2)
            },
        keys_unique(o) ==> keys_unique(vinsert(o, k, v)),
{
    let r = vinsert(o, k, v);
    lemma_vindex(o, k);
    assert forall|k2: Seq<char>| #[trigger]
        vget(vinsert(o, k, v), k2) == if k2 == k {
            Some(v)
        } else {
            vget(o, k2)
        } by {
        lemma_vindex(o, k2);
        lemma_vindex(r, k2);
        let i = vindex(o, k);
        if 0 <= i < o.len() {
            assert(r.len() == o.len());
            if k2 == k {
                assert(r[i].0 == k);
                if vindex(r, k2) < i {
                    assert(r[vindex(r, k2)] == o[vindex(r, k2)]);
                }
            } else {
                if vindex(o, k2) >= 0 {
                    assert(r[vindex(o, k2)] == o[vindex(o, k2)]);
                }
                if vindex(r, k2) >= 0 {
                    assert(r[vindex(r, k2)] == o[vindex(r, k2)]);
                }
            }
        } else {
            assert(r.len() == o.len() + 1);
            if k2 == k {
                assert(r[o.len() as int].0 == k);
                if vindex(r, k2) < o.len() {
                    assert(r[vindex(r, k2)] == o[vindex(r, k2)]);
                }
            } else {
                if vindex(o, k2) >= 0 {
                    assert(r[vindex(o, k2)] == o[vindex(o, k2)]);
                }
                if vindex(r, k2) >= 0 && vindex(r, k2) < o.len() {
                    assert(r[vindex(r, k2)] == o[vindex(r, k2)]);
                }
            }
        }
    }
}

pub proof fn lemma_vremove_append(a: ObjView, b: ObjView, k: Seq<char>)
    ensures
        vremove(a + b, k) == vremove(a, k) + vremove(b, k),
    decreases a.len(),
{
    if a.len() == 0 {
        assert(a + b =~= b);
        assert(vremove(a, k) + vremove(b, k) =~= vremove(b, k));
    } else {
        let t = a.subrange(1, a.len() as int);
        assert((a + b).subrange(1, (a + b).len() as int) =~= t + b);
        lemma_vremove_append(t, b, k);
        if a[0].0 != k {
            assert(seq![a[0]] + (vremove(t, k) + vremove(b, k)) =~= (seq![a[0]] + vremove(t, k))
                + vremove(b, k));
        }
    }
}

pub proof fn lemma_vremove_absent(o: ObjView, k: Seq<char>)
    requires
        forall|i: int| 0 <= i < o.len() ==> o[i].0 != k,
    ensures
        vremove(o, k) == o,
    decreases o.len(),
{
    if o.len() > 0 {
        let t = o.subrange(1, o.len() as int);
        assert forall|i: int| 0 <= i < t.len() implies t[i].0 != k by {
            assert(t[i] == o[i + 1]);
        }
        lemma_vremove_absent(t, k);
        assert(seq![o[0]] + t =~= o);
    }
}

pub proof fn lemma_vremove_at(o: ObjView, k: Seq<char>, i: int)
    requires
        0 <= i < o.len(),
        o[i].0 == k,
    ensures
        vremove(o.remove(i), k) == vremove(o, k),
{
    let a = o.subrange(0, i);
    let b = o.subrange(i + 1, o.len() as int);
    assert(o.remove(i) =~= a + b);
    assert(o =~= a + (seq![o[i]] + b));
    lemma_vremove_append(a, b, k);
    lemma_vremove_append(a, seq![o[i]] + b, k);
    assert((seq![o[i]] + b).subrange(1, (seq![o[i]] + b).len() as int) =~= b);
}

pub proof fn lemma_vremove(o: ObjView, k: Seq<char>)
    ensures
        forall|k2: Seq<char>| #[trigger]
            vget(vremove(o, k), k2) == if k2 == k {
                None
            } else {
                vget(o, k2)
            },
        keys_unique(o) ==> keys_unique(vremove(o, k)),
        forall|i: int|
            0 <= i < vremove(o, k).len() ==> exists|j: int|
                0 <= j < o.len() && #[trigger] vremove(o, k)[i] == o[j],
    decreases o.len(),
{
    if o.len() > 0 {
        let t = o.subrange(1, o.len() as int);
        lemma_vremove(t, k);
        let rt = vremove(t, k);
        let r = vremove(o, k);
        assert forall|k2: Seq<char>| #[trigger]
            vget(vremove(o, k), k2) == if k2 == k {
                None
            } else {
                vget(o, k2)
            } by {
            lemma_vindex(o, k2);
            lemma_vindex(t, k2);
            lemma_vindex(r, k2);
            lemma_vindex(rt, k2);
            assert(vget(rt, k2) == if k2 == k {
                None
            } else {
                vget(t, k2)
            });
            if o[0].0 == k {
                assert(r == rt);
                if k2 != k && vindex(o, k2) >= 0 {
                    assert(vindex(o, k2) == vindex(t, k2) + 1);
                    assert(o[vindex(o, k2)] == t[vindex(t, k2)]);
                }
            } else {
                assert(r == seq![o[0]] + rt);
                if k2 == o[0].0 {
                    assert(vindex(r, k2) == 0);
                } else {
                    assert(r.subrange(1, r.len() as int) =~= rt);
                    if vindex(rt, k2) >= 0 {
                        assert(r[vindex(rt, k2) + 1] == rt[vindex(rt, k2)]);
                    }
                    if vindex(r, k2) >= 1 {
                        assert(r[vindex(r, k2)] == rt[vindex(r, k2) - 1]);
                    }
                    if vindex(t, k2) >= 0 {
                        assert(o[vindex(t, k2) + 1] == t[vindex(t, k2)]);
                    }
                    if vindex(o, k2) >= 1 {
                        assert(o[vindex(o, k2)] == t[vindex(o, k2) - 1]);
                    }
                }
            }
        }
        assert forall|i: int| 0 <= i < r.len() implies exists|j: int|
            0 <= j < o.len() && #[trigger] r[i] == o[j] by {
            if o[0].0 == k {
                let j = choose|j: int| 0 <= j < t.len() && #[trigger] rt[i] == t[j];
                assert(r[i] == o[j + 1]);
            } else {
                if i == 0 {
                    assert(r[0] == o[0]);
                } else {
                    assert(r[i] == rt[i - 1]);
                    let j = choose|j: int| 0 <= j < t.len() && #[trigger] rt[i - 1] == t[j];
                    assert(r[i] == o[j + 1]);
                }
            }
        }
        if keys_unique(o) {
            assert(keys_unique(t));
            assert forall|i: int, j: int| 0 <= i < j < r.len() implies r[i].0 != r[j].0 by {
                if o[0].0 != k {
                    if i == 0 {
                        assert(r[j] == rt[j - 1]);
                        let m = choose|m: int| 0 <= m < t.len() && #[trigger] rt[j - 1] == t[m];
                        assert(t[m] == o[m + 1]);
                    } else {
                        assert(r[i] == rt[i - 1]);
                        assert(r[j] == rt[j - 1]);
                    }
                }
            }
        }
    }
}

// ---------------------------------------------------------------------------
// Executable operations
// ---------------------------------------------------------------------------

pub fn clone_number(n: &JsonNumber) -> (r: JsonNumber)
    ensures
        num_view(r) == num_view(*n),
{
    match n {
        JsonNumber::PosInt(u) => JsonNumber::PosInt(*u),
        JsonNumber::NegInt(i) => JsonNumber::NegInt(*i),
        JsonNumber::Float(s, t) => JsonNumber::Float(s.clone(), *t),
        JsonNumber::Decimal(s) => JsonNumber::Decimal(s.clone()),
    }
}

/// A copy of a value with the same model.
pub fn clone_json(v: &JsonValue) -> (r: JsonValue)
    ensures
        jview(r) == jview(*v),
    decreases v,
{
    match v {
        JsonValue::Null => JsonValue::Null,
        JsonValue::Bool(b) => JsonValue::Bool(*b),
        JsonValue::Number(n) => JsonValue::Number(clone_number(n)),
        JsonValue::Str(s) => JsonValue::Str(s.clone()),
        JsonValue::Array(a) => JsonValue::Array(clone_array(a)),
        JsonValue::Object(e) => {
            let r = clone_entries(e);
            JsonValue::Object(r)
        },
    }
}

/// A copy of an array's elements with the same model.
pub fn clone_array(a: &Vec<JsonValue>) -> (r: Vec<JsonValue>)
    ensures
        jview_seq(r@) == jview_seq(a@),
    decreases a,
{
    let mut out: Vec<JsonValue> = Vec::new();
    let mut i: usize = 0;
    while i < a.len()
        invariant
            0 <= i <= a.len(),
            out.len() == i,
            forall|j: int| 0 <= j < i ==> jview(#[trigger] out@[j]) == jview(a@[j]),
        decreases a.len() - i,
    {
        let c = clone_json(&a[i]);
        out.push(c);
        i = i + 1;
    }
    proof {
        lemma_jview_seq_ext(out@, a@);
    }
    out
}

/// A copy of an object's entries with the same model.
pub fn clone_entries(e: &Vec<(String, JsonValue)>) -> (r: Vec<(String, JsonValue)>)
    ensures
        jview_entries(r@) == jview_entries(e@),
    decreases e,
{
    let mut out: Vec<(String, JsonValue)> = Vec::new();
    let mut i: usize = 0;
    while i < e.len()
        invariant
            0 <= i <= e.len(),
            out.len() == i,
            forall|j: int|
                0 <= j < i ==> (#[trigger] out@[j]).0@ == e@[j].0@ && jview(out@[j].1) == jview(
                    e@[j].1,
                ),
        decreases e.len() - i,
    {
        let k = e[i].0.clone();
        let c = clone_json(&e[i].1);
        out.push((k, c));
        i = i + 1;
    }
    proof {
        lemma_jview_entries_ext(out@, e@);
    }
    out
}

/// Index of the first entry with key `key`.
pub fn obj_index(e: &Vec<(String, JsonValue)>, key: &str) -> (r: Option<usize>)
    ensures
        match r {
            Some(i) => i < e.len() && vindex(jview_entries(e@), key@) == i as int,
            None => vindex(jview_entries(e@), key@) == -1,
        },
{
    let ghost o = jview_entries(e@);
    proof {
        lemma_jview_entries(e@);
        lemma_vindex(o, key@);
    }
    let kv = crate::text::chars_of(key);
    let mut i: usize = 0;
    while i < e.len()
        invariant
            0 <= i <= e.len(),
            o == jview_entries(e@),
            o.len() == e.len(),
            kv@ == key@,
            forall|j: int| 0 <= j < i ==> o[j].0 != key@,
            forall|j: int| 0 <= j < o.len() ==> #[trigger] o[j] == (e@[j].0@, jview(e@[j].1)),
            forall|j: int| 0 <= j < o.len() && o[j].0 == key@ ==> vindex(o, key@) >= 0 && vindex(
                o,
                key@,
            ) <= j,
            -1 <= vindex(o, key@) < o.len(),
            vindex(o, key@) >= 0 ==> o[vindex(o, key@)].0 == key@,
        decreases e.len() - i,
    {
        let ev = crate::text::chars_of(e[i].0.as_str());
        if crate::text::chars_eq(&ev, &kv) {
            assert(o[i as int].0 == key@);
            return Some(i);
        }
        i = i + 1;
    }
    None
}

/// `Map::get`.
pub fn obj_get<'a>(e: &'a Vec<(String, JsonValue)>, key: &str) -> (r: Option<&'a JsonValue>)
    ensures
        match r {
            Some(v) => vget(jview_entries(e@), key@) == Some(jview(*v)),
            None => vget(jview_entries(e@), key@) is None,
        },
{
    proof {
        lemma_jview_entries(e@);
    }
    match obj_index(e, key) {
        Some(i) => Some(&e[i].1),
        None => None,
    }
}

/// `Map::insert`.
pub fn obj_insert(e: &mut Vec<(String, JsonValue)>, key: String, v: JsonValue)
    ensures
        jview_entries(final(e)@) == vinsert(jview_entries(old(e)@), key@, jview(v)),
{
    proof {
        lemma_jview_entries(e@);
    }
    let ghost old_e = e@;
    let ghost kv = key@;
    let ghost vv = jview(v);
    match obj_index(e, key.as_str()) {
        Some(i) => {
            e.set(i, (key, v));
            proof {
                lemma_jview_entries(e@);
                assert(jview_entries(e@) =~= jview_entries(old_e).update(i as int, (kv, vv)));
            }
        },
        None => {
            e.push((key, v));
            proof {
                lemma_jview_entries(e@);
                assert(jview_entries(e@) =~= jview_entries(old_e).push((kv, vv)));
            }
        },
    }
}

/// `Map::remove`: drops every entry with key `key`.
pub fn obj_remove(e: &mut Vec<(String, JsonValue)>, key: &str)
    ensures
        jview_entries(final(e)@) == vremove(jview_entries(old(e)@), key@),
{
    let ghost target = vremove(jview_entries(e@), key@);
    loop
        invariant
            vremove(jview_entries(e@), key@) == target,
            target == vremove(jview_entries(old(e)@), key@),
        decreases e.len(),
    {
        match obj_index(e, key) {
            Some(i) => {
                let ghost before = e@;
                e.remove(i);
                proof {
                    lemma_jview_entries(before);
                    lemma_jview_entries(e@);
                    assert(jview_entries(e@) =~= jview_entries(before).remove(i as int));
                    lemma_vindex(jview_entries(before), key@);
                    lemma_vremove_at(jview_entries(before), key@, i as int);
                }
            },
            None => {
                proof {
                    lemma_jview_entries(e@);
                    lemma_vindex(jview_entries(e@), key@);
                    lemma_vremove_absent(jview_entries(e@), key@);
                }
                return ;
            },
        }
    }
}

impl JsonValue {
    /// `Value::get` with a string key.
    pub fn get(&self, key: &str) -> (r: Option<&JsonValue>)
        ensures
            match r {
                Some(v) => vfield(jview(*self), key@) == Some(jview(*v)),
                None => vfield(jview(*self), key@) is None,
            },
    {
        match self {
            JsonValue::Object(e) => obj_get(e, key),
            _ => None,
        }
    }

    /// `Value::as_str`.
    pub fn as_str(&self) -> (r: Option<&String>)
        ensures
            match r {
                Some(s) => vstr(Some(jview(*self))) == Some(s@),
                None => vstr(Some(jview(*self))) is None,
            },
    {
        match self {
            JsonValue::Str(s) => Some(s),
            _ => None,
        }
    }

    /// `Value::as_bool`.
    pub fn as_bool(&self) -> (r: Option<bool>)
        ensures
            r == vbool(Some(jview(*self))),
    {
        match self {
            JsonValue::Bool(b) => Some(*b),
            _ => None,
        }
    }

    /// `Value::as_u64`.
    pub fn as_u64(&self) -> (r: Option<u64>)
        ensures
            r == vu64(Some(jview(*self))),
    {
        match self {
            JsonValue::Number(JsonNumber::PosInt(u)) => Some(*u),
            _ => None,
        }
    }

    /// `Value::as_i64`.
    pub fn as_i64(&self) -> (r: Option<i64>)
        ensures
            r == vi64(Some(jview(*self))),
    {
        match self {
            JsonValue::Number(JsonNumber::PosInt(u)) => {
                if *u <= 9223372036854775807u64 {
                    Some(*u as i64)
                } else {
                    None
                }
            },
            JsonValue::Number(JsonNumber::NegInt(i)) => Some(*i),
            _ => None,
        }
    }

    /// `Value::is_object`.
    pub fn is_object(&self) -> (r: bool)
        ensures
            r == vis_object(jview(*self)),
    {
        match self {
            JsonValue::Object(_) => true,
            _ => false,
        }
    }

    /// `Value::as_array`.
    pub fn as_array(&self) -> (r: Option<&Vec<JsonValue>>)
        ensures
            match r {
                Some(a) => varr(Some(jview(*self))) == Some(jview_seq(a@)),
                None => varr(Some(jview(*self))) is None,
            },
    {
        match self {
            JsonValue::Array(a) => Some(a),
            _ => None,
        }
    }

    /// `Value::as_object`.
    pub fn as_object(&self) -> (r: Option<&Vec<(String, JsonValue)>>)
        ensures
            match r {
                Some(e) => jview(*self) == JsonView::Object(jview_entries(e@)),
                None => !vis_object(jview(*self)),
            },
    {
        match self {
            JsonValue::Object(e) => Some(e),
            _ => None,
        }
    }
}

pub open spec fn ojview(v: Option<JsonValue>) -> Option<JsonView> {
    match v {
        Some(x) => Some(jview(x)),
        None => None,
    }
}

/// A string model, when there is a string.
pub open spec fn ostr(o: Option<Seq<char>>) -> Option<JsonView> {
    match o {
        Some(s) => Some(JsonView::Str(s)),
        None => None,
    }
}

/// A boolean model, when there is a boolean.
pub open spec fn obool(o: Option<bool>) -> Option<JsonView> {
    match o {
        Some(b) => Some(JsonView::Bool(b)),
        None => None,
    }
}

/// An integer model, when there is an integer.
pub open spec fn ou64(o: Option<u64>) -> Option<JsonView> {
    match o {
        Some(n) => Some(JsonView::Number(NumView::PosInt(n))),
        None => None,
    }
}

/// `o` with key `k` set to `v`, or without key `k` when `v` is `None`.
pub open spec fn vset(o: ObjView, k: Seq<char>, v: Option<JsonView>) -> ObjView {
    match v {
        Some(x) => vinsert(o, k, x),
        None => vremove(o, k),
    }
}

pub proof fn lemma_vset(o: ObjView, k: Seq<char>, v: Option<JsonView>)
    ensures
        forall|k2: Seq<char>| #[trigger]
            vget(vset(o, k, v), k2) == if k2 == k {
                v
            } else {
                vget(o, k2)
            },
        keys_unique(o) ==> keys_unique(vset(o, k, v)),
{
    match v {
        Some(x) => lemma_vinsert(o, k, x),
        None => lemma_vremove(o, k),
    }
}

/// `o` after setting (or removing) each key of `ups` in turn.
pub open spec fn vset_all(o: ObjView, ups: Seq<(Seq<char>, Option<JsonView>)>) -> ObjView
    decreases ups.len(),
{
    if ups.len() == 0 {
        o
    } else {
        vset(vset_all(o, ups.drop_last()), ups.last().0, ups.last().1)
    }
}

/// The last update of key `k` in `ups`, if any.
pub open spec fn last_update(ups: Seq<(Seq<char>, Option<JsonView>)>, k: Seq<char>) -> Option<
    Option<JsonView>,
>
    decreases ups.len(),
{
    if ups.len() == 0 {
        None
    } else if ups.last().0 == k {
        Some(ups.last().1)
    } else {
        last_update(ups.drop_last(), k)
    }
}

pub proof fn lemma_vset_all(o: ObjView, ups: Seq<(Seq<char>, Option<JsonView>)>)
    ensures
        forall|k: Seq<char>| #[trigger]
            vget(vset_all(o, ups), k) == match last_update(ups, k) {
                Some(v) => v,
                None => vget(o, k),
            },
        keys_unique(o) ==> keys_unique(vset_all(o, ups)),
    decreases ups.len(),
{
    if ups.len() > 0 {
        lemma_vset_all(o, ups.drop_last());
        lemma_vset(vset_all(o, ups.drop_last()), ups.last().0, ups.last().1);
    }
}

/// Sets key `key` to `v`, or removes it when `v` is `None`.
pub fn obj_set(e: &mut Vec<(String, JsonValue)>, key: &str, v: Option<JsonValue>)
    ensures
        jview_entries(final(e)@) == vset(jview_entries(old(e)@), key@, ojview(v)),
{
    match v {
        Some(x) => obj_insert(e, crate::text::to_string(key), x),
        None => obj_remove(e, key),
    }
}

pub fn number_eq(a: &JsonNumber, b: &JsonNumber) -> (r: bool)
    ensures
        r == (num_view(*a) == num_view(*b)),
{
    match (a, b) {
        (JsonNumber::PosInt(x), JsonNumber::PosInt(y)) => *x == *y,
        (JsonNumber::NegInt(x), JsonNumber::NegInt(y)) => *x == *y,
        (JsonNumber::Float(s, x), JsonNumber::Float(t, y)) => *x == *y && crate::text::str_eq(
            s.as_str(),
            t.as_str(),
        ),
        (JsonNumber::Decimal(s), JsonNumber::Decimal(t)) => crate::text::str_eq(s.as_str(), t.as_str()),
        _ => false,
    }
}

/// Structural equality of two values.
pub fn json_eq(a: &JsonValue, b: &JsonValue) -> (r: bool)
    ensures
        r == (jview(*a) == jview(*b)),
    decreases a,
{
    match (a, b) {
        (JsonValue::Null, JsonValue::Null) => true,
        (JsonValue::Bool(x), JsonValue::Bool(y)) => *x == *y,
        (JsonValue::Number(x), JsonValue::Number(y)) => number_eq(x, y),
        (JsonValue::Str(x), JsonValue::Str(y)) => crate::text::str_eq(x.as_str(), y.as_str()),
        (JsonValue::Array(x), JsonValue::Array(y)) => array_eq(x, y),
        (JsonValue::Object(x), JsonValue::Object(y)) => entries_eq(x, y),
        _ => false,
    }
}

pub fn array_eq(x: &Vec<JsonValue>, y: &Vec<JsonValue>) -> (r: bool)
    ensures
        r == (jview_seq(x@) == jview_seq(y@)),
    decreases x,
{
    proof {
        lemma_jview_seq(x@);
        lemma_jview_seq(y@);
    }
    if x.len() != y.len() {
        return false;
    }
    let mut i: usize = 0;
    while i < x.len()
        invariant
            0 <= i <= x.len(),
            x.len() == y.len(),
            jview_seq(x@).len() == x.len(),
            jview_seq(y@).len() == y.len(),
            forall|j: int| 0 <= j < x.len() ==> #[trigger] jview_seq(x@)[j] == jview(x@[j]),
            forall|j: int| 0 <= j < y.len() ==> #[trigger] jview_seq(y@)[j] == jview(y@[j]),
            forall|j: int| 0 <= j < i ==> jview(x@[j]) == jview(y@[j]),
        decreases x.len() - i,
    {
        if !json_eq(&x[i], &y[i]) {
            assert(jview_seq(x@)[i as int] != jview_seq(y@)[i as int]);
            return false;
        }
        i = i + 1;
    }
    assert(jview_seq(x@) =~= jview_seq(y@));
    true
}

pub fn entries_eq(x: &Vec<(String, JsonValue)>, y: &Vec<(String, JsonValue)>) -> (r: bool)
    ensures
        r == (jview_entries(x@) == jview_entries(y@)),
    decreases x,
{
    proof {
        lemma_jview_entries(x@);
        lemma_jview_entries(y@);
    }
    if x.len() != y.len() {
        return false;
    }
    let mut i: usize = 0;
    while i < x.len()
        invariant
            0 <= i <= x.len(),
            x.len() == y.len(),
            jview_entries(x@).len() == x.len(),
            jview_entries(y@).len() == y.len(),
            forall|j: int| 0 <= j < x.len() ==> #[trigger] jview_entries(x@)[j] == (x@[j].0@, jview(x@[j].1)),
            forall|j: int| 0 <= j < y.len() ==> #[trigger] jview_entries(y@)[j] == (y@[j].0@, jview(y@[j].1)),
            forall|j: int| 0 <= j < i ==> x@[j].0@ == y@[j].0@ && jview(x@[j].1) == jview(y@[j].1),
        decreases x.len() - i,
    {
        if !crate::text::str_eq(x[i].0.as_str(), y[i].0.as_str()) || !json_eq(&x[i].1, &y[i].1) {
            assert(jview_entries(x@)[i as int] != jview_entries(y@)[i as int]);
            return false;
        }
        i = i + 1;
    }
    assert(jview_entries(x@) =~= jview_entries(y@));
    true
}

/// A string value.
pub fn jstr(s: &str) -> (r: JsonValue)
    ensures
        jview(r) == JsonView::Str(s@),
{
    JsonValue::Str(crate::text::to_string(s))
}

} // verus!
