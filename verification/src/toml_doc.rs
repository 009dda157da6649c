//! Kimi Code's `config.toml` as text: read by the `toml_edit` crate into a
//! tree of its items, modelled as the document of [`crate::kimi_config`],
//! and written back by applying a sync plan to the text as `toml_edit`
//! holds it, so that untouched items keep their text and comments.
use vstd::prelude::*;
use crate::error::AppError;
use crate::json::{
    jview, jview_entries, jview_seq, lemma_jview_entries, lemma_jview_seq, JsonNumber, JsonValue,
    JsonView, NumView, ObjView,
};
use crate::text::{trim, trim_str};
use crate::toml_sync::{edits_view, lemma_edits_view, plan_table_sync, spec_plan, EditView, TomlEdit};

verus! {

#[verifier::external_type_specification]
#[verifier::external_body]
pub struct ExTomlTable(toml_edit::Table);

#[verifier::external_type_specification]
#[verifier::external_body]
pub struct ExTomlItem(toml_edit::Item);

#[verifier::external_type_specification]
#[verifier::external_body]
pub struct ExTomlValue(toml_edit::Value);

#[verifier::external_type_specification]
#[verifier::external_body]
pub struct ExTomlInlineTable(toml_edit::InlineTable);

/// An item of a TOML document, as `toml_edit` distinguishes them.
#[derive(Debug)]
pub enum TomlItem {
    Str(String),
    Integer(i64),
    /// A float, by its text.
    Float(String),
    Bool(bool),
    /// A date or time, by its text.
    Datetime(String),
    Array(Vec<TomlItem>),
    InlineTable(Vec<(String, TomlItem)>),
    /// A `[table]`.
    Table(Vec<(String, TomlItem)>),
    /// An `[[array of tables]]`: each element is a `Table`.
    ArrayOfTables(Vec<TomlItem>),
    /// No item (a table never lists one).
    Absent,
}

/// Model of an item.
pub enum TomlView {
    Str(Seq<char>),
    Integer(i64),
    Float(Seq<char>),
    Bool(bool),
    Datetime(Seq<char>),
    Array(Seq<TomlView>),
    InlineTable(Seq<(Seq<char>, TomlView)>),
    Table(Seq<(Seq<char>, TomlView)>),
    ArrayOfTables(Seq<TomlView>),
    Absent,
}

pub open spec fn toml_view(t: TomlItem) -> TomlView
    decreases t,
{
    match t {
        TomlItem::Str(s) => TomlView::Str(s@),
        TomlItem::Integer(i) => TomlView::Integer(i),
        TomlItem::Float(s) => TomlView::Float(s@),
        TomlItem::Bool(b) => TomlView::Bool(b),
        TomlItem::Datetime(s) => TomlView::Datetime(s@),
        TomlItem::Array(a) => TomlView::Array(toml_seq_view(a@)),
        TomlItem::InlineTable(e) => TomlView::InlineTable(toml_entries_view(e@)),
        TomlItem::Table(e) => TomlView::Table(toml_entries_view(e@)),
        TomlItem::ArrayOfTables(a) => TomlView::ArrayOfTables(toml_seq_view(a@)),
        TomlItem::Absent => TomlView::Absent,
    }
}

pub open spec fn toml_seq_view(s: Seq<TomlItem>) -> Seq<TomlView>
    decreases s,
{
    if s.len() == 0 {
        seq![]
    } else {
        seq![toml_view(s[0])] + toml_seq_view(s.subrange(1, s.len() as int))
    }
}

pub open spec fn toml_entries_view(s: Seq<(String, TomlItem)>) -> Seq<(Seq<char>, TomlView)>
    decreases s,
{
    if s.len() == 0 {
        seq![]
    } else {
        seq![(s[0].0@, toml_view(s[0].1))] + toml_entries_view(s.subrange(1, s.len() as int))
    }
}

pub proof fn lemma_toml_seq_view(s: Seq<TomlItem>)
    ensures
        toml_seq_view(s).len() == s.len(),
        forall|i: int| 0 <= i < s.len() ==> #[trigger] toml_seq_view(s)[i] == toml_view(s[i]),
    decreases s.len(),
{
    if s.len() > 0 {
        let t = s.subrange(1, s.len() as int);
        lemma_toml_seq_view(t);
        assert forall|i: int| 0 <= i < s.len() implies #[trigger] toml_seq_view(s)[i] == toml_view(
        s[i]) by {
            if i > 0 {
                assert(t[i - 1] == s[i]);
            }
        }
    }
}

pub proof fn lemma_toml_entries_view(s: Seq<(String, TomlItem)>)
    ensures
        toml_entries_view(s).len() == s.len(),
        forall|i: int|
            0 <= i < s.len() ==> #[trigger] toml_entries_view(s)[i] == (s[i].0@, toml_view(s[i].1)),
    decreases s.len(),
{
    if s.len() > 0 {
        let t = s.subrange(1, s.len() as int);
        lemma_toml_entries_view(t);
        assert forall|i: int| 0 <= i < s.len() implies #[trigger] toml_entries_view(s)[i] == (
        s[i].0@, toml_view(s[i].1)) by {
            if i > 0 {
                assert(t[i - 1] == s[i]);
            }
        }
    }
}

/// The document value of a TOML item: tables become objects in file
/// order, arrays of tables arrays of objects, integers and strings
/// themselves, floats numbers by their text, dates and times their text.
/// An inline table becomes an object when `inline`, else `Null`: the
/// configuration logic reads only `[table]`s as tables, as
/// `toml_edit::Item::as_table` does.
pub open spec fn json_of_toml(t: TomlView, inline: bool) -> JsonView
    decreases t,
{
    match t {
        TomlView::Str(s) => JsonView::Str(s),
        TomlView::Integer(i) => if i >= 0 {
            JsonView::Number(NumView::PosInt(i as u64))
        } else {
            JsonView::Number(NumView::NegInt(i))
        },
        TomlView::Float(s) => JsonView::Number(NumView::Decimal(s)),
        TomlView::Bool(b) => JsonView::Bool(b),
        TomlView::Datetime(s) => JsonView::Str(s),
        TomlView::Array(a) => JsonView::Array(json_of_toml_seq(a, inline)),
        TomlView::InlineTable(e) => if inline {
            JsonView::Object(json_of_toml_entries(e, inline))
        } else {
            JsonView::Null
        },
        TomlView::Table(e) => JsonView::Object(json_of_toml_entries(e, inline)),
        TomlView::ArrayOfTables(a) => JsonView::Array(json_of_toml_seq(a, inline)),
        TomlView::Absent => JsonView::Null,
    }
}

pub open spec fn json_of_toml_seq(s: Seq<TomlView>, inline: bool) -> Seq<JsonView>
    decreases s,
{
    if s.len() == 0 {
        seq![]
    } else {
        seq![json_of_toml(s[0], inline)] + json_of_toml_seq(s.subrange(1, s.len() as int), inline)
    }
}

pub open spec fn json_of_toml_entries(s: Seq<(Seq<char>, TomlView)>, inline: bool) -> ObjView
    decreases s,
{
    if s.len() == 0 {
        seq![]
    } else {
        seq![(s[0].0, json_of_toml(s[0].1, inline))] + json_of_toml_entries(
            s.subrange(1, s.len() as int),
            inline,
        )
    }
}

pub proof fn lemma_json_of_toml_seq(s: Seq<TomlView>, inline: bool)
    ensures
        json_of_toml_seq(s, inline).len() == s.len(),
        forall|i: int| 0 <= i < s.len() ==> #[trigger] json_of_toml_seq(s, inline)[i] == json_of_toml(s[i], inline),
    decreases s.len(),
{
    if s.len() > 0 {
        let t = s.subrange(1, s.len() as int);
        lemma_json_of_toml_seq(t, inline);
        assert forall|i: int| 0 <= i < s.len() implies #[trigger] json_of_toml_seq(s, inline)[i]
            == json_of_toml(s[i], inline) by {
            if i > 0 {
                assert(t[i - 1] == s[i]);
            }
        }
    }
}

pub proof fn lemma_json_of_toml_entries(s: Seq<(Seq<char>, TomlView)>, inline: bool)
    ensures
        json_of_toml_entries(s, inline).len() == s.len(),
        forall|i: int|
            0 <= i < s.len() ==> #[trigger] json_of_toml_entries(s, inline)[i] == (s[i].0, json_of_toml(s[i].1, inline)),
    decreases s.len(),
{
    if s.len() > 0 {
        let t = s.subrange(1, s.len() as int);
        lemma_json_of_toml_entries(t, inline);
        assert forall|i: int| 0 <= i < s.len() implies #[trigger] json_of_toml_entries(s, inline)[i] == (
        s[i].0, json_of_toml(s[i].1, inline)) by {
            if i > 0 {
                assert(t[i - 1] == s[i]);
            }
        }
    }
}

/// The document value of an item (see [`json_of_toml`]).
pub fn json_of_item(t: &TomlItem, inline: bool) -> (r: JsonValue)
    ensures
        jview(r) == json_of_toml(toml_view(*t), inline),
    decreases t,
{
    match t {
        TomlItem::Str(s) => JsonValue::Str(s.clone()),
        TomlItem::Integer(i) => if *i >= 0 {
            JsonValue::Number(JsonNumber::PosInt(*i as u64))
        } else {
            JsonValue::Number(JsonNumber::NegInt(*i))
        },
        TomlItem::Float(s) => JsonValue::Number(JsonNumber::Decimal(s.clone())),
        TomlItem::Bool(b) => JsonValue::Bool(*b),
        TomlItem::Datetime(s) => JsonValue::Str(s.clone()),
        TomlItem::Array(a) => JsonValue::Array(json_of_items(a, inline)),
        TomlItem::InlineTable(e) => if inline {
            JsonValue::Object(json_of_entries(e, inline))
        } else {
            JsonValue::Null
        },
        TomlItem::Table(e) => JsonValue::Object(json_of_entries(e, inline)),
        TomlItem::ArrayOfTables(a) => JsonValue::Array(json_of_items(a, inline)),
        TomlItem::Absent => JsonValue::Null,
    }
}

fn json_of_items(a: &Vec<TomlItem>, inline: bool) -> (r: Vec<JsonValue>)
    ensures
        jview_seq(r@) == json_of_toml_seq(toml_seq_view(a@), inline),
    decreases a,
{
    proof {
        lemma_toml_seq_view(a@);
        lemma_json_of_toml_seq(toml_seq_view(a@), inline);
    }
    let mut out: Vec<JsonValue> = Vec::new();
    let mut i: usize = 0;
    while i < a.len()
        invariant
            0 <= i <= a.len(),
            out.len() == i,
            toml_seq_view(a@).len() == a.len(),
            json_of_toml_seq(toml_seq_view(a@), inline).len() == a.len(),
            forall|j: int| 0 <= j < a.len() ==> #[trigger] toml_seq_view(a@)[j] == toml_view(a@[j]),
            forall|j: int|
                0 <= j < a.len() ==> #[trigger] json_of_toml_seq(toml_seq_view(a@), inline)[j] == json_of_toml(
                    toml_seq_view(a@)[j],
                    inline,
                ),
            forall|j: int| 0 <= j < i ==> jview(#[trigger] out@[j]) == json_of_toml(toml_view(a@[j]), inline),
        decreases a.len() - i,
    {
        let x = json_of_item(&a[i], inline);
        out.push(x);
        i = i + 1;
    }
    proof {
        lemma_jview_seq(out@);
        assert(jview_seq(out@) =~= json_of_toml_seq(toml_seq_view(a@), inline));
    }
    out
}

fn json_of_entries(e: &Vec<(String, TomlItem)>, inline: bool) -> (r: Vec<(String, JsonValue)>)
    ensures
        jview_entries(r@) == json_of_toml_entries(toml_entries_view(e@), inline),
    decreases e,
{
    proof {
        lemma_toml_entries_view(e@);
        lemma_json_of_toml_entries(toml_entries_view(e@), inline);
    }
    let mut out: Vec<(String, JsonValue)> = Vec::new();
    let mut i: usize = 0;
    while i < e.len()
        invariant
            0 <= i <= e.len(),
            out.len() == i,
            toml_entries_view(e@).len() == e.len(),
            json_of_toml_entries(toml_entries_view(e@), inline).len() == e.len(),
            forall|j: int|
                0 <= j < e.len() ==> #[trigger] toml_entries_view(e@)[j] == (e@[j].0@, toml_view(e@[j].1)),
            forall|j: int|
                0 <= j < e.len() ==> #[trigger] json_of_toml_entries(toml_entries_view(e@), inline)[j] == (
                    toml_entries_view(e@)[j].0,
                    json_of_toml(toml_entries_view(e@)[j].1, inline),
                ),
            forall|j: int|
                0 <= j < i ==> (#[trigger] out@[j]).0@ == e@[j].0@ && jview(out@[j].1) == json_of_toml(
                    toml_view(e@[j].1),
                    inline,
                ),
        decreases e.len() - i,
    {
        let k = e[i].0.clone();
        let x = json_of_item(&e[i].1, inline);
        out.push((k, x));
        i = i + 1;
    }
    proof {
        lemma_jview_entries(out@);
        assert(jview_entries(out@) =~= json_of_toml_entries(toml_entries_view(e@), inline));
    }
    out
}

/// The items of the document that `toml_edit` reads from a text, in file
/// order; nothing when the text is not TOML.
pub uninterp spec fn toml_tables(text: Seq<char>) -> Option<Seq<(Seq<char>, TomlView)>>;

/// `str::parse::<toml_edit::DocumentMut>`: the items of the document's
/// root table, nothing when the text is not TOML. Claimed: the items depend
/// on the text alone.
#[verifier::external_body]
fn read_toml(text: &str) -> (r: Option<Vec<(String, TomlItem)>>)
    ensures
        match r {
            Some(t) => toml_tables(text@) == Some(toml_entries_view(t@)),
            None => toml_tables(text@) is None,
        },
{
    match text.parse::<toml_edit::DocumentMut>() {
        Ok(d) => Some(toml_table_entries(d.as_table())),
        Err(_) => None,
    }
}

/// Conversion step of [`read_toml`]: the items of a table, in order.
#[verifier::external_body]
fn toml_table_entries(t: &toml_edit::Table) -> Vec<(String, TomlItem)> {
    t.iter().map(|(k, i)| (k.to_string(), toml_item_of(i))).collect()
}

/// Conversion step of [`read_toml`]: an item, variant by variant.
#[verifier::external_body]
fn toml_item_of(i: &toml_edit::Item) -> TomlItem {
    match i {
        toml_edit::Item::Value(v) => toml_value_of(v),
        toml_edit::Item::Table(t) => TomlItem::Table(toml_table_entries(t)),
        toml_edit::Item::ArrayOfTables(a) => {
            TomlItem::ArrayOfTables(a.iter().map(|t| TomlItem::Table(toml_table_entries(t))).collect())
        },
        toml_edit::Item::None => TomlItem::Absent,
    }
}

/// Conversion step of [`read_toml`]: a value, variant by variant (a float
/// and a date by their text).
#[verifier::external_body]
fn toml_value_of(v: &toml_edit::Value) -> TomlItem {
    match v {
        toml_edit::Value::String(s) => TomlItem::Str(s.value().clone()),
        toml_edit::Value::Integer(i) => TomlItem::Integer(*i.value()),
        toml_edit::Value::Float(f) => TomlItem::Float(f.display_repr().into_owned()),
        toml_edit::Value::Boolean(b) => TomlItem::Bool(*b.value()),
        toml_edit::Value::Datetime(d) => TomlItem::Datetime(d.value().to_string()),
        toml_edit::Value::Array(a) => TomlItem::Array(a.iter().map(toml_value_of).collect()),
        toml_edit::Value::InlineTable(t) => TomlItem::InlineTable(
            t.iter().map(|(k, x)| (k.to_string(), toml_value_of(x))).collect(),
        ),
    }
}

/// The document that the Kimi Code operations start from: empty for a
/// blank text, else the document value of what `toml_edit` reads (see
/// [`json_of_toml`]); refused when the text is not TOML.
pub fn parse_document(text: &str) -> (r: Result<Vec<(String, JsonValue)>, AppError>)
    ensures
        trim(text@).len() == 0 ==> (r matches Ok(d) && d@.len() == 0),
        trim(text@).len() > 0 ==> match toml_tables(text@) {
            Some(t) => r matches Ok(d) && jview_entries(d@) == json_of_toml_entries(t, false),
            None => r matches Err(e) && e is KimiInvalidToml,
        },
{
    let t = trim_str(text);
    if t.as_str().is_empty() {
        return Ok(Vec::new());
    }
    match read_toml(text) {
        Some(items) => Ok(json_of_entries(&items, false)),
        None => Err(AppError::KimiInvalidToml),
    }
}

/// The whole `config.toml` as a value, for display: `{}` for a blank text,
/// else the document value with inline tables as objects; refused when the
/// text is not TOML.
pub fn read_live_settings(text: &str) -> (r: Result<JsonValue, AppError>)
    ensures
        trim(text@).len() == 0 ==> (r matches Ok(v) && jview(v) == JsonView::Object(seq![])),
        trim(text@).len() > 0 ==> match toml_tables(text@) {
            Some(t) => r matches Ok(v) && jview(v) == JsonView::Object(json_of_toml_entries(t, true)),
            None => r matches Err(e) && e is KimiInvalidToml,
        },
{
    let t = trim_str(text);
    if t.as_str().is_empty() {
        let empty: Vec<(String, JsonValue)> = Vec::new();
        proof {
            lemma_jview_entries(empty@);
            assert(jview_entries(empty@) =~= seq![]);
        }
        return Ok(JsonValue::Object(empty));
    }
    match read_toml(text) {
        Some(items) => Ok(JsonValue::Object(json_of_entries(&items, true))),
        None => Err(AppError::KimiInvalidToml),
    }
}

// ---------------------------------------------------------------------------
// Writing back
// ---------------------------------------------------------------------------

/// The TOML item written for a document value: an object becomes a
/// `[table]`, any other value a TOML value; nothing for `Null` (the item is
/// dropped).
pub open spec fn toml_item_of_json(v: JsonView) -> Option<TomlView>
    decreases v, 1int,
{
    match v {
        JsonView::Object(e) => Some(TomlView::Table(item_entries_of_json(e))),
        _ => toml_value_of_json(v),
    }
}

/// The TOML value written for a document value: objects inside values
/// become inline tables, numbers keep their text or value; nothing for
/// `Null` or an integer beyond `i64` (the value is dropped).
pub open spec fn toml_value_of_json(v: JsonView) -> Option<TomlView>
    decreases v, 0int,
{
    match v {
        JsonView::Null => None,
        JsonView::Bool(b) => Some(TomlView::Bool(b)),
        JsonView::Number(NumView::PosInt(u)) => if u <= i64::MAX {
            Some(TomlView::Integer(u as i64))
        } else {
            None
        },
        JsonView::Number(NumView::NegInt(i)) => Some(TomlView::Integer(i)),
        JsonView::Number(NumView::Float(t, _)) => Some(TomlView::Float(t)),
        JsonView::Number(NumView::Decimal(t)) => Some(TomlView::Float(t)),
        JsonView::Str(s) => Some(TomlView::Str(s)),
        JsonView::Array(a) => Some(TomlView::Array(values_of_json(a))),
        JsonView::Object(e) => Some(TomlView::InlineTable(value_entries_of_json(e))),
    }
}

/// The values written for the elements of an array, dropped ones left out.
pub open spec fn values_of_json(a: Seq<JsonView>) -> Seq<TomlView>
    decreases a, 0int,
{
    if a.len() == 0 {
        seq![]
    } else {
        let rest = values_of_json(a.drop_last());
        match toml_value_of_json(a.last()) {
            Some(t) => rest.push(t),
            None => rest,
        }
    }
}

/// The entries written for an object inside a value.
pub open spec fn value_entries_of_json(e: ObjView) -> Seq<(Seq<char>, TomlView)>
    decreases e, 0int,
{
    if e.len() == 0 {
        seq![]
    } else {
        let rest = value_entries_of_json(e.drop_last());
        match toml_value_of_json(e.last().1) {
            Some(t) => rest.push((e.last().0, t)),
            None => rest,
        }
    }
}

/// The items written for an object written as a `[table]`.
pub open spec fn item_entries_of_json(e: ObjView) -> Seq<(Seq<char>, TomlView)>
    decreases e, 0int,
{
    if e.len() == 0 {
        seq![]
    } else {
        let rest = item_entries_of_json(e.drop_last());
        match toml_item_of_json(e.last().1) {
            Some(t) => rest.push((e.last().0, t)),
            None => rest,
        }
    }
}

/// The TOML item for a document value (see [`toml_item_of_json`]).
pub fn toml_item_of_value(v: &JsonValue) -> (r: Option<TomlItem>)
    ensures
        match r {
            Some(t) => toml_item_of_json(jview(*v)) == Some(toml_view(t)),
            None => toml_item_of_json(jview(*v)) is None,
        },
    decreases v, 1int,
{
    match v {
        JsonValue::Object(e) => Some(TomlItem::Table(toml_entries_of(e, true))),
        _ => toml_value_of_value(v),
    }
}

/// The TOML value for a document value (see [`toml_value_of_json`]).
pub fn toml_value_of_value(v: &JsonValue) -> (r: Option<TomlItem>)
    ensures
        match r {
            Some(t) => toml_value_of_json(jview(*v)) == Some(toml_view(t)),
            None => toml_value_of_json(jview(*v)) is None,
        },
    decreases v, 0int,
{
    match v {
        JsonValue::Null => None,
        JsonValue::Bool(b) => Some(TomlItem::Bool(*b)),
        JsonValue::Number(JsonNumber::PosInt(u)) => if *u <= 0x7fff_ffff_ffff_ffffu64 {
            Some(TomlItem::Integer(*u as i64))
        } else {
            None
        },
        JsonValue::Number(JsonNumber::NegInt(i)) => Some(TomlItem::Integer(*i)),
        JsonValue::Number(JsonNumber::Float(t, _)) => Some(TomlItem::Float(t.clone())),
        JsonValue::Number(JsonNumber::Decimal(t)) => Some(TomlItem::Float(t.clone())),
        JsonValue::Str(s) => Some(TomlItem::Str(s.clone())),
        JsonValue::Array(a) => Some(TomlItem::Array(toml_values_of(a))),
        JsonValue::Object(e) => Some(TomlItem::InlineTable(toml_entries_of(e, false))),
    }
}

/// The values written for the elements of an array (see [`values_of_json`]).
fn toml_values_of(a: &Vec<JsonValue>) -> (r: Vec<TomlItem>)
    ensures
        toml_seq_view(r@) == values_of_json(jview_seq(a@)),
    decreases a,
{
    let mut out: Vec<TomlItem> = Vec::new();
    let mut i: usize = 0;
    proof {
        lemma_jview_seq(a@);
    }
    while i < a.len()
        invariant
            0 <= i <= a.len(),
            jview_seq(a@).len() == a.len(),
            forall|j: int| 0 <= j < a.len() ==> #[trigger] jview_seq(a@)[j] == jview(a@[j]),
            toml_seq_view(out@) == values_of_json(jview_seq(a@).subrange(0, i as int)),
        decreases a.len() - i,
    {
        let ghost pre = jview_seq(a@).subrange(0, i as int + 1);
        assert(pre.drop_last() =~= jview_seq(a@).subrange(0, i as int));
        assert(pre.last() == jview(a@[i as int]));
        let x = toml_value_of_value(&a[i]);
        match x {
            Some(t) => {
                proof {
                    lemma_toml_seq_push(out@, t);
                }
                out.push(t);
            },
            None => {},
        }
        i = i + 1;
    }
    assert(jview_seq(a@).subrange(0, a.len() as int) =~= jview_seq(a@));
    out
}

/// The entries written for an object: as items of a `[table]` when
/// `items`, else as the values of an inline table.
fn toml_entries_of(e: &Vec<(String, JsonValue)>, items: bool) -> (r: Vec<(String, TomlItem)>)
    ensures
        toml_entries_view(r@) == if items {
            item_entries_of_json(jview_entries(e@))
        } else {
            value_entries_of_json(jview_entries(e@))
        },
    decreases e,
{
    let ghost o = jview_entries(e@);
    proof {
        lemma_jview_entries(e@);
    }
    let mut out: Vec<(String, TomlItem)> = Vec::new();
    let mut i: usize = 0;
    while i < e.len()
        invariant
            0 <= i <= e.len(),
            o == jview_entries(e@),
            o.len() == e.len(),
            forall|j: int| 0 <= j < e.len() ==> #[trigger] o[j] == (e@[j].0@, jview(e@[j].1)),
            toml_entries_view(out@) == if items {
                item_entries_of_json(o.subrange(0, i as int))
            } else {
                value_entries_of_json(o.subrange(0, i as int))
            },
        decreases e.len() - i,
    {
        let ghost pre = o.subrange(0, i as int + 1);
        assert(pre.drop_last() =~= o.subrange(0, i as int));
        assert(pre.last() == o[i as int]);
        let x = if items {
            toml_item_of_value(&e[i].1)
        } else {
            toml_value_of_value(&e[i].1)
        };
        match x {
            Some(t) => {
                let k = e[i].0.clone();
                proof {
                    lemma_toml_entries_push(out@, k, t);
                }
                out.push((k, t));
            },
            None => {},
        }
        i = i + 1;
    }
    assert(o.subrange(0, e.len() as int) =~= o);
    out
}

proof fn lemma_toml_seq_push(s: Seq<TomlItem>, t: TomlItem)
    ensures
        toml_seq_view(s.push(t)) == toml_seq_view(s).push(toml_view(t)),
{
    lemma_toml_seq_view(s);
    lemma_toml_seq_view(s.push(t));
    assert(toml_seq_view(s.push(t)) =~= toml_seq_view(s).push(toml_view(t)));
}

proof fn lemma_toml_entries_push(s: Seq<(String, TomlItem)>, k: String, t: TomlItem)
    ensures
        toml_entries_view(s.push((k, t))) == toml_entries_view(s).push((k@, toml_view(t))),
{
    lemma_toml_entries_view(s);
    lemma_toml_entries_view(s.push((k, t)));
    assert(toml_entries_view(s.push((k, t))) =~= toml_entries_view(s).push((k@, toml_view(t))));
}

/// One write into a table of the text.
#[derive(Debug)]
pub enum TomlWrite {
    Remove(String),
    Put(String, TomlItem),
    /// Descend into the `[table]` under the key.
    Merge(String, Vec<TomlWrite>),
}

/// Model of a write.
pub enum WriteView {
    Remove(Seq<char>),
    Put(Seq<char>, TomlView),
    Merge(Seq<char>, Seq<WriteView>),
}

pub open spec fn write_view(w: TomlWrite) -> WriteView
    decreases w,
{
    match w {
        TomlWrite::Remove(k) => WriteView::Remove(k@),
        TomlWrite::Put(k, t) => WriteView::Put(k@, toml_view(t)),
        TomlWrite::Merge(k, ws) => WriteView::Merge(k@, writes_view(ws@)),
    }
}

pub open spec fn writes_view(s: Seq<TomlWrite>) -> Seq<WriteView>
    decreases s,
{
    if s.len() == 0 {
        seq![]
    } else {
        seq![write_view(s[0])] + writes_view(s.subrange(1, s.len() as int))
    }
}

pub proof fn lemma_writes_view(s: Seq<TomlWrite>)
    ensures
        writes_view(s).len() == s.len(),
        forall|i: int| 0 <= i < s.len() ==> #[trigger] writes_view(s)[i] == write_view(s[i]),
    decreases s.len(),
{
    if s.len() > 0 {
        let t = s.subrange(1, s.len() as int);
        lemma_writes_view(t);
        assert forall|i: int| 0 <= i < s.len() implies #[trigger] writes_view(s)[i] == write_view(
        s[i]) by {
            if i > 0 {
                assert(t[i - 1] == s[i]);
            }
        }
    }
}

/// The write for an edit of a sync plan: a value that TOML cannot hold
/// (`Null`) removes the item.
pub open spec fn write_of_edit(e: EditView) -> WriteView
    decreases e, 1int,
{
    match e {
        EditView::Remove(k) => WriteView::Remove(k),
        EditView::Put(k, v) => match toml_item_of_json(v) {
            Some(t) => WriteView::Put(k, t),
            None => WriteView::Remove(k),
        },
        EditView::Merge(k, _, sub) => WriteView::Merge(k, writes_of_edits(sub)),
    }
}

pub open spec fn writes_of_edits(s: Seq<EditView>) -> Seq<WriteView>
    decreases s, 0int,
{
    if s.len() == 0 {
        seq![]
    } else {
        writes_of_edits(s.drop_last()).push(write_of_edit(s.last()))
    }
}

/// The writes for a sync plan (see [`write_of_edit`]).
pub fn writes_of_plan(plan: &Vec<TomlEdit>) -> (r: Vec<TomlWrite>)
    ensures
        writes_view(r@) == writes_of_edits(edits_view(plan@)),
    decreases plan,
{
    proof {
        lemma_edits_view(plan@);
    }
    let mut out: Vec<TomlWrite> = Vec::new();
    let mut i: usize = 0;
    while i < plan.len()
        invariant
            0 <= i <= plan.len(),
            edits_view(plan@).len() == plan.len(),
            forall|j: int|
                0 <= j < plan.len() ==> #[trigger] edits_view(plan@)[j] == crate::toml_sync::edit_view(
                    plan@[j],
                ),
            writes_view(out@) == writes_of_edits(edits_view(plan@).subrange(0, i as int)),
        decreases plan.len() - i,
    {
        let ghost pre = edits_view(plan@).subrange(0, i as int + 1);
        assert(pre.drop_last() =~= edits_view(plan@).subrange(0, i as int));
        assert(pre.last() == crate::toml_sync::edit_view(plan@[i as int]));
        let w = match &plan[i] {
            TomlEdit::Remove(k) => TomlWrite::Remove(k.clone()),
            TomlEdit::Put(k, v) => match toml_item_of_value(v) {
                Some(t) => TomlWrite::Put(k.clone(), t),
                None => TomlWrite::Remove(k.clone()),
            },
            TomlEdit::Merge(k, _, sub) => TomlWrite::Merge(k.clone(), writes_of_plan(sub)),
        };
        assert(write_view(w) == write_of_edit(pre.last()));
        proof {
            lemma_writes_view(out@);
            lemma_writes_view(out@.push(w));
            assert(writes_view(out@.push(w)) =~= writes_view(out@).push(write_view(w)));
        }
        out.push(w);
        i = i + 1;
    }
    assert(edits_view(plan@).subrange(0, plan.len() as int) =~= edits_view(plan@));
    out
}

/// The text that `toml_edit` prints after reading `text` and applying the
/// writes to its root table; nothing when the text is not TOML or a value
/// cannot be written.
pub uninterp spec fn toml_after(text: Seq<char>, writes: Seq<WriteView>) -> Option<Seq<char>>;

/// `str::parse::<toml_edit::DocumentMut>`, the writes applied with
/// `Table::remove`, `Table::insert` and `Table::get_mut`, then `Display`.
/// Claimed: the text depends on the text read and the writes alone.
#[verifier::external_body]
fn write_toml(text: &str, writes: &Vec<TomlWrite>) -> (r: Option<String>)
    ensures
        match r {
            Some(s) => toml_after(text@, writes_view(writes@)) == Some(s@),
            None => toml_after(text@, writes_view(writes@)) is None,
        },
{
    let mut doc = match text.parse::<toml_edit::DocumentMut>() {
        Ok(d) => d,
        Err(_) => return None,
    };
    match apply_writes(doc.as_table_mut(), writes) {
        Some(()) => Some(doc.to_string()),
        None => None,
    }
}

/// Conversion step of [`write_toml`]: the writes, in order, into a table
/// (a `Merge` reaches only a `[table]`).
#[verifier::external_body]
fn apply_writes(t: &mut toml_edit::Table, writes: &Vec<TomlWrite>) -> Option<()> {
    for w in writes {
        match w {
            TomlWrite::Remove(k) => drop(t.remove(k)),
            TomlWrite::Put(k, x) => drop(t.insert(k, toml_edit_item(x)?)),
            TomlWrite::Merge(k, sub) => {
                if let Some(toml_edit::Item::Table(s)) = t.get_mut(k) {
                    apply_writes(s, sub)?;
                }
            },
        }
    }
    Some(())
}

/// Conversion step of [`write_toml`]: an item, variant by variant.
#[verifier::external_body]
fn toml_edit_item(x: &TomlItem) -> Option<toml_edit::Item> {
    match x {
        TomlItem::Table(e) => toml_edit_table(e).map(toml_edit::Item::Table),
        TomlItem::ArrayOfTables(a) => {
            let mut out = toml_edit::ArrayOfTables::new();
            for t in a {
                if let TomlItem::Table(e) = t {
                    out.push(toml_edit_table(e)?);
                }
            }
            Some(toml_edit::Item::ArrayOfTables(out))
        },
        TomlItem::Absent => Some(toml_edit::Item::None),
        other => toml_edit_value(other).map(toml_edit::Item::Value),
    }
}

/// Conversion step of [`write_toml`]: a `[table]`, item by item.
#[verifier::external_body]
fn toml_edit_table(e: &Vec<(String, TomlItem)>) -> Option<toml_edit::Table> {
    let mut t = toml_edit::Table::new();
    for (k, x) in e {
        t.insert(k, toml_edit_item(x)?);
    }
    Some(t)
}

/// Conversion step of [`write_toml`]: a value, variant by variant (a float
/// and a date are read back from their text).
#[verifier::external_body]
fn toml_edit_value(x: &TomlItem) -> Option<toml_edit::Value> {
    match x {
        TomlItem::Str(s) => Some(toml_edit::Value::from(s.as_str())),
        TomlItem::Integer(i) => Some(toml_edit::Value::from(*i)),
        TomlItem::Float(t) => t.parse::<toml_edit::Value>().ok(),
        TomlItem::Datetime(t) => t.parse::<toml_edit::Value>().ok(),
        TomlItem::Bool(b) => Some(toml_edit::Value::from(*b)),
        TomlItem::Array(a) => {
            a.iter().map(toml_edit_value).collect::<Option<toml_edit::Array>>().map(toml_edit::Value::Array)
        },
        TomlItem::InlineTable(e) => toml_edit_inline(e).map(toml_edit::Value::InlineTable),
        _ => None,
    }
}

/// Conversion step of [`write_toml`]: an inline table, entry by entry.
#[verifier::external_body]
fn toml_edit_inline(e: &Vec<(String, TomlItem)>) -> Option<toml_edit::InlineTable> {
    let mut t = toml_edit::InlineTable::new();
    for (k, x) in e {
        t.insert(k, toml_edit_value(x)?);
    }
    Some(t)
}

/// What writing the document `new`, edited from `old` as read from
/// `text`, gives: nothing to write when nothing changed in a blank or
/// missing file; else the text after the sync plan's writes (applied to an
/// empty document when the file is blank); refused when `toml_edit` cannot
/// read the text or write a value.
pub open spec fn spec_config_text_after(text: Seq<char>, old: ObjView, new: ObjView) -> Result<
    Option<Seq<char>>,
    AppError,
> {
    let plan = spec_plan(old, new);
    let blank = trim(text).len() == 0;
    if plan.len() == 0 && blank {
        Ok(None)
    } else {
        match toml_after(if blank { ""@ } else { text }, writes_of_edits(plan)) {
            Some(s) => Ok(Some(s)),
            None => Err(AppError::KimiInvalidToml),
        }
    }
}

/// The new `config.toml` text (see [`spec_config_text_after`]): items whose
/// value did not change keep their text, comments included.
pub fn config_text_after(
    text: &str,
    old: &Vec<(String, JsonValue)>,
    new: &Vec<(String, JsonValue)>,
) -> (r: Result<Option<String>, AppError>)
    ensures
        match spec_config_text_after(text@, jview_entries(old@), jview_entries(new@)) {
            Ok(None) => r matches Ok(None),
            Ok(Some(s)) => r matches Ok(Some(x)) && x@ == s,
            Err(k) => r matches Err(e) && e == k,
        },
{
    let plan = plan_table_sync(old, new);
    proof {
        lemma_edits_view(plan@);
    }
    let t = trim_str(text);
    let blank = t.as_str().is_empty();
    if plan.len() == 0 && blank {
        return Ok(None);
    }
    let writes = writes_of_plan(&plan);
    let base: &str = if blank {
        ""
    } else {
        text
    };
    match write_toml(base, &writes) {
        Some(s) => Ok(Some(s)),
        None => Err(AppError::KimiInvalidToml),
    }
}

} // verus!
