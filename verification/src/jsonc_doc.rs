//! Pi's `models.json` as text: read into the round-trip syntax tree of
//! [`crate::pi_jsonc`] and printed back from it by the `json_five` crate's
//! round-trip parser, with the provider edits in between.
use vstd::prelude::*;
use json_five::rt::parser as five;
use crate::error::AppError;
use crate::pi_jsonc::{
    prepare_providers, providers_child_indent, reindent_json_block, rt_view, set_provider,
    spec_prepare, spec_providers_child_indent, spec_reindent, spec_set_provider, ArrayValueContext,
    PairContext, RtArrayValue, RtPair, RtValue, RtView,
};

verus! {

#[verifier::external_type_specification]
#[verifier::external_body]
pub struct ExFiveValue(five::JSONValue);

#[verifier::external_type_specification]
#[verifier::external_body]
pub struct ExFivePair(five::JSONKeyValuePair);

#[verifier::external_type_specification]
#[verifier::external_body]
pub struct ExFiveItem(five::JSONArrayValue);

/// A whole `models.json` text as its syntax tree: the root value and the
/// whitespace and comments before and after it.
#[derive(Debug)]
pub struct RtDocument {
    pub root: RtValue,
    pub context: Option<(String, String)>,
}

/// Model of a document.
pub struct RtDocView {
    pub root: RtView,
    pub context: Option<(Seq<char>, Seq<char>)>,
}

pub open spec fn doc_view(d: RtDocument) -> RtDocView {
    RtDocView {
        root: rt_view(d.root),
        context: match d.context {
            Some((a, b)) => Some((a@, b@)),
            None => None,
        },
    }
}

pub open spec fn opt_doc_view(d: Option<RtDocument>) -> Option<RtDocView> {
    match d {
        Some(x) => Some(doc_view(x)),
        None => None,
    }
}

/// The syntax tree that `json_five`'s round-trip parser reads from a text;
/// nothing when the text is not JSON5.
pub uninterp spec fn jsonc_tree(source: Seq<char>) -> Option<RtDocView>;

/// The text that `json_five` prints for a syntax tree. Printing a tree
/// just read does not always give its text back (`NaN` prints as `Nan`,
/// and a block comment right before a member loses a character), so
/// nothing is claimed of the two names together.
pub uninterp spec fn jsonc_text(doc: RtDocView) -> Seq<char>;

/// `json_five::rt::parser::from_str`: the syntax tree of `source`, nothing
/// when it is not JSON5. Claimed: the tree depends on the text alone.
#[verifier::external_body]
fn parse_jsonc(source: &str) -> (r: Option<RtDocument>)
    ensures
        opt_doc_view(r) == jsonc_tree(source@),
{
    match five::from_str(source) {
        Ok(t) => Some(RtDocument { root: rt_of_five(&t.value), context: t.context.map(|c| c.wsc) }),
        Err(_) => None,
    }
}

/// `Display` of `json_five::rt::parser::JSONText`: the text of a syntax
/// tree. Claimed: the text depends on the tree alone.
#[verifier::external_body]
fn print_jsonc(doc: &RtDocument) -> (r: String)
    ensures
        r@ == jsonc_text(doc_view(*doc)),
{
    let context = doc.context.clone().map(|wsc| five::JSONTextContext { wsc });
    let text = five::JSONText { value: five_of_rt(&doc.root), context };
    format!("{}", text)
}

/// Conversion step of [`parse_jsonc`]: a parsed node, variant by variant.
#[verifier::external_body]
fn rt_of_five(v: &five::JSONValue) -> RtValue {
    match v {
        five::JSONValue::JSONObject { key_value_pairs: p, context: c } => RtValue::Object {
            pairs: p.iter().map(rt_pair_of_five).collect(),
            ws: c.as_ref().map(|c| c.wsc.0.clone()),
        },
        five::JSONValue::JSONArray { values: a, context: c } => RtValue::Array {
            values: a.iter().map(rt_item_of_five).collect(),
            ws: c.as_ref().map(|c| c.wsc.0.clone()),
        },
        five::JSONValue::Unary { operator: o, value: x } => RtValue::Unary {
            minus: matches!(o, five::UnaryOperator::Minus),
            value: Box::new(rt_of_five(x)),
        },
        other => rt_scalar_of_five(other),
    }
}

/// Conversion step of [`parse_jsonc`]: the variants without text.
#[verifier::external_body]
fn rt_scalar_of_five(v: &five::JSONValue) -> RtValue {
    match v {
        five::JSONValue::Null => RtValue::Null,
        five::JSONValue::Infinity => RtValue::Infinity,
        five::JSONValue::NaN => RtValue::NaN,
        five::JSONValue::Bool(b) => RtValue::Bool(*b),
        other => rt_text_of_five(other),
    }
}

/// Conversion step of [`parse_jsonc`]: the variants that hold their text
/// (the last arm is never reached: [`rt_of_five`] takes the nested ones).
#[verifier::external_body]
fn rt_text_of_five(v: &five::JSONValue) -> RtValue {
    match v {
        five::JSONValue::Integer(s) => RtValue::Integer(s.clone()),
        five::JSONValue::Float(s) => RtValue::Float(s.clone()),
        five::JSONValue::Exponent(s) => RtValue::Exponent(s.clone()),
        five::JSONValue::Hexadecimal(s) => RtValue::Hexadecimal(s.clone()),
        five::JSONValue::DoubleQuotedString(s) => RtValue::DoubleQuoted(s.clone()),
        five::JSONValue::SingleQuotedString(s) => RtValue::SingleQuoted(s.clone()),
        five::JSONValue::Identifier(s) => RtValue::Identifier(s.clone()),
        _ => RtValue::Null,
    }
}

/// Conversion step of [`parse_jsonc`]: a member of an object.
#[verifier::external_body]
fn rt_pair_of_five(p: &five::JSONKeyValuePair) -> RtPair {
    RtPair {
        key: rt_of_five(&p.key),
        value: rt_of_five(&p.value),
        context: p.context.as_ref().map(|c| PairContext {
            before_colon: c.wsc.0.clone(),
            after_colon: c.wsc.1.clone(),
            after_value: c.wsc.2.clone(),
            after_comma: c.wsc.3.clone(),
        }),
    }
}

/// Conversion step of [`parse_jsonc`]: an item of an array.
#[verifier::external_body]
fn rt_item_of_five(a: &five::JSONArrayValue) -> RtArrayValue {
    RtArrayValue {
        value: rt_of_five(&a.value),
        context: a.context.as_ref().map(|c| ArrayValueContext {
            after_value: c.wsc.0.clone(),
            after_comma: c.wsc.1.clone(),
        }),
    }
}

/// Conversion step of [`print_jsonc`]: a node, variant by variant.
#[verifier::external_body]
fn five_of_rt(v: &RtValue) -> five::JSONValue {
    match v {
        RtValue::Object { pairs, ws } => five::JSONValue::JSONObject {
            key_value_pairs: pairs.iter().map(five_pair_of_rt).collect(),
            context: ws.clone().map(|w| five::JSONObjectContext { wsc: (w,) }),
        },
        RtValue::Array { values, ws } => five::JSONValue::JSONArray {
            values: values.iter().map(five_item_of_rt).collect(),
            context: ws.clone().map(|w| five::JSONArrayContext { wsc: (w,) }),
        },
        RtValue::Unary { minus, value } => five::JSONValue::Unary {
            operator: if *minus { five::UnaryOperator::Minus } else { five::UnaryOperator::Plus },
            value: Box::new(five_of_rt(value)),
        },
        other => five_scalar_of_rt(other),
    }
}

/// Conversion step of [`print_jsonc`]: the variants without text.
#[verifier::external_body]
fn five_scalar_of_rt(v: &RtValue) -> five::JSONValue {
    match v {
        RtValue::Null => five::JSONValue::Null,
        RtValue::Infinity => five::JSONValue::Infinity,
        RtValue::NaN => five::JSONValue::NaN,
        RtValue::Bool(b) => five::JSONValue::Bool(*b),
        other => five_text_of_rt(other),
    }
}

/// Conversion step of [`print_jsonc`]: the variants that hold their text
/// (the last arm is never reached: [`five_of_rt`] takes the nested ones).
#[verifier::external_body]
fn five_text_of_rt(v: &RtValue) -> five::JSONValue {
    match v {
        RtValue::Integer(s) => five::JSONValue::Integer(s.clone()),
        RtValue::Float(s) => five::JSONValue::Float(s.clone()),
        RtValue::Exponent(s) => five::JSONValue::Exponent(s.clone()),
        RtValue::Hexadecimal(s) => five::JSONValue::Hexadecimal(s.clone()),
        RtValue::DoubleQuoted(s) => five::JSONValue::DoubleQuotedString(s.clone()),
        RtValue::SingleQuoted(s) => five::JSONValue::SingleQuotedString(s.clone()),
        RtValue::Identifier(s) => five::JSONValue::Identifier(s.clone()),
        _ => five::JSONValue::Null,
    }
}

/// Conversion step of [`print_jsonc`]: a member of an object.
#[verifier::external_body]
fn five_pair_of_rt(p: &RtPair) -> five::JSONKeyValuePair {
    five::JSONKeyValuePair {
        key: five_of_rt(&p.key),
        value: five_of_rt(&p.value),
        context: p.context.as_ref().map(|c| five::KeyValuePairContext {
            wsc: (c.before_colon.clone(), c.after_colon.clone(), c.after_value.clone(), c.after_comma.clone()),
        }),
    }
}

/// Conversion step of [`print_jsonc`]: an item of an array.
#[verifier::external_body]
fn five_item_of_rt(a: &RtArrayValue) -> five::JSONArrayValue {
    five::JSONArrayValue {
        value: five_of_rt(&a.value),
        context: a.context.as_ref().map(|c| five::ArrayValueContext {
            wsc: (c.after_value.clone(), c.after_comma.clone()),
        }),
    }
}

/// `models.json` as read (`"{}\n"` when the file is missing): its syntax
/// tree when that is an object; refused when the text is not JSON5 or the
/// root is no object.
pub open spec fn spec_load_models(source: Seq<char>) -> Result<RtDocView, AppError> {
    match jsonc_tree(source) {
        None => Err(AppError::PiModelsInvalid),
        Some(d) => if d.root is Object {
            Ok(d)
        } else {
            Err(AppError::PiNotObject)
        },
    }
}

/// The text read when `models.json` is missing.
pub open spec fn source_or_empty(source: Option<Seq<char>>) -> Seq<char> {
    match source {
        Some(s) => s,
        None => "{}\n"@,
    }
}

pub open spec fn opt_str_view(s: Option<&str>) -> Option<Seq<char>> {
    match s {
        Some(x) => Some(x@),
        None => None,
    }
}

/// Reads `models.json` (`None` when the file is missing) into its syntax
/// tree (see [`spec_load_models`]).
pub fn load_models_source(source: Option<&str>) -> (r: Result<RtDocument, AppError>)
    ensures
        match spec_load_models(source_or_empty(opt_str_view(source))) {
            Ok(d) => r matches Ok(x) && doc_view(x) == d,
            Err(k) => r matches Err(e) && e == k,
        },
{
    let parsed = match source {
        Some(s) => parse_jsonc(s),
        None => parse_jsonc("{}\n"),
    };
    match parsed {
        None => Err(AppError::PiModelsInvalid),
        Some(d) => {
            let is_object = match &d.root {
                RtValue::Object { .. } => true,
                _ => false,
            };
            if is_object {
                Ok(d)
            } else {
                Err(AppError::PiNotObject)
            }
        },
    }
}

/// The root after writing `providers.<id>` from the entry's pretty-printed
/// JSON text: `providers` is made sure of, the text is re-indented to the
/// level of the providers' members and read as JSON5, and the result is
/// upserted into `providers`.
pub open spec fn spec_put_entry(root: RtView, id: Seq<char>, entry_json: Seq<char>) -> Result<
    RtView,
    AppError,
> {
    match spec_prepare(root) {
        None => Err(AppError::PiModelsNotObject),
        Some(p) => match jsonc_tree(spec_reindent(entry_json, spec_providers_child_indent(p))) {
            None => Err(AppError::PiEntryInvalid),
            Some(e) => match spec_set_provider(p, id, e.root) {
                Some(v) => Ok(v),
                None => Err(AppError::PiModelsNotObject),
            },
        },
    }
}

/// Writes `providers.<id>` of the document from the entry's pretty-printed
/// JSON text (see [`spec_put_entry`]); the text around the root is kept.
pub fn put_entry(doc: &mut RtDocument, id: &str, entry_json: &str) -> (r: Result<(), AppError>)
    ensures
        doc_view(*final(doc)).context == doc_view(*old(doc)).context,
        match spec_put_entry(doc_view(*old(doc)).root, id@, entry_json@) {
            Ok(v) => r is Ok && doc_view(*final(doc)).root == v,
            Err(k) => r matches Err(e) && e == k,
        },
{
    let ghost r0 = rt_view(doc.root);
    prepare_providers(&mut doc.root)?;
    let ghost p = rt_view(doc.root);
    assert(spec_prepare(r0) == Some(p));
    let indent = providers_child_indent(&doc.root);
    let block = reindent_json_block(entry_json, indent.as_str());
    let entry = match parse_jsonc(block.as_str()) {
        Some(e) => e,
        None => {
            return Err(AppError::PiEntryInvalid);
        },
    };
    set_provider(&mut doc.root, id, entry.root)
}

/// The text of a document.
pub fn models_text(doc: &RtDocument) -> (r: String)
    ensures
        r@ == jsonc_text(doc_view(*doc)),
{
    print_jsonc(doc)
}

/// The text of a backup's `models.json` (`"{}\n"` when it has none) after
/// writing `providers.<id>` from the entry's JSON text; refused when the
/// text is not JSON5 or the entry cannot be written.
pub open spec fn spec_patch_models(source: Seq<char>, id: Seq<char>, entry_json: Seq<char>) -> Result<
    Seq<char>,
    AppError,
> {
    match jsonc_tree(source) {
        None => Err(AppError::PiModelsInvalid),
        Some(d) => match spec_put_entry(d.root, id, entry_json) {
            Ok(v) => Ok(jsonc_text(RtDocView { root: v, context: d.context })),
            Err(k) => Err(k),
        },
    }
}

/// A backup's `models.json` text with `providers.<id>` replaced by the
/// entry (see [`spec_patch_models`]): comments, sibling providers and other
/// keys stay in the tree that is printed back.
pub fn patch_snapshot_models(source: Option<&str>, id: &str, entry_json: &str) -> (r: Result<
    String,
    AppError,
>)
    ensures
        match spec_patch_models(source_or_empty(opt_str_view(source)), id@, entry_json@) {
            Ok(t) => r matches Ok(s) && s@ == t,
            Err(k) => r matches Err(e) && e == k,
        },
{
    let parsed = match source {
        Some(s) => parse_jsonc(s),
        None => parse_jsonc("{}\n"),
    };
    let mut doc = match parsed {
        Some(d) => d,
        None => {
            return Err(AppError::PiModelsInvalid);
        },
    };
    put_entry(&mut doc, id, entry_json)?;
    Ok(print_jsonc(&doc))
}

} // verus!
