//! Round-trip editing of Pi's `models.json` (JSONC): the document is held as
//! its syntax tree with the whitespace and comments around every token, so
//! that an edit keeps sibling entries, comments and formatting. Only the
//! `providers.<id>` entries are ever changed, and a written document never
//! gets a trailing comma (Pi reads it with a strict JSON parser once the
//! comments are stripped).
use vstd::prelude::*;
use crate::error::AppError;
use crate::text::{
    chars_of, contains_char, ends_with, find_char, find_char_in, lemma_find_char, lemma_rfind_char,
    lines, push_char, push_range, push_str, rfind_char, rfind_char_in, str_eq, strip_cr,
    string_from, to_string,
};

verus! {

/// A node of the syntax tree (mirrors the round-trip parser's values).
#[derive(Debug)]
pub enum RtValue {
    Object { pairs: Vec<RtPair>, ws: Option<String> },
    Array { values: Vec<RtArrayValue>, ws: Option<String> },
    Integer(String),
    Float(String),
    Exponent(String),
    Null,
    Infinity,
    NaN,
    Hexadecimal(String),
    Bool(bool),
    DoubleQuoted(String),
    SingleQuoted(String),
    Unary { minus: bool, value: Box<RtValue> },
    Identifier(String),
}

/// The whitespace around a member: `key {before_colon} : {after_colon}
/// value {after_value} [, {after_comma}]`.
#[derive(Debug)]
pub struct PairContext {
    pub before_colon: String,
    pub after_colon: String,
    pub after_value: String,
    /// Present exactly when a comma follows the member.
    pub after_comma: Option<String>,
}

/// A member of an object.
#[derive(Debug)]
pub struct RtPair {
    pub key: RtValue,
    pub value: RtValue,
    pub context: Option<PairContext>,
}

/// The whitespace after an array item, and after its comma when it has one.
#[derive(Debug)]
pub struct ArrayValueContext {
    pub after_value: String,
    pub after_comma: Option<String>,
}

/// An item of an array.
#[derive(Debug)]
pub struct RtArrayValue {
    pub value: RtValue,
    pub context: Option<ArrayValueContext>,
}

// ============================================================================
// Model
// ============================================================================

pub enum RtView {
    Object(Seq<PairView>, Option<Seq<char>>),
    Array(Seq<ItemView>, Option<Seq<char>>),
    Integer(Seq<char>),
    Float(Seq<char>),
    Exponent(Seq<char>),
    Null,
    Infinity,
    NaN,
    Hexadecimal(Seq<char>),
    Bool(bool),
    DoubleQuoted(Seq<char>),
    SingleQuoted(Seq<char>),
    Unary(bool, Box<RtView>),
    Identifier(Seq<char>),
}

pub struct CtxView {
    pub before_colon: Seq<char>,
    pub after_colon: Seq<char>,
    pub after_value: Seq<char>,
    pub after_comma: Option<Seq<char>>,
}

pub struct PairView {
    pub key: RtView,
    pub value: RtView,
    pub ctx: Option<CtxView>,
}

pub struct ItemView {
    pub value: RtView,
    pub ctx: Option<(Seq<char>, Option<Seq<char>>)>,
}

pub open spec fn sview(s: Option<String>) -> Option<Seq<char>> {
    match s {
        Some(x) => Some(x@),
        None => None,
    }
}

pub open spec fn ctx_view(c: Option<PairContext>) -> Option<CtxView> {
    match c {
        Some(c) => Some(
            CtxView {
                before_colon: c.before_colon@,
                after_colon: c.after_colon@,
                after_value: c.after_value@,
                after_comma: sview(c.after_comma),
            },
        ),
        None => None,
    }
}

/// The model of a node.
pub open spec fn rt_view(v: RtValue) -> RtView
    decreases v,
{
    match v {
        RtValue::Object { pairs, ws } => RtView::Object(pairs_view(pairs@), sview(ws)),
        RtValue::Array { values, ws } => RtView::Array(items_view(values@), sview(ws)),
        RtValue::Integer(s) => RtView::Integer(s@),
        RtValue::Float(s) => RtView::Float(s@),
        RtValue::Exponent(s) => RtView::Exponent(s@),
        RtValue::Null => RtView::Null,
        RtValue::Infinity => RtView::Infinity,
        RtValue::NaN => RtView::NaN,
        RtValue::Hexadecimal(s) => RtView::Hexadecimal(s@),
        RtValue::Bool(b) => RtView::Bool(b),
        RtValue::DoubleQuoted(s) => RtView::DoubleQuoted(s@),
        RtValue::SingleQuoted(s) => RtView::SingleQuoted(s@),
        RtValue::Unary { minus, value } => RtView::Unary(minus, Box::new(rt_view(*value))),
        RtValue::Identifier(s) => RtView::Identifier(s@),
    }
}

pub open spec fn pairs_view(s: Seq<RtPair>) -> Seq<PairView>
    decreases s,
{
    if s.len() == 0 {
        seq![]
    } else {
        seq![
            PairView {
                key: rt_view(s[0].key),
                value: rt_view(s[0].value),
                ctx: ctx_view(s[0].context),
            },
        ] + pairs_view(s.subrange(1, s.len() as int))
    }
}

pub open spec fn items_view(s: Seq<RtArrayValue>) -> Seq<ItemView>
    decreases s,
{
    if s.len() == 0 {
        seq![]
    } else {
        seq![
            ItemView {
                value: rt_view(s[0].value),
                ctx: match s[0].context {
                    Some(c) => Some((c.after_value@, sview(c.after_comma))),
                    None => None,
                },
            },
        ] + items_view(s.subrange(1, s.len() as int))
    }
}

pub open spec fn pair_view(p: RtPair) -> PairView {
    PairView { key: rt_view(p.key), value: rt_view(p.value), ctx: ctx_view(p.context) }
}

pub proof fn lemma_pairs_view(s: Seq<RtPair>)
    ensures
        pairs_view(s).len() == s.len(),
        forall|i: int| 0 <= i < s.len() ==> #[trigger] pairs_view(s)[i] == pair_view(s[i]),
    decreases s.len(),
{
    if s.len() > 0 {
        lemma_pairs_view(s.subrange(1, s.len() as int));
        assert forall|i: int| 0 <= i < s.len() implies #[trigger] pairs_view(s)[i] == pair_view(
            s[i],
        ) by {
            if i > 0 {
                assert(s.subrange(1, s.len() as int)[i - 1] == s[i]);
            }
        }
    }
}

/// The name of a member key: an identifier or a quoted string.
pub open spec fn key_name(k: RtView) -> Option<Seq<char>> {
    match k {
        RtView::Identifier(s) => Some(s),
        RtView::DoubleQuoted(s) => Some(s),
        RtView::SingleQuoted(s) => Some(s),
        _ => None,
    }
}

/// Index of the first member named `key`, or -1.
pub open spec fn pair_index(ps: Seq<PairView>, key: Seq<char>) -> int
    decreases ps.len(),
{
    if ps.len() == 0 {
        -1
    } else if pair_index(ps.drop_last(), key) >= 0 {
        pair_index(ps.drop_last(), key)
    } else if key_name(ps.last().key) == Some(key) {
        ps.len() - 1
    } else {
        -1
    }
}

pub proof fn lemma_pair_index(ps: Seq<PairView>, key: Seq<char>)
    ensures
        -1 <= pair_index(ps, key) < ps.len(),
        pair_index(ps, key) >= 0 ==> key_name(ps[pair_index(ps, key)].key) == Some(key),
        forall|i: int|
            0 <= i < ps.len() && (pair_index(ps, key) < 0 || i < pair_index(ps, key)) ==> key_name(
                #[trigger] ps[i].key,
            ) != Some(key),
    decreases ps.len(),
{
    if ps.len() > 0 {
        lemma_pair_index(ps.drop_last(), key);
        assert forall|i: int| 0 <= i < ps.len() - 1 implies #[trigger] ps[i] == ps.drop_last()[i] by {}
    }
}

// ============================================================================
// Whitespace helpers
// ============================================================================

/// What follows the last line break (empty without one).
pub open spec fn spec_trailing_indent(ws: Seq<char>) -> Seq<char> {
    let i = rfind_char(ws, '\n');
    if i >= 0 {
        ws.subrange(i + 1, ws.len() as int)
    } else {
        seq![]
    }
}

/// The indentation of a member that follows a line break.
pub fn extract_trailing_indent(ws: &str) -> (r: String)
    ensures
        r@ == spec_trailing_indent(ws@),
{
    let v = chars_of(ws);
    assert(v@.subrange(0, v@.len() as int) =~= v@);
    match rfind_char_in(&v, 0, v.len(), '\n') {
        Some(i) => string_from(&v, i + 1, v.len()),
        None => String::new(),
    }
}

/// The whitespace before a closing brace derived from the whitespace after
/// an opening one: the same line break, one level less indented.
pub open spec fn spec_closing_from_separator(ws: Seq<char>) -> Seq<char> {
    let i = rfind_char(ws, '\n');
    if i < 0 {
        seq![]
    } else {
        let prefix = ws.subrange(0, i);
        let indent = ws.subrange(i + 1, ws.len() as int);
        let reduced = if indent.len() > 0 && indent.last() == '\t' {
            indent.drop_last()
        } else if ends_with(indent, seq![' ', ' ']) {
            indent.subrange(0, indent.len() - 2)
        } else if indent.len() > 0 && indent.last() == ' ' {
            indent.drop_last()
        } else {
            indent
        };
        prefix + seq!['\n'] + reduced
    }
}

/// The whitespace before the closing brace of a first member.
pub fn derive_closing_ws_from_separator(ws: &str) -> (r: String)
    ensures
        r@ == spec_closing_from_separator(ws@),
{
    let v = chars_of(ws);
    assert(v@.subrange(0, v@.len() as int) =~= v@);
    let i = match rfind_char_in(&v, 0, v.len(), '\n') {
        Some(i) => i,
        None => {
            return String::new();
        },
    };
    let n = v.len();
    let ghost indent = v@.subrange(i + 1, n as int);
    let end = if n > i + 1 && v[n - 1] == '\t' {
        n - 1
    } else if n - i >= 3 && v[n - 1] == ' ' && v[n - 2] == ' ' {
        n - 2
    } else if n > i + 1 && v[n - 1] == ' ' {
        n - 1
    } else {
        n
    };
    proof {
        if indent.len() >= 2 {
            assert(indent.subrange(indent.len() - 2, indent.len() as int) =~= seq![
                v@[n - 2],
                v@[n - 1],
            ]);
        }
        if indent.len() > 0 {
            assert(indent.last() == v@[n - 1]);
        }
    }
    let mut out = string_from(&v, 0, i);
    push_char(&mut out, '\n');
    push_range(&mut out, &v, i + 1, end);
    proof {
        if end == n - 1 {
            assert(v@.subrange(i + 1, end as int) =~= indent.drop_last());
        } else if end == n - 2 {
            assert(v@.subrange(i + 1, end as int) =~= indent.subrange(0, indent.len() - 2));
        }
    }
    out
}

/// The separator after a member's comma: a line break and the indentation
/// of the object's first member when it starts on its own line.
pub open spec fn spec_entry_separator(leading: Seq<char>) -> Seq<char> {
    if leading.len() == 0 {
        seq![]
    } else if contains_char(leading, '\n') {
        seq!['\n'] + spec_trailing_indent(leading)
    } else {
        seq![]
    }
}

/// The separator after a member's comma.
pub fn derive_entry_separator(leading: &str) -> (r: String)
    ensures
        r@ == spec_entry_separator(leading@),
{
    let v = chars_of(leading);
    if v.len() == 0 {
        return String::new();
    }
    assert(v@.subrange(0, v@.len() as int) =~= v@);
    proof {
        lemma_find_char(v@, '\n');
    }
    match find_char_in(&v, 0, v.len(), '\n') {
        Some(_) => {
            let mut out = String::new();
            push_char(&mut out, '\n');
            let t = extract_trailing_indent(leading);
            push_str(&mut out, t.as_str());
            out
        },
        None => String::new(),
    }
}

/// Every line after the first, each after a line break and `indent`.
pub open spec fn indented_rest(ls: Seq<Seq<char>>, indent: Seq<char>) -> Seq<char>
    decreases ls.len(),
{
    if ls.len() == 0 {
        seq![]
    } else {
        seq!['\n'] + indent + ls[0] + indented_rest(ls.subrange(1, ls.len() as int), indent)
    }
}

/// A pretty-printed block re-indented to sit at `indent`: every line after
/// the first gets `indent` in front.
pub open spec fn spec_reindent(source: Seq<char>, indent: Seq<char>) -> Seq<char> {
    if indent.len() == 0 || !contains_char(source, '\n') {
        source
    } else {
        let ls = lines(source);
        if ls.len() == 0 {
            seq![]
        } else {
            ls[0] + indented_rest(ls.subrange(1, ls.len() as int), indent)
        }
    }
}

proof fn lemma_lines_unfold(s: Seq<char>)
    requires
        s.len() > 0,
    ensures
        ({
            let i = find_char(s, '\n');
            &&& -1 <= i < s.len()
            &&& i < 0 ==> lines(s) == seq![s]
            &&& i >= 0 ==> lines(s) == seq![strip_cr(s.subrange(0, i))] + lines(
                s.subrange(i + 1, s.len() as int),
            )
        }),
{
    lemma_find_char(s, '\n');
}

/// Re-indents a pretty-printed block for insertion at `indent`.
pub fn reindent_json_block(source: &str, indent: &str) -> (r: String)
    ensures
        r@ == spec_reindent(source@, indent@),
{
    let v = chars_of(source);
    let n = v.len();
    assert(v@.subrange(0, n as int) =~= v@);
    proof {
        lemma_find_char(v@, '\n');
    }
    if indent.is_empty() {
        return to_string(source);
    }
    let first_nl = match find_char_in(&v, 0, n, '\n') {
        Some(i) => i,
        None => {
            return to_string(source);
        },
    };
    // The first line.
    proof {
        lemma_lines_unfold(v@);
    }
    let mut out = String::new();
    let first_end = if first_nl > 0 && v[first_nl - 1] == '\r' {
        first_nl - 1
    } else {
        first_nl
    };
    proof {
        let l = v@.subrange(0, first_nl as int);
        if first_nl > 0 {
            assert(l.last() == v@[first_nl - 1]);
        }
        if first_end < first_nl {
            assert(v@.subrange(0, first_end as int) =~= l.drop_last());
        }
    }
    push_range(&mut out, &v, 0, first_end);
    let ghost ls = lines(v@);
    let ghost target = spec_reindent(source@, indent@);
    let mut pos = first_nl + 1;
    proof {
        assert(ls == seq![strip_cr(v@.subrange(0, first_nl as int))] + lines(
            v@.subrange(first_nl + 1, n as int),
        ));
        assert(ls.subrange(1, ls.len() as int) =~= lines(v@.subrange(first_nl + 1, n as int)));
        assert(out@ == ls[0]);
    }
    while pos < n
        invariant
            v@ == source@,
            n == v.len(),
            0 < pos <= n,
            out@ + indented_rest(lines(v@.subrange(pos as int, n as int)), indent@) == target,
        decreases n - pos,
    {
        let ghost t = v@.subrange(pos as int, n as int);
        proof {
            lemma_lines_unfold(t);
        }
        let (line_end, next) = match find_char_in(&v, pos, n, '\n') {
            Some(i) => {
                let e = if i > pos && v[i - 1] == '\r' {
                    i - 1
                } else {
                    i
                };
                (e, i + 1)
            },
            None => (n, n),
        };
        proof {
            let i = find_char(t, '\n');
            if i >= 0 {
                let l = t.subrange(0, i);
                assert(l =~= v@.subrange(pos as int, pos + i));
                if i > 0 {
                    assert(l.last() == v@[pos + i - 1]);
                }
                if line_end < pos + i {
                    assert(v@.subrange(pos as int, line_end as int) =~= l.drop_last());
                } else {
                    assert(v@.subrange(pos as int, line_end as int) =~= l);
                }
                assert(t.subrange(i + 1, t.len() as int) =~= v@.subrange(next as int, n as int));
            } else {
                assert(v@.subrange(pos as int, line_end as int) =~= t);
                assert(v@.subrange(next as int, n as int) =~= Seq::<char>::empty());
                assert(lines(Seq::<char>::empty()) =~= Seq::<Seq<char>>::empty());
            }
            let ls2 = lines(t);
            assert(ls2.subrange(1, ls2.len() as int) =~= lines(v@.subrange(next as int, n as int)));
        }
        let ghost before = out@;
        push_char(&mut out, '\n');
        push_str(&mut out, indent);
        push_range(&mut out, &v, pos, line_end);
        proof {
            let ls2 = lines(t);
            assert(out@ + indented_rest(lines(v@.subrange(next as int, n as int)), indent@) =~= before
                + indented_rest(ls2, indent@));
        }
        pos = next;
    }
    proof {
        assert(v@.subrange(pos as int, n as int) =~= Seq::<char>::empty());
        assert(lines(Seq::<char>::empty()) =~= Seq::<Seq<char>>::empty());
        assert(out@ + Seq::<char>::empty() =~= out@);
    }
    out
}


// ============================================================================
// Members
// ============================================================================

/// The context of a member that has none yet: a space after the colon.
pub open spec fn default_ctx() -> CtxView {
    CtxView { before_colon: seq![], after_colon: seq![' '], after_value: seq![], after_comma: None }
}

/// A new member: a double-quoted key (Pi's strict parser takes no bare
/// identifiers), a space after the colon, `closing` after the value, no
/// comma.
pub open spec fn new_pair(key: Seq<char>, value: RtView, closing: Seq<char>) -> PairView {
    PairView {
        key: RtView::DoubleQuoted(key),
        value: value,
        ctx: Some(
            CtxView {
                before_colon: seq![],
                after_colon: seq![' '],
                after_value: closing,
                after_comma: None,
            },
        ),
    }
}

/// The whitespace after `{`: an empty object without any gets `"\n  "`.
pub open spec fn normalized_ws(ps: Seq<PairView>, ws: Option<Seq<char>>) -> Option<Seq<char>> {
    if ps.len() == 0 && (ws is None || ws.unwrap().len() == 0) {
        Some(seq!['\n', ' ', ' '])
    } else {
        ws
    }
}

pub open spec fn leading_of(ws: Option<Seq<char>>) -> Seq<char> {
    match ws {
        Some(w) => w,
        None => seq![],
    }
}

/// An object after upserting member `key`: an existing member gets the new
/// value in place; otherwise the member is appended, taking over the
/// whitespace before the closing brace, and the previous last member gets a
/// comma followed by the object's member separator.
pub open spec fn spec_upsert_pairs(
    ps: Seq<PairView>,
    ws: Option<Seq<char>>,
    key: Seq<char>,
    value: RtView,
) -> (Seq<PairView>, Option<Seq<char>>) {
    let nws = normalized_ws(ps, ws);
    let leading = leading_of(nws);
    let sep = spec_entry_separator(leading);
    let i = pair_index(ps, key);
    if i >= 0 {
        (ps.update(i, PairView { value: value, ..ps[i] }), nws)
    } else if ps.len() > 0 {
        let last = ps.last();
        let c = match last.ctx {
            Some(c) => c,
            None => default_ctx(),
        };
        let closing = match c.after_comma {
            Some(ac) => ac,
            None => c.after_value,
        };
        let c2 = match c.after_comma {
            Some(_) => CtxView { after_comma: Some(sep), ..c },
            None => CtxView { after_value: seq![], after_comma: Some(sep), ..c },
        };
        (
            ps.update(ps.len() - 1, PairView { ctx: Some(c2), ..last }).push(
                new_pair(key, value, closing),
            ),
            nws,
        )
    } else {
        (seq![new_pair(key, value, spec_closing_from_separator(leading))], nws)
    }
}

/// The name of a member key.
pub fn json5_key_name(key: &RtValue) -> (r: Option<&String>)
    ensures
        match r {
            Some(s) => key_name(rt_view(*key)) == Some(s@),
            None => key_name(rt_view(*key)) is None,
        },
{
    match key {
        RtValue::Identifier(s) => Some(s),
        RtValue::DoubleQuoted(s) => Some(s),
        RtValue::SingleQuoted(s) => Some(s),
        _ => None,
    }
}

/// The key written for a member: a double-quoted string.
pub fn make_json5_key(key: &str) -> (r: RtValue)
    ensures
        rt_view(r) == RtView::DoubleQuoted(key@),
{
    RtValue::DoubleQuoted(to_string(key))
}

/// A new member (see [`new_pair`]).
pub fn make_pair(key: &str, value: RtValue, closing_ws: String) -> (r: RtPair)
    ensures
        pair_view(r) == new_pair(key@, rt_view(value), closing_ws@),
{
    let mut colon = String::new();
    push_char(&mut colon, ' ');
    assert(colon@ =~= seq![' ']);
    RtPair {
        key: make_json5_key(key),
        value,
        context: Some(
            PairContext {
                before_colon: String::new(),
                after_colon: colon,
                after_value: closing_ws,
                after_comma: None,
            },
        ),
    }
}

fn default_context() -> (r: PairContext)
    ensures
        ctx_view(Some(r)) == Some(default_ctx()),
{
    let mut colon = String::new();
    push_char(&mut colon, ' ');
    assert(colon@ =~= seq![' ']);
    PairContext {
        before_colon: String::new(),
        after_colon: colon,
        after_value: String::new(),
        after_comma: None,
    }
}

fn find_pair(pairs: &Vec<RtPair>, key: &str) -> (r: Option<usize>)
    ensures
        match r {
            Some(i) => i < pairs.len() && pair_index(pairs_view(pairs@), key@) == i as int,
            None => pair_index(pairs_view(pairs@), key@) == -1,
        },
{
    let ghost pv = pairs_view(pairs@);
    proof {
        lemma_pairs_view(pairs@);
        lemma_pair_index(pv, key@);
    }
    let mut i: usize = 0;
    while i < pairs.len()
        invariant
            0 <= i <= pairs.len(),
            pv == pairs_view(pairs@),
            pv.len() == pairs.len(),
            forall|j: int| 0 <= j < pairs.len() ==> #[trigger] pv[j] == pair_view(pairs@[j]),
            forall|j: int| 0 <= j < i ==> key_name(#[trigger] pv[j].key) != Some(key@),
            -1 <= pair_index(pv, key@) < pv.len(),
            pair_index(pv, key@) >= 0 ==> key_name(pv[pair_index(pv, key@)].key) == Some(key@),
            forall|j: int|
                0 <= j < pv.len() && (pair_index(pv, key@) < 0 || j < pair_index(pv, key@))
                    ==> key_name(#[trigger] pv[j].key) != Some(key@),
        decreases pairs.len() - i,
    {
        let hit = match json5_key_name(&pairs[i].key) {
            Some(n) => str_eq(n.as_str(), key),
            None => false,
        };
        assert(pv[i as int] == pair_view(pairs@[i as int]));
        assert(pv[i as int].key == rt_view(pairs@[i as int].key));
        if hit {
            assert(key_name(pv[i as int].key) == Some(key@));
            proof {
                if pair_index(pv, key@) >= 0 && pair_index(pv, key@) < i as int {
                    assert(key_name(pv[pair_index(pv, key@)].key) == Some(key@));
                }
            }
            return Some(i);
        }
        i = i + 1;
    }
    None
}

fn normalize_ws(pairs: &Vec<RtPair>, ws: Option<String>) -> (r: Option<String>)
    ensures
        sview(r) == normalized_ws(pairs_view(pairs@), sview(ws)),
{
    proof {
        lemma_pairs_view(pairs@);
    }
    let blank = match &ws {
        Some(w) => w.as_str().is_empty(),
        None => true,
    };
    if pairs.len() == 0 && blank {
        let mut s = String::new();
        push_char(&mut s, '\n');
        push_char(&mut s, ' ');
        push_char(&mut s, ' ');
        assert(s@ =~= seq!['\n', ' ', ' ']);
        Some(s)
    } else {
        ws
    }
}

fn leading_string(ws: &Option<String>) -> (r: String)
    ensures
        r@ == leading_of(sview(*ws)),
{
    match ws {
        Some(w) => w.clone(),
        None => String::new(),
    }
}

/// Upserts member `key` of an object (see [`spec_upsert_pairs`]); refused,
/// with nothing changed, when the node is not an object.
pub fn upsert_object_pair(obj: &mut RtValue, key: &str, value: RtValue) -> (r: Result<(), AppError>)
    ensures
        match rt_view(*old(obj)) {
            RtView::Object(ps, ws) => r is Ok && rt_view(*final(obj)) == RtView::Object(
                spec_upsert_pairs(ps, ws, key@, rt_view(value)).0,
                spec_upsert_pairs(ps, ws, key@, rt_view(value)).1,
            ),
            _ => r matches Err(e) && e is PiModelsNotObject && rt_view(*final(obj)) == rt_view(
                *old(obj),
            ),
        },
{
    let ghost vv = rt_view(value);
    let mut tmp = RtValue::Null;
    std::mem::swap(obj, &mut tmp);
    match tmp {
        RtValue::Object { mut pairs, ws } => {
            let ghost ps = pairs_view(pairs@);
            let ghost wsv = sview(ws);
            let ghost p0 = pairs@;
            proof {
                lemma_pairs_view(pairs@);
            }
            let ws2 = normalize_ws(&pairs, ws);
            let leading = leading_string(&ws2);
            let sep = derive_entry_separator(leading.as_str());
            match find_pair(&pairs, key) {
                Some(i) => {
                    let mut p = pairs.remove(i);
                    p.value = value;
                    pairs.insert(i, p);
                    proof {
                        lemma_pairs_view(pairs@);
                        assert(pairs_view(pairs@) =~= ps.update(i as int, PairView { value: vv, ..ps[i as int] }));
                    }
                },
                None => {
                    if pairs.len() > 0 {
                        let mut last = pairs.pop().unwrap();
                        let ghost lv = pair_view(last);
                        assert(lv == ps.last());
                        let c = match last.context {
                            Some(c) => c,
                            None => default_context(),
                        };
                        let ghost cv = ctx_view(Some(c)).unwrap();
                        let (closing, c2) = match c.after_comma {
                            Some(ac) => (
                                ac,
                                PairContext {
                                    before_colon: c.before_colon,
                                    after_colon: c.after_colon,
                                    after_value: c.after_value,
                                    after_comma: Some(sep),
                                },
                            ),
                            None => (
                                c.after_value,
                                PairContext {
                                    before_colon: c.before_colon,
                                    after_colon: c.after_colon,
                                    after_value: String::new(),
                                    after_comma: Some(sep),
                                },
                            ),
                        };
                        last.context = Some(c2);
                        let ghost lv2 = pair_view(last);
                        pairs.push(last);
                        let np = make_pair(key, value, closing);
                        pairs.push(np);
                        proof {
                            lemma_pairs_view(pairs@);
                            let expect = ps.update(ps.len() - 1, lv2).push(pair_view(np));
                            assert(pairs_view(pairs@) =~= expect);
                        }
                    } else {
                        let closing = derive_closing_ws_from_separator(leading.as_str());
                        let np = make_pair(key, value, closing);
                        pairs.push(np);
                        proof {
                            lemma_pairs_view(pairs@);
                            assert(pairs_view(pairs@) =~= seq![pair_view(np)]);
                        }
                    }
                },
            }
            *obj = RtValue::Object { pairs, ws: ws2 };
            Ok(())
        },
        other => {
            *obj = other;
            Err(AppError::PiModelsNotObject)
        },
    }
}

/// The indentation a value needs to be inserted as a member of `obj` (one
/// level inside its first member's line), computed as an upsert would.
pub open spec fn spec_child_indent(obj: RtView) -> Seq<char> {
    match obj {
        RtView::Object(ps, ws) => spec_trailing_indent(leading_of(normalized_ws(ps, ws))),
        _ => seq![],
    }
}

/// The indentation for a value upserted into `obj`.
pub fn object_child_indent(obj: &RtValue) -> (r: String)
    ensures
        r@ == spec_child_indent(rt_view(*obj)),
{
    match obj {
        RtValue::Object { pairs, ws } => {
            let w = match ws {
                Some(w) => Some(w.clone()),
                None => None,
            };
            let ws2 = normalize_ws(pairs, w);
            let leading = leading_string(&ws2);
            extract_trailing_indent(leading.as_str())
        },
        _ => String::new(),
    }
}

/// An object after removing its first member named `key`; when that was the
/// last member, the new last one loses its comma and, if it had no
/// whitespace before the closing brace, takes the removed one's.
pub open spec fn spec_remove_pairs(ps: Seq<PairView>, key: Seq<char>) -> Seq<PairView> {
    let i = pair_index(ps, key);
    if i < 0 {
        ps
    } else {
        let removed = ps[i];
        let rest = ps.remove(i);
        if i == ps.len() - 1 && rest.len() > 0 {
            let nl = rest.last();
            let c = match nl.ctx {
                Some(c) => c,
                None => default_ctx(),
            };
            let c2 = CtxView { after_comma: None, ..c };
            let c3 = if c2.after_value.len() == 0 {
                match removed.ctx {
                    Some(rc) => CtxView { after_value: rc.after_value, ..c2 },
                    None => c2,
                }
            } else {
                c2
            };
            rest.update(rest.len() - 1, PairView { ctx: Some(c3), ..nl })
        } else {
            rest
        }
    }
}

/// Removes member `key` of an object (see [`spec_remove_pairs`]); anything
/// else is left as it is.
pub fn remove_object_pair(obj: &mut RtValue, key: &str)
    ensures
        rt_view(*final(obj)) == match rt_view(*old(obj)) {
            RtView::Object(ps, ws) => RtView::Object(spec_remove_pairs(ps, key@), ws),
            other => other,
        },
{
    let mut tmp = RtValue::Null;
    std::mem::swap(obj, &mut tmp);
    match tmp {
        RtValue::Object { mut pairs, ws } => {
            let ghost ps = pairs_view(pairs@);
            proof {
                lemma_pairs_view(pairs@);
            }
            match find_pair(&pairs, key) {
                Some(i) => {
                    let was_last = i == pairs.len() - 1;
                    let removed = pairs.remove(i);
                    let ghost rest = pairs@;
                    proof {
                        lemma_pairs_view(pairs@);
                        assert(pairs_view(pairs@) =~= ps.remove(i as int));
                    }
                    if was_last && pairs.len() > 0 {
                        let mut nl = pairs.pop().unwrap();
                        let c = match nl.context {
                            Some(c) => c,
                            None => default_context(),
                        };
                        let after_value = if c.after_value.as_str().is_empty() {
                            match removed.context {
                                Some(rc) => rc.after_value,
                                None => c.after_value,
                            }
                        } else {
                            c.after_value
                        };
                        nl.context = Some(
                            PairContext {
                                before_colon: c.before_colon,
                                after_colon: c.after_colon,
                                after_value,
                                after_comma: None,
                            },
                        );
                        let ghost nlv = pair_view(nl);
                        pairs.push(nl);
                        proof {
                            lemma_pairs_view(pairs@);
                            lemma_pairs_view(rest);
                            assert(pairs_view(pairs@) =~= pairs_view(rest).update(
                                pairs_view(rest).len() - 1,
                                nlv,
                            ));
                        }
                    }
                },
                None => {},
            }
            *obj = RtValue::Object { pairs, ws };
        },
        other => {
            *obj = other;
        },
    }
}


// ============================================================================
// The `providers` object of `models.json`
// ============================================================================

/// What the round-trip parser makes of `{}`.
pub open spec fn empty_object() -> RtView {
    RtView::Object(seq![], Some(seq![]))
}

proof fn lemma_upsert_new_key(ps: Seq<PairView>, ws: Option<Seq<char>>, key: Seq<char>, value: RtView)
    requires
        pair_index(ps, key) < 0,
    ensures
        pair_index(spec_upsert_pairs(ps, ws, key, value).0, key) == ps.len(),
        spec_upsert_pairs(ps, ws, key, value).0[ps.len() as int].value == value,
        spec_upsert_pairs(ps, ws, key, value).0.len() == ps.len() + 1,
{
    let r = spec_upsert_pairs(ps, ws, key, value).0;
    lemma_pair_index(ps, key);
    lemma_pair_index(r, key);
    assert(r.drop_last() =~= if ps.len() > 0 {
        ps.update(ps.len() - 1, r[ps.len() - 1])
    } else {
        ps
    });
    assert forall|j: int| 0 <= j < r.len() - 1 implies key_name(#[trigger] r[j].key) != Some(key) by {
        assert(r[j].key == ps[j].key);
    }
    lemma_pair_index(r.drop_last(), key);
    if pair_index(r.drop_last(), key) >= 0 {
        let k = pair_index(r.drop_last(), key);
        assert(r.drop_last()[k] == r[k]);
    }
}

/// The root after making sure `providers` exists (added as `{}` when
/// missing); a still-empty `providers` gets one indentation level more than
/// the root's first member when the root's members are on their own lines.
/// Nothing when the root is not an object.
pub open spec fn spec_prepare(root: RtView) -> Option<RtView> {
    match root {
        RtView::Object(ps, ws) => {
            let ps1 = if pair_index(ps, "providers"@) >= 0 {
                ps
            } else {
                spec_upsert_pairs(ps, ws, "providers"@, empty_object()).0
            };
            let ws1 = if pair_index(ps, "providers"@) >= 0 {
                ws
            } else {
                spec_upsert_pairs(ps, ws, "providers"@, empty_object()).1
            };
            let root_ws = leading_of(ws1);
            let i = pair_index(ps1, "providers"@);
            let p = ps1[i];
            let fresh = match p.value {
                RtView::Object(inner, _) => inner.len() == 0,
                _ => false,
            };
            let ps2 = if contains_char(root_ws, '\n') && fresh {
                ps1.update(
                    i,
                    PairView { value: RtView::Object(seq![], Some(root_ws + seq![' ', ' '])), ..p },
                )
            } else {
                ps1
            };
            Some(RtView::Object(ps2, ws1))
        },
        _ => None,
    }
}

/// The index of `providers` in a prepared root.
pub open spec fn providers_index(root: RtView) -> int {
    match root {
        RtView::Object(ps, _) => pair_index(ps, "providers"@),
        _ => -1,
    }
}

proof fn lemma_prepare(root: RtView)
    requires
        root is Object,
    ensures
        spec_prepare(root) matches Some(RtView::Object(ps2, _)) && 0 <= providers_index(
            spec_prepare(root).unwrap(),
        ) < ps2.len(),
{
    match root {
        RtView::Object(ps, ws) => {
            if pair_index(ps, "providers"@) < 0 {
                lemma_upsert_new_key(ps, ws, "providers"@, empty_object());
            }
            lemma_pair_index(ps, "providers"@);
            let ps1 = if pair_index(ps, "providers"@) >= 0 {
                ps
            } else {
                spec_upsert_pairs(ps, ws, "providers"@, empty_object()).0
            };
            lemma_pair_index(ps1, "providers"@);
            let i = pair_index(ps1, "providers"@);
            let p = ps1[i];
            let ws1 = if pair_index(ps, "providers"@) >= 0 {
                ws
            } else {
                spec_upsert_pairs(ps, ws, "providers"@, empty_object()).1
            };
            let root_ws = leading_of(ws1);
            let fresh = match p.value {
                RtView::Object(inner, _) => inner.len() == 0,
                _ => false,
            };
            if contains_char(root_ws, '\n') && fresh {
                let ps2 = ps1.update(
                    i,
                    PairView { value: RtView::Object(seq![], Some(root_ws + seq![' ', ' '])), ..p },
                );
                lemma_pair_index(ps2, "providers"@);
                assert forall|j: int| 0 <= j < ps2.len() implies #[trigger] ps2[j].key == ps1[j].key by {}
                assert(ps2.len() == ps1.len());
                if pair_index(ps2, "providers"@) != i {
                    if pair_index(ps2, "providers"@) >= 0 && pair_index(ps2, "providers"@) < i {
                        assert(key_name(ps1[pair_index(ps2, "providers"@)].key) == Some("providers"@));
                    } else {
                        assert(key_name(ps2[i].key) == Some("providers"@));
                    }
                }
            }
        },
        _ => {},
    }
}

fn empty_object_value() -> (r: RtValue)
    ensures
        rt_view(r) == empty_object(),
{
    let pairs: Vec<RtPair> = Vec::new();
    let r = RtValue::Object { pairs, ws: Some(String::new()) };
    proof {
        assert(pairs_view(pairs@) =~= Seq::<PairView>::empty());
    }
    r
}

/// Makes sure `providers` exists in the root (see [`spec_prepare`]);
/// refused when the root is not an object.
pub fn prepare_providers(root: &mut RtValue) -> (r: Result<(), AppError>)
    ensures
        match spec_prepare(rt_view(*old(root))) {
            Some(v) => r is Ok && rt_view(*final(root)) == v,
            None => r matches Err(e) && e is PiModelsNotObject && rt_view(*final(root)) == rt_view(
                *old(root),
            ),
        },
{
    let present = match &*root {
        RtValue::Object { pairs, .. } => find_pair(pairs, "providers").is_some(),
        _ => {
            return Err(AppError::PiModelsNotObject);
        },
    };
    if !present {
        upsert_object_pair(root, "providers", empty_object_value())?;
    }
    let mut tmp = RtValue::Null;
    std::mem::swap(root, &mut tmp);
    match tmp {
        RtValue::Object { mut pairs, ws } => {
            let ghost ps1 = pairs_view(pairs@);
            let root_ws = leading_string(&ws);
            let nl = {
                let v = chars_of(root_ws.as_str());
                assert(v@.subrange(0, v@.len() as int) =~= v@);
                proof {
                    lemma_find_char(v@, '\n');
                }
                find_char_in(&v, 0, v.len(), '\n').is_some()
            };
            match find_pair(&pairs, "providers") {
                Some(i) => {
                    let fresh = match &pairs[i].value {
                        RtValue::Object { pairs: inner, .. } => inner.len() == 0,
                        _ => false,
                    };
                    proof {
                        lemma_pairs_view(pairs@);
                        assert(ps1[i as int] == pair_view(pairs@[i as int]));
                        match pairs@[i as int].value {
                            RtValue::Object { pairs: inner, .. } => {
                                assert(pairs_view(inner@).len() == 0 <==> inner@.len() == 0) by {
                                    lemma_pairs_view(inner@);
                                }
                            },
                            _ => {},
                        }
                    }
                    if nl && fresh {
                        let mut p = pairs.remove(i);
                        let mut w = root_ws.clone();
                        push_char(&mut w, ' ');
                        push_char(&mut w, ' ');
                        let inner: Vec<RtPair> = Vec::new();
                        proof {
                            assert(pairs_view(inner@) =~= Seq::<PairView>::empty());
                        }
                        p.value = RtValue::Object { pairs: inner, ws: Some(w) };
                        pairs.insert(i, p);
                        proof {
                            lemma_pairs_view(pairs@);
                            assert(w@ =~= leading_of(sview(ws)) + seq![' ', ' ']);
                            assert(pairs_view(pairs@) =~= ps1.update(
                                i as int,
                                PairView {
                                    value: RtView::Object(seq![], Some(leading_of(sview(ws)) + seq![' ', ' '])),
                                    ..ps1[i as int]
                                },
                            ));
                        }
                    }
                },
                None => {},
            }
            *root = RtValue::Object { pairs, ws };
            proof {
                lemma_prepare(rt_view(*old(root)));
            }
            Ok(())
        },
        other => {
            *root = other;
            Err(AppError::PiModelsNotObject)
        },
    }
}


/// The root after upserting `providers.<id>`: the prepared root with the
/// provider upserted into `providers`; nothing when the root or
/// `providers` is not an object.
pub open spec fn spec_set_provider(root: RtView, id: Seq<char>, value: RtView) -> Option<RtView> {
    match spec_prepare(root) {
        Some(RtView::Object(ps, ws)) => {
            let i = pair_index(ps, "providers"@);
            match ps[i].value {
                RtView::Object(pp, pws) => Some(
                    RtView::Object(
                        ps.update(
                            i,
                            PairView {
                                value: RtView::Object(
                                    spec_upsert_pairs(pp, pws, id, value).0,
                                    spec_upsert_pairs(pp, pws, id, value).1,
                                ),
                                ..ps[i]
                            },
                        ),
                        ws,
                    ),
                ),
                _ => None,
            }
        },
        _ => None,
    }
}

/// The indentation for a provider value inserted into the root's
/// `providers` (as [`set_provider`] inserts it once the root is prepared);
/// empty when the root has no `providers`.
pub open spec fn spec_providers_child_indent(root: RtView) -> Seq<char> {
    match root {
        RtView::Object(ps, _) => if pair_index(ps, "providers"@) >= 0 {
            spec_child_indent(ps[pair_index(ps, "providers"@)].value)
        } else {
            seq![]
        },
        _ => seq![],
    }
}

/// The indentation for a provider value (see [`spec_providers_child_indent`]).
pub fn providers_child_indent(root: &RtValue) -> (r: String)
    ensures
        r@ == spec_providers_child_indent(rt_view(*root)),
{
    match root {
        RtValue::Object { pairs, .. } => {
            proof {
                lemma_pairs_view(pairs@);
                lemma_pair_index(pairs_view(pairs@), "providers"@);
            }
            match find_pair(pairs, "providers") {
                Some(i) => object_child_indent(&pairs[i].value),
                None => String::new(),
            }
        },
        _ => String::new(),
    }
}

/// Upserts `providers.<id>` of `models.json` (see [`spec_set_provider`]);
/// refused, with the root unchanged, when the root or `providers` is not an
/// object.
pub fn set_provider(root: &mut RtValue, id: &str, value: RtValue) -> (r: Result<(), AppError>)
    ensures
        match spec_set_provider(rt_view(*old(root)), id@, rt_view(value)) {
            Some(v) => r is Ok && rt_view(*final(root)) == v,
            None => r matches Err(e) && e is PiModelsNotObject,
        },
{
    let ghost vv = rt_view(value);
    prepare_providers(root)?;
    let mut tmp = RtValue::Null;
    std::mem::swap(root, &mut tmp);
    match tmp {
        RtValue::Object { mut pairs, ws } => {
            let ghost ps = pairs_view(pairs@);
            proof {
                lemma_prepare(rt_view(*old(root)));
                lemma_pairs_view(pairs@);
            }
            let i = match find_pair(&pairs, "providers") {
                Some(i) => i,
                None => {
                    *root = RtValue::Object { pairs, ws };
                    return Err(AppError::PiModelsNotObject);
                },
            };
            let mut p = pairs.remove(i);
            assert(pair_view(p) == ps[i as int]);
            let res = upsert_object_pair(&mut p.value, id, value);
            pairs.insert(i, p);
            proof {
                lemma_pairs_view(pairs@);
            }
            match res {
                Ok(()) => {
                    proof {
                        assert(pairs_view(pairs@) =~= ps.update(i as int, pair_view(p)));
                    }
                    *root = RtValue::Object { pairs, ws };
                    Ok(())
                },
                Err(e) => {
                    *root = RtValue::Object { pairs, ws };
                    Err(e)
                },
            }
        },
        other => {
            *root = other;
            Err(AppError::PiModelsNotObject)
        },
    }
}

/// The root after removing `providers.<id>` (no change without it).
pub open spec fn spec_remove_provider(root: RtView, id: Seq<char>) -> RtView {
    match root {
        RtView::Object(ps, ws) => {
            let i = pair_index(ps, "providers"@);
            if i >= 0 {
                RtView::Object(
                    ps.update(
                        i,
                        PairView {
                            value: match ps[i].value {
                                RtView::Object(pp, pws) => RtView::Object(spec_remove_pairs(pp, id), pws),
                                other => other,
                            },
                            ..ps[i]
                        },
                    ),
                    ws,
                )
            } else {
                root
            }
        },
        _ => root,
    }
}

/// Removes `providers.<id>` of `models.json`, if present.
pub fn remove_provider(root: &mut RtValue, id: &str)
    ensures
        rt_view(*final(root)) == spec_remove_provider(rt_view(*old(root)), id@),
{
    let mut tmp = RtValue::Null;
    std::mem::swap(root, &mut tmp);
    match tmp {
        RtValue::Object { mut pairs, ws } => {
            let ghost ps = pairs_view(pairs@);
            proof {
                lemma_pairs_view(pairs@);
                lemma_pair_index(ps, "providers"@);
            }
            match find_pair(&pairs, "providers") {
                Some(i) => {
                    let mut p = pairs.remove(i);
                    assert(pair_view(p) == ps[i as int]);
                    remove_object_pair(&mut p.value, id);
                    pairs.insert(i, p);
                    proof {
                        lemma_pairs_view(pairs@);
                        assert(pairs_view(pairs@) =~= ps.update(i as int, pair_view(p)));
                    }
                },
                None => {},
            }
            *root = RtValue::Object { pairs, ws };
        },
        other => {
            *root = other;
        },
    }
}

} // verus!
