//! The parser for dynein: it turns update actions and sort key conditions into
//! DynamoDB expressions, with placeholders for attribute names and values.
//!
//! A parser keeps the context that DynamoDB calls `ExpressionAttributeNames` and
//! `ExpressionAttributeValues`; it can be shared by several actions. The `i`-th name
//! it registers is referred to as `#DYNEIN_ATTRNAME{i}`, the `i`-th value as
//! `:DYNEIN_ATTRVAL{i}`; a name is registered once and its reference reused.
use vstd::prelude::*;
use crate::ast::{
    AtomicRemove, AtomicSet, Function, FunctionSpec, ListAppendParameter, ListParamSpec, Operand,
    OperandSpec, Path, PathElement, PathElementSpec, SortKeyCondition, SortKeyConditionSpec,
    Value, ValueSpec,
};
use crate::condition::{sort_key_number_x, sort_key_str_x, sort_key_x};
use crate::display::{condition_text, condition_writable};
use crate::error::{
    result_view, GrammarRule, InvalidTypesError, InvalidTypesWithSuggestError, ParseError,
    ParseErrorSpec, ParsingErrorWithSuggestError, SyntaxError,
};
use crate::grammar::{
    at, key_index, lemma_str_lit_advances, lemma_ws_end, list_elems, lit, map_elems, map_put, push_res, put_res,
    ws_end, Res,
};
use crate::rules::path;
use crate::lexer::{at_x, skip_ws};
use crate::reader::{lit_x, map_elems_x, map_put_x};
use crate::rules::{remove_action, set_action, sort_key, sort_key_number, sort_key_str};
use crate::syntax::{path_x, remove_action_x, removes_view, set_action_x, sets_view};
use crate::text::{chars_of, decimal, lemma_decimal_injective, push_char, push_chars, push_str, usize_to_decimal};
use crate::value::pairs_view;
use crate::value::{
    attr_view, attrs_view, copy_strings, copy_value, copy_values, strings_view, AttrVal,
    AttrValSpec, AttributeType,
};

verus! {

/// The text of the reference to the `i`-th attribute name.
pub open spec fn name_ref_text(i: int) -> Seq<char> {
    "#DYNEIN_ATTRNAME"@ + decimal(i as nat)
}

/// The text of the reference to the `i`-th attribute value.
pub open spec fn value_ref_text(i: int) -> Seq<char> {
    ":DYNEIN_ATTRVAL"@ + decimal(i as nat)
}

/// The reference to the attribute name with index `idx`.
pub fn attr_name_ref(idx: usize) -> (r: String)
    ensures
        r@ == name_ref_text(idx as int),
{
    let mut r = String::from_str("#DYNEIN_ATTRNAME");
    push_chars(&mut r, &usize_to_decimal(idx));
    r
}

/// The reference to the attribute value with index `idx`.
pub fn attr_val_ref(idx: usize) -> (r: String)
    ensures
        r@ == value_ref_text(idx as int),
{
    let mut r = String::from_str(":DYNEIN_ATTRVAL");
    push_chars(&mut r, &usize_to_decimal(idx));
    r
}

/// The context of a parser: the attribute names and values registered so far, each
/// referred to by its index.
pub struct ParserState {
    pub names: Seq<Seq<char>>,
    pub values: Seq<AttrValSpec>,
}

/// Whether no name is registered twice.
pub open spec fn names_distinct(names: Seq<Seq<char>>) -> bool {
    forall|i: int, j: int| 0 <= i < j < names.len() ==> names[i] != names[j]
}

/// Whether a context may grow into another: what was registered keeps its index.
pub open spec fn extends(a: ParserState, b: ParserState) -> bool {
    &&& a.names.len() <= b.names.len()
    &&& b.names.subrange(0, a.names.len() as int) == a.names
    &&& a.values.len() <= b.values.len()
    &&& b.values.subrange(0, a.values.len() as int) == a.values
}

/// The index of the first name from `i` on equal to `n`, or -1.
pub open spec fn name_index(names: Seq<Seq<char>>, n: Seq<char>, i: int) -> int
    decreases names.len() - i,
{
    if i < 0 || i >= names.len() {
        -1
    } else if names[i] == n {
        i
    } else {
        name_index(names, n, i + 1)
    }
}

/// The reference to the name `n`, registering it when it is new.
pub open spec fn use_name(st: ParserState, n: Seq<char>) -> (ParserState, Seq<char>) {
    let k = name_index(st.names, n, 0);
    if k >= 0 {
        (st, name_ref_text(k))
    } else {
        (ParserState { names: st.names.push(n), values: st.values }, name_ref_text(st.names.len() as int))
    }
}

/// The reference to the value `v`, which is registered anew.
pub open spec fn use_value(st: ParserState, v: AttrValSpec) -> (ParserState, Seq<char>) {
    (ParserState { names: st.names, values: st.values.push(v) }, value_ref_text(st.values.len() as int))
}

/// The expression of the path elements from `i` on, after `acc`; `first` tells whether
/// no attribute name has been written yet.
pub open spec fn path_from(
    st: ParserState,
    p: Seq<PathElementSpec>,
    i: int,
    first: bool,
    acc: Seq<char>,
) -> (ParserState, Seq<char>)
    decreases p.len() - i,
{
    if i < 0 || i >= p.len() {
        (st, acc)
    } else {
        match p[i] {
            PathElementSpec::Attribute(n) => {
                let (st2, r) = use_name(st, n);
                path_from(
                    st2,
                    p,
                    i + 1,
                    false,
                    if first {
                        acc + r
                    } else {
                        acc + seq!['.'] + r
                    },
                )
            },
            PathElementSpec::Index(x) => path_from(
                st,
                p,
                i + 1,
                first,
                acc + seq!['['] + x + seq![']'],
            ),
        }
    }
}

/// The expression of a path: its names by reference, `.` between names, `[i]` for indexes.
pub open spec fn path_expr(st: ParserState, p: Seq<PathElementSpec>) -> (ParserState, Seq<char>) {
    path_from(st, p, 0, true, Seq::empty())
}

/// The expression of an argument of `list_append`.
pub open spec fn list_param_expr(st: ParserState, p: ListParamSpec) -> (ParserState, Seq<char>) {
    match p {
        ListParamSpec::Path(x) => path_expr(st, x),
        ListParamSpec::List(l) => use_value(st, l),
    }
}

/// The expression of a value.
pub open spec fn value_expr(st: ParserState, v: ValueSpec) -> (ParserState, Seq<char>)
    decreases v, 2int,
{
    match v {
        ValueSpec::Plus(a, b) => {
            let (s1, ta) = operand_expr(st, a);
            let (s2, tb) = operand_expr(s1, b);
            (s2, ta + seq!['+'] + tb)
        },
        ValueSpec::Minus(a, b) => {
            let (s1, ta) = operand_expr(st, a);
            let (s2, tb) = operand_expr(s1, b);
            (s2, ta + seq!['-'] + tb)
        },
        ValueSpec::Operand(a) => operand_expr(st, a),
    }
}

/// The expression of an operand.
pub open spec fn operand_expr(st: ParserState, o: OperandSpec) -> (ParserState, Seq<char>)
    decreases o, 1int,
{
    match o {
        OperandSpec::Function(f) => function_expr(st, f),
        OperandSpec::Literal(l) => use_value(st, l),
        OperandSpec::Path(p) => path_expr(st, p),
    }
}

/// The expression of a function call.
pub open spec fn function_expr(st: ParserState, f: FunctionSpec) -> (ParserState, Seq<char>)
    decreases f, 0int,
{
    match f {
        FunctionSpec::ListAppend(a, b) => {
            let (s1, ta) = list_param_expr(st, a);
            let (s2, tb) = list_param_expr(s1, b);
            (s2, "list_append("@ + ta + seq![','] + tb + seq![')'])
        },
        FunctionSpec::IfNotExists(p, v) => {
            let (s1, tp) = path_expr(st, p);
            let (s2, tv) = value_expr(s1, *v);
            (s2, "if_not_exists("@ + tp + seq![','] + tv + seq![')'])
        },
    }
}

proof fn lemma_name_index(names: Seq<Seq<char>>, n: Seq<char>, i: int)
    requires
        0 <= i <= names.len(),
    ensures
        name_index(names, n, i) == -1 ==> forall|j: int| i <= j < names.len() ==> names[j] != n,
        name_index(names, n, i) != -1 ==> i <= name_index(names, n, i) < names.len() && names[name_index(
            names,
            n,
            i,
        )] == n,
    decreases names.len() - i,
{
    if i < names.len() && names[i] != n {
        lemma_name_index(names, n, i + 1);
    }
}

/// What holds of every context a parser reaches.
pub open spec fn state_ok(st: ParserState) -> bool {
    names_distinct(st.names)
}

proof fn lemma_use_name(st: ParserState, n: Seq<char>)
    requires
        state_ok(st),
    ensures
        state_ok(use_name(st, n).0),
        extends(st, use_name(st, n).0),
        use_name(st, n).0.names.contains(n),
{
    lemma_name_index(st.names, n, 0);
    let k = name_index(st.names, n, 0);
    if k < 0 {
        assert(use_name(st, n).0.names.subrange(0, st.names.len() as int) =~= st.names);
        assert(use_name(st, n).0.names[st.names.len() as int] == n);
    } else {
        assert(st.names.subrange(0, st.names.len() as int) =~= st.names);
        assert(st.names[k] == n);
    }
    assert(st.values.subrange(0, st.values.len() as int) =~= st.values);
}

proof fn lemma_extends_trans(a: ParserState, b: ParserState, c: ParserState)
    requires
        extends(a, b),
        extends(b, c),
    ensures
        extends(a, c),
{
    assert(c.names.subrange(0, a.names.len() as int) =~= b.names.subrange(0, a.names.len() as int));
    assert(c.values.subrange(0, a.values.len() as int) =~= b.values.subrange(
        0,
        a.values.len() as int,
    ));
}

proof fn lemma_extends_refl(a: ParserState)
    ensures
        extends(a, a),
{
    assert(a.names.subrange(0, a.names.len() as int) =~= a.names);
    assert(a.values.subrange(0, a.values.len() as int) =~= a.values);
}

proof fn lemma_use_value(st: ParserState, v: AttrValSpec)
    ensures
        use_value(st, v).0.names == st.names,
        extends(st, use_value(st, v).0),
        use_value(st, v).0.values.last() == v,
{
    assert(st.names.subrange(0, st.names.len() as int) =~= st.names);
    assert(use_value(st, v).0.values.subrange(0, st.values.len() as int) =~= st.values);
}

/// The expression of the `path = value` actions from `i` on, after `acc`.
pub open spec fn sets_from(
    st: ParserState,
    items: Seq<(Seq<PathElementSpec>, ValueSpec)>,
    i: int,
    acc: Seq<char>,
) -> (ParserState, Seq<char>)
    decreases items.len() - i,
{
    if i < 0 || i >= items.len() {
        (st, acc)
    } else {
        let (s1, tp) = path_expr(st, items[i].0);
        let (s2, tv) = value_expr(s1, items[i].1);
        let sep = if acc.len() > 0 {
            acc + seq![',']
        } else {
            acc
        };
        sets_from(s2, items, i + 1, sep + tp + seq!['='] + tv)
    }
}

/// The expression of the paths from `i` on, after `acc`.
pub open spec fn removes_from(
    st: ParserState,
    items: Seq<Seq<PathElementSpec>>,
    i: int,
    acc: Seq<char>,
) -> (ParserState, Seq<char>)
    decreases items.len() - i,
{
    if i < 0 || i >= items.len() {
        (st, acc)
    } else {
        let (s1, tp) = path_expr(st, items[i]);
        let sep = if acc.len() > 0 {
            acc + seq![',']
        } else {
            acc
        };
        removes_from(s1, items, i + 1, sep + tp)
    }
}

/// What parsing a set action gives: the new context and the expression, or the error.
pub open spec fn set_action_outcome(st: ParserState, exp: Seq<char>) -> Result<
    (ParserState, Seq<char>),
    ParseErrorSpec,
> {
    match set_action(exp) {
        None => Err(ParseErrorSpec::Syntax(GrammarRule::SetAction, exp)),
        Some(Err(e)) => Err(e),
        Some(Ok(items)) => Ok(sets_from(st, items, 0, Seq::empty())),
    }
}

/// What parsing a remove action gives: the new context and the expression, or the error.
pub open spec fn remove_action_outcome(st: ParserState, exp: Seq<char>) -> Result<
    (ParserState, Seq<char>),
    ParseErrorSpec,
> {
    match remove_action(exp) {
        None => Err(ParseErrorSpec::Syntax(GrammarRule::RemoveAction, exp)),
        Some(items) => Ok(removes_from(st, items, 0, Seq::empty())),
    }
}

/// The type of a value.
pub open spec fn type_of(v: AttrValSpec) -> AttributeType {
    match v {
        AttrValSpec::N(_) => AttributeType::N,
        AttrValSpec::S(_) => AttributeType::S,
        AttrValSpec::B(_) => AttributeType::B,
        AttrValSpec::Bool(_) => AttributeType::Bool,
        AttrValSpec::Null(_) => AttributeType::Null,
        AttrValSpec::L(_) => AttributeType::L,
        AttrValSpec::M(_) => AttributeType::M,
        AttrValSpec::NS(_) => AttributeType::NS,
        AttrValSpec::SS(_) => AttributeType::SS,
        AttrValSpec::BS(_) => AttributeType::BS,
    }
}

/// The reading of a sort key condition by the lenient grammar of the key's type: for
/// strings, values are unquoted strings; for numbers, a number alone stands for `=`.
pub open spec fn lenient_condition(exp: Seq<char>, t: AttributeType) -> Option<SortKeyConditionSpec> {
    match t {
        AttributeType::S => sort_key_str(exp),
        AttributeType::N => sort_key_number(exp),
        _ => None,
    }
}

/// The error for a value of type `actual` where the key has type `t`; it suggests the
/// lenient reading of the input where there is one.
pub open spec fn type_error(exp: Seq<char>, t: AttributeType, actual: AttributeType) -> ParseErrorSpec {
    match lenient_condition(exp, t) {
        Some(c) => ParseErrorSpec::InvalidTypesWithSuggest(t, actual, condition_text(c)),
        None => ParseErrorSpec::InvalidTypes(t, actual),
    }
}

/// `key op value`, with the key's name and the value by reference.
pub open spec fn compare_expr(st: ParserState, name: Seq<char>, v: AttrValSpec, op: Seq<char>) -> (
    ParserState,
    Seq<char>,
) {
    let (s1, p) = use_name(st, name);
    let (s2, r) = use_value(s1, v);
    (s2, p + op + r)
}

/// What processing a sort key condition gives, for the input `exp` and the key `name`
/// of type `t`: the new context and the key condition expression, or the error when a
/// value is not of the key's type.
pub open spec fn sort_key_expr(
    st: ParserState,
    exp: Seq<char>,
    name: Seq<char>,
    t: AttributeType,
    c: SortKeyConditionSpec,
) -> Result<(ParserState, Seq<char>), ParseErrorSpec> {
    match c {
        SortKeyConditionSpec::Eq(v) => if type_of(v) != t {
            Err(type_error(exp, t, type_of(v)))
        } else {
            Ok(compare_expr(st, name, v, "="@))
        },
        SortKeyConditionSpec::Le(v) => if type_of(v) != t {
            Err(type_error(exp, t, type_of(v)))
        } else {
            Ok(compare_expr(st, name, v, "<="@))
        },
        SortKeyConditionSpec::Lt(v) => if type_of(v) != t {
            Err(type_error(exp, t, type_of(v)))
        } else {
            Ok(compare_expr(st, name, v, "<"@))
        },
        SortKeyConditionSpec::Ge(v) => if type_of(v) != t {
            Err(type_error(exp, t, type_of(v)))
        } else {
            Ok(compare_expr(st, name, v, ">="@))
        },
        SortKeyConditionSpec::Gt(v) => if type_of(v) != t {
            Err(type_error(exp, t, type_of(v)))
        } else {
            Ok(compare_expr(st, name, v, ">"@))
        },
        SortKeyConditionSpec::Between(a, b) => if type_of(a) != t {
            Err(ParseErrorSpec::InvalidTypes(t, type_of(a)))
        } else if type_of(b) != t {
            Err(ParseErrorSpec::InvalidTypes(t, type_of(b)))
        } else {
            let (s1, p) = use_name(st, name);
            let (s2, x) = use_value(s1, a);
            let (s3, y) = use_value(s2, b);
            Ok((s3, p + " BETWEEN "@ + x + " AND "@ + y))
        },
        SortKeyConditionSpec::BeginsWith(v) => if type_of(v) != t {
            Err(ParseErrorSpec::InvalidTypes(t, type_of(v)))
        } else {
            let (s1, p) = use_name(st, name);
            let (s2, x) = use_value(s1, v);
            Ok((s2, "begins_with("@ + p + seq![','] + x + seq![')']))
        },
    }
}

/// What parsing a sort key condition in strict mode gives.
pub open spec fn strict_outcome(st: ParserState, exp: Seq<char>, name: Seq<char>, t: AttributeType) -> Result<
    (ParserState, Seq<char>),
    ParseErrorSpec,
> {
    match sort_key(exp) {
        None => Err(ParseErrorSpec::Syntax(GrammarRule::SortKey, exp)),
        Some(Err(e)) => Err(e),
        Some(Ok(c)) => sort_key_expr(st, exp, name, t, c),
    }
}

/// What parsing a sort key condition in non-strict mode gives: the strict reading, and
/// when it fails, the lenient reading of the key's type.
pub open spec fn fallback_outcome(st: ParserState, exp: Seq<char>, name: Seq<char>, t: AttributeType) -> Result<
    (ParserState, Seq<char>),
    ParseErrorSpec,
> {
    match strict_outcome(st, exp, name, t) {
        Ok(x) => Ok(x),
        Err(e) => match t {
            AttributeType::S => match sort_key_str(exp) {
                None => Err(ParseErrorSpec::Syntax(GrammarRule::SortKeyStr, exp)),
                Some(c) => sort_key_expr(st, exp, name, t, c),
            },
            AttributeType::N => match sort_key_number(exp) {
                None => Err(ParseErrorSpec::Syntax(GrammarRule::SortKeyNumber, exp)),
                Some(c) => sort_key_expr(st, exp, name, t, c),
            },
            _ => Err(e),
        },
    }
}

/// What parsing a sort key condition in strict mode, with suggestions, gives: an input
/// that the strict grammar refuses comes with its lenient reading, where there is one.
pub open spec fn suggest_outcome(st: ParserState, exp: Seq<char>, name: Seq<char>, t: AttributeType) -> Result<
    (ParserState, Seq<char>),
    ParseErrorSpec,
> {
    match sort_key(exp) {
        None => match lenient_condition(exp, t) {
            Some(c) => Err(
                ParseErrorSpec::SyntaxWithSuggest(GrammarRule::SortKey, exp, condition_text(c)),
            ),
            None => Err(ParseErrorSpec::Syntax(GrammarRule::SortKey, exp)),
        },
        Some(Err(e)) => Err(e),
        Some(Ok(c)) => sort_key_expr(st, exp, name, t, c),
    }
}

/// A map literal taking the whole input.
pub open spec fn map_literal(s: Seq<char>) -> Option<Res<Seq<(Seq<char>, AttrValSpec)>>> {
    let i = ws_end(s, 0);
    let k = ws_end(s, i + 1);
    if !at(s, i, '{') {
        None
    } else {
        let body = if at(s, k, '}') {
            Some((Ok(Seq::empty()), k + 1))
        } else {
            map_elems(s, k, Ok(Seq::empty()))
        };
        match body {
            Some((r, e)) => if ws_end(s, e) == s.len() {
                Some(r)
            } else {
                None
            },
            None => None,
        }
    }
}

/// The entries of `base` updated with those of `ps`, in order.
pub open spec fn merged(base: Seq<(Seq<char>, AttrValSpec)>, ps: Seq<(Seq<char>, AttrValSpec)>) -> Seq<
    (Seq<char>, AttrValSpec),
>
    decreases ps.len(),
{
    if ps.len() == 0 {
        base
    } else {
        map_put(merged(base, ps.drop_last()), ps.last().0, ps.last().1)
    }
}

/// What reading an item in dynein format gives: `base` updated with the entries of
/// the map literal, or the error.
pub open spec fn dynein_format_outcome(base: Seq<(Seq<char>, AttrValSpec)>, exp: Seq<char>) -> Result<
    Seq<(Seq<char>, AttrValSpec)>,
    ParseErrorSpec,
> {
    match map_literal(exp) {
        None => Err(ParseErrorSpec::Syntax(GrammarRule::MapLiteral, exp)),
        Some(Err(e)) => Err(e),
        Some(Ok(ps)) => Ok(merged(base, ps)),
    }
}

/// The result of parsing an action: the expression, and the context as it was then.
#[derive(Debug, PartialEq, Eq)]
pub struct ExpressionResult {
    exp: String,
    names: Vec<String>,
    values: Vec<AttrVal>,
}

impl View for ExpressionResult {
    type V = (Seq<char>, ParserState);

    closed spec fn view(&self) -> (Seq<char>, ParserState) {
        (self.exp@, ParserState { names: strings_view(self.names@), values: attrs_view(self.values@) })
    }
}

impl ExpressionResult {
    /// The expression.
    pub fn get_expression(&self) -> (r: String)
        ensures
            r@ == self@.0,
    {
        self.exp.clone()
    }

    /// The attribute names, each with its reference.
    pub fn get_names(&self) -> (r: Vec<(String, String)>)
        ensures
            r.len() == self@.1.names.len(),
            forall|i: int| 0 <= i < r.len() ==> (#[trigger] r@[i]).0@ == name_ref_text(i),
            forall|i: int| 0 <= i < r.len() ==> (#[trigger] r@[i]).1@ == self@.1.names[i],
    {
        let mut r: Vec<(String, String)> = Vec::new();
        let mut i: usize = 0;
        while i < self.names.len()
            invariant
                i <= self.names.len(),
                r.len() == i,
                forall|j: int| 0 <= j < i ==> (#[trigger] r@[j]).0@ == name_ref_text(j),
                forall|j: int| 0 <= j < i ==> (#[trigger] r@[j]).1@ == self.names@[j]@,
            decreases self.names.len() - i,
        {
            let a = attr_name_ref(i);
            let b = self.names[i].clone();
            assert(b@ == self.names@[i as int]@);
            r.push((a, b));
            assert(r@[i as int].1@ == self.names@[i as int]@);
            i = i + 1;
        }
        assert forall|j: int| 0 <= j < r.len() implies (#[trigger] r@[j]).1@ == self@.1.names[j] by {
            assert(strings_view(self.names@)[j] == self.names@[j]@);
        }
        r
    }

    /// The attribute values, each with its reference.
    pub fn get_values(&self) -> (r: Vec<(String, AttrVal)>)
        ensures
            r.len() == self@.1.values.len(),
            forall|i: int| 0 <= i < r.len() ==> (#[trigger] r@[i]).0@ == value_ref_text(i),
            forall|i: int| 0 <= i < r.len() ==> (#[trigger] r@[i]).1@ == self@.1.values[i],
    {
        let mut r: Vec<(String, AttrVal)> = Vec::new();
        let mut i: usize = 0;
        proof {
            crate::views::lemma_attrs_view(self.values@);
        }
        while i < self.values.len()
            invariant
                i <= self.values.len(),
                r.len() == i,
                attrs_view(self.values@).len() == self.values.len(),
                forall|j: int|
                    0 <= j < self.values.len() ==> #[trigger] attrs_view(self.values@)[j]
                        == attr_view(self.values@[j]),
                forall|j: int| 0 <= j < i ==> (#[trigger] r@[j]).0@ == value_ref_text(j),
                forall|j: int| 0 <= j < i ==> (#[trigger] r@[j]).1@ == attrs_view(self.values@)[j],
            decreases self.values.len() - i,
        {
            r.push((attr_val_ref(i), copy_value(&self.values[i])));
            i = i + 1;
        }
        r
    }
}

/// The name and the type of a key attribute.
pub struct AttributeDefinition {
    attribute_name: String,
    attribute_type: AttributeType,
}

impl AttributeDefinition {
    pub closed spec fn name(&self) -> Seq<char> {
        self.attribute_name@
    }

    pub closed spec fn kind(&self) -> AttributeType {
        self.attribute_type
    }

    /// The key attribute `attribute_name` of type `key_type`.
    pub fn new(attribute_name: &str, key_type: AttributeType) -> (d: AttributeDefinition)
        ensures
            d.name() == attribute_name@,
            d.kind() == key_type,
    {
        AttributeDefinition { attribute_name: String::from_str(attribute_name), attribute_type: key_type }
    }
}

impl AttrVal {
    /// The type of the value.
    pub fn attribute_type(&self) -> (t: AttributeType)
        ensures
            t == type_of(self@),
    {
        match self {
            AttrVal::N(_) => AttributeType::N,
            AttrVal::S(_) => AttributeType::S,
            AttrVal::B(_) => AttributeType::B,
            AttrVal::Bool(_) => AttributeType::Bool,
            AttrVal::Null(_) => AttributeType::Null,
            AttrVal::L(_) => AttributeType::L,
            AttrVal::M(_) => AttributeType::M,
            AttrVal::NS(_) => AttributeType::NS,
            AttrVal::SS(_) => AttributeType::SS,
            AttrVal::BS(_) => AttributeType::BS,
        }
    }

    /// Whether the value has type `t`.
    pub fn is_type(&self, t: AttributeType) -> (r: bool)
        ensures
            r == (type_of(self@) == t),
    {
        self.attribute_type() == t
    }
}

/// Whether a parser call ended as `expected` says: with the expression and the context
/// after it, or with the error and the context left as it was.
pub open spec fn ended_as(
    r: Result<ExpressionResult, ParseError>,
    before: ParserState,
    after: ParserState,
    expected: Result<(ParserState, Seq<char>), ParseErrorSpec>,
) -> bool {
    match r {
        Ok(res) => expected == Ok::<(ParserState, Seq<char>), ParseErrorSpec>((after, res@.0))
            && res@.1 == after,
        Err(e) => expected == Err::<(ParserState, Seq<char>), ParseErrorSpec>(e@) && after == before,
    }
}

proof fn lemma_lenient_writable(exp: Seq<char>, t: AttributeType)
    ensures
        lenient_condition(exp, t) matches Some(c) ==> condition_writable(c),
{
}

/// The error for an input that the grammar does not accept as `rule`.
fn syntax_error(rule: GrammarRule, exp: &str) -> (e: ParseError)
    ensures
        e@ == ParseErrorSpec::Syntax(rule, exp@),
{
    ParseError::ParsingError(SyntaxError { rule, input: String::from_str(exp) })
}

/// The lenient reading of a sort key condition for a key of type `t`.
fn try_sort_key_parse(exp: &str, t: AttributeType) -> (r: Option<SortKeyCondition>)
    ensures
        match r {
            Some(c) => lenient_condition(exp@, t) == Some(c@),
            None => lenient_condition(exp@, t) is None,
        },
{
    let chars = chars_of(exp);
    match t {
        AttributeType::S => sort_key_str_x(&chars),
        AttributeType::N => sort_key_number_x(&chars),
        _ => None,
    }
}

/// Reads a map literal taking the whole input.
fn map_literal_x(s: &Vec<char>) -> (r: Option<Result<Vec<(String, AttrVal)>, ParseError>>)
    ensures
        match r {
            Some(x) => map_literal(s@) == Some(
                match x {
                    Ok(v) => Ok(pairs_view(v@)),
                    Err(e) => Err(e@),
                },
            ),
            None => map_literal(s@) is None,
        },
{
    let i = skip_ws(s, 0);
    if !at_x(s, i, '{') {
        return None;
    }
    let k = skip_ws(s, i + 1);
    let (r, e) = if at_x(s, k, '}') {
        assert(pairs_view(Seq::<(String, AttrVal)>::empty()) =~= Seq::<
            (Seq<char>, AttrValSpec),
        >::empty());
        (Ok(Vec::new()), k + 1)
    } else {
        match map_elems_x(s, k) {
            Some(x) => x,
            None => {
                return None;
            },
        }
    };
    if skip_ws(s, e) == s.len() {
        Some(r)
    } else {
        None
    }
}

/// A literal taking the whole input.
pub open spec fn literal_whole(s: Seq<char>) -> Option<Res<AttrValSpec>> {
    match lit(s, ws_end(s, 0)) {
        Some((r, e)) => if ws_end(s, e) == s.len() {
            Some(r)
        } else {
            None
        },
        None => None,
    }
}

/// Reads a literal taking the whole input.
pub fn parse_literal(exp: &str) -> (r: Result<AttrVal, ParseError>)
    ensures
        match r {
            Ok(v) => literal_whole(exp@) == Some(Ok::<AttrValSpec, ParseErrorSpec>(v@)),
            Err(e) => literal_whole(exp@) == Some(Err::<AttrValSpec, ParseErrorSpec>(e@)) || (
            literal_whole(exp@) is None && e@ == ParseErrorSpec::Syntax(GrammarRule::Literal, exp@)),
        },
        r matches Ok(v) ==> maps_keyed_once(v@),
{
    proof {
        law_literal_maps_keyed_once(exp@);
    }
    let s = chars_of(exp);
    match lit_x(&s, skip_ws(&s, 0)) {
        Some((r, e)) => if skip_ws(&s, e) == s.len() {
            r
        } else {
            Err(syntax_error(GrammarRule::Literal, exp))
        },
        None => Err(syntax_error(GrammarRule::Literal, exp)),
    }
}

/// An attribute path taking the whole input.
pub open spec fn path_whole(s: Seq<char>) -> Option<Seq<PathElementSpec>> {
    match path(s, ws_end(s, 0)) {
        Some((p, e)) => if ws_end(s, e) == s.len() {
            Some(p)
        } else {
            None
        },
        None => None,
    }
}

/// Reads an attribute path taking the whole input.
pub fn parse_path(exp: &str) -> (r: Result<Path, ParseError>)
    ensures
        match r {
            Ok(p) => path_whole(exp@) == Some(p@),
            Err(e) => path_whole(exp@) is None && e@ == ParseErrorSpec::Syntax(GrammarRule::Path, exp@),
        },
{
    let s = chars_of(exp);
    match path_x(&s, skip_ws(&s, 0)) {
        Some((p, e)) => if skip_ws(&s, e) == s.len() {
            Ok(p)
        } else {
            Err(syntax_error(GrammarRule::Path, exp))
        },
        None => Err(syntax_error(GrammarRule::Path, exp)),
    }
}

/// The parser for dynein.
///
/// It holds the context of the expressions it makes: the attribute names and values
/// that their references stand for.
pub struct DyneinParser {
    names: Vec<String>,
    values: Vec<AttrVal>,
}

impl View for DyneinParser {
    type V = ParserState;

    closed spec fn view(&self) -> ParserState {
        ParserState { names: strings_view(self.names@), values: attrs_view(self.values@) }
    }
}

impl DyneinParser {
    /// What holds of every parser: no name is registered twice.
    pub open spec fn wf(&self) -> bool {
        state_ok(self@)
    }

    /// Create a new parser, with an empty context.
    pub fn new() -> (p: DyneinParser)
        ensures
            p.wf(),
            p@.names == Seq::<Seq<char>>::empty(),
            p@.values == Seq::<AttrValSpec>::empty(),
    {
        let p = DyneinParser { names: Vec::new(), values: Vec::new() };
        assert(strings_view(p.names@) =~= Seq::<Seq<char>>::empty());
        assert(attrs_view(p.values@) =~= Seq::<AttrValSpec>::empty());
        p
    }

    fn get_or_create_attr_name_ref(&mut self, attr_name: String) -> (r: String)
        requires
            old(self).wf(),
        ensures
            final(self).wf(),
            (final(self)@, r@) == use_name(old(self)@, attr_name@),
    {
        let ghost st = self@;
        let mut i: usize = 0;
        while i < self.names.len()
            invariant
                i <= self.names.len(),
                self@ == st,
                state_ok(st),
                strings_view(self.names@).len() == self.names.len(),
                name_index(st.names, attr_name@, 0) == name_index(st.names, attr_name@, i as int),
            decreases self.names.len() - i,
        {
            assert(strings_view(self.names@)[i as int] == self.names@[i as int]@);
            if self.names[i] == attr_name {
                return attr_name_ref(i);
            }
            i = i + 1;
        }
        proof {
            lemma_use_name(st, attr_name@);
        }
        let r = attr_name_ref(self.names.len());
        assert(strings_view(self.names@.push(attr_name)) =~= strings_view(self.names@).push(
            attr_name@,
        ));
        self.names.push(attr_name);
        r
    }

    fn add_value_and_return_ref(&mut self, value: AttrVal) -> (r: String)
        requires
            old(self).wf(),
        ensures
            final(self).wf(),
            (final(self)@, r@) == use_value(old(self)@, value@),
    {
        let r = attr_val_ref(self.values.len());
        proof {
            crate::views::lemma_attrs_view_push(self.values@, value);
            crate::views::lemma_attrs_view(self.values@);
        }
        self.values.push(value);
        r
    }

    /// Forgets the context.
    pub fn clear(&mut self)
        ensures
            final(self).wf(),
            final(self)@.names == Seq::<Seq<char>>::empty(),
            final(self)@.values == Seq::<AttrValSpec>::empty(),
    {
        self.names = Vec::new();
        self.values = Vec::new();
        assert(strings_view(self.names@) =~= Seq::<Seq<char>>::empty());
        assert(attrs_view(self.values@) =~= Seq::<AttrValSpec>::empty());
    }

    /// The context: the registered names and values, each with its reference.
    pub fn context(&self) -> (r: ExpressionResult)
        ensures
            r@ == (Seq::<char>::empty(), self@),
    {
        self.snapshot(String::new())
    }

    /// The result of an action: the expression and a copy of the context.
    fn snapshot(&self, exp: String) -> (r: ExpressionResult)
        ensures
            r@ == (exp@, self@),
    {
        ExpressionResult { exp, names: copy_strings(&self.names), values: copy_values(&self.values) }
    }

    /// `key op value` for the sort key, when the value has the key's type.
    fn compare_op(
        &mut self,
        exp: &str,
        sort_attr: &AttributeDefinition,
        v: &AttrVal,
        op: &str,
    ) -> (r: Result<ExpressionResult, ParseError>)
        requires
            old(self).wf(),
        ensures
            final(self).wf(),
            extends(old(self)@, final(self)@),
            ended_as(
                r,
                old(self)@,
                final(self)@,
                if type_of(v@) != sort_attr.kind() {
                    Err(type_error(exp@, sort_attr.kind(), type_of(v@)))
                } else {
                    Ok(compare_expr(old(self)@, sort_attr.name(), v@, op@))
                },
            ),
    {
        let ghost st0 = self@;
        proof {
            lemma_extends_refl(st0);
        }
        let attr_type = sort_attr.attribute_type;
        if !v.is_type(attr_type) {
            let err = match try_sort_key_parse(exp, attr_type) {
                Some(c) => {
                    proof {
                        lemma_lenient_writable(exp@, attr_type);
                    }
                    ParseError::InvalidTypesWithSuggest(
                        InvalidTypesWithSuggestError {
                            expected_type: attr_type,
                            actual_type: v.attribute_type(),
                            suggest: c.to_string(),
                        },
                    )
                },
                None => ParseError::InvalidTypes(
                    InvalidTypesError { expected_type: attr_type, actual_type: v.attribute_type() },
                ),
            };
            return Err(err);
        }
        let path = self.get_or_create_attr_name_ref(sort_attr.attribute_name.clone());
        let ghost s1 = self@;
        proof {
            lemma_use_name(st0, sort_attr.name());
        }
        let value = self.process_literal(v);
        proof {
            lemma_extends_trans(st0, s1, self@);
        }
        let mut expression = String::new();
        push_str(&mut expression, path.as_str());
        push_str(&mut expression, op);
        push_str(&mut expression, value.as_str());
        assert(expression@ =~= path@ + op@ + value@);
        Ok(self.snapshot(expression))
    }

    /// The expression of a sort key condition for the key `sort_attr`.
    fn process_sort_key(
        &mut self,
        exp: &str,
        sort_attr: &AttributeDefinition,
        condition: &SortKeyCondition,
    ) -> (r: Result<ExpressionResult, ParseError>)
        requires
            old(self).wf(),
        ensures
            final(self).wf(),
            extends(old(self)@, final(self)@),
            ended_as(
                r,
                old(self)@,
                final(self)@,
                sort_key_expr(old(self)@, exp@, sort_attr.name(), sort_attr.kind(), condition@),
            ),
    {
        let ghost st0 = self@;
        proof {
            lemma_extends_refl(st0);
            reveal_strlit("=");
            reveal_strlit("<=");
            reveal_strlit("<");
            reveal_strlit(">=");
            reveal_strlit(">");
        }
        let attr_type = sort_attr.attribute_type;
        match condition {
            SortKeyCondition::Eq(v) => self.compare_op(exp, sort_attr, v, "="),
            SortKeyCondition::Le(v) => self.compare_op(exp, sort_attr, v, "<="),
            SortKeyCondition::Lt(v) => self.compare_op(exp, sort_attr, v, "<"),
            SortKeyCondition::Ge(v) => self.compare_op(exp, sort_attr, v, ">="),
            SortKeyCondition::Gt(v) => self.compare_op(exp, sort_attr, v, ">"),
            SortKeyCondition::Between(start, end) => {
                if !start.is_type(attr_type) {
                    return Err(
                        ParseError::InvalidTypes(
                            InvalidTypesError {
                                expected_type: attr_type,
                                actual_type: start.attribute_type(),
                            },
                        ),
                    );
                }
                if !end.is_type(attr_type) {
                    return Err(
                        ParseError::InvalidTypes(
                            InvalidTypesError {
                                expected_type: attr_type,
                                actual_type: end.attribute_type(),
                            },
                        ),
                    );
                }
                let path = self.get_or_create_attr_name_ref(sort_attr.attribute_name.clone());
                let ghost s1 = self@;
                proof {
                    lemma_use_name(st0, sort_attr.name());
                }
                let start = self.process_literal(start);
                let ghost s2 = self@;
                let end = self.process_literal(end);
                proof {
                    lemma_extends_trans(st0, s1, s2);
                    lemma_extends_trans(st0, s2, self@);
                }
                let mut expression = String::new();
                push_str(&mut expression, path.as_str());
                push_str(&mut expression, " BETWEEN ");
                push_str(&mut expression, start.as_str());
                push_str(&mut expression, " AND ");
                push_str(&mut expression, end.as_str());
                assert(expression@ =~= path@ + " BETWEEN "@ + start@ + " AND "@ + end@);
                Ok(self.snapshot(expression))
            },
            SortKeyCondition::BeginsWith(prefix) => {
                if !prefix.is_type(attr_type) {
                    return Err(
                        ParseError::InvalidTypes(
                            InvalidTypesError {
                                expected_type: attr_type,
                                actual_type: prefix.attribute_type(),
                            },
                        ),
                    );
                }
                let path = self.get_or_create_attr_name_ref(sort_attr.attribute_name.clone());
                let ghost s1 = self@;
                proof {
                    lemma_use_name(st0, sort_attr.name());
                }
                let prefix = self.process_literal(prefix);
                proof {
                    lemma_extends_trans(st0, s1, self@);
                }
                let mut expression = String::new();
                push_str(&mut expression, "begins_with(");
                push_str(&mut expression, path.as_str());
                push_char(&mut expression, ',');
                push_str(&mut expression, prefix.as_str());
                push_char(&mut expression, ')');
                assert(expression@ =~= "begins_with("@ + path@ + seq![','] + prefix@ + seq![')']);
                Ok(self.snapshot(expression))
            },
        }
    }

    /// Parse sort key condition in strict mode.
    pub fn parse_sort_key_without_fallback(
        &mut self,
        exp: &str,
        sort_attr: &AttributeDefinition,
    ) -> (r: Result<ExpressionResult, ParseError>)
        requires
            old(self).wf(),
        ensures
            final(self).wf(),
            extends(old(self)@, final(self)@),
            ended_as(
                r,
                old(self)@,
                final(self)@,
                strict_outcome(old(self)@, exp@, sort_attr.name(), sort_attr.kind()),
            ),
    {
        proof {
            lemma_extends_refl(self@);
        }
        let chars = chars_of(exp);
        match sort_key_x(&chars) {
            None => Err(syntax_error(GrammarRule::SortKey, exp)),
            Some(Err(e)) => Err(e),
            Some(Ok(condition)) => self.process_sort_key(exp, sort_attr, &condition),
        }
    }

    /// Parse sort key condition in non-strict mode: an input that the strict grammar
    /// refuses, or whose values are not of the key's type, is read by the lenient
    /// grammar of the key's type.
    pub fn parse_sort_key_with_fallback(
        &mut self,
        exp: &str,
        sort_attr: &AttributeDefinition,
    ) -> (r: Result<ExpressionResult, ParseError>)
        requires
            old(self).wf(),
        ensures
            final(self).wf(),
            extends(old(self)@, final(self)@),
            ended_as(
                r,
                old(self)@,
                final(self)@,
                fallback_outcome(old(self)@, exp@, sort_attr.name(), sort_attr.kind()),
            ),
    {
        match self.parse_sort_key_without_fallback(exp, sort_attr) {
            Ok(res) => Ok(res),
            Err(err) => {
                let chars = chars_of(exp);
                match sort_attr.attribute_type {
                    AttributeType::S => match sort_key_str_x(&chars) {
                        None => Err(syntax_error(GrammarRule::SortKeyStr, exp)),
                        Some(condition) => self.process_sort_key(exp, sort_attr, &condition),
                    },
                    AttributeType::N => match sort_key_number_x(&chars) {
                        None => Err(syntax_error(GrammarRule::SortKeyNumber, exp)),
                        Some(condition) => self.process_sort_key(exp, sort_attr, &condition),
                    },
                    _ => Err(err),
                }
            },
        }
    }

    /// Parse sort key condition in strict mode; an input that the strict grammar refuses
    /// comes with its lenient reading as a suggestion, where there is one.
    pub fn parse_sort_key_with_suggest(
        &mut self,
        exp: &str,
        sort_attr: &AttributeDefinition,
    ) -> (r: Result<ExpressionResult, ParseError>)
        requires
            old(self).wf(),
        ensures
            final(self).wf(),
            extends(old(self)@, final(self)@),
            ended_as(
                r,
                old(self)@,
                final(self)@,
                suggest_outcome(old(self)@, exp@, sort_attr.name(), sort_attr.kind()),
            ),
    {
        proof {
            lemma_extends_refl(self@);
        }
        let chars = chars_of(exp);
        match sort_key_x(&chars) {
            None => match try_sort_key_parse(exp, sort_attr.attribute_type) {
                Some(c) => {
                    proof {
                        lemma_lenient_writable(exp@, sort_attr.kind());
                    }
                    Err(
                        ParseError::ParsingErrorWithSuggest(
                            ParsingErrorWithSuggestError {
                                parse_error: SyntaxError {
                                    rule: GrammarRule::SortKey,
                                    input: String::from_str(exp),
                                },
                                suggest: c.to_string(),
                            },
                        ),
                    )
                },
                None => Err(syntax_error(GrammarRule::SortKey, exp)),
            },
            Some(Err(e)) => Err(e),
            Some(Ok(condition)) => self.process_sort_key(exp, sort_attr, &condition),
        }
    }

    fn process_set_action(&mut self, input: &Vec<AtomicSet>) -> (r: ExpressionResult)
        requires
            old(self).wf(),
        ensures
            final(self).wf(),
            extends(old(self)@, final(self)@),
            (final(self)@, r@.0) == sets_from(old(self)@, sets_view(input@), 0, Seq::empty()),
            r@.1 == final(self)@,
    {
        let ghost st0 = self@;
        let ghost items = sets_view(input@);
        let mut expression = String::new();
        let mut written = false;
        let mut i: usize = 0;
        proof {
            lemma_extends_refl(st0);
        }
        while i < input.len()
            invariant
                i <= input.len(),
                written == (expression@.len() > 0),
                items == sets_view(input@),
                self.wf(),
                extends(st0, self@),
                sets_from(st0, items, 0, Seq::empty()) == sets_from(
                    self@,
                    items,
                    i as int,
                    expression@,
                ),
            decreases input.len() - i,
        {
            let ghost before = self@;
            let ghost e0 = expression@;
            assert(items[i as int] == input@[i as int]@);
            let path = self.process_path(&input[i].path);
            let ghost s1 = self@;
            let value = self.process_value(&input[i].value);
            proof {
                lemma_extends_trans(st0, before, s1);
                lemma_extends_trans(st0, s1, self@);
            }
            if written {
                push_char(&mut expression, ',');
            }
            let ghost sep = expression@;
            push_str(&mut expression, path.as_str());
            push_char(&mut expression, '=');
            push_str(&mut expression, value.as_str());
            assert(expression@ =~= sep + path@ + seq!['='] + value@);
            assert(sep == if e0.len() > 0 {
                e0 + seq![',']
            } else {
                e0
            });
            assert(sets_from(before, items, i as int, e0) == sets_from(
                self@,
                items,
                i + 1,
                expression@,
            ));
            written = true;
            i = i + 1;
        }
        self.snapshot(expression)
    }

    fn process_remove_action(&mut self, input: &Vec<AtomicRemove>) -> (r: ExpressionResult)
        requires
            old(self).wf(),
        ensures
            final(self).wf(),
            extends(old(self)@, final(self)@),
            (final(self)@, r@.0) == removes_from(
                old(self)@,
                removes_view(input@),
                0,
                Seq::empty(),
            ),
            r@.1 == final(self)@,
    {
        let ghost st0 = self@;
        let ghost items = removes_view(input@);
        let mut expression = String::new();
        let mut written = false;
        let mut i: usize = 0;
        proof {
            lemma_extends_refl(st0);
        }
        while i < input.len()
            invariant
                i <= input.len(),
                written == (expression@.len() > 0),
                items == removes_view(input@),
                self.wf(),
                extends(st0, self@),
                removes_from(st0, items, 0, Seq::empty()) == removes_from(
                    self@,
                    items,
                    i as int,
                    expression@,
                ),
            decreases input.len() - i,
        {
            let ghost before = self@;
            let ghost e0 = expression@;
            assert(items[i as int] == input@[i as int]@);
            let path = self.process_path(&input[i].path);
            proof {
                lemma_extends_trans(st0, before, self@);
            }
            if written {
                push_char(&mut expression, ',');
            }
            let ghost sep = expression@;
            push_str(&mut expression, path.as_str());
            assert(expression@ =~= sep + path@);
            assert(sep == if e0.len() > 0 {
                e0 + seq![',']
            } else {
                e0
            });
            assert(removes_from(before, items, i as int, e0) == removes_from(
                self@,
                items,
                i + 1,
                expression@,
            ));
            let nothing = String::new();
            let blank = path == nothing;
            assert(blank <==> path@.len() == 0) by {
                if path@.len() == 0 {
                    assert(path@ =~= nothing@);
                }
            }
            if !blank {
                written = true;
            }
            i = i + 1;
        }
        self.snapshot(expression)
    }

    /// Parse set actions.
    ///
    /// You can call this more than once: the context is shared, and it is up to the
    /// caller to merge the expressions of the results.
    pub fn parse_set_action(&mut self, exp: &str) -> (r: Result<ExpressionResult, ParseError>)
        requires
            old(self).wf(),
        ensures
            final(self).wf(),
            extends(old(self)@, final(self)@),
            ended_as(r, old(self)@, final(self)@, set_action_outcome(old(self)@, exp@)),
    {
        proof {
            lemma_extends_refl(self@);
        }
        let chars = chars_of(exp);
        match set_action_x(&chars) {
            None => Err(syntax_error(GrammarRule::SetAction, exp)),
            Some(Err(e)) => Err(e),
            Some(Ok(actions)) => Ok(self.process_set_action(&actions)),
        }
    }

    /// Parse remove actions.
    ///
    /// You can call this more than once: the context is shared, and it is up to the
    /// caller to merge the expressions of the results.
    pub fn parse_remove_action(&mut self, exp: &str) -> (r: Result<ExpressionResult, ParseError>)
        requires
            old(self).wf(),
        ensures
            final(self).wf(),
            extends(old(self)@, final(self)@),
            ended_as(r, old(self)@, final(self)@, remove_action_outcome(old(self)@, exp@)),
    {
        proof {
            lemma_extends_refl(self@);
        }
        let chars = chars_of(exp);
        match remove_action_x(&chars) {
            None => Err(syntax_error(GrammarRule::RemoveAction, exp)),
            Some(actions) => Ok(self.process_remove_action(&actions)),
        }
    }

    /// Reads an item written in dynein format, a map literal, over `initial_item`: each
    /// entry of the literal replaces the entry of the same key, or is added.
    pub fn parse_dynein_format(
        &self,
        initial_item: Option<Vec<(String, AttrVal)>>,
        exp: &str,
    ) -> (r: Result<Vec<(String, AttrVal)>, ParseError>)
        ensures
            match r {
                Ok(v) => dynein_format_outcome(
                    match initial_item {
                        Some(x) => pairs_view(x@),
                        None => Seq::empty(),
                    },
                    exp@,
                ) == Ok::<Seq<(Seq<char>, AttrValSpec)>, ParseErrorSpec>(pairs_view(v@)),
                Err(e) => dynein_format_outcome(
                    match initial_item {
                        Some(x) => pairs_view(x@),
                        None => Seq::empty(),
                    },
                    exp@,
                ) == Err::<Seq<(Seq<char>, AttrValSpec)>, ParseErrorSpec>(e@),
            },
            r matches Ok(v) ==> (initial_item matches Some(x) ==> keys_distinct(pairs_view(x@)))
                ==> keys_distinct(pairs_view(v@)),
    {
        proof {
            let base = if initial_item is Some {
                pairs_view(initial_item->Some_0@)
            } else {
                Seq::empty()
            };
            let m = map_literal(exp@);
            if keys_distinct(base) && m is Some && m->Some_0 is Ok {
                law_dynein_format_keys_distinct(base, m->Some_0->Ok_0);
            }
        }
        let chars = chars_of(exp);
        let item = match map_literal_x(&chars) {
            None => {
                return Err(syntax_error(GrammarRule::MapLiteral, exp));
            },
            Some(Err(e)) => {
                return Err(e);
            },
            Some(Ok(item)) => item,
        };
        let mut image = match initial_item {
            Some(init_item) => init_item,
            None => Vec::new(),
        };
        let ghost base = pairs_view(image@);
        assert(base =~= match initial_item {
            Some(x) => pairs_view(x@),
            None => Seq::empty(),
        });
        let ghost ps = pairs_view(item@);
        proof {
            crate::views::lemma_pairs_view(item@);
        }
        let mut i: usize = 0;
        while i < item.len()
            invariant
                i <= item.len(),
                ps == pairs_view(item@),
                ps.len() == item.len(),
                forall|j: int|
                    0 <= j < item.len() ==> #[trigger] ps[j] == (item@[j].0@, attr_view(item@[j].1)),
                pairs_view(image@) == merged(base, ps.take(i as int)),
            decreases item.len() - i,
        {
            assert(ps.take(i + 1).drop_last() =~= ps.take(i as int));
            assert(ps.take(i + 1).last() == ps[i as int]);
            let k = item[i].0.clone();
            let v = copy_value(&item[i].1);
            map_put_x(&mut image, k, v);
            i = i + 1;
        }
        assert(ps.take(item.len() as int) =~= ps);
        Ok(image)
    }

    /// The expression of a path; its attribute names are registered.
    pub fn process_path(&mut self, input: &Path) -> (r: String)
        requires
            old(self).wf(),
        ensures
            final(self).wf(),
            (final(self)@, r@) == path_expr(old(self)@, input@),
            extends(old(self)@, final(self)@),
    {
        let ghost st0 = self@;
        let ghost p = input@;
        let mut expression = String::new();
        let mut is_first = true;
        let mut i: usize = 0;
        proof {
            lemma_extends_refl(st0);
        }
        while i < input.elements.len()
            invariant
                i <= input.elements.len(),
                p == input@,
                p.len() == input.elements.len(),
                forall|j: int| 0 <= j < p.len() ==> #[trigger] p[j] == input.elements@[j]@,
                self.wf(),
                extends(st0, self@),
                path_expr(st0, p) == path_from(self@, p, i as int, is_first, expression@),
            decreases input.elements.len() - i,
        {
            assert(p[i as int] == input.elements@[i as int]@);
            let ghost e0 = expression@;
            let ghost f0 = is_first;
            let ghost before = self@;
            match &input.elements[i] {
                PathElement::Attribute(name) => {
                    proof {
                        lemma_use_name(before, name@);
                    }
                    let name_ref = self.get_or_create_attr_name_ref(name.clone());
                    proof {
                        lemma_extends_trans(st0, before, self@);
                    }
                    if is_first {
                        push_str(&mut expression, name_ref.as_str());
                        is_first = false;
                        assert(expression@ =~= e0 + name_ref@);
                    } else {
                        push_char(&mut expression, '.');
                        push_str(&mut expression, name_ref.as_str());
                        assert(expression@ =~= e0 + seq!['.'] + name_ref@);
                    }
                    assert(path_from(before, p, i as int, f0, e0) == path_from(
                        self@,
                        p,
                        i + 1,
                        is_first,
                        expression@,
                    ));
                },
                PathElement::Index(idx) => {
                    push_char(&mut expression, '[');
                    push_str(&mut expression, idx.as_str());
                    push_char(&mut expression, ']');
                    assert(expression@ =~= e0 + seq!['['] + idx@ + seq![']']);
                    assert(path_from(before, p, i as int, f0, e0) == path_from(
                        self@,
                        p,
                        i + 1,
                        is_first,
                        expression@,
                    ));
                },
            }
            i = i + 1;
        }
        expression
    }

    /// The reference to a value, which is registered.
    pub fn process_literal(&mut self, input: &AttrVal) -> (r: String)
        requires
            old(self).wf(),
        ensures
            final(self).wf(),
            (final(self)@, r@) == use_value(old(self)@, input@),
            extends(old(self)@, final(self)@),
    {
        proof {
            lemma_use_value(self@, input@);
        }
        self.add_value_and_return_ref(copy_value(input))
    }

    fn process_list_append_parameter(&mut self, input: &ListAppendParameter) -> (r: String)
        requires
            old(self).wf(),
        ensures
            final(self).wf(),
            (final(self)@, r@) == list_param_expr(old(self)@, input@),
            extends(old(self)@, final(self)@),
    {
        match input {
            ListAppendParameter::Path(path) => self.process_path(path),
            ListAppendParameter::ListLiteral(literal) => self.process_literal(literal),
        }
    }

    fn process_function(&mut self, input: &Function) -> (r: String)
        requires
            old(self).wf(),
        ensures
            final(self).wf(),
            (final(self)@, r@) == function_expr(old(self)@, input@),
            extends(old(self)@, final(self)@),
        decreases input, 0int,
    {
        let ghost st0 = self@;
        match input {
            Function::ListAppendFunction(lhs, rhs) => {
                let mut expression = String::from_str("list_append(");
                let lhs = self.process_list_append_parameter(lhs);
                let ghost s1 = self@;
                let rhs = self.process_list_append_parameter(rhs);
                proof {
                    lemma_extends_trans(st0, s1, self@);
                }
                push_str(&mut expression, lhs.as_str());
                push_char(&mut expression, ',');
                push_str(&mut expression, rhs.as_str());
                push_char(&mut expression, ')');
                expression
            },
            Function::IfNotExistsFunction(path, value) => {
                let mut expression = String::from_str("if_not_exists(");
                let path_expression = self.process_path(path);
                let ghost s1 = self@;
                proof {
                    assert(decreases_to!(*input => input->IfNotExistsFunction_1));
                }
                let value_expression = self.process_value(value);
                proof {
                    lemma_extends_trans(st0, s1, self@);
                }
                push_str(&mut expression, path_expression.as_str());
                push_char(&mut expression, ',');
                push_str(&mut expression, value_expression.as_str());
                push_char(&mut expression, ')');
                expression
            },
        }
    }

    fn process_operand(&mut self, input: &Operand) -> (r: String)
        requires
            old(self).wf(),
        ensures
            final(self).wf(),
            (final(self)@, r@) == operand_expr(old(self)@, input@),
            extends(old(self)@, final(self)@),
        decreases input, 1int,
    {
        match input {
            Operand::Function(function) => self.process_function(function),
            Operand::Literal(literal) => self.process_literal(literal),
            Operand::Path(path) => self.process_path(path),
        }
    }

    fn process_value(&mut self, input: &Value) -> (r: String)
        requires
            old(self).wf(),
        ensures
            final(self).wf(),
            (final(self)@, r@) == value_expr(old(self)@, input@),
            extends(old(self)@, final(self)@),
        decreases input, 2int,
    {
        let ghost st0 = self@;
        match input {
            Value::PlusExpression(lhs, rhs) => {
                let mut l = self.process_operand(lhs);
                let ghost s1 = self@;
                let r = self.process_operand(rhs);
                proof {
                    lemma_extends_trans(st0, s1, self@);
                }
                push_char(&mut l, '+');
                push_str(&mut l, r.as_str());
                l
            },
            Value::MinusExpression(lhs, rhs) => {
                let mut l = self.process_operand(lhs);
                let ghost s1 = self@;
                let r = self.process_operand(rhs);
                proof {
                    lemma_extends_trans(st0, s1, self@);
                }
                push_char(&mut l, '-');
                push_str(&mut l, r.as_str());
                l
            },
            Value::Operand(op) => self.process_operand(op),
        }
    }
}

/// The non-strict reading of a sort key condition agrees with the strict one wherever
/// the strict one succeeds.
pub proof fn law_fallback_agrees_with_strict(
    st: ParserState,
    exp: Seq<char>,
    name: Seq<char>,
    t: AttributeType,
)
    requires
        strict_outcome(st, exp, name, t) is Ok,
    ensures
        fallback_outcome(st, exp, name, t) == strict_outcome(st, exp, name, t),
{
}

/// A name registered before is referred to by its first reference: using it again
/// leaves the context as it is.
pub proof fn law_name_reference_reused(st: ParserState, n: Seq<char>, k: int)
    requires
        state_ok(st),
        0 <= k < st.names.len(),
        st.names[k] == n,
    ensures
        use_name(st, n) == (st, name_ref_text(k)),
{
    lemma_name_index(st.names, n, 0);
}

/// Using a name keeps the names distinct, keeps what was registered, and registers it.
pub proof fn law_use_name_registers(st: ParserState, n: Seq<char>)
    requires
        state_ok(st),
    ensures
        state_ok(use_name(st, n).0),
        extends(st, use_name(st, n).0),
        use_name(st, n).0.names.contains(n),
{
    lemma_use_name(st, n);
}

/// A name not registered yet is registered after the others and referred to by the
/// next reference; the values stay as they are.
pub proof fn law_new_name_takes_next_reference(st: ParserState, n: Seq<char>)
    requires
        state_ok(st),
        !st.names.contains(n),
    ensures
        use_name(st, n) == (
            ParserState { names: st.names.push(n), values: st.values },
            name_ref_text(st.names.len() as int),
        ),
{
    lemma_name_index(st.names, n, 0);
    let k = name_index(st.names, n, 0);
    if k != -1 {
        assert(st.names[k] == n);
    }
}

/// References of different indexes differ, for names and for values alike: a name
/// and a value of a context each have a reference of their own.
pub proof fn law_references_distinct(i: int, j: int)
    requires
        0 <= i,
        0 <= j,
        i != j,
    ensures
        name_ref_text(i) != name_ref_text(j),
        value_ref_text(i) != value_ref_text(j),
{
    let (p, q) = ("#DYNEIN_ATTRNAME"@, ":DYNEIN_ATTRVAL"@);
    let (di, dj) = (decimal(i as nat), decimal(j as nat));
    if name_ref_text(i) == name_ref_text(j) {
        assert((p + di).subrange(p.len() as int, (p + di).len() as int) =~= di);
        assert((p + dj).subrange(p.len() as int, (p + dj).len() as int) =~= dj);
        lemma_decimal_injective(i as nat, j as nat);
    }
    if value_ref_text(i) == value_ref_text(j) {
        assert((q + di).subrange(q.len() as int, (q + di).len() as int) =~= di);
        assert((q + dj).subrange(q.len() as int, (q + dj).len() as int) =~= dj);
        lemma_decimal_injective(i as nat, j as nat);
    }
}

/// The value bound to `k` in an association list: that of its first entry.
pub open spec fn entry_value(pairs: Seq<(Seq<char>, AttrValSpec)>, k: Seq<char>) -> Option<AttrValSpec> {
    let i = key_index(pairs, k, 0);
    if 0 <= i < pairs.len() {
        Some(pairs[i].1)
    } else {
        None
    }
}

/// The value of the last entry of `ps` for `k`, if there is one.
pub open spec fn last_value(ps: Seq<(Seq<char>, AttrValSpec)>, k: Seq<char>) -> Option<AttrValSpec>
    decreases ps.len(),
{
    if ps.len() == 0 {
        None
    } else if ps.last().0 == k {
        Some(ps.last().1)
    } else {
        last_value(ps.drop_last(), k)
    }
}

pub(crate) proof fn lemma_key_index_found(p: Seq<(Seq<char>, AttrValSpec)>, k: Seq<char>, i: int)
    requires
        0 <= i,
    ensures
        key_index(p, k, i) == -1 || (i <= key_index(p, k, i) < p.len() && p[key_index(p, k, i)].0
            == k),
        key_index(p, k, i) == -1 ==> forall|j: int| i <= j < p.len() ==> p[j].0 != k,
    decreases p.len() - i,
{
    if i < p.len() && p[i].0 != k {
        lemma_key_index_found(p, k, i + 1);
    }
}

proof fn lemma_key_index_same_keys(
    p: Seq<(Seq<char>, AttrValSpec)>,
    q: Seq<(Seq<char>, AttrValSpec)>,
    k: Seq<char>,
    i: int,
)
    requires
        p.len() == q.len(),
        forall|j: int| 0 <= j < p.len() ==> #[trigger] p[j].0 == q[j].0,
    ensures
        key_index(p, k, i) == key_index(q, k, i),
    decreases p.len() - i,
{
    if 0 <= i < p.len() && p[i].0 != k {
        lemma_key_index_same_keys(p, q, k, i + 1);
    }
}

proof fn lemma_key_index_push(p: Seq<(Seq<char>, AttrValSpec)>, x: (Seq<char>, AttrValSpec), k: Seq<char>, i: int)
    requires
        0 <= i <= p.len(),
    ensures
        key_index(p.push(x), k, i) == if key_index(p, k, i) >= 0 {
            key_index(p, k, i)
        } else if x.0 == k {
            p.len() as int
        } else {
            -1
        },
    decreases p.len() - i,
{
    if i < p.len() {
        assert(p.push(x)[i] == p[i]);
        if p[i].0 != k {
            lemma_key_index_push(p, x, k, i + 1);
        }
    } else {
        assert(p.push(x)[i] == x);
        assert(key_index(p.push(x), k, i + 1) == -1);
    }
}

proof fn lemma_map_put(p: Seq<(Seq<char>, AttrValSpec)>, k: Seq<char>, v: AttrValSpec, k2: Seq<char>)
    ensures
        entry_value(map_put(p, k, v), k2) == if k2 == k {
            Some(v)
        } else {
            entry_value(p, k2)
        },
{
    lemma_key_index_found(p, k, 0);
    let r = key_index(p, k, 0);
    let q = map_put(p, k, v);
    if r >= 0 {
        assert forall|j: int| 0 <= j < p.len() implies #[trigger] p[j].0 == q[j].0 by {}
        lemma_key_index_same_keys(p, q, k2, 0);
        lemma_key_index_found(p, k2, 0);
    } else {
        lemma_key_index_push(p, (k, v), k2, 0);
        lemma_key_index_found(p, k2, 0);
    }
}

/// Whether no key occurs twice among the entries.
pub open spec fn keys_distinct<V>(ps: Seq<(Seq<char>, V)>) -> bool {
    forall|i: int, j: int| 0 <= i < j < ps.len() ==> ps[i].0 != ps[j].0
}

/// Whether every map in the value, at any depth, has distinct keys.
pub open spec fn maps_keyed_once(v: AttrValSpec) -> bool
    decreases v,
{
    match v {
        AttrValSpec::M(ps) => keys_distinct(ps) && forall|i: int|
            0 <= i < ps.len() ==> maps_keyed_once(#[trigger] ps[i].1),
        AttrValSpec::L(xs) => forall|i: int| 0 <= i < xs.len() ==> maps_keyed_once(#[trigger] xs[i]),
        _ => true,
    }
}

/// Binding a key in a map whose keys are distinct keeps them distinct; the key is then
/// bound to the value, and every other key keeps its value.
pub proof fn law_map_put_keeps_keys_distinct(
    p: Seq<(Seq<char>, AttrValSpec)>,
    k: Seq<char>,
    v: AttrValSpec,
    k2: Seq<char>,
)
    requires
        keys_distinct(p),
    ensures
        keys_distinct(map_put(p, k, v)),
        entry_value(map_put(p, k, v), k2) == if k2 == k {
            Some(v)
        } else {
            entry_value(p, k2)
        },
{
    lemma_map_put(p, k, v, k2);
    lemma_key_index_found(p, k, 0);
    let q = map_put(p, k, v);
    if key_index(p, k, 0) >= 0 {
        assert forall|i: int, j: int| 0 <= i < j < q.len() implies q[i].0 != q[j].0 by {
            assert(q[i].0 == p[i].0 && q[j].0 == p[j].0);
        }
    } else {
        assert forall|i: int, j: int| 0 <= i < j < q.len() implies q[i].0 != q[j].0 by {
            if j == p.len() {
                assert(q[j].0 == k);
            } else {
                assert(q[i] == p[i] && q[j] == p[j]);
            }
        }
    }
}

/// Binding a key keeps every map of a map keyed once, when the new value is.
pub(crate) proof fn lemma_map_put_keyed_once(p: Seq<(Seq<char>, AttrValSpec)>, k: Seq<char>, v: AttrValSpec)
    requires
        maps_keyed_once(AttrValSpec::M(p)),
        maps_keyed_once(v),
    ensures
        maps_keyed_once(AttrValSpec::M(map_put(p, k, v))),
{
    law_map_put_keeps_keys_distinct(p, k, v, k);
    lemma_key_index_found(p, k, 0);
    let q = map_put(p, k, v);
    let r = key_index(p, k, 0);
    assert forall|i: int| 0 <= i < q.len() implies maps_keyed_once(#[trigger] q[i].1) by {
        if (r >= 0 && i != r) || (r < 0 && i < p.len()) {
            assert(q[i] == p[i]);
        }
    }
}

proof fn lemma_lit_keyed_once(s: Seq<char>, i: int)
    ensures
        lit(s, i) matches Some((Ok(v), _)) ==> maps_keyed_once(v),
    decreases crate::escape::remaining(s.len() as int, i), 1int,
{
    if 0 <= i < s.len() {
        if at(s, i, '<') && at(s, i + 1, '<') {
        } else if at(s, i, '[') {
            let k = ws_end(s, i + 1);
            lemma_ws_end(s, i + 1);
            if !at(s, k, ']') {
                lemma_list_keyed_once(s, k, Ok(Seq::empty()));
            }
        } else if at(s, i, '{') {
            let k = ws_end(s, i + 1);
            lemma_ws_end(s, i + 1);
            if !at(s, k, '}') {
                lemma_map_elems_keyed_once(s, k, Ok(Seq::empty()));
            }
        }
    }
}

proof fn lemma_list_keyed_once(s: Seq<char>, k: int, acc: Res<Seq<AttrValSpec>>)
    requires
        acc matches Ok(xs) ==> forall|j: int| 0 <= j < xs.len() ==> maps_keyed_once(#[trigger] xs[j]),
    ensures
        list_elems(s, k, acc) matches Some((Ok(xs), _)) ==> forall|j: int|
            0 <= j < xs.len() ==> maps_keyed_once(#[trigger] xs[j]),
    decreases crate::escape::remaining(s.len() as int, k), 2int,
{
    lemma_lit_keyed_once(s, k);
    if lit(s, k) is Some {
        let (r, e) = lit(s, k)->Some_0;
        if e > k {
            let acc2 = push_res(acc, r);
            let p = ws_end(s, e);
            lemma_ws_end(s, e);
            lemma_ws_end(s, p + 1);
            if acc2 is Ok {
                let xs = acc2->Ok_0;
                assert forall|j: int| 0 <= j < xs.len() implies maps_keyed_once(#[trigger] xs[j]) by {
                    if j < xs.len() - 1 {
                        assert(xs[j] == acc->Ok_0[j]);
                    }
                }
            }
            if at(s, p, ',') {
                lemma_list_keyed_once(s, ws_end(s, p + 1), acc2);
            }
        }
    }
}

proof fn lemma_map_elems_keyed_once(s: Seq<char>, k: int, acc: Res<Seq<(Seq<char>, AttrValSpec)>>)
    requires
        acc matches Ok(ps) ==> maps_keyed_once(AttrValSpec::M(ps)),
    ensures
        map_elems(s, k, acc) matches Some((Ok(ps), _)) ==> maps_keyed_once(AttrValSpec::M(ps)),
    decreases crate::escape::remaining(s.len() as int, k), 2int,
{
    lemma_str_lit_advances(s, k);
    if crate::grammar::str_lit(s, k) is Some {
        let (kr, e1) = crate::grammar::str_lit(s, k)->Some_0;
        let c = ws_end(s, e1);
        lemma_ws_end(s, e1);
        lemma_ws_end(s, c + 1);
        if at(s, c, ':') {
            let vpos = ws_end(s, c + 1);
            lemma_lit_keyed_once(s, vpos);
            if lit(s, vpos) is Some {
                let (vr, e2) = lit(s, vpos)->Some_0;
                if e2 > vpos {
                    let acc2 = put_res(acc, kr, vr);
                    let p = ws_end(s, e2);
                    lemma_ws_end(s, e2);
                    lemma_ws_end(s, p + 1);
                    if acc2 is Ok {
                        lemma_map_put_keyed_once(acc->Ok_0, kr->Ok_0, vr->Ok_0);
                    }
                    if at(s, p, ',') {
                        lemma_map_elems_keyed_once(s, ws_end(s, p + 1), acc2);
                    }
                }
            }
        }
    }
}

/// Every map in a literal, at any depth, has distinct keys: an entry given again
/// replaces the earlier one.
pub proof fn law_literal_maps_keyed_once(s: Seq<char>)
    ensures
        literal_whole(s) matches Some(Ok(v)) ==> maps_keyed_once(v),
{
    lemma_lit_keyed_once(s, ws_end(s, 0));
}

/// Reading an item in dynein format over an initial item whose keys are distinct gives
/// an item whose keys are distinct.
pub proof fn law_dynein_format_keys_distinct(
    base: Seq<(Seq<char>, AttrValSpec)>,
    ps: Seq<(Seq<char>, AttrValSpec)>,
)
    requires
        keys_distinct(base),
    ensures
        keys_distinct(merged(base, ps)),
    decreases ps.len(),
{
    if ps.len() > 0 {
        law_dynein_format_keys_distinct(base, ps.drop_last());
        law_map_put_keeps_keys_distinct(merged(base, ps.drop_last()), ps.last().0, ps.last().1, ps.last().0);
    }
}

/// Reading an item in dynein format over an initial item: each key given in the map
/// literal is bound to the last value given for it; the other keys keep their values.
pub proof fn law_dynein_format_entries_win(
    base: Seq<(Seq<char>, AttrValSpec)>,
    ps: Seq<(Seq<char>, AttrValSpec)>,
    k: Seq<char>,
)
    ensures
        entry_value(merged(base, ps), k) == match last_value(ps, k) {
            Some(v) => Some(v),
            None => entry_value(base, k),
        },
    decreases ps.len(),
{
    if ps.len() > 0 {
        law_dynein_format_entries_win(base, ps.drop_last(), k);
        lemma_map_put(merged(base, ps.drop_last()), ps.last().0, ps.last().1, k);
    }
}

} // verus!
