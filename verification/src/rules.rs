//! The grammar of attribute paths, update actions and sort key conditions, built on
//! the literal grammar of [`crate::grammar`].
use vstd::prelude::*;
use crate::ast::{
    FunctionSpec, ListParamSpec, OperandSpec, PathElementSpec, SortKeyConditionSpec, ValueSpec,
};
use crate::error::ParseErrorSpec;
use crate::escape::remaining;
use crate::grammar::{
    at, bare_end, digits_end, id_end, is_id_start, lemma_ws_end, lit, matches_ci, word_at,
    number_end, ws_end, Res,
};
use crate::value::AttrValSpec;

verus! {

/// The name of a backquoted attribute from `j` on, a doubled backquote standing for one
/// backquote; the name has at least one character.
pub open spec fn quoted_name(s: Seq<char>, j: int, acc: Seq<char>) -> Option<(Seq<char>, int)>
    decreases remaining(s.len() as int, j),
{
    if j < 0 || j >= s.len() {
        None
    } else if s[j] == '`' {
        if at(s, j + 1, '`') {
            quoted_name(s, j + 2, acc.push('`'))
        } else if acc.len() > 0 {
            Some((acc, j + 1))
        } else {
            None
        }
    } else {
        quoted_name(s, j + 1, acc.push(s[j]))
    }
}

/// An attribute name at `i`: unquoted, or between backquotes.
pub open spec fn ident(s: Seq<char>, i: int) -> Option<(Seq<char>, int)> {
    if 0 <= i < s.len() && is_id_start(s[i]) {
        Some((s.subrange(i, id_end(s, i + 1)), id_end(s, i + 1)))
    } else if at(s, i, '`') {
        quoted_name(s, i + 1, Seq::empty())
    } else {
        None
    }
}

/// The rest of a path from `j` on: `.name` and `[digits]` steps.
pub open spec fn path_rest(s: Seq<char>, j: int, acc: Seq<PathElementSpec>) -> (
    Seq<PathElementSpec>,
    int,
)
    decreases remaining(s.len() as int, j),
{
    if at(s, j, '.') && ident(s, j + 1) is Some {
        let (n, e) = ident(s, j + 1).unwrap();
        proof {
            lemma_ident_advances(s, j + 1);
        }
        path_rest(s, e, acc.push(PathElementSpec::Attribute(n)))
    } else if at(s, j, '[') && digits_end(s, j + 1) > j + 1 && at(s, digits_end(s, j + 1), ']') {
        path_rest(
            s,
            digits_end(s, j + 1) + 1,
            acc.push(PathElementSpec::Index(s.subrange(j + 1, digits_end(s, j + 1)))),
        )
    } else {
        (acc, j)
    }
}

/// An attribute path at `i`.
pub open spec fn path(s: Seq<char>, i: int) -> Option<(Seq<PathElementSpec>, int)> {
    match ident(s, i) {
        Some((n, e)) => Some(path_rest(s, e, seq![PathElementSpec::Attribute(n)])),
        None => None,
    }
}

pub open spec fn word_list_append() -> Seq<char> {
    seq!['l', 'i', 's', 't', '_', 'a', 'p', 'p', 'e', 'n', 'd']
}

pub open spec fn word_if_not_exists() -> Seq<char> {
    seq!['i', 'f', '_', 'n', 'o', 't', '_', 'e', 'x', 'i', 's', 't', 's']
}

/// An argument of `list_append` at `i`: a list literal or a path.
pub open spec fn list_param(s: Seq<char>, i: int) -> Option<(Res<ListParamSpec>, int)> {
    if at(s, i, '[') {
        match lit(s, i) {
            Some((Ok(l), e)) => Some((Ok(ListParamSpec::List(l)), e)),
            Some((Err(err), e)) => Some((Err(err), e)),
            None => None,
        }
    } else {
        match path(s, i) {
            Some((p, e)) => Some((Ok(ListParamSpec::Path(p)), e)),
            None => None,
        }
    }
}

pub open spec fn pair_res<A, B>(a: Res<A>, b: Res<B>) -> Res<(A, B)> {
    match a {
        Err(e) => Err(e),
        Ok(x) => match b {
            Err(e) => Err(e),
            Ok(y) => Ok((x, y)),
        },
    }
}

/// `list_append(a, b)` at `i`, the name being there.
pub open spec fn list_append_call(s: Seq<char>, i: int) -> Option<(Res<FunctionSpec>, int)> {
    let p = ws_end(s, i + 11);
    if !at(s, p, '(') {
        None
    } else {
        match list_param(s, ws_end(s, p + 1)) {
            None => None,
            Some((a, e1)) => {
                let c = ws_end(s, e1);
                if !at(s, c, ',') {
                    None
                } else {
                    match list_param(s, ws_end(s, c + 1)) {
                        None => None,
                        Some((b, e2)) => {
                            let q = ws_end(s, e2);
                            if !at(s, q, ')') {
                                None
                            } else {
                                Some(
                                    (
                                        match pair_res(a, b) {
                                            Ok((x, y)) => Ok(FunctionSpec::ListAppend(x, y)),
                                            Err(e) => Err(e),
                                        },
                                        q + 1,
                                    ),
                                )
                            }
                        },
                    }
                }
            },
        }
    }
}

/// `if_not_exists(path, value)` at `i`, the name being there.
pub open spec fn if_not_exists_call(s: Seq<char>, i: int) -> Option<(Res<FunctionSpec>, int)>
    decreases remaining(s.len() as int, i), 0int,
{
    let p = ws_end(s, i + 13);
    proof {
        lemma_ws_end(s, i + 13);
    }
    if !at(s, p, '(') {
        None
    } else {
        match path(s, ws_end(s, p + 1)) {
            None => None,
            Some((pa, e1)) => {
                let c = ws_end(s, e1);
                proof {
                    lemma_ws_end(s, p + 1);
                    lemma_path_advances(s, ws_end(s, p + 1));
                    lemma_ws_end(s, e1);
                    lemma_ws_end(s, c + 1);
                }
                if !at(s, c, ',') {
                    None
                } else {
                    match value(s, ws_end(s, c + 1)) {
                        None => None,
                        Some((v, e2)) => {
                            let q = ws_end(s, e2);
                            if !at(s, q, ')') {
                                None
                            } else {
                                Some(
                                    (
                                        match v {
                                            Ok(x) => Ok(FunctionSpec::IfNotExists(pa, Box::new(x))),
                                            Err(e) => Err(e),
                                        },
                                        q + 1,
                                    ),
                                )
                            }
                        },
                    }
                }
            },
        }
    }
}

/// A function call at `i`: `list_append(a, b)` or `if_not_exists(path, value)`.
pub open spec fn function(s: Seq<char>, i: int) -> Option<(Res<FunctionSpec>, int)>
    decreases remaining(s.len() as int, i), 1int,
{
    if word_at(s, i, word_list_append()) {
        list_append_call(s, i)
    } else if word_at(s, i, word_if_not_exists()) {
        if_not_exists_call(s, i)
    } else {
        None
    }
}

/// An operand at `i`: a function call, else a literal, else a path.
pub open spec fn operand(s: Seq<char>, i: int) -> Option<(Res<OperandSpec>, int)>
    decreases remaining(s.len() as int, i), 2int,
{
    match function(s, i) {
        Some((Ok(f), e)) => Some((Ok(OperandSpec::Function(f)), e)),
        Some((Err(err), e)) => Some((Err(err), e)),
        None => match lit(s, i) {
            Some((Ok(l), e)) => Some((Ok(OperandSpec::Literal(l)), e)),
            Some((Err(err), e)) => Some((Err(err), e)),
            None => match path(s, i) {
                Some((p, e)) => Some((Ok(OperandSpec::Path(p)), e)),
                None => None,
            },
        },
    }
}

/// A value at `i`: `a + b`, `a - b` or a single operand.
pub open spec fn value(s: Seq<char>, i: int) -> Option<(Res<ValueSpec>, int)>
    decreases remaining(s.len() as int, i), 3int,
{
    if i < 0 || i >= s.len() {
        None
    } else {
        match operand(s, i) {
            None => None,
            Some((a, e1)) => if e1 <= i {
                None
            } else {
                value_tail(s, a, e1)
            },
        }
    }
}

/// The rest of a value whose first operand `a` ends at `e1`.
pub open spec fn value_tail(s: Seq<char>, a: Res<OperandSpec>, e1: int) -> Option<(Res<ValueSpec>, int)>
    decreases remaining(s.len() as int, e1), 4int,
{
    let k = ws_end(s, e1);
    proof {
        lemma_ws_end(s, e1);
        lemma_ws_end(s, k + 1);
    }
    let single = Some(
        (
            match a {
                Ok(x) => Ok(ValueSpec::Operand(x)),
                Err(e) => Err(e),
            },
            e1,
        ),
    );
    if (at(s, k, '+') || at(s, k, '-')) && operand(s, ws_end(s, k + 1)) is Some {
        let (b, e2) = operand(s, ws_end(s, k + 1)).unwrap();
        Some(
            (
                match pair_res(a, b) {
                    Ok((x, y)) => Ok(
                        if s[k] == '+' {
                            ValueSpec::Plus(x, y)
                        } else {
                            ValueSpec::Minus(x, y)
                        },
                    ),
                    Err(e) => Err(e),
                },
                e2,
            ),
        )
    } else {
        single
    }
}

/// The `path = value` actions from `j` on, separated by `,`, up to the end of the input.
pub open spec fn set_items(
    s: Seq<char>,
    j: int,
    acc: Res<Seq<(Seq<PathElementSpec>, ValueSpec)>>,
) -> Option<Res<Seq<(Seq<PathElementSpec>, ValueSpec)>>>
    decreases remaining(s.len() as int, j),
{
    match path(s, j) {
        None => None,
        Some((p, e1)) => {
            let c = ws_end(s, e1);
            if !at(s, c, '=') {
                None
            } else {
                match value(s, ws_end(s, c + 1)) {
                    None => None,
                    Some((v, e2)) => if e2 <= j {
                        None
                    } else {
                        let acc2 = match acc {
                            Err(e) => Err(e),
                            Ok(xs) => match v {
                                Err(e) => Err(e),
                                Ok(x) => Ok(xs.push((p, x))),
                            },
                        };
                        let k = ws_end(s, e2);
                        proof {
                            lemma_ws_end(s, e2);
                            lemma_ws_end(s, k + 1);
                        }
                        if k == s.len() {
                            Some(acc2)
                        } else if at(s, k, ',') {
                            set_items(s, ws_end(s, k + 1), acc2)
                        } else {
                            None
                        }
                    },
                }
            }
        },
    }
}

/// A set action: one or more `path = value`, separated by `,`.
pub open spec fn set_action(s: Seq<char>) -> Option<Res<Seq<(Seq<PathElementSpec>, ValueSpec)>>> {
    set_items(s, ws_end(s, 0), Ok(Seq::empty()))
}

/// The paths from `j` on, separated by `,`, up to the end of the input.
pub open spec fn remove_items(s: Seq<char>, j: int, acc: Seq<Seq<PathElementSpec>>) -> Option<
    Seq<Seq<PathElementSpec>>,
>
    decreases remaining(s.len() as int, j),
{
    match path(s, j) {
        None => None,
        Some((p, e)) => {
            let k = ws_end(s, e);
            proof {
                lemma_path_advances(s, j);
                lemma_ws_end(s, e);
                lemma_ws_end(s, k + 1);
            }
            if k == s.len() {
                Some(acc.push(p))
            } else if at(s, k, ',') {
                remove_items(s, ws_end(s, k + 1), acc.push(p))
            } else {
                None
            }
        },
    }
}

/// A remove action: one or more paths, separated by `,`.
pub open spec fn remove_action(s: Seq<char>) -> Option<Seq<Seq<PathElementSpec>>> {
    remove_items(s, ws_end(s, 0), Seq::empty())
}

/// The comparison of a sort key condition.
#[derive(Clone, Copy)]
pub enum CompareOp {
    Eq,
    Le,
    Lt,
    Ge,
    Gt,
}

pub open spec fn make_cond(op: CompareOp, v: AttrValSpec) -> SortKeyConditionSpec {
    match op {
        CompareOp::Eq => SortKeyConditionSpec::Eq(v),
        CompareOp::Le => SortKeyConditionSpec::Le(v),
        CompareOp::Lt => SortKeyConditionSpec::Lt(v),
        CompareOp::Ge => SortKeyConditionSpec::Ge(v),
        CompareOp::Gt => SortKeyConditionSpec::Gt(v),
    }
}

pub open spec fn word_between() -> Seq<char> {
    seq!['b', 'e', 't', 'w', 'e', 'e', 'n']
}

pub open spec fn word_and() -> Seq<char> {
    seq!['a', 'n', 'd']
}

pub open spec fn word_begins_with() -> Seq<char> {
    seq!['b', 'e', 'g', 'i', 'n', 's', '_', 'w', 'i', 't', 'h']
}

/// The comparison written at `i`, `==` or `=`, `<=`, `<`, `>=`, `>`, and the position
/// after it; the alternatives are tried in this order by [`sort_cond`].
pub open spec fn op_len(s: Seq<char>, i: int, op: CompareOp) -> int {
    match op {
        CompareOp::Eq => if word_at(s, i, seq!['=', '=']) {
            2
        } else if at(s, i, '=') {
            1
        } else {
            0
        },
        CompareOp::Le => if word_at(s, i, seq!['<', '=']) {
            2
        } else {
            0
        },
        CompareOp::Lt => if at(s, i, '<') {
            1
        } else {
            0
        },
        CompareOp::Ge => if word_at(s, i, seq!['>', '=']) {
            2
        } else {
            0
        },
        CompareOp::Gt => if at(s, i, '>') {
            1
        } else {
            0
        },
    }
}

/// The comparison `op` at `i` followed by a literal.
pub open spec fn cond_lit(s: Seq<char>, i: int, op: CompareOp) -> Option<
    (Res<SortKeyConditionSpec>, int),
> {
    if op_len(s, i, op) == 0 {
        None
    } else {
        match lit(s, ws_end(s, i + op_len(s, i, op))) {
            Some((r, e)) => Some(
                (
                    match r {
                        Ok(v) => Ok(make_cond(op, v)),
                        Err(err) => Err(err),
                    },
                    e,
                ),
            ),
            None => None,
        }
    }
}

/// `between A and B` (`and` being optional) from the literal at `j` on.
pub open spec fn between_lit(s: Seq<char>, j: int) -> Option<(Res<SortKeyConditionSpec>, int)> {
    match lit(s, ws_end(s, j)) {
        None => None,
        Some((a, e1)) => {
            let q = ws_end(s, e1);
            let q2 = if matches_ci(s, q, word_and()) {
                q + 3
            } else {
                q
            };
            match lit(s, ws_end(s, q2)) {
                None => None,
                Some((b, e2)) => Some(
                    (
                        match pair_res(a, b) {
                            Ok((x, y)) => Ok(SortKeyConditionSpec::Between(x, y)),
                            Err(e) => Err(e),
                        },
                        e2,
                    ),
                ),
            }
        },
    }
}

/// `begins_with A` from the literal at `j` on; `A` must be a string.
pub open spec fn begins_lit(s: Seq<char>, j: int) -> Option<(Res<SortKeyConditionSpec>, int)> {
    let p = ws_end(s, j);
    match lit(s, p) {
        None => None,
        Some((r, e)) => Some(
            (
                match r {
                    Ok(AttrValSpec::S(x)) => Ok(SortKeyConditionSpec::BeginsWith(AttrValSpec::S(x))),
                    Ok(_) => Err(ParseErrorSpec::InvalidBeginsWith(s.subrange(p, e))),
                    Err(err) => Err(err),
                },
                e,
            ),
        ),
    }
}

/// A sort key condition at `i`.
pub open spec fn sort_cond(s: Seq<char>, i: int) -> Option<(Res<SortKeyConditionSpec>, int)> {
    if cond_lit(s, i, CompareOp::Eq) is Some {
        cond_lit(s, i, CompareOp::Eq)
    } else if cond_lit(s, i, CompareOp::Le) is Some {
        cond_lit(s, i, CompareOp::Le)
    } else if cond_lit(s, i, CompareOp::Lt) is Some {
        cond_lit(s, i, CompareOp::Lt)
    } else if cond_lit(s, i, CompareOp::Ge) is Some {
        cond_lit(s, i, CompareOp::Ge)
    } else if cond_lit(s, i, CompareOp::Gt) is Some {
        cond_lit(s, i, CompareOp::Gt)
    } else if matches_ci(s, i, word_between()) {
        between_lit(s, i + 7)
    } else if matches_ci(s, i, word_begins_with()) {
        begins_lit(s, i + 11)
    } else {
        None
    }
}

/// A sort key condition taking the whole input.
pub open spec fn sort_key(s: Seq<char>) -> Option<Res<SortKeyConditionSpec>> {
    match sort_cond(s, ws_end(s, 0)) {
        Some((r, e)) => if ws_end(s, e) == s.len() {
            Some(r)
        } else {
            None
        },
        None => None,
    }
}

/// An unquoted string at `j` (after white space), as a string value.
pub open spec fn bare(s: Seq<char>, j: int) -> Option<(AttrValSpec, int)> {
    let p = ws_end(s, j);
    if bare_end(s, p) > p {
        Some((AttrValSpec::S(s.subrange(p, bare_end(s, p))), bare_end(s, p)))
    } else {
        None
    }
}

/// The comparison `op` at `i` followed by an unquoted string.
pub open spec fn cond_bare(s: Seq<char>, i: int, op: CompareOp) -> Option<
    (SortKeyConditionSpec, int),
> {
    if op_len(s, i, op) == 0 {
        None
    } else {
        match bare(s, i + op_len(s, i, op)) {
            Some((v, e)) => Some((make_cond(op, v), e)),
            None => None,
        }
    }
}

/// A sort key condition of the lenient grammar at `i`, whose values are unquoted strings.
pub open spec fn sort_cond_str(s: Seq<char>, i: int) -> Option<(SortKeyConditionSpec, int)> {
    if cond_bare(s, i, CompareOp::Eq) is Some {
        cond_bare(s, i, CompareOp::Eq)
    } else if cond_bare(s, i, CompareOp::Le) is Some {
        cond_bare(s, i, CompareOp::Le)
    } else if cond_bare(s, i, CompareOp::Lt) is Some {
        cond_bare(s, i, CompareOp::Lt)
    } else if cond_bare(s, i, CompareOp::Ge) is Some {
        cond_bare(s, i, CompareOp::Ge)
    } else if cond_bare(s, i, CompareOp::Gt) is Some {
        cond_bare(s, i, CompareOp::Gt)
    } else if matches_ci(s, i, word_between()) && bare(s, i + 7) is Some && ({
        let (a, e1) = bare(s, i + 7).unwrap();
        let q = ws_end(s, e1);
        let q2 = if matches_ci(s, q, word_and()) {
            q + 3
        } else {
            q
        };
        bare(s, q2) is Some
    }) {
        let (a, e1) = bare(s, i + 7).unwrap();
        let q = ws_end(s, e1);
        let q2 = if matches_ci(s, q, word_and()) {
            q + 3
        } else {
            q
        };
        let (b, e2) = bare(s, q2).unwrap();
        Some((SortKeyConditionSpec::Between(a, b), e2))
    } else if matches_ci(s, i, word_begins_with()) && bare(s, i + 11) is Some {
        let (a, e) = bare(s, i + 11).unwrap();
        Some((SortKeyConditionSpec::BeginsWith(a), e))
    } else {
        match bare(s, i) {
            Some((a, e)) => Some((SortKeyConditionSpec::Eq(a), e)),
            None => None,
        }
    }
}

/// A sort key condition of the lenient grammar for strings, taking the whole input.
pub open spec fn sort_key_str(s: Seq<char>) -> Option<SortKeyConditionSpec> {
    match sort_cond_str(s, ws_end(s, 0)) {
        Some((c, e)) => if ws_end(s, e) == s.len() {
            Some(c)
        } else {
            None
        },
        None => None,
    }
}

/// A sort key condition of the lenient grammar for numbers: a number alone, taking the
/// whole input.
pub open spec fn sort_key_number(s: Seq<char>) -> Option<SortKeyConditionSpec> {
    let i = ws_end(s, 0);
    match number_end(s, i) {
        Some(e) => if ws_end(s, e) == s.len() {
            Some(SortKeyConditionSpec::Eq(AttrValSpec::N(s.subrange(i, e))))
        } else {
            None
        },
        None => None,
    }
}

pub proof fn lemma_quoted_name(s: Seq<char>, j: int, acc: Seq<char>)
    ensures
        quoted_name(s, j, acc) matches Some((_, e)) ==> j < e <= s.len(),
    decreases remaining(s.len() as int, j),
{
    if 0 <= j < s.len() {
        if s[j] == '`' {
            if at(s, j + 1, '`') {
                lemma_quoted_name(s, j + 2, acc.push('`'));
            }
        } else {
            lemma_quoted_name(s, j + 1, acc.push(s[j]));
        }
    }
}

pub proof fn lemma_id_end(s: Seq<char>, i: int)
    ensures
        id_end(s, i) >= i,
        0 <= i <= s.len() ==> id_end(s, i) <= s.len(),
    decreases remaining(s.len() as int, i),
{
    if 0 <= i < s.len() && crate::grammar::is_id_continue(s[i]) {
        lemma_id_end(s, i + 1);
    }
}

pub proof fn lemma_ident_advances(s: Seq<char>, i: int)
    ensures
        ident(s, i) matches Some((_, e)) ==> i < e <= s.len(),
{
    lemma_id_end(s, i + 1);
    lemma_quoted_name(s, i + 1, Seq::empty());
}

pub proof fn lemma_path_rest(s: Seq<char>, j: int, acc: Seq<PathElementSpec>)
    ensures
        path_rest(s, j, acc).1 >= j,
        0 <= j <= s.len() ==> path_rest(s, j, acc).1 <= s.len(),
    decreases remaining(s.len() as int, j),
{
    if at(s, j, '.') && ident(s, j + 1) is Some {
        let (n, e) = ident(s, j + 1).unwrap();
        lemma_ident_advances(s, j + 1);
        lemma_path_rest(s, e, acc.push(PathElementSpec::Attribute(n)));
    } else if at(s, j, '[') && digits_end(s, j + 1) > j + 1 && at(s, digits_end(s, j + 1), ']') {
        lemma_path_rest(
            s,
            digits_end(s, j + 1) + 1,
            acc.push(PathElementSpec::Index(s.subrange(j + 1, digits_end(s, j + 1)))),
        );
    }
}

pub proof fn lemma_path_advances(s: Seq<char>, i: int)
    ensures
        path(s, i) matches Some((_, e)) ==> i < e <= s.len(),
{
    lemma_ident_advances(s, i);
    if let Some((n, e)) = ident(s, i) {
        lemma_path_rest(s, e, seq![PathElementSpec::Attribute(n)]);
    }
}

} // verus!
