//! Reading attribute paths, update actions and sort key conditions: the executable
//! counterpart of [`crate::rules`].
use vstd::prelude::*;
use crate::ast::{
    AtomicRemove, AtomicSet, Function, ListAppendParameter, Operand, Path, PathElement,
    PathElementSpec, SortKeyCondition, Value, ValueSpec,
};
use crate::error::{result_view, ParseError};
use crate::grammar::{at, lemma_ws_end, ws_end};
use crate::lexer::{
    at_x, is_id_start_x, number_end_x, skip_bare, skip_digits, skip_id, skip_ws, word_at_ci_x,
    word_at_x,
};
use crate::reader::lit_x;
use crate::rules::{
    begins_lit, between_lit, cond_bare, cond_lit, function, ident, if_not_exists_call,
    list_append_call, lemma_path_advances,
    lemma_quoted_name, list_param, make_cond, op_len, operand, path, path_rest, quoted_name,
    remove_action, remove_items, set_action, set_items, sort_cond, sort_cond_str, sort_key,
    sort_key_number, sort_key_str, bare, value, value_tail, word_and, word_begins_with, word_between,
    word_if_not_exists, word_list_append, CompareOp,
};
use crate::text::{string_from_chars, string_from_range};
use crate::value::{AttrVal, AttrValSpec};
use crate::views::{acc_view, lift};

verus! {

/// An attribute name at `i`.
pub fn ident_x(s: &Vec<char>, i: usize) -> (r: Option<(String, usize)>)
    requires
        i <= s.len(),
    ensures
        match r {
            Some((n, e)) => ident(s@, i as int) == Some((n@, e as int)) && i < e <= s.len(),
            None => ident(s@, i as int) is None,
        },
{
    if i < s.len() && is_id_start_x(s[i]) {
        let e = skip_id(s, i + 1);
        return Some((string_from_range(s, i, e), e));
    }
    if !at_x(s, i, '`') {
        return None;
    }
    let mut acc: Vec<char> = Vec::new();
    let mut j = i + 1;
    while j < s.len()
        invariant
            i < j,
            ident(s@, i as int) == quoted_name(s@, j as int, acc@),
        decreases s.len() - j,
    {
        if s[j] == '`' {
            if at_x(s, j + 1, '`') {
                acc.push('`');
                j = j + 2;
            } else if acc.len() > 0 {
                proof {
                    lemma_quoted_name(s@, i + 1, Seq::empty());
                }
                return Some((string_from_chars(&acc), j + 1));
            } else {
                return None;
            }
        } else {
            acc.push(s[j]);
            j = j + 1;
        }
    }
    None
}

/// An attribute path at `i`.
pub fn path_x(s: &Vec<char>, i: usize) -> (r: Option<(Path, usize)>)
    requires
        i <= s.len(),
    ensures
        match r {
            Some((p, e)) => path(s@, i as int) == Some((p@, e as int)) && i < e <= s.len(),
            None => path(s@, i as int) is None,
        },
{
    proof {
        lemma_path_advances(s@, i as int);
    }
    let (n, e0) = match ident_x(s, i) {
        Some(x) => x,
        None => {
            return None;
        },
    };
    let mut p = Path::new();
    p.add_attr(n);
    assert(p@ =~= seq![PathElementSpec::Attribute(n@)]);
    let mut j = e0;
    loop
        invariant
            i < e0 <= j <= s.len(),
            path(s@, i as int) == Some(path_rest(s@, j as int, p@)),
        decreases s.len() - j,
    {
        if at_x(s, j, '.') {
            match ident_x(s, j + 1) {
                Some((n, e)) => {
                    p.add_attr(n);
                    j = e;
                },
                None => {
                    assert(path_rest(s@, j as int, p@) == (p@, j as int));
                    return Some((p, j));
                },
            }
        } else if at_x(s, j, '[') {
            let d = skip_digits(s, j + 1);
            if d > j + 1 && at_x(s, d, ']') {
                p.add_index(string_from_range(s, j + 1, d));
                j = d + 1;
            } else {
                assert(path_rest(s@, j as int, p@) == (p@, j as int));
                return Some((p, j));
            }
        } else {
            assert(path_rest(s@, j as int, p@) == (p@, j as int));
            return Some((p, j));
        }
    }
}

/// An argument of `list_append` at `i`.
fn list_param_x(s: &Vec<char>, i: usize) -> (r: Option<(Result<ListAppendParameter, ParseError>, usize)>)
    requires
        i <= s.len(),
    ensures
        lift(r) == list_param(s@, i as int),
        r matches Some((_, e)) ==> e <= s.len(),
{
    if at_x(s, i, '[') {
        proof {
            crate::grammar::lemma_ws_end(s@, i + 1);
        }
        match lit_x(s, i) {
            Some((Ok(l), e)) => Some((Ok(ListAppendParameter::ListLiteral(l)), e)),
            Some((Err(err), e)) => Some((Err(err), e)),
            None => None,
        }
    } else {
        match path_x(s, i) {
            Some((p, e)) => Some((Ok(ListAppendParameter::Path(p)), e)),
            None => None,
        }
    }
}

/// `list_append(a, b)` at `i`, the name being there.
fn list_append_x(s: &Vec<char>, i: usize) -> (r: Option<(Result<Function, ParseError>, usize)>)
    requires
        i + 11 <= s.len(),
    ensures
        lift(r) == list_append_call(s@, i as int),
        r matches Some((_, e)) ==> e <= s.len(),
{
    let p = skip_ws(s, i + 11);
    if !at_x(s, p, '(') {
        return None;
    }
    let (a, e1) = match list_param_x(s, skip_ws(s, p + 1)) {
        Some(x) => x,
        None => {
            return None;
        },
    };
    let c = skip_ws(s, e1);
    if !at_x(s, c, ',') {
        return None;
    }
    let (b, e2) = match list_param_x(s, skip_ws(s, c + 1)) {
        Some(x) => x,
        None => {
            return None;
        },
    };
    let q = skip_ws(s, e2);
    if !at_x(s, q, ')') {
        return None;
    }
    let f = match a {
        Err(e) => Err(e),
        Ok(x) => match b {
            Err(e) => Err(e),
            Ok(y) => Ok(Function::ListAppendFunction(x, y)),
        },
    };
    Some((f, q + 1))
}

/// `if_not_exists(path, value)` at `i`, the name being there.
fn if_not_exists_x(s: &Vec<char>, i: usize) -> (r: Option<(Result<Function, ParseError>, usize)>)
    requires
        i + 13 <= s.len(),
    ensures
        lift(r) == if_not_exists_call(s@, i as int),
        r matches Some((_, e)) ==> e <= s.len(),
    decreases s.len() - i, 0int,
{
    let p = skip_ws(s, i + 13);
    if !at_x(s, p, '(') {
        return None;
    }
    let (pa, e1) = match path_x(s, skip_ws(s, p + 1)) {
        Some(x) => x,
        None => {
            return None;
        },
    };
    let c = skip_ws(s, e1);
    if !at_x(s, c, ',') {
        return None;
    }
    let (v, e2) = match value_x(s, skip_ws(s, c + 1)) {
        Some(x) => x,
        None => {
            return None;
        },
    };
    let q = skip_ws(s, e2);
    if !at_x(s, q, ')') {
        return None;
    }
    let f = match v {
        Err(e) => Err(e),
        Ok(x) => Ok(Function::IfNotExistsFunction(pa, Box::new(x))),
    };
    Some((f, q + 1))
}

/// A function call at `i`.
fn function_x(s: &Vec<char>, i: usize) -> (r: Option<(Result<Function, ParseError>, usize)>)
    requires
        i <= s.len(),
    ensures
        lift(r) == function(s@, i as int),
        r matches Some((_, e)) ==> e <= s.len(),
    decreases s.len() - i, 1int,
{
    proof {
        reveal_strlit("list_append");
        reveal_strlit("if_not_exists");
        assert("list_append"@ =~= word_list_append());
        assert("if_not_exists"@ =~= word_if_not_exists());
    }
    if word_at_x(s, i, "list_append") {
        list_append_x(s, i)
    } else if word_at_x(s, i, "if_not_exists") {
        if_not_exists_x(s, i)
    } else {
        None
    }
}

/// An operand at `i`.
fn operand_x(s: &Vec<char>, i: usize) -> (r: Option<(Result<Operand, ParseError>, usize)>)
    requires
        i <= s.len(),
    ensures
        lift(r) == operand(s@, i as int),
        r matches Some((_, e)) ==> e <= s.len(),
    decreases s.len() - i, 2int,
{
    match function_x(s, i) {
        Some((Ok(f), e)) => {
            return Some((Ok(Operand::Function(f)), e));
        },
        Some((Err(err), e)) => {
            return Some((Err(err), e));
        },
        None => {},
    }
    match lit_x(s, i) {
        Some((Ok(l), e)) => {
            return Some((Ok(Operand::Literal(l)), e));
        },
        Some((Err(err), e)) => {
            return Some((Err(err), e));
        },
        None => {},
    }
    match path_x(s, i) {
        Some((p, e)) => Some((Ok(Operand::Path(p)), e)),
        None => None,
    }
}

/// A value at `i`.
pub fn value_x(s: &Vec<char>, i: usize) -> (r: Option<(Result<Value, ParseError>, usize)>)
    requires
        i <= s.len(),
    ensures
        lift(r) == value(s@, i as int),
        r matches Some((_, e)) ==> e <= s.len(),
    decreases s.len() - i, 3int,
{
    if i >= s.len() {
        return None;
    }
    let (a, e1) = match operand_x(s, i) {
        Some(x) => x,
        None => {
            return None;
        },
    };
    if e1 <= i {
        return None;
    }
    value_tail_x(s, a, e1)
}

/// The rest of a value whose first operand `a` ends at `e1`.
fn value_tail_x(s: &Vec<char>, a: Result<Operand, ParseError>, e1: usize) -> (r: Option<
    (Result<Value, ParseError>, usize),
>)
    requires
        e1 <= s.len(),
    ensures
        lift(r) == value_tail(s@, result_view(a), e1 as int),
        r matches Some((_, e)) ==> e <= s.len(),
    decreases s.len() - e1, 4int,
{
    let k = skip_ws(s, e1);
    if at_x(s, k, '+') || at_x(s, k, '-') {
        let plus = s[k] == '+';
        let ghost av = result_view(a);
        match operand_x(s, skip_ws(s, k + 1)) {
            Some((b, e2)) => {
                let ghost bv = result_view(b);
                let v = match a {
                    Err(e) => Err(e),
                    Ok(x) => match b {
                        Err(e) => Err(e),
                        Ok(y) => Ok(
                            if plus {
                                Value::PlusExpression(x, y)
                            } else {
                                Value::MinusExpression(x, y)
                            },
                        ),
                    },
                };
                assert(result_view(v) == match crate::rules::pair_res(av, bv) {
                    Ok((x, y)) => Ok(
                        if s@[k as int] == '+' {
                            ValueSpec::Plus(x, y)
                        } else {
                            ValueSpec::Minus(x, y)
                        },
                    ),
                    Err(e) => Err(e),
                });
                return Some((v, e2));
            },
            None => {},
        }
    }
    let v = match a {
        Err(e) => Err(e),
        Ok(x) => Ok(Value::Operand(x)),
    };
    Some((v, e1))
}

pub open spec fn sets_view(v: Seq<AtomicSet>) -> Seq<(Seq<PathElementSpec>, ValueSpec)> {
    v.map_values(|x: AtomicSet| x@)
}

pub open spec fn removes_view(v: Seq<AtomicRemove>) -> Seq<Seq<PathElementSpec>> {
    v.map_values(|x: AtomicRemove| x@)
}

/// Reads a set action taking the whole input.
pub fn set_action_x(s: &Vec<char>) -> (r: Option<Result<Vec<AtomicSet>, ParseError>>)
    ensures
        match r {
            Some(x) => set_action(s@) == Some(
                match x {
                    Ok(v) => Ok(sets_view(v@)),
                    Err(e) => Err(e@),
                },
            ),
            None => set_action(s@) is None,
        },
{
    let mut pos = skip_ws(s, 0);
    let mut acc: Vec<AtomicSet> = Vec::new();
    let mut err: Option<ParseError> = None;
    assert(sets_view(acc@) =~= Seq::<(Seq<PathElementSpec>, ValueSpec)>::empty());
    loop
        invariant
            pos <= s.len(),
            set_action(s@) == set_items(s@, pos as int, acc_view(acc@, err, |a| sets_view(a))),
        decreases s.len() - pos,
    {
        let ghost before = acc_view(acc@, err, |a| sets_view(a));
        let (p, e1) = match path_x(s, pos) {
            Some(x) => x,
            None => {
                return None;
            },
        };
        let c = skip_ws(s, e1);
        if !at_x(s, c, '=') {
            return None;
        }
        let (v, e2) = match value_x(s, skip_ws(s, c + 1)) {
            Some(x) => x,
            None => {
                return None;
            },
        };
        if e2 <= pos {
            return None;
        }
        let ghost pv = p@;
        let ghost vv = result_view(v);
        if err.is_none() {
            match v {
                Err(x) => {
                    err = Some(x);
                },
                Ok(x) => {
                    let item = AtomicSet { path: p, value: x };
                    assert(sets_view(acc@.push(item)) =~= sets_view(acc@).push(item@));
                    acc.push(item);
                },
            }
        }
        assert(acc_view(acc@, err, |a| sets_view(a)) == match before {
            Err(e) => Err(e),
            Ok(xs) => match vv {
                Err(e) => Err(e),
                Ok(x) => Ok(xs.push((pv, x))),
            },
        });
        let k = skip_ws(s, e2);
        if k == s.len() {
            return Some(
                match err {
                    Some(x) => Err(x),
                    None => Ok(acc),
                },
            );
        } else if at_x(s, k, ',') {
            pos = skip_ws(s, k + 1);
        } else {
            return None;
        }
    }
}

/// Reads a remove action taking the whole input.
pub fn remove_action_x(s: &Vec<char>) -> (r: Option<Vec<AtomicRemove>>)
    ensures
        match r {
            Some(v) => remove_action(s@) == Some(removes_view(v@)),
            None => remove_action(s@) is None,
        },
{
    let mut pos = skip_ws(s, 0);
    let mut acc: Vec<AtomicRemove> = Vec::new();
    assert(removes_view(acc@) =~= Seq::<Seq<PathElementSpec>>::empty());
    loop
        invariant
            pos <= s.len(),
            remove_action(s@) == remove_items(s@, pos as int, removes_view(acc@)),
        decreases s.len() - pos,
    {
        let (p, e) = match path_x(s, pos) {
            Some(x) => x,
            None => {
                return None;
            },
        };
        let item = AtomicRemove { path: p };
        assert(removes_view(acc@.push(item)) =~= removes_view(acc@).push(item@));
        acc.push(item);
        let k = skip_ws(s, e);
        if k == s.len() {
            return Some(acc);
        } else if at_x(s, k, ',') {
            pos = skip_ws(s, k + 1);
        } else {
            return None;
        }
    }
}

} // verus!
