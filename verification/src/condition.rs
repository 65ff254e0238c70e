//! Reading sort key conditions: the executable counterpart of the sort key rules of
//! [`crate::rules`], for the strict grammar and for the two lenient ones.
use vstd::prelude::*;
use crate::ast::{SortKeyCondition, SortKeyConditionSpec};
use crate::error::{result_view, ParseError};
use crate::grammar::word_at;
use crate::lexer::{at_x, number_end_x, skip_bare, skip_ws, word_at_ci_x, word_at_x};
use crate::reader::lit_x;
use crate::rules::{
    bare, begins_lit, between_lit, cond_bare, cond_lit, make_cond, op_len, sort_cond,
    sort_cond_str, sort_key, sort_key_number, sort_key_str, word_and, word_begins_with,
    word_between, CompareOp,
};
use crate::text::string_from_range;
use crate::value::{AttrVal, AttrValSpec};
use crate::views::lift;

verus! {

fn make_cond_x(op: CompareOp, v: AttrVal) -> (c: SortKeyCondition)
    ensures
        c@ == make_cond(op, v@),
{
    match op {
        CompareOp::Eq => SortKeyCondition::Eq(v),
        CompareOp::Le => SortKeyCondition::Le(v),
        CompareOp::Lt => SortKeyCondition::Lt(v),
        CompareOp::Ge => SortKeyCondition::Ge(v),
        CompareOp::Gt => SortKeyCondition::Gt(v),
    }
}

/// The length of the comparison `op` written at `i`, or 0.
fn op_len_x(s: &Vec<char>, i: usize, op: CompareOp) -> (n: usize)
    requires
        i <= s.len(),
    ensures
        n == op_len(s@, i as int, op),
        i + n <= s.len(),
{
    proof {
        reveal_strlit("==");
        reveal_strlit("<=");
        reveal_strlit(">=");
    }
    match op {
        CompareOp::Eq => if word_at_x(s, i, "==") {
            assert("=="@ =~= seq!['=', '=']);
            2
        } else if at_x(s, i, '=') {
            assert(!word_at(s@, i as int, seq!['=', '='])) by {
                assert("=="@ =~= seq!['=', '=']);
            }
            1
        } else {
            assert("=="@ =~= seq!['=', '=']);
            0
        },
        CompareOp::Le => {
            assert("<="@ =~= seq!['<', '=']);
            if word_at_x(s, i, "<=") {
                2
            } else {
                0
            }
        },
        CompareOp::Lt => if at_x(s, i, '<') {
            1
        } else {
            0
        },
        CompareOp::Ge => {
            assert(">="@ =~= seq!['>', '=']);
            if word_at_x(s, i, ">=") {
                2
            } else {
                0
            }
        },
        CompareOp::Gt => if at_x(s, i, '>') {
            1
        } else {
            0
        },
    }
}

/// The comparison `op` at `i` followed by a literal.
fn cond_lit_x(s: &Vec<char>, i: usize, op: CompareOp) -> (r: Option<
    (Result<SortKeyCondition, ParseError>, usize),
>)
    requires
        i <= s.len(),
    ensures
        lift(r) == cond_lit(s@, i as int, op),
        r matches Some((_, e)) ==> e <= s.len(),
{
    let n = op_len_x(s, i, op);
    if n == 0 {
        return None;
    }
    match lit_x(s, skip_ws(s, i + n)) {
        Some((Ok(v), e)) => Some((Ok(make_cond_x(op, v)), e)),
        Some((Err(err), e)) => Some((Err(err), e)),
        None => None,
    }
}

/// `between A and B` from the literal at `j` on.
fn between_lit_x(s: &Vec<char>, j: usize) -> (r: Option<(Result<SortKeyCondition, ParseError>, usize)>)
    requires
        j <= s.len(),
    ensures
        lift(r) == between_lit(s@, j as int),
        r matches Some((_, e)) ==> e <= s.len(),
{
    let (a, e1) = match lit_x(s, skip_ws(s, j)) {
        Some(x) => x,
        None => {
            return None;
        },
    };
    let q = skip_ws(s, e1);
    proof {
        reveal_strlit("and");
        assert("and"@ =~= word_and());
    }
    let q2 = if word_at_ci_x(s, q, "and") {
        q + 3
    } else {
        q
    };
    let (b, e2) = match lit_x(s, skip_ws(s, q2)) {
        Some(x) => x,
        None => {
            return None;
        },
    };
    let c = match a {
        Err(e) => Err(e),
        Ok(x) => match b {
            Err(e) => Err(e),
            Ok(y) => Ok(SortKeyCondition::Between(x, y)),
        },
    };
    Some((c, e2))
}

/// `begins_with A` from the literal at `j` on.
fn begins_lit_x(s: &Vec<char>, j: usize) -> (r: Option<(Result<SortKeyCondition, ParseError>, usize)>)
    requires
        j <= s.len(),
    ensures
        lift(r) == begins_lit(s@, j as int),
        r matches Some((_, e)) ==> e <= s.len(),
{
    let p = skip_ws(s, j);
    match lit_x(s, p) {
        None => None,
        Some((Ok(AttrVal::S(x)), e)) => Some((Ok(SortKeyCondition::BeginsWith(AttrVal::S(x))), e)),
        Some((Ok(_), e)) => {
            Some((Err(ParseError::InvalidBeginsWith(string_from_range(s, p, e))), e))
        },
        Some((Err(err), e)) => Some((Err(err), e)),
    }
}

/// A sort key condition at `i`.
#[verifier::rlimit(40)]
fn sort_cond_x(s: &Vec<char>, i: usize) -> (r: Option<(Result<SortKeyCondition, ParseError>, usize)>)
    requires
        i <= s.len(),
    ensures
        lift(r) == sort_cond(s@, i as int),
        r matches Some((_, e)) ==> e <= s.len(),
{
    let r = cond_lit_x(s, i, CompareOp::Eq);
    if r.is_some() {
        return r;
    }
    let r = cond_lit_x(s, i, CompareOp::Le);
    if r.is_some() {
        return r;
    }
    let r = cond_lit_x(s, i, CompareOp::Lt);
    if r.is_some() {
        return r;
    }
    let r = cond_lit_x(s, i, CompareOp::Ge);
    if r.is_some() {
        return r;
    }
    let r = cond_lit_x(s, i, CompareOp::Gt);
    if r.is_some() {
        return r;
    }
    proof {
        reveal_strlit("between");
        reveal_strlit("begins_with");
        assert("between"@ =~= word_between());
        assert("begins_with"@ =~= word_begins_with());
    }
    if word_at_ci_x(s, i, "between") {
        between_lit_x(s, i + 7)
    } else if word_at_ci_x(s, i, "begins_with") {
        begins_lit_x(s, i + 11)
    } else {
        None
    }
}

/// Reads a sort key condition of the strict grammar, taking the whole input.
pub fn sort_key_x(s: &Vec<char>) -> (r: Option<Result<SortKeyCondition, ParseError>>)
    ensures
        match r {
            Some(x) => sort_key(s@) == Some(result_view(x)),
            None => sort_key(s@) is None,
        },
{
    match sort_cond_x(s, skip_ws(s, 0)) {
        Some((c, e)) => if skip_ws(s, e) == s.len() {
            Some(c)
        } else {
            None
        },
        None => None,
    }
}

/// An unquoted string at `j`, after white space.
fn bare_x(s: &Vec<char>, j: usize) -> (r: Option<(AttrVal, usize)>)
    requires
        j <= s.len(),
    ensures
        match r {
            Some((v, e)) => bare(s@, j as int) == Some((v@, e as int)) && e <= s.len(),
            None => bare(s@, j as int) is None,
        },
{
    let p = skip_ws(s, j);
    let e = skip_bare(s, p);
    if e > p {
        Some((AttrVal::S(string_from_range(s, p, e)), e))
    } else {
        None
    }
}

/// The comparison `op` at `i` followed by an unquoted string.
fn cond_bare_x(s: &Vec<char>, i: usize, op: CompareOp) -> (r: Option<(SortKeyCondition, usize)>)
    requires
        i <= s.len(),
    ensures
        match r {
            Some((c, e)) => cond_bare(s@, i as int, op) == Some((c@, e as int)) && e <= s.len(),
            None => cond_bare(s@, i as int, op) is None,
        },
{
    let n = op_len_x(s, i, op);
    if n == 0 {
        return None;
    }
    match bare_x(s, i + n) {
        Some((v, e)) => Some((make_cond_x(op, v), e)),
        None => None,
    }
}

/// A sort key condition of the lenient grammar for strings at `i`.
fn sort_cond_str_x(s: &Vec<char>, i: usize) -> (r: Option<(SortKeyCondition, usize)>)
    requires
        i <= s.len(),
    ensures
        match r {
            Some((c, e)) => sort_cond_str(s@, i as int) == Some((c@, e as int)) && e <= s.len(),
            None => sort_cond_str(s@, i as int) is None,
        },
{
    let r = cond_bare_x(s, i, CompareOp::Eq);
    if r.is_some() {
        return r;
    }
    let r = cond_bare_x(s, i, CompareOp::Le);
    if r.is_some() {
        return r;
    }
    let r = cond_bare_x(s, i, CompareOp::Lt);
    if r.is_some() {
        return r;
    }
    let r = cond_bare_x(s, i, CompareOp::Ge);
    if r.is_some() {
        return r;
    }
    let r = cond_bare_x(s, i, CompareOp::Gt);
    if r.is_some() {
        return r;
    }
    proof {
        reveal_strlit("between");
        reveal_strlit("begins_with");
        reveal_strlit("and");
        assert("between"@ =~= word_between());
        assert("begins_with"@ =~= word_begins_with());
        assert("and"@ =~= word_and());
    }
    if word_at_ci_x(s, i, "between") {
        match bare_x(s, i + 7) {
            Some((a, e1)) => {
                let q = skip_ws(s, e1);
                let q2 = if word_at_ci_x(s, q, "and") {
                    q + 3
                } else {
                    q
                };
                match bare_x(s, q2) {
                    Some((b, e2)) => {
                        return Some((SortKeyCondition::Between(a, b), e2));
                    },
                    None => {},
                }
            },
            None => {},
        }
    }
    if word_at_ci_x(s, i, "begins_with") {
        match bare_x(s, i + 11) {
            Some((a, e)) => {
                return Some((SortKeyCondition::BeginsWith(a), e));
            },
            None => {},
        }
    }
    match bare_x(s, i) {
        Some((a, e)) => Some((SortKeyCondition::Eq(a), e)),
        None => None,
    }
}

/// Reads a sort key condition of the lenient grammar for strings, taking the whole input.
pub fn sort_key_str_x(s: &Vec<char>) -> (r: Option<SortKeyCondition>)
    ensures
        match r {
            Some(c) => sort_key_str(s@) == Some(c@),
            None => sort_key_str(s@) is None,
        },
{
    match sort_cond_str_x(s, skip_ws(s, 0)) {
        Some((c, e)) => if skip_ws(s, e) == s.len() {
            Some(c)
        } else {
            None
        },
        None => None,
    }
}

/// Reads a sort key condition of the lenient grammar for numbers: a number alone,
/// taking the whole input.
pub fn sort_key_number_x(s: &Vec<char>) -> (r: Option<SortKeyCondition>)
    ensures
        match r {
            Some(c) => sort_key_number(s@) == Some(c@),
            None => sort_key_number(s@) is None,
        },
{
    let i = skip_ws(s, 0);
    match number_end_x(s, i) {
        Some(e) => if skip_ws(s, e) == s.len() {
            Some(SortKeyCondition::Eq(AttrVal::N(string_from_range(s, i, e))))
        } else {
            None
        },
        None => None,
    }
}

} // verus!
