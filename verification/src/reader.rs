//! Reading literals: the executable counterpart of the literal rules of
//! [`crate::grammar`].
use vstd::prelude::*;
use crate::b64::parse_b64_literal;
use crate::error::{result_view, ParseError};
use crate::escape::{
    parse_binary_literal, parse_binary_string_literal, parse_double_quote_literal,
    parse_single_quote_literal,
};
use crate::grammar::{
    at, bin_lit, bin_set_elems, keyword, key_index, lemma_bin_lit_advances, lemma_esc_close,
    lemma_plain_close,
    lemma_str_lit_advances, lit, list_elems, map_elems, map_put, num_set_elems, push_res,
    put_res, set_lit, str_lit, str_set_elems, word_b64, word_false, word_null, word_true, wrap,
    Res,
};
use crate::lexer::{
    at_x, find_esc_close, find_plain_close, is_id_continue_x, number_end_x, skip_ws, word_at_x,
};
use crate::text::string_from_range;
use crate::value::{
    attr_view, attrs_view, bytes_view, pairs_view, strings_view, AttrVal, AttrValSpec,
};
use crate::views::{
    acc_view, lemma_attrs_view_push, lemma_key_index_step, lemma_pairs_view,
    lemma_pairs_view_push, lemma_pairs_view_update, lift,
};

verus! {

/// A string literal at `i`.
pub fn str_lit_x(s: &Vec<char>, i: usize) -> (r: Option<(Result<String, ParseError>, usize)>)
    requires
        i <= s.len(),
    ensures
        lift(r) == str_lit(s@, i as int),
        r matches Some((_, e)) ==> i < e <= s.len(),
{
    if at_x(s, i, '"') {
        match find_esc_close(s, i + 1, '"') {
            Some(c) => {
                let text = string_from_range(s, i, c + 1);
                proof {
                    lemma_esc_close(s@, i + 1, '"');
                    assert(text@[0] == '"');
                    assert(text@.last() == '"');
                }
                assert(text@.subrange(1, text@.len() - 1) =~= s@.subrange(i + 1, c as int));
                Some((parse_double_quote_literal(text.as_str()), c + 1))
            },
            None => None,
        }
    } else if at_x(s, i, '\'') {
        match find_plain_close(s, i + 1, '\'') {
            Some(c) => {
                let text = string_from_range(s, i, c + 1);
                proof {
                    lemma_plain_close(s@, i + 1, '\'');
                    assert(text@[0] == '\'');
                    assert(text@.last() == '\'');
                }
                assert(text@.subrange(1, text@.len() - 1) =~= s@.subrange(i + 1, c as int));
                Some((Ok(parse_single_quote_literal(text.as_str())), c + 1))
            },
            None => None,
        }
    } else {
        None
    }
}

/// A binary literal at `i`.
pub fn bin_lit_x(s: &Vec<char>, i: usize) -> (r: Option<(Result<Vec<u8>, ParseError>, usize)>)
    requires
        i <= s.len(),
    ensures
        lift(r) == bin_lit(s@, i as int),
        r matches Some((_, e)) ==> i < e <= s.len(),
{
    proof {
        reveal_strlit("b64");
        assert("b64"@ =~= word_b64());
    }
    if word_at_x(s, i, "b64") && (at_x(s, i + 3, '\'') || at_x(s, i + 3, '"')) {
        let q = s[i + 3];
        match find_plain_close(s, i + 4, q) {
            Some(c) => {
                let text = string_from_range(s, i, c + 1);
                proof {
                    lemma_plain_close(s@, i + 4, q);
                    assert(s@.subrange(i as int, i + 3) == word_b64());
                    assert(s@.subrange(i as int, i + 3)[0] == 'b');
                    assert(s@.subrange(i as int, i + 3)[1] == '6');
                    assert(s@.subrange(i as int, i + 3)[2] == '4');
                    assert(text@[0] == 'b');
                    assert(text@[1] == '6');
                    assert(text@[2] == '4');
                    assert(text@[3] == q);
                    assert(text@.last() == q);
                    assert(forall|k: int| 0 <= k < 4 ==> crate::escape::is_one_byte(#[trigger] text@[k]));
                }
                assert(text@ =~= s@.subrange(i as int, c + 1));
                Some((parse_b64_literal(text.as_str()), c + 1))
            },
            None => None,
        }
    } else if at_x(s, i, 'b') && (at_x(s, i + 1, '\'') || at_x(s, i + 1, '"')) {
        let q = s[i + 1];
        match find_esc_close(s, i + 2, q) {
            Some(c) => {
                let text = string_from_range(s, i + 1, c + 1);
                proof {
                    lemma_esc_close(s@, i + 2, q);
                    assert(text@[0] == q);
                    assert(text@.last() == q);
                }
                assert(text@.subrange(1, text@.len() - 1) =~= s@.subrange(i + 2, c as int));
                if q == '"' {
                    Some((parse_binary_string_literal(text.as_str()), c + 1))
                } else {
                    Some((parse_binary_literal(text.as_str()), c + 1))
                }
            },
            None => None,
        }
    } else {
        None
    }
}

/// Whether the keyword `w` (of `len` characters) stands at `i` with no name character
/// after it.
fn keyword_x(s: &Vec<char>, i: usize, w: &str, len: usize) -> (r: bool)
    requires
        w@.len() == len,
    ensures
        r == keyword(s@, i as int, w@),
{
    if !word_at_x(s, i, w) {
        return false;
    }
    !(s.len() - i > len && is_id_continue_x(s[i + len]))
}

fn list_res(r: Result<Vec<AttrVal>, ParseError>) -> (o: Result<AttrVal, ParseError>)
    ensures
        result_view(o) == wrap(
            match r {
                Ok(v) => Ok(attrs_view(v@)),
                Err(e) => Err(e@),
            },
            |xs| AttrValSpec::L(xs),
        ),
{
    match r {
        Ok(v) => Ok(AttrVal::L(v)),
        Err(e) => Err(e),
    }
}

fn map_res(r: Result<Vec<(String, AttrVal)>, ParseError>) -> (o: Result<AttrVal, ParseError>)
    ensures
        result_view(o) == wrap(
            match r {
                Ok(v) => Ok(pairs_view(v@)),
                Err(e) => Err(e@),
            },
            |xs| AttrValSpec::M(xs),
        ),
{
    match r {
        Ok(v) => Ok(AttrVal::M(v)),
        Err(e) => Err(e),
    }
}

/// A literal at `i`.
pub fn lit_x(s: &Vec<char>, i: usize) -> (r: Option<(Result<AttrVal, ParseError>, usize)>)
    requires
        i <= s.len(),
    ensures
        lift(r) == lit(s@, i as int),
        r matches Some((_, e)) ==> i < e <= s.len(),
    decreases s.len() - i, 1int,
{
    if i >= s.len() {
        return None;
    }
    if at_x(s, i, '<') && at_x(s, i + 1, '<') {
        return set_lit_x(s, i);
    }
    if at_x(s, i, '[') {
        let k = skip_ws(s, i + 1);
        if at_x(s, k, ']') {
            assert(attrs_view(Seq::<AttrVal>::empty()) =~= Seq::<AttrValSpec>::empty());
            return Some((Ok(AttrVal::L(Vec::new())), k + 1));
        }
        return match list_elems_x(s, k) {
            Some((r, e)) => Some((list_res(r), e)),
            None => None,
        };
    }
    if at_x(s, i, '{') {
        let k = skip_ws(s, i + 1);
        if at_x(s, k, '}') {
            assert(pairs_view(Seq::<(String, AttrVal)>::empty()) =~= Seq::<
                (Seq<char>, AttrValSpec),
            >::empty());
            return Some((Ok(AttrVal::M(Vec::new())), k + 1));
        }
        return match map_elems_x(s, k) {
            Some((r, e)) => Some((map_res(r), e)),
            None => None,
        };
    }
    match str_lit_x(s, i) {
        Some((r, e)) => {
            return Some(
                (
                    match r {
                        Ok(t) => Ok(AttrVal::S(t)),
                        Err(x) => Err(x),
                    },
                    e,
                ),
            );
        },
        None => {},
    }
    match bin_lit_x(s, i) {
        Some((r, e)) => {
            return Some(
                (
                    match r {
                        Ok(b) => Ok(AttrVal::B(b)),
                        Err(x) => Err(x),
                    },
                    e,
                ),
            );
        },
        None => {},
    }
    proof {
        reveal_strlit("true");
        reveal_strlit("false");
        reveal_strlit("null");
        assert("true"@ =~= word_true());
        assert("false"@ =~= word_false());
        assert("null"@ =~= word_null());
    }
    if keyword_x(s, i, "true", 4) {
        return Some((Ok(AttrVal::Bool(true)), i + 4));
    }
    if keyword_x(s, i, "false", 5) {
        return Some((Ok(AttrVal::Bool(false)), i + 5));
    }
    if keyword_x(s, i, "null", 4) {
        return Some((Ok(AttrVal::Null(true)), i + 4));
    }
    match number_end_x(s, i) {
        Some(e) => Some((Ok(AttrVal::N(string_from_range(s, i, e))), e)),
        None => None,
    }
}

/// The elements of a list literal from `k` on.
fn list_elems_x(s: &Vec<char>, k: usize) -> (r: Option<(Result<Vec<AttrVal>, ParseError>, usize)>)
    requires
        k <= s.len(),
    ensures
        match r {
            Some((x, e)) => list_elems(s@, k as int, Ok(Seq::empty())) == Some(
                (
                    match x {
                        Ok(v) => Ok(attrs_view(v@)),
                        Err(err) => Err(err@),
                    },
                    e as int,
                ),
            ) && k < e <= s.len(),
            None => list_elems(s@, k as int, Ok(Seq::empty())) is None,
        },
    decreases s.len() - k, 2int,
{
    let mut pos = k;
    let mut acc: Vec<AttrVal> = Vec::new();
    let mut err: Option<ParseError> = None;
    assert(attrs_view(acc@) =~= Seq::<AttrValSpec>::empty());
    loop
        invariant
            k <= pos <= s.len(),
            list_elems(s@, k as int, Ok(Seq::empty())) == list_elems(
                s@,
                pos as int,
                acc_view(acc@, err, |a| attrs_view(a)),
            ),
        decreases s.len() - pos,
    {
        let ghost before = acc_view(acc@, err, |a| attrs_view(a));
        match lit_x(s, pos) {
            None => {
                return None;
            },
            Some((r, e)) => {
                if e <= pos {
                    return None;
                }
                if err.is_none() {
                    match r {
                        Ok(v) => {
                            proof {
                                lemma_attrs_view_push(acc@, v);
                            }
                            acc.push(v);
                        },
                        Err(x) => {
                            err = Some(x);
                        },
                    }
                }
                assert(acc_view(acc@, err, |a| attrs_view(a)) == push_res(
                    before,
                    result_view(r),
                ));
                let p = skip_ws(s, e);
                if at_x(s, p, ',') {
                    pos = skip_ws(s, p + 1);
                } else if at_x(s, p, ']') {
                    return Some(
                        (
                            match err {
                                Some(x) => Err(x),
                                None => Ok(acc),
                            },
                            p + 1,
                        ),
                    );
                } else {
                    return None;
                }
            },
        }
    }
}

/// Binds `k` to `v` in the association list `pairs`.
pub fn map_put_x(pairs: &mut Vec<(String, AttrVal)>, k: String, v: AttrVal)
    ensures
        pairs_view(final(pairs)@) == map_put(pairs_view(old(pairs)@), k@, attr_view(v)),
{
    let ghost p0 = pairs_view(pairs@);
    proof {
        lemma_pairs_view(pairs@);
    }
    let mut i: usize = 0;
    while i < pairs.len()
        invariant
            i <= pairs.len(),
            pairs@ == old(pairs)@,
            p0 == pairs_view(pairs@),
            p0.len() == pairs.len(),
            forall|j: int| 0 <= j < pairs.len() ==> #[trigger] p0[j] == (pairs@[j].0@, attr_view(pairs@[j].1)),
            key_index(p0, k@, 0) == key_index(p0, k@, i as int),
        decreases pairs.len() - i,
    {
        if pairs[i].0 == k {
            proof {
                lemma_pairs_view_update(pairs@, i as int, (k, v));
            }
            pairs.set(i, (k, v));
            return;
        }
        proof {
            lemma_key_index_step(p0, k@, i as int);
        }
        i = i + 1;
    }
    proof {
        lemma_pairs_view_push(pairs@, (k, v));
    }
    pairs.push((k, v));
}

/// The entries of a map literal from `k` on.
pub fn map_elems_x(s: &Vec<char>, k: usize) -> (r: Option<
    (Result<Vec<(String, AttrVal)>, ParseError>, usize),
>)
    requires
        k <= s.len(),
    ensures
        match r {
            Some((x, e)) => map_elems(s@, k as int, Ok(Seq::empty())) == Some(
                (
                    match x {
                        Ok(v) => Ok(pairs_view(v@)),
                        Err(err) => Err(err@),
                    },
                    e as int,
                ),
            ) && k < e <= s.len(),
            None => map_elems(s@, k as int, Ok(Seq::empty())) is None,
        },
    decreases s.len() - k, 2int,
{
    let mut pos = k;
    let mut acc: Vec<(String, AttrVal)> = Vec::new();
    let mut err: Option<ParseError> = None;
    assert(pairs_view(acc@) =~= Seq::<(Seq<char>, AttrValSpec)>::empty());
    loop
        invariant
            k <= pos <= s.len(),
            map_elems(s@, k as int, Ok(Seq::empty())) == map_elems(
                s@,
                pos as int,
                acc_view(acc@, err, |a| pairs_view(a)),
            ),
        decreases s.len() - pos,
    {
        let ghost before = acc_view(acc@, err, |a| pairs_view(a));
        let (kr, e1) = match str_lit_x(s, pos) {
            None => {
                return None;
            },
            Some(x) => x,
        };
        let c = skip_ws(s, e1);
        if !at_x(s, c, ':') {
            return None;
        }
        let vpos = skip_ws(s, c + 1);
        match lit_x(s, vpos) {
            None => {
                return None;
            },
            Some((vr, e2)) => {
                if e2 <= vpos {
                    return None;
                }
                let ghost kv = result_view(kr);
                let ghost vv = result_view(vr);
                if err.is_none() {
                    match kr {
                        Err(x) => {
                            err = Some(x);
                        },
                        Ok(key) => match vr {
                            Err(x) => {
                                err = Some(x);
                            },
                            Ok(v) => {
                                map_put_x(&mut acc, key, v);
                            },
                        },
                    }
                }
                assert(acc_view(acc@, err, |a| pairs_view(a)) == put_res(before, kv, vv));
                let p = skip_ws(s, e2);
                if at_x(s, p, ',') {
                    pos = skip_ws(s, p + 1);
                } else if at_x(s, p, '}') {
                    return Some(
                        (
                            match err {
                                Some(x) => Err(x),
                                None => Ok(acc),
                            },
                            p + 1,
                        ),
                    );
                } else {
                    return None;
                }
            },
        }
    }
}


proof fn lemma_strings_view_push(v: Seq<String>, x: String)
    ensures
        strings_view(v.push(x)) == strings_view(v).push(x@),
{
    assert(strings_view(v.push(x)) =~= strings_view(v).push(x@));
}

proof fn lemma_bytes_view_push(v: Seq<Vec<u8>>, x: Vec<u8>)
    ensures
        bytes_view(v.push(x)) == bytes_view(v).push(x@),
{
    assert(bytes_view(v.push(x)) =~= bytes_view(v).push(x@));
}

/// The string elements of a set literal from `k` on.
fn str_set_elems_x(s: &Vec<char>, k: usize) -> (r: Option<(Result<Vec<String>, ParseError>, usize)>)
    requires
        k <= s.len(),
    ensures
        match r {
            Some((x, e)) => str_set_elems(s@, k as int, Ok(Seq::empty())) == Some(
                (
                    match x {
                        Ok(v) => Ok(strings_view(v@)),
                        Err(err) => Err(err@),
                    },
                    e as int,
                ),
            ) && k < e <= s.len(),
            None => str_set_elems(s@, k as int, Ok(Seq::empty())) is None,
        },
{
    let mut pos = k;
    let mut acc: Vec<String> = Vec::new();
    let mut err: Option<ParseError> = None;
    assert(strings_view(acc@) =~= Seq::<Seq<char>>::empty());
    loop
        invariant
            k <= pos <= s.len(),
            str_set_elems(s@, k as int, Ok(Seq::empty())) == str_set_elems(
                s@,
                pos as int,
                acc_view(acc@, err, |a| strings_view(a)),
            ),
        decreases s.len() - pos,
    {
        let ghost before = acc_view(acc@, err, |a| strings_view(a));
        match str_lit_x(s, pos) {
            None => {
                return None;
            },
            Some((r, e)) => {
                let ghost rv = result_view(r);
                if err.is_none() {
                    match r {
                        Ok(v) => {
                            proof {
                                lemma_strings_view_push(acc@, v);
                            }
                            acc.push(v);
                        },
                        Err(x) => {
                            err = Some(x);
                        },
                    }
                }
                assert(acc_view(acc@, err, |a| strings_view(a)) == push_res(before, rv));
                let p = skip_ws(s, e);
                if at_x(s, p, ',') {
                    pos = skip_ws(s, p + 1);
                } else if at_x(s, p, '>') && at_x(s, p + 1, '>') {
                    return Some(
                        (
                            match err {
                                Some(x) => Err(x),
                                None => Ok(acc),
                            },
                            p + 2,
                        ),
                    );
                } else {
                    return None;
                }
            },
        }
    }
}

/// The number elements of a set literal from `k` on.
fn num_set_elems_x(s: &Vec<char>, k: usize) -> (r: Option<(Vec<String>, usize)>)
    requires
        k <= s.len(),
    ensures
        match r {
            Some((v, e)) => num_set_elems(s@, k as int, Seq::empty()) == Some(
                (strings_view(v@), e as int),
            ) && k < e <= s.len(),
            None => num_set_elems(s@, k as int, Seq::empty()) is None,
        },
{
    let mut pos = k;
    let mut acc: Vec<String> = Vec::new();
    assert(strings_view(acc@) =~= Seq::<Seq<char>>::empty());
    loop
        invariant
            k <= pos <= s.len(),
            num_set_elems(s@, k as int, Seq::empty()) == num_set_elems(
                s@,
                pos as int,
                strings_view(acc@),
            ),
        decreases s.len() - pos,
    {
        match number_end_x(s, pos) {
            None => {
                return None;
            },
            Some(e) => {
                let t = string_from_range(s, pos, e);
                proof {
                    lemma_strings_view_push(acc@, t);
                }
                acc.push(t);
                let p = skip_ws(s, e);
                if at_x(s, p, ',') {
                    pos = skip_ws(s, p + 1);
                } else if at_x(s, p, '>') && at_x(s, p + 1, '>') {
                    return Some((acc, p + 2));
                } else {
                    return None;
                }
            },
        }
    }
}

/// The binary elements of a set literal from `k` on.
fn bin_set_elems_x(s: &Vec<char>, k: usize) -> (r: Option<(Result<Vec<Vec<u8>>, ParseError>, usize)>)
    requires
        k <= s.len(),
    ensures
        match r {
            Some((x, e)) => bin_set_elems(s@, k as int, Ok(Seq::empty())) == Some(
                (
                    match x {
                        Ok(v) => Ok(bytes_view(v@)),
                        Err(err) => Err(err@),
                    },
                    e as int,
                ),
            ) && k < e <= s.len(),
            None => bin_set_elems(s@, k as int, Ok(Seq::empty())) is None,
        },
{
    let mut pos = k;
    let mut acc: Vec<Vec<u8>> = Vec::new();
    let mut err: Option<ParseError> = None;
    assert(bytes_view(acc@) =~= Seq::<Seq<u8>>::empty());
    loop
        invariant
            k <= pos <= s.len(),
            bin_set_elems(s@, k as int, Ok(Seq::empty())) == bin_set_elems(
                s@,
                pos as int,
                acc_view(acc@, err, |a| bytes_view(a)),
            ),
        decreases s.len() - pos,
    {
        let ghost before = acc_view(acc@, err, |a| bytes_view(a));
        match bin_lit_x(s, pos) {
            None => {
                return None;
            },
            Some((r, e)) => {
                let ghost rv = result_view(r);
                if err.is_none() {
                    match r {
                        Ok(v) => {
                            proof {
                                lemma_bytes_view_push(acc@, v);
                            }
                            acc.push(v);
                        },
                        Err(x) => {
                            err = Some(x);
                        },
                    }
                }
                assert(acc_view(acc@, err, |a| bytes_view(a)) == push_res(before, rv));
                let p = skip_ws(s, e);
                if at_x(s, p, ',') {
                    pos = skip_ws(s, p + 1);
                } else if at_x(s, p, '>') && at_x(s, p + 1, '>') {
                    return Some(
                        (
                            match err {
                                Some(x) => Err(x),
                                None => Ok(acc),
                            },
                            p + 2,
                        ),
                    );
                } else {
                    return None;
                }
            },
        }
    }
}

/// A set literal at `i`, which starts with `<<`.
fn set_lit_x(s: &Vec<char>, i: usize) -> (r: Option<(Result<AttrVal, ParseError>, usize)>)
    requires
        i + 2 <= s.len(),
    ensures
        lift(r) == set_lit(s@, i as int),
        r matches Some((_, e)) ==> i < e <= s.len(),
{
    let k = skip_ws(s, i + 2);
    match str_set_elems_x(s, k) {
        Some((r, e)) => {
            return Some(
                (
                    match r {
                        Ok(v) => Ok(AttrVal::SS(v)),
                        Err(x) => Err(x),
                    },
                    e,
                ),
            );
        },
        None => {},
    }
    match num_set_elems_x(s, k) {
        Some((v, e)) => {
            return Some((Ok(AttrVal::NS(v)), e));
        },
        None => {},
    }
    match bin_set_elems_x(s, k) {
        Some((r, e)) => Some(
            (
                match r {
                    Ok(v) => Ok(AttrVal::BS(v)),
                    Err(x) => Err(x),
                },
                e,
            ),
        ),
        None => None,
    }
}

} // verus!
