//! The grammar of the expression language: literals, attribute paths, update
//! actions and sort key conditions.
//!
//! Each rule is a function from the input characters and a position to what the
//! rule reads there: `None` when the rule does not match, otherwise the value it
//! stands for (or the first error met while converting a literal) and the position
//! after it. Alternatives are tried in order and the first that matches is taken;
//! the characters ` `, `\t`, `\n` and `\r` may stand between any two tokens.
use vstd::prelude::*;
use vstd::utf8::encode_utf8;
use crate::ast::{
    FunctionSpec, ListParamSpec, OperandSpec, PathElementSpec, SortKeyConditionSpec, ValueSpec,
};
use crate::b64::b64_literal_value;
use crate::error::ParseErrorSpec;
use crate::escape::{remaining, unescape_bytes, unescape_dq, ByteState};
use crate::text::is_ws;
use crate::value::AttrValSpec;
use crate::unicode::{unicode_id_continue, unicode_id_start};

verus! {

pub type Res<T> = Result<T, ParseErrorSpec>;

/// Whether position `i` of `s` holds the character `c`.
pub open spec fn at(s: Seq<char>, i: int, c: char) -> bool {
    0 <= i < s.len() && s[i] == c
}

/// Whether the word `w` stands at position `i` of `s`.
pub open spec fn word_at(s: Seq<char>, i: int, w: Seq<char>) -> bool {
    0 <= i && i + w.len() <= s.len() && s.subrange(i, i + w.len()) == w
}

pub open spec fn ascii_lower(c: char) -> char {
    if 65 <= (c as u32) <= 90 {
        ((c as u32) + 32) as char
    } else {
        c
    }
}

/// Whether the lower case word `w` stands at position `i` of `s`, ignoring ASCII case.
pub open spec fn matches_ci(s: Seq<char>, i: int, w: Seq<char>) -> bool {
    0 <= i && i + w.len() <= s.len() && forall|k: int|
        0 <= k < w.len() ==> #[trigger] ascii_lower(s[i + k]) == w[k]
}

pub open spec fn is_digit(c: char) -> bool {
    48 <= (c as u32) <= 57
}

/// A character that may begin an unquoted attribute name: an ASCII letter, `_`, or a
/// character outside ASCII of the Unicode class `ID_Start`.
pub open spec fn is_id_start(c: char) -> bool {
    let u = c as u32;
    (65 <= u <= 90) || (97 <= u <= 122) || u == 95 || (u >= 128 && unicode_id_start(c))
}

/// A character that may continue an unquoted attribute name: an ASCII letter or digit,
/// `_`, or a character outside ASCII of the Unicode class `ID_Continue`.
pub open spec fn is_id_continue(c: char) -> bool {
    let u = c as u32;
    (65 <= u <= 90) || (97 <= u <= 122) || u == 95 || is_digit(c) || (u >= 128
        && unicode_id_continue(c))
}

/// A character of an unquoted string of the lenient sort key grammar: anything but
/// white space and the quote characters `"`, `'` and `` ` ``.
pub open spec fn is_bare(c: char) -> bool {
    !is_ws(c) && c != '"' && c != '\'' && c != '`'
}

/// The position after the white space that starts at `i`.
pub open spec fn ws_end(s: Seq<char>, i: int) -> int
    decreases remaining(s.len() as int, i),
{
    if 0 <= i < s.len() && is_ws(s[i]) {
        ws_end(s, i + 1)
    } else {
        i
    }
}

/// The position after the decimal digits that start at `i`.
pub open spec fn digits_end(s: Seq<char>, i: int) -> int
    decreases remaining(s.len() as int, i),
{
    if 0 <= i < s.len() && is_digit(s[i]) {
        digits_end(s, i + 1)
    } else {
        i
    }
}

/// The position after the name characters that start at `i`.
pub open spec fn id_end(s: Seq<char>, i: int) -> int
    decreases remaining(s.len() as int, i),
{
    if 0 <= i < s.len() && is_id_continue(s[i]) {
        id_end(s, i + 1)
    } else {
        i
    }
}

/// The position after the unquoted string characters that start at `i`.
pub open spec fn bare_end(s: Seq<char>, i: int) -> int
    decreases remaining(s.len() as int, i),
{
    if 0 <= i < s.len() && is_bare(s[i]) {
        bare_end(s, i + 1)
    } else {
        i
    }
}

/// The position of the quote `q` that closes a quoted text whose inside starts at `j`,
/// a backslash escaping the character after it.
pub open spec fn esc_close(s: Seq<char>, j: int, q: char) -> Option<int>
    decreases remaining(s.len() as int, j),
{
    if j < 0 || j >= s.len() {
        None
    } else if s[j] == q {
        Some(j)
    } else if s[j] == '\\' {
        if j + 1 < s.len() {
            esc_close(s, j + 2, q)
        } else {
            None
        }
    } else {
        esc_close(s, j + 1, q)
    }
}

/// The position of the quote `q` that closes a quoted text whose inside starts at `j`.
pub open spec fn plain_close(s: Seq<char>, j: int, q: char) -> Option<int>
    decreases remaining(s.len() as int, j),
{
    if j < 0 || j >= s.len() {
        None
    } else if s[j] == q {
        Some(j)
    } else {
        plain_close(s, j + 1, q)
    }
}

/// The end of a number literal at `i`: an optional sign, digits with an optional
/// fraction (or a fraction alone), and an optional exponent.
pub open spec fn number_end(s: Seq<char>, i: int) -> Option<int> {
    let j = if at(s, i, '+') || at(s, i, '-') {
        i + 1
    } else {
        i
    };
    let d = digits_end(s, j);
    let m = if d > j {
        if at(s, d, '.') {
            digits_end(s, d + 1)
        } else {
            d
        }
    } else if at(s, j, '.') && digits_end(s, j + 1) > j + 1 {
        digits_end(s, j + 1)
    } else {
        -1
    };
    if m < 0 {
        None
    } else if at(s, m, 'e') || at(s, m, 'E') {
        let k = if at(s, m + 1, '+') || at(s, m + 1, '-') {
            m + 2
        } else {
            m + 1
        };
        if digits_end(s, k) > k {
            Some(digits_end(s, k))
        } else {
            Some(m)
        }
    } else {
        Some(m)
    }
}

/// A keyword `w` at `i` that no name character follows.
pub open spec fn keyword(s: Seq<char>, i: int, w: Seq<char>) -> bool {
    word_at(s, i, w) && !(i + w.len() < s.len() && is_id_continue(s[i + w.len()]))
}

/// A string literal at `i`: double quoted with escapes, or single quoted as is.
pub open spec fn str_lit(s: Seq<char>, i: int) -> Option<(Res<Seq<char>>, int)> {
    if at(s, i, '"') {
        match esc_close(s, i + 1, '"') {
            Some(c) => Some((unescape_dq(s.subrange(i + 1, c), 0), c + 1)),
            None => None,
        }
    } else if at(s, i, '\'') {
        match plain_close(s, i + 1, '\'') {
            Some(c) => Some((Ok(s.subrange(i + 1, c)), c + 1)),
            None => None,
        }
    } else {
        None
    }
}

pub open spec fn word_b64() -> Seq<char> {
    seq!['b', '6', '4']
}

/// A binary literal at `i`: `b64'...'`, `b64"..."`, `b'...'` or `b"..."`.
pub open spec fn bin_lit(s: Seq<char>, i: int) -> Option<(Res<Seq<u8>>, int)> {
    if word_at(s, i, word_b64()) && (at(s, i + 3, '\'') || at(s, i + 3, '"')) {
        match plain_close(s, i + 4, s[i + 3]) {
            Some(c) => Some((b64_literal_value(s.subrange(i, c + 1)), c + 1)),
            None => None,
        }
    } else if at(s, i, 'b') && (at(s, i + 1, '\'') || at(s, i + 1, '"')) {
        match esc_close(s, i + 2, s[i + 1]) {
            Some(c) => {
                let inner = s.subrange(i + 2, c);
                Some(
                    (
                        unescape_bytes(
                            encode_utf8(inner),
                            inner,
                            0,
                            ByteState::Normal,
                            s[i + 1] == '"',
                        ),
                        c + 1,
                    ),
                )
            },
            None => None,
        }
    } else {
        None
    }
}

pub open spec fn word_true() -> Seq<char> {
    seq!['t', 'r', 'u', 'e']
}

pub open spec fn word_false() -> Seq<char> {
    seq!['f', 'a', 'l', 's', 'e']
}

pub open spec fn word_null() -> Seq<char> {
    seq!['n', 'u', 'l', 'l']
}

/// Appends a converted item to converted items; the first error is kept.
pub open spec fn push_res<T>(acc: Res<Seq<T>>, r: Res<T>) -> Res<Seq<T>> {
    match acc {
        Err(e) => Err(e),
        Ok(xs) => match r {
            Ok(x) => Ok(xs.push(x)),
            Err(e) => Err(e),
        },
    }
}

/// The index of the first entry of `pairs` from `i` on whose key is `k`, or -1.
pub open spec fn key_index(pairs: Seq<(Seq<char>, AttrValSpec)>, k: Seq<char>, i: int) -> int
    decreases remaining(pairs.len() as int, i),
{
    if i < 0 || i >= pairs.len() {
        -1
    } else if pairs[i].0 == k {
        i
    } else {
        key_index(pairs, k, i + 1)
    }
}

/// The map `pairs` with `k` bound to `v`: an entry for `k` keeps its place.
pub open spec fn map_put(pairs: Seq<(Seq<char>, AttrValSpec)>, k: Seq<char>, v: AttrValSpec) -> Seq<
    (Seq<char>, AttrValSpec),
> {
    let p = key_index(pairs, k, 0);
    if p >= 0 {
        pairs.update(p, (k, v))
    } else {
        pairs.push((k, v))
    }
}

/// Adds a converted entry to a converted map; the first error (key before value) is kept.
pub open spec fn put_res(
    acc: Res<Seq<(Seq<char>, AttrValSpec)>>,
    k: Res<Seq<char>>,
    v: Res<AttrValSpec>,
) -> Res<Seq<(Seq<char>, AttrValSpec)>> {
    match acc {
        Err(e) => Err(e),
        Ok(pairs) => match k {
            Err(e) => Err(e),
            Ok(key) => match v {
                Err(e) => Err(e),
                Ok(val) => Ok(map_put(pairs, key, val)),
            },
        },
    }
}

pub open spec fn wrap<T, U>(r: Res<T>, f: spec_fn(T) -> U) -> Res<U> {
    match r {
        Ok(x) => Ok(f(x)),
        Err(e) => Err(e),
    }
}

/// A literal at `i`.
pub open spec fn lit(s: Seq<char>, i: int) -> Option<(Res<AttrValSpec>, int)>
    decreases remaining(s.len() as int, i), 1int,
{
    if i < 0 || i >= s.len() {
        None
    } else if at(s, i, '<') && at(s, i + 1, '<') {
        set_lit(s, i)
    } else if at(s, i, '[') {
        let k = ws_end(s, i + 1);
        proof {
            lemma_ws_end(s, i + 1);
        }
        if at(s, k, ']') {
            Some((Ok(AttrValSpec::L(Seq::empty())), k + 1))
        } else {
            match list_elems(s, k, Ok(Seq::empty())) {
                Some((r, e)) => Some((wrap(r, |xs| AttrValSpec::L(xs)), e)),
                None => None,
            }
        }
    } else if at(s, i, '{') {
        let k = ws_end(s, i + 1);
        proof {
            lemma_ws_end(s, i + 1);
        }
        if at(s, k, '}') {
            Some((Ok(AttrValSpec::M(Seq::empty())), k + 1))
        } else {
            match map_elems(s, k, Ok(Seq::empty())) {
                Some((r, e)) => Some((wrap(r, |xs| AttrValSpec::M(xs)), e)),
                None => None,
            }
        }
    } else if str_lit(s, i) is Some {
        let (r, e) = str_lit(s, i).unwrap();
        Some((wrap(r, |t| AttrValSpec::S(t)), e))
    } else if bin_lit(s, i) is Some {
        let (r, e) = bin_lit(s, i).unwrap();
        Some((wrap(r, |b| AttrValSpec::B(b)), e))
    } else if keyword(s, i, word_true()) {
        Some((Ok(AttrValSpec::Bool(true)), i + 4))
    } else if keyword(s, i, word_false()) {
        Some((Ok(AttrValSpec::Bool(false)), i + 5))
    } else if keyword(s, i, word_null()) {
        Some((Ok(AttrValSpec::Null(true)), i + 4))
    } else {
        match number_end(s, i) {
            Some(e) => Some((Ok(AttrValSpec::N(s.subrange(i, e))), e)),
            None => None,
        }
    }
}

/// The elements of a list literal from `k` on, each followed by `,` or the closing `]`.
pub open spec fn list_elems(s: Seq<char>, k: int, acc: Res<Seq<AttrValSpec>>) -> Option<
    (Res<Seq<AttrValSpec>>, int),
>
    decreases remaining(s.len() as int, k), 2int,
{
    match lit(s, k) {
        None => None,
        Some((r, e)) => if e <= k {
            None
        } else {
            let acc2 = push_res(acc, r);
            let p = ws_end(s, e);
            proof {
                lemma_ws_end(s, e);
                lemma_ws_end(s, p + 1);
            }
            if at(s, p, ',') {
                list_elems(s, ws_end(s, p + 1), acc2)
            } else if at(s, p, ']') {
                Some((acc2, p + 1))
            } else {
                None
            }
        },
    }
}

/// The entries of a map literal from `k` on, each followed by `,` or the closing `}`.
pub open spec fn map_elems(
    s: Seq<char>,
    k: int,
    acc: Res<Seq<(Seq<char>, AttrValSpec)>>,
) -> Option<(Res<Seq<(Seq<char>, AttrValSpec)>>, int)>
    decreases remaining(s.len() as int, k), 2int,
{
    match str_lit(s, k) {
        None => None,
        Some((kr, e1)) => {
            let c = ws_end(s, e1);
            proof {
                lemma_str_lit_advances(s, k);
                lemma_ws_end(s, e1);
                lemma_ws_end(s, c + 1);
            }
            if !at(s, c, ':') {
                None
            } else {
                let vpos = ws_end(s, c + 1);
                match lit(s, vpos) {
                    None => None,
                    Some((vr, e2)) => if e2 <= vpos {
                        None
                    } else {
                        let acc2 = put_res(acc, kr, vr);
                        let p = ws_end(s, e2);
                        proof {
                            lemma_ws_end(s, e2);
                            lemma_ws_end(s, p + 1);
                        }
                        if at(s, p, ',') {
                            map_elems(s, ws_end(s, p + 1), acc2)
                        } else if at(s, p, '}') {
                            Some((acc2, p + 1))
                        } else {
                            None
                        }
                    },
                }
            }
        },
    }
}

/// Whether `>>` closes a set literal at `p`.
pub open spec fn closes_set(s: Seq<char>, p: int) -> bool {
    at(s, p, '>') && at(s, p + 1, '>')
}

/// The string elements of a set literal from `k` on.
pub open spec fn str_set_elems(s: Seq<char>, k: int, acc: Res<Seq<Seq<char>>>) -> Option<
    (Res<Seq<Seq<char>>>, int),
>
    decreases remaining(s.len() as int, k),
{
    match str_lit(s, k) {
        None => None,
        Some((r, e)) => {
            let acc2 = push_res(acc, r);
            let p = ws_end(s, e);
            proof {
                lemma_str_lit_advances(s, k);
                lemma_ws_end(s, e);
                lemma_ws_end(s, p + 1);
            }
            if at(s, p, ',') {
                str_set_elems(s, ws_end(s, p + 1), acc2)
            } else if closes_set(s, p) {
                Some((acc2, p + 2))
            } else {
                None
            }
        },
    }
}

/// The number elements of a set literal from `k` on.
pub open spec fn num_set_elems(s: Seq<char>, k: int, acc: Seq<Seq<char>>) -> Option<
    (Seq<Seq<char>>, int),
>
    decreases remaining(s.len() as int, k),
{
    match number_end(s, k) {
        None => None,
        Some(e) => if e <= k {
            None
        } else {
            let acc2 = acc.push(s.subrange(k, e));
            let p = ws_end(s, e);
            proof {
                lemma_ws_end(s, e);
                lemma_ws_end(s, p + 1);
            }
            if at(s, p, ',') {
                num_set_elems(s, ws_end(s, p + 1), acc2)
            } else if closes_set(s, p) {
                Some((acc2, p + 2))
            } else {
                None
            }
        },
    }
}

/// The binary elements of a set literal from `k` on.
pub open spec fn bin_set_elems(s: Seq<char>, k: int, acc: Res<Seq<Seq<u8>>>) -> Option<
    (Res<Seq<Seq<u8>>>, int),
>
    decreases remaining(s.len() as int, k),
{
    match bin_lit(s, k) {
        None => None,
        Some((r, e)) => {
            let acc2 = push_res(acc, r);
            let p = ws_end(s, e);
            proof {
                lemma_bin_lit_advances(s, k);
                lemma_ws_end(s, e);
                lemma_ws_end(s, p + 1);
            }
            if at(s, p, ',') {
                bin_set_elems(s, ws_end(s, p + 1), acc2)
            } else if closes_set(s, p) {
                Some((acc2, p + 2))
            } else {
                None
            }
        },
    }
}

/// A set literal `<<...>>` at `i`: of strings, else of numbers, else of binaries.
pub open spec fn set_lit(s: Seq<char>, i: int) -> Option<(Res<AttrValSpec>, int)> {
    let k = ws_end(s, i + 2);
    match str_set_elems(s, k, Ok(Seq::empty())) {
        Some((r, e)) => Some((wrap(r, |xs| AttrValSpec::SS(xs)), e)),
        None => match num_set_elems(s, k, Seq::empty()) {
            Some((xs, e)) => Some((Ok(AttrValSpec::NS(xs)), e)),
            None => match bin_set_elems(s, k, Ok(Seq::empty())) {
                Some((r, e)) => Some((wrap(r, |xs| AttrValSpec::BS(xs)), e)),
                None => None,
            },
        },
    }
}

pub proof fn lemma_ws_end(s: Seq<char>, i: int)
    ensures
        ws_end(s, i) >= i,
        i <= s.len() ==> ws_end(s, i) <= s.len(),
        i < s.len() && 0 <= i ==> (ws_end(s, i) == i <==> !is_ws(s[i])),
    decreases remaining(s.len() as int, i),
{
    if 0 <= i < s.len() && is_ws(s[i]) {
        lemma_ws_end(s, i + 1);
    }
}

pub proof fn lemma_esc_close(s: Seq<char>, j: int, q: char)
    ensures
        esc_close(s, j, q) matches Some(c) ==> j <= c < s.len() && s[c] == q,
    decreases remaining(s.len() as int, j),
{
    if 0 <= j < s.len() && s[j] != q {
        if s[j] == '\\' {
            if j + 1 < s.len() {
                lemma_esc_close(s, j + 2, q);
            }
        } else {
            lemma_esc_close(s, j + 1, q);
        }
    }
}

pub proof fn lemma_plain_close(s: Seq<char>, j: int, q: char)
    ensures
        plain_close(s, j, q) matches Some(c) ==> j <= c < s.len() && s[c] == q,
    decreases remaining(s.len() as int, j),
{
    if 0 <= j < s.len() && s[j] != q {
        lemma_plain_close(s, j + 1, q);
    }
}

pub proof fn lemma_str_lit_advances(s: Seq<char>, i: int)
    ensures
        str_lit(s, i) matches Some((_, e)) ==> i < e <= s.len(),
{
    lemma_esc_close(s, i + 1, '"');
    lemma_plain_close(s, i + 1, '\'');
}

pub proof fn lemma_bin_lit_advances(s: Seq<char>, i: int)
    ensures
        bin_lit(s, i) matches Some((_, e)) ==> i < e <= s.len(),
{
    if word_at(s, i, word_b64()) && (at(s, i + 3, '\'') || at(s, i + 3, '"')) {
        lemma_plain_close(s, i + 4, s[i + 3]);
    } else if at(s, i, 'b') && (at(s, i + 1, '\'') || at(s, i + 1, '"')) {
        lemma_esc_close(s, i + 2, s[i + 1]);
    }
}

} // verus!
