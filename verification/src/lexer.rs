//! Reading tokens of the expression language from a character vector.
use vstd::prelude::*;
use crate::escape::remaining;
use crate::grammar::{
    ascii_lower, at, bare_end, digits_end, esc_close, id_end, is_bare, is_digit, is_id_continue,
    is_id_start, lemma_ws_end, matches_ci, number_end, plain_close, word_at, ws_end,
};
use crate::text::is_ws;
use crate::unicode::{id_continue, id_start};

verus! {

pub fn at_x(s: &Vec<char>, i: usize, c: char) -> (r: bool)
    ensures
        r == at(s@, i as int, c),
{
    i < s.len() && s[i] == c
}

pub fn is_ws_x(c: char) -> (r: bool)
    ensures
        r == is_ws(c),
{
    c == ' ' || c == '\t' || c == '\n' || c == '\r'
}

pub fn is_digit_x(c: char) -> (r: bool)
    ensures
        r == is_digit(c),
{
    let u = c as u32;
    48 <= u && u <= 57
}

pub fn is_id_start_x(c: char) -> (r: bool)
    ensures
        r == is_id_start(c),
{
    let u = c as u32;
    (65 <= u && u <= 90) || (97 <= u && u <= 122) || u == 95 || (u >= 128 && id_start(c))
}

pub fn is_id_continue_x(c: char) -> (r: bool)
    ensures
        r == is_id_continue(c),
{
    let u = c as u32;
    (65 <= u && u <= 90) || (97 <= u && u <= 122) || u == 95 || is_digit_x(c) || (u >= 128
        && id_continue(c))
}

pub fn is_bare_x(c: char) -> (r: bool)
    ensures
        r == is_bare(c),
{
    !is_ws_x(c) && c != '"' && c != '\'' && c != '`'
}

/// The position after the white space at `i`.
pub fn skip_ws(s: &Vec<char>, i: usize) -> (r: usize)
    requires
        i <= s.len(),
    ensures
        r == ws_end(s@, i as int),
        i <= r <= s.len(),
{
    let mut j = i;
    while j < s.len() && is_ws_x(s[j])
        invariant
            i <= j <= s.len(),
            ws_end(s@, i as int) == ws_end(s@, j as int),
        decreases s.len() - j,
    {
        j = j + 1;
    }
    j
}

/// The position after the digits at `i`.
pub fn skip_digits(s: &Vec<char>, i: usize) -> (r: usize)
    requires
        i <= s.len(),
    ensures
        r == digits_end(s@, i as int),
        i <= r <= s.len(),
{
    let mut j = i;
    while j < s.len() && is_digit_x(s[j])
        invariant
            i <= j <= s.len(),
            digits_end(s@, i as int) == digits_end(s@, j as int),
        decreases s.len() - j,
    {
        j = j + 1;
    }
    j
}

/// The position after the name characters at `i`.
pub fn skip_id(s: &Vec<char>, i: usize) -> (r: usize)
    requires
        i <= s.len(),
    ensures
        r == id_end(s@, i as int),
        i <= r <= s.len(),
{
    let mut j = i;
    while j < s.len() && is_id_continue_x(s[j])
        invariant
            i <= j <= s.len(),
            id_end(s@, i as int) == id_end(s@, j as int),
        decreases s.len() - j,
    {
        j = j + 1;
    }
    j
}

/// The position after the unquoted string characters at `i`.
pub fn skip_bare(s: &Vec<char>, i: usize) -> (r: usize)
    requires
        i <= s.len(),
    ensures
        r == bare_end(s@, i as int),
        i <= r <= s.len(),
{
    let mut j = i;
    while j < s.len() && is_bare_x(s[j])
        invariant
            i <= j <= s.len(),
            bare_end(s@, i as int) == bare_end(s@, j as int),
        decreases s.len() - j,
    {
        j = j + 1;
    }
    j
}

/// The closing quote `q` of a quoted text with escapes whose inside starts at `j`.
pub fn find_esc_close(s: &Vec<char>, j: usize, q: char) -> (r: Option<usize>)
    requires
        j <= s.len(),
    ensures
        r matches Some(c) ==> esc_close(s@, j as int, q) == Some(c as int) && j <= c < s.len(),
        r is None ==> esc_close(s@, j as int, q) is None,
{
    let mut k = j;
    while k < s.len()
        invariant
            j <= k <= s.len(),
            esc_close(s@, j as int, q) == esc_close(s@, k as int, q),
        decreases s.len() - k,
    {
        if s[k] == q {
            return Some(k);
        } else if s[k] == '\\' {
            if s.len() - k < 2 {
                return None;
            }
            k = k + 2;
        } else {
            k = k + 1;
        }
    }
    None
}

/// The closing quote `q` of a quoted text whose inside starts at `j`.
pub fn find_plain_close(s: &Vec<char>, j: usize, q: char) -> (r: Option<usize>)
    requires
        j <= s.len(),
    ensures
        r matches Some(c) ==> plain_close(s@, j as int, q) == Some(c as int) && j <= c < s.len(),
        r is None ==> plain_close(s@, j as int, q) is None,
{
    let mut k = j;
    while k < s.len()
        invariant
            j <= k <= s.len(),
            plain_close(s@, j as int, q) == plain_close(s@, k as int, q),
        decreases s.len() - k,
    {
        if s[k] == q {
            return Some(k);
        }
        k = k + 1;
    }
    None
}

/// Whether the characters of `w` stand at `i`.
pub fn word_at_x(s: &Vec<char>, i: usize, w: &str) -> (r: bool)
    ensures
        r == word_at(s@, i as int, w@),
{
    let wv = crate::text::chars_of(w);
    if i > s.len() || s.len() - i < wv.len() {
        return false;
    }
    let mut k: usize = 0;
    while k < wv.len()
        invariant
            i + wv.len() <= s.len(),
            wv@ == w@,
            k <= wv.len(),
            forall|m: int| 0 <= m < k ==> s@[i + m] == wv@[m],
        decreases wv.len() - k,
    {
        if s[i + k] != wv[k] {
            assert(s@.subrange(i as int, i + wv.len())[k as int] != w@[k as int]);
            return false;
        }
        k = k + 1;
    }
    assert(s@.subrange(i as int, i + wv.len()) =~= w@);
    true
}

pub fn ascii_lower_x(c: char) -> (r: char)
    ensures
        r == ascii_lower(c),
{
    let u = c as u32;
    if 65 <= u && u <= 90 {
        match crate::text::char_from_u32(u + 32) {
            Some(l) => l,
            None => c,
        }
    } else {
        c
    }
}

/// Whether the lower case word `w` stands at `i`, ignoring ASCII case.
pub fn word_at_ci_x(s: &Vec<char>, i: usize, w: &str) -> (r: bool)
    ensures
        r == matches_ci(s@, i as int, w@),
{
    let wv = crate::text::chars_of(w);
    if i > s.len() || s.len() - i < wv.len() {
        return false;
    }
    let mut k: usize = 0;
    while k < wv.len()
        invariant
            i + wv.len() <= s.len(),
            wv@ == w@,
            k <= wv.len(),
            forall|m: int| 0 <= m < k ==> #[trigger] ascii_lower(s@[i + m]) == wv@[m],
        decreases wv.len() - k,
    {
        if ascii_lower_x(s[i + k]) != wv[k] {
            return false;
        }
        k = k + 1;
    }
    true
}

/// The end of a number literal at `i`.
pub fn number_end_x(s: &Vec<char>, i: usize) -> (r: Option<usize>)
    requires
        i <= s.len(),
    ensures
        r matches Some(e) ==> number_end(s@, i as int) == Some(e as int) && i < e <= s.len(),
        r is None ==> number_end(s@, i as int) is None,
{
    let j = if at_x(s, i, '+') || at_x(s, i, '-') {
        i + 1
    } else {
        i
    };
    let d = skip_digits(s, j);
    let m: usize;
    if d > j {
        if at_x(s, d, '.') {
            m = skip_digits(s, d + 1);
        } else {
            m = d;
        }
    } else if at_x(s, j, '.') && skip_digits(s, j + 1) > j + 1 {
        m = skip_digits(s, j + 1);
    } else {
        return None;
    }
    if at_x(s, m, 'e') || at_x(s, m, 'E') {
        let k = if at_x(s, m + 1, '+') || at_x(s, m + 1, '-') {
            m + 2
        } else {
            m + 1
        };
        let e = skip_digits(s, k);
        if e > k {
            Some(e)
        } else {
            Some(m)
        }
    } else {
        Some(m)
    }
}

} // verus!
