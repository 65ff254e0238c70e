//! Escape sequences of string and binary literals, and the JSON-style escaping
//! used when a value is written back out.
use vstd::prelude::*;
use crate::error::{
    result_view, EscapeByteError, EscapeCharError, EscapeCharUnexpectedEndOfSequenceError, InvalidUnicodeCharError,
    ParseError, ParseErrorSpec,
};
use crate::text::{
    char_from_u32, chars_of, is_scalar_value, string_from_chars, string_from_range,
};
use vstd::string::{StrSliceExecFns, StringSliceAdditionalSpecFns};
use vstd::utf8::encode_utf8;

verus! {

/// The value of a hexadecimal digit character.
pub open spec fn hex_char_value(c: char) -> Option<int> {
    let u = c as u32;
    if 48 <= u <= 57 {
        Some(u - 48)
    } else if 97 <= u <= 102 {
        Some(u - 87)
    } else if 65 <= u <= 70 {
        Some(u - 55)
    } else {
        None
    }
}

/// Reads `n` hexadecimal digits at `j`, for the escape sequence that starts at `esc`.
pub open spec fn hex_digits(s: Seq<char>, j: int, n: nat, acc: int, esc: int) -> Result<
    int,
    ParseErrorSpec,
>
    decreases n,
{
    if n == 0 {
        Ok(acc)
    } else if j >= s.len() {
        Err(ParseErrorSpec::UnexpectedEnd(s, esc))
    } else {
        match hex_char_value(s[j]) {
            None => Err(ParseErrorSpec::InvalidEscapeChar(s, s[j], esc)),
            Some(d) => hex_digits(s, j + 1, (n - 1) as nat, acc * 16 + d, esc),
        }
    }
}

/// The character that a one-letter escape `\c` stands for in a double quoted string.
pub open spec fn simple_escape(c: char) -> char {
    if c == '0' {
        '\0'
    } else if c == 'b' {
        '\x08'
    } else if c == 'f' {
        '\x0c'
    } else if c == 'n' {
        '\n'
    } else if c == 'r' {
        '\r'
    } else if c == 't' {
        '\t'
    } else {
        c
    }
}

pub open spec fn is_high_surrogate(u: int) -> bool {
    0xD800 <= u <= 0xDBFF
}

pub open spec fn is_low_surrogate(u: int) -> bool {
    0xDC00 <= u <= 0xDFFF
}

/// The scalar value that a UTF-16 surrogate pair encodes.
pub open spec fn surrogate_pair_value(hi: int, lo: int) -> int {
    0x10000 + (hi - 0xD800) * 1024 + (lo - 0xDC00)
}

pub open spec fn prepend<T, E>(c: T, r: Result<Seq<T>, E>) -> Result<Seq<T>, E> {
    match r {
        Ok(x) => Ok(seq![c] + x),
        Err(e) => Err(e),
    }
}

pub open spec fn join<T, E>(a: Seq<T>, r: Result<Seq<T>, E>) -> Result<Seq<T>, E> {
    match r {
        Ok(x) => Ok(a + x),
        Err(e) => Err(e),
    }
}

/// The text that the inside of a double quoted string literal `s` stands for,
/// reading from position `i` on.
///
/// `\0 \b \f \n \r \t` stand for NUL, backspace, form feed, newline, carriage
/// return and tab; `\uXXXX` stands for a character of the Basic Multilingual
/// Plane, or, followed by a second `\uXXXX`, for the character of a UTF-16
/// surrogate pair; any other escaped character stands for itself.
pub open spec fn unescape_dq(s: Seq<char>, i: int) -> Result<Seq<char>, ParseErrorSpec>
    decreases remaining(s.len() as int, i),
{
    if i >= s.len() || i < 0 {
        Ok(Seq::empty())
    } else if s[i] != '\\' {
        prepend(s[i], unescape_dq(s, i + 1))
    } else if i + 1 >= s.len() {
        Err(ParseErrorSpec::UnexpectedEnd(s, i))
    } else if s[i + 1] != 'u' {
        prepend(simple_escape(s[i + 1]), unescape_dq(s, i + 2))
    } else {
        match hex_digits(s, i + 2, 4, 0, i) {
            Err(e) => Err(e),
            Ok(u1) => if is_scalar_value(u1) {
                prepend((u1 as u32) as char, unescape_dq(s, i + 6))
            } else if i + 6 >= s.len() {
                Err(ParseErrorSpec::UnexpectedEnd(s, i))
            } else if s[i + 6] != '\\' {
                Err(ParseErrorSpec::InvalidUnicode(s, i + 1))
            } else if i + 7 >= s.len() {
                Err(ParseErrorSpec::UnexpectedEnd(s, i))
            } else if s[i + 7] != 'u' {
                Err(ParseErrorSpec::InvalidUnicode(s, i + 1))
            } else {
                match hex_digits(s, i + 8, 4, 0, i) {
                    Err(e) => Err(e),
                    Ok(u2) => if is_high_surrogate(u1) && is_low_surrogate(u2) {
                        prepend(
                            (surrogate_pair_value(u1, u2) as u32) as char,
                            unescape_dq(s, i + 12),
                        )
                    } else {
                        Err(ParseErrorSpec::InvalidUnicode(s, i + 1))
                    },
                }
            },
        }
    }
}

/// How many positions are left from `i` up to `n`.
pub open spec fn remaining(n: int, i: int) -> nat {
    if i < n {
        (n - i) as nat
    } else {
        0
    }
}

/// The value of a hexadecimal digit character.
pub fn hex_char(c: char) -> (r: Option<u32>)
    ensures
        match hex_char_value(c) {
            Some(d) => r == Some(d as u32),
            None => r is None,
        },
{
    let u = c as u32;
    if 48 <= u && u <= 57 {
        Some(u - 48)
    } else if 97 <= u && u <= 102 {
        Some(u - 87)
    } else if 65 <= u && u <= 70 {
        Some(u - 55)
    } else {
        None
    }
}

proof fn lemma_hex_digits_bound(s: Seq<char>, j: int, n: nat, acc: int, esc: int)
    requires
        0 <= acc,
    ensures
        hex_digits(s, j, n, acc, esc) matches Ok(v) ==> acc * pow16(n) <= v < (acc + 1)
            * pow16(n),
    decreases n,
{
    if n > 0 && j < s.len() {
        if let Some(d) = hex_char_value(s[j]) {
            lemma_hex_digits_bound(s, j + 1, (n - 1) as nat, acc * 16 + d, esc);
            let p = pow16((n - 1) as nat);
            lemma_pow16_mono(0, (n - 1) as nat);
            assert(pow16(n) == 16 * p);
            assert((acc * 16 + d) * p >= acc * 16 * p) by (nonlinear_arith)
                requires
                    d >= 0,
                    p >= 0,
                    acc >= 0,
            ;
            assert((acc * 16 + d + 1) * p <= (acc + 1) * 16 * p) by (nonlinear_arith)
                requires
                    d < 16,
                    p >= 0,
                    acc >= 0,
            ;
            assert(acc * 16 * p == acc * (16 * p)) by (nonlinear_arith);
            assert((acc + 1) * 16 * p == (acc + 1) * (16 * p)) by (nonlinear_arith);
        }
    }
}

pub open spec fn pow16(n: nat) -> int
    decreases n,
{
    if n == 0 {
        1
    } else {
        16 * pow16((n - 1) as nat)
    }
}

/// Reads four hexadecimal digits at `j` of `v` (the characters of `target`), for the escape
/// sequence that starts at `esc`.
fn hex4(v: &Vec<char>, target: &str, j: usize, esc: usize) -> (r: Result<u32, ParseError>)
    requires
        v@ == target@,
        j <= v.len(),
    ensures
        match hex_digits(v@, j as int, 4, 0, esc as int) {
            Ok(x) => r == Ok::<u32, ParseError>(x as u32) && 0 <= x < 0x10000 && j + 4 <= v.len(),
            Err(e) => r matches Err(re) && re@ == e,
        },
{
    proof {
        lemma_hex_digits_bound(v@, j as int, 4, 0, esc as int);
        lemma_hex_digits_len(v@, j as int, 4, 0, esc as int);
        lemma_pow16_4();
    }
    let mut acc: u32 = 0;
    let mut k: usize = 0;
    while k < 4
        invariant
            v@ == target@,
            j <= v.len(),
            k <= 4,
            acc < pow16(k as nat),
            hex_digits(v@, j as int, 4, 0, esc as int) == hex_digits(
                v@,
                (j + k) as int,
                (4 - k) as nat,
                acc as int,
                esc as int,
            ),
        decreases 4 - k,
    {
        if v.len() - j <= k {
            return Err(
                ParseError::UnexpectedEndOfSequence(
                    EscapeCharUnexpectedEndOfSequenceError {
                        handling_target: target.to_owned(),
                        escape_pos: esc,
                    },
                ),
            );
        }
        let c = v[j + k];
        match hex_char(c) {
            None => {
                return Err(
                    ParseError::InvalidEscapeChar(
                        EscapeCharError {
                            handling_target: target.to_owned(),
                            invalid_char: c,
                            escape_pos: esc,
                        },
                    ),
                );
            },
            Some(d) => {
                proof {
                    assert(pow16((k + 1) as nat) == 16 * pow16(k as nat));
                    assert(acc * 16 + d < pow16((k + 1) as nat)) by (nonlinear_arith)
                        requires
                            acc < pow16(k as nat),
                            d < 16,
                            pow16((k + 1) as nat) == 16 * pow16(k as nat),
                    ;
                    lemma_pow16_4();
                    assert(k < 4);
                    lemma_pow16_mono(k as nat + 1, 4);
                }
                acc = acc * 16 + d;
                k = k + 1;
            },
        }
    }
    Ok(acc)
}

proof fn lemma_hex_digits_len(s: Seq<char>, j: int, n: nat, acc: int, esc: int)
    requires
        0 <= j,
    ensures
        hex_digits(s, j, n, acc, esc) is Ok && n > 0 ==> j + n <= s.len(),
    decreases n,
{
    if n > 0 && j < s.len() {
        if let Some(d) = hex_char_value(s[j]) {
            lemma_hex_digits_len(s, j + 1, (n - 1) as nat, acc * 16 + d, esc);
        }
    }
}

proof fn lemma_pow16_4()
    ensures
        pow16(4) == 0x10000,
{
    reveal_with_fuel(pow16, 5);
}

proof fn lemma_pow16_mono(a: nat, b: nat)
    requires
        a <= b,
    ensures
        pow16(a) <= pow16(b),
        pow16(a) >= 1,
    decreases b,
{
    if a < b {
        lemma_pow16_mono(a, (b - 1) as nat);
    } else if b > 0 {
        lemma_pow16_mono(0, (b - 1) as nat);
    }
}


proof fn lemma_join_prepend<T, E>(a: Seq<T>, c: T, r: Result<Seq<T>, E>)
    ensures
        join(a, prepend(c, r)) == join(a.push(c), r),
{
    if let Ok(x) = r {
        assert(a + (seq![c] + x) =~= a.push(c) + x);
    }
}

/// The character that a one-letter escape `\c` stands for in a double quoted string.
fn simple_escape_char(c: char) -> (r: char)
    ensures
        r == simple_escape(c),
{
    if c == '0' {
        '\0'
    } else if c == 'b' {
        '\x08'
    } else if c == 'f' {
        '\x0c'
    } else if c == 'n' {
        '\n'
    } else if c == 'r' {
        '\r'
    } else if c == 't' {
        '\t'
    } else {
        c
    }
}

fn unexpected_end(target: &str, pos: usize) -> (e: ParseError)
    ensures
        e@ == ParseErrorSpec::UnexpectedEnd(target@, pos as int),
{
    ParseError::UnexpectedEndOfSequence(
        EscapeCharUnexpectedEndOfSequenceError { handling_target: target.to_owned(), escape_pos: pos },
    )
}

fn invalid_unicode(target: &str, pos: usize) -> (e: ParseError)
    ensures
        e@ == ParseErrorSpec::InvalidUnicode(target@, pos as int),
{
    ParseError::InvalidUnicodeChar(
        InvalidUnicodeCharError { handling_target: target.to_owned(), escape_pos: pos },
    )
}

/// Parse internal of double quoted string.
///
/// It accepts escape characters as the following.
///
/// | Escape Sequence | Character Represented by Sequence |
/// |-----------------|-----------------------------------|
/// |       \0        | An ASCII NUL (X'00') character    |
/// |       \b        | A backspace character             |
/// |       \f        | A form feed character             |
/// |       \n        | A newline (linefeed) character    |
/// |       \r        | A carriage return character       |
/// |       \t        | A tab character                   |
/// |       \\\"      | A double quote (") character      |
/// |       \\\'      | A single quote (') character      |
/// |       \\\\      | A backslash (\\) character        |
/// |       \\/       | A slash (/) character             |
/// |     \\uXXXX     | An arbitrary unicode character    |
pub fn parse_internal_double_quote_string(str: &str) -> (r: Result<String, ParseError>)
    ensures
        result_view(r) == unescape_dq(str@, 0),
{
    let v = chars_of(str);
    let mut out: Vec<char> = Vec::new();
    let mut i: usize = 0;
    while i < v.len()
        invariant
            v@ == str@,
            i <= v.len(),
            unescape_dq(v@, 0) == join(out@, unescape_dq(v@, i as int)),
        decreases v.len() - i,
    {
        let c = v[i];
        if c != '\\' {
            proof {
                lemma_join_prepend(out@, c, unescape_dq(v@, i + 1));
            }
            out.push(c);
            i = i + 1;
        } else if v.len() - i < 2 {
            return Err(unexpected_end(str, i));
        } else {
            let e = v[i + 1];
            if e != 'u' {
                let m = simple_escape_char(e);
                proof {
                    lemma_join_prepend(out@, m, unescape_dq(v@, i + 2));
                }
                out.push(m);
                i = i + 2;
            } else {
                let u1 = match hex4(&v, str, i + 2, i) {
                    Ok(u) => u,
                    Err(err) => {
                        return Err(err);
                    },
                };
                match char_from_u32(u1) {
                    Some(ch) => {
                        assert(ch == (u1 as u32) as char);
                        proof {
                            lemma_join_prepend(out@, ch, unescape_dq(v@, i + 6));
                        }
                        out.push(ch);
                        i = i + 6;
                    },
                    None => {
                        if v.len() - i <= 6 {
                            return Err(unexpected_end(str, i));
                        }
                        if v[i + 6] != '\\' {
                            return Err(invalid_unicode(str, i + 1));
                        }
                        if v.len() - i <= 7 {
                            return Err(unexpected_end(str, i));
                        }
                        if v[i + 7] != 'u' {
                            return Err(invalid_unicode(str, i + 1));
                        }
                        let u2 = match hex4(&v, str, i + 8, i) {
                            Ok(u) => u,
                            Err(err) => {
                                return Err(err);
                            },
                        };
                        if 0xD800 <= u1 && u1 <= 0xDBFF && 0xDC00 <= u2 && u2 <= 0xDFFF {
                            let cp: u32 = 0x10000 + (u1 - 0xD800) * 1024 + (u2 - 0xDC00);
                            match char_from_u32(cp) {
                                Some(ch) => {
                                    assert(ch == (surrogate_pair_value(
                                        u1 as int,
                                        u2 as int,
                                    ) as u32) as char);
                                    proof {
                                        lemma_join_prepend(out@, ch, unescape_dq(v@, i + 12));
                                    }
                                    out.push(ch);
                                    i = i + 12;
                                },
                                None => {
                                    return Err(invalid_unicode(str, i + 1));
                                },
                            }
                        } else {
                            return Err(invalid_unicode(str, i + 1));
                        }
                    },
                }
            }
        }
    }
    assert(out@ + Seq::<char>::empty() =~= out@);
    Ok(string_from_chars(&out))
}


/// The value of a hexadecimal digit byte.
pub open spec fn hex_byte_value(b: u8) -> Option<u8> {
    if 48 <= b <= 57 {
        Some((b - 48) as u8)
    } else if 65 <= b <= 70 {
        Some((b - 55) as u8)
    } else if 97 <= b <= 102 {
        Some((b - 87) as u8)
    } else {
        None
    }
}

/// Parse a hex character as a byte.
///
/// `parsing_str` and `idx` are used to create an error.
pub fn hex_as_byte(parsing_str: &str, idx: usize, ch: u8) -> (r: Result<u8, ParseError>)
    ensures
        match hex_byte_value(ch) {
            Some(v) => r == Ok::<u8, ParseError>(v),
            None => r matches Err(e) && e@ == ParseErrorSpec::InvalidEscapeByte(
                parsing_str@,
                ch,
                idx as int,
            ),
        },
{
    if 48 <= ch && ch <= 57 {
        Ok(ch - 48)
    } else if 65 <= ch && ch <= 70 {
        Ok(ch - 55)
    } else if 97 <= ch && ch <= 102 {
        Ok(ch - 87)
    } else {
        Err(
            ParseError::InvalidEscapeByte(
                EscapeByteError {
                    handling_target: parsing_str.to_owned(),
                    escape_byte: ch,
                    escape_pos: idx,
                },
            ),
        )
    }
}

/// Where the reading of a binary literal stands.
pub enum ByteState {
    Normal,
    StartEscape,
    SkipSpaces,
    FirstHex,
    SecondHex(u8),
}

/// The bytes that the inside of a binary literal stands for, reading the UTF-8 bytes `b`
/// of the literal `target` from position `i` on in state `st`.
///
/// `\n \r \t \0` stand for newline, carriage return, tab and NUL, `\\ \' \"` for
/// themselves and `\xHH` for the byte with that hexadecimal value. When `continued`
/// holds (binary strings), a backslash before a line break skips the line break and
/// the white space after it. A sequence cut off by the end of the input stands for
/// nothing.
pub open spec fn unescape_bytes(
    b: Seq<u8>,
    target: Seq<char>,
    i: int,
    st: ByteState,
    continued: bool,
) -> Result<Seq<u8>, ParseErrorSpec>
    decreases remaining(b.len() as int, i),
{
    if i >= b.len() || i < 0 {
        Ok(Seq::empty())
    } else {
        let ch = b[i];
        match st {
            ByteState::Normal => if ch == 92 {
                unescape_bytes(b, target, i + 1, ByteState::StartEscape, continued)
            } else {
                prepend(ch, unescape_bytes(b, target, i + 1, ByteState::Normal, continued))
            },
            ByteState::StartEscape => if ch == 110 {
                prepend(10u8, unescape_bytes(b, target, i + 1, ByteState::Normal, continued))
            } else if ch == 114 {
                prepend(13u8, unescape_bytes(b, target, i + 1, ByteState::Normal, continued))
            } else if ch == 116 {
                prepend(9u8, unescape_bytes(b, target, i + 1, ByteState::Normal, continued))
            } else if ch == 48 {
                prepend(0u8, unescape_bytes(b, target, i + 1, ByteState::Normal, continued))
            } else if ch == 92 || ch == 39 || ch == 34 {
                prepend(ch, unescape_bytes(b, target, i + 1, ByteState::Normal, continued))
            } else if continued && (ch == 13 || ch == 10) {
                unescape_bytes(b, target, i + 1, ByteState::SkipSpaces, continued)
            } else if ch == 120 {
                unescape_bytes(b, target, i + 1, ByteState::FirstHex, continued)
            } else {
                Err(ParseErrorSpec::InvalidEscapeByte(target, ch, i))
            },
            ByteState::SkipSpaces => if ch == 32 || ch == 9 || ch == 10 || ch == 13 {
                unescape_bytes(b, target, i + 1, ByteState::SkipSpaces, continued)
            } else if ch == 92 {
                unescape_bytes(b, target, i + 1, ByteState::StartEscape, continued)
            } else {
                prepend(ch, unescape_bytes(b, target, i + 1, ByteState::Normal, continued))
            },
            ByteState::FirstHex => match hex_byte_value(ch) {
                None => Err(ParseErrorSpec::InvalidEscapeByte(target, ch, i)),
                Some(h) => unescape_bytes(b, target, i + 1, ByteState::SecondHex(h), continued),
            },
            ByteState::SecondHex(h) => match hex_byte_value(ch) {
                None => Err(ParseErrorSpec::InvalidEscapeByte(target, ch, i)),
                Some(l) => prepend(
                    (h * 16 + l) as u8,
                    unescape_bytes(b, target, i + 1, ByteState::Normal, continued),
                ),
            },
        }
    }
}

fn unescape_bytes_exec(str: &str, continued: bool) -> (r: Result<Vec<u8>, ParseError>)
    ensures
        result_view(r) == unescape_bytes(str.spec_bytes(), str@, 0, ByteState::Normal, continued),
{
    let b = str.as_bytes();
    let mut out: Vec<u8> = Vec::new();
    let mut st = ByteState::Normal;
    let mut i: usize = 0;
    while i < b.len()
        invariant
            b@ == str.spec_bytes(),
            i <= b.len(),
            unescape_bytes(b@, str@, 0, ByteState::Normal, continued) == join(
                out@,
                unescape_bytes(b@, str@, i as int, st, continued),
            ),
            st matches ByteState::SecondHex(h) ==> h < 16,
        decreases b.len() - i,
    {
        let ch = b[i];
        let ghost next = unescape_bytes(b@, str@, i + 1, ByteState::Normal, continued);
        match st {
            ByteState::Normal => {
                if ch == 92 {
                    st = ByteState::StartEscape;
                } else {
                    proof {
                        lemma_join_prepend(out@, ch, next);
                    }
                    out.push(ch);
                }
            },
            ByteState::StartEscape => {
                if ch == 110 || ch == 114 || ch == 116 || ch == 48 || ch == 92 || ch == 39 || ch
                    == 34 {
                    let v: u8 = if ch == 110 {
                        10
                    } else if ch == 114 {
                        13
                    } else if ch == 116 {
                        9
                    } else if ch == 48 {
                        0
                    } else {
                        ch
                    };
                    proof {
                        lemma_join_prepend(out@, v, next);
                    }
                    out.push(v);
                    st = ByteState::Normal;
                } else if continued && (ch == 13 || ch == 10) {
                    st = ByteState::SkipSpaces;
                } else if ch == 120 {
                    st = ByteState::FirstHex;
                } else {
                    return Err(
                        ParseError::InvalidEscapeByte(
                            EscapeByteError {
                                handling_target: str.to_owned(),
                                escape_byte: ch,
                                escape_pos: i,
                            },
                        ),
                    );
                }
            },
            ByteState::SkipSpaces => {
                if ch == 32 || ch == 9 || ch == 10 || ch == 13 {
                } else if ch == 92 {
                    st = ByteState::StartEscape;
                } else {
                    proof {
                        lemma_join_prepend(out@, ch, next);
                    }
                    out.push(ch);
                    st = ByteState::Normal;
                }
            },
            ByteState::FirstHex => {
                let h = match hex_as_byte(str, i, ch) {
                    Ok(h) => h,
                    Err(e) => {
                        return Err(e);
                    },
                };
                st = ByteState::SecondHex(h);
            },
            ByteState::SecondHex(h) => {
                let l = match hex_as_byte(str, i, ch) {
                    Ok(l) => l,
                    Err(e) => {
                        return Err(e);
                    },
                };
                let v: u8 = h * 16 + l;
                proof {
                    lemma_join_prepend(out@, v, next);
                }
                out.push(v);
                st = ByteState::Normal;
            },
        }
        i = i + 1;
    }
    assert(out@ + Seq::<u8>::empty() =~= out@);
    Ok(out)
}

/// Parse an internal of binary_literal.
///
/// We use the same semantics as rust byte literals, except that we accept multiple bytes.
pub fn parse_internal_binary_literal(str: &str) -> (r: Result<Vec<u8>, ParseError>)
    ensures
        result_view(r) == unescape_bytes(str.spec_bytes(), str@, 0, ByteState::Normal, false),
{
    unescape_bytes_exec(str, false)
}

/// Parse internal of binary_string.
///
/// We use same semantics as rust byte string literals.
pub fn parse_internal_binary_string(str: &str) -> (r: Result<Vec<u8>, ParseError>)
    ensures
        result_view(r) == unescape_bytes(str.spec_bytes(), str@, 0, ByteState::Normal, true),
{
    unescape_bytes_exec(str, true)
}

/// Whether `c` is encoded in UTF-8 as a single byte.
pub open spec fn is_one_byte(c: char) -> bool {
    (c as u32) < 0x80
}

/// A literal text whose first and last character each take a single byte.
pub open spec fn is_delimited(s: Seq<char>, prefix: int) -> bool {
    &&& s.len() >= prefix + 1
    &&& forall|k: int| 0 <= k < prefix ==> is_one_byte(#[trigger] s[k])
    &&& is_one_byte(s.last())
}

/// Parse double quoted string which accepts escape sequence.
pub fn parse_double_quote_literal(str: &str) -> (r: Result<String, ParseError>)
    requires
        is_delimited(str@, 1),
    ensures
        result_view(r) == unescape_dq(str@.subrange(1, str@.len() - 1), 0),
{
    let n = str.unicode_len();
    let inner = str.substring_char(1, n - 1);
    parse_internal_double_quote_string(inner)
}

/// Parse single quoted string as is.
pub fn parse_single_quote_literal(str: &str) -> (r: String)
    requires
        is_delimited(str@, 1),
    ensures
        r@ == str@.subrange(1, str@.len() - 1),
{
    let v = chars_of(str);
    string_from_range(&v, 1, v.len() - 1)
}

/// Parse binary literal.
pub fn parse_binary_literal(str: &str) -> (r: Result<Vec<u8>, ParseError>)
    requires
        is_delimited(str@, 1),
    ensures
        ({
            let inner = str@.subrange(1, str@.len() - 1);
            result_view(r) == unescape_bytes(encode_utf8(inner), inner, 0, ByteState::Normal, false)
        }),
{
    let n = str.unicode_len();
    let inner = str.substring_char(1, n - 1);
    parse_internal_binary_literal(inner)
}

/// Parse binary string literal.
pub fn parse_binary_string_literal(str: &str) -> (r: Result<Vec<u8>, ParseError>)
    requires
        is_delimited(str@, 1),
    ensures
        ({
            let inner = str@.subrange(1, str@.len() - 1);
            result_view(r) == unescape_bytes(encode_utf8(inner), inner, 0, ByteState::Normal, true)
        }),
{
    let n = str.unicode_len();
    let inner = str.substring_char(1, n - 1);
    parse_internal_binary_string(inner)
}

} // verus!
