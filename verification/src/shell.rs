//! Splitting a line of the interactive shell into command line arguments.
use vstd::prelude::*;
use crate::escape::remaining;
use crate::text::{chars_of, is_unicode_ws, is_unicode_ws_x, push_char, string_from_range};

verus! {

/// The commands that the shell runs by itself.
#[derive(Debug, Clone, Copy, PartialEq, Eq, Structural)]
pub enum BuiltinCommands {
    Exit,
}

/// Why a line could not be split into arguments.
#[derive(Debug, Clone, Copy, PartialEq, Eq, Structural)]
pub enum ShellParseError {
    /// A backslash ends the line inside a quoted argument.
    IncompleteEscape,
    /// A quoted argument is not closed.
    UnclosedQuote,
}

impl ShellParseError {
    /// The message of the error.
    pub fn to_string(&self) -> (r: String)
        ensures
            r@ == match self {
                ShellParseError::IncompleteEscape => "escape('\\\\') is incomplete"@,
                ShellParseError::UnclosedQuote => "quote isn't closed"@,
            },
    {
        match self {
            ShellParseError::IncompleteEscape => String::from_str("escape('\\\\') is incomplete"),
            ShellParseError::UnclosedQuote => String::from_str("quote isn't closed"),
        }
    }
}

/// The position after the white space that starts at `i`.
pub open spec fn ws_skipped(s: Seq<char>, i: int) -> int
    decreases remaining(s.len() as int, i),
{
    if 0 <= i < s.len() && is_unicode_ws(s[i]) {
        ws_skipped(s, i + 1)
    } else {
        i
    }
}

/// The position of the first space from `i` on, or the end.
pub open spec fn space_at_or_end(s: Seq<char>, i: int) -> int
    decreases remaining(s.len() as int, i),
{
    if 0 <= i < s.len() && s[i] != ' ' {
        space_at_or_end(s, i + 1)
    } else {
        i
    }
}

/// The rest of a quoted argument from `k` on, after `tok`: a backslash takes the next
/// character as it is; the argument and the position after the closing quote.
pub open spec fn quoted_arg(s: Seq<char>, k: int, tok: Seq<char>) -> Result<
    (Seq<char>, int),
    ShellParseError,
>
    decreases remaining(s.len() as int, k),
{
    if k < 0 || k >= s.len() {
        Err(ShellParseError::UnclosedQuote)
    } else if s[k] == '\'' {
        Ok((tok, k + 1))
    } else if s[k] == '\\' {
        if k + 1 >= s.len() {
            Err(ShellParseError::IncompleteEscape)
        } else {
            quoted_arg(s, k + 2, tok.push(s[k + 1]))
        }
    } else {
        quoted_arg(s, k + 1, tok.push(s[k]))
    }
}

/// The arguments from `i` on, after `acc`: white space separates them; an argument is
/// quoted with `'` or runs up to the next space.
pub open spec fn args_from(s: Seq<char>, i: int, acc: Seq<Seq<char>>) -> Result<
    Seq<Seq<char>>,
    ShellParseError,
>
    decreases remaining(s.len() as int, i),
{
    let j = ws_skipped(s, i);
    if j < 0 || j >= s.len() || j < i {
        Ok(acc)
    } else if s[j] == '\'' {
        match quoted_arg(s, j + 1, Seq::empty()) {
            Err(e) => Err(e),
            Ok((tok, e)) => if e <= i {
                Ok(acc)
            } else {
                args_from(s, e, acc.push(tok))
            },
        }
    } else {
        let e = space_at_or_end(s, j);
        if e <= i {
            Ok(acc)
        } else {
            args_from(s, e, acc.push(s.subrange(j, e)))
        }
    }
}

/// The arguments of a line.
pub open spec fn shell_args(s: Seq<char>) -> Result<Seq<Seq<char>>, ShellParseError> {
    args_from(s, 0, Seq::empty())
}

proof fn lemma_ws_skipped(s: Seq<char>, i: int)
    requires
        0 <= i <= s.len(),
    ensures
        i <= ws_skipped(s, i) <= s.len(),
    decreases s.len() - i,
{
    if i < s.len() && is_unicode_ws(s[i]) {
        lemma_ws_skipped(s, i + 1);
    }
}

proof fn lemma_space_at_or_end(s: Seq<char>, i: int)
    requires
        0 <= i <= s.len(),
    ensures
        i <= space_at_or_end(s, i) <= s.len(),
    decreases s.len() - i,
{
    if i < s.len() && s[i] != ' ' {
        lemma_space_at_or_end(s, i + 1);
    }
}

proof fn lemma_quoted_arg(s: Seq<char>, k: int, tok: Seq<char>)
    requires
        0 <= k,
    ensures
        quoted_arg(s, k, tok) matches Ok((_, e)) ==> k < e <= s.len(),
    decreases remaining(s.len() as int, k),
{
    if k < s.len() && s[k] != '\'' {
        if s[k] == '\\' {
            if k + 1 < s.len() {
                lemma_quoted_arg(s, k + 2, tok.push(s[k + 1]));
            }
        } else {
            lemma_quoted_arg(s, k + 1, tok.push(s[k]));
        }
    }
}

/// Splits a line into arguments: white space separates them; an argument is quoted
/// with `'`, where a backslash takes the next character as it is, or runs up to the
/// next space.
pub fn parse(line: &str) -> (r: Result<Vec<String>, ShellParseError>)
    ensures
        match r {
            Ok(v) => shell_args(line@) == Ok::<Seq<Seq<char>>, ShellParseError>(
                v@.map_values(|t: String| t@),
            ),
            Err(e) => shell_args(line@) == Err::<Seq<Seq<char>>, ShellParseError>(e),
        },
{
    let s = chars_of(line);
    let mut ret: Vec<String> = Vec::new();
    let mut i: usize = 0;
    assert(ret@.map_values(|t: String| t@) =~= Seq::<Seq<char>>::empty());
    loop
        invariant
            i <= s.len(),
            s@ == line@,
            shell_args(s@) == args_from(s@, i as int, ret@.map_values(|t: String| t@)),
        decreases s.len() - i,
    {
        let ghost acc = ret@.map_values(|t: String| t@);
        proof {
            lemma_ws_skipped(s@, i as int);
        }
        let mut j = i;
        while j < s.len() && is_unicode_ws_x(s[j])
            invariant
                i <= j <= s.len(),
                ws_skipped(s@, i as int) == ws_skipped(s@, j as int),
            decreases s.len() - j,
        {
            j = j + 1;
        }
        if j >= s.len() {
            return Ok(ret);
        }
        if s[j] == '\'' {
            let mut tok = String::new();
            let mut k = j + 1;
            proof {
                lemma_quoted_arg(s@, j + 1, Seq::empty());
            }
            loop
                invariant
                    i <= j < k <= s.len(),
                    s@ == line@,
                    j == ws_skipped(s@, i as int),
                    s@[j as int] == '\'',
                    shell_args(s@) == args_from(s@, i as int, acc),
                    quoted_arg(s@, j + 1, Seq::empty()) == quoted_arg(s@, k as int, tok@),
                ensures
                    i <= j < k < s.len(),
                    quoted_arg(s@, j + 1, Seq::empty()) == Ok::<(Seq<char>, int), ShellParseError>(
                        (tok@, k + 1),
                    ),
                decreases s.len() - k,
            {
                if k >= s.len() {
                    return Err(ShellParseError::UnclosedQuote);
                }
                if s[k] == '\'' {
                    break;
                } else if s[k] == '\\' {
                    if k + 1 >= s.len() {
                        return Err(ShellParseError::IncompleteEscape);
                    }
                    push_char(&mut tok, s[k + 1]);
                    k = k + 2;
                } else {
                    push_char(&mut tok, s[k]);
                    k = k + 1;
                }
            }
            assert(ret@.push(tok).map_values(|t: String| t@) =~= acc.push(tok@));
            ret.push(tok);
            i = k + 1;
        } else {
            let mut e = j;
            proof {
                lemma_space_at_or_end(s@, j as int);
            }
            while e < s.len() && s[e] != ' '
                invariant
                    j <= e <= s.len(),
                    space_at_or_end(s@, j as int) == space_at_or_end(s@, e as int),
                decreases s.len() - e,
            {
                e = e + 1;
            }
            let tok = string_from_range(&s, j, e);
            assert(ret@.push(tok).map_values(|t: String| t@) =~= acc.push(tok@));
            ret.push(tok);
            i = e;
        }
    }
}

} // verus!
