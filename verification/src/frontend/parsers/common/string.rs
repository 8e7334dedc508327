//! String literals: text between double quotes, in which a backslash starts
//! one of the escapes `\n`, `\t`, `\r`, `\0`, `\\`, `\"` and `\'`.
use vstd::prelude::*;

use crate::frontend::parsers::common::{
    char_at, fail, rem, res_bounded, res_view, Expectation, PResult, ParseError, SRes,
};
use crate::text::{str_to_chars, string_from_chars};

verus! {

/// The character an escape letter stands for.
pub open spec fn escape_of(c: char) -> Option<char> {
    if c == 'n' {
        Some('\n')
    } else if c == 't' {
        Some('\t')
    } else if c == 'r' {
        Some('\r')
    } else if c == '0' {
        Some('\0')
    } else if c == '\\' {
        Some('\\')
    } else if c == '"' {
        Some('"')
    } else if c == '\'' {
        Some('\'')
    } else {
        None
    }
}

/// The rest of a string literal from `q` on, after the characters `acc`
/// have been read: the position after the closing quote and the contents.
pub open spec fn string_body(s: Seq<char>, q: int, acc: Seq<char>) -> Result<
    (int, Seq<char>),
    ParseError,
>
    decreases rem(s, q),
{
    if !(0 <= q < s.len()) {
        Err(fail(q, Expectation::Char('"')))
    } else if s[q] == '"' {
        Ok((q + 1, acc))
    } else if s[q] == '\\' {
        if q + 1 < s.len() && escape_of(s[q + 1]) is Some {
            string_body(s, q + 2, acc.push(escape_of(s[q + 1])->0))
        } else {
            Err(fail(q, Expectation::Char('"')))
        }
    } else {
        string_body(s, q + 1, acc.push(s[q]))
    }
}

/// A string literal at `p`.
pub open spec fn spec_string(s: Seq<char>, p: int) -> SRes<Seq<char>> {
    if char_at(s, p, '"') {
        match string_body(s, p + 1, seq![]) {
            Ok((e, body)) => Ok(((e - p) as nat, body)),
            Err(err) => Err(err),
        }
    } else {
        Err(fail(p, Expectation::Char('"')))
    }
}

proof fn lemma_string_body_bounds(s: Seq<char>, q: int, acc: Seq<char>)
    requires
        0 <= q <= s.len(),
        s.len() <= usize::MAX,
    ensures
        string_body(s, q, acc) matches Ok((e, _)) ==> q < e <= s.len(),
        string_body(s, q, acc) matches Err(err) ==> q <= err.pos <= s.len(),
    decreases rem(s, q),
{
    if 0 <= q < s.len() && s[q] != '"' {
        if s[q] == '\\' {
            if q + 1 < s.len() && escape_of(s[q + 1]) is Some {
                lemma_string_body_bounds(s, q + 2, acc.push(escape_of(s[q + 1])->0));
            }
        } else {
            lemma_string_body_bounds(s, q + 1, acc.push(s[q]));
        }
    }
}

fn escape_char(c: char) -> (r: Option<char>)
    ensures
        r == escape_of(c),
{
    if c == 'n' {
        Some('\n')
    } else if c == 't' {
        Some('\t')
    } else if c == 'r' {
        Some('\r')
    } else if c == '0' {
        Some('\0')
    } else if c == '\\' {
        Some('\\')
    } else if c == '"' {
        Some('"')
    } else if c == '\'' {
        Some('\'')
    } else {
        None
    }
}

/// A string literal at `p`.
pub fn string_p(s: &Vec<char>, p: usize) -> (r: PResult<String>)
    requires
        p <= s.len(),
    ensures
        res_view(r, p as int, spec_string(s@, p as int)),
        res_bounded(r, p as int, s.len() as int),
{
    if !(p < s.len() && s[p] == '"') {
        return Err(ParseError { pos: p, expected: Expectation::Char('"'), fatal: false });
    }
    let ghost start = string_body(s@, p + 1, seq![]);
    let mut acc: Vec<char> = Vec::new();
    let mut q: usize = p + 1;
    loop
        invariant
            p < s.len(),
            s@[p as int] == '"',
            p < q <= s.len() + 1,
            q <= s.len() || string_body(s@, q as int, acc@) is Err,
            start == string_body(s@, q as int, acc@),
            start == string_body(s@, p + 1, seq![]),
        decreases s.len() + 1 - q,
    {
        if q >= s.len() {
            proof {
                lemma_string_body_bounds(s@, p + 1, seq![]);
            }
            return Err(ParseError { pos: q, expected: Expectation::Char('"'), fatal: false });
        }
        let c = s[q];
        if c == '"' {
            proof {
                lemma_string_body_bounds(s@, p + 1, seq![]);
            }
            return Ok((q + 1, string_from_chars(acc.as_slice())));
        } else if c == '\\' {
            if q + 1 < s.len() {
                match escape_char(s[q + 1]) {
                    Some(e) => {
                        acc.push(e);
                        q = q + 2;
                    },
                    None => {
                        return Err(
                            ParseError { pos: q, expected: Expectation::Char('"'), fatal: false },
                        );
                    },
                }
            } else {
                return Err(ParseError { pos: q, expected: Expectation::Char('"'), fatal: false });
            }
        } else {
            acc.push(c);
            q = q + 1;
        }
    }
}

/// A string literal at the start of `input`.
pub fn span_parse_string(input: &str) -> (r: PResult<String>)
    ensures
        res_view(r, 0, spec_string(input@, 0)),
{
    let s = str_to_chars(input);
    string_p(&s, 0)
}

} // verus!
